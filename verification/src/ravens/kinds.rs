//! The kinds of the objects of a document, told apart.

use vstd::prelude::*;

use crate::ravens::accept::{is_word, stands_alone};

verus! {

/// What kinds are told apart by: their length, and their first and last letter.
pub open spec fn mark(x: Seq<char>) -> (nat, char, char) {
    (x.len(), x[0], x[x.len() - 1])
}

/// The marks of the kinds that are written or read.
pub proof fn lemma_marks()
    ensures
        mark("Terminal"@) == (8nat, 'T', 'l'),
        mark("CurrentLimit"@) == (12nat, 'C', 't'),
        mark("VoltageLimit"@) == (12nat, 'V', 't'),
        mark("OperationalLimitSet"@) == (19nat, 'O', 't'),
        mark("OperationalLimitType"@) == (20nat, 'O', 'e'),
        mark("PhaseImpedanceData"@) == (18nat, 'P', 'a'),
        mark("ACLineSegmentPhase"@) == (18nat, 'A', 'e'),
        mark("SwitchPhase"@) == (11nat, 'S', 'e'),
        mark("EnergyConnectionProfile"@) == (23nat, 'E', 'e'),
        mark("EnergyConsumerPhase"@) == (19nat, 'E', 'e'),
        mark("GeneratingUnit"@) == (14nat, 'G', 't'),
        mark("PhotoVoltaicUnit"@) == (16nat, 'P', 't'),
        mark("BatteryUnit"@) == (11nat, 'B', 't'),
        mark("TransformerTankEnd"@) == (18nat, 'T', 'd'),
        mark("TransformerEndInfo"@) == (18nat, 'T', 'o'),
        mark("ShortCircuitTest"@) == (16nat, 'S', 't'),
        mark("NoLoadTest"@) == (10nat, 'N', 't'),
        mark("PositionPoint"@) == (13nat, 'P', 't'),
        mark("IEC61970CIMVersion"@) == (18nat, 'I', 'n'),
        mark("RavensVersion"@) == (13nat, 'R', 'n'),
        mark("PerLengthPhaseImpedance"@) == (23nat, 'P', 'e'),
        mark("ACLineSegment"@) == (13nat, 'A', 't'),
        mark("Switch"@) == (6nat, 'S', 'h'),
        mark("EnergyConsumer"@) == (14nat, 'E', 'r'),
        mark("LinearShuntCompensator"@) == (22nat, 'L', 'r'),
        mark("SynchronousMachine"@) == (18nat, 'S', 'e'),
        mark("PowerElectronicsConnection"@) == (26nat, 'P', 'n'),
        mark("EnergySource"@) == (12nat, 'E', 'e'),
        mark("PowerTransformer"@) == (16nat, 'P', 'r'),
        mark("ConnectivityNode"@) == (16nat, 'C', 'e'),
        mark("Location"@) == (8nat, 'L', 'n'),
        mark("LoadResponseCharacteristic"@) == (26nat, 'L', 'c'),
        mark("TransformerTankInfo"@) == (19nat, 'T', 'o'),
        mark("BaseVoltage"@) == (11nat, 'B', 'e'),
        mark("TransformerTank"@) == (15nat, 'T', 'k'),
        mark("LoadBreakSwitch"@) == (15nat, 'L', 'h'),
        mark("Breaker"@) == (7nat, 'B', 'r'),
        mark("Recloser"@) == (8nat, 'R', 'r'),
        mark("BatteryUnitEfficiency"@) == (21nat, 'B', 'y'),
        mark("AsynchronousMachine"@) == (19nat, 'A', 'e'),
{
    reveal_strlit("Terminal");
    reveal_strlit("CurrentLimit");
    reveal_strlit("VoltageLimit");
    reveal_strlit("OperationalLimitSet");
    reveal_strlit("OperationalLimitType");
    reveal_strlit("PhaseImpedanceData");
    reveal_strlit("ACLineSegmentPhase");
    reveal_strlit("SwitchPhase");
    reveal_strlit("EnergyConnectionProfile");
    reveal_strlit("EnergyConsumerPhase");
    reveal_strlit("GeneratingUnit");
    reveal_strlit("PhotoVoltaicUnit");
    reveal_strlit("BatteryUnit");
    reveal_strlit("TransformerTankEnd");
    reveal_strlit("TransformerEndInfo");
    reveal_strlit("ShortCircuitTest");
    reveal_strlit("NoLoadTest");
    reveal_strlit("PositionPoint");
    reveal_strlit("IEC61970CIMVersion");
    reveal_strlit("RavensVersion");
    reveal_strlit("PerLengthPhaseImpedance");
    reveal_strlit("ACLineSegment");
    reveal_strlit("Switch");
    reveal_strlit("EnergyConsumer");
    reveal_strlit("LinearShuntCompensator");
    reveal_strlit("SynchronousMachine");
    reveal_strlit("PowerElectronicsConnection");
    reveal_strlit("EnergySource");
    reveal_strlit("PowerTransformer");
    reveal_strlit("ConnectivityNode");
    reveal_strlit("Location");
    reveal_strlit("LoadResponseCharacteristic");
    reveal_strlit("TransformerTankInfo");
    reveal_strlit("BaseVoltage");
    reveal_strlit("TransformerTank");
    reveal_strlit("LoadBreakSwitch");
    reveal_strlit("Breaker");
    reveal_strlit("Recloser");
    reveal_strlit("AsynchronousMachine");
    reveal_strlit("BatteryUnitEfficiency");
    assert("Terminal"@.len() == 8);
    assert("CurrentLimit"@.len() == 12);
    assert("VoltageLimit"@.len() == 12);
    assert("OperationalLimitSet"@.len() == 19);
    assert("OperationalLimitType"@.len() == 20);
    assert("PhaseImpedanceData"@.len() == 18);
    assert("ACLineSegmentPhase"@.len() == 18);
    assert("SwitchPhase"@.len() == 11);
    assert("EnergyConnectionProfile"@.len() == 23);
    assert("EnergyConsumerPhase"@.len() == 19);
    assert("GeneratingUnit"@.len() == 14);
    assert("PhotoVoltaicUnit"@.len() == 16);
    assert("BatteryUnit"@.len() == 11);
    assert("TransformerTankEnd"@.len() == 18);
    assert("TransformerEndInfo"@.len() == 18);
    assert("ShortCircuitTest"@.len() == 16);
    assert("NoLoadTest"@.len() == 10);
    assert("PositionPoint"@.len() == 13);
    assert("IEC61970CIMVersion"@.len() == 18);
    assert("RavensVersion"@.len() == 13);
    assert("PerLengthPhaseImpedance"@.len() == 23);
    assert("ACLineSegment"@.len() == 13);
    assert("Switch"@.len() == 6);
    assert("EnergyConsumer"@.len() == 14);
    assert("LinearShuntCompensator"@.len() == 22);
    assert("SynchronousMachine"@.len() == 18);
    assert("PowerElectronicsConnection"@.len() == 26);
    assert("EnergySource"@.len() == 12);
    assert("PowerTransformer"@.len() == 16);
    assert("ConnectivityNode"@.len() == 16);
    assert("Location"@.len() == 8);
    assert("LoadResponseCharacteristic"@.len() == 26);
    assert("TransformerTankInfo"@.len() == 19);
    assert("BaseVoltage"@.len() == 11);
    assert("TransformerTank"@.len() == 15);
    assert("LoadBreakSwitch"@.len() == 15);
    assert("Breaker"@.len() == 7);
    assert("Recloser"@.len() == 8);
    assert("AsynchronousMachine"@.len() == 19);
    assert("BatteryUnitEfficiency"@.len() == 21);
}

proof fn lemma_words()
    ensures
        is_word("PerLengthPhaseImpedance"@),
        is_word("ACLineSegment"@),
        is_word("Switch"@),
        is_word("LoadBreakSwitch"@),
        is_word("Breaker"@),
        is_word("Recloser"@),
        is_word("EnergyConsumer"@),
        is_word("LinearShuntCompensator"@),
        is_word("SynchronousMachine"@),
        is_word("AsynchronousMachine"@),
        is_word("PowerElectronicsConnection"@),
        is_word("EnergySource"@),
        is_word("TransformerTank"@),
        is_word("ConnectivityNode"@),
        is_word("Location"@),
{
    reveal_strlit("PerLengthPhaseImpedance");
    reveal_strlit("ACLineSegment");
    reveal_strlit("Switch");
    reveal_strlit("LoadBreakSwitch");
    reveal_strlit("Breaker");
    reveal_strlit("Recloser");
    reveal_strlit("EnergyConsumer");
    reveal_strlit("LinearShuntCompensator");
    reveal_strlit("SynchronousMachine");
    reveal_strlit("AsynchronousMachine");
    reveal_strlit("PowerElectronicsConnection");
    reveal_strlit("EnergySource");
    reveal_strlit("TransformerTank");
    reveal_strlit("ConnectivityNode");
    reveal_strlit("Location");
}

/// Each kind that is read stands alone.
pub proof fn lemma_read_kinds_stand_alone()
    ensures
        stands_alone("PerLengthPhaseImpedance"@),
        stands_alone("ACLineSegment"@),
        stands_alone("Switch"@),
        stands_alone("LoadBreakSwitch"@),
        stands_alone("Breaker"@),
        stands_alone("Recloser"@),
        stands_alone("EnergyConsumer"@),
        stands_alone("LinearShuntCompensator"@),
        stands_alone("SynchronousMachine"@),
        stands_alone("AsynchronousMachine"@),
        stands_alone("PowerElectronicsConnection"@),
        stands_alone("EnergySource"@),
        stands_alone("TransformerTank"@),
        stands_alone("ConnectivityNode"@),
        stands_alone("Location"@),
{
    lemma_marks();
    lemma_words();
}

} // verus!
