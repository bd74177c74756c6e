//! A written document reads back as the objects that were written.

use vstd::prelude::*;

use crate::cim::laws::{
    cim_namespace, class_name, empty_doc, lemma_foot, lemma_head, group_faithful, inside,
    lemma_code_safe, lemma_derived_safe, lemma_mrid_safe, lemma_node_safe, lemma_phases_safe,
    lemma_safe_add, plain, ready, safe, safe_extras, safe_ids,
};
use crate::cim::store::CimDocumentV;
use crate::cim::write::{
    buses_doc, cim_xml, connection_of, frequency_doc, line_doc, line_phases_doc, linecodes_doc,
    lines_doc, load_doc, load_phases_doc, loads_doc, mrid_of, network_doc, node_of, phase_code_of,
    phases_n, row_doc, shunt_phases_doc, shunts_doc, sources_doc, switches_doc, transformers_doc,
    triangle_doc, windings_doc, DocV,
};
use crate::cim::xml::cimxml_of;
use crate::error::ErrorV;
use crate::math::Sem;
use crate::model::{DistLineCodeV, DistLineV, DistLoadV, DistNetworkV, DistShuntV, DistTransformerV};
use crate::numeral::dec_of;

verus! {

// ---- names -----------------------------------------------------------------

proof fn lemma_bus_names()
    ensures
        class_name("ConnectivityNode"@),
{
    reveal_strlit("FullModel");
    reveal_strlit("ConnectivityNode");
    assert("ConnectivityNode"@.len() != "FullModel"@.len());
}

proof fn lemma_linecode_names()
    ensures
        class_name("PerLengthPhaseImpedance"@),
        class_name("PhaseImpedanceData"@),
        plain("PerLengthPhaseImpedance.conductorCount"@),
        plain("PhaseImpedanceData.PerLengthPhaseImpedance"@),
        plain("PhaseImpedanceData.row"@),
        plain("PhaseImpedanceData.column"@),
        plain("PhaseImpedanceData.r"@),
        plain("PhaseImpedanceData.x"@),
        plain("PhaseImpedanceData.b"@),
{
    reveal_strlit("FullModel");
    reveal_strlit("PerLengthPhaseImpedance");
    reveal_strlit("PhaseImpedanceData");
    reveal_strlit("PerLengthPhaseImpedance.conductorCount");
    reveal_strlit("PhaseImpedanceData.PerLengthPhaseImpedance");
    reveal_strlit("PhaseImpedanceData.row");
    reveal_strlit("PhaseImpedanceData.column");
    reveal_strlit("PhaseImpedanceData.r");
    reveal_strlit("PhaseImpedanceData.x");
    reveal_strlit("PhaseImpedanceData.b");
    assert("PerLengthPhaseImpedance"@.len() != "FullModel"@.len());
    assert("PhaseImpedanceData"@.len() != "FullModel"@.len());
}

proof fn lemma_line_names()
    ensures
        class_name("ACLineSegment"@),
        class_name("ACLineSegmentPhase"@),
        plain("Conductor.length"@),
        plain("ACLineSegment.PerLengthImpedance"@),
        plain("ACLineSegmentPhase.ACLineSegment"@),
        plain("ACLineSegmentPhase.phase"@),
        plain("ACLineSegmentPhase.sequenceNumber"@),
        safe("SinglePhaseKind."@),
{
    reveal_strlit("FullModel");
    reveal_strlit("ACLineSegment");
    reveal_strlit("ACLineSegmentPhase");
    reveal_strlit("Conductor.length");
    reveal_strlit("ACLineSegment.PerLengthImpedance");
    reveal_strlit("ACLineSegmentPhase.ACLineSegment");
    reveal_strlit("ACLineSegmentPhase.phase");
    reveal_strlit("ACLineSegmentPhase.sequenceNumber");
    reveal_strlit("SinglePhaseKind.");
    assert("ACLineSegment"@.len() != "FullModel"@.len());
    assert("ACLineSegmentPhase"@.len() != "FullModel"@.len());
}

proof fn lemma_load_names()
    ensures
        class_name("EnergyConsumer"@),
        class_name("EnergyConsumerPhase"@),
        plain("EnergyConsumer.phaseConnection"@),
        plain("EnergyConsumerPhase.EnergyConsumer"@),
        plain("EnergyConsumerPhase.phase"@),
        plain("EnergyConsumerPhase.p"@),
        plain("EnergyConsumerPhase.q"@),
        safe("SinglePhaseKind."@),
        safe("PhaseShuntConnectionKind."@),
        safe("D"@),
        safe("I"@),
        safe("Y"@),
{
    reveal_strlit("FullModel");
    reveal_strlit("EnergyConsumer");
    reveal_strlit("EnergyConsumerPhase");
    reveal_strlit("EnergyConsumer.phaseConnection");
    reveal_strlit("EnergyConsumerPhase.EnergyConsumer");
    reveal_strlit("EnergyConsumerPhase.phase");
    reveal_strlit("EnergyConsumerPhase.p");
    reveal_strlit("EnergyConsumerPhase.q");
    reveal_strlit("SinglePhaseKind.");
    reveal_strlit("PhaseShuntConnectionKind.");
    reveal_strlit("D");
    reveal_strlit("I");
    reveal_strlit("Y");
    assert("EnergyConsumer"@.len() != "FullModel"@.len());
    assert("EnergyConsumerPhase"@.len() != "FullModel"@.len());
}

proof fn lemma_shunt_names()
    ensures
        class_name("LinearShuntCompensator"@),
        class_name("ShuntCompensatorPhase"@),
        plain("ShuntCompensatorPhase.ShuntCompensator"@),
        plain("ShuntCompensatorPhase.phase"@),
        plain("ShuntCompensatorPhase.bPerSection"@),
        plain("ShuntCompensatorPhase.gPerSection"@),
        safe("SinglePhaseKind."@),
{
    reveal_strlit("FullModel");
    reveal_strlit("LinearShuntCompensator");
    reveal_strlit("ShuntCompensatorPhase");
    reveal_strlit("ShuntCompensatorPhase.ShuntCompensator");
    reveal_strlit("ShuntCompensatorPhase.phase");
    reveal_strlit("ShuntCompensatorPhase.bPerSection");
    reveal_strlit("ShuntCompensatorPhase.gPerSection");
    reveal_strlit("SinglePhaseKind.");
    assert("LinearShuntCompensator"@.len() != "FullModel"@.len());
    assert("ShuntCompensatorPhase"@.len() != "FullModel"@.len());
}

proof fn lemma_switch_names()
    ensures
        class_name("LoadBreakSwitch"@),
        plain("Switch.normalOpen"@),
        plain("Switch.open"@),
{
    reveal_strlit("FullModel");
    reveal_strlit("LoadBreakSwitch");
    reveal_strlit("Switch.normalOpen");
    reveal_strlit("Switch.open");
    assert("LoadBreakSwitch"@.len() != "FullModel"@.len());
}

proof fn lemma_transformer_names()
    ensures
        class_name("PowerTransformer"@),
        class_name("PowerTransformerEnd"@),
        plain("PowerTransformerEnd.PowerTransformer"@),
        plain("TransformerEnd.endNumber"@),
        plain("TransformerEnd.Terminal"@),
        plain("PowerTransformerEnd.ratedU"@),
        plain("PowerTransformerEnd.ratedS"@),
        plain("PowerTransformerEnd.connectionKind"@),
        plain("PowerTransformerEnd.r"@),
        plain("PowerTransformerEnd.x"@),
        safe("WindingConnection."@),
        safe("D"@),
        safe("Yn"@),
{
    reveal_strlit("FullModel");
    reveal_strlit("PowerTransformer");
    reveal_strlit("PowerTransformerEnd");
    reveal_strlit("PowerTransformerEnd.PowerTransformer");
    reveal_strlit("TransformerEnd.endNumber");
    reveal_strlit("TransformerEnd.Terminal");
    reveal_strlit("PowerTransformerEnd.ratedU");
    reveal_strlit("PowerTransformerEnd.ratedS");
    reveal_strlit("PowerTransformerEnd.connectionKind");
    reveal_strlit("PowerTransformerEnd.r");
    reveal_strlit("PowerTransformerEnd.x");
    reveal_strlit("WindingConnection.");
    reveal_strlit("D");
    reveal_strlit("Yn");
    assert("PowerTransformer"@.len() != "FullModel"@.len());
    assert("PowerTransformerEnd"@.len() != "FullModel"@.len());
}

proof fn lemma_source_names()
    ensures
        class_name("EnergySource"@),
        class_name("BaseFrequency"@),
        plain("EnergySource.voltageMagnitude"@),
        plain("EnergySource.voltageAngle"@),
        plain("EnergySource.nominalVoltage"@),
        plain("BaseFrequency.frequency"@),
        plain("IdentifiedObject.name"@),
{
    reveal_strlit("FullModel");
    reveal_strlit("EnergySource");
    reveal_strlit("BaseFrequency");
    reveal_strlit("EnergySource.voltageMagnitude");
    reveal_strlit("EnergySource.voltageAngle");
    reveal_strlit("EnergySource.nominalVoltage");
    reveal_strlit("BaseFrequency.frequency");
    reveal_strlit("IdentifiedObject.name");
    assert("EnergySource"@.len() != "FullModel"@.len());
    assert("BaseFrequency"@.len() != "FullModel"@.len());
}

// ---- elements --------------------------------------------------------------

proof fn lemma_buses(d: DocV, net: DistNetworkV, n: nat)
    requires
        ready(d),
        safe_ids(net),
        n <= net.buses.len(),
    ensures
        ready(buses_doc(d, net, n)),
    decreases n,
{
    broadcast use group_faithful;

    if n > 0 {
        lemma_buses(d, net, (n - 1) as nat);
        lemma_bus_names();
        let b = net.buses[n - 1];
        lemma_mrid_safe(b.extras, "node"@, b.id);
    }
}

proof fn lemma_row(m: Sem, d: DocV, lc: DistLineCodeV, id: Seq<char>, i: nat, j: nat)
    requires
        ready(d),
        safe(id),
    ensures
        ready(row_doc(m, d, lc, id, i, j)),
    decreases j,
{
    broadcast use group_faithful;

    if j > 0 {
        lemma_row(m, d, lc, id, i, (j - 1) as nat);
        lemma_linecode_names();
    }
}

proof fn lemma_triangle(m: Sem, d: DocV, lc: DistLineCodeV, id: Seq<char>, i: nat)
    requires
        ready(d),
        safe(id),
    ensures
        ready(triangle_doc(m, d, lc, id, i)),
    decreases i,
{
    if i > 0 {
        lemma_triangle(m, d, lc, id, (i - 1) as nat);
        lemma_row(m, triangle_doc(m, d, lc, id, (i - 1) as nat), lc, id, (i - 1) as nat, i);
    }
}

proof fn lemma_linecodes(m: Sem, d: DocV, net: DistNetworkV, n: nat)
    requires
        ready(d),
        safe_ids(net),
        n <= net.linecodes.len(),
    ensures
        ready(linecodes_doc(m, d, net, n)),
    decreases n,
{
    broadcast use group_faithful;

    if n > 0 {
        lemma_linecodes(m, d, net, (n - 1) as nat);
        lemma_linecode_names();
        let b = linecodes_doc(m, d, net, (n - 1) as nat);
        let lc = net.linecodes[n - 1];
        let id = mrid_of(lc.extras, "plpi"@, lc.name);
        lemma_mrid_safe(lc.extras, "plpi"@, lc.name);
        let head = b.named("PerLengthPhaseImpedance"@, id, lc.name).text(
            "PerLengthPhaseImpedance.conductorCount"@,
            dec_of(lc.n_conductors as nat),
        ).close("PerLengthPhaseImpedance"@);
        assert(ready(head));
        lemma_triangle(m, head, lc, id, lc.n_conductors as nat);
    }
}

proof fn lemma_line_phases(d: DocV, name: Seq<char>, id: Seq<char>, phases: Seq<Seq<char>>, n: nat)
    requires
        ready(d),
        safe(id),
        n <= phases.len(),
        forall|i: int| 0 <= i < phases.len() ==> safe(#[trigger] phases[i]),
    ensures
        ready(line_phases_doc(d, name, id, phases, n)),
    decreases n,
{
    broadcast use group_faithful;

    if n > 0 {
        lemma_line_phases(d, name, id, phases, (n - 1) as nat);
        lemma_line_names();
        lemma_safe_add("SinglePhaseKind."@, phases[n - 1]);
    }
}

proof fn lemma_lines(m: Sem, d: DocV, net: DistNetworkV, n: nat)
    requires
        ready(d),
        safe_ids(net),
        n <= net.lines.len(),
    ensures
        ready(lines_doc(m, d, net, n)),
    decreases n,
{
    if n > 0 {
        lemma_lines(m, d, net, (n - 1) as nat);
        lemma_line(m, lines_doc(m, d, net, (n - 1) as nat), net, net.lines[n - 1]);
    }
}

proof fn lemma_line(m: Sem, d: DocV, net: DistNetworkV, line: DistLineV)
    requires
        ready(d),
        safe_ids(net),
        safe_extras(line.extras),
    ensures
        ready(line_doc(m, d, net, line)),
{
    broadcast use group_faithful;

    lemma_line_names();
    let id = mrid_of(line.extras, "line"@, line.name);
    lemma_mrid_safe(line.extras, "line"@, line.name);
    lemma_node_safe(net, line.bus_from);
    lemma_node_safe(net, line.bus_to);
    let head = d.named("ACLineSegment"@, id, line.name).text(
        "Conductor.length"@,
        (m.show)(line.length),
    );
    assert(inside(head, "ACLineSegment"@));
    lemma_code_safe(net.linecodes, line.linecode, 0);
    match net.linecode(line.linecode) {
        Some(lc) => {
            lemma_mrid_safe(lc.extras, "plpi"@, lc.name);
        },
        None => {},
    }
    let coded = match net.linecode(line.linecode) {
        Some(lc) => head.reference(
            "ACLineSegment.PerLengthImpedance"@,
            mrid_of(lc.extras, "plpi"@, lc.name),
        ),
        None => head.warn(
            "line "@ + line.name + ": linecode `"@ + line.linecode
                + "` is not defined; the segment is written without impedance"@,
        ),
    };
    assert(inside(coded, "ACLineSegment"@));
    let wired = coded.close("ACLineSegment"@).terminal(
        id,
        1,
        node_of(net, line.bus_from),
        phase_code_of(line.terminal_map_from),
    ).terminal(id, 2, node_of(net, line.bus_to), phase_code_of(line.terminal_map_to));
    assert(ready(wired));
    let phases = phases_n(line.terminal_map_from, line.terminal_map_from.len());
    lemma_phases_safe(line.terminal_map_from, line.terminal_map_from.len());
    lemma_line_phases(wired, line.name, id, phases, phases.len());
}

proof fn lemma_load_phases(
    m: Sem,
    d: DocV,
    load: DistLoadV,
    id: Seq<char>,
    phases: Seq<Seq<char>>,
    n: nat,
)
    requires
        ready(d),
        safe(id),
        n <= phases.len(),
        forall|i: int| 0 <= i < phases.len() ==> safe(#[trigger] phases[i]),
    ensures
        ready(load_phases_doc(m, d, load, id, phases, n)),
    decreases n,
{
    broadcast use group_faithful;

    if n > 0 {
        lemma_load_phases(m, d, load, id, phases, (n - 1) as nat);
        lemma_load_names();
        lemma_safe_add("SinglePhaseKind."@, phases[n - 1]);
    }
}

proof fn lemma_load(m: Sem, d: DocV, net: DistNetworkV, load: DistLoadV)
    requires
        ready(d),
        safe_ids(net),
        safe_extras(load.extras),
    ensures
        ready(load_doc(m, d, net, load)),
{
    broadcast use group_faithful;

    lemma_load_names();
    let id = mrid_of(load.extras, "load"@, load.name);
    lemma_mrid_safe(load.extras, "load"@, load.name);
    lemma_node_safe(net, load.bus);
    lemma_safe_add("PhaseShuntConnectionKind."@, connection_of(load.configuration));
    let phases = phases_n(load.terminal_map, load.terminal_map.len());
    let wired = d.named("EnergyConsumer"@, id, load.name).enumeration(
        "EnergyConsumer.phaseConnection"@,
        "PhaseShuntConnectionKind."@ + connection_of(load.configuration),
    ).close("EnergyConsumer"@).terminal(
        id,
        1,
        node_of(net, load.bus),
        phase_code_of(load.terminal_map),
    );
    assert(ready(wired));
    lemma_phases_safe(load.terminal_map, load.terminal_map.len());
    lemma_load_phases(m, wired, load, id, phases, phases.len());
}

proof fn lemma_loads(m: Sem, d: DocV, net: DistNetworkV, n: nat)
    requires
        ready(d),
        safe_ids(net),
        n <= net.loads.len(),
    ensures
        ready(loads_doc(m, d, net, n)),
    decreases n,
{
    if n > 0 {
        lemma_loads(m, d, net, (n - 1) as nat);
        lemma_load(m, loads_doc(m, d, net, (n - 1) as nat), net, net.loads[n - 1]);
    }
}

proof fn lemma_shunt_phases(
    m: Sem,
    d: DocV,
    shunt: DistShuntV,
    id: Seq<char>,
    phases: Seq<Seq<char>>,
    n: nat,
)
    requires
        ready(d),
        safe(id),
        n <= phases.len(),
        forall|i: int| 0 <= i < phases.len() ==> safe(#[trigger] phases[i]),
    ensures
        ready(shunt_phases_doc(m, d, shunt, id, phases, n)),
    decreases n,
{
    broadcast use group_faithful;

    if n > 0 {
        lemma_shunt_phases(m, d, shunt, id, phases, (n - 1) as nat);
        lemma_shunt_names();
        lemma_safe_add("SinglePhaseKind."@, phases[n - 1]);
    }
}

proof fn lemma_shunts(m: Sem, d: DocV, net: DistNetworkV, n: nat)
    requires
        ready(d),
        safe_ids(net),
        n <= net.shunts.len(),
    ensures
        ready(shunts_doc(m, d, net, n)),
    decreases n,
{
    broadcast use group_faithful;

    if n > 0 {
        lemma_shunts(m, d, net, (n - 1) as nat);
        lemma_shunt_names();
        let b = shunts_doc(m, d, net, (n - 1) as nat);
        let shunt = net.shunts[n - 1];
        let id = mrid_of(shunt.extras, "shunt"@, shunt.name);
        lemma_mrid_safe(shunt.extras, "shunt"@, shunt.name);
        lemma_node_safe(net, shunt.bus);
        let phases = phases_n(shunt.terminal_map, shunt.terminal_map.len());
        let wired = b.named("LinearShuntCompensator"@, id, shunt.name).close(
            "LinearShuntCompensator"@,
        ).terminal(id, 1, node_of(net, shunt.bus), phase_code_of(shunt.terminal_map));
        assert(ready(wired));
        lemma_phases_safe(shunt.terminal_map, shunt.terminal_map.len());
        lemma_shunt_phases(m, wired, shunt, id, phases, phases.len());
    }
}

proof fn lemma_switches(d: DocV, net: DistNetworkV, n: nat)
    requires
        ready(d),
        safe_ids(net),
        n <= net.switches.len(),
    ensures
        ready(switches_doc(d, net, n)),
    decreases n,
{
    broadcast use group_faithful;

    if n > 0 {
        lemma_switches(d, net, (n - 1) as nat);
        lemma_switch_names();
        let s = net.switches[n - 1];
        lemma_mrid_safe(s.extras, "switch"@, s.name);
        lemma_node_safe(net, s.bus_from);
        lemma_node_safe(net, s.bus_to);
    }
}

proof fn lemma_windings(
    m: Sem,
    d: DocV,
    net: DistNetworkV,
    xf: DistTransformerV,
    id: Seq<char>,
    n: nat,
)
    requires
        ready(d),
        safe_ids(net),
        safe(id),
    ensures
        ready(windings_doc(m, d, net, xf, id, n)),
    decreases n,
{
    broadcast use group_faithful;

    if n > 0 {
        lemma_windings(m, d, net, xf, id, (n - 1) as nat);
        lemma_transformer_names();
        let w = xf.windings[n - 1];
        lemma_node_safe(net, w.bus);
        lemma_safe_add("WindingConnection."@, "D"@);
        lemma_safe_add("WindingConnection."@, "Yn"@);
        lemma_derived_safe("terminal"@, id + ":"@ + dec_of(n));
    }
}

proof fn lemma_transformers(m: Sem, d: DocV, net: DistNetworkV, n: nat)
    requires
        ready(d),
        safe_ids(net),
        n <= net.transformers.len(),
    ensures
        ready(transformers_doc(m, d, net, n)),
    decreases n,
{
    broadcast use group_faithful;

    if n > 0 {
        lemma_transformers(m, d, net, (n - 1) as nat);
        lemma_transformer_names();
        let b = transformers_doc(m, d, net, (n - 1) as nat);
        let xf = net.transformers[n - 1];
        let id = mrid_of(xf.extras, "xf"@, xf.name);
        lemma_mrid_safe(xf.extras, "xf"@, xf.name);
        let head = b.named("PowerTransformer"@, id, xf.name).close("PowerTransformer"@);
        assert(ready(head));
        lemma_windings(m, head, net, xf, id, 2);
    }
}

proof fn lemma_sources(m: Sem, d: DocV, net: DistNetworkV, n: nat)
    requires
        ready(d),
        safe_ids(net),
        n <= net.sources.len(),
    ensures
        ready(sources_doc(m, d, net, n)),
    decreases n,
{
    broadcast use group_faithful;

    if n > 0 {
        lemma_sources(m, d, net, (n - 1) as nat);
        lemma_source_names();
        let s = net.sources[n - 1];
        lemma_mrid_safe(s.extras, "source"@, s.name);
        lemma_node_safe(net, s.bus);
    }
}

// ---- the network -----------------------------------------------------------

/// A document under construction stays one that reads as what was written.
proof fn lemma_network(m: Sem, net: DistNetworkV)
    requires
        safe_ids(net),
    ensures
        ready(network_doc(m, net)),
{
    broadcast use group_faithful;

    lemma_head();
    let d0 = empty_doc();
    lemma_source_names();
    let d1 = frequency_doc(m, d0, net);
    assert(ready(d1));
    lemma_buses(d1, net, net.buses.len());
    let d2 = buses_doc(d1, net, net.buses.len());
    lemma_linecodes(m, d2, net, net.linecodes.len());
    let d3 = linecodes_doc(m, d2, net, net.linecodes.len());
    lemma_lines(m, d3, net, net.lines.len());
    let d4 = lines_doc(m, d3, net, net.lines.len());
    lemma_loads(m, d4, net, net.loads.len());
    let d5 = loads_doc(m, d4, net, net.loads.len());
    lemma_shunts(m, d5, net, net.shunts.len());
    let d6 = shunts_doc(m, d5, net, net.shunts.len());
    lemma_switches(d6, net, net.switches.len());
    let d7 = switches_doc(d6, net, net.switches.len());
    lemma_transformers(m, d7, net, net.transformers.len());
    let d8 = transformers_doc(m, d7, net, net.transformers.len());
    lemma_sources(m, d8, net, net.sources.len());
}

/// The reader undoes the writer: a document written of a network reads as
/// exactly the objects that were written, in order, each with its class,
/// identifier, references and text. Imported identifiers must be such that an
/// attribute holds them as they are.
pub proof fn lemma_written_document_reads_back(m: Sem, net: DistNetworkV)
    requires
        safe_ids(net),
    ensures
        cimxml_of(cim_xml(m, net).text) == Ok::<CimDocumentV, ErrorV>(
            (CimDocumentV {
                objects: network_doc(m, net).objects,
                cim_namespace: Some(cim_namespace()),
                description: None,
            }),
        ),
{
    lemma_network(m, net);
    lemma_foot(network_doc(m, net));
}

} // verus!
