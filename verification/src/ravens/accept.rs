//! Which kinds of objects a written document holds, and so whether the reader
//! accepts it.

use vstd::prelude::*;

use crate::json::{json_parse, uint_json, Entries, JsonV};
use crate::math::{Bits, Sem, DAY, FIVE_BILLION};
use crate::model::{
    Configuration, ControlProfileV, DistBusV, DistGeneratorV, DistIbrV, DistLineCodeV, DistLineV,
    DistLoadV, DistNetworkV, DistShuntV, DistSwitchV, DistTransformerV, IbrPrimeMover,
    UntypedObjectV, VoltageSourceV,
};
use crate::numeral::dec_of;
use crate::order::{get_of, put_from, put_of};
use crate::ravens::bases::bases_of;
use crate::ravens::doc::{collect_of, str_at, walk_entries, walk_items, walk_of, ObjV};
use crate::ravens::emit::{
    extra_num, extras_mrid_of, full_code_of, hot_code_of, hot_letters_of, identified_of,
    pointer_json, shown, sum_of, terminal_json, WriterV,
};
use crate::ravens::found::lemma_entry_of;
use crate::ravens::name::det_mrid_of;
use crate::ravens::read::{balanced_kinds, ravens_value};
use crate::ravens::survive::lemma_identity_keys;
use crate::ravens::write::{
    base_names, base_table, bus_json, buses_json, document_of, equipment_of, fresh_writer,
    insert_in, location_json, path_keys_of, put_table, ravens_document, restore_step, restored,
    tables_of, typed_of, unrepresented, untyped_prop, versions_json, warn_commands, warn_profiles,
    TablesV,
};
use crate::ravens::write_lines::{
    column_json, columns_json, first_rating, line_json, line_phase_json, line_phases_json,
    line_rating, linecode_json, linecodes_json, lines_json, min_nat, row_json, side_json,
    sides_json, switch_json, switches_json,
};
use crate::ravens::write_loads::{
    load_head, load_json, load_phase_json, load_phases_json, loads_json, spans_pair,
};
use crate::ravens::write_machines::{
    all_electronics_json, carry, electronics_json, machine_json, machines_json, shunt_json,
    shunts_json, source_json, sources_json, unit_bounds_of, unit_json,
};
use crate::ravens::write_tanks::{
    circuit_json, end_json, info_json, noload_json, objects, tested_json, transformer_json,
    transformers_json, vector_group_of, windings_json,
};
use crate::text::str_less;

verus! {

// ---- values without objects of a kind --------------------------------------

/// A value that is the name of a kind.
pub open spec fn is_barred(x: Seq<char>, v: JsonV) -> bool {
    v == JsonV::Str(x)
}

/// No object at or below a value is of the kind `x`.
pub open spec fn mild(x: Seq<char>, v: JsonV) -> bool
    decreases v, 0nat,
{
    match v {
        JsonV::Obj(o) => mild_entries(x, o, o.len()),
        JsonV::Arr(a) => mild_items(x, a, a.len()),
        _ => true,
    }
}

pub open spec fn mild_entries(x: Seq<char>, o: Entries, n: nat) -> bool
    decreases o, n,
{
    n == 0 || n > o.len() || {
        &&& mild_entries(x, o, (n - 1) as nat)
        &&& mild(x, o[n - 1].1)
        &&& o[n - 1].0 == "Ravens.cimObjectType"@ ==> !is_barred(x, o[n - 1].1)
    }
}

pub open spec fn mild_items(x: Seq<char>, a: Seq<JsonV>, n: nat) -> bool
    decreases a, n,
{
    n == 0 || n > a.len() || (mild_items(x, a, (n - 1) as nat) && mild(x, a[n - 1]))
}

/// The same, of all entries at once.
pub open spec fn calm(x: Seq<char>, o: Entries) -> bool {
    forall|i: int|
        0 <= i < o.len() ==> mild(x, (#[trigger] o[i]).1) && (o[i].0 == "Ravens.cimObjectType"@
            ==> !is_barred(x, o[i].1))
}

/// What stands under the keys of an object is mild, whatever the object is.
pub open spec fn calm_in(x: Seq<char>, o: Entries) -> bool {
    forall|i: int| 0 <= i < o.len() ==> mild(x, (#[trigger] o[i]).1)
}

/// The entries of an object of a kind: no other object below is of the kind `x`.
pub open spec fn fine(x: Seq<char>, kind: Seq<char>, o: Entries) -> bool {
    calm_in(x, o) && (x != kind ==> calm(x, o))
}

/// The entries of a table of objects of a kind.
pub open spec fn table_fine(x: Seq<char>, kind: Seq<char>, t: Entries) -> bool {
    &&& x != kind ==> calm(x, t)
    &&& forall|i: int|
        0 <= i < t.len() ==> ((#[trigger] t[i]).1 matches JsonV::Obj(o) && fine(x, kind, o))
}

pub proof fn lemma_calm_entries(x: Seq<char>, o: Entries, n: nat)
    requires
        n <= o.len(),
    ensures
        calm(x, o) ==> mild_entries(x, o, n),
        mild_entries(x, o, n) ==> forall|i: int|
            0 <= i < n ==> mild(x, (#[trigger] o[i]).1) && (o[i].0 == "Ravens.cimObjectType"@
                ==> !is_barred(x, o[i].1)),
    decreases n,
{
    if n > 0 {
        lemma_calm_entries(x, o, (n - 1) as nat);
    }
}

pub broadcast proof fn lemma_mild_object(x: Seq<char>, o: Entries)
    ensures
        #[trigger] mild(x, JsonV::Obj(o)) == calm(x, o),
{
    lemma_calm_entries(x, o, o.len());
}

proof fn lemma_mild_items(x: Seq<char>, a: Seq<JsonV>, n: nat)
    requires
        n <= a.len(),
    ensures
        (forall|i: int| 0 <= i < a.len() ==> mild(x, #[trigger] a[i])) ==> mild_items(x, a, n),
    decreases n,
{
    if n > 0 {
        lemma_mild_items(x, a, (n - 1) as nat);
    }
}

/// A list of mild values is mild.
pub open spec fn all_mild(x: Seq<char>, a: Seq<JsonV>) -> bool {
    forall|i: int| 0 <= i < a.len() ==> mild(x, #[trigger] a[i])
}

pub broadcast proof fn lemma_mild_list(x: Seq<char>, a: Seq<JsonV>)
    ensures
        all_mild(x, a) ==> #[trigger] mild(x, JsonV::Arr(a)),
{
    lemma_mild_items(x, a, a.len());
}

pub proof fn lemma_put_from_entries(m: Entries, k: Seq<char>, v: JsonV, i: int, j: int)
    requires
        0 <= i <= m.len(),
        0 <= j < put_from(m, k, v, i).len(),
    ensures
        put_from(m, k, v, i)[j] == (k, v) || exists|x: int|
            0 <= x < m.len() && put_from(m, k, v, i)[j] == #[trigger] m[x],
    decreases m.len() - i,
{
    let o = put_from(m, k, v, i);
    if i >= m.len() {
        if j < m.len() {
            assert(o[j] == m[j]);
        }
    } else if m[i].0 == k {
        if j != i {
            assert(o[j] == m[j]);
        }
    } else if str_less(k, m[i].0) {
        if j < i {
            assert(o[j] == m[j]);
        } else if j > i {
            assert(o[j] == m[j - 1]);
        }
    } else {
        lemma_put_from_entries(m, k, v, i + 1, j);
    }
}

/// Entries stay calm when a mild value is put under a key.
pub broadcast proof fn lemma_calm_put(x: Seq<char>, m: Entries, k: Seq<char>, v: JsonV)
    ensures
        calm(x, m) && mild(x, v) && (k == "Ravens.cimObjectType"@ ==> !is_barred(x, v))
            ==> #[trigger] calm(x, put_of(m, k, v)),
{
    reveal(put_of);
    let o = put_of(m, k, v);
    if calm(x, m) && mild(x, v) && (k == "Ravens.cimObjectType"@ ==> !is_barred(x, v)) {
        assert forall|i: int| 0 <= i < o.len() implies mild(x, (#[trigger] o[i]).1) && (o[i].0
            == "Ravens.cimObjectType"@ ==> !is_barred(x, o[i].1)) by {
            lemma_put_from_entries(m, k, v, 0, i);
        }
    }
}

pub broadcast proof fn lemma_fine_put(
    x: Seq<char>,
    kind: Seq<char>,
    m: Entries,
    k: Seq<char>,
    v: JsonV,
)
    ensures
        fine(x, kind, m) && mild(x, v) && (k == "Ravens.cimObjectType"@ ==> !is_barred(x, v))
            ==> #[trigger] fine(x, kind, put_of(m, k, v)),
{
    lemma_calm_put(x, m, k, v);
    reveal(put_of);
    let o = put_of(m, k, v);
    if calm_in(x, m) && mild(x, v) {
        assert forall|i: int| 0 <= i < o.len() implies mild(x, (#[trigger] o[i]).1) by {
            lemma_put_from_entries(m, k, v, 0, i);
        }
    }
}

pub broadcast proof fn lemma_table_put(
    x: Seq<char>,
    kind: Seq<char>,
    t: Entries,
    k: Seq<char>,
    o: Entries,
)
    ensures
        table_fine(x, kind, t) && fine(x, kind, o) ==> #[trigger] table_fine(
            x,
            kind,
            put_of(t, k, JsonV::Obj(o)),
        ),
{
    lemma_mild_object(x, o);
    lemma_calm_put(x, t, k, JsonV::Obj(o));
    reveal(put_of);
    let r = put_of(t, k, JsonV::Obj(o));
    if table_fine(x, kind, t) && fine(x, kind, o) {
        assert forall|i: int| 0 <= i < r.len() implies ((#[trigger] r[i]).1 matches JsonV::Obj(p)
            && fine(x, kind, p)) by {
            lemma_put_from_entries(t, k, JsonV::Obj(o), 0, i);
        }
    }
}

// ---- what is not the name of the kind `x` -----------------------------------

/// A kind is named by letters.
pub open spec fn is_word(x: Seq<char>) -> bool {
    forall|i: int|
        0 <= i < x.len() ==> #[trigger] x[i] != '.' && x[i] != ':' && x[i] != '0' && x[i] != '-'
            && x[i] != '1'
}

/// A text with a character that is no letter is the name of no kind.
pub proof fn lemma_marked(x: Seq<char>, s: Seq<char>, i: int)
    requires
        is_word(x),
        0 <= i < s.len(),
        s[i] == '.' || s[i] == ':' || s[i] == '0' || s[i] == '-' || s[i] == '1',
    ensures
        s != x,
{
}

pub broadcast proof fn lemma_pointer_mild(x: Seq<char>, class: Seq<char>, name: Seq<char>)
    ensures
        #[trigger] mild(x, pointer_json(class, name)),
{
}

pub broadcast proof fn lemma_pointer_is_no_kind(x: Seq<char>, class: Seq<char>, name: Seq<char>)
    ensures
        is_word(x) ==> !#[trigger] is_barred(x, pointer_json(class, name)),
{
    reveal_strlit("::'");
    let text = class + "::'"@ + name + "'"@;
    assert(text[class.len() as int] == ':');
    if is_word(x) {
        lemma_marked(x, text, class.len() as int);
    }
}

/// A word after a full stop.
proof fn lemma_after_dot(x: Seq<char>, head: Seq<char>, tail: Seq<char>)
    requires
        is_word(x),
        head.len() > 0,
        head.last() == '.',
    ensures
        head + tail != x,
{
    let s = head + tail;
    assert(s[head.len() - 1] == head[head.len() - 1]);
    lemma_marked(x, s, head.len() - 1);
}

proof fn lemma_heads(x: Seq<char>)
    requires
        is_word(x),
    ensures
        forall|t: Seq<char>| #[trigger] ("PhaseCode."@ + t) != x,
        forall|t: Seq<char>| #[trigger] ("SinglePhaseKind."@ + t) != x,
        forall|t: Seq<char>| #[trigger] ("OrderedPhaseCodeKind."@ + t) != x,
        forall|t: Seq<char>| #[trigger] ("PhaseShuntConnectionKind."@ + t) != x,
        forall|t: Seq<char>| #[trigger] ("WindingConnection."@ + t) != x,
        forall|t: Seq<char>| #[trigger] ("OperationalLimitDirectionKind."@ + t) != x,
{
    reveal_strlit("PhaseCode.");
    reveal_strlit("SinglePhaseKind.");
    reveal_strlit("OrderedPhaseCodeKind.");
    reveal_strlit("PhaseShuntConnectionKind.");
    reveal_strlit("WindingConnection.");
    reveal_strlit("OperationalLimitDirectionKind.");
    assert forall|t: Seq<char>| #[trigger] ("PhaseCode."@ + t) != x by {
        lemma_after_dot(x, "PhaseCode."@, t);
    }
    assert forall|t: Seq<char>| #[trigger] ("SinglePhaseKind."@ + t) != x by {
        lemma_after_dot(x, "SinglePhaseKind."@, t);
    }
    assert forall|t: Seq<char>| #[trigger] ("OrderedPhaseCodeKind."@ + t) != x by {
        lemma_after_dot(x, "OrderedPhaseCodeKind."@, t);
    }
    assert forall|t: Seq<char>| #[trigger] ("PhaseShuntConnectionKind."@ + t) != x by {
        lemma_after_dot(x, "PhaseShuntConnectionKind."@, t);
    }
    assert forall|t: Seq<char>| #[trigger] ("WindingConnection."@ + t) != x by {
        lemma_after_dot(x, "WindingConnection."@, t);
    }
    assert forall|t: Seq<char>| #[trigger] ("OperationalLimitDirectionKind."@ + t) != x by {
        lemma_after_dot(x, "OperationalLimitDirectionKind."@, t);
    }
}

/// A kind that is none of those that stand within other objects.
pub open spec fn stands_alone(x: Seq<char>) -> bool {
    &&& is_word(x)
    &&& x != "Terminal"@
    &&& x != "CurrentLimit"@
    &&& x != "VoltageLimit"@
    &&& x != "OperationalLimitSet"@
    &&& x != "OperationalLimitType"@
    &&& x != "PhaseImpedanceData"@
    &&& x != "ACLineSegmentPhase"@
    &&& x != "SwitchPhase"@
    &&& x != "EnergyConnectionProfile"@
    &&& x != "EnergyConsumerPhase"@
    &&& x != "GeneratingUnit"@
    &&& x != "PhotoVoltaicUnit"@
    &&& x != "BatteryUnit"@
    &&& x != "TransformerTankEnd"@
    &&& x != "TransformerEndInfo"@
    &&& x != "ShortCircuitTest"@
    &&& x != "NoLoadTest"@
    &&& x != "PositionPoint"@
    &&& x != "IEC61970CIMVersion"@
    &&& x != "RavensVersion"@
}

/// A kind that is never written.
pub open spec fn stands_apart(x: Seq<char>) -> bool {
    &&& stands_alone(x)
    &&& x != "PerLengthPhaseImpedance"@
    &&& x != "ACLineSegment"@
    &&& x != "Switch"@
    &&& x != "EnergyConsumer"@
    &&& x != "LinearShuntCompensator"@
    &&& x != "SynchronousMachine"@
    &&& x != "PowerElectronicsConnection"@
    &&& x != "EnergySource"@
    &&& x != "PowerTransformer"@
    &&& x != "ConnectivityNode"@
    &&& x != "Location"@
    &&& x != "BaseVoltage"@
    &&& x != "LoadResponseCharacteristic"@
    &&& x != "TransformerTank"@
    &&& x != "TransformerTankInfo"@
}

/// The kinds of the balanced profile.
pub open spec fn balanced(x: Seq<char>) -> bool {
    x == "AlgorithmSettings"@ || x == "ProducerCostFunction"@ || x == "PowerTransformerEnd"@
}

pub proof fn lemma_balanced_apart(x: Seq<char>)
    requires
        balanced(x),
    ensures
        stands_apart(x),
{
    reveal_strlit("AlgorithmSettings");
    reveal_strlit("ProducerCostFunction");
    reveal_strlit("PowerTransformerEnd");
    reveal_strlit("Terminal");
    reveal_strlit("CurrentLimit");
    reveal_strlit("VoltageLimit");
    reveal_strlit("OperationalLimitSet");
    reveal_strlit("OperationalLimitType");
    reveal_strlit("PhaseImpedanceData");
    reveal_strlit("ACLineSegmentPhase");
    reveal_strlit("SwitchPhase");
    reveal_strlit("LoadResponseCharacteristic");
    reveal_strlit("EnergyConnectionProfile");
    reveal_strlit("EnergyConsumerPhase");
    reveal_strlit("GeneratingUnit");
    reveal_strlit("PhotoVoltaicUnit");
    reveal_strlit("BatteryUnit");
    reveal_strlit("TransformerTank");
    reveal_strlit("TransformerTankEnd");
    reveal_strlit("TransformerTankInfo");
    reveal_strlit("TransformerEndInfo");
    reveal_strlit("ShortCircuitTest");
    reveal_strlit("NoLoadTest");
    reveal_strlit("PositionPoint");
    reveal_strlit("IEC61970CIMVersion");
    reveal_strlit("RavensVersion");
    reveal_strlit("PerLengthPhaseImpedance");
    reveal_strlit("ACLineSegment");
    reveal_strlit("Switch");
    reveal_strlit("EnergyConsumer");
    reveal_strlit("LinearShuntCompensator");
    reveal_strlit("SynchronousMachine");
    reveal_strlit("PowerElectronicsConnection");
    reveal_strlit("EnergySource");
    reveal_strlit("PowerTransformer");
    reveal_strlit("ConnectivityNode");
    reveal_strlit("Location");
    reveal_strlit("BaseVoltage");
    assert("AlgorithmSettings"@.len() == 17);
    assert("ProducerCostFunction"@.len() == 20);
    assert("PowerTransformerEnd"@.len() == 19);
    assert("Terminal"@.len() == 8);
    assert("CurrentLimit"@.len() == 12);
    assert("VoltageLimit"@.len() == 12);
    assert("OperationalLimitSet"@[0] == 'O' && "PowerTransformerEnd"@[0] == 'P');
    assert("OperationalLimitType"@[0] == 'O' && "ProducerCostFunction"@[0] == 'P');
    assert("PhaseImpedanceData"@.len() == 18);
    assert("ACLineSegmentPhase"@.len() == 18);
    assert("SwitchPhase"@.len() == 11);
    assert("LoadResponseCharacteristic"@.len() == 26);
    assert("EnergyConnectionProfile"@.len() == 23);
    assert("EnergyConsumerPhase"@[0] == 'E' && "PowerTransformerEnd"@[0] == 'P');
    assert("GeneratingUnit"@.len() == 14);
    assert("PhotoVoltaicUnit"@.len() == 16);
    assert("BatteryUnit"@.len() == 11);
    assert("TransformerTank"@.len() == 15);
    assert("TransformerTankEnd"@.len() == 18);
    assert("TransformerTankInfo"@[0] == 'T' && "PowerTransformerEnd"@[0] == 'P');
    assert("TransformerEndInfo"@.len() == 18);
    assert("ShortCircuitTest"@.len() == 16);
    assert("NoLoadTest"@.len() == 10);
    assert("PositionPoint"@.len() == 13);
    assert("IEC61970CIMVersion"@.len() == 18);
    assert("RavensVersion"@.len() == 13);
    assert("PerLengthPhaseImpedance"@.len() == 23);
    assert("ACLineSegment"@.len() == 13);
    assert("Switch"@.len() == 6);
    assert("EnergyConsumer"@.len() == 14);
    assert("LinearShuntCompensator"@.len() == 22);
    assert("SynchronousMachine"@.len() == 18);
    assert("PowerElectronicsConnection"@.len() == 26);
    assert("EnergySource"@.len() == 12);
    assert("PowerTransformer"@.len() == 16);
    assert("ConnectivityNode"@.len() == 16);
    assert("Location"@.len() == 8);
    assert("BaseVoltage"@.len() == 11);
    assert(forall|i: int|
        0 <= i < "AlgorithmSettings"@.len() ==> "AlgorithmSettings"@[i] != '.' && "AlgorithmSettings"@[i] != ':'
            && "AlgorithmSettings"@[i] != '0' && "AlgorithmSettings"@[i] != '-' && "AlgorithmSettings"@[i] != '1');
    assert(forall|i: int|
        0 <= i < "ProducerCostFunction"@.len() ==> "ProducerCostFunction"@[i] != '.' && "ProducerCostFunction"@[i] != ':'
            && "ProducerCostFunction"@[i] != '0' && "ProducerCostFunction"@[i] != '-' && "ProducerCostFunction"@[i] != '1');
    assert(forall|i: int|
        0 <= i < "PowerTransformerEnd"@.len() ==> "PowerTransformerEnd"@[i] != '.' && "PowerTransformerEnd"@[i] != ':'
            && "PowerTransformerEnd"@[i] != '0' && "PowerTransformerEnd"@[i] != '-' && "PowerTransformerEnd"@[i] != '1');
}

pub broadcast proof fn lemma_identified_fine(
    x: Seq<char>,
    kind: Seq<char>,
    name: Seq<char>,
    imported: Option<Seq<char>>,
)
    ensures
        #[trigger] fine(x, kind, identified_of(kind, name, imported)),
{
    lemma_identity_keys();
    reveal(identified_of);
    let e = Entries::empty();
    let id = match imported {
        Some(s) => s,
        None => det_mrid_of(kind, name),
    };
    let a = put_of(e, "Ravens.cimObjectType"@, JsonV::Str(kind));
    let b = put_of(a, "IdentifiedObject.mRID"@, JsonV::Str(id));
    reveal(put_of);
    lemma_calm_put(x, e, "Ravens.cimObjectType"@, JsonV::Str(kind));
    lemma_calm_put(x, a, "IdentifiedObject.mRID"@, JsonV::Str(id));
    lemma_calm_put(x, b, "IdentifiedObject.name"@, JsonV::Str(name));
    assert(fine(x, kind, a));
    lemma_fine_put(x, kind, a, "IdentifiedObject.mRID"@, JsonV::Str(id));
    lemma_fine_put(x, kind, b, "IdentifiedObject.name"@, JsonV::Str(name));
}

pub broadcast proof fn lemma_identified_calm(
    x: Seq<char>,
    kind: Seq<char>,
    name: Seq<char>,
    imported: Option<Seq<char>>,
)
    ensures
        x != kind ==> #[trigger] calm(x, identified_of(kind, name, imported)),
{
    lemma_identified_fine(x, kind, name, imported);
}

pub broadcast group group_mild {
    lemma_mild_object,
    lemma_mild_list,
    lemma_calm_put,
    lemma_fine_put,
    lemma_table_put,
    lemma_pointer_mild,
    lemma_pointer_is_no_kind,
    lemma_identified_fine,
    lemma_identified_calm,
}

// ---- the writer ------------------------------------------------------------

/// Nothing that the writer has gathered holds the kind `x`.
pub open spec fn calm_writer(x: Seq<char>, w: WriterV) -> bool {
    &&& calm(x, w.limit_sets)
    &&& table_fine(x, "LoadResponseCharacteristic"@, w.responses)
    &&& calm(x, w.profiles)
}

/// Two writers have gathered the same.
pub open spec fn even(w: WriterV, v: WriterV) -> bool {
    &&& w.limit_sets == v.limit_sets
    &&& w.responses == v.responses
    &&& w.profiles == v.profiles
    &&& w.bases == v.bases
    &&& w.used_types == v.used_types
}

pub broadcast proof fn lemma_warn_even(w: WriterV, s: Seq<char>)
    ensures
        even(w, #[trigger] w.warn(s)),
{
    reveal(WriterV::warn);
}

pub broadcast proof fn lemma_ground_even(w: WriterV, bus: Seq<char>)
    ensures
        even(w, #[trigger] w.ground(bus)),
{
    reveal(WriterV::ground);
}

pub broadcast proof fn lemma_num_even(w: WriterV, m: Sem, v: Bits, what: Seq<char>)
    ensures
        even(w, (#[trigger] w.num(m, v, what)).0),
        w.num(m, v, what).1 is Num || w.num(m, v, what).1 is Null,
{
    reveal(WriterV::num);
    reveal(WriterV::warn);
}

proof fn lemma_extras_n_even(w: WriterV, what: Seq<char>, e: Entries, c: Seq<Seq<char>>, n: nat)
    ensures
        even(w, w.warn_extras_n(what, e, c, n)),
    decreases n,
{
    reveal(WriterV::warn);
    if n > 0 {
        lemma_extras_n_even(w, what, e, c, (n - 1) as nat);
    }
}

pub broadcast proof fn lemma_extras_even(w: WriterV, what: Seq<char>, e: Entries, c: Seq<Seq<char>>)
    ensures
        even(w, #[trigger] w.warn_extras(what, e, c)),
{
    reveal(WriterV::warn_extras);
    lemma_extras_n_even(w, what, e, c, e.len());
}

pub broadcast proof fn lemma_base_fine(
    x: Seq<char>,
    kind: Seq<char>,
    w: WriterV,
    m: Sem,
    o: Entries,
    bus: Seq<char>,
)
    ensures
        is_word(x) && fine(x, kind, o) ==> #[trigger] fine(x, kind, w.put_base(m, o, bus)),
{
    broadcast use group_mild;

    reveal(WriterV::put_base);
}

pub broadcast proof fn lemma_base_calm(
    x: Seq<char>,
    w: WriterV,
    m: Sem,
    o: Entries,
    bus: Seq<char>,
)
    ensures
        is_word(x) && calm(x, o) ==> #[trigger] calm(x, w.put_base(m, o, bus)),
{
    broadcast use group_mild;

    reveal(WriterV::put_base);
}

pub broadcast group group_even {
    lemma_warn_even,
    lemma_ground_even,
    lemma_num_even,
    lemma_extras_even,
    lemma_base_fine,
    lemma_base_calm,
}

pub broadcast proof fn lemma_terminal_mild(x: Seq<char>, owner: Seq<char>,
    seq: nat,
    node: Seq<char>,
    code: Seq<char>,
    limits: Option<Seq<char>>,
)
    ensures
        stands_alone(x) && code != x ==> #[trigger] mild(
            x,
            terminal_json(owner, seq, node, code, limits),
        ),
{
    broadcast use {group_mild, group_even};

    reveal(terminal_json);
}

// ---- limits ----------------------------------------------------------------

proof fn lemma_current_limit(x: Seq<char>, w: WriterV,
    m: Sem,
    name: Seq<char>,
    suffix: Seq<char>,
    value: Bits,
    norm: Bits,
    ty: Seq<char>,
)
    requires
        stands_alone(x),
    ensures
        even(w.use_type(ty), w.current_limit(m, name, suffix, value, norm, ty).0),
        mild(x, w.current_limit(m, name, suffix, value, norm, ty).1),
{
    broadcast use {group_mild, group_even};

    reveal(WriterV::current_limit);
}

proof fn lemma_voltage_limit(x: Seq<char>, w: WriterV,
    m: Sem,
    name: Seq<char>,
    suffix: Seq<char>,
    value: Bits,
    normal: Option<Bits>,
    ty: Seq<char>,
)
    requires
        stands_alone(x),
    ensures
        even(w.use_type(ty), w.voltage_limit(m, name, suffix, value, normal, ty).0),
        mild(x, w.voltage_limit(m, name, suffix, value, normal, ty).1),
{
    broadcast use {group_mild, group_even};

    reveal(WriterV::voltage_limit);
}

proof fn lemma_current_set(x: Seq<char>, w: WriterV, m: Sem, norm: Bits, emerg: Bits)
    requires
        stands_alone(x),
    ensures
        calm_writer(x, w) ==> calm_writer(x, w.current_limit_set(m, norm, emerg).0),
        w.current_limit_set(m, norm, emerg).0.bases == w.bases,
{
    broadcast use {group_mild, group_even};

    reveal(WriterV::current_limit_set);
    let name = "OpLimI_"@ + shown(m, norm) + "_"@ + shown(m, emerg);
    lemma_current_limit(x, w, m, name, "Norm"@, norm, norm, "absoluteValueType_5000000000.0s"@);
    let (v, a) = w.current_limit(
        m,
        name,
        "Norm"@,
        norm,
        norm,
        "absoluteValueType_5000000000.0s"@,
    );
    lemma_current_limit(x, v, m, name, "Emerg"@, emerg, norm, "absoluteValueType_86400.0s"@);
    let (_u, b) = v.current_limit(
        m,
        name,
        "Emerg"@,
        emerg,
        norm,
        "absoluteValueType_86400.0s"@,
    );
    assert(all_mild(x, seq![a, b]));
}

proof fn lemma_voltage_set(
    x: Seq<char>,
    w: WriterV,
    m: Sem,
    low: Bits,
    high: Bits,
    normal: Option<Bits>,
)
    requires
        stands_alone(x),
    ensures
        calm_writer(x, w) ==> calm_writer(x, w.voltage_limit_set(m, low, high, normal).0),
        w.voltage_limit_set(m, low, high, normal).0.bases == w.bases,
{
    broadcast use {group_mild, group_even};

    reveal(WriterV::voltage_limit_set);
    let name = "OpLimV_"@ + shown(m, low) + "-"@ + shown(m, high);
    lemma_voltage_limit(x, w, m, name, "RangeAlow"@, low, normal, "lowType_5000000000.0s"@);
    let (v, a) = w.voltage_limit(
        m,
        name,
        "RangeAlow"@,
        low,
        normal,
        "lowType_5000000000.0s"@,
    );
    lemma_voltage_limit(x, v, m, name, "RangeAhigh"@, high, normal, "highType_5000000000.0s"@);
    let (_u, b) = v.voltage_limit(
        m,
        name,
        "RangeAhigh"@,
        high,
        normal,
        "highType_5000000000.0s"@,
    );
    assert(all_mild(x, seq![a, b]));
}

proof fn lemma_ampacity(x: Seq<char>, w: WriterV, m: Sem, norm: Option<Bits>, emerg: Option<Bits>)
    requires
        stands_alone(x),
    ensures
        calm_writer(x, w) ==> calm_writer(x, w.ampacity(m, norm, emerg).0),
        w.ampacity(m, norm, emerg).0.bases == w.bases,
{
    match (norm, emerg) {
        (Some(n), Some(e)) => {
            lemma_current_set(x, w, m, n, e);
        },
        (None, Some(e)) => {
            lemma_current_set(x, w, m, e, e);
        },
        (Some(n), None) => {
            lemma_current_set(x, w, m, n, n);
        },
        (None, None) => {},
    }
}

proof fn lemma_bus_limit(x: Seq<char>, w: WriterV, m: Sem, net: DistNetworkV, bus: Seq<char>)
    requires
        stands_alone(x),
    ensures
        calm_writer(x, w) ==> calm_writer(x, w.bus_voltage_limit(m, net, bus).0),
        w.bus_voltage_limit(m, net, bus).0.bases == w.bases,
{
    reveal(WriterV::bus_voltage_limit);
    if let Some(b) = net.bus(bus) {
        if b.v_min is Some && b.v_max is Some {
            lemma_voltage_set(x, w, m, b.v_min->0, b.v_max->0, w.base_of(bus));
        }
    }
}

proof fn lemma_add_type(x: Seq<char>, w: WriterV,
    m: Sem,
    t: Entries,
    name: Seq<char>,
    direction: Seq<char>,
    d: Bits,
)
    requires
        stands_alone(x),
    ensures
        even(w, w.add_type(m, t, name, direction, d).0),
        calm(x, t) ==> calm(x, w.add_type(m, t, name, direction, d).1),
{
    broadcast use {group_mild, group_even};

    lemma_heads(x);
}

pub proof fn lemma_limit_types(x: Seq<char>, w: WriterV, m: Sem)
    requires
        stands_alone(x),
    ensures
        even(w, w.limit_types(m).0),
        calm(x, w.limit_types(m).1),
{
    reveal(WriterV::limit_types);
    let none = Entries::empty();
    lemma_add_type(x, w, m, none, "lowType_5000000000.0s"@, "low"@, FIVE_BILLION);
    let (w1, t1) = w.add_type(m, none, "lowType_5000000000.0s"@, "low"@, FIVE_BILLION);
    lemma_add_type(x, w1, m, t1, "highType_5000000000.0s"@, "high"@, FIVE_BILLION);
    let (w2, t2) = w1.add_type(m, t1, "highType_5000000000.0s"@, "high"@, FIVE_BILLION);
    lemma_add_type(x, w2,
        m,
        t2,
        "absoluteValueType_5000000000.0s"@,
        "absoluteValue"@,
        FIVE_BILLION,
    );
    let (w3, t3) = w2.add_type(
        m,
        t2,
        "absoluteValueType_5000000000.0s"@,
        "absoluteValue"@,
        FIVE_BILLION,
    );
    lemma_add_type(x, w3, m, t3, "absoluteValueType_86400.0s"@, "absoluteValue"@, DAY);
}

// ---- lines -----------------------------------------------------------------

proof fn lemma_row_mild(x: Seq<char>, w: WriterV, m: Sem, c: DistLineCodeV, row: nat, col: nat)
    requires
        stands_alone(x),
    ensures
        even(w, row_json(w, m, c, row, col).0),
        mild(x, row_json(w, m, c, row, col).1),
{
    broadcast use {group_mild, group_even};

    reveal(row_json);
}

proof fn lemma_column_mild(x: Seq<char>, w: WriterV,
    m: Sem,
    c: DistLineCodeV,
    rows: Seq<JsonV>,
    col: nat,
    end: nat,
)
    requires
        stands_alone(x),
    ensures
        even(w, column_json(w, m, c, rows, col, end).0),
        all_mild(x, rows) ==> all_mild(x, column_json(w, m, c, rows, col, end).1),
    decreases end,
{
    if end > col {
        lemma_column_mild(x, w, m, c, rows, col, (end - 1) as nat);
        let before = column_json(w, m, c, rows, col, (end - 1) as nat);
        lemma_row_mild(x, before.0, m, c, (end - 1) as nat, col);
    }
}

proof fn lemma_columns_mild(x: Seq<char>, w: WriterV, m: Sem, c: DistLineCodeV, col: nat)
    requires
        stands_alone(x),
    ensures
        even(w, columns_json(w, m, c, col).0),
        all_mild(x, columns_json(w, m, c, col).1),
    decreases col,
{
    if col > 0 {
        lemma_columns_mild(x, w, m, c, (col - 1) as nat);
        let before = columns_json(w, m, c, (col - 1) as nat);
        lemma_column_mild(x, before.0, m, c, before.1, (col - 1) as nat, c.n_conductors as nat);
    }
}

#[verifier::rlimit(40)]
proof fn lemma_linecode_mild(x: Seq<char>, w: WriterV, m: Sem, c: DistLineCodeV)
    requires
        stands_alone(x),
    ensures
        even(w, linecode_json(w, m, c).0),
        linecode_json(w, m, c).1 matches JsonV::Obj(o) && fine(x, "PerLengthPhaseImpedance"@, o),
{
    broadcast use {group_mild, group_even};

    lemma_columns_mild(x, w, m, c, c.n_conductors as nat);
    let v = w.warn(
        "linecode "@ + c.name + ": "@ + dec_of(c.n_conductors as nat)
            + " conductors exceed the four CIM SinglePhaseKind identities (A/B/C/N); the impedance matrix is written in full, but conductors beyond the fourth have no phase representation on the lines that use it, so a reparse cannot recover their terminal assignment"@,
    );
    lemma_columns_mild(x, v, m, c, c.n_conductors as nat);
}

pub proof fn lemma_linecodes_mild(x: Seq<char>, w: WriterV, m: Sem, s: Seq<DistLineCodeV>, n: nat)
    requires
        stands_alone(x),
    ensures
        even(w, linecodes_json(w, m, s, n).0),
        table_fine(x, "PerLengthPhaseImpedance"@, linecodes_json(w, m, s, n).1),
    decreases n,
{
    broadcast use {group_mild, group_even};

    if n > 0 {
        lemma_linecodes_mild(x, w, m, s, (n - 1) as nat);
        lemma_linecode_mild(x, linecodes_json(w, m, s, (n - 1) as nat).0, m, s[n - 1]);
    }
}

proof fn lemma_phases_mild(x: Seq<char>, name: Seq<char>, letters: Seq<Seq<char>>)
    requires
        stands_alone(x),
    ensures
        all_mild(x, line_phases_json(name, letters)),
{
    broadcast use {group_mild, group_even};

    lemma_heads(x);
    let items = line_phases_json(name, letters);
    assert forall|i: int| 0 <= i < items.len() implies mild(x, #[trigger] items[i]) by {
        reveal(line_phase_json);
    }
}

#[verifier::rlimit(40)]
pub proof fn lemma_line_mild(x: Seq<char>, w: WriterV, m: Sem, net: DistNetworkV, line: DistLineV)
    requires
        stands_alone(x),
    ensures
        calm_writer(x, w) ==> calm_writer(x, line_json(w, m, net, line).0),
        line_json(w, m, net, line).0.bases == w.bases,
        line_json(w, m, net, line).1 matches JsonV::Obj(o) && fine(x, "ACLineSegment"@, o),
{
    broadcast use {group_mild, group_even, lemma_terminal_mild};

    lemma_heads(x);
    let what = "line "@ + line.name;
    let o = identified_of("ACLineSegment"@, line.name, extras_mrid_of(line.extras));
    let o = put_of(o, "Equipment.inService"@, JsonV::Bool(true));
    let o = w.put_base(m, o, line.bus_from);
    let (w1, o1) = w.put_num(m, o, "Conductor.length"@, line.length, what);
    let w2 = if line.terminal_map_to != line.terminal_map_from {
        w1.warn(
            what
                + ": the two terminal maps differ; MG-RAVENS carries one phase list per segment, so the from side wins"@,
        )
    } else {
        w1
    };
    let norm = extra_num(m, line.extras, "normamps"@);
    let emerg = line_rating(net, line.linecode);
    lemma_ampacity(x, w2, m, norm, emerg);
    let limit = w2.ampacity(m, norm, emerg).1;
    let code = hot_code_of(line.terminal_map_from);
    assert(all_mild(x, 
        seq![
            terminal_json(line.name, 1, line.bus_from, code, limit),
            terminal_json(line.name, 2, line.bus_to, code, limit),
        ],
    ));
    lemma_phases_mild(x, line.name, hot_letters_of(line.terminal_map_from));
}

proof fn lemma_lines_mild(x: Seq<char>, w: WriterV, m: Sem, net: DistNetworkV, n: nat)
    requires
        stands_alone(x),
    ensures
        calm_writer(x, w) ==> calm_writer(x, lines_json(w, m, net, n).0),
        lines_json(w, m, net, n).0.bases == w.bases,
        table_fine(x, "ACLineSegment"@, lines_json(w, m, net, n).1),
    decreases n,
{
    broadcast use {group_mild, group_even};

    if n > 0 {
        lemma_lines_mild(x, w, m, net, (n - 1) as nat);
        lemma_line_mild(x, lines_json(w, m, net, (n - 1) as nat).0, m, net, net.lines[n - 1]);
    }
}

proof fn lemma_sides_mild(
    x: Seq<char>,
    name: Seq<char>,
    from: Seq<Seq<char>>,
    to: Seq<Seq<char>>,
    n: nat,
)
    requires
        stands_alone(x),
    ensures
        all_mild(x, sides_json(name, from, to, n)),
    decreases n,
{
    broadcast use {group_mild, group_even};

    lemma_heads(x);
    if n > 0 {
        lemma_sides_mild(x, name, from, to, (n - 1) as nat);
        reveal(side_json);
    }
}

#[verifier::rlimit(40)]
proof fn lemma_switch_mild(x: Seq<char>, w: WriterV, m: Sem, s: DistSwitchV)
    requires
        stands_alone(x),
    ensures
        calm_writer(x, w) ==> calm_writer(x, switch_json(w, m, s).0),
        switch_json(w, m, s).0.bases == w.bases,
        switch_json(w, m, s).1 matches JsonV::Obj(o) && fine(x, "Switch"@, o),
{
    broadcast use {group_mild, group_even, lemma_terminal_mild};

    lemma_heads(x);
    let norm = extra_num(m, s.extras, "normamps"@);
    let emerg = first_rating(s.i_max);
    lemma_ampacity(x, w, m, norm, emerg);
    let limit = w.ampacity(m, norm, emerg).1;
    assert(all_mild(x, 
        seq![
            terminal_json(s.name, 1, s.bus_from, hot_code_of(s.terminal_map_from), limit),
            terminal_json(s.name, 2, s.bus_to, hot_code_of(s.terminal_map_to), limit),
        ],
    ));
    lemma_sides_mild(x, s.name,
        s.terminal_map_from,
        s.terminal_map_to,
        min_nat(s.terminal_map_from.len(), s.terminal_map_to.len()),
    );
}

proof fn lemma_switches_mild(x: Seq<char>, w: WriterV, m: Sem, s: Seq<DistSwitchV>, n: nat)
    requires
        stands_alone(x),
    ensures
        calm_writer(x, w) ==> calm_writer(x, switches_json(w, m, s, n).0),
        switches_json(w, m, s, n).0.bases == w.bases,
        table_fine(x, "Switch"@, switches_json(w, m, s, n).1),
    decreases n,
{
    broadcast use {group_mild, group_even};

    if n > 0 {
        lemma_switches_mild(x, w, m, s, (n - 1) as nat);
        lemma_switch_mild(x, switches_json(w, m, s, (n - 1) as nat).0, m, s[n - 1]);
    }
}

// ---- loads -----------------------------------------------------------------

proof fn lemma_shared_mild(x: Seq<char>, w: WriterV, m: Sem, name: Seq<char>, field: Seq<char>)
    requires
        stands_alone(x),
    ensures
        calm_writer(x, w) ==> calm_writer(x, w.shared_response(m, name, field)),
        w.shared_response(m, name, field).bases == w.bases,
{
    broadcast use {group_mild, group_even};

    reveal(WriterV::shared_response);
}

pub broadcast proof fn lemma_share_fine(
    x: Seq<char>,
    kind: Seq<char>,
    w: WriterV,
    m: Sem,
    o: Entries,
    what: Seq<char>,
    key: Seq<char>,
    v: Seq<Bits>,
)
    ensures
        fine(x, kind, o) ==> #[trigger] fine(x, kind, w.put_share(m, o, what, key, v).1),
{
    broadcast use {group_mild, group_even};

    reveal(WriterV::put_share);
}

pub broadcast proof fn lemma_share_even(
    w: WriterV,
    m: Sem,
    o: Entries,
    what: Seq<char>,
    key: Seq<char>,
    v: Seq<Bits>,
)
    ensures
        even(w, (#[trigger] w.put_share(m, o, what, key, v)).0),
{
    broadcast use group_even;

    reveal(WriterV::put_share);
}

#[verifier::rlimit(40)]
proof fn lemma_response_mild(x: Seq<char>, w: WriterV, m: Sem, load: DistLoadV)
    requires
        stands_alone(x),
    ensures
        calm_writer(x, w) ==> calm_writer(x, w.load_response(m, load).0),
        w.load_response(m, load).0.bases == w.bases,
{
    broadcast use {group_mild, group_even, lemma_share_fine, lemma_share_even};

    reveal(WriterV::load_response);
    lemma_shared_mild(x, w, m, "Constant kVA"@, "ConstantPower"@);
    lemma_shared_mild(x, w, m, "Constant I"@, "ConstantCurrent"@);
    lemma_shared_mild(x, w, m, "Constant Z"@, "ConstantImpedance"@);
}

#[verifier::rlimit(40)]
proof fn lemma_profile_mild(
    x: Seq<char>,
    w: WriterV,
    m: Sem,
    o: Entries,
    load: DistLoadV,
    net: DistNetworkV,
)
    requires
        stands_alone(x),
    ensures
        calm_writer(x, w) ==> calm_writer(x, w.attach_profile(m, o, load, net).0),
        w.attach_profile(m, o, load, net).0.bases == w.bases,
        fine(x, "EnergyConsumer"@, o) ==> fine(
            x,
            "EnergyConsumer"@,
            w.attach_profile(m, o, load, net).1,
        ),
{
    broadcast use {group_mild, group_even};

    lemma_identity_keys();
    reveal_strlit("EnergyConnectionProfile.dssDaily");
    reveal_strlit("EnergyConnectionProfile.dssYearly");
    reveal_strlit("EnergyConnectionProfile.dssSpectrum");
    assert("EnergyConnectionProfile.dssDaily"@.len() == 32);
    assert("EnergyConnectionProfile.dssYearly"@.len() == 33);
    assert("EnergyConnectionProfile.dssSpectrum"@.len() == 35);
    reveal(WriterV::attach_profile);
}

pub proof fn lemma_load_phases_mild(x: Seq<char>, w: WriterV,
    m: Sem,
    load: DistLoadV,
    letters: Seq<Seq<char>>,
    n: nat,
)
    requires
        stands_alone(x),
    ensures
        even(w, load_phases_json(w, m, load, letters, n).0),
        all_mild(x, load_phases_json(w, m, load, letters, n).1),
    decreases n,
{
    broadcast use {group_mild, group_even};

    lemma_heads(x);
    if n > 0 {
        lemma_load_phases_mild(x, w, m, load, letters, (n - 1) as nat);
        reveal(load_phase_json);
    }
}

#[verifier::rlimit(40)]
proof fn lemma_head_mild(x: Seq<char>, w: WriterV, m: Sem, net: DistNetworkV, load: DistLoadV)
    requires
        stands_alone(x),
    ensures
        calm_writer(x, w) ==> calm_writer(x, load_head(w, m, net, load).0),
        load_head(w, m, net, load).0.bases == w.bases,
        fine(x, "EnergyConsumer"@, load_head(w, m, net, load).1),
{
    broadcast use {group_mild, group_even};

    lemma_heads(x);
    reveal(load_head);
    let what = "load "@ + load.name;
    let delta = load.configuration == Configuration::Delta;
    let grounded = !delta && load.terminal_map.contains("4"@);
    let o = identified_of("EnergyConsumer"@, load.name, extras_mrid_of(load.extras));
    let (w1, p) = w.num(m, sum_of(m, load.p_nom), what);
    let (w2, q) = w1.num(m, sum_of(m, load.q_nom), what);
    let o = put_of(o, "EnergyConsumer.p"@, p);
    let o = put_of(o, "EnergyConsumer.q"@, q);
    let o = put_of(o, "EnergyConsumer.grounded"@, JsonV::Bool(grounded));
    let w3 = if grounded {
        w2.ground(load.bus)
    } else {
        w2
    };
    let o = put_of(o, "Equipment.inService"@, JsonV::Bool(true));
    let o = w3.put_base(m, o, load.bus);
    let kind = "PhaseShuntConnectionKind."@ + if delta {
        "D"@
    } else {
        "Y"@
    };
    let o = put_of(o, "EnergyConsumer.phaseConnection"@, JsonV::Str(kind));
    lemma_response_mild(x, w3, m, load);
    let (w4, response) = w3.load_response(m, load);
    let o = put_of(
        o,
        "EnergyConsumer.LoadResponse"@,
        pointer_json("LoadResponseCharacteristic"@, response),
    );
    lemma_profile_mild(x, w4, m, o, load, net);
}

#[verifier::rlimit(40)]
proof fn lemma_load_mild(x: Seq<char>, w: WriterV, m: Sem, net: DistNetworkV, load: DistLoadV)
    requires
        stands_alone(x),
    ensures
        calm_writer(x, w) ==> calm_writer(x, load_json(w, m, net, load).0),
        load_json(w, m, net, load).0.bases == w.bases,
        load_json(w, m, net, load).1 matches JsonV::Obj(o) && fine(x, "EnergyConsumer"@, o),
{
    broadcast use {group_mild, group_even, lemma_terminal_mild};

    lemma_heads(x);
    reveal(load_json);
    let letters = hot_letters_of(load.terminal_map);
    lemma_head_mild(x, w, m, net, load);
    let (w1, o1) = load_head(w, m, net, load);
    lemma_load_phases_mild(x, w1, m, load, letters, letters.len());
    let (w2, phases) = load_phases_json(w1, m, load, letters, letters.len());
    let kept = if spans_pair(load) {
        phases.take(1)
    } else {
        phases
    };
    assert(all_mild(x, kept)) by {
        assert forall|i: int| 0 <= i < kept.len() implies mild(x, #[trigger] kept[i]) by {
            assert(kept[i] == phases[i]);
        }
    }
    lemma_bus_limit(x, w2, m, net, load.bus);
    let limit = w2.bus_voltage_limit(m, net, load.bus).1;
    assert(all_mild(x, 
        seq![terminal_json(load.name, 1, load.bus, hot_code_of(load.terminal_map), limit)],
    ));
}

proof fn lemma_loads_mild(x: Seq<char>, w: WriterV, m: Sem, net: DistNetworkV, n: nat)
    requires
        stands_alone(x),
    ensures
        calm_writer(x, w) ==> calm_writer(x, loads_json(w, m, net, n).0),
        loads_json(w, m, net, n).0.bases == w.bases,
        table_fine(x, "EnergyConsumer"@, loads_json(w, m, net, n).1),
    decreases n,
{
    broadcast use {group_mild, group_even};

    if n > 0 {
        lemma_loads_mild(x, w, m, net, (n - 1) as nat);
        lemma_load_mild(x, loads_json(w, m, net, (n - 1) as nat).0, m, net, net.loads[n - 1]);
    }
}

// ---- sites -----------------------------------------------------------------

#[verifier::rlimit(40)]
proof fn lemma_shunt_mild(x: Seq<char>, w: WriterV, m: Sem, s: DistShuntV)
    requires
        stands_alone(x),
    ensures
        even(w, shunt_json(w, m, s).0),
        shunt_json(w, m, s).1 matches JsonV::Obj(o) && fine(x, "LinearShuntCompensator"@, o),
{
    broadcast use {group_mild, group_even, lemma_terminal_mild};

    lemma_heads(x);
    reveal(shunt_json);
    assert(all_mild(x, seq![terminal_json(s.name, 1, s.bus, full_code_of(s.terminal_map), None)]));
}

pub proof fn lemma_shunts_mild(x: Seq<char>, w: WriterV, m: Sem, s: Seq<DistShuntV>, n: nat)
    requires
        stands_alone(x),
    ensures
        even(w, shunts_json(w, m, s, n).0),
        table_fine(x, "LinearShuntCompensator"@, shunts_json(w, m, s, n).1),
    decreases n,
{
    broadcast use {group_mild, group_even};

    if n > 0 {
        lemma_shunts_mild(x, w, m, s, (n - 1) as nat);
        lemma_shunt_mild(x, shunts_json(w, m, s, (n - 1) as nat).0, m, s[n - 1]);
    }
}

#[verifier::rlimit(40)]
proof fn lemma_machine_mild(x: Seq<char>, w: WriterV, m: Sem, g: DistGeneratorV)
    requires
        stands_alone(x),
    ensures
        even(w, machine_json(w, m, g).0),
        machine_json(w, m, g).1 matches JsonV::Obj(o) && fine(x, "SynchronousMachine"@, o),
{
    broadcast use {group_mild, group_even, lemma_terminal_mild};

    lemma_heads(x);
    reveal(machine_json);
    assert(all_mild(x, seq![terminal_json(g.name, 1, g.bus, hot_code_of(g.terminal_map), None)]));
}

pub proof fn lemma_machines_mild(x: Seq<char>, w: WriterV, m: Sem, s: Seq<DistGeneratorV>, n: nat)
    requires
        stands_alone(x),
    ensures
        even(w, machines_json(w, m, s, n).0),
        table_fine(x, "SynchronousMachine"@, machines_json(w, m, s, n).1),
    decreases n,
{
    broadcast use {group_mild, group_even};

    if n > 0 {
        lemma_machines_mild(x, w, m, s, (n - 1) as nat);
        lemma_machine_mild(x, machines_json(w, m, s, (n - 1) as nat).0, m, s[n - 1]);
    }
}

/// What an inverter carries over from where it was read holds no such kind.
pub open spec fn carries_calm(x: Seq<char>, ibr: DistIbrV) -> bool {
    forall|k: Seq<char>| mild_under(x, ibr.extras, k)
}

pub open spec fn mild_under(x: Seq<char>, o: Entries, k: Seq<char>) -> bool {
    get_of(o, k) matches Some(v) ==> mild(x, v)
}

proof fn lemma_carry_mild(
    x: Seq<char>,
    o: Entries,
    extras: Entries,
    key: Seq<char>,
    prop: Seq<char>,
)
    requires
        stands_alone(x),
        mild_under(x, extras, key),
        prop != "Ravens.cimObjectType"@,
    ensures
        calm(x, o) ==> calm(x, carry(o, extras, key, prop)),
{
    broadcast use {group_mild, group_even};

}

#[verifier::rlimit(40)]
proof fn lemma_unit_mild(x: Seq<char>, w: WriterV, m: Sem, ibr: DistIbrV, what: Seq<char>)
    requires
        stands_alone(x),
        carries_calm(x, ibr),
    ensures
        even(w, unit_json(w, m, ibr, what).0),
        unit_json(w, m, ibr, what).1 matches Some(u) ==> mild(x, u) && u is Obj,
{
    broadcast use {group_mild, group_even};

    lemma_identity_keys();
    reveal_strlit("BatteryUnit.ratedE");
    reveal_strlit("BatteryUnit.storedE");
    reveal_strlit("BatteryUnit.BatteryUnitEfficiency");
    assert("BatteryUnit.ratedE"@.len() == 18);
    assert("BatteryUnit.storedE"@.len() == 19);
    assert("BatteryUnit.BatteryUnitEfficiency"@.len() == 33);
    reveal(unit_json);
    if ibr.prime_mover == IbrPrimeMover::Battery {
        let u = identified_of("BatteryUnit"@, ibr.name + "_Battery"@, None);
        let (_v, u1) = unit_bounds_of(w, m, u, ibr, what);
        assert(mild_under(x, ibr.extras, "ravens_rated_e"@));
        assert(mild_under(x, ibr.extras, "ravens_stored_e"@));
        assert(mild_under(x, ibr.extras, "ravens_battery_efficiency"@));
        lemma_carry_mild(x, u1, ibr.extras, "ravens_rated_e"@, "BatteryUnit.ratedE"@);
        let u2 = carry(u1, ibr.extras, "ravens_rated_e"@, "BatteryUnit.ratedE"@);
        lemma_carry_mild(x, u2, ibr.extras, "ravens_stored_e"@, "BatteryUnit.storedE"@);
        let u3 = carry(u2, ibr.extras, "ravens_stored_e"@, "BatteryUnit.storedE"@);
        lemma_carry_mild(x, u3,
            ibr.extras,
            "ravens_battery_efficiency"@,
            "BatteryUnit.BatteryUnitEfficiency"@,
        );
    }
}

#[verifier::rlimit(40)]
proof fn lemma_inverter_mild(x: Seq<char>, w: WriterV, m: Sem, ibr: DistIbrV)
    requires
        stands_alone(x),
        carries_calm(x, ibr),
    ensures
        even(w, electronics_json(w, m, ibr).0),
        electronics_json(w, m, ibr).1 matches JsonV::Obj(o) && fine(x, "PowerElectronicsConnection"@, o),
{
    broadcast use {group_mild, group_even, lemma_terminal_mild};

    lemma_heads(x);
    reveal(electronics_json);
    assert forall|v: WriterV| even(v, (#[trigger] unit_json(v, m, ibr, "ibr "@ + ibr.name)).0) && (
    unit_json(v, m, ibr, "ibr "@ + ibr.name).1 matches Some(u) ==> mild(x, u) && u is Obj) by {
        lemma_unit_mild(x, v, m, ibr, "ibr "@ + ibr.name);
    }
    assert(all_mild(x, 
        seq![terminal_json(ibr.name, 1, ibr.bus, hot_code_of(ibr.terminal_map), None)],
    ));
}

proof fn lemma_inverters_mild(x: Seq<char>, w: WriterV, m: Sem, s: Seq<DistIbrV>, n: nat)
    requires
        stands_alone(x),
        n <= s.len(),
        forall|i: int| 0 <= i < s.len() ==> carries_calm(x, #[trigger] s[i]),
    ensures
        even(w, all_electronics_json(w, m, s, n).0),
        table_fine(x, "PowerElectronicsConnection"@, all_electronics_json(w, m, s, n).1),
    decreases n,
{
    broadcast use {group_mild, group_even};

    if n > 0 {
        lemma_inverters_mild(x, w, m, s, (n - 1) as nat);
        lemma_inverter_mild(x, all_electronics_json(w, m, s, (n - 1) as nat).0, m, s[n - 1]);
    }
}

/// The inverters leave what the writer has gathered.
pub proof fn lemma_inverters_even(w: WriterV, m: Sem, s: Seq<DistIbrV>, n: nat)
    ensures
        even(w, all_electronics_json(w, m, s, n).0),
    decreases n,
{
    broadcast use group_even;

    if n > 0 {
        lemma_inverters_even(w, m, s, (n - 1) as nat);
        reveal(electronics_json);
        reveal(unit_json);
    }
}

#[verifier::rlimit(40)]
proof fn lemma_source_mild(x: Seq<char>, w: WriterV, m: Sem, s: VoltageSourceV)
    requires
        stands_alone(x),
    ensures
        even(w, source_json(w, m, s).0),
        source_json(w, m, s).1 matches JsonV::Obj(o) && fine(x, "EnergySource"@, o),
{
    broadcast use {group_mild, group_even, lemma_terminal_mild};

    lemma_heads(x);
    reveal(source_json);
    assert(all_mild(x, seq![terminal_json(s.name, 1, s.bus, hot_code_of(s.terminal_map), None)]));
}

pub proof fn lemma_sources_mild(x: Seq<char>, w: WriterV, m: Sem, s: Seq<VoltageSourceV>, n: nat)
    requires
        stands_alone(x),
    ensures
        even(w, sources_json(w, m, s, n).0),
        table_fine(x, "EnergySource"@, sources_json(w, m, s, n).1),
    decreases n,
{
    broadcast use {group_mild, group_even};

    if n > 0 {
        lemma_sources_mild(x, w, m, s, (n - 1) as nat);
        lemma_source_mild(x, sources_json(w, m, s, (n - 1) as nat).0, m, s[n - 1]);
    }
}

// ---- transformers ----------------------------------------------------------

#[verifier::rlimit(40)]
proof fn lemma_end_mild(x: Seq<char>, w: WriterV, m: Sem, xf: DistTransformerV, k: nat)
    requires
        stands_alone(x),
    ensures
        even(w, end_json(w, m, xf, k).0),
        mild(x, end_json(w, m, xf, k).1),
{
    broadcast use {group_mild, group_even, lemma_terminal_mild};

    lemma_heads(x);
    reveal(end_json);
    let wd = xf.windings[k as int];
    assert(all_mild(x, 
        seq![
            terminal_json(
                xf.name + "_E"@ + dec_of(k + 1),
                1,
                wd.bus,
                hot_code_of(wd.terminal_map),
                None,
            ),
        ],
    ));
}

#[verifier::rlimit(40)]
proof fn lemma_info_mild(x: Seq<char>, w: WriterV, m: Sem, xf: DistTransformerV, k: nat)
    requires
        stands_alone(x),
    ensures
        even(w, info_json(w, m, xf, k).0),
        calm(x, info_json(w, m, xf, k).1),
{
    broadcast use {group_mild, group_even};

    lemma_heads(x);
    reveal(info_json);
}

/// Records that are all calm.
pub open spec fn all_calm(x: Seq<char>, s: Seq<Entries>) -> bool {
    forall|i: int| 0 <= i < s.len() ==> calm(x, #[trigger] s[i])
}

pub proof fn lemma_windings_mild(x: Seq<char>, w: WriterV, m: Sem, xf: DistTransformerV, n: nat)
    requires
        stands_alone(x),
    ensures
        even(w, windings_json(w, m, xf, n).0),
        all_mild(x, windings_json(w, m, xf, n).1),
        all_calm(x, windings_json(w, m, xf, n).2),
        windings_json(w, m, xf, n).2.len() == n,
    decreases n,
{
    if n > 0 {
        lemma_windings_mild(x, w, m, xf, (n - 1) as nat);
        let before = windings_json(w, m, xf, (n - 1) as nat);
        lemma_end_mild(x, before.0, m, xf, (n - 1) as nat);
        let v = end_json(before.0, m, xf, (n - 1) as nat).0;
        lemma_info_mild(x, v, m, xf, (n - 1) as nat);
    }
}

#[verifier::rlimit(40)]
proof fn lemma_circuit_mild(x: Seq<char>, w: WriterV, m: Sem, xf: DistTransformerV, base: Bits)
    requires
        stands_alone(x),
    ensures
        even(w, circuit_json(w, m, xf, base).0),
        mild(x, circuit_json(w, m, xf, base).1),
{
    broadcast use {group_mild, group_even};

    reveal(circuit_json);
}

#[verifier::rlimit(40)]
proof fn lemma_noload_mild(x: Seq<char>, w: WriterV, m: Sem, xf: DistTransformerV)
    requires
        stands_alone(x),
    ensures
        even(w, noload_json(w, m, xf).0),
        mild(x, noload_json(w, m, xf).1),
{
    broadcast use {group_mild, group_even};

    reveal(noload_json);
}

#[verifier::rlimit(40)]
proof fn lemma_tested_mild(x: Seq<char>, w: WriterV, m: Sem, xf: DistTransformerV, info: Entries)
    requires
        stands_alone(x),
    ensures
        even(w, tested_json(w, m, xf, info).0),
        calm(x, info) ==> calm(x, tested_json(w, m, xf, info).1),
{
    broadcast use {group_mild, group_even};

    reveal(tested_json);
    assert forall|v: WriterV, b: Bits| even(v, (#[trigger] circuit_json(v, m, xf, b)).0) && all_mild(x, 
        seq![circuit_json(v, m, xf, b).1],
    ) by {
        lemma_circuit_mild(x, v, m, xf, b);
    }
    assert forall|v: WriterV| even(v, (#[trigger] noload_json(v, m, xf)).0) && all_mild(x, 
        seq![noload_json(v, m, xf).1],
    ) by {
        lemma_noload_mild(x, v, m, xf);
    }
}

/// The catalog entry of a datasheet.
pub open spec fn wrapped(key: Seq<char>, sheet: Entries) -> JsonV {
    JsonV::Obj(
        put_of(
            Entries::empty(),
            "PowerTransformerInfo.TransformerTankInfos"@,
            JsonV::Obj(put_of(Entries::empty(), key, JsonV::Obj(sheet))),
        ),
    )
}

/// An entry of the catalog.
pub open spec fn is_wrapped(x: Seq<char>, e: (Seq<char>, JsonV)) -> bool {
    exists|sheet: Entries|
        e.1 == #[trigger] wrapped(e.0, sheet) && fine(x, "TransformerTankInfo"@, sheet)
}

/// The entries of the catalog.
pub open spec fn assets_fine(x: Seq<char>, t: Entries) -> bool {
    &&& x != "TransformerTankInfo"@ ==> calm(x, t)
    &&& forall|i: int| 0 <= i < t.len() ==> is_wrapped(x, #[trigger] t[i])
}

proof fn lemma_assets_put(x: Seq<char>, t: Entries, k: Seq<char>, v: JsonV)
    requires
        assets_fine(x, t),
        is_wrapped(x, (k, v)),
    ensures
        assets_fine(x, put_of(t, k, v)),
{
    broadcast use group_mild;

    let r = put_of(t, k, v);
    assert forall|i: int| 0 <= i < r.len() implies is_wrapped(x, #[trigger] r[i]) by {
        reveal(put_of);
        lemma_put_from_entries(t, k, v, 0, i);
    }
    if x != "TransformerTankInfo"@ {
        let sheet = choose|sheet: Entries|
            v == #[trigger] wrapped(k, sheet) && fine(x, "TransformerTankInfo"@, sheet);
        assert(calm(x, Entries::empty()));
        assert(mild(x, JsonV::Obj(sheet)));
        let inner = put_of(Entries::empty(), k, JsonV::Obj(sheet));
        assert(calm(x, inner));
        assert(mild(x, JsonV::Obj(inner)));
        assert(calm(
            x,
            put_of(
                Entries::empty(),
                "PowerTransformerInfo.TransformerTankInfos"@,
                JsonV::Obj(inner),
            ),
        ));
        assert(mild(x, v));
    }
}

#[verifier::rlimit(40)]
proof fn lemma_transformer_mild(x: Seq<char>, w: WriterV, m: Sem, xf: DistTransformerV)
    requires
        stands_alone(x),
        xf.windings.len() >= 2,
    ensures
        even(w, transformer_json(w, m, xf).0),
        x != "TransformerTank"@ ==> (transformer_json(w, m, xf).1 matches JsonV::Obj(o) && fine(
            x,
            "PowerTransformer"@,
            o,
        )),
        is_wrapped(x, (xf.name + "_info"@, transformer_json(w, m, xf).2)),
{
    broadcast use {group_mild, group_even};

    reveal(transformer_json);
    lemma_windings_mild(x, w, m, xf, xf.windings.len());
    let (v, ends, infos) = windings_json(w, m, xf, xf.windings.len());
    lemma_tested_mild(x, v, m, xf, infos[0]);
    let first = tested_json(v, m, xf, infos[0]).1;
    let all = infos.update(0, first);
    assert(all_mild(x, objects(all))) by {
        assert forall|i: int| 0 <= i < objects(all).len() implies mild(x, #[trigger] objects(all)[i]) by {
            assert(objects(all)[i] == JsonV::Obj(all[i]));
            if i != 0 {
                assert(all[i] == infos[i]);
            }
        }
    }
    let group = vector_group_of(xf.windings);
    assert(group[group.len() - 1] == '0');
    lemma_marked(x, group, group.len() - 1);
    let tank = identified_of("TransformerTank"@, xf.name, None);
    let tank = put_of(
        tank,
        "PowerSystemResource.AssetDatasheet"@,
        pointer_json("TransformerTankInfo"@, xf.name + "_info"@),
    );
    let tank = put_of(tank, "TransformerTank.TransformerTankEnd"@, JsonV::Arr(ends));
    if x != "TransformerTank"@ {
        assert(all_mild(x, seq![JsonV::Obj(tank)]));
    }
    let sheet = put_of(
        identified_of("TransformerTankInfo"@, xf.name + "_info"@, None),
        "TransformerTankInfo.TransformerEndInfos"@,
        JsonV::Arr(objects(all)),
    );
    assert(fine(x, "TransformerTankInfo"@, sheet));
    assert(transformer_json(w, m, xf).2 == wrapped(xf.name + "_info"@, sheet));
}

pub proof fn lemma_transformers_mild(
    x: Seq<char>,
    w: WriterV,
    m: Sem,
    s: Seq<DistTransformerV>,
    n: nat,
)
    requires
        stands_alone(x),
        n <= s.len(),
    ensures
        even(w, transformers_json(w, m, s, n).0),
        x != "TransformerTank"@ ==> table_fine(
            x,
            "PowerTransformer"@,
            transformers_json(w, m, s, n).1,
        ),
        assets_fine(x, transformers_json(w, m, s, n).2),
    decreases n,
{
    broadcast use {group_mild, group_even};

    if n > 0 {
        lemma_transformers_mild(x, w, m, s, (n - 1) as nat);
        if s[n - 1].windings.len() >= 2 {
            let before = transformers_json(w, m, s, (n - 1) as nat);
            lemma_transformer_mild(x, before.0, m, s[n - 1]);
            lemma_assets_put(
                x,
                before.2,
                s[n - 1].name + "_info"@,
                transformer_json(before.0, m, s[n - 1]).2,
            );
        }
    }
}

// ---- buses and the document ------------------------------------------------

proof fn lemma_location_mild(x: Seq<char>, m: Sem, name: Seq<char>, east: Bits, north: Bits)
    requires
        stands_alone(x),
    ensures
        location_json(m, name, east, north) matches JsonV::Obj(o) && fine(x, "Location"@, o),
{
    broadcast use {group_mild, group_even};

    lemma_identity_keys();
    reveal_strlit("PositionPoint.xPosition");
    reveal_strlit("PositionPoint.yPosition");
    assert("PositionPoint.xPosition"@.len() == 23);
    assert("PositionPoint.yPosition"@.len() == 23);
    reveal(location_json);
    let p = put_of(
        Entries::empty(),
        "Ravens.cimObjectType"@,
        JsonV::Str("PositionPoint"@),
    );
    let p = put_of(p, "PositionPoint.sequenceNumber"@, uint_json(0));
    let p = put_of(p, "PositionPoint.xPosition"@, JsonV::Str(shown(m, east)));
    let p = put_of(p, "PositionPoint.yPosition"@, JsonV::Str(shown(m, north)));
    assert(all_mild(x, seq![JsonV::Obj(p)]));
}

#[verifier::rlimit(40)]
proof fn lemma_bus_mild(x: Seq<char>, w: WriterV, m: Sem, b: DistBusV)
    requires
        stands_alone(x),
    ensures
        calm_writer(x, w) ==> calm_writer(x, bus_json(w, m, b).0),
        bus_json(w, m, b).0.bases == w.bases,
        bus_json(w, m, b).1 matches JsonV::Obj(o) && fine(x, "ConnectivityNode"@, o),
{
    broadcast use {group_mild, group_even};

    reveal(bus_json);
    if b.v_min is Some && b.v_max is Some {
        lemma_voltage_set(x, w, m, b.v_min->0, b.v_max->0, w.base_of(b.id));
    }
}

proof fn lemma_buses_mild(x: Seq<char>, w: WriterV, m: Sem, s: Seq<DistBusV>, n: nat)
    requires
        stands_alone(x),
    ensures
        calm_writer(x, w) ==> calm_writer(x, buses_json(w, m, s, n).0),
        buses_json(w, m, s, n).0.bases == w.bases,
        table_fine(x, "ConnectivityNode"@, buses_json(w, m, s, n).1),
        table_fine(x, "Location"@, buses_json(w, m, s, n).2),
    decreases n,
{
    broadcast use {group_mild, group_even};

    if n > 0 {
        lemma_buses_mild(x, w, m, s, (n - 1) as nat);
        let before = buses_json(w, m, s, (n - 1) as nat);
        lemma_bus_mild(x, before.0, m, s[n - 1]);
        if let Some(l) = s[n - 1].location {
            lemma_location_mild(x, m, s[n - 1].id + "_Location"@, l.x, l.y);
        }
    }
}

proof fn lemma_commands_even(w: WriterV, s: Seq<(Seq<char>, Seq<char>)>, n: nat)
    ensures
        even(w, warn_commands(w, s, n)),
    decreases n,
{
    broadcast use {group_mild, group_even};

    if n > 0 {
        lemma_commands_even(w, s, (n - 1) as nat);
    }
}

proof fn lemma_profiles_even(w: WriterV, s: Seq<ControlProfileV>, n: nat)
    ensures
        even(w, warn_profiles(w, s, n)),
    decreases n,
{
    broadcast use {group_mild, group_even};

    if n > 0 {
        lemma_profiles_even(w, s, (n - 1) as nat);
    }
}

pub proof fn lemma_unrepresented_even(w: WriterV, m: Sem, net: DistNetworkV)
    ensures
        even(w, unrepresented(w, m, net)),
{
    broadcast use {group_mild, group_even};

    reveal(unrepresented);
    assert forall|v: WriterV| even(
        v,
        #[trigger] warn_commands(v, net.commands, net.commands.len()),
    ) by {
        lemma_commands_even(v, net.commands, net.commands.len());
    }
    assert forall|v: WriterV| even(
        v,
        #[trigger] warn_commands(v, net.options, net.options.len()),
    ) by {
        lemma_commands_even(v, net.options, net.options.len());
    }
    assert forall|v: WriterV| even(
        v,
        #[trigger] warn_profiles(v, net.control_profiles, net.control_profiles.len()),
    ) by {
        lemma_profiles_even(v, net.control_profiles, net.control_profiles.len());
    }
}

/// Tables whose objects are of their own kinds.
pub open spec fn tables_fine(x: Seq<char>, t: TablesV) -> bool {
    &&& table_fine(x, "PerLengthPhaseImpedance"@, t.linecodes)
    &&& table_fine(x, "ACLineSegment"@, t.lines)
    &&& table_fine(x, "Switch"@, t.switches)
    &&& table_fine(x, "EnergyConsumer"@, t.loads)
    &&& table_fine(x, "LinearShuntCompensator"@, t.shunts)
    &&& table_fine(x, "SynchronousMachine"@, t.machines)
    &&& table_fine(x, "PowerElectronicsConnection"@, t.electronics)
    &&& table_fine(x, "EnergySource"@, t.sources)
    &&& x != "TransformerTank"@ ==> table_fine(x, "PowerTransformer"@, t.transformers)
    &&& table_fine(x, "ConnectivityNode"@, t.nodes)
    &&& table_fine(x, "Location"@, t.locations)
    &&& assets_fine(x, t.assets)
}

#[verifier::rlimit(40)]
pub proof fn lemma_tables_mild(x: Seq<char>, w: WriterV, m: Sem, net: DistNetworkV)
    requires
        stands_alone(x),
        calm_writer(x, w),
        forall|i: int| 0 <= i < net.ibrs.len() ==> carries_calm(x, #[trigger] net.ibrs[i]),
    ensures
        calm_writer(x, tables_of(w, m, net).0),
        tables_of(w, m, net).0.bases == w.bases,
        tables_fine(x, tables_of(w, m, net).1),
{
    reveal(tables_of);
    lemma_unrepresented_even(w, m, net);
    let w = unrepresented(w, m, net);
    lemma_linecodes_mild(x, w, m, net.linecodes, net.linecodes.len());
    let w = linecodes_json(w, m, net.linecodes, net.linecodes.len()).0;
    lemma_lines_mild(x, w, m, net, net.lines.len());
    let w = lines_json(w, m, net, net.lines.len()).0;
    lemma_switches_mild(x, w, m, net.switches, net.switches.len());
    let w = switches_json(w, m, net.switches, net.switches.len()).0;
    lemma_loads_mild(x, w, m, net, net.loads.len());
    let w = loads_json(w, m, net, net.loads.len()).0;
    lemma_shunts_mild(x, w, m, net.shunts, net.shunts.len());
    let w = shunts_json(w, m, net.shunts, net.shunts.len()).0;
    lemma_machines_mild(x, w, m, net.generators, net.generators.len());
    let w = machines_json(w, m, net.generators, net.generators.len()).0;
    lemma_inverters_mild(x, w, m, net.ibrs, net.ibrs.len());
    let w = all_electronics_json(w, m, net.ibrs, net.ibrs.len()).0;
    lemma_sources_mild(x, w, m, net.sources, net.sources.len());
    let w = sources_json(w, m, net.sources, net.sources.len()).0;
    lemma_transformers_mild(x, w, m, net.transformers, net.transformers.len());
    let w = transformers_json(w, m, net.transformers, net.transformers.len()).0;
    lemma_buses_mild(x, w, m, net.buses, net.buses.len());
}

pub proof fn lemma_versions_mild(x: Seq<char>)
    requires
        stands_alone(x),
    ensures
        mild(x, versions_json()),
        versions_json() is Obj,
{
    broadcast use {group_mild, group_even};

    reveal_strlit("IEC61970CIM100");
    reveal_strlit("2019-04-01");
    reveal_strlit("2025-03-11");
    reveal_strlit("RAVENSv0.3.0-dev");
    lemma_marked(x, "IEC61970CIM100"@, 12);
    lemma_marked(x, "2019-04-01"@, 4);
    lemma_marked(x, "2025-03-11"@, 4);
    lemma_marked(x, "RAVENSv0.3.0-dev"@, 8);
    reveal(versions_json);
}

pub proof fn lemma_base_table_mild(
    x: Seq<char>,
    w: WriterV,
    m: Sem,
    names: Seq<(Seq<char>, Bits)>,
    n: nat,
)
    requires
        stands_alone(x),
    ensures
        even(w, base_table(w, m, names, n).0),
        table_fine(x, "BaseVoltage"@, base_table(w, m, names, n).1),
    decreases n,
{
    broadcast use {group_mild, group_even};

    if n > 0 {
        lemma_base_table_mild(x, w, m, names, (n - 1) as nat);
    }
}

pub broadcast proof fn lemma_table_calm(x: Seq<char>, o: Entries, key: Seq<char>, table: Entries)
    ensures
        calm(x, o) && calm(x, table) ==> #[trigger] calm(x, put_table(o, key, table)),
{
    broadcast use {group_mild, group_even};

}

proof fn lemma_equipment_calm(x: Seq<char>, t: TablesV)
    ensures
        tables_fine(x, t) && stands_apart(x) ==> calm(x, equipment_of(t)),
{
    broadcast use lemma_table_calm;

    reveal(equipment_of);
}

#[verifier::rlimit(40)]
proof fn lemma_typed_calm(x: Seq<char>, w: WriterV, m: Sem, net: DistNetworkV)
    requires
        stands_apart(x),
        calm_writer(x, w),
        forall|i: int| 0 <= i < net.ibrs.len() ==> carries_calm(x, #[trigger] net.ibrs[i]),
    ensures
        calm(x, typed_of(w, m, net).1),
{
    broadcast use {group_mild, lemma_table_calm};

    reveal(typed_of);
    lemma_tables_mild(x, w, m, net);
    let (v, t) = tables_of(w, m, net);
    lemma_versions_mild(x);
    lemma_equipment_calm(x, t);
    let names = base_names(m, v.bases, v.bases.len());
    lemma_base_table_mild(x, v, m, names, names.len());
    let u = base_table(v, m, names, names.len()).0;
    lemma_limit_types(x, u, m);
}

// ---- the walk --------------------------------------------------------------

/// None of the objects is of the kind `x`.
pub open spec fn none_of(x: Seq<char>, doc: Seq<ObjV>) -> bool {
    forall|i: int| 0 <= i < doc.len() ==> (#[trigger] doc[i]).kind != x
}

pub proof fn lemma_kind_at(x: Seq<char>, o: Entries)
    requires
        calm(x, o),
    ensures
        str_at(o, "Ravens.cimObjectType"@) != Some(x),
{
    reveal(str_at);
    reveal(get_of);
    if get_of(o, "Ravens.cimObjectType"@) is Some {
        let j = lemma_entry_of(o, "Ravens.cimObjectType"@, 0);
        assert(!is_barred(x, o[j].1));
    }
}

proof fn lemma_walk_mild(x: Seq<char>, name: Option<Seq<char>>,
    value: JsonV,
    path: Seq<Seq<char>>,
    nested: bool,
    out: Seq<ObjV>,
)
    requires
        mild(x, value),
        none_of(x, out),
    ensures
        none_of(x, walk_of(name, value, path, nested, out)),
    decreases value, 0nat,
{
    match value {
        JsonV::Obj(map) => {
            let below = match name {
                Some(n) => path.push(n),
                None => path,
            };
            lemma_calm_entries(x, map, map.len());
            lemma_kind_at(x, map);
            match str_at(map, "Ravens.cimObjectType"@) {
                Some(kind) => {
                    let own = ObjV {
                        kind,
                        name: match name {
                            Some(n) => n,
                            None => match str_at(map, "IdentifiedObject.name"@) {
                                Some(n) => n,
                                None => seq![],
                            },
                        },
                        path,
                        nested,
                        props: map,
                    };
                    lemma_entries_mild(x, map, map.len(), below, true, out.push(own));
                },
                None => {
                    lemma_entries_mild(x, map, map.len(), below, nested, out);
                },
            }
        },
        JsonV::Arr(items) => {
            let below = match name {
                Some(n) => path.push(n),
                None => path,
            };
            lemma_items_mild(x, items, items.len(), below, nested, out);
        },
        _ => {},
    }
}

proof fn lemma_entries_mild(x: Seq<char>, map: Entries,
    n: nat,
    path: Seq<Seq<char>>,
    nested: bool,
    out: Seq<ObjV>,
)
    requires
        mild_entries(x, map, n),
        none_of(x, out),
    ensures
        none_of(x, walk_entries(map, n, path, nested, out)),
    decreases map, n,
{
    if n > 0 && n <= map.len() {
        lemma_entries_mild(x, map, (n - 1) as nat, path, nested, out);
        lemma_walk_mild(x, Some(map[n - 1].0),
            map[n - 1].1,
            path,
            nested,
            walk_entries(map, (n - 1) as nat, path, nested, out),
        );
    }
}

proof fn lemma_items_mild(x: Seq<char>, items: Seq<JsonV>,
    n: nat,
    path: Seq<Seq<char>>,
    nested: bool,
    out: Seq<ObjV>,
)
    requires
        mild_items(x, items, n),
        none_of(x, out),
    ensures
        none_of(x, walk_items(items, n, path, nested, out)),
    decreases items, n,
{
    if n > 0 && n <= items.len() {
        lemma_items_mild(x, items, (n - 1) as nat, path, nested, out);
        lemma_walk_mild(x, None,
            items[n - 1],
            path,
            nested,
            walk_items(items, (n - 1) as nat, path, nested, out),
        );
    }
}

proof fn lemma_insert_calm(
    x: Seq<char>,
    m: Entries,
    path: Seq<Seq<char>>,
    i: nat,
    name: Seq<char>,
    v: JsonV,
)
    requires
        calm(x, m),
        mild(x, v),
        !is_barred(x, v),
    ensures
        insert_in(m, path, i, name, v) matches Ok(o) ==> calm(x, o),
    decreases path.len() - i,
{
    broadcast use group_mild;

    if i < path.len() {
        reveal(get_of);
        let k = path[i as int];
        let below = match get_of(m, k) {
            None => Entries::empty(),
            Some(JsonV::Obj(sub)) => sub,
            Some(_) => Entries::empty(),
        };
        if get_of(m, k) is Some {
            let j = lemma_entry_of(m, k, 0);
            assert(mild(x, m[j].1));
        }
        lemma_insert_calm(x, below, path, i + 1, name, v);
    }
}

/// What an untyped object keeps holds no such kind.
pub open spec fn keeps_calm(x: Seq<char>, u: UntypedObjectV) -> bool {
    untyped_prop(u.props, "ravens_json"@, 0) matches Some(raw) ==> (json_parse(raw) matches Ok(v)
        ==> mild(x, v) && !is_barred(x, v))
}

proof fn lemma_restored_calm(
    x: Seq<char>,
    w: WriterV,
    root: Entries,
    s: Seq<UntypedObjectV>,
    n: nat,
)
    requires
        n <= s.len(),
        calm(x, root),
        forall|i: int| 0 <= i < s.len() ==> keeps_calm(x, #[trigger] s[i]),
    ensures
        calm(x, restored(w, root, s, n).1),
    decreases n,
{
    if n > 0 {
        lemma_restored_calm(x, w, root, s, (n - 1) as nat);
        reveal(restore_step);
        let before = restored(w, root, s, (n - 1) as nat);
        let u = s[n - 1];
        let p = untyped_prop(u.props, "ravens_path"@, 0);
        let raw = untyped_prop(u.props, "ravens_json"@, 0);
        if p is Some && raw is Some {
            if let Ok(v) = json_parse(raw->0) {
                lemma_insert_calm(x, before.1, path_keys_of(p->0), 0, u.name, v);
            }
        }
    }
}

/// The document of a network holds no object of a kind that is never written.
pub proof fn lemma_document_without(x: Seq<char>, m: Sem, net: DistNetworkV)
    requires
        stands_apart(x),
        forall|i: int| 0 <= i < net.untyped.len() ==> keeps_calm(x, #[trigger] net.untyped[i]),
        forall|i: int| 0 <= i < net.ibrs.len() ==> carries_calm(x, #[trigger] net.ibrs[i]),
    ensures
        none_of(x, collect_of(ravens_document(m, net).1)),
{
    let w = fresh_writer(bases_of(m, net));
    let root = ravens_document(m, net).1;
    lemma_typed_calm(x, w, m, net);
    let before = typed_of(w, m, net);
    lemma_restored_calm(x, before.0, before.1, net.untyped, net.untyped.len());
    assert(root == restored(before.0, before.1, net.untyped, net.untyped.len()).1) by {
        reveal(document_of);
    }
    lemma_calm_entries(x, root, root.len());
    lemma_entries_mild(x, root, root.len(), Seq::empty(), false, Seq::empty());
}

/// What untyped objects keep and what inverters carry over holds no object of the
/// balanced profile.
pub open spec fn unbalanced(net: DistNetworkV) -> bool {
    &&& forall|x: Seq<char>, i: int|
        balanced(x) && 0 <= i < net.untyped.len() ==> #[trigger] keeps_calm(x, net.untyped[i])
    &&& forall|x: Seq<char>, i: int|
        balanced(x) && 0 <= i < net.ibrs.len() ==> #[trigger] carries_calm(x, net.ibrs[i])
}

/// What is written is accepted: the document of a network is never taken for one
/// of the balanced profile. What untyped objects keep, and what inverters carry
/// over from where they were read, must hold no object of that profile.
pub proof fn lemma_written_is_accepted(m: Sem, net: DistNetworkV)
    requires
        unbalanced(net),
    ensures
        ravens_value(m, JsonV::Obj(ravens_document(m, net).1)) is Ok,
{
    let doc = collect_of(ravens_document(m, net).1);
    assert forall|x: Seq<char>| balanced(x) implies #[trigger] none_of(x, doc) by {
        lemma_balanced_apart(x);
        assert forall|i: int| 0 <= i < net.untyped.len() implies keeps_calm(
            x,
            #[trigger] net.untyped[i],
        ) by {
            assert(keeps_calm(x, net.untyped[i]));
        }
        assert forall|i: int| 0 <= i < net.ibrs.len() implies carries_calm(
            x,
            #[trigger] net.ibrs[i],
        ) by {
            assert(carries_calm(x, net.ibrs[i]));
        }
        lemma_document_without(x, m, net);
    }
    assert(none_of("AlgorithmSettings"@, doc));
    assert(none_of("ProducerCostFunction"@, doc));
    assert(none_of("PowerTransformerEnd"@, doc));
    assert(balanced_kinds(doc).len() == 0);
}

} // verus!
