//! What the reader makes of what the writer wrote.

use vstd::prelude::*;

use crate::json::{float_json, num_of, uint_json, uint_of, Entries, JsonV};
use crate::math::{is_finite, Bits, Sem};
use crate::model::{DistBusV, DistLineV, DistNetworkV, DistSwitchV};
use crate::numeral::{dec_of, lemma_dec_reads_back};
use crate::order::{get_of, put_of};
use crate::ravens::bases::bases_of;
use crate::ravens::doc::{
    bool_at, collect_of, list_at, natural_slot, num_at, of_kind_n, sorted_kind, str_at, suffix_at,
    target_at, terminal_of, terminal_slot, terminals_n, terminals_of, uint_at, ObjV, TerminalV,
};
use crate::ravens::emit::{
    extra_num, extras_mrid_of, hot_code_of, hot_letters_n, hot_letters_of, identified_of, letters_n,
    terminal_json, WriterV,
};
use crate::ravens::found::{lemma_kind_holds, lemma_slot_inside, lemma_typed_object_is_collected};
use crate::ravens::keeps::{
    lemma_finish_grows, lemma_lines_n_grows, lemma_nothing_is_taken_back, lemma_switches_n_grows,
    stages,
};
use crate::ravens::laws::{
    clear, found_at, lemma_pointer_reads_back, lemma_put_anywhere, lemma_typed_place_stays,
    typed_root,
};
use crate::ravens::lines::{
    line_letters_of, line_limits_of, line_step, lines_n, mrid_extras, phase_row_of, phase_rows_n,
    phase_slot, seconds, sides_n, switch_ids, switch_limits_of, switch_maps_of, switch_step,
    switches_n,
};
use crate::ravens::name::{
    det_mrid_of, hot_n, hot_terminals_of, lemma_terminal_phase_inverse, letters_from, letters_of,
    terminal_phase_of, terminals_n as wires_n, terminals_of as wires_of,
};
use crate::ravens::read::{buses_n, ravens_value, run_of};
use crate::ravens::state::StateV;
use crate::ravens::write::{
    bus_json, buses_json, equipment_of, fresh_writer, put_table, ravens_document, tables_of,
    typed_of, unrepresented, TablesV,
};
use crate::ravens::write_lines::{
    first_rating, line_json, line_phase_json, line_phases_json, line_rating, linecodes_json,
    lines_json, switch_json, switches_json,
};
use crate::ravens::write_loads::loads_json;
use crate::ravens::write_machines::{all_electronics_json, machines_json, shunts_json, sources_json};
use crate::ravens::write_tanks::transformers_json;
use crate::text::after_last_from;

verus! {

// ---- entries ---------------------------------------------------------------

/// What stands under a key once something was put under one.
pub broadcast proof fn lemma_get_put(m: Entries, k: Seq<char>, v: JsonV, q: Seq<char>)
    ensures
        #[trigger] get_of(put_of(m, k, v), q) == if q == k {
            Some(v)
        } else {
            get_of(m, q)
        },
{
    lemma_put_anywhere(m, k, v, q);
}

pub proof fn lemma_get_none(q: Seq<char>)
    ensures
        get_of(Entries::empty(), q) is None,
{
    reveal(get_of);
}

pub proof fn lemma_identity_keys()
    ensures
        "Ravens.cimObjectType"@.len() == 20 && "Ravens.cimObjectType"@[0] == 'R',
        "IdentifiedObject.mRID"@.len() == 21 && "IdentifiedObject.mRID"@[17] == 'm',
        "IdentifiedObject.name"@.len() == 21 && "IdentifiedObject.name"@[17] == 'n',
{
    reveal_strlit("Ravens.cimObjectType");
    reveal_strlit("IdentifiedObject.mRID");
    reveal_strlit("IdentifiedObject.name");
}

/// What every object says of itself.
pub proof fn lemma_identified(
    kind: Seq<char>,
    name: Seq<char>,
    imported: Option<Seq<char>>,
    q: Seq<char>,
)
    ensures
        get_of(identified_of(kind, name, imported), "Ravens.cimObjectType"@) == Some(
            JsonV::Str(kind),
        ),
        q.len() != 20 && q.len() != 21 ==> get_of(
            identified_of(kind, name, imported),
            q,
        ) is None,
{
    broadcast use lemma_get_put;

    lemma_identity_keys();
    lemma_get_none(q);
    reveal(identified_of);
}

// ---- identity --------------------------------------------------------------

/// The identifier an object is written under.
pub open spec fn written_id(
    kind: Seq<char>,
    name: Seq<char>,
    imported: Option<Seq<char>>,
) -> Seq<char> {
    match imported {
        Some(s) => s,
        None => det_mrid_of(kind, name),
    }
}

/// An object is the same when its identifier was imported from where it was
/// written.
pub proof fn lemma_identified_again(kind: Seq<char>, name: Seq<char>, imported: Option<Seq<char>>)
    ensures
        identified_of(kind, name, Some(written_id(kind, name, imported))) == identified_of(
            kind,
            name,
            imported,
        ),
        get_of(identified_of(kind, name, imported), "IdentifiedObject.mRID"@) == Some(
            JsonV::Str(written_id(kind, name, imported)),
        ),
{
    broadcast use lemma_get_put;

    lemma_identity_keys();
    reveal(identified_of);
}

/// The extras of an element that was read hold the identifier of its object.
pub proof fn lemma_extras_hold_id(props: Entries, id: Seq<char>)
    requires
        get_of(props, "IdentifiedObject.mRID"@) == Some(JsonV::Str(id)),
    ensures
        get_of(mrid_extras(props), "ravens_mrid"@) == Some(JsonV::Str(id)),
{
    broadcast use lemma_get_put;

    reveal(mrid_extras);
    reveal(str_at);
}

/// An object says under which identifier an element is written.
pub open spec fn says_id(o: Entries, kind: Seq<char>, name: Seq<char>, extras: Entries) -> bool {
    get_of(o, "IdentifiedObject.mRID"@) == Some(
        JsonV::Str(written_id(kind, name, extras_mrid_of(extras))),
    )
}

/// The extras of an element that came back hold the identifier that it was
/// written under: its imported one, where it has one.
pub open spec fn comes_of_id(
    back: Entries,
    kind: Seq<char>,
    name: Seq<char>,
    extras: Entries,
) -> bool {
    extras_mrid_of(back) == Some(written_id(kind, name, extras_mrid_of(extras)))
}

/// An object gives a number, where the number can be told.
pub open spec fn tells(m: Sem, o: Entries, key: Seq<char>, x: Bits) -> bool {
    told(m, x) ==> num_at(m, o, key) == Some(x)
}

/// The same of a number that there may be.
pub open spec fn tells_any(m: Sem, o: Entries, key: Seq<char>, x: Option<Bits>) -> bool {
    match x {
        Some(v) => tells(m, o, key, v),
        None => num_at(m, o, key) is None,
    }
}

// ---- terminals -------------------------------------------------------------

pub proof fn lemma_terminal_keys()
    ensures
        "ACDCTerminal.sequenceNumber"@.len() == 27,
        "Terminal.phases"@.len() == 15,
        "Terminal.ConnectivityNode"@.len() == 25,
        "ACDCTerminal.OperationalLimitSet"@.len() == 32,
{
    reveal_strlit("ACDCTerminal.sequenceNumber");
    reveal_strlit("Terminal.phases");
    reveal_strlit("Terminal.ConnectivityNode");
    reveal_strlit("ACDCTerminal.OperationalLimitSet");
}

pub proof fn lemma_uint_reads_back(n: nat)
    requires
        n <= u64::MAX,
    ensures
        uint_of(uint_json(n)) == Some(n as u64),
{
    lemma_dec_reads_back(n);
}

/// The classes that pointers are written for have no colon in them.
pub proof fn lemma_pointer_classes()
    ensures
        forall|i: int|
            0 <= i < "ConnectivityNode"@.len() ==> #[trigger] "ConnectivityNode"@[i] != ':',
        forall|i: int|
            0 <= i < "OperationalLimitSet"@.len() ==> #[trigger] "OperationalLimitSet"@[i] != ':',
        forall|i: int|
            0 <= i < "PerLengthPhaseImpedance"@.len() ==> #[trigger] "PerLengthPhaseImpedance"@[i]
                != ':',
{
    reveal_strlit("ConnectivityNode");
    reveal_strlit("OperationalLimitSet");
    reveal_strlit("PerLengthPhaseImpedance");
}

/// A terminal entry reads back.
pub proof fn lemma_terminal_reads_back(
    owner: Seq<char>,
    seq: nat,
    node: Seq<char>,
    code: Seq<char>,
    limits: Option<Seq<char>>,
)
    requires
        seq <= u64::MAX,
    ensures
        terminal_of(terminal_json(owner, seq, node, code, limits)) == Some(
            (seq as u64, TerminalV { node, phases: letters_of(code), limit_set: limits }),
        ),
{
    broadcast use lemma_get_put;

    reveal(terminal_json);
    reveal(terminal_of);
    reveal(target_at);
    reveal(uint_at);
    reveal(str_at);
    lemma_terminal_keys();
    lemma_uint_reads_back(seq);
    lemma_pointer_classes();
    lemma_pointer_reads_back("ConnectivityNode"@, node);
    let t = identified_of("Terminal"@, owner + "_T"@ + dec_of(seq), None);
    lemma_identified(
        "Terminal"@,
        owner + "_T"@ + dec_of(seq),
        None,
        "ACDCTerminal.OperationalLimitSet"@,
    );
    if let Some(set) = limits {
        lemma_pointer_reads_back("OperationalLimitSet"@, set);
    }
}

pub proof fn lemma_two_terminals(a: JsonV, b: JsonV, x: TerminalV, y: TerminalV)
    requires
        terminal_of(a) == Some((1u64, x)),
        terminal_of(b) == Some((2u64, y)),
    ensures
        terminals_n(seq![a, b], 2) == seq![(1u64, x), (2u64, y)],
{
    let items = seq![a, b];
    let none = terminals_n(items, 0);
    assert(none.len() == 0);
    assert(terminal_slot(none, 1, 0) == 0);
    let one = terminals_n(items, 1);
    assert(one =~= seq![(1u64, x)]);
    assert(terminal_slot(one, 2, 1) == 1);
    assert(terminal_slot(one, 2, 0) == 1);
    assert(terminals_n(items, 2) =~= seq![(1u64, x), (2u64, y)]);
}

// ---- wires -----------------------------------------------------------------

/// The wires among the first `n` that carry phases.
pub open spec fn hot_wires_n(map: Seq<Seq<char>>, n: nat) -> Seq<Seq<char>>
    decreases n,
{
    if n == 0 {
        seq![]
    } else {
        let before = hot_wires_n(map, (n - 1) as nat);
        match terminal_phase_of(map[n - 1]) {
            Some(l) => if l == "N"@ {
                before
            } else {
                before.push(map[n - 1])
            },
            None => before,
        }
    }
}

pub open spec fn hot_wires(map: Seq<Seq<char>>) -> Seq<Seq<char>> {
    hot_wires_n(map, map.len())
}

pub proof fn lemma_letters()
    ensures
        "A"@ =~= seq!['A'],
        "B"@ =~= seq!['B'],
        "C"@ =~= seq!['C'],
        "N"@ =~= seq!['N'],
        "1"@ =~= seq!['1'],
        "2"@ =~= seq!['2'],
        "3"@ =~= seq!['3'],
        "4"@ =~= seq!['4'],
{
    reveal_strlit("A");
    reveal_strlit("B");
    reveal_strlit("C");
    reveal_strlit("N");
    reveal_strlit("1");
    reveal_strlit("2");
    reveal_strlit("3");
    reveal_strlit("4");
}

pub proof fn lemma_hot_letters(map: Seq<Seq<char>>, n: nat)
    requires
        n <= map.len(),
    ensures
        hot_letters_n(map, n).len() == hot_wires_n(map, n).len(),
        forall|i: int|
            0 <= i < hot_wires_n(map, n).len() ==> {
                let t = #[trigger] hot_wires_n(map, n)[i];
                &&& terminal_phase_of(t) == Some(hot_letters_n(map, n)[i])
                &&& t != "4"@
                &&& hot_letters_n(map, n)[i] != "N"@
            },
    decreases n,
{
    lemma_letters();
    assert("A"@[0] == 'A' && "B"@[0] == 'B' && "C"@[0] == 'C' && "N"@[0] == 'N');
    assert("1"@[0] == '1' && "2"@[0] == '2' && "3"@[0] == '3' && "4"@[0] == '4');
    if n > 0 {
        lemma_hot_letters(map, (n - 1) as nat);
        let before = hot_wires_n(map, (n - 1) as nat);
        let wires = hot_wires_n(map, n);
        let letters = hot_letters_n(map, n);
        assert forall|i: int| 0 <= i < wires.len() implies {
            let t = #[trigger] wires[i];
            &&& terminal_phase_of(t) == Some(letters[i])
            &&& t != "4"@
            &&& letters[i] != "N"@
        } by {
            if i < before.len() {
                assert(wires[i] == before[i]);
                assert(letters[i] == hot_letters_n(map, (n - 1) as nat)[i]);
            }
        }
    }
}

pub proof fn lemma_terminals_of_letters(letters: Seq<Seq<char>>, wires: Seq<Seq<char>>, n: nat)
    requires
        n <= letters.len() == wires.len(),
        forall|i: int|
            0 <= i < wires.len() ==> terminal_phase_of(#[trigger] wires[i]) == Some(letters[i])
                && wires[i] != "4"@,
    ensures
        wires_n(letters, n) == wires.take(n as int),
        hot_n(wires, n) == wires.take(n as int),
    decreases n,
{
    if n == 0 {
        assert(wires.take(0) =~= seq![]);
    } else {
        lemma_terminals_of_letters(letters, wires, (n - 1) as nat);
        assert(terminal_phase_of(wires[n - 1]) == Some(letters[n - 1]));
        lemma_terminal_phase_inverse(wires[n - 1]);
        assert(wires.take(n as int) =~= wires.take(n - 1).push(wires[n - 1]));
    }
}

/// Phase letters read back as the wires they were written for.
pub proof fn lemma_hot_wires_read_back(map: Seq<Seq<char>>)
    ensures
        hot_terminals_of(hot_letters_of(map)) == hot_wires(map),
{
    let letters = hot_letters_of(map);
    let wires = hot_wires(map);
    lemma_hot_letters(map, map.len());
    lemma_terminals_of_letters(letters, wires, wires.len());
    assert(wires.take(wires.len() as int) =~= wires);
    reveal(wires_of);
}

pub proof fn lemma_phase_row(name: Seq<char>, letter: Seq<char>, k: nat)
    requires
        k < u64::MAX,
        letter == "A"@ || letter == "B"@ || letter == "C"@ || letter == "N"@,
    ensures
        phase_row_of(line_phase_json(name, letter, k)) == Some(((k + 1) as u64, letter)),
{
    broadcast use lemma_get_put;

    reveal(line_phase_json);
    reveal(phase_row_of);
    reveal(suffix_at);
    reveal(str_at);
    reveal(uint_at);
    reveal_strlit("ACLineSegmentPhase.phase");
    reveal_strlit("ACLineSegmentPhase.sequenceNumber");
    reveal_strlit("SinglePhaseKind.");
    assert("ACLineSegmentPhase.phase"@.len() == 24);
    assert("ACLineSegmentPhase.sequenceNumber"@.len() == 33);
    lemma_uint_reads_back(k + 1);
    lemma_letters();
    let text = "SinglePhaseKind."@ + letter;
    let at = "SinglePhaseKind."@.len() as int;
    assert(text[at - 1] == '.');
    assert(text[at] != '.');
    assert(text.len() == at + 1);
    assert(after_last_from(text, '.', at) == text.subrange(at, text.len() as int));
    assert(after_last_from(text, '.', at + 1) == after_last_from(text, '.', at));
    assert(text.subrange(at, text.len() as int) =~= letter);
}

pub proof fn lemma_row_slot(s: Seq<(u64, Seq<char>)>, n: u64, i: int)
    requires
        0 <= i <= s.len(),
        forall|j: int| 0 <= j < s.len() ==> (#[trigger] s[j]).0 <= n,
    ensures
        phase_slot(s, n, i) == s.len(),
    decreases s.len() - i,
{
    if i < s.len() {
        assert(s[i].0 <= n);
        lemma_row_slot(s, n, i + 1);
    }
}

pub proof fn lemma_phase_rows(name: Seq<char>, letters: Seq<Seq<char>>, n: nat)
    requires
        n <= letters.len() < u64::MAX,
        forall|i: int|
            0 <= i < letters.len() ==> (#[trigger] letters[i] == "A"@ || letters[i] == "B"@
                || letters[i] == "C"@ || letters[i] == "N"@),
    ensures
        phase_rows_n(line_phases_json(name, letters), n) == Seq::new(
            n,
            |i: int| ((i + 1) as u64, letters[i]),
        ),
    decreases n,
{
    let items = line_phases_json(name, letters);
    let want = Seq::new(n, |i: int| ((i + 1) as u64, letters[i]));
    if n == 0 {
        assert(phase_rows_n(items, n) =~= want);
    } else {
        lemma_phase_rows(name, letters, (n - 1) as nat);
        let before = phase_rows_n(items, (n - 1) as nat);
        let l = letters[n - 1];
        assert(l == "A"@ || l == "B"@ || l == "C"@ || l == "N"@);
        lemma_phase_row(name, l, (n - 1) as nat);
        lemma_row_slot(before, n as u64, 0);
        assert(phase_rows_n(items, n) =~= want);
    }
}

/// The phase letters of a line come from its phase rows.
pub proof fn lemma_line_letters(
    props: Entries,
    from: TerminalV,
    name: Seq<char>,
    map: Seq<Seq<char>>,
)
    requires
        get_of(props, "ACLineSegment.ACLineSegmentPhase"@) == Some(
            JsonV::Arr(line_phases_json(name, hot_letters_of(map))),
        ),
        0 < hot_letters_of(map).len() < u64::MAX,
    ensures
        line_letters_of(props, from) == hot_letters_of(map),
{
    reveal(line_letters_of);
    reveal(list_at);
    let letters = hot_letters_of(map);
    lemma_hot_letters(map, map.len());
    assert forall|i: int| 0 <= i < letters.len() implies (#[trigger] letters[i] == "A"@
        || letters[i] == "B"@ || letters[i] == "C"@ || letters[i] == "N"@) by {
        assert(terminal_phase_of(hot_wires_n(map, map.len())[i]) == Some(letters[i]));
    }
    lemma_phase_rows(name, letters, letters.len());
    assert(seconds(phase_rows_n(line_phases_json(name, letters), letters.len())) =~= letters);
}

// ---- places ----------------------------------------------------------------

pub proof fn lemma_root_keys()
    ensures
        "Versions"@.len() == 8 && "Versions"@[0] == 'V',
        "ConnectivityNode"@.len() == 16,
        "Location"@.len() == 8 && "Location"@[0] == 'L',
        "PowerSystemResource"@.len() == 19 && "PowerSystemResource"@[0] == 'P',
        "BaseVoltage"@.len() == 11,
        "PerLengthLineParameter"@.len() == 22,
        "AssetInfo"@.len() == 9,
        "LoadResponseCharacteristic"@.len() == 26,
        "OperationalLimitSet"@.len() == 19 && "OperationalLimitSet"@[0] == 'O',
        "OperationalLimitType"@.len() == 20,
        "EnergyConnectionProfile"@.len() == 23,
{
    reveal_strlit("Versions");
    reveal_strlit("ConnectivityNode");
    reveal_strlit("Location");
    reveal_strlit("PowerSystemResource");
    reveal_strlit("BaseVoltage");
    reveal_strlit("PerLengthLineParameter");
    reveal_strlit("AssetInfo");
    reveal_strlit("LoadResponseCharacteristic");
    reveal_strlit("OperationalLimitSet");
    reveal_strlit("OperationalLimitType");
    reveal_strlit("EnergyConnectionProfile");
}

/// The tables of the document that is written of a network.
pub open spec fn written_tables(m: Sem, net: DistNetworkV) -> TablesV {
    tables_of(fresh_writer(bases_of(m, net)), m, net).1
}

/// Where the nodes and the equipment stand in a document.
#[verifier::rlimit(40)]
pub proof fn lemma_document_places(m: Sem, net: DistNetworkV)
    ensures
        ({
            let root = typed_root(m, net);
            let t = written_tables(m, net);
            let inner = put_table(Entries::empty(), "ConductingEquipment"@, equipment_of(t));
            let level = put_table(Entries::empty(), "Equipment"@, inner);
            &&& get_of(root, "ConnectivityNode"@) == Some(JsonV::Obj(t.nodes))
            &&& level.len() > 0 ==> get_of(root, "PowerSystemResource"@) == Some(
                JsonV::Obj(level),
            )
        }),
{
    broadcast use lemma_get_put;

    lemma_root_keys();
    reveal(typed_of);
}

/// What is put under a key is there.
pub proof fn lemma_put_some(o: Entries, key: Seq<char>, v: JsonV)
    ensures
        put_of(o, key, v).len() > 0,
{
    lemma_put_anywhere(o, key, v, key);
    reveal(get_of);
}

pub proof fn lemma_equipment_keys()
    ensures
        "Conductor"@.len() == 9,
        "Switch"@.len() == 6,
        "PowerTransformer"@.len() == 16 && "PowerTransformer"@[0] == 'P',
        "EnergyConnection"@.len() == 16 && "EnergyConnection"@[0] == 'E',
{
    reveal_strlit("Conductor");
    reveal_strlit("Switch");
    reveal_strlit("PowerTransformer");
    reveal_strlit("EnergyConnection");
}

/// Where the lines and the switches stand among the equipment.
#[verifier::rlimit(40)]
pub proof fn lemma_equipment_places(t: TablesV)
    ensures
        t.lines.len() > 0 ==> get_of(equipment_of(t), "Conductor"@) == Some(
            JsonV::Obj(put_table(Entries::empty(), "ACLineSegment"@, t.lines)),
        ),
        t.switches.len() > 0 ==> get_of(equipment_of(t), "Switch"@) == Some(
            JsonV::Obj(t.switches),
        ),
        t.lines.len() > 0 || t.switches.len() > 0 ==> equipment_of(t).len() > 0,
{
    broadcast use lemma_get_put;

    lemma_equipment_keys();
    reveal(equipment_of);
    if t.lines.len() > 0 {
        lemma_put_some(Entries::empty(), "ACLineSegment"@, JsonV::Obj(t.lines));
        lemma_some_entries(equipment_of(t), "Conductor"@);
    }
    if t.switches.len() > 0 {
        lemma_some_entries(equipment_of(t), "Switch"@);
    }
}

pub proof fn lemma_some_entries(o: Entries, key: Seq<char>)
    ensures
        get_of(o, key) is Some ==> o.len() > 0,
{
    reveal(get_of);
}

/// The path to the nodes.
pub open spec fn node_path() -> Seq<Seq<char>> {
    seq!["ConnectivityNode"@]
}

pub open spec fn line_path() -> Seq<Seq<char>> {
    seq![
        "PowerSystemResource"@,
        "Equipment"@,
        "ConductingEquipment"@,
        "Conductor"@,
        "ACLineSegment"@,
    ]
}

pub open spec fn switch_path() -> Seq<Seq<char>> {
    seq!["PowerSystemResource"@, "Equipment"@, "ConductingEquipment"@, "Switch"@]
}

pub proof fn lemma_levels(m: Sem, net: DistNetworkV)
    requires
        equipment_of(written_tables(m, net)).len() > 0,
    ensures
        ({
            let root = typed_root(m, net);
            let e = equipment_of(written_tables(m, net));
            let inner = put_of(Entries::empty(), "ConductingEquipment"@, JsonV::Obj(e));
            let level = put_of(Entries::empty(), "Equipment"@, JsonV::Obj(inner));
            &&& get_of(root, "PowerSystemResource"@) == Some(JsonV::Obj(level))
            &&& get_of(level, "Equipment"@) == Some(JsonV::Obj(inner))
            &&& get_of(inner, "ConductingEquipment"@) == Some(JsonV::Obj(e))
        }),
{
    broadcast use lemma_get_put;

    let e = equipment_of(written_tables(m, net));
    lemma_document_places(m, net);
    let inner = put_of(Entries::empty(), "ConductingEquipment"@, JsonV::Obj(e));
    lemma_put_some(Entries::empty(), "ConductingEquipment"@, JsonV::Obj(e));
    lemma_put_some(Entries::empty(), "Equipment"@, JsonV::Obj(inner));
}

/// A line of the table is found in the document.
#[verifier::rlimit(40)]
pub proof fn lemma_line_found(m: Sem, net: DistNetworkV, name: Seq<char>, v: JsonV)
    requires
        clear(net.untyped, line_path(), name),
        get_of(written_tables(m, net).lines, name) == Some(v),
    ensures
        found_at(ravens_document(m, net).1, line_path(), 0, name) == Some(v),
{
    broadcast use lemma_get_put;

    let t = written_tables(m, net);
    lemma_some_entries(t.lines, name);
    lemma_equipment_places(t);
    lemma_levels(m, net);
    lemma_typed_place_stays(m, net, line_path(), name);
    reveal_with_fuel(found_at, 7);
}

/// A switch of the table is found in the document.
#[verifier::rlimit(40)]
pub proof fn lemma_switch_found(m: Sem, net: DistNetworkV, name: Seq<char>, v: JsonV)
    requires
        clear(net.untyped, switch_path(), name),
        get_of(written_tables(m, net).switches, name) == Some(v),
    ensures
        found_at(ravens_document(m, net).1, switch_path(), 0, name) == Some(v),
{
    broadcast use lemma_get_put;

    let t = written_tables(m, net);
    lemma_some_entries(t.switches, name);
    lemma_equipment_places(t);
    lemma_levels(m, net);
    lemma_typed_place_stays(m, net, switch_path(), name);
    reveal_with_fuel(found_at, 6);
}

// ---- buses -----------------------------------------------------------------

/// A value is the node object of a bus.
pub open spec fn is_node(v: JsonV, b: DistBusV) -> bool {
    &&& v matches JsonV::Obj(o)
    &&& str_at(o, "Ravens.cimObjectType"@) == Some("ConnectivityNode"@)
    &&& says_id(o, "ConnectivityNode"@, b.id, b.extras)
}

pub proof fn lemma_bus_is_node(w: WriterV, m: Sem, b: DistBusV)
    ensures
        is_node(bus_json(w, m, b).1, b),
{
    broadcast use lemma_get_put;

    reveal(bus_json);
    reveal(str_at);
    reveal_strlit("ConnectivityNode.OperationalLimitSet");
    assert("ConnectivityNode.OperationalLimitSet"@.len() == 36);
    lemma_identity_keys();
    lemma_identified_again("ConnectivityNode"@, b.id, extras_mrid_of(b.extras));
    lemma_identified(
        "ConnectivityNode"@,
        b.id,
        extras_mrid_of(b.extras),
        "ConnectivityNode.OperationalLimitSet"@,
    );
}

pub proof fn lemma_bus_table(w: WriterV, m: Sem, s: Seq<DistBusV>, n: nat, i: int)
    requires
        0 <= i < n <= s.len(),
        forall|j: int| i < j < s.len() ==> (#[trigger] s[j]).id != s[i].id,
    ensures
        ({
            let v = get_of(buses_json(w, m, s, n).1, s[i].id);
            v is Some && is_node(v->0, s[i])
        }),
    decreases n,
{
    broadcast use lemma_get_put;

    let before = buses_json(w, m, s, (n - 1) as nat);
    lemma_bus_is_node(before.0, m, s[n - 1]);
    if i < n - 1 {
        lemma_bus_table(w, m, s, (n - 1) as nat, i);
        assert(s[n - 1].id != s[i].id);
    }
}

/// A bus that comes back of a bus.
pub open spec fn comes_of_bus(back: DistBusV, b: DistBusV) -> bool {
    &&& back.id == b.id
    &&& comes_of_id(back.extras, "ConnectivityNode"@, b.id, b.extras)
}

pub proof fn lemma_bus_pushed(
    m: Sem,
    doc: Seq<ObjV>,
    st: StateV,
    ids: Seq<usize>,
    n: nat,
    j: int,
    b: DistBusV,
) -> (k: int)
    requires
        0 <= j < n <= ids.len(),
        doc[ids[j] as int].name == b.id,
        says_id(doc[ids[j] as int].props, "ConnectivityNode"@, b.id, b.extras),
    ensures
        0 <= k < buses_n(m, doc, st, ids, n).0.net.buses.len(),
        comes_of_bus(buses_n(m, doc, st, ids, n).0.net.buses[k], b),
    decreases n,
{
    let after = buses_n(m, doc, st, ids, n).0.net.buses;
    let before = buses_n(m, doc, st, ids, (n - 1) as nat).0.net.buses;
    if j == n - 1 {
        lemma_extras_hold_id(
            doc[ids[j] as int].props,
            written_id("ConnectivityNode"@, b.id, extras_mrid_of(b.extras)),
        );
        after.len() - 1
    } else {
        let k = lemma_bus_pushed(m, doc, st, ids, (n - 1) as nat, j, b);
        assert(after[k] == before[k]);
        k
    }
}

pub proof fn lemma_bus_tables(m: Sem, net: DistNetworkV, i: int)
    requires
        0 <= i < net.buses.len(),
        forall|j: int| i < j < net.buses.len() ==> (#[trigger] net.buses[j]).id != net.buses[i].id,
    ensures
        ({
            let v = get_of(written_tables(m, net).nodes, net.buses[i].id);
            v is Some && is_node(v->0, net.buses[i])
        }),
{
    reveal(tables_of);
    let w = unrepresented(fresh_writer(bases_of(m, net)), m, net);
    let (w, _codes) = linecodes_json(w, m, net.linecodes, net.linecodes.len());
    let (w, _lines) = lines_json(w, m, net, net.lines.len());
    let (w, _switches) = switches_json(w, m, net.switches, net.switches.len());
    let (w, _loads) = loads_json(w, m, net, net.loads.len());
    let (w, _shunts) = shunts_json(w, m, net.shunts, net.shunts.len());
    let (w, _machines) = machines_json(w, m, net.generators, net.generators.len());
    let (w, _electronics) = all_electronics_json(w, m, net.ibrs, net.ibrs.len());
    let (w, _sources) = sources_json(w, m, net.sources, net.sources.len());
    let (w, _transformers, _assets) = transformers_json(
        w,
        m,
        net.transformers,
        net.transformers.len(),
    );
    lemma_bus_table(w, m, net.buses, net.buses.len(), i);
}

/// No bus is lost: a network that is read of a written document has, for every
/// bus of the network that was written whose name is its own, a bus of that name
/// and identifier.
#[verifier::rlimit(40)]
pub proof fn lemma_buses_survive(m: Sem, net: DistNetworkV, i: int)
    requires
        0 <= i < net.buses.len(),
        clear(net.untyped, node_path(), net.buses[i].id),
        forall|j: int| i < j < net.buses.len() ==> (#[trigger] net.buses[j]).id != net.buses[i].id,
        collect_of(ravens_document(m, net).1).len() <= usize::MAX,
    ensures
        ravens_value(m, JsonV::Obj(ravens_document(m, net).1)) matches Ok(back) ==> exists|k: int|
            0 <= k < back.buses.len() && comes_of_bus(#[trigger] back.buses[k], net.buses[i]),
{
    let root = ravens_document(m, net).1;
    let doc = collect_of(root);
    let id = net.buses[i].id;
    let t = written_tables(m, net);
    lemma_document_places(m, net);
    lemma_bus_tables(m, net, i);
    let o = get_of(t.nodes, id)->0->Obj_0;
    let path = node_path();
    lemma_typed_place_stays(m, net, path, id);
    reveal_with_fuel(found_at, 3);
    assert(found_at(root, path, 0, id) == Some(JsonV::Obj(o)));
    let k = lemma_typed_object_is_collected(root, path, id, o, "ConnectivityNode"@);
    let j = lemma_kind_holds(doc, Seq::empty(), "ConnectivityNode"@, doc.len(), k);
    let ids = sorted_kind(doc, "ConnectivityNode"@);
    let g = stages(m, doc);
    let b = lemma_bus_pushed(m, doc, g.wound, ids, ids.len(), j, net.buses[i]);
    lemma_finish_grows(m, doc, g.wound);
    lemma_nothing_is_taken_back(m, doc);
    let done = buses_n(m, doc, g.wound, ids, ids.len()).0.net.buses;
    assert(g.housed.net.buses[b] == done[b]);
    assert(run_of(m, doc).net.buses[b] == done[b]);
    if let Ok(back) = ravens_value(m, JsonV::Obj(root)) {
        assert(comes_of_bus(back.buses[b], net.buses[i]));
    }
}

// ---- lines -----------------------------------------------------------------

pub proof fn lemma_line_keys()
    ensures
        "Equipment.inService"@.len() == 19,
        "ConductingEquipment.BaseVoltage"@.len() == 31,
        "Conductor.length"@.len() == 16,
        "ACLineSegment.PerLengthImpedance"@.len() == 32,
        "ACLineSegment.PerLengthImpedance"@[14] == 'P',
        "ConductingEquipment.Terminals"@.len() == 29,
        "ACLineSegment.ACLineSegmentPhase"@.len() == 32,
        "ACLineSegment.ACLineSegmentPhase"@[14] == 'A',
{
    reveal_strlit("Equipment.inService");
    reveal_strlit("ConductingEquipment.BaseVoltage");
    reveal_strlit("Conductor.length");
    reveal_strlit("ACLineSegment.PerLengthImpedance");
    reveal_strlit("ConductingEquipment.Terminals");
    reveal_strlit("ACLineSegment.ACLineSegmentPhase");
}

/// A finite number that comes back from its numeral.
pub open spec fn told(m: Sem, x: Bits) -> bool {
    is_finite(x) && num_of(m, float_json(m, x)) == Some(x)
}

/// What a line object says.
pub open spec fn says_line(m: Sem, o: Entries, line: DistLineV) -> bool {
    &&& str_at(o, "Ravens.cimObjectType"@) == Some("ACLineSegment"@)
    &&& target_at(o, "ACLineSegment.PerLengthImpedance"@) == Some(line.linecode)
    &&& get_of(o, "ACLineSegment.ACLineSegmentPhase"@) == Some(
        JsonV::Arr(line_phases_json(line.name, hot_letters_of(line.terminal_map_from))),
    )
    &&& terminals_of(o).len() == 2
    &&& terminals_of(o)[0].1.node == line.bus_from
    &&& terminals_of(o)[1].1.node == line.bus_to
    &&& told(m, line.length) ==> num_at(m, o, "Conductor.length"@) == Some(line.length)
    &&& says_id(o, "ACLineSegment"@, line.name, line.extras)
}

#[verifier::rlimit(40)]
pub proof fn lemma_line_says(w: WriterV, m: Sem, net: DistNetworkV, line: DistLineV)
    ensures
        line_json(w, m, net, line).1 matches JsonV::Obj(o) && says_line(m, o, line),
{
    broadcast use lemma_get_put;

    lemma_identity_keys();
    lemma_line_keys();
    lemma_pointer_classes();
    lemma_pointer_reads_back("PerLengthPhaseImpedance"@, line.linecode);
    lemma_identified_again("ACLineSegment"@, line.name, extras_mrid_of(line.extras));
    reveal(str_at);
    reveal(target_at);
    reveal(num_at);
    reveal(list_at);
    reveal(terminals_of);
    reveal(WriterV::put_base);
    reveal(WriterV::num);
    lemma_identified(
        "ACLineSegment"@,
        line.name,
        extras_mrid_of(line.extras),
        "Conductor.length"@,
    );
    let base = identified_of(
        "ACLineSegment"@,
        line.name,
        extras_mrid_of(line.extras),
    );
    let o0 = put_of(base, "Equipment.inService"@, JsonV::Bool(true));
    let o1 = w.put_base(m, o0, line.bus_from);
    let (w1, o2) = w.put_num(m, o1, "Conductor.length"@, line.length, "line "@ + line.name);
    let w2 = if line.terminal_map_to != line.terminal_map_from {
        w1.warn(
            "line "@ + line.name
                + ": the two terminal maps differ; MG-RAVENS carries one phase list per segment, so the from side wins"@,
        )
    } else {
        w1
    };
    let (_w3, limit) = w2.ampacity(
        m,
        extra_num(m, line.extras, "normamps"@),
        line_rating(net, line.linecode),
    );
    let code = hot_code_of(line.terminal_map_from);
    let a = terminal_json(line.name, 1, line.bus_from, code, limit);
    let b = terminal_json(line.name, 2, line.bus_to, code, limit);
    lemma_terminal_reads_back(line.name, 1, line.bus_from, code, limit);
    lemma_terminal_reads_back(line.name, 2, line.bus_to, code, limit);
    let x = TerminalV { node: line.bus_from, phases: letters_of(code), limit_set: limit };
    let y = TerminalV { node: line.bus_to, phases: letters_of(code), limit_set: limit };
    lemma_two_terminals(a, b, x, y);
    let o = line_json(w, m, net, line).1->Obj_0;
    assert(get_of(o, "ConductingEquipment.Terminals"@) == Some(JsonV::Arr(seq![a, b])));
}

pub proof fn lemma_line_table(w: WriterV, m: Sem, net: DistNetworkV, n: nat, i: int)
    requires
        0 <= i < n <= net.lines.len(),
        forall|j: int|
            i < j < net.lines.len() ==> (#[trigger] net.lines[j]).name != net.lines[i].name,
    ensures
        get_of(lines_json(w, m, net, n).1, net.lines[i].name) matches Some(JsonV::Obj(o))
            && says_line(m, o, net.lines[i]),
    decreases n,
{
    broadcast use lemma_get_put;

    let before = lines_json(w, m, net, (n - 1) as nat);
    if i == n - 1 {
        lemma_line_says(before.0, m, net, net.lines[i]);
    } else {
        lemma_line_table(w, m, net, (n - 1) as nat, i);
        assert(net.lines[n - 1].name != net.lines[i].name);
    }
}

pub proof fn lemma_line_tables(m: Sem, net: DistNetworkV, i: int)
    requires
        0 <= i < net.lines.len(),
        forall|j: int|
            i < j < net.lines.len() ==> (#[trigger] net.lines[j]).name != net.lines[i].name,
    ensures
        get_of(written_tables(m, net).lines, net.lines[i].name) matches Some(JsonV::Obj(o))
            && says_line(m, o, net.lines[i]),
{
    reveal(tables_of);
    let w = unrepresented(fresh_writer(bases_of(m, net)), m, net);
    let (w, _codes) = linecodes_json(w, m, net.linecodes, net.linecodes.len());
    lemma_line_table(w, m, net, net.lines.len(), i);
}

proof fn lemma_extra_keys()
    ensures
        "ravens_mrid"@.len() == 11,
        "normamps"@.len() == 8,
        "ravens_normal_open"@.len() == 18,
{
    reveal_strlit("ravens_mrid");
    reveal_strlit("normamps");
    reveal_strlit("ravens_normal_open");
}

broadcast proof fn lemma_line_extras(
    m: Sem,
    doc: Seq<ObjV>,
    st: StateV,
    name: Seq<char>,
    code: Seq<char>,
    set: Option<Seq<char>>,
    n: nat,
    extras: Entries,
)
    ensures
        get_of(
            (#[trigger] line_limits_of(m, doc, st, name, code, set, n, extras)).1,
            "ravens_mrid"@,
        ) == get_of(extras, "ravens_mrid"@),
{
    broadcast use lemma_get_put;

    lemma_extra_keys();
    reveal(line_limits_of);
}

/// A line that comes back of a line.
pub open spec fn comes_of_line(m: Sem, back: DistLineV, line: DistLineV) -> bool {
    &&& back.name == line.name
    &&& back.bus_from == line.bus_from
    &&& back.bus_to == line.bus_to
    &&& back.terminal_map_from == hot_wires(line.terminal_map_from)
    &&& back.terminal_map_to == hot_wires(line.terminal_map_from)
    &&& back.linecode == line.linecode
    &&& told(m, line.length) ==> back.length == line.length
    &&& comes_of_id(back.extras, "ACLineSegment"@, line.name, line.extras)
}

#[verifier::rlimit(40)]
pub proof fn lemma_line_step(m: Sem, doc: Seq<ObjV>, st: StateV, o: ObjV, line: DistLineV)
    requires
        o.name == line.name,
        says_line(m, o.props, line),
        0 < hot_wires(line.terminal_map_from).len() < u64::MAX,
    ensures
        ({
            let lines = line_step(m, doc, st, o).net.lines;
            lines.len() > 0 && comes_of_line(m, lines[lines.len() - 1], line)
        }),
{
    broadcast use lemma_line_extras;

    lemma_extras_hold_id(
        o.props,
        written_id("ACLineSegment"@, line.name, extras_mrid_of(line.extras)),
    );
    let map = line.terminal_map_from;
    lemma_hot_letters(map, map.len());
    let from = terminals_of(o.props)[0].1;
    lemma_line_letters(o.props, from, line.name, map);
    lemma_hot_wires_read_back(map);
}

pub proof fn lemma_line_pushed(
    m: Sem,
    doc: Seq<ObjV>,
    st: StateV,
    ids: Seq<usize>,
    j: int,
    line: DistLineV,
) -> (k: int)
    requires
        0 <= j < ids.len(),
        doc[ids[j] as int].name == line.name,
        says_line(m, doc[ids[j] as int].props, line),
        0 < hot_wires(line.terminal_map_from).len() < u64::MAX,
    ensures
        0 <= k < lines_n(m, doc, st, ids, ids.len()).net.lines.len(),
        comes_of_line(m, lines_n(m, doc, st, ids, ids.len()).net.lines[k], line),
{
    let before = lines_n(m, doc, st, ids, j as nat);
    let after = lines_n(m, doc, st, ids, (j + 1) as nat).net.lines;
    lemma_line_step(m, doc, before, doc[ids[j] as int], line);
    lemma_lines_n_grows(m, doc, st, ids, (j + 1) as nat, ids.len());
    let k = after.len() - 1;
    assert(lines_n(m, doc, st, ids, ids.len()).net.lines[k] == after[k]);
    k
}

/// No line is lost: a network that is read of a written document has, for every
/// line of the network that was written whose name is its own, a line of that
/// name and identifier between the same buses, on the same phases, with the same
/// line code and length.
#[verifier::rlimit(40)]
pub proof fn lemma_lines_survive(m: Sem, net: DistNetworkV, i: int)
    requires
        0 <= i < net.lines.len(),
        clear(net.untyped, line_path(), net.lines[i].name),
        forall|j: int|
            i < j < net.lines.len() ==> (#[trigger] net.lines[j]).name != net.lines[i].name,
        0 < hot_wires(net.lines[i].terminal_map_from).len() < u64::MAX,
        collect_of(ravens_document(m, net).1).len() <= usize::MAX,
    ensures
        ravens_value(m, JsonV::Obj(ravens_document(m, net).1)) matches Ok(back) ==> exists|k: int|
            0 <= k < back.lines.len() && comes_of_line(m, #[trigger] back.lines[k], net.lines[i]),
{
    let root = ravens_document(m, net).1;
    let doc = collect_of(root);
    let line = net.lines[i];
    lemma_line_tables(m, net, i);
    let o = get_of(written_tables(m, net).lines, line.name)->0->Obj_0;
    lemma_line_found(m, net, line.name, JsonV::Obj(o));
    let at = lemma_typed_object_is_collected(root, line_path(), line.name, o, "ACLineSegment"@);
    let j = lemma_kind_holds(doc, Seq::empty(), "ACLineSegment"@, doc.len(), at);
    let ids = sorted_kind(doc, "ACLineSegment"@);
    let g = stages(m, doc);
    let k = lemma_line_pushed(m, doc, g.coded, ids, j, line);
    lemma_nothing_is_taken_back(m, doc);
    assert(g.lined.net.lines == lines_n(m, doc, g.coded, ids, ids.len()).net.lines);
    assert(run_of(m, doc).net.lines[k] == g.lined.net.lines[k]);
    if let Ok(back) = ravens_value(m, JsonV::Obj(root)) {
        assert(comes_of_line(m, back.lines[k], line));
    }
}

// ---- switches --------------------------------------------------------------

pub proof fn lemma_code_letters(map: Seq<Seq<char>>, n: nat)
    requires
        n <= map.len(),
    ensures
        letters_n(map, true, n).len() == hot_letters_n(map, n).len(),
        forall|i: int|
            0 <= i < letters_n(map, true, n).len() ==> {
                let c = #[trigger] letters_n(map, true, n)[i];
                &&& seq![c] == hot_letters_n(map, n)[i]
                &&& c == 'A' || c == 'B' || c == 'C'
            },
    decreases n,
{
    lemma_letters();
    assert("A"@[0] == 'A' && "B"@[0] == 'B' && "C"@[0] == 'C' && "N"@[0] == 'N');
    if n > 0 {
        lemma_code_letters(map, (n - 1) as nat);
        let before = letters_n(map, true, (n - 1) as nat);
        let code = letters_n(map, true, n);
        let letters = hot_letters_n(map, n);
        assert forall|i: int| 0 <= i < code.len() implies {
            let c = #[trigger] code[i];
            &&& seq![c] == letters[i]
            &&& c == 'A' || c == 'B' || c == 'C'
        } by {
            if i < before.len() {
                assert(code[i] == before[i]);
                assert(letters[i] == hot_letters_n(map, (n - 1) as nat)[i]);
            } else {
                assert(seq![code[i]] =~= letters[i]);
            }
        }
    }
}

pub proof fn lemma_letters_from(code: Seq<char>, letters: Seq<Seq<char>>, i: int)
    requires
        0 <= i <= code.len() == letters.len(),
        forall|k: int|
            0 <= k < code.len() ==> seq![#[trigger] code[k]] == letters[k] && (code[k] == 'A'
                || code[k] == 'B' || code[k] == 'C'),
    ensures
        letters_from(code, i, letters.take(i)) == letters,
    decreases code.len() - i,
{
    if i < code.len() {
        assert(seq![code[i]] == letters[i]);
        assert(letters.take(i + 1) =~= letters.take(i).push(letters[i]));
        lemma_letters_from(code, letters, i + 1);
    } else {
        assert(letters.take(i) =~= letters);
    }
}

pub proof fn lemma_undotted(s: Seq<char>, k: int, j: int)
    requires
        0 < k <= j <= s.len(),
        s[k - 1] == '.',
        forall|i: int| k <= i < s.len() ==> s[i] != '.',
    ensures
        after_last_from(s, '.', j) == s.subrange(k, s.len() as int),
    decreases j,
{
    if j > k {
        lemma_undotted(s, k, j - 1);
    }
}

/// A phase code reads back as the letters it was written for.
pub proof fn lemma_hot_code_reads_back(map: Seq<Seq<char>>)
    ensures
        letters_of(hot_code_of(map)) == hot_letters_of(map),
{
    let code = letters_n(map, true, map.len());
    let letters = hot_letters_of(map);
    lemma_code_letters(map, map.len());
    reveal_strlit("PhaseCode.");
    let text = "PhaseCode."@ + code;
    let k = "PhaseCode."@.len() as int;
    assert forall|i: int| k <= i < text.len() implies text[i] != '.' by {
        assert(text[i] == code[i - k]);
    }
    lemma_undotted(text, k, text.len() as int);
    assert(text.subrange(k, text.len() as int) =~= code);
    reveal(letters_of);
    lemma_letters_from(code, letters, 0);
    assert(letters.take(0) =~= Seq::empty());
}

pub proof fn lemma_switch_keys()
    ensures
        "Switch.open"@.len() == 11,
        "Switch.normalOpen"@.len() == 17,
        "Switch.SwitchPhase"@.len() == 18,
        "Switch"@.len() == 6,
{
    reveal_strlit("Switch.open");
    reveal_strlit("Switch.normalOpen");
    reveal_strlit("Switch.SwitchPhase");
    reveal_strlit("Switch");
}

/// The normal state of a switch.
pub open spec fn normally_open(s: DistSwitchV) -> bool {
    match bool_at(s.extras, "ravens_normal_open"@) {
        Some(b) => b,
        None => s.open,
    }
}

/// What a switch object says.
pub open spec fn says_switch(o: Entries, s: DistSwitchV) -> bool {
    &&& str_at(o, "Ravens.cimObjectType"@) == Some("Switch"@)
    &&& says_id(o, "Switch"@, s.name, s.extras)
    &&& bool_at(o, "Switch.open"@) == Some(s.open)
    &&& bool_at(o, "Switch.normalOpen"@) == Some(normally_open(s))
    &&& terminals_of(o).len() == 2
    &&& terminals_of(o)[0].1.node == s.bus_from
    &&& terminals_of(o)[1].1.node == s.bus_to
    &&& s.terminal_map_from == s.terminal_map_to ==> {
        &&& get_of(o, "Switch.SwitchPhase"@) is None
        &&& terminals_of(o)[0].1.phases == hot_letters_of(s.terminal_map_from)
        &&& terminals_of(o)[1].1.phases == hot_letters_of(s.terminal_map_from)
    }
}

#[verifier::rlimit(40)]
pub proof fn lemma_switch_says(w: WriterV, m: Sem, s: DistSwitchV)
    ensures
        switch_json(w, m, s).1 matches JsonV::Obj(o) && says_switch(o, s),
{
    broadcast use lemma_get_put;

    lemma_identity_keys();
    lemma_line_keys();
    lemma_switch_keys();
    lemma_identified_again("Switch"@, s.name, extras_mrid_of(s.extras));
    reveal(str_at);
    reveal(bool_at);
    reveal(list_at);
    reveal(terminals_of);
    lemma_identified(
        "Switch"@,
        s.name,
        extras_mrid_of(s.extras),
        "Switch.SwitchPhase"@,
    );
    let (_w, limit) = w.ampacity(
        m,
        extra_num(m, s.extras, "normamps"@),
        first_rating(s.i_max),
    );
    let from = hot_code_of(s.terminal_map_from);
    let to = hot_code_of(s.terminal_map_to);
    let a = terminal_json(s.name, 1, s.bus_from, from, limit);
    let b = terminal_json(s.name, 2, s.bus_to, to, limit);
    lemma_terminal_reads_back(s.name, 1, s.bus_from, from, limit);
    lemma_terminal_reads_back(s.name, 2, s.bus_to, to, limit);
    let x = TerminalV { node: s.bus_from, phases: letters_of(from), limit_set: limit };
    let y = TerminalV { node: s.bus_to, phases: letters_of(to), limit_set: limit };
    lemma_two_terminals(a, b, x, y);
    lemma_hot_code_reads_back(s.terminal_map_from);
    let o = switch_json(w, m, s).1->Obj_0;
    assert(get_of(o, "ConductingEquipment.Terminals"@) == Some(JsonV::Arr(seq![a, b])));
}

pub proof fn lemma_switch_table(w: WriterV, m: Sem, s: Seq<DistSwitchV>, n: nat, i: int)
    requires
        0 <= i < n <= s.len(),
        forall|j: int| i < j < s.len() ==> (#[trigger] s[j]).name != s[i].name,
    ensures
        get_of(switches_json(w, m, s, n).1, s[i].name) matches Some(JsonV::Obj(o)) && says_switch(
            o,
            s[i],
        ),
    decreases n,
{
    broadcast use lemma_get_put;

    let before = switches_json(w, m, s, (n - 1) as nat);
    if i == n - 1 {
        lemma_switch_says(before.0, m, s[i]);
    } else {
        lemma_switch_table(w, m, s, (n - 1) as nat, i);
        assert(s[n - 1].name != s[i].name);
    }
}

pub proof fn lemma_switch_tables(m: Sem, net: DistNetworkV, i: int)
    requires
        0 <= i < net.switches.len(),
        forall|j: int|
            i < j < net.switches.len() ==> (#[trigger] net.switches[j]).name
                != net.switches[i].name,
    ensures
        get_of(written_tables(m, net).switches, net.switches[i].name) matches Some(JsonV::Obj(o))
            && says_switch(o, net.switches[i]),
{
    reveal(tables_of);
    let w = unrepresented(fresh_writer(bases_of(m, net)), m, net);
    let (w, _codes) = linecodes_json(w, m, net.linecodes, net.linecodes.len());
    let (w, _lines) = lines_json(w, m, net, net.lines.len());
    lemma_switch_table(w, m, net.switches, net.switches.len(), i);
}

/// A switch that comes back of a switch.
pub open spec fn comes_of_switch(back: DistSwitchV, s: DistSwitchV) -> bool {
    &&& back.name == s.name
    &&& back.bus_from == s.bus_from
    &&& back.bus_to == s.bus_to
    &&& back.open == s.open
    &&& normally_open(back) == normally_open(s)
    &&& comes_of_id(back.extras, "Switch"@, s.name, s.extras)
    &&& s.terminal_map_from == s.terminal_map_to && hot_wires(s.terminal_map_from).len() > 0 ==> {
        &&& back.terminal_map_from == hot_wires(s.terminal_map_from)
        &&& back.terminal_map_to == hot_wires(s.terminal_map_from)
    }
}

#[verifier::rlimit(40)]
pub proof fn lemma_switch_step(m: Sem, doc: Seq<ObjV>, st: StateV, o: ObjV, s: DistSwitchV)
    requires
        o.name == s.name,
        says_switch(o.props, s),
    ensures
        ({
            let switches = switch_step(m, doc, st, o).net.switches;
            switches.len() > 0 && comes_of_switch(switches[switches.len() - 1], s)
        }),
{
    broadcast use lemma_get_put;

    lemma_extra_keys();
    lemma_extras_hold_id(o.props, written_id("Switch"@, s.name, extras_mrid_of(s.extras)));
    reveal(switch_limits_of);
    reveal(bool_at);
    assert(get_of(mrid_extras(o.props), "ravens_normal_open"@) is None) by {
        reveal(mrid_extras);
        reveal(get_of);
    }
    reveal(switch_maps_of);
    reveal(list_at);
    lemma_hot_wires_read_back(s.terminal_map_from);
    assert(sides_n(seq![], 0).0.len() == 0);
}

pub proof fn lemma_switch_pushed(
    m: Sem,
    doc: Seq<ObjV>,
    st: StateV,
    ids: Seq<usize>,
    j: int,
    s: DistSwitchV,
) -> (k: int)
    requires
        0 <= j < ids.len(),
        doc[ids[j] as int].name == s.name,
        says_switch(doc[ids[j] as int].props, s),
    ensures
        0 <= k < switches_n(m, doc, st, ids, ids.len()).net.switches.len(),
        comes_of_switch(switches_n(m, doc, st, ids, ids.len()).net.switches[k], s),
{
    let before = switches_n(m, doc, st, ids, j as nat);
    let after = switches_n(m, doc, st, ids, (j + 1) as nat).net.switches;
    lemma_switch_step(m, doc, before, doc[ids[j] as int], s);
    lemma_switches_n_grows(m, doc, st, ids, (j + 1) as nat, ids.len());
    let k = after.len() - 1;
    assert(switches_n(m, doc, st, ids, ids.len()).net.switches[k] == after[k]);
    k
}

/// Indices that are in a list stay in it while those of a kind are put in.
pub proof fn lemma_kind_keeps(
    doc: Seq<ObjV>,
    s: Seq<usize>,
    kind: Seq<char>,
    n: nat,
    j: int,
) -> (k: int)
    requires
        n <= doc.len(),
        0 <= j < s.len(),
    ensures
        0 <= k < of_kind_n(doc, s, kind, n).len(),
        of_kind_n(doc, s, kind, n)[k] == s[j],
    decreases n,
{
    if n == 0 {
        j
    } else {
        let k = lemma_kind_keeps(doc, s, kind, (n - 1) as nat, j);
        let before = of_kind_n(doc, s, kind, (n - 1) as nat);
        let after = of_kind_n(doc, s, kind, n);
        if doc[n - 1].kind == kind {
            let at = natural_slot(doc, before, doc[n - 1].name, 0);
            lemma_slot_inside(doc, before, doc[n - 1].name, 0);
            if k < at {
                assert(after[k] == before[k]);
                k
            } else {
                assert(after[k + 1] == before[k]);
                k + 1
            }
        } else {
            k
        }
    }
}

/// No switch is lost: a network that is read of a written document has, for
/// every switch of the network that was written whose name is its own, a switch
/// of that name and identifier between the same buses, open or closed as it was,
/// on the same phases where both of its sides are on the same.
#[verifier::rlimit(40)]
pub proof fn lemma_switches_survive(m: Sem, net: DistNetworkV, i: int)
    requires
        0 <= i < net.switches.len(),
        clear(net.untyped, switch_path(), net.switches[i].name),
        forall|j: int|
            i < j < net.switches.len() ==> (#[trigger] net.switches[j]).name
                != net.switches[i].name,
        collect_of(ravens_document(m, net).1).len() <= usize::MAX,
    ensures
        ravens_value(m, JsonV::Obj(ravens_document(m, net).1)) matches Ok(back) ==> exists|k: int|
            0 <= k < back.switches.len() && comes_of_switch(
                #[trigger] back.switches[k],
                net.switches[i],
            ),
{
    let root = ravens_document(m, net).1;
    let doc = collect_of(root);
    let s = net.switches[i];
    lemma_switch_tables(m, net, i);
    let o = get_of(written_tables(m, net).switches, s.name)->0->Obj_0;
    lemma_switch_found(m, net, s.name, JsonV::Obj(o));
    let at = lemma_typed_object_is_collected(root, switch_path(), s.name, o, "Switch"@);
    let j0 = lemma_kind_holds(doc, Seq::empty(), "Switch"@, doc.len(), at);
    let s0 = of_kind_n(doc, Seq::empty(), "Switch"@, doc.len());
    let j1 = lemma_kind_keeps(doc, s0, "LoadBreakSwitch"@, doc.len(), j0);
    let s1 = of_kind_n(doc, s0, "LoadBreakSwitch"@, doc.len());
    let j2 = lemma_kind_keeps(doc, s1, "Breaker"@, doc.len(), j1);
    let s2 = of_kind_n(doc, s1, "Breaker"@, doc.len());
    let j = lemma_kind_keeps(doc, s2, "Recloser"@, doc.len(), j2);
    let ids = switch_ids(doc);
    let g = stages(m, doc);
    let k = lemma_switch_pushed(m, doc, g.lined, ids, j, s);
    lemma_nothing_is_taken_back(m, doc);
    assert(g.switched.net.switches == switches_n(m, doc, g.lined, ids, ids.len()).net.switches);
    assert(run_of(m, doc).net.switches[k] == g.switched.net.switches[k]);
    if let Ok(back) = ravens_value(m, JsonV::Obj(root)) {
        assert(comes_of_switch(back.switches[k], s));
    }
}

} // verus!
