//! What the reader makes of the loads that the writer wrote.

use vstd::prelude::*;

use crate::json::{Entries, JsonV};
use crate::math::{Bits, Sem};
use crate::model::{Configuration, DistLoadV, DistNetworkV};
use crate::order::{get_of, put_of};
use crate::ravens::bases::bases_of;
use crate::ravens::doc::{
    bool_at, collect_of, list_at, num_at, sorted_kind, str_at, suffix_at, terminal_of,
    terminal_slot, terminals_n, terminals_of, ObjV, TerminalV,
};
use crate::ravens::emit::{
    extras_mrid_of, hot_code_of, hot_letters_of, identified_of, pointer_json, sum_of, terminal_json,
    WriterV,
};
use crate::ravens::found::{lemma_kind_holds, lemma_typed_object_is_collected};
use crate::ravens::keeps::{lemma_loads_n_grows, lemma_nothing_is_taken_back, stages};
use crate::ravens::laws::{clear, found_at, lemma_typed_place_stays};
use crate::ravens::lines::mrid_extras;
use crate::ravens::loads::{
    is_delta, listed_phases, load_configuration, load_extras_of, load_map_of, load_phases_of,
    load_step, loads_n, note_text, phase_of, phase_ps, phase_qs, phase_terminals, phases_n,
    with_profiles, PhaseV,
};
use crate::ravens::name::{lemma_terminal_phase_inverse, letters_of, terminal_phase_of};
use crate::ravens::read::{ravens_value, run_of};
use crate::ravens::state::StateV;
use crate::ravens::survive::{
    comes_of_id, hot_wires, lemma_extras_hold_id, lemma_get_put, lemma_hot_code_reads_back,
    lemma_hot_letters, lemma_hot_wires_read_back, lemma_identified, lemma_identified_again,
    lemma_identity_keys, lemma_letters, lemma_levels, lemma_some_entries, lemma_terminal_reads_back,
    lemma_undotted, says_id, told, written_id, written_tables,
};
use crate::ravens::write::{
    equipment_of, fresh_writer, put_table, ravens_document, tables_of, unrepresented, TablesV,
};
use crate::ravens::write_lines::{linecodes_json, lines_json, switches_json};
use crate::ravens::write_loads::{
    load_head, load_json, load_phase_json, load_phases_json, loads_json, spans_pair,
};

verus! {

// ---- phases ----------------------------------------------------------------

/// The phases that a load lists: a delta of one power between two phases lists
/// the first alone.
pub open spec fn listed_count(load: DistLoadV) -> nat {
    if spans_pair(load) {
        1
    } else {
        hot_wires(load.terminal_map).len()
    }
}

/// A load has a power for each phase it lists, and they can be told.
pub open spec fn load_told(m: Sem, load: DistLoadV) -> bool {
    let n = listed_count(load);
    &&& n > 0
    &&& load.p_nom.len() == n
    &&& load.q_nom.len() == n
    &&& load.configuration == Configuration::Delta ==> hot_wires(load.terminal_map).len() > 1
    &&& forall|i: int| 0 <= i < n ==> told(m, #[trigger] load.p_nom[i])
    &&& forall|i: int| 0 <= i < n ==> told(m, #[trigger] load.q_nom[i])
}

proof fn lemma_load_phase_reads(
    w: WriterV,
    m: Sem,
    load: DistLoadV,
    wire: Seq<char>,
    letter: Seq<char>,
    k: nat,
)
    requires
        terminal_phase_of(wire) == Some(letter),
        k < load.p_nom.len() == load.q_nom.len(),
        told(m, load.p_nom[k as int]),
        told(m, load.q_nom[k as int]),
    ensures
        phase_of(m, load_phase_json(w, m, load, letter, k).1) == Some(
            PhaseV { terminal: wire, p: load.p_nom[k as int], q: load.q_nom[k as int] },
        ),
{
    broadcast use lemma_get_put;

    reveal(load_phase_json);
    reveal(phase_of);
    reveal(suffix_at);
    reveal(str_at);
    reveal(num_at);
    reveal(WriterV::num);
    reveal_strlit("EnergyConsumerPhase.phase");
    reveal_strlit("EnergyConsumerPhase.p");
    reveal_strlit("EnergyConsumerPhase.q");
    reveal_strlit("SinglePhaseKind.");
    assert("EnergyConsumerPhase.phase"@.len() == 25);
    assert("EnergyConsumerPhase.p"@.len() == 21 && "EnergyConsumerPhase.p"@[20] == 'p');
    assert("EnergyConsumerPhase.q"@.len() == 21 && "EnergyConsumerPhase.q"@[20] == 'q');
    lemma_letters();
    lemma_terminal_phase_inverse(wire);
    let text = "SinglePhaseKind."@ + letter;
    let at = "SinglePhaseKind."@.len() as int;
    assert(text[at - 1] == '.');
    assert(text[at] != '.');
    assert(text.len() == at + 1);
    lemma_undotted(text, at, text.len() as int);
    assert(text.subrange(at, text.len() as int) =~= letter);
}

proof fn lemma_load_phases_read(w: WriterV, m: Sem, load: DistLoadV, n: nat)
    requires
        load_told(m, load),
        n <= listed_count(load),
    ensures
        ({
            let letters = hot_letters_of(load.terminal_map);
            let items = load_phases_json(w, m, load, letters, n).1;
            &&& items.len() == n
            &&& forall|i: int|
                0 <= i < n ==> phase_of(m, #[trigger] items[i]) == Some(
                    PhaseV {
                        terminal: hot_wires(load.terminal_map)[i],
                        p: load.p_nom[i],
                        q: load.q_nom[i],
                    },
                )
        }),
    decreases n,
{
    if n > 0 {
        let letters = hot_letters_of(load.terminal_map);
        let k = (n - 1) as nat;
        lemma_load_phases_read(w, m, load, k);
        let before = load_phases_json(w, m, load, letters, k);
        let map = load.terminal_map;
        lemma_hot_letters(map, map.len());
        assert(hot_wires(map).len() == letters.len());
        let wire = hot_wires(map)[n - 1];
        assert(terminal_phase_of(wire) == Some(letters[n - 1]));
        assert(told(m, load.p_nom[n - 1]) && told(m, load.q_nom[n - 1]));
        lemma_load_phase_reads(before.0, m, load, wire, letters[n - 1], k);
        let items = load_phases_json(w, m, load, letters, n).1;
        assert(items == before.1.push(load_phase_json(before.0, m, load, letters[n - 1], k).1));
    }
}

/// The phases a load is listed with.
pub open spec fn load_phases(load: DistLoadV) -> Seq<PhaseV> {
    Seq::new(
        listed_count(load),
        |i: int|
            PhaseV {
                terminal: hot_wires(load.terminal_map)[i],
                p: load.p_nom[i],
                q: load.q_nom[i],
            },
    )
}

proof fn lemma_listed(m: Sem, items: Seq<JsonV>, phases: Seq<PhaseV>, n: nat)
    requires
        n <= items.len() == phases.len(),
        forall|i: int|
            0 <= i < items.len() ==> phase_of(m, #[trigger] items[i]) == Some(phases[i]),
    ensures
        phases_n(m, items, n) == phases.take(n as int),
    decreases n,
{
    if n == 0 {
        assert(phases.take(0) =~= seq![]);
    } else {
        lemma_listed(m, items, phases, (n - 1) as nat);
        assert(phase_of(m, items[n - 1]) == Some(phases[n - 1]));
        assert(phases.take(n as int) =~= phases.take(n - 1).push(phases[n - 1]));
    }
}

// ---- objects ---------------------------------------------------------------

pub proof fn lemma_load_keys()
    ensures
        "EnergyConsumer.p"@.len() == 16 && "EnergyConsumer.p"@[15] == 'p',
        "EnergyConsumer.q"@.len() == 16 && "EnergyConsumer.q"@[15] == 'q',
        "EnergyConsumer.grounded"@.len() == 23,
        "Equipment.inService"@.len() == 19,
        "ConductingEquipment.BaseVoltage"@.len() == 31,
        "EnergyConsumer.phaseConnection"@.len() == 30,
        "EnergyConsumer.LoadResponse"@.len() == 27,
        "EnergyConsumer.LoadProfile"@.len() == 26,
        "EnergyConsumer.EnergyConsumerPhase"@.len() == 34,
        "ConductingEquipment.Terminals"@.len() == 29,
{
    reveal_strlit("EnergyConsumer.p");
    reveal_strlit("EnergyConsumer.q");
    reveal_strlit("EnergyConsumer.grounded");
    reveal_strlit("Equipment.inService");
    reveal_strlit("ConductingEquipment.BaseVoltage");
    reveal_strlit("EnergyConsumer.phaseConnection");
    reveal_strlit("EnergyConsumer.LoadResponse");
    reveal_strlit("EnergyConsumer.LoadProfile");
    reveal_strlit("EnergyConsumer.EnergyConsumerPhase");
    reveal_strlit("ConductingEquipment.Terminals");
}

/// What the head of a load object says.
pub open spec fn says_head(o: Entries, load: DistLoadV) -> bool {
    let delta = load.configuration == Configuration::Delta;
    &&& str_at(o, "Ravens.cimObjectType"@) == Some("EnergyConsumer"@)
    &&& says_id(o, "EnergyConsumer"@, load.name, load.extras)
    &&& is_delta(o) == delta
    &&& bool_at(o, "EnergyConsumer.grounded"@) == Some(
        !delta && load.terminal_map.contains("4"@),
    )
}

proof fn lemma_profile_keeps(
    w: WriterV,
    m: Sem,
    o: Entries,
    load: DistLoadV,
    net: DistNetworkV,
    q: Seq<char>,
)
    requires
        q.len() != 26,
    ensures
        get_of(w.attach_profile(m, o, load, net).1, q) == get_of(o, q),
{
    broadcast use lemma_get_put;

    lemma_load_keys();
    reveal(WriterV::attach_profile);
}

#[verifier::rlimit(40)]
proof fn lemma_head_says(w: WriterV, m: Sem, net: DistNetworkV, load: DistLoadV)
    ensures
        says_head(load_head(w, m, net, load).1, load),
{
    broadcast use lemma_get_put;

    lemma_identity_keys();
    lemma_load_keys();
    reveal(load_head);
    lemma_identified_again("EnergyConsumer"@, load.name, extras_mrid_of(load.extras));
    reveal(str_at);
    reveal(suffix_at);
    reveal(bool_at);
    reveal(WriterV::put_base);
    let what = "load "@ + load.name;
    let delta = load.configuration == Configuration::Delta;
    let grounded = !delta && load.terminal_map.contains("4"@);
    let o = identified_of("EnergyConsumer"@, load.name, extras_mrid_of(load.extras));
    lemma_identified(
        "EnergyConsumer"@,
        load.name,
        extras_mrid_of(load.extras),
        "EnergyConsumer.grounded"@,
    );
    let (w1, p) = w.num(m, sum_of(m, load.p_nom), what);
    let (w2, q) = w1.num(m, sum_of(m, load.q_nom), what);
    let o = put_of(o, "EnergyConsumer.p"@, p);
    let o = put_of(o, "EnergyConsumer.q"@, q);
    let o = put_of(o, "EnergyConsumer.grounded"@, JsonV::Bool(grounded));
    let w3 = if grounded {
        w2.ground(load.bus)
    } else {
        w2
    };
    let o = put_of(o, "Equipment.inService"@, JsonV::Bool(true));
    let o = w3.put_base(m, o, load.bus);
    let kind = "PhaseShuntConnectionKind."@ + if delta {
        "D"@
    } else {
        "Y"@
    };
    let o = put_of(o, "EnergyConsumer.phaseConnection"@, JsonV::Str(kind));
    let (w4, response) = w3.load_response(m, load);
    let o = put_of(
        o,
        "EnergyConsumer.LoadResponse"@,
        pointer_json("LoadResponseCharacteristic"@, response),
    );
    lemma_profile_keeps(w4, m, o, load, net, "Ravens.cimObjectType"@);
    lemma_profile_keeps(w4, m, o, load, net, "IdentifiedObject.mRID"@);
    lemma_profile_keeps(w4, m, o, load, net, "EnergyConsumer.phaseConnection"@);
    lemma_profile_keeps(w4, m, o, load, net, "EnergyConsumer.grounded"@);
    reveal_strlit("PhaseShuntConnectionKind.");
    reveal_strlit("D");
    reveal_strlit("Y");
    let at = "PhaseShuntConnectionKind."@.len() as int;
    assert(kind[at - 1] == '.');
    assert(kind.len() == at + 1);
    assert(kind[at] != '.');
    lemma_undotted(kind, at, kind.len() as int);
    assert(kind.subrange(at, kind.len() as int) =~= if delta {
        "D"@
    } else {
        "Y"@
    });
    assert("D"@[0] == 'D' && "Y"@[0] == 'Y');
}

/// What a load object says.
pub open spec fn says_load(m: Sem, o: Entries, load: DistLoadV) -> bool {
    &&& says_head(o, load)
    &&& listed_phases(m, o) == load_phases(load)
    &&& terminals_of(o).len() == 1
    &&& terminals_of(o)[0].1.node == load.bus
    &&& terminals_of(o)[0].1.phases == hot_letters_of(load.terminal_map)
}

pub proof fn lemma_one_terminal(a: JsonV, x: TerminalV)
    requires
        terminal_of(a) == Some((1u64, x)),
    ensures
        terminals_n(seq![a], 1) == seq![(1u64, x)],
{
    let items = seq![a];
    let none = terminals_n(items, 0);
    assert(none.len() == 0);
    assert(terminal_slot(none, 1, 0) == 0);
    assert(terminals_n(items, 1) =~= seq![(1u64, x)]);
}

#[verifier::rlimit(40)]
pub proof fn lemma_load_says(w: WriterV, m: Sem, net: DistNetworkV, load: DistLoadV)
    requires
        load_told(m, load),
    ensures
        load_json(w, m, net, load).1 matches JsonV::Obj(o) && says_load(m, o, load),
{
    broadcast use lemma_get_put;

    lemma_identity_keys();
    lemma_load_keys();
    reveal(load_json);
    reveal(str_at);
    reveal(suffix_at);
    reveal(bool_at);
    reveal(list_at);
    reveal(terminals_of);
    reveal(listed_phases);
    lemma_head_says(w, m, net, load);
    let map = load.terminal_map;
    lemma_hot_letters(map, map.len());
    let letters = hot_letters_of(map);
    let (w1, head) = load_head(w, m, net, load);
    let (w2, phases) = load_phases_json(w1, m, load, letters, letters.len());
    assert(hot_wires(map).len() == letters.len());
    let k = listed_count(load);
    lemma_load_phases_read(w1, m, load, k);
    let listed = load_phases_json(w1, m, load, letters, k).1;
    if spans_pair(load) {
        assert(letters.len() == 2);
        assert(load_phases_json(w1, m, load, letters, 1).1.len() == 1);
        assert(phases.take(1) =~= listed);
    }
    lemma_hot_code_reads_back(map);
    let o1 = put_of(head, "EnergyConsumer.EnergyConsumerPhase"@, JsonV::Arr(listed));
    let (w3, limit) = w2.bus_voltage_limit(m, net, load.bus);
    let code = hot_code_of(map);
    let a = terminal_json(load.name, 1, load.bus, code, limit);
    lemma_terminal_reads_back(load.name, 1, load.bus, code, limit);
    lemma_one_terminal(
        a,
        TerminalV { node: load.bus, phases: letters_of(code), limit_set: limit },
    );
    let o = load_json(w, m, net, load).1->Obj_0;
    assert(o == put_of(o1, "ConductingEquipment.Terminals"@, JsonV::Arr(seq![a])));
    lemma_listed(m, listed, load_phases(load), listed.len());
    assert(load_phases(load).take(listed.len() as int) =~= load_phases(load));
}

proof fn lemma_load_table(w: WriterV, m: Sem, net: DistNetworkV, n: nat, i: int)
    requires
        0 <= i < n <= net.loads.len(),
        load_told(m, net.loads[i]),
        forall|j: int|
            i < j < net.loads.len() ==> (#[trigger] net.loads[j]).name != net.loads[i].name,
    ensures
        get_of(loads_json(w, m, net, n).1, net.loads[i].name) matches Some(JsonV::Obj(o))
            && says_load(m, o, net.loads[i]),
    decreases n,
{
    broadcast use lemma_get_put;

    let before = loads_json(w, m, net, (n - 1) as nat);
    if i == n - 1 {
        lemma_load_says(before.0, m, net, net.loads[i]);
    } else {
        lemma_load_table(w, m, net, (n - 1) as nat, i);
        assert(net.loads[n - 1].name != net.loads[i].name);
    }
}

pub proof fn lemma_load_tables(m: Sem, net: DistNetworkV, i: int)
    requires
        0 <= i < net.loads.len(),
        load_told(m, net.loads[i]),
        forall|j: int|
            i < j < net.loads.len() ==> (#[trigger] net.loads[j]).name != net.loads[i].name,
    ensures
        get_of(written_tables(m, net).loads, net.loads[i].name) matches Some(JsonV::Obj(o))
            && says_load(m, o, net.loads[i]),
{
    reveal(tables_of);
    let w = unrepresented(fresh_writer(bases_of(m, net)), m, net);
    let (w, _codes) = linecodes_json(w, m, net.linecodes, net.linecodes.len());
    let (w, _lines) = lines_json(w, m, net, net.lines.len());
    let (w, _switches) = switches_json(w, m, net.switches, net.switches.len());
    lemma_load_table(w, m, net, net.loads.len(), i);
}

// ---- places ----------------------------------------------------------------

pub open spec fn load_path() -> Seq<Seq<char>> {
    seq![
        "PowerSystemResource"@,
        "Equipment"@,
        "ConductingEquipment"@,
        "EnergyConnection"@,
        "EnergyConsumer"@,
    ]
}

/// Where the loads stand among the equipment.
#[verifier::rlimit(40)]
proof fn lemma_load_place(t: TablesV)
    requires
        t.loads.len() > 0,
    ensures
        equipment_of(t).len() > 0,
        get_of(equipment_of(t), "EnergyConnection"@) matches Some(JsonV::Obj(e)) && get_of(
            e,
            "EnergyConsumer"@,
        ) == Some(JsonV::Obj(t.loads)),
{
    broadcast use lemma_get_put;

    reveal_strlit("EnergyConsumer");
    reveal_strlit("EnergySource");
    reveal_strlit("RegulatingCondEq");
    assert("EnergyConsumer"@.len() == 14 && "EnergySource"@.len() == 12
        && "RegulatingCondEq"@.len() == 16);
    reveal(equipment_of);
    let regulating = Entries::empty();
    let regulating = put_table(regulating, "ShuntCompensator"@, t.shunts);
    let regulating = put_table(regulating, "RotatingMachine"@, t.machines);
    let regulating = put_table(regulating, "PowerElectronicsConnection"@, t.electronics);
    let energy = put_table(Entries::empty(), "EnergyConsumer"@, t.loads);
    let energy = put_table(energy, "EnergySource"@, t.sources);
    let energy = put_table(energy, "RegulatingCondEq"@, regulating);
    assert(get_of(energy, "EnergyConsumer"@) == Some(JsonV::Obj(t.loads)));
    lemma_some_entries(energy, "EnergyConsumer"@);
    assert(get_of(equipment_of(t), "EnergyConnection"@) == Some(JsonV::Obj(energy)));
    lemma_some_entries(equipment_of(t), "EnergyConnection"@);
}

#[verifier::rlimit(40)]
pub proof fn lemma_load_found(m: Sem, net: DistNetworkV, name: Seq<char>, v: JsonV)
    requires
        clear(net.untyped, load_path(), name),
        get_of(written_tables(m, net).loads, name) == Some(v),
    ensures
        found_at(ravens_document(m, net).1, load_path(), 0, name) == Some(v),
{
    let t = written_tables(m, net);
    lemma_some_entries(t.loads, name);
    lemma_load_place(t);
    lemma_levels(m, net);
    lemma_typed_place_stays(m, net, load_path(), name);
    reveal_with_fuel(found_at, 7);
}

// ---- reading ---------------------------------------------------------------

/// The wires a load comes back on: its phases, and the neutral where it has one
/// and is no delta.
pub open spec fn returned_wires(load: DistLoadV) -> Seq<Seq<char>> {
    let hot = hot_wires(load.terminal_map);
    if load.configuration != Configuration::Delta && load.terminal_map.contains("4"@) {
        hot.push("4"@)
    } else {
        hot
    }
}

/// A load that comes back of a load.
pub open spec fn comes_of_load(back: DistLoadV, load: DistLoadV) -> bool {
    &&& back.name == load.name
    &&& back.bus == load.bus
    &&& back.terminal_map == returned_wires(load)
    &&& back.configuration == load_configuration(
        hot_wires(load.terminal_map).len(),
        load.configuration == Configuration::Delta,
    )
    &&& back.p_nom == load.p_nom
    &&& back.q_nom == load.q_nom
    &&& comes_of_id(back.extras, "EnergyConsumer"@, load.name, load.extras)
}

/// What a load notes of its volts and its profiles leaves its identifier.
proof fn lemma_load_read_extras(m: Sem, doc: Seq<ObjV>, props: Entries)
    ensures
        forall|base: Option<Bits>, phases: nat, delta: bool|
            get_of(
                #[trigger] load_extras_of(m, doc, props, base, phases, delta),
                "ravens_mrid"@,
            ) == get_of(mrid_extras(props), "ravens_mrid"@),
{
    broadcast use lemma_get_put;

    reveal(load_extras_of);
    reveal(with_profiles);
    reveal(note_text);
    reveal_strlit("ravens_mrid");
    reveal_strlit("kv");
    reveal_strlit("phases");
    assert("ravens_mrid"@.len() == 11 && "kv"@.len() == 2 && "phases"@.len() == 6);
    reveal_strlit("daily");
    reveal_strlit("yearly");
    reveal_strlit("spectrum");
    assert("daily"@.len() == 5 && "yearly"@.len() == 6 && "spectrum"@.len() == 8);
}

/// The wires of a load are read back.
pub proof fn lemma_load_wires(st: StateV, o: ObjV, load: DistLoadV)
    requires
        says_head(o.props, load),
        terminals_of(o.props).len() == 1,
        terminals_of(o.props)[0].1.phases == hot_letters_of(load.terminal_map),
        load.configuration == Configuration::Delta ==> hot_wires(load.terminal_map).len() > 1,
    ensures
        ({
            let at = terminals_of(o.props)[0].1;
            let (after, map) = load_map_of(st, o, at.node, at.phases, load_phases(load));
            &&& map == Some(returned_wires(load))
            &&& after == st || after == st.ground_node(at.node)
        }),
{
    let map = load.terminal_map;
    lemma_hot_letters(map, map.len());
    lemma_hot_wires_read_back(map);
    reveal(load_map_of);
    if !spans_pair(load) {
        assert(phase_terminals(load_phases(load)) =~= hot_wires(map));
    }
}

#[verifier::rlimit(40)]
pub proof fn lemma_load_step(m: Sem, doc: Seq<ObjV>, st: StateV, o: ObjV, load: DistLoadV)
    requires
        o.name == load.name,
        load_told(m, load),
        says_load(m, o.props, load),
    ensures
        ({
            let loads = load_step(m, doc, st, o).net.loads;
            loads.len() > 0 && comes_of_load(loads[loads.len() - 1], load)
        }),
{
    broadcast use lemma_get_put;

    lemma_load_read_extras(m, doc, o.props);
    lemma_extras_hold_id(
        o.props,
        written_id("EnergyConsumer"@, load.name, extras_mrid_of(load.extras)),
    );
    let phases = load_phases(load);
    let hot = hot_wires(load.terminal_map);
    let at = terminals_of(o.props)[0].1;
    assert(phases.len() > 0);
    assert(load_phases_of(m, st, o, at.phases) == (st, phases)) by {
        reveal(load_phases_of);
    }
    assert(phase_ps(phases) =~= load.p_nom);
    assert(phase_qs(phases) =~= load.q_nom);
    lemma_load_wires(st, o, load);
}

proof fn lemma_load_pushed(
    m: Sem,
    doc: Seq<ObjV>,
    st: StateV,
    ids: Seq<usize>,
    j: int,
    load: DistLoadV,
) -> (k: int)
    requires
        0 <= j < ids.len(),
        load_told(m, load),
        doc[ids[j] as int].name == load.name,
        says_load(m, doc[ids[j] as int].props, load),
    ensures
        0 <= k < loads_n(m, doc, st, ids, ids.len()).net.loads.len(),
        comes_of_load(loads_n(m, doc, st, ids, ids.len()).net.loads[k], load),
{
    let before = loads_n(m, doc, st, ids, j as nat);
    let after = loads_n(m, doc, st, ids, (j + 1) as nat).net.loads;
    lemma_load_step(m, doc, before, doc[ids[j] as int], load);
    lemma_loads_n_grows(m, doc, st, ids, (j + 1) as nat, ids.len());
    let k = after.len() - 1;
    assert(loads_n(m, doc, st, ids, ids.len()).net.loads[k] == after[k]);
    k
}

/// No load is lost: a network that is read of a written document has, for every
/// load of the network that was written whose name is its own, a load of that
/// name and identifier at the same bus, on the same wires, with the same powers.
#[verifier::rlimit(40)]
pub proof fn lemma_loads_survive(m: Sem, net: DistNetworkV, i: int)
    requires
        0 <= i < net.loads.len(),
        clear(net.untyped, load_path(), net.loads[i].name),
        load_told(m, net.loads[i]),
        forall|j: int|
            i < j < net.loads.len() ==> (#[trigger] net.loads[j]).name != net.loads[i].name,
        collect_of(ravens_document(m, net).1).len() <= usize::MAX,
    ensures
        ravens_value(m, JsonV::Obj(ravens_document(m, net).1)) matches Ok(back) ==> exists|k: int|
            0 <= k < back.loads.len() && comes_of_load(#[trigger] back.loads[k], net.loads[i]),
{
    let root = ravens_document(m, net).1;
    let doc = collect_of(root);
    let load = net.loads[i];
    lemma_load_tables(m, net, i);
    let o = get_of(written_tables(m, net).loads, load.name)->0->Obj_0;
    lemma_load_found(m, net, load.name, JsonV::Obj(o));
    let at = lemma_typed_object_is_collected(root, load_path(), load.name, o, "EnergyConsumer"@);
    let j = lemma_kind_holds(doc, Seq::empty(), "EnergyConsumer"@, doc.len(), at);
    let ids = sorted_kind(doc, "EnergyConsumer"@);
    let g = stages(m, doc);
    let k = lemma_load_pushed(m, doc, g.switched, ids, j, load);
    lemma_nothing_is_taken_back(m, doc);
    assert(g.loaded.net.loads == loads_n(m, doc, g.switched, ids, ids.len()).net.loads);
    assert(run_of(m, doc).net.loads[k] == g.loaded.net.loads[k]);
    if let Ok(back) = ravens_value(m, JsonV::Obj(root)) {
        assert(comes_of_load(back.loads[k], load));
    }
}

} // verus!
