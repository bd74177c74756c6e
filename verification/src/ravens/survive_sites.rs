//! What the reader makes of the shunts, machines, inverters and sources that the
//! writer wrote.

use vstd::prelude::*;

use crate::json::{Entries, JsonV};
use crate::math::{Bits, Sem, ONE, ZERO};
use crate::matrix::two_valued;
use crate::model::{
    entry_of, DistGeneratorV, DistIbrV, DistNetworkV, DistShuntV, IbrPrimeMover, VoltageSourceV,
};
use crate::order::get_of;
use crate::ravens::bases::bases_of;
use crate::ravens::doc::{
    collect_of, list_at, num_at, obj_at, of_kind_n, sorted_kind, str_at, terminals_of, ObjV,
    TerminalV,
};
use crate::ravens::emit::{
    extras_mrid_of, full_code_of, hot_code_of, hot_letters_of, letters_n, sum_of, terminal_json,
    WriterV,
};
use crate::ravens::found::{lemma_kind_holds, lemma_typed_object_is_collected};
use crate::ravens::keeps::{
    lemma_electronics_n_grows, lemma_machines_n_grows, lemma_nothing_is_taken_back,
    lemma_shunts_n_grows, lemma_sources_n_grows, stages,
};
use crate::ravens::laws::{clear, found_at, lemma_typed_place_stays};
use crate::ravens::loads::{shunt_extras_of, shunt_step, shunts_n};
use crate::ravens::machines::{
    electronics_n, electronics_step, ibr_extras_of, machine_extras_of, machine_ids, machine_step,
    machines_n, per_phase_of, prime_mover_of, source_angles_of, source_extras_of, source_step,
    source_volts_of, sources_n,
};
use crate::ravens::name::{
    lemma_terminal_phase_inverse, letters_from, letters_of, terminal_phase_of, terminals_n,
    terminals_of as wires_of,
};
use crate::ravens::read::{ravens_value, run_of};
use crate::ravens::scale::{multiple_of, wrapped_of};
use crate::ravens::state::StateV;
use crate::ravens::survive::{
    comes_of_id, hot_wires, lemma_extras_hold_id, lemma_get_put, lemma_hot_code_reads_back,
    lemma_hot_wires_read_back, lemma_identified, lemma_identified_again, lemma_identity_keys,
    lemma_kind_keeps, lemma_letters, lemma_levels, lemma_some_entries, lemma_terminal_reads_back,
    lemma_undotted, says_id, tells, tells_any, told, written_id, written_tables,
};
use crate::ravens::survive_loads::lemma_one_terminal;
use crate::ravens::write::{
    equipment_of, fresh_writer, put_table, ravens_document, tables_of, unrepresented, TablesV,
};
use crate::ravens::write_lines::{linecodes_json, lines_json, switches_json};
use crate::ravens::write_loads::loads_json;
use crate::ravens::write_machines::{
    all_electronics_json, chord_of, electronics_json, first_hot, hot_places_n, machine_json,
    machines_json, shunt_json, shunts_json, source_json, sources_json, total_limit, unit_json,
};

verus! {

// ---- sites -----------------------------------------------------------------

/// An object of a kind with one terminal, at a bus, that names letters.
pub open spec fn says_site(
    o: Entries,
    kind: Seq<char>,
    bus: Seq<char>,
    letters: Seq<Seq<char>>,
) -> bool {
    &&& str_at(o, "Ravens.cimObjectType"@) == Some(kind)
    &&& terminals_of(o).len() == 1
    &&& terminals_of(o)[0].1.node == bus
    &&& terminals_of(o)[0].1.phases == letters
}

proof fn lemma_site(o: Entries, kind: Seq<char>, name: Seq<char>, bus: Seq<char>, code: Seq<char>)
    requires
        get_of(o, "Ravens.cimObjectType"@) == Some(JsonV::Str(kind)),
        get_of(o, "ConductingEquipment.Terminals"@) == Some(
            JsonV::Arr(seq![terminal_json(name, 1, bus, code, None)]),
        ),
    ensures
        says_site(o, kind, bus, letters_of(code)),
{
    reveal(str_at);
    reveal(list_at);
    reveal(terminals_of);
    lemma_terminal_reads_back(name, 1, bus, code, None);
    lemma_one_terminal(
        terminal_json(name, 1, bus, code, None),
        TerminalV { node: bus, phases: letters_of(code), limit_set: None },
    );
}

/// The keys that every equipment may have.
proof fn lemma_equipment_props()
    ensures
        "Equipment.inService"@.len() == 19,
        "ConductingEquipment.BaseVoltage"@.len() == 31,
        "ConductingEquipment.BaseVoltage"@[0] == 'C',
        "ConductingEquipment.Terminals"@.len() == 29,
        "ConductingEquipment.Terminals"@[0] == 'C',
{
    reveal_strlit("Equipment.inService");
    reveal_strlit("ConductingEquipment.BaseVoltage");
    reveal_strlit("ConductingEquipment.Terminals");
}

/// The wires among the first `n` that a phase code names.
pub open spec fn coded_wires_n(map: Seq<Seq<char>>, n: nat) -> Seq<Seq<char>>
    decreases n,
{
    if n == 0 {
        seq![]
    } else if terminal_phase_of(map[n - 1]) is Some {
        coded_wires_n(map, (n - 1) as nat).push(map[n - 1])
    } else {
        coded_wires_n(map, (n - 1) as nat)
    }
}

pub open spec fn coded_wires(map: Seq<Seq<char>>) -> Seq<Seq<char>> {
    coded_wires_n(map, map.len())
}

pub proof fn lemma_full_letters(map: Seq<Seq<char>>, n: nat)
    requires
        n <= map.len(),
    ensures
        letters_n(map, false, n).len() == coded_wires_n(map, n).len(),
        forall|i: int|
            0 <= i < coded_wires_n(map, n).len() ==> {
                let c = letters_n(map, false, n)[i];
                &&& terminal_phase_of(#[trigger] coded_wires_n(map, n)[i]) == Some(seq![c])
                &&& c == 'A' || c == 'B' || c == 'C' || c == 'N'
            },
    decreases n,
{
    lemma_letters();
    if n > 0 {
        lemma_full_letters(map, (n - 1) as nat);
        let before = coded_wires_n(map, (n - 1) as nat);
        let wires = coded_wires_n(map, n);
        let code = letters_n(map, false, n);
        assert forall|i: int| 0 <= i < wires.len() implies {
            let c = code[i];
            &&& terminal_phase_of(#[trigger] wires[i]) == Some(seq![c])
            &&& c == 'A' || c == 'B' || c == 'C' || c == 'N'
        } by {
            if i < before.len() {
                assert(wires[i] == before[i]);
                assert(code[i] == letters_n(map, false, (n - 1) as nat)[i]);
            } else {
                assert(seq![code[i]] =~= terminal_phase_of(wires[i])->0);
            }
        }
    }
}

pub proof fn lemma_wires_from(code: Seq<char>, wires: Seq<Seq<char>>, i: int, out: Seq<Seq<char>>)
    requires
        0 <= i <= code.len() == wires.len(),
        out == Seq::new(i as nat, |k: int| seq![code[k]]),
        forall|k: int|
            0 <= k < wires.len() ==> terminal_phase_of(#[trigger] wires[k]) == Some(seq![code[k]])
                && (code[k] == 'A' || code[k] == 'B' || code[k] == 'C' || code[k] == 'N'),
    ensures
        letters_from(code, i, out) == Seq::new(code.len(), |k: int| seq![code[k]]),
    decreases code.len() - i,
{
    if i < code.len() {
        assert(terminal_phase_of(wires[i]) == Some(seq![code[i]]));
        let next = out.push(seq![code[i]]);
        assert(next =~= Seq::new((i + 1) as nat, |k: int| seq![code[k]]));
        lemma_wires_from(code, wires, i + 1, next);
    }
}

pub proof fn lemma_wires_of_letters(letters: Seq<Seq<char>>, wires: Seq<Seq<char>>, n: nat)
    requires
        n <= letters.len() == wires.len(),
        forall|i: int|
            0 <= i < wires.len() ==> terminal_phase_of(#[trigger] wires[i]) == Some(letters[i]),
    ensures
        terminals_n(letters, n) == wires.take(n as int),
    decreases n,
{
    if n == 0 {
        assert(wires.take(0) =~= seq![]);
    } else {
        lemma_wires_of_letters(letters, wires, (n - 1) as nat);
        assert(terminal_phase_of(wires[n - 1]) == Some(letters[n - 1]));
        lemma_terminal_phase_inverse(wires[n - 1]);
        assert(wires.take(n as int) =~= wires.take(n - 1).push(wires[n - 1]));
    }
}

/// A whole phase code reads back as the wires it was written for.
pub proof fn lemma_full_code_reads_back(map: Seq<Seq<char>>)
    ensures
        wires_of(letters_of(full_code_of(map))) == coded_wires(map),
{
    let code = letters_n(map, false, map.len());
    let wires = coded_wires(map);
    lemma_full_letters(map, map.len());
    reveal_strlit("PhaseCode.");
    let text = "PhaseCode."@ + code;
    let k = "PhaseCode."@.len() as int;
    assert forall|i: int| k <= i < text.len() implies text[i] != '.' by {
        assert(text[i] == code[i - k]);
        assert(terminal_phase_of(wires[i - k]) == Some(seq![code[i - k]]));
    }
    lemma_undotted(text, k, text.len() as int);
    assert(text.subrange(k, text.len() as int) =~= code);
    reveal(letters_of);
    let letters = Seq::new(code.len(), |i: int| seq![code[i]]);
    assert(Seq::<Seq<char>>::empty() =~= Seq::new(0, |i: int| seq![code[i]]));
    lemma_wires_from(code, wires, 0, Seq::empty());
    lemma_wires_of_letters(letters, wires, wires.len());
    assert(wires.take(wires.len() as int) =~= wires);
    reveal(wires_of);
}

// ---- places ----------------------------------------------------------------

/// The tables of equipment that regulates.
pub open spec fn regulating_of(t: TablesV) -> Entries {
    let regulating = put_table(Entries::empty(), "ShuntCompensator"@, t.shunts);
    let regulating = put_table(regulating, "RotatingMachine"@, t.machines);
    put_table(regulating, "PowerElectronicsConnection"@, t.electronics)
}

/// The tables of equipment that draws or gives energy.
pub open spec fn energy_of(t: TablesV) -> Entries {
    let energy = put_table(Entries::empty(), "EnergyConsumer"@, t.loads);
    let energy = put_table(energy, "EnergySource"@, t.sources);
    put_table(energy, "RegulatingCondEq"@, regulating_of(t))
}

proof fn lemma_place_keys()
    ensures
        "ShuntCompensator"@.len() == 16,
        "RotatingMachine"@.len() == 15,
        "PowerElectronicsConnection"@.len() == 26,
        "EnergyConsumer"@.len() == 14,
        "EnergySource"@.len() == 12,
        "RegulatingCondEq"@.len() == 16,
{
    reveal_strlit("ShuntCompensator");
    reveal_strlit("RotatingMachine");
    reveal_strlit("PowerElectronicsConnection");
    reveal_strlit("EnergyConsumer");
    reveal_strlit("EnergySource");
    reveal_strlit("RegulatingCondEq");
}

proof fn lemma_energy_place(t: TablesV)
    requires
        energy_of(t).len() > 0,
    ensures
        equipment_of(t).len() > 0,
        get_of(equipment_of(t), "EnergyConnection"@) == Some(JsonV::Obj(energy_of(t))),
{
    broadcast use lemma_get_put;

    reveal(equipment_of);
    lemma_some_entries(equipment_of(t), "EnergyConnection"@);
}

proof fn lemma_regulating_place(t: TablesV)
    requires
        regulating_of(t).len() > 0,
    ensures
        energy_of(t).len() > 0,
        get_of(energy_of(t), "RegulatingCondEq"@) == Some(JsonV::Obj(regulating_of(t))),
{
    broadcast use lemma_get_put;

    lemma_some_entries(energy_of(t), "RegulatingCondEq"@);
}

/// Where shunts, machines, inverters and sources stand.
proof fn lemma_site_places(t: TablesV)
    ensures
        t.shunts.len() > 0 ==> get_of(regulating_of(t), "ShuntCompensator"@) == Some(
            JsonV::Obj(t.shunts),
        ),
        t.machines.len() > 0 ==> get_of(regulating_of(t), "RotatingMachine"@) == Some(
            JsonV::Obj(t.machines),
        ),
        t.electronics.len() > 0 ==> get_of(regulating_of(t), "PowerElectronicsConnection"@)
            == Some(JsonV::Obj(t.electronics)),
        t.sources.len() > 0 ==> get_of(energy_of(t), "EnergySource"@) == Some(
            JsonV::Obj(t.sources),
        ),
{
    broadcast use lemma_get_put;

    lemma_place_keys();
}

pub open spec fn site_path(table: Seq<char>) -> Seq<Seq<char>> {
    seq![
        "PowerSystemResource"@,
        "Equipment"@,
        "ConductingEquipment"@,
        "EnergyConnection"@,
        "RegulatingCondEq"@,
        table,
    ]
}

pub open spec fn source_path() -> Seq<Seq<char>> {
    seq![
        "PowerSystemResource"@,
        "Equipment"@,
        "ConductingEquipment"@,
        "EnergyConnection"@,
        "EnergySource"@,
    ]
}

proof fn lemma_site_found(
    m: Sem,
    net: DistNetworkV,
    table: Seq<char>,
    entries: Entries,
    name: Seq<char>,
    v: JsonV,
)
    requires
        clear(net.untyped, site_path(table), name),
        get_of(regulating_of(written_tables(m, net)), table) == Some(JsonV::Obj(entries)),
        get_of(entries, name) == Some(v),
    ensures
        found_at(ravens_document(m, net).1, site_path(table), 0, name) == Some(v),
{
    let t = written_tables(m, net);
    lemma_some_entries(regulating_of(t), table);
    lemma_regulating_place(t);
    lemma_energy_place(t);
    lemma_levels(m, net);
    lemma_typed_place_stays(m, net, site_path(table), name);
    reveal_with_fuel(found_at, 8);
}

proof fn lemma_source_found(m: Sem, net: DistNetworkV, name: Seq<char>, v: JsonV)
    requires
        clear(net.untyped, source_path(), name),
        get_of(written_tables(m, net).sources, name) == Some(v),
    ensures
        found_at(ravens_document(m, net).1, source_path(), 0, name) == Some(v),
{
    let t = written_tables(m, net);
    lemma_some_entries(t.sources, name);
    lemma_site_places(t);
    lemma_some_entries(energy_of(t), "EnergySource"@);
    lemma_energy_place(t);
    lemma_levels(m, net);
    lemma_typed_place_stays(m, net, source_path(), name);
    reveal_with_fuel(found_at, 7);
}

/// A wire map that comes back of one: its phases, and the neutral.
pub open spec fn with_ground(map: Seq<Seq<char>>) -> Seq<Seq<char>> {
    hot_wires(map).push("4"@)
}

// ---- shunts ----------------------------------------------------------------

/// What a shunt object says.
pub open spec fn says_shunt(m: Sem, o: Entries, e: DistShuntV) -> bool {
    &&& says_site(o, "LinearShuntCompensator"@, e.bus, letters_of(full_code_of(e.terminal_map)))
    &&& says_id(o, "LinearShuntCompensator"@, e.name, e.extras)
    &&& tells(m, o, "LinearShuntCompensator.bPerSection"@, entry_of(e.b, 0, 0))
    &&& tells(m, o, "LinearShuntCompensator.gPerSection"@, entry_of(e.g, 0, 0))
    &&& tells(m, o, "ShuntCompensator.sections"@, ONE)
}

#[verifier::rlimit(40)]
pub proof fn lemma_shunt_says(w: WriterV, m: Sem, e: DistShuntV)
    ensures
        shunt_json(w, m, e).1 matches JsonV::Obj(o) && says_shunt(m, o, e),
{
    broadcast use lemma_get_put;

    lemma_identity_keys();
    lemma_equipment_props();
    reveal_strlit("ShuntCompensator.nomU");
    reveal_strlit("LinearShuntCompensator.bPerSection");
    reveal_strlit("LinearShuntCompensator.gPerSection");
    reveal_strlit("ShuntCompensator.phaseConnection");
    reveal_strlit("LinearShuntCompensator.b0PerSection");
    reveal_strlit("LinearShuntCompensator.g0PerSection");
    reveal_strlit("ShuntCompensator.normalSections");
    reveal_strlit("ShuntCompensator.maximumSections");
    reveal_strlit("ShuntCompensator.sections");
    assert("ShuntCompensator.nomU"@.len() == 21 && "ShuntCompensator.nomU"@[0] == 'S');
    assert("IdentifiedObject.mRID"@[0] == 'I') by {
        reveal_strlit("IdentifiedObject.mRID");
    }
    assert("LinearShuntCompensator.bPerSection"@.len() == 34);
    assert("LinearShuntCompensator.gPerSection"@.len() == 34);
    assert("ShuntCompensator.phaseConnection"@.len() == 32);
    assert("LinearShuntCompensator.b0PerSection"@.len() == 35);
    assert("LinearShuntCompensator.g0PerSection"@.len() == 35);
    assert("ShuntCompensator.normalSections"@.len() == 31);
    assert("ShuntCompensator.maximumSections"@.len() == 32);
    assert("ShuntCompensator.sections"@.len() == 25);
    assert("LinearShuntCompensator.bPerSection"@[23] == 'b' && "LinearShuntCompensator.gPerSection"@[23] == 'g');
    assert("ShuntCompensator.phaseConnection"@[17] == 'p' && "ShuntCompensator.maximumSections"@[17] == 'm');
    assert("LinearShuntCompensator.b0PerSection"@[23] == 'b' && "LinearShuntCompensator.g0PerSection"@[23] == 'g');
    assert("ShuntCompensator.normalSections"@[0] == 'S' && "ConductingEquipment.BaseVoltage"@[0] == 'C');
    reveal(shunt_json);
    reveal(WriterV::num);
    reveal(num_at);
    reveal(obj_at);
    lemma_identified_again("LinearShuntCompensator"@, e.name, extras_mrid_of(e.extras));
    reveal(WriterV::put_base);
    lemma_identified(
        "LinearShuntCompensator"@,
        e.name,
        extras_mrid_of(e.extras),
        "ConductingEquipment.Terminals"@,
    );
    let o = shunt_json(w, m, e).1->Obj_0;
    lemma_site(o, "LinearShuntCompensator"@, e.name, e.bus, full_code_of(e.terminal_map));
}

proof fn lemma_shunt_table(w: WriterV, m: Sem, s: Seq<DistShuntV>, n: nat, i: int)
    requires
        0 <= i < n <= s.len(),
        forall|j: int| i < j < s.len() ==> (#[trigger] s[j]).name != s[i].name,
    ensures
        ({
            let e = s[i];
            get_of(shunts_json(w, m, s, n).1, e.name) matches Some(JsonV::Obj(o)) && says_shunt(
                m,
                o,
                e,
            )
        }),
    decreases n,
{
    broadcast use lemma_get_put;

    let before = shunts_json(w, m, s, (n - 1) as nat);
    if i == n - 1 {
        lemma_shunt_says(before.0, m, s[i]);
    } else {
        lemma_shunt_table(w, m, s, (n - 1) as nat, i);
        assert(s[n - 1].name != s[i].name);
    }
}

proof fn lemma_shunt_tables(m: Sem, net: DistNetworkV, i: int)
    requires
        0 <= i < net.shunts.len(),
        forall|j: int|
            i < j < net.shunts.len() ==> (#[trigger] net.shunts[j]).name != net.shunts[i].name,
    ensures
        ({
            let e = net.shunts[i];
            get_of(written_tables(m, net).shunts, e.name) matches Some(JsonV::Obj(o))
                && says_shunt(m, o, e)
        }),
{
    reveal(tables_of);
    let w = unrepresented(fresh_writer(bases_of(m, net)), m, net);
    let (w, _t0) = linecodes_json(w, m, net.linecodes, net.linecodes.len());
    let (w, _t1) = lines_json(w, m, net, net.lines.len());
    let (w, _t2) = switches_json(w, m, net.switches, net.switches.len());
    let (w, _t3) = loads_json(w, m, net, net.loads.len());
    lemma_shunt_table(w, m, net.shunts, net.shunts.len(), i);
}

/// A shunt that comes back of a shunt.
pub open spec fn comes_of_shunt(m: Sem, back: DistShuntV, e: DistShuntV) -> bool {
    &&& back.name == e.name
    &&& back.bus == e.bus
    &&& comes_of_id(back.extras, "LinearShuntCompensator"@, e.name, e.extras)
    &&& coded_wires(e.terminal_map).len() > 0 ==> {
        let wires = coded_wires(e.terminal_map);
        let b = entry_of(e.b, 0, 0);
        let g = entry_of(e.g, 0, 0);
        &&& back.terminal_map == wires
        &&& told(m, ONE) && told(m, b) ==> back.b == two_valued(wires.len(), m.times(b, ONE), ZERO)
        &&& told(m, ONE) && told(m, g) ==> back.g == two_valued(wires.len(), m.times(g, ONE), ZERO)
    }
}

#[verifier::rlimit(40)]
pub proof fn lemma_shunt_step(m: Sem, doc: Seq<ObjV>, st: StateV, o: ObjV, e: DistShuntV)
    requires
        o.name == e.name,
        says_shunt(m, o.props, e),
    ensures
        ({
            let all = shunt_step(m, doc, st, o).net.shunts;
            all.len() > 0 && comes_of_shunt(m, all[all.len() - 1], e)
        }),
{
    broadcast use lemma_get_put;

    lemma_full_code_reads_back(e.terminal_map);
    reveal_strlit("ravens_mrid");
    assert("ravens_mrid"@.len() == 11);
    reveal_strlit("kv");
    assert("kv"@.len() == 2);
    reveal_strlit("phases");
    assert("phases"@.len() == 6);
    reveal_strlit("kvar");
    assert("kvar"@.len() == 4);
    reveal_strlit("conn");
    assert("conn"@.len() == 4);
    lemma_extras_hold_id(
        o.props,
        written_id("LinearShuntCompensator"@, e.name, extras_mrid_of(e.extras)),
    );
    reveal(shunt_extras_of);
}

proof fn lemma_shunt_pushed(
    m: Sem,
    doc: Seq<ObjV>,
    st: StateV,
    ids: Seq<usize>,
    j: int,
    e: DistShuntV,
) -> (k: int)
    requires
        0 <= j < ids.len(),
        doc[ids[j] as int].name == e.name,
        says_shunt(m, doc[ids[j] as int].props, e),
    ensures
        0 <= k < shunts_n(m, doc, st, ids, ids.len()).net.shunts.len(),
        comes_of_shunt(m, shunts_n(m, doc, st, ids, ids.len()).net.shunts[k], e),
{
    let before = shunts_n(m, doc, st, ids, j as nat);
    let after = shunts_n(m, doc, st, ids, (j + 1) as nat).net.shunts;
    lemma_shunt_step(m, doc, before, doc[ids[j] as int], e);
    lemma_shunts_n_grows(m, doc, st, ids, (j + 1) as nat, ids.len());
    let k = after.len() - 1;
    assert(shunts_n(m, doc, st, ids, ids.len()).net.shunts[k] == after[k]);
    k
}

/// No shunt is lost: a network that is read of a written document has, for
/// every shunt of the network that was written whose name is its own, a
/// shunt of that name and identifier at the same bus, on the wires that have a
/// phase letter, with the susceptance and the conductance of its first phase.
#[verifier::rlimit(40)]
pub proof fn lemma_shunts_survive(m: Sem, net: DistNetworkV, i: int)
    requires
        0 <= i < net.shunts.len(),
        clear(net.untyped, site_path("ShuntCompensator"@), net.shunts[i].name),
        forall|j: int|
            i < j < net.shunts.len() ==> (#[trigger] net.shunts[j]).name != net.shunts[i].name,
        collect_of(ravens_document(m, net).1).len() <= usize::MAX,
    ensures
        ravens_value(m, JsonV::Obj(ravens_document(m, net).1)) matches Ok(back) ==> exists|k: int|
            0 <= k < back.shunts.len() && comes_of_shunt(
                m,
                #[trigger] back.shunts[k],
                net.shunts[i],
            ),
{
    let root = ravens_document(m, net).1;
    let doc = collect_of(root);
    let e = net.shunts[i];
    let kind = "LinearShuntCompensator"@;
    lemma_shunt_tables(m, net, i);
    let o = get_of(written_tables(m, net).shunts, e.name)->0->Obj_0;
    let t = written_tables(m, net);
    lemma_some_entries(t.shunts, e.name);
    lemma_site_places(t);
    lemma_site_found(m, net, "ShuntCompensator"@, t.shunts, e.name, JsonV::Obj(o));
    let at = lemma_typed_object_is_collected(root, site_path("ShuntCompensator"@), e.name, o, kind);
    let j = lemma_kind_holds(doc, Seq::empty(), kind, doc.len(), at);
    let ids = sorted_kind(doc, "LinearShuntCompensator"@);
    let g = stages(m, doc);
    let k = lemma_shunt_pushed(m, doc, g.loaded, ids, j, e);
    lemma_nothing_is_taken_back(m, doc);
    assert(g.shunted.net.shunts == shunts_n(m, doc, g.loaded, ids, ids.len()).net.shunts);
    assert(run_of(m, doc).net.shunts[k] == g.shunted.net.shunts[k]);
    if let Ok(back) = ravens_value(m, JsonV::Obj(root)) {
        assert(comes_of_shunt(m, back.shunts[k], e));
    }
}

// ---- machines --------------------------------------------------------------

/// What a machine object says.
pub open spec fn says_machine(m: Sem, o: Entries, e: DistGeneratorV) -> bool {
    &&& says_site(o, "SynchronousMachine"@, e.bus, hot_letters_of(e.terminal_map))
    &&& says_id(o, "SynchronousMachine"@, e.name, e.extras)
    &&& tells(m, o, "RotatingMachine.p"@, sum_of(m, e.p_nom))
    &&& tells(m, o, "RotatingMachine.q"@, sum_of(m, e.q_nom))
    &&& tells_any(m, o, "SynchronousMachine.maxQ"@, total_limit(m, e.q_max))
    &&& tells_any(m, o, "SynchronousMachine.minQ"@, total_limit(m, e.q_min))
    &&& if e.p_max is Some || e.p_min is Some {
        &&& obj_at(o, "RotatingMachine.GeneratingUnit"@) matches Some(u)
        &&& tells_any(m, u, "GeneratingUnit.maxOperatingP"@, total_limit(m, e.p_max))
        &&& tells_any(m, u, "GeneratingUnit.minOperatingP"@, total_limit(m, e.p_min))
    } else {
        obj_at(o, "RotatingMachine.GeneratingUnit"@) is None
    }
}

/// A limit that comes back of a limit: its total, shared among the phases.
pub open spec fn comes_of_limit(
    m: Sem,
    back: Option<Seq<Bits>>,
    limit: Option<Seq<Bits>>,
    phases: nat,
) -> bool {
    match limit {
        Some(s) => told(m, sum_of(m, s)) ==> back == Some(per_phase_of(m, sum_of(m, s), phases)),
        None => back is None,
    }
}

#[verifier::rlimit(40)]
pub proof fn lemma_machine_says(w: WriterV, m: Sem, e: DistGeneratorV)
    ensures
        machine_json(w, m, e).1 matches JsonV::Obj(o) && says_machine(m, o, e),
{
    broadcast use lemma_get_put;

    lemma_identity_keys();
    lemma_equipment_props();
    reveal_strlit("RotatingMachine.p");
    reveal_strlit("RotatingMachine.q");
    reveal_strlit("RotatingMachine.ratedS");
    reveal_strlit("RotatingMachine.ratedU");
    reveal_strlit("SynchronousMachine.maxQ");
    reveal_strlit("SynchronousMachine.minQ");
    reveal_strlit("RotatingMachine.GeneratingUnit");
    assert("RotatingMachine.p"@.len() == 17);
    assert("RotatingMachine.q"@.len() == 17);
    assert("RotatingMachine.ratedS"@.len() == 22);
    assert("RotatingMachine.ratedU"@.len() == 22);
    assert("SynchronousMachine.maxQ"@.len() == 23);
    assert("SynchronousMachine.minQ"@.len() == 23);
    assert("RotatingMachine.GeneratingUnit"@.len() == 30);
    assert("RotatingMachine.p"@[16] == 'p' && "RotatingMachine.q"@[16] == 'q');
    assert("RotatingMachine.ratedS"@[21] == 'S' && "RotatingMachine.ratedU"@[21] == 'U');
    assert("SynchronousMachine.maxQ"@[20] == 'a' && "SynchronousMachine.minQ"@[20] == 'i');
    reveal(machine_json);
    reveal(WriterV::num);
    reveal(num_at);
    reveal(obj_at);
    lemma_identified_again("SynchronousMachine"@, e.name, extras_mrid_of(e.extras));
    lemma_identified(
        "SynchronousMachine"@,
        e.name,
        extras_mrid_of(e.extras),
        "SynchronousMachine.maxQ"@,
    );
    lemma_identified(
        "SynchronousMachine"@,
        e.name,
        extras_mrid_of(e.extras),
        "SynchronousMachine.minQ"@,
    );
    lemma_identified(
        "SynchronousMachine"@,
        e.name,
        extras_mrid_of(e.extras),
        "RotatingMachine.GeneratingUnit"@,
    );
    reveal_strlit("GeneratingUnit.maxOperatingP");
    reveal_strlit("GeneratingUnit.minOperatingP");
    assert("GeneratingUnit.maxOperatingP"@.len() == 28);
    assert("GeneratingUnit.minOperatingP"@.len() == 28);
    assert("GeneratingUnit.maxOperatingP"@[16] == 'a' && "GeneratingUnit.minOperatingP"@[16] == 'i');
    lemma_identified(
        "GeneratingUnit"@,
        e.name + "_Unit"@,
        None,
        "GeneratingUnit.maxOperatingP"@,
    );
    lemma_identified(
        "GeneratingUnit"@,
        e.name + "_Unit"@,
        None,
        "GeneratingUnit.minOperatingP"@,
    );
    reveal(WriterV::put_base);
    lemma_identified(
        "SynchronousMachine"@,
        e.name,
        extras_mrid_of(e.extras),
        "ConductingEquipment.Terminals"@,
    );
    let o = machine_json(w, m, e).1->Obj_0;
    lemma_site(o, "SynchronousMachine"@, e.name, e.bus, hot_code_of(e.terminal_map));
    lemma_hot_code_reads_back(e.terminal_map);
}

proof fn lemma_machine_table(w: WriterV, m: Sem, s: Seq<DistGeneratorV>, n: nat, i: int)
    requires
        0 <= i < n <= s.len(),
        forall|j: int| i < j < s.len() ==> (#[trigger] s[j]).name != s[i].name,
    ensures
        ({
            let e = s[i];
            get_of(machines_json(w, m, s, n).1, e.name) matches Some(JsonV::Obj(o)) && says_machine(
                m,
                o,
                e,
            )
        }),
    decreases n,
{
    broadcast use lemma_get_put;

    let before = machines_json(w, m, s, (n - 1) as nat);
    if i == n - 1 {
        lemma_machine_says(before.0, m, s[i]);
    } else {
        lemma_machine_table(w, m, s, (n - 1) as nat, i);
        assert(s[n - 1].name != s[i].name);
    }
}

proof fn lemma_machine_tables(m: Sem, net: DistNetworkV, i: int)
    requires
        0 <= i < net.generators.len(),
        forall|j: int|
            i < j < net.generators.len() ==> (#[trigger] net.generators[j]).name
                != net.generators[i].name,
    ensures
        ({
            let e = net.generators[i];
            get_of(written_tables(m, net).machines, e.name) matches Some(JsonV::Obj(o))
                && says_machine(m, o, e)
        }),
{
    reveal(tables_of);
    let w = unrepresented(fresh_writer(bases_of(m, net)), m, net);
    let (w, _t0) = linecodes_json(w, m, net.linecodes, net.linecodes.len());
    let (w, _t1) = lines_json(w, m, net, net.lines.len());
    let (w, _t2) = switches_json(w, m, net.switches, net.switches.len());
    let (w, _t3) = loads_json(w, m, net, net.loads.len());
    let (w, _t4) = shunts_json(w, m, net.shunts, net.shunts.len());
    lemma_machine_table(w, m, net.generators, net.generators.len(), i);
}

/// A generator that comes back of a generator.
pub open spec fn comes_of_machine(m: Sem, back: DistGeneratorV, e: DistGeneratorV) -> bool {
    &&& back.name == e.name
    &&& back.bus == e.bus
    &&& comes_of_id(back.extras, "SynchronousMachine"@, e.name, e.extras)
    &&& hot_wires(e.terminal_map).len() > 0 ==> {
        let phases = hot_wires(e.terminal_map).len();
        let p = sum_of(m, e.p_nom);
        let q = sum_of(m, e.q_nom);
        &&& back.terminal_map == with_ground(e.terminal_map)
        &&& told(m, p) ==> back.p_nom == per_phase_of(m, p, phases)
        &&& told(m, q) ==> back.q_nom == per_phase_of(m, q, phases)
        &&& comes_of_limit(m, back.p_max, e.p_max, phases)
        &&& comes_of_limit(m, back.p_min, e.p_min, phases)
        &&& comes_of_limit(m, back.q_max, e.q_max, phases)
        &&& comes_of_limit(m, back.q_min, e.q_min, phases)
    }
}

#[verifier::rlimit(40)]
pub proof fn lemma_machine_step(m: Sem, doc: Seq<ObjV>, st: StateV, o: ObjV, e: DistGeneratorV)
    requires
        o.name == e.name,
        says_machine(m, o.props, e),
    ensures
        ({
            let all = machine_step(m, doc, st, o).net.generators;
            all.len() > 0 && comes_of_machine(m, all[all.len() - 1], e)
        }),
{
    broadcast use lemma_get_put;

    lemma_hot_wires_read_back(e.terminal_map);
    reveal_strlit("ravens_mrid");
    assert("ravens_mrid"@.len() == 11);
    reveal_strlit("kv");
    assert("kv"@.len() == 2);
    reveal_strlit("phases");
    assert("phases"@.len() == 6);
    reveal_strlit("kva");
    assert("kva"@.len() == 3);
    lemma_extras_hold_id(
        o.props,
        written_id("SynchronousMachine"@, e.name, extras_mrid_of(e.extras)),
    );
    reveal(machine_extras_of);
}

proof fn lemma_machine_pushed(
    m: Sem,
    doc: Seq<ObjV>,
    st: StateV,
    ids: Seq<usize>,
    j: int,
    e: DistGeneratorV,
) -> (k: int)
    requires
        0 <= j < ids.len(),
        doc[ids[j] as int].name == e.name,
        says_machine(m, doc[ids[j] as int].props, e),
    ensures
        0 <= k < machines_n(m, doc, st, ids, ids.len()).net.generators.len(),
        comes_of_machine(m, machines_n(m, doc, st, ids, ids.len()).net.generators[k], e),
{
    let before = machines_n(m, doc, st, ids, j as nat);
    let after = machines_n(m, doc, st, ids, (j + 1) as nat).net.generators;
    lemma_machine_step(m, doc, before, doc[ids[j] as int], e);
    lemma_machines_n_grows(m, doc, st, ids, (j + 1) as nat, ids.len());
    let k = after.len() - 1;
    assert(machines_n(m, doc, st, ids, ids.len()).net.generators[k] == after[k]);
    k
}

/// No generator is lost: a network that is read of a written document has, for
/// every generator of the network that was written whose name is its own, a
/// generator of that name and identifier at the same bus, on its phases and the
/// neutral, with its powers and its limits shared evenly among the phases.
#[verifier::rlimit(40)]
pub proof fn lemma_machines_survive(m: Sem, net: DistNetworkV, i: int)
    requires
        0 <= i < net.generators.len(),
        clear(net.untyped, site_path("RotatingMachine"@), net.generators[i].name),
        forall|j: int|
            i < j < net.generators.len() ==> (#[trigger] net.generators[j]).name
                != net.generators[i].name,
        collect_of(ravens_document(m, net).1).len() <= usize::MAX,
    ensures
        ravens_value(m, JsonV::Obj(ravens_document(m, net).1)) matches Ok(back) ==> exists|k: int|
            0 <= k < back.generators.len() && comes_of_machine(
                m,
                #[trigger] back.generators[k],
                net.generators[i],
            ),
{
    let root = ravens_document(m, net).1;
    let doc = collect_of(root);
    let e = net.generators[i];
    let kind = "SynchronousMachine"@;
    lemma_machine_tables(m, net, i);
    let o = get_of(written_tables(m, net).machines, e.name)->0->Obj_0;
    let t = written_tables(m, net);
    lemma_some_entries(t.machines, e.name);
    lemma_site_places(t);
    lemma_site_found(m, net, "RotatingMachine"@, t.machines, e.name, JsonV::Obj(o));
    let at = lemma_typed_object_is_collected(root, site_path("RotatingMachine"@), e.name, o, kind);
    let j0 = lemma_kind_holds(doc, Seq::empty(), kind, doc.len(), at);
    let s0 = of_kind_n(doc, Seq::empty(), kind, doc.len());
    let j = lemma_kind_keeps(doc, s0, "AsynchronousMachine"@, doc.len(), j0);
    let ids = machine_ids(doc);
    let g = stages(m, doc);
    let k = lemma_machine_pushed(m, doc, g.shunted, ids, j, e);
    lemma_nothing_is_taken_back(m, doc);
    assert(g.driven.net.generators == machines_n(m, doc, g.shunted, ids, ids.len()).net.generators);
    assert(run_of(m, doc).net.generators[k] == g.driven.net.generators[k]);
    if let Ok(back) = ravens_value(m, JsonV::Obj(root)) {
        assert(comes_of_machine(m, back.generators[k], e));
    }
}

// ---- inverters -------------------------------------------------------------

/// What a unit says.
pub open spec fn says_unit(m: Sem, u: Entries, e: DistIbrV) -> bool {
    &&& str_at(u, "Ravens.cimObjectType"@) == Some(
        if e.prime_mover == IbrPrimeMover::Pv {
            "PhotoVoltaicUnit"@
        } else {
            "BatteryUnit"@
        },
    )
    &&& tells_any(m, u, "PowerElectronicsUnit.maxP"@, total_limit(m, e.p_max))
    &&& tells_any(m, u, "PowerElectronicsUnit.minP"@, total_limit(m, e.p_min))
}

/// What an inverter object says.
pub open spec fn says_inverter(m: Sem, o: Entries, e: DistIbrV) -> bool {
    &&& says_site(o, "PowerElectronicsConnection"@, e.bus, hot_letters_of(e.terminal_map))
    &&& says_id(o, "PowerElectronicsConnection"@, e.name, e.extras)
    &&& tells_any(m, o, "PowerElectronicsConnection.p"@, e.p_avail)
    &&& tells(m, o, "PowerElectronicsConnection.ratedS"@, sum_of(m, e.s_max))
    &&& tells_any(m, o, "PowerElectronicsConnection.maxQ"@, total_limit(m, e.q_max))
    &&& tells_any(m, o, "PowerElectronicsConnection.minQ"@, total_limit(m, e.q_min))
    &&& if e.prime_mover == IbrPrimeMover::Generic {
        obj_at(o, "PowerElectronicsConnection.PowerElectronicsUnit"@) is None
    } else {
        obj_at(o, "PowerElectronicsConnection.PowerElectronicsUnit"@) matches Some(u) && says_unit(
            m,
            u,
            e,
        )
    }
}

#[verifier::rlimit(40)]
proof fn lemma_unit_says(w: WriterV, m: Sem, e: DistIbrV, what: Seq<char>)
    ensures
        match unit_json(w, m, e, what).1 {
            Some(v) => v matches JsonV::Obj(u) && says_unit(m, u, e) && e.prime_mover
                != IbrPrimeMover::Generic,
            None => e.prime_mover == IbrPrimeMover::Generic,
        },
{
    broadcast use lemma_get_put;

    lemma_identity_keys();
    reveal(unit_json);
    reveal(WriterV::num);
    reveal(num_at);
    reveal(str_at);
    reveal_strlit("PowerElectronicsUnit.maxP");
    reveal_strlit("PowerElectronicsUnit.minP");
    reveal_strlit("BatteryUnit.ratedE");
    reveal_strlit("BatteryUnit.storedE");
    reveal_strlit("BatteryUnit.BatteryUnitEfficiency");
    assert("PowerElectronicsUnit.maxP"@.len() == 25);
    assert("PowerElectronicsUnit.minP"@.len() == 25);
    assert("PowerElectronicsUnit.maxP"@[22] == 'a' && "PowerElectronicsUnit.minP"@[22] == 'i');
    assert("BatteryUnit.ratedE"@.len() == 18);
    assert("BatteryUnit.storedE"@.len() == 19);
    assert("BatteryUnit.BatteryUnitEfficiency"@.len() == 33);
    let pv = e.name + "_PVPanels"@;
    let battery = e.name + "_Battery"@;
    lemma_identified("PhotoVoltaicUnit"@, pv, None, "PowerElectronicsUnit.maxP"@);
    lemma_identified("PhotoVoltaicUnit"@, pv, None, "PowerElectronicsUnit.minP"@);
    lemma_identified("BatteryUnit"@, battery, None, "PowerElectronicsUnit.maxP"@);
    lemma_identified("BatteryUnit"@, battery, None, "PowerElectronicsUnit.minP"@);
}

#[verifier::rlimit(60)]
pub proof fn lemma_inverter_says(w: WriterV, m: Sem, e: DistIbrV)
    ensures
        electronics_json(w, m, e).1 matches JsonV::Obj(o) && says_inverter(m, o, e),
{
    broadcast use lemma_get_put;

    lemma_identity_keys();
    lemma_equipment_props();
    reveal_strlit("PowerElectronicsConnection.p");
    reveal_strlit("PowerElectronicsConnection.q");
    reveal_strlit("PowerElectronicsConnection.ratedS");
    reveal_strlit("PowerElectronicsConnection.ratedU");
    reveal_strlit("PowerElectronicsConnection.maxQ");
    reveal_strlit("PowerElectronicsConnection.minQ");
    reveal_strlit("PowerElectronicsConnection.maxIFault");
    reveal_strlit("PowerElectronicsConnection.PowerElectronicsUnit");
    assert("PowerElectronicsConnection.p"@.len() == 28);
    assert("PowerElectronicsConnection.q"@.len() == 28);
    assert("PowerElectronicsConnection.ratedS"@.len() == 33);
    assert("PowerElectronicsConnection.ratedU"@.len() == 33);
    assert("PowerElectronicsConnection.maxQ"@.len() == 31);
    assert("PowerElectronicsConnection.minQ"@.len() == 31);
    assert("PowerElectronicsConnection.maxIFault"@.len() == 36);
    assert("PowerElectronicsConnection.PowerElectronicsUnit"@.len() == 47);
    assert("PowerElectronicsConnection.p"@[27] == 'p' && "PowerElectronicsConnection.q"@[27] == 'q');
    assert("PowerElectronicsConnection.ratedS"@[32] == 'S' && "PowerElectronicsConnection.ratedU"@[32] == 'U');
    assert("PowerElectronicsConnection.maxQ"@[28] == 'a' && "PowerElectronicsConnection.minQ"@[28] == 'i');
    assert("PowerElectronicsConnection.maxQ"@[0] == 'P' && "ConductingEquipment.BaseVoltage"@[0] == 'C');
    assert("PowerElectronicsConnection.minQ"@[0] == 'P' && "ConductingEquipment.BaseVoltage"@[0] == 'C');
    reveal(electronics_json);
    reveal(WriterV::num);
    reveal(num_at);
    reveal(obj_at);
    lemma_identified_again("PowerElectronicsConnection"@, e.name, extras_mrid_of(e.extras));
    lemma_identified(
        "PowerElectronicsConnection"@,
        e.name,
        extras_mrid_of(e.extras),
        "PowerElectronicsConnection.p"@,
    );
    lemma_identified(
        "PowerElectronicsConnection"@,
        e.name,
        extras_mrid_of(e.extras),
        "PowerElectronicsConnection.maxQ"@,
    );
    lemma_identified(
        "PowerElectronicsConnection"@,
        e.name,
        extras_mrid_of(e.extras),
        "PowerElectronicsConnection.minQ"@,
    );
    lemma_identified(
        "PowerElectronicsConnection"@,
        e.name,
        extras_mrid_of(e.extras),
        "PowerElectronicsConnection.PowerElectronicsUnit"@,
    );
    let what = "ibr "@ + e.name;
    assert forall|u: WriterV| match #[trigger] unit_json(u, m, e, what).1 {
        Some(v) => v matches JsonV::Obj(x) && says_unit(m, x, e) && e.prime_mover
            != IbrPrimeMover::Generic,
        None => e.prime_mover == IbrPrimeMover::Generic,
    } by {
        lemma_unit_says(u, m, e, what);
    }
    reveal(WriterV::put_base);
    lemma_identified(
        "PowerElectronicsConnection"@,
        e.name,
        extras_mrid_of(e.extras),
        "ConductingEquipment.Terminals"@,
    );
    let o = electronics_json(w, m, e).1->Obj_0;
    lemma_site(o, "PowerElectronicsConnection"@, e.name, e.bus, hot_code_of(e.terminal_map));
    lemma_hot_code_reads_back(e.terminal_map);
}

proof fn lemma_inverter_table(w: WriterV, m: Sem, s: Seq<DistIbrV>, n: nat, i: int)
    requires
        0 <= i < n <= s.len(),
        forall|j: int| i < j < s.len() ==> (#[trigger] s[j]).name != s[i].name,
    ensures
        ({
            let e = s[i];
            get_of(all_electronics_json(w, m, s, n).1, e.name) matches Some(JsonV::Obj(o)) && says_inverter(
                m,
                o,
                e,
            )
        }),
    decreases n,
{
    broadcast use lemma_get_put;

    let before = all_electronics_json(w, m, s, (n - 1) as nat);
    if i == n - 1 {
        lemma_inverter_says(before.0, m, s[i]);
    } else {
        lemma_inverter_table(w, m, s, (n - 1) as nat, i);
        assert(s[n - 1].name != s[i].name);
    }
}

proof fn lemma_inverter_tables(m: Sem, net: DistNetworkV, i: int)
    requires
        0 <= i < net.ibrs.len(),
        forall|j: int|
            i < j < net.ibrs.len() ==> (#[trigger] net.ibrs[j]).name != net.ibrs[i].name,
    ensures
        ({
            let e = net.ibrs[i];
            get_of(written_tables(m, net).electronics, e.name) matches Some(JsonV::Obj(o))
                && says_inverter(m, o, e)
        }),
{
    reveal(tables_of);
    let w = unrepresented(fresh_writer(bases_of(m, net)), m, net);
    let (w, _t0) = linecodes_json(w, m, net.linecodes, net.linecodes.len());
    let (w, _t1) = lines_json(w, m, net, net.lines.len());
    let (w, _t2) = switches_json(w, m, net.switches, net.switches.len());
    let (w, _t3) = loads_json(w, m, net, net.loads.len());
    let (w, _t4) = shunts_json(w, m, net.shunts, net.shunts.len());
    let (w, _t5) = machines_json(w, m, net.generators, net.generators.len());
    lemma_inverter_table(w, m, net.ibrs, net.ibrs.len(), i);
}

/// An inverter that comes back of an inverter.
pub open spec fn comes_of_inverter(m: Sem, back: DistIbrV, e: DistIbrV) -> bool {
    &&& back.name == e.name
    &&& back.bus == e.bus
    &&& back.prime_mover == e.prime_mover
    &&& comes_of_id(back.extras, "PowerElectronicsConnection"@, e.name, e.extras)
    &&& e.p_avail is Some && told(m, e.p_avail->0) ==> back.p_avail == e.p_avail
    &&& e.p_avail is None ==> back.p_avail is None
    &&& hot_wires(e.terminal_map).len() > 0 ==> {
        let phases = hot_wires(e.terminal_map).len();
        let s = sum_of(m, e.s_max);
        &&& back.terminal_map == with_ground(e.terminal_map)
        &&& told(m, s) ==> back.s_max == per_phase_of(m, s, phases)
        &&& comes_of_limit(m, back.q_max, e.q_max, phases)
        &&& comes_of_limit(m, back.q_min, e.q_min, phases)
        &&& e.prime_mover != IbrPrimeMover::Generic ==> {
            &&& comes_of_limit(m, back.p_max, e.p_max, phases)
            &&& comes_of_limit(m, back.p_min, e.p_min, phases)
        }
    }
}

#[verifier::rlimit(40)]
pub proof fn lemma_inverter_step(m: Sem, doc: Seq<ObjV>, st: StateV, o: ObjV, e: DistIbrV)
    requires
        o.name == e.name,
        says_inverter(m, o.props, e),
    ensures
        ({
            let all = electronics_step(m, doc, st, o).net.ibrs;
            all.len() > 0 && comes_of_inverter(m, all[all.len() - 1], e)
        }),
{
    broadcast use lemma_get_put;

    lemma_hot_wires_read_back(e.terminal_map);
    reveal_strlit("ravens_mrid");
    assert("ravens_mrid"@.len() == 11);
    reveal_strlit("kv");
    assert("kv"@.len() == 2);
    reveal_strlit("kvar");
    assert("kvar"@.len() == 4);
    reveal_strlit("ravens_rated_e");
    assert("ravens_rated_e"@.len() == 14);
    reveal_strlit("ravens_stored_e");
    assert("ravens_stored_e"@.len() == 15);
    reveal_strlit("ravens_battery_efficiency");
    assert("ravens_battery_efficiency"@.len() == 25);
    reveal_strlit("PhotoVoltaicUnit");
    assert("PhotoVoltaicUnit"@.len() == 16);
    reveal_strlit("BatteryUnit");
    assert("BatteryUnit"@.len() == 11);
    lemma_extras_hold_id(
        o.props,
        written_id("PowerElectronicsConnection"@, e.name, extras_mrid_of(e.extras)),
    );
    reveal(ibr_extras_of);
    reveal(prime_mover_of);
}

proof fn lemma_inverter_pushed(
    m: Sem,
    doc: Seq<ObjV>,
    st: StateV,
    ids: Seq<usize>,
    j: int,
    e: DistIbrV,
) -> (k: int)
    requires
        0 <= j < ids.len(),
        doc[ids[j] as int].name == e.name,
        says_inverter(m, doc[ids[j] as int].props, e),
    ensures
        0 <= k < electronics_n(m, doc, st, ids, ids.len()).net.ibrs.len(),
        comes_of_inverter(m, electronics_n(m, doc, st, ids, ids.len()).net.ibrs[k], e),
{
    let before = electronics_n(m, doc, st, ids, j as nat);
    let after = electronics_n(m, doc, st, ids, (j + 1) as nat).net.ibrs;
    lemma_inverter_step(m, doc, before, doc[ids[j] as int], e);
    lemma_electronics_n_grows(m, doc, st, ids, (j + 1) as nat, ids.len());
    let k = after.len() - 1;
    assert(electronics_n(m, doc, st, ids, ids.len()).net.ibrs[k] == after[k]);
    k
}

/// No inverter is lost: a network that is read of a written document has, for
/// every inverter of the network that was written whose name is its own, an
/// inverter of that name and identifier at the same bus, on its phases and the
/// neutral, driven as it was, with its rating and its limits shared evenly among
/// the phases.
#[verifier::rlimit(40)]
pub proof fn lemma_inverters_survive(m: Sem, net: DistNetworkV, i: int)
    requires
        0 <= i < net.ibrs.len(),
        clear(net.untyped, site_path("PowerElectronicsConnection"@), net.ibrs[i].name),
        forall|j: int|
            i < j < net.ibrs.len() ==> (#[trigger] net.ibrs[j]).name != net.ibrs[i].name,
        collect_of(ravens_document(m, net).1).len() <= usize::MAX,
    ensures
        ravens_value(m, JsonV::Obj(ravens_document(m, net).1)) matches Ok(back) ==> exists|k: int|
            0 <= k < back.ibrs.len() && comes_of_inverter(
                m,
                #[trigger] back.ibrs[k],
                net.ibrs[i],
            ),
{
    let root = ravens_document(m, net).1;
    let doc = collect_of(root);
    let e = net.ibrs[i];
    let kind = "PowerElectronicsConnection"@;
    lemma_inverter_tables(m, net, i);
    let o = get_of(written_tables(m, net).electronics, e.name)->0->Obj_0;
    let t = written_tables(m, net);
    lemma_some_entries(t.electronics, e.name);
    lemma_site_places(t);
    lemma_site_found(m, net, "PowerElectronicsConnection"@, t.electronics, e.name, JsonV::Obj(o));
    let at = lemma_typed_object_is_collected(root, site_path("PowerElectronicsConnection"@), e.name, o, kind);
    let j = lemma_kind_holds(doc, Seq::empty(), kind, doc.len(), at);
    let ids = sorted_kind(doc, "PowerElectronicsConnection"@);
    let g = stages(m, doc);
    let k = lemma_inverter_pushed(m, doc, g.driven, ids, j, e);
    lemma_nothing_is_taken_back(m, doc);
    assert(g.inverted.net.ibrs == electronics_n(m, doc, g.driven, ids, ids.len()).net.ibrs);
    assert(run_of(m, doc).net.ibrs[k] == g.inverted.net.ibrs[k]);
    if let Ok(back) = ravens_value(m, JsonV::Obj(root)) {
        assert(comes_of_inverter(m, back.ibrs[k], e));
    }
}

// ---- sources ---------------------------------------------------------------

/// The magnitude that is written of a source: that of its first phase, between
/// phases.
pub open spec fn source_magnitude(m: Sem, e: VoltageSourceV) -> Bits {
    let places = hot_places_n(e.terminal_map, e.terminal_map.len());
    multiple_of(m, first_hot(e.v_magnitude, places), chord_of(m, places))
}

/// The angle that is written of a source: that of its first phase.
pub open spec fn source_angle(m: Sem, e: VoltageSourceV) -> Bits {
    wrapped_of(m, first_hot(e.v_angle, hot_places_n(e.terminal_map, e.terminal_map.len())))
}

/// What a source object says.
pub open spec fn says_source(m: Sem, o: Entries, e: VoltageSourceV) -> bool {
    &&& says_site(o, "EnergySource"@, e.bus, hot_letters_of(e.terminal_map))
    &&& says_id(o, "EnergySource"@, e.name, e.extras)
    &&& tells(m, o, "EnergySource.voltageMagnitude"@, source_magnitude(m, e))
    &&& tells(m, o, "EnergySource.voltageAngle"@, source_angle(m, e))
}

#[verifier::rlimit(40)]
pub proof fn lemma_source_says(w: WriterV, m: Sem, e: VoltageSourceV)
    ensures
        source_json(w, m, e).1 matches JsonV::Obj(o) && says_source(m, o, e),
{
    broadcast use lemma_get_put;

    lemma_identity_keys();
    lemma_equipment_props();
    reveal_strlit("EnergySource.nominalVoltage");
    reveal_strlit("EnergySource.voltageMagnitude");
    reveal_strlit("EnergySource.voltageAngle");
    reveal_strlit("EnergySource.r");
    reveal_strlit("EnergySource.x");
    reveal_strlit("EnergySource.r0");
    reveal_strlit("EnergySource.x0");
    assert("EnergySource.nominalVoltage"@.len() == 27);
    assert("EnergySource.voltageMagnitude"@.len() == 29);
    assert("EnergySource.voltageAngle"@.len() == 25);
    assert("EnergySource.r"@.len() == 14);
    assert("EnergySource.x"@.len() == 14);
    assert("EnergySource.r0"@.len() == 15);
    assert("EnergySource.x0"@.len() == 15);
    assert("EnergySource.voltageMagnitude"@[0] == 'E' && "ConductingEquipment.Terminals"@[0] == 'C');
    assert("EnergySource.r"@[13] == 'r' && "EnergySource.x"@[13] == 'x');
    assert("EnergySource.r0"@[13] == 'r' && "EnergySource.x0"@[13] == 'x');
    reveal(source_json);
    reveal(WriterV::num);
    reveal(num_at);
    reveal(obj_at);
    lemma_identified_again("EnergySource"@, e.name, extras_mrid_of(e.extras));
    reveal(WriterV::put_base);
    lemma_identified(
        "EnergySource"@,
        e.name,
        extras_mrid_of(e.extras),
        "ConductingEquipment.Terminals"@,
    );
    let o = source_json(w, m, e).1->Obj_0;
    lemma_site(o, "EnergySource"@, e.name, e.bus, hot_code_of(e.terminal_map));
    lemma_hot_code_reads_back(e.terminal_map);
}

proof fn lemma_source_table(w: WriterV, m: Sem, s: Seq<VoltageSourceV>, n: nat, i: int)
    requires
        0 <= i < n <= s.len(),
        forall|j: int| i < j < s.len() ==> (#[trigger] s[j]).name != s[i].name,
    ensures
        ({
            let e = s[i];
            get_of(sources_json(w, m, s, n).1, e.name) matches Some(JsonV::Obj(o)) && says_source(
                m,
                o,
                e,
            )
        }),
    decreases n,
{
    broadcast use lemma_get_put;

    let before = sources_json(w, m, s, (n - 1) as nat);
    if i == n - 1 {
        lemma_source_says(before.0, m, s[i]);
    } else {
        lemma_source_table(w, m, s, (n - 1) as nat, i);
        assert(s[n - 1].name != s[i].name);
    }
}

proof fn lemma_source_tables(m: Sem, net: DistNetworkV, i: int)
    requires
        0 <= i < net.sources.len(),
        forall|j: int|
            i < j < net.sources.len() ==> (#[trigger] net.sources[j]).name != net.sources[i].name,
    ensures
        ({
            let e = net.sources[i];
            get_of(written_tables(m, net).sources, e.name) matches Some(JsonV::Obj(o))
                && says_source(m, o, e)
        }),
{
    reveal(tables_of);
    let w = unrepresented(fresh_writer(bases_of(m, net)), m, net);
    let (w, _t0) = linecodes_json(w, m, net.linecodes, net.linecodes.len());
    let (w, _t1) = lines_json(w, m, net, net.lines.len());
    let (w, _t2) = switches_json(w, m, net.switches, net.switches.len());
    let (w, _t3) = loads_json(w, m, net, net.loads.len());
    let (w, _t4) = shunts_json(w, m, net.shunts, net.shunts.len());
    let (w, _t5) = machines_json(w, m, net.generators, net.generators.len());
    let (w, _t6) = all_electronics_json(w, m, net.ibrs, net.ibrs.len());
    lemma_source_table(w, m, net.sources, net.sources.len(), i);
}

/// A source that comes back of a source.
pub open spec fn comes_of_source(m: Sem, back: VoltageSourceV, e: VoltageSourceV) -> bool {
    &&& back.name == e.name
    &&& back.bus == e.bus
    &&& comes_of_id(back.extras, "EnergySource"@, e.name, e.extras)
    &&& hot_wires(e.terminal_map).len() > 0 ==> {
        let phases = hot_wires(e.terminal_map).len();
        let v = source_magnitude(m, e);
        let angle = source_angle(m, e);
        &&& back.terminal_map == with_ground(e.terminal_map)
        &&& told(m, v) ==> back.v_magnitude == source_volts_of(m, v, phases)
        &&& told(m, angle) ==> back.v_angle == source_angles_of(m, angle, phases)
    }
}

#[verifier::rlimit(40)]
pub proof fn lemma_source_step(m: Sem, doc: Seq<ObjV>, st: StateV, o: ObjV, e: VoltageSourceV)
    requires
        o.name == e.name,
        says_source(m, o.props, e),
    ensures
        ({
            let all = source_step(m, doc, st, o).net.sources;
            all.len() > 0 && comes_of_source(m, all[all.len() - 1], e)
        }),
{
    broadcast use lemma_get_put;

    lemma_hot_wires_read_back(e.terminal_map);
    reveal_strlit("ravens_mrid");
    assert("ravens_mrid"@.len() == 11);
    reveal_strlit("basekv");
    assert("basekv"@.len() == 6);
    reveal_strlit("pu");
    assert("pu"@.len() == 2);
    reveal_strlit("angle");
    assert("angle"@.len() == 5);
    reveal_strlit("r1");
    assert("r1"@.len() == 2);
    reveal_strlit("x1");
    assert("x1"@.len() == 2);
    reveal_strlit("r0");
    assert("r0"@.len() == 2);
    reveal_strlit("x0");
    assert("x0"@.len() == 2);
    lemma_extras_hold_id(
        o.props,
        written_id("EnergySource"@, e.name, extras_mrid_of(e.extras)),
    );
    reveal(source_extras_of);
}

proof fn lemma_source_pushed(
    m: Sem,
    doc: Seq<ObjV>,
    st: StateV,
    ids: Seq<usize>,
    j: int,
    e: VoltageSourceV,
) -> (k: int)
    requires
        0 <= j < ids.len(),
        doc[ids[j] as int].name == e.name,
        says_source(m, doc[ids[j] as int].props, e),
    ensures
        0 <= k < sources_n(m, doc, st, ids, ids.len()).net.sources.len(),
        comes_of_source(m, sources_n(m, doc, st, ids, ids.len()).net.sources[k], e),
{
    let before = sources_n(m, doc, st, ids, j as nat);
    let after = sources_n(m, doc, st, ids, (j + 1) as nat).net.sources;
    lemma_source_step(m, doc, before, doc[ids[j] as int], e);
    lemma_sources_n_grows(m, doc, st, ids, (j + 1) as nat, ids.len());
    let k = after.len() - 1;
    assert(sources_n(m, doc, st, ids, ids.len()).net.sources[k] == after[k]);
    k
}

/// No source is lost: a network that is read of a written document has, for
/// every source of the network that was written whose name is its own, a
/// source of that name and identifier at the same bus, on its phases and the
/// neutral, balanced, with the magnitude and the angle of its first phase.
#[verifier::rlimit(40)]
pub proof fn lemma_sources_survive(m: Sem, net: DistNetworkV, i: int)
    requires
        0 <= i < net.sources.len(),
        clear(net.untyped, source_path(), net.sources[i].name),
        forall|j: int|
            i < j < net.sources.len() ==> (#[trigger] net.sources[j]).name != net.sources[i].name,
        collect_of(ravens_document(m, net).1).len() <= usize::MAX,
    ensures
        ravens_value(m, JsonV::Obj(ravens_document(m, net).1)) matches Ok(back) ==> exists|k: int|
            0 <= k < back.sources.len() && comes_of_source(
                m,
                #[trigger] back.sources[k],
                net.sources[i],
            ),
{
    let root = ravens_document(m, net).1;
    let doc = collect_of(root);
    let e = net.sources[i];
    let kind = "EnergySource"@;
    lemma_source_tables(m, net, i);
    let o = get_of(written_tables(m, net).sources, e.name)->0->Obj_0;
    lemma_source_found(m, net, e.name, JsonV::Obj(o));
    let at = lemma_typed_object_is_collected(root, source_path(), e.name, o, kind);
    let j = lemma_kind_holds(doc, Seq::empty(), kind, doc.len(), at);
    let ids = sorted_kind(doc, "EnergySource"@);
    let g = stages(m, doc);
    let k = lemma_source_pushed(m, doc, g.inverted, ids, j, e);
    lemma_nothing_is_taken_back(m, doc);
    assert(g.fed.net.sources == sources_n(m, doc, g.inverted, ids, ids.len()).net.sources);
    assert(run_of(m, doc).net.sources[k] == g.fed.net.sources[k]);
    if let Ok(back) = ravens_value(m, JsonV::Obj(root)) {
        assert(comes_of_source(m, back.sources[k], e));
    }
}

} // verus!
