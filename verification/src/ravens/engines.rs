//! Generators that are read and written again.

use vstd::prelude::*;

use crate::json::{Entries, JsonV};
use crate::math::{Bits, Sem, THOUSAND};
use crate::model::{DistBusV, DistGeneratorV};
use crate::order::get_of;
use crate::ravens::accept::{even, group_even, lemma_machines_mild};
use crate::ravens::doc::{num_at, of_kind_n, ObjV};
use crate::ravens::emit::{extra_num, extras_mrid_of, hot_code_of, identified_of, sum_of, WriterV};
use crate::ravens::feeds::lemma_ground_aside;
use crate::ravens::keeps::{group_keeps, group_parts};
use crate::ravens::lines::mrid_extras;
use crate::ravens::machines::{
    machine_extras_of, machine_ids, machine_step, machines_n, per_phase_of,
};
use crate::ravens::only::only_in;
use crate::ravens::plain::{lemma_use_declared, lemma_use_plain, plainly};
use crate::ravens::read::declared;
use crate::ravens::scale::thousands_of;
use crate::ravens::stable::{
    lemma_none_more, lemma_one_table, lemma_table_entry, named_in, table_n, table_of,
};
use crate::ravens::state::StateV;
use crate::ravens::survive::{
    hot_wires, lemma_get_none, lemma_get_put, lemma_hot_wires_read_back, lemma_identified,
    lemma_identified_again, lemma_identity_keys, told, written_id,
};
use crate::ravens::survive_models::lemma_response_stands_alone;
use crate::ravens::survive_places::lemma_kind_only;
use crate::ravens::survive_sites::{comes_of_machine, lemma_machine_says, lemma_machine_step};
use crate::ravens::write_machines::{extra_thousands, machine_json, machines_json, total_limit};

verus! {

/// A total, where there is one, comes back from its numeral and from being shared
/// among phases.
pub open spec fn total_kept(m: Sem, x: Option<Bits>, n: nat) -> bool {
    x matches Some(v) ==> told(m, v) && sum_of(m, per_phase_of(m, v, n)) == v
}

/// A rating, where there is one, comes back from its numeral and from thousands.
pub open spec fn rating_kept(m: Sem, x: Option<Bits>) -> bool {
    x matches Some(v) ==> {
        &&& told(m, v)
        &&& told(m, m.over(v, THOUSAND))
        &&& thousands_of(m, m.over(v, THOUSAND)) == v
    }
}

/// A generator can be written again: it is on some phase, and its totals and its
/// ratings come back.
pub open spec fn machine_kept(m: Sem, e: DistGeneratorV) -> bool {
    let n = hot_wires(e.terminal_map).len();
    &&& 0 < n < usize::MAX
    &&& total_kept(m, Some(sum_of(m, e.p_nom)), n)
    &&& total_kept(m, Some(sum_of(m, e.q_nom)), n)
    &&& total_kept(m, total_limit(m, e.p_max), n)
    &&& total_kept(m, total_limit(m, e.p_min), n)
    &&& total_kept(m, total_limit(m, e.q_max), n)
    &&& total_kept(m, total_limit(m, e.q_min), n)
    &&& rating_kept(m, extra_thousands(m, e.extras, "kva"@))
    &&& rating_kept(m, extra_thousands(m, e.extras, "kv"@))
}

/// What the reader makes of an object of a generator.
pub open spec fn machine_read(m: Sem, doc: Seq<ObjV>, st: StateV, o: ObjV) -> DistGeneratorV {
    machine_step(m, doc, st, o).net.generators.last()
}

/// What a generator object says of its ratings.
#[verifier::rlimit(60)]
proof fn lemma_ratings(w: WriterV, m: Sem, e: DistGeneratorV)
    requires
        machine_kept(m, e),
    ensures
        machine_json(w, m, e).1 matches JsonV::Obj(o) && {
            &&& num_at(m, o, "RotatingMachine.ratedS"@) == extra_thousands(m, e.extras, "kva"@)
            &&& num_at(m, o, "RotatingMachine.ratedU"@) == extra_thousands(m, e.extras, "kv"@)
        },
{
    broadcast use lemma_get_put;

    lemma_identity_keys();
    reveal_strlit("RotatingMachine.p");
    reveal_strlit("RotatingMachine.q");
    reveal_strlit("RotatingMachine.ratedS");
    reveal_strlit("RotatingMachine.ratedU");
    reveal_strlit("SynchronousMachine.maxQ");
    reveal_strlit("SynchronousMachine.minQ");
    reveal_strlit("RotatingMachine.GeneratingUnit");
    reveal_strlit("Equipment.inService");
    reveal_strlit("ConductingEquipment.BaseVoltage");
    reveal_strlit("ConductingEquipment.Terminals");
    assert("RotatingMachine.p"@.len() == 17);
    assert("RotatingMachine.q"@.len() == 17);
    assert("RotatingMachine.ratedS"@.len() == 22 && "RotatingMachine.ratedS"@[21] == 'S');
    assert("RotatingMachine.ratedU"@.len() == 22 && "RotatingMachine.ratedU"@[21] == 'U');
    assert("SynchronousMachine.maxQ"@.len() == 23);
    assert("SynchronousMachine.minQ"@.len() == 23);
    assert("RotatingMachine.GeneratingUnit"@.len() == 30);
    assert("Equipment.inService"@.len() == 19);
    assert("ConductingEquipment.BaseVoltage"@.len() == 31);
    assert("ConductingEquipment.Terminals"@.len() == 29);
    let imported = extras_mrid_of(e.extras);
    lemma_identified("SynchronousMachine"@, e.name, imported, "RotatingMachine.ratedS"@);
    lemma_identified("SynchronousMachine"@, e.name, imported, "RotatingMachine.ratedU"@);
    reveal(machine_json);
    reveal(WriterV::num);
    reveal(WriterV::put_base);
    reveal(num_at);
}

/// The ratings that the reader notes of a generator come back.
#[verifier::rlimit(40)]
proof fn lemma_machine_notes(m: Sem, props: Entries, n: nat)
    requires
        rating_kept(m, num_at(m, props, "RotatingMachine.ratedS"@)),
        rating_kept(m, num_at(m, props, "RotatingMachine.ratedU"@)),
    ensures
        ({
            let x = machine_extras_of(m, props, n);
            &&& extra_thousands(m, x, "kva"@) == num_at(m, props, "RotatingMachine.ratedS"@)
            &&& extra_thousands(m, x, "kv"@) == num_at(m, props, "RotatingMachine.ratedU"@)
        }),
{
    broadcast use lemma_get_put;

    reveal(machine_extras_of);
    reveal(mrid_extras);
    reveal(extra_num);
    reveal_strlit("ravens_mrid");
    reveal_strlit("kv");
    reveal_strlit("phases");
    reveal_strlit("kva");
    assert("ravens_mrid"@.len() == 11 && "kv"@.len() == 2);
    assert("phases"@.len() == 6 && "kva"@.len() == 3);
    lemma_get_none("kv"@);
    lemma_get_none("kva"@);
}

/// A generator object is stable: writing what the reader makes of a written
/// generator gives the same object, where the base voltage of its bus is the
/// same.
#[verifier::rlimit(60)]
pub proof fn lemma_machine_object_is_stable(
    w: WriterV,
    v: WriterV,
    m: Sem,
    e: DistGeneratorV,
    doc: Seq<ObjV>,
    st: StateV,
    o: ObjV,
)
    requires
        o.name == e.name,
        machine_json(w, m, e).1 == JsonV::Obj(o.props),
        machine_kept(m, e),
        v.base_of(e.bus) == w.base_of(e.bus),
    ensures
        machine_json(v, m, machine_read(m, doc, st, o)).1 == JsonV::Obj(o.props),
        comes_of_machine(m, machine_read(m, doc, st, o), e),
{
    let back = machine_read(m, doc, st, o);
    let kind = "SynchronousMachine"@;
    let n = hot_wires(e.terminal_map).len();
    lemma_machine_says(w, m, e);
    lemma_ratings(w, m, e);
    lemma_machine_step(m, doc, st, o, e);
    lemma_machine_notes(m, o.props, n);
    lemma_ground_aside(e.terminal_map);
    lemma_hot_wires_read_back(e.terminal_map);
    let imported = extras_mrid_of(e.extras);
    lemma_identified_again(kind, e.name, imported);
    assert(extras_mrid_of(back.extras) == Some(written_id(kind, e.name, imported)));
    assert(back.extras == machine_extras_of(m, o.props, n));
    lemma_machine_same(w, v, m, e, back);
}

/// Generators of which the same values are written.
#[verifier::rlimit(60)]
proof fn lemma_machine_same(w: WriterV, v: WriterV, m: Sem, a: DistGeneratorV, b: DistGeneratorV)
    requires
        a.name == b.name,
        a.bus == b.bus,
        identified_of("SynchronousMachine"@, a.name, extras_mrid_of(a.extras)) == identified_of(
            "SynchronousMachine"@,
            b.name,
            extras_mrid_of(b.extras),
        ),
        hot_code_of(a.terminal_map) == hot_code_of(b.terminal_map),
        sum_of(m, a.p_nom) == sum_of(m, b.p_nom),
        sum_of(m, a.q_nom) == sum_of(m, b.q_nom),
        total_limit(m, a.p_max) == total_limit(m, b.p_max),
        total_limit(m, a.p_min) == total_limit(m, b.p_min),
        total_limit(m, a.q_max) == total_limit(m, b.q_max),
        total_limit(m, a.q_min) == total_limit(m, b.q_min),
        extra_thousands(m, a.extras, "kva"@) == extra_thousands(m, b.extras, "kva"@),
        extra_thousands(m, a.extras, "kv"@) == extra_thousands(m, b.extras, "kv"@),
        v.base_of(a.bus) == w.base_of(a.bus),
    ensures
        machine_json(w, m, a).1 == machine_json(v, m, b).1,
{
    broadcast use group_even;

    reveal(WriterV::base_of);
    reveal(machine_json);
    reveal(WriterV::num);
    reveal(WriterV::put_base);
}

// ---- reading ---------------------------------------------------------------

/// A generator is read plainly.
#[verifier::rlimit(40)]
pub proof fn lemma_machine_plain(
    w: WriterV,
    m: Sem,
    e: DistGeneratorV,
    doc: Seq<ObjV>,
    st: StateV,
    o: ObjV,
    buses: Seq<DistBusV>,
)
    requires
        o.name == e.name,
        machine_json(w, m, e).1 == JsonV::Obj(o.props),
        machine_kept(m, e),
        declared(buses, e.bus),
    ensures
        plainly(st, machine_step(m, doc, st, o), buses),
{
    broadcast use {lemma_use_declared, lemma_use_plain};

    lemma_machine_says(w, m, e);
    lemma_hot_wires_read_back(e.terminal_map);
    reveal(StateV::defaulted);
}

/// The objects that are read as generators are those of the table.
pub proof fn lemma_machine_ids(doc: Seq<ObjV>, k: int)
    requires
        doc.len() <= usize::MAX,
        only_in("AsynchronousMachine"@, Entries::empty(), doc),
        0 <= k < machine_ids(doc).len(),
    ensures
        machine_ids(doc)[k] < doc.len(),
        doc[machine_ids(doc)[k] as int].kind == "SynchronousMachine"@,
{
    let s = of_kind_n(doc, Seq::empty(), "SynchronousMachine"@, doc.len());
    lemma_none_more(doc, s, "AsynchronousMachine"@, doc.len());
    lemma_kind_only(doc, Seq::empty(), "SynchronousMachine"@, doc.len(), k);
}

// ---- the table -------------------------------------------------------------

/// The machines as they are written, by name.
pub open spec fn machine_pairs(w: WriterV, m: Sem, s: Seq<DistGeneratorV>) -> Entries {
    Seq::new(
        s.len(),
        |i: int| (s[i].name, machine_json(machines_json(w, m, s, i as nat).0, m, s[i]).1),
    )
}

pub proof fn lemma_machine_pairs(w: WriterV, m: Sem, s: Seq<DistGeneratorV>, n: nat)
    requires
        n <= s.len(),
    ensures
        machines_json(w, m, s, n).1 == table_n(machine_pairs(w, m, s), n),
        even(w, machines_json(w, m, s, n).0),
    decreases n,
{
    lemma_response_stands_alone();
    lemma_machines_mild("LoadResponseCharacteristic"@, w, m, s, n);
    if n > 0 {
        lemma_machine_pairs(w, m, s, (n - 1) as nat);
    }
}

/// An entry of a table of machines is one of the machines.
pub proof fn lemma_machine_entry(w: WriterV, m: Sem, s: Seq<DistGeneratorV>, o: ObjV) -> (r: (
    int,
    WriterV,
))
    requires
        get_of(machines_json(w, m, s, s.len()).1, o.name) == Some(JsonV::Obj(o.props)),
    ensures
        0 <= r.0 < s.len(),
        s[r.0].name == o.name,
        machine_json(r.1, m, s[r.0]).1 == JsonV::Obj(o.props),
{
    lemma_machine_pairs(w, m, s, s.len());
    let i = lemma_table_entry(machine_pairs(w, m, s), s.len(), o.name);
    (i, machines_json(w, m, s, i as nat).0)
}

pub proof fn lemma_machine_origin(
    m: Sem,
    doc: Seq<ObjV>,
    st: StateV,
    ids: Seq<usize>,
    n: nat,
    k: int,
) -> (i:
    int)
    requires
        st.net.generators.len() == 0,
        0 <= k < machines_n(m, doc, st, ids, n).net.generators.len(),
    ensures
        0 <= i < n,
        machines_n(m, doc, st, ids, n).net.generators[k] == machine_read(
            m,
            doc,
            machines_n(m, doc, st, ids, i as nat),
            doc[ids[i] as int],
        ),
    decreases n,
{
    broadcast use {group_keeps, group_parts};

    let before = machines_n(m, doc, st, ids, (n - 1) as nat);
    if k < before.net.generators.len() {
        let i = lemma_machine_origin(m, doc, st, ids, (n - 1) as nat, k);
        i
    } else {
        n - 1
    }
}

/// The table of machines is written the same again.
#[verifier::rlimit(40)]
pub proof fn lemma_machines_written_again(
    w: WriterV,
    v: WriterV,
    m: Sem,
    a: Seq<DistGeneratorV>,
    b: Seq<DistGeneratorV>,
    doc: Seq<ObjV>,
    st: StateV,
)
    requires
        doc.len() <= usize::MAX,
        st.net.generators.len() == 0,
        v.bases == w.bases,
        only_in("SynchronousMachine"@, machines_json(w, m, a, a.len()).1, doc),
        only_in("AsynchronousMachine"@, Entries::empty(), doc),
        b == machines_n(m, doc, st, machine_ids(doc), machine_ids(doc).len()).net.generators,
        forall|i: int| 0 <= i < a.len() ==> machine_kept(m, #[trigger] a[i]),
        forall|i: int|
            0 <= i < a.len() ==> exists|k: int|
                0 <= k < b.len() && comes_of_machine(m, #[trigger] b[k], #[trigger] a[i]),
    ensures
        machines_json(v, m, b, b.len()).1 == machines_json(w, m, a, a.len()).1,
{
    let pa = machine_pairs(w, m, a);
    let pb = machine_pairs(v, m, b);
    let ids = machine_ids(doc);
    lemma_machine_pairs(w, m, a, a.len());
    lemma_machine_pairs(v, m, b, b.len());
    reveal_strlit("SynchronousMachine");
    reveal_strlit("TransformerTankInfo");
    assert("SynchronousMachine"@.len() == 18);
    assert("TransformerTankInfo"@.len() == 19);
    assert forall|j: int| 0 <= j < pb.len() implies get_of(table_of(pa), (#[trigger] pb[j]).0)
        == Some(pb[j].1) by {
        let at = lemma_machine_origin(m, doc, st, ids, ids.len(), j);
        let now = machines_n(m, doc, st, ids, at as nat);
        let o = doc[ids[at] as int];
        lemma_machine_ids(doc, at);
        assert(get_of(table_of(pa), o.name) == Some(JsonV::Obj(o.props)));
        let i = lemma_table_entry(pa, pa.len(), o.name);
        assert(pa[i].1 == JsonV::Obj(o.props));
        assert(machine_kept(m, a[i]));
        lemma_machine_pairs(w, m, a, i as nat);
        lemma_machine_pairs(v, m, b, j as nat);
        reveal(WriterV::base_of);
        lemma_machine_object_is_stable(
            machines_json(w, m, a, i as nat).0,
            machines_json(v, m, b, j as nat).0,
            m,
            a[i],
            doc,
            now,
            o,
        );
    }
    assert forall|i: int| 0 <= i < pa.len() implies named_in(pb, (#[trigger] pa[i]).0) by {
        let e = a[i];
        let k = choose|k: int| 0 <= k < b.len() && comes_of_machine(m, #[trigger] b[k], e);
        assert(pb[k].0 == pa[i].0);
    }
    lemma_one_table(pa, pb);
}

} // verus!
