//! Shunts that are read and written again.

use vstd::prelude::*;

use crate::json::{Entries, JsonV};
use crate::math::{Bits, Sem, ONE, THOUSAND};
use crate::model::{entry_of, DistBusV, DistShuntV};
use crate::order::get_of;
use crate::ravens::accept::{even, group_even, lemma_shunts_mild};
use crate::ravens::doc::{num_at, sorted_kind, str_at, suffix_at, ObjV};
use crate::ravens::emit::{extra_num, extras_mrid_of, identified_of, WriterV};
use crate::ravens::keeps::{group_keeps, group_parts};
use crate::ravens::lines::mrid_extras;
use crate::ravens::loads::{shunt_extras_of, shunt_step, shunts_n};
use crate::ravens::only::only_in;
use crate::ravens::plain::{lemma_ground_declared, lemma_use_declared, lemma_use_plain, plainly};
use crate::ravens::read::declared;
use crate::ravens::scale::{thousands_of, wye_volts_of};
use crate::ravens::stable::{lemma_one_table, lemma_table_entry, named_in, table_n, table_of};
use crate::ravens::state::StateV;
use crate::ravens::survive::{
    lemma_get_none, lemma_get_put, lemma_identified_again, lemma_identity_keys, lemma_undotted,
    told, written_id,
};
use crate::ravens::survive_models::lemma_response_stands_alone;
use crate::ravens::survive_places::lemma_kind_only;
use crate::ravens::survive_sites::{
    coded_wires, comes_of_shunt, lemma_full_code_reads_back, lemma_shunt_says, lemma_shunt_step,
};
use crate::ravens::write_machines::{shunt_delta, shunt_json, shunt_volts, shunts_json};

verus! {

/// The volts of a shunt of some kilovolts.
pub open spec fn bank_volts(m: Sem, kv: Bits, delta: bool, n: nat) -> Bits {
    if !delta && n >= 2 {
        wye_volts_of(m, kv)
    } else {
        thousands_of(m, kv)
    }
}

/// The kilovolts that are read of volts.
pub open spec fn bank_kilovolts(m: Sem, u: Bits, delta: bool, n: nat) -> Bits {
    if !delta && n >= 2 {
        m.over(m.times(u, m.root3()), THOUSAND)
    } else {
        m.over(u, THOUSAND)
    }
}

/// A shunt can be written again: each of its terminals is a phase or the neutral,
/// and its numbers come back from their numerals and from being read and written.
pub open spec fn shunt_kept(w: WriterV, m: Sem, e: DistShuntV) -> bool {
    let n = e.terminal_map.len();
    let delta = shunt_delta(e.extras);
    let b = entry_of(e.b, 0, 0);
    let g = entry_of(e.g, 0, 0);
    &&& n > 0
    &&& coded_wires(e.terminal_map) == e.terminal_map
    &&& told(m, ONE)
    &&& told(m, b)
    &&& told(m, g)
    &&& m.times(b, ONE) == b
    &&& m.times(g, ONE) == g
    &&& shunt_volts(w, m, e) matches Some(u) ==> {
        &&& told(m, u)
        &&& told(m, bank_kilovolts(m, u, delta, n))
        &&& bank_volts(m, bank_kilovolts(m, u, delta, n), delta, n) == u
    }
}

/// What the reader makes of an object of a shunt.
pub open spec fn shunt_read(m: Sem, doc: Seq<ObjV>, st: StateV, o: ObjV) -> DistShuntV {
    shunt_step(m, doc, st, o).net.shunts.last()
}

/// What a shunt object says of its volts and of its connection.
#[verifier::rlimit(60)]
proof fn lemma_bank_says(w: WriterV, m: Sem, e: DistShuntV)
    requires
        shunt_kept(w, m, e),
    ensures
        shunt_json(w, m, e).1 matches JsonV::Obj(o) && {
            &&& num_at(m, o, "ShuntCompensator.nomU"@) == shunt_volts(w, m, e)
            &&& (suffix_at(o, "ShuntCompensator.phaseConnection"@) == Some("D"@)) == shunt_delta(
                e.extras,
            )
        },
{
    broadcast use {lemma_get_put, group_even};

    lemma_identity_keys();
    lemma_get_none("ShuntCompensator.nomU"@);
    assert("IdentifiedObject.mRID"@[0] == 'I' && "IdentifiedObject.name"@[0] == 'I') by {
        reveal_strlit("IdentifiedObject.mRID");
        reveal_strlit("IdentifiedObject.name");
    }
    reveal(identified_of);
    reveal(WriterV::base_of);
    reveal_strlit("ShuntCompensator.nomU");
    reveal_strlit("LinearShuntCompensator.bPerSection");
    reveal_strlit("LinearShuntCompensator.gPerSection");
    reveal_strlit("ShuntCompensator.phaseConnection");
    reveal_strlit("LinearShuntCompensator.b0PerSection");
    reveal_strlit("LinearShuntCompensator.g0PerSection");
    reveal_strlit("ShuntCompensator.normalSections");
    reveal_strlit("ShuntCompensator.maximumSections");
    reveal_strlit("ShuntCompensator.sections");
    reveal_strlit("Equipment.inService");
    reveal_strlit("ConductingEquipment.BaseVoltage");
    reveal_strlit("ConductingEquipment.Terminals");
    assert("ShuntCompensator.nomU"@.len() == 21 && "ShuntCompensator.nomU"@[0] == 'S');
    assert("LinearShuntCompensator.bPerSection"@.len() == 34);
    assert("LinearShuntCompensator.gPerSection"@.len() == 34);
    assert("ShuntCompensator.phaseConnection"@.len() == 32);
    assert("ShuntCompensator.phaseConnection"@[17] == 'p');
    assert("LinearShuntCompensator.b0PerSection"@.len() == 35);
    assert("LinearShuntCompensator.g0PerSection"@.len() == 35);
    assert("ShuntCompensator.normalSections"@.len() == 31);
    assert("ShuntCompensator.maximumSections"@.len() == 32);
    assert("ShuntCompensator.maximumSections"@[17] == 'm');
    assert("ShuntCompensator.sections"@.len() == 25);
    assert("Equipment.inService"@.len() == 19);
    assert("ConductingEquipment.BaseVoltage"@.len() == 31);
    assert("ConductingEquipment.Terminals"@.len() == 29);
    reveal(shunt_json);
    reveal(shunt_volts);
    reveal(WriterV::num);
    reveal(WriterV::put_base);
    reveal(num_at);
    reveal(suffix_at);
    reveal(str_at);
    reveal_strlit("PhaseShuntConnectionKind.");
    reveal_strlit("D");
    reveal_strlit("Y");
    let delta = shunt_delta(e.extras);
    let kind = "PhaseShuntConnectionKind."@ + if delta {
        "D"@
    } else {
        "Y"@
    };
    let at = "PhaseShuntConnectionKind."@.len() as int;
    assert(kind[at - 1] == '.');
    assert(kind.len() == at + 1);
    assert(kind[at] != '.');
    lemma_undotted(kind, at, kind.len() as int);
    assert(kind.subrange(at, kind.len() as int) =~= if delta {
        "D"@
    } else {
        "Y"@
    });
    assert("D"@[0] == 'D' && "Y"@[0] == 'Y');
}

/// What is noted of a shunt that is read.
#[verifier::rlimit(40)]
proof fn lemma_bank_notes(m: Sem, props: Entries, b: Bits, n: nat, delta: bool)
    requires
        num_at(m, props, "ShuntCompensator.nomU"@) matches Some(u) ==> told(
            m,
            bank_kilovolts(m, u, delta, n),
        ),
    ensures
        ({
            let x = shunt_extras_of(m, props, b, n, delta);
            &&& extra_num(m, x, "kv"@) == match num_at(m, props, "ShuntCompensator.nomU"@) {
                Some(u) => Some(bank_kilovolts(m, u, delta, n)),
                None => None,
            }
            &&& shunt_delta(x) == delta
        }),
{
    broadcast use lemma_get_put;

    reveal(shunt_extras_of);
    reveal(mrid_extras);
    reveal(extra_num);
    reveal_strlit("ravens_mrid");
    reveal_strlit("kv");
    reveal_strlit("phases");
    reveal_strlit("kvar");
    reveal_strlit("conn");
    assert("ravens_mrid"@.len() == 11 && "kv"@.len() == 2 && "phases"@.len() == 6);
    assert("kvar"@.len() == 4 && "kvar"@[0] == 'k');
    assert("conn"@.len() == 4 && "conn"@[0] == 'c');
    lemma_get_none("conn"@);
    lemma_get_none("kv"@);
}

/// A shunt object is stable: writing what the reader makes of a written shunt
/// gives the same object, where the base voltage of its bus is the same.
#[verifier::rlimit(60)]
pub proof fn lemma_shunt_object_is_stable(
    w: WriterV,
    v: WriterV,
    m: Sem,
    e: DistShuntV,
    doc: Seq<ObjV>,
    st: StateV,
    o: ObjV,
)
    requires
        o.name == e.name,
        shunt_json(w, m, e).1 == JsonV::Obj(o.props),
        shunt_kept(w, m, e),
        v.base_of(e.bus) == w.base_of(e.bus),
    ensures
        shunt_json(v, m, shunt_read(m, doc, st, o)).1 == JsonV::Obj(o.props),
        comes_of_shunt(m, shunt_read(m, doc, st, o), e),
{
    let back = shunt_read(m, doc, st, o);
    let kind = "LinearShuntCompensator"@;
    let delta = shunt_delta(e.extras);
    let n = e.terminal_map.len();
    lemma_shunt_says(w, m, e);
    lemma_bank_says(w, m, e);
    lemma_shunt_step(m, doc, st, o, e);
    lemma_full_code_reads_back(e.terminal_map);
    let imported = extras_mrid_of(e.extras);
    lemma_identified_again(kind, e.name, imported);
    assert(extras_mrid_of(back.extras) == Some(written_id(kind, e.name, imported)));
    let u = shunt_volts(w, m, e);
    let kv = match u {
        Some(u) => Some(bank_kilovolts(m, u, delta, n)),
        None => None,
    };
    assert forall|b: Bits| extra_num(m, #[trigger] shunt_extras_of(m, o.props, b, n, delta), "kv"@)
        == kv && shunt_delta(shunt_extras_of(m, o.props, b, n, delta)) == delta by {
        lemma_bank_notes(m, o.props, b, n, delta);
    }
    assert(back.terminal_map == e.terminal_map);
    assert(exists|b: Bits| back.extras == #[trigger] shunt_extras_of(m, o.props, b, n, delta));
    assert(entry_of(back.b, 0, 0) == entry_of(e.b, 0, 0));
    assert(entry_of(back.g, 0, 0) == entry_of(e.g, 0, 0));
    assert(shunt_volts(v, m, back) == u) by {
        reveal(shunt_volts);
    }
    lemma_shunt_same(w, v, m, e, back);
}

/// Shunts of which the same values are written.
#[verifier::rlimit(60)]
proof fn lemma_shunt_same(w: WriterV, v: WriterV, m: Sem, a: DistShuntV, b: DistShuntV)
    requires
        a.name == b.name,
        a.bus == b.bus,
        identified_of("LinearShuntCompensator"@, a.name, extras_mrid_of(a.extras))
            == identified_of("LinearShuntCompensator"@, b.name, extras_mrid_of(b.extras)),
        a.terminal_map == b.terminal_map,
        entry_of(a.b, 0, 0) == entry_of(b.b, 0, 0),
        entry_of(a.g, 0, 0) == entry_of(b.g, 0, 0),
        shunt_delta(a.extras) == shunt_delta(b.extras),
        shunt_volts(w, m, a) == shunt_volts(v, m, b),
        v.base_of(a.bus) == w.base_of(a.bus),
    ensures
        shunt_json(w, m, a).1 == shunt_json(v, m, b).1,
{
    broadcast use group_even;

    reveal(WriterV::base_of);
    reveal(shunt_json);
    reveal(shunt_volts);
    reveal(WriterV::num);
    reveal(WriterV::put_base);
}

// ---- reading ---------------------------------------------------------------

/// A shunt is read plainly.
#[verifier::rlimit(40)]
pub proof fn lemma_shunt_plain(
    w: WriterV,
    m: Sem,
    e: DistShuntV,
    doc: Seq<ObjV>,
    st: StateV,
    o: ObjV,
    buses: Seq<DistBusV>,
)
    requires
        o.name == e.name,
        shunt_json(w, m, e).1 == JsonV::Obj(o.props),
        shunt_kept(w, m, e),
        declared(buses, e.bus),
    ensures
        plainly(st, shunt_step(m, doc, st, o), buses),
{
    broadcast use {lemma_use_declared, lemma_ground_declared, lemma_use_plain};

    lemma_shunt_says(w, m, e);
    lemma_full_code_reads_back(e.terminal_map);
    reveal(StateV::defaulted);
    reveal(StateV::warn);
    reveal(StateV::ground_node);
}

/// Writers that know the same bases keep the same shunts.
pub proof fn lemma_kept_with(w: WriterV, v: WriterV, m: Sem, e: DistShuntV)
    requires
        w.bases == v.bases,
    ensures
        shunt_kept(w, m, e) == shunt_kept(v, m, e),
{
    reveal(shunt_volts);
    reveal(WriterV::base_of);
}

// ---- the table -------------------------------------------------------------

/// The shunts as they are written, by name.
pub open spec fn shunt_pairs(w: WriterV, m: Sem, s: Seq<DistShuntV>) -> Entries {
    Seq::new(
        s.len(),
        |i: int| (s[i].name, shunt_json(shunts_json(w, m, s, i as nat).0, m, s[i]).1),
    )
}

pub proof fn lemma_shunt_pairs(w: WriterV, m: Sem, s: Seq<DistShuntV>, n: nat)
    requires
        n <= s.len(),
    ensures
        shunts_json(w, m, s, n).1 == table_n(shunt_pairs(w, m, s), n),
        even(w, shunts_json(w, m, s, n).0),
    decreases n,
{
    lemma_response_stands_alone();
    lemma_shunts_mild("LoadResponseCharacteristic"@, w, m, s, n);
    if n > 0 {
        lemma_shunt_pairs(w, m, s, (n - 1) as nat);
    }
}

/// An entry of a table of shunts is one of the shunts.
pub proof fn lemma_shunt_entry(w: WriterV, m: Sem, s: Seq<DistShuntV>, o: ObjV) -> (r: (
    int,
    WriterV,
))
    requires
        get_of(shunts_json(w, m, s, s.len()).1, o.name) == Some(JsonV::Obj(o.props)),
    ensures
        0 <= r.0 < s.len(),
        s[r.0].name == o.name,
        shunt_json(r.1, m, s[r.0]).1 == JsonV::Obj(o.props),
        r.1.bases == w.bases,
{
    lemma_shunt_pairs(w, m, s, s.len());
    let i = lemma_table_entry(shunt_pairs(w, m, s), s.len(), o.name);
    lemma_shunt_pairs(w, m, s, i as nat);
    (i, shunts_json(w, m, s, i as nat).0)
}

pub proof fn lemma_shunt_origin(
    m: Sem,
    doc: Seq<ObjV>,
    st: StateV,
    ids: Seq<usize>,
    n: nat,
    k: int,
) -> (i:
    int)
    requires
        st.net.shunts.len() == 0,
        0 <= k < shunts_n(m, doc, st, ids, n).net.shunts.len(),
    ensures
        0 <= i < n,
        shunts_n(m, doc, st, ids, n).net.shunts[k] == shunt_read(
            m,
            doc,
            shunts_n(m, doc, st, ids, i as nat),
            doc[ids[i] as int],
        ),
    decreases n,
{
    broadcast use {group_keeps, group_parts};

    let before = shunts_n(m, doc, st, ids, (n - 1) as nat);
    if k < before.net.shunts.len() {
        let i = lemma_shunt_origin(m, doc, st, ids, (n - 1) as nat, k);
        i
    } else {
        n - 1
    }
}

/// The table of shunts is written the same again.
#[verifier::rlimit(40)]
pub proof fn lemma_shunts_written_again(
    w: WriterV,
    v: WriterV,
    m: Sem,
    a: Seq<DistShuntV>,
    b: Seq<DistShuntV>,
    doc: Seq<ObjV>,
    st: StateV,
)
    requires
        doc.len() <= usize::MAX,
        st.net.shunts.len() == 0,
        v.bases == w.bases,
        only_in("LinearShuntCompensator"@, shunts_json(w, m, a, a.len()).1, doc),
        ({
            let ids = sorted_kind(doc, "LinearShuntCompensator"@);
            b == shunts_n(m, doc, st, ids, ids.len()).net.shunts
        }),
        forall|i: int| 0 <= i < a.len() ==> shunt_kept(w, m, #[trigger] a[i]),
        forall|i: int|
            0 <= i < a.len() ==> exists|k: int|
                0 <= k < b.len() && comes_of_shunt(m, #[trigger] b[k], #[trigger] a[i]),
    ensures
        shunts_json(v, m, b, b.len()).1 == shunts_json(w, m, a, a.len()).1,
{
    let pa = shunt_pairs(w, m, a);
    let pb = shunt_pairs(v, m, b);
    let kind = "LinearShuntCompensator"@;
    let ids = sorted_kind(doc, kind);
    lemma_shunt_pairs(w, m, a, a.len());
    lemma_shunt_pairs(v, m, b, b.len());
    reveal_strlit("LinearShuntCompensator");
    reveal_strlit("TransformerTankInfo");
    assert("LinearShuntCompensator"@.len() == 22);
    assert("TransformerTankInfo"@.len() == 19);
    assert forall|j: int| 0 <= j < pb.len() implies get_of(table_of(pa), (#[trigger] pb[j]).0)
        == Some(pb[j].1) by {
        let at = lemma_shunt_origin(m, doc, st, ids, ids.len(), j);
        let now = shunts_n(m, doc, st, ids, at as nat);
        let o = doc[ids[at] as int];
        lemma_kind_only(doc, Seq::empty(), kind, doc.len(), at);
        assert(get_of(table_of(pa), o.name) == Some(JsonV::Obj(o.props)));
        let i = lemma_table_entry(pa, pa.len(), o.name);
        assert(pa[i].1 == JsonV::Obj(o.props));
        assert(shunt_kept(w, m, a[i]));
        lemma_shunt_pairs(w, m, a, i as nat);
        lemma_shunt_pairs(v, m, b, j as nat);
        lemma_kept_with(w, shunts_json(w, m, a, i as nat).0, m, a[i]);
        reveal(WriterV::base_of);
        lemma_shunt_object_is_stable(
            shunts_json(w, m, a, i as nat).0,
            shunts_json(v, m, b, j as nat).0,
            m,
            a[i],
            doc,
            now,
            o,
        );
    }
    assert forall|i: int| 0 <= i < pa.len() implies named_in(pb, (#[trigger] pa[i]).0) by {
        let e = a[i];
        let k = choose|k: int| 0 <= k < b.len() && comes_of_shunt(m, #[trigger] b[k], e);
        assert(pb[k].0 == pa[i].0);
    }
    lemma_one_table(pa, pb);
}

} // verus!
