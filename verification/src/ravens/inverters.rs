//! Inverters that are read and written again.

use vstd::prelude::*;

use crate::json::{Entries, JsonV};
use crate::math::{Bits, Sem};
use crate::model::{DistBusV, DistIbrV, IbrPrimeMover};
use crate::order::get_of;
use crate::ravens::accept::{even, group_even, lemma_inverters_even};
use crate::ravens::doc::{num_at, obj_at, sorted_kind, ObjV};
use crate::ravens::emit::{extra_num, extras_mrid_of, hot_code_of, identified_of, sum_of, WriterV};
use crate::ravens::engines::{rating_kept, total_kept};
use crate::ravens::feeds::{lemma_ground_aside, told_any};
use crate::ravens::keeps::{group_keeps, group_parts};
use crate::ravens::lines::mrid_extras;
use crate::ravens::machines::{
    electronics_n, electronics_step, fault_amps_of, ibr_extras_of, prime_mover_of,
};
use crate::ravens::name::hot_of;
use crate::ravens::only::only_in;
use crate::ravens::plain::{lemma_use_declared, lemma_use_plain, plainly};
use crate::ravens::read::declared;
use crate::ravens::scale::share_of;
use crate::ravens::stable::{lemma_one_table, lemma_table_entry, named_in, table_n, table_of};
use crate::ravens::state::StateV;
use crate::ravens::survive::{
    hot_wires, lemma_get_none, lemma_get_put, lemma_hot_wires_read_back, lemma_identified,
    lemma_identified_again, lemma_identity_keys, written_id,
};
use crate::ravens::survive_places::lemma_kind_only;
use crate::ravens::survive_sites::{comes_of_inverter, lemma_inverter_says, lemma_inverter_step};
use crate::ravens::write_machines::{
    all_electronics_json, electronics_json, extra_thousands, fault_share, total_limit, unit_json,
};

verus! {

/// The rated current of an inverter.
pub open spec fn rated_amps(m: Sem, s: Bits, u: Bits, n: nat) -> Bits {
    if n <= 1 {
        m.over(s, u)
    } else {
        m.over(s, m.times(m.root3(), u))
    }
}

/// An inverter can be written again: each terminal but the neutral is a phase, and
/// its totals, its ratings and its fault current come back.
pub open spec fn inverter_kept(m: Sem, e: DistIbrV) -> bool {
    let n = hot_wires(e.terminal_map).len();
    let s = sum_of(m, e.s_max);
    &&& 0 < n < usize::MAX
    &&& hot_of(e.terminal_map).len() == n
    &&& told_any(m, e.p_avail)
    &&& total_kept(m, Some(s), n)
    &&& total_kept(m, total_limit(m, e.p_max), n)
    &&& total_kept(m, total_limit(m, e.p_min), n)
    &&& total_kept(m, total_limit(m, e.q_max), n)
    &&& total_kept(m, total_limit(m, e.q_min), n)
    &&& rating_kept(m, extra_thousands(m, e.extras, "kvar"@))
    &&& rating_kept(m, extra_thousands(m, e.extras, "kv"@))
    &&& told_any(m, fault_share(m, e))
    &&& (fault_share(m, e), extra_thousands(m, e.extras, "kv"@)) matches (Some(pu), Some(u)) ==> {
        let rated = rated_amps(m, s, u, n);
        share_of(m, m.times(pu, rated), rated) == pu
    }
}

/// What the reader makes of an object of an inverter.
pub open spec fn inverter_read(m: Sem, doc: Seq<ObjV>, st: StateV, o: ObjV) -> DistIbrV {
    electronics_step(m, doc, st, o).net.ibrs.last()
}

/// What a unit of an inverter carries.
pub open spec fn carries_over(u: Entries, e: DistIbrV) -> bool {
    if e.prime_mover == IbrPrimeMover::Battery {
        &&& get_of(u, "BatteryUnit.ratedE"@) == get_of(e.extras, "ravens_rated_e"@)
        &&& get_of(u, "BatteryUnit.storedE"@) == get_of(e.extras, "ravens_stored_e"@)
        &&& get_of(u, "BatteryUnit.BatteryUnitEfficiency"@) == get_of(
            e.extras,
            "ravens_battery_efficiency"@,
        )
    } else {
        true
    }
}

proof fn lemma_unit_keys()
    ensures
        "PowerElectronicsUnit.maxP"@.len() == 25,
        "PowerElectronicsUnit.minP"@.len() == 25,
        "BatteryUnit.ratedE"@.len() == 18,
        "BatteryUnit.storedE"@.len() == 19,
        "BatteryUnit.BatteryUnitEfficiency"@.len() == 33,
{
    reveal_strlit("PowerElectronicsUnit.maxP");
    reveal_strlit("PowerElectronicsUnit.minP");
    reveal_strlit("BatteryUnit.ratedE");
    reveal_strlit("BatteryUnit.storedE");
    reveal_strlit("BatteryUnit.BatteryUnitEfficiency");
}

#[verifier::rlimit(60)]
proof fn lemma_unit_carries(w: WriterV, m: Sem, e: DistIbrV, what: Seq<char>)
    ensures
        unit_json(w, m, e, what).1 matches Some(v) ==> (v matches JsonV::Obj(u) && carries_over(
            u,
            e,
        )),
        even(w, unit_json(w, m, e, what).0),
{
    broadcast use {lemma_get_put, group_even};

    lemma_unit_keys();
    reveal(unit_json);
    let battery = e.name + "_Battery"@;
    lemma_identified("BatteryUnit"@, battery, None, "BatteryUnit.ratedE"@);
    lemma_identified("BatteryUnit"@, battery, None, "BatteryUnit.storedE"@);
    lemma_identified("BatteryUnit"@, battery, None, "BatteryUnit.BatteryUnitEfficiency"@);
}

/// What an inverter object says of its further values.
pub open spec fn says_more(m: Sem, o: Entries, e: DistIbrV) -> bool {
    &&& num_at(m, o, "PowerElectronicsConnection.ratedU"@) == extra_thousands(m, e.extras, "kv"@)
    &&& num_at(m, o, "PowerElectronicsConnection.q"@) == extra_thousands(m, e.extras, "kvar"@)
    &&& num_at(m, o, "PowerElectronicsConnection.ratedS"@) == Some(sum_of(m, e.s_max))
    &&& num_at(m, o, "PowerElectronicsConnection.maxIFault"@) == fault_share(m, e)
    &&& obj_at(o, "PowerElectronicsConnection.PowerElectronicsUnit"@) matches Some(u)
        ==> carries_over(u, e)
}

#[verifier::rlimit(80)]
proof fn lemma_says_more(w: WriterV, m: Sem, e: DistIbrV)
    requires
        inverter_kept(m, e),
    ensures
        electronics_json(w, m, e).1 matches JsonV::Obj(o) && says_more(m, o, e),
{
    broadcast use lemma_get_put;

    lemma_identity_keys();
    reveal_strlit("PowerElectronicsConnection.p");
    reveal_strlit("PowerElectronicsConnection.q");
    reveal_strlit("PowerElectronicsConnection.ratedS");
    reveal_strlit("PowerElectronicsConnection.ratedU");
    reveal_strlit("PowerElectronicsConnection.maxQ");
    reveal_strlit("PowerElectronicsConnection.minQ");
    reveal_strlit("PowerElectronicsConnection.maxIFault");
    reveal_strlit("PowerElectronicsConnection.PowerElectronicsUnit");
    reveal_strlit("Equipment.inService");
    reveal_strlit("ConductingEquipment.BaseVoltage");
    reveal_strlit("ConductingEquipment.Terminals");
    assert("PowerElectronicsConnection.p"@.len() == 28);
    assert("PowerElectronicsConnection.q"@.len() == 28);
    assert("PowerElectronicsConnection.p"@[27] == 'p' && "PowerElectronicsConnection.q"@[27] == 'q');
    assert("PowerElectronicsConnection.ratedS"@.len() == 33);
    assert("PowerElectronicsConnection.ratedU"@.len() == 33);
    assert("PowerElectronicsConnection.ratedS"@[32] == 'S' && "PowerElectronicsConnection.ratedU"@[32] == 'U');
    assert("PowerElectronicsConnection.maxQ"@.len() == 31);
    assert("PowerElectronicsConnection.minQ"@.len() == 31);
    assert("PowerElectronicsConnection.maxIFault"@.len() == 36);
    assert("PowerElectronicsConnection.PowerElectronicsUnit"@.len() == 47);
    assert("Equipment.inService"@.len() == 19);
    assert("ConductingEquipment.BaseVoltage"@.len() == 31);
    assert("ConductingEquipment.Terminals"@.len() == 29);
    let kind = "PowerElectronicsConnection"@;
    let imported = extras_mrid_of(e.extras);
    lemma_identified(kind, e.name, imported, "PowerElectronicsConnection.q"@);
    lemma_identified(kind, e.name, imported, "PowerElectronicsConnection.ratedU"@);
    lemma_identified(kind, e.name, imported, "PowerElectronicsConnection.maxIFault"@);
    lemma_identified(
        kind,
        e.name,
        imported,
        "PowerElectronicsConnection.PowerElectronicsUnit"@,
    );
    let what = "ibr "@ + e.name;
    assert forall|u: WriterV| (#[trigger] unit_json(u, m, e, what).1) matches Some(v) ==> (
    v matches JsonV::Obj(x) && carries_over(x, e)) by {
        lemma_unit_carries(u, m, e, what);
    }
    reveal(electronics_json);
    reveal(WriterV::num);
    reveal(WriterV::put_base);
    reveal(num_at);
    reveal(obj_at);
}

/// What the reader notes of an inverter comes back.
#[verifier::rlimit(60)]
proof fn lemma_inverter_notes(m: Sem, props: Entries, unit: Option<Entries>, e: DistIbrV)
    requires
        rating_kept(m, num_at(m, props, "PowerElectronicsConnection.ratedU"@)),
        rating_kept(m, num_at(m, props, "PowerElectronicsConnection.q"@)),
        unit matches Some(u) ==> carries_over(u, e),
    ensures
        ({
            let x = ibr_extras_of(m, props, unit);
            &&& extra_thousands(m, x, "kv"@) == num_at(
                m,
                props,
                "PowerElectronicsConnection.ratedU"@,
            )
            &&& extra_thousands(m, x, "kvar"@) == num_at(
                m,
                props,
                "PowerElectronicsConnection.q"@,
            )
            &&& unit is Some && e.prime_mover == IbrPrimeMover::Battery ==> {
                &&& get_of(x, "ravens_rated_e"@) == get_of(e.extras, "ravens_rated_e"@)
                &&& get_of(x, "ravens_stored_e"@) == get_of(e.extras, "ravens_stored_e"@)
                &&& get_of(x, "ravens_battery_efficiency"@) == get_of(
                    e.extras,
                    "ravens_battery_efficiency"@,
                )
            }
        }),
{
    broadcast use lemma_get_put;

    reveal(ibr_extras_of);
    reveal(mrid_extras);
    reveal(extra_num);
    reveal_strlit("ravens_mrid");
    reveal_strlit("kv");
    reveal_strlit("kvar");
    reveal_strlit("ravens_rated_e");
    reveal_strlit("ravens_stored_e");
    reveal_strlit("ravens_battery_efficiency");
    assert("ravens_mrid"@.len() == 11 && "kv"@.len() == 2 && "kvar"@.len() == 4);
    assert("ravens_rated_e"@.len() == 14 && "ravens_stored_e"@.len() == 15);
    assert("ravens_battery_efficiency"@.len() == 25);
    lemma_get_none("kv"@);
    lemma_get_none("kvar"@);
    lemma_get_none("ravens_rated_e"@);
    lemma_get_none("ravens_stored_e"@);
    lemma_get_none("ravens_battery_efficiency"@);
}

/// An inverter object is stable: writing what the reader makes of a written
/// inverter gives the same object, where the base voltage of its bus is the same.
#[verifier::rlimit(80)]
pub proof fn lemma_inverter_object_is_stable(
    w: WriterV,
    v: WriterV,
    m: Sem,
    e: DistIbrV,
    doc: Seq<ObjV>,
    st: StateV,
    o: ObjV,
)
    requires
        o.name == e.name,
        electronics_json(w, m, e).1 == JsonV::Obj(o.props),
        inverter_kept(m, e),
        v.base_of(e.bus) == w.base_of(e.bus),
    ensures
        electronics_json(v, m, inverter_read(m, doc, st, o)).1 == JsonV::Obj(o.props),
        comes_of_inverter(m, inverter_read(m, doc, st, o), e),
{
    let back = inverter_read(m, doc, st, o);
    let kind = "PowerElectronicsConnection"@;
    let n = hot_wires(e.terminal_map).len();
    let unit = obj_at(o.props, "PowerElectronicsConnection.PowerElectronicsUnit"@);
    lemma_inverter_says(w, m, e);
    lemma_says_more(w, m, e);
    lemma_inverter_step(m, doc, st, o, e);
    lemma_inverter_notes(m, o.props, unit, e);
    lemma_ground_aside(e.terminal_map);
    lemma_hot_wires_read_back(e.terminal_map);
    let imported = extras_mrid_of(e.extras);
    lemma_identified_again(kind, e.name, imported);
    assert(extras_mrid_of(back.extras) == Some(written_id(kind, e.name, imported)));
    assert(back.extras == ibr_extras_of(m, o.props, unit));
    assert(back.i_max == fault_amps_of(m, o.props, n));
    assert(sum_of(m, back.s_max) == sum_of(m, e.s_max));
    assert(hot_of(back.terminal_map).len() == n);
    assert(fault_share(m, back) == fault_share(m, e)) by {
        reveal(fault_share);
        reveal(fault_amps_of);
    }
    assert(back.p_avail == e.p_avail);
    lemma_inverter_same(w, v, m, e, back);
}

/// Inverters of which the same values are written.
pub open spec fn alike(m: Sem, a: DistIbrV, b: DistIbrV) -> bool {
    &&& a.name == b.name
    &&& a.bus == b.bus
    &&& identified_of("PowerElectronicsConnection"@, a.name, extras_mrid_of(a.extras))
        == identified_of("PowerElectronicsConnection"@, b.name, extras_mrid_of(b.extras))
    &&& hot_code_of(a.terminal_map) == hot_code_of(b.terminal_map)
    &&& a.prime_mover == b.prime_mover
    &&& a.p_avail == b.p_avail
    &&& sum_of(m, a.s_max) == sum_of(m, b.s_max)
    &&& a.prime_mover != IbrPrimeMover::Generic ==> {
        &&& total_limit(m, a.p_max) == total_limit(m, b.p_max)
        &&& total_limit(m, a.p_min) == total_limit(m, b.p_min)
    }
    &&& total_limit(m, a.q_max) == total_limit(m, b.q_max)
    &&& total_limit(m, a.q_min) == total_limit(m, b.q_min)
    &&& extra_thousands(m, a.extras, "kvar"@) == extra_thousands(m, b.extras, "kvar"@)
    &&& extra_thousands(m, a.extras, "kv"@) == extra_thousands(m, b.extras, "kv"@)
    &&& fault_share(m, a) == fault_share(m, b)
    &&& a.prime_mover == IbrPrimeMover::Battery ==> {
        &&& get_of(a.extras, "ravens_rated_e"@) == get_of(b.extras, "ravens_rated_e"@)
        &&& get_of(a.extras, "ravens_stored_e"@) == get_of(b.extras, "ravens_stored_e"@)
        &&& get_of(a.extras, "ravens_battery_efficiency"@) == get_of(
            b.extras,
            "ravens_battery_efficiency"@,
        )
    }
}

proof fn lemma_unit_same(w: WriterV, v: WriterV, m: Sem, a: DistIbrV, b: DistIbrV, what: Seq<char>)
    requires
        alike(m, a, b),
    ensures
        unit_json(w, m, a, what).1 == unit_json(v, m, b, what).1,
{
    reveal(unit_json);
    reveal(WriterV::num);
}

#[verifier::rlimit(60)]
proof fn lemma_inverter_same(w: WriterV, v: WriterV, m: Sem, a: DistIbrV, b: DistIbrV)
    requires
        alike(m, a, b),
        v.base_of(a.bus) == w.base_of(a.bus),
    ensures
        electronics_json(w, m, a).1 == electronics_json(v, m, b).1,
{
    broadcast use group_even;

    let what = "ibr "@ + a.name;
    assert forall|p: WriterV, q: WriterV| #[trigger] unit_json(p, m, a, what).1
        == #[trigger] unit_json(q, m, b, what).1 by {
        lemma_unit_same(p, q, m, a, b, what);
    }
    assert forall|p: WriterV| even(p, #[trigger] unit_json(p, m, a, what).0) by {
        lemma_unit_carries(p, m, a, what);
    }
    assert forall|p: WriterV| even(p, #[trigger] unit_json(p, m, b, what).0) by {
        lemma_unit_carries(p, m, b, what);
    }
    reveal(WriterV::base_of);
    reveal(electronics_json);
    reveal(WriterV::num);
    reveal(WriterV::put_base);
}

// ---- reading ---------------------------------------------------------------

/// An inverter is read plainly.
#[verifier::rlimit(40)]
pub proof fn lemma_inverter_plain(
    w: WriterV,
    m: Sem,
    e: DistIbrV,
    doc: Seq<ObjV>,
    st: StateV,
    o: ObjV,
    buses: Seq<DistBusV>,
)
    requires
        o.name == e.name,
        electronics_json(w, m, e).1 == JsonV::Obj(o.props),
        inverter_kept(m, e),
        declared(buses, e.bus),
    ensures
        plainly(st, electronics_step(m, doc, st, o), buses),
{
    broadcast use {lemma_use_declared, lemma_use_plain};

    lemma_inverter_says(w, m, e);
    lemma_hot_wires_read_back(e.terminal_map);
    reveal(prime_mover_of);
    reveal(StateV::defaulted);
    reveal(StateV::warn);
}

// ---- the table -------------------------------------------------------------

/// The inverters as they are written, by name.
pub open spec fn inverter_pairs(w: WriterV, m: Sem, s: Seq<DistIbrV>) -> Entries {
    Seq::new(
        s.len(),
        |i: int| (s[i].name, electronics_json(all_electronics_json(w, m, s, i as nat).0, m, s[i]).1),
    )
}

pub proof fn lemma_inverter_pairs(w: WriterV, m: Sem, s: Seq<DistIbrV>, n: nat)
    requires
        n <= s.len(),
    ensures
        all_electronics_json(w, m, s, n).1 == table_n(inverter_pairs(w, m, s), n),
        even(w, all_electronics_json(w, m, s, n).0),
    decreases n,
{
    lemma_inverters_even(w, m, s, n);
    if n > 0 {
        lemma_inverter_pairs(w, m, s, (n - 1) as nat);
    }
}

/// An entry of a table of inverters is one of the inverters.
pub proof fn lemma_inverter_entry(w: WriterV, m: Sem, s: Seq<DistIbrV>, o: ObjV) -> (r: (
    int,
    WriterV,
))
    requires
        get_of(all_electronics_json(w, m, s, s.len()).1, o.name) == Some(JsonV::Obj(o.props)),
    ensures
        0 <= r.0 < s.len(),
        s[r.0].name == o.name,
        electronics_json(r.1, m, s[r.0]).1 == JsonV::Obj(o.props),
{
    lemma_inverter_pairs(w, m, s, s.len());
    let i = lemma_table_entry(inverter_pairs(w, m, s), s.len(), o.name);
    (i, all_electronics_json(w, m, s, i as nat).0)
}

pub proof fn lemma_inverter_origin(
    m: Sem,
    doc: Seq<ObjV>,
    st: StateV,
    ids: Seq<usize>,
    n: nat,
    k: int,
) -> (i:
    int)
    requires
        st.net.ibrs.len() == 0,
        0 <= k < electronics_n(m, doc, st, ids, n).net.ibrs.len(),
    ensures
        0 <= i < n,
        electronics_n(m, doc, st, ids, n).net.ibrs[k] == inverter_read(
            m,
            doc,
            electronics_n(m, doc, st, ids, i as nat),
            doc[ids[i] as int],
        ),
    decreases n,
{
    broadcast use {group_keeps, group_parts};

    let before = electronics_n(m, doc, st, ids, (n - 1) as nat);
    if k < before.net.ibrs.len() {
        let i = lemma_inverter_origin(m, doc, st, ids, (n - 1) as nat, k);
        i
    } else {
        n - 1
    }
}

/// The table of inverters is written the same again.
#[verifier::rlimit(40)]
pub proof fn lemma_inverters_written_again(
    w: WriterV,
    v: WriterV,
    m: Sem,
    a: Seq<DistIbrV>,
    b: Seq<DistIbrV>,
    doc: Seq<ObjV>,
    st: StateV,
)
    requires
        doc.len() <= usize::MAX,
        st.net.ibrs.len() == 0,
        v.bases == w.bases,
        only_in("PowerElectronicsConnection"@, all_electronics_json(w, m, a, a.len()).1, doc),
        ({
            let ids = sorted_kind(doc, "PowerElectronicsConnection"@);
            b == electronics_n(m, doc, st, ids, ids.len()).net.ibrs
        }),
        forall|i: int| 0 <= i < a.len() ==> inverter_kept(m, #[trigger] a[i]),
        forall|i: int|
            0 <= i < a.len() ==> exists|k: int|
                0 <= k < b.len() && comes_of_inverter(m, #[trigger] b[k], #[trigger] a[i]),
    ensures
        all_electronics_json(v, m, b, b.len()).1 == all_electronics_json(w, m, a, a.len()).1,
{
    let pa = inverter_pairs(w, m, a);
    let pb = inverter_pairs(v, m, b);
    let kind = "PowerElectronicsConnection"@;
    let ids = sorted_kind(doc, kind);
    lemma_inverter_pairs(w, m, a, a.len());
    lemma_inverter_pairs(v, m, b, b.len());
    reveal_strlit("PowerElectronicsConnection");
    reveal_strlit("TransformerTankInfo");
    assert("PowerElectronicsConnection"@.len() == 26);
    assert("TransformerTankInfo"@.len() == 19);
    assert forall|j: int| 0 <= j < pb.len() implies get_of(table_of(pa), (#[trigger] pb[j]).0)
        == Some(pb[j].1) by {
        let at = lemma_inverter_origin(m, doc, st, ids, ids.len(), j);
        let now = electronics_n(m, doc, st, ids, at as nat);
        let o = doc[ids[at] as int];
        lemma_kind_only(doc, Seq::empty(), kind, doc.len(), at);
        assert(get_of(table_of(pa), o.name) == Some(JsonV::Obj(o.props)));
        let i = lemma_table_entry(pa, pa.len(), o.name);
        assert(pa[i].1 == JsonV::Obj(o.props));
        assert(inverter_kept(m, a[i]));
        lemma_inverter_pairs(w, m, a, i as nat);
        lemma_inverter_pairs(v, m, b, j as nat);
        reveal(WriterV::base_of);
        lemma_inverter_object_is_stable(
            all_electronics_json(w, m, a, i as nat).0,
            all_electronics_json(v, m, b, j as nat).0,
            m,
            a[i],
            doc,
            now,
            o,
        );
    }
    assert forall|i: int| 0 <= i < pa.len() implies named_in(pb, (#[trigger] pa[i]).0) by {
        let e = a[i];
        let k = choose|k: int| 0 <= k < b.len() && comes_of_inverter(m, #[trigger] b[k], e);
        assert(pb[k].0 == pa[i].0);
    }
    lemma_one_table(pa, pb);
}

} // verus!
