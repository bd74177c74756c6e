//! Sources that are read and written again.

use vstd::prelude::*;

use crate::json::{float_json, Entries, JsonV};
use crate::math::{Bits, Sem, THOUSAND};
use crate::model::{DistBusV, VoltageSourceV};
use crate::order::get_of;
use crate::ravens::accept::{even, group_even, lemma_sources_mild};
use crate::ravens::bases::source_claim;
use crate::ravens::doc::{num_at, sorted_kind, ObjV};
use crate::ravens::emit::{
    extra_num, extras_mrid_of, hot_code_of, identified_of, letters_n, WriterV,
};
use crate::ravens::keeps::{group_keeps, group_parts};
use crate::ravens::lines::mrid_extras;
use crate::ravens::machines::{
    source_angles_of, source_extras_of, source_step, source_volts_of, sources_n,
};
use crate::ravens::name::{hot_n, hot_of, terminal_phase_of};
use crate::ravens::only::only_in;
use crate::ravens::plain::{lemma_ground_declared, lemma_use_declared, lemma_use_plain, plainly};
use crate::ravens::read::declared;
use crate::ravens::rewrite::lemma_hot_map_writes_the_same;
use crate::ravens::scale::{multiple_of, thousands_of, wrapped_of};
use crate::ravens::stable::{lemma_one_table, lemma_table_entry, named_in, table_n, table_of};
use crate::ravens::state::StateV;
use crate::ravens::survive::{
    hot_wires, lemma_get_none, lemma_get_put, lemma_hot_letters, lemma_hot_wires_read_back,
    lemma_identified, lemma_identified_again, lemma_identity_keys, lemma_letters, told, written_id,
};
use crate::ravens::survive_models::lemma_response_stands_alone;
use crate::ravens::survive_places::lemma_kind_only;
use crate::ravens::survive_sites::{
    comes_of_source, lemma_source_says, lemma_source_step, says_source, source_angle,
    source_magnitude, with_ground,
};
use crate::ravens::write_machines::{chord_of, first_hot, hot_places_n, source_json, sources_json};

verus! {

// ---- wires -----------------------------------------------------------------

proof fn lemma_places_count(map: Seq<Seq<char>>, n: nat)
    requires
        n <= map.len(),
    ensures
        hot_places_n(map, n).len() == hot_n(map, n).len(),
    decreases n,
{
    if n > 0 {
        lemma_places_count(map, (n - 1) as nat);
    }
}

proof fn lemma_hot_places(map: Seq<Seq<char>>, n: nat)
    requires
        n <= map.len() <= usize::MAX,
        forall|i: int| 0 <= i < n ==> #[trigger] map[i] != "4"@,
    ensures
        hot_places_n(map, n).len() == n,
        n > 0 ==> hot_places_n(map, n)[0] == 0,
        hot_n(map, n).len() == n,
    decreases n,
{
    if n > 0 {
        lemma_hot_places(map, (n - 1) as nat);
    }
}

proof fn lemma_letters_push(map: Seq<Seq<char>>, x: Seq<char>, n: nat)
    requires
        n <= map.len(),
    ensures
        letters_n(map.push(x), true, n) == letters_n(map, true, n),
    decreases n,
{
    if n > 0 {
        lemma_letters_push(map, x, (n - 1) as nat);
        assert(map.push(x)[n - 1] == map[n - 1]);
    }
}

/// The phases of a map with the neutral: the same phases, in the first places.
pub proof fn lemma_ground_aside(map: Seq<Seq<char>>)
    requires
        hot_wires(map).len() < usize::MAX,
    ensures
        ({
            let g = with_ground(map);
            let n = hot_wires(map).len();
            &&& hot_places_n(g, g.len()).len() == n
            &&& n > 0 ==> hot_places_n(g, g.len())[0] == 0
            &&& hot_of(g).len() == n
            &&& hot_code_of(g) == hot_code_of(map)
        }),
{
    let g = with_ground(map);
    let n = hot_wires(map).len();
    lemma_hot_letters(map, map.len());
    assert forall|i: int| 0 <= i < n implies #[trigger] g[i] != "4"@ by {
        assert(g[i] == hot_wires(map)[i]);
    }
    lemma_hot_places(g, n);
    lemma_letters();
    assert("4"@[0] == '4' && "1"@[0] == '1' && "2"@[0] == '2' && "3"@[0] == '3');
    assert(g[n as int] == "4"@);
    lemma_letters_push(hot_wires(map), "4"@, n);
    assert(terminal_phase_of("4"@) == Some("N"@));
    lemma_hot_map_writes_the_same(map);
}

// ---- values ----------------------------------------------------------------

/// The nominal volts that are written of a source.
pub open spec fn source_nominal(m: Sem, e: VoltageSourceV) -> Bits {
    match extra_num(m, e.extras, "basekv"@) {
        Some(kv) => thousands_of(m, kv),
        None => source_magnitude(m, e),
    }
}

/// A number, where there is one, comes back from its numeral.
pub open spec fn told_any(m: Sem, x: Option<Bits>) -> bool {
    x matches Some(v) ==> told(m, v)
}

/// A source can be written again: each terminal but the neutral is a phase, its
/// numbers come back from their numerals, and its volts and its angle from being
/// read and written.
pub open spec fn source_kept(m: Sem, e: VoltageSourceV) -> bool {
    let n = hot_wires(e.terminal_map).len();
    let v = source_magnitude(m, e);
    let a = source_angle(m, e);
    let nominal = source_nominal(m, e);
    let places = hot_places_n(e.terminal_map, e.terminal_map.len());
    &&& 0 < n < usize::MAX
    &&& hot_of(e.terminal_map).len() == n
    &&& told(m, v)
    &&& told(m, a)
    &&& told(m, nominal)
    &&& told(m, m.over(nominal, THOUSAND))
    &&& thousands_of(m, m.over(nominal, THOUSAND)) == nominal
    &&& source_claim(m, e).1.1 == nominal
    &&& multiple_of(m, source_volts_of(m, v, n)[0], chord_of(m, places)) == v
    &&& wrapped_of(m, source_angles_of(m, a, n)[0]) == a
    &&& told_any(m, extra_num(m, e.extras, "r1"@))
    &&& told_any(m, extra_num(m, e.extras, "x1"@))
    &&& told_any(m, extra_num(m, e.extras, "r0"@))
    &&& told_any(m, extra_num(m, e.extras, "x0"@))
}

proof fn lemma_source_keys()
    ensures
        "EnergySource.nominalVoltage"@.len() == 27 && "EnergySource.nominalVoltage"@[0] == 'E',
        "EnergySource.voltageMagnitude"@.len() == 29 && "EnergySource.voltageMagnitude"@[0] == 'E',
        "EnergySource.voltageAngle"@.len() == 25,
        "EnergySource.r"@.len() == 14 && "EnergySource.r"@[13] == 'r',
        "EnergySource.x"@.len() == 14 && "EnergySource.x"@[13] == 'x',
        "EnergySource.r0"@.len() == 15 && "EnergySource.r0"@[13] == 'r',
        "EnergySource.x0"@.len() == 15 && "EnergySource.x0"@[13] == 'x',
        "Equipment.inService"@.len() == 19,
        "ConductingEquipment.BaseVoltage"@.len() == 31,
        "ConductingEquipment.Terminals"@.len() == 29 && "ConductingEquipment.Terminals"@[0] == 'C',
{
    reveal_strlit("EnergySource.nominalVoltage");
    reveal_strlit("EnergySource.voltageMagnitude");
    reveal_strlit("EnergySource.voltageAngle");
    reveal_strlit("EnergySource.r");
    reveal_strlit("EnergySource.x");
    reveal_strlit("EnergySource.r0");
    reveal_strlit("EnergySource.x0");
    reveal_strlit("Equipment.inService");
    reveal_strlit("ConductingEquipment.BaseVoltage");
    reveal_strlit("ConductingEquipment.Terminals");
}

proof fn lemma_note_keys()
    ensures
        "ravens_mrid"@.len() == 11,
        "basekv"@.len() == 6,
        "pu"@.len() == 2 && "pu"@[0] == 'p',
        "angle"@.len() == 5,
        "r1"@.len() == 2 && "r1"@[0] == 'r' && "r1"@[1] == '1',
        "x1"@.len() == 2 && "x1"@[0] == 'x' && "x1"@[1] == '1',
        "r0"@.len() == 2 && "r0"@[0] == 'r' && "r0"@[1] == '0',
        "x0"@.len() == 2 && "x0"@[0] == 'x' && "x0"@[1] == '0',
{
    reveal_strlit("ravens_mrid");
    reveal_strlit("basekv");
    reveal_strlit("pu");
    reveal_strlit("angle");
    reveal_strlit("r1");
    reveal_strlit("x1");
    reveal_strlit("r0");
    reveal_strlit("x0");
}

/// What a source object says of its further values.
pub open spec fn says_values(m: Sem, o: Entries, e: VoltageSourceV) -> bool {
    &&& num_at(m, o, "EnergySource.nominalVoltage"@) == Some(source_nominal(m, e))
    &&& num_at(m, o, "EnergySource.r"@) == extra_num(m, e.extras, "r1"@)
    &&& num_at(m, o, "EnergySource.x"@) == extra_num(m, e.extras, "x1"@)
    &&& num_at(m, o, "EnergySource.r0"@) == extra_num(m, e.extras, "r0"@)
    &&& num_at(m, o, "EnergySource.x0"@) == extra_num(m, e.extras, "x0"@)
}

#[verifier::rlimit(60)]
proof fn lemma_says_values(w: WriterV, m: Sem, e: VoltageSourceV)
    requires
        source_kept(m, e),
    ensures
        source_json(w, m, e).1 matches JsonV::Obj(o) && says_values(m, o, e),
{
    broadcast use lemma_get_put;

    lemma_source_keys();
    lemma_identity_keys();
    reveal(source_json);
    reveal(WriterV::num);
    reveal(WriterV::put_base);
    reveal(num_at);
    let kind = "EnergySource"@;
    let imported = extras_mrid_of(e.extras);
    lemma_identified(kind, e.name, imported, "EnergySource.r"@);
    lemma_identified(kind, e.name, imported, "EnergySource.x"@);
    lemma_identified(kind, e.name, imported, "EnergySource.r0"@);
    lemma_identified(kind, e.name, imported, "EnergySource.x0"@);
}

/// What the reader makes of an object of a source.
pub open spec fn source_read(m: Sem, doc: Seq<ObjV>, st: StateV, o: ObjV) -> VoltageSourceV {
    source_step(m, doc, st, o).net.sources.last()
}

/// The values that the reader notes of a source come back.
#[verifier::rlimit(60)]
proof fn lemma_notes(m: Sem, props: Entries, e: VoltageSourceV)
    requires
        source_kept(m, e),
        says_values(m, props, e),
    ensures
        ({
            let x = source_extras_of(m, props);
            &&& extra_num(m, x, "basekv"@) == Some(m.over(source_nominal(m, e), THOUSAND))
            &&& extra_num(m, x, "r1"@) == extra_num(m, e.extras, "r1"@)
            &&& extra_num(m, x, "x1"@) == extra_num(m, e.extras, "x1"@)
            &&& extra_num(m, x, "r0"@) == extra_num(m, e.extras, "r0"@)
            &&& extra_num(m, x, "x0"@) == extra_num(m, e.extras, "x0"@)
        }),
{
    broadcast use lemma_get_put;

    lemma_note_keys();
    reveal(source_extras_of);
    reveal(mrid_extras);
    lemma_get_none("basekv"@);
    lemma_get_none("r1"@);
    lemma_get_none("x1"@);
    lemma_get_none("r0"@);
    lemma_get_none("x0"@);
    let x = source_extras_of(m, props);
    let key = |k: Seq<char>, v: Option<Bits>|
        get_of(x, k) == match v {
            Some(y) => Some(float_json(m, y)),
            None => None::<JsonV>,
        };
    assert(key("r1"@, extra_num(m, e.extras, "r1"@)));
    assert(key("x1"@, extra_num(m, e.extras, "x1"@)));
    assert(key("r0"@, extra_num(m, e.extras, "r0"@)));
    assert(key("x0"@, extra_num(m, e.extras, "x0"@)));
    assert(key("basekv"@, Some(m.over(source_nominal(m, e), THOUSAND))));
    assert forall|k: Seq<char>, v: Option<Bits>| #[trigger] key(k, v) && told_any(m, v) implies
        extra_num(m, x, k) == v by {
        reveal(extra_num);
    }
}

/// A source object is stable: writing what the reader makes of a written source
/// gives the same object, where the base voltage of its bus is the same.
#[verifier::rlimit(80)]
pub proof fn lemma_source_object_is_stable(
    w: WriterV,
    v: WriterV,
    m: Sem,
    e: VoltageSourceV,
    doc: Seq<ObjV>,
    st: StateV,
    o: ObjV,
)
    requires
        o.name == e.name,
        source_json(w, m, e).1 == JsonV::Obj(o.props),
        source_kept(m, e),
        v.base_of(e.bus) == w.base_of(e.bus),
    ensures
        source_json(v, m, source_read(m, doc, st, o)).1 == JsonV::Obj(o.props),
        comes_of_source(m, source_read(m, doc, st, o), e),
        source_claim(m, source_read(m, doc, st, o)) == source_claim(m, e),
{
    let back = source_read(m, doc, st, o);
    let kind = "EnergySource"@;
    let n = hot_wires(e.terminal_map).len();
    lemma_source_says(w, m, e);
    lemma_says_values(w, m, e);
    lemma_source_step(m, doc, st, o, e);
    lemma_source_extras(m, doc, st, o, e);
    lemma_notes(m, o.props, e);
    lemma_ground_aside(e.terminal_map);
    lemma_places_count(e.terminal_map, e.terminal_map.len());
    let imported = extras_mrid_of(e.extras);
    lemma_identified_again(kind, e.name, imported);
    assert(extras_mrid_of(back.extras) == Some(written_id(kind, e.name, imported)));
    let places = hot_places_n(back.terminal_map, back.terminal_map.len());
    assert(first_hot(back.v_magnitude, places) == source_volts_of(m, source_magnitude(m, e), n)[0]);
    assert(first_hot(back.v_angle, places) == source_angles_of(m, source_angle(m, e), n)[0]);
    assert(chord_of(m, places) == chord_of(
        m,
        hot_places_n(e.terminal_map, e.terminal_map.len()),
    ));
    assert(source_magnitude(m, back) == source_magnitude(m, e));
    assert(source_angle(m, back) == source_angle(m, e));
    assert(source_nominal(m, back) == source_nominal(m, e));
    lemma_source_same(w, v, m, e, back);
}

proof fn lemma_source_extras(m: Sem, doc: Seq<ObjV>, st: StateV, o: ObjV, e: VoltageSourceV)
    requires
        source_step(m, doc, st, o).net.sources.len() > 0,
        says_source(m, o.props, e),
    ensures
        source_read(m, doc, st, o).extras == source_extras_of(m, o.props),
{
}

/// Sources of which the same values are written.
#[verifier::rlimit(60)]
proof fn lemma_source_same(w: WriterV, v: WriterV, m: Sem, a: VoltageSourceV, b: VoltageSourceV)
    requires
        a.name == b.name,
        a.bus == b.bus,
        identified_of("EnergySource"@, a.name, extras_mrid_of(a.extras)) == identified_of(
            "EnergySource"@,
            b.name,
            extras_mrid_of(b.extras),
        ),
        hot_code_of(a.terminal_map) == hot_code_of(b.terminal_map),
        source_magnitude(m, a) == source_magnitude(m, b),
        source_angle(m, a) == source_angle(m, b),
        source_nominal(m, a) == source_nominal(m, b),
        extra_num(m, a.extras, "r1"@) == extra_num(m, b.extras, "r1"@),
        extra_num(m, a.extras, "x1"@) == extra_num(m, b.extras, "x1"@),
        extra_num(m, a.extras, "r0"@) == extra_num(m, b.extras, "r0"@),
        extra_num(m, a.extras, "x0"@) == extra_num(m, b.extras, "x0"@),
        v.base_of(a.bus) == w.base_of(a.bus),
    ensures
        source_json(w, m, a).1 == source_json(v, m, b).1,
{
    broadcast use group_even;

    reveal(WriterV::base_of);
    reveal(source_json);
    reveal(WriterV::num);
    reveal(WriterV::put_base);
}

// ---- reading ---------------------------------------------------------------

/// A source is read plainly.
#[verifier::rlimit(40)]
pub proof fn lemma_source_plain(
    w: WriterV,
    m: Sem,
    e: VoltageSourceV,
    doc: Seq<ObjV>,
    st: StateV,
    o: ObjV,
    buses: Seq<DistBusV>,
)
    requires
        o.name == e.name,
        source_json(w, m, e).1 == JsonV::Obj(o.props),
        source_kept(m, e),
        declared(buses, e.bus),
    ensures
        plainly(st, source_step(m, doc, st, o), buses),
{
    broadcast use {lemma_use_declared, lemma_ground_declared, lemma_use_plain};

    lemma_source_says(w, m, e);
    lemma_hot_wires_read_back(e.terminal_map);
    reveal(StateV::defaulted);
    reveal(StateV::ground_node);
}

// ---- the table -------------------------------------------------------------

/// The sources as they are written, by name.
pub open spec fn source_pairs(w: WriterV, m: Sem, s: Seq<VoltageSourceV>) -> Entries {
    Seq::new(
        s.len(),
        |i: int| (s[i].name, source_json(sources_json(w, m, s, i as nat).0, m, s[i]).1),
    )
}

pub proof fn lemma_source_pairs(w: WriterV, m: Sem, s: Seq<VoltageSourceV>, n: nat)
    requires
        n <= s.len(),
    ensures
        sources_json(w, m, s, n).1 == table_n(source_pairs(w, m, s), n),
        sources_json(w, m, s, n).0.bases == w.bases,
        even(w, sources_json(w, m, s, n).0),
    decreases n,
{
    lemma_response_stands_alone();
    lemma_sources_mild("LoadResponseCharacteristic"@, w, m, s, n);
    if n > 0 {
        lemma_source_pairs(w, m, s, (n - 1) as nat);
    }
}

/// An entry of a table of sources is one of the sources.
pub proof fn lemma_source_entry(w: WriterV, m: Sem, s: Seq<VoltageSourceV>, o: ObjV) -> (r: (
    int,
    WriterV,
))
    requires
        get_of(sources_json(w, m, s, s.len()).1, o.name) == Some(JsonV::Obj(o.props)),
    ensures
        0 <= r.0 < s.len(),
        s[r.0].name == o.name,
        source_json(r.1, m, s[r.0]).1 == JsonV::Obj(o.props),
        r.1.bases == w.bases,
{
    lemma_source_pairs(w, m, s, s.len());
    let i = lemma_table_entry(source_pairs(w, m, s), s.len(), o.name);
    lemma_source_pairs(w, m, s, i as nat);
    (i, sources_json(w, m, s, i as nat).0)
}

pub proof fn lemma_source_origin(
    m: Sem,
    doc: Seq<ObjV>,
    st: StateV,
    ids: Seq<usize>,
    n: nat,
    k: int,
) -> (i:
    int)
    requires
        st.net.sources.len() == 0,
        0 <= k < sources_n(m, doc, st, ids, n).net.sources.len(),
    ensures
        0 <= i < n,
        sources_n(m, doc, st, ids, n).net.sources[k] == source_read(
            m,
            doc,
            sources_n(m, doc, st, ids, i as nat),
            doc[ids[i] as int],
        ),
    decreases n,
{
    broadcast use {group_keeps, group_parts};

    let before = sources_n(m, doc, st, ids, (n - 1) as nat);
    if k < before.net.sources.len() {
        let i = lemma_source_origin(m, doc, st, ids, (n - 1) as nat, k);
        i
    } else {
        n - 1
    }
}

/// The table of sources is written the same again.
#[verifier::rlimit(40)]
pub proof fn lemma_sources_written_again(
    w: WriterV,
    v: WriterV,
    m: Sem,
    a: Seq<VoltageSourceV>,
    b: Seq<VoltageSourceV>,
    doc: Seq<ObjV>,
    st: StateV,
)
    requires
        doc.len() <= usize::MAX,
        st.net.sources.len() == 0,
        v.bases == w.bases,
        only_in("EnergySource"@, sources_json(w, m, a, a.len()).1, doc),
        ({
            let ids = sorted_kind(doc, "EnergySource"@);
            b == sources_n(m, doc, st, ids, ids.len()).net.sources
        }),
        forall|i: int| 0 <= i < a.len() ==> source_kept(m, #[trigger] a[i]),
        forall|i: int|
            0 <= i < a.len() ==> exists|k: int|
                0 <= k < b.len() && comes_of_source(m, #[trigger] b[k], #[trigger] a[i]),
    ensures
        sources_json(v, m, b, b.len()).1 == sources_json(w, m, a, a.len()).1,
{
    let pa = source_pairs(w, m, a);
    let pb = source_pairs(v, m, b);
    let kind = "EnergySource"@;
    let ids = sorted_kind(doc, kind);
    lemma_source_pairs(w, m, a, a.len());
    lemma_source_pairs(v, m, b, b.len());
    reveal_strlit("EnergySource");
    reveal_strlit("TransformerTankInfo");
    assert("EnergySource"@.len() == 12);
    assert("TransformerTankInfo"@.len() == 19);
    assert forall|j: int| 0 <= j < pb.len() implies get_of(table_of(pa), (#[trigger] pb[j]).0)
        == Some(pb[j].1) by {
        let at = lemma_source_origin(m, doc, st, ids, ids.len(), j);
        let now = sources_n(m, doc, st, ids, at as nat);
        let o = doc[ids[at] as int];
        lemma_kind_only(doc, Seq::empty(), kind, doc.len(), at);
        assert(get_of(table_of(pa), o.name) == Some(JsonV::Obj(o.props)));
        let i = lemma_table_entry(pa, pa.len(), o.name);
        assert(pa[i].1 == JsonV::Obj(o.props));
        assert(source_kept(m, a[i]));
        lemma_source_pairs(w, m, a, i as nat);
        lemma_source_pairs(v, m, b, j as nat);
        reveal(WriterV::base_of);
        lemma_source_object_is_stable(
            sources_json(w, m, a, i as nat).0,
            sources_json(v, m, b, j as nat).0,
            m,
            a[i],
            doc,
            now,
            o,
        );
    }
    assert forall|i: int| 0 <= i < pa.len() implies named_in(pb, (#[trigger] pa[i]).0) by {
        let e = a[i];
        let k = choose|k: int| 0 <= k < b.len() && comes_of_source(m, #[trigger] b[k], e);
        assert(pb[k].0 == pa[i].0);
    }
    lemma_one_table(pa, pb);
}

} // verus!
