//! Buses that are read and written again, with their bounds and their positions.

use vstd::prelude::*;

use crate::json::{Entries, JsonV};
use crate::math::Sem;
use crate::model::{DistBusV, LocationV};
use crate::order::get_of;
use crate::ravens::doc::{limits_of, sorted_kind, ObjV};
use crate::ravens::emit::{extras_mrid_of, WriterV};
use crate::ravens::limited::{both_bounds, lemma_asked, volts_ask};
use crate::ravens::lines::mrid_extras;
use crate::ravens::only::only_in;
use crate::ravens::read::{buses_n, place_of, position_of, positions_n};
use crate::ravens::rewrite::bus_read;
use crate::ravens::stable::{
    bus_pairs, lemma_bus_origin, lemma_bus_pairs, lemma_one_table, lemma_table_entry, named_in,
    table_n, table_of,
};
use crate::ravens::state::StateV;
use crate::ravens::survive::{
    comes_of_bus, lemma_extras_hold_id, lemma_get_put, lemma_identified_again, lemma_identity_keys,
    written_id,
};
use crate::ravens::survive_bounds::lemma_bus_points;
use crate::ravens::survive_limits::bounds_name;
use crate::ravens::survive_places::{
    coordinate_told, lemma_kind_only, lemma_place_named, lemma_place_of, lemma_place_says,
    place_name,
};
use crate::ravens::write::{bus_json, buses_json, location_json};
use crate::text::strip_suffix_of;

verus! {

/// The bounds of a bus are read as they were.
pub open spec fn bounds_read(m: Sem, doc: Seq<ObjV>, b: DistBusV) -> bool {
    both_bounds(b) matches Some((low, high)) ==> {
        let l = limits_of(m, doc, bounds_name(m, low, high));
        l.v_low == Some(low) && l.v_high == Some(high)
    }
}

/// A node object is stable: writing what the reader makes of a written bus gives
/// the same object.
#[verifier::rlimit(40)]
pub proof fn lemma_node_object_is_stable(
    w: WriterV,
    v: WriterV,
    m: Sem,
    b: DistBusV,
    doc: Seq<ObjV>,
    st: StateV,
    places: Seq<(Seq<char>, LocationV)>,
    o: ObjV,
)
    requires
        o.name == b.id,
        bus_json(w, m, b).1 == JsonV::Obj(o.props),
        bounds_read(m, doc, b),
    ensures
        bus_json(v, m, bus_read(m, doc, st, places, o)).1 == JsonV::Obj(o.props),
        bus_read(m, doc, st, places, o).id == b.id,
        both_bounds(bus_read(m, doc, st, places, o)) == both_bounds(b),
{
    broadcast use lemma_get_put;

    let back = bus_read(m, doc, st, places, o);
    let kind = "ConnectivityNode"@;
    let imported = extras_mrid_of(b.extras);
    let id = written_id(kind, b.id, imported);
    lemma_identified_again(kind, b.id, imported);
    lemma_bus_points(w, m, b);
    reveal(bus_json);
    reveal_strlit("ConnectivityNode.OperationalLimitSet");
    assert("ConnectivityNode.OperationalLimitSet"@.len() == 36);
    assert(get_of(o.props, "IdentifiedObject.mRID"@) == Some(JsonV::Str(id))) by {
        lemma_identity_keys();
    }
    lemma_extras_hold_id(o.props, id);
    assert(back.extras == mrid_extras(o.props));
    assert(extras_mrid_of(back.extras) == Some(id));
    assert(both_bounds(back) == both_bounds(b));
    if let Some(c) = volts_ask(both_bounds(b), w.base_of(b.id)) {
        lemma_asked(w, m, c);
    }
    if let Some(c) = volts_ask(both_bounds(b), v.base_of(b.id)) {
        lemma_asked(v, m, c);
    }
}

/// The nodes are read of their table.
pub open spec fn nodes_come(
    w: WriterV,
    m: Sem,
    a: Seq<DistBusV>,
    b: Seq<DistBusV>,
    doc: Seq<ObjV>,
    st: StateV,
) -> bool {
    let ids = sorted_kind(doc, "ConnectivityNode"@);
    &&& doc.len() <= usize::MAX
    &&& st.net.buses.len() == 0
    &&& only_in("ConnectivityNode"@, buses_json(w, m, a, a.len()).1, doc)
    &&& b == buses_n(m, doc, st, ids, ids.len()).0.net.buses
    &&& forall|i: int| 0 <= i < a.len() ==> bounds_read(m, doc, #[trigger] a[i])
}

/// A bus that is read comes of the bus that its node was written of.
#[verifier::rlimit(40)]
pub proof fn lemma_node_again(
    w: WriterV,
    v: WriterV,
    m: Sem,
    a: Seq<DistBusV>,
    b: Seq<DistBusV>,
    doc: Seq<ObjV>,
    st: StateV,
    k: int,
) -> (i: int)
    requires
        nodes_come(w, m, a, b, doc, st),
        0 <= k < b.len(),
    ensures
        0 <= i < a.len(),
        b[k].id == a[i].id,
        both_bounds(b[k]) == both_bounds(a[i]),
        get_of(table_of(bus_pairs(w, m, a)), b[k].id) == Some(bus_json(v, m, b[k]).1),
{
    let pa = bus_pairs(w, m, a);
    let kind = "ConnectivityNode"@;
    let ids = sorted_kind(doc, kind);
    lemma_bus_pairs(w, m, a, a.len());
    reveal_strlit("ConnectivityNode");
    reveal_strlit("TransformerTankInfo");
    assert("ConnectivityNode"@.len() == 16);
    assert("TransformerTankInfo"@.len() == 19);
    let at = lemma_bus_origin(m, doc, st, ids, ids.len(), k);
    let (now, places) = buses_n(m, doc, st, ids, at as nat);
    let o = doc[ids[at] as int];
    lemma_kind_only(doc, Seq::empty(), kind, doc.len(), at);
    assert(get_of(table_of(pa), o.name) == Some(JsonV::Obj(o.props)));
    let i = lemma_table_entry(pa, pa.len(), o.name);
    assert(pa[i].1 == JsonV::Obj(o.props));
    assert(bounds_read(m, doc, a[i]));
    lemma_node_object_is_stable(
        buses_json(w, m, a, i as nat).0,
        v,
        m,
        a[i],
        doc,
        now,
        places,
        o,
    );
    i
}

/// The table of nodes is written the same again.
#[verifier::rlimit(40)]
pub proof fn lemma_nodes_again(
    w: WriterV,
    v: WriterV,
    m: Sem,
    a: Seq<DistBusV>,
    b: Seq<DistBusV>,
    doc: Seq<ObjV>,
    st: StateV,
)
    requires
        nodes_come(w, m, a, b, doc, st),
        forall|i: int|
            0 <= i < a.len() ==> exists|k: int|
                0 <= k < b.len() && comes_of_bus(#[trigger] b[k], #[trigger] a[i]),
    ensures
        buses_json(v, m, b, b.len()).1 == buses_json(w, m, a, a.len()).1,
{
    let pa = bus_pairs(w, m, a);
    let pb = bus_pairs(v, m, b);
    lemma_bus_pairs(w, m, a, a.len());
    lemma_bus_pairs(v, m, b, b.len());
    assert forall|j: int| 0 <= j < pb.len() implies get_of(table_of(pa), (#[trigger] pb[j]).0)
        == Some(pb[j].1) by {
        let i = lemma_node_again(w, buses_json(v, m, b, j as nat).0, m, a, b, doc, st, j);
    }
    assert forall|i: int| 0 <= i < pa.len() implies named_in(pb, (#[trigger] pa[i]).0) by {
        let s = a[i];
        let k = choose|k: int| 0 <= k < b.len() && comes_of_bus(#[trigger] b[k], s);
        assert(pb[k].0 == pa[i].0);
    }
    lemma_one_table(pa, pb);
}

// ---- positions -------------------------------------------------------------

/// The positions as they are written, by name.
pub open spec fn place_pairs(m: Sem, s: Seq<DistBusV>, n: nat) -> Entries
    decreases n,
{
    if n == 0 {
        Entries::empty()
    } else {
        let before = place_pairs(m, s, (n - 1) as nat);
        let b = s[n - 1];
        match b.location {
            Some(l) => before.push(
                (place_name(b.id), location_json(m, place_name(b.id), l.x, l.y)),
            ),
            None => before,
        }
    }
}

proof fn lemma_table_push(s: Entries, e: (Seq<char>, JsonV), n: nat)
    requires
        n <= s.len(),
    ensures
        table_n(s.push(e), n) == table_n(s, n),
    decreases n,
{
    if n > 0 {
        lemma_table_push(s, e, (n - 1) as nat);
        assert(s.push(e)[n - 1] == s[n - 1]);
    }
}

pub proof fn lemma_place_pairs(w: WriterV, m: Sem, s: Seq<DistBusV>, n: nat)
    requires
        n <= s.len(),
    ensures
        buses_json(w, m, s, n).2 == table_of(place_pairs(m, s, n)),
    decreases n,
{
    if n > 0 {
        let before = place_pairs(m, s, (n - 1) as nat);
        lemma_place_pairs(w, m, s, (n - 1) as nat);
        if let Some(l) = s[n - 1].location {
            let e = (
                place_name(s[n - 1].id),
                location_json(m, place_name(s[n - 1].id), l.x, l.y),
            );
            lemma_table_push(before, e, before.len());
            assert(before.push(e)[before.len() as int] == e);
        }
    }
}

/// A pair is that of a bus.
pub open spec fn is_place(m: Sem, s: Seq<DistBusV>, n: nat, e: (Seq<char>, JsonV)) -> bool {
    exists|i: int|
        0 <= i < n && (#[trigger] s[i]).location is Some && e == (
            place_name(s[i].id),
            location_json(m, place_name(s[i].id), s[i].location->0.x, s[i].location->0.y),
        )
}

proof fn lemma_place_pair(m: Sem, s: Seq<DistBusV>, n: nat, e: (Seq<char>, JsonV))
    ensures
        place_pairs(m, s, n).contains(e) == is_place(m, s, n, e),
    decreases n,
{
    if n > 0 {
        let k = (n - 1) as nat;
        lemma_place_pair(m, s, k, e);
        let p = place_pairs(m, s, k);
        let q = place_pairs(m, s, n);
        if is_place(m, s, k, e) {
            let i = choose|i: int|
                0 <= i < k && (#[trigger] s[i]).location is Some && e == (
                    place_name(s[i].id),
                    location_json(m, place_name(s[i].id), s[i].location->0.x, s[i].location->0.y),
                );
            assert(is_place(m, s, n, e));
        }
        if p.contains(e) {
            let i = choose|i: int| 0 <= i < p.len() && p[i] == e;
            assert(q[i] == e);
        }
        if s[n - 1].location is Some {
            assert(q[p.len() as int] == q.last());
        }
        if q.contains(e) {
            let i = choose|i: int| 0 <= i < q.len() && q[i] == e;
            if i < p.len() {
                assert(p[i] == e);
            }
        }
    }
}

/// Every position that is read is that of a location object.
pub open spec fn places_come(m: Sem, doc: Seq<ObjV>, s: Seq<(Seq<char>, LocationV)>) -> bool {
    forall|i: int| 0 <= i < s.len() ==> place_comes(m, doc, #[trigger] s[i])
}

pub open spec fn place_comes(m: Sem, doc: Seq<ObjV>, e: (Seq<char>, LocationV)) -> bool {
    exists|k: int|
        0 <= k < doc.len() && (#[trigger] doc[k]).kind == "Location"@ && doc[k].name == place_name(
            e.0,
        ) && position_of(m, doc[k].props) == Some(e.1)
}

proof fn lemma_positions_come(m: Sem, doc: Seq<ObjV>, n: nat)
    requires
        n <= doc.len(),
    ensures
        places_come(m, doc, positions_n(m, doc, n)),
    decreases n,
{
    if n > 0 {
        let before = positions_n(m, doc, (n - 1) as nat);
        lemma_positions_come(m, doc, (n - 1) as nat);
        let o = doc[n - 1];
        let after = positions_n(m, doc, n);
        if o.kind == "Location"@ {
            if let (Some(node), Some(l)) = (
                strip_suffix_of(o.name, "_Location"@),
                position_of(m, o.props),
            ) {
                lemma_place_named(o.name, node);
                lemma_place_of(before, node, 0);
                let at = place_of(before, node, 0);
                assert(place_comes(m, doc, (node, l)));
                assert forall|i: int| 0 <= i < after.len() implies place_comes(
                    m,
                    doc,
                    #[trigger] after[i],
                ) by {
                    if i != at {
                        assert(after[i] == before[i]);
                    } else {
                        assert(after[i] == (node, l));
                    }
                }
            }
        }
    }
}

proof fn lemma_places_stay(m: Sem, doc: Seq<ObjV>, st: StateV, ids: Seq<usize>, n: nat)
    ensures
        places_come(m, doc, buses_n(m, doc, st, ids, n).1),
    decreases n,
{
    if n == 0 {
        lemma_positions_come(m, doc, doc.len());
    } else {
        lemma_places_stay(m, doc, st, ids, (n - 1) as nat);
        let before = buses_n(m, doc, st, ids, (n - 1) as nat).1;
        let after = buses_n(m, doc, st, ids, n).1;
        let at = place_of(before, doc[ids[n - 1] as int].name, 0);
        lemma_place_of(before, doc[ids[n - 1] as int].name, 0);
        assert forall|i: int| 0 <= i < after.len() implies place_comes(
            m,
            doc,
            #[trigger] after[i],
        ) by {
            if at < before.len() && i >= at {
                assert(after[i] == before[i + 1]);
            } else {
                assert(after[i] == before[i]);
            }
        }
    }
}

/// The coordinates of a bus come back from their numerals.
pub open spec fn place_told(m: Sem, b: DistBusV) -> bool {
    b.location matches Some(l) ==> coordinate_told(m, l.x) && coordinate_told(m, l.y)
}

/// The position of a bus that is read is that of the bus that was written.
#[verifier::rlimit(60)]
proof fn lemma_position_again(
    w: WriterV,
    m: Sem,
    a: Seq<DistBusV>,
    b: Seq<DistBusV>,
    doc: Seq<ObjV>,
    st: StateV,
    k: int,
)
    requires
        nodes_come(w, m, a, b, doc, st),
        only_in("Location"@, buses_json(w, m, a, a.len()).2, doc),
        forall|i: int| 0 <= i < a.len() ==> place_told(m, #[trigger] a[i]),
        0 <= k < b.len(),
        b[k].location is Some,
    ensures
        get_of(table_of(place_pairs(m, a, a.len())), place_name(b[k].id)) == Some(
            location_json(
                m,
                place_name(b[k].id),
                b[k].location->0.x,
                b[k].location->0.y,
            ),
        ),
{
    let kind = "ConnectivityNode"@;
    let ids = sorted_kind(doc, kind);
    let at = lemma_bus_origin(m, doc, st, ids, ids.len(), k);
    let (now, places) = buses_n(m, doc, st, ids, at as nat);
    let o = doc[ids[at] as int];
    lemma_places_stay(m, doc, st, ids, at as nat);
    lemma_place_of(places, o.name, 0);
    let p = place_of(places, o.name, 0);
    assert(place_comes(m, doc, places[p]));
    let h = choose|h: int|
        0 <= h < doc.len() && (#[trigger] doc[h]).kind == "Location"@ && doc[h].name == place_name(
            places[p].0,
        ) && position_of(m, doc[h].props) == Some(places[p].1);
    lemma_place_pairs(w, m, a, a.len());
    reveal_strlit("Location");
    reveal_strlit("TransformerTankInfo");
    assert("Location"@.len() == 8);
    assert("TransformerTankInfo"@.len() == 19);
    let pa = place_pairs(m, a, a.len());
    assert(get_of(table_of(pa), doc[h].name) == Some(JsonV::Obj(doc[h].props)));
    let e = lemma_table_entry(pa, pa.len(), doc[h].name);
    lemma_place_pair(m, a, a.len(), pa[e]);
    assert(pa.contains(pa[e]));
    let i = choose|i: int|
        0 <= i < a.len() && (#[trigger] a[i]).location is Some && pa[e] == (
            place_name(a[i].id),
            location_json(m, place_name(a[i].id), a[i].location->0.x, a[i].location->0.y),
        );
    assert(place_told(m, a[i]));
    lemma_place_says(m, place_name(a[i].id), a[i].location->0);
}

/// The table of positions is written the same again.
#[verifier::rlimit(40)]
pub proof fn lemma_positions_again(
    w: WriterV,
    v: WriterV,
    m: Sem,
    a: Seq<DistBusV>,
    b: Seq<DistBusV>,
    doc: Seq<ObjV>,
    st: StateV,
)
    requires
        nodes_come(w, m, a, b, doc, st),
        only_in("Location"@, buses_json(w, m, a, a.len()).2, doc),
        forall|i: int| 0 <= i < a.len() ==> place_told(m, #[trigger] a[i]),
        forall|i: int|
            0 <= i < a.len() && (#[trigger] a[i]).location is Some ==> located(b, a[i].id),
    ensures
        buses_json(v, m, b, b.len()).2 == buses_json(w, m, a, a.len()).2,
{
    let pa = place_pairs(m, a, a.len());
    let pb = place_pairs(m, b, b.len());
    lemma_place_pairs(w, m, a, a.len());
    lemma_place_pairs(v, m, b, b.len());
    assert forall|j: int| 0 <= j < pb.len() implies get_of(table_of(pa), (#[trigger] pb[j]).0)
        == Some(pb[j].1) by {
        lemma_place_pair(m, b, b.len(), pb[j]);
        assert(pb.contains(pb[j]));
        let k = choose|k: int|
            0 <= k < b.len() && (#[trigger] b[k]).location is Some && pb[j] == (
                place_name(b[k].id),
                location_json(m, place_name(b[k].id), b[k].location->0.x, b[k].location->0.y),
            );
        lemma_position_again(w, m, a, b, doc, st, k);
    }
    assert forall|i: int| 0 <= i < pa.len() implies named_in(pb, (#[trigger] pa[i]).0) by {
        lemma_place_pair(m, a, a.len(), pa[i]);
        assert(pa.contains(pa[i]));
        let h = choose|h: int|
            0 <= h < a.len() && (#[trigger] a[h]).location is Some && pa[i] == (
                place_name(a[h].id),
                location_json(m, place_name(a[h].id), a[h].location->0.x, a[h].location->0.y),
            );
        assert(located(b, a[h].id));
        let k = choose|k: int|
            0 <= k < b.len() && (#[trigger] b[k]).id == a[h].id && b[k].location is Some;
        let e = (
            place_name(b[k].id),
            location_json(m, place_name(b[k].id), b[k].location->0.x, b[k].location->0.y),
        );
        lemma_place_pair(m, b, b.len(), e);
        assert(is_place(m, b, b.len(), e));
        let j = choose|j: int| 0 <= j < pb.len() && pb[j] == e;
        assert(pb[j].0 == pa[i].0);
    }
    lemma_one_table(pa, pb);
}

/// A bus of a name has a position.
pub open spec fn located(b: Seq<DistBusV>, id: Seq<char>) -> bool {
    exists|k: int| 0 <= k < b.len() && (#[trigger] b[k]).id == id && b[k].location is Some
}

} // verus!
