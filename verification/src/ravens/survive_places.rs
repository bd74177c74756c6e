//! What the reader makes of the positions that the writer wrote.

use vstd::prelude::*;

use crate::json::JsonV;
use crate::math::{Bits, Sem};
use crate::model::{DistBusV, DistNetworkV, LocationV};
use crate::order::get_of;
use crate::ravens::bases::bases_of;
use crate::ravens::doc::{collect_of, list_at, natural_slot, of_kind_n, sorted_kind, str_at, ObjV};
use crate::ravens::emit::{extras_mrid_of, shown, WriterV};
use crate::ravens::found::{lemma_kind_holds, lemma_slot_inside, lemma_typed_object_is_collected};
use crate::ravens::keeps::{
    lemma_buses_n_grows, lemma_finish_grows, lemma_nothing_is_taken_back, stages,
};
use crate::ravens::laws::{clear, found_at, lemma_typed_place_stays, typed_root};
use crate::ravens::read::{
    buses_n, coordinate_of, place_of, place_put, position_of, positions_n, ravens_value, run_of,
};
use crate::ravens::state::StateV;
use crate::ravens::survive::{
    comes_of_bus, lemma_bus_tables, lemma_document_places, lemma_extras_hold_id, lemma_get_put,
    lemma_identified, lemma_identity_keys, lemma_root_keys, lemma_some_entries, node_path,
    written_id, written_tables,
};
use crate::ravens::survive_tanks::unambiguous;
use crate::ravens::write::{
    buses_json, fresh_writer, location_json, ravens_document, tables_of, typed_of, unrepresented,
};
use crate::ravens::write_lines::{linecodes_json, lines_json, switches_json};
use crate::ravens::write_loads::loads_json;
use crate::ravens::write_machines::{all_electronics_json, machines_json, shunts_json, sources_json};
use crate::ravens::write_tanks::transformers_json;
use crate::text::strip_suffix_of;

verus! {

// ---- objects ---------------------------------------------------------------

/// A coordinate that is written reads back.
pub open spec fn coordinate_told(m: Sem, x: Bits) -> bool {
    (m.parse)(shown(m, x)) == Some(x)
}

/// The position that comes back of a position: its coordinates.
pub open spec fn returned_place(l: LocationV) -> LocationV {
    LocationV { x: l.x, y: l.y, kind: None }
}

/// What a location object says.
pub open spec fn says_place(m: Sem, v: JsonV, l: LocationV) -> bool {
    &&& v matches JsonV::Obj(o)
    &&& str_at(o, "Ravens.cimObjectType"@) == Some("Location"@)
    &&& coordinate_told(m, l.x) && coordinate_told(m, l.y) ==> position_of(m, o) == Some(
        returned_place(l),
    )
}

#[verifier::rlimit(40)]
pub proof fn lemma_place_says(m: Sem, name: Seq<char>, l: LocationV)
    ensures
        says_place(m, location_json(m, name, l.x, l.y), l),
{
    broadcast use lemma_get_put;

    lemma_identity_keys();
    reveal_strlit("Location.PositionPoints");
    reveal_strlit("PositionPoint.sequenceNumber");
    reveal_strlit("PositionPoint.xPosition");
    reveal_strlit("PositionPoint.yPosition");
    assert("Location.PositionPoints"@.len() == 23);
    assert("PositionPoint.sequenceNumber"@.len() == 28);
    assert("PositionPoint.xPosition"@.len() == 23 && "PositionPoint.xPosition"@[14] == 'x');
    assert("PositionPoint.yPosition"@.len() == 23 && "PositionPoint.yPosition"@[14] == 'y');
    lemma_identified("Location"@, name, None, "Location.PositionPoints"@);
    reveal(location_json);
    reveal(str_at);
    reveal(list_at);
    reveal(position_of);
    reveal(coordinate_of);
}

/// The name of the location of a bus.
pub open spec fn place_name(id: Seq<char>) -> Seq<char> {
    id + "_Location"@
}

pub proof fn lemma_place_name(a: Seq<char>)
    ensures
        strip_suffix_of(place_name(a), "_Location"@) == Some(a),
{
    let s = place_name(a);
    assert(s.subrange(0, s.len() - "_Location"@.len()) =~= a);
    assert(s.subrange(s.len() - "_Location"@.len(), s.len() as int) =~= "_Location"@);
}

/// What has a node's name before the suffix is its location.
pub proof fn lemma_place_named(s: Seq<char>, a: Seq<char>)
    requires
        strip_suffix_of(s, "_Location"@) == Some(a),
    ensures
        s == place_name(a),
{
    let k = s.len() - "_Location"@.len();
    assert(s =~= s.subrange(0, k) + s.subrange(k, s.len() as int));
}

proof fn lemma_place_table(
    w: WriterV,
    m: Sem,
    s: Seq<DistBusV>,
    n: nat,
    i: int,
)
    requires
        0 <= i < n <= s.len(),
        s[i].location is Some,
        forall|j: int| i < j < s.len() ==> (#[trigger] s[j]).id != s[i].id,
    ensures
        get_of(buses_json(w, m, s, n).2, place_name(s[i].id)) matches Some(v) && says_place(
            m,
            v,
            s[i].location->0,
        ),
    decreases n,
{
    broadcast use lemma_get_put;

    if i == n - 1 {
        lemma_place_says(m, place_name(s[i].id), s[i].location->0);
    } else {
        lemma_place_table(w, m, s, (n - 1) as nat, i);
        assert(s[n - 1].id != s[i].id);
        lemma_place_name(s[n - 1].id);
        lemma_place_name(s[i].id);
        assert(place_name(s[n - 1].id) != place_name(s[i].id));
    }
}

proof fn lemma_place_tables(m: Sem, net: DistNetworkV, i: int)
    requires
        0 <= i < net.buses.len(),
        net.buses[i].location is Some,
        forall|j: int| i < j < net.buses.len() ==> (#[trigger] net.buses[j]).id != net.buses[i].id,
    ensures
        get_of(written_tables(m, net).locations, place_name(net.buses[i].id)) matches Some(v)
            && says_place(m, v, net.buses[i].location->0),
{
    reveal(tables_of);
    let w = unrepresented(fresh_writer(bases_of(m, net)), m, net);
    let w = linecodes_json(w, m, net.linecodes, net.linecodes.len()).0;
    let w = lines_json(w, m, net, net.lines.len()).0;
    let w = switches_json(w, m, net.switches, net.switches.len()).0;
    let w = loads_json(w, m, net, net.loads.len()).0;
    let w = shunts_json(w, m, net.shunts, net.shunts.len()).0;
    let w = machines_json(w, m, net.generators, net.generators.len()).0;
    let w = all_electronics_json(w, m, net.ibrs, net.ibrs.len()).0;
    let w = sources_json(w, m, net.sources, net.sources.len()).0;
    let w = transformers_json(w, m, net.transformers, net.transformers.len()).0;
    lemma_place_table(w, m, net.buses, net.buses.len(), i);
}

// ---- places ----------------------------------------------------------------

pub open spec fn location_path() -> Seq<Seq<char>> {
    seq!["Location"@]
}

#[verifier::rlimit(40)]
proof fn lemma_place_found(m: Sem, net: DistNetworkV, name: Seq<char>, v: JsonV)
    requires
        clear(net.untyped, location_path(), name),
        get_of(written_tables(m, net).locations, name) == Some(v),
    ensures
        found_at(ravens_document(m, net).1, location_path(), 0, name) == Some(v),
{
    broadcast use lemma_get_put;

    let t = written_tables(m, net);
    lemma_some_entries(t.locations, name);
    lemma_root_keys();
    assert(get_of(typed_root(m, net), "Location"@) == Some(JsonV::Obj(t.locations))) by {
        reveal(typed_of);
    }
    lemma_typed_place_stays(m, net, location_path(), name);
    reveal_with_fuel(found_at, 3);
}

// ---- reading ---------------------------------------------------------------

/// The positions give a node a place.
pub open spec fn placed(s: Seq<(Seq<char>, LocationV)>, node: Seq<char>, l: LocationV) -> bool {
    let i = place_of(s, node, 0);
    0 <= i < s.len() && s[i] == (node, l)
}

pub proof fn lemma_place_of(s: Seq<(Seq<char>, LocationV)>, node: Seq<char>, i: int)
    requires
        0 <= i <= s.len(),
    ensures
        i <= place_of(s, node, i) <= s.len(),
        place_of(s, node, i) < s.len() ==> s[place_of(s, node, i)].0 == node,
        forall|k: int| i <= k < place_of(s, node, i) ==> (#[trigger] s[k]).0 != node,
    decreases s.len() - i,
{
    if i < s.len() && s[i].0 != node {
        lemma_place_of(s, node, i + 1);
    }
}

/// The first entry of a node is its place.
proof fn lemma_place_is(s: Seq<(Seq<char>, LocationV)>, node: Seq<char>, at: int)
    requires
        0 <= at < s.len(),
        s[at].0 == node,
        forall|k: int| 0 <= k < at ==> (#[trigger] s[k]).0 != node,
    ensures
        place_of(s, node, 0) == at,
{
    lemma_place_of(s, node, 0);
    let r = place_of(s, node, 0);
    if r < at {
        assert(s[r].0 != node);
    } else if r > at {
        assert(s[at].0 != node);
    }
}

/// A place that is put in is there, and the others stay.
proof fn lemma_place_put(
    s: Seq<(Seq<char>, LocationV)>,
    node: Seq<char>,
    l: LocationV,
    q: Seq<char>,
    x: LocationV,
)
    ensures
        placed(place_put(s, node, l), node, l),
        q != node && placed(s, q, x) ==> placed(place_put(s, node, l), q, x),
{
    let i = place_of(s, node, 0);
    lemma_place_of(s, node, 0);
    let r = place_put(s, node, l);
    assert forall|k: int| 0 <= k < i implies (#[trigger] r[k]).0 != node by {
        assert(s[k].0 != node);
    }
    lemma_place_is(r, node, i);
    if q != node && placed(s, q, x) {
        let j = place_of(s, q, 0);
        lemma_place_of(s, q, 0);
        assert forall|k: int| 0 <= k < j implies (#[trigger] r[k]).0 != q by {
            assert(s[k].0 != q);
        }
        lemma_place_is(r, q, j);
    }
}

/// The location object of a node gives it its place.
proof fn lemma_positions(m: Sem, doc: Seq<ObjV>, n: nat, at: int, id: Seq<char>, l: LocationV)
    requires
        0 <= at < n <= doc.len(),
        doc[at].kind == "Location"@,
        doc[at].name == place_name(id),
        position_of(m, doc[at].props) == Some(l),
        unambiguous(doc, "Location"@, place_name(id)),
    ensures
        placed(positions_n(m, doc, n), id, l),
    decreases n,
{
    let before = positions_n(m, doc, (n - 1) as nat);
    let o = doc[n - 1];
    lemma_place_name(id);
    if at < n - 1 {
        lemma_positions(m, doc, (n - 1) as nat, at, id, l);
    }
    if o.kind == "Location"@ {
        if let (Some(node), Some(x)) = (
            strip_suffix_of(o.name, "_Location"@),
            position_of(m, o.props),
        ) {
            lemma_place_put(before, node, x, id, l);
            if node == id {
                lemma_place_named(o.name, id);
                assert(doc[n - 1].props == doc[at].props);
            }
        }
    }
}

/// All objects of a kind are of the kind.
pub proof fn lemma_kind_only(doc: Seq<ObjV>, s: Seq<usize>, kind: Seq<char>, n: nat, k: int)
    requires
        n <= doc.len() <= usize::MAX,
        forall|j: int| 0 <= j < s.len() ==> (#[trigger] s[j]) < doc.len() && doc[s[j] as int].kind == kind,
        0 <= k < of_kind_n(doc, s, kind, n).len(),
    ensures
        of_kind_n(doc, s, kind, n)[k] < doc.len(),
        doc[of_kind_n(doc, s, kind, n)[k] as int].kind == kind,
    decreases n,
{
    if n > 0 {
        let before = of_kind_n(doc, s, kind, (n - 1) as nat);
        if doc[n - 1].kind == kind {
            let at = natural_slot(doc, before, doc[n - 1].name, 0);
            lemma_slot_inside(doc, before, doc[n - 1].name, 0);
            if k < at {
                lemma_kind_only(doc, s, kind, (n - 1) as nat, k);
            } else if k > at {
                lemma_kind_only(doc, s, kind, (n - 1) as nat, k - 1);
            }
        } else {
            lemma_kind_only(doc, s, kind, (n - 1) as nat, k);
        }
    }
}

/// A place stays while nodes of other names take theirs.
proof fn lemma_place_waits(
    m: Sem,
    doc: Seq<ObjV>,
    st: StateV,
    ids: Seq<usize>,
    n: nat,
    id: Seq<char>,
    l: LocationV,
)
    requires
        n <= ids.len(),
        placed(positions_n(m, doc, doc.len()), id, l),
        forall|j: int| 0 <= j < n ==> doc[#[trigger] ids[j] as int].name != id,
    ensures
        placed(buses_n(m, doc, st, ids, n).1, id, l),
    decreases n,
{
    if n > 0 {
        lemma_place_waits(m, doc, st, ids, (n - 1) as nat, id, l);
        let s = buses_n(m, doc, st, ids, (n - 1) as nat).1;
        let node = doc[ids[n - 1] as int].name;
        let i = place_of(s, node, 0);
        let at = place_of(s, id, 0);
        lemma_place_of(s, node, 0);
        lemma_place_of(s, id, 0);
        assert(node != id);
        let r = buses_n(m, doc, st, ids, n).1;
        if i < s.len() {
            assert(r == s.remove(i));
            let now = if i < at {
                at - 1
            } else {
                at
            };
            assert(i != at);
            assert forall|k: int| 0 <= k < now implies (#[trigger] r[k]).0 != id by {
                if k < i {
                    assert(s[k].0 != id);
                } else {
                    assert(s[k + 1].0 != id);
                }
            }
            lemma_place_is(r, id, now);
        }
    }
}

/// The first of the nodes of a name.
proof fn lemma_first_named(doc: Seq<ObjV>, ids: Seq<usize>, id: Seq<char>, j: int) -> (f: int)
    requires
        0 <= j < ids.len(),
        doc[ids[j] as int].name == id,
    ensures
        0 <= f <= j,
        doc[ids[f] as int].name == id,
        forall|k: int| 0 <= k < f ==> doc[#[trigger] ids[k] as int].name != id,
    decreases j,
{
    if exists|k: int| 0 <= k < j && doc[#[trigger] ids[k] as int].name == id {
        let k = choose|k: int| 0 <= k < j && doc[#[trigger] ids[k] as int].name == id;
        lemma_first_named(doc, ids, id, k)
    } else {
        j
    }
}

/// No position is lost: a network that is read of a written document has, for
/// every bus of the network that was written that has a position and a name of
/// its own, a bus of that name and identifier with the same coordinates, where
/// the nodes and the locations of the document are told apart by their names.
#[verifier::rlimit(60)]
pub proof fn lemma_positions_survive(m: Sem, net: DistNetworkV, i: int)
    requires
        0 <= i < net.buses.len(),
        net.buses[i].location is Some,
        coordinate_told(m, net.buses[i].location->0.x),
        coordinate_told(m, net.buses[i].location->0.y),
        clear(net.untyped, node_path(), net.buses[i].id),
        clear(net.untyped, location_path(), place_name(net.buses[i].id)),
        forall|j: int| i < j < net.buses.len() ==> (#[trigger] net.buses[j]).id != net.buses[i].id,
        collect_of(ravens_document(m, net).1).len() <= usize::MAX,
        unambiguous(
            collect_of(ravens_document(m, net).1),
            "ConnectivityNode"@,
            net.buses[i].id,
        ),
        unambiguous(
            collect_of(ravens_document(m, net).1),
            "Location"@,
            place_name(net.buses[i].id),
        ),
    ensures
        ravens_value(m, JsonV::Obj(ravens_document(m, net).1)) matches Ok(back) ==> exists|k: int|
            0 <= k < back.buses.len() && comes_of_bus(#[trigger] back.buses[k], net.buses[i])
                && back.buses[k].location == Some(returned_place(net.buses[i].location->0)),
{
    let root = ravens_document(m, net).1;
    let doc = collect_of(root);
    let b = net.buses[i];
    let l = returned_place(b.location->0);
    lemma_place_tables(m, net, i);
    let p = get_of(written_tables(m, net).locations, place_name(b.id))->0->Obj_0;
    lemma_place_found(m, net, place_name(b.id), JsonV::Obj(p));
    let at = lemma_typed_object_is_collected(
        root,
        location_path(),
        place_name(b.id),
        p,
        "Location"@,
    );
    lemma_positions(m, doc, doc.len(), at, b.id, l);
    lemma_document_places(m, net);
    lemma_bus_tables(m, net, i);
    let o = get_of(written_tables(m, net).nodes, b.id)->0->Obj_0;
    let path = node_path();
    lemma_typed_place_stays(m, net, path, b.id);
    reveal_with_fuel(found_at, 3);
    assert(found_at(root, path, 0, b.id) == Some(JsonV::Obj(o)));
    let kind = "ConnectivityNode"@;
    let k0 = lemma_typed_object_is_collected(root, path, b.id, o, kind);
    let j0 = lemma_kind_holds(doc, Seq::empty(), kind, doc.len(), k0);
    let ids = sorted_kind(doc, "ConnectivityNode"@);
    let j = lemma_first_named(doc, ids, b.id, j0);
    lemma_kind_only(doc, Seq::empty(), kind, doc.len(), j);
    assert(doc[ids[j] as int].props == doc[k0].props);
    let g = stages(m, doc);
    lemma_place_waits(m, doc, g.wound, ids, j as nat, b.id, l);
    lemma_extras_hold_id(o, written_id(kind, b.id, extras_mrid_of(b.extras)));
    let after = buses_n(m, doc, g.wound, ids, (j + 1) as nat).0.net.buses;
    let k = after.len() - 1;
    lemma_buses_n_grows(m, doc, g.wound, ids, (j + 1) as nat, ids.len());
    lemma_finish_grows(m, doc, g.wound);
    lemma_nothing_is_taken_back(m, doc);
    let done = buses_n(m, doc, g.wound, ids, ids.len()).0.net.buses;
    assert(done[k] == after[k]);
    assert(g.housed.net.buses[k] == done[k]);
    assert(run_of(m, doc).net.buses[k] == done[k]);
    if let Ok(back) = ravens_value(m, JsonV::Obj(root)) {
        assert(comes_of_bus(back.buses[k], b));
    }
}

} // verus!
