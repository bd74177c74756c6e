//! An MG-RAVENS document as a network.
//!
//! The objects are walked out of the class hierarchy, so the reader does not
//! depend on the abstract levels a producer chose. What has no typed mapping is
//! kept as it stands, under the path it was found at.

use std::sync::Arc;

use vstd::prelude::*;

use crate::error::{Error, ErrorV, Result};
use crate::json::{
    get_of, given_back, json_parse, num_of, parse_json, str_of, Entries, Json, JsonMap, JsonV,
};
use crate::math::{Bits, Calc, Sem};
use crate::model::{
    dist_bus_of, DistBus, DistBusV, DistNetwork, DistNetworkV, DistSourceFormat, Location,
    LocationV,
};
use crate::numeral::{dec, dec_of, dec_usize};
use crate::order::{bump, bump_of, contains};
use crate::ravens::doc::{
    collect, collect_of, get_list, get_target, limit_set, limits_of, list_at, sorted_kind,
    sorted_of_kind, target_at, Obj, ObjV,
};
use crate::ravens::lines::{
    extras_with_mrid, map_linecodes, map_linecodes_of, map_lines, map_lines_of, map_switches,
    map_switches_of, mrid_extras,
};
use crate::ravens::loads::{map_loads, map_loads_of, map_shunts, map_shunts_of};
use crate::ravens::machines::{
    map_electronics_of, map_machines, map_machines_of, map_power_electronics, map_sources,
    map_sources_of,
};
use crate::ravens::state::{empty_state, uses_of, State, StateV};
use crate::ravens::tanks::{map_transformers, map_transformers_of};
use crate::text::{
    cat3, cat4, group_views, join, join_of, opt_view, same, strip_suffix, strip_suffix_of, views,
};

verus! {

// ---- positions -------------------------------------------------------------

/// A coordinate: a number, or text that denotes one.
#[verifier::opaque]
pub open spec fn coordinate_of(m: Sem, point: Entries, key: Seq<char>) -> Option<Bits> {
    match get_of(point, key) {
        Some(v) => match num_of(m, v) {
            Some(x) => Some(x),
            None => match str_of(v) {
                Some(s) => (m.parse)(s),
                None => None,
            },
        },
        None => None,
    }
}

fn coordinate<C: Calc>(math: &C, point: &JsonMap, key: &str) -> (r: Option<Bits>)
    ensures
        r == coordinate_of(math.sem(), point@, key@),
{
    reveal(coordinate_of);
    match point.get(key) {
        Some(v) => match v.as_num(math) {
            Some(x) => Some(x),
            None => match v.as_str() {
                Some(s) => math.parse(s.as_str()),
                None => None,
            },
        },
        None => None,
    }
}

/// The position that a location object gives: that of the first of its points.
#[verifier::opaque]
pub open spec fn position_of(m: Sem, props: Entries) -> Option<LocationV> {
    let points = list_at(props, "Location.PositionPoints"@);
    if points.len() == 0 {
        None
    } else {
        match points[0] {
            JsonV::Obj(p) => match (coordinate_of(m, p, "PositionPoint.xPosition"@), coordinate_of(
                m,
                p,
                "PositionPoint.yPosition"@,
            )) {
                (Some(x), Some(y)) => Some(LocationV { x, y, kind: None }),
                _ => None,
            },
            _ => None,
        }
    }
}

fn position<C: Calc>(math: &C, props: &JsonMap) -> (r: Option<Location>)
    ensures
        opt_view(r) == position_of(math.sem(), props@),
{
    reveal(position_of);
    let points = match get_list(props, "Location.PositionPoints") {
        Some(p) => p,
        None => {
            return None;
        },
    };
    assert(views(points@).len() == points.len());
    if points.len() == 0 {
        return None;
    }
    assert(views(points@)[0] == points@[0]@);
    let p = match points[0].as_obj() {
        Some(p) => p,
        None => {
            return None;
        },
    };
    let x = coordinate(math, p, "PositionPoint.xPosition");
    let y = coordinate(math, p, "PositionPoint.yPosition");
    if let (Some(x), Some(y)) = (x, y) {
        Some(Location { x, y, kind: None })
    } else {
        None
    }
}

/// The first place of a node among positions, from the `i`-th on; the end where
/// it has none.
pub open spec fn place_of(s: Seq<(Seq<char>, LocationV)>, node: Seq<char>, i: int) -> int
    decreases s.len() - i,
{
    if i < 0 || i >= s.len() || s[i].0 == node {
        i
    } else {
        place_of(s, node, i + 1)
    }
}

/// The positions with that of one node set.
pub open spec fn place_put(s: Seq<(Seq<char>, LocationV)>, node: Seq<char>, l: LocationV) -> Seq<
    (Seq<char>, LocationV),
> {
    let i = place_of(s, node, 0);
    if i < s.len() {
        s.update(i, (node, l))
    } else {
        s.push((node, l))
    }
}

/// The positions by node among the first `n` objects: a location is named after
/// its node, and of two for one node the last stands.
pub open spec fn positions_n(m: Sem, doc: Seq<ObjV>, n: nat) -> Seq<(Seq<char>, LocationV)>
    decreases n,
{
    if n == 0 {
        seq![]
    } else {
        let before = positions_n(m, doc, (n - 1) as nat);
        let o = doc[n - 1];
        if o.kind == "Location"@ {
            match (strip_suffix_of(o.name, "_Location"@), position_of(m, o.props)) {
                (Some(node), Some(l)) => place_put(before, node, l),
                _ => before,
            }
        } else {
            before
        }
    }
}

fn find_place(s: &Vec<(String, Location)>, node: &str) -> (r: usize)
    ensures
        r == place_of(views(s@), node@, 0),
        r <= s.len(),
{
    let mut i: usize = 0;
    while i < s.len() && !same(s[i].0.as_str(), node)
        invariant
            i <= s.len(),
            place_of(views(s@), node@, 0) == place_of(views(s@), node@, i as int),
        decreases s.len() - i,
    {
        assert(views(s@)[i as int] == (s@[i as int].0@, s@[i as int].1@));
        i = i + 1;
    }
    if i < s.len() {
        assert(views(s@)[i as int] == (s@[i as int].0@, s@[i as int].1@));
    }
    assert(views(s@).len() == s.len());
    i
}

fn positions<C: Calc>(math: &C, doc: &Vec<Obj>) -> (r: Vec<(String, Location)>)
    ensures
        views(r@) == positions_n(math.sem(), views(doc@), doc@.len()),
{
    broadcast use group_views;

    let mut r: Vec<(String, Location)> = Vec::new();
    let mut n: usize = 0;
    assert(views(r@) =~= seq![]);
    while n < doc.len()
        invariant
            n <= doc.len(),
            views(r@) == positions_n(math.sem(), views(doc@), n as nat),
        decreases doc.len() - n,
    {
        assert(views(doc@)[n as int] == doc@[n as int]@);
        if same(doc[n].kind.as_str(), "Location") {
            let node = strip_suffix(doc[n].name.as_str(), "_Location");
            let l = position(math, &doc[n].props);
            if let (Some(node), Some(l)) = (node, l) {
                let ghost before = views(r@);
                let ghost nv = node@;
                let ghost lv = l@;
                let i = find_place(&r, node.as_str());
                assert(before.len() == r.len());
                if i < r.len() {
                    r.set(i, (node, l));
                    assert(views(r@) =~= before.update(i as int, (nv, lv)));
                } else {
                    r.push((node, l));
                    assert(views(r@) =~= before.push((nv, lv)));
                }
            }
        }
        n = n + 1;
    }
    r
}

// ---- buses -----------------------------------------------------------------

/// Numbers as terminal names.
pub open spec fn terminal_names(s: Seq<u8>) -> Seq<Seq<char>> {
    Seq::new(s.len(), |i: int| dec_of(s[i] as nat))
}

pub fn name_terminals(s: &Vec<u8>) -> (r: Vec<String>)
    ensures
        views(r@) == terminal_names(s@),
{
    let mut r: Vec<String> = Vec::new();
    let mut i: usize = 0;
    while i < s.len()
        invariant
            i <= s.len(),
            r.len() == i,
            forall|k: int| 0 <= k < i ==> (#[trigger] r@[k])@ == dec_of(s@[k] as nat),
        decreases s.len() - i,
    {
        r.push(dec(s[i] as u64));
        i = i + 1;
    }
    assert(views(r@) =~= terminal_names(s@));
    r
}

/// A bus of a node: the terminals seen there, its neutral grounded where an
/// element grounds it.
pub open spec fn node_bus(st: StateV, node: Seq<char>) -> DistBusV {
    let terminals = match uses_of(st.nodes, node) {
        Some(t) => terminal_names(t),
        None => Seq::empty(),
    };
    DistBusV {
        grounded: if st.grounded.contains(node) {
            seq!["4"@]
        } else {
            seq![]
        },
        ..dist_bus_of(node, terminals)
    }
}

fn make_bus(st: &State, node: &str) -> (r: DistBus)
    ensures
        r@ == node_bus(st@, node@),
{
    broadcast use group_views;

    let terminals = match st.uses(node) {
        Some(t) => name_terminals(t),
        None => Vec::new(),
    };
    assert(uses_of(st@.nodes, node@) is None ==> views(terminals@) =~= Seq::empty());
    let mut bus = DistBus::new(node.to_owned(), terminals);
    if contains(&st.grounded, node) {
        let mut g: Vec<String> = Vec::new();
        g.push("4".to_owned());
        assert(views(g@) =~= seq!["4"@]);
        bus.grounded = g;
    }
    bus
}

/// The state and the positions left once a node has its bus.
pub open spec fn bus_step(
    m: Sem,
    doc: Seq<ObjV>,
    st: StateV,
    places: Seq<(Seq<char>, LocationV)>,
    o: ObjV,
) -> (StateV, Seq<(Seq<char>, LocationV)>) {
    let i = place_of(places, o.name, 0);
    let base = DistBusV { extras: mrid_extras(o.props), ..node_bus(st, o.name) };
    let limited = match target_at(o.props, "ConnectivityNode.OperationalLimitSet"@) {
        Some(set) => DistBusV {
            v_min: limits_of(m, doc, set).v_low,
            v_max: limits_of(m, doc, set).v_high,
            ..base
        },
        None => base,
    };
    let bus = if i < places.len() {
        DistBusV { location: Some(places[i].1), ..limited }
    } else {
        limited
    };
    (
        StateV { net: DistNetworkV { buses: st.net.buses.push(bus), ..st.net }, ..st },
        if i < places.len() {
            places.remove(i)
        } else {
            places
        },
    )
}

pub open spec fn buses_n(m: Sem, doc: Seq<ObjV>, st: StateV, ids: Seq<usize>, n: nat) -> (
    StateV,
    Seq<(Seq<char>, LocationV)>,
)
    decreases n,
{
    if n == 0 {
        (st, positions_n(m, doc, doc.len()))
    } else {
        let before = buses_n(m, doc, st, ids, (n - 1) as nat);
        bus_step(m, doc, before.0, before.1, doc[ids[n - 1] as int])
    }
}

/// Whether a bus has an id.
pub open spec fn declared(buses: Seq<DistBusV>, id: Seq<char>) -> bool {
    exists|i: int| 0 <= i < buses.len() && (#[trigger] buses[i]).id == id
}

/// The state with a bus for each of the first `n` nodes in use that the
/// document does not declare.
pub open spec fn missing_n(st: StateV, n: nat) -> StateV
    decreases n,
{
    if n == 0 {
        st
    } else {
        let before = missing_n(st, (n - 1) as nat);
        let node = st.nodes[n - 1].node;
        if declared(st.net.buses, node) {
            before
        } else {
            let warned = before.warn(
                "terminal points at undeclared ConnectivityNode `"@ + node + "`; bus created"@,
            );
            StateV {
                net: DistNetworkV {
                    buses: warned.net.buses.push(node_bus(warned, node)),
                    ..warned.net
                },
                ..warned
            }
        }
    }
}

/// Every declared node as a bus, in natural name order, then every other node in
/// use.
#[verifier::opaque]
pub open spec fn finish_buses_of(m: Sem, doc: Seq<ObjV>, st: StateV) -> StateV {
    let ids = sorted_kind(doc, "ConnectivityNode"@);
    let done = buses_n(m, doc, st, ids, ids.len()).0;
    missing_n(done, done.nodes.len())
}

fn read_bus<C: Calc>(
    math: &C,
    doc: &Vec<Obj>,
    st: &mut State,
    places: &mut Vec<(String, Location)>,
    o: &Obj,
)
    ensures
        (final(st)@, views(final(places)@)) == bus_step(
            math.sem(),
            views(doc@),
            old(st)@,
            views(old(places)@),
            o@,
        ),
{
    broadcast use group_views;

    let mut bus = make_bus(st, o.name.as_str());
    if let Some(set) = get_target(&o.props, "ConnectivityNode.OperationalLimitSet") {
        let l = limit_set(math, doc, set.as_str());
        bus.v_min = l.v_low;
        bus.v_max = l.v_high;
    }
    let i = find_place(places, o.name.as_str());
    let ghost before = views(places@);
    assert(before.len() == places.len());
    if i < places.len() {
        assert(before[i as int] == (places@[i as int].0@, places@[i as int].1@));
        let (_, l) = places.remove(i);
        assert(views(places@) =~= before.remove(i as int));
        bus.location = Some(l);
    }
    bus.extras = extras_with_mrid(&o.props);
    st.net.buses.push(bus);
}

fn has_bus(buses: &Vec<DistBus>, upto: usize, id: &str) -> (r: bool)
    requires
        upto <= buses.len(),
    ensures
        r == declared(views(buses@).take(upto as int), id@),
{
    let mut i: usize = 0;
    while i < upto
        invariant
            i <= upto <= buses.len(),
            forall|k: int| 0 <= k < i ==> (#[trigger] views(buses@).take(upto as int)[k]).id != id@,
        decreases upto - i,
    {
        assert(views(buses@).take(upto as int)[i as int] == buses@[i as int]@);
        if same(buses[i].id.as_str(), id) {
            assert(views(buses@).take(upto as int)[i as int].id == id@);
            return true;
        }
        i = i + 1;
    }
    false
}

proof fn lemma_missing_keeps(st: StateV, n: nat)
    ensures
        missing_n(st, n).nodes == st.nodes,
        missing_n(st, n).net.buses.len() >= st.net.buses.len(),
        missing_n(st, n).net.buses.take(st.net.buses.len() as int) == st.net.buses,
    decreases n,
{
    reveal(StateV::warn);
    if n > 0 {
        lemma_missing_keeps(st, (n - 1) as nat);
        assert(missing_n(st, n).net.buses.take(st.net.buses.len() as int) =~= st.net.buses);
    } else {
        assert(st.net.buses.take(st.net.buses.len() as int) =~= st.net.buses);
    }
}

fn add_missing(st: &mut State)
    ensures
        final(st)@ == missing_n(old(st)@, old(st)@.nodes.len()),
{
    broadcast use group_views;

    let upto = st.net.buses.len();
    let total = st.nodes.len();
    assert(st@.nodes.len() == total);
    assert(st@.net.buses.len() == upto);
    let mut n: usize = 0;
    while n < total
        invariant
            n <= total,
            total == old(st)@.nodes.len(),
            upto == old(st)@.net.buses.len(),
            st@ == missing_n(old(st)@, n as nat),
        decreases total - n,
    {
        proof {
            lemma_missing_keeps(old(st)@, n as nat);
            assert(st@.nodes.len() == st.nodes@.len());
            assert(st@.net.buses.len() == st.net.buses@.len());
        }
        assert(old(st)@.nodes[n as int] == st.nodes@[n as int]@);
        assert(views(st.net.buses@).take(upto as int) == old(st)@.net.buses);
        let node = st.nodes[n].node.clone();
        let ghost before = st@;
        if !has_bus(&st.net.buses, upto, node.as_str()) {
            st.warn(
                cat3(
                    "terminal points at undeclared ConnectivityNode `",
                    node.as_str(),
                    "`; bus created",
                ),
            );
            let bus = make_bus(st, node.as_str());
            let ghost warned = st@;
            st.net.buses.push(bus);
            assert(bus@ == node_bus(warned, node@));
            assert(st@.nodes == warned.nodes);
            assert(st@.grounded == warned.grounded);
            assert(st@.net.buses == warned.net.buses.push(bus@));
            assert(st@ == (StateV {
                net: DistNetworkV {
                    buses: warned.net.buses.push(node_bus(warned, node@)),
                    ..warned.net
                },
                ..warned
            }));
        }
        n = n + 1;
    }
}

fn finish_buses<C: Calc>(math: &C, doc: &Vec<Obj>, st: &mut State)
    ensures
        final(st)@ == finish_buses_of(math.sem(), views(doc@), old(st)@),
{
    reveal(finish_buses_of);
    let mut places = positions(math, doc);
    let ids = sorted_of_kind(doc, "ConnectivityNode");
    assert(views(doc@).len() == doc.len());
    let mut i: usize = 0;
    while i < ids.len()
        invariant
            i <= ids.len(),
            forall|k: int| 0 <= k < ids@.len() ==> (#[trigger] ids@[k]) < doc@.len(),
            (st@, views(places@)) == buses_n(
                math.sem(),
                views(doc@),
                old(st)@,
                ids@,
                i as nat,
            ),
        decreases ids.len() - i,
    {
        assert(views(doc@)[ids@[i as int] as int] == doc@[ids@[i as int] as int]@);
        read_bus(math, doc, st, &mut places, &doc[ids[i]]);
        i = i + 1;
    }
    add_missing(st);
}

// ---- what is left ----------------------------------------------------------

/// The kinds that a typed mapping reads, or that ride with one it reads.
pub open spec fn claimed_kinds() -> Seq<Seq<char>> {
    seq![
        "IEC61970CIMVersion"@,
        "RavensVersion"@,
        "ConnectivityNode"@,
        "BaseVoltage"@,
        "Terminal"@,
        "OperationalLimitSet"@,
        "OperationalLimitType"@,
        "VoltageLimit"@,
        "CurrentLimit"@,
        "PerLengthPhaseImpedance"@,
        "PhaseImpedanceData"@,
        "ACLineSegment"@,
        "ACLineSegmentPhase"@,
        "Switch"@,
        "LoadBreakSwitch"@,
        "Breaker"@,
        "Recloser"@,
        "SwitchPhase"@,
        "EnergyConsumer"@,
        "EnergyConsumerPhase"@,
        "LoadResponseCharacteristic"@,
        "EnergyConnectionProfile"@,
        "LinearShuntCompensator"@,
        "SynchronousMachine"@,
        "AsynchronousMachine"@,
        "GeneratingUnit"@,
        "PowerElectronicsConnection"@,
        "PhotoVoltaicUnit"@,
        "BatteryUnit"@,
        "BatteryUnitEfficiency"@,
        "EnergySource"@,
        "PowerTransformer"@,
        "TransformerTank"@,
        "TransformerTankEnd"@,
        "TransformerTankInfo"@,
        "TransformerEndInfo"@,
        "ShortCircuitTest"@,
        "NoLoadTest"@,
        "Location"@,
        "PositionPoint"@,
    ]
}

fn claimed_list() -> (r: Vec<&'static str>)
    ensures
        r@.len() == claimed_kinds().len(),
        forall|i: int| 0 <= i < r@.len() ==> (#[trigger] r@[i])@ == claimed_kinds()[i],
{
    vec![
        "IEC61970CIMVersion",
        "RavensVersion",
        "ConnectivityNode",
        "BaseVoltage",
        "Terminal",
        "OperationalLimitSet",
        "OperationalLimitType",
        "VoltageLimit",
        "CurrentLimit",
        "PerLengthPhaseImpedance",
        "PhaseImpedanceData",
        "ACLineSegment",
        "ACLineSegmentPhase",
        "Switch",
        "LoadBreakSwitch",
        "Breaker",
        "Recloser",
        "SwitchPhase",
        "EnergyConsumer",
        "EnergyConsumerPhase",
        "LoadResponseCharacteristic",
        "EnergyConnectionProfile",
        "LinearShuntCompensator",
        "SynchronousMachine",
        "AsynchronousMachine",
        "GeneratingUnit",
        "PowerElectronicsConnection",
        "PhotoVoltaicUnit",
        "BatteryUnit",
        "BatteryUnitEfficiency",
        "EnergySource",
        "PowerTransformer",
        "TransformerTank",
        "TransformerTankEnd",
        "TransformerTankInfo",
        "TransformerEndInfo",
        "ShortCircuitTest",
        "NoLoadTest",
        "Location",
        "PositionPoint",
    ]
}

fn is_claimed(list: &Vec<&'static str>, kind: &str) -> (r: bool)
    requires
        list@.len() == claimed_kinds().len(),
        forall|i: int| 0 <= i < list@.len() ==> (#[trigger] list@[i])@ == claimed_kinds()[i],
    ensures
        r == claimed_kinds().contains(kind@),
{
    let mut i: usize = 0;
    while i < list.len()
        invariant
            i <= list.len(),
            list@.len() == claimed_kinds().len(),
            forall|k: int| 0 <= k < list@.len() ==> (#[trigger] list@[k])@ == claimed_kinds()[k],
            forall|k: int| 0 <= k < i ==> (#[trigger] claimed_kinds()[k]) != kind@,
        decreases list.len() - i,
    {
        assert(list@[i as int]@ == claimed_kinds()[i as int]);
        if same(list[i], kind) {
            assert(claimed_kinds()[i as int] == kind@);
            return true;
        }
        i = i + 1;
    }
    false
}

/// Whether an object stands on its own and no typed mapping reads its kind.
pub open spec fn unclaimed(o: ObjV) -> bool {
    !o.nested && !claimed_kinds().contains(o.kind)
}

/// The state with the unclaimed ones of the first `n` objects kept, and how many
/// of each kind there are.
pub open spec fn kept_n(doc: Seq<ObjV>, st: StateV, n: nat) -> (StateV, Seq<(Seq<char>, usize)>)
    decreases n,
{
    if n == 0 {
        (st, seq![])
    } else {
        let before = kept_n(doc, st, (n - 1) as nat);
        if unclaimed(doc[n - 1]) {
            (
                before.0.push_untyped(doc[n - 1]),
                bump_of(before.1, doc[n - 1].kind),
            )
        } else {
            before
        }
    }
}

pub open spec fn kept_warnings(st: StateV, counts: Seq<(Seq<char>, usize)>, n: nat) -> StateV
    decreases n,
{
    if n == 0 {
        st
    } else {
        kept_warnings(st, counts, (n - 1) as nat).warn(
            dec_of(counts[n - 1].1 as nat) + " "@ + counts[n - 1].0
                + " object(s) have no typed model; preserved untyped (round-trips to MG-RAVENS, dropped elsewhere)"@,
        )
    }
}

/// Every unclaimed object kept as it stands, and reported by kind.
#[verifier::opaque]
pub open spec fn preserve_of(doc: Seq<ObjV>, st: StateV) -> StateV {
    let (kept, counts) = kept_n(doc, st, doc.len());
    kept_warnings(kept, counts, counts.len())
}

fn preserve_unclaimed(doc: &Vec<Obj>, st: &mut State)
    ensures
        final(st)@ == preserve_of(views(doc@), old(st)@),
{
    broadcast use group_views;

    reveal(preserve_of);
    let list = claimed_list();
    let mut counts: Vec<(String, usize)> = Vec::new();
    let mut n: usize = 0;
    assert(views(counts@) =~= seq![]);
    while n < doc.len()
        invariant
            n <= doc.len(),
            list@.len() == claimed_kinds().len(),
            forall|i: int|
                0 <= i < list@.len() ==> (#[trigger] list@[i])@ == claimed_kinds()[i],
            (st@, views(counts@)) == kept_n(views(doc@), old(st)@, n as nat),
            forall|k: int| 0 <= k < counts@.len() ==> (#[trigger] counts@[k]).1 <= n,
        decreases doc.len() - n,
    {
        assert(views(doc@)[n as int] == doc@[n as int]@);
        if !doc[n].nested && !is_claimed(&list, doc[n].kind.as_str()) {
            bump(&mut counts, doc[n].kind.as_str(), Ghost(n));
            st.push_untyped(&doc[n]);
        }
        n = n + 1;
    }
    assert(views(doc@).len() == doc.len());
    let ghost kept = st@;
    let mut k: usize = 0;
    while k < counts.len()
        invariant
            k <= counts.len(),
            st@ == kept_warnings(kept, views(counts@), k as nat),
        decreases counts.len() - k,
    {
        assert(views(counts@)[k as int] == (counts@[k as int].0@, counts@[k as int].1));
        let c = dec_usize(counts[k].1);
        st.warn(
            cat4(
                c.as_str(),
                " ",
                counts[k].0.as_str(),
                " object(s) have no typed model; preserved untyped (round-trips to MG-RAVENS, dropped elsewhere)",
            ),
        );
        k = k + 1;
    }
    assert(views(counts@).len() == counts.len());
}

// ---- documents -------------------------------------------------------------

/// Whether some object is of a kind.
pub open spec fn has_kind(doc: Seq<ObjV>, kind: Seq<char>) -> bool {
    exists|i: int| 0 <= i < doc.len() && (#[trigger] doc[i]).kind == kind
}

fn any_kind(doc: &Vec<Obj>, kind: &str) -> (r: bool)
    ensures
        r == has_kind(views(doc@), kind@),
{
    let mut i: usize = 0;
    while i < doc.len()
        invariant
            i <= doc.len(),
            forall|k: int| 0 <= k < i ==> (#[trigger] views(doc@)[k]).kind != kind@,
        decreases doc.len() - i,
    {
        assert(views(doc@)[i as int] == doc@[i as int]@);
        if same(doc[i].kind.as_str(), kind) {
            assert(views(doc@)[i as int].kind == kind@);
            return true;
        }
        i = i + 1;
    }
    false
}

/// A list with a kind added where some object is of it.
pub open spec fn found_kind(doc: Seq<ObjV>, s: Seq<Seq<char>>, kind: Seq<char>) -> Seq<Seq<char>> {
    if has_kind(doc, kind) {
        s.push(kind)
    } else {
        s
    }
}

/// The kinds of the balanced transmission profile that a document holds.
pub open spec fn balanced_kinds(doc: Seq<ObjV>) -> Seq<Seq<char>> {
    found_kind(
        doc,
        found_kind(
            doc,
            found_kind(doc, Seq::empty(), "AlgorithmSettings"@),
            "ProducerCostFunction"@,
        ),
        "PowerTransformerEnd"@,
    )
}

/// What a document of the balanced profile is answered.
pub open spec fn balanced_error(found: Seq<Seq<char>>) -> ErrorV {
    ErrorV::Json {
        format: "MG-RAVENS"@,
        message: "document carries balanced transmission-profile objects ("@ + join_of(
            found,
            ", "@,
        )
            + "); the multiconductor distribution reader would invent per-phase detail. Balanced MG-RAVENS documents are read by the transmission hub in the `powerio` crate"@,
    }
}

/// Every family of elements, then the buses.
#[verifier::opaque]
pub open spec fn mapped_of(m: Sem, doc: Seq<ObjV>) -> StateV {
    let st = empty_state().warn(
        "MG-RAVENS carries no system frequency; base_frequency assumes the OpenDSS default (60 Hz)"@,
    );
    let st = map_linecodes_of(m, doc, st);
    let st = map_lines_of(m, doc, st);
    let st = map_switches_of(m, doc, st);
    let st = map_loads_of(m, doc, st);
    let st = map_shunts_of(m, doc, st);
    let st = map_machines_of(m, doc, st);
    let st = map_electronics_of(m, doc, st);
    let st = map_sources_of(m, doc, st);
    let st = map_transformers_of(m, doc, st);
    finish_buses_of(m, doc, st)
}

/// Everything that is mapped, then what is left.
#[verifier::opaque]
pub open spec fn run_of(m: Sem, doc: Seq<ObjV>) -> StateV {
    preserve_of(doc, mapped_of(m, doc))
}

/// The network that a parsed document describes, or why it describes none.
pub open spec fn ravens_value(m: Sem, root: JsonV) -> std::result::Result<DistNetworkV, ErrorV> {
    match root {
        JsonV::Obj(map) => {
            let doc = collect_of(map);
            let found = balanced_kinds(doc);
            if found.len() > 0 {
                Err(balanced_error(found))
            } else {
                Ok(
                    DistNetworkV {
                        source_format: Some(DistSourceFormat::RavensJson),
                        ..run_of(m, doc).net
                    },
                )
            }
        },
        _ => Err(
            ErrorV::Json { format: "MG-RAVENS"@, message: "top level is not an object"@ },
        ),
    }
}

/// The network that a text describes, or why it describes none; a network keeps
/// the text it was read from.
pub open spec fn ravens_text(m: Sem, text: Seq<char>) -> std::result::Result<DistNetworkV, ErrorV> {
    match json_parse(text) {
        Err(e) => Err(ErrorV::Json { format: "MG-RAVENS"@, message: e }),
        Ok(root) => match ravens_value(m, root) {
            Ok(net) => Ok(DistNetworkV { source: Some(text), ..net }),
            Err(e) => Err(e),
        },
    }
}

fn run<C: Calc>(math: &C, doc: &Vec<Obj>) -> (r: State)
    ensures
        r@ == run_of(math.sem(), views(doc@)),
{
    reveal(run_of);
    reveal(mapped_of);
    let mut st = State::new();
    st.warn(
        "MG-RAVENS carries no system frequency; base_frequency assumes the OpenDSS default (60 Hz)".to_owned(),
    );
    map_linecodes(math, doc, &mut st);
    map_lines(math, doc, &mut st);
    map_switches(math, doc, &mut st);
    map_loads(math, doc, &mut st);
    map_shunts(math, doc, &mut st);
    map_machines(math, doc, &mut st);
    map_power_electronics(math, doc, &mut st);
    map_sources(math, doc, &mut st);
    map_transformers(math, doc, &mut st);
    finish_buses(math, doc, &mut st);
    preserve_unclaimed(doc, &mut st);
    st
}

/// Reads a parsed document.
pub fn read_ravens<C: Calc>(math: &C, root: &Json) -> (r: Result<DistNetwork>)
    ensures
        match r {
            Ok(net) => ravens_value(math.sem(), root@) == Ok::<DistNetworkV, ErrorV>(net@),
            Err(e) => ravens_value(math.sem(), root@) == Err::<DistNetworkV, ErrorV>(e@),
        },
{
    broadcast use group_views;

    let map = match root.as_obj() {
        Some(m) => m,
        None => {
            return Err(
                Error::Json {
                    format: "MG-RAVENS",
                    message: "top level is not an object".to_owned(),
                },
            );
        },
    };
    let doc = collect(map);
    let mut found: Vec<String> = Vec::new();
    assert(views(found@) =~= Seq::empty());
    if any_kind(&doc, "AlgorithmSettings") {
        found.push("AlgorithmSettings".to_owned());
    }
    if any_kind(&doc, "ProducerCostFunction") {
        found.push("ProducerCostFunction".to_owned());
    }
    if any_kind(&doc, "PowerTransformerEnd") {
        found.push("PowerTransformerEnd".to_owned());
    }
    assert(views(found@) == balanced_kinds(views(doc@)));
    assert(views(found@).len() == found.len());
    if found.len() > 0 {
        let list = join(&found, ", ");
        return Err(
            Error::Json {
                format: "MG-RAVENS",
                message: cat3(
                    "document carries balanced transmission-profile objects (",
                    list.as_str(),
                    "); the multiconductor distribution reader would invent per-phase detail. Balanced MG-RAVENS documents are read by the transmission hub in the `powerio` crate",
                ),
            },
        );
    }
    let st = run(math, &doc);
    let mut net = st.net;
    net.source_format = Some(DistSourceFormat::RavensJson);
    Ok(net)
}

/// Reads an MG-RAVENS document. What is kept of its objects as text is given
/// back by that text.
pub fn parse_ravens_str<C: Calc>(math: &C, text: &str) -> (r: Result<DistNetwork>)
    ensures
        match r {
            Ok(net) => ravens_text(math.sem(), text@) == Ok::<DistNetworkV, ErrorV>(net@),
            Err(e) => ravens_text(math.sem(), text@) == Err::<DistNetworkV, ErrorV>(e@),
        },
        json_parse(text@) matches Ok(root) ==> given_back(root),
{
    match parse_json(text) {
        Err(e) => Err(Error::Json { format: "MG-RAVENS", message: e }),
        Ok(root) => match read_ravens(math, &root) {
            Ok(n) => {
                let mut net = n;
                net.source = Some(Arc::new(text.to_owned()));
                Ok(net)
            },
            Err(e) => Err(e),
        },
    }
}

} // verus!
