//! What a network that is written without a warning comes back with.

use vstd::prelude::*;

use crate::cim::apparatus::{returned_shunt, returned_source, shunt_stands, source_stands};
use crate::cim::elements::{
    load_stands, returned_line, returned_load, returned_switch, switch_stands,
};
use crate::cim::ends::{returned_transformer, returned_winding, transformer_stands};
use crate::cim::laws::safe_ids;
use crate::cim::losses::{
    bus_whole, lemma_silence_is_whole, load_whole, source_whole, switch_whole, turned_at,
};
use crate::cim::read::{
    cim_text, line_use, load_use, shunt_use, source_use, switch_use, transformer_use, use_at,
    used_terminals, winding_use,
};
use crate::cim::recall::told_apart;
use crate::cim::round_trip::{
    lemma_network_reads_back, line_coded, returned_bus, returned_elements, returned_network, stands,
};
use crate::cim::shown::{
    is_shown, line_shows, load_shows, neutral_ground, phased, shunt_shows, source_shows,
    switch_shows, transformer_shows, winding_shows,
};
use crate::cim::wires::{hot_n, hot_of};
use crate::cim::write::{cim_xml, phase_letter_of, phases_n};
use crate::math::{abs_of, num_le, Sem, NANO};
use crate::model::{
    bus_from, DistBusV, DistLineV, DistLoadV, DistNetworkV, DistShuntV, DistSwitchV,
    DistTransformerV, VoltageSourceV, WindingV,
};
use crate::order::{ascending, lemma_set_extend};
use crate::text::lower_of;

verus! {

// ---- wires in use ----------------------------------------------------------

/// A wire is in use, and what was in use still is.
spec fn keeps(a: Seq<Seq<char>>, b: Seq<Seq<char>>) -> bool {
    &&& ascending(b)
    &&& forall|t: Seq<char>| a.contains(t) ==> #[trigger] b.contains(t)
}

proof fn lemma_use_at(
    used: Seq<Seq<char>>,
    bus: Seq<char>,
    at: Seq<char>,
    terms: Seq<Seq<char>>,
)
    requires
        ascending(used),
    ensures
        keeps(used, use_at(used, bus, at, terms)),
        lower_of(at) == lower_of(bus) ==> forall|t: Seq<char>|
            terms.contains(t) ==> #[trigger] use_at(used, bus, at, terms).contains(t),
{
    lemma_set_extend(used, terms, terms.len());
    assert(terms.take(terms.len() as int) =~= terms);
}

proof fn lemma_line_use(used: Seq<Seq<char>>, bus: Seq<char>, s: Seq<DistLineV>, n: nat)
    requires
        ascending(used),
        n <= s.len(),
    ensures
        keeps(used, line_use(used, bus, s, n)),
        forall|i: int, t: Seq<char>|
            0 <= i < n && lower_of(s[i].bus_from) == lower_of(bus) && (
            #[trigger] s[i]).terminal_map_from.contains(t) ==> #[trigger] line_use(
                used,
                bus,
                s,
                n,
            ).contains(t),
        forall|i: int, t: Seq<char>|
            0 <= i < n && lower_of(s[i].bus_to) == lower_of(bus) && (
            #[trigger] s[i]).terminal_map_to.contains(t) ==> #[trigger] line_use(
                used,
                bus,
                s,
                n,
            ).contains(t),
    decreases n,
{
    if n > 0 {
        lemma_line_use(used, bus, s, (n - 1) as nat);
        let a = line_use(used, bus, s, (n - 1) as nat);
        let x = s[n - 1];
        lemma_use_at(a, bus, x.bus_from, x.terminal_map_from);
        let b = use_at(a, bus, x.bus_from, x.terminal_map_from);
        lemma_use_at(b, bus, x.bus_to, x.terminal_map_to);
    }
}

proof fn lemma_switch_use(used: Seq<Seq<char>>, bus: Seq<char>, s: Seq<DistSwitchV>, n: nat)
    requires
        ascending(used),
        n <= s.len(),
    ensures
        keeps(used, switch_use(used, bus, s, n)),
        forall|i: int, t: Seq<char>|
            0 <= i < n && lower_of(s[i].bus_from) == lower_of(bus) && (
            #[trigger] s[i]).terminal_map_from.contains(t) ==> #[trigger] switch_use(
                used,
                bus,
                s,
                n,
            ).contains(t),
        forall|i: int, t: Seq<char>|
            0 <= i < n && lower_of(s[i].bus_to) == lower_of(bus) && (
            #[trigger] s[i]).terminal_map_to.contains(t) ==> #[trigger] switch_use(
                used,
                bus,
                s,
                n,
            ).contains(t),
    decreases n,
{
    if n > 0 {
        lemma_switch_use(used, bus, s, (n - 1) as nat);
        let a = switch_use(used, bus, s, (n - 1) as nat);
        let x = s[n - 1];
        lemma_use_at(a, bus, x.bus_from, x.terminal_map_from);
        let b = use_at(a, bus, x.bus_from, x.terminal_map_from);
        lemma_use_at(b, bus, x.bus_to, x.terminal_map_to);
    }
}

proof fn lemma_load_use(used: Seq<Seq<char>>, bus: Seq<char>, s: Seq<DistLoadV>, n: nat)
    requires
        ascending(used),
        n <= s.len(),
    ensures
        keeps(used, load_use(used, bus, s, n)),
        forall|i: int, t: Seq<char>|
            0 <= i < n && lower_of(s[i].bus) == lower_of(bus) && (
            #[trigger] s[i]).terminal_map.contains(t) ==> #[trigger] load_use(
                used,
                bus,
                s,
                n,
            ).contains(t),
    decreases n,
{
    if n > 0 {
        lemma_load_use(used, bus, s, (n - 1) as nat);
        let x = s[n - 1];
        lemma_use_at(load_use(used, bus, s, (n - 1) as nat), bus, x.bus, x.terminal_map);
    }
}

proof fn lemma_shunt_use(used: Seq<Seq<char>>, bus: Seq<char>, s: Seq<DistShuntV>, n: nat)
    requires
        ascending(used),
        n <= s.len(),
    ensures
        keeps(used, shunt_use(used, bus, s, n)),
        forall|i: int, t: Seq<char>|
            0 <= i < n && lower_of(s[i].bus) == lower_of(bus) && (
            #[trigger] s[i]).terminal_map.contains(t) ==> #[trigger] shunt_use(
                used,
                bus,
                s,
                n,
            ).contains(t),
    decreases n,
{
    if n > 0 {
        lemma_shunt_use(used, bus, s, (n - 1) as nat);
        let x = s[n - 1];
        lemma_use_at(shunt_use(used, bus, s, (n - 1) as nat), bus, x.bus, x.terminal_map);
    }
}

proof fn lemma_winding_use(used: Seq<Seq<char>>, bus: Seq<char>, s: Seq<WindingV>, n: nat)
    requires
        ascending(used),
        n <= s.len(),
    ensures
        keeps(used, winding_use(used, bus, s, n)),
        forall|i: int, t: Seq<char>|
            0 <= i < n && lower_of(s[i].bus) == lower_of(bus) && (
            #[trigger] s[i]).terminal_map.contains(t) ==> #[trigger] winding_use(
                used,
                bus,
                s,
                n,
            ).contains(t),
    decreases n,
{
    if n > 0 {
        lemma_winding_use(used, bus, s, (n - 1) as nat);
        let x = s[n - 1];
        lemma_use_at(winding_use(used, bus, s, (n - 1) as nat), bus, x.bus, x.terminal_map);
    }
}

proof fn lemma_source_use(used: Seq<Seq<char>>, bus: Seq<char>, s: Seq<VoltageSourceV>, n: nat)
    requires
        ascending(used),
        n <= s.len(),
    ensures
        keeps(used, source_use(used, bus, s, n)),
        forall|i: int, t: Seq<char>|
            0 <= i < n && lower_of(s[i].bus) == lower_of(bus) && (
            #[trigger] s[i]).terminal_map.contains(t) ==> #[trigger] source_use(
                used,
                bus,
                s,
                n,
            ).contains(t),
    decreases n,
{
    if n > 0 {
        lemma_source_use(used, bus, s, (n - 1) as nat);
        let x = s[n - 1];
        lemma_use_at(source_use(used, bus, s, (n - 1) as nat), bus, x.bus, x.terminal_map);
    }
}

proof fn lemma_transformer_use(
    used: Seq<Seq<char>>,
    bus: Seq<char>,
    s: Seq<DistTransformerV>,
    n: nat,
)
    requires
        ascending(used),
        n <= s.len(),
    ensures
        keeps(used, transformer_use(used, bus, s, n)),
        forall|i: int, k: int, t: Seq<char>|
            0 <= i < n && 0 <= k < s[i].windings.len() && lower_of(s[i].windings[k].bus)
                == lower_of(bus) && (#[trigger] s[i].windings[k]).terminal_map.contains(t)
                ==> #[trigger] transformer_use(used, bus, s, n).contains(t),
    decreases n,
{
    if n > 0 {
        lemma_transformer_use(used, bus, s, (n - 1) as nat);
        let x = s[n - 1].windings;
        lemma_winding_use(transformer_use(used, bus, s, (n - 1) as nat), bus, x, x.len());
    }
}

// ---- buses -----------------------------------------------------------------

proof fn lemma_bus_at(s: Seq<DistBusV>, id: Seq<char>, i: int)
    requires
        0 <= i,
    ensures
        bus_from(s, id, i) matches Some(b) ==> lower_of(b.id) == lower_of(id),
    decreases s.len() - i,
{
    if i < s.len() {
        lemma_bus_at(s, id, i + 1);
    }
}

proof fn lemma_hot(map: Seq<Seq<char>>, n: nat, t: Seq<char>, k: int)
    requires
        0 <= k < n <= map.len(),
        map[k] == t,
        t != "4"@,
        phase_letter_of(t) is Some,
    ensures
        hot_n(map, n).contains(t),
    decreases n,
{
    let before = hot_n(map, (n - 1) as nat);
    let r = hot_n(map, n);
    if k == n - 1 {
        assert(r[before.len() as int] == t);
    } else {
        lemma_hot(map, (n - 1) as nat, t, k);
        let j = choose|j: int| 0 <= j < before.len() && before[j] == t;
        assert(r[j] == t);
    }
}

proof fn lemma_phased(map: Seq<Seq<char>>, t: Seq<char>)
    requires
        phased(map, t),
    ensures
        hot_of(map).contains(t),
{
    let k = choose|k: int| 0 <= k < map.len() && map[k] == t;
    lemma_hot(map, map.len(), t, k);
}

proof fn lemma_hot_count(map: Seq<Seq<char>>, n: nat)
    ensures
        phases_n(map, n).len() == hot_n(map, n).len(),
    decreases n,
{
    if n > 0 {
        lemma_hot_count(map, (n - 1) as nat);
    }
}

proof fn lemma_pushed(map: Seq<Seq<char>>, x: Seq<char>)
    ensures
        map.push(x).contains(x),
        forall|t: Seq<char>| map.contains(t) ==> #[trigger] map.push(x).contains(t),
{
    let r = map.push(x);
    assert(r[map.len() as int] == x);
    assert forall|t: Seq<char>| map.contains(t) implies #[trigger] r.contains(t) by {
        let k = choose|k: int| 0 <= k < map.len() && map[k] == t;
        assert(r[k] == t);
    }
}

/// A wire that an element presents at a bus is in use there once the network is
/// read.
#[verifier::rlimit(60)]
proof fn lemma_shown_is_used(m: Sem, net: DistNetworkV, id: Seq<char>, t: Seq<char>)
    requires
        stands(m, net),
        is_shown(net, id, t),
    ensures
        used_terminals(id, returned_elements(m, net)).contains(t),
{
    let e = returned_elements(m, net);
    reveal(used_terminals);
    let u0 = Seq::<Seq<char>>::empty();
    let u1 = line_use(u0, id, e.lines, e.lines.len());
    let u2 = switch_use(u1, id, e.switches, e.switches.len());
    let u3 = load_use(u2, id, e.loads, e.loads.len());
    let u4 = shunt_use(u3, id, e.shunts, e.shunts.len());
    let u5 = transformer_use(u4, id, e.transformers, e.transformers.len());
    lemma_line_use(u0, id, e.lines, e.lines.len());
    lemma_switch_use(u1, id, e.switches, e.switches.len());
    lemma_load_use(u2, id, e.loads, e.loads.len());
    lemma_shunt_use(u3, id, e.shunts, e.shunts.len());
    lemma_transformer_use(u4, id, e.transformers, e.transformers.len());
    lemma_source_use(u5, id, e.sources, e.sources.len());
    assert forall|bus: Seq<char>| #[trigger] net.bus(bus) is Some implies lower_of(
        net.bus(bus)->0.id,
    ) == lower_of(bus) by {
        lemma_bus_at(net.buses, bus, 0);
    }
    assert forall|map: Seq<Seq<char>>| #[trigger] phased(map, t) implies hot_of(map).contains(
        t,
    ) by {
        lemma_phased(map, t);
    }
    assert forall|map: Seq<Seq<char>>| (#[trigger] map.push("4"@)).contains("4"@) && (
    map.contains(t) ==> map.push("4"@).contains(t)) by {
        lemma_pushed(map, "4"@);
        assert(map.contains(t) ==> map.push("4"@).contains(t));
    }
    if exists|i: int| 0 <= i < net.lines.len() && line_shows(#[trigger] net.lines[i], id, t) {
        let i = choose|i: int| 0 <= i < net.lines.len() && line_shows(#[trigger] net.lines[i], id, t);
        assert(line_coded(m, net, net.lines[i]));
        assert(e.lines[i] == returned_line(net, net.lines[i]));
        assert(u1.contains(t));
    } else if exists|i: int|
        0 <= i < net.switches.len() && switch_shows(#[trigger] net.switches[i], id, t) {
        let i = choose|i: int|
            0 <= i < net.switches.len() && switch_shows(#[trigger] net.switches[i], id, t);
        assert(switch_stands(net, net.switches[i]));
        assert(e.switches[i] == returned_switch(net, net.switches[i]));
        assert(u2.contains(t));
    } else if exists|i: int|
        0 <= i < net.loads.len() && load_shows(#[trigger] net.loads[i], id, t) {
        let i = choose|i: int|
            0 <= i < net.loads.len() && load_shows(#[trigger] net.loads[i], id, t);
        assert(load_stands(m, net, net.loads[i]));
        assert(e.loads[i] == returned_load(net, net.loads[i]));
        assert(u3.contains(t));
    } else if exists|i: int|
        0 <= i < net.shunts.len() && shunt_shows(#[trigger] net.shunts[i], id, t) {
        let i = choose|i: int|
            0 <= i < net.shunts.len() && shunt_shows(#[trigger] net.shunts[i], id, t);
        assert(shunt_stands(m, net, net.shunts[i]));
        assert(e.shunts[i] == returned_shunt(net, net.shunts[i]));
        assert(u4.contains(t));
    } else if exists|i: int|
        0 <= i < net.sources.len() && source_shows(#[trigger] net.sources[i], id, t) {
        let i = choose|i: int|
            0 <= i < net.sources.len() && source_shows(#[trigger] net.sources[i], id, t);
        assert(source_stands(m, net, net.sources[i]));
        assert(e.sources[i] == returned_source(m, net, net.sources[i]));
    } else {
        let i = choose|i: int|
            0 <= i < net.transformers.len() && transformer_shows(
                #[trigger] net.transformers[i],
                id,
                t,
            );
        let xf = net.transformers[i];
        assert(transformer_stands(m, net, xf));
        let back = returned_transformer(m, net, xf);
        assert(e.transformers[i] == back);
        let k: int = if winding_shows(xf.windings[0], id, t) {
            0
        } else {
            1
        };
        assert(back.windings[k] == returned_winding(m, net, xf.windings[k]));
        assert(winding_shows(xf.windings[k], id, t));
        assert(u5.contains(t));
    }
}

// ---- the law ---------------------------------------------------------------

/// What of a network a network that came back of it holds: each bus with its
/// terminals and its grounding, each load with its powers, and each source with
/// its angles.
pub open spec fn holds(m: Sem, net: DistNetworkV, back: DistNetworkV) -> bool {
    &&& back.name == net.name
    &&& back.geo == net.geo
    &&& back.buses.len() == net.buses.len()
    &&& forall|i: int|
        0 <= i < net.buses.len() ==> holds_bus(#[trigger] net.buses[i], back.buses[i])
    &&& back.loads.len() == net.loads.len()
    &&& forall|i: int|
        0 <= i < net.loads.len() ==> holds_load(#[trigger] net.loads[i], back.loads[i])
    &&& back.switches.len() == net.switches.len()
    &&& forall|i: int|
        0 <= i < net.switches.len() ==> (#[trigger] net.switches[i]).i_max
            == back.switches[i].i_max
    &&& back.sources.len() == net.sources.len()
    &&& forall|i: int|
        0 <= i < net.sources.len() ==> holds_source(m, #[trigger] net.sources[i], back.sources[i])
}

pub open spec fn holds_bus(b: DistBusV, back: DistBusV) -> bool {
    &&& back.id == b.id
    &&& forall|t: Seq<char>| b.terminals.contains(t) ==> #[trigger] back.terminals.contains(t)
    &&& b.grounded.len() > 0 ==> back.grounded == b.grounded
    &&& back.location == b.location
    &&& back.v_min == b.v_min
    &&& back.v_max == b.v_max
    &&& back.vpn_min == b.vpn_min
    &&& back.vpn_max == b.vpn_max
    &&& back.vpp_min == b.vpp_min
    &&& back.vpp_max == b.vpp_max
    &&& back.vsym_min == b.vsym_min
    &&& back.vsym_max == b.vsym_max
}

pub open spec fn holds_load(e: DistLoadV, back: DistLoadV) -> bool {
    &&& back.name == e.name
    &&& back.configuration == e.configuration
    &&& forall|k: int| 0 <= k < e.p_nom.len() ==> k < back.p_nom.len() && #[trigger] e.p_nom[k]
        == back.p_nom[k]
    &&& forall|k: int| 0 <= k < e.q_nom.len() ==> k < back.q_nom.len() && #[trigger] e.q_nom[k]
        == back.q_nom[k]
}

/// The angles of the phases are those that come back, to a billionth.
pub open spec fn holds_source(m: Sem, e: VoltageSourceV, back: VoltageSourceV) -> bool {
    &&& back.name == e.name
    &&& forall|k: int|
        1 <= k < e.v_angle.len() && k < e.terminal_map.len() && e.terminal_map[k] != "4"@
            ==> num_le(abs_of(m.minus(#[trigger] e.v_angle[k], back.v_angle[k])), NANO)
}

/// What a network that is written without a warning has comes back: what is read
/// of the document holds the terminals and the grounding of each bus, the powers
/// of each load and the angles of each source. The elements must stand, as reading
/// back asks of them.
#[verifier::rlimit(60)]
pub proof fn lemma_silent_comes_back(m: Sem, net: DistNetworkV)
    requires
        safe_ids(net),
        told_apart(m, net),
        stands(m, net),
        cim_xml(m, net).warnings.len() == 0,
    ensures
        cim_text(m, cim_xml(m, net).text) matches Ok(back) && holds(m, net, back),
{
    lemma_network_reads_back(m, net);
    lemma_silence_is_whole(m, net);
    let e = returned_elements(m, net);
    let back = returned_network(m, net);
    assert forall|i: int| 0 <= i < net.buses.len() implies holds_bus(
        #[trigger] net.buses[i],
        back.buses[i],
    ) by {
        let b = net.buses[i];
        assert(bus_whole(net, b));
        assert(back.buses[i] == returned_bus(b, e));
        assert forall|t: Seq<char>| b.terminals.contains(t) implies #[trigger]
            back.buses[i].terminals.contains(t) by {
            let k = choose|k: int| 0 <= k < b.terminals.len() && b.terminals[k] == t;
            assert(is_shown(net, b.id, b.terminals[k]));
            lemma_shown_is_used(m, net, b.id, t);
        }
        assert(b.grounded == neutral_ground(b));
        if b.terminals.contains("4"@) {
            assert(back.buses[i].terminals.contains("4"@));
        }
    }
    assert forall|i: int| 0 <= i < net.loads.len() implies holds_load(
        #[trigger] net.loads[i],
        back.loads[i],
    ) by {
        let x = net.loads[i];
        assert(load_whole(x));
        lemma_hot_count(x.terminal_map, x.terminal_map.len());
        assert(back.loads[i] == returned_load(net, x));
    }
    assert forall|i: int| 0 <= i < net.switches.len() implies (
    #[trigger] net.switches[i]).i_max == back.switches[i].i_max by {
        assert(switch_whole(net.switches[i]));
        assert(back.switches[i] == returned_switch(net, net.switches[i]));
    }
    assert forall|i: int| 0 <= i < net.sources.len() implies holds_source(
        m,
        #[trigger] net.sources[i],
        back.sources[i],
    ) by {
        let x = net.sources[i];
        assert(source_whole(m, x));
        assert(back.sources[i] == returned_source(m, net, x));
        assert forall|k: int|
            1 <= k < x.v_angle.len() && k < x.terminal_map.len() && x.terminal_map[k]
                != "4"@ implies num_le(
            abs_of(m.minus(#[trigger] x.v_angle[k], back.sources[i].v_angle[k])),
            NANO,
        ) by {
            assert(!turned_at(m, x, k));
        }
    }
}

} // verus!
