//! The wires that the elements of a network present at its buses, and so what of
//! a bus a document carries.

use vstd::prelude::*;

use crate::cim::write::{phase_letter, phase_letter_of};
use crate::model::{
    Configuration, DistBus, DistBusV, DistLine, DistLineV, DistLoad, DistLoadV, DistNetwork,
    DistNetworkV, DistShunt, DistShuntV, DistSwitch, DistSwitchV, DistTransformer, DistTransformerV,
    VoltageSource, VoltageSourceV, Winding, WindingConn, WindingV,
};
use crate::order::contains;
use crate::text::{lower, lower_of, same, views};

verus! {

/// Two names are those of one bus.
pub open spec fn is_at(bus: Seq<char>, id: Seq<char>) -> bool {
    lower_of(bus) == lower_of(id)
}

fn at(bus: &str, id: &str) -> (r: bool)
    ensures
        r == is_at(bus@, id@),
{
    same(bus, id) || same(lower(bus).as_str(), lower(id).as_str())
}

/// A phase among the wires of an element.
pub open spec fn phased(map: Seq<Seq<char>>, t: Seq<char>) -> bool {
    t != "4"@ && phase_letter_of(t) is Some && map.contains(t)
}

fn has_phase(map: &Vec<String>, t: &str) -> (r: bool)
    ensures
        r == phased(views(map@), t@),
{
    !same(t, "4") && phase_letter(t).is_some() && contains(map, t)
}

/// A wire that a phase code names, or the neutral where there is one.
pub open spec fn coded(map: Seq<Seq<char>>, neutral: bool, t: Seq<char>) -> bool {
    phased(map, t) || (t == "4"@ && (neutral || map.contains(t)))
}

fn has_wire(map: &Vec<String>, neutral: bool, t: &str) -> (r: bool)
    ensures
        r == coded(views(map@), neutral, t@),
{
    has_phase(map, t) || (same(t, "4") && (neutral || contains(map, t)))
}

pub open spec fn line_shows(e: DistLineV, id: Seq<char>, t: Seq<char>) -> bool {
    phased(e.terminal_map_from, t) && (is_at(e.bus_from, id) || is_at(e.bus_to, id))
}

pub open spec fn switch_shows(e: DistSwitchV, id: Seq<char>, t: Seq<char>) -> bool {
    coded(e.terminal_map_from, false, t) && (is_at(e.bus_from, id) || is_at(e.bus_to, id))
}

pub open spec fn load_shows(e: DistLoadV, id: Seq<char>, t: Seq<char>) -> bool {
    (phased(e.terminal_map, t) || (t == "4"@ && e.configuration != Configuration::Delta)) && is_at(
        e.bus,
        id,
    )
}

pub open spec fn shunt_shows(e: DistShuntV, id: Seq<char>, t: Seq<char>) -> bool {
    phased(e.terminal_map, t) && is_at(e.bus, id)
}

pub open spec fn source_shows(e: VoltageSourceV, id: Seq<char>, t: Seq<char>) -> bool {
    coded(e.terminal_map, true, t) && is_at(e.bus, id)
}

pub open spec fn winding_shows(e: WindingV, id: Seq<char>, t: Seq<char>) -> bool {
    coded(e.terminal_map, e.conn == WindingConn::Wye, t) && is_at(e.bus, id)
}

pub open spec fn transformer_shows(e: DistTransformerV, id: Seq<char>, t: Seq<char>) -> bool {
    e.windings.len() == 2 && (winding_shows(e.windings[0], id, t) || winding_shows(
        e.windings[1],
        id,
        t,
    ))
}

pub open spec fn some_line(s: Seq<DistLineV>, id: Seq<char>, t: Seq<char>) -> bool {
    exists|i: int| 0 <= i < s.len() && line_shows(#[trigger] s[i], id, t)
}

pub open spec fn some_switch(s: Seq<DistSwitchV>, id: Seq<char>, t: Seq<char>) -> bool {
    exists|i: int| 0 <= i < s.len() && switch_shows(#[trigger] s[i], id, t)
}

pub open spec fn some_load(s: Seq<DistLoadV>, id: Seq<char>, t: Seq<char>) -> bool {
    exists|i: int| 0 <= i < s.len() && load_shows(#[trigger] s[i], id, t)
}

pub open spec fn some_shunt(s: Seq<DistShuntV>, id: Seq<char>, t: Seq<char>) -> bool {
    exists|i: int| 0 <= i < s.len() && shunt_shows(#[trigger] s[i], id, t)
}

pub open spec fn some_source(s: Seq<VoltageSourceV>, id: Seq<char>, t: Seq<char>) -> bool {
    exists|i: int| 0 <= i < s.len() && source_shows(#[trigger] s[i], id, t)
}

pub open spec fn some_transformer(s: Seq<DistTransformerV>, id: Seq<char>, t: Seq<char>) -> bool {
    exists|i: int| 0 <= i < s.len() && transformer_shows(#[trigger] s[i], id, t)
}

/// Some element that is written presents a wire at a bus.
pub open spec fn is_shown(net: DistNetworkV, id: Seq<char>, t: Seq<char>) -> bool {
    ||| some_line(net.lines, id, t)
    ||| some_switch(net.switches, id, t)
    ||| some_load(net.loads, id, t)
    ||| some_shunt(net.shunts, id, t)
    ||| some_source(net.sources, id, t)
    ||| some_transformer(net.transformers, id, t)
}

fn shows_line(e: &DistLine, id: &str, t: &str) -> (r: bool)
    ensures
        r == line_shows(e@, id@, t@),
{
    has_phase(&e.terminal_map_from, t) && (at(e.bus_from.as_str(), id) || at(
        e.bus_to.as_str(),
        id,
    ))
}

fn any_line(s: &Vec<DistLine>, id: &str, t: &str) -> (r: bool)
    ensures
        r == some_line(views(s@), id@, t@),
{
    let mut i: usize = 0;
    while i < s.len()
        invariant
            i <= s.len(),
            forall|k: int| 0 <= k < i ==> !line_shows(#[trigger] views(s@)[k], id@, t@),
        decreases s.len() - i,
    {
        assert(views(s@)[i as int] == s@[i as int]@);
        if shows_line(&s[i], id, t) {
            assert(line_shows(views(s@)[i as int], id@, t@));
            return true;
        }
        i = i + 1;
    }
    assert(views(s@).len() == s.len());
    false
}

fn shows_switch(e: &DistSwitch, id: &str, t: &str) -> (r: bool)
    ensures
        r == switch_shows(e@, id@, t@),
{
    has_wire(&e.terminal_map_from, false, t) && (at(e.bus_from.as_str(), id) || at(
        e.bus_to.as_str(),
        id,
    ))
}

fn any_switch(s: &Vec<DistSwitch>, id: &str, t: &str) -> (r: bool)
    ensures
        r == some_switch(views(s@), id@, t@),
{
    let mut i: usize = 0;
    while i < s.len()
        invariant
            i <= s.len(),
            forall|k: int| 0 <= k < i ==> !switch_shows(#[trigger] views(s@)[k], id@, t@),
        decreases s.len() - i,
    {
        assert(views(s@)[i as int] == s@[i as int]@);
        if shows_switch(&s[i], id, t) {
            assert(switch_shows(views(s@)[i as int], id@, t@));
            return true;
        }
        i = i + 1;
    }
    assert(views(s@).len() == s.len());
    false
}

fn shows_load(e: &DistLoad, id: &str, t: &str) -> (r: bool)
    ensures
        r == load_shows(e@, id@, t@),
{
    (has_phase(&e.terminal_map, t) || (same(t, "4") && match e.configuration {
        Configuration::Delta => false,
        _ => true,
    })) && at(e.bus.as_str(), id)
}

fn any_load(s: &Vec<DistLoad>, id: &str, t: &str) -> (r: bool)
    ensures
        r == some_load(views(s@), id@, t@),
{
    let mut i: usize = 0;
    while i < s.len()
        invariant
            i <= s.len(),
            forall|k: int| 0 <= k < i ==> !load_shows(#[trigger] views(s@)[k], id@, t@),
        decreases s.len() - i,
    {
        assert(views(s@)[i as int] == s@[i as int]@);
        if shows_load(&s[i], id, t) {
            assert(load_shows(views(s@)[i as int], id@, t@));
            return true;
        }
        i = i + 1;
    }
    assert(views(s@).len() == s.len());
    false
}

fn shows_shunt(e: &DistShunt, id: &str, t: &str) -> (r: bool)
    ensures
        r == shunt_shows(e@, id@, t@),
{
    has_phase(&e.terminal_map, t) && at(e.bus.as_str(), id)
}

fn any_shunt(s: &Vec<DistShunt>, id: &str, t: &str) -> (r: bool)
    ensures
        r == some_shunt(views(s@), id@, t@),
{
    let mut i: usize = 0;
    while i < s.len()
        invariant
            i <= s.len(),
            forall|k: int| 0 <= k < i ==> !shunt_shows(#[trigger] views(s@)[k], id@, t@),
        decreases s.len() - i,
    {
        assert(views(s@)[i as int] == s@[i as int]@);
        if shows_shunt(&s[i], id, t) {
            assert(shunt_shows(views(s@)[i as int], id@, t@));
            return true;
        }
        i = i + 1;
    }
    assert(views(s@).len() == s.len());
    false
}

fn shows_source(e: &VoltageSource, id: &str, t: &str) -> (r: bool)
    ensures
        r == source_shows(e@, id@, t@),
{
    has_wire(&e.terminal_map, true, t) && at(e.bus.as_str(), id)
}

fn any_source(s: &Vec<VoltageSource>, id: &str, t: &str) -> (r: bool)
    ensures
        r == some_source(views(s@), id@, t@),
{
    let mut i: usize = 0;
    while i < s.len()
        invariant
            i <= s.len(),
            forall|k: int| 0 <= k < i ==> !source_shows(#[trigger] views(s@)[k], id@, t@),
        decreases s.len() - i,
    {
        assert(views(s@)[i as int] == s@[i as int]@);
        if shows_source(&s[i], id, t) {
            assert(source_shows(views(s@)[i as int], id@, t@));
            return true;
        }
        i = i + 1;
    }
    assert(views(s@).len() == s.len());
    false
}

fn shows_winding(e: &Winding, id: &str, t: &str) -> (r: bool)
    ensures
        r == winding_shows(e@, id@, t@),
{
    let wye = match e.conn {
        WindingConn::Wye => true,
        WindingConn::Delta => false,
    };
    has_wire(&e.terminal_map, wye, t) && at(e.bus.as_str(), id)
}

fn shows_transformer(e: &DistTransformer, id: &str, t: &str) -> (r: bool)
    ensures
        r == transformer_shows(e@, id@, t@),
{
    assert(e@.windings.len() == e.windings.len());
    if e.windings.len() != 2 {
        return false;
    }
    assert(e@.windings[0] == e.windings@[0]@ && e@.windings[1] == e.windings@[1]@);
    shows_winding(&e.windings[0], id, t) || shows_winding(&e.windings[1], id, t)
}

fn any_transformer(s: &Vec<DistTransformer>, id: &str, t: &str) -> (r: bool)
    ensures
        r == some_transformer(views(s@), id@, t@),
{
    let mut i: usize = 0;
    while i < s.len()
        invariant
            i <= s.len(),
            forall|k: int| 0 <= k < i ==> !transformer_shows(#[trigger] views(s@)[k], id@, t@),
        decreases s.len() - i,
    {
        assert(views(s@)[i as int] == s@[i as int]@);
        if shows_transformer(&s[i], id, t) {
            assert(transformer_shows(views(s@)[i as int], id@, t@));
            return true;
        }
        i = i + 1;
    }
    assert(views(s@).len() == s.len());
    false
}

fn shown(net: &DistNetwork, id: &str, t: &str) -> (r: bool)
    ensures
        r == is_shown(net@, id@, t@),
{
    any_line(&net.lines, id, t) || any_switch(&net.switches, id, t) || any_load(
        &net.loads,
        id,
        t,
    ) || any_shunt(&net.shunts, id, t) || any_source(&net.sources, id, t) || any_transformer(
        &net.transformers,
        id,
        t,
    )
}

/// Some terminal of a bus is on no element that is written.
pub open spec fn has_hidden(net: DistNetworkV, b: DistBusV) -> bool {
    exists|i: int|
        0 <= i < b.terminals.len() && !is_shown(net, b.id, #[trigger] b.terminals[i])
}

pub fn hidden(net: &DistNetwork, b: &DistBus) -> (r: bool)
    ensures
        r == has_hidden(net@, b@),
{
    assert(b@.terminals.len() == b.terminals.len());
    let mut i: usize = 0;
    while i < b.terminals.len()
        invariant
            i <= b.terminals.len(),
            b@.terminals.len() == b.terminals.len(),
            forall|k: int| 0 <= k < i ==> is_shown(net@, b@.id, #[trigger] b@.terminals[k]),
        decreases b.terminals.len() - i,
    {
        assert(b@.terminals[i as int] == b.terminals@[i as int]@);
        if !shown(net, b.id.as_str(), b.terminals[i].as_str()) {
            assert(!is_shown(net@, b@.id, b@.terminals[i as int]));
            return true;
        }
        i = i + 1;
    }
    false
}

/// The grounding that a bus is read with: that of its neutral.
pub open spec fn neutral_ground(b: DistBusV) -> Seq<Seq<char>> {
    if b.terminals.contains("4"@) {
        seq!["4"@]
    } else {
        seq![]
    }
}

pub fn grounds_neutral(b: &DistBus) -> (r: bool)
    ensures
        r == (b@.grounded == neutral_ground(b@)),
{
    assert(b@.grounded.len() == b.grounded.len());
    if contains(&b.terminals, "4") {
        if b.grounded.len() == 1 && same(b.grounded[0].as_str(), "4") {
            assert(b@.grounded[0] == b.grounded@[0]@);
            assert(b@.grounded =~= seq!["4"@]);
            true
        } else {
            assert(b.grounded.len() == 1 ==> b@.grounded[0] == b.grounded@[0]@);
            assert(seq!["4"@].len() == 1 && seq!["4"@][0] == "4"@);
            false
        }
    } else {
        if b.grounded.len() == 0 {
            assert(b@.grounded =~= seq![]);
        }
        b.grounded.len() == 0
    }
}

} // verus!
