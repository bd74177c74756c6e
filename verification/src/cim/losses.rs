//! What a distribution CIM document cannot carry of a network, beside what its
//! elements report as they are written.

use vstd::prelude::*;

use crate::cim::read::phase_angle;
use crate::cim::shown::{grounds_neutral, has_hidden, hidden, neutral_ground};
use crate::cim::write::{any_off_diagonal, cim_xml, has_nonzero, network_doc, phases_n, phases_of};
use crate::math::{
    abs, abs_of, eq, from_int, le, minus, num_eq, num_le, over, times, Bits, Calc, Sem, NANO, PI,
    THREE, TWO,
};
use crate::model::{
    entry, entry_of, DistBus, DistBusV, DistLineCode, DistLineCodeV, DistLoad, DistLoadV,
    DistLoadVoltageModel, DistLoadVoltageModelV, DistNetwork, DistNetworkV, DistShunt, DistShuntV,
    DistSwitch, DistSwitchV, DistTransformer, DistTransformerV, Mat, MatV, VoltageSource,
    VoltageSourceV,
};
use crate::text::{cat3, group_views, same, views};

verus! {

/// The warnings with one that something is lost, where it is there.
pub open spec fn lost(w: Seq<Seq<char>>, there: bool, text: Seq<char>) -> Seq<Seq<char>> {
    if there {
        w.push(text)
    } else {
        w
    }
}

pub fn say(w: &mut Vec<String>, there: bool, kind: &str, name: &str, what: &str)
    ensures
        views(final(w)@) == lost(views(old(w)@), there, kind@ + name@ + what@),
{
    broadcast use group_views;

    if there {
        w.push(cat3(kind, name, what));
    }
}

// ---- matrices --------------------------------------------------------------

/// Some entry among the first `n` rows and columns differs from that of another
/// matrix, which may be read across the diagonal.
pub open spec fn departs(a: MatV, b: MatV, n: nat, across: bool) -> bool {
    exists|i: int, j: int| #[trigger] departs_at(a, b, n, across, i, j)
}

pub open spec fn departs_at(a: MatV, b: MatV, n: nat, across: bool, i: int, j: int) -> bool {
    0 <= i < n && 0 <= j < n && !num_eq(
        entry_of(a, i, j),
        if across {
            entry_of(b, j, i)
        } else {
            entry_of(b, i, j)
        },
    )
}

fn differs(a: &Mat, b: &Mat, n: usize, across: bool) -> (r: bool)
    ensures
        r == departs(views(a@), views(b@), n as nat, across),
{
    let mut i: usize = 0;
    while i < n
        invariant
            i <= n,
            forall|p: int, q: int|
                p < i ==> !#[trigger] departs_at(views(a@), views(b@), n as nat, across, p, q),
        decreases n - i,
    {
        let mut j: usize = 0;
        while j < n
            invariant
                i < n,
                j <= n,
                forall|p: int, q: int|
                    p < i ==> !#[trigger] departs_at(views(a@), views(b@), n as nat, across, p, q),
                forall|q: int|
                    q < j ==> !#[trigger] departs_at(
                        views(a@),
                        views(b@),
                        n as nat,
                        across,
                        i as int,
                        q,
                    ),
            decreases n - j,
        {
            let other = if across {
                entry(b, j, i)
            } else {
                entry(b, i, j)
            };
            if !eq(entry(a, i, j), other) {
                assert(departs_at(views(a@), views(b@), n as nat, across, i as int, j as int));
                return true;
            }
            j = j + 1;
        }
        i = i + 1;
    }
    false
}

/// The values among the first `n` differ from the first.
pub open spec fn spread(v: Seq<Bits>, n: nat) -> bool {
    exists|i: int| 0 <= i < n && i < v.len() && !num_eq(#[trigger] v[i], v[0])
}

fn is_spread(v: &Vec<Bits>, n: usize) -> (r: bool)
    ensures
        r == spread(v@, n as nat),
{
    let mut i: usize = 0;
    while i < n && i < v.len()
        invariant
            i <= v.len(),
            forall|k: int| 0 <= k < i ==> num_eq(#[trigger] v@[k], v@[0]),
        decreases v.len() - i,
    {
        if !eq(v[i], v[0]) {
            assert(!num_eq(v@[i as int], v@[0]));
            return true;
        }
        i = i + 1;
    }
    false
}

// ---- elements --------------------------------------------------------------

/// A bus has bounds of some kind.
pub open spec fn bounded(b: DistBusV) -> bool {
    b.v_min is Some || b.v_max is Some || b.vpn_min is Some || b.vpn_max is Some || b.vpp_min
        is Some || b.vpp_max is Some || b.vsym_min is Some || b.vsym_max is Some
}

/// The nominal volts of a load of constant power.
pub open spec fn constant_volts(model: DistLoadVoltageModelV) -> Seq<Bits> {
    match model {
        DistLoadVoltageModelV::ConstantPower { v_nom } => v_nom,
        _ => seq![],
    }
}

pub open spec fn lost_bus(w: Seq<Seq<char>>, net: DistNetworkV, e: DistBusV) -> Seq<Seq<char>> {
    let w = lost(
        w,
        bounded(e),
        "bus "@ + e.id + ": voltage bounds have no distribution CIM slot; dropped"@,
    );
    let w = lost(
        w,
        e.location is Some,
        "bus "@ + e.id + ": its position has no distribution CIM slot; dropped"@,
    );
    let w = lost(
        w,
        has_hidden(net, e),
        "bus "@ + e.id + ": a terminal that no written element is on is not recovered"@,
    );
    lost(
        w,
        e.grounded != neutral_ground(e),
        "bus "@ + e.id + ": its grounding has no distribution CIM slot; a neutral is read as grounded"@,
    )
}

pub open spec fn lost_buses(
    w: Seq<Seq<char>>,
    net: DistNetworkV,
    s: Seq<DistBusV>,
    n: nat,
) -> Seq<Seq<char>>
    decreases n,
{
    if n == 0 {
        w
    } else {
        lost_bus(lost_buses(w, net, s, (n - 1) as nat), net, s[n - 1])
    }
}

fn say_bus(w: &mut Vec<String>, net: &DistNetwork, e: &DistBus)
    ensures
        views(final(w)@) == lost_bus(views(old(w)@), net@, e@),
{
    say(
        w,
        e.v_min.is_some()
            || e.v_max.is_some()
            || e.vpn_min.is_some()
            || e.vpn_max.is_some()
            || e.vpp_min.is_some()
            || e.vpp_max.is_some()
            || e.vsym_min.is_some()
            || e.vsym_max.is_some(),
        "bus ",
        e.id.as_str(),
        ": voltage bounds have no distribution CIM slot; dropped",
    );
    say(
        w,
        e.location.is_some(),
        "bus ",
        e.id.as_str(),
        ": its position has no distribution CIM slot; dropped",
    );
    say(
        w,
        hidden(net, e),
        "bus ",
        e.id.as_str(),
        ": a terminal that no written element is on is not recovered",
    );
    say(
        w,
        !grounds_neutral(e),
        "bus ",
        e.id.as_str(),
        ": its grounding has no distribution CIM slot; a neutral is read as grounded",
    );
}

fn say_buses(w: &mut Vec<String>, net: &DistNetwork, s: &Vec<DistBus>)
    ensures
        views(final(w)@) == lost_buses(views(old(w)@), net@, views(s@), views(s@).len()),
{
    assert(views(s@).len() == s.len());
    let mut i: usize = 0;
    while i < s.len()
        invariant
            i <= s.len(),
            views(w@) == lost_buses(views(old(w)@), net@, views(s@), i as nat),
        decreases s.len() - i,
    {
        assert(views(s@)[i as int] == s@[i as int]@);
        say_bus(w, net, &s[i]);
        i = i + 1;
    }
}

pub open spec fn lost_code(w: Seq<Seq<char>>, e: DistLineCodeV) -> Seq<Seq<char>> {
    let w = lost(
        w,
        departs(e.r_series, e.r_series, e.n_conductors as nat, true)
            || departs(e.x_series, e.x_series, e.n_conductors as nat, true),
        "linecode "@ + e.name + ": its series matrix is not symmetric; the lower triangle is written"@,
    );
    lost(
        w,
        departs(e.b_from, e.b_to, e.n_conductors as nat, false),
        "linecode "@ + e.name + ": the shunt susceptances of its ends differ; their sum is written"@,
    )
}

pub open spec fn lost_codes(w: Seq<Seq<char>>, s: Seq<DistLineCodeV>, n: nat) -> Seq<Seq<char>>
    decreases n,
{
    if n == 0 {
        w
    } else {
        lost_code(lost_codes(w, s, (n - 1) as nat), s[n - 1])
    }
}

fn say_code(w: &mut Vec<String>, e: &DistLineCode)
    ensures
        views(final(w)@) == lost_code(views(old(w)@), e@),
{
    say(
        w,
        differs(&e.r_series, &e.r_series, e.n_conductors, true)
            || differs(&e.x_series, &e.x_series, e.n_conductors, true),
        "linecode ",
        e.name.as_str(),
        ": its series matrix is not symmetric; the lower triangle is written",
    );
    say(
        w,
        differs(&e.b_from, &e.b_to, e.n_conductors, false),
        "linecode ",
        e.name.as_str(),
        ": the shunt susceptances of its ends differ; their sum is written",
    );
}

fn say_codes(w: &mut Vec<String>, s: &Vec<DistLineCode>)
    ensures
        views(final(w)@) == lost_codes(views(old(w)@), views(s@), views(s@).len()),
{
    assert(views(s@).len() == s.len());
    let mut i: usize = 0;
    while i < s.len()
        invariant
            i <= s.len(),
            views(w@) == lost_codes(views(old(w)@), views(s@), i as nat),
        decreases s.len() - i,
    {
        assert(views(s@)[i as int] == s@[i as int]@);
        say_code(w, &s[i]);
        i = i + 1;
    }
}

/// How many powers of a load are written: one for each of its phases.
pub open spec fn load_phases(e: DistLoadV) -> nat {
    phases_n(e.terminal_map, e.terminal_map.len()).len()
}

pub open spec fn lost_load(w: Seq<Seq<char>>, e: DistLoadV) -> Seq<Seq<char>> {
    let w = lost(
        w,
        constant_volts(e.voltage_model).len() > 0,
        "load "@ + e.name + ": its nominal voltage has no distribution CIM slot; dropped"@,
    );
    lost(
        w,
        e.p_nom.len() > load_phases(e) || e.q_nom.len() > load_phases(e),
        "load "@ + e.name + ": it has more powers than phases; the surplus is dropped"@,
    )
}

pub open spec fn lost_loads(w: Seq<Seq<char>>, s: Seq<DistLoadV>, n: nat) -> Seq<Seq<char>>
    decreases n,
{
    if n == 0 {
        w
    } else {
        lost_load(lost_loads(w, s, (n - 1) as nat), s[n - 1])
    }
}

fn say_load(w: &mut Vec<String>, e: &DistLoad)
    ensures
        views(final(w)@) == lost_load(views(old(w)@), e@),
{
    assert(e@.terminal_map.len() == e.terminal_map.len());
    let written = phases_of(&e.terminal_map);
    assert(views(written@).len() == written.len());
    let phases = written.len();
    let volts = match &e.voltage_model {
        DistLoadVoltageModel::ConstantPower { v_nom } => v_nom.len() > 0,
        _ => false,
    };
    say(
        w,
        volts,
        "load ",
        e.name.as_str(),
        ": its nominal voltage has no distribution CIM slot; dropped",
    );
    say(
        w,
        e.p_nom.len() > phases || e.q_nom.len() > phases,
        "load ",
        e.name.as_str(),
        ": it has more powers than phases; the surplus is dropped",
    );
}

fn say_loads(w: &mut Vec<String>, s: &Vec<DistLoad>)
    ensures
        views(final(w)@) == lost_loads(views(old(w)@), views(s@), views(s@).len()),
{
    assert(views(s@).len() == s.len());
    let mut i: usize = 0;
    while i < s.len()
        invariant
            i <= s.len(),
            views(w@) == lost_loads(views(old(w)@), views(s@), i as nat),
        decreases s.len() - i,
    {
        assert(views(s@)[i as int] == s@[i as int]@);
        say_load(w, &s[i]);
        i = i + 1;
    }
}

pub open spec fn lost_shunt(w: Seq<Seq<char>>, e: DistShuntV) -> Seq<Seq<char>> {
    lost(
        w,
        any_off_diagonal(e.g),
        "shunt "@ + e.name + ": off-diagonal conductance has no per-phase CIM slot; the diagonal is written"@,
    )
}

pub open spec fn lost_shunts(w: Seq<Seq<char>>, s: Seq<DistShuntV>, n: nat) -> Seq<Seq<char>>
    decreases n,
{
    if n == 0 {
        w
    } else {
        lost_shunt(lost_shunts(w, s, (n - 1) as nat), s[n - 1])
    }
}

fn say_shunt(w: &mut Vec<String>, e: &DistShunt)
    ensures
        views(final(w)@) == lost_shunt(views(old(w)@), e@),
{
    say(
        w,
        has_nonzero(&e.g, true),
        "shunt ",
        e.name.as_str(),
        ": off-diagonal conductance has no per-phase CIM slot; the diagonal is written",
    );
}

fn say_shunts(w: &mut Vec<String>, s: &Vec<DistShunt>)
    ensures
        views(final(w)@) == lost_shunts(views(old(w)@), views(s@), views(s@).len()),
{
    assert(views(s@).len() == s.len());
    let mut i: usize = 0;
    while i < s.len()
        invariant
            i <= s.len(),
            views(w@) == lost_shunts(views(old(w)@), views(s@), i as nat),
        decreases s.len() - i,
    {
        assert(views(s@)[i as int] == s@[i as int]@);
        say_shunt(w, &s[i]);
        i = i + 1;
    }
}

pub open spec fn lost_switch(w: Seq<Seq<char>>, e: DistSwitchV) -> Seq<Seq<char>> {
    lost(
        w,
        e.i_max is Some,
        "switch "@ + e.name + ": its rating is not written (no OperationalLimit mapping yet)"@,
    )
}

pub open spec fn lost_switches(w: Seq<Seq<char>>, s: Seq<DistSwitchV>, n: nat) -> Seq<Seq<char>>
    decreases n,
{
    if n == 0 {
        w
    } else {
        lost_switch(lost_switches(w, s, (n - 1) as nat), s[n - 1])
    }
}

fn say_switch(w: &mut Vec<String>, e: &DistSwitch)
    ensures
        views(final(w)@) == lost_switch(views(old(w)@), e@),
{
    say(
        w,
        e.i_max.is_some(),
        "switch ",
        e.name.as_str(),
        ": its rating is not written (no OperationalLimit mapping yet)",
    );
}

fn say_switches(w: &mut Vec<String>, s: &Vec<DistSwitch>)
    ensures
        views(final(w)@) == lost_switches(views(old(w)@), views(s@), views(s@).len()),
{
    assert(views(s@).len() == s.len());
    let mut i: usize = 0;
    while i < s.len()
        invariant
            i <= s.len(),
            views(w@) == lost_switches(views(old(w)@), views(s@), i as nat),
        decreases s.len() - i,
    {
        assert(views(s@)[i as int] == s@[i as int]@);
        say_switch(w, &s[i]);
        i = i + 1;
    }
}

pub open spec fn lost_transformer(w: Seq<Seq<char>>, e: DistTransformerV) -> Seq<Seq<char>> {
    lost(
        w,
        e.windings.len() == 2 && e.xsc_pct.len() > 1,
        "transformer "@ + e.name + ": only the reactance of its first winding pair is written"@,
    )
}

pub open spec fn lost_transformers(
    w: Seq<Seq<char>>,
    s: Seq<DistTransformerV>,
    n: nat,
) -> Seq<Seq<char>>
    decreases n,
{
    if n == 0 {
        w
    } else {
        lost_transformer(lost_transformers(w, s, (n - 1) as nat), s[n - 1])
    }
}

fn say_transformer(w: &mut Vec<String>, e: &DistTransformer)
    ensures
        views(final(w)@) == lost_transformer(views(old(w)@), e@),
{
    assert(e@.windings.len() == e.windings.len());
    say(
        w,
        e.windings.len() == 2 && e.xsc_pct.len() > 1,
        "transformer ",
        e.name.as_str(),
        ": only the reactance of its first winding pair is written",
    );
}

fn say_transformers(w: &mut Vec<String>, s: &Vec<DistTransformer>)
    ensures
        views(final(w)@) == lost_transformers(views(old(w)@), views(s@), views(s@).len()),
{
    assert(views(s@).len() == s.len());
    let mut i: usize = 0;
    while i < s.len()
        invariant
            i <= s.len(),
            views(w@) == lost_transformers(views(old(w)@), views(s@), i as nat),
        decreases s.len() - i,
    {
        assert(views(s@)[i as int] == s@[i as int]@);
        say_transformer(w, &s[i]);
        i = i + 1;
    }
}

/// The angle of a phase is not that which a balanced source with the first angle
/// has there.
pub open spec fn turned_at(m: Sem, e: VoltageSourceV, i: int) -> bool {
    &&& 0 <= i < e.v_angle.len()
    &&& i < e.terminal_map.len()
    &&& e.terminal_map[i] != "4"@
    &&& !num_le(abs_of(m.minus(e.v_angle[i], phase_angle(m, e.v_angle[0], i as nat))), NANO)
}

pub open spec fn is_turned(m: Sem, e: VoltageSourceV) -> bool {
    exists|i: int| 1 <= i && #[trigger] turned_at(m, e, i)
}

fn turned<C: Calc>(math: &C, e: &VoltageSource) -> (r: bool)
    ensures
        r == is_turned(math.sem(), e@),
{
    assert(e@.terminal_map.len() == e.terminal_map.len());
    let mut i: usize = 1;
    while i < e.v_angle.len() && i < e.terminal_map.len()
        invariant
            1 <= i,
            e@.terminal_map.len() == e.terminal_map.len(),
            forall|k: int| 1 <= k < i ==> !#[trigger] turned_at(math.sem(), e@, k),
        decreases e.v_angle.len() - i,
    {
        assert(e@.terminal_map[i as int] == e.terminal_map@[i as int]@);
        let turn = over(
            math,
            times(math, times(math, from_int(math, i as u64), TWO), PI),
            THREE,
        );
        let want = minus(math, e.v_angle[0], turn);
        if !same(e.terminal_map[i].as_str(), "4") && !le(
            abs(minus(math, e.v_angle[i], want)),
            NANO,
        ) {
            assert(turned_at(math.sem(), e@, i as int));
            return true;
        }
        i = i + 1;
    }
    false
}

pub open spec fn lost_source(m: Sem, w: Seq<Seq<char>>, e: VoltageSourceV) -> Seq<Seq<char>> {
    let w = lost(
        w,
        spread(e.v_magnitude, 3),
        "source "@ + e.name + ": its magnitudes differ from phase to phase; the first is written"@,
    );
    lost(
        w,
        is_turned(m, e),
        "source "@ + e.name + ": its angles are not a third of a turn apart; the first is written"@,
    )
}

pub open spec fn lost_sources(
    m: Sem,
    w: Seq<Seq<char>>,
    s: Seq<VoltageSourceV>,
    n: nat,
) -> Seq<Seq<char>>
    decreases n,
{
    if n == 0 {
        w
    } else {
        lost_source(m, lost_sources(m, w, s, (n - 1) as nat), s[n - 1])
    }
}

fn say_source<C: Calc>(math: &C, w: &mut Vec<String>, e: &VoltageSource)
    ensures
        views(final(w)@) == lost_source(math.sem(), views(old(w)@), e@),
{
    say(
        w,
        is_spread(&e.v_magnitude, 3),
        "source ",
        e.name.as_str(),
        ": its magnitudes differ from phase to phase; the first is written",
    );
    say(
        w,
        turned(math, e),
        "source ",
        e.name.as_str(),
        ": its angles are not a third of a turn apart; the first is written",
    );
}

fn say_sources<C: Calc>(math: &C, w: &mut Vec<String>, s: &Vec<VoltageSource>)
    ensures
        views(final(w)@) == lost_sources(math.sem(), views(old(w)@), views(s@), views(s@).len()),
{
    assert(views(s@).len() == s.len());
    let mut i: usize = 0;
    while i < s.len()
        invariant
            i <= s.len(),
            views(w@) == lost_sources(math.sem(), views(old(w)@), views(s@), i as nat),
        decreases s.len() - i,
    {
        assert(views(s@)[i as int] == s@[i as int]@);
        say_source(math, w, &s[i]);
        i = i + 1;
    }
}

// ---- networks --------------------------------------------------------------

/// The warnings with what a document cannot carry of a network.
#[verifier::opaque]
pub open spec fn losses_of(m: Sem, w: Seq<Seq<char>>, net: DistNetworkV) -> Seq<Seq<char>> {
    let w = lost(
        w,
        net.name is Some,
        "network "@ + net.name->0 + ": its name has no distribution CIM slot; dropped"@,
    );
    let w = lost_buses(w, net, net.buses, net.buses.len());
    let w = lost_codes(w, net.linecodes, net.linecodes.len());
    let w = lost_loads(w, net.loads, net.loads.len());
    let w = lost_shunts(w, net.shunts, net.shunts.len());
    let w = lost_switches(w, net.switches, net.switches.len());
    let w = lost_transformers(w, net.transformers, net.transformers.len());
    let w = lost_sources(m, w, net.sources, net.sources.len());
    let w = lost(
        w,
        net.geo is Some,
        "network: the coordinate space of its positions has no distribution CIM slot; dropped"@,
    );
    let w = lost(
        w,
        net.commands.len() > 0 || net.options.len() > 0,
        "network: its commands and options have no distribution CIM mapping; dropped"@,
    );
    lost(
        w,
        net.extras.len() > 0,
        "network: its extras have no distribution CIM mapping; dropped"@,
    )
}

pub fn say_losses<C: Calc>(math: &C, w: &mut Vec<String>, net: &DistNetwork)
    ensures
        views(final(w)@) == losses_of(math.sem(), views(old(w)@), net@),
{
    broadcast use group_views;

    reveal(losses_of);
    if let Some(name) = &net.name {
        say(
            w,
            true,
            "network ",
            name.as_str(),
            ": its name has no distribution CIM slot; dropped",
        );
    }
    say_buses(w, net, &net.buses);
    say_codes(w, &net.linecodes);
    say_loads(w, &net.loads);
    say_shunts(w, &net.shunts);
    say_switches(w, &net.switches);
    say_transformers(w, &net.transformers);
    say_sources(math, w, &net.sources);
    if net.geo.is_some() {
        w.push(
            "network: the coordinate space of its positions has no distribution CIM slot; dropped".to_owned(),
        );
    }
    assert(net@.commands.len() == net.commands.len() && net@.options.len() == net.options.len());
    if net.commands.len() > 0 || net.options.len() > 0 {
        w.push(
            "network: its commands and options have no distribution CIM mapping; dropped".to_owned(),
        );
    }
    assert(net@.extras.len() == net.extras.items.len());
    if net.extras.items.len() > 0 {
        w.push("network: its extras have no distribution CIM mapping; dropped".to_owned());
    }
}

// ---- silence ---------------------------------------------------------------

/// A bus of which nothing is dropped.
pub open spec fn bus_whole(net: DistNetworkV, e: DistBusV) -> bool {
    !bounded(e) && e.location is None && !has_hidden(net, e) && e.grounded
        == neutral_ground(e)
}

proof fn lemma_buses_silent(w: Seq<Seq<char>>, net: DistNetworkV, s: Seq<DistBusV>, n: nat)
    requires
        n <= s.len(),
    ensures
        lost_buses(w, net, s, n).len() >= w.len(),
        lost_buses(w, net, s, n).len() == w.len() ==> forall|i: int|
            0 <= i < n ==> bus_whole(net, #[trigger] s[i]),
    decreases n,
{
    if n > 0 {
        lemma_buses_silent(w, net, s, (n - 1) as nat);
    }
}

/// A line code of which nothing is dropped, beside what it reports itself.
pub open spec fn code_whole(e: DistLineCodeV) -> bool {
    !departs(e.r_series, e.r_series, e.n_conductors as nat, true) && !departs(
        e.x_series,
        e.x_series,
        e.n_conductors as nat,
        true,
    ) && !departs(e.b_from, e.b_to, e.n_conductors as nat, false)
}

proof fn lemma_codes_silent(w: Seq<Seq<char>>, s: Seq<DistLineCodeV>, n: nat)
    requires
        n <= s.len(),
    ensures
        lost_codes(w, s, n).len() >= w.len(),
        lost_codes(w, s, n).len() == w.len() ==> forall|i: int|
            0 <= i < n ==> code_whole(#[trigger] s[i]),
    decreases n,
{
    if n > 0 {
        lemma_codes_silent(w, s, (n - 1) as nat);
    }
}

/// A load of which nothing is dropped, beside what it reports itself.
pub open spec fn load_whole(e: DistLoadV) -> bool {
    constant_volts(e.voltage_model).len() == 0 && e.p_nom.len() <= load_phases(e)
        && e.q_nom.len() <= load_phases(e)
}

proof fn lemma_loads_silent(w: Seq<Seq<char>>, s: Seq<DistLoadV>, n: nat)
    requires
        n <= s.len(),
    ensures
        lost_loads(w, s, n).len() >= w.len(),
        lost_loads(w, s, n).len() == w.len() ==> forall|i: int|
            0 <= i < n ==> load_whole(#[trigger] s[i]),
    decreases n,
{
    if n > 0 {
        lemma_loads_silent(w, s, (n - 1) as nat);
    }
}

/// A shunt of which nothing is dropped, beside what it reports itself.
pub open spec fn shunt_whole(e: DistShuntV) -> bool {
    !any_off_diagonal(e.g)
}

proof fn lemma_shunts_silent(w: Seq<Seq<char>>, s: Seq<DistShuntV>, n: nat)
    requires
        n <= s.len(),
    ensures
        lost_shunts(w, s, n).len() >= w.len(),
        lost_shunts(w, s, n).len() == w.len() ==> forall|i: int|
            0 <= i < n ==> shunt_whole(#[trigger] s[i]),
    decreases n,
{
    if n > 0 {
        lemma_shunts_silent(w, s, (n - 1) as nat);
    }
}

/// A switch of which nothing is dropped, beside what it reports itself.
pub open spec fn switch_whole(e: DistSwitchV) -> bool {
    e.i_max is None
}

proof fn lemma_switches_silent(w: Seq<Seq<char>>, s: Seq<DistSwitchV>, n: nat)
    requires
        n <= s.len(),
    ensures
        lost_switches(w, s, n).len() >= w.len(),
        lost_switches(w, s, n).len() == w.len() ==> forall|i: int|
            0 <= i < n ==> switch_whole(#[trigger] s[i]),
    decreases n,
{
    if n > 0 {
        lemma_switches_silent(w, s, (n - 1) as nat);
    }
}

/// A transformer of which nothing is dropped, beside what it reports itself.
pub open spec fn transformer_whole(e: DistTransformerV) -> bool {
    (e.windings.len() == 2 ==> e.xsc_pct.len() <= 1)
}

proof fn lemma_transformers_silent(w: Seq<Seq<char>>, s: Seq<DistTransformerV>, n: nat)
    requires
        n <= s.len(),
    ensures
        lost_transformers(w, s, n).len() >= w.len(),
        lost_transformers(w, s, n).len() == w.len() ==> forall|i: int|
            0 <= i < n ==> transformer_whole(#[trigger] s[i]),
    decreases n,
{
    if n > 0 {
        lemma_transformers_silent(w, s, (n - 1) as nat);
    }
}

/// A source of which nothing is dropped, beside what it reports itself.
pub open spec fn source_whole(m: Sem, e: VoltageSourceV) -> bool {
    !spread(e.v_magnitude, 3) && !is_turned(m, e)
}

proof fn lemma_sources_silent(m: Sem, w: Seq<Seq<char>>, s: Seq<VoltageSourceV>, n: nat)
    requires
        n <= s.len(),
    ensures
        lost_sources(m, w, s, n).len() >= w.len(),
        lost_sources(m, w, s, n).len() == w.len() ==> forall|i: int|
            0 <= i < n ==> source_whole(m, #[trigger] s[i]),
    decreases n,
{
    if n > 0 {
        lemma_sources_silent(m, w, s, (n - 1) as nat);
    }
}

/// Nothing that a document has no slot for is there.
pub open spec fn whole(m: Sem, net: DistNetworkV) -> bool {
    &&& net.name is None
    &&& forall|i: int| 0 <= i < net.buses.len() ==> bus_whole(net, #[trigger] net.buses[i])
    &&& forall|i: int| 0 <= i < net.linecodes.len() ==> code_whole(#[trigger] net.linecodes[i])
    &&& forall|i: int| 0 <= i < net.loads.len() ==> load_whole(#[trigger] net.loads[i])
    &&& forall|i: int| 0 <= i < net.shunts.len() ==> shunt_whole(#[trigger] net.shunts[i])
    &&& forall|i: int| 0 <= i < net.switches.len() ==> switch_whole(#[trigger] net.switches[i])
    &&& forall|i: int|
        0 <= i < net.transformers.len() ==> transformer_whole(#[trigger] net.transformers[i])
    &&& forall|i: int| 0 <= i < net.sources.len() ==> source_whole(m, #[trigger] net.sources[i])
    &&& net.geo is None
    &&& net.commands.len() == 0
    &&& net.options.len() == 0
    &&& net.extras.len() == 0
}

/// Nothing is dropped in silence: a network that is written without a warning
/// holds nothing that the document has no slot for, beside what its elements
/// report as they are written.
pub proof fn lemma_silence_is_whole(m: Sem, net: DistNetworkV)
    requires
        cim_xml(m, net).warnings.len() == 0,
    ensures
        whole(m, net),
{
    reveal(losses_of);
    let w = network_doc(m, net).warnings;
    let w0 = lost(
        w,
        net.name is Some,
        "network "@ + net.name->0 + ": its name has no distribution CIM slot; dropped"@,
    );
    lemma_buses_silent(w0, net, net.buses, net.buses.len());
    let w1 = lost_buses(w0, net, net.buses, net.buses.len());
    lemma_codes_silent(w1, net.linecodes, net.linecodes.len());
    let w2 = lost_codes(w1, net.linecodes, net.linecodes.len());
    lemma_loads_silent(w2, net.loads, net.loads.len());
    let w3 = lost_loads(w2, net.loads, net.loads.len());
    lemma_shunts_silent(w3, net.shunts, net.shunts.len());
    let w4 = lost_shunts(w3, net.shunts, net.shunts.len());
    lemma_switches_silent(w4, net.switches, net.switches.len());
    let w5 = lost_switches(w4, net.switches, net.switches.len());
    lemma_transformers_silent(w5, net.transformers, net.transformers.len());
    let w6 = lost_transformers(w5, net.transformers, net.transformers.len());
    lemma_sources_silent(m, w6, net.sources, net.sources.len());
}

} // verus!
