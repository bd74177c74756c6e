//! What an MG-RAVENS document cannot carry of the elements of a network, beside
//! what they report as they are written.

use vstd::prelude::*;

use crate::cim::losses::{lost, say};
use crate::math::{Bits, Calc, Sem};
use crate::model::{
    Configuration, DistBus, DistBusV, DistGenerator, DistGeneratorV, DistIbr, DistIbrV,
    DistLineCode, DistLineCodeV, DistLineV, DistLine, DistLoad, DistLoadV, DistLoadVoltageModel,
    DistLoadVoltageModelV, DistNetwork, DistNetworkV, DistShunt, DistShuntV, DistSwitch,
    DistSwitchV, IbrTopology,
};
use crate::ravens::emit::{extra_num, xnum};
use crate::ravens::name::{hot, hot_of};
use crate::ravens::write_loads::{uniform, uniform_of};
use crate::ravens::write_machines::{has_off_diagonal, off_diagonal};
use crate::text::{lower, lower_of, same, views};

verus! {

/// A rating that differs from phase to phase.
pub open spec fn uneven(m: Sem, v: Option<Seq<Bits>>) -> bool {
    v is Some && !uniform_of(m, v->0)
}

fn is_uneven<C: Calc>(math: &C, v: &Option<Vec<Bits>>) -> (r: bool)
    ensures
        r == uneven(
            math.sem(),
            match v {
                Some(x) => Some(x@),
                None => None,
            },
        ),
{
    match v {
        Some(x) => !uniform(math, x),
        None => false,
    }
}

/// Some line has a line code of a name.
pub open spec fn used_by(lines: Seq<DistLineV>, name: Seq<char>) -> bool {
    exists|i: int|
        0 <= i < lines.len() && lower_of((#[trigger] lines[i]).linecode) == lower_of(name)
}

fn is_used(lines: &Vec<DistLine>, name: &str) -> (r: bool)
    ensures
        r == used_by(views(lines@), name@),
{
    let key = lower(name);
    assert(views(lines@).len() == lines.len());
    let mut i: usize = 0;
    while i < lines.len()
        invariant
            i <= lines.len(),
            key@ == lower_of(name@),
            views(lines@).len() == lines.len(),
            forall|k: int|
                0 <= k < i ==> lower_of((#[trigger] views(lines@)[k]).linecode) != key@,
        decreases lines.len() - i,
    {
        assert(views(lines@)[i as int] == lines@[i as int]@);
        if same(lower(lines[i].linecode.as_str()).as_str(), key.as_str()) {
            return true;
        }
        i = i + 1;
    }
    false
}

/// Exponents that differ from phase to phase.
pub open spec fn uneven_exponents(m: Sem, model: DistLoadVoltageModelV) -> bool {
    match model {
        DistLoadVoltageModelV::Exponential { v_nom: _, gamma_p, gamma_q } => {
            !uniform_of(m, gamma_p) || !uniform_of(m, gamma_q)
        },
        _ => false,
    }
}

/// The topology that a number of phases gives an inverter.
pub open spec fn topology_of(phases: nat) -> IbrTopology {
    if phases == 1 {
        IbrTopology::SinglePhase
    } else {
        IbrTopology::ThreeLeg
    }
}

pub open spec fn lost_bus(m: Sem, w: Seq<Seq<char>>, e: DistBusV) -> Seq<Seq<char>> {
    lost(
        w,
        e.v_min is Some != e.v_max is Some,
        "bus "@ + e.id + ": one voltage bound alone has no MG-RAVENS slot; dropped"@,
    )
}

pub open spec fn lost_buses(m: Sem, w: Seq<Seq<char>>, s: Seq<DistBusV>, n: nat) -> Seq<Seq<char>>
    decreases n,
{
    if n == 0 {
        w
    } else {
        lost_bus(m, lost_buses(m, w, s, (n - 1) as nat), s[n - 1])
    }
}

fn say_bus<C: Calc>(math: &C, w: &mut Vec<String>, e: &DistBus)
    ensures
        views(final(w)@) == lost_bus(math.sem(), views(old(w)@), e@),
{
    say(
        w,
        e.v_min.is_some() != e.v_max.is_some(),
        "bus ",
        e.id.as_str(),
        ": one voltage bound alone has no MG-RAVENS slot; dropped",
    );
}

fn say_buses<C: Calc>(math: &C, w: &mut Vec<String>, s: &Vec<DistBus>)
    ensures
        views(final(w)@) == lost_buses(math.sem(), views(old(w)@), views(s@), views(s@).len()),
{
    assert(views(s@).len() == s.len());
    let mut i: usize = 0;
    while i < s.len()
        invariant
            i <= s.len(),
            views(w@) == lost_buses(math.sem(), views(old(w)@), views(s@), i as nat),
        decreases s.len() - i,
    {
        assert(views(s@)[i as int] == s@[i as int]@);
        say_bus(math, w, &s[i]);
        i = i + 1;
    }
}

pub open spec fn lost_code(
    m: Sem,
    w: Seq<Seq<char>>,
    e: DistLineCodeV,
    lines: Seq<DistLineV>,
) -> Seq<Seq<char>> {
    let w = lost(
        w,
        uneven(m, e.i_max),
        "linecode "@ + e.name + ": per-conductor ampacities differ; the first one represents the line code"@,
    );
    lost(
        w,
        e.i_max is Some && !used_by(lines, e.name),
        "linecode "@ + e.name + ": no line carries its ampacity (MG-RAVENS rates lines, not line codes); dropped"@,
    )
}

pub open spec fn lost_codes(
    m: Sem,
    w: Seq<Seq<char>>,
    s: Seq<DistLineCodeV>,
    n: nat,
    lines: Seq<DistLineV>,
) -> Seq<Seq<char>>
    decreases n,
{
    if n == 0 {
        w
    } else {
        lost_code(m, lost_codes(m, w, s, (n - 1) as nat, lines), s[n - 1], lines)
    }
}

fn say_code<C: Calc>(math: &C, w: &mut Vec<String>, e: &DistLineCode, lines: &Vec<DistLine>)
    ensures
        views(final(w)@) == lost_code(math.sem(), views(old(w)@), e@, views(lines@)),
{
    say(
        w,
        is_uneven(math, &e.i_max),
        "linecode ",
        e.name.as_str(),
        ": per-conductor ampacities differ; the first one represents the line code",
    );
    say(
        w,
        e.i_max.is_some() && !is_used(lines, e.name.as_str()),
        "linecode ",
        e.name.as_str(),
        ": no line carries its ampacity (MG-RAVENS rates lines, not line codes); dropped",
    );
}

fn say_codes<C: Calc>(math: &C, w: &mut Vec<String>, s: &Vec<DistLineCode>, lines: &Vec<DistLine>)
    ensures
        views(final(w)@) == lost_codes(math.sem(), views(old(w)@), views(s@), views(s@).len(), views(lines@)),
{
    assert(views(s@).len() == s.len());
    let mut i: usize = 0;
    while i < s.len()
        invariant
            i <= s.len(),
            views(w@) == lost_codes(math.sem(), views(old(w)@), views(s@), i as nat, views(lines@)),
        decreases s.len() - i,
    {
        assert(views(s@)[i as int] == s@[i as int]@);
        say_code(math, w, &s[i], lines);
        i = i + 1;
    }
}

pub open spec fn lost_switch(m: Sem, w: Seq<Seq<char>>, e: DistSwitchV) -> Seq<Seq<char>> {
    lost(
        w,
        uneven(m, e.i_max),
        "switch "@ + e.name + ": per-conductor ratings differ; the first one represents the switch"@,
    )
}

pub open spec fn lost_switches(
    m: Sem,
    w: Seq<Seq<char>>,
    s: Seq<DistSwitchV>,
    n: nat,
) -> Seq<Seq<char>>
    decreases n,
{
    if n == 0 {
        w
    } else {
        lost_switch(m, lost_switches(m, w, s, (n - 1) as nat), s[n - 1])
    }
}

fn say_switch<C: Calc>(math: &C, w: &mut Vec<String>, e: &DistSwitch)
    ensures
        views(final(w)@) == lost_switch(math.sem(), views(old(w)@), e@),
{
    say(
        w,
        is_uneven(math, &e.i_max),
        "switch ",
        e.name.as_str(),
        ": per-conductor ratings differ; the first one represents the switch",
    );
}

fn say_switches<C: Calc>(math: &C, w: &mut Vec<String>, s: &Vec<DistSwitch>)
    ensures
        views(final(w)@) == lost_switches(math.sem(), views(old(w)@), views(s@), views(s@).len()),
{
    assert(views(s@).len() == s.len());
    let mut i: usize = 0;
    while i < s.len()
        invariant
            i <= s.len(),
            views(w@) == lost_switches(math.sem(), views(old(w)@), views(s@), i as nat),
        decreases s.len() - i,
    {
        assert(views(s@)[i as int] == s@[i as int]@);
        say_switch(math, w, &s[i]);
        i = i + 1;
    }
}

pub open spec fn lost_load(m: Sem, w: Seq<Seq<char>>, e: DistLoadV) -> Seq<Seq<char>> {
    lost(
        w,
        uneven_exponents(m, e.voltage_model),
        "load "@ + e.name + ": per-phase voltage exponents differ; the first phase's represent the load"@,
    )
}

pub open spec fn lost_loads(m: Sem, w: Seq<Seq<char>>, s: Seq<DistLoadV>, n: nat) -> Seq<Seq<char>>
    decreases n,
{
    if n == 0 {
        w
    } else {
        lost_load(m, lost_loads(m, w, s, (n - 1) as nat), s[n - 1])
    }
}

fn say_load<C: Calc>(math: &C, w: &mut Vec<String>, e: &DistLoad)
    ensures
        views(final(w)@) == lost_load(math.sem(), views(old(w)@), e@),
{
    let uneven = match &e.voltage_model {
        DistLoadVoltageModel::Exponential { v_nom: _, gamma_p, gamma_q } => {
            !uniform(math, gamma_p) || !uniform(math, gamma_q)
        },
        _ => false,
    };
    say(
        w,
        uneven,
        "load ",
        e.name.as_str(),
        ": per-phase voltage exponents differ; the first phase's represent the load",
    );
}

fn say_loads<C: Calc>(math: &C, w: &mut Vec<String>, s: &Vec<DistLoad>)
    ensures
        views(final(w)@) == lost_loads(math.sem(), views(old(w)@), views(s@), views(s@).len()),
{
    assert(views(s@).len() == s.len());
    let mut i: usize = 0;
    while i < s.len()
        invariant
            i <= s.len(),
            views(w@) == lost_loads(math.sem(), views(old(w)@), views(s@), i as nat),
        decreases s.len() - i,
    {
        assert(views(s@)[i as int] == s@[i as int]@);
        say_load(math, w, &s[i]);
        i = i + 1;
    }
}

pub open spec fn lost_shunt(m: Sem, w: Seq<Seq<char>>, e: DistShuntV) -> Seq<Seq<char>> {
    lost(
        w,
        off_diagonal(e.g),
        "shunt "@ + e.name + ": off-diagonal conductance has no MG-RAVENS slot; only the diagonal is carried"@,
    )
}

pub open spec fn lost_shunts(
    m: Sem,
    w: Seq<Seq<char>>,
    s: Seq<DistShuntV>,
    n: nat,
) -> Seq<Seq<char>>
    decreases n,
{
    if n == 0 {
        w
    } else {
        lost_shunt(m, lost_shunts(m, w, s, (n - 1) as nat), s[n - 1])
    }
}

fn say_shunt<C: Calc>(math: &C, w: &mut Vec<String>, e: &DistShunt)
    ensures
        views(final(w)@) == lost_shunt(math.sem(), views(old(w)@), e@),
{
    say(
        w,
        has_off_diagonal(&e.g),
        "shunt ",
        e.name.as_str(),
        ": off-diagonal conductance has no MG-RAVENS slot; only the diagonal is carried",
    );
}

fn say_shunts<C: Calc>(math: &C, w: &mut Vec<String>, s: &Vec<DistShunt>)
    ensures
        views(final(w)@) == lost_shunts(math.sem(), views(old(w)@), views(s@), views(s@).len()),
{
    assert(views(s@).len() == s.len());
    let mut i: usize = 0;
    while i < s.len()
        invariant
            i <= s.len(),
            views(w@) == lost_shunts(math.sem(), views(old(w)@), views(s@), i as nat),
        decreases s.len() - i,
    {
        assert(views(s@)[i as int] == s@[i as int]@);
        say_shunt(math, w, &s[i]);
        i = i + 1;
    }
}

pub open spec fn lost_generator(m: Sem, w: Seq<Seq<char>>, e: DistGeneratorV) -> Seq<Seq<char>> {
    let w = lost(
        w,
        e.configuration == Configuration::Delta,
        "generator "@ + e.name + ": a delta connection has no MG-RAVENS slot; a reparse takes it for wye"@,
    );
    let w = lost(
        w,
        !uniform_of(m, e.p_nom) || !uniform_of(m, e.q_nom),
        "generator "@ + e.name + ": per-phase powers differ; the total is carried"@,
    );
    lost(
        w,
        uneven(m, e.p_min) || uneven(m, e.p_max) || uneven(m, e.q_min) || uneven(m, e.q_max),
        "generator "@ + e.name + ": per-phase limits differ; the totals are carried"@,
    )
}

pub open spec fn lost_generators(
    m: Sem,
    w: Seq<Seq<char>>,
    s: Seq<DistGeneratorV>,
    n: nat,
) -> Seq<Seq<char>>
    decreases n,
{
    if n == 0 {
        w
    } else {
        lost_generator(m, lost_generators(m, w, s, (n - 1) as nat), s[n - 1])
    }
}

fn say_generator<C: Calc>(math: &C, w: &mut Vec<String>, e: &DistGenerator)
    ensures
        views(final(w)@) == lost_generator(math.sem(), views(old(w)@), e@),
{
    say(
        w,
        e.configuration == Configuration::Delta,
        "generator ",
        e.name.as_str(),
        ": a delta connection has no MG-RAVENS slot; a reparse takes it for wye",
    );
    say(
        w,
        !uniform(math, &e.p_nom) || !uniform(math, &e.q_nom),
        "generator ",
        e.name.as_str(),
        ": per-phase powers differ; the total is carried",
    );
    say(
        w,
        is_uneven(math, &e.p_min)
            || is_uneven(math, &e.p_max)
            || is_uneven(math, &e.q_min)
            || is_uneven(math, &e.q_max),
        "generator ",
        e.name.as_str(),
        ": per-phase limits differ; the totals are carried",
    );
}

fn say_generators<C: Calc>(math: &C, w: &mut Vec<String>, s: &Vec<DistGenerator>)
    ensures
        views(final(w)@) == lost_generators(math.sem(), views(old(w)@), views(s@), views(s@).len()),
{
    assert(views(s@).len() == s.len());
    let mut i: usize = 0;
    while i < s.len()
        invariant
            i <= s.len(),
            views(w@) == lost_generators(math.sem(), views(old(w)@), views(s@), i as nat),
        decreases s.len() - i,
    {
        assert(views(s@)[i as int] == s@[i as int]@);
        say_generator(math, w, &s[i]);
        i = i + 1;
    }
}

pub open spec fn lost_ibr(m: Sem, w: Seq<Seq<char>>, e: DistIbrV) -> Seq<Seq<char>> {
    let w = lost(
        w,
        e.topology != topology_of(hot_of(e.terminal_map).len()),
        "ibr "@ + e.name + ": its topology has no MG-RAVENS slot; a reparse takes it from the number of phases"@,
    );
    let w = lost(
        w,
        e.i_max is Some && extra_num(m, e.extras, "kv"@) is None,
        "ibr "@ + e.name + ": a current limit needs a rated voltage to be carried; dropped"@,
    );
    let w = lost(
        w,
        uneven(m, e.i_max),
        "ibr "@ + e.name + ": per-phase current limits differ; the first one is carried"@,
    );
    let w = lost(
        w,
        !uniform_of(m, e.s_max),
        "ibr "@ + e.name + ": per-phase ratings differ; the total is carried"@,
    );
    lost(
        w,
        uneven(m, e.p_min) || uneven(m, e.p_max) || uneven(m, e.q_min) || uneven(m, e.q_max),
        "ibr "@ + e.name + ": per-phase limits differ; the totals are carried"@,
    )
}

pub open spec fn lost_ibrs(m: Sem, w: Seq<Seq<char>>, s: Seq<DistIbrV>, n: nat) -> Seq<Seq<char>>
    decreases n,
{
    if n == 0 {
        w
    } else {
        lost_ibr(m, lost_ibrs(m, w, s, (n - 1) as nat), s[n - 1])
    }
}

fn say_ibr<C: Calc>(math: &C, w: &mut Vec<String>, e: &DistIbr)
    ensures
        views(final(w)@) == lost_ibr(math.sem(), views(old(w)@), e@),
{
    let h = hot(&e.terminal_map);
    assert(views(h@).len() == h.len());
    let topology = if h.len() == 1 {
        IbrTopology::SinglePhase
    } else {
        IbrTopology::ThreeLeg
    };
    let kv = xnum(math, &e.extras, "kv");
    say(
        w,
        e.topology != topology,
        "ibr ",
        e.name.as_str(),
        ": its topology has no MG-RAVENS slot; a reparse takes it from the number of phases",
    );
    say(
        w,
        e.i_max.is_some() && kv.is_none(),
        "ibr ",
        e.name.as_str(),
        ": a current limit needs a rated voltage to be carried; dropped",
    );
    say(
        w,
        is_uneven(math, &e.i_max),
        "ibr ",
        e.name.as_str(),
        ": per-phase current limits differ; the first one is carried",
    );
    say(
        w,
        !uniform(math, &e.s_max),
        "ibr ",
        e.name.as_str(),
        ": per-phase ratings differ; the total is carried",
    );
    say(
        w,
        is_uneven(math, &e.p_min)
            || is_uneven(math, &e.p_max)
            || is_uneven(math, &e.q_min)
            || is_uneven(math, &e.q_max),
        "ibr ",
        e.name.as_str(),
        ": per-phase limits differ; the totals are carried",
    );
}

fn say_ibrs<C: Calc>(math: &C, w: &mut Vec<String>, s: &Vec<DistIbr>)
    ensures
        views(final(w)@) == lost_ibrs(math.sem(), views(old(w)@), views(s@), views(s@).len()),
{
    assert(views(s@).len() == s.len());
    let mut i: usize = 0;
    while i < s.len()
        invariant
            i <= s.len(),
            views(w@) == lost_ibrs(math.sem(), views(old(w)@), views(s@), i as nat),
        decreases s.len() - i,
    {
        assert(views(s@)[i as int] == s@[i as int]@);
        say_ibr(math, w, &s[i]);
        i = i + 1;
    }
}

/// The warnings with what a document cannot carry of the elements.
#[verifier::opaque]
pub open spec fn losses_of(m: Sem, w: Seq<Seq<char>>, net: DistNetworkV) -> Seq<Seq<char>> {
    let w = lost_buses(m, w, net.buses, net.buses.len());
    let w = lost_codes(m, w, net.linecodes, net.linecodes.len(), net.lines);
    let w = lost_switches(m, w, net.switches, net.switches.len());
    let w = lost_loads(m, w, net.loads, net.loads.len());
    let w = lost_shunts(m, w, net.shunts, net.shunts.len());
    let w = lost_generators(m, w, net.generators, net.generators.len());
    lost_ibrs(m, w, net.ibrs, net.ibrs.len())
}

pub fn say_losses<C: Calc>(math: &C, w: &mut Vec<String>, net: &DistNetwork)
    ensures
        views(final(w)@) == losses_of(math.sem(), views(old(w)@), net@),
{
    reveal(losses_of);
    say_buses(math, w, &net.buses);
    say_codes(math, w, &net.linecodes, &net.lines);
    say_switches(math, w, &net.switches);
    say_loads(math, w, &net.loads);
    say_shunts(math, w, &net.shunts);
    say_generators(math, w, &net.generators);
    say_ibrs(math, w, &net.ibrs);
}

} // verus!
