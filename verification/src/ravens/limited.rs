//! The limit sets that a network asks for: which sets and which types are written
//! does not depend on the order of its elements.

use vstd::prelude::*;

use crate::json::{Entries, JsonV};
use crate::math::{Bits, Sem};
use crate::model::{DistBusV, DistLineV, DistLoadV, DistNetworkV, DistSwitchV};
use crate::order::{get_of, lemma_put, lemma_sorted_unique, put_of, set_put_from};
use crate::ravens::accept::{
    even, group_even, lemma_balanced_apart, lemma_load_phases_mild, lemma_share_even,
};
use crate::ravens::emit::{hot_letters_of, WriterV};
use crate::ravens::stable::{
    lemma_one_table, lemma_table_entry, lemma_table_holds, lemma_table_sorted, named_in, table_n,
    table_of,
};
use crate::ravens::survive::{lemma_get_none, lemma_get_put};
use crate::ravens::survive_limits::{
    amps_name, bounds_name, lemma_head_keeps_sets, line_amps, switch_amps,
};
use crate::ravens::write::{bus_json, buses_json, fresh_writer};
use crate::ravens::write_lines::{line_json, lines_json, switch_json, switches_json};
use crate::ravens::write_loads::{load_head, load_json, load_phases_json, loads_json};
use crate::text::str_less;

verus! {

// ---- claims ----------------------------------------------------------------

/// What is asked of a limit set: two bounds of volts about a nominal voltage, or
/// two ampacities.
pub struct AskV {
    pub volts: bool,
    pub a: Bits,
    pub b: Bits,
    pub normal: Option<Bits>,
}

/// The name of the set.
pub open spec fn ask_name(m: Sem, c: AskV) -> Seq<char> {
    if c.volts {
        bounds_name(m, c.a, c.b)
    } else {
        amps_name(m, c.a, c.b)
    }
}

/// A type that the set uses.
pub open spec fn asks_type(c: AskV, t: Seq<char>) -> bool {
    if c.volts {
        t == "lowType_5000000000.0s"@ || t == "highType_5000000000.0s"@
    } else {
        t == "absoluteValueType_5000000000.0s"@ || t == "absoluteValueType_86400.0s"@
    }
}

/// The writer once the set is asked for.
pub open spec fn asked(w: WriterV, m: Sem, c: AskV) -> WriterV {
    if c.volts {
        w.voltage_limit_set(m, c.a, c.b, c.normal).0
    } else {
        w.current_limit_set(m, c.a, c.b).0
    }
}

/// The set.
pub open spec fn set_of(m: Sem, c: AskV) -> JsonV {
    get_of(asked(fresh_writer(Seq::empty()), m, c).limit_sets, ask_name(m, c))->0
}

/// A writer has one set more than another, where it was not there.
pub open spec fn further(w: WriterV, v: WriterV, m: Sem, c: AskV) -> bool {
    let there = get_of(w.limit_sets, ask_name(m, c)) is Some;
    &&& v.limit_sets == if there {
        w.limit_sets
    } else {
        put_of(w.limit_sets, ask_name(m, c), set_of(m, c))
    }
    &&& forall|t: Seq<char>| #[trigger]
        v.used_types.contains(t) == (w.used_types.contains(t) || (!there && asks_type(c, t)))
}

/// Two writers have the same sets and types.
pub open spec fn level(w: WriterV, v: WriterV) -> bool {
    &&& w.limit_sets == v.limit_sets
    &&& w.used_types == v.used_types
}

proof fn lemma_put_from(s: Seq<Seq<char>>, x: Seq<char>, i: int, t: Seq<char>)
    requires
        0 <= i <= s.len(),
    ensures
        set_put_from(s, x, i).contains(t) == (s.contains(t) || t == x),
    decreases s.len() - i,
{
    let r = set_put_from(s, x, i);
    if i < s.len() && s[i] != x && !str_less(x, s[i]) {
        lemma_put_from(s, x, i + 1, t);
    } else if i < s.len() && s[i] == x {
        assert(s.contains(x));
    } else {
        assert(r =~= s.insert(i, x));
        assert(r[i] == x);
        if s.contains(t) {
            let k = choose|k: int| 0 <= k < s.len() && s[k] == t;
            if k < i {
                assert(r[k] == t);
            } else {
                assert(r[k + 1] == t);
            }
        }
        if r.contains(t) && t != x {
            let k = choose|k: int| 0 <= k < r.len() && r[k] == t;
            if k < i {
                assert(s[k] == t);
            } else {
                assert(s[k - 1] == t);
            }
        }
    }
}

broadcast proof fn lemma_type_used(w: WriterV, ty: Seq<char>, t: Seq<char>)
    ensures
        #[trigger] w.use_type(ty).used_types.contains(t) == (w.used_types.contains(t) || t == ty),
{
    lemma_put_from(w.used_types, ty, 0, t);
}

proof fn lemma_voltage_same(
    w: WriterV,
    v: WriterV,
    m: Sem,
    name: Seq<char>,
    suffix: Seq<char>,
    value: Bits,
    normal: Option<Bits>,
    ty: Seq<char>,
)
    ensures
        w.voltage_limit(m, name, suffix, value, normal, ty).1 == v.voltage_limit(
            m,
            name,
            suffix,
            value,
            normal,
            ty,
        ).1,
        even(w.use_type(ty), w.voltage_limit(m, name, suffix, value, normal, ty).0),
{
    broadcast use group_even;

    reveal(WriterV::voltage_limit);
    reveal(WriterV::num);
    reveal(WriterV::warn);
}

proof fn lemma_current_same(
    w: WriterV,
    v: WriterV,
    m: Sem,
    name: Seq<char>,
    suffix: Seq<char>,
    value: Bits,
    norm: Bits,
    ty: Seq<char>,
)
    ensures
        w.current_limit(m, name, suffix, value, norm, ty).1 == v.current_limit(
            m,
            name,
            suffix,
            value,
            norm,
            ty,
        ).1,
        even(w.use_type(ty), w.current_limit(m, name, suffix, value, norm, ty).0),
{
    broadcast use group_even;

    reveal(WriterV::current_limit);
    reveal(WriterV::num);
    reveal(WriterV::warn);
}

/// Asking for a set leaves it, where it was not there, and nothing else.
#[verifier::rlimit(60)]
pub proof fn lemma_asked(w: WriterV, m: Sem, c: AskV)
    ensures
        further(w, asked(w, m, c), m, c),
        asked(w, m, c).responses == w.responses,
        asked(w, m, c).profiles == w.profiles,
        asked(w, m, c).bases == w.bases,
        c.volts ==> w.voltage_limit_set(m, c.a, c.b, c.normal).1 == ask_name(m, c),
        !c.volts ==> w.current_limit_set(m, c.a, c.b).1 == ask_name(m, c),
{
    broadcast use {lemma_get_put, lemma_type_used};

    let v = fresh_writer(Seq::empty());
    let name = ask_name(m, c);
    lemma_get_none(name);
    if c.volts {
        reveal(WriterV::voltage_limit_set);
        let t1 = "lowType_5000000000.0s"@;
        let t2 = "highType_5000000000.0s"@;
        lemma_voltage_same(w, v, m, name, "RangeAlow"@, c.a, c.normal, t1);
        lemma_voltage_same(v, w, m, name, "RangeAlow"@, c.a, c.normal, t1);
        let w1 = w.voltage_limit(m, name, "RangeAlow"@, c.a, c.normal, t1).0;
        let v1 = v.voltage_limit(m, name, "RangeAlow"@, c.a, c.normal, t1).0;
        lemma_voltage_same(w1, v1, m, name, "RangeAhigh"@, c.b, c.normal, t2);
        lemma_voltage_same(v1, w1, m, name, "RangeAhigh"@, c.b, c.normal, t2);
    } else {
        reveal(WriterV::current_limit_set);
        let t1 = "absoluteValueType_5000000000.0s"@;
        let t2 = "absoluteValueType_86400.0s"@;
        lemma_current_same(w, v, m, name, "Norm"@, c.a, c.a, t1);
        lemma_current_same(v, w, m, name, "Norm"@, c.a, c.a, t1);
        let w1 = w.current_limit(m, name, "Norm"@, c.a, c.a, t1).0;
        let v1 = v.current_limit(m, name, "Norm"@, c.a, c.a, t1).0;
        lemma_current_same(w1, v1, m, name, "Emerg"@, c.b, c.a, t2);
        lemma_current_same(v1, w1, m, name, "Emerg"@, c.b, c.a, t2);
    }
}

// ---- what is gathered ------------------------------------------------------

/// The sets that are asked for, by name.
pub open spec fn set_pairs(m: Sem, s: Seq<AskV>) -> Entries {
    Seq::new(s.len(), |i: int| (ask_name(m, s[i]), set_of(m, s[i])))
}

/// A set of some type is asked for.
pub open spec fn types_used(s: Seq<AskV>, t: Seq<char>) -> bool {
    exists|i: int| 0 <= i < s.len() && asks_type(#[trigger] s[i], t)
}

/// A writer holds the sets that were asked for, and uses their types.
pub open spec fn gathered(w: WriterV, m: Sem, s: Seq<AskV>) -> bool {
    &&& w.limit_sets == table_of(set_pairs(m, s))
    &&& forall|t: Seq<char>| #[trigger] w.used_types.contains(t) == types_used(s, t)
}

/// One name is asked for by one set of limits.
pub open spec fn asks_agree(m: Sem, s: Seq<AskV>) -> bool {
    forall|x: AskV, y: AskV| #[trigger]
        s.contains(x) && #[trigger] s.contains(y) && ask_name(m, x) == ask_name(m, y) ==> x == y
}

/// Everything that one list asks for is in another.
pub open spec fn within(s: Seq<AskV>, all: Seq<AskV>) -> bool {
    forall|i: int| 0 <= i < s.len() ==> all.contains(#[trigger] s[i])
}

pub open spec fn ask_push(s: Seq<AskV>, c: Option<AskV>) -> Seq<AskV> {
    match c {
        Some(c) => s.push(c),
        None => s,
    }
}

/// A writer that is further has gathered what was asked for.
pub proof fn lemma_gather(
    w: WriterV,
    v: WriterV,
    m: Sem,
    s: Seq<AskV>,
    c: Option<AskV>,
    all: Seq<AskV>,
)
    requires
        gathered(w, m, s),
        within(s, all),
        asks_agree(m, all),
        c matches Some(x) ==> further(w, v, m, x) && all.contains(x),
        c is None ==> level(w, v),
    ensures
        gathered(v, m, ask_push(s, c)),
        within(ask_push(s, c), all),
{
    if let Some(x) = c {
        let r = s.push(x);
        let name = ask_name(m, x);
        let n = s.len();
        let p = set_pairs(m, s);
        let q = set_pairs(m, r);
        lemma_pairs_prefix(m, s, x, n);
        lemma_table_sorted(p, n);
        lemma_put(table_n(p, n), name, set_of(m, x));
        assert(q[n as int] == (name, set_of(m, x)));
        assert(table_of(q) == put_of(table_of(p), name, set_of(m, x)));
        if get_of(w.limit_sets, name) is Some {
            let i = lemma_table_entry(p, n, name);
            assert(all.contains(s[i]));
            assert(s[i] == x);
            lemma_sorted_unique(put_of(table_of(p), name, set_of(m, x)), table_of(p));
        }
        assert forall|t: Seq<char>| #[trigger] v.used_types.contains(t) == types_used(r, t) by {
            assert(v.used_types.contains(t) == (w.used_types.contains(t) || (get_of(
                w.limit_sets,
                name,
            ) is None && asks_type(x, t))));
            assert(w.used_types.contains(t) == types_used(s, t));
            if types_used(s, t) {
                let i = choose|i: int| 0 <= i < s.len() && asks_type(#[trigger] s[i], t);
                assert(r[i] == s[i]);
            }
            if asks_type(x, t) {
                assert(r[n as int] == x);
                if get_of(w.limit_sets, name) is Some {
                    let i = lemma_table_entry(p, n, name);
                    assert(all.contains(s[i]));
                    assert(s[i] == x);
                }
            }
            if types_used(r, t) {
                let i = choose|i: int| 0 <= i < r.len() && asks_type(#[trigger] r[i], t);
                if i < n {
                    assert(s[i] == r[i]);
                }
            }
        }
        assert forall|i: int| 0 <= i < r.len() implies all.contains(#[trigger] r[i]) by {
            if i < n {
                assert(all.contains(s[i]));
            }
        }
    }
}

proof fn lemma_pairs_prefix(m: Sem, s: Seq<AskV>, x: AskV, n: nat)
    requires
        n <= s.len(),
    ensures
        table_n(set_pairs(m, s.push(x)), n) == table_n(set_pairs(m, s), n),
    decreases n,
{
    if n > 0 {
        lemma_pairs_prefix(m, s, x, (n - 1) as nat);
        assert(s.push(x)[n - 1] == s[n - 1]);
    }
}

/// Writers that gathered the same in whatever order hold the same sets and use
/// the same types.
pub proof fn lemma_same_sets(w: WriterV, v: WriterV, m: Sem, a: Seq<AskV>, b: Seq<AskV>)
    requires
        gathered(w, m, a),
        gathered(v, m, b),
        asks_agree(m, a),
        within(a, b),
        within(b, a),
    ensures
        w.limit_sets == v.limit_sets,
        forall|t: Seq<char>| #[trigger] w.used_types.contains(t) == v.used_types.contains(t),
{
    let pa = set_pairs(m, a);
    let pb = set_pairs(m, b);
    assert forall|j: int| 0 <= j < pb.len() implies get_of(table_of(pa), (#[trigger] pb[j]).0)
        == Some(pb[j].1) by {
        assert(a.contains(b[j]));
        let i = choose|i: int| 0 <= i < a.len() && a[i] == b[j];
        assert(pa[i].0 == pb[j].0);
        lemma_table_holds(pa, pa.len(), i);
        let h = lemma_table_entry(pa, pa.len(), pb[j].0);
        assert(a.contains(a[h]) && a.contains(a[i]));
        assert(a[h] == a[i]);
    }
    assert forall|i: int| 0 <= i < pa.len() implies named_in(pb, (#[trigger] pa[i]).0) by {
        assert(b.contains(a[i]));
        let k = choose|k: int| 0 <= k < b.len() && b[k] == a[i];
        assert(pb[k].0 == pa[i].0);
    }
    lemma_one_table(pa, pb);
    assert forall|t: Seq<char>| #[trigger] w.used_types.contains(t) == v.used_types.contains(t) by {
        if types_used(a, t) {
            let i = choose|i: int| 0 <= i < a.len() && asks_type(#[trigger] a[i], t);
            assert(b.contains(a[i]));
            let k = choose|k: int| 0 <= k < b.len() && b[k] == a[i];
            assert(asks_type(b[k], t));
        }
        if types_used(b, t) {
            let i = choose|i: int| 0 <= i < b.len() && asks_type(#[trigger] b[i], t);
            assert(a.contains(b[i]));
            let k = choose|k: int| 0 <= k < a.len() && a[k] == b[i];
            assert(asks_type(a[k], t));
        }
        assert(w.used_types.contains(t) == types_used(a, t));
        assert(v.used_types.contains(t) == types_used(b, t));
    }
}

/// The table of types depends on the types in use alone.
pub proof fn lemma_same_types(w: WriterV, v: WriterV, m: Sem)
    requires
        forall|t: Seq<char>| #[trigger] w.used_types.contains(t) == v.used_types.contains(t),
    ensures
        w.limit_types(m).1 == v.limit_types(m).1,
{
    broadcast use group_even;

    reveal(WriterV::limit_types);
    reveal(WriterV::num);
}

// ---- the elements ----------------------------------------------------------

/// Ampacities ask for a set.
pub open spec fn amps_ask(pair: Option<(Bits, Bits)>) -> Option<AskV> {
    match pair {
        Some((n, e)) => Some(AskV { volts: false, a: n, b: e, normal: None }),
        None => None,
    }
}

/// The bounds of a bus that is bounded both ways.
pub open spec fn both_bounds(b: DistBusV) -> Option<(Bits, Bits)> {
    match (b.v_min, b.v_max) {
        (Some(low), Some(high)) => Some((low, high)),
        _ => None,
    }
}

/// The bounds of the bus of a name.
pub open spec fn bounds_at(net: DistNetworkV, bus: Seq<char>) -> Option<(Bits, Bits)> {
    match net.bus(bus) {
        Some(b) => both_bounds(b),
        None => None,
    }
}

/// Bounds ask for a set.
pub open spec fn volts_ask(pair: Option<(Bits, Bits)>, normal: Option<Bits>) -> Option<AskV> {
    match pair {
        Some((low, high)) => Some(AskV { volts: true, a: low, b: high, normal }),
        None => None,
    }
}

/// A writer is one element further.
pub open spec fn step_on(w: WriterV, v: WriterV, m: Sem, c: Option<AskV>) -> bool {
    &&& match c {
        Some(x) => further(w, v, m, x),
        None => level(w, v),
    }
    &&& v.bases == w.bases
}

proof fn lemma_further_even(w: WriterV, u: WriterV, v: WriterV, z: WriterV, m: Sem, c: AskV)
    requires
        level(w, u),
        further(u, v, m, c),
        level(v, z),
    ensures
        further(w, z, m, c),
{
    assert forall|t: Seq<char>| #[trigger] z.used_types.contains(t) == (w.used_types.contains(t)
        || (get_of(w.limit_sets, ask_name(m, c)) is None && asks_type(c, t))) by {
        assert(v.used_types.contains(t) == (u.used_types.contains(t) || (get_of(
            u.limit_sets,
            ask_name(m, c),
        ) is None && asks_type(c, t))));
    }
}

#[verifier::rlimit(40)]
pub proof fn lemma_line_asks(w: WriterV, m: Sem, net: DistNetworkV, line: DistLineV)
    ensures
        step_on(w, line_json(w, m, net, line).0, m, amps_ask(line_amps(m, net, line))),
        line_json(w, m, net, line).0.responses == w.responses,
        line_json(w, m, net, line).0.profiles == w.profiles,
{
    broadcast use group_even;

    let what = "line "@ + line.name;
    let u = w.num(m, line.length, what).0;
    let u = if line.terminal_map_to != line.terminal_map_from {
        u.warn(
            what
                + ": the two terminal maps differ; MG-RAVENS carries one phase list per segment, so the from side wins"@,
        )
    } else {
        u
    };
    if let Some(c) = amps_ask(line_amps(m, net, line)) {
        lemma_asked(u, m, c);
        lemma_further_even(w, u, asked(u, m, c), line_json(w, m, net, line).0, m, c);
    }
}

#[verifier::rlimit(40)]
pub proof fn lemma_switch_asks(w: WriterV, m: Sem, s: DistSwitchV)
    ensures
        step_on(w, switch_json(w, m, s).0, m, amps_ask(switch_amps(m, s))),
        switch_json(w, m, s).0.responses == w.responses,
        switch_json(w, m, s).0.profiles == w.profiles,
{
    broadcast use group_even;

    if let Some(c) = amps_ask(switch_amps(m, s)) {
        lemma_asked(w, m, c);
        lemma_further_even(w, w, asked(w, m, c), switch_json(w, m, s).0, m, c);
    }
}

#[verifier::rlimit(40)]
pub proof fn lemma_load_asks(w: WriterV, m: Sem, net: DistNetworkV, load: DistLoadV)
    ensures
        step_on(
            w,
            load_json(w, m, net, load).0,
            m,
            volts_ask(bounds_at(net, load.bus), w.base_of(load.bus)),
        ),
{
    broadcast use group_even;

    lemma_head_keeps_sets(w, m, net, load);
    let head = load_head(w, m, net, load).0;
    let letters = hot_letters_of(load.terminal_map);
    lemma_balanced_apart("AlgorithmSettings"@);
    lemma_load_phases_mild("AlgorithmSettings"@, head, m, load, letters, letters.len());
    let u = load_phases_json(head, m, load, letters, letters.len()).0;
    lemma_load_bases(w, m, net, load);
    reveal(load_json);
    reveal(WriterV::bus_voltage_limit);
    reveal(WriterV::base_of);
    if let Some(c) = volts_ask(bounds_at(net, load.bus), w.base_of(load.bus)) {
        lemma_asked(u, m, c);
        lemma_further_even(w, u, asked(u, m, c), load_json(w, m, net, load).0, m, c);
    }
}

proof fn lemma_load_bases(w: WriterV, m: Sem, net: DistNetworkV, load: DistLoadV)
    ensures
        load_head(w, m, net, load).0.bases == w.bases,
{
    broadcast use {group_even, lemma_share_even};

    reveal(load_head);
    reveal(WriterV::load_response);
    reveal(WriterV::shared_response);
    reveal(WriterV::attach_profile);
}

#[verifier::rlimit(40)]
pub proof fn lemma_bus_asks(w: WriterV, m: Sem, b: DistBusV)
    ensures
        step_on(w, bus_json(w, m, b).0, m, volts_ask(both_bounds(b), w.base_of(b.id))),
        bus_json(w, m, b).0.responses == w.responses,
        bus_json(w, m, b).0.profiles == w.profiles,
{
    broadcast use group_even;

    reveal(bus_json);
    if let Some(c) = volts_ask(both_bounds(b), w.base_of(b.id)) {
        lemma_asked(w, m, c);
        lemma_further_even(w, w, asked(w, m, c), bus_json(w, m, b).0, m, c);
    }
}

// ---- the families ----------------------------------------------------------

/// What the first `n` lines ask for, after what was asked for before.
pub open spec fn line_asks(m: Sem, net: DistNetworkV, s: Seq<AskV>, n: nat) -> Seq<AskV>
    decreases n,
{
    if n == 0 {
        s
    } else {
        ask_push(
            line_asks(m, net, s, (n - 1) as nat),
            amps_ask(line_amps(m, net, net.lines[n - 1])),
        )
    }
}

pub open spec fn switch_asks(m: Sem, l: Seq<DistSwitchV>, s: Seq<AskV>, n: nat) -> Seq<AskV>
    decreases n,
{
    if n == 0 {
        s
    } else {
        ask_push(switch_asks(m, l, s, (n - 1) as nat), amps_ask(switch_amps(m, l[n - 1])))
    }
}

pub open spec fn load_asks(w: WriterV, net: DistNetworkV, s: Seq<AskV>, n: nat) -> Seq<AskV>
    decreases n,
{
    if n == 0 {
        s
    } else {
        let load = net.loads[n - 1];
        ask_push(
            load_asks(w, net, s, (n - 1) as nat),
            volts_ask(bounds_at(net, load.bus), w.base_of(load.bus)),
        )
    }
}

pub open spec fn bus_asks(w: WriterV, l: Seq<DistBusV>, s: Seq<AskV>, n: nat) -> Seq<AskV>
    decreases n,
{
    if n == 0 {
        s
    } else {
        ask_push(
            bus_asks(w, l, s, (n - 1) as nat),
            volts_ask(both_bounds(l[n - 1]), w.base_of(l[n - 1].id)),
        )
    }
}

/// Everything that a network asks for, where `w` knows the bases of its buses.
pub open spec fn all_asks(w: WriterV, m: Sem, net: DistNetworkV) -> Seq<AskV> {
    let s = line_asks(m, net, Seq::empty(), net.lines.len());
    let s = switch_asks(m, net.switches, s, net.switches.len());
    let s = load_asks(w, net, s, net.loads.len());
    bus_asks(w, net.buses, s, net.buses.len())
}

proof fn lemma_push_holds(s: Seq<AskV>, c: Option<AskV>, x: AskV)
    ensures
        ask_push(s, c).contains(x) == (s.contains(x) || c == Some(x)),
{
    if let Some(y) = c {
        let r = s.push(y);
        if s.contains(x) {
            let i = choose|i: int| 0 <= i < s.len() && s[i] == x;
            assert(r[i] == x);
        }
        assert(r[s.len() as int] == y);
        if r.contains(x) {
            let i = choose|i: int| 0 <= i < r.len() && r[i] == x;
            if i < s.len() {
                assert(s[i] == x);
            }
        }
    }
}

/// Some line asks for a set.
pub open spec fn line_wants(m: Sem, net: DistNetworkV, n: nat, x: AskV) -> bool {
    exists|i: int| 0 <= i < n && amps_ask(line_amps(m, net, #[trigger] net.lines[i])) == Some(x)
}

pub open spec fn switch_wants(m: Sem, l: Seq<DistSwitchV>, n: nat, x: AskV) -> bool {
    exists|i: int| 0 <= i < n && amps_ask(switch_amps(m, #[trigger] l[i])) == Some(x)
}

pub open spec fn load_wants(w: WriterV, net: DistNetworkV, n: nat, x: AskV) -> bool {
    exists|i: int|
        0 <= i < n && volts_ask(
            bounds_at(net, (#[trigger] net.loads[i]).bus),
            w.base_of(net.loads[i].bus),
        ) == Some(x)
}

pub open spec fn bus_wants(w: WriterV, l: Seq<DistBusV>, n: nat, x: AskV) -> bool {
    exists|i: int|
        0 <= i < n && volts_ask(both_bounds(#[trigger] l[i]), w.base_of(l[i].id)) == Some(x)
}

proof fn lemma_line_wants(m: Sem, net: DistNetworkV, s: Seq<AskV>, n: nat, x: AskV)
    ensures
        line_asks(m, net, s, n).contains(x) == (s.contains(x) || line_wants(m, net, n, x)),
    decreases n,
{
    if n > 0 {
        let k = (n - 1) as nat;
        lemma_line_wants(m, net, s, k, x);
        lemma_push_holds(
            line_asks(m, net, s, k),
            amps_ask(line_amps(m, net, net.lines[n - 1])),
            x,
        );
        if line_wants(m, net, k, x) {
            let i = choose|i: int|
                0 <= i < k && amps_ask(line_amps(m, net, #[trigger] net.lines[i])) == Some(x);
            assert(line_wants(m, net, n, x));
        }
    }
}

proof fn lemma_switch_wants(m: Sem, l: Seq<DistSwitchV>, s: Seq<AskV>, n: nat, x: AskV)
    ensures
        switch_asks(m, l, s, n).contains(x) == (s.contains(x) || switch_wants(m, l, n, x)),
    decreases n,
{
    if n > 0 {
        let k = (n - 1) as nat;
        lemma_switch_wants(m, l, s, k, x);
        lemma_push_holds(switch_asks(m, l, s, k), amps_ask(switch_amps(m, l[n - 1])), x);
        if switch_wants(m, l, k, x) {
            let i = choose|i: int|
                0 <= i < k && amps_ask(switch_amps(m, #[trigger] l[i])) == Some(x);
            assert(switch_wants(m, l, n, x));
        }
    }
}

proof fn lemma_load_wants(w: WriterV, net: DistNetworkV, s: Seq<AskV>, n: nat, x: AskV)
    ensures
        load_asks(w, net, s, n).contains(x) == (s.contains(x) || load_wants(w, net, n, x)),
    decreases n,
{
    if n > 0 {
        let k = (n - 1) as nat;
        let load = net.loads[n - 1];
        lemma_load_wants(w, net, s, k, x);
        lemma_push_holds(
            load_asks(w, net, s, k),
            volts_ask(bounds_at(net, load.bus), w.base_of(load.bus)),
            x,
        );
        if load_wants(w, net, k, x) {
            let i = choose|i: int|
                0 <= i < k && volts_ask(
                    bounds_at(net, (#[trigger] net.loads[i]).bus),
                    w.base_of(net.loads[i].bus),
                ) == Some(x);
            assert(load_wants(w, net, n, x));
        }
    }
}

proof fn lemma_bus_wants(w: WriterV, l: Seq<DistBusV>, s: Seq<AskV>, n: nat, x: AskV)
    ensures
        bus_asks(w, l, s, n).contains(x) == (s.contains(x) || bus_wants(w, l, n, x)),
    decreases n,
{
    if n > 0 {
        let k = (n - 1) as nat;
        lemma_bus_wants(w, l, s, k, x);
        lemma_push_holds(
            bus_asks(w, l, s, k),
            volts_ask(both_bounds(l[n - 1]), w.base_of(l[n - 1].id)),
            x,
        );
        if bus_wants(w, l, k, x) {
            let i = choose|i: int|
                0 <= i < k && volts_ask(both_bounds(#[trigger] l[i]), w.base_of(l[i].id)) == Some(
                    x,
                );
            assert(bus_wants(w, l, n, x));
        }
    }
}

/// What a network asks for is what some element of it wants.
pub open spec fn wants(w: WriterV, m: Sem, net: DistNetworkV, x: AskV) -> bool {
    ||| line_wants(m, net, net.lines.len(), x)
    ||| switch_wants(m, net.switches, net.switches.len(), x)
    ||| load_wants(w, net, net.loads.len(), x)
    ||| bus_wants(w, net.buses, net.buses.len(), x)
}

pub proof fn lemma_asks(w: WriterV, m: Sem, net: DistNetworkV, x: AskV)
    ensures
        all_asks(w, m, net).contains(x) == wants(w, m, net, x),
{
    let s0 = Seq::<AskV>::empty();
    let s1 = line_asks(m, net, s0, net.lines.len());
    let s2 = switch_asks(m, net.switches, s1, net.switches.len());
    let s3 = load_asks(w, net, s2, net.loads.len());
    lemma_line_wants(m, net, s0, net.lines.len(), x);
    lemma_switch_wants(m, net.switches, s1, net.switches.len(), x);
    lemma_load_wants(w, net, s2, net.loads.len(), x);
    lemma_bus_wants(w, net.buses, s3, net.buses.len(), x);
}

/// The lines leave what they ask for.
pub proof fn lemma_lines_gather(
    w: WriterV,
    m: Sem,
    net: DistNetworkV,
    s: Seq<AskV>,
    n: nat,
    all: Seq<AskV>,
)
    requires
        n <= net.lines.len(),
        gathered(w, m, s),
        within(s, all),
        asks_agree(m, all),
        forall|x: AskV| line_wants(m, net, net.lines.len(), x) ==> #[trigger] all.contains(x),
    ensures
        gathered(lines_json(w, m, net, n).0, m, line_asks(m, net, s, n)),
        within(line_asks(m, net, s, n), all),
        lines_json(w, m, net, n).0.bases == w.bases,
        lines_json(w, m, net, n).0.responses == w.responses,
        lines_json(w, m, net, n).0.profiles == w.profiles,
    decreases n,
{
    if n > 0 {
        let k = (n - 1) as nat;
        lemma_lines_gather(w, m, net, s, k, all);
        let before = lines_json(w, m, net, k).0;
        let c = amps_ask(line_amps(m, net, net.lines[n - 1]));
        lemma_line_asks(before, m, net, net.lines[n - 1]);
        if let Some(x) = c {
            assert(line_wants(m, net, net.lines.len(), x));
        }
        lemma_gather(before, lines_json(w, m, net, n).0, m, line_asks(m, net, s, k), c, all);
    }
}

pub proof fn lemma_switches_gather(
    w: WriterV,
    m: Sem,
    l: Seq<DistSwitchV>,
    s: Seq<AskV>,
    n: nat,
    all: Seq<AskV>,
)
    requires
        n <= l.len(),
        gathered(w, m, s),
        within(s, all),
        asks_agree(m, all),
        forall|x: AskV| switch_wants(m, l, l.len(), x) ==> #[trigger] all.contains(x),
    ensures
        gathered(switches_json(w, m, l, n).0, m, switch_asks(m, l, s, n)),
        within(switch_asks(m, l, s, n), all),
        switches_json(w, m, l, n).0.bases == w.bases,
        switches_json(w, m, l, n).0.responses == w.responses,
        switches_json(w, m, l, n).0.profiles == w.profiles,
    decreases n,
{
    if n > 0 {
        let k = (n - 1) as nat;
        lemma_switches_gather(w, m, l, s, k, all);
        let before = switches_json(w, m, l, k).0;
        let c = amps_ask(switch_amps(m, l[n - 1]));
        lemma_switch_asks(before, m, l[n - 1]);
        if let Some(x) = c {
            assert(switch_wants(m, l, l.len(), x));
        }
        lemma_gather(before, switches_json(w, m, l, n).0, m, switch_asks(m, l, s, k), c, all);
    }
}

pub proof fn lemma_loads_gather(
    w: WriterV,
    m: Sem,
    net: DistNetworkV,
    s: Seq<AskV>,
    n: nat,
    all: Seq<AskV>,
)
    requires
        n <= net.loads.len(),
        gathered(w, m, s),
        within(s, all),
        asks_agree(m, all),
        forall|x: AskV| load_wants(w, net, net.loads.len(), x) ==> #[trigger] all.contains(x),
    ensures
        gathered(loads_json(w, m, net, n).0, m, load_asks(w, net, s, n)),
        within(load_asks(w, net, s, n), all),
        loads_json(w, m, net, n).0.bases == w.bases,
    decreases n,
{
    if n > 0 {
        let k = (n - 1) as nat;
        lemma_loads_gather(w, m, net, s, k, all);
        let before = loads_json(w, m, net, k).0;
        let load = net.loads[n - 1];
        assert(before.base_of(load.bus) == w.base_of(load.bus)) by {
            reveal(WriterV::base_of);
        }
        let c = volts_ask(bounds_at(net, load.bus), w.base_of(load.bus));
        lemma_load_asks(before, m, net, load);
        if let Some(x) = c {
            assert(load_wants(w, net, net.loads.len(), x));
        }
        lemma_gather(before, loads_json(w, m, net, n).0, m, load_asks(w, net, s, k), c, all);
    }
}

pub proof fn lemma_buses_gather(
    w: WriterV,
    m: Sem,
    l: Seq<DistBusV>,
    s: Seq<AskV>,
    n: nat,
    all: Seq<AskV>,
)
    requires
        n <= l.len(),
        gathered(w, m, s),
        within(s, all),
        asks_agree(m, all),
        forall|x: AskV| bus_wants(w, l, l.len(), x) ==> #[trigger] all.contains(x),
    ensures
        gathered(buses_json(w, m, l, n).0, m, bus_asks(w, l, s, n)),
        within(bus_asks(w, l, s, n), all),
        buses_json(w, m, l, n).0.bases == w.bases,
        buses_json(w, m, l, n).0.responses == w.responses,
        buses_json(w, m, l, n).0.profiles == w.profiles,
    decreases n,
{
    if n > 0 {
        let k = (n - 1) as nat;
        lemma_buses_gather(w, m, l, s, k, all);
        let before = buses_json(w, m, l, k).0;
        let b = l[n - 1];
        assert(before.base_of(b.id) == w.base_of(b.id)) by {
            reveal(WriterV::base_of);
        }
        let c = volts_ask(both_bounds(b), w.base_of(b.id));
        lemma_bus_asks(before, m, b);
        if let Some(x) = c {
            assert(bus_wants(w, l, l.len(), x));
        }
        lemma_gather(before, buses_json(w, m, l, n).0, m, bus_asks(w, l, s, k), c, all);
    }
}

/// What is asked for depends on the bases that a writer knows alone.
pub proof fn lemma_asks_base(w: WriterV, v: WriterV, net: DistNetworkV, s: Seq<AskV>, n: nat)
    requires
        w.bases == v.bases,
    ensures
        load_asks(w, net, s, n) == load_asks(v, net, s, n),
        bus_asks(w, net.buses, s, n) == bus_asks(v, net.buses, s, n),
    decreases n,
{
    reveal(WriterV::base_of);
    if n > 0 {
        lemma_asks_base(w, v, net, s, (n - 1) as nat);
    }
}

} // verus!
