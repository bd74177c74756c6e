//! What the reader makes of the limit sets that the writer wrote.

use vstd::prelude::*;

use crate::json::JsonV;
use crate::math::{Bits, Sem};
use crate::model::{DistBusV, DistLineV, DistLoadV, DistNetworkV, DistSwitchV};
use crate::order::{get_of, put_of, set_put_from};
use crate::ravens::accept::{
    even, group_even, lemma_balanced_apart, lemma_load_phases_mild, lemma_share_even,
};
use crate::ravens::doc::{num_at, str_at};
use crate::ravens::emit::{extra_num, hot_letters_of, identified_of, pointer_json, shown, WriterV};
use crate::ravens::survive::{lemma_get_put, lemma_identified, lemma_identity_keys, tells};
use crate::ravens::write::{bus_json, buses_json};
use crate::ravens::write_lines::{first_rating, line_rating, lines_json, switches_json};
use crate::ravens::write_loads::{load_head, load_json, load_phases_json, loads_json};
use crate::text::str_less;

verus! {

// ---- sets ------------------------------------------------------------------

/// The name of the limit set of two bounds.
pub open spec fn bounds_name(m: Sem, low: Bits, high: Bits) -> Seq<char> {
    "OpLimV_"@ + shown(m, low) + "-"@ + shown(m, high)
}

/// The name of the limit set of two ampacities.
pub open spec fn amps_name(m: Sem, norm: Bits, emerg: Bits) -> Seq<char> {
    "OpLimI_"@ + shown(m, norm) + "_"@ + shown(m, emerg)
}

/// One value of a set: its kind, the number under a key, and its type.
pub open spec fn says_limit(
    m: Sem,
    v: JsonV,
    kind: Seq<char>,
    key: Seq<char>,
    x: Bits,
    ty: Seq<char>,
) -> bool {
    &&& v matches JsonV::Obj(o)
    &&& str_at(o, "Ravens.cimObjectType"@) == Some(kind)
    &&& tells(m, o, key, x)
    &&& get_of(o, "OperationalLimit.OperationalLimitType"@) == Some(
        pointer_json("OperationalLimitType"@, ty),
    )
}

/// A set of two values.
pub open spec fn says_pair(
    m: Sem,
    v: JsonV,
    kind: Seq<char>,
    key: Seq<char>,
    a: (Bits, Seq<char>),
    b: (Bits, Seq<char>),
) -> bool {
    &&& v matches JsonV::Obj(o)
    &&& str_at(o, "Ravens.cimObjectType"@) == Some("OperationalLimitSet"@)
    &&& get_of(o, "OperationalLimitSet.OperationalLimitValue"@) matches Some(JsonV::Arr(items))
    &&& items.len() == 2
    &&& says_limit(m, items[0], kind, key, a.0, a.1)
    &&& says_limit(m, items[1], kind, key, b.0, b.1)
}

/// The set of two bounds.
pub open spec fn says_bounds(m: Sem, v: JsonV, low: Bits, high: Bits) -> bool {
    says_pair(
        m,
        v,
        "VoltageLimit"@,
        "VoltageLimit.value"@,
        (low, "lowType_5000000000.0s"@),
        (high, "highType_5000000000.0s"@),
    )
}

/// The set of two ampacities.
pub open spec fn says_amps(m: Sem, v: JsonV, norm: Bits, emerg: Bits) -> bool {
    says_pair(
        m,
        v,
        "CurrentLimit"@,
        "CurrentLimit.value"@,
        (norm, "absoluteValueType_5000000000.0s"@),
        (emerg, "absoluteValueType_86400.0s"@),
    )
}

/// A set is that of bounds of its name, and their types are in use.
pub open spec fn bounds_stand(
    m: Sem,
    types: Seq<Seq<char>>,
    q: Seq<char>,
    v: JsonV,
    low: Bits,
    high: Bits,
) -> bool {
    &&& q == bounds_name(m, low, high)
    &&& says_bounds(m, v, low, high)
    &&& types.contains("lowType_5000000000.0s"@)
    &&& types.contains("highType_5000000000.0s"@)
}

/// A set is that of ampacities of its name, and their types are in use.
pub open spec fn amps_stand(
    m: Sem,
    types: Seq<Seq<char>>,
    q: Seq<char>,
    v: JsonV,
    norm: Bits,
    emerg: Bits,
) -> bool {
    &&& q == amps_name(m, norm, emerg)
    &&& says_amps(m, v, norm, emerg)
    &&& types.contains("absoluteValueType_5000000000.0s"@)
    &&& types.contains("absoluteValueType_86400.0s"@)
}

pub open spec fn set_stands(m: Sem, types: Seq<Seq<char>>, q: Seq<char>, v: JsonV) -> bool {
    ||| exists|low: Bits, high: Bits| #[trigger] bounds_stand(m, types, q, v, low, high)
    ||| exists|norm: Bits, emerg: Bits| #[trigger] amps_stand(m, types, q, v, norm, emerg)
}

/// Every set is that of the limits of its name.
pub open spec fn sets_stand(m: Sem, w: WriterV) -> bool {
    forall|q: Seq<char>| #[trigger]
        get_of(w.limit_sets, q) is Some ==> set_stands(
            m,
            w.used_types,
            q,
            get_of(w.limit_sets, q)->0,
        )
}

/// A writer went on: its sets and types are all still there, and stand if they
/// did.
pub open spec fn goes_on(m: Sem, w: WriterV, v: WriterV) -> bool {
    &&& forall|q: Seq<char>| #[trigger]
        get_of(w.limit_sets, q) is Some ==> get_of(v.limit_sets, q) == get_of(w.limit_sets, q)
    &&& forall|t: Seq<char>| #[trigger]
        w.used_types.contains(t) ==> v.used_types.contains(t)
    &&& sets_stand(m, w) ==> sets_stand(m, v)
}

pub proof fn lemma_goes_through(m: Sem, a: WriterV, b: WriterV, c: WriterV)
    requires
        goes_on(m, a, b),
        goes_on(m, b, c),
    ensures
        goes_on(m, a, c),
{
    assert forall|q: Seq<char>| #[trigger]
        get_of(a.limit_sets, q) is Some implies get_of(c.limit_sets, q) == get_of(
        a.limit_sets,
        q,
    ) by {
        assert(get_of(b.limit_sets, q) == get_of(a.limit_sets, q));
    }
    assert forall|t: Seq<char>| #[trigger] a.used_types.contains(t) implies c.used_types.contains(
        t,
    ) by {
        assert(b.used_types.contains(t));
    }
}

/// What leaves the sets and the types alone goes on.
pub proof fn lemma_even_goes_on(m: Sem, w: WriterV, v: WriterV)
    requires
        w.limit_sets == v.limit_sets,
        w.used_types == v.used_types,
    ensures
        goes_on(m, w, v),
{
}

// ---- writing ---------------------------------------------------------------

proof fn lemma_used_from(s: Seq<Seq<char>>, x: Seq<char>, i: int, t: Seq<char>)
    requires
        0 <= i <= s.len(),
    ensures
        set_put_from(s, x, i).contains(x),
        s.contains(t) ==> set_put_from(s, x, i).contains(t),
    decreases s.len() - i,
{
    let r = set_put_from(s, x, i);
    if i < s.len() && s[i] != x && !str_less(x, s[i]) {
        lemma_used_from(s, x, i + 1, t);
    } else if i < s.len() && s[i] == x {
        assert(r[i] == x);
    } else {
        assert(r =~= s.insert(i, x));
        assert(r[i] == x);
        if s.contains(t) {
            let k = choose|k: int| 0 <= k < s.len() && s[k] == t;
            if k < i {
                assert(r[k] == t);
            } else {
                assert(r[k + 1] == t);
            }
        }
    }
}

proof fn lemma_type_used(w: WriterV, ty: Seq<char>)
    ensures
        w.use_type(ty).used_types.contains(ty),
        forall|t: Seq<char>| #[trigger]
            w.used_types.contains(t) ==> w.use_type(ty).used_types.contains(t),
        w.use_type(ty).limit_sets == w.limit_sets,
{
    lemma_used_from(w.used_types, ty, 0, ty);
    assert forall|t: Seq<char>| #[trigger] w.used_types.contains(t) implies w.use_type(
        ty,
    ).used_types.contains(t) by {
        lemma_used_from(w.used_types, ty, 0, t);
    }
}

pub proof fn lemma_limit_keys()
    ensures
        "VoltageLimit.value"@.len() == 18,
        "VoltageLimit.normalValue"@.len() == 24,
        "CurrentLimit.value"@.len() == 18,
        "CurrentLimit.normalValue"@.len() == 24,
        "OperationalLimit.OperationalLimitType"@.len() == 37,
        "OperationalLimitSet.OperationalLimitValue"@.len() == 41,
{
    reveal_strlit("VoltageLimit.value");
    reveal_strlit("VoltageLimit.normalValue");
    reveal_strlit("CurrentLimit.value");
    reveal_strlit("CurrentLimit.normalValue");
    reveal_strlit("OperationalLimit.OperationalLimitType");
    reveal_strlit("OperationalLimitSet.OperationalLimitValue");
}

proof fn lemma_voltage_limit(
    w: WriterV,
    m: Sem,
    name: Seq<char>,
    suffix: Seq<char>,
    value: Bits,
    normal: Option<Bits>,
    ty: Seq<char>,
)
    ensures
        says_limit(
            m,
            w.voltage_limit(m, name, suffix, value, normal, ty).1,
            "VoltageLimit"@,
            "VoltageLimit.value"@,
            value,
            ty,
        ),
        even(w.use_type(ty), w.voltage_limit(m, name, suffix, value, normal, ty).0),
{
    broadcast use {lemma_get_put, group_even};

    lemma_identity_keys();
    lemma_limit_keys();
    lemma_identified("VoltageLimit"@, name + "_"@ + suffix, None, "VoltageLimit.value"@);
    reveal(WriterV::voltage_limit);
    reveal(WriterV::num);
    reveal(WriterV::warn);
    reveal(num_at);
    reveal(str_at);
}

proof fn lemma_current_limit(
    w: WriterV,
    m: Sem,
    name: Seq<char>,
    suffix: Seq<char>,
    value: Bits,
    norm: Bits,
    ty: Seq<char>,
)
    ensures
        says_limit(
            m,
            w.current_limit(m, name, suffix, value, norm, ty).1,
            "CurrentLimit"@,
            "CurrentLimit.value"@,
            value,
            ty,
        ),
        even(w.use_type(ty), w.current_limit(m, name, suffix, value, norm, ty).0),
{
    broadcast use {lemma_get_put, group_even};

    lemma_identity_keys();
    lemma_limit_keys();
    lemma_identified("CurrentLimit"@, name + "_"@ + suffix, None, "CurrentLimit.value"@);
    reveal(WriterV::current_limit);
    reveal(WriterV::num);
    reveal(WriterV::warn);
    reveal(num_at);
    reveal(str_at);
}

/// A set that stands goes on standing while more types are used.
proof fn lemma_stands_on(
    m: Sem,
    a: Seq<Seq<char>>,
    b: Seq<Seq<char>>,
    q: Seq<char>,
    v: JsonV,
)
    requires
        set_stands(m, a, q, v),
        forall|t: Seq<char>| #[trigger] a.contains(t) ==> b.contains(t),
    ensures
        set_stands(m, b, q, v),
{
    if exists|low: Bits, high: Bits| #[trigger] bounds_stand(m, a, q, v, low, high) {
        let (low, high) = choose|low: Bits, high: Bits| #[trigger]
            bounds_stand(m, a, q, v, low, high);
        assert(bounds_stand(m, b, q, v, low, high));
    } else {
        let (norm, emerg) = choose|norm: Bits, emerg: Bits| #[trigger]
            amps_stand(m, a, q, v, norm, emerg);
        assert(amps_stand(m, b, q, v, norm, emerg));
    }
}

/// A writer with one set more, which stands, went on.
proof fn lemma_one_more(m: Sem, w: WriterV, v: WriterV, name: Seq<char>, set: JsonV)
    requires
        get_of(w.limit_sets, name) is None,
        v.limit_sets == put_of(w.limit_sets, name, set),
        forall|t: Seq<char>| #[trigger] w.used_types.contains(t) ==> v.used_types.contains(t),
        set_stands(m, v.used_types, name, set),
    ensures
        goes_on(m, w, v),
        get_of(v.limit_sets, name) == Some(set),
{
    broadcast use lemma_get_put;

    if sets_stand(m, w) {
        assert forall|q: Seq<char>| #[trigger] get_of(v.limit_sets, q) is Some implies set_stands(
            m,
            v.used_types,
            q,
            get_of(v.limit_sets, q)->0,
        ) by {
            if q != name {
                assert(get_of(w.limit_sets, q) is Some);
                lemma_stands_on(m, w.used_types, v.used_types, q, get_of(w.limit_sets, q)->0);
            }
        }
    }
}

#[verifier::rlimit(40)]
pub proof fn lemma_bounds_written(
    w: WriterV,
    m: Sem,
    low: Bits,
    high: Bits,
    normal: Option<Bits>,
)
    ensures
        goes_on(m, w, w.voltage_limit_set(m, low, high, normal).0),
        w.voltage_limit_set(m, low, high, normal).1 == bounds_name(m, low, high),
        get_of(
            w.voltage_limit_set(m, low, high, normal).0.limit_sets,
            bounds_name(m, low, high),
        ) is Some,
{
    broadcast use lemma_get_put;

    reveal(WriterV::voltage_limit_set);
    let name = bounds_name(m, low, high);
    if get_of(w.limit_sets, name) is None {
        let t1 = "lowType_5000000000.0s"@;
        let t2 = "highType_5000000000.0s"@;
        lemma_voltage_limit(w, m, name, "RangeAlow"@, low, normal, t1);
        let (w1, a) = w.voltage_limit(m, name, "RangeAlow"@, low, normal, t1);
        lemma_type_used(w, t1);
        lemma_voltage_limit(w1, m, name, "RangeAhigh"@, high, normal, t2);
        let (w2, b) = w1.voltage_limit(m, name, "RangeAhigh"@, high, normal, t2);
        lemma_type_used(w1, t2);
        let set = put_of(
            identified_of("OperationalLimitSet"@, name, None),
            "OperationalLimitSet.OperationalLimitValue"@,
            JsonV::Arr(seq![a, b]),
        );
        lemma_limit_keys();
        lemma_identity_keys();
        lemma_identified(
            "OperationalLimitSet"@,
            name,
            None,
            "OperationalLimitSet.OperationalLimitValue"@,
        );
        reveal(str_at);
        let v = w.voltage_limit_set(m, low, high, normal).0;
        assert(bounds_stand(m, v.used_types, name, JsonV::Obj(set), low, high));
        lemma_one_more(m, w, v, name, JsonV::Obj(set));
    } else {
        lemma_even_goes_on(m, w, w);
    }
}

#[verifier::rlimit(40)]
pub proof fn lemma_amps_written(w: WriterV, m: Sem, norm: Bits, emerg: Bits)
    ensures
        goes_on(m, w, w.current_limit_set(m, norm, emerg).0),
        w.current_limit_set(m, norm, emerg).1 == amps_name(m, norm, emerg),
        get_of(w.current_limit_set(m, norm, emerg).0.limit_sets, amps_name(m, norm, emerg)) is Some,
{
    broadcast use lemma_get_put;

    reveal(WriterV::current_limit_set);
    let name = amps_name(m, norm, emerg);
    if get_of(w.limit_sets, name) is None {
        let t1 = "absoluteValueType_5000000000.0s"@;
        let t2 = "absoluteValueType_86400.0s"@;
        lemma_current_limit(w, m, name, "Norm"@, norm, norm, t1);
        let (w1, a) = w.current_limit(m, name, "Norm"@, norm, norm, t1);
        lemma_type_used(w, t1);
        lemma_current_limit(w1, m, name, "Emerg"@, emerg, norm, t2);
        let (w2, b) = w1.current_limit(m, name, "Emerg"@, emerg, norm, t2);
        lemma_type_used(w1, t2);
        let set = put_of(
            identified_of("OperationalLimitSet"@, name, None),
            "OperationalLimitSet.OperationalLimitValue"@,
            JsonV::Arr(seq![a, b]),
        );
        lemma_limit_keys();
        lemma_identity_keys();
        lemma_identified(
            "OperationalLimitSet"@,
            name,
            None,
            "OperationalLimitSet.OperationalLimitValue"@,
        );
        reveal(str_at);
        let v = w.current_limit_set(m, norm, emerg).0;
        assert(amps_stand(m, v.used_types, name, JsonV::Obj(set), norm, emerg));
        lemma_one_more(m, w, v, name, JsonV::Obj(set));
    } else {
        lemma_even_goes_on(m, w, w);
    }
}

// ---- families --------------------------------------------------------------

/// The pair of ampacities that a set is written for.
pub open spec fn amps_pair(norm: Option<Bits>, emerg: Option<Bits>) -> Option<(Bits, Bits)> {
    match (norm, emerg) {
        (Some(n), Some(e)) => Some((n, e)),
        (None, Some(e)) => Some((e, e)),
        (Some(n), None) => Some((n, n)),
        (None, None) => None,
    }
}

pub proof fn lemma_ampacity_goes_on(w: WriterV, m: Sem, norm: Option<Bits>, emerg: Option<Bits>)
    ensures
        goes_on(m, w, w.ampacity(m, norm, emerg).0),
        match amps_pair(norm, emerg) {
            Some((n, e)) => {
                &&& w.ampacity(m, norm, emerg).1 == Some(amps_name(m, n, e))
                &&& get_of(w.ampacity(m, norm, emerg).0.limit_sets, amps_name(m, n, e)) is Some
            },
            None => w.ampacity(m, norm, emerg).1 is None,
        },
{
    match amps_pair(norm, emerg) {
        Some((n, e)) => {
            lemma_amps_written(w, m, n, e);
        },
        None => {
            lemma_even_goes_on(m, w, w);
        },
    }
}

/// The ampacities that are written of a line: its own, and those of its code.
pub open spec fn line_amps(m: Sem, net: DistNetworkV, line: DistLineV) -> Option<(Bits, Bits)> {
    amps_pair(extra_num(m, line.extras, "normamps"@), line_rating(net, line.linecode))
}

/// The ampacities that are written of a switch.
pub open spec fn switch_amps(m: Sem, s: DistSwitchV) -> Option<(Bits, Bits)> {
    amps_pair(extra_num(m, s.extras, "normamps"@), first_rating(s.i_max))
}

/// The set of a pair of ampacities is there.
pub open spec fn amps_set(m: Sem, w: WriterV, pair: Option<(Bits, Bits)>) -> bool {
    pair matches Some((a, e)) ==> get_of(w.limit_sets, amps_name(m, a, e)) is Some
}

/// The lines' sets, each in its place once its line is written.
pub proof fn lemma_lines_go_on(w: WriterV, m: Sem, net: DistNetworkV, n: nat, i: int)
    requires
        n <= net.lines.len(),
    ensures
        goes_on(m, w, lines_json(w, m, net, n).0),
        0 <= i < n ==> amps_set(m, lines_json(w, m, net, n).0, line_amps(m, net, net.lines[i])),
    decreases n,
{
    broadcast use group_even;

    if n == 0 {
        lemma_even_goes_on(m, w, w);
    } else {
        lemma_lines_go_on(w, m, net, (n - 1) as nat, i);
        let before = lines_json(w, m, net, (n - 1) as nat).0;
        let line = net.lines[n - 1];
        let what = "line "@ + line.name;
        let u = before.num(m, line.length, what).0;
        let v = if line.terminal_map_to != line.terminal_map_from {
            u.warn(
                what
                    + ": the two terminal maps differ; MG-RAVENS carries one phase list per segment, so the from side wins"@,
            )
        } else {
            u
        };
        lemma_even_goes_on(m, before, v);
        let norm = extra_num(m, line.extras, "normamps"@);
        let emerg = line_rating(net, line.linecode);
        lemma_ampacity_goes_on(v, m, norm, emerg);
        let a = v.ampacity(m, norm, emerg).0;
        let now = lines_json(w, m, net, n).0;
        assert(now == a.warn_extras(what, line.extras, seq!["normamps"@]));
        lemma_even_goes_on(m, a, now);
        lemma_goes_through(m, before, v, a);
        lemma_goes_through(m, before, a, now);
        lemma_goes_through(m, w, before, now);
    }
}

/// The switches' sets, each in its place once its switch is written.
pub proof fn lemma_switches_go_on(w: WriterV, m: Sem, s: Seq<DistSwitchV>, n: nat, i: int)
    requires
        n <= s.len(),
    ensures
        goes_on(m, w, switches_json(w, m, s, n).0),
        0 <= i < n ==> amps_set(m, switches_json(w, m, s, n).0, switch_amps(m, s[i])),
    decreases n,
{
    broadcast use group_even;

    if n == 0 {
        lemma_even_goes_on(m, w, w);
    } else {
        lemma_switches_go_on(w, m, s, (n - 1) as nat, i);
        let before = switches_json(w, m, s, (n - 1) as nat).0;
        let x = s[n - 1];
        let norm = extra_num(m, x.extras, "normamps"@);
        let emerg = first_rating(x.i_max);
        lemma_ampacity_goes_on(before, m, norm, emerg);
        let a = before.ampacity(m, norm, emerg).0;
        let now = switches_json(w, m, s, n).0;
        assert(now == a.warn_extras("switch "@ + x.name, x.extras, seq!["normamps"@]));
        lemma_even_goes_on(m, a, now);
        lemma_goes_through(m, before, a, now);
        lemma_goes_through(m, w, before, now);
    }
}

pub proof fn lemma_head_keeps_sets(w: WriterV, m: Sem, net: DistNetworkV, load: DistLoadV)
    ensures
        load_head(w, m, net, load).0.limit_sets == w.limit_sets,
        load_head(w, m, net, load).0.used_types == w.used_types,
{
    broadcast use {group_even, lemma_share_even};

    reveal(load_head);
    reveal(WriterV::attach_profile);
    reveal(WriterV::load_response);
    reveal(WriterV::shared_response);
}

pub proof fn lemma_loads_go_on(w: WriterV, m: Sem, net: DistNetworkV, n: nat)
    ensures
        goes_on(m, w, loads_json(w, m, net, n).0),
    decreases n,
{
    broadcast use group_even;

    if n == 0 {
        lemma_even_goes_on(m, w, w);
    } else {
        lemma_loads_go_on(w, m, net, (n - 1) as nat);
        let before = loads_json(w, m, net, (n - 1) as nat).0;
        let load = net.loads[n - 1];
        lemma_head_keeps_sets(before, m, net, load);
        let head = load_head(before, m, net, load).0;
        let letters = hot_letters_of(load.terminal_map);
        lemma_balanced_apart("AlgorithmSettings"@);
        lemma_load_phases_mild("AlgorithmSettings"@, head, m, load, letters, letters.len());
        let v = load_phases_json(head, m, load, letters, letters.len()).0;
        lemma_even_goes_on(m, before, v);
        let a = v.bus_voltage_limit(m, net, load.bus).0;
        assert(goes_on(m, v, a)) by {
            reveal(WriterV::bus_voltage_limit);
            lemma_even_goes_on(m, v, v);
            if let Some(b) = net.bus(load.bus) {
                if b.v_min is Some && b.v_max is Some {
                    lemma_bounds_written(v, m, b.v_min->0, b.v_max->0, v.base_of(load.bus));
                }
            }
        }
        let now = loads_json(w, m, net, n).0;
        assert(even(a, now)) by {
            reveal(load_json);
        }
        lemma_even_goes_on(m, a, now);
        lemma_goes_through(m, before, v, a);
        lemma_goes_through(m, before, a, now);
        lemma_goes_through(m, w, before, now);
    }
}

/// The buses' sets, each in its place once its bus is written.
pub proof fn lemma_buses_go_on(w: WriterV, m: Sem, s: Seq<DistBusV>, n: nat, i: int)
    requires
        n <= s.len(),
    ensures
        goes_on(m, w, buses_json(w, m, s, n).0),
        0 <= i < n && s[i].v_min is Some && s[i].v_max is Some ==> get_of(
            buses_json(w, m, s, n).0.limit_sets,
            bounds_name(m, s[i].v_min->0, s[i].v_max->0),
        ) is Some,
    decreases n,
{
    broadcast use group_even;

    if n == 0 {
        lemma_even_goes_on(m, w, w);
    } else {
        lemma_buses_go_on(w, m, s, (n - 1) as nat, i);
        let before = buses_json(w, m, s, (n - 1) as nat).0;
        let b = s[n - 1];
        let now = buses_json(w, m, s, n).0;
        let a = if b.v_min is Some && b.v_max is Some {
            lemma_bounds_written(before, m, b.v_min->0, b.v_max->0, before.base_of(b.id));
            before.voltage_limit_set(m, b.v_min->0, b.v_max->0, before.base_of(b.id)).0
        } else {
            lemma_even_goes_on(m, before, before);
            before
        };
        assert(even(a, now)) by {
            reveal(bus_json);
        }
        lemma_even_goes_on(m, a, now);
        lemma_goes_through(m, before, a, now);
        lemma_goes_through(m, w, before, now);
    }
}

} // verus!
