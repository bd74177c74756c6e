//! What a transformer that is read of a document has from the properties of its
//! tank, its datasheet and its tap changer.

use vstd::prelude::*;

use crate::json::{float_json, get_of, Entries, JsonV};
use crate::math::{
    abs_of, is_finite, num_eq, num_le, num_lt, signed, Bits, Sem, HALF, HUNDRED, MICRO, MINUS_ONE,
    ONE, ONE_AND_HALF, ZERO,
};
use crate::model::{DistTransformerV, WindingConn, WindingV};
use crate::ravens::doc::{
    collect_of, list_at, named_of, num_at, num_or, sorted_kind, suffix_at, target_at, ObjV,
};
use crate::ravens::keeps::{
    group_keeps, group_parts, lemma_reactances_keep, lemma_windings_keep, stages,
};
use crate::ravens::lists::lemma_lists;
use crate::ravens::name::{hot_of, letters_of, terminals_of as terminals_of_letters};
use crate::ravens::read::ravens_value;
use crate::ravens::state::StateV;
use crate::ravens::lines::mrid_extras;
use crate::ravens::survive::{lemma_get_none, lemma_get_put};
use crate::ravens::tanks::{
    noload_from, noload_n, tank_extras_of, circuit_n, datasheet_of, end_conn_of, end_map_of,
    end_node_of, end_step, ends_of, info_at, infos_of, neutral_of, pairs, rated_winding,
    reactances_of, tank_step, tanks_n, tap_ratio, tapped_from, tapped_of, test_reactance, tests_n,
    windings_n,
};
use crate::terminals::three_phases;

verus! {

/// The number that a property of an object is, or another where it is none.
pub open spec fn said(m: Sem, o: Entries, key: Seq<char>, d: Bits) -> Bits {
    match get_of(o, key) {
        Some(JsonV::Num(t)) => match (m.parse)(t) {
            Some(x) => x,
            None => d,
        },
        _ => d,
    }
}

pub broadcast proof fn lemma_said(m: Sem, o: Entries, key: Seq<char>, d: Bits)
    ensures
        #[trigger] num_or(m, o, key, d) == said(m, o, key, d),
{
    reveal(num_at);
}

// ---- taps ------------------------------------------------------------------

/// A tap that a tap changer sets: its position where that is a ratio, else one
/// and, for each step above its neutral one, the increment in percent.
pub open spec fn is_tap(m: Sem, o: Entries, tap: Bits) -> bool {
    let step = said(m, o, "TapChanger.step"@, ONE);
    let neutral = said(m, o, "TapChanger.neutralStep"@, ZERO);
    let increment = said(m, o, "RatioTapChanger.stepVoltageIncrement"@, ZERO);
    if num_le(HALF, step) && num_le(step, ONE_AND_HALF) {
        tap == step
    } else {
        tap == m.plus(ONE, m.over(m.times(m.minus(step, neutral), increment), HUNDRED))
    }
}

/// The volts of a winding are those at which a tap changer is neutral, to a
/// millionth.
pub open spec fn is_regulated(m: Sem, o: Entries, w: WindingV) -> bool {
    let u = said(m, o, "TapChanger.neutralU"@, ZERO);
    num_lt(ZERO, u) && num_le(abs_of(m.minus(w.v_ref, u)), m.times(MICRO, abs_of(u)))
}

/// A tap changer sets the tap of one winding, the first that it regulates or
/// else the last, and of no other.
pub open spec fn sets_tap(m: Sem, o: Entries, ws: Seq<WindingV>, i: int) -> bool {
    &&& 0 <= i < ws.len()
    &&& is_tap(m, o, ws[i].tap)
    &&& forall|k: int| 0 <= k < ws.len() && k != i ==> (#[trigger] ws[k]).tap == ONE
    &&& forall|k: int| 0 <= k < i ==> !is_regulated(m, o, #[trigger] ws[k])
    &&& is_regulated(m, o, ws[i]) || i == ws.len() - 1
}

/// The taps of a transformer are those of the tap changer of its name; without
/// one they are all one.
pub open spec fn is_tapped(m: Sem, doc: Seq<ObjV>, x: DistTransformerV) -> bool {
    match named_of(doc, "RatioTapChanger"@, x.name) {
        Some(o) => exists|i: int| #[trigger] sets_tap(m, o, x.windings, i),
        None => forall|k: int| 0 <= k < x.windings.len() ==> (#[trigger] x.windings[k]).tap == ONE,
    }
}

proof fn lemma_tapped_from(m: Sem, u: Bits, ws: Seq<WindingV>, i: int, o: Entries)
    requires
        0 <= i <= ws.len(),
        ws.len() > 0,
        u == said(m, o, "TapChanger.neutralU"@, ZERO),
        forall|k: int| 0 <= k < i ==> !is_regulated(m, o, #[trigger] ws[k]),
    ensures
        ({
            let r = tapped_from(m, u, ws, i);
            &&& 0 <= r < ws.len()
            &&& forall|k: int| 0 <= k < r ==> !is_regulated(m, o, #[trigger] ws[k])
            &&& is_regulated(m, o, ws[r]) || r == ws.len() - 1
        }),
    decreases ws.len() - i,
{
    if i < ws.len() && !is_regulated(m, o, ws[i]) {
        lemma_tapped_from(m, u, ws, i + 1, o);
    }
}

proof fn lemma_tapped(
    m: Sem,
    doc: Seq<ObjV>,
    st: StateV,
    name: Seq<char>,
    ws: Seq<WindingV>,
    x: DistTransformerV,
)
    requires
        ws.len() > 0,
        forall|k: int| 0 <= k < ws.len() ==> (#[trigger] ws[k]).tap == ONE,
        x.name == name,
        x.windings == tapped_of(m, doc, st, name, ws).1,
    ensures
        is_tapped(m, doc, x),
{
    broadcast use lemma_said;

    reveal(tapped_of);
    reveal(tap_ratio);
    if let Some(o) = named_of(doc, "RatioTapChanger"@, name) {
        let u = num_or(m, o, "TapChanger.neutralU"@, ZERO);
        lemma_tapped_from(m, u, ws, 0, o);
        let i = tapped_from(m, u, ws, 0);
        let r = x.windings;
        assert(r == ws.update(i, WindingV { tap: tap_ratio(m, o), ..ws[i] }));
        assert(is_tap(m, o, r[i].tap));
        assert forall|k: int| 0 <= k < i implies !is_regulated(m, o, #[trigger] r[k]) by {
            assert(r[k] == ws[k]);
        }
        assert(sets_tap(m, o, r, i));
    }
}

/// A position above neutral raises the tap, one below lowers it, and at neutral
/// it is one. The position is not a ratio itself, and a step is an increase.
pub proof fn lemma_tap_follows_its_position(m: Sem, o: Entries, tap: Bits)
    requires
        signed(m),
        is_tap(m, o, tap),
        ({
            let step = said(m, o, "TapChanger.step"@, ONE);
            let neutral = said(m, o, "TapChanger.neutralStep"@, ZERO);
            let increment = said(m, o, "RatioTapChanger.stepVoltageIncrement"@, ZERO);
            &&& is_finite(step) && is_finite(neutral) && is_finite(increment)
            &&& num_lt(ZERO, increment)
            &&& num_lt(step, HALF) || num_lt(ONE_AND_HALF, step)
        }),
    ensures
        ({
            let step = said(m, o, "TapChanger.step"@, ONE);
            let neutral = said(m, o, "TapChanger.neutralStep"@, ZERO);
            &&& num_lt(neutral, step) ==> num_le(ONE, tap)
            &&& num_lt(step, neutral) ==> num_le(tap, ONE)
            &&& num_eq(step, neutral) ==> num_eq(tap, ONE)
        }),
{
    let step = said(m, o, "TapChanger.step"@, ONE);
    let neutral = said(m, o, "TapChanger.neutralStep"@, ZERO);
    let increment = said(m, o, "RatioTapChanger.stepVoltageIncrement"@, ZERO);
    let steps = m.minus(step, neutral);
    let share = m.times(steps, increment);
    let part = m.over(share, HUNDRED);
    assert(tap == m.plus(ONE, part));
    assert(num_lt(ZERO, HUNDRED) && is_finite(HUNDRED) && is_finite(ONE));
    assert(num_lt(ZERO, steps) == num_lt(neutral, step));
    assert(num_lt(steps, ZERO) == num_lt(step, neutral));
    assert(num_eq(steps, ZERO) == num_eq(step, neutral));
    if num_lt(neutral, step) {
        assert(num_le(ZERO, share));
        assert(num_le(ZERO, part));
    } else if num_lt(step, neutral) {
        assert(num_le(share, ZERO));
        assert(num_le(part, ZERO));
    } else {
        assert(num_eq(share, ZERO));
        assert(num_le(ZERO, part) && num_le(part, ZERO));
    }
}

// ---- windings --------------------------------------------------------------

/// The wires that an end names, by its ordered phases where it has them, else by
/// its phases; three where it names none.
pub open spec fn end_wires(end: Entries) -> Seq<Seq<char>> {
    let code = match get_of(end, "TransformerTankEnd.orderedPhases"@) {
        Some(v) => Some(v),
        None => get_of(end, "TransformerTankEnd.phases"@),
    };
    match code {
        Some(JsonV::Str(s)) => if terminals_of_letters(letters_of(s)).len() > 0 {
            terminals_of_letters(letters_of(s))
        } else {
            three_phases()
        },
        _ => three_phases(),
    }
}

/// A winding of an end and of its record: at the node of the end's first
/// terminal, rated as the record says, delta where its connection is `D` or `A`,
/// and with the resistance in percent of its rated volts squared over its rated
/// power.
pub open spec fn is_winding(m: Sem, end: Entries, info: Entries, w: WindingV) -> bool {
    let u = said(m, info, "TransformerEndInfo.ratedU"@, ZERO);
    let s = said(m, info, "TransformerEndInfo.ratedS"@, ZERO);
    let kind = suffix_at(info, "TransformerEndInfo.connectionKind"@);
    let grounded = get_of(end, "TransformerEnd.grounded"@) == Some(JsonV::Bool(true));
    let rg = said(m, end, "TransformerEnd.rground"@, ZERO);
    let xg = said(m, end, "TransformerEnd.xground"@, ZERO);
    let base = end_wires(end);
    &&& w.terminal_map == if w.conn == WindingConn::Wye && grounded && !base.contains("4"@) {
        base.push("4"@)
    } else {
        base
    }
    &&& list_at(end, "ConductingEquipment.Terminals"@).len() > 0
    &&& list_at(end, "ConductingEquipment.Terminals"@)[0] matches JsonV::Obj(t)
    &&& target_at(t, "Terminal.ConnectivityNode"@) == Some(w.bus)
    &&& w.v_ref == u
    &&& w.s_rating == s
    &&& (w.conn == WindingConn::Delta) == (kind == Some("D"@) || kind == Some("A"@))
    &&& w.r_pct == if num_at(m, info, "TransformerEndInfo.r"@) is Some && num_lt(ZERO, u)
        && num_lt(ZERO, s) {
        m.times(
            m.over(
                said(m, info, "TransformerEndInfo.r"@, ZERO),
                m.over(m.times(u, u), s),
            ),
            HUNDRED,
        )
    } else {
        ZERO
    }
    &&& w.conn == WindingConn::Delta ==> w.r_neutral is None && w.x_neutral is None
    &&& w.conn == WindingConn::Wye && !grounded ==> w.r_neutral == Some(MINUS_ONE) && w.x_neutral
        == Some(ZERO)
    &&& w.conn == WindingConn::Wye && grounded ==> {
        &&& w.terminal_map.contains("4"@)
        &&& if num_lt(ZERO, abs_of(rg)) || num_lt(ZERO, abs_of(xg)) {
            w.r_neutral == Some(rg) && w.x_neutral == Some(xg)
        } else {
            w.r_neutral is None && w.x_neutral is None
        }
    }
}

#[verifier::rlimit(40)]
proof fn lemma_end(
    m: Sem,
    st: StateV,
    name: Seq<char>,
    infos: Seq<(u64, Entries)>,
    num: u64,
    end: Entries,
)
    ensures
        end_step(m, st, name, infos, num, end).1 matches Some(w) ==> w.tap == ONE && (info_at(
            infos,
            num,
            0,
        ) matches Some(info) && is_winding(m, end, info, w)),
{
    broadcast use lemma_said;

    reveal(end_node_of);
    reveal(crate::ravens::tanks::end_letters_of);
    assert(terminals_of_letters(seq![]).len() == 0) by {
        reveal(terminals_of_letters);
    }
    reveal(end_conn_of);
    reveal(end_map_of);
    reveal(rated_winding);
    reveal(neutral_of);
    reveal(num_at);
    reveal(crate::ravens::doc::bool_at);
    reveal_strlit("D");
    reveal_strlit("A");
    reveal_strlit("Y");
    reveal_strlit("Yn");
    reveal_strlit("I");
    assert("D"@[0] == 'D' && "A"@[0] == 'A' && "Y"@[0] == 'Y' && "I"@[0] == 'I');
    assert("Yn"@.len() == 2 && "D"@.len() == 1 && "A"@.len() == 1);
    assert forall|map: Seq<Seq<char>>| (#[trigger] map.push("4"@)).contains("4"@) by {
        assert(map.push("4"@)[map.len() as int] == "4"@);
    }
}

/// Every winding comes of an end of the tank and the record of its number.
pub open spec fn are_windings(
    m: Sem,
    infos: Seq<(u64, Entries)>,
    ends: Seq<(u64, Entries)>,
    ws: Seq<WindingV>,
) -> bool {
    forall|k: int|
        0 <= k < ws.len() ==> (info_at(infos, (#[trigger] ends[k]).0, 0) matches Some(info)
            && is_winding(m, ends[k].1, info, ws[k]))
}

proof fn lemma_windings(
    m: Sem,
    st: StateV,
    name: Seq<char>,
    infos: Seq<(u64, Entries)>,
    ends: Seq<(u64, Entries)>,
    n: nat,
)
    requires
        n <= ends.len(),
    ensures
        windings_n(m, st, name, infos, ends, n).ok ==> {
            let ws = windings_n(m, st, name, infos, ends, n).windings;
            &&& ws.len() == n
            &&& are_windings(m, infos, ends, ws)
            &&& windings_n(m, st, name, infos, ends, n).phases == phases_n(ws, n)
            &&& forall|k: int| 0 <= k < ws.len() ==> (#[trigger] ws[k]).tap == ONE
        },
    decreases n,
{
    if n > 0 {
        lemma_windings(m, st, name, infos, ends, (n - 1) as nat);
        let before = windings_n(m, st, name, infos, ends, (n - 1) as nat);
        lemma_end(m, before.st, name, infos, ends[n - 1].0, ends[n - 1].1);
        let after = windings_n(m, st, name, infos, ends, n);
        if after.ok {
            lemma_phases_same(after.windings, before.windings, (n - 1) as nat);
        }
    }
}

/// The most phases that one of the first `n` windings has, and one at least.
pub open spec fn phases_n(ws: Seq<WindingV>, n: nat) -> nat
    decreases n,
{
    if n == 0 {
        1
    } else {
        let before = phases_n(ws, (n - 1) as nat);
        let own = hot_of(ws[n - 1].terminal_map).len();
        if own > before {
            own
        } else {
            before
        }
    }
}

proof fn lemma_phases_same(a: Seq<WindingV>, b: Seq<WindingV>, n: nat)
    requires
        n <= a.len(),
        n <= b.len(),
        forall|k: int|
            0 <= k < n ==> (#[trigger] a[k]).terminal_map == b[k].terminal_map,
    ensures
        phases_n(a, n) == phases_n(b, n),
    decreases n,
{
    if n > 0 {
        lemma_phases_same(a, b, (n - 1) as nat);
        assert(a[n - 1].terminal_map == b[n - 1].terminal_map);
    }
}

/// A tap changes nothing else.
proof fn lemma_tapped_windings(
    m: Sem,
    doc: Seq<ObjV>,
    st: StateV,
    name: Seq<char>,
    infos: Seq<(u64, Entries)>,
    ends: Seq<(u64, Entries)>,
    ws: Seq<WindingV>,
)
    requires
        ws.len() > 0,
        are_windings(m, infos, ends, ws),
    ensures
        are_windings(m, infos, ends, tapped_of(m, doc, st, name, ws).1),
        tapped_of(m, doc, st, name, ws).1.len() == ws.len(),
        forall|k: int|
            0 <= k < ws.len() ==> (#[trigger] tapped_of(m, doc, st, name, ws).1[k]).terminal_map
                == ws[k].terminal_map,
{
    broadcast use lemma_said;

    reveal(tapped_of);
    let r = tapped_of(m, doc, st, name, ws).1;
    if let Some(o) = named_of(doc, "RatioTapChanger"@, name) {
        lemma_tapped_from(m, num_or(m, o, "TapChanger.neutralU"@, ZERO), ws, 0, o);
    }
    assert forall|k: int| 0 <= k < r.len() implies (info_at(
        infos,
        (#[trigger] ends[k]).0,
        0,
    ) matches Some(info) && is_winding(m, ends[k].1, info, r[k])) by {
        assert(ends[k] == ends[k]);
        let info = info_at(infos, ends[k].0, 0)->0;
        assert(is_winding(m, ends[k].1, info, ws[k]));
    }
}

// ---- reactances ------------------------------------------------------------

/// The reactance of the first pair of a tank: that of the first short-circuit
/// test, its leakage impedance in percent of the rated volts squared over the
/// power of the test.
pub open spec fn is_reactance(m: Sem, info: Entries, test: Entries, x: Bits) -> bool {
    let u = said(m, info, "TransformerEndInfo.ratedU"@, ZERO);
    let s = said(
        m,
        test,
        "TransformerTest.basePower"@,
        said(m, info, "TransformerEndInfo.ratedS"@, ZERO),
    );
    &&& num_lt(ZERO, u)
    &&& num_lt(ZERO, s)
    &&& x == m.times(
        m.over(
            said(m, test, "ShortCircuitTest.leakageImpedance"@, ZERO),
            m.over(m.times(u, u), s),
        ),
        HUNDRED,
    )
}

/// A test gives a reactance.
pub open spec fn gives(m: Sem, infos: Seq<(u64, Entries)>, k: int, j: int, x: Bits) -> bool {
    &&& 0 <= k < infos.len()
    &&& 0 <= j < tests_at(infos, k).len()
    &&& tests_at(infos, k)[j] matches JsonV::Obj(t)
    &&& is_reactance(m, infos[k].1, t, x)
}

/// No test before one gives a reactance, in the order of the records.
pub open spec fn none_before(m: Sem, infos: Seq<(u64, Entries)>, k: int, j: int) -> bool {
    forall|a: int, b: int, y: Bits| (a < k || (a == k && b < j)) ==> !#[trigger] gives(
        m,
        infos,
        a,
        b,
        y,
    )
}

/// The first test of the records that gives a reactance gives this one.
pub open spec fn first_reactance(m: Sem, infos: Seq<(u64, Entries)>, x: Bits) -> bool {
    exists|k: int, j: int| #[trigger] gives(m, infos, k, j, x) && none_before(m, infos, k, j)
}

/// What the tests before one give: nothing, or the reactance of the first.
pub open spec fn so_far(
    m: Sem,
    infos: Seq<(u64, Entries)>,
    k: int,
    j: int,
    x: Option<Bits>,
) -> bool {
    match x {
        Some(v) => first_reactance(m, infos, v),
        None => none_before(m, infos, k, j),
    }
}

pub open spec fn tests_at(infos: Seq<(u64, Entries)>, k: int) -> Seq<JsonV> {
    list_at(infos[k].1, "TransformerEndInfo.EnergisedEndShortCircuitTests"@)
}

proof fn lemma_tests(
    m: Sem,
    st: StateV,
    name: Seq<char>,
    windings: nat,
    infos: Seq<(u64, Entries)>,
    k: int,
    x: Option<Bits>,
    n: nat,
)
    requires
        0 <= k < infos.len(),
        n <= tests_at(infos, k).len(),
        so_far(m, infos, k, 0, x),
    ensures
        so_far(
            m,
            infos,
            k,
            n as int,
            tests_n(
                m,
                st,
                name,
                windings,
                infos[k].0,
                infos[k].1,
                x,
                tests_at(infos, k),
                n,
            ).1,
        ),
    decreases n,
{
    broadcast use lemma_said;

    if n > 0 {
        let j = n - 1;
        lemma_tests(m, st, name, windings, infos, k, x, (n - 1) as nat);
        let before = tests_n(
            m,
            st,
            name,
            windings,
            infos[k].0,
            infos[k].1,
            x,
            tests_at(infos, k),
            (n - 1) as nat,
        ).1;
        reveal(test_reactance);
        reveal(num_at);
        if before is None {
            if let JsonV::Obj(t) = tests_at(infos, k)[j] {
                if let Some(v) = test_reactance(m, infos[k].1, t) {
                    assert(gives(m, infos, k, j, v));
                    assert(first_reactance(m, infos, v));
                } else {
                    assert(forall|y: Bits| !is_reactance(m, infos[k].1, t, y));
                }
            }
        }
    }
}

proof fn lemma_circuits(
    m: Sem,
    st: StateV,
    name: Seq<char>,
    windings: nat,
    infos: Seq<(u64, Entries)>,
    n: nat,
)
    requires
        n <= infos.len(),
    ensures
        so_far(m, infos, n as int, 0, circuit_n(m, st, name, windings, infos, n).1),
    decreases n,
{
    if n > 0 {
        lemma_circuits(m, st, name, windings, infos, (n - 1) as nat);
        let before = circuit_n(m, st, name, windings, infos, (n - 1) as nat);
        lemma_tests(
            m,
            before.0,
            name,
            windings,
            infos,
            n - 1,
            before.1,
            tests_at(infos, n - 1).len(),
        );
        let after = circuit_n(m, st, name, windings, infos, n).1;
        if after is None {
            assert forall|a: int, b: int, y: Bits| a < n implies !#[trigger] gives(
                m,
                infos,
                a,
                b,
                y,
            ) by {
                assert(none_before(m, infos, n - 1, tests_at(infos, n - 1).len() as int));
            }
        }
    }
}

/// The reactances of a tank: that of its first test for the first pair, none for
/// the others.
pub open spec fn are_reactances(m: Sem, infos: Seq<(u64, Entries)>, xsc: Seq<Bits>) -> bool {
    &&& forall|k: int| 1 <= k < xsc.len() ==> #[trigger] xsc[k] == ZERO
    &&& xsc.len() > 0
    &&& first_reactance(m, infos, xsc[0]) || (xsc[0] == ZERO && none_before(
        m,
        infos,
        infos.len() as int,
        0,
    ))
}

proof fn lemma_pairs_positive(n: nat)
    requires
        n >= 2,
    ensures
        pairs(n) >= 1,
{
    reveal_with_fuel(pairs, 2);
}

proof fn lemma_reactances(
    m: Sem,
    st: StateV,
    name: Seq<char>,
    windings: nat,
    infos: Seq<(u64, Entries)>,
)
    requires
        windings >= 2,
    ensures
        are_reactances(m, infos, reactances_of(m, st, name, windings, infos).1),
        reactances_of(m, st, name, windings, infos).1.len() == pairs(windings),
{
    reveal(reactances_of);
    lemma_pairs_positive(windings);
    lemma_circuits(m, st, name, windings, infos, infos.len());
}

// ---- no-load tests ---------------------------------------------------------

/// The percentage of its base power that a no-load test loses.
pub open spec fn loss_of(m: Sem, test: JsonV) -> Option<Bits> {
    match test {
        JsonV::Obj(t) => {
            let power = said(m, t, "TransformerTest.basePower"@, ZERO);
            match num_at(m, t, "NoLoadTest.loss"@) {
                Some(loss) => if num_lt(ZERO, power) && num_lt(ZERO, abs_of(loss)) {
                    Some(m.times(m.over(loss, power), HUNDRED))
                } else {
                    None
                },
                None => None,
            }
        },
        _ => None,
    }
}

/// The exciting current of a no-load test, in percent.
pub open spec fn exciting_of(m: Sem, test: JsonV) -> Option<Bits> {
    match test {
        JsonV::Obj(t) => match num_at(m, t, "NoLoadTest.excitingCurrent"@) {
            Some(i) => if num_lt(ZERO, abs_of(i)) {
                Some(i)
            } else {
                None
            },
            None => None,
        },
        _ => None,
    }
}

/// What the last of the first `n` tests says that says anything.
pub open spec fn last_n(say: spec_fn(JsonV) -> Option<Bits>, tests: Seq<JsonV>, n: nat) -> Option<
    Bits,
>
    decreases n,
{
    if n == 0 {
        None
    } else {
        match say(tests[n - 1]) {
            Some(x) => Some(x),
            None => last_n(say, tests, (n - 1) as nat),
        }
    }
}

/// The no-load tests of the first record, from the `i`-th on, that lists any.
pub open spec fn tests_from(infos: Seq<(u64, Entries)>, i: int) -> Seq<JsonV>
    decreases infos.len() - i,
{
    if i < 0 || i >= infos.len() {
        seq![]
    } else {
        match get_of(infos[i].1, "TransformerEndInfo.EnergisedEndNoLoadTests"@) {
            Some(JsonV::Arr(tests)) => tests,
            _ => tests_from(infos, i + 1),
        }
    }
}

/// A number is noted under a key where there is one.
pub open spec fn notes(m: Sem, extras: Entries, key: Seq<char>, x: Option<Bits>) -> bool {
    get_of(extras, key) == match x {
        Some(v) => Some(float_json(m, v)),
        None => None,
    }
}

/// What no-load tests say.
pub open spec fn loss_rule(m: Sem) -> spec_fn(JsonV) -> Option<Bits> {
    |t: JsonV| loss_of(m, t)
}

/// What no-load tests say of the current.
pub open spec fn exciting_rule(m: Sem) -> spec_fn(JsonV) -> Option<Bits> {
    |t: JsonV| exciting_of(m, t)
}

/// The losses and the exciting current of a tank are noted.
pub open spec fn are_noted(m: Sem, infos: Seq<(u64, Entries)>, extras: Entries) -> bool {
    let tests = tests_from(infos, 0);
    &&& notes(m, extras, "%noloadloss"@, last_n(loss_rule(m), tests, tests.len()))
    &&& notes(m, extras, "%imag"@, last_n(exciting_rule(m), tests, tests.len()))
}

proof fn lemma_noload_keys()
    ensures
        "%noloadloss"@ != "%imag"@,
        "ravens_mrid"@ != "%imag"@,
        "ravens_mrid"@ != "%noloadloss"@,
{
    reveal_strlit("%noloadloss");
    reveal_strlit("%imag");
    reveal_strlit("ravens_mrid");
    assert("%noloadloss"@.len() == 11 && "%imag"@.len() == 5 && "ravens_mrid"@.len() == 11);
    assert("%noloadloss"@[0] == '%' && "ravens_mrid"@[0] == 'r');
}

proof fn lemma_noload_n(m: Sem, extras: Entries, tests: Seq<JsonV>, n: nat)
    requires
        get_of(extras, "%noloadloss"@) is None,
        get_of(extras, "%imag"@) is None,
    ensures
        notes(m, noload_n(m, extras, tests, n), "%noloadloss"@, last_n(loss_rule(m), tests, n)),
        notes(m, noload_n(m, extras, tests, n), "%imag"@, last_n(exciting_rule(m), tests, n)),
    decreases n,
{
    broadcast use {lemma_said, lemma_get_put};

    lemma_noload_keys();
    if n > 0 {
        lemma_noload_n(m, extras, tests, (n - 1) as nat);
    }
}

proof fn lemma_noload_from(m: Sem, extras: Entries, infos: Seq<(u64, Entries)>, i: int)
    requires
        0 <= i,
        get_of(extras, "%noloadloss"@) is None,
        get_of(extras, "%imag"@) is None,
    ensures
        ({
            let tests = tests_from(infos, i);
            let a = noload_from(m, extras, infos, i);
            &&& notes(m, a, "%noloadloss"@, last_n(loss_rule(m), tests, tests.len()))
            &&& notes(m, a, "%imag"@, last_n(exciting_rule(m), tests, tests.len()))
        }),
    decreases infos.len() - i,
{
    if i < infos.len() {
        match get_of(infos[i].1, "TransformerEndInfo.EnergisedEndNoLoadTests"@) {
            Some(JsonV::Arr(tests)) => {
                lemma_noload_n(m, extras, tests, tests.len());
            },
            _ => {
                lemma_noload_from(m, extras, infos, i + 1);
            },
        }
    }
}

proof fn lemma_noted(m: Sem, doc: Seq<ObjV>, name: Seq<char>, infos: Seq<(u64, Entries)>)
    ensures
        are_noted(m, infos, tank_extras_of(m, doc, name, infos)),
{
    broadcast use lemma_get_put;

    lemma_noload_keys();
    reveal(mrid_extras);
    assert forall|q: Seq<char>| #[trigger] get_of(Entries::empty(), q) is None by {
        lemma_get_none(q);
    }
    let base = match named_of(doc, "PowerTransformer"@, name) {
        Some(p) => mrid_extras(p),
        None => Entries::empty(),
    };
    lemma_noload_from(m, base, infos, 0);
}

// ---- transformers ----------------------------------------------------------

/// A transformer has what its tank, the datasheet of the tank and the tap changer
/// of its name say.
pub open spec fn is_of_tank(m: Sem, doc: Seq<ObjV>, o: ObjV, x: DistTransformerV) -> bool {
    &&& x.name == o.name
    &&& datasheet_of(doc, o.props) matches Some(sheet)
    &&& x.windings.len() == ends_of(o.props).len() >= 2
    &&& are_windings(m, infos_of(sheet), ends_of(o.props), x.windings)
    &&& x.xsc_pct.len() == pairs(x.windings.len())
    &&& are_reactances(m, infos_of(sheet), x.xsc_pct)
    &&& x.phases == phases_n(x.windings, x.windings.len()) as usize
    &&& are_noted(m, infos_of(sheet), x.extras)
    &&& is_tapped(m, doc, x)
}

/// A tank is complete: it has a datasheet and two ends or more, and each end is at
/// a node and has a record.
pub open spec fn is_complete(doc: Seq<ObjV>, o: ObjV) -> bool {
    &&& datasheet_of(doc, o.props) matches Some(sheet)
    &&& ends_of(o.props).len() >= 2
    &&& are_complete(infos_of(sheet), ends_of(o.props), ends_of(o.props).len() as int)
}

/// Each of the first `n` ends is at a node and has a record.
pub open spec fn are_complete(
    infos: Seq<(u64, Entries)>,
    ends: Seq<(u64, Entries)>,
    n: int,
) -> bool {
    forall|k: int|
        0 <= k < n ==> end_node_of((#[trigger] ends[k]).1) is Some && info_at(
            infos,
            ends[k].0,
            0,
        ) is Some
}

proof fn lemma_complete(
    m: Sem,
    st: StateV,
    name: Seq<char>,
    infos: Seq<(u64, Entries)>,
    ends: Seq<(u64, Entries)>,
    n: nat,
)
    requires
        n <= ends.len(),
    ensures
        windings_n(m, st, name, infos, ends, n).ok == are_complete(infos, ends, n as int),
    decreases n,
{
    if n > 0 {
        lemma_complete(m, st, name, infos, ends, (n - 1) as nat);
        let whole = are_complete(infos, ends, n as int);
        if are_complete(infos, ends, n - 1) {
            if whole {
                assert(end_node_of(ends[n - 1].1) is Some);
            }
        } else if whole {
            assert forall|k: int| 0 <= k < n - 1 implies end_node_of((#[trigger] ends[k]).1) is Some
                && info_at(infos, ends[k].0, 0) is Some by {}
        }
    }
}

/// A transformer comes of some tank of a document.
pub open spec fn has_tank(m: Sem, doc: Seq<ObjV>, x: DistTransformerV) -> bool {
    exists|i: int|
        0 <= i < doc.len() && (#[trigger] doc[i]).kind == "TransformerTank"@ && is_of_tank(
            m,
            doc,
            doc[i],
            x,
        )
}

#[verifier::rlimit(40)]
pub proof fn lemma_tank(m: Sem, doc: Seq<ObjV>, st: StateV, o: ObjV)
    ensures
        ({
            let after = tank_step(m, doc, st, o).net.transformers;
            if is_complete(doc, o) {
                &&& after.len() == st.net.transformers.len() + 1
                &&& after.drop_last() == st.net.transformers
                &&& is_of_tank(m, doc, o, after.last())
            } else {
                after == st.net.transformers
            }
        }),
{
    broadcast use {group_keeps, group_parts};

    if let Some(sheet) = datasheet_of(doc, o.props) {
        let infos = infos_of(sheet);
        let ends = ends_of(o.props);
        let n = ends.len();
        let e = windings_n(m, st, o.name, infos, ends, n);
        lemma_windings_keep(m, st, o.name, infos, ends, n);
        lemma_complete(m, st, o.name, infos, ends, n);
        lemma_reactances_keep(m, e.st, o.name, e.windings.len(), infos);
        if n >= 2 && e.ok {
            lemma_windings(m, st, o.name, infos, ends, n);
            lemma_reactances(m, e.st, o.name, e.windings.len(), infos);
            let tested = reactances_of(m, e.st, o.name, e.windings.len(), infos).0;
            lemma_tapped_windings(m, doc, tested, o.name, infos, ends, e.windings);
            let after = tank_step(m, doc, st, o).net.transformers;
            assert(after.drop_last() =~= st.net.transformers);
            lemma_tapped(m, doc, tested, o.name, e.windings, after.last());
            lemma_phases_same(after.last().windings, e.windings, n);
            lemma_noted(m, doc, o.name, infos);
        }
    }
}

proof fn lemma_tanks(m: Sem, doc: Seq<ObjV>, st: StateV, ids: Seq<usize>, n: nat)
    requires
        n <= ids.len(),
        st.net.transformers.len() == 0,
        forall|j: int|
            0 <= j < ids.len() ==> (#[trigger] ids[j]) < doc.len() && doc[ids[j] as int].kind
                == "TransformerTank"@,
    ensures
        forall|k: int|
            0 <= k < tanks_n(m, doc, st, ids, n).net.transformers.len() ==> has_tank(
                m,
                doc,
                #[trigger] tanks_n(m, doc, st, ids, n).net.transformers[k],
            ),
    decreases n,
{
    if n > 0 {
        lemma_tanks(m, doc, st, ids, (n - 1) as nat);
        let before = tanks_n(m, doc, st, ids, (n - 1) as nat);
        let o = doc[ids[n - 1] as int];
        lemma_tank(m, doc, before, o);
        let after = tanks_n(m, doc, st, ids, n).net.transformers;
        assert forall|k: int| 0 <= k < after.len() implies has_tank(
            m,
            doc,
            #[trigger] after[k],
        ) by {
            if k < before.net.transformers.len() {
                assert(after[k] == before.net.transformers[k]) by {
                    assert(after == before.net.transformers || after.drop_last()[k] == after[k]);
                }
            } else {
                assert(is_of_tank(m, doc, doc[ids[n - 1] as int], after[k]));
            }
        }
    }
}

/// Every transformer of a network that is read of a document has the windings,
/// the reactance and the taps that its tank, the datasheet of the tank and the
/// tap changer of its name say. In particular a tap changer whose position is not
/// a ratio sets one tap to one and its steps above neutral times its increment in
/// percent, and every other tap is one.
pub proof fn lemma_transformers_are_of_tanks(m: Sem, root: Entries)
    requires
        collect_of(root).len() <= usize::MAX,
    ensures
        ravens_value(m, JsonV::Obj(root)) matches Ok(net) ==> forall|k: int|
            0 <= k < net.transformers.len() ==> has_tank(
                m,
                collect_of(root),
                #[trigger] net.transformers[k],
            ),
{
    let doc = collect_of(root);
    let g = stages(m, doc);
    let ids = sorted_kind(doc, "TransformerTank"@);
    lemma_lists(m, doc);
    assert forall|j: int| 0 <= j < ids.len() implies (#[trigger] ids[j]) < doc.len()
        && doc[ids[j] as int].kind == "TransformerTank"@ by {
        crate::ravens::survive_places::lemma_kind_only(
            doc,
            Seq::empty(),
            "TransformerTank"@,
            doc.len(),
            j,
        );
    }
    lemma_tanks(m, doc, g.fed, ids, ids.len());
}

} // verus!
