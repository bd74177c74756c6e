//! What the elements of a network that is read have from the properties of the
//! objects they are read of.

use vstd::prelude::*;

use crate::cim::phase::expand_of;
use crate::cim::read::{
    bus_at_of, children_of, data_n, coded, documents_of, end_x_sum, ends_of, firsts, joins,
    line_step, linecode_for_of, lines_n, lines_of, load_step, loads_n, loads_of, merged_n,
    mesh_from, network_of, own_code, per_length_of, phase_count_from, reactance_of, seen_from,
    shunt_of, shunts_n, source_of, sources_n, switch_classes, switches_n, switches_upto,
    terminal_map_of, terminal_node_of, transformers_n, winding_at, windings_n, LinesV, LoadsV,
};
use crate::cim::store::{CimDocumentV, StoreV};
use crate::math::{
    is_finite, num_eq, num_le, num_lt, signed, Bits, Sem, HUNDRED, ONE, PI, SIXTY, THREE, TWO, ZERO,
};
use crate::matrix::{halved, max3, mirror_of, to_usize_of};
use crate::model::{
    Configuration, DistLineCodeV, DistLineV, DistLoadV, DistNetworkV, DistShuntV, DistSwitchV,
    DistTransformerV, MatV, VoltageSourceV, WindingConn, WindingV,
};

verus! {

// ---- matrices --------------------------------------------------------------

/// A square matrix with one value on its diagonal and another off it.
pub open spec fn two_parts(a: MatV, n: nat, on: Bits, off: Bits) -> bool {
    &&& a.len() == n
    &&& forall|i: int| 0 <= i < n ==> (#[trigger] a[i]).len() == n
    &&& forall|i: int| 0 <= i < n ==> #[trigger] a[i][i] == on
    &&& forall|i: int, j: int| 0 <= i < n && 0 <= j < n && i != j ==> #[trigger] a[i][j] == off
}

/// A matrix of zeros.
pub open spec fn no_part(a: MatV, n: nat) -> bool {
    two_parts(a, n, ZERO, ZERO)
}

// ---- line codes ------------------------------------------------------------

/// A line code of sequence data: of resistance and reactance a third of the zero
/// sequence and two thirds of the positive one on the diagonal, and a third of
/// their difference off it; of the charging the same, half of it at each end.
pub open spec fn is_sequence_code(m: Sem, s: StoreV, pli: Seq<char>, c: DistLineCodeV) -> bool {
    let r = s.number_or(m, pli, "PerLengthSequenceImpedance.r"@, ZERO);
    let r0 = s.number_or(m, pli, "PerLengthSequenceImpedance.r0"@, r);
    let x = s.number_or(m, pli, "PerLengthSequenceImpedance.x"@, ZERO);
    let x0 = s.number_or(m, pli, "PerLengthSequenceImpedance.x0"@, x);
    let b = s.number_or(m, pli, "PerLengthSequenceImpedance.bch"@, ZERO);
    let b0 = s.number_or(m, pli, "PerLengthSequenceImpedance.b0ch"@, b);
    let n = c.r_series.len();
    let b_on = m.over(m.over(m.plus(b0, m.times(TWO, b)), THREE), TWO);
    let b_off = m.over(m.over(m.minus(b0, b), THREE), TWO);
    &&& c.name == s.name(pli)
    &&& n >= 1
    &&& two_parts(
        c.r_series,
        n,
        m.over(m.plus(r0, m.times(TWO, r)), THREE),
        m.over(m.minus(r0, r), THREE),
    )
    &&& two_parts(
        c.x_series,
        n,
        m.over(m.plus(x0, m.times(TWO, x)), THREE),
        m.over(m.minus(x0, x), THREE),
    )
    &&& two_parts(c.b_from, n, b_on, b_off)
    &&& c.b_to == c.b_from
    &&& no_part(c.g_from, n)
    &&& no_part(c.g_to, n)
}

/// A data row names an entry of the matrices of an impedance, in either order.
pub open spec fn fills(m: Sem, s: StoreV, pli: Seq<char>, d: Seq<char>, i: int, j: int) -> bool {
    &&& s.refv(d, "PhaseImpedanceData.PerLengthPhaseImpedance"@) == Some(pli)
    &&& s.number(m, d, "PhaseImpedanceData.row"@) matches Some(row)
    &&& s.number(m, d, "PhaseImpedanceData.column"@) matches Some(col)
    &&& ({
        let a = to_usize_of(m.trunc(row)) - 1;
        let b = to_usize_of(m.trunc(col)) - 1;
        (a == i && b == j) || (a == j && b == i)
    })
}

/// The last of the first `k` data rows that names an entry.
pub open spec fn last_fills(
    m: Sem,
    s: StoreV,
    pli: Seq<char>,
    ids: Seq<Seq<char>>,
    k: nat,
    h: int,
    i: int,
    j: int,
) -> bool {
    &&& 0 <= h < k
    &&& fills(m, s, pli, ids[h], i, j)
    &&& forall|g: int| h < g < k ==> !fills(m, s, pli, #[trigger] ids[g], i, j)
}

/// An entry of the resistances, reactances and susceptances is that of the last
/// data row that names it, and zero where none does.
pub open spec fn is_entry(
    m: Sem,
    s: StoreV,
    pli: Seq<char>,
    ids: Seq<Seq<char>>,
    k: nat,
    i: int,
    j: int,
    r: Bits,
    x: Bits,
    b: Bits,
) -> bool {
    ||| exists|h: int| #[trigger] last_fills(m, s, pli, ids, k, h, i, j) && {
        &&& r == s.number_or(m, ids[h], "PhaseImpedanceData.r"@, ZERO)
        &&& x == s.number_or(m, ids[h], "PhaseImpedanceData.x"@, ZERO)
        &&& b == s.number_or(m, ids[h], "PhaseImpedanceData.b"@, ZERO)
    }
    ||| (forall|h: int| 0 <= h < k ==> !fills(m, s, pli, #[trigger] ids[h], i, j)) && r == ZERO
        && x == ZERO && b == ZERO
}

/// A square matrix.
pub open spec fn is_square(a: MatV, n: nat) -> bool {
    a.len() == n && forall|i: int| 0 <= i < n ==> (#[trigger] a[i]).len() == n
}

/// A line code of phase data: each entry is that of a data row, the charging half
/// at each end.
pub open spec fn is_phase_code(m: Sem, s: StoreV, pli: Seq<char>, c: DistLineCodeV) -> bool {
    let n = c.r_series.len();
    &&& c.name == s.name(pli)
    &&& n >= 1
    &&& is_square(c.r_series, n)
    &&& is_square(c.x_series, n)
    &&& is_square(c.b_from, n)
    &&& c.b_to == c.b_from
    &&& no_part(c.g_from, n)
    &&& no_part(c.g_to, n)
    &&& forall|i: int, j: int|
        0 <= i < n && 0 <= j < n ==> #[trigger] is_datum(m, s, pli, c, i, j)
}

/// An entry of a line code of phase data.
pub open spec fn is_datum(
    m: Sem,
    s: StoreV,
    pli: Seq<char>,
    c: DistLineCodeV,
    i: int,
    j: int,
) -> bool {
    let ids = s.of_class("PhaseImpedanceData"@);
    let r = c.r_series[i][j];
    let x = c.x_series[i][j];
    exists|b: Bits| #[trigger]
        is_entry(m, s, pli, ids, ids.len(), i, j, r, x, b) && c.b_from[i][j] == m.over(b, TWO)
}

/// A line code of a segment's own impedance: uncoupled, per metre, its charging
/// half at each end.
pub open spec fn is_own_code(m: Sem, s: StoreV, id: Seq<char>, c: DistLineCodeV) -> bool {
    let n = c.r_series.len();
    let len = length_at(m, s, id);
    let r = s.number_or(m, id, "ACLineSegment.r"@, ZERO);
    let x = s.number_or(m, id, "ACLineSegment.x"@, ZERO);
    let b = s.number_or(m, id, "ACLineSegment.bch"@, ZERO);
    &&& c.name == s.name(id) + "_lc"@
    &&& n >= 1
    &&& two_parts(c.r_series, n, m.over(r, len), ZERO)
    &&& two_parts(c.x_series, n, m.over(x, len), ZERO)
    &&& two_parts(c.b_from, n, m.over(m.over(b, TWO), len), ZERO)
    &&& c.b_to == c.b_from
    &&& no_part(c.g_from, n)
    &&& no_part(c.g_to, n)
}

/// The metres of a segment: one where it gives no positive length.
pub open spec fn length_at(m: Sem, s: StoreV, id: Seq<char>) -> Bits {
    match s.number(m, id, "Conductor.length"@) {
        Some(x) => if num_lt(ZERO, x) {
            x
        } else {
            ONE
        },
        None => ONE,
    }
}

/// A line code of the impedance that a segment points at, or else of its own.
#[verifier::opaque]
pub open spec fn is_code(m: Sem, s: StoreV, id: Seq<char>, c: DistLineCodeV) -> bool {
    match s.refv(id, "ACLineSegment.PerLengthImpedance"@) {
        Some(pli) => if s.class_of(pli) == Some("PerLengthPhaseImpedance"@) {
            is_phase_code(m, s, pli, c)
        } else if s.class_of(pli) == Some("PerLengthSequenceImpedance"@) {
            is_sequence_code(m, s, pli, c)
        } else {
            is_own_code(m, s, id, c)
        },
        None => is_own_code(m, s, id, c),
    }
}

/// A line of a segment: between the nodes of its first two terminals, as long as
/// the segment.
#[verifier::opaque]
pub open spec fn is_line(m: Sem, s: StoreV, id: Seq<char>, e: DistLineV) -> bool {
    &&& e.name == s.name(id)
    &&& bus_at_of(m, s, id, 0) == Some(e.bus_from)
    &&& bus_at_of(m, s, id, 1) == Some(e.bus_to)
    &&& e.length == length_at(m, s, id)
    &&& e.terminal_map_from == terminal_map_of(
        m,
        s,
        id,
        "ACLineSegmentPhase"@,
        "ACLineSegmentPhase.ACLineSegment"@,
    )
    &&& e.terminal_map_to == e.terminal_map_from
}

/// A line code of a list is that of a segment, and a line points at it.
#[verifier::opaque]
pub open spec fn has_code(
    m: Sem,
    s: StoreV,
    codes: Seq<DistLineCodeV>,
    id: Seq<char>,
    e: DistLineV,
) -> bool {
    exists|c: int|
        0 <= c < codes.len() && (#[trigger] codes[c]).name == e.linecode && is_code(
            m,
            s,
            id,
            codes[c],
        )
}

pub open spec fn line_of(
    m: Sem,
    s: StoreV,
    codes: Seq<DistLineCodeV>,
    id: Seq<char>,
    e: DistLineV,
) -> bool {
    is_line(m, s, id, e) && has_code(m, s, codes, id, e)
}

// ---- coupling --------------------------------------------------------------

/// Conductors couple as the sequences say: the entries of a sequence code off its
/// diagonal have the sign of the zero sequence less the positive one, and vanish
/// where the two are equal.
pub proof fn lemma_sequences_couple(
    m: Sem,
    s: StoreV,
    pli: Seq<char>,
    c: DistLineCodeV,
    i: int,
    j: int,
)
    requires
        signed(m),
        is_sequence_code(m, s, pli, c),
        0 <= i < c.r_series.len(),
        0 <= j < c.r_series.len(),
        i != j,
        is_finite(s.number_or(m, pli, "PerLengthSequenceImpedance.x"@, ZERO)),
        is_finite(
            s.number_or(
                m,
                pli,
                "PerLengthSequenceImpedance.x0"@,
                s.number_or(m, pli, "PerLengthSequenceImpedance.x"@, ZERO),
            ),
        ),
    ensures
        ({
            let x = s.number_or(m, pli, "PerLengthSequenceImpedance.x"@, ZERO);
            let x0 = s.number_or(m, pli, "PerLengthSequenceImpedance.x0"@, x);
            &&& num_lt(x, x0) ==> num_le(ZERO, c.x_series[i][j])
            &&& num_lt(x0, x) ==> num_le(c.x_series[i][j], ZERO)
            &&& num_eq(x0, x) ==> num_eq(c.x_series[i][j], ZERO)
            &&& c.x_series[i][j] == c.x_series[j][i]
        }),
{
    let x = s.number_or(m, pli, "PerLengthSequenceImpedance.x"@, ZERO);
    let x0 = s.number_or(m, pli, "PerLengthSequenceImpedance.x0"@, x);
    let d = m.minus(x0, x);
    assert(c.x_series[i][j] == m.over(d, THREE));
    assert(c.x_series[j][i] == m.over(d, THREE));
    assert(num_lt(ZERO, THREE) && is_finite(THREE));
    assert(num_lt(ZERO, d) == num_lt(x, x0));
    assert(num_lt(d, ZERO) == num_lt(x0, x));
    assert(num_eq(d, ZERO) == num_eq(x0, x));
}

// ---- reading lines ---------------------------------------------------------

proof fn lemma_mirror(a: MatV, n: nat, p: int, q: int, v: Bits, i: int, j: int)
    requires
        is_square(a, n),
        0 <= p < n,
        0 <= q < n,
        0 <= i < n,
        0 <= j < n,
    ensures
        is_square(mirror_of(a, p, q, v), n),
        mirror_of(a, p, q, v)[i][j] == if (i == p && j == q) || (i == q && j == p) {
            v
        } else {
            a[i][j]
        },
{
}

proof fn lemma_data(
    m: Sem,
    s: StoreV,
    pli: Seq<char>,
    n: nat,
    ids: Seq<Seq<char>>,
    k: nat,
    i: int,
    j: int,
)
    requires
        k <= ids.len(),
        0 <= i < n,
        0 <= j < n,
        n <= usize::MAX,
    ensures
        ({
            let t = data_n(m, s, pli, n, ids, k);
            &&& is_square(t.r, n)
            &&& is_square(t.x, n)
            &&& is_square(t.b, n)
            &&& is_entry(m, s, pli, ids, k, i, j, t.r[i][j], t.x[i][j], t.b[i][j])
        }),
    decreases k,
{
    let t = data_n(m, s, pli, n, ids, k);
    if k > 0 {
        let before = data_n(m, s, pli, n, ids, (k - 1) as nat);
        lemma_data(m, s, pli, n, ids, (k - 1) as nat, i, j);
        let d = ids[k - 1];
        if fills(m, s, pli, d, i, j) {
            let p = to_usize_of(m.trunc(s.number(m, d, "PhaseImpedanceData.row"@)->0)) - 1;
            let q = to_usize_of(m.trunc(s.number(m, d, "PhaseImpedanceData.column"@)->0)) - 1;
            lemma_mirror(before.r, n, p, q, s.number_or(m, d, "PhaseImpedanceData.r"@, ZERO), i, j);
            lemma_mirror(before.x, n, p, q, s.number_or(m, d, "PhaseImpedanceData.x"@, ZERO), i, j);
            lemma_mirror(before.b, n, p, q, s.number_or(m, d, "PhaseImpedanceData.b"@, ZERO), i, j);
            assert(last_fills(m, s, pli, ids, k, k - 1, i, j));
        } else {
            if t != before {
                let p = to_usize_of(m.trunc(s.number(m, d, "PhaseImpedanceData.row"@)->0)) - 1;
                let q = to_usize_of(m.trunc(s.number(m, d, "PhaseImpedanceData.column"@)->0)) - 1;
                lemma_mirror(
                    before.r,
                    n,
                    p,
                    q,
                    s.number_or(m, d, "PhaseImpedanceData.r"@, ZERO),
                    i,
                    j,
                );
                lemma_mirror(
                    before.x,
                    n,
                    p,
                    q,
                    s.number_or(m, d, "PhaseImpedanceData.x"@, ZERO),
                    i,
                    j,
                );
                lemma_mirror(
                    before.b,
                    n,
                    p,
                    q,
                    s.number_or(m, d, "PhaseImpedanceData.b"@, ZERO),
                    i,
                    j,
                );
            }
            assert(t.r[i][j] == before.r[i][j] && t.x[i][j] == before.x[i][j] && t.b[i][j]
                == before.b[i][j]);
            if exists|h: int| #[trigger]
                last_fills(m, s, pli, ids, (k - 1) as nat, h, i, j) {
                let h = choose|h: int| #[trigger]
                    last_fills(m, s, pli, ids, (k - 1) as nat, h, i, j) && t.r[i][j]
                        == s.number_or(m, ids[h], "PhaseImpedanceData.r"@, ZERO) && t.x[i][j]
                        == s.number_or(m, ids[h], "PhaseImpedanceData.x"@, ZERO) && t.b[i][j]
                        == s.number_or(m, ids[h], "PhaseImpedanceData.b"@, ZERO);
                assert(last_fills(m, s, pli, ids, k, h, i, j));
            }
        }
    }
}

/// The code of an impedance.
proof fn lemma_impedance(m: Sem, s: StoreV, pli: Seq<char>, nphase: nat)
    requires
        1 <= nphase <= usize::MAX,
    ensures
        per_length_of(m, s, pli, nphase) matches Some(t) ==> is_impedance_code(
            m,
            s,
            pli,
            coded(s.name(pli), t.r, t.x, halved(m, t.b)),
        ),
        per_length_of(m, s, pli, nphase) is None ==> s.class_of(pli) != Some(
            "PerLengthPhaseImpedance"@,
        ) && s.class_of(pli) != Some("PerLengthSequenceImpedance"@),
{
    reveal(per_length_of);
    if let Some(t) = per_length_of(m, s, pli, nphase) {
        let c = coded(s.name(pli), t.r, t.x, halved(m, t.b));
        if s.class_of(pli) == Some("PerLengthPhaseImpedance"@) {
            let ids = s.of_class("PhaseImpedanceData"@);
            let count = match s.number(m, pli, "PerLengthPhaseImpedance.conductorCount"@) {
                Some(k) => to_usize_of(m.trunc(k)) as nat,
                None => nphase,
            };
            let n = max3(count, nphase, 1);
            lemma_data(m, s, pli, n, ids, ids.len(), 0, 0);
            assert forall|i: int, j: int| 0 <= i < n && 0 <= j < n implies #[trigger] is_datum(
                m,
                s,
                pli,
                c,
                i,
                j,
            ) by {
                lemma_data(m, s, pli, n, ids, ids.len(), i, j);
                let b = t.b[i][j];
                assert(c.b_from[i][j] == m.over(b, TWO));
                assert(is_entry(
                    m,
                    s,
                    pli,
                    ids,
                    ids.len(),
                    i,
                    j,
                    c.r_series[i][j],
                    c.x_series[i][j],
                    b,
                ));
            }
        } else {
            assert(is_sequence_code(m, s, pli, c));
        }
        reveal(is_impedance_code);
    }
}

proof fn lemma_own(m: Sem, s: StoreV, id: Seq<char>, nphase: nat)
    requires
        1 <= nphase,
    ensures
        is_own_code(m, s, id, own_code(m, s, id, nphase, length_at(m, s, id))),
{
}

/// The impedances that were seen have their codes.
#[verifier::opaque]
pub open spec fn seen_coded(m: Sem, s: StoreV, st: LinesV, k: int) -> bool {
    exists|c: int|
        0 <= c < st.codes.len() && (#[trigger] st.codes[c]).name == st.seen[k].1
            && is_impedance_code(m, s, st.seen[k].0, st.codes[c])
}

#[verifier::opaque]
pub open spec fn is_impedance_code(m: Sem, s: StoreV, pli: Seq<char>, c: DistLineCodeV) -> bool {
    if s.class_of(pli) == Some("PerLengthPhaseImpedance"@) {
        is_phase_code(m, s, pli, c)
    } else {
        s.class_of(pli) == Some("PerLengthSequenceImpedance"@) && is_sequence_code(m, s, pli, c)
    }
}

proof fn lemma_seen(seen: Seq<(Seq<char>, Seq<char>)>, pli: Seq<char>, i: int) -> (k: int)
    requires
        0 <= i,
        seen_from(seen, pli, i) is Some,
    ensures
        i <= k < seen.len(),
        seen[k].0 == pli,
        seen_from(seen, pli, i) == Some(seen[k].1),
    decreases seen.len() - i,
{
    if seen[i].0 == pli {
        i
    } else {
        lemma_seen(seen, pli, i + 1)
    }
}

/// A line is that of one of the first `n` segments.
#[verifier::opaque]
pub open spec fn line_from(
    m: Sem,
    s: StoreV,
    codes: Seq<DistLineCodeV>,
    ids: Seq<Seq<char>>,
    n: nat,
    e: DistLineV,
) -> bool {
    exists|h: int| 0 <= h < n && line_of(m, s, codes, #[trigger] ids[h], e)
}

/// A segment has its line.
#[verifier::opaque]
pub open spec fn line_in(
    m: Sem,
    s: StoreV,
    codes: Seq<DistLineCodeV>,
    lines: Seq<DistLineV>,
    id: Seq<char>,
) -> bool {
    exists|k: int| 0 <= k < lines.len() && line_of(m, s, codes, id, #[trigger] lines[k])
}

/// The lines so far are those of segments, with their codes.
spec fn lines_ok(m: Sem, s: StoreV, st: LinesV, ids: Seq<Seq<char>>, n: nat) -> bool {
    &&& forall|k: int| 0 <= k < st.seen.len() ==> #[trigger] seen_coded(m, s, st, k)
    &&& forall|k: int|
        0 <= k < st.lines.len() ==> line_from(m, s, st.codes, ids, n, #[trigger] st.lines[k])
    &&& forall|h: int|
        0 <= h < n && bus_at_of(m, s, #[trigger] ids[h], 0) is Some && bus_at_of(m, s, ids[h], 1)
            is Some ==> line_in(m, s, st.codes, st.lines, ids[h])
}

proof fn lemma_more_codes(
    m: Sem,
    s: StoreV,
    a: Seq<DistLineCodeV>,
    b: Seq<DistLineCodeV>,
    id: Seq<char>,
    e: DistLineV,
)
    requires
        a.len() <= b.len(),
        forall|i: int| 0 <= i < a.len() ==> a[i] == #[trigger] b[i],
        line_of(m, s, a, id, e),
    ensures
        line_of(m, s, b, id, e),
{
    reveal(has_code);
    let c = choose|c: int|
        0 <= c < a.len() && (#[trigger] a[c]).name == e.linecode && is_code(m, s, id, a[c]);
    assert(b[c].name == e.linecode);
}

/// Codes only grow.
spec fn grows(a: Seq<DistLineCodeV>, b: Seq<DistLineCodeV>) -> bool {
    a.len() <= b.len() && forall|i: int| 0 <= i < a.len() ==> a[i] == #[trigger] b[i]
}

/// The code of a segment is there once its impedance is resolved.
proof fn lemma_code_for(m: Sem, s: StoreV, st: LinesV, id: Seq<char>, nphase: nat, e: DistLineV)
    requires
        1 <= nphase <= usize::MAX,
        forall|k: int| 0 <= k < st.seen.len() ==> #[trigger] seen_coded(m, s, st, k),
        e.linecode == linecode_for_of(m, s, st, id, nphase, length_at(m, s, id)).1,
    ensures
        ({
            let after = linecode_for_of(m, s, st, id, nphase, length_at(m, s, id)).0;
            &&& grows(st.codes, after.codes)
            &&& after.lines == st.lines
            &&& has_code(m, s, after.codes, id, e)
            &&& forall|k: int| 0 <= k < after.seen.len() ==> #[trigger] seen_coded(m, s, after, k)
        }),
{
    let after = linecode_for_of(m, s, st, id, nphase, length_at(m, s, id)).0;
    let own = own_code(m, s, id, nphase, length_at(m, s, id));
    let last = st.codes.len() as int;
    lemma_code_kinds(m, s, id);
    lemma_own(m, s, id, nphase);
    reveal(has_code);
    if let Some(pli) = s.refv(id, "ACLineSegment.PerLengthImpedance"@) {
        lemma_impedance(m, s, pli, nphase);
        if let Some(name) = seen_from(st.seen, pli, 0) {
            let k = lemma_seen(st.seen, pli, 0);
            assert(seen_coded(m, s, st, k));
            reveal(seen_coded);
            let c = choose|c: int|
                0 <= c < st.codes.len() && (#[trigger] st.codes[c]).name == st.seen[k].1
                    && is_impedance_code(m, s, st.seen[k].0, st.codes[c]);
            assert(after.codes[c].name == e.linecode);
            assert(is_code(m, s, id, after.codes[c]));
        } else {
            assert(after.codes[last].name == e.linecode);
            assert(is_code(m, s, id, after.codes[last]));
        }
    } else {
        assert(after.codes[last] == own);
        assert(is_code(m, s, id, after.codes[last]));
    }
    assert forall|k: int| 0 <= k < after.seen.len() implies #[trigger] seen_coded(
        m,
        s,
        after,
        k,
    ) by {
        reveal(seen_coded);
        if k < st.seen.len() {
            assert(after.seen[k] == st.seen[k]);
            assert(seen_coded(m, s, st, k));
            let c = choose|c: int|
                0 <= c < st.codes.len() && (#[trigger] st.codes[c]).name == st.seen[k].1
                    && is_impedance_code(m, s, st.seen[k].0, st.codes[c]);
            assert(after.codes[c].name == after.seen[k].1);
        } else {
            assert(after.codes[last].name == after.seen[k].1);
        }
    }
}

proof fn lemma_line(m: Sem, s: StoreV, st: LinesV, ids: Seq<Seq<char>>, n: nat)
    requires
        n < ids.len(),
        lines_ok(m, s, st, ids, n),
        bus_at_of(m, s, ids[n as int], 0) is Some,
        bus_at_of(m, s, ids[n as int], 1) is Some,
        terminal_map_of(
            m,
            s,
            ids[n as int],
            "ACLineSegmentPhase"@,
            "ACLineSegmentPhase.ACLineSegment"@,
        ).len() <= usize::MAX,
    ensures
        lines_ok(m, s, line_step(m, s, st, ids[n as int]), ids, n + 1),
{
    let id = ids[n as int];
    let after = line_step(m, s, st, id);
    let map = terminal_map_of(
        m,
        s,
        id,
        "ACLineSegmentPhase"@,
        "ACLineSegmentPhase.ACLineSegment"@,
    );
    let nphase = max3(map.len(), 1, 1);
    let e = after.lines.last();
    let given = s.number(m, id, "Conductor.length"@);
    let measured = if given is Some && num_lt(ZERO, given->0) {
        st
    } else {
        LinesV {
            warnings: st.warnings.push(
                "ACLineSegment "@ + s.name(id) + ": no positive length; using 1 m"@,
            ),
            ..st
        }
    };
    assert forall|k: int| 0 <= k < measured.seen.len() implies #[trigger] seen_coded(
        m,
        s,
        measured,
        k,
    ) by {
        assert(seen_coded(m, s, st, k));
        reveal(seen_coded);
    }
    lemma_code_for(m, s, measured, id, nphase, e);
    let coded = linecode_for_of(m, s, measured, id, nphase, length_at(m, s, id)).0;
    assert(after.codes == coded.codes && after.seen == coded.seen);
    assert(after.lines == st.lines.push(e));
    assert(is_line(m, s, id, e)) by {
        reveal(is_line);
    }
    assert(line_of(m, s, after.codes, id, e));
    assert forall|k: int| 0 <= k < after.seen.len() implies #[trigger] seen_coded(
        m,
        s,
        after,
        k,
    ) by {
        assert(seen_coded(m, s, coded, k));
        reveal(seen_coded);
    }
    assert forall|k: int| 0 <= k < after.lines.len() implies line_from(
        m,
        s,
        after.codes,
        ids,
        n + 1,
        #[trigger] after.lines[k],
    ) by {
        reveal(line_from);
        if k < st.lines.len() {
            assert(line_from(m, s, st.codes, ids, n, st.lines[k]));
            let h = choose|h: int|
                0 <= h < n && line_of(m, s, st.codes, #[trigger] ids[h], st.lines[k]);
            lemma_more_codes(m, s, st.codes, after.codes, ids[h], st.lines[k]);
        } else {
            assert(line_of(m, s, after.codes, ids[n as int], after.lines[k]));
        }
    }
    assert forall|h: int|
        0 <= h < n + 1 && bus_at_of(m, s, #[trigger] ids[h], 0) is Some && bus_at_of(m, s, ids[h], 1)
            is Some implies line_in(m, s, after.codes, after.lines, ids[h]) by {
        if h < n {
            assert(line_in(m, s, st.codes, st.lines, ids[h]));
            reveal(line_in);
            let k = choose|k: int|
                0 <= k < st.lines.len() && line_of(m, s, st.codes, ids[h], #[trigger] st.lines[k]);
            lemma_more_codes(m, s, st.codes, after.codes, ids[h], st.lines[k]);
            assert(after.lines[k] == st.lines[k]);
        } else {
            reveal(line_in);
            assert(after.lines[st.lines.len() as int] == e);
        }
    }
}

/// Which code is that of a segment.
proof fn lemma_code_kinds(m: Sem, s: StoreV, id: Seq<char>)
    ensures
        forall|c: DistLineCodeV|
            match s.refv(id, "ACLineSegment.PerLengthImpedance"@) {
                Some(pli) => if s.class_of(pli) == Some("PerLengthPhaseImpedance"@) || s.class_of(
                    pli,
                ) == Some("PerLengthSequenceImpedance"@) {
                    is_impedance_code(m, s, pli, c)
                } else {
                    is_own_code(m, s, id, c)
                },
                None => is_own_code(m, s, id, c),
            } ==> #[trigger] is_code(m, s, id, c),
        forall|pli: Seq<char>, c: DistLineCodeV|
            #[trigger] is_impedance_code(m, s, pli, c) ==> s.class_of(pli) == Some(
                "PerLengthPhaseImpedance"@,
            ) || s.class_of(pli) == Some("PerLengthSequenceImpedance"@),
{
    reveal(is_code);
    reveal(is_impedance_code);
}

/// The terminal map of each segment can be counted.
pub open spec fn countable(m: Sem, s: StoreV) -> bool {
    forall|id: Seq<char>|
        (#[trigger] terminal_map_of(
            m,
            s,
            id,
            "ACLineSegmentPhase"@,
            "ACLineSegmentPhase.ACLineSegment"@,
        )).len() <= usize::MAX
}

proof fn lemma_lines(m: Sem, s: StoreV, ids: Seq<Seq<char>>, n: nat)
    requires
        n <= ids.len(),
        countable(m, s),
    ensures
        lines_ok(m, s, lines_n(m, s, ids, n), ids, n),
    decreases n,
{
    if n > 0 {
        lemma_lines(m, s, ids, (n - 1) as nat);
        let st = lines_n(m, s, ids, (n - 1) as nat);
        let id = ids[n - 1];
        let k = (n - 1) as nat;
        if bus_at_of(m, s, id, 0) is Some && bus_at_of(m, s, id, 1) is Some {
            lemma_line(m, s, st, ids, k);
        } else {
            let after = lines_n(m, s, ids, n);
            assert(after.codes == st.codes && after.lines == st.lines && after.seen == st.seen);
            assert forall|k: int| 0 <= k < after.seen.len() implies #[trigger] seen_coded(
                m,
                s,
                after,
                k,
            ) by {
                assert(seen_coded(m, s, st, k));
                reveal(seen_coded);
            }
            assert forall|k: int| 0 <= k < after.lines.len() implies line_from(
                m,
                s,
                after.codes,
                ids,
                n,
                #[trigger] after.lines[k],
            ) by {
                assert(line_from(m, s, st.codes, ids, (n - 1) as nat, st.lines[k]));
                reveal(line_from);
            }
        }
    }
}

// ---- elements at a bus -----------------------------------------------------

/// A number of each phase object of an equipment.
pub open spec fn are_values(
    m: Sem,
    s: StoreV,
    children: Seq<(Seq<char>, Seq<char>)>,
    key: Seq<char>,
    v: Seq<Bits>,
) -> bool {
    v.len() == children.len() && forall|i: int|
        0 <= i < v.len() ==> #[trigger] v[i] == s.number_or(m, children[i].1, key, ZERO)
}

/// Equal shares of a number of an equipment among its wires.
pub open spec fn are_shares(
    m: Sem,
    s: StoreV,
    id: Seq<char>,
    key: Seq<char>,
    n: nat,
    v: Seq<Bits>,
) -> bool {
    v.len() == n && forall|i: int|
        0 <= i < v.len() ==> #[trigger] v[i] == m.over(
            s.number_or(m, id, key, ZERO),
            m.from_int(n as u64),
        )
}

/// A load of a consumer: of its own power in equal shares, or of the powers of
/// its phases.
#[verifier::opaque]
pub open spec fn is_load(m: Sem, s: StoreV, id: Seq<char>, e: DistLoadV) -> bool {
    let parent = "EnergyConsumerPhase.EnergyConsumer"@;
    let children = children_of(s, "EnergyConsumerPhase"@, parent, id);
    let map = terminal_map_of(m, s, id, "EnergyConsumerPhase"@, parent);
    let kind = s.enum_value(id, "EnergyConsumer.phaseConnection"@);
    &&& e.name == s.name(id)
    &&& bus_at_of(m, s, id, 0) == Some(e.bus)
    &&& (e.configuration == Configuration::Delta) == (kind == Some("D"@))
    &&& (e.configuration == Configuration::SinglePhase) == (kind == Some("I"@))
    &&& forall|t: Seq<char>| map.contains(t) ==> #[trigger] e.terminal_map.contains(t)
    &&& e.configuration != Configuration::Delta ==> e.terminal_map.contains("4"@)
    &&& if children.len() == 0 {
        &&& are_shares(m, s, id, "EnergyConsumer.p"@, map.len(), e.p_nom)
        &&& are_shares(m, s, id, "EnergyConsumer.q"@, map.len(), e.q_nom)
    } else {
        &&& are_values(m, s, children, "EnergyConsumerPhase.p"@, e.p_nom)
        &&& are_values(m, s, children, "EnergyConsumerPhase.q"@, e.q_nom)
    }
}

/// A diagonal matrix.
pub open spec fn is_diagonal(a: MatV) -> bool {
    &&& is_square(a, a.len())
    &&& forall|i: int, j: int|
        0 <= i < a.len() && 0 <= j < a.len() && i != j ==> #[trigger] a[i][j] == ZERO
}

/// A shunt of a compensator: its conductance and its susceptance per section on
/// each wire, or those of its phases.
#[verifier::opaque]
pub open spec fn is_shunt(m: Sem, s: StoreV, id: Seq<char>, e: DistShuntV) -> bool {
    let parent = "ShuntCompensatorPhase.ShuntCompensator"@;
    let children = children_of(s, "ShuntCompensatorPhase"@, parent, id);
    let map = terminal_map_of(m, s, id, "ShuntCompensatorPhase"@, parent);
    &&& e.name == s.name(id)
    &&& bus_at_of(m, s, id, 0) == Some(e.bus)
    &&& e.terminal_map == map
    &&& is_diagonal(e.g)
    &&& is_diagonal(e.b)
    &&& e.g.len() == map.len()
    &&& e.b.len() == map.len()
    &&& forall|i: int|
        0 <= i < map.len() ==> #[trigger] e.g[i][i] == if children.len() == 0 {
            s.number_or(m, id, "LinearShuntCompensator.gPerSection"@, ZERO)
        } else {
            s.number_or(m, children[i].1, "ShuntCompensatorPhase.gPerSection"@, ZERO)
        }
    &&& forall|i: int|
        0 <= i < map.len() ==> #[trigger] e.b[i][i] == if children.len() == 0 {
            s.number_or(m, id, "LinearShuntCompensator.bPerSection"@, ZERO)
        } else {
            s.number_or(m, children[i].1, "ShuntCompensatorPhase.bPerSection"@, ZERO)
        }
}

/// A switch: open where its state says so, or else its normal state.
pub open spec fn is_switch(m: Sem, s: StoreV, id: Seq<char>, e: DistSwitchV) -> bool {
    &&& e.name == s.name(id)
    &&& bus_at_of(m, s, id, 0) == Some(e.bus_from)
    &&& bus_at_of(m, s, id, 1) == Some(e.bus_to)
    &&& e.terminal_map_from == terminal_map_of(m, s, id, "SwitchPhase"@, "SwitchPhase.Switch"@)
    &&& e.terminal_map_to == e.terminal_map_from
    &&& e.i_max is None
    &&& match (s.boolean(id, "Switch.open"@), s.boolean(id, "Switch.normalOpen"@)) {
        (Some(now), _) => e.open == now,
        (None, Some(normal)) => e.open == normal,
        (None, None) => !e.open,
    }
}

/// A source: its voltage from line to neutral, and its angles a third of a turn
/// behind one another.
#[verifier::opaque]
pub open spec fn is_source(m: Sem, s: StoreV, id: Seq<char>, e: VoltageSourceV) -> bool {
    let map = terminal_map_of(m, s, id, "EnergySourcePhase"@, "EnergySourcePhase.EnergySource"@);
    let v = match s.number(m, id, "EnergySource.voltageMagnitude"@) {
        Some(v) => v,
        None => s.number_or(m, id, "EnergySource.nominalVoltage"@, ZERO),
    };
    let angle = s.number_or(m, id, "EnergySource.voltageAngle"@, ZERO);
    &&& e.name == s.name(id)
    &&& bus_at_of(m, s, id, 0) == Some(e.bus)
    &&& forall|t: Seq<char>| map.contains(t) ==> #[trigger] e.terminal_map.contains(t)
    &&& e.terminal_map.contains("4"@)
    &&& e.v_magnitude.len() == map.len()
    &&& e.v_angle.len() == map.len()
    &&& forall|i: int|
        0 <= i < map.len() ==> #[trigger] e.v_magnitude[i] == if map.len() >= 2 {
            m.over(v, m.sqrt(THREE))
        } else {
            v
        }
    &&& forall|i: int|
        0 <= i < map.len() ==> #[trigger] e.v_angle[i] == m.minus(
            angle,
            m.over(m.times(m.times(m.from_int(i as u64), TWO), PI), THREE),
        )
}

// ---- transformers ----------------------------------------------------------

/// A winding of an end: at the node of its terminal, rated as the end says, delta
/// where its connection is `D`, and with its resistance in percent of its rated
/// volts squared over its rated power.
pub open spec fn is_winding(m: Sem, s: StoreV, end: Seq<char>, w: WindingV) -> bool {
    let u = s.number_or(m, end, "PowerTransformerEnd.ratedU"@, ZERO);
    let p = s.number_or(m, end, "PowerTransformerEnd.ratedS"@, ZERO);
    &&& s.refv(end, "TransformerEnd.Terminal"@) matches Some(term)
    &&& terminal_node_of(s, term) matches Some(cn)
    &&& w.bus == s.name(cn)
    &&& w.v_ref == u
    &&& w.s_rating == p
    &&& w.tap == ONE
    &&& (w.conn == WindingConn::Delta) == (s.enum_value(
        end,
        "PowerTransformerEnd.connectionKind"@,
    ) == Some("D"@))
    &&& w.conn == WindingConn::Wye ==> w.terminal_map.contains("4"@)
    &&& s.enum_value(term, "Terminal.phases"@) matches Some(code) ==> forall|t: Seq<char>|
        expand_of(code).contains(t) ==> #[trigger] w.terminal_map.contains(t)
    &&& w.r_pct == match s.number(m, end, "PowerTransformerEnd.r"@) {
        Some(r) => if num_lt(ZERO, u) && num_lt(ZERO, p) {
            m.times(m.over(r, m.over(m.times(u, u), p)), HUNDRED)
        } else {
            ZERO
        },
        None => ZERO,
    }
}

/// A mesh impedance joins two ends of a transformer and gives a reactance.
pub open spec fn is_mesh(
    m: Sem,
    s: StoreV,
    ends: Seq<(Bits, Seq<char>)>,
    mesh: Seq<char>,
    x: Bits,
) -> bool {
    &&& joins(s, mesh, ends)
    &&& s.number(m, mesh, "TransformerMeshImpedance.x"@) == Some(x)
}

/// The reactance of a transformer in ohms: that of the first mesh impedance
/// between its ends, or else the sum of those of its two ends.
pub open spec fn is_ohms(m: Sem, s: StoreV, ends: Seq<(Bits, Seq<char>)>, x: Bits) -> bool {
    let ids = s.of_class("TransformerMeshImpedance"@);
    ||| exists|k: int| first_mesh(m, s, ends, ids, k, x)
    ||| (forall|k: int, y: Bits|
        0 <= k < ids.len() ==> !#[trigger] is_mesh(m, s, ends, ids[k], y)) && x == m.plus(
        m.plus(ZERO, s.number_or(m, ends[0].1, "PowerTransformerEnd.x"@, ZERO)),
        s.number_or(m, ends[1].1, "PowerTransformerEnd.x"@, ZERO),
    )
}

pub open spec fn first_mesh(
    m: Sem,
    s: StoreV,
    ends: Seq<(Bits, Seq<char>)>,
    ids: Seq<Seq<char>>,
    k: int,
    x: Bits,
) -> bool {
    &&& 0 <= k < ids.len()
    &&& is_mesh(m, s, ends, ids[k], x)
    &&& forall|h: int, y: Bits| 0 <= h < k ==> !#[trigger] is_mesh(m, s, ends, ids[h], y)
}

/// A transformer: a winding for each of its two ends in their order, and its
/// reactance in percent of the impedance base of the first.
pub open spec fn is_transformer(m: Sem, s: StoreV, id: Seq<char>, e: DistTransformerV) -> bool {
    let ends = ends_of(m, s, id);
    let u = s.number_or(m, ends[0].1, "PowerTransformerEnd.ratedU"@, ZERO);
    let p = s.number_or(m, ends[0].1, "PowerTransformerEnd.ratedS"@, ZERO);
    &&& e.name == s.name(id)
    &&& ends.len() == 2
    &&& e.windings.len() == 2
    &&& is_winding(m, s, ends[0].1, e.windings[0])
    &&& is_winding(m, s, ends[1].1, e.windings[1])
    &&& e.xsc_pct.len() == 1
    &&& if num_lt(ZERO, u) && num_lt(ZERO, p) {
        exists|x: Bits| #[trigger]
            is_ohms(m, s, ends, x) && e.xsc_pct[0] == m.times(
                m.over(x, m.over(m.times(u, u), p)),
                HUNDRED,
            )
    } else {
        e.xsc_pct[0] == ZERO
    }
}

proof fn lemma_mesh(
    m: Sem,
    s: StoreV,
    ends: Seq<(Bits, Seq<char>)>,
    ids: Seq<Seq<char>>,
    i: int,
)
    requires
        0 <= i <= ids.len(),
        forall|h: int, y: Bits| 0 <= h < i ==> !#[trigger] is_mesh(m, s, ends, ids[h], y),
    ensures
        match mesh_from(m, s, ends, ids, i) {
            Some(x) => exists|k: int| first_mesh(m, s, ends, ids, k, x),
            None => forall|h: int, y: Bits|
                0 <= h < ids.len() ==> !#[trigger] is_mesh(m, s, ends, ids[h], y),
        },
    decreases ids.len() - i,
{
    if i < ids.len() {
        if joins(s, ids[i], ends) && s.number(m, ids[i], "TransformerMeshImpedance.x"@) is Some {
            let x = s.number(m, ids[i], "TransformerMeshImpedance.x"@)->0;
            assert(is_mesh(m, s, ends, ids[i], x));
            assert(first_mesh(m, s, ends, ids, i, x));
        } else {
            lemma_mesh(m, s, ends, ids, i + 1);
        }
    }
}

proof fn lemma_neutral_pushed()
    ensures
        forall|map: Seq<Seq<char>>| (#[trigger] map.push("4"@)).contains("4"@),
        forall|map: Seq<Seq<char>>, t: Seq<char>|
            map.contains(t) ==> #[trigger] map.push("4"@).contains(t),
{
    assert forall|map: Seq<Seq<char>>| (#[trigger] map.push("4"@)).contains("4"@) by {
        assert(map.push("4"@)[map.len() as int] == "4"@);
    }
    assert forall|map: Seq<Seq<char>>, t: Seq<char>| map.contains(t) implies #[trigger] map.push(
        "4"@,
    ).contains(t) by {
        let k = choose|k: int| 0 <= k < map.len() && map[k] == t;
        assert(map.push("4"@)[k] == t);
    }
}

#[verifier::rlimit(40)]
proof fn lemma_winding(m: Sem, s: StoreV, end: Seq<char>, phases: nat)
    ensures
        winding_at(m, s, end, phases) matches Some(w) ==> is_winding(m, s, end, w),
{
    lemma_neutral_pushed();
}

#[verifier::rlimit(40)]
proof fn lemma_transformer(m: Sem, s: StoreV, id: Seq<char>)
    ensures
        ({
            let ends = ends_of(m, s, id);
            let phases = phase_count_from(s, ends, 0);
            ends.len() == 2 ==> (windings_n(m, s, ends, phases, 2) matches Some(ws) ==> {
                &&& ws.len() == 2
                &&& is_winding(m, s, ends[0].1, ws[0])
                &&& is_winding(m, s, ends[1].1, ws[1])
            })
        }),
        ({
            let ends = ends_of(m, s, id);
            let u = s.number_or(m, ends[0].1, "PowerTransformerEnd.ratedU"@, ZERO);
            let p = s.number_or(m, ends[0].1, "PowerTransformerEnd.ratedS"@, ZERO);
            ends.len() == 2 ==> if num_lt(ZERO, u) && num_lt(ZERO, p) {
                exists|x: Bits| #[trigger]
                    is_ohms(m, s, ends, x) && reactance_of(m, s, ends) == m.times(
                        m.over(x, m.over(m.times(u, u), p)),
                        HUNDRED,
                    )
            } else {
                reactance_of(m, s, ends) == ZERO
            }
        }),
{
    let ends = ends_of(m, s, id);
    let phases = phase_count_from(s, ends, 0);
    reveal_with_fuel(windings_n, 3);
    reveal_with_fuel(end_x_sum, 3);
    if ends.len() == 2 {
        lemma_winding(m, s, ends[0].1, phases);
        lemma_winding(m, s, ends[1].1, phases);
        let ids = s.of_class("TransformerMeshImpedance"@);
        lemma_mesh(m, s, ends, ids, 0);
        let x = match mesh_from(m, s, ends, ids, 0) {
            Some(x) => x,
            None => end_x_sum(m, s, ends, ends.len()),
        };
        assert(is_ohms(m, s, ends, x));
    }
}

#[verifier::rlimit(40)]
proof fn lemma_load(m: Sem, s: StoreV, st: LoadsV, id: Seq<char>)
    ensures
        bus_at_of(m, s, id, 0) is None ==> load_step(m, s, st, id).loads == st.loads,
        bus_at_of(m, s, id, 0) is Some ==> {
            let r = load_step(m, s, st, id).loads;
            r.len() == st.loads.len() + 1 && r.drop_last() == st.loads && is_load(
                m,
                s,
                id,
                r.last(),
            )
        },
{
    if let Some(bus) = bus_at_of(m, s, id, 0) {
        let parent = "EnergyConsumerPhase.EnergyConsumer"@;
        let children = children_of(s, "EnergyConsumerPhase"@, parent, id);
        let map = terminal_map_of(m, s, id, "EnergyConsumerPhase"@, parent);
        let r = load_step(m, s, st, id).loads;
        let e = r.last();
        assert(r.drop_last() =~= st.loads);
        lemma_neutral_pushed();
        assert(children.len() > 0 ==> map == firsts(children)) by {
            reveal(terminal_map_of);
        }
        reveal_strlit("D");
        reveal_strlit("I");
        assert("D"@[0] == 'D' && "I"@[0] == 'I');
        reveal(is_load);
        if children.len() == 0 {
            assert(are_shares(m, s, id, "EnergyConsumer.p"@, map.len(), e.p_nom));
            assert(are_shares(m, s, id, "EnergyConsumer.q"@, map.len(), e.q_nom));
        } else {
            assert(are_values(m, s, children, "EnergyConsumerPhase.p"@, e.p_nom));
            assert(are_values(m, s, children, "EnergyConsumerPhase.q"@, e.q_nom));
        }
    }
}

/// A load is that of one of the first `n` objects.
#[verifier::opaque]
pub open spec fn load_from(m: Sem, s: StoreV, ids: Seq<Seq<char>>, n: nat, e: DistLoadV) -> bool {
    exists|h: int| 0 <= h < n && is_load(m, s, #[trigger] ids[h], e)
}

/// An object has its load.
#[verifier::opaque]
pub open spec fn load_in(m: Sem, s: StoreV, r: Seq<DistLoadV>, id: Seq<char>) -> bool {
    exists|k: int| 0 <= k < r.len() && is_load(m, s, id, #[trigger] r[k])
}

/// The loads are those of the first `n` objects that stand at a node.
pub open spec fn loads_ok(
    m: Sem,
    s: StoreV,
    r: Seq<DistLoadV>,
    ids: Seq<Seq<char>>,
    n: nat,
) -> bool {
    &&& forall|k: int| 0 <= k < r.len() ==> load_from(m, s, ids, n, #[trigger] r[k])
    &&& forall|h: int|
        0 <= h < n && bus_at_of(m, s, #[trigger] ids[h], 0) is Some ==> load_in(m, s, r, ids[h])
}

proof fn lemma_loads(m: Sem, s: StoreV, ids: Seq<Seq<char>>, w: Seq<Seq<char>>, n: nat)
    requires
        n <= ids.len(),
    ensures
        loads_ok(m, s, loads_n(m, s, ids, w, n).loads, ids, n),
    decreases n,
{
    if n > 0 {
        lemma_loads(m, s, ids, w, (n - 1) as nat);
        let p = loads_n(m, s, ids, w, (n - 1) as nat).loads;
        let r = loads_n(m, s, ids, w, n).loads;
        let id = ids[n - 1];
        let before = loads_n(m, s, ids, w, (n - 1) as nat);
        lemma_load(m, s, before, id);
        if bus_at_of(m, s, id, 0) is Some {
            assert(forall|k: int| 0 <= k < p.len() ==> r.drop_last()[k] == #[trigger] r[k]);
        }
        assert forall|k: int| 0 <= k < r.len() implies load_from(m, s, ids, n, #[trigger] r[k]) by {
            reveal(load_from);
            if k < p.len() {
                assert(r[k] == p[k]);
                assert(load_from(m, s, ids, (n - 1) as nat, p[k]));
            } else {
                assert(is_load(m, s, ids[n - 1], r[k]));
            }
        }
        assert forall|h: int| 0 <= h < n && bus_at_of(m, s, #[trigger] ids[h], 0) is Some implies load_in(
            m,
            s,
            r,
            ids[h],
        ) by {
            if h < n - 1 {
                assert(load_in(m, s, p, ids[h]));
                reveal(load_in);
                let k = choose|k: int| 0 <= k < p.len() && is_load(m, s, ids[h], #[trigger] p[k]);
                assert(r[k] == p[k]);
            } else {
                reveal(load_in);
                assert(is_load(m, s, ids[h], r[p.len() as int]));
            }
        }
    }
}

#[verifier::rlimit(40)]
proof fn lemma_shunt(m: Sem, s: StoreV, id: Seq<char>, bus: Seq<char>)
    requires
        bus_at_of(m, s, id, 0) == Some(bus),
    ensures
        is_shunt(m, s, id, shunt_of(m, s, id, bus)),
{
    let parent = "ShuntCompensatorPhase.ShuntCompensator"@;
    let children = children_of(s, "ShuntCompensatorPhase"@, parent, id);
    let map = terminal_map_of(m, s, id, "ShuntCompensatorPhase"@, parent);
    assert(children.len() > 0 ==> map == firsts(children)) by {
        reveal(terminal_map_of);
    }
    reveal(is_shunt);
}

/// A shunt is that of one of the first `n` objects.
#[verifier::opaque]
pub open spec fn shunt_from(m: Sem, s: StoreV, ids: Seq<Seq<char>>, n: nat, e: DistShuntV) -> bool {
    exists|h: int| 0 <= h < n && is_shunt(m, s, #[trigger] ids[h], e)
}

/// An object has its shunt.
#[verifier::opaque]
pub open spec fn shunt_in(m: Sem, s: StoreV, r: Seq<DistShuntV>, id: Seq<char>) -> bool {
    exists|k: int| 0 <= k < r.len() && is_shunt(m, s, id, #[trigger] r[k])
}

/// The shunts are those of the first `n` objects that stand at a node.
pub open spec fn shunts_ok(
    m: Sem,
    s: StoreV,
    r: Seq<DistShuntV>,
    ids: Seq<Seq<char>>,
    n: nat,
) -> bool {
    &&& forall|k: int| 0 <= k < r.len() ==> shunt_from(m, s, ids, n, #[trigger] r[k])
    &&& forall|h: int|
        0 <= h < n && bus_at_of(m, s, #[trigger] ids[h], 0) is Some ==> shunt_in(m, s, r, ids[h])
}

proof fn lemma_shunts(m: Sem, s: StoreV, ids: Seq<Seq<char>>, n: nat)
    requires
        n <= ids.len(),
    ensures
        shunts_ok(m, s, shunts_n(m, s, ids, n), ids, n),
    decreases n,
{
    if n > 0 {
        lemma_shunts(m, s, ids, (n - 1) as nat);
        let p = shunts_n(m, s, ids, (n - 1) as nat);
        let r = shunts_n(m, s, ids, n);
        let id = ids[n - 1];
        if let Some(bus) = bus_at_of(m, s, id, 0) {
            lemma_shunt(m, s, id, bus);
        }
        assert forall|k: int| 0 <= k < r.len() implies shunt_from(m, s, ids, n, #[trigger] r[k]) by {
            reveal(shunt_from);
            if k < p.len() {
                assert(r[k] == p[k]);
                assert(shunt_from(m, s, ids, (n - 1) as nat, p[k]));
            } else {
                assert(is_shunt(m, s, ids[n - 1], r[k]));
            }
        }
        assert forall|h: int| 0 <= h < n && bus_at_of(m, s, #[trigger] ids[h], 0) is Some implies shunt_in(
            m,
            s,
            r,
            ids[h],
        ) by {
            if h < n - 1 {
                assert(shunt_in(m, s, p, ids[h]));
                reveal(shunt_in);
                let k = choose|k: int| 0 <= k < p.len() && is_shunt(m, s, ids[h], #[trigger] p[k]);
                assert(r[k] == p[k]);
            } else {
                reveal(shunt_in);
                assert(is_shunt(m, s, ids[h], r[p.len() as int]));
            }
        }
    }
}

#[verifier::rlimit(40)]
proof fn lemma_source(m: Sem, s: StoreV, id: Seq<char>, bus: Seq<char>)
    requires
        bus_at_of(m, s, id, 0) == Some(bus),
    ensures
        is_source(m, s, id, source_of(m, s, id, bus)),
{
    lemma_neutral_pushed();
    reveal(is_source);
}

/// A source is that of one of the first `n` objects.
#[verifier::opaque]
pub open spec fn source_from(
    m: Sem,
    s: StoreV,
    ids: Seq<Seq<char>>,
    n: nat,
    e: VoltageSourceV,
) -> bool {
    exists|h: int| 0 <= h < n && is_source(m, s, #[trigger] ids[h], e)
}

/// An object has its source.
#[verifier::opaque]
pub open spec fn source_in(m: Sem, s: StoreV, r: Seq<VoltageSourceV>, id: Seq<char>) -> bool {
    exists|k: int| 0 <= k < r.len() && is_source(m, s, id, #[trigger] r[k])
}

/// The sources are those of the first `n` objects that stand at a node.
pub open spec fn sources_ok(
    m: Sem,
    s: StoreV,
    r: Seq<VoltageSourceV>,
    ids: Seq<Seq<char>>,
    n: nat,
) -> bool {
    &&& forall|k: int| 0 <= k < r.len() ==> source_from(m, s, ids, n, #[trigger] r[k])
    &&& forall|h: int|
        0 <= h < n && bus_at_of(m, s, #[trigger] ids[h], 0) is Some ==> source_in(m, s, r, ids[h])
}

proof fn lemma_sources(m: Sem, s: StoreV, ids: Seq<Seq<char>>, n: nat)
    requires
        n <= ids.len(),
    ensures
        sources_ok(m, s, sources_n(m, s, ids, n), ids, n),
    decreases n,
{
    if n > 0 {
        lemma_sources(m, s, ids, (n - 1) as nat);
        let p = sources_n(m, s, ids, (n - 1) as nat);
        let r = sources_n(m, s, ids, n);
        let id = ids[n - 1];
        if let Some(bus) = bus_at_of(m, s, id, 0) {
            lemma_source(m, s, id, bus);
        }
        assert forall|k: int| 0 <= k < r.len() implies source_from(m, s, ids, n, #[trigger] r[k]) by {
            reveal(source_from);
            if k < p.len() {
                assert(r[k] == p[k]);
                assert(source_from(m, s, ids, (n - 1) as nat, p[k]));
            } else {
                assert(is_source(m, s, ids[n - 1], r[k]));
            }
        }
        assert forall|h: int| 0 <= h < n && bus_at_of(m, s, #[trigger] ids[h], 0) is Some implies source_in(
            m,
            s,
            r,
            ids[h],
        ) by {
            if h < n - 1 {
                assert(source_in(m, s, p, ids[h]));
                reveal(source_in);
                let k = choose|k: int| 0 <= k < p.len() && is_source(m, s, ids[h], #[trigger] p[k]);
                assert(r[k] == p[k]);
            } else {
                reveal(source_in);
                assert(is_source(m, s, ids[h], r[p.len() as int]));
            }
        }
    }
}

// ---- networks --------------------------------------------------------------

/// Every element of a network has what the objects of its class say, and every
/// object that stands at nodes has its element.
pub open spec fn is_of_store(m: Sem, s: StoreV, net: DistNetworkV) -> bool {
    let lines = s.of_class("ACLineSegment"@);
    let loads = s.of_class("EnergyConsumer"@);
    let shunts = s.of_class("LinearShuntCompensator"@);
    let sources = s.of_class("EnergySource"@);
    let xfs = s.of_class("PowerTransformer"@);
    &&& forall|k: int|
        0 <= k < net.lines.len() ==> line_from(
            m,
            s,
            net.linecodes,
            lines,
            lines.len(),
            #[trigger] net.lines[k],
        )
    &&& forall|h: int|
        0 <= h < lines.len() && bus_at_of(m, s, #[trigger] lines[h], 0) is Some && bus_at_of(
            m,
            s,
            lines[h],
            1,
        ) is Some ==> line_in(m, s, net.linecodes, net.lines, lines[h])
    &&& loads_ok(m, s, net.loads, loads, loads.len())
    &&& shunts_ok(m, s, net.shunts, shunts, shunts.len())
    &&& sources_ok(m, s, net.sources, sources, sources.len())
    &&& forall|k: int|
        0 <= k < net.switches.len() ==> some_switch(m, s, 7, #[trigger] net.switches[k])
    &&& forall|k: int|
        0 <= k < net.transformers.len() ==> transformer_from(
            m,
            s,
            xfs,
            xfs.len(),
            #[trigger] net.transformers[k],
        )
    &&& s.of_class("BaseFrequency"@).len() == 0 ==> net.base_frequency == SIXTY
    &&& s.of_class("BaseFrequency"@).len() > 0 ==> net.base_frequency == s.number_or(
        m,
        s.of_class("BaseFrequency"@)[0],
        "BaseFrequency.frequency"@,
        SIXTY,
    )
}

/// A switch of one of the first `c` classes of switching equipment.
pub open spec fn some_switch(m: Sem, s: StoreV, c: nat, e: DistSwitchV) -> bool {
    exists|a: int, h: int|
        0 <= a < c && 0 <= h < s.of_class(switch_classes()[a]).len() && #[trigger] is_switch(
            m,
            s,
            s.of_class(switch_classes()[a])[h],
            e,
        )
}

proof fn lemma_switches_n(
    m: Sem,
    s: StoreV,
    before: Seq<DistSwitchV>,
    a: int,
    n: nat,
    c: nat,
)
    requires
        0 <= a < c,
        n <= s.of_class(switch_classes()[a]).len(),
        forall|k: int| 0 <= k < before.len() ==> some_switch(m, s, c, #[trigger] before[k]),
    ensures
        ({
            let r = switches_n(m, s, before, s.of_class(switch_classes()[a]), n);
            forall|k: int| 0 <= k < r.len() ==> some_switch(m, s, c, #[trigger] r[k])
        }),
    decreases n,
{
    if n > 0 {
        lemma_switches_n(m, s, before, a, (n - 1) as nat, c);
        let ids = s.of_class(switch_classes()[a]);
        let p = switches_n(m, s, before, ids, (n - 1) as nat);
        let r = switches_n(m, s, before, ids, n);
        assert forall|k: int| 0 <= k < r.len() implies some_switch(m, s, c, #[trigger] r[k]) by {
            if k < p.len() {
                assert(r[k] == p[k]);
            } else {
                assert(is_switch(m, s, ids[n - 1], r[k]));
            }
        }
    }
}

proof fn lemma_switches(m: Sem, s: StoreV, c: nat)
    ensures
        forall|k: int|
            0 <= k < switches_upto(m, s, c).len() ==> some_switch(
                m,
                s,
                c,
                #[trigger] switches_upto(m, s, c)[k],
            ),
    decreases c,
{
    if c > 0 {
        lemma_switches(m, s, (c - 1) as nat);
        let before = switches_upto(m, s, (c - 1) as nat);
        assert forall|k: int| 0 <= k < before.len() implies some_switch(
            m,
            s,
            c,
            #[trigger] before[k],
        ) by {
            let (a, h) = choose|a: int, h: int|
                0 <= a < c - 1 && 0 <= h < s.of_class(switch_classes()[a]).len()
                    && #[trigger] is_switch(
                    m,
                    s,
                    s.of_class(switch_classes()[a])[h],
                    before[k],
                );
            assert(is_switch(m, s, s.of_class(switch_classes()[a])[h], before[k]));
        }
        lemma_switches_n(m, s, before, c - 1, s.of_class(switch_classes()[c - 1]).len(), c);
    }
}

/// A transformer is that of one of the first `n` objects.
#[verifier::opaque]
pub open spec fn transformer_from(
    m: Sem,
    s: StoreV,
    ids: Seq<Seq<char>>,
    n: nat,
    e: DistTransformerV,
) -> bool {
    exists|h: int| 0 <= h < n && is_transformer(m, s, #[trigger] ids[h], e)
}

proof fn lemma_transformers(m: Sem, s: StoreV, ids: Seq<Seq<char>>, w: Seq<Seq<char>>, n: nat)
    requires
        n <= ids.len(),
    ensures
        ({
            let r = transformers_n(m, s, ids, w, n).transformers;
            forall|k: int|
                0 <= k < r.len() ==> transformer_from(m, s, ids, n, #[trigger] r[k])
        }),
    decreases n,
{
    if n > 0 {
        lemma_transformers(m, s, ids, w, (n - 1) as nat);
        let p = transformers_n(m, s, ids, w, (n - 1) as nat).transformers;
        let r = transformers_n(m, s, ids, w, n).transformers;
        lemma_transformer(m, s, ids[n - 1]);
        assert forall|k: int| 0 <= k < r.len() implies transformer_from(
            m,
            s,
            ids,
            n,
            #[trigger] r[k],
        ) by {
            reveal(transformer_from);
            if k < p.len() {
                assert(r[k] == p[k]);
                assert(transformer_from(m, s, ids, (n - 1) as nat, p[k]));
            } else {
                assert(is_transformer(m, s, ids[n - 1], r[k]));
            }
        }
    }
}

/// Every element of the network that documents describe has what the properties
/// of its objects say, and every object that stands at nodes has its element.
pub proof fn lemma_network_is_of_its_objects(
    m: Sem,
    docs: Seq<CimDocumentV>,
    hint: Option<Seq<char>>,
)
    requires
        countable(m, (StoreV { objects: merged_n(docs, docs.len()) })),
    ensures
        documents_of(m, docs, hint) matches Ok(net) ==> is_of_store(
            m,
            StoreV { objects: merged_n(docs, docs.len()) },
            net,
        ),
{
    let s = StoreV { objects: merged_n(docs, docs.len()) };
    reveal(network_of);
    let lines = s.of_class("ACLineSegment"@);
    let loads = s.of_class("EnergyConsumer"@);
    let shunts = s.of_class("LinearShuntCompensator"@);
    let sources = s.of_class("EnergySource"@);
    let xfs = s.of_class("PowerTransformer"@);
    let l = lines_of(m, s);
    lemma_lines(m, s, lines, lines.len());
    lemma_loads(m, s, loads, l.warnings, loads.len());
    lemma_shunts(m, s, shunts, shunts.len());
    lemma_sources(m, s, sources, sources.len());
    lemma_switches(m, s, 7);
    lemma_transformers(m, s, xfs, loads_of(m, s, l.warnings).warnings, xfs.len());
}

} // verus!
