//! What the lines and line codes of a network that is read have from the rows of
//! the lines, of their sections and of their types.

use vstd::prelude::*;

use crate::dgs::coded::{codes_stay, group_stays, lemma_gather_stays};
use crate::dgs::impedance::{
    accum_none, accumulated, added, counted_mat, grown, length_or_one, line_imp_of, linecode_of,
    per_metre, phase_values_of, type_asks, LineAccumV, LineImpV,
};
use crate::dgs::lines::{
    code_step, gather_n, gather_of, line_asks, line_consumed, line_step, lines_n, lines_of,
    placed_line, sections_n, GatheredV, LinesV,
};
use crate::dgs::matrix::matrix_of;
use crate::dgs::scan::{num_of, whole_of, DgsDocV, DgsRowV, DgsTableV};
use crate::dgs::state::{numbers_of, ReaderV};
use crate::dgs::topology::{resolve_of, two_of, ConnV};
use crate::dgs::values::{
    all_are, anchors, are_wires, goes_by, group_anchors, keeps_rest, lemma_numbers, lemma_rest,
    serves_two, told, SiteV,
};
use crate::math::{
    abs_of, num_le, num_lt, Bits, Sem, MICRO, NANO, ONE, TAU, THOUSAND, THREE, TWO, ZERO,
};
use crate::error::ErrorV;
use crate::matrix::{square, two_valued};
use crate::model::{DistLineCodeV, DistLineV, MatV};
use crate::order::{get_of, lemma_put, sorted};

verus! {

// ---- parts -----------------------------------------------------------------

/// A part of a line: the row that describes it, and its length in metres.
pub struct PartV {
    pub row: (DgsTableV, DgsRowV),
    pub length: Bits,
}

/// The sections of a line, by their indices.
pub open spec fn sections_of(m: Sem, doc: DgsDocV, line: Seq<char>) -> Seq<(Bits, usize)> {
    match doc.table("ElmLnesec"@) {
        Some(t) => sections_n(m, doc.decimal, t, line, t.rows.len()),
        None => seq![],
    }
}

/// The parts of a line: its sections where it has any, else the line itself.
pub open spec fn parts_of(m: Sem, doc: DgsDocV, e: (DgsTableV, DgsRowV)) -> Seq<PartV> {
    let order = sections_of(m, doc, e.0.id_of(e.1));
    if order.len() > 0 {
        let t = doc.table("ElmLnesec"@)->0;
        Seq::new(
            order.len(),
            |i: int|
                {
                    let row = (t, t.rows[order[i].1 as int]);
                    PartV { row, length: m.times(told(m, doc, row, "dline"@, ZERO), THOUSAND) }
                },
        )
    } else {
        seq![PartV { row: e, length: m.times(told(m, doc, e, "dline"@, ONE), THOUSAND) }]
    }
}

/// A position stands in an order of sections.
pub open spec fn is_listed(order: Seq<(Bits, usize)>, i: int) -> bool {
    exists|k: int| 0 <= k < order.len() && (#[trigger] order[k]).1 == i
}

/// The sections of a line are the rows that point to it, each once.
pub proof fn lemma_sections_are_all(m: Sem, d: char, t: DgsTableV, line: Seq<char>, n: nat)
    requires
        n <= t.rows.len() <= usize::MAX,
    ensures
        forall|i: int|
            0 <= i < n ==> (#[trigger] is_listed(sections_n(m, d, t, line, n), i) == (t.ptr(
                t.rows[i],
                "fold_id"@,
            ) == Some(line))),
        forall|k: int|
            0 <= k < sections_n(m, d, t, line, n).len() ==> (#[trigger] sections_n(m, d, t, line, n)[k]).1
                < n,
        forall|j: int, k: int|
            0 <= j < k < sections_n(m, d, t, line, n).len() ==> (#[trigger] sections_n(
                m,
                d,
                t,
                line,
                n,
            )[j]).1 != (#[trigger] sections_n(m, d, t, line, n)[k]).1,
    decreases n,
{
    if n > 0 {
        lemma_sections_are_all(m, d, t, line, (n - 1) as nat);
        let before = sections_n(m, d, t, line, (n - 1) as nat);
        let after = sections_n(m, d, t, line, n);
        let r = t.rows[n - 1];
        if t.ptr(r, "fold_id"@) == Some(line) {
            let key = crate::dgs::lines::index_of(m, d, t, r);
            let at = crate::dgs::lines::section_slot(before, key, before.len() as int);
            lemma_slot(before, key, before.len() as int);
            assert(after == before.insert(at, (key, (n - 1) as usize)));
            assert(after[at].1 == n - 1);
            assert forall|i: int| 0 <= i < n implies (#[trigger] is_listed(after, i) == (t.ptr(
                t.rows[i],
                "fold_id"@,
            ) == Some(line))) by {
                if i < n - 1 {
                    assert(is_listed(before, i) == (t.ptr(t.rows[i], "fold_id"@) == Some(line)));
                    if is_listed(before, i) {
                        let k = choose|k: int|
                            0 <= k < before.len() && (#[trigger] before[k]).1 == i;
                        if k < at {
                            assert(after[k].1 == i);
                        } else {
                            assert(after[k + 1].1 == i);
                        }
                    }
                    if is_listed(after, i) {
                        let k = choose|k: int| 0 <= k < after.len() && (#[trigger] after[k]).1 == i;
                        if k < at {
                            assert(before[k].1 == i);
                        } else if k > at {
                            assert(before[k - 1].1 == i);
                        }
                    }
                }
            }
        } else {
            assert forall|i: int| 0 <= i < n implies (#[trigger] is_listed(after, i) == (t.ptr(
                t.rows[i],
                "fold_id"@,
            ) == Some(line))) by {
                if i < n - 1 {
                    assert(is_listed(before, i) == (t.ptr(t.rows[i], "fold_id"@) == Some(line)));
                } else if is_listed(after, i) {
                    let k = choose|k: int| 0 <= k < after.len() && (#[trigger] after[k]).1 == i;
                    assert(before[k].1 < n - 1);
                }
            }
        }
    }
}

proof fn lemma_slot(s: Seq<(Bits, usize)>, key: Bits, j: int)
    requires
        0 <= j <= s.len(),
    ensures
        0 <= crate::dgs::lines::section_slot(s, key, j) <= j,
    decreases j,
{
    if 0 < j && num_lt(key, s[j - 1].0) {
        lemma_slot(s, key, j - 1);
    }
}

// ---- what a part gives -----------------------------------------------------

/// The first of two attributes of a row that gives a matrix.
pub open spec fn matrix_at(
    m: Sem,
    doc: DgsDocV,
    e: (DgsTableV, DgsRowV),
    a: Seq<char>,
    b: Seq<char>,
) -> Option<MatV> {
    match matrix_of(m, doc, e.0, e.1, a) {
        Some(x) => Some(x),
        None => matrix_of(m, doc, e.0, e.1, b),
    }
}

/// The type that a row points to.
pub open spec fn type_at(doc: DgsDocV, e: (DgsTableV, DgsRowV)) -> (DgsTableV, DgsRowV) {
    let typ = match e.0.ptr(e.1, "typ_id"@) {
        Some(p) => p,
        None => seq![],
    };
    resolve_of(doc, typ)->0
}

/// The row that gives the parameters of a part: its own where it has a resistance
/// matrix, else its type.
pub open spec fn source_of(m: Sem, doc: DgsDocV, p: PartV) -> (DgsTableV, DgsRowV) {
    if matrix_at(m, doc, p.row, "R_c1"@, "rmatrix"@) is Some {
        p.row
    } else {
        type_at(doc, p.row)
    }
}

/// How many conductors a part has: as its resistance matrix has rows, else as its
/// type says, one to three.
pub open spec fn conductors_of(m: Sem, doc: DgsDocV, p: PartV) -> int {
    let e = source_of(m, doc, p);
    match matrix_at(m, doc, e, "R_c1"@, "rmatrix"@) {
        Some(r) => r.len() as int,
        None => {
            let n = whole_of(m, told(m, doc, e, "nlnph"@, THREE));
            if n < 1 {
                1
            } else if n > 3 {
                3
            } else {
                n as int
            }
        },
    }
}

/// The value between two conductors of a positive- and a zero-sequence one:
/// `(z0 + 2 z1) / 3` for a conductor itself and `(z0 - z1) / 3` for two of three,
/// and the positive one without coupling for fewer.
pub open spec fn coupled(m: Sem, n: int, z1: Bits, z0: Bits, same: bool) -> Bits {
    if n < 3 {
        if same {
            z1
        } else {
            ZERO
        }
    } else if same {
        m.over(m.plus(z0, m.times(TWO, z1)), THREE)
    } else {
        m.over(m.minus(z0, z1), THREE)
    }
}

/// A type has zero-sequence data.
pub open spec fn has_zero(e: (DgsTableV, DgsRowV)) -> bool {
    ||| e.0.cell(e.1, "rline0"@) is Some
    ||| e.0.cell(e.1, "xline0"@) is Some
    ||| e.0.cell(e.1, "cline0"@) is Some
}

/// A quantity of a line.
pub enum Quantity {
    Resistance,
    Reactance,
    Conductance,
    Susceptance,
}

/// A quantity of a type per metre, of its column and that of its zero sequence.
pub open spec fn per_metre_of(
    m: Sem,
    doc: DgsDocV,
    e: (DgsTableV, DgsRowV),
    column: Seq<char>,
    zero: Seq<char>,
) -> (Bits, Bits) {
    let z1 = m.over(told(m, doc, e, column, ZERO), THOUSAND);
    (
        z1,
        if has_zero(e) {
            m.over(told(m, doc, e, zero, ZERO), THOUSAND)
        } else {
            z1
        },
    )
}

/// The susceptance per metre of a type, of its capacitances in microfarads per
/// kilometre.
pub open spec fn charging_of(
    m: Sem,
    doc: DgsDocV,
    f: Bits,
    e: (DgsTableV, DgsRowV),
) -> (Bits, Bits) {
    let w = m.times(TAU, f);
    let b1 = m.times(w, m.over(m.times(told(m, doc, e, "cline"@, ZERO), MICRO), THOUSAND));
    (
        b1,
        if has_zero(e) {
            m.times(w, m.over(m.times(told(m, doc, e, "cline0"@, ZERO), MICRO), THOUSAND))
        } else {
            b1
        },
    )
}

/// An entry of a matrix, or zero where there is none.
pub open spec fn entry(a: Option<MatV>, i: int, j: int) -> Bits {
    match a {
        Some(x) => x[i][j],
        None => ZERO,
    }
}

/// What a part adds to the quantity between two of its conductors over the whole
/// line. Parallel circuits divide what is in series and multiply what is to
/// ground, and half of the latter stands at each end.
pub open spec fn adds(
    m: Sem,
    doc: DgsDocV,
    f: Bits,
    circuits: Bits,
    p: PartV,
    q: Quantity,
    i: int,
    j: int,
) -> Option<Bits> {
    let e = source_of(m, doc, p);
    let n = conductors_of(m, doc, p);
    let explicit = matrix_at(m, doc, e, "R_c1"@, "rmatrix"@);
    let series = m.over(p.length, circuits);
    let shunt = m.over(m.times(p.length, circuits), TWO);
    if i >= n || j >= n {
        None
    } else if explicit is Some {
        Some(
            match q {
                Quantity::Resistance => m.over(entry(explicit, i, j), circuits),
                Quantity::Reactance => m.over(
                    entry(matrix_at(m, doc, e, "X_c1"@, "xmatrix"@), i, j),
                    circuits,
                ),
                Quantity::Conductance => m.over(
                    m.times(entry(matrix_of(m, doc, e.0, e.1, "G_c1"@), i, j), circuits),
                    TWO,
                ),
                Quantity::Susceptance => m.over(
                    m.times(entry(matrix_at(m, doc, e, "B_c1"@, "bmatrix"@), i, j), circuits),
                    TWO,
                ),
            },
        )
    } else {
        match q {
            Quantity::Resistance => {
                let z = per_metre_of(m, doc, e, "rline"@, "rline0"@);
                Some(m.times(coupled(m, n, z.0, z.1, i == j), series))
            },
            Quantity::Reactance => {
                let z = per_metre_of(m, doc, e, "xline"@, "xline0"@);
                Some(m.times(coupled(m, n, z.0, z.1, i == j), series))
            },
            Quantity::Conductance => None,
            Quantity::Susceptance => {
                let z = charging_of(m, doc, f, e);
                Some(m.times(coupled(m, n, z.0, z.1, i == j), shunt))
            },
        }
    }
}

/// The sum of what the first `n` parts add.
pub open spec fn total_n(
    m: Sem,
    doc: DgsDocV,
    f: Bits,
    circuits: Bits,
    parts: Seq<PartV>,
    q: Quantity,
    i: int,
    j: int,
    n: nat,
) -> Bits
    decreases n,
{
    if n == 0 {
        ZERO
    } else {
        let before = total_n(m, doc, f, circuits, parts, q, i, j, (n - 1) as nat);
        match adds(m, doc, f, circuits, parts[n - 1], q, i, j) {
            Some(d) => m.plus(before, d),
            None => before,
        }
    }
}

/// The lengths of the first `n` parts together.
pub open spec fn length_n(m: Sem, parts: Seq<PartV>, n: nat) -> Bits
    decreases n,
{
    if n == 0 {
        ZERO
    } else {
        m.plus(length_n(m, parts, (n - 1) as nat), parts[n - 1].length)
    }
}

/// The length of a line: that of its parts, or a metre where they have none.
pub open spec fn length_of(m: Sem, parts: Seq<PartV>) -> Bits {
    let sum = length_n(m, parts, parts.len());
    if num_lt(ZERO, sum) {
        sum
    } else {
        ONE
    }
}

/// The conductors of the widest of the first `n` parts.
pub open spec fn width_n(m: Sem, doc: DgsDocV, parts: Seq<PartV>, n: nat) -> int
    decreases n,
{
    if n == 0 {
        0
    } else {
        let before = width_n(m, doc, parts, (n - 1) as nat);
        let own = conductors_of(m, doc, parts[n - 1]);
        if own > before {
            own
        } else {
            before
        }
    }
}

/// The rating in amperes of the last part that has one.
pub open spec fn rating_n(m: Sem, doc: DgsDocV, parts: Seq<PartV>, n: nat) -> Option<Bits>
    decreases n,
{
    if n == 0 {
        None
    } else {
        let e = source_of(m, doc, parts[n - 1]);
        let ka = told(m, doc, e, "sline"@, ZERO);
        if matrix_at(m, doc, e, "R_c1"@, "rmatrix"@) is None && num_lt(ZERO, ka) {
            Some(m.times(ka, THOUSAND))
        } else {
            rating_n(m, doc, parts, (n - 1) as nat)
        }
    }
}

/// A part has only a geometry: neither it nor its type has a resistance matrix,
/// and the type is one of towers, of geometries or of cable systems.
pub open spec fn is_geometry(m: Sem, doc: DgsDocV, p: PartV) -> bool {
    let e = source_of(m, doc, p);
    &&& matrix_at(m, doc, e, "R_c1"@, "rmatrix"@) is None
    &&& e.0.class == "TypTow"@ || e.0.class == "TypGeo"@ || e.0.class == "TypCabsys"@
}

/// One of the first `n` parts has only a geometry.
pub open spec fn has_geometry_n(m: Sem, doc: DgsDocV, parts: Seq<PartV>, n: nat) -> bool
    decreases n,
{
    n > 0 && (is_geometry(m, doc, parts[n - 1]) || has_geometry_n(m, doc, parts, (n - 1) as nat))
}

/// A line is in service, and its parts have parameters, of no more conductors than
/// can be numbered.
pub open spec fn is_drawn(m: Sem, s: SiteV, e: (DgsTableV, DgsRowV)) -> bool {
    let parts = parts_of(m, s.case.doc, e);
    &&& serves_two(m, s, e)
    &&& !has_geometry_n(m, s.case.doc, parts, parts.len())
    &&& width_n(m, s.case.doc, parts, parts.len()) <= 255
}

/// The positions of the first `n` rows of lines that are drawn, in order.
pub open spec fn drawn_n(m: Sem, s: SiteV, t: DgsTableV, n: nat) -> Seq<int>
    decreases n,
{
    if n == 0 {
        seq![]
    } else if is_drawn(m, s, (t, t.rows[n - 1])) {
        drawn_n(m, s, t, (n - 1) as nat).push(n - 1)
    } else {
        drawn_n(m, s, t, (n - 1) as nat)
    }
}

/// The positions of the rows of lines that are drawn, in order.
pub open spec fn drawn(m: Sem, s: SiteV) -> Seq<int> {
    match s.case.doc.table("ElmLne"@) {
        Some(t) => drawn_n(m, s, t, t.rows.len()),
        None => seq![],
    }
}

// ---- line codes and lines --------------------------------------------------

/// How many circuits of a line are in parallel.
pub open spec fn circuits_of(m: Sem, doc: DgsDocV, e: (DgsTableV, DgsRowV)) -> Bits {
    m.max(told(m, doc, e, "nlnum"@, ONE), ONE)
}

/// The matrix of a quantity of a line per metre.
pub open spec fn is_quantity(
    m: Sem,
    doc: DgsDocV,
    f: Bits,
    e: (DgsTableV, DgsRowV),
    q: Quantity,
    n: int,
    a: MatV,
) -> bool {
    let parts = parts_of(m, doc, e);
    let c = circuits_of(m, doc, e);
    square(a, n as nat) && forall|i: int, j: int|
        0 <= i < n && 0 <= j < n ==> #[trigger] a[i][j] == m.over(
            total_n(m, doc, f, c, parts, q, i, j, parts.len()),
            length_of(m, parts),
        )
}

/// A line code of the row of a line: the totals of its parts per metre of its
/// length, with the same to ground at both ends, and the derated rating.
pub open spec fn is_line_code(
    m: Sem,
    doc: DgsDocV,
    f: Bits,
    e: (DgsTableV, DgsRowV),
    code: DistLineCodeV,
) -> bool {
    let parts = parts_of(m, doc, e);
    let width = width_n(m, doc, parts, parts.len());
    let n = if width < 1 {
        1
    } else {
        width
    };
    &&& code.n_conductors == n
    &&& is_quantity(m, doc, f, e, Quantity::Resistance, n, code.r_series)
    &&& is_quantity(m, doc, f, e, Quantity::Reactance, n, code.x_series)
    &&& is_quantity(m, doc, f, e, Quantity::Conductance, n, code.g_from)
    &&& is_quantity(m, doc, f, e, Quantity::Conductance, n, code.g_to)
    &&& is_quantity(m, doc, f, e, Quantity::Susceptance, n, code.b_from)
    &&& is_quantity(m, doc, f, e, Quantity::Susceptance, n, code.b_to)
    &&& match rating_n(m, doc, parts, parts.len()) {
        Some(amps) => code.i_max matches Some(v) && all_are(
            v,
            n as nat,
            m.times(amps, told(m, doc, e, "fline"@, ONE)),
        ),
        None => code.i_max is None,
    }
    &&& code.s_max is None
}

/// The two ends of a line code carry the same.
pub proof fn lemma_ends_are_alike(
    m: Sem,
    doc: DgsDocV,
    f: Bits,
    e: (DgsTableV, DgsRowV),
    code: DistLineCodeV,
)
    requires
        is_line_code(m, doc, f, e, code),
    ensures
        code.b_from == code.b_to,
        code.g_from == code.g_to,
{
    let n = code.n_conductors as nat;
    assert forall|i: int| 0 <= i < n implies code.b_from[i] == code.b_to[i] by {
        assert forall|j: int| 0 <= j < n implies code.b_from[i][j] == code.b_to[i][j] by {}
        assert(code.b_from[i] =~= code.b_to[i]);
    }
    assert(code.b_from =~= code.b_to);
    assert forall|i: int| 0 <= i < n implies code.g_from[i] == code.g_to[i] by {
        assert forall|j: int| 0 <= j < n implies code.g_from[i][j] == code.g_to[i][j] by {}
        assert(code.g_from[i] =~= code.g_to[i]);
    }
    assert(code.g_from =~= code.g_to);
}

/// The whole susceptance of a part between two of its conductors, both ends
/// together.
pub open spec fn whole_of_part(
    m: Sem,
    doc: DgsDocV,
    f: Bits,
    circuits: Bits,
    p: PartV,
    i: int,
    j: int,
) -> Bits {
    let e = source_of(m, doc, p);
    let n = conductors_of(m, doc, p);
    if matrix_at(m, doc, e, "R_c1"@, "rmatrix"@) is Some {
        m.times(entry(matrix_at(m, doc, e, "B_c1"@, "bmatrix"@), i, j), circuits)
    } else {
        let z = charging_of(m, doc, f, e);
        m.times(coupled(m, n, z.0, z.1, i == j), m.times(p.length, circuits))
    }
}

/// The whole susceptance of the first `n` parts.
pub open spec fn whole_n(
    m: Sem,
    doc: DgsDocV,
    f: Bits,
    circuits: Bits,
    parts: Seq<PartV>,
    i: int,
    j: int,
    n: nat,
) -> Bits
    decreases n,
{
    if n == 0 {
        ZERO
    } else {
        let before = whole_n(m, doc, f, circuits, parts, i, j, (n - 1) as nat);
        let own = conductors_of(m, doc, parts[n - 1]);
        if i < own && j < own {
            m.plus(before, whole_of_part(m, doc, f, circuits, parts[n - 1], i, j))
        } else {
            before
        }
    }
}

/// Sums and halves that lose nothing: the order of a sum does not matter, and a
/// half taken twice is the whole, of a product by its factor.
pub open spec fn lossless(m: Sem) -> bool {
    &&& m.plus(ZERO, ZERO) == ZERO
    &&& forall|a: Bits, b: Bits| #[trigger]
        m.plus(m.plus(a, b), m.plus(a, b)) == m.plus(m.plus(a, a), m.plus(b, b))
    &&& forall|a: Bits|
        m.plus(#[trigger] m.over(a, TWO), m.over(a, TWO)) == a
    &&& forall|a: Bits, b: Bits|
        #![trigger m.times(a, m.over(b, TWO))]
        m.plus(m.times(a, m.over(b, TWO)), m.times(a, m.over(b, TWO))) == m.times(a, b)
}

/// Where sums and halves lose nothing, the two ends of a line code together carry,
/// over the length of the line, the whole susceptance of the line's parts.
pub proof fn lemma_ends_carry_the_whole(
    m: Sem,
    doc: DgsDocV,
    f: Bits,
    e: (DgsTableV, DgsRowV),
    code: DistLineCodeV,
    i: int,
    j: int,
)
    requires
        lossless(m),
        is_line_code(m, doc, f, e, code),
        0 <= i < code.n_conductors,
        0 <= j < code.n_conductors,
    ensures
        ({
            let parts = parts_of(m, doc, e);
            let c = circuits_of(m, doc, e);
            exists|half: Bits|
                {
                    &&& code.b_from[i][j] == #[trigger] m.over(half, length_of(m, parts))
                    &&& code.b_to[i][j] == m.over(half, length_of(m, parts))
                    &&& m.plus(half, half) == whole_n(m, doc, f, c, parts, i, j, parts.len())
                }
        }),
{
    let parts = parts_of(m, doc, e);
    let c = circuits_of(m, doc, e);
    let half = total_n(m, doc, f, c, parts, Quantity::Susceptance, i, j, parts.len());
    lemma_halves(m, doc, f, c, parts, i, j, parts.len());
    assert(code.b_from[i][j] == m.over(half, length_of(m, parts)));
    assert(code.b_to[i][j] == m.over(half, length_of(m, parts)));
}

proof fn lemma_halves(
    m: Sem,
    doc: DgsDocV,
    f: Bits,
    c: Bits,
    parts: Seq<PartV>,
    i: int,
    j: int,
    n: nat,
)
    requires
        lossless(m),
        0 <= i,
        0 <= j,
    ensures
        ({
            let half = total_n(m, doc, f, c, parts, Quantity::Susceptance, i, j, n);
            m.plus(half, half) == whole_n(m, doc, f, c, parts, i, j, n)
        }),
    decreases n,
{
    if n > 0 {
        lemma_halves(m, doc, f, c, parts, i, j, (n - 1) as nat);
        let p = parts[n - 1];
        let before = total_n(m, doc, f, c, parts, Quantity::Susceptance, i, j, (n - 1) as nat);
        if let Some(d) = adds(m, doc, f, c, p, Quantity::Susceptance, i, j) {
            assert(m.plus(d, d) == whole_of_part(m, doc, f, c, p, i, j));
            assert(m.plus(m.plus(before, d), m.plus(before, d)) == m.plus(
                m.plus(before, before),
                m.plus(d, d),
            ));
        }
    }
}

// ---- sums ------------------------------------------------------------------

/// A matrix holds the totals of the first `n` parts.
spec fn holds(
    m: Sem,
    doc: DgsDocV,
    f: Bits,
    c: Bits,
    parts: Seq<PartV>,
    q: Quantity,
    n: nat,
    a: MatV,
) -> bool {
    let w = width_n(m, doc, parts, n);
    &&& square(a, w as nat)
    &&& forall|i: int, j: int|
        0 <= i < w && 0 <= j < w ==> #[trigger] a[i][j] == total_n(
            m,
            doc,
            f,
            c,
            parts,
            q,
            i,
            j,
            n,
        )
}

proof fn lemma_width(m: Sem, doc: DgsDocV, parts: Seq<PartV>, n: nat)
    ensures
        width_n(m, doc, parts, n) >= 0,
    decreases n,
{
    if n > 0 {
        lemma_width(m, doc, parts, (n - 1) as nat);
    }
}

proof fn lemma_beyond(
    m: Sem,
    doc: DgsDocV,
    f: Bits,
    c: Bits,
    parts: Seq<PartV>,
    q: Quantity,
    i: int,
    j: int,
    n: nat,
)
    requires
        i >= width_n(m, doc, parts, n) || j >= width_n(m, doc, parts, n),
    ensures
        total_n(m, doc, f, c, parts, q, i, j, n) == ZERO,
    decreases n,
{
    if n > 0 {
        lemma_beyond(m, doc, f, c, parts, q, i, j, (n - 1) as nat);
    }
}

/// What the first parts add up to.
spec fn sums(
    m: Sem,
    doc: DgsDocV,
    f: Bits,
    c: Bits,
    parts: Seq<PartV>,
    n: nat,
    acc: LineAccumV,
) -> bool {
    &&& acc.n == width_n(m, doc, parts, n)
    &&& holds(m, doc, f, c, parts, Quantity::Resistance, n, acc.r)
    &&& holds(m, doc, f, c, parts, Quantity::Reactance, n, acc.x)
    &&& holds(m, doc, f, c, parts, Quantity::Conductance, n, acc.g)
    &&& holds(m, doc, f, c, parts, Quantity::Susceptance, n, acc.b)
    &&& acc.length == length_n(m, parts, n)
    &&& acc.i_max == rating_n(m, doc, parts, n)
}

/// A matrix that a part adds.
spec fn is_added(
    m: Sem,
    doc: DgsDocV,
    f: Bits,
    c: Bits,
    p: PartV,
    q: Quantity,
    d: MatV,
) -> bool {
    &&& forall|i: int, j: int|
        0 <= i < d.len() && 0 <= j < d.len() ==> adds(m, doc, f, c, p, q, i, j) == Some(
            #[trigger] d[i][j],
        )
    &&& forall|i: int, j: int|
        0 <= i && 0 <= j && (i >= d.len() || j >= d.len()) ==> #[trigger] adds(
            m,
            doc,
            f,
            c,
            p,
            q,
            i,
            j,
        ) is None
}

proof fn lemma_added(
    m: Sem,
    doc: DgsDocV,
    f: Bits,
    c: Bits,
    parts: Seq<PartV>,
    q: Quantity,
    n: nat,
    a: MatV,
    d: MatV,
)
    requires
        n > 0,
        holds(m, doc, f, c, parts, q, (n - 1) as nat, a),
        is_added(m, doc, f, c, parts[n - 1], q, d),
    ensures
        holds(
            m,
            doc,
            f,
            c,
            parts,
            q,
            n,
            added(m, grown(a, width_n(m, doc, parts, n) as nat), d),
        ),
{
    let w = width_n(m, doc, parts, n);
    let v = width_n(m, doc, parts, (n - 1) as nat);
    lemma_width(m, doc, parts, n);
    lemma_width(m, doc, parts, (n - 1) as nat);
    let after = added(m, grown(a, w as nat), d);
    assert forall|i: int, j: int| 0 <= i < w && 0 <= j < w implies #[trigger] after[i][j]
        == total_n(m, doc, f, c, parts, q, i, j, n) by {
        if i >= v || j >= v {
            lemma_beyond(m, doc, f, c, parts, q, i, j, (n - 1) as nat);
            assert(grown(a, w as nat)[i][j] == ZERO);
        } else {
            assert(a[i][j] == total_n(m, doc, f, c, parts, q, i, j, (n - 1) as nat));
            assert(grown(a, w as nat)[i][j] == a[i][j]);
        }
        if i < d.len() && j < d.len() {
            assert(adds(m, doc, f, c, parts[n - 1], q, i, j) == Some(d[i][j]));
        } else {
            assert(adds(m, doc, f, c, parts[n - 1], q, i, j) is None);
        }
    }
}

/// What a part is said to give is what its row, or its type, says.
proof fn lemma_given(m: Sem, doc: DgsDocV, p: PartV, line: Seq<char>)
    ensures
        line_imp_of(m, doc, p.row.0, p.row.1, line) matches Ok(imp) ==> (imp is Geometry)
            == is_geometry(m, doc, p) && {
            let e = source_of(m, doc, p);
            match imp {
                LineImpV::Explicit { r, x, g, b, n } => {
                    &&& matrix_at(m, doc, e, "R_c1"@, "rmatrix"@) == Some(r)
                    &&& n == r.len() == conductors_of(m, doc, p)
                    &&& forall|i: int, j: int|
                        0 <= i < n && 0 <= j < n ==> #[trigger] x[i][j] == entry(
                            matrix_at(m, doc, e, "X_c1"@, "xmatrix"@),
                            i,
                            j,
                        )
                    &&& forall|i: int, j: int|
                        0 <= i < n && 0 <= j < n ==> #[trigger] g[i][j] == entry(
                            matrix_of(m, doc, e.0, e.1, "G_c1"@),
                            i,
                            j,
                        )
                    &&& forall|i: int, j: int|
                        0 <= i < n && 0 <= j < n ==> #[trigger] b[i][j] == entry(
                            matrix_at(m, doc, e, "B_c1"@, "bmatrix"@),
                            i,
                            j,
                        )
                },
                LineImpV::Sequence(s) => {
                    &&& matrix_at(m, doc, e, "R_c1"@, "rmatrix"@) is None
                    &&& s.nph == conductors_of(m, doc, p)
                    &&& s.r1 == told(m, doc, e, "rline"@, ZERO)
                    &&& s.x1 == told(m, doc, e, "xline"@, ZERO)
                    &&& s.c1 == told(m, doc, e, "cline"@, ZERO)
                    &&& s.r0 == told(m, doc, e, "rline0"@, ZERO)
                    &&& s.x0 == told(m, doc, e, "xline0"@, ZERO)
                    &&& s.c0 == told(m, doc, e, "cline0"@, ZERO)
                    &&& s.sline == told(m, doc, e, "sline"@, ZERO)
                    &&& s.has_zero == has_zero(e)
                },
                LineImpV::Geometry => true,
            }
        },
{
    reveal(line_imp_of);
    reveal_strlit("TypLne");
    reveal_strlit("TypTow");
    reveal_strlit("TypGeo");
    reveal_strlit("TypCabsys");
    assert("TypLne"@[3] == 'L' && "TypTow"@[3] == 'T' && "TypGeo"@[3] == 'G');
    assert("TypCabsys"@[3] == 'C');
    let own = p.row;
    let ty = type_at(doc, own);
    lemma_numbers(m, doc, ty, ty, type_asks(), type_asks().len());
    if let Ok(v) = numbers_of(m, doc.decimal, ty, ty, type_asks()) {
        assert(v[0] == told(m, doc, ty, "nlnph"@, THREE));
        assert(v[1] == told(m, doc, ty, "rline"@, ZERO));
        assert(v[2] == told(m, doc, ty, "xline"@, ZERO));
        assert(v[3] == told(m, doc, ty, "cline"@, ZERO));
        assert(v[4] == told(m, doc, ty, "rline0"@, ZERO));
        assert(v[5] == told(m, doc, ty, "xline0"@, ZERO));
        assert(v[6] == told(m, doc, ty, "cline0"@, ZERO));
        assert(v[7] == told(m, doc, ty, "sline"@, ZERO));
    }
}

#[verifier::rlimit(60)]
proof fn lemma_part(
    m: Sem,
    doc: DgsDocV,
    f: Bits,
    c: Bits,
    parts: Seq<PartV>,
    n: nat,
    acc: LineAccumV,
    line: Seq<char>,
    imp: LineImpV,
)
    requires
        n > 0,
        sums(m, doc, f, c, parts, (n - 1) as nat, acc),
        line_imp_of(m, doc, parts[n - 1].row.0, parts[n - 1].row.1, line) == Ok::<_, ErrorV>(imp),
        !(imp is Geometry),
    ensures
        sums(m, doc, f, c, parts, n, accumulated(m, acc, imp, parts[n - 1].length, c, f)),
{
    let p = parts[n - 1];
    lemma_given(m, doc, p, line);
    lemma_width(m, doc, parts, (n - 1) as nat);
    let len = p.length;
    match imp {
        LineImpV::Explicit { r, x, g, b, n: k } => {
            let dr = counted_mat(m, r, k, c, true);
            let dx = counted_mat(m, x, k, c, true);
            let dg = counted_mat(m, g, k, c, false);
            let db = counted_mat(m, b, k, c, false);
            assert(is_added(m, doc, f, c, p, Quantity::Resistance, dr));
            assert(is_added(m, doc, f, c, p, Quantity::Reactance, dx)) by {
                assert forall|i: int, j: int| 0 <= i < k && 0 <= j < k implies adds(
                    m,
                    doc,
                    f,
                    c,
                    p,
                    Quantity::Reactance,
                    i,
                    j,
                ) == Some(#[trigger] dx[i][j]) by {
                    assert(dx[i][j] == m.over(x[i][j], c));
                }
            }
            assert(is_added(m, doc, f, c, p, Quantity::Conductance, dg)) by {
                assert forall|i: int, j: int| 0 <= i < k && 0 <= j < k implies adds(
                    m,
                    doc,
                    f,
                    c,
                    p,
                    Quantity::Conductance,
                    i,
                    j,
                ) == Some(#[trigger] dg[i][j]) by {
                    assert(dg[i][j] == m.over(m.times(g[i][j], c), TWO));
                }
            }
            assert(is_added(m, doc, f, c, p, Quantity::Susceptance, db)) by {
                assert forall|i: int, j: int| 0 <= i < k && 0 <= j < k implies adds(
                    m,
                    doc,
                    f,
                    c,
                    p,
                    Quantity::Susceptance,
                    i,
                    j,
                ) == Some(#[trigger] db[i][j]) by {
                    assert(db[i][j] == m.over(m.times(b[i][j], c), TWO));
                }
            }
            lemma_added(m, doc, f, c, parts, Quantity::Resistance, n, acc.r, dr);
            lemma_added(m, doc, f, c, parts, Quantity::Reactance, n, acc.x, dx);
            lemma_added(m, doc, f, c, parts, Quantity::Conductance, n, acc.g, dg);
            lemma_added(m, doc, f, c, parts, Quantity::Susceptance, n, acc.b, db);
        },
        LineImpV::Sequence(s) => {
            let v = phase_values_of(m, s, f);
            let k = s.nph as nat;
            let series = m.over(len, c);
            let shunt = m.over(m.times(len, c), TWO);
            let dr = two_valued(k, m.times(v.rs, series), m.times(v.rm, series));
            let dx = two_valued(k, m.times(v.xs, series), m.times(v.xm, series));
            let dg: MatV = seq![];
            let db = two_valued(k, m.times(v.bs, shunt), m.times(v.bm, shunt));
            assert(is_added(m, doc, f, c, p, Quantity::Resistance, dr));
            assert(is_added(m, doc, f, c, p, Quantity::Reactance, dx));
            assert(is_added(m, doc, f, c, p, Quantity::Conductance, dg));
            assert(is_added(m, doc, f, c, p, Quantity::Susceptance, db));
            lemma_added(m, doc, f, c, parts, Quantity::Resistance, n, acc.r, dr);
            lemma_added(m, doc, f, c, parts, Quantity::Reactance, n, acc.x, dx);
            lemma_added(m, doc, f, c, parts, Quantity::Conductance, n, acc.g, dg);
            lemma_added(m, doc, f, c, parts, Quantity::Susceptance, n, acc.b, db);
        },
        LineImpV::Geometry => {},
    }
}

proof fn lemma_gather_n(
    m: Sem,
    doc: DgsDocV,
    t: DgsTableV,
    st: ReaderV,
    order: Seq<(Bits, usize)>,
    parts: Seq<PartV>,
    line: Seq<char>,
    c: Bits,
    f: Bits,
    n: nat,
)
    requires
        n <= order.len() == parts.len(),
        forall|i: int|
            0 <= i < order.len() ==> (#[trigger] parts[i]).row == (t, t.rows[order[i].1 as int]),
        forall|i: int|
            0 <= i < order.len() ==> (#[trigger] parts[i]).length == m.times(
                told(m, doc, parts[i].row, "dline"@, ZERO),
                THOUSAND,
            ),
    ensures
        gather_n(m, doc, t, st, order, line, c, f, n) matches Ok(g) ==> g.key is None && anchors(
            g.st,
        ) == anchors(st) && g.geometry == has_geometry_n(m, doc, parts, n) && (!g.geometry ==> sums(
            m,
            doc,
            f,
            c,
            parts,
            n,
            g.acc,
        )),
    decreases n,
{
    broadcast use group_anchors;

    if n > 0 {
        lemma_gather_n(m, doc, t, st, order, parts, line, c, f, (n - 1) as nat);
        if let Ok(g) = gather_n(m, doc, t, st, order, line, c, f, (n - 1) as nat) {
            let p = parts[n - 1];
            let r = t.rows[order[n - 1].1 as int];
            if !g.geometry {
                if let Ok(imp) = line_imp_of(m, doc, t, r, line) {
                    lemma_given(m, doc, p, line);
                    if !(imp is Geometry) {
                        lemma_part(m, doc, f, c, parts, n, g.acc, line, imp);
                    }
                }
                if let Ok(d) = num_of(m, doc.decimal, t, r, "dline"@, ZERO) {
                    assert(p.length == m.times(d, THOUSAND));
                }
            }
        }
    } else {
        assert(sums(m, doc, f, c, parts, 0, accum_none()));
    }
}

/// The type whose line code a line may share: one without sections or matrices,
/// of a single circuit that is not derated.
pub open spec fn plain_type(m: Sem, doc: DgsDocV, e: (DgsTableV, DgsRowV)) -> Option<Seq<char>> {
    let c = circuits_of(m, doc, e);
    let fline = told(m, doc, e, "fline"@, ONE);
    if sections_of(m, doc, e.0.id_of(e.1)).len() == 0 && matrix_at(
        m,
        doc,
        e,
        "R_c1"@,
        "rmatrix"@,
    ) is None && matrix_at(m, doc, type_at(doc, e), "R_c1"@, "rmatrix"@) is None && num_le(c, ONE)
        && num_lt(abs_of(m.minus(fline, ONE)), NANO) {
        e.0.ptr(e.1, "typ_id"@)
    } else {
        None
    }
}

proof fn lemma_gather(
    m: Sem,
    doc: DgsDocV,
    st: ReaderV,
    e: (DgsTableV, DgsRowV),
    f: Bits,
)
    ensures
        ({
            let c = circuits_of(m, doc, e);
            let fline = told(m, doc, e, "fline"@, ONE);
            let parts = parts_of(m, doc, e);
            gather_of(m, doc, st, e.0, e.1, c, fline, f) matches Ok(g) ==> anchors(g.st) == anchors(
                st,
            ) && g.geometry == has_geometry_n(m, doc, parts, parts.len()) && (!g.geometry ==> g.key
                == plain_type(m, doc, e) && sums(
                m,
                doc,
                f,
                c,
                parts,
                parts.len(),
                g.acc,
            ))
        }),
{
    broadcast use group_anchors;

    reveal(gather_of);
    let c = circuits_of(m, doc, e);
    let parts = parts_of(m, doc, e);
    let line = e.0.id_of(e.1);
    let order = sections_of(m, doc, line);
    if order.len() > 0 {
        let t = doc.table("ElmLnesec"@)->0;
        lemma_gather_n(m, doc, t, st, order, parts, line, c, f, order.len());
    } else {
        if let Ok(imp) = line_imp_of(m, doc, e.0, e.1, line) {
            assert(parts[0].row == e);
            lemma_given(m, doc, parts[0], line);
            assert(!has_geometry_n(m, doc, parts, 0));
            if !(imp is Geometry) {
                assert(sums(m, doc, f, c, parts, 0, accum_none()));
                lemma_part(m, doc, f, c, parts, 1, accum_none(), line, imp);
                if let Ok(d) = num_of(m, doc.decimal, e.0, e.1, "dline"@, ONE) {
                    assert(parts[0].length == m.times(d, THOUSAND));
                }
            }
        }
    }
}

/// The line code of the totals of a line.
proof fn lemma_linecode(
    m: Sem,
    doc: DgsDocV,
    f: Bits,
    e: (DgsTableV, DgsRowV),
    g: LineAccumV,
    name: Seq<char>,
)
    requires
        sums(m, doc, f, circuits_of(m, doc, e), parts_of(m, doc, e), parts_of(m, doc, e).len(), g),
        g.n <= 255,
    ensures
        is_line_code(
            m,
            doc,
            f,
            e,
            linecode_of(
                m,
                LineAccumV { length: length_or_one(g.length), ..g },
                name,
                told(m, doc, e, "fline"@, ONE),
            ),
        ),
{
    let acc = LineAccumV { length: length_or_one(g.length), ..g };
    let code = linecode_of(m, acc, name, told(m, doc, e, "fline"@, ONE));
    let parts = parts_of(m, doc, e);
    let width = width_n(m, doc, parts, parts.len());
    let n = if width < 1 {
        1
    } else {
        width
    };
    lemma_per_metre(m, doc, f, e, Quantity::Resistance, n, g.r);
    lemma_per_metre(m, doc, f, e, Quantity::Reactance, n, g.x);
    lemma_per_metre(m, doc, f, e, Quantity::Conductance, n, g.g);
    lemma_per_metre(m, doc, f, e, Quantity::Susceptance, n, g.b);
    assert(length_or_one(acc.length) == length_of(m, parts));
}

proof fn lemma_per_metre(
    m: Sem,
    doc: DgsDocV,
    f: Bits,
    e: (DgsTableV, DgsRowV),
    q: Quantity,
    n: int,
    a: MatV,
)
    requires
        holds(
            m,
            doc,
            f,
            circuits_of(m, doc, e),
            parts_of(m, doc, e),
            q,
            parts_of(m, doc, e).len(),
            a,
        ),
        n >= width_n(m, doc, parts_of(m, doc, e), parts_of(m, doc, e).len()),
    ensures
        is_quantity(
            m,
            doc,
            f,
            e,
            q,
            n,
            per_metre(m, grown(a, n as nat), length_of(m, parts_of(m, doc, e))),
        ),
{
    let parts = parts_of(m, doc, e);
    let c = circuits_of(m, doc, e);
    let w = width_n(m, doc, parts, parts.len());
    lemma_width(m, doc, parts, parts.len());
    let full = grown(a, n as nat);
    let len = length_of(m, parts);
    let out = per_metre(m, full, len);
    assert forall|i: int, j: int| 0 <= i < n && 0 <= j < n implies #[trigger] out[i][j] == m.over(
        total_n(m, doc, f, c, parts, q, i, j, parts.len()),
        len,
    ) by {
        assert(out[i][j] == m.over(full[i][j], len));
        if i >= w || j >= w {
            lemma_beyond(m, doc, f, c, parts, q, i, j, parts.len());
            assert(full[i][j] == ZERO);
        } else {
            assert(full[i][j] == a[i][j]);
            assert(a[i][j] == total_n(m, doc, f, c, parts, q, i, j, parts.len()));
        }
    }
}

// ---- the network -----------------------------------------------------------

/// A line code is that of the row of a line.
pub open spec fn code_at(m: Sem, s: SiteV, f: Bits, i: int, code: DistLineCodeV) -> bool {
    &&& s.case.doc.table("ElmLne"@) matches Some(t)
    &&& 0 <= i < t.rows.len()
    &&& is_line_code(m, s.case.doc, f, (t, t.rows[i]), code)
}

/// A line code is that of some row.
#[verifier::opaque]
pub open spec fn some_code(m: Sem, s: SiteV, f: Bits, code: DistLineCodeV) -> bool {
    exists|i: int| #[trigger] code_at(m, s, f, i, code)
}

/// A line of a row: between the buses of its ends, on all its conductors, as long
/// as its parts together; its line code is its own, or that of a line of the same
/// plain type.
pub open spec fn line_at(
    m: Sem,
    s: SiteV,
    f: Bits,
    codes: Seq<DistLineCodeV>,
    i: int,
    h: int,
    k: int,
    line: DistLineV,
) -> bool {
    let doc = s.case.doc;
    &&& doc.table("ElmLne"@) matches Some(t)
    &&& 0 <= i < t.rows.len()
    &&& two_of(s.case.conns, t.id_of(t.rows[i])) matches Some(ends)
    &&& {
        let e = (t, t.rows[i]);
        let parts = parts_of(m, doc, e);
        let width = width_n(m, doc, parts, parts.len());
        let n = if width < 1 {
            1
        } else {
            width
        };
        &&& goes_by(line.name, e)
        &&& keeps_rest(
            e,
            seq!["typ_id"@, "dline"@, "fline"@, "nlnum"@, "outserv"@, "pStoch"@],
            line.extras,
        )
        &&& line.bus_from == s.bus(ends.0)
        &&& line.bus_to == s.bus(ends.1)
        &&& are_wires(line.terminal_map_from, n as nat, false)
        &&& are_wires(line.terminal_map_to, n as nat, false)
        &&& line.length == length_of(m, parts)
        &&& 0 <= k < codes.len()
        &&& codes[k].name == line.linecode
        &&& code_at(m, s, f, h, codes[k])
        &&& h == i || (plain_type(m, doc, e) is Some && plain_type(m, doc, (t, t.rows[h]))
            == plain_type(m, doc, e))
    }
}

/// A line is that of a row, with some line code.
#[verifier::opaque]
pub open spec fn is_line_of(
    m: Sem,
    s: SiteV,
    f: Bits,
    codes: Seq<DistLineCodeV>,
    i: int,
    line: DistLineV,
) -> bool {
    exists|h: int, k: int| #[trigger] line_at(m, s, f, codes, i, h, k, line)
}

/// The lines are those of rows, in order.
pub open spec fn are_lines(
    m: Sem,
    s: SiteV,
    f: Bits,
    codes: Seq<DistLineCodeV>,
    rows: Seq<int>,
    lines: Seq<DistLineV>,
) -> bool {
    &&& lines.len() == rows.len()
    &&& forall|k: int|
        0 <= k < lines.len() ==> is_line_of(m, s, f, codes, rows[k], #[trigger] lines[k])
}

/// The line code that is kept for a type.
spec fn kept_at(
    m: Sem,
    s: SiteV,
    f: Bits,
    codes: Seq<DistLineCodeV>,
    key: Seq<char>,
    name: Seq<char>,
    h: int,
    k: int,
) -> bool {
    &&& 0 <= k < codes.len()
    &&& codes[k].name == name
    &&& code_at(m, s, f, h, codes[k])
    &&& plain_type(
        m,
        s.case.doc,
        (s.case.doc.table("ElmLne"@)->0, s.case.doc.table("ElmLne"@)->0.rows[h]),
    ) == Some(key)
}

#[verifier::opaque]
spec fn kept(
    m: Sem,
    s: SiteV,
    f: Bits,
    codes: Seq<DistLineCodeV>,
    key: Seq<char>,
    name: Seq<char>,
) -> bool {
    exists|h: int, k: int| #[trigger] kept_at(m, s, f, codes, key, name, h, k)
}

/// Lines and line codes so far are those of rows.
spec fn spans_ok(m: Sem, s: SiteV, f: Bits, rows: Seq<int>, l: LinesV) -> bool {
    &&& anchors(l.st) == s.buses
    &&& sorted(l.st.cache)
    &&& forall|i: int| 0 <= i < l.codes.len() ==> some_code(m, s, f, #[trigger] l.codes[i])
    &&& are_lines(m, s, f, l.codes, rows, l.lines)
    &&& forall|k: Seq<char>|
        (#[trigger] get_of(l.st.cache, k)) matches Some(n) ==> kept(m, s, f, l.codes, k, n)
}

/// One list of line codes begins with another.
spec fn begins(a: Seq<DistLineCodeV>, b: Seq<DistLineCodeV>) -> bool {
    a.len() <= b.len() && forall|i: int| 0 <= i < a.len() ==> #[trigger] b[i] == a[i]
}

proof fn lemma_kept_on(
    m: Sem,
    s: SiteV,
    f: Bits,
    a: Seq<DistLineCodeV>,
    b: Seq<DistLineCodeV>,
    key: Seq<char>,
    name: Seq<char>,
)
    requires
        begins(a, b),
        kept(m, s, f, a, key, name),
    ensures
        kept(m, s, f, b, key, name),
{
    reveal(kept);
    let (h, k) = choose|h: int, k: int| #[trigger] kept_at(m, s, f, a, key, name, h, k);
    assert(b[k] == a[k]);
    assert(kept_at(m, s, f, b, key, name, h, k));
}

proof fn lemma_line_on(
    m: Sem,
    s: SiteV,
    f: Bits,
    a: Seq<DistLineCodeV>,
    b: Seq<DistLineCodeV>,
    i: int,
    line: DistLineV,
)
    requires
        begins(a, b),
        is_line_of(m, s, f, a, i, line),
    ensures
        is_line_of(m, s, f, b, i, line),
{
    reveal(is_line_of);
    let (h, k) = choose|h: int, k: int| #[trigger] line_at(m, s, f, a, i, h, k, line);
    assert(b[k] == a[k]);
    assert(line_at(m, s, f, b, i, h, k, line));
}

/// The names of line codes and what is kept of them do not bear on the buses.
proof fn lemma_code_step(
    m: Sem,
    s: SiteV,
    f: Bits,
    rows: Seq<int>,
    l: LinesV,
    i: int,
    g: GatheredV,
)
    requires
        s.case.doc.table("ElmLne"@) matches Some(t) && 0 <= i < t.rows.len(),
        spans_ok(m, s, f, rows, l),
        anchors(g.st) == s.buses,
        codes_stay(l.st, g.st),
        g.acc.n <= 255,
        ({
            let t = s.case.doc.table("ElmLne"@)->0;
            let e = (t, t.rows[i]);
            let parts = parts_of(m, s.case.doc, e);
            &&& g.key == plain_type(m, s.case.doc, e)
            &&& sums(m, s.case.doc, f, circuits_of(m, s.case.doc, e), parts, parts.len(), g.acc)
        }),
    ensures
        ({
            let t = s.case.doc.table("ElmLne"@)->0;
            let e = (t, t.rows[i]);
            let acc = LineAccumV { length: length_or_one(g.acc.length), ..g.acc };
            let fline = told(m, s.case.doc, e, "fline"@, ONE);
            let (st, codes, name) = code_step(
                m,
                s.case.doc,
                g.st,
                l.codes,
                acc,
                g.key,
                t.id_of(t.rows[i]),
                fline,
            );
            &&& anchors(st) == s.buses
            &&& sorted(st.cache)
            &&& begins(l.codes, codes)
            &&& forall|k: int| 0 <= k < codes.len() ==> some_code(m, s, f, #[trigger] codes[k])
            &&& forall|k: Seq<char>|
                (#[trigger] get_of(st.cache, k)) matches Some(n) ==> kept(m, s, f, codes, k, n)
            &&& exists|h: int, k: int| #[trigger] coded_by(m, s, f, codes, i, name, h, k)
        }),
{
    broadcast use group_anchors;

    reveal(code_step);
    let doc = s.case.doc;
    let t = doc.table("ElmLne"@)->0;
    let e = (t, t.rows[i]);
    let acc = LineAccumV { length: length_or_one(g.acc.length), ..g.acc };
    let fline = told(m, doc, e, "fline"@, ONE);
    let (st, codes, name) = code_step(
        m,
        doc,
        g.st,
        l.codes,
        acc,
        g.key,
        t.id_of(t.rows[i]),
        fline,
    );
    assert(begins(l.codes, codes));
    if codes.len() == l.codes.len() {
        let key = g.key->0;
        assert(g.st.cached(key) == Some(name) && kept(m, s, f, codes, key, name)) by {
            reveal(ReaderV::cached);
            assert(get_of(l.st.cache, key) == Some(name));
        }
        assert(exists|h: int, k: int| #[trigger] coded_by(m, s, f, codes, i, name, h, k)) by {
            reveal(kept);
            let (h, k) = choose|h: int, k: int|
                #[trigger] kept_at(m, s, f, codes, key, name, h, k);
            assert(coded_by(m, s, f, codes, i, name, h, k));
        }
    } else {
        let last = codes.len() - 1;
        lemma_linecode(m, doc, f, e, g.acc, name);
        assert(code_at(m, s, f, i, codes[last]));
        assert(coded_by(m, s, f, codes, i, name, i, last));
        assert forall|k: int| 0 <= k < codes.len() implies some_code(
            m,
            s,
            f,
            #[trigger] codes[k],
        ) by {
            if k < last {
                assert(codes[k] == l.codes[k]);
            } else {
                reveal(some_code);
            }
        }
        reveal(ReaderV::remember);
        reveal(ReaderV::name_linecode);
        if let Some(key) = g.key {
            lemma_put(l.st.cache, key, name);
            assert(kept(m, s, f, codes, key, name)) by {
                reveal(kept);
                assert(kept_at(m, s, f, codes, key, name, i, last));
            }
        }
        assert forall|k: Seq<char>|
            (#[trigger] get_of(st.cache, k)) matches Some(n) implies kept(
            m,
            s,
            f,
            codes,
            k,
            get_of(st.cache, k)->0,
        ) by {
            if g.key != Some(k) {
                assert(get_of(l.st.cache, k) == get_of(st.cache, k));
                lemma_kept_on(m, s, f, l.codes, codes, k, get_of(st.cache, k)->0);
            }
        }
    }
}

/// The line code that a row goes by.
spec fn coded_by(
    m: Sem,
    s: SiteV,
    f: Bits,
    codes: Seq<DistLineCodeV>,
    i: int,
    name: Seq<char>,
    h: int,
    k: int,
) -> bool {
    let doc = s.case.doc;
    let t = doc.table("ElmLne"@)->0;
    let e = (t, t.rows[i]);
    &&& 0 <= k < codes.len()
    &&& codes[k].name == name
    &&& code_at(m, s, f, h, codes[k])
    &&& h == i || (plain_type(m, doc, e) is Some && plain_type(m, doc, (t, t.rows[h]))
        == plain_type(m, doc, e))
}

proof fn lemma_placed(
    m: Sem,
    s: SiteV,
    f: Bits,
    rows: Seq<int>,
    l: LinesV,
    i: int,
    ends: (ConnV, ConnV),
    g: GatheredV,
)
    requires
        s.case.doc.table("ElmLne"@) matches Some(t) && 0 <= i < t.rows.len() && two_of(
            s.case.conns,
            t.id_of(t.rows[i]),
        ) == Some(ends),
        spans_ok(m, s, f, rows, l),
        anchors(g.st) == s.buses,
        codes_stay(l.st, g.st),
        g.acc.n <= 255,
        ({
            let t = s.case.doc.table("ElmLne"@)->0;
            let e = (t, t.rows[i]);
            let parts = parts_of(m, s.case.doc, e);
            &&& g.key == plain_type(m, s.case.doc, e)
            &&& sums(m, s.case.doc, f, circuits_of(m, s.case.doc, e), parts, parts.len(), g.acc)
        }),
    ensures
        ({
            let t = s.case.doc.table("ElmLne"@)->0;
            let e = (t, t.rows[i]);
            spans_ok(
                m,
                s,
                f,
                rows.push(i),
                placed_line(
                    m,
                    s.case,
                    l,
                    t,
                    t.rows[i],
                    ends,
                    g,
                    told(m, s.case.doc, e, "fline"@, ONE),
                ),
            )
        }),
{
    broadcast use {group_anchors, group_stays};

    reveal(placed_line);
    lemma_code_step(m, s, f, rows, l, i, g);
    let doc = s.case.doc;
    let t = doc.table("ElmLne"@)->0;
    let e = (t, t.rows[i]);
    lemma_rest(e, line_consumed());
    let parts = parts_of(m, doc, e);
    lemma_width(m, doc, parts, parts.len());
    let fline = told(m, doc, e, "fline"@, ONE);
    let acc = LineAccumV { length: length_or_one(g.acc.length), ..g.acc };
    let (st, codes, name) = code_step(
        m,
        doc,
        g.st,
        l.codes,
        acc,
        g.key,
        t.id_of(t.rows[i]),
        fline,
    );
    let a = placed_line(m, s.case, l, t, t.rows[i], ends, g, fline);
    assert(a.codes == codes);
    assert(a.st.cache == st.cache) by {
        reveal(ReaderV::touch);
    }
    let (h, k) = choose|h: int, k: int| #[trigger] coded_by(m, s, f, codes, i, name, h, k);
    assert forall|j: int| 0 <= j < a.lines.len() implies is_line_of(
        m,
        s,
        f,
        a.codes,
        rows.push(i)[j],
        #[trigger] a.lines[j],
    ) by {
        if j < l.lines.len() {
            assert(a.lines[j] == l.lines[j]);
            lemma_line_on(m, s, f, l.codes, a.codes, rows[j], a.lines[j]);
        } else {
            assert(line_at(m, s, f, codes, i, h, k, a.lines[j]));
            reveal(is_line_of);
        }
    }
}

proof fn lemma_step(m: Sem, s: SiteV, f: Bits, rows: Seq<int>, l: LinesV, i: int)
    requires
        s.case.doc.table("ElmLne"@) matches Some(t) && 0 <= i < t.rows.len(),
        spans_ok(m, s, f, rows, l),
    ensures
        ({
            let t = s.case.doc.table("ElmLne"@)->0;
            line_step(m, s.case, f, l, t, t.rows[i]) matches Ok(a) ==> spans_ok(
                m,
                s,
                f,
                if is_drawn(m, s, (t, t.rows[i])) {
                    rows.push(i)
                } else {
                    rows
                },
                a,
            )
        }),
{
    broadcast use {group_anchors, group_stays};

    let doc = s.case.doc;
    let t = doc.table("ElmLne"@)->0;
    let e = (t, t.rows[i]);
    if let Some(ends) = two_of(s.case.conns, t.id_of(t.rows[i])) {
        lemma_numbers(m, doc, e, e, line_asks(), line_asks().len());
        if let Ok(v) = numbers_of(m, doc.decimal, e, e, line_asks()) {
            assert(v[0] == told(m, doc, e, "nlnum"@, ONE));
            assert(v[1] == told(m, doc, e, "fline"@, ONE));
            let c = circuits_of(m, doc, e);
            lemma_gather(m, doc, l.st, e, f);
            lemma_gather_stays(m, doc, l.st, t, t.rows[i], c, v[1], f);
            if let Ok(g) = gather_of(m, doc, l.st, t, t.rows[i], c, v[1], f) {
                if !g.geometry && g.acc.n <= 255 {
                    lemma_placed(m, s, f, rows, l, i, ends, g);
                }
            }
        }
    }
}

proof fn lemma_lines_n(m: Sem, s: SiteV, f: Bits, l: LinesV, t: DgsTableV, n: nat)
    requires
        s.case.doc.table("ElmLne"@) == Some(t),
        n <= t.rows.len(),
        spans_ok(m, s, f, seq![], l),
    ensures
        lines_n(m, s.case, f, l, t, n) matches Ok(a) ==> spans_ok(m, s, f, drawn_n(m, s, t, n), a),
    decreases n,
{
    if n > 0 {
        lemma_lines_n(m, s, f, l, t, (n - 1) as nat);
        if let Ok(b) = lines_n(m, s.case, f, l, t, (n - 1) as nat) {
            lemma_step(m, s, f, drawn_n(m, s, t, (n - 1) as nat), b, n - 1);
        }
    }
}

/// The lines of a document are those of its rows, and so is each line code.
pub proof fn lemma_lines(m: Sem, s: SiteV, f: Bits, st: ReaderV)
    requires
        anchors(st) == s.buses,
        st.cache.len() == 0,
    ensures
        lines_of(m, s.case, f, st) matches Ok(a) ==> {
            &&& anchors(a.st) == s.buses
            &&& are_lines(m, s, f, a.codes, drawn(m, s), a.lines)
            &&& forall|i: int| 0 <= i < a.codes.len() ==> some_code(m, s, f, #[trigger] a.codes[i])
        },
{
    reveal(lines_of);
    reveal(get_of);
    let l = LinesV { st, codes: seq![], lines: seq![] };
    assert(spans_ok(m, s, f, seq![], l));
    if let Some(t) = s.case.doc.table("ElmLne"@) {
        lemma_lines_n(m, s, f, l, t, t.rows.len());
    }
}

} // verus!
