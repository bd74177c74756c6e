//! What a matrix that is read has from the rows, or the columns, that list it.

use vstd::prelude::*;

use crate::dgs::matrix::{
    complete_of, coords_of, denormalized_of, entries_n, extent_n, group_n, idx_of, lower_only,
    matrix_entry, matrix_of, normalized_of, placed_n, rect, size_of_text, spots_n, upper_only,
    zeros_of,
};
use crate::dgs::scan::{cell_at, parse_num_of, DgsDocV, DgsRowV, DgsTableV};
use crate::math::{num_eq, Bits, Sem, ZERO};
use crate::matrix::square;
use crate::model::MatV;
use crate::text::{strip_prefix_of, trim_of};

verus! {

// ---- symmetry --------------------------------------------------------------

/// Some entry on one side of the diagonal is not zero.
pub open spec fn fills(a: MatV, n: nat, lower: bool) -> bool {
    exists|i: int, j: int|
        0 <= i < n && 0 <= j < n && (if lower {
            j < i
        } else {
            i < j
        }) && !num_eq(#[trigger] a[i][j], ZERO)
}

/// A matrix that is given as one triangle is completed to a symmetric one; any
/// other is as it is given.
pub open spec fn completes(b: MatV, a: MatV) -> bool {
    let n = b.len();
    if !square(b, n) || fills(b, n, true) == fills(b, n, false) {
        a == b
    } else {
        &&& square(a, n)
        &&& forall|i: int, j: int|
            0 <= i < n && 0 <= j < n ==> #[trigger] a[i][j] == if (i < j) == fills(b, n, true) && i
                != j {
                b[j][i]
            } else {
                b[i][j]
            }
    }
}

proof fn lemma_completes(b: MatV)
    ensures
        completes(b, complete_of(b)),
{
    let n = b.len();
    let a = complete_of(b);
    if square(b, n) {
        assert(fills(b, n, true) == !upper_only(b)) by {
            if !upper_only(b) {
                let (i, j) = choose|i: int, j: int|
                    0 <= j < i < b.len() && !num_eq(#[trigger] b[i][j], ZERO);
                assert(!num_eq(b[i][j], ZERO));
            }
        }
        assert(fills(b, n, false) == !lower_only(b)) by {
            if !lower_only(b) {
                let (i, j) = choose|i: int, j: int|
                    0 <= i < j < b.len() && !num_eq(#[trigger] b[i][j], ZERO);
                assert(!num_eq(b[i][j], ZERO));
            }
        }
    }
}

// ---- rows ------------------------------------------------------------------

/// A row gives an entry of a matrix.
pub open spec fn lists(
    m: Sem,
    doc: DgsDocV,
    t: DgsTableV,
    r: DgsRowV,
    id: Seq<char>,
    i: int,
    j: int,
) -> Option<Bits> {
    let column = match idx_of(t, r, "MatCol"@) {
        Some(c) => Some(c),
        None => idx_of(t, r, "MatColumn"@),
    };
    if t.id_of(r) == id && idx_of(t, r, "MatRow"@) == Some(i as usize) && column == Some(
        j as usize,
    ) {
        match t.cell(r, "Val"@) {
            Some(s) => parse_num_of(m, s, doc.decimal),
            None => None,
        }
    } else {
        None
    }
}

/// The entry of a matrix among the first `n` rows: that of the last which gives
/// it, else zero.
pub open spec fn listed_n(
    m: Sem,
    doc: DgsDocV,
    t: DgsTableV,
    id: Seq<char>,
    i: int,
    j: int,
    n: nat,
) -> Bits
    decreases n,
{
    if n == 0 {
        ZERO
    } else {
        match lists(m, doc, t, t.rows[n - 1], id, i, j) {
            Some(v) => v,
            None => listed_n(m, doc, t, id, i, j, (n - 1) as nat),
        }
    }
}

/// A matrix is the one that the rows of an identity list, completed.
pub open spec fn is_listed(m: Sem, doc: DgsDocV, id: Seq<char>, a: MatV) -> bool {
    &&& doc.table("Matrix"@) matches Some(t)
    &&& exists|b: MatV|
        {
            &&& #[trigger] completes(b, a)
            &&& square(b, b.len())
            &&& b.len() > 0
            &&& forall|i: int, j: int|
                0 <= i < b.len() && 0 <= j < b.len() ==> #[trigger] b[i][j] == listed_n(
                    m,
                    doc,
                    t,
                    trim_of(id),
                    i,
                    j,
                    t.rows.len(),
                )
        }
}

proof fn lemma_placed_same(
    a: MatV,
    p: Seq<(usize, usize, Bits)>,
    q: Seq<(usize, usize, Bits)>,
    n: nat,
)
    requires
        n <= p.len(),
        n <= q.len(),
        forall|k: int| 0 <= k < n ==> #[trigger] p[k] == q[k],
    ensures
        placed_n(a, p, n) == placed_n(a, q, n),
    decreases n,
{
    if n > 0 {
        lemma_placed_same(a, p, q, (n - 1) as nat);
        assert(p[n - 1] == q[n - 1]);
    }
}

/// One more entry in its place.
proof fn lemma_placed_push(
    rows: nat,
    cols: nat,
    list: Seq<(usize, usize, Bits)>,
    e: (usize, usize, Bits),
)
    requires
        rect(placed_n(zeros_of(rows, cols), list, list.len()), rows, cols),
    ensures
        ({
            let b = placed_n(zeros_of(rows, cols), list, list.len());
            let a = placed_n(zeros_of(rows, cols), list.push(e), list.len() + 1);
            &&& rect(a, rows, cols)
            &&& forall|i: int, j: int|
                0 <= i < rows && 0 <= j < cols ==> #[trigger] a[i][j] == if e.0 == i && e.1 == j {
                    e.2
                } else {
                    b[i][j]
                }
        }),
{
    let b = placed_n(zeros_of(rows, cols), list, list.len());
    let a = placed_n(zeros_of(rows, cols), list.push(e), list.len() + 1);
    lemma_placed_same(zeros_of(rows, cols), list.push(e), list, list.len());
    assert(list.push(e)[list.len() as int] == e);
    if e.0 < rows && e.1 < cols {
        assert(b[e.0 as int].len() == cols);
    }
}

proof fn lemma_listed_n(
    m: Sem,
    doc: DgsDocV,
    t: DgsTableV,
    id: Seq<char>,
    size: nat,
    n: nat,
)
    requires
        size <= usize::MAX,
    ensures
        ({
            let list = entries_n(m, doc.decimal, t, id, n);
            let a = placed_n(zeros_of(size, size), list, list.len());
            &&& rect(a, size, size)
            &&& forall|i: int, j: int|
                0 <= i < size && 0 <= j < size ==> #[trigger] a[i][j] == listed_n(
                    m,
                    doc,
                    t,
                    id,
                    i,
                    j,
                    n,
                )
        }),
    decreases n,
{
    if n > 0 {
        lemma_listed_n(m, doc, t, id, size, (n - 1) as nat);
        let before = entries_n(m, doc.decimal, t, id, (n - 1) as nat);
        let r = t.rows[n - 1];
        if let Some(e) = matrix_entry(m, doc.decimal, t, r) {
            if t.id_of(r) == id {
                lemma_placed_push(size, size, before, e);
            }
        }
    }
}

/// A matrix that a table lists has the entries that its rows give.
pub proof fn lemma_matrix_is_listed(m: Sem, doc: DgsDocV, id: Seq<char>)
    ensures
        normalized_of(m, doc, id) matches Some(a) ==> is_listed(m, doc, id, a),
{
    if let Some(a) = normalized_of(m, doc, id) {
        let list = crate::dgs::matrix::entries_of(m, doc, trim_of(id));
        let n = extent_n(list, list.len()) as nat;
        if let Some(t) = doc.table("Matrix"@) {
            lemma_listed_n(m, doc, t, trim_of(id), n, t.rows.len());
            let b = placed_n(zeros_of(n, n), list, list.len());
            lemma_completes(b);
            assert(completes(b, a));
        }
    }
}

// ---- columns ---------------------------------------------------------------

/// What a column of a group says behind its name.
pub open spec fn rest_of(columns: Seq<Seq<char>>, base: Seq<char>, k: int) -> Option<Seq<char>> {
    strip_prefix_of(columns[k], base + ":"@)
}

/// The size that the first `n` columns give, by the last that does.
pub open spec fn sized_n(
    columns: Seq<Seq<char>>,
    r: DgsRowV,
    base: Seq<char>,
    key: Seq<char>,
    n: nat,
) -> Option<usize>
    decreases n,
{
    if n == 0 {
        None
    } else if rest_of(columns, base, n - 1) == Some(key) && cell_at(r, n - 1) is Some {
        size_of_text(cell_at(r, n - 1)->0)
    } else {
        sized_n(columns, r, base, key, (n - 1) as nat)
    }
}

/// A column gives an entry: by its row and column, or by one number that counts
/// row by row.
pub open spec fn column_gives(
    m: Sem,
    decimal: char,
    columns: Seq<Seq<char>>,
    r: DgsRowV,
    base: Seq<char>,
    cols: usize,
    k: int,
    i: int,
    j: int,
) -> Option<Bits> {
    match (rest_of(columns, base, k), cell_at(r, k)) {
        (Some(rest), Some(raw)) => {
            let at = coords_of(rest);
            if rest != "SIZEROW"@ && rest != "SIZECOL"@ && ((at.len() == 2 && at[0] == i && at[1]
                == j) || (at.len() == 1 && cols > 0 && at[0] / cols == i && at[0] % cols == j)) {
                parse_num_of(m, raw, decimal)
            } else {
                None
            }
        },
        _ => None,
    }
}

/// The entry among the first `n` columns: that of the last which gives it, else
/// zero.
pub open spec fn across_n(
    m: Sem,
    decimal: char,
    columns: Seq<Seq<char>>,
    r: DgsRowV,
    base: Seq<char>,
    cols: usize,
    i: int,
    j: int,
    n: nat,
) -> Bits
    decreases n,
{
    if n == 0 {
        ZERO
    } else {
        match column_gives(m, decimal, columns, r, base, cols, n - 1, i, j) {
            Some(v) => v,
            None => across_n(m, decimal, columns, r, base, cols, i, j, (n - 1) as nat),
        }
    }
}

/// A matrix is the one that the columns of a row spell out, completed.
pub open spec fn is_across(
    m: Sem,
    decimal: char,
    t: DgsTableV,
    r: DgsRowV,
    base: Seq<char>,
    a: MatV,
) -> bool {
    let n = t.columns.len();
    &&& sized_n(t.columns, r, base, "SIZEROW"@, n) matches Some(rows)
    &&& {
        let cols = match sized_n(t.columns, r, base, "SIZECOL"@, n) {
            Some(c) => c,
            None => rows,
        };
        exists|b: MatV|
            {
                &&& #[trigger] completes(b, a)
                &&& rows > 0
                &&& rect(b, rows as nat, cols as nat)
                &&& forall|i: int, j: int|
                    0 <= i < rows && 0 <= j < cols ==> #[trigger] b[i][j] == across_n(
                        m,
                        decimal,
                        t.columns,
                        r,
                        base,
                        cols,
                        i,
                        j,
                        n,
                    )
            }
    }
}

proof fn lemma_sized_n(
    m: Sem,
    decimal: char,
    columns: Seq<Seq<char>>,
    r: DgsRowV,
    base: Seq<char>,
    n: nat,
)
    ensures
        group_n(m, decimal, columns, r, base, n).rows == sized_n(
            columns,
            r,
            base,
            "SIZEROW"@,
            n,
        ),
        group_n(m, decimal, columns, r, base, n).cols == sized_n(
            columns,
            r,
            base,
            "SIZECOL"@,
            n,
        ),
    decreases n,
{
    reveal_strlit("SIZEROW");
    reveal_strlit("SIZECOL");
    assert("SIZEROW"@[4] == 'R' && "SIZECOL"@[4] == 'C');
    if n > 0 {
        lemma_sized_n(m, decimal, columns, r, base, (n - 1) as nat);
    }
}

proof fn lemma_spots_push(
    list: Seq<(Seq<usize>, Bits)>,
    e: (Seq<usize>, Bits),
    cols: usize,
    n: nat,
)
    requires
        n <= list.len(),
    ensures
        spots_n(list.push(e), cols, n) == spots_n(list, cols, n),
    decreases n,
{
    if n > 0 {
        lemma_spots_push(list, e, cols, (n - 1) as nat);
        assert(list.push(e)[n - 1] == list[n - 1]);
    }
}

proof fn lemma_across_n(
    m: Sem,
    decimal: char,
    columns: Seq<Seq<char>>,
    r: DgsRowV,
    base: Seq<char>,
    rows: nat,
    cols: usize,
    n: nat,
)
    ensures
        ({
            let list = group_n(m, decimal, columns, r, base, n).entries;
            let spots = spots_n(list, cols, list.len());
            let a = placed_n(zeros_of(rows, cols as nat), spots, spots.len());
            &&& rect(a, rows, cols as nat)
            &&& forall|i: int, j: int|
                0 <= i < rows && 0 <= j < cols ==> #[trigger] a[i][j] == across_n(
                    m,
                    decimal,
                    columns,
                    r,
                    base,
                    cols,
                    i,
                    j,
                    n,
                )
        }),
    decreases n,
{
    if n > 0 {
        lemma_across_n(m, decimal, columns, r, base, rows, cols, (n - 1) as nat);
        let before = group_n(m, decimal, columns, r, base, (n - 1) as nat).entries;
        let after = group_n(m, decimal, columns, r, base, n).entries;
        if after.len() > before.len() {
            let e = after.last();
            assert(after == before.push(e));
            lemma_spots_push(before, e, cols, before.len());
            let spots = spots_n(before, cols, before.len());
            if let Some(p) = crate::dgs::matrix::spot_of(e.0, cols) {
                lemma_placed_push(rows, cols as nat, spots, (p.0, p.1, e.1));
            }
        } else {
            assert(after == before);
        }
    }
}

/// A matrix that a row spells out in its columns has the entries that they give.
pub proof fn lemma_matrix_is_across(
    m: Sem,
    decimal: char,
    t: DgsTableV,
    r: DgsRowV,
    base: Seq<char>,
)
    ensures
        denormalized_of(m, decimal, t, r, base) matches Some(a) ==> is_across(
            m,
            decimal,
            t,
            r,
            base,
            a,
        ),
{
    let n = t.columns.len();
    lemma_sized_n(m, decimal, t.columns, r, base, n);
    let g = group_n(m, decimal, t.columns, r, base, n);
    if let (Some(rows), Some(a)) = (g.rows, denormalized_of(m, decimal, t, r, base)) {
        let cols = match g.cols {
            Some(c) => c,
            None => rows,
        };
        lemma_across_n(m, decimal, t.columns, r, base, rows as nat, cols, n);
        let spots = spots_n(g.entries, cols, g.entries.len());
        let b = placed_n(zeros_of(rows as nat, cols as nat), spots, spots.len());
        lemma_completes(b);
        assert(completes(b, a));
    }
}

/// A matrix of an attribute is the one that the columns spell out, else the one
/// that the cell names.
pub proof fn lemma_attribute_is_its_matrix(
    m: Sem,
    doc: DgsDocV,
    t: DgsTableV,
    r: DgsRowV,
    base: Seq<char>,
)
    ensures
        matrix_of(m, doc, t, r, base) matches Some(a) ==> is_across(m, doc.decimal, t, r, base, a)
            || (t.cell(r, base) is Some && is_listed(m, doc, t.cell(r, base)->0, a)),
{
    reveal(matrix_of);
    lemma_matrix_is_across(m, doc.decimal, t, r, base);
    if let Some(id) = t.cell(r, base) {
        lemma_matrix_is_listed(m, doc, id);
    }
}

} // verus!
