//! Matrix-valued attributes.
//!
//! An export carries a matrix in one of two ways: as rows of the `Matrix` table
//! that share the identity an attribute holds, or as a group of columns
//! `<base>:SIZEROW`, `<base>:SIZECOL` and `<base>:r:c` (or `<base>:k`, counted
//! row by row) on the row itself. A triangular matrix is completed to a
//! symmetric one; any other stays as it is.

use vstd::prelude::*;

use crate::dgs::scan::{
    cell_at, parse_num, parse_num_of, DgsDoc, DgsDocV, DgsRow, DgsRowV, DgsTable, DgsTableV,
};
use crate::math::{eq, num_eq, Bits, Calc, Sem, ZERO};
use crate::matrix::{set_entry, set_of, square};
use crate::model::{repeat, repeat_of, Mat, MatV};
use crate::numeral::{parse_int, parse_signed, parse_unsigned, parse_usize};
use crate::text::{
    cat2, empty, group_views, same, split, split_of, strip_prefix, strip_prefix_of, trim, trim_of,
    views,
};

verus! {

// ---- completion ------------------------------------------------------------

/// Whether every entry above the diagonal is zero.
pub open spec fn lower_only(a: MatV) -> bool {
    forall|i: int, j: int| 0 <= i < j < a.len() ==> num_eq(#[trigger] a[i][j], ZERO)
}

/// Whether every entry below the diagonal is zero.
pub open spec fn upper_only(a: MatV) -> bool {
    forall|i: int, j: int| 0 <= j < i < a.len() ==> num_eq(#[trigger] a[i][j], ZERO)
}

/// The matrix with its lower triangle mirrored into the upper one.
pub open spec fn lower_mirrored(a: MatV) -> MatV {
    Seq::new(
        a.len(),
        |i: int|
            Seq::new(
                a.len(),
                |j: int|
                    if j > i {
                        a[j][i]
                    } else {
                        a[i][j]
                    },
            ),
    )
}

/// The matrix with its upper triangle mirrored into the lower one.
pub open spec fn upper_mirrored(a: MatV) -> MatV {
    Seq::new(
        a.len(),
        |i: int|
            Seq::new(
                a.len(),
                |j: int|
                    if j < i {
                        a[j][i]
                    } else {
                        a[i][j]
                    },
            ),
    )
}

/// A triangular matrix completed to a symmetric one; any other as it is.
pub open spec fn complete_of(a: MatV) -> MatV {
    if a.len() == 0 || !square(a, a.len()) {
        a
    } else if lower_only(a) && !upper_only(a) {
        lower_mirrored(a)
    } else if upper_only(a) && !lower_only(a) {
        upper_mirrored(a)
    } else {
        a
    }
}

/// A matrix with entries on one side of the diagonal only becomes symmetric and
/// keeps that side; one with entries on both sides, or none, is not touched.
pub proof fn lemma_complete(a: MatV, i: int, j: int)
    requires
        square(a, a.len()),
        0 <= i < a.len(),
        0 <= j < a.len(),
    ensures
        lower_only(a) != upper_only(a) ==> complete_of(a)[i][j] == complete_of(a)[j][i],
        lower_only(a) && !upper_only(a) && j <= i ==> complete_of(a)[i][j] == a[i][j],
        upper_only(a) && !lower_only(a) && i <= j ==> complete_of(a)[i][j] == a[i][j],
        lower_only(a) == upper_only(a) ==> complete_of(a) == a,
{
}

fn is_square(a: &Mat) -> (r: bool)
    ensures
        r == square(views(a@), a@.len()),
{
    let mut i: usize = 0;
    while i < a.len()
        invariant
            i <= a.len(),
            forall|k: int| 0 <= k < i ==> (#[trigger] views(a@)[k]).len() == a.len(),
        decreases a.len() - i,
    {
        assert(views(a@)[i as int] == a@[i as int]@);
        if a[i].len() != a.len() {
            return false;
        }
        i = i + 1;
    }
    true
}

/// Whether every entry on one side of the diagonal is zero: above it for
/// `above`, else below it.
fn one_sided(a: &Mat, above: bool) -> (r: bool)
    requires
        square(views(a@), a@.len()),
    ensures
        r == if above {
            lower_only(views(a@))
        } else {
            upper_only(views(a@))
        },
{
    let mut i: usize = 0;
    while i < a.len()
        invariant
            i <= a.len(),
            square(views(a@), a@.len()),
            forall|p: int, q: int|
                0 <= p < i && 0 <= q < a.len() && (if above {
                    p < q
                } else {
                    q < p
                }) ==> num_eq(#[trigger] views(a@)[p][q], ZERO),
        decreases a.len() - i,
    {
        assert(views(a@)[i as int] == a@[i as int]@);
        let mut j: usize = 0;
        while j < a.len()
            invariant
                j <= a.len(),
                i < a.len(),
                views(a@)[i as int] == a@[i as int]@,
                views(a@)[i as int].len() == a.len(),
                forall|q: int|
                    0 <= q < j && (if above {
                        i < q
                    } else {
                        q < i
                    }) ==> num_eq(#[trigger] views(a@)[i as int][q], ZERO),
            decreases a.len() - j,
        {
            let outside = if above {
                i < j
            } else {
                j < i
            };
            if outside && !eq(a[i][j], ZERO) {
                assert(!num_eq(views(a@)[i as int][j as int], ZERO));
                return false;
            }
            j = j + 1;
        }
        i = i + 1;
    }
    true
}

fn mirrored(a: &Mat, above: bool) -> (r: Mat)
    requires
        square(views(a@), a@.len()),
    ensures
        views(r@) == if above {
            lower_mirrored(views(a@))
        } else {
            upper_mirrored(views(a@))
        },
{
    let ghost want = if above {
        lower_mirrored(views(a@))
    } else {
        upper_mirrored(views(a@))
    };
    let n = a.len();
    let mut r: Mat = Vec::new();
    let mut i: usize = 0;
    while i < n
        invariant
            i <= n,
            n == a.len(),
            r.len() == i,
            square(views(a@), a@.len()),
            want == if above {
                lower_mirrored(views(a@))
            } else {
                upper_mirrored(views(a@))
            },
            forall|k: int| 0 <= k < i ==> (#[trigger] r@[k])@ == want[k],
        decreases n - i,
    {
        assert(views(a@)[i as int] == a@[i as int]@);
        assert(views(a@)[i as int].len() == n);
        let mut row: Vec<Bits> = Vec::new();
        let mut j: usize = 0;
        while j < n
            invariant
                j <= n,
                i < n,
                n == a.len(),
                row.len() == j,
                square(views(a@), a@.len()),
                views(a@)[i as int] == a@[i as int]@,
                views(a@)[i as int].len() == n,
                want == if above {
                    lower_mirrored(views(a@))
                } else {
                    upper_mirrored(views(a@))
                },
                forall|k: int| 0 <= k < j ==> (#[trigger] row@[k]) == want[i as int][k],
            decreases n - j,
        {
            assert(views(a@)[j as int] == a@[j as int]@);
            assert(views(a@)[j as int].len() == n);
            let outside = if above {
                j > i
            } else {
                j < i
            };
            if outside {
                row.push(a[j][i]);
            } else {
                row.push(a[i][j]);
            }
            j = j + 1;
        }
        assert(row@ =~= want[i as int]);
        r.push(row);
        i = i + 1;
    }
    assert(views(r@) =~= want);
    r
}

pub fn complete_symmetry(a: Mat) -> (r: Mat)
    ensures
        views(r@) == complete_of(views(a@)),
{
    assert(views(a@).len() == a.len());
    if a.len() == 0 || !is_square(&a) {
        return a;
    }
    let lower = one_sided(&a, true);
    let upper = one_sided(&a, false);
    if lower && !upper {
        mirrored(&a, true)
    } else if upper && !lower {
        mirrored(&a, false)
    } else {
        a
    }
}

// ---- placing entries -------------------------------------------------------

/// `rows` rows of `cols` entries each.
pub open spec fn rect(a: MatV, rows: nat, cols: nat) -> bool {
    a.len() == rows && forall|i: int| 0 <= i < rows ==> (#[trigger] a[i]).len() == cols
}

pub open spec fn zeros_of(rows: nat, cols: nat) -> MatV {
    Seq::new(rows, |i: int| repeat_of(ZERO, cols))
}

fn zeros(rows: usize, cols: usize) -> (r: Mat)
    ensures
        views(r@) == zeros_of(rows as nat, cols as nat),
        rect(views(r@), rows as nat, cols as nat),
{
    let mut r: Mat = Vec::new();
    let mut i: usize = 0;
    while i < rows
        invariant
            i <= rows,
            r.len() == i,
            forall|k: int| 0 <= k < i ==> (#[trigger] r@[k])@ == repeat_of(ZERO, cols as nat),
        decreases rows - i,
    {
        r.push(repeat(ZERO, cols));
        i = i + 1;
    }
    assert(views(r@) =~= zeros_of(rows as nat, cols as nat));
    r
}

/// The matrix with the first `n` entries in place, a later one over an earlier;
/// an entry outside the matrix is passed over.
pub open spec fn placed_n(a: MatV, entries: Seq<(usize, usize, Bits)>, n: nat) -> MatV
    decreases n,
{
    if n == 0 {
        a
    } else {
        let before = placed_n(a, entries, (n - 1) as nat);
        let e = entries[n - 1];
        if e.0 < before.len() && e.1 < before[e.0 as int].len() {
            set_of(before, e.0 as int, e.1 as int, e.2)
        } else {
            before
        }
    }
}

fn place(a: &mut Mat, rows: usize, cols: usize, entries: &Vec<(usize, usize, Bits)>)
    requires
        rect(views(old(a)@), rows as nat, cols as nat),
    ensures
        views(final(a)@) == placed_n(views(old(a)@), entries@, entries@.len()),
        rect(views(final(a)@), rows as nat, cols as nat),
{
    let mut i: usize = 0;
    while i < entries.len()
        invariant
            i <= entries.len(),
            rect(views(a@), rows as nat, cols as nat),
            views(a@) == placed_n(views(old(a)@), entries@, i as nat),
        decreases entries.len() - i,
    {
        let e = entries[i];
        assert(views(a@).len() == a.len());
        if e.0 < rows {
            assert(views(a@)[e.0 as int] == a@[e.0 as int]@);
            assert(views(a@)[e.0 as int].len() == cols);
            if e.1 < cols {
                set_entry(a, e.0, e.1, e.2);
            }
        }
        i = i + 1;
    }
}

// ---- the Matrix table ------------------------------------------------------

/// An index cell: a whole number from zero on.
pub open spec fn idx_of(t: DgsTableV, r: DgsRowV, name: Seq<char>) -> Option<usize> {
    match t.cell(r, name) {
        Some(s) => match parse_signed(trim_of(s)) {
            Some(i) => if 0 <= i <= usize::MAX {
                Some(i as usize)
            } else {
                None
            },
            None => None,
        },
        None => None,
    }
}

fn idx(t: &DgsTable, r: &DgsRow, name: &str) -> (i: Option<usize>)
    ensures
        i == idx_of(t@, r@, name@),
{
    match t.cell(r, name) {
        Some(s) => {
            let s = trim(s.as_str());
            match parse_int(s.as_str()) {
                Some(i) => if 0 <= i && (i as u64) <= usize::MAX as u64 {
                    Some(i as usize)
                } else {
                    None
                },
                None => None,
            }
        },
        None => None,
    }
}

/// The number in the `Val` column.
pub open spec fn value_of(m: Sem, decimal: char, t: DgsTableV, r: DgsRowV) -> Option<Bits> {
    match t.cell(r, "Val"@) {
        Some(s) => parse_num_of(m, s, decimal),
        None => None,
    }
}

fn value<C: Calc>(math: &C, decimal: char, t: &DgsTable, r: &DgsRow) -> (x: Option<Bits>)
    ensures
        x == value_of(math.sem(), decimal, t@, r@),
{
    match t.cell(r, "Val") {
        Some(s) => parse_num(math, s.as_str(), decimal),
        None => None,
    }
}

/// The entry that a row of the `Matrix` table gives; the column goes by either
/// of two names.
pub open spec fn matrix_entry(m: Sem, decimal: char, t: DgsTableV, r: DgsRowV) -> Option<
    (usize, usize, Bits),
> {
    let col = match idx_of(t, r, "MatCol"@) {
        Some(c) => Some(c),
        None => idx_of(t, r, "MatColumn"@),
    };
    match (idx_of(t, r, "MatRow"@), col, value_of(m, decimal, t, r)) {
        (Some(row), Some(col), Some(v)) => Some((row, col, v)),
        _ => None,
    }
}

pub open spec fn entries_n(m: Sem, decimal: char, t: DgsTableV, id: Seq<char>, n: nat) -> Seq<
    (usize, usize, Bits),
>
    decreases n,
{
    if n == 0 {
        seq![]
    } else {
        let before = entries_n(m, decimal, t, id, (n - 1) as nat);
        let r = t.rows[n - 1];
        match matrix_entry(m, decimal, t, r) {
            Some(e) => if t.id_of(r) == id {
                before.push(e)
            } else {
                before
            },
            None => before,
        }
    }
}

/// The entries of the matrix that goes by `id`.
pub open spec fn entries_of(m: Sem, doc: DgsDocV, id: Seq<char>) -> Seq<(usize, usize, Bits)> {
    match doc.table("Matrix"@) {
        Some(t) => entries_n(m, doc.decimal, t, id, t.rows.len()),
        None => seq![],
    }
}

/// One more than an index, at most the largest there is.
pub open spec fn past(i: usize) -> usize {
    if i < usize::MAX {
        (i + 1) as usize
    } else {
        i
    }
}

/// How many rows the first `n` entries need.
pub open spec fn extent_n(entries: Seq<(usize, usize, Bits)>, n: nat) -> usize
    decreases n,
{
    if n == 0 {
        0
    } else {
        let before = extent_n(entries, (n - 1) as nat);
        let e = entries[n - 1];
        let last = if e.0 > e.1 {
            e.0
        } else {
            e.1
        };
        if past(last) > before {
            past(last)
        } else {
            before
        }
    }
}

/// The matrix in the `Matrix` table that goes by `id`.
pub open spec fn normalized_of(m: Sem, doc: DgsDocV, id: Seq<char>) -> Option<MatV> {
    let entries = entries_of(m, doc, trim_of(id));
    let n = extent_n(entries, entries.len()) as nat;
    if n == 0 {
        None
    } else {
        Some(complete_of(placed_n(zeros_of(n, n), entries, entries.len())))
    }
}

/// The view inside an optional matrix.
pub open spec fn mat_view(o: Option<Mat>) -> Option<MatV> {
    match o {
        Some(a) => Some(views(a@)),
        None => None,
    }
}

fn entries<C: Calc>(math: &C, doc: &DgsDoc, id: &str) -> (r: Vec<(usize, usize, Bits)>)
    ensures
        r@ == entries_of(math.sem(), doc@, id@),
{
    let mut out: Vec<(usize, usize, Bits)> = Vec::new();
    assert(out@ =~= seq![]);
    let t = match doc.table("Matrix") {
        Some(t) => t,
        None => {
            return out;
        },
    };
    assert(t@.rows.len() == t.rows.len());
    let mut i: usize = 0;
    while i < t.rows.len()
        invariant
            i <= t.rows.len(),
            t@.rows.len() == t.rows.len(),
            out@ == entries_n(math.sem(), doc@.decimal, t@, id@, i as nat),
        decreases t.rows.len() - i,
    {
        let row = &t.rows[i];
        assert(t@.rows[i as int] == row@);
        let own = t.id_of(row);
        let col = match idx(t, row, "MatCol") {
            Some(c) => Some(c),
            None => idx(t, row, "MatColumn"),
        };
        match (idx(t, row, "MatRow"), col, value(math, doc.decimal, t, row)) {
            (Some(r), Some(c), Some(v)) => {
                if same(own.as_str(), id) {
                    out.push((r, c, v));
                }
            },
            _ => {},
        }
        i = i + 1;
    }
    out
}

fn extent(entries: &Vec<(usize, usize, Bits)>) -> (r: usize)
    ensures
        r == extent_n(entries@, entries@.len()),
{
    let mut n: usize = 0;
    let mut i: usize = 0;
    while i < entries.len()
        invariant
            i <= entries.len(),
            n == extent_n(entries@, i as nat),
        decreases entries.len() - i,
    {
        let e = entries[i];
        let last = if e.0 > e.1 {
            e.0
        } else {
            e.1
        };
        let end = if last < usize::MAX {
            last + 1
        } else {
            last
        };
        if end > n {
            n = end;
        }
        i = i + 1;
    }
    n
}

fn normalized<C: Calc>(math: &C, doc: &DgsDoc, id: &str) -> (r: Option<Mat>)
    ensures
        mat_view(r) == normalized_of(math.sem(), doc@, id@),
{
    let key = trim(id);
    let list = entries(math, doc, key.as_str());
    let n = extent(&list);
    if n == 0 {
        return None;
    }
    let mut a = zeros(n, n);
    place(&mut a, n, n, &list);
    Some(complete_symmetry(a))
}

// ---- column groups ---------------------------------------------------------

/// What a column group says so far: its sizes, and each value with its
/// coordinates.
pub struct GroupV {
    pub rows: Option<usize>,
    pub cols: Option<usize>,
    pub entries: Seq<(Seq<usize>, Bits)>,
}

pub struct Group {
    pub rows: Option<usize>,
    pub cols: Option<usize>,
    pub entries: Vec<(Vec<usize>, Bits)>,
}

impl View for Group {
    type V = GroupV;

    open spec fn view(&self) -> GroupV {
        GroupV { rows: self.rows, cols: self.cols, entries: views(self.entries@) }
    }
}

/// A text as a size.
pub open spec fn size_of_text(s: Seq<char>) -> Option<usize> {
    match parse_unsigned(trim_of(s), usize::MAX as nat) {
        Some(n) => Some(n as usize),
        None => None,
    }
}

fn size_in(s: &str) -> (r: Option<usize>)
    ensures
        r == size_of_text(s@),
{
    let t = trim(s);
    parse_usize(t.as_str())
}

/// The numbers among the first `n` parts.
pub open spec fn coords_n(parts: Seq<Seq<char>>, n: nat) -> Seq<usize>
    decreases n,
{
    if n == 0 {
        seq![]
    } else {
        let before = coords_n(parts, (n - 1) as nat);
        match size_of_text(parts[n - 1]) {
            Some(k) => before.push(k),
            None => before,
        }
    }
}

pub open spec fn coords_of(s: Seq<char>) -> Seq<usize> {
    coords_n(split_of(s, ':'), split_of(s, ':').len())
}

fn coords(s: &str) -> (r: Vec<usize>)
    ensures
        r@ == coords_of(s@),
{
    let parts = split(s, ':');
    assert(views(parts@).len() == parts.len());
    let mut out: Vec<usize> = Vec::new();
    assert(out@ =~= seq![]);
    let mut i: usize = 0;
    while i < parts.len()
        invariant
            i <= parts.len(),
            out@ == coords_n(views(parts@), i as nat),
        decreases parts.len() - i,
    {
        assert(views(parts@)[i as int] == parts@[i as int]@);
        match size_in(parts[i].as_str()) {
            Some(k) => {
                out.push(k);
            },
            None => {},
        }
        i = i + 1;
    }
    out
}

/// A column read into its group.
pub open spec fn group_step(
    m: Sem,
    decimal: char,
    g: GroupV,
    suffix: Option<Seq<char>>,
    cell: Option<Seq<char>>,
) -> GroupV {
    match (suffix, cell) {
        (Some(s), Some(raw)) => if s == "SIZEROW"@ {
            GroupV { rows: size_of_text(raw), ..g }
        } else if s == "SIZECOL"@ {
            GroupV { cols: size_of_text(raw), ..g }
        } else {
            match parse_num_of(m, raw, decimal) {
                Some(v) => GroupV { entries: g.entries.push((coords_of(s), v)), ..g },
                None => g,
            }
        },
        _ => g,
    }
}

pub open spec fn group_n(
    m: Sem,
    decimal: char,
    columns: Seq<Seq<char>>,
    r: DgsRowV,
    base: Seq<char>,
    n: nat,
) -> GroupV
    decreases n,
{
    if n == 0 {
        GroupV { rows: None, cols: None, entries: seq![] }
    } else {
        group_step(
            m,
            decimal,
            group_n(m, decimal, columns, r, base, (n - 1) as nat),
            strip_prefix_of(columns[n - 1], base + ":"@),
            cell_at(r, n - 1),
        )
    }
}

/// Where an entry goes: in a row and column, or, with one coordinate, counted
/// row by row.
pub open spec fn spot_of(coords: Seq<usize>, cols: usize) -> Option<(usize, usize)> {
    if coords.len() == 2 {
        Some((coords[0], coords[1]))
    } else if coords.len() == 1 && cols > 0 {
        Some(((coords[0] / cols) as usize, (coords[0] % cols) as usize))
    } else {
        None
    }
}

pub open spec fn spots_n(entries: Seq<(Seq<usize>, Bits)>, cols: usize, n: nat) -> Seq<
    (usize, usize, Bits),
>
    decreases n,
{
    if n == 0 {
        seq![]
    } else {
        let before = spots_n(entries, cols, (n - 1) as nat);
        match spot_of(entries[n - 1].0, cols) {
            Some(p) => before.push((p.0, p.1, entries[n - 1].1)),
            None => before,
        }
    }
}

/// The matrix of a column group; one without rows is none.
pub open spec fn denormalized_of(
    m: Sem,
    decimal: char,
    t: DgsTableV,
    r: DgsRowV,
    base: Seq<char>,
) -> Option<
    MatV,
> {
    let g = group_n(m, decimal, t.columns, r, base, t.columns.len());
    match g.rows {
        Some(rows) => if rows == 0 {
            None
        } else {
            let cols = match g.cols {
                Some(c) => c,
                None => rows,
            };
            let spots = spots_n(g.entries, cols, g.entries.len());
            Some(complete_of(placed_n(zeros_of(rows as nat, cols as nat), spots, spots.len())))
        },
        None => None,
    }
}

fn group_add<C: Calc>(math: &C, decimal: char, g: &mut Group, suffix: &str, raw: &str)
    ensures
        final(g)@ == group_step(math.sem(), decimal, old(g)@, Some(suffix@), Some(raw@)),
{
    broadcast use group_views;

    if same(suffix, "SIZEROW") {
        g.rows = size_in(raw);
    } else if same(suffix, "SIZECOL") {
        g.cols = size_in(raw);
    } else {
        let at = coords(suffix);
        match parse_num(math, raw, decimal) {
            Some(v) => {
                g.entries.push((at, v));
            },
            None => {},
        }
    }
}

fn group<C: Calc>(math: &C, decimal: char, t: &DgsTable, r: &DgsRow, base: &str) -> (g: Group)
    ensures
        g@ == group_n(math.sem(), decimal, t@.columns, r@, base@, t@.columns.len()),
{
    broadcast use group_views;

    let prefix = cat2(base, ":");
    let mut g = Group { rows: None, cols: None, entries: Vec::new() };
    assert(g@.entries =~= seq![]);
    assert(t@.columns.len() == t.columns.len());
    let mut i: usize = 0;
    while i < t.columns.len()
        invariant
            i <= t.columns.len(),
            t@.columns.len() == t.columns.len(),
            prefix@ == base@ + ":"@,
            g@ == group_n(math.sem(), decimal, t@.columns, r@, base@, i as nat),
        decreases t.columns.len() - i,
    {
        assert(t@.columns[i as int] == t.columns@[i as int]@);
        assert(r@.cells.len() == r.cells.len());
        match strip_prefix(t.columns[i].as_str(), prefix.as_str()) {
            Some(s) => {
                if i < r.cells.len() {
                    assert(r@.cells[i as int] == r.cells@[i as int]@);
                    let raw = r.cells[i].as_str();
                    if !empty(raw) {
                        group_add(math, decimal, &mut g, s.as_str(), raw);
                    }
                }
            },
            None => {},
        }
        i = i + 1;
    }
    g
}

fn spots(entries: &Vec<(Vec<usize>, Bits)>, cols: usize) -> (r: Vec<(usize, usize, Bits)>)
    ensures
        r@ == spots_n(views(entries@), cols, views(entries@).len()),
{
    let mut out: Vec<(usize, usize, Bits)> = Vec::new();
    assert(out@ =~= seq![]);
    assert(views(entries@).len() == entries.len());
    let mut i: usize = 0;
    while i < entries.len()
        invariant
            i <= entries.len(),
            views(entries@).len() == entries.len(),
            out@ == spots_n(views(entries@), cols, i as nat),
        decreases entries.len() - i,
    {
        assert(views(entries@)[i as int] == (entries@[i as int].0@, entries@[i as int].1));
        let at = &entries[i].0;
        let v = entries[i].1;
        if at.len() == 2 {
            out.push((at[0], at[1], v));
        } else if at.len() == 1 && cols > 0 {
            out.push((at[0] / cols, at[0] % cols, v));
        }
        i = i + 1;
    }
    out
}

fn denormalized<C: Calc>(math: &C, decimal: char, t: &DgsTable, r: &DgsRow, base: &str) -> (a:
    Option<Mat>)
    ensures
        mat_view(a) == denormalized_of(math.sem(), decimal, t@, r@, base@),
{
    let g = group(math, decimal, t, r, base);
    match g.rows {
        Some(rows) => {
            if rows == 0 {
                return None;
            }
            let cols = match g.cols {
                Some(c) => c,
                None => rows,
            };
            let list = spots(&g.entries, cols);
            let mut a = zeros(rows, cols);
            place(&mut a, rows, cols, &list);
            Some(complete_symmetry(a))
        },
        None => None,
    }
}

// ---- attributes ------------------------------------------------------------

/// A matrix attribute: the column group on the row, else the matrix that the
/// cell names.
#[verifier::opaque]
pub open spec fn matrix_of(
    m: Sem,
    doc: DgsDocV,
    t: DgsTableV,
    r: DgsRowV,
    base: Seq<char>,
) -> Option<
    MatV,
> {
    match denormalized_of(m, doc.decimal, t, r, base) {
        Some(a) => Some(a),
        None => match t.cell(r, base) {
            Some(id) => normalized_of(m, doc, id),
            None => None,
        },
    }
}

pub fn matrix_attr<C: Calc>(math: &C, doc: &DgsDoc, t: &DgsTable, r: &DgsRow, base: &str) -> (a:
    Option<Mat>)
    ensures
        mat_view(a) == matrix_of(math.sem(), doc@, t@, r@, base@),
{
    reveal(matrix_of);
    match denormalized(math, doc.decimal, t, r, base) {
        Some(a) => Some(a),
        None => match t.cell(r, base) {
            Some(id) => normalized(math, doc, id.as_str()),
            None => None,
        },
    }
}

// ---- the two forms of a matrix ---------------------------------------------

/// Entries lay out a square matrix: each stands in it with its value, and every
/// place of it has one.
pub open spec fn lays_out(entries: Seq<(usize, usize, Bits)>, a: MatV, n: nat) -> bool {
    &&& square(a, n)
    &&& forall|k: int|
        0 <= k < entries.len() ==> {
            &&& (#[trigger] entries[k]).0 < n
            &&& entries[k].1 < n
            &&& entries[k].2 == a[entries[k].0 as int][entries[k].1 as int]
        }
    &&& forall|i: int, j: int| 0 <= i < n && 0 <= j < n ==> #[trigger] given(entries, i, j)
}

pub open spec fn given(entries: Seq<(usize, usize, Bits)>, i: int, j: int) -> bool {
    exists|k: int| 0 <= k < entries.len() && (#[trigger] entries[k]).0 == i && entries[k].1 == j
}

/// What is placed of the first `k` entries: the value of each place that one of
/// them gives, else zero.
proof fn lemma_placed(entries: Seq<(usize, usize, Bits)>, a: MatV, n: nat, k: nat)
    requires
        lays_out(entries, a, n),
        k <= entries.len(),
    ensures
        square(placed_n(zeros_of(n, n), entries, k), n),
        forall|i: int, j: int|
            0 <= i < n && 0 <= j < n ==> #[trigger] placed_n(zeros_of(n, n), entries, k)[i][j]
                == if given(entries.take(k as int), i, j) {
                a[i][j]
            } else {
                ZERO
            },
    decreases k,
{
    let p = placed_n(zeros_of(n, n), entries, k);
    if k > 0 {
        lemma_placed(entries, a, n, (k - 1) as nat);
        let e = entries[k - 1];
        let before = entries.take(k - 1);
        let now = entries.take(k as int);
        assert forall|i: int, j: int| 0 <= i < n && 0 <= j < n implies #[trigger] p[i][j] == if given(
            now,
            i,
            j,
        ) {
            a[i][j]
        } else {
            ZERO
        } by {
            if e.0 == i && e.1 == j {
                assert(now[k - 1] == e);
            } else {
                if given(now, i, j) {
                    let q = choose|q: int|
                        0 <= q < now.len() && (#[trigger] now[q]).0 == i && now[q].1 == j;
                    assert(before[q] == now[q]);
                    assert(given(before, i, j));
                }
                if given(before, i, j) {
                    let q = choose|q: int|
                        0 <= q < before.len() && (#[trigger] before[q]).0 == i && before[q].1 == j;
                    assert(now[q] == before[q]);
                    assert(given(now, i, j));
                }
            }
        }
    }
}

/// Entries that lay out a matrix give it.
proof fn lemma_laid_out(entries: Seq<(usize, usize, Bits)>, a: MatV, n: nat)
    requires
        lays_out(entries, a, n),
    ensures
        placed_n(zeros_of(n, n), entries, entries.len()) == a,
{
    lemma_placed(entries, a, n, entries.len());
    assert(entries.take(entries.len() as int) =~= entries);
    let p = placed_n(zeros_of(n, n), entries, entries.len());
    assert forall|i: int| 0 <= i < n implies p[i] == a[i] by {
        assert forall|j: int| 0 <= j < n implies p[i][j] == a[i][j] by {
            assert(given(entries, i, j));
        }
        assert(p[i] =~= a[i]);
    }
    assert(p =~= a);
}

proof fn lemma_extent(entries: Seq<(usize, usize, Bits)>, n: nat, k: nat)
    requires
        n < usize::MAX,
        k <= entries.len(),
        forall|q: int|
            0 <= q < entries.len() ==> (#[trigger] entries[q]).0 < n && entries[q].1 < n,
    ensures
        extent_n(entries, k) <= n,
        forall|q: int| 0 <= q < k ==> (#[trigger] entries[q]).0 < extent_n(entries, k),
    decreases k,
{
    if k > 0 {
        lemma_extent(entries, n, (k - 1) as nat);
    }
}

/// The two forms of a matrix agree: one that lies in the columns of its row and
/// one that the `Matrix` table lists under the name in a cell give the same
/// matrix, where they list the same values. A row that has both forms gives the
/// one in its columns.
pub proof fn lemma_forms_agree(
    m: Sem,
    doc: DgsDocV,
    t: DgsTableV,
    r: DgsRowV,
    u: DgsTableV,
    q: DgsRowV,
    base: Seq<char>,
    a: MatV,
    n: usize,
)
    requires
        0 < n < usize::MAX,
        ({
            let g = group_n(m, doc.decimal, t.columns, r, base, t.columns.len());
            &&& g.rows == Some(n)
            &&& g.cols == Some(n)
            &&& lays_out(spots_n(g.entries, n, g.entries.len()), a, n as nat)
        }),
        group_n(m, doc.decimal, u.columns, q, base, u.columns.len()).rows is None,
        u.cell(q, base) matches Some(id) && lays_out(
            entries_of(m, doc, trim_of(id)),
            a,
            n as nat,
        ),
    ensures
        matrix_of(m, doc, t, r, base) == Some(complete_of(a)),
        matrix_of(m, doc, u, q, base) == matrix_of(m, doc, t, r, base),
{
    reveal(matrix_of);
    let g = group_n(m, doc.decimal, t.columns, r, base, t.columns.len());
    lemma_laid_out(spots_n(g.entries, n, g.entries.len()), a, n as nat);
    let entries = entries_of(m, doc, trim_of(u.cell(q, base)->0));
    lemma_laid_out(entries, a, n as nat);
    lemma_extent(entries, n as nat, entries.len());
    assert(given(entries, n - 1, 0));
    assert(extent_n(entries, entries.len()) == n);
}

// ---- the VecDouble table ---------------------------------------------------

pub open spec fn vector_entries_n(
    m: Sem,
    decimal: char,
    t: DgsTableV,
    id: Seq<char>,
    n: nat,
) -> Seq<
    (usize, usize, Bits),
>
    decreases n,
{
    if n == 0 {
        seq![]
    } else {
        let before = vector_entries_n(m, decimal, t, id, (n - 1) as nat);
        let r = t.rows[n - 1];
        match (idx_of(t, r, "VecIndex"@), value_of(m, decimal, t, r)) {
            (Some(i), Some(v)) => if t.id_of(r) == id {
                before.push((0usize, i, v))
            } else {
                before
            },
            _ => before,
        }
    }
}

/// The vector in the `VecDouble` table that goes by `id`: the one row of a
/// matrix.
pub open spec fn vector_of(m: Sem, doc: DgsDocV, id: Seq<char>) -> Option<Seq<Bits>> {
    let entries = match doc.table("VecDouble"@) {
        Some(t) => vector_entries_n(m, doc.decimal, t, trim_of(id), t.rows.len()),
        None => seq![],
    };
    if entries.len() == 0 {
        None
    } else {
        let n = extent_n(entries, entries.len()) as nat;
        Some(placed_n(zeros_of(1, n), entries, entries.len())[0])
    }
}

/// Reads a vector of the `VecDouble` table.
pub fn vector<C: Calc>(math: &C, doc: &DgsDoc, id: &str) -> (r: Option<Vec<Bits>>)
    ensures
        match r {
            Some(v) => vector_of(math.sem(), doc@, id@) == Some(v@),
            None => vector_of(math.sem(), doc@, id@) is None,
        },
{
    let key = trim(id);
    let t = match doc.table("VecDouble") {
        Some(t) => t,
        None => {
            return None;
        },
    };
    let mut list: Vec<(usize, usize, Bits)> = Vec::new();
    assert(list@ =~= seq![]);
    assert(t@.rows.len() == t.rows.len());
    let mut i: usize = 0;
    while i < t.rows.len()
        invariant
            i <= t.rows.len(),
            t@.rows.len() == t.rows.len(),
            list@ == vector_entries_n(math.sem(), doc@.decimal, t@, key@, i as nat),
        decreases t.rows.len() - i,
    {
        let row = &t.rows[i];
        assert(t@.rows[i as int] == row@);
        let own = t.id_of(row);
        match (idx(t, row, "VecIndex"), value(math, doc.decimal, t, row)) {
            (Some(k), Some(v)) => {
                if same(own.as_str(), key.as_str()) {
                    list.push((0, k, v));
                }
            },
            _ => {},
        }
        i = i + 1;
    }
    if list.len() == 0 {
        return None;
    }
    let n = extent(&list);
    let mut a = zeros(1, n);
    place(&mut a, 1, n, &list);
    assert(views(a@)[0] == a@[0]@);
    Some(copy_numbers(&a[0]))
}

fn copy_numbers(v: &Vec<Bits>) -> (r: Vec<Bits>)
    ensures
        r@ == v@,
{
    let mut r: Vec<Bits> = Vec::new();
    let mut i: usize = 0;
    while i < v.len()
        invariant
            i <= v.len(),
            r@ == v@.take(i as int),
        decreases v.len() - i,
    {
        r.push(v[i]);
        i = i + 1;
        assert(r@ =~= v@.take(i as int));
    }
    assert(r@ =~= v@);
    r
}

} // verus!
