//! The impedance of a line in conductor coordinates.
//!
//! A line or section gives an explicit matrix, or the sequence data of a
//! symmetrical type, or only a geometry. Totals in ohms and siemens add up over
//! the sections and are divided by the whole length at the end.

use vstd::prelude::*;

use crate::dgs::matrix::{mat_view, matrix_attr, matrix_of};
use crate::dgs::scan::{
    refusal, refuse, whole, whole_of, DgsDoc, DgsDocV, DgsRow, DgsRowV, DgsTable, DgsTableV,
};
use crate::dgs::state::{numbers, numbers_of, Reader, ReaderV};
use crate::dgs::topology::{resolve, resolve_of};
use crate::error::{Error, ErrorV, Outcome, Result};
use crate::math::{
    lt, minus, num_lt, over, plus, times, Bits, Calc, Sem, MICRO, ONE, TAU, THOUSAND, THREE, TWO,
    ZERO,
};
use crate::matrix::{square, two_valued, two_valued_mat};
use crate::model::{
    copy_mat, dist_line_code_of, filled, filled_of, repeat, repeat_of, DistLineCode, DistLineCodeV,
    Mat, MatV,
};
use crate::numeral::{dec_of, dec_usize};
use crate::text::{cat5, debug, debug_of, same, views};

verus! {

// ---- matrices --------------------------------------------------------------

/// A square matrix grown to `k` rows and columns, the new entries zero.
pub open spec fn grown(a: MatV, k: nat) -> MatV {
    Seq::new(
        k,
        |i: int|
            Seq::new(
                k,
                |j: int|
                    if i < a.len() && j < a.len() {
                        a[i][j]
                    } else {
                        ZERO
                    },
            ),
    )
}

fn grow(a: &Mat, k: usize) -> (r: Mat)
    requires
        square(views(a@), a@.len()),
    ensures
        views(r@) == grown(views(a@), k as nat),
        square(views(r@), k as nat),
{
    let mut r: Mat = Vec::new();
    let mut i: usize = 0;
    while i < k
        invariant
            i <= k,
            r.len() == i,
            square(views(a@), a@.len()),
            forall|p: int| 0 <= p < i ==> (#[trigger] r@[p])@ == grown(views(a@), k as nat)[p],
        decreases k - i,
    {
        let mut row: Vec<Bits> = Vec::new();
        let mut j: usize = 0;
        while j < k
            invariant
                j <= k,
                i < k,
                row.len() == j,
                square(views(a@), a@.len()),
                forall|q: int|
                    0 <= q < j ==> (#[trigger] row@[q]) == grown(views(a@), k as nat)[i as int][q],
            decreases k - j,
        {
            if i < a.len() && j < a.len() {
                assert(views(a@)[i as int] == a@[i as int]@);
                assert(views(a@)[i as int].len() == a.len());
                row.push(a[i][j]);
            } else {
                row.push(ZERO);
            }
            j = j + 1;
        }
        assert(row@ =~= grown(views(a@), k as nat)[i as int]);
        r.push(row);
        i = i + 1;
    }
    assert(views(r@) =~= grown(views(a@), k as nat));
    r
}

/// At least `n` rows of at least `n` entries.
pub open spec fn covers(a: MatV, n: nat) -> bool {
    a.len() >= n && forall|i: int| 0 <= i < n ==> (#[trigger] a[i]).len() >= n
}

fn is_covering(a: &Mat, n: usize) -> (r: bool)
    ensures
        r == covers(views(a@), n as nat),
{
    assert(views(a@).len() == a.len());
    if a.len() < n {
        return false;
    }
    let mut i: usize = 0;
    while i < n
        invariant
            i <= n <= a.len(),
            forall|k: int| 0 <= k < i ==> (#[trigger] views(a@)[k]).len() >= n,
        decreases n - i,
    {
        assert(views(a@)[i as int] == a@[i as int]@);
        if a[i].len() < n {
            return false;
        }
        i = i + 1;
    }
    true
}

/// How an entry of an explicit matrix counts: a series entry is divided among
/// parallel circuits; a shunt entry is multiplied by them, and half of it stands
/// at each end.
pub open spec fn counted(m: Sem, x: Bits, circuits: Bits, series: bool) -> Bits {
    if series {
        m.over(x, circuits)
    } else {
        m.over(m.times(x, circuits), TWO)
    }
}

/// `n` by `n` entries of a matrix as they count.
pub open spec fn counted_mat(m: Sem, a: MatV, n: nat, circuits: Bits, series: bool) -> MatV {
    Seq::new(n, |i: int| Seq::new(n, |j: int| counted(m, a[i][j], circuits, series)))
}

fn count_mat<C: Calc>(math: &C, a: &Mat, n: usize, circuits: Bits, series: bool) -> (r: Mat)
    requires
        covers(views(a@), n as nat),
    ensures
        views(r@) == counted_mat(math.sem(), views(a@), n as nat, circuits, series),
        square(views(r@), n as nat),
{
    let ghost want = counted_mat(math.sem(), views(a@), n as nat, circuits, series);
    let mut r: Mat = Vec::new();
    let mut i: usize = 0;
    assert(views(a@).len() == a.len());
    while i < n
        invariant
            i <= n <= a.len(),
            r.len() == i,
            covers(views(a@), n as nat),
            want == counted_mat(math.sem(), views(a@), n as nat, circuits, series),
            forall|p: int| 0 <= p < i ==> (#[trigger] r@[p])@ == want[p],
        decreases n - i,
    {
        assert(views(a@)[i as int] == a@[i as int]@);
        let mut row: Vec<Bits> = Vec::new();
        let mut j: usize = 0;
        while j < n
            invariant
                j <= n,
                i < n <= a.len(),
                row.len() == j,
                views(a@)[i as int] == a@[i as int]@,
                a@[i as int].len() >= n,
                want == counted_mat(math.sem(), views(a@), n as nat, circuits, series),
                forall|q: int| 0 <= q < j ==> (#[trigger] row@[q]) == want[i as int][q],
            decreases n - j,
        {
            let x = a[i][j];
            if series {
                row.push(over(math, x, circuits));
            } else {
                row.push(over(math, times(math, x, circuits), TWO));
            }
            j = j + 1;
        }
        assert(row@ =~= want[i as int]);
        r.push(row);
        i = i + 1;
    }
    assert(views(r@) =~= want);
    r
}

/// A matrix with a smaller one added in its corner.
pub open spec fn added(m: Sem, a: MatV, d: MatV) -> MatV {
    Seq::new(
        a.len(),
        |i: int|
            Seq::new(
                a.len(),
                |j: int|
                    if i < d.len() && j < d.len() {
                        m.plus(a[i][j], d[i][j])
                    } else {
                        a[i][j]
                    },
            ),
    )
}

fn plus_mat<C: Calc>(math: &C, a: &Mat, d: &Mat) -> (r: Mat)
    requires
        square(views(a@), a@.len()),
        square(views(d@), d@.len()),
    ensures
        views(r@) == added(math.sem(), views(a@), views(d@)),
        square(views(r@), a@.len()),
{
    let ghost want = added(math.sem(), views(a@), views(d@));
    let k = a.len();
    let mut r: Mat = Vec::new();
    let mut i: usize = 0;
    while i < k
        invariant
            i <= k,
            k == a.len(),
            r.len() == i,
            square(views(a@), a@.len()),
            square(views(d@), d@.len()),
            want == added(math.sem(), views(a@), views(d@)),
            forall|p: int| 0 <= p < i ==> (#[trigger] r@[p])@ == want[p],
        decreases k - i,
    {
        assert(views(a@)[i as int] == a@[i as int]@);
        assert(views(a@)[i as int].len() == k);
        let mut row: Vec<Bits> = Vec::new();
        let mut j: usize = 0;
        while j < k
            invariant
                j <= k,
                i < k,
                k == a.len(),
                row.len() == j,
                views(a@)[i as int] == a@[i as int]@,
                a@[i as int].len() == k,
                square(views(d@), d@.len()),
                want == added(math.sem(), views(a@), views(d@)),
                forall|q: int| 0 <= q < j ==> (#[trigger] row@[q]) == want[i as int][q],
            decreases k - j,
        {
            if i < d.len() && j < d.len() {
                assert(views(d@)[i as int] == d@[i as int]@);
                assert(views(d@)[i as int].len() == d.len());
                row.push(plus(math, a[i][j], d[i][j]));
            } else {
                row.push(a[i][j]);
            }
            j = j + 1;
        }
        assert(row@ =~= want[i as int]);
        r.push(row);
        i = i + 1;
    }
    assert(views(r@) =~= want);
    r
}

/// Each entry divided by the length.
pub open spec fn per_metre(m: Sem, a: MatV, len: Bits) -> MatV {
    Seq::new(a.len(), |i: int| Seq::new(a[i].len(), |j: int| m.over(a[i][j], len)))
}

fn divide<C: Calc>(math: &C, a: &Mat, len: Bits) -> (r: Mat)
    ensures
        views(r@) == per_metre(math.sem(), views(a@), len),
{
    let mut r: Mat = Vec::new();
    let mut i: usize = 0;
    while i < a.len()
        invariant
            i <= a.len(),
            r.len() == i,
            forall|k: int|
                0 <= k < i ==> (#[trigger] r@[k])@ == per_metre(math.sem(), views(a@), len)[k],
        decreases a.len() - i,
    {
        let mut row: Vec<Bits> = Vec::new();
        let mut j: usize = 0;
        assert(views(a@)[i as int] == a@[i as int]@);
        while j < a[i].len()
            invariant
                i < a.len(),
                j <= a@[i as int].len(),
                row.len() == j,
                forall|k: int|
                    0 <= k < j ==> (#[trigger] row@[k]) == math.sem().over(a@[i as int]@[k], len),
            decreases a@[i as int].len() - j,
        {
            row.push(over(math, a[i][j], len));
            j = j + 1;
        }
        assert(row@ =~= per_metre(math.sem(), views(a@), len)[i as int]);
        r.push(row);
        i = i + 1;
    }
    assert(views(r@) =~= per_metre(math.sem(), views(a@), len));
    r
}

// ---- what a line or section gives ------------------------------------------

/// The sequence data of a symmetrical type, per kilometre.
pub struct Sequence {
    pub r1: Bits,
    pub x1: Bits,
    pub c1: Bits,
    pub r0: Bits,
    pub x0: Bits,
    pub c0: Bits,
    pub sline: Bits,
    pub nph: usize,
    pub has_zero: bool,
}

/// Explicit matrices, sequence data, or a geometry without parameters.
pub enum LineImp {
    Explicit { r: Mat, x: Mat, g: Mat, b: Mat, n: usize },
    Sequence(Sequence),
    Geometry,
}

pub enum LineImpV {
    Explicit { r: MatV, x: MatV, g: MatV, b: MatV, n: nat },
    Sequence(Sequence),
    Geometry,
}

impl View for LineImp {
    type V = LineImpV;

    open spec fn view(&self) -> LineImpV {
        match *self {
            LineImp::Explicit { r, x, g, b, n } => LineImpV::Explicit {
                r: views(r@),
                x: views(x@),
                g: views(g@),
                b: views(b@),
                n: n as nat,
            },
            LineImp::Sequence(s) => LineImpV::Sequence(s),
            LineImp::Geometry => LineImpV::Geometry,
        }
    }
}

impl LineImpV {
    /// An explicit matrix has an entry for each pair of conductors; sequence
    /// data has one to three.
    pub open spec fn wf(self) -> bool {
        match self {
            LineImpV::Explicit { r, x, g, b, n } => {
                &&& covers(r, n)
                &&& covers(x, n)
                &&& covers(g, n)
                &&& covers(b, n)
            },
            LineImpV::Sequence(s) => 1 <= s.nph <= 3,
            LineImpV::Geometry => true,
        }
    }
}

/// The first of two attributes that gives a matrix.
pub open spec fn either_matrix(
    m: Sem,
    doc: DgsDocV,
    t: DgsTableV,
    r: DgsRowV,
    a: Seq<char>,
    b: Seq<char>,
) -> Option<MatV> {
    match matrix_of(m, doc, t, r, a) {
        Some(x) => Some(x),
        None => matrix_of(m, doc, t, r, b),
    }
}

/// A matrix, or `n` by `n` zeros.
pub open spec fn or_zero(a: Option<MatV>, n: nat) -> MatV {
    match a {
        Some(x) => x,
        None => filled_of(n, ZERO),
    }
}

/// The explicit matrices of a row, where it gives a resistance.
pub open spec fn explicit_of(m: Sem, doc: DgsDocV, t: DgsTableV, r: DgsRowV) -> Option<LineImpV> {
    match either_matrix(m, doc, t, r, "R_c1"@, "rmatrix"@) {
        Some(a) => Some(
            LineImpV::Explicit {
                r: a,
                x: or_zero(either_matrix(m, doc, t, r, "X_c1"@, "xmatrix"@), a.len()),
                g: or_zero(matrix_of(m, doc, t, r, "G_c1"@), a.len()),
                b: or_zero(either_matrix(m, doc, t, r, "B_c1"@, "bmatrix"@), a.len()),
                n: a.len(),
            },
        ),
        None => None,
    }
}

fn attr_or<C: Calc>(math: &C, doc: &DgsDoc, t: &DgsTable, r: &DgsRow, a: &str, b: &str) -> (x:
    Option<Mat>)
    ensures
        mat_view(x) == either_matrix(math.sem(), doc@, t@, r@, a@, b@),
{
    match matrix_attr(math, doc, t, r, a) {
        Some(x) => Some(x),
        None => matrix_attr(math, doc, t, r, b),
    }
}

fn mat_or_zero(a: Option<Mat>, n: usize) -> (r: Mat)
    ensures
        views(r@) == or_zero(mat_view(a), n as nat),
{
    match a {
        Some(x) => x,
        None => filled(n, ZERO),
    }
}

fn explicit<C: Calc>(math: &C, doc: &DgsDoc, t: &DgsTable, r: &DgsRow) -> (i: Option<LineImp>)
    ensures
        match i {
            Some(i) => explicit_of(math.sem(), doc@, t@, r@) == Some(i@),
            None => explicit_of(math.sem(), doc@, t@, r@) is None,
        },
{
    match attr_or(math, doc, t, r, "R_c1", "rmatrix") {
        Some(a) => {
            let n = a.len();
            assert(views(a@).len() == n);
            let x = mat_or_zero(attr_or(math, doc, t, r, "X_c1", "xmatrix"), n);
            let g = mat_or_zero(matrix_attr(math, doc, t, r, "G_c1"), n);
            let b = mat_or_zero(attr_or(math, doc, t, r, "B_c1", "bmatrix"), n);
            Some(LineImp::Explicit { r: a, x, g, b, n })
        },
        None => None,
    }
}

/// The refusal of an element whose type is not in the file.
pub open spec fn missing_type_of(element: Seq<char>, typ: Seq<char>) -> ErrorV {
    refusal(
        "line/transformer "@ + debug_of(element) + " references type "@ + debug_of(typ)
            + " that is not in the file; re-export from PowerFactory with types included"@,
    )
}

pub fn missing_type(element: &str, typ: &str) -> (r: Error)
    ensures
        r@ == missing_type_of(element@, typ@),
{
    let a = debug(element);
    let b = debug(typ);
    refuse(
        cat5(
            "line/transformer ",
            a.as_str(),
            " references type ",
            b.as_str(),
            " that is not in the file; re-export from PowerFactory with types included",
        ),
    )
}

/// The refusal of an explicit matrix that lacks an entry for some pair of
/// conductors.
pub open spec fn small_matrix_of(element: Seq<char>, n: nat) -> ErrorV {
    refusal(
        "line "@ + debug_of(element) + " has a phase matrix with fewer than "@ + dec_of(n)
            + " rows or columns"@,
    )
}

/// An explicit matrix where it is large enough.
pub open spec fn sized(i: LineImpV, line: Seq<char>) -> Outcome<LineImpV> {
    match i {
        LineImpV::Explicit { r, x, g, b, n } => if i.wf() {
            Ok(i)
        } else {
            Err(small_matrix_of(line, n))
        },
        _ => Ok(i),
    }
}

fn check_size(i: LineImp, line: &str) -> (r: Result<LineImp>)
    requires
        i is Explicit,
    ensures
        match r {
            Ok(x) => sized(i@, line@) == Ok::<LineImpV, ErrorV>(x@) && x@.wf(),
            Err(e) => sized(i@, line@) == Err::<LineImpV, ErrorV>(e@),
        },
{
    let (fits, n) = match &i {
        LineImp::Explicit { r, x, g, b, n } => (
            is_covering(r, *n) && is_covering(x, *n) && is_covering(g, *n) && is_covering(b, *n),
            *n,
        ),
        _ => (true, 0),
    };
    if fits {
        Ok(i)
    } else {
        let a = debug(line);
        let d = dec_usize(n);
        Err(
            refuse(
                cat5(
                    "line ",
                    a.as_str(),
                    " has a phase matrix with fewer than ",
                    d.as_str(),
                    " rows or columns",
                ),
            ),
        )
    }
}

/// What is asked of a symmetrical type.
pub open spec fn type_asks() -> Seq<(bool, Seq<char>, Bits)> {
    seq![
        (true, "nlnph"@, THREE),
        (true, "rline"@, ZERO),
        (true, "xline"@, ZERO),
        (true, "cline"@, ZERO),
        (true, "rline0"@, ZERO),
        (true, "xline0"@, ZERO),
        (true, "cline0"@, ZERO),
        (true, "sline"@, ZERO),
    ]
}

fn type_ask_list() -> (r: Vec<(bool, &'static str, Bits)>)
    ensures
        views(r@) == type_asks(),
        r.len() == 8,
{
    let r: Vec<(bool, &'static str, Bits)> = vec![
        (true, "nlnph", THREE),
        (true, "rline", ZERO),
        (true, "xline", ZERO),
        (true, "cline", ZERO),
        (true, "rline0", ZERO),
        (true, "xline0", ZERO),
        (true, "cline0", ZERO),
        (true, "sline", ZERO),
    ];
    assert(views(r@) =~= type_asks());
    r
}

/// An integer held within one to three.
pub open spec fn one_to_three(n: i64) -> usize {
    if n < 1 {
        1
    } else if n > 3 {
        3
    } else {
        n as usize
    }
}

pub fn clamp3(n: i64) -> (r: usize)
    ensures
        r == one_to_three(n),
        1 <= r <= 3,
{
    if n < 1 {
        1
    } else if n > 3 {
        3
    } else {
        n as usize
    }
}

/// What a line type gives.
pub open spec fn typed_imp_of(
    m: Sem,
    decimal: char,
    t: DgsTableV,
    r: DgsRowV,
    line: Seq<char>,
    typ: Seq<char>,
) -> Outcome<LineImpV> {
    if t.class == "TypLne"@ {
        match numbers_of(m, decimal, (t, r), (t, r), type_asks()) {
            Ok(v) => Ok(
                LineImpV::Sequence(
                    Sequence {
                        r1: v[1],
                        x1: v[2],
                        c1: v[3],
                        r0: v[4],
                        x0: v[5],
                        c0: v[6],
                        sline: v[7],
                        nph: one_to_three(whole_of(m, v[0])),
                        has_zero: t.cell(r, "rline0"@) is Some || t.cell(r, "xline0"@) is Some
                            || t.cell(r, "cline0"@) is Some,
                    },
                ),
            ),
            Err(e) => Err(e),
        }
    } else if t.class == "TypTow"@ || t.class == "TypGeo"@ || t.class == "TypCabsys"@ {
        Ok(LineImpV::Geometry)
    } else {
        Err(missing_type_of(line, typ))
    }
}

fn typed_imp<C: Calc>(
    math: &C,
    decimal: char,
    t: &DgsTable,
    r: &DgsRow,
    line: &str,
    typ: &str,
) -> (i: Result<LineImp>)
    ensures
        match i {
            Ok(x) => typed_imp_of(math.sem(), decimal, t@, r@, line@, typ@) == Ok::<
                LineImpV,
                ErrorV,
            >(x@) && x@.wf(),
            Err(e) => typed_imp_of(math.sem(), decimal, t@, r@, line@, typ@) == Err::<
                LineImpV,
                ErrorV,
            >(e@),
        },
{
    let class = t.class.as_str();
    if same(class, "TypLne") {
        let asks = type_ask_list();
        let v = match numbers(math, decimal, (t, r), (t, r), &asks) {
            Ok(v) => v,
            Err(e) => {
                return Err(e);
            },
        };
        let has_zero = t.cell(r, "rline0").is_some() || t.cell(r, "xline0").is_some() || t.cell(
            r,
            "cline0",
        ).is_some();
        return Ok(
            LineImp::Sequence(
                Sequence {
                    r1: v[1],
                    x1: v[2],
                    c1: v[3],
                    r0: v[4],
                    x0: v[5],
                    c0: v[6],
                    sline: v[7],
                    nph: clamp3(whole(math, v[0])),
                    has_zero,
                },
            ),
        );
    }
    if same(class, "TypTow") || same(class, "TypGeo") || same(class, "TypCabsys") {
        return Ok(LineImp::Geometry);
    }
    Err(missing_type(line, typ))
}

/// What a line or section gives: explicit matrices on its own row or on that of
/// its type, else what the type is.
#[verifier::opaque]
pub open spec fn line_imp_of(
    m: Sem,
    doc: DgsDocV,
    t: DgsTableV,
    r: DgsRowV,
    line: Seq<char>,
) -> Outcome<LineImpV> {
    let typ = match t.ptr(r, "typ_id"@) {
        Some(p) => p,
        None => seq![],
    };
    match explicit_of(m, doc, t, r) {
        Some(i) => sized(i, line),
        None => match resolve_of(doc, typ) {
            None => Err(missing_type_of(line, typ)),
            Some((tt, tr)) => match explicit_of(m, doc, tt, tr) {
                Some(i) => sized(i, line),
                None => typed_imp_of(m, doc.decimal, tt, tr, line, typ),
            },
        },
    }
}

pub fn line_imp<C: Calc>(math: &C, doc: &DgsDoc, t: &DgsTable, r: &DgsRow, line: &str) -> (i:
    Result<LineImp>)
    ensures
        match i {
            Ok(x) => line_imp_of(math.sem(), doc@, t@, r@, line@) == Ok::<LineImpV, ErrorV>(x@)
                && x@.wf(),
            Err(e) => line_imp_of(math.sem(), doc@, t@, r@, line@) == Err::<LineImpV, ErrorV>(e@),
        },
{
    reveal(line_imp_of);
    let typ = match t.ptr(r, "typ_id") {
        Some(p) => p,
        None => {
            let e = String::new();
            assert(e@ =~= seq![]);
            e
        },
    };
    match explicit(math, doc, t, r) {
        Some(i) => check_size(i, line),
        None => match resolve(doc, typ.as_str()) {
            None => Err(missing_type(line, typ.as_str())),
            Some((tt, tr)) => match explicit(math, doc, tt, tr) {
                Some(i) => check_size(i, line),
                None => typed_imp(math, doc.decimal, tt, tr, line, typ.as_str()),
            },
        },
    }
}

// ---- totals ----------------------------------------------------------------

/// The totals of a line so far.
pub struct LineAccum {
    pub n: usize,
    pub r: Mat,
    pub x: Mat,
    pub g: Mat,
    pub b: Mat,
    pub length: Bits,
    pub i_max: Option<Bits>,
}

pub struct LineAccumV {
    pub n: nat,
    pub r: MatV,
    pub x: MatV,
    pub g: MatV,
    pub b: MatV,
    pub length: Bits,
    pub i_max: Option<Bits>,
}

impl View for LineAccum {
    type V = LineAccumV;

    open spec fn view(&self) -> LineAccumV {
        LineAccumV {
            n: self.n as nat,
            r: views(self.r@),
            x: views(self.x@),
            g: views(self.g@),
            b: views(self.b@),
            length: self.length,
            i_max: self.i_max,
        }
    }
}

impl LineAccumV {
    /// Four square matrices of one size.
    pub open spec fn wf(self) -> bool {
        &&& square(self.r, self.n)
        &&& square(self.x, self.n)
        &&& square(self.g, self.n)
        &&& square(self.b, self.n)
    }
}

/// Nothing added up yet.
pub open spec fn accum_none() -> LineAccumV {
    LineAccumV {
        n: 0,
        r: seq![],
        x: seq![],
        g: seq![],
        b: seq![],
        length: ZERO,
        i_max: None,
    }
}

pub fn accum_new() -> (r: LineAccum)
    ensures
        r@ == accum_none(),
        r@.wf(),
{
    let a = LineAccum {
        n: 0,
        r: Vec::new(),
        x: Vec::new(),
        g: Vec::new(),
        b: Vec::new(),
        length: ZERO,
        i_max: None,
    };
    assert(a@.r =~= seq![] && a@.x =~= seq![] && a@.g =~= seq![] && a@.b =~= seq![]);
    a
}

pub open spec fn larger_of(a: nat, b: nat) -> nat {
    if a > b {
        a
    } else {
        b
    }
}

/// The totals with matrices added in their corner, over a further length.
pub open spec fn accum_add(
    m: Sem,
    acc: LineAccumV,
    n: nat,
    r: MatV,
    x: MatV,
    g: MatV,
    b: MatV,
    len: Bits,
) -> LineAccumV {
    let k = larger_of(acc.n, n);
    LineAccumV {
        n: k,
        r: added(m, grown(acc.r, k), r),
        x: added(m, grown(acc.x, k), x),
        g: added(m, grown(acc.g, k), g),
        b: added(m, grown(acc.b, k), b),
        length: m.plus(acc.length, len),
        i_max: acc.i_max,
    }
}

fn add_mat<C: Calc>(math: &C, a: &Mat, k: usize, d: &Mat) -> (r: Mat)
    requires
        square(views(a@), a@.len()),
        square(views(d@), d@.len()),
    ensures
        views(r@) == added(math.sem(), grown(views(a@), k as nat), views(d@)),
        square(views(r@), k as nat),
{
    let g = grow(a, k);
    assert(views(g@).len() == g.len());
    plus_mat(math, &g, d)
}

fn accum_plus<C: Calc>(
    math: &C,
    acc: &LineAccum,
    n: usize,
    r: &Mat,
    x: &Mat,
    g: Option<&Mat>,
    b: &Mat,
    len: Bits,
) -> (a: LineAccum)
    requires
        acc@.wf(),
        square(views(r@), n as nat),
        square(views(x@), n as nat),
        g matches Some(g) ==> square(views(g@), n as nat),
        square(views(b@), n as nat),
    ensures
        a@ == accum_add(
            math.sem(),
            acc@,
            n as nat,
            views(r@),
            views(x@),
            match g {
                Some(g) => views(g@),
                None => seq![],
            },
            views(b@),
            len,
        ),
        a@.wf(),
{
    let k = if acc.n > n {
        acc.n
    } else {
        n
    };
    assert(views(acc.r@).len() == acc.r.len() && views(acc.x@).len() == acc.x.len() && views(
        acc.g@,
    ).len() == acc.g.len() && views(acc.b@).len() == acc.b.len());
    assert(views(r@).len() == r.len() && views(x@).len() == x.len() && views(b@).len() == b.len());
    let ag = match g {
        Some(g) => {
            assert(views(g@).len() == g.len());
            add_mat(math, &acc.g, k, g)
        },
        None => {
            let g = grow(&acc.g, k);
            assert(views(g@) =~= added(math.sem(), grown(views(acc.g@), k as nat), seq![])) by {
                assert forall|i: int| 0 <= i < k implies views(g@)[i] =~= added(
                    math.sem(),
                    grown(views(acc.g@), k as nat),
                    seq![],
                )[i] by {}
            }
            g
        },
    };
    LineAccum {
        n: k,
        r: add_mat(math, &acc.r, k, r),
        x: add_mat(math, &acc.x, k, x),
        g: ag,
        b: add_mat(math, &acc.b, k, b),
        length: plus(math, acc.length, len),
        i_max: acc.i_max,
    }
}

/// The self and mutual parts of a positive- and a zero-sequence value:
/// `(z0 + 2 z1) / 3` and `(z0 - z1) / 3`.
pub open spec fn seq_pair_of(m: Sem, z1: Bits, z0: Bits) -> (Bits, Bits) {
    (m.over(m.plus(z0, m.times(TWO, z1)), THREE), m.over(m.minus(z0, z1), THREE))
}

pub fn seq_pair<C: Calc>(math: &C, z1: Bits, z0: Bits) -> (r: (Bits, Bits))
    ensures
        r == seq_pair_of(math.sem(), z1, z0),
{
    (
        over(math, plus(math, z0, times(math, TWO, z1)), THREE),
        over(math, minus(math, z0, z1), THREE),
    )
}

/// The self and mutual values per metre of sequence data, of resistance,
/// reactance and susceptance in turn.
pub struct PhaseValues {
    pub rs: Bits,
    pub rm: Bits,
    pub xs: Bits,
    pub xm: Bits,
    pub bs: Bits,
    pub bm: Bits,
}

/// Sequence data in phase coordinates. Without zero-sequence data it is
/// uncoupled; with one or two conductors it is the positive sequence, with no
/// mutual part.
pub open spec fn phase_values_of(m: Sem, s: Sequence, f: Bits) -> PhaseValues {
    let r1 = m.over(s.r1, THOUSAND);
    let x1 = m.over(s.x1, THOUSAND);
    let c1 = m.over(m.times(s.c1, MICRO), THOUSAND);
    let r0 = if s.has_zero {
        m.over(s.r0, THOUSAND)
    } else {
        r1
    };
    let x0 = if s.has_zero {
        m.over(s.x0, THOUSAND)
    } else {
        x1
    };
    let c0 = if s.has_zero {
        m.over(m.times(s.c0, MICRO), THOUSAND)
    } else {
        c1
    };
    let b1 = m.times(m.times(TAU, f), c1);
    let b0 = m.times(m.times(TAU, f), c0);
    if s.nph == 1 || s.nph == 2 {
        PhaseValues { rs: r1, rm: ZERO, xs: x1, xm: ZERO, bs: b1, bm: ZERO }
    } else {
        PhaseValues {
            rs: seq_pair_of(m, r1, r0).0,
            rm: seq_pair_of(m, r1, r0).1,
            xs: seq_pair_of(m, x1, x0).0,
            xm: seq_pair_of(m, x1, x0).1,
            bs: seq_pair_of(m, b1, b0).0,
            bm: seq_pair_of(m, b1, b0).1,
        }
    }
}

fn phase_values<C: Calc>(math: &C, s: &Sequence, f: Bits) -> (r: PhaseValues)
    ensures
        r == phase_values_of(math.sem(), *s, f),
{
    let r1 = over(math, s.r1, THOUSAND);
    let x1 = over(math, s.x1, THOUSAND);
    let c1 = over(math, times(math, s.c1, MICRO), THOUSAND);
    let (r0, x0, c0) = if s.has_zero {
        (
            over(math, s.r0, THOUSAND),
            over(math, s.x0, THOUSAND),
            over(math, times(math, s.c0, MICRO), THOUSAND),
        )
    } else {
        (r1, x1, c1)
    };
    let omega = times(math, TAU, f);
    let b1 = times(math, omega, c1);
    let b0 = times(math, omega, c0);
    if s.nph == 1 || s.nph == 2 {
        return PhaseValues { rs: r1, rm: ZERO, xs: x1, xm: ZERO, bs: b1, bm: ZERO };
    }
    let (rs, rm) = seq_pair(math, r1, r0);
    let (xs, xm) = seq_pair(math, x1, x0);
    let (bs, bm) = seq_pair(math, b1, b0);
    PhaseValues { rs, rm, xs, xm, bs, bm }
}

/// The totals with a symmetrical section added.
pub open spec fn add_sequence_of(
    m: Sem,
    acc: LineAccumV,
    s: Sequence,
    len: Bits,
    circuits: Bits,
    f: Bits,
) -> LineAccumV {
    let v = phase_values_of(m, s, f);
    let n = s.nph as nat;
    let series = m.over(len, circuits);
    let shunt = m.over(m.times(len, circuits), TWO);
    let sum = accum_add(
        m,
        acc,
        n,
        two_valued(n, m.times(v.rs, series), m.times(v.rm, series)),
        two_valued(n, m.times(v.xs, series), m.times(v.xm, series)),
        seq![],
        two_valued(n, m.times(v.bs, shunt), m.times(v.bm, shunt)),
        len,
    );
    if num_lt(ZERO, s.sline) {
        LineAccumV { i_max: Some(m.times(s.sline, THOUSAND)), ..sum }
    } else {
        sum
    }
}

fn add_sequence<C: Calc>(
    math: &C,
    acc: &LineAccum,
    s: &Sequence,
    len: Bits,
    circuits: Bits,
    f: Bits,
) -> (a: LineAccum)
    requires
        acc@.wf(),
    ensures
        a@ == add_sequence_of(math.sem(), acc@, *s, len, circuits, f),
        a@.wf(),
{
    let v = phase_values(math, s, f);
    let n = s.nph;
    let series = over(math, len, circuits);
    let shunt = over(math, times(math, len, circuits), TWO);
    let r = two_valued_mat(n, times(math, v.rs, series), times(math, v.rm, series));
    let x = two_valued_mat(n, times(math, v.xs, series), times(math, v.xm, series));
    let b = two_valued_mat(n, times(math, v.bs, shunt), times(math, v.bm, shunt));
    let mut a = accum_plus(math, acc, n, &r, &x, None, &b, len);
    if lt(ZERO, s.sline) {
        a.i_max = Some(times(math, s.sline, THOUSAND));
    }
    a
}

/// The warnings that a section gives rise to, each the first time.
pub open spec fn imp_said(st: ReaderV, imp: LineImpV) -> ReaderV {
    match imp {
        LineImpV::Explicit { r, x, g, b, n } => st.say_explicit(n),
        LineImpV::Sequence(s) => {
            let st = st.say_expanded();
            let st = if s.nph >= 2 && !s.has_zero {
                st.say_no_zero()
            } else {
                st
            };
            if s.nph == 2 {
                st.say_two_phase()
            } else {
                st
            }
        },
        LineImpV::Geometry => st,
    }
}

/// The totals with a section added.
pub open spec fn accumulated(
    m: Sem,
    acc: LineAccumV,
    imp: LineImpV,
    len: Bits,
    circuits: Bits,
    f: Bits,
) -> LineAccumV {
    match imp {
        LineImpV::Explicit { r, x, g, b, n } => accum_add(
            m,
            acc,
            n,
            counted_mat(m, r, n, circuits, true),
            counted_mat(m, x, n, circuits, true),
            counted_mat(m, g, n, circuits, false),
            counted_mat(m, b, n, circuits, false),
            len,
        ),
        LineImpV::Sequence(s) => add_sequence_of(m, acc, s, len, circuits, f),
        LineImpV::Geometry => acc,
    }
}

pub fn accumulate<C: Calc>(
    math: &C,
    st: &mut Reader,
    acc: LineAccum,
    imp: &LineImp,
    len: Bits,
    circuits: Bits,
    f: Bits,
) -> (a: LineAccum)
    requires
        acc@.wf(),
        imp@.wf(),
    ensures
        a@ == accumulated(math.sem(), acc@, imp@, len, circuits, f),
        a@.wf(),
        final(st)@ == imp_said(old(st)@, imp@),
{
    match imp {
        LineImp::Explicit { r, x, g, b, n } => {
            st.say_explicit(*n);
            let cr = count_mat(math, r, *n, circuits, true);
            let cx = count_mat(math, x, *n, circuits, true);
            let cg = count_mat(math, g, *n, circuits, false);
            let cb = count_mat(math, b, *n, circuits, false);
            accum_plus(math, &acc, *n, &cr, &cx, Some(&cg), &cb, len)
        },
        LineImp::Sequence(s) => {
            st.say_expanded();
            if s.nph >= 2 && !s.has_zero {
                st.say_no_zero();
            }
            if s.nph == 2 {
                st.say_two_phase();
            }
            add_sequence(math, &acc, s, len, circuits, f)
        },
        LineImp::Geometry => acc,
    }
}

/// A length where it is positive, else one metre.
pub open spec fn length_or_one(x: Bits) -> Bits {
    if num_lt(ZERO, x) {
        x
    } else {
        ONE
    }
}

/// The linecode of the totals: per metre, with half the shunt at each end.
pub open spec fn linecode_of(
    m: Sem,
    acc: LineAccumV,
    name: Seq<char>,
    fline: Bits,
) -> DistLineCodeV {
    let n = larger_of(acc.n, 1);
    let len = length_or_one(acc.length);
    let g = per_metre(m, grown(acc.g, n), len);
    let b = per_metre(m, grown(acc.b, n), len);
    DistLineCodeV {
        g_from: g,
        g_to: g,
        b_from: b,
        b_to: b,
        i_max: match acc.i_max {
            Some(i) => Some(repeat_of(m.times(i, fline), n)),
            None => None,
        },
        ..dist_line_code_of(
            name,
            per_metre(m, grown(acc.r, n), len),
            per_metre(m, grown(acc.x, n), len),
        )
    }
}

pub fn into_linecode<C: Calc>(math: &C, acc: &LineAccum, name: String, fline: Bits) -> (r:
    DistLineCode)
    requires
        acc@.wf(),
    ensures
        r@ == linecode_of(math.sem(), acc@, name@, fline),
{
    let n = if acc.n > 1 {
        acc.n
    } else {
        1
    };
    assert(views(acc.r@).len() == acc.r.len() && views(acc.x@).len() == acc.x.len() && views(
        acc.g@,
    ).len() == acc.g.len() && views(acc.b@).len() == acc.b.len());
    let len = if lt(ZERO, acc.length) {
        acc.length
    } else {
        ONE
    };
    let r = divide(math, &grow(&acc.r, n), len);
    let x = divide(math, &grow(&acc.x, n), len);
    let g = divide(math, &grow(&acc.g, n), len);
    let b = divide(math, &grow(&acc.b, n), len);
    let mut code = DistLineCode::new(name, r, x);
    code.g_from = copy_mat(&g);
    code.g_to = g;
    code.b_from = copy_mat(&b);
    code.b_to = b;
    match acc.i_max {
        Some(i) => {
            code.i_max = Some(repeat(times(math, i, fline), n));
        },
        None => {},
    }
    code
}

} // verus!
