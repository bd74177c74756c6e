//! Lines: `ElmLne` rows, the `ElmLnesec` sections that make some of them up, and
//! the linecodes they share.

use vstd::prelude::*;

use crate::dgs::impedance::{
    accum_new, accum_none, accumulate, accumulated, imp_said, into_linecode, larger_of,
    length_or_one, line_imp, line_imp_of, linecode_of, LineAccum, LineAccumV, LineImp, LineImpV,
};
use crate::dgs::scan::{
    int_of, integer, num, num_of, DgsDoc, DgsDocV, DgsRow, DgsRowV, DgsTable, DgsTableV,
};
use crate::dgs::state::{
    extras, extras_of, first_phases, numbers, numbers_of, phase_terminals, phases_up_to,
    terminals_of, Case, CaseV, Reader, ReaderV,
};
use crate::dgs::topology::{resolve, resolve_of, two_of, two_terminals, ConnV};
use crate::error::{ErrorV, Outcome, Result};
use crate::math::{
    abs, abs_of, is_nan, larger, le, lt, minus, num_le, num_lt, times, Bits, Calc, Sem, NANO, ONE,
    THOUSAND, ZERO,
};
use crate::model::{dist_line_of, DistLine, DistLineCode, DistLineCodeV, DistLineV};
use crate::text::{cat2, cat3, debug, debug_of, group_views, opt_view, same, views};

verus! {

// ---- sections --------------------------------------------------------------

/// Where a section stands among those of its line.
pub open spec fn index_of(m: Sem, decimal: char, t: DgsTableV, r: DgsRowV) -> Bits {
    match num_of(m, decimal, t, r, "index"@, ZERO) {
        Ok(x) => x,
        Err(_) => ZERO,
    }
}

/// Where an index goes among the first `j` sections: behind the last that it
/// does not come before.
pub open spec fn section_slot(s: Seq<(Bits, usize)>, key: Bits, j: int) -> int
    decreases j,
{
    if 0 < j <= s.len() && num_lt(key, s[j - 1].0) {
        section_slot(s, key, j - 1)
    } else {
        j
    }
}

/// The sections of a line among the first `n` rows, by index; those of one index
/// stay in file order.
pub open spec fn sections_n(m: Sem, decimal: char, t: DgsTableV, line: Seq<char>, n: nat) -> Seq<
    (Bits, usize),
>
    decreases n,
{
    if n == 0 {
        seq![]
    } else {
        let before = sections_n(m, decimal, t, line, (n - 1) as nat);
        let r = t.rows[n - 1];
        if t.ptr(r, "fold_id"@) == Some(line) {
            let key = index_of(m, decimal, t, r);
            before.insert(
                section_slot(before, key, before.len() as int),
                (key, (n - 1) as usize),
            )
        } else {
            before
        }
    }
}

proof fn lemma_slot(s: Seq<(Bits, usize)>, key: Bits, j: int)
    requires
        0 <= j <= s.len(),
    ensures
        0 <= section_slot(s, key, j) <= j,
        forall|k: int| section_slot(s, key, j) <= k < j ==> num_lt(key, (#[trigger] s[k]).0),
        section_slot(s, key, j) > 0 ==> !num_lt(key, s[section_slot(s, key, j) - 1].0),
    decreases j,
{
    if 0 < j && num_lt(key, s[j - 1].0) {
        lemma_slot(s, key, j - 1);
    }
}

/// Sections stand by index: none stands before one that it should follow, where
/// every index is a number.
pub proof fn lemma_sections_ascend(
    m: Sem,
    decimal: char,
    t: DgsTableV,
    line: Seq<char>,
    n: nat,
    i: int,
    j: int,
)
    requires
        n <= t.rows.len(),
        forall|k: int|
            0 <= k < n ==> !is_nan(index_of(m, decimal, t, #[trigger] t.rows[k])),
        0 <= i < j < sections_n(m, decimal, t, line, n).len(),
    ensures
        num_le(
            sections_n(m, decimal, t, line, n)[i].0,
            sections_n(m, decimal, t, line, n)[j].0,
        ),
        !is_nan(sections_n(m, decimal, t, line, n)[i].0),
        !is_nan(sections_n(m, decimal, t, line, n)[j].0),
    decreases n,
{
    let before = sections_n(m, decimal, t, line, (n - 1) as nat);
    let r = t.rows[n - 1];
    assert(!is_nan(index_of(m, decimal, t, t.rows[n - 1])));
    if t.ptr(r, "fold_id"@) == Some(line) {
        let key = index_of(m, decimal, t, r);
        let at = section_slot(before, key, before.len() as int);
        lemma_slot(before, key, before.len() as int);
        let after = before.insert(at, (key, (n - 1) as usize));
        let i0 = if i < at {
            i
        } else {
            i - 1
        };
        let j0 = if j < at {
            j
        } else {
            j - 1
        };
        if i != at && j != at {
            lemma_sections_ascend(m, decimal, t, line, (n - 1) as nat, i0, j0);
        } else if i == at {
            lemma_sections_number(m, decimal, t, line, (n - 1) as nat, j - 1);
            assert(num_lt(key, before[j - 1].0));
        } else {
            lemma_sections_number(m, decimal, t, line, (n - 1) as nat, i);
            lemma_sections_number(m, decimal, t, line, (n - 1) as nat, at - 1);
            if i < at - 1 {
                lemma_sections_ascend(m, decimal, t, line, (n - 1) as nat, i, at - 1);
            }
        }
    } else {
        lemma_sections_ascend(m, decimal, t, line, (n - 1) as nat, i, j);
    }
}

/// The index of a section is that of some row.
proof fn lemma_sections_number(
    m: Sem,
    decimal: char,
    t: DgsTableV,
    line: Seq<char>,
    n: nat,
    i: int,
)
    requires
        n <= t.rows.len(),
        forall|k: int|
            0 <= k < n ==> !is_nan(index_of(m, decimal, t, #[trigger] t.rows[k])),
        0 <= i < sections_n(m, decimal, t, line, n).len(),
    ensures
        !is_nan(sections_n(m, decimal, t, line, n)[i].0),
    decreases n,
{
    let before = sections_n(m, decimal, t, line, (n - 1) as nat);
    let r = t.rows[n - 1];
    assert(!is_nan(index_of(m, decimal, t, t.rows[n - 1])));
    if t.ptr(r, "fold_id"@) == Some(line) {
        let key = index_of(m, decimal, t, r);
        let at = section_slot(before, key, before.len() as int);
        lemma_slot(before, key, before.len() as int);
        if i < at {
            lemma_sections_number(m, decimal, t, line, (n - 1) as nat, i);
        } else if i > at {
            lemma_sections_number(m, decimal, t, line, (n - 1) as nat, i - 1);
        }
    } else {
        lemma_sections_number(m, decimal, t, line, (n - 1) as nat, i);
    }
}

fn sections<C: Calc>(math: &C, decimal: char, t: &DgsTable, line: &str) -> (r: Vec<(Bits, usize)>)
    ensures
        r@ == sections_n(math.sem(), decimal, t@, line@, t@.rows.len()),
        forall|k: int| 0 <= k < r.len() ==> (#[trigger] r@[k]).1 < t.rows.len(),
{
    let mut out: Vec<(Bits, usize)> = Vec::new();
    assert(out@ =~= seq![]);
    assert(t@.rows.len() == t.rows.len());
    let mut i: usize = 0;
    while i < t.rows.len()
        invariant
            i <= t.rows.len(),
            t@.rows.len() == t.rows.len(),
            out@ == sections_n(math.sem(), decimal, t@, line@, i as nat),
            forall|k: int| 0 <= k < out.len() ==> (#[trigger] out@[k]).1 < i,
        decreases t.rows.len() - i,
    {
        let row = &t.rows[i];
        assert(t@.rows[i as int] == row@);
        let mine = match t.ptr(row, "fold_id") {
            Some(p) => same(p.as_str(), line),
            None => false,
        };
        if mine {
            let key = match num(math, decimal, t, row, "index", ZERO) {
                Ok(x) => x,
                Err(_) => ZERO,
            };
            let mut j: usize = out.len();
            while j > 0 && lt(key, out[j - 1].0)
                invariant
                    j <= out.len(),
                    section_slot(out@, key, out.len() as int) == section_slot(
                        out@,
                        key,
                        j as int,
                    ),
                decreases j,
            {
                j = j - 1;
            }
            out.insert(j, (key, i));
        }
        i = i + 1;
    }
    out
}

// ---- one line --------------------------------------------------------------

/// What the sections of a line, or its own type, add up to; whether one has only
/// a geometry; and the type whose linecode other lines may share.
pub struct GatheredV {
    pub st: ReaderV,
    pub acc: LineAccumV,
    pub geometry: bool,
    pub key: Option<Seq<char>>,
}

/// A section read, unless an earlier one had only a geometry.
pub open spec fn section_step(
    m: Sem,
    doc: DgsDocV,
    t: DgsTableV,
    g: GatheredV,
    r: DgsRowV,
    line: Seq<char>,
    circuits: Bits,
    f: Bits,
) -> Outcome<GatheredV> {
    if g.geometry {
        Ok(g)
    } else {
        match num_of(m, doc.decimal, t, r, "dline"@, ZERO) {
            Err(e) => Err(e),
            Ok(d) => match line_imp_of(m, doc, t, r, line) {
                Err(e) => Err(e),
                Ok(LineImpV::Geometry) => Ok(GatheredV { geometry: true, ..g }),
                Ok(imp) => Ok(
                    GatheredV {
                        st: imp_said(g.st, imp),
                        acc: accumulated(m, g.acc, imp, m.times(d, THOUSAND), circuits, f),
                        ..g
                    },
                ),
            },
        }
    }
}

pub open spec fn gather_n(
    m: Sem,
    doc: DgsDocV,
    t: DgsTableV,
    st: ReaderV,
    order: Seq<(Bits, usize)>,
    line: Seq<char>,
    circuits: Bits,
    f: Bits,
    n: nat,
) -> Outcome<GatheredV>
    decreases n,
{
    if n == 0 {
        Ok(GatheredV { st, acc: accum_none(), geometry: false, key: None })
    } else {
        match gather_n(m, doc, t, st, order, line, circuits, f, (n - 1) as nat) {
            Err(e) => Err(e),
            Ok(g) => section_step(m, doc, t, g, t.rows[order[n - 1].1 as int], line, circuits, f),
        }
    }
}

proof fn lemma_gather_stop(
    m: Sem,
    doc: DgsDocV,
    t: DgsTableV,
    st: ReaderV,
    order: Seq<(Bits, usize)>,
    line: Seq<char>,
    circuits: Bits,
    f: Bits,
    k: nat,
    n: nat,
)
    requires
        k <= n,
        gather_n(m, doc, t, st, order, line, circuits, f, k) is Err,
    ensures
        gather_n(m, doc, t, st, order, line, circuits, f, n) == gather_n(
            m,
            doc,
            t,
            st,
            order,
            line,
            circuits,
            f,
            k,
        ),
    decreases n,
{
    if k < n {
        lemma_gather_stop(m, doc, t, st, order, line, circuits, f, k, (n - 1) as nat);
    }
}

pub struct Gathered {
    pub acc: LineAccum,
    pub geometry: bool,
    pub key: Option<String>,
}

/// A gathering beside the state it left.
pub open spec fn gathered_view(g: Gathered, st: ReaderV) -> GatheredV {
    GatheredV { st, acc: g.acc@, geometry: g.geometry, key: opt_view(g.key) }
}

fn gather_sections<C: Calc>(
    math: &C,
    doc: &DgsDoc,
    t: &DgsTable,
    st: &mut Reader,
    order: &Vec<(Bits, usize)>,
    line: &str,
    circuits: Bits,
    f: Bits,
) -> (r: Result<Gathered>)
    requires
        forall|k: int| 0 <= k < order.len() ==> (#[trigger] order@[k]).1 < t.rows.len(),
    ensures
        match r {
            Ok(g) => gather_n(
                math.sem(),
                doc@,
                t@,
                old(st)@,
                order@,
                line@,
                circuits,
                f,
                order@.len(),
            ) == Ok::<GatheredV, ErrorV>(gathered_view(g, final(st)@)) && g.acc@.wf(),
            Err(e) => gather_n(
                math.sem(),
                doc@,
                t@,
                old(st)@,
                order@,
                line@,
                circuits,
                f,
                order@.len(),
            ) == Err::<GatheredV, ErrorV>(e@),
        },
{
    let ghost m = math.sem();
    let ghost was = st@;
    let mut acc = accum_new();
    let mut geometry = false;
    let mut i: usize = 0;
    while i < order.len()
        invariant
            i <= order.len(),
            m == math.sem(),
            was == old(st)@,
            acc@.wf(),
            forall|k: int| 0 <= k < order.len() ==> (#[trigger] order@[k]).1 < t.rows.len(),
            gather_n(m, doc@, t@, was, order@, line@, circuits, f, i as nat) == Ok::<
                GatheredV,
                ErrorV,
            >((GatheredV { st: st@, acc: acc@, geometry, key: None })),
        decreases order.len() - i,
    {
        let at = order[i].1;
        assert(order@[i as int].1 < t.rows.len());
        let row = &t.rows[at];
        assert(t@.rows[at as int] == row@);
        if !geometry {
            let d = match num(math, doc.decimal, t, row, "dline", ZERO) {
                Ok(d) => d,
                Err(e) => {
                    proof {
                        lemma_gather_stop(
                            m,
                            doc@,
                            t@,
                            was,
                            order@,
                            line@,
                            circuits,
                            f,
                            (i + 1) as nat,
                            order@.len(),
                        );
                    }
                    return Err(e);
                },
            };
            let imp = match line_imp(math, doc, t, row, line) {
                Ok(imp) => imp,
                Err(e) => {
                    proof {
                        lemma_gather_stop(
                            m,
                            doc@,
                            t@,
                            was,
                            order@,
                            line@,
                            circuits,
                            f,
                            (i + 1) as nat,
                            order@.len(),
                        );
                    }
                    return Err(e);
                },
            };
            let bare = match &imp {
                LineImp::Geometry => true,
                _ => false,
            };
            if bare {
                geometry = true;
            } else {
                let len = times(math, d, THOUSAND);
                acc = accumulate(math, st, acc, &imp, len, circuits, f);
            }
        }
        i = i + 1;
    }
    Ok(Gathered { acc, geometry, key: None })
}

/// Whether a line is a single circuit that is not derated.
pub open spec fn underated(m: Sem, circuits: Bits, fline: Bits) -> bool {
    num_le(circuits, ONE) && num_lt(abs_of(m.minus(fline, ONE)), NANO)
}

/// What a line adds up to: its sections where it has any, else its own length
/// of its own type.
#[verifier::opaque]
pub open spec fn gather_of(
    m: Sem,
    doc: DgsDocV,
    st: ReaderV,
    t: DgsTableV,
    r: DgsRowV,
    circuits: Bits,
    fline: Bits,
    f: Bits,
) -> Outcome<GatheredV> {
    let line = t.id_of(r);
    let order = match doc.table("ElmLnesec"@) {
        Some(s) => sections_n(m, doc.decimal, s, line, s.rows.len()),
        None => seq![],
    };
    if order.len() > 0 {
        gather_n(
            m,
            doc,
            doc.table("ElmLnesec"@)->0,
            st,
            order,
            line,
            circuits,
            f,
            order.len(),
        )
    } else {
        match num_of(m, doc.decimal, t, r, "dline"@, ONE) {
            Err(e) => Err(e),
            Ok(d) => match line_imp_of(m, doc, t, r, line) {
                Err(e) => Err(e),
                Ok(LineImpV::Geometry) => Ok(
                    GatheredV { st, acc: accum_none(), geometry: true, key: None },
                ),
                Ok(imp) => Ok(
                    GatheredV {
                        st: imp_said(st, imp),
                        acc: accumulated(
                            m,
                            accum_none(),
                            imp,
                            m.times(d, THOUSAND),
                            circuits,
                            f,
                        ),
                        geometry: false,
                        key: if imp is Sequence && underated(m, circuits, fline) {
                            t.ptr(r, "typ_id"@)
                        } else {
                            None
                        },
                    },
                ),
            },
        }
    }
}

fn gather<C: Calc>(
    math: &C,
    doc: &DgsDoc,
    st: &mut Reader,
    t: &DgsTable,
    r: &DgsRow,
    line: &str,
    circuits: Bits,
    fline: Bits,
    f: Bits,
) -> (g: Result<Gathered>)
    requires
        line@ == t@.id_of(r@),
    ensures
        match g {
            Ok(g) => gather_of(math.sem(), doc@, old(st)@, t@, r@, circuits, fline, f) == Ok::<
                GatheredV,
                ErrorV,
            >(gathered_view(g, final(st)@)) && g.acc@.wf(),
            Err(e) => gather_of(math.sem(), doc@, old(st)@, t@, r@, circuits, fline, f) == Err::<
                GatheredV,
                ErrorV,
            >(e@),
        },
{
    reveal(gather_of);
    match doc.table("ElmLnesec") {
        Some(s) => {
            let order = sections(math, doc.decimal, s, line);
            if order.len() > 0 {
                return gather_sections(math, doc, s, st, &order, line, circuits, f);
            }
        },
        None => {},
    }
    let d = match num(math, doc.decimal, t, r, "dline", ONE) {
        Ok(d) => d,
        Err(e) => {
            return Err(e);
        },
    };
    let imp = match line_imp(math, doc, t, r, line) {
        Ok(i) => i,
        Err(e) => {
            return Err(e);
        },
    };
    let (bare, sequence) = match &imp {
        LineImp::Geometry => (true, false),
        LineImp::Sequence(_) => (false, true),
        _ => (false, false),
    };
    let acc = accum_new();
    if bare {
        return Ok(Gathered { acc, geometry: true, key: None });
    }
    let key = if sequence && le(circuits, ONE) && lt(abs(minus(math, fline, ONE)), NANO) {
        t.ptr(r, "typ_id")
    } else {
        None
    };
    let len = times(math, d, THOUSAND);
    let acc = accumulate(math, st, acc, &imp, len, circuits, f);
    Ok(Gathered { acc, geometry: false, key })
}

// ---- linecodes -------------------------------------------------------------

/// The raw name of the linecode that a line makes: that of its type where it may
/// be shared, else that of the line.
pub open spec fn code_base(doc: DgsDocV, key: Option<Seq<char>>, line: Seq<char>) -> Seq<char> {
    let own = line + "_lc"@;
    match key {
        Some(k) => match resolve_of(doc, k) {
            Some((t, r)) => match t.text(r, "loc_name"@) {
                Some(n) => n,
                None => own,
            },
            None => own,
        },
        None => own,
    }
}

/// The linecode of a line: the one its type has already, else a new one, which
/// the type then has where it may be shared. Gives the state, the linecodes and
/// the name.
#[verifier::opaque]
pub open spec fn code_step(
    m: Sem,
    doc: DgsDocV,
    st: ReaderV,
    codes: Seq<DistLineCodeV>,
    acc: LineAccumV,
    key: Option<Seq<char>>,
    line: Seq<char>,
    fline: Bits,
) -> (ReaderV, Seq<DistLineCodeV>, Seq<char>) {
    let cached = match key {
        Some(k) => st.cached(k),
        None => None,
    };
    match cached {
        Some(name) => (st, codes, name),
        None => {
            let base = code_base(doc, key, line);
            let name = st.linecode_name(base);
            let named = st.name_linecode(base);
            (
                match key {
                    Some(k) => named.remember(k, name),
                    None => named,
                },
                codes.push(linecode_of(m, acc, name, fline)),
                name,
            )
        },
    }
}

fn line_code<C: Calc>(
    math: &C,
    doc: &DgsDoc,
    st: &mut Reader,
    codes: &mut Vec<DistLineCode>,
    acc: &LineAccum,
    key: &Option<String>,
    line: &str,
    fline: Bits,
) -> (name: String)
    requires
        acc@.wf(),
    ensures
        (final(st)@, views(final(codes)@), name@) == code_step(
            math.sem(),
            doc@,
            old(st)@,
            views(old(codes)@),
            acc@,
            opt_view(*key),
            line@,
            fline,
        ),
{
    broadcast use group_views;

    reveal(code_step);
    match key {
        Some(k) => {
            match st.cached(k.as_str()) {
                Some(name) => {
                    return name;
                },
                None => {},
            }
            let base = match resolve(doc, k.as_str()) {
                Some((t, r)) => match t.text(r, "loc_name") {
                    Some(n) => n.clone(),
                    None => cat2(line, "_lc"),
                },
                None => cat2(line, "_lc"),
            };
            let name = st.name_linecode(base.as_str());
            codes.push(into_linecode(math, acc, name.clone(), fline));
            st.remember(k.as_str(), name.as_str());
            name
        },
        None => {
            let base = cat2(line, "_lc");
            let name = st.name_linecode(base.as_str());
            codes.push(into_linecode(math, acc, name.clone(), fline));
            name
        },
    }
}

// ---- all lines -------------------------------------------------------------

/// The state, the linecodes and the lines.
pub struct LinesV {
    pub st: ReaderV,
    pub codes: Seq<DistLineCodeV>,
    pub lines: Seq<DistLineV>,
}

/// Columns of a line that the mapping reads.
pub open spec fn line_consumed() -> Seq<Seq<char>> {
    seq!["typ_id"@, "dline"@, "fline"@, "nlnum"@, "outserv"@, "pStoch"@]
}

fn line_consumed_list() -> (r: Vec<&'static str>)
    ensures
        views(r@) == line_consumed(),
{
    let r: Vec<&'static str> = vec!["typ_id", "dline", "fline", "nlnum", "outserv", "pStoch"];
    assert(views(r@) =~= line_consumed());
    r
}

/// The name an element goes by before it is told apart: its own, else its
/// identity.
pub open spec fn raw_name(t: DgsTableV, r: DgsRowV) -> Seq<char> {
    match t.text(r, "loc_name"@) {
        Some(n) => n,
        None => t.id_of(r),
    }
}

pub fn raw_name_of(t: &DgsTable, r: &DgsRow, id: &str) -> (n: String)
    requires
        id@ == t@.id_of(r@),
    ensures
        n@ == raw_name(t@, r@),
{
    match t.text(r, "loc_name") {
        Some(n) => n.clone(),
        None => id.to_owned(),
    }
}

/// A line that is in service, once its impedance is gathered: its conductors are
/// seen at both ends, and it is `1` to `n` at each.
#[verifier::opaque]
pub open spec fn placed_line(
    m: Sem,
    case: CaseV,
    l: LinesV,
    t: DgsTableV,
    r: DgsRowV,
    ends: (ConnV, ConnV),
    g: GatheredV,
    fline: Bits,
) -> LinesV {
    let length = length_or_one(g.acc.length);
    let acc = LineAccumV { length, ..g.acc };
    let (st, codes, code) = code_step(m, case.doc, g.st, l.codes, acc, g.key, t.id_of(r), fline);
    let phases = first_phases(larger_of(g.acc.n, 1));
    let from = case.root(ends.0.pos);
    let to = case.root(ends.1.pos);
    let st = st.touch(from, phases, false).touch(to, phases, false);
    let raw = raw_name(t, r);
    LinesV {
        st: st.name_elem(raw),
        codes,
        lines: l.lines.push(
            DistLineV {
                extras: extras_of(t, r, line_consumed()),
                ..dist_line_of(
                    st.elem_name(raw),
                    st.bus_id(from),
                    st.bus_id(to),
                    terminals_of(phases, false),
                    terminals_of(phases, false),
                    code,
                    length,
                )
            },
        ),
    }
}

/// A line read. One without two terminals is warned of, and so is one with only
/// a geometry or too many conductors; one that is out of service or behind an open switch is counted.
pub open spec fn line_step(
    m: Sem,
    case: CaseV,
    f: Bits,
    l: LinesV,
    t: DgsTableV,
    r: DgsRowV,
) -> Outcome<
    LinesV,
> {
    let d = case.doc.decimal;
    let id = t.id_of(r);
    match two_of(case.conns, id) {
        None => Ok(LinesV { st: l.st.unconnected("ElmLne"@, id), ..l }),
        Some(ends) => match int_of(m, d, t, r, "outserv"@, ZERO) {
            Err(e) => Err(e),
            Ok(out) => if out != 0 || !ends.0.closed || !ends.1.closed {
                Ok(LinesV { st: l.st.skip("ElmLne"@), ..l })
            } else {
                match numbers_of(m, d, (t, r), (t, r), line_asks()) {
                    Err(e) => Err(e),
                    Ok(v) => {
                        let circuits = m.max(v[0], ONE);
                        match gather_of(m, case.doc, l.st, t, r, circuits, v[1], f) {
                            Err(e) => Err(e),
                            Ok(g) => if g.geometry {
                                Ok(
                                    LinesV {
                                        st: g.st.warn(
                                            "line "@ + debug_of(id)
                                                + " references a geometry/cable-system type with no exported line parameters (R_c1/X_c1/B_c1); re-export from PowerFactory with calculated line parameters, or use a lumped TypLne. Line skipped"@,
                                        ),
                                        ..l
                                    },
                                )
                            } else if g.acc.n > 255 {
                                Ok(
                                    LinesV {
                                        st: g.st.warn(
                                            "line "@ + debug_of(id)
                                                + " has more conductors than a terminal can be numbered for (255); skipped"@,
                                        ),
                                        ..l
                                    },
                                )
                            } else {
                                Ok(placed_line(m, case, l, t, r, ends, g, v[1]))
                            },
                        }
                    },
                }
            },
        },
    }
}

/// What is asked of a line: its parallel circuits and its derating.
pub open spec fn line_asks() -> Seq<(bool, Seq<char>, Bits)> {
    seq![(false, "nlnum"@, ONE), (false, "fline"@, ONE)]
}

fn line_ask_list() -> (r: Vec<(bool, &'static str, Bits)>)
    ensures
        views(r@) == line_asks(),
        r.len() == 2,
{
    let r: Vec<(bool, &'static str, Bits)> = vec![(false, "nlnum", ONE), (false, "fline", ONE)];
    assert(views(r@) =~= line_asks());
    r
}

/// The lines so far, over views.
pub open spec fn lines_view(st: ReaderV, codes: Seq<DistLineCode>, lines: Seq<DistLine>) -> LinesV {
    LinesV { st, codes: views(codes), lines: views(lines) }
}

fn place_line<C: Calc>(
    math: &C,
    case: &Case,
    st: &mut Reader,
    codes: &mut Vec<DistLineCode>,
    lines: &mut Vec<DistLine>,
    t: &DgsTable,
    r: &DgsRow,
    from: usize,
    to: usize,
    Ghost(ends): Ghost<(ConnV, ConnV)>,
    g: Gathered,
    fline: Bits,
    Ghost(before): Ghost<LinesV>,
)
    requires
        g.acc@.wf(),
        g.acc.n <= 255,
        ends.0.pos < case.roots@.len(),
        ends.1.pos < case.roots@.len(),
        from == case@.root(ends.0.pos),
        to == case@.root(ends.1.pos),
        before.codes == views(old(codes)@),
        before.lines == views(old(lines)@),
    ensures
        lines_view(final(st)@, final(codes)@, final(lines)@) == placed_line(
            math.sem(),
            case@,
            before,
            t@,
            r@,
            ends,
            gathered_view(g, old(st)@),
            fline,
        ),
{
    broadcast use group_views;

    reveal(placed_line);
    let id = t.id_of(r);
    let mut acc = g.acc;
    let n = if acc.n > 1 {
        acc.n
    } else {
        1
    };
    let length = if lt(ZERO, acc.length) {
        acc.length
    } else {
        ONE
    };
    acc.length = length;
    let code = line_code(math, case.doc, st, codes, &acc, &g.key, id.as_str(), fline);
    let phases = phases_up_to(n);
    st.touch(from, &phases, false);
    st.touch(to, &phases, false);
    let bf = st.bus_id(from);
    let bt = st.bus_id(to);
    let raw = raw_name_of(t, r, id.as_str());
    let name = st.name_elem(raw.as_str());
    let mut line = DistLine::new(
        name,
        bf,
        bt,
        phase_terminals(&phases, false),
        phase_terminals(&phases, false),
        code,
        length,
    );
    let consumed = line_consumed_list();
    line.extras = extras(t, r, &consumed);
    lines.push(line);
}

fn read_line<C: Calc>(
    math: &C,
    case: &Case,
    f: Bits,
    st: &mut Reader,
    codes: &mut Vec<DistLineCode>,
    lines: &mut Vec<DistLine>,
    t: &DgsTable,
    r: &DgsRow,
) -> (x: Result<()>)
    requires
        case@.wf(),
    ensures
        match x {
            Ok(_) => line_step(
                math.sem(),
                case@,
                f,
                lines_view(old(st)@, old(codes)@, old(lines)@),
                t@,
                r@,
            ) == Ok::<LinesV, ErrorV>(lines_view(final(st)@, final(codes)@, final(lines)@)),
            Err(e) => line_step(
                math.sem(),
                case@,
                f,
                lines_view(old(st)@, old(codes)@, old(lines)@),
                t@,
                r@,
            ) == Err::<LinesV, ErrorV>(e@),
        },
{
    let ghost before = lines_view(st@, codes@, lines@);
    let d = case.doc.decimal;
    let id = t.id_of(r);
    let (a, b) = match two_terminals(&case.conns, id.as_str(), Ghost(case.roots@.len())) {
        Some(p) => p,
        None => {
            st.unconnected("ElmLne", id.as_str());
            return Ok(());
        },
    };
    let out = match integer(math, d, t, r, "outserv", ZERO) {
        Ok(x) => x,
        Err(e) => {
            return Err(e);
        },
    };
    if out != 0 || !a.closed || !b.closed {
        st.skip("ElmLne");
        return Ok(());
    }
    let asks = line_ask_list();
    let v = match numbers(math, d, (t, r), (t, r), &asks) {
        Ok(v) => v,
        Err(e) => {
            return Err(e);
        },
    };
    let circuits = larger(math, v[0], ONE);
    let g = match gather(math, case.doc, st, t, r, id.as_str(), circuits, v[1], f) {
        Ok(g) => g,
        Err(e) => {
            return Err(e);
        },
    };
    if g.geometry {
        let shown = debug(id.as_str());
        st.warn(
            cat3(
                "line ",
                shown.as_str(),
                " references a geometry/cable-system type with no exported line parameters (R_c1/X_c1/B_c1); re-export from PowerFactory with calculated line parameters, or use a lumped TypLne. Line skipped",
            ),
        );
        return Ok(());
    }
    if g.acc.n > 255 {
        let shown = debug(id.as_str());
        st.warn(
            cat3(
                "line ",
                shown.as_str(),
                " has more conductors than a terminal can be numbered for (255); skipped",
            ),
        );
        return Ok(());
    }
    place_line(
        math,
        case,
        st,
        codes,
        lines,
        t,
        r,
        case.roots[a.pos],
        case.roots[b.pos],
        Ghost((a@, b@)),
        g,
        v[1],
        Ghost(before),
    );
    Ok(())
}

pub open spec fn lines_n(m: Sem, case: CaseV, f: Bits, l: LinesV, t: DgsTableV, n: nat) -> Outcome<
    LinesV,
>
    decreases n,
{
    if n == 0 {
        Ok(l)
    } else {
        match lines_n(m, case, f, l, t, (n - 1) as nat) {
            Err(e) => Err(e),
            Ok(l) => line_step(m, case, f, l, t, t.rows[n - 1]),
        }
    }
}

proof fn lemma_lines_stop(m: Sem, case: CaseV, f: Bits, l: LinesV, t: DgsTableV, k: nat, n: nat)
    requires
        k <= n,
        lines_n(m, case, f, l, t, k) is Err,
    ensures
        lines_n(m, case, f, l, t, n) == lines_n(m, case, f, l, t, k),
    decreases n,
{
    if k < n {
        lemma_lines_stop(m, case, f, l, t, k, (n - 1) as nat);
    }
}

/// The lines of a case, at the base frequency `f`.
#[verifier::opaque]
pub open spec fn lines_of(m: Sem, case: CaseV, f: Bits, st: ReaderV) -> Outcome<LinesV> {
    let l = LinesV { st, codes: seq![], lines: seq![] };
    match case.doc.table("ElmLne"@) {
        Some(t) => lines_n(m, case, f, l, t, t.rows.len()),
        None => Ok(l),
    }
}

pub fn lines<C: Calc>(math: &C, case: &Case, f: Bits, st: &mut Reader) -> (x: Result<
    (Vec<DistLineCode>, Vec<DistLine>),
>)
    requires
        case@.wf(),
    ensures
        match x {
            Ok(p) => lines_of(math.sem(), case@, f, old(st)@) == Ok::<LinesV, ErrorV>(
                lines_view(final(st)@, p.0@, p.1@),
            ),
            Err(e) => lines_of(math.sem(), case@, f, old(st)@) == Err::<LinesV, ErrorV>(e@),
        },
{
    broadcast use group_views;

    reveal(lines_of);
    let mut codes: Vec<DistLineCode> = Vec::new();
    let mut out: Vec<DistLine> = Vec::new();
    let ghost before = LinesV { st: st@, codes: seq![], lines: seq![] };
    assert(views(codes@) =~= seq![] && views(out@) =~= seq![]);
    let t = match case.doc.table("ElmLne") {
        Some(t) => t,
        None => {
            return Ok((codes, out));
        },
    };
    assert(t@.rows.len() == t.rows.len());
    let mut i: usize = 0;
    while i < t.rows.len()
        invariant
            i <= t.rows.len(),
            t@.rows.len() == t.rows.len(),
            case@.wf(),
            before == (LinesV { st: old(st)@, codes: seq![], lines: seq![] }),
            case@.doc.table("ElmLne"@) == Some(t@),
            lines_of(math.sem(), case@, f, old(st)@) == lines_n(
                math.sem(),
                case@,
                f,
                before,
                t@,
                t@.rows.len(),
            ),
            lines_n(math.sem(), case@, f, before, t@, i as nat) == Ok::<LinesV, ErrorV>(
                lines_view(st@, codes@, out@),
            ),
        decreases t.rows.len() - i,
    {
        assert(t@.rows[i as int] == t.rows@[i as int]@);
        match read_line(math, case, f, st, &mut codes, &mut out, t, &t.rows[i]) {
            Ok(_) => {},
            Err(e) => {
                proof {
                    lemma_lines_stop(
                        math.sem(),
                        case@,
                        f,
                        before,
                        t@,
                        (i + 1) as nat,
                        t@.rows.len(),
                    );
                }
                return Err(e);
            },
        }
        i = i + 1;
    }
    Ok((codes, out))
}

} // verus!
