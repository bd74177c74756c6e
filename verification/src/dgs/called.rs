//! Names of the elements of every network that is read from DGS.

use vstd::prelude::*;

use crate::dgs::injections::{
    class_of, element_step, elements_n, injections_of, loads_of, partial_said, placed_grid,
    placed_load, placed_machine, placed_shunt, InjV, Kind,
};
use crate::dgs::lines::{
    code_step, gather_n, gather_of, line_asks, line_step, lines_n, lines_of, placed_line,
    sections_n, GatheredV, LinesV,
};
use crate::dgs::network::{
    assembled, base_frequency_of, buses_n, couplers_of, grid_of, loose_n, named_n, network_of,
    roots_of, start_of, switches_n,
};
use crate::dgs::scan::{DgsDocV, DgsRowV, DgsTableV};
use crate::dgs::state::{
    base_of, free_from, lemma_sanitized_is_plain, lemma_unique_is_fresh, numbered_name, numbers_of,
    plain, sanitize_of, CaseV, ReaderV,
};
use crate::dgs::topology::{conns_of, two_of, ConnV};
use crate::dgs::transformers::{
    placed_three, placed_two, table_xfs, third_of, transformers_of, xf_step, xfs_n, XfsV,
};
use crate::error::Outcome;
use crate::math::{Bits, Sem, ONE};
use crate::model::{
    DistGeneratorV, DistLineV, DistLoadV, DistNetworkV, DistShuntV, DistSwitchV, DistTransformerV,
    VoltageSourceV,
};
use crate::numeral::{dec_of, lemma_dec_reads_back};

verus! {

// ---- names -----------------------------------------------------------------

/// A name of plain characters.
pub open spec fn plain_name(s: Seq<char>) -> bool {
    s.len() > 0 && forall|i: int| 0 <= i < s.len() ==> plain(#[trigger] s[i])
}

proof fn lemma_numbered(base: Seq<char>, n: nat)
    requires
        plain_name(base),
    ensures
        plain_name(numbered_name(base, n)),
{
    reveal_strlit("_");
    lemma_dec_reads_back(n);
    let s = numbered_name(base, n);
    assert forall|i: int| 0 <= i < s.len() implies plain(#[trigger] s[i]) by {
        if i < base.len() {
            assert(s[i] == base[i]);
        } else if i > base.len() {
            assert(s[i] == dec_of(n)[i - base.len() - 1]);
        }
    }
}

proof fn lemma_free_is_plain(used: Seq<Seq<char>>, base: Seq<char>, n: nat)
    requires
        plain_name(base),
    ensures
        plain_name(free_from(used, base, n)),
    decreases used.len() - n,
{
    lemma_numbered(base, n);
    if n < used.len() && used.contains(numbered_name(base, n)) {
        lemma_free_is_plain(used, base, n + 1);
    }
}

/// The name of an element is fresh and plain.
proof fn lemma_elem_name(st: ReaderV, raw: Seq<char>)
    ensures
        !st.used_elem.contains(st.elem_name(raw)),
        plain_name(st.elem_name(raw)),
        st.name_elem(raw).used_elem == st.used_elem.push(st.elem_name(raw)),
{
    reveal(ReaderV::elem_name);
    reveal(ReaderV::name_elem);
    let base = base_of(raw, "elem"@);
    lemma_unique_is_fresh(st.used_elem, base);
    reveal_strlit("elem");
    assert(plain_name(base)) by {
        assert forall|i: int| 0 <= i < base.len() implies plain(#[trigger] base[i]) by {
            if sanitize_of(raw).len() > 0 {
                lemma_sanitized_is_plain(raw, i);
            }
        }
    }
    lemma_free_is_plain(st.used_elem, base, 1);
}

/// Names that are plain, that were handed out, and of which none occurs twice.
pub open spec fn told_apart(used: Seq<Seq<char>>, all: Seq<Seq<char>>) -> bool {
    &&& all.no_duplicates()
    &&& forall|i: int| 0 <= i < all.len() ==> plain_name(#[trigger] all[i]) && used.contains(all[i])
}

/// One list of names has a new name, or none.
pub open spec fn one_more(
    u0: Seq<Seq<char>>,
    n0: Seq<Seq<char>>,
    u1: Seq<Seq<char>>,
    n1: Seq<Seq<char>>,
) -> bool {
    (u1 == u0 && n1 == n0) || exists|x: Seq<char>|
        u1 == #[trigger] u0.push(x) && n1 == n0.push(x) && !u0.contains(x) && plain_name(x)
}

proof fn lemma_one_more(
    u0: Seq<Seq<char>>,
    n0: Seq<Seq<char>>,
    u1: Seq<Seq<char>>,
    n1: Seq<Seq<char>>,
    a: Seq<Seq<char>>,
    b: Seq<Seq<char>>,
)
    requires
        told_apart(u0, a + n0 + b),
        one_more(u0, n0, u1, n1),
    ensures
        told_apart(u1, a + n1 + b),
{
    if !(u1 == u0 && n1 == n0) {
        let x = choose|x: Seq<char>|
            u1 == #[trigger] u0.push(x) && n1 == n0.push(x) && !u0.contains(x) && plain_name(x);
        let p = a + n0 + b;
        let q = a + n1 + b;
        let j = a.len() + n0.len();
        assert(q =~= p.insert(j as int, x));
        assert forall|i: int| 0 <= i < q.len() implies plain_name(#[trigger] q[i])
            && u1.contains(q[i]) && (i != j ==> q[i] != x) by {
            if i == j {
                assert(u1[u0.len() as int] == x);
            } else {
                let k = if i < j {
                    i
                } else {
                    i - 1
                };
                assert(q[i] == p[k]);
                assert(u0.contains(p[k]));
                let h = choose|h: int| 0 <= h < u0.len() && u0[h] == p[k];
                assert(u1[h] == p[k]);
            }
        }
        assert forall|i: int, k: int| 0 <= i < q.len() && 0 <= k < q.len() && i != k implies q[i]
            != q[k] by {
            let f = if i < j {
                i
            } else {
                i - 1
            };
            let g = if k < j {
                k
            } else {
                k - 1
            };
            if i != j && k != j {
                assert(q[i] == p[f] && q[k] == p[g]);
            } else {
                assert(q[i] == x || q[k] == x);
            }
        }
    }
}

broadcast proof fn lemma_warn_calls(st: ReaderV, x: Seq<char>)
    ensures
        (#[trigger] st.warn(x)).used_elem == st.used_elem,
{
    reveal(ReaderV::warn);
}

broadcast proof fn lemma_skip_calls(st: ReaderV, x: Seq<char>)
    ensures
        (#[trigger] st.skip(x)).used_elem == st.used_elem,
{
    reveal(ReaderV::skip);
}

broadcast proof fn lemma_default_calls(st: ReaderV, x: Seq<char>)
    ensures
        (#[trigger] st.default_phase(x)).used_elem == st.used_elem,
{
    reveal(ReaderV::default_phase);
}

broadcast proof fn lemma_explicit_calls(st: ReaderV, n: nat)
    ensures
        (#[trigger] st.say_explicit(n)).used_elem == st.used_elem,
{
    reveal(ReaderV::say_explicit);
    reveal(ReaderV::warn);
}

broadcast proof fn lemma_expanded_calls(st: ReaderV)
    ensures
        (#[trigger] st.say_expanded()).used_elem == st.used_elem,
{
    reveal(ReaderV::say_expanded);
    reveal(ReaderV::warn);
}

broadcast proof fn lemma_no_zero_calls(st: ReaderV)
    ensures
        (#[trigger] st.say_no_zero()).used_elem == st.used_elem,
{
    reveal(ReaderV::say_no_zero);
    reveal(ReaderV::warn);
}

broadcast proof fn lemma_two_phase_calls(st: ReaderV)
    ensures
        (#[trigger] st.say_two_phase()).used_elem == st.used_elem,
{
    reveal(ReaderV::say_two_phase);
    reveal(ReaderV::warn);
}

broadcast proof fn lemma_touch_calls(st: ReaderV, root: int, phases: Seq<u8>, neutral: bool)
    ensures
        (#[trigger] st.touch(root, phases, neutral)).used_elem == st.used_elem,
{
    reveal(ReaderV::touch);
}

broadcast group group_calls {
    lemma_warn_calls,
    lemma_skip_calls,
    lemma_default_calls,
    lemma_explicit_calls,
    lemma_expanded_calls,
    lemma_no_zero_calls,
    lemma_two_phase_calls,
    lemma_touch_calls,
}

// ---- the elements ----------------------------------------------------------

pub open spec fn line_names(s: Seq<DistLineV>) -> Seq<Seq<char>> {
    Seq::new(s.len(), |i: int| s[i].name)
}

pub open spec fn transformer_names(s: Seq<DistTransformerV>) -> Seq<Seq<char>> {
    Seq::new(s.len(), |i: int| s[i].name)
}

pub open spec fn load_names(s: Seq<DistLoadV>) -> Seq<Seq<char>> {
    Seq::new(s.len(), |i: int| s[i].name)
}

pub open spec fn generator_names(s: Seq<DistGeneratorV>) -> Seq<Seq<char>> {
    Seq::new(s.len(), |i: int| s[i].name)
}

pub open spec fn shunt_names(s: Seq<DistShuntV>) -> Seq<Seq<char>> {
    Seq::new(s.len(), |i: int| s[i].name)
}

pub open spec fn source_names(s: Seq<VoltageSourceV>) -> Seq<Seq<char>> {
    Seq::new(s.len(), |i: int| s[i].name)
}

pub open spec fn switch_names(s: Seq<DistSwitchV>) -> Seq<Seq<char>> {
    Seq::new(s.len(), |i: int| s[i].name)
}

/// The names of elements with one terminal.
pub open spec fn injection_names(x: InjV) -> Seq<Seq<char>> {
    load_names(x.loads) + generator_names(x.gens) + shunt_names(x.shunts) + source_names(x.sources)
}

/// The names of all elements of a network.
pub open spec fn element_names(net: DistNetworkV) -> Seq<Seq<char>> {
    line_names(net.lines) + transformer_names(net.transformers) + (load_names(net.loads)
        + generator_names(net.generators) + shunt_names(net.shunts) + source_names(net.sources))
        + switch_names(net.switches)
}

/// No two elements of a network go by one name, and every name is plain.
pub open spec fn well_named(net: DistNetworkV) -> bool {
    let all = element_names(net);
    all.no_duplicates() && forall|i: int| 0 <= i < all.len() ==> plain_name(#[trigger] all[i])
}

// ---- lines -----------------------------------------------------------------

proof fn lemma_gather_n_calls(
    m: Sem,
    doc: DgsDocV,
    t: DgsTableV,
    st: ReaderV,
    order: Seq<(Bits, usize)>,
    line: Seq<char>,
    circuits: Bits,
    f: Bits,
    n: nat,
)
    ensures
        gather_n(m, doc, t, st, order, line, circuits, f, n) matches Ok(g) ==> g.st.used_elem
            == st.used_elem,
    decreases n,
{
    broadcast use group_calls;

    if n > 0 {
        lemma_gather_n_calls(m, doc, t, st, order, line, circuits, f, (n - 1) as nat);
    }
}

proof fn lemma_gather_calls(
    m: Sem,
    doc: DgsDocV,
    st: ReaderV,
    t: DgsTableV,
    r: DgsRowV,
    circuits: Bits,
    fline: Bits,
    f: Bits,
)
    ensures
        gather_of(m, doc, st, t, r, circuits, fline, f) matches Ok(g) ==> g.st.used_elem
            == st.used_elem,
{
    broadcast use group_calls;

    reveal(gather_of);
    let line = t.id_of(r);
    match doc.table("ElmLnesec"@) {
        Some(s) => {
            let order = sections_n(m, doc.decimal, s, line, s.rows.len());
            lemma_gather_n_calls(m, doc, s, st, order, line, circuits, f, order.len());
        },
        None => {},
    }
}

/// A line read has a new name.
proof fn lemma_line_called(
    m: Sem,
    case: CaseV,
    l: LinesV,
    t: DgsTableV,
    r: DgsRowV,
    ends: (ConnV, ConnV),
    g: GatheredV,
    fline: Bits,
)
    requires
        g.st.used_elem == l.st.used_elem,
    ensures
        ({
            let a = placed_line(m, case, l, t, r, ends, g, fline);
            one_more(l.st.used_elem, line_names(l.lines), a.st.used_elem, line_names(a.lines))
        }),
{
    broadcast use group_calls;

    reveal(placed_line);
    reveal(code_step);
    reveal(ReaderV::name_linecode);
    reveal(ReaderV::remember);
    let a = placed_line(m, case, l, t, r, ends, g, fline);
    assert forall|st: ReaderV, raw: Seq<char>| !st.used_elem.contains(#[trigger] st.elem_name(raw))
        && plain_name(st.elem_name(raw)) && st.name_elem(raw).used_elem == st.used_elem.push(
        st.elem_name(raw),
    ) by {
        lemma_elem_name(st, raw);
    }
    let x = a.lines.last().name;
    assert(a.st.used_elem == l.st.used_elem.push(x));
    assert(line_names(a.lines) =~= line_names(l.lines).push(x));
}

proof fn lemma_lines_called(m: Sem, case: CaseV, f: Bits, l: LinesV, t: DgsTableV, n: nat)
    requires
        told_apart(l.st.used_elem, line_names(l.lines)),
    ensures
        lines_n(m, case, f, l, t, n) matches Ok(a) ==> told_apart(
            a.st.used_elem,
            line_names(a.lines),
        ),
    decreases n,
{
    broadcast use group_calls;

    if n > 0 {
        lemma_lines_called(m, case, f, l, t, (n - 1) as nat);
        if let Ok(b) = lines_n(m, case, f, l, t, (n - 1) as nat) {
            let r = t.rows[n - 1];
            let id = t.id_of(r);
            if let Some(ends) = two_of(case.conns, id) {
                if let Ok(v) = numbers_of(m, case.doc.decimal, (t, r), (t, r), line_asks()) {
                    let circuits = m.max(v[0], ONE);
                    lemma_gather_calls(m, case.doc, b.st, t, r, circuits, v[1], f);
                    if let Ok(g) = gather_of(m, case.doc, b.st, t, r, circuits, v[1], f) {
                        lemma_line_called(m, case, b, t, r, ends, g, v[1]);
                    }
                }
            }
            if let Ok(a) = line_step(m, case, f, b, t, r) {
                let none = Seq::<Seq<char>>::empty();
                let p = line_names(b.lines);
                let q = line_names(a.lines);
                assert(none + p + none =~= p);
                assert(none + q + none =~= q);
                assert(one_more(b.st.used_elem, p, a.st.used_elem, q));
                lemma_one_more(b.st.used_elem, p, a.st.used_elem, q, none, none);
            }
        }
    }
}

// ---- transformers ----------------------------------------------------------

proof fn lemma_xf_called(m: Sem, case: CaseV, three: bool, x: XfsV, t: DgsTableV, r: DgsRowV)
    ensures
        xf_step(m, case, three, x, t, r) matches Ok(a) ==> one_more(
            x.st.used_elem,
            transformer_names(x.xfs),
            a.st.used_elem,
            transformer_names(a.xfs),
        ),
{
    broadcast use group_calls;

    reveal(placed_two);
    reveal(placed_three);
    reveal(third_of);
    assert forall|st: ReaderV, raw: Seq<char>| !st.used_elem.contains(#[trigger] st.elem_name(raw))
        && plain_name(st.elem_name(raw)) && st.name_elem(raw).used_elem == st.used_elem.push(
        st.elem_name(raw),
    ) by {
        lemma_elem_name(st, raw);
    }
    if let Ok(a) = xf_step(m, case, three, x, t, r) {
        if a.xfs != x.xfs {
            let nm = a.xfs.last().name;
            assert(a.st.used_elem == x.st.used_elem.push(nm));
            assert(transformer_names(a.xfs) =~= transformer_names(x.xfs).push(nm));
        }
    }
}

proof fn lemma_xfs_called(
    m: Sem,
    case: CaseV,
    three: bool,
    x: XfsV,
    t: DgsTableV,
    n: nat,
    base: Seq<Seq<char>>,
)
    requires
        told_apart(x.st.used_elem, base + transformer_names(x.xfs)),
    ensures
        xfs_n(m, case, three, x, t, n) matches Ok(a) ==> told_apart(
            a.st.used_elem,
            base + transformer_names(a.xfs),
        ),
    decreases n,
{
    if n > 0 {
        lemma_xfs_called(m, case, three, x, t, (n - 1) as nat, base);
        if let Ok(b) = xfs_n(m, case, three, x, t, (n - 1) as nat) {
            lemma_xf_called(m, case, three, b, t, t.rows[n - 1]);
            if let Ok(a) = xf_step(m, case, three, b, t, t.rows[n - 1]) {
                let none = Seq::<Seq<char>>::empty();
                let p = transformer_names(b.xfs);
                let q = transformer_names(a.xfs);
                assert(base + p + none =~= base + p);
                assert(base + q + none =~= base + q);
                lemma_one_more(b.st.used_elem, p, a.st.used_elem, q, base, none);
            }
        }
    }
}

proof fn lemma_transformers_called(m: Sem, case: CaseV, st: ReaderV, base: Seq<Seq<char>>)
    requires
        told_apart(st.used_elem, base),
    ensures
        transformers_of(m, case, st) matches Ok(a) ==> told_apart(
            a.st.used_elem,
            base + transformer_names(a.xfs),
        ),
{
    reveal(transformers_of);
    let x = XfsV { st, xfs: seq![] };
    assert(base + transformer_names(x.xfs) =~= base);
    if let Some(t) = case.doc.table("ElmTr2"@) {
        lemma_xfs_called(m, case, false, x, t, t.rows.len(), base);
    }
    if let Ok(b) = table_xfs(m, case, false, x) {
        if let Some(t) = case.doc.table("ElmTr3"@) {
            lemma_xfs_called(m, case, true, b, t, t.rows.len(), base);
        }
    }
}

// ---- elements with one terminal ----------------------------------------------

proof fn lemma_element_called(m: Sem, case: CaseV, k: Kind, x: InjV, t: DgsTableV, r: DgsRowV,
    base: Seq<Seq<char>>)
    requires
        told_apart(x.st.used_elem, base + injection_names(x)),
    ensures
        element_step(m, case, k, x, t, r) matches Ok(a) ==> told_apart(
            a.st.used_elem,
            base + injection_names(a),
        ),
{
    broadcast use group_calls;

    reveal(placed_load);
    reveal(placed_machine);
    reveal(placed_grid);
    reveal(placed_shunt);
    assert forall|st: ReaderV, raw: Seq<char>| !st.used_elem.contains(#[trigger] st.elem_name(raw))
        && plain_name(st.elem_name(raw)) && st.name_elem(raw).used_elem == st.used_elem.push(
        st.elem_name(raw),
    ) by {
        lemma_elem_name(st, raw);
    }
    if let Ok(a) = element_step(m, case, k, x, t, r) {
        let u0 = x.st.used_elem;
        let u1 = a.st.used_elem;
        let l = load_names(x.loads);
        let g = generator_names(x.gens);
        let s = shunt_names(x.shunts);
        let v = source_names(x.sources);
        let none = Seq::<Seq<char>>::empty();
        assert(base + (l + g + s + v) =~= base + l + (g + s + v));
        assert(base + (l + g + s + v) =~= (base + l) + g + (s + v));
        assert(base + (l + g + s + v) =~= (base + l + g) + s + v);
        assert(base + (l + g + s + v) =~= (base + l + g + s) + v + none);
        if a.loads != x.loads {
            let q = load_names(a.loads);
            assert(q =~= l.push(a.loads.last().name));
            assert(u1 == u0.push(a.loads.last().name));
            lemma_one_more(u0, l, u1, q, base, g + s + v);
            assert(base + (q + g + s + v) =~= base + q + (g + s + v));
        } else if a.gens != x.gens {
            let q = generator_names(a.gens);
            assert(q =~= g.push(a.gens.last().name));
            assert(u1 == u0.push(a.gens.last().name));
            lemma_one_more(u0, g, u1, q, base + l, s + v);
            assert(base + (l + q + s + v) =~= (base + l) + q + (s + v));
        } else if a.shunts != x.shunts {
            let q = shunt_names(a.shunts);
            assert(q =~= s.push(a.shunts.last().name));
            assert(u1 == u0.push(a.shunts.last().name));
            lemma_one_more(u0, s, u1, q, base + l + g, v);
            assert(base + (l + g + q + v) =~= (base + l + g) + q + v);
        } else if a.sources != x.sources {
            let q = source_names(a.sources);
            assert(q =~= v.push(a.sources.last().name));
            assert(u1 == u0.push(a.sources.last().name));
            lemma_one_more(u0, v, u1, q, base + l + g + s, none);
            assert(base + (l + g + s + q) =~= (base + l + g + s) + q + none);
        }
    }
}

proof fn lemma_class_called(
    m: Sem,
    case: CaseV,
    k: Kind,
    x: InjV,
    t: DgsTableV,
    n: nat,
    base: Seq<Seq<char>>,
)
    requires
        told_apart(x.st.used_elem, base + injection_names(x)),
    ensures
        elements_n(m, case, k, x, t, n) matches Ok(a) ==> told_apart(
            a.st.used_elem,
            base + injection_names(a),
        ),
    decreases n,
{
    if n > 0 {
        lemma_class_called(m, case, k, x, t, (n - 1) as nat, base);
        if let Ok(b) = elements_n(m, case, k, x, t, (n - 1) as nat) {
            lemma_element_called(m, case, k, b, t, t.rows[n - 1], base);
        }
    }
}

/// The names so far are told apart, where anything was read.
spec fn so_far(x: Outcome<InjV>, base: Seq<Seq<char>>) -> bool {
    x matches Ok(a) ==> told_apart(a.st.used_elem, base + injection_names(a))
}

proof fn lemma_class_of(
    m: Sem,
    case: CaseV,
    k: Kind,
    class: Seq<char>,
    x: Outcome<InjV>,
    base: Seq<Seq<char>>,
)
    requires
        so_far(x, base),
    ensures
        so_far(class_of(m, case, k, class, x), base),
{
    if let Ok(b) = x {
        if let Some(t) = case.doc.table(class) {
            lemma_class_called(m, case, k, b, t, t.rows.len(), base);
        }
    }
}

proof fn lemma_injections_called(m: Sem, case: CaseV, st: ReaderV, base: Seq<Seq<char>>)
    requires
        told_apart(st.used_elem, base),
    ensures
        so_far(injections_of(m, case, st), base),
{
    broadcast use group_calls;

    reveal(injections_of);
    let x = InjV { st, loads: seq![], gens: seq![], shunts: seq![], sources: seq![] };
    assert(base + injection_names(x) =~= base);
    assert(so_far(Ok(x), base));
    let a = class_of(m, case, Kind::Load, "ElmLod"@, Ok(x));
    lemma_class_of(m, case, Kind::Load, "ElmLod"@, Ok(x), base);
    let b = class_of(m, case, Kind::SingleLoad, "ElmLodlv"@, a);
    lemma_class_of(m, case, Kind::SingleLoad, "ElmLodlv"@, a, base);
    lemma_class_of(m, case, Kind::SingleLoad, "ElmLodmv"@, b, base);
    if let Ok(y) = class_of(m, case, Kind::SingleLoad, "ElmLodmv"@, b) {
        let p = partial_said(case.doc, y);
        assert(p.st.used_elem == y.st.used_elem);
        assert(injection_names(p) == injection_names(y));
    }
    let d = loads_of(m, case, x);
    assert(so_far(d, base));
    let e = class_of(m, case, Kind::Machine, "ElmSym"@, d);
    lemma_class_of(m, case, Kind::Machine, "ElmSym"@, d, base);
    let f = class_of(m, case, Kind::Machine, "ElmGenstat"@, e);
    lemma_class_of(m, case, Kind::Machine, "ElmGenstat"@, e, base);
    let g = class_of(m, case, Kind::Machine, "ElmPvsys"@, f);
    lemma_class_of(m, case, Kind::Machine, "ElmPvsys"@, f, base);
    let h = class_of(m, case, Kind::Machine, "ElmAsm"@, g);
    lemma_class_of(m, case, Kind::Machine, "ElmAsm"@, g, base);
    let i = class_of(m, case, Kind::Grid, "ElmXnet"@, h);
    lemma_class_of(m, case, Kind::Grid, "ElmXnet"@, h, base);
    lemma_class_of(m, case, Kind::Shunt, "ElmShnt"@, i, base);
}

// ---- switches --------------------------------------------------------------

proof fn lemma_switches_called(
    case: CaseV,
    st: ReaderV,
    open: Seq<(usize, usize, Option<Seq<char>>)>,
    n: nat,
    base: Seq<Seq<char>>,
)
    requires
        told_apart(st.used_elem, base),
    ensures
        told_apart(
            switches_n(case, st, open, n).st.used_elem,
            base + switch_names(switches_n(case, st, open, n).switches),
        ),
    decreases n,
{
    let a = switches_n(case, st, open, n);
    if n == 0 {
        assert(base + switch_names(a.switches) =~= base);
    } else {
        lemma_switches_called(case, st, open, (n - 1) as nat, base);
        let b = switches_n(case, st, open, (n - 1) as nat);
        let raw = match open[n - 1].2 {
            Some(s) => s,
            None => "coup"@,
        };
        lemma_elem_name(b.st, raw);
        let none = Seq::<Seq<char>>::empty();
        let p = switch_names(b.switches);
        let q = switch_names(a.switches);
        if a.switches != b.switches {
            assert(q =~= p.push(b.st.elem_name(raw)));
        }
        assert(base + p + none =~= base + p);
        assert(base + q + none =~= base + q);
        lemma_one_more(b.st.used_elem, p, a.st.used_elem, q, base, none);
    }
}

// ---- the network -----------------------------------------------------------

proof fn lemma_loose_calls(st: ReaderV, loose: Seq<Seq<char>>, n: nat)
    ensures
        loose_n(st, loose, n).used_elem == st.used_elem,
    decreases n,
{
    broadcast use group_calls;

    if n > 0 {
        lemma_loose_calls(st, loose, (n - 1) as nat);
    }
}

proof fn lemma_named_calls(st: ReaderV, n: nat)
    ensures
        named_n(st, n).used_elem == st.used_elem,
    decreases n,
{
    if n > 0 {
        lemma_named_calls(st, (n - 1) as nat);
    }
}

/// Of every network read from a scanned document: no two elements go by one name,
/// and every name is of plain characters.
pub proof fn lemma_network_is_named(m: Sem, doc: DgsDocV, hint: Option<Seq<char>>)
    ensures
        network_of(m, doc, hint) matches Ok(net) ==> well_named(net),
{
    broadcast use group_calls;

    if let (Some(t), Ok(c)) = (doc.table("ElmTerm"@), couplers_of(m, doc)) {
        let roots = roots_of(t.rows.len(), c.closed);
        if let Ok(bus) = buses_n(m, doc.decimal, t, roots, t.rows.len()) {
            let g = grid_of(m, doc);
            let case = CaseV { doc, conns: conns_of(m, doc), roots };
            let st = start_of(g, c.loose, c.closed.len(), bus);
            let f = base_frequency_of(g);
            assert forall|s: ReaderV| (#[trigger] loose_n(s, c.loose, c.loose.len())).used_elem
                == s.used_elem by {
                lemma_loose_calls(s, c.loose, c.loose.len());
            }
            assert forall|s: ReaderV| (#[trigger] named_n(s, bus.len())).used_elem
                == s.used_elem by {
                lemma_named_calls(s, bus.len());
            }
            assert(st.used_elem.len() == 0);
            let l = LinesV { st, codes: seq![], lines: seq![] };
            assert(line_names(l.lines).len() == 0);
            reveal(lines_of);
            if let Some(lines) = doc.table("ElmLne"@) {
                lemma_lines_called(m, case, f, l, lines, lines.rows.len());
            }
            if let Ok(a) = lines_of(m, case, f, st) {
                let p = line_names(a.lines);
                lemma_transformers_called(m, case, a.st, p);
                if let Ok(x) = transformers_of(m, case, a.st) {
                    let q = p + transformer_names(x.xfs);
                    lemma_injections_called(m, case, x.st, q);
                    if let Ok(i) = injections_of(m, case, x.st) {
                        lemma_switches_called(
                            case,
                            i.st,
                            c.open,
                            c.open.len(),
                            q + injection_names(i),
                        );
                        let net = assembled(case, g, hint, c.open, a, x, i);
                        let s = switches_n(case, i.st, c.open, c.open.len()).switches;
                        assert(element_names(net) == q + injection_names(i) + switch_names(s));
                    }
                }
            }
        }
    }
}

} // verus!
