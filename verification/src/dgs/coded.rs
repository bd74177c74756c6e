//! Line codes of every network that is read from DGS.

use vstd::prelude::*;

use crate::dgs::impedance::{length_or_one, LineAccumV};
use crate::dgs::lines::{
    code_step, gather_n, gather_of, line_asks, line_step, lines_n, lines_of, placed_line,
    sections_n, GatheredV, LinesV,
};
use crate::dgs::network::{
    base_frequency_of, buses_n, couplers_of, grid_of, loose_n, named_n, network_of, roots_of,
    start_of, GridV,
};
use crate::dgs::scan::{DgsDocV, DgsRowV, DgsTableV};
use crate::dgs::state::{lemma_unique_is_fresh, numbers_of, unique_of, BusAccumV, CaseV, ReaderV};
use crate::dgs::topology::{conns_of, two_of, ConnV};
use crate::math::{Bits, Sem, ONE};
use crate::model::{DistLineCodeV, DistNetworkV};
use crate::order::{get_of, lemma_put, sorted};

verus! {

/// A name is that of one of some line codes.
pub open spec fn defines(codes: Seq<DistLineCodeV>, name: Seq<char>) -> bool {
    exists|k: int| 0 <= k < codes.len() && (#[trigger] codes[k]).name == name
}

/// No two line codes go by one name, and each line has one of them.
pub open spec fn well_coded(net: DistNetworkV) -> bool {
    &&& forall|i: int, j: int|
        0 <= i < j < net.linecodes.len() ==> (#[trigger] net.linecodes[i]).name != (
        #[trigger] net.linecodes[j]).name
    &&& forall|i: int|
        0 <= i < net.lines.len() ==> defines(net.linecodes, (#[trigger] net.lines[i]).linecode)
}

/// A state goes on without naming a line code.
pub open spec fn codes_stay(a: ReaderV, b: ReaderV) -> bool {
    a.used_linecode == b.used_linecode && a.cache == b.cache
}

pub broadcast proof fn lemma_warn_stays(st: ReaderV, x: Seq<char>)
    ensures
        codes_stay(st, #[trigger] st.warn(x)),
{
    reveal(ReaderV::warn);
}

pub broadcast proof fn lemma_skip_stays(st: ReaderV, x: Seq<char>)
    ensures
        codes_stay(st, #[trigger] st.skip(x)),
{
    reveal(ReaderV::skip);
}

pub broadcast proof fn lemma_name_stays(st: ReaderV, x: Seq<char>)
    ensures
        codes_stay(st, #[trigger] st.name_elem(x)),
{
    reveal(ReaderV::name_elem);
}

pub broadcast proof fn lemma_explicit_stays(st: ReaderV, n: nat)
    ensures
        codes_stay(st, #[trigger] st.say_explicit(n)),
{
    reveal(ReaderV::say_explicit);
    reveal(ReaderV::warn);
}

pub broadcast proof fn lemma_expanded_stays(st: ReaderV)
    ensures
        codes_stay(st, #[trigger] st.say_expanded()),
{
    reveal(ReaderV::say_expanded);
    reveal(ReaderV::warn);
}

pub broadcast proof fn lemma_no_zero_stays(st: ReaderV)
    ensures
        codes_stay(st, #[trigger] st.say_no_zero()),
{
    reveal(ReaderV::say_no_zero);
    reveal(ReaderV::warn);
}

pub broadcast proof fn lemma_two_phase_stays(st: ReaderV)
    ensures
        codes_stay(st, #[trigger] st.say_two_phase()),
{
    reveal(ReaderV::say_two_phase);
    reveal(ReaderV::warn);
}

pub broadcast group group_stays {
    lemma_warn_stays,
    lemma_skip_stays,
    lemma_name_stays,
    lemma_explicit_stays,
    lemma_expanded_stays,
    lemma_no_zero_stays,
    lemma_two_phase_stays,
}

/// The names of the line codes so far are those that were handed out, each once,
/// and those of the types are among them.
pub open spec fn coded(st: ReaderV, codes: Seq<DistLineCodeV>) -> bool {
    &&& codes.len() == st.used_linecode.len()
    &&& forall|i: int| 0 <= i < codes.len() ==> (#[trigger] codes[i]).name == st.used_linecode[i]
    &&& forall|i: int, j: int|
        0 <= i < j < codes.len() ==> (#[trigger] codes[i]).name != (#[trigger] codes[j]).name
    &&& sorted(st.cache)
    &&& forall|k: Seq<char>| (#[trigger] get_of(st.cache, k)) matches Some(n) ==> defines(codes, n)
}

/// The lines so far have line codes that there are.
pub open spec fn lines_coded(l: LinesV) -> bool {
    &&& coded(l.st, l.codes)
    &&& forall|i: int|
        0 <= i < l.lines.len() ==> defines(l.codes, (#[trigger] l.lines[i]).linecode)
}

proof fn lemma_code_step(
    m: Sem,
    doc: DgsDocV,
    st: ReaderV,
    codes: Seq<DistLineCodeV>,
    acc: LineAccumV,
    key: Option<Seq<char>>,
    line: Seq<char>,
    fline: Bits,
)
    requires
        coded(st, codes),
    ensures
        ({
            let (s, c, name) = code_step(m, doc, st, codes, acc, key, line, fline);
            &&& coded(s, c)
            &&& defines(c, name)
            &&& codes.len() <= c.len()
            &&& forall|i: int| 0 <= i < codes.len() ==> c[i] == codes[i]
        }),
{
    reveal(code_step);
    reveal(ReaderV::cached);
    reveal(ReaderV::linecode_name);
    reveal(ReaderV::name_linecode);
    reveal(ReaderV::remember);
    let (s, c, name) = code_step(m, doc, st, codes, acc, key, line, fline);
    if c.len() > codes.len() {
        assert(c[codes.len() as int].name == name);
        assert forall|i: int| 0 <= i < codes.len() implies (#[trigger] codes[i]).name != name by {
            if codes[i].name == name {
                assert(st.used_linecode[i] == name);
                assert(st.used_linecode.contains(name));
            }
            let base = choose|base: Seq<char>| name == #[trigger] unique_of(st.used_linecode, base);
            lemma_unique_is_fresh(st.used_linecode, base);
        }
        assert forall|k: Seq<char>| (#[trigger] get_of(st.cache, k)) matches Some(n) implies defines(
            c,
            get_of(st.cache, k)->0,
        ) by {
            let n = get_of(st.cache, k)->0;
            assert(defines(codes, n));
            let h = choose|h: int| 0 <= h < codes.len() && (#[trigger] codes[h]).name == n;
            assert(c[h].name == n);
        }
        if let Some(k) = key {
            lemma_put(st.cache, k, name);
        }
    }
}

proof fn lemma_gather_n_stays(
    m: Sem,
    doc: DgsDocV,
    t: DgsTableV,
    st: ReaderV,
    order: Seq<(Bits, usize)>,
    line: Seq<char>,
    circuits: Bits,
    f: Bits,
    n: nat,
)
    ensures
        gather_n(m, doc, t, st, order, line, circuits, f, n) matches Ok(g) ==> codes_stay(st, g.st),
    decreases n,
{
    broadcast use group_stays;

    if n > 0 {
        lemma_gather_n_stays(m, doc, t, st, order, line, circuits, f, (n - 1) as nat);
    }
}

pub proof fn lemma_gather_stays(
    m: Sem,
    doc: DgsDocV,
    st: ReaderV,
    t: DgsTableV,
    r: DgsRowV,
    circuits: Bits,
    fline: Bits,
    f: Bits,
)
    ensures
        gather_of(m, doc, st, t, r, circuits, fline, f) matches Ok(g) ==> codes_stay(st, g.st),
{
    broadcast use group_stays;

    reveal(gather_of);
    let line = t.id_of(r);
    match doc.table("ElmLnesec"@) {
        Some(s) => {
            let order = sections_n(m, doc.decimal, s, line, s.rows.len());
            lemma_gather_n_stays(m, doc, s, st, order, line, circuits, f, order.len());
        },
        None => {},
    }
}

proof fn lemma_placed(
    m: Sem,
    case: CaseV,
    l: LinesV,
    t: DgsTableV,
    r: DgsRowV,
    ends: (ConnV, ConnV),
    g: GatheredV,
    fline: Bits,
)
    requires
        lines_coded(l),
        codes_stay(l.st, g.st),
    ensures
        lines_coded(placed_line(m, case, l, t, r, ends, g, fline)),
{
    broadcast use group_stays;

    reveal(placed_line);
    reveal(ReaderV::touch);
    let acc = LineAccumV { length: length_or_one(g.acc.length), ..g.acc };
    let (s, codes, code) = code_step(m, case.doc, g.st, l.codes, acc, g.key, t.id_of(r), fline);
    assert(coded(g.st, l.codes));
    lemma_code_step(m, case.doc, g.st, l.codes, acc, g.key, t.id_of(r), fline);
    let a = placed_line(m, case, l, t, r, ends, g, fline);
    assert(codes_stay(s, a.st));
    assert(a.codes == codes);
    assert forall|i: int| 0 <= i < a.lines.len() implies defines(
        a.codes,
        (#[trigger] a.lines[i]).linecode,
    ) by {
        if i < l.lines.len() {
            assert(a.lines[i] == l.lines[i]);
            assert(defines(l.codes, l.lines[i].linecode));
            let k = choose|k: int|
                0 <= k < l.codes.len() && (#[trigger] l.codes[k]).name == l.lines[i].linecode;
            assert(a.codes[k].name == l.lines[i].linecode);
        } else {
            assert(a.lines[i].linecode == code);
        }
    }
}

proof fn lemma_step(m: Sem, case: CaseV, f: Bits, l: LinesV, t: DgsTableV, r: DgsRowV)
    requires
        lines_coded(l),
    ensures
        line_step(m, case, f, l, t, r) matches Ok(a) ==> lines_coded(a),
{
    broadcast use group_stays;

    let id = t.id_of(r);
    if let Some(ends) = two_of(case.conns, id) {
        if let Ok(v) = numbers_of(m, case.doc.decimal, (t, r), (t, r), line_asks()) {
            let circuits = m.max(v[0], ONE);
            lemma_gather_stays(m, case.doc, l.st, t, r, circuits, v[1], f);
            if let Ok(g) = gather_of(m, case.doc, l.st, t, r, circuits, v[1], f) {
                lemma_placed(m, case, l, t, r, ends, g, v[1]);
            }
        }
    }
}

proof fn lemma_lines_n(m: Sem, case: CaseV, f: Bits, l: LinesV, t: DgsTableV, n: nat)
    requires
        lines_coded(l),
    ensures
        lines_n(m, case, f, l, t, n) matches Ok(a) ==> lines_coded(a),
    decreases n,
{
    if n > 0 {
        lemma_lines_n(m, case, f, l, t, (n - 1) as nat);
        if let Ok(b) = lines_n(m, case, f, l, t, (n - 1) as nat) {
            lemma_step(m, case, f, b, t, t.rows[n - 1]);
        }
    }
}

pub proof fn lemma_loose_stays(st: ReaderV, loose: Seq<Seq<char>>, n: nat)
    ensures
        codes_stay(st, loose_n(st, loose, n)),
    decreases n,
{
    broadcast use group_stays;

    if n > 0 {
        lemma_loose_stays(st, loose, (n - 1) as nat);
    }
}

proof fn lemma_named_stays(st: ReaderV, n: nat)
    ensures
        codes_stay(st, named_n(st, n)),
    decreases n,
{
    if n > 0 {
        lemma_named_stays(st, (n - 1) as nat);
    }
}

/// The reading starts without line codes.
proof fn lemma_start_uncoded(g: GridV, loose: Seq<Seq<char>>, fused: nat, bus: Seq<BusAccumV>)
    ensures
        coded(start_of(g, loose, fused, bus), seq![]),
{
    broadcast use group_stays;

    assert forall|st: ReaderV| codes_stay(st, #[trigger] loose_n(st, loose, loose.len())) by {
        lemma_loose_stays(st, loose, loose.len());
    }
    assert forall|st: ReaderV| codes_stay(st, #[trigger] named_n(st, bus.len())) by {
        lemma_named_stays(st, bus.len());
    }
    let st = start_of(g, loose, fused, bus);
    assert(st.used_linecode.len() == 0 && st.cache.len() == 0);
    reveal(get_of);
}

/// Of every network read from a scanned document: no two line codes go by one
/// name, and the line code of each line is one of them.
pub proof fn lemma_network_is_coded(m: Sem, doc: DgsDocV, hint: Option<Seq<char>>)
    ensures
        network_of(m, doc, hint) matches Ok(net) ==> well_coded(net),
{
    if let (Some(t), Ok(c)) = (doc.table("ElmTerm"@), couplers_of(m, doc)) {
        let roots = roots_of(t.rows.len(), c.closed);
        if let Ok(bus) = buses_n(m, doc.decimal, t, roots, t.rows.len()) {
            let g = grid_of(m, doc);
            let case = CaseV { doc, conns: conns_of(m, doc), roots };
            let st = start_of(g, c.loose, c.closed.len(), bus);
            lemma_start_uncoded(g, c.loose, c.closed.len(), bus);
            let f = base_frequency_of(g);
            let l = LinesV { st, codes: seq![], lines: seq![] };
            reveal(lines_of);
            if let Some(lines) = doc.table("ElmLne"@) {
                lemma_lines_n(m, case, f, l, lines, lines.rows.len());
            }
            assert(lines_of(m, case, f, st) matches Ok(a) ==> lines_coded(a));
        }
    }
}

} // verus!
