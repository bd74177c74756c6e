//! What holds of every network that is read from DGS.

use vstd::prelude::*;

use crate::dgs::called::{lemma_network_is_named, well_named};
use crate::dgs::coded::{lemma_network_is_coded, well_coded};
use crate::dgs::impedance::{larger_of, length_or_one, LineAccumV};
use crate::dgs::injections::{
    class_of, counted_as, element_of, element_step, elements_n, grid_asks, injections_of, limits_of,
    load_asks, load_power_of, loads_of, machine_asks, partial_said, phase_or_one, phases3,
    placed_grid, placed_load, placed_machine, placed_shunt, shunt_asks, single_of, InjV, Kind,
    LimitsV, LoadPower,
};
use crate::dgs::lines::{
    code_step, gather_n, gather_of, line_asks, line_step, lines_n, lines_of, placed_line,
    sections_n, GatheredV, LinesV,
};
use crate::dgs::network::{
    assembled, base_frequency_of, bus_of, buses_n, couplers_n, couplers_of, couplers_within,
    elements_of, finished_n, grid_of, lemma_loose_keeps, loose_n, named_n, network_of, roots_of,
    start_of, switches_n, CouplersV, GridV,
};
use crate::dgs::scan::{table_from, DgsDocV, DgsRowV, DgsTableV};
use crate::dgs::state::{
    base_of, first_phases, lemma_unique_is_fresh, numbers_of, phases_put_n, terminals_of, unique_of,
    BusAccumV, CaseV, ReaderV,
};
use crate::dgs::topology::{
    conn_from, conns_n, conns_of, fused_n, last_row, lemma_root_is_smallest, one_of, two_of, within,
    ConnV,
};
use crate::dgs::transformers::{
    is_wye, placed_three, placed_two, resistance_column, table_xfs, third_of, three_asks, three_of,
    transformers_of, two_asks, two_ratings_of, type_of, xf_step, xfs_n, TwoRatings, XfsV,
};
use crate::error::{ErrorV, Outcome};
use crate::math::{Bits, Sem, ONE};
use crate::model::{DistBusV, DistLineV, DistNetworkV, DistTransformerV};
use crate::numeral::dec_of;
use crate::order::{byte_put_of, byte_slot};

verus! {

// ---- buses only grow -------------------------------------------------------

/// A bus keeps its name, and its conductors only grow.
pub open spec fn bus_grows(a: BusAccumV, b: BusAccumV) -> bool {
    &&& a.live == b.live
    &&& a.id == b.id
    &&& a.neutral ==> b.neutral
    &&& forall|p: u8| a.phases.contains(p) ==> b.phases.contains(p)
}

/// Every bus keeps its name, and its conductors only grow.
pub open spec fn grows(a: ReaderV, b: ReaderV) -> bool {
    &&& a.bus.len() == b.bus.len()
    &&& forall|i: int| 0 <= i < a.bus.len() ==> bus_grows(a.bus[i], #[trigger] b.bus[i])
}

broadcast proof fn lemma_warn_keeps(st: ReaderV, x: Seq<char>)
    ensures
        (#[trigger] st.warn(x)).bus == st.bus,
{
    reveal(ReaderV::warn);
}

broadcast proof fn lemma_skip_keeps(st: ReaderV, x: Seq<char>)
    ensures
        (#[trigger] st.skip(x)).bus == st.bus,
{
    reveal(ReaderV::skip);
}

broadcast proof fn lemma_default_keeps(st: ReaderV, x: Seq<char>)
    ensures
        (#[trigger] st.default_phase(x)).bus == st.bus,
{
    reveal(ReaderV::default_phase);
}

broadcast proof fn lemma_name_keeps(st: ReaderV, x: Seq<char>)
    ensures
        (#[trigger] st.name_elem(x)).bus == st.bus,
{
    reveal(ReaderV::name_elem);
}

broadcast proof fn lemma_code_keeps(st: ReaderV, x: Seq<char>)
    ensures
        (#[trigger] st.name_linecode(x)).bus == st.bus,
{
    reveal(ReaderV::name_linecode);
}

broadcast proof fn lemma_remember_keeps(st: ReaderV, x: Seq<char>, y: Seq<char>)
    ensures
        (#[trigger] st.remember(x, y)).bus == st.bus,
{
    reveal(ReaderV::remember);
}

broadcast proof fn lemma_explicit_keeps(st: ReaderV, n: nat)
    ensures
        (#[trigger] st.say_explicit(n)).bus == st.bus,
{
    reveal(ReaderV::say_explicit);
    reveal(ReaderV::warn);
}

broadcast proof fn lemma_expanded_keeps(st: ReaderV)
    ensures
        (#[trigger] st.say_expanded()).bus == st.bus,
{
    reveal(ReaderV::say_expanded);
    reveal(ReaderV::warn);
}

broadcast proof fn lemma_no_zero_keeps(st: ReaderV)
    ensures
        (#[trigger] st.say_no_zero()).bus == st.bus,
{
    reveal(ReaderV::say_no_zero);
    reveal(ReaderV::warn);
}

broadcast proof fn lemma_two_phase_keeps(st: ReaderV)
    ensures
        (#[trigger] st.say_two_phase()).bus == st.bus,
{
    reveal(ReaderV::say_two_phase);
    reveal(ReaderV::warn);
}

broadcast group group_keeps {
    lemma_warn_keeps,
    lemma_skip_keeps,
    lemma_default_keeps,
    lemma_name_keeps,
    lemma_code_keeps,
    lemma_remember_keeps,
    lemma_explicit_keeps,
    lemma_expanded_keeps,
    lemma_no_zero_keeps,
    lemma_two_phase_keeps,
}

proof fn lemma_grows_trans(a: ReaderV, b: ReaderV, c: ReaderV)
    requires
        grows(a, b),
        grows(b, c),
    ensures
        grows(a, c),
{
    assert forall|i: int| 0 <= i < a.bus.len() implies bus_grows(a.bus[i], #[trigger] c.bus[i]) by {
        assert(bus_grows(a.bus[i], b.bus[i]));
        assert(bus_grows(b.bus[i], c.bus[i]));
    }
}

/// Putting a number in a list keeps what it held and adds the number.
proof fn lemma_byte_put(s: Seq<u8>, x: u8)
    ensures
        byte_put_of(s, x).contains(x),
        forall|p: u8| s.contains(p) ==> #[trigger] byte_put_of(s, x).contains(p),
{
    let i = byte_slot(s, x, 0);
    lemma_byte_slot(s, x, 0);
    let r = byte_put_of(s, x);
    if i < s.len() && s[i] == x {
        assert(r[i] == x);
    } else {
        assert(r == s.insert(i, x));
        assert(r[i] == x);
        assert forall|p: u8| s.contains(p) implies #[trigger] r.contains(p) by {
            let k = choose|k: int| 0 <= k < s.len() && s[k] == p;
            if k < i {
                assert(r[k] == p);
            } else {
                assert(r[k + 1] == p);
            }
        }
    }
}

proof fn lemma_byte_slot(s: Seq<u8>, x: u8, i: int)
    requires
        0 <= i <= s.len(),
    ensures
        i <= byte_slot(s, x, i) <= s.len(),
    decreases s.len() - i,
{
    if i < s.len() && x > s[i] {
        lemma_byte_slot(s, x, i + 1);
    }
}

proof fn lemma_phases_put(s: Seq<u8>, phases: Seq<u8>, n: nat)
    requires
        n <= phases.len(),
    ensures
        forall|p: u8| s.contains(p) ==> #[trigger] phases_put_n(s, phases, n).contains(p),
        forall|i: int| 0 <= i < n ==> phases_put_n(s, phases, n).contains(#[trigger] phases[i]),
    decreases n,
{
    if n > 0 {
        lemma_phases_put(s, phases, (n - 1) as nat);
        lemma_byte_put(phases_put_n(s, phases, (n - 1) as nat), phases[n - 1]);
    }
}

/// Conductors seen on a bus stay there.
proof fn lemma_touch(st: ReaderV, root: int, phases: Seq<u8>, neutral: bool)
    requires
        st.has_bus(root),
    ensures
        grows(st, st.touch(root, phases, neutral)),
        st.touch(root, phases, neutral).has_bus(root),
        ({
            let b = st.touch(root, phases, neutral).bus[root];
            &&& forall|i: int| 0 <= i < phases.len() ==> b.phases.contains(#[trigger] phases[i])
            &&& neutral ==> b.neutral
        }),
{
    reveal(ReaderV::touch);
    lemma_phases_put(st.bus[root].phases, phases, phases.len());
}

// ---- sites -----------------------------------------------------------------

/// Whether a bus has a terminal: that of a conductor seen on it, or the neutral
/// that an element asked for.
pub open spec fn on_bus(b: BusAccumV, t: Seq<char>) -> bool {
    ||| exists|i: int| 0 <= i < b.phases.len() && #[trigger] dec_of(b.phases[i] as nat) == t
    ||| b.neutral && t == "4"@
}

/// Whether an element that names a bus and terminals sits on that bus, on
/// terminals the bus has.
pub open spec fn sited(st: ReaderV, bus: Seq<char>, map: Seq<Seq<char>>) -> bool {
    exists|root: int| #[trigger] st.has_bus(root) && st.bus[root].id == bus && forall|k: int|
        0 <= k < map.len() ==> on_bus(st.bus[root], #[trigger] map[k])
}

proof fn lemma_on_bus_grows(a: BusAccumV, b: BusAccumV, t: Seq<char>)
    requires
        bus_grows(a, b),
        on_bus(a, t),
    ensures
        on_bus(b, t),
{
    if exists|i: int| 0 <= i < a.phases.len() && #[trigger] dec_of(a.phases[i] as nat) == t {
        let i = choose|i: int|
            0 <= i < a.phases.len() && #[trigger] dec_of(a.phases[i] as nat) == t;
        assert(a.phases.contains(a.phases[i]));
        assert(b.phases.contains(a.phases[i]));
        let j = choose|j: int| 0 <= j < b.phases.len() && b.phases[j] == a.phases[i];
        assert(dec_of(b.phases[j] as nat) == t);
    }
}

proof fn lemma_sited_grows(a: ReaderV, b: ReaderV, bus: Seq<char>, map: Seq<Seq<char>>)
    requires
        grows(a, b),
        sited(a, bus, map),
    ensures
        sited(b, bus, map),
{
    let root = choose|root: int| #[trigger] a.has_bus(root) && a.bus[root].id == bus && forall|k: int|
        0 <= k < map.len() ==> on_bus(a.bus[root], #[trigger] map[k]);
    assert(bus_grows(a.bus[root], b.bus[root]));
    assert(b.has_bus(root));
    assert forall|k: int| 0 <= k < map.len() implies on_bus(b.bus[root], #[trigger] map[k]) by {
        lemma_on_bus_grows(a.bus[root], b.bus[root], map[k]);
    }
}

/// Conductors seen on a bus, by their terminal names, are on it.
proof fn lemma_touch_sites(st: ReaderV, root: int, phases: Seq<u8>, neutral: bool)
    requires
        st.has_bus(root),
    ensures
        grows(st, st.touch(root, phases, neutral)),
        st.touch(root, phases, neutral).has_bus(root),
        sited(
            st.touch(root, phases, neutral),
            st.touch(root, phases, neutral).bus_id(root),
            terminals_of(phases, neutral),
        ),
{
    lemma_touch(st, root, phases, neutral);
    let after = st.touch(root, phases, neutral);
    let map = terminals_of(phases, neutral);
    assert forall|k: int| 0 <= k < map.len() implies on_bus(after.bus[root], #[trigger] map[k]) by {
        if k < phases.len() {
            assert(map[k] == dec_of(phases[k] as nat));
            assert(after.bus[root].phases.contains(phases[k]));
            let j = choose|j: int|
                0 <= j < after.bus[root].phases.len() && after.bus[root].phases[j] == phases[k];
            assert(dec_of(after.bus[root].phases[j] as nat) == map[k]);
        }
    }
    assert(after.bus[root].id == after.bus_id(root));
}

/// Every terminal position leads to a bus.
pub open spec fn rooted(case: CaseV, st: ReaderV) -> bool {
    &&& case.wf()
    &&& forall|p: int| 0 <= p < case.roots.len() ==> st.has_bus(#[trigger] case.roots[p] as int)
}

proof fn lemma_rooted_grows(case: CaseV, a: ReaderV, b: ReaderV)
    requires
        rooted(case, a),
        grows(a, b),
    ensures
        rooted(case, b),
{
    assert forall|p: int| 0 <= p < case.roots.len() implies b.has_bus(
        #[trigger] case.roots[p] as int,
    ) by {
        let r = case.roots[p] as int;
        assert(a.has_bus(r));
        assert(bus_grows(a.bus[r], b.bus[r]));
    }
}

proof fn lemma_conn_within(case: CaseV, id: Seq<char>, side: Option<i64>, i: int)
    requires
        case.wf(),
        0 <= i <= case.conns.len(),
    ensures
        conn_from(case.conns, id, side, i) matches Some(c) ==> c.pos
            < case.roots.len(),
    decreases case.conns.len() - i,
{
    if i < case.conns.len() {
        lemma_conn_within(case, id, side, i + 1);
    }
}

proof fn lemma_has_root(case: CaseV, st: ReaderV, pos: usize)
    requires
        rooted(case, st),
        pos < case.roots.len(),
    ensures
        st.has_bus(case.root(pos)),
{
    assert(st.has_bus(case.roots[pos as int] as int));
}

// ---- lines -----------------------------------------------------------------

pub open spec fn lines_sited(st: ReaderV, lines: Seq<DistLineV>) -> bool {
    forall|i: int|
        0 <= i < lines.len() ==> sited(
            st,
            (#[trigger] lines[i]).bus_from,
            lines[i].terminal_map_from,
        ) && sited(st, lines[i].bus_to, lines[i].terminal_map_to)
}

proof fn lemma_gather_n_keeps(
    m: Sem,
    doc: DgsDocV,
    t: DgsTableV,
    st: ReaderV,
    order: Seq<(Bits, usize)>,
    line: Seq<char>,
    circuits: Bits,
    f: Bits,
    n: nat,
)
    ensures
        gather_n(m, doc, t, st, order, line, circuits, f, n) matches Ok(g) ==> g.st.bus == st.bus,
    decreases n,
{
    broadcast use group_keeps;

    if n > 0 {
        lemma_gather_n_keeps(m, doc, t, st, order, line, circuits, f, (n - 1) as nat);
    }
}

proof fn lemma_gather_keeps(
    m: Sem,
    doc: DgsDocV,
    st: ReaderV,
    t: DgsTableV,
    r: DgsRowV,
    circuits: Bits,
    fline: Bits,
    f: Bits,
)
    ensures
        gather_of(m, doc, st, t, r, circuits, fline, f) matches Ok(g) ==> g.st.bus == st.bus,
{
    broadcast use group_keeps;

    reveal(gather_of);
    let line = t.id_of(r);
    match doc.table("ElmLnesec"@) {
        Some(s) => {
            let order = sections_n(m, doc.decimal, s, line, s.rows.len());
            lemma_gather_n_keeps(m, doc, s, st, order, line, circuits, f, order.len());
        },
        None => {},
    }
}

proof fn lemma_placed_line(
    m: Sem,
    case: CaseV,
    l: LinesV,
    t: DgsTableV,
    r: DgsRowV,
    ends: (ConnV, ConnV),
    g: GatheredV,
    fline: Bits,
)
    requires
        rooted(case, l.st),
        lines_sited(l.st, l.lines),
        g.st.bus == l.st.bus,
        ends.0.pos < case.roots.len(),
        ends.1.pos < case.roots.len(),
    ensures
        ({
            let a = placed_line(m, case, l, t, r, ends, g, fline);
            grows(l.st, a.st) && lines_sited(a.st, a.lines)
        }),
{
    broadcast use group_keeps;

    reveal(placed_line);
    reveal(code_step);
    let a = placed_line(m, case, l, t, r, ends, g, fline);
    let acc = LineAccumV {
        length: length_or_one(g.acc.length),
        ..g.acc
    };
    let (s0, codes, code) = code_step(m, case.doc, g.st, l.codes, acc, g.key, t.id_of(r), fline);
    assert(s0.bus == l.st.bus);
    let phases = first_phases(larger_of(g.acc.n, 1));
    let from = case.root(ends.0.pos);
    let to = case.root(ends.1.pos);
    lemma_has_root(case, l.st, ends.0.pos);
    lemma_has_root(case, l.st, ends.1.pos);
    lemma_touch_sites(s0, from, phases, false);
    let s1 = s0.touch(from, phases, false);
    assert(bus_grows(s0.bus[to], s1.bus[to]));
    lemma_touch_sites(s1, to, phases, false);
    let s2 = s1.touch(to, phases, false);
    assert(bus_grows(s1.bus[from], s2.bus[from]));
    assert(s1.bus_id(from) == s2.bus_id(from));
    lemma_sited_grows(s1, s2, s1.bus_id(from), terminals_of(phases, false));
    lemma_grows_trans(s0, s1, s2);
    assert(a.st.bus == s2.bus);
    assert(grows(l.st, a.st));
    let new = a.lines.last();
    assert(sited(a.st, new.bus_from, new.terminal_map_from)) by {
        lemma_sited_same(s2, a.st, new.bus_from, new.terminal_map_from);
    }
    assert(sited(a.st, new.bus_to, new.terminal_map_to)) by {
        lemma_sited_same(s2, a.st, new.bus_to, new.terminal_map_to);
    }
    assert forall|i: int| 0 <= i < a.lines.len() implies sited(
        a.st,
        (#[trigger] a.lines[i]).bus_from,
        a.lines[i].terminal_map_from,
    ) && sited(a.st, a.lines[i].bus_to, a.lines[i].terminal_map_to) by {
        if i < l.lines.len() {
            assert(a.lines[i] == l.lines[i]);
            lemma_sited_grows(l.st, a.st, l.lines[i].bus_from, l.lines[i].terminal_map_from);
            lemma_sited_grows(l.st, a.st, l.lines[i].bus_to, l.lines[i].terminal_map_to);
        } else {
            assert(a.lines[i] == new);
        }
    }
}

proof fn lemma_sited_same(a: ReaderV, b: ReaderV, bus: Seq<char>, map: Seq<Seq<char>>)
    requires
        a.bus == b.bus,
        sited(a, bus, map),
    ensures
        sited(b, bus, map),
{
    assert(grows(a, b));
    lemma_sited_grows(a, b, bus, map);
}

proof fn lemma_line_step(m: Sem, case: CaseV, f: Bits, l: LinesV, t: DgsTableV, r: DgsRowV)
    requires
        rooted(case, l.st),
        lines_sited(l.st, l.lines),
    ensures
        line_step(m, case, f, l, t, r) matches Ok(a) ==> grows(l.st, a.st) && lines_sited(
            a.st,
            a.lines,
        ),
{
    broadcast use group_keeps;

    let id = t.id_of(r);
    lemma_conn_within(case, id, Some(0), 0);
    lemma_conn_within(case, id, Some(1), 0);
    match line_step(m, case, f, l, t, r) {
        Ok(a) => {
            if a.st.bus == l.st.bus && a.lines == l.lines {
                assert(grows(l.st, a.st));
                assert forall|i: int| 0 <= i < a.lines.len() implies sited(
                    a.st,
                    (#[trigger] a.lines[i]).bus_from,
                    a.lines[i].terminal_map_from,
                ) && sited(a.st, a.lines[i].bus_to, a.lines[i].terminal_map_to) by {
                    lemma_sited_same(
                        l.st,
                        a.st,
                        l.lines[i].bus_from,
                        l.lines[i].terminal_map_from,
                    );
                    lemma_sited_same(l.st, a.st, l.lines[i].bus_to, l.lines[i].terminal_map_to);
                }
            }
            match two_of(case.conns, id) {
                Some(ends) => {
                    let d = case.doc.decimal;
                    match numbers_of(
                        m,
                        d,
                        (t, r),
                        (t, r),
                        line_asks(),
                    ) {
                        Ok(v) => {
                            let circuits = m.max(v[0], ONE);
                            lemma_gather_keeps(m, case.doc, l.st, t, r, circuits, v[1], f);
                            match gather_of(m, case.doc, l.st, t, r, circuits, v[1], f) {
                                Ok(g) => {
                                    lemma_placed_line(m, case, l, t, r, ends, g, v[1]);
                                },
                                Err(_) => {},
                            }
                        },
                        Err(_) => {},
                    }
                },
                None => {},
            }
        },
        Err(_) => {},
    }
}

proof fn lemma_lines_n(m: Sem, case: CaseV, f: Bits, l: LinesV, t: DgsTableV, n: nat)
    requires
        rooted(case, l.st),
        lines_sited(l.st, l.lines),
    ensures
        lines_n(m, case, f, l, t, n) matches Ok(a) ==> grows(l.st, a.st) && lines_sited(
            a.st,
            a.lines,
        ),
    decreases n,
{
    if n == 0 {
        assert(grows(l.st, l.st));
    } else {
        lemma_lines_n(m, case, f, l, t, (n - 1) as nat);
        match lines_n(m, case, f, l, t, (n - 1) as nat) {
            Ok(b) => {
                lemma_rooted_grows(case, l.st, b.st);
                lemma_line_step(m, case, f, b, t, t.rows[n - 1]);
                match line_step(m, case, f, b, t, t.rows[n - 1]) {
                    Ok(a) => {
                        lemma_grows_trans(l.st, b.st, a.st);
                    },
                    Err(_) => {},
                }
            },
            Err(_) => {},
        }
    }
}

proof fn lemma_lines(m: Sem, case: CaseV, f: Bits, st: ReaderV)
    requires
        rooted(case, st),
    ensures
        lines_of(m, case, f, st) matches Ok(a) ==> grows(st, a.st) && lines_sited(a.st, a.lines),
{
    reveal(lines_of);
    let l = LinesV { st, codes: seq![], lines: seq![] };
    assert(grows(st, st));
    match case.doc.table("ElmLne"@) {
        Some(t) => {
            lemma_lines_n(m, case, f, l, t, t.rows.len());
        },
        None => {},
    }
}

// ---- transformers ----------------------------------------------------------

pub open spec fn xfs_sited(st: ReaderV, xfs: Seq<DistTransformerV>) -> bool {
    forall|i: int, k: int|
        0 <= i < xfs.len() && 0 <= k < xfs[i].windings.len() ==> sited(
            st,
            (#[trigger] xfs[i].windings[k]).bus,
            xfs[i].windings[k].terminal_map,
        )
}

proof fn lemma_xfs_sited_grows(a: ReaderV, b: ReaderV, xfs: Seq<DistTransformerV>)
    requires
        grows(a, b),
        xfs_sited(a, xfs),
    ensures
        xfs_sited(b, xfs),
{
    assert forall|i: int, k: int| 0 <= i < xfs.len() && 0 <= k < xfs[i].windings.len() implies sited(
        b,
        (#[trigger] xfs[i].windings[k]).bus,
        xfs[i].windings[k].terminal_map,
    ) by {
        lemma_sited_grows(a, b, xfs[i].windings[k].bus, xfs[i].windings[k].terminal_map);
    }
}

proof fn lemma_xfs_sited_push(st: ReaderV, xfs: Seq<DistTransformerV>, x: DistTransformerV)
    requires
        xfs_sited(st, xfs),
        forall|k: int|
            0 <= k < x.windings.len() ==> sited(
                st,
                (#[trigger] x.windings[k]).bus,
                x.windings[k].terminal_map,
            ),
    ensures
        xfs_sited(st, xfs.push(x)),
{
    let after = xfs.push(x);
    assert forall|i: int, k: int|
        0 <= i < after.len() && 0 <= k < after[i].windings.len() implies sited(
        st,
        (#[trigger] after[i].windings[k]).bus,
        after[i].windings[k].terminal_map,
    ) by {
        if i < xfs.len() {
            assert(after[i] == xfs[i]);
            assert(sited(st, xfs[i].windings[k].bus, xfs[i].windings[k].terminal_map));
        } else {
            assert(after[i] == x);
        }
    }
}

proof fn lemma_placed_two(
    case: CaseV,
    x: XfsV,
    t: DgsTableV,
    r: DgsRowV,
    ty: (DgsTableV, DgsRowV),
    ends: (ConnV, ConnV),
    k: TwoRatings,
)
    requires
        rooted(case, x.st),
        xfs_sited(x.st, x.xfs),
        ends.0.pos < case.roots.len(),
        ends.1.pos < case.roots.len(),
    ensures
        ({
            let a = placed_two(case, x, t, r, ty, ends, k);
            grows(x.st, a.st) && xfs_sited(a.st, a.xfs)
        }),
{
    broadcast use group_keeps;

    reveal(placed_two);
    let a = placed_two(case, x, t, r, ty, ends, k);
    let new = a.xfs.last();
    let high = case.root(ends.0.pos);
    let low = case.root(ends.1.pos);
    lemma_has_root(case, x.st, ends.0.pos);
    lemma_has_root(case, x.st, ends.1.pos);
    let ch = new.windings[0].conn;
    let cl = new.windings[1].conn;
    let phases = first_phases(k.phases as nat);
    let wh = is_wye(ch);
    let wl = is_wye(cl);
    lemma_touch_sites(x.st, high, phases, wh);
    let s1 = x.st.touch(high, phases, wh);
    assert(bus_grows(x.st.bus[low], s1.bus[low]));
    lemma_touch_sites(s1, low, phases, wl);
    let s2 = s1.touch(low, phases, wl);
    assert(bus_grows(s1.bus[high], s2.bus[high]));
    assert(s1.bus_id(high) == s2.bus_id(high));
    lemma_sited_grows(s1, s2, s1.bus_id(high), terminals_of(phases, wh));
    lemma_grows_trans(x.st, s1, s2);
    assert(a.st.bus == s2.bus);
    assert(grows(x.st, a.st));
    lemma_sited_same(s2, a.st, new.windings[0].bus, new.windings[0].terminal_map);
    lemma_sited_same(s2, a.st, new.windings[1].bus, new.windings[1].terminal_map);
    lemma_xfs_sited_grows(x.st, a.st, x.xfs);
    lemma_xfs_sited_push(a.st, x.xfs, new);
}

proof fn lemma_third(
    m: Sem,
    st: ReaderV,
    root: int,
    ty: (DgsTableV, DgsRowV),
    column: Seq<char>,
    kv: Bits,
    mva: Bits,
)
    requires
        st.has_bus(root),
    ensures
        ({
            let (s, w) = third_of(m, st, root, ty, column, kv, mva);
            grows(st, s) && sited(s, w.bus, w.terminal_map)
        }),
{
    let (s, w) = third_of(m, st, root, ty, column, kv, mva);
    lemma_touch_sites(st, root, first_phases(3), is_wye(w.conn));
}

proof fn lemma_placed_three(
    m: Sem,
    case: CaseV,
    x: XfsV,
    t: DgsTableV,
    r: DgsRowV,
    ty: (DgsTableV, DgsRowV),
    ends: (ConnV, ConnV, ConnV),
    v: Seq<Bits>,
)
    requires
        rooted(case, x.st),
        xfs_sited(x.st, x.xfs),
        ends.0.pos < case.roots.len(),
        ends.1.pos < case.roots.len(),
        ends.2.pos < case.roots.len(),
    ensures
        ({
            let a = placed_three(m, case, x, t, r, ty, ends, v);
            grows(x.st, a.st) && xfs_sited(a.st, a.xfs)
        }),
{
    broadcast use group_keeps;

    reveal(placed_three);
    let a = placed_three(m, case, x, t, r, ty, ends, v);
    let new = a.xfs.last();
    lemma_has_root(case, x.st, ends.0.pos);
    lemma_third(m, x.st, case.root(ends.0.pos), ty, "tr3cn_h"@, v[6], v[7]);
    let (s1, w1) = third_of(m, x.st, case.root(ends.0.pos), ty, "tr3cn_h"@, v[6], v[7]);
    lemma_rooted_grows(case, x.st, s1);
    lemma_has_root(case, s1, ends.1.pos);
    lemma_third(m, s1, case.root(ends.1.pos), ty, "tr3cn_m"@, v[8], v[9]);
    let (s2, w2) = third_of(m, s1, case.root(ends.1.pos), ty, "tr3cn_m"@, v[8], v[9]);
    lemma_rooted_grows(case, s1, s2);
    lemma_has_root(case, s2, ends.2.pos);
    lemma_third(m, s2, case.root(ends.2.pos), ty, "tr3cn_l"@, v[10], v[11]);
    let (s3, w3) = third_of(m, s2, case.root(ends.2.pos), ty, "tr3cn_l"@, v[10], v[11]);
    lemma_grows_trans(x.st, s1, s2);
    lemma_grows_trans(x.st, s2, s3);
    lemma_grows_trans(s1, s2, s3);
    lemma_sited_grows(s1, s3, w1.bus, w1.terminal_map);
    lemma_sited_grows(s2, s3, w2.bus, w2.terminal_map);
    assert(a.st.bus == s3.bus);
    assert(grows(x.st, a.st));
    assert(new.windings == seq![w1, w2, w3]);
    lemma_sited_same(s3, a.st, w1.bus, w1.terminal_map);
    lemma_sited_same(s3, a.st, w2.bus, w2.terminal_map);
    lemma_sited_same(s3, a.st, w3.bus, w3.terminal_map);
    lemma_xfs_sited_grows(x.st, a.st, x.xfs);
    lemma_xfs_sited_push(a.st, x.xfs, new);
}

proof fn lemma_xf_step(m: Sem, case: CaseV, three: bool, x: XfsV, t: DgsTableV, r: DgsRowV)
    requires
        rooted(case, x.st),
        xfs_sited(x.st, x.xfs),
    ensures
        xf_step(m, case, three, x, t, r) matches Ok(a) ==> grows(x.st, a.st) && xfs_sited(
            a.st,
            a.xfs,
        ),
{
    broadcast use group_keeps;

    let id = t.id_of(r);
    let d = case.doc.decimal;
    lemma_conn_within(case, id, Some(0), 0);
    lemma_conn_within(case, id, Some(1), 0);
    lemma_conn_within(case, id, Some(2), 0);
    match xf_step(m, case, three, x, t, r) {
        Ok(a) => {
            if a.st.bus == x.st.bus && a.xfs == x.xfs {
                assert(grows(x.st, a.st));
                lemma_xfs_sited_grows(x.st, a.st, x.xfs);
            }
            if three {
                match (
                    three_of(case.conns, id),
                    type_of(case.doc, t, r, "TypTr3"@),
                ) {
                    (Some(ends), Ok(ty)) => {
                        match numbers_of(
                            m,
                            d,
                            (t, r),
                            ty,
                            three_asks(),
                        ) {
                            Ok(v) => {
                                lemma_placed_three(m, case, x, t, r, ty, ends, v);
                            },
                            Err(_) => {},
                        }
                    },
                    _ => {},
                }
            } else {
                match (
                    two_of(case.conns, id),
                    type_of(case.doc, t, r, "TypTr2"@),
                ) {
                    (Some(ends), Ok(ty)) => {
                        let column = resistance_column(ty.0, ty.1);
                        match numbers_of(
                            m,
                            d,
                            (t, r),
                            ty,
                            two_asks(column),
                        ) {
                            Ok(v) => {
                                let k = two_ratings_of(
                                    m,
                                    v,
                                    ty.0.cell(ty.1, "uktrr"@) is Some,
                                );
                                lemma_placed_two(case, x, t, r, ty, ends, k);
                            },
                            Err(_) => {},
                        }
                    },
                    _ => {},
                }
            }
        },
        Err(_) => {},
    }
}

proof fn lemma_xfs_n(m: Sem, case: CaseV, three: bool, x: XfsV, t: DgsTableV, n: nat)
    requires
        rooted(case, x.st),
        xfs_sited(x.st, x.xfs),
    ensures
        xfs_n(m, case, three, x, t, n) matches Ok(a) ==> grows(x.st, a.st) && xfs_sited(
            a.st,
            a.xfs,
        ),
    decreases n,
{
    if n == 0 {
        assert(grows(x.st, x.st));
    } else {
        lemma_xfs_n(m, case, three, x, t, (n - 1) as nat);
        match xfs_n(m, case, three, x, t, (n - 1) as nat) {
            Ok(b) => {
                lemma_rooted_grows(case, x.st, b.st);
                lemma_xf_step(m, case, three, b, t, t.rows[n - 1]);
                match xf_step(m, case, three, b, t, t.rows[n - 1]) {
                    Ok(a) => {
                        lemma_grows_trans(x.st, b.st, a.st);
                    },
                    Err(_) => {},
                }
            },
            Err(_) => {},
        }
    }
}

proof fn lemma_table_xfs(m: Sem, case: CaseV, three: bool, x: XfsV)
    requires
        rooted(case, x.st),
        xfs_sited(x.st, x.xfs),
    ensures
        table_xfs(m, case, three, x) matches Ok(a) ==> grows(x.st, a.st) && xfs_sited(
            a.st,
            a.xfs,
        ),
{
    assert(grows(x.st, x.st));
    let class = if three {
        "ElmTr3"@
    } else {
        "ElmTr2"@
    };
    match case.doc.table(class) {
        Some(t) => {
            lemma_xfs_n(m, case, three, x, t, t.rows.len());
        },
        None => {},
    }
}

proof fn lemma_transformers(m: Sem, case: CaseV, st: ReaderV)
    requires
        rooted(case, st),
    ensures
        transformers_of(m, case, st) matches Ok(a) ==> grows(st, a.st) && xfs_sited(a.st, a.xfs),
{
    reveal(transformers_of);
    let x = XfsV { st, xfs: seq![] };
    lemma_table_xfs(m, case, false, x);
    match table_xfs(m, case, false, x) {
        Ok(b) => {
            lemma_rooted_grows(case, st, b.st);
            lemma_table_xfs(m, case, true, b);
            match table_xfs(m, case, true, b) {
                Ok(a) => {
                    lemma_grows_trans(st, b.st, a.st);
                },
                Err(_) => {},
            }
        },
        Err(_) => {},
    }
}

// ---- elements with one terminal --------------------------------------------

pub open spec fn inj_sited(x: InjV) -> bool {
    &&& forall|i: int|
        0 <= i < x.loads.len() ==> sited(
            x.st,
            (#[trigger] x.loads[i]).bus,
            x.loads[i].terminal_map,
        )
    &&& forall|i: int|
        0 <= i < x.gens.len() ==> sited(x.st, (#[trigger] x.gens[i]).bus, x.gens[i].terminal_map)
    &&& forall|i: int|
        0 <= i < x.shunts.len() ==> sited(
            x.st,
            (#[trigger] x.shunts[i]).bus,
            x.shunts[i].terminal_map,
        )
    &&& forall|i: int|
        0 <= i < x.sources.len() ==> sited(
            x.st,
            (#[trigger] x.sources[i]).bus,
            x.sources[i].terminal_map,
        )
    &&& x.sources.len() <= 1
}

/// What was sited stays so as buses grow.
proof fn lemma_inj_grows(a: InjV, st: ReaderV)
    requires
        inj_sited(a),
        grows(a.st, st),
    ensures
        inj_sited(InjV { st, ..a }),
{
    let b = InjV { st, ..a };
    assert forall|i: int| 0 <= i < b.loads.len() implies sited(
        st,
        (#[trigger] b.loads[i]).bus,
        b.loads[i].terminal_map,
    ) by {
        lemma_sited_grows(a.st, st, a.loads[i].bus, a.loads[i].terminal_map);
    }
    assert forall|i: int| 0 <= i < b.gens.len() implies sited(
        st,
        (#[trigger] b.gens[i]).bus,
        b.gens[i].terminal_map,
    ) by {
        lemma_sited_grows(a.st, st, a.gens[i].bus, a.gens[i].terminal_map);
    }
    assert forall|i: int| 0 <= i < b.shunts.len() implies sited(
        st,
        (#[trigger] b.shunts[i]).bus,
        b.shunts[i].terminal_map,
    ) by {
        lemma_sited_grows(a.st, st, a.shunts[i].bus, a.shunts[i].terminal_map);
    }
    assert forall|i: int| 0 <= i < b.sources.len() implies sited(
        st,
        (#[trigger] b.sources[i]).bus,
        b.sources[i].terminal_map,
    ) by {
        lemma_sited_grows(a.st, st, a.sources[i].bus, a.sources[i].terminal_map);
    }
}

/// A state that differs from one with conductors seen in no bus.
proof fn lemma_touched(st: ReaderV, root: int, phases: Seq<u8>, after: ReaderV)
    requires
        st.has_bus(root),
        after.bus == st.touch(root, phases, true).bus,
    ensures
        grows(st, after),
        sited(after, st.touch(root, phases, true).bus_id(root), terminals_of(phases, true)),
{
    lemma_touch_sites(st, root, phases, true);
    lemma_sited_same(
        st.touch(root, phases, true),
        after,
        st.touch(root, phases, true).bus_id(root),
        terminals_of(phases, true),
    );
}

proof fn lemma_placed_load(
    m: Sem,
    case: CaseV,
    x: InjV,
    t: DgsTableV,
    r: DgsRowV,
    at: ConnV,
    single: bool,
    power: LoadPower,
)
    requires
        rooted(case, x.st),
        inj_sited(x),
        at.pos < case.roots.len(),
    ensures
        ({
            let a = placed_load(m, case, x, t, r, at, single, power);
            grows(x.st, a.st) && inj_sited(a)
        }),
{
    broadcast use group_keeps;

    reveal(placed_load);
    let a = placed_load(m, case, x, t, r, at, single, power);
    let root = case.root(at.pos);
    lemma_has_root(case, x.st, at.pos);
    let phases = if single {
        seq![phase_or_one(at.phase)]
    } else {
        phases3()
    };
    let st = if single && at.phase is None {
        x.st.default_phase(t.id_of(r))
    } else {
        x.st
    };
    lemma_touched(st, root, phases, a.st);
    assert(grows(x.st, a.st));
    lemma_inj_grows(x, a.st);
    let b = InjV { st: a.st, ..x };
    assert(inj_sited(b));
    assert(a.st == b.st);
    assert(a.gens == b.gens);
    assert(a.shunts == b.shunts);
    assert(a.sources == b.sources);
    let new = a.loads.last();
    assert(a.loads == b.loads.push(new));
    assert(sited(a.st, new.bus, new.terminal_map));
    assert forall|i: int| 0 <= i < a.loads.len() implies sited(
        a.st,
        (#[trigger] a.loads[i]).bus,
        a.loads[i].terminal_map,
    ) by {
        if i < b.loads.len() {
            assert(a.loads[i] == b.loads[i]);
        } else {
            assert(a.loads[i] == new);
        }
    }
}

proof fn lemma_placed_machine(
    m: Sem,
    case: CaseV,
    x: InjV,
    t: DgsTableV,
    r: DgsRowV,
    at: ConnV,
    v: Seq<Bits>,
    l: LimitsV,
)
    requires
        rooted(case, x.st),
        inj_sited(x),
        at.pos < case.roots.len(),
    ensures
        ({
            let a = placed_machine(m, case, x, t, r, at, v, l);
            grows(x.st, a.st) && inj_sited(a)
        }),
{
    broadcast use group_keeps;

    reveal(placed_machine);
    let a = placed_machine(m, case, x, t, r, at, v, l);
    lemma_has_root(case, x.st, at.pos);
    lemma_touched(x.st, case.root(at.pos), phases3(), a.st);
    lemma_inj_grows(x, a.st);
    let b = InjV { st: a.st, ..x };
    assert(inj_sited(b));
    assert(a.st == b.st);
    assert(a.loads == b.loads);
    assert(a.shunts == b.shunts);
    assert(a.sources == b.sources);
    let new = a.gens.last();
    assert(a.gens == b.gens.push(new));
    assert(sited(a.st, new.bus, new.terminal_map));
    assert forall|i: int| 0 <= i < a.gens.len() implies sited(
        a.st,
        (#[trigger] a.gens[i]).bus,
        a.gens[i].terminal_map,
    ) by {
        if i < b.gens.len() {
            assert(a.gens[i] == b.gens[i]);
        } else {
            assert(a.gens[i] == new);
        }
    }
}

proof fn lemma_placed_grid(
    m: Sem,
    case: CaseV,
    x: InjV,
    t: DgsTableV,
    r: DgsRowV,
    at: ConnV,
    v: Seq<Bits>,
)
    requires
        rooted(case, x.st),
        inj_sited(x),
        at.pos < case.roots.len(),
    ensures
        ({
            let a = placed_grid(m, case, x, t, r, at, v);
            grows(x.st, a.st) && inj_sited(a)
        }),
{
    broadcast use group_keeps;

    reveal(placed_grid);
    let a = placed_grid(m, case, x, t, r, at, v);
    lemma_has_root(case, x.st, at.pos);
    lemma_touched(x.st, case.root(at.pos), phases3(), a.st);
    lemma_inj_grows(x, a.st);
    let b = InjV { st: a.st, ..x };
    assert(inj_sited(b));
    assert(a.st == b.st);
    assert(a.loads == b.loads);
    assert(a.shunts == b.shunts);
    if x.sources.len() == 0 {
        assert(a.gens == b.gens);
        let new = a.sources.last();
        assert(a.sources == b.sources.push(new));
        assert(sited(a.st, new.bus, new.terminal_map));
        assert forall|i: int| 0 <= i < a.sources.len() implies sited(
            a.st,
            (#[trigger] a.sources[i]).bus,
            a.sources[i].terminal_map,
        ) by {
            if i < b.sources.len() {
                assert(a.sources[i] == b.sources[i]);
            } else {
                assert(a.sources[i] == new);
            }
        }
    } else {
        assert(a.sources == b.sources);
        let new = a.gens.last();
        assert(a.gens == b.gens.push(new));
        assert(sited(a.st, new.bus, new.terminal_map));
        assert forall|i: int| 0 <= i < a.gens.len() implies sited(
            a.st,
            (#[trigger] a.gens[i]).bus,
            a.gens[i].terminal_map,
        ) by {
            if i < b.gens.len() {
                assert(a.gens[i] == b.gens[i]);
            } else {
                assert(a.gens[i] == new);
            }
        }
    }
}

proof fn lemma_placed_shunt(
    m: Sem,
    case: CaseV,
    x: InjV,
    t: DgsTableV,
    r: DgsRowV,
    at: ConnV,
    v: Seq<Bits>,
)
    requires
        rooted(case, x.st),
        inj_sited(x),
        at.pos < case.roots.len(),
    ensures
        ({
            let a = placed_shunt(m, case, x, t, r, at, v);
            grows(x.st, a.st) && inj_sited(a)
        }),
{
    broadcast use group_keeps;

    reveal(placed_shunt);
    let a = placed_shunt(m, case, x, t, r, at, v);
    lemma_has_root(case, x.st, at.pos);
    lemma_touched(x.st, case.root(at.pos), phases3(), a.st);
    lemma_inj_grows(x, a.st);
    let b = InjV { st: a.st, ..x };
    assert(inj_sited(b));
    assert(a.st == b.st);
    assert(a.loads == b.loads);
    assert(a.gens == b.gens);
    assert(a.sources == b.sources);
    let new = a.shunts.last();
    assert(a.shunts == b.shunts.push(new));
    assert(sited(a.st, new.bus, new.terminal_map));
    assert forall|i: int| 0 <= i < a.shunts.len() implies sited(
        a.st,
        (#[trigger] a.shunts[i]).bus,
        a.shunts[i].terminal_map,
    ) by {
        if i < b.shunts.len() {
            assert(a.shunts[i] == b.shunts[i]);
        } else {
            assert(a.shunts[i] == new);
        }
    }
}

proof fn lemma_element_of(
    m: Sem,
    case: CaseV,
    k: Kind,
    x: InjV,
    t: DgsTableV,
    r: DgsRowV,
    at: ConnV,
)
    requires
        rooted(case, x.st),
        inj_sited(x),
        at.pos < case.roots.len(),
    ensures
        element_of(m, case, k, x, t, r, at) matches Ok(a) ==> grows(x.st, a.st) && inj_sited(a),
{
    let d = case.doc.decimal;
    match k {
        Kind::Machine => {
            match (
                numbers_of(
                    m,
                    d,
                    (t, r),
                    (t, r),
                    machine_asks(),
                ),
                limits_of(m, d, t, r),
            ) {
                (Ok(v), Ok(l)) => {
                    lemma_placed_machine(m, case, x, t, r, at, v, l);
                },
                _ => {},
            }
        },
        Kind::Grid => {
            match numbers_of(
                m,
                d,
                (t, r),
                (t, r),
                grid_asks(),
            ) {
                Ok(v) => {
                    lemma_placed_grid(m, case, x, t, r, at, v);
                },
                _ => {},
            }
        },
        Kind::Shunt => {
            match numbers_of(
                m,
                d,
                (t, r),
                (t, r),
                shunt_asks(),
            ) {
                Ok(v) => {
                    lemma_placed_shunt(m, case, x, t, r, at, v);
                },
                _ => {},
            }
        },
        _ => {
            let given = t.cell(r, "qlini"@) is Some;
            match numbers_of(
                m,
                d,
                (t, r),
                (t, r),
                load_asks(given),
            ) {
                Ok(v) => {
                    let power = load_power_of(m, v, given);
                    let single = single_of(
                        k == Kind::SingleLoad,
                        power.phtech,
                    );
                    lemma_placed_load(m, case, x, t, r, at, single, power);
                },
                _ => {},
            }
        },
    }
}

proof fn lemma_element_step(m: Sem, case: CaseV, k: Kind, x: InjV, t: DgsTableV, r: DgsRowV)
    requires
        rooted(case, x.st),
        inj_sited(x),
    ensures
        element_step(m, case, k, x, t, r) matches Ok(a) ==> grows(x.st, a.st) && inj_sited(a),
{
    broadcast use group_keeps;

    let id = t.id_of(r);
    lemma_conn_within(case, id, Some(0), 0);
    lemma_conn_within(case, id, None, 0);
    assert(grows(x.st, x.st));
    match one_of(case.conns, id) {
        Some(at) => {
            lemma_element_of(m, case, k, x, t, r, at);
            let skipped = x.st.skip(counted_as(k));
            assert(grows(x.st, skipped));
            lemma_inj_grows(x, skipped);
        },
        None => {
            let warned = x.st.unconnected(t.class, id);
            assert(grows(x.st, warned));
            lemma_inj_grows(x, warned);
        },
    }
}

proof fn lemma_elements_n(m: Sem, case: CaseV, k: Kind, x: InjV, t: DgsTableV, n: nat)
    requires
        rooted(case, x.st),
        inj_sited(x),
    ensures
        elements_n(m, case, k, x, t, n) matches Ok(a) ==> grows(x.st, a.st) && inj_sited(a),
    decreases n,
{
    if n == 0 {
        assert(grows(x.st, x.st));
    } else {
        lemma_elements_n(m, case, k, x, t, (n - 1) as nat);
        match elements_n(m, case, k, x, t, (n - 1) as nat) {
            Ok(b) => {
                lemma_rooted_grows(case, x.st, b.st);
                lemma_element_step(m, case, k, b, t, t.rows[n - 1]);
                match element_step(m, case, k, b, t, t.rows[n - 1]) {
                    Ok(a) => {
                        lemma_grows_trans(x.st, b.st, a.st);
                    },
                    Err(_) => {},
                }
            },
            Err(_) => {},
        }
    }
}

/// What a class leaves stays sited, beside what came before.
proof fn lemma_class(
    m: Sem,
    case: CaseV,
    k: Kind,
    class: Seq<char>,
    start: ReaderV,
    x: Outcome<InjV>,
)
    requires
        rooted(case, start),
        x matches Ok(b) ==> grows(start, b.st) && inj_sited(b),
    ensures
        class_of(m, case, k, class, x) matches Ok(a) ==> grows(start, a.st) && inj_sited(a),
{
    match x {
        Ok(b) => {
            lemma_rooted_grows(case, start, b.st);
            match case.doc.table(class) {
                Some(t) => {
                    lemma_elements_n(m, case, k, b, t, t.rows.len());
                    match elements_n(m, case, k, b, t, t.rows.len()) {
                        Ok(a) => {
                            lemma_grows_trans(start, b.st, a.st);
                        },
                        Err(_) => {},
                    }
                },
                None => {},
            }
        },
        Err(_) => {},
    }
}

proof fn lemma_injections(m: Sem, case: CaseV, st: ReaderV)
    requires
        rooted(case, st),
    ensures
        injections_of(m, case, st) matches Ok(a) ==> grows(st, a.st) && inj_sited(a),
{
    broadcast use group_keeps;

    reveal(injections_of);
    let x = InjV { st, loads: seq![], gens: seq![], shunts: seq![], sources: seq![] };
    assert(grows(st, st));
    assert(inj_sited(x));
    let a = class_of(m, case, Kind::Load, "ElmLod"@, Ok(x));
    lemma_class(m, case, Kind::Load, "ElmLod"@, st, Ok(x));
    let b = class_of(m, case, Kind::SingleLoad, "ElmLodlv"@, a);
    lemma_class(m, case, Kind::SingleLoad, "ElmLodlv"@, st, a);
    let c = class_of(m, case, Kind::SingleLoad, "ElmLodmv"@, b);
    lemma_class(m, case, Kind::SingleLoad, "ElmLodmv"@, st, b);
    match c {
        Ok(y) => {
            let p = partial_said(case.doc, y);
            assert(p.st.bus == y.st.bus);
            assert(grows(y.st, p.st));
            lemma_grows_trans(st, y.st, p.st);
            lemma_inj_grows(y, p.st);
            assert(p == (InjV { st: p.st, ..y }));
        },
        Err(_) => {},
    }
    let d = loads_of(m, case, x);
    let e = class_of(m, case, Kind::Machine, "ElmSym"@, d);
    lemma_class(m, case, Kind::Machine, "ElmSym"@, st, d);
    let f = class_of(m, case, Kind::Machine, "ElmGenstat"@, e);
    lemma_class(m, case, Kind::Machine, "ElmGenstat"@, st, e);
    let g = class_of(m, case, Kind::Machine, "ElmPvsys"@, f);
    lemma_class(m, case, Kind::Machine, "ElmPvsys"@, st, f);
    let h = class_of(m, case, Kind::Machine, "ElmAsm"@, g);
    lemma_class(m, case, Kind::Machine, "ElmAsm"@, st, g);
    let i = class_of(m, case, Kind::Grid, "ElmXnet"@, h);
    lemma_class(m, case, Kind::Grid, "ElmXnet"@, st, h);
    lemma_class(m, case, Kind::Shunt, "ElmShnt"@, st, i);
}

// ---- the start -------------------------------------------------------------

/// Every table of a document can be counted.
pub open spec fn countable(doc: DgsDocV) -> bool {
    forall|i: int| 0 <= i < doc.tables.len() ==> (#[trigger] doc.tables[i]).rows.len() <= usize::MAX
}

proof fn lemma_table_countable(doc: DgsDocV, class: Seq<char>, i: int)
    requires
        countable(doc),
        0 <= i <= doc.tables.len(),
    ensures
        table_from(doc.tables, class, i) matches Some(t) ==> t.rows.len()
            <= usize::MAX,
    decreases doc.tables.len() - i,
{
    if i < doc.tables.len() {
        lemma_table_countable(doc, class, i + 1);
    }
}

proof fn lemma_last_row(t: DgsTableV, id: Seq<char>, j: int)
    requires
        0 <= j <= t.rows.len(),
    ensures
        last_row(t, id, j) matches Some(i) ==> 0 <= i < j,
    decreases j,
{
    if j > 0 && t.id_of(t.rows[j - 1]) != id {
        lemma_last_row(t, id, j - 1);
    }
}

proof fn lemma_conns_within(m: Sem, doc: DgsDocV, terminals: DgsTableV, t: DgsTableV, n: nat)
    requires
        doc.table("ElmTerm"@) == Some(terminals),
        terminals.rows.len() <= usize::MAX,
        n <= t.rows.len(),
    ensures
        within(conns_n(m, doc, t, n), terminals.rows.len()),
    decreases n,
{
    if n > 0 {
        lemma_conns_within(m, doc, terminals, t, (n - 1) as nat);
        let r = t.rows[n - 1];
        match t.ptr(r, "fold_id"@) {
            Some(f) => {
                lemma_last_row(terminals, f, terminals.rows.len() as int);
            },
            None => {},
        }
    }
}

proof fn lemma_couplers_within(
    m: Sem,
    doc: DgsDocV,
    conns: Seq<ConnV>,
    t: DgsTableV,
    size: nat,
    n: nat,
)
    requires
        within(conns, size),
        n <= t.rows.len(),
    ensures
        couplers_n(m, doc.decimal, conns, t, n) matches Ok(c)
            ==> couplers_within(c, size),
    decreases n,
{
    if n > 0 {
        lemma_couplers_within(m, doc, conns, t, size, (n - 1) as nat);
        let id = t.id_of(t.rows[n - 1]);
        let case = CaseV { doc, conns, roots: Seq::new(size, |i: int| 0usize) };
        lemma_conn_within(case, id, Some(0), 0);
        lemma_conn_within(case, id, Some(1), 0);
    }
}

/// The positions of a document before any element is read: each leads to one
/// that is a bus.
proof fn lemma_buses(m: Sem, decimal: char, t: DgsTableV, roots: Seq<usize>, n: nat)
    requires
        n <= t.rows.len(),
        n <= roots.len(),
        forall|i: int| 0 <= i < roots.len() ==> (#[trigger] roots[i]) <= i,
    ensures
        buses_n(m, decimal, t, roots, n) matches Ok(bus) ==> bus.len() == n && forall|i: int|
            0 <= i < n ==> (#[trigger] bus[i]).live == (roots[i] == i),
    decreases n,
{
    if n > 0 {
        lemma_buses(m, decimal, t, roots, (n - 1) as nat);
        assert(roots[n - 1] <= n - 1);
    }
}

/// Names told apart: those of the first `n` buses are distinct, and are all that
/// was handed out.
pub open spec fn named_apart(st: ReaderV, n: nat) -> bool {
    &&& forall|i: int|
        0 <= i < n && st.bus[i].live ==> st.used_bus.contains((#[trigger] st.bus[i]).id)
    &&& forall|i: int, j: int|
        0 <= i < j < n && st.bus[i].live && st.bus[j].live ==> (#[trigger] st.bus[i]).id != (
        #[trigger] st.bus[j]).id
}

proof fn lemma_named(st: ReaderV, n: nat)
    requires
        n <= st.bus.len(),
        st.used_bus.len() == 0,
    ensures
        named_n(st, n).bus.len() == st.bus.len(),
        forall|i: int|
            0 <= i < st.bus.len() ==> (#[trigger] named_n(st, n).bus[i]).live == st.bus[i].live,
        named_apart(named_n(st, n), n),
    decreases n,
{
    if n > 0 {
        lemma_named(st, (n - 1) as nat);
        let b = named_n(st, (n - 1) as nat);
        let a = named_n(st, n);
        if b.bus[n - 1].live {
            let name = unique_of(b.used_bus, base_of(b.bus[n - 1].id, "bus"@));
            lemma_unique_is_fresh(b.used_bus, base_of(b.bus[n - 1].id, "bus"@));
            assert(a.used_bus == b.used_bus.push(name));
            assert(a.bus[n - 1].id == name);
            assert(a.used_bus.contains(name)) by {
                assert(a.used_bus[a.used_bus.len() - 1] == name);
            }
            assert forall|i: int| 0 <= i < n && a.bus[i].live implies a.used_bus.contains(
                (#[trigger] a.bus[i]).id,
            ) by {
                if i < n - 1 {
                    assert(a.bus[i] == b.bus[i]);
                    assert(b.used_bus.contains(b.bus[i].id));
                    let k = choose|k: int| 0 <= k < b.used_bus.len() && b.used_bus[k] == b.bus[i].id;
                    assert(a.used_bus[k] == b.bus[i].id);
                }
            }
            assert forall|i: int, j: int|
                0 <= i < j < n && a.bus[i].live && a.bus[j].live implies (#[trigger] a.bus[i]).id
                != (#[trigger] a.bus[j]).id by {
                assert(a.bus[i] == b.bus[i]);
                if j == n - 1 {
                    assert(b.used_bus.contains(b.bus[i].id));
                } else {
                    assert(a.bus[j] == b.bus[j]);
                }
            }
        } else {
            assert(a == b);
        }
    }
}

/// Live buses go by distinct names.
pub open spec fn distinct_live(bus: Seq<BusAccumV>) -> bool {
    forall|i: int, j: int|
        0 <= i < j < bus.len() && bus[i].live && bus[j].live ==> (#[trigger] bus[i]).id != (
        #[trigger] bus[j]).id
}

proof fn lemma_distinct_grows(a: ReaderV, b: ReaderV)
    requires
        grows(a, b),
        distinct_live(a.bus),
    ensures
        distinct_live(b.bus),
{
    assert forall|i: int, j: int|
        0 <= i < j < b.bus.len() && b.bus[i].live && b.bus[j].live implies (#[trigger] b.bus[i]).id
        != (#[trigger] b.bus[j]).id by {
        assert(bus_grows(a.bus[i], b.bus[i]));
        assert(bus_grows(a.bus[j], b.bus[j]));
        assert(a.bus[i].id != a.bus[j].id);
    }
}

/// The reading starts with every terminal on a bus, and buses told apart.
proof fn lemma_start(
    m: Sem,
    doc: DgsDocV,
    t: DgsTableV,
    c: CouplersV,
    bus: Seq<BusAccumV>,
)
    requires
        countable(doc),
        doc.table("ElmTerm"@) == Some(t),
        couplers_of(m, doc) == Ok::<CouplersV, ErrorV>(c),
        buses_n(m, doc.decimal, t, roots_of(t.rows.len(), c.closed), t.rows.len()) == Ok::<
            Seq<BusAccumV>,
            ErrorV,
        >(bus),
    ensures
        ({
            let roots = roots_of(t.rows.len(), c.closed);
            let case = CaseV { doc, conns: conns_of(m, doc), roots };
            let st = start_of(grid_of(m, doc), c.loose, c.closed.len(), bus);
            &&& rooted(case, st)
            &&& distinct_live(st.bus)
            &&& couplers_within(c, t.rows.len())
            &&& t.rows.len() > 0 ==> st.has_bus(0)
        }),
{
    broadcast use group_keeps;

    let n = t.rows.len();
    lemma_table_countable(doc, "ElmTerm"@, 0);
    let conns = conns_of(m, doc);
    match doc.table("StaCubic"@) {
        Some(q) => {
            lemma_conns_within(m, doc, t, q, q.rows.len());
        },
        None => {},
    }
    assert(within(conns, n));
    match doc.table("ElmCoup"@) {
        Some(q) => {
            lemma_couplers_within(m, doc, conns, q, n, q.rows.len());
        },
        None => {},
    }
    let roots = roots_of(n, c.closed);
    let case = CaseV { doc, conns, roots };
    let g = grid_of(m, doc);
    let st = start_of(g, c.loose, c.closed.len(), bus);
    assert forall|i: int| 0 <= i < n implies (#[trigger] roots[i]) <= i && roots[roots[i] as int]
        == roots[i] by {
        assert forall|j: int| 0 <= j < c.closed.len() implies (#[trigger] c.closed[j]).0 < n
            && c.closed[j].1 < n by {}
        lemma_root_is_smallest(n, c.closed, c.closed.len(), i);
        let r = fused_n(n, c.closed, c.closed.len())[i];
        assert(roots[i] == r as usize);
        assert(roots[r] == fused_n(n, c.closed, c.closed.len())[r] as usize);
    }
    lemma_buses(m, doc.decimal, t, roots, n);
    let plain = unnamed_start(g, c.closed.len(), bus);
    let raw = loose_n(plain, c.loose, c.loose.len());
    assert(st == named_n(raw, bus.len()));
    assert(raw.bus == bus && raw.used_bus.len() == 0) by {
        reveal(ReaderV::warn);
        lemma_loose_keeps(plain, c.loose, c.loose.len());
    }
    lemma_named(raw, n);
    assert forall|p: int| 0 <= p < roots.len() implies st.has_bus(#[trigger] roots[p] as int) by {
        let r = roots[p] as int;
        assert(roots[r] == r);
        assert(bus[r].live);
    }
    if n > 0 {
        assert(roots[0] <= 0);
        assert(st.has_bus(roots[0] as int));
    }
}

/// The state before the buses are named.
spec fn unnamed_start(g: GridV, fused: nat, bus: Seq<BusAccumV>) -> ReaderV {
    let empty = ReaderV {
        warnings: seq![],
        bus,
        used_bus: seq![],
        used_linecode: seq![],
        used_elem: seq![],
        cache: seq![],
        defaulted: seq![],
        skipped: seq![],
        said_explicit: false,
        said_expanded: false,
        said_no_zero: false,
        said_two_phase: false,
    };
    let st = if g.disagree {
        empty.warn("DGS grids declare different nominal frequencies; used the first"@)
    } else {
        empty
    };
    if fused > 0 {
        st.warn("fused "@ + dec_of(fused) + " terminal pair(s) joined by closed couplers"@)
    } else {
        st
    }
}

// ---- the network -----------------------------------------------------------

/// Whether some bus goes by a name and has every terminal of a map.
pub open spec fn stands(buses: Seq<DistBusV>, bus: Seq<char>, map: Seq<Seq<char>>) -> bool {
    exists|k: int|
        0 <= k < buses.len() && (#[trigger] buses[k]).id == bus && forall|i: int|
            0 <= i < map.len() ==> buses[k].terminals.contains(#[trigger] map[i])
}

/// Every element of a network stands on a bus of it, on terminals that the bus
/// has.
pub open spec fn well_sited(net: DistNetworkV) -> bool {
    &&& forall|i: int|
        0 <= i < net.lines.len() ==> stands(
            net.buses,
            (#[trigger] net.lines[i]).bus_from,
            net.lines[i].terminal_map_from,
        ) && stands(net.buses, net.lines[i].bus_to, net.lines[i].terminal_map_to)
    &&& forall|i: int|
        0 <= i < net.switches.len() ==> stands(
            net.buses,
            (#[trigger] net.switches[i]).bus_from,
            net.switches[i].terminal_map_from,
        ) && stands(net.buses, net.switches[i].bus_to, net.switches[i].terminal_map_to)
    &&& forall|i: int, k: int|
        0 <= i < net.transformers.len() && 0 <= k < net.transformers[i].windings.len() ==> stands(
            net.buses,
            (#[trigger] net.transformers[i].windings[k]).bus,
            net.transformers[i].windings[k].terminal_map,
        )
    &&& forall|i: int|
        0 <= i < net.loads.len() ==> stands(
            net.buses,
            (#[trigger] net.loads[i]).bus,
            net.loads[i].terminal_map,
        )
    &&& forall|i: int|
        0 <= i < net.generators.len() ==> stands(
            net.buses,
            (#[trigger] net.generators[i]).bus,
            net.generators[i].terminal_map,
        )
    &&& forall|i: int|
        0 <= i < net.shunts.len() ==> stands(
            net.buses,
            (#[trigger] net.shunts[i]).bus,
            net.shunts[i].terminal_map,
        )
    &&& forall|i: int|
        0 <= i < net.sources.len() ==> stands(
            net.buses,
            (#[trigger] net.sources[i]).bus,
            net.sources[i].terminal_map,
        )
}

/// No two buses of a network go by the same name.
pub open spec fn buses_apart(net: DistNetworkV) -> bool {
    forall|i: int, j: int|
        0 <= i < j < net.buses.len() ==> (#[trigger] net.buses[i]).id != (
        #[trigger] net.buses[j]).id
}

/// Every grounded terminal of a bus is a terminal of it.
pub open spec fn grounds_present(net: DistNetworkV) -> bool {
    forall|i: int, t: Seq<char>|
        0 <= i < net.buses.len() && (#[trigger] net.buses[i]).grounded.contains(t)
            ==> #[trigger] net.buses[i].terminals.contains(t)
}

proof fn lemma_four()
    ensures
        dec_of(4) == "4"@,
{
    reveal_strlit("4");
    assert(dec_of(4) =~= "4"@);
}

/// A bus as it ends up has the terminals that are on it.
proof fn lemma_bus_of(b: BusAccumV, t: Seq<char>)
    requires
        on_bus(b, t),
    ensures
        bus_of(b).terminals.contains(t),
{
    lemma_four();
    let phases = if b.phases.len() == 0 {
        seq![1u8, 2u8, 3u8]
    } else {
        b.phases
    };
    let wire = phases.contains(4u8);
    let terms = terminals_of(phases, b.neutral && !wire);
    assert(bus_of(b).terminals == terms);
    if exists|i: int| 0 <= i < b.phases.len() && #[trigger] dec_of(b.phases[i] as nat) == t {
        let i = choose|i: int|
            0 <= i < b.phases.len() && #[trigger] dec_of(b.phases[i] as nat) == t;
        assert(terms[i] == t);
    } else if wire {
        let i = choose|i: int| 0 <= i < phases.len() && phases[i] == 4u8;
        assert(terms[i] == t);
    } else {
        assert(terms[terms.len() - 1] == t);
    }
}

/// Whether a bus is what one of the first `n` positions ends up as.
pub open spec fn comes_of(bus: Seq<BusAccumV>, n: nat, x: DistBusV) -> bool {
    exists|i: int| 0 <= i < n && (#[trigger] bus[i]).live && x == bus_of(bus[i])
}

/// Each live position is a bus of the network, and each bus a live position.
proof fn lemma_finished(bus: Seq<BusAccumV>, n: nat)
    requires
        n <= bus.len(),
    ensures
        forall|i: int|
            0 <= i < n && (#[trigger] bus[i]).live ==> finished_n(bus, n).contains(bus_of(bus[i])),
        forall|k: int|
            0 <= k < finished_n(bus, n).len() ==> comes_of(bus, n, #[trigger] finished_n(bus, n)[k]),
        distinct_live(bus) ==> forall|k: int, l: int|
            0 <= k < l < finished_n(bus, n).len() ==> (#[trigger] finished_n(bus, n)[k]).id != (
            #[trigger] finished_n(bus, n)[l]).id,
    decreases n,
{
    if n > 0 {
        lemma_finished(bus, (n - 1) as nat);
        let b = finished_n(bus, (n - 1) as nat);
        let a = finished_n(bus, n);
        if bus[n - 1].live {
            let new = bus_of(bus[n - 1]);
            assert(a == b.push(new));
            assert(a[b.len() as int] == new);
            assert forall|i: int| 0 <= i < n && (#[trigger] bus[i]).live implies a.contains(
                bus_of(bus[i]),
            ) by {
                if i < n - 1 {
                    assert(b.contains(bus_of(bus[i])));
                    let k = choose|k: int| 0 <= k < b.len() && b[k] == bus_of(bus[i]);
                    assert(a[k] == bus_of(bus[i]));
                }
            }
            assert forall|k: int| 0 <= k < a.len() implies comes_of(bus, n, #[trigger] a[k]) by {
                if k < b.len() {
                    assert(a[k] == b[k]);
                    assert(comes_of(bus, (n - 1) as nat, b[k]));
                } else {
                    assert(bus[n - 1].live && a[k] == bus_of(bus[n - 1]));
                }
            }
            if distinct_live(bus) {
                assert forall|k: int, l: int| 0 <= k < l < a.len() implies (#[trigger] a[k]).id != (
                #[trigger] a[l]).id by {
                    assert(a[k] == b[k]);
                    if l < b.len() {
                        assert(a[l] == b[l]);
                    } else {
                        assert(comes_of(bus, (n - 1) as nat, b[k]));
                        let i = choose|i: int|
                            0 <= i < n - 1 && (#[trigger] bus[i]).live && b[k] == bus_of(bus[i]);
                        assert(bus[i].id != bus[n - 1].id);
                    }
                }
            }
        } else {
            assert forall|k: int| 0 <= k < a.len() implies comes_of(bus, n, #[trigger] a[k]) by {
                assert(comes_of(bus, (n - 1) as nat, b[k]));
            }
        }
    }
}

proof fn lemma_stands(st: ReaderV, bus: Seq<char>, map: Seq<Seq<char>>)
    requires
        sited(st, bus, map),
    ensures
        stands(finished_n(st.bus, st.bus.len()), bus, map),
{
    let buses = finished_n(st.bus, st.bus.len());
    let root = choose|root: int| #[trigger] st.has_bus(root) && st.bus[root].id == bus && forall|k: int|
        0 <= k < map.len() ==> on_bus(st.bus[root], #[trigger] map[k]);
    lemma_finished(st.bus, st.bus.len());
    assert(st.bus[root].live);
    assert(buses.contains(bus_of(st.bus[root])));
    let k = choose|k: int| 0 <= k < buses.len() && buses[k] == bus_of(st.bus[root]);
    assert(buses[k].id == bus);
    assert forall|i: int| 0 <= i < map.len() implies buses[k].terminals.contains(
        #[trigger] map[i],
    ) by {
        assert(on_bus(st.bus[root], map[i]));
        lemma_bus_of(st.bus[root], map[i]);
    }
}

/// The conductors of a bus, by their terminal names, stand on it.
proof fn lemma_bus_stands(st: ReaderV, root: int)
    requires
        st.has_bus(root),
    ensures
        stands(
            finished_n(st.bus, st.bus.len()),
            st.bus_id(root),
            terminals_of(st.bus_phases(root), false),
        ),
{
    let buses = finished_n(st.bus, st.bus.len());
    lemma_finished(st.bus, st.bus.len());
    assert(st.bus[root].live);
    assert(buses.contains(bus_of(st.bus[root])));
    let k = choose|k: int| 0 <= k < buses.len() && buses[k] == bus_of(st.bus[root]);
    let map = terminals_of(st.bus_phases(root), false);
    assert(buses[k].id == st.bus_id(root));
    assert forall|i: int| 0 <= i < map.len() implies buses[k].terminals.contains(
        #[trigger] map[i],
    ) by {
        assert(buses[k].terminals[i] == map[i]);
    }
}

proof fn lemma_switches(
    case: CaseV,
    st: ReaderV,
    open: Seq<(usize, usize, Option<Seq<char>>)>,
    n: nat,
)
    requires
        rooted(case, st),
        n <= open.len(),
        forall|i: int|
            0 <= i < open.len() ==> (#[trigger] open[i]).0 < case.roots.len() && open[i].1
                < case.roots.len(),
    ensures
        switches_n(case, st, open, n).st.bus == st.bus,
        ({
            let s = switches_n(case, st, open, n).switches;
            let buses = finished_n(st.bus, st.bus.len());
            forall|i: int|
                0 <= i < s.len() ==> stands(
                    buses,
                    (#[trigger] s[i]).bus_from,
                    s[i].terminal_map_from,
                ) && stands(buses, s[i].bus_to, s[i].terminal_map_to)
        }),
    decreases n,
{
    broadcast use group_keeps;

    if n > 0 {
        lemma_switches(case, st, open, (n - 1) as nat);
        let b = switches_n(case, st, open, (n - 1) as nat);
        let c = open[n - 1];
        assert(open[n - 1].0 < case.roots.len());
        lemma_has_root(case, st, c.0);
        lemma_has_root(case, st, c.1);
        let x = case.root(c.0);
        let y = case.root(c.1);
        lemma_bus_stands(st, x);
        lemma_bus_stands(st, y);
        assert(b.st.bus_id(x) == st.bus_id(x) && b.st.bus_id(y) == st.bus_id(y));
        assert(b.st.bus_phases(x) == st.bus_phases(x) && b.st.bus_phases(y) == st.bus_phases(y));
        let a = switches_n(case, st, open, n);
        let buses = finished_n(st.bus, st.bus.len());
        assert forall|i: int| 0 <= i < a.switches.len() implies stands(
            buses,
            (#[trigger] a.switches[i]).bus_from,
            a.switches[i].terminal_map_from,
        ) && stands(buses, a.switches[i].bus_to, a.switches[i].terminal_map_to) by {
            if i < b.switches.len() {
                assert(a.switches[i] == b.switches[i]);
            } else {
                assert(a.switches == b.switches.push(a.switches[i]));
            }
        }
    }
}

proof fn lemma_assembled(
    case: CaseV,
    g: GridV,
    hint: Option<Seq<char>>,
    open: Seq<(usize, usize, Option<Seq<char>>)>,
    l: LinesV,
    x: XfsV,
    i: InjV,
)
    requires
        rooted(case, i.st),
        forall|k: int|
            0 <= k < open.len() ==> (#[trigger] open[k]).0 < case.roots.len() && open[k].1
                < case.roots.len(),
        lines_sited(i.st, l.lines),
        xfs_sited(i.st, x.xfs),
        inj_sited(i),
        distinct_live(i.st.bus),
    ensures
        ({
            let net = assembled(case, g, hint, open, l, x, i);
            well_sited(net) && buses_apart(net) && grounds_present(net) && net.sources.len() <= 1
                && net.source_format is None
        }),
{
    let net = assembled(case, g, hint, open, l, x, i);
    let s = switches_n(case, i.st, open, open.len());
    lemma_switches(case, i.st, open, open.len());
    lemma_finished(i.st.bus, i.st.bus.len());
    assert(net.buses == finished_n(i.st.bus, i.st.bus.len()));
    assert forall|k: int| 0 <= k < net.lines.len() implies stands(
        net.buses,
        (#[trigger] net.lines[k]).bus_from,
        net.lines[k].terminal_map_from,
    ) && stands(net.buses, net.lines[k].bus_to, net.lines[k].terminal_map_to) by {
        lemma_stands(i.st, l.lines[k].bus_from, l.lines[k].terminal_map_from);
        lemma_stands(i.st, l.lines[k].bus_to, l.lines[k].terminal_map_to);
    }
    assert forall|k: int, w: int|
        0 <= k < net.transformers.len() && 0 <= w
            < net.transformers[k].windings.len() implies stands(
        net.buses,
        (#[trigger] net.transformers[k].windings[w]).bus,
        net.transformers[k].windings[w].terminal_map,
    ) by {
        lemma_stands(i.st, x.xfs[k].windings[w].bus, x.xfs[k].windings[w].terminal_map);
    }
    assert forall|k: int| 0 <= k < net.loads.len() implies stands(
        net.buses,
        (#[trigger] net.loads[k]).bus,
        net.loads[k].terminal_map,
    ) by {
        lemma_stands(i.st, i.loads[k].bus, i.loads[k].terminal_map);
    }
    assert forall|k: int| 0 <= k < net.generators.len() implies stands(
        net.buses,
        (#[trigger] net.generators[k]).bus,
        net.generators[k].terminal_map,
    ) by {
        lemma_stands(i.st, i.gens[k].bus, i.gens[k].terminal_map);
    }
    assert forall|k: int| 0 <= k < net.shunts.len() implies stands(
        net.buses,
        (#[trigger] net.shunts[k]).bus,
        net.shunts[k].terminal_map,
    ) by {
        lemma_stands(i.st, i.shunts[k].bus, i.shunts[k].terminal_map);
    }
    assert forall|k: int| 0 <= k < net.sources.len() implies stands(
        net.buses,
        (#[trigger] net.sources[k]).bus,
        net.sources[k].terminal_map,
    ) by {
        lemma_stands(i.st, i.sources[k].bus, i.sources[k].terminal_map);
    }
    assert forall|k: int, t: Seq<char>|
        0 <= k < net.buses.len() && (#[trigger] net.buses[k]).grounded.contains(
            t,
        ) implies #[trigger] net.buses[k].terminals.contains(t) by {
        assert(comes_of(i.st.bus, i.st.bus.len(), net.buses[k]));
        let p = choose|p: int|
            0 <= p < i.st.bus.len() && (#[trigger] i.st.bus[p]).live && net.buses[k] == bus_of(
                i.st.bus[p],
            );
        assert(net.buses[k].grounded == bus_of(i.st.bus[p]).grounded);
        assert(i.st.bus[p].neutral && t == "4"@);
        lemma_bus_of(i.st.bus[p], t);
    }
}

/// Of every network read from a scanned document: each element stands on a bus
/// of the network, on terminals that the bus has; no two buses go by one name;
/// what is grounded at a bus is a terminal of it; there is at most one voltage
/// source; no two elements go by one name, and every name is of plain characters;
/// no two line codes go by one name, and the line code of each line is one of
/// them; and the network names no format to be written back in. The document is
/// one whose tables can be counted.
pub proof fn lemma_network_is_sound(m: Sem, doc: DgsDocV, hint: Option<Seq<char>>)
    requires
        countable(doc),
    ensures
        network_of(m, doc, hint) matches Ok(net) ==> {
            &&& well_sited(net)
            &&& buses_apart(net)
            &&& grounds_present(net)
            &&& net.sources.len() <= 1
            &&& well_named(net)
            &&& well_coded(net)
            &&& net.source_format is None
        },
{
    lemma_network_is_named(m, doc, hint);
    lemma_network_is_coded(m, doc, hint);
    match (doc.table("ElmTerm"@), couplers_of(m, doc)) {
        (Some(t), Ok(c)) => {
            let roots = roots_of(t.rows.len(), c.closed);
            match buses_n(m, doc.decimal, t, roots, t.rows.len()) {
                Ok(bus) => {
                    lemma_start(m, doc, t, c, bus);
                    let g = grid_of(m, doc);
                    let case = CaseV { doc, conns: conns_of(m, doc), roots };
                    let st = start_of(g, c.loose, c.closed.len(), bus);
                    lemma_elements(m, case, g, hint, c.open, st);
                },
                Err(_) => {},
            }
        },
        _ => {},
    }
}

proof fn lemma_elements(
    m: Sem,
    case: CaseV,
    g: GridV,
    hint: Option<Seq<char>>,
    open: Seq<(usize, usize, Option<Seq<char>>)>,
    st: ReaderV,
)
    requires
        rooted(case, st),
        distinct_live(st.bus),
        forall|k: int|
            0 <= k < open.len() ==> (#[trigger] open[k]).0 < case.roots.len() && open[k].1
                < case.roots.len(),
    ensures
        elements_of(m, case, g, hint, open, st) matches Ok(net) ==> {
            &&& well_sited(net)
            &&& buses_apart(net)
            &&& grounds_present(net)
            &&& net.sources.len() <= 1
            &&& net.source_format is None
        },
{
    let f = base_frequency_of(g);
    lemma_lines(m, case, f, st);
    match lines_of(m, case, f, st) {
        Ok(l) => {
            lemma_rooted_grows(case, st, l.st);
            lemma_transformers(m, case, l.st);
            match transformers_of(m, case, l.st) {
                Ok(x) => {
                    lemma_rooted_grows(case, l.st, x.st);
                    lemma_injections(m, case, x.st);
                    match injections_of(m, case, x.st) {
                        Ok(i) => {
                            lemma_grows_trans(l.st, x.st, i.st);
                            lemma_grows_trans(st, l.st, i.st);
                            lemma_rooted_grows(case, st, i.st);
                            lemma_distinct_grows(st, i.st);
                            lemma_xfs_sited_grows(x.st, i.st, x.xfs);
                            assert forall|k: int| 0 <= k < l.lines.len() implies sited(
                                i.st,
                                (#[trigger] l.lines[k]).bus_from,
                                l.lines[k].terminal_map_from,
                            ) && sited(i.st, l.lines[k].bus_to, l.lines[k].terminal_map_to) by {
                                lemma_sited_grows(
                                    l.st,
                                    i.st,
                                    l.lines[k].bus_from,
                                    l.lines[k].terminal_map_from,
                                );
                                lemma_sited_grows(
                                    l.st,
                                    i.st,
                                    l.lines[k].bus_to,
                                    l.lines[k].terminal_map_to,
                                );
                            }
                            lemma_assembled(case, g, hint, open, l, x, i);
                        },
                        Err(_) => {},
                    }
                },
                Err(_) => {},
            }
        },
        Err(_) => {},
    }
}

} // verus!
