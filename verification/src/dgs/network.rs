//! A scanned document as a multiconductor network.

use vstd::prelude::*;

use crate::dgs::injections::{inj_view, injections, injections_of, Inj, InjV};
use crate::dgs::lines::{lines, lines_of, lines_view, LinesV};
use crate::dgs::scan::{
    int_of, integer, num, num_of, refusal, refuse, DgsDoc, DgsDocV, DgsRow, DgsRowV, DgsTable,
    DgsTableV,
};
use crate::dgs::state::{
    base_of, holds, phase_terminals, terminals_of, unique_name, unique_of, BusAccum, BusAccumV,
    Case, CaseV, Reader, ReaderV,
};
use crate::dgs::topology::{
    connections, conns_of, fused_n, two_of, two_terminals, within, Conn, ConnV, UnionFind,
};
use crate::dgs::transformers::{transformers, transformers_of, xfs_view, XfsV};
use crate::error::{outcome, ErrorV, Outcome, Result};
use crate::math::{abs, abs_of, lt, minus, num_lt, Bits, Calc, Sem, FIFTY, MICRO, NANO, ONE, ZERO};
use crate::model::{
    dist_bus_of, dist_network_of, dist_switch_of, DistBus, DistBusV, DistLine, DistLineCode,
    DistNetwork, DistNetworkV, DistSwitch, DistSwitchV, DistTransformer,
};
use crate::numeral::{dec_of, dec_usize};
use crate::text::{cat2, cat3, cat4, cat5, group_views, opt_view, same, views};

verus! {

// ---- the grid --------------------------------------------------------------

/// The first grid's frequency and name, and whether another differs in
/// frequency.
pub struct GridV {
    pub freq: Option<Bits>,
    pub name: Option<Seq<char>>,
    pub disagree: bool,
}

pub struct Grid {
    pub freq: Option<Bits>,
    pub name: Option<String>,
    pub disagree: bool,
}

impl View for Grid {
    type V = GridV;

    open spec fn view(&self) -> GridV {
        GridV { freq: self.freq, name: opt_view(self.name), disagree: self.disagree }
    }
}

/// The nominal frequency of a grid row.
pub open spec fn frequency_of(m: Sem, decimal: char, t: DgsTableV, r: DgsRowV) -> Bits {
    match num_of(m, decimal, t, r, "frnom"@, FIFTY) {
        Ok(f) => f,
        Err(_) => FIFTY,
    }
}

pub open spec fn grid_n(m: Sem, decimal: char, t: DgsTableV, n: nat) -> GridV
    decreases n,
{
    if n == 0 {
        GridV { freq: None, name: None, disagree: false }
    } else {
        let g = grid_n(m, decimal, t, (n - 1) as nat);
        let f = frequency_of(m, decimal, t, t.rows[n - 1]);
        match g.freq {
            None => GridV { freq: Some(f), name: t.text(t.rows[n - 1], "loc_name"@), ..g },
            Some(first) => GridV {
                disagree: g.disagree || num_lt(MICRO, abs_of(m.minus(first, f))),
                ..g
            },
        }
    }
}

pub open spec fn grid_of(m: Sem, doc: DgsDocV) -> GridV {
    match doc.table("ElmNet"@) {
        Some(t) => grid_n(m, doc.decimal, t, t.rows.len()),
        None => GridV { freq: None, name: None, disagree: false },
    }
}

/// What the network is called: the grid's name, else the hint.
pub open spec fn name_of(g: GridV, hint: Option<Seq<char>>) -> Seq<char> {
    match g.name {
        Some(n) => n,
        None => match hint {
            Some(h) => h,
            None => "case"@,
        },
    }
}

/// The base frequency in hertz.
pub open spec fn base_frequency_of(g: GridV) -> Bits {
    match g.freq {
        Some(f) => f,
        None => FIFTY,
    }
}

fn grid<C: Calc>(math: &C, doc: &DgsDoc) -> (g: Grid)
    ensures
        g@ == grid_of(math.sem(), doc@),
{
    let mut g = Grid { freq: None, name: None, disagree: false };
    let t = match doc.table("ElmNet") {
        Some(t) => t,
        None => {
            return g;
        },
    };
    assert(t@.rows.len() == t.rows.len());
    let mut i: usize = 0;
    while i < t.rows.len()
        invariant
            i <= t.rows.len(),
            t@.rows.len() == t.rows.len(),
            g@ == grid_n(math.sem(), doc@.decimal, t@, i as nat),
        decreases t.rows.len() - i,
    {
        let row = &t.rows[i];
        assert(t@.rows[i as int] == row@);
        let f = match num(math, doc.decimal, t, row, "frnom", FIFTY) {
            Ok(f) => f,
            Err(_) => FIFTY,
        };
        match g.freq {
            None => {
                g.freq = Some(f);
                g.name = match t.text(row, "loc_name") {
                    Some(n) => Some(n.clone()),
                    None => None,
                };
            },
            Some(first) => {
                if lt(MICRO, abs(minus(math, first, f))) {
                    g.disagree = true;
                }
            },
        }
        i = i + 1;
    }
    g
}

// ---- couplers --------------------------------------------------------------

/// The terminals that closed couplers join, and the open couplers with their
/// names.
pub struct CouplersV {
    /// The couplers that the cubicles do not connect.
    pub loose: Seq<Seq<char>>,
    pub closed: Seq<(usize, usize)>,
    pub open: Seq<(usize, usize, Option<Seq<char>>)>,
}

pub struct Couplers {
    pub loose: Vec<String>,
    pub closed: Vec<(usize, usize)>,
    pub open: Vec<OpenCoupler>,
}

pub struct OpenCoupler {
    pub a: usize,
    pub b: usize,
    pub name: Option<String>,
}

impl View for OpenCoupler {
    type V = (usize, usize, Option<Seq<char>>);

    open spec fn view(&self) -> (usize, usize, Option<Seq<char>>) {
        (self.a, self.b, opt_view(self.name))
    }
}

impl View for Couplers {
    type V = CouplersV;

    open spec fn view(&self) -> CouplersV {
        CouplersV {
            loose: views(self.loose@),
            closed: self.closed@,
            open: views(self.open@),
        }
    }
}

/// A coupler read: closed where it is on, closed, in service, and both its
/// cubicles are closed.
pub open spec fn coupler_step(
    m: Sem,
    decimal: char,
    conns: Seq<ConnV>,
    c: CouplersV,
    t: DgsTableV,
    r: DgsRowV,
) -> Outcome<CouplersV> {
    match two_of(conns, t.id_of(r)) {
        None => Ok(CouplersV { loose: c.loose.push(t.id_of(r)), ..c }),
        Some((a, b)) => match int_of(m, decimal, t, r, "on_off"@, ONE) {
            Err(e) => Err(e),
            Ok(on) => match int_of(m, decimal, t, r, "isclosed"@, ONE) {
                Err(e) => Err(e),
                Ok(shut) => match int_of(m, decimal, t, r, "outserv"@, ZERO) {
                    Err(e) => Err(e),
                    Ok(out) => if on != 0 && shut != 0 && out == 0 && a.closed && b.closed {
                        Ok(CouplersV { closed: c.closed.push((a.pos, b.pos)), ..c })
                    } else {
                        Ok(
                            CouplersV {
                                open: c.open.push((a.pos, b.pos, t.text(r, "loc_name"@))),
                                ..c
                            },
                        )
                    },
                },
            },
        },
    }
}

pub open spec fn couplers_n(
    m: Sem,
    decimal: char,
    conns: Seq<ConnV>,
    t: DgsTableV,
    n: nat,
) -> Outcome<
    CouplersV,
>
    decreases n,
{
    if n == 0 {
        Ok(CouplersV { loose: seq![], closed: seq![], open: seq![] })
    } else {
        match couplers_n(m, decimal, conns, t, (n - 1) as nat) {
            Err(e) => Err(e),
            Ok(c) => coupler_step(m, decimal, conns, c, t, t.rows[n - 1]),
        }
    }
}

proof fn lemma_couplers_stop(
    m: Sem,
    decimal: char,
    conns: Seq<ConnV>,
    t: DgsTableV,
    k: nat,
    n: nat,
)
    requires
        k <= n,
        couplers_n(m, decimal, conns, t, k) is Err,
    ensures
        couplers_n(m, decimal, conns, t, n) == couplers_n(m, decimal, conns, t, k),
    decreases n,
{
    if k < n {
        lemma_couplers_stop(m, decimal, conns, t, k, (n - 1) as nat);
    }
}

/// The couplers of a document.
pub open spec fn couplers_of(m: Sem, doc: DgsDocV) -> Outcome<CouplersV> {
    match doc.table("ElmCoup"@) {
        Some(t) => couplers_n(m, doc.decimal, conns_of(m, doc), t, t.rows.len()),
        None => Ok(CouplersV { loose: seq![], closed: seq![], open: seq![] }),
    }
}

/// Couplers between terminals among the first `n`.
pub open spec fn couplers_within(c: CouplersV, n: nat) -> bool {
    &&& forall|i: int| 0 <= i < c.closed.len() ==> (#[trigger] c.closed[i]).0 < n && c.closed[i].1 < n
    &&& forall|i: int| 0 <= i < c.open.len() ==> (#[trigger] c.open[i]).0 < n && c.open[i].1 < n
}

fn read_coupler<C: Calc>(
    math: &C,
    decimal: char,
    conns: &Vec<Conn>,
    c: &mut Couplers,
    t: &DgsTable,
    r: &DgsRow,
    Ghost(n): Ghost<nat>,
) -> (x: Result<()>)
    requires
        within(views(conns@), n),
        couplers_within(old(c)@, n),
    ensures
        match x {
            Ok(_) => coupler_step(math.sem(), decimal, views(conns@), old(c)@, t@, r@) == Ok::<
                CouplersV,
                ErrorV,
            >(final(c)@) && couplers_within(final(c)@, n),
            Err(e) => coupler_step(math.sem(), decimal, views(conns@), old(c)@, t@, r@) == Err::<
                CouplersV,
                ErrorV,
            >(e@),
        },
{
    broadcast use group_views;

    let id = t.id_of(r);
    let (a, b) = match two_terminals(conns, id.as_str(), Ghost(n)) {
        Some(p) => p,
        None => {
            let ghost before = c@;
            let ghost name = id@;
            c.loose.push(id);
            assert(c@.loose == before.loose.push(name));
            return Ok(());
        },
    };
    let on = match integer(math, decimal, t, r, "on_off", ONE) {
        Ok(x) => x,
        Err(e) => {
            return Err(e);
        },
    };
    let shut = match integer(math, decimal, t, r, "isclosed", ONE) {
        Ok(x) => x,
        Err(e) => {
            return Err(e);
        },
    };
    let out = match integer(math, decimal, t, r, "outserv", ZERO) {
        Ok(x) => x,
        Err(e) => {
            return Err(e);
        },
    };
    let ghost before = c@;
    if on != 0 && shut != 0 && out == 0 && a.closed && b.closed {
        c.closed.push((a.pos, b.pos));
        assert(c@.closed == before.closed.push((a.pos, b.pos)));
    } else {
        let name = match t.text(r, "loc_name") {
            Some(n) => Some(n.clone()),
            None => None,
        };
        let o = OpenCoupler { a: a.pos, b: b.pos, name };
        let ghost ov = o@;
        c.open.push(o);
        assert(c@.open == before.open.push(ov));
    }
    Ok(())
}

fn couplers<C: Calc>(math: &C, doc: &DgsDoc, conns: &Vec<Conn>, Ghost(n): Ghost<nat>) -> (x: Result<
    Couplers,
>)
    requires
        views(conns@) == conns_of(math.sem(), doc@),
        within(views(conns@), n),
    ensures
        match x {
            Ok(c) => couplers_of(math.sem(), doc@) == Ok::<CouplersV, ErrorV>(c@)
                && couplers_within(c@, n),
            Err(e) => couplers_of(math.sem(), doc@) == Err::<CouplersV, ErrorV>(e@),
        },
{
    let mut c = Couplers { loose: Vec::new(), closed: Vec::new(), open: Vec::new() };
    assert(c@.loose =~= seq![] && c@.closed =~= seq![] && c@.open =~= seq![]);
    let t = match doc.table("ElmCoup") {
        Some(t) => t,
        None => {
            return Ok(c);
        },
    };
    assert(t@.rows.len() == t.rows.len());
    let mut i: usize = 0;
    while i < t.rows.len()
        invariant
            i <= t.rows.len(),
            t@.rows.len() == t.rows.len(),
            views(conns@) == conns_of(math.sem(), doc@),
            within(views(conns@), n),
            couplers_within(c@, n),
            doc@.table("ElmCoup"@) == Some(t@),
            couplers_n(math.sem(), doc@.decimal, views(conns@), t@, i as nat) == Ok::<
                CouplersV,
                ErrorV,
            >(c@),
        decreases t.rows.len() - i,
    {
        assert(t@.rows[i as int] == t.rows@[i as int]@);
        match read_coupler(math, doc.decimal, conns, &mut c, t, &t.rows[i], Ghost(n)) {
            Ok(_) => {},
            Err(e) => {
                proof {
                    lemma_couplers_stop(
                        math.sem(),
                        doc@.decimal,
                        views(conns@),
                        t@,
                        (i + 1) as nat,
                        t@.rows.len(),
                    );
                }
                return Err(e);
            },
        }
        i = i + 1;
    }
    Ok(c)
}

/// The root of each of `n` terminal positions once closed couplers fuse them.
pub open spec fn roots_of(n: nat, pairs: Seq<(usize, usize)>) -> Seq<usize> {
    Seq::new(n, |i: int| fused_n(n, pairs, pairs.len())[i] as usize)
}

fn fuse(n: usize, pairs: &Vec<(usize, usize)>) -> (r: Vec<usize>)
    requires
        forall|i: int| 0 <= i < pairs.len() ==> (#[trigger] pairs@[i]).0 < n && pairs@[i].1 < n,
    ensures
        r@ == roots_of(n as nat, pairs@),
        r.len() == n,
        forall|i: int| 0 <= i < n ==> (#[trigger] r@[i]) <= i,
{
    let mut uf = UnionFind::new(n);
    let mut i: usize = 0;
    while i < pairs.len()
        invariant
            i <= pairs.len(),
            uf.wf(),
            uf@.len() == n,
            uf@ == fused_n(n as nat, pairs@, i as nat),
            forall|i: int|
                0 <= i < pairs.len() ==> (#[trigger] pairs@[i]).0 < n && pairs@[i].1 < n,
        decreases pairs.len() - i,
    {
        let p = pairs[i];
        assert(pairs@[i as int].0 < n);
        uf.union(p.0, p.1);
        i = i + 1;
    }
    let mut r: Vec<usize> = Vec::new();
    let mut k: usize = 0;
    while k < n
        invariant
            k <= n,
            r.len() == k,
            uf.wf(),
            uf@.len() == n,
            uf@ == fused_n(n as nat, pairs@, pairs@.len()),
            forall|i: int| 0 <= i < k ==> (#[trigger] r@[i]) == uf@[i] && r@[i] <= i,
        decreases n - k,
    {
        r.push(uf.find(k));
        k = k + 1;
    }
    assert(r@ =~= roots_of(n as nat, pairs@));
    r
}

// ---- buses -----------------------------------------------------------------

/// A terminal position before any element is read.
pub open spec fn seed_of(t: DgsTableV, roots: Seq<usize>, pos: int) -> BusAccumV {
    BusAccumV {
        live: roots[pos] == pos,
        id: match t.text(t.rows[pos], "loc_name"@) {
            Some(n) => n,
            None => "bus"@,
        },
        phases: seq![],
        neutral: false,
        uknom: ZERO,
    }
}

/// The first `n` positions: a bus takes the first nominal voltage among its
/// terminals that is not zero.
pub open spec fn buses_n(m: Sem, decimal: char, t: DgsTableV, roots: Seq<usize>, n: nat) -> Outcome<
    Seq<BusAccumV>,
>
    decreases n,
{
    if n == 0 {
        Ok(seq![])
    } else {
        match buses_n(m, decimal, t, roots, (n - 1) as nat) {
            Err(e) => Err(e),
            Ok(prior) => match num_of(m, decimal, t, t.rows[n - 1], "uknom"@, ZERO) {
                Err(e) => Err(e),
                Ok(u) => {
                    let list = prior.push(seed_of(t, roots, n - 1));
                    let root = roots[n - 1] as int;
                    if num_lt(abs_of(list[root].uknom), NANO) {
                        Ok(list.update(root, BusAccumV { uknom: u, ..list[root] }))
                    } else {
                        Ok(list)
                    }
                },
            },
        }
    }
}

proof fn lemma_buses_stop(m: Sem, decimal: char, t: DgsTableV, roots: Seq<usize>, k: nat, n: nat)
    requires
        k <= n,
        buses_n(m, decimal, t, roots, k) is Err,
    ensures
        buses_n(m, decimal, t, roots, n) == buses_n(m, decimal, t, roots, k),
    decreases n,
{
    if k < n {
        lemma_buses_stop(m, decimal, t, roots, k, (n - 1) as nat);
    }
}

fn buses<C: Calc>(math: &C, decimal: char, t: &DgsTable, roots: &Vec<usize>) -> (x: Result<
    Vec<BusAccum>,
>)
    requires
        roots.len() == t.rows.len(),
        forall|i: int| 0 <= i < roots.len() ==> (#[trigger] roots@[i]) <= i,
    ensures
        match x {
            Ok(v) => buses_n(math.sem(), decimal, t@, roots@, t@.rows.len()) == Ok::<
                Seq<BusAccumV>,
                ErrorV,
            >(views(v@)),
            Err(e) => buses_n(math.sem(), decimal, t@, roots@, t@.rows.len()) == Err::<
                Seq<BusAccumV>,
                ErrorV,
            >(e@),
        },
{
    broadcast use group_views;

    let mut out: Vec<BusAccum> = Vec::new();
    assert(views(out@) =~= seq![]);
    assert(t@.rows.len() == t.rows.len());
    let mut i: usize = 0;
    while i < t.rows.len()
        invariant
            i <= t.rows.len(),
            out.len() == i,
            t@.rows.len() == t.rows.len(),
            roots.len() == t.rows.len(),
            forall|i: int| 0 <= i < roots.len() ==> (#[trigger] roots@[i]) <= i,
            buses_n(math.sem(), decimal, t@, roots@, i as nat) == Ok::<Seq<BusAccumV>, ErrorV>(
                views(out@),
            ),
        decreases t.rows.len() - i,
    {
        let row = &t.rows[i];
        assert(t@.rows[i as int] == row@);
        let u = match num(math, decimal, t, row, "uknom", ZERO) {
            Ok(u) => u,
            Err(e) => {
                proof {
                    lemma_buses_stop(
                        math.sem(),
                        decimal,
                        t@,
                        roots@,
                        (i + 1) as nat,
                        t@.rows.len(),
                    );
                }
                return Err(e);
            },
        };
        let id = match t.text(row, "loc_name") {
            Some(n) => n.clone(),
            None => "bus".to_owned(),
        };
        let root = roots[i];
        assert(roots@[i as int] <= i);
        let ghost prior = views(out@);
        let phases: Vec<u8> = Vec::new();
        assert(phases@ =~= seq![]);
        let seed = BusAccum { live: root == i, id, phases, neutral: false, uknom: ZERO };
        assert(seed@ == seed_of(t@, roots@, i as int));
        out.push(seed);
        let ghost list = views(out@);
        assert(list == prior.push(seed_of(t@, roots@, i as int)));
        assert(list[root as int] == out@[root as int]@);
        if lt(abs(out[root].uknom), NANO) {
            out[root].uknom = u;
            assert(views(out@) =~= list.update(
                root as int,
                BusAccumV { uknom: u, ..list[root as int] },
            ));
        }
        i = i + 1;
    }
    Ok(out)
}

/// The state once the bus at a position is named.
pub open spec fn named_bus(st: ReaderV, i: int) -> ReaderV {
    if st.bus[i].live {
        let name = unique_of(st.used_bus, base_of(st.bus[i].id, "bus"@));
        ReaderV {
            bus: st.bus.update(i, BusAccumV { id: name, ..st.bus[i] }),
            used_bus: st.used_bus.push(name),
            ..st
        }
    } else {
        st
    }
}

/// The state once the first `n` buses have unique names, in order.
pub open spec fn named_n(st: ReaderV, n: nat) -> ReaderV
    decreases n,
{
    if n == 0 {
        st
    } else {
        named_bus(named_n(st, (n - 1) as nat), n - 1)
    }
}

fn name_buses(st: &mut Reader)
    ensures
        final(st)@ == named_n(old(st)@, old(st)@.bus.len()),
{
    broadcast use group_views;

    let n = st.bus.len();
    assert(st@.bus.len() == n);
    let mut i: usize = 0;
    while i < n
        invariant
            i <= n,
            st.bus.len() == n,
            old(st)@.bus.len() == n,
            st@ == named_n(old(st)@, i as nat),
        decreases n - i,
    {
        let ghost before = st@;
        assert(st@.bus[i as int] == st.bus@[i as int]@);
        if st.bus[i].live {
            let raw = st.bus[i].id.clone();
            let name = unique_name(&mut st.used_bus, raw.as_str(), "bus");
            let ghost nv = name@;
            st.bus[i].id = name;
            assert(st@.bus =~= before.bus.update(
                i as int,
                BusAccumV { id: nv, ..before.bus[i as int] },
            ));
            assert(st@ == named_bus(before, i as int));
        }
        i = i + 1;
    }
}

/// A bus as it ends up: its conductors, all three where none was seen, and a
/// grounded neutral where an element asked for one.
pub open spec fn bus_of(b: BusAccumV) -> DistBusV {
    let phases = if b.phases.len() == 0 {
        seq![1u8, 2u8, 3u8]
    } else {
        b.phases
    };
    DistBusV {
        grounded: if b.neutral {
            seq!["4"@]
        } else {
            seq![]
        },
        ..dist_bus_of(b.id, terminals_of(phases, b.neutral && !phases.contains(4u8)))
    }
}

pub open spec fn finished_n(bus: Seq<BusAccumV>, n: nat) -> Seq<DistBusV>
    decreases n,
{
    if n == 0 {
        seq![]
    } else if bus[n - 1].live {
        finished_n(bus, (n - 1) as nat).push(bus_of(bus[n - 1]))
    } else {
        finished_n(bus, (n - 1) as nat)
    }
}

fn holds_four(v: &Vec<u8>) -> (r: bool)
    ensures
        r == v@.contains(4u8),
{
    let mut i: usize = 0;
    while i < v.len()
        invariant
            i <= v.len(),
            forall|k: int| 0 <= k < i ==> v@[k] != 4u8,
        decreases v.len() - i,
    {
        if v[i] == 4 {
            assert(v@[i as int] == 4u8);
            return true;
        }
        i = i + 1;
    }
    false
}

fn finish_bus(st: &Reader, i: usize) -> (r: DistBus)
    requires
        i < st.bus.len(),
        st.bus@[i as int].live,
    ensures
        r@ == bus_of(st@.bus[i as int]),
{
    broadcast use group_views;

    assert(st@.bus[i as int] == st.bus@[i as int]@);
    let phases = st.bus_phases(i);
    let neutral = st.bus[i].neutral;
    let wire = holds_four(&phases);
    let mut bus = DistBus::new(
        st.bus[i].id.clone(),
        phase_terminals(&phases, neutral && !wire),
    );
    let mut grounded: Vec<String> = Vec::new();
    if neutral {
        grounded.push("4".to_owned());
        assert(views(grounded@) =~= seq!["4"@]);
    } else {
        assert(views(grounded@) =~= seq![]);
    }
    bus.grounded = grounded;
    bus
}

fn finish_buses(st: &Reader) -> (r: Vec<DistBus>)
    ensures
        views(r@) == finished_n(st@.bus, st@.bus.len()),
{
    broadcast use group_views;

    let mut out: Vec<DistBus> = Vec::new();
    assert(views(out@) =~= seq![]);
    assert(st@.bus.len() == st.bus.len());
    let mut i: usize = 0;
    while i < st.bus.len()
        invariant
            i <= st.bus.len(),
            st@.bus.len() == st.bus.len(),
            views(out@) == finished_n(st@.bus, i as nat),
        decreases st.bus.len() - i,
    {
        assert(st@.bus[i as int] == st.bus@[i as int]@);
        if st.bus[i].live {
            out.push(finish_bus(st, i));
        }
        i = i + 1;
    }
    out
}

// ---- open couplers ---------------------------------------------------------

/// The state and the switches.
pub struct SwitchesV {
    pub st: ReaderV,
    pub switches: Seq<DistSwitchV>,
}

/// An open coupler between two buses is an open switch on the conductors seen at
/// each.
pub open spec fn switch_step(
    case: CaseV,
    s: SwitchesV,
    c: (usize, usize, Option<Seq<char>>),
) -> SwitchesV {
    let a = case.root(c.0);
    let b = case.root(c.1);
    if a == b {
        s
    } else {
        let raw = match c.2 {
            Some(n) => n,
            None => "coup"@,
        };
        SwitchesV {
            st: s.st.name_elem(raw),
            switches: s.switches.push(
                dist_switch_of(
                    s.st.elem_name(raw),
                    s.st.bus_id(a),
                    s.st.bus_id(b),
                    terminals_of(s.st.bus_phases(a), false),
                    terminals_of(s.st.bus_phases(b), false),
                    true,
                ),
            ),
        }
    }
}

pub open spec fn switches_n(
    case: CaseV,
    st: ReaderV,
    open: Seq<(usize, usize, Option<Seq<char>>)>,
    n: nat,
) -> SwitchesV
    decreases n,
{
    if n == 0 {
        SwitchesV { st, switches: seq![] }
    } else {
        switch_step(case, switches_n(case, st, open, (n - 1) as nat), open[n - 1])
    }
}

fn switches(case: &Case, st: &mut Reader, open: &Vec<OpenCoupler>) -> (r: Vec<DistSwitch>)
    requires
        forall|i: int|
            0 <= i < open.len() ==> (#[trigger] open@[i]).a < case.roots@.len() && open@[i].b
                < case.roots@.len(),
    ensures
        ({
            let want = switches_n(case@, old(st)@, views(open@), views(open@).len());
            want.st == final(st)@ && want.switches == views(r@)
        }),
{
    broadcast use group_views;

    let mut out: Vec<DistSwitch> = Vec::new();
    assert(views(out@) =~= seq![]);
    assert(views(open@).len() == open.len());
    let mut i: usize = 0;
    while i < open.len()
        invariant
            i <= open.len(),
            views(open@).len() == open.len(),
            forall|i: int|
                0 <= i < open.len() ==> (#[trigger] open@[i]).a < case.roots@.len() && open@[i].b
                    < case.roots@.len(),
            switches_n(case@, old(st)@, views(open@), i as nat) == (SwitchesV {
                st: st@,
                switches: views(out@),
            }),
        decreases open.len() - i,
    {
        assert(views(open@)[i as int] == open@[i as int]@);
        let ghost prior = SwitchesV { st: st@, switches: views(out@) };
        let ghost at = open@[i as int]@;
        let a = case.roots[open[i].a];
        let b = case.roots[open[i].b];
        assert(a == case@.root(at.0) && b == case@.root(at.1));
        if a != b {
            let map_a = phase_terminals(&st.bus_phases(a), false);
            let map_b = phase_terminals(&st.bus_phases(b), false);
            let id_a = st.bus_id(a);
            let id_b = st.bus_id(b);
            let raw = match &open[i].name {
                Some(n) => n.clone(),
                None => "coup".to_owned(),
            };
            assert(at.2 == opt_view(open@[i as int].name));
            assert(raw@ == match at.2 {
                Some(n) => n,
                None => "coup"@,
            });
            let name = st.name_elem(raw.as_str());
            let s = DistSwitch::new(name, id_a, id_b, map_a, map_b, true);
            let ghost sv = s@;
            out.push(s);
            assert(views(out@) == prior.switches.push(sv));
        }
        assert((SwitchesV { st: st@, switches: views(out@) }) == switch_step(case@, prior, at));
        i = i + 1;
    }
    out
}

// ---- closing warnings ------------------------------------------------------

/// How many of the first `n` names are `x`.
pub open spec fn count_n(list: Seq<Seq<char>>, x: Seq<char>, n: nat) -> nat
    decreases n,
{
    if n == 0 {
        0
    } else if list[n - 1] == x {
        count_n(list, x, (n - 1) as nat) + 1
    } else {
        count_n(list, x, (n - 1) as nat)
    }
}

fn count(list: &Vec<String>, x: &str) -> (r: usize)
    ensures
        r == count_n(views(list@), x@, views(list@).len()),
{
    assert(views(list@).len() == list.len());
    let mut c: usize = 0;
    let mut i: usize = 0;
    while i < list.len()
        invariant
            c <= i <= list.len(),
            c == count_n(views(list@), x@, i as nat),
        decreases list.len() - i,
    {
        assert(views(list@)[i as int] == list@[i as int]@);
        if same(list[i].as_str(), x) {
            c = c + 1;
        }
        i = i + 1;
    }
    c
}

/// The classes that elements out of service are counted under, in order.
pub open spec fn skip_classes() -> Seq<Seq<char>> {
    seq![
        "ElmLne"@,
        "ElmLod"@,
        "ElmShnt"@,
        "ElmTr2"@,
        "ElmTr3"@,
        "ElmXnet"@,
        "machine"@,
    ]
}

/// The warnings on elements out of service, of the first `n` classes.
pub open spec fn skips_said(w: Seq<Seq<char>>, skipped: Seq<Seq<char>>, n: nat) -> Seq<Seq<char>>
    decreases n,
{
    if n == 0 {
        w
    } else {
        let before = skips_said(w, skipped, (n - 1) as nat);
        let class = skip_classes()[n - 1];
        let c = count_n(skipped, class, skipped.len());
        if c > 0 {
            before.push(
                dec_of(c) + " out-of-service `"@ + class
                    + "` element(s) skipped (the distribution model has no disable flag)"@,
            )
        } else {
            before
        }
    }
}

fn say_skips(w: &mut Vec<String>, skipped: &Vec<String>)
    ensures
        views(final(w)@) == skips_said(views(old(w)@), views(skipped@), 7),
{
    broadcast use group_views;

    let classes: Vec<&'static str> = vec![
        "ElmLne",
        "ElmLod",
        "ElmShnt",
        "ElmTr2",
        "ElmTr3",
        "ElmXnet",
        "machine",
    ];
    assert(views(classes@) =~= skip_classes());
    let mut i: usize = 0;
    while i < classes.len()
        invariant
            i <= classes.len(),
            classes.len() == 7,
            views(classes@) == skip_classes(),
            views(w@) == skips_said(views(old(w)@), views(skipped@), i as nat),
        decreases classes.len() - i,
    {
        assert(views(classes@)[i as int] == classes@[i as int]@);
        let c = count(skipped, classes[i]);
        if c > 0 {
            let d = dec_usize(c);
            w.push(
                cat4(
                    d.as_str(),
                    " out-of-service `",
                    classes[i],
                    "` element(s) skipped (the distribution model has no disable flag)",
                ),
            );
        }
        i = i + 1;
    }
}

/// The classes that the reader maps or reads for their structure.
pub open spec fn mapped_classes() -> Seq<Seq<char>> {
    seq![
        "General"@,
        "ElmNet"@,
        "ElmTerm"@,
        "ElmLod"@,
        "ElmLodlv"@,
        "ElmLodmv"@,
        "ElmShnt"@,
        "ElmSym"@,
        "ElmGenstat"@,
        "ElmPvsys"@,
        "ElmAsm"@,
        "ElmXnet"@,
        "ElmLne"@,
        "ElmLnesec"@,
        "ElmTow"@,
        "ElmCoup"@,
        "ElmTr2"@,
        "ElmTr3"@,
        "TypLod"@,
        "TypLne"@,
        "TypTow"@,
        "TypGeo"@,
        "TypCabsys"@,
        "TypTr2"@,
        "TypTr3"@,
        "StaCubic"@,
        "StaSwitch"@,
        "Matrix"@,
        "VecDouble"@,
    ]
}

fn mapped_list() -> (r: Vec<&'static str>)
    ensures
        views(r@) == mapped_classes(),
{
    let r: Vec<&'static str> = vec![
        "General",
        "ElmNet",
        "ElmTerm",
        "ElmLod",
        "ElmLodlv",
        "ElmLodmv",
        "ElmShnt",
        "ElmSym",
        "ElmGenstat",
        "ElmPvsys",
        "ElmAsm",
        "ElmXnet",
        "ElmLne",
        "ElmLnesec",
        "ElmTow",
        "ElmCoup",
        "ElmTr2",
        "ElmTr3",
        "TypLod",
        "TypLne",
        "TypTow",
        "TypGeo",
        "TypCabsys",
        "TypTr2",
        "TypTr3",
        "StaCubic",
        "StaSwitch",
        "Matrix",
        "VecDouble",
    ];
    assert(views(r@) =~= mapped_classes());
    r
}

pub open spec fn ignored_said(w: Seq<Seq<char>>, tables: Seq<DgsTableV>, n: nat) -> Seq<Seq<char>>
    decreases n,
{
    if n == 0 {
        w
    } else {
        let before = ignored_said(w, tables, (n - 1) as nat);
        let t = tables[n - 1];
        if t.rows.len() == 0 || mapped_classes().contains(t.class) {
            before
        } else {
            before.push(
                "`"@ + t.class + "` table ignored ("@ + dec_of(t.rows.len())
                    + " rows): not mapped to the distribution model"@,
            )
        }
    }
}

fn say_ignored(w: &mut Vec<String>, doc: &DgsDoc)
    ensures
        views(final(w)@) == ignored_said(views(old(w)@), doc@.tables, doc@.tables.len()),
{
    broadcast use group_views;

    let mapped = mapped_list();
    assert(doc@.tables.len() == doc.tables.len());
    let mut i: usize = 0;
    while i < doc.tables.len()
        invariant
            i <= doc.tables.len(),
            doc@.tables.len() == doc.tables.len(),
            views(mapped@) == mapped_classes(),
            views(w@) == ignored_said(views(old(w)@), doc@.tables, i as nat),
        decreases doc.tables.len() - i,
    {
        let t = &doc.tables[i];
        assert(doc@.tables[i as int] == t@);
        assert(t@.rows.len() == t.rows.len());
        if t.rows.len() > 0 && !holds(&mapped, t.class.as_str()) {
            let n = dec_usize(t.rows.len());
            w.push(
                cat5(
                    "`",
                    t.class.as_str(),
                    "` table ignored (",
                    n.as_str(),
                    " rows): not mapped to the distribution model",
                ),
            );
        }
        i = i + 1;
    }
}

/// The warnings that close a reading.
pub open spec fn closing(st: ReaderV, sources: nat, doc: DgsDocV) -> Seq<Seq<char>> {
    let w = if st.defaulted.len() > 0 {
        st.warnings.push(
            dec_of(st.defaulted.len())
                + " single-phase element(s) defaulted to phase 1; DGS did not pin a phase (StaCubic cPhInfo)"@,
        )
    } else {
        st.warnings
    };
    let w = skips_said(w, st.skipped, 7);
    let w = if sources == 0 {
        w.push("no ElmXnet external grid; BMOPF requires exactly one voltage source"@)
    } else {
        w
    };
    ignored_said(w, doc.tables, doc.tables.len())
}

fn close(st: Reader, sources: usize, doc: &DgsDoc) -> (w: Vec<String>)
    ensures
        views(w@) == closing(st@, sources as nat, doc@),
{
    broadcast use group_views;

    assert(views(st.defaulted@).len() == st.defaulted.len());
    let n = st.defaulted.len();
    let mut w = st.warnings;
    if n > 0 {
        let d = dec_usize(n);
        w.push(
            cat2(
                d.as_str(),
                " single-phase element(s) defaulted to phase 1; DGS did not pin a phase (StaCubic cPhInfo)",
            ),
        );
    }
    say_skips(&mut w, &st.skipped);
    if sources == 0 {
        w.push("no ElmXnet external grid; BMOPF requires exactly one voltage source".to_owned());
    }
    say_ignored(&mut w, doc);
    w
}

// ---- the network -----------------------------------------------------------

/// The state with a warning of each of the first `n` couplers that the cubicles
/// do not connect.
pub open spec fn loose_n(st: ReaderV, loose: Seq<Seq<char>>, n: nat) -> ReaderV
    decreases n,
{
    if n == 0 {
        st
    } else {
        loose_n(st, loose, (n - 1) as nat).unconnected("ElmCoup"@, loose[n - 1])
    }
}

pub proof fn lemma_loose_keeps(st: ReaderV, loose: Seq<Seq<char>>, n: nat)
    ensures
        loose_n(st, loose, n).bus == st.bus,
        loose_n(st, loose, n).used_bus == st.used_bus,
    decreases n,
{
    reveal(ReaderV::warn);
    if n > 0 {
        lemma_loose_keeps(st, loose, (n - 1) as nat);
    }
}

fn say_loose(st: &mut Reader, loose: &Vec<String>)
    ensures
        final(st)@ == loose_n(old(st)@, views(loose@), views(loose@).len()),
{
    assert(views(loose@).len() == loose.len());
    let mut i: usize = 0;
    while i < loose.len()
        invariant
            i <= loose.len(),
            st@ == loose_n(old(st)@, views(loose@), i as nat),
        decreases loose.len() - i,
    {
        assert(views(loose@)[i as int] == loose@[i as int]@);
        st.unconnected("ElmCoup", loose[i].as_str());
        i = i + 1;
    }
}

/// The state before any element is read.
pub open spec fn start_of(
    g: GridV,
    loose: Seq<Seq<char>>,
    fused: nat,
    bus: Seq<BusAccumV>,
) -> ReaderV {
    let empty = ReaderV {
        warnings: seq![],
        bus,
        used_bus: seq![],
        used_linecode: seq![],
        used_elem: seq![],
        cache: seq![],
        defaulted: seq![],
        skipped: seq![],
        said_explicit: false,
        said_expanded: false,
        said_no_zero: false,
        said_two_phase: false,
    };
    let st = if g.disagree {
        empty.warn("DGS grids declare different nominal frequencies; used the first"@)
    } else {
        empty
    };
    let st = if fused > 0 {
        st.warn("fused "@ + dec_of(fused) + " terminal pair(s) joined by closed couplers"@)
    } else {
        st
    };
    named_n(loose_n(st, loose, loose.len()), bus.len())
}

fn start(g: &Grid, loose: &Vec<String>, fused: usize, bus: Vec<BusAccum>) -> (r: Reader)
    ensures
        r@ == start_of(g@, views(loose@), fused as nat, views(bus@)),
{
    broadcast use group_views;

    let mut st = Reader {
        warnings: Vec::new(),
        bus,
        used_bus: Vec::new(),
        used_linecode: Vec::new(),
        used_elem: Vec::new(),
        cache: Vec::new(),
        defaulted: Vec::new(),
        skipped: Vec::new(),
        said_explicit: false,
        said_expanded: false,
        said_no_zero: false,
        said_two_phase: false,
    };
    assert(st@.warnings =~= seq![] && st@.used_bus =~= seq![] && st@.used_linecode =~= seq![]
        && st@.used_elem =~= seq![] && st@.cache =~= seq![] && st@.defaulted =~= seq![]
        && st@.skipped =~= seq![]);
    reveal(ReaderV::warn);
    if g.disagree {
        st.warn(
            "DGS grids declare different nominal frequencies; used the first".to_owned(),
        );
    }
    if fused > 0 {
        let d = dec_usize(fused);
        st.warn(cat3("fused ", d.as_str(), " terminal pair(s) joined by closed couplers"));
    }
    let ghost unwarned = st@;
    say_loose(&mut st, loose);
    proof {
        lemma_loose_keeps(unwarned, views(loose@), views(loose@).len());
    }
    name_buses(&mut st);
    st
}

/// The network of a case, once every element is read.
pub open spec fn assembled(
    case: CaseV,
    g: GridV,
    hint: Option<Seq<char>>,
    open: Seq<(usize, usize, Option<Seq<char>>)>,
    l: LinesV,
    x: XfsV,
    i: InjV,
) -> DistNetworkV {
    let s = switches_n(case, i.st, open, open.len());
    DistNetworkV {
        name: Some(name_of(g, hint)),
        base_frequency: base_frequency_of(g),
        buses: finished_n(s.st.bus, s.st.bus.len()),
        linecodes: l.codes,
        lines: l.lines,
        switches: s.switches,
        transformers: x.xfs,
        loads: i.loads,
        generators: i.gens,
        shunts: i.shunts,
        sources: i.sources,
        warnings: closing(s.st, i.sources.len(), case.doc),
        source_format: None,
        ..dist_network_of()
    }
}

/// The elements of a case read in turn: lines, transformers, then those with one
/// terminal.
pub open spec fn elements_of(
    m: Sem,
    case: CaseV,
    g: GridV,
    hint: Option<Seq<char>>,
    open: Seq<(usize, usize, Option<Seq<char>>)>,
    st: ReaderV,
) -> Outcome<DistNetworkV> {
    match lines_of(m, case, base_frequency_of(g), st) {
        Err(e) => Err(e),
        Ok(l) => match transformers_of(m, case, l.st) {
            Err(e) => Err(e),
            Ok(x) => match injections_of(m, case, x.st) {
                Err(e) => Err(e),
                Ok(i) => Ok(assembled(case, g, hint, open, l, x, i)),
            },
        },
    }
}

/// The network that a scanned document describes, or why it describes none;
/// `hint` names it where its grid does not.
pub open spec fn network_of(
    m: Sem,
    doc: DgsDocV,
    hint: Option<Seq<char>>,
) -> Outcome<DistNetworkV> {
    let none = refusal(
        "this DGS file carries only operational updates (no ElmTerm topology); export the full model"@,
    );
    match doc.table("ElmTerm"@) {
        None => Err(none),
        Some(t) => if t.rows.len() == 0 {
            Err(none)
        } else {
            match couplers_of(m, doc) {
                Err(e) => Err(e),
                Ok(c) => {
                    let roots = roots_of(t.rows.len(), c.closed);
                    match buses_n(m, doc.decimal, t, roots, t.rows.len()) {
                        Err(e) => Err(e),
                        Ok(bus) => {
                            let g = grid_of(m, doc);
                            let case = CaseV { doc, conns: conns_of(m, doc), roots };
                            elements_of(
                                m,
                                case,
                                g,
                                hint,
                                c.open,
                                start_of(g, c.loose, c.closed.len(), bus),
                            )
                        },
                    }
                },
            }
        },
    }
}

fn assemble(
    case: &Case,
    g: Grid,
    hint: Option<&str>,
    open: &Vec<OpenCoupler>,
    st: Reader,
    codes: Vec<DistLineCode>,
    out_lines: Vec<DistLine>,
    xfs: Vec<DistTransformer>,
    inj: Inj,
    Ghost(l): Ghost<LinesV>,
    Ghost(x): Ghost<XfsV>,
) -> (r: DistNetwork)
    requires
        l.codes == views(codes@),
        l.lines == views(out_lines@),
        x.xfs == views(xfs@),
        forall|i: int|
            0 <= i < open.len() ==> (#[trigger] open@[i]).a < case.roots@.len() && open@[i].b
                < case.roots@.len(),
    ensures
        r@ == assembled(
            case@,
            g@,
            (match hint {
                Some(h) => Some(h@),
                None => None,
            }),
            views(open@),
            l,
            x,
            inj_view(st@, inj),
        ),
{
    let mut st = st;
    let out = switches(case, &mut st, open);
    let list = finish_buses(&st);
    assert(views(inj.sources@).len() == inj.sources.len());
    let warnings = close(st, inj.sources.len(), case.doc);
    let name = match g.name {
        Some(n) => n,
        None => match hint {
            Some(h) => h.to_owned(),
            None => "case".to_owned(),
        },
    };
    let mut net = DistNetwork::new();
    net.name = Some(name);
    net.base_frequency = match g.freq {
        Some(f) => f,
        None => FIFTY,
    };
    net.buses = list;
    net.linecodes = codes;
    net.lines = out_lines;
    net.switches = out;
    net.transformers = xfs;
    net.loads = inj.loads;
    net.generators = inj.gens;
    net.shunts = inj.shunts;
    net.sources = inj.sources;
    net.warnings = warnings;
    net
}

/// Reads a scanned document.
pub fn build<C: Calc>(math: &C, doc: &DgsDoc, hint: Option<&str>) -> (r: Result<DistNetwork>)
    ensures
        outcome(r) == network_of(
            math.sem(),
            doc@,
            (match hint {
                Some(h) => Some(h@),
                None => None,
            }),
        ),
{
    let t = match doc.table("ElmTerm") {
        Some(t) => t,
        None => {
            return Err(
                refuse(
                    "this DGS file carries only operational updates (no ElmTerm topology); export the full model".to_owned(),
                ),
            );
        },
    };
    assert(t@.rows.len() == t.rows.len());
    if t.rows.len() == 0 {
        return Err(
            refuse(
                "this DGS file carries only operational updates (no ElmTerm topology); export the full model".to_owned(),
            ),
        );
    }
    let g = grid(math, doc);
    let conns = connections(math, doc, t);
    let c = match couplers(math, doc, &conns, Ghost(t.rows@.len())) {
        Ok(c) => c,
        Err(e) => {
            return Err(e);
        },
    };
    let n = t.rows.len();
    assert forall|i: int| 0 <= i < c.closed@.len() implies (#[trigger] c.closed@[i]).0 < n
        && c.closed@[i].1 < n by {
        assert(c@.closed[i].0 < n);
    }
    let roots = fuse(n, &c.closed);
    let list = match buses(math, doc.decimal, t, &roots) {
        Ok(v) => v,
        Err(e) => {
            return Err(e);
        },
    };
    let mut st = start(&g, &c.loose, c.closed.len(), list);
    let f = match g.freq {
        Some(f) => f,
        None => FIFTY,
    };
    let case = Case { doc, conns, roots };
    let ghost st0 = st@;
    let (codes, out_lines) = match lines(math, &case, f, &mut st) {
        Ok(p) => p,
        Err(e) => {
            return Err(e);
        },
    };
    let ghost l = lines_view(st@, codes@, out_lines@);
    let xfs = match transformers(math, &case, &mut st) {
        Ok(p) => p,
        Err(e) => {
            return Err(e);
        },
    };
    let ghost x = xfs_view(st@, xfs@);
    let inj = match injections(math, &case, &mut st) {
        Ok(p) => p,
        Err(e) => {
            return Err(e);
        },
    };
    assert forall|i: int| 0 <= i < c.open@.len() implies (#[trigger] c.open@[i]).a
        < case.roots@.len() && c.open@[i].b < case.roots@.len() by {
        assert(c@.open[i] == c.open@[i]@);
        assert(c@.open[i].0 < n);
    }
    Ok(assemble(&case, g, hint, &c.open, st, codes, out_lines, xfs, inj, Ghost(l), Ghost(x)))
}

} // verus!
