//! What a network that is read has from the rows of its document, as a whole.

use vstd::prelude::*;

use crate::dgs::coded::codes_stay;
use crate::dgs::lines::lines_of;
use crate::dgs::network::{
    assembled, base_frequency_of, buses_n, couplers_n, couplers_of, finished_n, grid_n, grid_of,
    loose_n, lemma_loose_keeps, named_bus, named_n, network_of, roots_of, seed_of, start_of,
    switches_n, GridV,
};
use crate::dgs::scan::{int_of, whole_of, DgsDocV, DgsRowV, DgsTableV};
use crate::dgs::spans::{code_at, lemma_ends_are_alike, are_lines, drawn, lemma_lines, some_code};
use crate::dgs::state::{BusAccumV, CaseV, ReaderV};
use crate::dgs::topology::{
    resolve_from, resolve_of, row_named, closed_n, conn_from, conn_of, conns_n, conns_of, last_row,
    lemma_root_is_smallest, one_of, two_of, ConnV,
};
use crate::dgs::transformers::transformers_of;
use crate::dgs::injections::injections_of;
use crate::dgs::values::{
    lemma_windings_share, anchors, first_of, follows, generator_rule, group_anchors, is_named,
    lemma_injections, lemma_transformers, lemma_unique, load_rows, load_rule, machine_rows, rest_of,
    serving, shunt_rule, source_rule, told, transformer_rule, transforming, SiteV,
};
use crate::error::ErrorV;
use crate::math::{abs_of, num_lt, Bits, Sem, FIFTY, MINUS_ONE, NANO, ONE, ZERO};
use crate::model::{DistNetworkV, DistSwitchV};
use crate::text::{has_prefix, trim_of};

verus! {

// ---- pointers --------------------------------------------------------------

/// A row of a document goes by an identity.
pub open spec fn goes_as(doc: DgsDocV, a: int, b: int, id: Seq<char>) -> bool {
    &&& 0 <= a < doc.tables.len()
    &&& 0 <= b < doc.tables[a].rows.len()
    &&& doc.tables[a].id_of(doc.tables[a].rows[b]) == id
}

proof fn lemma_no_row(t: DgsTableV, id: Seq<char>, j: int)
    requires
        j <= t.rows.len(),
    ensures
        last_row(t, id, j) is None ==> forall|b: int|
            0 <= b < j ==> t.id_of(#[trigger] t.rows[b]) != id,
    decreases j,
{
    if j > 0 && t.id_of(t.rows[j - 1]) != id {
        lemma_no_row(t, id, j - 1);
    }
}

proof fn lemma_resolve_from(doc: DgsDocV, key: Seq<char>, j: int)
    requires
        j <= doc.tables.len(),
    ensures
        match resolve_from(doc.tables, key, j) {
            Some(p) => exists|a: int, b: int| #[trigger]
                goes_as(doc, a, b, key) && p == (doc.tables[a], doc.tables[a].rows[b]),
            None => forall|a: int, b: int| a < j ==> !#[trigger] goes_as(doc, a, b, key),
        },
    decreases j,
{
    if j > 0 {
        let t = doc.tables[j - 1];
        lemma_last_row(t, key, t.rows.len() as int);
        lemma_no_row(t, key, t.rows.len() as int);
        if let Some(i) = row_named(t, key) {
            assert(goes_as(doc, j - 1, i, key));
        } else {
            lemma_resolve_from(doc, key, j - 1);
        }
    }
}

/// A pointer leads to a row that goes by its identity, where there is any.
pub proof fn lemma_pointer_leads_to_its_row(doc: DgsDocV, key: Seq<char>)
    requires
        key.len() > 0,
    ensures
        match resolve_of(doc, key) {
            Some(p) => exists|a: int, b: int| #[trigger]
                goes_as(doc, a, b, key) && p == (doc.tables[a], doc.tables[a].rows[b]),
            None => forall|a: int, b: int| !#[trigger] goes_as(doc, a, b, key),
        },
{
    lemma_resolve_from(doc, key, doc.tables.len() as int);
}

// ---- cubicles --------------------------------------------------------------

/// A switch in a cubicle is open.
pub open spec fn is_open_in(
    m: Sem,
    doc: DgsDocV,
    t: DgsTableV,
    i: int,
    cubicle: Seq<char>,
) -> bool {
    &&& t.ptr(t.rows[i], "fold_id"@) == Some(cubicle)
    &&& int_of(m, doc.decimal, t, t.rows[i], "on_off"@, ONE) == Ok::<i64, ErrorV>(0i64)
}

/// Every switch in a cubicle is closed.
pub open spec fn is_shut(m: Sem, doc: DgsDocV, cubicle: Seq<char>) -> bool {
    match doc.table("StaSwitch"@) {
        Some(t) => forall|i: int|
            0 <= i < t.rows.len() ==> !#[trigger] is_open_in(m, doc, t, i, cubicle),
        None => true,
    }
}

/// A cubicle pins a conductor, by its number or that behind an `L`.
pub open spec fn pins(e: (DgsTableV, DgsRowV), long: Seq<char>, short: Seq<char>) -> bool {
    match e.0.text(e.1, "cPhInfo"@) {
        Some(info) => trim_of(info) == long || trim_of(info) == short,
        None => false,
    }
}

/// A connection that a cubicle makes: of the element that it points to, on the
/// side that it says, to the terminal that it stands in.
pub open spec fn is_cubicle(m: Sem, doc: DgsDocV, e: (DgsTableV, DgsRowV), c: ConnV) -> bool {
    &&& e.0.ptr(e.1, "obj_id"@) == Some(c.obj)
    &&& !has_prefix(c.obj, "##"@)
    &&& c.side == whole_of(m, told(m, doc, e, "obj_bus"@, MINUS_ONE))
    &&& c.side >= 0
    &&& doc.table("ElmTerm"@) matches Some(t)
    &&& c.pos < t.rows.len()
    &&& e.0.ptr(e.1, "fold_id"@) == Some(t.id_of(t.rows[c.pos as int]))
    &&& c.closed == is_shut(m, doc, e.0.id_of(e.1))
    &&& (c.phase == Some(1u8)) == pins(e, "L1"@, "1"@)
    &&& (c.phase == Some(2u8)) == pins(e, "L2"@, "2"@)
    &&& (c.phase == Some(3u8)) == pins(e, "L3"@, "3"@)
    &&& c.phase matches Some(k) ==> 1 <= k <= 3
}

/// A connection is that of some cubicle.
pub open spec fn some_cubicle(m: Sem, doc: DgsDocV, c: ConnV) -> bool {
    exists|t: DgsTableV, i: int|
        doc.table("StaCubic"@) == Some(t) && 0 <= i < t.rows.len() && #[trigger] is_cubicle(
            m,
            doc,
            (t, t.rows[i]),
            c,
        )
}

proof fn lemma_closed(m: Sem, doc: DgsDocV, t: DgsTableV, cubicle: Seq<char>, n: nat)
    requires
        n <= t.rows.len(),
    ensures
        closed_n(m, doc.decimal, t, cubicle, n) == forall|i: int|
            0 <= i < n ==> !#[trigger] is_open_in(m, doc, t, i, cubicle),
    decreases n,
{
    if n > 0 {
        lemma_closed(m, doc, t, cubicle, (n - 1) as nat);
        let last = is_open_in(m, doc, t, n - 1, cubicle);
        if closed_n(m, doc.decimal, t, cubicle, n) {
            assert forall|i: int| 0 <= i < n implies !#[trigger] is_open_in(
                m,
                doc,
                t,
                i,
                cubicle,
            ) by {}
        } else if closed_n(m, doc.decimal, t, cubicle, (n - 1) as nat) {
            assert(last);
        }
    }
}

proof fn lemma_last_row(t: DgsTableV, id: Seq<char>, j: int)
    requires
        j <= t.rows.len(),
    ensures
        last_row(t, id, j) matches Some(i) ==> 0 <= i < j && t.id_of(t.rows[i]) == id,
    decreases j,
{
    if j > 0 && t.id_of(t.rows[j - 1]) != id {
        lemma_last_row(t, id, j - 1);
    }
}

proof fn lemma_cubicle(m: Sem, doc: DgsDocV, e: (DgsTableV, DgsRowV))
    requires
        doc.table("ElmTerm"@) matches Some(t) ==> t.rows.len() <= usize::MAX,
    ensures
        conn_of(m, doc, e.0, e.1) matches Some(c) ==> is_cubicle(m, doc, e, c),
{
    if let Some(t) = doc.table("ElmTerm"@) {
        if let Some(f) = e.0.ptr(e.1, "fold_id"@) {
            lemma_last_row(t, f, t.rows.len() as int);
        }
    }
    if let Some(t) = doc.table("StaSwitch"@) {
        lemma_closed(m, doc, t, e.0.id_of(e.1), t.rows.len());
    }
    reveal_strlit("L1");
    reveal_strlit("L2");
    reveal_strlit("L3");
    reveal_strlit("1");
    reveal_strlit("2");
    reveal_strlit("3");
    assert("L1"@[1] == '1' && "L2"@[1] == '2' && "L3"@[1] == '3');
    assert("1"@[0] == '1' && "2"@[0] == '2' && "3"@[0] == '3');
    assert("L1"@.len() == 2 && "L2"@.len() == 2 && "L3"@.len() == 2);
    assert("1"@.len() == 1 && "2"@.len() == 1 && "3"@.len() == 1);
}

proof fn lemma_conns_n(m: Sem, doc: DgsDocV, t: DgsTableV, n: nat)
    requires
        doc.table("StaCubic"@) == Some(t),
        n <= t.rows.len(),
        doc.table("ElmTerm"@) matches Some(t) ==> t.rows.len() <= usize::MAX,
    ensures
        forall|k: int|
            0 <= k < conns_n(m, doc, t, n).len() ==> some_cubicle(
                m,
                doc,
                #[trigger] conns_n(m, doc, t, n)[k],
            ),
    decreases n,
{
    if n > 0 {
        lemma_conns_n(m, doc, t, (n - 1) as nat);
        lemma_cubicle(m, doc, (t, t.rows[n - 1]));
        let before = conns_n(m, doc, t, (n - 1) as nat);
        let after = conns_n(m, doc, t, n);
        assert forall|k: int| 0 <= k < after.len() implies some_cubicle(
            m,
            doc,
            #[trigger] after[k],
        ) by {
            if k < before.len() {
                assert(after[k] == before[k]);
            } else {
                assert(is_cubicle(m, doc, (t, t.rows[n - 1]), after[k]));
            }
        }
    }
}

/// Every connection of a document is that of a cubicle. The terminals are as many
/// as can be counted.
pub proof fn lemma_connections_are_of_cubicles(m: Sem, doc: DgsDocV, k: int)
    requires
        0 <= k < conns_of(m, doc).len(),
        doc.table("ElmTerm"@) matches Some(t) ==> t.rows.len() <= usize::MAX,
    ensures
        some_cubicle(m, doc, conns_of(m, doc)[k]),
{
    if let Some(t) = doc.table("StaCubic"@) {
        lemma_conns_n(m, doc, t, t.rows.len());
    }
}

proof fn lemma_conn_from(conns: Seq<ConnV>, id: Seq<char>, side: Option<i64>, i: int)
    requires
        0 <= i,
    ensures
        conn_from(conns, id, side, i) matches Some(c) ==> conns.contains(c) && c.obj == id && (
        side is None || side == Some(c.side)),
    decreases conns.len() - i,
{
    if i < conns.len() {
        if conns[i].obj == id && (side is None || side == Some(conns[i].side)) {
            assert(conns.contains(conns[i]));
        } else {
            lemma_conn_from(conns, id, side, i + 1);
        }
    }
}

/// The ends of an element are its own: the first end is on the first side, the
/// second on the second, and an element with one terminal has any where it has
/// none on the first.
pub proof fn lemma_ends_are_own(conns: Seq<ConnV>, id: Seq<char>)
    ensures
        two_of(conns, id) matches Some(ends) ==> {
            &&& conns.contains(ends.0) && ends.0.obj == id && ends.0.side == 0
            &&& conns.contains(ends.1) && ends.1.obj == id && ends.1.side == 1
        },
        one_of(conns, id) matches Some(at) ==> conns.contains(at) && at.obj == id,
{
    lemma_conn_from(conns, id, Some(0i64), 0);
    lemma_conn_from(conns, id, Some(1i64), 0);
    lemma_conn_from(conns, id, None, 0);
}

// ---- couplers --------------------------------------------------------------

/// A coupler joins its terminals: it is on, closed and in service, and so are the
/// switches at both its ends.
pub open spec fn joins(m: Sem, doc: DgsDocV, e: (DgsTableV, DgsRowV), a: ConnV, b: ConnV) -> bool {
    &&& whole_of(m, told(m, doc, e, "on_off"@, ONE)) != 0
    &&& whole_of(m, told(m, doc, e, "isclosed"@, ONE)) != 0
    &&& whole_of(m, told(m, doc, e, "outserv"@, ZERO)) == 0
    &&& a.closed
    &&& b.closed
}

/// The couplers among the first `n` rows that join, or that do not, in order.
pub open spec fn couplers_at(
    m: Sem,
    doc: DgsDocV,
    t: DgsTableV,
    joined: bool,
    n: nat,
) -> Seq<int>
    decreases n,
{
    if n == 0 {
        seq![]
    } else {
        let before = couplers_at(m, doc, t, joined, (n - 1) as nat);
        let e = (t, t.rows[n - 1]);
        match two_of(conns_of(m, doc), t.id_of(e.1)) {
            Some(ends) => if joins(m, doc, e, ends.0, ends.1) == joined {
                before.push(n - 1)
            } else {
                before
            },
            None => before,
        }
    }
}

/// The couplers of a document that join, or that do not, in order.
pub open spec fn couplers_that(m: Sem, doc: DgsDocV, joined: bool) -> Seq<int> {
    match doc.table("ElmCoup"@) {
        Some(t) => couplers_at(m, doc, t, joined, t.rows.len()),
        None => seq![],
    }
}

/// The ends of a coupler.
pub open spec fn ends_at(m: Sem, doc: DgsDocV, i: int) -> (ConnV, ConnV) {
    let t = doc.table("ElmCoup"@)->0;
    two_of(conns_of(m, doc), t.id_of(t.rows[i]))->0
}

/// The terminals that the couplers of a document join.
pub open spec fn joined_pairs(m: Sem, doc: DgsDocV) -> Seq<(usize, usize)> {
    let rows = couplers_that(m, doc, true);
    Seq::new(
        rows.len(),
        |k: int| (ends_at(m, doc, rows[k]).0.pos, ends_at(m, doc, rows[k]).1.pos),
    )
}

proof fn lemma_couplers_n(m: Sem, doc: DgsDocV, t: DgsTableV, n: nat)
    requires
        doc.table("ElmCoup"@) == Some(t),
        n <= t.rows.len(),
    ensures
        couplers_n(m, doc.decimal, conns_of(m, doc), t, n) matches Ok(c) ==> {
            let shut = couplers_at(m, doc, t, true, n);
            let open = couplers_at(m, doc, t, false, n);
            &&& c.closed.len() == shut.len()
            &&& forall|k: int|
                0 <= k < shut.len() ==> #[trigger] c.closed[k] == (
                    ends_at(m, doc, shut[k]).0.pos,
                    ends_at(m, doc, shut[k]).1.pos,
                )
            &&& c.open.len() == open.len()
            &&& forall|k: int|
                0 <= k < open.len() ==> #[trigger] c.open[k] == (
                    ends_at(m, doc, open[k]).0.pos,
                    ends_at(m, doc, open[k]).1.pos,
                    t.text(t.rows[open[k]], "loc_name"@),
                )
        },
    decreases n,
{
    if n > 0 {
        lemma_couplers_n(m, doc, t, (n - 1) as nat);
    }
}

/// An open switch of a coupler that does not join.
pub open spec fn is_switch(m: Sem, s: SiteV, i: int, x: DistSwitchV) -> bool {
    let t = s.case.doc.table("ElmCoup"@)->0;
    let ends = ends_at(m, s.case.doc, i);
    &&& is_named(
        x.name,
        match t.text(t.rows[i], "loc_name"@) {
            Some(n) => n,
            None => "coup"@,
        },
        "elem"@,
    )
    &&& x.bus_from == s.bus(ends.0)
    &&& x.bus_to == s.bus(ends.1)
    &&& x.open
    &&& x.i_max is None
}

/// The first `n` couplers whose ends are at different buses, in order.
pub open spec fn parting_n(m: Sem, s: SiteV, rows: Seq<int>, n: nat) -> Seq<int>
    decreases n,
{
    if n == 0 {
        seq![]
    } else {
        let before = parting_n(m, s, rows, (n - 1) as nat);
        let ends = ends_at(m, s.case.doc, rows[n - 1]);
        if s.case.root(ends.0.pos) == s.case.root(ends.1.pos) {
            before
        } else {
            before.push(rows[n - 1])
        }
    }
}

/// The couplers that do not join, between different buses.
pub open spec fn parting(m: Sem, s: SiteV) -> Seq<int> {
    let rows = couplers_that(m, s.case.doc, false);
    parting_n(m, s, rows, rows.len())
}

proof fn lemma_switches_n(
    m: Sem,
    s: SiteV,
    st: ReaderV,
    rows: Seq<int>,
    open: Seq<(usize, usize, Option<Seq<char>>)>,
    n: nat,
)
    requires
        anchors(st) == s.buses,
        n <= rows.len() == open.len(),
        forall|k: int|
            0 <= k < rows.len() ==> #[trigger] open[k] == (
                ends_at(m, s.case.doc, rows[k]).0.pos,
                ends_at(m, s.case.doc, rows[k]).1.pos,
                s.case.doc.table("ElmCoup"@)->0.text(
                    s.case.doc.table("ElmCoup"@)->0.rows[rows[k]],
                    "loc_name"@,
                ),
            ),
    ensures
        ({
            let a = switches_n(s.case, st, open, n);
            let kept = parting_n(m, s, rows, n);
            &&& anchors(a.st) == s.buses
            &&& a.switches.len() == kept.len()
            &&& forall|k: int|
                0 <= k < kept.len() ==> is_switch(m, s, kept[k], #[trigger] a.switches[k])
        }),
    decreases n,
{
    broadcast use group_anchors;

    if n > 0 {
        lemma_switches_n(m, s, st, rows, open, (n - 1) as nat);
        let b = switches_n(s.case, st, open, (n - 1) as nat);
        let a = switches_n(s.case, st, open, n);
        let before = parting_n(m, s, rows, (n - 1) as nat);
        let kept = parting_n(m, s, rows, n);
        assert forall|k: int| 0 <= k < kept.len() implies is_switch(
            m,
            s,
            kept[k],
            #[trigger] a.switches[k],
        ) by {
            if k < before.len() {
                assert(a.switches[k] == b.switches[k]);
            }
        }
    }
}

// ---- buses -----------------------------------------------------------------

/// The kilovolts of a terminal.
pub open spec fn kv_at(m: Sem, doc: DgsDocV, t: DgsTableV, i: int) -> Bits {
    told(m, doc, (t, t.rows[i]), "uknom"@, ZERO)
}

/// None of the first `n` terminals of a bus has a voltage.
pub open spec fn lacks(
    m: Sem,
    doc: DgsDocV,
    t: DgsTableV,
    roots: Seq<usize>,
    p: int,
    n: int,
) -> bool {
    forall|j: int|
        0 <= j < n && #[trigger] roots[j] == p ==> num_lt(abs_of(kv_at(m, doc, t, j)), NANO)
}

/// A bus has its voltage from a terminal, the first of its own with one.
pub open spec fn takes(
    m: Sem,
    doc: DgsDocV,
    t: DgsTableV,
    roots: Seq<usize>,
    p: int,
    i: int,
    kv: Bits,
) -> bool {
    &&& roots[i] == p
    &&& kv == kv_at(m, doc, t, i)
    &&& !num_lt(abs_of(kv), NANO)
    &&& lacks(m, doc, t, roots, p, i)
}

/// The kilovolts of a bus among the first `n` terminals: that of the first
/// terminal of its own with a voltage, or next to nothing where none has.
pub open spec fn is_kv(
    m: Sem,
    doc: DgsDocV,
    t: DgsTableV,
    roots: Seq<usize>,
    p: int,
    n: int,
    kv: Bits,
) -> bool {
    ||| exists|i: int| 0 <= i < n && #[trigger] takes(m, doc, t, roots, p, i, kv)
    ||| num_lt(abs_of(kv), NANO) && lacks(m, doc, t, roots, p, n)
}

/// What the first `n` terminals come to.
spec fn gathers(
    m: Sem,
    doc: DgsDocV,
    t: DgsTableV,
    roots: Seq<usize>,
    n: nat,
    list: Seq<BusAccumV>,
) -> bool {
    &&& list.len() == n
    &&& forall|p: int|
        0 <= p < n ==> (#[trigger] list[p]).live == (roots[p] == p) && list[p].id == match t.text(
            t.rows[p],
            "loc_name"@,
        ) {
            Some(x) => x,
            None => "bus"@,
        }
    &&& forall|p: int|
        0 <= p < n && roots[p] == p ==> is_kv(
            m,
            doc,
            t,
            roots,
            p,
            n as int,
            (#[trigger] list[p]).uknom,
        )
}

proof fn lemma_buses_n(m: Sem, doc: DgsDocV, t: DgsTableV, roots: Seq<usize>, n: nat)
    requires
        n <= t.rows.len() == roots.len(),
        forall|i: int|
            0 <= i < roots.len() ==> #[trigger] roots[i] <= i && roots[roots[i] as int] == roots[i],
    ensures
        buses_n(m, doc.decimal, t, roots, n) matches Ok(list) ==> gathers(m, doc, t, roots, n, list),
    decreases n,
{
    if n > 0 {
        lemma_buses_n(m, doc, t, roots, (n - 1) as nat);
        if let (Ok(prior), Ok(list)) = (
            buses_n(m, doc.decimal, t, roots, (n - 1) as nat),
            buses_n(m, doc.decimal, t, roots, n),
        ) {
            let root = roots[n - 1] as int;
            let u = kv_at(m, doc, t, n - 1);
            let more = prior.push(seed_of(t, roots, n - 1));
            let kept = more[root].uknom;
            assert(num_lt(abs_of(ZERO), NANO));
            assert forall|p: int| 0 <= p < n && roots[p] == p implies is_kv(
                m,
                doc,
                t,
                roots,
                p,
                n as int,
                (#[trigger] list[p]).uknom,
            ) by {
                let kv = list[p].uknom;
                if p < n - 1 {
                    let was = prior[p].uknom;
                    assert(is_kv(m, doc, t, roots, p, n - 1, was));
                    if p != root {
                        assert(kv == was);
                        if lacks(m, doc, t, roots, p, n - 1) {
                            assert(lacks(m, doc, t, roots, p, n as int));
                        }
                    } else if num_lt(abs_of(was), NANO) {
                        assert(kv == u);
                        assert(lacks(m, doc, t, roots, p, n - 1));
                        if num_lt(abs_of(u), NANO) {
                            assert(lacks(m, doc, t, roots, p, n as int));
                        } else {
                            assert(takes(m, doc, t, roots, p, n - 1, u));
                        }
                    } else {
                        assert(kv == was);
                    }
                } else {
                    assert(root == p);
                    assert(kept == ZERO && kv == u);
                    assert(lacks(m, doc, t, roots, p, n - 1)) by {
                        assert forall|j: int| 0 <= j < n - 1 && #[trigger] roots[j] == p implies num_lt(
                            abs_of(kv_at(m, doc, t, j)),
                            NANO,
                        ) by {
                            assert(roots[j] <= j);
                        }
                    }
                    if num_lt(abs_of(u), NANO) {
                        assert(lacks(m, doc, t, roots, p, n as int));
                    } else {
                        assert(takes(m, doc, t, roots, p, n - 1, u));
                    }
                }
            }
        }
    }
}

proof fn lemma_named_n(st: ReaderV, n: nat)
    requires
        n <= st.bus.len(),
    ensures
        ({
            let a = named_n(st, n);
            &&& a.bus.len() == st.bus.len()
            &&& a.cache == st.cache
            &&& forall|i: int|
                0 <= i < st.bus.len() ==> (#[trigger] a.bus[i]).live == st.bus[i].live
                    && a.bus[i].uknom == st.bus[i].uknom
            &&& forall|i: int|
                0 <= i < n && st.bus[i].live ==> is_named(
                    (#[trigger] a.bus[i]).id,
                    st.bus[i].id,
                    "bus"@,
                )
            &&& forall|i: int| n <= i < st.bus.len() ==> (#[trigger] a.bus[i]).id == st.bus[i].id
        }),
    decreases n,
{
    if n > 0 {
        lemma_named_n(st, (n - 1) as nat);
        let b = named_n(st, (n - 1) as nat);
        lemma_unique(b.used_bus, st.bus[n - 1].id, "bus"@);
        let a = named_n(st, n);
        assert(a == named_bus(b, n - 1));
        assert forall|i: int| 0 <= i < n && st.bus[i].live implies is_named(
            (#[trigger] a.bus[i]).id,
            st.bus[i].id,
            "bus"@,
        ) by {
            assert(b.bus[i].live == st.bus[i].live);
        }
    }
}

/// A bus of a document: at the first of the terminals that couplers join, under
/// its name, with the first voltage among them.
pub open spec fn is_bus(m: Sem, s: SiteV, t: DgsTableV, i: int) -> bool {
    let roots = s.case.roots;
    &&& s.buses[i].0 == (roots[i] == i)
    &&& roots[i] == i ==> is_named(
        s.buses[i].1,
        match t.text(t.rows[i], "loc_name"@) {
            Some(x) => x,
            None => "bus"@,
        },
        "bus"@,
    )
    &&& roots[i] == i ==> is_kv(m, s.case.doc, t, roots, i, t.rows.len() as int, s.buses[i].2)
}

/// A document with its terminals joined as its couplers say, and its buses.
pub open spec fn is_site(m: Sem, doc: DgsDocV, s: SiteV) -> bool {
    &&& s.case.doc == doc
    &&& s.case.conns == conns_of(m, doc)
    &&& doc.table("ElmTerm"@) matches Some(t)
    &&& s.case.roots == roots_of(t.rows.len(), joined_pairs(m, doc))
    &&& s.buses.len() == t.rows.len()
    &&& forall|i: int| 0 <= i < s.buses.len() ==> #[trigger] is_bus(m, s, t, i)
}

/// The names of the first `n` positions that are buses, in order.
pub open spec fn bus_names_n(s: SiteV, n: nat) -> Seq<Seq<char>>
    decreases n,
{
    if n == 0 {
        seq![]
    } else if s.buses[n - 1].0 {
        bus_names_n(s, (n - 1) as nat).push(s.buses[n - 1].1)
    } else {
        bus_names_n(s, (n - 1) as nat)
    }
}

proof fn lemma_finished(s: SiteV, st: ReaderV, n: nat)
    requires
        anchors(st) == s.buses,
        n <= st.bus.len(),
    ensures
        finished_n(st.bus, n).len() == bus_names_n(s, n).len(),
        forall|k: int|
            0 <= k < bus_names_n(s, n).len() ==> (#[trigger] finished_n(st.bus, n)[k]).id
                == bus_names_n(s, n)[k],
    decreases n,
{
    if n > 0 {
        lemma_finished(s, st, (n - 1) as nat);
        assert(anchors(st)[n - 1] == (st.bus[n - 1].live, st.bus[n - 1].id, st.bus[n - 1].uknom));
    }
}

// ---- the network -----------------------------------------------------------

/// The base frequency: that of the first grid.
pub open spec fn is_frequency(m: Sem, doc: DgsDocV, f: Bits) -> bool {
    match doc.table("ElmNet"@) {
        Some(t) => if t.rows.len() > 0 {
            f == told(m, doc, (t, t.rows[0]), "frnom"@, FIFTY)
        } else {
            f == FIFTY
        },
        None => f == FIFTY,
    }
}

proof fn lemma_frequency(m: Sem, doc: DgsDocV, t: DgsTableV, n: nat)
    ensures
        grid_n(m, doc.decimal, t, n).freq == if n == 0 {
            None
        } else {
            Some(told(m, doc, (t, t.rows[0]), "frnom"@, FIFTY))
        },
    decreases n,
{
    if n > 0 {
        lemma_frequency(m, doc, t, (n - 1) as nat);
    }
}

/// A network holds what the rows of a document say: a bus for each set of
/// terminals that couplers join; a line, a transformer, a load, a generator, a
/// shunt for each row in service, in order, as its columns give it; the first
/// external grid as the voltage source; and an open switch for each coupler that
/// parts two buses.
pub open spec fn is_reading(m: Sem, doc: DgsDocV, s: SiteV, net: DistNetworkV) -> bool {
    let f = net.base_frequency;
    let grids = serving(m, s, "ElmXnet"@, false);
    let names = bus_names_n(s, s.buses.len());
    &&& is_site(m, doc, s)
    &&& is_frequency(m, doc, f)
    &&& net.buses.len() == names.len()
    &&& forall|k: int| 0 <= k < names.len() ==> (#[trigger] net.buses[k]).id == names[k]
    &&& are_lines(m, s, f, net.linecodes, drawn(m, s), net.lines)
    &&& forall|k: int|
        0 <= k < net.linecodes.len() ==> some_code(m, s, f, #[trigger] net.linecodes[k])
    &&& follows(
        transformer_rule(m, s),
        seq![],
        transforming(m, s, false) + transforming(m, s, true),
        net.transformers,
    )
    &&& follows(load_rule(m, s), seq![], load_rows(m, s), net.loads)
    &&& follows(
        generator_rule(m, s),
        seq![],
        machine_rows(m, s) + rest_of(grids),
        net.generators,
    )
    &&& follows(source_rule(m, s), seq![], first_of(grids), net.sources)
    &&& follows(shunt_rule(m, s), seq![], serving(m, s, "ElmShnt"@, false), net.shunts)
    &&& net.switches.len() == parting(m, s).len()
    &&& forall|k: int|
        0 <= k < net.switches.len() ==> is_switch(m, s, parting(m, s)[k], #[trigger] net.switches[k])
}

proof fn lemma_pairs(m: Sem, doc: DgsDocV)
    requires
        doc.table("ElmTerm"@) matches Some(t) && t.rows.len() <= usize::MAX,
    ensures
        couplers_of(m, doc) matches Ok(c) ==> {
            &&& c.closed == joined_pairs(m, doc)
            &&& forall|j: int|
                0 <= j < c.closed.len() ==> (#[trigger] c.closed[j]).0 < doc.table(
                    "ElmTerm"@,
                )->0.rows.len() && c.closed[j].1 < doc.table("ElmTerm"@)->0.rows.len()
        },
{
    if let Ok(c) = couplers_of(m, doc) {
        if let Some(t) = doc.table("ElmCoup"@) {
            lemma_couplers_n(m, doc, t, t.rows.len());
        }
        assert(c.closed =~= joined_pairs(m, doc));
        let rows = couplers_that(m, doc, true);
        assert forall|j: int| 0 <= j < c.closed.len() implies (#[trigger] c.closed[j]).0
            < doc.table("ElmTerm"@)->0.rows.len() && c.closed[j].1 < doc.table(
            "ElmTerm"@,
        )->0.rows.len() by {
            let t = doc.table("ElmCoup"@)->0;
            lemma_couplers_at(m, doc, t, true, t.rows.len());
            let id = t.id_of(t.rows[rows[j]]);
            lemma_ends_are_own(conns_of(m, doc), id);
            let ends = ends_at(m, doc, rows[j]);
            let a = choose|a: int| 0 <= a < conns_of(m, doc).len() && conns_of(m, doc)[a] == ends.0;
            let b = choose|b: int| 0 <= b < conns_of(m, doc).len() && conns_of(m, doc)[b] == ends.1;
            lemma_connections_are_of_cubicles(m, doc, a);
            lemma_connections_are_of_cubicles(m, doc, b);
        }
    }
}

proof fn lemma_couplers_at(m: Sem, doc: DgsDocV, t: DgsTableV, joined: bool, n: nat)
    ensures
        forall|k: int|
            0 <= k < couplers_at(m, doc, t, joined, n).len() ==> 0 <= #[trigger] couplers_at(
                m,
                doc,
                t,
                joined,
                n,
            )[k] < n && two_of(
                conns_of(m, doc),
                t.id_of(t.rows[couplers_at(m, doc, t, joined, n)[k]]),
            ) is Some,
    decreases n,
{
    if n > 0 {
        lemma_couplers_at(m, doc, t, joined, (n - 1) as nat);
    }
}

/// Of every network read from a scanned document: it holds what the rows say. The
/// terminals are as many as can be counted.
pub proof fn lemma_network_is_of_its_rows(m: Sem, doc: DgsDocV, hint: Option<Seq<char>>)
    requires
        doc.table("ElmTerm"@) matches Some(t) ==> t.rows.len() <= usize::MAX,
    ensures
        network_of(m, doc, hint) matches Ok(net) ==> exists|s: SiteV| #[trigger]
            is_reading(m, doc, s, net),
{
    broadcast use group_anchors;

    if let (Some(t), Ok(c), Ok(net)) = (
        doc.table("ElmTerm"@),
        couplers_of(m, doc),
        network_of(m, doc, hint),
    ) {
        let n = t.rows.len();
        let roots = roots_of(n, c.closed);
        lemma_pairs(m, doc);
        assert forall|i: int| 0 <= i < n implies #[trigger] roots[i] <= i
            && roots[roots[i] as int] == roots[i] by {
            lemma_root_is_smallest(n, c.closed, c.closed.len(), i);
        }
        lemma_buses_n(m, doc, t, roots, n);
        let bus = buses_n(m, doc.decimal, t, roots, n)->Ok_0;
        let g = grid_of(m, doc);
        let case = CaseV { doc, conns: conns_of(m, doc), roots };
        let st = start_of(g, c.loose, c.closed.len(), bus);
        let s = SiteV { case, buses: anchors(st) };
        lemma_start(m, s, t, g, c.loose, c.closed.len(), bus);
        let f = base_frequency_of(g);
        if let Some(grids) = doc.table("ElmNet"@) {
            lemma_frequency(m, doc, grids, grids.rows.len());
        }
        lemma_lines(m, s, f, st);
        let l = lines_of(m, case, f, st)->Ok_0;
        lemma_transformers(m, s, l.st);
        let x = transformers_of(m, case, l.st)->Ok_0;
        lemma_injections(m, s, x.st);
        let i = injections_of(m, case, x.st)->Ok_0;
        assert(net == assembled(case, g, hint, c.open, l, x, i));
        let rows = couplers_that(m, doc, false);
        if let Some(coup) = doc.table("ElmCoup"@) {
            lemma_couplers_n(m, doc, coup, coup.rows.len());
        }
        lemma_switches_n(m, s, i.st, rows, c.open, rows.len());
        let w = switches_n(case, i.st, c.open, c.open.len());
        assert(anchors(w.st).len() == w.st.bus.len());
        lemma_finished(s, w.st, w.st.bus.len());
        assert(is_reading(m, doc, s, net));
    }
}

/// Of every network read from a scanned document: each line code has the same
/// susceptance and the same conductance at both ends, and the two windings of each
/// two-winding transformer have the same resistance and the same rating, and a tap
/// other than one on at most one of them. The terminals are as many as can be
/// counted.
pub proof fn lemma_network_is_even(m: Sem, doc: DgsDocV, hint: Option<Seq<char>>)
    requires
        doc.table("ElmTerm"@) matches Some(t) ==> t.rows.len() <= usize::MAX,
    ensures
        network_of(m, doc, hint) matches Ok(net) ==> {
            &&& forall|k: int|
                0 <= k < net.linecodes.len() ==> (#[trigger] net.linecodes[k]).b_from
                    == net.linecodes[k].b_to && net.linecodes[k].g_from == net.linecodes[k].g_to
            &&& forall|k: int|
                0 <= k < net.transformers.len() && (#[trigger] net.transformers[k]).windings.len()
                    == 2 ==> {
                    let w = net.transformers[k].windings;
                    &&& w[0].r_pct == w[1].r_pct
                    &&& w[0].s_rating == w[1].s_rating
                    &&& w[0].tap == ONE || w[1].tap == ONE
                }
        },
{
    lemma_network_is_of_its_rows(m, doc, hint);
    if let Ok(net) = network_of(m, doc, hint) {
        let s = choose|s: SiteV| #[trigger] is_reading(m, doc, s, net);
        let f = net.base_frequency;
        assert forall|k: int| 0 <= k < net.linecodes.len() implies (#[trigger] net.linecodes[k]).b_from
            == net.linecodes[k].b_to && net.linecodes[k].g_from == net.linecodes[k].g_to by {
            let code = net.linecodes[k];
            assert(some_code(m, s, f, code));
            reveal(some_code);
            let i = choose|i: int| #[trigger] code_at(m, s, f, i, code);
            let t = doc.table("ElmLne"@)->0;
            lemma_ends_are_alike(m, doc, f, (t, t.rows[i]), code);
        }
        let rows = transforming(m, s, false) + transforming(m, s, true);
        assert forall|k: int|
            0 <= k < net.transformers.len() && (#[trigger] net.transformers[k]).windings.len()
                == 2 implies {
            let w = net.transformers[k].windings;
            &&& w[0].r_pct == w[1].r_pct
            &&& w[0].s_rating == w[1].s_rating
            &&& w[0].tap == ONE || w[1].tap == ONE
        } by {
            let r = rows[k];
            assert(transformer_rule(m, s)(r, net.transformers[k]));
            lemma_windings_share(m, s, r.0, net.transformers[k]);
        }
    }
}

proof fn lemma_start(
    m: Sem,
    s: SiteV,
    t: DgsTableV,
    g: GridV,
    loose: Seq<Seq<char>>,
    fused: nat,
    bus: Seq<BusAccumV>,
)
    requires
        gathers(m, s.case.doc, t, s.case.roots, t.rows.len(), bus),
        s.buses == anchors(start_of(g, loose, fused, bus)),
    ensures
        start_of(g, loose, fused, bus).cache.len() == 0,
        s.buses.len() == t.rows.len(),
        forall|i: int| 0 <= i < s.buses.len() ==> #[trigger] is_bus(m, s, t, i),
{
    broadcast use crate::dgs::coded::group_stays;

    assert forall|st: ReaderV| (#[trigger] loose_n(st, loose, loose.len())).bus == st.bus by {
        lemma_loose_keeps(st, loose, loose.len());
    }
    assert forall|st: ReaderV| codes_stay(st, #[trigger] loose_n(st, loose, loose.len())) by {
        crate::dgs::coded::lemma_loose_stays(st, loose, loose.len());
    }
    assert forall|st: ReaderV, x: Seq<char>| (#[trigger] st.warn(x)).bus == st.bus by {
        reveal(ReaderV::warn);
    }
    let a = start_of(g, loose, fused, bus);
    let empty = ReaderV {
        warnings: seq![],
        bus,
        used_bus: seq![],
        used_linecode: seq![],
        used_elem: seq![],
        cache: seq![],
        defaulted: seq![],
        skipped: seq![],
        said_explicit: false,
        said_expanded: false,
        said_no_zero: false,
        said_two_phase: false,
    };
    let one = if g.disagree {
        empty.warn("DGS grids declare different nominal frequencies; used the first"@)
    } else {
        empty
    };
    let two = if fused > 0 {
        one.warn(
            "fused "@ + crate::numeral::dec_of(fused) + " terminal pair(s) joined by closed couplers"@,
        )
    } else {
        one
    };
    let three = loose_n(two, loose, loose.len());
    assert(three.bus == bus);
    assert(three.cache.len() == 0);
    lemma_named_n(three, bus.len());
    assert(a == named_n(three, bus.len()));
    assert forall|i: int| 0 <= i < s.buses.len() implies #[trigger] is_bus(m, s, t, i) by {
        assert(s.buses[i] == (a.bus[i].live, a.bus[i].id, a.bus[i].uknom));
        assert(bus[i].live == (s.case.roots[i] == i));
    }
}

} // verus!
