//! Which terminals an element connects.
//!
//! A `StaCubic` row names the terminal it sits in, the element it connects and
//! which side of the element that is; an open `StaSwitch` in a cubicle breaks
//! the connection. A closed coupler fuses the two terminals it joins, and a
//! fused set goes by its first terminal.

use vstd::prelude::*;

use crate::dgs::scan::{int_of, integer, DgsDoc, DgsDocV, DgsRow, DgsRowV, DgsTable, DgsTableV};
use crate::error::ErrorV;
use crate::math::{Calc, Sem, MINUS_ONE, ONE};
use crate::text::{empty, group_views, has_prefix, same, starts_with, trim, trim_of, views};

verus! {

// ---- fused terminals -------------------------------------------------------

/// The root a position leads to.
pub open spec fn root_of(parent: Seq<usize>, x: int) -> int
    decreases x,
{
    if 0 <= x < parent.len() && parent[x] < x {
        root_of(parent, parent[x] as int)
    } else {
        x
    }
}

/// Sets of positions; the smallest position of a set is its root.
pub struct UnionFind {
    parent: Vec<usize>,
}

impl View for UnionFind {
    type V = Seq<int>;

    /// The root of each position.
    closed spec fn view(&self) -> Seq<int> {
        Seq::new(self.parent@.len(), |i: int| root_of(self.parent@, i))
    }
}

/// The roots once the sets of `a` and `b` are one.
pub open spec fn united(roots: Seq<int>, a: int, b: int) -> Seq<int> {
    let lo = if roots[a] <= roots[b] {
        roots[a]
    } else {
        roots[b]
    };
    Seq::new(
        roots.len(),
        |i: int|
            if roots[i] == roots[a] || roots[i] == roots[b] {
                lo
            } else {
                roots[i]
            },
    )
}

/// Every position leads down to its root.
pub open spec fn falling(parent: Seq<usize>) -> bool {
    forall|i: int| 0 <= i < parent.len() ==> (#[trigger] parent[i]) <= i
}

/// A root is no greater than its position, and its own root.
proof fn lemma_root(parent: Seq<usize>, x: int)
    requires
        falling(parent),
        0 <= x < parent.len(),
    ensures
        0 <= root_of(parent, x) <= x,
        parent[root_of(parent, x)] == root_of(parent, x),
    decreases x,
{
    if parent[x] < x {
        lemma_root(parent, parent[x] as int);
    }
}

/// Hanging a position under its root changes no root.
proof fn lemma_compress(parent: Seq<usize>, c: int, x: int)
    requires
        falling(parent),
        0 <= c < parent.len(),
        0 <= x < parent.len(),
    ensures
        ({
            let after = parent.update(c, root_of(parent, c) as usize);
            falling(after) && root_of(after, x) == root_of(parent, x)
        }),
    decreases x,
{
    lemma_root(parent, c);
    let after = parent.update(c, root_of(parent, c) as usize);
    assert(falling(after));
    if x == c {
        if root_of(parent, c) < c {
            lemma_compress(parent, c, root_of(parent, c));
            lemma_root(parent, c);
            assert(parent[root_of(parent, c)] == root_of(parent, c));
        }
    } else if parent[x] < x {
        lemma_compress(parent, c, parent[x] as int);
    }
}

/// Hanging one root under a smaller one moves its set and no other.
proof fn lemma_hang(parent: Seq<usize>, lo: int, hi: int, x: int)
    requires
        falling(parent),
        0 <= lo < hi < parent.len(),
        parent[lo] == lo,
        parent[hi] == hi,
        0 <= x < parent.len(),
    ensures
        ({
            let after = parent.update(hi, lo as usize);
            &&& falling(after)
            &&& root_of(after, x) == if root_of(parent, x) == hi {
                lo
            } else {
                root_of(parent, x)
            }
        }),
    decreases x,
{
    let after = parent.update(hi, lo as usize);
    assert(falling(after));
    if x == hi {
        assert(after[lo] == lo);
        assert(root_of(after, lo) == lo);
    } else if parent[x] < x {
        lemma_hang(parent, lo, hi, parent[x] as int);
    }
}

impl UnionFind {
    /// Every position leads down to its root.
    pub closed spec fn wf(&self) -> bool {
        falling(self.parent@)
    }

    /// Each position in a set of its own.
    pub fn new(n: usize) -> (r: Self)
        ensures
            r.wf(),
            r@ == Seq::new(n as nat, |i: int| i),
    {
        let mut parent: Vec<usize> = Vec::new();
        let mut i: usize = 0;
        while i < n
            invariant
                i <= n,
                parent.len() == i,
                forall|k: int| 0 <= k < i ==> (#[trigger] parent@[k]) == k,
            decreases n - i,
        {
            parent.push(i);
            i = i + 1;
        }
        let r = UnionFind { parent };
        assert(r@ =~= Seq::new(n as nat, |i: int| i));
        r
    }

    pub fn len(&self) -> (r: usize)
        ensures
            r == self@.len(),
    {
        self.parent.len()
    }

    /// The root of a position; what leads to it leads there directly then.
    pub fn find(&mut self, x: usize) -> (r: usize)
        requires
            old(self).wf(),
            x < old(self)@.len(),
        ensures
            final(self).wf(),
            final(self)@ == old(self)@,
            r == old(self)@[x as int],
            r <= x,
    {
        let mut r: usize = x;
        while self.parent[r] != r
            invariant
                falling(self.parent@),
                *self == *old(self),
                r <= x < self.parent@.len(),
                root_of(self.parent@, r as int) == root_of(self.parent@, x as int),
            decreases r,
        {
            r = self.parent[r];
        }
        let mut c: usize = x;
        while self.parent[c] != r
            invariant
                falling(self.parent@),
                self.parent@.len() == old(self).parent@.len(),
                self@ == old(self)@,
                r <= c < self.parent@.len(),
                root_of(self.parent@, c as int) == r,
            decreases c,
        {
            let next = self.parent[c];
            let ghost before = self.parent@;
            proof {
                assert(next < c) by {
                    if next == c {
                        assert(root_of(before, c as int) == c);
                    }
                }
                assert forall|k: int| 0 <= k < before.len() implies root_of(
                    before.update(c as int, r),
                    k,
                ) == root_of(before, k) by {
                    lemma_compress(before, c as int, k);
                }
                lemma_compress(before, c as int, c as int);
                lemma_root(before, next as int);
            }
            self.parent.set(c, r);
            assert(self@ =~= old(self)@) by {
                assert forall|k: int| 0 <= k < before.len() implies self@[k] == old(self)@[k] by {
                    assert(root_of(self.parent@, k) == root_of(before, k));
                    assert(Seq::new(before.len(), |i: int| root_of(before, i))[k] == old(self)@[k]);
                }
            }
            c = next;
        }
        r
    }

    /// Makes the sets of `a` and `b` one.
    pub fn union(&mut self, a: usize, b: usize)
        requires
            old(self).wf(),
            a < old(self)@.len(),
            b < old(self)@.len(),
        ensures
            final(self).wf(),
            final(self)@ == united(old(self)@, a as int, b as int),
    {
        let ra = self.find(a);
        let rb = self.find(b);
        let ghost before = self.parent@;
        let ghost roots = self@;
        proof {
            lemma_root(before, a as int);
            lemma_root(before, b as int);
        }
        if ra != rb {
            let (lo, hi) = if ra < rb {
                (ra, rb)
            } else {
                (rb, ra)
            };
            assert forall|k: int| 0 <= k < before.len() implies root_of(
                before.update(hi as int, lo),
                k,
            ) == (if root_of(before, k) == hi {
                lo as int
            } else {
                root_of(before, k)
            }) by {
                lemma_hang(before, lo as int, hi as int, k);
            }
            proof {
                lemma_hang(before, lo as int, hi as int, lo as int);
            }
            self.parent.set(hi, lo);
            assert(self@ =~= united(roots, a as int, b as int));
        } else {
            assert(self@ =~= united(roots, a as int, b as int));
        }
    }
}

/// The roots of `n` positions once the first `k` of `pairs` are united.
pub open spec fn fused_n(n: nat, pairs: Seq<(usize, usize)>, k: nat) -> Seq<int>
    decreases k,
{
    if k == 0 {
        Seq::new(n, |i: int| i)
    } else {
        united(
            fused_n(n, pairs, (k - 1) as nat),
            pairs[k - 1].0 as int,
            pairs[k - 1].1 as int,
        )
    }
}

/// The smallest position of a set is its root: a root is no greater than any
/// position that leads to it, and is its own root.
pub proof fn lemma_root_is_smallest(n: nat, pairs: Seq<(usize, usize)>, k: nat, i: int)
    requires
        k <= pairs.len(),
        forall|j: int|
            0 <= j < k ==> (#[trigger] pairs[j]).0 < n && pairs[j].1 < n,
        0 <= i < n,
    ensures
        fused_n(n, pairs, k).len() == n,
        0 <= fused_n(n, pairs, k)[i] <= i,
        fused_n(n, pairs, k)[fused_n(n, pairs, k)[i]] == fused_n(n, pairs, k)[i],
    decreases k,
{
    if k > 0 {
        let before = fused_n(n, pairs, (k - 1) as nat);
        let a = pairs[k - 1].0 as int;
        let b = pairs[k - 1].1 as int;
        lemma_root_is_smallest(n, pairs, (k - 1) as nat, i);
        lemma_root_is_smallest(n, pairs, (k - 1) as nat, a);
        lemma_root_is_smallest(n, pairs, (k - 1) as nat, b);
    }
}

/// Terminals that a pair joins share a root; and terminals share a root only
/// where the pairs lead from one to the other: any marking of the terminals
/// that gives both ends of every pair the same mark gives them the same mark.
pub proof fn lemma_fused_means_joined(
    n: nat,
    pairs: Seq<(usize, usize)>,
    k: nat,
    mark: spec_fn(int) -> int,
    i: int,
    j: int,
)
    requires
        k <= pairs.len(),
        forall|p: int|
            0 <= p < k ==> (#[trigger] pairs[p]).0 < n && pairs[p].1 < n,
        0 <= i < n,
        0 <= j < n,
    ensures
        forall|p: int|
            0 <= p < k ==> fused_n(n, pairs, k)[(#[trigger] pairs[p]).0 as int] == fused_n(
                n,
                pairs,
                k,
            )[pairs[p].1 as int],
        (forall|p: int|
            0 <= p < k ==> mark((#[trigger] pairs[p]).0 as int) == mark(pairs[p].1 as int)) && fused_n(
            n,
            pairs,
            k,
        )[i] == fused_n(n, pairs, k)[j] ==> mark(i) == mark(j),
    decreases k,
{
    if k > 0 {
        let before = fused_n(n, pairs, (k - 1) as nat);
        let a = pairs[k - 1].0 as int;
        let b = pairs[k - 1].1 as int;
        lemma_root_is_smallest(n, pairs, (k - 1) as nat, a);
        lemma_fused_means_joined(n, pairs, (k - 1) as nat, mark, i, j);
        lemma_fused_means_joined(n, pairs, (k - 1) as nat, mark, i, a);
        lemma_fused_means_joined(n, pairs, (k - 1) as nat, mark, i, b);
        lemma_fused_means_joined(n, pairs, (k - 1) as nat, mark, j, a);
        lemma_fused_means_joined(n, pairs, (k - 1) as nat, mark, j, b);
    }
}

// ---- rows by identity ------------------------------------------------------

/// The last of the first `j` rows that goes by `id`.
pub open spec fn last_row(t: DgsTableV, id: Seq<char>, j: int) -> Option<int>
    decreases j,
{
    if j <= 0 || j > t.rows.len() {
        None
    } else if t.id_of(t.rows[j - 1]) == id {
        Some(j - 1)
    } else {
        last_row(t, id, j - 1)
    }
}

pub open spec fn row_named(t: DgsTableV, id: Seq<char>) -> Option<int> {
    last_row(t, id, t.rows.len() as int)
}

fn find_row(t: &DgsTable, id: &str) -> (r: Option<usize>)
    ensures
        match r {
            Some(i) => row_named(t@, id@) == Some(i as int) && i < t.rows.len(),
            None => row_named(t@, id@) is None,
        },
{
    assert(t@.rows.len() == t.rows.len());
    let mut j: usize = t.rows.len();
    while j > 0
        invariant
            j <= t.rows.len(),
            t@.rows.len() == t.rows.len(),
            row_named(t@, id@) == last_row(t@, id@, j as int),
        decreases j,
    {
        assert(t@.rows[j - 1] == t.rows@[j - 1]@);
        let own = t.id_of(&t.rows[j - 1]);
        if same(own.as_str(), id) {
            return Some(j - 1);
        }
        j = j - 1;
    }
    None
}

pub open spec fn resolve_from(tables: Seq<DgsTableV>, key: Seq<char>, j: int) -> Option<
    (DgsTableV, DgsRowV),
>
    decreases j,
{
    if j <= 0 || j > tables.len() {
        None
    } else {
        match row_named(tables[j - 1], key) {
            Some(i) => Some((tables[j - 1], tables[j - 1].rows[i])),
            None => resolve_from(tables, key, j - 1),
        }
    }
}

/// The table and row that a pointer names: the last of the document that goes
/// by that identity.
pub open spec fn resolve_of(doc: DgsDocV, key: Seq<char>) -> Option<(DgsTableV, DgsRowV)> {
    if key.len() == 0 {
        None
    } else {
        resolve_from(doc.tables, key, doc.tables.len() as int)
    }
}

pub fn resolve<'a>(doc: &'a DgsDoc, key: &str) -> (r: Option<(&'a DgsTable, &'a DgsRow)>)
    ensures
        match r {
            Some(p) => resolve_of(doc@, key@) == Some((p.0@, p.1@)),
            None => resolve_of(doc@, key@) is None,
        },
{
    if empty(key) {
        return None;
    }
    assert(doc@.tables.len() == doc.tables.len());
    let mut j: usize = doc.tables.len();
    while j > 0
        invariant
            j <= doc.tables.len(),
            doc@.tables.len() == doc.tables.len(),
            resolve_of(doc@, key@) == resolve_from(doc@.tables, key@, j as int),
        decreases j,
    {
        let t = &doc.tables[j - 1];
        assert(doc@.tables[j - 1] == t@);
        match find_row(t, key) {
            Some(i) => {
                assert(t@.rows[i as int] == t.rows@[i as int]@);
                return Some((t, &t.rows[i]));
            },
            None => {},
        }
        j = j - 1;
    }
    None
}

// ---- connections -----------------------------------------------------------

/// One connection of an element: the side of it, the position of the terminal,
/// whether the switches in the cubicle are closed, and the conductor that the
/// cubicle pins, where it pins one.
pub struct Conn {
    pub obj: String,
    pub side: i64,
    pub pos: usize,
    pub closed: bool,
    pub phase: Option<u8>,
}

pub struct ConnV {
    pub obj: Seq<char>,
    pub side: i64,
    pub pos: usize,
    pub closed: bool,
    pub phase: Option<u8>,
}

impl View for Conn {
    type V = ConnV;

    open spec fn view(&self) -> ConnV {
        ConnV {
            obj: self.obj@,
            side: self.side,
            pos: self.pos,
            closed: self.closed,
            phase: self.phase,
        }
    }
}

/// The conductor of a cell: `L1`, `L2` or `L3`, or the bare digit, blanks aside.
/// Any other spelling pins no phase.
pub open spec fn phase_of(info: Seq<char>) -> Option<u8> {
    let t = trim_of(info);
    if t == "L1"@ || t == "1"@ {
        Some(1u8)
    } else if t == "L2"@ || t == "2"@ {
        Some(2u8)
    } else if t == "L3"@ || t == "3"@ {
        Some(3u8)
    } else {
        None
    }
}

pub fn parse_phase(info: &str) -> (r: Option<u8>)
    ensures
        r == phase_of(info@),
{
    let t = trim(info);
    if same(t.as_str(), "L1") || same(t.as_str(), "1") {
        Some(1)
    } else if same(t.as_str(), "L2") || same(t.as_str(), "2") {
        Some(2)
    } else if same(t.as_str(), "L3") || same(t.as_str(), "3") {
        Some(3)
    } else {
        None
    }
}

/// Whether none of the first `n` switches in a cubicle is open.
pub open spec fn closed_n(m: Sem, decimal: char, t: DgsTableV, cubicle: Seq<char>, n: nat) -> bool
    decreases n,
{
    if n == 0 {
        true
    } else {
        let r = t.rows[n - 1];
        &&& closed_n(m, decimal, t, cubicle, (n - 1) as nat)
        &&& t.ptr(r, "fold_id"@) == Some(cubicle) ==> int_of(m, decimal, t, r, "on_off"@, ONE) != Ok::<
            i64,
            ErrorV,
        >(0i64)
    }
}

/// Whether the switches in a cubicle are closed.
pub open spec fn closed_of(m: Sem, doc: DgsDocV, cubicle: Seq<char>) -> bool {
    match doc.table("StaSwitch"@) {
        Some(t) => closed_n(m, doc.decimal, t, cubicle, t.rows.len()),
        None => true,
    }
}

fn cubicle_closed<C: Calc>(math: &C, doc: &DgsDoc, cubicle: &str) -> (r: bool)
    ensures
        r == closed_of(math.sem(), doc@, cubicle@),
{
    let t = match doc.table("StaSwitch") {
        Some(t) => t,
        None => {
            return true;
        },
    };
    assert(t@.rows.len() == t.rows.len());
    let mut all = true;
    let mut i: usize = 0;
    while i < t.rows.len()
        invariant
            i <= t.rows.len(),
            t@.rows.len() == t.rows.len(),
            all == closed_n(math.sem(), doc@.decimal, t@, cubicle@, i as nat),
        decreases t.rows.len() - i,
    {
        let row = &t.rows[i];
        assert(t@.rows[i as int] == row@);
        match t.ptr(row, "fold_id") {
            Some(c) => if same(c.as_str(), cubicle) {
                match integer(math, doc.decimal, t, row, "on_off", ONE) {
                    Ok(x) => if x == 0 {
                        all = false;
                    },
                    Err(_) => {},
                }
            },
            None => {},
        }
        i = i + 1;
    }
    all
}

/// The position of the terminal that a pointer names.
pub open spec fn position_of(doc: DgsDocV, id: Seq<char>) -> Option<int> {
    match doc.table("ElmTerm"@) {
        Some(t) => row_named(t, id),
        None => None,
    }
}

/// The connection that a cubicle makes. A spare cubicle makes none, nor does one
/// whose element or terminal is not in the file.
pub open spec fn conn_of(m: Sem, doc: DgsDocV, t: DgsTableV, r: DgsRowV) -> Option<ConnV> {
    match (int_of(m, doc.decimal, t, r, "obj_bus"@, MINUS_ONE), t.ptr(r, "obj_id"@)) {
        (Ok(side), Some(obj)) => if side < 0 || has_prefix(obj, "##"@) {
            None
        } else {
            match t.ptr(r, "fold_id"@) {
                Some(f) => match position_of(doc, f) {
                    Some(pos) => Some(
                        ConnV {
                            obj,
                            side,
                            pos: pos as usize,
                            closed: closed_of(m, doc, t.id_of(r)),
                            phase: match t.text(r, "cPhInfo"@) {
                                Some(info) => phase_of(info),
                                None => None,
                            },
                        },
                    ),
                    None => None,
                },
                None => None,
            }
        },
        _ => None,
    }
}

fn conn<C: Calc>(math: &C, doc: &DgsDoc, terminals: &DgsTable, t: &DgsTable, r: &DgsRow) -> (c:
    Option<Conn>)
    requires
        doc@.table("ElmTerm"@) == Some(terminals@),
    ensures
        match c {
            Some(c) => conn_of(math.sem(), doc@, t@, r@) == Some(c@) && c.pos
                < terminals.rows.len(),
            None => conn_of(math.sem(), doc@, t@, r@) is None,
        },
{
    let side = match integer(math, doc.decimal, t, r, "obj_bus", MINUS_ONE) {
        Ok(x) => x,
        Err(_) => {
            return None;
        },
    };
    let obj = match t.ptr(r, "obj_id") {
        Some(o) => o,
        None => {
            return None;
        },
    };
    if side < 0 || starts_with(obj.as_str(), "##") {
        return None;
    }
    let at = match t.ptr(r, "fold_id") {
        Some(f) => find_row(terminals, f.as_str()),
        None => None,
    };
    match at {
        Some(pos) => {
            let id = t.id_of(r);
            let closed = cubicle_closed(math, doc, id.as_str());
            let phase = match t.text(r, "cPhInfo") {
                Some(info) => parse_phase(info.as_str()),
                None => None,
            };
            Some(Conn { obj, side, pos, closed, phase })
        },
        None => None,
    }
}

pub open spec fn conns_n(m: Sem, doc: DgsDocV, t: DgsTableV, n: nat) -> Seq<ConnV>
    decreases n,
{
    if n == 0 {
        seq![]
    } else {
        let before = conns_n(m, doc, t, (n - 1) as nat);
        match conn_of(m, doc, t, t.rows[n - 1]) {
            Some(c) => before.push(c),
            None => before,
        }
    }
}

/// Every connection of a document, in the order of its cubicles.
pub open spec fn conns_of(m: Sem, doc: DgsDocV) -> Seq<ConnV> {
    match doc.table("StaCubic"@) {
        Some(t) => conns_n(m, doc, t, t.rows.len()),
        None => seq![],
    }
}

/// Connections that stay within `n` terminals.
pub open spec fn within(conns: Seq<ConnV>, n: nat) -> bool {
    forall|i: int| 0 <= i < conns.len() ==> (#[trigger] conns[i]).pos < n
}

pub fn connections<C: Calc>(math: &C, doc: &DgsDoc, terminals: &DgsTable) -> (r: Vec<Conn>)
    requires
        doc@.table("ElmTerm"@) == Some(terminals@),
    ensures
        views(r@) == conns_of(math.sem(), doc@),
        within(views(r@), terminals.rows@.len()),
{
    broadcast use group_views;

    let mut out: Vec<Conn> = Vec::new();
    assert(views(out@) =~= seq![]);
    let t = match doc.table("StaCubic") {
        Some(t) => t,
        None => {
            return out;
        },
    };
    assert(t@.rows.len() == t.rows.len());
    let mut i: usize = 0;
    while i < t.rows.len()
        invariant
            i <= t.rows.len(),
            t@.rows.len() == t.rows.len(),
            doc@.table("ElmTerm"@) == Some(terminals@),
            views(out@) == conns_n(math.sem(), doc@, t@, i as nat),
            within(views(out@), terminals.rows@.len()),
        decreases t.rows.len() - i,
    {
        assert(t@.rows[i as int] == t.rows@[i as int]@);
        match conn(math, doc, terminals, t, &t.rows[i]) {
            Some(c) => {
                let ghost before = views(out@);
                out.push(c);
                assert(views(out@) == before.push(c@));
                assert(within(views(out@), terminals.rows@.len()));
            },
            None => {},
        }
        i = i + 1;
    }
    out
}

/// The first connection of an element, from the `i`-th on, on a given side; on
/// any side where none is given.
pub open spec fn conn_from(conns: Seq<ConnV>, id: Seq<char>, side: Option<i64>, i: int) -> Option<
    ConnV,
>
    decreases conns.len() - i,
{
    if i < 0 || i >= conns.len() {
        None
    } else if conns[i].obj == id && (side is None || side == Some(conns[i].side)) {
        Some(conns[i])
    } else {
        conn_from(conns, id, side, i + 1)
    }
}

pub open spec fn side_of(conns: Seq<ConnV>, id: Seq<char>, side: i64) -> Option<ConnV> {
    conn_from(conns, id, Some(side), 0)
}

fn find_conn<'a>(conns: &'a Vec<Conn>, id: &str, side: Option<i64>) -> (r: Option<&'a Conn>)
    ensures
        match r {
            Some(c) => conn_from(views(conns@), id@, side, 0) == Some(c@) && views(conns@).contains(
                c@,
            ),
            None => conn_from(views(conns@), id@, side, 0) is None,
        },
{
    let mut i: usize = 0;
    while i < conns.len()
        invariant
            i <= conns.len(),
            conn_from(views(conns@), id@, side, 0) == conn_from(
                views(conns@),
                id@,
                side,
                i as int,
            ),
        decreases conns.len() - i,
    {
        assert(views(conns@)[i as int] == conns@[i as int]@);
        if same(conns[i].obj.as_str(), id) {
            let fits = match side {
                Some(s) => s == conns[i].side,
                None => true,
            };
            if fits {
                return Some(&conns[i]);
            }
        }
        i = i + 1;
    }
    None
}

pub fn at_side<'a>(conns: &'a Vec<Conn>, id: &str, side: i64, Ghost(n): Ghost<nat>) -> (r: Option<
    &'a Conn,
>)
    requires
        within(views(conns@), n),
    ensures
        match r {
            Some(c) => side_of(views(conns@), id@, side) == Some(c@) && c.pos < n,
            None => side_of(views(conns@), id@, side) is None,
        },
{
    find_conn(conns, id, Some(side))
}

/// The connection of an element with one terminal: the one on its first side,
/// else any.
pub open spec fn one_of(conns: Seq<ConnV>, id: Seq<char>) -> Option<ConnV> {
    match side_of(conns, id, 0) {
        Some(c) => Some(c),
        None => conn_from(conns, id, None, 0),
    }
}

pub fn one_terminal<'a>(conns: &'a Vec<Conn>, id: &str, Ghost(n): Ghost<nat>) -> (r: Option<
    &'a Conn,
>)
    requires
        within(views(conns@), n),
    ensures
        match r {
            Some(c) => one_of(views(conns@), id@) == Some(c@) && c.pos < n,
            None => one_of(views(conns@), id@) is None,
        },
{
    match find_conn(conns, id, Some(0)) {
        Some(c) => Some(c),
        None => find_conn(conns, id, None),
    }
}

/// The connections of an element with two terminals.
pub open spec fn two_of(conns: Seq<ConnV>, id: Seq<char>) -> Option<(ConnV, ConnV)> {
    match (side_of(conns, id, 0), side_of(conns, id, 1)) {
        (Some(a), Some(b)) => Some((a, b)),
        _ => None,
    }
}

pub fn two_terminals<'a>(conns: &'a Vec<Conn>, id: &str, Ghost(n): Ghost<nat>) -> (r: Option<
    (&'a Conn, &'a Conn),
>)
    requires
        within(views(conns@), n),
    ensures
        match r {
            Some(p) => two_of(views(conns@), id@) == Some((p.0@, p.1@)) && p.0.pos < n && p.1.pos
                < n,
            None => two_of(views(conns@), id@) is None,
        },
{
    match (find_conn(conns, id, Some(0)), find_conn(conns, id, Some(1))) {
        (Some(a), Some(b)) => Some((a, b)),
        _ => None,
    }
}

} // verus!
