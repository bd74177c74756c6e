//! The nominal volts of each bus: seeded by sources and transformer windings,
//! and shared by all buses that lines and switches connect.

use vstd::prelude::*;

use crate::math::{
    from_int, lt, num_lt, over, root3, sin, times, Bits, Calc, Sem, ONE, PI, TWO, ZERO,
};
use crate::model::{
    DistLineV, DistNetwork, DistNetworkV, DistSwitchV, DistTransformerV, VoltageSourceV, WindingV,
};
use crate::order::{get, get_of, lemma_put, lemma_sorted_unique, put, put_of, sorted};
use crate::ravens::emit::{extra_num, xnum};
use crate::ravens::name::{hot, hot_of};
use crate::ravens::scale::{thousands, thousands_of};
use crate::text::{group_views, lower, lower_of, views};

verus! {

/// A claim on a bus: how many phases the element has there, and its
/// line-to-line volts.
pub type Seed = (usize, Bits);

/// Whether one claim is more authoritative than another: more phases win, and
/// higher volts break ties.
pub open spec fn better(x: Seed, y: Seed) -> bool {
    x.0 > y.0 || (x.0 == y.0 && num_lt(y.1, x.1))
}

pub fn seed_better(x: Seed, y: Seed) -> (r: bool)
    ensures
        r == better(x, y),
{
    x.0 > y.0 || (x.0 == y.0 && lt(y.1, x.1))
}

/// A claim of some volts.
pub open spec fn positive(x: Seed) -> bool {
    num_lt(ZERO, x.1)
}

/// Authority orders all claims of some volts: it is irreflexive, and of two that
/// differ one is better.
pub proof fn lemma_better_total(x: Seed, y: Seed)
    requires
        positive(x),
        positive(y),
    ensures
        !better(x, x),
        !(better(x, y) && better(y, x)),
        x != y ==> better(x, y) || better(y, x),
{
}

/// Authority is transitive.
pub proof fn lemma_better_transitive(x: Seed, y: Seed, z: Seed)
    requires
        better(x, y),
        better(y, z),
    ensures
        better(x, z),
{
}

// ---- the graph -------------------------------------------------------------

/// Claims by bus.
pub type Claims = Seq<(Seq<char>, Seed)>;

/// Pairs of buses that share their volts.
pub type Edges = Seq<(Seq<char>, Seq<char>)>;

/// Whether an edge joins two buses.
pub open spec fn linked(edges: Edges, a: Seq<char>, b: Seq<char>) -> bool {
    exists|i: int|
        0 <= i < edges.len() && ((#[trigger] edges[i]) == (a, b) || edges[i] == (b, a))
}

/// A walk along edges.
pub open spec fn is_walk(edges: Edges, p: Seq<Seq<char>>) -> bool {
    p.len() > 0 && forall|i: int| 0 <= i < p.len() - 1 ==> #[trigger] linked(edges, p[i], p[i + 1])
}

/// Whether edges lead from one bus to another.
#[verifier::opaque]
pub open spec fn connected(edges: Edges, a: Seq<char>, b: Seq<char>) -> bool {
    exists|p: Seq<Seq<char>>| #[trigger]
        is_walk(edges, p) && p[0] == a && p[p.len() - 1] == b
}

pub proof fn lemma_connected_self(edges: Edges, a: Seq<char>)
    ensures
        connected(edges, a, a),
{
    reveal(connected);
    let p = seq![a];
    assert(is_walk(edges, p));
}

pub proof fn lemma_connected_step(edges: Edges, a: Seq<char>, b: Seq<char>, c: Seq<char>)
    requires
        connected(edges, a, b),
        linked(edges, b, c),
    ensures
        connected(edges, a, c),
{
    reveal(connected);
    let p = choose|p: Seq<Seq<char>>| #[trigger]
        is_walk(edges, p) && p[0] == a && p[p.len() - 1] == b;
    let q = p.push(c);
    assert forall|i: int| 0 <= i < q.len() - 1 implies #[trigger] linked(edges, q[i], q[i + 1]) by {
        if i < p.len() - 1 {
            assert(linked(edges, p[i], p[i + 1]));
        }
    }
    assert(is_walk(edges, q));
}

/// Whether a claim is the best that reaches a bus.
pub open spec fn is_best(claims: Claims, edges: Edges, bus: Seq<char>, x: Seed) -> bool {
    &&& exists|i: int| #[trigger] reaches(claims, edges, bus, i) && claims[i].1 == x
    &&& forall|i: int| #[trigger] reaches(claims, edges, bus, i) ==> !better(claims[i].1, x)
}

/// Whether the `i`-th claim is on a bus that is connected to `bus`.
pub open spec fn reaches(claims: Claims, edges: Edges, bus: Seq<char>, i: int) -> bool {
    0 <= i < claims.len() && connected(edges, claims[i].0, bus)
}

/// The best claim that reaches each bus, by bus.
pub open spec fn is_bases(claims: Claims, edges: Edges, s: Claims) -> bool {
    &&& sorted(s)
    &&& forall|bus: Seq<char>, x: Seed|
        (#[trigger] get_of(s, bus) == Some(x)) == #[trigger] is_best(claims, edges, bus, x)
}

pub open spec fn all_positive(claims: Claims) -> bool {
    forall|i: int| 0 <= i < claims.len() ==> positive((#[trigger] claims[i]).1)
}

/// No two tables hold the best claims: which claim stands at a bus does not
/// depend on the order in which claims and edges are looked at.
pub proof fn lemma_bases_unique(claims: Claims, edges: Edges, a: Claims, b: Claims)
    requires
        all_positive(claims),
        is_bases(claims, edges, a),
        is_bases(claims, edges, b),
    ensures
        a == b,
{
    assert forall|k: Seq<char>| #[trigger] get_of(a, k) == get_of(b, k) by {
        if get_of(a, k) is Some {
            assert(is_best(claims, edges, k, get_of(a, k)->0));
            assert(get_of(b, k) == Some(get_of(a, k)->0));
        } else if get_of(b, k) is Some {
            assert(is_best(claims, edges, k, get_of(b, k)->0));
            assert(get_of(a, k) == Some(get_of(b, k)->0));
        }
    }
    lemma_sorted_unique(a, b);
}

/// The order of claims does not matter: lists that hold the same claims give the
/// same table, and so do lists that hold the same edges.
pub proof fn lemma_bases_order(
    claims: Claims,
    edges: Edges,
    claims2: Claims,
    edges2: Edges,
    s: Claims,
)
    requires
        forall|c: (Seq<char>, Seed)| claims.contains(c) == #[trigger] claims2.contains(c),
        forall|a: Seq<char>, b: Seq<char>|
            linked(edges, a, b) == #[trigger] linked(edges2, a, b),
        is_bases(claims, edges, s),
    ensures
        is_bases(claims2, edges2, s),
{
    reveal(connected);
    assert forall|a: Seq<char>, b: Seq<char>| connected(edges, a, b) == #[trigger] connected(
        edges2,
        a,
        b,
    ) by {
        if connected(edges, a, b) {
            let p = choose|p: Seq<Seq<char>>| #[trigger]
                is_walk(edges, p) && p[0] == a && p[p.len() - 1] == b;
            assert forall|i: int| 0 <= i < p.len() - 1 implies #[trigger] linked(
                edges2,
                p[i],
                p[i + 1],
            ) by {
                assert(linked(edges, p[i], p[i + 1]));
            }
            assert(is_walk(edges2, p));
        }
        if connected(edges2, a, b) {
            let p = choose|p: Seq<Seq<char>>| #[trigger]
                is_walk(edges2, p) && p[0] == a && p[p.len() - 1] == b;
            assert forall|i: int| 0 <= i < p.len() - 1 implies #[trigger] linked(
                edges,
                p[i],
                p[i + 1],
            ) by {
                assert(linked(edges2, p[i], p[i + 1]));
            }
            assert(is_walk(edges, p));
        }
    }
    assert forall|bus: Seq<char>, x: Seed| is_best(claims, edges, bus, x) == #[trigger] is_best(
        claims2,
        edges2,
        bus,
        x,
    ) by {
        assert forall|i: int| #[trigger] reaches(claims, edges, bus, i) implies exists|j: int| #[trigger]
            reaches(claims2, edges2, bus, j) && claims2[j].1 == claims[i].1 by {
            assert(claims.contains(claims[i]));
            assert(claims2.contains(claims[i]));
            let j = claims2.index_of(claims[i]);
            assert(connected(edges2, claims2[j].0, bus));
            assert(reaches(claims2, edges2, bus, j));
        }
        assert forall|j: int| #[trigger] reaches(claims2, edges2, bus, j) implies exists|i: int| #[trigger]
            reaches(claims, edges, bus, i) && claims[i].1 == claims2[j].1 by {
            assert(claims2.contains(claims2[j]));
            assert(claims.contains(claims2[j]));
            let i = claims.index_of(claims2[j]);
            assert(connected(edges2, claims2[j].0, bus));
            assert(connected(edges, claims[i].0, bus));
            assert(reaches(claims, edges, bus, i));
        }
    }
    assert forall|bus: Seq<char>, x: Seed|
        (#[trigger] get_of(s, bus) == Some(x)) == #[trigger] is_best(claims2, edges2, bus, x) by {
        assert(is_best(claims, edges, bus, x) == is_best(claims2, edges2, bus, x));
        assert((get_of(s, bus) == Some(x)) == is_best(claims, edges, bus, x));
    }
}

// ---- flooding --------------------------------------------------------------

/// Every claim in the table is one of the first `n`, and reaches the bus it
/// stands at.
#[verifier::opaque]
pub open spec fn sound(claims: Claims, edges: Edges, s: Claims, n: int) -> bool {
    forall|bus: Seq<char>| #[trigger] get_of(s, bus) is Some ==> exists|i: int| #[trigger]
        reaches(claims, edges, bus, i) && i < n && claims[i].1 == get_of(s, bus)->0
}

/// No claim among the first `n` is better than what stands at its bus.
#[verifier::opaque]
pub open spec fn covers(claims: Claims, s: Claims, n: int) -> bool {
    forall|i: int|
        0 <= i < n ==> get_of(s, (#[trigger] claims[i]).0) is Some && !better(
            claims[i].1,
            get_of(s, claims[i].0)->0,
        )
}

/// Whether a claim reaches a bus.
#[verifier::opaque]
pub open spec fn claimed(claims: Claims, edges: Edges, bus: Seq<char>, x: Seed) -> bool {
    exists|i: int| #[trigger] reaches(claims, edges, bus, i) && claims[i].1 == x
}

/// Every edge joins buses of one claim.
pub open spec fn closed(edges: Edges, s: Claims) -> bool {
    forall|i: int|
        0 <= i < edges.len() ==> get_of(s, (#[trigger] edges[i]).0) == get_of(s, edges[i].1)
}

proof fn lemma_walk_same(edges: Edges, s: Claims, p: Seq<Seq<char>>, k: int)
    requires
        closed(edges, s),
        is_walk(edges, p),
        0 <= k < p.len(),
    ensures
        get_of(s, p[0]) == get_of(s, p[k]),
    decreases k,
{
    if k > 0 {
        lemma_walk_same(edges, s, p, k - 1);
        assert(linked(edges, p[k - 1], p[k - 1 + 1]));
        let i = choose|i: int|
            0 <= i < edges.len() && ((#[trigger] edges[i]) == (p[k - 1], p[k]) || edges[i] == (
                p[k],
                p[k - 1],
            ));
        assert(get_of(s, edges[i].0) == get_of(s, edges[i].1));
    }
}

proof fn lemma_closed_is_bases(claims: Claims, edges: Edges, s: Claims)
    requires
        sorted(s),
        all_positive(claims),
        sound(claims, edges, s, claims.len() as int),
        covers(claims, s, claims.len() as int),
        closed(edges, s),
    ensures
        is_bases(claims, edges, s),
{
    reveal(sound);
    reveal(covers);
    reveal(connected);
    assert forall|bus: Seq<char>, x: Seed|
        (#[trigger] get_of(s, bus) == Some(x)) == #[trigger] is_best(claims, edges, bus, x) by {
        assert forall|i: int| #[trigger] reaches(claims, edges, bus, i) implies get_of(s, bus)
            is Some && !better(claims[i].1, get_of(s, bus)->0) by {
            let p = choose|p: Seq<Seq<char>>| #[trigger]
                is_walk(edges, p) && p[0] == claims[i].0 && p[p.len() - 1] == bus;
            lemma_walk_same(edges, s, p, p.len() - 1);
            assert(get_of(s, claims[i].0) is Some);
        }
        if get_of(s, bus) == Some(x) {
            let i = choose|i: int| #[trigger]
                reaches(claims, edges, bus, i) && i < claims.len() && claims[i].1 == get_of(
                    s,
                    bus,
                )->0;
            assert(reaches(claims, edges, bus, i) && claims[i].1 == x);
            assert(is_best(claims, edges, bus, x));
        }
        if is_best(claims, edges, bus, x) {
            let i = choose|i: int| #[trigger]
                reaches(claims, edges, bus, i) && claims[i].1 == x;
            assert(get_of(s, bus) is Some);
            let y = get_of(s, bus)->0;
            let j = choose|j: int| #[trigger]
                reaches(claims, edges, bus, j) && j < claims.len() && claims[j].1 == y;
            assert(!better(claims[i].1, y));
            assert(!better(claims[j].1, x));
            lemma_better_total(x, y);
        }
    }
}

// ---- termination -----------------------------------------------------------

/// How many of the first `n` claims are better than one.
spec fn count_better(claims: Claims, x: Seed, n: nat) -> nat
    decreases n,
{
    if n == 0 {
        0
    } else {
        count_better(claims, x, (n - 1) as nat) + if better(claims[n - 1].1, x) {
            1nat
        } else {
            0nat
        }
    }
}

proof fn lemma_count_bound(claims: Claims, x: Seed, n: nat)
    ensures
        count_better(claims, x, n) <= n,
    decreases n,
{
    if n > 0 {
        lemma_count_bound(claims, x, (n - 1) as nat);
    }
}

proof fn lemma_count_drop(claims: Claims, x: Seed, y: Seed, n: nat, j: int)
    requires
        n <= claims.len(),
        better(x, y),
        positive(x),
    ensures
        count_better(claims, x, n) <= count_better(claims, y, n),
        0 <= j < n && claims[j].1 == x ==> count_better(claims, x, n) < count_better(claims, y, n),
    decreases n,
{
    if n > 0 {
        lemma_count_drop(claims, x, y, (n - 1) as nat, j);
        if better(claims[n - 1].1, x) {
            lemma_better_transitive(claims[n - 1].1, x, y);
        }
        lemma_better_total(x, x);
    }
}

/// How far a bus is from the best claim it could have.
spec fn deficit(claims: Claims, s: Claims, bus: Seq<char>) -> nat {
    match get_of(s, bus) {
        Some(x) => count_better(claims, x, claims.len()),
        None => claims.len() + 1,
    }
}

/// The same, over the ends of the first `n` edges.
spec fn distance(claims: Claims, edges: Edges, s: Claims, n: nat) -> nat
    decreases n,
{
    if n == 0 {
        0
    } else {
        distance(claims, edges, s, (n - 1) as nat) + deficit(claims, s, edges[n - 1].0) + deficit(
            claims,
            s,
            edges[n - 1].1,
        )
    }
}

proof fn lemma_distance_drop(
    claims: Claims,
    edges: Edges,
    s: Claims,
    t: Claims,
    bus: Seq<char>,
    n: nat,
    k: int,
)
    requires
        n <= edges.len(),
        forall|q: Seq<char>| q != bus ==> #[trigger] get_of(t, q) == get_of(s, q),
        deficit(claims, t, bus) < deficit(claims, s, bus),
    ensures
        distance(claims, edges, t, n) <= distance(claims, edges, s, n),
        0 <= k < n && (edges[k].0 == bus || edges[k].1 == bus) ==> distance(claims, edges, t, n)
            < distance(claims, edges, s, n),
    decreases n,
{
    if n > 0 {
        lemma_distance_drop(claims, edges, s, t, bus, (n - 1) as nat, k);
        assert(edges[n - 1].0 != bus ==> get_of(t, edges[n - 1].0) == get_of(s, edges[n - 1].0));
        assert(edges[n - 1].1 != bus ==> get_of(t, edges[n - 1].1) == get_of(s, edges[n - 1].1));
    }
}

/// What raising a bus to a better claim keeps, and how much nearer it brings
/// the table to the end.
proof fn lemma_raise(claims: Claims, edges: Edges, s: Claims, bus: Seq<char>, x: Seed, k: int)
    requires
        sorted(s),
        all_positive(claims),
        sound(claims, edges, s, claims.len() as int),
        covers(claims, s, claims.len() as int),
        0 <= k < edges.len(),
        edges[k].0 == bus || edges[k].1 == bus,
        claimed(claims, edges, bus, x),
        get_of(s, bus) is None || better(x, get_of(s, bus)->0),
    ensures
        sorted(put_of(s, bus, x)),
        sound(claims, edges, put_of(s, bus, x), claims.len() as int),
        covers(claims, put_of(s, bus, x), claims.len() as int),
        get_of(put_of(s, bus, x), bus) == Some(x),
        forall|q: Seq<char>| q != bus ==> #[trigger] get_of(put_of(s, bus, x), q) == get_of(s, q),
        distance(claims, edges, put_of(s, bus, x), edges.len()) < distance(
            claims,
            edges,
            s,
            edges.len(),
        ),
{
    let after = put_of(s, bus, x);
    lemma_put(s, bus, x);
    lemma_raise_sound(claims, edges, s, bus, x);
    lemma_raise_covers(claims, s, bus, x);
    assert(claimed(claims, edges, bus, x));
    let j = claim_index(claims, edges, bus, x);
    lemma_claim_index(claims, edges, bus, x);
    match get_of(s, bus) {
        Some(y) => {
            lemma_count_drop(claims, x, y, claims.len(), j);
        },
        None => {
            lemma_count_bound(claims, x, claims.len());
        },
    }
    lemma_distance_drop(claims, edges, s, after, bus, edges.len(), k);
}

/// Where a claim that reaches a bus stands.
spec fn claim_index(claims: Claims, edges: Edges, bus: Seq<char>, x: Seed) -> int {
    choose|i: int| #[trigger] reaches(claims, edges, bus, i) && claims[i].1 == x
}

proof fn lemma_claim_index(claims: Claims, edges: Edges, bus: Seq<char>, x: Seed)
    requires
        all_positive(claims),
        claimed(claims, edges, bus, x),
    ensures
        0 <= claim_index(claims, edges, bus, x) < claims.len(),
        claims[claim_index(claims, edges, bus, x)].1 == x,
        positive(x),
{
    reveal(claimed);
    let j = claim_index(claims, edges, bus, x);
    assert(positive(claims[j].1));
}

proof fn lemma_raise_sound(claims: Claims, edges: Edges, s: Claims, bus: Seq<char>, x: Seed)
    requires
        sorted(s),
        sound(claims, edges, s, claims.len() as int),
        claimed(claims, edges, bus, x),
    ensures
        sound(claims, edges, put_of(s, bus, x), claims.len() as int),
{
    reveal(sound);
    reveal(claimed);
    let after = put_of(s, bus, x);
    lemma_put(s, bus, x);
    assert forall|q: Seq<char>| #[trigger] get_of(after, q) is Some implies exists|i: int| #[trigger]
        reaches(claims, edges, q, i) && i < claims.len() && claims[i].1 == get_of(after, q)->0 by {
        if q != bus {
            assert(get_of(s, q) is Some);
        }
    }
}

proof fn lemma_raise_covers(claims: Claims, s: Claims, bus: Seq<char>, x: Seed)
    requires
        sorted(s),
        covers(claims, s, claims.len() as int),
        get_of(s, bus) is None || better(x, get_of(s, bus)->0),
    ensures
        covers(claims, put_of(s, bus, x), claims.len() as int),
{
    reveal(covers);
    let after = put_of(s, bus, x);
    lemma_put(s, bus, x);
    assert forall|i: int| 0 <= i < claims.len() implies get_of(after, (#[trigger] claims[i]).0)
        is Some && !better(claims[i].1, get_of(after, claims[i].0)->0) by {
        assert(get_of(s, claims[i].0) is Some);
        if claims[i].0 == bus && better(claims[i].1, x) {
            lemma_better_transitive(claims[i].1, x, get_of(s, bus)->0);
        }
    }
}

/// A claim that stands at one end of an edge reaches the other.
proof fn lemma_spread(claims: Claims, edges: Edges, s: Claims, a: Seq<char>, b: Seq<char>)
    requires
        all_positive(claims),
        sound(claims, edges, s, claims.len() as int),
        linked(edges, a, b),
        get_of(s, a) is Some,
    ensures
        positive(get_of(s, a)->0),
        claimed(claims, edges, a, get_of(s, a)->0),
        claimed(claims, edges, b, get_of(s, a)->0),
{
    reveal(sound);
    reveal(claimed);
    let i = choose|i: int| #[trigger]
        reaches(claims, edges, a, i) && i < claims.len() && claims[i].1 == get_of(s, a)->0;
    assert(positive(claims[i].1));
    lemma_connected_step(edges, claims[i].0, a, b);
    assert(reaches(claims, edges, b, i));
}

/// Raises a bus to a claim, unless that stands there.
fn raise(
    s: &mut Vec<(String, (usize, Bits))>,
    bus: &String,
    x: Seed,
    Ghost(claims): Ghost<Claims>,
    Ghost(edges): Ghost<Edges>,
    Ghost(k): Ghost<int>,
) -> (r: bool)
    requires
        sorted(views(old(s)@)),
        all_positive(claims),
        sound(claims, edges, views(old(s)@), claims.len() as int),
        covers(claims, views(old(s)@), claims.len() as int),
        0 <= k < edges.len(),
        edges[k].0 == bus@ || edges[k].1 == bus@,
        claimed(claims, edges, bus@, x),
        get_of(views(old(s)@), bus@) is None || get_of(views(old(s)@), bus@) == Some(x) || better(
            x,
            get_of(views(old(s)@), bus@)->0,
        ),
    ensures
        sorted(views(final(s)@)),
        sound(claims, edges, views(final(s)@), claims.len() as int),
        covers(claims, views(final(s)@), claims.len() as int),
        get_of(views(final(s)@), bus@) == Some(x),
        forall|q: Seq<char>|
            q != bus@ ==> #[trigger] get_of(views(final(s)@), q) == get_of(views(old(s)@), q),
        !r ==> views(final(s)@) == views(old(s)@),
        r ==> distance(claims, edges, views(final(s)@), edges.len()) < distance(
            claims,
            edges,
            views(old(s)@),
            edges.len(),
        ),
{
    if let Some(i) = get(s, bus.as_str()) {
        let y = s[i].1;
        assert(y@ == y);
        if y.0 == x.0 && y.1 == x.1 {
            return false;
        }
    }
    proof {
        assert(x@ == x);
        lemma_raise(claims, edges, views(s@), bus@, x, k);
    }
    put(s, bus.clone(), x);
    true
}

/// Spreads the better claim along every edge until no edge joins buses of
/// different claims.
fn flood(
    s: &mut Vec<(String, (usize, Bits))>,
    edges: &Vec<(String, String)>,
    Ghost(claims): Ghost<Claims>,
)
    requires
        sorted(views(old(s)@)),
        all_positive(claims),
        sound(claims, views(edges@), views(old(s)@), claims.len() as int),
        covers(claims, views(old(s)@), claims.len() as int),
    ensures
        is_bases(claims, views(edges@), views(final(s)@)),
{
    let ghost ev = views(edges@);
    let mut changed: bool = true;
    while changed
        invariant
            ev == views(edges@),
            sorted(views(s@)),
            all_positive(claims),
            sound(claims, ev, views(s@), claims.len() as int),
            covers(claims, views(s@), claims.len() as int),
            !changed ==> closed(ev, views(s@)),
        decreases distance(claims, ev, views(s@), ev.len()), (if changed { 1int } else { 0int }),
    {
        changed = false;
        let ghost start = views(s@);
        let mut k: usize = 0;
        while k < edges.len()
            invariant
                k <= edges.len(),
                ev == views(edges@),
                sorted(views(s@)),
                all_positive(claims),
                sound(claims, ev, views(s@), claims.len() as int),
                covers(claims, views(s@), claims.len() as int),
                !changed ==> views(s@) == start,
                !changed ==> forall|i: int|
                    0 <= i < k ==> get_of(start, (#[trigger] ev[i]).0) == get_of(start, ev[i].1),
                distance(claims, ev, views(s@), ev.len()) <= distance(
                    claims,
                    ev,
                    start,
                    ev.len(),
                ),
                changed ==> distance(claims, ev, views(s@), ev.len()) < distance(
                    claims,
                    ev,
                    start,
                    ev.len(),
                ),
            decreases edges.len() - k,
        {
            let a = &edges[k].0;
            let b = &edges[k].1;
            assert(ev[k as int] == (a@, b@));
            assert(linked(ev, a@, b@));
            assert(linked(ev, b@, a@));
            let x = match get(s, a.as_str()) {
                Some(i) => Some(s[i].1),
                None => None,
            };
            let y = match get(s, b.as_str()) {
                Some(i) => Some(s[i].1),
                None => None,
            };
            assert(x == get_of(views(s@), a@));
            assert(y == get_of(views(s@), b@));
            let best = match (x, y) {
                (Some(x), Some(y)) => {
                    if seed_better(x, y) {
                        Some(x)
                    } else {
                        Some(y)
                    }
                },
                (Some(x), None) => Some(x),
                (None, Some(y)) => Some(y),
                (None, None) => None,
            };
            if let Some(v) = best {
                proof {
                    if x is Some {
                        lemma_spread(claims, ev, views(s@), a@, b@);
                    }
                    if y is Some {
                        lemma_spread(claims, ev, views(s@), b@, a@);
                    }
                    if x is Some && y is Some {
                        lemma_better_total(x->0, y->0);
                    }
                }
                let c1 = raise(s, a, v, Ghost(claims), Ghost(ev), Ghost(k as int));
                let c2 = raise(s, b, v, Ghost(claims), Ghost(ev), Ghost(k as int));
                if c1 || c2 {
                    changed = true;
                }
            }
            k = k + 1;
        }
        assert(ev.len() == edges.len());
    }
    proof {
        lemma_closed_is_bases(claims, ev, views(s@));
    }
}

// ---- claims and edges of a network -----------------------------------------

/// The claim of a source: its stated base, else its magnitude as the chord of
/// the polygon its phases make.
pub open spec fn source_claim(m: Sem, s: VoltageSourceV) -> (Seq<char>, Seed) {
    let n = hot_of(s.terminal_map).len();
    let volts = match extra_num(m, s.extras, "basekv"@) {
        Some(kv) => thousands_of(m, kv),
        None => {
            let chord = if n <= 1 {
                ONE
            } else {
                m.times(TWO, m.sin(m.over(PI, m.from_int(n as u64))))
            };
            m.times(
                if s.v_magnitude.len() > 0 {
                    s.v_magnitude[0]
                } else {
                    ZERO
                },
                chord,
            )
        },
    };
    (
        lower_of(s.bus),
        (
            if n <= 1 {
                1usize
            } else {
                n as usize
            },
            volts,
        ),
    )
}

/// The claim of a winding: its volts, those of a single phase times the square
/// root of three.
pub open spec fn winding_claim(m: Sem, w: WindingV) -> (Seq<char>, Seed) {
    let n = hot_of(w.terminal_map).len();
    (
        lower_of(w.bus),
        (
            if n <= 1 {
                1usize
            } else {
                n as usize
            },
            if n <= 1 {
                m.times(w.v_ref, m.root3())
            } else {
                w.v_ref
            },
        ),
    )
}

/// The claims, with one more where it is of some volts.
pub open spec fn claim_push(s: Claims, c: (Seq<char>, Seed)) -> Claims {
    if positive(c.1) {
        s.push(c)
    } else {
        s
    }
}

pub open spec fn source_claims(m: Sem, sources: Seq<VoltageSourceV>, n: nat) -> Claims
    decreases n,
{
    if n == 0 {
        seq![]
    } else {
        claim_push(
            source_claims(m, sources, (n - 1) as nat),
            source_claim(m, sources[n - 1]),
        )
    }
}

pub open spec fn winding_claims(m: Sem, s: Claims, windings: Seq<WindingV>, n: nat) -> Claims
    decreases n,
{
    if n == 0 {
        s
    } else {
        claim_push(
            winding_claims(m, s, windings, (n - 1) as nat),
            winding_claim(m, windings[n - 1]),
        )
    }
}

pub open spec fn transformer_claims(m: Sem, s: Claims, xfs: Seq<DistTransformerV>, n: nat) -> Claims
    decreases n,
{
    if n == 0 {
        s
    } else {
        let w = xfs[n - 1].windings;
        winding_claims(m, transformer_claims(m, s, xfs, (n - 1) as nat), w, w.len())
    }
}

/// Every claim of a network. Loads make none: their base may differ from that of
/// their bus.
pub open spec fn claims_of(m: Sem, net: DistNetworkV) -> Claims {
    transformer_claims(
        m,
        source_claims(m, net.sources, net.sources.len()),
        net.transformers,
        net.transformers.len(),
    )
}

/// The buses that lines and switches join.
pub open spec fn edges_of(net: DistNetworkV) -> Edges {
    Seq::new(
        net.lines.len(),
        |i: int| (lower_of(net.lines[i].bus_from), lower_of(net.lines[i].bus_to)),
    ) + Seq::new(
        net.switches.len(),
        |i: int| (lower_of(net.switches[i].bus_from), lower_of(net.switches[i].bus_to)),
    )
}

/// The best claim that reaches each bus of a network.
pub open spec fn best_claims(m: Sem, net: DistNetworkV) -> Claims {
    choose|s: Claims| is_bases(claims_of(m, net), edges_of(net), s)
}

/// The nominal volts of each bus of a network.
#[verifier::opaque]
pub open spec fn bases_of(m: Sem, net: DistNetworkV) -> Seq<(Seq<char>, Bits)> {
    let s = best_claims(m, net);
    Seq::new(s.len(), |i: int| (s[i].0, s[i].1.1))
}

/// What adding a claim to the table keeps.
proof fn lemma_seed(claims: Claims, edges: Edges, s: Claims, t: Claims, k: Seq<char>, x: Seed)
    requires
        sorted(s),
        all_positive(claims),
        positive(x),
        sound(claims, edges, s, claims.len() as int),
        covers(claims, s, claims.len() as int),
        t == put_of(s, k, x) && (get_of(s, k) is None || better(x, get_of(s, k)->0)) || t == s
            && get_of(s, k) is Some && !better(x, get_of(s, k)->0),
    ensures
        sorted(t),
        all_positive(claims.push((k, x))),
        sound(claims.push((k, x)), edges, t, claims.len() as int + 1),
        covers(claims.push((k, x)), t, claims.len() as int + 1),
{
    lemma_put(s, k, x);
    lemma_seed_sound(claims, edges, s, t, k, x);
    lemma_seed_covers(claims, s, t, k, x);
}

proof fn lemma_seed_sound(claims: Claims, edges: Edges, s: Claims, t: Claims, k: Seq<char>, x: Seed)
    requires
        sorted(s),
        sound(claims, edges, s, claims.len() as int),
        t == put_of(s, k, x) || t == s,
    ensures
        sound(claims.push((k, x)), edges, t, claims.len() as int + 1),
{
    reveal(sound);
    let more = claims.push((k, x));
    lemma_put(s, k, x);
    lemma_connected_self(edges, k);
    assert(reaches(more, edges, k, claims.len() as int));
    assert forall|q: Seq<char>| #[trigger] get_of(t, q) is Some implies exists|i: int| #[trigger]
        reaches(more, edges, q, i) && i < more.len() && more[i].1 == get_of(t, q)->0 by {
        if t != s && q == k {
            assert(more[claims.len() as int].1 == x);
        } else {
            assert(get_of(s, q) is Some);
            let i = choose|i: int| #[trigger]
                reaches(claims, edges, q, i) && i < claims.len() && claims[i].1 == get_of(
                    s,
                    q,
                )->0;
            assert(more[i] == claims[i]);
            assert(reaches(more, edges, q, i));
        }
    }
}

proof fn lemma_seed_covers(claims: Claims, s: Claims, t: Claims, k: Seq<char>, x: Seed)
    requires
        sorted(s),
        positive(x),
        covers(claims, s, claims.len() as int),
        t == put_of(s, k, x) && (get_of(s, k) is None || better(x, get_of(s, k)->0)) || t == s
            && get_of(s, k) is Some && !better(x, get_of(s, k)->0),
    ensures
        covers(claims.push((k, x)), t, claims.len() as int + 1),
{
    reveal(covers);
    let more = claims.push((k, x));
    lemma_put(s, k, x);
    assert forall|i: int| 0 <= i < more.len() implies get_of(t, (#[trigger] more[i]).0) is Some
        && !better(more[i].1, get_of(t, more[i].0)->0) by {
        lemma_better_total(x, x);
        if i < claims.len() {
            assert(more[i] == claims[i]);
            assert(get_of(s, claims[i].0) is Some);
            if claims[i].0 == k && better(claims[i].1, x) && get_of(s, k) is Some && better(
                x,
                get_of(s, k)->0,
            ) {
                lemma_better_transitive(claims[i].1, x, get_of(s, k)->0);
            }
        }
    }
}

/// Adds a claim to the table, where it is of some volts and better than what
/// stands at its bus.
fn seed(
    s: &mut Vec<(String, (usize, Bits))>,
    bus: &str,
    x: Seed,
    Ghost(claims): Ghost<Claims>,
    Ghost(edges): Ghost<Edges>,
)
    requires
        sorted(views(old(s)@)),
        all_positive(claims),
        sound(claims, edges, views(old(s)@), claims.len() as int),
        covers(claims, views(old(s)@), claims.len() as int),
    ensures
        ({
            let more = claim_push(claims, (lower_of(bus@), x));
            &&& sorted(views(final(s)@))
            &&& all_positive(more)
            &&& sound(more, edges, views(final(s)@), more.len() as int)
            &&& covers(more, views(final(s)@), more.len() as int)
        }),
{
    let ghost before = views(s@);
    if !lt(ZERO, x.1) {
        return;
    }
    let key = lower(bus);
    let held = match get(s, key.as_str()) {
        Some(i) => Some(s[i].1),
        None => None,
    };
    assert(held == get_of(before, key@));
    let keep = match held {
        Some(y) => !seed_better(x, y),
        None => false,
    };
    let ghost k = key@;
    assert(x@ == x);
    if !keep {
        put(s, key, x);
    }
    proof {
        lemma_seed(claims, edges, before, views(s@), k, x);
    }
}

fn edge_list(net: &DistNetwork) -> (r: Vec<(String, String)>)
    ensures
        views(r@) == edges_of(net@),
{
    let mut r: Vec<(String, String)> = Vec::new();
    let ghost all = edges_of(net@);
    let mut i: usize = 0;
    while i < net.lines.len()
        invariant
            i <= net.lines.len(),
            all == edges_of(net@),
            views(r@) == all.take(i as int),
        decreases net.lines.len() - i,
    {
        let a = lower(net.lines[i].bus_from.as_str());
        let b = lower(net.lines[i].bus_to.as_str());
        assert(net@.lines[i as int] == net.lines@[i as int]@);
        let ghost before = views(r@);
        let ghost e = (a@, b@);
        r.push((a, b));
        assert(views(r@) =~= before.push(e));
        assert(all.take(i + 1) =~= all.take(i as int).push(all[i as int]));
        assert(all[i as int] == e);
        i = i + 1;
    }
    let mut j: usize = 0;
    while j < net.switches.len()
        invariant
            j <= net.switches.len(),
            all == edges_of(net@),
            views(r@) == all.take((net.lines.len() + j) as int),
        decreases net.switches.len() - j,
    {
        let a = lower(net.switches[j].bus_from.as_str());
        let b = lower(net.switches[j].bus_to.as_str());
        assert(net@.switches[j as int] == net.switches@[j as int]@);
        let ghost before = views(r@);
        let ghost e = (a@, b@);
        let ghost k = (net.lines.len() + j) as int;
        r.push((a, b));
        assert(views(r@) =~= before.push(e));
        assert(all.take(k + 1) =~= all.take(k).push(all[k]));
        assert(all[k] == e);
        j = j + 1;
    }
    assert(views(r@) =~= all);
    r
}

/// The nominal line-to-line volts of each bus, by bus in lower case.
pub fn bus_bases<C: Calc>(math: &C, net: &DistNetwork) -> (r: Vec<(String, Bits)>)
    ensures
        views(r@) == bases_of(math.sem(), net@),
        is_bases(
            claims_of(math.sem(), net@),
            edges_of(net@),
            best_claims(math.sem(), net@),
        ),
{
    broadcast use group_views;

    let edges = edge_list(net);
    let ghost ev = views(edges@);
    let ghost m = math.sem();
    let mut s: Vec<(String, (usize, Bits))> = Vec::new();
    let ghost mut claims: Claims = Seq::empty();
    proof {
        reveal(sound);
        reveal(covers);
        reveal(get_of);
        assert(views(s@) =~= Seq::empty());
    }
    let mut i: usize = 0;
    while i < net.sources.len()
        invariant
            i <= net.sources.len(),
            m == math.sem(),
            claims == source_claims(m, net@.sources, i as nat),
            sorted(views(s@)),
            all_positive(claims),
            sound(claims, ev, views(s@), claims.len() as int),
            covers(claims, views(s@), claims.len() as int),
        decreases net.sources.len() - i,
    {
        let src = &net.sources[i];
        assert(net@.sources[i as int] == src@);
        let h = hot(&src.terminal_map);
        assert(views(h@).len() == h.len());
        let n = h.len();
        let volts = match xnum(math, &src.extras, "basekv") {
            Some(kv) => thousands(math, kv),
            None => {
                let chord = if n <= 1 {
                    ONE
                } else {
                    times(math, TWO, sin(math, over(math, PI, from_int(math, n as u64))))
                };
                let v = if src.v_magnitude.len() > 0 {
                    src.v_magnitude[0]
                } else {
                    ZERO
                };
                times(math, v, chord)
            },
        };
        let count: usize = if n <= 1 {
            1
        } else {
            n
        };
        seed(&mut s, src.bus.as_str(), (count, volts), Ghost(claims), Ghost(ev));
        proof {
            claims = claim_push(claims, (lower_of(src.bus@), (count, volts)));
        }
        i = i + 1;
    }
    assert(net@.sources.len() == net.sources.len());
    let ghost base = claims;
    let mut t: usize = 0;
    while t < net.transformers.len()
        invariant
            t <= net.transformers.len(),
            m == math.sem(),
            claims == transformer_claims(m, base, net@.transformers, t as nat),
            sorted(views(s@)),
            all_positive(claims),
            sound(claims, ev, views(s@), claims.len() as int),
            covers(claims, views(s@), claims.len() as int),
        decreases net.transformers.len() - t,
    {
        let xf = &net.transformers[t];
        assert(net@.transformers[t as int] == xf@);
        let ghost so_far = claims;
        let mut k: usize = 0;
        while k < xf.windings.len()
            invariant
                k <= xf.windings.len(),
                m == math.sem(),
                claims == winding_claims(m, so_far, xf@.windings, k as nat),
                sorted(views(s@)),
                all_positive(claims),
                sound(claims, ev, views(s@), claims.len() as int),
                covers(claims, views(s@), claims.len() as int),
            decreases xf.windings.len() - k,
        {
            let w = &xf.windings[k];
            assert(xf@.windings[k as int] == w@);
            let h = hot(&w.terminal_map);
            assert(views(h@).len() == h.len());
            let n = h.len();
            let volts = if n <= 1 {
                times(math, w.v_ref, root3(math))
            } else {
                w.v_ref
            };
            let count: usize = if n <= 1 {
                1
            } else {
                n
            };
            seed(&mut s, w.bus.as_str(), (count, volts), Ghost(claims), Ghost(ev));
            proof {
                claims = claim_push(claims, (lower_of(w.bus@), (count, volts)));
            }
            k = k + 1;
        }
        assert(xf@.windings.len() == xf.windings.len());
        t = t + 1;
    }
    assert(net@.transformers.len() == net.transformers.len());
    flood(&mut s, &edges, Ghost(claims));
    proof {
        assert(claims == claims_of(m, net@));
        lemma_bases_unique(claims, ev, views(s@), best_claims(m, net@));
    }
    reveal(bases_of);
    let mut r: Vec<(String, Bits)> = Vec::new();
    let mut q: usize = 0;
    while q < s.len()
        invariant
            q <= s.len(),
            views(s@) == best_claims(m, net@),
            r.len() == q,
            forall|k: int| 0 <= k < q ==> (#[trigger] r@[k])@ == (s@[k].0@, s@[k].1.1),
        decreases s.len() - q,
    {
        r.push((s[q].0.clone(), s[q].1.1));
        q = q + 1;
    }
    assert(views(r@) =~= bases_of(m, net@)) by {
        assert forall|k: int| 0 <= k < s.len() implies views(r@)[k] == bases_of(m, net@)[k] by {
            assert(views(s@)[k] == (s@[k].0@, s@[k].1@));
            assert(s@[k].1@ == s@[k].1);
        }
    }
    r
}

// ---- the order of elements -------------------------------------------------

/// A source of a network makes a claim.
spec fn claimed_by_source(m: Sem, s: Seq<VoltageSourceV>, n: nat, c: (Seq<char>, Seed)) -> bool {
    exists|i: int| 0 <= i < n && c == source_claim(m, #[trigger] s[i])
}

/// A winding makes a claim.
spec fn claimed_by_winding(m: Sem, s: Seq<WindingV>, n: nat, c: (Seq<char>, Seed)) -> bool {
    exists|i: int| 0 <= i < n && c == winding_claim(m, #[trigger] s[i])
}

/// A transformer of a network makes a claim.
spec fn claimed_by_transformer(
    m: Sem,
    s: Seq<DistTransformerV>,
    n: nat,
    c: (Seq<char>, Seed),
) -> bool {
    exists|i: int|
        0 <= i < n && claimed_by_winding(
            m,
            (#[trigger] s[i]).windings,
            s[i].windings.len(),
            c,
        )
}

proof fn lemma_pushed(s: Claims, x: (Seq<char>, Seed), c: (Seq<char>, Seed))
    ensures
        claim_push(s, x).contains(c) <==> s.contains(c) || (positive(x.1) && c == x),
        all_positive(s) ==> all_positive(claim_push(s, x)),
{
    let r = claim_push(s, x);
    if s.contains(c) {
        let i = choose|i: int| 0 <= i < s.len() && s[i] == c;
        assert(r[i] == c);
    }
    if positive(x.1) && c == x {
        assert(r[r.len() - 1] == c);
    }
    if r.contains(c) {
        let i = choose|i: int| 0 <= i < r.len() && r[i] == c;
        if i < s.len() {
            assert(s[i] == c);
        }
    }
}

proof fn lemma_source_claims(m: Sem, s: Seq<VoltageSourceV>, n: nat, c: (Seq<char>, Seed))
    requires
        n <= s.len(),
    ensures
        source_claims(m, s, n).contains(c) <==> positive(c.1) && claimed_by_source(m, s, n, c),
        all_positive(source_claims(m, s, n)),
    decreases n,
{
    if n > 0 {
        lemma_source_claims(m, s, (n - 1) as nat, c);
        let x = source_claim(m, s[n - 1]);
        lemma_pushed(source_claims(m, s, (n - 1) as nat), x, c);
        if claimed_by_source(m, s, (n - 1) as nat, c) {
            let i = choose|i: int| 0 <= i < n - 1 && c == source_claim(m, #[trigger] s[i]);
            assert(claimed_by_source(m, s, n, c));
        }
        if c == x {
            assert(claimed_by_source(m, s, n, c));
        }
    }
}

proof fn lemma_winding_claims(
    m: Sem,
    s: Claims,
    w: Seq<WindingV>,
    n: nat,
    c: (Seq<char>, Seed),
)
    requires
        n <= w.len(),
        all_positive(s),
    ensures
        winding_claims(m, s, w, n).contains(c) <==> s.contains(c) || (positive(c.1)
            && claimed_by_winding(m, w, n, c)),
        all_positive(winding_claims(m, s, w, n)),
    decreases n,
{
    if n > 0 {
        lemma_winding_claims(m, s, w, (n - 1) as nat, c);
        let x = winding_claim(m, w[n - 1]);
        lemma_pushed(winding_claims(m, s, w, (n - 1) as nat), x, c);
        if claimed_by_winding(m, w, (n - 1) as nat, c) {
            let i = choose|i: int| 0 <= i < n - 1 && c == winding_claim(m, #[trigger] w[i]);
            assert(claimed_by_winding(m, w, n, c));
        }
        if c == x {
            assert(claimed_by_winding(m, w, n, c));
        }
    }
}

proof fn lemma_transformer_claims(
    m: Sem,
    s: Claims,
    xfs: Seq<DistTransformerV>,
    n: nat,
    c: (Seq<char>, Seed),
)
    requires
        n <= xfs.len(),
        all_positive(s),
    ensures
        transformer_claims(m, s, xfs, n).contains(c) <==> s.contains(c) || (positive(c.1)
            && claimed_by_transformer(m, xfs, n, c)),
        all_positive(transformer_claims(m, s, xfs, n)),
    decreases n,
{
    if n > 0 {
        lemma_transformer_claims(m, s, xfs, (n - 1) as nat, c);
        let w = xfs[n - 1].windings;
        lemma_winding_claims(m, transformer_claims(m, s, xfs, (n - 1) as nat), w, w.len(), c);
        if claimed_by_transformer(m, xfs, (n - 1) as nat, c) {
            let i = choose|i: int|
                0 <= i < n - 1 && claimed_by_winding(
                    m,
                    (#[trigger] xfs[i]).windings,
                    xfs[i].windings.len(),
                    c,
                );
            assert(claimed_by_transformer(m, xfs, n, c));
        }
        if claimed_by_winding(m, w, w.len(), c) {
            assert(claimed_by_transformer(m, xfs, n, c));
        }
    }
}

/// Two networks have the same sources, transformers, lines and switches, in
/// whatever order.
pub open spec fn same_elements(a: DistNetworkV, b: DistNetworkV) -> bool {
    &&& forall|x: VoltageSourceV| #[trigger] a.sources.contains(x) == b.sources.contains(x)
    &&& forall|x: DistTransformerV| #[trigger]
        a.transformers.contains(x) == b.transformers.contains(x)
    &&& forall|x: DistLineV| #[trigger] a.lines.contains(x) == b.lines.contains(x)
    &&& forall|x: DistSwitchV| #[trigger] a.switches.contains(x) == b.switches.contains(x)
}

proof fn lemma_same_claims(m: Sem, a: DistNetworkV, b: DistNetworkV, c: (Seq<char>, Seed))
    requires
        same_elements(a, b),
        claims_of(m, a).contains(c),
    ensures
        claims_of(m, b).contains(c),
{
    lemma_source_claims(m, a.sources, a.sources.len(), c);
    lemma_source_claims(m, b.sources, b.sources.len(), c);
    let sa = source_claims(m, a.sources, a.sources.len());
    let sb = source_claims(m, b.sources, b.sources.len());
    lemma_transformer_claims(m, sa, a.transformers, a.transformers.len(), c);
    lemma_transformer_claims(m, sb, b.transformers, b.transformers.len(), c);
    if sa.contains(c) {
        let i = choose|i: int|
            0 <= i < a.sources.len() && c == source_claim(m, #[trigger] a.sources[i]);
        assert(a.sources.contains(a.sources[i]));
        let j = choose|j: int| 0 <= j < b.sources.len() && b.sources[j] == a.sources[i];
        assert(c == source_claim(m, b.sources[j]));
    } else {
        let i = choose|i: int|
            0 <= i < a.transformers.len() && claimed_by_winding(
                m,
                (#[trigger] a.transformers[i]).windings,
                a.transformers[i].windings.len(),
                c,
            );
        assert(a.transformers.contains(a.transformers[i]));
        let j = choose|j: int|
            0 <= j < b.transformers.len() && b.transformers[j] == a.transformers[i];
        assert(claimed_by_winding(
            m,
            b.transformers[j].windings,
            b.transformers[j].windings.len(),
            c,
        ));
    }
}

proof fn lemma_same_edges(a: DistNetworkV, b: DistNetworkV, p: Seq<char>, q: Seq<char>)
    requires
        same_elements(a, b),
        linked(edges_of(a), p, q),
    ensures
        linked(edges_of(b), p, q),
{
    let ea = edges_of(a);
    let eb = edges_of(b);
    let i = choose|i: int|
        0 <= i < ea.len() && ((#[trigger] ea[i]) == (p, q) || ea[i] == (q, p));
    if i < a.lines.len() {
        assert(a.lines.contains(a.lines[i]));
        let j = choose|j: int| 0 <= j < b.lines.len() && b.lines[j] == a.lines[i];
        assert(eb[j] == ea[i]);
    } else {
        let k = i - a.lines.len();
        assert(a.switches.contains(a.switches[k]));
        let j = choose|j: int| 0 <= j < b.switches.len() && b.switches[j] == a.switches[k];
        assert(eb[b.lines.len() + j] == ea[i]);
    }
}

/// Some line joins the buses that a line joins.
pub open spec fn joins(s: Seq<DistLineV>, x: DistLineV) -> bool {
    exists|j: int|
        0 <= j < s.len() && (#[trigger] s[j]).bus_from == x.bus_from && s[j].bus_to == x.bus_to
}

/// Some switch joins the buses that a switch joins.
pub open spec fn bridges(s: Seq<DistSwitchV>, x: DistSwitchV) -> bool {
    exists|j: int|
        0 <= j < s.len() && (#[trigger] s[j]).bus_from == x.bus_from && s[j].bus_to == x.bus_to
}

/// Some source claims what a source claims.
pub open spec fn claims_as(m: Sem, s: Seq<VoltageSourceV>, x: VoltageSourceV) -> bool {
    exists|j: int| 0 <= j < s.len() && source_claim(m, #[trigger] s[j]) == source_claim(m, x)
}

/// Windings that claim the same, one for one.
pub open spec fn wound_alike(m: Sem, a: Seq<WindingV>, b: Seq<WindingV>) -> bool {
    &&& a.len() == b.len()
    &&& forall|k: int|
        0 <= k < a.len() ==> winding_claim(m, #[trigger] a[k]) == winding_claim(m, b[k])
}

/// Some transformer has windings that claim what those of a transformer claim.
pub open spec fn wound_as(m: Sem, s: Seq<DistTransformerV>, x: DistTransformerV) -> bool {
    exists|j: int| 0 <= j < s.len() && wound_alike(m, x.windings, (#[trigger] s[j]).windings)
}

/// Every claim and every edge of one network is one of another.
pub open spec fn alike_in(m: Sem, a: DistNetworkV, b: DistNetworkV) -> bool {
    &&& forall|i: int|
        0 <= i < a.transformers.len() ==> wound_as(m, b.transformers, #[trigger] a.transformers[i])
    &&& forall|i: int| 0 <= i < a.lines.len() ==> joins(b.lines, #[trigger] a.lines[i])
    &&& forall|i: int| 0 <= i < a.switches.len() ==> bridges(b.switches, #[trigger] a.switches[i])
    &&& forall|i: int| 0 <= i < a.sources.len() ==> claims_as(m, b.sources, #[trigger] a.sources[i])
}

proof fn lemma_claims_alike(m: Sem, a: DistNetworkV, b: DistNetworkV, c: (Seq<char>, Seed))
    requires
        alike_in(m, a, b),
        claims_of(m, a).contains(c),
    ensures
        claims_of(m, b).contains(c),
{
    lemma_source_claims(m, a.sources, a.sources.len(), c);
    lemma_source_claims(m, b.sources, b.sources.len(), c);
    let sa = source_claims(m, a.sources, a.sources.len());
    let sb = source_claims(m, b.sources, b.sources.len());
    lemma_transformer_claims(m, sa, a.transformers, a.transformers.len(), c);
    lemma_transformer_claims(m, sb, b.transformers, b.transformers.len(), c);
    if sa.contains(c) {
        let i = choose|i: int|
            0 <= i < a.sources.len() && c == source_claim(m, #[trigger] a.sources[i]);
        assert(claims_as(m, b.sources, a.sources[i]));
        let j = choose|j: int|
            0 <= j < b.sources.len() && source_claim(m, #[trigger] b.sources[j]) == source_claim(
                m,
                a.sources[i],
            );
        assert(c == source_claim(m, b.sources[j]));
    } else {
        let i = choose|i: int|
            0 <= i < a.transformers.len() && claimed_by_winding(
                m,
                (#[trigger] a.transformers[i]).windings,
                a.transformers[i].windings.len(),
                c,
            );
        let x = a.transformers[i].windings;
        assert(wound_as(m, b.transformers, a.transformers[i]));
        let j = choose|j: int|
            0 <= j < b.transformers.len() && wound_alike(
                m,
                x,
                (#[trigger] b.transformers[j]).windings,
            );
        let y = b.transformers[j].windings;
        let k = choose|k: int| 0 <= k < x.len() && c == winding_claim(m, #[trigger] x[k]);
        assert(c == winding_claim(m, y[k]));
        assert(claimed_by_winding(m, y, y.len(), c));
    }
}

proof fn lemma_edges_alike(m: Sem, a: DistNetworkV, b: DistNetworkV, p: Seq<char>, q: Seq<char>)
    requires
        alike_in(m, a, b),
        linked(edges_of(a), p, q),
    ensures
        linked(edges_of(b), p, q),
{
    let ea = edges_of(a);
    let eb = edges_of(b);
    let i = choose|i: int|
        0 <= i < ea.len() && ((#[trigger] ea[i]) == (p, q) || ea[i] == (q, p));
    if i < a.lines.len() {
        let x = a.lines[i];
        assert(joins(b.lines, x));
        let j = choose|j: int|
            0 <= j < b.lines.len() && (#[trigger] b.lines[j]).bus_from == x.bus_from
                && b.lines[j].bus_to == x.bus_to;
        assert(eb[j] == ea[i]);
    } else {
        let x = a.switches[i - a.lines.len()];
        assert(bridges(b.switches, x));
        let j = choose|j: int|
            0 <= j < b.switches.len() && (#[trigger] b.switches[j]).bus_from == x.bus_from
                && b.switches[j].bus_to == x.bus_to;
        assert(eb[b.lines.len() + j] == ea[i]);
    }
}

/// Networks whose sources and windings claim the same and whose lines and switches join the
/// same buses give their buses the same volts.
pub proof fn lemma_bases_alike(m: Sem, a: DistNetworkV, b: DistNetworkV)
    requires
        alike_in(m, a, b),
        alike_in(m, b, a),
        is_bases(claims_of(m, a), edges_of(a), best_claims(m, a)),
    ensures
        bases_of(m, a) == bases_of(m, b),
{
    assert forall|c: (Seq<char>, Seed)| claims_of(m, a).contains(c) == #[trigger] claims_of(
        m,
        b,
    ).contains(c) by {
        if claims_of(m, a).contains(c) {
            lemma_claims_alike(m, a, b, c);
        }
        if claims_of(m, b).contains(c) {
            lemma_claims_alike(m, b, a, c);
        }
    }
    assert forall|p: Seq<char>, q: Seq<char>| linked(edges_of(a), p, q) == #[trigger] linked(
        edges_of(b),
        p,
        q,
    ) by {
        if linked(edges_of(a), p, q) {
            lemma_edges_alike(m, a, b, p, q);
        }
        if linked(edges_of(b), p, q) {
            lemma_edges_alike(m, b, a, p, q);
        }
    }
    lemma_same_claims_same_bases(m, a, b);
}

/// Networks with the same claims and the same edges give their buses the same
/// volts.
proof fn lemma_same_claims_same_bases(m: Sem, a: DistNetworkV, b: DistNetworkV)
    requires
        forall|c: (Seq<char>, Seed)|
            claims_of(m, a).contains(c) == #[trigger] claims_of(m, b).contains(c),
        forall|p: Seq<char>, q: Seq<char>|
            linked(edges_of(a), p, q) == #[trigger] linked(edges_of(b), p, q),
        is_bases(claims_of(m, a), edges_of(a), best_claims(m, a)),
    ensures
        is_bases(claims_of(m, b), edges_of(b), best_claims(m, b)),
        bases_of(m, a) == bases_of(m, b),
{
    let s = best_claims(m, a);
    lemma_bases_order(claims_of(m, a), edges_of(a), claims_of(m, b), edges_of(b), s);
    lemma_source_claims(m, b.sources, b.sources.len(), arbitrary());
    lemma_transformer_claims(
        m,
        source_claims(m, b.sources, b.sources.len()),
        b.transformers,
        b.transformers.len(),
        arbitrary(),
    );
    lemma_bases_unique(claims_of(m, b), edges_of(b), s, best_claims(m, b));
    reveal(bases_of);
}

/// The order of elements does not matter: two networks of the same elements, in
/// whatever order, give their buses the same volts. That there are best claims
/// is what [`bus_bases`] shows.
pub proof fn lemma_element_order(m: Sem, a: DistNetworkV, b: DistNetworkV)
    requires
        same_elements(a, b),
        is_bases(claims_of(m, a), edges_of(a), best_claims(m, a)),
    ensures
        is_bases(claims_of(m, b), edges_of(b), best_claims(m, b)),
        bases_of(m, a) == bases_of(m, b),
{
    assert forall|c: (Seq<char>, Seed)| claims_of(m, a).contains(c) == #[trigger] claims_of(
        m,
        b,
    ).contains(c) by {
        if claims_of(m, a).contains(c) {
            lemma_same_claims(m, a, b, c);
        }
        if claims_of(m, b).contains(c) {
            lemma_same_claims(m, b, a, c);
        }
    }
    assert forall|p: Seq<char>, q: Seq<char>| linked(edges_of(a), p, q) == #[trigger] linked(
        edges_of(b),
        p,
        q,
    ) by {
        if linked(edges_of(a), p, q) {
            lemma_same_edges(a, b, p, q);
        }
        if linked(edges_of(b), p, q) {
            lemma_same_edges(b, a, p, q);
        }
    }
    lemma_same_claims_same_bases(m, a, b);
}

} // verus!
