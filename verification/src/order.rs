//! Ordered collections of strings: sets, counts, and stable sorting by
//! insertion.

use vstd::prelude::*;

use crate::math::{total_lt, total_rank, Bits};
use crate::text::{less, lemma_str_less_total, lemma_str_less_transitive, same, str_less, views};

verus! {

/// Whether a list holds a string.
pub fn contains(v: &Vec<String>, x: &str) -> (r: bool)
    ensures
        r == views(v@).contains(x@),
{
    let mut i: usize = 0;
    while i < v.len()
        invariant
            i <= v.len(),
            forall|k: int| 0 <= k < i ==> (#[trigger] views(v@)[k]) != x@,
        decreases v.len() - i,
    {
        assert(views(v@)[i as int] == v@[i as int]@);
        if same(v[i].as_str(), x) {
            assert(views(v@)[i as int] == x@);
            return true;
        }
        i = i + 1;
    }
    false
}

/// A copy of a list of strings.
pub fn copy_list(v: &Vec<String>) -> (r: Vec<String>)
    ensures
        views(r@) == views(v@),
        r@.len() == v@.len(),
{
    let mut r: Vec<String> = Vec::new();
    let mut i: usize = 0;
    while i < v.len()
        invariant
            i <= v.len(),
            r.len() == i,
            forall|k: int| 0 <= k < i ==> (#[trigger] r@[k])@ == v@[k]@,
        decreases v.len() - i,
    {
        r.push(v[i].clone());
        i = i + 1;
    }
    assert(views(r@) =~= views(v@));
    r
}

// ---- maps ------------------------------------------------------------------

/// The value of the first entry at or after `i` whose key is `k`.
pub open spec fn get_from<V>(m: Seq<(Seq<char>, V)>, k: Seq<char>, i: int) -> Option<V>
    decreases m.len() - i,
{
    if i < 0 || i >= m.len() {
        None
    } else if m[i].0 == k {
        Some(m[i].1)
    } else {
        get_from(m, k, i + 1)
    }
}

/// The value under `k`.
#[verifier::opaque]
pub open spec fn get_of<V>(m: Seq<(Seq<char>, V)>, k: Seq<char>) -> Option<V> {
    get_from(m, k, 0)
}

pub open spec fn put_from<V>(
    m: Seq<(Seq<char>, V)>,
    k: Seq<char>,
    v: V,
    i: int,
) -> Seq<(Seq<char>, V)>
    decreases m.len() - i,
{
    if i < 0 || i >= m.len() {
        m.push((k, v))
    } else if m[i].0 == k {
        m.update(i, (k, v))
    } else if str_less(k, m[i].0) {
        m.insert(i, (k, v))
    } else {
        put_from(m, k, v, i + 1)
    }
}

/// The entries with `v` under `k`: in place of the value that was there, or as
/// a new entry before the first greater key.
#[verifier::opaque]
pub open spec fn put_of<V>(m: Seq<(Seq<char>, V)>, k: Seq<char>, v: V) -> Seq<(Seq<char>, V)> {
    put_from(m, k, v, 0)
}

/// The keys ascend, so no key occurs twice.
pub open spec fn sorted<V>(m: Seq<(Seq<char>, V)>) -> bool {
    forall|i: int, j: int|
        0 <= i < j < m.len() ==> str_less(#[trigger] m[i].0, #[trigger] m[j].0)
}

proof fn lemma_put_from<V>(m: Seq<(Seq<char>, V)>, k: Seq<char>, v: V, i: int)
    requires
        sorted(m),
        0 <= i <= m.len(),
        forall|j: int| 0 <= j < i ==> str_less(#[trigger] m[j].0, k),
    ensures
        sorted(put_from(m, k, v, i)),
        get_from(put_from(m, k, v, i), k, i) == Some(v),
        forall|q: Seq<char>|
            q != k ==> #[trigger] get_from(put_from(m, k, v, i), q, i) == get_from(m, q, i),
        forall|j: int| 0 <= j < i ==> (#[trigger] put_from(m, k, v, i)[j]) == m[j],
        put_from(m, k, v, i).len() >= m.len(),
    decreases m.len() - i,
{
    let r = put_from(m, k, v, i);
    if i >= m.len() {
        assert forall|q: Seq<char>| q != k implies #[trigger] get_from(r, q, i) == get_from(
            m,
            q,
            i,
        ) by {
            assert(get_from(r, q, i + 1) is None);
        }
    } else if m[i].0 == k {
        assert forall|q: Seq<char>| q != k implies #[trigger] get_from(r, q, i) == get_from(
            m,
            q,
            i,
        ) by {
            lemma_get_tail(r, m, q, i + 1, i + 1);
        }
    } else if str_less(k, m[i].0) {
        assert forall|a: int, b: int| 0 <= a < b < r.len() implies str_less(
            #[trigger] r[a].0,
            #[trigger] r[b].0,
        ) by {
            if a == i && b > i + 1 {
                lemma_str_less_transitive(k, m[i].0, m[b - 1].0);
            }
            if b == i {
                assert(str_less(m[a].0, k));
            }
        }
        assert forall|q: Seq<char>| q != k implies #[trigger] get_from(r, q, i) == get_from(
            m,
            q,
            i,
        ) by {
            lemma_get_tail(r, m, q, i + 1, i);
        }
    } else {
        lemma_str_less_total(k, m[i].0);
        lemma_put_from(m, k, v, i + 1);
        assert(r[i] == m[i]);
        assert forall|q: Seq<char>| q != k implies #[trigger] get_from(r, q, i) == get_from(
            m,
            q,
            i,
        ) by {
            assert(get_from(r, q, i + 1) == get_from(m, q, i + 1));
        }
    }
}

/// Equal tails hold the same entries.
pub proof fn lemma_get_tail<V>(
    a: Seq<(Seq<char>, V)>,
    b: Seq<(Seq<char>, V)>,
    k: Seq<char>,
    i: int,
    j: int,
)
    requires
        0 <= i <= a.len(),
        0 <= j <= b.len(),
        a.len() - i == b.len() - j,
        forall|d: int| 0 <= d < a.len() - i ==> #[trigger] a[i + d] == b[j + d],
    ensures
        get_from(a, k, i) == get_from(b, k, j),
    decreases a.len() - i,
{
    if i < a.len() {
        assert(a[i + 0] == b[j + 0]);
        assert forall|d: int| 0 <= d < a.len() - (i + 1) implies #[trigger] a[(i + 1) + d] == b[(j
            + 1) + d] by {
            assert(a[i + (d + 1)] == b[j + (d + 1)]);
        }
        lemma_get_tail(a, b, k, i + 1, j + 1);
    }
}

/// Putting an entry keeps the key order; the key then reads back the value put
/// there, and every other key what it read before.
pub proof fn lemma_put<V>(m: Seq<(Seq<char>, V)>, k: Seq<char>, v: V)
    requires
        sorted(m),
    ensures
        sorted(put_of(m, k, v)),
        get_of(put_of(m, k, v), k) == Some(v),
        forall|q: Seq<char>| q != k ==> #[trigger] get_of(put_of(m, k, v), q) == get_of(m, q),
{
    reveal(get_of);
    reveal(put_of);
    lemma_put_from(m, k, v, 0);
}

/// Entries in key order are determined by what they hold under each key.
pub proof fn lemma_sorted_unique<V>(a: Seq<(Seq<char>, V)>, b: Seq<(Seq<char>, V)>)
    requires
        sorted(a),
        sorted(b),
        forall|k: Seq<char>| #[trigger] get_of(a, k) == get_of(b, k),
    ensures
        a == b,
    decreases a.len(),
{
    reveal(get_of);
    if a.len() == 0 {
        if b.len() > 0 {
            assert(get_of(b, b[0].0) == Some(b[0].1));
            assert(get_of(a, b[0].0) is None);
        }
        assert(a =~= b);
    } else {
        assert(get_of(a, a[0].0) == Some(a[0].1));
        assert(get_of(b, a[0].0) == Some(a[0].1));
        lemma_get_index(b, a[0].0, 0);
        let j = choose|j: int| 0 <= j < b.len() && (#[trigger] b[j]).0 == a[0].0;
        if j > 0 {
            assert(get_of(b, b[0].0) == Some(b[0].1));
            assert(get_of(a, b[0].0) is Some);
            lemma_get_index(a, b[0].0, 0);
            let i = choose|i: int| 0 <= i < a.len() && (#[trigger] a[i]).0 == b[0].0;
            assert(str_less(b[0].0, b[j].0));
            lemma_str_less_total(b[0].0, a[0].0);
            if i > 0 {
                assert(str_less(a[0].0, a[i].0));
            }
            assert(false);
        }
        assert(b[0].0 == a[0].0);
        assert(get_of(b, b[0].0) == Some(b[0].1));
        let ta = a.drop_first();
        let tb = b.drop_first();
        assert forall|k: Seq<char>| #[trigger] get_of(ta, k) == get_of(tb, k) by {
            lemma_get_tail(ta, a, k, 0, 1);
            lemma_get_tail(tb, b, k, 0, 1);
            assert(get_of(a, k) == get_of(b, k));
            if k == a[0].0 {
                lemma_absent(a, k, 1);
                lemma_absent(b, k, 1);
            }
        }
        assert forall|i: int, j: int| 0 <= i < j < ta.len() implies str_less(
            #[trigger] ta[i].0,
            #[trigger] ta[j].0,
        ) by {
            assert(str_less(a[i + 1].0, a[j + 1].0));
        }
        assert forall|i: int, j: int| 0 <= i < j < tb.len() implies str_less(
            #[trigger] tb[i].0,
            #[trigger] tb[j].0,
        ) by {
            assert(str_less(b[i + 1].0, b[j + 1].0));
        }
        lemma_sorted_unique(ta, tb);
        assert(a =~= seq![a[0]] + ta);
        assert(b =~= seq![b[0]] + tb);
    }
}

/// What is held under a key stands at some index.
pub proof fn lemma_get_index<V>(m: Seq<(Seq<char>, V)>, k: Seq<char>, i: int)
    requires
        0 <= i <= m.len(),
    ensures
        match get_from(m, k, i) {
            Some(v) => exists|j: int| i <= j < m.len() && (#[trigger] m[j]).0 == k && m[j].1 == v,
            None => forall|j: int| i <= j < m.len() ==> (#[trigger] m[j]).0 != k,
        },
    decreases m.len() - i,
{
    if i < m.len() {
        if m[i].0 == k {
            assert(m[i].1 == get_from(m, k, i)->0);
        } else {
            lemma_get_index(m, k, i + 1);
        }
    }
}

/// A key that stands first stands nowhere else.
proof fn lemma_absent<V>(m: Seq<(Seq<char>, V)>, k: Seq<char>, i: int)
    requires
        sorted(m),
        1 <= i <= m.len(),
        m[0].0 == k,
    ensures
        get_from(m, k, i) is None,
    decreases m.len() - i,
{
    if i < m.len() {
        assert(str_less(m[0].0, m[i].0));
        lemma_str_less_total(m[0].0, m[i].0);
        lemma_absent(m, k, i + 1);
    }
}

/// The value under a key.
pub fn get<T: View>(m: &Vec<(String, T)>, k: &str) -> (r: Option<usize>)
    ensures
        match r {
            Some(i) => i < m.len() && get_of(views(m@), k@) == Some(m@[i as int].1@),
            None => get_of(views(m@), k@) is None,
        },
{
    reveal(get_of);
    let mut i: usize = 0;
    while i < m.len()
        invariant
            i <= m.len(),
            get_of(views(m@), k@) == get_from(views(m@), k@, i as int),
        decreases m.len() - i,
    {
        assert(views(m@)[i as int] == (m@[i as int].0@, m@[i as int].1@));
        if same(m[i].0.as_str(), k) {
            return Some(i);
        }
        i = i + 1;
    }
    None
}

pub fn put<T: View>(m: &mut Vec<(String, T)>, k: String, v: T)
    ensures
        views(final(m)@) == put_of(views(old(m)@), k@, v@),
{
    reveal(put_of);
    let ghost before = views(m@);
    let ghost kv = k@;
    let ghost vv = v@;
    let mut i: usize = 0;
    while i < m.len()
        invariant
            i <= m.len(),
            views(m@) == before,
            views(old(m)@) == before,
            k@ == kv,
            v@ == vv,
            put_of(before, kv, vv) == put_from(before, kv, vv, i as int),
        decreases m.len() - i,
    {
        assert(views(m@)[i as int] == (m@[i as int].0@, m@[i as int].1@));
        if same(m[i].0.as_str(), k.as_str()) {
            m.set(i, (k, v));
            assert(views(m@) =~= before.update(i as int, (kv, vv)));
            return;
        }
        if less(k.as_str(), m[i].0.as_str()) {
            m.insert(i, (k, v));
            assert(views(m@) =~= before.insert(i as int, (kv, vv)));
            return;
        }
        i = i + 1;
    }
    m.push((k, v));
    assert(views(m@) =~= before.push((kv, vv)));
}

// ---- sets ------------------------------------------------------------------

/// The members ascend, so none occurs twice.
pub open spec fn ascending(s: Seq<Seq<char>>) -> bool {
    forall|i: int, j: int| 0 <= i < j < s.len() ==> str_less(#[trigger] s[i], #[trigger] s[j])
}

pub open spec fn set_put_from(s: Seq<Seq<char>>, x: Seq<char>, i: int) -> Seq<Seq<char>>
    decreases s.len() - i,
{
    if i < 0 || i >= s.len() {
        s.push(x)
    } else if s[i] == x {
        s
    } else if str_less(x, s[i]) {
        s.insert(i, x)
    } else {
        set_put_from(s, x, i + 1)
    }
}

/// The set with `x` in its place.
pub open spec fn set_put_of(s: Seq<Seq<char>>, x: Seq<char>) -> Seq<Seq<char>> {
    set_put_from(s, x, 0)
}

pub fn set_put(s: &mut Vec<String>, x: &str)
    ensures
        views(final(s)@) == set_put_of(views(old(s)@), x@),
{
    let ghost m = views(s@);
    let mut i: usize = 0;
    while i < s.len()
        invariant
            i <= s.len(),
            views(s@) == m,
            views(old(s)@) == m,
            set_put_of(m, x@) == set_put_from(m, x@, i as int),
        decreases s.len() - i,
    {
        assert(views(s@)[i as int] == s@[i as int]@);
        if same(s[i].as_str(), x) {
            return;
        }
        if less(x, s[i].as_str()) {
            s.insert(i, x.to_owned());
            assert(views(s@) =~= m.insert(i as int, x@));
            return;
        }
        i = i + 1;
    }
    s.push(x.to_owned());
    assert(views(s@) =~= m.push(x@));
}

proof fn lemma_set_put_from(s: Seq<Seq<char>>, x: Seq<char>, i: int)
    requires
        ascending(s),
        0 <= i <= s.len(),
        forall|j: int| 0 <= j < i ==> str_less(#[trigger] s[j], x),
    ensures
        ascending(set_put_from(s, x, i)),
        set_put_from(s, x, i).contains(x),
        forall|y: Seq<char>|
            y != x ==> (#[trigger] set_put_from(s, x, i).contains(y) <==> s.contains(y)),
    decreases s.len() - i,
{
    let r = set_put_from(s, x, i);
    if i >= s.len() {
        assert(r[s.len() as int] == x);
        assert forall|y: Seq<char>| y != x implies (#[trigger] r.contains(y) <==> s.contains(y)) by {
            if s.contains(y) {
                let k = choose|k: int| 0 <= k < s.len() && s[k] == y;
                assert(r[k] == y);
            }
        }
    } else if s[i] == x {
    } else if str_less(x, s[i]) {
        assert forall|a: int, b: int| 0 <= a < b < r.len() implies str_less(
            #[trigger] r[a],
            #[trigger] r[b],
        ) by {
            if a == i && b > i + 1 {
                lemma_str_less_transitive(x, s[i], s[b - 1]);
            }
            if b == i {
                assert(str_less(s[a], x));
            }
        }
        assert(r[i] == x);
        assert forall|y: Seq<char>| y != x implies (#[trigger] r.contains(y) <==> s.contains(y)) by {
            if s.contains(y) {
                let k = choose|k: int| 0 <= k < s.len() && s[k] == y;
                if k < i {
                    assert(r[k] == y);
                } else {
                    assert(r[k + 1] == y);
                }
            }
            if r.contains(y) {
                let k = choose|k: int| 0 <= k < r.len() && r[k] == y;
                if k < i {
                    assert(s[k] == y);
                } else {
                    assert(s[k - 1] == y);
                }
            }
        }
    } else {
        lemma_str_less_total(x, s[i]);
        lemma_set_put_from(s, x, i + 1);
    }
}

/// Putting a member keeps the order, adds that member and changes no other.
pub proof fn lemma_set_put(s: Seq<Seq<char>>, x: Seq<char>)
    requires
        ascending(s),
    ensures
        ascending(set_put_of(s, x)),
        set_put_of(s, x).contains(x),
        forall|y: Seq<char>|
            y != x ==> (#[trigger] set_put_of(s, x).contains(y) <==> s.contains(y)),
{
    lemma_set_put_from(s, x, 0);
}

/// The set with the first `n` of `xs` put in.
pub open spec fn set_extend_n(s: Seq<Seq<char>>, xs: Seq<Seq<char>>, n: nat) -> Seq<Seq<char>>
    decreases n,
{
    if n == 0 {
        s
    } else {
        set_put_of(set_extend_n(s, xs, (n - 1) as nat), xs[n - 1])
    }
}

pub open spec fn set_extend_of(s: Seq<Seq<char>>, xs: Seq<Seq<char>>) -> Seq<Seq<char>> {
    set_extend_n(s, xs, xs.len())
}

pub fn set_extend(s: &mut Vec<String>, xs: &Vec<String>)
    ensures
        views(final(s)@) == set_extend_of(views(old(s)@), views(xs@)),
{
    let mut i: usize = 0;
    while i < xs.len()
        invariant
            i <= xs.len(),
            views(s@) == set_extend_n(views(old(s)@), views(xs@), i as nat),
        decreases xs.len() - i,
    {
        assert(views(xs@)[i as int] == xs@[i as int]@);
        set_put(s, xs[i].as_str());
        i = i + 1;
    }
}

/// Extending a set keeps the order, keeps every member and adds the new ones.
pub proof fn lemma_set_extend(s: Seq<Seq<char>>, xs: Seq<Seq<char>>, n: nat)
    requires
        ascending(s),
        n <= xs.len(),
    ensures
        ascending(set_extend_n(s, xs, n)),
        forall|y: Seq<char>|
            #[trigger] set_extend_n(s, xs, n).contains(y) <==> s.contains(y) || xs.take(
                n as int,
            ).contains(y),
    decreases n,
{
    if n == 0 {
        assert(xs.take(0).len() == 0);
    } else {
        let p = set_extend_n(s, xs, (n - 1) as nat);
        lemma_set_extend(s, xs, (n - 1) as nat);
        lemma_set_put(p, xs[n - 1]);
        let r = set_extend_n(s, xs, n);
        assert forall|y: Seq<char>|
            #[trigger] r.contains(y) <==> s.contains(y) || xs.take(n as int).contains(y) by {
            if xs.take(n as int).contains(y) {
                let t = xs.take(n as int);
                let k = choose|k: int| 0 <= k < t.len() && t[k] == y;
                if k < n - 1 {
                    assert(xs.take(n - 1)[k] == y);
                }
            }
            if xs.take(n - 1).contains(y) {
                let t = xs.take(n - 1);
                let k = choose|k: int| 0 <= k < t.len() && t[k] == y;
                assert(xs.take(n as int)[k] == y);
            }
            if y == xs[n - 1] {
                assert(xs.take(n as int)[n - 1] == y);
            } else {
                assert(r.contains(y) <==> p.contains(y));
            }
        }
    }
}

// ---- counts ----------------------------------------------------------------

pub open spec fn bump_from(s: Seq<(Seq<char>, usize)>, x: Seq<char>, i: int) -> Seq<
    (Seq<char>, usize),
>
    decreases s.len() - i,
{
    if i < 0 || i >= s.len() {
        s.push((x, 1))
    } else if s[i].0 == x {
        s.update(i, (x, (s[i].1 + 1) as usize))
    } else if str_less(x, s[i].0) {
        s.insert(i, (x, 1))
    } else {
        bump_from(s, x, i + 1)
    }
}

/// The counts, in key order, with one more `x`.
pub open spec fn bump_of(s: Seq<(Seq<char>, usize)>, x: Seq<char>) -> Seq<(Seq<char>, usize)> {
    bump_from(s, x, 0)
}

pub fn bump(s: &mut Vec<(String, usize)>, x: &str, Ghost(bound): Ghost<usize>)
    requires
        bound < usize::MAX,
        forall|k: int| 0 <= k < old(s)@.len() ==> (#[trigger] old(s)@[k]).1 <= bound,
    ensures
        views(final(s)@) == bump_of(views(old(s)@), x@),
        forall|k: int| 0 <= k < final(s)@.len() ==> (#[trigger] final(s)@[k]).1 <= bound + 1,
{
    let ghost m = views(s@);
    let mut i: usize = 0;
    while i < s.len()
        invariant
            i <= s.len(),
            s@ == old(s)@,
            views(s@) == m,
            bound < usize::MAX,
            forall|k: int| 0 <= k < old(s)@.len() ==> (#[trigger] old(s)@[k]).1 <= bound,
            bump_of(m, x@) == bump_from(m, x@, i as int),
        decreases s.len() - i,
    {
        assert(views(s@)[i as int] == (s@[i as int].0@, s@[i as int].1));
        if same(s[i].0.as_str(), x) {
            let n = s[i].1 + 1;
            s.set(i, (x.to_owned(), n));
            assert(views(s@) =~= m.update(i as int, (x@, n)));
            return;
        }
        if less(x, s[i].0.as_str()) {
            s.insert(i, (x.to_owned(), 1));
            assert(views(s@) =~= m.insert(i as int, (x@, 1usize)));
            return;
        }
        i = i + 1;
    }
    s.push((x.to_owned(), 1));
    assert(views(s@) =~= m.push((x@, 1usize)));
}

// ---- stable sorting --------------------------------------------------------

/// Where `x` goes among pairs sorted by key: before the first greater key, so
/// after every equal one.
pub open spec fn slot_by_key(s: Seq<(Seq<char>, Seq<char>)>, key: Seq<char>, i: int) -> int
    decreases s.len() - i,
{
    if i < 0 || i >= s.len() || str_less(key, s[i].0) {
        i
    } else {
        slot_by_key(s, key, i + 1)
    }
}

pub open spec fn insert_by_key_of(s: Seq<(Seq<char>, Seq<char>)>, x: (Seq<char>, Seq<char>)) -> Seq<
    (Seq<char>, Seq<char>),
> {
    s.insert(slot_by_key(s, x.0, 0), x)
}

pub fn insert_by_key(s: &mut Vec<(String, String)>, key: String, value: String)
    ensures
        views(final(s)@) == insert_by_key_of(views(old(s)@), (key@, value@)),
{
    let ghost m = views(s@);
    let mut i: usize = 0;
    while i < s.len() && !less(key.as_str(), s[i].0.as_str())
        invariant
            i <= s.len(),
            views(s@) == m,
            slot_by_key(m, key@, 0) == slot_by_key(m, key@, i as int),
        decreases s.len() - i,
    {
        assert(views(s@)[i as int] == (s@[i as int].0@, s@[i as int].1@));
        i = i + 1;
    }
    if i < s.len() {
        assert(views(s@)[i as int] == (s@[i as int].0@, s@[i as int].1@));
    }
    s.insert(i, (key, value));
    assert(views(s@) =~= m.insert(i as int, (key@, value@)));
}

/// Where a rank goes among pairs sorted by rank, after every equal one.
pub open spec fn slot_by_rank(s: Seq<(Bits, Seq<char>)>, rank: Bits, i: int) -> int
    decreases s.len() - i,
{
    if i < 0 || i >= s.len() || total_rank(rank) < total_rank(s[i].0) {
        i
    } else {
        slot_by_rank(s, rank, i + 1)
    }
}

pub open spec fn insert_by_rank_of(s: Seq<(Bits, Seq<char>)>, x: (Bits, Seq<char>)) -> Seq<
    (Bits, Seq<char>),
> {
    s.insert(slot_by_rank(s, x.0, 0), x)
}

pub fn insert_by_rank(s: &mut Vec<(Bits, String)>, rank: Bits, value: String)
    ensures
        views(final(s)@) == insert_by_rank_of(views(old(s)@), (rank, value@)),
        final(s)@.len() == old(s)@.len() + 1,
{
    let ghost m = views(s@);
    let mut i: usize = 0;
    while i < s.len() && !total_lt(rank, s[i].0)
        invariant
            i <= s.len(),
            views(s@) == m,
            s@.len() == old(s)@.len(),
            slot_by_rank(m, rank, 0) == slot_by_rank(m, rank, i as int),
        decreases s.len() - i,
    {
        assert(views(s@)[i as int] == (s@[i as int].0, s@[i as int].1@));
        i = i + 1;
    }
    if i < s.len() {
        assert(views(s@)[i as int] == (s@[i as int].0, s@[i as int].1@));
    }
    s.insert(i, (rank, value));
    assert(views(s@) =~= m.insert(i as int, (rank, value@)));
}

// ---- bytes -----------------------------------------------------------------

/// Where a number goes in an ascending list.
pub open spec fn byte_slot(s: Seq<u8>, x: u8, i: int) -> int
    decreases s.len() - i,
{
    if i < 0 || i >= s.len() || x <= s[i] {
        i
    } else {
        byte_slot(s, x, i + 1)
    }
}

/// An ascending list with `x` in its place, once.
pub open spec fn byte_put_of(s: Seq<u8>, x: u8) -> Seq<u8> {
    let i = byte_slot(s, x, 0);
    if i < s.len() && s[i] == x {
        s
    } else {
        s.insert(i, x)
    }
}

pub fn byte_put(s: &mut Vec<u8>, x: u8)
    ensures
        final(s)@ == byte_put_of(old(s)@, x),
{
    let mut i: usize = 0;
    while i < s.len() && x > s[i]
        invariant
            i <= s.len(),
            s@ == old(s)@,
            byte_slot(s@, x, 0) == byte_slot(s@, x, i as int),
        decreases s.len() - i,
    {
        i = i + 1;
    }
    if i < s.len() && s[i] == x {
        return;
    }
    s.insert(i, x);
}

} // verus!
