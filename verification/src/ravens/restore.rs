//! Untyped objects that are read and put back again.

use vstd::prelude::*;

use crate::json::{Entries, JsonV};
use crate::order::{get_from, get_of, lemma_put, lemma_sorted_unique, put_from, put_of, sorted};
use crate::ravens::doc::{str_at, walk_entries, walk_of, ObjV};
use crate::ravens::laws::{apart, lemma_put_anywhere};
use crate::ravens::walks::lemma_walk_adds;
use crate::ravens::write::insert_in;
use crate::text::{lemma_str_less_total, lemma_str_less_transitive, str_less};

verus! {

// ---- entries in key order ----------------------------------------------------

/// Where an entry is put: in place of the one of its key, or before another.
proof fn lemma_put_shape(m: Entries, k: Seq<char>, v: JsonV, i: int) -> (j: int)
    requires
        sorted(m),
        0 <= i <= m.len(),
    ensures
        get_from(m, k, i) is Some ==> i <= j < m.len() && m[j].0 == k && get_from(m, k, i) == Some(
            m[j].1,
        ) && put_from(m, k, v, i) == m.update(j, (k, v)),
        get_from(m, k, i) is None ==> i <= j <= m.len() && put_from(m, k, v, i) == m.insert(
            j,
            (k, v),
        ),
    decreases m.len() - i,
{
    if i >= m.len() {
        assert(m.push((k, v)) =~= m.insert(i, (k, v)));
        i
    } else if m[i].0 == k {
        i
    } else if str_less(k, m[i].0) {
        lemma_none_after(m, k, i);
        i
    } else {
        lemma_put_shape(m, k, v, i + 1)
    }
}

/// No entry from one on is of a smaller key.
proof fn lemma_none_after(m: Entries, k: Seq<char>, i: int)
    requires
        sorted(m),
        0 <= i < m.len(),
        str_less(k, m[i].0),
    ensures
        get_from(m, k, i) is None,
    decreases m.len() - i,
{
    lemma_str_less_total(k, m[i].0);
    lemma_str_less_total(k, k);
    assert(k != m[i].0);
    assert(i + 1 == m.len() ==> get_from(m, k, i + 1) is None);
    if i + 1 < m.len() {
        assert(str_less(m[i].0, m[i + 1].0));
        lemma_str_less_transitive(k, m[i].0, m[i + 1].0);
        lemma_none_after(m, k, i + 1);
    }
}

/// Entries of two keys can be put in either order.
proof fn lemma_puts_commute(m: Entries, a: Seq<char>, x: JsonV, b: Seq<char>, y: JsonV)
    requires
        sorted(m),
        a != b,
    ensures
        put_of(put_of(m, a, x), b, y) == put_of(put_of(m, b, y), a, x),
{
    lemma_put(m, a, x);
    lemma_put(m, b, y);
    lemma_put(put_of(m, a, x), b, y);
    lemma_put(put_of(m, b, y), a, x);
    let p = put_of(put_of(m, a, x), b, y);
    let q = put_of(put_of(m, b, y), a, x);
    assert forall|k: Seq<char>| #[trigger] get_of(p, k) == get_of(q, k) by {
        if k == a {
        } else if k == b {
        } else {
            assert(get_of(p, k) == get_of(put_of(m, a, x), k));
            assert(get_of(q, k) == get_of(put_of(m, b, y), k));
        }
    }
    lemma_sorted_unique(p, q);
}

/// The last entry put under a key stands.
proof fn lemma_put_twice(m: Entries, k: Seq<char>, x: JsonV, y: JsonV)
    requires
        sorted(m),
    ensures
        put_of(put_of(m, k, x), k, y) == put_of(m, k, y),
{
    lemma_put(m, k, x);
    lemma_put(m, k, y);
    lemma_put(put_of(m, k, x), k, y);
    let p = put_of(put_of(m, k, x), k, y);
    let q = put_of(m, k, y);
    assert forall|h: Seq<char>| #[trigger] get_of(p, h) == get_of(q, h) by {
        if h != k {
            assert(get_of(p, h) == get_of(put_of(m, k, x), h));
        }
    }
    lemma_sorted_unique(p, q);
}

// ---- places ----------------------------------------------------------------

/// The levels of a path are in key order and bear no type.
pub open spec fn open_in(m: Entries, path: Seq<Seq<char>>, i: nat) -> bool
    decreases path.len() - i,
{
    &&& sorted(m)
    &&& i < path.len() ==> match get_of(m, path[i as int]) {
        Some(JsonV::Obj(sub)) => str_at(sub, "Ravens.cimObjectType"@) is None && open_in(
            sub,
            path,
            i + 1,
        ),
        _ => true,
    }
}

/// What goes under a path.
pub open spec fn below(m: Entries, k: Seq<char>) -> Entries {
    match get_of(m, k) {
        Some(JsonV::Obj(sub)) => sub,
        _ => Entries::empty(),
    }
}

proof fn lemma_empty_open(path: Seq<Seq<char>>, i: nat)
    ensures
        open_in(Entries::empty(), path, i),
        str_at(Entries::empty(), "Ravens.cimObjectType"@) is None,
{
    reveal(get_of);
    reveal(str_at);
}

/// What is inserted gives a level no type.
proof fn lemma_no_type(m: Entries, k: Seq<char>, v: JsonV)
    requires
        str_at(m, "Ravens.cimObjectType"@) is None,
        v is Obj,
    ensures
        str_at(put_of(m, k, v), "Ravens.cimObjectType"@) is None,
{
    lemma_put_anywhere(m, k, v, "Ravens.cimObjectType"@);
    reveal(str_at);
}

proof fn lemma_inserted_untyped(
    m: Entries,
    path: Seq<Seq<char>>,
    i: nat,
    name: Seq<char>,
    value: JsonV,
)
    requires
        value is Obj,
        str_at(m, "Ravens.cimObjectType"@) is None,
    ensures
        insert_in(m, path, i, name, value) matches Ok(o) ==> str_at(o, "Ravens.cimObjectType"@)
            is None,
{
    if let Ok(o) = insert_in(m, path, i, name, value) {
        if i >= path.len() {
            lemma_no_type(m, name, value);
        } else {
            let s = insert_in(below(m, path[i as int]), path, i + 1, name, value)->Ok_0;
            lemma_no_type(m, path[i as int], JsonV::Obj(s));
        }
    }
}

/// A path stays open while another place is filled.
pub proof fn lemma_stays_open(
    m: Entries,
    path: Seq<Seq<char>>,
    i: nat,
    name: Seq<char>,
    value: JsonV,
    other: Seq<Seq<char>>,
    named: Seq<char>,
)
    requires
        value is Obj,
        open_in(m, other, i),
        apart(path, name, other, named, i),
    ensures
        insert_in(m, path, i, name, value) matches Ok(o) ==> open_in(o, other, i),
    decreases path.len() - i,
{
    if let Ok(o) = insert_in(m, path, i, name, value) {
        let q = other[i as int];
        if i >= path.len() {
            lemma_put(m, name, value);
            if i < other.len() {
                lemma_put_anywhere(m, name, value, q);
            }
        } else {
            let k = path[i as int];
            let sub = below(m, k);
            let s = insert_in(sub, path, i + 1, name, value)->Ok_0;
            lemma_put(m, k, JsonV::Obj(s));
            if i < other.len() {
                lemma_put_anywhere(m, k, JsonV::Obj(s), q);
                if q == k {
                    lemma_empty_open(other, i + 1);
                    lemma_stays_open(sub, path, i + 1, name, value, other, named);
                    lemma_inserted_untyped(sub, path, i + 1, name, value);
                }
            }
        }
    }
}

/// Two places that lie apart can be filled in either order.
#[verifier::rlimit(40)]
pub proof fn lemma_inserts_commute(
    m: Entries,
    path: Seq<Seq<char>>,
    i: nat,
    name: Seq<char>,
    value: JsonV,
    other: Seq<Seq<char>>,
    named: Seq<char>,
    valued: JsonV,
)
    requires
        open_in(m, path, i),
        open_in(m, other, i),
        apart(path, name, other, named, i),
        insert_in(m, path, i, name, value) is Ok,
        insert_in(m, other, i, named, valued) is Ok,
    ensures
        insert_in(insert_in(m, path, i, name, value)->Ok_0, other, i, named, valued) is Ok,
        insert_in(insert_in(m, path, i, name, value)->Ok_0, other, i, named, valued) == insert_in(
            insert_in(m, other, i, named, valued)->Ok_0,
            path,
            i,
            name,
            value,
        ),
    decreases path.len() - i,
{
    let a = if i >= path.len() {
        name
    } else {
        path[i as int]
    };
    let b = if i >= other.len() {
        named
    } else {
        other[i as int]
    };
    let x = if i >= path.len() {
        value
    } else {
        JsonV::Obj(insert_in(below(m, a), path, i + 1, name, value)->Ok_0)
    };
    let y = if i >= other.len() {
        valued
    } else {
        JsonV::Obj(insert_in(below(m, b), other, i + 1, named, valued)->Ok_0)
    };
    assert(insert_in(m, path, i, name, value) == Ok::<Entries, Seq<char>>(put_of(m, a, x)));
    assert(insert_in(m, other, i, named, valued) == Ok::<Entries, Seq<char>>(put_of(m, b, y)));
    lemma_put_anywhere(m, a, x, b);
    lemma_put_anywhere(m, b, y, a);
    if a != b {
        lemma_puts_commute(m, a, x, b, y);
    } else {
        let sub = below(m, a);
        lemma_empty_open(path, i + 1);
        lemma_empty_open(other, i + 1);
        lemma_inserts_commute(sub, path, i + 1, name, value, other, named, valued);
        let r = insert_in(x->Obj_0, other, i + 1, named, valued)->Ok_0;
        lemma_put_twice(m, a, x, JsonV::Obj(r));
        lemma_put_twice(m, a, y, JsonV::Obj(r));
    }
}

// ---- what is found ---------------------------------------------------------

proof fn lemma_same_entries(
    a: Entries,
    b: Entries,
    n: nat,
    path: Seq<Seq<char>>,
    nested: bool,
    out: Seq<ObjV>,
)
    requires
        n <= a.len(),
        n <= b.len(),
        forall|i: int| 0 <= i < n ==> #[trigger] a[i] == b[i],
    ensures
        walk_entries(a, n, path, nested, out) == walk_entries(b, n, path, nested, out),
    decreases n,
{
    if n > 0 {
        lemma_same_entries(a, b, (n - 1) as nat, path, nested, out);
        assert(a[n - 1] == b[n - 1]);
    }
}

/// What is found in the entries of an object.
pub open spec fn found_in(m: Entries, path: Seq<Seq<char>>) -> Seq<ObjV> {
    walk_entries(m, m.len(), path, false, Seq::empty())
}

proof fn lemma_cut_n(m: Entries, j: nat, n: nat, path: Seq<Seq<char>>)
    requires
        j <= n <= m.len(),
    ensures
        walk_entries(m, n, path, false, Seq::empty()) == found_in(m.take(j as int), path)
            + walk_entries(m.skip(j as int), (n - j) as nat, path, false, Seq::empty()),
    decreases n,
{
    let none = Seq::<ObjV>::empty();
    let rest = m.skip(j as int);
    if n == j {
        lemma_same_entries(m, m.take(j as int), j, path, false, none);
        assert(found_in(m.take(j as int), path) + none =~= found_in(m.take(j as int), path));
    } else {
        lemma_cut_n(m, j, (n - 1) as nat, path);
        let e = m[n - 1];
        assert(rest[n - 1 - j] == e);
        let p = walk_entries(m, (n - 1) as nat, path, false, none);
        let q = walk_entries(rest, (n - 1 - j) as nat, path, false, none);
        let w = walk_of(Some(e.0), e.1, path, false, none);
        lemma_walk_adds(Some(e.0), e.1, path, false, p);
        lemma_walk_adds(Some(e.0), e.1, path, false, q);
        assert((found_in(m.take(j as int), path) + q) + w =~= found_in(m.take(j as int), path) + (q
            + w));
        assert((n - j - 1) as nat == (n - 1 - j) as nat);
        assert(walk_entries(rest, (n - j) as nat, path, false, none) == walk_of(
            Some(rest[n - j - 1].0),
            rest[n - j - 1].1,
            path,
            false,
            walk_entries(rest, (n - j - 1) as nat, path, false, none),
        ));
    }
}

/// What is found in an object, at one of its entries.
proof fn lemma_cut(m: Entries, j: int, path: Seq<Seq<char>>)
    requires
        0 <= j < m.len(),
    ensures
        found_in(m, path) == found_in(m.take(j), path) + walk_of(
            Some(m[j].0),
            m[j].1,
            path,
            false,
            Seq::empty(),
        ) + found_in(m.skip(j + 1), path),
{
    let none = Seq::<ObjV>::empty();
    lemma_cut_n(m, j as nat, m.len(), path);
    let rest = m.skip(j);
    lemma_cut_n(rest, 1, rest.len(), path);
    assert(rest.skip(1) =~= m.skip(j + 1));
    assert(rest.take(1) =~= seq![m[j]]);
    let one = seq![m[j]];
    assert(walk_entries(one, 0, path, false, none) == none);
    assert(found_in(one, path) == walk_of(Some(m[j].0), m[j].1, path, false, none));
    let a = found_in(m.take(j), path);
    let b = walk_of(Some(m[j].0), m[j].1, path, false, none);
    let c = found_in(m.skip(j + 1), path);
    assert(a + (b + c) =~= a + b + c);
}

proof fn lemma_cut_at(m: Entries, j: int, path: Seq<Seq<char>>)
    requires
        0 <= j <= m.len(),
    ensures
        found_in(m, path) == found_in(m.take(j), path) + found_in(m.skip(j), path),
{
    lemma_cut_n(m, j as nat, m.len(), path);
}

/// An inserted object is found between the others.
#[verifier::rlimit(60)]
pub proof fn lemma_inserted_walk(
    m: Entries,
    path: Seq<Seq<char>>,
    i: nat,
    name: Seq<char>,
    value: JsonV,
) -> (r: (Seq<ObjV>, Seq<ObjV>))
    requires
        value is Obj,
        i <= path.len(),
        open_in(m, path, i),
        insert_in(m, path, i, name, value) is Ok,
    ensures
        found_in(m, path.take(i as int)) == r.0 + r.1,
        found_in(insert_in(m, path, i, name, value)->Ok_0, path.take(i as int)) == r.0 + walk_of(
            Some(name),
            value,
            path,
            false,
            Seq::empty(),
        ) + r.1,
    decreases path.len() - i,
{
    let at = path.take(i as int);
    let o = insert_in(m, path, i, name, value)->Ok_0;
    let none = Seq::<ObjV>::empty();
    reveal(get_of);
    reveal(put_of);
    if i >= path.len() {
        assert(at =~= path);
        let j = lemma_put_shape(m, name, value, 0);
        assert(o.take(j) =~= m.take(j));
        assert(o.skip(j + 1) =~= m.skip(j));
        lemma_cut(o, j, at);
        lemma_cut_at(m, j, at);
        (found_in(m.take(j), at), found_in(m.skip(j), at))
    } else {
        let k = path[i as int];
        let sub = below(m, k);
        lemma_empty_open(path, i + 1);
        let s = insert_in(sub, path, i + 1, name, value)->Ok_0;
        let (a, b) = lemma_inserted_walk(sub, path, i + 1, name, value);
        assert(path.take((i + 1) as int) =~= at.push(k));
        lemma_inserted_untyped(sub, path, i + 1, name, value);
        let j = lemma_put_shape(m, k, JsonV::Obj(s), 0);
        let w = walk_of(Some(name), value, path, false, none);
        assert(walk_of(Some(k), JsonV::Obj(s), at, false, none) == found_in(s, at.push(k)));
        assert(o.take(j) =~= m.take(j));
        lemma_cut(o, j, at);
        let p = found_in(m.take(j), at);
        if get_of(m, k) is Some {
            let q = found_in(m.skip(j + 1), at);
            assert(o.skip(j + 1) =~= m.skip(j + 1));
            lemma_cut(m, j, at);
            assert(walk_of(Some(k), JsonV::Obj(sub), at, false, none) == found_in(
                sub,
                at.push(k),
            ));
            assert(p + (a + b) + q =~= (p + a) + (b + q));
            assert(p + (a + w + b) + q =~= (p + a) + w + (b + q));
            (p + a, b + q)
        } else {
            let q = found_in(m.skip(j), at);
            assert(o.skip(j + 1) =~= m.skip(j));
            lemma_cut_at(m, j, at);
            assert(found_in(sub, at.push(k)) == none);
            assert(a.len() + b.len() == (a + b).len());
            assert(a =~= none && b =~= none);
            assert(p + (a + w + b) + q =~= p + w + q);
            (p, q)
        }
    }
}

} // verus!
