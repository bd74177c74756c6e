//! Untyped objects that come back of a document.

use vstd::prelude::*;

use crate::json::{json_compact, json_parse, reads_as, Entries, JsonV};
use crate::model::UntypedObjectV;
use crate::ravens::accept::mild;
use crate::ravens::doc::{collect_of, str_at, walk_entries, walk_items, walk_of, ObjV};
use crate::ravens::emit::WriterV;
use crate::ravens::laws::{apart, lemma_untyped_placed, path_of, placed, plain_path};
use crate::ravens::read::{claimed_kinds, kept_n, unclaimed};
use crate::ravens::restore::{lemma_inserted_walk, lemma_inserts_commute, lemma_stays_open, open_in};
use crate::ravens::state::{untyped_of, StateV};
use crate::ravens::walks::{lemma_entries_add, lemma_mild_none};
use crate::ravens::write::{insert_in, restore_step, restored, untyped_prop};

verus! {

// ---- putting back ----------------------------------------------------------

/// The document with an object in its place.
pub open spec fn put_back(root: Entries, o: ObjV) -> Result<Entries, Seq<char>> {
    insert_in(root, o.path, 0, o.name, JsonV::Obj(o.props))
}

/// The document with the first `n` of some objects in their places.
pub open spec fn put_all(root: Entries, s: Seq<ObjV>, n: nat) -> Entries
    decreases n,
{
    if n == 0 {
        root
    } else {
        let before = put_all(root, s, (n - 1) as nat);
        match put_back(before, s[n - 1]) {
            Ok(r) => r,
            Err(_) => before,
        }
    }
}

/// Neither of two objects lies within the other.
pub open spec fn lie_apart(a: ObjV, b: ObjV) -> bool {
    apart(a.path, a.name, b.path, b.name, 0) && apart(b.path, b.name, a.path, a.name, 0)
}

/// There is a place for an object.
pub open spec fn has_place(root: Entries, o: ObjV) -> bool {
    open_in(root, o.path, 0) && put_back(root, o) is Ok
}

/// There are places for some objects, apart from each other.
pub open spec fn fit(root: Entries, s: Seq<ObjV>) -> bool {
    &&& forall|i: int| 0 <= i < s.len() ==> has_place(root, #[trigger] s[i])
    &&& forall|i: int, j: int|
        0 <= i < s.len() && 0 <= j < s.len() && i != j ==> lie_apart(
            #[trigger] s[i],
            #[trigger] s[j],
        )
}

/// A place is still there while others are filled.
proof fn lemma_still_fits(root: Entries, s: Seq<ObjV>, n: nat, u: ObjV)
    requires
        n <= s.len(),
        fit(root, s),
        has_place(root, u),
        forall|i: int| 0 <= i < n ==> lie_apart(#[trigger] s[i], u),
    ensures
        has_place(put_all(root, s, n), u),
    decreases n,
{
    if n > 0 {
        let k = (n - 1) as nat;
        let before = put_all(root, s, k);
        let o = s[n - 1];
        lemma_still_fits(root, s, k, u);
        assert forall|i: int| 0 <= i < k implies lie_apart(#[trigger] s[i], o) by {}
        lemma_still_fits(root, s, k, o);
        assert(lie_apart(o, u));
        lemma_inserts_commute(
            before,
            o.path,
            0,
            o.name,
            JsonV::Obj(o.props),
            u.path,
            u.name,
            JsonV::Obj(u.props),
        );
        lemma_stays_open(before, o.path, 0, o.name, JsonV::Obj(o.props), u.path, u.name);
    }
}

proof fn lemma_same_put(root: Entries, a: Seq<ObjV>, b: Seq<ObjV>, n: nat)
    requires
        forall|i: int| 0 <= i < n ==> a[i] == b[i],
    ensures
        put_all(root, a, n) == put_all(root, b, n),
    decreases n,
{
    if n > 0 {
        lemma_same_put(root, a, b, (n - 1) as nat);
        assert(a[n - 1] == b[n - 1]);
    }
}

/// An object can be put back in any turn.
pub proof fn lemma_any_turn(root: Entries, s: Seq<ObjV>, j: int, u: ObjV)
    requires
        0 <= j <= s.len(),
        fit(root, s),
        has_place(root, u),
        forall|i: int| 0 <= i < s.len() ==> lie_apart(#[trigger] s[i], u),
    ensures
        put_back(put_all(root, s, s.len()), u) == Ok::<Entries, Seq<char>>(
            put_all(root, s.insert(j, u), s.len() + 1),
        ),
    decreases s.len(),
{
    let n = s.len();
    let t = s.insert(j, u);
    lemma_still_fits(root, s, n, u);
    if j == n {
        lemma_same_put(root, s, t, n);
        assert(t[n as int] == u);
    } else {
        let last = s[n - 1];
        let less = s.drop_last();
        let k = (n - 1) as nat;
        assert(fit(root, less)) by {
            assert forall|a: int| 0 <= a < less.len() implies has_place(root, #[trigger] less[a]) by {
                assert(less[a] == s[a]);
            }
            assert forall|a: int, b: int|
                0 <= a < less.len() && 0 <= b < less.len() && a != b implies lie_apart(
                #[trigger] less[a],
                #[trigger] less[b],
            ) by {
                assert(less[a] == s[a] && less[b] == s[b]);
            }
        }
        assert forall|i: int| 0 <= i < less.len() implies lie_apart(#[trigger] less[i], u) by {
            assert(less[i] == s[i]);
        }
        lemma_any_turn(root, less, j, u);
        let m = put_all(root, s, k);
        lemma_same_put(root, s, less, k);
        assert forall|i: int| 0 <= i < k implies lie_apart(#[trigger] s[i], last) by {}
        lemma_still_fits(root, s, k, last);
        lemma_still_fits(root, s, k, u);
        assert(lie_apart(last, u));
        lemma_inserts_commute(
            m,
            last.path,
            0,
            last.name,
            JsonV::Obj(last.props),
            u.path,
            u.name,
            JsonV::Obj(u.props),
        );
        lemma_same_put(root, t, less.insert(j, u), n);
        assert(t[n as int] == last);
    }
}

// ---- what is kept ----------------------------------------------------------

/// The unclaimed ones of the first `n` objects.
pub open spec fn loose_n(doc: Seq<ObjV>, n: nat) -> Seq<ObjV>
    decreases n,
{
    if n == 0 {
        seq![]
    } else {
        let before = loose_n(doc, (n - 1) as nat);
        if unclaimed(doc[n - 1]) {
            before.push(doc[n - 1])
        } else {
            before
        }
    }
}

pub open spec fn loose(doc: Seq<ObjV>) -> Seq<ObjV> {
    loose_n(doc, doc.len())
}

proof fn lemma_loose_both(a: Seq<ObjV>, b: Seq<ObjV>, n: nat)
    requires
        n <= b.len(),
    ensures
        loose_n(a + b, a.len() + n) == loose(a) + loose_n(b, n),
    decreases n,
{
    if n == 0 {
        lemma_loose_same(a, a + b, a.len());
        assert(loose(a) + loose_n(b, 0) =~= loose(a));
    } else {
        lemma_loose_both(a, b, (n - 1) as nat);
        assert((a + b)[a.len() + n - 1] == b[n - 1]);
        if unclaimed(b[n - 1]) {
            let p = loose_n(b, (n - 1) as nat);
            assert((loose(a) + p).push(b[n - 1]) =~= loose(a) + p.push(b[n - 1]));
        }
    }
}

proof fn lemma_loose_same(a: Seq<ObjV>, b: Seq<ObjV>, n: nat)
    requires
        n <= a.len(),
        n <= b.len(),
        forall|i: int| 0 <= i < n ==> #[trigger] a[i] == b[i],
    ensures
        loose_n(a, n) == loose_n(b, n),
    decreases n,
{
    if n > 0 {
        lemma_loose_same(a, b, (n - 1) as nat);
        assert(a[n - 1] == b[n - 1]);
    }
}

proof fn lemma_loose_none(doc: Seq<ObjV>, n: nat)
    requires
        n <= doc.len(),
        forall|i: int| 0 <= i < doc.len() ==> !unclaimed(#[trigger] doc[i]),
    ensures
        loose_n(doc, n) == Seq::<ObjV>::empty(),
    decreases n,
{
    if n > 0 {
        lemma_loose_none(doc, (n - 1) as nat);
    }
}

/// The objects that are kept untyped are the unclaimed ones.
pub proof fn lemma_keeps_loose(doc: Seq<ObjV>, st: StateV, n: nat)
    requires
        st.net.untyped.len() == 0,
    ensures
        kept_n(doc, st, n).0.net.untyped == Seq::new(
            loose_n(doc, n).len(),
            |i: int| untyped_of(loose_n(doc, n)[i]),
        ),
    decreases n,
{
    reveal(StateV::push_untyped);
    let kept = kept_n(doc, st, n).0.net.untyped;
    if n > 0 {
        lemma_keeps_loose(doc, st, (n - 1) as nat);
    }
    assert(kept =~= Seq::new(loose_n(doc, n).len(), |i: int| untyped_of(loose_n(doc, n)[i])));
}

// ---- within an object ------------------------------------------------------

/// Objects that stand within others.
pub open spec fn all_nested(s: Seq<ObjV>) -> bool {
    forall|i: int| 0 <= i < s.len() ==> (#[trigger] s[i]).nested
}

proof fn lemma_nested_walk(
    name: Option<Seq<char>>,
    value: JsonV,
    path: Seq<Seq<char>>,
    out: Seq<ObjV>,
)
    requires
        all_nested(out),
    ensures
        all_nested(walk_of(name, value, path, true, out)),
    decreases value, 0nat,
{
    let below = match name {
        Some(n) => path.push(n),
        None => path,
    };
    match value {
        JsonV::Obj(map) => match str_at(map, "Ravens.cimObjectType"@) {
            Some(kind) => {
                let own = ObjV {
                    kind,
                    name: match name {
                        Some(n) => n,
                        None => match str_at(map, "IdentifiedObject.name"@) {
                            Some(n) => n,
                            None => seq![],
                        },
                    },
                    path,
                    nested: true,
                    props: map,
                };
                assert(all_nested(out.push(own)));
                lemma_nested_entries(map, map.len(), below, out.push(own));
            },
            None => {
                lemma_nested_entries(map, map.len(), below, out);
            },
        },
        JsonV::Arr(items) => {
            lemma_nested_items(items, items.len(), below, out);
        },
        _ => {},
    }
}

proof fn lemma_nested_entries(map: Entries, n: nat, path: Seq<Seq<char>>, out: Seq<ObjV>)
    requires
        all_nested(out),
    ensures
        all_nested(walk_entries(map, n, path, true, out)),
    decreases map, n,
{
    if 0 < n <= map.len() {
        lemma_nested_entries(map, (n - 1) as nat, path, out);
        let before = walk_entries(map, (n - 1) as nat, path, true, out);
        lemma_nested_walk(Some(map[n - 1].0), map[n - 1].1, path, before);
    }
}

proof fn lemma_nested_items(items: Seq<JsonV>, n: nat, path: Seq<Seq<char>>, out: Seq<ObjV>)
    requires
        all_nested(out),
    ensures
        all_nested(walk_items(items, n, path, true, out)),
    decreases items, n,
{
    if 0 < n <= items.len() {
        lemma_nested_items(items, (n - 1) as nat, path, out);
        let before = walk_items(items, (n - 1) as nat, path, true, out);
        lemma_nested_walk(None, items[n - 1], path, before);
    }
}

/// An object of a kind that no typed mapping reads, as it stands on its own.
pub open spec fn is_own(o: ObjV) -> bool {
    str_at(o.props, "Ravens.cimObjectType"@) == Some(o.kind) && unclaimed(o)
}

/// What is found at an object: the object, and what stands within it.
pub open spec fn found_of(o: ObjV) -> Seq<ObjV> {
    walk_of(Some(o.name), JsonV::Obj(o.props), o.path, false, Seq::empty())
}

proof fn lemma_own_loose(o: ObjV)
    requires
        is_own(o),
    ensures
        loose(found_of(o)) == seq![o],
{
    let none = Seq::<ObjV>::empty();
    let one = none.push(o);
    let at = o.path.push(o.name);
    lemma_entries_add(o.props, o.props.len(), at, true, one);
    let rest = walk_entries(o.props, o.props.len(), at, true, none);
    lemma_nested_entries(o.props, o.props.len(), at, none);
    assert(found_of(o) == one + rest);
    lemma_loose_both(one, rest, rest.len());
    assert forall|i: int| 0 <= i < rest.len() implies !unclaimed(#[trigger] rest[i]) by {}
    lemma_loose_none(rest, rest.len());
    assert(loose_n(one, 0) == none);
    assert(loose(one) == one);
    assert(one + none =~= seq![o]);
}

// ---- coming back -----------------------------------------------------------

/// Objects of a list are among the first `n` of another.
pub open spec fn among(t: Seq<ObjV>, s: Seq<ObjV>, n: nat) -> bool {
    forall|i: int|
        0 <= i < t.len() ==> exists|k: int| 0 <= k < n && #[trigger] s[k] == #[trigger] t[i]
}

/// The unclaimed objects of a document with objects put back are those, and
/// putting them back gives the document.
pub proof fn lemma_loose_come_back(root: Entries, s: Seq<ObjV>, n: nat)
    requires
        n <= s.len(),
        fit(root, s),
        forall|i: int| 0 <= i < s.len() ==> is_own(#[trigger] s[i]),
        forall|i: int|
            0 <= i < collect_of(root).len() ==> !unclaimed(#[trigger] collect_of(root)[i]),
    ensures
        ({
            let d = put_all(root, s, n);
            let t = loose(collect_of(d));
            &&& among(t, s, n)
            &&& among(s.take(n as int), t, t.len())
            &&& fit(root, t)
            &&& put_all(root, t, t.len()) == d
        }),
    decreases n,
{
    if n == 0 {
        lemma_loose_none(collect_of(root), collect_of(root).len());
    } else {
        let k = (n - 1) as nat;
        lemma_loose_come_back(root, s, k);
        let d = put_all(root, s, k);
        let t = loose(collect_of(d));
        let u = s[n - 1];
        assert forall|i: int| 0 <= i < k implies lie_apart(#[trigger] s[i], u) by {}
        lemma_still_fits(root, s, k, u);
        let (a, b) = lemma_inserted_walk(d, u.path, 0, u.name, JsonV::Obj(u.props));
        assert(u.path.take(0) =~= Seq::<Seq<char>>::empty());
        let e = put_all(root, s, n);
        let w = found_of(u);
        assert(collect_of(d) == a + b);
        assert(collect_of(e) == a + w + b);
        lemma_own_loose(u);
        lemma_loose_both(a, b, b.len());
        lemma_loose_both(a, w, w.len());
        lemma_loose_both(a + w, b, b.len());
        let j = loose(a).len() as int;
        let r = loose(collect_of(e));
        assert(t == loose(a) + loose(b));
        assert(r == loose(a) + seq![u] + loose(b));
        assert(r =~= t.insert(j, u));
        assert forall|i: int| 0 <= i < t.len() implies lie_apart(#[trigger] t[i], u) by {
            let h = choose|h: int| 0 <= h < k && #[trigger] s[h] == t[i];
            assert(lie_apart(s[h], u));
        }
        lemma_any_turn(root, t, j, u);
        assert forall|i: int| 0 <= i < r.len() implies exists|h: int|
            0 <= h < n && #[trigger] s[h] == #[trigger] r[i] by {
            if i == j {
                assert(s[n - 1] == r[i]);
            } else {
                let x = if i < j {
                    i
                } else {
                    i - 1
                };
                assert(r[i] == t[x]);
                let h = choose|h: int| 0 <= h < k && #[trigger] s[h] == t[x];
                assert(s[h] == r[i]);
            }
        }
        let all = s.take(n as int);
        assert forall|i: int| 0 <= i < all.len() implies exists|h: int|
            0 <= h < r.len() && #[trigger] r[h] == #[trigger] all[i] by {
            if i == n - 1 {
                assert(r[j] == all[i]);
            } else {
                assert(s.take(k as int)[i] == all[i]);
                let h = choose|h: int| 0 <= h < t.len() && #[trigger] t[h] == s.take(k as int)[i];
                let x = if h < j {
                    h
                } else {
                    h + 1
                };
                assert(r[x] == t[h]);
            }
        }
        assert(fit(root, r)) by {
            assert forall|i: int| 0 <= i < r.len() implies has_place(root, #[trigger] r[i]) by {
                let h = choose|h: int| 0 <= h < n && #[trigger] s[h] == r[i];
                assert(has_place(root, s[h]));
            }
            assert forall|x: int, y: int|
                0 <= x < r.len() && 0 <= y < r.len() && x != y implies lie_apart(
                #[trigger] r[x],
                #[trigger] r[y],
            ) by {
                let p = if x < j {
                    x
                } else {
                    x - 1
                };
                let q = if y < j {
                    y
                } else {
                    y - 1
                };
                if x == j {
                    assert(r[y] == t[q]);
                    assert(lie_apart(t[q], u));
                } else if y == j {
                    assert(r[x] == t[p]);
                    assert(lie_apart(t[p], u));
                } else {
                    assert(r[x] == t[p] && r[y] == t[q]);
                    assert(lie_apart(t[p], t[q]));
                }
            }
        }
    }
}

/// Objects put back are of no kind that does not occur in them: what is of the
/// kind was there before.
pub proof fn lemma_kind_stays(root: Entries, s: Seq<ObjV>, n: nat, x: Seq<char>, i: int) -> (j:
    int)
    requires
        n <= s.len(),
        fit(root, s),
        forall|k: int| 0 <= k < s.len() ==> mild(x, JsonV::Obj((#[trigger] s[k]).props)),
        0 <= i < collect_of(put_all(root, s, n)).len(),
        collect_of(put_all(root, s, n))[i].kind == x,
    ensures
        0 <= j < collect_of(root).len(),
        collect_of(root)[j] == collect_of(put_all(root, s, n))[i],
    decreases n,
{
    if n == 0 {
        i
    } else {
        let k = (n - 1) as nat;
        let d = put_all(root, s, k);
        let u = s[n - 1];
        assert forall|h: int| 0 <= h < k implies lie_apart(#[trigger] s[h], u) by {}
        lemma_still_fits(root, s, k, u);
        let (a, b) = lemma_inserted_walk(d, u.path, 0, u.name, JsonV::Obj(u.props));
        assert(u.path.take(0) =~= Seq::<Seq<char>>::empty());
        let w = found_of(u);
        let all = collect_of(put_all(root, s, n));
        assert(all == a + w + b);
        assert(collect_of(d) == a + b);
        lemma_mild_none(x, Some(u.name), JsonV::Obj(u.props), u.path, false);
        if i < a.len() {
            assert(all[i] == a[i]);
            assert(collect_of(d)[i] == a[i]);
            lemma_kind_stays(root, s, k, x, i)
        } else if i < a.len() + w.len() {
            assert(all[i] == w[i - a.len()]);
            assert(false);
            i
        } else {
            let h = i - w.len();
            assert(all[i] == b[h - a.len()]);
            assert(collect_of(d)[h] == b[h - a.len()]);
            lemma_kind_stays(root, s, k, x, h)
        }
    }
}

// ---- untyped objects of a network --------------------------------------------

/// The object that an untyped object was.
pub open spec fn object_of(u: UntypedObjectV) -> ObjV {
    let raw = untyped_prop(u.props, "ravens_json"@, 0)->0;
    let props = json_parse(raw)->Ok_0->Obj_0;
    ObjV {
        kind: str_at(props, "Ravens.cimObjectType"@)->0,
        name: u.name,
        path: path_of(u),
        nested: false,
        props,
    }
}

/// The objects that untyped objects were.
pub open spec fn objects_of(s: Seq<UntypedObjectV>) -> Seq<ObjV> {
    Seq::new(s.len(), |i: int| object_of(s[i]))
}

/// No object at or below a value is of a kind that a typed mapping reads.
pub open spec fn unread(v: JsonV) -> bool {
    forall|k: int| 0 <= k < claimed_kinds().len() ==> mild(#[trigger] claimed_kinds()[k], v)
}

/// An untyped object can be put back: it has a path and a text, and is an object
/// of a kind that no typed mapping reads, which its text on one line gives back.
pub open spec fn stowable(u: UntypedObjectV) -> bool {
    let o = object_of(u);
    &&& placed(u, o.path, JsonV::Obj(o.props))
    &&& is_own(o)
    &&& u.class == o.kind
    &&& unread(JsonV::Obj(o.props))
    &&& plain_path(o.path)
    &&& reads_as(json_compact(JsonV::Obj(o.props)), JsonV::Obj(o.props))
}

/// Restoring untyped objects is putting back the objects that they were.
pub proof fn lemma_restored_is_put(w: WriterV, root: Entries, s: Seq<UntypedObjectV>, n: nat)
    requires
        n <= s.len(),
        forall|i: int|
            0 <= i < s.len() ==> placed(
                #[trigger] s[i],
                object_of(s[i]).path,
                JsonV::Obj(object_of(s[i]).props),
            ),
    ensures
        restored(w, root, s, n).1 == put_all(root, objects_of(s), n),
    decreases n,
{
    if n > 0 {
        lemma_restored_is_put(w, root, s, (n - 1) as nat);
        let u = s[n - 1];
        let o = object_of(u);
        assert(objects_of(s)[n - 1] == o);
        assert(placed(u, o.path, JsonV::Obj(o.props)));
        reveal(restore_step);
    }
}

/// An object that is kept untyped is the object that it was.
pub proof fn lemma_kept_object(o: ObjV)
    requires
        is_own(o),
        plain_path(o.path),
        reads_as(json_compact(JsonV::Obj(o.props)), JsonV::Obj(o.props)),
    ensures
        object_of(untyped_of(o)) == o,
        placed(untyped_of(o), o.path, JsonV::Obj(o.props)),
{
    lemma_untyped_placed(o);
}

} // verus!
