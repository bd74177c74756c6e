//! What is found below a value, whatever was found before.

use vstd::prelude::*;

use crate::json::{Entries, JsonV};
use crate::order::get_of;
use crate::ravens::accept::mild;
use crate::ravens::doc::{str_at, walk_entries, walk_items, walk_of, ObjV};
use crate::ravens::only::lemma_mild_walk;

verus! {

/// What is found at and below a value comes after what was found before.
pub proof fn lemma_walk_adds(
    name: Option<Seq<char>>,
    value: JsonV,
    path: Seq<Seq<char>>,
    nested: bool,
    out: Seq<ObjV>,
)
    ensures
        walk_of(name, value, path, nested, out) == out + walk_of(
            name,
            value,
            path,
            nested,
            Seq::empty(),
        ),
    decreases value, 0nat,
{
    let none = Seq::<ObjV>::empty();
    let below = match name {
        Some(n) => path.push(n),
        None => path,
    };
    match value {
        JsonV::Obj(map) => match str_at(map, "Ravens.cimObjectType"@) {
            Some(kind) => {
                let own = ObjV {
                    kind,
                    name: match name {
                        Some(n) => n,
                        None => match str_at(map, "IdentifiedObject.name"@) {
                            Some(n) => n,
                            None => seq![],
                        },
                    },
                    path,
                    nested,
                    props: map,
                };
                lemma_entries_add(map, map.len(), below, true, out.push(own));
                lemma_entries_add(map, map.len(), below, true, none.push(own));
                let rest = walk_entries(map, map.len(), below, true, none);
                assert(out.push(own) + rest =~= out + (none.push(own) + rest));
            },
            None => {
                lemma_entries_add(map, map.len(), below, nested, out);
                assert(out + walk_entries(map, map.len(), below, nested, none) =~= out
                    + walk_entries(map, map.len(), below, nested, none));
            },
        },
        JsonV::Arr(items) => {
            lemma_items_add(items, items.len(), below, nested, out);
        },
        _ => {
            assert(out + none =~= out);
        },
    }
}

pub proof fn lemma_entries_add(
    map: Entries,
    n: nat,
    path: Seq<Seq<char>>,
    nested: bool,
    out: Seq<ObjV>,
)
    ensures
        walk_entries(map, n, path, nested, out) == out + walk_entries(
            map,
            n,
            path,
            nested,
            Seq::empty(),
        ),
    decreases map, n,
{
    let none = Seq::<ObjV>::empty();
    if n == 0 || n > map.len() {
        assert(out + none =~= out);
    } else {
        let k = (n - 1) as nat;
        lemma_entries_add(map, k, path, nested, out);
        let before = walk_entries(map, k, path, nested, none);
        lemma_walk_adds(Some(map[n - 1].0), map[n - 1].1, path, nested, out + before);
        lemma_walk_adds(Some(map[n - 1].0), map[n - 1].1, path, nested, before);
        let last = walk_of(Some(map[n - 1].0), map[n - 1].1, path, nested, none);
        assert((out + before) + last =~= out + (before + last));
    }
}

proof fn lemma_items_add(
    items: Seq<JsonV>,
    n: nat,
    path: Seq<Seq<char>>,
    nested: bool,
    out: Seq<ObjV>,
)
    ensures
        walk_items(items, n, path, nested, out) == out + walk_items(
            items,
            n,
            path,
            nested,
            Seq::empty(),
        ),
    decreases items, n,
{
    let none = Seq::<ObjV>::empty();
    if n == 0 || n > items.len() {
        assert(out + none =~= out);
    } else {
        let k = (n - 1) as nat;
        lemma_items_add(items, k, path, nested, out);
        let before = walk_items(items, k, path, nested, none);
        lemma_walk_adds(None, items[n - 1], path, nested, out + before);
        lemma_walk_adds(None, items[n - 1], path, nested, before);
        let last = walk_of(None, items[n - 1], path, nested, none);
        assert((out + before) + last =~= out + (before + last));
    }
}

/// No object of a list is of a kind.
pub open spec fn none_of(x: Seq<char>, s: Seq<ObjV>) -> bool {
    forall|i: int| 0 <= i < s.len() ==> (#[trigger] s[i]).kind != x
}

/// Nothing at or below a mild value is of the kind.
pub proof fn lemma_mild_none(
    x: Seq<char>,
    name: Option<Seq<char>>,
    value: JsonV,
    path: Seq<Seq<char>>,
    nested: bool,
)
    requires
        mild(x, value),
    ensures
        none_of(x, walk_of(name, value, path, nested, Seq::empty())),
{
    let t = Entries::empty();
    let none = Seq::<ObjV>::empty();
    lemma_mild_walk(x, t, name, value, path, nested, none);
    let s = walk_of(name, value, path, nested, none);
    assert forall|i: int| 0 <= i < s.len() implies (#[trigger] s[i]).kind != x by {
        reveal(get_of);
        assert(get_of(t, s[i].name) is None);
    }
}

} // verus!
