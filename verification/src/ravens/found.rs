//! Which objects the reader finds in a document.

use vstd::prelude::*;

use crate::json::{Entries, JsonV};
use crate::order::{get_from, get_of};
use crate::ravens::doc::{
    collect_of, natural_slot, of_kind_n, str_at, walk_entries, walk_items, walk_of, ObjV,
};
use crate::ravens::laws::found_at;

verus! {

/// A list begins with another.
pub open spec fn extends(a: Seq<ObjV>, b: Seq<ObjV>) -> bool {
    &&& a.len() <= b.len()
    &&& forall|i: int| 0 <= i < a.len() ==> b[i] == #[trigger] a[i]
}

proof fn lemma_extends_through(a: Seq<ObjV>, b: Seq<ObjV>, c: Seq<ObjV>)
    requires
        extends(a, b),
        extends(b, c),
    ensures
        extends(a, c),
{
    assert forall|i: int| 0 <= i < a.len() implies c[i] == #[trigger] a[i] by {
        assert(b[i] == a[i]);
    }
}

proof fn lemma_walk_extends(
    name: Option<Seq<char>>,
    value: JsonV,
    path: Seq<Seq<char>>,
    nested: bool,
    out: Seq<ObjV>,
)
    ensures
        extends(out, walk_of(name, value, path, nested, out)),
    decreases value, 0nat,
{
    match value {
        JsonV::Obj(map) => {
            let below = match name {
                Some(n) => path.push(n),
                None => path,
            };
            match str_at(map, "Ravens.cimObjectType"@) {
                Some(kind) => {
                    let own = ObjV {
                        kind,
                        name: match name {
                            Some(n) => n,
                            None => match str_at(map, "IdentifiedObject.name"@) {
                                Some(n) => n,
                                None => seq![],
                            },
                        },
                        path,
                        nested,
                        props: map,
                    };
                    lemma_entries_extend(map, map.len(), below, true, out.push(own));
                    lemma_extends_through(
                        out,
                        out.push(own),
                        walk_entries(map, map.len(), below, true, out.push(own)),
                    );
                },
                None => {
                    lemma_entries_extend(map, map.len(), below, nested, out);
                },
            }
        },
        JsonV::Arr(items) => {
            let below = match name {
                Some(n) => path.push(n),
                None => path,
            };
            lemma_items_extend(items, items.len(), below, nested, out);
        },
        _ => {},
    }
}

proof fn lemma_entries_extend(
    map: Entries,
    n: nat,
    path: Seq<Seq<char>>,
    nested: bool,
    out: Seq<ObjV>,
)
    ensures
        extends(out, walk_entries(map, n, path, nested, out)),
    decreases map, n,
{
    if n > 0 && n <= map.len() {
        lemma_entries_extend(map, (n - 1) as nat, path, nested, out);
        let before = walk_entries(map, (n - 1) as nat, path, nested, out);
        lemma_walk_extends(Some(map[n - 1].0), map[n - 1].1, path, nested, before);
        lemma_extends_through(out, before, walk_entries(map, n, path, nested, out));
    }
}

proof fn lemma_items_extend(
    items: Seq<JsonV>,
    n: nat,
    path: Seq<Seq<char>>,
    nested: bool,
    out: Seq<ObjV>,
)
    ensures
        extends(out, walk_items(items, n, path, nested, out)),
    decreases items, n,
{
    if n > 0 && n <= items.len() {
        lemma_items_extend(items, (n - 1) as nat, path, nested, out);
        let before = walk_items(items, (n - 1) as nat, path, nested, out);
        lemma_walk_extends(None, items[n - 1], path, nested, before);
        lemma_extends_through(out, before, walk_items(items, n, path, nested, out));
    }
}

/// What is found below an entry is found below all of them.
proof fn lemma_entry_walked(
    map: Entries,
    n: nat,
    j: int,
    path: Seq<Seq<char>>,
    nested: bool,
    out: Seq<ObjV>,
)
    requires
        0 <= j < n <= map.len(),
    ensures
        extends(
            walk_of(
                Some(map[j].0),
                map[j].1,
                path,
                nested,
                walk_entries(map, j as nat, path, nested, out),
            ),
            walk_entries(map, n, path, nested, out),
        ),
    decreases n,
{
    let inner = walk_of(
        Some(map[j].0),
        map[j].1,
        path,
        nested,
        walk_entries(map, j as nat, path, nested, out),
    );
    let before = walk_entries(map, (n - 1) as nat, path, nested, out);
    if j < n - 1 {
        lemma_entry_walked(map, (n - 1) as nat, j, path, nested, out);
        lemma_walk_extends(Some(map[n - 1].0), map[n - 1].1, path, nested, before);
        lemma_extends_through(inner, before, walk_entries(map, n, path, nested, out));
    }
}

/// The entry of a key.
pub proof fn lemma_entry_of(m: Entries, k: Seq<char>, i: int) -> (j: int)
    requires
        0 <= i,
        get_from(m, k, i) is Some,
    ensures
        i <= j < m.len(),
        m[j].0 == k,
        get_from(m, k, i) == Some(m[j].1),
    decreases m.len() - i,
{
    if m[i].0 == k {
        i
    } else {
        lemma_entry_of(m, k, i + 1)
    }
}

/// An object as it is found.
pub open spec fn is_object(
    o: ObjV,
    kind: Seq<char>,
    name: Seq<char>,
    path: Seq<Seq<char>>,
    props: Entries,
) -> bool {
    &&& o.kind == kind
    &&& o.name == name
    &&& o.path == path
    &&& o.props == props
}

/// Where the walk comes to a value that stands under a path of keys: what was
/// found before it, and whether it stands within an object.
proof fn lemma_walk_arrives(
    map: Entries,
    path: Seq<Seq<char>>,
    i: nat,
    name: Seq<char>,
    v: JsonV,
    nested: bool,
    out: Seq<ObjV>,
) -> (r: (Seq<ObjV>, bool))
    requires
        i <= path.len(),
        found_at(map, path, i, name) == Some(v),
    ensures
        extends(
            walk_of(Some(name), v, path, r.1, r.0),
            walk_entries(map, map.len(), path.take(i as int), nested, out),
        ),
    decreases path.len() - i,
{
    reveal(get_of);
    let here = path.take(i as int);
    let all = walk_entries(map, map.len(), here, nested, out);
    if i == path.len() {
        assert(here =~= path);
        let j = lemma_entry_of(map, name, 0);
        lemma_entry_walked(map, map.len(), j, here, nested, out);
        (walk_entries(map, j as nat, here, nested, out), nested)
    } else {
        let key = path[i as int];
        let sub = get_of(map, key)->0->Obj_0;
        let j = lemma_entry_of(map, key, 0);
        let before = walk_entries(map, j as nat, here, nested, out);
        let inner = walk_of(Some(key), JsonV::Obj(sub), here, nested, before);
        assert(path.take(i as int + 1) =~= here.push(key));
        let r = match str_at(sub, "Ravens.cimObjectType"@) {
            Some(own_kind) => {
                let own = ObjV { kind: own_kind, name: key, path: here, nested, props: sub };
                lemma_walk_arrives(sub, path, i + 1, name, v, true, before.push(own))
            },
            None => lemma_walk_arrives(sub, path, i + 1, name, v, nested, before),
        };
        lemma_entry_walked(map, map.len(), j, here, nested, out);
        lemma_extends_through(walk_of(Some(name), v, path, r.1, r.0), inner, all);
        r
    }
}

/// Every typed object is found: one that stands in a document under any path of
/// keys is among the collected ones, with its kind, its name and that path,
/// whatever levels the path goes through.
pub proof fn lemma_typed_object_is_collected(
    root: Entries,
    path: Seq<Seq<char>>,
    name: Seq<char>,
    props: Entries,
    kind: Seq<char>,
) -> (k: int)
    requires
        found_at(root, path, 0, name) == Some(JsonV::Obj(props)),
        str_at(props, "Ravens.cimObjectType"@) == Some(kind),
    ensures
        0 <= k < collect_of(root).len(),
        is_object(collect_of(root)[k], kind, name, path, props),
{
    assert(path.take(0) =~= Seq::empty());
    let (before, nested) = lemma_walk_arrives(
        root,
        path,
        0,
        name,
        JsonV::Obj(props),
        false,
        Seq::empty(),
    );
    let own = ObjV { kind, name, path, nested, props };
    let inner = walk_of(Some(name), JsonV::Obj(props), path, nested, before);
    lemma_entries_extend(props, props.len(), path.push(name), true, before.push(own));
    let k = before.len() as int;
    assert(before.push(own)[k] == own);
    assert(inner[k] == own);
    assert(collect_of(root)[k] == inner[k]);
    k
}

/// What is found below an item is found below all of them.
proof fn lemma_item_walked(
    items: Seq<JsonV>,
    n: nat,
    j: int,
    path: Seq<Seq<char>>,
    nested: bool,
    out: Seq<ObjV>,
)
    requires
        0 <= j < n <= items.len(),
    ensures
        extends(
            walk_of(None, items[j], path, nested, walk_items(items, j as nat, path, nested, out)),
            walk_items(items, n, path, nested, out),
        ),
    decreases n,
{
    let inner = walk_of(
        None,
        items[j],
        path,
        nested,
        walk_items(items, j as nat, path, nested, out),
    );
    let before = walk_items(items, (n - 1) as nat, path, nested, out);
    if j < n - 1 {
        lemma_item_walked(items, (n - 1) as nat, j, path, nested, out);
        lemma_walk_extends(None, items[n - 1], path, nested, before);
        lemma_extends_through(inner, before, walk_items(items, n, path, nested, out));
    }
}

/// Typed objects are found in lists too: one that stands in a list of a typed
/// object is among the collected ones, with its kind and the name it gives
/// itself.
pub proof fn lemma_listed_object_is_collected(
    root: Entries,
    path: Seq<Seq<char>>,
    name: Seq<char>,
    props: Entries,
    key: Seq<char>,
    items: Seq<JsonV>,
    j: int,
    item: Entries,
) -> (k: int)
    requires
        found_at(root, path, 0, name) == Some(JsonV::Obj(props)),
        str_at(props, "Ravens.cimObjectType"@) is Some,
        get_of(props, key) == Some(JsonV::Arr(items)),
        0 <= j < items.len(),
        items[j] == JsonV::Obj(item),
        str_at(item, "Ravens.cimObjectType"@) is Some,
        str_at(item, "IdentifiedObject.name"@) is Some,
    ensures
        0 <= k < collect_of(root).len(),
        collect_of(root)[k].kind == str_at(item, "Ravens.cimObjectType"@)->0,
        collect_of(root)[k].name == str_at(item, "IdentifiedObject.name"@)->0,
        collect_of(root)[k].props == item,
{
    reveal(get_of);
    assert(path.take(0) =~= Seq::empty());
    let all = collect_of(root);
    let (before, nested) = lemma_walk_arrives(
        root,
        path,
        0,
        name,
        JsonV::Obj(props),
        false,
        Seq::empty(),
    );
    let kind = str_at(props, "Ravens.cimObjectType"@)->0;
    let out = before.push(ObjV { kind, name, path, nested, props });
    let outer = walk_of(Some(name), JsonV::Obj(props), path, nested, before);
    let below = path.push(name);
    let e = lemma_entry_of(props, key, 0);
    let start = walk_entries(props, e as nat, below, true, out);
    let list = walk_of(Some(key), JsonV::Arr(items), below, true, start);
    lemma_entry_walked(props, props.len(), e, below, true, out);
    assert(extends(list, outer));
    let deep = below.push(key);
    let at = walk_items(items, j as nat, deep, true, start);
    lemma_item_walked(items, items.len(), j, deep, true, start);
    let inner = walk_of(None, items[j], deep, true, at);
    lemma_extends_through(inner, list, outer);
    lemma_extends_through(inner, outer, all);
    let own = ObjV {
        kind: str_at(item, "Ravens.cimObjectType"@)->0,
        name: str_at(item, "IdentifiedObject.name"@)->0,
        path: deep,
        nested: true,
        props: item,
    };
    lemma_entries_extend(item, item.len(), deep, true, at.push(own));
    let k = at.len() as int;
    assert(at.push(own)[k] == own);
    assert(inner[k] == own);
    assert(all[k] == inner[k]);
    k
}

pub proof fn lemma_slot_inside(doc: Seq<ObjV>, s: Seq<usize>, name: Seq<char>, i: int)
    requires
        0 <= i <= s.len(),
    ensures
        i <= natural_slot(doc, s, name, i) <= s.len(),
    decreases s.len() - i,
{
    if i < s.len() {
        lemma_slot_inside(doc, s, name, i + 1);
    }
}

/// Every object of a kind is among those of the kind.
pub proof fn lemma_kind_holds(
    doc: Seq<ObjV>,
    s: Seq<usize>,
    kind: Seq<char>,
    n: nat,
    k: int,
) -> (j: int)
    requires
        n <= doc.len() <= usize::MAX,
        0 <= k < n,
        doc[k].kind == kind,
    ensures
        0 <= j < of_kind_n(doc, s, kind, n).len(),
        of_kind_n(doc, s, kind, n)[j] == k,
    decreases n,
{
    let before = of_kind_n(doc, s, kind, (n - 1) as nat);
    let after = of_kind_n(doc, s, kind, n);
    if k == n - 1 {
        let j = natural_slot(doc, before, doc[k].name, 0);
        lemma_slot_inside(doc, before, doc[k].name, 0);
        assert(after[j] == k as usize);
        j
    } else {
        let j = lemma_kind_holds(doc, s, kind, (n - 1) as nat, k);
        if doc[n - 1].kind == kind {
            let at = natural_slot(doc, before, doc[n - 1].name, 0);
            lemma_slot_inside(doc, before, doc[n - 1].name, 0);
            if j < at {
                assert(after[j] == before[j]);
                j
            } else {
                assert(after[j + 1] == before[j]);
                j + 1
            }
        } else {
            j
        }
    }
}

} // verus!
