//! A document's objects, walked out of the class hierarchy they are nested in.

use vstd::prelude::*;

use crate::json::{
    bool_of, get_of, lemma_json_view, num_of, str_of, uint_of, Entries, Json, JsonMap, JsonV,
};
use crate::math::{le, num_le, Bits, Calc, Sem, BILLION};
use crate::order::copy_list;
use crate::ravens::name::{
    comes_before, expand_phase_code, letters_of, natural_key, natural_less, natural_of,
};
use crate::text::{
    after_last, after_last_of, find, find_of, from_chars, group_views, opt_view, same, to_chars,
    views,
};

verus! {

/// An object: its concrete class, the key it is filed under, the keys on the
/// way to it, whether it sits inside another object, and its properties.
pub struct Obj {
    pub kind: String,
    pub name: String,
    /// The keys from the root down to the object, its own left out. What lies
    /// in a list has no key.
    pub path: Vec<String>,
    /// An object inside another one rides with it.
    pub nested: bool,
    pub props: JsonMap,
}

pub struct ObjV {
    pub kind: Seq<char>,
    pub name: Seq<char>,
    pub path: Seq<Seq<char>>,
    pub nested: bool,
    pub props: Entries,
}

impl View for Obj {
    type V = ObjV;

    open spec fn view(&self) -> ObjV {
        ObjV {
            kind: self.kind@,
            name: self.name@,
            path: views(self.path@),
            nested: self.nested,
            props: self.props@,
        }
    }
}

// ---- access ----------------------------------------------------------------

/// The number under a key.
#[verifier::opaque]
pub open spec fn num_at(m: Sem, o: Entries, key: Seq<char>) -> Option<Bits> {
    match get_of(o, key) {
        Some(v) => num_of(m, v),
        None => None,
    }
}

pub open spec fn num_or(m: Sem, o: Entries, key: Seq<char>, d: Bits) -> Bits {
    match num_at(m, o, key) {
        Some(x) => x,
        None => d,
    }
}

#[verifier::opaque]
pub open spec fn uint_at(o: Entries, key: Seq<char>) -> Option<u64> {
    match get_of(o, key) {
        Some(v) => uint_of(v),
        None => None,
    }
}

#[verifier::opaque]
pub open spec fn bool_at(o: Entries, key: Seq<char>) -> Option<bool> {
    match get_of(o, key) {
        Some(v) => bool_of(v),
        None => None,
    }
}

#[verifier::opaque]
pub open spec fn str_at(o: Entries, key: Seq<char>) -> Option<Seq<char>> {
    match get_of(o, key) {
        Some(v) => str_of(v),
        None => None,
    }
}

/// The list under a key; empty where there is none.
#[verifier::opaque]
pub open spec fn list_at(o: Entries, key: Seq<char>) -> Seq<JsonV> {
    match get_of(o, key) {
        Some(JsonV::Arr(a)) => a,
        _ => seq![],
    }
}

/// The object under a key.
#[verifier::opaque]
pub open spec fn obj_at(o: Entries, key: Seq<char>) -> Option<Entries> {
    match get_of(o, key) {
        Some(JsonV::Obj(m)) => Some(m),
        _ => None,
    }
}

/// The text under a key, after its last point.
#[verifier::opaque]
pub open spec fn suffix_at(o: Entries, key: Seq<char>) -> Option<Seq<char>> {
    match str_at(o, key) {
        Some(s) => Some(after_last_of(s, '.')),
        None => None,
    }
}

pub fn get_num<C: Calc>(math: &C, o: &JsonMap, key: &str) -> (r: Option<Bits>)
    ensures
        r == num_at(math.sem(), o@, key@),
{
    reveal(num_at);
    match o.get(key) {
        Some(v) => v.as_num(math),
        None => None,
    }
}

pub fn get_num_or<C: Calc>(math: &C, o: &JsonMap, key: &str, d: Bits) -> (r: Bits)
    ensures
        r == num_or(math.sem(), o@, key@, d),
{
    match get_num(math, o, key) {
        Some(x) => x,
        None => d,
    }
}

pub fn get_uint(o: &JsonMap, key: &str) -> (r: Option<u64>)
    ensures
        r == uint_at(o@, key@),
{
    reveal(uint_at);
    match o.get(key) {
        Some(v) => v.as_uint(),
        None => None,
    }
}

pub fn get_bool(o: &JsonMap, key: &str) -> (r: Option<bool>)
    ensures
        r == bool_at(o@, key@),
{
    reveal(bool_at);
    match o.get(key) {
        Some(v) => v.as_bool(),
        None => None,
    }
}

pub fn get_str<'a>(o: &'a JsonMap, key: &str) -> (r: Option<&'a String>)
    ensures
        match r {
            Some(s) => str_at(o@, key@) == Some(s@),
            None => str_at(o@, key@) is None,
        },
{
    reveal(str_at);
    match o.get(key) {
        Some(v) => v.as_str(),
        None => None,
    }
}

/// The list under a key; where there is none, `None` stands for an empty one.
pub fn get_list<'a>(o: &'a JsonMap, key: &str) -> (r: Option<&'a Vec<Json>>)
    ensures
        match r {
            Some(a) => list_at(o@, key@) == views(a@),
            None => list_at(o@, key@) == Seq::<JsonV>::empty(),
        },
{
    reveal(list_at);
    match o.get(key) {
        Some(v) => v.as_arr(),
        None => None,
    }
}

pub fn get_obj<'a>(o: &'a JsonMap, key: &str) -> (r: Option<&'a JsonMap>)
    ensures
        match r {
            Some(x) => obj_at(o@, key@) == Some(x@),
            None => obj_at(o@, key@) is None,
        },
{
    reveal(obj_at);
    match o.get(key) {
        Some(v) => v.as_obj(),
        None => None,
    }
}

pub fn get_suffix(o: &JsonMap, key: &str) -> (r: Option<String>)
    ensures
        opt_view(r) == suffix_at(o@, key@),
{
    reveal(suffix_at);
    match get_str(o, key) {
        Some(s) => Some(after_last(s.as_str(), '.')),
        None => None,
    }
}

// ---- pointers --------------------------------------------------------------

/// The class and the name of a pointer `Class::'name'`.
#[verifier::opaque]
pub open spec fn pointer_of(text: Seq<char>) -> Option<(Seq<char>, Seq<char>)> {
    match find_of(text, "::'"@) {
        Some(i) => {
            let end = text.len() - 1;
            if i + 3 <= end && text[end] == '\'' {
                Some((text.subrange(0, i), text.subrange(i + 3, end)))
            } else {
                None
            }
        },
        None => None,
    }
}

pub fn pointer_parts(text: &str) -> (r: Option<(String, String)>)
    ensures
        match r {
            Some((c, n)) => pointer_of(text@) == Some((c@, n@)),
            None => pointer_of(text@) is None,
        },
{
    reveal(pointer_of);
    proof {
        reveal_strlit("::'");
    }
    let v = to_chars(text);
    let p = to_chars("::'");
    match find(&v, &p) {
        Some(i) => {
            let end = v.len() - 1;
            if i + 3 <= end && v[end] == '\'' {
                Some((from_chars(&v, 0, i), from_chars(&v, i + 3, end)))
            } else {
                None
            }
        },
        None => None,
    }
}

/// The name that the pointer under a key points at.
#[verifier::opaque]
pub open spec fn target_at(o: Entries, key: Seq<char>) -> Option<Seq<char>> {
    match str_at(o, key) {
        Some(s) => match pointer_of(s) {
            Some((_, name)) => Some(name),
            None => None,
        },
        None => None,
    }
}

pub fn get_target(o: &JsonMap, key: &str) -> (r: Option<String>)
    ensures
        opt_view(r) == target_at(o@, key@),
{
    reveal(target_at);
    match get_str(o, key) {
        Some(s) => match pointer_parts(s.as_str()) {
            Some((_, name)) => Some(name),
            None => None,
        },
        None => None,
    }
}

// ---- the walk --------------------------------------------------------------

/// The objects at and below a value, after those in `out`, in document order.
pub open spec fn walk_of(
    name: Option<Seq<char>>,
    value: JsonV,
    path: Seq<Seq<char>>,
    nested: bool,
    out: Seq<ObjV>,
) -> Seq<ObjV>
    decreases value, 0nat,
{
    match value {
        JsonV::Obj(map) => {
            let below = match name {
                Some(n) => path.push(n),
                None => path,
            };
            match str_at(map, "Ravens.cimObjectType"@) {
                Some(kind) => {
                    let own = ObjV {
                        kind,
                        name: match name {
                            Some(n) => n,
                            None => match str_at(map, "IdentifiedObject.name"@) {
                                Some(n) => n,
                                None => seq![],
                            },
                        },
                        path,
                        nested,
                        props: map,
                    };
                    walk_entries(map, map.len(), below, true, out.push(own))
                },
                None => walk_entries(map, map.len(), below, nested, out),
            }
        },
        JsonV::Arr(items) => {
            let below = match name {
                Some(n) => path.push(n),
                None => path,
            };
            walk_items(items, items.len(), below, nested, out)
        },
        _ => out,
    }
}

/// The same below the first `n` entries of an object.
pub open spec fn walk_entries(
    map: Entries,
    n: nat,
    path: Seq<Seq<char>>,
    nested: bool,
    out: Seq<ObjV>,
) -> Seq<ObjV>
    decreases map, n,
{
    if n == 0 || n > map.len() {
        out
    } else {
        walk_of(
            Some(map[n - 1].0),
            map[n - 1].1,
            path,
            nested,
            walk_entries(map, (n - 1) as nat, path, nested, out),
        )
    }
}

/// The same below the first `n` entries of a list.
pub open spec fn walk_items(
    items: Seq<JsonV>,
    n: nat,
    path: Seq<Seq<char>>,
    nested: bool,
    out: Seq<ObjV>,
) -> Seq<ObjV>
    decreases items, n,
{
    if n == 0 || n > items.len() {
        out
    } else {
        walk_of(
            None,
            items[n - 1],
            path,
            nested,
            walk_items(items, (n - 1) as nat, path, nested, out),
        )
    }
}

/// Every object of a document.
pub open spec fn collect_of(root: Entries) -> Seq<ObjV> {
    walk_entries(root, root.len(), Seq::empty(), false, Seq::empty())
}

fn walk(
    name: Option<&String>,
    value: &Json,
    path: &mut Vec<String>,
    nested: bool,
    out: &mut Vec<Obj>,
)
    ensures
        views(final(path)@) == views(old(path)@),
        views(final(out)@) == walk_of(
            name_view(name),
            value@,
            views(old(path)@),
            nested,
            views(old(out)@),
        ),
    decreases value,
{
    broadcast use group_views, lemma_json_view;

    let ghost before = views(path@);
    match value {
        Json::Obj(map) => {
            let mut inside = nested;
            let kind = get_str(map, "Ravens.cimObjectType");
            if let Some(kind) = kind {
                let own = match name {
                    Some(n) => n.clone(),
                    None => match get_str(map, "IdentifiedObject.name") {
                        Some(n) => n.clone(),
                        None => String::new(),
                    },
                };
                assert(name is None && str_at(map@, "IdentifiedObject.name"@) is None ==> own@
                    =~= Seq::<char>::empty());
                out.push(
                    Obj {
                        kind: kind.clone(),
                        name: own,
                        path: copy_list(path),
                        nested,
                        props: map.copy(),
                    },
                );
                inside = true;
            }
            if let Some(n) = name {
                path.push(n.clone());
            }
            walk_map(map, path, inside, out);
            if name.is_some() {
                path.pop();
                assert(views(path@) =~= before.push(name->0@).drop_last());
                assert(views(path@) =~= before);
            }
        },
        Json::Arr(items) => {
            if let Some(n) = name {
                path.push(n.clone());
            }
            walk_list(items, path, nested, out);
            if name.is_some() {
                path.pop();
                assert(views(path@) =~= before.push(name->0@).drop_last());
                assert(views(path@) =~= before);
            }
        },
        _ => {},
    }
}

fn walk_map(map: &JsonMap, path: &mut Vec<String>, nested: bool, out: &mut Vec<Obj>)
    ensures
        views(final(path)@) == views(old(path)@),
        views(final(out)@) == walk_entries(
            map@,
            map@.len(),
            views(old(path)@),
            nested,
            views(old(out)@),
        ),
    decreases map,
{
    let mut i: usize = 0;
    while i < map.items.len()
        invariant
            i <= map.items.len(),
            views(path@) == views(old(path)@),
            views(out@) == walk_entries(
                map@,
                i as nat,
                views(old(path)@),
                nested,
                views(old(out)@),
            ),
        decreases map.items.len() - i,
    {
        assert(map@[i as int] == (map.items@[i as int].0@, map.items@[i as int].1@));
        walk(Some(&map.items[i].0), &map.items[i].1, path, nested, out);
        i = i + 1;
    }
    assert(map@.len() == map.items.len());
}

fn walk_list(items: &Vec<Json>, path: &mut Vec<String>, nested: bool, out: &mut Vec<Obj>)
    ensures
        views(final(path)@) == views(old(path)@),
        views(final(out)@) == walk_items(
            views(items@),
            items@.len(),
            views(old(path)@),
            nested,
            views(old(out)@),
        ),
    decreases items,
{
    let mut i: usize = 0;
    while i < items.len()
        invariant
            i <= items.len(),
            views(path@) == views(old(path)@),
            views(out@) == walk_items(
                views(items@),
                i as nat,
                views(old(path)@),
                nested,
                views(old(out)@),
            ),
        decreases items.len() - i,
    {
        assert(views(items@)[i as int] == items@[i as int]@);
        walk(None, &items[i], path, nested, out);
        i = i + 1;
    }
}

/// The text of an optional name.
pub open spec fn name_view(name: Option<&String>) -> Option<Seq<char>> {
    match name {
        Some(n) => Some(n@),
        None => None,
    }
}

pub fn collect(root: &JsonMap) -> (r: Vec<Obj>)
    ensures
        views(r@) == collect_of(root@),
{
    broadcast use group_views;

    let mut out: Vec<Obj> = Vec::new();
    let mut path: Vec<String> = Vec::new();
    assert(views(path@) =~= Seq::empty());
    assert(views(out@) =~= Seq::empty());
    walk_map(root, &mut path, false, &mut out);
    out
}

// ---- lookup ----------------------------------------------------------------

/// The first object at or after `i` of a kind and name.
pub open spec fn named_from(doc: Seq<ObjV>, kind: Seq<char>, name: Seq<char>, i: int) -> Option<int>
    decreases doc.len() - i,
{
    if i < 0 || i >= doc.len() {
        None
    } else if doc[i].name == name && doc[i].kind == kind {
        Some(i)
    } else {
        named_from(doc, kind, name, i + 1)
    }
}

/// The first object at or after `i` of a name.
pub open spec fn any_named_from(doc: Seq<ObjV>, name: Seq<char>, i: int) -> Option<int>
    decreases doc.len() - i,
{
    if i < 0 || i >= doc.len() {
        None
    } else if doc[i].name == name {
        Some(i)
    } else {
        any_named_from(doc, name, i + 1)
    }
}

/// The properties of the first object of a kind and name.
#[verifier::opaque]
pub open spec fn named_of(doc: Seq<ObjV>, kind: Seq<char>, name: Seq<char>) -> Option<Entries> {
    match named_from(doc, kind, name, 0) {
        Some(i) => Some(doc[i].props),
        None => None,
    }
}

/// The properties of the object that the pointer under a key points at: the
/// class may be an ancestor of the object's own, so the name decides and the
/// class breaks ties.
#[verifier::opaque]
pub open spec fn resolve_at(doc: Seq<ObjV>, o: Entries, key: Seq<char>) -> Option<Entries> {
    match str_at(o, key) {
        Some(s) => match pointer_of(s) {
            Some((class, name)) => match named_from(doc, class, name, 0) {
                Some(i) => Some(doc[i].props),
                None => match any_named_from(doc, name, 0) {
                    Some(i) => Some(doc[i].props),
                    None => None,
                },
            },
            None => None,
        },
        None => None,
    }
}

fn index_named(doc: &Vec<Obj>, kind: &str, name: &str) -> (r: Option<usize>)
    ensures
        match r {
            Some(i) => i < doc.len() && named_from(views(doc@), kind@, name@, 0) == Some(i as int),
            None => named_from(views(doc@), kind@, name@, 0) is None,
        },
{
    let mut i: usize = 0;
    while i < doc.len()
        invariant
            i <= doc.len(),
            named_from(views(doc@), kind@, name@, 0) == named_from(
                views(doc@),
                kind@,
                name@,
                i as int,
            ),
        decreases doc.len() - i,
    {
        assert(views(doc@)[i as int] == doc@[i as int]@);
        if same(doc[i].name.as_str(), name) && same(doc[i].kind.as_str(), kind) {
            return Some(i);
        }
        i = i + 1;
    }
    None
}

pub fn find_named<'a>(doc: &'a Vec<Obj>, kind: &str, name: &str) -> (r: Option<&'a JsonMap>)
    ensures
        match r {
            Some(o) => named_of(views(doc@), kind@, name@) == Some(o@),
            None => named_of(views(doc@), kind@, name@) is None,
        },
{
    reveal(named_of);
    match index_named(doc, kind, name) {
        Some(i) => {
            assert(views(doc@)[i as int] == doc@[i as int]@);
            Some(&doc[i].props)
        },
        None => None,
    }
}

pub fn resolve<'a>(doc: &'a Vec<Obj>, o: &JsonMap, key: &str) -> (r: Option<&'a JsonMap>)
    ensures
        match r {
            Some(x) => resolve_at(views(doc@), o@, key@) == Some(x@),
            None => resolve_at(views(doc@), o@, key@) is None,
        },
{
    reveal(resolve_at);
    let text = match get_str(o, key) {
        Some(s) => s,
        None => {
            return None;
        },
    };
    let (class, name) = match pointer_parts(text.as_str()) {
        Some(p) => p,
        None => {
            return None;
        },
    };
    if let Some(i) = index_named(doc, class.as_str(), name.as_str()) {
        assert(views(doc@)[i as int] == doc@[i as int]@);
        return Some(&doc[i].props);
    }
    let mut i: usize = 0;
    while i < doc.len()
        invariant
            i <= doc.len(),
            any_named_from(views(doc@), name@, 0) == any_named_from(views(doc@), name@, i as int),
            resolve_at(views(doc@), o@, key@) == match any_named_from(views(doc@), name@, 0) {
                Some(k) => Some(views(doc@)[k].props),
                None => None,
            },
        decreases doc.len() - i,
    {
        assert(views(doc@)[i as int] == doc@[i as int]@);
        if same(doc[i].name.as_str(), name.as_str()) {
            return Some(&doc[i].props);
        }
        i = i + 1;
    }
    None
}

// ---- natural order ---------------------------------------------------------

/// Where an object goes among those in natural name order, after every one of
/// its name.
pub open spec fn natural_slot(doc: Seq<ObjV>, s: Seq<usize>, name: Seq<char>, i: int) -> int
    decreases s.len() - i,
{
    if i < 0 || i >= s.len() || comes_before(name, doc[s[i] as int].name) {
        i
    } else {
        natural_slot(doc, s, name, i + 1)
    }
}

/// The indices in `s`, with those of a kind among the first `n` objects put in,
/// in natural name order.
pub open spec fn of_kind_n(doc: Seq<ObjV>, s: Seq<usize>, kind: Seq<char>, n: nat) -> Seq<usize>
    decreases n,
{
    if n == 0 {
        s
    } else {
        let before = of_kind_n(doc, s, kind, (n - 1) as nat);
        if doc[n - 1].kind == kind {
            before.insert(
                natural_slot(doc, before, doc[n - 1].name, 0),
                (n - 1) as usize,
            )
        } else {
            before
        }
    }
}

/// The objects of a kind, in natural name order.
pub open spec fn sorted_kind(doc: Seq<ObjV>, kind: Seq<char>) -> Seq<usize> {
    of_kind_n(doc, Seq::empty(), kind, doc.len())
}

pub fn add_kind(doc: &Vec<Obj>, s: &mut Vec<usize>, kind: &str)
    requires
        forall|k: int| 0 <= k < old(s)@.len() ==> (#[trigger] old(s)@[k]) < doc@.len(),
    ensures
        final(s)@ == of_kind_n(views(doc@), old(s)@, kind@, doc@.len()),
        forall|k: int| 0 <= k < final(s)@.len() ==> (#[trigger] final(s)@[k]) < doc@.len(),
{
    let mut n: usize = 0;
    while n < doc.len()
        invariant
            n <= doc.len(),
            s@ == of_kind_n(views(doc@), old(s)@, kind@, n as nat),
            forall|k: int| 0 <= k < s@.len() ==> (#[trigger] s@[k]) < doc@.len(),
        decreases doc.len() - n,
    {
        assert(views(doc@)[n as int] == doc@[n as int]@);
        if same(doc[n].kind.as_str(), kind) {
            let key = natural_key(doc[n].name.as_str());
            let mut i: usize = 0;
            while i < s.len() && !natural_less(&key, &natural_key(doc[s[i]].name.as_str()))
                invariant
                    i <= s.len(),
                    n < doc.len(),
                    key@ == natural_of(doc@[n as int].name@),
                    forall|k: int| 0 <= k < s@.len() ==> (#[trigger] s@[k]) < doc@.len(),
                    natural_slot(views(doc@), s@, doc@[n as int].name@, 0) == natural_slot(
                        views(doc@),
                        s@,
                        doc@[n as int].name@,
                        i as int,
                    ),
                decreases s.len() - i,
            {
                assert(views(doc@)[s@[i as int] as int] == doc@[s@[i as int] as int]@);
                i = i + 1;
            }
            if i < s.len() {
                assert(views(doc@)[s@[i as int] as int] == doc@[s@[i as int] as int]@);
            }
            s.insert(i, n);
        }
        n = n + 1;
    }
}

pub fn sorted_of_kind(doc: &Vec<Obj>, kind: &str) -> (r: Vec<usize>)
    ensures
        r@ == sorted_kind(views(doc@), kind@),
        forall|k: int| 0 <= k < r@.len() ==> (#[trigger] r@[k]) < doc@.len(),
{
    let mut r: Vec<usize> = Vec::new();
    add_kind(doc, &mut r, kind);
    assert(views(doc@).len() == doc.len());
    r
}

// ---- terminals -------------------------------------------------------------

/// A terminal of an equipment: its node, its phase letters, and the limit set
/// it points at.
pub struct Terminal {
    pub node: String,
    pub phases: Vec<String>,
    pub limit_set: Option<String>,
}

pub struct TerminalV {
    pub node: Seq<char>,
    pub phases: Seq<Seq<char>>,
    pub limit_set: Option<Seq<char>>,
}

impl View for Terminal {
    type V = TerminalV;

    open spec fn view(&self) -> TerminalV {
        TerminalV {
            node: self.node@,
            phases: views(self.phases@),
            limit_set: opt_view(self.limit_set),
        }
    }
}

/// An entry of a terminal list, with its sequence number; one that points at no
/// node is none.
#[verifier::opaque]
pub open spec fn terminal_of(entry: JsonV) -> Option<(u64, TerminalV)> {
    match entry {
        JsonV::Obj(t) => match target_at(t, "Terminal.ConnectivityNode"@) {
            Some(node) => Some(
                (
                    match uint_at(t, "ACDCTerminal.sequenceNumber"@) {
                        Some(n) => n,
                        None => 1,
                    },
                    TerminalV {
                        node,
                        phases: match str_at(t, "Terminal.phases"@) {
                            Some(code) => letters_of(code),
                            None => seq![],
                        },
                        limit_set: target_at(t, "ACDCTerminal.OperationalLimitSet"@),
                    },
                ),
            ),
            None => None,
        },
        _ => None,
    }
}

pub open spec fn terminal_slot(s: Seq<(u64, TerminalV)>, n: u64, i: int) -> int
    decreases s.len() - i,
{
    if i < 0 || i >= s.len() || n < s[i].0 {
        i
    } else {
        terminal_slot(s, n, i + 1)
    }
}

/// The terminals among the first `n` entries, by sequence number; those of one
/// number stay in list order.
pub open spec fn terminals_n(items: Seq<JsonV>, n: nat) -> Seq<(u64, TerminalV)>
    decreases n,
{
    if n == 0 {
        seq![]
    } else {
        let before = terminals_n(items, (n - 1) as nat);
        match terminal_of(items[n - 1]) {
            Some(t) => before.insert(terminal_slot(before, t.0, 0), t),
            None => before,
        }
    }
}

/// The terminals of an equipment.
#[verifier::opaque]
pub open spec fn terminals_of(props: Entries) -> Seq<(u64, TerminalV)> {
    let items = list_at(props, "ConductingEquipment.Terminals"@);
    terminals_n(items, items.len())
}

fn read_terminal(entry: &Json) -> (r: Option<(u64, Terminal)>)
    ensures
        opt_view(r) == terminal_of(entry@),
{
    broadcast use group_views;

    reveal(terminal_of);
    let t = match entry.as_obj() {
        Some(t) => t,
        None => {
            return None;
        },
    };
    let node = match get_target(t, "Terminal.ConnectivityNode") {
        Some(n) => n,
        None => {
            return None;
        },
    };
    let seq: u64 = match get_uint(t, "ACDCTerminal.sequenceNumber") {
        Some(n) => n,
        None => 1,
    };
    let phases = match get_str(t, "Terminal.phases") {
        Some(code) => expand_phase_code(code.as_str()),
        None => Vec::new(),
    };
    assert(str_at(t@, "Terminal.phases"@) is None ==> views(phases@) =~= seq![]);
    let limit_set = get_target(t, "ACDCTerminal.OperationalLimitSet");
    Some((seq, Terminal { node, phases, limit_set }))
}

pub fn terminal_entries(props: &JsonMap) -> (r: Vec<(u64, Terminal)>)
    ensures
        views(r@) == terminals_of(props@),
{
    broadcast use group_views;

    reveal(terminals_of);
    let mut r: Vec<(u64, Terminal)> = Vec::new();
    assert(views(r@) =~= seq![]);
    if let Some(items) = get_list(props, "ConductingEquipment.Terminals") {
        let mut n: usize = 0;
        while n < items.len()
            invariant
                n <= items.len(),
                views(r@) == terminals_n(views(items@), n as nat),
            decreases items.len() - n,
        {
            assert(views(items@)[n as int] == items@[n as int]@);
            if let Some((seq, t)) = read_terminal(&items[n]) {
                let ghost before = views(r@);
                let mut i: usize = 0;
                while i < r.len() && !(seq < r[i].0)
                    invariant
                        i <= r.len(),
                        views(r@) == before,
                        terminal_slot(before, seq, 0) == terminal_slot(before, seq, i as int),
                    decreases r.len() - i,
                {
                    assert(views(r@)[i as int] == (r@[i as int].0, r@[i as int].1@));
                    i = i + 1;
                }
                if i < r.len() {
                    assert(views(r@)[i as int] == (r@[i as int].0, r@[i as int].1@));
                }
                let ghost tv = t@;
                r.insert(i, (seq, t));
                assert(views(r@) =~= before.insert(i as int, (seq, tv)));
            }
            n = n + 1;
        }
        assert(views(items@).len() == items.len());
    }
    r
}

// ---- limits ----------------------------------------------------------------

/// The continuous and the emergency current limit, and the low and the high
/// voltage limit, of a limit set.
#[derive(Clone, Copy)]
pub struct Limits {
    pub norm_amps: Option<Bits>,
    pub emerg_amps: Option<Bits>,
    pub v_low: Option<Bits>,
    pub v_high: Option<Bits>,
}

pub open spec fn no_limits() -> Limits {
    Limits { norm_amps: None, emerg_amps: None, v_low: None, v_high: None }
}

/// The first of two that is there.
pub open spec fn first_of(a: Option<Bits>, b: Option<Bits>) -> Option<Bits> {
    match a {
        Some(x) => Some(x),
        None => b,
    }
}

/// Whether a limit holds without end: its type names no duration, or one of a
/// billion seconds or more.
pub open spec fn is_continuous(m: Sem, ty: Option<Entries>) -> bool {
    match ty {
        Some(t) => match num_at(m, t, "OperationalLimitType.acceptableDuration"@) {
            Some(d) => num_le(BILLION, d),
            None => true,
        },
        None => true,
    }
}

/// The limits with one value of the set in; of two values for one limit the
/// first stands.
pub open spec fn limit_step(m: Sem, doc: Seq<ObjV>, l: Limits, value: JsonV) -> Limits {
    match value {
        JsonV::Obj(v) => {
            let kind = str_at(v, "Ravens.cimObjectType"@);
            let ty = resolve_at(doc, v, "OperationalLimit.OperationalLimitType"@);
            let direction = match ty {
                Some(t) => suffix_at(t, "OperationalLimitType.direction"@),
                None => None,
            };
            if kind == Some("CurrentLimit"@) {
                let amps = num_at(m, v, "CurrentLimit.value"@);
                if is_continuous(m, ty) {
                    Limits { norm_amps: first_of(l.norm_amps, amps), ..l }
                } else {
                    Limits { emerg_amps: first_of(l.emerg_amps, amps), ..l }
                }
            } else if kind == Some("VoltageLimit"@) {
                let volts = num_at(m, v, "VoltageLimit.value"@);
                if direction == Some("low"@) {
                    Limits { v_low: first_of(l.v_low, volts), ..l }
                } else if direction == Some("high"@) {
                    Limits { v_high: first_of(l.v_high, volts), ..l }
                } else {
                    l
                }
            } else {
                l
            }
        },
        _ => l,
    }
}

pub open spec fn limits_n(m: Sem, doc: Seq<ObjV>, values: Seq<JsonV>, n: nat) -> Limits
    decreases n,
{
    if n == 0 {
        no_limits()
    } else {
        limit_step(m, doc, limits_n(m, doc, values, (n - 1) as nat), values[n - 1])
    }
}

/// The limits of the limit set of a name; none where there is no such set.
#[verifier::opaque]
pub open spec fn limits_of(m: Sem, doc: Seq<ObjV>, name: Seq<char>) -> Limits {
    match named_of(doc, "OperationalLimitSet"@, name) {
        Some(set) => {
            let values = list_at(set, "OperationalLimitSet.OperationalLimitValue"@);
            limits_n(m, doc, values, values.len())
        },
        None => no_limits(),
    }
}

fn or_else(a: Option<Bits>, b: Option<Bits>) -> (r: Option<Bits>)
    ensures
        r == first_of(a, b),
{
    match a {
        Some(x) => Some(x),
        None => b,
    }
}

fn add_limit<C: Calc>(math: &C, doc: &Vec<Obj>, l: Limits, value: &Json) -> (r: Limits)
    ensures
        r == limit_step(math.sem(), views(doc@), l, value@),
{
    let v = match value.as_obj() {
        Some(v) => v,
        None => {
            return l;
        },
    };
    let kind = match get_str(v, "Ravens.cimObjectType") {
        Some(k) => k.as_str(),
        None => {
            return l;
        },
    };
    let ty = resolve(doc, v, "OperationalLimit.OperationalLimitType");
    if same(kind, "CurrentLimit") {
        let continuous = match ty {
            Some(t) => match get_num(math, t, "OperationalLimitType.acceptableDuration") {
                Some(d) => le(BILLION, d),
                None => true,
            },
            None => true,
        };
        let amps = get_num(math, v, "CurrentLimit.value");
        if continuous {
            Limits { norm_amps: or_else(l.norm_amps, amps), ..l }
        } else {
            Limits { emerg_amps: or_else(l.emerg_amps, amps), ..l }
        }
    } else if same(kind, "VoltageLimit") {
        let direction = match ty {
            Some(t) => get_suffix(t, "OperationalLimitType.direction"),
            None => None,
        };
        let volts = get_num(math, v, "VoltageLimit.value");
        match direction {
            Some(d) => {
                if same(d.as_str(), "low") {
                    Limits { v_low: or_else(l.v_low, volts), ..l }
                } else if same(d.as_str(), "high") {
                    Limits { v_high: or_else(l.v_high, volts), ..l }
                } else {
                    l
                }
            },
            None => l,
        }
    } else {
        l
    }
}

pub fn limit_set<C: Calc>(math: &C, doc: &Vec<Obj>, name: &str) -> (r: Limits)
    ensures
        r == limits_of(math.sem(), views(doc@), name@),
{
    reveal(limits_of);
    let mut r = Limits { norm_amps: None, emerg_amps: None, v_low: None, v_high: None };
    if let Some(set) = find_named(doc, "OperationalLimitSet", name) {
        if let Some(values) = get_list(set, "OperationalLimitSet.OperationalLimitValue") {
            let mut n: usize = 0;
            while n < values.len()
                invariant
                    n <= values.len(),
                    r == limits_n(math.sem(), views(doc@), views(values@), n as nat),
                decreases values.len() - n,
            {
                assert(views(values@)[n as int] == values@[n as int]@);
                r = add_limit(math, doc, r, &values[n]);
                n = n + 1;
            }
            assert(views(values@).len() == values.len());
        }
    }
    r
}

} // verus!
