//! What the reader finds in a document, and what the writer puts back.

use vstd::prelude::*;

use crate::error::ErrorV;
use crate::json::{given_back, json_compact, json_parse, Entries, JsonV};
use crate::math::{is_finite, num_eq, Bits, Sem};
use crate::model::{DistNetworkV, UntypedObjectV};
use crate::order::{get_from, get_of, put_from, put_of};
use crate::ravens::bases::bases_of;
use crate::ravens::doc::{collect_of, pointer_of, str_at, walk_entries, walk_items, walk_of, ObjV};
use crate::ravens::emit::{pointer_json, settled, stable, WriterV};
use crate::ravens::read::{
    kept_n, kept_warnings, mapped_of, preserve_of, ravens_value, run_of, unclaimed,
};
use crate::ravens::state::{untyped_of, StateV};
use crate::ravens::write::{
    document_of, fresh_writer, insert_in, path_keys_n, path_keys_of, ravens_document, restore_step,
    restored, typed_of, untyped_prop,
};
use crate::text::{
    find_from, has_prefix, join_n, join_of, lemma_split_append, lemma_split_none, split_of,
    str_less,
};

verus! {

// ---- pointers --------------------------------------------------------------

proof fn lemma_find_later(s: Seq<char>, p: Seq<char>, i: int, k: int)
    requires
        0 <= i <= k,
        p.len() > 0,
        k + p.len() <= s.len(),
        forall|j: int| i <= j < k ==> s[j] != p[0],
        s.subrange(k, k + p.len()) == p,
    ensures
        find_from(s, p, i) == Some(k),
    decreases k - i,
{
    if i < k {
        assert(s.subrange(i, i + p.len())[0] == s[i]);
        lemma_find_later(s, p, i + 1, k);
    }
}

/// A pointer reads back: it points at the class and the name that it was
/// written for. The class has no colon in it; the name may hold anything.
pub proof fn lemma_pointer_reads_back(class: Seq<char>, name: Seq<char>)
    requires
        forall|i: int| 0 <= i < class.len() ==> #[trigger] class[i] != ':',
    ensures
        pointer_json(class, name) matches JsonV::Str(text) && pointer_of(text) == Some(
            (class, name),
        ),
{
    let p = "::'"@;
    let q = "'"@;
    reveal_strlit("::'");
    reveal_strlit("'");
    let text = class + p + name + q;
    let k = class.len() as int;
    assert(text.subrange(k, k + 3) =~= p);
    assert forall|j: int| 0 <= j < k implies text[j] != p[0] by {
        assert(text[j] == class[j]);
    }
    lemma_find_later(text, p, 0, k);
    reveal(pointer_of);
    let end = text.len() - 1;
    assert(text[end] == q[0]);
    assert(text.subrange(0, k) =~= class);
    assert(text.subrange(k + 3, end) =~= name);
}

// ---- fixed points ----------------------------------------------------------

/// A value at which a cycle rests.
pub open spec fn rests(cycle: spec_fn(Bits) -> Bits, y: Bits) -> bool {
    num_eq(cycle(y), y) || !is_finite(cycle(y))
}

/// The value after `n` turns of a cycle.
pub open spec fn turned(cycle: spec_fn(Bits) -> Bits, y: Bits, n: nat) -> Bits
    decreases n,
{
    if n == 0 {
        y
    } else {
        turned(cycle, cycle(y), (n - 1) as nat)
    }
}

proof fn lemma_settled_rests(cycle: spec_fn(Bits) -> Bits, y: Bits, n: nat, k: nat)
    requires
        k <= n,
        rests(cycle, turned(cycle, y, k)),
    ensures
        rests(cycle, settled(cycle, y, n)),
    decreases k,
{
    if n > 0 && !rests(cycle, y) {
        lemma_settled_rests(cycle, cycle(y), (n - 1) as nat, (k - 1) as nat);
    }
}

/// A scaled value is at rest: where reading and writing a value comes to rest
/// within four turns, the value that is written is one that a further turn does
/// not change.
pub proof fn lemma_stable_rests(cycle: spec_fn(Bits) -> Bits, y: Bits, k: nat)
    requires
        k <= 4,
        rests(cycle, turned(cycle, y, k)),
    ensures
        rests(cycle, stable(cycle, y)),
{
    lemma_settled_rests(cycle, y, 4, k);
}

/// A value at rest is written as it is.
pub proof fn lemma_stable_is_idempotent(cycle: spec_fn(Bits) -> Bits, y: Bits)
    requires
        rests(cycle, y),
    ensures
        stable(cycle, y) == y,
{
}

// ---- paths -----------------------------------------------------------------

/// A key that a path can name: it holds something, and no slash.
pub open spec fn plain_key(key: Seq<char>) -> bool {
    key.len() > 0 && forall|i: int| 0 <= i < key.len() ==> #[trigger] key[i] != '/'
}

pub open spec fn plain_path(path: Seq<Seq<char>>) -> bool {
    forall|i: int| 0 <= i < path.len() ==> plain_key(#[trigger] path[i])
}

proof fn lemma_join_splits(path: Seq<Seq<char>>, n: nat)
    requires
        plain_path(path),
        1 <= n <= path.len(),
    ensures
        split_of(join_n(path, "/"@, n), '/') == path.take(n as int),
    decreases n,
{
    reveal_strlit("/");
    assert("/"@ =~= seq!['/']);
    if n == 1 {
        assert(plain_key(path[0]));
        lemma_split_none(path[0], '/', 0, 0);
        assert(path[0].subrange(0, path[0].len() as int) =~= path[0]);
        assert(path.take(1) =~= seq![path[0]]);
    } else {
        lemma_join_splits(path, (n - 1) as nat);
        assert(plain_key(path[n - 1]));
        lemma_split_append(join_n(path, "/"@, (n - 1) as nat), '/', path[n - 1], 0, 0);
        assert(path.take(n as int) =~= path.take(n - 1).push(path[n - 1]));
    }
}

proof fn lemma_plain_keys(parts: Seq<Seq<char>>, n: nat)
    requires
        plain_path(parts),
        n <= parts.len(),
    ensures
        path_keys_n(parts, n) == parts.take(n as int),
    decreases n,
{
    if n == 0 {
        assert(parts.take(0) =~= seq![]);
    } else {
        lemma_plain_keys(parts, (n - 1) as nat);
        assert(plain_key(parts[n - 1]));
        assert(parts.take(n as int) =~= parts.take(n - 1).push(parts[n - 1]));
    }
}

/// A path reads back from its text.
pub proof fn lemma_path_reads_back(path: Seq<Seq<char>>)
    requires
        plain_path(path),
    ensures
        path_keys_of(join_of(path, "/"@)) == path,
{
    if path.len() == 0 {
        let none = Seq::<char>::empty();
        assert(join_of(path, "/"@) == none);
        lemma_split_none(none, '/', 0, 0);
        assert(none.subrange(0, 0) =~= none);
        reveal_with_fuel(path_keys_n, 2);
        assert(path_keys_of(none) =~= path);
    } else {
        lemma_join_splits(path, path.len());
        assert(path.take(path.len() as int) =~= path);
        lemma_plain_keys(path, path.len());
    }
}

// ---- places in a document --------------------------------------------------

/// What stands under a name at the end of a path, from its `i`-th key on.
pub open spec fn found_at(
    m: Entries,
    path: Seq<Seq<char>>,
    i: nat,
    name: Seq<char>,
) -> Option<JsonV>
    decreases path.len() - i,
{
    if i >= path.len() {
        get_of(m, name)
    } else {
        match get_of(m, path[i as int]) {
            Some(JsonV::Obj(sub)) => found_at(sub, path, i + 1, name),
            _ => None,
        }
    }
}

/// Neither of two places lies within the other.
pub open spec fn apart(
    path: Seq<Seq<char>>,
    name: Seq<char>,
    other: Seq<Seq<char>>,
    named: Seq<char>,
    i: nat,
) -> bool
    decreases path.len() - i,
{
    if i >= path.len() && i >= other.len() {
        name != named
    } else if i >= path.len() {
        name != other[i as int]
    } else if i >= other.len() {
        path[i as int] != named
    } else {
        path[i as int] != other[i as int] || apart(path, name, other, named, i + 1)
    }
}

proof fn lemma_put_anywhere_from(m: Entries, k: Seq<char>, v: JsonV, q: Seq<char>, i: int)
    requires
        0 <= i <= m.len(),
        forall|j: int| 0 <= j < i ==> (#[trigger] m[j]).0 != k,
    ensures
        get_from(put_from(m, k, v, i), k, 0) == Some(v),
        q != k ==> get_from(put_from(m, k, v, i), q, 0) == get_from(m, q, 0),
    decreases m.len() - i,
{
    let o = put_from(m, k, v, i);
    if i >= m.len() {
        assert(o == m.push((k, v)));
        lemma_first(o, k, v, i, 0);
        if q != k {
            lemma_agree(m, o, q, i, 0, 0);
        }
    } else if m[i].0 == k {
        assert(o == m.update(i, (k, v)));
        lemma_first(o, k, v, i, 0);
        if q != k {
            lemma_agree(m, o, q, i, 1, 0);
        }
    } else if str_less(k, m[i].0) {
        assert(o == m.insert(i, (k, v)));
        lemma_first(o, k, v, i, 0);
        if q != k {
            lemma_agree(m, o, q, i, 0, 0);
        }
    } else {
        lemma_put_anywhere_from(m, k, v, q, i + 1);
    }
}

/// A key first occurs at `at`.
proof fn lemma_first(o: Entries, k: Seq<char>, v: JsonV, at: int, i: int)
    requires
        0 <= i <= at < o.len(),
        o[at] == (k, v),
        forall|j: int| 0 <= j < at ==> (#[trigger] o[j]).0 != k,
    ensures
        get_from(o, k, i) == Some(v),
    decreases at - i,
{
    if i < at {
        assert(o[i].0 != k);
        lemma_first(o, k, v, at, i + 1);
    }
}

/// Entries that agree but for one of another key, in place of `gone` of them.
proof fn lemma_agree(m: Entries, o: Entries, q: Seq<char>, at: int, gone: int, i: int)
    requires
        gone == 0 || gone == 1,
        0 <= i <= at,
        at + gone <= m.len(),
        o.len() == m.len() + 1 - gone,
        forall|j: int| 0 <= j < at ==> o[j] == m[j],
        o[at].0 != q,
        gone == 1 ==> m[at].0 != q,
        forall|j: int| at + gone <= j < m.len() ==> o[j + 1 - gone] == #[trigger] m[j],
    ensures
        get_from(o, q, i) == get_from(m, q, i),
    decreases at - i,
{
    if i < at {
        assert(o[i] == m[i]);
        if m[i].0 != q {
            lemma_agree(m, o, q, at, gone, i + 1);
        }
    } else {
        assert(get_from(o, q, at) == get_from(o, q, at + 1));
        if gone == 1 {
            assert(get_from(m, q, at) == get_from(m, q, at + 1));
        }
        lemma_shifted(m, o, q, at + gone, 1 - gone);
    }
}

proof fn lemma_shifted(m: Entries, o: Entries, q: Seq<char>, i: int, by: int)
    requires
        0 <= i <= m.len(),
        0 <= by,
        o.len() == m.len() + by,
        forall|j: int| i <= j < m.len() ==> o[j + by] == #[trigger] m[j],
    ensures
        get_from(o, q, i + by) == get_from(m, q, i),
    decreases m.len() - i,
{
    if i < m.len() {
        assert(o[i + by] == m[i]);
        if m[i].0 != q {
            lemma_shifted(m, o, q, i + 1, by);
        }
    }
}

/// Whatever the entries, a key reads back what was put under it, and every other
/// key what it read before.
pub proof fn lemma_put_anywhere(m: Entries, k: Seq<char>, v: JsonV, q: Seq<char>)
    ensures
        get_of(put_of(m, k, v), k) == Some(v),
        q != k ==> get_of(put_of(m, k, v), q) == get_of(m, q),
{
    reveal(get_of);
    reveal(put_of);
    lemma_put_anywhere_from(m, k, v, q, 0);
}

proof fn lemma_nothing_found(path: Seq<Seq<char>>, i: nat, name: Seq<char>)
    ensures
        found_at(Entries::empty(), path, i, name) is None,
{
    reveal(get_of);
}

/// What is inserted stands in its place.
pub proof fn lemma_inserted_is_found(
    m: Entries,
    path: Seq<Seq<char>>,
    i: nat,
    name: Seq<char>,
    value: JsonV,
)
    ensures
        insert_in(m, path, i, name, value) matches Ok(o) ==> found_at(o, path, i, name) == Some(
            value,
        ),
    decreases path.len() - i,
{
    if i >= path.len() {
        lemma_put_anywhere(m, name, value, name);
    } else {
        let below = match get_of(m, path[i as int]) {
            None => Entries::empty(),
            Some(JsonV::Obj(sub)) => sub,
            Some(_) => Entries::empty(),
        };
        lemma_inserted_is_found(below, path, i + 1, name, value);
        if let Ok(s) = insert_in(below, path, i + 1, name, value) {
            lemma_put_anywhere(m, path[i as int], JsonV::Obj(s), path[i as int]);
        }
    }
}

/// What is inserted changes nothing in any other place.
pub proof fn lemma_inserted_elsewhere(
    m: Entries,
    path: Seq<Seq<char>>,
    i: nat,
    name: Seq<char>,
    value: JsonV,
    other: Seq<Seq<char>>,
    named: Seq<char>,
)
    requires
        apart(path, name, other, named, i),
    ensures
        insert_in(m, path, i, name, value) matches Ok(o) ==> found_at(o, other, i, named)
            == found_at(m, other, i, named),
    decreases path.len() - i,
{
    if i >= path.len() {
        let q = if i >= other.len() {
            named
        } else {
            other[i as int]
        };
        lemma_put_anywhere(m, name, value, q);
    } else {
        let k = path[i as int];
        let below = match get_of(m, k) {
            None => Entries::empty(),
            Some(JsonV::Obj(sub)) => sub,
            Some(_) => Entries::empty(),
        };
        let q = if i >= other.len() {
            named
        } else {
            other[i as int]
        };
        if let Ok(s) = insert_in(below, path, i + 1, name, value) {
            lemma_put_anywhere(m, k, JsonV::Obj(s), q);
            if i < other.len() && q == k {
                lemma_inserted_elsewhere(below, path, i + 1, name, value, other, named);
                lemma_nothing_found(other, i + 1, named);
            }
        }
    }
}

// ---- untyped objects -------------------------------------------------------

/// How a report on an untyped object begins.
pub open spec fn untyped_head(u: UntypedObjectV) -> Seq<char> {
    "untyped "@ + u.class + " "@ + u.name + ": "@
}

/// The loss of an untyped object is reported.
pub open spec fn reported(warnings: Seq<Seq<char>>, u: UntypedObjectV) -> bool {
    exists|i: int| 0 <= i < warnings.len() && has_prefix(#[trigger] warnings[i], untyped_head(u))
}

/// An untyped object that has a place to go back to and a text that reads as a
/// value.
pub open spec fn placed(u: UntypedObjectV, path: Seq<Seq<char>>, value: JsonV) -> bool {
    let p = untyped_prop(u.props, "ravens_path"@, 0);
    let raw = untyped_prop(u.props, "ravens_json"@, 0);
    &&& p is Some
    &&& raw is Some
    &&& path_keys_of(p->0) == path
    &&& json_parse(raw->0) == Ok::<JsonV, Seq<char>>(value)
}

/// The path an untyped object goes back to, where it has one.
pub open spec fn path_of(u: UntypedObjectV) -> Seq<Seq<char>> {
    match untyped_prop(u.props, "ravens_path"@, 0) {
        Some(p) => path_keys_of(p),
        None => Seq::empty(),
    }
}

/// Either in its place or reported.
pub open spec fn accounted(
    w: WriterV,
    root: Entries,
    u: UntypedObjectV,
    path: Seq<Seq<char>>,
    value: JsonV,
) -> bool {
    reported(w.warnings, u) || found_at(root, path, 0, u.name) == Some(value)
}

proof fn lemma_reported(w: WriterV, u: UntypedObjectV, why: Seq<char>)
    ensures
        reported(w.warn("untyped "@ + u.class + " "@ + u.name + ": "@ + why).warnings, u),
        reported(
            w.warn("untyped "@ + u.class + " "@ + u.name + (": "@ + why)).warnings,
            u,
        ),
{
    let head = untyped_head(u);
    let t = "untyped "@ + u.class + " "@ + u.name + ": "@ + why;
    let t2 = "untyped "@ + u.class + " "@ + u.name + (": "@ + why);
    assert(t =~= t2);
    reveal(WriterV::warn);
    let after = w.warn(t).warnings;
    assert(after[after.len() - 1] == t);
    assert(t.subrange(0, head.len() as int) =~= head);
}

proof fn lemma_still_reported(w: WriterV, s: Seq<char>, u: UntypedObjectV)
    requires
        reported(w.warnings, u),
    ensures
        reported(w.warn(s).warnings, u),
{
    reveal(WriterV::warn);
    let i = choose|i: int|
        0 <= i < w.warnings.len() && has_prefix(#[trigger] w.warnings[i], untyped_head(u));
    assert(w.warn(s).warnings[i] == w.warnings[i]);
}

proof fn lemma_step_accounts(
    w: WriterV,
    root: Entries,
    u: UntypedObjectV,
    path: Seq<Seq<char>>,
    value: JsonV,
)
    requires
        placed(u, path, value),
    ensures
        ({
            let after = restore_step(w, root, u);
            accounted(after.0, after.1, u, path, value)
        }),
{
    reveal(restore_step);
    lemma_inserted_is_found(root, path, 0, u.name, value);
    if let Err(why) = insert_in(root, path, 0, u.name, value) {
        let head = "untyped "@ + u.class + " "@ + u.name;
        lemma_reported(w, u, why + "; dropped"@);
        assert(head + ": "@ + why + "; dropped"@ =~= head + ": "@ + (why + "; dropped"@));
    }
}

proof fn lemma_step_keeps(
    w: WriterV,
    root: Entries,
    u: UntypedObjectV,
    v: UntypedObjectV,
    path: Seq<Seq<char>>,
    value: JsonV,
)
    requires
        accounted(w, root, u, path, value),
        apart(path_of(v), v.name, path, u.name, 0),
    ensures
        ({
            let after = restore_step(w, root, v);
            accounted(after.0, after.1, u, path, value)
        }),
{
    reveal(restore_step);
    let after = restore_step(w, root, v);
    if reported(w.warnings, u) {
        let p = untyped_prop(v.props, "ravens_path"@, 0);
        let raw = untyped_prop(v.props, "ravens_json"@, 0);
        let head = "untyped "@ + v.class + " "@ + v.name;
        if p is Some && raw is Some {
            match json_parse(raw->0) {
                Err(_) => {
                    lemma_still_reported(
                        w,
                        head + ": preserved JSON no longer parses; dropped"@,
                        u,
                    );
                },
                Ok(x) => {
                    if let Err(why) = insert_in(root, path_keys_of(p->0), 0, v.name, x) {
                        lemma_still_reported(w, head + ": "@ + why + "; dropped"@, u);
                    }
                },
            }
        } else {
            lemma_still_reported(w, head + ": no MG-RAVENS representation; dropped"@, u);
        }
    } else {
        let p = untyped_prop(v.props, "ravens_path"@, 0);
        let raw = untyped_prop(v.props, "ravens_json"@, 0);
        if p is Some && raw is Some {
            if let Ok(x) = json_parse(raw->0) {
                lemma_inserted_elsewhere(
                    root,
                    path_keys_of(p->0),
                    0,
                    v.name,
                    x,
                    path,
                    u.name,
                );
            }
        }
    }
}

/// Untyped objects go back: of those a network keeps, each that has a place and
/// a text that reads stands in its place in the document once all are restored,
/// or its loss is reported. No two of them may lie within one another.
pub proof fn lemma_untyped_go_back(
    w: WriterV,
    root: Entries,
    s: Seq<UntypedObjectV>,
    n: nat,
    k: int,
    path: Seq<Seq<char>>,
    value: JsonV,
)
    requires
        0 <= k < n <= s.len(),
        placed(s[k], path, value),
        forall|j: int|
            k < j < s.len() ==> apart(path_of(#[trigger] s[j]), s[j].name, path, s[k].name, 0),
    ensures
        ({
            let after = restored(w, root, s, n);
            accounted(after.0, after.1, s[k], path, value)
        }),
    decreases n,
{
    let before = restored(w, root, s, (n - 1) as nat);
    if k == n - 1 {
        lemma_step_accounts(before.0, before.1, s[k], path, value);
    } else {
        lemma_untyped_go_back(w, root, s, (n - 1) as nat, k, path, value);
        lemma_step_keeps(before.0, before.1, s[k], s[n - 1], path, value);
    }
}

proof fn lemma_kept_grows(doc: Seq<ObjV>, st: StateV, n: nat, i: int) -> (k: int)
    requires
        0 <= i < n <= doc.len(),
        unclaimed(doc[i]),
    ensures
        0 <= k < kept_n(doc, st, n).0.net.untyped.len(),
        kept_n(doc, st, n).0.net.untyped[k] == untyped_of(doc[i]),
    decreases n,
{
    reveal(StateV::push_untyped);
    if i == n - 1 {
        kept_n(doc, st, (n - 1) as nat).0.net.untyped.len() as int
    } else {
        lemma_kept_grows(doc, st, (n - 1) as nat, i)
    }
}

/// Reporting what is kept changes nothing.
pub proof fn lemma_kept_warned(st: StateV, counts: Seq<(Seq<char>, usize)>, n: nat)
    ensures
        kept_warnings(st, counts, n).net.untyped == st.net.untyped,
        kept_warnings(st, counts, n).net.linecodes == st.net.linecodes,
    decreases n,
{
    reveal(StateV::warn);
    if n > 0 {
        lemma_kept_warned(st, counts, (n - 1) as nat);
    }
}

/// Nothing is passed over: an object of a document that stands on its own, and
/// whose kind no typed mapping reads, is kept by the network with its path and
/// its text.
pub proof fn lemma_unclaimed_is_kept(m: Sem, root: Entries, i: int) -> (k: int)
    requires
        ravens_value(m, JsonV::Obj(root)) is Ok,
        0 <= i < collect_of(root).len(),
        unclaimed(collect_of(root)[i]),
    ensures
        ravens_value(m, JsonV::Obj(root)) matches Ok(net) && 0 <= k < net.untyped.len()
            && net.untyped[k] == untyped_of(collect_of(root)[i]),
{
    reveal(run_of);
    reveal(preserve_of);
    let doc = collect_of(root);
    let st = mapped_of(m, doc);
    let k = lemma_kept_grows(doc, st, doc.len(), i);
    let (kept, counts) = kept_n(doc, st, doc.len());
    lemma_kept_warned(kept, counts, counts.len());
    k
}

/// What is found in a value that is given back is given back.
pub open spec fn all_given_back(doc: Seq<ObjV>) -> bool {
    forall|i: int| 0 <= i < doc.len() ==> given_back(JsonV::Obj((#[trigger] doc[i]).props))
}

proof fn lemma_walk_given_back(
    name: Option<Seq<char>>,
    value: JsonV,
    path: Seq<Seq<char>>,
    nested: bool,
    out: Seq<ObjV>,
)
    requires
        given_back(value),
        all_given_back(out),
    ensures
        all_given_back(walk_of(name, value, path, nested, out)),
    decreases value, 0nat,
{
    let below = match name {
        Some(n) => path.push(n),
        None => path,
    };
    match value {
        JsonV::Obj(map) => {
            match str_at(map, "Ravens.cimObjectType"@) {
                Some(kind) => {
                    let own = ObjV {
                        kind,
                        name: match name {
                            Some(n) => n,
                            None => match str_at(map, "IdentifiedObject.name"@) {
                                Some(n) => n,
                                None => seq![],
                            },
                        },
                        path,
                        nested,
                        props: map,
                    };
                    lemma_entries_given_back(map, map.len(), below, true, out.push(own));
                },
                None => {
                    lemma_entries_given_back(map, map.len(), below, nested, out);
                },
            }
        },
        JsonV::Arr(items) => {
            lemma_items_given_back(items, items.len(), below, nested, out);
        },
        _ => {},
    }
}

proof fn lemma_entries_given_back(
    map: Entries,
    n: nat,
    path: Seq<Seq<char>>,
    nested: bool,
    out: Seq<ObjV>,
)
    requires
        forall|i: int| 0 <= i < map.len() ==> given_back((#[trigger] map[i]).1),
        all_given_back(out),
    ensures
        all_given_back(walk_entries(map, n, path, nested, out)),
    decreases map, n,
{
    if 0 < n <= map.len() {
        lemma_entries_given_back(map, (n - 1) as nat, path, nested, out);
        let before = walk_entries(map, (n - 1) as nat, path, nested, out);
        lemma_walk_given_back(Some(map[n - 1].0), map[n - 1].1, path, nested, before);
    }
}

proof fn lemma_items_given_back(
    items: Seq<JsonV>,
    n: nat,
    path: Seq<Seq<char>>,
    nested: bool,
    out: Seq<ObjV>,
)
    requires
        forall|i: int| 0 <= i < items.len() ==> given_back(#[trigger] items[i]),
        all_given_back(out),
    ensures
        all_given_back(walk_items(items, n, path, nested, out)),
    decreases items, n,
{
    if 0 < n <= items.len() {
        lemma_items_given_back(items, (n - 1) as nat, path, nested, out);
        let before = walk_items(items, (n - 1) as nat, path, nested, out);
        lemma_walk_given_back(None, items[n - 1], path, nested, before);
    }
}

proof fn lemma_collected_given_back(root: Entries)
    requires
        given_back(JsonV::Obj(root)),
    ensures
        all_given_back(collect_of(root)),
{
    let v = JsonV::Obj(root);
    assert forall|i: int| 0 <= i < root.len() implies given_back((#[trigger] root[i]).1) by {
        assert(v->Obj_0[i] == root[i]);
    }
    lemma_entries_given_back(root, root.len(), Seq::empty(), false, Seq::empty());
}

/// An unclaimed object survives a reading and a writing: the document that is
/// written of the network it was read into holds it in the place it had, or its
/// loss is reported. Its place must be one that a path can name, and no untyped
/// object may lie within it or it within another.
pub proof fn lemma_unclaimed_survives(m: Sem, root: Entries, i: int, net: DistNetworkV)
    requires
        ravens_value(m, JsonV::Obj(root)) == Ok::<DistNetworkV, ErrorV>(net),
        given_back(JsonV::Obj(root)),
        0 <= i < collect_of(root).len(),
        ({
            let o = collect_of(root)[i];
            &&& unclaimed(o)
            &&& plain_path(o.path)
        }),
        forall|j: int, k: int|
            0 <= k < j < net.untyped.len() ==> #[trigger] apart(
                path_of(net.untyped[j]),
                net.untyped[j].name,
                path_of(net.untyped[k]),
                net.untyped[k].name,
                0,
            ),
    ensures
        ({
            let o = collect_of(root)[i];
            let (w, out) = ravens_document(m, net);
            accounted(w, out, untyped_of(o), o.path, JsonV::Obj(o.props))
        }),
{
    let o = collect_of(root)[i];
    let u = untyped_of(o);
    lemma_collected_given_back(root);
    assert(given_back(JsonV::Obj(o.props)));
    let k = lemma_unclaimed_is_kept(m, root, i);
    assert(net.untyped[k] == u);
    lemma_path_reads_back(o.path);
    lemma_untyped_placed(o);
    let before = typed_of(fresh_writer(bases_of(m, net)), m, net);
    assert forall|j: int| k < j < net.untyped.len() implies apart(
        path_of(#[trigger] net.untyped[j]),
        net.untyped[j].name,
        o.path,
        u.name,
        0,
    ) by {
        assert(apart(
            path_of(net.untyped[j]),
            net.untyped[j].name,
            path_of(net.untyped[k]),
            net.untyped[k].name,
            0,
        ));
    }
    lemma_untyped_go_back(
        before.0,
        before.1,
        net.untyped,
        net.untyped.len(),
        k,
        o.path,
        JsonV::Obj(o.props),
    );
    reveal(document_of);
}

pub proof fn lemma_untyped_placed(o: ObjV)
    requires
        plain_path(o.path),
        json_parse(json_compact(JsonV::Obj(o.props))) == Ok::<JsonV, Seq<char>>(
            JsonV::Obj(o.props),
        ),
    ensures
        placed(untyped_of(o), o.path, JsonV::Obj(o.props)),
        path_of(untyped_of(o)) == o.path,
{
    lemma_path_reads_back(o.path);
    let u = untyped_of(o);
    reveal_strlit("ravens_path");
    reveal_strlit("ravens_json");
    assert("ravens_path"@[7] == 'p' && "ravens_json"@[7] == 'j');
    reveal_with_fuel(untyped_prop, 3);
    assert(untyped_prop(u.props, "ravens_path"@, 0) == Some(join_of(o.path, "/"@)));
    assert(untyped_prop(u.props, "ravens_json"@, 0) == Some(json_compact(JsonV::Obj(o.props))));
}

// ---- places that stay ------------------------------------------------------

/// No untyped object goes to a place, or to one within it or around it.
pub open spec fn clear(s: Seq<UntypedObjectV>, path: Seq<Seq<char>>, name: Seq<char>) -> bool {
    forall|i: int|
        0 <= i < s.len() ==> apart(path_of(#[trigger] s[i]), s[i].name, path, name, 0)
}

/// What stands in a place that is clear of untyped objects stays there while
/// they are restored.
pub proof fn lemma_clear_place_stays(
    w: WriterV,
    root: Entries,
    s: Seq<UntypedObjectV>,
    n: nat,
    path: Seq<Seq<char>>,
    name: Seq<char>,
)
    requires
        n <= s.len(),
        clear(s, path, name),
    ensures
        found_at(restored(w, root, s, n).1, path, 0, name) == found_at(root, path, 0, name),
    decreases n,
{
    if n > 0 {
        lemma_clear_place_stays(w, root, s, (n - 1) as nat, path, name);
        let before = restored(w, root, s, (n - 1) as nat);
        let u = s[n - 1];
        reveal(restore_step);
        let p = untyped_prop(u.props, "ravens_path"@, 0);
        let raw = untyped_prop(u.props, "ravens_json"@, 0);
        if p is Some && raw is Some {
            if let Ok(x) = json_parse(raw->0) {
                lemma_inserted_elsewhere(
                    before.1,
                    path_keys_of(p->0),
                    0,
                    u.name,
                    x,
                    path,
                    name,
                );
            }
        }
    }
}

/// The typed part of the document of a network.
pub open spec fn typed_root(m: Sem, net: DistNetworkV) -> Entries {
    typed_of(fresh_writer(bases_of(m, net)), m, net).1
}

/// What stands in a clear place of the typed part stands in the document.
pub proof fn lemma_typed_place_stays(
    m: Sem,
    net: DistNetworkV,
    path: Seq<Seq<char>>,
    name: Seq<char>,
)
    requires
        clear(net.untyped, path, name),
    ensures
        found_at(ravens_document(m, net).1, path, 0, name) == found_at(
            typed_root(m, net),
            path,
            0,
            name,
        ),
{
    reveal(document_of);
    let w = fresh_writer(bases_of(m, net));
    let before = typed_of(w, m, net);
    lemma_clear_place_stays(
        before.0,
        before.1,
        net.untyped,
        net.untyped.len(),
        path,
        name,
    );
}

} // verus!
