//! Phases and the terminals that carry them.

use vstd::prelude::*;

use crate::order::{ascending, contains};
use crate::text::{group_views, same, str_less, to_chars, views};

verus! {

/// The terminal of a single phase.
pub open spec fn phase_terminal_of(phase: Seq<char>) -> Option<Seq<char>> {
    if phase == "A"@ || phase == "s1"@ {
        Some("1"@)
    } else if phase == "B"@ || phase == "s2"@ {
        Some("2"@)
    } else if phase == "C"@ {
        Some("3"@)
    } else if phase == "N"@ {
        Some("4"@)
    } else {
        None
    }
}

pub fn phase_terminal(phase: &str) -> (r: Option<&'static str>)
    ensures
        match r {
            Some(t) => phase_terminal_of(phase@) == Some(t@),
            None => phase_terminal_of(phase@) is None,
        },
{
    if same(phase, "A") || same(phase, "s1") {
        Some("1")
    } else if same(phase, "B") || same(phase, "s2") {
        Some("2")
    } else if same(phase, "C") {
        Some("3")
    } else if same(phase, "N") {
        Some("4")
    } else {
        None
    }
}

/// A list with `x` at its end, unless it holds `x`.
pub open spec fn push_new_of(s: Seq<Seq<char>>, x: Seq<char>) -> Seq<Seq<char>> {
    if s.contains(x) {
        s
    } else {
        s.push(x)
    }
}

pub fn push_new(s: &mut Vec<String>, x: &str)
    ensures
        views(final(s)@) == push_new_of(views(old(s)@), x@),
{
    broadcast use group_views;

    if !contains(s, x) {
        s.push(x.to_owned());
    }
}

/// The terminals that a phase code names from its `i`-th character on, after
/// those in `out`.
pub open spec fn expand_from(code: Seq<char>, i: int, out: Seq<Seq<char>>) -> Seq<Seq<char>>
    decreases code.len() - i,
{
    if i < 0 || i >= code.len() {
        out
    } else if code[i] == 'A' {
        expand_from(code, i + 1, push_new_of(out, "1"@))
    } else if code[i] == 'B' {
        expand_from(code, i + 1, push_new_of(out, "2"@))
    } else if code[i] == 'C' {
        expand_from(code, i + 1, push_new_of(out, "3"@))
    } else if code[i] == 'N' {
        expand_from(code, i + 1, push_new_of(out, "4"@))
    } else if code[i] == 's' && i + 1 < code.len() && code[i + 1] == '1' {
        if i + 2 < code.len() && code[i + 2] == '2' {
            expand_from(code, i + 3, push_new_of(push_new_of(out, "1"@), "2"@))
        } else {
            expand_from(code, i + 2, push_new_of(out, "1"@))
        }
    } else if code[i] == 's' && i + 1 < code.len() && code[i + 1] == '2' {
        expand_from(code, i + 2, push_new_of(out, "2"@))
    } else {
        expand_from(code, i + 1, out)
    }
}

/// A name, where a list holds it.
pub open spec fn kept_name(s: Seq<Seq<char>>, x: Seq<char>) -> Seq<Seq<char>> {
    if s.contains(x) {
        seq![x]
    } else {
        seq![]
    }
}

/// The names of wires in a list, in canonical order.
pub open spec fn canonical(s: Seq<Seq<char>>) -> Seq<Seq<char>> {
    kept_name(s, "1"@) + kept_name(s, "2"@) + kept_name(s, "3"@) + kept_name(s, "4"@)
}

/// Names in canonical order ascend.
pub proof fn lemma_canonical_ascends(s: Seq<Seq<char>>)
    ensures
        ascending(canonical(s)),
{
    reveal_strlit("1");
    reveal_strlit("2");
    reveal_strlit("3");
    reveal_strlit("4");
    let r = canonical(s);
    assert forall|i: int, j: int| 0 <= i < j < r.len() implies str_less(
        #[trigger] r[i],
        #[trigger] r[j],
    ) by {
        assert(r[i].len() == 1 && r[j].len() == 1 && (r[i][0] as int) < (r[j][0] as int));
        reveal_with_fuel(str_less, 2);
    }
}

/// The terminals that a phase code names, in canonical order, whatever the order
/// of the letters.
#[verifier::opaque]
pub open spec fn expand_of(code: Seq<char>) -> Seq<Seq<char>> {
    canonical(expand_from(code, 0, Seq::empty()))
}

fn push_kept(named: &Vec<String>, x: &str, out: &mut Vec<String>)
    ensures
        views(final(out)@) == views(old(out)@) + kept_name(views(named@), x@),
{
    broadcast use group_views;

    if contains(named, x) {
        out.push(x.to_owned());
        assert(views(out@) =~= views(old(out)@) + seq![x@]);
    } else {
        assert(views(out@) =~= views(old(out)@) + Seq::<Seq<char>>::empty());
    }
}

pub fn expand_phase_code(code: &str) -> (r: Vec<String>)
    ensures
        views(r@) == expand_of(code@),
        ascending(views(r@)),
{
    broadcast use group_views;

    reveal(expand_of);
    let v = to_chars(code);
    let mut named: Vec<String> = Vec::new();
    let mut i: usize = 0;
    while i < v.len()
        invariant
            i <= v.len(),
            v@ == code@,
            expand_from(code@, 0, Seq::empty()) == expand_from(code@, i as int, views(named@)),
        decreases v.len() - i,
    {
        let c = v[i];
        if c == 'A' {
            push_new(&mut named, "1");
        } else if c == 'B' {
            push_new(&mut named, "2");
        } else if c == 'C' {
            push_new(&mut named, "3");
        } else if c == 'N' {
            push_new(&mut named, "4");
        } else if c == 's' && i + 1 < v.len() && v[i + 1] == '1' {
            push_new(&mut named, "1");
            i = i + 1;
            if i + 1 < v.len() && v[i + 1] == '2' {
                push_new(&mut named, "2");
                i = i + 1;
            }
        } else if c == 's' && i + 1 < v.len() && v[i + 1] == '2' {
            push_new(&mut named, "2");
            i = i + 1;
        }
        i = i + 1;
    }
    let mut out: Vec<String> = Vec::new();
    push_kept(&named, "1", &mut out);
    push_kept(&named, "2", &mut out);
    push_kept(&named, "3", &mut out);
    push_kept(&named, "4", &mut out);
    assert(views(out@) =~= canonical(views(named@)));
    proof {
        lemma_canonical_ascends(views(named@));
    }
    out
}

// ---- what a code names -----------------------------------------------------

/// A character at a place.
pub open spec fn has_at(code: Seq<char>, i: int, c: char) -> bool {
    0 <= i < code.len() && code[i] == c
}

/// A phase code names a wire at a place: by its letter, or by that of a split
/// phase, of which one code may name both.
pub open spec fn names_at(code: Seq<char>, i: int, wire: Seq<char>) -> bool {
    ||| wire == "1"@ && has_at(code, i, 'A')
    ||| wire == "2"@ && has_at(code, i, 'B')
    ||| wire == "3"@ && has_at(code, i, 'C')
    ||| wire == "4"@ && has_at(code, i, 'N')
    ||| wire == "1"@ && has_at(code, i, 's') && has_at(code, i + 1, '1')
    ||| wire == "2"@ && has_at(code, i, 's') && has_at(code, i + 1, '2')
    ||| wire == "2"@ && has_at(code, i, 's') && has_at(code, i + 1, '1') && has_at(code, i + 2, '2')
}

/// A phase code names a wire from a place on.
pub open spec fn names_from(code: Seq<char>, i: int, wire: Seq<char>) -> bool {
    exists|k: int| i <= k && #[trigger] names_at(code, k, wire)
}

proof fn lemma_push_new(s: Seq<Seq<char>>, x: Seq<char>, wire: Seq<char>)
    ensures
        push_new_of(s, x).contains(wire) == (s.contains(wire) || wire == x),
{
    let r = push_new_of(s, x);
    if !s.contains(x) {
        assert(r[s.len() as int] == x);
        if s.contains(wire) {
            let k = choose|k: int| 0 <= k < s.len() && s[k] == wire;
            assert(r[k] == wire);
        }
        if r.contains(wire) {
            let k = choose|k: int| 0 <= k < r.len() && r[k] == wire;
            if k < s.len() {
                assert(s[k] == wire);
            }
        }
    }
}

proof fn lemma_names_step(code: Seq<char>, i: int, j: int, wire: Seq<char>)
    requires
        i < j,
        forall|k: int| i < k < j ==> !#[trigger] names_at(code, k, wire),
    ensures
        names_from(code, i, wire) == (names_at(code, i, wire) || names_from(code, j, wire)),
{
    if names_from(code, i, wire) && !names_at(code, i, wire) {
        let k = choose|k: int| i <= k && #[trigger] names_at(code, k, wire);
        assert(j <= k);
    }
    if names_from(code, j, wire) {
        let k = choose|k: int| j <= k && #[trigger] names_at(code, k, wire);
        assert(i <= k);
    }
}

proof fn lemma_names_from(code: Seq<char>, i: int, out: Seq<Seq<char>>, wire: Seq<char>)
    requires
        0 <= i,
    ensures
        expand_from(code, i, out).contains(wire) == (out.contains(wire) || names_from(
            code,
            i,
            wire,
        )),
    decreases code.len() - i,
{
    reveal_strlit("1");
    reveal_strlit("2");
    reveal_strlit("3");
    reveal_strlit("4");
    assert("1"@[0] == '1' && "2"@[0] == '2' && "3"@[0] == '3' && "4"@[0] == '4');
    lemma_push_new(out, "1"@, wire);
    lemma_push_new(out, "2"@, wire);
    lemma_push_new(out, "3"@, wire);
    lemma_push_new(out, "4"@, wire);
    lemma_push_new(push_new_of(out, "1"@), "2"@, wire);
    if i < code.len() {
        let next = if code[i] == 's' && has_at(code, i + 1, '1') {
            if has_at(code, i + 2, '2') {
                i + 3
            } else {
                i + 2
            }
        } else if code[i] == 's' && has_at(code, i + 1, '2') {
            i + 2
        } else {
            i + 1
        };
        lemma_names_step(code, i, next, wire);
        let told = if code[i] == 'A' {
            push_new_of(out, "1"@)
        } else if code[i] == 'B' {
            push_new_of(out, "2"@)
        } else if code[i] == 'C' {
            push_new_of(out, "3"@)
        } else if code[i] == 'N' {
            push_new_of(out, "4"@)
        } else if code[i] == 's' && has_at(code, i + 1, '1') {
            if has_at(code, i + 2, '2') {
                push_new_of(push_new_of(out, "1"@), "2"@)
            } else {
                push_new_of(out, "1"@)
            }
        } else if code[i] == 's' && has_at(code, i + 1, '2') {
            push_new_of(out, "2"@)
        } else {
            out
        };
        lemma_names_from(code, next, told, wire);
    } else if names_from(code, i, wire) {
        let k = choose|k: int| i <= k && #[trigger] names_at(code, k, wire);
        assert(!names_at(code, k, wire));
    }
}

/// A phase code comes to exactly the wires that it names: `1` for an `A`, `2` for
/// a `B`, `3` for a `C`, `4` for an `N`, and the first two for the split phases.
pub proof fn lemma_code_names_its_wires(code: Seq<char>, wire: Seq<char>)
    ensures
        expand_of(code).contains(wire) == names_from(code, 0, wire),
{
    reveal(expand_of);
    reveal_strlit("1");
    reveal_strlit("2");
    reveal_strlit("3");
    reveal_strlit("4");
    let s = expand_from(code, 0, Seq::empty());
    lemma_names_from(code, 0, Seq::empty(), wire);
    let r = canonical(s);
    if r.contains(wire) {
        let k = choose|k: int| 0 <= k < r.len() && r[k] == wire;
        assert(s.contains(r[k]));
    }
    if names_from(code, 0, wire) {
        let k = choose|k: int| 0 <= k && #[trigger] names_at(code, k, wire);
        let one = kept_name(s, "1"@);
        let two = kept_name(s, "2"@);
        let three = kept_name(s, "3"@);
        let four = kept_name(s, "4"@);
        if wire == "1"@ {
            assert(r[0] == wire);
        } else if wire == "2"@ {
            assert(r[one.len() as int] == wire);
        } else if wire == "3"@ {
            assert(r[(one + two).len() as int] == wire);
        } else {
            assert(r[(one + two + three).len() as int] == wire);
        }
    }
}

} // verus!
