//! Text as sequences of characters: the string operations the readers and
//! writers share, each with the result it gives.

use vstd::prelude::*;

verus! {

/// `String::push` appends one character at the end.
pub assume_specification[ String::push ](s: &mut String, c: char)
    ensures
        final(s)@ == old(s)@.push(c),
;

/// What `{:?}` prints of a string: the string in double quotes, its quotes,
/// backslashes and unprintable characters escaped.
pub uninterp spec fn debug_of(s: Seq<char>) -> Seq<char>;

/// `format!` with `{:?}` of a string. Which characters count as unprintable is
/// left unsaid: the result has a name, [`debug_of`], and depends on the string
/// alone.
#[verifier::external_body]
pub(crate) fn debug(s: &str) -> (r: String)
    ensures
        r@ == debug_of(s@),
{
    format!("{:?}", s)
}

// ---- views of vectors ------------------------------------------------------

/// The views of a sequence's elements, in order.
pub open spec fn views<T: View>(s: Seq<T>) -> Seq<T::V> {
    Seq::new(s.len(), |i: int| s[i]@)
}

/// The view inside an option.
pub open spec fn opt_view<T: View>(o: Option<T>) -> Option<T::V> {
    match o {
        Some(x) => Some(x@),
        None => None,
    }
}

pub broadcast proof fn lemma_views_push<T: View>(s: Seq<T>, x: T)
    ensures
        #[trigger] views(s.push(x)) == views(s).push(x@),
{
    assert(views(s.push(x)) =~= views(s).push(x@));
}

pub broadcast proof fn lemma_views_empty<T: View>()
    ensures
        #[trigger] views(Seq::<T>::empty()) == Seq::<T::V>::empty(),
{
    assert(views(Seq::<T>::empty()) =~= Seq::<T::V>::empty());
}

pub broadcast proof fn lemma_views_add<T: View>(s: Seq<T>, t: Seq<T>)
    ensures
        #[trigger] views(s + t) == views(s) + views(t),
{
    assert(views(s + t) =~= views(s) + views(t));
}

pub broadcast group group_views {
    lemma_views_push,
    lemma_views_empty,
    lemma_views_add,
}

// ---- comparison ------------------------------------------------------------

/// Whether two strings hold the same characters.
pub fn same(a: &str, b: &str) -> (r: bool)
    ensures
        r == (a@ == b@),
{
    let x = a.to_owned();
    let y = b.to_owned();
    x == y
}

/// Whether two lists hold the same strings in the same order.
pub fn same_list(a: &Vec<String>, b: &Vec<String>) -> (r: bool)
    ensures
        r == (views(a@) == views(b@)),
{
    if a.len() != b.len() {
        assert(views(a@).len() != views(b@).len());
        return false;
    }
    let mut i: usize = 0;
    while i < a.len()
        invariant
            i <= a.len(),
            a.len() == b.len(),
            forall|k: int| 0 <= k < i ==> (#[trigger] a@[k])@ == b@[k]@,
        decreases a.len() - i,
    {
        if !same(a[i].as_str(), b[i].as_str()) {
            assert(views(a@)[i as int] != views(b@)[i as int]);
            return false;
        }
        i = i + 1;
    }
    assert(views(a@) =~= views(b@));
    true
}

/// Lexicographic order of character sequences, by code point.
pub open spec fn str_less(a: Seq<char>, b: Seq<char>) -> bool
    decreases a.len(),
{
    if b.len() == 0 {
        false
    } else if a.len() == 0 {
        true
    } else if a[0] == b[0] {
        str_less(a.drop_first(), b.drop_first())
    } else {
        a[0] < b[0]
    }
}

/// The order is irreflexive and asymmetric, and two different strings are
/// always ordered one way or the other.
pub proof fn lemma_str_less_total(a: Seq<char>, b: Seq<char>)
    ensures
        !(str_less(a, b) && str_less(b, a)),
        a == b ==> !str_less(a, b),
        a != b ==> str_less(a, b) || str_less(b, a),
    decreases a.len(),
{
    if a.len() > 0 && b.len() > 0 && a[0] == b[0] {
        lemma_str_less_total(a.drop_first(), b.drop_first());
        assert(a =~= seq![a[0]] + a.drop_first());
        assert(b =~= seq![b[0]] + b.drop_first());
    } else if a.len() == 0 && b.len() == 0 {
        assert(a =~= b);
    }
}

/// The order is transitive.
pub proof fn lemma_str_less_transitive(a: Seq<char>, b: Seq<char>, c: Seq<char>)
    requires
        str_less(a, b),
        str_less(b, c),
    ensures
        str_less(a, c),
    decreases a.len(),
{
    if a.len() > 0 && a[0] == b[0] && b[0] == c[0] {
        lemma_str_less_transitive(a.drop_first(), b.drop_first(), c.drop_first());
    }
}

/// Whether `a` comes before `b`.
pub fn less(a: &str, b: &str) -> (r: bool)
    ensures
        r == str_less(a@, b@),
{
    let x = to_chars(a);
    let y = to_chars(b);
    let mut i: usize = 0;
    assert(x@.skip(0) =~= x@);
    assert(y@.skip(0) =~= y@);
    while i < x.len() && i < y.len() && x[i] == y[i]
        invariant
            i <= x.len(),
            i <= y.len(),
            x@ == a@,
            y@ == b@,
            str_less(a@, b@) == str_less(x@.skip(i as int), y@.skip(i as int)),
        decreases x.len() - i,
    {
        assert(x@.skip(i as int).drop_first() =~= x@.skip(i + 1));
        assert(y@.skip(i as int).drop_first() =~= y@.skip(i + 1));
        i = i + 1;
    }
    if i >= y.len() {
        false
    } else if i >= x.len() {
        true
    } else {
        x[i] < y[i]
    }
}

// ---- characters ------------------------------------------------------------

/// The characters of a string, in order.
pub fn to_chars(s: &str) -> (v: Vec<char>)
    ensures
        v@ == s@,
{
    let mut v: Vec<char> = Vec::new();
    for c in it: s.chars()
        invariant
            v@ == it.seq().take(it.index() as int),
            it.seq() == s@,
    {
        v.push(c);
    }
    assert(v@ =~= s@);
    v
}

/// The string of the characters from `i` up to `j`.
pub fn from_chars(v: &Vec<char>, i: usize, j: usize) -> (s: String)
    requires
        i <= j <= v.len(),
    ensures
        s@ == v@.subrange(i as int, j as int),
{
    let mut s = String::new();
    let mut k: usize = i;
    while k < j
        invariant
            i <= k <= j <= v.len(),
            s@ == v@.subrange(i as int, k as int),
        decreases j - k,
    {
        s.push(v[k]);
        k = k + 1;
        assert(v@.subrange(i as int, k as int) =~= v@.subrange(i as int, k - 1).push(v@[k - 1]));
    }
    s
}

/// White space as Unicode's `White_Space` property has it.
pub open spec fn is_space(c: char) -> bool {
    let u = c as u32;
    ||| 0x09 <= u <= 0x0d
    ||| u == 0x20
    ||| u == 0x85
    ||| u == 0xa0
    ||| u == 0x1680
    ||| 0x2000 <= u <= 0x200a
    ||| u == 0x2028
    ||| u == 0x2029
    ||| u == 0x202f
    ||| u == 0x205f
    ||| u == 0x3000
}

pub fn space(c: char) -> (r: bool)
    ensures
        r == is_space(c),
{
    let u: u32 = c as u32;
    (0x09 <= u && u <= 0x0d) || u == 0x20 || u == 0x85 || u == 0xa0 || u == 0x1680 || (0x2000 <= u && u
        <= 0x200a) || u == 0x2028 || u == 0x2029 || u == 0x202f || u == 0x205f || u == 0x3000
}

pub open spec fn is_digit(c: char) -> bool {
    '0' <= c && c <= '9'
}

pub fn digit(c: char) -> (r: bool)
    ensures
        r == is_digit(c),
{
    '0' <= c && c <= '9'
}

/// Whether a string holds nothing.
pub fn empty(s: &str) -> (r: bool)
    ensures
        r == (s@.len() == 0),
{
    to_chars(s).len() == 0
}

// ---- letter case -----------------------------------------------------------

/// A letter of the English alphabet in lower case; any other character as it
/// is.
pub open spec fn lower_char(c: char) -> char {
    if 'A' <= c && c <= 'Z' {
        (c as u8 + 32) as char
    } else {
        c
    }
}

pub open spec fn lower_of(s: Seq<char>) -> Seq<char> {
    Seq::new(s.len(), |i: int| lower_char(s[i]))
}

fn to_lower(c: char) -> (r: char)
    ensures
        r == lower_char(c),
{
    if 'A' <= c && c <= 'Z' {
        (c as u8 + 32) as char
    } else {
        c
    }
}

pub fn lower(s: &str) -> (r: String)
    ensures
        r@ == lower_of(s@),
{
    let v = to_chars(s);
    let mut r = String::new();
    let mut i: usize = 0;
    while i < v.len()
        invariant
            i <= v.len(),
            v@ == s@,
            r@ == lower_of(s@).take(i as int),
        decreases v.len() - i,
    {
        r.push(to_lower(v[i]));
        i = i + 1;
        assert(r@ =~= lower_of(s@).take(i as int));
    }
    assert(r@ =~= lower_of(s@));
    r
}

/// Whether two strings are equal once English letters are in lower case.
pub fn same_ignoring_case(a: &str, b: &str) -> (r: bool)
    ensures
        r == (lower_of(a@) == lower_of(b@)),
{
    let x = lower(a);
    let y = lower(b);
    same(x.as_str(), y.as_str())
}

// ---- trimming --------------------------------------------------------------

/// The first index at or after `i` that holds no white space.
pub open spec fn skip_spaces(s: Seq<char>, i: int) -> int
    decreases s.len() - i,
{
    if 0 <= i < s.len() && is_space(s[i]) {
        skip_spaces(s, i + 1)
    } else {
        i
    }
}

/// The end of `s[..j]` once trailing white space is left out, not below `lo`.
pub open spec fn back_spaces(s: Seq<char>, lo: int, j: int) -> int
    decreases j - lo,
{
    if lo < j <= s.len() && 0 <= lo && is_space(s[j - 1]) {
        back_spaces(s, lo, j - 1)
    } else {
        j
    }
}

pub open spec fn trim_start_of(s: Seq<char>) -> Seq<char> {
    s.subrange(skip_spaces(s, 0), s.len() as int)
}

/// `s` without leading and trailing white space.
pub open spec fn trim_of(s: Seq<char>) -> Seq<char> {
    let i = skip_spaces(s, 0);
    s.subrange(i, back_spaces(s, i, s.len() as int))
}

fn spaces_from(v: &Vec<char>) -> (i: usize)
    ensures
        i == skip_spaces(v@, 0),
        0 <= i <= v.len(),
{
    let mut i: usize = 0;
    while i < v.len() && space(v[i])
        invariant
            i <= v.len(),
            skip_spaces(v@, 0) == skip_spaces(v@, i as int),
        decreases v.len() - i,
    {
        i = i + 1;
    }
    i
}

pub fn trim_start(s: &str) -> (r: String)
    ensures
        r@ == trim_start_of(s@),
{
    let v = to_chars(s);
    let i = spaces_from(&v);
    from_chars(&v, i, v.len())
}

pub fn trim(s: &str) -> (r: String)
    ensures
        r@ == trim_of(s@),
{
    let v = to_chars(s);
    let i = spaces_from(&v);
    let mut j: usize = v.len();
    while i < j && space(v[j - 1])
        invariant
            i <= j <= v.len(),
            back_spaces(v@, i as int, v.len() as int) == back_spaces(v@, i as int, j as int),
        decreases j,
    {
        j = j - 1;
    }
    from_chars(&v, i, j)
}

// ---- prefixes, suffixes, search --------------------------------------------

pub open spec fn has_prefix(s: Seq<char>, p: Seq<char>) -> bool {
    p.len() <= s.len() && s.subrange(0, p.len() as int) == p
}

pub open spec fn has_suffix(s: Seq<char>, p: Seq<char>) -> bool {
    p.len() <= s.len() && s.subrange(s.len() - p.len(), s.len() as int) == p
}

fn matches_at(v: &Vec<char>, at: usize, p: &Vec<char>) -> (r: bool)
    requires
        at + p.len() <= v.len(),
    ensures
        r == (v@.subrange(at as int, at + p.len()) == p@),
{
    let mut i: usize = 0;
    while i < p.len()
        invariant
            i <= p.len(),
            at + p.len() <= v.len(),
            forall|k: int| 0 <= k < i ==> v@[at + k] == p@[k],
        decreases p.len() - i,
    {
        if v[at + i] != p[i] {
            assert(v@.subrange(at as int, at + p.len())[i as int] != p@[i as int]);
            return false;
        }
        i = i + 1;
    }
    assert(v@.subrange(at as int, at + p.len()) =~= p@);
    true
}

pub fn starts_with(s: &str, p: &str) -> (r: bool)
    ensures
        r == has_prefix(s@, p@),
{
    let v = to_chars(s);
    let q = to_chars(p);
    q.len() <= v.len() && matches_at(&v, 0, &q)
}

pub fn ends_with(s: &str, p: &str) -> (r: bool)
    ensures
        r == has_suffix(s@, p@),
{
    let v = to_chars(s);
    let q = to_chars(p);
    q.len() <= v.len() && matches_at(&v, v.len() - q.len(), &q)
}

/// What follows the prefix `p`, where `s` starts with it.
pub open spec fn strip_prefix_of(s: Seq<char>, p: Seq<char>) -> Option<Seq<char>> {
    if has_prefix(s, p) {
        Some(s.subrange(p.len() as int, s.len() as int))
    } else {
        None
    }
}

pub fn strip_prefix(s: &str, p: &str) -> (r: Option<String>)
    ensures
        opt_view(r) == strip_prefix_of(s@, p@),
{
    let v = to_chars(s);
    let q = to_chars(p);
    if q.len() <= v.len() && matches_at(&v, 0, &q) {
        Some(from_chars(&v, q.len(), v.len()))
    } else {
        None
    }
}

/// What precedes the suffix `p`, where `s` ends with it.
pub open spec fn strip_suffix_of(s: Seq<char>, p: Seq<char>) -> Option<Seq<char>> {
    if has_suffix(s, p) {
        Some(s.subrange(0, s.len() - p.len()))
    } else {
        None
    }
}

pub fn strip_suffix(s: &str, p: &str) -> (r: Option<String>)
    ensures
        opt_view(r) == strip_suffix_of(s@, p@),
{
    let v = to_chars(s);
    let q = to_chars(p);
    if q.len() <= v.len() && matches_at(&v, v.len() - q.len(), &q) {
        Some(from_chars(&v, 0, v.len() - q.len()))
    } else {
        None
    }
}

/// The first index at or after `i` where `p` occurs in `s`.
pub open spec fn find_from(s: Seq<char>, p: Seq<char>, i: int) -> Option<int>
    decreases s.len() + 1 - i,
{
    if i < 0 || i + p.len() > s.len() {
        None
    } else if s.subrange(i, i + p.len()) == p {
        Some(i)
    } else {
        find_from(s, p, i + 1)
    }
}

pub open spec fn find_of(s: Seq<char>, p: Seq<char>) -> Option<int> {
    find_from(s, p, 0)
}

pub fn find(s: &Vec<char>, p: &Vec<char>) -> (r: Option<usize>)
    ensures
        match r {
            Some(i) => find_of(s@, p@) == Some(i as int) && i + p.len() <= s.len(),
            None => find_of(s@, p@) is None,
        },
{
    let mut i: usize = 0;
    while p.len() <= s.len() && i <= s.len() - p.len()
        invariant
            i <= s.len() + 1,
            i + p.len() <= s.len() + 1 || i == 0,
            find_of(s@, p@) == find_from(s@, p@, i as int),
        decreases s.len() + 1 - i,
    {
        if matches_at(s, i, p) {
            return Some(i);
        }
        if p.len() == 0 {
            assert(s@.subrange(i as int, i as int) =~= p@);
        }
        i = i + 1;
    }
    None
}

/// The part of `s` after the last `sep`, or all of `s` without one.
pub open spec fn after_last_from(s: Seq<char>, sep: char, j: int) -> Seq<char>
    decreases j,
{
    if j <= 0 || j > s.len() || s[j - 1] == sep {
        s.subrange(if j < 0 { 0 } else { j }, s.len() as int)
    } else {
        after_last_from(s, sep, j - 1)
    }
}

pub open spec fn after_last_of(s: Seq<char>, sep: char) -> Seq<char> {
    after_last_from(s, sep, s.len() as int)
}

pub fn after_last(s: &str, sep: char) -> (r: String)
    ensures
        r@ == after_last_of(s@, sep),
{
    let v = to_chars(s);
    let mut j: usize = v.len();
    while j > 0 && v[j - 1] != sep
        invariant
            j <= v.len(),
            after_last_of(v@, sep) == after_last_from(v@, sep, j as int),
        decreases j,
    {
        j = j - 1;
    }
    from_chars(&v, j, v.len())
}

/// The index of the first `a` or `b` at or after `i`, else the end.
pub open spec fn index_of_either(s: Seq<char>, a: char, b: char, i: int) -> int
    decreases s.len() - i,
{
    if i < 0 || i >= s.len() || s[i] == a || s[i] == b {
        i
    } else {
        index_of_either(s, a, b, i + 1)
    }
}

/// The part of `s` before the first `a` or `b`, or all of `s` without one.
pub open spec fn before_either_of(s: Seq<char>, a: char, b: char) -> Seq<char> {
    s.subrange(0, index_of_either(s, a, b, 0))
}

pub fn before_either(s: &str, a: char, b: char) -> (r: String)
    ensures
        r@ == before_either_of(s@, a, b),
{
    let v = to_chars(s);
    let mut i: usize = 0;
    while i < v.len() && v[i] != a && v[i] != b
        invariant
            i <= v.len(),
            index_of_either(v@, a, b, 0) == index_of_either(v@, a, b, i as int),
        decreases v.len() - i,
    {
        i = i + 1;
    }
    from_chars(&v, 0, i)
}

// ---- splitting and joining -------------------------------------------------

/// The pieces of `s[start..]` between separators, with `i` the next character
/// to look at.
pub open spec fn split_from(s: Seq<char>, sep: char, start: int, i: int) -> Seq<Seq<char>>
    decreases s.len() - i,
{
    if i >= s.len() || i < 0 {
        seq![s.subrange(start, s.len() as int)]
    } else if s[i] == sep {
        seq![s.subrange(start, i)] + split_from(s, sep, i + 1, i + 1)
    } else {
        split_from(s, sep, start, i + 1)
    }
}

/// The pieces of `s` between occurrences of `sep`; one more than there are
/// separators.
pub open spec fn split_of(s: Seq<char>, sep: char) -> Seq<Seq<char>> {
    split_from(s, sep, 0, 0)
}

/// A text without the separator is one piece.
pub proof fn lemma_split_none(s: Seq<char>, sep: char, start: int, i: int)
    requires
        0 <= start <= i <= s.len(),
        forall|k: int| i <= k < s.len() ==> s[k] != sep,
    ensures
        split_from(s, sep, start, i) == seq![s.subrange(start, s.len() as int)],
    decreases s.len() - i,
{
    if i < s.len() {
        lemma_split_none(s, sep, start, i + 1);
    }
}

/// A separator and a text without one are one more piece.
pub proof fn lemma_split_append(s: Seq<char>, sep: char, x: Seq<char>, start: int, i: int)
    requires
        forall|k: int| 0 <= k < x.len() ==> x[k] != sep,
        0 <= start <= i <= s.len(),
    ensures
        split_from(s + seq![sep] + x, sep, start, i) == split_from(s, sep, start, i).push(x),
    decreases s.len() - i,
{
    let t = s + seq![sep] + x;
    if i == s.len() {
        assert(t[i] == sep);
        assert forall|k: int| i + 1 <= k < t.len() implies t[k] != sep by {
            assert(t[k] == x[k - i - 1]);
        }
        lemma_split_none(t, sep, i + 1, i + 1);
        assert(t.subrange(i + 1, t.len() as int) =~= x);
        assert(t.subrange(start, i) =~= s.subrange(start, i));
        assert(seq![t.subrange(start, i)] + seq![x] =~= seq![s.subrange(start, i)].push(x));
    } else {
        assert(t[i] == s[i]);
        if s[i] == sep {
            lemma_split_append(s, sep, x, i + 1, i + 1);
            assert(t.subrange(start, i) =~= s.subrange(start, i));
            let a = split_from(s, sep, i + 1, i + 1);
            assert(seq![s.subrange(start, i)] + a.push(x) =~= (seq![s.subrange(start, i)] + a).push(
                x,
            ));
        } else {
            lemma_split_append(s, sep, x, start, i + 1);
        }
    }
}

pub fn split(s: &str, sep: char) -> (r: Vec<String>)
    ensures
        views(r@) == split_of(s@, sep),
        r.len() > 0,
{
    broadcast use group_views;
    let v = to_chars(s);
    let mut out: Vec<String> = Vec::new();
    let mut start: usize = 0;
    let mut i: usize = 0;
    assert(views(out@) + split_from(v@, sep, 0, 0) =~= split_of(s@, sep));
    while i < v.len()
        invariant
            start <= i <= v.len(),
            v@ == s@,
            views(out@) + split_from(v@, sep, start as int, i as int) == split_of(s@, sep),
        decreases v.len() - i,
    {
        if v[i] == sep {
            let ghost before = views(out@);
            out.push(from_chars(&v, start, i));
            assert(views(out@) + split_from(v@, sep, i + 1, i + 1) =~= before + split_from(
                v@,
                sep,
                start as int,
                i as int,
            ));
            start = i + 1;
        }
        i = i + 1;
    }
    let ghost before = views(out@);
    out.push(from_chars(&v, start, i));
    assert(views(out@) =~= before + split_from(v@, sep, start as int, i as int));
    out
}

/// The first `n` of `parts`, with `sep` between neighbours.
pub open spec fn join_n(parts: Seq<Seq<char>>, sep: Seq<char>, n: nat) -> Seq<char>
    decreases n,
{
    if n == 0 {
        seq![]
    } else if n == 1 {
        parts[0]
    } else {
        join_n(parts, sep, (n - 1) as nat) + sep + parts[n - 1]
    }
}

pub open spec fn join_of(parts: Seq<Seq<char>>, sep: Seq<char>) -> Seq<char> {
    join_n(parts, sep, parts.len())
}

pub fn join(parts: &Vec<String>, sep: &str) -> (r: String)
    ensures
        r@ == join_of(views(parts@), sep@),
{
    let mut r = String::new();
    let mut i: usize = 0;
    while i < parts.len()
        invariant
            i <= parts.len(),
            r@ == join_n(views(parts@), sep@, i as nat),
        decreases parts.len() - i,
    {
        if i > 0 {
            r.append(sep);
        }
        r.append(parts[i].as_str());
        assert(views(parts@)[i as int] == parts@[i as int]@);
        if i == 0 {
            assert(r@ =~= parts@[0]@);
        }
        i = i + 1;
    }
    r
}

// ---- concatenation ---------------------------------------------------------

pub fn cat2(a: &str, b: &str) -> (r: String)
    ensures
        r@ == a@ + b@,
{
    let mut r = a.to_owned();
    r.append(b);
    r
}

pub fn cat3(a: &str, b: &str, c: &str) -> (r: String)
    ensures
        r@ == a@ + b@ + c@,
{
    let mut r = a.to_owned();
    r.append(b);
    r.append(c);
    r
}

pub fn cat4(a: &str, b: &str, c: &str, d: &str) -> (r: String)
    ensures
        r@ == a@ + b@ + c@ + d@,
{
    let mut r = cat3(a, b, c);
    r.append(d);
    r
}

pub fn cat5(a: &str, b: &str, c: &str, d: &str, e: &str) -> (r: String)
    ensures
        r@ == a@ + b@ + c@ + d@ + e@,
{
    let mut r = cat4(a, b, c, d);
    r.append(e);
    r
}

pub fn cat6(a: &str, b: &str, c: &str, d: &str, e: &str, f: &str) -> (r: String)
    ensures
        r@ == a@ + b@ + c@ + d@ + e@ + f@,
{
    let mut r = cat5(a, b, c, d, e);
    r.append(f);
    r
}

pub fn cat7(a: &str, b: &str, c: &str, d: &str, e: &str, f: &str, g: &str) -> (r: String)
    ensures
        r@ == a@ + b@ + c@ + d@ + e@ + f@ + g@,
{
    let mut r = cat6(a, b, c, d, e, f);
    r.append(g);
    r
}

} // verus!
