//! Names: identifiers derived from them, their natural order, and the phase
//! letters that name terminals.

use vstd::prelude::*;

use crate::mrid::{uuid, uuid_of};
use crate::numeral::{parse_digit_text, parse_digits};
use crate::text::{
    after_last, after_last_of, cat4, digit, from_chars, group_views, is_digit, lemma_str_less_total,
    lemma_str_less_transitive, less, same, str_less, to_chars, views,
};

verus! {

/// The identifier derived from an object's class and name.
pub open spec fn det_mrid_of(kind: Seq<char>, name: Seq<char>) -> Seq<char> {
    uuid_of("powerio-ravens:"@ + kind + ":"@ + name)
}

pub fn det_mrid(kind: &str, name: &str) -> (r: String)
    ensures
        r@ == det_mrid_of(kind@, name@),
{
    let tag = cat4("powerio-ravens:", kind, ":", name);
    uuid(tag.as_str())
}

// ---- natural order ---------------------------------------------------------

/// The start of the digits that a name's first `j` characters end in.
pub open spec fn stem_len(s: Seq<char>, j: int) -> int
    decreases j,
{
    if 0 < j <= s.len() && is_digit(s[j - 1]) {
        stem_len(s, j - 1)
    } else {
        j
    }
}

pub proof fn lemma_stem_len(s: Seq<char>, j: int)
    requires
        0 <= j <= s.len(),
    ensures
        0 <= stem_len(s, j) <= j,
    decreases j,
{
    if 0 < j && is_digit(s[j - 1]) {
        lemma_stem_len(s, j - 1);
    }
}

/// What a name orders by: what stands before its trailing digits, the number
/// they make (zero where they make none that fits), and the whole name.
pub struct NaturalV {
    pub stem: Seq<char>,
    pub number: u64,
    pub name: Seq<char>,
}

pub struct Natural {
    pub stem: String,
    pub number: u64,
    pub name: String,
}

impl View for Natural {
    type V = NaturalV;

    open spec fn view(&self) -> NaturalV {
        NaturalV { stem: self.stem@, number: self.number, name: self.name@ }
    }
}

pub open spec fn natural_of(name: Seq<char>) -> NaturalV {
    let k = stem_len(name, name.len() as int);
    NaturalV {
        stem: name.subrange(0, k),
        number: match parse_digits(name.subrange(k, name.len() as int), u64::MAX as nat) {
            Some(n) => n as u64,
            None => 0,
        },
        name,
    }
}

pub open spec fn natural_less_of(a: NaturalV, b: NaturalV) -> bool {
    if a.stem != b.stem {
        str_less(a.stem, b.stem)
    } else if a.number != b.number {
        a.number < b.number
    } else {
        str_less(a.name, b.name)
    }
}

/// Whether one name comes before another: digit runs at the end compare as
/// numbers.
pub open spec fn comes_before(a: Seq<char>, b: Seq<char>) -> bool {
    natural_less_of(natural_of(a), natural_of(b))
}

pub fn natural_key(name: &str) -> (r: Natural)
    ensures
        r@ == natural_of(name@),
{
    let v = to_chars(name);
    let mut k: usize = v.len();
    while k > 0 && digit(v[k - 1])
        invariant
            k <= v.len(),
            v@ == name@,
            stem_len(name@, name@.len() as int) == stem_len(name@, k as int),
        decreases k,
    {
        k = k - 1;
    }
    let stem = from_chars(&v, 0, k);
    let digits = from_chars(&v, k, v.len());
    let number = match parse_digit_text(digits.as_str(), u64::MAX) {
        Some(n) => n,
        None => 0,
    };
    Natural { stem, number, name: name.to_owned() }
}

pub fn natural_less(a: &Natural, b: &Natural) -> (r: bool)
    ensures
        r == natural_less_of(a@, b@),
{
    if !same(a.stem.as_str(), b.stem.as_str()) {
        less(a.stem.as_str(), b.stem.as_str())
    } else if a.number != b.number {
        a.number < b.number
    } else {
        less(a.name.as_str(), b.name.as_str())
    }
}

/// Natural order is a strict order of names, and orders any two that differ.
pub proof fn lemma_natural_total(a: Seq<char>, b: Seq<char>)
    ensures
        !(comes_before(a, b) && comes_before(b, a)),
        a == b ==> !comes_before(a, b),
        a != b ==> comes_before(a, b) || comes_before(b, a),
{
    lemma_str_less_total(natural_of(a).stem, natural_of(b).stem);
    lemma_str_less_total(a, b);
}

/// Natural order is transitive.
pub proof fn lemma_natural_transitive(a: Seq<char>, b: Seq<char>, c: Seq<char>)
    requires
        comes_before(a, b),
        comes_before(b, c),
    ensures
        comes_before(a, c),
{
    let (x, y, z) = (natural_of(a), natural_of(b), natural_of(c));
    if x.stem != y.stem && y.stem != z.stem {
        lemma_str_less_transitive(x.stem, y.stem, z.stem);
        lemma_str_less_total(x.stem, z.stem);
        lemma_str_less_total(x.stem, y.stem);
    } else if x.stem == y.stem && y.stem == z.stem && x.number == y.number && y.number
        == z.number {
        lemma_str_less_transitive(a, b, c);
    }
}

// ---- phases ----------------------------------------------------------------

/// The terminal a phase letter names.
pub open spec fn phase_terminal_of(letter: Seq<char>) -> Option<Seq<char>> {
    if letter == "A"@ || letter == "s1"@ {
        Some("1"@)
    } else if letter == "B"@ || letter == "s2"@ {
        Some("2"@)
    } else if letter == "C"@ {
        Some("3"@)
    } else if letter == "N"@ {
        Some("4"@)
    } else {
        None
    }
}

pub fn phase_terminal(letter: &str) -> (r: Option<&'static str>)
    ensures
        match r {
            Some(t) => phase_terminal_of(letter@) == Some(t@),
            None => phase_terminal_of(letter@) is None,
        },
{
    if same(letter, "A") || same(letter, "s1") {
        Some("1")
    } else if same(letter, "B") || same(letter, "s2") {
        Some("2")
    } else if same(letter, "C") {
        Some("3")
    } else if same(letter, "N") {
        Some("4")
    } else {
        None
    }
}

/// The phase letter of a terminal; the split phases share A and B.
pub open spec fn terminal_phase_of(terminal: Seq<char>) -> Option<Seq<char>> {
    if terminal == "1"@ {
        Some("A"@)
    } else if terminal == "2"@ {
        Some("B"@)
    } else if terminal == "3"@ {
        Some("C"@)
    } else if terminal == "4"@ {
        Some("N"@)
    } else {
        None
    }
}

pub fn terminal_phase(terminal: &str) -> (r: Option<&'static str>)
    ensures
        match r {
            Some(p) => terminal_phase_of(terminal@) == Some(p@),
            None => terminal_phase_of(terminal@) is None,
        },
{
    if same(terminal, "1") {
        Some("A")
    } else if same(terminal, "2") {
        Some("B")
    } else if same(terminal, "3") {
        Some("C")
    } else if same(terminal, "4") {
        Some("N")
    } else {
        None
    }
}

/// Reading the letter a terminal is written as gives back the terminal.
pub proof fn lemma_terminal_phase_inverse(terminal: Seq<char>)
    requires
        terminal_phase_of(terminal) is Some,
    ensures
        phase_terminal_of(terminal_phase_of(terminal)->0) == Some(terminal),
{
    reveal_strlit("A");
    reveal_strlit("B");
    reveal_strlit("C");
    reveal_strlit("N");
    reveal_strlit("s1");
    reveal_strlit("s2");
    assert("A"@[0] == 'A' && "B"@[0] == 'B' && "C"@[0] == 'C' && "N"@[0] == 'N');
    assert("s1"@.len() == 2 && "s2"@.len() == 2);
}

/// The letters that a phase code holds from its `i`-th character on, after those
/// in `out`.
pub open spec fn letters_from(code: Seq<char>, i: int, out: Seq<Seq<char>>) -> Seq<Seq<char>>
    decreases code.len() - i,
{
    if i < 0 || i >= code.len() {
        out
    } else if code[i] == 'A' || code[i] == 'B' || code[i] == 'C' || code[i] == 'N' {
        letters_from(code, i + 1, out.push(seq![code[i]]))
    } else if code[i] == 's' && i + 1 < code.len() {
        letters_from(code, i + 2, out.push(seq!['s', code[i + 1]]))
    } else {
        letters_from(code, i + 1, out)
    }
}

/// The phase letters of a phase code, in order; what stands before its last
/// point is left out.
#[verifier::opaque]
pub open spec fn letters_of(code: Seq<char>) -> Seq<Seq<char>> {
    letters_from(after_last_of(code, '.'), 0, Seq::empty())
}

pub fn expand_phase_code(code: &str) -> (r: Vec<String>)
    ensures
        views(r@) == letters_of(code@),
{
    broadcast use group_views;

    reveal(letters_of);
    let tail = after_last(code, '.');
    let v = to_chars(tail.as_str());
    let mut out: Vec<String> = Vec::new();
    let mut i: usize = 0;
    assert(views(out@) =~= Seq::empty());
    while i < v.len()
        invariant
            i <= v.len(),
            v@ == after_last_of(code@, '.'),
            letters_of(code@) == letters_from(v@, i as int, views(out@)),
        decreases v.len() - i,
    {
        let c = v[i];
        let ghost before = views(out@);
        if c == 'A' || c == 'B' || c == 'C' || c == 'N' {
            let mut s = String::new();
            s.push(c);
            assert(s@ =~= seq![c]);
            out.push(s);
            assert(views(out@) == before.push(seq![c]));
        } else if c == 's' && i + 1 < v.len() {
            let mut s = String::new();
            s.push(c);
            s.push(v[i + 1]);
            assert(s@ =~= seq!['s', v@[i + 1]]);
            out.push(s);
            assert(views(out@) == before.push(seq!['s', v@[i + 1]]));
            i = i + 1;
        }
        i = i + 1;
    }
    out
}

/// The terminals of the first `n` letters, those without one left out.
pub open spec fn terminals_n(letters: Seq<Seq<char>>, n: nat) -> Seq<Seq<char>>
    decreases n,
{
    if n == 0 {
        seq![]
    } else {
        match phase_terminal_of(letters[n - 1]) {
            Some(t) => terminals_n(letters, (n - 1) as nat).push(t),
            None => terminals_n(letters, (n - 1) as nat),
        }
    }
}

#[verifier::opaque]
pub open spec fn terminals_of(letters: Seq<Seq<char>>) -> Seq<Seq<char>> {
    terminals_n(letters, letters.len())
}

pub fn letters_to_terminals(letters: &Vec<String>) -> (r: Vec<String>)
    ensures
        views(r@) == terminals_of(views(letters@)),
{
    broadcast use group_views;

    reveal(terminals_of);
    let mut r: Vec<String> = Vec::new();
    let mut i: usize = 0;
    while i < letters.len()
        invariant
            i <= letters.len(),
            views(r@) == terminals_n(views(letters@), i as nat),
        decreases letters.len() - i,
    {
        assert(views(letters@)[i as int] == letters@[i as int]@);
        if let Some(t) = phase_terminal(letters[i].as_str()) {
            r.push(t.to_owned());
        }
        i = i + 1;
    }
    assert(views(letters@).len() == letters.len());
    r
}

/// The first `n` terminals without the neutral.
pub open spec fn hot_n(map: Seq<Seq<char>>, n: nat) -> Seq<Seq<char>>
    decreases n,
{
    if n == 0 {
        seq![]
    } else if map[n - 1] == "4"@ {
        hot_n(map, (n - 1) as nat)
    } else {
        hot_n(map, (n - 1) as nat).push(map[n - 1])
    }
}

pub open spec fn hot_of(map: Seq<Seq<char>>) -> Seq<Seq<char>> {
    hot_n(map, map.len())
}

pub fn hot(map: &Vec<String>) -> (r: Vec<String>)
    ensures
        views(r@) == hot_of(views(map@)),
{
    broadcast use group_views;

    let mut r: Vec<String> = Vec::new();
    let mut i: usize = 0;
    while i < map.len()
        invariant
            i <= map.len(),
            views(r@) == hot_n(views(map@), i as nat),
        decreases map.len() - i,
    {
        assert(views(map@)[i as int] == map@[i as int]@);
        if !same(map[i].as_str(), "4") {
            r.push(map[i].clone());
        }
        i = i + 1;
    }
    assert(views(map@).len() == map.len());
    r
}

/// The terminals of phase letters, without the neutral.
pub open spec fn hot_terminals_of(letters: Seq<Seq<char>>) -> Seq<Seq<char>> {
    hot_of(terminals_of(letters))
}

pub fn hot_terminals(letters: &Vec<String>) -> (r: Vec<String>)
    ensures
        views(r@) == hot_terminals_of(views(letters@)),
{
    let t = letters_to_terminals(letters);
    hot(&t)
}

// ---- what a code names -----------------------------------------------------

/// A character at a place.
pub open spec fn has_at(code: Seq<char>, i: int, c: char) -> bool {
    0 <= i < code.len() && code[i] == c
}

/// Every split phase of a code is numbered one or two.
pub open spec fn is_tidy(code: Seq<char>) -> bool {
    forall|i: int|
        0 <= i < code.len() && #[trigger] code[i] == 's' ==> has_at(code, i + 1, '1') || has_at(
            code,
            i + 1,
            '2',
        )
}

/// A phase code names a wire at a place: by its letter, or by that of a split
/// phase.
pub open spec fn names_at(code: Seq<char>, i: int, wire: Seq<char>) -> bool {
    ||| wire == "1"@ && has_at(code, i, 'A')
    ||| wire == "2"@ && has_at(code, i, 'B')
    ||| wire == "3"@ && has_at(code, i, 'C')
    ||| wire == "4"@ && has_at(code, i, 'N')
    ||| wire == "1"@ && has_at(code, i, 's') && has_at(code, i + 1, '1')
    ||| wire == "2"@ && has_at(code, i, 's') && has_at(code, i + 1, '2')
}

/// A phase code names a wire from a place on.
pub open spec fn names_from(code: Seq<char>, i: int, wire: Seq<char>) -> bool {
    exists|k: int| i <= k && #[trigger] names_at(code, k, wire)
}

/// Some letter is that of a wire.
pub open spec fn has_letter(letters: Seq<Seq<char>>, wire: Seq<char>) -> bool {
    exists|k: int|
        0 <= k < letters.len() && phase_terminal_of(#[trigger] letters[k]) == Some(wire)
}

proof fn lemma_letter_push(letters: Seq<Seq<char>>, x: Seq<char>, wire: Seq<char>)
    ensures
        has_letter(letters.push(x), wire) == (has_letter(letters, wire) || phase_terminal_of(x)
            == Some(wire)),
{
    let r = letters.push(x);
    assert(r[letters.len() as int] == x);
    if has_letter(letters, wire) {
        let k = choose|k: int|
            0 <= k < letters.len() && phase_terminal_of(#[trigger] letters[k]) == Some(wire);
        assert(r[k] == letters[k]);
    }
    if has_letter(r, wire) {
        let k = choose|k: int|
            0 <= k < r.len() && phase_terminal_of(#[trigger] r[k]) == Some(wire);
        if k < letters.len() {
            assert(letters[k] == r[k]);
        }
    }
}

proof fn lemma_names_step(code: Seq<char>, i: int, j: int, wire: Seq<char>)
    requires
        i < j,
        forall|k: int| i < k < j ==> !#[trigger] names_at(code, k, wire),
    ensures
        names_from(code, i, wire) == (names_at(code, i, wire) || names_from(code, j, wire)),
{
    if names_from(code, i, wire) && !names_at(code, i, wire) {
        let k = choose|k: int| i <= k && #[trigger] names_at(code, k, wire);
        assert(j <= k);
    }
    if names_from(code, j, wire) {
        let k = choose|k: int| j <= k && #[trigger] names_at(code, k, wire);
        assert(i <= k);
    }
}

proof fn lemma_letters_from(code: Seq<char>, i: int, out: Seq<Seq<char>>, wire: Seq<char>)
    requires
        0 <= i,
        is_tidy(code),
    ensures
        has_letter(letters_from(code, i, out), wire) == (has_letter(out, wire) || names_from(
            code,
            i,
            wire,
        )),
    decreases code.len() - i,
{
    reveal_strlit("1");
    reveal_strlit("2");
    reveal_strlit("3");
    reveal_strlit("4");
    reveal_strlit("A");
    reveal_strlit("B");
    reveal_strlit("C");
    reveal_strlit("N");
    reveal_strlit("s1");
    reveal_strlit("s2");
    assert("1"@[0] == '1' && "2"@[0] == '2' && "3"@[0] == '3' && "4"@[0] == '4');
    assert("A"@ =~= seq!['A'] && "B"@ =~= seq!['B'] && "C"@ =~= seq!['C'] && "N"@ =~= seq!['N']);
    assert("s1"@ =~= seq!['s', '1'] && "s2"@ =~= seq!['s', '2']);
    assert(seq!['A'][0] == 'A' && seq!['B'][0] == 'B' && seq!['C'][0] == 'C' && seq!['N'][0]
        == 'N');
    assert(seq!['s', '1'][1] == '1' && seq!['s', '2'][1] == '2');
    assert(seq!['s', '1'].len() == 2 && seq!['s', '2'].len() == 2 && seq!['A'].len() == 1);
    if i < code.len() {
        let c = code[i];
        if c == 'A' || c == 'B' || c == 'C' || c == 'N' {
            lemma_letter_push(out, seq![c], wire);
            lemma_names_step(code, i, i + 1, wire);
            lemma_letters_from(code, i + 1, out.push(seq![c]), wire);
        } else if c == 's' {
            let x = seq!['s', code[i + 1]];
            lemma_letter_push(out, x, wire);
            assert(!names_at(code, i + 1, wire));
            lemma_names_step(code, i, i + 2, wire);
            lemma_letters_from(code, i + 2, out.push(x), wire);
        } else {
            lemma_names_step(code, i, i + 1, wire);
            lemma_letters_from(code, i + 1, out, wire);
        }
    } else if names_from(code, i, wire) {
        let k = choose|k: int| i <= k && #[trigger] names_at(code, k, wire);
        assert(!names_at(code, k, wire));
    }
}

proof fn lemma_terminals_n(letters: Seq<Seq<char>>, n: nat, wire: Seq<char>)
    requires
        n <= letters.len(),
    ensures
        terminals_n(letters, n).contains(wire) == has_letter(letters.take(n as int), wire),
    decreases n,
{
    if n > 0 {
        lemma_terminals_n(letters, (n - 1) as nat, wire);
        let before = terminals_n(letters, (n - 1) as nat);
        let x = letters[n - 1];
        assert(letters.take(n as int) =~= letters.take(n - 1).push(x));
        lemma_letter_push(letters.take(n - 1), x, wire);
        if let Some(t) = phase_terminal_of(x) {
            let r = before.push(t);
            assert(r[before.len() as int] == t);
            if before.contains(wire) {
                let k = choose|k: int| 0 <= k < before.len() && before[k] == wire;
                assert(r[k] == wire);
            }
            if r.contains(wire) {
                let k = choose|k: int| 0 <= k < r.len() && r[k] == wire;
                if k < before.len() {
                    assert(before[k] == wire);
                }
            }
        }
    }
}

/// The wires of a phase code are exactly those that it names behind its last point:
/// `1` for an `A`, `2` for a `B`, `3` for a `C`, `4` for an `N`, and the first two
/// for the split phases.
pub proof fn lemma_code_names_its_wires(code: Seq<char>, wire: Seq<char>)
    requires
        is_tidy(after_last_of(code, '.')),
    ensures
        terminals_of(letters_of(code)).contains(wire) == names_from(
            after_last_of(code, '.'),
            0,
            wire,
        ),
{
    reveal(letters_of);
    reveal(terminals_of);
    let letters = letters_of(code);
    lemma_letters_from(after_last_of(code, '.'), 0, Seq::empty(), wire);
    lemma_terminals_n(letters, letters.len(), wire);
    assert(letters.take(letters.len() as int) =~= letters);
}

} // verus!
