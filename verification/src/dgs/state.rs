//! What the reader has gathered so far: the conductors of each bus, the names
//! handed out, and what it has warned of.

use vstd::prelude::*;

use crate::dgs::scan::{cell_at, num, num_of, DgsDoc, DgsDocV, DgsRow, DgsRowV, DgsTable, DgsTableV};
use crate::dgs::topology::{within, Conn, ConnV};
use crate::error::{ErrorV, Outcome, Result};
use crate::json::{lemma_json_view, put_of, Entries, Json, JsonMap, JsonV};
use crate::math::{Bits, Calc, Sem, ZERO};
use crate::numeral::{dec_of, dec_usize, lemma_dec_distinct, lemma_dec_reads_back};
use crate::order::{byte_put, byte_put_of, contains, get, get_of, put};
use crate::text::{
    cat2, cat3, cat5, debug, debug_of, empty, from_chars, group_views, opt_view, same, to_chars,
    trim, trim_of, views,
};

verus! {

// ---- names -----------------------------------------------------------------

/// A letter or digit of ASCII, an underscore or a hyphen.
pub open spec fn plain(c: char) -> bool {
    ||| 'a' <= c && c <= 'z'
    ||| 'A' <= c && c <= 'Z'
    ||| '0' <= c && c <= '9'
    ||| c == '_'
    ||| c == '-'
}

/// The text with an underscore for each character that is not plain.
pub open spec fn plain_text(s: Seq<char>) -> Seq<char> {
    Seq::new(
        s.len(),
        |i: int|
            if plain(s[i]) {
                s[i]
            } else {
                '_'
            },
    )
}

/// The first index at or after `i` that holds no underscore.
pub open spec fn skip_lines(s: Seq<char>, i: int) -> int
    decreases s.len() - i,
{
    if 0 <= i < s.len() && s[i] == '_' {
        skip_lines(s, i + 1)
    } else {
        i
    }
}

/// The end of `s[..j]` once trailing underscores are left out, not below `lo`.
pub open spec fn back_lines(s: Seq<char>, lo: int, j: int) -> int
    decreases j - lo,
{
    if 0 <= lo < j <= s.len() && s[j - 1] == '_' {
        back_lines(s, lo, j - 1)
    } else {
        j
    }
}

/// A name of plain characters, without underscores at its ends.
pub open spec fn sanitize_of(raw: Seq<char>) -> Seq<char> {
    let s = plain_text(trim_of(raw));
    let i = skip_lines(s, 0);
    s.subrange(i, back_lines(s, i, s.len() as int))
}

pub fn sanitize(raw: &str) -> (r: String)
    ensures
        r@ == sanitize_of(raw@),
{
    let t = trim(raw);
    let v = to_chars(t.as_str());
    let mut s: Vec<char> = Vec::new();
    let mut k: usize = 0;
    while k < v.len()
        invariant
            k <= v.len(),
            s@ =~= plain_text(v@).take(k as int),
        decreases v.len() - k,
    {
        let c = v[k];
        if ('a' <= c && c <= 'z') || ('A' <= c && c <= 'Z') || ('0' <= c && c <= '9') || c == '_' || c
            == '-' {
            s.push(c);
        } else {
            s.push('_');
        }
        k = k + 1;
    }
    assert(s@ =~= plain_text(v@));
    let mut i: usize = 0;
    while i < s.len() && s[i] == '_'
        invariant
            i <= s.len(),
            skip_lines(s@, 0) == skip_lines(s@, i as int),
        decreases s.len() - i,
    {
        i = i + 1;
    }
    let mut j: usize = s.len();
    while i < j && s[j - 1] == '_'
        invariant
            i <= j <= s.len(),
            back_lines(s@, i as int, s.len() as int) == back_lines(s@, i as int, j as int),
        decreases j,
    {
        j = j - 1;
    }
    from_chars(&s, i, j)
}

/// A name made of plain characters only.
pub proof fn lemma_sanitized_is_plain(raw: Seq<char>, k: int)
    requires
        0 <= k < sanitize_of(raw).len(),
    ensures
        plain(sanitize_of(raw)[k]),
{
    let s = plain_text(trim_of(raw));
    lemma_skip_lines(s, 0);
    lemma_back_lines(s, skip_lines(s, 0), s.len() as int);
}

proof fn lemma_skip_lines(s: Seq<char>, i: int)
    requires
        0 <= i <= s.len(),
    ensures
        i <= skip_lines(s, i) <= s.len(),
    decreases s.len() - i,
{
    if i < s.len() && s[i] == '_' {
        lemma_skip_lines(s, i + 1);
    }
}

proof fn lemma_back_lines(s: Seq<char>, lo: int, j: int)
    requires
        0 <= lo <= j <= s.len(),
    ensures
        lo <= back_lines(s, lo, j) <= j,
    decreases j - lo,
{
    if lo < j && s[j - 1] == '_' {
        lemma_back_lines(s, lo, j - 1);
    }
}

/// A name told apart by a number.
pub open spec fn numbered_name(base: Seq<char>, n: nat) -> Seq<char> {
    base + "_"@ + dec_of(n)
}

/// The first numbered name, from the `n`-th on, that is free. As many names as
/// are taken hold a free one.
pub open spec fn free_from(used: Seq<Seq<char>>, base: Seq<char>, n: nat) -> Seq<char>
    decreases used.len() - n,
{
    if n < used.len() && used.contains(numbered_name(base, n)) {
        free_from(used, base, n + 1)
    } else {
        numbered_name(base, n)
    }
}

/// `base` where it is free, else its first free numbered form.
pub open spec fn unique_of(used: Seq<Seq<char>>, base: Seq<char>) -> Seq<char> {
    if used.contains(base) {
        free_from(used, base, 1)
    } else {
        base
    }
}

/// What a raw name comes to before it is told apart.
pub open spec fn base_of(raw: Seq<char>, fallback: Seq<char>) -> Seq<char> {
    if sanitize_of(raw).len() == 0 {
        fallback
    } else {
        sanitize_of(raw)
    }
}

/// A list without repeats whose members all stand in another is no longer.
proof fn lemma_no_longer(c: Seq<Seq<char>>, used: Seq<Seq<char>>)
    requires
        c.no_duplicates(),
        forall|i: int| 0 <= i < c.len() ==> used.contains(#[trigger] c[i]),
    ensures
        c.len() <= used.len(),
{
    c.unique_seq_to_set();
    used.lemma_cardinality_of_set();
    assert(c.to_set().subset_of(used.to_set()));
    vstd::set_lib::lemma_len_subset(c.to_set(), used.to_set());
}

/// Names that the search has passed over are taken; the one it stops at is not.
proof fn lemma_free(used: Seq<Seq<char>>, base: Seq<char>, n: nat)
    requires
        1 <= n,
        n <= used.len(),
        used.contains(base),
        forall|k: nat| 1 <= k < n ==> used.contains(#[trigger] numbered_name(base, k)),
    ensures
        !used.contains(free_from(used, base, n)),
    decreases used.len() - n,
{
    if n < used.len() && used.contains(numbered_name(base, n)) {
        lemma_free(used, base, n + 1);
    } else if n == used.len() && used.contains(numbered_name(base, n)) {
        let c = Seq::new(
            n + 1,
            |k: int|
                if k == 0 {
                    base
                } else {
                    numbered_name(base, k as nat)
                },
        );
        assert forall|i: int, j: int| 0 <= i < j < c.len() implies c[i] != c[j] by {
            lemma_numbered_distinct(base, i as nat, j as nat);
        }
        assert forall|i: int| 0 <= i < c.len() implies used.contains(#[trigger] c[i]) by {
            if i > 0 {
                assert(c[i] == numbered_name(base, i as nat));
            }
        }
        assert(c.no_duplicates());
        lemma_no_longer(c, used);
    }
}

proof fn lemma_numbered_distinct(base: Seq<char>, i: nat, j: nat)
    ensures
        i != j ==> numbered_name(base, i) != numbered_name(base, j),
        numbered_name(base, i) != base,
{
    let head = base + "_"@;
    lemma_dec_reads_back(i);
    assert(numbered_name(base, i).len() > base.len());
    if i != j && numbered_name(base, i) == numbered_name(base, j) {
        assert(dec_of(i) =~= numbered_name(base, i).skip(head.len() as int));
        assert(dec_of(j) =~= numbered_name(base, j).skip(head.len() as int));
        lemma_dec_distinct(i, j);
    }
}

/// A name handed out is one that was not handed out before.
pub proof fn lemma_unique_is_fresh(used: Seq<Seq<char>>, base: Seq<char>)
    ensures
        !used.contains(unique_of(used, base)),
{
    if used.contains(base) {
        assert(used.len() > 0);
        lemma_free(used, base, 1);
    }
}

/// Hands out a name not handed out before.
pub fn unique_name(used: &mut Vec<String>, raw: &str, fallback: &str) -> (r: String)
    ensures
        r@ == unique_of(views(old(used)@), base_of(raw@, fallback@)),
        views(final(used)@) == views(old(used)@).push(r@),
        !views(old(used)@).contains(r@),
{
    broadcast use group_views;

    let clean = sanitize(raw);
    let base = if empty(clean.as_str()) {
        fallback.to_owned()
    } else {
        clean
    };
    proof {
        lemma_unique_is_fresh(views(used@), base@);
    }
    if !contains(used, base.as_str()) {
        used.push(base.clone());
        return base;
    }
    assert(views(used@).len() == used.len());
    let mut n: usize = 1;
    let mut name = {
        let d = dec_usize(1);
        cat3(base.as_str(), "_", d.as_str())
    };
    while n < used.len() && contains(used, name.as_str())
        invariant
            views(used@).len() == used.len(),
            used@ == old(used)@,
            name@ == numbered_name(base@, n as nat),
            free_from(views(used@), base@, 1) == free_from(views(used@), base@, n as nat),
        decreases used.len() - n,
    {
        n = n + 1;
        let d = dec_usize(n);
        name = cat3(base.as_str(), "_", d.as_str());
    }
    used.push(name.clone());
    name
}

// ---- buses -----------------------------------------------------------------

/// A terminal position and, where it is the first of its fused set, what is
/// known of the bus: its name, the conductors seen, whether an element asked for
/// a neutral, and the nominal voltage in kilovolts.
pub struct BusAccum {
    pub live: bool,
    pub id: String,
    pub phases: Vec<u8>,
    pub neutral: bool,
    pub uknom: Bits,
}

pub struct BusAccumV {
    pub live: bool,
    pub id: Seq<char>,
    pub phases: Seq<u8>,
    pub neutral: bool,
    pub uknom: Bits,
}

impl View for BusAccum {
    type V = BusAccumV;

    open spec fn view(&self) -> BusAccumV {
        BusAccumV {
            live: self.live,
            id: self.id@,
            phases: self.phases@,
            neutral: self.neutral,
            uknom: self.uknom,
        }
    }
}

/// The terminal names of conductors, with the neutral where asked.
pub open spec fn terminals_of(phases: Seq<u8>, neutral: bool) -> Seq<Seq<char>> {
    let names = Seq::new(phases.len(), |i: int| dec_of(phases[i] as nat));
    if neutral {
        names.push("4"@)
    } else {
        names
    }
}

pub fn phase_terminals(phases: &Vec<u8>, neutral: bool) -> (r: Vec<String>)
    ensures
        views(r@) == terminals_of(phases@, neutral),
{
    broadcast use group_views;

    let mut r: Vec<String> = Vec::new();
    let ghost names = Seq::new(phases@.len(), |i: int| dec_of(phases@[i] as nat));
    let mut i: usize = 0;
    while i < phases.len()
        invariant
            i <= phases.len(),
            r.len() == i,
            forall|k: int| 0 <= k < i ==> (#[trigger] r@[k])@ == dec_of(phases@[k] as nat),
        decreases phases.len() - i,
    {
        r.push(dec_usize(phases[i] as usize));
        i = i + 1;
    }
    assert(views(r@) =~= names);
    if neutral {
        r.push("4".to_owned());
    }
    r
}

/// The conductors `1` to `n`.
pub open spec fn first_phases(n: nat) -> Seq<u8> {
    Seq::new(n, |i: int| (i + 1) as u8)
}

pub fn phases_up_to(n: usize) -> (r: Vec<u8>)
    requires
        n <= 255,
    ensures
        r@ == first_phases(n as nat),
{
    let mut r: Vec<u8> = Vec::new();
    let mut i: usize = 0;
    while i < n
        invariant
            i <= n <= 255,
            r@ =~= first_phases(n as nat).take(i as int),
        decreases n - i,
    {
        r.push((i + 1) as u8);
        i = i + 1;
    }
    assert(r@ =~= first_phases(n as nat));
    r
}

/// The first `n` of `phases` put in.
pub open spec fn phases_put_n(s: Seq<u8>, phases: Seq<u8>, n: nat) -> Seq<u8>
    decreases n,
{
    if n == 0 {
        s
    } else {
        byte_put_of(phases_put_n(s, phases, (n - 1) as nat), phases[n - 1])
    }
}

fn phases_put(s: &mut Vec<u8>, phases: &Vec<u8>)
    ensures
        final(s)@ == phases_put_n(old(s)@, phases@, phases@.len()),
{
    let mut i: usize = 0;
    while i < phases.len()
        invariant
            i <= phases.len(),
            s@ == phases_put_n(old(s)@, phases@, i as nat),
        decreases phases.len() - i,
    {
        byte_put(s, phases[i]);
        i = i + 1;
    }
}

// ---- the reader ------------------------------------------------------------

/// Everything gathered but the elements themselves.
pub struct Reader {
    pub warnings: Vec<String>,
    /// One entry per terminal position.
    pub bus: Vec<BusAccum>,
    pub used_bus: Vec<String>,
    pub used_linecode: Vec<String>,
    pub used_elem: Vec<String>,
    /// The linecode made for each plain line type.
    pub cache: Vec<(String, String)>,
    /// The single-phase elements that no cubicle pins to a conductor.
    pub defaulted: Vec<String>,
    /// The class of each element out of service.
    pub skipped: Vec<String>,
    pub said_explicit: bool,
    pub said_expanded: bool,
    pub said_no_zero: bool,
    pub said_two_phase: bool,
}

pub struct ReaderV {
    pub warnings: Seq<Seq<char>>,
    pub bus: Seq<BusAccumV>,
    pub used_bus: Seq<Seq<char>>,
    pub used_linecode: Seq<Seq<char>>,
    pub used_elem: Seq<Seq<char>>,
    pub cache: Seq<(Seq<char>, Seq<char>)>,
    pub defaulted: Seq<Seq<char>>,
    pub skipped: Seq<Seq<char>>,
    pub said_explicit: bool,
    pub said_expanded: bool,
    pub said_no_zero: bool,
    pub said_two_phase: bool,
}

impl View for Reader {
    type V = ReaderV;

    open spec fn view(&self) -> ReaderV {
        ReaderV {
            warnings: views(self.warnings@),
            bus: views(self.bus@),
            used_bus: views(self.used_bus@),
            used_linecode: views(self.used_linecode@),
            used_elem: views(self.used_elem@),
            cache: views(self.cache@),
            defaulted: views(self.defaulted@),
            skipped: views(self.skipped@),
            said_explicit: self.said_explicit,
            said_expanded: self.said_expanded,
            said_no_zero: self.said_no_zero,
            said_two_phase: self.said_two_phase,
        }
    }
}

impl ReaderV {
    #[verifier::opaque]
    pub open spec fn warn(self, text: Seq<char>) -> ReaderV {
        ReaderV { warnings: self.warnings.push(text), ..self }
    }

    #[verifier::opaque]
    pub open spec fn skip(self, class: Seq<char>) -> ReaderV {
        ReaderV { skipped: self.skipped.push(class), ..self }
    }

    /// Warns of an element that the cubicles do not connect.
    pub open spec fn unconnected(self, class: Seq<char>, id: Seq<char>) -> ReaderV {
        self.warn(
            "`"@ + class + "` "@ + debug_of(id)
                + " has no cubicle for each of its terminals; skipped"@,
        )
    }

    #[verifier::opaque]
    pub open spec fn default_phase(self, id: Seq<char>) -> ReaderV {
        ReaderV { defaulted: self.defaulted.push(id), ..self }
    }

    /// The name that an element gets.
    #[verifier::opaque]
    pub open spec fn elem_name(self, raw: Seq<char>) -> Seq<char> {
        unique_of(self.used_elem, base_of(raw, "elem"@))
    }

    #[verifier::opaque]
    pub open spec fn name_elem(self, raw: Seq<char>) -> ReaderV {
        ReaderV { used_elem: self.used_elem.push(self.elem_name(raw)), ..self }
    }

    #[verifier::opaque]
    pub open spec fn linecode_name(self, raw: Seq<char>) -> Seq<char> {
        unique_of(self.used_linecode, base_of(raw, "lc"@))
    }

    #[verifier::opaque]
    pub open spec fn name_linecode(self, raw: Seq<char>) -> ReaderV {
        ReaderV { used_linecode: self.used_linecode.push(self.linecode_name(raw)), ..self }
    }

    /// The linecode made for a type.
    #[verifier::opaque]
    pub open spec fn cached(self, key: Seq<char>) -> Option<Seq<char>> {
        get_of(self.cache, key)
    }

    #[verifier::opaque]
    pub open spec fn remember(self, key: Seq<char>, name: Seq<char>) -> ReaderV {
        ReaderV { cache: put_of(self.cache, key, name), ..self }
    }

    /// Warns of an explicit matrix, the first time.
    #[verifier::opaque]
    pub open spec fn say_explicit(self, n: nat) -> ReaderV {
        if self.said_explicit {
            self
        } else {
            ReaderV {
                said_explicit: true,
                ..self.warn(
                    "explicit "@ + dec_of(n)
                        + "-conductor phase matrix used verbatim (natural coordinates; asymmetry and any neutral conductor preserved)"@,
                )
            }
        }
    }

    /// Warns of a symmetrical type, the first time.
    #[verifier::opaque]
    pub open spec fn say_expanded(self) -> ReaderV {
        if self.said_expanded {
            self
        } else {
            ReaderV {
                said_expanded: true,
                ..self.warn(
                    "symmetrical TypLne expanded to a transposed 3x3; per-phase asymmetry is not represented by this type"@,
                )
            }
        }
    }

    /// Warns of a type without zero-sequence data, the first time.
    #[verifier::opaque]
    pub open spec fn say_no_zero(self) -> ReaderV {
        if self.said_no_zero {
            self
        } else {
            ReaderV {
                said_no_zero: true,
                ..self.warn(
                    "one or more line types have no zero-sequence data; modelled uncoupled (Z0 = Z1)"@,
                )
            }
        }
    }

    /// Warns of a two-phase type, the first time.
    #[verifier::opaque]
    pub open spec fn say_two_phase(self) -> ReaderV {
        if self.said_two_phase {
            self
        } else {
            ReaderV {
                said_two_phase: true,
                ..self.warn(
                    "two-phase line sequence data is underdetermined; modelled with the positive-sequence self impedance and no mutual"@,
                )
            }
        }
    }

    /// Whether a position is the first of its fused set.
    pub open spec fn has_bus(self, root: int) -> bool {
        0 <= root < self.bus.len() && self.bus[root].live
    }

    pub open spec fn bus_id(self, root: int) -> Seq<char> {
        if self.has_bus(root) {
            self.bus[root].id
        } else {
            seq![]
        }
    }

    pub open spec fn bus_uknom(self, root: int) -> Bits {
        if self.has_bus(root) {
            self.bus[root].uknom
        } else {
            ZERO
        }
    }

    /// The conductors of a bus; all three phases where none was seen.
    pub open spec fn bus_phases(self, root: int) -> Seq<u8> {
        if self.has_bus(root) && self.bus[root].phases.len() > 0 {
            self.bus[root].phases
        } else {
            seq![1u8, 2u8, 3u8]
        }
    }

    /// Conductors seen on a bus, with or without a neutral.
    #[verifier::opaque]
    pub open spec fn touch(self, root: int, phases: Seq<u8>, neutral: bool) -> ReaderV {
        if self.has_bus(root) {
            let b = self.bus[root];
            ReaderV {
                bus: self.bus.update(
                    root,
                    BusAccumV {
                        phases: phases_put_n(b.phases, phases, phases.len()),
                        neutral: b.neutral || neutral,
                        ..b
                    },
                ),
                ..self
            }
        } else {
            self
        }
    }
}

impl Reader {
    pub fn warn(&mut self, text: String)
        ensures
            final(self)@ == old(self)@.warn(text@),
    {
        broadcast use group_views;

        reveal(ReaderV::warn);
        self.warnings.push(text);
    }

    pub fn skip(&mut self, class: &str)
        ensures
            final(self)@ == old(self)@.skip(class@),
    {
        broadcast use group_views;

        reveal(ReaderV::skip);
        self.skipped.push(class.to_owned());
    }

    pub fn unconnected(&mut self, class: &str, id: &str)
        ensures
            final(self)@ == old(self)@.unconnected(class@, id@),
    {
        let shown = debug(id);
        self.warn(
            cat5(
                "`",
                class,
                "` ",
                shown.as_str(),
                " has no cubicle for each of its terminals; skipped",
            ),
        );
    }

    pub fn default_phase(&mut self, id: &str)
        ensures
            final(self)@ == old(self)@.default_phase(id@),
    {
        broadcast use group_views;

        reveal(ReaderV::default_phase);
        self.defaulted.push(id.to_owned());
    }

    pub fn name_elem(&mut self, raw: &str) -> (r: String)
        ensures
            r@ == old(self)@.elem_name(raw@),
            final(self)@ == old(self)@.name_elem(raw@),
    {
        reveal(ReaderV::elem_name);
        reveal(ReaderV::name_elem);
        unique_name(&mut self.used_elem, raw, "elem")
    }

    pub fn name_linecode(&mut self, raw: &str) -> (r: String)
        ensures
            r@ == old(self)@.linecode_name(raw@),
            final(self)@ == old(self)@.name_linecode(raw@),
    {
        reveal(ReaderV::linecode_name);
        reveal(ReaderV::name_linecode);
        unique_name(&mut self.used_linecode, raw, "lc")
    }

    pub fn cached(&self, key: &str) -> (r: Option<String>)
        ensures
            opt_view(r) == self@.cached(key@),
    {
        reveal(ReaderV::cached);
        match get(&self.cache, key) {
            Some(i) => Some(self.cache[i].1.clone()),
            None => None,
        }
    }

    pub fn remember(&mut self, key: &str, name: &str)
        ensures
            final(self)@ == old(self)@.remember(key@, name@),
    {
        reveal(ReaderV::remember);
        put(&mut self.cache, key.to_owned(), name.to_owned());
    }

    pub fn say_explicit(&mut self, n: usize)
        ensures
            final(self)@ == old(self)@.say_explicit(n as nat),
    {
        reveal(ReaderV::say_explicit);
        if !self.said_explicit {
            let d = dec_usize(n);
            self.warn(
                cat3(
                    "explicit ",
                    d.as_str(),
                    "-conductor phase matrix used verbatim (natural coordinates; asymmetry and any neutral conductor preserved)",
                ),
            );
            self.said_explicit = true;
        }
    }

    pub fn say_expanded(&mut self)
        ensures
            final(self)@ == old(self)@.say_expanded(),
    {
        reveal(ReaderV::say_expanded);
        if !self.said_expanded {
            self.warn(
                "symmetrical TypLne expanded to a transposed 3x3; per-phase asymmetry is not represented by this type".to_owned(),
            );
            self.said_expanded = true;
        }
    }

    pub fn say_no_zero(&mut self)
        ensures
            final(self)@ == old(self)@.say_no_zero(),
    {
        reveal(ReaderV::say_no_zero);
        if !self.said_no_zero {
            self.warn(
                "one or more line types have no zero-sequence data; modelled uncoupled (Z0 = Z1)".to_owned(),
            );
            self.said_no_zero = true;
        }
    }

    pub fn say_two_phase(&mut self)
        ensures
            final(self)@ == old(self)@.say_two_phase(),
    {
        reveal(ReaderV::say_two_phase);
        if !self.said_two_phase {
            self.warn(
                "two-phase line sequence data is underdetermined; modelled with the positive-sequence self impedance and no mutual".to_owned(),
            );
            self.said_two_phase = true;
        }
    }

    pub fn bus_id(&self, root: usize) -> (r: String)
        ensures
            r@ == self@.bus_id(root as int),
    {
        assert(self@.bus.len() == self.bus.len());
        if root < self.bus.len() {
            assert(self@.bus[root as int] == self.bus@[root as int]@);
            if self.bus[root].live {
                return self.bus[root].id.clone();
            }
        }
        let e = String::new();
        assert(e@ =~= seq![]);
        e
    }

    pub fn bus_uknom(&self, root: usize) -> (r: Bits)
        ensures
            r == self@.bus_uknom(root as int),
    {
        assert(self@.bus.len() == self.bus.len());
        if root < self.bus.len() {
            assert(self@.bus[root as int] == self.bus@[root as int]@);
            if self.bus[root].live {
                return self.bus[root].uknom;
            }
        }
        ZERO
    }

    pub fn bus_phases(&self, root: usize) -> (r: Vec<u8>)
        ensures
            r@ == self@.bus_phases(root as int),
    {
        assert(self@.bus.len() == self.bus.len());
        if root < self.bus.len() {
            assert(self@.bus[root as int] == self.bus@[root as int]@);
            if self.bus[root].live && self.bus[root].phases.len() > 0 {
                return copy_bytes(&self.bus[root].phases);
            }
        }
        three()
    }

    pub fn touch(&mut self, root: usize, phases: &Vec<u8>, neutral: bool)
        ensures
            final(self)@ == old(self)@.touch(root as int, phases@, neutral),
    {
        reveal(ReaderV::touch);
        assert(self@.bus.len() == self.bus.len());
        if root < self.bus.len() {
            assert(self@.bus[root as int] == self.bus@[root as int]@);
            if self.bus[root].live {
                phases_put(&mut self.bus[root].phases, phases);
                if neutral {
                    self.bus[root].neutral = true;
                }
                assert(self@.bus =~= old(self)@.touch(root as int, phases@, neutral).bus);
            }
        }
    }
}

pub fn copy_bytes(v: &Vec<u8>) -> (r: Vec<u8>)
    ensures
        r@ == v@,
{
    let mut r: Vec<u8> = Vec::new();
    let mut i: usize = 0;
    while i < v.len()
        invariant
            i <= v.len(),
            r@ == v@.take(i as int),
        decreases v.len() - i,
    {
        r.push(v[i]);
        i = i + 1;
        assert(r@ =~= v@.take(i as int));
    }
    assert(r@ =~= v@);
    r
}

/// The three phase conductors.
pub fn three() -> (r: Vec<u8>)
    ensures
        r@ == seq![1u8, 2u8, 3u8],
{
    let mut r: Vec<u8> = Vec::new();
    r.push(1);
    r.push(2);
    r.push(3);
    assert(r@ =~= seq![1u8, 2u8, 3u8]);
    r
}

// ---- the case --------------------------------------------------------------

/// A document with its topology resolved: each connection, and the root of each
/// terminal position.
pub struct Case<'a> {
    pub doc: &'a DgsDoc,
    pub conns: Vec<Conn>,
    pub roots: Vec<usize>,
}

pub struct CaseV {
    pub doc: DgsDocV,
    pub conns: Seq<ConnV>,
    pub roots: Seq<usize>,
}

impl<'a> View for Case<'a> {
    type V = CaseV;

    open spec fn view(&self) -> CaseV {
        CaseV { doc: self.doc@, conns: views(self.conns@), roots: self.roots@ }
    }
}

impl CaseV {
    /// Connections stay within the terminals.
    pub open spec fn wf(self) -> bool {
        within(self.conns, self.roots.len())
    }

    pub open spec fn root(self, pos: usize) -> int {
        self.roots[pos as int] as int
    }
}

// ---- numbers off two rows --------------------------------------------------

/// The numbers that an element and its type give, asked for in turn: the type's
/// where the flag is set, else the element's. The first that is no number is
/// refused.
pub open spec fn numbers_n(
    m: Sem,
    decimal: char,
    el: (DgsTableV, DgsRowV),
    ty: (DgsTableV, DgsRowV),
    asks: Seq<(bool, Seq<char>, Bits)>,
    n: nat,
) -> Outcome<Seq<Bits>>
    decreases n,
{
    if n == 0 {
        Ok(seq![])
    } else {
        match numbers_n(m, decimal, el, ty, asks, (n - 1) as nat) {
            Err(e) => Err(e),
            Ok(v) => {
                let at = if asks[n - 1].0 {
                    ty
                } else {
                    el
                };
                match num_of(m, decimal, at.0, at.1, asks[n - 1].1, asks[n - 1].2) {
                    Ok(x) => Ok(v.push(x)),
                    Err(e) => Err(e),
                }
            },
        }
    }
}

pub open spec fn numbers_of(
    m: Sem,
    decimal: char,
    el: (DgsTableV, DgsRowV),
    ty: (DgsTableV, DgsRowV),
    asks: Seq<(bool, Seq<char>, Bits)>,
) -> Outcome<Seq<Bits>> {
    numbers_n(m, decimal, el, ty, asks, asks.len())
}

proof fn lemma_numbers_stop(
    m: Sem,
    decimal: char,
    el: (DgsTableV, DgsRowV),
    ty: (DgsTableV, DgsRowV),
    asks: Seq<(bool, Seq<char>, Bits)>,
    k: nat,
    n: nat,
)
    requires
        k <= n,
        numbers_n(m, decimal, el, ty, asks, k) is Err,
    ensures
        numbers_n(m, decimal, el, ty, asks, n) == numbers_n(m, decimal, el, ty, asks, k),
    decreases n,
{
    if k < n {
        lemma_numbers_stop(m, decimal, el, ty, asks, k, (n - 1) as nat);
    }
}

pub fn numbers<C: Calc>(
    math: &C,
    decimal: char,
    el: (&DgsTable, &DgsRow),
    ty: (&DgsTable, &DgsRow),
    asks: &Vec<(bool, &'static str, Bits)>,
) -> (r: Result<Vec<Bits>>)
    ensures
        match r {
            Ok(v) => numbers_of(
                math.sem(),
                decimal,
                (el.0@, el.1@),
                (ty.0@, ty.1@),
                views(asks@),
            ) == Ok::<Seq<Bits>, ErrorV>(v@) && v.len() == asks.len(),
            Err(e) => numbers_of(
                math.sem(),
                decimal,
                (el.0@, el.1@),
                (ty.0@, ty.1@),
                views(asks@),
            ) == Err::<Seq<Bits>, ErrorV>(e@),
        },
{
    let ghost elv = (el.0@, el.1@);
    let ghost tyv = (ty.0@, ty.1@);
    let mut out: Vec<Bits> = Vec::new();
    assert(out@ =~= seq![]);
    assert(views(asks@).len() == asks.len());
    let mut i: usize = 0;
    while i < asks.len()
        invariant
            i <= asks.len(),
            out.len() == i,
            views(asks@).len() == asks.len(),
            elv == (el.0@, el.1@),
            tyv == (ty.0@, ty.1@),
            numbers_n(math.sem(), decimal, elv, tyv, views(asks@), i as nat) == Ok::<
                Seq<Bits>,
                ErrorV,
            >(out@),
        decreases asks.len() - i,
    {
        let (typed, name, default) = asks[i];
        assert(views(asks@)[i as int] == (typed, name@, default));
        let at = if typed {
            ty
        } else {
            el
        };
        match num(math, decimal, at.0, at.1, name, default) {
            Ok(x) => {
                out.push(x);
            },
            Err(e) => {
                proof {
                    lemma_numbers_stop(
                        math.sem(),
                        decimal,
                        elv,
                        tyv,
                        views(asks@),
                        (i + 1) as nat,
                        views(asks@).len(),
                    );
                }
                return Err(e);
            },
        }
        i = i + 1;
    }
    Ok(out)
}

/// Numbers are as many as were asked for.
pub proof fn lemma_numbers_len(
    m: Sem,
    decimal: char,
    el: (DgsTableV, DgsRowV),
    ty: (DgsTableV, DgsRowV),
    asks: Seq<(bool, Seq<char>, Bits)>,
    n: nat,
)
    ensures
        numbers_n(m, decimal, el, ty, asks, n) matches Ok(v) ==> v.len() == n,
    decreases n,
{
    if n > 0 {
        lemma_numbers_len(m, decimal, el, ty, asks, (n - 1) as nat);
    }
}

// ---- extras ----------------------------------------------------------------

/// Columns that every element row has.
pub open spec fn structural(name: Seq<char>) -> bool {
    ||| name == "ID"@
    ||| name == "FID"@
    ||| name == "OP"@
    ||| name == "loc_name"@
    ||| name == "fold_id"@
    ||| name == "chr_name"@
}

pub fn is_structural(name: &str) -> (r: bool)
    ensures
        r == structural(name@),
{
    same(name, "ID") || same(name, "FID") || same(name, "OP") || same(name, "loc_name") || same(
        name,
        "fold_id",
    ) || same(name, "chr_name")
}

pub open spec fn extras_n(t: DgsTableV, r: DgsRowV, consumed: Seq<Seq<char>>, n: nat) -> Entries
    decreases n,
{
    if n == 0 {
        seq![]
    } else {
        let before = extras_n(t, r, consumed, (n - 1) as nat);
        let col = t.columns[n - 1];
        match cell_at(r, n - 1) {
            Some(v) => if structural(col) || consumed.contains(col) {
                before
            } else {
                put_of(before, "dgs_"@ + col, JsonV::Str(v))
            },
            None => before,
        }
    }
}

/// What a row says in columns that the mapping does not read, under their names
/// after `dgs_`.
#[verifier::opaque]
pub open spec fn extras_of(t: DgsTableV, r: DgsRowV, consumed: Seq<Seq<char>>) -> Entries {
    extras_n(t, r, consumed, t.columns.len())
}

/// Whether a word is among those of a list.
pub fn holds(list: &Vec<&'static str>, x: &str) -> (r: bool)
    ensures
        r == views(list@).contains(x@),
{
    let mut i: usize = 0;
    while i < list.len()
        invariant
            i <= list.len(),
            forall|k: int| 0 <= k < i ==> (#[trigger] views(list@)[k]) != x@,
        decreases list.len() - i,
    {
        assert(views(list@)[i as int] == list@[i as int]@);
        if same(list[i], x) {
            assert(views(list@)[i as int] == x@);
            return true;
        }
        i = i + 1;
    }
    false
}

pub fn extras(t: &DgsTable, r: &DgsRow, consumed: &Vec<&'static str>) -> (e: JsonMap)
    ensures
        e@ == extras_of(t@, r@, views(consumed@)),
{
    reveal(extras_of);
    let mut e = JsonMap::new();
    assert(t@.columns.len() == t.columns.len());
    assert(r@.cells.len() == r.cells.len());
    let mut i: usize = 0;
    while i < t.columns.len()
        invariant
            i <= t.columns.len(),
            t@.columns.len() == t.columns.len(),
            r@.cells.len() == r.cells.len(),
            e@ == extras_n(t@, r@, views(consumed@), i as nat),
        decreases t.columns.len() - i,
    {
        broadcast use lemma_json_view;

        assert(t@.columns[i as int] == t.columns@[i as int]@);
        let col = t.columns[i].as_str();
        if i < r.cells.len() {
            assert(r@.cells[i as int] == r.cells@[i as int]@);
            let v = r.cells[i].as_str();
            if !empty(v) && !is_structural(col) && !holds(consumed, col) {
                e.put(cat2("dgs_", col), Json::text(v));
            }
        }
        i = i + 1;
    }
    e
}

} // verus!
