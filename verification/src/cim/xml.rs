//! CIMXML: RDF/XML in which each element under the root is an object and each
//! element under an object a property.
//!
//! Markup starts at each `<`, so a document is read as the pieces between them.
//! Names go by their local part. A property is a reference where it has a
//! `resource`, else the text it holds; what lies deeper is passed over.

use vstd::prelude::*;

use crate::cim::store::{CimDocument, CimDocumentV, CimObject, CimObjectV, PropV, PropValue};
use crate::error::{outcome, Error, ErrorV, Outcome, Result};
use crate::numeral::{parse_digit_text, parse_digits};
use crate::text::{
    after_last, after_last_of, cat2, cat3, empty, ends_with, find, find_of, from_chars, group_views,
    has_prefix, has_suffix, is_space, opt_view, same, skip_spaces, space, split, split_of,
    starts_with, strip_prefix, strip_prefix_of, to_chars, trim, trim_of, trim_start, trim_start_of,
    views,
};

verus! {

/// A document that is not CIMXML.
pub open spec fn xml_refusal(message: Seq<char>) -> ErrorV {
    ErrorV::Xml { format: "distribution CIM"@, message }
}

fn xml_refuse(message: String) -> (r: Error)
    ensures
        r@ == xml_refusal(message@),
{
    Error::Xml { format: "distribution CIM", message }
}

// ---- entities --------------------------------------------------------------

/// A code point that is a character.
pub open spec fn is_scalar(n: nat) -> bool {
    n <= 0x10ffff && !(0xd800 <= n <= 0xdfff)
}

/// `char::from_u32`: the character of a code point, where it is one.
#[verifier::external_body]
fn char_of(n: u32) -> (r: Option<char>)
    ensures
        match r {
            Some(c) => is_scalar(n as nat) && c == n as char,
            None => !is_scalar(n as nat),
        },
{
    char::from_u32(n)
}

pub open spec fn hex_digit_value(c: char) -> Option<nat> {
    if '0' <= c && c <= '9' {
        Some((c as nat - 48) as nat)
    } else if 'a' <= c && c <= 'f' {
        Some((c as nat - 87) as nat)
    } else if 'A' <= c && c <= 'F' {
        Some((c as nat - 55) as nat)
    } else {
        None
    }
}

/// The value of the first `n` hexadecimal digits.
pub open spec fn hex_value(s: Seq<char>, n: nat) -> Option<nat>
    decreases n,
{
    if n == 0 {
        Some(0)
    } else {
        match (hex_value(s, (n - 1) as nat), hex_digit_value(s[n - 1])) {
            (Some(v), Some(d)) => Some(v * 16 + d),
            _ => None,
        }
    }
}

/// A hexadecimal code of one to eight digits.
pub open spec fn parse_hex_of(s: Seq<char>) -> Option<nat> {
    if 1 <= s.len() <= 8 {
        hex_value(s, s.len())
    } else {
        None
    }
}

proof fn lemma_hex_stop(s: Seq<char>, k: nat, n: nat)
    requires
        k <= n,
        hex_value(s, k) is None,
    ensures
        hex_value(s, n) is None,
    decreases n,
{
    if k < n {
        lemma_hex_stop(s, k, (n - 1) as nat);
    }
}

fn parse_hex(s: &str) -> (r: Option<u32>)
    ensures
        match r {
            Some(n) => parse_hex_of(s@) == Some(n as nat),
            None => parse_hex_of(s@) is None,
        },
{
    let v = to_chars(s);
    if v.len() < 1 || v.len() > 8 {
        return None;
    }
    let mut n: u64 = 0;
    let mut i: usize = 0;
    let mut bound: u64 = 1;
    assert(pow16(8) == 0x1_0000_0000) by {
        reveal_with_fuel(pow16, 9);
    }
    while i < v.len()
        invariant
            i <= v.len() <= 8,
            v@ == s@,
            n < bound,
            bound * pow16((8 - i) as nat) == 0x1_0000_0000,
            hex_value(v@, i as nat) == Some(n as nat),
        decreases v.len() - i,
    {
        let c = v[i];
        let d: u64 = if '0' <= c && c <= '9' {
            c as u64 - 48
        } else if 'a' <= c && c <= 'f' {
            c as u64 - 87
        } else if 'A' <= c && c <= 'F' {
            c as u64 - 55
        } else {
            proof {
                lemma_hex_stop(s@, (i + 1) as nat, s@.len());
            }
            return None;
        };
        proof {
            lemma_pow16((8 - i) as nat);
            let p = pow16((7 - i) as nat);
            assert(bound * (16 * p) == 0x1_0000_0000);
            assert((bound * 16) * p == bound * (16 * p)) by (nonlinear_arith);
            assert(p >= 1) by {
                lemma_pow16_positive((7 - i) as nat);
            }
            assert(bound * 16 <= 0x1_0000_0000) by (nonlinear_arith)
                requires
                    (bound * 16) * p == 0x1_0000_0000,
                    p >= 1,
            ;
        }
        n = n * 16 + d;
        bound = bound * 16;
        i = i + 1;
    }
    proof {
        lemma_pow16_positive((8 - i) as nat);
        let p = pow16((8 - i) as nat);
        assert(bound <= 0x1_0000_0000) by (nonlinear_arith)
            requires
                bound * p == 0x1_0000_0000,
                p >= 1,
        ;
    }
    Some(n as u32)
}

spec fn pow16(n: nat) -> nat
    decreases n,
{
    if n == 0 {
        1
    } else {
        16 * pow16((n - 1) as nat)
    }
}

proof fn lemma_pow16(n: nat)
    requires
        n > 0,
    ensures
        pow16(n) == 16 * pow16((n - 1) as nat),
{
}

proof fn lemma_pow16_positive(n: nat)
    ensures
        pow16(n) >= 1,
    decreases n,
{
    if n > 0 {
        lemma_pow16_positive((n - 1) as nat);
    }
}

/// The character that an entity stands for: one of the five named ones, or one
/// given by its code.
pub open spec fn entity_of(e: Seq<char>) -> Option<char> {
    if e == "amp"@ {
        Some('&')
    } else if e == "lt"@ {
        Some('<')
    } else if e == "gt"@ {
        Some('>')
    } else if e == "quot"@ {
        Some('"')
    } else if e == "apos"@ {
        Some('\'')
    } else {
        let code = match strip_prefix_of(e, "#x"@) {
            Some(h) => parse_hex_of(h),
            None => match strip_prefix_of(e, "#"@) {
                Some(d) => parse_digits(d, 0x10ffff),
                None => None,
            },
        };
        match code {
            Some(n) => if is_scalar(n) {
                Some(n as char)
            } else {
                None
            },
            None => None,
        }
    }
}

fn entity(e: &str) -> (r: Option<char>)
    ensures
        r == entity_of(e@),
{
    if same(e, "amp") {
        return Some('&');
    }
    if same(e, "lt") {
        return Some('<');
    }
    if same(e, "gt") {
        return Some('>');
    }
    if same(e, "quot") {
        return Some('"');
    }
    if same(e, "apos") {
        return Some('\'');
    }
    match strip_prefix(e, "#x") {
        Some(h) => match parse_hex(h.as_str()) {
            Some(n) => char_of(n),
            None => None,
        },
        None => match strip_prefix(e, "#") {
            Some(d) => match parse_digit_text(d.as_str(), 0x10ffff) {
                Some(n) => char_of(n as u32),
                None => None,
            },
            None => None,
        },
    }
}

/// The index of the first `c` in `s`, else its length.
pub open spec fn index_of(s: Seq<char>, c: char) -> nat
    decreases s.len(),
{
    if s.len() == 0 || s[0] == c {
        0
    } else {
        1 + index_of(s.skip(1), c)
    }
}

proof fn lemma_index_of(s: Seq<char>, c: char)
    ensures
        index_of(s, c) <= s.len(),
        index_of(s, c) < s.len() ==> s[index_of(s, c) as int] == c,
    decreases s.len(),
{
    if s.len() > 0 && s[0] != c {
        lemma_index_of(s.skip(1), c);
    }
}

fn index_in(v: &Vec<char>, from: usize, c: char) -> (r: usize)
    requires
        from <= v.len(),
    ensures
        from <= r <= v.len(),
        r == from + index_of(v@.skip(from as int), c),
{
    let mut i: usize = from;
    while i < v.len() && v[i] != c
        invariant
            from <= i <= v.len(),
            from + index_of(v@.skip(from as int), c) == i + index_of(v@.skip(i as int), c),
        decreases v.len() - i,
    {
        assert(v@.skip(i as int).skip(1) =~= v@.skip(i + 1));
        i = i + 1;
    }
    if i < v.len() {
        assert(v@.skip(i as int)[0] == c);
    }
    i
}

/// A character before a text, where there is one.
pub open spec fn cons(c: char, rest: Option<Seq<char>>) -> Option<Seq<char>> {
    match rest {
        Some(t) => Some(seq![c] + t),
        None => None,
    }
}

/// The text with its entities replaced; none where one is unknown or has no end.
pub open spec fn decode_of(s: Seq<char>) -> Option<Seq<char>>
    decreases s.len(),
{
    if s.len() == 0 {
        Some(seq![])
    } else if s[0] != '&' {
        cons(s[0], decode_of(s.skip(1)))
    } else {
        let n = index_of(s, ';');
        if n >= s.len() {
            None
        } else {
            match entity_of(s.subrange(1, n as int)) {
                Some(c) => cons(c, decode_of(s.skip(n as int + 1))),
                None => None,
            }
        }
    }
}

/// What a decoding comes to once `out` is decoded.
pub open spec fn after_out(out: Seq<char>, rest: Option<Seq<char>>) -> Option<Seq<char>> {
    match rest {
        Some(t) => Some(out + t),
        None => None,
    }
}

pub fn decode(s: &str) -> (r: Option<String>)
    ensures
        opt_view(r) == decode_of(s@),
{
    let v = to_chars(s);
    let mut out = String::new();
    let mut i: usize = 0;
    assert(v@.skip(0) =~= v@);
    proof {
        match decode_of(v@) {
            Some(t) => {
                assert(out@ + t =~= t);
            },
            None => {},
        }
    }
    while i < v.len()
        invariant
            i <= v.len(),
            v@ == s@,
            decode_of(v@) == after_out(out@, decode_of(v@.skip(i as int))),
        decreases v.len() - i,
    {
        let c = v[i];
        let ghost rest = v@.skip(i as int);
        if c != '&' {
            let ghost before = out@;
            out.push(c);
            assert(rest.skip(1) =~= v@.skip(i + 1));
            proof {
                match decode_of(v@.skip(i + 1)) {
                    Some(t) => {
                        assert(before + (seq![c] + t) =~= out@ + t);
                    },
                    None => {},
                }
            }
            i = i + 1;
        } else {
            let j = index_in(&v, i, ';');
            if j >= v.len() {
                return None;
            }
            proof {
                lemma_index_of(rest, ';');
                assert(j > i);
            }
            let e = from_chars(&v, i + 1, j);
            assert(rest.subrange(1, j - i) =~= v@.subrange(i + 1, j as int));
            match entity(e.as_str()) {
                Some(x) => {
                    let ghost before = out@;
                    out.push(x);
                    assert(rest.skip(j - i + 1) =~= v@.skip(j + 1));
                    proof {
                        match decode_of(v@.skip(j + 1)) {
                            Some(t) => {
                                assert(before + (seq![x] + t) =~= out@ + t);
                            },
                            None => {},
                        }
                    }
                    i = j + 1;
                },
                None => {
                    return None;
                },
            }
        }
    }
    assert(v@.skip(i as int) =~= seq![]);
    assert(out@ + Seq::<char>::empty() =~= out@);
    Some(out)
}

// ---- tags ------------------------------------------------------------------

/// What a character does to an open quotation.
pub open spec fn quote_step(quote: Option<char>, c: char) -> Option<char> {
    match quote {
        Some(q) => if c == q {
            None
        } else {
            quote
        },
        None => if c == '"' || c == '\'' {
            Some(c)
        } else {
            None
        },
    }
}

/// How many characters stand before the `>` that ends a tag: the first outside
/// quotation marks.
pub open spec fn tag_len(s: Seq<char>, quote: Option<char>) -> Option<nat>
    decreases s.len(),
{
    if s.len() == 0 {
        None
    } else if quote is None && s[0] == '>' {
        Some(0)
    } else {
        match tag_len(s.skip(1), quote_step(quote, s[0])) {
            Some(n) => Some(n + 1),
            None => None,
        }
    }
}

fn tag_end(v: &Vec<char>) -> (r: Option<usize>)
    ensures
        match r {
            Some(n) => tag_len(v@, None) == Some(n as nat) && n < v.len(),
            None => tag_len(v@, None) is None,
        },
{
    let mut quote: Option<char> = None;
    let mut i: usize = 0;
    assert(v@.skip(0) =~= v@);
    while i < v.len()
        invariant
            i <= v.len(),
            tag_len(v@, None) == (match tag_len(v@.skip(i as int), quote) {
                Some(n) => Some((n + i) as nat),
                None => None,
            }),
        decreases v.len() - i,
    {
        let c = v[i];
        assert(v@.skip(i as int).skip(1) =~= v@.skip(i + 1));
        let step = match quote {
            Some(q) => if c == q {
                None
            } else {
                Some(q)
            },
            None => {
                if c == '>' {
                    return Some(i);
                }
                if c == '"' || c == '\'' {
                    Some(c)
                } else {
                    None
                }
            },
        };
        quote = step;
        i = i + 1;
    }
    None
}

/// The length of the name at the start of a tag: up to the first white space.
pub open spec fn name_len(s: Seq<char>) -> nat
    decreases s.len(),
{
    if s.len() == 0 || is_space(s[0]) {
        0
    } else {
        1 + name_len(s.skip(1))
    }
}

fn name_end(v: &Vec<char>) -> (r: usize)
    ensures
        r == name_len(v@),
        r <= v.len(),
{
    let mut i: usize = 0;
    assert(v@.skip(0) =~= v@);
    while i < v.len() && !space(v[i])
        invariant
            i <= v.len(),
            name_len(v@) == i + name_len(v@.skip(i as int)),
        decreases v.len() - i,
    {
        assert(v@.skip(i as int).skip(1) =~= v@.skip(i + 1));
        i = i + 1;
    }
    i
}

/// The attributes of a tag, in order; none where they are not well formed.
pub open spec fn attrs_of(s: Seq<char>) -> Option<Seq<(Seq<char>, Seq<char>)>>
    decreases s.len(),
{
    let t = trim_start_of(s);
    if t.len() == 0 {
        Some(seq![])
    } else {
        let e = index_of(t, '=') as int;
        if e >= t.len() {
            None
        } else {
            let v = trim_start_of(t.skip(e + 1));
            if v.len() == 0 || (v[0] != '"' && v[0] != '\'') {
                None
            } else {
                let w = v.skip(1);
                let j = index_of(w, v[0]) as int;
                let rest = w.skip(j + 1);
                if j >= w.len() || rest.len() >= s.len() {
                    None
                } else {
                    match (decode_of(w.take(j)), attrs_of(rest)) {
                        (Some(value), Some(more)) => Some(
                            seq![(trim_of(t.take(e)), value)] + more,
                        ),
                        _ => None,
                    }
                }
            }
        }
    }
}

/// Leading white space is all that trimming takes.
pub proof fn lemma_skip_spaces(s: Seq<char>, i: int)
    requires
        0 <= i <= s.len(),
    ensures
        i <= skip_spaces(s, i) <= s.len(),
    decreases s.len() - i,
{
    if i < s.len() && is_space(s[i]) {
        lemma_skip_spaces(s, i + 1);
    }
}

proof fn lemma_trim_shorter(s: Seq<char>)
    ensures
        trim_start_of(s).len() <= s.len(),
{
    lemma_skip_spaces(s, 0);
}

fn attrs(s: &str) -> (r: Option<Vec<(String, String)>>)
    ensures
        match r {
            Some(v) => attrs_of(s@) == Some(views(v@)),
            None => attrs_of(s@) is None,
        },
    decreases s@.len(),
{
    broadcast use group_views;

    let t = trim_start(s);
    let tv = to_chars(t.as_str());
    if tv.len() == 0 {
        let none: Vec<(String, String)> = Vec::new();
        assert(views(none@) =~= seq![]);
        return Some(none);
    }
    let e = index_in(&tv, 0, '=');
    assert(tv@.skip(0) =~= tv@);
    if e >= tv.len() {
        return None;
    }
    let name = from_chars(&tv, 0, e);
    assert(name@ =~= tv@.take(e as int));
    let name = trim(name.as_str());
    let tail = from_chars(&tv, e + 1, tv.len());
    assert(tail@ =~= tv@.skip(e + 1));
    let v = trim_start(tail.as_str());
    let vv = to_chars(v.as_str());
    if vv.len() == 0 || (vv[0] != '"' && vv[0] != '\'') {
        return None;
    }
    let j = index_in(&vv, 1, vv[0]);
    let ghost w = vv@.skip(1);
    assert(j == 1 + index_of(w, vv@[0]));
    if j >= vv.len() {
        return None;
    }
    let raw = from_chars(&vv, 1, j);
    assert(raw@ =~= w.take(j - 1));
    let rest = from_chars(&vv, j + 1, vv.len());
    assert(rest@ =~= w.skip(j - 1 + 1));
    proof {
        lemma_trim_shorter(s@);
        lemma_trim_shorter(tail@);
    }
    let value = match decode(raw.as_str()) {
        Some(x) => x,
        None => {
            return None;
        },
    };
    match attrs(rest.as_str()) {
        Some(more) => {
            let mut out: Vec<(String, String)> = Vec::new();
            let ghost first = (name@, value@);
            let ghost tail_views = views(more@);
            out.push((name, value));
            let mut more = more;
            out.append(&mut more);
            assert(views(out@) =~= seq![first] + tail_views);
            Some(out)
        },
        None => None,
    }
}

/// The local part of a name.
pub open spec fn local(name: Seq<char>) -> Seq<char> {
    after_last_of(name, ':')
}

/// The value of the first attribute, from the `i`-th on, with a local name.
pub open spec fn attr_from(attrs: Seq<(Seq<char>, Seq<char>)>, name: Seq<char>, i: int) -> Option<
    Seq<char>,
>
    decreases attrs.len() - i,
{
    if i < 0 || i >= attrs.len() {
        None
    } else if local(attrs[i].0) == name {
        Some(attrs[i].1)
    } else {
        attr_from(attrs, name, i + 1)
    }
}

fn attr<'a>(attrs: &'a Vec<(String, String)>, name: &str) -> (r: Option<&'a String>)
    ensures
        match r {
            Some(s) => attr_from(views(attrs@), name@, 0) == Some(s@),
            None => attr_from(views(attrs@), name@, 0) is None,
        },
{
    let mut i: usize = 0;
    while i < attrs.len()
        invariant
            i <= attrs.len(),
            attr_from(views(attrs@), name@, 0) == attr_from(views(attrs@), name@, i as int),
        decreases attrs.len() - i,
    {
        assert(views(attrs@)[i as int] == (attrs@[i as int].0@, attrs@[i as int].1@));
        let own = after_last(attrs[i].0.as_str(), ':');
        if same(own.as_str(), name) {
            return Some(&attrs[i].1);
        }
        i = i + 1;
    }
    None
}

/// The namespace of CIM among the declared ones, from the `i`-th attribute on.
pub open spec fn namespace_from(attrs: Seq<(Seq<char>, Seq<char>)>, i: int) -> Option<Seq<char>>
    decreases attrs.len() - i,
{
    if i < 0 || i >= attrs.len() {
        None
    } else if has_prefix(attrs[i].0, "xmlns"@) && find_of(attrs[i].1, "CIM"@) is Some {
        Some(attrs[i].1)
    } else {
        namespace_from(attrs, i + 1)
    }
}

fn namespace(attrs: &Vec<(String, String)>) -> (r: Option<String>)
    ensures
        opt_view(r) == namespace_from(views(attrs@), 0),
{
    let cim = to_chars("CIM");
    let mut i: usize = 0;
    while i < attrs.len()
        invariant
            i <= attrs.len(),
            cim@ == "CIM"@,
            namespace_from(views(attrs@), 0) == namespace_from(views(attrs@), i as int),
        decreases attrs.len() - i,
    {
        assert(views(attrs@)[i as int] == (attrs@[i as int].0@, attrs@[i as int].1@));
        if starts_with(attrs[i].0.as_str(), "xmlns") {
            let value = to_chars(attrs[i].1.as_str());
            if find(&value, &cim).is_some() {
                return Some(attrs[i].1.clone());
            }
        }
        i = i + 1;
    }
    None
}

/// An identifier without the underscore that makes it an XML name.
pub open spec fn bare(s: Seq<char>) -> Seq<char> {
    match strip_prefix_of(s, "_"@) {
        Some(r) => r,
        None => s,
    }
}

/// What a reference leads to: the identifier of an object of the document, or
/// the address as it is.
pub open spec fn target_of(s: Seq<char>) -> Seq<char> {
    match strip_prefix_of(s, "urn:uuid:"@) {
        Some(r) => r,
        None => match strip_prefix_of(s, "#"@) {
            Some(r) => bare(r),
            None => s,
        },
    }
}

fn bare_id(s: &str) -> (r: String)
    ensures
        r@ == bare(s@),
{
    match strip_prefix(s, "_") {
        Some(r) => r,
        None => s.to_owned(),
    }
}

fn target(s: &str) -> (r: String)
    ensures
        r@ == target_of(s@),
{
    match strip_prefix(s, "urn:uuid:") {
        Some(r) => r,
        None => match strip_prefix(s, "#") {
            Some(r) => bare_id(r.as_str()),
            None => s.to_owned(),
        },
    }
}

/// The identifier of an object; empty where it gives none.
pub open spec fn object_id(attrs: Seq<(Seq<char>, Seq<char>)>) -> Seq<char> {
    match attr_from(attrs, "ID"@, 0) {
        Some(s) => bare(s),
        None => match attr_from(attrs, "about"@, 0) {
            Some(s) => target_of(s),
            None => seq![],
        },
    }
}

fn id_in(attrs: &Vec<(String, String)>) -> (r: String)
    ensures
        r@ == object_id(views(attrs@)),
{
    match attr(attrs, "ID") {
        Some(s) => bare_id(s.as_str()),
        None => match attr(attrs, "about") {
            Some(s) => target(s.as_str()),
            None => {
                let e = String::new();
                assert(e@ =~= seq![]);
                e
            },
        },
    }
}

/// A start tag: its name, its attributes, and whether it ends the element too.
pub struct StartV {
    pub name: Seq<char>,
    pub attrs: Seq<(Seq<char>, Seq<char>)>,
    pub empty: bool,
}

pub struct Start {
    pub name: String,
    pub attrs: Vec<(String, String)>,
    pub empty: bool,
}

impl View for Start {
    type V = StartV;

    open spec fn view(&self) -> StartV {
        StartV { name: self.name@, attrs: views(self.attrs@), empty: self.empty }
    }
}

/// A start tag without its brackets.
pub open spec fn start_of(tag: Seq<char>) -> Option<StartV> {
    let empty = has_suffix(tag, "/"@);
    let body = if empty {
        tag.take(tag.len() - 1)
    } else {
        tag
    };
    let n = name_len(body) as int;
    if n == 0 {
        None
    } else {
        match attrs_of(body.skip(n)) {
            Some(attrs) => Some(StartV { name: body.take(n), attrs, empty }),
            None => None,
        }
    }
}

fn start(tag: &str) -> (r: Option<Start>)
    ensures
        opt_view(r) == start_of(tag@),
{
    let v = to_chars(tag);
    let empty = ends_with(tag, "/");
    proof {
        reveal_strlit("/");
    }
    let k = if empty {
        v.len() - 1
    } else {
        v.len()
    };
    let body = from_chars(&v, 0, k);
    assert(body@ =~= if empty {
        tag@.take(tag@.len() - 1)
    } else {
        tag@
    });
    let b = to_chars(body.as_str());
    let n = name_end(&b);
    if n == 0 {
        return None;
    }
    let name = from_chars(&b, 0, n);
    assert(name@ =~= body@.take(n as int));
    let rest = from_chars(&b, n, b.len());
    assert(rest@ =~= body@.skip(n as int));
    match attrs(rest.as_str()) {
        Some(a) => Some(Start { name, attrs: a, empty }),
        None => None,
    }
}

// ---- documents -------------------------------------------------------------

/// What markup goes on past the next `<`.
#[derive(Clone, Copy, PartialEq, Eq, Structural)]
pub enum Mode {
    Plain,
    Comment,
    Instruction,
    Data,
}

/// A document read so far: the names of the open elements from the root on,
/// whether the root has ended, and the object and property being read.
pub struct XmlV {
    pub mode: Mode,
    pub path: Seq<Seq<char>>,
    pub closed: bool,
    pub namespace: Option<Seq<char>>,
    pub description: Option<Seq<char>>,
    pub objects: Seq<CimObjectV>,
    pub object: CimObjectV,
    pub reference: Option<Seq<char>>,
    pub text: Seq<char>,
}

pub struct Xml {
    pub mode: Mode,
    pub path: Vec<String>,
    pub closed: bool,
    pub namespace: Option<String>,
    pub description: Option<String>,
    pub objects: Vec<CimObject>,
    pub object: CimObject,
    pub reference: Option<String>,
    pub text: String,
}

impl View for Xml {
    type V = XmlV;

    open spec fn view(&self) -> XmlV {
        XmlV {
            mode: self.mode,
            path: views(self.path@),
            closed: self.closed,
            namespace: opt_view(self.namespace),
            description: opt_view(self.description),
            objects: views(self.objects@),
            object: self.object@,
            reference: opt_view(self.reference),
            text: self.text@,
        }
    }
}

/// No object.
pub open spec fn no_object() -> CimObjectV {
    CimObjectV { class: seq![], id: seq![], props: seq![] }
}

/// A document before its first element.
pub open spec fn xml_none() -> XmlV {
    XmlV {
        mode: Mode::Plain,
        path: seq![],
        closed: false,
        namespace: None,
        description: None,
        objects: seq![],
        object: no_object(),
        reference: None,
        text: seq![],
    }
}

/// The value of a property: a reference where it has one, else its text.
pub open spec fn prop_value(reference: Option<Seq<char>>, text: Seq<char>) -> PropV {
    match reference {
        Some(r) => PropV::Ref(target_of(r)),
        None => PropV::Text(text),
    }
}

/// The text of the first property, from the `i`-th on, with this key.
pub open spec fn prop_text_from(props: Seq<(Seq<char>, PropV)>, key: Seq<char>, i: int) -> Option<
    Seq<char>,
>
    decreases props.len() - i,
{
    if i < 0 || i >= props.len() {
        None
    } else if props[i].0 == key {
        Some(props[i].1.text())
    } else {
        prop_text_from(props, key, i + 1)
    }
}

/// The innermost element ends.
pub open spec fn close_step(st: XmlV) -> XmlV {
    let name = st.path.last();
    let up = XmlV { path: st.path.drop_last(), ..st };
    if st.path.len() == 1 {
        XmlV { closed: true, ..up }
    } else if st.path.len() == 2 {
        if st.object.class == "FullModel"@ {
            XmlV {
                description: match st.description {
                    Some(d) => Some(d),
                    None => prop_text_from(st.object.props, "Model.description"@, 0),
                },
                object: no_object(),
                ..up
            }
        } else {
            XmlV { objects: st.objects.push(st.object), object: no_object(), ..up }
        }
    } else if st.path.len() == 3 {
        XmlV {
            object: CimObjectV {
                props: st.object.props.push((local(name), prop_value(st.reference, st.text))),
                ..st.object
            },
            reference: None,
            text: seq![],
            ..up
        }
    } else {
        up
    }
}

/// An element starts: the root, an object, a property, or what lies deeper.
pub open spec fn open_step(st: XmlV, s: StartV) -> Outcome<XmlV> {
    let down = XmlV { path: st.path.push(s.name), ..st };
    let opened = if st.path.len() == 0 {
        if st.closed {
            Err(xml_refusal("an element follows the root element"@))
        } else if local(s.name) != "RDF"@ {
            Err(xml_refusal("the root element is `"@ + s.name + "`, not `rdf:RDF`"@))
        } else {
            Ok(XmlV { namespace: namespace_from(s.attrs, 0), ..down })
        }
    } else if st.path.len() == 1 {
        Ok(
            XmlV {
                object: CimObjectV {
                    class: local(s.name),
                    id: object_id(s.attrs),
                    props: seq![],
                },
                ..down
            },
        )
    } else if st.path.len() == 2 {
        Ok(XmlV { reference: attr_from(s.attrs, "resource"@, 0), text: seq![], ..down })
    } else {
        Ok(down)
    };
    match opened {
        Ok(x) => if s.empty {
            Ok(close_step(x))
        } else {
            Ok(x)
        },
        Err(e) => Err(e),
    }
}

/// An end tag: it closes the innermost element, and by its name.
pub open spec fn end_step(st: XmlV, name: Seq<char>) -> Outcome<XmlV> {
    if st.path.len() == 0 {
        Err(xml_refusal("`</"@ + name + ">` closes nothing"@))
    } else if st.path.last() != name {
        Err(xml_refusal("`</"@ + name + ">` closes `"@ + st.path.last() + "`"@))
    } else {
        Ok(close_step(st))
    }
}

/// Characters as they are, which count inside a property.
pub open spec fn raw_step(st: XmlV, t: Seq<char>) -> XmlV {
    if st.path.len() == 3 {
        XmlV { text: st.text + t, ..st }
    } else {
        st
    }
}

/// Text with its entities, which counts inside a property.
pub open spec fn text_step(st: XmlV, t: Seq<char>) -> Outcome<XmlV> {
    if st.path.len() == 3 {
        match decode_of(t) {
            Some(d) => Ok(XmlV { text: st.text + d, ..st }),
            None => Err(xml_refusal("`"@ + t + "` refers to no character"@)),
        }
    } else {
        Ok(st)
    }
}

pub open spec fn then_text(st: Outcome<XmlV>, t: Seq<char>) -> Outcome<XmlV> {
    match st {
        Ok(x) => text_step(x, t),
        Err(e) => Err(e),
    }
}

/// Markup that ends at `end`, which may be past the next `<`.
pub open spec fn until_step(
    st: XmlV,
    body: Seq<char>,
    end: Seq<char>,
    mode: Mode,
) -> Outcome<XmlV> {
    match find_of(body, end) {
        Some(k) => text_step(XmlV { mode: Mode::Plain, ..st }, body.skip(k + end.len())),
        None => Ok(XmlV { mode, ..st }),
    }
}

/// Character data up to `]]>`.
pub open spec fn data_step(st: XmlV, body: Seq<char>) -> Outcome<XmlV> {
    match find_of(body, "]]>"@) {
        Some(k) => text_step(
            raw_step(XmlV { mode: Mode::Plain, ..st }, body.take(k)),
            body.skip(k + 3),
        ),
        None => Ok(raw_step(XmlV { mode: Mode::Data, ..st }, body)),
    }
}

/// A tag and the text behind it.
pub open spec fn tag_step(st: XmlV, piece: Seq<char>) -> Outcome<XmlV> {
    match tag_len(piece, None) {
        None => Err(xml_refusal("`<"@ + piece + "` is a tag without an end"@)),
        Some(n) => {
            let tag = piece.take(n as int);
            let rest = piece.skip(n as int + 1);
            match strip_prefix_of(tag, "/"@) {
                Some(name) => then_text(end_step(st, trim_of(name)), rest),
                None => match start_of(tag) {
                    Some(s) => then_text(open_step(st, s), rest),
                    None => Err(xml_refusal("`<"@ + tag + ">` is not well formed"@)),
                },
            }
        },
    }
}

/// What follows a `<`.
pub open spec fn piece_step(st: XmlV, piece: Seq<char>) -> Outcome<XmlV> {
    match st.mode {
        Mode::Comment => until_step(st, piece, "-->"@, Mode::Comment),
        Mode::Instruction => until_step(st, piece, "?>"@, Mode::Instruction),
        Mode::Data => data_step(st, "<"@ + piece),
        Mode::Plain => match strip_prefix_of(piece, "!--"@) {
            Some(body) => until_step(st, body, "-->"@, Mode::Comment),
            None => match strip_prefix_of(piece, "![CDATA["@) {
                Some(body) => data_step(st, body),
                None => match strip_prefix_of(piece, "?"@) {
                    Some(body) => until_step(st, body, "?>"@, Mode::Instruction),
                    None => if has_prefix(piece, "!"@) {
                        declaration_step(st, piece)
                    } else {
                        tag_step(st, piece)
                    },
                },
            },
        },
    }
}

/// A declaration ends at the first `>`; one with declarations inside it is not
/// read.
pub open spec fn declaration_step(st: XmlV, piece: Seq<char>) -> Outcome<XmlV> {
    let n = index_of(piece, '>') as int;
    if n >= piece.len() || index_of(piece.take(n), '[') < n {
        Err(xml_refusal("`<"@ + piece + "` is a declaration that cannot be read"@))
    } else {
        text_step(st, piece.skip(n + 1))
    }
}

/// The document after the first `n` pieces; the piece before the first `<` holds
/// no markup.
pub open spec fn pieces_n(pieces: Seq<Seq<char>>, n: nat) -> Outcome<XmlV>
    decreases n,
{
    if n <= 1 {
        Ok(xml_none())
    } else {
        match pieces_n(pieces, (n - 1) as nat) {
            Ok(st) => piece_step(st, pieces[n - 1]),
            Err(e) => Err(e),
        }
    }
}

/// The document a reading ends in: the root has ended, and no markup is open.
pub open spec fn finished(st: XmlV) -> Outcome<CimDocumentV> {
    if st.closed && st.path.len() == 0 && st.mode == Mode::Plain {
        Ok(
            CimDocumentV {
                objects: st.objects,
                cim_namespace: st.namespace,
                description: st.description,
            },
        )
    } else {
        Err(xml_refusal("the document ends before its root element does"@))
    }
}

/// The document in a text, or why it is none.
pub open spec fn cimxml_of(text: Seq<char>) -> Outcome<CimDocumentV> {
    let pieces = split_of(text, '<');
    match pieces_n(pieces, pieces.len()) {
        Ok(st) => finished(st),
        Err(e) => Err(e),
    }
}

proof fn lemma_pieces_stop(pieces: Seq<Seq<char>>, k: nat, n: nat)
    requires
        k <= n,
        pieces_n(pieces, k) is Err,
    ensures
        pieces_n(pieces, n) == pieces_n(pieces, k),
    decreases n,
{
    if k < n {
        lemma_pieces_stop(pieces, k, (n - 1) as nat);
    }
}

fn object_none() -> (r: CimObject)
    ensures
        r@ == no_object(),
{
    let r = CimObject { class: String::new(), id: String::new(), props: Vec::new() };
    assert(r@.class =~= seq![] && r@.id =~= seq![] && r@.props =~= seq![]);
    r
}

fn prop_text(props: &Vec<(String, PropValue)>, key: &str) -> (r: Option<String>)
    ensures
        opt_view(r) == prop_text_from(views(props@), key@, 0),
{
    let mut i: usize = 0;
    while i < props.len()
        invariant
            i <= props.len(),
            prop_text_from(views(props@), key@, 0) == prop_text_from(
                views(props@),
                key@,
                i as int,
            ),
        decreases props.len() - i,
    {
        assert(views(props@)[i as int] == (props@[i as int].0@, props@[i as int].1@));
        if same(props[i].0.as_str(), key) {
            return Some(props[i].1.as_str().clone());
        }
        i = i + 1;
    }
    None
}

fn empty_text() -> (r: String)
    ensures
        r@ == Seq::<char>::empty(),
{
    String::new()
}

impl Xml {
    fn close(&mut self)
        requires
            old(self)@.path.len() > 0,
        ensures
            final(self)@ == close_step(old(self)@),
    {
        broadcast use group_views;

        let ghost was = self@;
        let depth = self.path.len();
        assert(was.path.len() == depth);
        let name = match self.path.pop() {
            Some(n) => n,
            None => empty_text(),
        };
        assert(views(self.path@) =~= was.path.drop_last());
        assert(name@ == was.path.last());
        if depth == 1 {
            self.closed = true;
        } else if depth == 2 {
            if same(self.object.class.as_str(), "FullModel") {
                if self.description.is_none() {
                    self.description = prop_text(&self.object.props, "Model.description");
                }
                self.object = object_none();
            } else {
                let mut o = object_none();
                std::mem::swap(&mut o, &mut self.object);
                self.objects.push(o);
            }
        } else if depth == 3 {
            let mut t = empty_text();
            std::mem::swap(&mut t, &mut self.text);
            let value = match &self.reference {
                Some(r) => PropValue::Ref(target(r.as_str())),
                None => PropValue::Text(t),
            };
            let key = after_last(name.as_str(), ':');
            self.object.props.push((key, value));
            self.reference = None;
        }
    }

    fn open(&mut self, s: Start) -> (r: Result<()>)
        ensures
            match r {
                Ok(_) => open_step(old(self)@, s@) == Ok::<XmlV, ErrorV>(final(self)@),
                Err(e) => open_step(old(self)@, s@) == Err::<XmlV, ErrorV>(e@),
            },
    {
        broadcast use group_views;

        let depth = self.path.len();
        assert(self@.path.len() == depth);
        let own = after_last(s.name.as_str(), ':');
        if depth == 0 {
            if self.closed {
                return Err(xml_refuse("an element follows the root element".to_owned()));
            }
            if !same(own.as_str(), "RDF") {
                return Err(
                    xml_refuse(
                        cat3("the root element is `", s.name.as_str(), "`, not `rdf:RDF`"),
                    ),
                );
            }
            self.namespace = namespace(&s.attrs);
        } else if depth == 1 {
            let props: Vec<(String, PropValue)> = Vec::new();
            assert(views(props@) =~= seq![]);
            self.object = CimObject { class: own, id: id_in(&s.attrs), props };
        } else if depth == 2 {
            self.reference =
            match attr(&s.attrs, "resource") {
                Some(r) => Some(r.clone()),
                None => None,
            };
            self.text = empty_text();
        }
        self.path.push(s.name);
        if s.empty {
            self.close();
        }
        Ok(())
    }

    fn end(&mut self, name: &str) -> (r: Result<()>)
        ensures
            match r {
                Ok(_) => end_step(old(self)@, name@) == Ok::<XmlV, ErrorV>(final(self)@),
                Err(e) => end_step(old(self)@, name@) == Err::<XmlV, ErrorV>(e@),
            },
    {
        let depth = self.path.len();
        assert(self@.path.len() == depth);
        if depth == 0 {
            return Err(xml_refuse(cat3("`</", name, ">` closes nothing")));
        }
        assert(self@.path.last() == self.path@[depth - 1]@);
        if !same(self.path[depth - 1].as_str(), name) {
            let head = cat3("`</", name, ">` closes `");
            return Err(
                xml_refuse(cat3(head.as_str(), self.path[depth - 1].as_str(), "`")),
            );
        }
        self.close();
        Ok(())
    }

    fn raw(&mut self, t: &str)
        ensures
            final(self)@ == raw_step(old(self)@, t@),
    {
        assert(self@.path.len() == self.path.len());
        if self.path.len() == 3 {
            self.text.append(t);
        }
    }

    fn add_text(&mut self, t: &str) -> (r: Result<()>)
        ensures
            match r {
                Ok(_) => text_step(old(self)@, t@) == Ok::<XmlV, ErrorV>(final(self)@),
                Err(e) => text_step(old(self)@, t@) == Err::<XmlV, ErrorV>(e@),
            },
    {
        assert(self@.path.len() == self.path.len());
        if self.path.len() == 3 {
            match decode(t) {
                Some(d) => {
                    self.text.append(d.as_str());
                },
                None => {
                    return Err(xml_refuse(cat3("`", t, "` refers to no character")));
                },
            }
        }
        Ok(())
    }

    fn until(&mut self, body: &str, end: &str, mode: Mode) -> (r: Result<()>)
        ensures
            match r {
                Ok(_) => until_step(old(self)@, body@, end@, mode) == Ok::<XmlV, ErrorV>(
                    final(self)@,
                ),
                Err(e) => until_step(old(self)@, body@, end@, mode) == Err::<XmlV, ErrorV>(e@),
            },
    {
        let v = to_chars(body);
        let e = to_chars(end);
        match find(&v, &e) {
            Some(k) => {
                self.mode = Mode::Plain;
                let rest = from_chars(&v, k + e.len(), v.len());
                assert(rest@ =~= body@.skip(k + end@.len()));
                self.add_text(rest.as_str())
            },
            None => {
                self.mode = mode;
                Ok(())
            },
        }
    }

    fn data(&mut self, body: &str) -> (r: Result<()>)
        ensures
            match r {
                Ok(_) => data_step(old(self)@, body@) == Ok::<XmlV, ErrorV>(final(self)@),
                Err(e) => data_step(old(self)@, body@) == Err::<XmlV, ErrorV>(e@),
            },
    {
        let v = to_chars(body);
        let e = to_chars("]]>");
        proof {
            reveal_strlit("]]>");
        }
        match find(&v, &e) {
            Some(k) => {
                self.mode = Mode::Plain;
                let head = from_chars(&v, 0, k);
                assert(head@ =~= body@.take(k as int));
                self.raw(head.as_str());
                let rest = from_chars(&v, k + 3, v.len());
                assert(rest@ =~= body@.skip(k + 3));
                self.add_text(rest.as_str())
            },
            None => {
                self.mode = Mode::Data;
                self.raw(body);
                Ok(())
            },
        }
    }

    fn tag(&mut self, piece: &str) -> (r: Result<()>)
        ensures
            match r {
                Ok(_) => tag_step(old(self)@, piece@) == Ok::<XmlV, ErrorV>(final(self)@),
                Err(e) => tag_step(old(self)@, piece@) == Err::<XmlV, ErrorV>(e@),
            },
    {
        let v = to_chars(piece);
        let n = match tag_end(&v) {
            Some(n) => n,
            None => {
                return Err(xml_refuse(cat3("`<", piece, "` is a tag without an end")));
            },
        };
        let tag = from_chars(&v, 0, n);
        assert(tag@ =~= piece@.take(n as int));
        let rest = from_chars(&v, n + 1, v.len());
        assert(rest@ =~= piece@.skip(n as int + 1));
        let done = match strip_prefix(tag.as_str(), "/") {
            Some(name) => {
                let name = trim(name.as_str());
                self.end(name.as_str())
            },
            None => match start(tag.as_str()) {
                Some(s) => self.open(s),
                None => {
                    return Err(xml_refuse(cat3("`<", tag.as_str(), ">` is not well formed")));
                },
            },
        };
        match done {
            Ok(_) => self.add_text(rest.as_str()),
            Err(e) => Err(e),
        }
    }

    fn declaration(&mut self, piece: &str) -> (r: Result<()>)
        ensures
            match r {
                Ok(_) => declaration_step(old(self)@, piece@) == Ok::<XmlV, ErrorV>(final(self)@),
                Err(e) => declaration_step(old(self)@, piece@) == Err::<XmlV, ErrorV>(e@),
            },
    {
        let v = to_chars(piece);
        let n = index_in(&v, 0, '>');
        assert(v@.skip(0) =~= v@);
        let head = from_chars(&v, 0, n);
        assert(head@ =~= piece@.take(n as int));
        let h = to_chars(head.as_str());
        let k = index_in(&h, 0, '[');
        assert(h@.skip(0) =~= h@);
        if n >= v.len() || k < n {
            return Err(
                xml_refuse(cat3("`<", piece, "` is a declaration that cannot be read")),
            );
        }
        let rest = from_chars(&v, n + 1, v.len());
        assert(rest@ =~= piece@.skip(n + 1));
        self.add_text(rest.as_str())
    }

    fn piece(&mut self, piece: &str) -> (r: Result<()>)
        ensures
            match r {
                Ok(_) => piece_step(old(self)@, piece@) == Ok::<XmlV, ErrorV>(final(self)@),
                Err(e) => piece_step(old(self)@, piece@) == Err::<XmlV, ErrorV>(e@),
            },
    {
        match self.mode {
            Mode::Comment => self.until(piece, "-->", Mode::Comment),
            Mode::Instruction => self.until(piece, "?>", Mode::Instruction),
            Mode::Data => {
                let whole = cat2("<", piece);
                self.data(whole.as_str())
            },
            Mode::Plain => match strip_prefix(piece, "!--") {
                Some(body) => self.until(body.as_str(), "-->", Mode::Comment),
                None => match strip_prefix(piece, "![CDATA[") {
                    Some(body) => self.data(body.as_str()),
                    None => match strip_prefix(piece, "?") {
                        Some(body) => self.until(body.as_str(), "?>", Mode::Instruction),
                        None => if starts_with(piece, "!") {
                            self.declaration(piece)
                        } else {
                            self.tag(piece)
                        },
                    },
                },
            },
        }
    }
}

/// Reads a CIMXML document.
pub fn parse_cimxml(text: &str) -> (r: Result<CimDocument>)
    ensures
        outcome(r) == cimxml_of(text@),
{
    let pieces = split(text, '<');
    assert(views(pieces@).len() == pieces.len());
    let mut x = Xml {
        mode: Mode::Plain,
        path: Vec::new(),
        closed: false,
        namespace: None,
        description: None,
        objects: Vec::new(),
        object: object_none(),
        reference: None,
        text: String::new(),
    };
    assert(x@.path =~= seq![] && x@.objects =~= seq![] && x@.text =~= seq![]);
    let mut i: usize = 1;
    while i < pieces.len()
        invariant
            1 <= i <= pieces.len(),
            views(pieces@).len() == pieces.len(),
            views(pieces@) == split_of(text@, '<'),
            pieces_n(views(pieces@), i as nat) == Ok::<XmlV, ErrorV>(x@),
        decreases pieces.len() - i,
    {
        assert(views(pieces@)[i as int] == pieces@[i as int]@);
        match x.piece(pieces[i].as_str()) {
            Ok(_) => {},
            Err(e) => {
                proof {
                    lemma_pieces_stop(views(pieces@), (i + 1) as nat, views(pieces@).len());
                }
                return Err(e);
            },
        }
        i = i + 1;
    }
    assert(x@.path.len() == x.path.len());
    if x.closed && x.path.len() == 0 && x.mode == Mode::Plain {
        Ok(
            CimDocument {
                objects: x.objects,
                cim_namespace: x.namespace,
                description: x.description,
            },
        )
    } else {
        Err(xml_refuse("the document ends before its root element does".to_owned()))
    }
}

} // verus!
