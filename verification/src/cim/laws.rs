//! The writer against the reader: a written document reads back as the objects
//! that were written.

use vstd::prelude::*;
use vstd::utf8::encode_utf8;

use crate::cim::store::{CimDocumentV, CimObjectV, PropV};
use crate::cim::write::{
    cim_header, code_n, det_mrid_of, esc_char, esc_n, esc_of, mrid_of, node_of, phase_code_of,
    phase_letter_of, phases_n, terminal_id, DocV,
};
use crate::cim::xml::{
    attr_from, attrs_of, bare, cimxml_of, cons, decode_of, end_step, entity_of, index_of, local,
    name_len, namespace_from, no_object, open_step, piece_step, pieces_n, start_of, tag_len,
    tag_step, target_of, then_text, xml_none, Mode, StartV, XmlV,
};
use crate::error::{ErrorV, Outcome};
use crate::json::{get_of, str_of, Entries};
use crate::model::{bus_from, linecode_from, DistBusV, DistLineCodeV, DistNetworkV};
use crate::mrid::{fnv_of, high_of, low_of, uuid_of};
use crate::numeral::{dec_of, hex_digit, hex_of};
use crate::text::{
    after_last_from, find_from, find_of, has_prefix, has_suffix, is_space, lemma_split_append,
    lemma_split_none, skip_spaces, split_from, split_of, strip_prefix_of, trim_of, trim_start_of,
};

verus! {

// ---- escaping --------------------------------------------------------------

proof fn lemma_esc_first(s: Seq<char>, n: nat)
    requires
        1 <= n <= s.len(),
    ensures
        esc_n(s, n) == esc_char(s[0]) + esc_n(s.skip(1), (n - 1) as nat),
    decreases n,
{
    if n == 1 {
        assert(esc_n(s, 0) =~= seq![]);
        assert(esc_n(s, 1) =~= esc_char(s[0]));
        assert(esc_n(s.skip(1), 0) =~= seq![]);
        assert(esc_char(s[0]) + Seq::<char>::empty() =~= esc_char(s[0]));
    } else {
        lemma_esc_first(s, (n - 1) as nat);
        assert(s.skip(1)[n - 2] == s[n - 1]);
        assert(esc_n(s, n) =~= esc_char(s[0]) + (esc_n(s.skip(1), (n - 2) as nat) + esc_char(
            s[n - 1],
        )));
    }
}

/// An entity at the start of a text is its character.
proof fn lemma_decode_entity(e: Seq<char>, rest: Seq<char>, c: char)
    requires
        entity_of(e) == Some(c),
        forall|i: int| 0 <= i < e.len() ==> e[i] != ';',
    ensures
        decode_of(seq!['&'] + e + seq![';'] + rest) == cons(c, decode_of(rest)),
{
    let s = seq!['&'] + e + seq![';'] + rest;
    lemma_index_at(s, ';', 1 + e.len());
    assert(s.subrange(1, 1 + e.len() as int) =~= e);
    assert(s.skip(e.len() as int + 2) =~= rest);
}

/// The first of a character is at `n`, where none stands before.
proof fn lemma_index_at(s: Seq<char>, c: char, n: nat)
    requires
        n < s.len(),
        s[n as int] == c,
        forall|i: int| 0 <= i < n ==> s[i] != c,
    ensures
        index_of(s, c) == n,
    decreases n,
{
    if n > 0 {
        assert(s[0] != c);
        assert(s.skip(1)[n - 1] == s[n as int]);
        assert forall|i: int| 0 <= i < n - 1 implies s.skip(1)[i] != c by {
            assert(s.skip(1)[i] == s[i + 1]);
        }
        lemma_index_at(s.skip(1), c, (n - 1) as nat);
    }
}

/// What was escaped reads back as it was.
pub proof fn lemma_escaping_is_undone(s: Seq<char>)
    ensures
        decode_of(esc_of(s)) == Some(s),
    decreases s.len(),
{
    if s.len() == 0 {
        assert(esc_of(s) =~= seq![]);
        assert(s =~= seq![]);
    } else {
        let t = s.skip(1);
        lemma_escaping_is_undone(t);
        lemma_esc_first(s, s.len());
        assert(esc_of(s) == esc_char(s[0]) + esc_of(t));
        assert(seq![s[0]] + t =~= s);
        reveal_strlit("&amp;");
        reveal_strlit("&lt;");
        reveal_strlit("&gt;");
        reveal_strlit("amp");
        reveal_strlit("lt");
        reveal_strlit("gt");
        if s[0] == '&' {
            assert("&amp;"@ + esc_of(t) =~= seq!['&'] + "amp"@ + seq![';'] + esc_of(t));
            lemma_decode_entity("amp"@, esc_of(t), '&');
        } else if s[0] == '<' {
            assert("lt"@.len() != "amp"@.len());
            assert("&lt;"@ + esc_of(t) =~= seq!['&'] + "lt"@ + seq![';'] + esc_of(t));
            lemma_decode_entity("lt"@, esc_of(t), '<');
        } else if s[0] == '>' {
            assert("gt"@.len() != "amp"@.len());
            assert("gt"@ != "lt"@) by {
                assert("gt"@[0] != "lt"@[0]);
            }
            assert("&gt;"@ + esc_of(t) =~= seq!['&'] + "gt"@ + seq![';'] + esc_of(t));
            lemma_decode_entity("gt"@, esc_of(t), '>');
        } else {
            assert((seq![s[0]] + esc_of(t)).skip(1) =~= esc_of(t));
        }
    }
}

/// Text in which a character does not occur.
pub open spec fn lacks(s: Seq<char>, c: char) -> bool {
    forall|i: int| 0 <= i < s.len() ==> (#[trigger] s[i]) != c
}

/// Escaped text holds no bracket.
proof fn lemma_esc_lacks(s: Seq<char>, n: nat)
    requires
        n <= s.len(),
    ensures
        lacks(esc_n(s, n), '<'),
    decreases n,
{
    if n > 0 {
        lemma_esc_lacks(s, (n - 1) as nat);
        reveal_strlit("&amp;");
        reveal_strlit("&lt;");
        reveal_strlit("&gt;");
        let head = esc_n(s, (n - 1) as nat);
        let tail = esc_char(s[n - 1]);
        assert(lacks(tail, '<'));
        assert forall|i: int| 0 <= i < (head + tail).len() implies #[trigger] (head + tail)[i] != '<' by {
            if i >= head.len() {
                assert((head + tail)[i] == tail[i - head.len()]);
            }
        }
    }
}

/// Text that means itself has no ampersand.
proof fn lemma_decode_plain(s: Seq<char>)
    requires
        lacks(s, '&'),
    ensures
        decode_of(s) == Some(s),
    decreases s.len(),
{
    if s.len() == 0 {
        assert(s =~= seq![]);
    } else {
        assert(s[0] != '&');
        assert forall|i: int| 0 <= i < s.skip(1).len() implies #[trigger] s.skip(1)[i] != '&' by {
            assert(s.skip(1)[i] == s[i + 1]);
        }
        lemma_decode_plain(s.skip(1));
        assert(seq![s[0]] + s.skip(1) =~= s);
    }
}

// ---- pieces ----------------------------------------------------------------

proof fn lemma_split_some(s: Seq<char>, start: int, i: int)
    requires
        0 <= start <= i <= s.len(),
    ensures
        split_from(s, '<', start, i).len() >= 1,
    decreases s.len() - i,
{
    if i < s.len() {
        lemma_split_some(s, i + 1, i + 1);
        lemma_split_some(s, start, i + 1);
    }
}

/// What a text has been read as.
pub open spec fn reading(text: Seq<char>) -> Outcome<XmlV> {
    let pieces = split_of(text, '<');
    pieces_n(pieces, pieces.len())
}

proof fn lemma_pieces_same(a: Seq<Seq<char>>, b: Seq<Seq<char>>, n: nat)
    requires
        n <= a.len(),
        n <= b.len(),
        forall|i: int| 0 <= i < n ==> a[i] == b[i],
    ensures
        pieces_n(a, n) == pieces_n(b, n),
    decreases n,
{
    if n > 1 {
        lemma_pieces_same(a, b, (n - 1) as nat);
    }
}

/// One piece more is read after what came before.
proof fn lemma_read_on(s: Seq<char>, x: Seq<char>)
    requires
        lacks(x, '<'),
    ensures
        reading(s + seq!['<'] + x) == (match reading(s) {
            Ok(st) => piece_step(st, x),
            Err(e) => Err(e),
        }),
{
    let a = split_of(s, '<');
    lemma_split_append(s, '<', x, 0, 0);
    lemma_split_some(s, 0, 0);
    let b = split_of(s + seq!['<'] + x, '<');
    assert(b == a.push(x));
    lemma_pieces_same(a, b, a.len());
}

// ---- names and values ------------------------------------------------------

/// A character that CIM names are made of.
pub open spec fn name_char(c: char) -> bool {
    ('a' <= c && c <= 'z') || ('A' <= c && c <= 'Z') || c == '.'
}

/// A CIM name.
pub open spec fn plain(s: Seq<char>) -> bool {
    forall|i: int| 0 <= i < s.len() ==> name_char(#[trigger] s[i])
}

/// A value that an attribute holds as it is.
pub open spec fn safe(s: Seq<char>) -> bool {
    lacks(s, '<') && lacks(s, '&') && lacks(s, '"')
}

/// A tag's length adds up over a part without quotes and brackets.
proof fn lemma_tag_len_plain(p: Seq<char>, s: Seq<char>)
    requires
        lacks(p, '>'),
        lacks(p, '"'),
        lacks(p, '\''),
    ensures
        tag_len(p + s, None) == (match tag_len(s, None) {
            Some(n) => Some((n + p.len()) as nat),
            None => None,
        }),
    decreases p.len(),
{
    if p.len() == 0 {
        assert(p + s =~= s);
    } else {
        let q = p.skip(1);
        assert((p + s).skip(1) =~= q + s);
        assert((p + s)[0] == p[0]);
        lemma_lacks_skip(p, '>');
        lemma_lacks_skip(p, '"');
        lemma_lacks_skip(p, '\'');
        lemma_tag_len_plain(q, s);
    }
}

proof fn lemma_lacks_skip(p: Seq<char>, c: char)
    requires
        lacks(p, c),
        p.len() > 0,
    ensures
        lacks(p.skip(1), c),
        p[0] != c,
{
    assert forall|i: int| 0 <= i < p.skip(1).len() implies #[trigger] p.skip(1)[i] != c by {
        assert(p.skip(1)[i] == p[i + 1]);
    }
}

proof fn lemma_lacks_add(a: Seq<char>, b: Seq<char>, c: char)
    requires
        lacks(a, c),
        lacks(b, c),
    ensures
        lacks(a + b, c),
{
    assert forall|i: int| 0 <= i < (a + b).len() implies #[trigger] (a + b)[i] != c by {
        if i >= a.len() {
            assert((a + b)[i] == b[i - a.len()]);
        }
    }
}

/// A tag's length adds up over a quoted value.
proof fn lemma_tag_len_quoted(v: Seq<char>, s: Seq<char>)
    requires
        lacks(v, '"'),
    ensures
        tag_len(v + seq!['"'] + s, Some('"')) == (match tag_len(s, None) {
            Some(n) => Some((n + v.len() + 1) as nat),
            None => None,
        }),
    decreases v.len(),
{
    let t = v + seq!['"'] + s;
    if v.len() == 0 {
        assert(t.skip(1) =~= s);
        assert(t[0] == '"');
    } else {
        lemma_lacks_skip(v, '"');
        assert(t[0] == v[0]);
        assert(t.skip(1) =~= v.skip(1) + seq!['"'] + s);
        lemma_tag_len_quoted(v.skip(1), s);
    }
}

/// The name at the start of a tag ends at the first white space.
proof fn lemma_name_len(p: Seq<char>, s: Seq<char>)
    requires
        forall|i: int| 0 <= i < p.len() ==> !is_space(#[trigger] p[i]),
        s.len() == 0 || is_space(s[0]),
    ensures
        name_len(p + s) == p.len(),
    decreases p.len(),
{
    if p.len() == 0 {
        assert(p + s =~= s);
    } else {
        assert((p + s).skip(1) =~= p.skip(1) + s);
        assert((p + s)[0] == p[0]);
        assert forall|i: int| 0 <= i < p.skip(1).len() implies !is_space(#[trigger] p.skip(1)[i]) by {
            assert(p.skip(1)[i] == p[i + 1]);
        }
        lemma_name_len(p.skip(1), s);
    }
}

/// Text without white space at its start is not trimmed there.
proof fn lemma_trim_start_none(s: Seq<char>)
    requires
        s.len() > 0 ==> !is_space(s[0]),
    ensures
        trim_start_of(s) == s,
{
    assert(s.subrange(0, s.len() as int) =~= s);
}

/// Text without white space at its ends is not trimmed.
proof fn lemma_trim_none(s: Seq<char>)
    requires
        s.len() > 0 ==> !is_space(s[0]) && !is_space(s[s.len() - 1]),
    ensures
        trim_of(s) == s,
{
    assert(s.subrange(0, s.len() as int) =~= s);
}

/// White space before a text is trimmed.
proof fn lemma_trim_start_spaces(w: Seq<char>, s: Seq<char>)
    requires
        forall|i: int| 0 <= i < w.len() ==> is_space(#[trigger] w[i]),
        s.len() > 0,
        !is_space(s[0]),
    ensures
        trim_start_of(w + s) == s,
{
    lemma_skip_to(w + s, 0, w.len() as int);
    assert((w + s).subrange(w.len() as int, (w + s).len() as int) =~= s);
}

proof fn lemma_skip_to(s: Seq<char>, i: int, n: int)
    requires
        0 <= i <= n < s.len(),
        forall|k: int| i <= k < n ==> is_space(#[trigger] s[k]),
        !is_space(s[n]),
    ensures
        skip_spaces(s, i) == n,
    decreases n - i,
{
    if i < n {
        lemma_skip_to(s, i + 1, n);
    }
}

/// The local part of `prefix:name`.
proof fn lemma_local(prefix: Seq<char>, name: Seq<char>)
    requires
        lacks(name, ':'),
    ensures
        local(prefix + seq![':'] + name) == name,
{
    let s = prefix + seq![':'] + name;
    lemma_after_last(s, prefix.len() as int + 1, s.len() as int);
    assert(s.subrange(prefix.len() as int + 1, s.len() as int) =~= name);
}

proof fn lemma_after_last(s: Seq<char>, k: int, j: int)
    requires
        0 < k <= j <= s.len(),
        s[k - 1] == ':',
        forall|i: int| k <= i < j ==> s[i] != ':',
    ensures
        after_last_from(s, ':', j) == s.subrange(k, s.len() as int),
    decreases j - k,
{
    if j > k {
        lemma_after_last(s, k, j - 1);
    }
}

// ---- tags ------------------------------------------------------------------

/// The tag of an element with one attribute, which may end the element too.
pub open spec fn attr_tag(
    name: Seq<char>,
    key: Seq<char>,
    value: Seq<char>,
    empty: bool,
) -> Seq<char> {
    let tag = name + seq![' '] + key + seq!['=', '"'] + value + seq!['"'];
    if empty {
        tag + seq!['/']
    } else {
        tag
    }
}

/// A name as a tag begins with it: no white space, quotes, brackets or slash.
pub open spec fn tag_name(s: Seq<char>) -> bool {
    &&& s.len() > 0
    &&& forall|i: int|
        0 <= i < s.len() ==> !is_space(#[trigger] s[i]) && s[i] != '"' && s[i] != '\'' && s[i] != '>'
            && s[i] != '/' && s[i] != '=' && s[i] != '<' && s[i] != '!' && s[i] != '?'
}

/// One attribute reads as its name and value.
proof fn lemma_attr(key: Seq<char>, value: Seq<char>)
    requires
        tag_name(key),
        safe(value),
    ensures
        attrs_of(seq![' '] + key + seq!['=', '"'] + value + seq!['"']) == Some(seq![(key, value)]),
{
    let s = seq![' '] + key + seq!['=', '"'] + value + seq!['"'];
    let t = key + seq!['=', '"'] + value + seq!['"'];
    assert(s =~= seq![' '] + t);
    assert(t[0] == key[0]);
    lemma_trim_start_spaces(seq![' '], t);
    let e = key.len();
    assert(t[e as int] == '=');
    assert forall|i: int| 0 <= i < e implies t[i] != '=' by {
        assert(t[i] == key[i]);
    }
    lemma_index_at(t, '=', e);
    assert(t.take(e as int) =~= key);
    assert(!is_space(key[0]) && !is_space(key[key.len() - 1]));
    lemma_trim_none(key);
    let v = seq!['"'] + value + seq!['"'];
    assert(t.skip(e as int + 1) =~= v);
    lemma_trim_start_none(v);
    let w = v.skip(1);
    assert(w =~= value + seq!['"']);
    let j = value.len();
    assert(w[j as int] == '"');
    assert forall|i: int| 0 <= i < j implies w[i] != '"' by {
        assert(w[i] == value[i]);
    }
    lemma_index_at(w, '"', j);
    assert(w.take(j as int) =~= value);
    lemma_decode_plain(value);
    let rest = w.skip(j as int + 1);
    assert(rest =~= seq![]);
    assert(trim_start_of(rest) =~= seq![]) by {
        lemma_trim_start_none(rest);
    }
    assert(attrs_of(rest) == Some(Seq::<(Seq<char>, Seq<char>)>::empty()));
    assert(seq![(key, value)] + Seq::<(Seq<char>, Seq<char>)>::empty() =~= seq![(key, value)]);
}

/// The tag of an element with one attribute reads as it was written, whatever
/// text without a bracket follows.
proof fn lemma_attr_tag(
    name: Seq<char>,
    key: Seq<char>,
    value: Seq<char>,
    empty: bool,
    rest: Seq<char>,
)
    requires
        tag_name(name),
        tag_name(key),
        safe(value),
    ensures
        ({
            let tag = attr_tag(name, key, value, empty);
            &&& tag_len(tag + seq!['>'] + rest, None) == Some(tag.len())
            &&& start_of(tag) == Some(StartV { name, attrs: seq![(key, value)], empty })
            &&& strip_prefix_of(tag, "/"@) is None
        }),
{
    reveal_strlit("/");
    let tag = attr_tag(name, key, value, empty);
    let head = name + seq![' '] + key + seq!['='];
    let close = if empty {
        seq!['/']
    } else {
        Seq::<char>::empty()
    };
    let tail = close + seq!['>'] + rest;
    let x = tag + seq!['>'] + rest;
    assert(x =~= head + (seq!['"'] + (value + seq!['"'] + tail)));
    assert(lacks(head, '>') && lacks(head, '"') && lacks(head, '\'')) by {
        assert forall|i: int| 0 <= i < head.len() implies #[trigger] head[i] != '>' && head[i] != '"'
            && head[i] != '\'' by {
            if i < name.len() {
                assert(head[i] == name[i]);
            } else if i == name.len() {
                assert(head[i] == ' ');
            } else if i < name.len() + 1 + key.len() {
                assert(head[i] == key[i - name.len() - 1]);
            } else {
                assert(head[i] == '=');
            }
        }
    }
    let inner = seq!['"'] + (value + seq!['"'] + tail);
    lemma_tag_len_plain(head, inner);
    assert(inner.skip(1) =~= value + seq!['"'] + tail);
    lemma_tag_len_quoted(value, tail);
    assert(lacks(close, '>') && lacks(close, '"') && lacks(close, '\''));
    let end = seq!['>'] + rest;
    assert(tail =~= close + end);
    lemma_tag_len_plain(close, end);
    assert(tag_len(end, None) == Some(0nat));
    assert(tag_len(tail, None) == Some(close.len()));
    assert(tag_len(inner, None) == Some((value.len() + 2 + close.len()) as nat));
    assert(tag.len() == head.len() + value.len() + 2 + close.len());
    // The start tag.
    let body = name + seq![' '] + key + seq!['=', '"'] + value + seq!['"'];
    let last = tag[tag.len() - 1];
    assert(tag.subrange(tag.len() - 1, tag.len() as int) =~= seq![last]);
    assert("/"@ =~= seq!['/']);
    assert(has_suffix(tag, "/"@) == empty) by {
        if !empty {
            assert(last == '"');
            assert(seq![last][0] != "/"@[0]);
        } else {
            assert(last == '/');
        }
    }
    if empty {
        assert(tag.take(tag.len() - 1) =~= body);
    } else {
        assert(tag =~= body);
    }
    let after = seq![' '] + key + seq!['=', '"'] + value + seq!['"'];
    assert(body =~= name + after);
    lemma_name_len(name, after);
    assert(body.take(name.len() as int) =~= name);
    assert(body.skip(name.len() as int) =~= after);
    lemma_attr(key, value);
    assert(tag[0] == name[0]);
    assert(strip_prefix_of(tag, "/"@) is None) by {
        if has_prefix(tag, "/"@) {
            assert(tag.subrange(0, 1)[0] == "/"@[0]);
        }
    }
}

/// A tag without attributes reads as its name.
proof fn lemma_bare_tag(name: Seq<char>, rest: Seq<char>)
    requires
        tag_name(name),
    ensures
        tag_len(name + seq!['>'] + rest, None) == Some(name.len()),
        start_of(name) == Some(
            StartV { name, attrs: Seq::<(Seq<char>, Seq<char>)>::empty(), empty: false },
        ),
        strip_prefix_of(name, "/"@) is None,
{
    reveal_strlit("/");
    let end = seq!['>'] + rest;
    assert(name + seq!['>'] + rest =~= name + end);
    assert(lacks(name, '>') && lacks(name, '"') && lacks(name, '\''));
    lemma_tag_len_plain(name, end);
    assert(tag_len(end, None) == Some(0nat));
    assert(!has_suffix(name, "/"@)) by {
        if has_suffix(name, "/"@) {
            assert(name.subrange(name.len() - 1, name.len() as int)[0] == "/"@[0]);
        }
    }
    assert(!has_prefix(name, "/"@)) by {
        if has_prefix(name, "/"@) {
            assert(name.subrange(0, 1)[0] == "/"@[0]);
        }
    }
    lemma_name_len(name, seq![]);
    assert(name + Seq::<char>::empty() =~= name);
    assert(name.take(name.len() as int) =~= name);
    let rest0 = name.skip(name.len() as int);
    assert(rest0 =~= seq![]);
    lemma_trim_start_none(rest0);
}

/// An end tag reads as the name it closes.
proof fn lemma_end_tag(name: Seq<char>, rest: Seq<char>)
    requires
        tag_name(name),
    ensures
        tag_len(seq!['/'] + name + seq!['>'] + rest, None) == Some((name.len() + 1) as nat),
        strip_prefix_of(seq!['/'] + name, "/"@) == Some(name),
        trim_of(name) == name,
{
    reveal_strlit("/");
    let p = seq!['/'] + name;
    let end = seq!['>'] + rest;
    assert(seq!['/'] + name + seq!['>'] + rest =~= p + end);
    assert forall|i: int| 0 <= i < p.len() implies #[trigger] p[i] != '>' && p[i] != '"' && p[i]
        != '\'' by {
        if i > 0 {
            assert(p[i] == name[i - 1]);
        }
    }
    lemma_tag_len_plain(p, end);
    assert(tag_len(end, None) == Some(0nat));
    assert("/"@ =~= seq!['/']);
    assert(p.subrange(0, 1) =~= "/"@);
    assert(p.subrange(1, p.len() as int) =~= name);
    assert(!is_space(name[0]) && !is_space(name[name.len() - 1]));
    lemma_trim_none(name);
}

/// A piece that begins with a tag name is a tag.
proof fn lemma_is_tag(st: XmlV, piece: Seq<char>)
    requires
        st.mode == Mode::Plain,
        piece.len() > 0,
        piece[0] != '!',
        piece[0] != '?',
    ensures
        piece_step(st, piece) == tag_step(st, piece),
{
    reveal_strlit("!--");
    reveal_strlit("![CDATA[");
    reveal_strlit("?");
    reveal_strlit("!");
    assert(!has_prefix(piece, "!--"@)) by {
        if has_prefix(piece, "!--"@) {
            assert(piece.subrange(0, 3)[0] == "!--"@[0]);
        }
    }
    assert(!has_prefix(piece, "![CDATA["@)) by {
        if has_prefix(piece, "![CDATA["@) {
            assert(piece.subrange(0, 8)[0] == "![CDATA["@[0]);
        }
    }
    assert(!has_prefix(piece, "?"@)) by {
        if has_prefix(piece, "?"@) {
            assert(piece.subrange(0, 1)[0] == "?"@[0]);
        }
    }
    assert(!has_prefix(piece, "!"@)) by {
        if has_prefix(piece, "!"@) {
            assert(piece.subrange(0, 1)[0] == "!"@[0]);
        }
    }
}

// ---- what a document under construction reads as ---------------------------

/// Blanks and line ends.
pub open spec fn blank(w: Seq<char>) -> bool {
    forall|i: int| 0 <= i < w.len() ==> (#[trigger] w[i]) == ' ' || w[i] == '\n'
}

/// The namespace that a document declares for CIM.
pub open spec fn cim_namespace() -> Seq<char> {
    "http://iec.ch/TC57/CIM100#"@
}

pub open spec fn qualified(name: Seq<char>) -> Seq<char> {
    "cim:"@ + name
}

/// Where a reader stands after what has been written.
pub open spec fn state_of(d: DocV) -> XmlV {
    XmlV {
        mode: Mode::Plain,
        path: match d.object {
            Some(o) => seq!["rdf:RDF"@, qualified(o.class)],
            None => seq!["rdf:RDF"@],
        },
        closed: false,
        namespace: Some(cim_namespace()),
        description: None,
        objects: d.objects,
        object: match d.object {
            Some(o) => o,
            None => no_object(),
        },
        reference: None,
        text: seq![],
    }
}

/// Whether a document reads as the objects it has written, whatever blanks
/// follow.
#[verifier::opaque]
pub open spec fn faithful(d: DocV) -> bool {
    forall|w: Seq<char>|
        blank(w) ==> #[trigger] reading(cim_header() + d.body + w) == Ok::<XmlV, ErrorV>(
            state_of(d),
        )
}

/// A faithful document between objects.
pub open spec fn ready(d: DocV) -> bool {
    faithful(d) && d.object is None
}

/// A faithful document inside an object of a class.
pub open spec fn inside(d: DocV, class: Seq<char>) -> bool {
    &&& faithful(d)
    &&& d.object matches Some(o) && o.class == class
    &&& class_name(class)
}

/// A class that makes an object.
pub open spec fn class_name(class: Seq<char>) -> bool {
    plain(class) && class != "FullModel"@
}

proof fn lemma_qualified(name: Seq<char>)
    requires
        plain(name),
    ensures
        tag_name(qualified(name)),
        local(qualified(name)) == name,
        qualified(name)[0] == 'c',
{
    reveal_strlit("cim:");
    let q = qualified(name);
    assert forall|i: int| 0 <= i < q.len() implies !is_space(#[trigger] q[i]) && q[i] != '"' && q[i]
        != '\'' && q[i] != '>' && q[i] != '/' && q[i] != '=' && q[i] != '<' && q[i] != '!' && q[i]
        != '?' by {
        if i >= 4 {
            assert(q[i] == name[i - 4]);
            assert(name_char(name[i - 4]));
        }
    }
    assert(lacks(name, ':')) by {
        assert forall|i: int| 0 <= i < name.len() implies (#[trigger] name[i]) != ':' by {
            assert(name_char(name[i]));
        }
    }
    let cim = seq!['c', 'i', 'm'];
    assert(q =~= cim + seq![':'] + name);
    lemma_local(cim, name);
}

proof fn lemma_keys()
    ensures
        tag_name("rdf:ID"@),
        local("rdf:ID"@) == "ID"@,
        tag_name("rdf:resource"@),
        local("rdf:resource"@) == "resource"@,
{
    reveal_strlit("rdf:ID");
    reveal_strlit("rdf:resource");
    reveal_strlit("ID");
    reveal_strlit("resource");
    let rdf = seq!['r', 'd', 'f'];
    assert("rdf:ID"@ =~= rdf + seq![':'] + "ID"@);
    assert("rdf:resource"@ =~= rdf + seq![':'] + "resource"@);
    lemma_local(rdf, "ID"@);
    lemma_local(rdf, "resource"@);
}

proof fn lemma_blank_lacks(w: Seq<char>)
    requires
        blank(w),
    ensures
        lacks(w, '<'),
{
}

/// A faithful document reads on.
proof fn lemma_read_doc(d: DocV, w: Seq<char>, x: Seq<char>)
    requires
        faithful(d),
        blank(w),
        lacks(x, '<'),
    ensures
        reading(cim_header() + d.body + w + seq!['<'] + x) == piece_step(state_of(d), x),
{
    reveal(faithful);
    lemma_read_on(cim_header() + d.body + w, x);
}

proof fn lemma_attr_tag_lacks(name: Seq<char>, key: Seq<char>, value: Seq<char>, empty: bool)
    requires
        tag_name(name),
        tag_name(key),
        safe(value),
    ensures
        lacks(attr_tag(name, key, value, empty), '<'),
        attr_tag(name, key, value, empty)[0] == name[0],
{
    let tag = attr_tag(name, key, value, empty);
    assert forall|i: int| 0 <= i < tag.len() implies (#[trigger] tag[i]) != '<' by {
        if i < name.len() {
            assert(tag[i] == name[i]);
        } else if i == name.len() {
            assert(tag[i] == ' ');
        } else if i < name.len() + 1 + key.len() {
            assert(tag[i] == key[i - name.len() - 1]);
        } else if i < name.len() + 3 + key.len() {
            assert(tag[i] == '=' || tag[i] == '"');
        } else if i < name.len() + 3 + key.len() + value.len() {
            assert(tag[i] == value[i - name.len() - 3 - key.len()]);
        } else {
            assert(tag[i] == '"' || tag[i] == '/');
        }
    }
}

/// What a tag with one attribute does to a reader outside properties.
proof fn lemma_step_attr(
    st: XmlV,
    name: Seq<char>,
    key: Seq<char>,
    value: Seq<char>,
    empty: bool,
    rest: Seq<char>,
)
    requires
        st.mode == Mode::Plain,
        tag_name(name),
        tag_name(key),
        safe(value),
    ensures
        piece_step(st, attr_tag(name, key, value, empty) + seq!['>'] + rest) == then_text(
            open_step(st, StartV { name, attrs: seq![(key, value)], empty }),
            rest,
        ),
{
    let tag = attr_tag(name, key, value, empty);
    let x = tag + seq!['>'] + rest;
    lemma_attr_tag_lacks(name, key, value, empty);
    assert(x[0] == name[0]);
    lemma_is_tag(st, x);
    lemma_attr_tag(name, key, value, empty, rest);
    assert(x.take(tag.len() as int) =~= tag);
    assert(x.skip(tag.len() as int + 1) =~= rest);
}

/// What a tag without attributes does to a reader.
proof fn lemma_step_bare(st: XmlV, name: Seq<char>, rest: Seq<char>)
    requires
        st.mode == Mode::Plain,
        tag_name(name),
    ensures
        piece_step(st, name + seq!['>'] + rest) == then_text(
            open_step(
                st,
                StartV { name, attrs: Seq::<(Seq<char>, Seq<char>)>::empty(), empty: false },
            ),
            rest,
        ),
{
    let x = name + seq!['>'] + rest;
    assert(x[0] == name[0]);
    lemma_is_tag(st, x);
    lemma_bare_tag(name, rest);
    assert(x.take(name.len() as int) =~= name);
    assert(x.skip(name.len() as int + 1) =~= rest);
}

/// What an end tag does to a reader.
proof fn lemma_step_end(st: XmlV, name: Seq<char>, rest: Seq<char>)
    requires
        st.mode == Mode::Plain,
        tag_name(name),
    ensures
        piece_step(st, seq!['/'] + name + seq!['>'] + rest) == then_text(end_step(st, name), rest),
{
    let x = seq!['/'] + name + seq!['>'] + rest;
    assert(x[0] == '/');
    lemma_is_tag(st, x);
    lemma_end_tag(name, rest);
    let n = name.len() + 1;
    assert(x.take(n as int) =~= seq!['/'] + name);
    assert(x.skip(n as int + 1) =~= rest);
}

/// An end tag and what follows it hold no bracket that opens.
proof fn lemma_end_lacks(name: Seq<char>, w: Seq<char>)
    requires
        tag_name(name),
        blank(w),
    ensures
        lacks(seq!['/'] + name + seq!['>'] + (seq!['\n'] + w), '<'),
{
    assert(lacks(name, '<'));
    lemma_lacks_add(seq!['/'], name, '<');
    lemma_lacks_add(seq!['/'] + name, seq!['>'], '<');
    lemma_lacks_add(seq!['\n'], w, '<');
    lemma_lacks_add(seq!['/'] + name + seq!['>'], seq!['\n'] + w, '<');
}

/// An object opened reads as opened.
pub broadcast proof fn lemma_open(d: DocV, class: Seq<char>, id: Seq<char>)
    requires
        ready(d),
        class_name(class),
        safe(id),
    ensures
        inside(#[trigger] d.open(class, id), class),
{
    reveal(DocV::open);
    let a = d.open(class, id);
    lemma_qualified(class);
    lemma_keys();
    reveal_strlit("  <cim:");
    reveal_strlit("cim:");
    reveal_strlit("  ");
    reveal_strlit(" rdf:ID=\"_");
    reveal_strlit("rdf:ID");
    reveal_strlit("\">\n");
    reveal_strlit("_");
    let value = "_"@ + id;
    assert(safe(value)) by {
        lemma_lacks_add("_"@, id, '<');
        lemma_lacks_add("_"@, id, '&');
        lemma_lacks_add("_"@, id, '"');
    }
    let name = qualified(class);
    let tag = attr_tag(name, "rdf:ID"@, value, false);
    lemma_attr_tag_lacks(name, "rdf:ID"@, value, false);
    assert(blank("  "@));
    assert forall|w: Seq<char>| blank(w) implies #[trigger] reading(cim_header() + a.body + w)
        == Ok::<XmlV, ErrorV>(state_of(a)) by {
        let rest = seq!['\n'] + w;
        let x = tag + seq!['>'] + rest;
        assert(lacks(x, '<')) by {
            lemma_blank_lacks(w);
            lemma_lacks_add(seq!['\n'], w, '<');
            lemma_lacks_add(tag, seq!['>'], '<');
            lemma_lacks_add(tag + seq!['>'], rest, '<');
        }
        assert(cim_header() + a.body + w =~= cim_header() + d.body + "  "@ + seq!['<'] + x);
        lemma_read_doc(d, "  "@, x);
        let st = state_of(d);
        lemma_step_attr(st, name, "rdf:ID"@, value, false, rest);
        let attrs = seq![("rdf:ID"@, value)];
        assert(attr_from(attrs, "ID"@, 0) == Some(value));
        assert(bare(value) == id) by {
            assert(value.subrange(0, 1) =~= "_"@);
            assert(value.subrange(1, value.len() as int) =~= id);
        }
        assert(seq!["rdf:RDF"@].push(name) =~= seq!["rdf:RDF"@, name]);
    }
    assert(faithful(a)) by {
        reveal(faithful);
    }
}

/// An object closed reads as closed, and is one more object.
pub broadcast proof fn lemma_close(d: DocV, class: Seq<char>)
    requires
        inside(d, class),
    ensures
        ready(#[trigger] d.close(class)),
{
    reveal(DocV::close);
    let a = d.close(class);
    lemma_qualified(class);
    reveal_strlit("  </cim:");
    reveal_strlit("cim:");
    reveal_strlit("  ");
    reveal_strlit(">\n");
    let name = qualified(class);
    assert(blank("  "@));
    assert forall|w: Seq<char>| blank(w) implies #[trigger] reading(cim_header() + a.body + w)
        == Ok::<XmlV, ErrorV>(state_of(a)) by {
        let rest = seq!['\n'] + w;
        let x = seq!['/'] + name + seq!['>'] + rest;
        lemma_end_lacks(name, w);
        assert(cim_header() + a.body + w =~= cim_header() + d.body + "  "@ + seq!['<'] + x);
        lemma_read_doc(d, "  "@, x);
        let st = state_of(d);
        lemma_step_end(st, name, rest);
        assert(st.path.last() == name);
        assert(st.path.drop_last() =~= seq!["rdf:RDF"@]);
    }
    assert(faithful(a)) by {
        reveal(faithful);
    }
}

/// A property that refers reads as a reference.
proof fn lemma_resource(
    d: DocV,
    class: Seq<char>,
    prop: Seq<char>,
    value: Seq<char>,
    a: DocV,
    target: Seq<char>,
)
    requires
        inside(d, class),
        plain(prop),
        safe(value),
        target_of(value) == target,
        a.body == d.body + "    "@ + seq!['<'] + attr_tag(qualified(prop), "rdf:resource"@, value, true)
            + seq!['>', '\n'],
        a.objects == d.objects,
        a.object == d.with_prop(prop, PropV::Ref(target)),
    ensures
        inside(a, class),
{
    lemma_qualified(prop);
    lemma_keys();
    reveal_strlit("    ");
    let name = qualified(prop);
    let tag = attr_tag(name, "rdf:resource"@, value, true);
    lemma_attr_tag_lacks(name, "rdf:resource"@, value, true);
    assert(blank("    "@));
    assert forall|w: Seq<char>| blank(w) implies #[trigger] reading(cim_header() + a.body + w)
        == Ok::<XmlV, ErrorV>(state_of(a)) by {
        let rest = seq!['\n'] + w;
        let x = tag + seq!['>'] + rest;
        assert(lacks(x, '<')) by {
            lemma_blank_lacks(w);
            lemma_lacks_add(seq!['\n'], w, '<');
            lemma_lacks_add(tag, seq!['>'], '<');
            lemma_lacks_add(tag + seq!['>'], rest, '<');
        }
        assert(cim_header() + a.body + w =~= cim_header() + d.body + "    "@ + seq!['<'] + x);
        lemma_read_doc(d, "    "@, x);
        let st = state_of(d);
        lemma_step_attr(st, name, "rdf:resource"@, value, true, rest);
        let attrs = seq![("rdf:resource"@, value)];
        assert(attr_from(attrs, "resource"@, 0) == Some(value));
        let down = st.path.push(name);
        assert(down.last() == name);
        assert(down.drop_last() =~= st.path);
    }
    assert(faithful(a)) by {
        reveal(faithful);
    }
}

pub broadcast proof fn lemma_reference(
    d: DocV,
    class: Seq<char>,
    prop: Seq<char>,
    target: Seq<char>,
)
    requires
        #[trigger] inside(d, class),
        plain(prop),
        safe(target),
    ensures
        inside(#[trigger] d.reference(prop, target), class),
{
    reveal(DocV::reference);
    let a = d.reference(prop, target);
    reveal_strlit("    <cim:");
    reveal_strlit("cim:");
    reveal_strlit("    ");
    reveal_strlit(" rdf:resource=\"#_");
    reveal_strlit("rdf:resource");
    reveal_strlit("\"/>\n");
    reveal_strlit("#_");
    reveal_strlit("#");
    reveal_strlit("_");
    reveal_strlit("urn:uuid:");
    let value = "#_"@ + target;
    assert(safe(value)) by {
        lemma_lacks_add("#_"@, target, '<');
        lemma_lacks_add("#_"@, target, '&');
        lemma_lacks_add("#_"@, target, '"');
    }
    assert(target_of(value) == target) by {
        assert(!has_prefix(value, "urn:uuid:"@)) by {
            if has_prefix(value, "urn:uuid:"@) {
                assert(value.subrange(0, 9)[0] == "urn:uuid:"@[0]);
            }
        }
        assert(value.subrange(0, 1) =~= "#"@);
        let r = value.subrange(1, value.len() as int);
        assert(r =~= "_"@ + target);
        assert(r.subrange(0, 1) =~= "_"@);
        assert(r.subrange(1, r.len() as int) =~= target);
    }
    assert(a.body =~= d.body + "    "@ + seq!['<'] + attr_tag(
        qualified(prop),
        "rdf:resource"@,
        value,
        true,
    ) + seq!['>', '\n']);
    lemma_resource(d, class, prop, value, a, target);
}

pub broadcast proof fn lemma_enumeration(
    d: DocV,
    class: Seq<char>,
    prop: Seq<char>,
    value: Seq<char>,
)
    requires
        #[trigger] inside(d, class),
        plain(prop),
        safe(value),
    ensures
        inside(#[trigger] d.enumeration(prop, value), class),
{
    reveal(DocV::enumeration);
    let a = d.enumeration(prop, value);
    reveal_strlit("    <cim:");
    reveal_strlit("cim:");
    reveal_strlit("    ");
    reveal_strlit(" rdf:resource=\"http://iec.ch/TC57/CIM100#");
    reveal_strlit("rdf:resource");
    reveal_strlit("\"/>\n");
    reveal_strlit("http://iec.ch/TC57/CIM100#");
    reveal_strlit("#");
    reveal_strlit("urn:uuid:");
    let full = "http://iec.ch/TC57/CIM100#"@ + value;
    assert(safe(full)) by {
        lemma_lacks_add("http://iec.ch/TC57/CIM100#"@, value, '<');
        lemma_lacks_add("http://iec.ch/TC57/CIM100#"@, value, '&');
        lemma_lacks_add("http://iec.ch/TC57/CIM100#"@, value, '"');
    }
    assert(target_of(full) == full) by {
        assert(!has_prefix(full, "urn:uuid:"@)) by {
            if has_prefix(full, "urn:uuid:"@) {
                assert(full.subrange(0, 9)[0] == "urn:uuid:"@[0]);
            }
        }
        assert(!has_prefix(full, "#"@)) by {
            if has_prefix(full, "#"@) {
                assert(full.subrange(0, 1)[0] == "#"@[0]);
            }
        }
    }
    assert(a.body =~= d.body + "    "@ + seq!['<'] + attr_tag(
        qualified(prop),
        "rdf:resource"@,
        full,
        true,
    ) + seq!['>', '\n']);
    lemma_resource(d, class, prop, full, a, full);
}

/// Where a reader stands inside a property of an object.
proof fn lemma_text_read(d: DocV, class: Seq<char>, prop: Seq<char>, value: Seq<char>, w: Seq<char>)
    requires
        inside(d, class),
        plain(prop),
        blank(w),
    ensures
        ({
            let name = qualified(prop);
            let upto = cim_header() + d.body + "    "@ + seq!['<'] + (name + seq!['>'] + esc_of(
                value,
            ));
            reading(upto + seq!['<'] + (seq!['/'] + name + seq!['>'] + (seq!['\n'] + w))) == Ok::<
                XmlV,
                ErrorV,
            >(
                (XmlV {
                    object: CimObjectV {
                        props: d.object->0.props.push((prop, PropV::Text(value))),
                        ..d.object->0
                    },
                    ..state_of(d)
                }),
            )
        }),
{
    lemma_qualified(prop);
    reveal_strlit("    ");
    let name = qualified(prop);
    let rest = seq!['\n'] + w;
    let x = name + seq!['>'] + esc_of(value);
    let y = seq!['/'] + name + seq!['>'] + rest;
    let st = state_of(d);
    assert(blank("    "@));
    lemma_esc_lacks(value, value.len());
    lemma_escaping_is_undone(value);
    assert(lacks(name, '<'));
    lemma_lacks_add(name, seq!['>'], '<');
    lemma_lacks_add(name + seq!['>'], esc_of(value), '<');
    lemma_end_lacks(name, w);
    let upto = cim_header() + d.body + "    "@ + seq!['<'] + x;
    lemma_read_doc(d, "    "@, x);
    lemma_step_bare(st, name, esc_of(value));
    assert(Seq::<char>::empty() + value =~= value);
    let down = XmlV { path: st.path.push(name), text: value, ..st };
    assert(reading(upto) == Ok::<XmlV, ErrorV>(down));
    lemma_read_on(upto, y);
    lemma_step_end(down, name, rest);
    assert(down.path.last() == name);
    assert(down.path.drop_last() =~= st.path);
}

/// A property with text reads as that text.
pub broadcast proof fn lemma_text(d: DocV, class: Seq<char>, prop: Seq<char>, value: Seq<char>)
    requires
        #[trigger] inside(d, class),
        plain(prop),
    ensures
        inside(#[trigger] d.text(prop, value), class),
{
    reveal(DocV::text);
    let a = d.text(prop, value);
    reveal_strlit("    <cim:");
    reveal_strlit("cim:");
    reveal_strlit("    ");
    reveal_strlit(">");
    reveal_strlit("</cim:");
    reveal_strlit(">\n");
    let name = qualified(prop);
    assert forall|w: Seq<char>| blank(w) implies #[trigger] reading(cim_header() + a.body + w)
        == Ok::<XmlV, ErrorV>(state_of(a)) by {
        let upto = cim_header() + d.body + "    "@ + seq!['<'] + (name + seq!['>'] + esc_of(value));
        let y = seq!['/'] + name + seq!['>'] + (seq!['\n'] + w);
        assert(cim_header() + a.body + w =~= upto + seq!['<'] + y);
        lemma_text_read(d, class, prop, value, w);
    }
    assert(faithful(a)) by {
        reveal(faithful);
    }
}

/// A warning changes nothing of the text.
pub broadcast proof fn lemma_warned(d: DocV, s: Seq<char>)
    requires
        ready(d),
    ensures
        ready(#[trigger] d.warn(s)),
{
    reveal(DocV::warn);
    reveal(faithful);
    assert(state_of(d.warn(s)) == state_of(d));
}

// ---- identifiers -----------------------------------------------------------

proof fn lemma_hex_safe(n: nat, width: nat)
    ensures
        safe(hex_of(n, width)),
    decreases width,
{
    if width > 0 {
        lemma_hex_safe(n / 16, (width - 1) as nat);
        let head = hex_of(n / 16, (width - 1) as nat);
        let d = hex_digit((n % 16) as int);
        let all = hex_of(n, width);
        assert(all == head.push(d));
        assert(d != '<' && d != '&' && d != '"');
        assert forall|i: int| 0 <= i < all.len() implies (#[trigger] all[i]) != '<' && all[i] != '&'
            && all[i] != '"' by {
            if i < head.len() {
                assert(all[i] == head[i]);
            }
        }
    }
}

pub proof fn lemma_safe_add(a: Seq<char>, b: Seq<char>)
    requires
        safe(a),
        safe(b),
    ensures
        safe(a + b),
{
    lemma_lacks_add(a, b, '<');
    lemma_lacks_add(a, b, '&');
    lemma_lacks_add(a, b, '"');
}

/// A derived identifier can stand in an attribute.
pub broadcast proof fn lemma_derived_safe(kind: Seq<char>, name: Seq<char>)
    ensures
        safe(#[trigger] det_mrid_of(kind, name)),
{
    lemma_uuid_safe("powerio-distcim:"@ + kind + ":"@ + name);
}

proof fn lemma_uuid_safe(tag: Seq<char>)
    ensures
        safe(uuid_of(tag)),
{
    let bytes = encode_utf8(tag);
    let hi = high_of(fnv_of(0xcbf2_9ce4_8422_2325, bytes, bytes.len()));
    let lo = low_of(fnv_of(0x6c62_272e_07bb_0142, bytes, bytes.len()));
    reveal_strlit("-");
    let dash = "-"@;
    let a = hex_of((hi >> 32) as nat, 8);
    let b = hex_of(((hi >> 16) & 0xFFFF) as nat, 4);
    let c = hex_of((hi & 0xFFFF) as nat, 4);
    let d = hex_of((lo >> 48) as nat, 4);
    let e = hex_of((lo & 0xFFFF_FFFF_FFFF) as nat, 12);
    lemma_hex_safe((hi >> 32) as nat, 8);
    lemma_hex_safe(((hi >> 16) & 0xFFFF) as nat, 4);
    lemma_hex_safe((hi & 0xFFFF) as nat, 4);
    lemma_hex_safe((lo >> 48) as nat, 4);
    lemma_hex_safe((lo & 0xFFFF_FFFF_FFFF) as nat, 12);
    lemma_safe_add(a, dash);
    lemma_safe_add(a + dash, b);
    lemma_safe_add(a + dash + b, dash);
    lemma_safe_add(a + dash + b + dash, c);
    lemma_safe_add(a + dash + b + dash + c, dash);
    lemma_safe_add(a + dash + b + dash + c + dash, d);
    lemma_safe_add(a + dash + b + dash + c + dash + d, dash);
    lemma_safe_add(a + dash + b + dash + c + dash + d + dash, e);
}

/// An imported identifier that can stand in an attribute, where there is one.
pub open spec fn safe_extras(e: Entries) -> bool {
    match get_of(e, "cim_mrid"@) {
        Some(v) => match str_of(v) {
            Some(s) => safe(s),
            None => true,
        },
        None => true,
    }
}

pub proof fn lemma_mrid_safe(e: Entries, kind: Seq<char>, name: Seq<char>)
    requires
        safe_extras(e),
    ensures
        safe(mrid_of(e, kind, name)),
{
    lemma_derived_safe(kind, name);
}

/// Every imported identifier of a network can stand in an attribute.
pub open spec fn safe_ids(net: DistNetworkV) -> bool {
    &&& forall|i: int| 0 <= i < net.buses.len() ==> safe_extras((#[trigger] net.buses[i]).extras)
    &&& forall|i: int|
        0 <= i < net.linecodes.len() ==> safe_extras((#[trigger] net.linecodes[i]).extras)
    &&& forall|i: int| 0 <= i < net.lines.len() ==> safe_extras((#[trigger] net.lines[i]).extras)
    &&& forall|i: int| 0 <= i < net.loads.len() ==> safe_extras((#[trigger] net.loads[i]).extras)
    &&& forall|i: int|
        0 <= i < net.shunts.len() ==> safe_extras((#[trigger] net.shunts[i]).extras)
    &&& forall|i: int|
        0 <= i < net.switches.len() ==> safe_extras((#[trigger] net.switches[i]).extras)
    &&& forall|i: int|
        0 <= i < net.transformers.len() ==> safe_extras((#[trigger] net.transformers[i]).extras)
    &&& forall|i: int|
        0 <= i < net.sources.len() ==> safe_extras((#[trigger] net.sources[i]).extras)
}

proof fn lemma_bus_safe(buses: Seq<DistBusV>, id: Seq<char>, i: int)
    requires
        0 <= i <= buses.len(),
        forall|k: int| 0 <= k < buses.len() ==> safe_extras((#[trigger] buses[k]).extras),
    ensures
        bus_from(buses, id, i) matches Some(b) ==> safe_extras(b.extras),
    decreases buses.len() - i,
{
    if i < buses.len() {
        lemma_bus_safe(buses, id, i + 1);
    }
}

pub proof fn lemma_code_safe(codes: Seq<DistLineCodeV>, id: Seq<char>, i: int)
    requires
        0 <= i <= codes.len(),
        forall|k: int| 0 <= k < codes.len() ==> safe_extras((#[trigger] codes[k]).extras),
    ensures
        linecode_from(codes, id, i) matches Some(c) ==> safe_extras(c.extras),
    decreases codes.len() - i,
{
    if i < codes.len() {
        lemma_code_safe(codes, id, i + 1);
    }
}

pub proof fn lemma_node_safe(net: DistNetworkV, bus: Seq<char>)
    requires
        safe_ids(net),
    ensures
        safe(node_of(net, bus)),
{
    lemma_bus_safe(net.buses, bus, 0);
    match net.bus(bus) {
        Some(b) => {
            lemma_mrid_safe(b.extras, "node"@, b.id);
        },
        None => {
            lemma_derived_safe("node"@, bus);
        },
    }
}

proof fn lemma_letter_safe(t: Seq<char>)
    ensures
        phase_letter_of(t) matches Some(p) ==> safe(p),
{
    reveal_strlit("A");
    reveal_strlit("B");
    reveal_strlit("C");
    reveal_strlit("N");
}

proof fn lemma_code_n_safe(map: Seq<Seq<char>>, n: nat)
    requires
        n <= map.len(),
    ensures
        safe(code_n(map, n)),
    decreases n,
{
    if n > 0 {
        lemma_code_n_safe(map, (n - 1) as nat);
        lemma_letter_safe(map[n - 1]);
        match phase_letter_of(map[n - 1]) {
            Some(p) => {
                lemma_safe_add(code_n(map, (n - 1) as nat), p);
            },
            None => {},
        }
    }
}

pub broadcast proof fn lemma_phase_code_safe(map: Seq<Seq<char>>)
    ensures
        safe(#[trigger] phase_code_of(map)),
{
    lemma_code_n_safe(map, map.len());
    reveal_strlit("ABC");
}

pub proof fn lemma_phases_safe(map: Seq<Seq<char>>, n: nat)
    requires
        n <= map.len(),
    ensures
        forall|i: int| 0 <= i < phases_n(map, n).len() ==> safe(#[trigger] phases_n(map, n)[i]),
    decreases n,
{
    if n > 0 {
        lemma_phases_safe(map, (n - 1) as nat);
        lemma_letter_safe(map[n - 1]);
        let b = phases_n(map, (n - 1) as nat);
        let a = phases_n(map, n);
        assert forall|i: int| 0 <= i < a.len() implies safe(#[trigger] a[i]) by {
            if i < b.len() {
                assert(a[i] == b[i]);
            }
        }
    }
}

// ---- parts of documents ----------------------------------------------------

pub broadcast proof fn lemma_warned_inside(d: DocV, class: Seq<char>, s: Seq<char>)
    requires
        #[trigger] inside(d, class),
    ensures
        inside(#[trigger] d.warn(s), class),
{
    reveal(DocV::warn);
    reveal(faithful);
    assert(state_of(d.warn(s)) == state_of(d));
}

pub broadcast proof fn lemma_warn_extras(d: DocV, kind: Seq<char>, name: Seq<char>, e: Entries)
    requires
        ready(d),
    ensures
        ready(#[trigger] d.warn_extras(kind, name, e)),
{
    broadcast use lemma_warned;

    reveal(DocV::warn_extras);
}

proof fn lemma_identified()
    ensures
        plain("IdentifiedObject.mRID"@),
        plain("IdentifiedObject.name"@),
{
    reveal_strlit("IdentifiedObject.mRID");
    reveal_strlit("IdentifiedObject.name");
}

pub broadcast proof fn lemma_named(d: DocV, class: Seq<char>, id: Seq<char>, name: Seq<char>)
    requires
        ready(d),
        class_name(class),
        safe(id),
    ensures
        inside(#[trigger] d.named(class, id, name), class),
{
    reveal(DocV::named);
    lemma_identified();
    lemma_open(d, class, id);
    let a = d.open(class, id);
    lemma_text(a, class, "IdentifiedObject.mRID"@, id);
    let b = a.text("IdentifiedObject.mRID"@, id);
    lemma_text(b, class, "IdentifiedObject.name"@, name);
}

proof fn lemma_terminal_names()
    ensures
        class_name("Terminal"@),
        plain("Terminal.ConductingEquipment"@),
        plain("Terminal.ConnectivityNode"@),
        plain("ACDCTerminal.sequenceNumber"@),
        plain("Terminal.phases"@),
        safe("PhaseCode."@),
{
    reveal_strlit("Terminal");
    reveal_strlit("FullModel");
    reveal_strlit("Terminal.ConductingEquipment");
    reveal_strlit("Terminal.ConnectivityNode");
    reveal_strlit("ACDCTerminal.sequenceNumber");
    reveal_strlit("Terminal.phases");
    reveal_strlit("PhaseCode.");
    assert("Terminal"@.len() != "FullModel"@.len());
}

pub broadcast proof fn lemma_terminal(
    d: DocV,
    owner: Seq<char>,
    seq: nat,
    node: Seq<char>,
    code: Seq<char>,
)
    requires
        ready(d),
        safe(owner),
        safe(node),
        safe(code),
    ensures
        ready(#[trigger] d.terminal(owner, seq, node, code)),
{
    reveal(DocV::terminal);
    lemma_terminal_names();
    let c = "Terminal"@;
    let id = terminal_id(owner, seq);
    lemma_derived_safe("terminal"@, owner + ":"@ + dec_of(seq));
    lemma_safe_add("PhaseCode."@, code);
    lemma_open(d, c, id);
    let a = d.open(c, id);
    lemma_reference(a, c, "Terminal.ConductingEquipment"@, owner);
    let a = a.reference("Terminal.ConductingEquipment"@, owner);
    lemma_reference(a, c, "Terminal.ConnectivityNode"@, node);
    let a = a.reference("Terminal.ConnectivityNode"@, node);
    lemma_text(a, c, "ACDCTerminal.sequenceNumber"@, dec_of(seq));
    let a = a.text("ACDCTerminal.sequenceNumber"@, dec_of(seq));
    lemma_enumeration(a, c, "Terminal.phases"@, "PhaseCode."@ + code);
    let a = a.enumeration("Terminal.phases"@, "PhaseCode."@ + code);
    lemma_close(a, c);
}

pub broadcast group group_faithful {
    lemma_open,
    lemma_close,
    lemma_reference,
    lemma_enumeration,
    lemma_text,
    lemma_warned,
    lemma_warned_inside,
    lemma_warn_extras,
    lemma_named,
    lemma_terminal,
    lemma_derived_safe,
    lemma_phase_code_safe,
}

// ---- the head of a document ------------------------------------------------

/// An attribute before others reads as its name and value.
proof fn lemma_attr_more(w: Seq<char>, key: Seq<char>, value: Seq<char>, more: Seq<char>)
    requires
        w.len() > 0,
        blank(w),
        tag_name(key),
        safe(value),
    ensures
        attrs_of(w + (key + seq!['=', '"'] + value + seq!['"'] + more)) == (match attrs_of(more) {
            Some(rest) => Some(seq![(key, value)] + rest),
            None => None,
        }),
{
    let t = key + seq!['=', '"'] + value + seq!['"'] + more;
    let s = w + t;
    assert(t[0] == key[0]);
    assert forall|i: int| 0 <= i < w.len() implies is_space(#[trigger] w[i]) by {}
    lemma_trim_start_spaces(w, t);
    let e = key.len();
    assert(t[e as int] == '=');
    assert forall|i: int| 0 <= i < e implies t[i] != '=' by {
        assert(t[i] == key[i]);
    }
    lemma_index_at(t, '=', e);
    assert(t.take(e as int) =~= key);
    assert(!is_space(key[0]) && !is_space(key[key.len() - 1]));
    lemma_trim_none(key);
    let v = seq!['"'] + value + seq!['"'] + more;
    assert(t.skip(e as int + 1) =~= v);
    assert(v[0] == '"');
    lemma_trim_start_none(v);
    let u = v.skip(1);
    assert(u =~= value + seq!['"'] + more);
    let j = value.len();
    assert(u[j as int] == '"');
    assert forall|i: int| 0 <= i < j implies u[i] != '"' by {
        assert(u[i] == value[i]);
    }
    lemma_index_at(u, '"', j);
    assert(u.take(j as int) =~= value);
    lemma_decode_plain(value);
    assert(u.skip(j as int + 1) =~= more);
}

proof fn lemma_find_some(s: Seq<char>, p: Seq<char>, i: int, k: int)
    requires
        0 <= i <= k,
        k + p.len() <= s.len(),
        s.subrange(k, k + p.len()) == p,
    ensures
        find_from(s, p, i) is Some,
    decreases k - i,
{
    if i < k && s.subrange(i, i + p.len()) != p {
        lemma_find_some(s, p, i + 1, k);
    }
}

proof fn lemma_find_none(s: Seq<char>, p: Seq<char>, i: int)
    requires
        p.len() > 0,
        lacks(s, p[0]),
        0 <= i,
    ensures
        find_from(s, p, i) is None,
    decreases s.len() + 1 - i,
{
    if i + p.len() <= s.len() {
        assert(s.subrange(i, i + p.len())[0] == s[i]);
        lemma_find_none(s, p, i + 1);
    }
}

spec fn rdf_namespace() -> Seq<char> {
    "http://www.w3.org/1999/02/22-rdf-syntax-ns#"@
}

spec fn nine() -> Seq<char> {
    seq!['\n', ' ', ' ', ' ', ' ', ' ', ' ', ' ', ' ', ' ']
}

/// The attributes of the root.
spec fn root_attrs() -> Seq<char> {
    seq![' '] + ("xmlns:rdf"@ + seq!['=', '"'] + rdf_namespace() + seq!['"'] + (nine() + (
    "xmlns:cim"@ + seq!['=', '"'] + cim_namespace() + seq!['"'] + Seq::<char>::empty())))
}

proof fn lemma_root_names()
    ensures
        tag_name("xmlns:rdf"@),
        tag_name("xmlns:cim"@),
        tag_name("rdf:RDF"@),
        local("rdf:RDF"@) == "RDF"@,
        safe(rdf_namespace()),
        safe(cim_namespace()),
        has_prefix("xmlns:rdf"@, "xmlns"@),
        has_prefix("xmlns:cim"@, "xmlns"@),
        find_of(rdf_namespace(), "CIM"@) is None,
        find_of(cim_namespace(), "CIM"@) is Some,
{
    reveal_strlit("xmlns:rdf");
    reveal_strlit("xmlns:cim");
    reveal_strlit("xmlns");
    reveal_strlit("rdf:RDF");
    reveal_strlit("RDF");
    reveal_strlit("CIM");
    reveal_strlit("http://www.w3.org/1999/02/22-rdf-syntax-ns#");
    reveal_strlit("http://iec.ch/TC57/CIM100#");
    let rdf = seq!['r', 'd', 'f'];
    assert("rdf:RDF"@ =~= rdf + seq![':'] + "RDF"@);
    lemma_local(rdf, "RDF"@);
    assert("xmlns:rdf"@.subrange(0, 5) =~= "xmlns"@);
    assert("xmlns:cim"@.subrange(0, 5) =~= "xmlns"@);
    assert(lacks(rdf_namespace(), 'C'));
    lemma_find_none(rdf_namespace(), "CIM"@, 0);
    assert(cim_namespace().subrange(19, 22) =~= "CIM"@);
    lemma_find_some(cim_namespace(), "CIM"@, 0, 19);
}

proof fn lemma_root_attrs()
    ensures
        attrs_of(root_attrs()) == Some(
            seq![("xmlns:rdf"@, rdf_namespace()), ("xmlns:cim"@, cim_namespace())],
        ),
{
    lemma_root_names();
    let none = Seq::<char>::empty();
    let second = "xmlns:cim"@ + seq!['=', '"'] + cim_namespace() + seq!['"'] + none;
    assert(blank(nine()));
    assert(blank(seq![' ']));
    lemma_attr_more(nine(), "xmlns:cim"@, cim_namespace(), none);
    lemma_trim_start_none(none);
    assert(attrs_of(none) == Some(Seq::<(Seq<char>, Seq<char>)>::empty()));
    lemma_attr_more(seq![' '], "xmlns:rdf"@, rdf_namespace(), nine() + second);
    assert(seq![("xmlns:cim"@, cim_namespace())] + Seq::<(Seq<char>, Seq<char>)>::empty() =~= seq![
        ("xmlns:cim"@, cim_namespace()),
    ]);
    assert(seq![("xmlns:rdf"@, rdf_namespace())] + seq![("xmlns:cim"@, cim_namespace())] =~= seq![
        ("xmlns:rdf"@, rdf_namespace()),
        ("xmlns:cim"@, cim_namespace()),
    ]);
}

/// The root's tag reads as it was written.
proof fn lemma_root_tag(rest: Seq<char>)
    ensures
        ({
            let tag = "rdf:RDF"@ + root_attrs();
            &&& tag_len(tag + seq!['>'] + rest, None) == Some(tag.len())
            &&& start_of(tag) == Some(
                StartV {
                    name: "rdf:RDF"@,
                    attrs: seq![
                        ("xmlns:rdf"@, rdf_namespace()),
                        ("xmlns:cim"@, cim_namespace()),
                    ],
                    empty: false,
                },
            )
            &&& strip_prefix_of(tag, "/"@) is None
        }),
{
    reveal_strlit("/");
    lemma_root_names();
    lemma_root_attrs();
    let name = "rdf:RDF"@;
    let tag = name + root_attrs();
    // Its length.
    let end = seq!['>'] + rest;
    let p2 = nine() + "xmlns:cim"@ + seq!['='];
    let t2 = p2 + (seq!['"'] + (cim_namespace() + seq!['"'] + end));
    let p1 = name + seq![' '] + "xmlns:rdf"@ + seq!['='];
    let t1 = p1 + (seq!['"'] + (rdf_namespace() + seq!['"'] + t2));
    assert(tag + seq!['>'] + rest =~= t1);
    assert(tag_len(end, None) == Some(0nat));
    lemma_tag_len_quoted(cim_namespace(), end);
    let q2 = seq!['"'] + (cim_namespace() + seq!['"'] + end);
    assert(q2.skip(1) =~= cim_namespace() + seq!['"'] + end);
    assert(tag_len(q2, None) == Some((cim_namespace().len() + 2) as nat));
    assert(lacks(p2, '>') && lacks(p2, '"') && lacks(p2, '\'')) by {
        lemma_lacks_three(nine(), "xmlns:cim"@);
    }
    lemma_tag_len_plain(p2, q2);
    lemma_tag_len_quoted(rdf_namespace(), t2);
    let q1 = seq!['"'] + (rdf_namespace() + seq!['"'] + t2);
    assert(q1.skip(1) =~= rdf_namespace() + seq!['"'] + t2);
    assert(lacks(p1, '>') && lacks(p1, '"') && lacks(p1, '\'')) by {
        lemma_lacks_three(name + seq![' '], "xmlns:rdf"@);
    }
    lemma_tag_len_plain(p1, q1);
    // What it starts.
    let last = tag[tag.len() - 1];
    assert(last == '"');
    assert(!has_suffix(tag, "/"@)) by {
        if has_suffix(tag, "/"@) {
            assert(tag.subrange(tag.len() - 1, tag.len() as int)[0] == "/"@[0]);
        }
    }
    assert(!has_prefix(tag, "/"@)) by {
        if has_prefix(tag, "/"@) {
            assert(tag.subrange(0, 1)[0] == "/"@[0]);
            assert(tag[0] == name[0]);
        }
    }
    lemma_name_len(name, root_attrs());
    assert(tag.take(name.len() as int) =~= name);
    assert(tag.skip(name.len() as int) =~= root_attrs());
}

proof fn lemma_lacks_three(a: Seq<char>, key: Seq<char>)
    requires
        lacks(a, '>'),
        lacks(a, '"'),
        lacks(a, '\''),
        tag_name(key),
    ensures
        lacks(a + key + seq!['='], '>'),
        lacks(a + key + seq!['='], '"'),
        lacks(a + key + seq!['='], '\''),
{
    let s = a + key + seq!['='];
    assert forall|i: int| 0 <= i < s.len() implies (#[trigger] s[i]) != '>' && s[i] != '"' && s[i]
        != '\'' by {
        if i < a.len() {
            assert(s[i] == a[i]);
        } else if i < a.len() + key.len() {
            assert(s[i] == key[i - a.len()]);
        }
    }
}

/// A document that holds nothing yet.
pub open spec fn empty_doc() -> DocV {
    DocV { body: seq![], warnings: seq![], objects: seq![], object: None }
}

proof fn lemma_instruction()
    ensures
        piece_step(xml_none(), "?xml version=\"1.0\" encoding=\"UTF-8\"?>\n"@) == Ok::<XmlV, ErrorV>(
            xml_none(),
        ),
        lacks("?xml version=\"1.0\" encoding=\"UTF-8\"?>\n"@, '<'),
{
    reveal_strlit("?xml version=\"1.0\" encoding=\"UTF-8\"?>\n");
    reveal_strlit("!--");
    reveal_strlit("![CDATA[");
    reveal_strlit("?");
    reveal_strlit("?>");
    let x = "?xml version=\"1.0\" encoding=\"UTF-8\"?>\n"@;
    assert(!has_prefix(x, "!--"@)) by {
        if has_prefix(x, "!--"@) {
            assert(x.subrange(0, 3)[0] == "!--"@[0]);
        }
    }
    assert(!has_prefix(x, "![CDATA["@)) by {
        if has_prefix(x, "![CDATA["@) {
            assert(x.subrange(0, 8)[0] == "![CDATA["@[0]);
        }
    }
    assert(x.subrange(0, 1) =~= "?"@);
    let body = x.subrange(1, x.len() as int);
    let k = x.len() - 4;
    assert(body.subrange(k, k + 2) =~= "?>"@);
    lemma_find_some(body, "?>"@, 0, k);
}

/// The head of a document reads as an open root that declares the CIM
/// namespace.
pub proof fn lemma_head()
    ensures
        ready(empty_doc()),
{
    reveal_strlit("<?xml version=\"1.0\" encoding=\"UTF-8\"?>\n");
    reveal_strlit("?xml version=\"1.0\" encoding=\"UTF-8\"?>\n");
    reveal_strlit(
        "<rdf:RDF xmlns:rdf=\"http://www.w3.org/1999/02/22-rdf-syntax-ns#\"\n         xmlns:cim=\"http://iec.ch/TC57/CIM100#\">\n",
    );
    reveal_strlit("rdf:RDF");
    reveal_strlit("xmlns:rdf");
    reveal_strlit("xmlns:cim");
    reveal_strlit("http://www.w3.org/1999/02/22-rdf-syntax-ns#");
    reveal_strlit("http://iec.ch/TC57/CIM100#");
    let d = empty_doc();
    let x1 = "?xml version=\"1.0\" encoding=\"UTF-8\"?>\n"@;
    let none = Seq::<char>::empty();
    let tag = "rdf:RDF"@ + root_attrs();
    let first = none + seq!['<'] + x1;
    lemma_instruction();
    lemma_split_none(none, '<', 0, 0);
    assert(reading(none) == Ok::<XmlV, ErrorV>(xml_none()));
    lemma_read_on(none, x1);
    lemma_root_names();
    let root = "<rdf:RDF xmlns:rdf=\"http://www.w3.org/1999/02/22-rdf-syntax-ns#\"\n         xmlns:cim=\"http://iec.ch/TC57/CIM100#\">\n"@;
    assert(root =~= seq!['<'] + tag + seq!['>', '\n']);
    assert(lacks(tag, '<'));
    assert forall|w: Seq<char>| blank(w) implies #[trigger] reading(cim_header() + d.body + w)
        == Ok::<XmlV, ErrorV>(state_of(d)) by {
        let rest = seq!['\n'] + w;
        let x2 = tag + seq!['>'] + rest;
        assert(cim_header() + d.body + w =~= first + seq!['<'] + x2);
        assert(lacks(x2, '<')) by {
            lemma_blank_lacks(w);
            lemma_lacks_add(seq!['\n'], w, '<');
            lemma_lacks_add(tag, seq!['>'], '<');
            lemma_lacks_add(tag + seq!['>'], rest, '<');
        }
        lemma_read_on(first, x2);
        lemma_step_root(rest);
    }
    assert(faithful(d)) by {
        reveal(faithful);
    }
}

proof fn lemma_step_root(rest: Seq<char>)
    ensures
        piece_step(xml_none(), "rdf:RDF"@ + root_attrs() + seq!['>'] + rest) == Ok::<XmlV, ErrorV>(
            state_of(empty_doc()),
        ),
{
    let tag = "rdf:RDF"@ + root_attrs();
    let x = tag + seq!['>'] + rest;
    lemma_root_names();
    lemma_root_tag(rest);
    assert(x[0] == "rdf:RDF"@[0]);
    lemma_is_tag(xml_none(), x);
    assert(x.take(tag.len() as int) =~= tag);
    assert(x.skip(tag.len() as int + 1) =~= rest);
    let attrs = seq![("xmlns:rdf"@, rdf_namespace()), ("xmlns:cim"@, cim_namespace())];
    assert(namespace_from(attrs, 1) == Some(cim_namespace()));
    assert(namespace_from(attrs, 0) == Some(cim_namespace()));
    assert(Seq::<Seq<char>>::empty().push("rdf:RDF"@) =~= seq!["rdf:RDF"@]);
}

/// A finished document reads as the objects that were written.
pub proof fn lemma_foot(d: DocV)
    requires
        ready(d),
    ensures
        cimxml_of(cim_header() + d.body + "</rdf:RDF>\n"@) == Ok::<CimDocumentV, ErrorV>(
            (CimDocumentV {
                objects: d.objects,
                cim_namespace: Some(cim_namespace()),
                description: None,
            }),
        ),
{
    reveal_strlit("</rdf:RDF>\n");
    reveal_strlit("rdf:RDF");
    lemma_root_names();
    let none = Seq::<char>::empty();
    let rest = seq!['\n'];
    let name = "rdf:RDF"@;
    let x = seq!['/'] + name + seq!['>'] + rest;
    assert(lacks(x, '<')) by {
        lemma_end_lacks(name, none);
        assert(seq!['\n'] + none =~= rest);
    }
    assert(cim_header() + d.body + "</rdf:RDF>\n"@ =~= cim_header() + d.body + none + seq!['<'] + x);
    assert(blank(none));
    lemma_read_doc(d, none, x);
    lemma_step_end(state_of(d), name, rest);
    assert(state_of(d).path.last() == name);
    assert(state_of(d).path.drop_last() =~= seq![]);
}

} // verus!
