//! DGS text and bytes as a network.
//!
//! The format is read only: a network read from it names no source format, so
//! its text is never written back as it was.

use std::sync::Arc;

use vstd::prelude::*;
use vstd::utf8::{decode_utf8, valid_utf8};

use crate::dgs::network::{build, network_of};
use crate::dgs::scan::{refusal, refuse, scan, scan_of};
use crate::error::{outcome, Error, ErrorV, Outcome, Result};
use crate::math::{Calc, Sem};
use crate::model::{DistNetwork, DistNetworkV};
use crate::text::{
    group_views, has_prefix, split, split_of, starts_with, to_chars, trim_start, trim_start_of,
    views,
};

verus! {

// ---- binary content --------------------------------------------------------

/// A control character that no text export holds: any but tab, line feed and
/// carriage return.
pub open spec fn is_binary(c: char) -> bool {
    let u = c as u32;
    u < 0x09 || 0x0e <= u < 0x20 || u == 0x0b || u == 0x0c
}

pub open spec fn holds_binary(s: Seq<char>) -> bool {
    exists|i: int| 0 <= i < s.len() && is_binary(#[trigger] s[i])
}

/// Whether a line opens a table.
pub open spec fn opens_table(line: Seq<char>) -> bool {
    has_prefix(trim_start_of(line), "$$"@)
}

pub open spec fn holds_table(s: Seq<char>) -> bool {
    exists|i: int|
        0 <= i < split_of(s, '\n').len() && opens_table(#[trigger] split_of(s, '\n')[i])
}

/// Text without control characters in which some line opens a table.
pub open spec fn is_ascii_export(s: Seq<char>) -> bool {
    !holds_binary(s) && holds_table(s)
}

pub open spec fn binary_refusal() -> ErrorV {
    refusal(
        "this looks like an encrypted PowerFactory export (.pfd or binary). Export ASCII DGS instead: PowerFactory \u{2192} File \u{2192} Export \u{2192} DGS (*.dgs), DGS version 6.0 or 7.0"@,
    )
}

fn pfd_rejection() -> (r: Error)
    ensures
        r@ == binary_refusal(),
{
    refuse(
        "this looks like an encrypted PowerFactory export (.pfd or binary). Export ASCII DGS instead: PowerFactory \u{2192} File \u{2192} Export \u{2192} DGS (*.dgs), DGS version 6.0 or 7.0".to_owned(),
    )
}

/// Refuses binary or encrypted content.
pub fn sniff_binary(source: &str) -> (r: Result<()>)
    ensures
        r is Ok == is_ascii_export(source@),
        r matches Err(e) ==> e@ == binary_refusal(),
{
    let v = to_chars(source);
    let mut i: usize = 0;
    while i < v.len()
        invariant
            i <= v.len(),
            v@ == source@,
            forall|k: int| 0 <= k < i ==> !is_binary(#[trigger] v@[k]),
        decreases v.len() - i,
    {
        let u: u32 = v[i] as u32;
        if u < 0x09 || (0x0e <= u && u < 0x20) || u == 0x0b || u == 0x0c {
            assert(is_binary(source@[i as int]));
            return Err(pfd_rejection());
        }
        i = i + 1;
    }
    let lines = split(source, '\n');
    assert(views(lines@).len() == lines.len());
    let mut k: usize = 0;
    while k < lines.len()
        invariant
            k <= lines.len(),
            views(lines@).len() == lines.len(),
            views(lines@) == split_of(source@, '\n'),
            !holds_binary(source@),
            forall|j: int| 0 <= j < k ==> !opens_table(#[trigger] views(lines@)[j]),
        decreases lines.len() - k,
    {
        assert(views(lines@)[k as int] == lines@[k as int]@);
        let t = trim_start(lines[k].as_str());
        if starts_with(t.as_str(), "$$") {
            assert(opens_table(split_of(source@, '\n')[k as int]));
            return Ok(());
        }
        k = k + 1;
    }
    Err(pfd_rejection())
}

// ---- text ------------------------------------------------------------------

/// The network that a text describes, or why it describes none. The scanner's
/// warnings come before the reader's, and the network keeps the text.
pub open spec fn dgs_text(
    m: Sem,
    text: Seq<char>,
    hint: Option<Seq<char>>,
) -> Outcome<DistNetworkV> {
    if !is_ascii_export(text) {
        Err(binary_refusal())
    } else {
        match scan_of(text) {
            Err(e) => Err(e),
            Ok((doc, warnings)) => match network_of(m, doc, hint) {
                Err(e) => Err(e),
                Ok(net) => Ok(
                    DistNetworkV {
                        warnings: warnings + net.warnings,
                        source: Some(text),
                        ..net
                    },
                ),
            },
        }
    }
}

fn read_text<C: Calc>(math: &C, text: &str, hint: Option<&str>) -> (r: Result<DistNetwork>)
    ensures
        outcome(r) == dgs_text(
            math.sem(),
            text@,
            (match hint {
                Some(h) => Some(h@),
                None => None,
            }),
        ),
{
    broadcast use group_views;

    match sniff_binary(text) {
        Ok(_) => {},
        Err(e) => {
            return Err(e);
        },
    }
    let (doc, w) = match scan(text) {
        Ok(p) => p,
        Err(e) => {
            return Err(e);
        },
    };
    let mut net = match build(math, &doc, hint) {
        Ok(n) => n,
        Err(e) => {
            return Err(e);
        },
    };
    let mut warnings = w;
    let mut tail = net.warnings;
    warnings.append(&mut tail);
    net.warnings = warnings;
    net.source = Some(Arc::new(text.to_owned()));
    Ok(net)
}

/// Reads a decoded DGS export.
pub fn parse_dgs_str<C: Calc>(math: &C, text: &str) -> (r: Result<DistNetwork>)
    ensures
        outcome(r) == dgs_text(math.sem(), text@, None),
{
    read_text(math, text, None)
}

// ---- bytes -----------------------------------------------------------------

/// What `String::from_utf8_lossy` makes of bytes.
pub uninterp spec fn utf8_lossy(bytes: Seq<u8>) -> Seq<char>;

/// `String::from_utf8_lossy`: of valid UTF-8 the text it encodes. How many
/// replacement characters stand for bytes that are not valid is left unsaid:
/// that text has a name, [`utf8_lossy`].
#[verifier::external_body]
fn from_utf8_lossy(bytes: &[u8]) -> (r: String)
    ensures
        r@ == utf8_lossy(bytes@),
        valid_utf8(bytes@) ==> r@ == decode_utf8(bytes@),
{
    String::from_utf8_lossy(bytes).into_owned()
}

/// `std::str::from_utf8`: the text that bytes encode, where they are valid
/// UTF-8.
#[verifier::external_body]
fn from_utf8(bytes: &[u8]) -> (r: Option<String>)
    ensures
        match r {
            Some(s) => valid_utf8(bytes@) && s@ == decode_utf8(bytes@),
            None => !valid_utf8(bytes@),
        },
{
    match std::str::from_utf8(bytes) {
        Ok(s) => Some(s.to_owned()),
        Err(_) => None,
    }
}

pub open spec fn is_high(u: u16) -> bool {
    0xd800 <= u <= 0xdbff
}

pub open spec fn is_low(u: u16) -> bool {
    0xdc00 <= u <= 0xdfff
}

/// The text of UTF-16 code units from the `i`-th on: a surrogate pair is one
/// character, and a surrogate outside a pair is the replacement character.
pub open spec fn utf16_from(units: Seq<u16>, i: int) -> Seq<char>
    decreases units.len() - i,
{
    if i < 0 || i >= units.len() {
        seq![]
    } else if is_high(units[i]) && i + 1 < units.len() && is_low(units[i + 1]) {
        seq![
            (0x10000 + (units[i] - 0xd800) * 0x400 + (units[i + 1] - 0xdc00)) as char,
        ] + utf16_from(units, i + 2)
    } else if is_high(units[i]) || is_low(units[i]) {
        seq!['\u{fffd}'] + utf16_from(units, i + 1)
    } else {
        seq![units[i] as char] + utf16_from(units, i + 1)
    }
}

/// `String::from_utf16_lossy`: the text of UTF-16 code units, with the
/// replacement character for each surrogate outside a pair.
#[verifier::external_body]
fn from_utf16_lossy(units: &[u16]) -> (r: String)
    ensures
        r@ == utf16_from(units@, 0),
{
    String::from_utf16_lossy(units)
}

/// The code unit of two bytes.
pub open spec fn unit_of(a: u8, b: u8, big_endian: bool) -> u16 {
    if big_endian {
        (a * 256 + b) as u16
    } else {
        (b * 256 + a) as u16
    }
}

/// The code units of whole pairs of bytes.
pub open spec fn units_of(bytes: Seq<u8>, big_endian: bool) -> Seq<u16> {
    Seq::new(bytes.len() / 2, |i: int| unit_of(bytes[2 * i], bytes[2 * i + 1], big_endian))
}

/// UTF-16 text; a trailing odd byte is the replacement character.
pub open spec fn utf16_text(bytes: Seq<u8>, big_endian: bool) -> Seq<char> {
    let text = utf16_from(units_of(bytes, big_endian), 0);
    if bytes.len() % 2 == 1 {
        text.push('\u{fffd}')
    } else {
        text
    }
}

fn decode_utf16(bytes: &Vec<u8>, big_endian: bool) -> (r: String)
    ensures
        r@ == utf16_text(bytes@, big_endian),
{
    let n = bytes.len() / 2;
    let mut units: Vec<u16> = Vec::new();
    let mut i: usize = 0;
    while i < n
        invariant
            i <= n,
            n == bytes.len() / 2,
            units@ =~= units_of(bytes@, big_endian).take(i as int),
        decreases n - i,
    {
        let a = bytes[2 * i] as u16;
        let b = bytes[2 * i + 1] as u16;
        let u: u16 = if big_endian {
            a * 256 + b
        } else {
            b * 256 + a
        };
        units.push(u);
        i = i + 1;
    }
    assert(units@ =~= units_of(bytes@, big_endian));
    let mut text = from_utf16_lossy(units.as_slice());
    if bytes.len() % 2 == 1 {
        text.push('\u{fffd}');
    }
    text
}

/// Whether bytes start with others.
pub open spec fn begins(bytes: Seq<u8>, p: Seq<u8>) -> bool {
    p.len() <= bytes.len() && bytes.subrange(0, p.len() as int) == p
}

/// Bytes read one for one as the first characters of Unicode.
pub open spec fn latin1(bytes: Seq<u8>) -> Seq<char> {
    Seq::new(bytes.len(), |i: int| bytes[i] as char)
}

/// The text of an export: a byte-order mark says how the rest is encoded;
/// without one it is UTF-8 where it is valid, else Latin-1.
pub open spec fn decoded(bytes: Seq<u8>) -> Seq<char> {
    if begins(bytes, seq![0xefu8, 0xbbu8, 0xbfu8]) {
        let rest = bytes.skip(3);
        if valid_utf8(rest) {
            decode_utf8(rest)
        } else {
            utf8_lossy(rest)
        }
    } else if begins(bytes, seq![0xffu8, 0xfeu8]) {
        utf16_text(bytes.skip(2), false)
    } else if begins(bytes, seq![0xfeu8, 0xffu8]) {
        utf16_text(bytes.skip(2), true)
    } else if valid_utf8(bytes) {
        decode_utf8(bytes)
    } else {
        latin1(bytes)
    }
}

fn after(bytes: &[u8], k: usize) -> (r: Vec<u8>)
    requires
        k <= bytes@.len(),
    ensures
        r@ == bytes@.skip(k as int),
{
    let mut r: Vec<u8> = Vec::new();
    let mut i: usize = k;
    while i < bytes.len()
        invariant
            k <= i <= bytes@.len(),
            r@ =~= bytes@.subrange(k as int, i as int),
        decreases bytes@.len() - i,
    {
        r.push(bytes[i]);
        i = i + 1;
    }
    assert(r@ =~= bytes@.skip(k as int));
    r
}

/// Decodes the bytes of an export.
pub fn decode_dgs_bytes(bytes: &[u8]) -> (r: String)
    ensures
        r@ == decoded(bytes@),
{
    let n = bytes.len();
    let utf8 = n >= 3 && bytes[0] == 0xef && bytes[1] == 0xbb && bytes[2] == 0xbf;
    let little = n >= 2 && bytes[0] == 0xff && bytes[1] == 0xfe;
    let big = n >= 2 && bytes[0] == 0xfe && bytes[1] == 0xff;
    proof {
        let b = bytes@;
        let p3 = seq![0xefu8, 0xbbu8, 0xbfu8];
        let pl = seq![0xffu8, 0xfeu8];
        let pb = seq![0xfeu8, 0xffu8];
        assert(p3[0] == 0xef && p3[1] == 0xbb && p3[2] == 0xbf);
        assert(pl[0] == 0xff && pl[1] == 0xfe && pb[0] == 0xfe && pb[1] == 0xff);
        assert(utf8 == begins(b, p3)) by {
            if utf8 {
                assert(b.subrange(0, 3) =~= p3);
            } else if begins(b, p3) {
                assert(b.subrange(0, 3)[0] == b[0] && b.subrange(0, 3)[1] == b[1] && b.subrange(
                    0,
                    3,
                )[2] == b[2]);
            }
        }
        assert(little == begins(b, pl)) by {
            if little {
                assert(b.subrange(0, 2) =~= pl);
            } else if begins(b, pl) {
                assert(b.subrange(0, 2)[0] == b[0] && b.subrange(0, 2)[1] == b[1]);
            }
        }
        assert(big == begins(b, pb)) by {
            if big {
                assert(b.subrange(0, 2) =~= pb);
            } else if begins(b, pb) {
                assert(b.subrange(0, 2)[0] == b[0] && b.subrange(0, 2)[1] == b[1]);
            }
        }
    }
    if utf8 {
        let rest = after(bytes, 3);
        return from_utf8_lossy(rest.as_slice());
    }
    if little {
        return decode_utf16(&after(bytes, 2), false);
    }
    if big {
        return decode_utf16(&after(bytes, 2), true);
    }
    match from_utf8(bytes) {
        Some(s) => s,
        None => {
            let mut s = String::new();
            let mut i: usize = 0;
            assert(s@ =~= latin1(bytes@).take(0));
            while i < bytes.len()
                invariant
                    i <= bytes@.len(),
                    s@ == latin1(bytes@).take(i as int),
                decreases bytes@.len() - i,
            {
                s.push(bytes[i] as char);
                i = i + 1;
                assert(s@ =~= latin1(bytes@).take(i as int));
            }
            assert(s@ =~= latin1(bytes@));
            s
        },
    }
}

/// Reads the bytes of a DGS file; `hint` names the network where its grid does
/// not.
pub fn parse_dgs_bytes<C: Calc>(math: &C, bytes: &[u8], hint: Option<&str>) -> (r: Result<
    DistNetwork,
>)
    ensures
        outcome(r) == dgs_text(
            math.sem(),
            decoded(bytes@),
            (match hint {
                Some(h) => Some(h@),
                None => None,
            }),
        ),
{
    let text = decode_dgs_bytes(bytes);
    read_text(math, text.as_str(), hint)
}

} // verus!
