//! JSON values, their objects kept in key order, and the text they are read
//! from and written to.

use vstd::prelude::*;

use crate::math::{finite, is_finite, Bits, Calc, Sem};
use crate::numeral::{dec, dec_of, parse_digit_text, parse_digits};
use crate::text::{cat2, less, same, to_chars, views};

pub use crate::order::{get_from, get_of, lemma_put, put_from, put_of, sorted};

verus! {

/// A JSON value. A number is its numeral.
pub enum Json {
    Null,
    Bool(bool),
    Num(String),
    Str(String),
    Arr(Vec<Json>),
    Obj(JsonMap),
}

/// The entries of a JSON object.
pub struct JsonMap {
    pub items: Vec<(String, Json)>,
}

/// What a JSON value is.
pub enum JsonV {
    Null,
    Bool(bool),
    Num(Seq<char>),
    Str(Seq<char>),
    Arr(Seq<JsonV>),
    Obj(Seq<(Seq<char>, JsonV)>),
}

pub open spec fn json_view(j: Json) -> JsonV
    decreases j,
{
    match j {
        Json::Null => JsonV::Null,
        Json::Bool(b) => JsonV::Bool(b),
        Json::Num(s) => JsonV::Num(s@),
        Json::Str(s) => JsonV::Str(s@),
        Json::Arr(a) => JsonV::Arr(
            Seq::new(
                a@.len(),
                |i: int|
                    if 0 <= i < a@.len() {
                        json_view(a@[i])
                    } else {
                        JsonV::Null
                    },
            ),
        ),
        Json::Obj(m) => JsonV::Obj(
            Seq::new(
                m.items@.len(),
                |i: int|
                    (
                        m.items@[i].0@,
                        if 0 <= i < m.items@.len() {
                            json_view(m.items@[i].1)
                        } else {
                            JsonV::Null
                        },
                    ),
            ),
        ),
    }
}

impl View for Json {
    type V = JsonV;

    open spec fn view(&self) -> JsonV {
        json_view(*self)
    }
}

impl View for JsonMap {
    type V = Seq<(Seq<char>, JsonV)>;

    open spec fn view(&self) -> Seq<(Seq<char>, JsonV)> {
        views(self.items@)
    }
}

/// An array is the sequence of its elements' values, an object that of its
/// entries'.
pub broadcast proof fn lemma_json_view(j: Json)
    ensures
        #[trigger] j@ == (match j {
            Json::Null => JsonV::Null,
            Json::Bool(b) => JsonV::Bool(b),
            Json::Num(s) => JsonV::Num(s@),
            Json::Str(s) => JsonV::Str(s@),
            Json::Arr(a) => JsonV::Arr(views(a@)),
            Json::Obj(m) => JsonV::Obj(m@),
        }),
{
    match j {
        Json::Arr(a) => {
            assert(j@->Arr_0 =~= views(a@));
        },
        Json::Obj(m) => {
            assert(j@->Obj_0 =~= m@);
        },
        _ => {},
    }
}

// ---- objects ---------------------------------------------------------------

/// An object's entries, in key order.
pub type Entries = Seq<(Seq<char>, JsonV)>;

/// The views of an optional reference.
pub open spec fn opt_json(o: Option<&Json>) -> Option<JsonV> {
    match o {
        Some(j) => Some(j@),
        None => None,
    }
}

impl JsonMap {
    pub fn new() -> (r: Self)
        ensures
            r@ == Entries::empty(),
    {
        let r = JsonMap { items: Vec::new() };
        assert(r@ =~= Entries::empty());
        r
    }

    pub fn get(&self, k: &str) -> (r: Option<&Json>)
        ensures
            opt_json(r) == get_of(self@, k@),
            r is Some ==> decreases_to!(self => r->0),
    {
        reveal(get_of);
        let mut i: usize = 0;
        while i < self.items.len()
            invariant
                i <= self.items.len(),
                get_of(self@, k@) == get_from(self@, k@, i as int),
            decreases self.items.len() - i,
        {
            assert(self@[i as int] == (self.items@[i as int].0@, self.items@[i as int].1@));
            if same(self.items[i].0.as_str(), k) {
                return Some(&self.items[i].1);
            }
            i = i + 1;
        }
        None
    }

    pub fn has(&self, k: &str) -> (r: bool)
        ensures
            r == (get_of(self@, k@) is Some),
    {
        self.get(k).is_some()
    }

    pub fn put(&mut self, k: String, v: Json)
        ensures
            final(self)@ == put_of(old(self)@, k@, v@),
    {
        reveal(put_of);
        let ghost m = self@;
        let mut i: usize = 0;
        while i < self.items.len()
            invariant
                i <= self.items.len(),
                self@ == m,
                old(self)@ == m,
                put_of(m, k@, v@) == put_from(m, k@, v@, i as int),
            decreases self.items.len() - i,
        {
            assert(self@[i as int] == (self.items@[i as int].0@, self.items@[i as int].1@));
            if same(self.items[i].0.as_str(), k.as_str()) {
                self.items.set(i, (k, v));
                assert(self@ =~= m.update(i as int, (k@, v@)));
                return;
            }
            if less(k.as_str(), self.items[i].0.as_str()) {
                self.items.insert(i, (k, v));
                assert(self@ =~= m.insert(i as int, (k@, v@)));
                return;
            }
            i = i + 1;
        }
        self.items.push((k, v));
        assert(self@ =~= m.push((k@, v@)));
    }

    pub fn len(&self) -> (r: usize)
        ensures
            r == self@.len(),
    {
        self.items.len()
    }
}

// ---- access ----------------------------------------------------------------

/// A text value's text.
pub open spec fn str_of(j: JsonV) -> Option<Seq<char>> {
    match j {
        JsonV::Str(s) => Some(s),
        _ => None,
    }
}

impl Json {
    pub fn as_str(&self) -> (r: Option<&String>)
        ensures
            match r {
                Some(s) => str_of(self@) == Some(s@),
                None => str_of(self@) is None,
            },
    {
        match self {
            Json::Str(s) => Some(s),
            _ => None,
        }
    }

    pub fn text(s: &str) -> (r: Json)
        ensures
            r@ == JsonV::Str(s@),
    {
        Json::Str(s.to_owned())
    }

    /// A copy of the whole value.
    pub fn copy(&self) -> (r: Json)
        ensures
            r@ == self@,
        decreases self,
    {
        broadcast use lemma_json_view;

        match self {
            Json::Null => Json::Null,
            Json::Bool(b) => Json::Bool(*b),
            Json::Num(s) => Json::Num(s.clone()),
            Json::Str(s) => Json::Str(s.clone()),
            Json::Arr(a) => Json::Arr(copy_list(a)),
            Json::Obj(m) => Json::Obj(m.copy()),
        }
    }
}

fn copy_list(a: &Vec<Json>) -> (r: Vec<Json>)
    ensures
        views(r@) == views(a@),
    decreases a,
{
    let mut out: Vec<Json> = Vec::new();
    let mut i: usize = 0;
    while i < a.len()
        invariant
            i <= a.len(),
            views(out@) == views(a@).take(i as int),
        decreases a.len() - i,
    {
        let ghost before = out@;
        let x = a[i].copy();
        out.push(x);
        assert(views(out@) =~= views(before).push(x@));
        assert(views(a@).take(i + 1) =~= views(a@).take(i as int).push(a@[i as int]@));
        i = i + 1;
    }
    assert(views(out@) =~= views(a@));
    out
}

impl JsonMap {
    pub fn copy(&self) -> (r: JsonMap)
        ensures
            r@ == self@,
        decreases self,
    {
        let mut out: Vec<(String, Json)> = Vec::new();
        let mut i: usize = 0;
        while i < self.items.len()
            invariant
                i <= self.items.len(),
                views(out@) =~= self@.take(i as int),
            decreases self.items.len() - i,
        {
            let ghost before = out@;
            let k = self.items[i].0.clone();
            let v = self.items[i].1.copy();
            out.push((k, v));
            assert(views(out@) =~= views(before).push((k@, v@)));
            assert(self@.take(i + 1) =~= self@.take(i as int).push(self@[i as int]));
            i = i + 1;
        }
        assert(views(out@) =~= self@);
        JsonMap { items: out }
    }
}

// ---- numbers ---------------------------------------------------------------

/// The number a value is.
pub open spec fn num_of(m: Sem, j: JsonV) -> Option<Bits> {
    match j {
        JsonV::Num(t) => (m.parse)(t),
        _ => None,
    }
}

/// The unsigned integer a value is.
pub open spec fn uint_of(j: JsonV) -> Option<u64> {
    match j {
        JsonV::Num(t) => match parse_digits(t, u64::MAX as nat) {
            Some(n) => Some(n as u64),
            None => None,
        },
        _ => None,
    }
}

pub open spec fn bool_of(j: JsonV) -> Option<bool> {
    match j {
        JsonV::Bool(b) => Some(b),
        _ => None,
    }
}

/// The numeral of a number with a fraction: a whole number shows a zero behind
/// the point.
pub open spec fn float_text(m: Sem, x: Bits) -> Seq<char> {
    let t = (m.show)(x);
    if t.contains('.') {
        t
    } else {
        t + ".0"@
    }
}

/// A numeral as it is read from a text: the one that `serde_json` prints of the
/// number that it reads; a text that it reads no number from has none.
pub open spec fn settled(t: Seq<char>) -> JsonV {
    match json_parse(t) {
        Ok(JsonV::Num(u)) => JsonV::Num(u),
        _ => JsonV::Null,
    }
}

/// A number as a value; what is not finite has none.
pub open spec fn float_json(m: Sem, x: Bits) -> JsonV {
    if is_finite(x) {
        settled(float_text(m, x))
    } else {
        JsonV::Null
    }
}

pub open spec fn uint_json(n: nat) -> JsonV {
    JsonV::Num(dec_of(n))
}

impl Json {
    pub fn as_num<C: Calc>(&self, math: &C) -> (r: Option<Bits>)
        ensures
            r == num_of(math.sem(), self@),
    {
        match self {
            Json::Num(t) => math.parse(t.as_str()),
            _ => None,
        }
    }

    pub fn as_uint(&self) -> (r: Option<u64>)
        ensures
            r == uint_of(self@),
    {
        match self {
            Json::Num(t) => parse_digit_text(t.as_str(), u64::MAX),
            _ => None,
        }
    }

    pub fn as_bool(&self) -> (r: Option<bool>)
        ensures
            r == bool_of(self@),
    {
        match self {
            Json::Bool(b) => Some(*b),
            _ => None,
        }
    }

    pub fn float<C: Calc>(math: &C, x: Bits) -> (r: Json)
        ensures
            r@ == float_json(math.sem(), x),
    {
        if !finite(x) {
            return Json::Null;
        }
        let t = math.show(x);
        let v = to_chars(t.as_str());
        let mut i: usize = 0;
        while i < v.len()
            invariant
                i <= v.len(),
                v@ == t@,
                t@ == (math.sem().show)(x),
                is_finite(x),
                forall|k: int| 0 <= k < i ==> (#[trigger] v@[k]) != '.',
            decreases v.len() - i,
        {
            if v[i] == '.' {
                assert(t@[i as int] == '.');
                return settle(t.as_str());
            }
            i = i + 1;
        }
        assert(!t@.contains('.'));
        settle(cat2(t.as_str(), ".0").as_str())
    }

    pub fn uint(n: u64) -> (r: Json)
        ensures
            r@ == uint_json(n as nat),
    {
        Json::Num(dec(n))
    }

    pub fn as_arr(&self) -> (r: Option<&Vec<Json>>)
        ensures
            match r {
                Some(a) => self@ == JsonV::Arr(views(a@)),
                None => !(self@ is Arr),
            },
    {
        broadcast use lemma_json_view;

        match self {
            Json::Arr(a) => Some(a),
            _ => None,
        }
    }

    pub fn as_obj(&self) -> (r: Option<&JsonMap>)
        ensures
            match r {
                Some(o) => self@ == JsonV::Obj(o@),
                None => !(self@ is Obj),
            },
    {
        broadcast use lemma_json_view;

        match self {
            Json::Obj(o) => Some(o),
            _ => None,
        }
    }
}

fn settle(t: &str) -> (r: Json)
    ensures
        r@ == settled(t@),
{
    match parse_json(t) {
        Ok(Json::Num(u)) => Json::Num(u),
        _ => Json::Null,
    }
}

// ---- text ------------------------------------------------------------------

/// What `serde_json` reads from a text: the value, or the sentence with which
/// it refuses the text.
pub uninterp spec fn json_parse(text: Seq<char>) -> Result<JsonV, Seq<char>>;

/// What `serde_json` writes of a value on one line.
pub uninterp spec fn json_compact(j: JsonV) -> Seq<char>;

/// What `serde_json` writes of a value over several lines, indented.
pub uninterp spec fn json_pretty(j: JsonV) -> Seq<char>;

/// A text is read as a value.
pub open spec fn reads_as(text: Seq<char>, v: JsonV) -> bool {
    json_parse(text) == Ok::<JsonV, Seq<char>>(v)
}

/// A numeral that `serde_json` prints: of a number that it reads, or of a count.
pub open spec fn printed(t: Seq<char>) -> bool {
    ||| exists|s: Seq<char>| #[trigger] reads_as(s, JsonV::Num(t))
    ||| exists|n: nat| n <= u64::MAX && t == #[trigger] dec_of(n)
}

/// A value that its own text gives back: it nests at most `depth` levels deep,
/// its objects are in key order, and each of its numerals is a printed one.
pub open spec fn plain_json(v: JsonV, depth: nat) -> bool
    decreases v,
{
    match v {
        JsonV::Num(t) => printed(t),
        JsonV::Arr(a) => {
            &&& depth > 0
            &&& forall|i: int| 0 <= i < a.len() ==> plain_json(#[trigger] a[i], (depth - 1) as nat)
        },
        JsonV::Obj(o) => {
            &&& depth > 0
            &&& sorted(o)
            &&& forall|i: int|
                0 <= i < o.len() ==> plain_json((#[trigger] o[i]).1, (depth - 1) as nat)
        },
        _ => true,
    }
}

/// A value that its text on one line gives back, and so do the values within it.
pub open spec fn given_back(v: JsonV) -> bool
    decreases v,
{
    &&& reads_as(json_compact(v), v)
    &&& match v {
        JsonV::Arr(a) => forall|i: int| 0 <= i < a.len() ==> given_back(#[trigger] a[i]),
        JsonV::Obj(o) => forall|i: int| 0 <= i < o.len() ==> given_back((#[trigger] o[i]).1),
        _ => true,
    }
}

#[verifier::external_type_specification]
#[verifier::external_body]
pub struct ExValue(serde_json::Value);

/// A `serde_json` value as one of this library: variant by variant, a number as
/// the numeral `serde_json` prints for it. Nothing is claimed of the result.
#[verifier::external_body]
fn from_value(v: serde_json::Value) -> (r: Json) {
    match v {
        serde_json::Value::Null => Json::Null,
        serde_json::Value::Bool(b) => Json::Bool(b),
        serde_json::Value::Number(n) => Json::Num(n.to_string()),
        serde_json::Value::String(s) => Json::Str(s),
        serde_json::Value::Array(a) => Json::Arr(a.into_iter().map(from_value).collect()),
        serde_json::Value::Object(o) => Json::Obj(
            JsonMap { items: o.into_iter().map(|(k, x)| (k, from_value(x))).collect() },
        ),
    }
}

/// A value of this library as one of `serde_json`, variant by variant; a
/// numeral that `serde_json` does not read as a number becomes null. Nothing is
/// claimed of the result.
#[verifier::external_body]
fn to_value(j: &Json) -> (r: serde_json::Value) {
    match j {
        Json::Null => serde_json::Value::Null,
        Json::Bool(b) => serde_json::Value::Bool(*b),
        Json::Num(t) => t.parse().map_or(serde_json::Value::Null, serde_json::Value::Number),
        Json::Str(s) => serde_json::Value::String(s.clone()),
        Json::Arr(a) => serde_json::Value::Array(a.iter().map(to_value).collect()),
        Json::Obj(m) => serde_json::Value::Object(
            m.items.iter().map(|(k, x)| (k.clone(), to_value(x))).collect(),
        ),
    }
}

/// `serde_json::from_str`: the result is the one named [`json_parse`]; the
/// error is the sentence that `serde_json::Error` displays. A value that was read
/// is in key order, prints its numbers in one way and nests at most 127 levels
/// deep, so that what `serde_json::to_string` writes of it, or of a value within
/// it, is read as it again.
#[verifier::external_body]
pub(crate) fn parse_json(text: &str) -> (r: Result<Json, String>)
    ensures
        match r {
            Ok(j) => json_parse(text@) == Ok::<JsonV, Seq<char>>(j@),
            Err(e) => json_parse(text@) == Err::<JsonV, Seq<char>>(e@),
        },
        r matches Ok(j) ==> given_back(j@) && plain_json(j@, 127),
{
    match serde_json::from_str::<serde_json::Value>(text) {
        Ok(v) => Ok(from_value(v)),
        Err(e) => Err(e.to_string()),
    }
}

/// `serde_json::to_string`: the result is the one named [`json_compact`].
/// Writing a value made of text keys never fails.
#[verifier::external_body]
pub(crate) fn compact_json(j: &Json) -> (r: String)
    ensures
        r@ == json_compact(j@),
{
    serde_json::to_string(&to_value(j)).unwrap_or_default()
}

/// `serde_json::to_string_pretty`: the result is the one named [`json_pretty`].
/// Writing a value made of text keys never fails. The text, with or without an
/// end of line behind it, is read as the value by `serde_json::from_str`, which
/// refuses a nesting of more than 127 levels, keeps objects in key order, reads
/// what it printed of a number as that number, and digits as the count; of a value that is not plain
/// in this sense nothing is claimed.
#[verifier::external_body]
pub(crate) fn pretty_json(j: &Json) -> (r: String)
    ensures
        r@ == json_pretty(j@),
        plain_json(j@, 127) ==> reads_as(r@, j@) && reads_as(r@ + "\n"@, j@),
{
    serde_json::to_string_pretty(&to_value(j)).unwrap_or_default()
}

} // verus!
