//! What a writer has emitted so far, and the pieces every object is made of.

use vstd::prelude::*;

use crate::json::{
    float_json, get_of, lemma_json_view, num_of, put_of, str_of, uint_json, Entries, Json, JsonMap,
    JsonV,
};
use crate::math::{eq, finite, is_finite, num_eq, over, plus, Bits, Calc, Sem, THOUSAND, ZERO};
use crate::model::Extras;
use crate::numeral::{dec, dec_of};
use crate::order::{contains, set_put, set_put_of};
use crate::ravens::name::{det_mrid, det_mrid_of, terminal_phase, terminal_phase_of};
use crate::text::{
    cat2, cat3, cat4, group_views, has_prefix, lower, lower_of, same, starts_with, to_chars, trim,
    trim_of, views,
};

verus! {

// ---- pieces ----------------------------------------------------------------

/// A pointer to an object.
pub open spec fn pointer_json(class: Seq<char>, name: Seq<char>) -> JsonV {
    JsonV::Str(class + "::'"@ + name + "'"@)
}

pub fn pointer(class: &str, name: &str) -> (r: Json)
    ensures
        r@ == pointer_json(class@, name@),
{
    Json::Str(cat4(class, "::'", name, "'"))
}

/// What every object starts from: its class, its identifier and its name. An
/// imported identifier stands, any other derives from class and name.
#[verifier::opaque]
pub open spec fn identified_of(
    kind: Seq<char>,
    name: Seq<char>,
    imported: Option<Seq<char>>,
) -> Entries {
    let id = match imported {
        Some(s) => s,
        None => det_mrid_of(kind, name),
    };
    put_of(
        put_of(
            put_of(Entries::empty(), "Ravens.cimObjectType"@, JsonV::Str(kind)),
            "IdentifiedObject.mRID"@,
            JsonV::Str(id),
        ),
        "IdentifiedObject.name"@,
        JsonV::Str(name),
    )
}

pub fn identified(kind: &str, name: &str, imported: Option<&String>) -> (r: JsonMap)
    ensures
        r@ == identified_of(
            kind@,
            name@,
            match imported {
                Some(s) => Some(s@),
                None => None,
            },
        ),
{
    reveal(identified_of);
    let id = match imported {
        Some(s) => s.clone(),
        None => det_mrid(kind, name),
    };
    let mut o = JsonMap::new();
    o.put("Ravens.cimObjectType".to_owned(), Json::text(kind));
    o.put("IdentifiedObject.mRID".to_owned(), Json::Str(id));
    o.put("IdentifiedObject.name".to_owned(), Json::text(name));
    o
}

/// The imported identifier in an element's extras.
pub open spec fn extras_mrid_of(extras: Entries) -> Option<Seq<char>> {
    match get_of(extras, "ravens_mrid"@) {
        Some(v) => str_of(v),
        None => None,
    }
}

pub fn extras_mrid(extras: &Extras) -> (r: Option<&String>)
    ensures
        match r {
            Some(s) => extras_mrid_of(extras@) == Some(s@),
            None => extras_mrid_of(extras@) is None,
        },
{
    match extras.get("ravens_mrid") {
        Some(v) => v.as_str(),
        None => None,
    }
}

/// An extra as a number, be it one or text that denotes one.
#[verifier::opaque]
pub open spec fn extra_num(m: Sem, extras: Entries, key: Seq<char>) -> Option<Bits> {
    match get_of(extras, key) {
        Some(v) => match num_of(m, v) {
            Some(x) => Some(x),
            None => match str_of(v) {
                Some(s) => (m.parse)(trim_of(s)),
                None => None,
            },
        },
        None => None,
    }
}

pub fn xnum<C: Calc>(math: &C, extras: &Extras, key: &str) -> (r: Option<Bits>)
    ensures
        r == extra_num(math.sem(), extras@, key@),
{
    reveal(extra_num);
    match extras.get(key) {
        Some(v) => match v.as_num(math) {
            Some(x) => Some(x),
            None => match v.as_str() {
                Some(s) => math.parse(trim(s.as_str()).as_str()),
                None => None,
            },
        },
        None => None,
    }
}

/// The letters of the first `n` terminals, run together; those of terminals that
/// carry no phase left out, and the neutral's where `hot` says so.
pub open spec fn letters_n(map: Seq<Seq<char>>, hot: bool, n: nat) -> Seq<char>
    decreases n,
{
    if n == 0 {
        seq![]
    } else {
        match terminal_phase_of(map[n - 1]) {
            Some(l) => if hot && l == "N"@ {
                letters_n(map, hot, (n - 1) as nat)
            } else {
                letters_n(map, hot, (n - 1) as nat) + l
            },
            None => letters_n(map, hot, (n - 1) as nat),
        }
    }
}

fn letters(map: &Vec<String>, hot: bool) -> (r: String)
    ensures
        r@ == letters_n(views(map@), hot, map@.len()),
{
    let mut r = String::new();
    let mut i: usize = 0;
    while i < map.len()
        invariant
            i <= map.len(),
            r@ == letters_n(views(map@), hot, i as nat),
        decreases map.len() - i,
    {
        assert(views(map@)[i as int] == map@[i as int]@);
        if let Some(l) = terminal_phase(map[i].as_str()) {
            if !(hot && same(l, "N")) {
                r.append(l);
            }
        }
        i = i + 1;
    }
    r
}

/// The phase code of the hot terminals of a map.
pub open spec fn hot_code_of(map: Seq<Seq<char>>) -> Seq<char> {
    "PhaseCode."@ + letters_n(map, true, map.len())
}

pub fn hot_code(map: &Vec<String>) -> (r: String)
    ensures
        r@ == hot_code_of(views(map@)),
{
    assert(views(map@).len() == map@.len());
    cat2("PhaseCode.", letters(map, true).as_str())
}

/// The phase code of a whole map, the neutral with it.
pub open spec fn full_code_of(map: Seq<Seq<char>>) -> Seq<char> {
    "PhaseCode."@ + letters_n(map, false, map.len())
}

pub fn full_code(map: &Vec<String>) -> (r: String)
    ensures
        r@ == full_code_of(views(map@)),
{
    assert(views(map@).len() == map@.len());
    cat2("PhaseCode.", letters(map, false).as_str())
}

/// The ordered phase code of a whole map.
pub open spec fn ordered_code_of(map: Seq<Seq<char>>) -> Seq<char> {
    "OrderedPhaseCodeKind."@ + letters_n(map, false, map.len())
}

pub fn ordered_code(map: &Vec<String>) -> (r: String)
    ensures
        r@ == ordered_code_of(views(map@)),
{
    assert(views(map@).len() == map@.len());
    cat2("OrderedPhaseCodeKind.", letters(map, false).as_str())
}

/// The letters of the first `n` terminals that are hot, one by one.
pub open spec fn hot_letters_n(map: Seq<Seq<char>>, n: nat) -> Seq<Seq<char>>
    decreases n,
{
    if n == 0 {
        seq![]
    } else {
        match terminal_phase_of(map[n - 1]) {
            Some(l) => if l == "N"@ {
                hot_letters_n(map, (n - 1) as nat)
            } else {
                hot_letters_n(map, (n - 1) as nat).push(l)
            },
            None => hot_letters_n(map, (n - 1) as nat),
        }
    }
}

pub open spec fn hot_letters_of(map: Seq<Seq<char>>) -> Seq<Seq<char>> {
    hot_letters_n(map, map.len())
}

pub fn hot_letters(map: &Vec<String>) -> (r: Vec<String>)
    ensures
        views(r@) == hot_letters_of(views(map@)),
{
    broadcast use group_views;

    let mut r: Vec<String> = Vec::new();
    let mut i: usize = 0;
    while i < map.len()
        invariant
            i <= map.len(),
            views(r@) == hot_letters_n(views(map@), i as nat),
        decreases map.len() - i,
    {
        assert(views(map@)[i as int] == map@[i as int]@);
        if let Some(l) = terminal_phase(map[i].as_str()) {
            if !same(l, "N") {
                r.push(l.to_owned());
            }
        }
        i = i + 1;
    }
    assert(views(map@).len() == map.len());
    r
}

/// A terminal entry: its number, its phases, its node and its limits.
#[verifier::opaque]
pub open spec fn terminal_json(
    owner: Seq<char>,
    seq: nat,
    node: Seq<char>,
    phases: Seq<char>,
    limits: Option<Seq<char>>,
) -> JsonV {
    let t = identified_of("Terminal"@, owner + "_T"@ + dec_of(seq), None);
    let t = put_of(t, "ACDCTerminal.sequenceNumber"@, uint_json(seq));
    let t = put_of(t, "Terminal.phases"@, JsonV::Str(phases));
    let t = put_of(t, "Terminal.ConnectivityNode"@, pointer_json("ConnectivityNode"@, node));
    match limits {
        Some(set) => JsonV::Obj(
            put_of(
                t,
                "ACDCTerminal.OperationalLimitSet"@,
                pointer_json("OperationalLimitSet"@, set),
            ),
        ),
        None => JsonV::Obj(t),
    }
}

/// A JSON object made of entries.
pub fn object(m: JsonMap) -> (r: Json)
    ensures
        r@ == JsonV::Obj(m@),
{
    broadcast use lemma_json_view;

    Json::Obj(m)
}

/// A JSON array made of values.
pub fn array(v: Vec<Json>) -> (r: Json)
    ensures
        r@ == JsonV::Arr(views(v@)),
{
    broadcast use lemma_json_view;

    Json::Arr(v)
}

pub fn array1(a: Json) -> (r: Json)
    ensures
        r@ == JsonV::Arr(seq![a@]),
{
    let mut v: Vec<Json> = Vec::new();
    let ghost av = a@;
    v.push(a);
    assert(views(v@) =~= seq![av]);
    array(v)
}

pub fn array2(a: Json, b: Json) -> (r: Json)
    ensures
        r@ == JsonV::Arr(seq![a@, b@]),
{
    let mut v: Vec<Json> = Vec::new();
    let ghost av = a@;
    let ghost bv = b@;
    v.push(a);
    v.push(b);
    assert(views(v@) =~= seq![av, bv]);
    array(v)
}

pub fn terminal(
    owner: &str,
    seq: u64,
    node: &str,
    phases: &str,
    limits: &Option<String>,
) -> (r: Json)
    ensures
        r@ == terminal_json(
            owner@,
            seq as nat,
            node@,
            phases@,
            match limits {
                Some(s) => Some(s@),
                None => None,
            },
        ),
{
    reveal(terminal_json);
    let n = dec(seq);
    let name = cat3(owner, "_T", n.as_str());
    let mut t = identified("Terminal", name.as_str(), None);
    t.put("ACDCTerminal.sequenceNumber".to_owned(), Json::uint(seq));
    t.put("Terminal.phases".to_owned(), Json::text(phases));
    t.put("Terminal.ConnectivityNode".to_owned(), pointer("ConnectivityNode", node));
    if let Some(set) = limits {
        t.put(
            "ACDCTerminal.OperationalLimitSet".to_owned(),
            pointer("OperationalLimitSet", set.as_str()),
        );
    }
    object(t)
}

/// Whether a numeral shows a fraction, an exponent, or no number at all.
pub open spec fn shows_fraction(s: Seq<char>) -> bool {
    exists|i: int|
        0 <= i < s.len() && ((#[trigger] s[i]) == '.' || s[i] == 'e' || s[i] == 'E' || s[i] == 'n'
            || s[i] == 'i')
}

/// A number as names embed it: a whole one shows a zero behind the point.
#[verifier::opaque]
pub open spec fn shown(m: Sem, v: Bits) -> Seq<char> {
    let s = (m.show)(v);
    if shows_fraction(s) {
        s
    } else {
        s + ".0"@
    }
}

pub fn fdisp<C: Calc>(math: &C, v: Bits) -> (r: String)
    ensures
        r@ == shown(math.sem(), v),
{
    reveal(shown);
    let s = math.show(v);
    let c = to_chars(s.as_str());
    let mut i: usize = 0;
    while i < c.len()
        invariant
            i <= c.len(),
            c@ == s@,
            s@ == (math.sem().show)(v),
            forall|k: int|
                0 <= k < i ==> !((#[trigger] c@[k]) == '.' || c@[k] == 'e' || c@[k] == 'E' || c@[k]
                    == 'n' || c@[k] == 'i'),
        decreases c.len() - i,
    {
        let x = c[i];
        if x == '.' || x == 'e' || x == 'E' || x == 'n' || x == 'i' {
            assert(s@[i as int] == x);
            assert(shows_fraction(s@));
            reveal(shown);
            return s;
        }
        i = i + 1;
    }
    assert(!shows_fraction(s@));
    cat2(s.as_str(), ".0")
}

/// The sum of the first `n` numbers.
pub open spec fn sum_n(m: Sem, v: Seq<Bits>, n: nat) -> Bits
    decreases n,
{
    if n == 0 {
        ZERO
    } else {
        m.plus(sum_n(m, v, (n - 1) as nat), v[n - 1])
    }
}

pub open spec fn sum_of(m: Sem, v: Seq<Bits>) -> Bits {
    sum_n(m, v, v.len())
}

pub fn sum<C: Calc>(math: &C, v: &Vec<Bits>) -> (r: Bits)
    ensures
        r == sum_of(math.sem(), v@),
{
    let mut r = ZERO;
    let mut i: usize = 0;
    while i < v.len()
        invariant
            i <= v.len(),
            r == sum_n(math.sem(), v@, i as nat),
        decreases v.len() - i,
    {
        r = plus(math, r, v[i]);
        i = i + 1;
    }
    r
}

// ---- the writer ------------------------------------------------------------

/// What has been emitted: warnings, limit sets, the limit types they use,
/// response records, connection profiles, and the buses whose grounding an
/// emitted element implies. And the nominal volts of each bus.
pub struct WriterV {
    pub warnings: Seq<Seq<char>>,
    pub limit_sets: Entries,
    pub used_types: Seq<Seq<char>>,
    pub responses: Entries,
    pub profiles: Entries,
    pub grounded: Seq<Seq<char>>,
    pub bases: Seq<(Seq<char>, Bits)>,
}

/// The volts of a bus, from the `i`-th on.
pub open spec fn base_from(bases: Seq<(Seq<char>, Bits)>, bus: Seq<char>, i: int) -> Option<Bits>
    decreases bases.len() - i,
{
    if i < 0 || i >= bases.len() {
        None
    } else if bases[i].0 == bus {
        Some(bases[i].1)
    } else {
        base_from(bases, bus, i + 1)
    }
}

/// The name of a base voltage.
pub open spec fn base_name(m: Sem, volts: Bits) -> Seq<char> {
    "BaseV_"@ + shown(m, m.over(volts, THOUSAND))
}

/// Whether an extra is one an element carries on purpose.
pub open spec fn is_carried(key: Seq<char>, consumed: Seq<Seq<char>>) -> bool {
    consumed.contains(key) || has_prefix(key, "ravens_"@) || has_prefix(key, "pmd_"@) || key
        == "bmopf_subtype"@
}

impl WriterV {
    #[verifier::opaque]
    pub open spec fn warn(self, s: Seq<char>) -> WriterV {
        WriterV { warnings: self.warnings.push(s), ..self }
    }

    /// A number as a value; one that is not finite is reported and stands as
    /// zero.
    #[verifier::opaque]
    pub open spec fn num(self, m: Sem, v: Bits, what: Seq<char>) -> (WriterV, JsonV) {
        if is_finite(v) {
            (self, float_json(m, v))
        } else {
            (
                self.warn(
                    what + ": non-finite value cannot be carried by JSON; emitted 0"@,
                ),
                uint_json(0),
            )
        }
    }

    /// The entries with a number under a key.
    pub open spec fn put_num(
        self,
        m: Sem,
        o: Entries,
        key: Seq<char>,
        v: Bits,
        what: Seq<char>,
    ) -> (
        WriterV,
        Entries,
    ) {
        let (w, j) = self.num(m, v, what);
        (w, put_of(o, key, j))
    }

    /// The entries with a number under a key, where there is one.
    pub open spec fn put_opt(
        self,
        m: Sem,
        o: Entries,
        key: Seq<char>,
        v: Option<Bits>,
        what: Seq<char>,
    ) -> (WriterV, Entries) {
        match v {
            Some(x) => self.put_num(m, o, key, x, what),
            None => (self, o),
        }
    }

    #[verifier::opaque]
    pub open spec fn base_of(self, bus: Seq<char>) -> Option<Bits> {
        base_from(self.bases, lower_of(bus), 0)
    }

    /// The entries with a pointer to the base voltage of a bus.
    #[verifier::opaque]
    pub open spec fn put_base(self, m: Sem, o: Entries, bus: Seq<char>) -> Entries {
        match self.base_of(bus) {
            Some(v) => put_of(
                o,
                "ConductingEquipment.BaseVoltage"@,
                pointer_json("BaseVoltage"@, base_name(m, v)),
            ),
            None => o,
        }
    }

    #[verifier::opaque]
    pub open spec fn ground(self, bus: Seq<char>) -> WriterV {
        WriterV { grounded: set_put_of(self.grounded, lower_of(bus)), ..self }
    }

    pub open spec fn warn_extras_n(
        self,
        what: Seq<char>,
        extras: Entries,
        consumed: Seq<Seq<char>>,
        n: nat,
    ) -> WriterV
        decreases n,
    {
        if n == 0 {
            self
        } else {
            let before = self.warn_extras_n(what, extras, consumed, (n - 1) as nat);
            if is_carried(extras[n - 1].0, consumed) {
                before
            } else {
                before.warn(
                    what + ": extra `"@ + extras[n - 1].0
                        + "` has no MG-RAVENS slot; dropped (the schema closes every class with additionalProperties: false)"@,
                )
            }
        }
    }

    /// A warning for each extra that has no place in the document.
    #[verifier::opaque]
    pub open spec fn warn_extras(
        self,
        what: Seq<char>,
        extras: Entries,
        consumed: Seq<Seq<char>>,
    ) -> WriterV {
        self.warn_extras_n(what, extras, consumed, extras.len())
    }
}

pub struct Writer {
    pub warnings: Vec<String>,
    pub limit_sets: JsonMap,
    pub used_types: Vec<String>,
    pub responses: JsonMap,
    pub profiles: JsonMap,
    pub grounded: Vec<String>,
    pub bases: Vec<(String, Bits)>,
}

impl View for Writer {
    type V = WriterV;

    open spec fn view(&self) -> WriterV {
        WriterV {
            warnings: views(self.warnings@),
            limit_sets: self.limit_sets@,
            used_types: views(self.used_types@),
            responses: self.responses@,
            profiles: self.profiles@,
            grounded: views(self.grounded@),
            bases: views(self.bases@),
        }
    }
}

impl Writer {
    pub fn warn(&mut self, s: String)
        ensures
            final(self)@ == old(self)@.warn(s@),
    {
        broadcast use group_views;

        reveal(WriterV::warn);
        self.warnings.push(s);
    }

    pub fn num<C: Calc>(&mut self, math: &C, v: Bits, what: &str) -> (r: Json)
        ensures
            (final(self)@, r@) == old(self)@.num(math.sem(), v, what@),
    {
        reveal(WriterV::num);
        if finite(v) {
            Json::float(math, v)
        } else {
            self.warn(
                cat2(what, ": non-finite value cannot be carried by JSON; emitted 0"),
            );
            Json::uint(0)
        }
    }

    pub fn put_num<C: Calc>(&mut self, math: &C, o: &mut JsonMap, key: &str, v: Bits, what: &str)
        ensures
            (final(self)@, final(o)@) == old(self)@.put_num(
                math.sem(),
                old(o)@,
                key@,
                v,
                what@,
            ),
    {
        let j = self.num(math, v, what);
        o.put(key.to_owned(), j);
    }

    pub fn put_opt<C: Calc>(
        &mut self,
        math: &C,
        o: &mut JsonMap,
        key: &str,
        v: Option<Bits>,
        what: &str,
    )
        ensures
            (final(self)@, final(o)@) == old(self)@.put_opt(
                math.sem(),
                old(o)@,
                key@,
                v,
                what@,
            ),
    {
        if let Some(x) = v {
            self.put_num(math, o, key, x, what);
        }
    }

    pub fn base_of(&self, bus: &str) -> (r: Option<Bits>)
        ensures
            r == self@.base_of(bus@),
    {
        reveal(WriterV::base_of);
        let key = lower(bus);
        let mut i: usize = 0;
        while i < self.bases.len()
            invariant
                i <= self.bases.len(),
                key@ == lower_of(bus@),
                self@.base_of(bus@) == base_from(self@.bases, key@, i as int),
            decreases self.bases.len() - i,
        {
            assert(self@.bases[i as int] == (self.bases@[i as int].0@, self.bases@[i as int].1));
            if same(self.bases[i].0.as_str(), key.as_str()) {
                return Some(self.bases[i].1);
            }
            i = i + 1;
        }
        None
    }

    pub fn put_base<C: Calc>(&self, math: &C, o: &mut JsonMap, bus: &str)
        ensures
            final(o)@ == self@.put_base(math.sem(), old(o)@, bus@),
    {
        reveal(WriterV::put_base);
        if let Some(v) = self.base_of(bus) {
            let n = fdisp(math, over(math, v, THOUSAND));
            let name = cat2("BaseV_", n.as_str());
            o.put(
                "ConductingEquipment.BaseVoltage".to_owned(),
                pointer("BaseVoltage", name.as_str()),
            );
        }
    }

    pub fn ground(&mut self, bus: &str)
        ensures
            final(self)@ == old(self)@.ground(bus@),
    {
        reveal(WriterV::ground);
        let key = lower(bus);
        set_put(&mut self.grounded, key.as_str());
    }

    pub fn warn_extras(&mut self, what: &str, extras: &Extras, consumed: &Vec<&'static str>)
        ensures
            final(self)@ == old(self)@.warn_extras(what@, extras@, views(consumed@)),
    {
        reveal(WriterV::warn_extras);
        let mut n: usize = 0;
        while n < extras.items.len()
            invariant
                n <= extras.items.len(),
                self@ == old(self)@.warn_extras_n(what@, extras@, views(consumed@), n as nat),
            decreases extras.items.len() - n,
        {
            assert(extras@[n as int].0 == extras.items@[n as int].0@);
            let key = extras.items[n].0.as_str();
            if !(among(consumed, key) || starts_with(key, "ravens_") || starts_with(key, "pmd_")
                || same(key, "bmopf_subtype")) {
                self.warn(
                    cat4(
                        what,
                        ": extra `",
                        key,
                        "` has no MG-RAVENS slot; dropped (the schema closes every class with additionalProperties: false)",
                    ),
                );
            }
            n = n + 1;
        }
        assert(extras@.len() == extras.items.len());
    }
}

/// Whether a list holds a key.
pub fn among(list: &Vec<&'static str>, key: &str) -> (r: bool)
    ensures
        r == views(list@).contains(key@),
{
    let mut i: usize = 0;
    while i < list.len()
        invariant
            i <= list.len(),
            forall|k: int| 0 <= k < i ==> (#[trigger] views(list@)[k]) != key@,
        decreases list.len() - i,
    {
        assert(views(list@)[i as int] == list@[i as int]@);
        if same(list[i], key) {
            assert(views(list@)[i as int] == key@);
            return true;
        }
        i = i + 1;
    }
    false
}

// ---- fixed points ----------------------------------------------------------

/// A value after at most `n` more turns of a cycle: it stops where a turn
/// changes nothing or leaves the finite numbers.
pub open spec fn settled(cycle: spec_fn(Bits) -> Bits, y: Bits, n: nat) -> Bits
    decreases n,
{
    if n == 0 {
        y
    } else {
        let next = cycle(y);
        if num_eq(next, y) || !is_finite(next) {
            y
        } else {
            settled(cycle, next, (n - 1) as nat)
        }
    }
}

/// A scaled value that reading and writing again gives back.
pub open spec fn stable(cycle: spec_fn(Bits) -> Bits, y: Bits) -> Bits {
    settled(cycle, y, 4)
}

/// Whether a function computes a cycle.
pub open spec fn computes<F: Fn(Bits) -> Bits>(f: F, cycle: spec_fn(Bits) -> Bits) -> bool {
    &&& forall|v: Bits| call_requires(f, (v,))
    &&& forall|v: Bits, r: Bits| call_ensures(f, (v,), r) ==> r == cycle(v)
}

pub fn stable_fixed<F: Fn(Bits) -> Bits>(
    initial: Bits,
    f: F,
    Ghost(cycle): Ghost<spec_fn(Bits) -> Bits>,
) -> (r: Bits)
    requires
        computes(f, cycle),
    ensures
        r == stable(cycle, initial),
{
    let mut y = initial;
    let mut n: usize = 4;
    while n > 0
        invariant
            n <= 4,
            computes(f, cycle),
            stable(cycle, initial) == settled(cycle, y, n as nat),
        decreases n,
    {
        let next = f(y);
        if eq(next, y) || !finite(next) {
            return y;
        }
        y = next;
        n = n - 1;
    }
    y
}

} // verus!
