//! Loads, with their response records and connection profiles.

use vstd::prelude::*;

use crate::json::{float_json, get_of, num_of, put_of, str_of, Entries, Json, JsonMap, JsonV};
use crate::math::{
    abs, abs_of, larger, le, minus, num_le, times, Bits, Calc, Sem, EPSILON, HUNDRED, ONE, ZERO,
};
use crate::model::{
    Configuration, DistLoad, DistLoadV, DistLoadVoltageModel, DistLoadVoltageModelV, DistNetwork,
    DistNetworkV, Extras, UntypedObject, UntypedObjectV,
};
use crate::order::contains;
use crate::ravens::emit::{
    array, array1, extras_mrid, extras_mrid_of, hot_code, hot_code_of, hot_letters, hot_letters_of,
    identified, identified_of, object, pointer, pointer_json, sum, sum_of, terminal, terminal_json,
    Writer, WriterV,
};
use crate::ravens::scale::{multiple, multiple_of};
use crate::text::{cat2, cat3, cat5, cat6, group_views, opt_view, same, views};

verus! {

// ---- response records ------------------------------------------------------

/// The first number, or zero.
pub open spec fn first_or_zero(v: Seq<Bits>) -> Bits {
    if v.len() > 0 {
        v[0]
    } else {
        ZERO
    }
}

pub fn first(v: &Vec<Bits>) -> (r: Bits)
    ensures
        r == first_or_zero(v@),
{
    if v.len() > 0 {
        v[0]
    } else {
        ZERO
    }
}

/// Neighbours differ by no more than rounding.
pub open spec fn uniform_of(m: Sem, v: Seq<Bits>) -> bool {
    forall|i: int|
        0 <= i < v.len() - 1 ==> close_pair(m, #[trigger] v[i], v[i + 1])
}

/// Two numbers that differ by no more than rounding.
pub open spec fn close_pair(m: Sem, a: Bits, b: Bits) -> bool {
    num_le(abs_of(m.minus(a, b)), m.times(EPSILON, m.max(abs_of(a), ONE)))
}

pub fn uniform<C: Calc>(math: &C, v: &Vec<Bits>) -> (r: bool)
    ensures
        r == uniform_of(math.sem(), v@),
{
    let mut i: usize = 0;
    while i < v.len() && i < v.len() - 1
        invariant
            i <= v.len(),
            forall|k: int|
                0 <= k < i && k < v.len() - 1 ==> close_pair(math.sem(), #[trigger] v@[k], v@[k + 1]),
        decreases v.len() - i,
    {
        if !le(abs(minus(math, v[i], v[i + 1])), times(math, EPSILON, larger(math, abs(v[i]), ONE))) {
            assert(!close_pair(math.sem(), v@[i as int], v@[i + 1]));
            return false;
        }
        i = i + 1;
    }
    true
}

impl WriterV {
    /// The response record that all loads of a constant model share.
    #[verifier::opaque]
    pub open spec fn shared_response(self, m: Sem, name: Seq<char>, field: Seq<char>) -> WriterV {
        if get_of(self.responses, name) is Some {
            self
        } else {
            let o = identified_of("LoadResponseCharacteristic"@, name, None);
            let o = put_of(
                o,
                "LoadResponseCharacteristic.p"@ + field,
                float_json(m, HUNDRED),
            );
            let o = put_of(
                o,
                "LoadResponseCharacteristic.q"@ + field,
                float_json(m, HUNDRED),
            );
            WriterV { responses: put_of(self.responses, name, JsonV::Obj(o)), ..self }
        }
    }

    /// The record with one share of a mixture, in percent; shares that differ
    /// from phase to phase are reported.
    #[verifier::opaque]
    pub open spec fn put_share(
        self,
        m: Sem,
        o: Entries,
        what: Seq<char>,
        key: Seq<char>,
        v: Seq<Bits>,
    ) -> (
        WriterV,
        Entries,
    ) {
        let w = if uniform_of(m, v) {
            self
        } else {
            self.warn(
                what
                    + ": per-phase ZIP coefficients are not uniform; the first phase's value represents the load"@,
            )
        };
        w.put_num(
            m,
            o,
            "LoadResponseCharacteristic."@ + key,
            multiple_of(m, first_or_zero(v), HUNDRED),
            what,
        )
    }

    /// The response record of a load, and its name.
    #[verifier::opaque]
    pub open spec fn load_response(self, m: Sem, load: DistLoadV) -> (WriterV, Seq<char>) {
        let own = load.name + "_response"@;
        let what = "load "@ + load.name;
        let o = identified_of("LoadResponseCharacteristic"@, own, None);
        match load.voltage_model {
            DistLoadVoltageModelV::ConstantPower { .. } => (
                self.shared_response(m, "Constant kVA"@, "ConstantPower"@),
                "Constant kVA"@,
            ),
            DistLoadVoltageModelV::ConstantCurrent { .. } => (
                self.shared_response(m, "Constant I"@, "ConstantCurrent"@),
                "Constant I"@,
            ),
            DistLoadVoltageModelV::ConstantImpedance { .. } => (
                self.shared_response(m, "Constant Z"@, "ConstantImpedance"@),
                "Constant Z"@,
            ),
            DistLoadVoltageModelV::Zip {
                v_nom: _,
                alpha_z,
                alpha_i,
                alpha_p,
                beta_z,
                beta_i,
                beta_p,
            } => {
                let (w, o) = self.put_share(m, o, what, "pConstantImpedance"@, alpha_z);
                let (w, o) = w.put_share(m, o, what, "pConstantCurrent"@, alpha_i);
                let (w, o) = w.put_share(m, o, what, "pConstantPower"@, alpha_p);
                let (w, o) = w.put_share(m, o, what, "qConstantImpedance"@, beta_z);
                let (w, o) = w.put_share(m, o, what, "qConstantCurrent"@, beta_i);
                let (w, o) = w.put_share(m, o, what, "qConstantPower"@, beta_p);
                (WriterV { responses: put_of(w.responses, own, JsonV::Obj(o)), ..w }, own)
            },
            DistLoadVoltageModelV::Exponential { v_nom: _, gamma_p, gamma_q } => {
                let o = put_of(
                    o,
                    "LoadResponseCharacteristic.exponentModel"@,
                    JsonV::Bool(true),
                );
                let (w, gp) = self.num(m, first_or_zero(gamma_p), what);
                let (w, gq) = w.num(m, first_or_zero(gamma_q), what);
                let o = put_of(o, "LoadResponseCharacteristic.pVoltageExponent"@, gp);
                let o = put_of(o, "LoadResponseCharacteristic.qVoltageExponent"@, gq);
                (WriterV { responses: put_of(w.responses, own, JsonV::Obj(o)), ..w }, own)
            },
        }
    }
}

impl Writer {
    fn shared_response<C: Calc>(&mut self, math: &C, name: &str, field: &str)
        ensures
            final(self)@ == old(self)@.shared_response(math.sem(), name@, field@),
    {
        reveal(WriterV::shared_response);
        if !self.responses.has(name) {
            let mut o = identified("LoadResponseCharacteristic", name, None);
            o.put(cat2("LoadResponseCharacteristic.p", field), Json::float(math, HUNDRED));
            o.put(cat2("LoadResponseCharacteristic.q", field), Json::float(math, HUNDRED));
            self.responses.put(name.to_owned(), object(o));
        }
    }

    fn put_share<C: Calc>(
        &mut self,
        math: &C,
        o: &mut JsonMap,
        what: &str,
        key: &str,
        v: &Vec<Bits>,
    )
        ensures
            (final(self)@, final(o)@) == old(self)@.put_share(
                math.sem(),
                old(o)@,
                what@,
                key@,
                v@,
            ),
    {
        reveal(WriterV::put_share);
        if !uniform(math, v) {
            self.warn(
                cat2(
                    what,
                    ": per-phase ZIP coefficients are not uniform; the first phase's value represents the load",
                ),
            );
        }
        let name = cat2("LoadResponseCharacteristic.", key);
        let pct = multiple(math, first(v), HUNDRED);
        self.put_num(math, o, name.as_str(), pct, what);
    }

    fn load_response<C: Calc>(&mut self, math: &C, load: &DistLoad) -> (r: String)
        ensures
            (final(self)@, r@) == old(self)@.load_response(math.sem(), load@),
    {
        reveal(WriterV::load_response);
        let own = cat2(load.name.as_str(), "_response");
        let what = cat2("load ", load.name.as_str());
        let mut o = identified("LoadResponseCharacteristic", own.as_str(), None);
        match &load.voltage_model {
            DistLoadVoltageModel::ConstantPower { v_nom: _ } => {
                self.shared_response(math, "Constant kVA", "ConstantPower");
                "Constant kVA".to_owned()
            },
            DistLoadVoltageModel::ConstantCurrent { v_nom: _ } => {
                self.shared_response(math, "Constant I", "ConstantCurrent");
                "Constant I".to_owned()
            },
            DistLoadVoltageModel::ConstantImpedance { v_nom: _ } => {
                self.shared_response(math, "Constant Z", "ConstantImpedance");
                "Constant Z".to_owned()
            },
            DistLoadVoltageModel::Zip {
                v_nom: _,
                alpha_z,
                alpha_i,
                alpha_p,
                beta_z,
                beta_i,
                beta_p,
            } => {
                self.put_share(math, &mut o, what.as_str(), "pConstantImpedance", alpha_z);
                self.put_share(math, &mut o, what.as_str(), "pConstantCurrent", alpha_i);
                self.put_share(math, &mut o, what.as_str(), "pConstantPower", alpha_p);
                self.put_share(math, &mut o, what.as_str(), "qConstantImpedance", beta_z);
                self.put_share(math, &mut o, what.as_str(), "qConstantCurrent", beta_i);
                self.put_share(math, &mut o, what.as_str(), "qConstantPower", beta_p);
                self.responses.put(own.clone(), object(o));
                own
            },
            DistLoadVoltageModel::Exponential { v_nom: _, gamma_p, gamma_q } => {
                o.put("LoadResponseCharacteristic.exponentModel".to_owned(), Json::Bool(true));
                let gp = self.num(math, first(gamma_p), what.as_str());
                let gq = self.num(math, first(gamma_q), what.as_str());
                o.put("LoadResponseCharacteristic.pVoltageExponent".to_owned(), gp);
                o.put("LoadResponseCharacteristic.qVoltageExponent".to_owned(), gq);
                self.responses.put(own.clone(), object(o));
                own
            },
        }
    }
}

// ---- connection profiles ---------------------------------------------------

/// An extra as text; a number as it shows.
#[verifier::opaque]
pub open spec fn extra_text(m: Sem, extras: Entries, key: Seq<char>) -> Option<Seq<char>> {
    match get_of(extras, key) {
        Some(v) => match str_of(v) {
            Some(s) => Some(s),
            None => match num_of(m, v) {
                Some(x) => Some((m.show)(x)),
                None => None,
            },
        },
        None => None,
    }
}

fn xtext<C: Calc>(math: &C, extras: &Extras, key: &str) -> (r: Option<String>)
    ensures
        opt_view(r) == extra_text(math.sem(), extras@, key@),
{
    reveal(extra_text);
    match extras.get(key) {
        Some(v) => match v.as_str() {
            Some(s) => Some(s.clone()),
            None => match v.as_num(math) {
                Some(x) => Some(math.show(x)),
                None => None,
            },
        },
        None => None,
    }
}

pub open spec fn or_blank(s: Option<Seq<char>>) -> Seq<char> {
    match s {
        Some(t) => t,
        None => Seq::empty(),
    }
}

fn blank(s: &Option<String>) -> (r: String)
    ensures
        r@ == or_blank(opt_view(*s)),
{
    match s {
        Some(t) => t.clone(),
        None => {
            let r = String::new();
            assert(r@ =~= Seq::empty());
            r
        },
    }
}

pub open spec fn put_text(o: Entries, key: Seq<char>, s: Option<Seq<char>>) -> Entries {
    match s {
        Some(t) => put_of(o, key, JsonV::Str(t)),
        None => o,
    }
}

fn put_string(o: &mut JsonMap, key: &str, s: &Option<String>)
    ensures
        final(o)@ == put_text(old(o)@, key@, opt_view(*s)),
{
    if let Some(t) = s {
        o.put(key.to_owned(), Json::Str(t.clone()));
    }
}

/// Whether an untyped object of a class and name is there.
pub open spec fn has_untyped(s: Seq<UntypedObjectV>, class: Seq<char>, name: Seq<char>) -> bool {
    exists|i: int| 0 <= i < s.len() && (#[trigger] s[i]).class == class && s[i].name == name
}

fn find_untyped(s: &Vec<UntypedObject>, class: &str, name: &str) -> (r: bool)
    ensures
        r == has_untyped(views(s@), class@, name@),
{
    let mut i: usize = 0;
    while i < s.len()
        invariant
            i <= s.len(),
            forall|k: int|
                0 <= k < i ==> !((#[trigger] views(s@)[k]).class == class@ && views(s@)[k].name
                    == name@),
        decreases s.len() - i,
    {
        assert(views(s@)[i as int] == s@[i as int]@);
        if same(s[i].class.as_str(), class) && same(s[i].name.as_str(), name) {
            assert(views(s@)[i as int].class == class@);
            return true;
        }
        i = i + 1;
    }
    false
}

impl WriterV {
    /// The writer and a load's entries once its profile row is emitted, and its
    /// schedule pointed at where the network carries it.
    #[verifier::opaque]
    pub open spec fn attach_profile(
        self,
        m: Sem,
        o: Entries,
        load: DistLoadV,
        net: DistNetworkV,
    ) -> (
        WriterV,
        Entries,
    ) {
        let daily = extra_text(m, load.extras, "daily"@);
        let yearly = extra_text(m, load.extras, "yearly"@);
        let spectrum = extra_text(m, load.extras, "spectrum"@);
        if daily is None && yearly is None && spectrum is None {
            (self, o)
        } else {
            let name = "Load:"@ + or_blank(daily) + ":::"@ + or_blank(yearly) + "::"@ + or_blank(
                spectrum,
            );
            let w = if get_of(self.profiles, name) is Some {
                self
            } else {
                let p = identified_of("EnergyConnectionProfile"@, name, None);
                let p = put_text(p, "EnergyConnectionProfile.dssDaily"@, daily);
                let p = put_text(p, "EnergyConnectionProfile.dssYearly"@, yearly);
                let p = put_text(p, "EnergyConnectionProfile.dssSpectrum"@, spectrum);
                WriterV { profiles: put_of(self.profiles, name, JsonV::Obj(p)), ..self }
            };
            let schedule = match daily {
                Some(d) => Some(d),
                None => yearly,
            };
            match schedule {
                None => (w, o),
                Some(s) => if has_untyped(net.untyped, "EnergyConsumerSchedule"@, s) {
                    (
                        w,
                        put_of(
                            o,
                            "EnergyConsumer.LoadProfile"@,
                            pointer_json("EnergyConsumerSchedule"@, s),
                        ),
                    )
                } else {
                    (
                        w.warn(
                            "load "@ + load.name + ": shape `"@ + s
                                + "` names a schedule this model does not carry; the profile row is emitted without a LoadProfile pointer"@,
                        ),
                        o,
                    )
                },
            }
        }
    }
}

impl Writer {
    fn attach_profile<C: Calc>(
        &mut self,
        math: &C,
        o: &mut JsonMap,
        load: &DistLoad,
        net: &DistNetwork,
    )
        ensures
            (final(self)@, final(o)@) == old(self)@.attach_profile(
                math.sem(),
                old(o)@,
                load@,
                net@,
            ),
    {
        reveal(WriterV::attach_profile);
        let daily = xtext(math, &load.extras, "daily");
        let yearly = xtext(math, &load.extras, "yearly");
        let spectrum = xtext(math, &load.extras, "spectrum");
        if daily.is_none() && yearly.is_none() && spectrum.is_none() {
            return;
        }
        let d = blank(&daily);
        let y = blank(&yearly);
        let s = blank(&spectrum);
        let name = cat6("Load:", d.as_str(), ":::", y.as_str(), "::", s.as_str());
        if !self.profiles.has(name.as_str()) {
            let mut p = identified("EnergyConnectionProfile", name.as_str(), None);
            put_string(&mut p, "EnergyConnectionProfile.dssDaily", &daily);
            put_string(&mut p, "EnergyConnectionProfile.dssYearly", &yearly);
            put_string(&mut p, "EnergyConnectionProfile.dssSpectrum", &spectrum);
            self.profiles.put(name, object(p));
        }
        let schedule = match daily {
            Some(d) => Some(d),
            None => yearly,
        };
        if let Some(s) = schedule {
            if find_untyped(&net.untyped, "EnergyConsumerSchedule", s.as_str()) {
                o.put(
                    "EnergyConsumer.LoadProfile".to_owned(),
                    pointer("EnergyConsumerSchedule", s.as_str()),
                );
            } else {
                self.warn(
                    cat5(
                        "load ",
                        load.name.as_str(),
                        ": shape `",
                        s.as_str(),
                        "` names a schedule this model does not carry; the profile row is emitted without a LoadProfile pointer",
                    ),
                );
            }
        }
    }
}

// ---- loads -----------------------------------------------------------------

/// The number at `k`, or zero past the end.
pub open spec fn at_or_zero(v: Seq<Bits>, k: int) -> Bits {
    if 0 <= k < v.len() {
        v[k]
    } else {
        ZERO
    }
}

fn at(v: &Vec<Bits>, k: usize) -> (r: Bits)
    ensures
        r == at_or_zero(v@, k as int),
{
    if k < v.len() {
        v[k]
    } else {
        ZERO
    }
}

/// One phase of a load.
#[verifier::opaque]
pub open spec fn load_phase_json(
    w: WriterV,
    m: Sem,
    load: DistLoadV,
    letter: Seq<char>,
    k: nat,
) -> (
    WriterV,
    JsonV,
) {
    let what = "load "@ + load.name;
    let o = identified_of("EnergyConsumerPhase"@, load.name + "_"@ + letter, None);
    let (w, p) = w.num(m, at_or_zero(load.p_nom, k as int), what);
    let (w, q) = w.num(m, at_or_zero(load.q_nom, k as int), what);
    let o = put_of(o, "EnergyConsumerPhase.p"@, p);
    let o = put_of(o, "EnergyConsumerPhase.q"@, q);
    (
        w,
        JsonV::Obj(
            put_of(
                o,
                "EnergyConsumerPhase.phase"@,
                JsonV::Str("SinglePhaseKind."@ + letter),
            ),
        ),
    )
}

pub open spec fn load_phases_json(
    w: WriterV,
    m: Sem,
    load: DistLoadV,
    letters: Seq<Seq<char>>,
    n: nat,
) -> (
    WriterV,
    Seq<JsonV>,
)
    decreases n,
{
    if n == 0 {
        (w, seq![])
    } else {
        let before = load_phases_json(w, m, load, letters, (n - 1) as nat);
        let (v, j) = load_phase_json(before.0, m, load, letters[n - 1], (n - 1) as nat);
        (v, before.1.push(j))
    }
}

fn write_load_phases<C: Calc>(
    w: &mut Writer,
    math: &C,
    load: &DistLoad,
    letters: &Vec<String>,
) -> (r:
    Vec<Json>)
    ensures
        (final(w)@, views(r@)) == load_phases_json(
            old(w)@,
            math.sem(),
            load@,
            views(letters@),
            letters@.len(),
        ),
        r.len() == letters.len(),
{
    broadcast use group_views;

    let what = cat2("load ", load.name.as_str());
    let mut r: Vec<Json> = Vec::new();
    let mut k: usize = 0;
    assert(views(r@) =~= seq![]);
    while k < letters.len()
        invariant
            k <= letters.len(),
            r.len() == k,
            what@ == "load "@ + load@.name,
            (w@, views(r@)) == load_phases_json(
                old(w)@,
                math.sem(),
                load@,
                views(letters@),
                k as nat,
            ),
        decreases letters.len() - k,
    {
        reveal(load_phase_json);
        assert(views(letters@)[k as int] == letters@[k as int]@);
        let l = letters[k].as_str();
        let mut o = identified(
            "EnergyConsumerPhase",
            cat3(load.name.as_str(), "_", l).as_str(),
            None,
        );
        let p = w.num(math, at(&load.p_nom, k), what.as_str());
        let q = w.num(math, at(&load.q_nom, k), what.as_str());
        o.put("EnergyConsumerPhase.p".to_owned(), p);
        o.put("EnergyConsumerPhase.q".to_owned(), q);
        o.put("EnergyConsumerPhase.phase".to_owned(), Json::Str(cat2("SinglePhaseKind.", l)));
        r.push(object(o));
        k = k + 1;
    }
    r
}

/// The extras that a load's entries and warnings account for.
pub open spec fn load_carried() -> Seq<Seq<char>> {
    seq![
        "kv"@,
        "phases"@,
        "daily"@,
        "yearly"@,
        "spectrum"@,
        "pf"@,
        "model"@,
        "zipv"@,
        "vminpu"@,
        "vmaxpu"@,
    ]
}

fn load_carried_list() -> (r: Vec<&'static str>)
    ensures
        views(r@) == load_carried(),
{
    let r: Vec<&'static str> = vec![
        "kv",
        "phases",
        "daily",
        "yearly",
        "spectrum",
        "pf",
        "model",
        "zipv",
        "vminpu",
        "vmaxpu",
    ];
    assert(views(r@) =~= load_carried());
    r
}

/// What a load's entries hold besides its phases and terminal.
#[verifier::opaque]
pub open spec fn load_head(w: WriterV, m: Sem, net: DistNetworkV, load: DistLoadV) -> (
    WriterV,
    Entries,
) {
    let what = "load "@ + load.name;
    let delta = load.configuration == Configuration::Delta;
    let grounded = !delta && load.terminal_map.contains("4"@);
    let o = identified_of("EnergyConsumer"@, load.name, extras_mrid_of(load.extras));
    let (w, p) = w.num(m, sum_of(m, load.p_nom), what);
    let (w, q) = w.num(m, sum_of(m, load.q_nom), what);
    let o = put_of(o, "EnergyConsumer.p"@, p);
    let o = put_of(o, "EnergyConsumer.q"@, q);
    let o = put_of(o, "EnergyConsumer.grounded"@, JsonV::Bool(grounded));
    let w = if grounded {
        w.ground(load.bus)
    } else {
        w
    };
    let o = put_of(o, "Equipment.inService"@, JsonV::Bool(true));
    let o = w.put_base(m, o, load.bus);
    let o = put_of(
        o,
        "EnergyConsumer.phaseConnection"@,
        JsonV::Str(
            "PhaseShuntConnectionKind."@ + if delta {
                "D"@
            } else {
                "Y"@
            },
        ),
    );
    let (w, response) = w.load_response(m, load);
    let o = put_of(
        o,
        "EnergyConsumer.LoadResponse"@,
        pointer_json("LoadResponseCharacteristic"@, response),
    );
    w.attach_profile(m, o, load, net)
}

/// A one-phase delta spans two hot terminals with one power: only its first
/// phase stands.
pub open spec fn spans_pair(load: DistLoadV) -> bool {
    load.configuration == Configuration::Delta && hot_letters_of(load.terminal_map).len() == 2
        && load.p_nom.len() == 1
}

#[verifier::opaque]
pub open spec fn load_json(w: WriterV, m: Sem, net: DistNetworkV, load: DistLoadV) -> (
    WriterV,
    JsonV,
) {
    let what = "load "@ + load.name;
    let letters = hot_letters_of(load.terminal_map);
    let (w, o) = load_head(w, m, net, load);
    let (w, phases) = load_phases_json(w, m, load, letters, letters.len());
    let o = put_of(
        o,
        "EnergyConsumer.EnergyConsumerPhase"@,
        JsonV::Arr(
            if spans_pair(load) {
                phases.take(1)
            } else {
                phases
            },
        ),
    );
    let (w, limit) = w.bus_voltage_limit(m, net, load.bus);
    let o = put_of(
        o,
        "ConductingEquipment.Terminals"@,
        JsonV::Arr(
            seq![terminal_json(load.name, 1, load.bus, hot_code_of(load.terminal_map), limit)],
        ),
    );
    let w = if get_of(load.extras, "pf"@) is Some {
        w.warn(
            what
                + ": the power-factor spec becomes an explicit reactive power (MG-RAVENS carries p and q, not pf)"@,
        )
    } else {
        w
    };
    let w = if get_of(load.extras, "vminpu"@) is Some || get_of(load.extras, "vmaxpu"@) is Some {
        w.warn(
            what
                + ": per-load voltage clamps (vminpu/vmaxpu) have no MG-RAVENS slot; dropped"@,
        )
    } else {
        w
    };
    (w.warn_extras(what, load.extras, load_carried()), JsonV::Obj(o))
}

pub open spec fn loads_json(w: WriterV, m: Sem, net: DistNetworkV, n: nat) -> (WriterV, Entries)
    decreases n,
{
    if n == 0 {
        (w, Entries::empty())
    } else {
        let before = loads_json(w, m, net, (n - 1) as nat);
        let (v, j) = load_json(before.0, m, net, net.loads[n - 1]);
        (v, put_of(before.1, net.loads[n - 1].name, j))
    }
}

fn write_load_head<C: Calc>(w: &mut Writer, math: &C, net: &DistNetwork, load: &DistLoad) -> (r:
    JsonMap)
    ensures
        (final(w)@, r@) == load_head(old(w)@, math.sem(), net@, load@),
{
    reveal(load_head);
    let what = cat2("load ", load.name.as_str());
    let delta = load.configuration == Configuration::Delta;
    let grounded = !delta && contains(&load.terminal_map, "4");
    let mut o = identified("EnergyConsumer", load.name.as_str(), extras_mrid(&load.extras));
    let ps = sum(math, &load.p_nom);
    let qs = sum(math, &load.q_nom);
    let p = w.num(math, ps, what.as_str());
    let q = w.num(math, qs, what.as_str());
    o.put("EnergyConsumer.p".to_owned(), p);
    o.put("EnergyConsumer.q".to_owned(), q);
    o.put("EnergyConsumer.grounded".to_owned(), Json::Bool(grounded));
    if grounded {
        w.ground(load.bus.as_str());
    }
    o.put("Equipment.inService".to_owned(), Json::Bool(true));
    w.put_base(math, &mut o, load.bus.as_str());
    let kind = if delta {
        "D"
    } else {
        "Y"
    };
    o.put(
        "EnergyConsumer.phaseConnection".to_owned(),
        Json::Str(cat2("PhaseShuntConnectionKind.", kind)),
    );
    let response = w.load_response(math, load);
    o.put(
        "EnergyConsumer.LoadResponse".to_owned(),
        pointer("LoadResponseCharacteristic", response.as_str()),
    );
    w.attach_profile(math, &mut o, load, net);
    o
}

fn write_load<C: Calc>(w: &mut Writer, math: &C, net: &DistNetwork, load: &DistLoad) -> (r: Json)
    ensures
        (final(w)@, r@) == load_json(old(w)@, math.sem(), net@, load@),
{
    broadcast use group_views;

    reveal(load_json);
    let what = cat2("load ", load.name.as_str());
    let letters = hot_letters(&load.terminal_map);
    assert(views(letters@).len() == letters.len());
    let mut o = write_load_head(w, math, net, load);
    let mut phases = write_load_phases(w, math, load, &letters);
    let ghost all = views(phases@);
    if load.configuration == Configuration::Delta && letters.len() == 2 && load.p_nom.len() == 1 {
        let _ = phases.pop();
        assert(views(phases@) =~= all.take(1));
    }
    o.put("EnergyConsumer.EnergyConsumerPhase".to_owned(), array(phases));
    let limit = w.bus_voltage_limit(math, net, load.bus.as_str());
    let code = hot_code(&load.terminal_map);
    let t = terminal(load.name.as_str(), 1, load.bus.as_str(), code.as_str(), &limit);
    o.put("ConductingEquipment.Terminals".to_owned(), array1(t));
    if load.extras.has("pf") {
        w.warn(
            cat2(
                what.as_str(),
                ": the power-factor spec becomes an explicit reactive power (MG-RAVENS carries p and q, not pf)",
            ),
        );
    }
    if load.extras.has("vminpu") || load.extras.has("vmaxpu") {
        w.warn(
            cat2(
                what.as_str(),
                ": per-load voltage clamps (vminpu/vmaxpu) have no MG-RAVENS slot; dropped",
            ),
        );
    }
    let carried = load_carried_list();
    w.warn_extras(what.as_str(), &load.extras, &carried);
    object(o)
}

pub fn write_loads<C: Calc>(w: &mut Writer, math: &C, net: &DistNetwork) -> (r: JsonMap)
    ensures
        (final(w)@, r@) == loads_json(old(w)@, math.sem(), net@, net@.loads.len()),
{
    let mut table = JsonMap::new();
    let mut n: usize = 0;
    while n < net.loads.len()
        invariant
            n <= net.loads.len(),
            (w@, table@) == loads_json(old(w)@, math.sem(), net@, n as nat),
        decreases net.loads.len() - n,
    {
        assert(net@.loads[n as int] == net.loads@[n as int]@);
        let j = write_load(w, math, net, &net.loads[n]);
        table.put(net.loads[n].name.clone(), j);
        n = n + 1;
    }
    assert(net@.loads.len() == net.loads.len());
    table
}

} // verus!
