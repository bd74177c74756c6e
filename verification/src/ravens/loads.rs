//! Loads and shunts.

use vstd::prelude::*;

use crate::json::{float_json, put_of, uint_json, Entries, Json, JsonMap, JsonV};
use crate::math::{
    eq, from_int, num_eq, over, root3, times, Bits, Calc, Sem, HUNDRED, ONE, THOUSAND, ZERO,
};
use crate::matrix::{max3, max_usize, two_valued, two_valued_mat};
use crate::model::{
    dist_load_of, dist_shunt_of, repeat, repeat_of, Configuration, DistLoad, DistLoadV,
    DistLoadVoltageModel, DistLoadVoltageModelV, DistNetworkV, DistShunt, DistShuntV,
};
use crate::ravens::doc::{
    bool_at, get_bool, get_list, get_num, get_num_or, get_str, get_suffix, get_target, list_at,
    num_at, num_or, resolve, resolve_at, sorted_kind, sorted_of_kind, str_at, suffix_at, target_at,
    terminal_entries, terminals_of, Obj, ObjV,
};
use crate::ravens::lines::{extras_with_mrid, mrid_extras};
use crate::ravens::name::{
    hot_terminals, hot_terminals_of, letters_to_terminals, phase_terminal, phase_terminal_of,
    terminals_of as terminals_of_letters,
};
use crate::ravens::state::{State, StateV};
use crate::terminals::{three_phase_map, three_phases};
use crate::text::{cat3, group_views, opt_view, same, views};

verus! {

// ---- per-phase powers ------------------------------------------------------

/// What one phase of a load draws.
pub struct PhaseV {
    pub terminal: Seq<char>,
    pub p: Bits,
    pub q: Bits,
}

pub struct Phase {
    pub terminal: String,
    pub p: Bits,
    pub q: Bits,
}

impl View for Phase {
    type V = PhaseV;

    open spec fn view(&self) -> PhaseV {
        PhaseV { terminal: self.terminal@, p: self.p, q: self.q }
    }
}

#[verifier::opaque]
pub open spec fn phase_of(m: Sem, entry: JsonV) -> Option<PhaseV> {
    match entry {
        JsonV::Obj(o) => match suffix_at(o, "EnergyConsumerPhase.phase"@) {
            Some(letter) => match phase_terminal_of(letter) {
                Some(terminal) => Some(
                    PhaseV {
                        terminal,
                        p: num_or(m, o, "EnergyConsumerPhase.p"@, ZERO),
                        q: num_or(m, o, "EnergyConsumerPhase.q"@, ZERO),
                    },
                ),
                None => None,
            },
            None => None,
        },
        _ => None,
    }
}

/// The phases among the first `n` entries, in list order.
pub open spec fn phases_n(m: Sem, items: Seq<JsonV>, n: nat) -> Seq<PhaseV>
    decreases n,
{
    if n == 0 {
        seq![]
    } else {
        match phase_of(m, items[n - 1]) {
            Some(p) => phases_n(m, items, (n - 1) as nat).push(p),
            None => phases_n(m, items, (n - 1) as nat),
        }
    }
}

#[verifier::opaque]
pub open spec fn listed_phases(m: Sem, props: Entries) -> Seq<PhaseV> {
    let items = list_at(props, "EnergyConsumer.EnergyConsumerPhase"@);
    phases_n(m, items, items.len())
}

fn read_phase<C: Calc>(math: &C, entry: &Json) -> (r: Option<Phase>)
    ensures
        opt_view(r) == phase_of(math.sem(), entry@),
{
    reveal(phase_of);
    let o = match entry.as_obj() {
        Some(o) => o,
        None => {
            return None;
        },
    };
    match get_suffix(o, "EnergyConsumerPhase.phase") {
        Some(letter) => match phase_terminal(letter.as_str()) {
            Some(t) => Some(
                Phase {
                    terminal: t.to_owned(),
                    p: get_num_or(math, o, "EnergyConsumerPhase.p", ZERO),
                    q: get_num_or(math, o, "EnergyConsumerPhase.q", ZERO),
                },
            ),
            None => None,
        },
        None => None,
    }
}

fn read_phases<C: Calc>(math: &C, props: &JsonMap) -> (r: Vec<Phase>)
    ensures
        views(r@) == listed_phases(math.sem(), props@),
{
    broadcast use group_views;

    reveal(listed_phases);
    let mut r: Vec<Phase> = Vec::new();
    assert(views(r@) =~= seq![]);
    if let Some(items) = get_list(props, "EnergyConsumer.EnergyConsumerPhase") {
        let mut n: usize = 0;
        while n < items.len()
            invariant
                n <= items.len(),
                views(r@) == phases_n(math.sem(), views(items@), n as nat),
            decreases items.len() - n,
        {
            assert(views(items@)[n as int] == items@[n as int]@);
            if let Some(p) = read_phase(math, &items[n]) {
                r.push(p);
            }
            n = n + 1;
        }
        assert(views(items@).len() == items.len());
    }
    r
}

/// A total shared evenly among terminals.
pub open spec fn shared_of(hot: Seq<Seq<char>>, p: Bits, q: Bits) -> Seq<PhaseV> {
    Seq::new(hot.len(), |i: int| PhaseV { terminal: hot[i], p, q })
}

fn shared(hot: &Vec<String>, p: Bits, q: Bits) -> (r: Vec<Phase>)
    ensures
        views(r@) == shared_of(views(hot@), p, q),
{
    let mut r: Vec<Phase> = Vec::new();
    let mut i: usize = 0;
    while i < hot.len()
        invariant
            i <= hot.len(),
            r.len() == i,
            forall|k: int|
                0 <= k < i ==> (#[trigger] r@[k])@ == shared_of(views(hot@), p, q)[k],
        decreases hot.len() - i,
    {
        r.push(Phase { terminal: hot[i].clone(), p, q });
        i = i + 1;
    }
    assert(views(r@) =~= shared_of(views(hot@), p, q));
    r
}

pub open spec fn phase_terminals(s: Seq<PhaseV>) -> Seq<Seq<char>> {
    Seq::new(s.len(), |i: int| s[i].terminal)
}

pub open spec fn phase_ps(s: Seq<PhaseV>) -> Seq<Bits> {
    Seq::new(s.len(), |i: int| s[i].p)
}

pub open spec fn phase_qs(s: Seq<PhaseV>) -> Seq<Bits> {
    Seq::new(s.len(), |i: int| s[i].q)
}

fn unzip(s: &Vec<Phase>) -> (r: (Vec<String>, Vec<Bits>, Vec<Bits>))
    ensures
        views(r.0@) == phase_terminals(views(s@)),
        r.1@ == phase_ps(views(s@)),
        r.2@ == phase_qs(views(s@)),
{
    let mut t: Vec<String> = Vec::new();
    let mut p: Vec<Bits> = Vec::new();
    let mut q: Vec<Bits> = Vec::new();
    let mut i: usize = 0;
    while i < s.len()
        invariant
            i <= s.len(),
            t.len() == i,
            p.len() == i,
            q.len() == i,
            forall|k: int| 0 <= k < i ==> (#[trigger] t@[k])@ == s@[k].terminal@,
            forall|k: int| 0 <= k < i ==> (#[trigger] p@[k]) == s@[k].p,
            forall|k: int| 0 <= k < i ==> (#[trigger] q@[k]) == s@[k].q,
        decreases s.len() - i,
    {
        t.push(s[i].terminal.clone());
        p.push(s[i].p);
        q.push(s[i].q);
        i = i + 1;
    }
    assert(views(t@) =~= phase_terminals(views(s@)));
    assert(p@ =~= phase_ps(views(s@)));
    assert(q@ =~= phase_qs(views(s@)));
    (t, p, q)
}

// ---- voltage dependence ----------------------------------------------------

/// One share is all of it and the two others nothing.
pub open spec fn is_anchor(v: Bits, a: Bits, b: Bits) -> bool {
    num_eq(v, HUNDRED) && num_eq(a, ZERO) && num_eq(b, ZERO)
}

fn anchor(v: Bits, a: Bits, b: Bits) -> (r: bool)
    ensures
        r == is_anchor(v, a, b),
{
    eq(v, HUNDRED) && eq(a, ZERO) && eq(b, ZERO)
}

/// The voltage model of a response record: exponents where it says so, the
/// constant model of whichever share is whole, else the mixture of shares.
#[verifier::opaque]
pub open spec fn response_model(m: Sem, o: Entries, v_nom: Seq<Bits>) -> DistLoadVoltageModelV {
    let n = max3(v_nom.len(), 1, 1);
    let pz = num_or(m, o, "LoadResponseCharacteristic.pConstantImpedance"@, ZERO);
    let pi = num_or(m, o, "LoadResponseCharacteristic.pConstantCurrent"@, ZERO);
    let pp = num_or(m, o, "LoadResponseCharacteristic.pConstantPower"@, ZERO);
    let qz = num_or(m, o, "LoadResponseCharacteristic.qConstantImpedance"@, ZERO);
    let qi = num_or(m, o, "LoadResponseCharacteristic.qConstantCurrent"@, ZERO);
    let qp = num_or(m, o, "LoadResponseCharacteristic.qConstantPower"@, ZERO);
    if bool_at(o, "LoadResponseCharacteristic.exponentModel"@) == Some(true) {
        DistLoadVoltageModelV::Exponential {
            v_nom,
            gamma_p: repeat_of(
                num_or(m, o, "LoadResponseCharacteristic.pVoltageExponent"@, ZERO),
                n,
            ),
            gamma_q: repeat_of(
                num_or(m, o, "LoadResponseCharacteristic.qVoltageExponent"@, ZERO),
                n,
            ),
        }
    } else if is_anchor(pp, pz, pi) && is_anchor(qp, qz, qi) {
        DistLoadVoltageModelV::ConstantPower { v_nom }
    } else if is_anchor(pz, pp, pi) && is_anchor(qz, qp, qi) {
        DistLoadVoltageModelV::ConstantImpedance { v_nom }
    } else if is_anchor(pi, pp, pz) && is_anchor(qi, qp, qz) {
        DistLoadVoltageModelV::ConstantCurrent { v_nom }
    } else {
        DistLoadVoltageModelV::Zip {
            v_nom,
            alpha_z: repeat_of(m.over(pz, HUNDRED), n),
            alpha_i: repeat_of(m.over(pi, HUNDRED), n),
            alpha_p: repeat_of(m.over(pp, HUNDRED), n),
            beta_z: repeat_of(m.over(qz, HUNDRED), n),
            beta_i: repeat_of(m.over(qi, HUNDRED), n),
            beta_p: repeat_of(m.over(qp, HUNDRED), n),
        }
    }
}

fn read_response<C: Calc>(math: &C, o: &JsonMap, v_nom: Vec<Bits>) -> (r: DistLoadVoltageModel)
    ensures
        r@ == response_model(math.sem(), o@, v_nom@),
{
    reveal(response_model);
    let n = max_usize(v_nom.len(), 1);
    if let Some(true) = get_bool(o, "LoadResponseCharacteristic.exponentModel") {
        let p = get_num_or(math, o, "LoadResponseCharacteristic.pVoltageExponent", ZERO);
        let q = get_num_or(math, o, "LoadResponseCharacteristic.qVoltageExponent", ZERO);
        return DistLoadVoltageModel::Exponential {
            v_nom,
            gamma_p: repeat(p, n),
            gamma_q: repeat(q, n),
        };
    }
    let pz = get_num_or(math, o, "LoadResponseCharacteristic.pConstantImpedance", ZERO);
    let pi = get_num_or(math, o, "LoadResponseCharacteristic.pConstantCurrent", ZERO);
    let pp = get_num_or(math, o, "LoadResponseCharacteristic.pConstantPower", ZERO);
    let qz = get_num_or(math, o, "LoadResponseCharacteristic.qConstantImpedance", ZERO);
    let qi = get_num_or(math, o, "LoadResponseCharacteristic.qConstantCurrent", ZERO);
    let qp = get_num_or(math, o, "LoadResponseCharacteristic.qConstantPower", ZERO);
    if anchor(pp, pz, pi) && anchor(qp, qz, qi) {
        DistLoadVoltageModel::ConstantPower { v_nom }
    } else if anchor(pz, pp, pi) && anchor(qz, qp, qi) {
        DistLoadVoltageModel::ConstantImpedance { v_nom }
    } else if anchor(pi, pp, pz) && anchor(qi, qp, qz) {
        DistLoadVoltageModel::ConstantCurrent { v_nom }
    } else {
        DistLoadVoltageModel::Zip {
            v_nom,
            alpha_z: repeat(over(math, pz, HUNDRED), n),
            alpha_i: repeat(over(math, pi, HUNDRED), n),
            alpha_p: repeat(over(math, pp, HUNDRED), n),
            beta_z: repeat(over(math, qz, HUNDRED), n),
            beta_i: repeat(over(math, qi, HUNDRED), n),
            beta_p: repeat(over(math, qp, HUNDRED), n),
        }
    }
}

/// The state and the model once a load's response has been resolved; a load
/// without one draws constant power.
pub open spec fn load_model_of(m: Sem, doc: Seq<ObjV>, st: StateV, o: ObjV, v_nom: Seq<Bits>) -> (
    StateV,
    DistLoadVoltageModelV,
) {
    match resolve_at(doc, o.props, "EnergyConsumer.LoadResponse"@) {
        None => (
            st.defaulted("load"@, o.name, "model"@),
            DistLoadVoltageModelV::ConstantPower { v_nom },
        ),
        Some(response) => (st, response_model(m, response, v_nom)),
    }
}

fn load_voltage_model<C: Calc>(
    math: &C,
    doc: &Vec<Obj>,
    st: &mut State,
    o: &Obj,
    v_nom: Vec<Bits>,
) -> (r:
    DistLoadVoltageModel)
    ensures
        (final(st)@, r@) == load_model_of(math.sem(), views(doc@), old(st)@, o@, v_nom@),
{
    match resolve(doc, &o.props, "EnergyConsumer.LoadResponse") {
        None => {
            st.defaulted("load", o.name.as_str(), "model");
            DistLoadVoltageModel::ConstantPower { v_nom }
        },
        Some(response) => read_response(math, response, v_nom),
    }
}

// ---- profiles --------------------------------------------------------------

/// The first connection profile, from the `i`-th object on, that names a
/// schedule as its daily or yearly one.
pub open spec fn profile_from(doc: Seq<ObjV>, schedule: Seq<char>, i: int) -> Option<Entries>
    decreases doc.len() - i,
{
    if i < 0 || i >= doc.len() {
        None
    } else if doc[i].kind == "EnergyConnectionProfile"@ && (str_at(
        doc[i].props,
        "EnergyConnectionProfile.dssDaily"@,
    ) == Some(schedule) || str_at(doc[i].props, "EnergyConnectionProfile.dssYearly"@) == Some(
        schedule,
    )) {
        Some(doc[i].props)
    } else {
        profile_from(doc, schedule, i + 1)
    }
}

/// The extras with the text under a property noted under a key.
#[verifier::opaque]
pub open spec fn note_text(
    extras: Entries,
    o: Entries,
    prop: Seq<char>,
    key: Seq<char>,
) -> Entries {
    match str_at(o, prop) {
        Some(s) => put_of(extras, key, JsonV::Str(s)),
        None => extras,
    }
}

fn note(extras: &mut JsonMap, o: &JsonMap, prop: &str, key: &str)
    ensures
        final(extras)@ == note_text(old(extras)@, o@, prop@, key@),
{
    reveal(note_text);
    if let Some(s) = get_str(o, prop) {
        extras.put(key.to_owned(), Json::Str(s.clone()));
    }
}

/// The extras with a load's profile names: those of the connection profile that
/// names its schedule, else the schedule itself.
#[verifier::opaque]
pub open spec fn with_profiles(doc: Seq<ObjV>, props: Entries, extras: Entries) -> Entries {
    match target_at(props, "EnergyConsumer.LoadProfile"@) {
        None => extras,
        Some(schedule) => match profile_from(doc, schedule, 0) {
            None => put_of(extras, "daily"@, JsonV::Str(schedule)),
            Some(p) => note_text(
                note_text(
                    note_text(extras, p, "EnergyConnectionProfile.dssDaily"@, "daily"@),
                    p,
                    "EnergyConnectionProfile.dssYearly"@,
                    "yearly"@,
                ),
                p,
                "EnergyConnectionProfile.dssSpectrum"@,
                "spectrum"@,
            ),
        },
    }
}

fn names(o: &JsonMap, key: &str, what: &str) -> (r: bool)
    ensures
        r == (str_at(o@, key@) == Some(what@)),
{
    match get_str(o, key) {
        Some(s) => same(s.as_str(), what),
        None => false,
    }
}

fn find_profile<'a>(doc: &'a Vec<Obj>, schedule: &str) -> (r: Option<&'a JsonMap>)
    ensures
        match r {
            Some(p) => profile_from(views(doc@), schedule@, 0) == Some(p@),
            None => profile_from(views(doc@), schedule@, 0) is None,
        },
{
    let mut i: usize = 0;
    while i < doc.len()
        invariant
            i <= doc.len(),
            profile_from(views(doc@), schedule@, 0) == profile_from(
                views(doc@),
                schedule@,
                i as int,
            ),
        decreases doc.len() - i,
    {
        assert(views(doc@)[i as int] == doc@[i as int]@);
        let o = &doc[i].props;
        if same(doc[i].kind.as_str(), "EnergyConnectionProfile") && (names(
            o,
            "EnergyConnectionProfile.dssDaily",
            schedule,
        ) || names(o, "EnergyConnectionProfile.dssYearly", schedule)) {
            return Some(o);
        }
        i = i + 1;
    }
    None
}

fn attach_profiles(doc: &Vec<Obj>, props: &JsonMap, extras: &mut JsonMap)
    ensures
        final(extras)@ == with_profiles(views(doc@), props@, old(extras)@),
{
    reveal(with_profiles);
    if let Some(schedule) = get_target(props, "EnergyConsumer.LoadProfile") {
        match find_profile(doc, schedule.as_str()) {
            None => {
                extras.put("daily".to_owned(), Json::Str(schedule));
            },
            Some(p) => {
                note(extras, p, "EnergyConnectionProfile.dssDaily", "daily");
                note(extras, p, "EnergyConnectionProfile.dssYearly", "yearly");
                note(extras, p, "EnergyConnectionProfile.dssSpectrum", "spectrum");
            },
        }
    }
}

// ---- loads -----------------------------------------------------------------

/// The line-to-line volts of an equipment's base voltage.
pub open spec fn base_voltage_of(m: Sem, doc: Seq<ObjV>, props: Entries) -> Option<Bits> {
    match resolve_at(doc, props, "ConductingEquipment.BaseVoltage"@) {
        Some(o) => num_at(m, o, "BaseVoltage.nominalVoltage"@),
        None => None,
    }
}

pub fn base_voltage<C: Calc>(math: &C, doc: &Vec<Obj>, props: &JsonMap) -> (r: Option<Bits>)
    ensures
        r == base_voltage_of(math.sem(), views(doc@), props@),
{
    match resolve(doc, props, "ConductingEquipment.BaseVoltage") {
        Some(o) => get_num(math, o, "BaseVoltage.nominalVoltage"),
        None => None,
    }
}

/// The state and the powers of a load, phase by phase; a total without phases
/// is shared evenly among its terminals.
#[verifier::opaque]
pub open spec fn load_phases_of(m: Sem, st: StateV, o: ObjV, letters: Seq<Seq<char>>) -> (
    StateV,
    Seq<PhaseV>,
) {
    let listed = listed_phases(m, o.props);
    if listed.len() > 0 {
        (st, listed)
    } else {
        let named = hot_terminals_of(letters);
        let (phased, hot) = if named.len() == 0 {
            (st.defaulted("load"@, o.name, "phases"@), three_phases())
        } else {
            (st, named)
        };
        let n = m.from_int(hot.len() as u64);
        (
            phased,
            shared_of(
                hot,
                m.over(num_or(m, o.props, "EnergyConsumer.p"@, ZERO), n),
                m.over(num_or(m, o.props, "EnergyConsumer.q"@, ZERO), n),
            ),
        )
    }
}

fn load_phases<C: Calc>(math: &C, st: &mut State, o: &Obj, letters: &Vec<String>) -> (r: Vec<Phase>)
    ensures
        (final(st)@, views(r@)) == load_phases_of(math.sem(), old(st)@, o@, views(letters@)),
{
    reveal(load_phases_of);
    let listed = read_phases(math, &o.props);
    assert(views(listed@).len() == listed.len());
    if listed.len() > 0 {
        return listed;
    }
    let mut hot = hot_terminals(letters);
    assert(views(hot@).len() == hot.len());
    if hot.len() == 0 {
        st.defaulted("load", o.name.as_str(), "phases");
        hot = three_phase_map();
    }
    assert(views(hot@).len() == hot.len());
    let n = from_int(math, hot.len() as u64);
    let p = over(math, get_num_or(math, &o.props, "EnergyConsumer.p", ZERO), n);
    let q = over(math, get_num_or(math, &o.props, "EnergyConsumer.q", ZERO), n);
    shared(&hot, p, q)
}

/// Whether a load connects in delta.
pub open spec fn is_delta(props: Entries) -> bool {
    suffix_at(props, "EnergyConsumer.phaseConnection"@) == Some("D"@)
}

pub open spec fn load_configuration(phases: nat, delta: bool) -> Configuration {
    if delta {
        Configuration::Delta
    } else if phases == 1 {
        Configuration::SinglePhase
    } else {
        Configuration::Wye
    }
}

/// The state and the terminal map of a load: a wye adds its grounded neutral, a
/// delta of one phase spans the two its terminal names, and has no map where it
/// does not name two.
#[verifier::opaque]
pub open spec fn load_map_of(
    st: StateV,
    o: ObjV,
    node: Seq<char>,
    letters: Seq<Seq<char>>,
    phases: Seq<PhaseV>,
) -> (StateV, Option<Seq<Seq<char>>>) {
    let delta = is_delta(o.props);
    let grounded = match bool_at(o.props, "EnergyConsumer.grounded"@) {
        Some(b) => b,
        None => !delta,
    };
    let map = phase_terminals(phases);
    if delta && phases.len() == 1 {
        let pair = hot_terminals_of(letters);
        if pair.len() == 2 {
            (st, Some(pair))
        } else {
            (
                st.warn(
                    "load "@ + o.name
                        + ": single-phase delta needs a two-phase terminal code; kept untyped"@,
                ).keep_untyped(o, "unresolvable delta terminals"@),
                None,
            )
        }
    } else if !delta && grounded {
        (st.ground_node(node), Some(map.push("4"@)))
    } else {
        (st, Some(map))
    }
}

fn load_map(
    st: &mut State,
    o: &Obj,
    node: &str,
    letters: &Vec<String>,
    delta: bool,
    terminals: Vec<String>,
    Ghost(phases): Ghost<Seq<PhaseV>>,
) -> (r: Option<Vec<String>>)
    requires
        delta == is_delta(o@.props),
        views(terminals@) == phase_terminals(phases),
    ensures
        (
            final(st)@,
            match r {
                Some(map) => Some(views(map@)),
                None => None,
            },
        ) == load_map_of(old(st)@, o@, node@, views(letters@), phases),
{
    broadcast use group_views;

    reveal(load_map_of);
    assert(views(terminals@).len() == terminals.len());
    let grounded = match get_bool(&o.props, "EnergyConsumer.grounded") {
        Some(b) => b,
        None => !delta,
    };
    let mut map = terminals;
    if delta && map.len() == 1 {
        let pair = hot_terminals(letters);
        assert(views(pair@).len() == pair.len());
        if pair.len() == 2 {
            Some(pair)
        } else {
            st.warn(
                cat3(
                    "load ",
                    o.name.as_str(),
                    ": single-phase delta needs a two-phase terminal code; kept untyped",
                ),
            );
            st.keep_untyped(o, "unresolvable delta terminals");
            None
        }
    } else if !delta && grounded {
        map.push("4".to_owned());
        st.ground_node(node);
        Some(map)
    } else {
        Some(map)
    }
}

/// The extras of a load: its volts as a load of its phases states them, and its
/// profiles.
#[verifier::opaque]
pub open spec fn load_extras_of(
    m: Sem,
    doc: Seq<ObjV>,
    props: Entries,
    base: Option<Bits>,
    phases: nat,
    delta: bool,
) -> Entries {
    let e = mrid_extras(props);
    let e = match base {
        Some(b) => {
            let kv = if phases == 1 && !delta {
                m.over(m.over(b, m.root3()), THOUSAND)
            } else {
                m.over(b, THOUSAND)
            };
            put_of(
                put_of(e, "kv"@, float_json(m, kv)),
                "phases"@,
                uint_json(phases),
            )
        },
        None => e,
    };
    with_profiles(doc, props, e)
}

fn load_extras<C: Calc>(
    math: &C,
    doc: &Vec<Obj>,
    props: &JsonMap,
    base: Option<Bits>,
    phases: usize,
    delta: bool,
) -> (r: JsonMap)
    ensures
        r@ == load_extras_of(math.sem(), views(doc@), props@, base, phases as nat, delta),
{
    reveal(load_extras_of);
    let mut extras = extras_with_mrid(props);
    if let Some(b) = base {
        let kv = if phases == 1 && !delta {
            over(math, over(math, b, root3(math)), THOUSAND)
        } else {
            over(math, b, THOUSAND)
        };
        extras.put("kv".to_owned(), Json::float(math, kv));
        extras.put("phases".to_owned(), Json::uint(phases as u64));
    }
    attach_profiles(doc, props, &mut extras);
    extras
}

pub open spec fn load_step(m: Sem, doc: Seq<ObjV>, st: StateV, o: ObjV) -> StateV {
    let terms = terminals_of(o.props);
    if terms.len() == 0 {
        st.keep_untyped(o, "no terminal"@)
    } else {
        let at = terms[0].1;
        let delta = is_delta(o.props);
        let powered = listed_phases(m, o.props).len() > 0 || num_at(
            m,
            o.props,
            "EnergyConsumer.p"@,
        ) is Some;
        let (phased, per_phase) = load_phases_of(m, st, o, at.phases);
        let phases = per_phase.len();
        let (mapped, map) = load_map_of(phased, o, at.node, at.phases, per_phase);
        match map {
            None => mapped,
            Some(map) => {
                let base = base_voltage_of(m, doc, o.props);
                let (based, v_nom) = match base {
                    Some(b) => (
                        mapped,
                        repeat_of(
                            if delta {
                                b
                            } else {
                                m.over(b, m.root3())
                            },
                            phases,
                        ),
                    ),
                    None => (
                        mapped.warn(
                            "load "@ + o.name
                                + ": no BaseVoltage; nominal voltage left unset"@,
                        ),
                        Seq::empty(),
                    ),
                };
                let (modelled, model) = load_model_of(m, doc, based, o, v_nom);
                let sized = if powered {
                    modelled
                } else {
                    modelled.defaulted("load"@, o.name, "kw"@)
                };
                let rated = if base is Some {
                    sized.defaulted("load"@, o.name, "kv"@)
                } else {
                    sized
                };
                let wired = rated.use_terminals(at.node, map);
                let load = DistLoadV {
                    voltage_model: model,
                    extras: load_extras_of(m, doc, o.props, base, phases, delta),
                    ..dist_load_of(
                        o.name,
                        at.node,
                        map,
                        load_configuration(phases, delta),
                        phase_ps(per_phase),
                        phase_qs(per_phase),
                    )
                };
                StateV {
                    net: DistNetworkV { loads: wired.net.loads.push(load), ..wired.net },
                    ..wired
                }
            },
        }
    }
}

pub open spec fn loads_n(m: Sem, doc: Seq<ObjV>, st: StateV, ids: Seq<usize>, n: nat) -> StateV
    decreases n,
{
    if n == 0 {
        st
    } else {
        load_step(m, doc, loads_n(m, doc, st, ids, (n - 1) as nat), doc[ids[n - 1] as int])
    }
}

/// Every load, in natural name order.
pub open spec fn map_loads_of(m: Sem, doc: Seq<ObjV>, st: StateV) -> StateV {
    let ids = sorted_kind(doc, "EnergyConsumer"@);
    loads_n(m, doc, st, ids, ids.len())
}

fn read_load<C: Calc>(math: &C, doc: &Vec<Obj>, st: &mut State, o: &Obj)
    ensures
        final(st)@ == load_step(math.sem(), views(doc@), old(st)@, o@),
{
    broadcast use group_views;

    let terms = terminal_entries(&o.props);
    assert(views(terms@).len() == terms.len());
    if terms.len() == 0 {
        st.keep_untyped(o, "no terminal");
        return;
    }
    let at = &terms[0].1;
    assert(views(terms@)[0] == (terms@[0].0, terms@[0].1@));
    let listed = read_phases(math, &o.props);
    assert(views(listed@).len() == listed.len());
    let powered = listed.len() > 0 || get_num(math, &o.props, "EnergyConsumer.p").is_some();
    let delta = match get_suffix(&o.props, "EnergyConsumer.phaseConnection") {
        Some(c) => same(c.as_str(), "D"),
        None => false,
    };
    let per_phase = load_phases(math, st, o, &at.phases);
    assert(views(per_phase@).len() == per_phase.len());
    let phases = per_phase.len();
    let (terminals, p, q) = unzip(&per_phase);
    let map = match load_map(
        st,
        o,
        at.node.as_str(),
        &at.phases,
        delta,
        terminals,
        Ghost(views(per_phase@)),
    ) {
        Some(m) => m,
        None => {
            return;
        },
    };
    let base = base_voltage(math, doc, &o.props);
    let v_nom = match base {
        Some(b) => {
            let v = if delta {
                b
            } else {
                over(math, b, root3(math))
            };
            repeat(v, phases)
        },
        None => {
            st.warn(
                cat3(
                    "load ",
                    o.name.as_str(),
                    ": no BaseVoltage; nominal voltage left unset",
                ),
            );
            Vec::new()
        },
    };
    let model = load_voltage_model(math, doc, st, o, v_nom);
    if !powered {
        st.defaulted("load", o.name.as_str(), "kw");
    }
    let extras = load_extras(math, doc, &o.props, base, phases, delta);
    if base.is_some() {
        st.defaulted("load", o.name.as_str(), "kv");
    }
    st.use_terminals(at.node.as_str(), &map);
    let configuration = if delta {
        Configuration::Delta
    } else if phases == 1 {
        Configuration::SinglePhase
    } else {
        Configuration::Wye
    };
    let mut load = DistLoad::new(o.name.clone(), at.node.clone(), map, configuration, p, q);
    load.voltage_model = model;
    load.extras = extras;
    st.net.loads.push(load);
}

pub fn map_loads<C: Calc>(math: &C, doc: &Vec<Obj>, st: &mut State)
    ensures
        final(st)@ == map_loads_of(math.sem(), views(doc@), old(st)@),
{
    let ids = sorted_of_kind(doc, "EnergyConsumer");
    let mut i: usize = 0;
    while i < ids.len()
        invariant
            i <= ids.len(),
            forall|k: int| 0 <= k < ids@.len() ==> (#[trigger] ids@[k]) < doc@.len(),
            st@ == loads_n(math.sem(), views(doc@), old(st)@, ids@, i as nat),
        decreases ids.len() - i,
    {
        assert(views(doc@)[ids@[i as int] as int] == doc@[ids@[i as int] as int]@);
        read_load(math, doc, st, &doc[ids[i]]);
        i = i + 1;
    }
}

// ---- shunts ----------------------------------------------------------------

/// The extras of a shunt: its volts and vars as a capacitor bank states them.
#[verifier::opaque]
pub open spec fn shunt_extras_of(m: Sem, props: Entries, b: Bits, n: nat, delta: bool) -> Entries {
    let e = mrid_extras(props);
    let e = match num_at(m, props, "ShuntCompensator.nomU"@) {
        Some(u) => {
            let kv = if !delta && n >= 2 {
                m.over(m.times(u, m.root3()), THOUSAND)
            } else {
                m.over(u, THOUSAND)
            };
            let kvar = m.over(
                m.times(m.times(m.times(b, u), u), m.from_int(n as u64)),
                THOUSAND,
            );
            put_of(
                put_of(put_of(e, "kv"@, float_json(m, kv)), "phases"@, uint_json(n)),
                "kvar"@,
                float_json(m, kvar),
            )
        },
        None => e,
    };
    if delta {
        put_of(e, "conn"@, JsonV::Str("delta"@))
    } else {
        e
    }
}

fn shunt_extras<C: Calc>(math: &C, props: &JsonMap, b: Bits, n: usize, delta: bool) -> (r: JsonMap)
    ensures
        r@ == shunt_extras_of(math.sem(), props@, b, n as nat, delta),
{
    reveal(shunt_extras_of);
    let mut extras = extras_with_mrid(props);
    if let Some(u) = get_num(math, props, "ShuntCompensator.nomU") {
        let kv = if !delta && n >= 2 {
            over(math, times(math, u, root3(math)), THOUSAND)
        } else {
            over(math, u, THOUSAND)
        };
        let kvar = over(
            math,
            times(
                math,
                times(math, times(math, b, u), u),
                from_int(math, n as u64),
            ),
            THOUSAND,
        );
        extras.put("kv".to_owned(), Json::float(math, kv));
        extras.put("phases".to_owned(), Json::uint(n as u64));
        extras.put("kvar".to_owned(), Json::float(math, kvar));
    }
    if delta {
        extras.put("conn".to_owned(), Json::text("delta"));
    }
    extras
}

/// The sections of a shunt: those in service, else the normal number, else one.
pub open spec fn sections_of(m: Sem, props: Entries) -> Bits {
    match num_at(m, props, "ShuntCompensator.sections"@) {
        Some(s) => s,
        None => num_or(m, props, "ShuntCompensator.normalSections"@, ONE),
    }
}

pub open spec fn shunt_step(m: Sem, doc: Seq<ObjV>, st: StateV, o: ObjV) -> StateV {
    let terms = terminals_of(o.props);
    if terms.len() == 0 {
        st.keep_untyped(o, "no terminal"@)
    } else {
        let at = terms[0].1;
        let named = terminals_of_letters(at.phases);
        let (phased, map) = if named.len() == 0 {
            (st.defaulted("shunt"@, o.name, "phases"@), three_phases())
        } else {
            (st, named)
        };
        let n = map.len();
        let delta = suffix_at(o.props, "ShuntCompensator.phaseConnection"@) == Some("D"@);
        let warned = if delta {
            phased.warn(
                "shunt "@ + o.name
                    + ": delta connection kept as per-phase diagonal susceptance; the off-diagonal geometry is not reconstructed"@,
            )
        } else {
            phased
        };
        let sections = sections_of(m, o.props);
        let b = m.times(
            num_or(m, o.props, "LinearShuntCompensator.bPerSection"@, ZERO),
            sections,
        );
        let g = m.times(
            num_or(m, o.props, "LinearShuntCompensator.gPerSection"@, ZERO),
            sections,
        );
        let rated = if num_at(m, o.props, "ShuntCompensator.nomU"@) is Some {
            warned.defaulted("capacitor"@, o.name, "kv"@).defaulted(
                "capacitor"@,
                o.name,
                "kvar"@,
            )
        } else {
            warned
        };
        let grounded = if delta {
            rated
        } else {
            rated.ground_node(at.node)
        };
        let wired = grounded.use_terminals(at.node, map);
        let shunt = DistShuntV {
            extras: shunt_extras_of(m, o.props, b, n, delta),
            ..dist_shunt_of(
                o.name,
                at.node,
                map,
                two_valued(n, g, ZERO),
                two_valued(n, b, ZERO),
            )
        };
        StateV {
            net: DistNetworkV { shunts: wired.net.shunts.push(shunt), ..wired.net },
            ..wired
        }
    }
}

pub open spec fn shunts_n(m: Sem, doc: Seq<ObjV>, st: StateV, ids: Seq<usize>, n: nat) -> StateV
    decreases n,
{
    if n == 0 {
        st
    } else {
        shunt_step(m, doc, shunts_n(m, doc, st, ids, (n - 1) as nat), doc[ids[n - 1] as int])
    }
}

/// Every shunt, in natural name order.
pub open spec fn map_shunts_of(m: Sem, doc: Seq<ObjV>, st: StateV) -> StateV {
    let ids = sorted_kind(doc, "LinearShuntCompensator"@);
    shunts_n(m, doc, st, ids, ids.len())
}

fn read_shunt<C: Calc>(math: &C, doc: &Vec<Obj>, st: &mut State, o: &Obj)
    ensures
        final(st)@ == shunt_step(math.sem(), views(doc@), old(st)@, o@),
{
    broadcast use group_views;

    let terms = terminal_entries(&o.props);
    assert(views(terms@).len() == terms.len());
    if terms.len() == 0 {
        st.keep_untyped(o, "no terminal");
        return;
    }
    let at = &terms[0].1;
    assert(views(terms@)[0] == (terms@[0].0, terms@[0].1@));
    let mut map = letters_to_terminals(&at.phases);
    assert(views(map@).len() == map.len());
    if map.len() == 0 {
        st.defaulted("shunt", o.name.as_str(), "phases");
        map = three_phase_map();
    }
    assert(views(map@).len() == map.len());
    let n = map.len();
    let delta = match get_suffix(&o.props, "ShuntCompensator.phaseConnection") {
        Some(c) => same(c.as_str(), "D"),
        None => false,
    };
    if delta {
        st.warn(
            cat3(
                "shunt ",
                o.name.as_str(),
                ": delta connection kept as per-phase diagonal susceptance; the off-diagonal geometry is not reconstructed",
            ),
        );
    }
    let sections = match get_num(math, &o.props, "ShuntCompensator.sections") {
        Some(s) => s,
        None => get_num_or(math, &o.props, "ShuntCompensator.normalSections", ONE),
    };
    let b = times(
        math,
        get_num_or(math, &o.props, "LinearShuntCompensator.bPerSection", ZERO),
        sections,
    );
    let g = times(
        math,
        get_num_or(math, &o.props, "LinearShuntCompensator.gPerSection", ZERO),
        sections,
    );
    let extras = shunt_extras(math, &o.props, b, n, delta);
    if get_num(math, &o.props, "ShuntCompensator.nomU").is_some() {
        st.defaulted("capacitor", o.name.as_str(), "kv");
        st.defaulted("capacitor", o.name.as_str(), "kvar");
    }
    if !delta {
        st.ground_node(at.node.as_str());
    }
    st.use_terminals(at.node.as_str(), &map);
    let g = two_valued_mat(n, g, ZERO);
    let b = two_valued_mat(n, b, ZERO);
    let mut shunt = DistShunt::new(o.name.clone(), at.node.clone(), map, g, b);
    shunt.extras = extras;
    st.net.shunts.push(shunt);
}

pub fn map_shunts<C: Calc>(math: &C, doc: &Vec<Obj>, st: &mut State)
    ensures
        final(st)@ == map_shunts_of(math.sem(), views(doc@), old(st)@),
{
    let ids = sorted_of_kind(doc, "LinearShuntCompensator");
    let mut i: usize = 0;
    while i < ids.len()
        invariant
            i <= ids.len(),
            forall|k: int| 0 <= k < ids@.len() ==> (#[trigger] ids@[k]) < doc@.len(),
            st@ == shunts_n(math.sem(), views(doc@), old(st)@, ids@, i as nat),
        decreases ids.len() - i,
    {
        assert(views(doc@)[ids@[i as int] as int] == doc@[ids@[i as int] as int]@);
        read_shunt(math, doc, st, &doc[ids[i]]);
        i = i + 1;
    }
}

} // verus!
