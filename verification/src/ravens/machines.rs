//! Rotating machines, power electronics and sources.

use vstd::prelude::*;

use crate::json::{float_json, get_of, put_of, uint_json, Entries, Json, JsonMap};
use crate::math::{
    abs, abs_of, degrees, from_int, le, lt, minus, num_le, num_lt, over, plus, rem_euclid, root3,
    sin, times, Bits, Calc, Sem, ONE, PI, TAU, THOUSAND, TWO, ZERO,
};
use crate::model::{
    dist_generator_of, dist_ibr_of, repeat, repeat_of, voltage_source_of, Configuration,
    DistGenerator, DistGeneratorV, DistIbr, DistIbrV, DistNetworkV, IbrPrimeMover, IbrTopology,
    VoltageSource, VoltageSourceV,
};
use crate::order::copy_list;
use crate::ravens::doc::{
    add_kind, get_num, get_num_or, get_obj, get_str, num_at, num_or, obj_at, of_kind_n, sorted_kind,
    sorted_of_kind, str_at, terminal_entries, terminals_of, Obj, ObjV,
};
use crate::ravens::lines::{extras_with_mrid, mrid_extras};
use crate::ravens::name::{hot_terminals, hot_terminals_of};
use crate::ravens::state::{State, StateV};
use crate::terminals::{three_phase_map, three_phases};
use crate::text::{cat5, group_views, opt_view, same, views};

verus! {

/// The state and the hot terminals an element presents; three phases where its
/// terminal names none.
pub open spec fn element_phases_of(st: StateV, class: Seq<char>, name: Seq<char>, letters: Seq<
    Seq<char>,
>) -> (StateV, Seq<Seq<char>>) {
    let named = hot_terminals_of(letters);
    if named.len() == 0 {
        (st.defaulted(class, name, "phases"@), three_phases())
    } else {
        (st, named)
    }
}

fn element_phases(st: &mut State, class: &str, name: &str, letters: &Vec<String>) -> (r: Vec<
    String,
>)
    ensures
        (final(st)@, views(r@)) == element_phases_of(
            old(st)@,
            class@,
            name@,
            views(letters@),
        ),
{
    let hot = hot_terminals(letters);
    assert(views(hot@).len() == hot.len());
    if hot.len() == 0 {
        st.defaulted(class, name, "phases");
        three_phase_map()
    } else {
        hot
    }
}

/// A total shared evenly among phases.
pub open spec fn per_phase_of(m: Sem, total: Bits, phases: nat) -> Seq<Bits> {
    repeat_of(m.over(total, m.from_int(phases as u64)), phases)
}

fn per_phase<C: Calc>(math: &C, total: Bits, phases: usize) -> (r: Vec<Bits>)
    ensures
        r@ == per_phase_of(math.sem(), total, phases as nat),
{
    repeat(over(math, total, from_int(math, phases as u64)), phases)
}

/// The number under a key, shared among phases.
pub open spec fn shared_at(m: Sem, o: Entries, key: Seq<char>, phases: nat) -> Option<Seq<Bits>> {
    match num_at(m, o, key) {
        Some(x) => Some(per_phase_of(m, x, phases)),
        None => None,
    }
}

fn get_shared<C: Calc>(math: &C, o: &JsonMap, key: &str, phases: usize) -> (r: Option<Vec<Bits>>)
    ensures
        opt_view(r) == shared_at(math.sem(), o@, key@, phases as nat),
{
    match get_num(math, o, key) {
        Some(x) => Some(per_phase(math, x, phases)),
        None => None,
    }
}

/// The extras with the number under a property, in thousands, noted under a key.
pub open spec fn note_thousands(m: Sem, extras: Entries, o: Entries, prop: Seq<char>, key: Seq<
    char,
>) -> Entries {
    match num_at(m, o, prop) {
        Some(x) => put_of(extras, key, float_json(m, m.over(x, THOUSAND))),
        None => extras,
    }
}

fn note_kilo<C: Calc>(math: &C, extras: &mut JsonMap, o: &JsonMap, prop: &str, key: &str)
    ensures
        final(extras)@ == note_thousands(math.sem(), old(extras)@, o@, prop@, key@),
{
    if let Some(x) = get_num(math, o, prop) {
        extras.put(key.to_owned(), Json::float(math, over(math, x, THOUSAND)));
    }
}

// ---- rotating machines -----------------------------------------------------

#[verifier::opaque]
pub open spec fn machine_extras_of(m: Sem, props: Entries, phases: nat) -> Entries {
    let e = mrid_extras(props);
    let e = match num_at(m, props, "RotatingMachine.ratedU"@) {
        Some(u) => put_of(
            put_of(e, "kv"@, float_json(m, m.over(u, THOUSAND))),
            "phases"@,
            uint_json(phases),
        ),
        None => e,
    };
    note_thousands(m, e, props, "RotatingMachine.ratedS"@, "kva"@)
}

fn machine_extras<C: Calc>(math: &C, props: &JsonMap, phases: usize) -> (r: JsonMap)
    ensures
        r@ == machine_extras_of(math.sem(), props@, phases as nat),
{
    reveal(machine_extras_of);
    let mut e = extras_with_mrid(props);
    if let Some(u) = get_num(math, props, "RotatingMachine.ratedU") {
        e.put("kv".to_owned(), Json::float(math, over(math, u, THOUSAND)));
        e.put("phases".to_owned(), Json::uint(phases as u64));
    }
    note_kilo(math, &mut e, props, "RotatingMachine.ratedS", "kva");
    e
}

pub open spec fn machine_step(m: Sem, doc: Seq<ObjV>, st: StateV, o: ObjV) -> StateV {
    let terms = terminals_of(o.props);
    if terms.len() == 0 {
        st.keep_untyped(o, "no terminal"@)
    } else {
        let at = terms[0].1;
        let (phased, hot) = element_phases_of(st, "generator"@, o.name, at.phases);
        let phases = hot.len();
        let map = hot.push("4"@);
        let bare = dist_generator_of(
            o.name,
            at.node,
            map,
            if phases == 1 {
                Configuration::SinglePhase
            } else {
                Configuration::Wye
            },
            per_phase_of(m, num_or(m, o.props, "RotatingMachine.p"@, ZERO), phases),
            per_phase_of(m, num_or(m, o.props, "RotatingMachine.q"@, ZERO), phases),
        );
        let unit = obj_at(o.props, "RotatingMachine.GeneratingUnit"@);
        let machine = DistGeneratorV {
            q_max: shared_at(m, o.props, "SynchronousMachine.maxQ"@, phases),
            q_min: shared_at(m, o.props, "SynchronousMachine.minQ"@, phases),
            p_max: match unit {
                Some(u) => shared_at(m, u, "GeneratingUnit.maxOperatingP"@, phases),
                None => None,
            },
            p_min: match unit {
                Some(u) => shared_at(m, u, "GeneratingUnit.minOperatingP"@, phases),
                None => None,
            },
            extras: machine_extras_of(m, o.props, phases),
            ..bare
        };
        let wired = phased.use_terminals(at.node, map);
        StateV {
            net: DistNetworkV { generators: wired.net.generators.push(machine), ..wired.net },
            ..wired
        }
    }
}

pub open spec fn machines_n(m: Sem, doc: Seq<ObjV>, st: StateV, ids: Seq<usize>, n: nat) -> StateV
    decreases n,
{
    if n == 0 {
        st
    } else {
        machine_step(m, doc, machines_n(m, doc, st, ids, (n - 1) as nat), doc[ids[n - 1] as int])
    }
}

/// The machines of both classes, in natural name order.
pub open spec fn machine_ids(doc: Seq<ObjV>) -> Seq<usize> {
    let s = of_kind_n(doc, Seq::empty(), "SynchronousMachine"@, doc.len());
    of_kind_n(doc, s, "AsynchronousMachine"@, doc.len())
}

pub open spec fn map_machines_of(m: Sem, doc: Seq<ObjV>, st: StateV) -> StateV {
    let ids = machine_ids(doc);
    machines_n(m, doc, st, ids, ids.len())
}

fn read_machine<C: Calc>(math: &C, doc: &Vec<Obj>, st: &mut State, o: &Obj)
    ensures
        final(st)@ == machine_step(math.sem(), views(doc@), old(st)@, o@),
{
    broadcast use group_views;

    let terms = terminal_entries(&o.props);
    assert(views(terms@).len() == terms.len());
    if terms.len() == 0 {
        st.keep_untyped(o, "no terminal");
        return;
    }
    let at = &terms[0].1;
    assert(views(terms@)[0] == (terms@[0].0, terms@[0].1@));
    let mut map = element_phases(st, "generator", o.name.as_str(), &at.phases);
    assert(views(map@).len() == map.len());
    let phases = map.len();
    map.push("4".to_owned());
    let configuration = if phases == 1 {
        Configuration::SinglePhase
    } else {
        Configuration::Wye
    };
    let extras = machine_extras(math, &o.props, phases);
    let p = per_phase(math, get_num_or(math, &o.props, "RotatingMachine.p", ZERO), phases);
    let q = per_phase(math, get_num_or(math, &o.props, "RotatingMachine.q", ZERO), phases);
    let own = copy_list(&map);
    let mut machine = DistGenerator::new(
        o.name.clone(),
        at.node.clone(),
        own,
        configuration,
        p,
        q,
    );
    machine.q_max = get_shared(math, &o.props, "SynchronousMachine.maxQ", phases);
    machine.q_min = get_shared(math, &o.props, "SynchronousMachine.minQ", phases);
    if let Some(u) = get_obj(&o.props, "RotatingMachine.GeneratingUnit") {
        machine.p_max = get_shared(math, u, "GeneratingUnit.maxOperatingP", phases);
        machine.p_min = get_shared(math, u, "GeneratingUnit.minOperatingP", phases);
    }
    machine.extras = extras;
    st.use_terminals(at.node.as_str(), &map);
    st.net.generators.push(machine);
}

pub fn map_machines<C: Calc>(math: &C, doc: &Vec<Obj>, st: &mut State)
    ensures
        final(st)@ == map_machines_of(math.sem(), views(doc@), old(st)@),
{
    let mut ids: Vec<usize> = Vec::new();
    assert(views(doc@).len() == doc.len());
    add_kind(doc, &mut ids, "SynchronousMachine");
    add_kind(doc, &mut ids, "AsynchronousMachine");
    let mut i: usize = 0;
    while i < ids.len()
        invariant
            i <= ids.len(),
            forall|k: int| 0 <= k < ids@.len() ==> (#[trigger] ids@[k]) < doc@.len(),
            st@ == machines_n(math.sem(), views(doc@), old(st)@, ids@, i as nat),
        decreases ids.len() - i,
    {
        assert(views(doc@)[ids@[i as int] as int] == doc@[ids@[i as int] as int]@);
        read_machine(math, doc, st, &doc[ids[i]]);
        i = i + 1;
    }
}

// ---- power electronics -----------------------------------------------------

/// What drives a unit of a kind; another kind is reported as generic.
pub open spec fn prime_mover_of(st: StateV, name: Seq<char>, kind: Seq<char>) -> (
    StateV,
    IbrPrimeMover,
) {
    if kind == "PhotoVoltaicUnit"@ {
        (st, IbrPrimeMover::Pv)
    } else if kind == "BatteryUnit"@ {
        (st, IbrPrimeMover::Battery)
    } else {
        (
            st.warn(
                "power electronics "@ + name + ": unit type `"@ + kind
                    + "` is not typed; treated as a generic inverter"@,
            ),
            IbrPrimeMover::Generic,
        )
    }
}

fn prime_mover(st: &mut State, name: &str, kind: &str) -> (r: IbrPrimeMover)
    ensures
        (final(st)@, r) == prime_mover_of(old(st)@, name@, kind@),
{
    if same(kind, "PhotoVoltaicUnit") {
        IbrPrimeMover::Pv
    } else if same(kind, "BatteryUnit") {
        IbrPrimeMover::Battery
    } else {
        st.warn(
            cat5(
                "power electronics ",
                name,
                ": unit type `",
                kind,
                "` is not typed; treated as a generic inverter",
            ),
        );
        IbrPrimeMover::Generic
    }
}

/// The extras with a value carried over as it is.
pub open spec fn note_value(
    extras: Entries,
    o: Entries,
    prop: Seq<char>,
    key: Seq<char>,
) -> Entries {
    match get_of(o, prop) {
        Some(v) => put_of(extras, key, v),
        None => extras,
    }
}

fn note_copy(extras: &mut JsonMap, o: &JsonMap, prop: &str, key: &str)
    ensures
        final(extras)@ == note_value(old(extras)@, o@, prop@, key@),
{
    if let Some(v) = o.get(prop) {
        extras.put(key.to_owned(), v.copy());
    }
}

#[verifier::opaque]
pub open spec fn ibr_extras_of(m: Sem, props: Entries, unit: Option<Entries>) -> Entries {
    let e = mrid_extras(props);
    let e = note_thousands(m, e, props, "PowerElectronicsConnection.ratedU"@, "kv"@);
    let e = note_thousands(m, e, props, "PowerElectronicsConnection.q"@, "kvar"@);
    match unit {
        Some(u) => note_value(
            note_value(
                note_value(e, u, "BatteryUnit.ratedE"@, "ravens_rated_e"@),
                u,
                "BatteryUnit.storedE"@,
                "ravens_stored_e"@,
            ),
            u,
            "BatteryUnit.BatteryUnitEfficiency"@,
            "ravens_battery_efficiency"@,
        ),
        None => e,
    }
}

fn ibr_extras<C: Calc>(math: &C, props: &JsonMap, unit: Option<&JsonMap>) -> (r: JsonMap)
    ensures
        r@ == ibr_extras_of(
            math.sem(),
            props@,
            match unit {
                Some(u) => Some(u@),
                None => None,
            },
        ),
{
    reveal(ibr_extras_of);
    let mut e = extras_with_mrid(props);
    note_kilo(math, &mut e, props, "PowerElectronicsConnection.ratedU", "kv");
    note_kilo(math, &mut e, props, "PowerElectronicsConnection.q", "kvar");
    if let Some(u) = unit {
        note_copy(&mut e, u, "BatteryUnit.ratedE", "ravens_rated_e");
        note_copy(&mut e, u, "BatteryUnit.storedE", "ravens_stored_e");
        note_copy(&mut e, u, "BatteryUnit.BatteryUnitEfficiency", "ravens_battery_efficiency");
    }
    e
}

/// The fault current per phase, from its per-unit of the rated current.
#[verifier::opaque]
pub open spec fn fault_amps_of(m: Sem, props: Entries, phases: nat) -> Option<Seq<Bits>> {
    let rated_s = num_or(m, props, "PowerElectronicsConnection.ratedS"@, ZERO);
    match (num_at(m, props, "PowerElectronicsConnection.maxIFault"@), num_at(
        m,
        props,
        "PowerElectronicsConnection.ratedU"@,
    )) {
        (Some(pu), Some(u)) => if num_lt(ZERO, rated_s) && num_lt(ZERO, u) {
            let amps = if phases == 1 {
                m.over(rated_s, u)
            } else {
                m.over(rated_s, m.times(m.root3(), u))
            };
            Some(repeat_of(m.times(pu, amps), phases))
        } else {
            None
        },
        _ => None,
    }
}

fn fault_amps<C: Calc>(math: &C, props: &JsonMap, phases: usize) -> (r: Option<Vec<Bits>>)
    ensures
        opt_view(r) == fault_amps_of(math.sem(), props@, phases as nat),
{
    reveal(fault_amps_of);
    let rated_s = get_num_or(math, props, "PowerElectronicsConnection.ratedS", ZERO);
    let pu = get_num(math, props, "PowerElectronicsConnection.maxIFault");
    let u = get_num(math, props, "PowerElectronicsConnection.ratedU");
    if let (Some(pu), Some(u)) = (pu, u) {
        if lt(ZERO, rated_s) && lt(ZERO, u) {
            let amps = if phases == 1 {
                over(math, rated_s, u)
            } else {
                over(math, rated_s, times(math, root3(math), u))
            };
            return Some(repeat(times(math, pu, amps), phases));
        }
    }
    None
}

pub open spec fn electronics_step(m: Sem, doc: Seq<ObjV>, st: StateV, o: ObjV) -> StateV {
    let terms = terminals_of(o.props);
    if terms.len() == 0 {
        st.keep_untyped(o, "no terminal"@)
    } else {
        let at = terms[0].1;
        let (phased, hot) = element_phases_of(st, "pvsystem"@, o.name, at.phases);
        let phases = hot.len();
        let map = hot.push("4"@);
        let unit = obj_at(o.props, "PowerElectronicsConnection.PowerElectronicsUnit"@);
        let kind = match unit {
            Some(u) => match str_at(u, "Ravens.cimObjectType"@) {
                Some(k) => k,
                None => seq![],
            },
            None => seq![],
        };
        let (driven, mover) = prime_mover_of(phased, o.name, kind);
        let rated_s = num_or(m, o.props, "PowerElectronicsConnection.ratedS"@, ZERO);
        let bare = dist_ibr_of(
            o.name,
            at.node,
            map,
            if phases == 1 {
                IbrTopology::SinglePhase
            } else {
                IbrTopology::ThreeLeg
            },
            mover,
            per_phase_of(m, rated_s, phases),
        );
        let ibr = DistIbrV {
            p_avail: num_at(m, o.props, "PowerElectronicsConnection.p"@),
            q_max: shared_at(m, o.props, "PowerElectronicsConnection.maxQ"@, phases),
            q_min: shared_at(m, o.props, "PowerElectronicsConnection.minQ"@, phases),
            p_max: match unit {
                Some(u) => shared_at(m, u, "PowerElectronicsUnit.maxP"@, phases),
                None => None,
            },
            p_min: match unit {
                Some(u) => shared_at(m, u, "PowerElectronicsUnit.minP"@, phases),
                None => None,
            },
            i_max: fault_amps_of(m, o.props, phases),
            extras: ibr_extras_of(m, o.props, unit),
            ..bare
        };
        let wired = driven.use_terminals(at.node, map);
        StateV {
            net: DistNetworkV { ibrs: wired.net.ibrs.push(ibr), ..wired.net },
            ..wired
        }
    }
}

pub open spec fn electronics_n(
    m: Sem,
    doc: Seq<ObjV>,
    st: StateV,
    ids: Seq<usize>,
    n: nat,
) -> StateV
    decreases n,
{
    if n == 0 {
        st
    } else {
        electronics_step(
            m,
            doc,
            electronics_n(m, doc, st, ids, (n - 1) as nat),
            doc[ids[n - 1] as int],
        )
    }
}

/// Every power electronics connection, in natural name order.
pub open spec fn map_electronics_of(m: Sem, doc: Seq<ObjV>, st: StateV) -> StateV {
    let ids = sorted_kind(doc, "PowerElectronicsConnection"@);
    electronics_n(m, doc, st, ids, ids.len())
}

fn read_electronics<C: Calc>(math: &C, doc: &Vec<Obj>, st: &mut State, o: &Obj)
    ensures
        final(st)@ == electronics_step(math.sem(), views(doc@), old(st)@, o@),
{
    broadcast use group_views;

    let terms = terminal_entries(&o.props);
    assert(views(terms@).len() == terms.len());
    if terms.len() == 0 {
        st.keep_untyped(o, "no terminal");
        return;
    }
    let at = &terms[0].1;
    assert(views(terms@)[0] == (terms@[0].0, terms@[0].1@));
    let mut map = element_phases(st, "pvsystem", o.name.as_str(), &at.phases);
    assert(views(map@).len() == map.len());
    let phases = map.len();
    map.push("4".to_owned());
    let unit = get_obj(&o.props, "PowerElectronicsConnection.PowerElectronicsUnit");
    let kind = match unit {
        Some(u) => match get_str(u, "Ravens.cimObjectType") {
            Some(k) => k.clone(),
            None => String::new(),
        },
        None => String::new(),
    };
    let ghost want = match unit {
        Some(u) => match str_at(u@, "Ravens.cimObjectType"@) {
            Some(k) => k,
            None => seq![],
        },
        None => seq![],
    };
    assert(kind@ =~= want);
    let mover = prime_mover(st, o.name.as_str(), kind.as_str());
    let rated_s = get_num_or(math, &o.props, "PowerElectronicsConnection.ratedS", ZERO);
    let topology = if phases == 1 {
        IbrTopology::SinglePhase
    } else {
        IbrTopology::ThreeLeg
    };
    let extras = ibr_extras(math, &o.props, unit);
    let own = copy_list(&map);
    let mut ibr = DistIbr::new(
        o.name.clone(),
        at.node.clone(),
        own,
        topology,
        mover,
        per_phase(math, rated_s, phases),
    );
    ibr.p_avail = get_num(math, &o.props, "PowerElectronicsConnection.p");
    ibr.q_max = get_shared(math, &o.props, "PowerElectronicsConnection.maxQ", phases);
    ibr.q_min = get_shared(math, &o.props, "PowerElectronicsConnection.minQ", phases);
    if let Some(u) = unit {
        ibr.p_max = get_shared(math, u, "PowerElectronicsUnit.maxP", phases);
        ibr.p_min = get_shared(math, u, "PowerElectronicsUnit.minP", phases);
    }
    ibr.i_max = fault_amps(math, &o.props, phases);
    ibr.extras = extras;
    st.use_terminals(at.node.as_str(), &map);
    st.net.ibrs.push(ibr);
}

pub fn map_power_electronics<C: Calc>(math: &C, doc: &Vec<Obj>, st: &mut State)
    ensures
        final(st)@ == map_electronics_of(math.sem(), views(doc@), old(st)@),
{
    let ids = sorted_of_kind(doc, "PowerElectronicsConnection");
    let mut i: usize = 0;
    while i < ids.len()
        invariant
            i <= ids.len(),
            forall|k: int| 0 <= k < ids@.len() ==> (#[trigger] ids@[k]) < doc@.len(),
            st@ == electronics_n(math.sem(), views(doc@), old(st)@, ids@, i as nat),
        decreases ids.len() - i,
    {
        assert(views(doc@)[ids@[i as int] as int] == doc@[ids@[i as int] as int]@);
        read_electronics(math, doc, st, &doc[ids[i]]);
        i = i + 1;
    }
}

// ---- sources ---------------------------------------------------------------

/// The angle of the `k`-th of `n` phases, a share of a turn behind the one
/// before, wrapped into the half-open turn above minus pi.
pub open spec fn wrapped_angle(m: Sem, angle: Bits, n: Bits, k: nat) -> Bits {
    let a = m.minus(angle, m.times(m.over(TAU, n), m.from_int(k as u64)));
    let shifted = m.rem_euclid(m.plus(a, PI), TAU);
    if num_le(shifted, ZERO) {
        PI
    } else {
        m.minus(shifted, PI)
    }
}

/// The angles of the phases, and zero for the neutral.
pub open spec fn source_angles_of(m: Sem, angle: Bits, phases: nat) -> Seq<Bits> {
    Seq::new(
        phases,
        |k: int| wrapped_angle(m, angle, m.from_int(phases as u64), k as nat),
    ).push(ZERO)
}

fn source_angles<C: Calc>(math: &C, angle: Bits, phases: usize) -> (r: Vec<Bits>)
    ensures
        r@ == source_angles_of(math.sem(), angle, phases as nat),
{
    let n = from_int(math, phases as u64);
    let ghost want = Seq::new(
        phases as nat,
        |k: int| wrapped_angle(math.sem(), angle, n, k as nat),
    );
    let mut r: Vec<Bits> = Vec::new();
    let mut k: usize = 0;
    while k < phases
        invariant
            k <= phases,
            want.len() == phases,
            forall|q: int|
                0 <= q < phases ==> #[trigger] want[q] == wrapped_angle(
                    math.sem(),
                    angle,
                    n,
                    q as nat,
                ),
            r@ == want.take(k as int),
        decreases phases - k,
    {
        let a = minus(math, angle, times(math, over(math, TAU, n), from_int(math, k as u64)));
        let shifted = rem_euclid(math, plus(math, a, PI), TAU);
        let w = if le(shifted, ZERO) {
            PI
        } else {
            minus(math, shifted, PI)
        };
        r.push(w);
        k = k + 1;
        assert(r@ =~= want.take(k as int));
    }
    r.push(ZERO);
    assert(r@ =~= source_angles_of(math.sem(), angle, phases as nat));
    r
}

/// The volts of each phase, and zero for the neutral: the magnitude of one phase
/// outright, else the side of the polygon whose chord it is.
pub open spec fn source_volts_of(m: Sem, magnitude: Bits, phases: nat) -> Seq<Bits> {
    let v = if phases == 1 {
        magnitude
    } else {
        m.over(magnitude, m.times(TWO, m.sin(m.over(PI, m.from_int(phases as u64)))))
    };
    repeat_of(v, phases).push(ZERO)
}

/// The extras with the number under a property noted under a key.
pub open spec fn note_number(
    m: Sem,
    extras: Entries,
    o: Entries,
    prop: Seq<char>,
    key: Seq<char>,
) -> Entries {
    match num_at(m, o, prop) {
        Some(x) => put_of(extras, key, float_json(m, x)),
        None => extras,
    }
}

fn note_num<C: Calc>(math: &C, extras: &mut JsonMap, o: &JsonMap, prop: &str, key: &str)
    ensures
        final(extras)@ == note_number(math.sem(), old(extras)@, o@, prop@, key@),
{
    if let Some(x) = get_num(math, o, prop) {
        extras.put(key.to_owned(), Json::float(math, x));
    }
}

#[verifier::opaque]
pub open spec fn source_extras_of(m: Sem, props: Entries) -> Entries {
    let magnitude = num_or(m, props, "EnergySource.voltageMagnitude"@, ZERO);
    let angle = num_or(m, props, "EnergySource.voltageAngle"@, ZERO);
    let e = mrid_extras(props);
    let e = match num_at(m, props, "EnergySource.nominalVoltage"@) {
        Some(nom) => {
            let based = put_of(e, "basekv"@, float_json(m, m.over(nom, THOUSAND)));
            let pu = if num_lt(ZERO, nom) {
                m.over(magnitude, nom)
            } else {
                ONE
            };
            if num_lt(ZERO, abs_of(m.minus(pu, ONE))) {
                put_of(based, "pu"@, float_json(m, pu))
            } else {
                based
            }
        },
        None => e,
    };
    let e = put_of(e, "angle"@, float_json(m, m.degrees(angle)));
    let e = note_number(m, e, props, "EnergySource.r"@, "r1"@);
    let e = note_number(m, e, props, "EnergySource.x"@, "x1"@);
    let e = note_number(m, e, props, "EnergySource.r0"@, "r0"@);
    note_number(m, e, props, "EnergySource.x0"@, "x0"@)
}

fn source_extras<C: Calc>(math: &C, props: &JsonMap) -> (r: JsonMap)
    ensures
        r@ == source_extras_of(math.sem(), props@),
{
    reveal(source_extras_of);
    let magnitude = get_num_or(math, props, "EnergySource.voltageMagnitude", ZERO);
    let angle = get_num_or(math, props, "EnergySource.voltageAngle", ZERO);
    let mut e = extras_with_mrid(props);
    if let Some(nom) = get_num(math, props, "EnergySource.nominalVoltage") {
        e.put("basekv".to_owned(), Json::float(math, over(math, nom, THOUSAND)));
        let pu = if lt(ZERO, nom) {
            over(math, magnitude, nom)
        } else {
            ONE
        };
        if lt(ZERO, abs(minus(math, pu, ONE))) {
            e.put("pu".to_owned(), Json::float(math, pu));
        }
    }
    e.put("angle".to_owned(), Json::float(math, degrees(math, angle)));
    note_num(math, &mut e, props, "EnergySource.r", "r1");
    note_num(math, &mut e, props, "EnergySource.x", "x1");
    note_num(math, &mut e, props, "EnergySource.r0", "r0");
    note_num(math, &mut e, props, "EnergySource.x0", "x0");
    e
}

pub open spec fn source_step(m: Sem, doc: Seq<ObjV>, st: StateV, o: ObjV) -> StateV {
    let terms = terminals_of(o.props);
    if terms.len() == 0 {
        st.keep_untyped(o, "no terminal"@)
    } else {
        let at = terms[0].1;
        let (phased, hot) = element_phases_of(st, "vsource"@, o.name, at.phases);
        let phases = hot.len();
        let map = hot.push("4"@);
        let magnitude = num_or(m, o.props, "EnergySource.voltageMagnitude"@, ZERO);
        let angle = num_or(m, o.props, "EnergySource.voltageAngle"@, ZERO);
        let wired = phased.use_terminals(at.node, map).ground_node(at.node);
        let source = VoltageSourceV {
            extras: source_extras_of(m, o.props),
            ..voltage_source_of(
                o.name,
                at.node,
                map,
                source_volts_of(m, magnitude, phases),
                source_angles_of(m, angle, phases),
            )
        };
        StateV {
            net: DistNetworkV { sources: wired.net.sources.push(source), ..wired.net },
            ..wired
        }
    }
}

pub open spec fn sources_n(m: Sem, doc: Seq<ObjV>, st: StateV, ids: Seq<usize>, n: nat) -> StateV
    decreases n,
{
    if n == 0 {
        st
    } else {
        source_step(m, doc, sources_n(m, doc, st, ids, (n - 1) as nat), doc[ids[n - 1] as int])
    }
}

/// Every source, in natural name order.
pub open spec fn map_sources_of(m: Sem, doc: Seq<ObjV>, st: StateV) -> StateV {
    let ids = sorted_kind(doc, "EnergySource"@);
    sources_n(m, doc, st, ids, ids.len())
}

fn read_source<C: Calc>(math: &C, doc: &Vec<Obj>, st: &mut State, o: &Obj)
    ensures
        final(st)@ == source_step(math.sem(), views(doc@), old(st)@, o@),
{
    broadcast use group_views;

    let terms = terminal_entries(&o.props);
    assert(views(terms@).len() == terms.len());
    if terms.len() == 0 {
        st.keep_untyped(o, "no terminal");
        return;
    }
    let at = &terms[0].1;
    assert(views(terms@)[0] == (terms@[0].0, terms@[0].1@));
    let mut map = element_phases(st, "vsource", o.name.as_str(), &at.phases);
    assert(views(map@).len() == map.len());
    let phases = map.len();
    map.push("4".to_owned());
    let magnitude = get_num_or(math, &o.props, "EnergySource.voltageMagnitude", ZERO);
    let angle = get_num_or(math, &o.props, "EnergySource.voltageAngle", ZERO);
    let v = if phases == 1 {
        magnitude
    } else {
        let n = from_int(math, phases as u64);
        over(math, magnitude, times(math, TWO, sin(math, over(math, PI, n))))
    };
    let mut volts = repeat(v, phases);
    volts.push(ZERO);
    let angles = source_angles(math, angle, phases);
    let extras = source_extras(math, &o.props);
    st.use_terminals(at.node.as_str(), &map);
    st.ground_node(at.node.as_str());
    let mut source = VoltageSource::new(o.name.clone(), at.node.clone(), map, volts, angles);
    source.extras = extras;
    st.net.sources.push(source);
}

pub fn map_sources<C: Calc>(math: &C, doc: &Vec<Obj>, st: &mut State)
    ensures
        final(st)@ == map_sources_of(math.sem(), views(doc@), old(st)@),
{
    let ids = sorted_of_kind(doc, "EnergySource");
    let mut i: usize = 0;
    while i < ids.len()
        invariant
            i <= ids.len(),
            forall|k: int| 0 <= k < ids@.len() ==> (#[trigger] ids@[k]) < doc@.len(),
            st@ == sources_n(math.sem(), views(doc@), old(st)@, ids@, i as nat),
        decreases ids.len() - i,
    {
        assert(views(doc@)[ids@[i as int] as int] == doc@[ids@[i as int] as int]@);
        read_source(math, doc, st, &doc[ids[i]]);
        i = i + 1;
    }
}

} // verus!
