//! Shunts, rotating machines, power electronics and sources, as tables by name.

use vstd::prelude::*;

use crate::json::{get_of, put_of, str_of, uint_json, float_json, Entries, Json, JsonMap, JsonV};
use crate::math::{
    abs, abs_of, from_int, larger, lt, minus, num_lt, over, root3, sin, times, Bits, Calc, Sem,
    EPSILON, NANO, ONE, PI, TAU, TWO, ZERO,
};
use crate::model::{
    entry, entry_of, DistGenerator, DistGeneratorV, DistIbr, DistIbrV, DistNetwork, DistShunt,
    DistShuntV, IbrPrimeMover, Mat, MatV, VoltageSource, VoltageSourceV,
};
use crate::ravens::emit::{
    array1, extra_num, extras_mrid, extras_mrid_of, full_code, full_code_of, hot_code, hot_code_of,
    identified, identified_of, object, sum, sum_of, terminal, terminal_json, xnum, Writer, WriterV,
};
use crate::ravens::name::{hot, hot_of};
use crate::ravens::scale::{
    multiple, multiple_of, share, share_of, thousands, thousands_of, wrap_angle, wrap_of, wrapped,
    wrapped_of, wye_volts, wye_volts_of,
};
use crate::text::{cat2, lower_of, opt_view, same, same_ignoring_case, views};

verus! {

// ---- shunts ----------------------------------------------------------------

/// Whether a value differs from another by more than rounding.
pub open spec fn differs(m: Sem, v: Bits, b: Bits) -> bool {
    num_lt(m.times(EPSILON, m.max(abs_of(b), ONE)), abs_of(m.minus(v, b)))
}

fn differ<C: Calc>(math: &C, v: Bits, b: Bits) -> (r: bool)
    ensures
        r == differs(math.sem(), v, b),
{
    lt(times(math, EPSILON, larger(math, abs(b), ONE)), abs(minus(math, v, b)))
}

/// Whether the `k`-th phase of a shunt differs from the first.
pub open spec fn uneven_at(m: Sem, s: DistShuntV, k: int) -> bool {
    differs(m, entry_of(s.b, k, k), entry_of(s.b, 0, 0)) || differs(
        m,
        entry_of(s.g, k, k),
        entry_of(s.g, 0, 0),
    )
}

/// Whether some phase of a shunt differs from the first.
pub open spec fn uneven_shunt(m: Sem, s: DistShuntV) -> bool {
    exists|k: int| 1 <= k < s.terminal_map.len() && #[trigger] uneven_at(m, s, k)
}

fn is_uneven<C: Calc>(math: &C, s: &DistShunt) -> (r: bool)
    ensures
        r == uneven_shunt(math.sem(), s@),
{
    let b = entry(&s.b, 0, 0);
    let g = entry(&s.g, 0, 0);
    assert(s@.terminal_map.len() == s.terminal_map.len());
    let mut k: usize = 1;
    while k < s.terminal_map.len()
        invariant
            1 <= k,
            b == entry_of(s@.b, 0, 0),
            g == entry_of(s@.g, 0, 0),
            s@.terminal_map.len() == s.terminal_map.len(),
            forall|q: int| 1 <= q < k ==> !#[trigger] uneven_at(math.sem(), s@, q),
        decreases s.terminal_map.len() - k,
    {
        if differ(math, entry(&s.b, k, k), b) || differ(math, entry(&s.g, k, k), g) {
            assert(uneven_at(math.sem(), s@, k as int));
            return true;
        }
        k = k + 1;
    }
    false
}

/// Whether a shunt's extras say that it connects in delta.
pub open spec fn shunt_delta(extras: Entries) -> bool {
    match get_of(extras, "conn"@) {
        Some(v) => match str_of(v) {
            Some(c) => lower_of(c) == lower_of("delta"@),
            None => false,
        },
        None => false,
    }
}

/// The nominal volts of a shunt: its stated kilovolts, else those of its bus.
#[verifier::opaque]
pub open spec fn shunt_volts(w: WriterV, m: Sem, s: DistShuntV) -> Option<Bits> {
    let delta = shunt_delta(s.extras);
    match extra_num(m, s.extras, "kv"@) {
        Some(kv) => Some(
            if !delta && s.terminal_map.len() >= 2 {
                wye_volts_of(m, kv)
            } else {
                thousands_of(m, kv)
            },
        ),
        None => match w.base_of(s.bus) {
            Some(base) => Some(
                if delta {
                    base
                } else {
                    m.over(base, m.root3())
                },
            ),
            None => None,
        },
    }
}

#[verifier::opaque]
pub open spec fn shunt_json(w: WriterV, m: Sem, s: DistShuntV) -> (WriterV, JsonV) {
    let what = "shunt "@ + s.name;
    let delta = shunt_delta(s.extras);
    let o = identified_of("LinearShuntCompensator"@, s.name, extras_mrid_of(s.extras));
    let w = if uneven_shunt(m, s) {
        w.warn(
            what
                + ": per-phase susceptances differ; MG-RAVENS carries one per-section value, so the first phase represents the bank"@,
        )
    } else {
        w
    };
    let w = if off_diagonal(s.b) {
        w.warn(
            what
                + ": off-diagonal susceptance (a delta bank's geometry) has no MG-RAVENS slot; only the diagonal is carried"@,
        )
    } else {
        w
    };
    let (w, o) = w.put_opt(m, o, "ShuntCompensator.nomU"@, shunt_volts(w, m, s), what);
    let (w, b) = w.num(m, entry_of(s.b, 0, 0), what);
    let (w, g) = w.num(m, entry_of(s.g, 0, 0), what);
    let o = put_of(o, "LinearShuntCompensator.bPerSection"@, b);
    let o = put_of(o, "LinearShuntCompensator.gPerSection"@, g);
    let o = put_of(
        o,
        "ShuntCompensator.phaseConnection"@,
        JsonV::Str(
            "PhaseShuntConnectionKind."@ + if delta {
                "D"@
            } else {
                "Y"@
            },
        ),
    );
    let o = put_of(o, "LinearShuntCompensator.b0PerSection"@, b);
    let o = put_of(o, "LinearShuntCompensator.g0PerSection"@, g);
    let o = put_of(o, "ShuntCompensator.normalSections"@, uint_json(1));
    let o = put_of(o, "ShuntCompensator.maximumSections"@, uint_json(1));
    let o = put_of(o, "Equipment.inService"@, JsonV::Bool(true));
    let o = put_of(o, "ShuntCompensator.sections"@, float_json(m, ONE));
    let o = w.put_base(m, o, s.bus);
    let w = if delta {
        w
    } else {
        w.ground(s.bus)
    };
    let o = put_of(
        o,
        "ConductingEquipment.Terminals"@,
        JsonV::Arr(seq![terminal_json(s.name, 1, s.bus, full_code_of(s.terminal_map), None)]),
    );
    (
        w.warn_extras(what, s.extras, seq!["kv"@, "phases"@, "kvar"@, "conn"@]),
        JsonV::Obj(o),
    )
}

/// Some number off the diagonal is of some size.
pub open spec fn off_diagonal(a: MatV) -> bool {
    exists|i: int, j: int|
        0 <= i < a.len() && 0 <= j < a[i].len() && i != j && num_lt(
            ZERO,
            abs_of(#[trigger] a[i][j]),
        )
}

pub fn has_off_diagonal(a: &Mat) -> (r: bool)
    ensures
        r == off_diagonal(views(a@)),
{
    let mut i: usize = 0;
    while i < a.len()
        invariant
            i <= a.len(),
            forall|p: int, q: int|
                0 <= p < i && 0 <= q < views(a@)[p].len() && p != q ==> !num_lt(
                    ZERO,
                    abs_of(#[trigger] views(a@)[p][q]),
                ),
        decreases a.len() - i,
    {
        let mut j: usize = 0;
        while j < a[i].len()
            invariant
                i < a.len(),
                j <= a@[i as int].len(),
                views(a@)[i as int] == a@[i as int]@,
                forall|q: int|
                    0 <= q < j && i != q ==> !num_lt(
                        ZERO,
                        abs_of(#[trigger] views(a@)[i as int][q]),
                    ),
            decreases a@[i as int].len() - j,
        {
            if i != j && lt(ZERO, abs(a[i][j])) {
                assert(num_lt(ZERO, abs_of(views(a@)[i as int][j as int])));
                return true;
            }
            j = j + 1;
        }
        i = i + 1;
    }
    false
}

pub open spec fn shunts_json(w: WriterV, m: Sem, s: Seq<DistShuntV>, n: nat) -> (WriterV, Entries)
    decreases n,
{
    if n == 0 {
        (w, Entries::empty())
    } else {
        let before = shunts_json(w, m, s, (n - 1) as nat);
        let (v, j) = shunt_json(before.0, m, s[n - 1]);
        (v, put_of(before.1, s[n - 1].name, j))
    }
}

fn nominal_volts<C: Calc>(w: &Writer, math: &C, s: &DistShunt, delta: bool) -> (r: Option<Bits>)
    requires
        delta == shunt_delta(s@.extras),
    ensures
        r == shunt_volts(w@, math.sem(), s@),
{
    reveal(shunt_volts);
    assert(s@.terminal_map.len() == s.terminal_map.len());
    match xnum(math, &s.extras, "kv") {
        Some(kv) => {
            if !delta && s.terminal_map.len() >= 2 {
                Some(wye_volts(math, kv))
            } else {
                Some(thousands(math, kv))
            }
        },
        None => match w.base_of(s.bus.as_str()) {
            Some(base) => {
                if delta {
                    Some(base)
                } else {
                    Some(over(math, base, root3(math)))
                }
            },
            None => None,
        },
    }
}

fn write_shunt<C: Calc>(w: &mut Writer, math: &C, s: &DistShunt) -> (r: Json)
    ensures
        (final(w)@, r@) == shunt_json(old(w)@, math.sem(), s@),
{
    reveal(shunt_json);
    let what = cat2("shunt ", s.name.as_str());
    let delta = match s.extras.get("conn") {
        Some(v) => match v.as_str() {
            Some(c) => same_ignoring_case(c.as_str(), "delta"),
            None => false,
        },
        None => false,
    };
    let mut o = identified(
        "LinearShuntCompensator",
        s.name.as_str(),
        extras_mrid(&s.extras),
    );
    if is_uneven(math, s) {
        w.warn(
            cat2(
                what.as_str(),
                ": per-phase susceptances differ; MG-RAVENS carries one per-section value, so the first phase represents the bank",
            ),
        );
    }
    if has_off_diagonal(&s.b) {
        w.warn(
            cat2(
                what.as_str(),
                ": off-diagonal susceptance (a delta bank's geometry) has no MG-RAVENS slot; only the diagonal is carried",
            ),
        );
    }
    let u = nominal_volts(w, math, s, delta);
    w.put_opt(math, &mut o, "ShuntCompensator.nomU", u, what.as_str());
    let b = w.num(math, entry(&s.b, 0, 0), what.as_str());
    let g = w.num(math, entry(&s.g, 0, 0), what.as_str());
    o.put("LinearShuntCompensator.bPerSection".to_owned(), b.copy());
    o.put("LinearShuntCompensator.gPerSection".to_owned(), g.copy());
    let kind = if delta {
        "D"
    } else {
        "Y"
    };
    o.put(
        "ShuntCompensator.phaseConnection".to_owned(),
        Json::Str(cat2("PhaseShuntConnectionKind.", kind)),
    );
    o.put("LinearShuntCompensator.b0PerSection".to_owned(), b);
    o.put("LinearShuntCompensator.g0PerSection".to_owned(), g);
    o.put("ShuntCompensator.normalSections".to_owned(), Json::uint(1));
    o.put("ShuntCompensator.maximumSections".to_owned(), Json::uint(1));
    o.put("Equipment.inService".to_owned(), Json::Bool(true));
    o.put("ShuntCompensator.sections".to_owned(), Json::float(math, ONE));
    w.put_base(math, &mut o, s.bus.as_str());
    if !delta {
        w.ground(s.bus.as_str());
    }
    let code = full_code(&s.terminal_map);
    let t = terminal(s.name.as_str(), 1, s.bus.as_str(), code.as_str(), &None);
    o.put("ConductingEquipment.Terminals".to_owned(), array1(t));
    let carried: Vec<&'static str> = vec!["kv", "phases", "kvar", "conn"];
    assert(views(carried@) =~= seq!["kv"@, "phases"@, "kvar"@, "conn"@]);
    w.warn_extras(what.as_str(), &s.extras, &carried);
    object(o)
}

pub fn write_shunts<C: Calc>(w: &mut Writer, math: &C, net: &DistNetwork) -> (r: JsonMap)
    ensures
        (final(w)@, r@) == shunts_json(
            old(w)@,
            math.sem(),
            net@.shunts,
            net@.shunts.len(),
        ),
{
    let mut table = JsonMap::new();
    let mut n: usize = 0;
    while n < net.shunts.len()
        invariant
            n <= net.shunts.len(),
            (w@, table@) == shunts_json(old(w)@, math.sem(), net@.shunts, n as nat),
        decreases net.shunts.len() - n,
    {
        assert(net@.shunts[n as int] == net.shunts@[n as int]@);
        let j = write_shunt(w, math, &net.shunts[n]);
        table.put(net.shunts[n].name.clone(), j);
        n = n + 1;
    }
    assert(net@.shunts.len() == net.shunts.len());
    table
}

// ---- rotating machines -----------------------------------------------------

/// The total of a limit per phase, where there is one.
pub open spec fn total_limit(m: Sem, v: Option<Seq<Bits>>) -> Option<Bits> {
    match v {
        Some(s) => Some(sum_of(m, s)),
        None => None,
    }
}

fn limit_total<C: Calc>(math: &C, v: &Option<Vec<Bits>>) -> (r: Option<Bits>)
    ensures
        r == total_limit(math.sem(), opt_view(*v)),
{
    match v {
        Some(s) => Some(sum(math, s)),
        None => None,
    }
}

/// An extra in thousands as a plain number, where there is one.
pub open spec fn extra_thousands(m: Sem, extras: Entries, key: Seq<char>) -> Option<Bits> {
    match extra_num(m, extras, key) {
        Some(x) => Some(thousands_of(m, x)),
        None => None,
    }
}

fn xthousands<C: Calc>(math: &C, extras: &JsonMap, key: &str) -> (r: Option<Bits>)
    ensures
        r == extra_thousands(math.sem(), extras@, key@),
{
    match xnum(math, extras, key) {
        Some(x) => Some(thousands(math, x)),
        None => None,
    }
}

#[verifier::opaque]
pub open spec fn machine_json(w: WriterV, m: Sem, g: DistGeneratorV) -> (WriterV, JsonV) {
    let what = "generator "@ + g.name;
    let o = identified_of("SynchronousMachine"@, g.name, extras_mrid_of(g.extras));
    let (w, p) = w.num(m, sum_of(m, g.p_nom), what);
    let (w, q) = w.num(m, sum_of(m, g.q_nom), what);
    let o = put_of(o, "RotatingMachine.p"@, p);
    let o = put_of(o, "RotatingMachine.q"@, q);
    let (w, o) = w.put_opt(
        m,
        o,
        "RotatingMachine.ratedS"@,
        extra_thousands(m, g.extras, "kva"@),
        what,
    );
    let (w, o) = w.put_opt(
        m,
        o,
        "RotatingMachine.ratedU"@,
        extra_thousands(m, g.extras, "kv"@),
        what,
    );
    let (w, o) = w.put_opt(m, o, "SynchronousMachine.maxQ"@, total_limit(m, g.q_max), what);
    let (w, o) = w.put_opt(m, o, "SynchronousMachine.minQ"@, total_limit(m, g.q_min), what);
    let (w, o) = if g.p_max is Some || g.p_min is Some {
        let u = identified_of("GeneratingUnit"@, g.name + "_Unit"@, None);
        let (w, u) = w.put_opt(
            m,
            u,
            "GeneratingUnit.maxOperatingP"@,
            total_limit(m, g.p_max),
            what,
        );
        let (w, u) = w.put_opt(
            m,
            u,
            "GeneratingUnit.minOperatingP"@,
            total_limit(m, g.p_min),
            what,
        );
        (w, put_of(o, "RotatingMachine.GeneratingUnit"@, JsonV::Obj(u)))
    } else {
        (w, o)
    };
    let o = put_of(o, "Equipment.inService"@, JsonV::Bool(true));
    let o = w.put_base(m, o, g.bus);
    let o = put_of(
        o,
        "ConductingEquipment.Terminals"@,
        JsonV::Arr(seq![terminal_json(g.name, 1, g.bus, hot_code_of(g.terminal_map), None)]),
    );
    let w = if g.cost is Some {
        w.warn(
            what
                + ": generation cost has no slot in the distribution profile (cost functions belong to the balanced MG-RAVENS profile); dropped"@,
        )
    } else {
        w
    };
    (w.warn_extras(what, g.extras, seq!["kv"@, "kva"@, "phases"@]), JsonV::Obj(o))
}

pub open spec fn machines_json(w: WriterV, m: Sem, s: Seq<DistGeneratorV>, n: nat) -> (
    WriterV,
    Entries,
)
    decreases n,
{
    if n == 0 {
        (w, Entries::empty())
    } else {
        let before = machines_json(w, m, s, (n - 1) as nat);
        let (v, j) = machine_json(before.0, m, s[n - 1]);
        (v, put_of(before.1, s[n - 1].name, j))
    }
}

fn write_machine<C: Calc>(w: &mut Writer, math: &C, g: &DistGenerator) -> (r: Json)
    ensures
        (final(w)@, r@) == machine_json(old(w)@, math.sem(), g@),
{
    reveal(machine_json);
    let what = cat2("generator ", g.name.as_str());
    let mut o = identified("SynchronousMachine", g.name.as_str(), extras_mrid(&g.extras));
    let ps = sum(math, &g.p_nom);
    let qs = sum(math, &g.q_nom);
    let p = w.num(math, ps, what.as_str());
    let q = w.num(math, qs, what.as_str());
    o.put("RotatingMachine.p".to_owned(), p);
    o.put("RotatingMachine.q".to_owned(), q);
    let s = xthousands(math, &g.extras, "kva");
    w.put_opt(math, &mut o, "RotatingMachine.ratedS", s, what.as_str());
    let u = xthousands(math, &g.extras, "kv");
    w.put_opt(math, &mut o, "RotatingMachine.ratedU", u, what.as_str());
    let q_max = limit_total(math, &g.q_max);
    w.put_opt(math, &mut o, "SynchronousMachine.maxQ", q_max, what.as_str());
    let q_min = limit_total(math, &g.q_min);
    w.put_opt(math, &mut o, "SynchronousMachine.minQ", q_min, what.as_str());
    if g.p_max.is_some() || g.p_min.is_some() {
        let mut unit = identified(
            "GeneratingUnit",
            cat2(g.name.as_str(), "_Unit").as_str(),
            None,
        );
        let p_max = limit_total(math, &g.p_max);
        w.put_opt(math, &mut unit, "GeneratingUnit.maxOperatingP", p_max, what.as_str());
        let p_min = limit_total(math, &g.p_min);
        w.put_opt(math, &mut unit, "GeneratingUnit.minOperatingP", p_min, what.as_str());
        o.put("RotatingMachine.GeneratingUnit".to_owned(), object(unit));
    }
    o.put("Equipment.inService".to_owned(), Json::Bool(true));
    w.put_base(math, &mut o, g.bus.as_str());
    let code = hot_code(&g.terminal_map);
    let t = terminal(g.name.as_str(), 1, g.bus.as_str(), code.as_str(), &None);
    o.put("ConductingEquipment.Terminals".to_owned(), array1(t));
    if g.cost.is_some() {
        w.warn(
            cat2(
                what.as_str(),
                ": generation cost has no slot in the distribution profile (cost functions belong to the balanced MG-RAVENS profile); dropped",
            ),
        );
    }
    let carried: Vec<&'static str> = vec!["kv", "kva", "phases"];
    assert(views(carried@) =~= seq!["kv"@, "kva"@, "phases"@]);
    w.warn_extras(what.as_str(), &g.extras, &carried);
    object(o)
}

pub fn write_machines<C: Calc>(w: &mut Writer, math: &C, net: &DistNetwork) -> (r: JsonMap)
    ensures
        (final(w)@, r@) == machines_json(
            old(w)@,
            math.sem(),
            net@.generators,
            net@.generators.len(),
        ),
{
    let mut table = JsonMap::new();
    let mut n: usize = 0;
    while n < net.generators.len()
        invariant
            n <= net.generators.len(),
            (w@, table@) == machines_json(old(w)@, math.sem(), net@.generators, n as nat),
        decreases net.generators.len() - n,
    {
        assert(net@.generators[n as int] == net.generators@[n as int]@);
        let j = write_machine(w, math, &net.generators[n]);
        table.put(net.generators[n].name.clone(), j);
        n = n + 1;
    }
    assert(net@.generators.len() == net.generators.len());
    table
}

// ---- power electronics -----------------------------------------------------

/// The unit's power bounds.
pub open spec fn unit_bounds_of(w: WriterV, m: Sem, u: Entries, ibr: DistIbrV, what: Seq<char>) -> (
    WriterV,
    Entries,
) {
    let (w, u) = w.put_opt(
        m,
        u,
        "PowerElectronicsUnit.maxP"@,
        total_limit(m, ibr.p_max),
        what,
    );
    w.put_opt(m, u, "PowerElectronicsUnit.minP"@, total_limit(m, ibr.p_min), what)
}

fn unit_bounds<C: Calc>(w: &mut Writer, math: &C, u: &mut JsonMap, ibr: &DistIbr, what: &str)
    ensures
        (final(w)@, final(u)@) == unit_bounds_of(old(w)@, math.sem(), old(u)@, ibr@, what@),
{
    let p_max = limit_total(math, &ibr.p_max);
    w.put_opt(math, u, "PowerElectronicsUnit.maxP", p_max, what);
    let p_min = limit_total(math, &ibr.p_min);
    w.put_opt(math, u, "PowerElectronicsUnit.minP", p_min, what);
}

/// The entries with an extra carried over under a key.
pub open spec fn carry(o: Entries, extras: Entries, key: Seq<char>, prop: Seq<char>) -> Entries {
    match get_of(extras, key) {
        Some(v) => put_of(o, prop, v),
        None => o,
    }
}

fn carry_over(o: &mut JsonMap, extras: &JsonMap, key: &str, prop: &str)
    ensures
        final(o)@ == carry(old(o)@, extras@, key@, prop@),
{
    if let Some(v) = extras.get(key) {
        o.put(prop.to_owned(), v.copy());
    }
}

/// The unit behind an inverter; a generic one has no class and is reported.
#[verifier::opaque]
pub open spec fn unit_json(w: WriterV, m: Sem, ibr: DistIbrV, what: Seq<char>) -> (
    WriterV,
    Option<JsonV>,
) {
    match ibr.prime_mover {
        IbrPrimeMover::Pv => {
            let u = identified_of("PhotoVoltaicUnit"@, ibr.name + "_PVPanels"@, None);
            let (w, u) = unit_bounds_of(w, m, u, ibr, what);
            (w, Some(JsonV::Obj(u)))
        },
        IbrPrimeMover::Battery => {
            let u = identified_of("BatteryUnit"@, ibr.name + "_Battery"@, None);
            let (w, u) = unit_bounds_of(w, m, u, ibr, what);
            let u = carry(u, ibr.extras, "ravens_rated_e"@, "BatteryUnit.ratedE"@);
            let u = carry(u, ibr.extras, "ravens_stored_e"@, "BatteryUnit.storedE"@);
            let u = carry(
                u,
                ibr.extras,
                "ravens_battery_efficiency"@,
                "BatteryUnit.BatteryUnitEfficiency"@,
            );
            (w, Some(JsonV::Obj(u)))
        },
        IbrPrimeMover::Generic => (
            w.warn(
                what
                    + ": prime mover Generic has no MG-RAVENS unit class; the connection is emitted without a PowerElectronicsUnit"@,
            ),
            None,
        ),
    }
}

fn write_unit<C: Calc>(w: &mut Writer, math: &C, ibr: &DistIbr, what: &str) -> (r: Option<Json>)
    ensures
        (final(w)@, opt_view(r)) == unit_json(old(w)@, math.sem(), ibr@, what@),
{
    reveal(unit_json);
    match ibr.prime_mover {
        IbrPrimeMover::Pv => {
            let mut u = identified(
                "PhotoVoltaicUnit",
                cat2(ibr.name.as_str(), "_PVPanels").as_str(),
                None,
            );
            unit_bounds(w, math, &mut u, ibr, what);
            Some(object(u))
        },
        IbrPrimeMover::Battery => {
            let mut u = identified(
                "BatteryUnit",
                cat2(ibr.name.as_str(), "_Battery").as_str(),
                None,
            );
            unit_bounds(w, math, &mut u, ibr, what);
            carry_over(&mut u, &ibr.extras, "ravens_rated_e", "BatteryUnit.ratedE");
            carry_over(&mut u, &ibr.extras, "ravens_stored_e", "BatteryUnit.storedE");
            carry_over(
                &mut u,
                &ibr.extras,
                "ravens_battery_efficiency",
                "BatteryUnit.BatteryUnitEfficiency",
            );
            Some(object(u))
        },
        IbrPrimeMover::Generic => {
            w.warn(
                cat2(
                    what,
                    ": prime mover Generic has no MG-RAVENS unit class; the connection is emitted without a PowerElectronicsUnit",
                ),
            );
            None
        },
    }
}

/// The fault current of an inverter in per-unit of its rated current.
#[verifier::opaque]
pub open spec fn fault_share(m: Sem, ibr: DistIbrV) -> Option<Bits> {
    let rated_s = sum_of(m, ibr.s_max);
    match (ibr.i_max, extra_thousands(m, ibr.extras, "kv"@)) {
        (Some(i), Some(u)) => if i.len() > 0 && num_lt(ZERO, rated_s) && num_lt(ZERO, u) {
            let rated = if hot_of(ibr.terminal_map).len() <= 1 {
                m.over(rated_s, u)
            } else {
                m.over(rated_s, m.times(m.root3(), u))
            };
            Some(share_of(m, i[0], rated))
        } else {
            None
        },
        _ => None,
    }
}

fn fault_pu<C: Calc>(math: &C, ibr: &DistIbr) -> (r: Option<Bits>)
    ensures
        r == fault_share(math.sem(), ibr@),
{
    reveal(fault_share);
    let rated_s = sum(math, &ibr.s_max);
    let u = xthousands(math, &ibr.extras, "kv");
    match (&ibr.i_max, u) {
        (Some(i), Some(u)) => {
            if i.len() > 0 && lt(ZERO, rated_s) && lt(ZERO, u) {
                let h = hot(&ibr.terminal_map);
                assert(views(h@).len() == h.len());
                let rated = if h.len() <= 1 {
                    over(math, rated_s, u)
                } else {
                    over(math, rated_s, times(math, root3(math), u))
                };
                Some(share(math, i[0], rated))
            } else {
                None
            }
        },
        _ => None,
    }
}

#[verifier::opaque]
pub open spec fn electronics_json(w: WriterV, m: Sem, ibr: DistIbrV) -> (WriterV, JsonV) {
    let what = "ibr "@ + ibr.name;
    let o = identified_of(
        "PowerElectronicsConnection"@,
        ibr.name,
        extras_mrid_of(ibr.extras),
    );
    let (w, o) = w.put_opt(m, o, "PowerElectronicsConnection.p"@, ibr.p_avail, what);
    let (w, o) = w.put_opt(
        m,
        o,
        "PowerElectronicsConnection.q"@,
        extra_thousands(m, ibr.extras, "kvar"@),
        what,
    );
    let (w, o) = w.put_num(
        m,
        o,
        "PowerElectronicsConnection.ratedS"@,
        sum_of(m, ibr.s_max),
        what,
    );
    let (w, o) = w.put_opt(
        m,
        o,
        "PowerElectronicsConnection.ratedU"@,
        extra_thousands(m, ibr.extras, "kv"@),
        what,
    );
    let (w, o) = w.put_opt(
        m,
        o,
        "PowerElectronicsConnection.maxQ"@,
        total_limit(m, ibr.q_max),
        what,
    );
    let (w, o) = w.put_opt(
        m,
        o,
        "PowerElectronicsConnection.minQ"@,
        total_limit(m, ibr.q_min),
        what,
    );
    let (w, o) = w.put_opt(
        m,
        o,
        "PowerElectronicsConnection.maxIFault"@,
        fault_share(m, ibr),
        what,
    );
    let (w, unit) = unit_json(w, m, ibr, what);
    let o = match unit {
        Some(u) => put_of(o, "PowerElectronicsConnection.PowerElectronicsUnit"@, u),
        None => o,
    };
    let o = put_of(o, "Equipment.inService"@, JsonV::Bool(true));
    let o = w.put_base(m, o, ibr.bus);
    let o = put_of(
        o,
        "ConductingEquipment.Terminals"@,
        JsonV::Arr(
            seq![terminal_json(ibr.name, 1, ibr.bus, hot_code_of(ibr.terminal_map), None)],
        ),
    );
    let w = if ibr.control_profile is Some {
        w.warn(what + ": inverter control profile has no MG-RAVENS slot; dropped"@)
    } else {
        w
    };
    let w = if ibr.voltage_aggregation is Some {
        w.warn(what + ": voltage aggregation setting has no MG-RAVENS slot; dropped"@)
    } else {
        w
    };
    (
        w.warn_extras(what, ibr.extras, seq!["kv"@, "kvar"@, "phases"@, "kva"@]),
        JsonV::Obj(o),
    )
}

pub open spec fn all_electronics_json(w: WriterV, m: Sem, s: Seq<DistIbrV>, n: nat) -> (
    WriterV,
    Entries,
)
    decreases n,
{
    if n == 0 {
        (w, Entries::empty())
    } else {
        let before = all_electronics_json(w, m, s, (n - 1) as nat);
        let (v, j) = electronics_json(before.0, m, s[n - 1]);
        (v, put_of(before.1, s[n - 1].name, j))
    }
}

fn write_ibr<C: Calc>(w: &mut Writer, math: &C, ibr: &DistIbr) -> (r: Json)
    ensures
        (final(w)@, r@) == electronics_json(old(w)@, math.sem(), ibr@),
{
    reveal(electronics_json);
    let what = cat2("ibr ", ibr.name.as_str());
    let mut o = identified(
        "PowerElectronicsConnection",
        ibr.name.as_str(),
        extras_mrid(&ibr.extras),
    );
    w.put_opt(math, &mut o, "PowerElectronicsConnection.p", ibr.p_avail, what.as_str());
    let q = xthousands(math, &ibr.extras, "kvar");
    w.put_opt(math, &mut o, "PowerElectronicsConnection.q", q, what.as_str());
    let s = sum(math, &ibr.s_max);
    w.put_num(math, &mut o, "PowerElectronicsConnection.ratedS", s, what.as_str());
    let u = xthousands(math, &ibr.extras, "kv");
    w.put_opt(math, &mut o, "PowerElectronicsConnection.ratedU", u, what.as_str());
    let q_max = limit_total(math, &ibr.q_max);
    w.put_opt(math, &mut o, "PowerElectronicsConnection.maxQ", q_max, what.as_str());
    let q_min = limit_total(math, &ibr.q_min);
    w.put_opt(math, &mut o, "PowerElectronicsConnection.minQ", q_min, what.as_str());
    let pu = fault_pu(math, ibr);
    w.put_opt(math, &mut o, "PowerElectronicsConnection.maxIFault", pu, what.as_str());
    let unit = write_unit(w, math, ibr, what.as_str());
    if let Some(u) = unit {
        o.put("PowerElectronicsConnection.PowerElectronicsUnit".to_owned(), u);
    }
    o.put("Equipment.inService".to_owned(), Json::Bool(true));
    w.put_base(math, &mut o, ibr.bus.as_str());
    let code = hot_code(&ibr.terminal_map);
    let t = terminal(ibr.name.as_str(), 1, ibr.bus.as_str(), code.as_str(), &None);
    o.put("ConductingEquipment.Terminals".to_owned(), array1(t));
    if ibr.control_profile.is_some() {
        w.warn(
            cat2(
                what.as_str(),
                ": inverter control profile has no MG-RAVENS slot; dropped",
            ),
        );
    }
    if ibr.voltage_aggregation.is_some() {
        w.warn(
            cat2(
                what.as_str(),
                ": voltage aggregation setting has no MG-RAVENS slot; dropped",
            ),
        );
    }
    let carried: Vec<&'static str> = vec!["kv", "kvar", "phases", "kva"];
    assert(views(carried@) =~= seq!["kv"@, "kvar"@, "phases"@, "kva"@]);
    w.warn_extras(what.as_str(), &ibr.extras, &carried);
    object(o)
}

pub fn write_power_electronics<C: Calc>(w: &mut Writer, math: &C, net: &DistNetwork) -> (r: JsonMap)
    ensures
        (final(w)@, r@) == all_electronics_json(
            old(w)@,
            math.sem(),
            net@.ibrs,
            net@.ibrs.len(),
        ),
{
    let mut table = JsonMap::new();
    let mut n: usize = 0;
    while n < net.ibrs.len()
        invariant
            n <= net.ibrs.len(),
            (w@, table@) == all_electronics_json(old(w)@, math.sem(), net@.ibrs, n as nat),
        decreases net.ibrs.len() - n,
    {
        assert(net@.ibrs[n as int] == net.ibrs@[n as int]@);
        let j = write_ibr(w, math, &net.ibrs[n]);
        table.put(net.ibrs[n].name.clone(), j);
        n = n + 1;
    }
    assert(net@.ibrs.len() == net.ibrs.len());
    table
}

// ---- sources ---------------------------------------------------------------

/// The places of the hot ones among the first `n` terminals.
pub open spec fn hot_places_n(map: Seq<Seq<char>>, n: nat) -> Seq<usize>
    decreases n,
{
    if n == 0 {
        seq![]
    } else if map[n - 1] == "4"@ {
        hot_places_n(map, (n - 1) as nat)
    } else {
        hot_places_n(map, (n - 1) as nat).push((n - 1) as usize)
    }
}

fn hot_places(map: &Vec<String>) -> (r: Vec<usize>)
    ensures
        r@ == hot_places_n(views(map@), map@.len()),
{
    let mut r: Vec<usize> = Vec::new();
    let mut i: usize = 0;
    while i < map.len()
        invariant
            i <= map.len(),
            r@ == hot_places_n(views(map@), i as nat),
        decreases map.len() - i,
    {
        assert(views(map@)[i as int] == map@[i as int]@);
        if !same(map[i].as_str(), "4") {
            r.push(i);
        }
        i = i + 1;
    }
    r
}

/// The number at the first hot terminal, or zero.
pub open spec fn first_hot(v: Seq<Bits>, places: Seq<usize>) -> Bits {
    if places.len() > 0 && places[0] < v.len() {
        v[places[0] as int]
    } else {
        ZERO
    }
}

fn at_first_hot(v: &Vec<Bits>, places: &Vec<usize>) -> (r: Bits)
    ensures
        r == first_hot(v@, places@),
{
    if places.len() > 0 && places[0] < v.len() {
        v[places[0]]
    } else {
        ZERO
    }
}

/// How many phases a source has, at least one.
pub open spec fn phase_number(m: Sem, places: Seq<usize>) -> Bits {
    m.from_int(
        if places.len() == 0 {
            1u64
        } else {
            places.len() as u64
        },
    )
}

/// The chord of the polygon that a source's phases make.
pub open spec fn chord_of(m: Sem, places: Seq<usize>) -> Bits {
    if places.len() <= 1 {
        ONE
    } else {
        m.times(TWO, m.sin(m.over(PI, phase_number(m, places))))
    }
}

/// Whether the `i`-th hot terminal departs from the balanced pattern.
pub open spec fn departs(
    m: Sem,
    s: VoltageSourceV,
    places: Seq<usize>,
    v: Bits,
    angle: Bits,
    i: int,
) -> bool {
    let k = places[i] as int;
    let expected = wrap_of(
        m,
        m.minus(angle, m.times(m.over(TAU, phase_number(m, places)), m.from_int(i as u64))),
    );
    let off = if k < s.v_magnitude.len() {
        abs_of(m.minus(s.v_magnitude[k], v))
    } else {
        ZERO
    };
    let turn = if k < s.v_angle.len() {
        abs_of(m.minus(s.v_angle[k], expected))
    } else {
        ZERO
    };
    num_lt(m.times(NANO, m.max(abs_of(v), ONE)), off) || num_lt(NANO, turn)
}

pub open spec fn unbalanced(
    m: Sem,
    s: VoltageSourceV,
    places: Seq<usize>,
    v: Bits,
    angle: Bits,
) -> bool {
    exists|i: int| 0 <= i < places.len() && #[trigger] departs(m, s, places, v, angle, i)
}

fn is_unbalanced<C: Calc>(
    math: &C,
    s: &VoltageSource,
    places: &Vec<usize>,
    v: Bits,
    angle: Bits,
) -> (r:
    bool)
    ensures
        r == unbalanced(math.sem(), s@, places@, v, angle),
{
    let count: u64 = if places.len() == 0 {
        1
    } else {
        places.len() as u64
    };
    let n = from_int(math, count);
    let mut i: usize = 0;
    while i < places.len()
        invariant
            i <= places.len(),
            n == phase_number(math.sem(), places@),
            forall|q: int|
                0 <= q < i ==> !#[trigger] departs(math.sem(), s@, places@, v, angle, q),
        decreases places.len() - i,
    {
        let k = places[i];
        let expected = wrap_angle(
            math,
            minus(math, angle, times(math, over(math, TAU, n), from_int(math, i as u64))),
        );
        let off = if k < s.v_magnitude.len() {
            abs(minus(math, s.v_magnitude[k], v))
        } else {
            ZERO
        };
        let turn = if k < s.v_angle.len() {
            abs(minus(math, s.v_angle[k], expected))
        } else {
            ZERO
        };
        if lt(times(math, NANO, larger(math, abs(v), ONE)), off) || lt(NANO, turn) {
            assert(departs(math.sem(), s@, places@, v, angle, i as int));
            return true;
        }
        i = i + 1;
    }
    false
}

#[verifier::opaque]
pub open spec fn source_json(w: WriterV, m: Sem, s: VoltageSourceV) -> (WriterV, JsonV) {
    let what = "vsource "@ + s.name;
    let places = hot_places_n(s.terminal_map, s.terminal_map.len());
    let chord = chord_of(m, places);
    let v = first_hot(s.v_magnitude, places);
    let angle = wrapped_of(m, first_hot(s.v_angle, places));
    let o = identified_of("EnergySource"@, s.name, extras_mrid_of(s.extras));
    let w = if unbalanced(m, s, places, v, angle) {
        w.warn(
            what
                + ": per-terminal magnitudes/angles deviate from the balanced positive-sequence pattern; MG-RAVENS carries one magnitude and angle, so the first hot terminal represents the source"@,
        )
    } else {
        w
    };
    let magnitude = multiple_of(m, v, chord);
    let nominal = match extra_num(m, s.extras, "basekv"@) {
        Some(kv) => thousands_of(m, kv),
        None => magnitude,
    };
    let (w, jn) = w.num(m, nominal, what);
    let (w, jm) = w.num(m, magnitude, what);
    let (w, ja) = w.num(m, angle, what);
    let o = put_of(o, "EnergySource.nominalVoltage"@, jn);
    let o = put_of(o, "EnergySource.voltageMagnitude"@, jm);
    let o = put_of(o, "EnergySource.voltageAngle"@, ja);
    let (w, o) = w.put_opt(m, o, "EnergySource.r"@, extra_num(m, s.extras, "r1"@), what);
    let (w, o) = w.put_opt(m, o, "EnergySource.x"@, extra_num(m, s.extras, "x1"@), what);
    let (w, o) = w.put_opt(m, o, "EnergySource.r0"@, extra_num(m, s.extras, "r0"@), what);
    let (w, o) = w.put_opt(m, o, "EnergySource.x0"@, extra_num(m, s.extras, "x0"@), what);
    let o = put_of(o, "Equipment.inService"@, JsonV::Bool(true));
    let o = w.put_base(m, o, s.bus);
    let w = w.ground(s.bus);
    let o = put_of(
        o,
        "ConductingEquipment.Terminals"@,
        JsonV::Arr(seq![terminal_json(s.name, 1, s.bus, hot_code_of(s.terminal_map), None)]),
    );
    (w.warn_extras(what, s.extras, source_carried()), JsonV::Obj(o))
}

/// The extras that a source's entries account for.
pub open spec fn source_carried() -> Seq<Seq<char>> {
    seq!["basekv"@, "pu"@, "angle"@, "r1"@, "x1"@, "r0"@, "x0"@, "phases"@]
}

pub open spec fn sources_json(w: WriterV, m: Sem, s: Seq<VoltageSourceV>, n: nat) -> (
    WriterV,
    Entries,
)
    decreases n,
{
    if n == 0 {
        (w, Entries::empty())
    } else {
        let before = sources_json(w, m, s, (n - 1) as nat);
        let (v, j) = source_json(before.0, m, s[n - 1]);
        (v, put_of(before.1, s[n - 1].name, j))
    }
}

fn write_source<C: Calc>(w: &mut Writer, math: &C, s: &VoltageSource) -> (r: Json)
    ensures
        (final(w)@, r@) == source_json(old(w)@, math.sem(), s@),
{
    reveal(source_json);
    let what = cat2("vsource ", s.name.as_str());
    assert(s@.terminal_map.len() == s.terminal_map@.len());
    let places = hot_places(&s.terminal_map);
    let chord = if places.len() <= 1 {
        ONE
    } else {
        times(math, TWO, sin(math, over(math, PI, from_int(math, places.len() as u64))))
    };
    let v = at_first_hot(&s.v_magnitude, &places);
    let angle = wrapped(math, at_first_hot(&s.v_angle, &places));
    let mut o = identified("EnergySource", s.name.as_str(), extras_mrid(&s.extras));
    if is_unbalanced(math, s, &places, v, angle) {
        w.warn(
            cat2(
                what.as_str(),
                ": per-terminal magnitudes/angles deviate from the balanced positive-sequence pattern; MG-RAVENS carries one magnitude and angle, so the first hot terminal represents the source",
            ),
        );
    }
    let magnitude = multiple(math, v, chord);
    let nominal = match xnum(math, &s.extras, "basekv") {
        Some(kv) => thousands(math, kv),
        None => magnitude,
    };
    let jn = w.num(math, nominal, what.as_str());
    let jm = w.num(math, magnitude, what.as_str());
    let ja = w.num(math, angle, what.as_str());
    o.put("EnergySource.nominalVoltage".to_owned(), jn);
    o.put("EnergySource.voltageMagnitude".to_owned(), jm);
    o.put("EnergySource.voltageAngle".to_owned(), ja);
    let r1 = xnum(math, &s.extras, "r1");
    w.put_opt(math, &mut o, "EnergySource.r", r1, what.as_str());
    let x1 = xnum(math, &s.extras, "x1");
    w.put_opt(math, &mut o, "EnergySource.x", x1, what.as_str());
    let r0 = xnum(math, &s.extras, "r0");
    w.put_opt(math, &mut o, "EnergySource.r0", r0, what.as_str());
    let x0 = xnum(math, &s.extras, "x0");
    w.put_opt(math, &mut o, "EnergySource.x0", x0, what.as_str());
    o.put("Equipment.inService".to_owned(), Json::Bool(true));
    w.put_base(math, &mut o, s.bus.as_str());
    w.ground(s.bus.as_str());
    let code = hot_code(&s.terminal_map);
    let t = terminal(s.name.as_str(), 1, s.bus.as_str(), code.as_str(), &None);
    o.put("ConductingEquipment.Terminals".to_owned(), array1(t));
    let carried: Vec<&'static str> = vec![
        "basekv", "pu", "angle", "r1", "x1", "r0", "x0", "phases",
    ];
    assert(views(carried@) =~= source_carried());
    w.warn_extras(what.as_str(), &s.extras, &carried);
    object(o)
}

pub fn write_sources<C: Calc>(w: &mut Writer, math: &C, net: &DistNetwork) -> (r: JsonMap)
    ensures
        (final(w)@, r@) == sources_json(
            old(w)@,
            math.sem(),
            net@.sources,
            net@.sources.len(),
        ),
{
    let mut table = JsonMap::new();
    let mut n: usize = 0;
    while n < net.sources.len()
        invariant
            n <= net.sources.len(),
            (w@, table@) == sources_json(old(w)@, math.sem(), net@.sources, n as nat),
        decreases net.sources.len() - n,
    {
        assert(net@.sources[n as int] == net.sources@[n as int]@);
        let j = write_source(w, math, &net.sources[n]);
        table.put(net.sources[n].name.clone(), j);
        n = n + 1;
    }
    assert(net@.sources.len() == net.sources.len());
    table
}

} // verus!
