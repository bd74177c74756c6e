//! Elements with one terminal: loads, machines, external grids and shunts.

use vstd::prelude::*;

use crate::dgs::lines::{raw_name, raw_name_of};
use crate::dgs::scan::{
    int_of, integer, num, num_of, whole, whole_of, DgsDoc, DgsDocV, DgsRow, DgsRowV, DgsTable,
    DgsTableV,
};
use crate::dgs::state::{
    extras, extras_of, numbers, numbers_of, phase_terminals, terminals_of, three, Case, CaseV,
    Reader, ReaderV,
};
use crate::dgs::topology::{one_of, one_terminal, resolve, resolve_of, Conn, ConnV};
use crate::dgs::transformers::{reactive, reactive_part};
use crate::error::{ErrorV, Outcome, Result};
use crate::math::{
    abs, abs_of, larger, lt, minus, num_lt, over, plus, radians, root3, times, Bits, Calc, Sem,
    MILLION, MINUS_ONE, NANO, ONE, PICO, TAU, THOUSAND, THREE, TWO, ZERO,
};
use crate::matrix::{two_valued, two_valued_mat};
use crate::model::{
    dist_generator_of, dist_load_of, dist_shunt_of, repeat, repeat_of, voltage_source_of,
    Configuration, DistGenerator, DistGeneratorV, DistLoad, DistLoadV, DistLoadVoltageModel,
    DistLoadVoltageModelV, DistShunt, DistShuntV, VoltageSource, VoltageSourceV,
};
use crate::numeral::{dec_of, dec_usize};
use crate::text::{cat3, group_views, opt_view, same, views};

verus! {

/// The elements read so far.
pub struct Inj {
    pub loads: Vec<DistLoad>,
    pub gens: Vec<DistGenerator>,
    pub shunts: Vec<DistShunt>,
    pub sources: Vec<VoltageSource>,
}

/// The elements read so far, and the state.
pub struct InjV {
    pub st: ReaderV,
    pub loads: Seq<DistLoadV>,
    pub gens: Seq<DistGeneratorV>,
    pub shunts: Seq<DistShuntV>,
    pub sources: Seq<VoltageSourceV>,
}

pub open spec fn inj_view(st: ReaderV, x: Inj) -> InjV {
    InjV {
        st,
        loads: views(x.loads@),
        gens: views(x.gens@),
        shunts: views(x.shunts@),
        sources: views(x.sources@),
    }
}

/// The three phase conductors.
pub open spec fn phases3() -> Seq<u8> {
    seq![1u8, 2u8, 3u8]
}

/// A three-phase quantity shared evenly.
pub open spec fn thirds_of(m: Sem, x: Bits) -> Seq<Bits> {
    repeat_of(m.over(x, THREE), 3)
}

fn thirds<C: Calc>(math: &C, x: Bits) -> (r: Vec<Bits>)
    ensures
        r@ == thirds_of(math.sem(), x),
{
    repeat(over(math, x, THREE), 3)
}

// ---- loads -----------------------------------------------------------------

/// What is asked of a load: its scale and its power, either as reactive power or
/// as apparent power with the sense of its power factor; then how it connects.
pub open spec fn load_asks(reactive: bool) -> Seq<(bool, Seq<char>, Bits)> {
    if reactive {
        seq![
            (false, "scale0"@, ONE),
            (false, "plini"@, ZERO),
            (false, "qlini"@, ZERO),
            (false, "phtech"@, MINUS_ONE),
        ]
    } else {
        seq![
            (false, "scale0"@, ONE),
            (false, "plini"@, ZERO),
            (false, "slini"@, ZERO),
            (false, "pf_recap"@, ZERO),
            (false, "phtech"@, MINUS_ONE),
        ]
    }
}

fn load_ask_list(reactive: bool) -> (r: Vec<(bool, &'static str, Bits)>)
    ensures
        views(r@) == load_asks(reactive),
        r.len() == if reactive {
            4nat
        } else {
            5nat
        },
{
    if reactive {
        let r: Vec<(bool, &'static str, Bits)> = vec![
            (false, "scale0", ONE),
            (false, "plini", ZERO),
            (false, "qlini", ZERO),
            (false, "phtech", MINUS_ONE),
        ];
        assert(views(r@) =~= load_asks(true));
        r
    } else {
        let r: Vec<(bool, &'static str, Bits)> = vec![
            (false, "scale0", ONE),
            (false, "plini", ZERO),
            (false, "slini", ZERO),
            (false, "pf_recap", ZERO),
            (false, "phtech", MINUS_ONE),
        ];
        assert(views(r@) =~= load_asks(false));
        r
    }
}

/// A power in megawatts, scaled, in watts.
pub open spec fn scaled_power(m: Sem, p: Bits, scale: Bits) -> Bits {
    m.times(m.times(p, scale), MILLION)
}

/// Watts, vars and the connection code of a load. Apparent power leaves as vars
/// what the watts do not take, capacitive where the power factor says so.
pub struct LoadPower {
    pub p: Bits,
    pub q: Bits,
    pub phtech: i64,
}

pub open spec fn load_power_of(m: Sem, v: Seq<Bits>, given: bool) -> LoadPower {
    let p = scaled_power(m, v[1], v[0]);
    if given {
        LoadPower { p, q: scaled_power(m, v[2], v[0]), phtech: whole_of(m, v[3]) }
    } else {
        let sense = if whole_of(m, v[3]) == 1 {
            MINUS_ONE
        } else {
            ONE
        };
        LoadPower {
            p,
            q: m.times(sense, reactive(m, scaled_power(m, v[2], v[0]), p)),
            phtech: whole_of(m, v[4]),
        }
    }
}

fn scale_power<C: Calc>(math: &C, p: Bits, scale: Bits) -> (r: Bits)
    ensures
        r == scaled_power(math.sem(), p, scale),
{
    times(math, times(math, p, scale), MILLION)
}

fn load_power<C: Calc>(math: &C, v: &Vec<Bits>, given: bool) -> (r: LoadPower)
    requires
        v.len() == if given {
            4nat
        } else {
            5nat
        },
    ensures
        r == load_power_of(math.sem(), v@, given),
{
    let p = scale_power(math, v[1], v[0]);
    if given {
        LoadPower { p, q: scale_power(math, v[2], v[0]), phtech: whole(math, v[3]) }
    } else {
        let sense = if whole(math, v[3]) == 1 {
            MINUS_ONE
        } else {
            ONE
        };
        let s = scale_power(math, v[2], v[0]);
        LoadPower {
            p,
            q: times(math, sense, reactive_part(math, s, p)),
            phtech: whole(math, v[4]),
        }
    }
}

/// Whether a load has one phase: its class has by default, or its connection
/// code says so.
pub open spec fn single_of(by_default: bool, phtech: i64) -> bool {
    (by_default && phtech < 0) || phtech == 2 || phtech == 3 || phtech == 8
}

/// A number of a type, zero where it is none.
pub open spec fn num_or_zero(
    m: Sem,
    decimal: char,
    t: DgsTableV,
    r: DgsRowV,
    name: Seq<char>,
) -> Bits {
    match num_of(m, decimal, t, r, name, ZERO) {
        Ok(x) => x,
        Err(_) => ZERO,
    }
}

fn number_or_zero<C: Calc>(
    math: &C,
    decimal: char,
    t: &DgsTable,
    r: &DgsRow,
    name: &str,
) -> (x: Bits)
    ensures
        x == num_or_zero(math.sem(), decimal, t@, r@, name@),
{
    match num(math, decimal, t, r, name, ZERO) {
        Ok(x) => x,
        Err(_) => ZERO,
    }
}

/// The exponents of a load's `TypLod`, where one of them is not zero.
pub open spec fn exponents_of(
    m: Sem,
    doc: DgsDocV,
    t: DgsTableV,
    r: DgsRowV,
) -> Option<(Bits, Bits)> {
    match t.ptr(r, "typ_id"@) {
        Some(typ) => match resolve_of(doc, typ) {
            Some((tt, tr)) => {
                let kpu = num_or_zero(m, doc.decimal, tt, tr, "kpu"@);
                let kqu = num_or_zero(m, doc.decimal, tt, tr, "kqu"@);
                if tt.class != "TypLod"@ || (num_lt(abs_of(kpu), PICO) && num_lt(
                    abs_of(kqu),
                    PICO,
                )) {
                    None
                } else {
                    Some((kpu, kqu))
                }
            },
            None => None,
        },
        None => None,
    }
}

fn exponents<C: Calc>(math: &C, doc: &DgsDoc, t: &DgsTable, r: &DgsRow) -> (x: Option<(Bits, Bits)>)
    ensures
        x == exponents_of(math.sem(), doc@, t@, r@),
{
    let typ = match t.ptr(r, "typ_id") {
        Some(p) => p,
        None => {
            return None;
        },
    };
    match resolve(doc, typ.as_str()) {
        Some((tt, tr)) => {
            let kpu = number_or_zero(math, doc.decimal, tt, tr, "kpu");
            let kqu = number_or_zero(math, doc.decimal, tt, tr, "kqu");
            if !same(tt.class.as_str(), "TypLod") || (lt(abs(kpu), PICO) && lt(abs(kqu), PICO)) {
                None
            } else {
                Some((kpu, kqu))
            }
        },
        None => None,
    }
}

/// How a load depends on its voltage: exponential where its type gives
/// exponents, else of constant power.
pub open spec fn load_model_of(
    m: Sem,
    doc: DgsDocV,
    t: DgsTableV,
    r: DgsRowV,
    v_phase: Bits,
    n: nat,
) -> DistLoadVoltageModelV {
    match exponents_of(m, doc, t, r) {
        Some((kpu, kqu)) => DistLoadVoltageModelV::Exponential {
            v_nom: repeat_of(v_phase, n),
            gamma_p: repeat_of(kpu, n),
            gamma_q: repeat_of(kqu, n),
        },
        None => DistLoadVoltageModelV::ConstantPower { v_nom: repeat_of(v_phase, n) },
    }
}

fn load_voltage_model<C: Calc>(
    math: &C,
    doc: &DgsDoc,
    t: &DgsTable,
    r: &DgsRow,
    v_phase: Bits,
    n: usize,
) -> (x: DistLoadVoltageModel)
    ensures
        x@ == load_model_of(math.sem(), doc@, t@, r@, v_phase, n as nat),
{
    match exponents(math, doc, t, r) {
        Some((kpu, kqu)) => DistLoadVoltageModel::Exponential {
            v_nom: repeat(v_phase, n),
            gamma_p: repeat(kpu, n),
            gamma_q: repeat(kqu, n),
        },
        None => DistLoadVoltageModel::ConstantPower { v_nom: repeat(v_phase, n) },
    }
}

/// Columns of a load that the mapping reads.
pub open spec fn load_consumed() -> Seq<Seq<char>> {
    seq![
        "typ_id"@,
        "plini"@,
        "qlini"@,
        "slini"@,
        "scale0"@,
        "pf_recap"@,
        "phtech"@,
        "outserv"@,
        "ulini"@,
        "for_name"@,
    ]
}

fn load_consumed_list() -> (r: Vec<&'static str>)
    ensures
        views(r@) == load_consumed(),
{
    let r: Vec<&'static str> = vec![
        "typ_id",
        "plini",
        "qlini",
        "slini",
        "scale0",
        "pf_recap",
        "phtech",
        "outserv",
        "ulini",
        "for_name",
    ];
    assert(views(r@) =~= load_consumed());
    r
}

/// The conductor of a single-phase load: the one its cubicle pins, else the
/// first.
pub open spec fn phase_or_one(p: Option<u8>) -> u8 {
    match p {
        Some(x) => x,
        None => 1,
    }
}

/// A load in service: on one conductor with all its power, or on three with a
/// third each; the neutral is its return.
#[verifier::opaque]
pub open spec fn placed_load(
    m: Sem,
    case: CaseV,
    x: InjV,
    t: DgsTableV,
    r: DgsRowV,
    at: ConnV,
    single: bool,
    power: LoadPower,
) -> InjV {
    let root = case.root(at.pos);
    let v_phase = m.over(m.times(x.st.bus_uknom(root), THOUSAND), m.root3());
    let phases = if single {
        seq![phase_or_one(at.phase)]
    } else {
        phases3()
    };
    let st = if single && at.phase is None {
        x.st.default_phase(t.id_of(r))
    } else {
        x.st
    };
    let st = st.touch(root, phases, true);
    let raw = raw_name(t, r);
    let load = dist_load_of(
        st.elem_name(raw),
        st.bus_id(root),
        terminals_of(phases, true),
        if single {
            Configuration::SinglePhase
        } else {
            Configuration::Wye
        },
        if single {
            seq![power.p]
        } else {
            thirds_of(m, power.p)
        },
        if single {
            seq![power.q]
        } else {
            thirds_of(m, power.q)
        },
    );
    InjV {
        st: st.name_elem(raw),
        loads: x.loads.push(
            DistLoadV {
                voltage_model: load_model_of(
                    m,
                    case.doc,
                    t,
                    r,
                    v_phase,
                    if single {
                        1
                    } else {
                        3
                    },
                ),
                extras: extras_of(t, r, load_consumed()),
                ..load
            },
        ),
        ..x
    }
}

fn one_number(x: Bits) -> (r: Vec<Bits>)
    ensures
        r@ == seq![x],
{
    let mut r: Vec<Bits> = Vec::new();
    r.push(x);
    assert(r@ =~= seq![x]);
    r
}

fn place_load<C: Calc>(
    math: &C,
    case: &Case,
    st: &mut Reader,
    x: &mut Inj,
    t: &DgsTable,
    r: &DgsRow,
    at: &Conn,
    single: bool,
    power: LoadPower,
)
    requires
        at.pos < case.roots@.len(),
    ensures
        inj_view(final(st)@, *final(x)) == placed_load(
            math.sem(),
            case@,
            inj_view(old(st)@, *old(x)),
            t@,
            r@,
            at@,
            single,
            power,
        ),
{
    broadcast use group_views;

    reveal(placed_load);
    let id = t.id_of(r);
    let root = case.roots[at.pos];
    let vll = times(math, st.bus_uknom(root), THOUSAND);
    let v_phase = over(math, vll, root3(math));
    let phases = if single {
        let phase = match at.phase {
            Some(p) => p,
            None => {
                st.default_phase(id.as_str());
                1
            },
        };
        let mut one: Vec<u8> = Vec::new();
        one.push(phase);
        assert(one@ =~= seq![phase_or_one(at.phase)]);
        one
    } else {
        three()
    };
    st.touch(root, &phases, true);
    let bus = st.bus_id(root);
    let raw = raw_name_of(t, r, id.as_str());
    let name = st.name_elem(raw.as_str());
    let (config, p, q, n) = if single {
        (Configuration::SinglePhase, one_number(power.p), one_number(power.q), 1usize)
    } else {
        (Configuration::Wye, thirds(math, power.p), thirds(math, power.q), 3usize)
    };
    let mut load = DistLoad::new(name, bus, phase_terminals(&phases, true), config, p, q);
    load.voltage_model = load_voltage_model(math, case.doc, t, r, v_phase, n);
    let consumed = load_consumed_list();
    load.extras = extras(t, r, &consumed);
    x.loads.push(load);
}

// ---- machines --------------------------------------------------------------

/// What is asked of a machine.
pub open spec fn machine_asks() -> Seq<(bool, Seq<char>, Bits)> {
    seq![
        (false, "ngnum"@, ONE),
        (false, "scale0"@, ONE),
        (false, "pgini"@, ZERO),
        (false, "qgini"@, ZERO),
    ]
}

fn machine_ask_list() -> (r: Vec<(bool, &'static str, Bits)>)
    ensures
        views(r@) == machine_asks(),
        r.len() == 4,
{
    let r: Vec<(bool, &'static str, Bits)> = vec![
        (false, "ngnum", ONE),
        (false, "scale0", ONE),
        (false, "pgini", ZERO),
        (false, "qgini", ZERO),
    ];
    assert(views(r@) =~= machine_asks());
    r
}

/// A limit in megawatts, per phase in watts, where the row gives one.
pub open spec fn limit_of(
    m: Sem,
    decimal: char,
    t: DgsTableV,
    r: DgsRowV,
    name: Seq<char>,
) -> Outcome<
    Option<Seq<Bits>>,
> {
    if t.cell(r, name) is Some {
        match num_of(m, decimal, t, r, name, ZERO) {
            Ok(x) => Ok(Some(thirds_of(m, m.times(x, MILLION)))),
            Err(e) => Err(e),
        }
    } else {
        Ok(None)
    }
}

fn limit<C: Calc>(math: &C, decimal: char, t: &DgsTable, r: &DgsRow, name: &str) -> (x: Result<
    Option<Vec<Bits>>,
>)
    ensures
        match x {
            Ok(v) => limit_of(math.sem(), decimal, t@, r@, name@) == Ok::<
                Option<Seq<Bits>>,
                ErrorV,
            >(opt_view(v)),
            Err(e) => limit_of(math.sem(), decimal, t@, r@, name@) == Err::<
                Option<Seq<Bits>>,
                ErrorV,
            >(e@),
        },
{
    if t.cell(r, name).is_some() {
        match num(math, decimal, t, r, name, ZERO) {
            Ok(x) => Ok(Some(thirds(math, times(math, x, MILLION)))),
            Err(e) => Err(e),
        }
    } else {
        Ok(None)
    }
}

/// The limits of a machine: on active power, then on reactive power.
pub struct LimitsV {
    pub p_max: Option<Seq<Bits>>,
    pub p_min: Option<Seq<Bits>>,
    pub q_max: Option<Seq<Bits>>,
    pub q_min: Option<Seq<Bits>>,
}

pub struct Limits {
    pub p_max: Option<Vec<Bits>>,
    pub p_min: Option<Vec<Bits>>,
    pub q_max: Option<Vec<Bits>>,
    pub q_min: Option<Vec<Bits>>,
}

impl View for Limits {
    type V = LimitsV;

    open spec fn view(&self) -> LimitsV {
        LimitsV {
            p_max: opt_view(self.p_max),
            p_min: opt_view(self.p_min),
            q_max: opt_view(self.q_max),
            q_min: opt_view(self.q_min),
        }
    }
}

pub open spec fn limits_of(m: Sem, decimal: char, t: DgsTableV, r: DgsRowV) -> Outcome<LimitsV> {
    match limit_of(m, decimal, t, r, "Pmax_uc"@) {
        Err(e) => Err(e),
        Ok(p_max) => match limit_of(m, decimal, t, r, "Pmin_uc"@) {
            Err(e) => Err(e),
            Ok(p_min) => match limit_of(m, decimal, t, r, "cQ_max"@) {
                Err(e) => Err(e),
                Ok(q_max) => match limit_of(m, decimal, t, r, "cQ_min"@) {
                    Err(e) => Err(e),
                    Ok(q_min) => Ok(LimitsV { p_max, p_min, q_max, q_min }),
                },
            },
        },
    }
}

fn limits<C: Calc>(math: &C, decimal: char, t: &DgsTable, r: &DgsRow) -> (x: Result<Limits>)
    ensures
        match x {
            Ok(l) => limits_of(math.sem(), decimal, t@, r@) == Ok::<LimitsV, ErrorV>(l@),
            Err(e) => limits_of(math.sem(), decimal, t@, r@) == Err::<LimitsV, ErrorV>(e@),
        },
{
    let p_max = match limit(math, decimal, t, r, "Pmax_uc") {
        Ok(v) => v,
        Err(e) => {
            return Err(e);
        },
    };
    let p_min = match limit(math, decimal, t, r, "Pmin_uc") {
        Ok(v) => v,
        Err(e) => {
            return Err(e);
        },
    };
    let q_max = match limit(math, decimal, t, r, "cQ_max") {
        Ok(v) => v,
        Err(e) => {
            return Err(e);
        },
    };
    let q_min = match limit(math, decimal, t, r, "cQ_min") {
        Ok(v) => v,
        Err(e) => {
            return Err(e);
        },
    };
    Ok(Limits { p_max, p_min, q_max, q_min })
}

/// Columns of a machine that the mapping reads.
pub open spec fn machine_consumed() -> Seq<Seq<char>> {
    seq![
        "typ_id"@,
        "pgini"@,
        "qgini"@,
        "ngnum"@,
        "scale0"@,
        "outserv"@,
        "Pmax_uc"@,
        "Pmin_uc"@,
        "cQ_max"@,
        "cQ_min"@,
        "usetp"@,
        "ip_ctrl"@,
        "av_mode"@,
    ]
}

fn machine_consumed_list() -> (r: Vec<&'static str>)
    ensures
        views(r@) == machine_consumed(),
{
    let r: Vec<&'static str> = vec![
        "typ_id",
        "pgini",
        "qgini",
        "ngnum",
        "scale0",
        "outserv",
        "Pmax_uc",
        "Pmin_uc",
        "cQ_max",
        "cQ_min",
        "usetp",
        "ip_ctrl",
        "av_mode",
    ];
    assert(views(r@) =~= machine_consumed());
    r
}

/// A machine in service: as many units as it counts, a third of their power on
/// each phase.
#[verifier::opaque]
pub open spec fn placed_machine(
    m: Sem,
    case: CaseV,
    x: InjV,
    t: DgsTableV,
    r: DgsRowV,
    at: ConnV,
    v: Seq<Bits>,
    l: LimitsV,
) -> InjV {
    let root = case.root(at.pos);
    let units = m.max(v[0], ONE);
    let p = m.times(m.times(m.times(v[2], units), v[1]), MILLION);
    let q = m.times(m.times(v[3], units), MILLION);
    let st = x.st.touch(root, phases3(), true);
    let raw = raw_name(t, r);
    InjV {
        st: st.name_elem(raw),
        gens: x.gens.push(
            DistGeneratorV {
                p_max: l.p_max,
                p_min: l.p_min,
                q_max: l.q_max,
                q_min: l.q_min,
                extras: extras_of(t, r, machine_consumed()),
                ..dist_generator_of(
                    st.elem_name(raw),
                    st.bus_id(root),
                    terminals_of(phases3(), true),
                    Configuration::Wye,
                    thirds_of(m, p),
                    thirds_of(m, q),
                )
            },
        ),
        ..x
    }
}

fn place_machine<C: Calc>(
    math: &C,
    case: &Case,
    st: &mut Reader,
    x: &mut Inj,
    t: &DgsTable,
    r: &DgsRow,
    at: &Conn,
    v: &Vec<Bits>,
    l: Limits,
)
    requires
        at.pos < case.roots@.len(),
        v.len() == 4,
    ensures
        inj_view(final(st)@, *final(x)) == placed_machine(
            math.sem(),
            case@,
            inj_view(old(st)@, *old(x)),
            t@,
            r@,
            at@,
            v@,
            l@,
        ),
{
    broadcast use group_views;

    reveal(placed_machine);
    let id = t.id_of(r);
    let root = case.roots[at.pos];
    let units = larger(math, v[0], ONE);
    let p = times(math, times(math, times(math, v[2], units), v[1]), MILLION);
    let q = times(math, times(math, v[3], units), MILLION);
    let phases = three();
    st.touch(root, &phases, true);
    let bus = st.bus_id(root);
    let raw = raw_name_of(t, r, id.as_str());
    let name = st.name_elem(raw.as_str());
    let mut g = DistGenerator::new(
        name,
        bus,
        phase_terminals(&phases, true),
        Configuration::Wye,
        thirds(math, p),
        thirds(math, q),
    );
    g.p_max = l.p_max;
    g.p_min = l.p_min;
    g.q_max = l.q_max;
    g.q_min = l.q_min;
    let consumed = machine_consumed_list();
    g.extras = extras(t, r, &consumed);
    x.gens.push(g);
}

// ---- external grids --------------------------------------------------------

/// What is asked of an external grid.
pub open spec fn grid_asks() -> Seq<(bool, Seq<char>, Bits)> {
    seq![(false, "uknom"@, ZERO), (false, "usetp"@, ONE), (false, "phiini"@, ZERO)]
}

fn grid_ask_list() -> (r: Vec<(bool, &'static str, Bits)>)
    ensures
        views(r@) == grid_asks(),
        r.len() == 3,
{
    let r: Vec<(bool, &'static str, Bits)> = vec![
        (false, "uknom", ZERO),
        (false, "usetp", ONE),
        (false, "phiini", ZERO),
    ];
    assert(views(r@) =~= grid_asks());
    r
}

/// Columns of an external grid that the mapping reads.
pub open spec fn grid_consumed() -> Seq<Seq<char>> {
    seq!["bustp"@, "uknom"@, "usetp"@, "phiini"@, "outserv"@]
}

fn grid_consumed_list() -> (r: Vec<&'static str>)
    ensures
        views(r@) == grid_consumed(),
{
    let r: Vec<&'static str> = vec!["bustp", "uknom", "usetp", "phiini", "outserv"];
    assert(views(r@) =~= grid_consumed());
    r
}

/// An external grid in service: the first is the voltage source, at its set
/// point on three phases a third of a turn apart; a further one is a generator
/// without power.
#[verifier::opaque]
pub open spec fn placed_grid(
    m: Sem,
    case: CaseV,
    x: InjV,
    t: DgsTableV,
    r: DgsRowV,
    at: ConnV,
    v: Seq<Bits>,
) -> InjV {
    let root = case.root(at.pos);
    let kv = if num_lt(abs_of(v[0]), NANO) {
        x.st.bus_uknom(root)
    } else {
        v[0]
    };
    let angle = m.radians(v[2]);
    let step = m.over(TAU, THREE);
    let volts = m.times(m.over(m.times(kv, THOUSAND), m.root3()), v[1]);
    let st = x.st.touch(root, phases3(), true);
    let raw = raw_name(t, r);
    let name = st.elem_name(raw);
    let bus = st.bus_id(root);
    let named = st.name_elem(raw);
    if x.sources.len() == 0 {
        InjV {
            st: named,
            sources: x.sources.push(
                VoltageSourceV {
                    extras: extras_of(t, r, grid_consumed()),
                    ..voltage_source_of(
                        name,
                        bus,
                        terminals_of(phases3(), true),
                        seq![volts, volts, volts, ZERO],
                        seq![angle, m.minus(angle, step), m.plus(angle, step), ZERO],
                    )
                },
            ),
            ..x
        }
    } else {
        InjV {
            st: named.warn(
                "more than one ElmXnet external grid; the first is the voltage source and the rest are modelled as generators"@,
            ),
            gens: x.gens.push(
                dist_generator_of(
                    name,
                    bus,
                    terminals_of(phases3(), true),
                    Configuration::Wye,
                    repeat_of(ZERO, 3),
                    repeat_of(ZERO, 3),
                ),
            ),
            ..x
        }
    }
}

fn four(a: Bits, b: Bits, c: Bits, d: Bits) -> (r: Vec<Bits>)
    ensures
        r@ == seq![a, b, c, d],
{
    let mut r: Vec<Bits> = Vec::new();
    r.push(a);
    r.push(b);
    r.push(c);
    r.push(d);
    assert(r@ =~= seq![a, b, c, d]);
    r
}

fn place_grid<C: Calc>(
    math: &C,
    case: &Case,
    st: &mut Reader,
    x: &mut Inj,
    t: &DgsTable,
    r: &DgsRow,
    at: &Conn,
    v: &Vec<Bits>,
)
    requires
        at.pos < case.roots@.len(),
        v.len() == 3,
    ensures
        inj_view(final(st)@, *final(x)) == placed_grid(
            math.sem(),
            case@,
            inj_view(old(st)@, *old(x)),
            t@,
            r@,
            at@,
            v@,
        ),
{
    broadcast use group_views;

    reveal(placed_grid);
    let id = t.id_of(r);
    let root = case.roots[at.pos];
    let kv = if lt(abs(v[0]), NANO) {
        st.bus_uknom(root)
    } else {
        v[0]
    };
    let angle = radians(math, v[2]);
    let step = over(math, TAU, THREE);
    let volts = times(math, over(math, times(math, kv, THOUSAND), root3(math)), v[1]);
    let phases = three();
    st.touch(root, &phases, true);
    let bus = st.bus_id(root);
    let raw = raw_name_of(t, r, id.as_str());
    let name = st.name_elem(raw.as_str());
    let map = phase_terminals(&phases, true);
    assert(views(x.sources@).len() == x.sources.len());
    if x.sources.len() == 0 {
        let mut s = VoltageSource::new(
            name,
            bus,
            map,
            four(volts, volts, volts, ZERO),
            four(angle, minus(math, angle, step), plus(math, angle, step), ZERO),
        );
        let consumed = grid_consumed_list();
        s.extras = extras(t, r, &consumed);
        x.sources.push(s);
    } else {
        st.warn(
            "more than one ElmXnet external grid; the first is the voltage source and the rest are modelled as generators".to_owned(),
        );
        x.gens.push(
            DistGenerator::new(
                name,
                bus,
                map,
                Configuration::Wye,
                repeat(ZERO, 3),
                repeat(ZERO, 3),
            ),
        );
    }
}

// ---- shunts ----------------------------------------------------------------

/// What is asked of a shunt.
pub open spec fn shunt_asks() -> Seq<(bool, Seq<char>, Bits)> {
    seq![(false, "shtype"@, TWO), (false, "ncapa"@, ONE), (false, "qtotn"@, ZERO)]
}

fn shunt_ask_list() -> (r: Vec<(bool, &'static str, Bits)>)
    ensures
        views(r@) == shunt_asks(),
        r.len() == 3,
{
    let r: Vec<(bool, &'static str, Bits)> = vec![
        (false, "shtype", TWO),
        (false, "ncapa", ONE),
        (false, "qtotn", ZERO),
    ];
    assert(views(r@) =~= shunt_asks());
    r
}

/// Columns of a shunt that the mapping reads.
pub open spec fn shunt_consumed() -> Seq<Seq<char>> {
    seq!["shtype"@, "ncapa"@, "qtotn"@, "ushnm"@, "outserv"@]
}

fn shunt_consumed_list() -> (r: Vec<&'static str>)
    ensures
        views(r@) == shunt_consumed(),
{
    let r: Vec<&'static str> = vec!["shtype", "ncapa", "qtotn", "ushnm", "outserv"];
    assert(views(r@) =~= shunt_consumed());
    r
}

/// The susceptance per phase of a reactive rating at a bus: `Q / (3 V^2)`, with
/// `V` from phase to neutral, for each step; negative for a reactor, and zero
/// where the bus has no voltage.
pub open spec fn susceptance_of(m: Sem, kv: Bits, v: Seq<Bits>) -> Bits {
    let volts = m.over(m.times(kv, THOUSAND), m.root3());
    let sign = if whole_of(m, v[0]) == 1 {
        MINUS_ONE
    } else {
        ONE
    };
    if num_lt(abs_of(volts), NANO) {
        ZERO
    } else {
        m.over(
            m.times(m.times(sign, m.max(v[1], ONE)), m.times(v[2], MILLION)),
            m.times(m.times(THREE, volts), volts),
        )
    }
}

fn susceptance<C: Calc>(math: &C, kv: Bits, v: &Vec<Bits>) -> (r: Bits)
    requires
        v.len() == 3,
    ensures
        r == susceptance_of(math.sem(), kv, v@),
{
    let volts = over(math, times(math, kv, THOUSAND), root3(math));
    if lt(abs(volts), NANO) {
        return ZERO;
    }
    let sign = if whole(math, v[0]) == 1 {
        MINUS_ONE
    } else {
        ONE
    };
    let steps = larger(math, v[1], ONE);
    over(
        math,
        times(math, times(math, sign, steps), times(math, v[2], MILLION)),
        times(math, times(math, THREE, volts), volts),
    )
}

/// A shunt in service.
#[verifier::opaque]
pub open spec fn placed_shunt(
    m: Sem,
    case: CaseV,
    x: InjV,
    t: DgsTableV,
    r: DgsRowV,
    at: ConnV,
    v: Seq<Bits>,
) -> InjV {
    let root = case.root(at.pos);
    let b = susceptance_of(m, x.st.bus_uknom(root), v);
    let st = x.st.touch(root, phases3(), true);
    let raw = raw_name(t, r);
    InjV {
        st: st.name_elem(raw),
        shunts: x.shunts.push(
            DistShuntV {
                extras: extras_of(t, r, shunt_consumed()),
                ..dist_shunt_of(
                    st.elem_name(raw),
                    st.bus_id(root),
                    terminals_of(phases3(), true),
                    two_valued(3, ZERO, ZERO),
                    two_valued(3, b, ZERO),
                )
            },
        ),
        ..x
    }
}

fn place_shunt<C: Calc>(
    math: &C,
    case: &Case,
    st: &mut Reader,
    x: &mut Inj,
    t: &DgsTable,
    r: &DgsRow,
    at: &Conn,
    v: &Vec<Bits>,
)
    requires
        at.pos < case.roots@.len(),
        v.len() == 3,
    ensures
        inj_view(final(st)@, *final(x)) == placed_shunt(
            math.sem(),
            case@,
            inj_view(old(st)@, *old(x)),
            t@,
            r@,
            at@,
            v@,
        ),
{
    broadcast use group_views;

    reveal(placed_shunt);
    let id = t.id_of(r);
    let root = case.roots[at.pos];
    let b = susceptance(math, st.bus_uknom(root), v);
    let phases = three();
    st.touch(root, &phases, true);
    let bus = st.bus_id(root);
    let raw = raw_name_of(t, r, id.as_str());
    let name = st.name_elem(raw.as_str());
    let mut s = DistShunt::new(
        name,
        bus,
        phase_terminals(&phases, true),
        two_valued_mat(3, ZERO, ZERO),
        two_valued_mat(3, b, ZERO),
    );
    let consumed = shunt_consumed_list();
    s.extras = extras(t, r, &consumed);
    x.shunts.push(s);
}

// ---- one element -----------------------------------------------------------

/// What a table holds. Loads of some classes have one phase by default.
#[derive(Clone, Copy, PartialEq, Eq, Structural)]
pub enum Kind {
    Load,
    SingleLoad,
    Machine,
    Grid,
    Shunt,
}

/// The class that elements out of service are counted under.
pub open spec fn counted_as(k: Kind) -> Seq<char> {
    match k {
        Kind::Load => "ElmLod"@,
        Kind::SingleLoad => "ElmLod"@,
        Kind::Machine => "machine"@,
        Kind::Grid => "ElmXnet"@,
        Kind::Shunt => "ElmShnt"@,
    }
}

/// An element in service.
pub open spec fn element_of(
    m: Sem,
    case: CaseV,
    k: Kind,
    x: InjV,
    t: DgsTableV,
    r: DgsRowV,
    at: ConnV,
) -> Outcome<InjV> {
    let d = case.doc.decimal;
    match k {
        Kind::Machine => match numbers_of(m, d, (t, r), (t, r), machine_asks()) {
            Err(e) => Err(e),
            Ok(v) => match limits_of(m, d, t, r) {
                Err(e) => Err(e),
                Ok(l) => Ok(placed_machine(m, case, x, t, r, at, v, l)),
            },
        },
        Kind::Grid => match numbers_of(m, d, (t, r), (t, r), grid_asks()) {
            Err(e) => Err(e),
            Ok(v) => Ok(placed_grid(m, case, x, t, r, at, v)),
        },
        Kind::Shunt => match numbers_of(m, d, (t, r), (t, r), shunt_asks()) {
            Err(e) => Err(e),
            Ok(v) => Ok(placed_shunt(m, case, x, t, r, at, v)),
        },
        _ => {
            let given = t.cell(r, "qlini"@) is Some;
            match numbers_of(m, d, (t, r), (t, r), load_asks(given)) {
                Err(e) => Err(e),
                Ok(v) => {
                    let power = load_power_of(m, v, given);
                    let single = single_of(k == Kind::SingleLoad, power.phtech);
                    Ok(placed_load(m, case, x, t, r, at, single, power))
                },
            }
        },
    }
}

/// An element read. One without a terminal is warned of; one that is out of
/// service or behind an open switch is counted.
pub open spec fn element_step(
    m: Sem,
    case: CaseV,
    k: Kind,
    x: InjV,
    t: DgsTableV,
    r: DgsRowV,
) -> Outcome<InjV> {
    match one_of(case.conns, t.id_of(r)) {
        None => Ok(InjV { st: x.st.unconnected(t.class, t.id_of(r)), ..x }),
        Some(at) => match int_of(m, case.doc.decimal, t, r, "outserv"@, ZERO) {
            Err(e) => Err(e),
            Ok(out) => if out != 0 || !at.closed {
                Ok(InjV { st: x.st.skip(counted_as(k)), ..x })
            } else {
                element_of(m, case, k, x, t, r, at)
            },
        },
    }
}

fn read_in_service<C: Calc>(
    math: &C,
    case: &Case,
    k: Kind,
    st: &mut Reader,
    x: &mut Inj,
    t: &DgsTable,
    r: &DgsRow,
    at: &Conn,
) -> (o: Result<()>)
    requires
        at.pos < case.roots@.len(),
    ensures
        match o {
            Ok(_) => element_of(
                math.sem(),
                case@,
                k,
                inj_view(old(st)@, *old(x)),
                t@,
                r@,
                at@,
            ) == Ok::<InjV, ErrorV>(inj_view(final(st)@, *final(x))),
            Err(e) => element_of(
                math.sem(),
                case@,
                k,
                inj_view(old(st)@, *old(x)),
                t@,
                r@,
                at@,
            ) == Err::<InjV, ErrorV>(e@),
        },
{
    let d = case.doc.decimal;
    match k {
        Kind::Machine => {
            let asks = machine_ask_list();
            let v = match numbers(math, d, (t, r), (t, r), &asks) {
                Ok(v) => v,
                Err(e) => {
                    return Err(e);
                },
            };
            let l = match limits(math, d, t, r) {
                Ok(l) => l,
                Err(e) => {
                    return Err(e);
                },
            };
            place_machine(math, case, st, x, t, r, at, &v, l);
        },
        Kind::Grid => {
            let asks = grid_ask_list();
            let v = match numbers(math, d, (t, r), (t, r), &asks) {
                Ok(v) => v,
                Err(e) => {
                    return Err(e);
                },
            };
            place_grid(math, case, st, x, t, r, at, &v);
        },
        Kind::Shunt => {
            let asks = shunt_ask_list();
            let v = match numbers(math, d, (t, r), (t, r), &asks) {
                Ok(v) => v,
                Err(e) => {
                    return Err(e);
                },
            };
            place_shunt(math, case, st, x, t, r, at, &v);
        },
        _ => {
            let given = t.cell(r, "qlini").is_some();
            let asks = load_ask_list(given);
            let v = match numbers(math, d, (t, r), (t, r), &asks) {
                Ok(v) => v,
                Err(e) => {
                    return Err(e);
                },
            };
            let power = load_power(math, &v, given);
            let code = power.phtech;
            let single = (k == Kind::SingleLoad && code < 0) || code == 2 || code == 3 || code == 8;
            place_load(math, case, st, x, t, r, at, single, power);
        },
    }
    Ok(())
}

fn read_element<C: Calc>(
    math: &C,
    case: &Case,
    k: Kind,
    st: &mut Reader,
    x: &mut Inj,
    t: &DgsTable,
    r: &DgsRow,
) -> (o: Result<()>)
    requires
        case@.wf(),
    ensures
        match o {
            Ok(_) => element_step(
                math.sem(),
                case@,
                k,
                inj_view(old(st)@, *old(x)),
                t@,
                r@,
            ) == Ok::<InjV, ErrorV>(inj_view(final(st)@, *final(x))),
            Err(e) => element_step(
                math.sem(),
                case@,
                k,
                inj_view(old(st)@, *old(x)),
                t@,
                r@,
            ) == Err::<InjV, ErrorV>(e@),
        },
{
    let id = t.id_of(r);
    let at = match one_terminal(&case.conns, id.as_str(), Ghost(case.roots@.len())) {
        Some(c) => c,
        None => {
            st.unconnected(t.class.as_str(), id.as_str());
            return Ok(());
        },
    };
    let out = match integer(math, case.doc.decimal, t, r, "outserv", ZERO) {
        Ok(o) => o,
        Err(e) => {
            return Err(e);
        },
    };
    if out != 0 || !at.closed {
        let class = match k {
            Kind::Machine => "machine",
            Kind::Grid => "ElmXnet",
            Kind::Shunt => "ElmShnt",
            _ => "ElmLod",
        };
        st.skip(class);
        return Ok(());
    }
    read_in_service(math, case, k, st, x, t, r, at)
}

// ---- all elements ----------------------------------------------------------

pub open spec fn elements_n(
    m: Sem,
    case: CaseV,
    k: Kind,
    x: InjV,
    t: DgsTableV,
    n: nat,
) -> Outcome<InjV>
    decreases n,
{
    if n == 0 {
        Ok(x)
    } else {
        match elements_n(m, case, k, x, t, (n - 1) as nat) {
            Err(e) => Err(e),
            Ok(x) => element_step(m, case, k, x, t, t.rows[n - 1]),
        }
    }
}

proof fn lemma_elements_stop(m: Sem, case: CaseV, k: Kind, x: InjV, t: DgsTableV, i: nat, n: nat)
    requires
        i <= n,
        elements_n(m, case, k, x, t, i) is Err,
    ensures
        elements_n(m, case, k, x, t, n) == elements_n(m, case, k, x, t, i),
    decreases n,
{
    if i < n {
        lemma_elements_stop(m, case, k, x, t, i, (n - 1) as nat);
    }
}

/// The elements of one class.
pub open spec fn class_of(
    m: Sem,
    case: CaseV,
    k: Kind,
    class: Seq<char>,
    x: Outcome<InjV>,
) -> Outcome<
    InjV,
> {
    match x {
        Err(e) => Err(e),
        Ok(x) => match case.doc.table(class) {
            Some(t) => elements_n(m, case, k, x, t, t.rows.len()),
            None => Ok(x),
        },
    }
}

fn read_class<C: Calc>(
    math: &C,
    case: &Case,
    k: Kind,
    class: &str,
    st: &mut Reader,
    x: &mut Inj,
) -> (o: Result<()>)
    requires
        case@.wf(),
    ensures
        match o {
            Ok(_) => class_of(
                math.sem(),
                case@,
                k,
                class@,
                Ok(inj_view(old(st)@, *old(x))),
            ) == Ok::<InjV, ErrorV>(inj_view(final(st)@, *final(x))),
            Err(e) => class_of(
                math.sem(),
                case@,
                k,
                class@,
                Ok(inj_view(old(st)@, *old(x))),
            ) == Err::<InjV, ErrorV>(e@),
        },
{
    let ghost before = inj_view(st@, *x);
    let t = match case.doc.table(class) {
        Some(t) => t,
        None => {
            return Ok(());
        },
    };
    assert(t@.rows.len() == t.rows.len());
    let mut i: usize = 0;
    while i < t.rows.len()
        invariant
            i <= t.rows.len(),
            t@.rows.len() == t.rows.len(),
            case@.wf(),
            before == inj_view(old(st)@, *old(x)),
            class_of(math.sem(), case@, k, class@, Ok(before)) == elements_n(
                math.sem(),
                case@,
                k,
                before,
                t@,
                t@.rows.len(),
            ),
            elements_n(math.sem(), case@, k, before, t@, i as nat) == Ok::<InjV, ErrorV>(
                inj_view(st@, *x),
            ),
        decreases t.rows.len() - i,
    {
        assert(t@.rows[i as int] == t.rows@[i as int]@);
        match read_element(math, case, k, st, x, t, &t.rows[i]) {
            Ok(_) => {},
            Err(e) => {
                proof {
                    lemma_elements_stop(
                        math.sem(),
                        case@,
                        k,
                        before,
                        t@,
                        (i + 1) as nat,
                        t@.rows.len(),
                    );
                }
                return Err(e);
            },
        }
        i = i + 1;
    }
    Ok(())
}

/// Partial line loads are warned of.
pub open spec fn partial_said(doc: DgsDocV, x: InjV) -> InjV {
    match doc.table("ElmLodlvp"@) {
        Some(t) => if t.rows.len() > 0 {
            InjV {
                st: x.st.warn(
                    "`ElmLodlvp` table ignored ("@ + dec_of(t.rows.len())
                        + " rows): partial line loads are not mapped"@,
                ),
                ..x
            }
        } else {
            x
        },
        None => x,
    }
}

/// The loads of a case.
pub open spec fn loads_of(m: Sem, case: CaseV, x: InjV) -> Outcome<InjV> {
    let a = class_of(m, case, Kind::Load, "ElmLod"@, Ok(x));
    let b = class_of(m, case, Kind::SingleLoad, "ElmLodlv"@, a);
    match class_of(m, case, Kind::SingleLoad, "ElmLodmv"@, b) {
        Err(e) => Err(e),
        Ok(x) => Ok(partial_said(case.doc, x)),
    }
}

/// The elements of a case with one terminal: loads, machines, external grids and
/// shunts, in that order.
#[verifier::opaque]
pub open spec fn injections_of(m: Sem, case: CaseV, st: ReaderV) -> Outcome<InjV> {
    let x = InjV { st, loads: seq![], gens: seq![], shunts: seq![], sources: seq![] };
    let x = loads_of(m, case, x);
    let x = class_of(m, case, Kind::Machine, "ElmSym"@, x);
    let x = class_of(m, case, Kind::Machine, "ElmGenstat"@, x);
    let x = class_of(m, case, Kind::Machine, "ElmPvsys"@, x);
    let x = class_of(m, case, Kind::Machine, "ElmAsm"@, x);
    let x = class_of(m, case, Kind::Grid, "ElmXnet"@, x);
    class_of(m, case, Kind::Shunt, "ElmShnt"@, x)
}

fn read_loads<C: Calc>(math: &C, case: &Case, st: &mut Reader, x: &mut Inj) -> (o: Result<()>)
    requires
        case@.wf(),
    ensures
        match o {
            Ok(_) => loads_of(math.sem(), case@, inj_view(old(st)@, *old(x))) == Ok::<
                InjV,
                ErrorV,
            >(inj_view(final(st)@, *final(x))),
            Err(e) => loads_of(math.sem(), case@, inj_view(old(st)@, *old(x))) == Err::<
                InjV,
                ErrorV,
            >(e@),
        },
{
    match read_class(math, case, Kind::Load, "ElmLod", st, x) {
        Ok(_) => {},
        Err(e) => {
            return Err(e);
        },
    }
    match read_class(math, case, Kind::SingleLoad, "ElmLodlv", st, x) {
        Ok(_) => {},
        Err(e) => {
            return Err(e);
        },
    }
    match read_class(math, case, Kind::SingleLoad, "ElmLodmv", st, x) {
        Ok(_) => {},
        Err(e) => {
            return Err(e);
        },
    }
    match case.doc.table("ElmLodlvp") {
        Some(t) => {
            assert(t@.rows.len() == t.rows.len());
            if t.rows.len() > 0 {
                let n = dec_usize(t.rows.len());
                st.warn(
                    cat3(
                        "`ElmLodlvp` table ignored (",
                        n.as_str(),
                        " rows): partial line loads are not mapped",
                    ),
                );
            }
        },
        None => {},
    }
    Ok(())
}

pub fn injections<C: Calc>(math: &C, case: &Case, st: &mut Reader) -> (o: Result<Inj>)
    requires
        case@.wf(),
    ensures
        match o {
            Ok(x) => injections_of(math.sem(), case@, old(st)@) == Ok::<InjV, ErrorV>(
                inj_view(final(st)@, x),
            ),
            Err(e) => injections_of(math.sem(), case@, old(st)@) == Err::<InjV, ErrorV>(e@),
        },
{
    reveal(injections_of);
    let mut x = Inj {
        loads: Vec::new(),
        gens: Vec::new(),
        shunts: Vec::new(),
        sources: Vec::new(),
    };
    assert(views(x.loads@) =~= seq![] && views(x.gens@) =~= seq![] && views(x.shunts@) =~= seq![]
        && views(x.sources@) =~= seq![]);
    match read_loads(math, case, st, &mut x) {
        Ok(_) => {},
        Err(e) => {
            return Err(e);
        },
    }
    match read_class(math, case, Kind::Machine, "ElmSym", st, &mut x) {
        Ok(_) => {},
        Err(e) => {
            return Err(e);
        },
    }
    match read_class(math, case, Kind::Machine, "ElmGenstat", st, &mut x) {
        Ok(_) => {},
        Err(e) => {
            return Err(e);
        },
    }
    match read_class(math, case, Kind::Machine, "ElmPvsys", st, &mut x) {
        Ok(_) => {},
        Err(e) => {
            return Err(e);
        },
    }
    match read_class(math, case, Kind::Machine, "ElmAsm", st, &mut x) {
        Ok(_) => {},
        Err(e) => {
            return Err(e);
        },
    }
    match read_class(math, case, Kind::Grid, "ElmXnet", st, &mut x) {
        Ok(_) => {},
        Err(e) => {
            return Err(e);
        },
    }
    match read_class(math, case, Kind::Shunt, "ElmShnt", st, &mut x) {
        Ok(_) => {},
        Err(e) => {
            return Err(e);
        },
    }
    Ok(x)
}

} // verus!
