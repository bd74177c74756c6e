//! Transformers, with their tanks and catalog records, as tables by name.

use vstd::prelude::*;

use crate::cim::read::{z_base, z_base_of};
use crate::json::{put_of, uint_json, Entries, Json, JsonMap, JsonV};
use crate::math::{abs, abs_of, larger, lt, minus, num_lt, Bits, Calc, Sem, ONE, ZERO};
use crate::model::{DistNetwork, DistTransformer, DistTransformerV, Winding, WindingConn, WindingV};
use crate::numeral::{dec, dec_of};
use crate::order::contains;
use crate::ravens::emit::{
    array, array1, extra_num, extras_mrid, extras_mrid_of, hot_code, hot_code_of, identified,
    identified_of, object, ordered_code, ordered_code_of, pointer, pointer_json, terminal,
    terminal_json, xnum, Writer, WriterV,
};
use crate::ravens::scale::{of_base, of_base_of};
use crate::ravens::write_loads::{first, first_or_zero};
use crate::text::{cat2, cat3, cat6, group_views, views};

verus! {

/// Whether a winding's neutral is grounded: a wye whose neutral resistance is
/// not negative.
pub open spec fn grounded_of(w: WindingV) -> bool {
    w.conn == WindingConn::Wye && !(w.r_neutral is Some && num_lt(w.r_neutral->0, ZERO))
}

fn is_grounded(w: &Winding) -> (r: bool)
    ensures
        r == grounded_of(w@),
{
    w.conn == WindingConn::Wye && match w.r_neutral {
        Some(r) => !lt(r, ZERO),
        None => true,
    }
}

/// The number there is, or zero.
pub open spec fn or_zero(x: Option<Bits>) -> Bits {
    match x {
        Some(v) => v,
        None => ZERO,
    }
}

/// The letters of the first `n` windings: the first in capitals, a grounded wye
/// with its neutral.
pub open spec fn group_n(ws: Seq<WindingV>, n: nat) -> Seq<char>
    decreases n,
{
    if n == 0 {
        seq![]
    } else {
        let before = group_n(ws, (n - 1) as nat);
        let w = ws[n - 1];
        let letter = if n == 1 {
            if w.conn == WindingConn::Delta {
                "D"@
            } else {
                "Y"@
            }
        } else {
            if w.conn == WindingConn::Delta {
                "d"@
            } else {
                "y"@
            }
        };
        if grounded_of(w) && w.terminal_map.contains("4"@) {
            before + letter + if n == 1 {
                "N"@
            } else {
                "n"@
            }
        } else {
            before + letter
        }
    }
}

/// The vector group of a transformer, without a shift.
pub open spec fn vector_group_of(ws: Seq<WindingV>) -> Seq<char> {
    group_n(ws, ws.len()).push('0')
}

pub fn vector_group(xf: &DistTransformer) -> (r: String)
    ensures
        r@ == vector_group_of(xf@.windings),
{
    let mut out = String::new();
    let mut k: usize = 0;
    while k < xf.windings.len()
        invariant
            k <= xf.windings.len(),
            out@ == group_n(xf@.windings, k as nat),
        decreases xf.windings.len() - k,
    {
        let w = &xf.windings[k];
        assert(xf@.windings[k as int] == w@);
        let letter = match w.conn {
            WindingConn::Delta => if k == 0 {
                "D"
            } else {
                "d"
            },
            WindingConn::Wye => if k == 0 {
                "Y"
            } else {
                "y"
            },
        };
        out.append(letter);
        if is_grounded(w) && contains(&w.terminal_map, "4") {
            out.append(
                if k == 0 {
                    "N"
                } else {
                    "n"
                },
            );
        }
        k = k + 1;
    }
    assert(xf@.windings.len() == xf.windings.len());
    out.push('0');
    out
}

// ---- ends ------------------------------------------------------------------

/// The tank end of the `k`-th winding.
#[verifier::opaque]
pub open spec fn end_json(w: WriterV, m: Sem, xf: DistTransformerV, k: nat) -> (WriterV, JsonV) {
    let what = "transformer "@ + xf.name;
    let x = xf.windings[k as int];
    let num = dec_of(k + 1);
    let o = identified_of("TransformerTankEnd"@, xf.name + "_End_"@ + num, None);
    let o = put_of(o, "TransformerEnd.grounded"@, JsonV::Bool(grounded_of(x)));
    let (w, o) = if grounded_of(x) {
        let (w, rg) = w.num(m, m.max(or_zero(x.r_neutral), ZERO), what);
        let (w, xg) = w.num(m, or_zero(x.x_neutral), what);
        let o = put_of(o, "TransformerEnd.rground"@, rg);
        let o = put_of(o, "TransformerEnd.xground"@, xg);
        (
            if x.terminal_map.contains("4"@) {
                w.ground(x.bus)
            } else {
                w
            },
            o,
        )
    } else {
        (w, o)
    };
    let o = put_of(
        o,
        "TransformerTankEnd.orderedPhases"@,
        JsonV::Str(ordered_code_of(x.terminal_map)),
    );
    let o = put_of(o, "TransformerEnd.endNumber"@, uint_json(k + 1));
    let o = w.put_base(m, o, x.bus);
    let o = put_of(
        o,
        "ConductingEquipment.Terminals"@,
        JsonV::Arr(
            seq![
                terminal_json(
                    xf.name + "_E"@ + num,
                    1,
                    x.bus,
                    hot_code_of(x.terminal_map),
                    None,
                ),
            ],
        ),
    );
    (w, JsonV::Obj(o))
}

fn write_end<C: Calc>(w: &mut Writer, math: &C, xf: &DistTransformer, k: usize) -> (r: Json)
    requires
        k < xf.windings.len(),
    ensures
        (final(w)@, r@) == end_json(old(w)@, math.sem(), xf@, k as nat),
{
    reveal(end_json);
    let what = cat2("transformer ", xf.name.as_str());
    let x = &xf.windings[k];
    assert(xf@.windings[k as int] == x@);
    let num = dec((k + 1) as u64);
    let grounded = is_grounded(x);
    let mut o = identified(
        "TransformerTankEnd",
        cat3(xf.name.as_str(), "_End_", num.as_str()).as_str(),
        None,
    );
    o.put("TransformerEnd.grounded".to_owned(), Json::Bool(grounded));
    if grounded {
        let r = match x.r_neutral {
            Some(r) => r,
            None => ZERO,
        };
        let i = match x.x_neutral {
            Some(i) => i,
            None => ZERO,
        };
        let rg = w.num(math, larger(math, r, ZERO), what.as_str());
        let xg = w.num(math, i, what.as_str());
        o.put("TransformerEnd.rground".to_owned(), rg);
        o.put("TransformerEnd.xground".to_owned(), xg);
        if contains(&x.terminal_map, "4") {
            w.ground(x.bus.as_str());
        }
    }
    o.put(
        "TransformerTankEnd.orderedPhases".to_owned(),
        Json::Str(ordered_code(&x.terminal_map)),
    );
    o.put("TransformerEnd.endNumber".to_owned(), Json::uint((k + 1) as u64));
    w.put_base(math, &mut o, x.bus.as_str());
    let code = hot_code(&x.terminal_map);
    let t = terminal(
        cat3(xf.name.as_str(), "_E", num.as_str()).as_str(),
        1,
        x.bus.as_str(),
        code.as_str(),
        &None,
    );
    o.put("ConductingEquipment.Terminals".to_owned(), array1(t));
    object(o)
}

/// The catalog record of the `k`-th winding: its ratings, and its resistance in
/// ohms.
#[verifier::opaque]
pub open spec fn info_json(w: WriterV, m: Sem, xf: DistTransformerV, k: nat) -> (WriterV, Entries) {
    let what = "transformer "@ + xf.name;
    let x = xf.windings[k as int];
    let num = dec_of(k + 1);
    let o = identified_of("TransformerEndInfo"@, xf.name + "_info_"@ + num, None);
    let o = put_of(o, "TransformerEndInfo.endNumber"@, uint_json(k + 1));
    let o = put_of(
        o,
        "TransformerEndInfo.connectionKind"@,
        JsonV::Str(
            "WindingConnection."@ + if x.conn == WindingConn::Delta {
                "D"@
            } else {
                "Y"@
            },
        ),
    );
    let o = put_of(o, "TransformerEndInfo.phaseAngleClock"@, uint_json(0));
    let (w, u) = w.num(m, x.v_ref, what);
    let (w, s) = w.num(m, x.s_rating, what);
    let o = put_of(o, "TransformerEndInfo.ratedU"@, u);
    let o = put_of(o, "TransformerEndInfo.ratedS"@, s);
    let (w, o) = match z_base_of(m, x.v_ref, x.s_rating) {
        Some(base) => w.put_num(
            m,
            o,
            "TransformerEndInfo.r"@,
            of_base_of(m, x.r_pct, base),
            what,
        ),
        None => (w, o),
    };
    let w = if num_lt(ZERO, abs_of(m.minus(x.tap, ONE))) {
        w.warn(
            what + ": winding "@ + num + " tap "@ + (m.show)(x.tap)
                + " is dropped (tap changers are read from RAVENS documents but not synthesized into them)"@,
        )
    } else {
        w
    };
    (w, o)
}

fn write_info<C: Calc>(w: &mut Writer, math: &C, xf: &DistTransformer, k: usize) -> (r: JsonMap)
    requires
        k < xf.windings.len(),
    ensures
        (final(w)@, r@) == info_json(old(w)@, math.sem(), xf@, k as nat),
{
    reveal(info_json);
    let what = cat2("transformer ", xf.name.as_str());
    let x = &xf.windings[k];
    assert(xf@.windings[k as int] == x@);
    let num = dec((k + 1) as u64);
    let mut o = identified(
        "TransformerEndInfo",
        cat3(xf.name.as_str(), "_info_", num.as_str()).as_str(),
        None,
    );
    o.put("TransformerEndInfo.endNumber".to_owned(), Json::uint((k + 1) as u64));
    let kind = match x.conn {
        WindingConn::Delta => "D",
        WindingConn::Wye => "Y",
    };
    o.put(
        "TransformerEndInfo.connectionKind".to_owned(),
        Json::Str(cat2("WindingConnection.", kind)),
    );
    o.put("TransformerEndInfo.phaseAngleClock".to_owned(), Json::uint(0));
    let u = w.num(math, x.v_ref, what.as_str());
    let s = w.num(math, x.s_rating, what.as_str());
    o.put("TransformerEndInfo.ratedU".to_owned(), u);
    o.put("TransformerEndInfo.ratedS".to_owned(), s);
    if let Some(base) = z_base(math, x.v_ref, x.s_rating) {
        let r = of_base(math, x.r_pct, base);
        w.put_num(math, &mut o, "TransformerEndInfo.r", r, what.as_str());
    }
    if lt(ZERO, abs(minus(math, x.tap, ONE))) {
        let tap = math.show(x.tap);
        w.warn(
            cat6(
                what.as_str(),
                ": winding ",
                num.as_str(),
                " tap ",
                tap.as_str(),
                " is dropped (tap changers are read from RAVENS documents but not synthesized into them)",
            ),
        );
    }
    o
}

/// The ends and the catalog records of the first `n` windings.
pub open spec fn windings_json(w: WriterV, m: Sem, xf: DistTransformerV, n: nat) -> (
    WriterV,
    Seq<JsonV>,
    Seq<Entries>,
)
    decreases n,
{
    if n == 0 {
        (w, seq![], seq![])
    } else {
        let before = windings_json(w, m, xf, (n - 1) as nat);
        let (w, end) = end_json(before.0, m, xf, (n - 1) as nat);
        let (w, info) = info_json(w, m, xf, (n - 1) as nat);
        (w, before.1.push(end), before.2.push(info))
    }
}

fn write_windings<C: Calc>(w: &mut Writer, math: &C, xf: &DistTransformer) -> (r: (
    Vec<Json>,
    Vec<JsonMap>,
))
    ensures
        (final(w)@, views(r.0@), views(r.1@)) == windings_json(
            old(w)@,
            math.sem(),
            xf@,
            xf@.windings.len(),
        ),
        r.1.len() == xf@.windings.len(),
{
    broadcast use group_views;

    let mut ends: Vec<Json> = Vec::new();
    let mut infos: Vec<JsonMap> = Vec::new();
    let mut n: usize = 0;
    assert(views(ends@) =~= seq![]);
    assert(views(infos@) =~= seq![]);
    while n < xf.windings.len()
        invariant
            n <= xf.windings.len(),
            infos.len() == n,
            (w@, views(ends@), views(infos@)) == windings_json(
                old(w)@,
                math.sem(),
                xf@,
                n as nat,
            ),
        decreases xf.windings.len() - n,
    {
        let end = write_end(w, math, xf, n);
        let info = write_info(w, math, xf, n);
        ends.push(end);
        infos.push(info);
        n = n + 1;
    }
    assert(xf@.windings.len() == xf.windings.len());
    (ends, infos)
}

// ---- tests -----------------------------------------------------------------

/// The short-circuit test of the first winding: the reactance of the first pair.
#[verifier::opaque]
pub open spec fn circuit_json(w: WriterV, m: Sem, xf: DistTransformerV, base: Bits) -> (
    WriterV,
    JsonV,
) {
    let what = "transformer "@ + xf.name;
    let o = identified_of("ShortCircuitTest"@, xf.name + "_info_1_shortcircuit"@, None);
    let o = put_of(o, "ShortCircuitTest.energisedEndStep"@, uint_json(1));
    let o = put_of(o, "ShortCircuitTest.groundedEndStep"@, uint_json(1));
    let (w, z) = w.num(m, of_base_of(m, first_or_zero(xf.xsc_pct), base), what);
    let o = put_of(o, "ShortCircuitTest.leakageImpedance"@, z);
    let o = put_of(o, "ShortCircuitTest.leakageImpedanceZero"@, z);
    let (w, o) = w.put_num(m, o, "TransformerTest.basePower"@, xf.windings[0].s_rating, what);
    (w, JsonV::Obj(o))
}

fn write_circuit<C: Calc>(w: &mut Writer, math: &C, xf: &DistTransformer, base: Bits) -> (r: Json)
    requires
        xf.windings.len() > 0,
    ensures
        (final(w)@, r@) == circuit_json(old(w)@, math.sem(), xf@, base),
{
    reveal(circuit_json);
    assert(xf@.windings[0] == xf.windings@[0]@);
    let what = cat2("transformer ", xf.name.as_str());
    let mut o = identified(
        "ShortCircuitTest",
        cat2(xf.name.as_str(), "_info_1_shortcircuit").as_str(),
        None,
    );
    o.put("ShortCircuitTest.energisedEndStep".to_owned(), Json::uint(1));
    o.put("ShortCircuitTest.groundedEndStep".to_owned(), Json::uint(1));
    let ohms = of_base(math, first(&xf.xsc_pct), base);
    let z = w.num(math, ohms, what.as_str());
    o.put("ShortCircuitTest.leakageImpedance".to_owned(), z.copy());
    o.put("ShortCircuitTest.leakageImpedanceZero".to_owned(), z);
    w.put_num(
        math,
        &mut o,
        "TransformerTest.basePower",
        xf.windings[0].s_rating,
        what.as_str(),
    );
    object(o)
}

/// The no-load test of the first winding.
#[verifier::opaque]
pub open spec fn noload_json(w: WriterV, m: Sem, xf: DistTransformerV) -> (WriterV, JsonV) {
    let what = "transformer "@ + xf.name;
    let x = xf.windings[0];
    let o = identified_of("NoLoadTest"@, xf.name + "_info_1_noload"@, None);
    let (w, o) = w.put_num(m, o, "NoLoadTest.energisedEndVoltage"@, x.v_ref, what);
    let (w, o) = w.put_opt(
        m,
        o,
        "NoLoadTest.excitingCurrent"@,
        extra_num(m, xf.extras, "%imag"@),
        what,
    );
    let loss = match extra_num(m, xf.extras, "%noloadloss"@) {
        Some(pct) => Some(of_base_of(m, pct, x.s_rating)),
        None => None,
    };
    let (w, o) = w.put_opt(m, o, "NoLoadTest.loss"@, loss, what);
    let (w, o) = w.put_num(m, o, "TransformerTest.basePower"@, x.s_rating, what);
    (w, JsonV::Obj(o))
}

fn write_noload<C: Calc>(w: &mut Writer, math: &C, xf: &DistTransformer) -> (r: Json)
    requires
        xf.windings.len() > 0,
    ensures
        (final(w)@, r@) == noload_json(old(w)@, math.sem(), xf@),
{
    reveal(noload_json);
    assert(xf@.windings[0] == xf.windings@[0]@);
    let what = cat2("transformer ", xf.name.as_str());
    let x = &xf.windings[0];
    let mut o = identified(
        "NoLoadTest",
        cat2(xf.name.as_str(), "_info_1_noload").as_str(),
        None,
    );
    w.put_num(math, &mut o, "NoLoadTest.energisedEndVoltage", x.v_ref, what.as_str());
    let imag = xnum(math, &xf.extras, "%imag");
    w.put_opt(math, &mut o, "NoLoadTest.excitingCurrent", imag, what.as_str());
    let loss = match xnum(math, &xf.extras, "%noloadloss") {
        Some(pct) => Some(of_base(math, pct, x.s_rating)),
        None => None,
    };
    w.put_opt(math, &mut o, "NoLoadTest.loss", loss, what.as_str());
    w.put_num(math, &mut o, "TransformerTest.basePower", x.s_rating, what.as_str());
    object(o)
}

/// The writer and the first winding's record once its tests are in.
#[verifier::opaque]
pub open spec fn tested_json(w: WriterV, m: Sem, xf: DistTransformerV, info: Entries) -> (
    WriterV,
    Entries,
) {
    let what = "transformer "@ + xf.name;
    let x = xf.windings[0];
    let (w, info) = match z_base_of(m, x.v_ref, x.s_rating) {
        Some(base) => {
            let (w, test) = circuit_json(w, m, xf, base);
            let info = put_of(
                info,
                "TransformerEndInfo.EnergisedEndShortCircuitTests"@,
                JsonV::Arr(seq![test]),
            );
            (
                if xf.xsc_pct.len() > 1 {
                    w.warn(
                        what
                            + ": only the first winding pair's short-circuit reactance is carried; the document format does not encode the remaining pairs"@,
                    )
                } else {
                    w
                },
                info,
            )
        },
        None => (w, info),
    };
    if extra_num(m, xf.extras, "%noloadloss"@) is Some || extra_num(m, xf.extras, "%imag"@)
        is Some {
        let (w, test) = noload_json(w, m, xf);
        (
            w,
            put_of(
                info,
                "TransformerEndInfo.EnergisedEndNoLoadTests"@,
                JsonV::Arr(seq![test]),
            ),
        )
    } else {
        (w, info)
    }
}

fn add_tests<C: Calc>(w: &mut Writer, math: &C, xf: &DistTransformer, info: &mut JsonMap)
    requires
        xf.windings.len() > 0,
    ensures
        (final(w)@, final(info)@) == tested_json(old(w)@, math.sem(), xf@, old(info)@),
{
    reveal(tested_json);
    assert(xf@.windings[0] == xf.windings@[0]@);
    let what = cat2("transformer ", xf.name.as_str());
    let x = &xf.windings[0];
    if let Some(base) = z_base(math, x.v_ref, x.s_rating) {
        let test = write_circuit(w, math, xf, base);
        info.put(
            "TransformerEndInfo.EnergisedEndShortCircuitTests".to_owned(),
            array1(test),
        );
        if xf.xsc_pct.len() > 1 {
            w.warn(
                cat2(
                    what.as_str(),
                    ": only the first winding pair's short-circuit reactance is carried; the document format does not encode the remaining pairs",
                ),
            );
        }
    }
    let loss = xnum(math, &xf.extras, "%noloadloss");
    let imag = xnum(math, &xf.extras, "%imag");
    if loss.is_some() || imag.is_some() {
        let test = write_noload(w, math, xf);
        info.put("TransformerEndInfo.EnergisedEndNoLoadTests".to_owned(), array1(test));
    }
}

// ---- transformers ----------------------------------------------------------

/// Records as values.
pub open spec fn objects(s: Seq<Entries>) -> Seq<JsonV> {
    Seq::new(s.len(), |i: int| JsonV::Obj(s[i]))
}

fn to_objects(v: Vec<JsonMap>) -> (r: Vec<Json>)
    ensures
        views(r@) == objects(views(v@)),
{
    let mut r: Vec<Json> = Vec::new();
    let mut i: usize = 0;
    while i < v.len()
        invariant
            i <= v.len(),
            r.len() == i,
            forall|k: int| 0 <= k < i ==> (#[trigger] r@[k])@ == JsonV::Obj(v@[k]@),
        decreases v.len() - i,
    {
        r.push(object(v[i].copy()));
        i = i + 1;
    }
    assert(views(r@) =~= objects(views(v@)));
    r
}

/// The transformer's object and its catalog entry.
#[verifier::opaque]
pub open spec fn transformer_json(w: WriterV, m: Sem, xf: DistTransformerV) -> (
    WriterV,
    JsonV,
    JsonV,
) {
    let what = "transformer "@ + xf.name;
    let info_name = xf.name + "_info"@;
    let o = identified_of("PowerTransformer"@, xf.name, extras_mrid_of(xf.extras));
    let o = put_of(
        o,
        "PowerTransformer.vectorGroup"@,
        JsonV::Str(vector_group_of(xf.windings)),
    );
    let tank = identified_of("TransformerTank"@, xf.name, None);
    let tank = put_of(
        tank,
        "PowerSystemResource.AssetDatasheet"@,
        pointer_json("TransformerTankInfo"@, info_name),
    );
    let (w, ends, infos) = windings_json(w, m, xf, xf.windings.len());
    let tank = put_of(tank, "TransformerTank.TransformerTankEnd"@, JsonV::Arr(ends));
    let o = put_of(
        o,
        "PowerTransformer.TransformerTank"@,
        JsonV::Arr(seq![JsonV::Obj(tank)]),
    );
    let (w, first_info) = tested_json(w, m, xf, infos[0]);
    let sheet = put_of(
        identified_of("TransformerTankInfo"@, info_name, None),
        "TransformerTankInfo.TransformerEndInfos"@,
        JsonV::Arr(objects(infos.update(0, first_info))),
    );
    let wrapper = put_of(
        Entries::empty(),
        "PowerTransformerInfo.TransformerTankInfos"@,
        JsonV::Obj(put_of(Entries::empty(), info_name, JsonV::Obj(sheet))),
    );
    (
        w.warn_extras(what, xf.extras, seq!["%noloadloss"@, "%imag"@]),
        JsonV::Obj(o),
        JsonV::Obj(wrapper),
    )
}

/// The tables of the first `n` transformers and of their catalog entries; one
/// with fewer than two windings is left out.
pub open spec fn transformers_json(w: WriterV, m: Sem, s: Seq<DistTransformerV>, n: nat) -> (
    WriterV,
    Entries,
    Entries,
)
    decreases n,
{
    if n == 0 {
        (w, Entries::empty(), Entries::empty())
    } else {
        let before = transformers_json(w, m, s, (n - 1) as nat);
        let xf = s[n - 1];
        if xf.windings.len() < 2 {
            (
                before.0.warn(
                    "transformer "@ + xf.name + ": fewer than two windings; skipped"@,
                ),
                before.1,
                before.2,
            )
        } else {
            let (w, o, a) = transformer_json(before.0, m, xf);
            (w, put_of(before.1, xf.name, o), put_of(before.2, xf.name + "_info"@, a))
        }
    }
}

fn write_transformer<C: Calc>(w: &mut Writer, math: &C, xf: &DistTransformer) -> (r: (Json, Json))
    requires
        xf.windings.len() >= 2,
    ensures
        (final(w)@, r.0@, r.1@) == transformer_json(old(w)@, math.sem(), xf@),
{
    reveal(transformer_json);
    let what = cat2("transformer ", xf.name.as_str());
    let info_name = cat2(xf.name.as_str(), "_info");
    let mut o = identified("PowerTransformer", xf.name.as_str(), extras_mrid(&xf.extras));
    o.put("PowerTransformer.vectorGroup".to_owned(), Json::Str(vector_group(xf)));
    let mut tank = identified("TransformerTank", xf.name.as_str(), None);
    tank.put(
        "PowerSystemResource.AssetDatasheet".to_owned(),
        pointer("TransformerTankInfo", info_name.as_str()),
    );
    assert(xf@.windings.len() == xf.windings.len());
    let (ends, mut infos) = write_windings(w, math, xf);
    tank.put("TransformerTank.TransformerTankEnd".to_owned(), array(ends));
    o.put("PowerTransformer.TransformerTank".to_owned(), array1(object(tank)));
    let ghost all = views(infos@);
    assert(all[0] == infos@[0]@);
    let mut head = infos[0].copy();
    add_tests(w, math, xf, &mut head);
    let ghost hv = head@;
    infos.set(0, head);
    assert(views(infos@) =~= all.update(0, hv));
    let mut sheet = identified("TransformerTankInfo", info_name.as_str(), None);
    sheet.put(
        "TransformerTankInfo.TransformerEndInfos".to_owned(),
        array(to_objects(infos)),
    );
    let mut table = JsonMap::new();
    table.put(info_name, object(sheet));
    let mut wrapper = JsonMap::new();
    wrapper.put("PowerTransformerInfo.TransformerTankInfos".to_owned(), object(table));
    let carried: Vec<&'static str> = vec!["%noloadloss", "%imag"];
    assert(views(carried@) =~= seq!["%noloadloss"@, "%imag"@]);
    w.warn_extras(what.as_str(), &xf.extras, &carried);
    (object(o), object(wrapper))
}

pub fn write_transformers<C: Calc>(w: &mut Writer, math: &C, net: &DistNetwork) -> (r: (
    JsonMap,
    JsonMap,
))
    ensures
        (final(w)@, r.0@, r.1@) == transformers_json(
            old(w)@,
            math.sem(),
            net@.transformers,
            net@.transformers.len(),
        ),
{
    let mut table = JsonMap::new();
    let mut assets = JsonMap::new();
    let mut n: usize = 0;
    while n < net.transformers.len()
        invariant
            n <= net.transformers.len(),
            (w@, table@, assets@) == transformers_json(
                old(w)@,
                math.sem(),
                net@.transformers,
                n as nat,
            ),
        decreases net.transformers.len() - n,
    {
        let xf = &net.transformers[n];
        assert(net@.transformers[n as int] == xf@);
        assert(xf@.windings.len() == xf.windings.len());
        if xf.windings.len() < 2 {
            w.warn(
                cat3("transformer ", xf.name.as_str(), ": fewer than two windings; skipped"),
            );
        } else {
            let (o, a) = write_transformer(w, math, xf);
            table.put(xf.name.clone(), o);
            assets.put(cat2(xf.name.as_str(), "_info"), a);
        }
        n = n + 1;
    }
    assert(net@.transformers.len() == net.transformers.len());
    (table, assets)
}

} // verus!
