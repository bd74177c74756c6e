//! Two- and three-winding transformers.

use vstd::prelude::*;

use crate::dgs::impedance::{clamp3, missing_type, missing_type_of, one_to_three};
use crate::dgs::lines::{raw_name, raw_name_of};
use crate::dgs::scan::{
    int_of, integer, ref_view, whole, whole_of, DgsDoc, DgsDocV, DgsRow, DgsRowV, DgsTable,
    DgsTableV,
};
use crate::dgs::state::{
    extras, extras_of, first_phases, numbers, numbers_of, phase_terminals, phases_up_to,
    terminals_of, Case, CaseV, Reader, ReaderV,
};
use crate::dgs::topology::{
    at_side, resolve, resolve_of, side_of, two_of, two_terminals, Conn, ConnV,
};
use crate::error::{ErrorV, Outcome, Result};
use crate::json::{lemma_json_view, put_of, Entries, Json, JsonMap, JsonV};
use crate::math::{
    larger, minus, over, plus, sqrt, times, Bits, Calc, Sem, HUNDRED, MILLION, NANO, ONE, TEN,
    THOUSAND, THREE, TWO, ZERO,
};
use crate::model::{
    dist_transformer_of, winding_of, DistTransformer, DistTransformerV, Winding, WindingConn,
    WindingV,
};
use crate::text::{
    cat2, ends_with, group_views, has_prefix, has_suffix, lower, lower_of, same, starts_with, trim,
    trim_of, views,
};

verus! {

// ---- types -----------------------------------------------------------------

/// The winding connection of a vector-group code: a leading `D` is delta, all
/// else wye; and whether its neutral is grounded, which a final `N` marks.
pub open spec fn winding_conn_of(code: Option<Seq<char>>) -> (WindingConn, bool) {
    let c = lower_of(
        trim_of(
            match code {
                Some(s) => s,
                None => "Y"@,
            },
        ),
    );
    if has_prefix(c, "d"@) {
        (WindingConn::Delta, false)
    } else {
        (WindingConn::Wye, has_suffix(c, "n"@))
    }
}

pub fn winding_conn(code: Option<&String>) -> (r: (WindingConn, bool))
    ensures
        r == winding_conn_of(ref_view(code)),
{
    let text = match code {
        Some(s) => trim(s.as_str()),
        None => trim("Y"),
    };
    let c = lower(text.as_str());
    if starts_with(c.as_str(), "d") {
        (WindingConn::Delta, false)
    } else {
        (WindingConn::Wye, ends_with(c.as_str(), "n"))
    }
}

/// The type an element points to, of a given class.
pub open spec fn type_of(doc: DgsDocV, t: DgsTableV, r: DgsRowV, class: Seq<char>) -> Outcome<
    (DgsTableV, DgsRowV),
> {
    let typ = match t.ptr(r, "typ_id"@) {
        Some(p) => p,
        None => seq![],
    };
    match resolve_of(doc, typ) {
        Some(p) => if p.0.class == class {
            Ok(p)
        } else {
            Err(missing_type_of(t.id_of(r), typ))
        },
        None => Err(missing_type_of(t.id_of(r), typ)),
    }
}

fn find_type<'a>(doc: &'a DgsDoc, t: &DgsTable, r: &DgsRow, class: &str) -> (x: Result<
    (&'a DgsTable, &'a DgsRow),
>)
    ensures
        match x {
            Ok(p) => type_of(doc@, t@, r@, class@) == Ok::<(DgsTableV, DgsRowV), ErrorV>(
                (p.0@, p.1@),
            ),
            Err(e) => type_of(doc@, t@, r@, class@) == Err::<(DgsTableV, DgsRowV), ErrorV>(e@),
        },
{
    let typ = match t.ptr(r, "typ_id") {
        Some(p) => p,
        None => {
            let e = String::new();
            assert(e@ =~= seq![]);
            e
        },
    };
    let id = t.id_of(r);
    match resolve(doc, typ.as_str()) {
        Some((tt, tr)) => if same(tt.class.as_str(), class) {
            Ok((tt, tr))
        } else {
            Err(missing_type(id.as_str(), typ.as_str()))
        },
        None => Err(missing_type(id.as_str(), typ.as_str())),
    }
}

/// The reactive part of a short-circuit voltage: what its resistive part leaves.
pub open spec fn reactive(m: Sem, z: Bits, r: Bits) -> Bits {
    m.sqrt(m.max(m.minus(m.times(z, z), m.times(r, r)), ZERO))
}

pub fn reactive_part<C: Calc>(math: &C, z: Bits, r: Bits) -> (x: Bits)
    ensures
        x == reactive(math.sem(), z, r),
{
    sqrt(math, larger(math, minus(math, times(math, z, z), times(math, r, r)), ZERO))
}

// ---- two windings ----------------------------------------------------------

/// Which column gives the resistance: in percent, or as copper losses.
pub open spec fn resistance_column(tt: DgsTableV, tr: DgsRowV) -> Seq<char> {
    if tt.cell(tr, "uktrr"@) is Some {
        "uktrr"@
    } else {
        "pcutr"@
    }
}

/// What is asked of a transformer and its type.
pub open spec fn two_asks(resistance: Seq<char>) -> Seq<(bool, Seq<char>, Bits)> {
    seq![
        (true, "strn"@, ZERO),
        (false, "ntnum"@, ONE),
        (true, "utrn_h"@, ZERO),
        (true, "utrn_l"@, ZERO),
        (true, "uktr"@, ZERO),
        (true, resistance, ZERO),
        (false, "nntap"@, ZERO),
        (true, "nntap0"@, ZERO),
        (true, "dutap"@, ZERO),
        (true, "tap_side"@, ZERO),
        (false, "nphase"@, THREE),
    ]
}

fn two_ask_list(percent: bool) -> (r: Vec<(bool, &'static str, Bits)>)
    ensures
        views(r@) == two_asks(
            if percent {
                "uktrr"@
            } else {
                "pcutr"@
            },
        ),
        r.len() == 11,
{
    let resistance = if percent {
        "uktrr"
    } else {
        "pcutr"
    };
    let r: Vec<(bool, &'static str, Bits)> = vec![
        (true, "strn", ZERO),
        (false, "ntnum", ONE),
        (true, "utrn_h", ZERO),
        (true, "utrn_l", ZERO),
        (true, "uktr", ZERO),
        (true, resistance, ZERO),
        (false, "nntap", ZERO),
        (true, "nntap0", ZERO),
        (true, "dutap", ZERO),
        (true, "tap_side", ZERO),
        (false, "nphase", THREE),
    ];
    assert(views(r@) =~= two_asks(resistance@));
    r
}

/// The ratings of a two-winding transformer in SI units and percent.
pub struct TwoRatings {
    pub s_rating: Bits,
    pub v_high: Bits,
    pub v_low: Bits,
    pub x_pct: Bits,
    pub r_pct: Bits,
    pub tap_high: Bits,
    pub tap_low: Bits,
    pub phases: usize,
}

/// The ratings that the asked numbers give. Each winding carries half the
/// resistance, and the tap stands on one side.
pub open spec fn two_ratings_of(m: Sem, v: Seq<Bits>, percent: bool) -> TwoRatings {
    let strn = m.max(v[0], NANO);
    let r_total = if percent {
        v[5]
    } else {
        m.over(v[5], m.times(TEN, strn))
    };
    let tap = m.plus(ONE, m.over(m.times(m.minus(v[6], v[7]), v[8]), HUNDRED));
    let side = whole_of(m, v[9]);
    TwoRatings {
        s_rating: m.times(m.times(strn, MILLION), m.max(v[1], ONE)),
        v_high: m.times(v[2], THOUSAND),
        v_low: m.times(v[3], THOUSAND),
        x_pct: reactive(m, v[4], r_total),
        r_pct: m.over(r_total, TWO),
        tap_high: if side == 0 {
            tap
        } else {
            ONE
        },
        tap_low: if side == 1 {
            tap
        } else {
            ONE
        },
        phases: one_to_three(whole_of(m, v[10])),
    }
}

fn two_ratings<C: Calc>(math: &C, v: &Vec<Bits>, percent: bool) -> (r: TwoRatings)
    requires
        v.len() == 11,
    ensures
        r == two_ratings_of(math.sem(), v@, percent),
        1 <= r.phases <= 3,
{
    let strn = larger(math, v[0], NANO);
    let r_total = if percent {
        v[5]
    } else {
        over(math, v[5], times(math, TEN, strn))
    };
    let shift = times(math, minus(math, v[6], v[7]), v[8]);
    let tap = plus(math, ONE, over(math, shift, HUNDRED));
    let side = whole(math, v[9]);
    TwoRatings {
        s_rating: times(math, times(math, strn, MILLION), larger(math, v[1], ONE)),
        v_high: times(math, v[2], THOUSAND),
        v_low: times(math, v[3], THOUSAND),
        x_pct: reactive_part(math, v[4], r_total),
        r_pct: over(math, r_total, TWO),
        tap_high: if side == 0 {
            tap
        } else {
            ONE
        },
        tap_low: if side == 1 {
            tap
        } else {
            ONE
        },
        phases: clamp3(whole(math, v[10])),
    }
}

/// Columns of a transformer that the mapping reads.
pub open spec fn xf_consumed() -> Seq<Seq<char>> {
    seq!["typ_id"@, "nntap"@, "outserv"@, "ntnum"@, "ratfac"@, "cgnd_h"@, "cgnd_l"@]
}

/// Columns of its type that the model has no place for.
pub open spec fn xf_kept() -> Seq<Seq<char>> {
    seq!["nt2ag"@, "curmg"@, "pfe"@, "tr2cn_h"@, "tr2cn_l"@]
}

pub open spec fn kept_n(
    e: Entries,
    tt: DgsTableV,
    tr: DgsRowV,
    names: Seq<Seq<char>>,
    n: nat,
) -> Entries
    decreases n,
{
    if n == 0 {
        e
    } else {
        let before = kept_n(e, tt, tr, names, (n - 1) as nat);
        match tt.cell(tr, names[n - 1]) {
            Some(v) => put_of(before, "dgs_"@ + names[n - 1], JsonV::Str(v)),
            None => before,
        }
    }
}

/// What a transformer row leaves over, with the clock and magnetizing data of
/// its type.
#[verifier::opaque]
pub open spec fn xf_extras_of(t: DgsTableV, r: DgsRowV, tt: DgsTableV, tr: DgsRowV) -> Entries {
    kept_n(extras_of(t, r, xf_consumed()), tt, tr, xf_kept(), 5)
}

fn xf_extras(t: &DgsTable, r: &DgsRow, tt: &DgsTable, tr: &DgsRow) -> (e: JsonMap)
    ensures
        e@ == xf_extras_of(t@, r@, tt@, tr@),
{
    reveal(xf_extras_of);
    let consumed: Vec<&'static str> = vec![
        "typ_id",
        "nntap",
        "outserv",
        "ntnum",
        "ratfac",
        "cgnd_h",
        "cgnd_l",
    ];
    assert(views(consumed@) =~= xf_consumed());
    let names: Vec<&'static str> = vec!["nt2ag", "curmg", "pfe", "tr2cn_h", "tr2cn_l"];
    assert(views(names@) =~= xf_kept());
    let mut e = extras(t, r, &consumed);
    let ghost start = e@;
    let mut i: usize = 0;
    while i < names.len()
        invariant
            i <= names.len(),
            names.len() == 5,
            views(names@) == xf_kept(),
            e@ == kept_n(start, tt@, tr@, xf_kept(), i as nat),
        decreases names.len() - i,
    {
        broadcast use lemma_json_view;

        assert(views(names@)[i as int] == names@[i as int]@);
        match tt.cell(tr, names[i]) {
            Some(v) => {
                e.put(cat2("dgs_", names[i]), Json::text(v.as_str()));
            },
            None => {},
        }
        i = i + 1;
    }
    e
}

/// A winding at a bus: its conductors are seen there, with the neutral where it
/// is a wye.
pub open spec fn is_wye(c: WindingConn) -> bool {
    c == WindingConn::Wye
}

/// The state, and the transformers.
pub struct XfsV {
    pub st: ReaderV,
    pub xfs: Seq<DistTransformerV>,
}

/// A two-winding transformer in service.
#[verifier::opaque]
pub open spec fn placed_two(
    case: CaseV,
    x: XfsV,
    t: DgsTableV,
    r: DgsRowV,
    ty: (DgsTableV, DgsRowV),
    ends: (ConnV, ConnV),
    k: TwoRatings,
) -> XfsV {
    let (tt, tr) = ty;
    let high = case.root(ends.0.pos);
    let low = case.root(ends.1.pos);
    let ch = winding_conn_of(tt.text(tr, "tr2cn_h"@)).0;
    let cl = winding_conn_of(tt.text(tr, "tr2cn_l"@)).0;
    let phases = first_phases(k.phases as nat);
    let st = x.st.touch(high, phases, is_wye(ch)).touch(low, phases, is_wye(cl));
    let wh = WindingV {
        r_pct: k.r_pct,
        tap: k.tap_high,
        ..winding_of(
            st.bus_id(high),
            terminals_of(phases, is_wye(ch)),
            ch,
            k.v_high,
            k.s_rating,
        )
    };
    let wl = WindingV {
        r_pct: k.r_pct,
        tap: k.tap_low,
        ..winding_of(st.bus_id(low), terminals_of(phases, is_wye(cl)), cl, k.v_low, k.s_rating)
    };
    let raw = raw_name(t, r);
    XfsV {
        st: st.name_elem(raw),
        xfs: x.xfs.push(
            DistTransformerV {
                extras: xf_extras_of(t, r, tt, tr),
                ..dist_transformer_of(
                    st.elem_name(raw),
                    seq![wh, wl],
                    seq![k.x_pct],
                    k.phases,
                )
            },
        ),
    }
}

/// A two-winding transformer read. One without two terminals is warned of; one
/// that is out of service or behind an open switch is counted.
pub open spec fn two_step(m: Sem, case: CaseV, x: XfsV, t: DgsTableV, r: DgsRowV) -> Outcome<XfsV> {
    let d = case.doc.decimal;
    match two_of(case.conns, t.id_of(r)) {
        None => Ok(XfsV { st: x.st.unconnected("ElmTr2"@, t.id_of(r)), ..x }),
        Some(ends) => match int_of(m, d, t, r, "outserv"@, ZERO) {
            Err(e) => Err(e),
            Ok(out) => if out != 0 || !ends.0.closed || !ends.1.closed {
                Ok(XfsV { st: x.st.skip("ElmTr2"@), ..x })
            } else {
                match type_of(case.doc, t, r, "TypTr2"@) {
                    Err(e) => Err(e),
                    Ok(ty) => {
                        let column = resistance_column(ty.0, ty.1);
                        match numbers_of(m, d, (t, r), ty, two_asks(column)) {
                            Err(e) => Err(e),
                            Ok(v) => Ok(
                                placed_two(
                                    case,
                                    x,
                                    t,
                                    r,
                                    ty,
                                    ends,
                                    two_ratings_of(m, v, ty.0.cell(ty.1, "uktrr"@) is Some),
                                ),
                            ),
                        }
                    },
                }
            },
        },
    }
}

pub open spec fn xfs_view(st: ReaderV, xfs: Seq<DistTransformer>) -> XfsV {
    XfsV { st, xfs: views(xfs) }
}

fn place_two(
    case: &Case,
    st: &mut Reader,
    xfs: &mut Vec<DistTransformer>,
    t: &DgsTable,
    r: &DgsRow,
    tt: &DgsTable,
    tr: &DgsRow,
    a: &Conn,
    b: &Conn,
    k: TwoRatings,
)
    requires
        k.phases <= 3,
        a.pos < case.roots@.len(),
        b.pos < case.roots@.len(),
    ensures
        xfs_view(final(st)@, final(xfs)@) == placed_two(
            case@,
            xfs_view(old(st)@, old(xfs)@),
            t@,
            r@,
            (tt@, tr@),
            (a@, b@),
            k,
        ),
{
    broadcast use group_views;

    reveal(placed_two);
    let id = t.id_of(r);
    let high = case.roots[a.pos];
    let low = case.roots[b.pos];
    let ch = winding_conn(tt.text(tr, "tr2cn_h")).0;
    let cl = winding_conn(tt.text(tr, "tr2cn_l")).0;
    let wye_h = ch == WindingConn::Wye;
    let wye_l = cl == WindingConn::Wye;
    let phases = phases_up_to(k.phases);
    st.touch(high, &phases, wye_h);
    st.touch(low, &phases, wye_l);
    let bh = st.bus_id(high);
    let bl = st.bus_id(low);
    let mut wh = Winding::new(bh, phase_terminals(&phases, wye_h), ch, k.v_high, k.s_rating);
    wh.r_pct = k.r_pct;
    wh.tap = k.tap_high;
    let mut wl = Winding::new(bl, phase_terminals(&phases, wye_l), cl, k.v_low, k.s_rating);
    wl.r_pct = k.r_pct;
    wl.tap = k.tap_low;
    let raw = raw_name_of(t, r, id.as_str());
    let name = st.name_elem(raw.as_str());
    let ghost whv = wh@;
    let ghost wlv = wl@;
    let mut windings: Vec<Winding> = Vec::new();
    windings.push(wh);
    windings.push(wl);
    assert(views(windings@) =~= seq![whv, wlv]);
    let mut xsc: Vec<Bits> = Vec::new();
    xsc.push(k.x_pct);
    assert(xsc@ =~= seq![k.x_pct]);
    let mut xf = DistTransformer::new(name, windings, xsc, k.phases);
    xf.extras = xf_extras(t, r, tt, tr);
    xfs.push(xf);
}

fn read_two<C: Calc>(
    math: &C,
    case: &Case,
    st: &mut Reader,
    xfs: &mut Vec<DistTransformer>,
    t: &DgsTable,
    r: &DgsRow,
) -> (x: Result<()>)
    requires
        case@.wf(),
    ensures
        match x {
            Ok(_) => two_step(math.sem(), case@, xfs_view(old(st)@, old(xfs)@), t@, r@) == Ok::<
                XfsV,
                ErrorV,
            >(xfs_view(final(st)@, final(xfs)@)),
            Err(e) => two_step(math.sem(), case@, xfs_view(old(st)@, old(xfs)@), t@, r@) == Err::<
                XfsV,
                ErrorV,
            >(e@),
        },
{
    let d = case.doc.decimal;
    let id = t.id_of(r);
    let (a, b) = match two_terminals(&case.conns, id.as_str(), Ghost(case.roots@.len())) {
        Some(p) => p,
        None => {
            st.unconnected("ElmTr2", id.as_str());
            return Ok(());
        },
    };
    let out = match integer(math, d, t, r, "outserv", ZERO) {
        Ok(x) => x,
        Err(e) => {
            return Err(e);
        },
    };
    if out != 0 || !a.closed || !b.closed {
        st.skip("ElmTr2");
        return Ok(());
    }
    let (tt, tr) = match find_type(case.doc, t, r, "TypTr2") {
        Ok(p) => p,
        Err(e) => {
            return Err(e);
        },
    };
    let percent = tt.cell(tr, "uktrr").is_some();
    let asks = two_ask_list(percent);
    let v = match numbers(math, d, (t, r), (tt, tr), &asks) {
        Ok(v) => v,
        Err(e) => {
            return Err(e);
        },
    };
    let k = two_ratings(math, &v, percent);
    place_two(case, st, xfs, t, r, tt, tr, a, b, k);
    Ok(())
}

// ---- three windings --------------------------------------------------------

/// What is asked of a three-winding type.
pub open spec fn three_asks() -> Seq<(bool, Seq<char>, Bits)> {
    seq![
        (true, "uktr3_h"@, ZERO),
        (true, "ur3tr_h"@, ZERO),
        (true, "uktr3_l"@, ZERO),
        (true, "ur3tr_l"@, ZERO),
        (true, "uktr3_m"@, ZERO),
        (true, "ur3tr_m"@, ZERO),
        (true, "utrn3_h"@, ZERO),
        (true, "strn3_h"@, ZERO),
        (true, "utrn3_m"@, ZERO),
        (true, "strn3_m"@, ZERO),
        (true, "utrn3_l"@, ZERO),
        (true, "strn3_l"@, ZERO),
    ]
}

fn three_ask_list() -> (r: Vec<(bool, &'static str, Bits)>)
    ensures
        views(r@) == three_asks(),
        r.len() == 12,
{
    let r: Vec<(bool, &'static str, Bits)> = vec![
        (true, "uktr3_h", ZERO),
        (true, "ur3tr_h", ZERO),
        (true, "uktr3_l", ZERO),
        (true, "ur3tr_l", ZERO),
        (true, "uktr3_m", ZERO),
        (true, "ur3tr_m", ZERO),
        (true, "utrn3_h", ZERO),
        (true, "strn3_h", ZERO),
        (true, "utrn3_m", ZERO),
        (true, "strn3_m", ZERO),
        (true, "utrn3_l", ZERO),
        (true, "strn3_l", ZERO),
    ];
    assert(views(r@) =~= three_asks());
    r
}

/// A winding of a three-winding transformer, and the state once its conductors
/// are seen.
pub open spec fn third_of(
    m: Sem,
    st: ReaderV,
    root: int,
    ty: (DgsTableV, DgsRowV),
    column: Seq<char>,
    kv: Bits,
    mva: Bits,
) -> (ReaderV, WindingV) {
    let conn = winding_conn_of(ty.0.text(ty.1, column)).0;
    let phases = first_phases(3);
    let st = st.touch(root, phases, is_wye(conn));
    (
        st,
        winding_of(
            st.bus_id(root),
            terminals_of(phases, is_wye(conn)),
            conn,
            m.times(kv, THOUSAND),
            m.times(mva, MILLION),
        ),
    )
}

fn third<C: Calc>(
    math: &C,
    st: &mut Reader,
    root: usize,
    tt: &DgsTable,
    tr: &DgsRow,
    column: &str,
    kv: Bits,
    mva: Bits,
) -> (w: Winding)
    ensures
        (final(st)@, w@) == third_of(
            math.sem(),
            old(st)@,
            root as int,
            (tt@, tr@),
            column@,
            kv,
            mva,
        ),
{
    let conn = winding_conn(tt.text(tr, column)).0;
    let wye = conn == WindingConn::Wye;
    let phases = phases_up_to(3);
    st.touch(root, &phases, wye);
    let bus = st.bus_id(root);
    Winding::new(
        bus,
        phase_terminals(&phases, wye),
        conn,
        times(math, kv, THOUSAND),
        times(math, mva, MILLION),
    )
}

/// A three-winding transformer in service, from the numbers asked of its type.
#[verifier::opaque]
pub open spec fn placed_three(
    m: Sem,
    case: CaseV,
    x: XfsV,
    t: DgsTableV,
    r: DgsRowV,
    ty: (DgsTableV, DgsRowV),
    ends: (ConnV, ConnV, ConnV),
    v: Seq<Bits>,
) -> XfsV {
    let (s1, w1) = third_of(m, x.st, case.root(ends.0.pos), ty, "tr3cn_h"@, v[6], v[7]);
    let (s2, w2) = third_of(m, s1, case.root(ends.1.pos), ty, "tr3cn_m"@, v[8], v[9]);
    let (s3, w3) = third_of(m, s2, case.root(ends.2.pos), ty, "tr3cn_l"@, v[10], v[11]);
    let raw = raw_name(t, r);
    XfsV {
        st: s3.name_elem(raw),
        xfs: x.xfs.push(
            dist_transformer_of(
                s3.elem_name(raw),
                seq![w1, w2, w3],
                seq![
                    reactive(m, v[0], v[1]),
                    reactive(m, v[2], v[3]),
                    reactive(m, v[4], v[5]),
                ],
                3,
            ),
        ),
    }
}

/// The connections of an element with three terminals.
pub open spec fn three_of(conns: Seq<ConnV>, id: Seq<char>) -> Option<(ConnV, ConnV, ConnV)> {
    match (side_of(conns, id, 0), side_of(conns, id, 1), side_of(conns, id, 2)) {
        (Some(a), Some(b), Some(c)) => Some((a, b, c)),
        _ => None,
    }
}

/// A three-winding transformer read. One without three terminals is warned of;
/// one that is out of service or behind an open switch is counted.
pub open spec fn three_step(
    m: Sem,
    case: CaseV,
    x: XfsV,
    t: DgsTableV,
    r: DgsRowV,
) -> Outcome<XfsV> {
    let d = case.doc.decimal;
    match three_of(case.conns, t.id_of(r)) {
        None => Ok(XfsV { st: x.st.unconnected("ElmTr3"@, t.id_of(r)), ..x }),
        Some(ends) => match int_of(m, d, t, r, "outserv"@, ZERO) {
            Err(e) => Err(e),
            Ok(out) => if out != 0 || !ends.0.closed || !ends.1.closed || !ends.2.closed {
                Ok(XfsV { st: x.st.skip("ElmTr3"@), ..x })
            } else {
                match type_of(case.doc, t, r, "TypTr3"@) {
                    Err(e) => Err(e),
                    Ok(ty) => match numbers_of(m, d, (t, r), ty, three_asks()) {
                        Err(e) => Err(e),
                        Ok(v) => Ok(placed_three(m, case, x, t, r, ty, ends, v)),
                    },
                }
            },
        },
    }
}

fn place_three<C: Calc>(
    math: &C,
    case: &Case,
    st: &mut Reader,
    xfs: &mut Vec<DistTransformer>,
    t: &DgsTable,
    r: &DgsRow,
    tt: &DgsTable,
    tr: &DgsRow,
    a: &Conn,
    b: &Conn,
    c: &Conn,
    v: &Vec<Bits>,
)
    requires
        a.pos < case.roots@.len(),
        b.pos < case.roots@.len(),
        c.pos < case.roots@.len(),
        v.len() == 12,
    ensures
        xfs_view(final(st)@, final(xfs)@) == placed_three(
            math.sem(),
            case@,
            xfs_view(old(st)@, old(xfs)@),
            t@,
            r@,
            (tt@, tr@),
            (a@, b@, c@),
            v@,
        ),
{
    broadcast use group_views;

    reveal(placed_three);
    let id = t.id_of(r);
    let w1 = third(math, st, case.roots[a.pos], tt, tr, "tr3cn_h", v[6], v[7]);
    let w2 = third(math, st, case.roots[b.pos], tt, tr, "tr3cn_m", v[8], v[9]);
    let w3 = third(math, st, case.roots[c.pos], tt, tr, "tr3cn_l", v[10], v[11]);
    let raw = raw_name_of(t, r, id.as_str());
    let name = st.name_elem(raw.as_str());
    let ghost list = seq![w1@, w2@, w3@];
    let mut windings: Vec<Winding> = Vec::new();
    windings.push(w1);
    windings.push(w2);
    windings.push(w3);
    assert(views(windings@) =~= list);
    let mut xsc: Vec<Bits> = Vec::new();
    xsc.push(reactive_part(math, v[0], v[1]));
    xsc.push(reactive_part(math, v[2], v[3]));
    xsc.push(reactive_part(math, v[4], v[5]));
    assert(xsc@ =~= seq![
        reactive(math.sem(), v@[0], v@[1]),
        reactive(math.sem(), v@[2], v@[3]),
        reactive(math.sem(), v@[4], v@[5]),
    ]);
    xfs.push(DistTransformer::new(name, windings, xsc, 3));
}

fn read_three<C: Calc>(
    math: &C,
    case: &Case,
    st: &mut Reader,
    xfs: &mut Vec<DistTransformer>,
    t: &DgsTable,
    r: &DgsRow,
) -> (x: Result<()>)
    requires
        case@.wf(),
    ensures
        match x {
            Ok(_) => three_step(math.sem(), case@, xfs_view(old(st)@, old(xfs)@), t@, r@) == Ok::<
                XfsV,
                ErrorV,
            >(xfs_view(final(st)@, final(xfs)@)),
            Err(e) => three_step(math.sem(), case@, xfs_view(old(st)@, old(xfs)@), t@, r@)
                == Err::<XfsV, ErrorV>(e@),
        },
{
    let d = case.doc.decimal;
    let id = t.id_of(r);
    let ghost n = case.roots@.len();
    let (a, b, c) = match (
        at_side(&case.conns, id.as_str(), 0, Ghost(n)),
        at_side(&case.conns, id.as_str(), 1, Ghost(n)),
        at_side(&case.conns, id.as_str(), 2, Ghost(n)),
    ) {
        (Some(a), Some(b), Some(c)) => (a, b, c),
        _ => {
            st.unconnected("ElmTr3", id.as_str());
            return Ok(());
        },
    };
    let out = match integer(math, d, t, r, "outserv", ZERO) {
        Ok(x) => x,
        Err(e) => {
            return Err(e);
        },
    };
    if out != 0 || !a.closed || !b.closed || !c.closed {
        st.skip("ElmTr3");
        return Ok(());
    }
    let (tt, tr) = match find_type(case.doc, t, r, "TypTr3") {
        Ok(p) => p,
        Err(e) => {
            return Err(e);
        },
    };
    let asks = three_ask_list();
    let v = match numbers(math, d, (t, r), (tt, tr), &asks) {
        Ok(v) => v,
        Err(e) => {
            return Err(e);
        },
    };
    place_three(math, case, st, xfs, t, r, tt, tr, a, b, c, &v);
    Ok(())
}

// ---- all transformers ------------------------------------------------------

pub open spec fn xf_step(
    m: Sem,
    case: CaseV,
    three: bool,
    x: XfsV,
    t: DgsTableV,
    r: DgsRowV,
) -> Outcome<
    XfsV,
> {
    if three {
        three_step(m, case, x, t, r)
    } else {
        two_step(m, case, x, t, r)
    }
}

pub open spec fn xfs_n(
    m: Sem,
    case: CaseV,
    three: bool,
    x: XfsV,
    t: DgsTableV,
    n: nat,
) -> Outcome<XfsV>
    decreases n,
{
    if n == 0 {
        Ok(x)
    } else {
        match xfs_n(m, case, three, x, t, (n - 1) as nat) {
            Err(e) => Err(e),
            Ok(x) => xf_step(m, case, three, x, t, t.rows[n - 1]),
        }
    }
}

proof fn lemma_xfs_stop(m: Sem, case: CaseV, three: bool, x: XfsV, t: DgsTableV, k: nat, n: nat)
    requires
        k <= n,
        xfs_n(m, case, three, x, t, k) is Err,
    ensures
        xfs_n(m, case, three, x, t, n) == xfs_n(m, case, three, x, t, k),
    decreases n,
{
    if k < n {
        lemma_xfs_stop(m, case, three, x, t, k, (n - 1) as nat);
    }
}

pub open spec fn table_xfs(m: Sem, case: CaseV, three: bool, x: XfsV) -> Outcome<XfsV> {
    let class = if three {
        "ElmTr3"@
    } else {
        "ElmTr2"@
    };
    match case.doc.table(class) {
        Some(t) => xfs_n(m, case, three, x, t, t.rows.len()),
        None => Ok(x),
    }
}

/// The transformers of a case: those of two windings, then those of three.
#[verifier::opaque]
pub open spec fn transformers_of(m: Sem, case: CaseV, st: ReaderV) -> Outcome<XfsV> {
    match table_xfs(m, case, false, XfsV { st, xfs: seq![] }) {
        Err(e) => Err(e),
        Ok(x) => table_xfs(m, case, true, x),
    }
}

fn read_table<C: Calc>(
    math: &C,
    case: &Case,
    three: bool,
    st: &mut Reader,
    xfs: &mut Vec<DistTransformer>,
) -> (x: Result<()>)
    requires
        case@.wf(),
    ensures
        match x {
            Ok(_) => table_xfs(math.sem(), case@, three, xfs_view(old(st)@, old(xfs)@)) == Ok::<
                XfsV,
                ErrorV,
            >(xfs_view(final(st)@, final(xfs)@)),
            Err(e) => table_xfs(math.sem(), case@, three, xfs_view(old(st)@, old(xfs)@)) == Err::<
                XfsV,
                ErrorV,
            >(e@),
        },
{
    let ghost before = xfs_view(st@, xfs@);
    let class = if three {
        "ElmTr3"
    } else {
        "ElmTr2"
    };
    let t = match case.doc.table(class) {
        Some(t) => t,
        None => {
            return Ok(());
        },
    };
    assert(t@.rows.len() == t.rows.len());
    let mut i: usize = 0;
    while i < t.rows.len()
        invariant
            i <= t.rows.len(),
            t@.rows.len() == t.rows.len(),
            case@.wf(),
            before == xfs_view(old(st)@, old(xfs)@),
            table_xfs(math.sem(), case@, three, before) == xfs_n(
                math.sem(),
                case@,
                three,
                before,
                t@,
                t@.rows.len(),
            ),
            xfs_n(math.sem(), case@, three, before, t@, i as nat) == Ok::<XfsV, ErrorV>(
                xfs_view(st@, xfs@),
            ),
        decreases t.rows.len() - i,
    {
        assert(t@.rows[i as int] == t.rows@[i as int]@);
        let r = if three {
            read_three(math, case, st, xfs, t, &t.rows[i])
        } else {
            read_two(math, case, st, xfs, t, &t.rows[i])
        };
        match r {
            Ok(_) => {},
            Err(e) => {
                proof {
                    lemma_xfs_stop(
                        math.sem(),
                        case@,
                        three,
                        before,
                        t@,
                        (i + 1) as nat,
                        t@.rows.len(),
                    );
                }
                return Err(e);
            },
        }
        i = i + 1;
    }
    Ok(())
}

pub fn transformers<C: Calc>(math: &C, case: &Case, st: &mut Reader) -> (x: Result<
    Vec<DistTransformer>,
>)
    requires
        case@.wf(),
    ensures
        match x {
            Ok(p) => transformers_of(math.sem(), case@, old(st)@) == Ok::<XfsV, ErrorV>(
                xfs_view(final(st)@, p@),
            ),
            Err(e) => transformers_of(math.sem(), case@, old(st)@) == Err::<XfsV, ErrorV>(e@),
        },
{
    broadcast use group_views;

    reveal(transformers_of);
    let mut xfs: Vec<DistTransformer> = Vec::new();
    assert(views(xfs@) =~= seq![]);
    match read_table(math, case, false, st, &mut xfs) {
        Ok(_) => {},
        Err(e) => {
            return Err(e);
        },
    }
    match read_table(math, case, true, st, &mut xfs) {
        Ok(_) => {},
        Err(e) => {
            return Err(e);
        },
    }
    Ok(xfs)
}

} // verus!
