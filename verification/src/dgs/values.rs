//! What the elements of a network that is read have from the cells of their rows.

use vstd::prelude::*;

use crate::dgs::injections::{
    grid_consumed, load_consumed, machine_consumed, shunt_consumed, class_of, element_of,
    element_step, elements_n, grid_asks, injections_of, limit_of, limits_of, load_asks,
    load_power_of, loads_of, machine_asks, placed_grid, placed_load, placed_machine, placed_shunt,
    shunt_asks, single_of, InjV, Kind, LimitsV,
};
use crate::dgs::scan::{cell_at, num_of, whole_of, DgsDocV, DgsRowV, DgsTableV};
use crate::dgs::state::{
    extras_n, extras_of, base_of, free_from, numbered_name, numbers_n, numbers_of, sanitize_of,
    unique_of, CaseV, ReaderV,
};
use crate::dgs::topology::{one_of, resolve_of, two_of, ConnV};
use crate::dgs::transformers::{
    kept_n, xf_consumed, xf_extras_of, xf_kept, placed_three, placed_two, resistance_column,
    table_xfs, three_asks, three_of, three_step, transformers_of, two_asks, two_ratings_of,
    two_step, type_of, winding_conn_of, xf_step, xfs_n, XfsV,
};
use crate::error::{ErrorV, Outcome};
use crate::math::{
    abs_of, num_lt, Bits, Sem, HUNDRED, MILLION, MINUS_ONE, NANO, ONE, PICO, TAU, TEN, THOUSAND,
    THREE, TWO, ZERO,
};
use crate::model::{
    Configuration, DistGeneratorV, DistLoadV, DistLoadVoltageModelV, DistShuntV, DistTransformerV,
    VoltageSourceV, WindingConn, WindingV,
};
use crate::json::{get_of, Entries, JsonV};
use crate::numeral::dec_of;
use crate::ravens::survive::{lemma_get_none, lemma_get_put};
use crate::text::{has_prefix, lower_of, trim_of};

verus! {

// ---- cells -----------------------------------------------------------------

/// The number in a cell of a row, or another where the cell is empty.
pub open spec fn told(
    m: Sem,
    doc: DgsDocV,
    e: (DgsTableV, DgsRowV),
    name: Seq<char>,
    default: Bits,
) -> Bits {
    match num_of(m, doc.decimal, e.0, e.1, name, default) {
        Ok(x) => x,
        Err(_) => default,
    }
}

pub proof fn lemma_numbers(
    m: Sem,
    doc: DgsDocV,
    el: (DgsTableV, DgsRowV),
    ty: (DgsTableV, DgsRowV),
    asks: Seq<(bool, Seq<char>, Bits)>,
    n: nat,
)
    requires
        n <= asks.len(),
    ensures
        numbers_n(m, doc.decimal, el, ty, asks, n) matches Ok(v) ==> v.len() == n && forall|i: int|
            0 <= i < n ==> #[trigger] v[i] == told(
                m,
                doc,
                if asks[i].0 {
                    ty
                } else {
                    el
                },
                asks[i].1,
                asks[i].2,
            ),
    decreases n,
{
    if n > 0 {
        lemma_numbers(m, doc, el, ty, asks, (n - 1) as nat);
    }
}

// ---- buses -----------------------------------------------------------------

/// What stands fast of the buses: which there are, their names and their volts.
pub open spec fn anchors(st: ReaderV) -> Seq<(bool, Seq<char>, Bits)> {
    Seq::new(st.bus.len(), |i: int| (st.bus[i].live, st.bus[i].id, st.bus[i].uknom))
}

/// A document with its topology resolved, and its buses.
pub struct SiteV {
    pub case: CaseV,
    pub buses: Seq<(bool, Seq<char>, Bits)>,
}

impl SiteV {
    /// The name of the bus of a terminal.
    pub open spec fn bus(self, c: ConnV) -> Seq<char> {
        let r = self.case.root(c.pos);
        if 0 <= r < self.buses.len() && self.buses[r].0 {
            self.buses[r].1
        } else {
            seq![]
        }
    }

    /// The kilovolts of the bus of a terminal.
    pub open spec fn kv(self, c: ConnV) -> Bits {
        let r = self.case.root(c.pos);
        if 0 <= r < self.buses.len() && self.buses[r].0 {
            self.buses[r].2
        } else {
            ZERO
        }
    }
}

pub broadcast proof fn lemma_warn_anchors(st: ReaderV, x: Seq<char>)
    ensures
        anchors(#[trigger] st.warn(x)) == anchors(st),
{
    reveal(ReaderV::warn);
}

pub broadcast proof fn lemma_skip_anchors(st: ReaderV, x: Seq<char>)
    ensures
        anchors(#[trigger] st.skip(x)) == anchors(st),
{
    reveal(ReaderV::skip);
}

pub broadcast proof fn lemma_default_anchors(st: ReaderV, x: Seq<char>)
    ensures
        anchors(#[trigger] st.default_phase(x)) == anchors(st),
{
    reveal(ReaderV::default_phase);
}

pub broadcast proof fn lemma_name_anchors(st: ReaderV, x: Seq<char>)
    ensures
        anchors(#[trigger] st.name_elem(x)) == anchors(st),
{
    reveal(ReaderV::name_elem);
}

pub broadcast proof fn lemma_code_anchors(st: ReaderV, x: Seq<char>)
    ensures
        anchors(#[trigger] st.name_linecode(x)) == anchors(st),
{
    reveal(ReaderV::name_linecode);
}

pub broadcast proof fn lemma_remember_anchors(st: ReaderV, x: Seq<char>, y: Seq<char>)
    ensures
        anchors(#[trigger] st.remember(x, y)) == anchors(st),
{
    reveal(ReaderV::remember);
}

pub broadcast proof fn lemma_explicit_anchors(st: ReaderV, n: nat)
    ensures
        anchors(#[trigger] st.say_explicit(n)) == anchors(st),
{
    reveal(ReaderV::say_explicit);
    reveal(ReaderV::warn);
}

pub broadcast proof fn lemma_expanded_anchors(st: ReaderV)
    ensures
        anchors(#[trigger] st.say_expanded()) == anchors(st),
{
    reveal(ReaderV::say_expanded);
    reveal(ReaderV::warn);
}

pub broadcast proof fn lemma_no_zero_anchors(st: ReaderV)
    ensures
        anchors(#[trigger] st.say_no_zero()) == anchors(st),
{
    reveal(ReaderV::say_no_zero);
    reveal(ReaderV::warn);
}

pub broadcast proof fn lemma_two_phase_anchors(st: ReaderV)
    ensures
        anchors(#[trigger] st.say_two_phase()) == anchors(st),
{
    reveal(ReaderV::say_two_phase);
    reveal(ReaderV::warn);
}

pub broadcast proof fn lemma_touch_anchors(st: ReaderV, root: int, phases: Seq<u8>, neutral: bool)
    ensures
        anchors(#[trigger] st.touch(root, phases, neutral)) == anchors(st),
{
    reveal(ReaderV::touch);
    assert(anchors(st.touch(root, phases, neutral)) =~= anchors(st));
}

pub broadcast proof fn lemma_bus_id(st: ReaderV, root: int)
    ensures
        #[trigger] st.bus_id(root) == if 0 <= root < anchors(st).len() && anchors(st)[root].0 {
            anchors(st)[root].1
        } else {
            seq![]
        },
{
}

pub broadcast proof fn lemma_bus_kv(st: ReaderV, root: int)
    ensures
        #[trigger] st.bus_uknom(root) == if 0 <= root < anchors(st).len() && anchors(st)[root].0 {
            anchors(st)[root].2
        } else {
            ZERO
        },
{
}

pub broadcast group group_anchors {
    lemma_warn_anchors,
    lemma_skip_anchors,
    lemma_default_anchors,
    lemma_name_anchors,
    lemma_code_anchors,
    lemma_remember_anchors,
    lemma_explicit_anchors,
    lemma_expanded_anchors,
    lemma_no_zero_anchors,
    lemma_two_phase_anchors,
    lemma_touch_anchors,
    lemma_bus_id,
    lemma_bus_kv,
    lemma_goes_by,
}

// ---- wires -----------------------------------------------------------------

/// The wires `1` to `n`, and the neutral where there is one.
pub open spec fn are_wires(map: Seq<Seq<char>>, n: nat, neutral: bool) -> bool {
    &&& map.len() == if neutral {
        n + 1
    } else {
        n
    }
    &&& forall|i: int| 0 <= i < n ==> #[trigger] map[i] == dec_of((i + 1) as nat)
    &&& neutral ==> map[n as int] == "4"@
}

/// The same number for each of `n` phases.
pub open spec fn all_are(v: Seq<Bits>, n: nat, x: Bits) -> bool {
    v.len() == n && forall|i: int| 0 <= i < n ==> #[trigger] v[i] == x
}

/// The connection of a vector-group code: delta where it begins with a `d`.
pub open spec fn is_delta(code: Option<Seq<char>>) -> bool {
    match code {
        Some(c) => has_prefix(lower_of(trim_of(c)), "d"@),
        None => false,
    }
}

proof fn lemma_connection(code: Option<Seq<char>>)
    ensures
        (winding_conn_of(code).0 == WindingConn::Delta) == is_delta(code),
{
    reveal_strlit("Y");
    reveal_strlit("d");
    if code is None {
        lemma_wye();
    }
}

proof fn lemma_wye()
    ensures
        !has_prefix(lower_of(trim_of("Y"@)), "d"@),
{
    reveal_strlit("Y");
    reveal_strlit("d");
    let y = trim_of("Y"@);
    assert(y =~= seq!['Y']) by {
        reveal_with_fuel(crate::text::skip_spaces, 2);
        reveal_with_fuel(crate::text::back_spaces, 2);
    }
    assert(lower_of(y).subrange(0, 1)[0] == 'y' && "d"@[0] == 'd');
}

// ---- names -----------------------------------------------------------------

/// A name made of a raw one: the raw one in plain characters, or another where
/// nothing is left of it, with a number behind it where the name is taken.
pub open spec fn is_named(name: Seq<char>, raw: Seq<char>, other: Seq<char>) -> bool {
    let plain = sanitize_of(raw);
    let base = if plain.len() == 0 {
        other
    } else {
        plain
    };
    name == base || exists|n: nat| name == base + "_"@ + #[trigger] dec_of(n)
}

/// The name of an element is made of that of its row, or of its identity where it
/// has none.
pub open spec fn goes_by(name: Seq<char>, e: (DgsTableV, DgsRowV)) -> bool {
    is_named(
        name,
        match e.0.text(e.1, "loc_name"@) {
            Some(n) => n,
            None => e.0.id_of(e.1),
        },
        "elem"@,
    )
}

proof fn lemma_free(used: Seq<Seq<char>>, base: Seq<char>, n: nat)
    ensures
        exists|k: nat| free_from(used, base, n) == base + "_"@ + #[trigger] dec_of(k),
    decreases used.len() - n,
{
    if n < used.len() && used.contains(numbered_name(base, n)) {
        lemma_free(used, base, n + 1);
    } else {
        assert(free_from(used, base, n) == base + "_"@ + dec_of(n));
    }
}

/// A name that is told apart is made of the raw one.
pub proof fn lemma_unique(used: Seq<Seq<char>>, raw: Seq<char>, other: Seq<char>)
    ensures
        is_named(unique_of(used, base_of(raw, other)), raw, other),
{
    lemma_free(used, base_of(raw, other), 1);
}

pub broadcast proof fn lemma_goes_by(st: ReaderV, raw: Seq<char>)
    ensures
        is_named(#[trigger] st.elem_name(raw), raw, "elem"@),
{
    reveal(ReaderV::elem_name);
    lemma_unique(st.used_elem, raw, "elem"@);
}

// ---- cells without a place -------------------------------------------------

/// A column that every row has.
pub open spec fn is_common(c: Seq<char>) -> bool {
    ||| c == "ID"@
    ||| c == "FID"@
    ||| c == "OP"@
    ||| c == "loc_name"@
    ||| c == "fold_id"@
    ||| c == "chr_name"@
}

/// What the last of the first `n` columns of a name holds, where one holds
/// anything.
pub open spec fn held_n(e: (DgsTableV, DgsRowV), c: Seq<char>, n: nat) -> Option<Seq<char>>
    decreases n,
{
    if n == 0 {
        None
    } else if e.0.columns[n - 1] == c && cell_at(e.1, n - 1) is Some {
        cell_at(e.1, n - 1)
    } else {
        held_n(e, c, (n - 1) as nat)
    }
}

/// A text as a value, where there is one.
pub open spec fn as_text(x: Option<Seq<char>>) -> Option<JsonV> {
    match x {
        Some(v) => Some(JsonV::Str(v)),
        None => None,
    }
}

/// Every cell of a row that is used nowhere else is kept under its column.
pub open spec fn keeps_rest(
    e: (DgsTableV, DgsRowV),
    used: Seq<Seq<char>>,
    extras: Entries,
) -> bool {
    forall|c: Seq<char>| #[trigger]
        get_of(extras, "dgs_"@ + c) == if is_common(c) || used.contains(c) {
            None
        } else {
            as_text(held_n(e, c, e.0.columns.len()))
        }
}

proof fn lemma_prefix(a: Seq<char>, b: Seq<char>)
    ensures
        ("dgs_"@ + a == "dgs_"@ + b) == (a == b),
{
    let p = "dgs_"@;
    if p + a == p + b {
        assert(a =~= (p + a).subrange(p.len() as int, (p + a).len() as int));
        assert(b =~= (p + b).subrange(p.len() as int, (p + b).len() as int));
    }
}

proof fn lemma_rest_n(e: (DgsTableV, DgsRowV), used: Seq<Seq<char>>, n: nat, c: Seq<char>)
    ensures
        get_of(extras_n(e.0, e.1, used, n), "dgs_"@ + c) == if is_common(c) || used.contains(c) {
            None
        } else {
            as_text(held_n(e, c, n))
        },
    decreases n,
{
    broadcast use lemma_get_put;

    if n > 0 {
        lemma_rest_n(e, used, (n - 1) as nat, c);
        lemma_prefix(e.0.columns[n - 1], c);
    } else {
        lemma_get_none("dgs_"@ + c);
        assert(extras_n(e.0, e.1, used, 0) =~= Entries::empty());
    }
}

/// What is kept of a row is the rest of its cells.
pub proof fn lemma_rest(e: (DgsTableV, DgsRowV), used: Seq<Seq<char>>)
    ensures
        keeps_rest(e, used, extras_of(e.0, e.1, used)),
{
    reveal(extras_of);
    assert forall|c: Seq<char>| #[trigger]
        get_of(extras_of(e.0, e.1, used), "dgs_"@ + c) == if is_common(c) || used.contains(c) {
            None
        } else {
            as_text(held_n(e, c, e.0.columns.len()))
        } by {
        lemma_rest_n(e, used, e.0.columns.len(), c);
    }
}

/// Every cell of a row that is used nowhere else is kept under its column, and in
/// its stead the cells of its type that are named.
pub open spec fn keeps_both(
    e: (DgsTableV, DgsRowV),
    ty: (DgsTableV, DgsRowV),
    used: Seq<Seq<char>>,
    more: Seq<Seq<char>>,
    extras: Entries,
) -> bool {
    forall|c: Seq<char>| #[trigger]
        get_of(extras, "dgs_"@ + c) == if more.contains(c) && ty.0.cell(ty.1, c) is Some {
            as_text(ty.0.cell(ty.1, c))
        } else if is_common(c) || used.contains(c) {
            None
        } else {
            as_text(held_n(e, c, e.0.columns.len()))
        }
}

proof fn lemma_kept_n(
    base: Entries,
    ty: (DgsTableV, DgsRowV),
    names: Seq<Seq<char>>,
    n: nat,
    c: Seq<char>,
)
    requires
        n <= names.len(),
    ensures
        get_of(kept_n(base, ty.0, ty.1, names, n), "dgs_"@ + c) == if names.take(
            n as int,
        ).contains(c) && ty.0.cell(ty.1, c) is Some {
            as_text(ty.0.cell(ty.1, c))
        } else {
            get_of(base, "dgs_"@ + c)
        },
    decreases n,
{
    broadcast use lemma_get_put;

    if n > 0 {
        lemma_kept_n(base, ty, names, (n - 1) as nat, c);
        lemma_prefix(names[n - 1], c);
        let a = names.take(n - 1);
        let b = names.take(n as int);
        if a.contains(c) {
            let k = choose|k: int| 0 <= k < a.len() && a[k] == c;
            assert(b[k] == c);
        }
        assert(b[n - 1] == names[n - 1]);
        if b.contains(c) && names[n - 1] != c {
            let k = choose|k: int| 0 <= k < b.len() && b[k] == c;
            assert(a[k] == c);
        }
    }
}

proof fn lemma_both(e: (DgsTableV, DgsRowV), ty: (DgsTableV, DgsRowV))
    ensures
        keeps_both(e, ty, xf_consumed(), xf_kept(), xf_extras_of(e.0, e.1, ty.0, ty.1)),
{
    reveal(xf_extras_of);
    lemma_rest(e, xf_consumed());
    let base = extras_of(e.0, e.1, xf_consumed());
    assert forall|c: Seq<char>| #[trigger]
        get_of(xf_extras_of(e.0, e.1, ty.0, ty.1), "dgs_"@ + c) == if xf_kept().contains(c)
            && ty.0.cell(ty.1, c) is Some {
            as_text(ty.0.cell(ty.1, c))
        } else if is_common(c) || xf_consumed().contains(c) {
            None
        } else {
            as_text(held_n(e, c, e.0.columns.len()))
        } by {
        lemma_kept_n(base, ty, xf_kept(), 5, c);
        assert(xf_kept().take(5) =~= xf_kept());
        assert(get_of(base, "dgs_"@ + c) == if is_common(c) || xf_consumed().contains(c) {
            None
        } else {
            as_text(held_n(e, c, e.0.columns.len()))
        });
    }
}

// ---- transformers ----------------------------------------------------------

/// A winding of a transformer.
pub open spec fn is_winding(
    w: WindingV,
    bus: Seq<char>,
    delta: bool,
    phases: nat,
    volts: Bits,
    va: Bits,
    r_pct: Bits,
    tap: Bits,
) -> bool {
    &&& w.bus == bus
    &&& (w.conn == WindingConn::Delta) == delta
    &&& are_wires(w.terminal_map, phases, !delta)
    &&& w.v_ref == volts
    &&& w.s_rating == va
    &&& w.r_pct == r_pct
    &&& w.tap == tap
    &&& w.r_neutral is None
    &&& w.x_neutral is None
}

/// A two-winding transformer of a row and its type: rated for as many units as
/// there are, with half of the total resistance in each winding, the reactance
/// that the short-circuit voltage leaves beside the resistance, and the tap on the
/// side that the type names, its steps above neutral times their percentage above
/// one.
pub open spec fn is_two(m: Sem, s: SiteV, e: (DgsTableV, DgsRowV), x: DistTransformerV) -> bool {
    let doc = s.case.doc;
    let typ = match e.0.ptr(e.1, "typ_id"@) {
        Some(p) => p,
        None => seq![],
    };
    let ty = resolve_of(doc, typ)->0;
    let strn = m.max(told(m, doc, ty, "strn"@, ZERO), NANO);
    let va = m.times(m.times(strn, MILLION), m.max(told(m, doc, e, "ntnum"@, ONE), ONE));
    let uk = told(m, doc, ty, "uktr"@, ZERO);
    let r = if ty.0.cell(ty.1, "uktrr"@) is Some {
        told(m, doc, ty, "uktrr"@, ZERO)
    } else {
        m.over(told(m, doc, ty, "pcutr"@, ZERO), m.times(TEN, strn))
    };
    let steps = m.minus(told(m, doc, e, "nntap"@, ZERO), told(m, doc, ty, "nntap0"@, ZERO));
    let tap = m.plus(ONE, m.over(m.times(steps, told(m, doc, ty, "dutap"@, ZERO)), HUNDRED));
    let side = whole_of(m, told(m, doc, ty, "tap_side"@, ZERO));
    let asked = whole_of(m, told(m, doc, e, "nphase"@, THREE));
    &&& resolve_of(doc, typ) is Some
    &&& ty.0.class == "TypTr2"@
    &&& two_of(s.case.conns, e.0.id_of(e.1)) matches Some(ends)
    &&& keeps_both(
        e,
        ty,
        seq!["typ_id"@, "nntap"@, "outserv"@, "ntnum"@, "ratfac"@, "cgnd_h"@, "cgnd_l"@],
        seq!["nt2ag"@, "curmg"@, "pfe"@, "tr2cn_h"@, "tr2cn_l"@],
        x.extras,
    )
    &&& goes_by(x.name, e)
    &&& 1 <= x.phases <= 3
    &&& 1 <= asked <= 3 ==> x.phases == asked
    &&& asked < 1 ==> x.phases == 1
    &&& asked > 3 ==> x.phases == 3
    &&& x.windings.len() == 2
    &&& is_winding(
        x.windings[0],
        s.bus(ends.0),
        is_delta(ty.0.text(ty.1, "tr2cn_h"@)),
        x.phases as nat,
        m.times(told(m, doc, ty, "utrn_h"@, ZERO), THOUSAND),
        va,
        m.over(r, TWO),
        if side == 0 {
            tap
        } else {
            ONE
        },
    )
    &&& is_winding(
        x.windings[1],
        s.bus(ends.1),
        is_delta(ty.0.text(ty.1, "tr2cn_l"@)),
        x.phases as nat,
        m.times(told(m, doc, ty, "utrn_l"@, ZERO), THOUSAND),
        va,
        m.over(r, TWO),
        if side == 1 {
            tap
        } else {
            ONE
        },
    )
    &&& all_are(
        x.xsc_pct,
        1,
        m.sqrt(m.max(m.minus(m.times(uk, uk), m.times(r, r)), ZERO)),
    )
}

/// The resistance of a two-winding transformer is shared evenly: its windings have
/// the same, and at most one of them has a tap other than one.
pub proof fn lemma_windings_share(m: Sem, s: SiteV, e: (DgsTableV, DgsRowV), x: DistTransformerV)
    requires
        is_two(m, s, e, x),
    ensures
        x.windings[0].r_pct == x.windings[1].r_pct,
        x.windings[0].s_rating == x.windings[1].s_rating,
        x.windings[0].tap == ONE || x.windings[1].tap == ONE,
{
}

/// The reactance between two windings of a type.
pub open spec fn is_reactance(
    m: Sem,
    doc: DgsDocV,
    ty: (DgsTableV, DgsRowV),
    whole: Seq<char>,
    part: Seq<char>,
    x: Bits,
) -> bool {
    let z = told(m, doc, ty, whole, ZERO);
    let r = told(m, doc, ty, part, ZERO);
    x == m.sqrt(m.max(m.minus(m.times(z, z), m.times(r, r)), ZERO))
}

/// A three-winding transformer of a row and its type.
pub open spec fn is_three(m: Sem, s: SiteV, e: (DgsTableV, DgsRowV), x: DistTransformerV) -> bool {
    let doc = s.case.doc;
    let typ = match e.0.ptr(e.1, "typ_id"@) {
        Some(p) => p,
        None => seq![],
    };
    let ty = resolve_of(doc, typ)->0;
    &&& resolve_of(doc, typ) is Some
    &&& ty.0.class == "TypTr3"@
    &&& three_of(s.case.conns, e.0.id_of(e.1)) matches Some(ends)
    &&& x.extras.len() == 0
    &&& goes_by(x.name, e)
    &&& x.phases == 3
    &&& x.windings.len() == 3
    &&& is_winding(
        x.windings[0],
        s.bus(ends.0),
        is_delta(ty.0.text(ty.1, "tr3cn_h"@)),
        3,
        m.times(told(m, doc, ty, "utrn3_h"@, ZERO), THOUSAND),
        m.times(told(m, doc, ty, "strn3_h"@, ZERO), MILLION),
        ZERO,
        ONE,
    )
    &&& is_winding(
        x.windings[1],
        s.bus(ends.1),
        is_delta(ty.0.text(ty.1, "tr3cn_m"@)),
        3,
        m.times(told(m, doc, ty, "utrn3_m"@, ZERO), THOUSAND),
        m.times(told(m, doc, ty, "strn3_m"@, ZERO), MILLION),
        ZERO,
        ONE,
    )
    &&& is_winding(
        x.windings[2],
        s.bus(ends.2),
        is_delta(ty.0.text(ty.1, "tr3cn_l"@)),
        3,
        m.times(told(m, doc, ty, "utrn3_l"@, ZERO), THOUSAND),
        m.times(told(m, doc, ty, "strn3_l"@, ZERO), MILLION),
        ZERO,
        ONE,
    )
    &&& x.xsc_pct.len() == 3
    &&& is_reactance(m, doc, ty, "uktr3_h"@, "ur3tr_h"@, x.xsc_pct[0])
    &&& is_reactance(m, doc, ty, "uktr3_l"@, "ur3tr_l"@, x.xsc_pct[1])
    &&& is_reactance(m, doc, ty, "uktr3_m"@, "ur3tr_m"@, x.xsc_pct[2])
}

/// What a transformer is to its row, of three windings or of two.
pub open spec fn transformer_rule(m: Sem, s: SiteV) -> spec_fn(
    ((DgsTableV, DgsRowV), bool),
    DistTransformerV,
) -> bool {
    |r: ((DgsTableV, DgsRowV), bool), x: DistTransformerV|
        if r.1 {
            is_three(m, s, r.0, x)
        } else {
            is_two(m, s, r.0, x)
        }
}

/// An element with two terminals is in service: it is on, and the switches at its
/// terminals are closed.
pub open spec fn serves_two(m: Sem, s: SiteV, e: (DgsTableV, DgsRowV)) -> bool {
    is_on(m, s.case.doc, e) && match two_of(s.case.conns, e.0.id_of(e.1)) {
        Some(ends) => ends.0.closed && ends.1.closed,
        None => false,
    }
}

/// An element with three terminals is in service.
pub open spec fn serves_three(m: Sem, s: SiteV, e: (DgsTableV, DgsRowV)) -> bool {
    is_on(m, s.case.doc, e) && match three_of(s.case.conns, e.0.id_of(e.1)) {
        Some(ends) => ends.0.closed && ends.1.closed && ends.2.closed,
        None => false,
    }
}

/// The first `n` rows of a table of transformers that are in service, in order.
pub open spec fn transforming_n(m: Sem, s: SiteV, t: DgsTableV, three: bool, n: nat) -> Rows
    decreases n,
{
    if n == 0 {
        seq![]
    } else {
        let before = transforming_n(m, s, t, three, (n - 1) as nat);
        let e = (t, t.rows[n - 1]);
        if three && serves_three(m, s, e) || !three && serves_two(m, s, e) {
            before.push((e, three))
        } else {
            before
        }
    }
}

/// The rows of a class of transformers that are in service.
pub open spec fn transforming(m: Sem, s: SiteV, three: bool) -> Rows {
    match s.case.doc.table(
        if three {
            "ElmTr3"@
        } else {
            "ElmTr2"@
        },
    ) {
        Some(t) => transforming_n(m, s, t, three, t.rows.len()),
        None => seq![],
    }
}

/// The transformers are those of the rows in service, in order, first those of
/// two windings.
pub open spec fn are_transformers(m: Sem, s: SiteV, x: XfsV) -> bool {
    &&& anchors(x.st) == s.buses
    &&& follows(
        transformer_rule(m, s),
        seq![],
        transforming(m, s, false) + transforming(m, s, true),
        x.xfs,
    )
}

#[verifier::rlimit(60)]
proof fn lemma_two(m: Sem, s: SiteV, x: XfsV, t: DgsTableV, r: DgsRowV)
    requires
        anchors(x.st) == s.buses,
    ensures
        two_step(m, s.case, x, t, r) matches Ok(a) ==> anchors(a.st) == s.buses && if serves_two(
            m,
            s,
            (t, r),
        ) {
            &&& a.xfs.len() == x.xfs.len() + 1
            &&& a.xfs.drop_last() == x.xfs
            &&& is_two(m, s, (t, r), a.xfs.last())
        } else {
            a.xfs == x.xfs
        },
{
    broadcast use group_anchors;

    if let Ok(a) = two_step(m, s.case, x, t, r) {
        if let (Some(ends), Ok(ty)) = (
            two_of(s.case.conns, t.id_of(r)),
            type_of(s.case.doc, t, r, "TypTr2"@),
        ) {
            lemma_both((t, r), ty);
            let column = resistance_column(ty.0, ty.1);
            let asks = two_asks(column);
            lemma_numbers(m, s.case.doc, (t, r), ty, asks, asks.len());
            lemma_connection(ty.0.text(ty.1, "tr2cn_h"@));
            lemma_connection(ty.0.text(ty.1, "tr2cn_l"@));
            if let Ok(v) = numbers_of(m, s.case.doc.decimal, (t, r), ty, asks) {
                let k = two_ratings_of(m, v, ty.0.cell(ty.1, "uktrr"@) is Some);
                let p = placed_two(s.case, x, t, r, ty, ends, k);
                reveal(placed_two);
                assert(p.xfs.drop_last() =~= x.xfs);
                assert(asks[0].1 == "strn"@ && asks[1].1 == "ntnum"@ && asks[2].1 == "utrn_h"@);
                assert(v[0] == told(m, s.case.doc, ty, "strn"@, ZERO));
                assert(v[1] == told(m, s.case.doc, (t, r), "ntnum"@, ONE));
                assert(v[2] == told(m, s.case.doc, ty, "utrn_h"@, ZERO));
                assert(v[3] == told(m, s.case.doc, ty, "utrn_l"@, ZERO));
                assert(v[4] == told(m, s.case.doc, ty, "uktr"@, ZERO));
                assert(v[5] == told(m, s.case.doc, ty, column, ZERO));
                assert(v[6] == told(m, s.case.doc, (t, r), "nntap"@, ZERO));
                assert(v[7] == told(m, s.case.doc, ty, "nntap0"@, ZERO));
                assert(v[8] == told(m, s.case.doc, ty, "dutap"@, ZERO));
                assert(v[9] == told(m, s.case.doc, ty, "tap_side"@, ZERO));
                assert(v[10] == told(m, s.case.doc, (t, r), "nphase"@, THREE));
            }
        }
    }
}

#[verifier::rlimit(60)]
proof fn lemma_three(m: Sem, s: SiteV, x: XfsV, t: DgsTableV, r: DgsRowV)
    requires
        anchors(x.st) == s.buses,
    ensures
        three_step(m, s.case, x, t, r) matches Ok(a) ==> anchors(a.st) == s.buses
            && if serves_three(m, s, (t, r)) {
            &&& a.xfs.len() == x.xfs.len() + 1
            &&& a.xfs.drop_last() == x.xfs
            &&& is_three(m, s, (t, r), a.xfs.last())
        } else {
            a.xfs == x.xfs
        },
{
    broadcast use group_anchors;

    if let Ok(a) = three_step(m, s.case, x, t, r) {
        if let (Some(ends), Ok(ty)) = (
            three_of(s.case.conns, t.id_of(r)),
            type_of(s.case.doc, t, r, "TypTr3"@),
        ) {
            let asks = three_asks();
            lemma_numbers(m, s.case.doc, (t, r), ty, asks, asks.len());
            lemma_connection(ty.0.text(ty.1, "tr3cn_h"@));
            lemma_connection(ty.0.text(ty.1, "tr3cn_m"@));
            lemma_connection(ty.0.text(ty.1, "tr3cn_l"@));
            if let Ok(v) = numbers_of(m, s.case.doc.decimal, (t, r), ty, asks) {
                let p = placed_three(m, s.case, x, t, r, ty, ends, v);
                reveal(placed_three);
                assert(p.xfs.drop_last() =~= x.xfs);
                assert(v[0] == told(m, s.case.doc, ty, "uktr3_h"@, ZERO));
                assert(v[1] == told(m, s.case.doc, ty, "ur3tr_h"@, ZERO));
                assert(v[2] == told(m, s.case.doc, ty, "uktr3_l"@, ZERO));
                assert(v[3] == told(m, s.case.doc, ty, "ur3tr_l"@, ZERO));
                assert(v[4] == told(m, s.case.doc, ty, "uktr3_m"@, ZERO));
                assert(v[5] == told(m, s.case.doc, ty, "ur3tr_m"@, ZERO));
                assert(v[6] == told(m, s.case.doc, ty, "utrn3_h"@, ZERO));
                assert(v[7] == told(m, s.case.doc, ty, "strn3_h"@, ZERO));
                assert(v[8] == told(m, s.case.doc, ty, "utrn3_m"@, ZERO));
                assert(v[9] == told(m, s.case.doc, ty, "strn3_m"@, ZERO));
                assert(v[10] == told(m, s.case.doc, ty, "utrn3_l"@, ZERO));
                assert(v[11] == told(m, s.case.doc, ty, "strn3_l"@, ZERO));
            }
        }
    }
}

proof fn lemma_xfs_n(m: Sem, s: SiteV, three: bool, x: XfsV, t: DgsTableV, n: nat)
    requires
        n <= t.rows.len(),
        anchors(x.st) == s.buses,
    ensures
        xfs_n(m, s.case, three, x, t, n) matches Ok(a) ==> anchors(a.st) == s.buses && follows(
            transformer_rule(m, s),
            x.xfs,
            transforming_n(m, s, t, three, n),
            a.xfs,
        ),
    decreases n,
{
    if n > 0 {
        lemma_xfs_n(m, s, three, x, t, (n - 1) as nat);
        if let Ok(b) = xfs_n(m, s.case, three, x, t, (n - 1) as nat) {
            let r = t.rows[n - 1];
            let rows = transforming_n(m, s, t, three, (n - 1) as nat);
            if three {
                lemma_three(m, s, b, t, r);
            } else {
                lemma_two(m, s, b, t, r);
            }
            if let Ok(a) = xf_step(m, s.case, three, b, t, r) {
                if a.xfs.len() > b.xfs.len() {
                    let e = ((t, r), three);
                    lemma_one_more(transformer_rule(m, s), x.xfs, rows, b.xfs, e, a.xfs);
                }
            }
        }
    }
}

proof fn lemma_table(m: Sem, s: SiteV, three: bool, x: XfsV)
    requires
        anchors(x.st) == s.buses,
    ensures
        table_xfs(m, s.case, three, x) matches Ok(a) ==> anchors(a.st) == s.buses && follows(
            transformer_rule(m, s),
            x.xfs,
            transforming(m, s, three),
            a.xfs,
        ),
{
    let class = if three {
        "ElmTr3"@
    } else {
        "ElmTr2"@
    };
    if let Some(t) = s.case.doc.table(class) {
        lemma_xfs_n(m, s, three, x, t, t.rows.len());
    }
}

/// The transformers of a document are those of its rows.
pub proof fn lemma_transformers(m: Sem, s: SiteV, st: ReaderV)
    requires
        anchors(st) == s.buses,
    ensures
        transformers_of(m, s.case, st) matches Ok(a) ==> are_transformers(m, s, a),
{
    reveal(transformers_of);
    let x = XfsV { st, xfs: seq![] };
    lemma_table(m, s, false, x);
    if let Ok(b) = table_xfs(m, s.case, false, x) {
        lemma_table(m, s, true, b);
        if let Ok(a) = table_xfs(m, s.case, true, b) {
            lemma_joined(
                transformer_rule(m, s),
                x.xfs,
                transforming(m, s, false),
                b.xfs,
                transforming(m, s, true),
                a.xfs,
            );
        }
    }
}

// ---- elements with one terminal --------------------------------------------

/// A load of a row. Its power is scaled, in watts and vars; vars come of the
/// reactive power where it is given, else of what the apparent power leaves beside
/// the watts, less than zero where the power factor is capacitive. A single phase
/// takes it all; three take a third each.
pub open spec fn is_load(
    m: Sem,
    s: SiteV,
    e: (DgsTableV, DgsRowV),
    single_class: bool,
    x: DistLoadV,
) -> bool {
    let doc = s.case.doc;
    let scale = told(m, doc, e, "scale0"@, ONE);
    let p = m.times(m.times(told(m, doc, e, "plini"@, ZERO), scale), MILLION);
    let va = m.times(m.times(told(m, doc, e, "slini"@, ZERO), scale), MILLION);
    let rest = m.sqrt(m.max(m.minus(m.times(va, va), m.times(p, p)), ZERO));
    let q = if e.0.cell(e.1, "qlini"@) is Some {
        m.times(m.times(told(m, doc, e, "qlini"@, ZERO), scale), MILLION)
    } else if whole_of(m, told(m, doc, e, "pf_recap"@, ZERO)) == 1 {
        m.times(MINUS_ONE, rest)
    } else {
        m.times(ONE, rest)
    };
    let code = whole_of(m, told(m, doc, e, "phtech"@, MINUS_ONE));
    let single = code == 2 || code == 3 || code == 8 || (single_class && code < 0);
    &&& keeps_rest(
        e,
        seq![
            "typ_id"@,
            "plini"@,
            "qlini"@,
            "slini"@,
            "scale0"@,
            "pf_recap"@,
            "phtech"@,
            "outserv"@,
            "ulini"@,
            "for_name"@,
        ],
        x.extras,
    )
    &&& one_of(s.case.conns, e.0.id_of(e.1)) matches Some(at)
    &&& {
        let volts = m.over(m.times(s.kv(at), THOUSAND), m.root3());
        &&& goes_by(x.name, e)
        &&& x.bus == s.bus(at)
        &&& if single {
            &&& x.configuration == Configuration::SinglePhase
            &&& x.terminal_map.len() == 2
            &&& x.terminal_map[0] == dec_of(
                match at.phase {
                    Some(k) => k as nat,
                    None => 1,
                },
            )
            &&& x.terminal_map[1] == "4"@
            &&& all_are(x.p_nom, 1, p)
            &&& all_are(x.q_nom, 1, q)
            &&& is_model(m, doc, e, volts, 1, x.voltage_model)
        } else {
            &&& x.configuration == Configuration::Wye
            &&& are_wires(x.terminal_map, 3, true)
            &&& all_are(x.p_nom, 3, m.over(p, THREE))
            &&& all_are(x.q_nom, 3, m.over(q, THREE))
            &&& is_model(m, doc, e, volts, 3, x.voltage_model)
        }
    }
}

/// The voltage model of a load: exponential where its type has an exponent other
/// than zero, else of constant power, about the nominal voltage to neutral.
pub open spec fn is_model(
    m: Sem,
    doc: DgsDocV,
    e: (DgsTableV, DgsRowV),
    volts: Bits,
    n: nat,
    x: DistLoadVoltageModelV,
) -> bool {
    let ty = match e.0.ptr(e.1, "typ_id"@) {
        Some(p) => resolve_of(doc, p),
        None => None,
    };
    let row = ty->0;
    let kp = told(m, doc, row, "kpu"@, ZERO);
    let kq = told(m, doc, row, "kqu"@, ZERO);
    let bent = ty is Some && row.0.class == "TypLod"@ && !(num_lt(abs_of(kp), PICO) && num_lt(
        abs_of(kq),
        PICO,
    ));
    match x {
        DistLoadVoltageModelV::Exponential { v_nom, gamma_p, gamma_q } => {
            &&& bent
            &&& all_are(v_nom, n, volts)
            &&& all_are(gamma_p, n, kp)
            &&& all_are(gamma_q, n, kq)
        },
        DistLoadVoltageModelV::ConstantPower { v_nom } => !bent && all_are(v_nom, n, volts),
        _ => false,
    }
}

/// A limit of a machine, in megawatts over its three phases, where the row gives
/// one.
pub open spec fn is_limit(
    m: Sem,
    doc: DgsDocV,
    e: (DgsTableV, DgsRowV),
    column: Seq<char>,
    x: Option<Seq<Bits>>,
) -> bool {
    match x {
        Some(v) => e.0.cell(e.1, column) is Some && all_are(
            v,
            3,
            m.over(m.times(told(m, doc, e, column, ZERO), MILLION), THREE),
        ),
        None => e.0.cell(e.1, column) is None,
    }
}

/// A generator of the row of a machine: the output of one unit times the units,
/// active power scaled, shared among three phases.
pub open spec fn is_machine(
    m: Sem,
    s: SiteV,
    e: (DgsTableV, DgsRowV),
    x: DistGeneratorV,
) -> bool {
    let doc = s.case.doc;
    let units = m.max(told(m, doc, e, "ngnum"@, ONE), ONE);
    let scale = told(m, doc, e, "scale0"@, ONE);
    let p = m.times(
        m.times(m.times(told(m, doc, e, "pgini"@, ZERO), units), scale),
        MILLION,
    );
    let q = m.times(m.times(told(m, doc, e, "qgini"@, ZERO), units), MILLION);
    &&& keeps_rest(
        e,
        seq![
            "typ_id"@,
            "pgini"@,
            "qgini"@,
            "ngnum"@,
            "scale0"@,
            "outserv"@,
            "Pmax_uc"@,
            "Pmin_uc"@,
            "cQ_max"@,
            "cQ_min"@,
            "usetp"@,
            "ip_ctrl"@,
            "av_mode"@,
        ],
        x.extras,
    )
    &&& one_of(s.case.conns, e.0.id_of(e.1)) matches Some(at)
    &&& goes_by(x.name, e)
    &&& x.bus == s.bus(at)
    &&& x.configuration == Configuration::Wye
    &&& are_wires(x.terminal_map, 3, true)
    &&& all_are(x.p_nom, 3, m.over(p, THREE))
    &&& all_are(x.q_nom, 3, m.over(q, THREE))
    &&& is_limit(m, doc, e, "Pmax_uc"@, x.p_max)
    &&& is_limit(m, doc, e, "Pmin_uc"@, x.p_min)
    &&& is_limit(m, doc, e, "cQ_max"@, x.q_max)
    &&& is_limit(m, doc, e, "cQ_min"@, x.q_min)
    &&& x.cost is None
}

/// A voltage source of an external grid: its set point times its nominal voltage
/// to neutral, that of its bus where it has none, in three phases a third of a
/// turn apart, the second behind the first and the third before it.
pub open spec fn is_grid(m: Sem, s: SiteV, e: (DgsTableV, DgsRowV), x: VoltageSourceV) -> bool {
    let doc = s.case.doc;
    let own = told(m, doc, e, "uknom"@, ZERO);
    let turn = m.radians(told(m, doc, e, "phiini"@, ZERO));
    let third = m.over(TAU, THREE);
    &&& keeps_rest(
        e,
        seq!["bustp"@, "uknom"@, "usetp"@, "phiini"@, "outserv"@],
        x.extras,
    )
    &&& one_of(s.case.conns, e.0.id_of(e.1)) matches Some(at)
    &&& {
        let kv = if num_lt(abs_of(own), NANO) {
            s.kv(at)
        } else {
            own
        };
        let volts = m.times(
            m.over(m.times(kv, THOUSAND), m.root3()),
            told(m, doc, e, "usetp"@, ONE),
        );
        &&& goes_by(x.name, e)
        &&& x.bus == s.bus(at)
        &&& are_wires(x.terminal_map, 3, true)
        &&& x.v_magnitude.len() == 4
        &&& x.v_magnitude[0] == volts
        &&& x.v_magnitude[1] == volts
        &&& x.v_magnitude[2] == volts
        &&& x.v_magnitude[3] == ZERO
        &&& x.v_angle.len() == 4
        &&& x.v_angle[0] == turn
        &&& x.v_angle[1] == m.minus(turn, third)
        &&& x.v_angle[2] == m.plus(turn, third)
        &&& x.v_angle[3] == ZERO
    }
}

/// A generator in place of a further external grid: one without output.
pub open spec fn is_further_grid(s: SiteV, e: (DgsTableV, DgsRowV), x: DistGeneratorV) -> bool {
    &&& one_of(s.case.conns, e.0.id_of(e.1)) matches Some(at)
    &&& x.extras.len() == 0
    &&& goes_by(x.name, e)
    &&& x.bus == s.bus(at)
    &&& x.configuration == Configuration::Wye
    &&& are_wires(x.terminal_map, 3, true)
    &&& all_are(x.p_nom, 3, ZERO)
    &&& all_are(x.q_nom, 3, ZERO)
    &&& x.p_max is None
    &&& x.p_min is None
    &&& x.q_max is None
    &&& x.q_min is None
    &&& x.cost is None
}

/// A shunt of a row: its rating of all steps over three times the square of the
/// voltage to neutral on each phase, less than zero for a reactor, and nothing
/// else.
pub open spec fn is_shunt(m: Sem, s: SiteV, e: (DgsTableV, DgsRowV), x: DistShuntV) -> bool {
    let doc = s.case.doc;
    let steps = m.max(told(m, doc, e, "ncapa"@, ONE), ONE);
    let vars = m.times(told(m, doc, e, "qtotn"@, ZERO), MILLION);
    let reactor = whole_of(m, told(m, doc, e, "shtype"@, TWO)) == 1;
    &&& keeps_rest(
        e,
        seq!["shtype"@, "ncapa"@, "qtotn"@, "ushnm"@, "outserv"@],
        x.extras,
    )
    &&& one_of(s.case.conns, e.0.id_of(e.1)) matches Some(at)
    &&& {
        let volts = m.over(m.times(s.kv(at), THOUSAND), m.root3());
        let own = if num_lt(abs_of(volts), NANO) {
            ZERO
        } else if reactor {
            m.over(
                m.times(m.times(MINUS_ONE, steps), vars),
                m.times(m.times(THREE, volts), volts),
            )
        } else {
            m.over(m.times(m.times(ONE, steps), vars), m.times(m.times(THREE, volts), volts))
        };
        &&& goes_by(x.name, e)
        &&& x.bus == s.bus(at)
        &&& are_wires(x.terminal_map, 3, true)
        &&& x.g.len() == 3
        &&& x.b.len() == 3
        &&& forall|i: int| 0 <= i < 3 ==> all_are(#[trigger] x.g[i], 3, ZERO)
        &&& forall|i: int| 0 <= i < 3 ==> (#[trigger] x.b[i]).len() == 3
        &&& forall|i: int, j: int|
            0 <= i < 3 && 0 <= j < 3 ==> #[trigger] x.b[i][j] == if i == j {
                own
            } else {
                ZERO
            }
    }
}

// ---- which rows ------------------------------------------------------------

/// Rows, each with what kind of element it makes.
pub type Rows = Seq<((DgsTableV, DgsRowV), bool)>;

/// An element is not out of service.
pub open spec fn is_on(m: Sem, doc: DgsDocV, e: (DgsTableV, DgsRowV)) -> bool {
    whole_of(m, told(m, doc, e, "outserv"@, ZERO)) == 0
}

/// An element with one terminal is in service: it is on, and the switch at its
/// terminal is closed.
pub open spec fn serves(m: Sem, s: SiteV, e: (DgsTableV, DgsRowV)) -> bool {
    is_on(m, s.case.doc, e) && match one_of(s.case.conns, e.0.id_of(e.1)) {
        Some(at) => at.closed,
        None => false,
    }
}

/// The first `n` rows of a table that are in service, in order.
pub open spec fn serving_n(m: Sem, s: SiteV, t: DgsTableV, kind: bool, n: nat) -> Rows
    decreases n,
{
    if n == 0 {
        seq![]
    } else {
        let before = serving_n(m, s, t, kind, (n - 1) as nat);
        if serves(m, s, (t, t.rows[n - 1])) {
            before.push(((t, t.rows[n - 1]), kind))
        } else {
            before
        }
    }
}

/// The rows of a class that are in service, in order.
pub open spec fn serving(m: Sem, s: SiteV, class: Seq<char>, kind: bool) -> Rows {
    match s.case.doc.table(class) {
        Some(t) => serving_n(m, s, t, kind, t.rows.len()),
        None => seq![],
    }
}

/// The rows of the loads in service; those of low and medium voltage have one
/// phase by default.
pub open spec fn load_rows(m: Sem, s: SiteV) -> Rows {
    serving(m, s, "ElmLod"@, false) + serving(m, s, "ElmLodlv"@, true) + serving(
        m,
        s,
        "ElmLodmv"@,
        true,
    )
}

/// The rows of the machines in service.
pub open spec fn machine_rows(m: Sem, s: SiteV) -> Rows {
    serving(m, s, "ElmSym"@, true) + serving(m, s, "ElmGenstat"@, true) + serving(
        m,
        s,
        "ElmPvsys"@,
        true,
    ) + serving(m, s, "ElmAsm"@, true)
}

/// The elements of some rows follow others.
pub open spec fn follows<E>(
    rule: spec_fn(((DgsTableV, DgsRowV), bool), E) -> bool,
    x: Seq<E>,
    rows: Rows,
    a: Seq<E>,
) -> bool {
    &&& a.len() == x.len() + rows.len()
    &&& forall|i: int| 0 <= i < x.len() ==> #[trigger] a[i] == x[i]
    &&& forall|k: int| 0 <= k < rows.len() ==> rule(#[trigger] rows[k], a[x.len() + k])
}

proof fn lemma_one_more<E>(
    rule: spec_fn(((DgsTableV, DgsRowV), bool), E) -> bool,
    x: Seq<E>,
    rows: Rows,
    a: Seq<E>,
    e: ((DgsTableV, DgsRowV), bool),
    b: Seq<E>,
)
    requires
        follows(rule, x, rows, a),
        b.len() == a.len() + 1,
        b.drop_last() == a,
        rule(e, b.last()),
    ensures
        follows(rule, x, rows.push(e), b),
{
    assert forall|i: int| 0 <= i < a.len() implies #[trigger] b[i] == a[i] by {
        assert(b.drop_last()[i] == b[i]);
    }
    assert forall|k: int| 0 <= k < rows.push(e).len() implies rule(
        #[trigger] rows.push(e)[k],
        b[x.len() + k],
    ) by {
        if k < rows.len() {
            assert(rows.push(e)[k] == rows[k]);
            assert(b[x.len() + k] == a[x.len() + k]);
        }
    }
}

proof fn lemma_joined<E>(
    rule: spec_fn(((DgsTableV, DgsRowV), bool), E) -> bool,
    x: Seq<E>,
    p: Rows,
    a: Seq<E>,
    q: Rows,
    b: Seq<E>,
)
    requires
        follows(rule, x, p, a),
        follows(rule, a, q, b),
    ensures
        follows(rule, x, p + q, b),
{
    assert forall|i: int| 0 <= i < x.len() implies #[trigger] b[i] == x[i] by {
        assert(a[i] == x[i]);
    }
    assert forall|k: int| 0 <= k < (p + q).len() implies rule(
        #[trigger] (p + q)[k],
        b[x.len() + k],
    ) by {
        if k < p.len() {
            assert((p + q)[k] == p[k]);
            assert(b[x.len() + k] == a[x.len() + k]);
        } else {
            assert((p + q)[k] == q[k - p.len()]);
            assert(x.len() + k == a.len() + (k - p.len()));
        }
    }
}

/// What a load is to its row.
pub open spec fn load_rule(m: Sem, s: SiteV) -> spec_fn(
    ((DgsTableV, DgsRowV), bool),
    DistLoadV,
) -> bool {
    |r: ((DgsTableV, DgsRowV), bool), x: DistLoadV| is_load(m, s, r.0, r.1, x)
}

/// What a generator is to its row: that of a machine, or of a further grid.
pub open spec fn generator_rule(m: Sem, s: SiteV) -> spec_fn(
    ((DgsTableV, DgsRowV), bool),
    DistGeneratorV,
) -> bool {
    |r: ((DgsTableV, DgsRowV), bool), x: DistGeneratorV|
        if r.1 {
            is_machine(m, s, r.0, x)
        } else {
            is_further_grid(s, r.0, x)
        }
}

/// What a voltage source is to its row.
pub open spec fn source_rule(m: Sem, s: SiteV) -> spec_fn(
    ((DgsTableV, DgsRowV), bool),
    VoltageSourceV,
) -> bool {
    |r: ((DgsTableV, DgsRowV), bool), x: VoltageSourceV| is_grid(m, s, r.0, x)
}

/// What a shunt is to its row.
pub open spec fn shunt_rule(m: Sem, s: SiteV) -> spec_fn(
    ((DgsTableV, DgsRowV), bool),
    DistShuntV,
) -> bool {
    |r: ((DgsTableV, DgsRowV), bool), x: DistShuntV| is_shunt(m, s, r.0, x)
}

/// Rows but the first.
pub open spec fn rest_of(rows: Rows) -> Rows {
    if rows.len() == 0 {
        rows
    } else {
        rows.subrange(1, rows.len() as int)
    }
}

/// No more than the first row.
pub open spec fn first_of(rows: Rows) -> Rows {
    if rows.len() == 0 {
        rows
    } else {
        rows.subrange(0, 1)
    }
}

/// The elements with one terminal are those of the rows in service, in order. The
/// first external grid is the voltage source.
pub open spec fn are_injections(m: Sem, s: SiteV, x: InjV) -> bool {
    let grids = serving(m, s, "ElmXnet"@, false);
    &&& anchors(x.st) == s.buses
    &&& follows(load_rule(m, s), seq![], load_rows(m, s), x.loads)
    &&& follows(generator_rule(m, s), seq![], machine_rows(m, s) + rest_of(grids), x.gens)
    &&& follows(source_rule(m, s), seq![], first_of(grids), x.sources)
    &&& follows(shunt_rule(m, s), seq![], serving(m, s, "ElmShnt"@, false), x.shunts)
}

proof fn lemma_load(
    m: Sem,
    s: SiteV,
    x: InjV,
    e: (DgsTableV, DgsRowV),
    single_class: bool,
    at: ConnV,
    v: Seq<Bits>,
)
    requires
        anchors(x.st) == s.buses,
        one_of(s.case.conns, e.0.id_of(e.1)) == Some(at),
        numbers_of(m, s.case.doc.decimal, e, e, load_asks(e.0.cell(e.1, "qlini"@) is Some)) == Ok::<
            _,
            ErrorV,
        >(v),
    ensures
        ({
            let power = load_power_of(m, v, e.0.cell(e.1, "qlini"@) is Some);
            let single = single_of(single_class, power.phtech);
            let a = placed_load(m, s.case, x, e.0, e.1, at, single, power);
            &&& anchors(a.st) == s.buses
            &&& a.loads.len() == x.loads.len() + 1
            &&& a.loads.drop_last() == x.loads
            &&& is_load(m, s, e, single_class, a.loads.last())
            &&& a.gens == x.gens
            &&& a.sources == x.sources
            &&& a.shunts == x.shunts
        }),
{
    broadcast use group_anchors;

    lemma_rest(e, load_consumed());
    let doc = s.case.doc;
    let given = e.0.cell(e.1, "qlini"@) is Some;
    let asks = load_asks(given);
    lemma_numbers(m, doc, e, e, asks, asks.len());
    assert(v[0] == told(m, doc, e, "scale0"@, ONE));
    assert(v[1] == told(m, doc, e, "plini"@, ZERO));
    if given {
        assert(v[2] == told(m, doc, e, "qlini"@, ZERO));
        assert(v[3] == told(m, doc, e, "phtech"@, MINUS_ONE));
    } else {
        assert(v[2] == told(m, doc, e, "slini"@, ZERO));
        assert(v[3] == told(m, doc, e, "pf_recap"@, ZERO));
        assert(v[4] == told(m, doc, e, "phtech"@, MINUS_ONE));
    }
    reveal(placed_load);
    let power = load_power_of(m, v, given);
    let single = single_of(single_class, power.phtech);
    let a = placed_load(m, s.case, x, e.0, e.1, at, single, power);
    assert(a.loads.drop_last() =~= x.loads);
}

proof fn lemma_limit(m: Sem, doc: DgsDocV, e: (DgsTableV, DgsRowV), column: Seq<char>)
    ensures
        limit_of(m, doc.decimal, e.0, e.1, column) matches Ok(x) ==> is_limit(m, doc, e, column, x),
{
}

proof fn lemma_machine(
    m: Sem,
    s: SiteV,
    x: InjV,
    e: (DgsTableV, DgsRowV),
    at: ConnV,
    v: Seq<Bits>,
    l: LimitsV,
)
    requires
        anchors(x.st) == s.buses,
        one_of(s.case.conns, e.0.id_of(e.1)) == Some(at),
        numbers_of(m, s.case.doc.decimal, e, e, machine_asks()) == Ok::<_, ErrorV>(v),
        limits_of(m, s.case.doc.decimal, e.0, e.1) == Ok::<_, ErrorV>(l),
    ensures
        ({
            let a = placed_machine(m, s.case, x, e.0, e.1, at, v, l);
            &&& anchors(a.st) == s.buses
            &&& a.gens.len() == x.gens.len() + 1
            &&& a.gens.drop_last() == x.gens
            &&& is_machine(m, s, e, a.gens.last())
            &&& a.loads == x.loads
            &&& a.sources == x.sources
            &&& a.shunts == x.shunts
        }),
{
    broadcast use group_anchors;

    lemma_rest(e, machine_consumed());
    let doc = s.case.doc;
    lemma_numbers(m, doc, e, e, machine_asks(), machine_asks().len());
    assert(v[0] == told(m, doc, e, "ngnum"@, ONE));
    assert(v[1] == told(m, doc, e, "scale0"@, ONE));
    assert(v[2] == told(m, doc, e, "pgini"@, ZERO));
    assert(v[3] == told(m, doc, e, "qgini"@, ZERO));
    lemma_limit(m, doc, e, "Pmax_uc"@);
    lemma_limit(m, doc, e, "Pmin_uc"@);
    lemma_limit(m, doc, e, "cQ_max"@);
    lemma_limit(m, doc, e, "cQ_min"@);
    reveal(placed_machine);
    let a = placed_machine(m, s.case, x, e.0, e.1, at, v, l);
    assert(a.gens.drop_last() =~= x.gens);
}

proof fn lemma_grid(
    m: Sem,
    s: SiteV,
    x: InjV,
    e: (DgsTableV, DgsRowV),
    at: ConnV,
    v: Seq<Bits>,
)
    requires
        anchors(x.st) == s.buses,
        one_of(s.case.conns, e.0.id_of(e.1)) == Some(at),
        numbers_of(m, s.case.doc.decimal, e, e, grid_asks()) == Ok::<_, ErrorV>(v),
    ensures
        ({
            let a = placed_grid(m, s.case, x, e.0, e.1, at, v);
            &&& anchors(a.st) == s.buses
            &&& a.loads == x.loads
            &&& a.shunts == x.shunts
            &&& if x.sources.len() == 0 {
                &&& a.gens == x.gens
                &&& a.sources.len() == 1
                &&& is_grid(m, s, e, a.sources[0])
            } else {
                &&& a.sources == x.sources
                &&& a.gens.len() == x.gens.len() + 1
                &&& a.gens.drop_last() == x.gens
                &&& is_further_grid(s, e, a.gens.last())
            }
        }),
{
    broadcast use group_anchors;

    lemma_rest(e, grid_consumed());
    let doc = s.case.doc;
    lemma_numbers(m, doc, e, e, grid_asks(), grid_asks().len());
    assert(v[0] == told(m, doc, e, "uknom"@, ZERO));
    assert(v[1] == told(m, doc, e, "usetp"@, ONE));
    assert(v[2] == told(m, doc, e, "phiini"@, ZERO));
    reveal(placed_grid);
    let a = placed_grid(m, s.case, x, e.0, e.1, at, v);
    if x.sources.len() > 0 {
        assert(a.gens.drop_last() =~= x.gens);
    }
}

proof fn lemma_shunt(
    m: Sem,
    s: SiteV,
    x: InjV,
    e: (DgsTableV, DgsRowV),
    at: ConnV,
    v: Seq<Bits>,
)
    requires
        anchors(x.st) == s.buses,
        one_of(s.case.conns, e.0.id_of(e.1)) == Some(at),
        numbers_of(m, s.case.doc.decimal, e, e, shunt_asks()) == Ok::<_, ErrorV>(v),
    ensures
        ({
            let a = placed_shunt(m, s.case, x, e.0, e.1, at, v);
            &&& anchors(a.st) == s.buses
            &&& a.shunts.len() == x.shunts.len() + 1
            &&& a.shunts.drop_last() == x.shunts
            &&& is_shunt(m, s, e, a.shunts.last())
            &&& a.loads == x.loads
            &&& a.gens == x.gens
            &&& a.sources == x.sources
        }),
{
    broadcast use group_anchors;

    lemma_rest(e, shunt_consumed());
    let doc = s.case.doc;
    lemma_numbers(m, doc, e, e, shunt_asks(), shunt_asks().len());
    assert(v[0] == told(m, doc, e, "shtype"@, TWO));
    assert(v[1] == told(m, doc, e, "ncapa"@, ONE));
    assert(v[2] == told(m, doc, e, "qtotn"@, ZERO));
    reveal(placed_shunt);
    let a = placed_shunt(m, s.case, x, e.0, e.1, at, v);
    assert(a.shunts.drop_last() =~= x.shunts);
}

/// Elements of a kind, of some rows, follow others.
spec fn grows(m: Sem, s: SiteV, k: Kind, x: InjV, rows: Rows, a: InjV) -> bool {
    &&& anchors(a.st) == s.buses
    &&& match k {
        Kind::Machine => {
            &&& follows(generator_rule(m, s), x.gens, rows, a.gens)
            &&& a.loads == x.loads
            &&& a.sources == x.sources
            &&& a.shunts == x.shunts
        },
        Kind::Grid => {
            &&& follows(generator_rule(m, s), x.gens, rest_of(rows), a.gens)
            &&& follows(source_rule(m, s), x.sources, first_of(rows), a.sources)
            &&& a.loads == x.loads
            &&& a.shunts == x.shunts
        },
        Kind::Shunt => {
            &&& follows(shunt_rule(m, s), x.shunts, rows, a.shunts)
            &&& a.loads == x.loads
            &&& a.gens == x.gens
            &&& a.sources == x.sources
        },
        _ => {
            &&& follows(load_rule(m, s), x.loads, rows, a.loads)
            &&& a.gens == x.gens
            &&& a.sources == x.sources
            &&& a.shunts == x.shunts
        },
    }
}

/// What the rows of a kind are marked with.
spec fn mark_of(k: Kind) -> bool {
    k == Kind::SingleLoad || k == Kind::Machine
}

proof fn lemma_element(
    m: Sem,
    s: SiteV,
    k: Kind,
    x: InjV,
    rows: Rows,
    b: InjV,
    e: (DgsTableV, DgsRowV),
)
    requires
        grows(m, s, k, x, rows, b),
        k == Kind::Grid ==> x.sources.len() == 0,
    ensures
        element_step(m, s.case, k, b, e.0, e.1) matches Ok(a) ==> grows(
            m,
            s,
            k,
            x,
            if serves(m, s, e) {
                rows.push((e, mark_of(k)))
            } else {
                rows
            },
            a,
        ),
{
    broadcast use group_anchors;

    let doc = s.case.doc;
    let d = doc.decimal;
    let r = (e, mark_of(k));
    if let (Ok(a), Some(at)) = (
        element_step(m, s.case, k, b, e.0, e.1),
        one_of(s.case.conns, e.0.id_of(e.1)),
    ) {
        if serves(m, s, e) {
            assert(element_of(m, s.case, k, b, e.0, e.1, at) == Ok::<_, ErrorV>(a));
            match k {
                Kind::Machine => {
                    let v = numbers_of(m, d, e, e, machine_asks())->Ok_0;
                    let l = limits_of(m, d, e.0, e.1)->Ok_0;
                    lemma_machine(m, s, b, e, at, v, l);
                    lemma_one_more(generator_rule(m, s), x.gens, rows, b.gens, r, a.gens);
                },
                Kind::Grid => {
                    let v = numbers_of(m, d, e, e, grid_asks())->Ok_0;
                    lemma_grid(m, s, b, e, at, v);
                    if rows.len() == 0 {
                        assert(first_of(rows.push(r)) =~= seq![r]);
                        assert(rest_of(rows.push(r)) =~= rest_of(rows));
                    } else {
                        assert(first_of(rows.push(r)) =~= first_of(rows));
                        assert(rest_of(rows.push(r)) =~= rest_of(rows).push(r));
                        lemma_one_more(
                            generator_rule(m, s),
                            x.gens,
                            rest_of(rows),
                            b.gens,
                            r,
                            a.gens,
                        );
                    }
                },
                Kind::Shunt => {
                    let v = numbers_of(m, d, e, e, shunt_asks())->Ok_0;
                    lemma_shunt(m, s, b, e, at, v);
                    lemma_one_more(shunt_rule(m, s), x.shunts, rows, b.shunts, r, a.shunts);
                },
                _ => {
                    let given = e.0.cell(e.1, "qlini"@) is Some;
                    let v = numbers_of(m, d, e, e, load_asks(given))->Ok_0;
                    lemma_load(m, s, b, e, k == Kind::SingleLoad, at, v);
                    lemma_one_more(load_rule(m, s), x.loads, rows, b.loads, r, a.loads);
                },
            }
        }
    }
}

proof fn lemma_elements_n(m: Sem, s: SiteV, k: Kind, x: InjV, t: DgsTableV, n: nat)
    requires
        n <= t.rows.len(),
        anchors(x.st) == s.buses,
        k == Kind::Grid ==> x.sources.len() == 0,
    ensures
        elements_n(m, s.case, k, x, t, n) matches Ok(a) ==> grows(
            m,
            s,
            k,
            x,
            serving_n(m, s, t, mark_of(k), n),
            a,
        ),
    decreases n,
{
    if n > 0 {
        lemma_elements_n(m, s, k, x, t, (n - 1) as nat);
        if let Ok(b) = elements_n(m, s.case, k, x, t, (n - 1) as nat) {
            let rows = serving_n(m, s, t, mark_of(k), (n - 1) as nat);
            lemma_element(m, s, k, x, rows, b, (t, t.rows[n - 1]));
        }
    }
}

proof fn lemma_class(m: Sem, s: SiteV, k: Kind, class: Seq<char>, x: InjV)
    requires
        anchors(x.st) == s.buses,
        k == Kind::Grid ==> x.sources.len() == 0,
    ensures
        class_of(m, s.case, k, class, Ok(x)) matches Ok(a) ==> grows(
            m,
            s,
            k,
            x,
            serving(m, s, class, mark_of(k)),
            a,
        ),
{
    if let Some(t) = s.case.doc.table(class) {
        lemma_elements_n(m, s, k, x, t, t.rows.len());
    }
}

/// The loads of a document.
proof fn lemma_loads(m: Sem, s: SiteV, x: InjV)
    requires
        anchors(x.st) == s.buses,
    ensures
        loads_of(m, s.case, x) matches Ok(a) ==> grows(m, s, Kind::Load, x, load_rows(m, s), a),
{
    broadcast use group_anchors;

    let rule = load_rule(m, s);
    let p = serving(m, s, "ElmLod"@, false);
    let q = serving(m, s, "ElmLodlv"@, true);
    let r = serving(m, s, "ElmLodmv"@, true);
    lemma_class(m, s, Kind::Load, "ElmLod"@, x);
    if let Ok(a) = class_of(m, s.case, Kind::Load, "ElmLod"@, Ok(x)) {
        lemma_class(m, s, Kind::SingleLoad, "ElmLodlv"@, a);
        if let Ok(b) = class_of(m, s.case, Kind::SingleLoad, "ElmLodlv"@, Ok(a)) {
            lemma_joined(rule, x.loads, p, a.loads, q, b.loads);
            lemma_class(m, s, Kind::SingleLoad, "ElmLodmv"@, b);
            if let Ok(c) = class_of(m, s.case, Kind::SingleLoad, "ElmLodmv"@, Ok(b)) {
                lemma_joined(rule, x.loads, p + q, b.loads, r, c.loads);
            }
        }
    }
}

/// The machines of a document.
proof fn lemma_machines(m: Sem, s: SiteV, x: InjV)
    requires
        anchors(x.st) == s.buses,
    ensures
        machines_of(m, s, x) matches Ok(a) ==> grows(m, s, Kind::Machine, x, machine_rows(m, s), a),
{
    let rule = generator_rule(m, s);
    let p = serving(m, s, "ElmSym"@, true);
    let q = serving(m, s, "ElmGenstat"@, true);
    let r = serving(m, s, "ElmPvsys"@, true);
    let u = serving(m, s, "ElmAsm"@, true);
    lemma_class(m, s, Kind::Machine, "ElmSym"@, x);
    if let Ok(a) = class_of(m, s.case, Kind::Machine, "ElmSym"@, Ok(x)) {
        lemma_class(m, s, Kind::Machine, "ElmGenstat"@, a);
        if let Ok(b) = class_of(m, s.case, Kind::Machine, "ElmGenstat"@, Ok(a)) {
            lemma_joined(rule, x.gens, p, a.gens, q, b.gens);
            lemma_class(m, s, Kind::Machine, "ElmPvsys"@, b);
            if let Ok(c) = class_of(m, s.case, Kind::Machine, "ElmPvsys"@, Ok(b)) {
                lemma_joined(rule, x.gens, p + q, b.gens, r, c.gens);
                lemma_class(m, s, Kind::Machine, "ElmAsm"@, c);
                if let Ok(d) = class_of(m, s.case, Kind::Machine, "ElmAsm"@, Ok(c)) {
                    lemma_joined(rule, x.gens, p + q + r, c.gens, u, d.gens);
                }
            }
        }
    }
}

/// The elements with the machines of a document.
spec fn machines_of(m: Sem, s: SiteV, x: InjV) -> Outcome<InjV> {
    let a = class_of(m, s.case, Kind::Machine, "ElmSym"@, Ok(x));
    let b = class_of(m, s.case, Kind::Machine, "ElmGenstat"@, a);
    let c = class_of(m, s.case, Kind::Machine, "ElmPvsys"@, b);
    class_of(m, s.case, Kind::Machine, "ElmAsm"@, c)
}

/// The elements with one terminal of a document are those of its rows.
pub proof fn lemma_injections(m: Sem, s: SiteV, st: ReaderV)
    requires
        anchors(st) == s.buses,
    ensures
        injections_of(m, s.case, st) matches Ok(a) ==> are_injections(m, s, a),
{
    reveal(injections_of);
    let x = InjV { st, loads: seq![], gens: seq![], shunts: seq![], sources: seq![] };
    let grids = serving(m, s, "ElmXnet"@, false);
    lemma_loads(m, s, x);
    if let Ok(a) = loads_of(m, s.case, x) {
        lemma_machines(m, s, a);
        if let Ok(b) = machines_of(m, s, a) {
            lemma_class(m, s, Kind::Grid, "ElmXnet"@, b);
            if let Ok(c) = class_of(m, s.case, Kind::Grid, "ElmXnet"@, Ok(b)) {
                lemma_joined(
                    generator_rule(m, s),
                    x.gens,
                    machine_rows(m, s),
                    b.gens,
                    rest_of(grids),
                    c.gens,
                );
                lemma_class(m, s, Kind::Shunt, "ElmShnt"@, c);
            }
        }
    }
}

} // verus!
