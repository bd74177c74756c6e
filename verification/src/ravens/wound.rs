//! Transformers that are read and written again.

use vstd::prelude::*;

use crate::cim::read::z_base_of;
use crate::json::{Entries, JsonV};
use crate::math::{abs_of, num_lt, Bits, Sem, HUNDRED, MINUS_ONE, ZERO};
use crate::model::{DistBusV, DistTransformerV, WindingV};
use crate::order::get_of;
use crate::ravens::accept::{even, group_even, lemma_transformers_mild, lemma_windings_mild};
use crate::ravens::bases::winding_claim;
use crate::ravens::coiled::{tank_ok, tanks_in};
use crate::ravens::doc::{named_of, sorted_kind, ObjV};
use crate::ravens::emit::{extra_num, extras_mrid_of, identified_of, WriterV};
use crate::ravens::keeps::{group_keeps, group_parts, lemma_reactances_keep, lemma_windings_keep};
use crate::ravens::plain::{lemma_ground_declared, lemma_use_declared, lemma_use_plain, plainly};
use crate::ravens::read::declared;
use crate::ravens::scale::of_base_of;
use crate::ravens::stable::{lemma_one_table, lemma_table_entry, named_in, table_n, table_of};
use crate::ravens::state::StateV;
use crate::ravens::survive::{lemma_identified_again, told};
use crate::ravens::survive_models::lemma_response_stands_alone;
use crate::ravens::survive_places::lemma_kind_only;
use crate::ravens::survive_tanks::{
    comes_of_transformer, lemma_sheet_names, lemma_tank_step, sheet_in, sheet_name, tabled,
};
use crate::ravens::survive_windings::{
    comes_of_winding, leakage, lemma_windings_read, loss_of, neutral_ohms, numbered, says_end,
    wound_map,
};
use crate::ravens::tanks::{
    circuit_n, datasheet_of, end_clock_of, end_conn_of, end_map_of, end_step, ends_of, infos_of,
    neutral_of, reactances_of, tank_step, tanks_n, tapped_of, tests_n, windings_n,
};
use crate::ravens::write_tanks::{
    circuit_json, end_json, grounded_of, group_n, info_json, noload_json, or_zero, tested_json,
    transformer_json, transformers_json, windings_json,
};

verus! {

// ---- what is written -------------------------------------------------------

/// Windings of which the same values are written.
pub open spec fn same_winding(m: Sem, a: WindingV, b: WindingV) -> bool {
    &&& a.bus == b.bus
    &&& a.conn == b.conn
    &&& a.terminal_map == b.terminal_map
    &&& a.v_ref == b.v_ref
    &&& a.s_rating == b.s_rating
    &&& grounded_of(a) == grounded_of(b)
    &&& grounded_of(a) ==> neutral_ohms(m, a) == neutral_ohms(m, b) && or_zero(a.x_neutral)
        == or_zero(b.x_neutral)
    &&& z_base_of(m, a.v_ref, a.s_rating) matches Some(base) ==> of_base_of(m, a.r_pct, base)
        == of_base_of(m, b.r_pct, base)
}

/// Transformers of which the same values are written.
pub open spec fn same_transformer(m: Sem, a: DistTransformerV, b: DistTransformerV) -> bool {
    &&& a.name == b.name
    &&& identified_of("PowerTransformer"@, a.name, extras_mrid_of(a.extras)) == identified_of(
        "PowerTransformer"@,
        b.name,
        extras_mrid_of(b.extras),
    )
    &&& a.windings.len() == b.windings.len()
    &&& forall|k: int|
        0 <= k < a.windings.len() ==> same_winding(m, #[trigger] a.windings[k], b.windings[k])
    &&& z_base_of(m, a.windings[0].v_ref, a.windings[0].s_rating) matches Some(base) ==> leakage(
        m,
        a,
        base,
    ) == leakage(m, b, base)
    &&& extra_num(m, a.extras, "%imag"@) == extra_num(m, b.extras, "%imag"@)
    &&& loss_of(m, a) == loss_of(m, b)
}

#[verifier::rlimit(40)]
proof fn lemma_end_same(
    w: WriterV,
    v: WriterV,
    m: Sem,
    a: DistTransformerV,
    b: DistTransformerV,
    k: nat,
)
    requires
        a.name == b.name,
        same_winding(m, a.windings[k as int], b.windings[k as int]),
        v.bases == w.bases,
    ensures
        end_json(w, m, a, k).1 == end_json(v, m, b, k).1,
        even(w, end_json(w, m, a, k).0),
{
    broadcast use group_even;

    reveal(end_json);
    reveal(WriterV::num);
    reveal(WriterV::put_base);
    reveal(WriterV::base_of);
}

#[verifier::rlimit(40)]
proof fn lemma_info_same(
    w: WriterV,
    v: WriterV,
    m: Sem,
    a: DistTransformerV,
    b: DistTransformerV,
    k: nat,
)
    requires
        a.name == b.name,
        same_winding(m, a.windings[k as int], b.windings[k as int]),
    ensures
        info_json(w, m, a, k).1 == info_json(v, m, b, k).1,
{
    reveal(info_json);
    reveal(WriterV::num);
}

proof fn lemma_windings_same(
    w: WriterV,
    v: WriterV,
    m: Sem,
    a: DistTransformerV,
    b: DistTransformerV,
    n: nat,
)
    requires
        same_transformer(m, a, b),
        n <= a.windings.len(),
        v.bases == w.bases,
    ensures
        windings_json(w, m, a, n).1 == windings_json(v, m, b, n).1,
        windings_json(w, m, a, n).2 == windings_json(v, m, b, n).2,
    decreases n,
{
    if n > 0 {
        let k = (n - 1) as nat;
        lemma_windings_same(w, v, m, a, b, k);
        lemma_response_stands_alone();
        lemma_windings_mild("LoadResponseCharacteristic"@, w, m, a, k);
        lemma_windings_mild("LoadResponseCharacteristic"@, v, m, b, k);
        let p = windings_json(w, m, a, k).0;
        let q = windings_json(v, m, b, k).0;
        assert(same_winding(m, a.windings[k as int], b.windings[k as int]));
        lemma_end_same(p, q, m, a, b, k);
        lemma_info_same(end_json(p, m, a, k).0, end_json(q, m, b, k).0, m, a, b, k);
    }
}

proof fn lemma_circuit_same(
    w: WriterV,
    v: WriterV,
    m: Sem,
    a: DistTransformerV,
    b: DistTransformerV,
    base: Bits,
)
    requires
        a.name == b.name,
        a.windings[0].s_rating == b.windings[0].s_rating,
        leakage(m, a, base) == leakage(m, b, base),
    ensures
        circuit_json(w, m, a, base).1 == circuit_json(v, m, b, base).1,
{
    reveal(circuit_json);
    reveal(WriterV::num);
}

proof fn lemma_noload_same(
    w: WriterV,
    v: WriterV,
    m: Sem,
    a: DistTransformerV,
    b: DistTransformerV,
)
    requires
        a.name == b.name,
        a.windings[0].s_rating == b.windings[0].s_rating,
        a.windings[0].v_ref == b.windings[0].v_ref,
        extra_num(m, a.extras, "%imag"@) == extra_num(m, b.extras, "%imag"@),
        loss_of(m, a) == loss_of(m, b),
    ensures
        noload_json(w, m, a).1 == noload_json(v, m, b).1,
{
    reveal(noload_json);
    reveal(WriterV::num);
}

/// The record of the first winding with its tests, whoever writes it.
#[verifier::rlimit(40)]
proof fn lemma_tested_same(
    w: WriterV,
    v: WriterV,
    m: Sem,
    a: DistTransformerV,
    b: DistTransformerV,
    info: Entries,
)
    requires
        same_transformer(m, a, b),
        a.windings.len() > 0,
    ensures
        tested_json(w, m, a, info).1 == tested_json(v, m, b, info).1,
{
    assert(same_winding(m, a.windings[0], b.windings[0]));
    assert forall|p: WriterV, q: WriterV|
        (#[trigger] noload_json(p, m, a)).1 == (#[trigger] noload_json(q, m, b)).1 by {
        lemma_noload_same(p, q, m, a, b);
    }
    if let Some(base) = z_base_of(m, a.windings[0].v_ref, a.windings[0].s_rating) {
        lemma_circuit_same(w, v, m, a, b, base);
    }
    reveal(tested_json);
}

proof fn lemma_group_same(m: Sem, a: Seq<WindingV>, b: Seq<WindingV>, n: nat)
    requires
        n <= a.len(),
        a.len() == b.len(),
        forall|k: int| 0 <= k < a.len() ==> same_winding(m, #[trigger] a[k], b[k]),
    ensures
        group_n(a, n) == group_n(b, n),
    decreases n,
{
    if n > 0 {
        lemma_group_same(m, a, b, (n - 1) as nat);
        assert(same_winding(m, a[n - 1], b[n - 1]));
    }
}

/// Transformers of which the same values are written give the same object and
/// the same catalog entry.
#[verifier::rlimit(40)]
pub proof fn lemma_transformer_same(
    w: WriterV,
    v: WriterV,
    m: Sem,
    a: DistTransformerV,
    b: DistTransformerV,
)
    requires
        same_transformer(m, a, b),
        a.windings.len() > 0,
        v.bases == w.bases,
    ensures
        transformer_json(w, m, a).1 == transformer_json(v, m, b).1,
        transformer_json(w, m, a).2 == transformer_json(v, m, b).2,
{
    let n = a.windings.len();
    lemma_windings_same(w, v, m, a, b, n);
    lemma_group_same(m, a.windings, b.windings, n);
    lemma_tested_same(
        windings_json(w, m, a, n).0,
        windings_json(v, m, b, n).0,
        m,
        a,
        b,
        windings_json(w, m, a, n).2[0],
    );
    reveal(transformer_json);
}

// ---- what comes back -------------------------------------------------------

/// Ohms come back from their numeral and from percent of a base.
pub open spec fn ohms_kept(m: Sem, ohms: Bits, base: Bits) -> bool {
    told(m, ohms) && of_base_of(m, m.times(m.over(ohms, base), HUNDRED), base) == ohms
}

/// The neutral impedance of a grounded winding comes back.
pub open spec fn neutral_kept(m: Sem, x: WindingV) -> bool {
    let r = neutral_ohms(m, x);
    let i = or_zero(x.x_neutral);
    &&& told(m, r)
    &&& told(m, i)
    &&& if num_lt(ZERO, abs_of(r)) || num_lt(ZERO, abs_of(i)) {
        m.max(r, ZERO) == r && !num_lt(r, ZERO)
    } else {
        m.max(ZERO, ZERO) == r && i == ZERO
    }
}

/// A winding can be written again: it is on the wires that its phase code names,
/// with the neutral where it is grounded, and its numbers come back.
pub open spec fn winding_kept(m: Sem, x: WindingV) -> bool {
    &&& wound_map(x) == x.terminal_map
    &&& told(m, x.v_ref)
    &&& told(m, x.s_rating)
    &&& grounded_of(x) ==> neutral_kept(m, x)
    &&& z_base_of(m, x.v_ref, x.s_rating) matches Some(base) ==> ohms_kept(
        m,
        of_base_of(m, x.r_pct, base),
        base,
    )
}

/// The no-load tests of a transformer come back: an exciting current and a loss
/// are not zero, and the loss comes back from percent of the rating.
pub open spec fn noload_kept(m: Sem, xf: DistTransformerV) -> bool {
    let s = xf.windings[0].s_rating;
    &&& extra_num(m, xf.extras, "%imag"@) matches Some(i) ==> told(m, i) && num_lt(ZERO, abs_of(i))
    &&& loss_of(m, xf) matches Some(l) ==> {
        let pct = m.times(m.over(l, s), HUNDRED);
        &&& told(m, l)
        &&& num_lt(ZERO, s)
        &&& num_lt(ZERO, abs_of(l))
        &&& told(m, pct)
        &&& of_base_of(m, pct, s) == l
    }
}

/// A transformer can be written again: it has two windings, and its windings, the
/// reactance of its first pair and its no-load tests come back.
pub open spec fn transformer_kept(m: Sem, xf: DistTransformerV) -> bool {
    &&& 2 <= xf.windings.len() < u64::MAX
    &&& forall|k: int|
        0 <= k < xf.windings.len() ==> winding_kept(m, #[trigger] xf.windings[k])
    &&& z_base_of(m, xf.windings[0].v_ref, xf.windings[0].s_rating) matches Some(base)
        ==> ohms_kept(m, leakage(m, xf, base), base)
    &&& noload_kept(m, xf)
}

proof fn lemma_open_neutral()
    ensures
        num_lt(MINUS_ONE, ZERO),
{
    assert(num_lt(MINUS_ONE, ZERO));
}

/// A winding that comes back is written the same.
#[verifier::rlimit(40)]
proof fn lemma_winding_comes(m: Sem, back: WindingV, x: WindingV)
    requires
        comes_of_winding(m, back, x),
        winding_kept(m, x),
    ensures
        same_winding(m, x, back),
{
    lemma_open_neutral();
}

#[verifier::rlimit(40)]
proof fn lemma_transformer_comes(m: Sem, back: DistTransformerV, xf: DistTransformerV)
    requires
        comes_of_transformer(m, back, xf),
        transformer_kept(m, xf),
    ensures
        same_transformer(m, xf, back),
{
    lemma_identified_again("PowerTransformer"@, xf.name, extras_mrid_of(xf.extras));
    assert forall|k: int| 0 <= k < xf.windings.len() implies same_winding(
        m,
        #[trigger] xf.windings[k],
        back.windings[k],
    ) by {
        assert(comes_of_winding(m, back.windings[k], xf.windings[k]));
        assert(winding_kept(m, xf.windings[k]));
        lemma_winding_comes(m, back.windings[k], xf.windings[k]);
    }
    assert(winding_kept(m, xf.windings[0]));
    assert(same_winding(m, xf.windings[0], back.windings[0]));
    reveal(extra_num);
}

/// A winding that comes back claims the same volts for its bus.
pub proof fn lemma_claims_again(m: Sem, a: DistTransformerV, b: DistTransformerV, k: int)
    requires
        same_transformer(m, a, b),
        0 <= k < a.windings.len(),
    ensures
        winding_claim(m, a.windings[k]) == winding_claim(m, b.windings[k]),
{
    assert(same_winding(m, a.windings[k], b.windings[k]));
}

// ---- reading ---------------------------------------------------------------

/// The tank of a transformer finds the transformer and the datasheet.
pub open spec fn tank_reads(
    m: Sem,
    doc: Seq<ObjV>,
    table: Entries,
    assets: Entries,
    xf: DistTransformerV,
) -> bool {
    let a = get_of(assets, sheet_name(xf.name))->0->Obj_0;
    &&& tabled(m, table, assets, xf)
    &&& named_of(doc, "PowerTransformer"@, xf.name) == Some(get_of(table, xf.name)->0->Obj_0)
    &&& named_of(doc, "TransformerTankInfo"@, sheet_name(xf.name)) == Some(sheet_in(a, xf.name))
}

/// What the reader makes of a tank.
pub open spec fn tank_read(m: Sem, doc: Seq<ObjV>, st: StateV, o: ObjV) -> DistTransformerV {
    tank_step(m, doc, st, o).net.transformers.last()
}

/// A transformer that is read is written as the transformer that was.
pub proof fn lemma_tank_comes(
    m: Sem,
    doc: Seq<ObjV>,
    st: StateV,
    o: ObjV,
    table: Entries,
    assets: Entries,
    xf: DistTransformerV,
)
    requires
        o.name == xf.name,
        tank_ok(table, o),
        tank_reads(m, doc, table, assets, xf),
        transformer_kept(m, xf),
    ensures
        same_transformer(m, xf, tank_read(m, doc, st, o)),
{
    let a = get_of(assets, sheet_name(xf.name))->0->Obj_0;
    let p = get_of(table, xf.name)->0->Obj_0;
    lemma_tank_step(m, doc, st, o, p, sheet_in(a, xf.name), xf);
    lemma_transformer_comes(m, tank_read(m, doc, st, o), xf);
}

#[verifier::rlimit(40)]
proof fn lemma_end_plain(
    m: Sem,
    st: StateV,
    name: Seq<char>,
    infos: Seq<(u64, Entries)>,
    num: u64,
    end: Entries,
    x: WindingV,
    k: nat,
    buses: Seq<DistBusV>,
)
    requires
        says_end(m, end, x, k),
        declared(buses, x.bus),
    ensures
        plainly(st, end_step(m, st, name, infos, num, end).0, buses),
{
    broadcast use {lemma_use_declared, lemma_use_plain, lemma_ground_declared};

    reveal(StateV::warn);
    reveal(StateV::defaulted);
    reveal(StateV::ground_node);
    reveal(end_conn_of);
    reveal(end_clock_of);
    reveal(end_map_of);
    reveal(neutral_of);
}

proof fn lemma_ends_plain(
    m: Sem,
    st: StateV,
    name: Seq<char>,
    infos: Seq<(u64, Entries)>,
    ends: Seq<(u64, Entries)>,
    xs: Seq<WindingV>,
    n: nat,
    buses: Seq<DistBusV>,
)
    requires
        numbered(m, ends, infos, xs),
        n <= xs.len(),
        forall|k: int| 0 <= k < xs.len() ==> declared(buses, (#[trigger] xs[k]).bus),
    ensures
        plainly(st, windings_n(m, st, name, infos, ends, n).st, buses),
    decreases n,
{
    if n > 0 {
        let j = (n - 1) as nat;
        lemma_ends_plain(m, st, name, infos, ends, xs, j, buses);
        let before = windings_n(m, st, name, infos, ends, j).st;
        let e = ends[n - 1];
        assert(says_end(m, e.1, xs[n - 1], j));
        lemma_end_plain(m, before, name, infos, e.0, e.1, xs[n - 1], j, buses);
    }
}

proof fn lemma_tests_plain(
    m: Sem,
    st: StateV,
    name: Seq<char>,
    windings: nat,
    num: u64,
    info: Entries,
    x: Option<Bits>,
    tests: Seq<JsonV>,
    n: nat,
    buses: Seq<DistBusV>,
)
    ensures
        plainly(st, tests_n(m, st, name, windings, num, info, x, tests, n).0, buses),
    decreases n,
{
    reveal(StateV::warn);
    if n > 0 {
        lemma_tests_plain(m, st, name, windings, num, info, x, tests, (n - 1) as nat, buses);
    }
}

proof fn lemma_circuits_plain(
    m: Sem,
    st: StateV,
    name: Seq<char>,
    windings: nat,
    infos: Seq<(u64, Entries)>,
    n: nat,
    buses: Seq<DistBusV>,
)
    ensures
        plainly(st, circuit_n(m, st, name, windings, infos, n).0, buses),
    decreases n,
{
    if n > 0 {
        lemma_circuits_plain(m, st, name, windings, infos, (n - 1) as nat, buses);
        let before = circuit_n(m, st, name, windings, infos, (n - 1) as nat);
        assert forall|tests: Seq<JsonV>|
            plainly(
                before.0,
                (#[trigger] tests_n(
                    m,
                    before.0,
                    name,
                    windings,
                    infos[n - 1].0,
                    infos[n - 1].1,
                    before.1,
                    tests,
                    tests.len(),
                )).0,
                buses,
            ) by {
            lemma_tests_plain(
                m,
                before.0,
                name,
                windings,
                infos[n - 1].0,
                infos[n - 1].1,
                before.1,
                tests,
                tests.len(),
                buses,
            );
        }
    }
}

/// A tank is read plainly.
#[verifier::rlimit(40)]
pub proof fn lemma_tank_plain(
    m: Sem,
    doc: Seq<ObjV>,
    st: StateV,
    o: ObjV,
    table: Entries,
    assets: Entries,
    xf: DistTransformerV,
    buses: Seq<DistBusV>,
)
    requires
        o.name == xf.name,
        tank_ok(table, o),
        tank_reads(m, doc, table, assets, xf),
        transformer_kept(m, xf),
        forall|k: int|
            0 <= k < xf.windings.len() ==> declared(buses, (#[trigger] xf.windings[k]).bus),
    ensures
        plainly(st, tank_step(m, doc, st, o), buses),
{
    let a = get_of(assets, sheet_name(xf.name))->0->Obj_0;
    let sheet = sheet_in(a, xf.name);
    let infos = infos_of(sheet);
    let ends = ends_of(o.props);
    let n = xf.windings.len();
    assert(datasheet_of(doc, o.props) == Some(sheet));
    lemma_windings_read(m, st, o.name, infos, ends, xf.windings, n);
    lemma_ends_plain(m, st, o.name, infos, ends, xf.windings, n, buses);
    let e = windings_n(m, st, o.name, infos, ends, n);
    lemma_circuits_plain(m, e.st, o.name, n, infos, infos.len(), buses);
    reveal(reactances_of);
    reveal(tapped_of);
    reveal(StateV::warn);
    reveal(StateV::defaulted);
}

// ---- the tables ------------------------------------------------------------

/// The transformers as they are written, by name.
pub open spec fn transformer_pairs(w: WriterV, m: Sem, s: Seq<DistTransformerV>) -> Entries {
    Seq::new(
        s.len(),
        |i: int| (s[i].name, transformer_json(transformers_json(w, m, s, i as nat).0, m, s[i]).1),
    )
}

/// Their catalog entries, by name.
pub open spec fn asset_pairs(w: WriterV, m: Sem, s: Seq<DistTransformerV>) -> Entries {
    Seq::new(
        s.len(),
        |i: int|
            (
                sheet_name(s[i].name),
                transformer_json(transformers_json(w, m, s, i as nat).0, m, s[i]).2,
            ),
    )
}

/// Every transformer has two windings.
pub open spec fn all_wound(s: Seq<DistTransformerV>) -> bool {
    forall|i: int| 0 <= i < s.len() ==> (#[trigger] s[i]).windings.len() >= 2
}

pub proof fn lemma_transformer_pairs(w: WriterV, m: Sem, s: Seq<DistTransformerV>, n: nat)
    requires
        n <= s.len(),
        all_wound(s),
    ensures
        transformers_json(w, m, s, n).1 == table_n(transformer_pairs(w, m, s), n),
        transformers_json(w, m, s, n).2 == table_n(asset_pairs(w, m, s), n),
        even(w, transformers_json(w, m, s, n).0),
    decreases n,
{
    lemma_response_stands_alone();
    lemma_transformers_mild("LoadResponseCharacteristic"@, w, m, s, n);
    if n > 0 {
        lemma_transformer_pairs(w, m, s, (n - 1) as nat);
        assert(s[n - 1].windings.len() >= 2);
    }
}

/// A tank adds one transformer or none.
proof fn lemma_tank_adds(m: Sem, doc: Seq<ObjV>, st: StateV, o: ObjV)
    ensures
        ({
            let after = tank_step(m, doc, st, o).net.transformers;
            after == st.net.transformers || after == st.net.transformers.push(
                tank_read(m, doc, st, o),
            )
        }),
{
    broadcast use {group_keeps, group_parts};

    if let Some(sheet) = datasheet_of(doc, o.props) {
        let infos = infos_of(sheet);
        let ends = ends_of(o.props);
        let e = windings_n(m, st, o.name, infos, ends, ends.len());
        lemma_windings_keep(m, st, o.name, infos, ends, ends.len());
        lemma_reactances_keep(m, e.st, o.name, e.windings.len(), infos);
    }
}

/// Tanks are read of transformers of the table.
pub proof fn lemma_tank_origin(
    m: Sem,
    doc: Seq<ObjV>,
    st: StateV,
    ids: Seq<usize>,
    n: nat,
    k: int,
) -> (i:
    int)
    requires
        st.net.transformers.len() == 0,
        0 <= k < tanks_n(m, doc, st, ids, n).net.transformers.len(),
    ensures
        0 <= i < n,
        tanks_n(m, doc, st, ids, n).net.transformers[k] == tank_read(
            m,
            doc,
            tanks_n(m, doc, st, ids, i as nat),
            doc[ids[i] as int],
        ),
    decreases n,
{
    let before = tanks_n(m, doc, st, ids, (n - 1) as nat);
    if n > 0 {
        lemma_tank_adds(m, doc, before, doc[ids[n - 1] as int]);
    }
    if k < before.net.transformers.len() {
        let i = lemma_tank_origin(m, doc, st, ids, (n - 1) as nat, k);
        i
    } else {
        n - 1
    }
}

/// Each transformer of a network is found by its tank, and has a name of its own.
pub open spec fn all_read(
    w: WriterV,
    m: Sem,
    a: Seq<DistTransformerV>,
    doc: Seq<ObjV>,
) -> bool {
    let t = transformers_json(w, m, a, a.len());
    &&& tanks_in(t.1, doc)
    &&& forall|i: int|
        0 <= i < a.len() ==> transformer_kept(m, #[trigger] a[i]) && tank_reads(
            m,
            doc,
            t.1,
            t.2,
            a[i],
        )
    &&& forall|i: int, j: int|
        0 <= i < j < a.len() ==> (#[trigger] a[i]).name != (#[trigger] a[j]).name
}

/// A transformer that is read is written as one of those that were.
pub proof fn lemma_transformer_source(
    w: WriterV,
    m: Sem,
    a: Seq<DistTransformerV>,
    doc: Seq<ObjV>,
    st: StateV,
    k: int,
) -> (i: int)
    requires
        doc.len() <= usize::MAX,
        st.net.transformers.len() == 0,
        all_read(w, m, a, doc),
        ({
            let ids = sorted_kind(doc, "TransformerTank"@);
            0 <= k < tanks_n(m, doc, st, ids, ids.len()).net.transformers.len()
        }),
    ensures
        0 <= i < a.len(),
        ({
            let ids = sorted_kind(doc, "TransformerTank"@);
            same_transformer(m, a[i], tanks_n(m, doc, st, ids, ids.len()).net.transformers[k])
        }),
{
    let ids = sorted_kind(doc, "TransformerTank"@);
    let t = transformers_json(w, m, a, a.len());
    let at = lemma_tank_origin(m, doc, st, ids, ids.len(), k);
    lemma_kind_only(doc, Seq::empty(), "TransformerTank"@, doc.len(), at);
    let o = doc[ids[at] as int];
    assert(tank_ok(t.1, o));
    assert(all_wound(a)) by {
        assert forall|i: int| 0 <= i < a.len() implies (#[trigger] a[i]).windings.len() >= 2 by {
            assert(transformer_kept(m, a[i]));
        }
    }
    lemma_transformer_pairs(w, m, a, a.len());
    let i = lemma_table_entry(transformer_pairs(w, m, a), a.len(), o.name);
    assert(transformer_kept(m, a[i]));
    lemma_tank_comes(m, doc, tanks_n(m, doc, st, ids, at as nat), o, t.1, t.2, a[i]);
    i
}

/// The tables of transformers and of their catalog entries are written the same
/// again.
#[verifier::rlimit(40)]
pub proof fn lemma_transformers_written_again(
    w: WriterV,
    v: WriterV,
    m: Sem,
    a: Seq<DistTransformerV>,
    b: Seq<DistTransformerV>,
    doc: Seq<ObjV>,
    st: StateV,
)
    requires
        doc.len() <= usize::MAX,
        st.net.transformers.len() == 0,
        v.bases == w.bases,
        all_read(w, m, a, doc),
        ({
            let ids = sorted_kind(doc, "TransformerTank"@);
            b == tanks_n(m, doc, st, ids, ids.len()).net.transformers
        }),
        forall|i: int|
            0 <= i < a.len() ==> exists|k: int|
                0 <= k < b.len() && comes_of_transformer(m, #[trigger] b[k], #[trigger] a[i]),
    ensures
        transformers_json(v, m, b, b.len()).1 == transformers_json(w, m, a, a.len()).1,
        transformers_json(v, m, b, b.len()).2 == transformers_json(w, m, a, a.len()).2,
{
    let pa = transformer_pairs(w, m, a);
    let pb = transformer_pairs(v, m, b);
    let qa = asset_pairs(w, m, a);
    let qb = asset_pairs(v, m, b);
    assert(all_wound(a)) by {
        assert forall|i: int| 0 <= i < a.len() implies (#[trigger] a[i]).windings.len() >= 2 by {
            assert(transformer_kept(m, a[i]));
        }
    }
    assert(all_wound(b)) by {
        assert forall|j: int| 0 <= j < b.len() implies (#[trigger] b[j]).windings.len() >= 2 by {
            let i = lemma_transformer_source(w, m, a, doc, st, j);
            assert(a[i].windings.len() >= 2);
        }
    }
    lemma_transformer_pairs(w, m, a, a.len());
    lemma_transformer_pairs(v, m, b, b.len());
    assert forall|j: int| 0 <= j < pb.len() implies get_of(table_of(pa), (#[trigger] pb[j]).0)
        == Some(pb[j].1) && get_of(table_of(qa), qb[j].0) == Some(qb[j].1) by {
        let i = lemma_transformer_source(w, m, a, doc, st, j);
        lemma_transformer_pairs(w, m, a, i as nat);
        lemma_transformer_pairs(v, m, b, j as nat);
        assert(a[i].windings.len() >= 2);
        lemma_transformer_same(
            transformers_json(w, m, a, i as nat).0,
            transformers_json(v, m, b, j as nat).0,
            m,
            a[i],
            b[j],
        );
        assert(tank_reads(m, doc, table_of(pa), table_of(qa), a[i]));
        let x = lemma_table_entry(pa, pa.len(), a[i].name);
        assert(pa[x].0 == a[x].name);
        assert(x == i);
        let y = lemma_table_entry(qa, qa.len(), sheet_name(a[i].name));
        assert(qa[y].0 == sheet_name(a[y].name));
        lemma_sheet_names(a[y].name, a[i].name);
        assert(y == i);
    }
    assert forall|j: int| 0 <= j < qb.len() implies get_of(table_of(qa), (#[trigger] qb[j]).0)
        == Some(qb[j].1) by {
        assert(get_of(table_of(pa), pb[j].0) == Some(pb[j].1));
    }
    assert forall|i: int| 0 <= i < pa.len() implies named_in(pb, (#[trigger] pa[i]).0) && named_in(
        qb,
        qa[i].0,
    ) by {
        let e = a[i];
        let k = choose|k: int| 0 <= k < b.len() && comes_of_transformer(m, #[trigger] b[k], e);
        assert(pb[k].0 == pa[i].0);
        assert(qb[k].0 == qa[i].0);
    }
    assert forall|i: int| 0 <= i < qa.len() implies named_in(qb, (#[trigger] qa[i]).0) by {
        assert(named_in(pb, pa[i].0));
    }
    lemma_one_table(pa, pb);
    lemma_one_table(qa, qb);
}

/// Tanks are read plainly.
pub proof fn lemma_tanks_plain(
    w: WriterV,
    m: Sem,
    a: Seq<DistTransformerV>,
    doc: Seq<ObjV>,
    st: StateV,
    n: nat,
    buses: Seq<DistBusV>,
)
    requires
        doc.len() <= usize::MAX,
        n <= sorted_kind(doc, "TransformerTank"@).len(),
        all_read(w, m, a, doc),
        forall|i: int, k: int|
            0 <= i < a.len() && 0 <= k < a[i].windings.len() ==> declared(
                buses,
                (#[trigger] a[i].windings[k]).bus,
            ),
    ensures
        plainly(st, tanks_n(m, doc, st, sorted_kind(doc, "TransformerTank"@), n), buses),
    decreases n,
{
    if n > 0 {
        lemma_tanks_plain(w, m, a, doc, st, (n - 1) as nat, buses);
        let ids = sorted_kind(doc, "TransformerTank"@);
        let t = transformers_json(w, m, a, a.len());
        lemma_kind_only(doc, Seq::empty(), "TransformerTank"@, doc.len(), n - 1);
        let o = doc[ids[n - 1] as int];
        assert(tank_ok(t.1, o));
        assert(all_wound(a)) by {
            assert forall|i: int| 0 <= i < a.len() implies (#[trigger] a[i]).windings.len()
                >= 2 by {
                assert(transformer_kept(m, a[i]));
            }
        }
        lemma_transformer_pairs(w, m, a, a.len());
        let i = lemma_table_entry(transformer_pairs(w, m, a), a.len(), o.name);
        assert(transformer_kept(m, a[i]));
        let before = tanks_n(m, doc, st, ids, (n - 1) as nat);
        lemma_tank_plain(m, doc, before, o, t.1, t.2, a[i], buses);
    }
}

} // verus!
