//! Which line codes a written document comes back with.

use vstd::prelude::*;

use crate::cim::blocks::{
    blocks_of, bus_blocks, class_ids, datum_object, flat, frequency_block, lemma_class_ids_add,
    lemma_document_is_its_blocks, lemma_says, line_blocks, linecode_block, linecode_blocks,
    load_blocks, row_data, shunt_blocks, source_blocks, switch_blocks, transformer_blocks,
    triangle_data,
};
use crate::cim::elements::kept;
use crate::cim::read::{coded, data_n, datum_step, Triple};
use crate::cim::recall::{
    lemma_block_at, lemma_classes, lemma_prop_at, lemma_segments_lack, told_apart, written,
};
use crate::cim::store::{distinct_ids, of_class_n, prop_from, CimObjectV, PropV, StoreV};
use crate::cim::wiring::{lemma_refers_elsewhere, lemma_refers_flat, refers_to_one, refers_within};
use crate::cim::write::mrid_of;
use crate::math::{Bits, Sem, ZERO};
use crate::matrix::{halved, mirror_of, mirrored, to_usize_of};
use crate::model::{entry_of, filled_of, DistLineCodeV, DistNetworkV, MatV};
use crate::numeral::dec_of;
use crate::text::trim_of;

verus! {

// ---- matrices out of their lower triangles ---------------------------------

/// The symmetric matrix of a lower triangle of values, of which the rows before
/// the `i`-th are in, and of that row the first `j`.
pub open spec fn upto(n: nat, v: spec_fn(int, int) -> Bits, i: int, j: int) -> MatV {
    Seq::new(
        n,
        |a: int|
            Seq::new(
                n,
                |b: int|
                    {
                        let hi = if a < b {
                            b
                        } else {
                            a
                        };
                        let lo = if a < b {
                            a
                        } else {
                            b
                        };
                        if hi < i || (hi == i && lo < j) {
                            v(hi, lo)
                        } else {
                            ZERO
                        }
                    },
            ),
    )
}

proof fn lemma_upto_start(n: nat, v: spec_fn(int, int) -> Bits)
    ensures
        upto(n, v, 0, 0) == filled_of(n, ZERO),
{
    assert forall|a: int| 0 <= a < n implies upto(n, v, 0, 0)[a] == filled_of(n, ZERO)[a] by {
        assert(upto(n, v, 0, 0)[a] =~= filled_of(n, ZERO)[a]);
    }
    assert(upto(n, v, 0, 0) =~= filled_of(n, ZERO));
}

pub proof fn lemma_upto_end(n: nat, v: spec_fn(int, int) -> Bits)
    ensures
        upto(n, v, n as int, 0) == mirrored(n, v),
{
    assert forall|a: int| 0 <= a < n implies upto(n, v, n as int, 0)[a] == mirrored(n, v)[a] by {
        assert(upto(n, v, n as int, 0)[a] =~= mirrored(n, v)[a]);
    }
    assert(upto(n, v, n as int, 0) =~= mirrored(n, v));
}

proof fn lemma_upto_row(n: nat, v: spec_fn(int, int) -> Bits, i: int)
    requires
        0 <= i < n,
    ensures
        upto(n, v, i, i + 1) == upto(n, v, i + 1, 0),
{
    let x = upto(n, v, i, i + 1);
    let y = upto(n, v, i + 1, 0);
    assert forall|a: int| 0 <= a < n implies x[a] == y[a] by {
        assert(x[a] =~= y[a]);
    }
    assert(x =~= y);
}

proof fn lemma_upto_cell(n: nat, v: spec_fn(int, int) -> Bits, i: int, j: int)
    requires
        0 <= j <= i < n,
    ensures
        mirror_of(upto(n, v, i, j), i, j, v(i, j)) == upto(n, v, i, j + 1),
{
    let x = mirror_of(upto(n, v, i, j), i, j, v(i, j));
    let y = upto(n, v, i, j + 1);
    assert forall|a: int| 0 <= a < n implies x[a] == y[a] by {
        assert(x[a] =~= y[a]);
    }
    assert(x =~= y);
}

// ---- impedance data --------------------------------------------------------

/// The matrices with the first `k` of `ids` in, from what they held.
pub open spec fn data_from(
    m: Sem,
    s: StoreV,
    pli: Seq<char>,
    n: nat,
    t: Triple,
    ids: Seq<Seq<char>>,
    k: nat,
) -> Triple
    decreases k,
{
    if k == 0 {
        t
    } else {
        datum_step(m, s, pli, n, data_from(m, s, pli, n, t, ids, (k - 1) as nat), ids[k - 1])
    }
}

pub open spec fn no_data(n: nat) -> Triple {
    Triple { r: filled_of(n, ZERO), x: filled_of(n, ZERO), b: filled_of(n, ZERO) }
}

proof fn lemma_data_from(m: Sem, s: StoreV, pli: Seq<char>, n: nat, ids: Seq<Seq<char>>, k: nat)
    ensures
        data_n(m, s, pli, n, ids, k) == data_from(m, s, pli, n, no_data(n), ids, k),
    decreases k,
{
    if k > 0 {
        lemma_data_from(m, s, pli, n, ids, (k - 1) as nat);
    }
}

proof fn lemma_data_add(
    m: Sem,
    s: StoreV,
    pli: Seq<char>,
    n: nat,
    t: Triple,
    a: Seq<Seq<char>>,
    b: Seq<Seq<char>>,
    k: nat,
)
    requires
        k <= b.len(),
    ensures
        data_from(m, s, pli, n, t, a + b, (a.len() + k) as nat) == data_from(
            m,
            s,
            pli,
            n,
            data_from(m, s, pli, n, t, a, a.len()),
            b,
            k,
        ),
    decreases k,
{
    if k > 0 {
        lemma_data_add(m, s, pli, n, t, a, b, (k - 1) as nat);
        assert((a + b)[a.len() + k - 1] == b[k - 1]);
    } else {
        lemma_data_same(m, s, pli, n, t, a + b, a, a.len());
    }
}

proof fn lemma_data_same(
    m: Sem,
    s: StoreV,
    pli: Seq<char>,
    n: nat,
    t: Triple,
    a: Seq<Seq<char>>,
    b: Seq<Seq<char>>,
    k: nat,
)
    requires
        k <= a.len(),
        k <= b.len(),
        forall|i: int| 0 <= i < k ==> a[i] == b[i],
    ensures
        data_from(m, s, pli, n, t, a, k) == data_from(m, s, pli, n, t, b, k),
    decreases k,
{
    if k > 0 {
        lemma_data_same(m, s, pli, n, t, a, b, (k - 1) as nat);
    }
}

proof fn lemma_data_skip(
    m: Sem,
    s: StoreV,
    pli: Seq<char>,
    n: nat,
    t: Triple,
    ids: Seq<Seq<char>>,
    k: nat,
)
    requires
        k <= ids.len(),
        forall|i: int|
            0 <= i < k ==> s.refv(
                #[trigger] ids[i],
                "PhaseImpedanceData.PerLengthPhaseImpedance"@,
            ) != Some(pli),
    ensures
        data_from(m, s, pli, n, t, ids, k) == t,
    decreases k,
{
    if k > 0 {
        lemma_data_skip(m, s, pli, n, t, ids, (k - 1) as nat);
    }
}

proof fn lemma_data_keys()
    ensures
        "PhaseImpedanceData.PerLengthPhaseImpedance"@.len() == 42,
        "PhaseImpedanceData.row"@.len() == 22,
        "PhaseImpedanceData.column"@.len() == 25,
        "PhaseImpedanceData.r"@.len() == 20 && "PhaseImpedanceData.r"@[19] == 'r',
        "PhaseImpedanceData.x"@.len() == 20 && "PhaseImpedanceData.x"@[19] == 'x',
        "PhaseImpedanceData.b"@.len() == 20 && "PhaseImpedanceData.b"@[19] == 'b',
{
    reveal_strlit("PhaseImpedanceData.PerLengthPhaseImpedance");
    reveal_strlit("PhaseImpedanceData.row");
    reveal_strlit("PhaseImpedanceData.column");
    reveal_strlit("PhaseImpedanceData.r");
    reveal_strlit("PhaseImpedanceData.x");
    reveal_strlit("PhaseImpedanceData.b");
}

/// The susceptance that is written of a line code: that of both ends.
pub open spec fn written_b(m: Sem, lc: DistLineCodeV) -> spec_fn(int, int) -> Bits {
    |i: int, j: int| m.plus(entry_of(lc.b_from, i, j), entry_of(lc.b_to, i, j))
}

pub open spec fn written_series(a: MatV) -> spec_fn(int, int) -> Bits {
    |i: int, j: int| a[i][j]
}

/// The counts up to `n` read as the numbers they are.
pub open spec fn counts_to(m: Sem, n: nat) -> bool {
    forall|k: nat|
        1 <= k <= n ==> {
            let v = (m.parse)(trim_of(#[trigger] dec_of(k)));
            v is Some && to_usize_of(m.trunc(v->0)) == k
        }
}

/// The numbers of a line code's lower triangle come back from their texts.
pub open spec fn code_stands(m: Sem, lc: DistLineCodeV) -> bool {
    &&& lc.n_conductors > 0
    &&& counts_to(m, lc.n_conductors as nat)
    &&& forall|i: int, j: int|
        0 <= j <= i < lc.n_conductors ==> #[trigger] cell_kept(m, lc, i, j)
}

pub open spec fn cell_kept(m: Sem, lc: DistLineCodeV, i: int, j: int) -> bool {
    &&& kept(m, lc.r_series[i][j])
    &&& kept(m, lc.x_series[i][j])
    &&& kept(m, written_b(m, lc)(i, j))
}

/// A datum, read.
#[verifier::rlimit(40)]
proof fn lemma_datum_says(
    m: Sem,
    s: StoreV,
    at: int,
    lc: DistLineCodeV,
    id: Seq<char>,
    i: nat,
    j: nat,
)
    requires
        distinct_ids(s.objects),
        0 <= at < s.objects.len(),
        s.objects[at] == datum_object(m, lc, id, i, j),
        cell_kept(m, lc, i as int, j as int),
    ensures
        ({
            let d = s.objects[at].id;
            &&& s.refv(d, "PhaseImpedanceData.PerLengthPhaseImpedance"@) == Some(id)
            &&& s.number(m, d, "PhaseImpedanceData.row"@) == (m.parse)(trim_of(dec_of(i + 1)))
            &&& s.number(m, d, "PhaseImpedanceData.column"@) == (m.parse)(trim_of(dec_of(j + 1)))
            &&& s.number(m, d, "PhaseImpedanceData.r"@) == Some(lc.r_series[i as int][j as int])
            &&& s.number(m, d, "PhaseImpedanceData.x"@) == Some(lc.x_series[i as int][j as int])
            &&& s.number(m, d, "PhaseImpedanceData.b"@) == Some(
                written_b(m, lc)(i as int, j as int),
            )
        }),
{
    lemma_data_keys();
    lemma_says(s, at);
    let d = s.objects[at].id;
    let props = s.objects[at].props;
    lemma_prop_at(props, "PhaseImpedanceData.PerLengthPhaseImpedance"@, 0, 0);
    lemma_prop_at(props, "PhaseImpedanceData.row"@, 0, 1);
    lemma_prop_at(props, "PhaseImpedanceData.column"@, 0, 2);
    lemma_prop_at(props, "PhaseImpedanceData.r"@, 0, 3);
    lemma_prop_at(props, "PhaseImpedanceData.x"@, 0, 4);
    lemma_prop_at(props, "PhaseImpedanceData.b"@, 0, 5);
    assert(s.prop(d, "PhaseImpedanceData.PerLengthPhaseImpedance"@) == Some(props[0].1));
    assert(s.prop(d, "PhaseImpedanceData.row"@) == Some(props[1].1));
    assert(s.prop(d, "PhaseImpedanceData.column"@) == Some(props[2].1));
    assert(s.prop(d, "PhaseImpedanceData.r"@) == Some(props[3].1));
    assert(s.prop(d, "PhaseImpedanceData.x"@) == Some(props[4].1));
    assert(s.prop(d, "PhaseImpedanceData.b"@) == Some(props[5].1));
    reveal(StoreV::refv);
    reveal(StoreV::number);
    reveal(StoreV::text);
}

proof fn lemma_row_ids(m: Sem, lc: DistLineCodeV, id: Seq<char>, i: nat, j: nat)
    ensures
        row_data(m, lc, id, i, j).len() == j,
        forall|k: int|
            0 <= k < j ==> #[trigger] row_data(m, lc, id, i, j)[k] == datum_object(
                m,
                lc,
                id,
                i,
                k as nat,
            ),
        class_ids(row_data(m, lc, id, i, j), "PhaseImpedanceData"@) == Seq::new(
            j,
            |k: int| datum_object(m, lc, id, i, k as nat).id,
        ),
    decreases j,
{
    let class = "PhaseImpedanceData"@;
    let want = Seq::new(j, |k: int| datum_object(m, lc, id, i, k as nat).id);
    if j > 0 {
        lemma_row_ids(m, lc, id, i, (j - 1) as nat);
        let before = row_data(m, lc, id, i, (j - 1) as nat);
        let last = datum_object(m, lc, id, i, (j - 1) as nat);
        assert(row_data(m, lc, id, i, j) =~= before + seq![last]);
        lemma_class_ids_add(before, seq![last], class);
        reveal_with_fuel(of_class_n, 2);
        assert(class_ids(seq![last], class) =~= seq![last.id]);
        assert(class_ids(row_data(m, lc, id, i, j), class) =~= want);
    } else {
        assert(class_ids(row_data(m, lc, id, i, j), class) =~= want);
    }
}

/// The matrices of a row's data.
pub open spec fn triple_upto(m: Sem, lc: DistLineCodeV, i: int, j: int) -> Triple {
    let n = lc.n_conductors as nat;
    Triple {
        r: upto(n, written_series(lc.r_series), i, j),
        x: upto(n, written_series(lc.x_series), i, j),
        b: upto(n, written_b(m, lc), i, j),
    }
}

/// Objects stand somewhere in a store.
pub open spec fn stands_in(s: StoreV, at: int, part: Seq<CimObjectV>) -> bool {
    &&& 0 <= at
    &&& at + part.len() <= s.objects.len()
    &&& forall|k: int| 0 <= k < part.len() ==> s.objects[at + k] == #[trigger] part[k]
}

#[verifier::rlimit(40)]
proof fn lemma_row_reads(
    m: Sem,
    s: StoreV,
    lc: DistLineCodeV,
    id: Seq<char>,
    i: nat,
    j: nat,
    at: int,
)
    requires
        distinct_ids(s.objects),
        code_stands(m, lc),
        i < lc.n_conductors,
        j <= i + 1,
        stands_in(s, at, row_data(m, lc, id, i, (i + 1) as nat)),
    ensures
        data_from(
            m,
            s,
            id,
            lc.n_conductors as nat,
            triple_upto(m, lc, i as int, 0),
            class_ids(row_data(m, lc, id, i, (i + 1) as nat), "PhaseImpedanceData"@),
            j,
        ) == triple_upto(m, lc, i as int, j as int),
    decreases j,
{
    if j > 0 {
        let row = row_data(m, lc, id, i, (i + 1) as nat);
        let c = (j - 1) as nat;
        lemma_row_reads(m, s, lc, id, i, c, at);
        lemma_row_ids(m, lc, id, i, (i + 1) as nat);
        assert(row[c as int] == datum_object(m, lc, id, i, c));
        assert(s.objects[at + c] == row[c as int]);
        assert(cell_kept(m, lc, i as int, c as int));
        lemma_datum_says(m, s, at + c, lc, id, i, c);
        let n = lc.n_conductors as nat;
        assert(dec_of(i + 1) == dec_of((i + 1) as nat) && dec_of(c + 1) == dec_of((c + 1) as nat));
        lemma_upto_cell(n, written_series(lc.r_series), i as int, c as int);
        lemma_upto_cell(n, written_series(lc.x_series), i as int, c as int);
        lemma_upto_cell(n, written_b(m, lc), i as int, c as int);
    }
}

#[verifier::rlimit(40)]
pub proof fn lemma_triangle_reads(
    m: Sem,
    s: StoreV,
    lc: DistLineCodeV,
    id: Seq<char>,
    i: nat,
    at: int,
)
    requires
        distinct_ids(s.objects),
        code_stands(m, lc),
        i <= lc.n_conductors,
        stands_in(s, at, triangle_data(m, lc, id, i)),
    ensures
        ({
            let ids = class_ids(triangle_data(m, lc, id, i), "PhaseImpedanceData"@);
            data_from(
                m,
                s,
                id,
                lc.n_conductors as nat,
                no_data(lc.n_conductors as nat),
                ids,
                ids.len(),
            ) == triple_upto(m, lc, i as int, 0)
        }),
    decreases i,
{
    let n = lc.n_conductors as nat;
    let class = "PhaseImpedanceData"@;
    if i == 0 {
        lemma_upto_start(n, written_series(lc.r_series));
        lemma_upto_start(n, written_series(lc.x_series));
        lemma_upto_start(n, written_b(m, lc));
        assert(class_ids(triangle_data(m, lc, id, i), class).len() == 0);
    } else {
        let r = (i - 1) as nat;
        let before = triangle_data(m, lc, id, r);
        let row = row_data(m, lc, id, r, i);
        let all = triangle_data(m, lc, id, i);
        assert(all == before + row);
        assert forall|k: int| 0 <= k < before.len() implies s.objects[at + k] == #[trigger] before[k] by {
            assert(all[k] == before[k]);
        }
        let mid = at + before.len();
        assert forall|k: int| 0 <= k < row.len() implies s.objects[mid + k] == #[trigger] row[k] by {
            assert(all[before.len() + k] == row[k]);
        }
        lemma_triangle_reads(m, s, lc, id, r, at);
        lemma_row_reads(m, s, lc, id, r, i, mid);
        lemma_class_ids_add(before, row, class);
        lemma_row_ids(m, lc, id, r, i);
        let ia = class_ids(before, class);
        let ib = class_ids(row, class);
        lemma_data_add(m, s, id, n, no_data(n), ia, ib, ib.len());
        lemma_upto_row(n, written_series(lc.r_series), r as int);
        lemma_upto_row(n, written_series(lc.x_series), r as int);
        lemma_upto_row(n, written_b(m, lc), r as int);
    }
}

proof fn lemma_row_refers(m: Sem, lc: DistLineCodeV, id: Seq<char>, i: nat, j: nat)
    ensures
        forall|k: int|
            0 <= k < row_data(m, lc, id, i, j).len() ==> prop_from(
                (#[trigger] row_data(m, lc, id, i, j)[k]).props,
                "PhaseImpedanceData.PerLengthPhaseImpedance"@,
                0,
            ) == Some(PropV::Ref(id)),
    decreases j,
{
    if j > 0 {
        lemma_row_refers(m, lc, id, i, (j - 1) as nat);
    }
}

proof fn lemma_triangle_refers(m: Sem, lc: DistLineCodeV, id: Seq<char>, i: nat)
    ensures
        forall|k: int|
            0 <= k < triangle_data(m, lc, id, i).len() ==> prop_from(
                (#[trigger] triangle_data(m, lc, id, i)[k]).props,
                "PhaseImpedanceData.PerLengthPhaseImpedance"@,
                0,
            ) == Some(PropV::Ref(id)),
    decreases i,
{
    if i > 0 {
        lemma_triangle_refers(m, lc, id, (i - 1) as nat);
        lemma_row_refers(m, lc, id, (i - 1) as nat, i);
        let before = triangle_data(m, lc, id, (i - 1) as nat);
        let row = row_data(m, lc, id, (i - 1) as nat, i);
        let all = triangle_data(m, lc, id, i);
        assert forall|k: int| 0 <= k < all.len() implies prop_from(
            (#[trigger] all[k]).props,
            "PhaseImpedanceData.PerLengthPhaseImpedance"@,
            0,
        ) == Some(PropV::Ref(id)) by {
            if k < before.len() {
                assert(all[k] == before[k]);
            } else {
                assert(all[k] == row[k - before.len()]);
            }
        }
    }
}

proof fn lemma_linecode_data(m: Sem, lc: DistLineCodeV)
    ensures
        refers_within(
            linecode_block(m, lc),
            "PhaseImpedanceData"@,
            "PhaseImpedanceData.PerLengthPhaseImpedance"@,
        ),
{
    let class = "PhaseImpedanceData"@;
    let key = "PhaseImpedanceData.PerLengthPhaseImpedance"@;
    let id = mrid_of(lc.extras, "plpi"@, lc.name);
    let b = linecode_block(m, lc);
    let t = triangle_data(m, lc, id, lc.n_conductors as nat);
    lemma_triangle_refers(m, lc, id, lc.n_conductors as nat);
    lemma_classes();
    assert forall|i: int| 0 <= i < b.len() && (#[trigger] b[i]).class == class implies refers_to_one(
        b,
        b[i],
        key,
    ) by {
        assert(i > 0);
        assert(b[i] == t[i - 1]);
        assert(prop_from(b[i].props, key, 0) == Some(PropV::Ref(b[0].id)));
    }
}

#[verifier::rlimit(40)]
proof fn lemma_block_data(m: Sem, net: DistNetworkV, k: int)
    requires
        0 <= k < blocks_of(m, net).len(),
    ensures
        refers_within(
            blocks_of(m, net)[k],
            "PhaseImpedanceData"@,
            "PhaseImpedanceData.PerLengthPhaseImpedance"@,
        ),
{
    let class = "PhaseImpedanceData"@;
    lemma_classes();
    lemma_segments_lack(m, net, class);
    let n1 = 1int;
    let n2 = n1 + net.buses.len();
    let n3 = n2 + net.linecodes.len();
    let n4 = n3 + net.lines.len();
    let n5 = n4 + net.loads.len();
    let n6 = n5 + net.shunts.len();
    let n7 = n6 + net.switches.len();
    let n8 = n7 + net.transformers.len();
    let b = blocks_of(m, net)[k];
    if k < n1 {
        assert(b == seq![frequency_block(m, net)][k]);
    } else if k < n2 {
        assert(b == bus_blocks(net)[k - n1]);
    } else if k < n3 {
        lemma_linecode_data(m, net.linecodes[k - n2]);
        assert(b == linecode_blocks(m, net)[k - n2]);
    } else if k < n4 {
        assert(b == line_blocks(m, net)[k - n3]);
    } else if k < n5 {
        assert(b == load_blocks(m, net)[k - n4]);
    } else if k < n6 {
        assert(b == shunt_blocks(m, net)[k - n5]);
    } else if k < n7 {
        assert(b == switch_blocks(net)[k - n6]);
    } else if k < n8 {
        assert(b == transformer_blocks(m, net)[k - n7]);
    } else {
        assert(b == source_blocks(m, net)[k - n8]);
    }
}

/// The data of an impedance are those of its block.
#[verifier::rlimit(40)]
pub proof fn lemma_data_of_block(m: Sem, net: DistNetworkV, k: int, n: nat)
    requires
        told_apart(m, net),
        0 <= k < blocks_of(m, net).len(),
        blocks_of(m, net)[k].len() > 0,
    ensures
        ({
            let s = written(m, net);
            let b = blocks_of(m, net)[k];
            let ids = class_ids(b, "PhaseImpedanceData"@);
            let all = s.of_class("PhaseImpedanceData"@);
            data_n(m, s, b[0].id, n, all, all.len()) == data_from(
                m,
                s,
                b[0].id,
                n,
                no_data(n),
                ids,
                ids.len(),
            )
        }),
{
    let s = written(m, net);
    let class = "PhaseImpedanceData"@;
    let key = "PhaseImpedanceData.PerLengthPhaseImpedance"@;
    lemma_document_is_its_blocks(m, net);
    let bs = blocks_of(m, net);
    let b = bs[k];
    let p = flat(bs.take(k));
    let q = flat(bs.skip(k + 1));
    lemma_block_at(bs, k);
    assert(s.objects == p + b + q);
    assert forall|i: int| 0 <= i < bs.take(k).len() implies refers_within(
        #[trigger] bs.take(k)[i],
        class,
        key,
    ) by {
        lemma_block_data(m, net, i);
    }
    lemma_refers_flat(bs.take(k), class, key);
    assert forall|i: int| 0 <= i < bs.skip(k + 1).len() implies refers_within(
        #[trigger] bs.skip(k + 1)[i],
        class,
        key,
    ) by {
        lemma_block_data(m, net, k + 1 + i);
    }
    lemma_refers_flat(bs.skip(k + 1), class, key);
    let owner = p.len() as int;
    assert(s.objects[owner] == b[0]);
    let eq = b[0].id;
    let ia = class_ids(p, class);
    let ib = class_ids(b, class);
    let ic = class_ids(q, class);
    assert forall|i: int| 0 <= i < ia.len() implies s.refv(#[trigger] ia[i], key) != Some(eq) by {
        lemma_refers_elsewhere(s, p, 0, class, key, owner, i);
    }
    assert forall|i: int| 0 <= i < ic.len() implies s.refv(#[trigger] ic[i], key) != Some(eq) by {
        lemma_refers_elsewhere(s, q, (p + b).len() as int, class, key, owner, i);
    }
    lemma_class_ids_add(p + b, q, class);
    lemma_class_ids_add(p, b, class);
    let all = s.of_class(class);
    assert(all == ia + ib + ic) by {
        reveal(StoreV::of_class);
    }
    lemma_data_from(m, s, eq, n, all, all.len());
    lemma_data_add(m, s, eq, n, no_data(n), ia + ib, ic, ic.len());
    lemma_data_add(m, s, eq, n, no_data(n), ia, ib, ib.len());
    lemma_data_skip(m, s, eq, n, no_data(n), ia, ia.len());
    let mid = data_from(m, s, eq, n, no_data(n), ib, ib.len());
    lemma_data_skip(m, s, eq, n, mid, ic, ic.len());
}

/// The matrices that come back of a line code.
pub open spec fn returned_triple(m: Sem, lc: DistLineCodeV) -> Triple {
    let n = lc.n_conductors as nat;
    Triple {
        r: mirrored(n, written_series(lc.r_series)),
        x: mirrored(n, written_series(lc.x_series)),
        b: mirrored(n, written_b(m, lc)),
    }
}

/// The line code that comes back of a line code: its matrices mirrored from
/// their lower triangles, and the susceptance of both ends shared evenly.
pub open spec fn returned_code(m: Sem, lc: DistLineCodeV) -> DistLineCodeV {
    let t = returned_triple(m, lc);
    coded(lc.name, t.r, t.x, halved(m, t.b))
}

} // verus!
