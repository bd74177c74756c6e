//! Which transformers a written document comes back with.

use vstd::prelude::*;

use crate::cim::blocks::{
    blocks_of, bus_blocks, class_ids, end_object, flat, frequency_block, kind_ref,
    lemma_class_ids_add, lemma_document_is_its_blocks, line_blocks, linecode_blocks, load_blocks,
    named_object, shunt_blocks, source_blocks, switch_blocks, terminal_object, transformer_block,
    transformer_blocks,
};
use crate::cim::apparatus::lemma_no_such;
use crate::cim::elements::{kept, lemma_block_place, lemma_ids_of_first};
use crate::cim::laws::safe_ids;
use crate::cim::read::{
    cim_text, end_phases, end_x_sum, ends_n, ends_of, hot_count_n, imported, lines_of, loads_of,
    network_of, phase_count_from, reactance_of, transformers_n, transformers_of, winding_at,
    windings_n, with_neutral_of, z_base_of,
};
use crate::cim::recall::{
    lemma_block_at, lemma_class_over_segments, lemma_classes, lemma_flat_lacks, lemma_flat_ones,
    lemma_linecode_lacks, lemma_named_says, lemma_reads_as, lemma_segments_lack, told_apart,
    written,
};
use crate::cim::store::{distinct_ids, of_class_n, PropV, StoreV};
use crate::cim::wires::{lemma_first_ref, lemma_named_prop};
use crate::cim::wiring::{
    codable, counts, lemma_code_expands_to_its_map, lemma_kind_says, lemma_node_of_names,
    lemma_refers_elsewhere, lemma_refers_flat, lemma_terminal_reads, refers_to_one, refers_within,
};
use crate::cim::write::{
    base_or_zero, cim_xml, det_mrid_of, mrid_of, node_of, phase_code_of, terminal_id, value_or_zero,
};
use crate::math::{Bits, Sem, HUNDRED, ZERO};
use crate::model::{
    dist_transformer_of, winding_of, Configuration, DistNetworkV, DistTransformerV, WindingConn,
    WindingV,
};
use crate::numeral::dec_of;
use crate::order::{insert_by_rank_of, slot_by_rank};
use crate::text::trim_of;

verus! {

// ---- what comes back -------------------------------------------------------

/// The resistance that is written of a winding, in ohm.
pub open spec fn written_r(m: Sem, w: WindingV) -> Bits {
    m.times(m.over(w.r_pct, HUNDRED), base_or_zero(m, w))
}

/// The reactance that is written of the pair, in ohm at the first winding.
pub open spec fn written_x(m: Sem, xf: DistTransformerV) -> Bits {
    m.times(m.over(value_or_zero(xf.xsc_pct, 0), HUNDRED), base_or_zero(m, xf.windings[0]))
}

/// The wires a winding comes back on: a wye has the neutral among them.
pub open spec fn returned_map(w: WindingV) -> Seq<Seq<char>> {
    if w.conn == WindingConn::Wye {
        with_neutral_of(w.terminal_map, Configuration::Wye)
    } else {
        w.terminal_map
    }
}

/// The winding that comes back of a winding. Its resistance goes through ohms,
/// and is lost where it has no impedance base.
pub open spec fn returned_winding(m: Sem, net: DistNetworkV, w: WindingV) -> WindingV {
    let bare = winding_of(
        net.bus(w.bus)->0.id,
        returned_map(w),
        w.conn,
        w.v_ref,
        w.s_rating,
    );
    match z_base_of(m, w.v_ref, w.s_rating) {
        Some(base) => WindingV {
            r_pct: m.times(m.over(written_r(m, w), base), HUNDRED),
            ..bare
        },
        None => bare,
    }
}

pub open spec fn phases_on(w: WindingV) -> nat {
    hot_count_n(w.terminal_map, w.terminal_map.len())
}

/// The phases a transformer comes back with: those of its first winding, else
/// those of its second, else three.
pub open spec fn returned_phases(xf: DistTransformerV) -> nat {
    if phases_on(xf.windings[0]) > 0 {
        phases_on(xf.windings[0])
    } else if phases_on(xf.windings[1]) > 0 {
        phases_on(xf.windings[1])
    } else {
        3
    }
}

/// The reactance a transformer comes back with: through ohms at its first
/// winding.
pub open spec fn returned_x(m: Sem, xf: DistTransformerV) -> Bits {
    match z_base_of(m, xf.windings[0].v_ref, xf.windings[0].s_rating) {
        Some(base) => m.times(
            m.over(m.plus(m.plus(ZERO, written_x(m, xf)), ZERO), base),
            HUNDRED,
        ),
        None => ZERO,
    }
}

/// The transformer that comes back of a transformer.
pub open spec fn returned_transformer(
    m: Sem,
    net: DistNetworkV,
    xf: DistTransformerV,
) -> DistTransformerV {
    DistTransformerV {
        extras: imported(mrid_of(xf.extras, "xf"@, xf.name)),
        ..dist_transformer_of(
            xf.name,
            seq![
                returned_winding(m, net, xf.windings[0]),
                returned_winding(m, net, xf.windings[1]),
            ],
            seq![returned_x(m, xf)],
            returned_phases(xf) as usize,
        )
    }
}

/// A winding stands at a bus of the network, on wires that a phase code names.
pub open spec fn winding_stands(m: Sem, net: DistNetworkV, w: WindingV) -> bool {
    &&& net.bus(w.bus) is Some
    &&& codable(w.terminal_map)
    &&& kept(m, w.v_ref)
    &&& kept(m, w.s_rating)
    &&& kept(m, written_r(m, w))
}

/// A transformer has two windings, each at a bus of the network.
pub open spec fn transformer_stands(m: Sem, net: DistNetworkV, xf: DistTransformerV) -> bool {
    &&& xf.windings.len() == 2
    &&& winding_stands(m, net, xf.windings[0])
    &&& winding_stands(m, net, xf.windings[1])
    &&& kept(m, written_x(m, xf))
    &&& kept(m, ZERO)
}

// ---- ends ------------------------------------------------------------------

proof fn lemma_ends_same(
    m: Sem,
    s: StoreV,
    xf: Seq<char>,
    a: Seq<Seq<char>>,
    b: Seq<Seq<char>>,
    n: nat,
)
    requires
        n <= a.len(),
        n <= b.len(),
        forall|i: int| 0 <= i < n ==> a[i] == b[i],
    ensures
        ends_n(m, s, xf, a, n) == ends_n(m, s, xf, b, n),
    decreases n,
{
    if n > 0 {
        lemma_ends_same(m, s, xf, a, b, (n - 1) as nat);
    }
}

proof fn lemma_ends_skip(m: Sem, s: StoreV, xf: Seq<char>, ids: Seq<Seq<char>>, a: nat, b: nat)
    requires
        a <= b <= ids.len(),
        forall|i: int|
            a <= i < b ==> s.refv(#[trigger] ids[i], "PowerTransformerEnd.PowerTransformer"@)
                != Some(xf),
    ensures
        ends_n(m, s, xf, ids, b) == ends_n(m, s, xf, ids, a),
    decreases b - a,
{
    if a < b {
        lemma_ends_skip(m, s, xf, ids, a, (b - 1) as nat);
    }
}

proof fn lemma_ends_shift(
    m: Sem,
    s: StoreV,
    xf: Seq<char>,
    a: Seq<Seq<char>>,
    b: Seq<Seq<char>>,
    n: nat,
)
    requires
        n <= b.len(),
        forall|i: int|
            0 <= i < a.len() ==> s.refv(#[trigger] a[i], "PowerTransformerEnd.PowerTransformer"@)
                != Some(xf),
    ensures
        ends_n(m, s, xf, a + b, (a.len() + n) as nat) == ends_n(m, s, xf, b, n),
    decreases n,
{
    if n == 0 {
        assert forall|i: int| 0 <= i < a.len() implies s.refv(
            #[trigger] (a + b)[i],
            "PowerTransformerEnd.PowerTransformer"@,
        ) != Some(xf) by {
            assert((a + b)[i] == a[i]);
        }
        lemma_ends_skip(m, s, xf, a + b, 0, a.len());
    } else {
        lemma_ends_shift(m, s, xf, a, b, (n - 1) as nat);
        assert((a + b)[a.len() + n - 1] == b[n - 1]);
    }
}

proof fn lemma_ends_middle(
    m: Sem,
    s: StoreV,
    xf: Seq<char>,
    a: Seq<Seq<char>>,
    b: Seq<Seq<char>>,
    c: Seq<Seq<char>>,
)
    requires
        forall|i: int|
            0 <= i < a.len() ==> s.refv(#[trigger] a[i], "PowerTransformerEnd.PowerTransformer"@)
                != Some(xf),
        forall|i: int|
            0 <= i < c.len() ==> s.refv(#[trigger] c[i], "PowerTransformerEnd.PowerTransformer"@)
                != Some(xf),
    ensures
        ends_n(m, s, xf, a + b + c, (a + b + c).len()) == ends_n(m, s, xf, b, b.len()),
{
    let all = a + b + c;
    let n = (a.len() + b.len()) as nat;
    assert forall|i: int| n <= i < all.len() implies s.refv(
        #[trigger] all[i],
        "PowerTransformerEnd.PowerTransformer"@,
    ) != Some(xf) by {
        assert(all[i] == c[i - n]);
    }
    lemma_ends_skip(m, s, xf, all, n, all.len());
    lemma_ends_same(m, s, xf, all, a + b, n);
    lemma_ends_shift(m, s, xf, a, b, b.len());
}

/// The other properties of a transformer end.
pub open spec fn end_more(m: Sem, xf: DistTransformerV, id: Seq<char>, e: nat) -> Seq<
    (Seq<char>, PropV),
> {
    let w = xf.windings[e as int];
    seq![
        ("PowerTransformerEnd.PowerTransformer"@, PropV::Ref(id)),
        ("TransformerEnd.endNumber"@, PropV::Text(dec_of(e + 1))),
        ("TransformerEnd.Terminal"@, PropV::Ref(terminal_id(id, e + 1))),
        ("PowerTransformerEnd.ratedU"@, PropV::Text((m.show)(w.v_ref))),
        ("PowerTransformerEnd.ratedS"@, PropV::Text((m.show)(w.s_rating))),
        (
            "PowerTransformerEnd.connectionKind"@,
            kind_ref(
                "WindingConnection."@ + match w.conn {
                    WindingConn::Delta => "D"@,
                    WindingConn::Wye => "Yn"@,
                },
            ),
        ),
        ("PowerTransformerEnd.r"@, PropV::Text((m.show)(written_r(m, w)))),
        (
            "PowerTransformerEnd.x"@,
            PropV::Text(
                (m.show)(
                    if e == 0 {
                        written_x(m, xf)
                    } else {
                        ZERO
                    },
                ),
            ),
        ),
    ]
}

pub open spec fn end_id(xf: DistTransformerV, e: nat) -> Seq<char> {
    det_mrid_of("xfend"@, xf.name + ":"@ + dec_of(e + 1))
}

proof fn lemma_end_object(m: Sem, xf: DistTransformerV, id: Seq<char>, e: nat)
    requires
        e < xf.windings.len(),
    ensures
        end_object(m, xf, id, e) == named_object(
            "PowerTransformerEnd"@,
            end_id(xf, e),
            xf.name + "_end"@ + dec_of(e + 1),
            end_more(m, xf, id, e),
        ),
{
}

proof fn lemma_end_keys()
    ensures
        "PowerTransformerEnd.PowerTransformer"@.len() == 36
            && "PowerTransformerEnd.PowerTransformer"@[0] == 'P',
        "TransformerEnd.endNumber"@.len() == 24 && "TransformerEnd.endNumber"@[0] == 'T',
        "TransformerEnd.Terminal"@.len() == 23 && "TransformerEnd.Terminal"@[0] == 'T',
        "PowerTransformerEnd.ratedU"@.len() == 26 && "PowerTransformerEnd.ratedU"@[0] == 'P',
        "PowerTransformerEnd.ratedU"@[25] == 'U',
        "PowerTransformerEnd.ratedS"@.len() == 26 && "PowerTransformerEnd.ratedS"@[0] == 'P',
        "PowerTransformerEnd.ratedS"@[25] == 'S',
        "PowerTransformerEnd.connectionKind"@.len() == 34
            && "PowerTransformerEnd.connectionKind"@[0] == 'P',
        "PowerTransformerEnd.r"@.len() == 21 && "PowerTransformerEnd.r"@[0] == 'P',
        "PowerTransformerEnd.r"@[20] == 'r',
        "PowerTransformerEnd.x"@.len() == 21 && "PowerTransformerEnd.x"@[0] == 'P',
        "PowerTransformerEnd.x"@[20] == 'x',
{
    reveal_strlit("PowerTransformerEnd.PowerTransformer");
    reveal_strlit("TransformerEnd.endNumber");
    reveal_strlit("TransformerEnd.Terminal");
    reveal_strlit("PowerTransformerEnd.ratedU");
    reveal_strlit("PowerTransformerEnd.ratedS");
    reveal_strlit("PowerTransformerEnd.connectionKind");
    reveal_strlit("PowerTransformerEnd.r");
    reveal_strlit("PowerTransformerEnd.x");
}

/// An end object, property by property.
pub proof fn lemma_end_props(
    m: Sem,
    s: StoreV,
    at: int,
    xf: DistTransformerV,
    id: Seq<char>,
    e: nat,
)
    requires
        distinct_ids(s.objects),
        0 <= at < s.objects.len(),
        e < xf.windings.len(),
        s.objects[at] == end_object(m, xf, id, e),
    ensures
        forall|j: int|
            0 <= j < 8 ==> s.prop(end_id(xf, e), (#[trigger] end_more(m, xf, id, e)[j]).0) == Some(
                end_more(m, xf, id, e)[j].1,
            ),
{
    lemma_end_object(m, xf, id, e);
    lemma_end_keys();
    let more = end_more(m, xf, id, e);
    let name = xf.name + "_end"@ + dec_of(e + 1);
    assert forall|j: int| 0 <= j < 8 implies s.prop(end_id(xf, e), (#[trigger] more[j]).0) == Some(
        more[j].1,
    ) by {
        lemma_named_prop(s, at, "PowerTransformerEnd"@, end_id(xf, e), name, more, j);
    }
}

/// What an end says.
#[verifier::rlimit(40)]
proof fn lemma_end_says(m: Sem, s: StoreV, at: int, xf: DistTransformerV, id: Seq<char>, e: nat)
    requires
        distinct_ids(s.objects),
        0 <= at < s.objects.len(),
        e < xf.windings.len() == 2,
        s.objects[at] == end_object(m, xf, id, e),
        kept(m, xf.windings[e as int].v_ref),
        kept(m, xf.windings[e as int].s_rating),
        kept(m, written_r(m, xf.windings[e as int])),
        kept(m, written_x(m, xf)),
        kept(m, ZERO),
    ensures
        ({
            let w = xf.windings[e as int];
            let end = end_id(xf, e);
            &&& s.refv(end, "PowerTransformerEnd.PowerTransformer"@) == Some(id)
            &&& s.number(m, end, "TransformerEnd.endNumber"@) == (m.parse)(trim_of(dec_of(e + 1)))
            &&& s.refv(end, "TransformerEnd.Terminal"@) == Some(terminal_id(id, e + 1))
            &&& s.number(m, end, "PowerTransformerEnd.ratedU"@) == Some(w.v_ref)
            &&& s.number(m, end, "PowerTransformerEnd.ratedS"@) == Some(w.s_rating)
            &&& (s.enum_value(end, "PowerTransformerEnd.connectionKind"@) == Some("D"@)
                <==> w.conn == WindingConn::Delta)
            &&& s.number(m, end, "PowerTransformerEnd.r"@) == Some(written_r(m, w))
            &&& s.number(m, end, "PowerTransformerEnd.x"@) == Some(
                if e == 0 {
                    written_x(m, xf)
                } else {
                    ZERO
                },
            )
        }),
{
    lemma_end_props(m, s, at, xf, id, e);
    let w = xf.windings[e as int];
    let more = end_more(m, xf, id, e);
    let end = end_id(xf, e);
    assert(s.prop(end, more[0].0) == Some(more[0].1));
    assert(s.prop(end, more[1].0) == Some(more[1].1));
    assert(s.prop(end, more[2].0) == Some(more[2].1));
    assert(s.prop(end, more[3].0) == Some(more[3].1));
    assert(s.prop(end, more[4].0) == Some(more[4].1));
    assert(s.prop(end, more[5].0) == Some(more[5].1));
    assert(s.prop(end, more[6].0) == Some(more[6].1));
    assert(s.prop(end, more[7].0) == Some(more[7].1));
    reveal_strlit("WindingConnection.");
    reveal_strlit("D");
    reveal_strlit("Yn");
    assert("D"@.len() == 1 && "D"@[0] == 'D');
    assert("Yn"@.len() == 2 && "Yn"@[0] == 'Y' && "Yn"@[1] == 'n');
    lemma_kind_says(
        "WindingConnection."@,
        match w.conn {
            WindingConn::Delta => "D"@,
            WindingConn::Wye => "Yn"@,
        },
    );
    reveal(StoreV::refv);
    reveal(StoreV::number);
    reveal(StoreV::text);
    reveal(StoreV::enum_value);
}

proof fn lemma_transformer_ends(m: Sem, net: DistNetworkV, xf: DistTransformerV)
    ensures
        refers_within(
            transformer_block(m, net, xf),
            "PowerTransformerEnd"@,
            "PowerTransformerEnd.PowerTransformer"@,
        ),
{
    lemma_classes();
    lemma_end_keys();
    let b = transformer_block(m, net, xf);
    let class = "PowerTransformerEnd"@;
    let key = "PowerTransformerEnd.PowerTransformer"@;
    assert forall|i: int| 0 <= i < b.len() && (#[trigger] b[i]).class == class implies refers_to_one(
        b,
        b[i],
        key,
    ) by {
        assert(i == 2 || i == 4);
        let e: nat = if i == 2 {
            0
        } else {
            1
        };
        lemma_end_object(m, xf, b[0].id, e);
        lemma_first_ref(
            b,
            i,
            class,
            end_id(xf, e),
            xf.name + "_end"@ + dec_of(e + 1),
            end_more(m, xf, b[0].id, e),
            key,
        );
    }
}

#[verifier::rlimit(40)]
proof fn lemma_block_ends(m: Sem, net: DistNetworkV, k: int)
    requires
        0 <= k < blocks_of(m, net).len(),
    ensures
        refers_within(
            blocks_of(m, net)[k],
            "PowerTransformerEnd"@,
            "PowerTransformerEnd.PowerTransformer"@,
        ),
{
    let class = "PowerTransformerEnd"@;
    lemma_classes();
    lemma_segments_lack(m, net, class);
    let n1 = 1int;
    let n2 = n1 + net.buses.len();
    let n3 = n2 + net.linecodes.len();
    let n4 = n3 + net.lines.len();
    let n5 = n4 + net.loads.len();
    let n6 = n5 + net.shunts.len();
    let n7 = n6 + net.switches.len();
    let n8 = n7 + net.transformers.len();
    let b = blocks_of(m, net)[k];
    if k < n1 {
        assert(b == seq![frequency_block(m, net)][k]);
    } else if k < n2 {
        assert(b == bus_blocks(net)[k - n1]);
    } else if k < n3 {
        assert(b == linecode_blocks(m, net)[k - n2]);
        lemma_linecode_lacks(m, net.linecodes[k - n2], class);
    } else if k < n4 {
        assert(b == line_blocks(m, net)[k - n3]);
    } else if k < n5 {
        assert(b == load_blocks(m, net)[k - n4]);
    } else if k < n6 {
        assert(b == shunt_blocks(m, net)[k - n5]);
    } else if k < n7 {
        assert(b == switch_blocks(net)[k - n6]);
    } else if k < n8 {
        lemma_transformer_ends(m, net, net.transformers[k - n7]);
        assert(b == transformer_blocks(m, net)[k - n7]);
    } else {
        assert(b == source_blocks(m, net)[k - n8]);
    }
}

/// The ends of a transformer are those of its block.
#[verifier::rlimit(40)]
pub proof fn lemma_ends_of_block(m: Sem, net: DistNetworkV, k: int)
    requires
        told_apart(m, net),
        0 <= k < blocks_of(m, net).len(),
        blocks_of(m, net)[k].len() > 0,
    ensures
        ({
            let b = blocks_of(m, net)[k];
            let ids = class_ids(b, "PowerTransformerEnd"@);
            ends_of(m, written(m, net), b[0].id) == ends_n(
                m,
                written(m, net),
                b[0].id,
                ids,
                ids.len(),
            )
        }),
{
    let s = written(m, net);
    let class = "PowerTransformerEnd"@;
    let key = "PowerTransformerEnd.PowerTransformer"@;
    lemma_document_is_its_blocks(m, net);
    let bs = blocks_of(m, net);
    let b = bs[k];
    let p = flat(bs.take(k));
    let q = flat(bs.skip(k + 1));
    lemma_block_at(bs, k);
    assert(s.objects == p + b + q);
    assert forall|i: int| 0 <= i < bs.take(k).len() implies refers_within(
        #[trigger] bs.take(k)[i],
        class,
        key,
    ) by {
        lemma_block_ends(m, net, i);
    }
    lemma_refers_flat(bs.take(k), class, key);
    assert forall|i: int| 0 <= i < bs.skip(k + 1).len() implies refers_within(
        #[trigger] bs.skip(k + 1)[i],
        class,
        key,
    ) by {
        lemma_block_ends(m, net, k + 1 + i);
    }
    lemma_refers_flat(bs.skip(k + 1), class, key);
    let owner = p.len() as int;
    assert(s.objects[owner] == b[0]);
    let eq = b[0].id;
    let ia = class_ids(p, class);
    let ib = class_ids(b, class);
    let ic = class_ids(q, class);
    assert forall|i: int| 0 <= i < ia.len() implies s.refv(#[trigger] ia[i], key) != Some(eq) by {
        lemma_refers_elsewhere(s, p, 0, class, key, owner, i);
    }
    assert forall|i: int| 0 <= i < ic.len() implies s.refv(#[trigger] ic[i], key) != Some(eq) by {
        lemma_refers_elsewhere(s, q, (p + b).len() as int, class, key, owner, i);
    }
    lemma_class_ids_add(p + b, q, class);
    lemma_class_ids_add(p, b, class);
    assert(s.of_class(class) == ia + ib + ic) by {
        reveal(StoreV::of_class);
    }
    reveal(ends_of);
    lemma_ends_middle(m, s, eq, ia, ib, ic);
}

/// Two ends come in the order of their numbers.
pub proof fn lemma_end_pair(m: Sem, s: StoreV, id: Seq<char>, a: Seq<char>, b: Seq<char>)
    requires
        counts(m),
        s.refv(a, "PowerTransformerEnd.PowerTransformer"@) == Some(id),
        s.refv(b, "PowerTransformerEnd.PowerTransformer"@) == Some(id),
        s.number(m, a, "TransformerEnd.endNumber"@) == (m.parse)(trim_of(dec_of(1))),
        s.number(m, b, "TransformerEnd.endNumber"@) == (m.parse)(trim_of(dec_of(2))),
    ensures
        ends_n(m, s, id, seq![a, b], 2).len() == 2,
        ends_n(m, s, id, seq![a, b], 2)[0].1 == a,
        ends_n(m, s, id, seq![a, b], 2)[1].1 == b,
{
    let one = (m.parse)(trim_of(dec_of(1)))->0;
    let two = (m.parse)(trim_of(dec_of(2)))->0;
    let ids = seq![a, b];
    let none = ends_n(m, s, id, ids, 0);
    assert(none.len() == 0);
    let first = ends_n(m, s, id, ids, 1);
    assert(first == insert_by_rank_of(none, (one, a)));
    assert(slot_by_rank(none, one, 0) == 0);
    assert(first =~= seq![(one, a)]);
    let both = ends_n(m, s, id, ids, 2);
    assert(both == insert_by_rank_of(first, (two, b)));
    assert(slot_by_rank(first, two, 1) == 1);
    assert(slot_by_rank(first, two, 0) == 1);
    assert(both =~= seq![(one, a), (two, b)]);
}

// ---- transformers ----------------------------------------------------------

pub open spec fn transformer_ids(net: DistNetworkV) -> Seq<Seq<char>> {
    Seq::new(
        net.transformers.len(),
        |i: int| mrid_of(net.transformers[i].extras, "xf"@, net.transformers[i].name),
    )
}

#[verifier::rlimit(40)]
pub proof fn lemma_transformer_block_ids(m: Sem, net: DistNetworkV, e: DistTransformerV)
    requires
        e.windings.len() == 2,
    ensures
        class_ids(transformer_block(m, net, e), "PowerTransformer"@) == seq![
            mrid_of(e.extras, "xf"@, e.name),
        ],
        class_ids(transformer_block(m, net, e), "PowerTransformerEnd"@) == seq![
            end_id(e, 0),
            end_id(e, 1),
        ],
{
    lemma_classes();
    let b = transformer_block(m, net, e);
    lemma_ids_of_first(b, "PowerTransformer"@);
    reveal_with_fuel(of_class_n, 6);
    assert(class_ids(b, "PowerTransformerEnd"@) =~= seq![end_id(e, 0), end_id(e, 1)]);
}

#[verifier::rlimit(40)]
pub proof fn lemma_transformer_ids(m: Sem, net: DistNetworkV)
    requires
        forall|i: int|
            0 <= i < net.transformers.len() ==> (#[trigger] net.transformers[i]).windings.len()
                == 2,
    ensures
        written(m, net).of_class("PowerTransformer"@) == transformer_ids(net),
{
    let c = "PowerTransformer"@;
    lemma_classes();
    lemma_segments_lack(m, net, c);
    lemma_class_over_segments(m, net, c);
    lemma_flat_lacks(seq![frequency_block(m, net)], c);
    lemma_flat_lacks(bus_blocks(net), c);
    lemma_flat_lacks(linecode_blocks(m, net), c);
    lemma_flat_lacks(line_blocks(m, net), c);
    lemma_flat_lacks(load_blocks(m, net), c);
    lemma_flat_lacks(shunt_blocks(m, net), c);
    lemma_flat_lacks(switch_blocks(net), c);
    lemma_flat_lacks(source_blocks(m, net), c);
    let bs = transformer_blocks(m, net);
    assert forall|i: int| 0 <= i < bs.len() implies class_ids(#[trigger] bs[i], c) == seq![
        transformer_ids(net)[i],
    ] by {
        lemma_transformer_block_ids(m, net, net.transformers[i]);
    }
    lemma_flat_ones(bs, c, transformer_ids(net));
    assert(class_ids(flat(blocks_of(m, net)), c) =~= transformer_ids(net));
    lemma_document_is_its_blocks(m, net);
    reveal(StoreV::of_class);
}

pub proof fn lemma_transformer_index(m: Sem, net: DistNetworkV, i: int) -> (k: int)
    requires
        0 <= i < net.transformers.len(),
    ensures
        0 <= k < blocks_of(m, net).len(),
        blocks_of(m, net)[k] == transformer_block(m, net, net.transformers[i]),
{
    let k = 1 + net.buses.len() + net.linecodes.len() + net.lines.len() + net.loads.len()
        + net.shunts.len() + net.switches.len() + i;
    let a = seq![frequency_block(m, net)] + bus_blocks(net) + linecode_blocks(m, net)
        + line_blocks(m, net) + load_blocks(m, net) + shunt_blocks(m, net) + switch_blocks(net);
    assert(a.len() == k - i);
    assert(blocks_of(m, net)[k] == transformer_blocks(m, net)[i]);
    k
}

/// The winding of a written end, read.
#[verifier::rlimit(40)]
proof fn lemma_winding_reads(
    m: Sem,
    net: DistNetworkV,
    s: StoreV,
    at: int,
    term: int,
    xf: DistTransformerV,
    id: Seq<char>,
    e: nat,
    phases: nat,
)
    requires
        s == written(m, net),
        told_apart(m, net),
        0 <= at < s.objects.len(),
        0 <= term < s.objects.len(),
        e < xf.windings.len() == 2,
        transformer_stands(m, net, xf),
        s.objects[at] == end_object(m, xf, id, e),
        s.objects[term] == terminal_object(
            id,
            e + 1,
            node_of(net, xf.windings[e as int].bus),
            phase_code_of(xf.windings[e as int].terminal_map),
        ),
    ensures
        winding_at(m, s, end_id(xf, e), phases) == Some(
            returned_winding(m, net, xf.windings[e as int]),
        ),
        end_phases(s, end_id(xf, e)) == phases_on(xf.windings[e as int]),
{
    let w = xf.windings[e as int];
    lemma_end_says(m, s, at, xf, id, e);
    lemma_terminal_reads(m, s, term, id, e + 1, node_of(net, w.bus), w.terminal_map);
    lemma_node_of_names(m, net, w.bus);
    lemma_code_expands_to_its_map(w.terminal_map);
}

/// Where the objects of a written transformer stand.
#[verifier::rlimit(40)]
pub proof fn lemma_transformer_place(
    m: Sem,
    net: DistNetworkV,
    k: int,
    xf: DistTransformerV,
) -> (at:
    int)
    requires
        xf.windings.len() == 2,
        0 <= k < blocks_of(m, net).len(),
        blocks_of(m, net)[k] == transformer_block(m, net, xf),
    ensures
        ({
            let s = written(m, net);
            let id = mrid_of(xf.extras, "xf"@, xf.name);
            &&& 0 <= at
            &&& at + 4 < s.objects.len()
            &&& s.objects[at] == named_object("PowerTransformer"@, id, xf.name, seq![])
            &&& s.objects[at + 1] == terminal_object(
                id,
                1,
                node_of(net, xf.windings[0].bus),
                phase_code_of(xf.windings[0].terminal_map),
            )
            &&& s.objects[at + 2] == end_object(m, xf, id, 0)
            &&& s.objects[at + 3] == terminal_object(
                id,
                2,
                node_of(net, xf.windings[1].bus),
                phase_code_of(xf.windings[1].terminal_map),
            )
            &&& s.objects[at + 4] == end_object(m, xf, id, 1)
        }),
{
    let s = written(m, net);
    let b = transformer_block(m, net, xf);
    let at = lemma_block_place(m, net, k);
    assert(s.objects[at + 0] == b[0]);
    assert(s.objects[at + 1] == b[1]);
    assert(s.objects[at + 2] == b[2]);
    assert(s.objects[at + 3] == b[3]);
    assert(s.objects[at + 4] == b[4]);
    at
}

/// The ends of a written transformer.
#[verifier::rlimit(40)]
proof fn lemma_transformer_ends_of(m: Sem, net: DistNetworkV, k: int, xf: DistTransformerV)
    requires
        told_apart(m, net),
        counts(m),
        transformer_stands(m, net, xf),
        0 <= k < blocks_of(m, net).len(),
        blocks_of(m, net)[k] == transformer_block(m, net, xf),
    ensures
        ({
            let ends = ends_of(m, written(m, net), mrid_of(xf.extras, "xf"@, xf.name));
            &&& ends.len() == 2
            &&& ends[0].1 == end_id(xf, 0)
            &&& ends[1].1 == end_id(xf, 1)
        }),
{
    let s = written(m, net);
    let id = mrid_of(xf.extras, "xf"@, xf.name);
    let both = seq![end_id(xf, 0), end_id(xf, 1)];
    assert(ends_of(m, s, id) == ends_n(m, s, id, both, 2)) by {
        lemma_transformer_block_ids(m, net, xf);
        let b = transformer_block(m, net, xf);
        assert(b[0].id == id);
        assert(class_ids(b, "PowerTransformerEnd"@) == both);
        lemma_ends_of_block(m, net, k);
    }
    let at = lemma_transformer_place(m, net, k, xf);
    assert(ends_n(m, s, id, both, 2).len() == 2 && ends_n(m, s, id, both, 2)[0].1 == end_id(xf, 0)
        && ends_n(m, s, id, both, 2)[1].1 == end_id(xf, 1)) by {
        lemma_end_says(m, s, at + 2, xf, id, 0);
        lemma_end_says(m, s, at + 4, xf, id, 1);
        lemma_end_pair(m, s, id, end_id(xf, 0), end_id(xf, 1));
    }
}

/// A written transformer, read.
#[verifier::rlimit(40)]
proof fn lemma_transformer_reads(m: Sem, net: DistNetworkV, i: int)
    requires
        told_apart(m, net),
        counts(m),
        0 <= i < net.transformers.len(),
        transformer_stands(m, net, net.transformers[i]),
    ensures
        ({
            let s = written(m, net);
            let xf = net.transformers[i];
            let id = transformer_ids(net)[i];
            let ends = ends_of(m, s, id);
            &&& ends.len() == 2
            &&& s.name(id) == xf.name
            &&& phase_count_from(s, ends, 0) == returned_phases(xf)
            &&& windings_n(m, s, ends, returned_phases(xf), 2) == Some(
                seq![
                    returned_winding(m, net, xf.windings[0]),
                    returned_winding(m, net, xf.windings[1]),
                ],
            )
            &&& reactance_of(m, s, ends) == returned_x(m, xf)
        }),
{
    let s = written(m, net);
    let xf = net.transformers[i];
    let id = transformer_ids(net)[i];
    let k = lemma_transformer_index(m, net, i);
    lemma_transformer_ends_of(m, net, k, xf);
    let at = lemma_transformer_place(m, net, k, xf);
    lemma_named_says(s, at, "PowerTransformer"@, id, xf.name, seq![]);
    let phases = returned_phases(xf);
    lemma_winding_reads(m, net, s, at + 2, at + 1, xf, id, 0, phases);
    lemma_winding_reads(m, net, s, at + 4, at + 3, xf, id, 1, phases);
    lemma_end_says(m, s, at + 2, xf, id, 0);
    lemma_end_says(m, s, at + 4, xf, id, 1);
    lemma_no_such(m, net, "TransformerMeshImpedance"@);
    lemma_pair_reads(m, net, s, ends_of(m, s, id), xf);
}

proof fn lemma_pair_reads(
    m: Sem,
    net: DistNetworkV,
    s: StoreV,
    ends: Seq<(Bits, Seq<char>)>,
    xf: DistTransformerV,
)
    requires
        ends.len() == 2,
        xf.windings.len() == 2,
        end_phases(s, ends[0].1) == phases_on(xf.windings[0]),
        end_phases(s, ends[1].1) == phases_on(xf.windings[1]),
        winding_at(m, s, ends[0].1, returned_phases(xf)) == Some(
            returned_winding(m, net, xf.windings[0]),
        ),
        winding_at(m, s, ends[1].1, returned_phases(xf)) == Some(
            returned_winding(m, net, xf.windings[1]),
        ),
        s.number(m, ends[0].1, "PowerTransformerEnd.ratedU"@) == Some(xf.windings[0].v_ref),
        s.number(m, ends[0].1, "PowerTransformerEnd.ratedS"@) == Some(xf.windings[0].s_rating),
        s.number(m, ends[0].1, "PowerTransformerEnd.x"@) == Some(written_x(m, xf)),
        s.number(m, ends[1].1, "PowerTransformerEnd.x"@) == Some(ZERO),
        s.of_class("TransformerMeshImpedance"@).len() == 0,
    ensures
        phase_count_from(s, ends, 0) == returned_phases(xf),
        windings_n(m, s, ends, returned_phases(xf), 2) == Some(
            seq![
                returned_winding(m, net, xf.windings[0]),
                returned_winding(m, net, xf.windings[1]),
            ],
        ),
        reactance_of(m, s, ends) == returned_x(m, xf),
{
    reveal_with_fuel(phase_count_from, 3);
    reveal_with_fuel(windings_n, 3);
    reveal_with_fuel(end_x_sum, 3);
    let a = returned_winding(m, net, xf.windings[0]);
    let b = returned_winding(m, net, xf.windings[1]);
    assert(Seq::<WindingV>::empty().push(a).push(b) =~= seq![a, b]);
}

#[verifier::rlimit(40)]
pub proof fn lemma_transformers_n(m: Sem, net: DistNetworkV, w: Seq<Seq<char>>, n: nat)
    requires
        told_apart(m, net),
        counts(m),
        n <= net.transformers.len(),
        forall|i: int|
            0 <= i < net.transformers.len() ==> transformer_stands(
                m,
                net,
                #[trigger] net.transformers[i],
            ),
    ensures
        transformers_n(m, written(m, net), transformer_ids(net), w, n).transformers == Seq::new(
            n,
            |i: int| returned_transformer(m, net, net.transformers[i]),
        ),
        transformers_n(m, written(m, net), transformer_ids(net), w, n).warnings == w,
    decreases n,
{
    let all = Seq::new(n, |i: int| returned_transformer(m, net, net.transformers[i]));
    if n == 0 {
        assert(transformers_n(m, written(m, net), transformer_ids(net), w, n).transformers =~= all);
    } else {
        lemma_transformers_n(m, net, w, (n - 1) as nat);
        lemma_transformer_reads(m, net, n - 1);
        assert(transformers_n(m, written(m, net), transformer_ids(net), w, n).transformers =~= all);
    }
}

/// The transformers come back: reading what was written of a network gives its
/// transformers, in order, each by its name with its two windings at their
/// buses, connected and rated as they were. Resistance and reactance go through
/// ohms at each winding's own impedance base.
pub proof fn lemma_transformers_read_back(m: Sem, net: DistNetworkV)
    requires
        safe_ids(net),
        told_apart(m, net),
        counts(m),
        net.buses.len() > 0,
        forall|i: int|
            0 <= i < net.transformers.len() ==> transformer_stands(
                m,
                net,
                #[trigger] net.transformers[i],
            ),
    ensures
        cim_text(m, cim_xml(m, net).text) matches Ok(back) && back.transformers == Seq::new(
            net.transformers.len(),
            |i: int| returned_transformer(m, net, net.transformers[i]),
        ),
{
    lemma_reads_as(m, net);
    lemma_transformer_ids(m, net);
    let s = written(m, net);
    let w = loads_of(m, s, lines_of(m, s).warnings).warnings;
    lemma_transformers_n(m, net, w, net.transformers.len());
    assert(network_of(m, s, None).transformers == transformers_of(m, s, w).transformers) by {
        reveal(network_of);
    }
}

} // verus!
