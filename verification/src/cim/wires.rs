//! Which phase objects, and so which wires, a written element comes back with.

use vstd::prelude::*;

use crate::cim::blocks::{
    blocks_of, bus_blocks, class_ids, flat, frequency_block, kind_ref, lemma_class_ids_add,
    lemma_class_ids_none, lemma_document_is_its_blocks, lemma_says, line_block, line_blocks,
    linecode_blocks, load_block, load_blocks, named_object, shunt_block, shunt_blocks,
    source_blocks, switch_blocks, transformer_blocks,
};
use crate::cim::phase::phase_terminal_of;
use crate::cim::read::{children_n, children_of};
use crate::cim::recall::{
    lemma_block_at, lemma_classes, lemma_linecode_lacks, lemma_prop_at, lemma_segments_lack,
    told_apart, written,
};
use crate::cim::store::{distinct_ids, of_class_n, prop_from, CimObjectV, PropV, StoreV};
use crate::cim::wiring::{
    lemma_kind_says, lemma_letters, lemma_refers_elsewhere, lemma_refers_flat, refers_to_one,
    refers_within,
};
use crate::cim::write::{phase_letter_of, phases_n};
use crate::math::Sem;
use crate::model::{DistLineV, DistLoadV, DistNetworkV, DistShuntV};
use crate::order::{insert_by_key_of, slot_by_key};
use crate::text::{lemma_str_less_total, str_less};

verus! {

// ---- the wires of phases ---------------------------------------------------

/// The wires among the first `n` that carry phases: 1, 2 and 3.
pub open spec fn hot_n(map: Seq<Seq<char>>, n: nat) -> Seq<Seq<char>>
    decreases n,
{
    if n == 0 {
        seq![]
    } else {
        let before = hot_n(map, (n - 1) as nat);
        let t = map[n - 1];
        if phase_letter_of(t) is Some && t != "4"@ {
            before.push(t)
        } else {
            before
        }
    }
}

pub open spec fn hot_of(map: Seq<Seq<char>>) -> Seq<Seq<char>> {
    hot_n(map, map.len())
}

/// Wires stand in their order, each once.
pub open spec fn ascending(wires: Seq<Seq<char>>) -> bool {
    forall|i: int, j: int| 0 <= i < j < wires.len() ==> str_less(#[trigger] wires[i], #[trigger] wires[j])
}

pub open spec fn letters_of(wires: Seq<Seq<char>>) -> Seq<Seq<char>> {
    Seq::new(wires.len(), |i: int| phase_letter_of(wires[i])->0)
}

pub proof fn lemma_phases_are_hot(map: Seq<Seq<char>>, n: nat)
    requires
        n <= map.len(),
    ensures
        phases_n(map, n) == letters_of(hot_n(map, n)),
        forall|i: int|
            0 <= i < hot_n(map, n).len() ==> {
                let t = #[trigger] hot_n(map, n)[i];
                &&& phase_letter_of(t) is Some
                &&& t != "4"@
                &&& phase_terminal_of(phase_letter_of(t)->0) == Some(t)
            },
    decreases n,
{
    lemma_letters();
    reveal_strlit("s1");
    reveal_strlit("s2");
    assert("s1"@.len() == 2 && "s2"@.len() == 2);
    assert("A"@[0] == 'A' && "B"@[0] == 'B' && "C"@[0] == 'C' && "N"@[0] == 'N');
    assert("1"@[0] == '1' && "2"@[0] == '2' && "3"@[0] == '3' && "4"@[0] == '4');
    if n > 0 {
        lemma_phases_are_hot(map, (n - 1) as nat);
    }
    assert(phases_n(map, n) =~= letters_of(hot_n(map, n)));
}

// ---- phase objects ---------------------------------------------------------

proof fn lemma_children_same(
    s: StoreV,
    class: Seq<char>,
    key: Seq<char>,
    owner: Seq<char>,
    a: Seq<Seq<char>>,
    b: Seq<Seq<char>>,
    n: nat,
)
    requires
        n <= a.len(),
        n <= b.len(),
        forall|i: int| 0 <= i < n ==> a[i] == b[i],
    ensures
        children_n(s, class, key, owner, a, n) == children_n(s, class, key, owner, b, n),
    decreases n,
{
    if n > 0 {
        lemma_children_same(s, class, key, owner, a, b, (n - 1) as nat);
    }
}

proof fn lemma_children_skip(
    s: StoreV,
    class: Seq<char>,
    key: Seq<char>,
    owner: Seq<char>,
    ids: Seq<Seq<char>>,
    a: nat,
    b: nat,
)
    requires
        a <= b <= ids.len(),
        forall|i: int| a <= i < b ==> s.refv(#[trigger] ids[i], key) != Some(owner),
    ensures
        children_n(s, class, key, owner, ids, b) == children_n(s, class, key, owner, ids, a),
    decreases b - a,
{
    if a < b {
        lemma_children_skip(s, class, key, owner, ids, a, (b - 1) as nat);
    }
}

proof fn lemma_children_shift(
    s: StoreV,
    class: Seq<char>,
    key: Seq<char>,
    owner: Seq<char>,
    a: Seq<Seq<char>>,
    b: Seq<Seq<char>>,
    n: nat,
)
    requires
        n <= b.len(),
        forall|i: int| 0 <= i < a.len() ==> s.refv(#[trigger] a[i], key) != Some(owner),
    ensures
        children_n(s, class, key, owner, a + b, (a.len() + n) as nat) == children_n(
            s,
            class,
            key,
            owner,
            b,
            n,
        ),
    decreases n,
{
    if n == 0 {
        assert forall|i: int| 0 <= i < a.len() implies s.refv(#[trigger] (a + b)[i], key) != Some(
            owner,
        ) by {
            assert((a + b)[i] == a[i]);
        }
        lemma_children_skip(s, class, key, owner, a + b, 0, a.len());
    } else {
        lemma_children_shift(s, class, key, owner, a, b, (n - 1) as nat);
        assert((a + b)[a.len() + n - 1] == b[n - 1]);
    }
}

proof fn lemma_children_middle(
    s: StoreV,
    class: Seq<char>,
    key: Seq<char>,
    owner: Seq<char>,
    a: Seq<Seq<char>>,
    b: Seq<Seq<char>>,
    c: Seq<Seq<char>>,
)
    requires
        forall|i: int| 0 <= i < a.len() ==> s.refv(#[trigger] a[i], key) != Some(owner),
        forall|i: int| 0 <= i < c.len() ==> s.refv(#[trigger] c[i], key) != Some(owner),
    ensures
        children_n(s, class, key, owner, a + b + c, (a + b + c).len()) == children_n(
            s,
            class,
            key,
            owner,
            b,
            b.len(),
        ),
{
    let all = a + b + c;
    let n = (a.len() + b.len()) as nat;
    assert forall|i: int| n <= i < all.len() implies s.refv(#[trigger] all[i], key) != Some(
        owner,
    ) by {
        assert(all[i] == c[i - n]);
    }
    lemma_children_skip(s, class, key, owner, all, n, all.len());
    lemma_children_same(s, class, key, owner, all, a + b, n);
    lemma_children_shift(s, class, key, owner, a, b, b.len());
}

/// A class of phase objects and the property by which they refer to their
/// element.
pub open spec fn phase_class(class: Seq<char>, key: Seq<char>) -> bool {
    ||| class == "ACLineSegmentPhase"@ && key == "ACLineSegmentPhase.ACLineSegment"@
    ||| class == "EnergyConsumerPhase"@ && key == "EnergyConsumerPhase.EnergyConsumer"@
    ||| class == "ShuntCompensatorPhase"@ && key == "ShuntCompensatorPhase.ShuntCompensator"@
}

proof fn lemma_keys()
    ensures
        "IdentifiedObject.mRID"@.len() == 21 && "IdentifiedObject.mRID"@[0] == 'I',
        "IdentifiedObject.name"@.len() == 21 && "IdentifiedObject.name"@[0] == 'I',
        "ACLineSegmentPhase.ACLineSegment"@.len() == 32
            && "ACLineSegmentPhase.ACLineSegment"@[0] == 'A',
        "EnergyConsumerPhase.EnergyConsumer"@.len() == 34
            && "EnergyConsumerPhase.EnergyConsumer"@[0] == 'E',
        "ShuntCompensatorPhase.ShuntCompensator"@.len() == 38
            && "ShuntCompensatorPhase.ShuntCompensator"@[0] == 'S',
{
    reveal_strlit("IdentifiedObject.mRID");
    reveal_strlit("IdentifiedObject.name");
    reveal_strlit("ACLineSegmentPhase.ACLineSegment");
    reveal_strlit("EnergyConsumerPhase.EnergyConsumer");
    reveal_strlit("ShuntCompensatorPhase.ShuntCompensator");
}

/// A property of an object that was written with a name.
pub proof fn lemma_named_prop(
    s: StoreV,
    k: int,
    class: Seq<char>,
    id: Seq<char>,
    name: Seq<char>,
    more: Seq<(Seq<char>, PropV)>,
    j: int,
)
    requires
        distinct_ids(s.objects),
        0 <= k < s.objects.len(),
        s.objects[k] == named_object(class, id, name, more),
        0 <= j < more.len(),
        more[j].0.len() > 0 && more[j].0[0] != 'I',
        forall|i: int| 0 <= i < j ==> (#[trigger] more[i]).0 != more[j].0,
    ensures
        s.prop(id, more[j].0) == Some(more[j].1),
{
    lemma_keys();
    lemma_says(s, k);
    let props = s.objects[k].props;
    assert(props[2 + j] == more[j]);
    assert forall|i: int| 0 <= i < 2 + j implies (#[trigger] props[i]).0 != more[j].0 by {
        if i >= 2 {
            assert(props[i] == more[i - 2]);
        }
    }
    lemma_prop_at(props, more[j].0, 0, 2 + j);
}

pub proof fn lemma_first_ref(
    b: Seq<CimObjectV>,
    i: int,
    class: Seq<char>,
    id: Seq<char>,
    name: Seq<char>,
    more: Seq<(Seq<char>, PropV)>,
    key: Seq<char>,
)
    requires
        0 <= i < b.len(),
        b[i] == named_object(class, id, name, more),
        more.len() > 0,
        more[0] == (key, PropV::Ref(b[0].id)),
        key.len() > 0 && key[0] != 'I',
    ensures
        refers_to_one(b, b[i], key),
{
    lemma_keys();
    let props = b[i].props;
    assert(props[2] == more[0]);
    lemma_prop_at(props, key, 0, 2);
    assert(prop_from(b[i].props, key, 0) == Some(PropV::Ref(b[0].id)));
}

proof fn lemma_line_phases(m: Sem, net: DistNetworkV, line: DistLineV)
    ensures
        refers_within(
            line_block(m, net, line),
            "ACLineSegmentPhase"@,
            "ACLineSegmentPhase.ACLineSegment"@,
        ),
{
    lemma_classes();
    lemma_keys();
    let b = line_block(m, net, line);
    let class = "ACLineSegmentPhase"@;
    let key = "ACLineSegmentPhase.ACLineSegment"@;
    assert forall|i: int| 0 <= i < b.len() && (#[trigger] b[i]).class == class implies refers_to_one(
        b,
        b[i],
        key,
    ) by {
        assert(i >= 3);
        let o = b[i];
        let more = o.props.skip(2);
        assert(o.props =~= named_object(o.class, o.id, o.props[1].1->Text_0, more).props);
        lemma_first_ref(b, i, o.class, o.id, o.props[1].1->Text_0, more, key);
    }
}

proof fn lemma_load_phases(m: Sem, net: DistNetworkV, load: DistLoadV)
    ensures
        refers_within(
            load_block(m, net, load),
            "EnergyConsumerPhase"@,
            "EnergyConsumerPhase.EnergyConsumer"@,
        ),
{
    lemma_classes();
    lemma_keys();
    let b = load_block(m, net, load);
    let class = "EnergyConsumerPhase"@;
    let key = "EnergyConsumerPhase.EnergyConsumer"@;
    assert forall|i: int| 0 <= i < b.len() && (#[trigger] b[i]).class == class implies refers_to_one(
        b,
        b[i],
        key,
    ) by {
        assert(i >= 2);
        let o = b[i];
        let more = o.props.skip(2);
        assert(o.props =~= named_object(o.class, o.id, o.props[1].1->Text_0, more).props);
        lemma_first_ref(b, i, o.class, o.id, o.props[1].1->Text_0, more, key);
    }
}

proof fn lemma_shunt_phases(m: Sem, net: DistNetworkV, shunt: DistShuntV)
    ensures
        refers_within(
            shunt_block(m, net, shunt),
            "ShuntCompensatorPhase"@,
            "ShuntCompensatorPhase.ShuntCompensator"@,
        ),
{
    lemma_classes();
    lemma_keys();
    let b = shunt_block(m, net, shunt);
    let class = "ShuntCompensatorPhase"@;
    let key = "ShuntCompensatorPhase.ShuntCompensator"@;
    assert forall|i: int| 0 <= i < b.len() && (#[trigger] b[i]).class == class implies refers_to_one(
        b,
        b[i],
        key,
    ) by {
        assert(i >= 2);
        let o = b[i];
        let more = o.props.skip(2);
        assert(o.props =~= named_object(o.class, o.id, o.props[1].1->Text_0, more).props);
        lemma_first_ref(b, i, o.class, o.id, o.props[1].1->Text_0, more, key);
    }
}

/// Every block of a document keeps its phase objects to itself.
#[verifier::rlimit(40)]
proof fn lemma_block_phases(m: Sem, net: DistNetworkV, k: int, class: Seq<char>, key: Seq<char>)
    requires
        0 <= k < blocks_of(m, net).len(),
        phase_class(class, key),
    ensures
        refers_within(blocks_of(m, net)[k], class, key),
{
    lemma_classes();
    lemma_segments_lack(m, net, class);
    let n1 = 1int;
    let n2 = n1 + net.buses.len();
    let n3 = n2 + net.linecodes.len();
    let n4 = n3 + net.lines.len();
    let n5 = n4 + net.loads.len();
    let n6 = n5 + net.shunts.len();
    let n7 = n6 + net.switches.len();
    let n8 = n7 + net.transformers.len();
    let b = blocks_of(m, net)[k];
    if k < n1 {
        assert(b == seq![frequency_block(m, net)][k]);
    } else if k < n2 {
        assert(b == bus_blocks(net)[k - n1]);
    } else if k < n3 {
        assert(b == linecode_blocks(m, net)[k - n2]);
        lemma_linecode_lacks(m, net.linecodes[k - n2], class);
    } else if k < n4 {
        lemma_line_phases(m, net, net.lines[k - n3]);
        assert(b == line_blocks(m, net)[k - n3]);
    } else if k < n5 {
        lemma_load_phases(m, net, net.loads[k - n4]);
        assert(b == load_blocks(m, net)[k - n4]);
    } else if k < n6 {
        lemma_shunt_phases(m, net, net.shunts[k - n5]);
        assert(b == shunt_blocks(m, net)[k - n5]);
    } else if k < n7 {
        assert(b == switch_blocks(net)[k - n6]);
    } else if k < n8 {
        assert(b == transformer_blocks(m, net)[k - n7]);
    } else {
        assert(b == source_blocks(m, net)[k - n8]);
    }
}

/// The phase objects of an element are those of its block.
#[verifier::rlimit(40)]
proof fn lemma_children_of_block(
    m: Sem,
    net: DistNetworkV,
    k: int,
    class: Seq<char>,
    key: Seq<char>,
)
    requires
        told_apart(m, net),
        phase_class(class, key),
        0 <= k < blocks_of(m, net).len(),
        blocks_of(m, net)[k].len() > 0,
    ensures
        ({
            let b = blocks_of(m, net)[k];
            let ids = class_ids(b, class);
            children_of(written(m, net), class, key, b[0].id) == children_n(
                written(m, net),
                class,
                key,
                b[0].id,
                ids,
                ids.len(),
            )
        }),
{
    let s = written(m, net);
    lemma_document_is_its_blocks(m, net);
    let bs = blocks_of(m, net);
    let b = bs[k];
    let p = flat(bs.take(k));
    let q = flat(bs.skip(k + 1));
    lemma_block_at(bs, k);
    assert(s.objects == p + b + q);
    assert forall|i: int| 0 <= i < bs.take(k).len() implies refers_within(
        #[trigger] bs.take(k)[i],
        class,
        key,
    ) by {
        lemma_block_phases(m, net, i, class, key);
    }
    lemma_refers_flat(bs.take(k), class, key);
    assert forall|i: int| 0 <= i < bs.skip(k + 1).len() implies refers_within(
        #[trigger] bs.skip(k + 1)[i],
        class,
        key,
    ) by {
        lemma_block_phases(m, net, k + 1 + i, class, key);
    }
    lemma_refers_flat(bs.skip(k + 1), class, key);
    let owner = p.len() as int;
    assert(s.objects[owner] == b[0]);
    let eq = b[0].id;
    let ia = class_ids(p, class);
    let ib = class_ids(b, class);
    let ic = class_ids(q, class);
    assert forall|i: int| 0 <= i < ia.len() implies s.refv(#[trigger] ia[i], key) != Some(eq) by {
        lemma_refers_elsewhere(s, p, 0, class, key, owner, i);
    }
    assert forall|i: int| 0 <= i < ic.len() implies s.refv(#[trigger] ic[i], key) != Some(eq) by {
        lemma_refers_elsewhere(s, q, (p + b).len() as int, class, key, owner, i);
    }
    lemma_class_ids_add(p + b, q, class);
    lemma_class_ids_add(p, b, class);
    assert(s.of_class(class) == ia + ib + ic) by {
        reveal(StoreV::of_class);
    }
    reveal(children_of);
    lemma_children_middle(s, class, key, eq, ia, ib, ic);
}

/// The identifiers of a tail of objects that are all of one class.
proof fn lemma_ids_of_tail(b: Seq<CimObjectV>, at: nat, class: Seq<char>, n: nat)
    requires
        at + n <= b.len(),
        forall|i: int| 0 <= i < at ==> (#[trigger] b[i]).class != class,
        forall|i: int| at <= i < b.len() ==> (#[trigger] b[i]).class == class,
    ensures
        of_class_n(b, class, at + n) == Seq::new(n, |i: int| b[at + i].id),
    decreases n,
{
    if n == 0 {
        lemma_class_ids_none(b.take(at as int), class, at);
        lemma_none_upto(b, class, at);
        assert(of_class_n(b, class, at) =~= Seq::new(0, |i: int| b[at + i].id));
    } else {
        lemma_ids_of_tail(b, at, class, (n - 1) as nat);
        assert(b[at + n - 1].class == class);
        assert(of_class_n(b, class, at + n) =~= Seq::new(n, |i: int| b[at + i].id));
    }
}

proof fn lemma_none_upto(b: Seq<CimObjectV>, class: Seq<char>, n: nat)
    requires
        n <= b.len(),
        forall|i: int| 0 <= i < n ==> (#[trigger] b[i]).class != class,
    ensures
        of_class_n(b, class, n) == Seq::<Seq<char>>::empty(),
    decreases n,
{
    if n > 0 {
        lemma_none_upto(b, class, (n - 1) as nat);
    }
}

proof fn lemma_slot_at_end(s: Seq<(Seq<char>, Seq<char>)>, key: Seq<char>, i: int)
    requires
        0 <= i <= s.len(),
        forall|j: int| 0 <= j < s.len() ==> !str_less(key, (#[trigger] s[j]).0),
    ensures
        slot_by_key(s, key, i) == s.len(),
    decreases s.len() - i,
{
    if i < s.len() {
        assert(!str_less(key, s[i].0));
        lemma_slot_at_end(s, key, i + 1);
    }
}

/// Phase objects that were written in the order of their wires come in it.
proof fn lemma_children_in_order(
    s: StoreV,
    class: Seq<char>,
    key: Seq<char>,
    owner: Seq<char>,
    ids: Seq<Seq<char>>,
    wires: Seq<Seq<char>>,
    n: nat,
)
    requires
        n <= ids.len() == wires.len(),
        ascending(wires),
        forall|i: int|
            0 <= i < wires.len() ==> {
                &&& s.refv(#[trigger] ids[i], key) == Some(owner)
                &&& s.enum_value(ids[i], class + ".phase"@) == Some(phase_letter_of(wires[i])->0)
                &&& phase_terminal_of(phase_letter_of(wires[i])->0) == Some(wires[i])
            },
    ensures
        children_n(s, class, key, owner, ids, n) == Seq::new(n, |i: int| (wires[i], ids[i])),
    decreases n,
{
    let all = Seq::new(n, |i: int| (wires[i], ids[i]));
    if n == 0 {
        assert(children_n(s, class, key, owner, ids, n) =~= all);
    } else {
        lemma_children_in_order(s, class, key, owner, ids, wires, (n - 1) as nat);
        let before = Seq::new((n - 1) as nat, |i: int| (wires[i], ids[i]));
        let id = ids[n - 1];
        let t = wires[n - 1];
        assert forall|j: int| 0 <= j < before.len() implies !str_less(t, (#[trigger] before[j]).0) by {
            assert(str_less(wires[j], wires[n - 1]));
            lemma_str_less_total(wires[j], wires[n - 1]);
        }
        lemma_slot_at_end(before, t, 0);
        assert(insert_by_key_of(before, (t, id)) =~= all);
    }
}

/// The wires of an element's phase objects, and where each stands.
#[verifier::rlimit(40)]
pub proof fn lemma_phase_objects(
    m: Sem,
    net: DistNetworkV,
    k: int,
    at: nat,
    class: Seq<char>,
    key: Seq<char>,
    map: Seq<Seq<char>>,
)
    requires
        told_apart(m, net),
        phase_class(class, key),
        ascending(hot_of(map)),
        0 <= k < blocks_of(m, net).len(),
        0 < at,
        ({
            let b = blocks_of(m, net)[k];
            &&& b.len() == at + hot_of(map).len()
            &&& forall|i: int| 0 <= i < at ==> (#[trigger] b[i]).class != class
            &&& forall|i: int|
                at <= i < b.len() ==> phase_of(
                    #[trigger] b[i],
                    class,
                    key,
                    b[0].id,
                    letters_of(hot_of(map))[i - at],
                )
        }),
    ensures
        ({
            let b = blocks_of(m, net)[k];
            children_of(written(m, net), class, key, b[0].id) == Seq::new(
                hot_of(map).len(),
                |i: int| (hot_of(map)[i], b[at + i].id),
            )
        }),
{
    let s = written(m, net);
    let bs = blocks_of(m, net);
    let b = bs[k];
    let owner = b[0].id;
    let wires = hot_of(map);
    let n = wires.len();
    lemma_children_of_block(m, net, k, class, key);
    lemma_ids_of_tail(b, at, class, n);
    let ids = class_ids(b, class);
    lemma_document_is_its_blocks(m, net);
    lemma_block_at(bs, k);
    let base = flat(bs.take(k)).len() as int;
    lemma_phases_are_hot(map, map.len());
    assert forall|i: int| 0 <= i < n implies {
        &&& s.refv(#[trigger] ids[i], key) == Some(owner)
        &&& s.enum_value(ids[i], class + ".phase"@) == Some(phase_letter_of(wires[i])->0)
        &&& phase_terminal_of(phase_letter_of(wires[i])->0) == Some(wires[i])
    } by {
        let o = b[at + i];
        assert(phase_of(o, class, key, owner, letters_of(wires)[i]));
        assert(s.objects[base + at + i] == o);
        assert(ids[i] == o.id);
        assert(phase_letter_of(wires[i]) is Some);
        lemma_phase_says(s, base + at + i, class, key, owner, phase_letter_of(wires[i])->0);
    }
    lemma_children_in_order(s, class, key, owner, ids, wires, n);
    assert(Seq::new(n, |i: int| (wires[i], ids[i])) =~= Seq::new(
        n,
        |i: int| (hot_of(map)[i], b[at + i].id),
    ));
}

/// An object that says which phase of an element it is.
pub open spec fn phase_of(
    o: CimObjectV,
    class: Seq<char>,
    key: Seq<char>,
    owner: Seq<char>,
    letter: Seq<char>,
) -> bool {
    &&& o.class == class
    &&& o.props.len() >= 4
    &&& o.props[0].0 == "IdentifiedObject.mRID"@
    &&& o.props[1].0 == "IdentifiedObject.name"@
    &&& o.props[2] == (key, PropV::Ref(owner))
    &&& o.props[3] == (class + ".phase"@, kind_ref("SinglePhaseKind."@ + letter))
}

#[verifier::rlimit(40)]
proof fn lemma_phase_says(
    s: StoreV,
    k: int,
    class: Seq<char>,
    key: Seq<char>,
    owner: Seq<char>,
    letter: Seq<char>,
)
    requires
        distinct_ids(s.objects),
        0 <= k < s.objects.len(),
        phase_class(class, key),
        phase_of(s.objects[k], class, key, owner, letter),
        letter == "A"@ || letter == "B"@ || letter == "C"@ || letter == "N"@,
    ensures
        s.refv(s.objects[k].id, key) == Some(owner),
        s.enum_value(s.objects[k].id, class + ".phase"@) == Some(letter),
{
    lemma_keys();
    lemma_classes();
    lemma_letters();
    lemma_says(s, k);
    let id = s.objects[k].id;
    let props = s.objects[k].props;
    reveal_strlit(".phase");
    reveal_strlit("SinglePhaseKind.");
    let pk = class + ".phase"@;
    assert(pk.len() == class.len() + 6);
    assert(pk[0] == class[0]);
    lemma_prop_at(props, key, 0, 2);
    lemma_prop_at(props, pk, 0, 3);
    assert(forall|i: int| 0 <= i < letter.len() ==> letter[i] != '.');
    lemma_kind_says("SinglePhaseKind."@, letter);
    assert(s.prop(id, key) == Some(props[2].1));
    assert(s.prop(id, pk) == Some(props[3].1));
    reveal(StoreV::refv);
    reveal(StoreV::enum_value);
}

} // verus!
