//! What the reader makes of a written document.

use vstd::prelude::*;

use crate::cim::blocks::{
    blocks_of, bus_block, bus_blocks, class_ids, flat, frequency_block, lacks_class,
    lemma_class_ids_add, lemma_class_ids_none, lemma_document_is_its_blocks, lemma_flat_add,
    lemma_merged, lemma_says, line_block, line_blocks, linecode_block, linecode_blocks, load_block,
    load_blocks, named_object, row_data, shunt_block, shunt_blocks, source_block, source_blocks,
    switch_blocks, transformer_block, transformer_blocks, triangle_data,
};
use crate::cim::inverse::lemma_written_document_reads_back;
use crate::cim::laws::{cim_namespace, safe_ids};
use crate::cim::read::{cim_text, description_n, imported, merged_n, namespace_n, network_of};
use crate::cim::store::{
    distinct_ids, of_class_n, prop_from, CimDocumentV, CimObjectV, PropV, StoreV,
};
use crate::cim::write::{cim_xml, mrid_of, network_doc};
use crate::error::ErrorV;
use crate::math::Sem;
use crate::model::{
    DistLineCodeV, DistLineV, DistLoadV, DistNetworkV, DistShuntV, DistTransformerV, VoltageSourceV,
};

verus! {

/// The store of what is written of a network.
pub open spec fn written(m: Sem, net: DistNetworkV) -> StoreV {
    StoreV { objects: network_doc(m, net).objects }
}

/// Every written object has an identifier of its own.
pub open spec fn told_apart(m: Sem, net: DistNetworkV) -> bool {
    distinct_ids(network_doc(m, net).objects)
}

// ---- classes ---------------------------------------------------------------

/// The classes that are written differ from one another, and from the other
/// classes of switches.
pub proof fn lemma_classes()
    ensures
        "BaseFrequency"@.len() == 13 && "BaseFrequency"@[0] == 'B',
        "ConnectivityNode"@.len() == 16 && "ConnectivityNode"@[0] == 'C',
        "PerLengthPhaseImpedance"@.len() == 23,
        "PhaseImpedanceData"@.len() == 18 && "PhaseImpedanceData"@[0] == 'P',
        "ACLineSegment"@.len() == 13 && "ACLineSegment"@[0] == 'A',
        "Terminal"@.len() == 8 && "Terminal"@[0] == 'T',
        "ACLineSegmentPhase"@.len() == 18 && "ACLineSegmentPhase"@[0] == 'A',
        "EnergyConsumer"@.len() == 14,
        "EnergyConsumerPhase"@.len() == 19 && "EnergyConsumerPhase"@[0] == 'E',
        "LinearShuntCompensator"@.len() == 22,
        "ShuntCompensatorPhase"@.len() == 21,
        "LoadBreakSwitch"@.len() == 15,
        "PowerTransformer"@.len() == 16 && "PowerTransformer"@[0] == 'P',
        "PowerTransformerEnd"@.len() == 19 && "PowerTransformerEnd"@[0] == 'P',
        "EnergySource"@.len() == 12 && "EnergySource"@[0] == 'E',
        "Breaker"@.len() == 7,
        "Recloser"@.len() == 8 && "Recloser"@[0] == 'R',
        "Sectionaliser"@.len() == 13 && "Sectionaliser"@[0] == 'S',
        "Fuse"@.len() == 4,
        "Disconnector"@.len() == 12 && "Disconnector"@[0] == 'D',
        "Jumper"@.len() == 6,
        "SwitchPhase"@.len() == 11,
{
    reveal_strlit("BaseFrequency");
    reveal_strlit("ConnectivityNode");
    reveal_strlit("PerLengthPhaseImpedance");
    reveal_strlit("PhaseImpedanceData");
    reveal_strlit("ACLineSegment");
    reveal_strlit("Terminal");
    reveal_strlit("ACLineSegmentPhase");
    reveal_strlit("EnergyConsumer");
    reveal_strlit("EnergyConsumerPhase");
    reveal_strlit("LinearShuntCompensator");
    reveal_strlit("ShuntCompensatorPhase");
    reveal_strlit("LoadBreakSwitch");
    reveal_strlit("PowerTransformer");
    reveal_strlit("PowerTransformerEnd");
    reveal_strlit("EnergySource");
    reveal_strlit("Breaker");
    reveal_strlit("Recloser");
    reveal_strlit("Sectionaliser");
    reveal_strlit("Fuse");
    reveal_strlit("Disconnector");
    reveal_strlit("Jumper");
    reveal_strlit("SwitchPhase");
}

pub proof fn lemma_row_lacks(
    m: Sem,
    lc: DistLineCodeV,
    id: Seq<char>,
    i: nat,
    j: nat,
    class: Seq<char>,
)
    requires
        class != "PhaseImpedanceData"@,
    ensures
        lacks_class(row_data(m, lc, id, i, j), class),
    decreases j,
{
    if j > 0 {
        lemma_row_lacks(m, lc, id, i, (j - 1) as nat, class);
    }
}

pub proof fn lemma_triangle_lacks(
    m: Sem,
    lc: DistLineCodeV,
    id: Seq<char>,
    i: nat,
    class: Seq<char>,
)
    requires
        class != "PhaseImpedanceData"@,
    ensures
        lacks_class(triangle_data(m, lc, id, i), class),
    decreases i,
{
    if i > 0 {
        lemma_triangle_lacks(m, lc, id, (i - 1) as nat, class);
        lemma_row_lacks(m, lc, id, (i - 1) as nat, i, class);
    }
}

pub proof fn lemma_linecode_lacks(m: Sem, lc: DistLineCodeV, class: Seq<char>)
    requires
        class != "PhaseImpedanceData"@,
        class != "PerLengthPhaseImpedance"@,
    ensures
        lacks_class(linecode_block(m, lc), class),
{
    lemma_triangle_lacks(
        m,
        lc,
        mrid_of(lc.extras, "plpi"@, lc.name),
        lc.n_conductors as nat,
        class,
    );
}

/// Blocks among whose objects a class does not occur.
pub open spec fn all_lack(bs: Seq<Seq<CimObjectV>>, class: Seq<char>) -> bool {
    forall|i: int| 0 <= i < bs.len() ==> lacks_class(#[trigger] bs[i], class)
}

pub proof fn lemma_flat_lacks(bs: Seq<Seq<CimObjectV>>, class: Seq<char>)
    requires
        all_lack(bs, class),
    ensures
        lacks_class(flat(bs), class),
        class_ids(flat(bs), class) == Seq::<Seq<char>>::empty(),
    decreases bs.len(),
{
    if bs.len() > 0 {
        assert(all_lack(bs.drop_last(), class)) by {
            assert forall|i: int| 0 <= i < bs.drop_last().len() implies lacks_class(
                #[trigger] bs.drop_last()[i],
                class,
            ) by {
                assert(bs.drop_last()[i] == bs[i]);
            }
        }
        lemma_flat_lacks(bs.drop_last(), class);
        let last = bs[bs.len() - 1];
        assert(lacks_class(last, class));
        assert forall|k: int| 0 <= k < flat(bs).len() implies (#[trigger] flat(bs)[k]).class
            != class by {
            let head = flat(bs.drop_last());
            if k < head.len() {
                assert(flat(bs)[k] == head[k]);
            } else {
                assert(flat(bs)[k] == last[k - head.len()]);
            }
        }
    }
    lemma_class_ids_none(flat(bs), class, flat(bs).len());
}

/// Blocks that each hold one object of a class give its identifiers in order.
pub proof fn lemma_flat_ones(bs: Seq<Seq<CimObjectV>>, class: Seq<char>, ids: Seq<Seq<char>>)
    requires
        bs.len() == ids.len(),
        forall|i: int| 0 <= i < bs.len() ==> class_ids(#[trigger] bs[i], class) == seq![ids[i]],
    ensures
        class_ids(flat(bs), class) == ids,
    decreases bs.len(),
{
    if bs.len() == 0 {
        assert(class_ids(flat(bs), class) =~= ids);
    } else {
        let b = bs.drop_last();
        let n = bs.len() - 1;
        assert forall|i: int| 0 <= i < b.len() implies class_ids(#[trigger] b[i], class) == seq![
            ids.drop_last()[i],
        ] by {
            assert(b[i] == bs[i]);
        }
        lemma_flat_ones(b, class, ids.drop_last());
        lemma_class_ids_add(flat(b), bs[n], class);
        assert(class_ids(bs[n], class) == seq![ids[n]]);
        assert(ids.drop_last() + seq![ids[n]] =~= ids);
    }
}

proof fn lemma_line_lacks(m: Sem, net: DistNetworkV, line: DistLineV, class: Seq<char>)
    requires
        class != "ACLineSegment"@,
        class != "Terminal"@,
        class != "ACLineSegmentPhase"@,
    ensures
        lacks_class(line_block(m, net, line), class),
{
}

proof fn lemma_load_lacks(m: Sem, net: DistNetworkV, load: DistLoadV, class: Seq<char>)
    requires
        class != "EnergyConsumer"@,
        class != "Terminal"@,
        class != "EnergyConsumerPhase"@,
    ensures
        lacks_class(load_block(m, net, load), class),
{
}

proof fn lemma_shunt_lacks(m: Sem, net: DistNetworkV, shunt: DistShuntV, class: Seq<char>)
    requires
        class != "LinearShuntCompensator"@,
        class != "Terminal"@,
        class != "ShuntCompensatorPhase"@,
    ensures
        lacks_class(shunt_block(m, net, shunt), class),
{
}

proof fn lemma_transformer_lacks(m: Sem, net: DistNetworkV, xf: DistTransformerV, class: Seq<char>)
    requires
        class != "PowerTransformer"@,
        class != "Terminal"@,
        class != "PowerTransformerEnd"@,
    ensures
        lacks_class(transformer_block(m, net, xf), class),
{
}

proof fn lemma_source_lacks(m: Sem, net: DistNetworkV, s: VoltageSourceV, class: Seq<char>)
    requires
        class != "EnergySource"@,
        class != "Terminal"@,
    ensures
        lacks_class(source_block(m, net, s), class),
{
}

/// The classes of the elements that have none of a class, segment by segment.
#[verifier::rlimit(40)]
pub proof fn lemma_segments_lack(m: Sem, net: DistNetworkV, class: Seq<char>)
    ensures
        class != "BaseFrequency"@ ==> all_lack(seq![frequency_block(m, net)], class),
        class != "ConnectivityNode"@ ==> all_lack(bus_blocks(net), class),
        class != "PhaseImpedanceData"@ && class != "PerLengthPhaseImpedance"@ ==> all_lack(
            linecode_blocks(m, net),
            class,
        ),
        class != "ACLineSegment"@ && class != "Terminal"@ && class != "ACLineSegmentPhase"@
            ==> all_lack(line_blocks(m, net), class),
        class != "EnergyConsumer"@ && class != "Terminal"@ && class != "EnergyConsumerPhase"@
            ==> all_lack(load_blocks(m, net), class),
        class != "LinearShuntCompensator"@ && class != "Terminal"@ && class
            != "ShuntCompensatorPhase"@ ==> all_lack(shunt_blocks(m, net), class),
        class != "LoadBreakSwitch"@ && class != "Terminal"@ ==> all_lack(switch_blocks(net), class),
        class != "PowerTransformer"@ && class != "Terminal"@ && class != "PowerTransformerEnd"@
            ==> all_lack(transformer_blocks(m, net), class),
        class != "EnergySource"@ && class != "Terminal"@ ==> all_lack(
            source_blocks(m, net),
            class,
        ),
{
    if class != "PhaseImpedanceData"@ && class != "PerLengthPhaseImpedance"@ {
        let bs = linecode_blocks(m, net);
        assert forall|i: int| 0 <= i < bs.len() implies lacks_class(#[trigger] bs[i], class) by {
            lemma_linecode_lacks(m, net.linecodes[i], class);
        }
    }
    if class != "ACLineSegment"@ && class != "Terminal"@ && class != "ACLineSegmentPhase"@ {
        let bs = line_blocks(m, net);
        assert forall|i: int| 0 <= i < bs.len() implies lacks_class(#[trigger] bs[i], class) by {
            lemma_line_lacks(m, net, net.lines[i], class);
        }
    }
    if class != "EnergyConsumer"@ && class != "Terminal"@ && class != "EnergyConsumerPhase"@ {
        let bs = load_blocks(m, net);
        assert forall|i: int| 0 <= i < bs.len() implies lacks_class(#[trigger] bs[i], class) by {
            lemma_load_lacks(m, net, net.loads[i], class);
        }
    }
    if class != "LinearShuntCompensator"@ && class != "Terminal"@ && class
        != "ShuntCompensatorPhase"@ {
        let bs = shunt_blocks(m, net);
        assert forall|i: int| 0 <= i < bs.len() implies lacks_class(#[trigger] bs[i], class) by {
            lemma_shunt_lacks(m, net, net.shunts[i], class);
        }
    }
    if class != "PowerTransformer"@ && class != "Terminal"@ && class != "PowerTransformerEnd"@ {
        let bs = transformer_blocks(m, net);
        assert forall|i: int| 0 <= i < bs.len() implies lacks_class(#[trigger] bs[i], class) by {
            lemma_transformer_lacks(m, net, net.transformers[i], class);
        }
    }
    if class != "EnergySource"@ && class != "Terminal"@ {
        let bs = source_blocks(m, net);
        assert forall|i: int| 0 <= i < bs.len() implies lacks_class(#[trigger] bs[i], class) by {
            lemma_source_lacks(m, net, net.sources[i], class);
        }
    }
}

/// The identifiers of a class over the segments of a document.
#[verifier::rlimit(40)]
pub proof fn lemma_class_over_segments(m: Sem, net: DistNetworkV, class: Seq<char>)
    ensures
        class_ids(flat(blocks_of(m, net)), class) == class_ids(
            flat(seq![frequency_block(m, net)]),
            class,
        ) + class_ids(flat(bus_blocks(net)), class) + class_ids(
            flat(linecode_blocks(m, net)),
            class,
        ) + class_ids(flat(line_blocks(m, net)), class) + class_ids(
            flat(load_blocks(m, net)),
            class,
        ) + class_ids(flat(shunt_blocks(m, net)), class) + class_ids(
            flat(switch_blocks(net)),
            class,
        ) + class_ids(flat(transformer_blocks(m, net)), class) + class_ids(
            flat(source_blocks(m, net)),
            class,
        ),
{
    let a1 = seq![frequency_block(m, net)];
    let a2 = a1 + bus_blocks(net);
    let a3 = a2 + linecode_blocks(m, net);
    let a4 = a3 + line_blocks(m, net);
    let a5 = a4 + load_blocks(m, net);
    let a6 = a5 + shunt_blocks(m, net);
    let a7 = a6 + switch_blocks(net);
    let a8 = a7 + transformer_blocks(m, net);
    lemma_flat_add(a1, bus_blocks(net));
    lemma_class_ids_add(flat(a1), flat(bus_blocks(net)), class);
    lemma_flat_add(a2, linecode_blocks(m, net));
    lemma_class_ids_add(flat(a2), flat(linecode_blocks(m, net)), class);
    lemma_flat_add(a3, line_blocks(m, net));
    lemma_class_ids_add(flat(a3), flat(line_blocks(m, net)), class);
    lemma_flat_add(a4, load_blocks(m, net));
    lemma_class_ids_add(flat(a4), flat(load_blocks(m, net)), class);
    lemma_flat_add(a5, shunt_blocks(m, net));
    lemma_class_ids_add(flat(a5), flat(shunt_blocks(m, net)), class);
    lemma_flat_add(a6, switch_blocks(net));
    lemma_class_ids_add(flat(a6), flat(switch_blocks(net)), class);
    lemma_flat_add(a7, transformer_blocks(m, net));
    lemma_class_ids_add(flat(a7), flat(transformer_blocks(m, net)), class);
    lemma_flat_add(a8, source_blocks(m, net));
    lemma_class_ids_add(flat(a8), flat(source_blocks(m, net)), class);
}

// ---- nodes -----------------------------------------------------------------

/// The identifiers of the nodes that stand for the buses.
pub open spec fn node_ids(net: DistNetworkV) -> Seq<Seq<char>> {
    Seq::new(
        net.buses.len(),
        |i: int| mrid_of(net.buses[i].extras, "node"@, net.buses[i].id),
    )
}

#[verifier::rlimit(40)]
pub proof fn lemma_nodes(m: Sem, net: DistNetworkV)
    ensures
        class_ids(flat(blocks_of(m, net)), "ConnectivityNode"@) == node_ids(net),
{
    let c = "ConnectivityNode"@;
    lemma_classes();
    lemma_segments_lack(m, net, c);
    lemma_class_over_segments(m, net, c);
    assert(c != "BaseFrequency"@);
    assert(c != "PowerTransformer"@) by {
        assert(c[0] != "PowerTransformer"@[0]);
    }
    lemma_flat_lacks(seq![frequency_block(m, net)], c);
    lemma_flat_lacks(linecode_blocks(m, net), c);
    lemma_flat_lacks(line_blocks(m, net), c);
    lemma_flat_lacks(load_blocks(m, net), c);
    lemma_flat_lacks(shunt_blocks(m, net), c);
    lemma_flat_lacks(switch_blocks(net), c);
    lemma_flat_lacks(transformer_blocks(m, net), c);
    lemma_flat_lacks(source_blocks(m, net), c);
    let bs = bus_blocks(net);
    assert forall|i: int| 0 <= i < bs.len() implies class_ids(#[trigger] bs[i], c) == seq![
        node_ids(net)[i],
    ] by {
        reveal_with_fuel(of_class_n, 2);
        assert(class_ids(bs[i], c) =~= seq![node_ids(net)[i]]);
    }
    lemma_flat_ones(bs, c, node_ids(net));
    assert(class_ids(flat(blocks_of(m, net)), c) =~= node_ids(net));
}

/// A block stands in the document, each object at its place.
pub proof fn lemma_block_at(bs: Seq<Seq<CimObjectV>>, k: int)
    requires
        0 <= k < bs.len(),
    ensures
        flat(bs) == flat(bs.take(k)) + bs[k] + flat(bs.skip(k + 1)),
{
    let a = bs.take(k);
    let b = seq![bs[k]];
    let c = bs.skip(k + 1);
    assert(bs =~= a + b + c);
    lemma_flat_add(a + b, c);
    lemma_flat_add(a, b);
    assert(b.drop_last() =~= seq![]);
    assert(flat(b.drop_last()) =~= seq![]);
    assert(flat(b) =~= bs[k]);
}

/// The first property with a key.
pub proof fn lemma_prop_at(props: Seq<(Seq<char>, PropV)>, key: Seq<char>, i: int, k: int)
    requires
        0 <= i <= k < props.len(),
        props[k].0 == key,
        forall|j: int| i <= j < k ==> (#[trigger] props[j]).0 != key,
    ensures
        prop_from(props, key, i) == Some(props[k].1),
    decreases k - i,
{
    if i < k {
        assert(props[i].0 != key);
        lemma_prop_at(props, key, i + 1, k);
    }
}

pub proof fn lemma_id_keys()
    ensures
        "IdentifiedObject.mRID"@.len() == 21 && "IdentifiedObject.mRID"@[0] == 'I',
        "IdentifiedObject.name"@.len() == 21 && "IdentifiedObject.name"@[0] == 'I',
        "IdentifiedObject.mRID"@[17] == 'm',
        "IdentifiedObject.name"@[17] == 'n',
{
    reveal_strlit("IdentifiedObject.mRID");
    reveal_strlit("IdentifiedObject.name");
}

/// The name of an object that was written with one.
pub proof fn lemma_named_says(
    s: StoreV,
    k: int,
    class: Seq<char>,
    id: Seq<char>,
    name: Seq<char>,
    more: Seq<(Seq<char>, PropV)>,
)
    requires
        distinct_ids(s.objects),
        0 <= k < s.objects.len(),
        s.objects[k] == named_object(class, id, name, more),
    ensures
        s.name(id) == name,
        s.class_of(id) == Some(class),
{
    lemma_says(s, k);
    lemma_id_keys();
    let key = "IdentifiedObject.name"@;
    let props = s.objects[k].props;
    assert(props[1] == ("IdentifiedObject.name"@, PropV::Text(name)));
    assert(props[0].0 != key) by {
        assert(props[0].0[17] != key[17]);
    }
    lemma_prop_at(props, key, 0, 1);
    assert(s.prop(id, key) == Some(PropV::Text(name)));
    reveal(StoreV::name);
    reveal(StoreV::text);
}

/// The index of the block of the `i`-th bus.
pub proof fn lemma_bus_index(m: Sem, net: DistNetworkV, i: int)
    requires
        0 <= i < net.buses.len(),
    ensures
        1 + i < blocks_of(m, net).len(),
        blocks_of(m, net)[1 + i] == bus_block(net.buses[i]),
{
}

/// The node of a bus goes by the name of the bus.
#[verifier::rlimit(40)]
pub proof fn lemma_node_name(m: Sem, net: DistNetworkV, i: int)
    requires
        told_apart(m, net),
        0 <= i < net.buses.len(),
    ensures
        written(m, net).name(node_ids(net)[i]) == net.buses[i].id,
{
    let s = written(m, net);
    lemma_document_is_its_blocks(m, net);
    let bs = blocks_of(m, net);
    lemma_bus_index(m, net, i);
    lemma_block_at(bs, 1 + i);
    let k = flat(bs.take(1 + i)).len() as int;
    let b = net.buses[i];
    assert(s.objects[k] == bus_block(b)[0]);
    lemma_named_says(s, k, "ConnectivityNode"@, node_ids(net)[i], b.id, seq![]);
}

/// What a written document reads as: the network of what was written, which
/// keeps the text.
#[verifier::rlimit(40)]
pub proof fn lemma_reads_as(m: Sem, net: DistNetworkV)
    requires
        safe_ids(net),
        told_apart(m, net),
        net.buses.len() > 0,
    ensures
        cim_text(m, cim_xml(m, net).text) == Ok::<DistNetworkV, ErrorV>(
            (DistNetworkV {
                source: Some(cim_xml(m, net).text),
                ..network_of(m, written(m, net), None)
            }),
        ),
{
    lemma_written_document_reads_back(m, net);
    let doc = CimDocumentV {
        objects: network_doc(m, net).objects,
        cim_namespace: Some(cim_namespace()),
        description: None,
    };
    let docs = seq![doc];
    reveal_with_fuel(merged_n, 2);
    reveal_with_fuel(namespace_n, 2);
    reveal_with_fuel(description_n, 2);
    lemma_merged(doc.objects);
    assert(merged_n(docs, 0) =~= seq![]);
    assert(merged_n(docs, 1) == doc.objects);
    assert(namespace_n(docs, 1) is Some);
    lemma_document_is_its_blocks(m, net);
    lemma_nodes(m, net);
    assert(written(m, net).of_class("ConnectivityNode"@) == node_ids(net)) by {
        reveal(StoreV::of_class);
    }
    assert(node_ids(net).len() > 0);
}

/// The buses come back: reading what was written of a network gives a bus for
/// each of its buses, in order and by the same name, under the identifier it was
/// written with. Identifiers must be such that an attribute holds them, and no
/// two written objects may share one.
#[verifier::rlimit(40)]
pub proof fn lemma_buses_read_back(m: Sem, net: DistNetworkV)
    requires
        safe_ids(net),
        told_apart(m, net),
        net.buses.len() > 0,
    ensures
        cim_text(m, cim_xml(m, net).text) matches Ok(back) && back.buses.len() == net.buses.len()
            && forall|i: int|
            0 <= i < net.buses.len() ==> (#[trigger] back.buses[i]).id == net.buses[i].id
                && back.buses[i].extras == imported(node_ids(net)[i]),
{
    lemma_reads_as(m, net);
    let s = written(m, net);
    lemma_document_is_its_blocks(m, net);
    lemma_nodes(m, net);
    assert(s.of_class("ConnectivityNode"@) == node_ids(net)) by {
        reveal(StoreV::of_class);
    }
    reveal(network_of);
    let back = network_of(m, s, None);
    assert forall|i: int| 0 <= i < net.buses.len() implies (#[trigger] back.buses[i]).id
        == net.buses[i].id && back.buses[i].extras == imported(node_ids(net)[i]) by {
        lemma_node_name(m, net, i);
    }
}

} // verus!
