//! Which shunts, sources and transformers a written document comes back with.

use vstd::prelude::*;

use crate::cim::blocks::{
    blocks_of, bus_blocks, class_ids, flat, frequency_block, kind_ref, lemma_document_is_its_blocks,
    line_blocks, linecode_blocks, load_blocks, named_object, shunt_block, shunt_blocks,
    shunt_phase_object, source_block, source_blocks, switch_blocks, transformer_blocks,
};
use crate::cim::elements::{
    kept, lemma_block_place, lemma_ids_of_first, lemma_map_by_code, lemma_map_by_phases,
    lemma_parts, lemma_phase_keys, lemma_shunt_ids, lemma_shunt_index, shunt_ids,
};
use crate::cim::laws::safe_ids;
use crate::cim::read::{
    bus_at_of, child_values, children_of, cim_text, imported, phase_angle, shunt_of, shunts_n,
    source_of, sources_n, with_neutral_of,
};
use crate::cim::recall::{
    lemma_class_over_segments, lemma_classes, lemma_flat_lacks, lemma_flat_ones, lemma_named_says,
    lemma_reads_as, lemma_segments_lack, told_apart, written,
};
use crate::cim::store::{distinct_ids, CimObjectV, PropV, StoreV};
use crate::cim::wires::{
    ascending, hot_of, lemma_named_prop, lemma_phase_objects, lemma_phases_are_hot, letters_of,
    phase_of,
};
use crate::cim::wiring::{codable, lemma_one_terminal};
use crate::cim::write::{cim_xml, det_mrid_of, mrid_of, value_or_zero};
use crate::math::{Bits, Sem};
use crate::matrix::diagonal_of;
use crate::model::{
    dist_shunt_of, entry_of, repeat_of, voltage_source_of, Configuration, DistNetworkV, DistShuntV,
    VoltageSourceV,
};

verus! {

// ---- shunts ----------------------------------------------------------------

/// The diagonal of a matrix, over its first `n` rows.
pub open spec fn diagonal_at(a: Seq<Seq<Bits>>, n: nat) -> Seq<Bits> {
    Seq::new(n, |i: int| entry_of(a, i, i))
}

/// The shunt that comes back of a shunt: on its phases, with the admittance of
/// each and none between them.
pub open spec fn returned_shunt(net: DistNetworkV, shunt: DistShuntV) -> DistShuntV {
    let hot = hot_of(shunt.terminal_map);
    DistShuntV {
        extras: imported(mrid_of(shunt.extras, "shunt"@, shunt.name)),
        ..dist_shunt_of(
            shunt.name,
            net.bus(shunt.bus)->0.id,
            hot,
            diagonal_of(diagonal_at(shunt.g, hot.len())),
            diagonal_of(diagonal_at(shunt.b, hot.len())),
        )
    }
}

/// A shunt stands at a bus of the network, on phases in their order.
pub open spec fn shunt_stands(m: Sem, net: DistNetworkV, shunt: DistShuntV) -> bool {
    let hot = hot_of(shunt.terminal_map);
    &&& net.bus(shunt.bus) is Some
    &&& hot.len() > 0
    &&& ascending(hot)
    &&& forall|i: int| 0 <= i < hot.len() ==> kept(m, #[trigger] entry_of(shunt.g, i, i))
    &&& forall|i: int| 0 <= i < hot.len() ==> kept(m, #[trigger] entry_of(shunt.b, i, i))
}

/// What the phase objects of a written shunt say.
proof fn lemma_shunt_phase_says(
    m: Sem,
    s: StoreV,
    at: int,
    shunt: DistShuntV,
    id: Seq<char>,
    phase: Seq<char>,
    n: nat,
)
    requires
        distinct_ids(s.objects),
        0 <= at < s.objects.len(),
        s.objects[at] == shunt_phase_object(m, shunt, id, phase, n),
        kept(m, entry_of(shunt.g, n as int, n as int)),
        kept(m, entry_of(shunt.b, n as int, n as int)),
    ensures
        s.number(m, s.objects[at].id, "ShuntCompensatorPhase.gPerSection"@) == Some(
            entry_of(shunt.g, n as int, n as int),
        ),
        s.number(m, s.objects[at].id, "ShuntCompensatorPhase.bPerSection"@) == Some(
            entry_of(shunt.b, n as int, n as int),
        ),
{
    let b = entry_of(shunt.b, n as int, n as int);
    let g = entry_of(shunt.g, n as int, n as int);
    let more = seq![
        ("ShuntCompensatorPhase.ShuntCompensator"@, PropV::Ref(id)),
        ("ShuntCompensatorPhase.phase"@, kind_ref("SinglePhaseKind."@ + phase)),
        ("ShuntCompensatorPhase.bPerSection"@, PropV::Text((m.show)(b))),
        ("ShuntCompensatorPhase.gPerSection"@, PropV::Text((m.show)(g))),
    ];
    let class = "ShuntCompensatorPhase"@;
    let own = det_mrid_of("shuntphase"@, shunt.name + ":"@ + phase);
    let name = shunt.name + "_"@ + phase;
    reveal_strlit("ShuntCompensatorPhase.ShuntCompensator");
    reveal_strlit("ShuntCompensatorPhase.phase");
    reveal_strlit("ShuntCompensatorPhase.bPerSection");
    reveal_strlit("ShuntCompensatorPhase.gPerSection");
    assert("ShuntCompensatorPhase.ShuntCompensator"@.len() == 38);
    assert("ShuntCompensatorPhase.phase"@.len() == 27);
    assert("ShuntCompensatorPhase.bPerSection"@.len() == 33
        && "ShuntCompensatorPhase.bPerSection"@[22] == 'b');
    assert("ShuntCompensatorPhase.gPerSection"@.len() == 33
        && "ShuntCompensatorPhase.gPerSection"@[22] == 'g');
    lemma_named_prop(s, at, class, own, name, more, 2);
    lemma_named_prop(s, at, class, own, name, more, 3);
    reveal(StoreV::number);
    reveal(StoreV::text);
}

#[verifier::rlimit(40)]
proof fn lemma_shunt_shape(m: Sem, net: DistNetworkV, shunt: DistShuntV)
    ensures
        ({
            let b = shunt_block(m, net, shunt);
            let hot = hot_of(shunt.terminal_map);
            &&& b.len() == 2 + hot.len()
            &&& b[0].id == mrid_of(shunt.extras, "shunt"@, shunt.name)
            &&& forall|j: int| 0 <= j < 2 ==> (#[trigger] b[j]).class != "ShuntCompensatorPhase"@
            &&& forall|j: int|
                2 <= j < b.len() ==> (#[trigger] b[j]) == shunt_phase_object(
                    m,
                    shunt,
                    b[0].id,
                    letters_of(hot)[j - 2],
                    (j - 2) as nat,
                )
            &&& forall|j: int|
                2 <= j < b.len() ==> phase_of(
                    #[trigger] b[j],
                    "ShuntCompensatorPhase"@,
                    "ShuntCompensatorPhase.ShuntCompensator"@,
                    b[0].id,
                    letters_of(hot)[j - 2],
                )
        }),
{
    let b = shunt_block(m, net, shunt);
    let map = shunt.terminal_map;
    lemma_phases_are_hot(map, map.len());
    lemma_phase_keys();
    assert forall|j: int| 0 <= j < 2 implies (#[trigger] b[j]).class != "ShuntCompensatorPhase"@ by {
        lemma_classes();
    }
}

/// The admittances that phase objects give.
proof fn lemma_shunt_values(
    m: Sem,
    s: StoreV,
    at: int,
    shunt: DistShuntV,
    id: Seq<char>,
    b: Seq<CimObjectV>,
    children: Seq<(Seq<char>, Seq<char>)>,
)
    requires
        distinct_ids(s.objects),
        0 <= at,
        at + b.len() <= s.objects.len(),
        forall|j: int| 0 <= j < b.len() ==> s.objects[at + j] == #[trigger] b[j],
        ({
            let hot = hot_of(shunt.terminal_map);
            &&& b.len() == 2 + hot.len()
            &&& children == Seq::new(hot.len(), |j: int| (hot[j], b[2 + j].id))
            &&& forall|j: int|
                2 <= j < b.len() ==> (#[trigger] b[j]) == shunt_phase_object(
                    m,
                    shunt,
                    id,
                    letters_of(hot)[j - 2],
                    (j - 2) as nat,
                )
            &&& forall|i: int| 0 <= i < hot.len() ==> kept(m, #[trigger] entry_of(shunt.g, i, i))
            &&& forall|i: int| 0 <= i < hot.len() ==> kept(m, #[trigger] entry_of(shunt.b, i, i))
        }),
    ensures
        child_values(m, s, children, "ShuntCompensatorPhase.gPerSection"@) == diagonal_at(
            shunt.g,
            hot_of(shunt.terminal_map).len(),
        ),
        child_values(m, s, children, "ShuntCompensatorPhase.bPerSection"@) == diagonal_at(
            shunt.b,
            hot_of(shunt.terminal_map).len(),
        ),
{
    let hot = hot_of(shunt.terminal_map);
    let g = child_values(m, s, children, "ShuntCompensatorPhase.gPerSection"@);
    let y = child_values(m, s, children, "ShuntCompensatorPhase.bPerSection"@);
    assert forall|j: int| 0 <= j < hot.len() implies g[j] == entry_of(shunt.g, j, j) && y[j]
        == entry_of(shunt.b, j, j) by {
        let o = b[2 + j];
        assert(children[j].1 == o.id);
        assert(s.objects[at + (2 + j)] == o);
        assert(kept(m, entry_of(shunt.g, j, j)) && kept(m, entry_of(shunt.b, j, j)));
        lemma_shunt_phase_says(m, s, at + (2 + j), shunt, id, letters_of(hot)[j], j as nat);
    }
    assert(g =~= diagonal_at(shunt.g, hot.len()));
    assert(y =~= diagonal_at(shunt.b, hot.len()));
}

/// A written shunt, read.
#[verifier::rlimit(40)]
proof fn lemma_shunt_reads(m: Sem, net: DistNetworkV, i: int)
    requires
        told_apart(m, net),
        0 <= i < net.shunts.len(),
        shunt_stands(m, net, net.shunts[i]),
    ensures
        bus_at_of(m, written(m, net), shunt_ids(net)[i], 0) == Some(
            net.bus(net.shunts[i].bus)->0.id,
        ),
        written(m, net).name(shunt_ids(net)[i]) == net.shunts[i].name,
{
    let s = written(m, net);
    let shunt = net.shunts[i];
    let k = lemma_shunt_index(m, net, i);
    let b = shunt_block(m, net, shunt);
    assert forall|j: int| (j == 0 || 2 <= j) && j < b.len() implies (#[trigger] b[j]).class
        != "Terminal"@ by {
        lemma_classes();
    }
    lemma_one_terminal(m, net, k, shunt.bus, shunt.terminal_map);
    let at = lemma_block_place(m, net, k);
    assert(s.objects[at + 0] == b[0]);
    lemma_named_says(s, at, "LinearShuntCompensator"@, shunt_ids(net)[i], shunt.name, seq![]);
}

#[verifier::rlimit(40)]
proof fn lemma_shunt_back(m: Sem, net: DistNetworkV, i: int)
    requires
        told_apart(m, net),
        0 <= i < net.shunts.len(),
        shunt_stands(m, net, net.shunts[i]),
    ensures
        shunt_of(m, written(m, net), shunt_ids(net)[i], net.bus(net.shunts[i].bus)->0.id)
            == returned_shunt(net, net.shunts[i]),
{
    let s = written(m, net);
    let shunt = net.shunts[i];
    let k = lemma_shunt_index(m, net, i);
    let b = shunt_block(m, net, shunt);
    let class = "ShuntCompensatorPhase"@;
    let key = "ShuntCompensatorPhase.ShuntCompensator"@;
    let hot = hot_of(shunt.terminal_map);
    lemma_shunt_reads(m, net, i);
    lemma_shunt_shape(m, net, shunt);
    lemma_phase_objects(m, net, k, 2, class, key, shunt.terminal_map);
    lemma_map_by_phases(m, s, b, 2, class, key, hot);
    let at = lemma_block_place(m, net, k);
    lemma_shunt_values(m, s, at, shunt, b[0].id, b, children_of(s, class, key, b[0].id));
}

#[verifier::rlimit(40)]
pub proof fn lemma_shunts_n(m: Sem, net: DistNetworkV, n: nat)
    requires
        told_apart(m, net),
        n <= net.shunts.len(),
        forall|i: int| 0 <= i < net.shunts.len() ==> shunt_stands(m, net, #[trigger] net.shunts[i]),
    ensures
        shunts_n(m, written(m, net), shunt_ids(net), n) == Seq::new(
            n,
            |i: int| returned_shunt(net, net.shunts[i]),
        ),
    decreases n,
{
    if n > 0 {
        lemma_shunts_n(m, net, (n - 1) as nat);
        lemma_shunt_reads(m, net, n - 1);
        lemma_shunt_back(m, net, n - 1);
    }
    assert(shunts_n(m, written(m, net), shunt_ids(net), n) =~= Seq::new(
        n,
        |i: int| returned_shunt(net, net.shunts[i]),
    ));
}

/// The shunts come back: reading what was written of a network gives its shunts,
/// in order, each by its name at its bus, on its phases with the admittance of
/// each. What couples two phases is not written.
pub proof fn lemma_shunts_read_back(m: Sem, net: DistNetworkV)
    requires
        safe_ids(net),
        told_apart(m, net),
        net.buses.len() > 0,
        forall|i: int| 0 <= i < net.shunts.len() ==> shunt_stands(m, net, #[trigger] net.shunts[i]),
    ensures
        cim_text(m, cim_xml(m, net).text) matches Ok(back) && back.shunts == Seq::new(
            net.shunts.len(),
            |i: int| returned_shunt(net, net.shunts[i]),
        ),
{
    lemma_reads_as(m, net);
    lemma_shunt_ids(m, net);
    lemma_shunts_n(m, net, net.shunts.len());
    lemma_parts(m, written(m, net));
}

// ---- sources ---------------------------------------------------------------

/// The voltage that is written of a source: line to line where it has two
/// phases or more.
pub open spec fn written_voltage(m: Sem, s: VoltageSourceV) -> Bits {
    if hot_of(s.terminal_map).len() >= 2 {
        m.times(value_or_zero(s.v_magnitude, 0), m.root3())
    } else {
        value_or_zero(s.v_magnitude, 0)
    }
}

/// The source that comes back of a source: a balanced set of its first voltage
/// and angle, one for each of its wires.
pub open spec fn returned_source(m: Sem, net: DistNetworkV, s: VoltageSourceV) -> VoltageSourceV {
    let n = s.terminal_map.len();
    let v = written_voltage(m, s);
    VoltageSourceV {
        extras: imported(mrid_of(s.extras, "source"@, s.name)),
        ..voltage_source_of(
            s.name,
            net.bus(s.bus)->0.id,
            with_neutral_of(s.terminal_map, Configuration::Wye),
            repeat_of(
                if n >= 2 {
                    m.over(v, m.root3())
                } else {
                    v
                },
                n,
            ),
            Seq::new(n, |i: int| phase_angle(m, value_or_zero(s.v_angle, 0), i as nat)),
        )
    }
}

/// A source stands at a bus of the network, on wires that a phase code names.
pub open spec fn source_stands(m: Sem, net: DistNetworkV, s: VoltageSourceV) -> bool {
    &&& net.bus(s.bus) is Some
    &&& codable(s.terminal_map)
    &&& kept(m, written_voltage(m, s))
    &&& kept(m, value_or_zero(s.v_angle, 0))
}

pub open spec fn source_ids(net: DistNetworkV) -> Seq<Seq<char>> {
    Seq::new(
        net.sources.len(),
        |i: int| mrid_of(net.sources[i].extras, "source"@, net.sources[i].name),
    )
}

proof fn lemma_source_block_ids(m: Sem, net: DistNetworkV, e: VoltageSourceV)
    ensures
        class_ids(source_block(m, net, e), "EnergySource"@) == seq![
            mrid_of(e.extras, "source"@, e.name),
        ],
{
    lemma_classes();
    lemma_ids_of_first(source_block(m, net, e), "EnergySource"@);
}

#[verifier::rlimit(40)]
pub proof fn lemma_source_ids(m: Sem, net: DistNetworkV)
    ensures
        written(m, net).of_class("EnergySource"@) == source_ids(net),
{
    let c = "EnergySource"@;
    lemma_classes();
    lemma_segments_lack(m, net, c);
    lemma_class_over_segments(m, net, c);
    lemma_flat_lacks(seq![frequency_block(m, net)], c);
    lemma_flat_lacks(bus_blocks(net), c);
    lemma_flat_lacks(linecode_blocks(m, net), c);
    lemma_flat_lacks(line_blocks(m, net), c);
    lemma_flat_lacks(load_blocks(m, net), c);
    lemma_flat_lacks(shunt_blocks(m, net), c);
    lemma_flat_lacks(switch_blocks(net), c);
    lemma_flat_lacks(transformer_blocks(m, net), c);
    let bs = source_blocks(m, net);
    assert forall|i: int| 0 <= i < bs.len() implies class_ids(#[trigger] bs[i], c) == seq![
        source_ids(net)[i],
    ] by {
        lemma_source_block_ids(m, net, net.sources[i]);
    }
    lemma_flat_ones(bs, c, source_ids(net));
    assert(class_ids(flat(blocks_of(m, net)), c) =~= source_ids(net));
    lemma_document_is_its_blocks(m, net);
    reveal(StoreV::of_class);
}

pub proof fn lemma_source_index(m: Sem, net: DistNetworkV, i: int) -> (k: int)
    requires
        0 <= i < net.sources.len(),
    ensures
        0 <= k < blocks_of(m, net).len(),
        blocks_of(m, net)[k] == source_block(m, net, net.sources[i]),
{
    let k = 1 + net.buses.len() + net.linecodes.len() + net.lines.len() + net.loads.len()
        + net.shunts.len() + net.switches.len() + net.transformers.len() + i;
    let a = seq![frequency_block(m, net)] + bus_blocks(net) + linecode_blocks(m, net)
        + line_blocks(m, net) + load_blocks(m, net) + shunt_blocks(m, net) + switch_blocks(net)
        + transformer_blocks(m, net);
    assert(a.len() == k - i);
    assert(blocks_of(m, net)[k] == source_blocks(m, net)[i]);
    k
}

/// A class that is never written is not read.
#[verifier::rlimit(40)]
pub proof fn lemma_no_such(m: Sem, net: DistNetworkV, c: Seq<char>)
    requires
        c == "EnergySourcePhase"@ || c == "TransformerMeshImpedance"@,
    ensures
        written(m, net).of_class(c) == Seq::<Seq<char>>::empty(),
{
    reveal_strlit("EnergySourcePhase");
    reveal_strlit("TransformerMeshImpedance");
    assert("EnergySourcePhase"@.len() == 17);
    assert("TransformerMeshImpedance"@.len() == 24);
    lemma_classes();
    lemma_segments_lack(m, net, c);
    lemma_class_over_segments(m, net, c);
    lemma_flat_lacks(seq![frequency_block(m, net)], c);
    lemma_flat_lacks(bus_blocks(net), c);
    lemma_flat_lacks(linecode_blocks(m, net), c);
    lemma_flat_lacks(line_blocks(m, net), c);
    lemma_flat_lacks(load_blocks(m, net), c);
    lemma_flat_lacks(shunt_blocks(m, net), c);
    lemma_flat_lacks(switch_blocks(net), c);
    lemma_flat_lacks(transformer_blocks(m, net), c);
    lemma_flat_lacks(source_blocks(m, net), c);
    lemma_document_is_its_blocks(m, net);
    reveal(StoreV::of_class);
    assert(class_ids(flat(blocks_of(m, net)), c) =~= Seq::<Seq<char>>::empty());
}

/// A source object, read.
proof fn lemma_source_says(
    m: Sem,
    s: StoreV,
    at: int,
    id: Seq<char>,
    name: Seq<char>,
    v: Bits,
    a: Bits,
)
    requires
        distinct_ids(s.objects),
        0 <= at < s.objects.len(),
        s.objects[at] == named_object(
            "EnergySource"@,
            id,
            name,
            seq![
                ("EnergySource.voltageMagnitude"@, PropV::Text((m.show)(v))),
                ("EnergySource.voltageAngle"@, PropV::Text((m.show)(a))),
                ("EnergySource.nominalVoltage"@, PropV::Text((m.show)(v))),
            ],
        ),
        kept(m, v),
        kept(m, a),
    ensures
        s.name(id) == name,
        s.number(m, id, "EnergySource.voltageMagnitude"@) == Some(v),
        s.number(m, id, "EnergySource.voltageAngle"@) == Some(a),
{
    let more = seq![
        ("EnergySource.voltageMagnitude"@, PropV::Text((m.show)(v))),
        ("EnergySource.voltageAngle"@, PropV::Text((m.show)(a))),
        ("EnergySource.nominalVoltage"@, PropV::Text((m.show)(v))),
    ];
    reveal_strlit("EnergySource.voltageMagnitude");
    reveal_strlit("EnergySource.voltageAngle");
    assert("EnergySource.voltageMagnitude"@.len() == 29);
    assert("EnergySource.voltageAngle"@.len() == 25);
    lemma_named_says(s, at, "EnergySource"@, id, name, more);
    lemma_named_prop(s, at, "EnergySource"@, id, name, more, 0);
    lemma_named_prop(s, at, "EnergySource"@, id, name, more, 1);
    reveal(StoreV::number);
    reveal(StoreV::text);
}

/// A written source, read.
#[verifier::rlimit(40)]
proof fn lemma_source_reads(m: Sem, net: DistNetworkV, i: int)
    requires
        told_apart(m, net),
        0 <= i < net.sources.len(),
        source_stands(m, net, net.sources[i]),
    ensures
        bus_at_of(m, written(m, net), source_ids(net)[i], 0) == Some(
            net.bus(net.sources[i].bus)->0.id,
        ),
        source_of(m, written(m, net), source_ids(net)[i], net.bus(net.sources[i].bus)->0.id)
            == returned_source(m, net, net.sources[i]),
{
    let s = written(m, net);
    let e = net.sources[i];
    let id = source_ids(net)[i];
    let k = lemma_source_index(m, net, i);
    let b = source_block(m, net, e);
    assert(b[0].class != "Terminal"@) by {
        lemma_classes();
    }
    lemma_one_terminal(m, net, k, e.bus, e.terminal_map);
    lemma_no_such(m, net, "EnergySourcePhase"@);
    lemma_map_by_code(
        m,
        s,
        id,
        "EnergySourcePhase"@,
        "EnergySourcePhase.EnergySource"@,
        e.terminal_map,
    );
    lemma_phases_are_hot(e.terminal_map, e.terminal_map.len());
    let at = lemma_block_place(m, net, k);
    assert(s.objects[at + 0] == b[0]);
    lemma_source_says(m, s, at, id, e.name, written_voltage(m, e), value_or_zero(e.v_angle, 0));
}

#[verifier::rlimit(40)]
pub proof fn lemma_sources_n(m: Sem, net: DistNetworkV, n: nat)
    requires
        told_apart(m, net),
        n <= net.sources.len(),
        forall|i: int|
            0 <= i < net.sources.len() ==> source_stands(m, net, #[trigger] net.sources[i]),
    ensures
        sources_n(m, written(m, net), source_ids(net), n) == Seq::new(
            n,
            |i: int| returned_source(m, net, net.sources[i]),
        ),
    decreases n,
{
    if n > 0 {
        lemma_sources_n(m, net, (n - 1) as nat);
        lemma_source_reads(m, net, n - 1);
    }
    assert(sources_n(m, written(m, net), source_ids(net), n) =~= Seq::new(
        n,
        |i: int| returned_source(m, net, net.sources[i]),
    ));
}

/// The sources come back: reading what was written of a network gives its
/// sources, in order, each by its name at its bus and on its wires, balanced at
/// its first voltage and angle. The voltage goes through its line-to-line value.
pub proof fn lemma_sources_read_back(m: Sem, net: DistNetworkV)
    requires
        safe_ids(net),
        told_apart(m, net),
        net.buses.len() > 0,
        forall|i: int|
            0 <= i < net.sources.len() ==> source_stands(m, net, #[trigger] net.sources[i]),
    ensures
        cim_text(m, cim_xml(m, net).text) matches Ok(back) && back.sources == Seq::new(
            net.sources.len(),
            |i: int| returned_source(m, net, net.sources[i]),
        ),
{
    lemma_reads_as(m, net);
    lemma_source_ids(m, net);
    lemma_sources_n(m, net, net.sources.len());
    lemma_parts(m, written(m, net));
}

} // verus!
