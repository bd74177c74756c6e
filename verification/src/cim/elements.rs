//! Which elements a written document comes back with.

use vstd::prelude::*;

use crate::cim::blocks::{
    blocks_of, bus_blocks, class_ids, flat, frequency_block, kind_ref, lemma_class_ids_add,
    lemma_class_ids_none, lemma_document_is_its_blocks, lemma_says, line_block, line_blocks,
    line_phase_object, linecode_block, linecode_blocks, load_block, load_blocks, load_phase_object,
    named_object, shunt_block, shunt_blocks, source_blocks, switch_block, switch_blocks,
    transformer_blocks,
};
use crate::cim::laws::safe_ids;
use crate::cim::read::{
    bus_at_of, child_values, children_n, children_of, cim_text, configuration_of, firsts,
    frequency_of, imported, is_open, lines_n, lines_of, loads_n, loads_of, network_of,
    per_length_of, seen_from, shunts_of, sources_of, switches_n, switches_of, switches_upto,
    terminal_map_of, terminals_of, with_neutral_of,
};
use crate::cim::recall::{
    lemma_block_at, lemma_class_over_segments, lemma_classes, lemma_flat_lacks, lemma_flat_ones,
    lemma_named_says, lemma_prop_at, lemma_reads_as, lemma_segments_lack, told_apart, written,
};
use crate::cim::store::{distinct_ids, of_class_n, CimObjectV, PropV, StoreV};
use crate::cim::wires::{
    ascending, hot_of, lemma_named_prop, lemma_phase_objects, lemma_phases_are_hot, letters_of,
    phase_of,
};
use crate::cim::wiring::{
    codable, counts, lemma_code_expands_to_its_map, lemma_kind_says, lemma_one_terminal,
    lemma_two_terminals,
};
use crate::cim::write::{
    bool_text, cim_xml, connection_of, det_mrid_of, mrid_of, phase_code_of, value_or_zero,
};
use crate::math::{num_lt, Bits, Sem, ZERO};
use crate::matrix::max3;
use crate::model::{
    dist_line_of, dist_load_of, dist_switch_of, linecode_from, Configuration, DistLineCodeV,
    DistLineV, DistLoadV, DistNetworkV, DistShuntV, DistSwitchV,
};
use crate::numeral::dec_of;
use crate::text::{back_spaces, is_space, lower_of, skip_spaces, trim_of};

verus! {

/// A number comes back from its text.
pub open spec fn kept(m: Sem, x: Bits) -> bool {
    (m.parse)(trim_of((m.show)(x))) == Some(x)
}

/// The parts of the network that a store describes.
pub proof fn lemma_parts(m: Sem, s: StoreV)
    ensures
        network_of(m, s, None).base_frequency == frequency_of(m, s),
        network_of(m, s, None).switches == switches_of(m, s),
        network_of(m, s, None).lines == lines_of(m, s).lines,
        network_of(m, s, None).linecodes == lines_of(m, s).codes,
        network_of(m, s, None).loads == loads_of(m, s, lines_of(m, s).warnings).loads,
        network_of(m, s, None).shunts == shunts_of(m, s),
        network_of(m, s, None).sources == sources_of(m, s),
{
    reveal(network_of);
}

// ---- switches --------------------------------------------------------------

/// The switch that comes back of a switch: the terminals of its first side stand
/// for both, and its ratings are not written.
pub open spec fn returned_switch(net: DistNetworkV, s: DistSwitchV) -> DistSwitchV {
    DistSwitchV {
        extras: imported(mrid_of(s.extras, "switch"@, s.name)),
        ..dist_switch_of(
            s.name,
            net.bus(s.bus_from)->0.id,
            net.bus(s.bus_to)->0.id,
            s.terminal_map_from,
            s.terminal_map_from,
            s.open,
        )
    }
}

/// A switch stands between buses of the network, on wires that a phase code
/// names.
pub open spec fn switch_stands(net: DistNetworkV, s: DistSwitchV) -> bool {
    &&& net.bus(s.bus_from) is Some
    &&& net.bus(s.bus_to) is Some
    &&& codable(s.terminal_map_from)
}

pub open spec fn switch_ids(net: DistNetworkV) -> Seq<Seq<char>> {
    Seq::new(
        net.switches.len(),
        |i: int| mrid_of(net.switches[i].extras, "switch"@, net.switches[i].name),
    )
}

#[verifier::rlimit(40)]
pub proof fn lemma_switch_ids(m: Sem, net: DistNetworkV)
    ensures
        class_ids(flat(blocks_of(m, net)), "LoadBreakSwitch"@) == switch_ids(net),
{
    let c = "LoadBreakSwitch"@;
    lemma_classes();
    lemma_segments_lack(m, net, c);
    lemma_class_over_segments(m, net, c);
    lemma_flat_lacks(seq![frequency_block(m, net)], c);
    lemma_flat_lacks(bus_blocks(net), c);
    lemma_flat_lacks(linecode_blocks(m, net), c);
    lemma_flat_lacks(line_blocks(m, net), c);
    lemma_flat_lacks(load_blocks(m, net), c);
    lemma_flat_lacks(shunt_blocks(m, net), c);
    lemma_flat_lacks(transformer_blocks(m, net), c);
    lemma_flat_lacks(source_blocks(m, net), c);
    let bs = switch_blocks(net);
    assert forall|i: int| 0 <= i < bs.len() implies class_ids(#[trigger] bs[i], c) == seq![
        switch_ids(net)[i],
    ] by {
        reveal_with_fuel(of_class_n, 4);
        assert(class_ids(bs[i], c) =~= seq![switch_ids(net)[i]]);
    }
    lemma_flat_ones(bs, c, switch_ids(net));
    assert(class_ids(flat(blocks_of(m, net)), c) =~= switch_ids(net));
}

/// A class that is never written is not read.
#[verifier::rlimit(40)]
pub proof fn lemma_unwritten(m: Sem, net: DistNetworkV, c: Seq<char>)
    requires
        c == "Breaker"@ || c == "Recloser"@ || c == "Sectionaliser"@ || c == "Fuse"@ || c
            == "Disconnector"@ || c == "Jumper"@ || c == "SwitchPhase"@,
    ensures
        written(m, net).of_class(c) == Seq::<Seq<char>>::empty(),
{
    lemma_classes();
    lemma_segments_lack(m, net, c);
    lemma_class_over_segments(m, net, c);
    lemma_flat_lacks(seq![frequency_block(m, net)], c);
    lemma_flat_lacks(bus_blocks(net), c);
    lemma_flat_lacks(linecode_blocks(m, net), c);
    lemma_flat_lacks(line_blocks(m, net), c);
    lemma_flat_lacks(load_blocks(m, net), c);
    lemma_flat_lacks(shunt_blocks(m, net), c);
    lemma_flat_lacks(switch_blocks(net), c);
    lemma_flat_lacks(transformer_blocks(m, net), c);
    lemma_flat_lacks(source_blocks(m, net), c);
    lemma_document_is_its_blocks(m, net);
    reveal(StoreV::of_class);
    assert(class_ids(flat(blocks_of(m, net)), c) =~= Seq::<Seq<char>>::empty());
}

pub proof fn lemma_switch_index(m: Sem, net: DistNetworkV, i: int) -> (k: int)
    requires
        0 <= i < net.switches.len(),
    ensures
        0 <= k < blocks_of(m, net).len(),
        blocks_of(m, net)[k] == switch_block(net, net.switches[i]),
{
    let k = 1 + net.buses.len() + net.linecodes.len() + net.lines.len() + net.loads.len()
        + net.shunts.len() + i;
    let a = seq![frequency_block(m, net)] + bus_blocks(net) + linecode_blocks(m, net)
        + line_blocks(m, net) + load_blocks(m, net) + shunt_blocks(m, net);
    assert(a.len() == k - i);
    assert(blocks_of(m, net)[k] == switch_blocks(net)[i]);
    k
}

pub proof fn lemma_bool_text_trims(b: bool)
    ensures
        trim_of(bool_text(b)) == bool_text(b),
        bool_text(b) == "true"@ <==> b,
        bool_text(b) == "false"@ <==> !b,
{
    reveal_strlit("true");
    reveal_strlit("false");
    let t = bool_text(b);
    assert(!is_space(t[0]));
    assert(!is_space(t[t.len() - 1]));
    assert(skip_spaces(t, 0) == 0);
    assert(back_spaces(t, 0, t.len() as int) == t.len());
    assert(t.subrange(0, t.len() as int) =~= t);
    assert("true"@.len() == 4 && "false"@.len() == 5);
}

/// A switch object, read.
pub proof fn lemma_switch_says(w: StoreV, at: int, id: Seq<char>, name: Seq<char>, open: bool)
    requires
        distinct_ids(w.objects),
        0 <= at < w.objects.len(),
        w.objects[at] == named_object(
            "LoadBreakSwitch"@,
            id,
            name,
            seq![
                ("Switch.normalOpen"@, PropV::Text(bool_text(open))),
                ("Switch.open"@, PropV::Text(bool_text(open))),
            ],
        ),
    ensures
        w.name(id) == name,
        is_open(w, id) == open,
{
    let more = seq![
        ("Switch.normalOpen"@, PropV::Text(bool_text(open))),
        ("Switch.open"@, PropV::Text(bool_text(open))),
    ];
    lemma_named_says(w, at, "LoadBreakSwitch"@, id, name, more);
    lemma_says(w, at);
    let props = w.objects[at].props;
    let key = "Switch.open"@;
    reveal_strlit("Switch.open");
    reveal_strlit("Switch.normalOpen");
    reveal_strlit("IdentifiedObject.mRID");
    reveal_strlit("IdentifiedObject.name");
    assert(key.len() == 11);
    assert("Switch.normalOpen"@.len() == 17);
    assert("IdentifiedObject.mRID"@.len() == 21);
    assert("IdentifiedObject.name"@.len() == 21);
    assert(props[2] == more[0]);
    assert(props[3] == more[1]);
    lemma_prop_at(props, key, 0, 3);
    assert(w.prop(id, key) == Some(PropV::Text(bool_text(open))));
    lemma_bool_text_trims(open);
    reveal_strlit("TRUE");
    reveal_strlit("True");
    reveal_strlit("1");
    assert("TRUE"@[0] == 'T' && "True"@[0] == 'T' && "1"@[0] == '1');
    reveal_strlit("true");
    reveal_strlit("false");
    assert("true"@[0] == 't' && "false"@[0] == 'f');
    assert(w.boolean(id, key) == Some(open)) by {
        reveal(StoreV::boolean);
        reveal(StoreV::text);
    }
}

/// The wires of an equipment without phase objects are those of the code on its
/// first terminal.
pub proof fn lemma_map_by_code(
    m: Sem,
    w: StoreV,
    id: Seq<char>,
    class: Seq<char>,
    key: Seq<char>,
    map: Seq<Seq<char>>,
)
    requires
        codable(map),
        w.of_class(class).len() == 0,
        terminals_of(m, w, id).len() > 0,
        w.enum_value(terminals_of(m, w, id)[0].1, "Terminal.phases"@) == Some(phase_code_of(map)),
    ensures
        terminal_map_of(m, w, id, class, key) == map,
{
    lemma_code_expands_to_its_map(map);
    reveal(terminal_map_of);
    reveal(children_of);
    assert(children_n(w, class, key, id, w.of_class(class), 0).len() == 0);
}

/// A written switch, read.
#[verifier::rlimit(40)]
pub proof fn lemma_switch_reads(m: Sem, net: DistNetworkV, i: int)
    requires
        told_apart(m, net),
        counts(m),
        0 <= i < net.switches.len(),
        switch_stands(net, net.switches[i]),
    ensures
        ({
            let w = written(m, net);
            let s = net.switches[i];
            let id = switch_ids(net)[i];
            &&& bus_at_of(m, w, id, 0) == Some(net.bus(s.bus_from)->0.id)
            &&& bus_at_of(m, w, id, 1) == Some(net.bus(s.bus_to)->0.id)
            &&& terminal_map_of(m, w, id, "SwitchPhase"@, "SwitchPhase.Switch"@)
                == s.terminal_map_from
            &&& w.name(id) == s.name
            &&& is_open(w, id) == s.open
        }),
{
    let w = written(m, net);
    let s = net.switches[i];
    let id = switch_ids(net)[i];
    let k = lemma_switch_index(m, net, i);
    let b = switch_block(net, s);
    assert(b[0].class != "Terminal"@) by {
        lemma_classes();
    }
    lemma_two_terminals(
        m,
        net,
        k,
        s.bus_from,
        s.bus_to,
        s.terminal_map_from,
        s.terminal_map_to,
    );
    lemma_unwritten(m, net, "SwitchPhase"@);
    lemma_map_by_code(
        m,
        w,
        id,
        "SwitchPhase"@,
        "SwitchPhase.Switch"@,
        s.terminal_map_from,
    );
    lemma_document_is_its_blocks(m, net);
    lemma_block_at(blocks_of(m, net), k);
    let at = flat(blocks_of(m, net).take(k)).len() as int;
    assert(w.objects[at] == b[0]);
    lemma_switch_says(w, at, id, s.name, s.open);
}

#[verifier::rlimit(40)]
pub proof fn lemma_switches_n(m: Sem, net: DistNetworkV, n: nat)
    requires
        told_apart(m, net),
        counts(m),
        n <= net.switches.len(),
        forall|i: int|
            0 <= i < net.switches.len() ==> switch_stands(net, #[trigger] net.switches[i]),
    ensures
        switches_n(m, written(m, net), seq![], switch_ids(net), n) == Seq::new(
            n,
            |i: int| returned_switch(net, net.switches[i]),
        ),
    decreases n,
{
    if n > 0 {
        lemma_switches_n(m, net, (n - 1) as nat);
        lemma_switch_reads(m, net, n - 1);
    }
    assert(switches_n(m, written(m, net), seq![], switch_ids(net), n) =~= Seq::new(
        n,
        |i: int| returned_switch(net, net.switches[i]),
    ));
}

/// The switches of a written document.
#[verifier::rlimit(40)]
pub proof fn lemma_switches_back(m: Sem, net: DistNetworkV)
    requires
        told_apart(m, net),
        counts(m),
        forall|i: int|
            0 <= i < net.switches.len() ==> switch_stands(net, #[trigger] net.switches[i]),
    ensures
        switches_of(m, written(m, net)) == Seq::new(
            net.switches.len(),
            |i: int| returned_switch(net, net.switches[i]),
        ),
{
    let s = written(m, net);
    lemma_document_is_its_blocks(m, net);
    lemma_switch_ids(m, net);
    assert(s.of_class("LoadBreakSwitch"@) == switch_ids(net)) by {
        reveal(StoreV::of_class);
    }
    lemma_switches_n(m, net, net.switches.len());
    lemma_unwritten(m, net, "Breaker"@);
    lemma_unwritten(m, net, "Recloser"@);
    lemma_unwritten(m, net, "Sectionaliser"@);
    lemma_unwritten(m, net, "Fuse"@);
    lemma_unwritten(m, net, "Disconnector"@);
    lemma_unwritten(m, net, "Jumper"@);
    let all = Seq::new(net.switches.len(), |i: int| returned_switch(net, net.switches[i]));
    assert(switches_upto(m, s, 0) == Seq::<DistSwitchV>::empty());
    assert(switches_upto(m, s, 1) == all);
    assert(switches_upto(m, s, 2) == all);
    assert(switches_upto(m, s, 3) == all);
    assert(switches_upto(m, s, 4) == all);
    assert(switches_upto(m, s, 5) == all);
    assert(switches_upto(m, s, 6) == all);
    assert(switches_upto(m, s, 7) == all);
}

/// The switches come back: reading what was written of a network gives its
/// switches, in order, each by its name between its buses, on the wires of its
/// first side and open or closed as it was.
pub proof fn lemma_switches_read_back(m: Sem, net: DistNetworkV)
    requires
        safe_ids(net),
        told_apart(m, net),
        counts(m),
        net.buses.len() > 0,
        forall|i: int|
            0 <= i < net.switches.len() ==> switch_stands(net, #[trigger] net.switches[i]),
    ensures
        cim_text(m, cim_xml(m, net).text) matches Ok(back) && back.switches == Seq::new(
            net.switches.len(),
            |i: int| returned_switch(net, net.switches[i]),
        ),
{
    lemma_reads_as(m, net);
    lemma_switches_back(m, net);
    lemma_parts(m, written(m, net));
}

// ---- frequency -------------------------------------------------------------

pub proof fn lemma_frequency_ids(m: Sem, net: DistNetworkV)
    ensures
        written(m, net).of_class("BaseFrequency"@).len() > 0,
        written(m, net).of_class("BaseFrequency"@)[0] == frequency_block(m, net)[0].id,
{
    let c = "BaseFrequency"@;
    lemma_document_is_its_blocks(m, net);
    lemma_class_over_segments(m, net, c);
    let b = frequency_block(m, net);
    reveal_with_fuel(of_class_n, 2);
    assert(class_ids(b, c) =~= seq![b[0].id]);
    lemma_flat_ones(seq![b], c, seq![b[0].id]);
    reveal(StoreV::of_class);
}

pub proof fn lemma_frequency_says(m: Sem, s: StoreV, at: int, o: CimObjectV, f: Bits)
    requires
        distinct_ids(s.objects),
        0 <= at < s.objects.len(),
        s.objects[at] == o,
        o.props.len() == 2,
        o.props[0].0 == "IdentifiedObject.name"@,
        o.props[1] == ("BaseFrequency.frequency"@, PropV::Text((m.show)(f))),
        kept(m, f),
    ensures
        s.number(m, o.id, "BaseFrequency.frequency"@) == Some(f),
{
    lemma_says(s, at);
    reveal_strlit("IdentifiedObject.name");
    reveal_strlit("BaseFrequency.frequency");
    assert("IdentifiedObject.name"@.len() == 21);
    assert("BaseFrequency.frequency"@.len() == 23);
    lemma_prop_at(o.props, "BaseFrequency.frequency"@, 0, 1);
    reveal(StoreV::number);
    reveal(StoreV::text);
}

/// The base frequency of a written document.
#[verifier::rlimit(40)]
pub proof fn lemma_frequency_back(m: Sem, net: DistNetworkV)
    requires
        told_apart(m, net),
        kept(m, net.base_frequency),
    ensures
        frequency_of(m, written(m, net)) == net.base_frequency,
{
    let s = written(m, net);
    lemma_frequency_ids(m, net);
    lemma_document_is_its_blocks(m, net);
    lemma_block_at(blocks_of(m, net), 0);
    let at = flat(blocks_of(m, net).take(0)).len() as int;
    let b = frequency_block(m, net);
    assert(blocks_of(m, net)[0] == b);
    assert(s.objects[at] == b[0]);
    lemma_frequency_says(m, s, at, b[0], net.base_frequency);
}

/// The base frequency comes back.
pub proof fn lemma_frequency_reads_back(m: Sem, net: DistNetworkV)
    requires
        safe_ids(net),
        told_apart(m, net),
        kept(m, net.base_frequency),
        net.buses.len() > 0,
    ensures
        cim_text(m, cim_xml(m, net).text) matches Ok(back) && back.base_frequency
            == net.base_frequency,
{
    lemma_reads_as(m, net);
    lemma_frequency_back(m, net);
    lemma_parts(m, written(m, net));
}

// ---- identifiers by class --------------------------------------------------

pub open spec fn line_ids(net: DistNetworkV) -> Seq<Seq<char>> {
    Seq::new(
        net.lines.len(),
        |i: int| mrid_of(net.lines[i].extras, "line"@, net.lines[i].name),
    )
}

pub open spec fn load_ids(net: DistNetworkV) -> Seq<Seq<char>> {
    Seq::new(
        net.loads.len(),
        |i: int| mrid_of(net.loads[i].extras, "load"@, net.loads[i].name),
    )
}

pub open spec fn shunt_ids(net: DistNetworkV) -> Seq<Seq<char>> {
    Seq::new(
        net.shunts.len(),
        |i: int| mrid_of(net.shunts[i].extras, "shunt"@, net.shunts[i].name),
    )
}

/// A block whose first object alone is of a class.
pub proof fn lemma_ids_of_first(b: Seq<CimObjectV>, class: Seq<char>)
    requires
        b.len() > 0,
        b[0].class == class,
        forall|i: int| 1 <= i < b.len() ==> (#[trigger] b[i]).class != class,
    ensures
        class_ids(b, class) == seq![b[0].id],
{
    let x = b.take(1);
    let y = b.skip(1);
    assert(b =~= x + y);
    assert forall|i: int| 0 <= i < y.len() implies (#[trigger] y[i]).class != class by {
        assert(y[i] == b[1 + i]);
    }
    lemma_class_ids_add(x, y, class);
    lemma_class_ids_none(y, class, y.len());
    reveal_with_fuel(of_class_n, 2);
    assert(class_ids(x, class) =~= seq![b[0].id]);
    assert(class_ids(b, class) =~= seq![b[0].id]);
}

pub proof fn lemma_line_block_ids(m: Sem, net: DistNetworkV, e: DistLineV)
    ensures
        class_ids(line_block(m, net, e), "ACLineSegment"@) == seq![mrid_of(e.extras, "line"@, e.name)],
{
    lemma_classes();
    lemma_ids_of_first(line_block(m, net, e), "ACLineSegment"@);
}

#[verifier::rlimit(40)]
pub proof fn lemma_line_ids(m: Sem, net: DistNetworkV)
    ensures
        written(m, net).of_class("ACLineSegment"@) == line_ids(net),
{
    let c = "ACLineSegment"@;
    lemma_classes();
    lemma_segments_lack(m, net, c);
    lemma_class_over_segments(m, net, c);
    lemma_flat_lacks(seq![frequency_block(m, net)], c);
    lemma_flat_lacks(bus_blocks(net), c);
    lemma_flat_lacks(linecode_blocks(m, net), c);
    lemma_flat_lacks(load_blocks(m, net), c);
    lemma_flat_lacks(shunt_blocks(m, net), c);
    lemma_flat_lacks(switch_blocks(net), c);
    lemma_flat_lacks(transformer_blocks(m, net), c);
    lemma_flat_lacks(source_blocks(m, net), c);
    let bs = line_blocks(m, net);
    assert forall|i: int| 0 <= i < bs.len() implies class_ids(#[trigger] bs[i], c) == seq![
        line_ids(net)[i],
    ] by {
        lemma_line_block_ids(m, net, net.lines[i]);
    }
    lemma_flat_ones(bs, c, line_ids(net));
    assert(class_ids(flat(blocks_of(m, net)), c) =~= line_ids(net));
    lemma_document_is_its_blocks(m, net);
    reveal(StoreV::of_class);
}

pub proof fn lemma_load_block_ids(m: Sem, net: DistNetworkV, e: DistLoadV)
    ensures
        class_ids(load_block(m, net, e), "EnergyConsumer"@) == seq![mrid_of(e.extras, "load"@, e.name)],
{
    lemma_classes();
    lemma_ids_of_first(load_block(m, net, e), "EnergyConsumer"@);
}

#[verifier::rlimit(40)]
pub proof fn lemma_load_ids(m: Sem, net: DistNetworkV)
    ensures
        written(m, net).of_class("EnergyConsumer"@) == load_ids(net),
{
    let c = "EnergyConsumer"@;
    lemma_classes();
    lemma_segments_lack(m, net, c);
    lemma_class_over_segments(m, net, c);
    lemma_flat_lacks(seq![frequency_block(m, net)], c);
    lemma_flat_lacks(bus_blocks(net), c);
    lemma_flat_lacks(linecode_blocks(m, net), c);
    lemma_flat_lacks(line_blocks(m, net), c);
    lemma_flat_lacks(shunt_blocks(m, net), c);
    lemma_flat_lacks(switch_blocks(net), c);
    lemma_flat_lacks(transformer_blocks(m, net), c);
    lemma_flat_lacks(source_blocks(m, net), c);
    let bs = load_blocks(m, net);
    assert forall|i: int| 0 <= i < bs.len() implies class_ids(#[trigger] bs[i], c) == seq![
        load_ids(net)[i],
    ] by {
        lemma_load_block_ids(m, net, net.loads[i]);
    }
    lemma_flat_ones(bs, c, load_ids(net));
    assert(class_ids(flat(blocks_of(m, net)), c) =~= load_ids(net));
    lemma_document_is_its_blocks(m, net);
    reveal(StoreV::of_class);
}

pub proof fn lemma_shunt_block_ids(m: Sem, net: DistNetworkV, e: DistShuntV)
    ensures
        class_ids(shunt_block(m, net, e), "LinearShuntCompensator"@) == seq![mrid_of(e.extras, "shunt"@, e.name)],
{
    lemma_classes();
    lemma_ids_of_first(shunt_block(m, net, e), "LinearShuntCompensator"@);
}

#[verifier::rlimit(40)]
pub proof fn lemma_shunt_ids(m: Sem, net: DistNetworkV)
    ensures
        written(m, net).of_class("LinearShuntCompensator"@) == shunt_ids(net),
{
    let c = "LinearShuntCompensator"@;
    lemma_classes();
    lemma_segments_lack(m, net, c);
    lemma_class_over_segments(m, net, c);
    lemma_flat_lacks(seq![frequency_block(m, net)], c);
    lemma_flat_lacks(bus_blocks(net), c);
    lemma_flat_lacks(linecode_blocks(m, net), c);
    lemma_flat_lacks(line_blocks(m, net), c);
    lemma_flat_lacks(load_blocks(m, net), c);
    lemma_flat_lacks(switch_blocks(net), c);
    lemma_flat_lacks(transformer_blocks(m, net), c);
    lemma_flat_lacks(source_blocks(m, net), c);
    let bs = shunt_blocks(m, net);
    assert forall|i: int| 0 <= i < bs.len() implies class_ids(#[trigger] bs[i], c) == seq![
        shunt_ids(net)[i],
    ] by {
        lemma_shunt_block_ids(m, net, net.shunts[i]);
    }
    lemma_flat_ones(bs, c, shunt_ids(net));
    assert(class_ids(flat(blocks_of(m, net)), c) =~= shunt_ids(net));
    lemma_document_is_its_blocks(m, net);
    reveal(StoreV::of_class);
}

pub proof fn lemma_line_index(m: Sem, net: DistNetworkV, i: int) -> (k: int)
    requires
        0 <= i < net.lines.len(),
    ensures
        0 <= k < blocks_of(m, net).len(),
        blocks_of(m, net)[k] == line_block(m, net, net.lines[i]),
{
    let k = 1 + net.buses.len() + net.linecodes.len() + i;
    let a = seq![frequency_block(m, net)] + bus_blocks(net) + linecode_blocks(m, net);
    assert(a.len() == k - i);
    assert(blocks_of(m, net)[k] == line_blocks(m, net)[i]);
    k
}

pub proof fn lemma_linecode_index(m: Sem, net: DistNetworkV, i: int) -> (k: int)
    requires
        0 <= i < net.linecodes.len(),
    ensures
        0 <= k < blocks_of(m, net).len(),
        blocks_of(m, net)[k] == linecode_block(m, net.linecodes[i]),
{
    let k = 1 + net.buses.len() + i;
    let a = seq![frequency_block(m, net)] + bus_blocks(net);
    assert(a.len() == k - i);
    assert(blocks_of(m, net)[k] == linecode_blocks(m, net)[i]);
    k
}

pub proof fn lemma_load_index(m: Sem, net: DistNetworkV, i: int) -> (k: int)
    requires
        0 <= i < net.loads.len(),
    ensures
        0 <= k < blocks_of(m, net).len(),
        blocks_of(m, net)[k] == load_block(m, net, net.loads[i]),
{
    let k = 1 + net.buses.len() + net.linecodes.len() + net.lines.len() + i;
    let a = seq![frequency_block(m, net)] + bus_blocks(net) + linecode_blocks(m, net)
        + line_blocks(m, net);
    assert(a.len() == k - i);
    assert(blocks_of(m, net)[k] == load_blocks(m, net)[i]);
    k
}

pub proof fn lemma_shunt_index(m: Sem, net: DistNetworkV, i: int) -> (k: int)
    requires
        0 <= i < net.shunts.len(),
    ensures
        0 <= k < blocks_of(m, net).len(),
        blocks_of(m, net)[k] == shunt_block(m, net, net.shunts[i]),
{
    let k = 1 + net.buses.len() + net.linecodes.len() + net.lines.len() + net.loads.len() + i;
    let a = seq![frequency_block(m, net)] + bus_blocks(net) + linecode_blocks(m, net)
        + line_blocks(m, net) + load_blocks(m, net);
    assert(a.len() == k - i);
    assert(blocks_of(m, net)[k] == shunt_blocks(m, net)[i]);
    k
}

/// Where the objects of a block stand.
#[verifier::rlimit(40)]
pub proof fn lemma_block_place(m: Sem, net: DistNetworkV, k: int) -> (at: int)
    requires
        0 <= k < blocks_of(m, net).len(),
    ensures
        0 <= at,
        at + blocks_of(m, net)[k].len() <= written(m, net).objects.len(),
        forall|j: int|
            0 <= j < blocks_of(m, net)[k].len() ==> written(m, net).objects[at + j]
                == #[trigger] blocks_of(m, net)[k][j],
{
    let bs = blocks_of(m, net);
    lemma_document_is_its_blocks(m, net);
    lemma_block_at(bs, k);
    let at = flat(bs.take(k)).len() as int;
    assert forall|j: int| 0 <= j < bs[k].len() implies written(m, net).objects[at + j]
        == #[trigger] bs[k][j] by {}
    at
}

// ---- lines -----------------------------------------------------------------

/// The line that comes back of a line: on the phases of its first side.
pub open spec fn returned_line(net: DistNetworkV, line: DistLineV) -> DistLineV {
    let hot = hot_of(line.terminal_map_from);
    DistLineV {
        extras: imported(mrid_of(line.extras, "line"@, line.name)),
        ..dist_line_of(
            line.name,
            net.bus(line.bus_from)->0.id,
            net.bus(line.bus_to)->0.id,
            hot,
            hot,
            net.linecode(line.linecode)->0.name,
            line.length,
        )
    }
}

/// A line of positive length stands between buses of the network, with a line
/// code of the network, on phases in their order.
pub open spec fn line_stands(m: Sem, net: DistNetworkV, line: DistLineV) -> bool {
    &&& net.bus(line.bus_from) is Some
    &&& net.bus(line.bus_to) is Some
    &&& net.linecode(line.linecode) is Some
    &&& hot_of(line.terminal_map_from).len() > 0
    &&& ascending(hot_of(line.terminal_map_from))
    &&& kept(m, line.length)
    &&& num_lt(ZERO, line.length)
}

pub proof fn lemma_linecode_from_index(
    codes: Seq<DistLineCodeV>,
    name: Seq<char>,
    i: int,
) -> (j: int)
    requires
        0 <= i,
        linecode_from(codes, name, i) is Some,
    ensures
        i <= j < codes.len(),
        linecode_from(codes, name, i) == Some(codes[j]),
    decreases codes.len() - i,
{
    if lower_of(codes[i].name) == lower_of(name) {
        i
    } else {
        lemma_linecode_from_index(codes, name, i + 1)
    }
}

/// The impedance of a line code goes by the name of the code.
#[verifier::rlimit(40)]
pub proof fn lemma_impedance_name(m: Sem, net: DistNetworkV, name: Seq<char>)
    requires
        told_apart(m, net),
        net.linecode(name) is Some,
    ensures
        ({
            let lc = net.linecode(name)->0;
            let id = mrid_of(lc.extras, "plpi"@, lc.name);
            &&& written(m, net).name(id) == lc.name
            &&& written(m, net).class_of(id) == Some("PerLengthPhaseImpedance"@)
        }),
{
    let s = written(m, net);
    let j = lemma_linecode_from_index(net.linecodes, name, 0);
    let k = lemma_linecode_index(m, net, j);
    let lc = net.linecodes[j];
    lemma_document_is_its_blocks(m, net);
    lemma_block_at(blocks_of(m, net), k);
    let at = flat(blocks_of(m, net).take(k)).len() as int;
    assert(s.objects[at] == linecode_block(m, lc)[0]);
    lemma_named_says(
        s,
        at,
        "PerLengthPhaseImpedance"@,
        mrid_of(lc.extras, "plpi"@, lc.name),
        lc.name,
        seq![
            (
                "PerLengthPhaseImpedance.conductorCount"@,
                PropV::Text(dec_of(lc.n_conductors as nat)),
            ),
        ],
    );
}

/// A line object, read.
pub proof fn lemma_line_says(
    m: Sem,
    s: StoreV,
    at: int,
    id: Seq<char>,
    name: Seq<char>,
    length: Bits,
    pli: Seq<char>,
)
    requires
        distinct_ids(s.objects),
        0 <= at < s.objects.len(),
        s.objects[at] == named_object(
            "ACLineSegment"@,
            id,
            name,
            seq![
                ("Conductor.length"@, PropV::Text((m.show)(length))),
                ("ACLineSegment.PerLengthImpedance"@, PropV::Ref(pli)),
            ],
        ),
        kept(m, length),
    ensures
        s.name(id) == name,
        s.number(m, id, "Conductor.length"@) == Some(length),
        s.refv(id, "ACLineSegment.PerLengthImpedance"@) == Some(pli),
{
    let more = seq![
        ("Conductor.length"@, PropV::Text((m.show)(length))),
        ("ACLineSegment.PerLengthImpedance"@, PropV::Ref(pli)),
    ];
    reveal_strlit("Conductor.length");
    reveal_strlit("ACLineSegment.PerLengthImpedance");
    assert("Conductor.length"@[0] == 'C');
    assert("ACLineSegment.PerLengthImpedance"@[0] == 'A');
    lemma_named_says(s, at, "ACLineSegment"@, id, name, more);
    lemma_named_prop(s, at, "ACLineSegment"@, id, name, more, 0);
    lemma_named_prop(s, at, "ACLineSegment"@, id, name, more, 1);
    reveal(StoreV::refv);
    reveal(StoreV::number);
    reveal(StoreV::text);
}

/// The wires of an equipment with phase objects are theirs.
pub proof fn lemma_map_by_phases(
    m: Sem,
    s: StoreV,
    b: Seq<CimObjectV>,
    at: int,
    class: Seq<char>,
    key: Seq<char>,
    wires: Seq<Seq<char>>,
)
    requires
        wires.len() > 0,
        children_of(s, class, key, b[0].id) == Seq::new(
            wires.len(),
            |i: int| (wires[i], b[at + i].id),
        ),
    ensures
        firsts(children_of(s, class, key, b[0].id)) == wires,
        terminal_map_of(m, s, b[0].id, class, key) == wires,
{
    reveal(terminal_map_of);
    assert(firsts(children_of(s, class, key, b[0].id)) =~= wires);
}

pub proof fn lemma_phase_keys()
    ensures
        "ACLineSegmentPhase"@ + ".phase"@ == "ACLineSegmentPhase.phase"@,
        "EnergyConsumerPhase"@ + ".phase"@ == "EnergyConsumerPhase.phase"@,
        "ShuntCompensatorPhase"@ + ".phase"@ == "ShuntCompensatorPhase.phase"@,
{
    reveal_strlit(".phase");
    reveal_strlit("ACLineSegmentPhase");
    reveal_strlit("ACLineSegmentPhase.phase");
    reveal_strlit("EnergyConsumerPhase");
    reveal_strlit("EnergyConsumerPhase.phase");
    reveal_strlit("ShuntCompensatorPhase");
    reveal_strlit("ShuntCompensatorPhase.phase");
    assert("ACLineSegmentPhase"@ + ".phase"@ =~= "ACLineSegmentPhase.phase"@);
    assert("EnergyConsumerPhase"@ + ".phase"@ =~= "EnergyConsumerPhase.phase"@);
    assert("ShuntCompensatorPhase"@ + ".phase"@ =~= "ShuntCompensatorPhase.phase"@);
}

#[verifier::rlimit(40)]
pub proof fn lemma_line_shape(m: Sem, net: DistNetworkV, line: DistLineV)
    ensures
        ({
            let b = line_block(m, net, line);
            let hot = hot_of(line.terminal_map_from);
            &&& b.len() == 3 + hot.len()
            &&& b[0].id == mrid_of(line.extras, "line"@, line.name)
            &&& forall|j: int| 0 <= j < 3 ==> (#[trigger] b[j]).class != "ACLineSegmentPhase"@
            &&& forall|j: int|
                3 <= j < b.len() ==> phase_of(
                    #[trigger] b[j],
                    "ACLineSegmentPhase"@,
                    "ACLineSegmentPhase.ACLineSegment"@,
                    b[0].id,
                    letters_of(hot)[j - 3],
                )
        }),
{
    let b = line_block(m, net, line);
    let map = line.terminal_map_from;
    lemma_phases_are_hot(map, map.len());
    lemma_phase_keys();
    assert forall|j: int| 0 <= j < 3 implies (#[trigger] b[j]).class != "ACLineSegmentPhase"@ by {
        lemma_classes();
    }
    assert forall|j: int| 3 <= j < b.len() implies phase_of(
        #[trigger] b[j],
        "ACLineSegmentPhase"@,
        "ACLineSegmentPhase.ACLineSegment"@,
        b[0].id,
        letters_of(hot_of(map))[j - 3],
    ) by {
        assert(b[j] == line_phase_object(
            line.name,
            b[0].id,
            letters_of(hot_of(map))[j - 3],
            (j - 3) as nat,
        ));
    }
}

/// The wires of a written line.
#[verifier::rlimit(40)]
pub proof fn lemma_line_wires(m: Sem, net: DistNetworkV, i: int)
    requires
        told_apart(m, net),
        0 <= i < net.lines.len(),
        line_stands(m, net, net.lines[i]),
    ensures
        terminal_map_of(
            m,
            written(m, net),
            line_ids(net)[i],
            "ACLineSegmentPhase"@,
            "ACLineSegmentPhase.ACLineSegment"@,
        ) == hot_of(net.lines[i].terminal_map_from),
{
    let line = net.lines[i];
    let k = lemma_line_index(m, net, i);
    let b = line_block(m, net, line);
    let class = "ACLineSegmentPhase"@;
    let key = "ACLineSegmentPhase.ACLineSegment"@;
    let map = line.terminal_map_from;
    lemma_line_shape(m, net, line);
    lemma_phase_objects(m, net, k, 3, class, key, map);
    lemma_map_by_phases(m, written(m, net), b, 3, class, key, hot_of(map));
}

/// The buses and the properties of a written line.
#[verifier::rlimit(40)]
pub proof fn lemma_line_reads(m: Sem, net: DistNetworkV, i: int)
    requires
        told_apart(m, net),
        counts(m),
        0 <= i < net.lines.len(),
        line_stands(m, net, net.lines[i]),
    ensures
        ({
            let w = written(m, net);
            let line = net.lines[i];
            let id = line_ids(net)[i];
            let lc = net.linecode(line.linecode)->0;
            &&& bus_at_of(m, w, id, 0) == Some(net.bus(line.bus_from)->0.id)
            &&& bus_at_of(m, w, id, 1) == Some(net.bus(line.bus_to)->0.id)
            &&& w.name(id) == line.name
            &&& w.number(m, id, "Conductor.length"@) == Some(line.length)
            &&& w.refv(id, "ACLineSegment.PerLengthImpedance"@) == Some(
                mrid_of(lc.extras, "plpi"@, lc.name),
            )
        }),
{
    let w = written(m, net);
    let line = net.lines[i];
    let k = lemma_line_index(m, net, i);
    let b = line_block(m, net, line);
    let lc = net.linecode(line.linecode)->0;
    assert forall|j: int| (j == 0 || 3 <= j) && j < b.len() implies (#[trigger] b[j]).class
        != "Terminal"@ by {
        lemma_classes();
    }
    lemma_two_terminals(
        m,
        net,
        k,
        line.bus_from,
        line.bus_to,
        line.terminal_map_from,
        line.terminal_map_to,
    );
    lemma_document_is_its_blocks(m, net);
    lemma_block_at(blocks_of(m, net), k);
    let at = flat(blocks_of(m, net).take(k)).len() as int;
    assert(w.objects[at] == b[0]);
    lemma_line_says(
        m,
        w,
        at,
        line_ids(net)[i],
        line.name,
        line.length,
        mrid_of(lc.extras, "plpi"@, lc.name),
    );
}

/// Every impedance that gave a code gave it its own name.
pub open spec fn seen_by_name(s: StoreV, seen: Seq<(Seq<char>, Seq<char>)>) -> bool {
    forall|j: int| 0 <= j < seen.len() ==> (#[trigger] seen[j]).1 == s.name(seen[j].0)
}

pub proof fn lemma_seen_name(s: StoreV, seen: Seq<(Seq<char>, Seq<char>)>, pli: Seq<char>, i: int)
    requires
        0 <= i,
        seen_by_name(s, seen),
    ensures
        seen_from(seen, pli, i) matches Some(name) ==> name == s.name(pli),
    decreases seen.len() - i,
{
    if i < seen.len() && seen[i].0 != pli {
        lemma_seen_name(s, seen, pli, i + 1);
    }
}

#[verifier::rlimit(40)]
pub proof fn lemma_lines_n(m: Sem, net: DistNetworkV, n: nat)
    requires
        told_apart(m, net),
        counts(m),
        n <= net.lines.len(),
        forall|i: int| 0 <= i < net.lines.len() ==> line_stands(m, net, #[trigger] net.lines[i]),
    ensures
        lines_n(m, written(m, net), line_ids(net), n).lines == Seq::new(
            n,
            |i: int| returned_line(net, net.lines[i]),
        ),
        seen_by_name(written(m, net), lines_n(m, written(m, net), line_ids(net), n).seen),
        lines_n(m, written(m, net), line_ids(net), n).warnings.len() == 0,
    decreases n,
{
    let s = written(m, net);
    if n > 0 {
        lemma_lines_n(m, net, (n - 1) as nat);
        let line = net.lines[n - 1];
        lemma_line_reads(m, net, n - 1);
        lemma_line_wires(m, net, n - 1);
        lemma_impedance_name(m, net, line.linecode);
        let lc = net.linecode(line.linecode)->0;
        let pli = mrid_of(lc.extras, "plpi"@, lc.name);
        let st = lines_n(m, s, line_ids(net), (n - 1) as nat);
        lemma_seen_name(s, st.seen, pli, 0);
        let hot = hot_of(line.terminal_map_from);
        assert(per_length_of(m, s, pli, max3(hot.len(), 1, 1)) is Some) by {
            reveal(per_length_of);
        }
    }
    assert(lines_n(m, s, line_ids(net), n).lines =~= Seq::new(
        n,
        |i: int| returned_line(net, net.lines[i]),
    ));
}

/// The lines come back: reading what was written of a network gives its lines,
/// in order, each by its name between its buses, on the phases of its first
/// side, with its line code and its length.
pub proof fn lemma_lines_read_back(m: Sem, net: DistNetworkV)
    requires
        safe_ids(net),
        told_apart(m, net),
        counts(m),
        net.buses.len() > 0,
        forall|i: int| 0 <= i < net.lines.len() ==> line_stands(m, net, #[trigger] net.lines[i]),
    ensures
        cim_text(m, cim_xml(m, net).text) matches Ok(back) && back.lines == Seq::new(
            net.lines.len(),
            |i: int| returned_line(net, net.lines[i]),
        ),
{
    lemma_reads_as(m, net);
    lemma_line_ids(m, net);
    lemma_lines_n(m, net, net.lines.len());
    lemma_parts(m, written(m, net));
}

// ---- loads -----------------------------------------------------------------

/// The values of `n` phases; a phase without one has zero.
pub open spec fn phase_values(v: Seq<Bits>, n: nat) -> Seq<Bits> {
    Seq::new(n, |i: int| value_or_zero(v, i))
}

/// The load that comes back of a load.
pub open spec fn returned_load(net: DistNetworkV, load: DistLoadV) -> DistLoadV {
    DistLoadV {
        extras: imported(mrid_of(load.extras, "load"@, load.name)),
        ..dist_load_of(
            load.name,
            net.bus(load.bus)->0.id,
            with_neutral_of(hot_of(load.terminal_map), load.configuration),
            load.configuration,
            phase_values(load.p_nom, hot_of(load.terminal_map).len()),
            phase_values(load.q_nom, hot_of(load.terminal_map).len()),
        )
    }
}

/// A load stands at a bus of the network, on phases in their order, and the power
/// of each comes back from its numeral.
pub open spec fn load_stands(m: Sem, net: DistNetworkV, load: DistLoadV) -> bool {
    let hot = hot_of(load.terminal_map);
    &&& net.bus(load.bus) is Some
    &&& hot.len() > 0
    &&& ascending(hot)
    &&& forall|i: int| 0 <= i < hot.len() ==> kept(m, #[trigger] value_or_zero(load.p_nom, i))
    &&& forall|i: int| 0 <= i < hot.len() ==> kept(m, #[trigger] value_or_zero(load.q_nom, i))
}

/// A load object, read.
pub proof fn lemma_load_says(s: StoreV, at: int, id: Seq<char>, name: Seq<char>, c: Configuration)
    requires
        distinct_ids(s.objects),
        0 <= at < s.objects.len(),
        s.objects[at] == named_object(
            "EnergyConsumer"@,
            id,
            name,
            seq![
                (
                    "EnergyConsumer.phaseConnection"@,
                    kind_ref("PhaseShuntConnectionKind."@ + connection_of(c)),
                ),
            ],
        ),
    ensures
        s.name(id) == name,
        configuration_of(s.enum_value(id, "EnergyConsumer.phaseConnection"@)) == c,
{
    let more = seq![
        (
            "EnergyConsumer.phaseConnection"@,
            kind_ref("PhaseShuntConnectionKind."@ + connection_of(c)),
        ),
    ];
    reveal_strlit("EnergyConsumer.phaseConnection");
    reveal_strlit("PhaseShuntConnectionKind.");
    assert("EnergyConsumer.phaseConnection"@[0] == 'E');
    lemma_named_says(s, at, "EnergyConsumer"@, id, name, more);
    lemma_named_prop(s, at, "EnergyConsumer"@, id, name, more, 0);
    reveal_strlit("D");
    reveal_strlit("I");
    reveal_strlit("Y");
    assert("D"@[0] == 'D' && "I"@[0] == 'I' && "Y"@[0] == 'Y');
    lemma_kind_says("PhaseShuntConnectionKind."@, connection_of(c));
    reveal(StoreV::refv);
    reveal(StoreV::enum_value);
}

/// What the phase objects of a written load say.
pub proof fn lemma_load_phase_says(
    m: Sem,
    s: StoreV,
    at: int,
    load: DistLoadV,
    id: Seq<char>,
    phase: Seq<char>,
    n: nat,
)
    requires
        distinct_ids(s.objects),
        0 <= at < s.objects.len(),
        s.objects[at] == load_phase_object(m, load, id, phase, n),
        kept(m, value_or_zero(load.p_nom, n as int)),
        kept(m, value_or_zero(load.q_nom, n as int)),
    ensures
        s.number(m, s.objects[at].id, "EnergyConsumerPhase.p"@) == Some(
            value_or_zero(load.p_nom, n as int),
        ),
        s.number(m, s.objects[at].id, "EnergyConsumerPhase.q"@) == Some(
            value_or_zero(load.q_nom, n as int),
        ),
{
    let more = seq![
        ("EnergyConsumerPhase.EnergyConsumer"@, PropV::Ref(id)),
        ("EnergyConsumerPhase.phase"@, kind_ref("SinglePhaseKind."@ + phase)),
        ("EnergyConsumerPhase.p"@, PropV::Text((m.show)(value_or_zero(load.p_nom, n as int)))),
        ("EnergyConsumerPhase.q"@, PropV::Text((m.show)(value_or_zero(load.q_nom, n as int)))),
    ];
    let class = "EnergyConsumerPhase"@;
    let own = det_mrid_of("loadphase"@, load.name + ":"@ + phase);
    let name = load.name + "_"@ + phase;
    reveal_strlit("EnergyConsumerPhase.EnergyConsumer");
    reveal_strlit("EnergyConsumerPhase.phase");
    reveal_strlit("EnergyConsumerPhase.p");
    reveal_strlit("EnergyConsumerPhase.q");
    assert("EnergyConsumerPhase.EnergyConsumer"@.len() == 34);
    assert("EnergyConsumerPhase.phase"@.len() == 25);
    assert("EnergyConsumerPhase.p"@.len() == 21 && "EnergyConsumerPhase.p"@[20] == 'p');
    assert("EnergyConsumerPhase.q"@.len() == 21 && "EnergyConsumerPhase.q"@[20] == 'q');
    lemma_named_prop(s, at, class, own, name, more, 2);
    lemma_named_prop(s, at, class, own, name, more, 3);
    reveal(StoreV::number);
    reveal(StoreV::text);
}

#[verifier::rlimit(40)]
pub proof fn lemma_load_shape(m: Sem, net: DistNetworkV, load: DistLoadV)
    ensures
        ({
            let b = load_block(m, net, load);
            let hot = hot_of(load.terminal_map);
            &&& b.len() == 2 + hot.len()
            &&& b[0].id == mrid_of(load.extras, "load"@, load.name)
            &&& forall|j: int| 0 <= j < 2 ==> (#[trigger] b[j]).class != "EnergyConsumerPhase"@
            &&& forall|j: int|
                2 <= j < b.len() ==> (#[trigger] b[j]) == load_phase_object(
                    m,
                    load,
                    b[0].id,
                    letters_of(hot)[j - 2],
                    (j - 2) as nat,
                )
            &&& forall|j: int|
                2 <= j < b.len() ==> phase_of(
                    #[trigger] b[j],
                    "EnergyConsumerPhase"@,
                    "EnergyConsumerPhase.EnergyConsumer"@,
                    b[0].id,
                    letters_of(hot)[j - 2],
                )
        }),
{
    let b = load_block(m, net, load);
    let map = load.terminal_map;
    lemma_phases_are_hot(map, map.len());
    lemma_phase_keys();
    assert forall|j: int| 0 <= j < 2 implies (#[trigger] b[j]).class != "EnergyConsumerPhase"@ by {
        lemma_classes();
    }
}

/// The powers that phase objects give.
pub proof fn lemma_load_values(
    m: Sem,
    s: StoreV,
    at: int,
    load: DistLoadV,
    id: Seq<char>,
    b: Seq<CimObjectV>,
    children: Seq<(Seq<char>, Seq<char>)>,
)
    requires
        distinct_ids(s.objects),
        0 <= at,
        at + b.len() <= s.objects.len(),
        forall|j: int| 0 <= j < b.len() ==> s.objects[at + j] == #[trigger] b[j],
        ({
            let hot = hot_of(load.terminal_map);
            &&& b.len() == 2 + hot.len()
            &&& children == Seq::new(hot.len(), |j: int| (hot[j], b[2 + j].id))
            &&& forall|j: int|
                2 <= j < b.len() ==> (#[trigger] b[j]) == load_phase_object(
                    m,
                    load,
                    id,
                    letters_of(hot)[j - 2],
                    (j - 2) as nat,
                )
        }),
        forall|i: int|
            0 <= i < hot_of(load.terminal_map).len() ==> kept(
                m,
                #[trigger] value_or_zero(load.p_nom, i),
            ),
        forall|i: int|
            0 <= i < hot_of(load.terminal_map).len() ==> kept(
                m,
                #[trigger] value_or_zero(load.q_nom, i),
            ),
    ensures
        child_values(m, s, children, "EnergyConsumerPhase.p"@) == phase_values(
            load.p_nom,
            hot_of(load.terminal_map).len(),
        ),
        child_values(m, s, children, "EnergyConsumerPhase.q"@) == phase_values(
            load.q_nom,
            hot_of(load.terminal_map).len(),
        ),
{
    let hot = hot_of(load.terminal_map);
    let p = child_values(m, s, children, "EnergyConsumerPhase.p"@);
    let q = child_values(m, s, children, "EnergyConsumerPhase.q"@);
    assert forall|j: int| 0 <= j < hot.len() implies p[j] == value_or_zero(load.p_nom, j)
        && q[j] == value_or_zero(load.q_nom, j) by {
        let o = b[2 + j];
        assert(children[j].1 == o.id);
        assert(s.objects[at + (2 + j)] == o);
        lemma_load_phase_says(m, s, at + (2 + j), load, id, letters_of(hot)[j], j as nat);
    }
    assert(p =~= phase_values(load.p_nom, hot.len()));
    assert(q =~= phase_values(load.q_nom, hot.len()));
}

/// The phase objects of a written load.
#[verifier::rlimit(40)]
pub proof fn lemma_load_children(m: Sem, net: DistNetworkV, i: int)
    requires
        told_apart(m, net),
        0 <= i < net.loads.len(),
        load_stands(m, net, net.loads[i]),
    ensures
        ({
            let s = written(m, net);
            let load = net.loads[i];
            let children = children_of(
                s,
                "EnergyConsumerPhase"@,
                "EnergyConsumerPhase.EnergyConsumer"@,
                load_ids(net)[i],
            );
            &&& children.len() > 0
            &&& firsts(children) == hot_of(load.terminal_map)
            &&& child_values(m, s, children, "EnergyConsumerPhase.p"@) == phase_values(
                load.p_nom,
                hot_of(load.terminal_map).len(),
            )
            &&& child_values(m, s, children, "EnergyConsumerPhase.q"@) == phase_values(
                load.q_nom,
                hot_of(load.terminal_map).len(),
            )
        }),
{
    let s = written(m, net);
    let load = net.loads[i];
    let k = lemma_load_index(m, net, i);
    let b = load_block(m, net, load);
    let class = "EnergyConsumerPhase"@;
    let key = "EnergyConsumerPhase.EnergyConsumer"@;
    let hot = hot_of(load.terminal_map);
    lemma_load_shape(m, net, load);
    lemma_phase_objects(m, net, k, 2, class, key, load.terminal_map);
    lemma_map_by_phases(m, s, b, 2, class, key, hot);
    let at = lemma_block_place(m, net, k);
    lemma_load_values(m, s, at, load, b[0].id, b, children_of(s, class, key, b[0].id));
}

/// The bus and the properties of a written load.
#[verifier::rlimit(40)]
pub proof fn lemma_load_reads(m: Sem, net: DistNetworkV, i: int)
    requires
        told_apart(m, net),
        0 <= i < net.loads.len(),
        load_stands(m, net, net.loads[i]),
    ensures
        ({
            let s = written(m, net);
            let load = net.loads[i];
            let id = load_ids(net)[i];
            &&& bus_at_of(m, s, id, 0) == Some(net.bus(load.bus)->0.id)
            &&& s.name(id) == load.name
            &&& configuration_of(s.enum_value(id, "EnergyConsumer.phaseConnection"@))
                == load.configuration
        }),
{
    let s = written(m, net);
    let load = net.loads[i];
    let k = lemma_load_index(m, net, i);
    let b = load_block(m, net, load);
    assert forall|j: int| (j == 0 || 2 <= j) && j < b.len() implies (#[trigger] b[j]).class
        != "Terminal"@ by {
        lemma_classes();
    }
    lemma_one_terminal(m, net, k, load.bus, load.terminal_map);
    lemma_document_is_its_blocks(m, net);
    lemma_block_at(blocks_of(m, net), k);
    let at = flat(blocks_of(m, net).take(k)).len() as int;
    assert(s.objects[at] == b[0]);
    lemma_load_says(s, at, load_ids(net)[i], load.name, load.configuration);
}

#[verifier::rlimit(40)]
pub proof fn lemma_loads_n(m: Sem, net: DistNetworkV, w: Seq<Seq<char>>, n: nat)
    requires
        told_apart(m, net),
        n <= net.loads.len(),
        forall|i: int| 0 <= i < net.loads.len() ==> load_stands(m, net, #[trigger] net.loads[i]),
    ensures
        loads_n(m, written(m, net), load_ids(net), w, n).loads == Seq::new(
            n,
            |i: int| returned_load(net, net.loads[i]),
        ),
        loads_n(m, written(m, net), load_ids(net), w, n).warnings == w,
    decreases n,
{
    if n > 0 {
        lemma_loads_n(m, net, w, (n - 1) as nat);
        lemma_load_reads(m, net, n - 1);
        lemma_load_children(m, net, n - 1);
    }
    assert(loads_n(m, written(m, net), load_ids(net), w, n).loads =~= Seq::new(
        n,
        |i: int| returned_load(net, net.loads[i]),
    ));
}

/// The loads come back: reading what was written of a network gives its loads,
/// in order, each by its name at its bus, connected as it was, on its phases
/// with the power of each, zero where it has none. One that is not a delta has the neutral after its
/// phases.
pub proof fn lemma_loads_read_back(m: Sem, net: DistNetworkV)
    requires
        safe_ids(net),
        told_apart(m, net),
        net.buses.len() > 0,
        forall|i: int| 0 <= i < net.loads.len() ==> load_stands(m, net, #[trigger] net.loads[i]),
    ensures
        cim_text(m, cim_xml(m, net).text) matches Ok(back) && back.loads == Seq::new(
            net.loads.len(),
            |i: int| returned_load(net, net.loads[i]),
        ),
{
    lemma_reads_as(m, net);
    lemma_load_ids(m, net);
    lemma_loads_n(m, net, lines_of(m, written(m, net)).warnings, net.loads.len());
    lemma_parts(m, written(m, net));
}

} // verus!
