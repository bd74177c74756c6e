//! Every element of a written document is read, in its place, whatever its
//! values.

use vstd::prelude::*;

use crate::cim::apparatus::{lemma_source_ids, lemma_source_index, source_ids, written_voltage};
use crate::cim::blocks::{
    class_ids, end_object, lemma_document_is_its_blocks, terminal_object, line_block, load_block,
    shunt_block, source_block, switch_block, transformer_block,
};
use crate::cim::elements::{
    lemma_block_place, lemma_line_ids, lemma_line_index, lemma_load_ids, lemma_load_index,
    lemma_load_says, lemma_shunt_ids, lemma_shunt_index, lemma_switch_ids, lemma_switch_index,
    lemma_switch_says, lemma_unwritten, line_ids, load_ids, shunt_ids, switch_ids,
};
use crate::cim::ends::{
    end_id, end_more, lemma_end_pair, lemma_end_props, lemma_ends_of_block,
    lemma_transformer_block_ids, lemma_transformer_ids, lemma_transformer_index,
    lemma_transformer_place, transformer_ids,
};
use crate::cim::laws::safe_ids;
use crate::cim::read::{
    bus_at_of, cim_text, configuration_of, ends_n, ends_of, has_nodes, lines_n, lines_of, loads_n,
    loads_of, network_of, nodeless_n, nodeless_of, nodeless_switches, phase_count_from, shunts_n,
    sources_n, switches_n, switches_of, switches_upto, transformers_n, winding_at, windings_n,
};
use crate::cim::recall::{
    lemma_buses_read_back, lemma_classes, lemma_named_says, lemma_reads_as, told_apart, written,
};
use crate::cim::store::{PropV, StoreV};
use crate::cim::wires::lemma_phases_are_hot;
use crate::cim::wiring::{counts, lemma_one_terminal, lemma_terminal_reads, lemma_two_terminals};
use crate::cim::write::{cim_xml, mrid_of, node_of, phase_code_of, value_or_zero};
use crate::math::Sem;
use crate::model::{DistNetworkV, DistSwitchV, DistTransformerV};
use crate::numeral::dec_of;
use crate::text::trim_of;

verus! {

// ---- seats -----------------------------------------------------------------

/// Every element stands at buses of the network, and every transformer has two
/// windings.
pub open spec fn seated(net: DistNetworkV) -> bool {
    &&& net.buses.len() > 0
    &&& forall|i: int|
        0 <= i < net.lines.len() ==> net.bus((#[trigger] net.lines[i]).bus_from) is Some
            && net.bus(net.lines[i].bus_to) is Some
    &&& forall|i: int| 0 <= i < net.loads.len() ==> net.bus((#[trigger] net.loads[i]).bus) is Some
    &&& forall|i: int| 0 <= i < net.shunts.len() ==> net.bus((#[trigger] net.shunts[i]).bus) is Some
    &&& forall|i: int|
        0 <= i < net.switches.len() ==> net.bus((#[trigger] net.switches[i]).bus_from) is Some
            && net.bus(net.switches[i].bus_to) is Some
    &&& forall|i: int|
        0 <= i < net.transformers.len() ==> {
            &&& (#[trigger] net.transformers[i]).windings.len() == 2
            &&& net.bus(net.transformers[i].windings[0].bus) is Some
            &&& net.bus(net.transformers[i].windings[1].bus) is Some
        }
    &&& forall|i: int|
        0 <= i < net.sources.len() ==> net.bus((#[trigger] net.sources[i]).bus) is Some
}

// ---- nodes and names -------------------------------------------------------

#[verifier::rlimit(40)]
proof fn lemma_line_present(m: Sem, net: DistNetworkV, i: int)
    requires
        told_apart(m, net),
        counts(m),
        seated(net),
        0 <= i < net.lines.len(),
    ensures
        bus_at_of(m, written(m, net), line_ids(net)[i], 0) is Some,
        bus_at_of(m, written(m, net), line_ids(net)[i], 1) is Some,
        written(m, net).name(line_ids(net)[i]) == net.lines[i].name,
{
    let s = written(m, net);
    let line = net.lines[i];
    let k = lemma_line_index(m, net, i);
    let b = line_block(m, net, line);
    assert forall|j: int| (j == 0 || 3 <= j) && j < b.len() implies (#[trigger] b[j]).class
        != "Terminal"@ by {
        lemma_classes();
    }
    lemma_two_terminals(
        m,
        net,
        k,
        line.bus_from,
        line.bus_to,
        line.terminal_map_from,
        line.terminal_map_to,
    );
    let at = lemma_block_place(m, net, k);
    assert(s.objects[at + 0] == b[0]);
    let length = ("Conductor.length"@, PropV::Text((m.show)(line.length)));
    lemma_named_says(
        s,
        at,
        "ACLineSegment"@,
        line_ids(net)[i],
        line.name,
        match net.linecode(line.linecode) {
            Some(lc) => seq![
                length,
                (
                    "ACLineSegment.PerLengthImpedance"@,
                    PropV::Ref(mrid_of(lc.extras, "plpi"@, lc.name)),
                ),
            ],
            None => seq![length],
        },
    );
}

proof fn lemma_load_present(m: Sem, net: DistNetworkV, i: int)
    requires
        told_apart(m, net),
        seated(net),
        0 <= i < net.loads.len(),
    ensures
        ({
            let s = written(m, net);
            let id = load_ids(net)[i];
            &&& bus_at_of(m, s, id, 0) is Some
            &&& s.name(id) == net.loads[i].name
            &&& configuration_of(s.enum_value(id, "EnergyConsumer.phaseConnection"@))
                == net.loads[i].configuration
        }),
{
    let s = written(m, net);
    let load = net.loads[i];
    let k = lemma_load_index(m, net, i);
    let b = load_block(m, net, load);
    assert forall|j: int| (j == 0 || 2 <= j) && j < b.len() implies (#[trigger] b[j]).class
        != "Terminal"@ by {
        lemma_classes();
    }
    lemma_one_terminal(m, net, k, load.bus, load.terminal_map);
    let at = lemma_block_place(m, net, k);
    assert(s.objects[at + 0] == b[0]);
    lemma_load_says(s, at, load_ids(net)[i], load.name, load.configuration);
}

proof fn lemma_shunt_present(m: Sem, net: DistNetworkV, i: int)
    requires
        told_apart(m, net),
        seated(net),
        0 <= i < net.shunts.len(),
    ensures
        bus_at_of(m, written(m, net), shunt_ids(net)[i], 0) is Some,
        written(m, net).name(shunt_ids(net)[i]) == net.shunts[i].name,
{
    let s = written(m, net);
    let shunt = net.shunts[i];
    let k = lemma_shunt_index(m, net, i);
    let b = shunt_block(m, net, shunt);
    assert forall|j: int| (j == 0 || 2 <= j) && j < b.len() implies (#[trigger] b[j]).class
        != "Terminal"@ by {
        lemma_classes();
    }
    lemma_one_terminal(m, net, k, shunt.bus, shunt.terminal_map);
    let at = lemma_block_place(m, net, k);
    assert(s.objects[at + 0] == b[0]);
    lemma_named_says(s, at, "LinearShuntCompensator"@, shunt_ids(net)[i], shunt.name, seq![]);
}

proof fn lemma_switch_present(m: Sem, net: DistNetworkV, i: int)
    requires
        told_apart(m, net),
        counts(m),
        seated(net),
        0 <= i < net.switches.len(),
    ensures
        bus_at_of(m, written(m, net), switch_ids(net)[i], 0) is Some,
        bus_at_of(m, written(m, net), switch_ids(net)[i], 1) is Some,
        written(m, net).name(switch_ids(net)[i]) == net.switches[i].name,
{
    let w = written(m, net);
    let s = net.switches[i];
    let k = lemma_switch_index(m, net, i);
    let b = switch_block(net, s);
    assert(b[0].class != "Terminal"@) by {
        lemma_classes();
    }
    lemma_two_terminals(
        m,
        net,
        k,
        s.bus_from,
        s.bus_to,
        s.terminal_map_from,
        s.terminal_map_to,
    );
    let at = lemma_block_place(m, net, k);
    assert(w.objects[at + 0] == b[0]);
    lemma_switch_says(w, at, switch_ids(net)[i], s.name, s.open);
}

proof fn lemma_source_present(m: Sem, net: DistNetworkV, i: int)
    requires
        told_apart(m, net),
        seated(net),
        0 <= i < net.sources.len(),
    ensures
        bus_at_of(m, written(m, net), source_ids(net)[i], 0) is Some,
        written(m, net).name(source_ids(net)[i]) == net.sources[i].name,
{
    let s = written(m, net);
    let e = net.sources[i];
    let k = lemma_source_index(m, net, i);
    let b = source_block(m, net, e);
    assert(b[0].class != "Terminal"@) by {
        lemma_classes();
    }
    lemma_one_terminal(m, net, k, e.bus, e.terminal_map);
    let at = lemma_block_place(m, net, k);
    assert(s.objects[at + 0] == b[0]);
    let v = PropV::Text((m.show)(written_voltage(m, e)));
    lemma_phases_are_hot(e.terminal_map, e.terminal_map.len());
    lemma_named_says(
        s,
        at,
        "EnergySource"@,
        source_ids(net)[i],
        e.name,
        seq![
            ("EnergySource.voltageMagnitude"@, v),
            (
                "EnergySource.voltageAngle"@,
                PropV::Text((m.show)(value_or_zero(e.v_angle, 0))),
            ),
            ("EnergySource.nominalVoltage"@, v),
        ],
    );
}

#[verifier::rlimit(100)]
#[verifier::spinoff_prover]
proof fn lemma_transformer_present(m: Sem, net: DistNetworkV, i: int)
    requires
        told_apart(m, net),
        counts(m),
        seated(net),
        0 <= i < net.transformers.len(),
    ensures
        ({
            let s = written(m, net);
            let id = transformer_ids(net)[i];
            let ends = ends_of(m, s, id);
            &&& ends.len() == 2
            &&& s.name(id) == net.transformers[i].name
            &&& windings_n(m, s, ends, phase_count_from(s, ends, 0), 2) is Some
        }),
{
    let s = written(m, net);
    let xf = net.transformers[i];
    let id = transformer_ids(net)[i];
    let k = lemma_transformer_index(m, net, i);
    let both = seq![end_id(xf, 0), end_id(xf, 1)];
    assert(ends_of(m, s, id) == ends_n(m, s, id, both, 2)) by {
        lemma_transformer_block_ids(m, net, xf);
        let b = transformer_block(m, net, xf);
        assert(b[0].id == id);
        assert(class_ids(b, "PowerTransformerEnd"@) == both);
        lemma_ends_of_block(m, net, k);
    }
    let at = lemma_transformer_place(m, net, k, xf);
    lemma_named_says(s, at, "PowerTransformer"@, id, xf.name, seq![]);
    lemma_end_present(m, net, at + 2, at + 1, xf, id, 0);
    lemma_end_present(m, net, at + 4, at + 3, xf, id, 1);
    lemma_end_pair(m, s, id, end_id(xf, 0), end_id(xf, 1));
    let ends = ends_of(m, s, id);
    let phases = phase_count_from(s, ends, 0);
    assert(winding_at(m, s, ends[0].1, phases) is Some);
    assert(winding_at(m, s, ends[1].1, phases) is Some);
    reveal_with_fuel(windings_n, 3);
}

proof fn lemma_end_present(
    m: Sem,
    net: DistNetworkV,
    at: int,
    term: int,
    xf: DistTransformerV,
    id: Seq<char>,
    e: nat,
)
    requires
        told_apart(m, net),
        0 <= at < written(m, net).objects.len(),
        0 <= term < written(m, net).objects.len(),
        e < xf.windings.len() == 2,
        written(m, net).objects[at] == end_object(m, xf, id, e),
        written(m, net).objects[term] == terminal_object(
            id,
            e + 1,
            node_of(net, xf.windings[e as int].bus),
            phase_code_of(xf.windings[e as int].terminal_map),
        ),
    ensures
        ({
            let s = written(m, net);
            let end = end_id(xf, e);
            &&& s.refv(end, "PowerTransformerEnd.PowerTransformer"@) == Some(id)
            &&& s.number(m, end, "TransformerEnd.endNumber"@) == (m.parse)(
                trim_of(dec_of(e + 1)),
            )
            &&& forall|phases: nat| #[trigger] winding_at(m, s, end, phases) is Some
        }),
{
    let s = written(m, net);
    let w = xf.windings[e as int];
    lemma_end_props(m, s, at, xf, id, e);
    lemma_terminal_reads(m, s, term, id, e + 1, node_of(net, w.bus), w.terminal_map);
    let more = end_more(m, xf, id, e);
    let end = end_id(xf, e);
    assert(s.prop(end, more[0].0) == Some(more[0].1));
    assert(s.prop(end, more[1].0) == Some(more[1].1));
    assert(s.prop(end, more[2].0) == Some(more[2].1));
    reveal(StoreV::refv);
    reveal(StoreV::number);
    reveal(StoreV::text);
}

// ---- lists -----------------------------------------------------------------

proof fn lemma_lines_present(m: Sem, net: DistNetworkV, n: nat)
    requires
        told_apart(m, net),
        counts(m),
        seated(net),
        n <= net.lines.len(),
    ensures
        ({
            let r = lines_n(m, written(m, net), line_ids(net), n).lines;
            &&& r.len() == n
            &&& forall|i: int| 0 <= i < n ==> (#[trigger] r[i]).name == net.lines[i].name
        }),
    decreases n,
{
    if n > 0 {
        lemma_lines_present(m, net, (n - 1) as nat);
        lemma_line_present(m, net, n - 1);
    }
}

proof fn lemma_loads_present(m: Sem, net: DistNetworkV, w: Seq<Seq<char>>, n: nat)
    requires
        told_apart(m, net),
        seated(net),
        n <= net.loads.len(),
    ensures
        ({
            let r = loads_n(m, written(m, net), load_ids(net), w, n).loads;
            &&& r.len() == n
            &&& forall|i: int|
                0 <= i < n ==> (#[trigger] r[i]).name == net.loads[i].name && r[i].configuration
                    == net.loads[i].configuration
        }),
    decreases n,
{
    if n > 0 {
        lemma_loads_present(m, net, w, (n - 1) as nat);
        lemma_load_present(m, net, n - 1);
    }
}

proof fn lemma_shunts_present(m: Sem, net: DistNetworkV, n: nat)
    requires
        told_apart(m, net),
        seated(net),
        n <= net.shunts.len(),
    ensures
        ({
            let r = shunts_n(m, written(m, net), shunt_ids(net), n);
            &&& r.len() == n
            &&& forall|i: int| 0 <= i < n ==> (#[trigger] r[i]).name == net.shunts[i].name
        }),
    decreases n,
{
    if n > 0 {
        lemma_shunts_present(m, net, (n - 1) as nat);
        lemma_shunt_present(m, net, n - 1);
    }
}

proof fn lemma_switches_present(m: Sem, net: DistNetworkV, n: nat)
    requires
        told_apart(m, net),
        counts(m),
        seated(net),
        n <= net.switches.len(),
    ensures
        ({
            let r = switches_n(m, written(m, net), seq![], switch_ids(net), n);
            &&& r.len() == n
            &&& forall|i: int| 0 <= i < n ==> (#[trigger] r[i]).name == net.switches[i].name
        }),
    decreases n,
{
    if n > 0 {
        lemma_switches_present(m, net, (n - 1) as nat);
        lemma_switch_present(m, net, n - 1);
    }
}

proof fn lemma_sources_present(m: Sem, net: DistNetworkV, n: nat)
    requires
        told_apart(m, net),
        seated(net),
        n <= net.sources.len(),
    ensures
        ({
            let r = sources_n(m, written(m, net), source_ids(net), n);
            &&& r.len() == n
            &&& forall|i: int| 0 <= i < n ==> (#[trigger] r[i]).name == net.sources[i].name
        }),
    decreases n,
{
    if n > 0 {
        lemma_sources_present(m, net, (n - 1) as nat);
        lemma_source_present(m, net, n - 1);
    }
}

proof fn lemma_transformers_present(m: Sem, net: DistNetworkV, w: Seq<Seq<char>>, n: nat)
    requires
        told_apart(m, net),
        counts(m),
        seated(net),
        n <= net.transformers.len(),
    ensures
        ({
            let r = transformers_n(m, written(m, net), transformer_ids(net), w, n).transformers;
            &&& r.len() == n
            &&& forall|i: int| 0 <= i < n ==> (#[trigger] r[i]).name == net.transformers[i].name
        }),
    decreases n,
{
    if n > 0 {
        lemma_transformers_present(m, net, w, (n - 1) as nat);
        lemma_transformer_present(m, net, n - 1);
    }
}

/// The switches of a document come from the one class that is written.
proof fn lemma_switch_lists(m: Sem, net: DistNetworkV)
    ensures
        switches_of(m, written(m, net)) == switches_n(
            m,
            written(m, net),
            seq![],
            switch_ids(net),
            net.switches.len(),
        ),
        forall|w: Seq<Seq<char>>| #[trigger]
            nodeless_switches(m, written(m, net), w, 7) == nodeless_n(
                m,
                written(m, net),
                "LoadBreakSwitch"@,
                true,
                w,
                switch_ids(net),
                net.switches.len(),
            ),
{
    let s = written(m, net);
    lemma_document_is_its_blocks(m, net);
    lemma_switch_ids(m, net);
    assert(s.of_class("LoadBreakSwitch"@) == switch_ids(net)) by {
        reveal(StoreV::of_class);
    }
    lemma_unwritten(m, net, "Breaker"@);
    lemma_unwritten(m, net, "Recloser"@);
    lemma_unwritten(m, net, "Sectionaliser"@);
    lemma_unwritten(m, net, "Fuse"@);
    lemma_unwritten(m, net, "Disconnector"@);
    lemma_unwritten(m, net, "Jumper"@);
    let all = switches_n(m, s, seq![], switch_ids(net), net.switches.len());
    assert(switches_upto(m, s, 0) == Seq::<DistSwitchV>::empty());
    assert(switches_upto(m, s, 1) == all);
    assert(switches_upto(m, s, 2) == all);
    assert(switches_upto(m, s, 3) == all);
    assert(switches_upto(m, s, 4) == all);
    assert(switches_upto(m, s, 5) == all);
    assert(switches_upto(m, s, 6) == all);
    assert(switches_upto(m, s, 7) == all);
    assert forall|w: Seq<Seq<char>>| #[trigger] nodeless_switches(m, s, w, 7) == nodeless_n(
        m,
        s,
        "LoadBreakSwitch"@,
        true,
        w,
        switch_ids(net),
        net.switches.len(),
    ) by {
        let v = nodeless_switches(m, s, w, 1);
        assert(nodeless_switches(m, s, w, 0) == w);
        assert(nodeless_switches(m, s, w, 2) == v);
        assert(nodeless_switches(m, s, w, 3) == v);
        assert(nodeless_switches(m, s, w, 4) == v);
        assert(nodeless_switches(m, s, w, 5) == v);
        assert(nodeless_switches(m, s, w, 6) == v);
    }
}

proof fn lemma_all_noded(
    m: Sem,
    s: StoreV,
    class: Seq<char>,
    two: bool,
    w: Seq<Seq<char>>,
    ids: Seq<Seq<char>>,
    n: nat,
)
    requires
        n <= ids.len(),
        forall|i: int| 0 <= i < ids.len() ==> has_nodes(m, s, #[trigger] ids[i], two),
    ensures
        nodeless_n(m, s, class, two, w, ids, n) == w,
    decreases n,
{
    if n > 0 {
        lemma_all_noded(m, s, class, two, w, ids, (n - 1) as nat);
    }
}

/// Nothing that is written at buses of the network lacks a node.
pub proof fn lemma_none_nodeless(m: Sem, net: DistNetworkV, w: Seq<Seq<char>>)
    requires
        told_apart(m, net),
        counts(m),
        seated(net),
    ensures
        nodeless_of(m, written(m, net), w) == w,
{
    let s = written(m, net);
    reveal(nodeless_of);
    lemma_shunt_ids(m, net);
    lemma_source_ids(m, net);
    lemma_switch_lists(m, net);
    assert forall|i: int| 0 <= i < shunt_ids(net).len() implies has_nodes(
        m,
        s,
        #[trigger] shunt_ids(net)[i],
        false,
    ) by {
        lemma_shunt_present(m, net, i);
    }
    lemma_all_noded(
        m,
        s,
        "LinearShuntCompensator"@,
        false,
        w,
        shunt_ids(net),
        shunt_ids(net).len(),
    );
    assert forall|i: int| 0 <= i < switch_ids(net).len() implies has_nodes(
        m,
        s,
        #[trigger] switch_ids(net)[i],
        true,
    ) by {
        lemma_switch_present(m, net, i);
    }
    lemma_all_noded(m, s, "LoadBreakSwitch"@, true, w, switch_ids(net), switch_ids(net).len());
    assert forall|i: int| 0 <= i < source_ids(net).len() implies has_nodes(
        m,
        s,
        #[trigger] source_ids(net)[i],
        false,
    ) by {
        lemma_source_present(m, net, i);
    }
    lemma_all_noded(m, s, "EnergySource"@, false, w, source_ids(net), source_ids(net).len());
}

/// Every element comes back: what is written of a network whose elements stand
/// at its buses reads as a network with as many buses, lines, loads, shunts,
/// switches, transformers and sources, each in its place and by its name, and
/// with each load connected as it was. This asks nothing of the values of the
/// elements, of the line codes or of the phases.
#[verifier::rlimit(60)]
pub proof fn lemma_elements_come_back(m: Sem, net: DistNetworkV)
    requires
        safe_ids(net),
        told_apart(m, net),
        counts(m),
        seated(net),
    ensures
        cim_text(m, cim_xml(m, net).text) matches Ok(back) && {
            &&& back.buses.len() == net.buses.len()
            &&& back.lines.len() == net.lines.len()
            &&& back.loads.len() == net.loads.len()
            &&& back.shunts.len() == net.shunts.len()
            &&& back.switches.len() == net.switches.len()
            &&& back.transformers.len() == net.transformers.len()
            &&& back.sources.len() == net.sources.len()
            &&& forall|i: int|
                0 <= i < net.buses.len() ==> (#[trigger] back.buses[i]).id == net.buses[i].id
            &&& forall|i: int|
                0 <= i < net.lines.len() ==> (#[trigger] back.lines[i]).name == net.lines[i].name
            &&& forall|i: int|
                0 <= i < net.loads.len() ==> (#[trigger] back.loads[i]).name == net.loads[i].name
                    && back.loads[i].configuration == net.loads[i].configuration
            &&& forall|i: int|
                0 <= i < net.shunts.len() ==> (#[trigger] back.shunts[i]).name
                    == net.shunts[i].name
            &&& forall|i: int|
                0 <= i < net.switches.len() ==> (#[trigger] back.switches[i]).name
                    == net.switches[i].name
            &&& forall|i: int|
                0 <= i < net.transformers.len() ==> (#[trigger] back.transformers[i]).name
                    == net.transformers[i].name
            &&& forall|i: int|
                0 <= i < net.sources.len() ==> (#[trigger] back.sources[i]).name
                    == net.sources[i].name
        },
{
    let s = written(m, net);
    lemma_reads_as(m, net);
    lemma_buses_read_back(m, net);
    lemma_line_ids(m, net);
    lemma_lines_present(m, net, net.lines.len());
    lemma_load_ids(m, net);
    lemma_loads_present(m, net, lines_of(m, s).warnings, net.loads.len());
    lemma_shunt_ids(m, net);
    lemma_shunts_present(m, net, net.shunts.len());
    lemma_switch_lists(m, net);
    lemma_switches_present(m, net, net.switches.len());
    lemma_transformer_ids(m, net);
    let w = loads_of(m, s, lines_of(m, s).warnings).warnings;
    lemma_transformers_present(m, net, w, net.transformers.len());
    lemma_source_ids(m, net);
    lemma_sources_present(m, net, net.sources.len());
    reveal(network_of);
}

} // verus!
