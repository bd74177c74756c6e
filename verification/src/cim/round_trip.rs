//! The network that a written document comes back as.

use vstd::prelude::*;

use crate::cim::apparatus::{
    lemma_shunts_n, lemma_source_ids, lemma_sources_n, returned_shunt, returned_source,
    shunt_stands, source_stands,
};
use crate::cim::blocks::{
    blocks_of, bus_blocks, class_ids, flat, frequency_block, lacks_class, lemma_class_ids_add,
    lemma_class_ids_none, lemma_document_is_its_blocks, line_blocks, linecode_block,
    linecode_blocks, load_blocks, shunt_blocks, source_blocks, switch_blocks, transformer_blocks,
    triangle_data,
};
use crate::cim::codes::{
    code_stands, lemma_data_of_block, lemma_triangle_reads, lemma_upto_end, returned_code,
    returned_triple, stands_in, written_b, written_series,
};
use crate::cim::elements::{
    kept, lemma_block_place, lemma_frequency_back, lemma_impedance_name, lemma_line_ids,
    lemma_line_reads, lemma_line_wires, lemma_linecode_from_index, lemma_linecode_index,
    lemma_lines_n, lemma_load_ids, lemma_loads_n, lemma_shunt_ids, lemma_switches_back, line_ids,
    line_stands, load_stands, returned_line, returned_load, returned_switch, switch_stands,
};
use crate::cim::ends::{
    lemma_transformer_ids, lemma_transformers_n, returned_transformer, transformer_stands,
};
use crate::cim::laws::safe_ids;
use crate::cim::read::{
    buses_of, cim_text, consumed_classes, consumes, derived_bus, imported, lines_n, lines_of,
    loads_of, network_of, per_length_of, seen_from, shunts_of, sources_of, switch_classes,
    switches_of, transformers_of, unmapped_n, unmapped_of, used_terminals, ElementsV,
};
use crate::cim::present::{lemma_none_nodeless, seated};
use crate::cim::recall::{
    all_lack, lemma_classes, lemma_flat_lacks, lemma_node_name, lemma_nodes, lemma_reads_as,
    lemma_segments_lack, node_ids, told_apart, written,
};
use crate::cim::store::{distinct_ids, CimObjectV, PropV, StoreV};
use crate::cim::wires::{hot_of, lemma_named_prop};
use crate::cim::wiring::counts;
use crate::cim::write::{cim_xml, mrid_of};
use crate::error::ErrorV;
use crate::math::Sem;
use crate::matrix::max3;
use crate::model::{
    dist_bus_of, dist_network_of, DistBusV, DistLineCodeV, DistLineV, DistNetworkV,
    DistSourceFormat,
};
use crate::numeral::dec_of;
use crate::text::trim_of;

verus! {

// ---- line codes ------------------------------------------------------------

/// The line code of the `i`-th line.
pub open spec fn code_at(net: DistNetworkV, i: int) -> DistLineCodeV {
    net.linecode(net.lines[i].linecode)->0
}

pub open spec fn code_id(lc: DistLineCodeV) -> Seq<char> {
    mrid_of(lc.extras, "plpi"@, lc.name)
}

/// Whether one of the first `n` lines has the line code of an identifier.
pub open spec fn used_before(net: DistNetworkV, n: nat, id: Seq<char>) -> bool
    decreases n,
{
    n > 0 && (code_id(code_at(net, n - 1)) == id || used_before(net, (n - 1) as nat, id))
}

/// The line codes that come back of the first `n` lines: each that a line has,
/// in the order in which the lines first have them.
pub open spec fn returned_codes(m: Sem, net: DistNetworkV, n: nat) -> Seq<DistLineCodeV>
    decreases n,
{
    if n == 0 {
        seq![]
    } else {
        let before = returned_codes(m, net, (n - 1) as nat);
        let lc = code_at(net, n - 1);
        if used_before(net, (n - 1) as nat, code_id(lc)) {
            before
        } else {
            before.push(returned_code(m, lc))
        }
    }
}

/// A line stands, its line code comes back, and the code has a conductor for
/// each of its phases.
pub open spec fn line_coded(m: Sem, net: DistNetworkV, line: DistLineV) -> bool {
    let lc = net.linecode(line.linecode)->0;
    &&& line_stands(m, net, line)
    &&& code_stands(m, lc)
    &&& hot_of(line.terminal_map_from).len() <= lc.n_conductors
}

proof fn lemma_block_data_ids(m: Sem, lc: DistLineCodeV)
    ensures
        class_ids(linecode_block(m, lc), "PhaseImpedanceData"@) == class_ids(
            triangle_data(m, lc, code_id(lc), lc.n_conductors as nat),
            "PhaseImpedanceData"@,
        ),
{
    let class = "PhaseImpedanceData"@;
    let b = linecode_block(m, lc);
    let head = b.take(1);
    let t = triangle_data(m, lc, code_id(lc), lc.n_conductors as nat);
    assert(b =~= head + t);
    lemma_classes();
    assert(lacks_class(head, class));
    lemma_class_ids_add(head, t, class);
    lemma_class_ids_none(head, class, head.len());
    assert(class_ids(b, class) =~= class_ids(t, class));
}

/// The matrices of a written line code, read.
#[verifier::rlimit(40)]
proof fn lemma_code_reads(m: Sem, net: DistNetworkV, name: Seq<char>, nphase: nat)
    requires
        told_apart(m, net),
        net.linecode(name) is Some,
        code_stands(m, net.linecode(name)->0),
        1 <= nphase <= net.linecode(name)->0.n_conductors,
    ensures
        per_length_of(m, written(m, net), code_id(net.linecode(name)->0), nphase) == Some(
            returned_triple(m, net.linecode(name)->0),
        ),
{
    let s = written(m, net);
    let j = lemma_linecode_from_index(net.linecodes, name, 0);
    let k = lemma_linecode_index(m, net, j);
    let lc = net.linecodes[j];
    let id = code_id(lc);
    let n = lc.n_conductors as nat;
    let b = linecode_block(m, lc);
    let t = triangle_data(m, lc, id, n);
    let at = lemma_block_place(m, net, k);
    assert(s.objects[at + 0] == b[0]);
    assert(stands_in(s, at + 1, t)) by {
        assert forall|i: int| 0 <= i < t.len() implies s.objects[at + 1 + i] == #[trigger] t[i] by {
            assert(b[1 + i] == t[i]);
            assert(s.objects[at + (1 + i)] == b[1 + i]);
        }
    }
    lemma_triangle_reads(m, s, lc, id, n, at + 1);
    lemma_upto_end(n, written_series(lc.r_series));
    lemma_upto_end(n, written_series(lc.x_series));
    lemma_upto_end(n, written_b(m, lc));
    lemma_block_data_ids(m, lc);
    lemma_data_of_block(m, net, k, n);
    lemma_impedance_name(m, net, name);
    lemma_count_says(m, s, at, lc);
    reveal(per_length_of);
}

/// The number of conductors of a written line code, read.
proof fn lemma_count_says(m: Sem, s: StoreV, at: int, lc: DistLineCodeV)
    requires
        distinct_ids(s.objects),
        0 <= at < s.objects.len(),
        s.objects[at] == linecode_block(m, lc)[0],
    ensures
        s.number(m, code_id(lc), "PerLengthPhaseImpedance.conductorCount"@) == (m.parse)(
            trim_of(dec_of(lc.n_conductors as nat)),
        ),
{
    let more = seq![
        (
            "PerLengthPhaseImpedance.conductorCount"@,
            PropV::Text(dec_of(lc.n_conductors as nat)),
        ),
    ];
    reveal_strlit("PerLengthPhaseImpedance.conductorCount");
    assert("PerLengthPhaseImpedance.conductorCount"@[0] == 'P');
    lemma_named_prop(s, at, "PerLengthPhaseImpedance"@, code_id(lc), lc.name, more, 0);
    reveal(StoreV::number);
    reveal(StoreV::text);
}

proof fn lemma_seen_push(
    seen: Seq<(Seq<char>, Seq<char>)>,
    x: (Seq<char>, Seq<char>),
    id: Seq<char>,
    i: int,
)
    requires
        0 <= i <= seen.len(),
    ensures
        seen_from(seen.push(x), id, i) is Some <==> seen_from(seen, id, i) is Some || x.0 == id,
    decreases seen.len() - i,
{
    if i < seen.len() {
        assert(seen.push(x)[i] == seen[i]);
        if seen[i].0 != id {
            lemma_seen_push(seen, x, id, i + 1);
        }
    } else {
        assert(seen.push(x)[i] == x);
        assert(seen_from(seen.push(x), id, i + 1) is None);
    }
}

/// The line codes of the first `n` lines, read.
#[verifier::rlimit(40)]
proof fn lemma_codes_n(m: Sem, net: DistNetworkV, n: nat)
    requires
        told_apart(m, net),
        counts(m),
        n <= net.lines.len(),
        forall|i: int| 0 <= i < net.lines.len() ==> line_coded(m, net, #[trigger] net.lines[i]),
    ensures
        lines_n(m, written(m, net), line_ids(net), n).codes == returned_codes(m, net, n),
        forall|id: Seq<char>|
            seen_from(
                #[trigger] lines_n(m, written(m, net), line_ids(net), n).seen,
                id,
                0,
            ) is Some <==> used_before(net, n, id),
    decreases n,
{
    let s = written(m, net);
    if n > 0 {
        lemma_codes_n(m, net, (n - 1) as nat);
        let line = net.lines[n - 1];
        let lc = code_at(net, n - 1);
        assert(line_coded(m, net, line));
        lemma_line_reads(m, net, n - 1);
        lemma_line_wires(m, net, n - 1);
        lemma_impedance_name(m, net, line.linecode);
        let hot = hot_of(line.terminal_map_from);
        lemma_code_reads(m, net, line.linecode, hot.len());
        let st = lines_n(m, s, line_ids(net), (n - 1) as nat);
        let after = lines_n(m, s, line_ids(net), n);
        let id = code_id(lc);
        assert(max3(hot.len(), 1, 1) == hot.len());
        assert(seen_from(st.seen, id, 0) is Some <==> used_before(net, (n - 1) as nat, id));
        if seen_from(st.seen, id, 0) is Some {
            assert(after.seen == st.seen);
            assert(after.codes == st.codes);
        } else {
            assert(after.seen == st.seen.push((id, lc.name)));
            assert(after.codes == st.codes.push(returned_code(m, lc)));
        }
        assert forall|q: Seq<char>|
            seen_from(#[trigger] lines_n(m, s, line_ids(net), n).seen, q, 0) is Some
                <==> used_before(net, n, q) by {
            assert(seen_from(st.seen, q, 0) is Some <==> used_before(net, (n - 1) as nat, q));
            lemma_seen_push(st.seen, (id, lc.name), q, 0);
        }
    } else {
        assert(lines_n(m, s, line_ids(net), n).codes =~= returned_codes(m, net, n));
    }
}

// ---- the whole -------------------------------------------------------------

/// Every class that is written is one that is read.
#[verifier::rlimit(40)]
proof fn lemma_all_consumed(m: Sem, net: DistNetworkV)
    ensures
        forall|i: int|
            0 <= i < written(m, net).objects.len() ==> consumes(
                (#[trigger] written(m, net).objects[i]).class,
            ),
{
    let objects = written(m, net).objects;
    lemma_document_is_its_blocks(m, net);
    assert forall|i: int| 0 <= i < objects.len() implies consumes((#[trigger] objects[i]).class) by {
        let c = objects[i].class;
        if !consumes(c) {
            lemma_consumed_written(c);
            lemma_segments_lack(m, net, c);
            lemma_lacking(m, net, c);
            assert(lacks_class(objects, c));
        }
    }
}

/// A class that is not read is none of those written.
proof fn lemma_consumed_written(c: Seq<char>)
    requires
        !consumes(c),
    ensures
        c != "BaseFrequency"@,
        c != "ConnectivityNode"@,
        c != "PerLengthPhaseImpedance"@,
        c != "PhaseImpedanceData"@,
        c != "ACLineSegment"@,
        c != "Terminal"@,
        c != "ACLineSegmentPhase"@,
        c != "EnergyConsumer"@,
        c != "EnergyConsumerPhase"@,
        c != "LinearShuntCompensator"@,
        c != "ShuntCompensatorPhase"@,
        c != "LoadBreakSwitch"@,
        c != "PowerTransformer"@,
        c != "PowerTransformerEnd"@,
        c != "EnergySource"@,
{
    let l = consumed_classes();
    assert(l[0] == "ConnectivityNode"@);
    assert(l[1] == "Terminal"@);
    assert(l[3] == "BaseFrequency"@);
    assert(l[4] == "ACLineSegment"@);
    assert(l[5] == "ACLineSegmentPhase"@);
    assert(l[6] == "PerLengthPhaseImpedance"@);
    assert(l[8] == "PhaseImpedanceData"@);
    assert(l[9] == "EnergyConsumer"@);
    assert(l[10] == "EnergyConsumerPhase"@);
    assert(l[11] == "LinearShuntCompensator"@);
    assert(l[12] == "ShuntCompensatorPhase"@);
    assert(l[13] == "EnergySource"@);
    assert(l[15] == "PowerTransformer"@);
    assert(l[16] == "PowerTransformerEnd"@);
    assert(switch_classes()[0] == "LoadBreakSwitch"@);
}

/// A document without a class in any of its blocks has none of it.
#[verifier::rlimit(40)]
proof fn lemma_lacking(m: Sem, net: DistNetworkV, c: Seq<char>)
    requires
        all_lack(seq![frequency_block(m, net)], c),
        all_lack(bus_blocks(net), c),
        all_lack(linecode_blocks(m, net), c),
        all_lack(line_blocks(m, net), c),
        all_lack(load_blocks(m, net), c),
        all_lack(shunt_blocks(m, net), c),
        all_lack(switch_blocks(net), c),
        all_lack(transformer_blocks(m, net), c),
        all_lack(source_blocks(m, net), c),
    ensures
        lacks_class(flat(blocks_of(m, net)), c),
{
    let n1 = 1int;
    let n2 = n1 + net.buses.len();
    let n3 = n2 + net.linecodes.len();
    let n4 = n3 + net.lines.len();
    let n5 = n4 + net.loads.len();
    let n6 = n5 + net.shunts.len();
    let n7 = n6 + net.switches.len();
    let n8 = n7 + net.transformers.len();
    let bs = blocks_of(m, net);
    assert forall|k: int| 0 <= k < bs.len() implies lacks_class(#[trigger] bs[k], c) by {
        if k < n1 {
            assert(bs[k] == seq![frequency_block(m, net)][k]);
        } else if k < n2 {
            assert(bs[k] == bus_blocks(net)[k - n1]);
        } else if k < n3 {
            assert(bs[k] == linecode_blocks(m, net)[k - n2]);
        } else if k < n4 {
            assert(bs[k] == line_blocks(m, net)[k - n3]);
        } else if k < n5 {
            assert(bs[k] == load_blocks(m, net)[k - n4]);
        } else if k < n6 {
            assert(bs[k] == shunt_blocks(m, net)[k - n5]);
        } else if k < n7 {
            assert(bs[k] == switch_blocks(net)[k - n6]);
        } else if k < n8 {
            assert(bs[k] == transformer_blocks(m, net)[k - n7]);
        } else {
            assert(bs[k] == source_blocks(m, net)[k - n8]);
        }
    }
    lemma_flat_lacks(bs, c);
}

proof fn lemma_none_unmapped(objects: Seq<CimObjectV>, n: nat)
    requires
        n <= objects.len(),
        forall|i: int| 0 <= i < objects.len() ==> consumes((#[trigger] objects[i]).class),
    ensures
        unmapped_n(objects, n) == Seq::<(Seq<char>, usize)>::empty(),
    decreases n,
{
    if n > 0 {
        lemma_none_unmapped(objects, (n - 1) as nat);
    }
}

/// The elements that come back of a network.
pub open spec fn returned_elements(m: Sem, net: DistNetworkV) -> ElementsV {
    ElementsV {
        lines: Seq::new(net.lines.len(), |i: int| returned_line(net, net.lines[i])),
        switches: Seq::new(net.switches.len(), |i: int| returned_switch(net, net.switches[i])),
        loads: Seq::new(net.loads.len(), |i: int| returned_load(net, net.loads[i])),
        shunts: Seq::new(net.shunts.len(), |i: int| returned_shunt(net, net.shunts[i])),
        transformers: Seq::new(
            net.transformers.len(),
            |i: int| returned_transformer(m, net, net.transformers[i]),
        ),
        sources: Seq::new(net.sources.len(), |i: int| returned_source(m, net, net.sources[i])),
    }
}

/// The bus that comes back of a bus: with the wires that the elements present
/// there, its neutral grounded.
pub open spec fn returned_bus(b: DistBusV, e: ElementsV) -> DistBusV {
    let terminals = used_terminals(b.id, e);
    DistBusV {
        grounded: if terminals.contains("4"@) {
            seq!["4"@]
        } else {
            seq![]
        },
        extras: imported(mrid_of(b.extras, "node"@, b.id)),
        ..dist_bus_of(b.id, terminals)
    }
}

/// The network that comes back of a network.
pub open spec fn returned_network(m: Sem, net: DistNetworkV) -> DistNetworkV {
    let e = returned_elements(m, net);
    DistNetworkV {
        base_frequency: net.base_frequency,
        buses: Seq::new(net.buses.len(), |i: int| returned_bus(net.buses[i], e)),
        linecodes: returned_codes(m, net, net.lines.len()),
        lines: e.lines,
        switches: e.switches,
        transformers: e.transformers,
        loads: e.loads,
        shunts: e.shunts,
        sources: e.sources,
        source: Some(cim_xml(m, net).text),
        source_format: Some(DistSourceFormat::Cim),
        ..dist_network_of()
    }
}

/// Every element of a network stands, and comes back.
pub open spec fn stands(m: Sem, net: DistNetworkV) -> bool {
    &&& counts(m)
    &&& kept(m, net.base_frequency)
    &&& net.buses.len() > 0
    &&& forall|i: int| 0 <= i < net.lines.len() ==> line_coded(m, net, #[trigger] net.lines[i])
    &&& forall|i: int| 0 <= i < net.loads.len() ==> load_stands(m, net, #[trigger] net.loads[i])
    &&& forall|i: int| 0 <= i < net.shunts.len() ==> shunt_stands(m, net, #[trigger] net.shunts[i])
    &&& forall|i: int|
        0 <= i < net.switches.len() ==> switch_stands(net, #[trigger] net.switches[i])
    &&& forall|i: int|
        0 <= i < net.transformers.len() ==> transformer_stands(
            m,
            net,
            #[trigger] net.transformers[i],
        )
    &&& forall|i: int|
        0 <= i < net.sources.len() ==> source_stands(m, net, #[trigger] net.sources[i])
}

#[verifier::rlimit(40)]
proof fn lemma_elements_back(m: Sem, net: DistNetworkV)
    requires
        told_apart(m, net),
        stands(m, net),
    ensures
        ({
            let s = written(m, net);
            let e = returned_elements(m, net);
            let l = lines_of(m, s);
            let loads = loads_of(m, s, l.warnings);
            let xfs = transformers_of(m, s, loads.warnings);
            &&& l.lines == e.lines
            &&& l.codes == returned_codes(m, net, net.lines.len())
            &&& loads.loads == e.loads
            &&& shunts_of(m, s) == e.shunts
            &&& switches_of(m, s) == e.switches
            &&& xfs.transformers == e.transformers
            &&& xfs.warnings.len() == 0
            &&& sources_of(m, s) == e.sources
        }),
{
    let s = written(m, net);
    lemma_line_ids(m, net);
    assert forall|i: int| 0 <= i < net.lines.len() implies line_stands(
        m,
        net,
        #[trigger] net.lines[i],
    ) by {
        assert(line_coded(m, net, net.lines[i]));
    }
    lemma_lines_n(m, net, net.lines.len());
    lemma_codes_n(m, net, net.lines.len());
    lemma_load_ids(m, net);
    lemma_loads_n(m, net, lines_of(m, s).warnings, net.loads.len());
    lemma_shunt_ids(m, net);
    lemma_shunts_n(m, net, net.shunts.len());
    lemma_switches_back(m, net);
    assert forall|i: int| 0 <= i < net.transformers.len() implies (#[trigger] net.transformers[i]).windings.len()
        == 2 by {
        assert(transformer_stands(m, net, net.transformers[i]));
    }
    lemma_transformer_ids(m, net);
    lemma_transformers_n(m, net, lines_of(m, s).warnings, net.transformers.len());
    lemma_source_ids(m, net);
    lemma_sources_n(m, net, net.sources.len());
}

#[verifier::rlimit(40)]
proof fn lemma_buses_back(m: Sem, net: DistNetworkV, e: ElementsV)
    requires
        told_apart(m, net),
    ensures
        buses_of(written(m, net), e) == Seq::new(
            net.buses.len(),
            |i: int| returned_bus(net.buses[i], e),
        ),
{
    let s = written(m, net);
    lemma_document_is_its_blocks(m, net);
    lemma_nodes(m, net);
    assert(s.of_class("ConnectivityNode"@) == node_ids(net)) by {
        reveal(StoreV::of_class);
    }
    assert forall|i: int| 0 <= i < net.buses.len() implies derived_bus(s, node_ids(net)[i], e)
        == returned_bus(net.buses[i], e) by {
        lemma_node_name(m, net, i);
    }
    assert(buses_of(s, e) =~= Seq::new(
        net.buses.len(),
        |i: int| returned_bus(net.buses[i], e),
    ));
}

proof fn lemma_no_warnings(m: Sem, net: DistNetworkV, w: Seq<Seq<char>>)
    ensures
        unmapped_of(written(m, net), w) == w,
{
    let objects = written(m, net).objects;
    lemma_all_consumed(m, net);
    lemma_none_unmapped(objects, objects.len());
}

/// Elements that stand are seated.
proof fn lemma_stands_seated(m: Sem, net: DistNetworkV)
    requires
        stands(m, net),
    ensures
        seated(net),
{
    assert forall|i: int| 0 <= i < net.lines.len() implies net.bus(
        (#[trigger] net.lines[i]).bus_from,
    ) is Some && net.bus(net.lines[i].bus_to) is Some by {
        assert(line_coded(m, net, net.lines[i]));
    }
    assert forall|i: int| 0 <= i < net.loads.len() implies net.bus(
        (#[trigger] net.loads[i]).bus,
    ) is Some by {
        assert(load_stands(m, net, net.loads[i]));
    }
    assert forall|i: int| 0 <= i < net.shunts.len() implies net.bus(
        (#[trigger] net.shunts[i]).bus,
    ) is Some by {
        assert(shunt_stands(m, net, net.shunts[i]));
    }
    assert forall|i: int| 0 <= i < net.switches.len() implies net.bus(
        (#[trigger] net.switches[i]).bus_from,
    ) is Some && net.bus(net.switches[i].bus_to) is Some by {
        assert(switch_stands(net, net.switches[i]));
    }
    assert forall|i: int| 0 <= i < net.transformers.len() implies {
        &&& (#[trigger] net.transformers[i]).windings.len() == 2
        &&& net.bus(net.transformers[i].windings[0].bus) is Some
        &&& net.bus(net.transformers[i].windings[1].bus) is Some
    } by {
        assert(transformer_stands(m, net, net.transformers[i]));
    }
    assert forall|i: int| 0 <= i < net.sources.len() implies net.bus(
        (#[trigger] net.sources[i]).bus,
    ) is Some by {
        assert(source_stands(m, net, net.sources[i]));
    }
}

/// What is written is read back: the document of a network reads as that
/// network, element by element, with nothing reported. An identifier must be one
/// that an attribute can hold and no two written objects may share one, every
/// element must stand at buses of the network, and every number that is written
/// must come back from its text.
#[verifier::rlimit(40)]
pub proof fn lemma_network_reads_back(m: Sem, net: DistNetworkV)
    requires
        safe_ids(net),
        told_apart(m, net),
        stands(m, net),
    ensures
        cim_text(m, cim_xml(m, net).text) == Ok::<DistNetworkV, ErrorV>(returned_network(m, net)),
{
    lemma_reads_as(m, net);
    let s = written(m, net);
    let e = returned_elements(m, net);
    lemma_elements_back(m, net);
    lemma_buses_back(m, net, e);
    lemma_frequency_back(m, net);
    let l = lines_of(m, s);
    let w = transformers_of(m, s, loads_of(m, s, l.warnings).warnings).warnings;
    lemma_stands_seated(m, net);
    lemma_none_nodeless(m, net, w);
    lemma_no_warnings(m, net, w);
    reveal(network_of);
    assert(w =~= Seq::<Seq<char>>::empty());
}

} // verus!
