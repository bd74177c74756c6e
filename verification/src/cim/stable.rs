//! Writing what was read of a written document gives that document again.

use vstd::prelude::*;

use crate::cim::alike::{
    alike_cell, alike_code, alike_line, alike_load, alike_shunt, alike_source, alike_switch,
    alike_transformer, alike_winding, blank, group_body, lemma_bus_same, lemma_code_same,
    lemma_line_same, lemma_load_same, lemma_shunt_same, lemma_source_same, lemma_switch_same,
    lemma_transformer_same,
};
use crate::cim::apparatus::{
    diagonal_at, returned_shunt, returned_source, shunt_stands, source_stands, written_voltage,
};
use crate::cim::codes::{returned_code, returned_triple, written_b};
use crate::cim::elements::{
    load_stands, returned_line, returned_load, returned_switch, switch_stands,
};
use crate::cim::ends::{
    returned_map, returned_transformer, returned_winding, transformer_stands, written_r, written_x,
};
use crate::cim::laws::safe_ids;
use crate::cim::read::{cim_text, imported, phase_angle, with_neutral_of};
use crate::cim::recall::told_apart;
use crate::cim::round_trip::{
    code_id, lemma_network_reads_back, line_coded, returned_bus, returned_codes, returned_elements,
    returned_network, stands,
};
use crate::cim::wires::{hot_of, lemma_phases_are_hot};
use crate::cim::write::{
    line_doc, load_doc, shunt_doc, switch_doc, buses_doc, cim_xml, det_mrid_of, dropped_doc,
    frequency_doc, linecodes_doc, lines_doc, loads_doc, mrid_of, node_of, shunts_doc, sources_doc,
    switches_doc, transformers_doc, value_or_zero, DocV,
};
use crate::json::{Entries, JsonV};
use crate::math::{Bits, Sem, TWO};
use crate::matrix::halved;
use crate::model::{
    bus_from, entry_of, linecode_from, Configuration, DistBusV, DistLineCodeV, DistNetworkV,
    DistTransformerV, VoltageSourceV, WindingV,
};
use crate::order::{get_from, get_of, put_from, put_of};
use crate::text::lower_of;

verus! {

// ---- networks that are written alike ---------------------------------------

/// What is written of two buses is the same.
pub open spec fn alike_bus(a: DistBusV, b: DistBusV) -> bool {
    &&& a.id == b.id
    &&& mrid_of(a.extras, "node"@, a.id) == mrid_of(b.extras, "node"@, b.id)
}

proof fn lemma_buses_same(d: DocV, c: DocV, n: DistNetworkV, o: DistNetworkV, k: nat)
    requires
        d.body == c.body,
        k <= n.buses.len() == o.buses.len(),
        forall|i: int| 0 <= i < n.buses.len() ==> #[trigger] alike_bus(n.buses[i], o.buses[i]),
    ensures
        buses_doc(d, n, k).body == buses_doc(c, o, k).body,
    decreases k,
{
    if k > 0 {
        lemma_buses_same(d, c, n, o, (k - 1) as nat);
        let i = k - 1;
        let a = n.buses[i];
        let b = o.buses[i];
        assert(alike_bus(n.buses[i], o.buses[i]));
        let x = buses_doc(d, n, (k - 1) as nat);
        let y = buses_doc(c, o, (k - 1) as nat);
        lemma_bus_same(x, y, a, b);
    }
}

proof fn lemma_linecodes_same(m: Sem, d: DocV, c: DocV, n: DistNetworkV, o: DistNetworkV, k: nat)
    requires
        d.body == c.body,
        k <= n.linecodes.len() == o.linecodes.len(),
        forall|i: int| 0 <= i < n.linecodes.len() ==> #[trigger] alike_code(m, n.linecodes[i], o.linecodes[i]),
    ensures
        linecodes_doc(m, d, n, k).body == linecodes_doc(m, c, o, k).body,
    decreases k,
{
    if k > 0 {
        lemma_linecodes_same(m, d, c, n, o, (k - 1) as nat);
        let i = k - 1;
        let a = n.linecodes[i];
        let b = o.linecodes[i];
        assert(alike_code(m, n.linecodes[i], o.linecodes[i]));
        let x = linecodes_doc(m, d, n, (k - 1) as nat);
        let y = linecodes_doc(m, c, o, (k - 1) as nat);
        lemma_code_same(m, x, y, a, b);
    }
}

proof fn lemma_lines_same(m: Sem, d: DocV, c: DocV, n: DistNetworkV, o: DistNetworkV, k: nat)
    requires
        d.body == c.body,
        k <= n.lines.len() == o.lines.len(),
        forall|i: int| 0 <= i < n.lines.len() ==> #[trigger] alike_line(m, n, n.lines[i], o, o.lines[i]),
    ensures
        lines_doc(m, d, n, k).body == lines_doc(m, c, o, k).body,
    decreases k,
{
    if k > 0 {
        lemma_lines_same(m, d, c, n, o, (k - 1) as nat);
        let i = k - 1;
        let a = n.lines[i];
        let b = o.lines[i];
        assert(alike_line(m, n, n.lines[i], o, o.lines[i]));
        let x = lines_doc(m, d, n, (k - 1) as nat);
        let y = lines_doc(m, c, o, (k - 1) as nat);
        lemma_line_same(m, x, y, n, a, o, b);
    }
}

proof fn lemma_loads_same(m: Sem, d: DocV, c: DocV, n: DistNetworkV, o: DistNetworkV, k: nat)
    requires
        d.body == c.body,
        k <= n.loads.len() == o.loads.len(),
        forall|i: int| 0 <= i < n.loads.len() ==> #[trigger] alike_load(n, n.loads[i], o, o.loads[i]),
    ensures
        loads_doc(m, d, n, k).body == loads_doc(m, c, o, k).body,
    decreases k,
{
    if k > 0 {
        lemma_loads_same(m, d, c, n, o, (k - 1) as nat);
        let i = k - 1;
        let a = n.loads[i];
        let b = o.loads[i];
        assert(alike_load(n, n.loads[i], o, o.loads[i]));
        let x = loads_doc(m, d, n, (k - 1) as nat);
        let y = loads_doc(m, c, o, (k - 1) as nat);
        lemma_load_same(m, x, y, n, a, o, b);
    }
}

proof fn lemma_shunts_same(m: Sem, d: DocV, c: DocV, n: DistNetworkV, o: DistNetworkV, k: nat)
    requires
        d.body == c.body,
        k <= n.shunts.len() == o.shunts.len(),
        forall|i: int| 0 <= i < n.shunts.len() ==> #[trigger] alike_shunt(n, n.shunts[i], o, o.shunts[i]),
    ensures
        shunts_doc(m, d, n, k).body == shunts_doc(m, c, o, k).body,
    decreases k,
{
    if k > 0 {
        lemma_shunts_same(m, d, c, n, o, (k - 1) as nat);
        let i = k - 1;
        let a = n.shunts[i];
        let b = o.shunts[i];
        assert(alike_shunt(n, n.shunts[i], o, o.shunts[i]));
        let x = shunts_doc(m, d, n, (k - 1) as nat);
        let y = shunts_doc(m, c, o, (k - 1) as nat);
        lemma_shunt_same(m, x, y, n, a, o, b);
    }
}

proof fn lemma_switches_same(d: DocV, c: DocV, n: DistNetworkV, o: DistNetworkV, k: nat)
    requires
        d.body == c.body,
        k <= n.switches.len() == o.switches.len(),
        forall|i: int| 0 <= i < n.switches.len() ==> #[trigger] alike_switch(n, n.switches[i], o, o.switches[i]),
    ensures
        switches_doc(d, n, k).body == switches_doc(c, o, k).body,
    decreases k,
{
    if k > 0 {
        lemma_switches_same(d, c, n, o, (k - 1) as nat);
        let i = k - 1;
        let a = n.switches[i];
        let b = o.switches[i];
        assert(alike_switch(n, n.switches[i], o, o.switches[i]));
        let x = switches_doc(d, n, (k - 1) as nat);
        let y = switches_doc(c, o, (k - 1) as nat);
        lemma_switch_same(x, y, n, a, o, b);
    }
}

proof fn lemma_transformers_same(m: Sem, d: DocV, c: DocV, n: DistNetworkV, o: DistNetworkV, k: nat)
    requires
        d.body == c.body,
        k <= n.transformers.len() == o.transformers.len(),
        forall|i: int| 0 <= i < n.transformers.len() ==> #[trigger] alike_transformer(m, n, n.transformers[i], o, o.transformers[i]),
    ensures
        transformers_doc(m, d, n, k).body == transformers_doc(m, c, o, k).body,
    decreases k,
{
    if k > 0 {
        lemma_transformers_same(m, d, c, n, o, (k - 1) as nat);
        let i = k - 1;
        let a = n.transformers[i];
        let b = o.transformers[i];
        assert(alike_transformer(m, n, n.transformers[i], o, o.transformers[i]));
        let x = transformers_doc(m, d, n, (k - 1) as nat);
        let y = transformers_doc(m, c, o, (k - 1) as nat);
        lemma_transformer_same(m, x, y, n, a, o, b);
    }
}

proof fn lemma_sources_same(m: Sem, d: DocV, c: DocV, n: DistNetworkV, o: DistNetworkV, k: nat)
    requires
        d.body == c.body,
        k <= n.sources.len() == o.sources.len(),
        forall|i: int| 0 <= i < n.sources.len() ==> #[trigger] alike_source(m, n, n.sources[i], o, o.sources[i]),
    ensures
        sources_doc(m, d, n, k).body == sources_doc(m, c, o, k).body,
    decreases k,
{
    if k > 0 {
        lemma_sources_same(m, d, c, n, o, (k - 1) as nat);
        let i = k - 1;
        let a = n.sources[i];
        let b = o.sources[i];
        assert(alike_source(m, n, n.sources[i], o, o.sources[i]));
        let x = sources_doc(m, d, n, (k - 1) as nat);
        let y = sources_doc(m, c, o, (k - 1) as nat);
        lemma_source_same(m, x, y, n, a, o, b);
    }
}

/// What is written of two networks is the same.
pub open spec fn alike(m: Sem, n: DistNetworkV, o: DistNetworkV) -> bool {
    &&& n.base_frequency == o.base_frequency
    &&& n.buses.len() == o.buses.len()
    &&& n.linecodes.len() == o.linecodes.len()
    &&& n.lines.len() == o.lines.len()
    &&& n.loads.len() == o.loads.len()
    &&& n.shunts.len() == o.shunts.len()
    &&& n.switches.len() == o.switches.len()
    &&& n.transformers.len() == o.transformers.len()
    &&& n.sources.len() == o.sources.len()
    &&& forall|i: int| 0 <= i < n.buses.len() ==> #[trigger] alike_bus(n.buses[i], o.buses[i])
    &&& forall|i: int|
        0 <= i < n.linecodes.len() ==> #[trigger] alike_code(m, n.linecodes[i], o.linecodes[i])
    &&& forall|i: int|
        0 <= i < n.lines.len() ==> #[trigger] alike_line(m, n, n.lines[i], o, o.lines[i])
    &&& forall|i: int|
        0 <= i < n.loads.len() ==> #[trigger] alike_load(n, n.loads[i], o, o.loads[i])
    &&& forall|i: int|
        0 <= i < n.shunts.len() ==> #[trigger] alike_shunt(n, n.shunts[i], o, o.shunts[i])
    &&& forall|i: int|
        0 <= i < n.switches.len() ==> #[trigger] alike_switch(n, n.switches[i], o, o.switches[i])
    &&& forall|i: int|
        0 <= i < n.transformers.len() ==> #[trigger] alike_transformer(
            m,
            n,
            n.transformers[i],
            o,
            o.transformers[i],
        )
    &&& forall|i: int|
        0 <= i < n.sources.len() ==> #[trigger] alike_source(m, n, n.sources[i], o, o.sources[i])
}

proof fn lemma_dropped_body(d: DocV, what: Seq<char>, count: nat)
    ensures
        dropped_doc(d, what, count).body == d.body,
{
    broadcast use group_body;

}

/// Networks that are alike are written as the same document.
#[verifier::rlimit(40)]
pub proof fn lemma_alike_documents(m: Sem, n: DistNetworkV, o: DistNetworkV)
    requires
        alike(m, n, o),
    ensures
        cim_xml(m, n).text == cim_xml(m, o).text,
{
    let d0 = frequency_doc(m, blank(), n);
    assert(d0 == frequency_doc(m, blank(), o));
    let d1 = buses_doc(d0, n, n.buses.len());
    let c1 = buses_doc(d0, o, o.buses.len());
    lemma_buses_same(d0, d0, n, o, n.buses.len());
    let d2 = linecodes_doc(m, d1, n, n.linecodes.len());
    let c2 = linecodes_doc(m, c1, o, o.linecodes.len());
    lemma_linecodes_same(m, d1, c1, n, o, n.linecodes.len());
    let d3 = lines_doc(m, d2, n, n.lines.len());
    let c3 = lines_doc(m, c2, o, o.lines.len());
    lemma_lines_same(m, d2, c2, n, o, n.lines.len());
    let d4 = loads_doc(m, d3, n, n.loads.len());
    let c4 = loads_doc(m, c3, o, o.loads.len());
    lemma_loads_same(m, d3, c3, n, o, n.loads.len());
    let d5 = shunts_doc(m, d4, n, n.shunts.len());
    let c5 = shunts_doc(m, c4, o, o.shunts.len());
    lemma_shunts_same(m, d4, c4, n, o, n.shunts.len());
    let d6 = switches_doc(d5, n, n.switches.len());
    let c6 = switches_doc(c5, o, o.switches.len());
    lemma_switches_same(d5, c5, n, o, n.switches.len());
    let d7 = transformers_doc(m, d6, n, n.transformers.len());
    let c7 = transformers_doc(m, c6, o, o.transformers.len());
    lemma_transformers_same(m, d6, c6, n, o, n.transformers.len());
    let d8 = sources_doc(m, d7, n, n.sources.len());
    let c8 = sources_doc(m, c7, o, o.sources.len());
    lemma_sources_same(m, d7, c7, n, o, n.sources.len());
    lemma_tail_body(d8, n);
    lemma_tail_body(c8, o);
}

/// What is dropped is reported, not written.
proof fn lemma_tail_body(d: DocV, n: DistNetworkV)
    ensures
        dropped_doc(
            dropped_doc(
                dropped_doc(
                    dropped_doc(d, "generator"@, n.generators.len()),
                    "inverter-based resource"@,
                    n.ibrs.len(),
                ),
                "control profile"@,
                n.control_profiles.len(),
            ),
            "untyped object"@,
            n.untyped.len(),
        ).body == d.body,
{
    let d1 = dropped_doc(d, "generator"@, n.generators.len());
    lemma_dropped_body(d, "generator"@, n.generators.len());
    let d2 = dropped_doc(d1, "inverter-based resource"@, n.ibrs.len());
    lemma_dropped_body(d1, "inverter-based resource"@, n.ibrs.len());
    let d3 = dropped_doc(d2, "control profile"@, n.control_profiles.len());
    lemma_dropped_body(d2, "control profile"@, n.control_profiles.len());
    lemma_dropped_body(d3, "untyped object"@, n.untyped.len());
}

// ---- what comes back is alike ----------------------------------------------

/// Two halves of a number make the number.
pub open spec fn halves(m: Sem, b: Bits) -> bool {
    m.plus(m.over(b, TWO), m.over(b, TWO)) == b
}

/// A line code goes by the identifier of its name, and its susceptance is the
/// sum of its halves.
pub open spec fn code_settled(m: Sem, lc: DistLineCodeV) -> bool {
    &&& code_id(lc) == det_mrid_of("plpi"@, lc.name)
    &&& forall|i: int, j: int|
        0 <= j <= i < lc.n_conductors ==> halves(m, #[trigger] written_b(m, lc)(i, j))
}

/// A winding is as reading gives it: a wye with the neutral, and a resistance
/// that percent and ohm lead to and from.
pub open spec fn winding_settled(m: Sem, net: DistNetworkV, w: WindingV) -> bool {
    &&& returned_map(w) == w.terminal_map
    &&& written_r(m, returned_winding(m, net, w)) == written_r(m, w)
}

pub open spec fn transformer_settled(m: Sem, net: DistNetworkV, xf: DistTransformerV) -> bool {
    &&& winding_settled(m, net, xf.windings[0])
    &&& winding_settled(m, net, xf.windings[1])
    &&& written_x(m, returned_transformer(m, net, xf)) == written_x(m, xf)
}

pub open spec fn source_settled(m: Sem, net: DistNetworkV, s: VoltageSourceV) -> bool {
    &&& with_neutral_of(s.terminal_map, Configuration::Wye) == s.terminal_map
    &&& written_voltage(m, returned_source(m, net, s)) == written_voltage(m, s)
    &&& phase_angle(m, value_or_zero(s.v_angle, 0), 0) == value_or_zero(s.v_angle, 0)
}

/// A network is as reading gives one: lines and shunts on phases only, loads
/// with the neutral where they are no deltas, both sides of a line or a switch
/// on the same wires, the line codes in the order in which lines have them, and
/// numbers that their units lead to and from.
pub open spec fn settled(m: Sem, net: DistNetworkV) -> bool {
    &&& returned_codes(m, net, net.lines.len()) == Seq::new(
        net.linecodes.len(),
        |i: int| returned_code(m, net.linecodes[i]),
    )
    &&& forall|i: int|
        0 <= i < net.linecodes.len() ==> code_settled(m, #[trigger] net.linecodes[i])
    &&& forall|i: int|
        0 <= i < net.lines.len() ==> {
            let line = #[trigger] net.lines[i];
            &&& hot_of(line.terminal_map_from) == line.terminal_map_from
            &&& line.terminal_map_to == line.terminal_map_from
        }
    &&& forall|i: int|
        0 <= i < net.loads.len() ==> {
            let load = #[trigger] net.loads[i];
            with_neutral_of(hot_of(load.terminal_map), load.configuration) == load.terminal_map
        }
    &&& forall|i: int|
        0 <= i < net.shunts.len() ==> {
            let shunt = #[trigger] net.shunts[i];
            hot_of(shunt.terminal_map) == shunt.terminal_map
        }
    &&& forall|i: int|
        0 <= i < net.switches.len() ==> {
            let s = #[trigger] net.switches[i];
            s.terminal_map_to == s.terminal_map_from
        }
    &&& forall|i: int|
        0 <= i < net.transformers.len() ==> transformer_settled(
            m,
            net,
            #[trigger] net.transformers[i],
        )
    &&& forall|i: int|
        0 <= i < net.sources.len() ==> source_settled(m, net, #[trigger] net.sources[i])
}

/// An element that was imported under an identifier is written under it.
proof fn lemma_imported_id(id: Seq<char>, kind: Seq<char>, name: Seq<char>)
    ensures
        mrid_of(imported(id), kind, name) == id,
{
    reveal(put_of);
    reveal(get_of);
    let e = Entries::empty();
    assert(put_from(e, "cim_mrid"@, JsonV::Str(id), 0) == e.push(("cim_mrid"@, JsonV::Str(id))));
    assert(get_from(imported(id), "cim_mrid"@, 0) == Some(JsonV::Str(id)));
}

proof fn lemma_bus_again(a: Seq<DistBusV>, b: Seq<DistBusV>, x: Seq<char>, i: int)
    requires
        0 <= i,
        a.len() == b.len(),
        forall|k: int| 0 <= k < a.len() ==> alike_bus(#[trigger] a[k], b[k]),
        bus_from(a, x, i) is Some,
    ensures
        bus_from(b, bus_from(a, x, i)->0.id, i) is Some,
        alike_bus(bus_from(a, x, i)->0, bus_from(b, bus_from(a, x, i)->0.id, i)->0),
        lower_of(bus_from(a, x, i)->0.id) == lower_of(x),
    decreases a.len() - i,
{
    assert(i < a.len());
    assert(alike_bus(a[i], b[i]));
    if lower_of(a[i].id) != lower_of(x) {
        lemma_bus_again(a, b, x, i + 1);
    }
}

/// The node of a bus, by the name it comes back with.
proof fn lemma_node_again(n: DistNetworkV, o: DistNetworkV, x: Seq<char>)
    requires
        n.buses.len() == o.buses.len(),
        forall|k: int| 0 <= k < n.buses.len() ==> alike_bus(#[trigger] n.buses[k], o.buses[k]),
        n.bus(x) is Some,
    ensures
        node_of(o, n.bus(x)->0.id) == node_of(n, x),
{
    lemma_bus_again(n.buses, o.buses, x, 0);
}

proof fn lemma_code_again(a: Seq<DistLineCodeV>, b: Seq<DistLineCodeV>, x: Seq<char>, i: int)
    requires
        0 <= i,
        a.len() == b.len(),
        forall|k: int|
            0 <= k < a.len() ==> (#[trigger] a[k]).name == b[k].name && code_id(a[k]) == code_id(
                b[k],
            ),
        linecode_from(a, x, i) is Some,
    ensures
        linecode_from(b, linecode_from(a, x, i)->0.name, i) is Some,
        code_id(linecode_from(b, linecode_from(a, x, i)->0.name, i)->0) == code_id(
            linecode_from(a, x, i)->0,
        ),
        lower_of(linecode_from(a, x, i)->0.name) == lower_of(x),
    decreases a.len() - i,
{
    assert(i < a.len());
    assert(a[i].name == b[i].name);
    if lower_of(a[i].name) != lower_of(x) {
        lemma_code_again(a, b, x, i + 1);
    }
}

proof fn lemma_returned_code_alike(m: Sem, lc: DistLineCodeV)
    requires
        code_settled(m, lc),
    ensures
        alike_code(m, lc, returned_code(m, lc)),
{
    let b = returned_code(m, lc);
    let n = lc.n_conductors as nat;
    let t = returned_triple(m, lc);
    assert(b.n_conductors == lc.n_conductors);
    assert(get_of(Entries::empty(), "cim_mrid"@) is None) by {
        reveal(get_of);
    }
    assert forall|i: int, j: int| 0 <= j <= i < lc.n_conductors implies #[trigger] alike_cell(
        m,
        lc,
        b,
        i,
        j,
    ) by {
        assert(t.r[i][j] == lc.r_series[i][j]);
        assert(t.x[i][j] == lc.x_series[i][j]);
        let half = halved(m, t.b);
        assert(half[i][j] == m.over(written_b(m, lc)(i, j), TWO));
        assert(halves(m, written_b(m, lc)(i, j)));
    }
}

/// What comes back of a settled network is written alike.
#[verifier::rlimit(40)]
pub proof fn lemma_returned_is_alike(m: Sem, net: DistNetworkV)
    requires
        stands(m, net),
        settled(m, net),
    ensures
        alike(m, net, returned_network(m, net)),
{
    let back = returned_network(m, net);
    let e = returned_elements(m, net);
    assert forall|i: int| 0 <= i < net.buses.len() implies #[trigger] alike_bus(
        net.buses[i],
        back.buses[i],
    ) by {
        let b = net.buses[i];
        assert(back.buses[i] == returned_bus(b, e));
        lemma_imported_id(mrid_of(b.extras, "node"@, b.id), "node"@, b.id);
    }
    assert forall|i: int| 0 <= i < net.linecodes.len() implies #[trigger] alike_code(
        m,
        net.linecodes[i],
        back.linecodes[i],
    ) by {
        assert(back.linecodes[i] == returned_code(m, net.linecodes[i]));
        lemma_returned_code_alike(m, net.linecodes[i]);
    }
    lemma_returned_lines(m, net, back);
    lemma_returned_loads(m, net, back);
    lemma_returned_shunts(m, net, back);
    lemma_returned_switches(m, net, back);
    lemma_returned_transformers(m, net, back);
    lemma_returned_sources(m, net, back);
}

/// Buses and line codes that are written alike.
pub open spec fn alike_ground(m: Sem, n: DistNetworkV, o: DistNetworkV) -> bool {
    &&& n.buses.len() == o.buses.len()
    &&& n.linecodes.len() == o.linecodes.len()
    &&& forall|i: int| 0 <= i < n.buses.len() ==> #[trigger] alike_bus(n.buses[i], o.buses[i])
    &&& forall|i: int|
        0 <= i < n.linecodes.len() ==> #[trigger] alike_code(m, n.linecodes[i], o.linecodes[i])
}

proof fn lemma_nodes_again(m: Sem, n: DistNetworkV, o: DistNetworkV, x: Seq<char>)
    requires
        alike_ground(m, n, o),
        n.bus(x) is Some,
    ensures
        node_of(n, x) == node_of(o, n.bus(x)->0.id),
{
    assert forall|k: int| 0 <= k < n.buses.len() implies alike_bus(
        #[trigger] n.buses[k],
        o.buses[k],
    ) by {
        assert(alike_bus(n.buses[k], o.buses[k]));
    }
    lemma_node_again(n, o, x);
}

#[verifier::rlimit(40)]
proof fn lemma_returned_lines(m: Sem, net: DistNetworkV, back: DistNetworkV)
    requires
        stands(m, net),
        settled(m, net),
        back == returned_network(m, net),
        alike_ground(m, net, back),
    ensures
        forall|i: int|
            0 <= i < net.lines.len() ==> #[trigger] alike_line(
                m,
                net,
                net.lines[i],
                back,
                back.lines[i],
            ),
{
    assert forall|i: int| 0 <= i < net.lines.len() implies #[trigger] alike_line(
        m,
        net,
        net.lines[i],
        back,
        back.lines[i],
    ) by {
        let a = net.lines[i];
        assert(line_coded(m, net, a));
        assert(back.lines[i] == returned_line(net, a));
        lemma_imported_id(mrid_of(a.extras, "line"@, a.name), "line"@, a.name);
        lemma_nodes_again(m, net, back, a.bus_from);
        lemma_nodes_again(m, net, back, a.bus_to);
        assert forall|k: int| 0 <= k < net.linecodes.len() implies (#[trigger] net.linecodes[k]).name
            == back.linecodes[k].name && code_id(net.linecodes[k]) == code_id(
            back.linecodes[k],
        ) by {
            assert(alike_code(m, net.linecodes[k], back.linecodes[k]));
        }
        lemma_code_again(net.linecodes, back.linecodes, a.linecode, 0);
    }
}

#[verifier::rlimit(40)]
proof fn lemma_returned_loads(m: Sem, net: DistNetworkV, back: DistNetworkV)
    requires
        stands(m, net),
        settled(m, net),
        back == returned_network(m, net),
        alike_ground(m, net, back),
    ensures
        forall|i: int|
            0 <= i < net.loads.len() ==> #[trigger] alike_load(
                net,
                net.loads[i],
                back,
                back.loads[i],
            ),
{
    assert forall|i: int| 0 <= i < net.loads.len() implies #[trigger] alike_load(
        net,
        net.loads[i],
        back,
        back.loads[i],
    ) by {
        let a = net.loads[i];
        assert(load_stands(m, net, a));
        assert(back.loads[i] == returned_load(net, a));
        lemma_phases_are_hot(a.terminal_map, a.terminal_map.len());
        lemma_imported_id(mrid_of(a.extras, "load"@, a.name), "load"@, a.name);
        lemma_nodes_again(m, net, back, a.bus);
    }
}

#[verifier::rlimit(40)]
proof fn lemma_returned_shunts(m: Sem, net: DistNetworkV, back: DistNetworkV)
    requires
        stands(m, net),
        settled(m, net),
        back == returned_network(m, net),
        alike_ground(m, net, back),
    ensures
        forall|i: int|
            0 <= i < net.shunts.len() ==> #[trigger] alike_shunt(
                net,
                net.shunts[i],
                back,
                back.shunts[i],
            ),
{
    assert forall|i: int| 0 <= i < net.shunts.len() implies #[trigger] alike_shunt(
        net,
        net.shunts[i],
        back,
        back.shunts[i],
    ) by {
        let a = net.shunts[i];
        assert(shunt_stands(m, net, a));
        let b = back.shunts[i];
        assert(b == returned_shunt(net, a));
        lemma_imported_id(mrid_of(a.extras, "shunt"@, a.name), "shunt"@, a.name);
        lemma_nodes_again(m, net, back, a.bus);
        assert(hot_of(a.terminal_map) == a.terminal_map);
        let n = a.terminal_map.len();
        assert forall|k: int| 0 <= k < n implies #[trigger] entry_of(a.g, k, k) == entry_of(
            b.g,
            k,
            k,
        ) by {
            assert(b.g[k][k] == diagonal_at(a.g, n)[k]);
        }
        assert forall|k: int| 0 <= k < n implies #[trigger] entry_of(a.b, k, k) == entry_of(
            b.b,
            k,
            k,
        ) by {
            assert(b.b[k][k] == diagonal_at(a.b, n)[k]);
        }
    }
}

#[verifier::rlimit(40)]
proof fn lemma_returned_switches(m: Sem, net: DistNetworkV, back: DistNetworkV)
    requires
        stands(m, net),
        settled(m, net),
        back == returned_network(m, net),
        alike_ground(m, net, back),
    ensures
        forall|i: int|
            0 <= i < net.switches.len() ==> #[trigger] alike_switch(
                net,
                net.switches[i],
                back,
                back.switches[i],
            ),
{
    assert forall|i: int| 0 <= i < net.switches.len() implies #[trigger] alike_switch(
        net,
        net.switches[i],
        back,
        back.switches[i],
    ) by {
        let a = net.switches[i];
        assert(switch_stands(net, a));
        assert(back.switches[i] == returned_switch(net, a));
        lemma_imported_id(mrid_of(a.extras, "switch"@, a.name), "switch"@, a.name);
        lemma_nodes_again(m, net, back, a.bus_from);
        lemma_nodes_again(m, net, back, a.bus_to);
    }
}

proof fn lemma_returned_winding(m: Sem, net: DistNetworkV, w: WindingV)
    ensures
        ({
            let r = returned_winding(m, net, w);
            &&& r.bus == net.bus(w.bus)->0.id
            &&& r.terminal_map == returned_map(w)
            &&& r.conn == w.conn
            &&& r.v_ref == w.v_ref
            &&& r.s_rating == w.s_rating
        }),
{
}

#[verifier::rlimit(40)]
proof fn lemma_returned_transformer(
    m: Sem,
    net: DistNetworkV,
    back: DistNetworkV,
    a: DistTransformerV,
)
    requires
        alike_ground(m, net, back),
        transformer_stands(m, net, a),
        transformer_settled(m, net, a),
    ensures
        alike_transformer(m, net, a, back, returned_transformer(m, net, a)),
{
    let b = returned_transformer(m, net, a);
    lemma_imported_id(mrid_of(a.extras, "xf"@, a.name), "xf"@, a.name);
    lemma_nodes_again(m, net, back, a.windings[0].bus);
    lemma_nodes_again(m, net, back, a.windings[1].bus);
    lemma_returned_winding(m, net, a.windings[0]);
    lemma_returned_winding(m, net, a.windings[1]);
    assert(b.windings[0] == returned_winding(m, net, a.windings[0]));
    assert(b.windings[1] == returned_winding(m, net, a.windings[1]));
    assert(alike_winding(m, net, a, back, b, 0));
    assert(alike_winding(m, net, a, back, b, 1));
}

#[verifier::rlimit(40)]
proof fn lemma_returned_transformers(m: Sem, net: DistNetworkV, back: DistNetworkV)
    requires
        stands(m, net),
        settled(m, net),
        back == returned_network(m, net),
        alike_ground(m, net, back),
    ensures
        forall|i: int|
            0 <= i < net.transformers.len() ==> #[trigger] alike_transformer(
                m,
                net,
                net.transformers[i],
                back,
                back.transformers[i],
            ),
{
    assert forall|i: int| 0 <= i < net.transformers.len() implies #[trigger] alike_transformer(
        m,
        net,
        net.transformers[i],
        back,
        back.transformers[i],
    ) by {
        let a = net.transformers[i];
        let b = back.transformers[i];
        assert(transformer_stands(m, net, a));
        assert(transformer_settled(m, net, a));
        assert(b == returned_transformer(m, net, a));
        lemma_returned_transformer(m, net, back, a);
    }
}

#[verifier::rlimit(40)]
proof fn lemma_returned_sources(m: Sem, net: DistNetworkV, back: DistNetworkV)
    requires
        stands(m, net),
        settled(m, net),
        back == returned_network(m, net),
        alike_ground(m, net, back),
    ensures
        forall|i: int|
            0 <= i < net.sources.len() ==> #[trigger] alike_source(
                m,
                net,
                net.sources[i],
                back,
                back.sources[i],
            ),
{
    assert forall|i: int| 0 <= i < net.sources.len() implies #[trigger] alike_source(
        m,
        net,
        net.sources[i],
        back,
        back.sources[i],
    ) by {
        let a = net.sources[i];
        assert(source_stands(m, net, a));
        assert(source_settled(m, net, a));
        assert(back.sources[i] == returned_source(m, net, a));
        lemma_imported_id(mrid_of(a.extras, "source"@, a.name), "source"@, a.name);
        lemma_nodes_again(m, net, back, a.bus);
    }
}

// ---- transformers that are not written -------------------------------------

/// The transformers among the first `n` that have two windings: those that are
/// written.
pub open spec fn wound_n(s: Seq<DistTransformerV>, n: nat) -> Seq<DistTransformerV>
    decreases n,
{
    if n == 0 {
        seq![]
    } else if s[n - 1].windings.len() == 2 {
        wound_n(s, (n - 1) as nat).push(s[n - 1])
    } else {
        wound_n(s, (n - 1) as nat)
    }
}

/// A network without the transformers that are not written.
pub open spec fn wound(net: DistNetworkV) -> DistNetworkV {
    DistNetworkV { transformers: wound_n(net.transformers, net.transformers.len()), ..net }
}

proof fn lemma_wound_prefix(s: Seq<DistTransformerV>, k: nat, n: nat)
    requires
        k <= n <= s.len(),
    ensures
        wound_n(s, k).len() <= wound_n(s, n).len(),
        forall|i: int| 0 <= i < wound_n(s, k).len() ==> #[trigger] wound_n(s, k)[i] == wound_n(
            s,
            n,
        )[i],
    decreases n,
{
    if k < n {
        lemma_wound_prefix(s, k, (n - 1) as nat);
    }
}

/// Transformers are written one by one, whatever follows in the list.
proof fn lemma_wound_body(m: Sem, d: DocV, c: DocV, net: DistNetworkV, k: nat)
    requires
        d.body == c.body,
        k <= net.transformers.len(),
    ensures
        transformers_doc(m, d, net, k).body == transformers_doc(
            m,
            c,
            wound(net),
            wound_n(net.transformers, k).len(),
        ).body,
    decreases k,
{
    broadcast use group_body;

    if k > 0 {
        let o = wound(net);
        lemma_wound_body(m, d, c, net, (k - 1) as nat);
        lemma_wound_prefix(net.transformers, k, net.transformers.len());
        let xf = net.transformers[k - 1];
        let x = transformers_doc(m, d, net, (k - 1) as nat);
        if xf.windings.len() == 2 {
            let j = (wound_n(net.transformers, k).len() - 1) as nat;
            let y = transformers_doc(m, c, o, j);
            assert(wound_n(net.transformers, k)[j as int] == xf);
            assert(o.transformers[j as int] == xf);
            assert(alike_transformer(m, net, xf, o, xf));
            lemma_transformer_same(m, x, y, net, xf, o, xf);
        }
    }
}

/// The buses and the line codes are where they were.
proof fn lemma_wound_seats(net: DistNetworkV)
    ensures
        forall|b: Seq<char>| #[trigger] node_of(wound(net), b) == node_of(net, b),
        forall|b: Seq<char>| #[trigger] wound(net).linecode(b) == net.linecode(b),
{
    let o = wound(net);
    assert forall|b: Seq<char>| #[trigger] node_of(o, b) == node_of(net, b) by {
        assert(net.bus(b) == o.bus(b));
    }
}

proof fn lemma_lines_of_wound(m: Sem, d: DocV, net: DistNetworkV, k: nat)
    requires
        k <= net.lines.len(),
    ensures
        lines_doc(m, d, wound(net), k) == lines_doc(m, d, net, k),
    decreases k,
{
    if k > 0 {
        let o = wound(net);
        lemma_lines_of_wound(m, d, net, (k - 1) as nat);
        lemma_wound_seats(net);
        let x = lines_doc(m, d, net, (k - 1) as nat);
        let e = net.lines[k - 1];
        assert(o.lines[k - 1] == e);
        assert(line_doc(m, x, o, e) == line_doc(m, x, net, e));
    }
}

proof fn lemma_loads_of_wound(m: Sem, d: DocV, net: DistNetworkV, k: nat)
    requires
        k <= net.loads.len(),
    ensures
        loads_doc(m, d, wound(net), k) == loads_doc(m, d, net, k),
    decreases k,
{
    if k > 0 {
        let o = wound(net);
        lemma_loads_of_wound(m, d, net, (k - 1) as nat);
        lemma_wound_seats(net);
        let x = loads_doc(m, d, net, (k - 1) as nat);
        let e = net.loads[k - 1];
        assert(o.loads[k - 1] == e);
        assert(load_doc(m, x, o, e) == load_doc(m, x, net, e));
    }
}

proof fn lemma_shunts_of_wound(m: Sem, d: DocV, net: DistNetworkV, k: nat)
    requires
        k <= net.shunts.len(),
    ensures
        shunts_doc(m, d, wound(net), k) == shunts_doc(m, d, net, k),
    decreases k,
{
    if k > 0 {
        let o = wound(net);
        lemma_shunts_of_wound(m, d, net, (k - 1) as nat);
        lemma_wound_seats(net);
        let x = shunts_doc(m, d, net, (k - 1) as nat);
        let e = net.shunts[k - 1];
        assert(o.shunts[k - 1] == e);
        assert(shunt_doc(m, x, o, e) == shunt_doc(m, x, net, e));
    }
}

proof fn lemma_switches_of_wound(m: Sem, d: DocV, net: DistNetworkV, k: nat)
    requires
        k <= net.switches.len(),
    ensures
        switches_doc(d, wound(net), k) == switches_doc(d, net, k),
    decreases k,
{
    if k > 0 {
        let o = wound(net);
        lemma_switches_of_wound(m, d, net, (k - 1) as nat);
        lemma_wound_seats(net);
        let x = switches_doc(d, net, (k - 1) as nat);
        let e = net.switches[k - 1];
        assert(o.switches[k - 1] == e);
        assert(switch_doc(x, o, e) == switch_doc(x, net, e));
    }
}

proof fn lemma_sources_of_wound(m: Sem, d: DocV, c: DocV, net: DistNetworkV)
    requires
        d.body == c.body,
    ensures
        sources_doc(m, d, net, net.sources.len()).body == sources_doc(
            m,
            c,
            wound(net),
            net.sources.len(),
        ).body,
{
    let o = wound(net);
    lemma_wound_seats(net);
    assert forall|i: int| 0 <= i < net.sources.len() implies #[trigger] alike_source(
        m,
        net,
        net.sources[i],
        o,
        o.sources[i],
    ) by {}
    lemma_sources_same(m, d, c, net, o, net.sources.len());
}

proof fn lemma_buses_of_wound(d: DocV, net: DistNetworkV, k: nat)
    requires
        k <= net.buses.len(),
    ensures
        buses_doc(d, wound(net), k) == buses_doc(d, net, k),
    decreases k,
{
    if k > 0 {
        lemma_buses_of_wound(d, net, (k - 1) as nat);
    }
}

proof fn lemma_linecodes_of_wound(m: Sem, d: DocV, net: DistNetworkV, k: nat)
    requires
        k <= net.linecodes.len(),
    ensures
        linecodes_doc(m, d, wound(net), k) == linecodes_doc(m, d, net, k),
    decreases k,
{
    if k > 0 {
        lemma_linecodes_of_wound(m, d, net, (k - 1) as nat);
    }
}

/// A transformer that is not written leaves the text as it is.
#[verifier::rlimit(40)]
pub proof fn lemma_wound_text(m: Sem, net: DistNetworkV)
    ensures
        cim_xml(m, wound(net)).text == cim_xml(m, net).text,
{
    let o = wound(net);
    let d0 = frequency_doc(m, blank(), net);
    assert(frequency_doc(m, blank(), o) == d0);
    lemma_buses_of_wound(d0, net, net.buses.len());
    let d1 = buses_doc(d0, net, net.buses.len());
    lemma_linecodes_of_wound(m, d1, net, net.linecodes.len());
    let d2 = linecodes_doc(m, d1, net, net.linecodes.len());
    lemma_lines_of_wound(m, d2, net, net.lines.len());
    let d3 = lines_doc(m, d2, net, net.lines.len());
    lemma_loads_of_wound(m, d3, net, net.loads.len());
    let d4 = loads_doc(m, d3, net, net.loads.len());
    lemma_shunts_of_wound(m, d4, net, net.shunts.len());
    let d5 = shunts_doc(m, d4, net, net.shunts.len());
    lemma_switches_of_wound(m, d5, net, net.switches.len());
    let d6 = switches_doc(d5, net, net.switches.len());
    lemma_wound_body(m, d6, d6, net, net.transformers.len());
    let d7 = transformers_doc(m, d6, net, net.transformers.len());
    let c7 = transformers_doc(m, d6, o, o.transformers.len());
    lemma_sources_of_wound(m, d7, c7, net);
    let d8 = sources_doc(m, d7, net, net.sources.len());
    let c8 = sources_doc(m, c7, o, net.sources.len());
    lemma_tail_body(d8, net);
    lemma_tail_body(c8, o);
}

/// Writing is stable: what is written of a network that is as reading gives one
/// reads back as a network of which the same text is written, letter for letter.
/// Where a unit does not lead back to the number it came from, as percent of an
/// impedance base may not, the network is not settled. A transformer that does
/// not have two windings is not written, and nothing is asked of it.
pub proof fn lemma_second_write_is_the_first(m: Sem, net: DistNetworkV)
    requires
        safe_ids(wound(net)),
        told_apart(m, wound(net)),
        stands(m, wound(net)),
        settled(m, wound(net)),
    ensures
        cim_text(m, cim_xml(m, net).text) matches Ok(back) && cim_xml(m, back).text == cim_xml(
            m,
            net,
        ).text,
{
    let o = wound(net);
    lemma_wound_text(m, net);
    lemma_network_reads_back(m, o);
    lemma_returned_is_alike(m, o);
    lemma_alike_documents(m, o, returned_network(m, o));
}

} // verus!
