//! Networks of which the same document is written.

use vstd::prelude::*;

use crate::cim::apparatus::written_voltage;
use crate::cim::codes::written_b;
use crate::cim::ends::{written_r, written_x};
use crate::cim::round_trip::code_id;
use crate::cim::wires::lemma_phases_are_hot;
use crate::cim::write::{
    bool_text, bus_doc, cell_doc, connection_of, det_mrid_of, line_doc, line_phase_doc,
    line_phases_doc, linecode_doc, load_doc, load_phase_doc, load_phases_doc, mrid_of, node_of,
    phase_code_of, phases_n, row_doc, shunt_doc, shunt_phase_doc, shunt_phases_doc, source_doc,
    switch_doc, transformer_doc, triangle_doc, value_or_zero, winding_doc, windings_doc, DocV,
};
use crate::json::Entries;
use crate::math::{Bits, Sem};
use crate::model::{
    bus_from, entry_of, DistBusV, DistLineCodeV, DistLineV, DistLoadV, DistNetworkV, DistShuntV,
    DistSwitchV, DistTransformerV, VoltageSourceV,
};
use crate::numeral::dec_of;

verus! {

// ---- text by pieces --------------------------------------------------------

/// A document without anything in it.
pub open spec fn blank() -> DocV {
    DocV { body: seq![], warnings: seq![], objects: seq![], object: None }
}

pub broadcast proof fn lemma_open_body(d: DocV, class: Seq<char>, id: Seq<char>)
    ensures
        (#[trigger] d.open(class, id)).body == d.body + blank().open(class, id).body,
{
    reveal(DocV::open);
    assert(d.open(class, id).body =~= d.body + blank().open(class, id).body);
}

pub broadcast proof fn lemma_close_body(d: DocV, class: Seq<char>)
    ensures
        (#[trigger] d.close(class)).body == d.body + blank().close(class).body,
{
    reveal(DocV::close);
    assert(d.close(class).body =~= d.body + blank().close(class).body);
}

pub broadcast proof fn lemma_text_body(d: DocV, prop: Seq<char>, value: Seq<char>)
    ensures
        (#[trigger] d.text(prop, value)).body == d.body + blank().text(prop, value).body,
{
    reveal(DocV::text);
    assert(d.text(prop, value).body =~= d.body + blank().text(prop, value).body);
}

pub broadcast proof fn lemma_reference_body(d: DocV, prop: Seq<char>, target: Seq<char>)
    ensures
        (#[trigger] d.reference(prop, target)).body == d.body + blank().reference(
            prop,
            target,
        ).body,
{
    reveal(DocV::reference);
    assert(d.reference(prop, target).body =~= d.body + blank().reference(prop, target).body);
}

pub broadcast proof fn lemma_enumeration_body(d: DocV, prop: Seq<char>, value: Seq<char>)
    ensures
        (#[trigger] d.enumeration(prop, value)).body == d.body + blank().enumeration(
            prop,
            value,
        ).body,
{
    reveal(DocV::enumeration);
    assert(d.enumeration(prop, value).body =~= d.body + blank().enumeration(prop, value).body);
}

pub broadcast proof fn lemma_warn_body(d: DocV, s: Seq<char>)
    ensures
        (#[trigger] d.warn(s)).body == d.body,
{
    reveal(DocV::warn);
}

pub broadcast proof fn lemma_extras_body(d: DocV, kind: Seq<char>, name: Seq<char>, e: Entries)
    ensures
        (#[trigger] d.warn_extras(kind, name, e)).body == d.body,
{
    reveal(DocV::warn_extras);
    reveal(DocV::warn);
}

pub broadcast group group_body {
    lemma_open_body,
    lemma_close_body,
    lemma_text_body,
    lemma_reference_body,
    lemma_enumeration_body,
    lemma_warn_body,
    lemma_extras_body,
}

pub proof fn lemma_named_same(d: DocV, c: DocV, class: Seq<char>, id: Seq<char>, name: Seq<char>)
    requires
        d.body == c.body,
    ensures
        d.named(class, id, name).body == c.named(class, id, name).body,
{
    broadcast use group_body;

    reveal(DocV::named);
}

pub proof fn lemma_terminal_same(
    d: DocV,
    c: DocV,
    owner: Seq<char>,
    seq: nat,
    node: Seq<char>,
    code: Seq<char>,
)
    requires
        d.body == c.body,
    ensures
        d.terminal(owner, seq, node, code).body == c.terminal(owner, seq, node, code).body,
{
    broadcast use group_body;

    reveal(DocV::terminal);
}

// ---- elements that are written alike ---------------------------------------

pub proof fn lemma_bus_same(d: DocV, c: DocV, a: DistBusV, b: DistBusV)
    requires
        d.body == c.body,
        a.id == b.id,
        mrid_of(a.extras, "node"@, a.id) == mrid_of(b.extras, "node"@, b.id),
    ensures
        bus_doc(d, a).body == bus_doc(c, b).body,
{
    broadcast use group_body;

    lemma_named_same(d, c, "ConnectivityNode"@, mrid_of(a.extras, "node"@, a.id), a.id);
}

/// What is written of two line codes is the same.
pub open spec fn alike_code(m: Sem, a: DistLineCodeV, b: DistLineCodeV) -> bool {
    &&& a.name == b.name
    &&& code_id(a) == code_id(b)
    &&& a.n_conductors == b.n_conductors
    &&& forall|i: int, j: int|
        0 <= j <= i < a.n_conductors ==> #[trigger] alike_cell(m, a, b, i, j)
}

pub open spec fn alike_cell(m: Sem, a: DistLineCodeV, b: DistLineCodeV, i: int, j: int) -> bool {
    &&& a.r_series[i][j] == b.r_series[i][j]
    &&& a.x_series[i][j] == b.x_series[i][j]
    &&& written_b(m, a)(i, j) == written_b(m, b)(i, j)
}

pub proof fn lemma_cell_same(
    m: Sem,
    d: DocV,
    c: DocV,
    a: DistLineCodeV,
    b: DistLineCodeV,
    id: Seq<char>,
    i: nat,
    j: nat,
)
    requires
        d.body == c.body,
        a.name == b.name,
        alike_cell(m, a, b, i as int, j as int),
    ensures
        cell_doc(m, d, a, id, i, j).body == cell_doc(m, c, b, id, i, j).body,
{
    broadcast use group_body;

}

pub proof fn lemma_row_same(
    m: Sem,
    d: DocV,
    c: DocV,
    a: DistLineCodeV,
    b: DistLineCodeV,
    id: Seq<char>,
    i: nat,
    j: nat,
)
    requires
        d.body == c.body,
        alike_code(m, a, b),
        i < a.n_conductors,
        j <= i + 1,
    ensures
        row_doc(m, d, a, id, i, j).body == row_doc(m, c, b, id, i, j).body,
    decreases j,
{
    if j > 0 {
        let k = (j - 1) as nat;
        lemma_row_same(m, d, c, a, b, id, i, k);
        assert(alike_cell(m, a, b, i as int, k as int));
        lemma_cell_same(
            m,
            row_doc(m, d, a, id, i, k),
            row_doc(m, c, b, id, i, k),
            a,
            b,
            id,
            i,
            k,
        );
    }
}

pub proof fn lemma_triangle_same(
    m: Sem,
    d: DocV,
    c: DocV,
    a: DistLineCodeV,
    b: DistLineCodeV,
    id: Seq<char>,
    i: nat,
)
    requires
        d.body == c.body,
        alike_code(m, a, b),
        i <= a.n_conductors,
    ensures
        triangle_doc(m, d, a, id, i).body == triangle_doc(m, c, b, id, i).body,
    decreases i,
{
    if i > 0 {
        let k = (i - 1) as nat;
        lemma_triangle_same(m, d, c, a, b, id, k);
        lemma_row_same(
            m,
            triangle_doc(m, d, a, id, k),
            triangle_doc(m, c, b, id, k),
            a,
            b,
            id,
            k,
            i,
        );
    }
}

#[verifier::rlimit(40)]
pub proof fn lemma_code_same(m: Sem, d: DocV, c: DocV, a: DistLineCodeV, b: DistLineCodeV)
    requires
        d.body == c.body,
        alike_code(m, a, b),
    ensures
        linecode_doc(m, d, a).body == linecode_doc(m, c, b).body,
{
    broadcast use group_body;

    let id = code_id(a);
    let class = "PerLengthPhaseImpedance"@;
    lemma_named_same(d, c, class, id, a.name);
    let x = d.named(class, id, a.name).text(
        "PerLengthPhaseImpedance.conductorCount"@,
        dec_of(a.n_conductors as nat),
    ).close(class);
    let y = c.named(class, id, a.name).text(
        "PerLengthPhaseImpedance.conductorCount"@,
        dec_of(a.n_conductors as nat),
    ).close(class);
    assert(x.body == y.body);
    lemma_triangle_same(m, x, y, a, b, id, a.n_conductors as nat);
}

/// What is written of two lines is the same.
pub open spec fn alike_line(
    m: Sem,
    n: DistNetworkV,
    a: DistLineV,
    o: DistNetworkV,
    b: DistLineV,
) -> bool {
    &&& a.name == b.name
    &&& mrid_of(a.extras, "line"@, a.name) == mrid_of(b.extras, "line"@, b.name)
    &&& a.length == b.length
    &&& n.linecode(a.linecode) is Some
    &&& o.linecode(b.linecode) is Some
    &&& code_id(n.linecode(a.linecode)->0) == code_id(o.linecode(b.linecode)->0)
    &&& node_of(n, a.bus_from) == node_of(o, b.bus_from)
    &&& node_of(n, a.bus_to) == node_of(o, b.bus_to)
    &&& a.terminal_map_from == b.terminal_map_from
    &&& a.terminal_map_to == b.terminal_map_to
}

pub proof fn lemma_line_phase_same(
    d: DocV,
    c: DocV,
    name: Seq<char>,
    id: Seq<char>,
    phase: Seq<char>,
    n: nat,
)
    requires
        d.body == c.body,
    ensures
        line_phase_doc(d, name, id, phase, n).body == line_phase_doc(c, name, id, phase, n).body,
{
    broadcast use group_body;

    lemma_named_same(
        d,
        c,
        "ACLineSegmentPhase"@,
        det_mrid_of("linephase"@, name + ":"@ + phase),
        name + "_"@ + phase,
    );
}

pub proof fn lemma_line_phases_same(
    d: DocV,
    c: DocV,
    name: Seq<char>,
    id: Seq<char>,
    phases: Seq<Seq<char>>,
    n: nat,
)
    requires
        d.body == c.body,
    ensures
        line_phases_doc(d, name, id, phases, n).body == line_phases_doc(
            c,
            name,
            id,
            phases,
            n,
        ).body,
    decreases n,
{
    if n > 0 {
        let k = (n - 1) as nat;
        lemma_line_phases_same(d, c, name, id, phases, k);
        lemma_line_phase_same(
            line_phases_doc(d, name, id, phases, k),
            line_phases_doc(c, name, id, phases, k),
            name,
            id,
            phases[n - 1],
            k,
        );
    }
}

#[verifier::rlimit(40)]
pub proof fn lemma_line_same(
    m: Sem,
    d: DocV,
    c: DocV,
    n: DistNetworkV,
    a: DistLineV,
    o: DistNetworkV,
    b: DistLineV,
)
    requires
        d.body == c.body,
        alike_line(m, n, a, o, b),
    ensures
        line_doc(m, d, n, a).body == line_doc(m, c, o, b).body,
{
    broadcast use group_body;

    let id = mrid_of(a.extras, "line"@, a.name);
    let class = "ACLineSegment"@;
    let pli = code_id(n.linecode(a.linecode)->0);
    lemma_named_same(d, c, class, id, a.name);
    let x = d.named(class, id, a.name).text("Conductor.length"@, (m.show)(a.length)).reference(
        "ACLineSegment.PerLengthImpedance"@,
        pli,
    ).close(class);
    let y = c.named(class, id, a.name).text("Conductor.length"@, (m.show)(a.length)).reference(
        "ACLineSegment.PerLengthImpedance"@,
        pli,
    ).close(class);
    assert(x.body == y.body);
    let from = node_of(n, a.bus_from);
    let to = node_of(n, a.bus_to);
    let code = phase_code_of(a.terminal_map_from);
    let other = phase_code_of(a.terminal_map_to);
    lemma_terminal_same(x, y, id, 1, from, code);
    let x2 = x.terminal(id, 1, from, code);
    let y2 = y.terminal(id, 1, from, code);
    lemma_terminal_same(x2, y2, id, 2, to, other);
    let phases = phases_n(a.terminal_map_from, a.terminal_map_from.len());
    lemma_line_phases_same(
        x2.terminal(id, 2, to, other),
        y2.terminal(id, 2, to, other),
        a.name,
        id,
        phases,
        phases.len(),
    );
}

/// What is written of two loads is the same.
pub open spec fn alike_load(n: DistNetworkV, a: DistLoadV, o: DistNetworkV, b: DistLoadV) -> bool {
    &&& a.name == b.name
    &&& mrid_of(a.extras, "load"@, a.name) == mrid_of(b.extras, "load"@, b.name)
    &&& a.configuration == b.configuration
    &&& node_of(n, a.bus) == node_of(o, b.bus)
    &&& a.terminal_map == b.terminal_map
    &&& same_values(a.p_nom, b.p_nom, phases_n(a.terminal_map, a.terminal_map.len()).len())
    &&& same_values(a.q_nom, b.q_nom, phases_n(a.terminal_map, a.terminal_map.len()).len())
}

/// Two lists give the same values to `n` phases.
pub open spec fn same_values(a: Seq<Bits>, b: Seq<Bits>, n: nat) -> bool {
    forall|i: int| 0 <= i < n ==> #[trigger] value_or_zero(a, i) == value_or_zero(b, i)
}

pub proof fn lemma_load_phase_same(
    m: Sem,
    d: DocV,
    c: DocV,
    a: DistLoadV,
    b: DistLoadV,
    id: Seq<char>,
    phase: Seq<char>,
    n: nat,
)
    requires
        d.body == c.body,
        a.name == b.name,
        value_or_zero(a.p_nom, n as int) == value_or_zero(b.p_nom, n as int),
        value_or_zero(a.q_nom, n as int) == value_or_zero(b.q_nom, n as int),
    ensures
        load_phase_doc(m, d, a, id, phase, n).body == load_phase_doc(m, c, b, id, phase, n).body,
{
    broadcast use group_body;

    lemma_named_same(
        d,
        c,
        "EnergyConsumerPhase"@,
        det_mrid_of("loadphase"@, a.name + ":"@ + phase),
        a.name + "_"@ + phase,
    );
}

pub proof fn lemma_load_phases_same(
    m: Sem,
    d: DocV,
    c: DocV,
    a: DistLoadV,
    b: DistLoadV,
    id: Seq<char>,
    phases: Seq<Seq<char>>,
    n: nat,
)
    requires
        d.body == c.body,
        a.name == b.name,
        same_values(a.p_nom, b.p_nom, n),
        same_values(a.q_nom, b.q_nom, n),
    ensures
        load_phases_doc(m, d, a, id, phases, n).body == load_phases_doc(
            m,
            c,
            b,
            id,
            phases,
            n,
        ).body,
    decreases n,
{
    if n > 0 {
        let k = (n - 1) as nat;
        lemma_load_phases_same(m, d, c, a, b, id, phases, k);
        lemma_load_phase_same(
            m,
            load_phases_doc(m, d, a, id, phases, k),
            load_phases_doc(m, c, b, id, phases, k),
            a,
            b,
            id,
            phases[n - 1],
            k,
        );
    }
}

#[verifier::rlimit(40)]
pub proof fn lemma_load_same(
    m: Sem,
    d: DocV,
    c: DocV,
    n: DistNetworkV,
    a: DistLoadV,
    o: DistNetworkV,
    b: DistLoadV,
)
    requires
        d.body == c.body,
        alike_load(n, a, o, b),
    ensures
        load_doc(m, d, n, a).body == load_doc(m, c, o, b).body,
{
    broadcast use group_body;

    let id = mrid_of(a.extras, "load"@, a.name);
    let class = "EnergyConsumer"@;
    lemma_named_same(d, c, class, id, a.name);
    let kind = "PhaseShuntConnectionKind."@ + connection_of(a.configuration);
    let x = d.named(class, id, a.name).enumeration("EnergyConsumer.phaseConnection"@, kind).close(
        class,
    );
    let y = c.named(class, id, a.name).enumeration("EnergyConsumer.phaseConnection"@, kind).close(
        class,
    );
    assert(x.body == y.body);
    let node = node_of(n, a.bus);
    let code = phase_code_of(a.terminal_map);
    lemma_terminal_same(x, y, id, 1, node, code);
    let phases = phases_n(a.terminal_map, a.terminal_map.len());
    lemma_load_phases_same(
        m,
        x.terminal(id, 1, node, code),
        y.terminal(id, 1, node, code),
        a,
        b,
        id,
        phases,
        phases.len(),
    );
}

/// What is written of two shunts is the same.
pub open spec fn alike_shunt(
    n: DistNetworkV,
    a: DistShuntV,
    o: DistNetworkV,
    b: DistShuntV,
) -> bool {
    &&& a.name == b.name
    &&& mrid_of(a.extras, "shunt"@, a.name) == mrid_of(b.extras, "shunt"@, b.name)
    &&& node_of(n, a.bus) == node_of(o, b.bus)
    &&& a.terminal_map == b.terminal_map
    &&& forall|i: int|
        0 <= i < a.terminal_map.len() ==> #[trigger] entry_of(a.g, i, i) == entry_of(b.g, i, i)
    &&& forall|i: int|
        0 <= i < a.terminal_map.len() ==> #[trigger] entry_of(a.b, i, i) == entry_of(b.b, i, i)
}

pub proof fn lemma_shunt_phase_same(
    m: Sem,
    d: DocV,
    c: DocV,
    a: DistShuntV,
    b: DistShuntV,
    id: Seq<char>,
    phase: Seq<char>,
    n: nat,
)
    requires
        d.body == c.body,
        a.name == b.name,
        entry_of(a.g, n as int, n as int) == entry_of(b.g, n as int, n as int),
        entry_of(a.b, n as int, n as int) == entry_of(b.b, n as int, n as int),
    ensures
        shunt_phase_doc(m, d, a, id, phase, n).body == shunt_phase_doc(m, c, b, id, phase, n).body,
{
    broadcast use group_body;

    lemma_named_same(
        d,
        c,
        "ShuntCompensatorPhase"@,
        det_mrid_of("shuntphase"@, a.name + ":"@ + phase),
        a.name + "_"@ + phase,
    );
}

pub proof fn lemma_shunt_phases_same(
    m: Sem,
    d: DocV,
    c: DocV,
    a: DistShuntV,
    b: DistShuntV,
    id: Seq<char>,
    phases: Seq<Seq<char>>,
    n: nat,
)
    requires
        d.body == c.body,
        a.name == b.name,
        forall|i: int| 0 <= i < n ==> #[trigger] entry_of(a.g, i, i) == entry_of(b.g, i, i),
        forall|i: int| 0 <= i < n ==> #[trigger] entry_of(a.b, i, i) == entry_of(b.b, i, i),
    ensures
        shunt_phases_doc(m, d, a, id, phases, n).body == shunt_phases_doc(
            m,
            c,
            b,
            id,
            phases,
            n,
        ).body,
    decreases n,
{
    if n > 0 {
        let k = (n - 1) as nat;
        lemma_shunt_phases_same(m, d, c, a, b, id, phases, k);
        assert(entry_of(a.g, n - 1, n - 1) == entry_of(b.g, n - 1, n - 1));
        assert(entry_of(a.b, n - 1, n - 1) == entry_of(b.b, n - 1, n - 1));
        lemma_shunt_phase_same(
            m,
            shunt_phases_doc(m, d, a, id, phases, k),
            shunt_phases_doc(m, c, b, id, phases, k),
            a,
            b,
            id,
            phases[n - 1],
            k,
        );
    }
}

pub proof fn lemma_fewer_phases(map: Seq<Seq<char>>, n: nat)
    ensures
        phases_n(map, n).len() <= n,
    decreases n,
{
    if n > 0 {
        lemma_fewer_phases(map, (n - 1) as nat);
    }
}

#[verifier::rlimit(40)]
pub proof fn lemma_shunt_same(
    m: Sem,
    d: DocV,
    c: DocV,
    n: DistNetworkV,
    a: DistShuntV,
    o: DistNetworkV,
    b: DistShuntV,
)
    requires
        d.body == c.body,
        alike_shunt(n, a, o, b),
    ensures
        shunt_doc(m, d, n, a).body == shunt_doc(m, c, o, b).body,
{
    broadcast use group_body;

    let id = mrid_of(a.extras, "shunt"@, a.name);
    let class = "LinearShuntCompensator"@;
    lemma_named_same(d, c, class, id, a.name);
    let x = d.named(class, id, a.name).close(class);
    let y = c.named(class, id, a.name).close(class);
    assert(x.body == y.body);
    let node = node_of(n, a.bus);
    let code = phase_code_of(a.terminal_map);
    lemma_terminal_same(x, y, id, 1, node, code);
    let phases = phases_n(a.terminal_map, a.terminal_map.len());
    lemma_fewer_phases(a.terminal_map, a.terminal_map.len());
    lemma_shunt_phases_same(
        m,
        x.terminal(id, 1, node, code),
        y.terminal(id, 1, node, code),
        a,
        b,
        id,
        phases,
        phases.len(),
    );
}

/// What is written of two switches is the same.
pub open spec fn alike_switch(
    n: DistNetworkV,
    a: DistSwitchV,
    o: DistNetworkV,
    b: DistSwitchV,
) -> bool {
    &&& a.name == b.name
    &&& mrid_of(a.extras, "switch"@, a.name) == mrid_of(b.extras, "switch"@, b.name)
    &&& a.open == b.open
    &&& node_of(n, a.bus_from) == node_of(o, b.bus_from)
    &&& node_of(n, a.bus_to) == node_of(o, b.bus_to)
    &&& a.terminal_map_from == b.terminal_map_from
    &&& a.terminal_map_to == b.terminal_map_to
}

#[verifier::rlimit(40)]
pub proof fn lemma_switch_same(
    d: DocV,
    c: DocV,
    n: DistNetworkV,
    a: DistSwitchV,
    o: DistNetworkV,
    b: DistSwitchV,
)
    requires
        d.body == c.body,
        alike_switch(n, a, o, b),
    ensures
        switch_doc(d, n, a).body == switch_doc(c, o, b).body,
{
    broadcast use group_body;

    let id = mrid_of(a.extras, "switch"@, a.name);
    let class = "LoadBreakSwitch"@;
    lemma_named_same(d, c, class, id, a.name);
    let open = bool_text(a.open);
    let x = d.named(class, id, a.name).text("Switch.normalOpen"@, open).text(
        "Switch.open"@,
        open,
    ).close(class);
    let y = c.named(class, id, a.name).text("Switch.normalOpen"@, open).text(
        "Switch.open"@,
        open,
    ).close(class);
    assert(x.body == y.body);
    let from = node_of(n, a.bus_from);
    let code = phase_code_of(a.terminal_map_from);
    lemma_terminal_same(x, y, id, 1, from, code);
    lemma_terminal_same(
        x.terminal(id, 1, from, code),
        y.terminal(id, 1, from, code),
        id,
        2,
        node_of(n, a.bus_to),
        phase_code_of(a.terminal_map_to),
    );
}

/// What is written of two transformers is the same.
pub open spec fn alike_transformer(
    m: Sem,
    n: DistNetworkV,
    a: DistTransformerV,
    o: DistNetworkV,
    b: DistTransformerV,
) -> bool {
    &&& a.name == b.name
    &&& mrid_of(a.extras, "xf"@, a.name) == mrid_of(b.extras, "xf"@, b.name)
    &&& a.windings.len() == 2
    &&& b.windings.len() == 2
    &&& alike_winding(m, n, a, o, b, 0)
    &&& alike_winding(m, n, a, o, b, 1)
    &&& written_x(m, a) == written_x(m, b)
}

pub open spec fn alike_winding(
    m: Sem,
    n: DistNetworkV,
    a: DistTransformerV,
    o: DistNetworkV,
    b: DistTransformerV,
    e: int,
) -> bool {
    let v = a.windings[e];
    let w = b.windings[e];
    &&& node_of(n, v.bus) == node_of(o, w.bus)
    &&& v.terminal_map == w.terminal_map
    &&& v.conn == w.conn
    &&& v.v_ref == w.v_ref
    &&& v.s_rating == w.s_rating
    &&& written_r(m, v) == written_r(m, w)
}

#[verifier::rlimit(40)]
pub proof fn lemma_winding_same(
    m: Sem,
    d: DocV,
    c: DocV,
    n: DistNetworkV,
    a: DistTransformerV,
    o: DistNetworkV,
    b: DistTransformerV,
    id: Seq<char>,
    e: nat,
)
    requires
        d.body == c.body,
        a.name == b.name,
        e < 2,
        alike_winding(m, n, a, o, b, e as int),
        written_x(m, a) == written_x(m, b),
    ensures
        winding_doc(m, d, n, a, id, e).body == winding_doc(m, c, o, b, id, e).body,
{
    broadcast use group_body;

    let v = a.windings[e as int];
    let number = dec_of(e + 1);
    let node = node_of(n, v.bus);
    let code = phase_code_of(v.terminal_map);
    lemma_terminal_same(d, c, id, e + 1, node, code);
    lemma_named_same(
        d.terminal(id, e + 1, node, code),
        c.terminal(id, e + 1, node, code),
        "PowerTransformerEnd"@,
        det_mrid_of("xfend"@, a.name + ":"@ + number),
        a.name + "_end"@ + number,
    );
}

#[verifier::rlimit(40)]
pub proof fn lemma_transformer_same(
    m: Sem,
    d: DocV,
    c: DocV,
    n: DistNetworkV,
    a: DistTransformerV,
    o: DistNetworkV,
    b: DistTransformerV,
)
    requires
        d.body == c.body,
        alike_transformer(m, n, a, o, b),
    ensures
        transformer_doc(m, d, n, a).body == transformer_doc(m, c, o, b).body,
{
    broadcast use group_body;

    let id = mrid_of(a.extras, "xf"@, a.name);
    let class = "PowerTransformer"@;
    lemma_named_same(d, c, class, id, a.name);
    let x = d.named(class, id, a.name).close(class);
    let y = c.named(class, id, a.name).close(class);
    assert(x.body == y.body);
    reveal_with_fuel(windings_doc, 3);
    lemma_winding_same(m, x, y, n, a, o, b, id, 0);
    lemma_winding_same(
        m,
        winding_doc(m, x, n, a, id, 0),
        winding_doc(m, y, o, b, id, 0),
        n,
        a,
        o,
        b,
        id,
        1,
    );
}

/// What is written of two sources is the same.
pub open spec fn alike_source(
    m: Sem,
    n: DistNetworkV,
    a: VoltageSourceV,
    o: DistNetworkV,
    b: VoltageSourceV,
) -> bool {
    &&& a.name == b.name
    &&& mrid_of(a.extras, "source"@, a.name) == mrid_of(b.extras, "source"@, b.name)
    &&& node_of(n, a.bus) == node_of(o, b.bus)
    &&& a.terminal_map == b.terminal_map
    &&& written_voltage(m, a) == written_voltage(m, b)
    &&& value_or_zero(a.v_angle, 0) == value_or_zero(b.v_angle, 0)
}

#[verifier::rlimit(40)]
pub proof fn lemma_source_same(
    m: Sem,
    d: DocV,
    c: DocV,
    n: DistNetworkV,
    a: VoltageSourceV,
    o: DistNetworkV,
    b: VoltageSourceV,
)
    requires
        d.body == c.body,
        alike_source(m, n, a, o, b),
    ensures
        source_doc(m, d, n, a).body == source_doc(m, c, o, b).body,
{
    broadcast use group_body;

    let id = mrid_of(a.extras, "source"@, a.name);
    let class = "EnergySource"@;
    lemma_phases_are_hot(a.terminal_map, a.terminal_map.len());
    lemma_named_same(d, c, class, id, a.name);
    let v = (m.show)(written_voltage(m, a));
    let angle = (m.show)(value_or_zero(a.v_angle, 0));
    let x = d.named(class, id, a.name).text("EnergySource.voltageMagnitude"@, v).text(
        "EnergySource.voltageAngle"@,
        angle,
    ).text("EnergySource.nominalVoltage"@, v).close(class);
    let y = c.named(class, id, a.name).text("EnergySource.voltageMagnitude"@, v).text(
        "EnergySource.voltageAngle"@,
        angle,
    ).text("EnergySource.nominalVoltage"@, v).close(class);
    assert(x.body == y.body);
    lemma_terminal_same(x, y, id, 1, node_of(n, a.bus), phase_code_of(a.terminal_map));
}

} // verus!
