//! What reading a document never takes back.

use vstd::prelude::*;

use crate::json::{Entries, JsonV};
use crate::math::{Bits, Sem};
use crate::model::{DistLineCodeV, DistNetworkV, WindingConn, WindingV};
use crate::ravens::doc::{list_at, sorted_kind, ObjV};
use crate::ravens::lines::{
    code_from, line_limits_of, line_step, linecode_step, linecodes_n, lines_n, map_linecodes_of,
    map_lines_of, map_switches_of, rate_of, switch_ids, switch_step, switches_n,
};
use crate::ravens::loads::{
    load_map_of, load_phases_of, load_step, loads_n, map_loads_of, map_shunts_of, shunt_step,
    shunts_n, PhaseV,
};
use crate::ravens::machines::{
    electronics_n, electronics_step, machine_ids, machine_step, machines_n, map_electronics_of,
    map_machines_of, map_sources_of, source_step, sources_n,
};
use crate::ravens::read::{
    buses_n, finish_buses_of, kept_n, kept_warnings, mapped_of, missing_n, preserve_of, run_of,
};
use crate::ravens::state::{empty_state, StateV};
use crate::ravens::tanks::{
    circuit_n, datasheet_of, end_clock_of, end_conn_of, end_map_of, end_step, ends_of, infos_of,
    map_transformers_of, neutral_of, reactances_of, tank_step, tanks_n, tapped_of, tests_n,
    windings_n,
};

verus! {

/// A list begins with another.
pub open spec fn begins<T>(a: Seq<T>, b: Seq<T>) -> bool {
    &&& a.len() <= b.len()
    &&& forall|i: int| 0 <= i < a.len() ==> b[i] == #[trigger] a[i]
}

/// Line codes that are the same but for their ratings.
pub open spec fn same_code(a: DistLineCodeV, b: DistLineCodeV) -> bool {
    b == (DistLineCodeV { i_max: b.i_max, ..a })
}

/// A list of line codes begins with another, ratings aside.
pub open spec fn begins_codes(a: Seq<DistLineCodeV>, b: Seq<DistLineCodeV>) -> bool {
    &&& a.len() <= b.len()
    &&& forall|i: int| 0 <= i < a.len() ==> same_code(#[trigger] a[i], b[i])
}

/// Every element, every object that was kept and every warning of one network is
/// in another, in the same place; a line code may have been given a rating.
pub open spec fn grows(a: DistNetworkV, b: DistNetworkV) -> bool {
    &&& begins(a.buses, b.buses)
    &&& begins(a.lines, b.lines)
    &&& begins(a.switches, b.switches)
    &&& begins(a.loads, b.loads)
    &&& begins(a.shunts, b.shunts)
    &&& begins(a.generators, b.generators)
    &&& begins(a.ibrs, b.ibrs)
    &&& begins(a.sources, b.sources)
    &&& begins(a.transformers, b.transformers)
    &&& begins(a.untyped, b.untyped)
    &&& begins(a.warnings, b.warnings)
    &&& begins_codes(a.linecodes, b.linecodes)
}

/// The same elements.
pub open spec fn same_elements(a: DistNetworkV, b: DistNetworkV) -> bool {
    &&& a.buses == b.buses
    &&& a.lines == b.lines
    &&& a.switches == b.switches
    &&& a.loads == b.loads
    &&& a.shunts == b.shunts
    &&& a.generators == b.generators
    &&& a.ibrs == b.ibrs
    &&& a.sources == b.sources
    &&& a.transformers == b.transformers
    &&& begins(a.untyped, b.untyped)
    &&& begins(a.warnings, b.warnings)
    &&& begins_codes(a.linecodes, b.linecodes)
}

proof fn lemma_begins_through<T>(a: Seq<T>, b: Seq<T>, c: Seq<T>)
    requires
        begins(a, b),
        begins(b, c),
    ensures
        begins(a, c),
{
    assert forall|i: int| 0 <= i < a.len() implies c[i] == #[trigger] a[i] by {
        assert(b[i] == a[i]);
    }
}

proof fn lemma_codes_through(a: Seq<DistLineCodeV>, b: Seq<DistLineCodeV>, c: Seq<DistLineCodeV>)
    requires
        begins_codes(a, b),
        begins_codes(b, c),
    ensures
        begins_codes(a, c),
{
    assert forall|i: int| 0 <= i < a.len() implies same_code(#[trigger] a[i], c[i]) by {
        assert(same_code(a[i], b[i]));
        assert(same_code(b[i], c[i]));
    }
}

pub proof fn lemma_grows_through(a: DistNetworkV, b: DistNetworkV, c: DistNetworkV)
    requires
        grows(a, b),
        grows(b, c),
    ensures
        grows(a, c),
{
    lemma_begins_through(a.buses, b.buses, c.buses);
    lemma_begins_through(a.lines, b.lines, c.lines);
    lemma_begins_through(a.switches, b.switches, c.switches);
    lemma_begins_through(a.loads, b.loads, c.loads);
    lemma_begins_through(a.shunts, b.shunts, c.shunts);
    lemma_begins_through(a.generators, b.generators, c.generators);
    lemma_begins_through(a.ibrs, b.ibrs, c.ibrs);
    lemma_begins_through(a.sources, b.sources, c.sources);
    lemma_begins_through(a.transformers, b.transformers, c.transformers);
    lemma_begins_through(a.untyped, b.untyped, c.untyped);
    lemma_begins_through(a.warnings, b.warnings, c.warnings);
    lemma_codes_through(a.linecodes, b.linecodes, c.linecodes);
}

// ---- notes -----------------------------------------------------------------

pub broadcast proof fn lemma_warn_keeps(st: StateV, s: Seq<char>)
    ensures
        same_elements(st.net, (#[trigger] st.warn(s)).net),
{
    reveal(StateV::warn);
}

pub broadcast proof fn lemma_defaulted_keeps(
    st: StateV,
    class: Seq<char>,
    name: Seq<char>,
    field: Seq<char>,
)
    ensures
        same_elements(st.net, (#[trigger] st.defaulted(class, name, field)).net),
{
    reveal(StateV::defaulted);
}

pub broadcast proof fn lemma_use_keeps(st: StateV, node: Seq<char>, terms: Seq<Seq<char>>)
    ensures
        (#[trigger] st.use_terminals(node, terms)).net == st.net,
{
    reveal(StateV::use_terminals);
}

pub broadcast proof fn lemma_ground_keeps(st: StateV, node: Seq<char>)
    ensures
        (#[trigger] st.ground_node(node)).net == st.net,
{
    reveal(StateV::ground_node);
}

pub broadcast proof fn lemma_push_keeps(st: StateV, o: ObjV)
    ensures
        same_elements(st.net, (#[trigger] st.push_untyped(o)).net),
{
    reveal(StateV::push_untyped);
}

pub broadcast group group_keeps {
    lemma_warn_keeps,
    lemma_defaulted_keeps,
    lemma_use_keeps,
    lemma_ground_keeps,
    lemma_push_keeps,
}

// ---- parts of elements -----------------------------------------------------

proof fn lemma_code_from(codes: Seq<DistLineCodeV>, name: Seq<char>, i: int)
    requires
        0 <= i,
    ensures
        code_from(codes, name, i) matches Some(j) ==> 0 <= j < codes.len(),
    decreases codes.len() - i,
{
    if i < codes.len() {
        lemma_code_from(codes, name, i + 1);
    }
}

pub broadcast proof fn lemma_rate_keeps(
    codes: Seq<DistLineCodeV>,
    name: Seq<char>,
    n: nat,
    amps: Bits,
)
    ensures
        begins_codes(codes, (#[trigger] rate_of(codes, name, n, amps)).0),
{
    lemma_code_from(codes, name, 0);
}

pub broadcast proof fn lemma_line_limits_keep(
    m: Sem,
    doc: Seq<ObjV>,
    st: StateV,
    name: Seq<char>,
    code: Seq<char>,
    set: Option<Seq<char>>,
    n: nat,
    extras: Entries,
)
    ensures
        same_elements(
            st.net,
            (#[trigger] line_limits_of(m, doc, st, name, code, set, n, extras)).0.net,
        ),
{
    broadcast use {group_keeps, lemma_rate_keeps};

    reveal(line_limits_of);
}

pub broadcast proof fn lemma_load_phases_keep(m: Sem, st: StateV, o: ObjV, letters: Seq<Seq<char>>)
    ensures
        same_elements(st.net, (#[trigger] load_phases_of(m, st, o, letters)).0.net),
{
    broadcast use group_keeps;

    reveal(load_phases_of);
}

pub broadcast proof fn lemma_load_map_keeps(
    st: StateV,
    o: ObjV,
    node: Seq<char>,
    letters: Seq<Seq<char>>,
    phases: Seq<PhaseV>,
)
    ensures
        same_elements(st.net, (#[trigger] load_map_of(st, o, node, letters, phases)).0.net),
{
    broadcast use group_keeps;

    reveal(load_map_of);
}

pub broadcast proof fn lemma_end_conn_keeps(st: StateV, name: Seq<char>, num: u64, info: Entries)
    ensures
        same_elements(st.net, (#[trigger] end_conn_of(st, name, num, info)).0.net),
{
    broadcast use group_keeps;

    reveal(end_conn_of);
}

pub broadcast proof fn lemma_end_clock_keeps(st: StateV, name: Seq<char>, num: u64, info: Entries)
    ensures
        same_elements(st.net, (#[trigger] end_clock_of(st, name, num, info)).net),
{
    broadcast use group_keeps;

    reveal(end_clock_of);
}

pub broadcast proof fn lemma_end_map_keeps(
    st: StateV,
    name: Seq<char>,
    end: Entries,
    conn: WindingConn,
)
    ensures
        same_elements(st.net, (#[trigger] end_map_of(st, name, end, conn)).0.net),
{
    broadcast use group_keeps;

    reveal(end_map_of);
}

pub broadcast proof fn lemma_neutral_keeps(
    m: Sem,
    st: StateV,
    name: Seq<char>,
    end: Entries,
    node: Seq<char>,
    map: Seq<Seq<char>>,
    w: WindingV,
)
    ensures
        same_elements(st.net, (#[trigger] neutral_of(m, st, name, end, node, map, w)).0.net),
{
    broadcast use group_keeps;

    reveal(neutral_of);
}

pub broadcast proof fn lemma_tapped_keeps(
    m: Sem,
    doc: Seq<ObjV>,
    st: StateV,
    name: Seq<char>,
    windings: Seq<WindingV>,
)
    ensures
        same_elements(st.net, (#[trigger] tapped_of(m, doc, st, name, windings)).0.net),
{
    broadcast use group_keeps;

    reveal(tapped_of);
}

pub broadcast group group_parts {
    lemma_line_limits_keep,
    lemma_load_phases_keep,
    lemma_load_map_keeps,
    lemma_end_conn_keeps,
    lemma_end_clock_keeps,
    lemma_end_map_keeps,
    lemma_neutral_keeps,
    lemma_tapped_keeps,
}

proof fn lemma_end_keeps(
    m: Sem,
    st: StateV,
    name: Seq<char>,
    infos: Seq<(u64, Entries)>,
    num: u64,
    end: Entries,
)
    ensures
        same_elements(st.net, end_step(m, st, name, infos, num, end).0.net),
{
    broadcast use {group_keeps, group_parts};

}

pub proof fn lemma_windings_keep(
    m: Sem,
    st: StateV,
    name: Seq<char>,
    infos: Seq<(u64, Entries)>,
    ends: Seq<(u64, Entries)>,
    n: nat,
)
    ensures
        same_elements(st.net, windings_n(m, st, name, infos, ends, n).st.net),
    decreases n,
{
    if n > 0 {
        lemma_windings_keep(m, st, name, infos, ends, (n - 1) as nat);
        let before = windings_n(m, st, name, infos, ends, (n - 1) as nat);
        lemma_end_keeps(m, before.st, name, infos, ends[n - 1].0, ends[n - 1].1);
    }
}

proof fn lemma_tests_keep(
    m: Sem,
    st: StateV,
    name: Seq<char>,
    windings: nat,
    num: u64,
    info: Entries,
    x: Option<Bits>,
    tests: Seq<JsonV>,
    n: nat,
)
    ensures
        same_elements(
            st.net,
            tests_n(m, st, name, windings, num, info, x, tests, n).0.net,
        ),
    decreases n,
{
    broadcast use group_keeps;

    if n > 0 {
        lemma_tests_keep(m, st, name, windings, num, info, x, tests, (n - 1) as nat);
    }
}

proof fn lemma_circuit_keeps(
    m: Sem,
    st: StateV,
    name: Seq<char>,
    windings: nat,
    infos: Seq<(u64, Entries)>,
    n: nat,
)
    ensures
        same_elements(st.net, circuit_n(m, st, name, windings, infos, n).0.net),
    decreases n,
{
    if n > 0 {
        lemma_circuit_keeps(m, st, name, windings, infos, (n - 1) as nat);
        let before = circuit_n(m, st, name, windings, infos, (n - 1) as nat);
        let info = infos[n - 1].1;
        let tests = list_at(info, "TransformerEndInfo.EnergisedEndShortCircuitTests"@);
        lemma_tests_keep(
            m,
            before.0,
            name,
            windings,
            infos[n - 1].0,
            info,
            before.1,
            tests,
            tests.len(),
        );
    }
}

pub proof fn lemma_reactances_keep(
    m: Sem,
    st: StateV,
    name: Seq<char>,
    windings: nat,
    infos: Seq<(u64, Entries)>,
)
    ensures
        same_elements(st.net, reactances_of(m, st, name, windings, infos).0.net),
{
    broadcast use group_keeps;

    reveal(reactances_of);
    lemma_circuit_keeps(m, st, name, windings, infos, infos.len());
}

// ---- elements --------------------------------------------------------------

proof fn lemma_linecode_grows(m: Sem, st: StateV, o: ObjV)
    ensures
        grows(st.net, linecode_step(m, st, o).net),
{
    broadcast use group_keeps;

}

#[verifier::rlimit(40)]
proof fn lemma_line_grows(m: Sem, doc: Seq<ObjV>, st: StateV, o: ObjV)
    ensures
        grows(st.net, line_step(m, doc, st, o).net),
{
    broadcast use {group_keeps, group_parts};

}

proof fn lemma_switch_grows(m: Sem, doc: Seq<ObjV>, st: StateV, o: ObjV)
    ensures
        grows(st.net, switch_step(m, doc, st, o).net),
{
    broadcast use {group_keeps, group_parts};

}

#[verifier::rlimit(40)]
proof fn lemma_load_grows(m: Sem, doc: Seq<ObjV>, st: StateV, o: ObjV)
    ensures
        grows(st.net, load_step(m, doc, st, o).net),
{
    broadcast use {group_keeps, group_parts};

}

proof fn lemma_shunt_grows(m: Sem, doc: Seq<ObjV>, st: StateV, o: ObjV)
    ensures
        grows(st.net, shunt_step(m, doc, st, o).net),
{
    broadcast use {group_keeps, group_parts};

}

proof fn lemma_machine_grows(m: Sem, doc: Seq<ObjV>, st: StateV, o: ObjV)
    ensures
        grows(st.net, machine_step(m, doc, st, o).net),
{
    broadcast use {group_keeps, group_parts};

}

proof fn lemma_electronics_grows(m: Sem, doc: Seq<ObjV>, st: StateV, o: ObjV)
    ensures
        grows(st.net, electronics_step(m, doc, st, o).net),
{
    broadcast use {group_keeps, group_parts};

}

proof fn lemma_source_grows(m: Sem, doc: Seq<ObjV>, st: StateV, o: ObjV)
    ensures
        grows(st.net, source_step(m, doc, st, o).net),
{
    broadcast use {group_keeps, group_parts};

}

#[verifier::rlimit(40)]
proof fn lemma_tank_grows(m: Sem, doc: Seq<ObjV>, st: StateV, o: ObjV)
    ensures
        grows(st.net, tank_step(m, doc, st, o).net),
{
    broadcast use {group_keeps, group_parts};

    if let Some(info) = datasheet_of(doc, o.props) {
        let infos = infos_of(info);
        let ends = ends_of(o.props);
        let e = windings_n(m, st, o.name, infos, ends, ends.len());
        lemma_windings_keep(m, st, o.name, infos, ends, ends.len());
        lemma_reactances_keep(m, e.st, o.name, e.windings.len(), infos);
    }
}

// ---- families --------------------------------------------------------------

/// What a family adds stays while the rest of it is read.
pub proof fn lemma_linecodes_n_grows(
    m: Sem,
    doc: Seq<ObjV>,
    st: StateV,
    ids: Seq<usize>,
    k: nat,
    n: nat,
)
    requires
        k <= n,
    ensures
        grows(linecodes_n(m, doc, st, ids, k).net, linecodes_n(m, doc, st, ids, n).net),
    decreases n,
{
    if k < n {
        let before = linecodes_n(m, doc, st, ids, (n - 1) as nat);
        lemma_linecodes_n_grows(m, doc, st, ids, k, (n - 1) as nat);
        lemma_linecode_grows(m, before, doc[ids[n - 1] as int]);
        lemma_grows_through(
            linecodes_n(m, doc, st, ids, k).net,
            before.net,
            linecodes_n(m, doc, st, ids, n).net,
        );
    }
}

/// What a family adds stays while the rest of it is read.
pub proof fn lemma_lines_n_grows(
    m: Sem,
    doc: Seq<ObjV>,
    st: StateV,
    ids: Seq<usize>,
    k: nat,
    n: nat,
)
    requires
        k <= n,
    ensures
        grows(lines_n(m, doc, st, ids, k).net, lines_n(m, doc, st, ids, n).net),
    decreases n,
{
    if k < n {
        let before = lines_n(m, doc, st, ids, (n - 1) as nat);
        lemma_lines_n_grows(m, doc, st, ids, k, (n - 1) as nat);
        lemma_line_grows(m, doc, before, doc[ids[n - 1] as int]);
        lemma_grows_through(
            lines_n(m, doc, st, ids, k).net,
            before.net,
            lines_n(m, doc, st, ids, n).net,
        );
    }
}

/// What a family adds stays while the rest of it is read.
pub proof fn lemma_switches_n_grows(
    m: Sem,
    doc: Seq<ObjV>,
    st: StateV,
    ids: Seq<usize>,
    k: nat,
    n: nat,
)
    requires
        k <= n,
    ensures
        grows(switches_n(m, doc, st, ids, k).net, switches_n(m, doc, st, ids, n).net),
    decreases n,
{
    if k < n {
        let before = switches_n(m, doc, st, ids, (n - 1) as nat);
        lemma_switches_n_grows(m, doc, st, ids, k, (n - 1) as nat);
        lemma_switch_grows(m, doc, before, doc[ids[n - 1] as int]);
        lemma_grows_through(
            switches_n(m, doc, st, ids, k).net,
            before.net,
            switches_n(m, doc, st, ids, n).net,
        );
    }
}

/// What a family adds stays while the rest of it is read.
pub proof fn lemma_loads_n_grows(
    m: Sem,
    doc: Seq<ObjV>,
    st: StateV,
    ids: Seq<usize>,
    k: nat,
    n: nat,
)
    requires
        k <= n,
    ensures
        grows(loads_n(m, doc, st, ids, k).net, loads_n(m, doc, st, ids, n).net),
    decreases n,
{
    if k < n {
        let before = loads_n(m, doc, st, ids, (n - 1) as nat);
        lemma_loads_n_grows(m, doc, st, ids, k, (n - 1) as nat);
        lemma_load_grows(m, doc, before, doc[ids[n - 1] as int]);
        lemma_grows_through(
            loads_n(m, doc, st, ids, k).net,
            before.net,
            loads_n(m, doc, st, ids, n).net,
        );
    }
}

/// What a family adds stays while the rest of it is read.
pub proof fn lemma_shunts_n_grows(
    m: Sem,
    doc: Seq<ObjV>,
    st: StateV,
    ids: Seq<usize>,
    k: nat,
    n: nat,
)
    requires
        k <= n,
    ensures
        grows(shunts_n(m, doc, st, ids, k).net, shunts_n(m, doc, st, ids, n).net),
    decreases n,
{
    if k < n {
        let before = shunts_n(m, doc, st, ids, (n - 1) as nat);
        lemma_shunts_n_grows(m, doc, st, ids, k, (n - 1) as nat);
        lemma_shunt_grows(m, doc, before, doc[ids[n - 1] as int]);
        lemma_grows_through(
            shunts_n(m, doc, st, ids, k).net,
            before.net,
            shunts_n(m, doc, st, ids, n).net,
        );
    }
}

/// What a family adds stays while the rest of it is read.
pub proof fn lemma_machines_n_grows(
    m: Sem,
    doc: Seq<ObjV>,
    st: StateV,
    ids: Seq<usize>,
    k: nat,
    n: nat,
)
    requires
        k <= n,
    ensures
        grows(machines_n(m, doc, st, ids, k).net, machines_n(m, doc, st, ids, n).net),
    decreases n,
{
    if k < n {
        let before = machines_n(m, doc, st, ids, (n - 1) as nat);
        lemma_machines_n_grows(m, doc, st, ids, k, (n - 1) as nat);
        lemma_machine_grows(m, doc, before, doc[ids[n - 1] as int]);
        lemma_grows_through(
            machines_n(m, doc, st, ids, k).net,
            before.net,
            machines_n(m, doc, st, ids, n).net,
        );
    }
}

/// What a family adds stays while the rest of it is read.
pub proof fn lemma_electronics_n_grows(
    m: Sem,
    doc: Seq<ObjV>,
    st: StateV,
    ids: Seq<usize>,
    k: nat,
    n: nat,
)
    requires
        k <= n,
    ensures
        grows(electronics_n(m, doc, st, ids, k).net, electronics_n(m, doc, st, ids, n).net),
    decreases n,
{
    if k < n {
        let before = electronics_n(m, doc, st, ids, (n - 1) as nat);
        lemma_electronics_n_grows(m, doc, st, ids, k, (n - 1) as nat);
        lemma_electronics_grows(m, doc, before, doc[ids[n - 1] as int]);
        lemma_grows_through(
            electronics_n(m, doc, st, ids, k).net,
            before.net,
            electronics_n(m, doc, st, ids, n).net,
        );
    }
}

/// What a family adds stays while the rest of it is read.
pub proof fn lemma_sources_n_grows(
    m: Sem,
    doc: Seq<ObjV>,
    st: StateV,
    ids: Seq<usize>,
    k: nat,
    n: nat,
)
    requires
        k <= n,
    ensures
        grows(sources_n(m, doc, st, ids, k).net, sources_n(m, doc, st, ids, n).net),
    decreases n,
{
    if k < n {
        let before = sources_n(m, doc, st, ids, (n - 1) as nat);
        lemma_sources_n_grows(m, doc, st, ids, k, (n - 1) as nat);
        lemma_source_grows(m, doc, before, doc[ids[n - 1] as int]);
        lemma_grows_through(
            sources_n(m, doc, st, ids, k).net,
            before.net,
            sources_n(m, doc, st, ids, n).net,
        );
    }
}

/// What a family adds stays while the rest of it is read.
pub proof fn lemma_tanks_n_grows(
    m: Sem,
    doc: Seq<ObjV>,
    st: StateV,
    ids: Seq<usize>,
    k: nat,
    n: nat,
)
    requires
        k <= n,
    ensures
        grows(tanks_n(m, doc, st, ids, k).net, tanks_n(m, doc, st, ids, n).net),
    decreases n,
{
    if k < n {
        let before = tanks_n(m, doc, st, ids, (n - 1) as nat);
        lemma_tanks_n_grows(m, doc, st, ids, k, (n - 1) as nat);
        lemma_tank_grows(m, doc, before, doc[ids[n - 1] as int]);
        lemma_grows_through(
            tanks_n(m, doc, st, ids, k).net,
            before.net,
            tanks_n(m, doc, st, ids, n).net,
        );
    }
}

pub proof fn lemma_buses_n_grows(
    m: Sem,
    doc: Seq<ObjV>,
    st: StateV,
    ids: Seq<usize>,
    k: nat,
    n: nat,
)
    requires
        k <= n,
    ensures
        grows(buses_n(m, doc, st, ids, k).0.net, buses_n(m, doc, st, ids, n).0.net),
    decreases n,
{
    if k < n {
        lemma_buses_n_grows(m, doc, st, ids, k, (n - 1) as nat);
        lemma_grows_through(
            buses_n(m, doc, st, ids, k).0.net,
            buses_n(m, doc, st, ids, (n - 1) as nat).0.net,
            buses_n(m, doc, st, ids, n).0.net,
        );
    }
}

pub proof fn lemma_missing_grows(st: StateV, n: nat)
    ensures
        grows(st.net, missing_n(st, n).net),
    decreases n,
{
    broadcast use group_keeps;

    if n > 0 {
        lemma_missing_grows(st, (n - 1) as nat);
        lemma_grows_through(st.net, missing_n(st, (n - 1) as nat).net, missing_n(st, n).net);
    }
}

proof fn lemma_kept_n_grows(doc: Seq<ObjV>, st: StateV, n: nat)
    ensures
        grows(st.net, kept_n(doc, st, n).0.net),
    decreases n,
{
    broadcast use group_keeps;

    if n > 0 {
        lemma_kept_n_grows(doc, st, (n - 1) as nat);
        lemma_grows_through(
            st.net,
            kept_n(doc, st, (n - 1) as nat).0.net,
            kept_n(doc, st, n).0.net,
        );
    }
}

proof fn lemma_kept_warnings_grow(st: StateV, counts: Seq<(Seq<char>, usize)>, n: nat)
    ensures
        grows(st.net, kept_warnings(st, counts, n).net),
    decreases n,
{
    broadcast use group_keeps;

    if n > 0 {
        lemma_kept_warnings_grow(st, counts, (n - 1) as nat);
        lemma_grows_through(
            st.net,
            kept_warnings(st, counts, (n - 1) as nat).net,
            kept_warnings(st, counts, n).net,
        );
    }
}

pub proof fn lemma_preserve_grows(doc: Seq<ObjV>, st: StateV)
    ensures
        grows(st.net, preserve_of(doc, st).net),
{
    reveal(preserve_of);
    let (kept, counts) = kept_n(doc, st, doc.len());
    lemma_kept_n_grows(doc, st, doc.len());
    lemma_kept_warnings_grow(kept, counts, counts.len());
    lemma_grows_through(st.net, kept.net, preserve_of(doc, st).net);
}

/// What the families of elements added stays while the buses are read.
pub proof fn lemma_finish_grows(m: Sem, doc: Seq<ObjV>, st: StateV)
    ensures
        grows(st.net, finish_buses_of(m, doc, st).net),
        ({
            let ids = sorted_kind(doc, "ConnectivityNode"@);
            let done = buses_n(m, doc, st, ids, ids.len()).0;
            grows(done.net, finish_buses_of(m, doc, st).net)
        }),
{
    reveal(finish_buses_of);
    let ids = sorted_kind(doc, "ConnectivityNode"@);
    let done = buses_n(m, doc, st, ids, ids.len()).0;
    lemma_buses_n_grows(m, doc, st, ids, 0, ids.len());
    lemma_missing_grows(done, done.nodes.len());
    lemma_grows_through(st.net, done.net, finish_buses_of(m, doc, st).net);
}

/// The states between the families.
pub struct Stages {
    pub coded: StateV,
    pub lined: StateV,
    pub switched: StateV,
    pub loaded: StateV,
    pub shunted: StateV,
    pub driven: StateV,
    pub inverted: StateV,
    pub fed: StateV,
    pub wound: StateV,
    pub housed: StateV,
}

pub open spec fn stages(m: Sem, doc: Seq<ObjV>) -> Stages {
    let st = empty_state().warn(
        "MG-RAVENS carries no system frequency; base_frequency assumes the OpenDSS default (60 Hz)"@,
    );
    let coded = map_linecodes_of(m, doc, st);
    let lined = map_lines_of(m, doc, coded);
    let switched = map_switches_of(m, doc, lined);
    let loaded = map_loads_of(m, doc, switched);
    let shunted = map_shunts_of(m, doc, loaded);
    let driven = map_machines_of(m, doc, shunted);
    let inverted = map_electronics_of(m, doc, driven);
    let fed = map_sources_of(m, doc, inverted);
    let wound = map_transformers_of(m, doc, fed);
    let housed = finish_buses_of(m, doc, wound);
    Stages { coded, lined, switched, loaded, shunted, driven, inverted, fed, wound, housed }
}

/// Reading never takes back: what any family of elements added to the network,
/// and every warning, is in the network that is read.
#[verifier::rlimit(40)]
pub proof fn lemma_nothing_is_taken_back(m: Sem, doc: Seq<ObjV>)
    ensures
        ({
            let g = stages(m, doc);
            let net = run_of(m, doc).net;
            &&& grows(g.coded.net, net)
            &&& grows(g.lined.net, net)
            &&& grows(g.switched.net, net)
            &&& grows(g.loaded.net, net)
            &&& grows(g.shunted.net, net)
            &&& grows(g.driven.net, net)
            &&& grows(g.inverted.net, net)
            &&& grows(g.fed.net, net)
            &&& grows(g.wound.net, net)
            &&& grows(g.housed.net, net)
        }),
{
    reveal(run_of);
    reveal(mapped_of);
    let g = stages(m, doc);
    let net = run_of(m, doc).net;
    lemma_preserve_grows(doc, g.housed);
    lemma_finish_grows(m, doc, g.wound);
    lemma_grows_through(g.wound.net, g.housed.net, net);
    let ids = sorted_kind(doc, "TransformerTank"@);
    lemma_tanks_n_grows(m, doc, g.fed, ids, 0, ids.len());
    lemma_grows_through(g.fed.net, g.wound.net, net);
    let ids = sorted_kind(doc, "EnergySource"@);
    lemma_sources_n_grows(m, doc, g.inverted, ids, 0, ids.len());
    lemma_grows_through(g.inverted.net, g.fed.net, net);
    let ids = sorted_kind(doc, "PowerElectronicsConnection"@);
    lemma_electronics_n_grows(m, doc, g.driven, ids, 0, ids.len());
    lemma_grows_through(g.driven.net, g.inverted.net, net);
    let ids = machine_ids(doc);
    lemma_machines_n_grows(m, doc, g.shunted, ids, 0, ids.len());
    lemma_grows_through(g.shunted.net, g.driven.net, net);
    let ids = sorted_kind(doc, "LinearShuntCompensator"@);
    lemma_shunts_n_grows(m, doc, g.loaded, ids, 0, ids.len());
    lemma_grows_through(g.loaded.net, g.shunted.net, net);
    let ids = sorted_kind(doc, "EnergyConsumer"@);
    lemma_loads_n_grows(m, doc, g.switched, ids, 0, ids.len());
    lemma_grows_through(g.switched.net, g.loaded.net, net);
    let ids = switch_ids(doc);
    lemma_switches_n_grows(m, doc, g.lined, ids, 0, ids.len());
    lemma_grows_through(g.lined.net, g.switched.net, net);
    let ids = sorted_kind(doc, "ACLineSegment"@);
    lemma_lines_n_grows(m, doc, g.coded, ids, 0, ids.len());
    lemma_grows_through(g.coded.net, g.lined.net, net);
}

} // verus!
