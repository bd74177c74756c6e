//! Which list of a network each family of elements adds to.

use vstd::prelude::*;

use crate::math::Sem;
use crate::model::DistNetworkV;
use crate::ravens::doc::{sorted_kind, ObjV};
use crate::ravens::keeps::{
    group_keeps, group_parts, lemma_reactances_keep, lemma_windings_keep, stages,
};
use crate::ravens::lines::{
    line_step, linecode_step, linecodes_n, lines_n, switch_ids, switch_step, switches_n,
};
use crate::ravens::loads::{load_step, loads_n, shunt_step, shunts_n};
use crate::ravens::machines::{
    electronics_n, electronics_step, machine_ids, machine_step, machines_n, source_step, sources_n,
};
use crate::ravens::read::{
    buses_n, finish_buses_of, kept_n, kept_warnings, mapped_of, missing_n, preserve_of, run_of,
};
use crate::ravens::state::{empty_state, StateV};
use crate::ravens::tanks::{datasheet_of, ends_of, infos_of, tank_step, tanks_n, windings_n};

verus! {

/// Two networks with the same elements, but for the list of one family.
pub open spec fn same_but(a: DistNetworkV, b: DistNetworkV, k: int) -> bool {
    &&& k != 0 ==> a.buses == b.buses
    &&& k != 1 ==> a.lines == b.lines
    &&& k != 2 ==> a.switches == b.switches
    &&& k != 3 ==> a.loads == b.loads
    &&& k != 4 ==> a.shunts == b.shunts
    &&& k != 5 ==> a.generators == b.generators
    &&& k != 6 ==> a.ibrs == b.ibrs
    &&& k != 7 ==> a.sources == b.sources
    &&& k != 8 ==> a.transformers == b.transformers
}

proof fn lemma_line_adds(m: Sem, doc: Seq<ObjV>, st: StateV, o: ObjV)
    ensures
        same_but(st.net, line_step(m, doc, st, o).net, 1),
{
    broadcast use {group_keeps, group_parts};

}

proof fn lemma_switch_adds(m: Sem, doc: Seq<ObjV>, st: StateV, o: ObjV)
    ensures
        same_but(st.net, switch_step(m, doc, st, o).net, 2),
{
    broadcast use {group_keeps, group_parts};

}

proof fn lemma_load_adds(m: Sem, doc: Seq<ObjV>, st: StateV, o: ObjV)
    ensures
        same_but(st.net, load_step(m, doc, st, o).net, 3),
{
    broadcast use {group_keeps, group_parts};

}

proof fn lemma_shunt_adds(m: Sem, doc: Seq<ObjV>, st: StateV, o: ObjV)
    ensures
        same_but(st.net, shunt_step(m, doc, st, o).net, 4),
{
    broadcast use {group_keeps, group_parts};

}

proof fn lemma_machine_adds(m: Sem, doc: Seq<ObjV>, st: StateV, o: ObjV)
    ensures
        same_but(st.net, machine_step(m, doc, st, o).net, 5),
{
    broadcast use {group_keeps, group_parts};

}

proof fn lemma_electronics_adds(m: Sem, doc: Seq<ObjV>, st: StateV, o: ObjV)
    ensures
        same_but(st.net, electronics_step(m, doc, st, o).net, 6),
{
    broadcast use {group_keeps, group_parts};

}

proof fn lemma_source_adds(m: Sem, doc: Seq<ObjV>, st: StateV, o: ObjV)
    ensures
        same_but(st.net, source_step(m, doc, st, o).net, 7),
{
    broadcast use {group_keeps, group_parts};

}

proof fn lemma_linecode_adds(m: Sem, doc: Seq<ObjV>, st: StateV, o: ObjV)
    ensures
        same_but(st.net, linecode_step(m, st, o).net, -1),
{
    broadcast use {group_keeps, group_parts};

}

proof fn lemma_tank_adds(m: Sem, doc: Seq<ObjV>, st: StateV, o: ObjV)
    ensures
        same_but(st.net, tank_step(m, doc, st, o).net, 8),
{
    broadcast use {group_keeps, group_parts};

    if let Some(info) = datasheet_of(doc, o.props) {
        let infos = infos_of(info);
        let ends = ends_of(o.props);
        let e = windings_n(m, st, o.name, infos, ends, ends.len());
        lemma_windings_keep(m, st, o.name, infos, ends, ends.len());
        lemma_reactances_keep(m, e.st, o.name, e.windings.len(), infos);
    }
}

proof fn lemma_lines_n_adds(m: Sem, doc: Seq<ObjV>, st: StateV, ids: Seq<usize>, n: nat)
    ensures
        same_but(st.net, lines_n(m, doc, st, ids, n).net, 1),
    decreases n,
{
    if n > 0 {
        lemma_lines_n_adds(m, doc, st, ids, (n - 1) as nat);
        lemma_line_adds(
            m,
            doc,
            lines_n(m, doc, st, ids, (n - 1) as nat),
            doc[ids[n - 1] as int],
        );
    }
}

proof fn lemma_switches_n_adds(m: Sem, doc: Seq<ObjV>, st: StateV, ids: Seq<usize>, n: nat)
    ensures
        same_but(st.net, switches_n(m, doc, st, ids, n).net, 2),
    decreases n,
{
    if n > 0 {
        lemma_switches_n_adds(m, doc, st, ids, (n - 1) as nat);
        lemma_switch_adds(
            m,
            doc,
            switches_n(m, doc, st, ids, (n - 1) as nat),
            doc[ids[n - 1] as int],
        );
    }
}

proof fn lemma_loads_n_adds(m: Sem, doc: Seq<ObjV>, st: StateV, ids: Seq<usize>, n: nat)
    ensures
        same_but(st.net, loads_n(m, doc, st, ids, n).net, 3),
    decreases n,
{
    if n > 0 {
        lemma_loads_n_adds(m, doc, st, ids, (n - 1) as nat);
        lemma_load_adds(
            m,
            doc,
            loads_n(m, doc, st, ids, (n - 1) as nat),
            doc[ids[n - 1] as int],
        );
    }
}

proof fn lemma_shunts_n_adds(m: Sem, doc: Seq<ObjV>, st: StateV, ids: Seq<usize>, n: nat)
    ensures
        same_but(st.net, shunts_n(m, doc, st, ids, n).net, 4),
    decreases n,
{
    if n > 0 {
        lemma_shunts_n_adds(m, doc, st, ids, (n - 1) as nat);
        lemma_shunt_adds(
            m,
            doc,
            shunts_n(m, doc, st, ids, (n - 1) as nat),
            doc[ids[n - 1] as int],
        );
    }
}

proof fn lemma_machines_n_adds(m: Sem, doc: Seq<ObjV>, st: StateV, ids: Seq<usize>, n: nat)
    ensures
        same_but(st.net, machines_n(m, doc, st, ids, n).net, 5),
    decreases n,
{
    if n > 0 {
        lemma_machines_n_adds(m, doc, st, ids, (n - 1) as nat);
        lemma_machine_adds(
            m,
            doc,
            machines_n(m, doc, st, ids, (n - 1) as nat),
            doc[ids[n - 1] as int],
        );
    }
}

proof fn lemma_electronics_n_adds(m: Sem, doc: Seq<ObjV>, st: StateV, ids: Seq<usize>, n: nat)
    ensures
        same_but(st.net, electronics_n(m, doc, st, ids, n).net, 6),
    decreases n,
{
    if n > 0 {
        lemma_electronics_n_adds(m, doc, st, ids, (n - 1) as nat);
        lemma_electronics_adds(
            m,
            doc,
            electronics_n(m, doc, st, ids, (n - 1) as nat),
            doc[ids[n - 1] as int],
        );
    }
}

proof fn lemma_sources_n_adds(m: Sem, doc: Seq<ObjV>, st: StateV, ids: Seq<usize>, n: nat)
    ensures
        same_but(st.net, sources_n(m, doc, st, ids, n).net, 7),
    decreases n,
{
    if n > 0 {
        lemma_sources_n_adds(m, doc, st, ids, (n - 1) as nat);
        lemma_source_adds(
            m,
            doc,
            sources_n(m, doc, st, ids, (n - 1) as nat),
            doc[ids[n - 1] as int],
        );
    }
}

proof fn lemma_linecodes_n_adds(m: Sem, doc: Seq<ObjV>, st: StateV, ids: Seq<usize>, n: nat)
    ensures
        same_but(st.net, linecodes_n(m, doc, st, ids, n).net, -1),
    decreases n,
{
    if n > 0 {
        lemma_linecodes_n_adds(m, doc, st, ids, (n - 1) as nat);
        lemma_linecode_adds(
            m,
            doc,
            linecodes_n(m, doc, st, ids, (n - 1) as nat),
            doc[ids[n - 1] as int],
        );
    }
}

proof fn lemma_tanks_n_adds(m: Sem, doc: Seq<ObjV>, st: StateV, ids: Seq<usize>, n: nat)
    ensures
        same_but(st.net, tanks_n(m, doc, st, ids, n).net, 8),
    decreases n,
{
    if n > 0 {
        lemma_tanks_n_adds(m, doc, st, ids, (n - 1) as nat);
        lemma_tank_adds(
            m,
            doc,
            tanks_n(m, doc, st, ids, (n - 1) as nat),
            doc[ids[n - 1] as int],
        );
    }
}

proof fn lemma_buses_n_adds(m: Sem, doc: Seq<ObjV>, st: StateV, ids: Seq<usize>, n: nat)
    ensures
        same_but(st.net, buses_n(m, doc, st, ids, n).0.net, 0),
        buses_n(m, doc, st, ids, n).0.nodes == st.nodes,
    decreases n,
{
    if n > 0 {
        lemma_buses_n_adds(m, doc, st, ids, (n - 1) as nat);
    }
}

proof fn lemma_missing_adds(st: StateV, n: nat)
    ensures
        same_but(st.net, missing_n(st, n).net, 0),
    decreases n,
{
    broadcast use group_keeps;

    if n > 0 {
        lemma_missing_adds(st, (n - 1) as nat);
    }
}

proof fn lemma_kept_n_adds(doc: Seq<ObjV>, st: StateV, n: nat)
    ensures
        same_but(st.net, kept_n(doc, st, n).0.net, -1),
    decreases n,
{
    broadcast use group_keeps;

    if n > 0 {
        lemma_kept_n_adds(doc, st, (n - 1) as nat);
    }
}

proof fn lemma_kept_warnings_add(st: StateV, counts: Seq<(Seq<char>, usize)>, n: nat)
    ensures
        same_but(st.net, kept_warnings(st, counts, n).net, -1),
    decreases n,
{
    broadcast use group_keeps;

    if n > 0 {
        lemma_kept_warnings_add(st, counts, (n - 1) as nat);
    }
}

/// Each family fills its own list: the list of a network that is read is the one
/// that its family left, and was empty before.
#[verifier::rlimit(60)]
pub proof fn lemma_lists(m: Sem, doc: Seq<ObjV>)
    ensures
        ({
            let g = stages(m, doc);
            let net = run_of(m, doc).net;
            &&& g.coded.net.lines.len() == 0
            &&& g.lined.net.switches.len() == 0
            &&& g.switched.net.loads.len() == 0
            &&& g.inverted.net.sources.len() == 0
            &&& g.wound.net.buses.len() == 0
            &&& net.lines == g.lined.net.lines
            &&& net.switches == g.switched.net.switches
            &&& net.loads == g.loaded.net.loads
            &&& net.shunts == g.shunted.net.shunts
            &&& net.generators == g.driven.net.generators
            &&& net.ibrs == g.inverted.net.ibrs
            &&& net.sources == g.fed.net.sources
            &&& net.transformers == g.wound.net.transformers
            &&& net.buses == g.housed.net.buses
            &&& g.loaded.net.shunts.len() == 0
            &&& g.shunted.net.generators.len() == 0
            &&& g.driven.net.ibrs.len() == 0
            &&& g.fed.net.transformers.len() == 0
        }),
{
    broadcast use group_keeps;

    reveal(run_of);
    reveal(mapped_of);
    reveal(preserve_of);
    reveal(finish_buses_of);
    let g = stages(m, doc);
    let st = empty_state().warn(
        "MG-RAVENS carries no system frequency; base_frequency assumes the OpenDSS default (60 Hz)"@,
    );
    let ids = sorted_kind(doc, "PerLengthPhaseImpedance"@);
    lemma_linecodes_n_adds(m, doc, st, ids, ids.len());
    let ids = sorted_kind(doc, "ACLineSegment"@);
    lemma_lines_n_adds(m, doc, g.coded, ids, ids.len());
    let ids = switch_ids(doc);
    lemma_switches_n_adds(m, doc, g.lined, ids, ids.len());
    let ids = sorted_kind(doc, "EnergyConsumer"@);
    lemma_loads_n_adds(m, doc, g.switched, ids, ids.len());
    let ids = sorted_kind(doc, "LinearShuntCompensator"@);
    lemma_shunts_n_adds(m, doc, g.loaded, ids, ids.len());
    let ids = machine_ids(doc);
    lemma_machines_n_adds(m, doc, g.shunted, ids, ids.len());
    let ids = sorted_kind(doc, "PowerElectronicsConnection"@);
    lemma_electronics_n_adds(m, doc, g.driven, ids, ids.len());
    let ids = sorted_kind(doc, "EnergySource"@);
    lemma_sources_n_adds(m, doc, g.inverted, ids, ids.len());
    let ids = sorted_kind(doc, "TransformerTank"@);
    lemma_tanks_n_adds(m, doc, g.fed, ids, ids.len());
    let ids = sorted_kind(doc, "ConnectivityNode"@);
    lemma_buses_n_adds(m, doc, g.wound, ids, ids.len());
    let done = buses_n(m, doc, g.wound, ids, ids.len()).0;
    lemma_missing_adds(done, done.nodes.len());
    lemma_kept_n_adds(doc, g.housed, doc.len());
    let (kept, counts) = kept_n(doc, g.housed, doc.len());
    lemma_kept_warnings_add(kept, counts, counts.len());
}

} // verus!
