//! States that leave nothing untyped and use no node that is no bus.

use vstd::prelude::*;

use crate::json::Entries;
use crate::math::Sem;
use crate::model::{DistBusV, DistLineCodeV};
use crate::order::get_of;
use crate::ravens::doc::ObjV;
use crate::ravens::lines::{linecodes_n, mrid_extras};
use crate::ravens::read::declared;
use crate::ravens::state::{add_terminal_of, node_slot, touch_of, use_n, NodeUseV, StateV};
use crate::ravens::survive::{lemma_get_none, lemma_get_put};
use crate::text::{lemma_str_less_total, str_less};

verus! {

// ---- nodes -----------------------------------------------------------------

/// Every node in use is a bus.
pub open spec fn all_declared(s: Seq<NodeUseV>, buses: Seq<DistBusV>) -> bool {
    forall|i: int| 0 <= i < s.len() ==> declared(buses, (#[trigger] s[i]).node)
}

proof fn lemma_slot(s: Seq<NodeUseV>, node: Seq<char>, i: int)
    requires
        0 <= i <= s.len(),
    ensures
        i <= node_slot(s, node, i) <= s.len(),
    decreases s.len() - i,
{
    if i < s.len() {
        lemma_slot(s, node, i + 1);
    }
}

proof fn lemma_slot_stops(s: Seq<NodeUseV>, node: Seq<char>, i: int, k: int)
    requires
        0 <= i <= k < s.len(),
        !str_less(s[k].node, node),
    ensures
        node_slot(s, node, i) <= k,
    decreases k - i,
{
    if i < k {
        lemma_slot_stops(s, node, i + 1, k);
    }
}

proof fn lemma_touched(s: Seq<NodeUseV>, node: Seq<char>, buses: Seq<DistBusV>)
    requires
        all_declared(s, buses),
        declared(buses, node),
    ensures
        all_declared(touch_of(s, node), buses),
{
    lemma_slot(s, node, 0);
    let i = node_slot(s, node, 0);
    let t = s.insert(i, NodeUseV { node, terminals: seq![] });
    assert forall|k: int| 0 <= k < t.len() implies declared(buses, (#[trigger] t[k]).node) by {
        if k < i {
            assert(t[k] == s[k]);
        } else if k > i {
            assert(t[k] == s[k - 1]);
        }
    }
}

proof fn lemma_added(s: Seq<NodeUseV>, node: Seq<char>, t: u8, buses: Seq<DistBusV>)
    requires
        all_declared(s, buses),
        declared(buses, node),
    ensures
        all_declared(add_terminal_of(s, node, t), buses),
{
    lemma_touched(s, node, buses);
    let s1 = touch_of(s, node);
    lemma_slot(s, node, 0);
    let i = node_slot(s, node, 0);
    lemma_str_less_total(node, node);
    lemma_slot_stops(s1, node, 0, i);
    lemma_slot(s1, node, 0);
    let r = add_terminal_of(s, node, t);
    assert forall|k: int| 0 <= k < r.len() implies declared(buses, (#[trigger] r[k]).node) by {
        assert(r[k].node == s1[k].node);
    }
}

proof fn lemma_used(
    s: Seq<NodeUseV>,
    node: Seq<char>,
    terms: Seq<Seq<char>>,
    n: nat,
    buses: Seq<DistBusV>,
)
    requires
        all_declared(s, buses),
        declared(buses, node),
    ensures
        all_declared(use_n(s, node, terms, n), buses),
    decreases n,
{
    if n == 0 {
        lemma_touched(s, node, buses);
    } else {
        lemma_used(s, node, terms, (n - 1) as nat, buses);
        let before = use_n(s, node, terms, (n - 1) as nat);
        assert forall|t: u8| all_declared(#[trigger] add_terminal_of(before, node, t), buses) by {
            lemma_added(before, node, t, buses);
        }
    }
}

pub broadcast proof fn lemma_use_declared(
    st: StateV,
    node: Seq<char>,
    terms: Seq<Seq<char>>,
    buses: Seq<DistBusV>,
)
    ensures
        all_declared(st.nodes, buses) && declared(buses, node) ==> #[trigger] all_declared(
            st.use_terminals(node, terms).nodes,
            buses,
        ),
{
    reveal(StateV::use_terminals);
    if all_declared(st.nodes, buses) && declared(buses, node) {
        lemma_used(st.nodes, node, terms, terms.len(), buses);
    }
}

pub broadcast proof fn lemma_ground_declared(st: StateV, node: Seq<char>, buses: Seq<DistBusV>)
    ensures
        all_declared(st.nodes, buses) && declared(buses, node) ==> #[trigger] all_declared(
            st.ground_node(node).nodes,
            buses,
        ),
{
    reveal(StateV::ground_node);
    if all_declared(st.nodes, buses) && declared(buses, node) {
        lemma_added(st.nodes, node, 4, buses);
    }
}

pub broadcast proof fn lemma_use_plain(st: StateV, node: Seq<char>, terms: Seq<Seq<char>>)
    ensures
        (#[trigger] st.use_terminals(node, terms)).net == st.net,
{
    reveal(StateV::use_terminals);
}

/// A state goes on without leaving anything untyped, rating a line code or using
/// a node that is no bus.
pub open spec fn plainly(a: StateV, b: StateV, buses: Seq<DistBusV>) -> bool {
    &&& b.net.untyped == a.net.untyped
    &&& b.net.linecodes == a.net.linecodes
    &&& all_declared(a.nodes, buses) ==> all_declared(b.nodes, buses)
}

// ---- lines -----------------------------------------------------------------

pub proof fn lemma_no_normal(props: Entries)
    ensures
        get_of(mrid_extras(props), "normamps"@) is None,
{
    broadcast use lemma_get_put;

    reveal_strlit("ravens_mrid");
    reveal_strlit("normamps");
    assert("ravens_mrid"@.len() == 11 && "normamps"@.len() == 8);
    lemma_get_none("normamps"@);
    reveal(mrid_extras);
}

// ---- switches --------------------------------------------------------------

// ---- line codes ------------------------------------------------------------

/// No code has a rating.
pub open spec fn unrated(s: Seq<DistLineCodeV>) -> bool {
    forall|i: int| 0 <= i < s.len() ==> (#[trigger] s[i]).i_max is None
}

/// The line codes of a document have no ratings before a line gives them one.
pub proof fn lemma_codes_plain(m: Sem, doc: Seq<ObjV>, st: StateV, ids: Seq<usize>, n: nat)
    requires
        unrated(st.net.linecodes),
    ensures
        unrated(linecodes_n(m, doc, st, ids, n).net.linecodes),
        linecodes_n(m, doc, st, ids, n).net.untyped == st.net.untyped,
        linecodes_n(m, doc, st, ids, n).nodes == st.nodes,
    decreases n,
{
    if n > 0 {
        lemma_codes_plain(m, doc, st, ids, (n - 1) as nat);
        reveal(StateV::warn);
    }
}

} // verus!
