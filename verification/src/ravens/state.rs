//! What a reader has gathered so far: the network, and how each node is used.

use vstd::prelude::*;

use crate::json::{compact_json, json_compact, lemma_json_view, Json, JsonV};
use crate::model::{
    dist_network_of, untyped_object_of, Defaulted, DefaultedV, DistNetwork, DistNetworkV, Prop,
    PropV, UntypedObject, UntypedObjectV,
};
use crate::numeral::{parse_uint, parse_unsigned};
use crate::order::{byte_put, byte_put_of, set_put, set_put_of};
use crate::ravens::doc::{Obj, ObjV};
use crate::text::{
    cat3, cat6, group_views, join, join_of, lemma_str_less_total, less, same, str_less, views,
};

verus! {

// ---- node use --------------------------------------------------------------

/// A node and the terminals it was seen with, ascending.
pub struct NodeUse {
    pub node: String,
    pub terminals: Vec<u8>,
}

pub struct NodeUseV {
    pub node: Seq<char>,
    pub terminals: Seq<u8>,
}

impl View for NodeUse {
    type V = NodeUseV;

    open spec fn view(&self) -> NodeUseV {
        NodeUseV { node: self.node@, terminals: self.terminals@ }
    }
}

/// The first node, from the `i`-th on, that does not come before `node`.
pub open spec fn node_slot(s: Seq<NodeUseV>, node: Seq<char>, i: int) -> int
    decreases s.len() - i,
{
    if i < 0 || i >= s.len() || !str_less(s[i].node, node) {
        i
    } else {
        node_slot(s, node, i + 1)
    }
}

/// The nodes, in order, with an entry for `node`.
pub open spec fn touch_of(s: Seq<NodeUseV>, node: Seq<char>) -> Seq<NodeUseV> {
    let i = node_slot(s, node, 0);
    if i < s.len() && s[i].node == node {
        s
    } else {
        s.insert(i, NodeUseV { node, terminals: seq![] })
    }
}

/// The nodes with a terminal added at `node`.
pub open spec fn add_terminal_of(s: Seq<NodeUseV>, node: Seq<char>, t: u8) -> Seq<NodeUseV> {
    let s = touch_of(s, node);
    let i = node_slot(s, node, 0);
    s.update(i, NodeUseV { terminals: byte_put_of(s[i].terminals, t), ..s[i] })
}

/// The number a terminal name is, where it is one of a byte.
pub open spec fn terminal_number(t: Seq<char>) -> Option<u8> {
    match parse_unsigned(t, 255) {
        Some(n) => Some(n as u8),
        None => None,
    }
}

pub open spec fn use_n(s: Seq<NodeUseV>, node: Seq<char>, terms: Seq<Seq<char>>, n: nat) -> Seq<
    NodeUseV,
>
    decreases n,
{
    if n == 0 {
        touch_of(s, node)
    } else {
        let before = use_n(s, node, terms, (n - 1) as nat);
        match terminal_number(terms[n - 1]) {
            Some(t) => add_terminal_of(before, node, t),
            None => before,
        }
    }
}

/// The terminals in use at a node; none where it was never seen.
pub open spec fn uses_of(s: Seq<NodeUseV>, node: Seq<char>) -> Option<Seq<u8>> {
    let i = node_slot(s, node, 0);
    if i < s.len() && s[i].node == node {
        Some(s[i].terminals)
    } else {
        None
    }
}

fn find_node(s: &Vec<NodeUse>, node: &str) -> (r: usize)
    ensures
        r == node_slot(views(s@), node@, 0),
        r <= s.len(),
{
    let mut i: usize = 0;
    while i < s.len() && less(s[i].node.as_str(), node)
        invariant
            i <= s.len(),
            node_slot(views(s@), node@, 0) == node_slot(views(s@), node@, i as int),
        decreases s.len() - i,
    {
        assert(views(s@)[i as int] == s@[i as int]@);
        i = i + 1;
    }
    if i < s.len() {
        assert(views(s@)[i as int] == s@[i as int]@);
    }
    assert(views(s@).len() == s.len());
    i
}

/// A slot found once is found again when its node is put there.
proof fn lemma_slot_insert(s: Seq<NodeUseV>, node: Seq<char>, i: int)
    requires
        0 <= i <= node_slot(s, node, 0) <= s.len(),
        node_slot(s, node, 0) == node_slot(s, node, i),
    ensures
        ({
            let k = node_slot(s, node, 0);
            node_slot(s.insert(k, NodeUseV { node, terminals: seq![] }), node, i) == k
        }),
    decreases s.len() - i,
{
    let k = node_slot(s, node, 0);
    let t = s.insert(k, NodeUseV { node, terminals: seq![] });
    lemma_str_less_total(node, node);
    if i < k {
        assert(t[i] == s[i]);
        lemma_slot_insert(s, node, i + 1);
    } else {
        assert(t[k].node == node);
    }
}

fn touch(s: &mut Vec<NodeUse>, node: &str) -> (r: usize)
    ensures
        views(final(s)@) == touch_of(views(old(s)@), node@),
        r == node_slot(views(final(s)@), node@, 0),
        r < final(s)@.len(),
{
    let ghost before = views(s@);
    let i = find_node(s, node);
    if i < s.len() {
        assert(views(s@)[i as int] == s@[i as int]@);
        if same(s[i].node.as_str(), node) {
            return i;
        }
    }
    s.insert(i, NodeUse { node: node.to_owned(), terminals: Vec::new() });
    proof {
        let fresh = NodeUseV { node: node@, terminals: seq![] };
        assert(s@[i as int]@.terminals =~= fresh.terminals);
        assert(views(s@) =~= before.insert(i as int, fresh));
        lemma_slot_insert(before, node@, 0);
    }
    i
}

fn add_terminal(s: &mut Vec<NodeUse>, node: &str, t: u8)
    ensures
        views(final(s)@) == add_terminal_of(views(old(s)@), node@, t),
{
    let i = touch(s, node);
    let ghost before = views(s@);
    assert(before[i as int] == s@[i as int]@);
    let ghost was = s@[i as int];
    byte_put(&mut s[i].terminals, t);
    assert(s@[i as int].node == was.node);
    assert(views(s@) =~= before.update(
        i as int,
        NodeUseV {
            terminals: byte_put_of(before[i as int].terminals, t),
            ..before[i as int]
        },
    ));
}

fn use_node(s: &mut Vec<NodeUse>, node: &str, terms: &Vec<String>)
    ensures
        views(final(s)@) == use_n(views(old(s)@), node@, views(terms@), terms@.len()),
{
    let _ = touch(s, node);
    let mut n: usize = 0;
    while n < terms.len()
        invariant
            n <= terms.len(),
            views(s@) == use_n(views(old(s)@), node@, views(terms@), n as nat),
        decreases terms.len() - n,
    {
        assert(views(terms@)[n as int] == terms@[n as int]@);
        if let Some(t) = parse_uint(terms[n].as_str(), 255) {
            add_terminal(s, node, t as u8);
        }
        n = n + 1;
    }
}

// ---- defaulted fields ------------------------------------------------------

pub open spec fn default_slot(s: Seq<DefaultedV>, element: Seq<char>, i: int) -> int
    decreases s.len() - i,
{
    if i < 0 || i >= s.len() || !str_less(s[i].element, element) {
        i
    } else {
        default_slot(s, element, i + 1)
    }
}

/// The defaulted fields, by element, with one more.
pub open spec fn default_put_of(s: Seq<DefaultedV>, element: Seq<char>, field: Seq<char>) -> Seq<
    DefaultedV,
> {
    let i = default_slot(s, element, 0);
    if i < s.len() && s[i].element == element {
        s.update(i, DefaultedV { fields: s[i].fields.push(field), ..s[i] })
    } else {
        s.insert(i, DefaultedV { element, fields: seq![field] })
    }
}

fn default_put(s: &mut Vec<Defaulted>, element: String, field: &str)
    ensures
        views(final(s)@) == default_put_of(views(old(s)@), element@, field@),
{
    broadcast use group_views;

    let ghost before = views(s@);
    let mut i: usize = 0;
    while i < s.len() && less(s[i].element.as_str(), element.as_str())
        invariant
            i <= s.len(),
            views(s@) == before,
            s@ == old(s)@,
            default_slot(before, element@, 0) == default_slot(before, element@, i as int),
        decreases s.len() - i,
    {
        assert(views(s@)[i as int] == s@[i as int]@);
        i = i + 1;
    }
    assert(before.len() == s.len());
    if i < s.len() {
        assert(views(s@)[i as int] == s@[i as int]@);
        if same(s[i].element.as_str(), element.as_str()) {
            let ghost was = s@[i as int];
            s[i].fields.push(field.to_owned());
            assert(s@[i as int].element == was.element);
            assert(views(s@[i as int].fields@) == views(was.fields@).push(field@));
            assert(views(s@) =~= before.update(
                i as int,
                DefaultedV {
                    fields: before[i as int].fields.push(field@),
                    ..before[i as int]
                },
            ));
            return;
        }
    }
    let ghost name = element@;
    let mut fields: Vec<String> = Vec::new();
    fields.push(field.to_owned());
    assert(views(fields@) =~= seq![field@]);
    s.insert(i, Defaulted { element, fields });
    assert(views(s@) =~= before.insert(
        i as int,
        DefaultedV { element: name, fields: seq![field@] },
    ));
}

// ---- the state -------------------------------------------------------------

pub struct StateV {
    pub net: DistNetworkV,
    pub nodes: Seq<NodeUseV>,
    pub grounded: Seq<Seq<char>>,
}

impl StateV {
    #[verifier::opaque]
    pub open spec fn warn(self, s: Seq<char>) -> StateV {
        StateV { net: DistNetworkV { warnings: self.net.warnings.push(s), ..self.net }, ..self }
    }

    /// Records that a field of an element was filled in.
    #[verifier::opaque]
    pub open spec fn defaulted(
        self,
        class: Seq<char>,
        name: Seq<char>,
        field: Seq<char>,
    ) -> StateV {
        StateV {
            net: DistNetworkV {
                defaulted: default_put_of(self.net.defaulted, class + "."@ + name, field),
                ..self.net
            },
            ..self
        }
    }

    /// Records the terminals an element presents at a node.
    #[verifier::opaque]
    pub open spec fn use_terminals(self, node: Seq<char>, terms: Seq<Seq<char>>) -> StateV {
        StateV { nodes: use_n(self.nodes, node, terms, terms.len()), ..self }
    }

    /// Records that a node's neutral is grounded.
    #[verifier::opaque]
    pub open spec fn ground_node(self, node: Seq<char>) -> StateV {
        StateV {
            nodes: add_terminal_of(self.nodes, node, 4),
            grounded: set_put_of(self.grounded, node),
            ..self
        }
    }

    /// Keeps an object as it stands in the document.
    #[verifier::opaque]
    pub open spec fn push_untyped(self, o: ObjV) -> StateV {
        StateV {
            net: DistNetworkV { untyped: self.net.untyped.push(untyped_of(o)), ..self.net },
            ..self
        }
    }

    /// Keeps an object as it stands, and says why.
    pub open spec fn keep_untyped(self, o: ObjV, why: Seq<char>) -> StateV {
        self.warn(
            o.kind + " "@ + o.name + ": "@ + why
                + "; preserved untyped (round-trips to MG-RAVENS, dropped elsewhere)"@,
        ).push_untyped(o)
    }
}

/// An object as an untyped one: the path it was found at and its text.
pub open spec fn untyped_of(o: ObjV) -> UntypedObjectV {
    untyped_object_of(
        o.kind,
        o.name,
        seq![
            PropV { key: Some("ravens_path"@), value: join_of(o.path, "/"@) },
            PropV { key: Some("ravens_json"@), value: json_compact(JsonV::Obj(o.props)) },
        ],
    )
}

pub struct State {
    pub net: DistNetwork,
    pub nodes: Vec<NodeUse>,
    pub grounded: Vec<String>,
}

impl View for State {
    type V = StateV;

    open spec fn view(&self) -> StateV {
        StateV { net: self.net@, nodes: views(self.nodes@), grounded: views(self.grounded@) }
    }
}

/// Nothing gathered yet.
pub open spec fn empty_state() -> StateV {
    StateV { net: dist_network_of(), nodes: seq![], grounded: seq![] }
}

impl State {
    pub fn new() -> (r: State)
        ensures
            r@ == empty_state(),
    {
        broadcast use group_views;

        let r = State { net: DistNetwork::new(), nodes: Vec::new(), grounded: Vec::new() };
        assert(r@.nodes =~= seq![]);
        assert(r@.grounded =~= seq![]);
        r
    }

    pub fn warn(&mut self, s: String)
        ensures
            final(self)@ == old(self)@.warn(s@),
    {
        broadcast use group_views;

        reveal(StateV::warn);
        self.net.warnings.push(s);
    }

    pub fn defaulted(&mut self, class: &str, name: &str, field: &str)
        ensures
            final(self)@ == old(self)@.defaulted(class@, name@, field@),
    {
        reveal(StateV::defaulted);
        let element = cat3(class, ".", name);
        default_put(&mut self.net.defaulted, element, field);
    }

    pub fn use_terminals(&mut self, node: &str, terms: &Vec<String>)
        ensures
            final(self)@ == old(self)@.use_terminals(node@, views(terms@)),
    {
        reveal(StateV::use_terminals);
        assert(views(terms@).len() == terms@.len());
        use_node(&mut self.nodes, node, terms);
    }

    pub fn ground_node(&mut self, node: &str)
        ensures
            final(self)@ == old(self)@.ground_node(node@),
    {
        reveal(StateV::ground_node);
        add_terminal(&mut self.nodes, node, 4);
        set_put(&mut self.grounded, node);
    }

    pub fn push_untyped(&mut self, o: &Obj)
        ensures
            final(self)@ == old(self)@.push_untyped(o@),
    {
        broadcast use group_views, lemma_json_view;

        reveal(StateV::push_untyped);
        let raw = compact_json(&Json::Obj(o.props.copy()));
        let path = join(&o.path, "/");
        let mut props: Vec<Prop> = Vec::new();
        props.push(Prop { key: Some("ravens_path".to_owned()), value: path });
        props.push(Prop { key: Some("ravens_json".to_owned()), value: raw });
        assert(views(props@) =~= untyped_of(o@).props);
        let u = UntypedObject::new(o.kind.clone(), o.name.clone(), props);
        self.net.untyped.push(u);
    }

    pub fn keep_untyped(&mut self, o: &Obj, why: &str)
        ensures
            final(self)@ == old(self)@.keep_untyped(o@, why@),
    {
        self.warn(
            cat6(
                o.kind.as_str(),
                " ",
                o.name.as_str(),
                ": ",
                why,
                "; preserved untyped (round-trips to MG-RAVENS, dropped elsewhere)",
            ),
        );
        self.push_untyped(o);
    }

    /// The terminals in use at a node.
    pub fn uses(&self, node: &str) -> (r: Option<&Vec<u8>>)
        ensures
            match r {
                Some(t) => uses_of(self@.nodes, node@) == Some(t@),
                None => uses_of(self@.nodes, node@) is None,
            },
    {
        let i = find_node(&self.nodes, node);
        assert(self@.nodes.len() == self.nodes.len());
        if i < self.nodes.len() {
            assert(self@.nodes[i as int] == self.nodes@[i as int]@);
            if same(self.nodes[i].node.as_str(), node) {
                return Some(&self.nodes[i].terminals);
            }
        }
        None
    }
}

} // verus!
