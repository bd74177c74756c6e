//! Which terminals, ends and phases of a store belong to an equipment, and which
//! wires it is on.

use vstd::prelude::*;

use crate::cim::phase::{expand_of, lemma_code_names_its_wires, names_from, phase_terminal_of};
use crate::cim::read::{
    buses_of, derived_bus, line_use, load_use, network_of, shunt_use, source_use, switch_use,
    transformer_use, use_at, used_terminals, winding_use, ElementsV, children_n, children_of,
    ends_n, ends_of, firsts, sequence_of, terminal_map_of, terminals_n, terminals_of,
};
use crate::cim::store::StoreV;
use crate::math::{total_rank, Bits, Sem, ONE};
use crate::model::{
    DistLineV, DistLoadV, DistNetworkV, DistShuntV, DistSwitchV, DistTransformerV, VoltageSourceV,
    WindingV,
};
use crate::order::{
    ascending, insert_by_key_of, insert_by_rank_of, lemma_set_extend, slot_by_key, slot_by_rank,
};
use crate::terminals::three_phases;
use crate::text::{lower_of, str_less};

verus! {

// ---- by rank ---------------------------------------------------------------

/// Nothing stands before what it should follow.
pub open spec fn rising(s: Seq<(Bits, Seq<char>)>) -> bool {
    forall|i: int, j: int|
        0 <= i < j < s.len() ==> total_rank((#[trigger] s[i]).0) <= total_rank((#[trigger] s[j]).0)
}

/// A list holds an object under a rank.
pub open spec fn ranks(s: Seq<(Bits, Seq<char>)>, rank: Bits, id: Seq<char>) -> bool {
    exists|k: int| 0 <= k < s.len() && #[trigger] s[k] == (rank, id)
}

proof fn lemma_slot_by_rank(s: Seq<(Bits, Seq<char>)>, rank: Bits, i: int)
    requires
        rising(s),
        0 <= i <= s.len(),
        forall|k: int| 0 <= k < i ==> total_rank((#[trigger] s[k]).0) <= total_rank(rank),
    ensures
        i <= slot_by_rank(s, rank, i) <= s.len(),
        forall|k: int|
            0 <= k < slot_by_rank(s, rank, i) ==> total_rank((#[trigger] s[k]).0) <= total_rank(
                rank,
            ),
        forall|k: int|
            slot_by_rank(s, rank, i) <= k < s.len() ==> total_rank(rank) <= total_rank(
                (#[trigger] s[k]).0,
            ),
    decreases s.len() - i,
{
    if i < s.len() {
        if total_rank(rank) < total_rank(s[i].0) {
            assert forall|k: int| i <= k < s.len() implies total_rank(rank) <= total_rank(
                (#[trigger] s[k]).0,
            ) by {
                if k > i {
                    assert(total_rank(s[i].0) <= total_rank(s[k].0));
                }
            }
        } else {
            lemma_slot_by_rank(s, rank, i + 1);
        }
    }
}

proof fn lemma_inserted(s: Seq<(Bits, Seq<char>)>, x: (Bits, Seq<char>))
    requires
        rising(s),
    ensures
        rising(insert_by_rank_of(s, x)),
        insert_by_rank_of(s, x).len() == s.len() + 1,
        forall|rank: Bits, id: Seq<char>| #[trigger]
            ranks(insert_by_rank_of(s, x), rank, id) == (ranks(s, rank, id) || x == (rank, id)),
{
    let at = slot_by_rank(s, x.0, 0);
    lemma_slot_by_rank(s, x.0, 0);
    let r = insert_by_rank_of(s, x);
    assert(r[at] == x);
    assert forall|rank: Bits, id: Seq<char>| #[trigger]
        ranks(r, rank, id) == (ranks(s, rank, id) || x == (rank, id)) by {
        if ranks(s, rank, id) {
            let k = choose|k: int| 0 <= k < s.len() && #[trigger] s[k] == (rank, id);
            if k < at {
                assert(r[k] == (rank, id));
            } else {
                assert(r[k + 1] == (rank, id));
            }
        }
        if ranks(r, rank, id) {
            let k = choose|k: int| 0 <= k < r.len() && #[trigger] r[k] == (rank, id);
            if k < at {
                assert(s[k] == (rank, id));
            } else if k > at {
                assert(s[k - 1] == (rank, id));
            }
        }
    }
}

/// A terminal of an equipment, by its own sequence number, else by the number of
/// its class, else by one.
pub open spec fn is_terminal(
    m: Sem,
    s: StoreV,
    eq: Seq<char>,
    ids: Seq<Seq<char>>,
    n: int,
    rank: Bits,
    id: Seq<char>,
) -> bool {
    &&& s.refv(id, "Terminal.ConductingEquipment"@) == Some(eq)
    &&& rank == match s.number(m, id, "ACDCTerminal.sequenceNumber"@) {
        Some(x) => x,
        None => s.number_or(m, id, "Terminal.sequenceNumber"@, ONE),
    }
    &&& exists|k: int| 0 <= k < n && #[trigger] ids[k] == id
}

proof fn lemma_terminals_n(m: Sem, s: StoreV, eq: Seq<char>, ids: Seq<Seq<char>>, n: nat)
    requires
        n <= ids.len(),
    ensures
        rising(terminals_n(m, s, eq, ids, n)),
        forall|rank: Bits, id: Seq<char>| #[trigger]
            ranks(terminals_n(m, s, eq, ids, n), rank, id) == is_terminal(
                m,
                s,
                eq,
                ids,
                n as int,
                rank,
                id,
            ),
    decreases n,
{
    if n > 0 {
        lemma_terminals_n(m, s, eq, ids, (n - 1) as nat);
        let before = terminals_n(m, s, eq, ids, (n - 1) as nat);
        let last = ids[n - 1];
        let x = (sequence_of(m, s, last), last);
        lemma_inserted(before, x);
        let after = terminals_n(m, s, eq, ids, n);
        assert forall|rank: Bits, id: Seq<char>| #[trigger]
            ranks(after, rank, id) == is_terminal(m, s, eq, ids, n as int, rank, id) by {
            assert(ranks(before, rank, id) == is_terminal(m, s, eq, ids, n - 1, rank, id));
            if is_terminal(m, s, eq, ids, n as int, rank, id) {
                let k = choose|k: int| 0 <= k < n && #[trigger] ids[k] == id;
                if k < n - 1 {
                    assert(is_terminal(m, s, eq, ids, n - 1, rank, id));
                }
            }
            if is_terminal(m, s, eq, ids, n - 1, rank, id) {
                let k = choose|k: int| 0 <= k < n - 1 && #[trigger] ids[k] == id;
                assert(ids[k] == id && k < n);
            }
        }
    }
}

/// The terminals of an equipment are those that refer to it, by sequence number.
pub proof fn lemma_terminals_are_own(m: Sem, s: StoreV, eq: Seq<char>)
    ensures
        ({
            let ids = s.of_class("Terminal"@);
            &&& rising(terminals_of(m, s, eq))
            &&& forall|rank: Bits, id: Seq<char>| #[trigger]
                ranks(terminals_of(m, s, eq), rank, id) == is_terminal(
                    m,
                    s,
                    eq,
                    ids,
                    ids.len() as int,
                    rank,
                    id,
                )
        }),
{
    reveal(terminals_of);
    let ids = s.of_class("Terminal"@);
    lemma_terminals_n(m, s, eq, ids, ids.len());
}

/// An end of a transformer, by its number, else by one.
pub open spec fn is_end(
    m: Sem,
    s: StoreV,
    xf: Seq<char>,
    ids: Seq<Seq<char>>,
    n: int,
    rank: Bits,
    id: Seq<char>,
) -> bool {
    &&& s.refv(id, "PowerTransformerEnd.PowerTransformer"@) == Some(xf)
    &&& rank == s.number_or(m, id, "TransformerEnd.endNumber"@, ONE)
    &&& exists|k: int| 0 <= k < n && #[trigger] ids[k] == id
}

proof fn lemma_ends_n(m: Sem, s: StoreV, xf: Seq<char>, ids: Seq<Seq<char>>, n: nat)
    requires
        n <= ids.len(),
    ensures
        rising(ends_n(m, s, xf, ids, n)),
        forall|rank: Bits, id: Seq<char>| #[trigger]
            ranks(ends_n(m, s, xf, ids, n), rank, id) == is_end(
                m,
                s,
                xf,
                ids,
                n as int,
                rank,
                id,
            ),
    decreases n,
{
    if n > 0 {
        lemma_ends_n(m, s, xf, ids, (n - 1) as nat);
        let before = ends_n(m, s, xf, ids, (n - 1) as nat);
        let last = ids[n - 1];
        let x = (s.number_or(m, last, "TransformerEnd.endNumber"@, ONE), last);
        lemma_inserted(before, x);
        let after = ends_n(m, s, xf, ids, n);
        assert forall|rank: Bits, id: Seq<char>| #[trigger]
            ranks(after, rank, id) == is_end(m, s, xf, ids, n as int, rank, id) by {
            assert(ranks(before, rank, id) == is_end(m, s, xf, ids, n - 1, rank, id));
            if is_end(m, s, xf, ids, n as int, rank, id) {
                let k = choose|k: int| 0 <= k < n && #[trigger] ids[k] == id;
                if k < n - 1 {
                    assert(is_end(m, s, xf, ids, n - 1, rank, id));
                }
            }
            if is_end(m, s, xf, ids, n - 1, rank, id) {
                let k = choose|k: int| 0 <= k < n - 1 && #[trigger] ids[k] == id;
                assert(ids[k] == id && k < n);
            }
        }
    }
}

/// The ends of a transformer are those that refer to it, by number.
pub proof fn lemma_ends_are_own(m: Sem, s: StoreV, xf: Seq<char>)
    ensures
        ({
            let ids = s.of_class("PowerTransformerEnd"@);
            &&& rising(ends_of(m, s, xf))
            &&& forall|rank: Bits, id: Seq<char>| #[trigger]
                ranks(ends_of(m, s, xf), rank, id) == is_end(
                    m,
                    s,
                    xf,
                    ids,
                    ids.len() as int,
                    rank,
                    id,
                )
        }),
{
    reveal(ends_of);
    let ids = s.of_class("PowerTransformerEnd"@);
    lemma_ends_n(m, s, xf, ids, ids.len());
}

// ---- phases ----------------------------------------------------------------

/// A phase object of an equipment, on the wire of its phase.
pub open spec fn is_child(
    s: StoreV,
    class: Seq<char>,
    parent_ref: Seq<char>,
    parent: Seq<char>,
    ids: Seq<Seq<char>>,
    n: int,
    wire: Seq<char>,
    id: Seq<char>,
) -> bool {
    &&& s.refv(id, parent_ref) == Some(parent)
    &&& s.enum_value(id, class + ".phase"@) matches Some(phase)
    &&& phase_terminal_of(phase) == Some(wire)
    &&& exists|k: int| 0 <= k < n && #[trigger] ids[k] == id
}

/// A list holds an object under a wire.
pub open spec fn wires(s: Seq<(Seq<char>, Seq<char>)>, wire: Seq<char>, id: Seq<char>) -> bool {
    exists|k: int| 0 <= k < s.len() && #[trigger] s[k] == (wire, id)
}

proof fn lemma_slot_by_key(s: Seq<(Seq<char>, Seq<char>)>, key: Seq<char>, i: int)
    requires
        0 <= i <= s.len(),
    ensures
        i <= slot_by_key(s, key, i) <= s.len(),
    decreases s.len() - i,
{
    if i < s.len() && !str_less(key, s[i].0) {
        lemma_slot_by_key(s, key, i + 1);
    }
}

proof fn lemma_inserted_by_key(s: Seq<(Seq<char>, Seq<char>)>, x: (Seq<char>, Seq<char>))
    ensures
        insert_by_key_of(s, x).len() == s.len() + 1,
        forall|wire: Seq<char>, id: Seq<char>| #[trigger]
            wires(insert_by_key_of(s, x), wire, id) == (wires(s, wire, id) || x == (wire, id)),
{
    let at = slot_by_key(s, x.0, 0);
    lemma_slot_by_key(s, x.0, 0);
    let r = insert_by_key_of(s, x);
    assert(r[at] == x);
    assert forall|wire: Seq<char>, id: Seq<char>| #[trigger]
        wires(r, wire, id) == (wires(s, wire, id) || x == (wire, id)) by {
        if wires(s, wire, id) {
            let k = choose|k: int| 0 <= k < s.len() && #[trigger] s[k] == (wire, id);
            if k < at {
                assert(r[k] == (wire, id));
            } else {
                assert(r[k + 1] == (wire, id));
            }
        }
        if wires(r, wire, id) {
            let k = choose|k: int| 0 <= k < r.len() && #[trigger] r[k] == (wire, id);
            if k < at {
                assert(s[k] == (wire, id));
            } else if k > at {
                assert(s[k - 1] == (wire, id));
            }
        }
    }
}

proof fn lemma_children_n(
    s: StoreV,
    class: Seq<char>,
    parent_ref: Seq<char>,
    parent: Seq<char>,
    ids: Seq<Seq<char>>,
    n: nat,
)
    requires
        n <= ids.len(),
    ensures
        forall|wire: Seq<char>, id: Seq<char>| #[trigger]
            wires(children_n(s, class, parent_ref, parent, ids, n), wire, id) == is_child(
                s,
                class,
                parent_ref,
                parent,
                ids,
                n as int,
                wire,
                id,
            ),
    decreases n,
{
    if n > 0 {
        lemma_children_n(s, class, parent_ref, parent, ids, (n - 1) as nat);
        let before = children_n(s, class, parent_ref, parent, ids, (n - 1) as nat);
        let last = ids[n - 1];
        if let Some(phase) = s.enum_value(last, class + ".phase"@) {
            if let Some(t) = phase_terminal_of(phase) {
                lemma_inserted_by_key(before, (t, last));
            }
        }
        let after = children_n(s, class, parent_ref, parent, ids, n);
        assert forall|wire: Seq<char>, id: Seq<char>| #[trigger]
            wires(after, wire, id) == is_child(
                s,
                class,
                parent_ref,
                parent,
                ids,
                n as int,
                wire,
                id,
            ) by {
            assert(wires(before, wire, id) == is_child(
                s,
                class,
                parent_ref,
                parent,
                ids,
                n - 1,
                wire,
                id,
            ));
            if is_child(s, class, parent_ref, parent, ids, n as int, wire, id) {
                let k = choose|k: int| 0 <= k < n && #[trigger] ids[k] == id;
                if k < n - 1 {
                    assert(is_child(s, class, parent_ref, parent, ids, n - 1, wire, id));
                }
            }
            if is_child(s, class, parent_ref, parent, ids, n - 1, wire, id) {
                let k = choose|k: int| 0 <= k < n - 1 && #[trigger] ids[k] == id;
                assert(ids[k] == id && k < n);
            }
        }
    }
}

/// The phases of an equipment are the objects that refer to it, each on the wire of
/// its phase.
pub proof fn lemma_children_are_own(
    s: StoreV,
    class: Seq<char>,
    parent_ref: Seq<char>,
    parent: Seq<char>,
)
    ensures
        ({
            let ids = s.of_class(class);
            forall|wire: Seq<char>, id: Seq<char>| #[trigger]
                wires(children_of(s, class, parent_ref, parent), wire, id) == is_child(
                    s,
                    class,
                    parent_ref,
                    parent,
                    ids,
                    ids.len() as int,
                    wire,
                    id,
                )
        }),
{
    reveal(children_of);
    let ids = s.of_class(class);
    lemma_children_n(s, class, parent_ref, parent, ids, ids.len());
}

/// A list holds some object under a wire.
pub open spec fn has_wire(s: Seq<(Seq<char>, Seq<char>)>, wire: Seq<char>) -> bool {
    exists|id: Seq<char>| #[trigger] wires(s, wire, id)
}

/// The phase code of the first terminal of an equipment.
pub open spec fn first_code(m: Sem, s: StoreV, eq: Seq<char>) -> Option<Seq<char>> {
    let t = terminals_of(m, s, eq);
    if t.len() > 0 {
        s.enum_value(t[0].1, "Terminal.phases"@)
    } else {
        None
    }
}

/// A phase code names some wire.
pub open spec fn names_any(code: Seq<char>) -> bool {
    exists|w: Seq<char>| #[trigger] names_from(code, 0, w)
}

/// The wires of an equipment: those of its phases; without any, those that the code
/// of its first terminal names; and all three phases where it names none.
pub open spec fn is_wire_map(
    m: Sem,
    s: StoreV,
    eq: Seq<char>,
    class: Seq<char>,
    parent_ref: Seq<char>,
    map: Seq<Seq<char>>,
) -> bool {
    let children = children_of(s, class, parent_ref, eq);
    if children.len() > 0 {
        forall|w: Seq<char>| #[trigger] map.contains(w) == has_wire(children, w)
    } else {
        match first_code(m, s, eq) {
            Some(code) => if names_any(code) {
                forall|w: Seq<char>| #[trigger] map.contains(w) == names_from(code, 0, w)
            } else {
                map == three_phases()
            },
            None => map == three_phases(),
        }
    }
}

proof fn lemma_firsts(children: Seq<(Seq<char>, Seq<char>)>, w: Seq<char>)
    ensures
        firsts(children).contains(w) == has_wire(children, w),
{
    let map = firsts(children);
    if map.contains(w) {
        let k = choose|k: int| 0 <= k < map.len() && map[k] == w;
        let id = children[k].1;
        assert(children[k] == (w, id));
        assert(wires(children, w, id));
    }
    if has_wire(children, w) {
        let id = choose|id: Seq<char>| #[trigger] wires(children, w, id);
        let k = choose|k: int| 0 <= k < children.len() && #[trigger] children[k] == (w, id);
        assert(map[k] == w);
    }
}

/// The wires that an equipment is read to be on are its own.
pub proof fn lemma_map_is_its_wires(
    m: Sem,
    s: StoreV,
    eq: Seq<char>,
    class: Seq<char>,
    parent_ref: Seq<char>,
)
    ensures
        is_wire_map(
            m,
            s,
            eq,
            class,
            parent_ref,
            terminal_map_of(m, s, eq, class, parent_ref),
        ),
{
    reveal(terminal_map_of);
    let map = terminal_map_of(m, s, eq, class, parent_ref);
    let children = children_of(s, class, parent_ref, eq);
    if children.len() > 0 {
        assert forall|w: Seq<char>| #[trigger] map.contains(w) == has_wire(children, w) by {
            lemma_firsts(children, w);
        }
    } else if let Some(code) = first_code(m, s, eq) {
        assert forall|w: Seq<char>| #[trigger] names_from(code, 0, w) == expand_of(code).contains(
            w,
        ) by {
            lemma_code_names_its_wires(code, w);
        }
        if expand_of(code).len() > 0 {
            let w = expand_of(code)[0];
            assert(expand_of(code).contains(w));
            assert(names_from(code, 0, w));
            assert forall|w: Seq<char>| #[trigger] map.contains(w) == names_from(
                code,
                0,
                w,
            ) by {
                lemma_code_names_its_wires(code, w);
            }
        } else if names_any(code) {
            let w = choose|w: Seq<char>| #[trigger] names_from(code, 0, w);
            assert(expand_of(code).contains(w));
        }
    }
}

// ---- buses -----------------------------------------------------------------

/// An element at a bus is on a wire; bus names go without letter case.
pub open spec fn shows(
    at: Seq<char>,
    map: Seq<Seq<char>>,
    bus: Seq<char>,
    wire: Seq<char>,
) -> bool {
    lower_of(at) == lower_of(bus) && map.contains(wire)
}

/// One of the first `n` elements is of a sort.
pub open spec fn any_n<E>(sort: spec_fn(E) -> bool, items: Seq<E>, n: nat) -> bool {
    exists|k: int| 0 <= k < n && sort(#[trigger] items[k])
}

proof fn lemma_any<E>(sort: spec_fn(E) -> bool, items: Seq<E>, n: nat)
    requires
        0 < n <= items.len(),
    ensures
        any_n(sort, items, n) == (any_n(sort, items, (n - 1) as nat) || sort(items[n - 1])),
{
    if any_n(sort, items, n) && !sort(items[n - 1]) {
        let k = choose|k: int| 0 <= k < n && sort(#[trigger] items[k]);
        assert(k < n - 1);
    }
    if any_n(sort, items, (n - 1) as nat) {
        let k = choose|k: int| 0 <= k < n - 1 && sort(#[trigger] items[k]);
        assert(k < n);
    }
}

proof fn lemma_use_at(
    used: Seq<Seq<char>>,
    bus: Seq<char>,
    at: Seq<char>,
    map: Seq<Seq<char>>,
    wire: Seq<char>,
)
    requires
        ascending(used),
    ensures
        ascending(use_at(used, bus, at, map)),
        use_at(used, bus, at, map).contains(wire) == (used.contains(wire) || shows(
            at,
            map,
            bus,
            wire,
        )),
{
    lemma_set_extend(used, map, map.len());
    assert(map.take(map.len() as int) =~= map);
}

/// A line is on a wire at a bus.
pub open spec fn line_at(bus: Seq<char>, wire: Seq<char>) -> spec_fn(DistLineV) -> bool {
    |x: DistLineV| shows(x.bus_from, x.terminal_map_from, bus, wire) || shows(
            x.bus_to,
            x.terminal_map_to,
            bus,
            wire,
        )
}

proof fn lemma_line_use(
    used: Seq<Seq<char>>,
    bus: Seq<char>,
    items: Seq<DistLineV>,
    n: nat,
    wire: Seq<char>,
)
    requires
        ascending(used),
        n <= items.len(),
    ensures
        ascending(line_use(used, bus, items, n)),
        line_use(used, bus, items, n).contains(wire) == (used.contains(wire) || any_n(
            line_at(bus, wire),
            items,
            n,
        )),
    decreases n,
{
    if n > 0 {
        lemma_line_use(used, bus, items, (n - 1) as nat, wire);
        lemma_any(line_at(bus, wire), items, n);
        let before = line_use(used, bus, items, (n - 1) as nat);
        let x = items[n - 1];
        lemma_use_at(before, bus, x.bus_from, x.terminal_map_from, wire);
        lemma_use_at(
            use_at(before, bus, x.bus_from, x.terminal_map_from),
            bus,
            x.bus_to,
            x.terminal_map_to,
            wire,
        );
    }
}

/// A switch is on a wire at a bus.
pub open spec fn switch_at(bus: Seq<char>, wire: Seq<char>) -> spec_fn(DistSwitchV) -> bool {
    |x: DistSwitchV| shows(x.bus_from, x.terminal_map_from, bus, wire) || shows(
            x.bus_to,
            x.terminal_map_to,
            bus,
            wire,
        )
}

proof fn lemma_switch_use(
    used: Seq<Seq<char>>,
    bus: Seq<char>,
    items: Seq<DistSwitchV>,
    n: nat,
    wire: Seq<char>,
)
    requires
        ascending(used),
        n <= items.len(),
    ensures
        ascending(switch_use(used, bus, items, n)),
        switch_use(used, bus, items, n).contains(wire) == (used.contains(wire) || any_n(
            switch_at(bus, wire),
            items,
            n,
        )),
    decreases n,
{
    if n > 0 {
        lemma_switch_use(used, bus, items, (n - 1) as nat, wire);
        lemma_any(switch_at(bus, wire), items, n);
        let before = switch_use(used, bus, items, (n - 1) as nat);
        let x = items[n - 1];
        lemma_use_at(before, bus, x.bus_from, x.terminal_map_from, wire);
        lemma_use_at(
            use_at(before, bus, x.bus_from, x.terminal_map_from),
            bus,
            x.bus_to,
            x.terminal_map_to,
            wire,
        );
    }
}

/// A load is on a wire at a bus.
pub open spec fn load_at(bus: Seq<char>, wire: Seq<char>) -> spec_fn(DistLoadV) -> bool {
    |x: DistLoadV| shows(x.bus, x.terminal_map, bus, wire)
}

proof fn lemma_load_use(
    used: Seq<Seq<char>>,
    bus: Seq<char>,
    items: Seq<DistLoadV>,
    n: nat,
    wire: Seq<char>,
)
    requires
        ascending(used),
        n <= items.len(),
    ensures
        ascending(load_use(used, bus, items, n)),
        load_use(used, bus, items, n).contains(wire) == (used.contains(wire) || any_n(
            load_at(bus, wire),
            items,
            n,
        )),
    decreases n,
{
    if n > 0 {
        lemma_load_use(used, bus, items, (n - 1) as nat, wire);
        lemma_any(load_at(bus, wire), items, n);
        let before = load_use(used, bus, items, (n - 1) as nat);
        let x = items[n - 1];
        lemma_use_at(before, bus, x.bus, x.terminal_map, wire);
    }
}

/// A shunt is on a wire at a bus.
pub open spec fn shunt_at(bus: Seq<char>, wire: Seq<char>) -> spec_fn(DistShuntV) -> bool {
    |x: DistShuntV| shows(x.bus, x.terminal_map, bus, wire)
}

proof fn lemma_shunt_use(
    used: Seq<Seq<char>>,
    bus: Seq<char>,
    items: Seq<DistShuntV>,
    n: nat,
    wire: Seq<char>,
)
    requires
        ascending(used),
        n <= items.len(),
    ensures
        ascending(shunt_use(used, bus, items, n)),
        shunt_use(used, bus, items, n).contains(wire) == (used.contains(wire) || any_n(
            shunt_at(bus, wire),
            items,
            n,
        )),
    decreases n,
{
    if n > 0 {
        lemma_shunt_use(used, bus, items, (n - 1) as nat, wire);
        lemma_any(shunt_at(bus, wire), items, n);
        let before = shunt_use(used, bus, items, (n - 1) as nat);
        let x = items[n - 1];
        lemma_use_at(before, bus, x.bus, x.terminal_map, wire);
    }
}

/// A winding is on a wire at a bus.
pub open spec fn winding_at(bus: Seq<char>, wire: Seq<char>) -> spec_fn(WindingV) -> bool {
    |x: WindingV| shows(x.bus, x.terminal_map, bus, wire)
}

proof fn lemma_winding_use(
    used: Seq<Seq<char>>,
    bus: Seq<char>,
    items: Seq<WindingV>,
    n: nat,
    wire: Seq<char>,
)
    requires
        ascending(used),
        n <= items.len(),
    ensures
        ascending(winding_use(used, bus, items, n)),
        winding_use(used, bus, items, n).contains(wire) == (used.contains(wire) || any_n(
            winding_at(bus, wire),
            items,
            n,
        )),
    decreases n,
{
    if n > 0 {
        lemma_winding_use(used, bus, items, (n - 1) as nat, wire);
        lemma_any(winding_at(bus, wire), items, n);
        let before = winding_use(used, bus, items, (n - 1) as nat);
        let x = items[n - 1];
        lemma_use_at(before, bus, x.bus, x.terminal_map, wire);
    }
}

/// A source is on a wire at a bus.
pub open spec fn source_at(bus: Seq<char>, wire: Seq<char>) -> spec_fn(VoltageSourceV) -> bool {
    |x: VoltageSourceV| shows(x.bus, x.terminal_map, bus, wire)
}

proof fn lemma_source_use(
    used: Seq<Seq<char>>,
    bus: Seq<char>,
    items: Seq<VoltageSourceV>,
    n: nat,
    wire: Seq<char>,
)
    requires
        ascending(used),
        n <= items.len(),
    ensures
        ascending(source_use(used, bus, items, n)),
        source_use(used, bus, items, n).contains(wire) == (used.contains(wire) || any_n(
            source_at(bus, wire),
            items,
            n,
        )),
    decreases n,
{
    if n > 0 {
        lemma_source_use(used, bus, items, (n - 1) as nat, wire);
        lemma_any(source_at(bus, wire), items, n);
        let before = source_use(used, bus, items, (n - 1) as nat);
        let x = items[n - 1];
        lemma_use_at(before, bus, x.bus, x.terminal_map, wire);
    }
}

/// A winding of a transformer is on a wire at a bus.
pub open spec fn transformer_at(bus: Seq<char>, wire: Seq<char>) -> spec_fn(
    DistTransformerV,
) -> bool {
    |x: DistTransformerV| any_n(winding_at(bus, wire), x.windings, x.windings.len())
}

proof fn lemma_transformer_use(
    used: Seq<Seq<char>>,
    bus: Seq<char>,
    items: Seq<DistTransformerV>,
    n: nat,
    wire: Seq<char>,
)
    requires
        ascending(used),
        n <= items.len(),
    ensures
        ascending(transformer_use(used, bus, items, n)),
        transformer_use(used, bus, items, n).contains(wire) == (used.contains(wire) || any_n(
            transformer_at(bus, wire),
            items,
            n,
        )),
    decreases n,
{
    if n > 0 {
        lemma_transformer_use(used, bus, items, (n - 1) as nat, wire);
        lemma_any(transformer_at(bus, wire), items, n);
        let before = transformer_use(used, bus, items, (n - 1) as nat);
        let w = items[n - 1].windings;
        lemma_winding_use(before, bus, w, w.len(), wire);
    }
}

/// Some element of a network is on a wire at a bus.
pub open spec fn is_used(net: DistNetworkV, bus: Seq<char>, wire: Seq<char>) -> bool {
    ||| any_n(line_at(bus, wire), net.lines, net.lines.len())
    ||| any_n(switch_at(bus, wire), net.switches, net.switches.len())
    ||| any_n(load_at(bus, wire), net.loads, net.loads.len())
    ||| any_n(shunt_at(bus, wire), net.shunts, net.shunts.len())
    ||| any_n(transformer_at(bus, wire), net.transformers, net.transformers.len())
    ||| any_n(source_at(bus, wire), net.sources, net.sources.len())
}

/// Every node of a store is a bus, in order, with exactly the wires that elements
/// are on there, and grounded at its neutral where one of them is that.
pub open spec fn are_nodes(s: StoreV, net: DistNetworkV) -> bool {
    let nodes = s.of_class("ConnectivityNode"@);
    &&& net.buses.len() == nodes.len()
    &&& forall|i: int|
        0 <= i < nodes.len() ==> {
            &&& (#[trigger] net.buses[i]).id == s.name(nodes[i])
            &&& ascending(net.buses[i].terminals)
            &&& forall|w: Seq<char>| #[trigger]
                net.buses[i].terminals.contains(w) == is_used(net, net.buses[i].id, w)
            &&& net.buses[i].grounded == if is_used(net, net.buses[i].id, "4"@) {
                seq!["4"@]
            } else {
                seq![]
            }
        }
}

proof fn lemma_used(bus: Seq<char>, e: ElementsV, net: DistNetworkV, wire: Seq<char>)
    requires
        e.lines == net.lines,
        e.switches == net.switches,
        e.loads == net.loads,
        e.shunts == net.shunts,
        e.transformers == net.transformers,
        e.sources == net.sources,
    ensures
        ascending(used_terminals(bus, e)),
        used_terminals(bus, e).contains(wire) == is_used(net, bus, wire),
{
    reveal(used_terminals);
    let a: Seq<Seq<char>> = Seq::empty();
    let b = line_use(a, bus, e.lines, e.lines.len());
    let c = switch_use(b, bus, e.switches, e.switches.len());
    let d = load_use(c, bus, e.loads, e.loads.len());
    let f = shunt_use(d, bus, e.shunts, e.shunts.len());
    let g = transformer_use(f, bus, e.transformers, e.transformers.len());
    lemma_line_use(a, bus, e.lines, e.lines.len(), wire);
    lemma_switch_use(b, bus, e.switches, e.switches.len(), wire);
    lemma_load_use(c, bus, e.loads, e.loads.len(), wire);
    lemma_shunt_use(d, bus, e.shunts, e.shunts.len(), wire);
    lemma_transformer_use(f, bus, e.transformers, e.transformers.len(), wire);
    lemma_source_use(g, bus, e.sources, e.sources.len(), wire);
}

/// Of every network that is read of a store: its buses are the nodes, on the wires
/// of the elements that stand at them.
pub proof fn lemma_buses_are_nodes(m: Sem, s: StoreV, name: Option<Seq<char>>)
    ensures
        are_nodes(s, network_of(m, s, name)),
{
    reveal(network_of);
    let net = network_of(m, s, name);
    let e = ElementsV {
        lines: net.lines,
        switches: net.switches,
        loads: net.loads,
        shunts: net.shunts,
        transformers: net.transformers,
        sources: net.sources,
    };
    let nodes = s.of_class("ConnectivityNode"@);
    assert(net.buses == buses_of(s, e));
    assert forall|i: int| 0 <= i < nodes.len() implies {
        &&& (#[trigger] net.buses[i]).id == s.name(nodes[i])
        &&& ascending(net.buses[i].terminals)
        &&& forall|w: Seq<char>| #[trigger]
            net.buses[i].terminals.contains(w) == is_used(net, net.buses[i].id, w)
        &&& net.buses[i].grounded == if is_used(net, net.buses[i].id, "4"@) {
            seq!["4"@]
        } else {
            seq![]
        }
    } by {
        let b = net.buses[i];
        assert(b == derived_bus(s, nodes[i], e));
        lemma_used(b.id, e, net, "4"@);
        assert forall|w: Seq<char>| #[trigger] b.terminals.contains(w) == is_used(
            net,
            b.id,
            w,
        ) by {
            lemma_used(b.id, e, net, w);
        }
    }
}

} // verus!
