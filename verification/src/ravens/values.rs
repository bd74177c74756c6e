//! What the elements of a network that is read of a document have from the
//! properties of their objects.

use vstd::prelude::*;

use crate::json::{float_json, get_of, Entries, JsonV};
use crate::math::{
    abs_of, num_eq, num_le, num_lt, Bits, Sem, BILLION, HUNDRED, ONE, PI, TAU, THOUSAND, TWO, ZERO,
};
use crate::matrix::{mirror_of, square, to_usize_of};
use crate::model::{
    Configuration, DistBusV, DistGeneratorV, DistIbrV, DistLineCodeV, DistLineV, DistLoadV,
    DistLoadVoltageModelV, DistNetworkV, DistShuntV, DistSwitchV, DistTransformerV, IbrPrimeMover,
    IbrTopology, MatV, VoltageSourceV,
};
use crate::ravens::doc::{
    bool_at, collect_of, limits_n, limits_of, list_at, named_of, Limits, num_at, num_or, obj_at,
    resolve_at, sorted_kind, str_at, suffix_at, target_at, terminals_of, ObjV,
};
use crate::ravens::keeps::{
    begins, group_keeps, group_parts, lemma_missing_grows, lemma_nothing_is_taken_back, same_code,
    stages,
};
use crate::ravens::lines::{
    extent_n, mrid_extras, linecode_step, linecodes_n, mats_n, row_of, rows_n, Row, line_letters_of,
    line_limits_of, line_step, lines_n, side_of, sides_n, switch_ids, switch_limits_of,
    switch_maps_of, switch_step, switches_n,
};
use crate::ravens::lists::lemma_lists;
use crate::ravens::loads::{
    listed_phases, load_extras_of, load_map_of, load_phases_of, load_step, note_text,
    shunt_extras_of, with_profiles, loads_n, phase_of, phases_n, response_model, shunt_step,
    shunts_n,
};
use crate::ravens::machines::{
    electronics_n, electronics_step, fault_amps_of, ibr_extras_of, machine_extras_of,
    source_extras_of, machine_ids, machine_step, machines_n, source_step, sources_n,
};
use crate::ravens::name::{
    hot_terminals_of, phase_terminal_of, terminals_of as terminals_of_letters,
};
use crate::ravens::read::{buses_n, finish_buses_of, ravens_value, run_of};
use crate::ravens::state::{empty_state, StateV};
use crate::ravens::survive::{lemma_get_none, lemma_get_put};
use crate::ravens::survive_codes::lemma_mats_same;
use crate::ravens::tanks::{tank_step, tanks_n};
use crate::ravens::taps::{is_complete, is_of_tank, lemma_said, lemma_tank, said};
use crate::terminals::{numbered, three_phases};

verus! {

// ---- lists -----------------------------------------------------------------

/// The first `n` of some objects that are of a sort, in order.
pub open spec fn chosen_n(
    doc: Seq<ObjV>,
    ids: Seq<usize>,
    sort: spec_fn(ObjV) -> bool,
    n: nat,
) -> Seq<ObjV>
    decreases n,
{
    if n == 0 {
        seq![]
    } else {
        let before = chosen_n(doc, ids, sort, (n - 1) as nat);
        let o = doc[ids[n - 1] as int];
        if sort(o) {
            before.push(o)
        } else {
            before
        }
    }
}

/// Elements are those of some objects, one each, in order.
pub open spec fn are_of<E>(
    rule: spec_fn(ObjV, E) -> bool,
    objects: Seq<ObjV>,
    xs: Seq<E>,
) -> bool {
    &&& xs.len() == objects.len()
    &&& forall|k: int| 0 <= k < xs.len() ==> rule(objects[k], #[trigger] xs[k])
}

/// A list with one more element where an object is of a sort.
spec fn extends<E>(
    rule: spec_fn(ObjV, E) -> bool,
    sort: spec_fn(ObjV) -> bool,
    o: ObjV,
    a: Seq<E>,
    b: Seq<E>,
) -> bool {
    if sort(o) {
        b.len() == a.len() + 1 && b.drop_last() == a && rule(o, b.last())
    } else {
        b == a
    }
}

proof fn lemma_extends<E>(
    doc: Seq<ObjV>,
    ids: Seq<usize>,
    rule: spec_fn(ObjV, E) -> bool,
    sort: spec_fn(ObjV) -> bool,
    n: nat,
    a: Seq<E>,
    b: Seq<E>,
)
    requires
        n > 0,
        are_of(rule, chosen_n(doc, ids, sort, (n - 1) as nat), a),
        extends(rule, sort, doc[ids[n - 1] as int], a, b),
    ensures
        are_of(rule, chosen_n(doc, ids, sort, n), b),
{
    let before = chosen_n(doc, ids, sort, (n - 1) as nat);
    let after = chosen_n(doc, ids, sort, n);
    assert forall|k: int| 0 <= k < b.len() implies rule(after[k], #[trigger] b[k]) by {
        if k < a.len() {
            assert(b == a || b.drop_last()[k] == b[k]);
            assert(rule(before[k], a[k]));
        }
    }
}

/// The same number for each of `n` phases.
pub open spec fn all_are(v: Seq<Bits>, n: nat, x: Bits) -> bool {
    v.len() == n && forall|i: int| 0 <= i < n ==> #[trigger] v[i] == x
}

/// A total that a property gives, shared evenly among phases; none where the
/// property is no number.
pub open spec fn is_share(
    m: Sem,
    o: Entries,
    key: Seq<char>,
    n: nat,
    x: Option<Seq<Bits>>,
) -> bool {
    match (num_at(m, o, key), x) {
        (Some(total), Some(v)) => all_are(v, n, m.over(total, m.from_int(n as u64))),
        (None, None) => true,
        _ => false,
    }
}

/// The phases of an object: those that its terminal names, else all three.
pub open spec fn phases_of(o: ObjV) -> Seq<Seq<char>> {
    let named = hot_terminals_of(terminals_of(o.props)[0].1.phases);
    if named.len() == 0 {
        three_phases()
    } else {
        named
    }
}

/// An object has a terminal.
pub open spec fn placed() -> spec_fn(ObjV) -> bool {
    |o: ObjV| terminals_of(o.props).len() > 0
}

// ---- notes -----------------------------------------------------------------

/// A number is noted under a key, or nothing is.
pub open spec fn is_noted(m: Sem, extras: Entries, key: Seq<char>, x: Option<Bits>) -> bool {
    get_of(extras, key) == match x {
        Some(v) => Some(float_json(m, v)),
        None => None,
    }
}

/// A number in thousands.
pub open spec fn in_thousands(m: Sem, x: Option<Bits>) -> Option<Bits> {
    match x {
        Some(v) => Some(m.over(v, THOUSAND)),
        None => None,
    }
}

/// The identity of an object is noted.
pub open spec fn is_identified(o: ObjV, extras: Entries) -> bool {
    get_of(extras, "ravens_mrid"@) == match str_at(o.props, "IdentifiedObject.mRID"@) {
        Some(id) => Some(JsonV::Str(id)),
        None => None,
    }
}

/// The keys that are noted are apart.
proof fn lemma_keys_apart()
    ensures
        "kv"@ != "phases"@,
        "kv"@ != "kvar"@,
        "kv"@ != "kva"@,
        "kv"@ != "conn"@,
        "kv"@ != "basekv"@,
        "kv"@ != "pu"@,
        "kv"@ != "angle"@,
        "kv"@ != "r1"@,
        "kv"@ != "x1"@,
        "kv"@ != "r0"@,
        "kv"@ != "x0"@,
        "kv"@ != "ravens_mrid"@,
        "kv"@ != "daily"@,
        "kv"@ != "yearly"@,
        "kv"@ != "spectrum"@,
        "kv"@ != "ravens_rated_e"@,
        "kv"@ != "ravens_stored_e"@,
        "kv"@ != "ravens_battery_efficiency"@,
        "phases"@ != "kvar"@,
        "phases"@ != "kva"@,
        "phases"@ != "conn"@,
        "phases"@ != "basekv"@,
        "phases"@ != "pu"@,
        "phases"@ != "angle"@,
        "phases"@ != "r1"@,
        "phases"@ != "x1"@,
        "phases"@ != "r0"@,
        "phases"@ != "x0"@,
        "phases"@ != "ravens_mrid"@,
        "phases"@ != "daily"@,
        "phases"@ != "yearly"@,
        "phases"@ != "spectrum"@,
        "phases"@ != "ravens_rated_e"@,
        "phases"@ != "ravens_stored_e"@,
        "phases"@ != "ravens_battery_efficiency"@,
        "kvar"@ != "kva"@,
        "kvar"@ != "conn"@,
        "kvar"@ != "basekv"@,
        "kvar"@ != "pu"@,
        "kvar"@ != "angle"@,
        "kvar"@ != "r1"@,
        "kvar"@ != "x1"@,
        "kvar"@ != "r0"@,
        "kvar"@ != "x0"@,
        "kvar"@ != "ravens_mrid"@,
        "kvar"@ != "daily"@,
        "kvar"@ != "yearly"@,
        "kvar"@ != "spectrum"@,
        "kvar"@ != "ravens_rated_e"@,
        "kvar"@ != "ravens_stored_e"@,
        "kvar"@ != "ravens_battery_efficiency"@,
        "kva"@ != "conn"@,
        "kva"@ != "basekv"@,
        "kva"@ != "pu"@,
        "kva"@ != "angle"@,
        "kva"@ != "r1"@,
        "kva"@ != "x1"@,
        "kva"@ != "r0"@,
        "kva"@ != "x0"@,
        "kva"@ != "ravens_mrid"@,
        "kva"@ != "daily"@,
        "kva"@ != "yearly"@,
        "kva"@ != "spectrum"@,
        "kva"@ != "ravens_rated_e"@,
        "kva"@ != "ravens_stored_e"@,
        "kva"@ != "ravens_battery_efficiency"@,
        "conn"@ != "basekv"@,
        "conn"@ != "pu"@,
        "conn"@ != "angle"@,
        "conn"@ != "r1"@,
        "conn"@ != "x1"@,
        "conn"@ != "r0"@,
        "conn"@ != "x0"@,
        "conn"@ != "ravens_mrid"@,
        "conn"@ != "daily"@,
        "conn"@ != "yearly"@,
        "conn"@ != "spectrum"@,
        "conn"@ != "ravens_rated_e"@,
        "conn"@ != "ravens_stored_e"@,
        "conn"@ != "ravens_battery_efficiency"@,
        "basekv"@ != "pu"@,
        "basekv"@ != "angle"@,
        "basekv"@ != "r1"@,
        "basekv"@ != "x1"@,
        "basekv"@ != "r0"@,
        "basekv"@ != "x0"@,
        "basekv"@ != "ravens_mrid"@,
        "basekv"@ != "daily"@,
        "basekv"@ != "yearly"@,
        "basekv"@ != "spectrum"@,
        "basekv"@ != "ravens_rated_e"@,
        "basekv"@ != "ravens_stored_e"@,
        "basekv"@ != "ravens_battery_efficiency"@,
        "pu"@ != "angle"@,
        "pu"@ != "r1"@,
        "pu"@ != "x1"@,
        "pu"@ != "r0"@,
        "pu"@ != "x0"@,
        "pu"@ != "ravens_mrid"@,
        "pu"@ != "daily"@,
        "pu"@ != "yearly"@,
        "pu"@ != "spectrum"@,
        "pu"@ != "ravens_rated_e"@,
        "pu"@ != "ravens_stored_e"@,
        "pu"@ != "ravens_battery_efficiency"@,
        "angle"@ != "r1"@,
        "angle"@ != "x1"@,
        "angle"@ != "r0"@,
        "angle"@ != "x0"@,
        "angle"@ != "ravens_mrid"@,
        "angle"@ != "daily"@,
        "angle"@ != "yearly"@,
        "angle"@ != "spectrum"@,
        "angle"@ != "ravens_rated_e"@,
        "angle"@ != "ravens_stored_e"@,
        "angle"@ != "ravens_battery_efficiency"@,
        "r1"@ != "x1"@,
        "r1"@ != "r0"@,
        "r1"@ != "x0"@,
        "r1"@ != "ravens_mrid"@,
        "r1"@ != "daily"@,
        "r1"@ != "yearly"@,
        "r1"@ != "spectrum"@,
        "r1"@ != "ravens_rated_e"@,
        "r1"@ != "ravens_stored_e"@,
        "r1"@ != "ravens_battery_efficiency"@,
        "x1"@ != "r0"@,
        "x1"@ != "x0"@,
        "x1"@ != "ravens_mrid"@,
        "x1"@ != "daily"@,
        "x1"@ != "yearly"@,
        "x1"@ != "spectrum"@,
        "x1"@ != "ravens_rated_e"@,
        "x1"@ != "ravens_stored_e"@,
        "x1"@ != "ravens_battery_efficiency"@,
        "r0"@ != "x0"@,
        "r0"@ != "ravens_mrid"@,
        "r0"@ != "daily"@,
        "r0"@ != "yearly"@,
        "r0"@ != "spectrum"@,
        "r0"@ != "ravens_rated_e"@,
        "r0"@ != "ravens_stored_e"@,
        "r0"@ != "ravens_battery_efficiency"@,
        "x0"@ != "ravens_mrid"@,
        "x0"@ != "daily"@,
        "x0"@ != "yearly"@,
        "x0"@ != "spectrum"@,
        "x0"@ != "ravens_rated_e"@,
        "x0"@ != "ravens_stored_e"@,
        "x0"@ != "ravens_battery_efficiency"@,
        "ravens_mrid"@ != "daily"@,
        "ravens_mrid"@ != "yearly"@,
        "ravens_mrid"@ != "spectrum"@,
        "ravens_mrid"@ != "ravens_rated_e"@,
        "ravens_mrid"@ != "ravens_stored_e"@,
        "ravens_mrid"@ != "ravens_battery_efficiency"@,
        "daily"@ != "yearly"@,
        "daily"@ != "spectrum"@,
        "daily"@ != "ravens_rated_e"@,
        "daily"@ != "ravens_stored_e"@,
        "daily"@ != "ravens_battery_efficiency"@,
        "yearly"@ != "spectrum"@,
        "yearly"@ != "ravens_rated_e"@,
        "yearly"@ != "ravens_stored_e"@,
        "yearly"@ != "ravens_battery_efficiency"@,
        "spectrum"@ != "ravens_rated_e"@,
        "spectrum"@ != "ravens_stored_e"@,
        "spectrum"@ != "ravens_battery_efficiency"@,
        "ravens_rated_e"@ != "ravens_stored_e"@,
        "ravens_rated_e"@ != "ravens_battery_efficiency"@,
        "ravens_stored_e"@ != "ravens_battery_efficiency"@,
        "kv"@ != "normamps"@,
        "phases"@ != "normamps"@,
        "kvar"@ != "normamps"@,
        "kva"@ != "normamps"@,
        "conn"@ != "normamps"@,
        "basekv"@ != "normamps"@,
        "pu"@ != "normamps"@,
        "angle"@ != "normamps"@,
        "r1"@ != "normamps"@,
        "x1"@ != "normamps"@,
        "r0"@ != "normamps"@,
        "x0"@ != "normamps"@,
        "ravens_mrid"@ != "normamps"@,
        "daily"@ != "normamps"@,
        "yearly"@ != "normamps"@,
        "spectrum"@ != "normamps"@,
        "ravens_rated_e"@ != "normamps"@,
        "ravens_stored_e"@ != "normamps"@,
        "ravens_battery_efficiency"@ != "normamps"@,
        "kv"@ != "ravens_normal_open"@,
        "phases"@ != "ravens_normal_open"@,
        "kvar"@ != "ravens_normal_open"@,
        "kva"@ != "ravens_normal_open"@,
        "conn"@ != "ravens_normal_open"@,
        "basekv"@ != "ravens_normal_open"@,
        "pu"@ != "ravens_normal_open"@,
        "angle"@ != "ravens_normal_open"@,
        "r1"@ != "ravens_normal_open"@,
        "x1"@ != "ravens_normal_open"@,
        "r0"@ != "ravens_normal_open"@,
        "x0"@ != "ravens_normal_open"@,
        "ravens_mrid"@ != "ravens_normal_open"@,
        "daily"@ != "ravens_normal_open"@,
        "yearly"@ != "ravens_normal_open"@,
        "spectrum"@ != "ravens_normal_open"@,
        "ravens_rated_e"@ != "ravens_normal_open"@,
        "ravens_stored_e"@ != "ravens_normal_open"@,
        "ravens_battery_efficiency"@ != "ravens_normal_open"@,
        "normamps"@ != "ravens_normal_open"@,
{
    reveal_strlit("kv");
    reveal_strlit("phases");
    reveal_strlit("kvar");
    reveal_strlit("kva");
    reveal_strlit("conn");
    reveal_strlit("basekv");
    reveal_strlit("pu");
    reveal_strlit("angle");
    reveal_strlit("r1");
    reveal_strlit("x1");
    reveal_strlit("r0");
    reveal_strlit("x0");
    reveal_strlit("ravens_mrid");
    reveal_strlit("daily");
    reveal_strlit("yearly");
    reveal_strlit("spectrum");
    reveal_strlit("ravens_rated_e");
    reveal_strlit("ravens_stored_e");
    reveal_strlit("ravens_battery_efficiency");
    assert("kv"@.len() == 2);
    assert("phases"@.len() == 6);
    assert("kvar"@.len() == 4);
    assert("kva"@.len() == 3);
    assert("conn"@.len() == 4);
    assert("basekv"@.len() == 6);
    assert("pu"@.len() == 2);
    assert("angle"@.len() == 5);
    assert("r1"@.len() == 2);
    assert("x1"@.len() == 2);
    assert("r0"@.len() == 2);
    assert("x0"@.len() == 2);
    assert("ravens_mrid"@.len() == 11);
    assert("daily"@.len() == 5);
    assert("yearly"@.len() == 6);
    assert("spectrum"@.len() == 8);
    assert("ravens_rated_e"@.len() == 14);
    assert("ravens_stored_e"@.len() == 15);
    assert("ravens_battery_efficiency"@.len() == 25);
    assert("kv"@[0] == 'k' && "pu"@[0] == 'p');
    assert("kv"@[0] == 'k' && "r1"@[0] == 'r');
    assert("kv"@[0] == 'k' && "x1"@[0] == 'x');
    assert("kv"@[0] == 'k' && "r0"@[0] == 'r');
    assert("kv"@[0] == 'k' && "x0"@[0] == 'x');
    assert("phases"@[0] == 'p' && "basekv"@[0] == 'b');
    assert("phases"@[0] == 'p' && "yearly"@[0] == 'y');
    assert("kvar"@[0] == 'k' && "conn"@[0] == 'c');
    assert("basekv"@[0] == 'b' && "yearly"@[0] == 'y');
    assert("pu"@[0] == 'p' && "r1"@[0] == 'r');
    assert("pu"@[0] == 'p' && "x1"@[0] == 'x');
    assert("pu"@[0] == 'p' && "r0"@[0] == 'r');
    assert("pu"@[0] == 'p' && "x0"@[0] == 'x');
    assert("angle"@[0] == 'a' && "daily"@[0] == 'd');
    assert("r1"@[0] == 'r' && "x1"@[0] == 'x');
    assert("r1"@[1] == '1' && "r0"@[1] == '0');
    assert("r1"@[0] == 'r' && "x0"@[0] == 'x');
    assert("x1"@[0] == 'x' && "r0"@[0] == 'r');
    assert("x1"@[1] == '1' && "x0"@[1] == '0');
    assert("r0"@[0] == 'r' && "x0"@[0] == 'x');
    reveal_strlit("normamps");
    reveal_strlit("ravens_normal_open");
    assert("normamps"@.len() == 8);
    assert("ravens_normal_open"@.len() == 18);
    assert("spectrum"@[0] == 's' && "normamps"@[0] == 'n');
}

/// What the extras of an object start with.
proof fn lemma_identified(o: ObjV)
    ensures
        is_identified(o, mrid_extras(o.props)),
        forall|q: Seq<char>|
            q != "ravens_mrid"@ ==> #[trigger] get_of(mrid_extras(o.props), q) is None,
{
    broadcast use lemma_get_put;

    reveal(mrid_extras);
    assert forall|q: Seq<char>| #[trigger] get_of(Entries::empty(), q) is None by {
        lemma_get_none(q);
    }
}

/// The profiles of a load leave the other notes.
proof fn lemma_profiles_apart(m: Sem, doc: Seq<ObjV>, o: ObjV)
    ensures
        forall|e: Entries, q: Seq<char>|
            q == "kv"@ || q == "ravens_mrid"@ ==> #[trigger] get_of(
                with_profiles(doc, o.props, e),
                q,
            ) == get_of(e, q),
{
    broadcast use lemma_get_put;

    lemma_keys_apart();
    reveal(with_profiles);
    reveal(note_text);
}

// ---- loads -----------------------------------------------------------------

/// What a listed phase of a load draws.
pub open spec fn draws(m: Sem, entry: JsonV) -> Option<(Seq<char>, Bits, Bits)> {
    match entry {
        JsonV::Obj(o) => match suffix_at(o, "EnergyConsumerPhase.phase"@) {
            Some(letter) => match phase_terminal_of(letter) {
                Some(t) => Some(
                    (
                        t,
                        said(m, o, "EnergyConsumerPhase.p"@, ZERO),
                        said(m, o, "EnergyConsumerPhase.q"@, ZERO),
                    ),
                ),
                None => None,
            },
            None => None,
        },
        _ => None,
    }
}

/// What the first `n` listed phases draw, in order.
pub open spec fn drawn_n(m: Sem, items: Seq<JsonV>, n: nat) -> Seq<(Seq<char>, Bits, Bits)>
    decreases n,
{
    if n == 0 {
        seq![]
    } else {
        match draws(m, items[n - 1]) {
            Some(x) => drawn_n(m, items, (n - 1) as nat).push(x),
            None => drawn_n(m, items, (n - 1) as nat),
        }
    }
}

/// What the phases of a load draw: as they are listed, else the total shared
/// evenly.
pub open spec fn drawn(m: Sem, o: ObjV) -> Seq<(Seq<char>, Bits, Bits)> {
    let items = list_at(o.props, "EnergyConsumer.EnergyConsumerPhase"@);
    let listed = drawn_n(m, items, items.len());
    if listed.len() > 0 {
        listed
    } else {
        let hot = phases_of(o);
        let n = m.from_int(hot.len() as u64);
        Seq::new(
            hot.len(),
            |k: int|
                (
                    hot[k],
                    m.over(said(m, o.props, "EnergyConsumer.p"@, ZERO), n),
                    m.over(said(m, o.props, "EnergyConsumer.q"@, ZERO), n),
                ),
        )
    }
}

/// A load is connected in delta.
pub open spec fn in_delta(o: ObjV, key: Seq<char>) -> bool {
    suffix_at(o.props, key) == Some("D"@)
}

/// A load in delta on one phase, whose terminal names other than two.
pub open spec fn is_loose(m: Sem, o: ObjV) -> bool {
    &&& in_delta(o, "EnergyConsumer.phaseConnection"@)
    &&& drawn(m, o).len() == 1
    &&& hot_terminals_of(terminals_of(o.props)[0].1.phases).len() != 2
}

/// An object that gives a load.
pub open spec fn loading(m: Sem) -> spec_fn(ObjV) -> bool {
    |o: ObjV| terminals_of(o.props).len() > 0 && !is_loose(m, o)
}

/// A load of an object: its phases, with the neutral where it is a grounded wye, or
/// the two that a single phase in delta lies between; what each draws; and how that
/// depends on the voltage.
pub open spec fn is_load(m: Sem, doc: Seq<ObjV>, o: ObjV, x: DistLoadV) -> bool {
    let at = terminals_of(o.props)[0].1;
    let phases = drawn(m, o);
    let n = phases.len();
    let delta = in_delta(o, "EnergyConsumer.phaseConnection"@);
    let grounded = !delta && bool_at(o.props, "EnergyConsumer.grounded"@) != Some(false);
    let base = match resolve_at(doc, o.props, "ConductingEquipment.BaseVoltage"@) {
        Some(b) => num_at(m, b, "BaseVoltage.nominalVoltage"@),
        None => None,
    };
    &&& x.name == o.name
    &&& is_identified(o, x.extras)
    &&& is_noted(
        m,
        x.extras,
        "kv"@,
        in_thousands(
            m,
            match base {
                Some(b) => if n == 1 && !delta {
                    Some(m.over(b, m.root3()))
                } else {
                    Some(b)
                },
                None => None,
            },
        ),
    )
    &&& x.bus == at.node
    &&& x.configuration == if delta {
        Configuration::Delta
    } else if n == 1 {
        Configuration::SinglePhase
    } else {
        Configuration::Wye
    }
    &&& if delta && n == 1 {
        x.terminal_map == hot_terminals_of(at.phases)
    } else {
        &&& x.terminal_map.len() == if grounded {
            n + 1
        } else {
            n
        }
        &&& forall|k: int| 0 <= k < n ==> #[trigger] x.terminal_map[k] == phases[k].0
        &&& grounded ==> x.terminal_map[n as int] == "4"@
    }
    &&& x.p_nom.len() == n
    &&& forall|k: int| 0 <= k < n ==> #[trigger] x.p_nom[k] == phases[k].1
    &&& x.q_nom.len() == n
    &&& forall|k: int| 0 <= k < n ==> #[trigger] x.q_nom[k] == phases[k].2
    &&& exists|v: Seq<Bits>|
        {
            &&& #[trigger] is_response(m, doc, o, v, x.voltage_model)
            &&& match base {
                Some(b) => if delta {
                    all_are(v, n, b)
                } else {
                    all_are(v, n, m.over(b, m.root3()))
                },
                None => v.len() == 0,
            }
        }
}

/// A share is the whole and the two others are nothing.
pub open spec fn is_all(x: Bits, a: Bits, b: Bits) -> bool {
    num_eq(x, HUNDRED) && num_eq(a, ZERO) && num_eq(b, ZERO)
}

/// How a load depends on the voltage about a nominal one: as its response says,
/// by exponents or by percentages, else not at all.
pub open spec fn is_response(
    m: Sem,
    doc: Seq<ObjV>,
    o: ObjV,
    v: Seq<Bits>,
    x: DistLoadVoltageModelV,
) -> bool {
    let n = if v.len() == 0 {
        1
    } else {
        v.len()
    };
    match resolve_at(doc, o.props, "EnergyConsumer.LoadResponse"@) {
        None => x == (DistLoadVoltageModelV::ConstantPower { v_nom: v }),
        Some(r) => {
            let pz = said(m, r, "LoadResponseCharacteristic.pConstantImpedance"@, ZERO);
            let pi = said(m, r, "LoadResponseCharacteristic.pConstantCurrent"@, ZERO);
            let pp = said(m, r, "LoadResponseCharacteristic.pConstantPower"@, ZERO);
            let qz = said(m, r, "LoadResponseCharacteristic.qConstantImpedance"@, ZERO);
            let qi = said(m, r, "LoadResponseCharacteristic.qConstantCurrent"@, ZERO);
            let qp = said(m, r, "LoadResponseCharacteristic.qConstantPower"@, ZERO);
            let bent = bool_at(r, "LoadResponseCharacteristic.exponentModel"@) == Some(true);
            match x {
                DistLoadVoltageModelV::Exponential { v_nom, gamma_p, gamma_q } => {
                    &&& bent
                    &&& v_nom == v
                    &&& all_are(
                        gamma_p,
                        n,
                        said(m, r, "LoadResponseCharacteristic.pVoltageExponent"@, ZERO),
                    )
                    &&& all_are(
                        gamma_q,
                        n,
                        said(m, r, "LoadResponseCharacteristic.qVoltageExponent"@, ZERO),
                    )
                },
                DistLoadVoltageModelV::ConstantPower { v_nom } => !bent && v_nom == v && is_all(
                    pp,
                    pz,
                    pi,
                ) && is_all(qp, qz, qi),
                DistLoadVoltageModelV::ConstantImpedance { v_nom } => !bent && v_nom == v && is_all(
                    pz,
                    pp,
                    pi,
                ) && is_all(qz, qp, qi),
                DistLoadVoltageModelV::ConstantCurrent { v_nom } => !bent && v_nom == v && is_all(
                    pi,
                    pp,
                    pz,
                ) && is_all(qi, qp, qz),
                DistLoadVoltageModelV::Zip {
                    v_nom,
                    alpha_z,
                    alpha_i,
                    alpha_p,
                    beta_z,
                    beta_i,
                    beta_p,
                } => {
                    &&& !bent
                    &&& v_nom == v
                    &&& all_are(alpha_z, n, m.over(pz, HUNDRED))
                    &&& all_are(alpha_i, n, m.over(pi, HUNDRED))
                    &&& all_are(alpha_p, n, m.over(pp, HUNDRED))
                    &&& all_are(beta_z, n, m.over(qz, HUNDRED))
                    &&& all_are(beta_i, n, m.over(qi, HUNDRED))
                    &&& all_are(beta_p, n, m.over(qp, HUNDRED))
                },
            }
        },
    }
}

/// What a load is to its object.
pub open spec fn load_rule(m: Sem, doc: Seq<ObjV>) -> spec_fn(ObjV, DistLoadV) -> bool {
    |o: ObjV, x: DistLoadV| is_load(m, doc, o, x)
}

proof fn lemma_drawn_n(m: Sem, items: Seq<JsonV>, n: nat)
    ensures
        phases_n(m, items, n).len() == drawn_n(m, items, n).len(),
        forall|k: int|
            0 <= k < drawn_n(m, items, n).len() ==> drawn_n(m, items, n)[k] == (
                (#[trigger] phases_n(m, items, n)[k]).terminal,
                phases_n(m, items, n)[k].p,
                phases_n(m, items, n)[k].q,
            ),
    decreases n,
{
    broadcast use lemma_said;

    reveal(phase_of);
    if n > 0 {
        lemma_drawn_n(m, items, (n - 1) as nat);
    }
}

#[verifier::rlimit(40)]
proof fn lemma_load(m: Sem, doc: Seq<ObjV>, st: StateV, o: ObjV)
    ensures
        extends(
            load_rule(m, doc),
            loading(m),
            o,
            st.net.loads,
            load_step(m, doc, st, o).net.loads,
        ),
{
    broadcast use {group_keeps, group_parts, lemma_said, lemma_get_put};

    lemma_keys_apart();
    lemma_identified(o);
    lemma_profiles_apart(m, doc, o);
    reveal(load_extras_of);
    reveal(listed_phases);
    reveal(load_phases_of);
    reveal(load_map_of);
    let items = list_at(o.props, "EnergyConsumer.EnergyConsumerPhase"@);
    lemma_drawn_n(m, items, items.len());
    let a = load_step(m, doc, st, o).net.loads;
    if terminals_of(o.props).len() > 0 {
        let at = terminals_of(o.props)[0].1;
        let (phased, per_phase) = load_phases_of(m, st, o, at.phases);
        assert(per_phase.len() == drawn(m, o).len());
        if !is_loose(m, o) {
            assert(a.drop_last() =~= st.net.loads);
            let x = a.last();
            let v = match x.voltage_model {
                DistLoadVoltageModelV::Exponential { v_nom, gamma_p, gamma_q } => v_nom,
                DistLoadVoltageModelV::ConstantPower { v_nom } => v_nom,
                DistLoadVoltageModelV::ConstantImpedance { v_nom } => v_nom,
                DistLoadVoltageModelV::ConstantCurrent { v_nom } => v_nom,
                DistLoadVoltageModelV::Zip {
                    v_nom,
                    alpha_z,
                    alpha_i,
                    alpha_p,
                    beta_z,
                    beta_i,
                    beta_p,
                } => v_nom,
            };
            reveal(response_model);
            assert(is_response(m, doc, o, v, x.voltage_model));
            assert(is_load(m, doc, o, x));
        }
    }
}

proof fn lemma_loads_n(m: Sem, doc: Seq<ObjV>, st: StateV, ids: Seq<usize>, n: nat)
    requires
        st.net.loads.len() == 0,
    ensures
        are_of(
            load_rule(m, doc),
            chosen_n(doc, ids, loading(m), n),
            loads_n(m, doc, st, ids, n).net.loads,
        ),
    decreases n,
{
    if n > 0 {
        lemma_loads_n(m, doc, st, ids, (n - 1) as nat);
        let b = loads_n(m, doc, st, ids, (n - 1) as nat);
        let o = doc[ids[n - 1] as int];
        lemma_load(m, doc, b, o);
        let a = load_step(m, doc, b, o);
        lemma_extends(doc, ids, load_rule(m, doc), loading(m), n, b.net.loads, a.net.loads);
    }
}

// ---- shunts ----------------------------------------------------------------

/// A diagonal matrix of one number.
pub open spec fn is_diagonal(a: MatV, n: nat, x: Bits) -> bool {
    &&& square(a, n)
    &&& forall|i: int, j: int|
        0 <= i < n && 0 <= j < n ==> #[trigger] a[i][j] == if i == j {
            x
        } else {
            ZERO
        }
}

/// A shunt of an object: on each of its conductors what a section has, times the
/// sections in service, or the normal number of them, or one.
pub open spec fn is_shunt(m: Sem, o: ObjV, x: DistShuntV) -> bool {
    let at = terminals_of(o.props)[0].1;
    let named = terminals_of_letters(at.phases);
    let map = if named.len() == 0 {
        three_phases()
    } else {
        named
    };
    let sections = said(
        m,
        o.props,
        "ShuntCompensator.sections"@,
        said(m, o.props, "ShuntCompensator.normalSections"@, ONE),
    );
    let delta = in_delta(o, "ShuntCompensator.phaseConnection"@);
    &&& x.name == o.name
    &&& is_identified(o, x.extras)
    &&& match num_at(m, o.props, "ShuntCompensator.nomU"@) {
        Some(u) => {
            let b = m.times(
                said(m, o.props, "LinearShuntCompensator.bPerSection"@, ZERO),
                sections,
            );
            let vars = m.times(m.times(m.times(b, u), u), m.from_int(map.len() as u64));
            &&& is_noted(m, x.extras, "kvar"@, Some(m.over(vars, THOUSAND)))
            &&& if !delta && map.len() >= 2 {
                is_noted(m, x.extras, "kv"@, Some(m.over(m.times(u, m.root3()), THOUSAND)))
            } else {
                is_noted(m, x.extras, "kv"@, Some(m.over(u, THOUSAND)))
            }
        },
        None => is_noted(m, x.extras, "kvar"@, None) && is_noted(m, x.extras, "kv"@, None),
    }
    &&& get_of(x.extras, "conn"@) == if delta {
        Some(JsonV::Str("delta"@))
    } else {
        None
    }
    &&& x.bus == at.node
    &&& x.terminal_map == map
    &&& is_diagonal(
        x.b,
        map.len(),
        m.times(said(m, o.props, "LinearShuntCompensator.bPerSection"@, ZERO), sections),
    )
    &&& is_diagonal(
        x.g,
        map.len(),
        m.times(said(m, o.props, "LinearShuntCompensator.gPerSection"@, ZERO), sections),
    )
}

/// What a shunt is to its object.
pub open spec fn shunt_rule(m: Sem) -> spec_fn(ObjV, DistShuntV) -> bool {
    |o: ObjV, x: DistShuntV| is_shunt(m, o, x)
}

proof fn lemma_shunt(m: Sem, doc: Seq<ObjV>, st: StateV, o: ObjV)
    ensures
        extends(
            shunt_rule(m),
            placed(),
            o,
            st.net.shunts,
            shunt_step(m, doc, st, o).net.shunts,
        ),
{
    broadcast use {group_keeps, group_parts, lemma_said, lemma_get_put};

    lemma_keys_apart();
    lemma_identified(o);
    reveal(shunt_extras_of);
    let a = shunt_step(m, doc, st, o).net.shunts;
    if terminals_of(o.props).len() > 0 {
        assert(a.drop_last() =~= st.net.shunts);
        assert(num_or(
            m,
            o.props,
            "ShuntCompensator.sections"@,
            said(m, o.props, "ShuntCompensator.normalSections"@, ONE),
        ) == said(
            m,
            o.props,
            "ShuntCompensator.sections"@,
            said(m, o.props, "ShuntCompensator.normalSections"@, ONE),
        ));
        assert(is_shunt(m, o, a.last()));
    }
}

proof fn lemma_shunts_n(m: Sem, doc: Seq<ObjV>, st: StateV, ids: Seq<usize>, n: nat)
    requires
        st.net.shunts.len() == 0,
    ensures
        are_of(
            shunt_rule(m),
            chosen_n(doc, ids, placed(), n),
            shunts_n(m, doc, st, ids, n).net.shunts,
        ),
    decreases n,
{
    if n > 0 {
        lemma_shunts_n(m, doc, st, ids, (n - 1) as nat);
        let b = shunts_n(m, doc, st, ids, (n - 1) as nat);
        let o = doc[ids[n - 1] as int];
        lemma_shunt(m, doc, b, o);
        let a = shunt_step(m, doc, b, o);
        lemma_extends(doc, ids, shunt_rule(m), placed(), n, b.net.shunts, a.net.shunts);
    }
}

// ---- machines --------------------------------------------------------------

/// The phases of an object and the neutral.
pub open spec fn is_wye_map(o: ObjV, map: Seq<Seq<char>>) -> bool {
    map == phases_of(o).push("4"@)
}

/// A limit of the unit inside an object.
pub open spec fn is_unit_share(
    m: Sem,
    unit: Option<Entries>,
    key: Seq<char>,
    n: nat,
    x: Option<Seq<Bits>>,
) -> bool {
    match unit {
        Some(u) => is_share(m, u, key, n, x),
        None => x is None,
    }
}

/// A generator of an object: its output and its limits shared among its phases.
pub open spec fn is_machine(m: Sem, o: ObjV, x: DistGeneratorV) -> bool {
    let n = phases_of(o).len();
    let share = m.from_int(n as u64);
    let unit = obj_at(o.props, "RotatingMachine.GeneratingUnit"@);
    &&& x.name == o.name
    &&& x.bus == terminals_of(o.props)[0].1.node
    &&& is_wye_map(o, x.terminal_map)
    &&& is_identified(o, x.extras)
    &&& is_noted(
        m,
        x.extras,
        "kv"@,
        in_thousands(m, num_at(m, o.props, "RotatingMachine.ratedU"@)),
    )
    &&& is_noted(
        m,
        x.extras,
        "kva"@,
        in_thousands(m, num_at(m, o.props, "RotatingMachine.ratedS"@)),
    )
    &&& x.configuration == if n == 1 {
        Configuration::SinglePhase
    } else {
        Configuration::Wye
    }
    &&& all_are(x.p_nom, n, m.over(said(m, o.props, "RotatingMachine.p"@, ZERO), share))
    &&& all_are(x.q_nom, n, m.over(said(m, o.props, "RotatingMachine.q"@, ZERO), share))
    &&& is_share(m, o.props, "SynchronousMachine.maxQ"@, n, x.q_max)
    &&& is_share(m, o.props, "SynchronousMachine.minQ"@, n, x.q_min)
    &&& is_unit_share(m, unit, "GeneratingUnit.maxOperatingP"@, n, x.p_max)
    &&& is_unit_share(m, unit, "GeneratingUnit.minOperatingP"@, n, x.p_min)
    &&& x.cost is None
}

/// What a generator is to its object.
pub open spec fn machine_rule(m: Sem) -> spec_fn(ObjV, DistGeneratorV) -> bool {
    |o: ObjV, x: DistGeneratorV| is_machine(m, o, x)
}

proof fn lemma_machine(m: Sem, doc: Seq<ObjV>, st: StateV, o: ObjV)
    ensures
        extends(
            machine_rule(m),
            placed(),
            o,
            st.net.generators,
            machine_step(m, doc, st, o).net.generators,
        ),
{
    broadcast use {group_keeps, group_parts, lemma_said, lemma_get_put};

    lemma_keys_apart();
    lemma_identified(o);
    reveal(machine_extras_of);
    let a = machine_step(m, doc, st, o).net.generators;
    if terminals_of(o.props).len() > 0 {
        assert(a.drop_last() =~= st.net.generators);
        assert(is_machine(m, o, a.last()));
    }
}

proof fn lemma_machines_n(m: Sem, doc: Seq<ObjV>, st: StateV, ids: Seq<usize>, n: nat)
    requires
        st.net.generators.len() == 0,
    ensures
        are_of(
            machine_rule(m),
            chosen_n(doc, ids, placed(), n),
            machines_n(m, doc, st, ids, n).net.generators,
        ),
    decreases n,
{
    if n > 0 {
        lemma_machines_n(m, doc, st, ids, (n - 1) as nat);
        let b = machines_n(m, doc, st, ids, (n - 1) as nat);
        let o = doc[ids[n - 1] as int];
        lemma_machine(m, doc, b, o);
        let a = machine_step(m, doc, b, o);
        lemma_extends(doc, ids, machine_rule(m), placed(), n, b.net.generators, a.net.generators);
    }
}

// ---- inverters -------------------------------------------------------------

/// What drives an inverter: what the class of its unit names, else anything.
pub open spec fn is_mover(unit: Option<Entries>, x: IbrPrimeMover) -> bool {
    let kind = match unit {
        Some(u) => str_at(u, "Ravens.cimObjectType"@),
        None => None,
    };
    x == if kind == Some("PhotoVoltaicUnit"@) {
        IbrPrimeMover::Pv
    } else if kind == Some("BatteryUnit"@) {
        IbrPrimeMover::Battery
    } else {
        IbrPrimeMover::Generic
    }
}

/// The fault current of an inverter in amperes: so many times its rated current,
/// where its rating and its voltage are positive.
pub open spec fn is_fault(m: Sem, o: Entries, n: nat, x: Option<Seq<Bits>>) -> bool {
    let s = said(m, o, "PowerElectronicsConnection.ratedS"@, ZERO);
    let u = num_at(m, o, "PowerElectronicsConnection.ratedU"@);
    let pu = num_at(m, o, "PowerElectronicsConnection.maxIFault"@);
    match x {
        Some(v) => {
            &&& u is Some
            &&& pu is Some
            &&& num_lt(ZERO, s)
            &&& num_lt(ZERO, u->0)
            &&& if n == 1 {
                all_are(v, n, m.times(pu->0, m.over(s, u->0)))
            } else {
                all_are(v, n, m.times(pu->0, m.over(s, m.times(m.root3(), u->0))))
            }
        },
        None => u is None || pu is None || !num_lt(ZERO, s) || !num_lt(ZERO, u->0),
    }
}

/// An inverter of an object.
pub open spec fn is_inverter(m: Sem, o: ObjV, x: DistIbrV) -> bool {
    let n = phases_of(o).len();
    let unit = obj_at(o.props, "PowerElectronicsConnection.PowerElectronicsUnit"@);
    &&& x.name == o.name
    &&& x.bus == terminals_of(o.props)[0].1.node
    &&& is_wye_map(o, x.terminal_map)
    &&& is_identified(o, x.extras)
    &&& is_noted(
        m,
        x.extras,
        "kv"@,
        in_thousands(m, num_at(m, o.props, "PowerElectronicsConnection.ratedU"@)),
    )
    &&& is_noted(
        m,
        x.extras,
        "kvar"@,
        in_thousands(m, num_at(m, o.props, "PowerElectronicsConnection.q"@)),
    )
    &&& x.topology == if n == 1 {
        IbrTopology::SinglePhase
    } else {
        IbrTopology::ThreeLeg
    }
    &&& is_mover(unit, x.prime_mover)
    &&& all_are(
        x.s_max,
        n,
        m.over(said(m, o.props, "PowerElectronicsConnection.ratedS"@, ZERO), m.from_int(n as u64)),
    )
    &&& x.p_avail == num_at(m, o.props, "PowerElectronicsConnection.p"@)
    &&& is_share(m, o.props, "PowerElectronicsConnection.maxQ"@, n, x.q_max)
    &&& is_share(m, o.props, "PowerElectronicsConnection.minQ"@, n, x.q_min)
    &&& is_unit_share(m, unit, "PowerElectronicsUnit.maxP"@, n, x.p_max)
    &&& is_unit_share(m, unit, "PowerElectronicsUnit.minP"@, n, x.p_min)
    &&& is_fault(m, o.props, n, x.i_max)
    &&& x.control_profile is None
    &&& x.voltage_aggregation is None
}

/// What an inverter is to its object.
pub open spec fn inverter_rule(m: Sem) -> spec_fn(ObjV, DistIbrV) -> bool {
    |o: ObjV, x: DistIbrV| is_inverter(m, o, x)
}

proof fn lemma_inverter(m: Sem, doc: Seq<ObjV>, st: StateV, o: ObjV)
    ensures
        extends(
            inverter_rule(m),
            placed(),
            o,
            st.net.ibrs,
            electronics_step(m, doc, st, o).net.ibrs,
        ),
{
    broadcast use {group_keeps, group_parts, lemma_said, lemma_get_put};

    lemma_keys_apart();
    lemma_identified(o);
    reveal(ibr_extras_of);
    reveal(fault_amps_of);
    reveal_strlit("PhotoVoltaicUnit");
    reveal_strlit("BatteryUnit");
    let a = electronics_step(m, doc, st, o).net.ibrs;
    if terminals_of(o.props).len() > 0 {
        assert(a.drop_last() =~= st.net.ibrs);
        assert(is_inverter(m, o, a.last()));
    }
}

proof fn lemma_inverters_n(m: Sem, doc: Seq<ObjV>, st: StateV, ids: Seq<usize>, n: nat)
    requires
        st.net.ibrs.len() == 0,
    ensures
        are_of(
            inverter_rule(m),
            chosen_n(doc, ids, placed(), n),
            electronics_n(m, doc, st, ids, n).net.ibrs,
        ),
    decreases n,
{
    if n > 0 {
        lemma_inverters_n(m, doc, st, ids, (n - 1) as nat);
        let b = electronics_n(m, doc, st, ids, (n - 1) as nat);
        let o = doc[ids[n - 1] as int];
        lemma_inverter(m, doc, b, o);
        let a = electronics_step(m, doc, b, o);
        lemma_extends(doc, ids, inverter_rule(m), placed(), n, b.net.ibrs, a.net.ibrs);
    }
}

// ---- sources ---------------------------------------------------------------

/// An angle within half a turn of zero, and the same direction as another.
pub open spec fn is_wrapped(m: Sem, a: Bits, x: Bits) -> bool {
    let rest = m.rem_euclid(m.plus(a, PI), TAU);
    if num_le(rest, ZERO) {
        x == PI
    } else {
        x == m.minus(rest, PI)
    }
}

/// A voltage source of an object: the volts between its phases taken to neutral,
/// each phase an even share of a turn behind the one before; nothing on the
/// neutral.
pub open spec fn is_source(m: Sem, o: ObjV, x: VoltageSourceV) -> bool {
    let n = phases_of(o).len();
    let count = m.from_int(n as u64);
    let volts = said(m, o.props, "EnergySource.voltageMagnitude"@, ZERO);
    let angle = said(m, o.props, "EnergySource.voltageAngle"@, ZERO);
    let nominal = num_at(m, o.props, "EnergySource.nominalVoltage"@);
    let v = if n == 1 {
        volts
    } else {
        m.over(volts, m.times(TWO, m.sin(m.over(PI, count))))
    };
    &&& x.name == o.name
    &&& x.bus == terminals_of(o.props)[0].1.node
    &&& is_wye_map(o, x.terminal_map)
    &&& is_identified(o, x.extras)
    &&& is_noted(m, x.extras, "angle"@, Some(m.degrees(angle)))
    &&& is_noted(m, x.extras, "r1"@, num_at(m, o.props, "EnergySource.r"@))
    &&& is_noted(m, x.extras, "x1"@, num_at(m, o.props, "EnergySource.x"@))
    &&& is_noted(m, x.extras, "r0"@, num_at(m, o.props, "EnergySource.r0"@))
    &&& is_noted(m, x.extras, "x0"@, num_at(m, o.props, "EnergySource.x0"@))
    &&& is_noted(m, x.extras, "basekv"@, in_thousands(m, nominal))
    &&& is_noted(
        m,
        x.extras,
        "pu"@,
        if nominal is Some && num_lt(ZERO, nominal->0) && num_lt(
            ZERO,
            abs_of(m.minus(m.over(volts, nominal->0), ONE)),
        ) {
            Some(m.over(volts, nominal->0))
        } else if nominal is Some && !num_lt(ZERO, nominal->0) && num_lt(
            ZERO,
            abs_of(m.minus(ONE, ONE)),
        ) {
            Some(ONE)
        } else {
            None
        },
    )
    &&& x.v_magnitude.len() == n + 1
    &&& forall|k: int| 0 <= k < n ==> #[trigger] x.v_magnitude[k] == v
    &&& x.v_magnitude[n as int] == ZERO
    &&& x.v_angle.len() == n + 1
    &&& forall|k: int|
        0 <= k < n ==> is_wrapped(
            m,
            m.minus(angle, m.times(m.over(TAU, count), m.from_int(k as u64))),
            #[trigger] x.v_angle[k],
        )
    &&& x.v_angle[n as int] == ZERO
}

/// What a voltage source is to its object.
pub open spec fn source_rule(m: Sem) -> spec_fn(ObjV, VoltageSourceV) -> bool {
    |o: ObjV, x: VoltageSourceV| is_source(m, o, x)
}

proof fn lemma_source(m: Sem, doc: Seq<ObjV>, st: StateV, o: ObjV)
    ensures
        extends(
            source_rule(m),
            placed(),
            o,
            st.net.sources,
            source_step(m, doc, st, o).net.sources,
        ),
{
    broadcast use {group_keeps, group_parts, lemma_said, lemma_get_put};

    lemma_keys_apart();
    lemma_identified(o);
    reveal(source_extras_of);
    let a = source_step(m, doc, st, o).net.sources;
    if terminals_of(o.props).len() > 0 {
        assert(a.drop_last() =~= st.net.sources);
        assert(is_source(m, o, a.last()));
    }
}

proof fn lemma_sources_n(m: Sem, doc: Seq<ObjV>, st: StateV, ids: Seq<usize>, n: nat)
    requires
        st.net.sources.len() == 0,
    ensures
        are_of(
            source_rule(m),
            chosen_n(doc, ids, placed(), n),
            sources_n(m, doc, st, ids, n).net.sources,
        ),
    decreases n,
{
    if n > 0 {
        lemma_sources_n(m, doc, st, ids, (n - 1) as nat);
        let b = sources_n(m, doc, st, ids, (n - 1) as nat);
        let o = doc[ids[n - 1] as int];
        lemma_source(m, doc, b, o);
        let a = source_step(m, doc, b, o);
        lemma_extends(doc, ids, source_rule(m), placed(), n, b.net.sources, a.net.sources);
    }
}

// ---- switches --------------------------------------------------------------

/// An object has two terminals.
pub open spec fn spanning() -> spec_fn(ObjV) -> bool {
    |o: ObjV| terminals_of(o.props).len() >= 2
}

/// The terminals that a phase of a switch joins.
pub open spec fn sides(entry: JsonV) -> Option<(Seq<char>, Seq<char>)> {
    match entry {
        JsonV::Obj(o) => match (
            suffix_at(o, "SwitchPhase.phaseSide1"@),
            suffix_at(o, "SwitchPhase.phaseSide2"@),
        ) {
            (Some(a), Some(b)) => match (phase_terminal_of(a), phase_terminal_of(b)) {
                (Some(x), Some(y)) => Some((x, y)),
                _ => None,
            },
            _ => None,
        },
        _ => None,
    }
}

/// The terminals that the first `n` phases of a switch join, in order.
pub open spec fn joined_n(items: Seq<JsonV>, n: nat) -> Seq<(Seq<char>, Seq<char>)>
    decreases n,
{
    if n == 0 {
        seq![]
    } else {
        match sides(items[n - 1]) {
            Some(x) => joined_n(items, (n - 1) as nat).push(x),
            None => joined_n(items, (n - 1) as nat),
        }
    }
}

/// The terminals of the two sides of a switch: phase by phase as they are listed,
/// else those that its terminals name, else three on each side.
pub open spec fn are_sides(o: ObjV, from: Seq<Seq<char>>, to: Seq<Seq<char>>) -> bool {
    let items = list_at(o.props, "Switch.SwitchPhase"@);
    let listed = joined_n(items, items.len());
    let a = hot_terminals_of(terminals_of(o.props)[0].1.phases);
    let b = hot_terminals_of(terminals_of(o.props)[1].1.phases);
    if listed.len() > 0 {
        &&& from.len() == listed.len()
        &&& to.len() == listed.len()
        &&& forall|k: int| 0 <= k < listed.len() ==> #[trigger] from[k] == listed[k].0
        &&& forall|k: int| 0 <= k < listed.len() ==> #[trigger] to[k] == listed[k].1
    } else if a.len() == 0 || b.len() == 0 {
        from == three_phases() && to == three_phases()
    } else {
        from == a && to == b
    }
}

/// The lasting rating of the limits at the first terminal of an object.
pub open spec fn normal_amps(m: Sem, doc: Seq<ObjV>, o: ObjV) -> Option<Bits> {
    match terminals_of(o.props)[0].1.limit_set {
        Some(set) => limits_of(m, doc, set).norm_amps,
        None => None,
    }
}

/// A switch of an object, open where it says so, with the emergency rating of the
/// limits at its first terminal.
pub open spec fn is_switch(m: Sem, doc: Seq<ObjV>, o: ObjV, x: DistSwitchV) -> bool {
    let from = terminals_of(o.props)[0].1;
    &&& x.name == o.name
    &&& x.bus_from == from.node
    &&& x.bus_to == terminals_of(o.props)[1].1.node
    &&& are_sides(o, x.terminal_map_from, x.terminal_map_to)
    &&& x.open == (bool_at(o.props, "Switch.open"@) == Some(true))
    &&& is_identified(o, x.extras)
    &&& get_of(x.extras, "ravens_normal_open"@) == match bool_at(
        o.props,
        "Switch.normalOpen"@,
    ) {
        Some(normal) => if normal != x.open {
            Some(JsonV::Bool(normal))
        } else {
            None
        },
        None => None,
    }
    &&& is_noted(m, x.extras, "normamps"@, normal_amps(m, doc, o))
    &&& match from.limit_set {
        Some(set) => match (limits_of(m, doc, set).emerg_amps, x.i_max) {
            (Some(amps), Some(v)) => all_are(v, x.terminal_map_from.len(), amps),
            (None, None) => true,
            _ => false,
        },
        None => x.i_max is None,
    }
}

/// What a switch is to its object.
pub open spec fn switch_rule(m: Sem, doc: Seq<ObjV>) -> spec_fn(ObjV, DistSwitchV) -> bool {
    |o: ObjV, x: DistSwitchV| is_switch(m, doc, o, x)
}

proof fn lemma_joined_n(items: Seq<JsonV>, n: nat)
    ensures
        sides_n(items, n).0.len() == joined_n(items, n).len(),
        sides_n(items, n).1.len() == joined_n(items, n).len(),
        forall|k: int|
            0 <= k < joined_n(items, n).len() ==> #[trigger] sides_n(items, n).0[k] == joined_n(
                items,
                n,
            )[k].0,
        forall|k: int|
            0 <= k < joined_n(items, n).len() ==> #[trigger] sides_n(items, n).1[k] == joined_n(
                items,
                n,
            )[k].1,
    decreases n,
{
    reveal(side_of);
    if n > 0 {
        lemma_joined_n(items, (n - 1) as nat);
    }
}

proof fn lemma_switch(m: Sem, doc: Seq<ObjV>, st: StateV, o: ObjV)
    ensures
        extends(
            switch_rule(m, doc),
            spanning(),
            o,
            st.net.switches,
            switch_step(m, doc, st, o).net.switches,
        ),
{
    broadcast use {group_keeps, group_parts, lemma_get_put};

    lemma_keys_apart();
    lemma_identified(o);
    reveal(switch_maps_of);
    reveal(switch_limits_of);
    let items = list_at(o.props, "Switch.SwitchPhase"@);
    lemma_joined_n(items, items.len());
    let a = switch_step(m, doc, st, o).net.switches;
    if terminals_of(o.props).len() >= 2 {
        assert(a.drop_last() =~= st.net.switches);
        assert(is_switch(m, doc, o, a.last()));
    }
}

proof fn lemma_switches_n(m: Sem, doc: Seq<ObjV>, st: StateV, ids: Seq<usize>, n: nat)
    requires
        st.net.switches.len() == 0,
    ensures
        are_of(
            switch_rule(m, doc),
            chosen_n(doc, ids, spanning(), n),
            switches_n(m, doc, st, ids, n).net.switches,
        ),
    decreases n,
{
    if n > 0 {
        lemma_switches_n(m, doc, st, ids, (n - 1) as nat);
        let b = switches_n(m, doc, st, ids, (n - 1) as nat);
        let o = doc[ids[n - 1] as int];
        lemma_switch(m, doc, b, o);
        let a = switch_step(m, doc, b, o);
        lemma_extends(
            doc,
            ids,
            switch_rule(m, doc),
            spanning(),
            n,
            b.net.switches,
            a.net.switches,
        );
    }
}

// ---- lines -----------------------------------------------------------------

/// An object has two terminals and points to impedances.
pub open spec fn wired() -> spec_fn(ObjV) -> bool {
    |o: ObjV|
        terminals_of(o.props).len() >= 2 && target_at(
            o.props,
            "ACLineSegment.PerLengthImpedance"@,
        ) is Some
}

/// A line of an object: between the nodes of its terminals, on the same conductors
/// at both ends, as long as it says or a unit, with the line code that it points
/// to.
pub open spec fn is_line(m: Sem, doc: Seq<ObjV>, o: ObjV, x: DistLineV) -> bool {
    let from = terminals_of(o.props)[0].1;
    let named = hot_terminals_of(line_letters_of(o.props, from));
    &&& x.name == o.name
    &&& x.bus_from == from.node
    &&& x.bus_to == terminals_of(o.props)[1].1.node
    &&& target_at(o.props, "ACLineSegment.PerLengthImpedance"@) == Some(x.linecode)
    &&& x.length == said(m, o.props, "Conductor.length"@, ONE)
    &&& is_identified(o, x.extras)
    &&& is_noted(m, x.extras, "normamps"@, normal_amps(m, doc, o))
    &&& x.terminal_map_to == x.terminal_map_from
    &&& if named.len() > 0 {
        x.terminal_map_from == named
    } else {
        x.terminal_map_from.len() <= 3 && x.terminal_map_from == numbered(x.terminal_map_from.len())
    }
}

/// What a line is to its object.
pub open spec fn line_rule(m: Sem, doc: Seq<ObjV>) -> spec_fn(ObjV, DistLineV) -> bool {
    |o: ObjV, x: DistLineV| is_line(m, doc, o, x)
}

proof fn lemma_line(m: Sem, doc: Seq<ObjV>, st: StateV, o: ObjV)
    ensures
        extends(
            line_rule(m, doc),
            wired(),
            o,
            st.net.lines,
            line_step(m, doc, st, o).net.lines,
        ),
{
    broadcast use {group_keeps, group_parts, lemma_said, lemma_get_put};

    lemma_keys_apart();
    lemma_identified(o);
    reveal(line_limits_of);
    let a = line_step(m, doc, st, o).net.lines;
    if wired()(o) {
        assert(a.drop_last() =~= st.net.lines);
        let x = a.last();
        assert(x.terminal_map_from.len() <= 3 ==> numbered(x.terminal_map_from.len()).len()
            == x.terminal_map_from.len());
        assert(is_line(m, doc, o, x));
    }
}

proof fn lemma_lines_n(m: Sem, doc: Seq<ObjV>, st: StateV, ids: Seq<usize>, n: nat)
    requires
        st.net.lines.len() == 0,
    ensures
        are_of(
            line_rule(m, doc),
            chosen_n(doc, ids, wired(), n),
            lines_n(m, doc, st, ids, n).net.lines,
        ),
    decreases n,
{
    if n > 0 {
        lemma_lines_n(m, doc, st, ids, (n - 1) as nat);
        let b = lines_n(m, doc, st, ids, (n - 1) as nat);
        let o = doc[ids[n - 1] as int];
        lemma_line(m, doc, b, o);
        let a = line_step(m, doc, b, o);
        lemma_extends(doc, ids, line_rule(m, doc), wired(), n, b.net.lines, a.net.lines);
    }
}

// ---- line codes ------------------------------------------------------------

/// The place of an entry of a line code, from one on, and its properties.
pub open spec fn place_at(m: Sem, entry: JsonV) -> Option<(usize, usize, Entries)> {
    match entry {
        JsonV::Obj(o) => match (
            num_at(m, o, "PhaseImpedanceData.row"@),
            num_at(m, o, "PhaseImpedanceData.column"@),
        ) {
            (Some(i), Some(j)) => Some((to_usize_of(m.trunc(i)), to_usize_of(m.trunc(j)), o)),
            _ => None,
        },
        _ => None,
    }
}

/// An entry stands at a place of a symmetric matrix, or at its mirror image.
pub open spec fn stands_at(m: Sem, entry: JsonV, i: int, j: int) -> bool {
    place_at(m, entry) matches Some(p) && ((p.0 == i + 1 && p.1 == j + 1) || (p.0 == j + 1 && p.1
        == i + 1))
}

/// The number at a place: that of the last of the first `n` entries that stand
/// there, else zero.
pub open spec fn entry_n(
    m: Sem,
    items: Seq<JsonV>,
    key: Seq<char>,
    i: int,
    j: int,
    n: nat,
) -> Bits
    decreases n,
{
    if n == 0 {
        ZERO
    } else if stands_at(m, items[n - 1], i, j) {
        let place = place_at(m, items[n - 1])->0;
        said(m, place.2, key, ZERO)
    } else {
        entry_n(m, items, key, i, j, (n - 1) as nat)
    }
}

/// The largest row or column among the first `n` entries.
pub open spec fn widest_n(m: Sem, items: Seq<JsonV>, n: nat) -> nat
    decreases n,
{
    if n == 0 {
        0
    } else {
        let before = widest_n(m, items, (n - 1) as nat);
        match place_at(m, items[n - 1]) {
            Some(p) => {
                let own = if p.0 > p.1 {
                    p.0 as nat
                } else {
                    p.1 as nat
                };
                if own > before {
                    own
                } else {
                    before
                }
            },
            None => before,
        }
    }
}

/// The entries of a line code.
pub open spec fn items_of(o: ObjV) -> Seq<JsonV> {
    list_at(o.props, "PerLengthPhaseImpedance.PhaseImpedanceData"@)
}

/// The conductors of a line code: as many as it says, else as its entries need.
pub open spec fn conductors_of(m: Sem, o: ObjV) -> nat {
    match num_at(m, o.props, "PerLengthPhaseImpedance.conductorCount"@) {
        Some(c) => to_usize_of(m.trunc(c)) as nat,
        None => widest_n(m, items_of(o), items_of(o).len()),
    }
}

/// The matrix of a property of the entries of a line code.
pub open spec fn is_matrix(m: Sem, o: ObjV, key: Seq<char>, a: MatV) -> bool {
    let n = conductors_of(m, o);
    &&& square(a, n)
    &&& forall|i: int, j: int|
        0 <= i < n && 0 <= j < n ==> #[trigger] a[i][j] == entry_n(
            m,
            items_of(o),
            key,
            i,
            j,
            items_of(o).len(),
        )
}

/// The half of the matrix of a property.
pub open spec fn is_half(m: Sem, o: ObjV, key: Seq<char>, a: MatV) -> bool {
    let n = conductors_of(m, o);
    &&& square(a, n)
    &&& forall|i: int, j: int|
        0 <= i < n && 0 <= j < n ==> #[trigger] a[i][j] == m.over(
            entry_n(m, items_of(o), key, i, j, items_of(o).len()),
            TWO,
        )
}

/// A line code of an object, with half of what is to ground at each end.
pub open spec fn is_line_code(m: Sem, o: ObjV, c: DistLineCodeV) -> bool {
    &&& c.name == o.name
    &&& c.n_conductors == conductors_of(m, o)
    &&& is_matrix(m, o, "PhaseImpedanceData.r"@, c.r_series)
    &&& is_matrix(m, o, "PhaseImpedanceData.x"@, c.x_series)
    &&& is_half(m, o, "PhaseImpedanceData.g"@, c.g_from)
    &&& is_half(m, o, "PhaseImpedanceData.g"@, c.g_to)
    &&& is_half(m, o, "PhaseImpedanceData.b"@, c.b_from)
    &&& is_half(m, o, "PhaseImpedanceData.b"@, c.b_to)
}

/// An object has conductors.
pub open spec fn coded(m: Sem) -> spec_fn(ObjV) -> bool {
    |o: ObjV| conductors_of(m, o) > 0
}

/// What a line code is to its object.
pub open spec fn code_rule(m: Sem) -> spec_fn(ObjV, DistLineCodeV) -> bool {
    |o: ObjV, c: DistLineCodeV| is_line_code(m, o, c)
}

proof fn lemma_mirrored(a: MatV, n: nat, i: int, j: int, v: Bits)
    requires
        square(a, n),
        0 <= i < n,
        0 <= j < n,
    ensures
        square(mirror_of(a, i, j, v), n),
        forall|p: int, q: int|
            0 <= p < n && 0 <= q < n ==> #[trigger] mirror_of(a, i, j, v)[p][q] == if (p == i && q
                == j) || (p == j && q == i) {
                v
            } else {
                a[p][q]
            },
{
}

#[verifier::rlimit(40)]
proof fn lemma_entries(m: Sem, items: Seq<JsonV>, size: nat, n: nat)
    ensures
        ({
            let rows = rows_n(m, items, n);
            let t = mats_n(size, rows, rows.len());
            &&& extent_n(rows, rows.len()) == widest_n(m, items, n)
            &&& square(t.r, size) && square(t.x, size) && square(t.b, size) && square(t.g, size)
            &&& forall|i: int, j: int|
                0 <= i < size && 0 <= j < size ==> #[trigger] t.r[i][j] == entry_n(
                    m,
                    items,
                    "PhaseImpedanceData.r"@,
                    i,
                    j,
                    n,
                )
            &&& forall|i: int, j: int|
                0 <= i < size && 0 <= j < size ==> #[trigger] t.x[i][j] == entry_n(
                    m,
                    items,
                    "PhaseImpedanceData.x"@,
                    i,
                    j,
                    n,
                )
            &&& forall|i: int, j: int|
                0 <= i < size && 0 <= j < size ==> #[trigger] t.b[i][j] == entry_n(
                    m,
                    items,
                    "PhaseImpedanceData.b"@,
                    i,
                    j,
                    n,
                )
            &&& forall|i: int, j: int|
                0 <= i < size && 0 <= j < size ==> #[trigger] t.g[i][j] == entry_n(
                    m,
                    items,
                    "PhaseImpedanceData.g"@,
                    i,
                    j,
                    n,
                )
        }),
    decreases n,
{
    broadcast use lemma_said;

    reveal(row_of);
    if n > 0 {
        lemma_entries(m, items, size, (n - 1) as nat);
        let before = rows_n(m, items, (n - 1) as nat);
        let rows = rows_n(m, items, n);
        if let Some(row) = row_of(m, items[n - 1]) {
            assert(rows == before.push(row));
            lemma_mats_same(size, rows, before, before.len());
            lemma_extent_same(rows, before, before.len());
            let t = mats_n(size, before, before.len());
            let i = row.i - 1;
            let j = row.j - 1;
            if row.i > 0 && row.j > 0 && row.i <= size && row.j <= size {
                lemma_mirrored(t.r, size, i, j, row.r);
                lemma_mirrored(t.x, size, i, j, row.x);
                lemma_mirrored(t.b, size, i, j, row.b);
                lemma_mirrored(t.g, size, i, j, row.g);
            }
        }
    }
}

proof fn lemma_extent_same(a: Seq<Row>, b: Seq<Row>, n: nat)
    requires
        n <= a.len(),
        n <= b.len(),
        forall|i: int| 0 <= i < n ==> #[trigger] a[i] == b[i],
    ensures
        extent_n(a, n) == extent_n(b, n),
    decreases n,
{
    if n > 0 {
        lemma_extent_same(a, b, (n - 1) as nat);
        assert(a[n - 1] == b[n - 1]);
    }
}

proof fn lemma_widest(m: Sem, items: Seq<JsonV>, n: nat)
    ensures
        widest_n(m, items, n) <= usize::MAX,
    decreases n,
{
    if n > 0 {
        lemma_widest(m, items, (n - 1) as nat);
    }
}

proof fn lemma_code(m: Sem, st: StateV, o: ObjV)
    ensures
        extends(
            code_rule(m),
            coded(m),
            o,
            st.net.linecodes,
            linecode_step(m, st, o).net.linecodes,
        ),
{
    broadcast use group_keeps;

    let items = items_of(o);
    let n = conductors_of(m, o);
    lemma_entries(m, items, n, items.len());
    lemma_widest(m, items, items.len());
    let a = linecode_step(m, st, o).net.linecodes;
    if n > 0 {
        assert(a.drop_last() =~= st.net.linecodes);
        assert(is_line_code(m, o, a.last()));
    } else {
        reveal(StateV::warn);
    }
}

proof fn lemma_codes_n(m: Sem, doc: Seq<ObjV>, st: StateV, ids: Seq<usize>, n: nat)
    requires
        st.net.linecodes.len() == 0,
    ensures
        are_of(
            code_rule(m),
            chosen_n(doc, ids, coded(m), n),
            linecodes_n(m, doc, st, ids, n).net.linecodes,
        ),
    decreases n,
{
    if n > 0 {
        lemma_codes_n(m, doc, st, ids, (n - 1) as nat);
        let b = linecodes_n(m, doc, st, ids, (n - 1) as nat);
        let o = doc[ids[n - 1] as int];
        lemma_code(m, b, o);
        let a = linecode_step(m, b, o);
        lemma_extends(doc, ids, code_rule(m), coded(m), n, b.net.linecodes, a.net.linecodes);
    }
}

// ---- limits ----------------------------------------------------------------

/// The type that a limit points to.
pub open spec fn limit_type(doc: Seq<ObjV>, v: Entries) -> Option<Entries> {
    resolve_at(doc, v, "OperationalLimit.OperationalLimitType"@)
}

/// A limit holds without end: it has no type, or its type no duration, or one of a
/// billion seconds or more.
pub open spec fn is_lasting(m: Sem, doc: Seq<ObjV>, v: Entries) -> bool {
    match limit_type(doc, v) {
        Some(t) => match num_at(m, t, "OperationalLimitType.acceptableDuration"@) {
            Some(d) => num_le(BILLION, d),
            None => true,
        },
        None => true,
    }
}

/// The amperes of a limit on current that lasts, or that does not.
pub open spec fn amps_of(m: Sem, doc: Seq<ObjV>, lasting: bool) -> spec_fn(JsonV) -> Option<Bits> {
    |x: JsonV|
        match x {
            JsonV::Obj(v) => if str_at(v, "Ravens.cimObjectType"@) == Some("CurrentLimit"@)
                && is_lasting(m, doc, v) == lasting {
                num_at(m, v, "CurrentLimit.value"@)
            } else {
                None
            },
            _ => None,
        }
}

/// The volts of a limit on voltage in a direction.
pub open spec fn volts_of(m: Sem, doc: Seq<ObjV>, way: Seq<char>) -> spec_fn(JsonV) -> Option<
    Bits,
> {
    |x: JsonV|
        match x {
            JsonV::Obj(v) => if str_at(v, "Ravens.cimObjectType"@) == Some("VoltageLimit"@)
                && limit_type(doc, v) is Some && suffix_at(
                limit_type(doc, v)->0,
                "OperationalLimitType.direction"@,
            ) == Some(way) {
                num_at(m, v, "VoltageLimit.value"@)
            } else {
                None
            },
            _ => None,
        }
}

/// A value gives a number, and none before it does.
pub open spec fn gives_first(
    pick: spec_fn(JsonV) -> Option<Bits>,
    values: Seq<JsonV>,
    k: int,
    x: Bits,
) -> bool {
    &&& pick(values[k]) == Some(x)
    &&& forall|j: int| 0 <= j < k ==> pick(#[trigger] values[j]) is None
}

/// The first number that some values give, if any does.
pub open spec fn is_first(
    pick: spec_fn(JsonV) -> Option<Bits>,
    values: Seq<JsonV>,
    n: int,
    x: Option<Bits>,
) -> bool {
    match x {
        Some(v) => exists|k: int| 0 <= k < n && #[trigger] gives_first(pick, values, k, v),
        None => forall|j: int| 0 <= j < n ==> pick(#[trigger] values[j]) is None,
    }
}

proof fn lemma_first(
    pick: spec_fn(JsonV) -> Option<Bits>,
    values: Seq<JsonV>,
    n: int,
    a: Option<Bits>,
    b: Option<Bits>,
)
    requires
        0 < n <= values.len(),
        is_first(pick, values, n - 1, a),
        b == match a {
            Some(x) => Some(x),
            None => pick(values[n - 1]),
        },
    ensures
        is_first(pick, values, n, b),
{
    if let Some(x) = a {
        let k = choose|k: int| 0 <= k < n - 1 && #[trigger] gives_first(pick, values, k, x);
        assert(gives_first(pick, values, k, x));
    } else if let Some(x) = b {
        assert(gives_first(pick, values, n - 1, x));
    }
}

/// What the limits of some values are.
pub open spec fn are_limits(
    m: Sem,
    doc: Seq<ObjV>,
    values: Seq<JsonV>,
    n: int,
    l: Limits,
) -> bool {
    &&& is_first(amps_of(m, doc, true), values, n, l.norm_amps)
    &&& is_first(amps_of(m, doc, false), values, n, l.emerg_amps)
    &&& is_first(volts_of(m, doc, "low"@), values, n, l.v_low)
    &&& is_first(volts_of(m, doc, "high"@), values, n, l.v_high)
}

proof fn lemma_limits_n(m: Sem, doc: Seq<ObjV>, values: Seq<JsonV>, n: nat)
    requires
        n <= values.len(),
    ensures
        are_limits(m, doc, values, n as int, limits_n(m, doc, values, n)),
    decreases n,
{
    reveal_strlit("CurrentLimit");
    reveal_strlit("VoltageLimit");
    reveal_strlit("low");
    reveal_strlit("high");
    assert("CurrentLimit"@[0] == 'C' && "VoltageLimit"@[0] == 'V');
    assert("low"@[0] == 'l' && "high"@[0] == 'h');
    if n > 0 {
        lemma_limits_n(m, doc, values, (n - 1) as nat);
        let a = limits_n(m, doc, values, (n - 1) as nat);
        let b = limits_n(m, doc, values, n);
        lemma_first(amps_of(m, doc, true), values, n as int, a.norm_amps, b.norm_amps);
        lemma_first(amps_of(m, doc, false), values, n as int, a.emerg_amps, b.emerg_amps);
        lemma_first(volts_of(m, doc, "low"@), values, n as int, a.v_low, b.v_low);
        lemma_first(volts_of(m, doc, "high"@), values, n as int, a.v_high, b.v_high);
    }
}

/// The limits of a set are the first of its values of each sort: the lasting and
/// the other current, the low and the high voltage.
pub proof fn lemma_limits_are_the_first(m: Sem, doc: Seq<ObjV>, name: Seq<char>)
    ensures
        match named_of(doc, "OperationalLimitSet"@, name) {
            Some(set) => {
                let values = list_at(set, "OperationalLimitSet.OperationalLimitValue"@);
                are_limits(m, doc, values, values.len() as int, limits_of(m, doc, name))
            },
            None => {
                let l = limits_of(m, doc, name);
                l.norm_amps is None && l.emerg_amps is None && l.v_low is None && l.v_high is None
            },
        },
{
    reveal(limits_of);
    if let Some(set) = named_of(doc, "OperationalLimitSet"@, name) {
        let values = list_at(set, "OperationalLimitSet.OperationalLimitValue"@);
        lemma_limits_n(m, doc, values, values.len());
    }
}

// ---- nodes -----------------------------------------------------------------

/// A bus of a node, with the limits on voltage that it points to.
pub open spec fn is_node(m: Sem, doc: Seq<ObjV>, o: ObjV, b: DistBusV) -> bool {
    &&& b.id == o.name
    &&& match target_at(o.props, "ConnectivityNode.OperationalLimitSet"@) {
        Some(set) => b.v_min == limits_of(m, doc, set).v_low && b.v_max == limits_of(
            m,
            doc,
            set,
        ).v_high,
        None => b.v_min is None && b.v_max is None,
    }
}

proof fn lemma_nodes_n(m: Sem, doc: Seq<ObjV>, st: StateV, ids: Seq<usize>, n: nat)
    requires
        st.net.buses.len() == 0,
    ensures
        buses_n(m, doc, st, ids, n).0.net.buses.len() == n,
        forall|k: int|
            0 <= k < n ==> is_node(
                m,
                doc,
                doc[ids[k] as int],
                #[trigger] buses_n(m, doc, st, ids, n).0.net.buses[k],
            ),
    decreases n,
{
    if n > 0 {
        lemma_nodes_n(m, doc, st, ids, (n - 1) as nat);
    }
}

// ---- transformers ----------------------------------------------------------

/// A tank that gives a transformer.
pub open spec fn complete(doc: Seq<ObjV>) -> spec_fn(ObjV) -> bool {
    |o: ObjV| is_complete(doc, o)
}

/// What a transformer is to its tank.
pub open spec fn tank_rule(m: Sem, doc: Seq<ObjV>) -> spec_fn(ObjV, DistTransformerV) -> bool {
    |o: ObjV, x: DistTransformerV| is_of_tank(m, doc, o, x)
}

proof fn lemma_tanks_n(m: Sem, doc: Seq<ObjV>, st: StateV, ids: Seq<usize>, n: nat)
    requires
        st.net.transformers.len() == 0,
    ensures
        are_of(
            tank_rule(m, doc),
            chosen_n(doc, ids, complete(doc), n),
            tanks_n(m, doc, st, ids, n).net.transformers,
        ),
    decreases n,
{
    if n > 0 {
        lemma_tanks_n(m, doc, st, ids, (n - 1) as nat);
        let b = tanks_n(m, doc, st, ids, (n - 1) as nat);
        let o = doc[ids[n - 1] as int];
        lemma_tank(m, doc, b, o);
        let a = tank_step(m, doc, b, o);
        lemma_extends(
            doc,
            ids,
            tank_rule(m, doc),
            complete(doc),
            n,
            b.net.transformers,
            a.net.transformers,
        );
    }
}

// ---- the network -----------------------------------------------------------

/// The objects of a kind that are of a sort, in natural name order.
pub open spec fn all_chosen(
    doc: Seq<ObjV>,
    ids: Seq<usize>,
    sort: spec_fn(ObjV) -> bool,
) -> Seq<ObjV> {
    chosen_n(doc, ids, sort, ids.len())
}

/// A network holds what the objects of a document say: a line, a switch, a load, a
/// shunt, a generator, an inverter, a source for each object of such a kind that
/// has its terminals, and a transformer for each complete tank, in natural name
/// order; and first of all a bus for each node and a line code for each object that
/// has conductors.
pub open spec fn is_of_objects(m: Sem, doc: Seq<ObjV>, net: DistNetworkV) -> bool {
    let nodes = sorted_kind(doc, "ConnectivityNode"@);
    let codes = all_chosen(doc, sorted_kind(doc, "PerLengthPhaseImpedance"@), coded(m));
    &&& net.buses.len() >= nodes.len()
    &&& forall|k: int|
        0 <= k < nodes.len() ==> is_node(m, doc, doc[nodes[k] as int], #[trigger] net.buses[k])
    &&& net.linecodes.len() >= codes.len()
    &&& forall|k: int|
        0 <= k < codes.len() ==> is_line_code(m, codes[k], #[trigger] net.linecodes[k])
    &&& are_of(
        line_rule(m, doc),
        all_chosen(doc, sorted_kind(doc, "ACLineSegment"@), wired()),
        net.lines,
    )
    &&& are_of(
        switch_rule(m, doc),
        all_chosen(doc, switch_ids(doc), spanning()),
        net.switches,
    )
    &&& are_of(
        load_rule(m, doc),
        all_chosen(doc, sorted_kind(doc, "EnergyConsumer"@), loading(m)),
        net.loads,
    )
    &&& are_of(
        shunt_rule(m),
        all_chosen(doc, sorted_kind(doc, "LinearShuntCompensator"@), placed()),
        net.shunts,
    )
    &&& are_of(
        machine_rule(m),
        all_chosen(doc, machine_ids(doc), placed()),
        net.generators,
    )
    &&& are_of(
        inverter_rule(m),
        all_chosen(doc, sorted_kind(doc, "PowerElectronicsConnection"@), placed()),
        net.ibrs,
    )
    &&& are_of(
        source_rule(m),
        all_chosen(doc, sorted_kind(doc, "EnergySource"@), placed()),
        net.sources,
    )
    &&& are_of(
        tank_rule(m, doc),
        all_chosen(doc, sorted_kind(doc, "TransformerTank"@), complete(doc)),
        net.transformers,
    )
}

/// The buses of the nodes come first.
proof fn lemma_housed(m: Sem, doc: Seq<ObjV>, st: StateV)
    ensures
        ({
            let ids = sorted_kind(doc, "ConnectivityNode"@);
            begins(
                buses_n(m, doc, st, ids, ids.len()).0.net.buses,
                finish_buses_of(m, doc, st).net.buses,
            )
        }),
{
    reveal(finish_buses_of);
    let ids = sorted_kind(doc, "ConnectivityNode"@);
    let done = buses_n(m, doc, st, ids, ids.len()).0;
    lemma_missing_grows(done, done.nodes.len());
}

/// Of every network that is read of a document: it holds what the objects say.
pub proof fn lemma_network_is_of_objects(m: Sem, root: Entries)
    ensures
        ravens_value(m, JsonV::Obj(root)) matches Ok(net) ==> is_of_objects(
            m,
            collect_of(root),
            net,
        ),
{
    let doc = collect_of(root);
    let g = stages(m, doc);
    lemma_lists(m, doc);
    lemma_nothing_is_taken_back(m, doc);
    let ids = sorted_kind(doc, "PerLengthPhaseImpedance"@);
    let st = empty_state().warn(
        "MG-RAVENS carries no system frequency; base_frequency assumes the OpenDSS default (60 Hz)"@,
    );
    assert(st.net.linecodes.len() == 0) by {
        reveal(StateV::warn);
    }
    lemma_codes_n(m, doc, st, ids, ids.len());
    let net = run_of(m, doc).net;
    let codes = all_chosen(doc, ids, coded(m));
    assert forall|k: int| 0 <= k < codes.len() implies is_line_code(
        m,
        codes[k],
        #[trigger] net.linecodes[k],
    ) by {
        assert(same_code(g.coded.net.linecodes[k], net.linecodes[k]));
    }
    let ids = sorted_kind(doc, "ConnectivityNode"@);
    lemma_nodes_n(m, doc, g.wound, ids, ids.len());
    lemma_housed(m, doc, g.wound);
    let done = buses_n(m, doc, g.wound, ids, ids.len()).0.net.buses;
    assert forall|k: int| 0 <= k < ids.len() implies is_node(
        m,
        doc,
        doc[ids[k] as int],
        #[trigger] net.buses[k],
    ) by {
        assert(net.buses[k] == done[k]);
    }
    let ids = sorted_kind(doc, "ACLineSegment"@);
    lemma_lines_n(m, doc, g.coded, ids, ids.len());
    let ids = switch_ids(doc);
    lemma_switches_n(m, doc, g.lined, ids, ids.len());
    let ids = sorted_kind(doc, "EnergyConsumer"@);
    lemma_loads_n(m, doc, g.switched, ids, ids.len());
    let ids = sorted_kind(doc, "LinearShuntCompensator"@);
    lemma_shunts_n(m, doc, g.loaded, ids, ids.len());
    let ids = machine_ids(doc);
    lemma_machines_n(m, doc, g.shunted, ids, ids.len());
    let ids = sorted_kind(doc, "PowerElectronicsConnection"@);
    lemma_inverters_n(m, doc, g.driven, ids, ids.len());
    let ids = sorted_kind(doc, "EnergySource"@);
    lemma_sources_n(m, doc, g.inverted, ids, ids.len());
    let ids = sorted_kind(doc, "TransformerTank"@);
    lemma_tanks_n(m, doc, g.fed, ids, ids.len());
}

} // verus!
