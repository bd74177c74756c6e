//! What the reader makes of the voltage bounds and the ratings that the writer
//! wrote.

use vstd::prelude::*;

use crate::json::{float_json, Entries, JsonV};
use crate::math::{num_le, Bits, Sem, BILLION, DAY, FIVE_BILLION};
use crate::model::{repeat_of, DistBusV, DistLineV, DistNetworkV, DistSwitchV};
use crate::order::get_of;
use crate::ravens::accept::{
    group_even, lemma_balanced_apart, lemma_base_table_mild, lemma_inverters_even,
    lemma_linecodes_mild, lemma_machines_mild, lemma_shunts_mild, lemma_sources_mild,
    lemma_transformers_mild, lemma_unrepresented_even,
};
use crate::ravens::bases::bases_of;
use crate::ravens::doc::{
    collect_of, limit_step, limits_n, limits_of, list_at, named_of, no_limits, num_at, of_kind_n,
    resolve_at, sorted_kind, str_at, suffix_at, target_at, terminals_of, ObjV, TerminalV,
};
use crate::ravens::emit::{
    extra_num, extras_mrid_of, hot_code_of, pointer_json, terminal_json, WriterV,
};
use crate::ravens::found::{lemma_kind_holds, lemma_typed_object_is_collected};
use crate::ravens::keeps::{
    lemma_finish_grows, lemma_lines_n_grows, lemma_nothing_is_taken_back, lemma_switches_n_grows,
    stages,
};
use crate::ravens::laws::{
    clear, found_at, lemma_pointer_reads_back, lemma_typed_place_stays, typed_root,
};
use crate::ravens::lines::{
    line_limits_of, line_step, lines_n, mrid_extras, switch_ids, switch_limits_of, switch_step,
    switches_n,
};
use crate::ravens::name::letters_of;
use crate::ravens::read::{buses_n, ravens_value, run_of};
use crate::ravens::state::StateV;
use crate::ravens::survive::{
    comes_of_bus, comes_of_line, comes_of_switch, hot_wires, lemma_bus_tables,
    lemma_document_places, lemma_extras_hold_id, lemma_get_none, lemma_get_put, lemma_identified,
    lemma_identity_keys, lemma_kind_keeps, lemma_line_found, lemma_line_keys, lemma_line_step,
    lemma_line_tables, lemma_pointer_classes, lemma_root_keys, lemma_some_entries,
    lemma_switch_found, lemma_switch_keys, lemma_switch_step, lemma_switch_tables,
    lemma_terminal_reads_back, lemma_two_terminals, lemma_undotted, line_path, node_path, says_id,
    says_line, says_switch, switch_path, tells, told, written_id, written_tables,
};
use crate::ravens::survive_limits::{
    amps_name, amps_set, amps_stand, bounds_name, bounds_stand, lemma_ampacity_goes_on,
    lemma_bounds_written, lemma_buses_go_on, lemma_even_goes_on, lemma_goes_through,
    lemma_lines_go_on, lemma_loads_go_on, lemma_switches_go_on, line_amps, says_amps, says_bounds,
    set_stands, sets_stand, switch_amps,
};
use crate::ravens::survive_tanks::{lemma_named_is, unambiguous};
use crate::ravens::write::{
    base_names, base_table, bus_json, buses_json, fresh_writer, ravens_document, tables_of,
    typed_of, unrepresented,
};
use crate::ravens::write_lines::{
    first_rating, line_json, line_rating, linecodes_json, lines_json, switch_json, switches_json,
};
use crate::ravens::write_loads::loads_json;
use crate::ravens::write_machines::{all_electronics_json, machines_json, shunts_json, sources_json};
use crate::ravens::write_tanks::transformers_json;
use crate::text::after_last_of;

verus! {

// ---- the sets of a document ------------------------------------------------

/// The writer once the tables of a network are written.
pub open spec fn table_writer(m: Sem, net: DistNetworkV) -> WriterV {
    tables_of(fresh_writer(bases_of(m, net)), m, net).0
}

/// Every set of a document is that of the limits of its name, and those of the
/// buses, the lines and the switches are among them.
#[verifier::rlimit(40)]
pub proof fn lemma_sets_of(m: Sem, net: DistNetworkV, i: int, j: int, k: int)
    ensures
        sets_stand(m, table_writer(m, net)),
        0 <= i < net.buses.len() && net.buses[i].v_min is Some && net.buses[i].v_max is Some
            ==> get_of(
            table_writer(m, net).limit_sets,
            bounds_name(m, net.buses[i].v_min->0, net.buses[i].v_max->0),
        ) is Some,
        0 <= j < net.lines.len() ==> amps_set(
            m,
            table_writer(m, net),
            line_amps(m, net, net.lines[j]),
        ),
        0 <= k < net.switches.len() ==> amps_set(
            m,
            table_writer(m, net),
            switch_amps(m, net.switches[k]),
        ),
{
    let x = "AlgorithmSettings"@;
    lemma_balanced_apart(x);
    reveal(tables_of);
    let w0 = fresh_writer(bases_of(m, net));
    assert(sets_stand(m, w0)) by {
        assert forall|q: Seq<char>| #[trigger] get_of(w0.limit_sets, q) is Some implies set_stands(
            m,
            w0.used_types,
            q,
            get_of(w0.limit_sets, q)->0,
        ) by {
            lemma_get_none(q);
        }
    }
    lemma_unrepresented_even(w0, m, net);
    let w1 = unrepresented(w0, m, net);
    lemma_linecodes_mild(x, w1, m, net.linecodes, net.linecodes.len());
    let w2 = linecodes_json(w1, m, net.linecodes, net.linecodes.len()).0;
    lemma_even_goes_on(m, w0, w2);
    lemma_lines_go_on(w2, m, net, net.lines.len(), j);
    let w3 = lines_json(w2, m, net, net.lines.len()).0;
    lemma_switches_go_on(w3, m, net.switches, net.switches.len(), k);
    let w4 = switches_json(w3, m, net.switches, net.switches.len()).0;
    lemma_loads_go_on(w4, m, net, net.loads.len());
    let w5 = loads_json(w4, m, net, net.loads.len()).0;
    lemma_shunts_mild(x, w5, m, net.shunts, net.shunts.len());
    let w6 = shunts_json(w5, m, net.shunts, net.shunts.len()).0;
    lemma_machines_mild(x, w6, m, net.generators, net.generators.len());
    let w7 = machines_json(w6, m, net.generators, net.generators.len()).0;
    lemma_inverters_even(w7, m, net.ibrs, net.ibrs.len());
    let w8 = all_electronics_json(w7, m, net.ibrs, net.ibrs.len()).0;
    lemma_sources_mild(x, w8, m, net.sources, net.sources.len());
    let w9 = sources_json(w8, m, net.sources, net.sources.len()).0;
    lemma_transformers_mild(x, w9, m, net.transformers, net.transformers.len());
    let w10 = transformers_json(w9, m, net.transformers, net.transformers.len()).0;
    lemma_even_goes_on(m, w5, w10);
    lemma_buses_go_on(w10, m, net.buses, net.buses.len(), i);
    let w11 = buses_json(w10, m, net.buses, net.buses.len()).0;
    assert(w11 == table_writer(m, net));
    lemma_goes_through(m, w4, w5, w10);
    lemma_goes_through(m, w4, w10, w11);
    lemma_goes_through(m, w3, w4, w11);
}

// ---- types -----------------------------------------------------------------

/// What a limit type says.
pub open spec fn says_type(m: Sem, v: JsonV, direction: Seq<char>, duration: Bits) -> bool {
    &&& v matches JsonV::Obj(o)
    &&& str_at(o, "Ravens.cimObjectType"@) == Some("OperationalLimitType"@)
    &&& suffix_at(o, "OperationalLimitType.direction"@) == Some(direction)
    &&& tells(m, o, "OperationalLimitType.acceptableDuration"@, duration)
}

proof fn lemma_direction(d: Seq<char>)
    requires
        forall|i: int| 0 <= i < d.len() ==> d[i] != '.',
    ensures
        after_last_of("OperationalLimitDirectionKind."@ + d, '.') == d,
{
    reveal_strlit("OperationalLimitDirectionKind.");
    let text = "OperationalLimitDirectionKind."@ + d;
    assert forall|i: int| 30 <= i < text.len() implies text[i] != '.' by {
        assert(text[i] == d[i - 30]);
    }
    lemma_undotted(text, 30, text.len() as int);
    assert(text.subrange(30, text.len() as int) =~= d);
}

proof fn lemma_type_added(
    w: WriterV,
    m: Sem,
    t: Entries,
    name: Seq<char>,
    direction: Seq<char>,
    duration: Bits,
)
    requires
        forall|i: int| 0 <= i < direction.len() ==> direction[i] != '.',
    ensures
        w.used_types.contains(name) ==> (get_of(
            w.add_type(m, t, name, direction, duration).1,
            name,
        ) matches Some(v) && says_type(m, v, direction, duration)),
        forall|q: Seq<char>|
            q != name ==> #[trigger] get_of(w.add_type(m, t, name, direction, duration).1, q)
                == get_of(t, q),
        w.add_type(m, t, name, direction, duration).0.used_types == w.used_types,
{
    broadcast use {lemma_get_put, group_even};

    lemma_identity_keys();
    reveal_strlit("OperationalLimitType.direction");
    reveal_strlit("OperationalLimitType.acceptableDuration");
    assert("OperationalLimitType.direction"@.len() == 30);
    assert("OperationalLimitType.acceptableDuration"@.len() == 39);
    lemma_identified("OperationalLimitType"@, name, None, "OperationalLimitType.direction"@);
    lemma_direction(direction);
    reveal(WriterV::num);
    reveal(num_at);
    reveal(str_at);
    reveal(suffix_at);
}

/// The types that are in use are written.
#[verifier::rlimit(40)]
proof fn lemma_types_written(w: WriterV, m: Sem)
    ensures
        ({
            let t = w.limit_types(m).1;
            &&& w.used_types.contains("lowType_5000000000.0s"@) ==> (get_of(
                t,
                "lowType_5000000000.0s"@,
            ) matches Some(v) && says_type(m, v, "low"@, FIVE_BILLION))
            &&& w.used_types.contains("highType_5000000000.0s"@) ==> (get_of(
                t,
                "highType_5000000000.0s"@,
            ) matches Some(v) && says_type(m, v, "high"@, FIVE_BILLION))
            &&& w.used_types.contains("absoluteValueType_5000000000.0s"@) ==> (get_of(
                t,
                "absoluteValueType_5000000000.0s"@,
            ) matches Some(v) && says_type(m, v, "absoluteValue"@, FIVE_BILLION))
            &&& w.used_types.contains("absoluteValueType_86400.0s"@) ==> (get_of(
                t,
                "absoluteValueType_86400.0s"@,
            ) matches Some(v) && says_type(m, v, "absoluteValue"@, DAY))
        }),
{
    let low = "lowType_5000000000.0s"@;
    let high = "highType_5000000000.0s"@;
    let long = "absoluteValueType_5000000000.0s"@;
    let short = "absoluteValueType_86400.0s"@;
    reveal_strlit("lowType_5000000000.0s");
    reveal_strlit("highType_5000000000.0s");
    reveal_strlit("absoluteValueType_5000000000.0s");
    reveal_strlit("absoluteValueType_86400.0s");
    reveal_strlit("low");
    reveal_strlit("high");
    reveal_strlit("absoluteValue");
    assert(low.len() == 21 && high.len() == 22 && long.len() == 31 && short.len() == 26);
    reveal(WriterV::limit_types);
    let none = Entries::empty();
    lemma_type_added(w, m, none, low, "low"@, FIVE_BILLION);
    let (w1, t1) = w.add_type(m, none, low, "low"@, FIVE_BILLION);
    lemma_type_added(w1, m, t1, high, "high"@, FIVE_BILLION);
    let (w2, t2) = w1.add_type(m, t1, high, "high"@, FIVE_BILLION);
    lemma_type_added(w2, m, t2, long, "absoluteValue"@, FIVE_BILLION);
    let (w3, t3) = w2.add_type(m, t2, long, "absoluteValue"@, FIVE_BILLION);
    lemma_type_added(w3, m, t3, short, "absoluteValue"@, DAY);
}

// ---- places ----------------------------------------------------------------

pub open spec fn set_path() -> Seq<Seq<char>> {
    seq!["OperationalLimitSet"@]
}

pub open spec fn type_path() -> Seq<Seq<char>> {
    seq!["OperationalLimitType"@]
}

/// The writer that the sets and the types of a document are taken from.
pub open spec fn set_writer(m: Sem, net: DistNetworkV) -> WriterV {
    let w = table_writer(m, net);
    let names = base_names(m, w.bases, w.bases.len());
    base_table(w, m, names, names.len()).0
}

proof fn lemma_set_writer(m: Sem, net: DistNetworkV)
    ensures
        set_writer(m, net).limit_sets == table_writer(m, net).limit_sets,
        set_writer(m, net).used_types == table_writer(m, net).used_types,
{
    let x = "AlgorithmSettings"@;
    lemma_balanced_apart(x);
    let w = table_writer(m, net);
    let names = base_names(m, w.bases, w.bases.len());
    lemma_base_table_mild(x, w, m, names, names.len());
}

#[verifier::rlimit(40)]
proof fn lemma_set_places(m: Sem, net: DistNetworkV)
    requires
        set_writer(m, net).limit_sets.len() > 0,
    ensures
        get_of(typed_root(m, net), "OperationalLimitSet"@) == Some(
            JsonV::Obj(set_writer(m, net).limit_sets),
        ),
        get_of(typed_root(m, net), "OperationalLimitType"@) == Some(
            JsonV::Obj(set_writer(m, net).limit_types(m).1),
        ),
{
    broadcast use lemma_get_put;

    lemma_root_keys();
    reveal(typed_of);
}

#[verifier::rlimit(40)]
proof fn lemma_set_found(m: Sem, net: DistNetworkV, name: Seq<char>)
    requires
        clear(net.untyped, set_path(), name),
        get_of(set_writer(m, net).limit_sets, name) is Some,
    ensures
        found_at(ravens_document(m, net).1, set_path(), 0, name) == get_of(
            set_writer(m, net).limit_sets,
            name,
        ),
{
    lemma_some_entries(set_writer(m, net).limit_sets, name);
    lemma_set_places(m, net);
    lemma_typed_place_stays(m, net, set_path(), name);
    reveal_with_fuel(found_at, 3);
}

#[verifier::rlimit(40)]
proof fn lemma_type_found(m: Sem, net: DistNetworkV, name: Seq<char>)
    requires
        clear(net.untyped, type_path(), name),
        set_writer(m, net).limit_sets.len() > 0,
    ensures
        found_at(ravens_document(m, net).1, type_path(), 0, name) == get_of(
            set_writer(m, net).limit_types(m).1,
            name,
        ),
{
    lemma_set_places(m, net);
    lemma_typed_place_stays(m, net, type_path(), name);
    reveal_with_fuel(found_at, 3);
}

// ---- reading ---------------------------------------------------------------

/// A limit finds its type.
proof fn lemma_type_resolves(m: Sem, doc: Seq<ObjV>, o: Entries, ty: Seq<char>, t: Entries)
    requires
        get_of(o, "OperationalLimit.OperationalLimitType"@) == Some(
            pointer_json("OperationalLimitType"@, ty),
        ),
        named_of(doc, "OperationalLimitType"@, ty) == Some(t),
    ensures
        resolve_at(doc, o, "OperationalLimit.OperationalLimitType"@) == Some(t),
{
    reveal_strlit("OperationalLimitType");
    lemma_pointer_reads_back("OperationalLimitType"@, ty);
    reveal(resolve_at);
    reveal(named_of);
    reveal(str_at);
}

/// A type of a name, as the reader finds it.
pub open spec fn finds_type(
    m: Sem,
    doc: Seq<ObjV>,
    ty: Seq<char>,
    direction: Seq<char>,
    duration: Bits,
) -> bool {
    named_of(doc, "OperationalLimitType"@, ty) matches Some(t) && says_type(
        m,
        JsonV::Obj(t),
        direction,
        duration,
    )
}

#[verifier::rlimit(40)]
proof fn lemma_bounds_read(
    m: Sem,
    doc: Seq<ObjV>,
    name: Seq<char>,
    set: Entries,
    low: Bits,
    high: Bits,
)
    requires
        named_of(doc, "OperationalLimitSet"@, name) == Some(set),
        says_bounds(m, JsonV::Obj(set), low, high),
        told(m, low),
        told(m, high),
        finds_type(m, doc, "lowType_5000000000.0s"@, "low"@, FIVE_BILLION),
        finds_type(m, doc, "highType_5000000000.0s"@, "high"@, FIVE_BILLION),
    ensures
        limits_of(m, doc, name).v_low == Some(low),
        limits_of(m, doc, name).v_high == Some(high),
{
    reveal(limits_of);
    reveal(list_at);
    let values = list_at(set, "OperationalLimitSet.OperationalLimitValue"@);
    let a = values[0]->Obj_0;
    let b = values[1]->Obj_0;
    let t1 = named_of(doc, "OperationalLimitType"@, "lowType_5000000000.0s"@)->0;
    let t2 = named_of(doc, "OperationalLimitType"@, "highType_5000000000.0s"@)->0;
    lemma_type_resolves(m, doc, a, "lowType_5000000000.0s"@, t1);
    lemma_type_resolves(m, doc, b, "highType_5000000000.0s"@, t2);
    reveal_strlit("low");
    reveal_strlit("high");
    reveal_strlit("VoltageLimit");
    reveal_strlit("CurrentLimit");
    assert("low"@.len() == 3 && "high"@.len() == 4);
    assert("VoltageLimit"@[0] == 'V' && "CurrentLimit"@[0] == 'C');
    reveal_with_fuel(limits_n, 3);
    assert(limits_n(m, doc, values, 1) == limit_step(m, doc, no_limits(), values[0]));
}

#[verifier::rlimit(40)]
proof fn lemma_amps_read(
    m: Sem,
    doc: Seq<ObjV>,
    name: Seq<char>,
    set: Entries,
    norm: Bits,
    emerg: Bits,
)
    requires
        named_of(doc, "OperationalLimitSet"@, name) == Some(set),
        says_amps(m, JsonV::Obj(set), norm, emerg),
        told(m, norm),
        told(m, emerg),
        told(m, FIVE_BILLION),
        told(m, DAY),
        finds_type(m, doc, "absoluteValueType_5000000000.0s"@, "absoluteValue"@, FIVE_BILLION),
        finds_type(m, doc, "absoluteValueType_86400.0s"@, "absoluteValue"@, DAY),
    ensures
        limits_of(m, doc, name).norm_amps == Some(norm),
        limits_of(m, doc, name).emerg_amps == Some(emerg),
{
    reveal(limits_of);
    reveal(list_at);
    let values = list_at(set, "OperationalLimitSet.OperationalLimitValue"@);
    let a = values[0]->Obj_0;
    let b = values[1]->Obj_0;
    let t1 = named_of(doc, "OperationalLimitType"@, "absoluteValueType_5000000000.0s"@)->0;
    let t2 = named_of(doc, "OperationalLimitType"@, "absoluteValueType_86400.0s"@)->0;
    lemma_type_resolves(m, doc, a, "absoluteValueType_5000000000.0s"@, t1);
    lemma_type_resolves(m, doc, b, "absoluteValueType_86400.0s"@, t2);
    assert(num_le(BILLION, FIVE_BILLION));
    assert(!num_le(BILLION, DAY));
    reveal_with_fuel(limits_n, 3);
    assert(limits_n(m, doc, values, 1) == limit_step(m, doc, no_limits(), values[0]));
}

/// A type that is in use is found by its name.
proof fn lemma_type_named(
    m: Sem,
    net: DistNetworkV,
    ty: Seq<char>,
    direction: Seq<char>,
    duration: Bits,
)
    requires
        clear(net.untyped, type_path(), ty),
        set_writer(m, net).limit_sets.len() > 0,
        get_of(set_writer(m, net).limit_types(m).1, ty) matches Some(v) && says_type(
            m,
            v,
            direction,
            duration,
        ),
        unambiguous(collect_of(ravens_document(m, net).1), "OperationalLimitType"@, ty),
    ensures
        finds_type(m, collect_of(ravens_document(m, net).1), ty, direction, duration),
{
    let root = ravens_document(m, net).1;
    let doc = collect_of(root);
    let t = get_of(set_writer(m, net).limit_types(m).1, ty)->0->Obj_0;
    lemma_type_found(m, net, ty);
    let kind = "OperationalLimitType"@;
    let at = lemma_typed_object_is_collected(root, type_path(), ty, t, kind);
    lemma_named_is(doc, kind, ty, at);
}

/// A limit set is found by its name.
proof fn lemma_set_named(m: Sem, net: DistNetworkV, name: Seq<char>, set: Entries)
    requires
        clear(net.untyped, set_path(), name),
        get_of(set_writer(m, net).limit_sets, name) == Some(JsonV::Obj(set)),
        str_at(set, "Ravens.cimObjectType"@) == Some("OperationalLimitSet"@),
        unambiguous(collect_of(ravens_document(m, net).1), "OperationalLimitSet"@, name),
    ensures
        named_of(collect_of(ravens_document(m, net).1), "OperationalLimitSet"@, name) == Some(set),
{
    let root = ravens_document(m, net).1;
    let doc = collect_of(root);
    lemma_set_found(m, net, name);
    let kind = "OperationalLimitSet"@;
    let at = lemma_typed_object_is_collected(root, set_path(), name, set, kind);
    lemma_named_is(doc, kind, name, at);
}

/// Names of bounds are no names of ampacities.
proof fn lemma_names_apart(m: Sem, low: Bits, high: Bits, norm: Bits, emerg: Bits)
    ensures
        bounds_name(m, low, high) != amps_name(m, norm, emerg),
{
    reveal_strlit("OpLimV_");
    reveal_strlit("OpLimI_");
    assert(bounds_name(m, low, high)[5] == 'V');
    assert(amps_name(m, norm, emerg)[5] == 'I');
}

/// A limit set can be told by its name, and so can its types.
pub open spec fn set_apart(
    m: Sem,
    net: DistNetworkV,
    name: Seq<char>,
    a: Seq<char>,
    b: Seq<char>,
) -> bool {
    let doc = collect_of(ravens_document(m, net).1);
    &&& clear(net.untyped, set_path(), name)
    &&& clear(net.untyped, type_path(), a)
    &&& clear(net.untyped, type_path(), b)
    &&& unambiguous(doc, "OperationalLimitSet"@, name)
    &&& unambiguous(doc, "OperationalLimitType"@, a)
    &&& unambiguous(doc, "OperationalLimitType"@, b)
}

/// The limits of a bus are read as they were.
#[verifier::rlimit(40)]
pub proof fn lemma_bus_limits(m: Sem, net: DistNetworkV, i: int)
    requires
        0 <= i < net.buses.len(),
        net.buses[i].v_min is Some,
        net.buses[i].v_max is Some,
        bounds_told(m, net, i),
    ensures
        ({
            let b = net.buses[i];
            let l = limits_of(
                m,
                collect_of(ravens_document(m, net).1),
                bounds_name(m, b.v_min->0, b.v_max->0),
            );
            l.v_low == b.v_min && l.v_high == b.v_max
        }),
{
    let b = net.buses[i];
    let low = b.v_min->0;
    let high = b.v_max->0;
    let name = bounds_name(m, low, high);
    let doc = collect_of(ravens_document(m, net).1);
    lemma_sets_of(m, net, i, -1, -1);
    lemma_set_writer(m, net);
    let w = set_writer(m, net);
    let v = get_of(w.limit_sets, name)->0;
    assert(set_stands(m, w.used_types, name, v));
    if exists|n: Bits, e: Bits| #[trigger] amps_stand(m, w.used_types, name, v, n, e) {
        let (n, e) = choose|n: Bits, e: Bits| #[trigger]
            amps_stand(m, w.used_types, name, v, n, e);
        lemma_names_apart(m, low, high, n, e);
    }
    let (l, h) = choose|l: Bits, h: Bits| #[trigger] bounds_stand(m, w.used_types, name, v, l, h);
    assert(bounds_name(m, l, h) == bounds_name(m, low, high));
    assert(l == low && h == high);
    lemma_some_entries(w.limit_sets, name);
    lemma_types_written(w, m);
    lemma_type_named(m, net, "lowType_5000000000.0s"@, "low"@, FIVE_BILLION);
    lemma_type_named(m, net, "highType_5000000000.0s"@, "high"@, FIVE_BILLION);
    lemma_set_named(m, net, name, v->Obj_0);
    lemma_bounds_read(m, doc, name, v->Obj_0, low, high);
}

/// The bounds of a bus can be told: as numbers, by the name of their set, and by
/// what they are looked up with.
pub open spec fn bounds_told(m: Sem, net: DistNetworkV, i: int) -> bool {
    let low = net.buses[i].v_min->0;
    let high = net.buses[i].v_max->0;
    &&& told(m, low)
    &&& told(m, high)
    &&& forall|l: Bits, h: Bits| #[trigger]
        bounds_name(m, l, h) == bounds_name(m, low, high) ==> l == low && h == high
    &&& set_apart(
        m,
        net,
        bounds_name(m, low, high),
        "lowType_5000000000.0s"@,
        "highType_5000000000.0s"@,
    )
}

// ---- buses -----------------------------------------------------------------

/// A node points at the set of its bus.
pub open spec fn says_set(m: Sem, o: Entries, b: DistBusV) -> bool {
    target_at(o, "ConnectivityNode.OperationalLimitSet"@) == match (b.v_min, b.v_max) {
        (Some(low), Some(high)) => Some(bounds_name(m, low, high)),
        _ => None,
    }
}

pub proof fn lemma_bus_points(w: WriterV, m: Sem, b: DistBusV)
    ensures
        bus_json(w, m, b).1 matches JsonV::Obj(o) && says_set(m, o, b),
{
    broadcast use lemma_get_put;

    reveal(bus_json);
    reveal(target_at);
    reveal(str_at);
    reveal_strlit("ConnectivityNode.OperationalLimitSet");
    assert("ConnectivityNode.OperationalLimitSet"@.len() == 36);
    lemma_identified(
        "ConnectivityNode"@,
        b.id,
        extras_mrid_of(b.extras),
        "ConnectivityNode.OperationalLimitSet"@,
    );
    if b.v_min is Some && b.v_max is Some {
        let low = b.v_min->0;
        let high = b.v_max->0;
        lemma_bounds_written(w, m, low, high, w.base_of(b.id));
        lemma_pointer_classes();
        lemma_pointer_reads_back("OperationalLimitSet"@, bounds_name(m, low, high));
    }
}

proof fn lemma_bus_points_table(w: WriterV, m: Sem, s: Seq<DistBusV>, n: nat, i: int)
    requires
        0 <= i < n <= s.len(),
        forall|j: int| i < j < s.len() ==> (#[trigger] s[j]).id != s[i].id,
    ensures
        get_of(buses_json(w, m, s, n).1, s[i].id) matches Some(JsonV::Obj(o)) && says_set(
            m,
            o,
            s[i],
        ),
    decreases n,
{
    broadcast use lemma_get_put;

    let before = buses_json(w, m, s, (n - 1) as nat);
    lemma_bus_points(before.0, m, s[n - 1]);
    if i < n - 1 {
        lemma_bus_points_table(w, m, s, (n - 1) as nat, i);
        assert(s[n - 1].id != s[i].id);
    }
}

/// The bounds that come back of a bus: both, where it is bounded both ways, else
/// none.
pub open spec fn comes_of_bounds(back: DistBusV, b: DistBusV) -> bool {
    if b.v_min is Some && b.v_max is Some {
        back.v_min == b.v_min && back.v_max == b.v_max
    } else {
        back.v_min is None && back.v_max is None
    }
}

proof fn lemma_bounded_pushed(
    m: Sem,
    doc: Seq<ObjV>,
    st: StateV,
    ids: Seq<usize>,
    n: nat,
    j: int,
    b: DistBusV,
) -> (k: int)
    requires
        0 <= j < n <= ids.len(),
        doc[ids[j] as int].name == b.id,
        says_id(doc[ids[j] as int].props, "ConnectivityNode"@, b.id, b.extras),
        says_set(m, doc[ids[j] as int].props, b),
        b.v_min is Some && b.v_max is Some ==> ({
            let l = limits_of(m, doc, bounds_name(m, b.v_min->0, b.v_max->0));
            l.v_low == b.v_min && l.v_high == b.v_max
        }),
    ensures
        0 <= k < buses_n(m, doc, st, ids, n).0.net.buses.len(),
        comes_of_bus(buses_n(m, doc, st, ids, n).0.net.buses[k], b),
        comes_of_bounds(buses_n(m, doc, st, ids, n).0.net.buses[k], b),
    decreases n,
{
    let after = buses_n(m, doc, st, ids, n).0.net.buses;
    let before = buses_n(m, doc, st, ids, (n - 1) as nat).0.net.buses;
    if j == n - 1 {
        lemma_extras_hold_id(
            doc[ids[j] as int].props,
            written_id("ConnectivityNode"@, b.id, extras_mrid_of(b.extras)),
        );
        after.len() - 1
    } else {
        let k = lemma_bounded_pushed(m, doc, st, ids, (n - 1) as nat, j, b);
        assert(after[k] == before[k]);
        k
    }
}

/// No bounds are lost: a network that is read of a written document has, for
/// every bus of the network that was written whose name is its own, a bus of
/// that name and identifier, with both its bounds where it is bounded both ways.
#[verifier::rlimit(60)]
pub proof fn lemma_bounds_survive(m: Sem, net: DistNetworkV, i: int)
    requires
        0 <= i < net.buses.len(),
        clear(net.untyped, node_path(), net.buses[i].id),
        forall|j: int| i < j < net.buses.len() ==> (#[trigger] net.buses[j]).id != net.buses[i].id,
        collect_of(ravens_document(m, net).1).len() <= usize::MAX,
        net.buses[i].v_min is Some && net.buses[i].v_max is Some ==> bounds_told(m, net, i),
    ensures
        ravens_value(m, JsonV::Obj(ravens_document(m, net).1)) matches Ok(back) ==> exists|k: int|
            0 <= k < back.buses.len() && comes_of_bus(#[trigger] back.buses[k], net.buses[i])
                && comes_of_bounds(back.buses[k], net.buses[i]),
{
    let root = ravens_document(m, net).1;
    let doc = collect_of(root);
    let id = net.buses[i].id;
    let t = written_tables(m, net);
    lemma_document_places(m, net);
    lemma_bus_tables(m, net, i);
    let o = get_of(t.nodes, id)->0->Obj_0;
    assert(says_set(m, o, net.buses[i])) by {
        reveal(tables_of);
        let w = unrepresented(fresh_writer(bases_of(m, net)), m, net);
        let w = linecodes_json(w, m, net.linecodes, net.linecodes.len()).0;
        let w = lines_json(w, m, net, net.lines.len()).0;
        let w = switches_json(w, m, net.switches, net.switches.len()).0;
        let w = loads_json(w, m, net, net.loads.len()).0;
        let w = shunts_json(w, m, net.shunts, net.shunts.len()).0;
        let w = machines_json(w, m, net.generators, net.generators.len()).0;
        let w = all_electronics_json(w, m, net.ibrs, net.ibrs.len()).0;
        let w = sources_json(w, m, net.sources, net.sources.len()).0;
        let w = transformers_json(w, m, net.transformers, net.transformers.len()).0;
        lemma_bus_points_table(w, m, net.buses, net.buses.len(), i);
    }
    if net.buses[i].v_min is Some && net.buses[i].v_max is Some {
        lemma_bus_limits(m, net, i);
    }
    let path = node_path();
    lemma_typed_place_stays(m, net, path, id);
    reveal_with_fuel(found_at, 3);
    assert(found_at(root, path, 0, id) == Some(JsonV::Obj(o)));
    let k = lemma_typed_object_is_collected(root, path, id, o, "ConnectivityNode"@);
    let j = lemma_kind_holds(doc, Seq::empty(), "ConnectivityNode"@, doc.len(), k);
    let ids = sorted_kind(doc, "ConnectivityNode"@);
    let g = stages(m, doc);
    let b = lemma_bounded_pushed(m, doc, g.wound, ids, ids.len(), j, net.buses[i]);
    lemma_finish_grows(m, doc, g.wound);
    lemma_nothing_is_taken_back(m, doc);
    let done = buses_n(m, doc, g.wound, ids, ids.len()).0.net.buses;
    assert(g.housed.net.buses[b] == done[b]);
    assert(run_of(m, doc).net.buses[b] == done[b]);
    if let Ok(back) = ravens_value(m, JsonV::Obj(root)) {
        assert(comes_of_bus(back.buses[b], net.buses[i]));
    }
}

// ---- ampacities ------------------------------------------------------------

/// A pair of ampacities can be told: as numbers, by the name of their set, and by
/// what they are looked up with.
pub open spec fn amps_told(m: Sem, net: DistNetworkV, pair: Option<(Bits, Bits)>) -> bool {
    pair matches Some((norm, emerg)) ==> {
        &&& told(m, norm)
        &&& told(m, emerg)
        &&& told(m, FIVE_BILLION)
        &&& told(m, DAY)
        &&& forall|n: Bits, e: Bits| #[trigger]
            amps_name(m, n, e) == amps_name(m, norm, emerg) ==> n == norm && e == emerg
        &&& set_apart(
            m,
            net,
            amps_name(m, norm, emerg),
            "absoluteValueType_5000000000.0s"@,
            "absoluteValueType_86400.0s"@,
        )
    }
}

/// The set of a pair of ampacities reads as the pair.
pub open spec fn amps_read(m: Sem, doc: Seq<ObjV>, pair: Option<(Bits, Bits)>) -> bool {
    pair matches Some((norm, emerg)) ==> {
        let l = limits_of(m, doc, amps_name(m, norm, emerg));
        l.norm_amps == Some(norm) && l.emerg_amps == Some(emerg)
    }
}

/// Ampacities are read as they were.
#[verifier::rlimit(40)]
pub proof fn lemma_amps_limits(m: Sem, net: DistNetworkV, pair: Option<(Bits, Bits)>)
    requires
        sets_stand(m, table_writer(m, net)),
        amps_set(m, table_writer(m, net), pair),
        amps_told(m, net, pair),
    ensures
        amps_read(m, collect_of(ravens_document(m, net).1), pair),
{
    if let Some((norm, emerg)) = pair {
        let name = amps_name(m, norm, emerg);
        let doc = collect_of(ravens_document(m, net).1);
        lemma_set_writer(m, net);
        let w = set_writer(m, net);
        let v = get_of(w.limit_sets, name)->0;
        assert(set_stands(m, w.used_types, name, v));
        if exists|l: Bits, h: Bits| #[trigger] bounds_stand(m, w.used_types, name, v, l, h) {
            let (l, h) = choose|l: Bits, h: Bits| #[trigger]
                bounds_stand(m, w.used_types, name, v, l, h);
            lemma_names_apart(m, l, h, norm, emerg);
        }
        let (n, e) = choose|n: Bits, e: Bits| #[trigger]
            amps_stand(m, w.used_types, name, v, n, e);
        assert(amps_name(m, n, e) == amps_name(m, norm, emerg));
        assert(n == norm && e == emerg);
        lemma_some_entries(w.limit_sets, name);
        lemma_types_written(w, m);
        lemma_type_named(
            m,
            net,
            "absoluteValueType_5000000000.0s"@,
            "absoluteValue"@,
            FIVE_BILLION,
        );
        lemma_type_named(m, net, "absoluteValueType_86400.0s"@, "absoluteValue"@, DAY);
        lemma_set_named(m, net, name, v->Obj_0);
        lemma_amps_read(m, doc, name, v->Obj_0, norm, emerg);
    }
}

/// The name of the set of a pair of ampacities.
pub open spec fn pair_name(m: Sem, pair: Option<(Bits, Bits)>) -> Option<Seq<char>> {
    match pair {
        Some((n, e)) => Some(amps_name(m, n, e)),
        None => None,
    }
}

// ---- switches --------------------------------------------------------------

/// A switch object points at the set of its ampacities.
pub open spec fn says_rating(m: Sem, o: Entries, s: DistSwitchV) -> bool {
    &&& terminals_of(o).len() == 2
    &&& terminals_of(o)[0].1.limit_set == pair_name(m, switch_amps(m, s))
}

#[verifier::rlimit(40)]
pub proof fn lemma_switch_points(w: WriterV, m: Sem, s: DistSwitchV)
    ensures
        switch_json(w, m, s).1 matches JsonV::Obj(o) && says_rating(m, o, s),
{
    broadcast use lemma_get_put;

    lemma_identity_keys();
    lemma_line_keys();
    lemma_switch_keys();
    reveal(list_at);
    reveal(terminals_of);
    let norm = extra_num(m, s.extras, "normamps"@);
    let emerg = first_rating(s.i_max);
    lemma_ampacity_goes_on(w, m, norm, emerg);
    let limit = w.ampacity(m, norm, emerg).1;
    let from = hot_code_of(s.terminal_map_from);
    let to = hot_code_of(s.terminal_map_to);
    let a = terminal_json(s.name, 1, s.bus_from, from, limit);
    let b = terminal_json(s.name, 2, s.bus_to, to, limit);
    lemma_terminal_reads_back(s.name, 1, s.bus_from, from, limit);
    lemma_terminal_reads_back(s.name, 2, s.bus_to, to, limit);
    let x = TerminalV { node: s.bus_from, phases: letters_of(from), limit_set: limit };
    let y = TerminalV { node: s.bus_to, phases: letters_of(to), limit_set: limit };
    lemma_two_terminals(a, b, x, y);
    let o = switch_json(w, m, s).1->Obj_0;
    assert(get_of(o, "ConductingEquipment.Terminals"@) == Some(JsonV::Arr(seq![a, b])));
}

proof fn lemma_switch_points_table(w: WriterV, m: Sem, s: Seq<DistSwitchV>, n: nat, i: int)
    requires
        0 <= i < n <= s.len(),
        forall|j: int| i < j < s.len() ==> (#[trigger] s[j]).name != s[i].name,
    ensures
        get_of(switches_json(w, m, s, n).1, s[i].name) matches Some(JsonV::Obj(o)) && says_rating(
            m,
            o,
            s[i],
        ),
    decreases n,
{
    broadcast use lemma_get_put;

    let before = switches_json(w, m, s, (n - 1) as nat);
    lemma_switch_points(before.0, m, s[n - 1]);
    if i < n - 1 {
        lemma_switch_points_table(w, m, s, (n - 1) as nat, i);
        assert(s[n - 1].name != s[i].name);
    }
}

/// The ratings that come back of a switch's: the emergency one for each phase,
/// and the continuous one among its extras.
pub open spec fn comes_of_rating(m: Sem, back: DistSwitchV, s: DistSwitchV) -> bool {
    match switch_amps(m, s) {
        Some((norm, emerg)) => {
            &&& back.i_max == Some(repeat_of(emerg, back.terminal_map_from.len()))
            &&& get_of(back.extras, "normamps"@) == Some(float_json(m, norm))
        },
        None => back.i_max is None,
    }
}

#[verifier::rlimit(40)]
pub proof fn lemma_rated_step(m: Sem, doc: Seq<ObjV>, st: StateV, o: ObjV, s: DistSwitchV)
    requires
        o.name == s.name,
        says_switch(o.props, s),
        says_rating(m, o.props, s),
        amps_read(m, doc, switch_amps(m, s)),
    ensures
        ({
            let switches = switch_step(m, doc, st, o).net.switches;
            &&& switches.len() > 0
            &&& comes_of_switch(switches[switches.len() - 1], s)
            &&& comes_of_rating(m, switches[switches.len() - 1], s)
        }),
{
    broadcast use lemma_get_put;

    lemma_switch_step(m, doc, st, o, s);
    reveal(switch_limits_of);
}

/// No rating of a switch is lost: a network that is read of a written document
/// has, for every switch of the network that was written whose name is its own,
/// a switch that comes back of it with the same ampacities.
#[verifier::rlimit(60)]
pub proof fn lemma_switch_ratings_survive(m: Sem, net: DistNetworkV, i: int)
    requires
        0 <= i < net.switches.len(),
        clear(net.untyped, switch_path(), net.switches[i].name),
        forall|j: int|
            i < j < net.switches.len() ==> (#[trigger] net.switches[j]).name
                != net.switches[i].name,
        collect_of(ravens_document(m, net).1).len() <= usize::MAX,
        amps_told(m, net, switch_amps(m, net.switches[i])),
    ensures
        ravens_value(m, JsonV::Obj(ravens_document(m, net).1)) matches Ok(back) ==> exists|k: int|
            0 <= k < back.switches.len() && comes_of_switch(
                #[trigger] back.switches[k],
                net.switches[i],
            ) && comes_of_rating(m, back.switches[k], net.switches[i]),
{
    let root = ravens_document(m, net).1;
    let doc = collect_of(root);
    let s = net.switches[i];
    lemma_switch_tables(m, net, i);
    let o = get_of(written_tables(m, net).switches, s.name)->0->Obj_0;
    assert(says_rating(m, o, s)) by {
        reveal(tables_of);
        let w = unrepresented(fresh_writer(bases_of(m, net)), m, net);
        let w = linecodes_json(w, m, net.linecodes, net.linecodes.len()).0;
        let w = lines_json(w, m, net, net.lines.len()).0;
        lemma_switch_points_table(w, m, net.switches, net.switches.len(), i);
    }
    lemma_sets_of(m, net, -1, -1, i);
    lemma_amps_limits(m, net, switch_amps(m, s));
    lemma_switch_found(m, net, s.name, JsonV::Obj(o));
    let at = lemma_typed_object_is_collected(root, switch_path(), s.name, o, "Switch"@);
    let j0 = lemma_kind_holds(doc, Seq::empty(), "Switch"@, doc.len(), at);
    let s0 = of_kind_n(doc, Seq::empty(), "Switch"@, doc.len());
    let j1 = lemma_kind_keeps(doc, s0, "LoadBreakSwitch"@, doc.len(), j0);
    let s1 = of_kind_n(doc, s0, "LoadBreakSwitch"@, doc.len());
    let j2 = lemma_kind_keeps(doc, s1, "Breaker"@, doc.len(), j1);
    let s2 = of_kind_n(doc, s1, "Breaker"@, doc.len());
    let j = lemma_kind_keeps(doc, s2, "Recloser"@, doc.len(), j2);
    let ids = switch_ids(doc);
    let g = stages(m, doc);
    let before = switches_n(m, doc, g.lined, ids, j as nat);
    let after = switches_n(m, doc, g.lined, ids, (j + 1) as nat).net.switches;
    lemma_rated_step(m, doc, before, doc[ids[j] as int], s);
    lemma_switches_n_grows(m, doc, g.lined, ids, (j + 1) as nat, ids.len());
    let k = after.len() - 1;
    assert(switches_n(m, doc, g.lined, ids, ids.len()).net.switches[k] == after[k]);
    lemma_nothing_is_taken_back(m, doc);
    assert(g.switched.net.switches == switches_n(m, doc, g.lined, ids, ids.len()).net.switches);
    assert(run_of(m, doc).net.switches[k] == g.switched.net.switches[k]);
    if let Ok(back) = ravens_value(m, JsonV::Obj(root)) {
        assert(comes_of_switch(back.switches[k], s));
    }
}

// ---- lines -----------------------------------------------------------------

/// A line object points at the set of its ampacities.
pub open spec fn says_line_rating(m: Sem, o: Entries, net: DistNetworkV, line: DistLineV) -> bool {
    &&& terminals_of(o).len() == 2
    &&& terminals_of(o)[0].1.limit_set == pair_name(m, line_amps(m, net, line))
}

#[verifier::rlimit(40)]
pub proof fn lemma_line_points(w: WriterV, m: Sem, net: DistNetworkV, line: DistLineV)
    ensures
        line_json(w, m, net, line).1 matches JsonV::Obj(o) && says_line_rating(m, o, net, line),
{
    broadcast use lemma_get_put;

    lemma_line_keys();
    reveal(list_at);
    reveal(terminals_of);
    let what = "line "@ + line.name;
    let w1 = w.num(m, line.length, what).0;
    let w2 = if line.terminal_map_to != line.terminal_map_from {
        w1.warn(
            what
                + ": the two terminal maps differ; MG-RAVENS carries one phase list per segment, so the from side wins"@,
        )
    } else {
        w1
    };
    let norm = extra_num(m, line.extras, "normamps"@);
    let emerg = line_rating(net, line.linecode);
    lemma_ampacity_goes_on(w2, m, norm, emerg);
    let limit = w2.ampacity(m, norm, emerg).1;
    let code = hot_code_of(line.terminal_map_from);
    let a = terminal_json(line.name, 1, line.bus_from, code, limit);
    let b = terminal_json(line.name, 2, line.bus_to, code, limit);
    lemma_terminal_reads_back(line.name, 1, line.bus_from, code, limit);
    lemma_terminal_reads_back(line.name, 2, line.bus_to, code, limit);
    let x = TerminalV { node: line.bus_from, phases: letters_of(code), limit_set: limit };
    let y = TerminalV { node: line.bus_to, phases: letters_of(code), limit_set: limit };
    lemma_two_terminals(a, b, x, y);
    let o = line_json(w, m, net, line).1->Obj_0;
    assert(get_of(o, "ConductingEquipment.Terminals"@) == Some(JsonV::Arr(seq![a, b])));
}

proof fn lemma_line_points_table(w: WriterV, m: Sem, net: DistNetworkV, n: nat, i: int)
    requires
        0 <= i < n <= net.lines.len(),
        forall|j: int|
            i < j < net.lines.len() ==> (#[trigger] net.lines[j]).name != net.lines[i].name,
    ensures
        get_of(lines_json(w, m, net, n).1, net.lines[i].name) matches Some(JsonV::Obj(o))
            && says_line_rating(m, o, net, net.lines[i]),
    decreases n,
{
    broadcast use lemma_get_put;

    let before = lines_json(w, m, net, (n - 1) as nat);
    lemma_line_points(before.0, m, net, net.lines[n - 1]);
    if i < n - 1 {
        lemma_line_points_table(w, m, net, (n - 1) as nat, i);
        assert(net.lines[n - 1].name != net.lines[i].name);
    }
}

/// The continuous rating that comes back of a line's, among its extras.
pub open spec fn comes_of_normal(m: Sem, back: DistLineV, pair: Option<(Bits, Bits)>) -> bool {
    get_of(back.extras, "normamps"@) == match pair {
        Some((norm, _)) => Some(float_json(m, norm)),
        None => None,
    }
}

#[verifier::rlimit(40)]
pub proof fn lemma_rated_line_step(
    m: Sem,
    doc: Seq<ObjV>,
    st: StateV,
    o: ObjV,
    net: DistNetworkV,
    line: DistLineV,
)
    requires
        o.name == line.name,
        says_line(m, o.props, line),
        says_line_rating(m, o.props, net, line),
        0 < hot_wires(line.terminal_map_from).len() < u64::MAX,
        amps_read(m, doc, line_amps(m, net, line)),
    ensures
        ({
            let lines = line_step(m, doc, st, o).net.lines;
            &&& lines.len() > 0
            &&& comes_of_line(m, lines[lines.len() - 1], line)
            &&& comes_of_normal(m, lines[lines.len() - 1], line_amps(m, net, line))
        }),
{
    broadcast use lemma_get_put;

    lemma_line_step(m, doc, st, o, line);
    reveal_strlit("ravens_mrid");
    reveal_strlit("normamps");
    assert("ravens_mrid"@.len() == 11 && "normamps"@.len() == 8);
    lemma_get_none("normamps"@);
    assert(get_of(mrid_extras(o.props), "normamps"@) is None) by {
        reveal(mrid_extras);
    }
    reveal(line_limits_of);
}

/// No continuous rating of a line is lost: a network that is read of a written
/// document has, for every line of the network that was written whose name is its
/// own, a line that comes back of it with the same continuous rating; where it
/// has none, the rating of its line code stands in.
#[verifier::rlimit(60)]
pub proof fn lemma_line_ratings_survive(m: Sem, net: DistNetworkV, i: int)
    requires
        0 <= i < net.lines.len(),
        clear(net.untyped, line_path(), net.lines[i].name),
        forall|j: int|
            i < j < net.lines.len() ==> (#[trigger] net.lines[j]).name != net.lines[i].name,
        0 < hot_wires(net.lines[i].terminal_map_from).len() < u64::MAX,
        collect_of(ravens_document(m, net).1).len() <= usize::MAX,
        amps_told(m, net, line_amps(m, net, net.lines[i])),
    ensures
        ravens_value(m, JsonV::Obj(ravens_document(m, net).1)) matches Ok(back) ==> exists|k: int|
            0 <= k < back.lines.len() && comes_of_line(m, #[trigger] back.lines[k], net.lines[i])
                && comes_of_normal(m, back.lines[k], line_amps(m, net, net.lines[i])),
{
    let root = ravens_document(m, net).1;
    let doc = collect_of(root);
    let line = net.lines[i];
    lemma_line_tables(m, net, i);
    let o = get_of(written_tables(m, net).lines, line.name)->0->Obj_0;
    assert(says_line_rating(m, o, net, line)) by {
        reveal(tables_of);
        let w = unrepresented(fresh_writer(bases_of(m, net)), m, net);
        let w = linecodes_json(w, m, net.linecodes, net.linecodes.len()).0;
        lemma_line_points_table(w, m, net, net.lines.len(), i);
    }
    lemma_sets_of(m, net, -1, i, -1);
    lemma_amps_limits(m, net, line_amps(m, net, line));
    lemma_line_found(m, net, line.name, JsonV::Obj(o));
    let at = lemma_typed_object_is_collected(root, line_path(), line.name, o, "ACLineSegment"@);
    let j = lemma_kind_holds(doc, Seq::empty(), "ACLineSegment"@, doc.len(), at);
    let ids = sorted_kind(doc, "ACLineSegment"@);
    let g = stages(m, doc);
    let before = lines_n(m, doc, g.coded, ids, j as nat);
    let after = lines_n(m, doc, g.coded, ids, (j + 1) as nat).net.lines;
    lemma_rated_line_step(m, doc, before, doc[ids[j] as int], net, line);
    lemma_lines_n_grows(m, doc, g.coded, ids, (j + 1) as nat, ids.len());
    let k = after.len() - 1;
    assert(lines_n(m, doc, g.coded, ids, ids.len()).net.lines[k] == after[k]);
    lemma_nothing_is_taken_back(m, doc);
    assert(g.lined.net.lines == lines_n(m, doc, g.coded, ids, ids.len()).net.lines);
    assert(run_of(m, doc).net.lines[k] == g.lined.net.lines[k]);
    if let Ok(back) = ravens_value(m, JsonV::Obj(root)) {
        assert(comes_of_line(m, back.lines[k], line));
    }
}

} // verus!
