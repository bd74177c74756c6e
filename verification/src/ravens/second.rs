//! Writing what is read of a written document gives that document again.

use vstd::prelude::*;

use crate::json::{Entries, JsonV};
use crate::math::{Bits, Sem};
use crate::model::{
    DistBusV, DistIbrV, DistLineV, DistNetworkV, DistSwitchV, UntypedObjectV, bus_from,
};
use crate::order::{get_of, sorted};
use crate::ravens::accept::{
    carries_calm, even, group_even, is_word, lemma_linecodes_mild, lemma_tables_mild,
    lemma_transformers_mild, lemma_unrepresented_even, mild, stands_alone,
};
use crate::ravens::bases::{
    bases_of, best_claims, bridges, claims_as, claims_of, edges_of, is_bases, joins,
    lemma_bases_alike, source_claim, winding_claim, wound_alike, wound_as,
};
use crate::ravens::doc::{collect_of, sorted_kind, ObjV};
use crate::ravens::emit::WriterV;
use crate::ravens::keeps::{same_code, stages};
use crate::ravens::kinds::{lemma_marks, lemma_read_kinds_stand_alone};
use crate::ravens::laws::{
    clear, found_at, lemma_kept_warned, lemma_typed_place_stays, placed, typed_root,
};
use crate::ravens::lines::{linecodes_n, lines_n, switch_ids, switches_n};
use crate::ravens::only::{
    lemma_collected_only, lemma_own_fine, lemma_typed_only, only_in, own_fine, own_table, stored,
};
use crate::ravens::plain::{all_declared, lemma_codes_plain, plainly};
use crate::ravens::read::{
    buses_n, claimed_kinds, declared, finish_buses_of, kept_n, mapped_of, missing_n, preserve_of,
    ravens_value, run_of, unclaimed,
};
use crate::ravens::stable::{
    code_kept, lemma_code_entry, lemma_code_origin, lemma_codes_unrated, lemma_codes_written_again,
    lemma_line_entry, lemma_line_origin, lemma_lines_written_again, lemma_switch_entry,
    lemma_switch_ids, lemma_switch_origin, lemma_switches_written_again, lemma_table_sorted,
    lemma_tables_sorted, line_kept, line_limit, switch_kept, switch_limit, table_of,
};
use crate::ravens::state::{NodeUseV, StateV, empty_state, untyped_of};
use crate::ravens::survive::{
    comes_of_bus, comes_of_line, comes_of_switch, lemma_bus_pushed, lemma_bus_tables,
    lemma_buses_survive, lemma_document_places, lemma_line_says, lemma_line_step,
    lemma_lines_survive, lemma_switch_says, lemma_switch_step, lemma_switches_survive, line_path,
    node_path, switch_path, written_tables,
};
use crate::ravens::write::{
    base_names, base_table, buses_json, document_of, fresh_writer, ravens_document, tables_of,
    typed_of, unrepresented,
};
use crate::ravens::write_lines::{linecodes_json, lines_json, switches_json};
use crate::ravens::survive_models::{
    lemma_reply_tables, lemma_response_found, lemma_response_stands_alone, lemma_typed_responses,
    response_name, response_path,
};
use crate::ravens::survive_places::{
    lemma_kind_only, lemma_positions_survive, location_path, place_name, returned_place,
};
use crate::ravens::found::{lemma_kind_holds, lemma_typed_object_is_collected};
use crate::ravens::lists::{lemma_lists};
use crate::ravens::rewrite::{lemma_code_object_is_stable};
use crate::ravens::survive_codes::{
    code_path, lemma_code_found, lemma_code_pushed, lemma_code_tables, lemma_linecodes_survive,
};
use crate::ravens::feeds::{
    lemma_source_entry, lemma_source_object_is_stable, lemma_source_origin, lemma_source_pairs,
    lemma_source_plain, lemma_sources_written_again, source_kept, source_pairs,
};
use crate::ravens::machines::{electronics_n, machine_ids, machines_n, sources_n};
use crate::ravens::write_machines::{all_electronics_json, machines_json, shunts_json, sources_json};
use crate::ravens::survive_sites::{
    comes_of_inverter, comes_of_machine, comes_of_shunt, comes_of_source, lemma_inverters_survive,
    lemma_machines_survive, lemma_shunts_survive, lemma_sources_survive, site_path, source_path,
};
use crate::ravens::draws::{
    answered, brought, carries, comes_alike, lemma_all_alike, lemma_brought, lemma_comes_alike,
    lemma_is_brought, lemma_is_replied, lemma_is_shaped, lemma_load_entry, lemma_load_pairs,
    lemma_load_plain, lemma_loads_write, lemma_loads_written_again, lemma_names_agree,
    lemma_replied, lemma_same_replies, lemma_same_rows, load_kept, load_pairs, loads_come,
    record_of, replied, replies_agree, reply_pairs, rows_agree, rows_n, same_bounds, same_schedules,
    shape_of, shape_told, shaped,
};
use crate::ravens::loads::{loads_n, shunts_n};
use crate::ravens::write_loads::{loads_json};
use crate::ravens::survive_loads::{comes_of_load, lemma_loads_survive, load_path};
use crate::ravens::survive_tanks::{
    comes_of_transformer, lemma_named_is, lemma_tank_lookups, lemma_transformers_survive,
    lemma_typed_lookups, lemma_wound_sorted, sheet_name, sheet_path, transformer_path, unambiguous,
};
use crate::ravens::banks::{
    lemma_kept_with, lemma_shunt_entry, lemma_shunt_pairs, lemma_shunt_plain,
    lemma_shunts_written_again, shunt_kept, shunt_pairs,
};
use crate::ravens::engines::{
    lemma_machine_entry, lemma_machine_ids, lemma_machine_pairs, lemma_machine_plain,
    lemma_machines_written_again, machine_kept, machine_pairs,
};
use crate::ravens::inverters::{
    lemma_inverter_entry, lemma_inverter_pairs, lemma_inverter_plain, lemma_inverters_written_again,
    inverter_kept, inverter_pairs,
};
use crate::ravens::limited::{
    all_asks, ask_name, asks_agree, amps_ask, both_bounds, bounds_at, bus_wants, gathered,
    lemma_asks, lemma_asks_base, lemma_buses_gather, lemma_lines_gather, lemma_loads_gather,
    lemma_same_sets, lemma_same_types, lemma_switches_gather, line_asks, line_wants, load_asks,
    load_wants, set_pairs, switch_asks, switch_wants, volts_ask, wants, within, AskV,
};
use crate::ravens::rated::{
    code_settled, codes_hold, is_code, lemma_amps_again, lemma_line_rated, lemma_lines_rated,
    lemma_switch_rated, line_rated, line_reads, pair_told, same_codes, typedly, was_read,
};
use crate::ravens::housed::{
    bounds_read, lemma_node_again, lemma_nodes_again, lemma_positions_again, located, nodes_come,
    place_told,
};
use crate::ravens::survive_bounds::{
    amps_read, amps_told, bounds_told, lemma_amps_limits, lemma_bus_limits, lemma_sets_of,
};
use crate::ravens::survive_limits::{amps_name, line_amps, switch_amps};
use crate::text::{lower_of};
use crate::ravens::coiled::{lemma_collected_tanks, lemma_tank_table, tank_ok, tanks_in};
use crate::ravens::wound::{
    all_read, lemma_claims_again, lemma_tanks_plain, lemma_transformer_source,
    lemma_transformers_written_again, same_transformer, tank_reads, transformer_kept,
};
use crate::ravens::tanks::{tanks_n};
use crate::ravens::write_tanks::{transformers_json};
use crate::ravens::stowed::{
    among, fit, is_own, lemma_keeps_loose, lemma_kept_object, lemma_kind_stays,
    lemma_loose_come_back, lemma_restored_is_put, loose, object_of, objects_of, put_all, stowable,
};

verus! {

/// Untyped objects are put back clear of the elements.
pub open spec fn untouched(net: DistNetworkV) -> bool {
    let s = net.untyped;
    &&& forall|i: int| 0 <= i < net.buses.len() ==> clear(s, node_path(), (#[trigger] net.buses[i]).id)
    &&& forall|i: int|
        0 <= i < net.buses.len() ==> clear(
            s,
            location_path(),
            place_name((#[trigger] net.buses[i]).id),
        )
    &&& forall|i: int|
        0 <= i < net.linecodes.len() ==> clear(s, code_path(), (#[trigger] net.linecodes[i]).name)
    &&& forall|i: int|
        0 <= i < net.lines.len() ==> clear(s, line_path(), (#[trigger] net.lines[i]).name)
    &&& forall|i: int|
        0 <= i < net.switches.len() ==> clear(s, switch_path(), (#[trigger] net.switches[i]).name)
    &&& forall|i: int|
        0 <= i < net.loads.len() ==> clear(s, load_path(), (#[trigger] net.loads[i]).name)
    &&& forall|i: int|
        0 <= i < net.loads.len() ==> clear(
            s,
            response_path(),
            response_name(#[trigger] net.loads[i]),
        )
    &&& forall|i: int|
        0 <= i < net.shunts.len() ==> clear(
            s,
            site_path("ShuntCompensator"@),
            (#[trigger] net.shunts[i]).name,
        )
    &&& forall|i: int|
        0 <= i < net.generators.len() ==> clear(
            s,
            site_path("RotatingMachine"@),
            (#[trigger] net.generators[i]).name,
        )
    &&& forall|i: int|
        0 <= i < net.ibrs.len() ==> clear(
            s,
            site_path("PowerElectronicsConnection"@),
            (#[trigger] net.ibrs[i]).name,
        )
    &&& forall|i: int|
        0 <= i < net.sources.len() ==> clear(s, source_path(), (#[trigger] net.sources[i]).name)
    &&& forall|i: int|
        0 <= i < net.transformers.len() ==> clear(
            s,
            transformer_path(),
            (#[trigger] net.transformers[i]).name,
        )
    &&& forall|i: int|
        0 <= i < net.transformers.len() ==> clear(
            s,
            sheet_path((#[trigger] net.transformers[i]).name),
            sheet_name(net.transformers[i].name),
        )
}

/// The untyped objects of a network can be put back: there are places for them
/// in the typed part of its document, apart from each other and clear of the
/// elements.
pub open spec fn is_stowed(m: Sem, net: DistNetworkV) -> bool {
    &&& forall|i: int| 0 <= i < net.untyped.len() ==> stowable(#[trigger] net.untyped[i])
    &&& fit(typed_root(m, net), objects_of(net.untyped))
    &&& untouched(net)
}

/// A network whose untyped objects can be put back, and whose inverters carry
/// over no objects but the efficiency of a battery.
pub open spec fn is_frame(m: Sem, net: DistNetworkV) -> bool {
    &&& is_stowed(m, net)
    &&& forall|i: int| 0 <= i < net.ibrs.len() ==> carries_none(#[trigger] net.ibrs[i])
}

pub open spec fn carries_none(ibr: DistIbrV) -> bool {
    forall|x: Seq<char>| x != "BatteryUnitEfficiency"@ ==> #[trigger] carries_calm(x, ibr)
}

/// Names are their own within each family.
pub open spec fn named_apart(net: DistNetworkV) -> bool {
    &&& forall|i: int, j: int|
        0 <= i < j < net.buses.len() ==> (#[trigger] net.buses[i]).id != (#[trigger] net.buses[j]).id
    &&& forall|i: int, j: int|
        0 <= i < j < net.linecodes.len() ==> (#[trigger] net.linecodes[i]).name != (
        #[trigger] net.linecodes[j]).name
    &&& forall|i: int, j: int|
        0 <= i < j < net.lines.len() ==> (#[trigger] net.lines[i]).name != (
        #[trigger] net.lines[j]).name
    &&& forall|i: int, j: int|
        0 <= i < j < net.switches.len() ==> (#[trigger] net.switches[i]).name != (
        #[trigger] net.switches[j]).name
    &&& forall|i: int, j: int|
        0 <= i < j < net.sources.len() ==> (#[trigger] net.sources[i]).name != (
        #[trigger] net.sources[j]).name
    &&& forall|i: int, j: int|
        0 <= i < j < net.loads.len() ==> (#[trigger] net.loads[i]).name != (
        #[trigger] net.loads[j]).name
    &&& forall|i: int, j: int|
        0 <= i < j < net.shunts.len() ==> (#[trigger] net.shunts[i]).name != (
        #[trigger] net.shunts[j]).name
    &&& forall|i: int, j: int|
        0 <= i < j < net.generators.len() ==> (#[trigger] net.generators[i]).name != (
        #[trigger] net.generators[j]).name
    &&& forall|i: int, j: int|
        0 <= i < j < net.ibrs.len() ==> (#[trigger] net.ibrs[i]).name != (
        #[trigger] net.ibrs[j]).name
    &&& forall|i: int, j: int|
        0 <= i < j < net.transformers.len() ==> (#[trigger] net.transformers[i]).name != (
        #[trigger] net.transformers[j]).name
}

/// The elements are at buses of the network.
pub open spec fn joined(net: DistNetworkV) -> bool {
    &&& forall|i: int|
        0 <= i < net.lines.len() ==> declared(net.buses, (#[trigger] net.lines[i]).bus_from)
            && declared(net.buses, net.lines[i].bus_to)
    &&& forall|i: int|
        0 <= i < net.switches.len() ==> declared(net.buses, (#[trigger] net.switches[i]).bus_from)
            && declared(net.buses, net.switches[i].bus_to)
    &&& forall|i: int|
        0 <= i < net.sources.len() ==> declared(net.buses, (#[trigger] net.sources[i]).bus)
    &&& forall|i: int|
        0 <= i < net.loads.len() ==> declared(net.buses, (#[trigger] net.loads[i]).bus)
    &&& forall|i: int|
        0 <= i < net.shunts.len() ==> declared(net.buses, (#[trigger] net.shunts[i]).bus)
    &&& forall|i: int|
        0 <= i < net.generators.len() ==> declared(net.buses, (#[trigger] net.generators[i]).bus)
    &&& forall|i: int|
        0 <= i < net.ibrs.len() ==> declared(net.buses, (#[trigger] net.ibrs[i]).bus)
    &&& forall|i: int, k: int|
        0 <= i < net.transformers.len() && 0 <= k < net.transformers[i].windings.len() ==> declared(
            net.buses,
            (#[trigger] net.transformers[i].windings[k]).bus,
        )
}

/// Everything that a network asks of limit sets.
pub open spec fn asks(m: Sem, net: DistNetworkV) -> Seq<AskV> {
    all_asks(fresh_writer(bases_of(m, net)), m, net)
}

/// Limits and positions come back: their numbers from their numerals, and their
/// sets by their names. Buses are named apart, letter case aside.
pub open spec fn limits_kept(m: Sem, net: DistNetworkV) -> bool {
    &&& forall|i: int|
        0 <= i < net.lines.len() ==> line_rated(m, net, #[trigger] net.lines[i]) && amps_told(
            m,
            net,
            line_amps(m, net, net.lines[i]),
        )
    &&& forall|i: int|
        0 <= i < net.switches.len() ==> amps_told(m, net, switch_amps(m, #[trigger] net.switches[i]))
    &&& forall|i: int|
        0 <= i < net.buses.len() ==> place_told(m, #[trigger] net.buses[i]) && (both_bounds(
            net.buses[i],
        ) is Some ==> bounds_told(m, net, i))
    &&& forall|i: int, j: int|
        0 <= i < j < net.buses.len() ==> lower_of((#[trigger] net.buses[i]).id) != lower_of(
            (#[trigger] net.buses[j]).id,
        )
    &&& asks_agree(m, asks(m, net))
}

/// Two networks have the same limits, and ask for the same sets.
pub open spec fn limits_again(m: Sem, net: DistNetworkV, back: DistNetworkV) -> bool {
    &&& same_amps(m, net, back)
    &&& same_bounds(net, back)
    &&& asks_agree(m, asks(m, back))
    &&& within(asks(m, net), asks(m, back))
    &&& within(asks(m, back), asks(m, net))
}

/// Lines and switches of one name have the same ampacities.
pub open spec fn same_amps(m: Sem, net: DistNetworkV, back: DistNetworkV) -> bool {
    &&& forall|i: int, j: int|
        0 <= i < net.lines.len() && 0 <= j < back.lines.len() && (#[trigger] net.lines[i]).name == (
        #[trigger] back.lines[j]).name ==> line_amps(m, net, net.lines[i]) == line_amps(
            m,
            back,
            back.lines[j],
        )
    &&& forall|i: int, j: int|
        0 <= i < net.switches.len() && 0 <= j < back.switches.len() && (
        #[trigger] net.switches[i]).name == (#[trigger] back.switches[j]).name ==> switch_amps(
            m,
            net.switches[i],
        ) == switch_amps(m, back.switches[j])
}

/// Each element can be written again.
pub open spec fn kept(m: Sem, net: DistNetworkV) -> bool {
    &&& forall|i: int| 0 <= i < net.linecodes.len() ==> code_kept(m, #[trigger] net.linecodes[i])
    &&& forall|i: int| 0 <= i < net.lines.len() ==> line_kept(m, #[trigger] net.lines[i])
    &&& forall|i: int| 0 <= i < net.switches.len() ==> switch_kept(#[trigger] net.switches[i])
    &&& forall|i: int| 0 <= i < net.sources.len() ==> source_kept(m, #[trigger] net.sources[i])
    &&& forall|i: int| 0 <= i < net.loads.len() ==> load_kept(m, #[trigger] net.loads[i])
    &&& forall|i: int| 0 <= i < net.shunts.len() ==> shunt_kept(
        fresh_writer(bases_of(m, net)),
        m,
        #[trigger] net.shunts[i],
    )
    &&& forall|i: int|
        0 <= i < net.generators.len() ==> machine_kept(m, #[trigger] net.generators[i])
    &&& forall|i: int| 0 <= i < net.ibrs.len() ==> inverter_kept(m, #[trigger] net.ibrs[i])
    &&& forall|i: int|
        0 <= i < net.transformers.len() ==> transformer_kept(m, #[trigger] net.transformers[i])
    &&& shapes_kept(m, net)
}

/// The shapes of the loads can be read, and loads of one profile row have the
/// same.
pub open spec fn shapes_kept(m: Sem, net: DistNetworkV) -> bool {
    let doc = collect_of(ravens_document(m, net).1);
    &&& forall|i: int|
        0 <= i < net.loads.len() ==> shape_told(m, net, doc, #[trigger] net.loads[i])
    &&& rows_agree(m, net.loads)
}

// ---- the objects of a document ---------------------------------------------

proof fn lemma_document_is_put(m: Sem, net: DistNetworkV)
    requires
        is_stowed(m, net),
    ensures
        ravens_document(m, net).1 == put_all(
            typed_root(m, net),
            objects_of(net.untyped),
            net.untyped.len(),
        ),
{
    let w = typed_of(fresh_writer(bases_of(m, net)), m, net).0;
    assert forall|i: int| 0 <= i < net.untyped.len() implies placed(
        #[trigger] net.untyped[i],
        object_of(net.untyped[i]).path,
        JsonV::Obj(object_of(net.untyped[i]).props),
    ) by {
        assert(stowable(net.untyped[i]));
    }
    lemma_restored_is_put(w, typed_root(m, net), net.untyped, net.untyped.len());
    reveal(document_of);
}

/// The objects of a claimed kind are those of the typed part.
proof fn lemma_from_typed(m: Sem, net: DistNetworkV, x: Seq<char>, i: int) -> (j: int)
    requires
        is_stowed(m, net),
        claimed_kinds().contains(x),
        0 <= i < collect_of(ravens_document(m, net).1).len(),
        collect_of(ravens_document(m, net).1)[i].kind == x,
    ensures
        0 <= j < collect_of(typed_root(m, net)).len(),
        collect_of(typed_root(m, net))[j] == collect_of(ravens_document(m, net).1)[i],
{
    let s = objects_of(net.untyped);
    lemma_document_is_put(m, net);
    let h = choose|h: int| 0 <= h < claimed_kinds().len() && claimed_kinds()[h] == x;
    assert forall|k: int| 0 <= k < s.len() implies mild(x, JsonV::Obj((#[trigger] s[k]).props)) by {
        assert(stowable(net.untyped[k]));
        assert(mild(claimed_kinds()[h], JsonV::Obj(s[k].props)));
    }
    lemma_kind_stays(typed_root(m, net), s, s.len(), x, i)
}

/// What is unambiguous in the typed part is unambiguous.
proof fn lemma_still_unambiguous(m: Sem, net: DistNetworkV, x: Seq<char>, name: Seq<char>)
    requires
        is_stowed(m, net),
        claimed_kinds().contains(x),
        unambiguous(collect_of(typed_root(m, net)), x, name),
    ensures
        unambiguous(collect_of(ravens_document(m, net).1), x, name),
{
    let doc = collect_of(ravens_document(m, net).1);
    assert forall|a: int, b: int|
        0 <= a < doc.len() && 0 <= b < doc.len() && (#[trigger] doc[a]).kind == x && doc[a].name
            == name && (#[trigger] doc[b]).kind == x && doc[b].name
            == name implies doc[a].props == doc[b].props by {
        let p = lemma_from_typed(m, net, x, a);
        let q = lemma_from_typed(m, net, x, b);
        assert(collect_of(typed_root(m, net))[p] == doc[a]);
        assert(collect_of(typed_root(m, net))[q] == doc[b]);
    }
}

/// The kinds that typed mappings look for.
proof fn lemma_claimed()
    ensures
        ({
            let s = claimed_kinds();
            &&& s.contains("ConnectivityNode"@)
            &&& s.contains("PerLengthPhaseImpedance"@)
            &&& s.contains("ACLineSegment"@)
            &&& s.contains("Switch"@)
            &&& s.contains("LoadBreakSwitch"@)
            &&& s.contains("Breaker"@)
            &&& s.contains("Recloser"@)
            &&& s.contains("EnergyConsumer"@)
            &&& s.contains("LoadResponseCharacteristic"@)
            &&& s.contains("LinearShuntCompensator"@)
            &&& s.contains("SynchronousMachine"@)
            &&& s.contains("AsynchronousMachine"@)
            &&& s.contains("PowerElectronicsConnection"@)
            &&& s.contains("EnergySource"@)
            &&& s.contains("PowerTransformer"@)
            &&& s.contains("TransformerTank"@)
            &&& s.contains("TransformerTankInfo"@)
            &&& s.contains("Location"@)
        }),
{
    let s = claimed_kinds();
    assert(s[2] == "ConnectivityNode"@);
    assert(s[9] == "PerLengthPhaseImpedance"@);
    assert(s[11] == "ACLineSegment"@);
    assert(s[13] == "Switch"@);
    assert(s[14] == "LoadBreakSwitch"@);
    assert(s[15] == "Breaker"@);
    assert(s[16] == "Recloser"@);
    assert(s[18] == "EnergyConsumer"@);
    assert(s[20] == "LoadResponseCharacteristic"@);
    assert(s[22] == "LinearShuntCompensator"@);
    assert(s[23] == "SynchronousMachine"@);
    assert(s[24] == "AsynchronousMachine"@);
    assert(s[26] == "PowerElectronicsConnection"@);
    assert(s[30] == "EnergySource"@);
    assert(s[31] == "PowerTransformer"@);
    assert(s[32] == "TransformerTank"@);
    assert(s[34] == "TransformerTankInfo"@);
    assert(s[38] == "Location"@);
}

proof fn lemma_carries(m: Sem, net: DistNetworkV, x: Seq<char>)
    requires
        is_frame(m, net),
        x != "BatteryUnitEfficiency"@,
    ensures
        forall|i: int| 0 <= i < net.ibrs.len() ==> carries_calm(x, #[trigger] net.ibrs[i]),
{
    assert forall|i: int| 0 <= i < net.ibrs.len() implies carries_calm(
        x,
        #[trigger] net.ibrs[i],
    ) by {
        assert(carries_none(net.ibrs[i]));
    }
}

/// The typed part of a document holds a kind only in the table of the kind.
proof fn lemma_typed_part(m: Sem, net: DistNetworkV, x: Seq<char>, t: Entries)
    requires
        is_frame(m, net),
        stands_alone(x),
        x != "TransformerTankInfo"@,
        x != "BatteryUnitEfficiency"@,
        own_table(x, t, fresh_writer(bases_of(m, net)), m, net),
        sorted(t),
        own_fine(x, t),
    ensures
        only_in(x, t, collect_of(typed_root(m, net))),
{
    let w = fresh_writer(bases_of(m, net));
    lemma_carries(m, net, x);
    lemma_typed_only(x, t, w, m, net);
    lemma_collected_only(x, t, typed_root(m, net));
}

/// A document holds a kind only in the table of the kind.
proof fn lemma_only(m: Sem, net: DistNetworkV, x: Seq<char>, t: Entries)
    requires
        is_frame(m, net),
        claimed_kinds().contains(x),
        stands_alone(x),
        x != "TransformerTankInfo"@,
        x != "BatteryUnitEfficiency"@,
        own_table(x, t, fresh_writer(bases_of(m, net)), m, net),
        sorted(t),
        own_fine(x, t),
    ensures
        only_in(x, t, collect_of(ravens_document(m, net).1)),
{
    let doc = collect_of(ravens_document(m, net).1);
    lemma_typed_part(m, net, x, t);
    assert forall|i: int| 0 <= i < doc.len() && (#[trigger] doc[i]).kind == x implies get_of(
        t,
        doc[i].name,
    ) == Some(stored(x, doc[i].name, doc[i].props)) by {
        let j = lemma_from_typed(m, net, x, i);
        assert(collect_of(typed_root(m, net))[j].kind == x);
    }
}

/// A claimed kind that has no table is not there.
proof fn lemma_absent(m: Sem, net: DistNetworkV, x: Seq<char>)
    requires
        is_frame(m, net),
        claimed_kinds().contains(x),
        stands_alone(x),
        x != "TransformerTankInfo"@,
        x != "BatteryUnitEfficiency"@,
        own_table(x, Entries::empty(), fresh_writer(bases_of(m, net)), m, net),
    ensures
        only_in(x, Entries::empty(), collect_of(ravens_document(m, net).1)),
{
    lemma_only(m, net, x, Entries::empty());
}

/// What a document of a frame holds.
pub open spec fn holds_only(m: Sem, net: DistNetworkV) -> bool {
    let doc = collect_of(ravens_document(m, net).1);
    let t = written_tables(m, net);
    let none = Entries::empty();
    &&& only_in("PerLengthPhaseImpedance"@, t.linecodes, doc)
    &&& only_in("ACLineSegment"@, t.lines, doc)
    &&& only_in("Switch"@, t.switches, doc)
    &&& only_in("ConnectivityNode"@, t.nodes, doc)
    &&& only_in("LoadBreakSwitch"@, none, doc)
    &&& only_in("Breaker"@, none, doc)
    &&& only_in("Recloser"@, none, doc)
    &&& only_in("EnergyConsumer"@, t.loads, doc)
    &&& only_in("LinearShuntCompensator"@, t.shunts, doc)
    &&& only_in("SynchronousMachine"@, t.machines, doc)
    &&& only_in("AsynchronousMachine"@, none, doc)
    &&& only_in("PowerElectronicsConnection"@, t.electronics, doc)
    &&& only_in("EnergySource"@, t.sources, doc)
    &&& tanks_in(t.transformers, doc)
    &&& only_in("Location"@, t.locations, doc)
}

proof fn lemma_sorted_tables(m: Sem, net: DistNetworkV)
    ensures
        ({
            let t = written_tables(m, net);
            &&& sorted(t.transformers)
            &&& sorted(t.linecodes)
            &&& sorted(t.lines)
            &&& sorted(t.switches)
            &&& sorted(t.nodes)
            &&& sorted(t.locations)
            &&& sorted(t.sources)
            &&& sorted(t.loads)
            &&& sorted(t.shunts)
            &&& sorted(t.machines)
            &&& sorted(t.electronics)
        }),
{
    reveal(tables_of);
    lemma_tables_sorted(m, net);
    assert forall|w: WriterV| sorted(
        (#[trigger] sources_json(w, m, net.sources, net.sources.len())).1,
    ) by {
        lemma_source_pairs(w, m, net.sources, net.sources.len());
        lemma_table_sorted(source_pairs(w, m, net.sources), net.sources.len());
    }
    assert forall|w: WriterV| sorted((#[trigger] loads_json(w, m, net, net.loads.len())).1) by {
        lemma_load_pairs(w, m, net, net.loads.len());
        lemma_table_sorted(load_pairs(w, m, net), net.loads.len());
    }
    assert forall|w: WriterV| sorted(
        (#[trigger] shunts_json(w, m, net.shunts, net.shunts.len())).1,
    ) by {
        lemma_shunt_pairs(w, m, net.shunts, net.shunts.len());
        lemma_table_sorted(shunt_pairs(w, m, net.shunts), net.shunts.len());
    }
    assert forall|w: WriterV| sorted(
        (#[trigger] machines_json(w, m, net.generators, net.generators.len())).1,
    ) by {
        lemma_machine_pairs(w, m, net.generators, net.generators.len());
        lemma_table_sorted(machine_pairs(w, m, net.generators), net.generators.len());
    }
    assert forall|w: WriterV| sorted(
        (#[trigger] all_electronics_json(w, m, net.ibrs, net.ibrs.len())).1,
    ) by {
        lemma_inverter_pairs(w, m, net.ibrs, net.ibrs.len());
        lemma_table_sorted(inverter_pairs(w, m, net.ibrs), net.ibrs.len());
    }
    assert forall|w: WriterV| sorted(
        (#[trigger] transformers_json(w, m, net.transformers, net.transformers.len())).1,
    ) by {
        lemma_wound_sorted(w, m, net.transformers, net.transformers.len());
    }
}

/// Every tank of a document is that of a transformer of the table.
proof fn lemma_tanks(m: Sem, net: DistNetworkV)
    requires
        is_frame(m, net),
    ensures
        tanks_in(written_tables(m, net).transformers, collect_of(ravens_document(m, net).1)),
{
    let x = "TransformerTank"@;
    let t = written_tables(m, net).transformers;
    let n = net.transformers.len();
    lemma_marks();
    lemma_read_kinds_stand_alone();
    lemma_sorted_tables(m, net);
    lemma_carries(m, net, x);
    lemma_typed_only(x, t, fresh_writer(bases_of(m, net)), m, net);
    lemma_tables(m, net);
    lemma_tank_table(coil_writer(m, net), m, net.transformers, n);
    lemma_collected_tanks(t, typed_root(m, net));
    let doc = collect_of(ravens_document(m, net).1);
    lemma_claimed();
    assert forall|i: int| 0 <= i < doc.len() && (#[trigger] doc[i]).kind == x implies tank_ok(
        t,
        doc[i],
    ) by {
        let j = lemma_from_typed(m, net, x, i);
        assert(collect_of(typed_root(m, net))[j].kind == x);
    }
}

#[verifier::rlimit(60)]
proof fn lemma_holds_only(m: Sem, net: DistNetworkV)
    requires
        is_frame(m, net),
    ensures
        holds_only(m, net),
{
    let w = fresh_writer(bases_of(m, net));
    let t = written_tables(m, net);
    lemma_marks();
    lemma_claimed();
    lemma_read_kinds_stand_alone();
    lemma_sorted_tables(m, net);
    lemma_carries(m, net, "PerLengthPhaseImpedance"@);
    lemma_tables_mild("PerLengthPhaseImpedance"@, w, m, net);
    lemma_own_fine("PerLengthPhaseImpedance"@, t.linecodes);
    lemma_only(m, net, "PerLengthPhaseImpedance"@, t.linecodes);
    lemma_carries(m, net, "ACLineSegment"@);
    lemma_tables_mild("ACLineSegment"@, w, m, net);
    lemma_own_fine("ACLineSegment"@, t.lines);
    lemma_only(m, net, "ACLineSegment"@, t.lines);
    lemma_carries(m, net, "Switch"@);
    lemma_tables_mild("Switch"@, w, m, net);
    lemma_own_fine("Switch"@, t.switches);
    lemma_only(m, net, "Switch"@, t.switches);
    lemma_carries(m, net, "ConnectivityNode"@);
    lemma_tables_mild("ConnectivityNode"@, w, m, net);
    lemma_own_fine("ConnectivityNode"@, t.nodes);
    lemma_only(m, net, "ConnectivityNode"@, t.nodes);
    lemma_carries(m, net, "Location"@);
    lemma_tables_mild("Location"@, w, m, net);
    lemma_own_fine("Location"@, t.locations);
    lemma_only(m, net, "Location"@, t.locations);
    lemma_absent(m, net, "LoadBreakSwitch"@);
    lemma_absent(m, net, "Breaker"@);
    lemma_absent(m, net, "Recloser"@);
    lemma_carries(m, net, "EnergyConsumer"@);
    lemma_tables_mild("EnergyConsumer"@, w, m, net);
    lemma_own_fine("EnergyConsumer"@, t.loads);
    lemma_only(m, net, "EnergyConsumer"@, t.loads);
    lemma_carries(m, net, "LinearShuntCompensator"@);
    lemma_tables_mild("LinearShuntCompensator"@, w, m, net);
    lemma_own_fine("LinearShuntCompensator"@, t.shunts);
    lemma_only(m, net, "LinearShuntCompensator"@, t.shunts);
    lemma_carries(m, net, "SynchronousMachine"@);
    lemma_tables_mild("SynchronousMachine"@, w, m, net);
    lemma_own_fine("SynchronousMachine"@, t.machines);
    lemma_only(m, net, "SynchronousMachine"@, t.machines);
    lemma_absent(m, net, "AsynchronousMachine"@);
    lemma_carries(m, net, "PowerElectronicsConnection"@);
    lemma_tables_mild("PowerElectronicsConnection"@, w, m, net);
    lemma_own_fine("PowerElectronicsConnection"@, t.electronics);
    lemma_only(m, net, "PowerElectronicsConnection"@, t.electronics);
    lemma_carries(m, net, "EnergySource"@);
    lemma_tables_mild("EnergySource"@, w, m, net);
    lemma_own_fine("EnergySource"@, t.sources);
    lemma_only(m, net, "EnergySource"@, t.sources);
    lemma_tanks(m, net);
}

/// Nothing in the typed part of a document is left untyped.
#[verifier::rlimit(60)]
proof fn lemma_all_claimed(m: Sem, net: DistNetworkV, i: int)
    requires
        is_frame(m, net),
        0 <= i < collect_of(typed_root(m, net)).len(),
        is_word(collect_of(typed_root(m, net))[i].kind),
    ensures
        !unclaimed(collect_of(typed_root(m, net))[i]),
{
    let o = collect_of(typed_root(m, net))[i];
    if unclaimed(o) {
        let s = claimed_kinds();
        let x = o.kind;
        assert forall|k: int| 0 <= k < 40 implies s[k] != x by {
            assert(s[k] == claimed_kinds()[k]);
        }
        assert(s[0] != x && s[1] != x && s[2] != x && s[3] != x && s[4] != x && s[5] != x);
        assert(s[6] != x && s[7] != x && s[8] != x && s[9] != x && s[10] != x && s[11] != x);
        assert(s[12] != x && s[13] != x && s[17] != x && s[18] != x && s[19] != x);
        assert(s[20] != x && s[21] != x && s[22] != x && s[23] != x && s[25] != x);
        assert(s[26] != x && s[27] != x && s[28] != x && s[29] != x && s[30] != x && s[31] != x);
        assert(s[32] != x && s[33] != x && s[34] != x && s[35] != x && s[36] != x);
        assert(s[37] != x && s[38] != x && s[39] != x);
        assert(s[24] != x && s[14] != x && s[15] != x && s[16] != x);
        lemma_typed_part(m, net, x, Entries::empty());
        reveal(get_of);
        assert(get_of(Entries::empty(), o.name) is None);
    }
}

// ---- writers ---------------------------------------------------------------

/// The writer that the lines are written with.
pub open spec fn line_writer(m: Sem, net: DistNetworkV) -> WriterV {
    let w = unrepresented(fresh_writer(bases_of(m, net)), m, net);
    linecodes_json(w, m, net.linecodes, net.linecodes.len()).0
}

pub open spec fn switch_writer(m: Sem, net: DistNetworkV) -> WriterV {
    lines_json(line_writer(m, net), m, net, net.lines.len()).0
}

pub open spec fn load_writer(m: Sem, net: DistNetworkV) -> WriterV {
    switches_json(switch_writer(m, net), m, net.switches, net.switches.len()).0
}

pub open spec fn shunt_writer(m: Sem, net: DistNetworkV) -> WriterV {
    loads_json(load_writer(m, net), m, net, net.loads.len()).0
}

pub open spec fn machine_writer(m: Sem, net: DistNetworkV) -> WriterV {
    shunts_json(shunt_writer(m, net), m, net.shunts, net.shunts.len()).0
}

pub open spec fn inverter_writer(m: Sem, net: DistNetworkV) -> WriterV {
    machines_json(machine_writer(m, net), m, net.generators, net.generators.len()).0
}

/// The writer that the sources of a frame are written with.
pub open spec fn source_writer(m: Sem, net: DistNetworkV) -> WriterV {
    all_electronics_json(inverter_writer(m, net), m, net.ibrs, net.ibrs.len()).0
}

pub open spec fn coil_writer(m: Sem, net: DistNetworkV) -> WriterV {
    sources_json(source_writer(m, net), m, net.sources, net.sources.len()).0
}

/// The writer that the buses of a frame are written with.
pub open spec fn node_writer(m: Sem, net: DistNetworkV) -> WriterV {
    transformers_json(coil_writer(m, net), m, net.transformers, net.transformers.len()).0
}

proof fn lemma_tables(m: Sem, net: DistNetworkV)
    ensures
        ({
            let w = unrepresented(fresh_writer(bases_of(m, net)), m, net);
            let t = written_tables(m, net);
            let nodes = buses_json(node_writer(m, net), m, net.buses, net.buses.len());
            &&& t.linecodes == linecodes_json(w, m, net.linecodes, net.linecodes.len()).1
            &&& t.lines == lines_json(line_writer(m, net), m, net, net.lines.len()).1
            &&& t.switches == switches_json(
                switch_writer(m, net),
                m,
                net.switches,
                net.switches.len(),
            ).1
            &&& t.loads == loads_json(load_writer(m, net), m, net, net.loads.len()).1
            &&& t.shunts == shunts_json(shunt_writer(m, net), m, net.shunts, net.shunts.len()).1
            &&& t.machines == machines_json(
                machine_writer(m, net),
                m,
                net.generators,
                net.generators.len(),
            ).1
            &&& t.electronics == all_electronics_json(
                inverter_writer(m, net),
                m,
                net.ibrs,
                net.ibrs.len(),
            ).1
            &&& t.sources == sources_json(
                source_writer(m, net),
                m,
                net.sources,
                net.sources.len(),
            ).1
            &&& t.transformers == transformers_json(
                coil_writer(m, net),
                m,
                net.transformers,
                net.transformers.len(),
            ).1
            &&& t.assets == transformers_json(
                coil_writer(m, net),
                m,
                net.transformers,
                net.transformers.len(),
            ).2
            &&& t.nodes == nodes.1
            &&& t.locations == nodes.2
            &&& tables_of(fresh_writer(bases_of(m, net)), m, net).0 == nodes.0
        }),
{
    reveal(tables_of);
}

/// Loads agree on the records that they point at and on their profile rows.
pub open spec fn quiet(m: Sem, net: DistNetworkV) -> bool {
    replies_agree(m, net.loads) && rows_agree(m, net.loads)
}

/// A network gathers the records of its loads and the limit sets of its elements
/// as it is written.
#[verifier::rlimit(60)]
proof fn lemma_gathers(m: Sem, net: DistNetworkV)
    requires
        quiet(m, net),
        asks_agree(m, asks(m, net)),
    ensures
        ({
            let w = fresh_writer(bases_of(m, net));
            let v = tables_of(w, m, net).0;
            &&& line_writer(m, net).bases == w.bases
            &&& load_writer(m, net).bases == w.bases
            &&& load_writer(m, net).responses == Entries::empty()
            &&& shunt_writer(m, net).bases == w.bases
            &&& machine_writer(m, net).bases == w.bases
            &&& inverter_writer(m, net).bases == w.bases
            &&& source_writer(m, net).bases == w.bases
            &&& coil_writer(m, net).bases == w.bases
            &&& v.profiles == rows_n(m, net.loads, net.loads.len())
            &&& v.bases == w.bases
            &&& v.responses == table_of(reply_pairs(m, net.loads))
            &&& gathered(v, m, asks(m, net))
        }),
{
    let w = fresh_writer(bases_of(m, net));
    let all = asks(m, net);
    lemma_tables(m, net);
    lemma_unrepresented_even(w, m, net);
    lemma_response_stands_alone();
    lemma_linecodes_mild(
        "LoadResponseCharacteristic"@,
        unrepresented(w, m, net),
        m,
        net.linecodes,
        net.linecodes.len(),
    );
    assert forall|x: AskV| #[trigger] all.contains(x) == wants(w, m, net, x) by {
        lemma_asks(w, m, net, x);
    }
    let s0 = Seq::<AskV>::empty();
    assert(gathered(line_writer(m, net), m, s0)) by {
        assert(set_pairs(m, s0) =~= Entries::empty());
    }
    lemma_lines_gather(line_writer(m, net), m, net, s0, net.lines.len(), all);
    let s1 = line_asks(m, net, s0, net.lines.len());
    lemma_switches_gather(switch_writer(m, net), m, net.switches, s1, net.switches.len(), all);
    let s2 = switch_asks(m, net.switches, s1, net.switches.len());
    lemma_asks_base(w, load_writer(m, net), net, s2, net.loads.len());
    assert forall|x: AskV| load_wants(load_writer(m, net), net, net.loads.len(), x) implies
        #[trigger] all.contains(x) by {
        assert(load_wants(w, net, net.loads.len(), x)) by {
            reveal(WriterV::base_of);
        }
    }
    lemma_loads_gather(load_writer(m, net), m, net, s2, net.loads.len(), all);
    let s3 = load_asks(w, net, s2, net.loads.len());
    lemma_loads_write(load_writer(m, net), m, net, net.loads.len());
    lemma_shunt_pairs(shunt_writer(m, net), m, net.shunts, net.shunts.len());
    lemma_machine_pairs(machine_writer(m, net), m, net.generators, net.generators.len());
    lemma_inverter_pairs(inverter_writer(m, net), m, net.ibrs, net.ibrs.len());
    lemma_source_pairs(source_writer(m, net), m, net.sources, net.sources.len());
    lemma_transformers_mild(
        "LoadResponseCharacteristic"@,
        coil_writer(m, net),
        m,
        net.transformers,
        net.transformers.len(),
    );
    assert(gathered(node_writer(m, net), m, s3));
    lemma_asks_base(w, node_writer(m, net), net, s3, net.buses.len());
    assert forall|x: AskV| bus_wants(node_writer(m, net), net.buses, net.buses.len(), x) implies
        #[trigger] all.contains(x) by {
        assert(bus_wants(w, net.buses, net.buses.len(), x)) by {
            reveal(WriterV::base_of);
        }
    }
    lemma_buses_gather(node_writer(m, net), m, net.buses, s3, net.buses.len(), all);
}

/// The limits of a network are read as they were written.
pub open spec fn limits_read(m: Sem, net: DistNetworkV) -> bool {
    let doc = collect_of(ravens_document(m, net).1);
    &&& forall|i: int|
        0 <= i < net.lines.len() ==> amps_read(
            m,
            doc,
            line_amps(m, net, #[trigger] net.lines[i]),
        )
    &&& forall|i: int|
        0 <= i < net.switches.len() ==> amps_read(
            m,
            doc,
            switch_amps(m, #[trigger] net.switches[i]),
        )
    &&& forall|i: int| 0 <= i < net.buses.len() ==> bounds_read(m, doc, #[trigger] net.buses[i])
}

proof fn lemma_limits_read(m: Sem, net: DistNetworkV)
    requires
        limits_kept(m, net),
    ensures
        limits_read(m, net),
{
    let doc = collect_of(ravens_document(m, net).1);
    assert forall|i: int| 0 <= i < net.lines.len() implies amps_read(
        m,
        doc,
        line_amps(m, net, #[trigger] net.lines[i]),
    ) by {
        lemma_sets_of(m, net, -1, i, -1);
        lemma_amps_limits(m, net, line_amps(m, net, net.lines[i]));
    }
    assert forall|i: int| 0 <= i < net.switches.len() implies amps_read(
        m,
        doc,
        switch_amps(m, #[trigger] net.switches[i]),
    ) by {
        lemma_sets_of(m, net, -1, -1, i);
        lemma_amps_limits(m, net, switch_amps(m, net.switches[i]));
    }
    assert forall|i: int| 0 <= i < net.buses.len() implies bounds_read(
        m,
        doc,
        #[trigger] net.buses[i],
    ) by {
        if both_bounds(net.buses[i]) is Some {
            lemma_bus_limits(m, net, i);
        }
    }
}

// ---- reading ---------------------------------------------------------------

/// Switches are read with their ratings.
proof fn lemma_switches_plain(
    w: WriterV,
    m: Sem,
    net: DistNetworkV,
    doc: Seq<ObjV>,
    st: StateV,
    ids: Seq<usize>,
    n: nat,
)
    requires
        n <= ids.len(),
        kept(m, net),
        joined(net),
        forall|i: int|
            0 <= i < net.switches.len() ==> switch_reads(m, doc, #[trigger] net.switches[i]),
        forall|j: int|
            0 <= j < ids.len() ==> get_of(
                switches_json(w, m, net.switches, net.switches.len()).1,
                doc[(#[trigger] ids[j]) as int].name,
            ) == Some(JsonV::Obj(doc[ids[j] as int].props)),
    ensures
        plainly(st, switches_n(m, doc, st, ids, n), net.buses),
    decreases n,
{
    if n > 0 {
        lemma_switches_plain(w, m, net, doc, st, ids, (n - 1) as nat);
        let o = doc[ids[n - 1] as int];
        let (i, v) = lemma_switch_entry(w, m, net.switches, o);
        let before = switches_n(m, doc, st, ids, (n - 1) as nat);
        assert(switch_kept(net.switches[i]));
        assert(switch_reads(m, doc, net.switches[i]));
        lemma_switch_rated(v, m, net.switches[i], doc, before, o, net.buses);
    }
}

/// The ampacities of a switch can be read.
pub open spec fn switch_reads(m: Sem, doc: Seq<ObjV>, s: DistSwitchV) -> bool {
    amps_read(m, doc, switch_amps(m, s)) && pair_told(m, switch_amps(m, s))
}

/// The line codes that are read, before the lines rate them.
#[verifier::rlimit(60)]
proof fn lemma_codes_come(m: Sem, net: DistNetworkV)
    requires
        is_frame(m, net),
        named_apart(net),
        kept(m, net),
        collect_of(ravens_document(m, net).1).len() <= usize::MAX,
    ensures
        codes_hold(net, stages(m, collect_of(ravens_document(m, net).1)).coded.net.linecodes),
{
    let root = ravens_document(m, net).1;
    let doc = collect_of(root);
    let kind = "PerLengthPhaseImpedance"@;
    let ids = sorted_kind(doc, kind);
    let first = empty_state().warn(
        "MG-RAVENS carries no system frequency; base_frequency assumes the OpenDSS default (60 Hz)"@,
    );
    let codes = stages(m, doc).coded.net.linecodes;
    lemma_holds_only(m, net);
    lemma_tables(m, net);
    lemma_marks();
    assert(first.net.linecodes.len() == 0) by {
        reveal(StateV::warn);
    }
    lemma_codes_plain(m, doc, first, ids, ids.len());
    assert(codes == linecodes_n(m, doc, first, ids, ids.len()).net.linecodes);
    assert forall|k: int| 0 <= k < codes.len() implies is_code(
        net.linecodes,
        (#[trigger] codes[k]).name,
    ) by {
        let at = lemma_code_origin(m, doc, first, ids, ids.len(), k);
        let o = doc[ids[at] as int];
        lemma_kind_only(doc, Seq::empty(), kind, doc.len(), at);
        let w = unrepresented(fresh_writer(bases_of(m, net)), m, net);
        let (i, v) = lemma_code_entry(w, m, net.linecodes, o);
        assert(code_kept(m, net.linecodes[i]));
        let now = linecodes_n(m, doc, first, ids, at as nat);
        lemma_code_object_is_stable(v, v, m, net.linecodes[i], now, o);
        assert(net.linecodes[i].name == codes[k].name);
    }
    assert forall|i: int| 0 <= i < net.linecodes.len() implies is_code(
        codes,
        (#[trigger] net.linecodes[i]).name,
    ) by {
        let c = net.linecodes[i];
        assert(code_kept(m, c));
        lemma_code_tables(m, net, i);
        let o = get_of(written_tables(m, net).linecodes, c.name)->0->Obj_0;
        lemma_code_found(m, net, c.name, JsonV::Obj(o));
        let at = lemma_typed_object_is_collected(root, code_path(), c.name, o, kind);
        let j = lemma_kind_holds(doc, Seq::empty(), kind, doc.len(), at);
        let k = lemma_code_pushed(m, doc, first, ids, j, c);
        assert(codes[k].name == c.name);
    }
}

/// The record that a load points at is in the document.
proof fn lemma_answered(m: Sem, net: DistNetworkV, i: int)
    requires
        is_frame(m, net),
        named_apart(net),
        0 <= i < net.loads.len(),
        kept(m, net),
    ensures
        answered(m, net, collect_of(ravens_document(m, net).1), net.loads[i]),
{
    let root = ravens_document(m, net).1;
    let doc = collect_of(root);
    let name = response_name(net.loads[i]);
    let class = "LoadResponseCharacteristic"@;
    lemma_reply_tables(m, net, i);
    let all = tables_of(fresh_writer(bases_of(m, net)), m, net).0.responses;
    let record = get_of(all, name)->0->Obj_0;
    lemma_response_found(m, net, name, JsonV::Obj(record));
    let q = lemma_typed_object_is_collected(root, response_path(), name, record, class);
    lemma_response_stands_alone();
    lemma_marks();
    lemma_carries(m, net, class);
    lemma_typed_responses(m, net, name);
    lemma_claimed();
    lemma_still_unambiguous(m, net, class, name);
    lemma_named_is(doc, class, name, q);
}

/// Loads are read plainly.
proof fn lemma_loads_plain(
    w: WriterV,
    m: Sem,
    net: DistNetworkV,
    doc: Seq<ObjV>,
    st: StateV,
    ids: Seq<usize>,
    n: nat,
)
    requires
        n <= ids.len(),
        kept(m, net),
        joined(net),
        forall|i: int| 0 <= i < net.loads.len() ==> answered(m, net, doc, #[trigger] net.loads[i]),
        forall|j: int|
            0 <= j < ids.len() ==> get_of(
                loads_json(w, m, net, net.loads.len()).1,
                doc[(#[trigger] ids[j]) as int].name,
            ) == Some(JsonV::Obj(doc[ids[j] as int].props)),
    ensures
        plainly(st, loads_n(m, doc, st, ids, n), net.buses),
    decreases n,
{
    if n > 0 {
        lemma_loads_plain(w, m, net, doc, st, ids, (n - 1) as nat);
        let o = doc[ids[n - 1] as int];
        let i = lemma_load_entry(w, m, net, o);
        let v = loads_json(w, m, net, i as nat).0;
        let before = loads_n(m, doc, st, ids, (n - 1) as nat);
        assert(load_kept(m, net.loads[i]));
        lemma_load_plain(v, m, net, net.loads[i], doc, before, o, net.buses);
    }
}

/// Shunts are read plainly.
proof fn lemma_shunts_plain(
    w: WriterV,
    m: Sem,
    net: DistNetworkV,
    doc: Seq<ObjV>,
    st: StateV,
    ids: Seq<usize>,
    n: nat,
)
    requires
        n <= ids.len(),
        kept(m, net),
        joined(net),
        w.bases == bases_of(m, net),
        forall|j: int|
            0 <= j < ids.len() ==> get_of(
                shunts_json(w, m, net.shunts, net.shunts.len()).1,
                doc[(#[trigger] ids[j]) as int].name,
            ) == Some(JsonV::Obj(doc[ids[j] as int].props)),
    ensures
        plainly(st, shunts_n(m, doc, st, ids, n), net.buses),
    decreases n,
{
    if n > 0 {
        lemma_shunts_plain(w, m, net, doc, st, ids, (n - 1) as nat);
        let o = doc[ids[n - 1] as int];
        let (i, v) = lemma_shunt_entry(w, m, net.shunts, o);
        let before = shunts_n(m, doc, st, ids, (n - 1) as nat);
        assert(shunt_kept(fresh_writer(bases_of(m, net)), m, net.shunts[i]));
        lemma_kept_with(fresh_writer(bases_of(m, net)), v, m, net.shunts[i]);
        lemma_shunt_plain(v, m, net.shunts[i], doc, before, o, net.buses);
    }
}

/// Generators are read plainly.
proof fn lemma_machines_plain(
    w: WriterV,
    m: Sem,
    net: DistNetworkV,
    doc: Seq<ObjV>,
    st: StateV,
    ids: Seq<usize>,
    n: nat,
)
    requires
        n <= ids.len(),
        kept(m, net),
        joined(net),
        forall|j: int|
            0 <= j < ids.len() ==> get_of(
                machines_json(w, m, net.generators, net.generators.len()).1,
                doc[(#[trigger] ids[j]) as int].name,
            ) == Some(JsonV::Obj(doc[ids[j] as int].props)),
    ensures
        plainly(st, machines_n(m, doc, st, ids, n), net.buses),
    decreases n,
{
    if n > 0 {
        lemma_machines_plain(w, m, net, doc, st, ids, (n - 1) as nat);
        let o = doc[ids[n - 1] as int];
        let (i, v) = lemma_machine_entry(w, m, net.generators, o);
        let before = machines_n(m, doc, st, ids, (n - 1) as nat);
        assert(machine_kept(m, net.generators[i]));
        lemma_machine_plain(v, m, net.generators[i], doc, before, o, net.buses);
    }
}

/// Inverters are read plainly.
proof fn lemma_inverters_plain(
    w: WriterV,
    m: Sem,
    net: DistNetworkV,
    doc: Seq<ObjV>,
    st: StateV,
    ids: Seq<usize>,
    n: nat,
)
    requires
        n <= ids.len(),
        kept(m, net),
        joined(net),
        forall|j: int|
            0 <= j < ids.len() ==> get_of(
                all_electronics_json(w, m, net.ibrs, net.ibrs.len()).1,
                doc[(#[trigger] ids[j]) as int].name,
            ) == Some(JsonV::Obj(doc[ids[j] as int].props)),
    ensures
        plainly(st, electronics_n(m, doc, st, ids, n), net.buses),
    decreases n,
{
    if n > 0 {
        lemma_inverters_plain(w, m, net, doc, st, ids, (n - 1) as nat);
        let o = doc[ids[n - 1] as int];
        let (i, v) = lemma_inverter_entry(w, m, net.ibrs, o);
        let before = electronics_n(m, doc, st, ids, (n - 1) as nat);
        assert(inverter_kept(m, net.ibrs[i]));
        lemma_inverter_plain(v, m, net.ibrs[i], doc, before, o, net.buses);
    }
}

/// Sources are read plainly.
proof fn lemma_sources_plain(
    w: WriterV,
    m: Sem,
    net: DistNetworkV,
    doc: Seq<ObjV>,
    st: StateV,
    ids: Seq<usize>,
    n: nat,
)
    requires
        n <= ids.len(),
        kept(m, net),
        joined(net),
        forall|j: int|
            0 <= j < ids.len() ==> get_of(
                sources_json(w, m, net.sources, net.sources.len()).1,
                doc[(#[trigger] ids[j]) as int].name,
            ) == Some(JsonV::Obj(doc[ids[j] as int].props)),
    ensures
        plainly(st, sources_n(m, doc, st, ids, n), net.buses),
    decreases n,
{
    if n > 0 {
        lemma_sources_plain(w, m, net, doc, st, ids, (n - 1) as nat);
        let o = doc[ids[n - 1] as int];
        let (i, v) = lemma_source_entry(w, m, net.sources, o);
        let before = sources_n(m, doc, st, ids, (n - 1) as nat);
        assert(source_kept(m, net.sources[i]));
        lemma_source_plain(v, m, net.sources[i], doc, before, o, net.buses);
    }
}

/// Keeping what is unclaimed changes nothing else.
proof fn lemma_preserved(doc: Seq<ObjV>, st: StateV)
    requires
        st.net.untyped.len() == 0,
    ensures
        preserve_of(doc, st).net.untyped == kept_objects(doc),
        preserve_of(doc, st).net.linecodes == st.net.linecodes,
{
    reveal(preserve_of);
    let (kept, counts) = kept_n(doc, st, doc.len());
    lemma_keeps_loose(doc, st, doc.len());
    lemma_kept_codes(doc, st, doc.len());
    lemma_kept_warned(kept, counts, counts.len());
}

proof fn lemma_kept_codes(doc: Seq<ObjV>, st: StateV, n: nat)
    ensures
        kept_n(doc, st, n).0.net.linecodes == st.net.linecodes,
    decreases n,
{
    reveal(StateV::push_untyped);
    if n > 0 {
        lemma_kept_codes(doc, st, (n - 1) as nat);
    }
}

/// The untyped objects that are kept of a document.
pub open spec fn kept_objects(doc: Seq<ObjV>) -> Seq<UntypedObjectV> {
    Seq::new(loose(doc).len(), |i: int| untyped_of(loose(doc)[i]))
}

proof fn lemma_buses_plain(m: Sem, doc: Seq<ObjV>, st: StateV, ids: Seq<usize>, n: nat)
    ensures
        ({
            let after = buses_n(m, doc, st, ids, n).0;
            after.nodes == st.nodes && after.net == (DistNetworkV {
                buses: after.net.buses,
                ..st.net
            })
        }),
    decreases n,
{
    if n > 0 {
        lemma_buses_plain(m, doc, st, ids, (n - 1) as nat);
    }
}

proof fn lemma_none_missing(st: StateV, n: nat)
    requires
        n <= st.nodes.len(),
        all_declared(st.nodes, st.net.buses),
    ensures
        missing_n(st, n) == st,
    decreases n,
{
    if n > 0 {
        lemma_none_missing(st, (n - 1) as nat);
        assert(declared(st.net.buses, st.nodes[n - 1].node));
    }
}

/// A bus of the network is read of its node.
proof fn lemma_bus_read(m: Sem, net: DistNetworkV, st: StateV, i: int)
    requires
        is_frame(m, net),
        named_apart(net),
        0 <= i < net.buses.len(),
        collect_of(ravens_document(m, net).1).len() <= usize::MAX,
    ensures
        ({
            let doc = collect_of(ravens_document(m, net).1);
            let ids = sorted_kind(doc, "ConnectivityNode"@);
            declared(buses_n(m, doc, st, ids, ids.len()).0.net.buses, net.buses[i].id)
        }),
{
    let root = ravens_document(m, net).1;
    let doc = collect_of(root);
    let id = net.buses[i].id;
    let t = written_tables(m, net);
    lemma_document_places(m, net);
    lemma_bus_tables(m, net, i);
    let o = get_of(t.nodes, id)->0->Obj_0;
    let path = node_path();
    lemma_typed_place_stays(m, net, path, id);
    reveal_with_fuel(found_at, 3);
    assert(found_at(root, path, 0, id) == Some(JsonV::Obj(o)));
    let k = lemma_typed_object_is_collected(root, path, id, o, "ConnectivityNode"@);
    let j = lemma_kind_holds(doc, Seq::empty(), "ConnectivityNode"@, doc.len(), k);
    let ids = sorted_kind(doc, "ConnectivityNode"@);
    let b = lemma_bus_pushed(m, doc, st, ids, ids.len(), j, net.buses[i]);
    assert(buses_n(m, doc, st, ids, ids.len()).0.net.buses[b].id == id);
}

proof fn lemma_declared_through(s: Seq<NodeUseV>, a: Seq<DistBusV>, b: Seq<DistBusV>)
    requires
        all_declared(s, a),
        forall|i: int| 0 <= i < a.len() ==> declared(b, (#[trigger] a[i]).id),
    ensures
        all_declared(s, b),
{
    assert forall|k: int| 0 <= k < s.len() implies declared(b, (#[trigger] s[k]).node) by {
        assert(declared(a, s[k].node));
        let i = choose|i: int| 0 <= i < a.len() && (#[trigger] a[i]).id == s[k].node;
        assert(declared(b, a[i].id));
    }
}

/// The states of the reader after each family of a frame.
pub struct FrameV {
    pub coded: StateV,
    pub lined: StateV,
    pub switched: StateV,
    pub loaded: StateV,
    pub shunted: StateV,
    pub driven: StateV,
    pub inverted: StateV,
    pub fed: StateV,
    pub wound: StateV,
}

/// What the reader makes of the document of a frame: each family is read of its
/// own objects, and nothing is left over.
pub open spec fn reads_frame(m: Sem, doc: Seq<ObjV>, back: DistNetworkV, g: FrameV) -> bool {
    let codes = sorted_kind(doc, "PerLengthPhaseImpedance"@);
    let lines = sorted_kind(doc, "ACLineSegment"@);
    let loads = sorted_kind(doc, "EnergyConsumer"@);
    let shunts = sorted_kind(doc, "LinearShuntCompensator"@);
    let inverters = sorted_kind(doc, "PowerElectronicsConnection"@);
    let sources = sorted_kind(doc, "EnergySource"@);
    let tanks = sorted_kind(doc, "TransformerTank"@);
    let nodes = sorted_kind(doc, "ConnectivityNode"@);
    let first = empty_state().warn(
        "MG-RAVENS carries no system frequency; base_frequency assumes the OpenDSS default (60 Hz)"@,
    );
    &&& g.coded == linecodes_n(m, doc, first, codes, codes.len())
    &&& g.lined == lines_n(m, doc, g.coded, lines, lines.len())
    &&& g.switched == switches_n(m, doc, g.lined, switch_ids(doc), switch_ids(doc).len())
    &&& g.loaded == loads_n(m, doc, g.switched, loads, loads.len())
    &&& g.shunted == shunts_n(m, doc, g.loaded, shunts, shunts.len())
    &&& g.driven == machines_n(m, doc, g.shunted, machine_ids(doc), machine_ids(doc).len())
    &&& g.inverted == electronics_n(m, doc, g.driven, inverters, inverters.len())
    &&& g.fed == sources_n(m, doc, g.inverted, sources, sources.len())
    &&& g.wound == tanks_n(m, doc, g.fed, tanks, tanks.len())
    &&& back.linecodes == g.lined.net.linecodes
    &&& back.lines == g.lined.net.lines
    &&& back.switches == g.switched.net.switches
    &&& back.loads == g.loaded.net.loads
    &&& back.shunts == g.shunted.net.shunts
    &&& back.generators == g.driven.net.generators
    &&& back.ibrs == g.inverted.net.ibrs
    &&& back.sources == g.fed.net.sources
    &&& back.transformers == g.wound.net.transformers
    &&& back.buses == buses_n(m, doc, g.wound, nodes, nodes.len()).0.net.buses
    &&& g.coded.net.lines.len() == 0
    &&& g.lined.net.switches.len() == 0
    &&& g.switched.net.loads.len() == 0
    &&& g.loaded.net.shunts.len() == 0
    &&& g.shunted.net.generators.len() == 0
    &&& g.driven.net.ibrs.len() == 0
    &&& g.inverted.net.sources.len() == 0
    &&& g.fed.net.transformers.len() == 0
    &&& g.wound.net.buses.len() == 0
    &&& first.net.linecodes.len() == 0
    &&& back.untyped == kept_objects(doc)
}

/// A document of which every object is of a kind that is named by letters.
pub open spec fn worded(doc: Seq<ObjV>) -> bool {
    forall|i: int| 0 <= i < doc.len() ==> is_word((#[trigger] doc[i]).kind)
}

/// The line codes that come back: those of the network, with the ratings of the
/// lines that stand for them.
pub open spec fn codes_again(m: Sem, net: DistNetworkV, doc: Seq<ObjV>, g: FrameV) -> bool {
    let ids = sorted_kind(doc, "ACLineSegment"@);
    let codes = g.lined.net.linecodes;
    &&& codes_hold(net, codes)
    &&& same_codes(g.coded.net.linecodes, codes)
    &&& forall|i: int|
        0 <= i < net.lines.len() && was_read(doc, ids, ids.len(), (#[trigger] net.lines[i]).name)
            ==> code_settled(m, net, codes, net.lines[i])
}

/// Each family of a frame is read plainly.
#[verifier::rlimit(60)]
proof fn lemma_families_plain(m: Sem, net: DistNetworkV)
    requires
        is_frame(m, net),
        named_apart(net),
        joined(net),
        kept(m, net),
        limits_kept(m, net),
        collect_of(ravens_document(m, net).1).len() <= usize::MAX,
    ensures
        ({
            let g = stages(m, collect_of(ravens_document(m, net).1));
            &&& typedly(g.coded, g.lined, net.buses)
            &&& codes_again(
                m,
                net,
                collect_of(ravens_document(m, net).1),
                FrameV {
                    coded: g.coded,
                    lined: g.lined,
                    switched: g.switched,
                    loaded: g.loaded,
                    shunted: g.shunted,
                    driven: g.driven,
                    inverted: g.inverted,
                    fed: g.fed,
                    wound: g.wound,
                },
            )
            &&& plainly(g.lined, g.switched, net.buses)
            &&& plainly(g.switched, g.loaded, net.buses)
            &&& plainly(g.loaded, g.shunted, net.buses)
            &&& plainly(g.shunted, g.driven, net.buses)
            &&& plainly(g.driven, g.inverted, net.buses)
            &&& plainly(g.inverted, g.fed, net.buses)
            &&& plainly(g.fed, g.wound, net.buses)
        }),
{
    let doc = collect_of(ravens_document(m, net).1);
    let g = stages(m, doc);
    lemma_holds_only(m, net);
    lemma_tables(m, net);
    lemma_marks();
    let lines = sorted_kind(doc, "ACLineSegment"@);
    assert forall|j: int| 0 <= j < lines.len() implies get_of(
        written_tables(m, net).lines,
        doc[(#[trigger] lines[j]) as int].name,
    ) == Some(JsonV::Obj(doc[lines[j] as int].props)) by {
        lemma_kind_only(doc, Seq::empty(), "ACLineSegment"@, doc.len(), j);
    }
    lemma_limits_read(m, net);
    lemma_codes_come(m, net);
    assert forall|i: int| 0 <= i < net.lines.len() implies line_reads(
        m,
        net,
        doc,
        #[trigger] net.lines[i],
    ) by {
        assert(line_kept(m, net.lines[i]));
        assert(line_rated(m, net, net.lines[i]));
        assert(amps_read(m, doc, line_amps(m, net, net.lines[i])));
    }
    lemma_lines_rated(line_writer(m, net), m, net, doc, g.coded, lines, lines.len());
    assert forall|i: int| 0 <= i < net.switches.len() implies switch_reads(
        m,
        doc,
        #[trigger] net.switches[i],
    ) by {
        assert(amps_told(m, net, switch_amps(m, net.switches[i])));
        assert(amps_read(m, doc, switch_amps(m, net.switches[i])));
    }
    let switches = switch_ids(doc);
    assert forall|j: int| 0 <= j < switches.len() implies get_of(
        written_tables(m, net).switches,
        doc[(#[trigger] switches[j]) as int].name,
    ) == Some(JsonV::Obj(doc[switches[j] as int].props)) by {
        lemma_switch_ids(doc, j);
    }
    lemma_switches_plain(switch_writer(m, net), m, net, doc, g.lined, switches, switches.len());
    let loads = sorted_kind(doc, "EnergyConsumer"@);
    assert forall|j: int| 0 <= j < loads.len() implies get_of(
        written_tables(m, net).loads,
        doc[(#[trigger] loads[j]) as int].name,
    ) == Some(JsonV::Obj(doc[loads[j] as int].props)) by {
        lemma_kind_only(doc, Seq::empty(), "EnergyConsumer"@, doc.len(), j);
    }
    assert forall|i: int| 0 <= i < net.loads.len() implies answered(
        m,
        net,
        doc,
        #[trigger] net.loads[i],
    ) by {
        lemma_answered(m, net, i);
    }
    lemma_loads_plain(load_writer(m, net), m, net, doc, g.switched, loads, loads.len());
    let sources = sorted_kind(doc, "EnergySource"@);
    assert forall|j: int| 0 <= j < sources.len() implies get_of(
        written_tables(m, net).sources,
        doc[(#[trigger] sources[j]) as int].name,
    ) == Some(JsonV::Obj(doc[sources[j] as int].props)) by {
        lemma_kind_only(doc, Seq::empty(), "EnergySource"@, doc.len(), j);
    }
    let shunts = sorted_kind(doc, "LinearShuntCompensator"@);
    assert forall|j: int| 0 <= j < shunts.len() implies get_of(
        written_tables(m, net).shunts,
        doc[(#[trigger] shunts[j]) as int].name,
    ) == Some(JsonV::Obj(doc[shunts[j] as int].props)) by {
        lemma_kind_only(doc, Seq::empty(), "LinearShuntCompensator"@, doc.len(), j);
    }
    lemma_kept_quiet(m, net);
    lemma_gathers(m, net);
    lemma_shunts_plain(shunt_writer(m, net), m, net, doc, g.loaded, shunts, shunts.len());
    let machines = machine_ids(doc);
    assert forall|j: int| 0 <= j < machines.len() implies get_of(
        written_tables(m, net).machines,
        doc[(#[trigger] machines[j]) as int].name,
    ) == Some(JsonV::Obj(doc[machines[j] as int].props)) by {
        lemma_machine_ids(doc, j);
    }
    lemma_machines_plain(machine_writer(m, net), m, net, doc, g.shunted, machines, machines.len());
    let inverters = sorted_kind(doc, "PowerElectronicsConnection"@);
    assert forall|j: int| 0 <= j < inverters.len() implies get_of(
        written_tables(m, net).electronics,
        doc[(#[trigger] inverters[j]) as int].name,
    ) == Some(JsonV::Obj(doc[inverters[j] as int].props)) by {
        lemma_kind_only(doc, Seq::empty(), "PowerElectronicsConnection"@, doc.len(), j);
    }
    lemma_inverters_plain(
        inverter_writer(m, net),
        m,
        net,
        doc,
        g.driven,
        inverters,
        inverters.len(),
    );
    lemma_sources_plain(source_writer(m, net), m, net, doc, g.inverted, sources, sources.len());
    lemma_all_read(m, net);
    lemma_tanks_plain(
        coil_writer(m, net),
        m,
        net.transformers,
        doc,
        g.fed,
        sorted_kind(doc, "TransformerTank"@).len(),
        net.buses,
    );
}

/// Each tank finds its transformer and its datasheet.
#[verifier::rlimit(40)]
proof fn lemma_all_read(m: Sem, net: DistNetworkV)
    requires
        is_frame(m, net),
        named_apart(net),
        kept(m, net),
    ensures
        all_read(
            coil_writer(m, net),
            m,
            net.transformers,
            collect_of(ravens_document(m, net).1),
        ),
{
    let doc = collect_of(ravens_document(m, net).1);
    let t = written_tables(m, net);
    lemma_tables(m, net);
    lemma_tanks(m, net);
    lemma_marks();
    lemma_carries(m, net, "TransformerTankInfo"@);
    lemma_carries(m, net, "PowerTransformer"@);
    assert forall|i: int| 0 <= i < net.transformers.len() implies transformer_kept(
        m,
        #[trigger] net.transformers[i],
    ) && tank_reads(m, doc, t.transformers, t.assets, net.transformers[i]) by {
        let xf = net.transformers[i];
        assert(transformer_kept(m, xf));
        lemma_typed_lookups(m, net, "TransformerTankInfo"@, sheet_name(xf.name));
        lemma_typed_lookups(m, net, "PowerTransformer"@, xf.name);
        lemma_claimed();
        lemma_still_unambiguous(m, net, "TransformerTankInfo"@, sheet_name(xf.name));
        lemma_still_unambiguous(m, net, "PowerTransformer"@, xf.name);
        lemma_tank_lookups(m, net, i);
    }
}

#[verifier::rlimit(60)]
proof fn lemma_reads_frame(m: Sem, net: DistNetworkV) -> (r: FrameV)
    requires
        is_frame(m, net),
        named_apart(net),
        joined(net),
        kept(m, net),
        limits_kept(m, net),
        collect_of(ravens_document(m, net).1).len() <= usize::MAX,
    ensures
        reads_frame(
            m,
            collect_of(ravens_document(m, net).1),
            run_of(m, collect_of(ravens_document(m, net).1)).net,
            r,
        ),
        codes_again(m, net, collect_of(ravens_document(m, net).1), r),
{
    let doc = collect_of(ravens_document(m, net).1);
    let g = stages(m, doc);
    let first = empty_state().warn(
        "MG-RAVENS carries no system frequency; base_frequency assumes the OpenDSS default (60 Hz)"@,
    );
    reveal(StateV::warn);
    let codes = sorted_kind(doc, "PerLengthPhaseImpedance"@);
    lemma_codes_plain(m, doc, first, codes, codes.len());
    lemma_families_plain(m, net);
    let s = g.wound;
    assert(all_declared(s.nodes, net.buses));
    let nodes = sorted_kind(doc, "ConnectivityNode"@);
    let done = buses_n(m, doc, s, nodes, nodes.len()).0;
    lemma_buses_plain(m, doc, s, nodes, nodes.len());
    assert forall|i: int| 0 <= i < net.buses.len() implies declared(
        done.net.buses,
        (#[trigger] net.buses[i]).id,
    ) by {
        lemma_bus_read(m, net, s, i);
    }
    lemma_declared_through(done.nodes, net.buses, done.net.buses);
    lemma_none_missing(done, done.nodes.len());
    reveal(finish_buses_of);
    assert(g.housed == done);
    reveal(run_of);
    reveal(mapped_of);
    assert(run_of(m, doc) == preserve_of(doc, done));
    lemma_preserved(doc, done);
    lemma_lists(m, doc);
    FrameV {
        coded: g.coded,
        lined: g.lined,
        switched: g.switched,
        loaded: g.loaded,
        shunted: g.shunted,
        driven: g.driven,
        inverted: g.inverted,
        fed: g.fed,
        wound: g.wound,
    }
}

/// A network has the elements that are read of a written document.
pub open spec fn is_read(m: Sem, net: DistNetworkV, back: DistNetworkV) -> bool {
    &&& ravens_value(m, JsonV::Obj(ravens_document(m, net).1)) matches Ok(b)
    &&& b.buses == back.buses
    &&& b.linecodes == back.linecodes
    &&& b.lines == back.lines
    &&& b.switches == back.switches
    &&& b.loads == back.loads
    &&& b.shunts == back.shunts
    &&& b.generators == back.generators
    &&& b.ibrs == back.ibrs
    &&& b.sources == back.sources
    &&& b.transformers == back.transformers
}

// ---- bases -----------------------------------------------------------------

/// What is read of a frame has the bases of the frame.
#[verifier::rlimit(60)]
proof fn lemma_bases_again(m: Sem, net: DistNetworkV, back: DistNetworkV, g: FrameV)
    requires
        is_frame(m, net),
        named_apart(net),
        joined(net),
        kept(m, net),
        collect_of(ravens_document(m, net).1).len() <= usize::MAX,
        is_read(m, net, back),
        reads_frame(m, collect_of(ravens_document(m, net).1), back, g),
        is_bases(claims_of(m, net), edges_of(net), best_claims(m, net)),
    ensures
        bases_of(m, back) == bases_of(m, net),
{
    let doc = collect_of(ravens_document(m, net).1);
    lemma_holds_only(m, net);
    lemma_tables(m, net);
    lemma_marks();
    assert forall|i: int| 0 <= i < net.lines.len() implies joins(
        back.lines,
        #[trigger] net.lines[i],
    ) by {
        assert(line_kept(m, net.lines[i]));
        lemma_lines_survive(m, net, i);
    }
    assert forall|k: int| 0 <= k < back.lines.len() implies joins(
        net.lines,
        #[trigger] back.lines[k],
    ) by {
        let lines = sorted_kind(doc, "ACLineSegment"@);
        let j = lemma_line_origin(m, doc, g.coded, lines, lines.len(), k);
        let o = doc[lines[j] as int];
        lemma_kind_only(doc, Seq::empty(), "ACLineSegment"@, doc.len(), j);
        let (i, v) = lemma_line_entry(line_writer(m, net), m, net, o);
        assert(line_kept(m, net.lines[i]));
        lemma_line_says(v, m, net, net.lines[i]);
        lemma_line_step(m, doc, lines_n(m, doc, g.coded, lines, j as nat), o, net.lines[i]);
        assert(net.lines[i].bus_from == back.lines[k].bus_from);
    }
    assert forall|i: int| 0 <= i < net.switches.len() implies bridges(
        back.switches,
        #[trigger] net.switches[i],
    ) by {
        lemma_switches_survive(m, net, i);
    }
    assert forall|k: int| 0 <= k < back.switches.len() implies bridges(
        net.switches,
        #[trigger] back.switches[k],
    ) by {
        let switches = switch_ids(doc);
        let j = lemma_switch_origin(m, doc, g.lined, switches, switches.len(), k);
        let o = doc[switches[j] as int];
        lemma_switch_ids(doc, j);
        let (i, v) = lemma_switch_entry(switch_writer(m, net), m, net.switches, o);
        lemma_switch_says(v, m, net.switches[i]);
        lemma_switch_step(
            m,
            doc,
            switches_n(m, doc, g.lined, switches, j as nat),
            o,
            net.switches[i],
        );
        assert(net.switches[i].bus_from == back.switches[k].bus_from);
    }
    assert forall|k: int| 0 <= k < back.sources.len() implies claims_as(
        m,
        net.sources,
        #[trigger] back.sources[k],
    ) by {
        let i = lemma_source_comes(m, net, back, g, k);
        assert(source_claim(m, net.sources[i]) == source_claim(m, back.sources[k]));
    }
    assert forall|i: int| 0 <= i < net.sources.len() implies claims_as(
        m,
        back.sources,
        #[trigger] net.sources[i],
    ) by {
        lemma_sources_survive(m, net, i);
        let k = choose|k: int|
            0 <= k < back.sources.len() && comes_of_source(
                m,
                #[trigger] back.sources[k],
                net.sources[i],
            );
        let h = lemma_source_comes(m, net, back, g, k);
        assert(net.sources[h].name == net.sources[i].name);
        assert(h == i);
        assert(source_claim(m, back.sources[k]) == source_claim(m, net.sources[i]));
    }
    lemma_coils_come(m, net, back, g);
    assert forall|k: int| 0 <= k < back.transformers.len() implies wound_as(
        m,
        net.transformers,
        #[trigger] back.transformers[k],
    ) by {
        let i = lemma_coil_comes(m, net, back, g, k);
        assert(wound_alike(m, back.transformers[k].windings, net.transformers[i].windings));
    }
    lemma_bases_alike(m, net, back);
}

/// A transformer that is read comes of a transformer of the network.
proof fn lemma_coil_comes(m: Sem, net: DistNetworkV, back: DistNetworkV, g: FrameV, k: int) -> (i:
    int)
    requires
        is_frame(m, net),
        named_apart(net),
        kept(m, net),
        collect_of(ravens_document(m, net).1).len() <= usize::MAX,
        reads_frame(m, collect_of(ravens_document(m, net).1), back, g),
        0 <= k < back.transformers.len(),
    ensures
        0 <= i < net.transformers.len(),
        same_transformer(m, net.transformers[i], back.transformers[k]),
        wound_alike(m, net.transformers[i].windings, back.transformers[k].windings),
{
    let doc = collect_of(ravens_document(m, net).1);
    lemma_all_read(m, net);
    let i = lemma_transformer_source(
        coil_writer(m, net),
        m,
        net.transformers,
        doc,
        g.fed,
        k,
    );
    let a = net.transformers[i];
    let b = back.transformers[k];
    assert forall|h: int| 0 <= h < a.windings.len() implies winding_claim(
        m,
        #[trigger] a.windings[h],
    ) == winding_claim(m, b.windings[h]) by {
        lemma_claims_again(m, a, b, h);
    }
    i
}

/// Each transformer of the network is read.
proof fn lemma_coil_survives(m: Sem, net: DistNetworkV, back: DistNetworkV, i: int)
    requires
        is_frame(m, net),
        named_apart(net),
        kept(m, net),
        collect_of(ravens_document(m, net).1).len() <= usize::MAX,
        is_read(m, net, back),
        0 <= i < net.transformers.len(),
    ensures
        exists|k: int|
            0 <= k < back.transformers.len() && comes_of_transformer(
                m,
                #[trigger] back.transformers[k],
                net.transformers[i],
            ),
{
    let xf = net.transformers[i];
    assert(transformer_kept(m, xf));
    lemma_marks();
    lemma_carries(m, net, "TransformerTankInfo"@);
    lemma_carries(m, net, "PowerTransformer"@);
    lemma_typed_lookups(m, net, "TransformerTankInfo"@, sheet_name(xf.name));
    lemma_typed_lookups(m, net, "PowerTransformer"@, xf.name);
    lemma_claimed();
    lemma_still_unambiguous(m, net, "TransformerTankInfo"@, sheet_name(xf.name));
    lemma_still_unambiguous(m, net, "PowerTransformer"@, xf.name);
    lemma_transformers_survive(m, net, i);
}

/// The windings of each transformer claim the same of what is read.
proof fn lemma_coils_come(m: Sem, net: DistNetworkV, back: DistNetworkV, g: FrameV)
    requires
        is_frame(m, net),
        named_apart(net),
        kept(m, net),
        collect_of(ravens_document(m, net).1).len() <= usize::MAX,
        is_read(m, net, back),
        reads_frame(m, collect_of(ravens_document(m, net).1), back, g),
    ensures
        forall|i: int|
            0 <= i < net.transformers.len() ==> wound_as(
                m,
                back.transformers,
                #[trigger] net.transformers[i],
            ),
{
    assert forall|i: int| 0 <= i < net.transformers.len() implies wound_as(
        m,
        back.transformers,
        #[trigger] net.transformers[i],
    ) by {
        lemma_coil_survives(m, net, back, i);
        let k = choose|k: int|
            0 <= k < back.transformers.len() && comes_of_transformer(
                m,
                #[trigger] back.transformers[k],
                net.transformers[i],
            );
        let h = lemma_coil_comes(m, net, back, g, k);
        assert(net.transformers[h].name == net.transformers[i].name);
        if h < i {
            assert(net.transformers[h].name != net.transformers[i].name);
        } else if i < h {
            assert(net.transformers[i].name != net.transformers[h].name);
        }
        assert(wound_alike(m, net.transformers[i].windings, back.transformers[k].windings));
    }
}

/// A source that is read comes of a source of the network, with its claim.
#[verifier::rlimit(40)]
proof fn lemma_source_comes(m: Sem, net: DistNetworkV, back: DistNetworkV, g: FrameV, k: int) -> (i:
    int)
    requires
        is_frame(m, net),
        kept(m, net),
        collect_of(ravens_document(m, net).1).len() <= usize::MAX,
        reads_frame(m, collect_of(ravens_document(m, net).1), back, g),
        0 <= k < back.sources.len(),
    ensures
        0 <= i < net.sources.len(),
        net.sources[i].name == back.sources[k].name,
        source_claim(m, net.sources[i]) == source_claim(m, back.sources[k]),
{
    let doc = collect_of(ravens_document(m, net).1);
    lemma_holds_only(m, net);
    lemma_tables(m, net);
    lemma_marks();
    let ids = sorted_kind(doc, "EnergySource"@);
    let j = lemma_source_origin(m, doc, g.inverted, ids, ids.len(), k);
    let o = doc[ids[j] as int];
    lemma_kind_only(doc, Seq::empty(), "EnergySource"@, doc.len(), j);
    let (i, v) = lemma_source_entry(source_writer(m, net), m, net.sources, o);
    assert(source_kept(m, net.sources[i]));
    let now = sources_n(m, doc, g.inverted, ids, j as nat);
    lemma_source_object_is_stable(v, v, m, net.sources[i], doc, now, o);
    i
}

// ---- limits ----------------------------------------------------------------

/// The ampacities that are read are those that were written.
#[verifier::rlimit(60)]
proof fn lemma_same_amps(m: Sem, net: DistNetworkV, back: DistNetworkV, g: FrameV)
    requires
        is_frame(m, net),
        named_apart(net),
        joined(net),
        kept(m, net),
        limits_kept(m, net),
        collect_of(ravens_document(m, net).1).len() <= usize::MAX,
        reads_frame(m, collect_of(ravens_document(m, net).1), back, g),
        codes_again(m, net, collect_of(ravens_document(m, net).1), g),
    ensures
        same_amps(m, net, back),
{
    let doc = collect_of(ravens_document(m, net).1);
    lemma_holds_only(m, net);
    lemma_tables(m, net);
    lemma_limits_read(m, net);
    lemma_marks();
    let lines = sorted_kind(doc, "ACLineSegment"@);
    assert forall|i: int, k: int|
        0 <= i < net.lines.len() && 0 <= k < back.lines.len() && (#[trigger] net.lines[i]).name == (
        #[trigger] back.lines[k]).name implies line_amps(m, net, net.lines[i]) == line_amps(
        m,
        back,
        back.lines[k],
    ) by {
        let j = lemma_line_origin(m, doc, g.coded, lines, lines.len(), k);
        let o = doc[lines[j] as int];
        lemma_kind_only(doc, Seq::empty(), "ACLineSegment"@, doc.len(), j);
        let (h, v) = lemma_line_entry(line_writer(m, net), m, net, o);
        assert(line_kept(m, net.lines[h]));
        assert(line_rated(m, net, net.lines[h]));
        assert(amps_read(m, doc, line_amps(m, net, net.lines[h])));
        let now = lines_n(m, doc, g.coded, lines, j as nat);
        lemma_line_rated(v, m, net, net.lines[h], doc, now, o, net.buses);
        assert(was_read(doc, lines, lines.len(), net.lines[h].name));
        lemma_amps_again(m, net, back, net.lines[h], back.lines[k]);
        if i < h {
            assert(net.lines[i].name != net.lines[h].name);
        } else if h < i {
            assert(net.lines[h].name != net.lines[i].name);
        }
    }
    let switches = switch_ids(doc);
    assert forall|i: int, k: int|
        0 <= i < net.switches.len() && 0 <= k < back.switches.len() && (
        #[trigger] net.switches[i]).name == (#[trigger] back.switches[k]).name implies switch_amps(
        m,
        net.switches[i],
    ) == switch_amps(m, back.switches[k]) by {
        let j = lemma_switch_origin(m, doc, g.lined, switches, switches.len(), k);
        let o = doc[switches[j] as int];
        lemma_switch_ids(doc, j);
        let (h, v) = lemma_switch_entry(switch_writer(m, net), m, net.switches, o);
        assert(switch_kept(net.switches[h]));
        assert(amps_told(m, net, switch_amps(m, net.switches[h])));
        assert(amps_read(m, doc, switch_amps(m, net.switches[h])));
        let now = switches_n(m, doc, g.lined, switches, j as nat);
        lemma_switch_rated(v, m, net.switches[h], doc, now, o, net.buses);
        if i < h {
            assert(net.switches[i].name != net.switches[h].name);
        } else if h < i {
            assert(net.switches[h].name != net.switches[i].name);
        }
    }
}

/// The buses are read of their table.
proof fn lemma_nodes_come(m: Sem, net: DistNetworkV, back: DistNetworkV, g: FrameV)
    requires
        is_frame(m, net),
        limits_kept(m, net),
        collect_of(ravens_document(m, net).1).len() <= usize::MAX,
        reads_frame(m, collect_of(ravens_document(m, net).1), back, g),
    ensures
        nodes_come(
            node_writer(m, net),
            m,
            net.buses,
            back.buses,
            collect_of(ravens_document(m, net).1),
            g.wound,
        ),
{
    lemma_holds_only(m, net);
    lemma_tables(m, net);
    lemma_limits_read(m, net);
}

proof fn lemma_bus_found(s: Seq<DistBusV>, id: Seq<char>, i: int)
    requires
        0 <= i,
    ensures
        bus_from(s, id, i) matches Some(b) ==> exists|k: int|
            i <= k < s.len() && #[trigger] s[k] == b && lower_of(s[k].id) == lower_of(id),
        bus_from(s, id, i) is None ==> forall|k: int|
            i <= k < s.len() ==> lower_of((#[trigger] s[k]).id) != lower_of(id),
    decreases s.len() - i,
{
    if i < s.len() {
        lemma_bus_found(s, id, i + 1);
        if lower_of(s[i].id) == lower_of(id) {
            assert(s[i] == bus_from(s, id, i)->0);
        } else if bus_from(s, id, i) is Some {
            let k = choose|k: int|
                i + 1 <= k < s.len() && #[trigger] s[k] == bus_from(s, id, i + 1)->0 && lower_of(
                    s[k].id,
                ) == lower_of(id);
            assert(s[k] == bus_from(s, id, i)->0);
        }
    }
}

/// The bounds that are read are those that were written.
#[verifier::rlimit(60)]
proof fn lemma_same_bounds(m: Sem, net: DistNetworkV, back: DistNetworkV, g: FrameV)
    requires
        is_frame(m, net),
        named_apart(net),
        limits_kept(m, net),
        collect_of(ravens_document(m, net).1).len() <= usize::MAX,
        is_read(m, net, back),
        reads_frame(m, collect_of(ravens_document(m, net).1), back, g),
    ensures
        same_bounds(net, back),
{
    let doc = collect_of(ravens_document(m, net).1);
    let w = node_writer(m, net);
    lemma_nodes_come(m, net, back, g);
    assert forall|bus: Seq<char>| #[trigger] bounds_at(net, bus) == bounds_at(back, bus) by {
        lemma_bus_found(net.buses, bus, 0);
        lemma_bus_found(back.buses, bus, 0);
        if let Some(b) = back.bus(bus) {
            let k = choose|k: int|
                0 <= k < back.buses.len() && #[trigger] back.buses[k] == b && lower_of(
                    back.buses[k].id,
                ) == lower_of(bus);
            let i = lemma_node_again(w, w, m, net.buses, back.buses, doc, g.wound, k);
            assert(lower_of(net.buses[i].id) == lower_of(bus));
            let h = choose|h: int|
                0 <= h < net.buses.len() && #[trigger] net.buses[h] == net.bus(bus)->0 && lower_of(
                    net.buses[h].id,
                ) == lower_of(bus);
            if h < i {
                assert(lower_of(net.buses[h].id) != lower_of(net.buses[i].id));
            } else if i < h {
                assert(lower_of(net.buses[i].id) != lower_of(net.buses[h].id));
            }
        } else if let Some(a) = net.bus(bus) {
            let h = choose|h: int|
                0 <= h < net.buses.len() && #[trigger] net.buses[h] == a && lower_of(
                    net.buses[h].id,
                ) == lower_of(bus);
            lemma_buses_survive(m, net, h);
            let k = choose|k: int|
                0 <= k < back.buses.len() && comes_of_bus(#[trigger] back.buses[k], net.buses[h]);
            assert(lower_of(back.buses[k].id) == lower_of(bus));
        }
    }
}

/// What is read asks for the sets that were written.
#[verifier::rlimit(80)]
proof fn lemma_asks_again(m: Sem, net: DistNetworkV, back: DistNetworkV, g: FrameV)
    requires
        is_frame(m, net),
        named_apart(net),
        joined(net),
        kept(m, net),
        limits_kept(m, net),
        collect_of(ravens_document(m, net).1).len() <= usize::MAX,
        is_read(m, net, back),
        reads_frame(m, collect_of(ravens_document(m, net).1), back, g),
        same_amps(m, net, back),
        same_bounds(net, back),
        bases_of(m, back) == bases_of(m, net),
        loads_come(
            load_writer(m, net),
            m,
            net,
            back,
            collect_of(ravens_document(m, net).1),
            g.switched,
        ),
    ensures
        limits_again(m, net, back),
{
    let w = fresh_writer(bases_of(m, net));
    let a = asks(m, net);
    let b = asks(m, back);
    assert forall|i: int| 0 <= i < b.len() implies a.contains(#[trigger] b[i]) by {
        let x = b[i];
        assert(b.contains(x));
        lemma_asks(w, m, back, x);
        lemma_asks(w, m, net, x);
        lemma_wants_back(m, net, back, g, x);
    }
    assert forall|i: int| 0 <= i < a.len() implies b.contains(#[trigger] a[i]) by {
        let x = a[i];
        assert(a.contains(x));
        lemma_asks(w, m, back, x);
        lemma_asks(w, m, net, x);
        lemma_wants_again(m, net, back, g, x);
    }
    assert(asks_agree(m, b)) by {
        assert forall|x: AskV, y: AskV| #[trigger]
            b.contains(x) && #[trigger] b.contains(y) && ask_name(m, x) == ask_name(m, y) implies x
            == y by {
            let i = choose|i: int| 0 <= i < b.len() && b[i] == x;
            let j = choose|j: int| 0 <= j < b.len() && b[j] == y;
            assert(a.contains(b[i]) && a.contains(b[j]));
        }
    }
}

/// Whatever what is read asks for, the network asked for.
#[verifier::rlimit(60)]
proof fn lemma_wants_back(m: Sem, net: DistNetworkV, back: DistNetworkV, g: FrameV, x: AskV)
    requires
        is_frame(m, net),
        kept(m, net),
        limits_kept(m, net),
        collect_of(ravens_document(m, net).1).len() <= usize::MAX,
        reads_frame(m, collect_of(ravens_document(m, net).1), back, g),
        same_amps(m, net, back),
        same_bounds(net, back),
        loads_come(
            load_writer(m, net),
            m,
            net,
            back,
            collect_of(ravens_document(m, net).1),
            g.switched,
        ),
        wants(fresh_writer(bases_of(m, net)), m, back, x),
    ensures
        wants(fresh_writer(bases_of(m, net)), m, net, x),
{
    let w = fresh_writer(bases_of(m, net));
    let doc = collect_of(ravens_document(m, net).1);
    lemma_holds_only(m, net);
    lemma_tables(m, net);
    lemma_marks();
    if line_wants(m, back, back.lines.len(), x) {
        let k = choose|k: int|
            0 <= k < back.lines.len() && amps_ask(
                line_amps(m, back, #[trigger] back.lines[k]),
            ) == Some(x);
        let lines = sorted_kind(doc, "ACLineSegment"@);
        let j = lemma_line_origin(m, doc, g.coded, lines, lines.len(), k);
        let o = doc[lines[j] as int];
        lemma_kind_only(doc, Seq::empty(), "ACLineSegment"@, doc.len(), j);
        let (h, v) = lemma_line_entry(line_writer(m, net), m, net, o);
        assert(line_kept(m, net.lines[h]));
        lemma_line_says(v, m, net, net.lines[h]);
        lemma_line_step(m, doc, lines_n(m, doc, g.coded, lines, j as nat), o, net.lines[h]);
        assert(net.lines[h].name == back.lines[k].name);
        assert(amps_ask(line_amps(m, net, net.lines[h])) == Some(x));
    } else if switch_wants(m, back.switches, back.switches.len(), x) {
        let k = choose|k: int|
            0 <= k < back.switches.len() && amps_ask(
                switch_amps(m, #[trigger] back.switches[k]),
            ) == Some(x);
        let switches = switch_ids(doc);
        let j = lemma_switch_origin(m, doc, g.lined, switches, switches.len(), k);
        let o = doc[switches[j] as int];
        lemma_switch_ids(doc, j);
        let (h, v) = lemma_switch_entry(switch_writer(m, net), m, net.switches, o);
        lemma_switch_says(v, m, net.switches[h]);
        lemma_switch_step(
            m,
            doc,
            switches_n(m, doc, g.lined, switches, j as nat),
            o,
            net.switches[h],
        );
        assert(net.switches[h].name == back.switches[k].name);
        assert(amps_ask(switch_amps(m, net.switches[h])) == Some(x));
    } else if load_wants(w, back, back.loads.len(), x) {
        let k = choose|k: int|
            0 <= k < back.loads.len() && volts_ask(
                bounds_at(back, (#[trigger] back.loads[k]).bus),
                w.base_of(back.loads[k].bus),
            ) == Some(x);
        lemma_all_alike(load_writer(m, net), m, net, back, doc, g.switched);
        assert(comes_alike(m, net, back.loads[k]));
        let i = lemma_comes_alike(m, net, back.loads[k]);
        assert(bounds_at(net, net.loads[i].bus) == bounds_at(back, net.loads[i].bus));
        assert(load_wants(w, net, net.loads.len(), x));
    } else {
        let k = choose|k: int|
            0 <= k < back.buses.len() && volts_ask(
                both_bounds(#[trigger] back.buses[k]),
                w.base_of(back.buses[k].id),
            ) == Some(x);
        lemma_nodes_come(m, net, back, g);
        let u = node_writer(m, net);
        let i = lemma_node_again(u, u, m, net.buses, back.buses, doc, g.wound, k);
        assert(both_bounds(net.buses[i]) == both_bounds(back.buses[k]));
        assert(bus_wants(w, net.buses, net.buses.len(), x));
    }
}

/// Whatever the network asked for, what is read asks for.
#[verifier::rlimit(60)]
proof fn lemma_wants_again(m: Sem, net: DistNetworkV, back: DistNetworkV, g: FrameV, x: AskV)
    requires
        is_frame(m, net),
        named_apart(net),
        kept(m, net),
        limits_kept(m, net),
        collect_of(ravens_document(m, net).1).len() <= usize::MAX,
        is_read(m, net, back),
        reads_frame(m, collect_of(ravens_document(m, net).1), back, g),
        same_amps(m, net, back),
        same_bounds(net, back),
        wants(fresh_writer(bases_of(m, net)), m, net, x),
    ensures
        wants(fresh_writer(bases_of(m, net)), m, back, x),
{
    let w = fresh_writer(bases_of(m, net));
    let doc = collect_of(ravens_document(m, net).1);
    if line_wants(m, net, net.lines.len(), x) {
        let i = choose|i: int|
            0 <= i < net.lines.len() && amps_ask(line_amps(m, net, #[trigger] net.lines[i]))
                == Some(x);
        assert(line_kept(m, net.lines[i]));
        lemma_lines_survive(m, net, i);
        let k = choose|k: int|
            0 <= k < back.lines.len() && comes_of_line(m, #[trigger] back.lines[k], net.lines[i]);
        assert(amps_ask(line_amps(m, back, back.lines[k])) == Some(x));
    } else if switch_wants(m, net.switches, net.switches.len(), x) {
        let i = choose|i: int|
            0 <= i < net.switches.len() && amps_ask(switch_amps(m, #[trigger] net.switches[i]))
                == Some(x);
        lemma_switches_survive(m, net, i);
        let k = choose|k: int|
            0 <= k < back.switches.len() && comes_of_switch(
                #[trigger] back.switches[k],
                net.switches[i],
            );
        assert(amps_ask(switch_amps(m, back.switches[k])) == Some(x));
    } else if load_wants(w, net, net.loads.len(), x) {
        let i = choose|i: int|
            0 <= i < net.loads.len() && volts_ask(
                bounds_at(net, (#[trigger] net.loads[i]).bus),
                w.base_of(net.loads[i].bus),
            ) == Some(x);
        assert(load_kept(m, net.loads[i]));
        lemma_loads_survive(m, net, i);
        let k = choose|k: int|
            0 <= k < back.loads.len() && comes_of_load(#[trigger] back.loads[k], net.loads[i]);
        assert(bounds_at(net, net.loads[i].bus) == bounds_at(back, net.loads[i].bus));
        assert(load_wants(w, back, back.loads.len(), x));
    } else {
        let i = choose|i: int|
            0 <= i < net.buses.len() && volts_ask(
                both_bounds(#[trigger] net.buses[i]),
                w.base_of(net.buses[i].id),
            ) == Some(x);
        lemma_buses_survive(m, net, i);
        let k = choose|k: int|
            0 <= k < back.buses.len() && comes_of_bus(#[trigger] back.buses[k], net.buses[i]);
        lemma_nodes_come(m, net, back, g);
        let u = node_writer(m, net);
        let h = lemma_node_again(u, u, m, net.buses, back.buses, doc, g.wound, k);
        if h < i {
            assert(net.buses[h].id != net.buses[i].id);
        } else if i < h {
            assert(net.buses[i].id != net.buses[h].id);
        }
        assert(both_bounds(back.buses[k]) == both_bounds(net.buses[i]));
        assert(bus_wants(w, back.buses, back.buses.len(), x));
    }
}

// ---- the law ---------------------------------------------------------------

/// Networks whose typed parts are the same.
proof fn lemma_same_root(m: Sem, a: DistNetworkV, b: DistNetworkV)
    requires
        written_tables(m, a) == written_tables(m, b),
        bases_of(m, a) == bases_of(m, b),
        ({
            let v = tables_of(fresh_writer(bases_of(m, a)), m, a).0;
            let u = tables_of(fresh_writer(bases_of(m, b)), m, b).0;
            &&& v.limit_sets == u.limit_sets
            &&& forall|t: Seq<char>| #[trigger]
                v.used_types.contains(t) == u.used_types.contains(t)
            &&& v.profiles == u.profiles
            &&& v.bases == u.bases
            &&& v.responses == u.responses
        }),
    ensures
        typed_root(m, a) == typed_root(m, b),
{
    reveal(typed_of);
    let wa = tables_of(fresh_writer(bases_of(m, a)), m, a).0;
    let wb = tables_of(fresh_writer(bases_of(m, b)), m, b).0;
    let names = base_names(m, wa.bases, wa.bases.len());
    lemma_base_tables(wa, wb, m, names, names.len());
    let va = base_table(wa, m, names, names.len()).0;
    let vb = base_table(wb, m, names, names.len()).0;
    assert forall|t: Seq<char>| #[trigger] va.used_types.contains(t) == vb.used_types.contains(
        t,
    ) by {
        assert(wa.used_types.contains(t) == wb.used_types.contains(t));
    }
    lemma_same_types(va, vb, m);
    lemma_types_apart(va, m);
    lemma_types_apart(vb, m);
}

/// Writing the types of the limits leaves the profiles.
proof fn lemma_types_apart(w: WriterV, m: Sem)
    ensures
        w.limit_types(m).0.profiles == w.profiles,
{
    broadcast use group_even;

    reveal(WriterV::limit_types);
}

proof fn lemma_base_tables(w: WriterV, v: WriterV, m: Sem, names: Seq<(Seq<char>, Bits)>, n: nat)
    ensures
        base_table(w, m, names, n).1 == base_table(v, m, names, n).1,
        even(w, base_table(w, m, names, n).0),
        even(v, base_table(v, m, names, n).0),
    decreases n,
{
    broadcast use group_even;

    if n > 0 {
        lemma_base_tables(w, v, m, names, (n - 1) as nat);
        reveal(WriterV::num);
    }
}

proof fn lemma_kept_quiet(m: Sem, net: DistNetworkV)
    requires
        named_apart(net),
        kept(m, net),
    ensures
        quiet(m, net),
{
    lemma_names_agree(m, net.loads);
}

/// The schedules of a network are read.
proof fn lemma_schedules_again(m: Sem, net: DistNetworkV, back: DistNetworkV)
    requires
        is_frame(m, net),
        worded(collect_of(typed_root(m, net))),
        back.untyped == kept_objects(collect_of(ravens_document(m, net).1)),
    ensures
        same_schedules(net, back),
{
    let root = typed_root(m, net);
    let s = objects_of(net.untyped);
    let t = loose(collect_of(ravens_document(m, net).1));
    lemma_document_is_put(m, net);
    lemma_objects_come(m, net);
    assert forall|x: Seq<char>| #[trigger] carries(net, x) implies carries(back, x) by {
        let i = choose|i: int|
            0 <= i < net.untyped.len() && (#[trigger] net.untyped[i]).class
                == "EnergyConsumerSchedule"@ && net.untyped[i].name == x;
        assert(stowable(net.untyped[i]));
        assert(s.take(s.len() as int)[i] == s[i]);
        let k = choose|k: int| 0 <= k < t.len() && #[trigger] t[k] == s.take(s.len() as int)[i];
        assert(back.untyped[k] == untyped_of(t[k]));
        assert(back.untyped[k].class == "EnergyConsumerSchedule"@);
    }
}

/// The untyped objects of a document are those of the network.
proof fn lemma_objects_come(m: Sem, net: DistNetworkV)
    requires
        is_frame(m, net),
        worded(collect_of(typed_root(m, net))),
    ensures
        ({
            let root = typed_root(m, net);
            let s = objects_of(net.untyped);
            let d = put_all(root, s, s.len());
            let t = loose(collect_of(d));
            &&& among(t, s, s.len())
            &&& among(s.take(s.len() as int), t, t.len())
            &&& put_all(root, t, t.len()) == d
        }),
{
    let root = typed_root(m, net);
    let s = objects_of(net.untyped);
    assert forall|i: int| 0 <= i < s.len() implies is_own(#[trigger] s[i]) by {
        assert(stowable(net.untyped[i]));
    }
    assert forall|i: int| 0 <= i < collect_of(root).len() implies !unclaimed(
        #[trigger] collect_of(root)[i],
    ) by {
        lemma_all_claimed(m, net, i);
    }
    lemma_loose_come_back(root, s, s.len());
}

/// The loads that are read are like those that were written.
#[verifier::rlimit(60)]
proof fn lemma_loads_again(m: Sem, net: DistNetworkV, back: DistNetworkV, g: FrameV)
    requires
        is_frame(m, net),
        worded(collect_of(typed_root(m, net))),
        named_apart(net),
        kept(m, net),
        same_bounds(net, back),
        collect_of(ravens_document(m, net).1).len() <= usize::MAX,
        is_read(m, net, back),
        reads_frame(m, collect_of(ravens_document(m, net).1), back, g),
    ensures
        loads_come(
            load_writer(m, net),
            m,
            net,
            back,
            collect_of(ravens_document(m, net).1),
            g.switched,
        ),
        forall|i: int| 0 <= i < net.loads.len() ==> brought(back.loads, #[trigger] net.loads[i]),
        quiet(m, back),
        table_of(reply_pairs(m, net.loads)) == table_of(reply_pairs(m, back.loads)),
        rows_n(m, net.loads, net.loads.len()) == rows_n(m, back.loads, back.loads.len()),
{
    let doc = collect_of(ravens_document(m, net).1);
    lemma_holds_only(m, net);
    lemma_tables(m, net);
    lemma_kept_quiet(m, net);
    assert forall|i: int| 0 <= i < net.loads.len() implies answered(
        m,
        net,
        doc,
        #[trigger] net.loads[i],
    ) by {
        lemma_answered(m, net, i);
    }
    assert forall|i: int| 0 <= i < net.loads.len() implies brought(
        back.loads,
        #[trigger] net.loads[i],
    ) by {
        assert(load_kept(m, net.loads[i]));
        lemma_loads_survive(m, net, i);
        let k = choose|k: int|
            0 <= k < back.loads.len() && comes_of_load(#[trigger] back.loads[k], net.loads[i]);
        lemma_is_brought(back.loads, net.loads[i], k);
    }
    lemma_schedules_again(m, net, back);
    lemma_all_alike(load_writer(m, net), m, net, back, doc, g.switched);
    assert forall|k: int| 0 <= k < back.loads.len() implies shaped(
        m,
        net.loads,
        shape_of(m, #[trigger] back.loads[k]),
    ) && replied(m, net.loads, back.loads[k]) by {
        assert(comes_alike(m, net, back.loads[k]));
        let i = lemma_comes_alike(m, net, back.loads[k]);
        lemma_is_shaped(m, net.loads, shape_of(m, back.loads[k]), i);
        lemma_is_replied(m, net.loads, back.loads[k], i);
    }
    assert forall|i: int, j: int|
        0 <= i < back.loads.len() && 0 <= j < back.loads.len() && response_name(
            #[trigger] back.loads[i],
        ) == response_name(#[trigger] back.loads[j]) implies record_of(m, back.loads[i])
        == record_of(m, back.loads[j]) by {
        let x = lemma_replied(m, net.loads, back.loads[i]);
        let y = lemma_replied(m, net.loads, back.loads[j]);
        assert(response_name(net.loads[x]) == response_name(net.loads[y]));
    }
    assert forall|i: int| 0 <= i < net.loads.len() implies replied(
        m,
        back.loads,
        #[trigger] net.loads[i],
    ) && shaped(m, back.loads, shape_of(m, net.loads[i])) by {
        assert(brought(back.loads, net.loads[i]));
        let k = lemma_brought(back.loads, net.loads[i]);
        assert(comes_alike(m, net, back.loads[k]));
        let h = lemma_comes_alike(m, net, back.loads[k]);
        assert(net.loads[h].name == net.loads[i].name);
        assert(h == i);
        lemma_is_replied(m, back.loads, net.loads[i], k);
        lemma_is_shaped(m, back.loads, shape_of(m, net.loads[i]), k);
    }
    lemma_same_replies(m, net.loads, back.loads);
    lemma_same_rows(m, net.loads, back.loads);
}

/// A network can be written again: its elements have names of their own and are
/// at buses of the network, their numbers come back from their numerals and their
/// units, and its limit sets, load shapes and untyped objects can be found again.
pub open spec fn writes_again(m: Sem, net: DistNetworkV) -> bool {
    &&& is_frame(m, net)
    &&& named_apart(net)
    &&& joined(net)
    &&& kept(m, net)
    &&& limits_kept(m, net)
    &&& collect_of(ravens_document(m, net).1).len() <= usize::MAX
    &&& worded(collect_of(typed_root(m, net)))
}

/// What is written twice is the same: the document of the network that is read of
/// the document of a network is that document, whatever text it was read from.
/// That there are best claims on the buses is what `bus_bases` shows; the texts
/// are compared by `write_ravens_json`.
#[verifier::rlimit(80)]
pub proof fn lemma_second_write_is_the_first(
    m: Sem,
    net: DistNetworkV,
    source: Option<Seq<char>>,
)
    requires
        writes_again(m, net),
        is_bases(claims_of(m, net), edges_of(net), best_claims(m, net)),
    ensures
        ravens_value(m, JsonV::Obj(ravens_document(m, net).1)) matches Ok(back)
            ==> ravens_document(m, (DistNetworkV { source, ..back })).1 == ravens_document(
            m,
            net,
        ).1,
{
    let root = ravens_document(m, net).1;
    let doc = collect_of(root);
    if let Ok(read) = ravens_value(m, JsonV::Obj(root)) {
        let back = DistNetworkV { source, ..read };
        assert(is_read(m, net, back));
        let g = lemma_reads_frame(m, net);
        assert(reads_frame(m, doc, back, g));
        lemma_bases_again(m, net, back, g);
        lemma_kept_quiet(m, net);
        lemma_same_amps(m, net, back, g);
        lemma_same_bounds(m, net, back, g);
        lemma_loads_again(m, net, back, g);
        lemma_asks_again(m, net, back, g);
        lemma_gathers(m, net);
        lemma_gathers(m, back);
        lemma_tables_again(m, net, back, g);
        lemma_same_sets(
            tables_of(fresh_writer(bases_of(m, net)), m, net).0,
            tables_of(fresh_writer(bases_of(m, back)), m, back).0,
            m,
            asks(m, net),
            asks(m, back),
        );
        lemma_same_root(m, net, back);
        lemma_untyped_again(m, net, back);
    }
}

/// The untyped objects are put back as they were.
proof fn lemma_untyped_again(m: Sem, net: DistNetworkV, back: DistNetworkV)
    requires
        is_frame(m, net),
        worded(collect_of(typed_root(m, net))),
        back.untyped == kept_objects(collect_of(ravens_document(m, net).1)),
        typed_root(m, back) == typed_root(m, net),
    ensures
        ravens_document(m, back).1 == ravens_document(m, net).1,
{
    let root = typed_root(m, net);
    let s = objects_of(net.untyped);
    let doc = collect_of(ravens_document(m, net).1);
    let t = loose(doc);
    lemma_document_is_put(m, net);
    lemma_objects_come(m, net);
    assert forall|i: int| 0 <= i < back.untyped.len() implies object_of(
        #[trigger] back.untyped[i],
    ) == t[i] && placed(
        back.untyped[i],
        object_of(back.untyped[i]).path,
        JsonV::Obj(object_of(back.untyped[i]).props),
    ) by {
        let k = choose|k: int| 0 <= k < s.len() && #[trigger] s[k] == t[i];
        assert(stowable(net.untyped[k]));
        lemma_kept_object(t[i]);
    }
    assert(objects_of(back.untyped) =~= t);
    let w = typed_of(fresh_writer(bases_of(m, back)), m, back).0;
    lemma_restored_is_put(w, root, back.untyped, back.untyped.len());
    reveal(document_of);
}

#[verifier::rlimit(60)]
proof fn lemma_code_table_again(m: Sem, net: DistNetworkV, back: DistNetworkV, g: FrameV)
    requires
        is_frame(m, net),
        named_apart(net),
        kept(m, net),
        limits_kept(m, net),
        limits_again(m, net, back),
        quiet(m, back),
        collect_of(ravens_document(m, net).1).len() <= usize::MAX,
        is_read(m, net, back),
        reads_frame(m, collect_of(ravens_document(m, net).1), back, g),
        codes_again(m, net, collect_of(ravens_document(m, net).1), g),
        bases_of(m, back) == bases_of(m, net),
    ensures
        written_tables(m, back).linecodes == written_tables(m, net).linecodes,
{
    let doc = collect_of(ravens_document(m, net).1);
    lemma_holds_only(m, net);
    lemma_tables(m, net);
    lemma_tables(m, back);
    let first = empty_state().warn(
        "MG-RAVENS carries no system frequency; base_frequency assumes the OpenDSS default (60 Hz)"@,
    );
    assert forall|i: int| 0 <= i < net.linecodes.len() implies exists|k: int|
        0 <= k < back.linecodes.len() && (#[trigger] back.linecodes[k]).name == (
        #[trigger] net.linecodes[i]).name by {
        assert(code_kept(m, net.linecodes[i]));
        lemma_linecodes_survive(m, net, i);
    }
    let codes = g.coded.net.linecodes;
    assert forall|i: int| 0 <= i < net.linecodes.len() implies exists|k: int|
        0 <= k < codes.len() && (#[trigger] codes[k]).name == (#[trigger] net.linecodes[i]).name by {
        let k = choose|k: int|
            0 <= k < back.linecodes.len() && (#[trigger] back.linecodes[k]).name
                == net.linecodes[i].name;
        assert(same_code(codes[k], back.linecodes[k]));
    }
    let v = unrepresented(fresh_writer(bases_of(m, back)), m, back);
    lemma_codes_written_again(
        unrepresented(fresh_writer(bases_of(m, net)), m, net),
        v,
        m,
        net.linecodes,
        codes,
        doc,
        first,
    );
    lemma_codes_unrated(v, v, m, codes, back.linecodes, codes.len());
}

proof fn lemma_line_limit(m: Sem, net: DistNetworkV, line: DistLineV)
    ensures
        line_limit(m, net, line) == match line_amps(m, net, line) {
            Some((n, e)) => Some(amps_name(m, n, e)),
            None => None,
        },
{
}

#[verifier::rlimit(60)]
proof fn lemma_line_table_again(m: Sem, net: DistNetworkV, back: DistNetworkV, g: FrameV)
    requires
        is_frame(m, net),
        named_apart(net),
        kept(m, net),
        limits_kept(m, net),
        limits_again(m, net, back),
        quiet(m, back),
        collect_of(ravens_document(m, net).1).len() <= usize::MAX,
        is_read(m, net, back),
        reads_frame(m, collect_of(ravens_document(m, net).1), back, g),
        codes_again(m, net, collect_of(ravens_document(m, net).1), g),
        bases_of(m, back) == bases_of(m, net),
    ensures
        written_tables(m, back).lines == written_tables(m, net).lines,
{
    let doc = collect_of(ravens_document(m, net).1);
    lemma_holds_only(m, net);
    lemma_tables(m, net);
    lemma_tables(m, back);
    lemma_kept_quiet(m, net);
    lemma_gathers(m, net);
    lemma_gathers(m, back);
    assert forall|i: int| 0 <= i < net.lines.len() implies exists|k: int|
        0 <= k < back.lines.len() && comes_of_line(
            m,
            #[trigger] back.lines[k],
            #[trigger] net.lines[i],
        ) by {
        assert(line_kept(m, net.lines[i]));
        lemma_lines_survive(m, net, i);
    }
    assert forall|i: int, j: int|
        0 <= i < net.lines.len() && 0 <= j < back.lines.len() && (#[trigger] net.lines[i]).name == (
        #[trigger] back.lines[j]).name implies line_limit(m, net, net.lines[i]) == line_limit(
        m,
        back,
        back.lines[j],
    ) by {
        assert(line_amps(m, net, net.lines[i]) == line_amps(m, back, back.lines[j]));
        lemma_line_limit(m, net, net.lines[i]);
        lemma_line_limit(m, back, back.lines[j]);
    }
    lemma_lines_written_again(
        line_writer(m, net),
        line_writer(m, back),
        m,
        net,
        back,
        doc,
        g.coded,
    );
}

#[verifier::rlimit(60)]
proof fn lemma_switch_table_again(m: Sem, net: DistNetworkV, back: DistNetworkV, g: FrameV)
    requires
        is_frame(m, net),
        named_apart(net),
        kept(m, net),
        limits_kept(m, net),
        limits_again(m, net, back),
        quiet(m, back),
        collect_of(ravens_document(m, net).1).len() <= usize::MAX,
        is_read(m, net, back),
        reads_frame(m, collect_of(ravens_document(m, net).1), back, g),
        codes_again(m, net, collect_of(ravens_document(m, net).1), g),
        bases_of(m, back) == bases_of(m, net),
    ensures
        written_tables(m, back).switches == written_tables(m, net).switches,
{
    let doc = collect_of(ravens_document(m, net).1);
    lemma_holds_only(m, net);
    lemma_tables(m, net);
    lemma_tables(m, back);
    assert forall|i: int| 0 <= i < net.switches.len() implies exists|k: int|
        0 <= k < back.switches.len() && comes_of_switch(
            #[trigger] back.switches[k],
            #[trigger] net.switches[i],
        ) by {
        lemma_switches_survive(m, net, i);
    }
    assert forall|i: int, j: int|
        0 <= i < net.switches.len() && 0 <= j < back.switches.len() && (
        #[trigger] net.switches[i]).name == (#[trigger] back.switches[j]).name implies switch_limit(
        m,
        net.switches[i],
    ) == switch_limit(m, back.switches[j]) by {
        assert(switch_amps(m, net.switches[i]) == switch_amps(m, back.switches[j]));
    }
    lemma_switches_written_again(
        switch_writer(m, net),
        switch_writer(m, back),
        m,
        net.switches,
        back.switches,
        doc,
        g.lined,
    );
}

#[verifier::rlimit(60)]
proof fn lemma_load_table_again(m: Sem, net: DistNetworkV, back: DistNetworkV, g: FrameV)
    requires
        is_frame(m, net),
        worded(collect_of(typed_root(m, net))),
        named_apart(net),
        kept(m, net),
        limits_kept(m, net),
        limits_again(m, net, back),
        quiet(m, back),
        collect_of(ravens_document(m, net).1).len() <= usize::MAX,
        is_read(m, net, back),
        reads_frame(m, collect_of(ravens_document(m, net).1), back, g),
        codes_again(m, net, collect_of(ravens_document(m, net).1), g),
        bases_of(m, back) == bases_of(m, net),
    ensures
        written_tables(m, back).loads == written_tables(m, net).loads,
{
    let doc = collect_of(ravens_document(m, net).1);
    lemma_holds_only(m, net);
    lemma_tables(m, net);
    lemma_tables(m, back);
    lemma_kept_quiet(m, net);
    lemma_gathers(m, net);
    lemma_gathers(m, back);
    lemma_loads_again(m, net, back, g);
    lemma_loads_written_again(
        load_writer(m, net),
        load_writer(m, back),
        m,
        net,
        back,
        doc,
        g.switched,
    );
}

#[verifier::rlimit(60)]
proof fn lemma_shunt_table_again(m: Sem, net: DistNetworkV, back: DistNetworkV, g: FrameV)
    requires
        is_frame(m, net),
        named_apart(net),
        kept(m, net),
        limits_kept(m, net),
        limits_again(m, net, back),
        quiet(m, back),
        collect_of(ravens_document(m, net).1).len() <= usize::MAX,
        is_read(m, net, back),
        reads_frame(m, collect_of(ravens_document(m, net).1), back, g),
        codes_again(m, net, collect_of(ravens_document(m, net).1), g),
        bases_of(m, back) == bases_of(m, net),
    ensures
        written_tables(m, back).shunts == written_tables(m, net).shunts,
{
    let doc = collect_of(ravens_document(m, net).1);
    lemma_holds_only(m, net);
    lemma_tables(m, net);
    lemma_tables(m, back);
    lemma_kept_quiet(m, net);
    lemma_gathers(m, net);
    lemma_gathers(m, back);
    assert forall|i: int| 0 <= i < net.shunts.len() implies exists|k: int|
        0 <= k < back.shunts.len() && comes_of_shunt(
            m,
            #[trigger] back.shunts[k],
            #[trigger] net.shunts[i],
        ) by {
        lemma_shunts_survive(m, net, i);
    }
    assert forall|i: int| 0 <= i < net.shunts.len() implies shunt_kept(
        shunt_writer(m, net),
        m,
        #[trigger] net.shunts[i],
    ) by {
        let w = fresh_writer(bases_of(m, net));
        assert(shunt_kept(w, m, net.shunts[i]));
        lemma_kept_with(w, shunt_writer(m, net), m, net.shunts[i]);
    }
    lemma_shunts_written_again(
        shunt_writer(m, net),
        shunt_writer(m, back),
        m,
        net.shunts,
        back.shunts,
        doc,
        g.loaded,
    );
}

#[verifier::rlimit(60)]
proof fn lemma_machine_table_again(m: Sem, net: DistNetworkV, back: DistNetworkV, g: FrameV)
    requires
        is_frame(m, net),
        named_apart(net),
        kept(m, net),
        limits_kept(m, net),
        limits_again(m, net, back),
        quiet(m, back),
        collect_of(ravens_document(m, net).1).len() <= usize::MAX,
        is_read(m, net, back),
        reads_frame(m, collect_of(ravens_document(m, net).1), back, g),
        codes_again(m, net, collect_of(ravens_document(m, net).1), g),
        bases_of(m, back) == bases_of(m, net),
    ensures
        written_tables(m, back).machines == written_tables(m, net).machines,
{
    let doc = collect_of(ravens_document(m, net).1);
    lemma_holds_only(m, net);
    lemma_tables(m, net);
    lemma_tables(m, back);
    lemma_kept_quiet(m, net);
    lemma_gathers(m, net);
    lemma_gathers(m, back);
    assert forall|i: int| 0 <= i < net.generators.len() implies exists|k: int|
        0 <= k < back.generators.len() && comes_of_machine(
            m,
            #[trigger] back.generators[k],
            #[trigger] net.generators[i],
        ) by {
        lemma_machines_survive(m, net, i);
    }
    lemma_machines_written_again(
        machine_writer(m, net),
        machine_writer(m, back),
        m,
        net.generators,
        back.generators,
        doc,
        g.shunted,
    );
}

#[verifier::rlimit(60)]
proof fn lemma_inverter_table_again(m: Sem, net: DistNetworkV, back: DistNetworkV, g: FrameV)
    requires
        is_frame(m, net),
        named_apart(net),
        kept(m, net),
        limits_kept(m, net),
        limits_again(m, net, back),
        quiet(m, back),
        collect_of(ravens_document(m, net).1).len() <= usize::MAX,
        is_read(m, net, back),
        reads_frame(m, collect_of(ravens_document(m, net).1), back, g),
        codes_again(m, net, collect_of(ravens_document(m, net).1), g),
        bases_of(m, back) == bases_of(m, net),
    ensures
        written_tables(m, back).electronics == written_tables(m, net).electronics,
{
    let doc = collect_of(ravens_document(m, net).1);
    lemma_holds_only(m, net);
    lemma_tables(m, net);
    lemma_tables(m, back);
    lemma_kept_quiet(m, net);
    lemma_gathers(m, net);
    lemma_gathers(m, back);
    assert forall|i: int| 0 <= i < net.ibrs.len() implies exists|k: int|
        0 <= k < back.ibrs.len() && comes_of_inverter(
            m,
            #[trigger] back.ibrs[k],
            #[trigger] net.ibrs[i],
        ) by {
        lemma_inverters_survive(m, net, i);
    }
    lemma_inverters_written_again(
        inverter_writer(m, net),
        inverter_writer(m, back),
        m,
        net.ibrs,
        back.ibrs,
        doc,
        g.driven,
    );
}

#[verifier::rlimit(60)]
proof fn lemma_source_table_again(m: Sem, net: DistNetworkV, back: DistNetworkV, g: FrameV)
    requires
        is_frame(m, net),
        named_apart(net),
        kept(m, net),
        limits_kept(m, net),
        limits_again(m, net, back),
        quiet(m, back),
        collect_of(ravens_document(m, net).1).len() <= usize::MAX,
        is_read(m, net, back),
        reads_frame(m, collect_of(ravens_document(m, net).1), back, g),
        codes_again(m, net, collect_of(ravens_document(m, net).1), g),
        bases_of(m, back) == bases_of(m, net),
    ensures
        written_tables(m, back).sources == written_tables(m, net).sources,
{
    let doc = collect_of(ravens_document(m, net).1);
    lemma_holds_only(m, net);
    lemma_tables(m, net);
    lemma_tables(m, back);
    lemma_kept_quiet(m, net);
    lemma_gathers(m, net);
    lemma_gathers(m, back);
    assert forall|i: int| 0 <= i < net.sources.len() implies exists|k: int|
        0 <= k < back.sources.len() && comes_of_source(
            m,
            #[trigger] back.sources[k],
            #[trigger] net.sources[i],
        ) by {
        lemma_sources_survive(m, net, i);
    }
    lemma_sources_written_again(
        source_writer(m, net),
        source_writer(m, back),
        m,
        net.sources,
        back.sources,
        doc,
        g.inverted,
    );
}

#[verifier::rlimit(60)]
proof fn lemma_coil_table_again(m: Sem, net: DistNetworkV, back: DistNetworkV, g: FrameV)
    requires
        is_frame(m, net),
        named_apart(net),
        kept(m, net),
        limits_kept(m, net),
        limits_again(m, net, back),
        quiet(m, back),
        collect_of(ravens_document(m, net).1).len() <= usize::MAX,
        is_read(m, net, back),
        reads_frame(m, collect_of(ravens_document(m, net).1), back, g),
        bases_of(m, back) == bases_of(m, net),
    ensures
        written_tables(m, back).transformers == written_tables(m, net).transformers,
        written_tables(m, back).assets == written_tables(m, net).assets,
{
    lemma_all_read(m, net);
    lemma_tables(m, net);
    lemma_tables(m, back);
    lemma_kept_quiet(m, net);
    lemma_gathers(m, net);
    lemma_gathers(m, back);
    assert forall|i: int| 0 <= i < net.transformers.len() implies exists|k: int|
        0 <= k < back.transformers.len() && comes_of_transformer(
            m,
            #[trigger] back.transformers[k],
            #[trigger] net.transformers[i],
        ) by {
        lemma_coil_survives(m, net, back, i);
    }
    lemma_transformers_written_again(
        coil_writer(m, net),
        coil_writer(m, back),
        m,
        net.transformers,
        back.transformers,
        collect_of(ravens_document(m, net).1),
        g.fed,
    );
}

#[verifier::rlimit(60)]
proof fn lemma_node_table_again(m: Sem, net: DistNetworkV, back: DistNetworkV, g: FrameV)
    requires
        is_frame(m, net),
        named_apart(net),
        kept(m, net),
        limits_kept(m, net),
        limits_again(m, net, back),
        quiet(m, back),
        collect_of(ravens_document(m, net).1).len() <= usize::MAX,
        is_read(m, net, back),
        reads_frame(m, collect_of(ravens_document(m, net).1), back, g),
        codes_again(m, net, collect_of(ravens_document(m, net).1), g),
        bases_of(m, back) == bases_of(m, net),
    ensures
        written_tables(m, back).nodes == written_tables(m, net).nodes,
        written_tables(m, back).locations == written_tables(m, net).locations,
{
    let doc = collect_of(ravens_document(m, net).1);
    lemma_holds_only(m, net);
    lemma_tables(m, net);
    lemma_tables(m, back);
    lemma_marks();
    assert forall|i: int| 0 <= i < net.buses.len() implies exists|k: int|
        0 <= k < back.buses.len() && comes_of_bus(
            #[trigger] back.buses[k],
            #[trigger] net.buses[i],
        ) by {
        lemma_buses_survive(m, net, i);
    }
    assert forall|i: int| 0 <= i < net.buses.len() && (#[trigger] net.buses[i]).location is Some implies
    located(back.buses, net.buses[i].id) by {
        assert(place_told(m, net.buses[i]));
        assert(unambiguous(doc, "ConnectivityNode"@, net.buses[i].id));
        assert(unambiguous(doc, "Location"@, place_name(net.buses[i].id)));
        lemma_positions_survive(m, net, i);
        let k = choose|k: int|
            0 <= k < back.buses.len() && comes_of_bus(#[trigger] back.buses[k], net.buses[i])
                && back.buses[k].location == Some(returned_place(net.buses[i].location->0));
        assert(back.buses[k].id == net.buses[i].id);
    }
    assert forall|i: int| 0 <= i < net.buses.len() implies place_told(m, #[trigger] net.buses[i]) by {}
    lemma_marks();
    lemma_nodes_come(m, net, back, g);
    let w = node_writer(m, net);
    let v = node_writer(m, back);
    lemma_nodes_again(w, v, m, net.buses, back.buses, doc, g.wound);
    lemma_positions_again(w, v, m, net.buses, back.buses, doc, g.wound);
}

proof fn lemma_tables_again(m: Sem, net: DistNetworkV, back: DistNetworkV, g: FrameV)
    requires
        is_frame(m, net),
        worded(collect_of(typed_root(m, net))),
        named_apart(net),
        kept(m, net),
        limits_kept(m, net),
        limits_again(m, net, back),
        quiet(m, back),
        collect_of(ravens_document(m, net).1).len() <= usize::MAX,
        is_read(m, net, back),
        reads_frame(m, collect_of(ravens_document(m, net).1), back, g),
        codes_again(m, net, collect_of(ravens_document(m, net).1), g),
        bases_of(m, back) == bases_of(m, net),
    ensures
        written_tables(m, back) == written_tables(m, net),
{
    lemma_code_table_again(m, net, back, g);
    lemma_line_table_again(m, net, back, g);
    lemma_switch_table_again(m, net, back, g);
    lemma_load_table_again(m, net, back, g);
    lemma_shunt_table_again(m, net, back, g);
    lemma_machine_table_again(m, net, back, g);
    lemma_inverter_table_again(m, net, back, g);
    lemma_source_table_again(m, net, back, g);
    lemma_coil_table_again(m, net, back, g);
    lemma_node_table_again(m, net, back, g);
}

} // verus!
