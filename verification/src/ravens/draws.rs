//! Loads that are read and written again.

use vstd::prelude::*;

use crate::json::{Entries, JsonV};
use crate::math::{Bits, Sem};
use crate::model::{
    dist_bus_of, Configuration, DistBusV, DistLoadV, DistLoadVoltageModelV, DistNetworkV,
};
use crate::order::{get_of, lemma_put, lemma_sorted_unique, put_of, sorted};
use crate::ravens::accept::{even, group_even, lemma_share_even};
use crate::ravens::doc::{named_of, resolve_at, sorted_kind, str_at, target_at, terminals_of, ObjV};
use crate::ravens::emit::{
    extras_mrid_of, hot_code_of, hot_letters_n, hot_letters_of, identified_of, letters_n,
    pointer_json, WriterV,
};
use crate::ravens::keeps::{group_keeps, group_parts};
use crate::ravens::laws::lemma_pointer_reads_back;
use crate::ravens::lines::mrid_extras;
use crate::ravens::loads::{
    load_extras_of, load_phases_of, load_step, loads_n, note_text, profile_from, with_profiles,
};
use crate::ravens::name::terminal_phase_of;
use crate::ravens::only::only_in;
use crate::ravens::plain::{lemma_ground_declared, lemma_use_declared, lemma_use_plain, plainly};
use crate::ravens::read::declared;
use crate::ravens::rewrite::lemma_hot_map_writes_the_same;
use crate::ravens::stable::{
    lemma_one_table, lemma_table_entry, lemma_table_holds, lemma_table_sorted, named_in, table_n,
    table_of,
};
use crate::ravens::state::StateV;
use crate::ravens::survive::{
    hot_wires, lemma_get_none, lemma_get_put, lemma_hot_letters, lemma_identified,
    lemma_identified_again, lemma_letters,
};
use crate::ravens::survive_loads::{
    comes_of_load, lemma_load_keys, lemma_load_says, lemma_load_wires, load_phases, load_told,
    returned_wires,
};
use crate::ravens::survive_models::{
    comes_of_model, lemma_load_replies, lemma_model_step, lemma_response_names, model_told, percent,
    response_name, returned_model, says_response,
};
use crate::ravens::survive_places::lemma_kind_only;
use crate::ravens::write_loads::{
    extra_text, first_or_zero, has_untyped, load_head, load_json, load_phase_json, load_phases_json,
    loads_json, or_blank, put_text,
};
use crate::ravens::write::{fresh_writer};
use crate::ravens::limited::{bounds_at, lemma_asked, volts_ask};
use crate::ravens::survive_limits::{bounds_name};

verus! {

/// Voltage models of which the same record is written.
pub open spec fn same_response(
    m: Sem,
    a: DistLoadVoltageModelV,
    b: DistLoadVoltageModelV,
) -> bool {
    match (a, b) {
        (
            DistLoadVoltageModelV::ConstantPower { .. },
            DistLoadVoltageModelV::ConstantPower { .. },
        ) => true,
        (
            DistLoadVoltageModelV::ConstantCurrent { .. },
            DistLoadVoltageModelV::ConstantCurrent { .. },
        ) => true,
        (
            DistLoadVoltageModelV::ConstantImpedance { .. },
            DistLoadVoltageModelV::ConstantImpedance { .. },
        ) => true,
        (
            DistLoadVoltageModelV::Zip {
                v_nom: _,
                alpha_z: az,
                alpha_i: ai,
                alpha_p: ap,
                beta_z: bz,
                beta_i: bi,
                beta_p: bp,
            },
            DistLoadVoltageModelV::Zip {
                v_nom: _,
                alpha_z: cz,
                alpha_i: ci,
                alpha_p: cp,
                beta_z: dz,
                beta_i: di,
                beta_p: dp,
            },
        ) => {
            &&& percent(m, az) == percent(m, cz)
            &&& percent(m, ai) == percent(m, ci)
            &&& percent(m, ap) == percent(m, cp)
            &&& percent(m, bz) == percent(m, dz)
            &&& percent(m, bi) == percent(m, di)
            &&& percent(m, bp) == percent(m, dp)
        },
        (
            DistLoadVoltageModelV::Exponential { v_nom: _, gamma_p: ap, gamma_q: aq },
            DistLoadVoltageModelV::Exponential { v_nom: _, gamma_p: bp, gamma_q: bq },
        ) => first_or_zero(ap) == first_or_zero(bp) && first_or_zero(aq) == first_or_zero(bq),
        _ => false,
    }
}

/// The shares of a load come back from being read and written: what comes back of
/// its model is written as the model is. A mixture of which one share is whole
/// comes back as another model.
pub open spec fn response_kept(m: Sem, load: DistLoadV) -> bool {
    forall|v: Seq<Bits>|
        same_response(m, load.voltage_model, #[trigger] returned_model(m, load.voltage_model, v))
}

/// The shapes of a load, daily and yearly, and its spectrum.
pub struct ShapeV {
    pub daily: Option<Seq<char>>,
    pub yearly: Option<Seq<char>>,
    pub spectrum: Option<Seq<char>>,
}

pub open spec fn shape_of(m: Sem, load: DistLoadV) -> ShapeV {
    ShapeV {
        daily: extra_text(m, load.extras, "daily"@),
        yearly: extra_text(m, load.extras, "yearly"@),
        spectrum: extra_text(m, load.extras, "spectrum"@),
    }
}

pub open spec fn is_plain(s: ShapeV) -> bool {
    s.daily is None && s.yearly is None && s.spectrum is None
}

/// The schedule that a shape is of.
pub open spec fn schedule_of(s: ShapeV) -> Option<Seq<char>> {
    match s.daily {
        Some(d) => Some(d),
        None => s.yearly,
    }
}

/// The name of the profile row of a shape.
pub open spec fn row_name(s: ShapeV) -> Seq<char> {
    "Load:"@ + or_blank(s.daily) + ":::"@ + or_blank(s.yearly) + "::"@ + or_blank(s.spectrum)
}

/// The profile row of a shape.
pub open spec fn row_of(s: ShapeV) -> JsonV {
    let p = identified_of("EnergyConnectionProfile"@, row_name(s), None);
    let p = put_text(p, "EnergyConnectionProfile.dssDaily"@, s.daily);
    let p = put_text(p, "EnergyConnectionProfile.dssYearly"@, s.yearly);
    let p = put_text(p, "EnergyConnectionProfile.dssSpectrum"@, s.spectrum);
    JsonV::Obj(p)
}

/// A network carries a schedule.
pub open spec fn carries(net: DistNetworkV, schedule: Seq<char>) -> bool {
    has_untyped(net.untyped, "EnergyConsumerSchedule"@, schedule)
}

/// The shape of a load can be read: the network carries its schedule, and the
/// first profile of the schedule in the document is that of the shape.
pub open spec fn shape_told(m: Sem, net: DistNetworkV, doc: Seq<ObjV>, load: DistLoadV) -> bool {
    let s = shape_of(m, load);
    is_plain(s) || {
        &&& schedule_of(s) matches Some(x)
        &&& carries(net, x)
        &&& profile_from(doc, x, 0) matches Some(p)
        &&& str_at(p, "EnergyConnectionProfile.dssDaily"@) == s.daily
        &&& str_at(p, "EnergyConnectionProfile.dssYearly"@) == s.yearly
        &&& str_at(p, "EnergyConnectionProfile.dssSpectrum"@) == s.spectrum
    }
}

/// A load can be written again: it has a power for each of its phases, and what
/// it depends on its voltage by comes back.
pub open spec fn load_kept(m: Sem, load: DistLoadV) -> bool {
    &&& load_told(m, load)
    &&& model_told(m, load.voltage_model)
    &&& response_kept(m, load)
}

// ---- wires -----------------------------------------------------------------

proof fn lemma_hot_push(map: Seq<Seq<char>>, x: Seq<char>, n: nat)
    requires
        n <= map.len(),
    ensures
        letters_n(map.push(x), true, n) == letters_n(map, true, n),
        hot_letters_n(map.push(x), n) == hot_letters_n(map, n),
    decreases n,
{
    if n > 0 {
        lemma_hot_push(map, x, (n - 1) as nat);
        assert(map.push(x)[n - 1] == map[n - 1]);
    }
}

/// The wires that a load comes back on are written as its own.
proof fn lemma_wires_again(load: DistLoadV)
    ensures
        hot_letters_of(returned_wires(load)) == hot_letters_of(load.terminal_map),
        hot_code_of(returned_wires(load)) == hot_code_of(load.terminal_map),
        returned_wires(load).contains("4"@) == (load.configuration != Configuration::Delta
            && load.terminal_map.contains("4"@)),
{
    let hot = hot_wires(load.terminal_map);
    lemma_hot_letters(load.terminal_map, load.terminal_map.len());
    lemma_hot_map_writes_the_same(load.terminal_map);
    lemma_letters();
    assert("4"@[0] == '4' && "1"@[0] == '1' && "2"@[0] == '2' && "3"@[0] == '3');
    assert(terminal_phase_of("4"@) == Some("N"@));
    lemma_hot_push(hot, "4"@, hot.len());
    let g = hot.push("4"@);
    assert(g[hot.len() as int] == "4"@);
    assert(g.contains("4"@));
    assert(hot_letters_of(g) == hot_letters_of(hot));
    assert(hot_code_of(g) == hot_code_of(hot));
    if hot.contains("4"@) {
        let i = choose|i: int| 0 <= i < hot.len() && hot[i] == "4"@;
        assert(hot[i] != "4"@);
    }
}

// ---- objects ---------------------------------------------------------------

proof fn lemma_phases_same(
    w: WriterV,
    v: WriterV,
    m: Sem,
    a: DistLoadV,
    b: DistLoadV,
    letters: Seq<Seq<char>>,
    n: nat,
)
    requires
        a.name == b.name,
        a.p_nom == b.p_nom,
        a.q_nom == b.q_nom,
    ensures
        load_phases_json(w, m, a, letters, n).1 == load_phases_json(v, m, b, letters, n).1,
    decreases n,
{
    if n > 0 {
        lemma_phases_same(w, v, m, a, b, letters, (n - 1) as nat);
        reveal(load_phase_json);
        reveal(WriterV::num);
    }
}

proof fn lemma_phases_even(
    w: WriterV,
    m: Sem,
    a: DistLoadV,
    letters: Seq<Seq<char>>,
    n: nat,
)
    ensures
        even(w, load_phases_json(w, m, a, letters, n).0),
    decreases n,
{
    broadcast use group_even;

    if n > 0 {
        lemma_phases_even(w, m, a, letters, (n - 1) as nat);
        reveal(load_phase_json);
    }
}

/// Loads of which the same values are written.
pub open spec fn alike(m: Sem, a: DistLoadV, b: DistLoadV) -> bool {
    &&& a.name == b.name
    &&& a.bus == b.bus
    &&& identified_of("EnergyConsumer"@, a.name, extras_mrid_of(a.extras)) == identified_of(
        "EnergyConsumer"@,
        b.name,
        extras_mrid_of(b.extras),
    )
    &&& a.p_nom == b.p_nom
    &&& a.q_nom == b.q_nom
    &&& (a.configuration == Configuration::Delta) == (b.configuration == Configuration::Delta)
    &&& (a.configuration != Configuration::Delta && a.terminal_map.contains("4"@)) == (
    b.configuration != Configuration::Delta && b.terminal_map.contains("4"@))
    &&& hot_letters_of(a.terminal_map) == hot_letters_of(b.terminal_map)
    &&& hot_code_of(a.terminal_map) == hot_code_of(b.terminal_map)
    &&& same_response(m, a.voltage_model, b.voltage_model)
    &&& shape_of(m, a) == shape_of(m, b)
}

proof fn lemma_head_same(
    w: WriterV,
    v: WriterV,
    m: Sem,
    x: DistNetworkV,
    y: DistNetworkV,
    a: DistLoadV,
    b: DistLoadV,
)
    requires
        alike(m, a, b),
        v.base_of(a.bus) == w.base_of(a.bus),
        schedule_of(shape_of(m, a)) matches Some(s) ==> carries(x, s) == carries(y, s),
    ensures
        load_head(w, m, x, a).1 == load_head(v, m, y, b).1,
{
    broadcast use group_even;

    reveal(load_head);
    reveal(WriterV::base_of);
    reveal(WriterV::load_response);
    reveal(WriterV::attach_profile);
    reveal(WriterV::num);
    reveal(WriterV::put_base);
}

#[verifier::rlimit(60)]
proof fn lemma_load_same(
    w: WriterV,
    v: WriterV,
    m: Sem,
    x: DistNetworkV,
    y: DistNetworkV,
    a: DistLoadV,
    b: DistLoadV,
)
    requires
        alike(m, a, b),
        v.base_of(a.bus) == w.base_of(a.bus),
        bounds_at(x, a.bus) == bounds_at(y, a.bus),
        schedule_of(shape_of(m, a)) matches Some(s) ==> carries(x, s) == carries(y, s),
    ensures
        load_json(w, m, x, a).1 == load_json(v, m, y, b).1,
{
    lemma_head_same(w, v, m, x, y, a, b);
    let letters = hot_letters_of(a.terminal_map);
    assert forall|p: WriterV, q: WriterV| #[trigger] load_phases_json(p, m, a, letters, letters.len()).1
        == #[trigger] load_phases_json(q, m, b, letters, letters.len()).1 by {
        lemma_phases_same(p, q, m, a, b, letters, letters.len());
    }
    assert forall|p: WriterV, q: WriterV| #[trigger] p.bus_voltage_limit(m, x, a.bus).1
        == #[trigger] q.bus_voltage_limit(m, y, a.bus).1 by {
        lemma_bus_limit(p, m, x, a.bus);
        lemma_bus_limit(q, m, y, a.bus);
    }
    reveal(load_json);
}

/// The limit set of a bus that is bounded both ways.
proof fn lemma_bus_limit(w: WriterV, m: Sem, net: DistNetworkV, bus: Seq<char>)
    ensures
        w.bus_voltage_limit(m, net, bus).1 == match bounds_at(net, bus) {
            Some((low, high)) => Some(bounds_name(m, low, high)),
            None => None,
        },
        w.bus_voltage_limit(m, net, bus).0.responses == w.responses,
        w.bus_voltage_limit(m, net, bus).0.profiles == w.profiles,
        w.bus_voltage_limit(m, net, bus).0.bases == w.bases,
{
    reveal(WriterV::bus_voltage_limit);
    if let Some(c) = volts_ask(bounds_at(net, bus), w.base_of(bus)) {
        lemma_asked(w, m, c);
    }
}

/// What the reader makes of an object of a load.
pub open spec fn load_read(m: Sem, doc: Seq<ObjV>, st: StateV, o: ObjV) -> DistLoadV {
    load_step(m, doc, st, o).net.loads.last()
}

/// The record that a load points at is in the document, and its shape can be
/// read.
pub open spec fn answered(m: Sem, net: DistNetworkV, doc: Seq<ObjV>, load: DistLoadV) -> bool {
    &&& shape_told(m, net, doc, load)
    &&& named_of(doc, "LoadResponseCharacteristic"@, response_name(load)) matches Some(record)
    &&& says_response(m, record, load.voltage_model)
}

/// What an object of a load points at: its record, and the schedule of its shape.
#[verifier::rlimit(60)]
proof fn lemma_load_points(w: WriterV, m: Sem, net: DistNetworkV, load: DistLoadV)
    ensures
        load_json(w, m, net, load).1 matches JsonV::Obj(o) && {
            &&& get_of(o, "EnergyConsumer.LoadResponse"@) == Some(
                pointer_json("LoadResponseCharacteristic"@, response_name(load)),
            )
            &&& get_of(o, "EnergyConsumer.LoadProfile"@) == match schedule_of(shape_of(m, load)) {
                Some(s) => if carries(net, s) {
                    Some(pointer_json("EnergyConsumerSchedule"@, s))
                } else {
                    None
                },
                None => None,
            }
        },
{
    broadcast use lemma_get_put;

    lemma_load_keys();
    reveal_strlit("EnergyConsumer.LoadProfile");
    reveal_strlit("EnergyConsumer.LoadResponse");
    reveal_strlit("EnergyConsumer.EnergyConsumerPhase");
    reveal_strlit("EnergyConsumer.phaseConnection");
    reveal_strlit("EnergyConsumer.grounded");
    reveal_strlit("EnergyConsumer.p");
    reveal_strlit("EnergyConsumer.q");
    reveal_strlit("Equipment.inService");
    reveal_strlit("ConductingEquipment.BaseVoltage");
    reveal_strlit("ConductingEquipment.Terminals");
    assert("EnergyConsumer.LoadProfile"@.len() == 26);
    assert("EnergyConsumer.LoadResponse"@.len() == 27);
    assert("EnergyConsumer.EnergyConsumerPhase"@.len() == 34);
    assert("EnergyConsumer.phaseConnection"@.len() == 30);
    assert("EnergyConsumer.grounded"@.len() == 23);
    assert("EnergyConsumer.p"@.len() == 16);
    assert("EnergyConsumer.q"@.len() == 16);
    assert("Equipment.inService"@.len() == 19);
    assert("ConductingEquipment.BaseVoltage"@.len() == 31);
    assert("ConductingEquipment.Terminals"@.len() == 29);
    lemma_identified(
        "EnergyConsumer"@,
        load.name,
        extras_mrid_of(load.extras),
        "EnergyConsumer.LoadProfile"@,
    );
    reveal(load_json);
    reveal(load_head);
    reveal(WriterV::load_response);
    reveal(WriterV::attach_profile);
    reveal(WriterV::put_base);
}

proof fn lemma_resolves(
    w: WriterV,
    m: Sem,
    net: DistNetworkV,
    load: DistLoadV,
    doc: Seq<ObjV>,
    o: Entries,
) -> (record:
    Entries)
    requires
        load_json(w, m, net, load).1 == JsonV::Obj(o),
        answered(m, net, doc, load),
    ensures
        resolve_at(doc, o, "EnergyConsumer.LoadResponse"@) == Some(record),
        says_response(m, record, load.voltage_model),
        target_at(o, "EnergyConsumer.LoadProfile"@) == schedule_of(shape_of(m, load)),
{
    let class = "LoadResponseCharacteristic"@;
    let record = named_of(doc, class, response_name(load))->0;
    lemma_load_points(w, m, net, load);
    reveal_strlit("LoadResponseCharacteristic");
    lemma_pointer_reads_back(class, response_name(load));
    reveal_strlit("EnergyConsumerSchedule");
    if let Some(s) = schedule_of(shape_of(m, load)) {
        lemma_pointer_reads_back("EnergyConsumerSchedule"@, s);
    }
    reveal(resolve_at);
    reveal(named_of);
    reveal(target_at);
    reveal(str_at);
    record
}

/// What is read of a load has the shape that it points at.
#[verifier::rlimit(40)]
proof fn lemma_shape_again(
    m: Sem,
    net: DistNetworkV,
    doc: Seq<ObjV>,
    props: Entries,
    load: DistLoadV,
)
    requires
        target_at(props, "EnergyConsumer.LoadProfile"@) == schedule_of(shape_of(m, load)),
        shape_told(m, net, doc, load),
    ensures
        forall|base: Option<Bits>, phases: nat, delta: bool|
            {
                let e = #[trigger] load_extras_of(m, doc, props, base, phases, delta);
                let s = shape_of(m, load);
                &&& extra_text(m, e, "daily"@) == s.daily
                &&& extra_text(m, e, "yearly"@) == s.yearly
                &&& extra_text(m, e, "spectrum"@) == s.spectrum
            },
{
    broadcast use lemma_get_put;

    reveal(load_extras_of);
    reveal(with_profiles);
    reveal(note_text);
    reveal(mrid_extras);
    reveal_strlit("ravens_mrid");
    reveal_strlit("kv");
    reveal_strlit("phases");
    reveal_strlit("daily");
    reveal_strlit("yearly");
    reveal_strlit("spectrum");
    assert("ravens_mrid"@.len() == 11 && "kv"@.len() == 2);
    assert("phases"@.len() == 6 && "phases"@[0] == 'p');
    assert("daily"@.len() == 5 && "spectrum"@.len() == 8);
    assert("yearly"@.len() == 6 && "yearly"@[0] == 'y');
    lemma_get_none("daily"@);
    lemma_get_none("yearly"@);
    lemma_get_none("spectrum"@);
    let s = shape_of(m, load);
    assert forall|base: Option<Bits>, phases: nat, delta: bool|
        {
            let e = #[trigger] load_extras_of(m, doc, props, base, phases, delta);
            &&& get_of(e, "daily"@) == text_json(s.daily)
            &&& get_of(e, "yearly"@) == text_json(s.yearly)
            &&& get_of(e, "spectrum"@) == text_json(s.spectrum)
        } by {}
    assert forall|base: Option<Bits>, phases: nat, delta: bool|
        {
            let e = #[trigger] load_extras_of(m, doc, props, base, phases, delta);
            &&& extra_text(m, e, "daily"@) == s.daily
            &&& extra_text(m, e, "yearly"@) == s.yearly
            &&& extra_text(m, e, "spectrum"@) == s.spectrum
        } by {
        let e = load_extras_of(m, doc, props, base, phases, delta);
        assert(get_of(e, "daily"@) == text_json(s.daily));
        lemma_text(m, e, "daily"@, s.daily);
        lemma_text(m, e, "yearly"@, s.yearly);
        lemma_text(m, e, "spectrum"@, s.spectrum);
    }
}

/// A text as a value.
pub open spec fn text_json(s: Option<Seq<char>>) -> Option<JsonV> {
    match s {
        Some(t) => Some(JsonV::Str(t)),
        None => None,
    }
}

proof fn lemma_text(m: Sem, e: Entries, key: Seq<char>, s: Option<Seq<char>>)
    requires
        get_of(e, key) == text_json(s),
    ensures
        extra_text(m, e, key) == s,
{
    reveal(extra_text);
}

/// A load is read plainly, as a load of which the same values are written.
#[verifier::rlimit(60)]
pub proof fn lemma_load_plain(
    w: WriterV,
    m: Sem,
    net: DistNetworkV,
    load: DistLoadV,
    doc: Seq<ObjV>,
    st: StateV,
    o: ObjV,
    buses: Seq<DistBusV>,
)
    requires
        o.name == load.name,
        load_json(w, m, net, load).1 == JsonV::Obj(o.props),
        load_kept(m, load),
        answered(m, net, doc, load),
        declared(buses, load.bus),
    ensures
        plainly(st, load_step(m, doc, st, o), buses),
        load_step(m, doc, st, o).net.loads.len() > 0,
        comes_of_load(load_read(m, doc, st, o), load),
        comes_of_model(m, load_read(m, doc, st, o), load),
        shape_of(m, load_read(m, doc, st, o)) == shape_of(m, load),
{
    broadcast use {lemma_use_declared, lemma_ground_declared, lemma_use_plain};

    lemma_load_says(w, m, net, load);
    let record = lemma_resolves(w, m, net, load, doc, o.props);
    lemma_model_step(m, doc, st, o, load, record);
    lemma_shape_again(m, net, doc, o.props, load);
    let phases = load_phases(load);
    let at = terminals_of(o.props)[0].1;
    assert(load_phases_of(m, st, o, at.phases) == (st, phases)) by {
        reveal(load_phases_of);
    }
    lemma_load_wires(st, o, load);
    reveal(StateV::defaulted);
    reveal(StateV::warn);
    reveal(StateV::ground_node);
}

/// A load object is stable: writing what the reader makes of a written load gives
/// the same object, where the base voltage of its bus is the same.
#[verifier::rlimit(40)]
pub proof fn lemma_load_object_is_stable(
    w: WriterV,
    v: WriterV,
    m: Sem,
    net: DistNetworkV,
    other: DistNetworkV,
    load: DistLoadV,
    doc: Seq<ObjV>,
    st: StateV,
    o: ObjV,
)
    requires
        o.name == load.name,
        load_json(w, m, net, load).1 == JsonV::Obj(o.props),
        load_kept(m, load),
        answered(m, net, doc, load),
        v.base_of(load.bus) == w.base_of(load.bus),
        bounds_at(net, load.bus) == bounds_at(other, load.bus),
        schedule_of(shape_of(m, load)) matches Some(s) ==> carries(net, s) == carries(other, s),
    ensures
        load_json(v, m, other, load_read(m, doc, st, o)).1 == JsonV::Obj(o.props),
        alike(m, load, load_read(m, doc, st, o)),
{
    let back = load_read(m, doc, st, o);
    let buses = seq![dist_bus_of(load.bus, seq![])];
    assert(buses[0].id == load.bus);
    assert(declared(buses, load.bus));
    lemma_load_plain(w, m, net, load, doc, st, o, buses);
    lemma_wires_again(load);
    lemma_identified_again("EnergyConsumer"@, load.name, extras_mrid_of(load.extras));
    let x = choose|x: Seq<Bits>|
        back.voltage_model == #[trigger] returned_model(m, load.voltage_model, x);
    assert(same_response(m, load.voltage_model, returned_model(m, load.voltage_model, x)));
    lemma_load_same(w, v, m, net, other, load, back);
}

// ---- records ---------------------------------------------------------------

/// The record of a load.
pub open spec fn record_of(m: Sem, load: DistLoadV) -> JsonV {
    get_of(
        fresh_writer(Seq::empty()).load_response(m, load).0.responses,
        response_name(load),
    )->0
}

/// A load that has a record of its own.
pub open spec fn has_own(load: DistLoadV) -> bool {
    load.voltage_model is Zip || load.voltage_model is Exponential
}

proof fn lemma_share_same(
    w: WriterV,
    v: WriterV,
    m: Sem,
    o: Entries,
    x: Seq<char>,
    y: Seq<char>,
    key: Seq<char>,
    a: Seq<Bits>,
    b: Seq<Bits>,
)
    requires
        percent(m, a) == percent(m, b),
    ensures
        w.put_share(m, o, x, key, a).1 == v.put_share(m, o, y, key, b).1,
        w.put_share(m, o, x, key, a).0.responses == w.responses,
{
    broadcast use group_even;

    reveal(WriterV::put_share);
    reveal(WriterV::num);
}

/// What the response of a load leaves: its record, under its name.
#[verifier::rlimit(60)]
proof fn lemma_response_put(w: WriterV, m: Sem, load: DistLoadV)
    ensures
        w.load_response(m, load).0.responses == if !has_own(load) && get_of(
            w.responses,
            response_name(load),
        ) is Some {
            w.responses
        } else {
            put_of(w.responses, response_name(load), record_of(m, load))
        },
{
    broadcast use {lemma_get_put, group_even};

    let v = fresh_writer(Seq::empty());
    lemma_get_none(response_name(load));
    reveal(WriterV::load_response);
    reveal(WriterV::shared_response);
    reveal(WriterV::num);
    assert forall|a: WriterV, b: WriterV, o: Entries, x: Seq<char>, key: Seq<char>, s: Seq<Bits>|
        (#[trigger] a.put_share(m, o, x, key, s)).1 == (#[trigger] b.put_share(m, o, x, key, s)).1
        && a.put_share(m, o, x, key, s).0.responses == a.responses by {
        lemma_share_same(a, b, m, o, x, x, key, s, s);
    }
}

/// Loads of one name whose models are written the same leave the same record.
#[verifier::rlimit(60)]
proof fn lemma_same_record(m: Sem, a: DistLoadV, b: DistLoadV)
    requires
        same_response(m, a.voltage_model, b.voltage_model),
        has_own(a) ==> a.name == b.name,
    ensures
        response_name(a) == response_name(b),
        record_of(m, a) == record_of(m, b),
{
    broadcast use {lemma_get_put, group_even};

    let v = fresh_writer(Seq::empty());
    lemma_get_none(response_name(a));
    reveal(WriterV::load_response);
    reveal(WriterV::shared_response);
    reveal(WriterV::num);
    match (a.voltage_model, b.voltage_model) {
        (
            DistLoadVoltageModelV::Zip {
                v_nom: _,
                alpha_z: az,
                alpha_i: ai,
                alpha_p: ap,
                beta_z: bz,
                beta_i: bi,
                beta_p: bp,
            },
            DistLoadVoltageModelV::Zip {
                v_nom: _,
                alpha_z: cz,
                alpha_i: ci,
                alpha_p: cp,
                beta_z: dz,
                beta_i: di,
                beta_p: dp,
            },
        ) => {
            let x = "load "@ + a.name;
            let o = identified_of("LoadResponseCharacteristic"@, a.name + "_response"@, None);
            let p1 = v.put_share(m, o, x, "pConstantImpedance"@, az);
            let q1 = v.put_share(m, o, x, "pConstantImpedance"@, cz);
            lemma_share_same(v, v, m, o, x, x, "pConstantImpedance"@, az, cz);
            let p2 = p1.0.put_share(m, p1.1, x, "pConstantCurrent"@, ai);
            let q2 = q1.0.put_share(m, q1.1, x, "pConstantCurrent"@, ci);
            lemma_share_same(p1.0, q1.0, m, p1.1, x, x, "pConstantCurrent"@, ai, ci);
            let p3 = p2.0.put_share(m, p2.1, x, "pConstantPower"@, ap);
            let q3 = q2.0.put_share(m, q2.1, x, "pConstantPower"@, cp);
            lemma_share_same(p2.0, q2.0, m, p2.1, x, x, "pConstantPower"@, ap, cp);
            let p4 = p3.0.put_share(m, p3.1, x, "qConstantImpedance"@, bz);
            let q4 = q3.0.put_share(m, q3.1, x, "qConstantImpedance"@, dz);
            lemma_share_same(p3.0, q3.0, m, p3.1, x, x, "qConstantImpedance"@, bz, dz);
            let p5 = p4.0.put_share(m, p4.1, x, "qConstantCurrent"@, bi);
            let q5 = q4.0.put_share(m, q4.1, x, "qConstantCurrent"@, di);
            lemma_share_same(p4.0, q4.0, m, p4.1, x, x, "qConstantCurrent"@, bi, di);
            lemma_share_same(p5.0, q5.0, m, p5.1, x, x, "qConstantPower"@, bp, dp);
        },
        _ => {},
    }
}

/// The records that loads point at, by name.
pub open spec fn reply_pairs(m: Sem, s: Seq<DistLoadV>) -> Entries {
    Seq::new(s.len(), |i: int| (response_name(s[i]), record_of(m, s[i])))
}

/// Loads that point at one record would write the same.
pub open spec fn replies_agree(m: Sem, s: Seq<DistLoadV>) -> bool {
    forall|i: int, j: int|
        0 <= i < s.len() && 0 <= j < s.len() && response_name(#[trigger] s[i]) == response_name(
            #[trigger] s[j],
        ) ==> record_of(m, s[i]) == record_of(m, s[j])
}

/// Loads with names of their own point at records that they agree on.
pub proof fn lemma_names_agree(m: Sem, s: Seq<DistLoadV>)
    requires
        forall|i: int, j: int|
            0 <= i < j < s.len() ==> (#[trigger] s[i]).name != (#[trigger] s[j]).name,
    ensures
        replies_agree(m, s),
{
    assert forall|i: int, j: int|
        0 <= i < s.len() && 0 <= j < s.len() && response_name(#[trigger] s[i]) == response_name(
            #[trigger] s[j],
        ) implies record_of(m, s[i]) == record_of(m, s[j]) by {
        if i != j {
            assert(s[i].name != s[j].name) by {
                if i < j {
                    assert(s[i].name != s[j].name);
                } else {
                    assert(s[j].name != s[i].name);
                }
            }
            lemma_response_names(s[i], s[j]);
            lemma_same_record(m, s[i], s[j]);
        }
    }
}

/// What a load leaves in the writer.
#[verifier::rlimit(40)]
proof fn lemma_load_writes(w: WriterV, m: Sem, net: DistNetworkV, load: DistLoadV)
    ensures
        ({
            let v = load_json(w, m, net, load).0;
            let s = shape_of(m, load);
            &&& v.profiles == if is_plain(s) || get_of(w.profiles, row_name(s)) is Some {
                w.profiles
            } else {
                put_of(w.profiles, row_name(s), row_of(s))
            }
            &&& v.bases == w.bases
            &&& v.responses == if !has_own(load) && get_of(w.responses, response_name(load)) is Some {
                w.responses
            } else {
                put_of(w.responses, response_name(load), record_of(m, load))
            }
        }),
{
    broadcast use {group_even, lemma_share_even};

    let u = lemma_load_replies(w, m, net, load);
    lemma_response_put(u, m, load);
    let letters = hot_letters_of(load.terminal_map);
    assert forall|p: WriterV| even(
        p,
        #[trigger] load_phases_json(p, m, load, letters, letters.len()).0,
    ) by {
        lemma_phases_even(p, m, load, letters, letters.len());
    }
    assert forall|p: WriterV| (#[trigger] p.bus_voltage_limit(m, net, load.bus)).0.profiles
        == p.profiles && p.bus_voltage_limit(m, net, load.bus).0.bases == p.bases by {
        lemma_bus_limit(p, m, net, load.bus);
    }
    reveal(load_json);
    reveal(load_head);
    reveal(WriterV::load_response);
    reveal(WriterV::shared_response);
    reveal(WriterV::attach_profile);
}

/// The profile rows of the first `n` loads.
pub open spec fn rows_n(m: Sem, s: Seq<DistLoadV>, n: nat) -> Entries
    decreases n,
{
    if n == 0 {
        Entries::empty()
    } else {
        let before = rows_n(m, s, (n - 1) as nat);
        let x = shape_of(m, s[n - 1]);
        if is_plain(x) {
            before
        } else {
            put_of(before, row_name(x), row_of(x))
        }
    }
}

/// Loads of one profile row have the same shape.
pub open spec fn rows_agree(m: Sem, s: Seq<DistLoadV>) -> bool {
    forall|i: int, j: int|
        0 <= i < s.len() && 0 <= j < s.len() && !is_plain(shape_of(m, #[trigger] s[i]))
            && !is_plain(shape_of(m, #[trigger] s[j])) && row_name(shape_of(m, s[i])) == row_name(
            shape_of(m, s[j]),
        ) ==> shape_of(m, s[i]) == shape_of(m, s[j])
}

pub proof fn lemma_rows_sorted(m: Sem, s: Seq<DistLoadV>, n: nat)
    ensures
        sorted(rows_n(m, s, n)),
    decreases n,
{
    if n > 0 {
        lemma_rows_sorted(m, s, (n - 1) as nat);
        let x = shape_of(m, s[n - 1]);
        lemma_put(rows_n(m, s, (n - 1) as nat), row_name(x), row_of(x));
    }
}

/// A profile row is that of a load.
proof fn lemma_row_entry(m: Sem, s: Seq<DistLoadV>, n: nat, k: Seq<char>) -> (i: int)
    requires
        n <= s.len(),
        get_of(rows_n(m, s, n), k) is Some,
    ensures
        0 <= i < n,
        !is_plain(shape_of(m, s[i])),
        row_name(shape_of(m, s[i])) == k,
        get_of(rows_n(m, s, n), k) == Some(row_of(shape_of(m, s[i]))),
    decreases n,
{
    if n == 0 {
        reveal(get_of);
        0
    } else {
        let before = rows_n(m, s, (n - 1) as nat);
        let x = shape_of(m, s[n - 1]);
        lemma_rows_sorted(m, s, (n - 1) as nat);
        lemma_put(before, row_name(x), row_of(x));
        if !is_plain(x) && k == row_name(x) {
            n - 1
        } else {
            lemma_row_entry(m, s, (n - 1) as nat, k)
        }
    }
}

/// Each load with a shape has its row.
proof fn lemma_row_holds(m: Sem, s: Seq<DistLoadV>, n: nat, i: int)
    requires
        0 <= i < n <= s.len(),
        !is_plain(shape_of(m, s[i])),
    ensures
        get_of(rows_n(m, s, n), row_name(shape_of(m, s[i]))) is Some,
    decreases n,
{
    let before = rows_n(m, s, (n - 1) as nat);
    let x = shape_of(m, s[n - 1]);
    lemma_rows_sorted(m, s, (n - 1) as nat);
    lemma_put(before, row_name(x), row_of(x));
    if i < n - 1 {
        lemma_row_holds(m, s, (n - 1) as nat, i);
    }
}

/// Some load has a shape.
#[verifier::opaque]
pub open spec fn shaped(m: Sem, s: Seq<DistLoadV>, x: ShapeV) -> bool {
    exists|k: int| 0 <= k < s.len() && shape_of(m, #[trigger] s[k]) == x
}

pub proof fn lemma_is_shaped(m: Sem, s: Seq<DistLoadV>, x: ShapeV, k: int)
    requires
        0 <= k < s.len(),
        shape_of(m, s[k]) == x,
    ensures
        shaped(m, s, x),
{
    reveal(shaped);
}

pub proof fn lemma_shaped(m: Sem, s: Seq<DistLoadV>, x: ShapeV) -> (k: int)
    requires
        shaped(m, s, x),
    ensures
        0 <= k < s.len(),
        shape_of(m, s[k]) == x,
{
    reveal(shaped);
    choose|k: int| 0 <= k < s.len() && shape_of(m, #[trigger] s[k]) == x
}

/// Loads of the same shapes leave the same rows.
pub proof fn lemma_same_rows(m: Sem, a: Seq<DistLoadV>, b: Seq<DistLoadV>)
    requires
        rows_agree(m, a),
        forall|i: int| 0 <= i < a.len() ==> shaped(m, b, shape_of(m, #[trigger] a[i])),
        forall|k: int| 0 <= k < b.len() ==> shaped(m, a, shape_of(m, #[trigger] b[k])),
    ensures
        rows_agree(m, b),
        rows_n(m, a, a.len()) == rows_n(m, b, b.len()),
{
    assert forall|i: int, j: int|
        0 <= i < b.len() && 0 <= j < b.len() && !is_plain(shape_of(m, #[trigger] b[i]))
            && !is_plain(shape_of(m, #[trigger] b[j])) && row_name(shape_of(m, b[i])) == row_name(
            shape_of(m, b[j]),
        ) implies shape_of(m, b[i]) == shape_of(m, b[j]) by {
        assert(shaped(m, a, shape_of(m, b[i])) && shaped(m, a, shape_of(m, b[j])));
        let x = lemma_shaped(m, a, shape_of(m, b[i]));
        let y = lemma_shaped(m, a, shape_of(m, b[j]));
        assert(shape_of(m, a[x]) == shape_of(m, a[y]));
    }
    let p = rows_n(m, a, a.len());
    let q = rows_n(m, b, b.len());
    lemma_rows_sorted(m, a, a.len());
    lemma_rows_sorted(m, b, b.len());
    assert forall|k: Seq<char>| #[trigger] get_of(p, k) == get_of(q, k) by {
        if get_of(p, k) is Some {
            let i = lemma_row_entry(m, a, a.len(), k);
            assert(shaped(m, b, shape_of(m, a[i])));
            let j = lemma_shaped(m, b, shape_of(m, a[i]));
            lemma_row_holds(m, b, b.len(), j);
            let h = lemma_row_entry(m, b, b.len(), k);
            assert(shape_of(m, b[h]) == shape_of(m, b[j]));
        } else if get_of(q, k) is Some {
            let i = lemma_row_entry(m, b, b.len(), k);
            assert(shaped(m, a, shape_of(m, b[i])));
            let j = lemma_shaped(m, a, shape_of(m, b[i]));
            lemma_row_holds(m, a, a.len(), j);
        }
    }
    lemma_sorted_unique(p, q);
}

/// What loads leave in the writer: their records, and the rows of their shapes.
#[verifier::rlimit(40)]
pub proof fn lemma_loads_write(w: WriterV, m: Sem, net: DistNetworkV, n: nat)
    requires
        n <= net.loads.len(),
        w.responses == Entries::empty(),
        replies_agree(m, net.loads),
    ensures
        ({
            let v = loads_json(w, m, net, n).0;
            &&& rows_agree(m, net.loads) && w.profiles == Entries::empty() ==> v.profiles == rows_n(
                m,
                net.loads,
                n,
            )
            &&& v.bases == w.bases
            &&& v.responses == table_n(reply_pairs(m, net.loads), n)
        }),
    decreases n,
{
    if n > 0 {
        let s = reply_pairs(m, net.loads);
        lemma_loads_write(w, m, net, (n - 1) as nat);
        let before = loads_json(w, m, net, (n - 1) as nat).0;
        let load = net.loads[n - 1];
        lemma_load_writes(before, m, net, load);
        let t = table_n(s, (n - 1) as nat);
        if get_of(t, response_name(load)) is Some {
            let i = lemma_table_entry(s, (n - 1) as nat, response_name(load));
            assert(response_name(net.loads[i]) == response_name(net.loads[n - 1]));
            assert(record_of(m, net.loads[i]) == record_of(m, load));
            lemma_table_sorted(s, (n - 1) as nat);
            lemma_put(t, response_name(load), record_of(m, load));
            lemma_sorted_unique(put_of(t, response_name(load), record_of(m, load)), t);
        }
        let x = shape_of(m, load);
        let rows = rows_n(m, net.loads, (n - 1) as nat);
        if rows_agree(m, net.loads) && !is_plain(x) && get_of(rows, row_name(x)) is Some {
            let i = lemma_row_entry(m, net.loads, (n - 1) as nat, row_name(x));
            assert(shape_of(m, net.loads[i]) == shape_of(m, net.loads[n - 1]));
            lemma_rows_sorted(m, net.loads, (n - 1) as nat);
            lemma_put(rows, row_name(x), row_of(x));
            lemma_sorted_unique(put_of(rows, row_name(x), row_of(x)), rows);
        }
    }
}

/// Some load points at the record that a load points at.
#[verifier::opaque]
pub open spec fn replied(m: Sem, s: Seq<DistLoadV>, x: DistLoadV) -> bool {
    exists|k: int|
        0 <= k < s.len() && response_name(#[trigger] s[k]) == response_name(x) && record_of(
            m,
            s[k],
        ) == record_of(m, x)
}

pub proof fn lemma_replied(m: Sem, s: Seq<DistLoadV>, x: DistLoadV) -> (k: int)
    requires
        replied(m, s, x),
    ensures
        0 <= k < s.len(),
        response_name(s[k]) == response_name(x),
        record_of(m, s[k]) == record_of(m, x),
{
    reveal(replied);
    choose|k: int|
        0 <= k < s.len() && response_name(#[trigger] s[k]) == response_name(x) && record_of(
            m,
            s[k],
        ) == record_of(m, x)
}

pub proof fn lemma_is_replied(m: Sem, s: Seq<DistLoadV>, x: DistLoadV, k: int)
    requires
        0 <= k < s.len(),
        alike(m, s[k], x) || alike(m, x, s[k]),
    ensures
        replied(m, s, x),
        response_name(s[k]) == response_name(x),
        record_of(m, s[k]) == record_of(m, x),
{
    if alike(m, s[k], x) {
        lemma_same_record(m, s[k], x);
    } else {
        lemma_same_record(m, x, s[k]);
    }
    reveal(replied);
}

/// Loads that point at the same records leave the same records.
pub proof fn lemma_same_replies(m: Sem, a: Seq<DistLoadV>, b: Seq<DistLoadV>)
    requires
        replies_agree(m, a),
        forall|i: int| 0 <= i < a.len() ==> replied(m, b, #[trigger] a[i]),
        forall|k: int| 0 <= k < b.len() ==> replied(m, a, #[trigger] b[k]),
    ensures
        table_of(reply_pairs(m, a)) == table_of(reply_pairs(m, b)),
{
    let pa = reply_pairs(m, a);
    let pb = reply_pairs(m, b);
    assert forall|j: int| 0 <= j < pb.len() implies get_of(table_of(pa), (#[trigger] pb[j]).0)
        == Some(pb[j].1) by {
        let x = b[j];
        assert(replied(m, a, x));
        let i = lemma_replied(m, a, x);
        assert(pa[i].0 == response_name(x));
        lemma_table_holds(pa, pa.len(), i);
        let h = lemma_table_entry(pa, pa.len(), response_name(x));
        assert(response_name(a[h]) == response_name(a[i]));
        assert(record_of(m, a[h]) == record_of(m, a[i]));
    }
    assert forall|i: int| 0 <= i < pa.len() implies named_in(pb, (#[trigger] pa[i]).0) by {
        let x = a[i];
        assert(replied(m, b, x));
        let k = lemma_replied(m, b, x);
        assert(pb[k].0 == pa[i].0);
    }
    lemma_one_table(pa, pb);
}

// ---- the table -------------------------------------------------------------

/// The loads of a network as they are written, by name.
pub open spec fn load_pairs(w: WriterV, m: Sem, net: DistNetworkV) -> Entries {
    Seq::new(
        net.loads.len(),
        |i: int|
            (
                net.loads[i].name,
                load_json(loads_json(w, m, net, i as nat).0, m, net, net.loads[i]).1,
            ),
    )
}

pub proof fn lemma_load_pairs(w: WriterV, m: Sem, net: DistNetworkV, n: nat)
    requires
        n <= net.loads.len(),
    ensures
        loads_json(w, m, net, n).1 == table_n(load_pairs(w, m, net), n),
    decreases n,
{
    if n > 0 {
        lemma_load_pairs(w, m, net, (n - 1) as nat);
    }
}

/// An entry of a table of loads is a load of the network.
pub proof fn lemma_load_entry(w: WriterV, m: Sem, net: DistNetworkV, o: ObjV) -> (i: int)
    requires
        get_of(loads_json(w, m, net, net.loads.len()).1, o.name) == Some(JsonV::Obj(o.props)),
    ensures
        0 <= i < net.loads.len(),
        net.loads[i].name == o.name,
        load_json(loads_json(w, m, net, i as nat).0, m, net, net.loads[i]).1 == JsonV::Obj(o.props),
{
    lemma_load_pairs(w, m, net, net.loads.len());
    lemma_table_entry(load_pairs(w, m, net), net.loads.len(), o.name)
}

pub proof fn lemma_load_origin(
    m: Sem,
    doc: Seq<ObjV>,
    st: StateV,
    ids: Seq<usize>,
    n: nat,
    k: int,
) -> (i:
    int)
    requires
        st.net.loads.len() == 0,
        0 <= k < loads_n(m, doc, st, ids, n).net.loads.len(),
    ensures
        0 <= i < n,
        loads_n(m, doc, st, ids, n).net.loads[k] == load_read(
            m,
            doc,
            loads_n(m, doc, st, ids, i as nat),
            doc[ids[i] as int],
        ),
    decreases n,
{
    broadcast use {group_keeps, group_parts};

    let before = loads_n(m, doc, st, ids, (n - 1) as nat);
    if k < before.net.loads.len() {
        let i = lemma_load_origin(m, doc, st, ids, (n - 1) as nat, k);
        i
    } else {
        n - 1
    }
}

/// Two networks bound the same buses alike.
pub open spec fn same_bounds(a: DistNetworkV, b: DistNetworkV) -> bool {
    forall|bus: Seq<char>| #[trigger] bounds_at(a, bus) == bounds_at(b, bus)
}

/// The loads of a network are those that are read of a table of loads, each of
/// which can be written again.
pub open spec fn loads_come(
    w: WriterV,
    m: Sem,
    net: DistNetworkV,
    other: DistNetworkV,
    doc: Seq<ObjV>,
    st: StateV,
) -> bool {
    let ids = sorted_kind(doc, "EnergyConsumer"@);
    &&& doc.len() <= usize::MAX
    &&& st.net.loads.len() == 0
    &&& only_in("EnergyConsumer"@, loads_json(w, m, net, net.loads.len()).1, doc)
    &&& other.loads == loads_n(m, doc, st, ids, ids.len()).net.loads
    &&& forall|i: int| 0 <= i < net.loads.len() ==> load_kept(m, #[trigger] net.loads[i])
    &&& forall|i: int| 0 <= i < net.loads.len() ==> answered(m, net, doc, #[trigger] net.loads[i])
    &&& same_bounds(net, other)
    &&& same_schedules(net, other)
}

/// What a network carries of schedules, another carries.
pub open spec fn same_schedules(a: DistNetworkV, b: DistNetworkV) -> bool {
    forall|s: Seq<char>| #[trigger] carries(a, s) ==> carries(b, s)
}

/// The table of loads is written the same again.
#[verifier::rlimit(60)]
pub proof fn lemma_loads_written_again(
    w: WriterV,
    v: WriterV,
    m: Sem,
    net: DistNetworkV,
    other: DistNetworkV,
    doc: Seq<ObjV>,
    st: StateV,
)
    requires
        loads_come(w, m, net, other, doc, st),
        v.bases == w.bases,
        w.responses == Entries::empty(),
        v.responses == Entries::empty(),
        replies_agree(m, net.loads),
        replies_agree(m, other.loads),
        forall|i: int| 0 <= i < net.loads.len() ==> brought(other.loads, #[trigger] net.loads[i]),
    ensures
        loads_json(v, m, other, other.loads.len()).1 == loads_json(w, m, net, net.loads.len()).1,
        forall|k: int| 0 <= k < other.loads.len() ==> comes_alike(m, net, #[trigger] other.loads[k]),
{
    let a = load_pairs(w, m, net);
    let b = load_pairs(v, m, other);
    let kind = "EnergyConsumer"@;
    let ids = sorted_kind(doc, kind);
    lemma_load_pairs(w, m, net, net.loads.len());
    lemma_load_pairs(v, m, other, other.loads.len());
    reveal_strlit("EnergyConsumer");
    reveal_strlit("TransformerTankInfo");
    assert("EnergyConsumer"@.len() == 14);
    assert("TransformerTankInfo"@.len() == 19);
    lemma_all_alike(w, m, net, other, doc, st);
    assert forall|j: int| 0 <= j < b.len() implies get_of(table_of(a), (#[trigger] b[j]).0)
        == Some(b[j].1) by {
        lemma_pair_again(w, v, m, net, other, doc, st, j);
    }
    assert forall|i: int| 0 <= i < a.len() implies named_in(b, (#[trigger] a[i]).0) by {
        let load = net.loads[i];
        assert(brought(other.loads, load));
        let k = lemma_brought(other.loads, load);
        assert(b[k].0 == a[i].0);
    }
    lemma_one_table(a, b);
}

/// Every load that is read is like one of the network.
pub proof fn lemma_all_alike(
    w: WriterV,
    m: Sem,
    net: DistNetworkV,
    other: DistNetworkV,
    doc: Seq<ObjV>,
    st: StateV,
)
    requires
        loads_come(w, m, net, other, doc, st),
    ensures
        forall|k: int| 0 <= k < other.loads.len() ==> comes_alike(m, net, #[trigger] other.loads[k]),
{
    assert forall|k: int| 0 <= k < other.loads.len() implies comes_alike(
        m,
        net,
        #[trigger] other.loads[k],
    ) by {
        let i = lemma_load_again(w, m, net, other, doc, st, k);
        assert(alike(m, net.loads[i], other.loads[k]));
        reveal(comes_alike);
    }
}

/// What a load that is read is written as stands in the table.
#[verifier::rlimit(60)]
proof fn lemma_pair_again(
    w: WriterV,
    v: WriterV,
    m: Sem,
    net: DistNetworkV,
    other: DistNetworkV,
    doc: Seq<ObjV>,
    st: StateV,
    j: int,
)
    requires
        loads_come(w, m, net, other, doc, st),
        v.bases == w.bases,
        w.responses == Entries::empty(),
        v.responses == Entries::empty(),
        replies_agree(m, net.loads),
        replies_agree(m, other.loads),
        0 <= j < other.loads.len(),
    ensures
        get_of(table_of(load_pairs(w, m, net)), load_pairs(v, m, other)[j].0) == Some(
            load_pairs(v, m, other)[j].1,
        ),
{
    let i = lemma_load_again(w, m, net, other, doc, st, j);
    let back = other.loads[j];
    lemma_all_alike(w, m, net, other, doc, st);
    assert(answered(m, net, doc, net.loads[i]));
    let x = loads_json(w, m, net, i as nat).0;
    let y = loads_json(v, m, other, j as nat).0;
    lemma_loads_write(w, m, net, i as nat);
    lemma_loads_write(v, m, other, j as nat);
    assert(y.base_of(back.bus) == x.base_of(back.bus)) by {
        reveal(WriterV::base_of);
    }
    assert(bounds_at(net, back.bus) == bounds_at(other, back.bus));
    lemma_load_same(x, y, m, net, other, net.loads[i], back);
}

/// Some load comes of a load.
#[verifier::opaque]
pub open spec fn brought(s: Seq<DistLoadV>, x: DistLoadV) -> bool {
    exists|k: int| 0 <= k < s.len() && comes_of_load(#[trigger] s[k], x)
}

pub proof fn lemma_brought(s: Seq<DistLoadV>, x: DistLoadV) -> (k: int)
    requires
        brought(s, x),
    ensures
        0 <= k < s.len(),
        comes_of_load(s[k], x),
{
    reveal(brought);
    choose|k: int| 0 <= k < s.len() && comes_of_load(#[trigger] s[k], x)
}

pub proof fn lemma_is_brought(s: Seq<DistLoadV>, x: DistLoadV, k: int)
    requires
        0 <= k < s.len(),
        comes_of_load(s[k], x),
    ensures
        brought(s, x),
{
    reveal(brought);
}

/// A load is like one of a network.
#[verifier::opaque]
pub open spec fn comes_alike(m: Sem, net: DistNetworkV, x: DistLoadV) -> bool {
    exists|i: int| 0 <= i < net.loads.len() && alike(m, #[trigger] net.loads[i], x)
}

pub proof fn lemma_comes_alike(m: Sem, net: DistNetworkV, x: DistLoadV) -> (i: int)
    requires
        comes_alike(m, net, x),
    ensures
        0 <= i < net.loads.len(),
        alike(m, net.loads[i], x),
{
    reveal(comes_alike);
    choose|i: int| 0 <= i < net.loads.len() && alike(m, #[trigger] net.loads[i], x)
}

/// A load that is read is like the one that its object was written of.
#[verifier::rlimit(40)]
proof fn lemma_load_again(
    w: WriterV,
    m: Sem,
    net: DistNetworkV,
    other: DistNetworkV,
    doc: Seq<ObjV>,
    st: StateV,
    k: int,
) -> (i: int)
    requires
        loads_come(w, m, net, other, doc, st),
        0 <= k < other.loads.len(),
    ensures
        0 <= i < net.loads.len(),
        alike(m, net.loads[i], other.loads[k]),
        get_of(table_of(load_pairs(w, m, net)), other.loads[k].name) == Some(
            load_pairs(w, m, net)[i].1,
        ),
{
    let a = load_pairs(w, m, net);
    let kind = "EnergyConsumer"@;
    let ids = sorted_kind(doc, kind);
    lemma_load_pairs(w, m, net, net.loads.len());
    reveal_strlit("EnergyConsumer");
    reveal_strlit("TransformerTankInfo");
    assert("EnergyConsumer"@.len() == 14);
    assert("TransformerTankInfo"@.len() == 19);
    let at = lemma_load_origin(m, doc, st, ids, ids.len(), k);
    let now = loads_n(m, doc, st, ids, at as nat);
    let o = doc[ids[at] as int];
    lemma_kind_only(doc, Seq::empty(), kind, doc.len(), at);
    assert(get_of(table_of(a), o.name) == Some(JsonV::Obj(o.props)));
    let i = lemma_table_entry(a, a.len(), o.name);
    let load = net.loads[i];
    assert(load_kept(m, load) && answered(m, net, doc, load));
    assert(bounds_at(net, load.bus) == bounds_at(other, load.bus));
    let u = loads_json(w, m, net, i as nat).0;
    lemma_load_object_is_stable(u, u, m, net, other, load, doc, now, o);
    i
}

} // verus!
