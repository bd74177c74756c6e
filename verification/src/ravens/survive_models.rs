//! What the reader makes of the voltage models of the loads that the writer wrote.

use vstd::prelude::*;

use crate::json::{float_json, num_of, Entries, JsonV};
use crate::math::{num_eq, Bits, Sem, HUNDRED, ZERO};
use crate::matrix::max3;
use crate::model::{
    repeat_of, Configuration, DistBusV, DistLoadV, DistLoadVoltageModelV, DistNetworkV, DistSwitchV,
};
use crate::order::{get_of, lemma_put, put_of, sorted};
use crate::ravens::accept::{
    carries_calm, group_even, lemma_balanced_apart, lemma_base_table_mild, lemma_inverters_even,
    lemma_linecodes_mild, lemma_load_phases_mild, lemma_machines_mild, lemma_share_even,
    lemma_shunts_mild, lemma_sources_mild, lemma_tables_mild, lemma_transformers_mild,
    lemma_unrepresented_even, stands_alone,
};
use crate::ravens::bases::bases_of;
use crate::ravens::doc::{
    bool_at, collect_of, named_of, num_at, resolve_at, sorted_kind, str_at, terminals_of, ObjV,
};
use crate::ravens::emit::{hot_letters_of, identified_of, pointer_json, sum_of, WriterV};
use crate::ravens::found::{lemma_kind_holds, lemma_typed_object_is_collected};
use crate::ravens::keeps::{lemma_loads_n_grows, lemma_nothing_is_taken_back, stages};
use crate::ravens::laws::{
    clear, found_at, lemma_pointer_reads_back, lemma_typed_place_stays, typed_root,
};
use crate::ravens::loads::{
    base_voltage_of, is_anchor, is_delta, load_phases_of, load_step, loads_n, response_model,
};
use crate::ravens::only::{lemma_collected_only, lemma_own_fine, lemma_typed_only};
use crate::ravens::read::{ravens_value, run_of};
use crate::ravens::scale::multiple_of;
use crate::ravens::state::StateV;
use crate::ravens::survive::{
    lemma_get_none, lemma_get_put, lemma_identified, lemma_identity_keys, lemma_root_keys,
    lemma_some_entries, told, written_tables,
};
use crate::ravens::survive_loads::{
    comes_of_load, lemma_load_found, lemma_load_keys, lemma_load_step, lemma_load_tables,
    lemma_load_wires, load_path, load_phases, load_told, says_load,
};
use crate::ravens::survive_tanks::{lemma_named_is, unambiguous};
use crate::ravens::write::{
    base_names, bus_json, buses_json, document_of, fresh_writer, ravens_document, tables_of,
    typed_of, unrepresented,
};
use crate::ravens::write_lines::{linecodes_json, lines_json, switches_json};
use crate::ravens::write_loads::{first_or_zero, load_head, load_json, load_phases_json, loads_json};
use crate::ravens::write_machines::{all_electronics_json, machines_json, shunts_json, sources_json};
use crate::ravens::write_tanks::transformers_json;

verus! {

// ---- models ----------------------------------------------------------------

/// The model of six shares in percent: the constant one of whichever share is
/// whole, else the mixture.
pub open spec fn mixed_model(
    m: Sem,
    p: (Bits, Bits, Bits),
    q: (Bits, Bits, Bits),
    v_nom: Seq<Bits>,
) -> DistLoadVoltageModelV {
    let n = max3(v_nom.len(), 1, 1);
    if is_anchor(p.2, p.0, p.1) && is_anchor(q.2, q.0, q.1) {
        DistLoadVoltageModelV::ConstantPower { v_nom }
    } else if is_anchor(p.0, p.2, p.1) && is_anchor(q.0, q.2, q.1) {
        DistLoadVoltageModelV::ConstantImpedance { v_nom }
    } else if is_anchor(p.1, p.2, p.0) && is_anchor(q.1, q.2, q.0) {
        DistLoadVoltageModelV::ConstantCurrent { v_nom }
    } else {
        DistLoadVoltageModelV::Zip {
            v_nom,
            alpha_z: repeat_of(m.over(p.0, HUNDRED), n),
            alpha_i: repeat_of(m.over(p.1, HUNDRED), n),
            alpha_p: repeat_of(m.over(p.2, HUNDRED), n),
            beta_z: repeat_of(m.over(q.0, HUNDRED), n),
            beta_i: repeat_of(m.over(q.1, HUNDRED), n),
            beta_p: repeat_of(m.over(q.2, HUNDRED), n),
        }
    }
}

/// The first of the shares in percent.
pub open spec fn percent(m: Sem, v: Seq<Bits>) -> Bits {
    multiple_of(m, first_or_zero(v), HUNDRED)
}

/// The model that comes back of a model, at nominal volts: a constant one is
/// itself, the others have the coefficients of their first phase.
pub open spec fn returned_model(
    m: Sem,
    model: DistLoadVoltageModelV,
    v_nom: Seq<Bits>,
) -> DistLoadVoltageModelV {
    let n = max3(v_nom.len(), 1, 1);
    match model {
        DistLoadVoltageModelV::ConstantPower { .. } => DistLoadVoltageModelV::ConstantPower {
            v_nom,
        },
        DistLoadVoltageModelV::ConstantCurrent { .. } => DistLoadVoltageModelV::ConstantCurrent {
            v_nom,
        },
        DistLoadVoltageModelV::ConstantImpedance { .. } =>
        DistLoadVoltageModelV::ConstantImpedance { v_nom },
        DistLoadVoltageModelV::Zip {
            v_nom: _,
            alpha_z,
            alpha_i,
            alpha_p,
            beta_z,
            beta_i,
            beta_p,
        } => mixed_model(
            m,
            (percent(m, alpha_z), percent(m, alpha_i), percent(m, alpha_p)),
            (percent(m, beta_z), percent(m, beta_i), percent(m, beta_p)),
            v_nom,
        ),
        DistLoadVoltageModelV::Exponential { v_nom: _, gamma_p, gamma_q } =>
        DistLoadVoltageModelV::Exponential {
            v_nom,
            gamma_p: repeat_of(first_or_zero(gamma_p), n),
            gamma_q: repeat_of(first_or_zero(gamma_q), n),
        },
    }
}

/// The numbers of a model can be told.
pub open spec fn model_told(m: Sem, model: DistLoadVoltageModelV) -> bool {
    match model {
        DistLoadVoltageModelV::Zip {
            v_nom: _,
            alpha_z,
            alpha_i,
            alpha_p,
            beta_z,
            beta_i,
            beta_p,
        } => {
            &&& told(m, percent(m, alpha_z))
            &&& told(m, percent(m, alpha_i))
            &&& told(m, percent(m, alpha_p))
            &&& told(m, percent(m, beta_z))
            &&& told(m, percent(m, beta_i))
            &&& told(m, percent(m, beta_p))
        },
        DistLoadVoltageModelV::Exponential { v_nom: _, gamma_p, gamma_q } => {
            &&& told(m, first_or_zero(gamma_p))
            &&& told(m, first_or_zero(gamma_q))
        },
        _ => told(m, HUNDRED),
    }
}

// ---- records ---------------------------------------------------------------

/// The name of the response record of a load.
pub open spec fn response_name(load: DistLoadV) -> Seq<char> {
    match load.voltage_model {
        DistLoadVoltageModelV::ConstantPower { .. } => "Constant kVA"@,
        DistLoadVoltageModelV::ConstantCurrent { .. } => "Constant I"@,
        DistLoadVoltageModelV::ConstantImpedance { .. } => "Constant Z"@,
        _ => load.name + "_response"@,
    }
}

/// What a response record says of a model.
pub open spec fn says_response(m: Sem, o: Entries, model: DistLoadVoltageModelV) -> bool {
    &&& str_at(o, "Ravens.cimObjectType"@) == Some("LoadResponseCharacteristic"@)
    &&& model_told(m, model) ==> forall|v: Seq<Bits>| #[trigger]
        response_model(m, o, v) == returned_model(m, model, v)
}

proof fn lemma_response_keys()
    ensures
        "LoadResponseCharacteristic.pConstantImpedance"@.len() == 45,
        "LoadResponseCharacteristic.pConstantImpedance"@[27] == 'p',
        "LoadResponseCharacteristic.qConstantImpedance"@.len() == 45,
        "LoadResponseCharacteristic.qConstantImpedance"@[27] == 'q',
        "LoadResponseCharacteristic.pConstantCurrent"@.len() == 43,
        "LoadResponseCharacteristic.pConstantCurrent"@[27] == 'p',
        "LoadResponseCharacteristic.pConstantCurrent"@[28] == 'C',
        "LoadResponseCharacteristic.qConstantCurrent"@.len() == 43,
        "LoadResponseCharacteristic.qConstantCurrent"@[27] == 'q',
        "LoadResponseCharacteristic.qConstantCurrent"@[28] == 'C',
        "LoadResponseCharacteristic.pConstantPower"@.len() == 41,
        "LoadResponseCharacteristic.pConstantPower"@[27] == 'p',
        "LoadResponseCharacteristic.qConstantPower"@.len() == 41,
        "LoadResponseCharacteristic.qConstantPower"@[27] == 'q',
        "LoadResponseCharacteristic.exponentModel"@.len() == 40,
        "LoadResponseCharacteristic.pVoltageExponent"@.len() == 43,
        "LoadResponseCharacteristic.pVoltageExponent"@[27] == 'p',
        "LoadResponseCharacteristic.qVoltageExponent"@.len() == 43,
        "LoadResponseCharacteristic.qVoltageExponent"@[27] == 'q',
{
    reveal_strlit("LoadResponseCharacteristic.pConstantImpedance");
    reveal_strlit("LoadResponseCharacteristic.qConstantImpedance");
    reveal_strlit("LoadResponseCharacteristic.pConstantCurrent");
    reveal_strlit("LoadResponseCharacteristic.qConstantCurrent");
    reveal_strlit("LoadResponseCharacteristic.pConstantPower");
    reveal_strlit("LoadResponseCharacteristic.qConstantPower");
    reveal_strlit("LoadResponseCharacteristic.exponentModel");
    reveal_strlit("LoadResponseCharacteristic.pVoltageExponent");
    reveal_strlit("LoadResponseCharacteristic.qVoltageExponent");
}

/// The keys that are put together of a head and a share.
proof fn lemma_share_keys()
    ensures
        "LoadResponseCharacteristic.p"@ + "ConstantPower"@
            == "LoadResponseCharacteristic.pConstantPower"@,
        "LoadResponseCharacteristic.q"@ + "ConstantPower"@
            == "LoadResponseCharacteristic.qConstantPower"@,
        "LoadResponseCharacteristic.p"@ + "ConstantCurrent"@
            == "LoadResponseCharacteristic.pConstantCurrent"@,
        "LoadResponseCharacteristic.q"@ + "ConstantCurrent"@
            == "LoadResponseCharacteristic.qConstantCurrent"@,
        "LoadResponseCharacteristic.p"@ + "ConstantImpedance"@
            == "LoadResponseCharacteristic.pConstantImpedance"@,
        "LoadResponseCharacteristic.q"@ + "ConstantImpedance"@
            == "LoadResponseCharacteristic.qConstantImpedance"@,
        "LoadResponseCharacteristic."@ + "pConstantPower"@
            == "LoadResponseCharacteristic.pConstantPower"@,
        "LoadResponseCharacteristic."@ + "qConstantPower"@
            == "LoadResponseCharacteristic.qConstantPower"@,
        "LoadResponseCharacteristic."@ + "pConstantCurrent"@
            == "LoadResponseCharacteristic.pConstantCurrent"@,
        "LoadResponseCharacteristic."@ + "qConstantCurrent"@
            == "LoadResponseCharacteristic.qConstantCurrent"@,
        "LoadResponseCharacteristic."@ + "pConstantImpedance"@
            == "LoadResponseCharacteristic.pConstantImpedance"@,
        "LoadResponseCharacteristic."@ + "qConstantImpedance"@
            == "LoadResponseCharacteristic.qConstantImpedance"@,
{
    reveal_strlit("LoadResponseCharacteristic.");
    reveal_strlit("LoadResponseCharacteristic.p");
    reveal_strlit("LoadResponseCharacteristic.q");
    reveal_strlit("ConstantPower");
    reveal_strlit("ConstantCurrent");
    reveal_strlit("ConstantImpedance");
    reveal_strlit("pConstantPower");
    reveal_strlit("qConstantPower");
    reveal_strlit("pConstantCurrent");
    reveal_strlit("qConstantCurrent");
    reveal_strlit("pConstantImpedance");
    reveal_strlit("qConstantImpedance");
    reveal_strlit("LoadResponseCharacteristic.pConstantImpedance");
    reveal_strlit("LoadResponseCharacteristic.qConstantImpedance");
    reveal_strlit("LoadResponseCharacteristic.pConstantCurrent");
    reveal_strlit("LoadResponseCharacteristic.qConstantCurrent");
    reveal_strlit("LoadResponseCharacteristic.pConstantPower");
    reveal_strlit("LoadResponseCharacteristic.qConstantPower");
    assert("LoadResponseCharacteristic.p"@ + "ConstantPower"@
        =~= "LoadResponseCharacteristic.pConstantPower"@);
    assert("LoadResponseCharacteristic.q"@ + "ConstantPower"@
        =~= "LoadResponseCharacteristic.qConstantPower"@);
    assert("LoadResponseCharacteristic.p"@ + "ConstantCurrent"@
        =~= "LoadResponseCharacteristic.pConstantCurrent"@);
    assert("LoadResponseCharacteristic.q"@ + "ConstantCurrent"@
        =~= "LoadResponseCharacteristic.qConstantCurrent"@);
    assert("LoadResponseCharacteristic.p"@ + "ConstantImpedance"@
        =~= "LoadResponseCharacteristic.pConstantImpedance"@);
    assert("LoadResponseCharacteristic.q"@ + "ConstantImpedance"@
        =~= "LoadResponseCharacteristic.qConstantImpedance"@);
    assert("LoadResponseCharacteristic."@ + "pConstantPower"@
        =~= "LoadResponseCharacteristic.pConstantPower"@);
    assert("LoadResponseCharacteristic."@ + "qConstantPower"@
        =~= "LoadResponseCharacteristic.qConstantPower"@);
    assert("LoadResponseCharacteristic."@ + "pConstantCurrent"@
        =~= "LoadResponseCharacteristic.pConstantCurrent"@);
    assert("LoadResponseCharacteristic."@ + "qConstantCurrent"@
        =~= "LoadResponseCharacteristic.qConstantCurrent"@);
    assert("LoadResponseCharacteristic."@ + "pConstantImpedance"@
        =~= "LoadResponseCharacteristic.pConstantImpedance"@);
    assert("LoadResponseCharacteristic."@ + "qConstantImpedance"@
        =~= "LoadResponseCharacteristic.qConstantImpedance"@);
}

/// Shares that a constant model has.
proof fn lemma_anchors()
    ensures
        is_anchor(HUNDRED, ZERO, ZERO),
        !is_anchor(ZERO, HUNDRED, ZERO),
        !is_anchor(ZERO, ZERO, HUNDRED),
{
    assert(num_eq(HUNDRED, HUNDRED));
    assert(num_eq(ZERO, ZERO));
    assert(!num_eq(HUNDRED, ZERO));
    assert(!num_eq(ZERO, HUNDRED));
}

/// A record that gives one share of the power, all of it.
pub open spec fn shared_record(m: Sem, name: Seq<char>, field: Seq<char>) -> Entries {
    let o = identified_of("LoadResponseCharacteristic"@, name, None);
    let o = put_of(o, "LoadResponseCharacteristic.p"@ + field, float_json(m, HUNDRED));
    put_of(o, "LoadResponseCharacteristic.q"@ + field, float_json(m, HUNDRED))
}

/// The keys of a record that is fresh.
proof fn lemma_record_fresh(name: Seq<char>)
    ensures
        ({
            let o = identified_of("LoadResponseCharacteristic"@, name, None);
            &&& get_of(o, "Ravens.cimObjectType"@) == Some(
                JsonV::Str("LoadResponseCharacteristic"@),
            )
            &&& get_of(o, "LoadResponseCharacteristic.pConstantImpedance"@) is None
            &&& get_of(o, "LoadResponseCharacteristic.qConstantImpedance"@) is None
            &&& get_of(o, "LoadResponseCharacteristic.pConstantCurrent"@) is None
            &&& get_of(o, "LoadResponseCharacteristic.qConstantCurrent"@) is None
            &&& get_of(o, "LoadResponseCharacteristic.pConstantPower"@) is None
            &&& get_of(o, "LoadResponseCharacteristic.qConstantPower"@) is None
            &&& get_of(o, "LoadResponseCharacteristic.exponentModel"@) is None
        }),
{
    lemma_response_keys();
    let k = "LoadResponseCharacteristic"@;
    lemma_identified(k, name, None, "LoadResponseCharacteristic.pConstantImpedance"@);
    lemma_identified(k, name, None, "LoadResponseCharacteristic.qConstantImpedance"@);
    lemma_identified(k, name, None, "LoadResponseCharacteristic.pConstantCurrent"@);
    lemma_identified(k, name, None, "LoadResponseCharacteristic.qConstantCurrent"@);
    lemma_identified(k, name, None, "LoadResponseCharacteristic.pConstantPower"@);
    lemma_identified(k, name, None, "LoadResponseCharacteristic.qConstantPower"@);
    lemma_identified(k, name, None, "LoadResponseCharacteristic.exponentModel"@);
}

/// The constant model of a share.
pub open spec fn constant_model(field: Seq<char>, v: Seq<Bits>) -> DistLoadVoltageModelV {
    if field == "ConstantPower"@ {
        DistLoadVoltageModelV::ConstantPower { v_nom: v }
    } else if field == "ConstantCurrent"@ {
        DistLoadVoltageModelV::ConstantCurrent { v_nom: v }
    } else {
        DistLoadVoltageModelV::ConstantImpedance { v_nom: v }
    }
}

proof fn lemma_fields()
    ensures
        "ConstantPower"@.len() == 13,
        "ConstantCurrent"@.len() == 15,
        "ConstantImpedance"@.len() == 17,
        "Constant kVA"@.len() == 12,
        "Constant I"@.len() == 10 && "Constant I"@[9] == 'I',
        "Constant Z"@.len() == 10 && "Constant Z"@[9] == 'Z',
        "Constant kVA"@[11] == 'A',
        "_response"@.len() == 9 && "_response"@[8] == 'e',
{
    reveal_strlit("ConstantPower");
    reveal_strlit("ConstantCurrent");
    reveal_strlit("ConstantImpedance");
    reveal_strlit("Constant kVA");
    reveal_strlit("Constant I");
    reveal_strlit("Constant Z");
    reveal_strlit("_response");
}

/// A share that is one of the three.
pub open spec fn is_share(field: Seq<char>) -> bool {
    field == "ConstantPower"@ || field == "ConstantCurrent"@ || field == "ConstantImpedance"@
}

#[verifier::rlimit(40)]
proof fn lemma_shared_says(m: Sem, name: Seq<char>, field: Seq<char>)
    requires
        is_share(field),
    ensures
        says_response(m, shared_record(m, name, field), constant_model(field, Seq::empty())),
{
    broadcast use lemma_get_put;

    lemma_identity_keys();
    lemma_response_keys();
    lemma_share_keys();
    lemma_fields();
    lemma_record_fresh(name);
    lemma_anchors();
    reveal(str_at);
    reveal(num_at);
    reveal(bool_at);
    let o = shared_record(m, name, field);
    let model = constant_model(field, Seq::empty());
    if model_told(m, model) {
        assert(num_of(m, float_json(m, HUNDRED)) == Some(HUNDRED));
        assert forall|v: Seq<Bits>| #[trigger] response_model(m, o, v) == returned_model(
            m,
            model,
            v,
        ) by {
            reveal(response_model);
        }
    }
}

/// A record of a load's own.
proof fn lemma_own_says(w: WriterV, m: Sem, load: DistLoadV)
    requires
        load.voltage_model is Zip || load.voltage_model is Exponential,
    ensures
        get_of(w.load_response(m, load).0.responses, response_name(load)) matches Some(
            JsonV::Obj(o),
        ) && says_response(m, o, load.voltage_model),
        forall|q: Seq<char>|
            q != response_name(load) ==> #[trigger] get_of(
                w.load_response(m, load).0.responses,
                q,
            ) == get_of(w.responses, q),
        w.load_response(m, load).1 == response_name(load),
{
    match load.voltage_model {
        DistLoadVoltageModelV::Zip { .. } => {
            lemma_zip_says(w, m, load);
        },
        _ => {
            lemma_exponential_says(w, m, load);
        },
    }
}

#[verifier::rlimit(60)]
proof fn lemma_zip_says(w: WriterV, m: Sem, load: DistLoadV)
    requires
        load.voltage_model is Zip,
    ensures
        get_of(w.load_response(m, load).0.responses, response_name(load)) matches Some(
            JsonV::Obj(o),
        ) && says_response(m, o, load.voltage_model),
        forall|q: Seq<char>|
            q != response_name(load) ==> #[trigger] get_of(
                w.load_response(m, load).0.responses,
                q,
            ) == get_of(w.responses, q),
        w.load_response(m, load).1 == response_name(load),
{
    broadcast use {lemma_get_put, lemma_share_even};

    lemma_identity_keys();
    lemma_response_keys();
    lemma_share_keys();
    lemma_record_fresh(load.name + "_response"@);
    reveal(WriterV::load_response);
    let o = get_of(w.load_response(m, load).0.responses, response_name(load))->0->Obj_0;
    assert(str_at(o, "Ravens.cimObjectType"@) == Some("LoadResponseCharacteristic"@)) by {
        reveal(WriterV::put_share);
        reveal(str_at);
    }
    if model_told(m, load.voltage_model) {
        lemma_zip_shares(w, m, load, o);
        assert forall|v: Seq<Bits>| #[trigger] response_model(m, o, v) == returned_model(
            m,
            load.voltage_model,
            v,
        ) by {
            reveal(response_model);
        }
    }
}

/// The shares of a mixture, as its record gives them.
#[verifier::rlimit(60)]
proof fn lemma_zip_shares(w: WriterV, m: Sem, load: DistLoadV, o: Entries)
    requires
        load.voltage_model is Zip,
        model_told(m, load.voltage_model),
        get_of(w.load_response(m, load).0.responses, response_name(load)) == Some(JsonV::Obj(o)),
    ensures
        load.voltage_model matches DistLoadVoltageModelV::Zip {
            v_nom,
            alpha_z,
            alpha_i,
            alpha_p,
            beta_z,
            beta_i,
            beta_p,
        } && {
            &&& num_at(m, o, "LoadResponseCharacteristic.pConstantImpedance"@) == Some(
                percent(m, alpha_z),
            )
            &&& num_at(m, o, "LoadResponseCharacteristic.pConstantCurrent"@) == Some(
                percent(m, alpha_i),
            )
            &&& num_at(m, o, "LoadResponseCharacteristic.pConstantPower"@) == Some(
                percent(m, alpha_p),
            )
            &&& num_at(m, o, "LoadResponseCharacteristic.qConstantImpedance"@) == Some(
                percent(m, beta_z),
            )
            &&& num_at(m, o, "LoadResponseCharacteristic.qConstantCurrent"@) == Some(
                percent(m, beta_i),
            )
            &&& num_at(m, o, "LoadResponseCharacteristic.qConstantPower"@) == Some(
                percent(m, beta_p),
            )
        },
        bool_at(o, "LoadResponseCharacteristic.exponentModel"@) is None,
{
    broadcast use {lemma_get_put, lemma_share_even};

    lemma_response_keys();
    lemma_share_keys();
    lemma_record_fresh(load.name + "_response"@);
    reveal(WriterV::load_response);
    reveal(WriterV::put_share);
    reveal(WriterV::num);
    reveal(num_at);
    reveal(bool_at);
}

#[verifier::rlimit(60)]
proof fn lemma_exponential_says(w: WriterV, m: Sem, load: DistLoadV)
    requires
        load.voltage_model is Exponential,
    ensures
        get_of(w.load_response(m, load).0.responses, response_name(load)) matches Some(
            JsonV::Obj(o),
        ) && says_response(m, o, load.voltage_model),
        forall|q: Seq<char>|
            q != response_name(load) ==> #[trigger] get_of(
                w.load_response(m, load).0.responses,
                q,
            ) == get_of(w.responses, q),
        w.load_response(m, load).1 == response_name(load),
{
    broadcast use {lemma_get_put, group_even};

    lemma_identity_keys();
    lemma_response_keys();
    lemma_record_fresh(load.name + "_response"@);
    reveal(WriterV::load_response);
    reveal(num_at);
    reveal(bool_at);
    let o = get_of(w.load_response(m, load).0.responses, response_name(load))->0->Obj_0;
    assert(str_at(o, "Ravens.cimObjectType"@) == Some("LoadResponseCharacteristic"@)) by {
        reveal(str_at);
    }
    if model_told(m, load.voltage_model) {
        reveal(WriterV::num);
        assert forall|v: Seq<Bits>| #[trigger] response_model(m, o, v) == returned_model(
            m,
            load.voltage_model,
            v,
        ) by {
            reveal(response_model);
        }
    }
}

// ---- the table of records --------------------------------------------------

/// The records that loads share are those of their shares.
pub open spec fn shares_stand(m: Sem, r: Entries) -> bool {
    &&& get_of(r, "Constant kVA"@) matches Some(v) ==> v == JsonV::Obj(
        shared_record(m, "Constant kVA"@, "ConstantPower"@),
    )
    &&& get_of(r, "Constant I"@) matches Some(v) ==> v == JsonV::Obj(
        shared_record(m, "Constant I"@, "ConstantCurrent"@),
    )
    &&& get_of(r, "Constant Z"@) matches Some(v) ==> v == JsonV::Obj(
        shared_record(m, "Constant Z"@, "ConstantImpedance"@),
    )
}

/// The record of a load stands among the records.
pub open spec fn responded(m: Sem, r: Entries, load: DistLoadV) -> bool {
    get_of(r, response_name(load)) matches Some(JsonV::Obj(o)) && says_response(
        m,
        o,
        load.voltage_model,
    )
}

#[verifier::rlimit(40)]
proof fn lemma_response_step(w: WriterV, m: Sem, load: DistLoadV)
    requires
        shares_stand(m, w.responses),
    ensures
        responded(m, w.load_response(m, load).0.responses, load),
        shares_stand(m, w.load_response(m, load).0.responses),
        forall|q: Seq<char>|
            q != response_name(load) ==> #[trigger] get_of(
                w.load_response(m, load).0.responses,
                q,
            ) == get_of(w.responses, q),
        w.load_response(m, load).1 == response_name(load),
{
    broadcast use lemma_get_put;

    lemma_fields();
    if load.voltage_model is Zip || load.voltage_model is Exponential {
        lemma_own_says(w, m, load);
        let own = load.name + "_response"@;
        assert(own[own.len() - 1] == 'e');
    } else {
        reveal(WriterV::load_response);
        reveal(WriterV::shared_response);
        lemma_shared_says(m, "Constant kVA"@, "ConstantPower"@);
        lemma_shared_says(m, "Constant I"@, "ConstantCurrent"@);
        lemma_shared_says(m, "Constant Z"@, "ConstantImpedance"@);
        assert("Constant I"@ != "Constant Z"@);
        let like = if load.voltage_model is ConstantPower {
            constant_model("ConstantPower"@, Seq::empty())
        } else if load.voltage_model is ConstantCurrent {
            constant_model("ConstantCurrent"@, Seq::empty())
        } else {
            constant_model("ConstantImpedance"@, Seq::empty())
        };
        assert forall|v: Seq<Bits>| #[trigger]
            returned_model(m, load.voltage_model, v) == returned_model(m, like, v) by {}
    }
}

/// The records once a load is written are those its response leaves.
#[verifier::rlimit(40)]
pub proof fn lemma_load_replies(
    w: WriterV,
    m: Sem,
    net: DistNetworkV,
    load: DistLoadV,
) -> (u: WriterV)
    ensures
        u.responses == w.responses,
        load_json(w, m, net, load).0.responses == u.load_response(m, load).0.responses,
        load_json(w, m, net, load).1 matches JsonV::Obj(o) && get_of(
            o,
            "EnergyConsumer.LoadResponse"@,
        ) == Some(pointer_json("LoadResponseCharacteristic"@, u.load_response(m, load).1)),
{
    broadcast use {lemma_get_put, group_even};

    lemma_balanced_apart("AlgorithmSettings"@);
    lemma_load_keys();
    let what = "load "@ + load.name;
    let delta = load.configuration == Configuration::Delta;
    let grounded = !delta && load.terminal_map.contains("4"@);
    let w1 = w.num(m, sum_of(m, load.p_nom), what).0;
    let w2 = w1.num(m, sum_of(m, load.q_nom), what).0;
    let u = if grounded {
        w2.ground(load.bus)
    } else {
        w2
    };
    let head = load_head(w, m, net, load);
    assert(head.0.responses == u.load_response(m, load).0.responses && get_of(
        head.1,
        "EnergyConsumer.LoadResponse"@,
    ) == Some(pointer_json("LoadResponseCharacteristic"@, u.load_response(m, load).1))) by {
        reveal(load_head);
        reveal(WriterV::attach_profile);
    }
    let letters = hot_letters_of(load.terminal_map);
    lemma_load_phases_mild("AlgorithmSettings"@, head.0, m, load, letters, letters.len());
    let v = load_phases_json(head.0, m, load, letters, letters.len()).0;
    assert(v.bus_voltage_limit(m, net, load.bus).0.responses == v.responses) by {
        lemma_bus_limit_replies(v, m, net, load.bus);
    }
    reveal(load_json);
    u
}

proof fn lemma_set_replies(w: WriterV, m: Sem, low: Bits, high: Bits, normal: Option<Bits>)
    ensures
        w.voltage_limit_set(m, low, high, normal).0.responses == w.responses,
{
    broadcast use group_even;

    reveal(WriterV::voltage_limit_set);
    reveal(WriterV::voltage_limit);
}

proof fn lemma_bus_limit_replies(w: WriterV, m: Sem, net: DistNetworkV, bus: Seq<char>)
    ensures
        w.bus_voltage_limit(m, net, bus).0.responses == w.responses,
{
    reveal(WriterV::bus_voltage_limit);
    if let Some(b) = net.bus(bus) {
        if b.v_min is Some && b.v_max is Some {
            lemma_set_replies(w, m, b.v_min->0, b.v_max->0, w.base_of(bus));
        }
    }
}

/// Two loads of different names share a record only where they share a model.
pub proof fn lemma_response_names(a: DistLoadV, b: DistLoadV)
    requires
        a.name != b.name,
        response_name(a) == response_name(b),
    ensures
        a.voltage_model is ConstantPower || a.voltage_model is ConstantCurrent
            || a.voltage_model is ConstantImpedance,
        a.voltage_model is ConstantPower == b.voltage_model is ConstantPower,
        a.voltage_model is ConstantCurrent == b.voltage_model is ConstantCurrent,
        a.voltage_model is ConstantImpedance == b.voltage_model is ConstantImpedance,
{
    lemma_fields();
    let p = a.name + "_response"@;
    let q = b.name + "_response"@;
    assert(p[p.len() - 1] == 'e' && q[q.len() - 1] == 'e');
    assert(a.name =~= p.take(p.len() - 9) && b.name =~= q.take(q.len() - 9));
    assert("Constant I"@ != "Constant Z"@);
}

proof fn lemma_replies(w: WriterV, m: Sem, net: DistNetworkV, n: nat)
    requires
        n <= net.loads.len(),
        shares_stand(m, w.responses),
    ensures
        shares_stand(m, loads_json(w, m, net, n).0.responses),
    decreases n,
{
    if n > 0 {
        lemma_replies(w, m, net, (n - 1) as nat);
        let before = loads_json(w, m, net, (n - 1) as nat).0;
        let u = lemma_load_replies(before, m, net, net.loads[n - 1]);
        lemma_response_step(u, m, net.loads[n - 1]);
    }
}

/// The record of a load stays where it is while other loads are written.
proof fn lemma_reply_stays(w: WriterV, m: Sem, net: DistNetworkV, n: nat, i: int)
    requires
        0 <= i < n <= net.loads.len(),
        shares_stand(m, w.responses),
        forall|j: int|
            i < j < net.loads.len() ==> (#[trigger] net.loads[j]).name != net.loads[i].name,
    ensures
        responded(m, loads_json(w, m, net, n).0.responses, net.loads[i]),
        get_of(loads_json(w, m, net, n).1, net.loads[i].name) matches Some(JsonV::Obj(o)) && get_of(
            o,
            "EnergyConsumer.LoadResponse"@,
        ) == Some(
            pointer_json("LoadResponseCharacteristic"@, response_name(net.loads[i])),
        ),
    decreases n,
{
    broadcast use lemma_get_put;

    let load = net.loads[i];
    let last = net.loads[n - 1];
    let before = loads_json(w, m, net, (n - 1) as nat).0;
    lemma_replies(w, m, net, (n - 1) as nat);
    let u = lemma_load_replies(before, m, net, last);
    lemma_response_step(u, m, last);
    if i < n - 1 {
        lemma_reply_stays(w, m, net, (n - 1) as nat, i);
        assert(last.name != load.name);
        if response_name(last) == response_name(load) {
            lemma_response_names(last, load);
            assert forall|v: Seq<Bits>| #[trigger]
                returned_model(m, last.voltage_model, v) == returned_model(
                    m,
                    load.voltage_model,
                    v,
                ) by {}
        }
    }
}

// ---- the other families leave the records alone ----------------------------

broadcast proof fn lemma_ampacity_replies(
    w: WriterV,
    m: Sem,
    norm: Option<Bits>,
    emerg: Option<Bits>,
)
    ensures
        (#[trigger] w.ampacity(m, norm, emerg)).0.responses == w.responses,
{
    broadcast use group_even;

    reveal(WriterV::current_limit_set);
    reveal(WriterV::current_limit);
}

proof fn lemma_lines_replies(w: WriterV, m: Sem, net: DistNetworkV, n: nat)
    ensures
        lines_json(w, m, net, n).0.responses == w.responses,
    decreases n,
{
    broadcast use {group_even, lemma_ampacity_replies};

    if n > 0 {
        lemma_lines_replies(w, m, net, (n - 1) as nat);
    }
}

proof fn lemma_switches_replies(w: WriterV, m: Sem, s: Seq<DistSwitchV>, n: nat)
    ensures
        switches_json(w, m, s, n).0.responses == w.responses,
    decreases n,
{
    broadcast use {group_even, lemma_ampacity_replies};

    if n > 0 {
        lemma_switches_replies(w, m, s, (n - 1) as nat);
    }
}

proof fn lemma_buses_replies(w: WriterV, m: Sem, s: Seq<DistBusV>, n: nat)
    ensures
        buses_json(w, m, s, n).0.responses == w.responses,
    decreases n,
{
    broadcast use group_even;

    if n > 0 {
        lemma_buses_replies(w, m, s, (n - 1) as nat);
        let before = buses_json(w, m, s, (n - 1) as nat).0;
        let b = s[n - 1];
        reveal(bus_json);
        if b.v_min is Some && b.v_max is Some {
            lemma_set_replies(before, m, b.v_min->0, b.v_max->0, before.base_of(b.id));
        }
    }
}

/// The records of a document are those that its loads leave, from none.
#[verifier::rlimit(40)]
proof fn lemma_replies_of_loads(m: Sem, net: DistNetworkV) -> (w: WriterV)
    ensures
        w.responses == Entries::empty(),
        tables_of(fresh_writer(bases_of(m, net)), m, net).0.responses == loads_json(
            w,
            m,
            net,
            net.loads.len(),
        ).0.responses,
        written_tables(m, net).loads == loads_json(w, m, net, net.loads.len()).1,
{
    let x = "AlgorithmSettings"@;
    lemma_balanced_apart(x);
    reveal(tables_of);
    let w0 = fresh_writer(bases_of(m, net));
    lemma_unrepresented_even(w0, m, net);
    let w = unrepresented(w0, m, net);
    lemma_linecodes_mild(x, w, m, net.linecodes, net.linecodes.len());
    let w = linecodes_json(w, m, net.linecodes, net.linecodes.len()).0;
    lemma_lines_replies(w, m, net, net.lines.len());
    let w = lines_json(w, m, net, net.lines.len()).0;
    lemma_switches_replies(w, m, net.switches, net.switches.len());
    let start = switches_json(w, m, net.switches, net.switches.len()).0;
    let w = loads_json(start, m, net, net.loads.len()).0;
    lemma_shunts_mild(x, w, m, net.shunts, net.shunts.len());
    let w = shunts_json(w, m, net.shunts, net.shunts.len()).0;
    lemma_machines_mild(x, w, m, net.generators, net.generators.len());
    let w = machines_json(w, m, net.generators, net.generators.len()).0;
    lemma_inverters_even(w, m, net.ibrs, net.ibrs.len());
    let w = all_electronics_json(w, m, net.ibrs, net.ibrs.len()).0;
    lemma_sources_mild(x, w, m, net.sources, net.sources.len());
    let w = sources_json(w, m, net.sources, net.sources.len()).0;
    lemma_transformers_mild(x, w, m, net.transformers, net.transformers.len());
    let w = transformers_json(w, m, net.transformers, net.transformers.len()).0;
    lemma_buses_replies(w, m, net.buses, net.buses.len());
    start
}

/// The record of a load in the document that is written, and what its object
/// says of it.
pub proof fn lemma_reply_tables(m: Sem, net: DistNetworkV, i: int)
    requires
        0 <= i < net.loads.len(),
        forall|j: int|
            i < j < net.loads.len() ==> (#[trigger] net.loads[j]).name != net.loads[i].name,
    ensures
        responded(
            m,
            tables_of(fresh_writer(bases_of(m, net)), m, net).0.responses,
            net.loads[i],
        ),
        get_of(written_tables(m, net).loads, net.loads[i].name) matches Some(JsonV::Obj(o))
            && get_of(o, "EnergyConsumer.LoadResponse"@) == Some(
            pointer_json("LoadResponseCharacteristic"@, response_name(net.loads[i])),
        ),
{
    let w = lemma_replies_of_loads(m, net);
    lemma_get_none("Constant kVA"@);
    lemma_get_none("Constant I"@);
    lemma_get_none("Constant Z"@);
    lemma_reply_stays(w, m, net, net.loads.len(), i);
}

proof fn lemma_replies_sorted(w: WriterV, m: Sem, net: DistNetworkV, n: nat)
    requires
        n <= net.loads.len(),
        sorted(w.responses),
    ensures
        sorted(loads_json(w, m, net, n).0.responses),
    decreases n,
{
    broadcast use {group_even, lemma_share_even};

    if n > 0 {
        lemma_replies_sorted(w, m, net, (n - 1) as nat);
        let before = loads_json(w, m, net, (n - 1) as nat).0;
        let load = net.loads[n - 1];
        let u = lemma_load_replies(before, m, net, load);
        assert forall|k: Seq<char>, v: JsonV| sorted(#[trigger] put_of(u.responses, k, v)) by {
            lemma_put(u.responses, k, v);
        }
        reveal(WriterV::load_response);
        reveal(WriterV::shared_response);
    }
}

pub proof fn lemma_response_stands_alone()
    ensures
        stands_alone("LoadResponseCharacteristic"@),
        "LoadResponseCharacteristic"@ != "TransformerTank"@,
        "LoadResponseCharacteristic"@ != "TransformerTankInfo"@,
        "LoadResponseCharacteristic"@ != "BaseVoltage"@,
        "LoadResponseCharacteristic"@ != "PerLengthPhaseImpedance"@,
        "LoadResponseCharacteristic"@ != "ACLineSegment"@,
        "LoadResponseCharacteristic"@ != "Switch"@,
        "LoadResponseCharacteristic"@ != "EnergyConsumer"@,
        "LoadResponseCharacteristic"@ != "LinearShuntCompensator"@,
        "LoadResponseCharacteristic"@ != "SynchronousMachine"@,
        "LoadResponseCharacteristic"@ != "PowerElectronicsConnection"@,
        "LoadResponseCharacteristic"@ != "EnergySource"@,
        "LoadResponseCharacteristic"@ != "PowerTransformer"@,
        "LoadResponseCharacteristic"@ != "ConnectivityNode"@,
        "LoadResponseCharacteristic"@ != "Location"@,
{
    reveal_strlit("Terminal");
    reveal_strlit("CurrentLimit");
    reveal_strlit("VoltageLimit");
    reveal_strlit("OperationalLimitSet");
    reveal_strlit("OperationalLimitType");
    reveal_strlit("PhaseImpedanceData");
    reveal_strlit("ACLineSegmentPhase");
    reveal_strlit("SwitchPhase");
    reveal_strlit("EnergyConnectionProfile");
    reveal_strlit("EnergyConsumerPhase");
    reveal_strlit("GeneratingUnit");
    reveal_strlit("PhotoVoltaicUnit");
    reveal_strlit("BatteryUnit");
    reveal_strlit("TransformerTankEnd");
    reveal_strlit("TransformerEndInfo");
    reveal_strlit("ShortCircuitTest");
    reveal_strlit("NoLoadTest");
    reveal_strlit("PositionPoint");
    reveal_strlit("IEC61970CIMVersion");
    reveal_strlit("RavensVersion");
    reveal_strlit("TransformerTank");
    reveal_strlit("TransformerTankInfo");
    reveal_strlit("BaseVoltage");
    reveal_strlit("PerLengthPhaseImpedance");
    reveal_strlit("ACLineSegment");
    reveal_strlit("Switch");
    reveal_strlit("EnergyConsumer");
    reveal_strlit("LinearShuntCompensator");
    reveal_strlit("SynchronousMachine");
    reveal_strlit("PowerElectronicsConnection");
    reveal_strlit("EnergySource");
    reveal_strlit("PowerTransformer");
    reveal_strlit("ConnectivityNode");
    reveal_strlit("Location");
    reveal_strlit("LoadResponseCharacteristic");
    assert("Terminal"@.len() == 8);
    assert("CurrentLimit"@.len() == 12);
    assert("VoltageLimit"@.len() == 12);
    assert("OperationalLimitSet"@.len() == 19);
    assert("OperationalLimitType"@.len() == 20);
    assert("PhaseImpedanceData"@.len() == 18);
    assert("ACLineSegmentPhase"@.len() == 18);
    assert("SwitchPhase"@.len() == 11);
    assert("EnergyConnectionProfile"@.len() == 23);
    assert("EnergyConsumerPhase"@.len() == 19);
    assert("GeneratingUnit"@.len() == 14);
    assert("PhotoVoltaicUnit"@.len() == 16);
    assert("BatteryUnit"@.len() == 11);
    assert("TransformerTankEnd"@.len() == 18);
    assert("TransformerEndInfo"@.len() == 18);
    assert("ShortCircuitTest"@.len() == 16);
    assert("NoLoadTest"@.len() == 10);
    assert("PositionPoint"@.len() == 13);
    assert("IEC61970CIMVersion"@.len() == 18);
    assert("RavensVersion"@.len() == 13);
    assert("TransformerTank"@.len() == 15);
    assert("TransformerTankInfo"@.len() == 19);
    assert("BaseVoltage"@.len() == 11);
    assert("PerLengthPhaseImpedance"@.len() == 23);
    assert("ACLineSegment"@.len() == 13);
    assert("Switch"@.len() == 6);
    assert("EnergyConsumer"@.len() == 14);
    assert("LinearShuntCompensator"@.len() == 22);
    assert("SynchronousMachine"@.len() == 18);
    assert("PowerElectronicsConnection"@.len() == 26);
    assert("EnergySource"@.len() == 12);
    assert("PowerTransformer"@.len() == 16);
    assert("ConnectivityNode"@.len() == 16);
    assert("Location"@.len() == 8);
    assert("LoadResponseCharacteristic"@.len() == 26);
    assert("PowerElectronicsConnection"@[0] == 'P' && "LoadResponseCharacteristic"@[0] == 'L');
}

/// All response records of a name in the typed part of a document are the same.
pub proof fn lemma_typed_responses(m: Sem, net: DistNetworkV, name: Seq<char>)
    requires
        forall|i: int|
            0 <= i < net.ibrs.len() ==> carries_calm(
                "LoadResponseCharacteristic"@,
                #[trigger] net.ibrs[i],
            ),
    ensures
        unambiguous(collect_of(typed_root(m, net)), "LoadResponseCharacteristic"@, name),
{
    let x = "LoadResponseCharacteristic"@;
    lemma_response_stands_alone();
    let w = fresh_writer(bases_of(m, net));
    let root = typed_root(m, net);
    let t = tables_of(w, m, net).0.responses;
    let start = lemma_replies_of_loads(m, net);
    lemma_replies_sorted(start, m, net, net.loads.len());
    lemma_tables_mild(x, w, m, net);
    lemma_own_fine(x, t);
    lemma_typed_only(x, t, w, m, net);
    lemma_collected_only(x, t, root);
}

/// Loads find their records: in the document of a network that keeps no untyped
/// objects, and whose inverters carry none over, all response records of a name
/// are the same.
pub proof fn lemma_responses_are_unambiguous(m: Sem, net: DistNetworkV, name: Seq<char>)
    requires
        net.untyped.len() == 0,
        forall|i: int|
            0 <= i < net.ibrs.len() ==> carries_calm(
                "LoadResponseCharacteristic"@,
                #[trigger] net.ibrs[i],
            ),
    ensures
        unambiguous(
            collect_of(ravens_document(m, net).1),
            "LoadResponseCharacteristic"@,
            name,
        ),
{
    lemma_typed_responses(m, net, name);
    reveal(document_of);
}

// ---- places ----------------------------------------------------------------

/// The path to the response records.
pub open spec fn response_path() -> Seq<Seq<char>> {
    seq!["LoadResponseCharacteristic"@]
}

#[verifier::rlimit(40)]
pub proof fn lemma_response_found(m: Sem, net: DistNetworkV, name: Seq<char>, v: JsonV)
    requires
        clear(net.untyped, response_path(), name),
        get_of(tables_of(fresh_writer(bases_of(m, net)), m, net).0.responses, name) == Some(v),
    ensures
        found_at(ravens_document(m, net).1, response_path(), 0, name) == Some(v),
{
    broadcast use lemma_get_put;

    let x = "AlgorithmSettings"@;
    lemma_balanced_apart(x);
    let w = tables_of(fresh_writer(bases_of(m, net)), m, net).0;
    lemma_some_entries(w.responses, name);
    let names = base_names(m, w.bases, w.bases.len());
    lemma_base_table_mild(x, w, m, names, names.len());
    lemma_root_keys();
    assert(get_of(typed_root(m, net), "LoadResponseCharacteristic"@) == Some(
        JsonV::Obj(w.responses),
    )) by {
        reveal(typed_of);
    }
    lemma_typed_place_stays(m, net, response_path(), name);
    reveal_with_fuel(found_at, 3);
}

// ---- reading ---------------------------------------------------------------

/// The voltage model of a load that comes back, at whatever nominal volts its
/// bus gives it.
pub open spec fn comes_of_model(m: Sem, back: DistLoadV, load: DistLoadV) -> bool {
    exists|v: Seq<Bits>| back.voltage_model == #[trigger] returned_model(m, load.voltage_model, v)
}

#[verifier::rlimit(40)]
pub proof fn lemma_model_step(
    m: Sem,
    doc: Seq<ObjV>,
    st: StateV,
    o: ObjV,
    load: DistLoadV,
    record: Entries,
)
    requires
        o.name == load.name,
        load_told(m, load),
        says_load(m, o.props, load),
        model_told(m, load.voltage_model),
        says_response(m, record, load.voltage_model),
        resolve_at(doc, o.props, "EnergyConsumer.LoadResponse"@) == Some(record),
    ensures
        ({
            let loads = load_step(m, doc, st, o).net.loads;
            &&& loads.len() > 0
            &&& comes_of_load(loads[loads.len() - 1], load)
            &&& comes_of_model(m, loads[loads.len() - 1], load)
        }),
{
    lemma_load_step(m, doc, st, o, load);
    let back = load_step(m, doc, st, o).net.loads.last();
    assert(exists|v: Seq<Bits>| back.voltage_model == #[trigger] response_model(m, record, v)) by {
        let phases = load_phases(load);
        let at = terminals_of(o.props)[0].1;
        assert(phases.len() > 0);
        assert(load_phases_of(m, st, o, at.phases) == (st, phases)) by {
            reveal(load_phases_of);
        }
        lemma_load_wires(st, o, load);
        let volts = match base_voltage_of(m, doc, o.props) {
            Some(b) => repeat_of(
                if is_delta(o.props) {
                    b
                } else {
                    m.over(b, m.root3())
                },
                phases.len(),
            ),
            None => Seq::empty(),
        };
        assert(back.voltage_model == response_model(m, record, volts));
    }
    let v = choose|v: Seq<Bits>| back.voltage_model == #[trigger] response_model(m, record, v);
    assert(back.voltage_model == returned_model(m, load.voltage_model, v));
}

/// No voltage model is lost: where the response records of the document are told
/// apart by their names, a load that is read of a written document depends on
/// its voltage as the load that was written did, by the coefficients of its
/// first phase.
#[verifier::rlimit(60)]
pub proof fn lemma_load_models_survive(m: Sem, net: DistNetworkV, i: int)
    requires
        0 <= i < net.loads.len(),
        clear(net.untyped, load_path(), net.loads[i].name),
        clear(net.untyped, response_path(), response_name(net.loads[i])),
        load_told(m, net.loads[i]),
        model_told(m, net.loads[i].voltage_model),
        forall|j: int|
            i < j < net.loads.len() ==> (#[trigger] net.loads[j]).name != net.loads[i].name,
        collect_of(ravens_document(m, net).1).len() <= usize::MAX,
        unambiguous(
            collect_of(ravens_document(m, net).1),
            "LoadResponseCharacteristic"@,
            response_name(net.loads[i]),
        ),
    ensures
        ravens_value(m, JsonV::Obj(ravens_document(m, net).1)) matches Ok(back) ==> exists|k: int|
            0 <= k < back.loads.len() && comes_of_load(#[trigger] back.loads[k], net.loads[i])
                && comes_of_model(m, back.loads[k], net.loads[i]),
{
    let root = ravens_document(m, net).1;
    let doc = collect_of(root);
    let load = net.loads[i];
    let name = response_name(load);
    let class = "LoadResponseCharacteristic"@;
    lemma_load_tables(m, net, i);
    lemma_reply_tables(m, net, i);
    let o = get_of(written_tables(m, net).loads, load.name)->0->Obj_0;
    let all = tables_of(fresh_writer(bases_of(m, net)), m, net).0.responses;
    let record = get_of(all, name)->0->Obj_0;
    lemma_load_found(m, net, load.name, JsonV::Obj(o));
    lemma_response_found(m, net, name, JsonV::Obj(record));
    let q = lemma_typed_object_is_collected(root, response_path(), name, record, class);
    lemma_named_is(doc, class, name, q);
    assert(resolve_at(doc, o, "EnergyConsumer.LoadResponse"@) == Some(record)) by {
        reveal_strlit("LoadResponseCharacteristic");
        lemma_pointer_reads_back(class, name);
        reveal(resolve_at);
        reveal(named_of);
        reveal(str_at);
    }
    let at = lemma_typed_object_is_collected(root, load_path(), load.name, o, "EnergyConsumer"@);
    let j = lemma_kind_holds(doc, Seq::empty(), "EnergyConsumer"@, doc.len(), at);
    let ids = sorted_kind(doc, "EnergyConsumer"@);
    let g = stages(m, doc);
    let before = loads_n(m, doc, g.switched, ids, j as nat);
    let after = loads_n(m, doc, g.switched, ids, (j + 1) as nat).net.loads;
    lemma_model_step(m, doc, before, doc[ids[j] as int], load, record);
    lemma_loads_n_grows(m, doc, g.switched, ids, (j + 1) as nat, ids.len());
    let k = after.len() - 1;
    assert(loads_n(m, doc, g.switched, ids, ids.len()).net.loads[k] == after[k]);
    lemma_nothing_is_taken_back(m, doc);
    assert(g.loaded.net.loads == loads_n(m, doc, g.switched, ids, ids.len()).net.loads);
    assert(run_of(m, doc).net.loads[k] == g.loaded.net.loads[k]);
    if let Ok(back) = ravens_value(m, JsonV::Obj(root)) {
        assert(comes_of_load(back.loads[k], load));
    }
}

} // verus!
