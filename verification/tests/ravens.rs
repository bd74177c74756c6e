//! MG-RAVENS.

use powerio_dist::error::Error;
use powerio_dist::json::Json;
use powerio_dist::math::{Calc, Math, Op};
use powerio_dist::model::{
    Configuration, DistBus, DistGenerator, DistIbr, DistLine, DistLineCode, DistLoad,
    DistLoadVoltageModel, DistNetwork, DistShunt, DistSourceFormat, DistSwitch, DistTransformer,
    IbrPrimeMover, IbrTopology, Location, Prop, UntypedObject, VoltageSource, Winding, WindingConn,
};
use powerio_dist::ravens::bases::bus_bases;
use powerio_dist::ravens::name::{
    det_mrid, expand_phase_code, natural_key, natural_less, phase_terminal, terminal_phase,
};
use powerio_dist::ravens::read::{parse_ravens_str, read_ravens};
use powerio_dist::ravens::write::write_ravens_json;

fn apply(op: Op, a: u64, b: u64) -> u64 {
    let x = f64::from_bits(a);
    let y = f64::from_bits(b);
    match op {
        Op::Add => (x + y).to_bits(),
        Op::Sub => (x - y).to_bits(),
        Op::Mul => (x * y).to_bits(),
        Op::Div => (x / y).to_bits(),
        Op::Max => x.max(y).to_bits(),
        Op::Sqrt => x.sqrt().to_bits(),
        Op::Sin => x.sin().to_bits(),
        Op::RemEuclid => x.rem_euclid(y).to_bits(),
        Op::Radians => x.to_radians().to_bits(),
        Op::Degrees => x.to_degrees().to_bits(),
        Op::FromInt => (a as f64).to_bits(),
        Op::Trunc => x as u64,
        Op::Round => (x.round() as i64) as u64,
    }
}

fn math() -> impl Calc {
    Math::new(
        |s: &str| s.parse::<f64>().ok().map(f64::to_bits),
        apply,
        |a: u64| format!("{}", f64::from_bits(a)),
    )
}

#[test]
fn det_mrid_is_uuid_shaped_and_stable() {
    let a = det_mrid("ACLineSegment", "ohline");
    assert_eq!(a, det_mrid("ACLineSegment", "ohline"));
    assert_ne!(a, det_mrid("ACLineSegment", "quad"));
    let parts: Vec<&str> = a.split('-').collect();
    assert_eq!(
        parts.iter().map(|p| p.len()).collect::<Vec<_>>(),
        vec![8, 4, 4, 4, 12]
    );
    assert!(parts[2].starts_with('4'), "version nibble: {a}");
}

#[test]
fn phase_codes_expand_in_order() {
    assert_eq!(expand_phase_code("PhaseCode.ABCN"), ["A", "B", "C", "N"]);
    assert_eq!(expand_phase_code("OrderedPhaseCodeKind.CA"), ["C", "A"]);
    assert_eq!(expand_phase_code("PhaseCode.s1s2N"), ["s1", "s2", "N"]);
    assert_eq!(expand_phase_code("A"), ["A"]);
}

#[test]
fn natural_keys_order_numerically() {
    let mut names = vec!["line10", "line2", "line1"];
    names.sort_by(|a, b| {
        natural_less(&natural_key(b), &natural_key(a)).cmp(&natural_less(&natural_key(a), &natural_key(b)))
    });
    assert_eq!(names, ["line1", "line2", "line10"]);
}

#[test]
fn balanced_transmission_profile_is_rejected() {
    let balanced = r#"{
      "ConnectivityNode": {"b": {"Ravens.cimObjectType": "ConnectivityNode",
        "IdentifiedObject.name": "b"}},
      "ApplicationSettings": {"s": {"Ravens.cimObjectType": "AlgorithmSettings",
        "IdentifiedObject.name": "s"}}
    }"#;
    let err = match parse_ravens_str(&math(), balanced) {
        Err(e) => e.to_text(),
        Ok(_) => panic!("accepted"),
    };
    assert!(
        err.contains("balanced"),
        "expected a balanced-profile rejection, got: {err}"
    );
}

fn f(bits: u64) -> f64 {
    f64::from_bits(bits)
}

fn all(bits: &[u64]) -> Vec<f64> {
    bits.iter().map(|b| f64::from_bits(*b)).collect()
}

fn close(a: f64, b: f64) -> bool {
    (a - b).abs() <= 1e-9 * a.abs().max(b.abs()).max(1.0)
}

fn number(j: Option<&Json>) -> f64 {
    f(j.unwrap().as_num(&math()).unwrap())
}

fn node(name: &str) -> String {
    format!(
        r#""{name}": {{"Ravens.cimObjectType": "ConnectivityNode", "IdentifiedObject.name": "{name}",
           "IdentifiedObject.mRID": "id-{name}"}}"#
    )
}

fn terminal(n: usize, node: &str, phases: &str, limits: &str) -> String {
    let set = if limits.is_empty() {
        String::new()
    } else {
        format!(r#", "ACDCTerminal.OperationalLimitSet": "OperationalLimitSet::'{limits}'""#)
    };
    format!(
        r#"{{"Ravens.cimObjectType": "Terminal", "ACDCTerminal.sequenceNumber": {n},
            "Terminal.phases": "PhaseCode.{phases}",
            "Terminal.ConnectivityNode": "ConnectivityNode::'{node}'"{set}}}"#
    )
}

fn impedance(name: &str, r: f64, rm: f64, x: f64) -> String {
    let mut rows = Vec::new();
    for i in 1..=3 {
        for j in 1..=i {
            let (rv, xv, bv) = if i == j { (r, x, 1.6e-5) } else { (rm, x / 4.0, 0.0) };
            rows.push(format!(
                r#"{{"Ravens.cimObjectType": "PhaseImpedanceData", "PhaseImpedanceData.row": {i},
                    "PhaseImpedanceData.column": {j}, "PhaseImpedanceData.r": {rv},
                    "PhaseImpedanceData.x": {xv}, "PhaseImpedanceData.b": {bv},
                    "PhaseImpedanceData.g": 0.0}}"#
            ));
        }
    }
    format!(
        r#""{name}": {{"Ravens.cimObjectType": "PerLengthPhaseImpedance",
            "IdentifiedObject.name": "{name}", "IdentifiedObject.mRID": "id-{name}",
            "PerLengthPhaseImpedance.conductorCount": 3,
            "PerLengthPhaseImpedance.PhaseImpedanceData": [{}]}}"#,
        rows.join(", ")
    )
}

fn line(name: &str, from: &str, to: &str, code: &str, limits: &str) -> String {
    format!(
        r#""{name}": {{"Ravens.cimObjectType": "ACLineSegment", "IdentifiedObject.name": "{name}",
            "IdentifiedObject.mRID": "id-{name}", "Conductor.length": 1.0,
            "ACLineSegment.PerLengthImpedance": "PerLengthPhaseImpedance::'{code}'",
            "ConductingEquipment.Terminals": [{}, {}]}}"#,
        terminal(1, from, "ABC", limits),
        terminal(2, to, "ABC", "")
    )
}

fn load(name: &str, phase: &str) -> String {
    format!(
        r#""{name}": {{"Ravens.cimObjectType": "EnergyConsumer", "IdentifiedObject.name": "{name}",
            "IdentifiedObject.mRID": "id-{name}", "EnergyConsumer.p": 6000.0,
            "EnergyConsumer.q": 3000.0, "EnergyConsumer.grounded": true,
            "EnergyConsumer.phaseConnection": "PhaseShuntConnectionKind.Y",
            "ConductingEquipment.BaseVoltage": "BaseVoltage::'BaseV_0.4'",
            "EnergyConsumer.EnergyConsumerPhase": [{{"Ravens.cimObjectType": "EnergyConsumerPhase",
              "EnergyConsumerPhase.phase": "SinglePhaseKind.{phase}",
              "EnergyConsumerPhase.p": 6000.0, "EnergyConsumerPhase.q": 3000.0}}],
            "ConductingEquipment.Terminals": [{}]}}"#,
        terminal(1, "loadbus", phase, "")
    )
}

fn limits(name: &str, norm: f64, emergency: f64) -> String {
    format!(
        r#""{name}": {{"Ravens.cimObjectType": "OperationalLimitSet",
            "IdentifiedObject.name": "{name}",
            "OperationalLimitSet.OperationalLimitValue": [
              {{"Ravens.cimObjectType": "CurrentLimit", "CurrentLimit.value": {norm},
                "OperationalLimit.OperationalLimitType": "OperationalLimitType::'norm'"}},
              {{"Ravens.cimObjectType": "CurrentLimit", "CurrentLimit.value": {emergency},
                "OperationalLimit.OperationalLimitType": "OperationalLimitType::'emerg'"}}]}}"#
    )
}

fn limit_type(name: &str, duration: f64) -> String {
    format!(
        r#""{name}": {{"Ravens.cimObjectType": "OperationalLimitType",
            "IdentifiedObject.name": "{name}",
            "OperationalLimitType.acceptableDuration": {duration},
            "OperationalLimitType.direction": "OperationalLimitDirectionKind.absoluteValue"}}"#
    )
}

fn case3() -> String {
    format!(
        r#"{{
          "BaseVoltage": {{"BaseV_0.4": {{"Ravens.cimObjectType": "BaseVoltage",
            "IdentifiedObject.name": "BaseV_0.4", "BaseVoltage.nominalVoltage": 400.0}}}},
          "ConnectivityNode": {{{}, {}, {}}},
          "OperationalLimitSet": {{{}}},
          "OperationalLimitType": {{{}, {}}},
          "BasicIntervalSchedule": {{"EnergyConsumerSchedule": {{"ls1": {{
            "Ravens.cimObjectType": "EnergyConsumerSchedule", "IdentifiedObject.name": "ls1",
            "EnergyConsumerSchedule.startDay": "2024-01-01"}}}}}},
          "PerLengthLineParameter": {{"PerLengthImpedance": {{"PerLengthPhaseImpedance":
            {{{}, {}}}}}}},
          "PowerSystemResource": {{"Equipment": {{"ConductingEquipment": {{
            "Conductor": {{"ACLineSegment": {{{}, {}}}}},
            "EnergyConnection": {{
              "EnergyConsumer": {{{}, {}, {}}},
              "EnergySource": {{"source": {{"Ravens.cimObjectType": "EnergySource",
                "IdentifiedObject.name": "source", "IdentifiedObject.mRID": "id-source",
                "EnergySource.nominalVoltage": 400.0, "EnergySource.voltageMagnitude": 398.36,
                "EnergySource.voltageAngle": 0.0,
                "ConductingEquipment.Terminals": [{}]}}}}
            }}}}}}}}
        }}"#,
        node("sourcebus"),
        node("primary"),
        node("loadbus"),
        limits("amps", 400.0, 600.0),
        limit_type("norm", 5e9),
        limit_type("emerg", 86400.0),
        impedance("556mcm", 0.1, 0.04, 0.0583),
        impedance("4/0quad", 0.1167, 0.0467, 0.0667),
        line("ohline", "sourcebus", "primary", "556mcm", "amps"),
        line("quad", "primary", "loadbus", "4/0quad", ""),
        load("l1", "A"),
        load("l2", "B"),
        load("l3", "C"),
        terminal(1, "sourcebus", "ABC", "")
    )
}

#[test]
fn case3_balanced_maps_exactly() {
    let text = case3();
    let net = match parse_ravens_str(&math(), &text) {
        Ok(n) => n,
        Err(e) => panic!("{}", e.to_text()),
    };
    assert_eq!(net.source_format, Some(DistSourceFormat::RavensJson));
    // The format carries no frequency; the reader assumes the usual default.
    assert_eq!(f(net.base_frequency), 60.0);

    // Three nodes; that of the source and of the wye loads carry a grounded
    // neutral terminal, the one between does not.
    assert_eq!(net.buses.len(), 3);
    let loadbus = net.bus("loadbus").expect("loadbus present");
    assert!(loadbus.terminals.contains(&"4".to_string()));
    assert_eq!(loadbus.grounded, vec!["4".to_string()]);
    assert!(net.bus("primary").unwrap().grounded.is_empty());

    assert_eq!(net.linecodes.len(), 2);
    let lc = net.linecode("556mcm").expect("556mcm present");
    assert_eq!(lc.n_conductors, 3);
    assert!(close(f(lc.r_series[0][0]), 0.1));
    assert!(close(f(lc.r_series[1][0]), 0.04), "mutual r");
    assert!(close(f(lc.x_series[0][0]), 0.0583));
    assert!(close(f(lc.b_from[0][0]), 1.6e-5 / 2.0));
    assert!(close(f(lc.b_to[0][0]), 1.6e-5 / 2.0));
    // The emergency current limit becomes the linecode ampacity.
    assert_eq!(all(lc.i_max.as_ref().unwrap()), vec![600.0, 600.0, 600.0]);

    assert_eq!(net.lines.len(), 2);
    let ohline = net.lines.iter().find(|l| l.name == "ohline").unwrap();
    assert_eq!(ohline.bus_from, "sourcebus");
    assert_eq!(ohline.bus_to, "primary");
    assert_eq!(ohline.terminal_map_from, ["1", "2", "3"]);
    assert!(close(f(ohline.length), 1.0));
    assert_eq!(ohline.linecode, "556mcm");
    // The continuous limit rides in the extras.
    assert!(close(number(ohline.extras.get("normamps")), 400.0));

    assert_eq!(net.loads.len(), 3);
    let l1 = net.loads.iter().find(|l| l.name == "l1").unwrap();
    assert_eq!(l1.bus, "loadbus");
    assert_eq!(l1.configuration, Configuration::SinglePhase);
    assert_eq!(l1.terminal_map, ["1", "4"]);
    assert_eq!(all(&l1.p_nom), vec![6000.0]);
    assert_eq!(all(&l1.q_nom), vec![3000.0]);
    match &l1.voltage_model {
        DistLoadVoltageModel::ConstantPower { v_nom } => {
            assert!(close(f(v_nom[0]), 400.0 / 3f64.sqrt()));
        }
        _ => panic!("constant power expected"),
    }

    assert_eq!(net.sources.len(), 1);
    let src = &net.sources[0];
    assert_eq!(src.bus, "sourcebus");
    assert!(close(f(src.v_magnitude[0]), 398.36 / 3f64.sqrt()));
    assert!(close(f(src.v_angle[1]), -2.0 * std::f64::consts::PI / 3.0));
    assert!(close(number(src.extras.get("basekv")), 0.4));
    assert!(close(number(src.extras.get("pu")), 0.9959));

    // A schedule has no typed model and is kept as it is.
    assert!(
        net.untyped
            .iter()
            .any(|u| u.class == "EnergyConsumerSchedule" && u.name == "ls1")
    );
    assert_eq!(net.source.as_ref().unwrap().as_str(), text);
}

#[test]
fn ravens_writer_round_trips() {
    let net = parse_ravens_str(&math(), &case3()).unwrap();
    let first = write_ravens_json(&math(), &net);
    let back = parse_ravens_str(&math(), &first.text).unwrap();

    assert_eq!(back.buses.len(), net.buses.len());
    assert_eq!(back.linecodes.len(), net.linecodes.len());
    assert_eq!(back.lines.len(), net.lines.len());
    assert_eq!(back.loads.len(), net.loads.len());
    assert_eq!(back.sources.len(), net.sources.len());

    let lc_a = net.linecode("556mcm").unwrap();
    let lc_b = back.linecode("556mcm").unwrap();
    for i in 0..lc_a.n_conductors {
        for j in 0..lc_a.n_conductors {
            assert!(close(f(lc_a.r_series[i][j]), f(lc_b.r_series[i][j])), "r {i}{j}");
            assert!(close(f(lc_a.x_series[i][j]), f(lc_b.x_series[i][j])), "x {i}{j}");
            assert!(
                close(
                    f(lc_a.b_from[i][j]) + f(lc_a.b_to[i][j]),
                    f(lc_b.b_from[i][j]) + f(lc_b.b_to[i][j])
                ),
                "b {i}{j}"
            );
        }
    }
    let la = net.loads.iter().find(|l| l.name == "l1").unwrap();
    let lb = back.loads.iter().find(|l| l.name == "l1").unwrap();
    assert_eq!(la.p_nom, lb.p_nom);
    assert_eq!(la.configuration, lb.configuration);
    assert!(close(
        f(net.sources[0].v_magnitude[0]),
        f(back.sources[0].v_magnitude[0])
    ));
    assert!(close(f(net.sources[0].v_angle[1]), f(back.sources[0].v_angle[1])));

    // Imported identifiers come back, so the second writing is the same text.
    let second = write_ravens_json(&math(), &back);
    assert_eq!(first.text, second.text);

    // The text of a reading is kept as it was.
    assert_eq!(net.source.as_ref().unwrap().as_str(), case3());
    assert_eq!(back.source.as_ref().unwrap().as_str(), first.text);
}

fn names(v: &[&str]) -> Vec<String> {
    v.iter().map(|s| s.to_string()).collect()
}

fn bits(v: &[f64]) -> Vec<u64> {
    v.iter().map(|x| x.to_bits()).collect()
}

#[test]
fn every_kind_of_element_round_trips() {
    let mut net = DistNetwork::new();
    for id in ["a", "b", "c"] {
        net.buses.push(DistBus::new(id.to_string(), names(&["1", "2", "3", "4"])));
    }
    let volts = 2400.0;
    let angle = 2.0 * std::f64::consts::PI / 3.0;
    net.sources.push(VoltageSource::new(
        "source".to_string(),
        "a".to_string(),
        names(&["1", "2", "3", "4"]),
        bits(&[volts, volts, volts, 0.0]),
        bits(&[0.0, -angle, angle, 0.0]),
    ));
    let m = |on: f64, off: f64| {
        (0..3)
            .map(|i| (0..3).map(|j| if i == j { on } else { off }.to_bits()).collect())
            .collect::<Vec<Vec<u64>>>()
    };
    net.linecodes.push(DistLineCode::new("lc".to_string(), m(0.5, 0.125), m(1.0, 0.25)));
    net.lines.push(DistLine::new(
        "l".to_string(),
        "a".to_string(),
        "b".to_string(),
        names(&["1", "2", "3"]),
        names(&["1", "2", "3"]),
        "lc".to_string(),
        2.0f64.to_bits(),
    ));
    net.switches.push(DistSwitch::new(
        "s".to_string(),
        "b".to_string(),
        "c".to_string(),
        names(&["1", "2", "3"]),
        names(&["1", "2", "3"]),
        true,
    ));
    net.shunts.push(DistShunt::new(
        "cap".to_string(),
        "b".to_string(),
        names(&["1", "2", "3", "4"]),
        m(0.0, 0.0),
        m(1e-4, 0.0),
    ));
    let mut zip = DistLoad::new(
        "zip".to_string(),
        "b".to_string(),
        names(&["2", "4"]),
        Configuration::SinglePhase,
        bits(&[1000.0]),
        bits(&[250.0]),
    );
    zip.voltage_model = DistLoadVoltageModel::Zip {
        v_nom: bits(&[2400.0]),
        alpha_z: bits(&[0.5]),
        alpha_i: bits(&[0.25]),
        alpha_p: bits(&[0.25]),
        beta_z: bits(&[0.5]),
        beta_i: bits(&[0.25]),
        beta_p: bits(&[0.25]),
    };
    net.loads.push(zip);
    let winding = |bus: &str, map: &[&str], conn: WindingConn, v: f64| {
        let mut w = Winding::new(
            bus.to_string(),
            names(map),
            conn,
            v.to_bits(),
            50_000.0f64.to_bits(),
        );
        w.r_pct = 0.5f64.to_bits();
        w
    };
    net.transformers.push(DistTransformer::new(
        "t".to_string(),
        vec![
            winding("b", &["1", "2", "3"], WindingConn::Delta, 4160.0),
            winding("c", &["1", "2", "3", "4"], WindingConn::Wye, 480.0),
        ],
        bits(&[4.0]),
        3,
    ));
    net.ibrs.push(DistIbr::new(
        "pv".to_string(),
        "c".to_string(),
        names(&["1", "2", "3"]),
        IbrTopology::ThreeLeg,
        IbrPrimeMover::Pv,
        bits(&[1000.0, 1000.0, 1000.0]),
    ));
    let first = write_ravens_json(&math(), &net);
    let back = match parse_ravens_str(&math(), &first.text) {
        Ok(n) => n,
        Err(e) => panic!("{}", e.to_text()),
    };
    assert_eq!(back.buses.len(), 3);
    assert_eq!(back.lines.len(), 1);
    assert_eq!(back.lines[0].linecode, "lc");
    assert_eq!(back.switches.len(), 1);
    assert!(back.switches[0].open);
    assert_eq!(back.shunts.len(), 1);
    assert!(close(f(back.shunts[0].b[1][1]), 1e-4));
    assert_eq!(back.loads.len(), 1);
    assert_eq!(back.loads[0].terminal_map, ["2", "4"]);
    assert!(matches!(&back.loads[0].voltage_model, DistLoadVoltageModel::Zip { .. }));
    assert_eq!(back.transformers.len(), 1);
    for (wa, wb) in net.transformers[0].windings.iter().zip(&back.transformers[0].windings) {
        assert_eq!(wa.conn, wb.conn, "winding connection");
        assert!(close(f(wa.v_ref), f(wb.v_ref)), "winding voltage");
        assert!(close(f(wa.r_pct), f(wb.r_pct)), "winding resistance");
    }
    assert!(close(f(back.transformers[0].xsc_pct[0]), 4.0));
    assert_eq!(back.ibrs.len(), 1);
    assert_eq!(back.ibrs[0].prime_mover, IbrPrimeMover::Pv);
    assert_eq!(back.sources.len(), 1);
    // Writing what was read again is the same text.
    let second = write_ravens_json(&math(), &back);
    assert_eq!(first.text, second.text);
}

#[test]
fn terminals_and_phases_are_inverse() {
    for t in ["1", "2", "3", "4"] {
        assert_eq!(phase_terminal(terminal_phase(t).unwrap()), Some(t));
    }
    assert_eq!(phase_terminal("s2"), Some("2"));
    assert_eq!(terminal_phase("5"), None);
}

#[test]
fn what_is_no_document_is_refused() {
    match parse_ravens_str(&math(), "{") {
        Err(Error::Json { message, .. }) => assert!(message.contains("EOF")),
        _ => panic!("a JSON error expected"),
    }
    match parse_ravens_str(&math(), "[1, 2.5e3, true, null]") {
        Err(e) => assert!(e.to_text().contains("top level is not an object")),
        Ok(_) => panic!("accepted"),
    }
    match read_ravens(&math(), &Json::Null) {
        Err(e) => assert!(e.to_text().contains("top level is not an object")),
        Ok(_) => panic!("accepted"),
    }
}

#[test]
fn untyped_objects_go_back_to_their_places() {
    let text = r#"{
        "ConnectivityNode": {"n": {"Ravens.cimObjectType": "ConnectivityNode",
            "IdentifiedObject.name": "n"}},
        "Shelf": {"Box": {"x": {"Ravens.cimObjectType": "Oddity", "IdentifiedObject.name": "x",
            "count": 3, "list": [1.5, "a", {"Ravens.cimObjectType": "Part"}]}}}
    }"#;
    let net = parse_ravens_str(&math(), text).unwrap();
    assert_eq!(net.untyped.len(), 1);
    assert_eq!(net.untyped[0].class, "Oddity");
    assert_eq!(net.untyped[0].name, "x");
    let conv = write_ravens_json(&math(), &net);
    let before: serde_json::Value = serde_json::from_str(text).unwrap();
    let after: serde_json::Value = serde_json::from_str(&conv.text).unwrap();
    assert_eq!(after["Shelf"]["Box"]["x"], before["Shelf"]["Box"]["x"]);
    assert!(!conv.warnings.iter().any(|w| w.starts_with("untyped ")));
    // A place that is taken loses the object, and the loss is reported.
    let mut twice = parse_ravens_str(&math(), text).unwrap();
    twice.buses.push(DistBus::new("x".to_string(), names(&["1"])));
    twice.untyped[0].props[0].value = "ConnectivityNode".to_string();
    let conv = write_ravens_json(&math(), &twice);
    assert!(conv
        .warnings
        .iter()
        .any(|w| w == "untyped Oddity x: its document slot is already taken; dropped"));
}

#[test]
fn nothing_is_lost_on_the_way() {
    let odd = "it's::'here'";
    let mut net = DistNetwork::new();
    for id in ["n10", "n9", odd] {
        net.buses.push(DistBus::new(id.to_string(), names(&["1", "2", "3", "4"])));
    }
    let m = |v: [[f64; 2]; 2]| v.iter().map(|r| bits(r)).collect::<Vec<Vec<u64>>>();
    let mut code = DistLineCode::new(
        "pair".to_string(),
        m([[0.5, 9.0], [0.25, 0.75]]),
        m([[1.5, 9.0], [1.25, 1.75]]),
    );
    code.b_from = m([[4e-6, 0.0], [1e-6, 4e-6]]);
    code.b_to = m([[2e-6, 0.0], [1e-6, 2e-6]]);
    net.linecodes.push(code);
    net.lines.push(DistLine::new(
        "l".to_string(),
        "n10".to_string(),
        odd.to_string(),
        names(&["3", "1", "4"]),
        names(&["3", "1", "4"]),
        "pair".to_string(),
        0.3f64.to_bits(),
    ));
    net.switches.push(DistSwitch::new(
        "s".to_string(),
        odd.to_string(),
        "n9".to_string(),
        names(&["2"]),
        names(&["2"]),
        false,
    ));
    net.loads.push(DistLoad::new(
        "d".to_string(),
        "n9".to_string(),
        names(&["1", "2", "3"]),
        Configuration::Delta,
        bits(&[0.1, 0.2, 0.3]),
        bits(&[1e-9, 0.0, -5.5]),
    ));
    let text = write_ravens_json(&math(), &net).text;
    let back = parse_ravens_str(&math(), &text).unwrap();
    let ids: Vec<&str> = back.buses.iter().map(|b| b.id.as_str()).collect();
    assert_eq!(ids, [odd, "n9", "n10"]);
    let lc = back.linecode("pair").unwrap();
    // The lower triangle stands for both sides of the diagonal.
    assert_eq!(all(&lc.r_series[0]), [0.5, 0.25]);
    assert_eq!(all(&lc.r_series[1]), [0.25, 0.75]);
    assert_eq!(all(&lc.x_series[0]), [1.5, 1.25]);
    assert!(close(f(lc.b_from[0][0]) + f(lc.b_to[0][0]), 6e-6));
    assert_eq!(lc.b_from, lc.b_to);
    let line = &back.lines[0];
    assert_eq!((line.bus_from.as_str(), line.bus_to.as_str()), ("n10", odd));
    assert_eq!(line.terminal_map_from, ["3", "1"]);
    assert_eq!(line.linecode, "pair");
    assert_eq!(f(line.length), 0.3);
    let switch = &back.switches[0];
    assert_eq!((switch.bus_from.as_str(), switch.bus_to.as_str()), (odd, "n9"));
    assert_eq!(switch.terminal_map_to, ["2"]);
    assert!(!switch.open);
    let load = &back.loads[0];
    assert_eq!(load.bus, "n9");
    assert_eq!(load.configuration, Configuration::Delta);
    assert_eq!(load.terminal_map, ["1", "2", "3"]);
    assert_eq!(all(&load.p_nom), [0.1, 0.2, 0.3]);
    assert_eq!(all(&load.q_nom), [1e-9, 0.0, -5.5]);
}

/// A network as it comes back of its own document.
fn returned(net: &DistNetwork) -> DistNetwork {
    let text = write_ravens_json(&math(), net).text;
    match parse_ravens_str(&math(), &text) {
        Ok(n) => n,
        Err(e) => panic!("{}", e.to_text()),
    }
}

fn id_of(extras: &powerio_dist::model::Extras) -> &str {
    extras.get("ravens_mrid").and_then(|v| v.as_str()).unwrap()
}

#[test]
fn bounds_ratings_and_positions_come_back() {
    let mut net = DistNetwork::new();
    for id in ["a", "b", "c"] {
        net.buses.push(DistBus::new(id.to_string(), names(&["1", "2", "3", "4"])));
    }
    net.buses[0].v_min = Some(2280.0f64.to_bits());
    net.buses[0].v_max = Some(2520.5f64.to_bits());
    net.buses[0].location = Some(Location {
        x: (-104.25f64).to_bits(),
        y: 39.5f64.to_bits(),
        kind: None,
    });
    net.buses[0].extras.put("ravens_mrid".to_string(), Json::text("imported"));
    net.buses[1].v_max = Some(2500.0f64.to_bits());
    let z = vec![bits(&[0.5])];
    let mut code = DistLineCode::new("lc".to_string(), z.clone(), z);
    code.i_max = Some(bits(&[600.0]));
    net.linecodes.push(code);
    for (name, normal) in [("own", Some(400.0)), ("bare", None)] {
        let mut line = DistLine::new(
            name.to_string(),
            "a".to_string(),
            "b".to_string(),
            names(&["2"]),
            names(&["2"]),
            "lc".to_string(),
            1.0f64.to_bits(),
        );
        if let Some(amps) = normal {
            line.extras.put("normamps".to_string(), Json::float(&math(), f64::to_bits(amps)));
        }
        net.lines.push(line);
    }
    let mut switch = DistSwitch::new(
        "s".to_string(),
        "b".to_string(),
        "c".to_string(),
        names(&["1", "2"]),
        names(&["1", "2"]),
        false,
    );
    switch.i_max = Some(bits(&[250.0, 250.0]));
    switch.extras.put("ravens_normal_open".to_string(), Json::Bool(true));
    net.switches.push(switch);
    let back = returned(&net);
    let bus = |id: &str| back.buses.iter().find(|b| b.id == id).unwrap();
    assert_eq!(bus("a").v_min.map(f), Some(2280.0));
    assert_eq!(bus("a").v_max.map(f), Some(2520.5));
    let at = bus("a").location.as_ref().unwrap();
    assert_eq!((f(at.x), f(at.y)), (-104.25, 39.5));
    assert_eq!(id_of(&bus("a").extras), "imported");
    assert_eq!(id_of(&bus("b").extras), det_mrid("ConnectivityNode", "b"));
    // A bus that is bounded one way only keeps no bound.
    assert_eq!(bus("b").v_max, None);
    let line = |name: &str| back.lines.iter().find(|l| l.name == name).unwrap();
    assert_eq!(number(line("own").extras.get("normamps")), 400.0);
    assert_eq!(number(line("bare").extras.get("normamps")), 600.0);
    let switch = &back.switches[0];
    assert_eq!(switch.i_max.as_deref().map(all), Some(vec![250.0, 250.0]));
    assert_eq!(number(switch.extras.get("normamps")), 250.0);
    assert_eq!(switch.extras.get("ravens_normal_open").and_then(|v| v.as_bool()), Some(true));
    assert!(!switch.open);
}

#[test]
fn voltage_models_come_back() {
    let mut net = DistNetwork::new();
    net.buses.push(DistBus::new("a".to_string(), names(&["1", "2", "3", "4"])));
    let models = [
        ("power", DistLoadVoltageModel::ConstantPower { v_nom: vec![] }),
        ("current", DistLoadVoltageModel::ConstantCurrent { v_nom: vec![] }),
        ("impedance", DistLoadVoltageModel::ConstantImpedance { v_nom: vec![] }),
        ("again", DistLoadVoltageModel::ConstantCurrent { v_nom: vec![] }),
        (
            "exponential",
            DistLoadVoltageModel::Exponential {
                v_nom: vec![],
                gamma_p: bits(&[0.75, 9.0]),
                gamma_q: bits(&[1.5]),
            },
        ),
        (
            "mixed",
            DistLoadVoltageModel::Zip {
                v_nom: vec![],
                alpha_z: bits(&[0.5]),
                alpha_i: bits(&[0.125]),
                alpha_p: bits(&[0.375]),
                beta_z: bits(&[0.25]),
                beta_i: bits(&[0.75]),
                beta_p: bits(&[0.0]),
            },
        ),
        (
            "whole",
            DistLoadVoltageModel::Zip {
                v_nom: vec![],
                alpha_z: bits(&[1.0]),
                alpha_i: bits(&[0.0]),
                alpha_p: bits(&[0.0]),
                beta_z: bits(&[1.0]),
                beta_i: bits(&[0.0]),
                beta_p: bits(&[0.0]),
            },
        ),
    ];
    for (name, model) in models {
        let mut load = DistLoad::new(
            name.to_string(),
            "a".to_string(),
            names(&["1", "4"]),
            Configuration::SinglePhase,
            bits(&[1000.0]),
            bits(&[250.0]),
        );
        load.voltage_model = model;
        net.loads.push(load);
    }
    let back = returned(&net);
    let model = |name: &str| {
        &back.loads.iter().find(|l| l.name == name).unwrap().voltage_model
    };
    assert!(matches!(model("power"), DistLoadVoltageModel::ConstantPower { .. }));
    assert!(matches!(model("current"), DistLoadVoltageModel::ConstantCurrent { .. }));
    assert!(matches!(model("again"), DistLoadVoltageModel::ConstantCurrent { .. }));
    assert!(matches!(model("impedance"), DistLoadVoltageModel::ConstantImpedance { .. }));
    match model("exponential") {
        DistLoadVoltageModel::Exponential { gamma_p, gamma_q, .. } => {
            assert_eq!((all(gamma_p), all(gamma_q)), (vec![0.75], vec![1.5]));
        }
        _ => panic!("exponents"),
    }
    match model("mixed") {
        DistLoadVoltageModel::Zip { alpha_z, alpha_i, alpha_p, beta_z, beta_i, beta_p, .. } => {
            assert_eq!((all(alpha_z), all(alpha_i)), (vec![0.5], vec![0.125]));
            assert_eq!((all(alpha_p), all(beta_z)), (vec![0.375], vec![0.25]));
            assert_eq!((all(beta_i), all(beta_p)), (vec![0.75], vec![0.0]));
        }
        _ => panic!("shares"),
    }
    // A mixture of which one share is whole is the constant model.
    assert!(matches!(model("whole"), DistLoadVoltageModel::ConstantImpedance { .. }));
}

#[test]
fn transformers_come_back_whole() {
    let mut net = DistNetwork::new();
    for id in ["a", "b", "c"] {
        net.buses.push(DistBus::new(id.to_string(), names(&["1", "2", "3", "4"])));
    }
    let winding = |bus: &str, map: &[&str], conn: WindingConn, v: f64| {
        Winding::new(bus.to_string(), names(map), conn, v.to_bits(), 50_000.0f64.to_bits())
    };
    let mut open = winding("b", &["1", "2", "3"], WindingConn::Wye, 480.0);
    open.r_neutral = Some((-1.0f64).to_bits());
    let mut earthed = winding("c", &["1", "2", "3", "4"], WindingConn::Wye, 240.0);
    earthed.r_neutral = Some(5.0f64.to_bits());
    earthed.x_neutral = Some(0.25f64.to_bits());
    earthed.r_pct = 0.75f64.to_bits();
    let mut t = DistTransformer::new(
        "t".to_string(),
        vec![winding("a", &["1", "2", "3"], WindingConn::Delta, 4160.0), open, earthed],
        bits(&[4.0, 5.0, 6.0]),
        3,
    );
    t.extras.put("ravens_mrid".to_string(), Json::text("imported"));
    t.extras.put("%imag".to_string(), Json::float(&math(), 0.5f64.to_bits()));
    t.extras.put("%noloadloss".to_string(), Json::float(&math(), 0.25f64.to_bits()));
    net.transformers.push(t);
    let back = returned(&net);
    assert_eq!(back.transformers.len(), 1);
    let t = &back.transformers[0];
    assert_eq!(t.name, "t");
    assert_eq!(id_of(&t.extras), "imported");
    assert_eq!(number(t.extras.get("%imag")), 0.5);
    assert!(close(number(t.extras.get("%noloadloss")), 0.25));
    let buses: Vec<&str> = t.windings.iter().map(|w| w.bus.as_str()).collect();
    assert_eq!(buses, ["a", "b", "c"]);
    let volts: Vec<f64> = t.windings.iter().map(|w| f(w.v_ref)).collect();
    assert_eq!(volts, [4160.0, 480.0, 240.0]);
    assert_eq!(t.windings[0].conn, WindingConn::Delta);
    assert_eq!(t.windings[0].terminal_map, ["1", "2", "3"]);
    assert_eq!(t.windings[0].r_neutral, None);
    assert_eq!(t.windings[1].r_neutral.map(f), Some(-1.0));
    assert_eq!(t.windings[1].terminal_map, ["1", "2", "3"]);
    assert_eq!(t.windings[2].r_neutral.map(f), Some(5.0));
    assert_eq!(t.windings[2].x_neutral.map(f), Some(0.25));
    assert_eq!(t.windings[2].terminal_map, ["1", "2", "3", "4"]);
    assert!(close(f(t.windings[2].r_pct), 0.75));
    // Only the first pair has a reactance in the document.
    assert!(close(f(t.xsc_pct[0]), 4.0));
    assert_eq!(all(&t.xsc_pct[1..]), [0.0, 0.0]);
}

#[test]
fn sites_come_back_with_their_values() {
    let mut net = DistNetwork::new();
    net.buses.push(DistBus::new("a".to_string(), names(&["1", "2", "3", "4"])));
    let m = |on: f64| {
        (0..2)
            .map(|i| (0..2).map(|j| if i == j { on } else { 0.0 }.to_bits()).collect())
            .collect::<Vec<Vec<u64>>>()
    };
    net.shunts.push(DistShunt::new(
        "cap".to_string(),
        "a".to_string(),
        names(&["1", "3"]),
        m(0.125),
        m(0.5),
    ));
    let mut g = DistGenerator::new(
        "g".to_string(),
        "a".to_string(),
        names(&["1", "2", "4"]),
        Configuration::Wye,
        bits(&[1000.0, 3000.0]),
        bits(&[10.0, 30.0]),
    );
    g.p_max = Some(bits(&[2000.0, 4000.0]));
    g.q_min = Some(bits(&[-50.0, -50.0]));
    g.extras.put("ravens_mrid".to_string(), Json::text("imported"));
    net.generators.push(g);
    let mut battery = DistIbr::new(
        "battery".to_string(),
        "a".to_string(),
        names(&["1", "2"]),
        IbrTopology::ThreeLeg,
        IbrPrimeMover::Battery,
        bits(&[500.0, 1500.0]),
    );
    battery.p_avail = Some(750.0f64.to_bits());
    battery.p_min = Some(bits(&[-400.0, -400.0]));
    net.ibrs.push(battery);
    net.sources.push(VoltageSource::new(
        "source".to_string(),
        "a".to_string(),
        names(&["2", "4"]),
        bits(&[2400.0, 0.0]),
        bits(&[0.25, 0.0]),
    ));
    let back = returned(&net);
    let shunt = &back.shunts[0];
    assert_eq!(shunt.terminal_map, ["1", "3"]);
    assert_eq!(all(&shunt.b[0]), [0.5, 0.0]);
    assert_eq!(all(&shunt.g[1]), [0.0, 0.125]);
    assert_eq!(id_of(&shunt.extras), det_mrid("LinearShuntCompensator", "cap"));
    let g = &back.generators[0];
    assert_eq!(g.terminal_map, ["1", "2", "4"]);
    assert_eq!(id_of(&g.extras), "imported");
    assert_eq!((all(&g.p_nom), all(&g.q_nom)), (vec![2000.0; 2], vec![20.0; 2]));
    assert_eq!(g.p_max.as_deref().map(all), Some(vec![3000.0; 2]));
    assert_eq!(g.p_min, None);
    assert_eq!(g.q_min.as_deref().map(all), Some(vec![-50.0; 2]));
    let ibr = &back.ibrs[0];
    assert_eq!(ibr.prime_mover, IbrPrimeMover::Battery);
    assert_eq!(all(&ibr.s_max), [1000.0, 1000.0]);
    assert_eq!(ibr.p_avail.map(f), Some(750.0));
    assert_eq!(ibr.p_max, None);
    assert_eq!(ibr.p_min.as_deref().map(all), Some(vec![-400.0; 2]));
    let source = &back.sources[0];
    assert_eq!(source.terminal_map, ["2", "4"]);
    assert_eq!(all(&source.v_magnitude), [2400.0, 0.0]);
    assert_eq!(all(&source.v_angle), [0.25, 0.0]);
}

#[test]
fn every_loss_of_a_written_network_is_told() {
    let mut net = DistNetwork::new();
    net.buses.push(DistBus::new("a".to_string(), names(&["1", "2", "3", "4"])));
    net.buses[0].v_min = Some(0.9f64.to_bits());
    let mut code = DistLineCode::new("lc".to_string(), vec![bits(&[1.0])], vec![bits(&[1.0])]);
    code.i_max = Some(bits(&[400.0, 300.0]));
    net.linecodes.push(code);
    net.shunts.push(DistShunt::new(
        "c".to_string(),
        "a".to_string(),
        names(&["1", "2"]),
        vec![bits(&[0.0, 1.0]), bits(&[1.0, 0.0])],
        vec![bits(&[0.0, 0.0]), bits(&[0.0, 0.0])],
    ));
    net.generators.push(DistGenerator::new(
        "g".to_string(),
        "a".to_string(),
        names(&["1", "2", "3"]),
        Configuration::Delta,
        bits(&[1.0, 2.0, 3.0]),
        bits(&[0.0, 0.0, 0.0]),
    ));
    let mut load = DistLoad::new(
        "d".to_string(),
        "a".to_string(),
        names(&["1", "2", "4"]),
        Configuration::Wye,
        bits(&[1.0, 1.0]),
        bits(&[0.0, 0.0]),
    );
    load.voltage_model = DistLoadVoltageModel::Exponential {
        v_nom: vec![],
        gamma_p: bits(&[0.75, 9.0]),
        gamma_q: bits(&[1.5]),
    };
    net.loads.push(load);
    let mut ibr = DistIbr::new(
        "i".to_string(),
        "a".to_string(),
        names(&["1", "2", "3"]),
        IbrTopology::SinglePhase,
        IbrPrimeMover::Pv,
        bits(&[5.0]),
    );
    ibr.i_max = Some(bits(&[10.0]));
    net.ibrs.push(ibr);
    let out = write_ravens_json(&math(), &net);
    for w in [
        "bus a: one voltage bound alone has no MG-RAVENS slot; dropped",
        "linecode lc: per-conductor ampacities differ; the first one represents the line code",
        "linecode lc: no line carries its ampacity (MG-RAVENS rates lines, not line codes); dropped",
        "shunt c: off-diagonal conductance has no MG-RAVENS slot; only the diagonal is carried",
        "generator g: a delta connection has no MG-RAVENS slot; a reparse takes it for wye",
        "generator g: per-phase powers differ; the total is carried",
        "load d: per-phase voltage exponents differ; the first phase's represent the load",
        "ibr i: its topology has no MG-RAVENS slot; a reparse takes it from the number of phases",
        "ibr i: a current limit needs a rated voltage to be carried; dropped",
    ] {
        assert!(out.warnings.iter().any(|x| x == w), "{w}: {:?}", out.warnings);
    }
}

#[test]
fn shares_of_a_load_are_written_the_same_twice() {
    let mut net = DistNetwork::new();
    net.buses.push(DistBus::new("a".to_string(), names(&["1", "4"])));
    let mut load = DistLoad::new(
        "d".to_string(),
        "a".to_string(),
        names(&["1", "4"]),
        Configuration::SinglePhase,
        bits(&[1000.0]),
        bits(&[250.0]),
    );
    load.voltage_model = DistLoadVoltageModel::Zip {
        v_nom: vec![],
        alpha_z: bits(&[0.07]),
        alpha_i: bits(&[0.29]),
        alpha_p: bits(&[0.64]),
        beta_z: bits(&[0.57]),
        beta_i: bits(&[0.14]),
        beta_p: bits(&[0.29]),
    };
    net.loads.push(load);
    let first = write_ravens_json(&math(), &net).text;
    let back = parse_ravens_str(&math(), &first).unwrap();
    assert_eq!(write_ravens_json(&math(), &back).text, first);
}

#[test]
fn a_feeder_is_written_the_same_twice() {
    let mut net = DistNetwork::new();
    for id in ["n10", "n9", "n2"] {
        net.buses.push(DistBus::new(id.to_string(), names(&["1", "2", "3", "4"])));
    }
    let z = |v: f64| vec![bits(&[v, 0.25]), bits(&[0.25, v])];
    net.linecodes.push(DistLineCode::new("lc".to_string(), z(0.5), z(1.5)));
    net.lines.push(DistLine::new(
        "l".to_string(),
        "n10".to_string(),
        "n9".to_string(),
        names(&["1", "2"]),
        names(&["1", "2"]),
        "lc".to_string(),
        12.5f64.to_bits(),
    ));
    net.switches.push(DistSwitch::new(
        "s".to_string(),
        "n9".to_string(),
        "n2".to_string(),
        names(&["1", "2"]),
        names(&["1", "2"]),
        true,
    ));
    for (name, model) in [
        ("d10", DistLoadVoltageModel::ConstantPower { v_nom: vec![] }),
        ("d9", DistLoadVoltageModel::ConstantImpedance { v_nom: vec![] }),
    ] {
        let mut load = DistLoad::new(
            name.to_string(),
            "n9".to_string(),
            names(&["1", "2", "4"]),
            Configuration::Wye,
            bits(&[100.0, 200.0]),
            bits(&[25.0, 50.0]),
        );
        load.voltage_model = model;
        net.loads.push(load);
    }
    let mut source = VoltageSource::new(
        "v".to_string(),
        "n10".to_string(),
        names(&["1", "2", "3", "4"]),
        bits(&[240.0, 240.0, 240.0, 0.0]),
        bits(&[0.5, 0.0, 0.0, 0.0]),
    );
    source.extras.put("basekv".to_string(), Json::float(&math(), 0.48f64.to_bits()));
    source.extras.put("r1".to_string(), Json::float(&math(), 0.125f64.to_bits()));
    net.sources.push(source);
    let mut shunt = DistShunt::new(
        "c".to_string(),
        "n9".to_string(),
        names(&["1", "2"]),
        vec![bits(&[0.0, 0.0]), bits(&[0.0, 0.0])],
        vec![bits(&[0.001, 0.0]), bits(&[0.0, 0.001])],
    );
    shunt.extras.put("kv".to_string(), Json::float(&math(), 0.48f64.to_bits()));
    net.shunts.push(shunt);
    let mut machine = DistGenerator::new(
        "g".to_string(),
        "n2".to_string(),
        names(&["1", "2", "4"]),
        Configuration::Wye,
        bits(&[100.0, 200.0]),
        bits(&[10.0, 20.0]),
    );
    machine.p_max = Some(bits(&[300.0, 300.0]));
    machine.extras.put("kva".to_string(), Json::float(&math(), 0.75f64.to_bits()));
    net.generators.push(machine);
    let first = write_ravens_json(&math(), &net).text;
    assert!(first.contains("Constant kVA") && first.contains("Constant Z"));
    let back = returned(&net);
    assert_eq!(write_ravens_json(&math(), &back).text, first);
}

#[test]
fn small_and_large_numbers_are_written_the_same_twice() {
    assert!(matches!(Json::float(&math(), 1e-8f64.to_bits()), Json::Num(t) if t == "1e-8"));
    assert!(matches!(Json::float(&math(), 2e16f64.to_bits()), Json::Num(t) if t == "2e+16"));
    assert!(matches!(Json::float(&math(), 12.5f64.to_bits()), Json::Num(t) if t == "12.5"));
    assert!(matches!(Json::float(&math(), 3.0f64.to_bits()), Json::Num(t) if t == "3.0"));
    assert!(matches!(Json::float(&math(), f64::NAN.to_bits()), Json::Null));
    let mut net = DistNetwork::new();
    for id in ["a", "b"] {
        net.buses.push(DistBus::new(id.to_string(), names(&["1"])));
    }
    let mut code =
        DistLineCode::new("lc".to_string(), vec![bits(&[0.5e-3])], vec![bits(&[0.25e-3])]);
    code.b_from = vec![bits(&[1e-9])];
    code.b_to = vec![bits(&[1e-9])];
    net.linecodes.push(code);
    net.lines.push(DistLine::new(
        "l".to_string(),
        "a".to_string(),
        "b".to_string(),
        names(&["1"]),
        names(&["1"]),
        "lc".to_string(),
        2e16f64.to_bits(),
    ));
    let first = write_ravens_json(&math(), &net).text;
    assert!(first.contains("2e-9") && first.contains("2e+16"), "{first}");
    let back = returned(&net);
    assert_eq!(f(back.lines[0].length), 2e16);
    assert_eq!(f(back.linecodes[0].b_from[0][0]), 1e-9);
    assert_eq!(write_ravens_json(&math(), &back).text, first);
}

#[test]
fn limits_places_and_models_are_written_the_same_twice() {
    let mut net = DistNetwork::new();
    for id in ["n10", "n9"] {
        let mut bus = DistBus::new(id.to_string(), names(&["1", "2", "3", "4"]));
        bus.v_min = Some(216.0f64.to_bits());
        bus.v_max = Some(264.0f64.to_bits());
        bus.location =
            Some(Location { x: 1.5f64.to_bits(), y: (-2.25f64).to_bits(), kind: None });
        net.buses.push(bus);
    }
    let z = |v: f64| vec![bits(&[v, 0.25]), bits(&[0.25, v])];
    let mut code = DistLineCode::new("lc".to_string(), z(0.5), z(1.5));
    code.i_max = Some(bits(&[400.0, 400.0]));
    net.linecodes.push(code);
    net.lines.push(DistLine::new(
        "l".to_string(),
        "n10".to_string(),
        "n9".to_string(),
        names(&["1", "2"]),
        names(&["1", "2"]),
        "lc".to_string(),
        12.5f64.to_bits(),
    ));
    let mut switch = DistSwitch::new(
        "s".to_string(),
        "n10".to_string(),
        "n9".to_string(),
        names(&["1", "2"]),
        names(&["1", "2"]),
        false,
    );
    switch.i_max = Some(bits(&[250.0, 250.0]));
    net.switches.push(switch);
    net.loads.push(DistLoad::new(
        "delta".to_string(),
        "n9".to_string(),
        names(&["1", "2"]),
        Configuration::Delta,
        bits(&[1000.0]),
        bits(&[250.0]),
    ));
    let mut load = DistLoad::new(
        "e".to_string(),
        "n9".to_string(),
        names(&["1", "2", "4"]),
        Configuration::Wye,
        bits(&[100.0, 200.0]),
        bits(&[25.0, 50.0]),
    );
    load.voltage_model = DistLoadVoltageModel::Exponential {
        v_nom: vec![],
        gamma_p: bits(&[0.75]),
        gamma_q: bits(&[1.5]),
    };
    net.loads.push(load);
    net.shunts.push(DistShunt::new(
        "c".to_string(),
        "n9".to_string(),
        names(&["1", "2"]),
        vec![bits(&[0.0, 0.0]), bits(&[0.0, 0.0])],
        vec![bits(&[0.001, 0.0]), bits(&[0.0, 0.001])],
    ));
    net.ibrs.push(DistIbr::new(
        "pv".to_string(),
        "n9".to_string(),
        names(&["1", "2", "3"]),
        IbrTopology::ThreeLeg,
        IbrPrimeMover::Pv,
        bits(&[1000.0, 1000.0, 1000.0]),
    ));
    let mut source = VoltageSource::new(
        "v".to_string(),
        "n10".to_string(),
        names(&["1", "2", "3", "4"]),
        bits(&[240.0, 240.0, 240.0, 0.0]),
        bits(&[0.5, 0.0, 0.0, 0.0]),
    );
    source.extras.put("basekv".to_string(), Json::float(&math(), 0.48f64.to_bits()));
    net.sources.push(source);
    let first = write_ravens_json(&math(), &net).text;
    assert!(first.contains("CurrentLimit") && first.contains("VoltageLimit"));
    assert!(first.contains("PositionPoint") && first.contains("pVoltageExponent"));
    assert_eq!(write_ravens_json(&math(), &returned(&net)).text, first);
}

#[test]
fn transformers_and_schedules_are_written_the_same_twice() {
    let mut net = DistNetwork::new();
    for id in ["a", "b"] {
        net.buses.push(DistBus::new(id.to_string(), names(&["1", "2", "3", "4"])));
    }
    let winding = |bus: &str, map: &[&str], conn: WindingConn, v: f64| {
        Winding::new(bus.to_string(), names(map), conn, v.to_bits(), 50_000.0f64.to_bits())
    };
    let mut low = winding("b", &["1", "2", "3", "4"], WindingConn::Wye, 480.0);
    low.r_neutral = Some(5.0f64.to_bits());
    low.x_neutral = Some(0.25f64.to_bits());
    let mut t = DistTransformer::new(
        "t".to_string(),
        vec![winding("a", &["1", "2", "3"], WindingConn::Delta, 4160.0), low],
        bits(&[4.0]),
        3,
    );
    t.extras.put("%imag".to_string(), Json::float(&math(), 0.5f64.to_bits()));
    t.extras.put("%noloadloss".to_string(), Json::float(&math(), 0.25f64.to_bits()));
    net.transformers.push(t);
    let mut load = DistLoad::new(
        "d".to_string(),
        "b".to_string(),
        names(&["1", "4"]),
        Configuration::SinglePhase,
        bits(&[1000.0]),
        bits(&[250.0]),
    );
    load.extras.put("daily".to_string(), Json::text("morning"));
    load.extras.put("yearly".to_string(), Json::text("winter"));
    load.extras.put("spectrum".to_string(), Json::text("low"));
    net.loads.push(load);
    // Two objects that no typed mapping reads, out of key order.
    for (class, name, path) in [
        ("RegularTimePoint", "p", "Curves/Points"),
        ("EnergyConsumerSchedule", "morning", "BasicIntervalSchedule/EnergyConsumerSchedule"),
    ] {
        let json = format!("{{\"Ravens.cimObjectType\":\"{class}\",\"step\":7}}");
        net.untyped.push(UntypedObject::new(
            class.to_string(),
            name.to_string(),
            vec![
                Prop { key: Some("ravens_path".to_string()), value: path.to_string() },
                Prop { key: Some("ravens_json".to_string()), value: json },
            ],
        ));
    }
    let first = write_ravens_json(&math(), &net).text;
    assert!(first.contains("EnergyConsumer.LoadProfile") && first.contains("NoLoadTest"));
    let back = returned(&net);
    assert_eq!(back.untyped.len(), 2);
    assert_eq!(back.untyped[0].name, "morning");
    assert_eq!(back.loads[0].extras.get("yearly").and_then(|v| v.as_str()).unwrap(), "winter");
    assert_eq!(write_ravens_json(&math(), &back).text, first);
}

#[test]
fn bases_do_not_depend_on_the_order_of_elements() {
    let network = |turned: bool| {
        let mut net = DistNetwork::new();
        for id in ["a", "b", "c"] {
            net.buses.push(DistBus::new(id.to_string(), names(&["1", "4"])));
        }
        let mut lines = vec![("l1", "a", "b"), ("l2", "b", "c")];
        if turned {
            lines.reverse();
        }
        for (name, from, to) in lines {
            net.lines.push(DistLine::new(
                name.to_string(),
                from.to_string(),
                to.to_string(),
                names(&["1"]),
                names(&["1"]),
                "lc".to_string(),
                1.0f64.to_bits(),
            ));
        }
        let mut source = VoltageSource::new(
            "v".to_string(),
            "a".to_string(),
            names(&["1", "4"]),
            bits(&[240.0, 0.0]),
            bits(&[0.0, 0.0]),
        );
        source.extras.put("basekv".to_string(), Json::float(&math(), 0.24f64.to_bits()));
        net.sources.push(source);
        bus_bases(&math(), &net)
    };
    let bases = network(false);
    assert_eq!(bases.len(), 3);
    assert!(bases.iter().all(|b| f(b.1) == 240.0));
    assert_eq!(bases, network(true));
}
