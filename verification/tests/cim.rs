//! Distribution CIM: a feeder small enough to check by hand, the writer against
//! the reader, and the XML beneath.

use powerio_dist::cim::phase::expand_phase_code;
use powerio_dist::cim::read::{
    looks_like_cim, parse_cim_set, parse_cim_str, sequence_to_phase, z_base,
};
use powerio_dist::cim::store::{CimDocument, PropValue};
use powerio_dist::cim::write::{det_mrid, esc, phase_code, write_cim_xml};
use powerio_dist::cim::xml::{decode, parse_cimxml};
use powerio_dist::error::Error;
use powerio_dist::math::{Calc, Math, Op};
use powerio_dist::model::{
    Configuration, DistBus, DistGenerator, DistLine, DistLineCode, DistLoad, DistNetwork,
    DistShunt, DistSourceFormat, DistSwitch, DistTransformer, Location, VoltageSource, Winding,
    WindingConn,
};

fn apply(op: Op, a: u64, b: u64) -> u64 {
    let x = f64::from_bits(a);
    let y = f64::from_bits(b);
    match op {
        Op::Add => (x + y).to_bits(),
        Op::Sub => (x - y).to_bits(),
        Op::Mul => (x * y).to_bits(),
        Op::Div => (x / y).to_bits(),
        Op::Max => x.max(y).to_bits(),
        Op::Sqrt => x.sqrt().to_bits(),
        Op::Sin => x.sin().to_bits(),
        Op::RemEuclid => x.rem_euclid(y).to_bits(),
        Op::Radians => x.to_radians().to_bits(),
        Op::Degrees => x.to_degrees().to_bits(),
        Op::FromInt => (a as f64).to_bits(),
        Op::Trunc => x as u64,
        Op::Round => (x.round() as i64) as u64,
    }
}

fn math() -> impl Calc {
    Math::new(
        |s: &str| s.parse::<f64>().ok().map(f64::to_bits),
        apply,
        |a: u64| format!("{}", f64::from_bits(a)),
    )
}

fn f(bits: u64) -> f64 {
    f64::from_bits(bits)
}

fn all(bits: &[u64]) -> Vec<f64> {
    bits.iter().map(|b| f64::from_bits(*b)).collect()
}

fn close(a: f64, b: f64) -> bool {
    (a - b).abs() <= 1e-9 * a.abs().max(b.abs()).max(1.0)
}

fn object(class: &str, id: &str, props: &str) -> String {
    format!("<cim:{class} rdf:ID=\"_{id}\">\n{props}</cim:{class}>\n")
}

fn text(key: &str, value: &str) -> String {
    format!("  <cim:{key}>{value}</cim:{key}>\n")
}

fn name(value: &str) -> String {
    text("IdentifiedObject.name", value)
}

fn link(key: &str, target: &str) -> String {
    format!("  <cim:{key} rdf:resource=\"#_{target}\"/>\n")
}

fn kind(key: &str, value: &str) -> String {
    format!("  <cim:{key} rdf:resource=\"http://iec.ch/TC57/CIM100#{value}\"/>\n")
}

fn terminal(id: &str, equipment: &str, node: &str, sequence: usize) -> String {
    object(
        "Terminal",
        id,
        &(link("Terminal.ConductingEquipment", equipment)
            + &link("Terminal.ConnectivityNode", node)
            + &text("ACDCTerminal.sequenceNumber", &sequence.to_string())),
    )
}

fn document(body: &str) -> String {
    format!(
        "<?xml version=\"1.0\" encoding=\"UTF-8\"?>\n<!-- a feeder with < in a remark -->\n\
         <rdf:RDF xmlns:rdf=\"http://www.w3.org/1999/02/22-rdf-syntax-ns#\" \
         xmlns:cim='http://iec.ch/TC57/CIM100#'>\n{body}</rdf:RDF>\n"
    )
}

fn micro_feeder() -> String {
    let mut b = String::new();
    b += &object(
        "BaseFrequency",
        "f",
        &text("BaseFrequency.frequency", "60"),
    );
    for n in ["sourcebus", "n2", "n3", "n4"] {
        b += &object("ConnectivityNode", n, &name(n));
    }
    b += &object(
        "ACLineSegment",
        "line1",
        &(name("line1")
            + &text("Conductor.length", "100")
            + &link("ACLineSegment.PerLengthImpedance", "pli")),
    );
    b += &terminal("line1t1", "line1", "sourcebus", 1);
    b += &terminal("line1t2", "line1", "n2", 2);
    for p in ["C", "A", "B"] {
        b += &object(
            "ACLineSegmentPhase",
            &format!("line1{p}"),
            &(link("ACLineSegmentPhase.ACLineSegment", "line1")
                + &kind("ACLineSegmentPhase.phase", &format!("SinglePhaseKind.{p}"))),
        );
    }
    b += &object(
        "PerLengthPhaseImpedance",
        "pli",
        &(name("code1") + &text("PerLengthPhaseImpedance.conductorCount", "3")),
    );
    for i in 1..=3 {
        for j in 1..=i {
            let (r, x, s) = if i == j {
                ("0.001", "0.002", "1e-8")
            } else {
                ("0.0004", "0.0008", "0")
            };
            b += &object(
                "PhaseImpedanceData",
                &format!("d{i}{j}"),
                &(link("PhaseImpedanceData.PerLengthPhaseImpedance", "pli")
                    + &text("PhaseImpedanceData.row", &i.to_string())
                    + &text("PhaseImpedanceData.column", &j.to_string())
                    + &text("PhaseImpedanceData.r", r)
                    + &text("PhaseImpedanceData.x", x)
                    + &text("PhaseImpedanceData.b", s)),
            );
        }
    }
    b += &object(
        "EnergyConsumer",
        "load1",
        &(name("load1") + &kind("EnergyConsumer.phaseConnection", "PhaseShuntConnectionKind.Y")),
    );
    b += &terminal("load1t", "load1", "n2", 1);
    for p in ["A", "B", "C"] {
        b += &object(
            "EnergyConsumerPhase",
            &format!("load1{p}"),
            &(link("EnergyConsumerPhase.EnergyConsumer", "load1")
                + &kind("EnergyConsumerPhase.phase", &format!("SinglePhaseKind.{p}"))
                + &text("EnergyConsumerPhase.p", "1000")
                + &text("EnergyConsumerPhase.q", "500")),
        );
    }
    b += &object(
        "LinearShuntCompensator",
        "cap1",
        &(name("cap1") + &text("LinearShuntCompensator.bPerSection", "0.0001")),
    );
    b += &terminal("cap1t", "cap1", "n2", 1);
    b += &object(
        "LoadBreakSwitch",
        "sw1",
        &(name("sw1") + &text("Switch.open", "false")),
    );
    b += &terminal("sw1t1", "sw1", "n2", 1);
    b += &terminal("sw1t2", "sw1", "n3", 2);
    b += &object("PowerTransformer", "xfm1", &name("xfm1"));
    b += &terminal("xfm1t1", "xfm1", "n3", 1);
    b += &terminal("xfm1t2", "xfm1", "n4", 2);
    for (i, conn, u, r, x) in [(1, "D", "4160", "0.5", "2.0"), (2, "Yn", "480", "0", "0")] {
        b += &object(
            "PowerTransformerEnd",
            &format!("end{i}"),
            &(link("PowerTransformerEnd.PowerTransformer", "xfm1")
                + &link("TransformerEnd.Terminal", &format!("xfm1t{i}"))
                + &text("TransformerEnd.endNumber", &i.to_string())
                + &kind(
                    "PowerTransformerEnd.connectionKind",
                    &format!("WindingConnection.{conn}"),
                )
                + &text("PowerTransformerEnd.ratedU", u)
                + &text("PowerTransformerEnd.ratedS", "500000")
                + &text("PowerTransformerEnd.r", r)
                + &text("PowerTransformerEnd.x", x)),
        );
    }
    b += &object(
        "EnergySource",
        "src",
        &(name("source") + &text("EnergySource.nominalVoltage", "4160")),
    );
    b += &terminal("srct", "src", "sourcebus", 1);
    document(&b)
}

#[test]
fn phase_codes_expand_to_terminal_names() {
    assert_eq!(expand_phase_code("ABC"), ["1", "2", "3"]);
    assert_eq!(expand_phase_code("ABCN"), ["1", "2", "3", "4"]);
    assert_eq!(expand_phase_code("AB"), ["1", "2"]);
    assert_eq!(expand_phase_code("s1s2"), ["1", "2"]);
    assert_eq!(expand_phase_code("s12"), ["1", "2"]);
    assert_eq!(expand_phase_code("C"), ["3"]);
}

#[test]
fn sequence_expands_to_a_symmetric_phase_matrix() {
    let m = sequence_to_phase(&math(), 6.0f64.to_bits(), 3.0f64.to_bits(), 3);
    // self = (6 + 6)/3 = 4, mutual = (6 - 3)/3 = 1.
    assert_eq!(f(m[0][0]), 4.0);
    assert_eq!(f(m[0][1]), 1.0);
    assert_eq!(f(m[1][0]), 1.0);
}

#[test]
fn micro_feeder_maps_exactly() {
    let net = parse_cim_str(&math(), &micro_feeder()).unwrap();
    assert_eq!(net.source_format, Some(DistSourceFormat::Cim));
    assert_eq!(f(net.base_frequency), 60.0);

    // Four connectivity nodes are four buses; the node of the wye secondary
    // carries a grounded neutral terminal.
    assert_eq!(net.buses.len(), 4);
    let n4 = net.bus("n4").expect("n4 present");
    assert!(n4.terminals.contains(&"4".to_string()));
    assert_eq!(n4.grounded, vec!["4".to_string()]);

    assert_eq!(net.lines.len(), 1);
    let line = &net.lines[0];
    assert_eq!(line.bus_from, "sourcebus");
    assert_eq!(line.bus_to, "n2");
    assert_eq!(line.terminal_map_from, ["1", "2", "3"]);
    assert!(close(f(line.length), 100.0));
    let lc = net.linecode(&line.linecode).expect("linecode present");
    assert_eq!(lc.n_conductors, 3);
    assert!(close(f(lc.r_series[0][0]), 0.001), "self r/m");
    assert!(close(f(lc.r_series[1][0]), 0.0004), "mutual r/m");
    assert!(close(f(lc.x_series[0][0]), 0.002));
    // Shunt susceptance halves at each end.
    assert!(close(f(lc.b_from[0][0]), 0.5e-8));
    assert!(close(f(lc.b_to[0][0]), 0.5e-8));

    assert_eq!(net.loads.len(), 1);
    let load = &net.loads[0];
    assert_eq!(load.bus, "n2");
    assert_eq!(load.configuration, Configuration::Wye);
    assert_eq!(all(&load.p_nom), vec![1000.0, 1000.0, 1000.0]);
    assert_eq!(all(&load.q_nom), vec![500.0, 500.0, 500.0]);

    assert_eq!(net.shunts.len(), 1);
    assert!(close(f(net.shunts[0].b[0][0]), 0.0001));
    assert!(close(f(net.shunts[0].b[1][1]), 0.0001));
    assert!(close(f(net.shunts[0].b[0][1]), 0.0));

    assert_eq!(net.switches.len(), 1);
    assert!(!net.switches[0].open);
    assert_eq!(net.switches[0].bus_from, "n2");
    assert_eq!(net.switches[0].bus_to, "n3");

    assert_eq!(net.transformers.len(), 1);
    let xf = &net.transformers[0];
    assert_eq!(xf.windings.len(), 2);
    assert_eq!(xf.windings[0].conn, WindingConn::Delta);
    assert_eq!(xf.windings[1].conn, WindingConn::Wye);
    assert!(close(f(xf.windings[0].v_ref), 4160.0));
    assert!(close(f(xf.windings[1].v_ref), 480.0));
    let z_base = 4160.0_f64.powi(2) / 500_000.0;
    assert!(close(f(xf.windings[0].r_pct), 0.5 / z_base * 100.0), "r_pct");
    assert!(close(f(xf.xsc_pct[0]), 2.0 / z_base * 100.0), "xsc_pct");

    // Source: line-to-neutral magnitude, a third of a turn apart.
    assert_eq!(net.sources.len(), 1);
    let src = &net.sources[0];
    assert_eq!(src.bus, "sourcebus");
    assert!(close(f(src.v_magnitude[0]), 4160.0 / 3.0_f64.sqrt()));
    assert!(close(f(src.v_angle[1]), -2.0 * std::f64::consts::PI / 3.0));
}

#[test]
fn cim_writer_round_trips() {
    let net = parse_cim_str(&math(), &micro_feeder()).unwrap();
    let first = write_cim_xml(&math(), &net);
    let back = parse_cim_str(&math(), &first.text).unwrap();

    assert_eq!(back.buses.len(), net.buses.len());
    assert_eq!(back.lines.len(), net.lines.len());
    assert_eq!(back.loads.len(), net.loads.len());
    assert_eq!(back.shunts.len(), net.shunts.len());
    assert_eq!(back.switches.len(), net.switches.len());
    assert_eq!(back.transformers.len(), net.transformers.len());
    assert_eq!(back.sources.len(), net.sources.len());

    let lc_a = net.linecode(&net.lines[0].linecode).unwrap();
    let lc_b = back.linecode(&back.lines[0].linecode).unwrap();
    for i in 0..lc_a.n_conductors {
        for j in 0..lc_a.n_conductors {
            assert!(close(f(lc_a.r_series[i][j]), f(lc_b.r_series[i][j])), "r {i}{j}");
            assert!(close(f(lc_a.x_series[i][j]), f(lc_b.x_series[i][j])), "x {i}{j}");
            assert!(
                close(
                    f(lc_a.b_from[i][j]) + f(lc_a.b_to[i][j]),
                    f(lc_b.b_from[i][j]) + f(lc_b.b_to[i][j])
                ),
                "b {i}{j}"
            );
        }
    }
    assert_eq!(back.loads[0].p_nom, net.loads[0].p_nom);
    assert_eq!(back.loads[0].configuration, net.loads[0].configuration);
    assert!(close(f(back.shunts[0].b[0][0]), f(net.shunts[0].b[0][0])));
    let (a, b) = (&net.transformers[0], &back.transformers[0]);
    assert_eq!(a.windings[0].conn, b.windings[0].conn);
    assert!(close(f(a.windings[0].v_ref), f(b.windings[0].v_ref)));
    assert!(
        close(f(a.windings[0].r_pct), f(b.windings[0].r_pct)),
        "r_pct {} vs {}",
        f(a.windings[0].r_pct),
        f(b.windings[0].r_pct)
    );
    assert!(
        close(f(a.xsc_pct[0]), f(b.xsc_pct[0])),
        "xsc {} vs {}",
        f(a.xsc_pct[0]),
        f(b.xsc_pct[0])
    );
    assert!(close(
        f(net.sources[0].v_magnitude[0]),
        f(back.sources[0].v_magnitude[0])
    ));

    // The identifiers come back, so a second writing is the same text.
    let second = write_cim_xml(&math(), &back);
    assert_eq!(first.text, second.text);

    // One document keeps the text it was read from.
    assert_eq!(back.source.as_ref().unwrap().as_str(), first.text);
}

#[test]
fn a_written_name_reads_back() {
    let mut net = DistNetwork::new();
    let odd = "a & b <c> \"d\"";
    net.buses.push(DistBus::new(odd.to_string(), vec!["1".to_string()]));
    let text = write_cim_xml(&math(), &net).text;
    assert!(text.contains("a &amp; b &lt;c&gt; \"d\""));
    let back = parse_cim_str(&math(), &text).unwrap();
    assert_eq!(back.buses[0].id, odd);
    assert_eq!(write_cim_xml(&math(), &back).text, text);
}

#[test]
fn switches_and_own_impedances_read_back() {
    let mut net = DistNetwork::new();
    for id in ["a", "b"] {
        net.buses.push(DistBus::new(
            id.to_string(),
            vec!["1".to_string(), "2".to_string(), "3".to_string()],
        ));
    }
    let map = || vec!["2".to_string(), "3".to_string()];
    net.switches.push(DistSwitch::new(
        "s".to_string(),
        "a".to_string(),
        "b".to_string(),
        map(),
        map(),
        true,
    ));
    let z = |on: f64, off: f64| {
        vec![
            vec![on.to_bits(), off.to_bits()],
            vec![off.to_bits(), on.to_bits()],
        ]
    };
    net.linecodes
        .push(DistLineCode::new("lc".to_string(), z(0.5, 0.25), z(1.5, 0.75)));
    net.lines.push(DistLine::new(
        "l".to_string(),
        "a".to_string(),
        "b".to_string(),
        map(),
        map(),
        "lc".to_string(),
        12.5f64.to_bits(),
    ));
    let text = write_cim_xml(&math(), &net).text;
    let back = parse_cim_str(&math(), &text).unwrap();
    assert_eq!(back.switches[0].name, "s");
    assert!(back.switches[0].open);
    assert_eq!(back.switches[0].terminal_map_from, ["2", "3"]);
    assert_eq!(back.lines[0].terminal_map_from, ["2", "3"]);
    assert_eq!(back.lines[0].terminal_map_to, ["2", "3"]);
    assert_eq!(f(back.lines[0].length), 12.5);
    let lc = back.linecode(&back.lines[0].linecode).unwrap();
    assert_eq!(all(&lc.r_series[1]), [0.25, 0.5]);
    assert_eq!(all(&lc.x_series[0]), [1.5, 0.75]);
}

#[test]
fn what_the_profile_cannot_carry_is_warned_of() {
    let mut net = DistNetwork::new();
    net.generators.push(DistGenerator::new(
        "g".to_string(),
        "a".to_string(),
        vec!["1".to_string()],
        Configuration::Wye,
        vec![0],
        vec![0],
    ));
    let out = write_cim_xml(&math(), &net);
    assert!(out.warnings.iter().any(|w| w.contains("generator")));
}

#[test]
fn codes_identifiers_and_bases() {
    let map = |v: &[&str]| v.iter().map(|s| s.to_string()).collect::<Vec<String>>();
    assert_eq!(phase_code(&map(&["1", "2", "3", "4"])), "ABCN");
    assert_eq!(phase_code(&map(&["3"])), "C");
    assert_eq!(phase_code(&map(&["x"])), "ABC");
    for m in [vec!["1", "2"], vec!["1", "3", "4"], vec!["2"]] {
        assert_eq!(expand_phase_code(&phase_code(&map(&m))), m);
    }
    let id = det_mrid("node", "n1");
    assert_eq!(id, det_mrid("node", "n1"));
    assert_ne!(id, det_mrid("node", "n2"));
    assert_eq!(id.len(), 36);
    let z = z_base(&math(), 4160.0f64.to_bits(), 500_000.0f64.to_bits()).unwrap();
    assert_eq!(f(z), 4160.0 * 4160.0 / 500_000.0);
    assert!(z_base(&math(), 4160.0f64.to_bits(), 0).is_none());
}

#[test]
fn entities_stand_for_characters() {
    assert_eq!(decode("a &lt;&#65;&#x3b1;&apos; b").unwrap(), "a <A\u{3b1}' b");
    assert_eq!(decode(&esc("x < y && z > \"w\"")).unwrap(), "x < y && z > \"w\"");
    assert!(decode("&nbsp;").is_none());
    assert!(decode("&#xd800;").is_none());
    assert!(decode("&amp").is_none());
}

#[test]
fn xml_documents_give_objects() {
    let text = document(
        "<md:FullModel rdf:about=\"urn:uuid:1\"><md:Model.description>a &amp; b\
         </md:Model.description></md:FullModel>\n\
         <cim:Thing rdf:about='#_x'><cim:T.a>1<!-- no --></cim:T.a>\
         <cim:T.b rdf:resource=\"urn:uuid:y\"/><cim:T.c><![CDATA[<&>]]></cim:T.c>\
         <cim:T.d/></cim:Thing>",
    );
    let doc = parse_cimxml(&text).unwrap();
    assert_eq!(doc.description.as_deref(), Some("a & b"));
    assert_eq!(doc.cim_namespace.as_deref(), Some("http://iec.ch/TC57/CIM100#"));
    assert_eq!(doc.objects.len(), 1);
    let o = &doc.objects[0];
    assert_eq!(o.class, "Thing");
    assert_eq!(o.id, "x");
    assert_eq!(o.props.len(), 4);
    assert!(matches!(&o.props[0].1, PropValue::Text(s) if s == "1"));
    assert!(matches!(&o.props[1].1, PropValue::Ref(s) if s == "y"));
    assert!(matches!(&o.props[2].1, PropValue::Text(s) if s == "<&>"));
    assert!(matches!(&o.props[3].1, PropValue::Text(s) if s.is_empty()));
}

fn refused(text: &str) -> String {
    match parse_cim_str(&math(), text) {
        Err(e) => {
            assert!(matches!(&e, Error::Xml { .. }));
            e.to_text()
        }
        Ok(_) => panic!("accepted: {text}"),
    }
}

#[test]
fn malformed_documents_are_refused() {
    assert!(refused("").contains("ends before its root"));
    assert!(refused("<html></html>").contains("not `rdf:RDF`"));
    assert!(refused("<rdf:RDF>").contains("ends before"));
    assert!(refused("<rdf:RDF></rdf:rdf>").contains("closes `rdf:RDF`"));
    assert!(refused("</a>").contains("closes nothing"));
    assert!(refused("<rdf:RDF").contains("without an end"));
    assert!(refused("<rdf:RDF x></rdf:RDF>").contains("not well formed"));
    assert!(refused("<rdf:RDF></rdf:RDF><b/>").contains("follows the root"));
    assert!(refused("<!DOCTYPE a [ x ]><rdf:RDF/>").contains("declaration"));
    assert!(refused("<rdf:RDF><a><b>&zz;</b></a></rdf:RDF>").contains("no character"));
    assert!(refused("<rdf:RDF></rdf:RDF>").contains("no CIM namespace"));
    assert!(refused(&document("")).contains("no ConnectivityNode records"));
}

#[test]
fn files_of_one_case_are_read_together() {
    let node = |id: &str| object("ConnectivityNode", id, &name(id));
    let a = document(&node("a"));
    let b = document(&node("b"));
    let docs = |texts: &[&String]| {
        texts
            .iter()
            .map(|t| parse_cimxml(t).unwrap())
            .collect::<Vec<CimDocument>>()
    };
    let both = parse_cim_set(&math(), &docs(&[&a, &b]), Some(&a), Some("case")).unwrap();
    assert_eq!(both.buses.len(), 2);
    assert_eq!(both.name.as_deref(), Some("case"));
    assert!(both.source.is_none());
    let one = parse_cim_set(&math(), &docs(&[&a]), Some(&a), None).unwrap();
    assert_eq!(one.source.as_ref().unwrap().as_str(), a);
    match parse_cim_set(&math(), &docs(&[]), None, None) {
        Err(e) => assert!(e.to_text().contains("no .xml instance files")),
        Ok(_) => panic!("accepted"),
    }
}

#[test]
fn a_cim_document_is_told_by_its_start() {
    assert!(looks_like_cim(&micro_feeder()));
    assert!(!looks_like_cim("<rdf:RDF xmlns:rdf=\"rdf-syntax\">ConnectivityNode"));
    let late = " ".repeat(8192) + &micro_feeder();
    assert!(!looks_like_cim(&late));
}

#[test]
fn elements_come_back_on_their_wires() {
    let words = |v: &[&str]| v.iter().map(|s| s.to_string()).collect::<Vec<String>>();
    let bits = |v: &[f64]| v.iter().map(|x| x.to_bits()).collect::<Vec<u64>>();
    let mut net = DistNetwork::new();
    net.base_frequency = 50.0f64.to_bits();
    for id in ["A", "b"] {
        net.buses.push(DistBus::new(id.to_string(), words(&["1", "2", "3", "4"])));
    }
    let one = |v: f64| vec![bits(&[v, 0.0]), bits(&[0.125, v])];
    net.linecodes.push(DistLineCode::new("lc".to_string(), one(0.5), one(0.75)));
    // A line is on the phases of its first side, at the bus as the bus is named.
    net.lines.push(DistLine::new(
        "l".to_string(),
        "a".to_string(),
        "b".to_string(),
        words(&["1", "3", "4"]),
        words(&["1", "3", "4"]),
        "LC".to_string(),
        0.3f64.to_bits(),
    ));
    net.loads.push(DistLoad::new(
        "d".to_string(),
        "b".to_string(),
        words(&["1", "3"]),
        Configuration::Delta,
        bits(&[0.1, 0.2]),
        bits(&[0.3, -0.4]),
    ));
    net.shunts.push(DistShunt::new(
        "c".to_string(),
        "b".to_string(),
        words(&["2"]),
        vec![bits(&[1e-6])],
        vec![bits(&[2e-5])],
    ));
    net.sources.push(VoltageSource::new(
        "s".to_string(),
        "A".to_string(),
        words(&["1", "2", "3", "4"]),
        bits(&[240.0, 240.0, 240.0]),
        bits(&[0.5, 0.0, 0.0]),
    ));
    let text = write_cim_xml(&math(), &net).text;
    let back = parse_cim_str(&math(), &text).unwrap();
    assert_eq!(f(back.base_frequency), 50.0);
    assert_eq!(back.warnings, Vec::<String>::new());
    let line = &back.lines[0];
    assert_eq!((line.bus_from.as_str(), line.bus_to.as_str()), ("A", "b"));
    assert_eq!(line.terminal_map_from, ["1", "3"]);
    assert_eq!(line.linecode, "lc");
    assert_eq!(f(line.length), 0.3);
    assert_eq!(all(&back.linecodes[0].r_series[0]), [0.5, 0.125]);
    let load = &back.loads[0];
    assert_eq!(load.configuration, Configuration::Delta);
    assert_eq!(load.terminal_map, ["1", "3"]);
    assert_eq!(all(&load.p_nom), [0.1, 0.2]);
    assert_eq!(all(&load.q_nom), [0.3, -0.4]);
    assert_eq!(back.shunts[0].terminal_map, ["2"]);
    assert_eq!(all(&back.shunts[0].g[0]), [1e-6]);
    assert_eq!(all(&back.shunts[0].b[0]), [2e-5]);
    let source = &back.sources[0];
    assert_eq!(source.bus, "A");
    assert_eq!(source.terminal_map, ["1", "2", "3", "4"]);
    assert!(close(f(source.v_magnitude[0]), 240.0));
    assert_eq!(f(source.v_angle[0]), 0.5);
    assert_eq!(back.buses[1].terminals, ["1", "2", "3"]);
}

#[test]
fn phase_codes_expand_in_terminal_order() {
    assert_eq!(expand_phase_code("BA"), ["1", "2"]);
    assert_eq!(expand_phase_code("NCA"), ["1", "3", "4"]);
}

#[test]
fn every_loss_of_a_written_network_is_warned_of() {
    let words = |v: &[&str]| v.iter().map(|s| s.to_string()).collect::<Vec<String>>();
    let mut net = DistNetwork::new();
    net.name = Some("grid".to_string());
    for id in ["a", "b"] {
        net.buses.push(DistBus::new(id.to_string(), words(&["1"])));
    }
    net.buses[0].v_min = Some(0.9f64.to_bits());
    net.buses[1].location = Some(Location { x: 0, y: 0, kind: None });
    let mut s = DistSwitch::new(
        "s".to_string(),
        "a".to_string(),
        "b".to_string(),
        words(&["1"]),
        words(&["1"]),
        false,
    );
    s.i_max = Some(vec![400.0f64.to_bits()]);
    net.switches.push(s);
    let mut lop = DistLineCode::new(
        "lop".to_string(),
        vec![vec![0, 1.0f64.to_bits()], vec![0, 0]],
        vec![vec![0, 0], vec![0, 0]],
    );
    lop.b_from = vec![vec![1.0f64.to_bits(), 0], vec![0, 0]];
    net.linecodes.push(lop);
    let out = write_cim_xml(&math(), &net);
    let said = |w: &str| assert!(out.warnings.iter().any(|x| x == w), "{w}: {:?}", out.warnings);
    said("network grid: its name has no distribution CIM slot; dropped");
    said("bus a: voltage bounds have no distribution CIM slot; dropped");
    said("bus b: its position has no distribution CIM slot; dropped");
    said("switch s: its rating is not written (no OperationalLimit mapping yet)");
    said("linecode lop: its series matrix is not symmetric; the lower triangle is written");
    said("linecode lop: the shunt susceptances of its ends differ; their sum is written");
}

#[test]
fn a_mesh_impedance_is_that_of_its_own_ends() {
    let mesh = |id: &str, from: &str, to: &str, x: &str| {
        object(
            "TransformerMeshImpedance",
            id,
            &(link("TransformerMeshImpedance.FromTransformerEnd", from)
                + &link("TransformerMeshImpedance.ToTransformerEnd", to)
                + &text("TransformerMeshImpedance.x", x)),
        )
    };
    let z = 4160.0_f64.powi(2) / 500_000.0;
    let read = |own: &str| {
        let more = mesh("m1", "other1", "other2", "7") + own;
        let doc = micro_feeder().replace("</rdf:RDF>", &(more + "</rdf:RDF>"));
        parse_cim_str(&math(), &doc).unwrap()
    };
    assert!(close(f(read("").transformers[0].xsc_pct[0]), 2.0 / z * 100.0));
    let own = read(&mesh("m2", "end1", "end2", "5"));
    assert!(close(f(own.transformers[0].xsc_pct[0]), 5.0 / z * 100.0));
}

#[test]
fn equipment_without_nodes_is_warned_of() {
    let more = object("LinearShuntCompensator", "cap9", &name("cap9"))
        + &object("LoadBreakSwitch", "sw9", &name("sw9"))
        + &object("EnergySource", "src9", &name("src9"));
    let doc = micro_feeder().replace("</rdf:RDF>", &(more + "</rdf:RDF>"));
    let net = parse_cim_str(&math(), &doc).unwrap();
    for w in [
        "LinearShuntCompensator cap9: no terminal on a connectivity node; skipped",
        "LoadBreakSwitch sw9: needs two terminals on connectivity nodes; skipped",
        "EnergySource src9: no terminal on a connectivity node; skipped",
    ] {
        assert!(net.warnings.iter().any(|x| x == w), "{w}: {:?}", net.warnings);
    }
}

#[test]
fn a_delta_load_of_one_power_comes_back_by_name() {
    let words = |v: &[&str]| v.iter().map(|s| s.to_string()).collect::<Vec<String>>();
    let mut net = DistNetwork::new();
    for id in ["a", "b"] {
        net.buses.push(DistBus::new(id.to_string(), words(&["1", "2", "3"])));
    }
    net.loads.push(DistLoad::new(
        "d".to_string(),
        "b".to_string(),
        words(&["1", "2"]),
        Configuration::Delta,
        vec![1000.0f64.to_bits()],
        vec![0],
    ));
    // A line without a line code and without a length comes back too.
    net.lines.push(DistLine::new(
        "l".to_string(),
        "a".to_string(),
        "b".to_string(),
        words(&["2", "1"]),
        words(&["2", "1"]),
        "none".to_string(),
        0,
    ));
    let back = parse_cim_str(&math(), &write_cim_xml(&math(), &net).text).unwrap();
    assert_eq!(back.loads[0].name, "d");
    assert_eq!(back.loads[0].configuration, Configuration::Delta);
    assert_eq!(back.lines[0].name, "l");
    assert_eq!(back.buses.len(), 2);
}

#[test]
fn a_delta_load_of_one_power_is_written_the_same_twice() {
    let words = |v: &[&str]| v.iter().map(|s| s.to_string()).collect::<Vec<String>>();
    let mut net = DistNetwork::new();
    net.buses.push(DistBus::new("b".to_string(), words(&["1", "2", "3"])));
    net.loads.push(DistLoad::new(
        "d".to_string(),
        "b".to_string(),
        words(&["1", "2"]),
        Configuration::Delta,
        vec![1000.0f64.to_bits()],
        vec![250.0f64.to_bits()],
    ));
    let first = write_cim_xml(&math(), &net).text;
    let back = parse_cim_str(&math(), &first).unwrap();
    assert_eq!(back.loads.len(), 1);
    assert_eq!(write_cim_xml(&math(), &back).text, first);
}

#[test]
fn what_a_bus_a_source_and_a_load_lose_is_told() {
    let words = |v: &[&str]| v.iter().map(|s| s.to_string()).collect::<Vec<String>>();
    let network = |grounded: &[&str], turn: f64| {
        let mut net = DistNetwork::new();
        let mut bus = DistBus::new("b".to_string(), words(&["1", "2", "3", "4"]));
        bus.grounded = words(grounded);
        net.buses.push(bus);
        net.sources.push(VoltageSource::new(
            "v".to_string(),
            "B".to_string(),
            words(&["1", "2", "3"]),
            vec![240.0f64.to_bits(); 3],
            vec![0, (-turn).to_bits(), (-2.0 * turn).to_bits()],
        ));
        net
    };
    let third = 2.0 * std::f64::consts::PI / 3.0;
    let quiet = write_cim_xml(&math(), &network(&["4"], third)).warnings;
    assert!(quiet.is_empty(), "{quiet:?}");
    let mut net = network(&[], 0.5);
    net.buses[0].terminals.push("5".to_string());
    net.loads.push(DistLoad::new(
        "d".to_string(),
        "b".to_string(),
        words(&["1", "4"]),
        Configuration::SinglePhase,
        vec![1000.0f64.to_bits(), 7.0f64.to_bits()],
        vec![0],
    ));
    let told = write_cim_xml(&math(), &net).warnings;
    for w in [
        "bus b: a terminal that no written element is on is not recovered",
        "bus b: its grounding has no distribution CIM slot; a neutral is read as grounded",
        "source v: its angles are not a third of a turn apart; the first is written",
        "load d: it has more powers than phases; the surplus is dropped",
    ] {
        assert!(told.iter().any(|x| x == w), "{w}: {told:?}");
    }
}

#[test]
fn three_windings_leave_the_second_writing_as_the_first() {
    let words = |v: &[&str]| v.iter().map(|s| s.to_string()).collect::<Vec<String>>();
    let mut net = DistNetwork::new();
    for id in ["a", "b", "c"] {
        net.buses.push(DistBus::new(id.to_string(), words(&["1", "2", "3"])));
    }
    let winding = |bus: &str| {
        Winding::new(
            bus.to_string(),
            words(&["1", "2", "3"]),
            WindingConn::Delta,
            480.0f64.to_bits(),
            50_000.0f64.to_bits(),
        )
    };
    net.transformers.push(DistTransformer::new(
        "t".to_string(),
        vec![winding("a"), winding("b"), winding("c")],
        vec![4.0f64.to_bits(); 3],
        3,
    ));
    let first = write_cim_xml(&math(), &net);
    assert!(first.warnings.iter().any(|w| w.starts_with("transformer t")));
    let back = parse_cim_str(&math(), &first.text).unwrap();
    assert!(back.transformers.is_empty());
    assert_eq!(write_cim_xml(&math(), &back).text, first.text);
}
