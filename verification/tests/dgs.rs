//! DIgSILENT DGS: a feeder small enough to check by hand, the ways an export
//! carries impedance, and what is refused.

use powerio_dist::dgs::impedance::seq_pair;
use powerio_dist::dgs::matrix::{complete_symmetry, vector};
use powerio_dist::dgs::read::{decode_dgs_bytes, parse_dgs_bytes, parse_dgs_str};
use powerio_dist::dgs::scan::{parse_num, scan, split_semicolons};
use powerio_dist::dgs::state::{phases_up_to, sanitize};
use powerio_dist::dgs::topology::{parse_phase, UnionFind};
use powerio_dist::error::Error;
use powerio_dist::math::{Calc, Math, Op};
use powerio_dist::model::{Configuration, DistLoadVoltageModel, DistNetwork, WindingConn};

fn apply(op: Op, a: u64, b: u64) -> u64 {
    let x = f64::from_bits(a);
    let y = f64::from_bits(b);
    match op {
        Op::Add => (x + y).to_bits(),
        Op::Sub => (x - y).to_bits(),
        Op::Mul => (x * y).to_bits(),
        Op::Div => (x / y).to_bits(),
        Op::Max => x.max(y).to_bits(),
        Op::Sqrt => x.sqrt().to_bits(),
        Op::Sin => x.sin().to_bits(),
        Op::RemEuclid => x.rem_euclid(y).to_bits(),
        Op::Radians => x.to_radians().to_bits(),
        Op::Degrees => x.to_degrees().to_bits(),
        Op::FromInt => (a as f64).to_bits(),
        Op::Trunc => x as u64,
        Op::Round => (x.round() as i64) as u64,
    }
}

fn math() -> impl Calc {
    Math::new(
        |s: &str| s.parse::<f64>().ok().map(f64::to_bits),
        apply,
        |a: u64| format!("{}", f64::from_bits(a)),
    )
}

fn f(bits: u64) -> f64 {
    f64::from_bits(bits)
}

fn approx(a: u64, b: f64, tol: f64, what: &str) {
    let a = f(a);
    assert!((a - b).abs() <= tol, "{what}: {a} vs {b}");
}

fn has_warning(net: &DistNetwork, needle: &str) {
    assert!(
        net.warnings.iter().any(|w| w.contains(needle)),
        "missing warning `{needle}` in {:?}",
        net.warnings
    );
}

const GENERAL: &str = "$$General;FID(a:40);OP(a:1);Descr(a:40);Val(a:40)\n\
    G1;C;Version;7.0\n";

const FEEDER: &str = "\
* a feeder of three buses\r\n\
$$General;FID(a:40);OP(a:1);Descr(a:40);Val(a:40)\r\n\
G1;C;Version;7.0\r\n\
$$ElmNet;FID(a:40);OP(a:1);loc_name(a:40);frnom(r)\r\n\
N1;C;Grid;50\r\n\
$$ElmTerm;FID(a:40);OP(a:1);loc_name(a:40);fold_id(p);uknom(r)\r\n\
T1;C;Src;N1;20\r\n\
T2;C;Mid;N1;20\r\n\
T3;C;MidB;N1;20\r\n\
T4;C;Lv;N1;0.4\r\n\
$$ElmCoup;FID(a:40);OP(a:1);loc_name(a:40);on_off(i)\r\n\
C1;C;Coup1;1\r\n\
$$ElmLne;FID(a:40);OP(a:1);loc_name(a:40);typ_id(p);dline(r);outserv(i)\r\n\
L1;C;Lne1;TL1;2.5;0\r\n\
$$TypLne;FID(a:40);OP(a:1);loc_name(a:40);rline(r);xline(r);cline(r);rline0(r);xline0(r);cline0(r);sline(r)\r\n\
TL1;C;TypA;0.2;0.3;0.01;0.5;0.9;0.005;0.25\r\n\
$$ElmTr2;FID(a:40);OP(a:1);loc_name(a:40);typ_id(p);nntap(i)\r\n\
X1;C;Tr1;TT1;1\r\n\
$$TypTr2;FID(a:40);OP(a:1);loc_name(a:40);strn(r);utrn_h(r);utrn_l(r);uktr(r);pcutr(r);tr2cn_h(a:4);tr2cn_l(a:4);dutap(r);nt2ag(i)\r\n\
TT1;C;TypTr;0.63;20;0.4;4;6.5;D;YN;2.5;5\r\n\
$$ElmLod;FID(a:40);OP(a:1);loc_name(a:40);plini(r);qlini(r)\r\n\
D1;C;Lod1;0.3;0.1\r\n\
$$ElmLodlv;FID(a:40);OP(a:1);loc_name(a:40);plini(r);qlini(r)\r\n\
D2;C;LodLv1;0.012;0.004\r\n\
$$ElmShnt;FID(a:40);OP(a:1);loc_name(a:40);shtype(i);ncapa(i);qtotn(r)\r\n\
S1;C;Shnt1;2;1;0.05\r\n\
$$ElmXnet;FID(a:40);OP(a:1);loc_name(a:40);usetp(r);phiini(r)\r\n\
E1;C;Xnet1;1.02;0\r\n\
$$StaCubic;FID(a:40);OP(a:1);fold_id(p);obj_id(p);obj_bus(i);cPhInfo(a:4)\r\n\
Q1;C;T1;L1;0;\r\n\
Q2;C;T2;L1;1;\r\n\
Q3;C;T2;C1;0;\r\n\
Q4;C;T3;C1;1;\r\n\
Q5;C;T3;X1;0;\r\n\
Q6;C;T4;X1;1;\r\n\
Q7;C;T2;D1;0;\r\n\
Q8;C;T4;D2;0;L2\r\n\
Q9;C;T4;S1;0;\r\n\
Q10;C;T1;E1;0;\r\n\
$$ElmFoobar;FID(a:40);OP(a:1)\r\n\
F1;C\r\n";

fn feeder() -> DistNetwork {
    parse_dgs_str(&math(), FEEDER).expect("feeder parses")
}

#[test]
fn feeder_topology_and_counts() {
    let net = feeder();
    // Src, Mid (MidB fused into it through the closed coupler), Lv.
    assert_eq!(net.buses.len(), 3);
    assert_eq!(net.lines.len(), 1);
    assert_eq!(net.transformers.len(), 1);
    assert_eq!(net.loads.len(), 2);
    assert_eq!(net.shunts.len(), 1);
    assert_eq!(net.sources.len(), 1);
    assert!(
        net.switches.is_empty(),
        "closed coupler fuses, not switches"
    );
    approx(net.base_frequency, 50.0, 1e-12, "frnom");
    has_warning(&net, "fused 1 terminal pair");
    has_warning(&net, "ElmFoobar");
    assert_eq!(net.name.as_deref(), Some("Grid"));
    let ids: Vec<&str> = net.buses.iter().map(|b| b.id.as_str()).collect();
    assert_eq!(ids, ["Src", "Mid", "Lv"]);
    assert!(net.source_format.is_none());
    assert_eq!(net.source.as_ref().unwrap().as_str(), FEEDER);
    assert_eq!(net.buses[2].terminals, ["1", "2", "3", "4"]);
    assert_eq!(net.buses[2].grounded, ["4"]);
    assert_eq!(net.transformers[0].windings[0].bus, "Mid");
}

#[test]
fn sequence_linecode_is_fortescue_per_meter() {
    let net = feeder();
    let lc = &net.linecodes[0];
    assert_eq!(lc.n_conductors, 3);
    // rline 0.2, rline0 0.5 ohm/km: self (0.5 + 2*0.2)/3 / 1000 = 3e-4 ohm/m,
    // mutual (0.5 - 0.2)/3 / 1000 = 1e-4. xline 0.3, xline0 0.9: self 5e-4,
    // mutual 2e-4.
    approx(lc.r_series[0][0], 3e-4, 1e-15, "r self");
    approx(lc.r_series[0][1], 1e-4, 1e-15, "r mutual");
    approx(lc.x_series[1][1], 5e-4, 1e-15, "x self");
    approx(lc.x_series[2][0], 2e-4, 1e-15, "x mutual");
    // cline 0.01, cline0 0.005 uF/km at 50 Hz; B = 2*pi*50*C. Half at each
    // end: self (B0 + 2*B1)/3 / 2, mutual (B0 - B1)/3 / 2 per metre.
    let b1 = 2.0 * std::f64::consts::PI * 50.0 * 0.01e-6 / 1000.0;
    let b0 = 2.0 * std::f64::consts::PI * 50.0 * 0.005e-6 / 1000.0;
    approx(
        lc.b_from[0][0],
        (b0 + 2.0 * b1) / 3.0 / 2.0,
        1e-18,
        "b self",
    );
    approx(lc.b_from[0][1], (b0 - b1) / 3.0 / 2.0, 1e-18, "b mutual");
    // The line is 2.5 km.
    approx(net.lines[0].length, 2500.0, 1e-9, "length m");
    has_warning(&net, "transposed 3x3");
    assert_eq!(lc.name, "TypA");
    assert_eq!(lc.i_max.as_ref().unwrap().len(), 3);
    approx(lc.i_max.as_ref().unwrap()[0], 250.0, 1e-9, "ampacity");
}

#[test]
fn single_phase_load_is_pinned_to_phase_2() {
    let net = feeder();
    let lv = net.loads.iter().find(|l| l.name == "LodLv1").unwrap();
    assert_eq!(lv.configuration, Configuration::SinglePhase);
    // StaCubic cPhInfo = L2 pins conductor 2; the wye return is the neutral.
    assert_eq!(lv.terminal_map, vec!["2".to_string(), "4".to_string()]);
    // 0.012 MW / 0.004 Mvar as watts and vars on the one phase.
    approx(lv.p_nom[0], 12_000.0, 1e-9, "p W");
    approx(lv.q_nom[0], 4_000.0, 1e-9, "q var");
    // No defaulted-phase warning: the phase was pinned.
    assert!(
        !net.warnings
            .iter()
            .any(|w| w.contains("defaulted to phase"))
    );

    let three = net.loads.iter().find(|l| l.name == "Lod1").unwrap();
    assert_eq!(three.configuration, Configuration::Wye);
    let sum: f64 = three.p_nom.iter().map(|p| f(*p)).sum();
    approx(sum.to_bits(), 300_000.0, 1e-9, "3ph P sum");
}

#[test]
fn transformer_vector_group_and_short_circuit() {
    let net = feeder();
    let tr = &net.transformers[0];
    assert_eq!(tr.windings[0].conn, WindingConn::Delta, "HV side of Dyn");
    assert_eq!(tr.windings[1].conn, WindingConn::Wye);
    approx(tr.windings[0].v_ref, 20_000.0, 1e-9, "HV v_ref");
    approx(tr.windings[1].v_ref, 400.0, 1e-9, "LV v_ref");
    approx(tr.windings[0].s_rating, 630_000.0, 1e-6, "s_rating VA");
    // pcutr 6.5 kW on 0.63 MVA: total r% = 6.5/(10*0.63) = 1.031746...,
    // split per winding = 0.515873; xhl = sqrt(4^2 - 1.031746^2) = 3.864647.
    approx(
        tr.windings[0].r_pct,
        6.5 / (10.0 * 0.63) / 2.0,
        1e-9,
        "r_pct",
    );
    let r_total: f64 = 6.5 / (10.0 * 0.63);
    approx(
        tr.xsc_pct[0],
        (16.0 - r_total * r_total).sqrt(),
        1e-9,
        "xhl %",
    );
    // One step of 2.5 % on the high side.
    approx(tr.windings[0].tap, 1.025, 1e-12, "tap");
    approx(tr.windings[1].tap, 1.0, 0.0, "no tap");
}

#[test]
fn xnet_becomes_the_single_voltage_source() {
    let net = feeder();
    let src = &net.sources[0];
    // 20 kV bus, usetp 1.02: phase-to-neutral 20000/sqrt(3)*1.02 volts.
    let vpn = 20_000.0 / 3f64.sqrt() * 1.02;
    approx(src.v_magnitude[0], vpn, 1e-6, "phase a volts");
    approx(src.v_magnitude[1], vpn, 1e-6, "phase b volts");
    // Angles are radians, 0 / -120 / +120 degrees.
    approx(src.v_angle[0], 0.0, 1e-12, "phase a angle");
    approx(
        src.v_angle[1],
        -2.0 * std::f64::consts::FRAC_PI_3,
        1e-12,
        "phase b angle",
    );
}

#[test]
fn shunt_susceptance_is_the_rating_at_the_bus_voltage() {
    let net = feeder();
    let vpn = 400.0 / 3f64.sqrt();
    let b = 0.05e6 / (3.0 * vpn * vpn);
    approx(net.shunts[0].b[0][0], b, 1e-9, "b");
    approx(net.shunts[0].b[0][1], 0.0, 0.0, "no mutual");
    approx(net.shunts[0].g[2][2], 0.0, 0.0, "no conductance");
}

fn two_terminals(rest: &str) -> String {
    format!(
        "{GENERAL}$$ElmTerm;FID(a:40);loc_name(a:40);uknom(r)\nT1;A;20\nT2;B;20\n\
         $$StaCubic;FID(a:40);fold_id(p);obj_id(p);obj_bus(i)\nQ1;T1;L1;0\nQ2;T2;L1;1\n{rest}"
    )
}

fn denormalized_tower() -> String {
    let r = [
        [0.11, 0.04, 0.04, 0.041],
        [0.04, 0.12, 0.04, 0.042],
        [0.04, 0.04, 0.13, 0.043],
        [0.041, 0.042, 0.043, 0.25],
    ];
    let mut columns = String::from("R_c1:SIZEROW(i);R_c1:SIZECOL(i)");
    let mut cells = String::from("4;4");
    for (i, row) in r.iter().enumerate() {
        for (j, v) in row.iter().enumerate() {
            columns += &format!(";R_c1:{i}:{j}(r)");
            cells += &format!(";{v}");
        }
    }
    columns += ";X_c1:SIZEROW(i)";
    cells += ";4";
    for i in 0..4 {
        for j in 0..=i {
            columns += &format!(";X_c1:{}(r)", 4 * i + j);
            cells += if i == j { ";0.3" } else { ";0.09" };
        }
    }
    two_terminals(&format!(
        "$$ElmLne;FID(a:40);loc_name(a:40);typ_id(p);dline(r)\nL1;Tow;TT;1\n\
         $$TypTow;FID(a:40);{columns}\nTT;{cells}\n"
    ))
}

fn normalized_tower() -> String {
    let r = [
        [0.11, 0.04, 0.04, 0.041],
        [0.04, 0.12, 0.04, 0.042],
        [0.04, 0.04, 0.13, 0.043],
        [0.041, 0.042, 0.043, 0.25],
    ];
    let mut rows = String::new();
    for (i, row) in r.iter().enumerate() {
        for (j, v) in row.iter().enumerate() {
            rows += &format!("MR;{i};{j};{v}\n");
        }
    }
    for i in 0..4 {
        for j in 0..=i {
            let v = if i == j { 0.3 } else { 0.09 };
            rows += &format!("MX;{i};{j};{v}\n");
        }
    }
    two_terminals(&format!(
        "$$ElmLne;FID(a:40);loc_name(a:40);typ_id(p);dline(r)\nL1;Tow;TT;1\n\
         $$TypTow;FID(a:40);R_c1(p);X_c1(p)\nTT;MR;MX\n\
         $$Matrix;FID(a:40);MatRow(i);MatColumn(i);Val(r)\n{rows}"
    ))
}

#[test]
fn explicit_matrix_is_preserved_verbatim_and_forms_agree() {
    let denorm = parse_dgs_str(&math(), &denormalized_tower()).unwrap();
    let norm = parse_dgs_str(&math(), &normalized_tower()).unwrap();
    for net in [&denorm, &norm] {
        let lc = &net.linecodes[0];
        assert_eq!(lc.n_conductors, 4, "neutral conductor kept");
        // Totals over the 1 km section, per metre: R[0][0] 0.11/1000,
        // R[3][3] 0.25/1000, R[0][3] 0.041/1000; X completed symmetric
        // from the lower triangle in the normalized form.
        approx(lc.r_series[0][0], 0.11e-3, 1e-15, "r aa");
        approx(lc.r_series[3][3], 0.25e-3, 1e-15, "r nn");
        approx(lc.r_series[0][3], 0.041e-3, 1e-15, "r an");
        approx(lc.x_series[0][1], 0.09e-3, 1e-15, "x ab");
        approx(lc.x_series[1][0], 0.09e-3, 1e-15, "x ba (mirrored)");
        has_warning(net, "explicit 4-conductor phase matrix");
    }
    // The denormalized and normalized carriers yield the same matrices.
    assert_eq!(
        denorm.linecodes[0].r_series, norm.linecodes[0].r_series,
        "denormalized and $$Matrix forms agree"
    );
    assert_eq!(denorm.linecodes[0].x_series, norm.linecodes[0].x_series);
    assert_eq!(denorm.lines[0].terminal_map_from, ["1", "2", "3", "4"]);
    assert_eq!(denorm.buses[0].terminals, ["1", "2", "3", "4"]);
    assert!(denorm.buses[0].grounded.is_empty());
}

#[test]
fn conductors_are_numbered_from_one() {
    assert_eq!(phases_up_to(4), [1, 2, 3, 4]);
    let all = phases_up_to(255);
    assert_eq!((all.len(), all[0], all[254]), (255, 1, 255));
}

#[test]
fn geometry_without_parameters_is_skipped_with_guidance() {
    let text = two_terminals(
        "$$ElmLne;FID(a:40);loc_name(a:40);typ_id(p);dline(r)\nL1;Tow;TT;1\n\
         $$TypTow;FID(a:40);loc_name(a:40)\nTT;Tower\n",
    );
    let net = parse_dgs_str(&math(), &text).unwrap();
    assert!(net.lines.is_empty(), "geometry-only line must not be faked");
    has_warning(&net, "no exported line parameters");
    has_warning(&net, "re-export from PowerFactory");
}

fn refused(text: &str) -> String {
    match parse_dgs_str(&math(), text) {
        Err(e) => {
            assert!(matches!(&e, Error::FormatRead { .. }));
            e.to_text()
        }
        Ok(_) => panic!("accepted: {text}"),
    }
}

#[test]
fn rejections_match_the_transmission_reader() {
    let err = match parse_dgs_bytes(&math(), b"PFD\x00\x01\x02binary", Some("x")) {
        Err(e) => e.to_text(),
        Ok(_) => panic!("accepted"),
    };
    assert!(err.contains("encrypted PowerFactory export"), "{err}");
    let err = refused(&format!(
        "{GENERAL}$$ElmSym;FID(a:40);OP(a:1)\nS1;U\n"
    ));
    assert!(err.contains("operational updates"), "{err}");
    let err = refused("$$ElmTerm;FID(a:40);loc_name(a:40)\nA;A\n");
    assert!(err.contains("General"), "{err}");
}

#[test]
fn every_refusal_says_why() {
    assert!(refused("no table").contains("encrypted"));
    assert!(refused("$$General;FID(a)\nx\n").contains("no Descr/Val columns"));
    assert!(refused("$$General;FID(a);Descr(a);Val(a)\nx;a;b\n").contains("no Version row"));
    let general = |v: &str| format!("$$General;FID(a);Descr(a);Val(a)\nx;Version;{v}\n");
    assert!(refused(&general("new")).contains("unrecognized DGS version \"new\""));
    assert!(refused(&general("4.2")).contains("DGS version \"4.2\" is not supported"));
    assert!(refused(&(general("6.0") + "$$A;ID(a)\n$$A;ID(a)\n")).contains("duplicate table `A` at line 4"));
    assert!(
        refused(&(general("6.0") + "$$A;ID(a);b(r)\nx\n"))
            .contains("table `A` row at line 4 has 1 cells, header declares 2")
    );
    assert!(
        refused(&(general("6.0") + "$$A;ID(a)\nx\nx\n"))
            .contains("duplicate id \"x\" in table `A` at line 5")
    );
    assert!(
        refused(&(general("6.0") + "$$ElmTerm;ID(a);uknom(r)\nx;two\n"))
            .contains("uknom value \"two\" is not a number at line 4")
    );
    let line = |t: &str| two_terminals(&format!("$$ElmLne;FID(a);typ_id(p)\nL1;{t}\n"));
    assert!(refused(&line("Gone")).contains("line/transformer \"L1\" references type \"Gone\""));
    let small = line("TT") + "$$TypTow;FID(a);R_c1:SIZEROW(i);R_c1:SIZECOL(i);R_c1:0(r)\nTT;2;0;1\n";
    assert!(refused(&small).contains("fewer than 2 rows or columns"));
}

#[test]
fn cells_are_split_outside_quotes() {
    assert_eq!(split_semicolons("a;b;"), ["a", "b", ""]);
    assert_eq!(split_semicolons("\"a;b\";c"), ["a;b", "c"]);
    assert_eq!(split_semicolons("\"say \"\"x\"\"\""), ["say \"x\""]);
    assert_eq!(split_semicolons(""), [""]);
}

#[test]
fn operation_flags_keep_or_drop_rows() {
    let text = format!(
        "{GENERAL}G2;C;DecimalSeparator;,\nG3;C;AttributeMode;DISPLAYED\n\
         $$ElmTerm;FID(a:40);OP(a:1);loc_name(z:9);uknom@2(r)\nA;C;a;1,5\nB;U;b;2\nC;D;c;3\n\
         D;I;d;4\n##E;C;e;5\nF;C;$empty$;6\n$$Deletion;FID(a)\nx\ny\n"
    );
    let (doc, warnings) = scan(&text).unwrap();
    let t = doc.table("ElmTerm").unwrap();
    let ids: Vec<String> = t.rows.iter().map(|r| t.id_of(r)).collect();
    assert_eq!(ids, ["A", "B", "F"]);
    assert!(t.cell(&t.rows[2], "loc_name").is_none());
    assert!(t.cell(&t.rows[0], "uknom").is_some());
    assert_eq!(doc.decimal, ',');
    assert_eq!(parse_num(&math(), " 1,5 ", ',').map(f), Some(1.5));
    assert_eq!(parse_num(&math(), "1,5", '.'), None);
    assert!(doc.table("Deletion").unwrap().rows.is_empty());
    let said = |w: &str| warnings.iter().any(|x| x == w);
    assert!(said("DGS column type 'z' is unknown; read as text"));
    assert!(said("1 DGS update row(s) (OP=U) treated as object definitions"));
    assert!(said("1 DGS delete row(s) (OP=D) skipped"));
    assert!(said("1 DGS ignored row(s) (OP=I) skipped"));
    assert!(said(
        "1 DGS row(s) key an external PowerFactory project (## id) and were skipped"
    ));
    assert!(said(
        "DGS Deletion table skipped (2 rows): operational deletions reference an external project"
    ));
    assert!(warnings.iter().any(|w| w.contains("DISPLAYED")));
}

#[test]
fn vectors_are_read_by_index() {
    let text = format!("{GENERAL}$$VecDouble;FID(a);VecIndex(i);Val(r)\nV;2;3.5\nV;0;1\nW;0;9\n");
    let (doc, _) = scan(&text).unwrap();
    let v = vector(&math(), &doc, " V ").unwrap();
    assert_eq!(v.iter().map(|b| f(*b)).collect::<Vec<f64>>(), [1.0, 0.0, 3.5]);
    assert!(vector(&math(), &doc, "none").is_none());
}

#[test]
fn triangles_are_completed() {
    let m = |v: [[f64; 2]; 2]| {
        v.iter()
            .map(|r| r.iter().map(|x| x.to_bits()).collect::<Vec<u64>>())
            .collect::<Vec<Vec<u64>>>()
    };
    assert_eq!(complete_symmetry(m([[1.0, 0.0], [2.0, 3.0]])), m([[1.0, 2.0], [2.0, 3.0]]));
    assert_eq!(complete_symmetry(m([[1.0, 2.0], [0.0, 3.0]])), m([[1.0, 2.0], [2.0, 3.0]]));
    let both = m([[1.0, 4.0], [2.0, 3.0]]);
    assert_eq!(complete_symmetry(both.clone()), both);
    let diagonal = m([[1.0, 0.0], [0.0, 3.0]]);
    assert_eq!(complete_symmetry(diagonal.clone()), diagonal);
}

#[test]
fn the_smallest_position_is_the_root() {
    let mut uf = UnionFind::new(5);
    uf.union(4, 2);
    uf.union(3, 4);
    assert_eq!(uf.find(3), 2);
    uf.union(3, 1);
    for x in 1..5 {
        assert_eq!(uf.find(x), 1);
    }
    assert_eq!(uf.find(0), 0);
}

#[test]
fn names_are_plain_and_unique() {
    assert_eq!(sanitize("  Bus 1/a-b_ "), "Bus_1_a-b");
    assert_eq!(sanitize("__"), "");
    let text = format!(
        "{GENERAL}$$ElmTerm;FID(a:40);loc_name(a:40)\nT1;x y\nT2;x_y\nT3;x.y\nT4;***\n"
    );
    let net = parse_dgs_str(&math(), &text).unwrap();
    let ids: Vec<&str> = net.buses.iter().map(|b| b.id.as_str()).collect();
    assert_eq!(ids, ["x_y", "x_y_1", "x_y_2", "bus"]);
    assert_eq!(net.buses[0].terminals, ["1", "2", "3"]);
    has_warning(&net, "no ElmXnet external grid");
    assert_eq!(net.name.as_deref(), Some("case"));
}

#[test]
fn phases_are_told_by_their_name() {
    assert_eq!(parse_phase("L1"), Some(1));
    assert_eq!(parse_phase(" 3 "), Some(3));
    assert_eq!(parse_phase("L4"), None);
    assert_eq!(parse_phase("L12"), None);
    assert_eq!(parse_phase("phase2"), None);
    assert_eq!(parse_phase("A1"), None);
    assert_eq!(parse_phase("L2"), Some(2));
    assert_eq!(parse_phase(""), None);
}

#[test]
fn self_and_mutual_of_a_sequence_pair() {
    let (s, m) = seq_pair(&math(), 3.0f64.to_bits(), 6.0f64.to_bits());
    assert_eq!((f(s), f(m)), (4.0, 1.0));
}

#[test]
fn sections_add_up_in_order() {
    let text = two_terminals(
        "$$ElmLne;FID(a:40);loc_name(a:40);nlnum(i);fline(r)\nL1;Line;2;0.5\n\
         $$ElmLnesec;FID(a:40);fold_id(p);typ_id(p);dline(r);index(i)\nS2;L1;B;1;2\nS1;L1;A;3;1\n\
         $$TypLne;FID(a:40);loc_name(a:40);rline(r);xline(r);nlnph(i);sline(r)\n\
         A;a;0.2;0.4;1;0.1\nB;b;0.6;0.8;1;0.3\n",
    );
    let net = parse_dgs_str(&math(), &text).unwrap();
    let lc = &net.linecodes[0];
    // Two circuits: 3 km of 0.2 and 1 km of 0.6 ohm, halved, over 4 km.
    approx(lc.r_series[0][0], (0.6 + 0.6) / 2.0 / 4000.0, 1e-15, "r");
    approx(lc.x_series[0][0], (1.2 + 0.8) / 2.0 / 4000.0, 1e-15, "x");
    approx(net.lines[0].length, 4000.0, 1e-9, "length");
    assert_eq!(lc.name, "L1_lc");
    // The last section with a rating gives the ampacity, derated.
    approx(lc.i_max.as_ref().unwrap()[0], 150.0, 1e-9, "ampacity");
    assert_eq!(net.lines[0].terminal_map_from, ["1"]);
}

#[test]
fn lines_of_one_type_share_a_linecode() {
    let text = format!(
        "{GENERAL}$$ElmTerm;FID(a:40);loc_name(a:40)\nT1;A\nT2;B\n\
         $$StaCubic;FID(a:40);fold_id(p);obj_id(p);obj_bus(i)\nQ1;T1;L1;0\nQ2;T2;L1;1\n\
         Q3;T1;L2;0\nQ4;T2;L2;1\nQ5;T1;L3;0\nQ6;T2;L3;1\nQ7;T1;L4;0\n\
         $$StaSwitch;FID(a:40);fold_id(p);on_off(i)\nW1;Q6;0\n\
         $$ElmLne;FID(a:40);typ_id(p);dline(r);chr(a:4);nlnum(i)\nL1;T;1;x;1\nL2;T;2;$empty$;1\n\
         L3;T;2;y;1\nL4;T;2;y;1\n\
         $$TypLne;FID(a:40);rline(r);nlnph(i)\nT;0.2;2\n"
    );
    let net = parse_dgs_str(&math(), &text).unwrap();
    assert_eq!(net.linecodes.len(), 1);
    assert_eq!(net.lines.len(), 2);
    assert_eq!(net.lines[0].linecode, net.lines[1].linecode);
    assert_eq!(net.lines[0].linecode, net.linecodes[0].name);
    assert_ne!(net.lines[0].name, net.lines[1].name);
    assert_eq!(net.lines[0].extras.get("dgs_chr").unwrap().as_str().unwrap(), "x");
    assert!(net.lines[1].extras.get("dgs_chr").is_none());
    has_warning(&net, "1 out-of-service `ElmLne` element(s) skipped");
    has_warning(&net, "`ElmLne` \"L4\" has no cubicle for each of its terminals; skipped");
    // Two phases carry the positive sequence, uncoupled.
    approx(net.linecodes[0].r_series[0][0], 0.2e-3, 1e-15, "own resistance");
    approx(net.linecodes[0].r_series[0][1], 0.0, 0.0, "no coupling");
    has_warning(&net, "two-phase line sequence data");
    has_warning(&net, "no zero-sequence data");
    assert_eq!(net.buses[0].terminals, ["1", "2"]);
}

#[test]
fn loads_machines_and_further_grids() {
    let text = format!(
        "{GENERAL}$$ElmTerm;FID(a:40);loc_name(a:40);uknom(r)\nT1;A;0\nT2;B;10\n\
         $$ElmCoup;FID(a:40);loc_name(a:40);on_off(i)\nC1;Tie;0\n\
         $$StaCubic;FID(a:40);fold_id(p);obj_id(p);obj_bus(i)\nQ1;T1;D1;0\nQ2;T1;D2;0\n\
         Q3;T2;G1;1\nQ4;T1;X1;0\nQ5;T2;X2;0\nQ6;T1;C1;0\nQ7;T2;C1;1\nQ8;T1;D3;0\n\
         $$ElmLod;FID(a:40);plini(r);slini(r);pf_recap(i);typ_id(p);scale0(r)\nD1;3;5;1;K;2\n\
         $$TypLod;FID(a:40);kpu(r);kqu(r)\nK;1.5;0\n\
         $$ElmLodmv;FID(a:40);plini(r);qlini(r);outserv(i)\nD2;1;0;0\nD3;1;0;1\n\
         $$ElmLodlvp;FID(a:40)\nP1\n\
         $$ElmGenstat;FID(a:40);pgini(r);qgini(r);ngnum(i);Pmax_uc(r)\nG1;1;2;3;6\n\
         $$ElmXnet;FID(a:40);uknom(r);phiini(r)\nX1;11;30\nX2;11;0\n"
    );
    let net = parse_dgs_str(&math(), &text).unwrap();
    // 3 MW and 5 MVA, twice: 6 MW and, capacitive, 8 Mvar in thirds.
    let d1 = &net.loads[0];
    assert_eq!(d1.name, "D1");
    approx(d1.p_nom[0], 2e6, 1e-6, "p");
    approx(d1.q_nom[2], -8e6 / 3.0, 1e-6, "q");
    match &d1.voltage_model {
        DistLoadVoltageModel::Exponential { v_nom, gamma_p, gamma_q } => {
            assert_eq!(v_nom.len(), 3);
            approx(gamma_p[0], 1.5, 0.0, "kpu");
            approx(gamma_q[0], 0.0, 0.0, "kqu");
        }
        _ => panic!("exponential expected"),
    }
    assert_eq!(net.loads[1].configuration, Configuration::SinglePhase);
    assert_eq!(net.loads[1].terminal_map, ["1", "4"]);
    has_warning(&net, "1 single-phase element(s) defaulted to phase 1");
    has_warning(&net, "1 out-of-service `ElmLod` element(s) skipped");
    has_warning(&net, "`ElmLodlvp` table ignored (1 rows)");
    let g = &net.generators[0];
    approx(g.p_nom[0], 1e6, 1e-6, "three units in thirds");
    approx(g.q_nom[0], 2e6, 1e-6, "three units in thirds");
    approx(g.p_max.as_ref().unwrap()[0], 2e6, 1e-6, "limit");
    assert!(g.p_min.is_none());
    assert_eq!(net.sources.len(), 1);
    approx(net.sources[0].v_magnitude[0], 11_000.0 / 3f64.sqrt(), 1e-6, "own voltage");
    approx(net.sources[0].v_angle[0], std::f64::consts::FRAC_PI_6, 1e-12, "angle");
    assert_eq!(net.generators[1].name, "X2");
    has_warning(&net, "more than one ElmXnet external grid");
    assert_eq!(net.switches.len(), 1);
    assert!(net.switches[0].open);
    assert_eq!(net.switches[0].name, "Tie");
}

#[test]
fn three_winding_transformers() {
    let text = format!(
        "{GENERAL}$$ElmTerm;FID(a:40);loc_name(a:40)\nT1;H\nT2;M\nT3;L\n\
         $$StaCubic;FID(a:40);fold_id(p);obj_id(p);obj_bus(i)\nQ1;T1;X;0\nQ2;T2;X;1\nQ3;T3;X;2\n\
         $$ElmTr3;FID(a:40);typ_id(p)\nX;K\n\
         $$TypTr3;FID(a:40);utrn3_h(r);utrn3_m(r);utrn3_l(r);strn3_h(r);strn3_m(r);strn3_l(r);\
         uktr3_h(r);uktr3_m(r);uktr3_l(r);ur3tr_h(r);tr3cn_h(a);tr3cn_m(a);tr3cn_l(a)\n\
         K;110;20;10;40;30;20;5;7;9;3;YN;d;Y\n"
    );
    let net = parse_dgs_str(&math(), &text).unwrap();
    let t = &net.transformers[0];
    assert_eq!(t.windings.len(), 3);
    approx(t.xsc_pct[0], 4.0, 1e-12, "sqrt(25 - 9)");
    approx(t.xsc_pct[1], 9.0, 1e-12, "low");
    approx(t.xsc_pct[2], 7.0, 1e-12, "middle");
    approx(t.windings[0].v_ref, 110_000.0, 1e-9, "kV");
    approx(t.windings[2].s_rating, 20e6, 1e-6, "MVA");
    assert_eq!(t.windings[1].conn, WindingConn::Delta);
    assert_eq!(t.windings[1].terminal_map, ["1", "2", "3"]);
    assert_eq!(t.windings[0].terminal_map, ["1", "2", "3", "4"]);
}

#[test]
fn bytes_are_decoded_by_their_mark() {
    assert_eq!(decode_dgs_bytes("\u{feff}a\u{e4}".as_bytes()), "a\u{e4}");
    assert_eq!(decode_dgs_bytes(b"\xef\xbb\xbfa\xff"), "a\u{fffd}");
    assert_eq!(decode_dgs_bytes(b"\xef\xbb\xbfab"), "ab");
    assert_eq!(decode_dgs_bytes(b"\xff\xfeA\x00\x3d\xd8\x00\xde"), "A\u{1f600}");
    assert_eq!(decode_dgs_bytes(b"\xfe\xff\x00A\xd8\x00"), "A\u{fffd}");
    assert_eq!(decode_dgs_bytes(b"\xff\xfeA\x00B"), "A\u{fffd}");
    assert_eq!(decode_dgs_bytes("a\u{e4}".as_bytes()), "a\u{e4}");
    assert_eq!(decode_dgs_bytes(b"a\xe4"), "a\u{e4}");
    let net = parse_dgs_bytes(
        &math(),
        format!("{GENERAL}$$ElmTerm;FID(a)\nT1\n").as_bytes(),
        Some("stem"),
    )
    .unwrap();
    assert_eq!(net.name.as_deref(), Some("stem"));
}

#[test]
fn an_open_side_takes_a_transformer_out() {
    let text = format!(
        "{GENERAL}$$ElmTerm;FID(a:40);loc_name(a:40)\nT1;H\nT2;M\nT3;L\n\
         $$StaCubic;FID(a:40);fold_id(p);obj_id(p);obj_bus(i)\nQ1;T1;X;0\nQ2;T2;X;1\nQ3;T3;X;2\n\
         $$StaSwitch;FID(a:40);fold_id(p);on_off(i)\nW1;Q3;0\n\
         $$ElmTr3;FID(a:40);typ_id(p)\nX;K\n\
         $$TypTr3;FID(a:40);utrn3_h(r);utrn3_m(r);utrn3_l(r)\nK;110;20;10\n"
    );
    let net = parse_dgs_str(&math(), &text).unwrap();
    assert!(net.transformers.is_empty());
    has_warning(&net, "1 out-of-service `ElmTr3` element(s) skipped");
}

#[test]
fn elements_without_cubicles_are_warned_of() {
    let text = format!(
        "{GENERAL}$$ElmTerm;FID(a:40);loc_name(a:40)\nT1;A\nT2;B\n\
         $$StaCubic;FID(a:40);fold_id(p);obj_id(p);obj_bus(i)\nQ1;T1;X;0\nQ2;T1;C;0\n\
         $$ElmTr2;FID(a:40);typ_id(p)\nX;K\n$$TypTr2;FID(a:40);utrn_h(r)\nK;20\n\
         $$ElmCoup;FID(a:40);on_off(i)\nC;1\n\
         $$ElmLod;FID(a:40);plini(r)\nD;1\n"
    );
    let net = parse_dgs_str(&math(), &text).unwrap();
    assert!(net.transformers.is_empty() && net.loads.is_empty());
    for (class, id) in [("ElmTr2", "X"), ("ElmCoup", "C"), ("ElmLod", "D")] {
        has_warning(
            &net,
            &format!("`{class}` {id:?} has no cubicle for each of its terminals; skipped"),
        );
    }
}
