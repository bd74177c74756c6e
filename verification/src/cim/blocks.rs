//! The objects that the writer writes, element by element, and how a store of
//! them answers.

use vstd::prelude::*;

use crate::cim::store::{
    distinct_ids, index_from, merge_n, of_class_n, prop_from, CimObjectV, PropV, StoreV,
};
use crate::cim::write::{
    base_or_zero, bool_text, bus_doc, buses_doc, cell_doc, connection_of, det_mrid_of, dropped_doc,
    frequency_doc, line_doc, line_phases_doc, linecode_doc, linecodes_doc, lines_doc, load_doc,
    load_phases_doc, loads_doc, mrid_of, network_doc, node_of, phase_code_of, phases_n, row_doc,
    shunt_doc, shunt_phases_doc, shunts_doc, source_doc, sources_doc, switch_doc, switches_doc,
    terminal_id, transformer_doc, transformers_doc, triangle_doc, value_or_zero, winding_doc,
    windings_doc, DocV,
};
use crate::json::Entries;
use crate::math::{Sem, HUNDRED, ZERO};
use crate::model::{
    entry_of, DistBusV, DistLineCodeV, DistLineV, DistLoadV, DistNetworkV, DistShuntV, DistSwitchV,
    DistTransformerV, VoltageSourceV, WindingConn,
};
use crate::numeral::dec_of;

verus! {

// ---- objects ---------------------------------------------------------------

/// A reference to a CIM enumeration value.
pub open spec fn kind_ref(value: Seq<char>) -> PropV {
    PropV::Ref("http://iec.ch/TC57/CIM100#"@ + value)
}

/// An object with its identifier and name before its other properties.
pub open spec fn named_object(
    class: Seq<char>,
    id: Seq<char>,
    name: Seq<char>,
    more: Seq<(Seq<char>, PropV)>,
) -> CimObjectV {
    CimObjectV {
        class,
        id,
        props: seq![
            ("IdentifiedObject.mRID"@, PropV::Text(id)),
            ("IdentifiedObject.name"@, PropV::Text(name)),
        ] + more,
    }
}

pub open spec fn terminal_object(
    owner: Seq<char>,
    seq: nat,
    node: Seq<char>,
    code: Seq<char>,
) -> CimObjectV {
    CimObjectV {
        class: "Terminal"@,
        id: terminal_id(owner, seq),
        props: seq![
            ("Terminal.ConductingEquipment"@, PropV::Ref(owner)),
            ("Terminal.ConnectivityNode"@, PropV::Ref(node)),
            ("ACDCTerminal.sequenceNumber"@, PropV::Text(dec_of(seq))),
            ("Terminal.phases"@, kind_ref("PhaseCode."@ + code)),
        ],
    }
}

pub open spec fn frequency_block(m: Sem, net: DistNetworkV) -> Seq<CimObjectV> {
    let f = (m.show)(net.base_frequency);
    seq![
        CimObjectV {
            class: "BaseFrequency"@,
            id: det_mrid_of("frequency"@, "base"@),
            props: seq![
                ("IdentifiedObject.name"@, PropV::Text(f + " Hz"@)),
                ("BaseFrequency.frequency"@, PropV::Text(f)),
            ],
        },
    ]
}

pub open spec fn bus_block(b: DistBusV) -> Seq<CimObjectV> {
    seq![
        named_object("ConnectivityNode"@, mrid_of(b.extras, "node"@, b.id), b.id, seq![]),
    ]
}

pub open spec fn datum_object(
    m: Sem,
    lc: DistLineCodeV,
    id: Seq<char>,
    i: nat,
    j: nat,
) -> CimObjectV {
    CimObjectV {
        class: "PhaseImpedanceData"@,
        id: det_mrid_of("pid"@, lc.name + ":"@ + dec_of(i) + ":"@ + dec_of(j)),
        props: seq![
            ("PhaseImpedanceData.PerLengthPhaseImpedance"@, PropV::Ref(id)),
            ("PhaseImpedanceData.row"@, PropV::Text(dec_of(i + 1))),
            ("PhaseImpedanceData.column"@, PropV::Text(dec_of(j + 1))),
            ("PhaseImpedanceData.r"@, PropV::Text((m.show)(lc.r_series[i as int][j as int]))),
            ("PhaseImpedanceData.x"@, PropV::Text((m.show)(lc.x_series[i as int][j as int]))),
            (
                "PhaseImpedanceData.b"@,
                PropV::Text(
                    (m.show)(
                        m.plus(
                            entry_of(lc.b_from, i as int, j as int),
                            entry_of(lc.b_to, i as int, j as int),
                        ),
                    ),
                ),
            ),
        ],
    }
}

pub open spec fn row_data(
    m: Sem,
    lc: DistLineCodeV,
    id: Seq<char>,
    i: nat,
    j: nat,
) -> Seq<CimObjectV>
    decreases j,
{
    if j == 0 {
        seq![]
    } else {
        row_data(m, lc, id, i, (j - 1) as nat).push(datum_object(m, lc, id, i, (j - 1) as nat))
    }
}

pub open spec fn triangle_data(m: Sem, lc: DistLineCodeV, id: Seq<char>, i: nat) -> Seq<CimObjectV>
    decreases i,
{
    if i == 0 {
        seq![]
    } else {
        triangle_data(m, lc, id, (i - 1) as nat) + row_data(m, lc, id, (i - 1) as nat, i)
    }
}

pub open spec fn linecode_block(m: Sem, lc: DistLineCodeV) -> Seq<CimObjectV> {
    let id = mrid_of(lc.extras, "plpi"@, lc.name);
    seq![
        named_object(
            "PerLengthPhaseImpedance"@,
            id,
            lc.name,
            seq![
                (
                    "PerLengthPhaseImpedance.conductorCount"@,
                    PropV::Text(dec_of(lc.n_conductors as nat)),
                ),
            ],
        ),
    ] + triangle_data(m, lc, id, lc.n_conductors as nat)
}

/// The phase objects of an element: a class, the property that refers to the
/// element, and what else each says.
pub open spec fn line_phase_object(
    name: Seq<char>,
    id: Seq<char>,
    phase: Seq<char>,
    n: nat,
) -> CimObjectV {
    named_object(
        "ACLineSegmentPhase"@,
        det_mrid_of("linephase"@, name + ":"@ + phase),
        name + "_"@ + phase,
        seq![
            ("ACLineSegmentPhase.ACLineSegment"@, PropV::Ref(id)),
            ("ACLineSegmentPhase.phase"@, kind_ref("SinglePhaseKind."@ + phase)),
            ("ACLineSegmentPhase.sequenceNumber"@, PropV::Text(dec_of(n + 1))),
        ],
    )
}

pub open spec fn line_block(m: Sem, net: DistNetworkV, line: DistLineV) -> Seq<CimObjectV> {
    let id = mrid_of(line.extras, "line"@, line.name);
    let phases = phases_n(line.terminal_map_from, line.terminal_map_from.len());
    let length = ("Conductor.length"@, PropV::Text((m.show)(line.length)));
    seq![
        named_object(
            "ACLineSegment"@,
            id,
            line.name,
            match net.linecode(line.linecode) {
                Some(lc) => seq![
                    length,
                    (
                        "ACLineSegment.PerLengthImpedance"@,
                        PropV::Ref(mrid_of(lc.extras, "plpi"@, lc.name)),
                    ),
                ],
                None => seq![length],
            },
        ),
        terminal_object(id, 1, node_of(net, line.bus_from), phase_code_of(line.terminal_map_from)),
        terminal_object(id, 2, node_of(net, line.bus_to), phase_code_of(line.terminal_map_to)),
    ] + Seq::new(phases.len(), |i: int| line_phase_object(line.name, id, phases[i], i as nat))
}

pub open spec fn load_phase_object(
    m: Sem,
    load: DistLoadV,
    id: Seq<char>,
    phase: Seq<char>,
    n: nat,
) -> CimObjectV {
    named_object(
        "EnergyConsumerPhase"@,
        det_mrid_of("loadphase"@, load.name + ":"@ + phase),
        load.name + "_"@ + phase,
        seq![
            ("EnergyConsumerPhase.EnergyConsumer"@, PropV::Ref(id)),
            ("EnergyConsumerPhase.phase"@, kind_ref("SinglePhaseKind."@ + phase)),
            ("EnergyConsumerPhase.p"@, PropV::Text((m.show)(value_or_zero(load.p_nom, n as int)))),
            ("EnergyConsumerPhase.q"@, PropV::Text((m.show)(value_or_zero(load.q_nom, n as int)))),
        ],
    )
}

pub open spec fn load_block(m: Sem, net: DistNetworkV, load: DistLoadV) -> Seq<CimObjectV> {
    let id = mrid_of(load.extras, "load"@, load.name);
    let phases = phases_n(load.terminal_map, load.terminal_map.len());
    seq![
        named_object(
            "EnergyConsumer"@,
            id,
            load.name,
            seq![
                (
                    "EnergyConsumer.phaseConnection"@,
                    kind_ref("PhaseShuntConnectionKind."@ + connection_of(load.configuration)),
                ),
            ],
        ),
        terminal_object(id, 1, node_of(net, load.bus), phase_code_of(load.terminal_map)),
    ] + Seq::new(phases.len(), |i: int| load_phase_object(m, load, id, phases[i], i as nat))
}

pub open spec fn shunt_phase_object(
    m: Sem,
    shunt: DistShuntV,
    id: Seq<char>,
    phase: Seq<char>,
    n: nat,
) -> CimObjectV {
    named_object(
        "ShuntCompensatorPhase"@,
        det_mrid_of("shuntphase"@, shunt.name + ":"@ + phase),
        shunt.name + "_"@ + phase,
        seq![
            ("ShuntCompensatorPhase.ShuntCompensator"@, PropV::Ref(id)),
            ("ShuntCompensatorPhase.phase"@, kind_ref("SinglePhaseKind."@ + phase)),
            (
                "ShuntCompensatorPhase.bPerSection"@,
                PropV::Text((m.show)(entry_of(shunt.b, n as int, n as int))),
            ),
            (
                "ShuntCompensatorPhase.gPerSection"@,
                PropV::Text((m.show)(entry_of(shunt.g, n as int, n as int))),
            ),
        ],
    )
}

pub open spec fn shunt_block(m: Sem, net: DistNetworkV, shunt: DistShuntV) -> Seq<CimObjectV> {
    let id = mrid_of(shunt.extras, "shunt"@, shunt.name);
    let phases = phases_n(shunt.terminal_map, shunt.terminal_map.len());
    seq![
        named_object("LinearShuntCompensator"@, id, shunt.name, seq![]),
        terminal_object(id, 1, node_of(net, shunt.bus), phase_code_of(shunt.terminal_map)),
    ] + Seq::new(phases.len(), |i: int| shunt_phase_object(m, shunt, id, phases[i], i as nat))
}

pub open spec fn switch_block(net: DistNetworkV, s: DistSwitchV) -> Seq<CimObjectV> {
    let id = mrid_of(s.extras, "switch"@, s.name);
    seq![
        named_object(
            "LoadBreakSwitch"@,
            id,
            s.name,
            seq![
                ("Switch.normalOpen"@, PropV::Text(bool_text(s.open))),
                ("Switch.open"@, PropV::Text(bool_text(s.open))),
            ],
        ),
        terminal_object(id, 1, node_of(net, s.bus_from), phase_code_of(s.terminal_map_from)),
        terminal_object(id, 2, node_of(net, s.bus_to), phase_code_of(s.terminal_map_to)),
    ]
}

pub open spec fn end_object(m: Sem, xf: DistTransformerV, id: Seq<char>, e: nat) -> CimObjectV {
    let w = xf.windings[e as int];
    let number = dec_of(e + 1);
    let base = base_or_zero(m, w);
    let x = if e == 0 {
        m.times(m.over(value_or_zero(xf.xsc_pct, 0), HUNDRED), base)
    } else {
        ZERO
    };
    named_object(
        "PowerTransformerEnd"@,
        det_mrid_of("xfend"@, xf.name + ":"@ + number),
        xf.name + "_end"@ + number,
        seq![
            ("PowerTransformerEnd.PowerTransformer"@, PropV::Ref(id)),
            ("TransformerEnd.endNumber"@, PropV::Text(number)),
            ("TransformerEnd.Terminal"@, PropV::Ref(terminal_id(id, e + 1))),
            ("PowerTransformerEnd.ratedU"@, PropV::Text((m.show)(w.v_ref))),
            ("PowerTransformerEnd.ratedS"@, PropV::Text((m.show)(w.s_rating))),
            (
                "PowerTransformerEnd.connectionKind"@,
                kind_ref(
                    "WindingConnection."@ + match w.conn {
                        WindingConn::Delta => "D"@,
                        WindingConn::Wye => "Yn"@,
                    },
                ),
            ),
            (
                "PowerTransformerEnd.r"@,
                PropV::Text((m.show)(m.times(m.over(w.r_pct, HUNDRED), base))),
            ),
            ("PowerTransformerEnd.x"@, PropV::Text((m.show)(x))),
        ],
    )
}

pub open spec fn transformer_block(
    m: Sem,
    net: DistNetworkV,
    xf: DistTransformerV,
) -> Seq<CimObjectV> {
    let id = mrid_of(xf.extras, "xf"@, xf.name);
    if xf.windings.len() != 2 {
        seq![]
    } else {
        seq![
            named_object("PowerTransformer"@, id, xf.name, seq![]),
            terminal_object(
                id,
                1,
                node_of(net, xf.windings[0].bus),
                phase_code_of(xf.windings[0].terminal_map),
            ),
            end_object(m, xf, id, 0),
            terminal_object(
                id,
                2,
                node_of(net, xf.windings[1].bus),
                phase_code_of(xf.windings[1].terminal_map),
            ),
            end_object(m, xf, id, 1),
        ]
    }
}

pub open spec fn source_block(m: Sem, net: DistNetworkV, s: VoltageSourceV) -> Seq<CimObjectV> {
    let id = mrid_of(s.extras, "source"@, s.name);
    let v_ln = value_or_zero(s.v_magnitude, 0);
    let v = (m.show)(
        if phases_n(s.terminal_map, s.terminal_map.len()).len() >= 2 {
            m.times(v_ln, m.root3())
        } else {
            v_ln
        },
    );
    seq![
        named_object(
            "EnergySource"@,
            id,
            s.name,
            seq![
                ("EnergySource.voltageMagnitude"@, PropV::Text(v)),
                (
                    "EnergySource.voltageAngle"@,
                    PropV::Text((m.show)(value_or_zero(s.v_angle, 0))),
                ),
                ("EnergySource.nominalVoltage"@, PropV::Text(v)),
            ],
        ),
        terminal_object(id, 1, node_of(net, s.bus), phase_code_of(s.terminal_map)),
    ]
}

// ---- documents as objects --------------------------------------------------

/// What a document says, beside its text.
broadcast proof fn lemma_open_says(d: DocV, class: Seq<char>, id: Seq<char>)
    ensures
        (#[trigger] d.open(class, id)).objects == d.objects,
        d.open(class, id).object == Some(CimObjectV { class, id, props: seq![] }),
{
    reveal(DocV::open);
}

broadcast proof fn lemma_close_says(d: DocV, class: Seq<char>)
    ensures
        d.object matches Some(o) ==> (#[trigger] d.close(class)).objects == d.objects.push(o),
        d.close(class).object is None,
{
    reveal(DocV::close);
}

broadcast proof fn lemma_text_says(d: DocV, prop: Seq<char>, value: Seq<char>)
    ensures
        (#[trigger] d.text(prop, value)).objects == d.objects,
        d.text(prop, value).object == d.with_prop(prop, PropV::Text(value)),
{
    reveal(DocV::text);
}

broadcast proof fn lemma_reference_says(d: DocV, prop: Seq<char>, target: Seq<char>)
    ensures
        (#[trigger] d.reference(prop, target)).objects == d.objects,
        d.reference(prop, target).object == d.with_prop(prop, PropV::Ref(target)),
{
    reveal(DocV::reference);
}

broadcast proof fn lemma_enumeration_says(d: DocV, prop: Seq<char>, value: Seq<char>)
    ensures
        (#[trigger] d.enumeration(prop, value)).objects == d.objects,
        d.enumeration(prop, value).object == d.with_prop(prop, kind_ref(value)),
{
    reveal(DocV::enumeration);
}

broadcast proof fn lemma_warn_says(d: DocV, s: Seq<char>)
    ensures
        (#[trigger] d.warn(s)).objects == d.objects,
        d.warn(s).object == d.object,
{
    reveal(DocV::warn);
}

broadcast proof fn lemma_extras_says(d: DocV, kind: Seq<char>, name: Seq<char>, e: Entries)
    ensures
        (#[trigger] d.warn_extras(kind, name, e)).objects == d.objects,
        d.warn_extras(kind, name, e).object == d.object,
{
    reveal(DocV::warn_extras);
    reveal(DocV::warn);
}

broadcast proof fn lemma_named_says(d: DocV, class: Seq<char>, id: Seq<char>, name: Seq<char>)
    ensures
        (#[trigger] d.named(class, id, name)).objects == d.objects,
        d.named(class, id, name).object == Some(named_object(class, id, name, seq![])),
{
    reveal(DocV::named);
    lemma_open_says(d, class, id);
    let a = d.open(class, id);
    lemma_text_says(a, "IdentifiedObject.mRID"@, id);
    let b = a.text("IdentifiedObject.mRID"@, id);
    lemma_text_says(b, "IdentifiedObject.name"@, name);
    let c = b.text("IdentifiedObject.name"@, name);
    assert(c.object->0.props =~= named_object(class, id, name, seq![]).props);
}

broadcast proof fn lemma_terminal_says(
    d: DocV,
    owner: Seq<char>,
    seq: nat,
    node: Seq<char>,
    code: Seq<char>,
)
    ensures
        (#[trigger] d.terminal(owner, seq, node, code)).objects == d.objects.push(
            terminal_object(owner, seq, node, code),
        ),
        d.terminal(owner, seq, node, code).object is None,
{
    reveal(DocV::terminal);
    let a = d.open("Terminal"@, terminal_id(owner, seq));
    lemma_open_says(d, "Terminal"@, terminal_id(owner, seq));
    let b = a.reference("Terminal.ConductingEquipment"@, owner);
    lemma_reference_says(a, "Terminal.ConductingEquipment"@, owner);
    let c = b.reference("Terminal.ConnectivityNode"@, node);
    lemma_reference_says(b, "Terminal.ConnectivityNode"@, node);
    let e = c.text("ACDCTerminal.sequenceNumber"@, dec_of(seq));
    lemma_text_says(c, "ACDCTerminal.sequenceNumber"@, dec_of(seq));
    let f = e.enumeration("Terminal.phases"@, "PhaseCode."@ + code);
    lemma_enumeration_says(e, "Terminal.phases"@, "PhaseCode."@ + code);
    assert(f.object->0.props =~= terminal_object(owner, seq, node, code).props);
    lemma_close_says(f, "Terminal"@);
}

broadcast group group_says {
    lemma_open_says,
    lemma_close_says,
    lemma_text_says,
    lemma_reference_says,
    lemma_enumeration_says,
    lemma_warn_says,
    lemma_extras_says,
    lemma_named_says,
    lemma_terminal_says,
}

/// Whether a document is another with whole objects added.
pub open spec fn adds(d: DocV, block: Seq<CimObjectV>, a: DocV) -> bool {
    a.objects == d.objects + block && a.object is None
}

proof fn lemma_frequency_adds(m: Sem, d: DocV, net: DistNetworkV)
    ensures
        adds(d, frequency_block(m, net), frequency_doc(m, d, net)),
{
    broadcast use group_says;

    let a = frequency_doc(m, d, net);
    let want = frequency_block(m, net);
    assert(a.objects.last().props =~= want[0].props);
    assert(a.objects =~= d.objects + want);
}

proof fn lemma_bus_adds(d: DocV, b: DistBusV)
    ensures
        adds(d, bus_block(b), bus_doc(d, b)),
{
    broadcast use group_says;

    assert(bus_doc(d, b).objects =~= d.objects + bus_block(b));
}

proof fn lemma_cell_adds(m: Sem, d: DocV, lc: DistLineCodeV, id: Seq<char>, i: nat, j: nat)
    ensures
        adds(d, seq![datum_object(m, lc, id, i, j)], cell_doc(m, d, lc, id, i, j)),
{
    broadcast use group_says;

    let a = cell_doc(m, d, lc, id, i, j);
    assert(a.objects.last().props =~= datum_object(m, lc, id, i, j).props);
    assert(a.objects =~= d.objects + seq![datum_object(m, lc, id, i, j)]);
}

proof fn lemma_row_adds(m: Sem, d: DocV, lc: DistLineCodeV, id: Seq<char>, i: nat, j: nat)
    requires
        d.object is None,
    ensures
        adds(d, row_data(m, lc, id, i, j), row_doc(m, d, lc, id, i, j)),
    decreases j,
{
    if j == 0 {
        assert(d.objects + row_data(m, lc, id, i, j) =~= d.objects);
    } else {
        let b = row_doc(m, d, lc, id, i, (j - 1) as nat);
        lemma_row_adds(m, d, lc, id, i, (j - 1) as nat);
        lemma_cell_adds(m, b, lc, id, i, (j - 1) as nat);
        assert(row_doc(m, d, lc, id, i, j).objects =~= d.objects + row_data(m, lc, id, i, j));
    }
}

proof fn lemma_triangle_adds(m: Sem, d: DocV, lc: DistLineCodeV, id: Seq<char>, i: nat)
    requires
        d.object is None,
    ensures
        adds(d, triangle_data(m, lc, id, i), triangle_doc(m, d, lc, id, i)),
    decreases i,
{
    if i == 0 {
        assert(d.objects + triangle_data(m, lc, id, i) =~= d.objects);
    } else {
        let b = triangle_doc(m, d, lc, id, (i - 1) as nat);
        lemma_triangle_adds(m, d, lc, id, (i - 1) as nat);
        lemma_row_adds(m, b, lc, id, (i - 1) as nat, i);
        assert(triangle_doc(m, d, lc, id, i).objects =~= d.objects + triangle_data(m, lc, id, i));
    }
}

proof fn lemma_linecode_adds(m: Sem, d: DocV, lc: DistLineCodeV)
    ensures
        adds(d, linecode_block(m, lc), linecode_doc(m, d, lc)),
{
    broadcast use group_says;

    let id = mrid_of(lc.extras, "plpi"@, lc.name);
    let head = d.named("PerLengthPhaseImpedance"@, id, lc.name).text(
        "PerLengthPhaseImpedance.conductorCount"@,
        dec_of(lc.n_conductors as nat),
    ).close("PerLengthPhaseImpedance"@);
    assert(head.objects.last().props =~= linecode_block(m, lc)[0].props);
    lemma_triangle_adds(m, head, lc, id, lc.n_conductors as nat);
    assert(linecode_doc(m, d, lc).objects =~= d.objects + linecode_block(m, lc));
}

proof fn lemma_line_phases_add(
    d: DocV,
    name: Seq<char>,
    id: Seq<char>,
    phases: Seq<Seq<char>>,
    n: nat,
)
    requires
        d.object is None,
        n <= phases.len(),
    ensures
        adds(
            d,
            Seq::new(n, |i: int| line_phase_object(name, id, phases[i], i as nat)),
            line_phases_doc(d, name, id, phases, n),
        ),
    decreases n,
{
    broadcast use group_says;

    let a = line_phases_doc(d, name, id, phases, n);
    if n > 0 {
        lemma_line_phases_add(d, name, id, phases, (n - 1) as nat);
        assert(a.objects.last().props =~= line_phase_object(
            name,
            id,
            phases[n - 1],
            (n - 1) as nat,
        ).props);
    }
    assert(a.objects =~= d.objects + Seq::new(
        n,
        |i: int| line_phase_object(name, id, phases[i], i as nat),
    ));
}

#[verifier::rlimit(40)]
proof fn lemma_line_adds(m: Sem, d: DocV, net: DistNetworkV, line: DistLineV)
    ensures
        adds(d, line_block(m, net, line), line_doc(m, d, net, line)),
{
    broadcast use group_says;

    let id = mrid_of(line.extras, "line"@, line.name);
    let head = d.named("ACLineSegment"@, id, line.name).text(
        "Conductor.length"@,
        (m.show)(line.length),
    );
    let coded = match net.linecode(line.linecode) {
        Some(lc) => head.reference(
            "ACLineSegment.PerLengthImpedance"@,
            mrid_of(lc.extras, "plpi"@, lc.name),
        ),
        None => head.warn(
            "line "@ + line.name + ": linecode `"@ + line.linecode
                + "` is not defined; the segment is written without impedance"@,
        ),
    };
    assert(coded.object->0.props =~= line_block(m, net, line)[0].props);
    let wired = coded.close("ACLineSegment"@).terminal(
        id,
        1,
        node_of(net, line.bus_from),
        phase_code_of(line.terminal_map_from),
    ).terminal(id, 2, node_of(net, line.bus_to), phase_code_of(line.terminal_map_to));
    let phases = phases_n(line.terminal_map_from, line.terminal_map_from.len());
    lemma_line_phases_add(wired, line.name, id, phases, phases.len());
    assert(line_doc(m, d, net, line).objects =~= d.objects + line_block(m, net, line));
}

proof fn lemma_load_phases_add(
    m: Sem,
    d: DocV,
    load: DistLoadV,
    id: Seq<char>,
    phases: Seq<Seq<char>>,
    n: nat,
)
    requires
        d.object is None,
        n <= phases.len(),
    ensures
        adds(
            d,
            Seq::new(n, |i: int| load_phase_object(m, load, id, phases[i], i as nat)),
            load_phases_doc(m, d, load, id, phases, n),
        ),
    decreases n,
{
    broadcast use group_says;

    let a = load_phases_doc(m, d, load, id, phases, n);
    if n > 0 {
        lemma_load_phases_add(m, d, load, id, phases, (n - 1) as nat);
        assert(a.objects.last().props =~= load_phase_object(
            m,
            load,
            id,
            phases[n - 1],
            (n - 1) as nat,
        ).props);
    }
    assert(a.objects =~= d.objects + Seq::new(
        n,
        |i: int| load_phase_object(m, load, id, phases[i], i as nat),
    ));
}

#[verifier::rlimit(40)]
proof fn lemma_load_adds(m: Sem, d: DocV, net: DistNetworkV, load: DistLoadV)
    ensures
        adds(d, load_block(m, net, load), load_doc(m, d, net, load)),
{
    broadcast use group_says;

    let id = mrid_of(load.extras, "load"@, load.name);
    let phases = phases_n(load.terminal_map, load.terminal_map.len());
    let head = d.named("EnergyConsumer"@, id, load.name).enumeration(
        "EnergyConsumer.phaseConnection"@,
        "PhaseShuntConnectionKind."@ + connection_of(load.configuration),
    );
    assert(head.object->0.props =~= load_block(m, net, load)[0].props);
    let wired = head.close("EnergyConsumer"@).terminal(
        id,
        1,
        node_of(net, load.bus),
        phase_code_of(load.terminal_map),
    );
    lemma_load_phases_add(m, wired, load, id, phases, phases.len());
    assert(load_doc(m, d, net, load).objects =~= d.objects + load_block(m, net, load));
}

proof fn lemma_shunt_phases_add(
    m: Sem,
    d: DocV,
    shunt: DistShuntV,
    id: Seq<char>,
    phases: Seq<Seq<char>>,
    n: nat,
)
    requires
        d.object is None,
        n <= phases.len(),
    ensures
        adds(
            d,
            Seq::new(n, |i: int| shunt_phase_object(m, shunt, id, phases[i], i as nat)),
            shunt_phases_doc(m, d, shunt, id, phases, n),
        ),
    decreases n,
{
    broadcast use group_says;

    let a = shunt_phases_doc(m, d, shunt, id, phases, n);
    if n > 0 {
        lemma_shunt_phases_add(m, d, shunt, id, phases, (n - 1) as nat);
        assert(a.objects.last().props =~= shunt_phase_object(
            m,
            shunt,
            id,
            phases[n - 1],
            (n - 1) as nat,
        ).props);
    }
    assert(a.objects =~= d.objects + Seq::new(
        n,
        |i: int| shunt_phase_object(m, shunt, id, phases[i], i as nat),
    ));
}

#[verifier::rlimit(40)]
proof fn lemma_shunt_adds(m: Sem, d: DocV, net: DistNetworkV, shunt: DistShuntV)
    ensures
        adds(d, shunt_block(m, net, shunt), shunt_doc(m, d, net, shunt)),
{
    broadcast use group_says;

    let id = mrid_of(shunt.extras, "shunt"@, shunt.name);
    let phases = phases_n(shunt.terminal_map, shunt.terminal_map.len());
    let wired = d.named("LinearShuntCompensator"@, id, shunt.name).close(
        "LinearShuntCompensator"@,
    ).terminal(id, 1, node_of(net, shunt.bus), phase_code_of(shunt.terminal_map));
    lemma_shunt_phases_add(m, wired, shunt, id, phases, phases.len());
    assert(shunt_doc(m, d, net, shunt).objects =~= d.objects + shunt_block(m, net, shunt));
}

proof fn lemma_switch_adds(d: DocV, net: DistNetworkV, s: DistSwitchV)
    ensures
        adds(d, switch_block(net, s), switch_doc(d, net, s)),
{
    broadcast use group_says;

    let id = mrid_of(s.extras, "switch"@, s.name);
    let head = d.named("LoadBreakSwitch"@, id, s.name).text(
        "Switch.normalOpen"@,
        bool_text(s.open),
    ).text("Switch.open"@, bool_text(s.open));
    assert(head.object->0.props =~= switch_block(net, s)[0].props);
    assert(switch_doc(d, net, s).objects =~= d.objects + switch_block(net, s));
}

#[verifier::rlimit(40)]
proof fn lemma_winding_adds(
    m: Sem,
    d: DocV,
    net: DistNetworkV,
    xf: DistTransformerV,
    id: Seq<char>,
    e: nat,
)
    ensures
        adds(
            d,
            seq![
                terminal_object(
                    id,
                    e + 1,
                    node_of(net, xf.windings[e as int].bus),
                    phase_code_of(xf.windings[e as int].terminal_map),
                ),
                end_object(m, xf, id, e),
            ],
            winding_doc(m, d, net, xf, id, e),
        ),
{
    broadcast use group_says;

    let a = winding_doc(m, d, net, xf, id, e);
    assert(a.objects.last().props =~= end_object(m, xf, id, e).props);
    assert(a.objects =~= d.objects + seq![
        terminal_object(
            id,
            e + 1,
            node_of(net, xf.windings[e as int].bus),
            phase_code_of(xf.windings[e as int].terminal_map),
        ),
        end_object(m, xf, id, e),
    ]);
}

#[verifier::rlimit(40)]
proof fn lemma_transformer_adds(m: Sem, d: DocV, net: DistNetworkV, xf: DistTransformerV)
    requires
        d.object is None,
    ensures
        adds(d, transformer_block(m, net, xf), transformer_doc(m, d, net, xf)),
{
    broadcast use group_says;

    let id = mrid_of(xf.extras, "xf"@, xf.name);
    let a = transformer_doc(m, d, net, xf);
    if xf.windings.len() == 2 {
        let head = d.named("PowerTransformer"@, id, xf.name).close("PowerTransformer"@);
        reveal_with_fuel(windings_doc, 3);
        let one = winding_doc(m, head, net, xf, id, 0);
        lemma_winding_adds(m, head, net, xf, id, 0);
        lemma_winding_adds(m, one, net, xf, id, 1);
        assert(windings_doc(m, head, net, xf, id, 2) == winding_doc(m, one, net, xf, id, 1));
    }
    assert(a.objects =~= d.objects + transformer_block(m, net, xf));
}

proof fn lemma_source_adds(m: Sem, d: DocV, net: DistNetworkV, s: VoltageSourceV)
    ensures
        adds(d, source_block(m, net, s), source_doc(m, d, net, s)),
{
    broadcast use group_says;

    let a = source_doc(m, d, net, s);
    let want = source_block(m, net, s);
    let id = mrid_of(s.extras, "source"@, s.name);
    let v_ln = value_or_zero(s.v_magnitude, 0);
    let v = (m.show)(
        if phases_n(s.terminal_map, s.terminal_map.len()).len() >= 2 {
            m.times(v_ln, m.root3())
        } else {
            v_ln
        },
    );
    let head = d.named("EnergySource"@, id, s.name).text("EnergySource.voltageMagnitude"@, v).text(
        "EnergySource.voltageAngle"@,
        (m.show)(value_or_zero(s.v_angle, 0)),
    ).text("EnergySource.nominalVoltage"@, v);
    assert(head.object->0.props =~= want[0].props);
    assert(a.objects =~= d.objects + want);
}

// ---- the whole document ----------------------------------------------------

/// Blocks of objects, one after another.
pub open spec fn flat(bs: Seq<Seq<CimObjectV>>) -> Seq<CimObjectV>
    decreases bs.len(),
{
    if bs.len() == 0 {
        seq![]
    } else {
        flat(bs.drop_last()) + bs.last()
    }
}

pub proof fn lemma_flat_add(a: Seq<Seq<CimObjectV>>, b: Seq<Seq<CimObjectV>>)
    ensures
        flat(a + b) == flat(a) + flat(b),
    decreases b.len(),
{
    if b.len() == 0 {
        assert(a + b =~= a);
        assert(flat(a) + flat(b) =~= flat(a));
    } else {
        lemma_flat_add(a, b.drop_last());
        assert((a + b).drop_last() =~= a + b.drop_last());
        assert((a + b).last() == b.last());
        assert(flat(a + b) =~= flat(a) + flat(b));
    }
}

pub open spec fn bus_blocks(net: DistNetworkV) -> Seq<Seq<CimObjectV>> {
    Seq::new(net.buses.len(), |i: int| bus_block(net.buses[i]))
}

pub open spec fn linecode_blocks(m: Sem, net: DistNetworkV) -> Seq<Seq<CimObjectV>> {
    Seq::new(net.linecodes.len(), |i: int| linecode_block(m, net.linecodes[i]))
}

pub open spec fn line_blocks(m: Sem, net: DistNetworkV) -> Seq<Seq<CimObjectV>> {
    Seq::new(net.lines.len(), |i: int| line_block(m, net, net.lines[i]))
}

pub open spec fn load_blocks(m: Sem, net: DistNetworkV) -> Seq<Seq<CimObjectV>> {
    Seq::new(net.loads.len(), |i: int| load_block(m, net, net.loads[i]))
}

pub open spec fn shunt_blocks(m: Sem, net: DistNetworkV) -> Seq<Seq<CimObjectV>> {
    Seq::new(net.shunts.len(), |i: int| shunt_block(m, net, net.shunts[i]))
}

pub open spec fn switch_blocks(net: DistNetworkV) -> Seq<Seq<CimObjectV>> {
    Seq::new(net.switches.len(), |i: int| switch_block(net, net.switches[i]))
}

pub open spec fn transformer_blocks(m: Sem, net: DistNetworkV) -> Seq<Seq<CimObjectV>> {
    Seq::new(net.transformers.len(), |i: int| transformer_block(m, net, net.transformers[i]))
}

pub open spec fn source_blocks(m: Sem, net: DistNetworkV) -> Seq<Seq<CimObjectV>> {
    Seq::new(net.sources.len(), |i: int| source_block(m, net, net.sources[i]))
}

/// What is written of a network, element by element.
pub open spec fn blocks_of(m: Sem, net: DistNetworkV) -> Seq<Seq<CimObjectV>> {
    seq![frequency_block(m, net)] + bus_blocks(net) + linecode_blocks(m, net) + line_blocks(m, net)
        + load_blocks(m, net) + shunt_blocks(m, net) + switch_blocks(net) + transformer_blocks(
        m,
        net,
    ) + source_blocks(m, net)
}

/// One block more.
proof fn lemma_flat_push(bs: Seq<Seq<CimObjectV>>, n: nat)
    requires
        n < bs.len(),
    ensures
        flat(bs.take((n + 1) as int)) == flat(bs.take(n as int)) + bs[n as int],
{
    let a = bs.take((n + 1) as int);
    assert(a.drop_last() =~= bs.take(n as int));
    assert(a.last() == bs[n as int]);
}

proof fn lemma_buses_add(d: DocV, net: DistNetworkV, n: nat)
    requires
        d.object is None,
        n <= net.buses.len(),
    ensures
        adds(d, flat(bus_blocks(net).take(n as int)), buses_doc(d, net, n)),
    decreases n,
{
    let bs = bus_blocks(net);
    if n == 0 {
        assert(bs.take(0) =~= seq![]);
        assert(d.objects + flat(bs.take(0)) =~= d.objects);
    } else {
        let b = buses_doc(d, net, (n - 1) as nat);
        lemma_buses_add(d, net, (n - 1) as nat);
        lemma_bus_adds(b, net.buses[n - 1]);
        lemma_flat_push(bs, (n - 1) as nat);
        assert(buses_doc(d, net, n).objects =~= d.objects + flat(bs.take(n as int)));
    }
}

proof fn lemma_linecodes_add(m: Sem, d: DocV, net: DistNetworkV, n: nat)
    requires
        d.object is None,
        n <= net.linecodes.len(),
    ensures
        adds(d, flat(linecode_blocks(m, net).take(n as int)), linecodes_doc(m, d, net, n)),
    decreases n,
{
    let bs = linecode_blocks(m, net);
    if n == 0 {
        assert(bs.take(0) =~= seq![]);
        assert(d.objects + flat(bs.take(0)) =~= d.objects);
    } else {
        let b = linecodes_doc(m, d, net, (n - 1) as nat);
        lemma_linecodes_add(m, d, net, (n - 1) as nat);
        lemma_linecode_adds(m, b, net.linecodes[n - 1]);
        lemma_flat_push(bs, (n - 1) as nat);
        assert(linecodes_doc(m, d, net, n).objects =~= d.objects + flat(bs.take(n as int)));
    }
}

proof fn lemma_lines_add(m: Sem, d: DocV, net: DistNetworkV, n: nat)
    requires
        d.object is None,
        n <= net.lines.len(),
    ensures
        adds(d, flat(line_blocks(m, net).take(n as int)), lines_doc(m, d, net, n)),
    decreases n,
{
    let bs = line_blocks(m, net);
    if n == 0 {
        assert(bs.take(0) =~= seq![]);
        assert(d.objects + flat(bs.take(0)) =~= d.objects);
    } else {
        let b = lines_doc(m, d, net, (n - 1) as nat);
        lemma_lines_add(m, d, net, (n - 1) as nat);
        lemma_line_adds(m, b, net, net.lines[n - 1]);
        lemma_flat_push(bs, (n - 1) as nat);
        assert(lines_doc(m, d, net, n).objects =~= d.objects + flat(bs.take(n as int)));
    }
}

proof fn lemma_loads_add(m: Sem, d: DocV, net: DistNetworkV, n: nat)
    requires
        d.object is None,
        n <= net.loads.len(),
    ensures
        adds(d, flat(load_blocks(m, net).take(n as int)), loads_doc(m, d, net, n)),
    decreases n,
{
    let bs = load_blocks(m, net);
    if n == 0 {
        assert(bs.take(0) =~= seq![]);
        assert(d.objects + flat(bs.take(0)) =~= d.objects);
    } else {
        let b = loads_doc(m, d, net, (n - 1) as nat);
        lemma_loads_add(m, d, net, (n - 1) as nat);
        lemma_load_adds(m, b, net, net.loads[n - 1]);
        lemma_flat_push(bs, (n - 1) as nat);
        assert(loads_doc(m, d, net, n).objects =~= d.objects + flat(bs.take(n as int)));
    }
}

proof fn lemma_shunts_add(m: Sem, d: DocV, net: DistNetworkV, n: nat)
    requires
        d.object is None,
        n <= net.shunts.len(),
    ensures
        adds(d, flat(shunt_blocks(m, net).take(n as int)), shunts_doc(m, d, net, n)),
    decreases n,
{
    let bs = shunt_blocks(m, net);
    if n == 0 {
        assert(bs.take(0) =~= seq![]);
        assert(d.objects + flat(bs.take(0)) =~= d.objects);
    } else {
        let b = shunts_doc(m, d, net, (n - 1) as nat);
        lemma_shunts_add(m, d, net, (n - 1) as nat);
        lemma_shunt_adds(m, b, net, net.shunts[n - 1]);
        lemma_flat_push(bs, (n - 1) as nat);
        assert(shunts_doc(m, d, net, n).objects =~= d.objects + flat(bs.take(n as int)));
    }
}

proof fn lemma_switches_add(d: DocV, net: DistNetworkV, n: nat)
    requires
        d.object is None,
        n <= net.switches.len(),
    ensures
        adds(d, flat(switch_blocks(net).take(n as int)), switches_doc(d, net, n)),
    decreases n,
{
    let bs = switch_blocks(net);
    if n == 0 {
        assert(bs.take(0) =~= seq![]);
        assert(d.objects + flat(bs.take(0)) =~= d.objects);
    } else {
        let b = switches_doc(d, net, (n - 1) as nat);
        lemma_switches_add(d, net, (n - 1) as nat);
        lemma_switch_adds(b, net, net.switches[n - 1]);
        lemma_flat_push(bs, (n - 1) as nat);
        assert(switches_doc(d, net, n).objects =~= d.objects + flat(bs.take(n as int)));
    }
}

proof fn lemma_transformers_add(m: Sem, d: DocV, net: DistNetworkV, n: nat)
    requires
        d.object is None,
        n <= net.transformers.len(),
    ensures
        adds(d, flat(transformer_blocks(m, net).take(n as int)), transformers_doc(m, d, net, n)),
    decreases n,
{
    let bs = transformer_blocks(m, net);
    if n == 0 {
        assert(bs.take(0) =~= seq![]);
        assert(d.objects + flat(bs.take(0)) =~= d.objects);
    } else {
        let b = transformers_doc(m, d, net, (n - 1) as nat);
        lemma_transformers_add(m, d, net, (n - 1) as nat);
        lemma_transformer_adds(m, b, net, net.transformers[n - 1]);
        lemma_flat_push(bs, (n - 1) as nat);
        assert(transformers_doc(m, d, net, n).objects =~= d.objects + flat(bs.take(n as int)));
    }
}

proof fn lemma_sources_add(m: Sem, d: DocV, net: DistNetworkV, n: nat)
    requires
        d.object is None,
        n <= net.sources.len(),
    ensures
        adds(d, flat(source_blocks(m, net).take(n as int)), sources_doc(m, d, net, n)),
    decreases n,
{
    let bs = source_blocks(m, net);
    if n == 0 {
        assert(bs.take(0) =~= seq![]);
        assert(d.objects + flat(bs.take(0)) =~= d.objects);
    } else {
        let b = sources_doc(m, d, net, (n - 1) as nat);
        lemma_sources_add(m, d, net, (n - 1) as nat);
        lemma_source_adds(m, b, net, net.sources[n - 1]);
        lemma_flat_push(bs, (n - 1) as nat);
        assert(sources_doc(m, d, net, n).objects =~= d.objects + flat(bs.take(n as int)));
    }
}

proof fn lemma_stage(
    d: DocV,
    prior: Seq<Seq<CimObjectV>>,
    bs: Seq<Seq<CimObjectV>>,
    n: nat,
    a: DocV,
)
    requires
        d.objects == flat(prior),
        n == bs.len(),
        adds(d, flat(bs.take(n as int)), a),
    ensures
        a.objects == flat(prior + bs),
        a.object is None,
{
    assert(bs.take(n as int) =~= bs);
    lemma_flat_add(prior, bs);
}

proof fn lemma_dropped(d: DocV, what: Seq<char>, n: nat)
    ensures
        dropped_doc(d, what, n).objects == d.objects,
{
    broadcast use group_says;

}

proof fn lemma_first_stage(m: Sem, net: DistNetworkV)
    ensures
        ({
            let d0 = DocV { body: seq![], warnings: seq![], objects: seq![], object: None };
            let d1 = frequency_doc(m, d0, net);
            d1.objects == flat(seq![frequency_block(m, net)]) && d1.object is None
        }),
{
    let d0 = DocV { body: seq![], warnings: seq![], objects: seq![], object: None };
    lemma_frequency_adds(m, d0, net);
    let f = seq![frequency_block(m, net)];
    assert(f.drop_last() =~= seq![]);
    assert(f.last() == frequency_block(m, net));
    assert(flat(f.drop_last()) =~= seq![]);
    assert(flat(f) =~= frequency_block(m, net));
    assert(frequency_doc(m, d0, net).objects =~= flat(f));
}

/// A document holds what is written of each element, in order.
#[verifier::rlimit(40)]
pub proof fn lemma_document_is_its_blocks(m: Sem, net: DistNetworkV)
    ensures
        network_doc(m, net).objects == flat(blocks_of(m, net)),
{
    let d0 = DocV { body: seq![], warnings: seq![], objects: seq![], object: None };
    lemma_first_stage(m, net);
    let d1 = frequency_doc(m, d0, net);
    let a1 = seq![frequency_block(m, net)];
    lemma_buses_add(d1, net, net.buses.len());
    let d2 = buses_doc(d1, net, net.buses.len());
    let a2 = a1 + bus_blocks(net);
    lemma_stage(d1, a1, bus_blocks(net), net.buses.len(), d2);
    lemma_linecodes_add(m, d2, net, net.linecodes.len());
    let d3 = linecodes_doc(m, d2, net, net.linecodes.len());
    let a3 = a2 + linecode_blocks(m, net);
    lemma_stage(d2, a2, linecode_blocks(m, net), net.linecodes.len(), d3);
    lemma_lines_add(m, d3, net, net.lines.len());
    let d4 = lines_doc(m, d3, net, net.lines.len());
    let a4 = a3 + line_blocks(m, net);
    lemma_stage(d3, a3, line_blocks(m, net), net.lines.len(), d4);
    lemma_loads_add(m, d4, net, net.loads.len());
    let d5 = loads_doc(m, d4, net, net.loads.len());
    let a5 = a4 + load_blocks(m, net);
    lemma_stage(d4, a4, load_blocks(m, net), net.loads.len(), d5);
    lemma_shunts_add(m, d5, net, net.shunts.len());
    let d6 = shunts_doc(m, d5, net, net.shunts.len());
    let a6 = a5 + shunt_blocks(m, net);
    lemma_stage(d5, a5, shunt_blocks(m, net), net.shunts.len(), d6);
    lemma_switches_add(d6, net, net.switches.len());
    let d7 = switches_doc(d6, net, net.switches.len());
    let a7 = a6 + switch_blocks(net);
    lemma_stage(d6, a6, switch_blocks(net), net.switches.len(), d7);
    lemma_transformers_add(m, d7, net, net.transformers.len());
    let d8 = transformers_doc(m, d7, net, net.transformers.len());
    let a8 = a7 + transformer_blocks(m, net);
    lemma_stage(d7, a7, transformer_blocks(m, net), net.transformers.len(), d8);
    lemma_sources_add(m, d8, net, net.sources.len());
    let d9 = sources_doc(m, d8, net, net.sources.len());
    lemma_stage(d8, a8, source_blocks(m, net), net.sources.len(), d9);
    lemma_dropped(d9, "generator"@, net.generators.len());
    let e1 = dropped_doc(d9, "generator"@, net.generators.len());
    lemma_dropped(e1, "inverter-based resource"@, net.ibrs.len());
    let e2 = dropped_doc(e1, "inverter-based resource"@, net.ibrs.len());
    lemma_dropped(e2, "control profile"@, net.control_profiles.len());
    let e3 = dropped_doc(e2, "control profile"@, net.control_profiles.len());
    lemma_dropped(e3, "untyped object"@, net.untyped.len());
}

// ---- asking a store --------------------------------------------------------

/// The identifiers of a class among objects.
pub open spec fn class_ids(objects: Seq<CimObjectV>, class: Seq<char>) -> Seq<Seq<char>> {
    of_class_n(objects, class, objects.len())
}

proof fn lemma_of_class_prefix(a: Seq<CimObjectV>, b: Seq<CimObjectV>, class: Seq<char>, n: nat)
    requires
        n <= a.len(),
        n <= b.len(),
        forall|i: int| 0 <= i < n ==> a[i] == b[i],
    ensures
        of_class_n(a, class, n) == of_class_n(b, class, n),
    decreases n,
{
    if n > 0 {
        lemma_of_class_prefix(a, b, class, (n - 1) as nat);
    }
}

pub proof fn lemma_class_ids_add(a: Seq<CimObjectV>, b: Seq<CimObjectV>, class: Seq<char>)
    ensures
        class_ids(a + b, class) == class_ids(a, class) + class_ids(b, class),
    decreases b.len(),
{
    if b.len() == 0 {
        assert(a + b =~= a);
        assert(class_ids(a, class) + class_ids(b, class) =~= class_ids(a, class));
    } else {
        let c = b.drop_last();
        lemma_class_ids_add(a, c, class);
        let n = (a + b).len();
        lemma_of_class_prefix(a + b, a + c, class, (n - 1) as nat);
        lemma_of_class_prefix(b, c, class, (b.len() - 1) as nat);
        assert((a + b)[n - 1] == b[b.len() - 1]);
        assert(class_ids(a + b, class) =~= class_ids(a, class) + class_ids(b, class));
    }
}

/// Objects among which a class does not occur.
pub open spec fn lacks_class(objects: Seq<CimObjectV>, class: Seq<char>) -> bool {
    forall|i: int| 0 <= i < objects.len() ==> (#[trigger] objects[i]).class != class
}

pub proof fn lemma_class_ids_none(objects: Seq<CimObjectV>, class: Seq<char>, n: nat)
    requires
        n <= objects.len(),
        lacks_class(objects, class),
    ensures
        of_class_n(objects, class, n) == Seq::<Seq<char>>::empty(),
    decreases n,
{
    if n > 0 {
        lemma_class_ids_none(objects, class, (n - 1) as nat);
        assert(objects[n - 1].class != class);
    }
}

/// Each identifier of a class is that of an object of the class.
pub proof fn lemma_class_ids_from(objects: Seq<CimObjectV>, class: Seq<char>, n: nat, k: int)
    requires
        n <= objects.len(),
        0 <= k < of_class_n(objects, class, n).len(),
    ensures
        exists|i: int|
            0 <= i < n && (#[trigger] objects[i]).class == class && objects[i].id == of_class_n(
                objects,
                class,
                n,
            )[k],
    decreases n,
{
    if n > 0 {
        let before = of_class_n(objects, class, (n - 1) as nat);
        if k < before.len() {
            lemma_class_ids_from(objects, class, (n - 1) as nat, k);
            let i = choose|i: int|
                0 <= i < n - 1 && (#[trigger] objects[i]).class == class && objects[i].id
                    == before[k];
            assert(objects[i].id == of_class_n(objects, class, n)[k]);
        } else {
            assert(objects[n - 1].class == class);
        }
    }
}

/// An object is found by its identifier.
pub proof fn lemma_found(objects: Seq<CimObjectV>, k: int, i: int)
    requires
        distinct_ids(objects),
        0 <= i <= k < objects.len(),
    ensures
        index_from(objects, objects[k].id, i) == Some(k),
    decreases k - i,
{
    if i < k {
        assert(objects[i].id != objects[k].id);
        lemma_found(objects, k, i + 1);
    }
}

/// What a store says of the object at `k`.
pub proof fn lemma_says(s: StoreV, k: int)
    requires
        distinct_ids(s.objects),
        0 <= k < s.objects.len(),
    ensures
        s.class_of(s.objects[k].id) == Some(s.objects[k].class),
        forall|key: Seq<char>|
            #[trigger] s.prop(s.objects[k].id, key) == prop_from(s.objects[k].props, key, 0),
{
    reveal(StoreV::class_of);
    reveal(StoreV::prop);
    lemma_found(s.objects, k, 0);
}

proof fn lemma_merge_distinct_objects(objects: Seq<CimObjectV>, n: nat)
    requires
        distinct_ids(objects),
        n <= objects.len(),
    ensures
        merge_n(seq![], objects, n) == objects.take(n as int),
    decreases n,
{
    if n == 0 {
        assert(objects.take(0) =~= seq![]);
    } else {
        lemma_merge_distinct_objects(objects, (n - 1) as nat);
        let before = objects.take(n - 1);
        let o = objects[n - 1];
        assert(index_from(before, o.id, 0) is None) by {
            lemma_absent(before, o.id, 0, objects, (n - 1) as nat);
        }
        assert(before.push(o) =~= objects.take(n as int));
        assert(o.id.len() > 0);
    }
}

proof fn lemma_absent(
    before: Seq<CimObjectV>,
    id: Seq<char>,
    i: int,
    objects: Seq<CimObjectV>,
    n: nat,
)
    requires
        distinct_ids(objects),
        n < objects.len(),
        before == objects.take(n as int),
        id == objects[n as int].id,
        0 <= i <= before.len(),
    ensures
        index_from(before, id, i) is None,
    decreases before.len() - i,
{
    if i < before.len() {
        assert(before[i] == objects[i]);
        assert(objects[i].id != objects[n as int].id);
        lemma_absent(before, id, i + 1, objects, n);
    }
}

/// Objects with identifiers of their own merge to themselves.
pub proof fn lemma_merged(objects: Seq<CimObjectV>)
    requires
        distinct_ids(objects),
    ensures
        merge_n(seq![], objects, objects.len()) == objects,
{
    lemma_merge_distinct_objects(objects, objects.len());
    assert(objects.take(objects.len() as int) =~= objects);
}

} // verus!
