//! The multiconductor network: every element in wire coordinates, with the
//! terminals it connects named at each bus.

use std::sync::Arc;

use vstd::prelude::*;

use crate::json::{Entries, JsonMap};
use crate::math::{Bits, ONE, SIXTY, ZERO};
use crate::text::{group_views, lower_of, opt_view, same_ignoring_case, views};

verus! {

/// A matrix of numbers, row by row.
pub type Mat = Vec<Vec<Bits>>;

pub type MatV = Seq<Seq<Bits>>;

/// What an element carries besides its typed fields, by name.
pub type Extras = JsonMap;

/// How a load or generator connects its phases.
#[derive(Clone, Copy, PartialEq, Eq, Structural, Debug)]
pub enum Configuration {
    Wye,
    Delta,
    SinglePhase,
}

/// How a transformer winding connects its phases.
#[derive(Clone, Copy, PartialEq, Eq, Structural, Debug)]
pub enum WindingConn {
    Wye,
    Delta,
}

/// What drives an inverter-based resource.
#[derive(Clone, Copy, PartialEq, Eq, Structural, Debug)]
pub enum IbrPrimeMover {
    Pv,
    Battery,
    Generic,
}

/// The legs of an inverter.
#[derive(Clone, Copy, PartialEq, Eq, Structural, Debug)]
pub enum IbrTopology {
    SinglePhase,
    ThreeLeg,
}

/// The format a network was read from, where that format can be written back.
#[derive(Clone, Copy, PartialEq, Eq, Structural, Debug)]
pub enum DistSourceFormat {
    Cim,
    RavensJson,
}

/// A position on the map.
pub struct Location {
    pub x: Bits,
    pub y: Bits,
    pub kind: Option<String>,
}

#[verifier::ext_equal]
pub struct LocationV {
    pub x: Bits,
    pub y: Bits,
    pub kind: Option<Seq<char>>,
}

impl View for Location {
    type V = LocationV;

    open spec fn view(&self) -> LocationV {
        LocationV {
            x: self.x,
            y: self.y,
            kind: opt_view(self.kind),
        }
    }
}

/// A bus and the terminals its elements connect to.
pub struct DistBus {
    pub id: String,
    pub terminals: Vec<String>,
    /// The terminals that are perfectly grounded.
    pub grounded: Vec<String>,
    pub v_min: Option<Bits>,
    pub v_max: Option<Bits>,
    pub vpn_min: Option<Bits>,
    pub vpn_max: Option<Bits>,
    pub vpp_min: Option<Bits>,
    pub vpp_max: Option<Bits>,
    pub vsym_min: Option<Bits>,
    pub vsym_max: Option<Bits>,
    pub location: Option<Location>,
    pub extras: Extras,
}

#[verifier::ext_equal]
pub struct DistBusV {
    pub id: Seq<char>,
    pub terminals: Seq<Seq<char>>,
    pub grounded: Seq<Seq<char>>,
    pub v_min: Option<Bits>,
    pub v_max: Option<Bits>,
    pub vpn_min: Option<Bits>,
    pub vpn_max: Option<Bits>,
    pub vpp_min: Option<Bits>,
    pub vpp_max: Option<Bits>,
    pub vsym_min: Option<Bits>,
    pub vsym_max: Option<Bits>,
    pub location: Option<LocationV>,
    pub extras: Entries,
}

impl View for DistBus {
    type V = DistBusV;

    open spec fn view(&self) -> DistBusV {
        DistBusV {
            id: self.id@,
            terminals: views(self.terminals@),
            grounded: views(self.grounded@),
            v_min: self.v_min,
            v_max: self.v_max,
            vpn_min: self.vpn_min,
            vpn_max: self.vpn_max,
            vpp_min: self.vpp_min,
            vpp_max: self.vpp_max,
            vsym_min: self.vsym_min,
            vsym_max: self.vsym_max,
            location: opt_view(self.location),
            extras: self.extras@,
        }
    }
}

/// Impedance per metre that lines share.
pub struct DistLineCode {
    pub name: String,
    pub n_conductors: usize,
    pub r_series: Mat,
    pub x_series: Mat,
    pub g_from: Mat,
    pub b_from: Mat,
    pub g_to: Mat,
    pub b_to: Mat,
    pub i_max: Option<Vec<Bits>>,
    pub s_max: Option<Vec<Bits>>,
    pub extras: Extras,
}

#[verifier::ext_equal]
pub struct DistLineCodeV {
    pub name: Seq<char>,
    pub n_conductors: usize,
    pub r_series: MatV,
    pub x_series: MatV,
    pub g_from: MatV,
    pub b_from: MatV,
    pub g_to: MatV,
    pub b_to: MatV,
    pub i_max: Option<Seq<Bits>>,
    pub s_max: Option<Seq<Bits>>,
    pub extras: Entries,
}

impl View for DistLineCode {
    type V = DistLineCodeV;

    open spec fn view(&self) -> DistLineCodeV {
        DistLineCodeV {
            name: self.name@,
            n_conductors: self.n_conductors,
            r_series: views(self.r_series@),
            x_series: views(self.x_series@),
            g_from: views(self.g_from@),
            b_from: views(self.b_from@),
            g_to: views(self.g_to@),
            b_to: views(self.b_to@),
            i_max: opt_view(self.i_max),
            s_max: opt_view(self.s_max),
            extras: self.extras@,
        }
    }
}

/// A line of some length, in metres, with the impedance of a line code.
pub struct DistLine {
    pub name: String,
    pub bus_from: String,
    pub bus_to: String,
    pub terminal_map_from: Vec<String>,
    pub terminal_map_to: Vec<String>,
    pub linecode: String,
    pub length: Bits,
    pub extras: Extras,
}

#[verifier::ext_equal]
pub struct DistLineV {
    pub name: Seq<char>,
    pub bus_from: Seq<char>,
    pub bus_to: Seq<char>,
    pub terminal_map_from: Seq<Seq<char>>,
    pub terminal_map_to: Seq<Seq<char>>,
    pub linecode: Seq<char>,
    pub length: Bits,
    pub extras: Entries,
}

impl View for DistLine {
    type V = DistLineV;

    open spec fn view(&self) -> DistLineV {
        DistLineV {
            name: self.name@,
            bus_from: self.bus_from@,
            bus_to: self.bus_to@,
            terminal_map_from: views(self.terminal_map_from@),
            terminal_map_to: views(self.terminal_map_to@),
            linecode: self.linecode@,
            length: self.length,
            extras: self.extras@,
        }
    }
}

/// A switch between two buses.
pub struct DistSwitch {
    pub name: String,
    pub bus_from: String,
    pub bus_to: String,
    pub terminal_map_from: Vec<String>,
    pub terminal_map_to: Vec<String>,
    pub open: bool,
    pub i_max: Option<Vec<Bits>>,
    pub extras: Extras,
}

#[verifier::ext_equal]
pub struct DistSwitchV {
    pub name: Seq<char>,
    pub bus_from: Seq<char>,
    pub bus_to: Seq<char>,
    pub terminal_map_from: Seq<Seq<char>>,
    pub terminal_map_to: Seq<Seq<char>>,
    pub open: bool,
    pub i_max: Option<Seq<Bits>>,
    pub extras: Entries,
}

impl View for DistSwitch {
    type V = DistSwitchV;

    open spec fn view(&self) -> DistSwitchV {
        DistSwitchV {
            name: self.name@,
            bus_from: self.bus_from@,
            bus_to: self.bus_to@,
            terminal_map_from: views(self.terminal_map_from@),
            terminal_map_to: views(self.terminal_map_to@),
            open: self.open,
            i_max: opt_view(self.i_max),
            extras: self.extras@,
        }
    }
}

/// How a load depends on its voltage.
pub enum DistLoadVoltageModel {
    ConstantPower { v_nom: Vec<Bits> },
    ConstantCurrent { v_nom: Vec<Bits> },
    ConstantImpedance { v_nom: Vec<Bits> },
    Zip {
        v_nom: Vec<Bits>,
        alpha_z: Vec<Bits>,
        alpha_i: Vec<Bits>,
        alpha_p: Vec<Bits>,
        beta_z: Vec<Bits>,
        beta_i: Vec<Bits>,
        beta_p: Vec<Bits>,
    },
    Exponential { v_nom: Vec<Bits>, gamma_p: Vec<Bits>, gamma_q: Vec<Bits> },
}

#[verifier::ext_equal]
pub enum DistLoadVoltageModelV {
    ConstantPower { v_nom: Seq<Bits> },
    ConstantCurrent { v_nom: Seq<Bits> },
    ConstantImpedance { v_nom: Seq<Bits> },
    Zip {
        v_nom: Seq<Bits>,
        alpha_z: Seq<Bits>,
        alpha_i: Seq<Bits>,
        alpha_p: Seq<Bits>,
        beta_z: Seq<Bits>,
        beta_i: Seq<Bits>,
        beta_p: Seq<Bits>,
    },
    Exponential { v_nom: Seq<Bits>, gamma_p: Seq<Bits>, gamma_q: Seq<Bits> },
}

impl View for DistLoadVoltageModel {
    type V = DistLoadVoltageModelV;

    open spec fn view(&self) -> DistLoadVoltageModelV {
        match *self {
            DistLoadVoltageModel::ConstantPower { v_nom } => DistLoadVoltageModelV::ConstantPower {
                v_nom: v_nom@,
            },
            DistLoadVoltageModel::ConstantCurrent { v_nom } => DistLoadVoltageModelV::ConstantCurrent {
                v_nom: v_nom@,
            },
            DistLoadVoltageModel::ConstantImpedance { v_nom } => DistLoadVoltageModelV::ConstantImpedance {
                v_nom: v_nom@,
            },
            DistLoadVoltageModel::Zip {
                v_nom,
                alpha_z,
                alpha_i,
                alpha_p,
                beta_z,
                beta_i,
                beta_p,
            } => DistLoadVoltageModelV::Zip {
                v_nom: v_nom@,
                alpha_z: alpha_z@,
                alpha_i: alpha_i@,
                alpha_p: alpha_p@,
                beta_z: beta_z@,
                beta_i: beta_i@,
                beta_p: beta_p@,
            },
            DistLoadVoltageModel::Exponential { v_nom, gamma_p, gamma_q } => {
                DistLoadVoltageModelV::Exponential {
                    v_nom: v_nom@,
                    gamma_p: gamma_p@,
                    gamma_q: gamma_q@,
                }
            },
        }
    }
}

/// A load: nominal watts and vars per phase.
pub struct DistLoad {
    pub name: String,
    pub bus: String,
    pub terminal_map: Vec<String>,
    pub configuration: Configuration,
    pub p_nom: Vec<Bits>,
    pub q_nom: Vec<Bits>,
    pub voltage_model: DistLoadVoltageModel,
    pub extras: Extras,
}

#[verifier::ext_equal]
pub struct DistLoadV {
    pub name: Seq<char>,
    pub bus: Seq<char>,
    pub terminal_map: Seq<Seq<char>>,
    pub configuration: Configuration,
    pub p_nom: Seq<Bits>,
    pub q_nom: Seq<Bits>,
    pub voltage_model: DistLoadVoltageModelV,
    pub extras: Entries,
}

impl View for DistLoad {
    type V = DistLoadV;

    open spec fn view(&self) -> DistLoadV {
        DistLoadV {
            name: self.name@,
            bus: self.bus@,
            terminal_map: views(self.terminal_map@),
            configuration: self.configuration,
            p_nom: self.p_nom@,
            q_nom: self.q_nom@,
            voltage_model: self.voltage_model@,
            extras: self.extras@,
        }
    }
}

/// A shunt: siemens between its terminals and ground.
pub struct DistShunt {
    pub name: String,
    pub bus: String,
    pub terminal_map: Vec<String>,
    pub g: Mat,
    pub b: Mat,
    pub extras: Extras,
}

#[verifier::ext_equal]
pub struct DistShuntV {
    pub name: Seq<char>,
    pub bus: Seq<char>,
    pub terminal_map: Seq<Seq<char>>,
    pub g: MatV,
    pub b: MatV,
    pub extras: Entries,
}

impl View for DistShunt {
    type V = DistShuntV;

    open spec fn view(&self) -> DistShuntV {
        DistShuntV {
            name: self.name@,
            bus: self.bus@,
            terminal_map: views(self.terminal_map@),
            g: views(self.g@),
            b: views(self.b@),
            extras: self.extras@,
        }
    }
}

/// One winding of a transformer.
pub struct Winding {
    pub bus: String,
    pub terminal_map: Vec<String>,
    pub conn: WindingConn,
    pub v_ref: Bits,
    pub s_rating: Bits,
    pub r_pct: Bits,
    pub tap: Bits,
    pub r_neutral: Option<Bits>,
    pub x_neutral: Option<Bits>,
}

#[verifier::ext_equal]
pub struct WindingV {
    pub bus: Seq<char>,
    pub terminal_map: Seq<Seq<char>>,
    pub conn: WindingConn,
    pub v_ref: Bits,
    pub s_rating: Bits,
    pub r_pct: Bits,
    pub tap: Bits,
    pub r_neutral: Option<Bits>,
    pub x_neutral: Option<Bits>,
}

impl View for Winding {
    type V = WindingV;

    open spec fn view(&self) -> WindingV {
        WindingV {
            bus: self.bus@,
            terminal_map: views(self.terminal_map@),
            conn: self.conn,
            v_ref: self.v_ref,
            s_rating: self.s_rating,
            r_pct: self.r_pct,
            tap: self.tap,
            r_neutral: self.r_neutral,
            x_neutral: self.x_neutral,
        }
    }
}

/// A transformer: its windings and the reactance between each pair.
pub struct DistTransformer {
    pub name: String,
    pub windings: Vec<Winding>,
    pub xsc_pct: Vec<Bits>,
    pub phases: usize,
    pub extras: Extras,
}

#[verifier::ext_equal]
pub struct DistTransformerV {
    pub name: Seq<char>,
    pub windings: Seq<WindingV>,
    pub xsc_pct: Seq<Bits>,
    pub phases: usize,
    pub extras: Entries,
}

impl View for DistTransformer {
    type V = DistTransformerV;

    open spec fn view(&self) -> DistTransformerV {
        DistTransformerV {
            name: self.name@,
            windings: views(self.windings@),
            xsc_pct: self.xsc_pct@,
            phases: self.phases,
            extras: self.extras@,
        }
    }
}

/// An ideal source: line-to-neutral volts and radians per phase.
pub struct VoltageSource {
    pub name: String,
    pub bus: String,
    pub terminal_map: Vec<String>,
    pub v_magnitude: Vec<Bits>,
    pub v_angle: Vec<Bits>,
    pub extras: Extras,
}

#[verifier::ext_equal]
pub struct VoltageSourceV {
    pub name: Seq<char>,
    pub bus: Seq<char>,
    pub terminal_map: Seq<Seq<char>>,
    pub v_magnitude: Seq<Bits>,
    pub v_angle: Seq<Bits>,
    pub extras: Entries,
}

impl View for VoltageSource {
    type V = VoltageSourceV;

    open spec fn view(&self) -> VoltageSourceV {
        VoltageSourceV {
            name: self.name@,
            bus: self.bus@,
            terminal_map: views(self.terminal_map@),
            v_magnitude: self.v_magnitude@,
            v_angle: self.v_angle@,
            extras: self.extras@,
        }
    }
}

/// A generator: watts and vars per phase.
pub struct DistGenerator {
    pub name: String,
    pub bus: String,
    pub terminal_map: Vec<String>,
    pub configuration: Configuration,
    pub p_nom: Vec<Bits>,
    pub q_nom: Vec<Bits>,
    pub p_min: Option<Vec<Bits>>,
    pub p_max: Option<Vec<Bits>>,
    pub q_min: Option<Vec<Bits>>,
    pub q_max: Option<Vec<Bits>>,
    pub cost: Option<Bits>,
    pub extras: Extras,
}

#[verifier::ext_equal]
pub struct DistGeneratorV {
    pub name: Seq<char>,
    pub bus: Seq<char>,
    pub terminal_map: Seq<Seq<char>>,
    pub configuration: Configuration,
    pub p_nom: Seq<Bits>,
    pub q_nom: Seq<Bits>,
    pub p_min: Option<Seq<Bits>>,
    pub p_max: Option<Seq<Bits>>,
    pub q_min: Option<Seq<Bits>>,
    pub q_max: Option<Seq<Bits>>,
    pub cost: Option<Bits>,
    pub extras: Entries,
}

impl View for DistGenerator {
    type V = DistGeneratorV;

    open spec fn view(&self) -> DistGeneratorV {
        DistGeneratorV {
            name: self.name@,
            bus: self.bus@,
            terminal_map: views(self.terminal_map@),
            configuration: self.configuration,
            p_nom: self.p_nom@,
            q_nom: self.q_nom@,
            p_min: opt_view(self.p_min),
            p_max: opt_view(self.p_max),
            q_min: opt_view(self.q_min),
            q_max: opt_view(self.q_max),
            cost: self.cost,
            extras: self.extras@,
        }
    }
}

/// An inverter-based resource.
pub struct DistIbr {
    pub name: String,
    pub bus: String,
    pub terminal_map: Vec<String>,
    pub topology: IbrTopology,
    pub prime_mover: IbrPrimeMover,
    pub s_max: Vec<Bits>,
    pub p_avail: Option<Bits>,
    pub p_min: Option<Vec<Bits>>,
    pub p_max: Option<Vec<Bits>>,
    pub q_min: Option<Vec<Bits>>,
    pub q_max: Option<Vec<Bits>>,
    pub i_max: Option<Vec<Bits>>,
    pub control_profile: Option<String>,
    pub voltage_aggregation: Option<String>,
    pub extras: Extras,
}

#[verifier::ext_equal]
pub struct DistIbrV {
    pub name: Seq<char>,
    pub bus: Seq<char>,
    pub terminal_map: Seq<Seq<char>>,
    pub topology: IbrTopology,
    pub prime_mover: IbrPrimeMover,
    pub s_max: Seq<Bits>,
    pub p_avail: Option<Bits>,
    pub p_min: Option<Seq<Bits>>,
    pub p_max: Option<Seq<Bits>>,
    pub q_min: Option<Seq<Bits>>,
    pub q_max: Option<Seq<Bits>>,
    pub i_max: Option<Seq<Bits>>,
    pub control_profile: Option<Seq<char>>,
    pub voltage_aggregation: Option<Seq<char>>,
    pub extras: Entries,
}

impl View for DistIbr {
    type V = DistIbrV;

    open spec fn view(&self) -> DistIbrV {
        DistIbrV {
            name: self.name@,
            bus: self.bus@,
            terminal_map: views(self.terminal_map@),
            topology: self.topology,
            prime_mover: self.prime_mover,
            s_max: self.s_max@,
            p_avail: self.p_avail,
            p_min: opt_view(self.p_min),
            p_max: opt_view(self.p_max),
            q_min: opt_view(self.q_min),
            q_max: opt_view(self.q_max),
            i_max: opt_view(self.i_max),
            control_profile: opt_view(self.control_profile),
            voltage_aggregation: opt_view(self.voltage_aggregation),
            extras: self.extras@,
        }
    }
}

/// An inverter control curve.
pub struct ControlProfile {
    pub name: String,
    pub extras: Extras,
}

#[verifier::ext_equal]
pub struct ControlProfileV {
    pub name: Seq<char>,
    pub extras: Entries,
}

impl View for ControlProfile {
    type V = ControlProfileV;

    open spec fn view(&self) -> ControlProfileV {
        ControlProfileV {
            name: self.name@,
            extras: self.extras@,
        }
    }
}

/// A property of an untyped object; a positional one has no key.
pub struct Prop {
    pub key: Option<String>,
    pub value: String,
}

#[verifier::ext_equal]
pub struct PropV {
    pub key: Option<Seq<char>>,
    pub value: Seq<char>,
}

impl View for Prop {
    type V = PropV;

    open spec fn view(&self) -> PropV {
        PropV {
            key: opt_view(self.key),
            value: self.value@,
        }
    }
}

/// An object that no typed element stands for.
pub struct UntypedObject {
    pub class: String,
    pub name: String,
    pub props: Vec<Prop>,
}

#[verifier::ext_equal]
pub struct UntypedObjectV {
    pub class: Seq<char>,
    pub name: Seq<char>,
    pub props: Seq<PropV>,
}

impl View for UntypedObject {
    type V = UntypedObjectV;

    open spec fn view(&self) -> UntypedObjectV {
        UntypedObjectV {
            class: self.class@,
            name: self.name@,
            props: views(self.props@),
        }
    }
}

/// The fields of one element that were filled in by default.
pub struct Defaulted {
    pub element: String,
    pub fields: Vec<String>,
}

#[verifier::ext_equal]
pub struct DefaultedV {
    pub element: Seq<char>,
    pub fields: Seq<Seq<char>>,
}

impl View for Defaulted {
    type V = DefaultedV;

    open spec fn view(&self) -> DefaultedV {
        DefaultedV {
            element: self.element@,
            fields: views(self.fields@),
        }
    }
}

/// A distribution network.
pub struct DistNetwork {
    pub name: Option<String>,
    pub base_frequency: Bits,
    pub buses: Vec<DistBus>,
    pub linecodes: Vec<DistLineCode>,
    pub lines: Vec<DistLine>,
    pub switches: Vec<DistSwitch>,
    pub transformers: Vec<DistTransformer>,
    pub loads: Vec<DistLoad>,
    pub generators: Vec<DistGenerator>,
    pub ibrs: Vec<DistIbr>,
    pub shunts: Vec<DistShunt>,
    pub sources: Vec<VoltageSource>,
    pub control_profiles: Vec<ControlProfile>,
    pub untyped: Vec<UntypedObject>,
    /// What the reader could not carry, in the order it found it.
    pub warnings: Vec<String>,
    pub defaulted: Vec<Defaulted>,
    /// The text the network was read from, byte for byte.
    pub source: Option<Arc<String>>,
    pub source_format: Option<DistSourceFormat>,
    pub commands: Vec<(String, String)>,
    pub options: Vec<(String, String)>,
    /// The coordinate space of the positions.
    pub geo: Option<String>,
    pub extras: Extras,
}

#[verifier::ext_equal]
pub struct DistNetworkV {
    pub name: Option<Seq<char>>,
    pub base_frequency: Bits,
    pub buses: Seq<DistBusV>,
    pub linecodes: Seq<DistLineCodeV>,
    pub lines: Seq<DistLineV>,
    pub switches: Seq<DistSwitchV>,
    pub transformers: Seq<DistTransformerV>,
    pub loads: Seq<DistLoadV>,
    pub generators: Seq<DistGeneratorV>,
    pub ibrs: Seq<DistIbrV>,
    pub shunts: Seq<DistShuntV>,
    pub sources: Seq<VoltageSourceV>,
    pub control_profiles: Seq<ControlProfileV>,
    pub untyped: Seq<UntypedObjectV>,
    pub warnings: Seq<Seq<char>>,
    pub defaulted: Seq<DefaultedV>,
    pub source: Option<Seq<char>>,
    pub source_format: Option<DistSourceFormat>,
    pub commands: Seq<(Seq<char>, Seq<char>)>,
    pub options: Seq<(Seq<char>, Seq<char>)>,
    pub geo: Option<Seq<char>>,
    pub extras: Entries,
}

impl View for DistNetwork {
    type V = DistNetworkV;

    open spec fn view(&self) -> DistNetworkV {
        DistNetworkV {
            name: opt_view(self.name),
            base_frequency: self.base_frequency,
            buses: views(self.buses@),
            linecodes: views(self.linecodes@),
            lines: views(self.lines@),
            switches: views(self.switches@),
            transformers: views(self.transformers@),
            loads: views(self.loads@),
            generators: views(self.generators@),
            ibrs: views(self.ibrs@),
            shunts: views(self.shunts@),
            sources: views(self.sources@),
            control_profiles: views(self.control_profiles@),
            untyped: views(self.untyped@),
            warnings: views(self.warnings@),
            defaulted: views(self.defaulted@),
            source: opt_view(self.source),
            source_format: self.source_format,
            commands: views(self.commands@),
            options: views(self.options@),
            geo: opt_view(self.geo),
            extras: self.extras@,
        }
    }
}

/// A written document and what it could not carry.
pub struct Conversion {
    pub text: String,
    pub sidecars: Vec<String>,
    pub warnings: Vec<String>,
    pub diagnostics: Vec<String>,
}

#[verifier::ext_equal]
pub struct ConversionV {
    pub text: Seq<char>,
    pub sidecars: Seq<Seq<char>>,
    pub warnings: Seq<Seq<char>>,
    pub diagnostics: Seq<Seq<char>>,
}

impl View for Conversion {
    type V = ConversionV;

    open spec fn view(&self) -> ConversionV {
        ConversionV {
            text: self.text@,
            sidecars: views(self.sidecars@),
            warnings: views(self.warnings@),
            diagnostics: views(self.diagnostics@),
        }
    }
}

// ---- construction ----------------------------------------------------------

/// A bus that grounds nothing and bounds nothing.
pub open spec fn dist_bus_of(id: Seq<char>, terminals: Seq<Seq<char>>) -> DistBusV {
    DistBusV {
        id,
        terminals,
        grounded: Seq::empty(),
        v_min: None,
        v_max: None,
        vpn_min: None,
        vpn_max: None,
        vpp_min: None,
        vpp_max: None,
        vsym_min: None,
        vsym_max: None,
        location: None,
        extras: Entries::empty(),
    }
}

impl DistBus {
    pub fn new(id: String, terminals: Vec<String>) -> (r: Self)
        ensures
            r@ == dist_bus_of(id@, views(terminals@)),
    {
        broadcast use group_views;

        DistBus {
            id,
            terminals,
            grounded: Vec::new(),
            v_min: None,
            v_max: None,
            vpn_min: None,
            vpn_max: None,
            vpp_min: None,
            vpp_max: None,
            vsym_min: None,
            vsym_max: None,
            location: None,
            extras: JsonMap::new(),
        }
    }
}

/// A line without extras.
pub open spec fn dist_line_of(
    name: Seq<char>,
    bus_from: Seq<char>,
    bus_to: Seq<char>,
    terminal_map_from: Seq<Seq<char>>,
    terminal_map_to: Seq<Seq<char>>,
    linecode: Seq<char>,
    length: Bits,
) -> DistLineV {
    DistLineV {
        name,
        bus_from,
        bus_to,
        terminal_map_from,
        terminal_map_to,
        linecode,
        length,
        extras: Entries::empty(),
    }
}

impl DistLine {
    pub fn new(
        name: String,
        bus_from: String,
        bus_to: String,
        terminal_map_from: Vec<String>,
        terminal_map_to: Vec<String>,
        linecode: String,
        length: Bits,
    ) -> (r: Self)
        ensures
            r@ == dist_line_of(name@, bus_from@, bus_to@, views(terminal_map_from@), views(terminal_map_to@), linecode@, length),
    {
        DistLine {
            name,
            bus_from,
            bus_to,
            terminal_map_from,
            terminal_map_to,
            linecode,
            length,
            extras: JsonMap::new(),
        }
    }
}

/// A switch without a rating.
pub open spec fn dist_switch_of(
    name: Seq<char>,
    bus_from: Seq<char>,
    bus_to: Seq<char>,
    terminal_map_from: Seq<Seq<char>>,
    terminal_map_to: Seq<Seq<char>>,
    open: bool,
) -> DistSwitchV {
    DistSwitchV {
        name,
        bus_from,
        bus_to,
        terminal_map_from,
        terminal_map_to,
        open,
        i_max: None,
        extras: Entries::empty(),
    }
}

impl DistSwitch {
    pub fn new(
        name: String,
        bus_from: String,
        bus_to: String,
        terminal_map_from: Vec<String>,
        terminal_map_to: Vec<String>,
        open: bool,
    ) -> (r: Self)
        ensures
            r@ == dist_switch_of(name@, bus_from@, bus_to@, views(terminal_map_from@), views(terminal_map_to@), open),
    {
        DistSwitch {
            name,
            bus_from,
            bus_to,
            terminal_map_from,
            terminal_map_to,
            open,
            i_max: None,
            extras: JsonMap::new(),
        }
    }
}

/// A load of constant power.
pub open spec fn dist_load_of(
    name: Seq<char>,
    bus: Seq<char>,
    terminal_map: Seq<Seq<char>>,
    configuration: Configuration,
    p_nom: Seq<Bits>,
    q_nom: Seq<Bits>,
) -> DistLoadV {
    DistLoadV {
        name,
        bus,
        terminal_map,
        configuration,
        p_nom,
        q_nom,
        voltage_model: DistLoadVoltageModelV::ConstantPower { v_nom: Seq::empty() },
        extras: Entries::empty(),
    }
}

impl DistLoad {
    pub fn new(
        name: String,
        bus: String,
        terminal_map: Vec<String>,
        configuration: Configuration,
        p_nom: Vec<Bits>,
        q_nom: Vec<Bits>,
    ) -> (r: Self)
        ensures
            r@ == dist_load_of(name@, bus@, views(terminal_map@), configuration, p_nom@, q_nom@),
    {
        DistLoad {
            name,
            bus,
            terminal_map,
            configuration,
            p_nom,
            q_nom,
            voltage_model: DistLoadVoltageModel::ConstantPower { v_nom: Vec::new() },
            extras: JsonMap::new(),
        }
    }
}

/// A shunt without extras.
pub open spec fn dist_shunt_of(
    name: Seq<char>,
    bus: Seq<char>,
    terminal_map: Seq<Seq<char>>,
    g: MatV,
    b: MatV,
) -> DistShuntV {
    DistShuntV {
        name,
        bus,
        terminal_map,
        g,
        b,
        extras: Entries::empty(),
    }
}

impl DistShunt {
    pub fn new(name: String, bus: String, terminal_map: Vec<String>, g: Mat, b: Mat) -> (r: Self)
        ensures
            r@ == dist_shunt_of(name@, bus@, views(terminal_map@), views(g@), views(b@)),
    {
        DistShunt {
            name,
            bus,
            terminal_map,
            g,
            b,
            extras: JsonMap::new(),
        }
    }
}

/// A lossless winding at its nominal tap.
pub open spec fn winding_of(
    bus: Seq<char>,
    terminal_map: Seq<Seq<char>>,
    conn: WindingConn,
    v_ref: Bits,
    s_rating: Bits,
) -> WindingV {
    WindingV {
        bus,
        terminal_map,
        conn,
        v_ref,
        s_rating,
        r_pct: ZERO,
        tap: ONE,
        r_neutral: None,
        x_neutral: None,
    }
}

impl Winding {
    pub fn new(
        bus: String,
        terminal_map: Vec<String>,
        conn: WindingConn,
        v_ref: Bits,
        s_rating: Bits,
    ) -> (r: Self)
        ensures
            r@ == winding_of(bus@, views(terminal_map@), conn, v_ref, s_rating),
    {
        Winding {
            bus,
            terminal_map,
            conn,
            v_ref,
            s_rating,
            r_pct: ZERO,
            tap: ONE,
            r_neutral: None,
            x_neutral: None,
        }
    }
}

/// A transformer without extras.
pub open spec fn dist_transformer_of(
    name: Seq<char>,
    windings: Seq<WindingV>,
    xsc_pct: Seq<Bits>,
    phases: usize,
) -> DistTransformerV {
    DistTransformerV {
        name,
        windings,
        xsc_pct,
        phases,
        extras: Entries::empty(),
    }
}

impl DistTransformer {
    pub fn new(name: String, windings: Vec<Winding>, xsc_pct: Vec<Bits>, phases: usize) -> (r: Self)
        ensures
            r@ == dist_transformer_of(name@, views(windings@), xsc_pct@, phases),
    {
        DistTransformer {
            name,
            windings,
            xsc_pct,
            phases,
            extras: JsonMap::new(),
        }
    }
}

/// A source without extras.
pub open spec fn voltage_source_of(
    name: Seq<char>,
    bus: Seq<char>,
    terminal_map: Seq<Seq<char>>,
    v_magnitude: Seq<Bits>,
    v_angle: Seq<Bits>,
) -> VoltageSourceV {
    VoltageSourceV {
        name,
        bus,
        terminal_map,
        v_magnitude,
        v_angle,
        extras: Entries::empty(),
    }
}

impl VoltageSource {
    pub fn new(
        name: String,
        bus: String,
        terminal_map: Vec<String>,
        v_magnitude: Vec<Bits>,
        v_angle: Vec<Bits>,
    ) -> (r: Self)
        ensures
            r@ == voltage_source_of(name@, bus@, views(terminal_map@), v_magnitude@, v_angle@),
    {
        VoltageSource {
            name,
            bus,
            terminal_map,
            v_magnitude,
            v_angle,
            extras: JsonMap::new(),
        }
    }
}

/// A generator without limits.
pub open spec fn dist_generator_of(
    name: Seq<char>,
    bus: Seq<char>,
    terminal_map: Seq<Seq<char>>,
    configuration: Configuration,
    p_nom: Seq<Bits>,
    q_nom: Seq<Bits>,
) -> DistGeneratorV {
    DistGeneratorV {
        name,
        bus,
        terminal_map,
        configuration,
        p_nom,
        q_nom,
        p_min: None,
        p_max: None,
        q_min: None,
        q_max: None,
        cost: None,
        extras: Entries::empty(),
    }
}

impl DistGenerator {
    pub fn new(
        name: String,
        bus: String,
        terminal_map: Vec<String>,
        configuration: Configuration,
        p_nom: Vec<Bits>,
        q_nom: Vec<Bits>,
    ) -> (r: Self)
        ensures
            r@ == dist_generator_of(name@, bus@, views(terminal_map@), configuration, p_nom@, q_nom@),
    {
        DistGenerator {
            name,
            bus,
            terminal_map,
            configuration,
            p_nom,
            q_nom,
            p_min: None,
            p_max: None,
            q_min: None,
            q_max: None,
            cost: None,
            extras: JsonMap::new(),
        }
    }
}

/// An inverter without limits besides its rating.
pub open spec fn dist_ibr_of(
    name: Seq<char>,
    bus: Seq<char>,
    terminal_map: Seq<Seq<char>>,
    topology: IbrTopology,
    prime_mover: IbrPrimeMover,
    s_max: Seq<Bits>,
) -> DistIbrV {
    DistIbrV {
        name,
        bus,
        terminal_map,
        topology,
        prime_mover,
        s_max,
        p_avail: None,
        p_min: None,
        p_max: None,
        q_min: None,
        q_max: None,
        i_max: None,
        control_profile: None,
        voltage_aggregation: None,
        extras: Entries::empty(),
    }
}

impl DistIbr {
    pub fn new(
        name: String,
        bus: String,
        terminal_map: Vec<String>,
        topology: IbrTopology,
        prime_mover: IbrPrimeMover,
        s_max: Vec<Bits>,
    ) -> (r: Self)
        ensures
            r@ == dist_ibr_of(name@, bus@, views(terminal_map@), topology, prime_mover, s_max@),
    {
        DistIbr {
            name,
            bus,
            terminal_map,
            topology,
            prime_mover,
            s_max,
            p_avail: None,
            p_min: None,
            p_max: None,
            q_min: None,
            q_max: None,
            i_max: None,
            control_profile: None,
            voltage_aggregation: None,
            extras: JsonMap::new(),
        }
    }
}

/// An untyped object.
pub open spec fn untyped_object_of(
    class: Seq<char>,
    name: Seq<char>,
    props: Seq<PropV>,
) -> UntypedObjectV {
    UntypedObjectV {
        class,
        name,
        props,
    }
}

impl UntypedObject {
    pub fn new(class: String, name: String, props: Vec<Prop>) -> (r: Self)
        ensures
            r@ == untyped_object_of(class@, name@, views(props@)),
    {
        UntypedObject {
            class,
            name,
            props,
        }
    }
}

/// A network of nothing, at 60 Hz.
pub open spec fn dist_network_of() -> DistNetworkV {
    DistNetworkV {
        name: None,
        base_frequency: SIXTY,
        buses: Seq::empty(),
        linecodes: Seq::empty(),
        lines: Seq::empty(),
        switches: Seq::empty(),
        transformers: Seq::empty(),
        loads: Seq::empty(),
        generators: Seq::empty(),
        ibrs: Seq::empty(),
        shunts: Seq::empty(),
        sources: Seq::empty(),
        control_profiles: Seq::empty(),
        untyped: Seq::empty(),
        warnings: Seq::empty(),
        defaulted: Seq::empty(),
        source: None,
        source_format: None,
        commands: Seq::empty(),
        options: Seq::empty(),
        geo: None,
        extras: Entries::empty(),
    }
}

impl DistNetwork {
    pub fn new() -> (r: Self)
        ensures
            r@ == dist_network_of(),
    {
        broadcast use group_views;

        DistNetwork {
            name: None,
            base_frequency: SIXTY,
            buses: Vec::new(),
            linecodes: Vec::new(),
            lines: Vec::new(),
            switches: Vec::new(),
            transformers: Vec::new(),
            loads: Vec::new(),
            generators: Vec::new(),
            ibrs: Vec::new(),
            shunts: Vec::new(),
            sources: Vec::new(),
            control_profiles: Vec::new(),
            untyped: Vec::new(),
            warnings: Vec::new(),
            defaulted: Vec::new(),
            source: None,
            source_format: None,
            commands: Vec::new(),
            options: Vec::new(),
            geo: None,
            extras: JsonMap::new(),
        }
    }
}

/// An `n` by `n` matrix that holds `v` everywhere.
pub open spec fn filled_of(n: nat, v: Bits) -> MatV {
    Seq::new(n, |i: int| Seq::new(n, |j: int| v))
}

/// `n` numbers that are all `v`.
pub open spec fn repeat_of(v: Bits, n: nat) -> Seq<Bits> {
    Seq::new(n, |i: int| v)
}

pub fn repeat(v: Bits, n: usize) -> (r: Vec<Bits>)
    ensures
        r@ == repeat_of(v, n as nat),
{
    let mut r: Vec<Bits> = Vec::new();
    let mut i: usize = 0;
    while i < n
        invariant
            i <= n,
            r@ == repeat_of(v, i as nat),
        decreases n - i,
    {
        r.push(v);
        i = i + 1;
        assert(r@ =~= repeat_of(v, i as nat));
    }
    r
}

pub fn filled(n: usize, v: Bits) -> (r: Mat)
    ensures
        views(r@) == filled_of(n as nat, v),
        r.len() == n,
        forall|i: int| 0 <= i < n ==> (#[trigger] r@[i]).len() == n,
{
    let mut r: Mat = Vec::new();
    let mut i: usize = 0;
    while i < n
        invariant
            i <= n,
            r.len() == i,
            forall|k: int| 0 <= k < i ==> (#[trigger] r@[k])@ == repeat_of(v, n as nat),
        decreases n - i,
    {
        r.push(repeat(v, n));
        i = i + 1;
    }
    assert(views(r@) =~= filled_of(n as nat, v)) by {
        assert forall|k: int| 0 <= k < n implies views(r@)[k] == filled_of(n as nat, v)[k] by {
            assert(r@[k]@ =~= filled_of(n as nat, v)[k]);
        }
    }
    r
}

/// The entry in row `i` and column `j`, or zero outside the matrix.
pub open spec fn entry_of(m: MatV, i: int, j: int) -> Bits {
    if 0 <= i < m.len() && 0 <= j < m[i].len() {
        m[i][j]
    } else {
        ZERO
    }
}

pub fn entry(m: &Mat, i: usize, j: usize) -> (r: Bits)
    ensures
        r == entry_of(views(m@), i as int, j as int),
{
    if i < m.len() {
        assert(views(m@)[i as int] == m@[i as int]@);
        if j < m[i].len() {
            m[i][j]
        } else {
            ZERO
        }
    } else {
        ZERO
    }
}

/// A copy of a matrix.
pub fn copy_mat(m: &Mat) -> (r: Mat)
    ensures
        views(r@) == views(m@),
{
    let mut r: Mat = Vec::new();
    let mut i: usize = 0;
    while i < m.len()
        invariant
            i <= m.len(),
            r.len() == i,
            forall|k: int| 0 <= k < i ==> (#[trigger] r@[k])@ == m@[k]@,
        decreases m.len() - i,
    {
        r.push(m[i].clone());
        i = i + 1;
    }
    assert(views(r@) =~= views(m@));
    r
}

/// A line code without shunt admittance or ratings: as many conductors as the
/// resistance has rows.
pub open spec fn dist_line_code_of(
    name: Seq<char>,
    r_series: MatV,
    x_series: MatV,
) -> DistLineCodeV {
    let zero = filled_of(r_series.len(), ZERO);
    DistLineCodeV {
        name,
        n_conductors: r_series.len() as usize,
        r_series,
        x_series,
        g_from: zero,
        b_from: zero,
        g_to: zero,
        b_to: zero,
        i_max: None,
        s_max: None,
        extras: Entries::empty(),
    }
}

impl DistLineCode {
    pub fn new(name: String, r_series: Mat, x_series: Mat) -> (r: Self)
        ensures
            r@ == dist_line_code_of(name@, views(r_series@), views(x_series@)),
    {
        let n = r_series.len();
        DistLineCode {
            name,
            n_conductors: n,
            r_series,
            x_series,
            g_from: filled(n, ZERO),
            b_from: filled(n, ZERO),
            g_to: filled(n, ZERO),
            b_to: filled(n, ZERO),
            i_max: None,
            s_max: None,
            extras: JsonMap::new(),
        }
    }
}

// ---- lookup ----------------------------------------------------------------

/// The first bus at or after `i` whose id is `id`, letter case aside.
pub open spec fn bus_from(buses: Seq<DistBusV>, id: Seq<char>, i: int) -> Option<DistBusV>
    decreases buses.len() - i,
{
    if i < 0 || i >= buses.len() {
        None
    } else if lower_of(buses[i].id) == lower_of(id) {
        Some(buses[i])
    } else {
        bus_from(buses, id, i + 1)
    }
}

/// The first line code at or after `i` named `name`, letter case aside.
pub open spec fn linecode_from(codes: Seq<DistLineCodeV>, name: Seq<char>, i: int) -> Option<
    DistLineCodeV,
>
    decreases codes.len() - i,
{
    if i < 0 || i >= codes.len() {
        None
    } else if lower_of(codes[i].name) == lower_of(name) {
        Some(codes[i])
    } else {
        linecode_from(codes, name, i + 1)
    }
}

impl DistNetworkV {
    pub open spec fn bus(self, id: Seq<char>) -> Option<DistBusV> {
        bus_from(self.buses, id, 0)
    }

    pub open spec fn linecode(self, name: Seq<char>) -> Option<DistLineCodeV> {
        linecode_from(self.linecodes, name, 0)
    }
}

impl DistNetwork {
    /// The bus with this id, letter case aside.
    pub fn bus(&self, id: &str) -> (r: Option<&DistBus>)
        ensures
            match r {
                Some(b) => self@.bus(id@) == Some(b@),
                None => self@.bus(id@) is None,
            },
    {
        let mut i: usize = 0;
        while i < self.buses.len()
            invariant
                i <= self.buses.len(),
                self@.bus(id@) == bus_from(self@.buses, id@, i as int),
            decreases self.buses.len() - i,
        {
            assert(self@.buses[i as int] == self.buses@[i as int]@);
            if same_ignoring_case(self.buses[i].id.as_str(), id) {
                return Some(&self.buses[i]);
            }
            i = i + 1;
        }
        None
    }

    /// The line code with this name, letter case aside.
    pub fn linecode(&self, name: &str) -> (r: Option<&DistLineCode>)
        ensures
            match r {
                Some(c) => self@.linecode(name@) == Some(c@),
                None => self@.linecode(name@) is None,
            },
    {
        let mut i: usize = 0;
        while i < self.linecodes.len()
            invariant
                i <= self.linecodes.len(),
                self@.linecode(name@) == linecode_from(self@.linecodes, name@, i as int),
            decreases self.linecodes.len() - i,
        {
            assert(self@.linecodes[i as int] == self.linecodes@[i as int]@);
            if same_ignoring_case(self.linecodes[i].name.as_str(), name) {
                return Some(&self.linecodes[i]);
            }
            i = i + 1;
        }
        None
    }
}

} // verus!
