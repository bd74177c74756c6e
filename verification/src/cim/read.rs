//! A distribution CIM document as a multiconductor network.
//!
//! A `ConnectivityNode` is a bus. The terminals of an equipment tie it to
//! nodes, and its phase objects give the conductors. Impedance comes from a
//! phase matrix or from sequence components. What the mapping does not consume
//! is counted per class in the warnings.

use std::sync::Arc;

use vstd::prelude::*;

use crate::cim::phase::{expand_of, expand_phase_code, phase_terminal, phase_terminal_of};
use crate::cim::store::{merge_n, CimDocument, CimDocumentV, CimObjectV, Store, StoreV};
use crate::cim::xml::{cimxml_of, parse_cimxml};
use crate::error::{outcome, Error, ErrorV, Outcome, Result};
use crate::json::{put_of, Entries, Json, JsonV};
use crate::math::{
    from_int, lt, minus, num_lt, over, plus, root3, times, trunc, Bits, Calc, Sem, HUNDRED, ONE, PI,
    SIXTY, THREE, TWO, ZERO,
};
use crate::matrix::{
    diagonal, diagonal_of, halve, halved, max3, max_usize, mirror, mirror_of, square, to_usize,
    to_usize_of, two_valued, two_valued_mat,
};
use crate::model::{
    copy_mat, dist_bus_of, dist_line_code_of, dist_line_of, dist_load_of, dist_network_of,
    dist_shunt_of, dist_switch_of, dist_transformer_of, filled, filled_of, repeat, repeat_of,
    voltage_source_of, winding_of, Configuration, DistBus, DistBusV, DistLine, DistLineCode,
    DistLineCodeV, DistLineV, DistLoad, DistLoadV, DistNetwork, DistNetworkV, DistShunt, DistShuntV,
    DistSourceFormat, DistSwitch, DistSwitchV, DistTransformer, DistTransformerV, Mat, MatV,
    VoltageSource, VoltageSourceV, Winding, WindingConn, WindingV,
};
use crate::numeral::{dec_of, dec_usize};
use crate::order::{
    bump, bump_of, contains, copy_list, insert_by_key, insert_by_key_of, insert_by_rank,
    insert_by_rank_of, set_extend, set_extend_of,
};
use crate::terminals::{numbered, numbered_map, three_phase_map, three_phases};
use crate::text::{
    cat2, cat3, cat4, empty, ends_with, find, find_of, group_views, has_suffix, lower_of, opt_view,
    same, same_ignoring_case, to_chars, views,
};

verus! {

// ---- wiring ----------------------------------------------------------------

/// Where a terminal stands among those of its equipment.
pub open spec fn sequence_of(m: Sem, s: StoreV, id: Seq<char>) -> Bits {
    match s.number(m, id, "ACDCTerminal.sequenceNumber"@) {
        Some(x) => x,
        None => s.number_or(m, id, "Terminal.sequenceNumber"@, ONE),
    }
}

/// The terminals of an equipment among the first `n` of `ids`, by sequence
/// number; those of one number stay in document order.
pub open spec fn terminals_n(m: Sem, s: StoreV, eq: Seq<char>, ids: Seq<Seq<char>>, n: nat) -> Seq<
    (Bits, Seq<char>),
>
    decreases n,
{
    if n == 0 {
        seq![]
    } else {
        let before = terminals_n(m, s, eq, ids, (n - 1) as nat);
        let id = ids[n - 1];
        if s.refv(id, "Terminal.ConductingEquipment"@) == Some(eq) {
            insert_by_rank_of(before, (sequence_of(m, s, id), id))
        } else {
            before
        }
    }
}

#[verifier::opaque]
pub open spec fn terminals_of(m: Sem, s: StoreV, eq: Seq<char>) -> Seq<(Bits, Seq<char>)> {
    let ids = s.of_class("Terminal"@);
    terminals_n(m, s, eq, ids, ids.len())
}

fn terminals<C: Calc>(math: &C, s: &Store, equipment: &str) -> (r: Vec<(Bits, String)>)
    ensures
        views(r@) == terminals_of(math.sem(), s@, equipment@),
{
    broadcast use group_views;

    reveal(terminals_of);
    let ids = s.of_class("Terminal");
    let mut r: Vec<(Bits, String)> = Vec::new();
    let mut i: usize = 0;
    while i < ids.len()
        invariant
            i <= ids.len(),
            views(r@) == terminals_n(math.sem(), s@, equipment@, views(ids@), i as nat),
        decreases ids.len() - i,
    {
        assert(views(ids@)[i as int] == ids@[i as int]@);
        let id = ids[i].as_str();
        if s.refers(id, "Terminal.ConductingEquipment", equipment) {
            let seq = match s.number(math, id, "ACDCTerminal.sequenceNumber") {
                Some(x) => x,
                None => s.number_or(math, id, "Terminal.sequenceNumber", ONE),
            };
            insert_by_rank(&mut r, seq, ids[i].clone());
        }
        i = i + 1;
    }
    r
}

/// The node a terminal is tied to.
pub open spec fn terminal_node_of(s: StoreV, terminal: Seq<char>) -> Option<Seq<char>> {
    if s.class_of(terminal) == Some("Terminal"@) {
        s.refv(terminal, "Terminal.ConnectivityNode"@)
    } else {
        None
    }
}

fn terminal_node<'a>(s: &'a Store, terminal: &str) -> (r: Option<&'a String>)
    ensures
        match r {
            Some(n) => terminal_node_of(s@, terminal@) == Some(n@),
            None => terminal_node_of(s@, terminal@) is None,
        },
{
    match s.class_of(terminal) {
        Some(c) if same(c.as_str(), "Terminal") => s.refv(terminal, "Terminal.ConnectivityNode"),
        _ => None,
    }
}

/// The bus at an equipment's terminal, by index.
#[verifier::opaque]
pub open spec fn bus_at_of(m: Sem, s: StoreV, eq: Seq<char>, index: int) -> Option<Seq<char>> {
    let t = terminals_of(m, s, eq);
    if 0 <= index < t.len() {
        match terminal_node_of(s, t[index].1) {
            Some(cn) => Some(s.name(cn)),
            None => None,
        }
    } else {
        None
    }
}

fn bus_at<C: Calc>(math: &C, s: &Store, equipment: &str, index: usize) -> (r: Option<String>)
    ensures
        opt_view(r) == bus_at_of(math.sem(), s@, equipment@, index as int),
{
    reveal(bus_at_of);
    let t = terminals(math, s, equipment);
    if index < t.len() {
        assert(views(t@)[index as int] == (t@[index as int].0, t@[index as int].1@));
        match terminal_node(s, t[index].1.as_str()) {
            Some(cn) => Some(s.name(cn.as_str())),
            None => None,
        }
    } else {
        None
    }
}

// ---- phases ----------------------------------------------------------------

/// The phase objects of `parent` among the first `n` of `ids`, each with its
/// terminal, in terminal order.
pub open spec fn children_n(
    s: StoreV,
    class: Seq<char>,
    parent_ref: Seq<char>,
    parent: Seq<char>,
    ids: Seq<Seq<char>>,
    n: nat,
) -> Seq<(Seq<char>, Seq<char>)>
    decreases n,
{
    if n == 0 {
        seq![]
    } else {
        let before = children_n(s, class, parent_ref, parent, ids, (n - 1) as nat);
        let id = ids[n - 1];
        if s.refv(id, parent_ref) == Some(parent) {
            match s.enum_value(id, class + ".phase"@) {
                Some(phase) => match phase_terminal_of(phase) {
                    Some(t) => insert_by_key_of(before, (t, id)),
                    None => before,
                },
                None => before,
            }
        } else {
            before
        }
    }
}

#[verifier::opaque]
pub open spec fn children_of(
    s: StoreV,
    class: Seq<char>,
    parent_ref: Seq<char>,
    parent: Seq<char>,
) -> Seq<
    (Seq<char>, Seq<char>),
> {
    let ids = s.of_class(class);
    children_n(s, class, parent_ref, parent, ids, ids.len())
}

fn phase_children(s: &Store, class: &str, parent_ref: &str, parent: &str) -> (r: Vec<
    (String, String),
>)
    ensures
        views(r@) == children_of(s@, class@, parent_ref@, parent@),
{
    broadcast use group_views;

    reveal(children_of);
    let key = cat2(class, ".phase");
    let ids = s.of_class(class);
    let mut r: Vec<(String, String)> = Vec::new();
    let mut i: usize = 0;
    while i < ids.len()
        invariant
            i <= ids.len(),
            key@ == class@ + ".phase"@,
            views(r@) == children_n(s@, class@, parent_ref@, parent@, views(ids@), i as nat),
        decreases ids.len() - i,
    {
        assert(views(ids@)[i as int] == ids@[i as int]@);
        let id = ids[i].as_str();
        if s.refers(id, parent_ref, parent) {
            if let Some(phase) = s.enum_value(id, key.as_str()) {
                if let Some(t) = phase_terminal(phase.as_str()) {
                    insert_by_key(&mut r, t.to_owned(), ids[i].clone());
                }
            }
        }
        i = i + 1;
    }
    r
}

/// The first components, in order.
pub open spec fn firsts(s: Seq<(Seq<char>, Seq<char>)>) -> Seq<Seq<char>> {
    Seq::new(s.len(), |i: int| s[i].0)
}

fn take_firsts(v: &Vec<(String, String)>) -> (r: Vec<String>)
    ensures
        views(r@) == firsts(views(v@)),
{
    let mut r: Vec<String> = Vec::new();
    let mut i: usize = 0;
    while i < v.len()
        invariant
            i <= v.len(),
            r.len() == i,
            forall|k: int| 0 <= k < i ==> (#[trigger] r@[k])@ == v@[k].0@,
        decreases v.len() - i,
    {
        r.push(v[i].0.clone());
        i = i + 1;
    }
    assert(views(r@) =~= firsts(views(v@)));
    r
}

/// The terminals an equipment presents: those of its phase objects, else those
/// of the phase code on its first terminal, else the three phases.
#[verifier::opaque]
pub open spec fn terminal_map_of(
    m: Sem,
    s: StoreV,
    eq: Seq<char>,
    class: Seq<char>,
    parent_ref: Seq<char>,
) -> Seq<Seq<char>> {
    let children = children_of(s, class, parent_ref, eq);
    let t = terminals_of(m, s, eq);
    if children.len() > 0 {
        firsts(children)
    } else if t.len() > 0 {
        match s.enum_value(t[0].1, "Terminal.phases"@) {
            Some(code) => if expand_of(code).len() > 0 {
                expand_of(code)
            } else {
                three_phases()
            },
            None => three_phases(),
        }
    } else {
        three_phases()
    }
}

fn terminal_map<C: Calc>(math: &C, s: &Store, equipment: &str, class: &str, parent_ref: &str) -> (r:
    Vec<String>)
    ensures
        views(r@) == terminal_map_of(math.sem(), s@, equipment@, class@, parent_ref@),
{
    reveal(terminal_map_of);
    let children = phase_children(s, class, parent_ref, equipment);
    assert(views(children@).len() == children.len());
    if children.len() > 0 {
        return take_firsts(&children);
    }
    let t = terminals(math, s, equipment);
    assert(views(t@).len() == t.len());
    if t.len() > 0 {
        assert(views(t@)[0] == (t@[0].0, t@[0].1@));
        if let Some(code) = s.enum_value(t[0].1.as_str(), "Terminal.phases") {
            let expanded = expand_phase_code(code.as_str());
            assert(views(expanded@).len() == expanded.len());
            if expanded.len() > 0 {
                return expanded;
            }
        }
    }
    three_phase_map()
}

/// A wye or single-phase element connects the grounded neutral besides its
/// phases; a delta does not.
pub open spec fn with_neutral_of(map: Seq<Seq<char>>, config: Configuration) -> Seq<Seq<char>> {
    if config != Configuration::Delta && !map.contains("4"@) {
        map.push("4"@)
    } else {
        map
    }
}

pub fn with_neutral(map: Vec<String>, config: Configuration) -> (r: Vec<String>)
    ensures
        views(r@) == with_neutral_of(views(map@), config),
{
    broadcast use group_views;

    let mut map = map;
    if config != Configuration::Delta && !contains(&map, "4") {
        map.push("4".to_owned());
    }
    map
}

/// The extras of an element that was imported under an identifier.
pub open spec fn imported(id: Seq<char>) -> Entries {
    put_of(Entries::empty(), "cim_mrid"@, JsonV::Str(id))
}

// ---- matrices --------------------------------------------------------------

/// The impedance base of a winding, where its ratings give one.
pub open spec fn z_base_of(m: Sem, v_ref: Bits, s_rating: Bits) -> Option<Bits> {
    if num_lt(ZERO, v_ref) && num_lt(ZERO, s_rating) {
        Some(m.over(m.times(v_ref, v_ref), s_rating))
    } else {
        None
    }
}

pub fn z_base<C: Calc>(math: &C, v_ref: Bits, s_rating: Bits) -> (r: Option<Bits>)
    ensures
        r == z_base_of(math.sem(), v_ref, s_rating),
{
    if lt(ZERO, v_ref) && lt(ZERO, s_rating) {
        Some(over(math, times(math, v_ref, v_ref), s_rating))
    } else {
        None
    }
}

/// Sequence components as a phase matrix: `(z0 + 2 z1) / 3` on the diagonal and
/// `(z0 - z1) / 3` off it.
pub open spec fn sequence_to_phase_of(m: Sem, z0: Bits, z1: Bits, n: nat) -> MatV {
    two_valued(
        n,
        m.over(m.plus(z0, m.times(TWO, z1)), THREE),
        m.over(m.minus(z0, z1), THREE),
    )
}

pub fn sequence_to_phase<C: Calc>(math: &C, z0: Bits, z1: Bits, n: usize) -> (r: Mat)
    ensures
        views(r@) == sequence_to_phase_of(math.sem(), z0, z1, n as nat),
{
    let on = over(math, plus(math, z0, times(math, TWO, z1)), THREE);
    let off = over(math, minus(math, z0, z1), THREE);
    two_valued_mat(n, on, off)
}

/// A phase matrix made of sequence components is square and symmetric.
pub proof fn lemma_sequence_symmetric(m: Sem, z0: Bits, z1: Bits, n: nat)
    ensures
        sequence_to_phase_of(m, z0, z1, n).len() == n,
        forall|i: int, j: int|
            0 <= i < n && 0 <= j < n ==> (#[trigger] sequence_to_phase_of(m, z0, z1, n)[i][j])
                == sequence_to_phase_of(m, z0, z1, n)[j][i],
{
}

// ---- impedance -------------------------------------------------------------

pub struct Triple {
    pub r: MatV,
    pub x: MatV,
    pub b: MatV,
}

/// The matrices with one data row in, where it belongs to `pli` and names a row
/// and a column of theirs.
pub open spec fn datum_step(
    m: Sem,
    s: StoreV,
    pli: Seq<char>,
    n: nat,
    t: Triple,
    d: Seq<char>,
) -> Triple {
    if s.refv(d, "PhaseImpedanceData.PerLengthPhaseImpedance"@) != Some(pli) {
        t
    } else {
        match (s.number(m, d, "PhaseImpedanceData.row"@), s.number(
            m,
            d,
            "PhaseImpedanceData.column"@,
        )) {
            (Some(row), Some(col)) => {
                let i = to_usize_of(m.trunc(row));
                let j = to_usize_of(m.trunc(col));
                if i < 1 || j < 1 || i > n || j > n {
                    t
                } else {
                    Triple {
                        r: mirror_of(
                            t.r,
                            i - 1,
                            j - 1,
                            s.number_or(m, d, "PhaseImpedanceData.r"@, ZERO),
                        ),
                        x: mirror_of(
                            t.x,
                            i - 1,
                            j - 1,
                            s.number_or(m, d, "PhaseImpedanceData.x"@, ZERO),
                        ),
                        b: mirror_of(
                            t.b,
                            i - 1,
                            j - 1,
                            s.number_or(m, d, "PhaseImpedanceData.b"@, ZERO),
                        ),
                    }
                }
            },
            _ => t,
        }
    }
}

pub open spec fn data_n(
    m: Sem,
    s: StoreV,
    pli: Seq<char>,
    n: nat,
    ids: Seq<Seq<char>>,
    k: nat,
) -> Triple
    decreases k,
{
    if k == 0 {
        Triple { r: filled_of(n, ZERO), x: filled_of(n, ZERO), b: filled_of(n, ZERO) }
    } else {
        datum_step(m, s, pli, n, data_n(m, s, pli, n, ids, (k - 1) as nat), ids[k - 1])
    }
}

/// Resistance, reactance and susceptance per metre, from the rows of a phase
/// matrix or from sequence components.
#[verifier::opaque]
pub open spec fn per_length_of(m: Sem, s: StoreV, pli: Seq<char>, nphase: nat) -> Option<Triple> {
    if s.class_of(pli) == Some("PerLengthPhaseImpedance"@) {
        let count = match s.number(m, pli, "PerLengthPhaseImpedance.conductorCount"@) {
            Some(c) => to_usize_of(m.trunc(c)) as nat,
            None => nphase,
        };
        let ids = s.of_class("PhaseImpedanceData"@);
        Some(data_n(m, s, pli, max3(count, nphase, 1), ids, ids.len()))
    } else if s.class_of(pli) == Some("PerLengthSequenceImpedance"@) {
        let n = max3(nphase, 1, 1);
        let r1 = s.number_or(m, pli, "PerLengthSequenceImpedance.r"@, ZERO);
        let x1 = s.number_or(m, pli, "PerLengthSequenceImpedance.x"@, ZERO);
        let b1 = s.number_or(m, pli, "PerLengthSequenceImpedance.bch"@, ZERO);
        let r0 = s.number_or(m, pli, "PerLengthSequenceImpedance.r0"@, r1);
        let x0 = s.number_or(m, pli, "PerLengthSequenceImpedance.x0"@, x1);
        let b0 = s.number_or(m, pli, "PerLengthSequenceImpedance.b0ch"@, b1);
        Some(
            Triple {
                r: sequence_to_phase_of(m, r0, r1, n),
                x: sequence_to_phase_of(m, x0, x1, n),
                b: sequence_to_phase_of(m, b0, b1, n),
            },
        )
    } else {
        None
    }
}

fn phase_matrices<C: Calc>(math: &C, s: &Store, pli: &str, n: usize) -> (r: (Mat, Mat, Mat))
    ensures
        (Triple { r: views(r.0@), x: views(r.1@), b: views(r.2@) }) == data_n(
            math.sem(),
            s@,
            pli@,
            n as nat,
            s@.of_class("PhaseImpedanceData"@),
            s@.of_class("PhaseImpedanceData"@).len(),
        ),
{
    let mut r = filled(n, ZERO);
    let mut x = filled(n, ZERO);
    let mut b = filled(n, ZERO);
    let ids = s.of_class("PhaseImpedanceData");
    let mut k: usize = 0;
    while k < ids.len()
        invariant
            k <= ids.len(),
            square(views(r@), n as nat),
            square(views(x@), n as nat),
            square(views(b@), n as nat),
            (Triple { r: views(r@), x: views(x@), b: views(b@) }) == data_n(
                math.sem(),
                s@,
                pli@,
                n as nat,
                views(ids@),
                k as nat,
            ),
        decreases ids.len() - k,
    {
        assert(views(ids@)[k as int] == ids@[k as int]@);
        let d = ids[k].as_str();
        k = k + 1;
        if s.refers(d, "PhaseImpedanceData.PerLengthPhaseImpedance", pli) {
            let row = s.number(math, d, "PhaseImpedanceData.row");
            let col = s.number(math, d, "PhaseImpedanceData.column");
            if let (Some(row), Some(col)) = (row, col) {
                let i = to_usize(trunc(math, row));
                let j = to_usize(trunc(math, col));
                if !(i < 1 || j < 1 || i > n || j > n) {
                    let rv = s.number_or(math, d, "PhaseImpedanceData.r", ZERO);
                    let xv = s.number_or(math, d, "PhaseImpedanceData.x", ZERO);
                    let bv = s.number_or(math, d, "PhaseImpedanceData.b", ZERO);
                    mirror(&mut r, n, i - 1, j - 1, rv);
                    mirror(&mut x, n, i - 1, j - 1, xv);
                    mirror(&mut b, n, i - 1, j - 1, bv);
                }
            }
        }
    }
    assert(views(ids@).len() == ids.len());
    (r, x, b)
}

fn per_length_matrices<C: Calc>(math: &C, s: &Store, pli: &str, nphase: usize) -> (r: Option<
    (Mat, Mat, Mat),
>)
    ensures
        match r {
            Some(t) => per_length_of(math.sem(), s@, pli@, nphase as nat) == Some(
                (Triple { r: views(t.0@), x: views(t.1@), b: views(t.2@) }),
            ),
            None => per_length_of(math.sem(), s@, pli@, nphase as nat) is None,
        },
{
    reveal(per_length_of);
    let class = match s.class_of(pli) {
        Some(c) => c,
        None => {
            return None;
        },
    };
    if same(class.as_str(), "PerLengthPhaseImpedance") {
        let count = match s.number(math, pli, "PerLengthPhaseImpedance.conductorCount") {
            Some(c) => to_usize(trunc(math, c)),
            None => nphase,
        };
        let n = max_usize(max_usize(count, nphase), 1);
        Some(phase_matrices(math, s, pli, n))
    } else if same(class.as_str(), "PerLengthSequenceImpedance") {
        let n = max_usize(nphase, 1);
        let r1 = s.number_or(math, pli, "PerLengthSequenceImpedance.r", ZERO);
        let x1 = s.number_or(math, pli, "PerLengthSequenceImpedance.x", ZERO);
        let b1 = s.number_or(math, pli, "PerLengthSequenceImpedance.bch", ZERO);
        let r0 = s.number_or(math, pli, "PerLengthSequenceImpedance.r0", r1);
        let x0 = s.number_or(math, pli, "PerLengthSequenceImpedance.x0", x1);
        let b0 = s.number_or(math, pli, "PerLengthSequenceImpedance.b0ch", b1);
        Some(
            (
                sequence_to_phase(math, r0, r1, n),
                sequence_to_phase(math, x0, x1, n),
                sequence_to_phase(math, b0, b1, n),
            ),
        )
    } else {
        None
    }
}

// ---- lines -----------------------------------------------------------------

/// What has been read of the lines: the line codes, which impedance gave which
/// code, the lines, and the warnings.
pub struct LinesV {
    pub codes: Seq<DistLineCodeV>,
    pub seen: Seq<(Seq<char>, Seq<char>)>,
    pub lines: Seq<DistLineV>,
    pub warnings: Seq<Seq<char>>,
}

pub struct Lines {
    pub codes: Vec<DistLineCode>,
    pub seen: Vec<(String, String)>,
    pub lines: Vec<DistLine>,
    pub warnings: Vec<String>,
}

impl View for Lines {
    type V = LinesV;

    open spec fn view(&self) -> LinesV {
        LinesV {
            codes: views(self.codes@),
            seen: views(self.seen@),
            lines: views(self.lines@),
            warnings: views(self.warnings@),
        }
    }
}

/// The code an impedance gave, from the `i`-th on.
pub open spec fn seen_from(
    seen: Seq<(Seq<char>, Seq<char>)>,
    pli: Seq<char>,
    i: int,
) -> Option<Seq<char>>
    decreases seen.len() - i,
{
    if i < 0 || i >= seen.len() {
        None
    } else if seen[i].0 == pli {
        Some(seen[i].1)
    } else {
        seen_from(seen, pli, i + 1)
    }
}

fn find_seen(seen: &Vec<(String, String)>, pli: &str) -> (r: Option<String>)
    ensures
        opt_view(r) == seen_from(views(seen@), pli@, 0),
{
    let mut i: usize = 0;
    while i < seen.len()
        invariant
            i <= seen.len(),
            seen_from(views(seen@), pli@, 0) == seen_from(views(seen@), pli@, i as int),
        decreases seen.len() - i,
    {
        assert(views(seen@)[i as int] == (seen@[i as int].0@, seen@[i as int].1@));
        if same(seen[i].0.as_str(), pli) {
            return Some(seen[i].1.clone());
        }
        i = i + 1;
    }
    None
}

/// A line code whose susceptance is half at either end.
pub open spec fn coded(name: Seq<char>, r: MatV, x: MatV, half: MatV) -> DistLineCodeV {
    DistLineCodeV { b_from: half, b_to: half, ..dist_line_code_of(name, r, x) }
}

fn make_code(name: String, r: Mat, x: Mat, half: Mat) -> (c: DistLineCode)
    ensures
        c@ == coded(name@, views(r@), views(x@), views(half@)),
{
    let mut lc = DistLineCode::new(name, r, x);
    lc.b_from = copy_mat(&half);
    lc.b_to = half;
    lc
}

/// The line code made of a segment's own impedance.
pub open spec fn own_code(
    m: Sem,
    s: StoreV,
    line: Seq<char>,
    nphase: nat,
    length: Bits,
) -> DistLineCodeV {
    let diag = |v: Bits| two_valued(nphase, m.over(v, length), ZERO);
    coded(
        s.name(line) + "_lc"@,
        diag(s.number_or(m, line, "ACLineSegment.r"@, ZERO)),
        diag(s.number_or(m, line, "ACLineSegment.x"@, ZERO)),
        diag(m.over(s.number_or(m, line, "ACLineSegment.bch"@, ZERO), TWO)),
    )
}

/// The state and the name of the code once a segment's impedance has been
/// resolved: an impedance seen before gives the code it gave then, a new one a
/// new code, and a segment without one a code of its own.
pub open spec fn linecode_for_of(
    m: Sem,
    s: StoreV,
    st: LinesV,
    line: Seq<char>,
    nphase: nat,
    length: Bits,
) -> (LinesV, Seq<char>) {
    let own = own_code(m, s, line, nphase, length);
    let inline = (LinesV { codes: st.codes.push(own), ..st }, own.name);
    match s.refv(line, "ACLineSegment.PerLengthImpedance"@) {
        Some(pli) => match seen_from(st.seen, pli, 0) {
            Some(name) => (st, name),
            None => match per_length_of(m, s, pli, nphase) {
                Some(t) => (
                    LinesV {
                        codes: st.codes.push(coded(s.name(pli), t.r, t.x, halved(m, t.b))),
                        seen: st.seen.push((pli, s.name(pli))),
                        ..st
                    },
                    s.name(pli),
                ),
                None => inline,
            },
        },
        None => inline,
    }
}

fn linecode_for<C: Calc>(
    math: &C,
    s: &Store,
    st: &mut Lines,
    line: &str,
    nphase: usize,
    length: Bits,
) -> (r: String)
    ensures
        (final(st)@, r@) == linecode_for_of(
            math.sem(),
            s@,
            old(st)@,
            line@,
            nphase as nat,
            length,
        ),
{
    broadcast use group_views;

    if let Some(pli) = s.refv(line, "ACLineSegment.PerLengthImpedance") {
        if let Some(name) = find_seen(&st.seen, pli.as_str()) {
            return name;
        }
        if let Some((r, x, b)) = per_length_matrices(math, s, pli.as_str(), nphase) {
            let name = s.name(pli.as_str());
            let half = halve(math, &b);
            let lc = make_code(name.clone(), r, x, half);
            st.codes.push(lc);
            st.seen.push((pli.clone(), name.clone()));
            return name;
        }
    }
    let name = cat2(s.name(line).as_str(), "_lc");
    let r_tot = s.number_or(math, line, "ACLineSegment.r", ZERO);
    let x_tot = s.number_or(math, line, "ACLineSegment.x", ZERO);
    let b_tot = s.number_or(math, line, "ACLineSegment.bch", ZERO);
    let r = two_valued_mat(nphase, over(math, r_tot, length), ZERO);
    let x = two_valued_mat(nphase, over(math, x_tot, length), ZERO);
    let half = two_valued_mat(nphase, over(math, over(math, b_tot, TWO), length), ZERO);
    let lc = make_code(name.clone(), r, x, half);
    st.codes.push(lc);
    name
}

pub open spec fn line_step(m: Sem, s: StoreV, st: LinesV, id: Seq<char>) -> LinesV {
    match (bus_at_of(m, s, id, 0), bus_at_of(m, s, id, 1)) {
        (Some(from), Some(to)) => {
            let map = terminal_map_of(
                m,
                s,
                id,
                "ACLineSegmentPhase"@,
                "ACLineSegmentPhase.ACLineSegment"@,
            );
            let nphase = max3(map.len(), 1, 1);
            let given = s.number(m, id, "Conductor.length"@);
            let positive = given is Some && num_lt(ZERO, given->0);
            let length = if positive {
                given->0
            } else {
                ONE
            };
            let measured = if positive {
                st
            } else {
                LinesV {
                    warnings: st.warnings.push(
                        "ACLineSegment "@ + s.name(id) + ": no positive length; using 1 m"@,
                    ),
                    ..st
                }
            };
            let (coded, code) = linecode_for_of(m, s, measured, id, nphase, length);
            LinesV {
                lines: coded.lines.push(
                    DistLineV {
                        extras: imported(id),
                        ..dist_line_of(s.name(id), from, to, map, map, code, length)
                    },
                ),
                ..coded
            }
        },
        _ => LinesV {
            warnings: st.warnings.push(
                "ACLineSegment "@ + s.name(id)
                    + ": needs two terminals on connectivity nodes; skipped"@,
            ),
            ..st
        },
    }
}

pub open spec fn lines_n(m: Sem, s: StoreV, ids: Seq<Seq<char>>, n: nat) -> LinesV
    decreases n,
{
    if n == 0 {
        LinesV { codes: seq![], seen: seq![], lines: seq![], warnings: seq![] }
    } else {
        line_step(m, s, lines_n(m, s, ids, (n - 1) as nat), ids[n - 1])
    }
}

/// Every line segment.
pub open spec fn lines_of(m: Sem, s: StoreV) -> LinesV {
    let ids = s.of_class("ACLineSegment"@);
    lines_n(m, s, ids, ids.len())
}

fn read_line<C: Calc>(math: &C, s: &Store, st: &mut Lines, id: &str)
    ensures
        final(st)@ == line_step(math.sem(), s@, old(st)@, id@),
{
    broadcast use group_views;

    let from = bus_at(math, s, id, 0);
    let to = bus_at(math, s, id, 1);
    if let (Some(from), Some(to)) = (from, to) {
        let map = terminal_map(
            math,
            s,
            id,
            "ACLineSegmentPhase",
            "ACLineSegmentPhase.ACLineSegment",
        );
        assert(views(map@).len() == map.len());
        let nphase = max_usize(map.len(), 1);
        let given = s.number(math, id, "Conductor.length");
        let length = match given {
            Some(l) if lt(ZERO, l) => l,
            _ => {
                st.warnings.push(
                    cat3(
                        "ACLineSegment ",
                        s.name(id).as_str(),
                        ": no positive length; using 1 m",
                    ),
                );
                ONE
            },
        };
        let code = linecode_for(math, s, st, id, nphase, length);
        let map_from = copy_list(&map);
        let mut line = DistLine::new(s.name(id), from, to, map_from, map, code, length);
        line.extras.put("cim_mrid".to_owned(), Json::text(id));
        st.lines.push(line);
    } else {
        st.warnings.push(
            cat3(
                "ACLineSegment ",
                s.name(id).as_str(),
                ": needs two terminals on connectivity nodes; skipped",
            ),
        );
    }
}

fn lines<C: Calc>(math: &C, s: &Store) -> (r: Lines)
    ensures
        r@ == lines_of(math.sem(), s@),
{
    broadcast use group_views;

    let ids = s.of_class("ACLineSegment");
    let mut st = Lines {
        codes: Vec::new(),
        seen: Vec::new(),
        lines: Vec::new(),
        warnings: Vec::new(),
    };
    assert(st@.codes =~= seq![] && st@.seen =~= seq![] && st@.lines =~= seq![] && st@.warnings
        =~= seq![]);
    let mut i: usize = 0;
    while i < ids.len()
        invariant
            i <= ids.len(),
            st@ == lines_n(math.sem(), s@, views(ids@), i as nat),
        decreases ids.len() - i,
    {
        assert(views(ids@)[i as int] == ids@[i as int]@);
        read_line(math, s, &mut st, ids[i].as_str());
        i = i + 1;
    }
    assert(views(ids@).len() == ids.len());
    st
}

// ---- loads -----------------------------------------------------------------

/// Elements read so far, and the warnings.
pub struct LoadsV {
    pub loads: Seq<DistLoadV>,
    pub warnings: Seq<Seq<char>>,
}

/// How a load connects, by its CIM connection kind.
pub open spec fn configuration_of(kind: Option<Seq<char>>) -> Configuration {
    if kind == Some("D"@) {
        Configuration::Delta
    } else if kind == Some("I"@) {
        Configuration::SinglePhase
    } else {
        Configuration::Wye
    }
}

/// The number a property gives each phase object, in order; zero where it gives
/// none.
pub open spec fn child_values(
    m: Sem,
    s: StoreV,
    children: Seq<(Seq<char>, Seq<char>)>,
    key: Seq<char>,
) -> Seq<Bits> {
    Seq::new(children.len(), |i: int| s.number_or(m, children[i].1, key, ZERO))
}

fn child_numbers<C: Calc>(math: &C, s: &Store, children: &Vec<(String, String)>, key: &str) -> (r:
    Vec<Bits>)
    ensures
        r@ == child_values(math.sem(), s@, views(children@), key@),
{
    let mut r: Vec<Bits> = Vec::new();
    let mut i: usize = 0;
    while i < children.len()
        invariant
            i <= children.len(),
            r@ == child_values(math.sem(), s@, views(children@), key@).take(i as int),
        decreases children.len() - i,
    {
        assert(views(children@)[i as int] == (children@[i as int].0@, children@[i as int].1@));
        r.push(s.number_or(math, children[i].1.as_str(), key, ZERO));
        i = i + 1;
        assert(r@ =~= child_values(math.sem(), s@, views(children@), key@).take(i as int));
    }
    assert(r@ =~= child_values(math.sem(), s@, views(children@), key@));
    r
}

/// A load with phase objects takes their powers; one without shares its own
/// evenly among its terminals.
pub open spec fn load_step(m: Sem, s: StoreV, st: LoadsV, id: Seq<char>) -> LoadsV {
    match bus_at_of(m, s, id, 0) {
        None => LoadsV {
            warnings: st.warnings.push(
                "EnergyConsumer "@ + s.name(id)
                    + ": no terminal on a connectivity node; skipped"@,
            ),
            ..st
        },
        Some(bus) => {
            let config = configuration_of(s.enum_value(id, "EnergyConsumer.phaseConnection"@));
            let children = children_of(
                s,
                "EnergyConsumerPhase"@,
                "EnergyConsumerPhase.EnergyConsumer"@,
                id,
            );
            let whole = terminal_map_of(
                m,
                s,
                id,
                "EnergyConsumerPhase"@,
                "EnergyConsumerPhase.EnergyConsumer"@,
            );
            let n = m.from_int(max3(whole.len(), 1, 1) as u64);
            let share = |key: Seq<char>|
                repeat_of(m.over(s.number_or(m, id, key, ZERO), n), whole.len());
            let (map, p, q) = if children.len() == 0 {
                (whole, share("EnergyConsumer.p"@), share("EnergyConsumer.q"@))
            } else {
                (
                    firsts(children),
                    child_values(m, s, children, "EnergyConsumerPhase.p"@),
                    child_values(m, s, children, "EnergyConsumerPhase.q"@),
                )
            };
            let load = dist_load_of(s.name(id), bus, with_neutral_of(map, config), config, p, q);
            LoadsV {
                loads: st.loads.push(DistLoadV { extras: imported(id), ..load }),
                ..st
            }
        },
    }
}

pub open spec fn loads_n(
    m: Sem,
    s: StoreV,
    ids: Seq<Seq<char>>,
    w: Seq<Seq<char>>,
    n: nat,
) -> LoadsV
    decreases n,
{
    if n == 0 {
        LoadsV { loads: seq![], warnings: w }
    } else {
        load_step(m, s, loads_n(m, s, ids, w, (n - 1) as nat), ids[n - 1])
    }
}

/// Every load, after the warnings `w`.
pub open spec fn loads_of(m: Sem, s: StoreV, w: Seq<Seq<char>>) -> LoadsV {
    let ids = s.of_class("EnergyConsumer"@);
    loads_n(m, s, ids, w, ids.len())
}

fn read_load<C: Calc>(
    math: &C,
    s: &Store,
    loads: &mut Vec<DistLoad>,
    warnings: &mut Vec<String>,
    id: &str,
)
    ensures
        (LoadsV { loads: views(final(loads)@), warnings: views(final(warnings)@) }) == load_step(
            math.sem(),
            s@,
            LoadsV { loads: views(old(loads)@), warnings: views(old(warnings)@) },
            id@,
        ),
{
    broadcast use group_views;

    let bus = match bus_at(math, s, id, 0) {
        Some(bus) => bus,
        None => {
            warnings.push(
                cat3(
                    "EnergyConsumer ",
                    s.name(id).as_str(),
                    ": no terminal on a connectivity node; skipped",
                ),
            );
            return;
        },
    };
    let config = match s.enum_value(id, "EnergyConsumer.phaseConnection") {
        Some(k) => {
            if same(k.as_str(), "D") {
                Configuration::Delta
            } else if same(k.as_str(), "I") {
                Configuration::SinglePhase
            } else {
                Configuration::Wye
            }
        },
        None => Configuration::Wye,
    };
    let children = phase_children(
        s,
        "EnergyConsumerPhase",
        "EnergyConsumerPhase.EnergyConsumer",
        id,
    );
    assert(views(children@).len() == children.len());
    let (map, p, q) = if children.len() == 0 {
        let map = terminal_map(
            math,
            s,
            id,
            "EnergyConsumerPhase",
            "EnergyConsumerPhase.EnergyConsumer",
        );
        assert(views(map@).len() == map.len());
        let len = map.len();
        let n = from_int(math, max_usize(len, 1) as u64);
        let p = over(math, s.number_or(math, id, "EnergyConsumer.p", ZERO), n);
        let q = over(math, s.number_or(math, id, "EnergyConsumer.q", ZERO), n);
        (map, repeat(p, len), repeat(q, len))
    } else {
        let p = child_numbers(math, s, &children, "EnergyConsumerPhase.p");
        let q = child_numbers(math, s, &children, "EnergyConsumerPhase.q");
        (take_firsts(&children), p, q)
    };
    let map = with_neutral(map, config);
    let mut load = DistLoad::new(s.name(id), bus, map, config, p, q);
    load.extras.put("cim_mrid".to_owned(), Json::text(id));
    loads.push(load);
}

fn loads<C: Calc>(math: &C, s: &Store, warnings: &mut Vec<String>) -> (r: Vec<DistLoad>)
    ensures
        (LoadsV { loads: views(r@), warnings: views(final(warnings)@) }) == loads_of(
            math.sem(),
            s@,
            views(old(warnings)@),
        ),
{
    broadcast use group_views;

    let ids = s.of_class("EnergyConsumer");
    let mut r: Vec<DistLoad> = Vec::new();
    let mut i: usize = 0;
    assert(views(r@) =~= seq![]);
    while i < ids.len()
        invariant
            i <= ids.len(),
            (LoadsV { loads: views(r@), warnings: views(warnings@) }) == loads_n(
                math.sem(),
                s@,
                views(ids@),
                views(old(warnings)@),
                i as nat,
            ),
        decreases ids.len() - i,
    {
        assert(views(ids@)[i as int] == ids@[i as int]@);
        read_load(math, s, &mut r, warnings, ids[i].as_str());
        i = i + 1;
    }
    assert(views(ids@).len() == ids.len());
    r
}

// ---- shunts ----------------------------------------------------------------

/// The shunt of an object on a bus.
pub open spec fn shunt_of(m: Sem, s: StoreV, id: Seq<char>, bus: Seq<char>) -> DistShuntV {
    let children = children_of(
        s,
        "ShuntCompensatorPhase"@,
        "ShuntCompensatorPhase.ShuntCompensator"@,
        id,
    );
    let whole = terminal_map_of(
        m,
        s,
        id,
        "ShuntCompensatorPhase"@,
        "ShuntCompensatorPhase.ShuntCompensator"@,
    );
    let (map, g, b) = if children.len() == 0 {
        (
            whole,
            repeat_of(
                s.number_or(m, id, "LinearShuntCompensator.gPerSection"@, ZERO),
                whole.len(),
            ),
            repeat_of(
                s.number_or(m, id, "LinearShuntCompensator.bPerSection"@, ZERO),
                whole.len(),
            ),
        )
    } else {
        (
            firsts(children),
            child_values(m, s, children, "ShuntCompensatorPhase.gPerSection"@),
            child_values(m, s, children, "ShuntCompensatorPhase.bPerSection"@),
        )
    };
    DistShuntV {
        extras: imported(id),
        ..dist_shunt_of(s.name(id), bus, map, diagonal_of(g), diagonal_of(b))
    }
}

/// The shunts among the first `n` of `ids`; one without a bus is left out.
pub open spec fn shunts_n(m: Sem, s: StoreV, ids: Seq<Seq<char>>, n: nat) -> Seq<DistShuntV>
    decreases n,
{
    if n == 0 {
        seq![]
    } else {
        let before = shunts_n(m, s, ids, (n - 1) as nat);
        match bus_at_of(m, s, ids[n - 1], 0) {
            Some(bus) => before.push(shunt_of(m, s, ids[n - 1], bus)),
            None => before,
        }
    }
}

pub open spec fn shunts_of(m: Sem, s: StoreV) -> Seq<DistShuntV> {
    let ids = s.of_class("LinearShuntCompensator"@);
    shunts_n(m, s, ids, ids.len())
}

fn read_shunt<C: Calc>(math: &C, s: &Store, id: &str, bus: String) -> (r: DistShunt)
    ensures
        r@ == shunt_of(math.sem(), s@, id@, bus@),
{
    let children = phase_children(
        s,
        "ShuntCompensatorPhase",
        "ShuntCompensatorPhase.ShuntCompensator",
        id,
    );
    assert(views(children@).len() == children.len());
    let (map, g, b) = if children.len() == 0 {
        let map = terminal_map(
            math,
            s,
            id,
            "ShuntCompensatorPhase",
            "ShuntCompensatorPhase.ShuntCompensator",
        );
        assert(views(map@).len() == map.len());
        let n = map.len();
        let g = s.number_or(math, id, "LinearShuntCompensator.gPerSection", ZERO);
        let b = s.number_or(math, id, "LinearShuntCompensator.bPerSection", ZERO);
        (map, repeat(g, n), repeat(b, n))
    } else {
        let g = child_numbers(math, s, &children, "ShuntCompensatorPhase.gPerSection");
        let b = child_numbers(math, s, &children, "ShuntCompensatorPhase.bPerSection");
        (take_firsts(&children), g, b)
    };
    let mut shunt = DistShunt::new(s.name(id), bus, map, diagonal(&g), diagonal(&b));
    shunt.extras.put("cim_mrid".to_owned(), Json::text(id));
    shunt
}

fn shunts<C: Calc>(math: &C, s: &Store) -> (r: Vec<DistShunt>)
    ensures
        views(r@) == shunts_of(math.sem(), s@),
{
    broadcast use group_views;

    let ids = s.of_class("LinearShuntCompensator");
    let mut r: Vec<DistShunt> = Vec::new();
    let mut i: usize = 0;
    while i < ids.len()
        invariant
            i <= ids.len(),
            views(r@) == shunts_n(math.sem(), s@, views(ids@), i as nat),
        decreases ids.len() - i,
    {
        assert(views(ids@)[i as int] == ids@[i as int]@);
        if let Some(bus) = bus_at(math, s, ids[i].as_str(), 0) {
            let shunt = read_shunt(math, s, ids[i].as_str(), bus);
            r.push(shunt);
        }
        i = i + 1;
    }
    assert(views(ids@).len() == ids.len());
    r
}

// ---- switches --------------------------------------------------------------

/// The classes of switching equipment.
pub open spec fn switch_classes() -> Seq<Seq<char>> {
    seq![
        "LoadBreakSwitch"@,
        "Breaker"@,
        "Recloser"@,
        "Sectionaliser"@,
        "Fuse"@,
        "Disconnector"@,
        "Jumper"@,
    ]
}

fn switch_class_list() -> (r: Vec<&'static str>)
    ensures
        r@.len() == 7,
        forall|i: int| 0 <= i < 7 ==> (#[trigger] r@[i])@ == switch_classes()[i],
{
    vec![
        "LoadBreakSwitch",
        "Breaker",
        "Recloser",
        "Sectionaliser",
        "Fuse",
        "Disconnector",
        "Jumper",
    ]
}

/// Whether a switch is open: its state, else its normal state, else closed.
pub open spec fn is_open(s: StoreV, id: Seq<char>) -> bool {
    match s.boolean(id, "Switch.open"@) {
        Some(b) => b,
        None => match s.boolean(id, "Switch.normalOpen"@) {
            Some(b) => b,
            None => false,
        },
    }
}

/// The switches, with those among the first `n` of `ids` appended; one without
/// two buses is left out.
pub open spec fn switches_n(
    m: Sem,
    s: StoreV,
    before: Seq<DistSwitchV>,
    ids: Seq<Seq<char>>,
    n: nat,
) -> Seq<DistSwitchV>
    decreases n,
{
    if n == 0 {
        before
    } else {
        let st = switches_n(m, s, before, ids, (n - 1) as nat);
        let id = ids[n - 1];
        match (bus_at_of(m, s, id, 0), bus_at_of(m, s, id, 1)) {
            (Some(from), Some(to)) => {
                let map = terminal_map_of(m, s, id, "SwitchPhase"@, "SwitchPhase.Switch"@);
                st.push(
                    DistSwitchV {
                        extras: imported(id),
                        ..dist_switch_of(s.name(id), from, to, map, map, is_open(s, id))
                    },
                )
            },
            _ => st,
        }
    }
}

/// The switches of the first `c` classes.
pub open spec fn switches_upto(m: Sem, s: StoreV, c: nat) -> Seq<DistSwitchV>
    decreases c,
{
    if c == 0 {
        seq![]
    } else {
        let ids = s.of_class(switch_classes()[c - 1]);
        switches_n(m, s, switches_upto(m, s, (c - 1) as nat), ids, ids.len())
    }
}

pub open spec fn switches_of(m: Sem, s: StoreV) -> Seq<DistSwitchV> {
    switches_upto(m, s, 7)
}

fn class_switches<C: Calc>(math: &C, s: &Store, class: &str, r: &mut Vec<DistSwitch>)
    ensures
        views(final(r)@) == switches_n(
            math.sem(),
            s@,
            views(old(r)@),
            s@.of_class(class@),
            s@.of_class(class@).len(),
        ),
{
    broadcast use group_views;

    let ids = s.of_class(class);
    let mut i: usize = 0;
    while i < ids.len()
        invariant
            i <= ids.len(),
            views(r@) == switches_n(math.sem(), s@, views(old(r)@), views(ids@), i as nat),
        decreases ids.len() - i,
    {
        assert(views(ids@)[i as int] == ids@[i as int]@);
        let id = ids[i].as_str();
        let from = bus_at(math, s, id, 0);
        let to = bus_at(math, s, id, 1);
        if let (Some(from), Some(to)) = (from, to) {
            let map = terminal_map(math, s, id, "SwitchPhase", "SwitchPhase.Switch");
            let open = match s.boolean(id, "Switch.open") {
                Some(b) => b,
                None => match s.boolean(id, "Switch.normalOpen") {
                    Some(b) => b,
                    None => false,
                },
            };
            let map_from = copy_list(&map);
            let mut switch = DistSwitch::new(s.name(id), from, to, map_from, map, open);
            switch.extras.put("cim_mrid".to_owned(), Json::text(id));
            r.push(switch);
        }
        i = i + 1;
    }
    assert(views(ids@).len() == ids.len());
}

fn switches<C: Calc>(math: &C, s: &Store) -> (r: Vec<DistSwitch>)
    ensures
        views(r@) == switches_of(math.sem(), s@),
{
    broadcast use group_views;

    let classes = switch_class_list();
    let mut r: Vec<DistSwitch> = Vec::new();
    let mut c: usize = 0;
    while c < classes.len()
        invariant
            c <= classes.len(),
            classes@.len() == 7,
            forall|i: int| 0 <= i < 7 ==> (#[trigger] classes@[i])@ == switch_classes()[i],
            views(r@) == switches_upto(math.sem(), s@, c as nat),
        decreases classes.len() - c,
    {
        class_switches(math, s, classes[c], &mut r);
        c = c + 1;
    }
    r
}

// ---- transformers ----------------------------------------------------------

/// The ends of a transformer among the first `n` of `ids`, by end number; those
/// of one number stay in document order.
pub open spec fn ends_n(m: Sem, s: StoreV, xf: Seq<char>, ids: Seq<Seq<char>>, n: nat) -> Seq<
    (Bits, Seq<char>),
>
    decreases n,
{
    if n == 0 {
        seq![]
    } else {
        let before = ends_n(m, s, xf, ids, (n - 1) as nat);
        let id = ids[n - 1];
        if s.refv(id, "PowerTransformerEnd.PowerTransformer"@) == Some(xf) {
            insert_by_rank_of(
                before,
                (s.number_or(m, id, "TransformerEnd.endNumber"@, ONE), id),
            )
        } else {
            before
        }
    }
}

#[verifier::opaque]
pub open spec fn ends_of(m: Sem, s: StoreV, xf: Seq<char>) -> Seq<(Bits, Seq<char>)> {
    let ids = s.of_class("PowerTransformerEnd"@);
    ends_n(m, s, xf, ids, ids.len())
}

fn transformer_ends<C: Calc>(math: &C, s: &Store, xf: &str) -> (r: Vec<(Bits, String)>)
    ensures
        views(r@) == ends_of(math.sem(), s@, xf@),
{
    broadcast use group_views;

    reveal(ends_of);
    let ids = s.of_class("PowerTransformerEnd");
    let mut r: Vec<(Bits, String)> = Vec::new();
    let mut i: usize = 0;
    while i < ids.len()
        invariant
            i <= ids.len(),
            views(r@) == ends_n(math.sem(), s@, xf@, views(ids@), i as nat),
        decreases ids.len() - i,
    {
        assert(views(ids@)[i as int] == ids@[i as int]@);
        let id = ids[i].as_str();
        if s.refers(id, "PowerTransformerEnd.PowerTransformer", xf) {
            let n = s.number_or(math, id, "TransformerEnd.endNumber", ONE);
            insert_by_rank(&mut r, n, ids[i].clone());
        }
        i = i + 1;
    }
    assert(views(ids@).len() == ids.len());
    r
}

/// How many of the first `n` terminals are not the neutral.
pub open spec fn hot_count_n(map: Seq<Seq<char>>, n: nat) -> nat
    decreases n,
{
    if n == 0 {
        0
    } else if map[n - 1] == "4"@ {
        hot_count_n(map, (n - 1) as nat)
    } else {
        hot_count_n(map, (n - 1) as nat) + 1
    }
}

fn hot_count(map: &Vec<String>) -> (r: usize)
    ensures
        r == hot_count_n(views(map@), map@.len()),
        r <= map.len(),
{
    let mut r: usize = 0;
    let mut i: usize = 0;
    while i < map.len()
        invariant
            i <= map.len(),
            r <= i,
            r == hot_count_n(views(map@), i as nat),
        decreases map.len() - i,
    {
        assert(views(map@)[i as int] == map@[i as int]@);
        if !same(map[i].as_str(), "4") {
            r = r + 1;
        }
        i = i + 1;
    }
    r
}

/// The phases named by the terminal of an end; none where it names none.
pub open spec fn end_phases(s: StoreV, end: Seq<char>) -> nat {
    match s.refv(end, "TransformerEnd.Terminal"@) {
        Some(term) => match s.enum_value(term, "Terminal.phases"@) {
            Some(code) => hot_count_n(expand_of(code), expand_of(code).len()),
            None => 0,
        },
        None => 0,
    }
}

/// The phases of a transformer: those of the first end, from the `i`-th on,
/// that names any, else three.
pub open spec fn phase_count_from(s: StoreV, ends: Seq<(Bits, Seq<char>)>, i: int) -> nat
    decreases ends.len() - i,
{
    if i < 0 || i >= ends.len() {
        3
    } else if end_phases(s, ends[i].1) > 0 {
        end_phases(s, ends[i].1)
    } else {
        phase_count_from(s, ends, i + 1)
    }
}

fn transformer_phase_count(s: &Store, ends: &Vec<(Bits, String)>) -> (r: usize)
    ensures
        r == phase_count_from(s@, views(ends@), 0),
{
    let mut i: usize = 0;
    while i < ends.len()
        invariant
            i <= ends.len(),
            phase_count_from(s@, views(ends@), 0) == phase_count_from(
                s@,
                views(ends@),
                i as int,
            ),
        decreases ends.len() - i,
    {
        assert(views(ends@)[i as int] == (ends@[i as int].0, ends@[i as int].1@));
        if let Some(term) = s.refv(ends[i].1.as_str(), "TransformerEnd.Terminal") {
            if let Some(code) = s.enum_value(term.as_str(), "Terminal.phases") {
                let map = expand_phase_code(code.as_str());
                assert(views(map@).len() == map.len());
                let n = hot_count(&map);
                if n > 0 {
                    return n;
                }
            }
        }
        i = i + 1;
    }
    3
}

/// The winding of an end, where its terminal is tied to a node. Its resistance
/// is in percent of its impedance base.
pub open spec fn winding_at(m: Sem, s: StoreV, end: Seq<char>, phases: nat) -> Option<WindingV> {
    match s.refv(end, "TransformerEnd.Terminal"@) {
        None => None,
        Some(term) => match terminal_node_of(s, term) {
            None => None,
            Some(cn) => {
                let conn = if s.enum_value(end, "PowerTransformerEnd.connectionKind"@) == Some(
                    "D"@,
                ) {
                    WindingConn::Delta
                } else {
                    WindingConn::Wye
                };
                let named = match s.enum_value(term, "Terminal.phases"@) {
                    Some(code) => if expand_of(code).len() > 0 {
                        expand_of(code)
                    } else {
                        numbered(phases)
                    },
                    None => numbered(phases),
                };
                let map = if conn == WindingConn::Wye {
                    with_neutral_of(named, Configuration::Wye)
                } else {
                    named
                };
                let v_ref = s.number_or(m, end, "PowerTransformerEnd.ratedU"@, ZERO);
                let s_rating = s.number_or(m, end, "PowerTransformerEnd.ratedS"@, ZERO);
                let bare = winding_of(s.name(cn), map, conn, v_ref, s_rating);
                let r = s.number(m, end, "PowerTransformerEnd.r"@);
                let base = z_base_of(m, v_ref, s_rating);
                Some(
                    match (r, base) {
                        (Some(r), Some(base)) => WindingV {
                            r_pct: m.times(m.over(r, base), HUNDRED),
                            ..bare
                        },
                        _ => bare,
                    },
                )
            },
        },
    }
}

/// The windings of the first `n` ends, where all of them have one.
pub open spec fn windings_n(
    m: Sem,
    s: StoreV,
    ends: Seq<(Bits, Seq<char>)>,
    phases: nat,
    n: nat,
) -> Option<Seq<WindingV>>
    decreases n,
{
    if n == 0 {
        Some(seq![])
    } else {
        match (windings_n(m, s, ends, phases, (n - 1) as nat), winding_at(
            m,
            s,
            ends[n - 1].1,
            phases,
        )) {
            (Some(before), Some(w)) => Some(before.push(w)),
            _ => None,
        }
    }
}

proof fn lemma_windings_none(
    m: Sem,
    s: StoreV,
    ends: Seq<(Bits, Seq<char>)>,
    phases: nat,
    k: nat,
    n: nat,
)
    requires
        k <= n,
        windings_n(m, s, ends, phases, k) is None,
    ensures
        windings_n(m, s, ends, phases, n) is None,
    decreases n,
{
    if k < n {
        lemma_windings_none(m, s, ends, phases, k, (n - 1) as nat);
    }
}

fn winding<C: Calc>(math: &C, s: &Store, end: &str, phases: usize) -> (r: Option<Winding>)
    ensures
        opt_view(r) == winding_at(math.sem(), s@, end@, phases as nat),
{
    let term = match s.refv(end, "TransformerEnd.Terminal") {
        Some(t) => t.as_str(),
        None => {
            return None;
        },
    };
    let cn = match terminal_node(s, term) {
        Some(cn) => cn.as_str(),
        None => {
            return None;
        },
    };
    let conn = match s.enum_value(end, "PowerTransformerEnd.connectionKind") {
        Some(k) if same(k.as_str(), "D") => WindingConn::Delta,
        _ => WindingConn::Wye,
    };
    let named = match s.enum_value(term, "Terminal.phases") {
        Some(code) => {
            let e = expand_phase_code(code.as_str());
            assert(views(e@).len() == e.len());
            if e.len() > 0 {
                e
            } else {
                numbered_map(phases)
            }
        },
        None => numbered_map(phases),
    };
    let map = match conn {
        WindingConn::Wye => with_neutral(named, Configuration::Wye),
        WindingConn::Delta => named,
    };
    let v_ref = s.number_or(math, end, "PowerTransformerEnd.ratedU", ZERO);
    let s_rating = s.number_or(math, end, "PowerTransformerEnd.ratedS", ZERO);
    let mut w = Winding::new(s.name(cn), map, conn, v_ref, s_rating);
    if let Some(r) = s.number(math, end, "PowerTransformerEnd.r") {
        if let Some(base) = z_base(math, v_ref, s_rating) {
            w.r_pct = times(math, over(math, r, base), HUNDRED);
        }
    }
    Some(w)
}

fn build_windings<C: Calc>(math: &C, s: &Store, ends: &Vec<(Bits, String)>, phases: usize) -> (r:
    Option<Vec<Winding>>)
    ensures
        match r {
            Some(w) => windings_n(
                math.sem(),
                s@,
                views(ends@),
                phases as nat,
                ends@.len(),
            ) == Some(views(w@)),
            None => windings_n(math.sem(), s@, views(ends@), phases as nat, ends@.len()) is None,
        },
{
    broadcast use group_views;

    let mut r: Vec<Winding> = Vec::new();
    let mut i: usize = 0;
    while i < ends.len()
        invariant
            i <= ends.len(),
            windings_n(math.sem(), s@, views(ends@), phases as nat, i as nat) == Some(views(r@)),
        decreases ends.len() - i,
    {
        assert(views(ends@)[i as int] == (ends@[i as int].0, ends@[i as int].1@));
        match winding(math, s, ends[i].1.as_str(), phases) {
            Some(w) => {
                r.push(w);
            },
            None => {
                proof {
                    lemma_windings_none(
                        math.sem(),
                        s@,
                        views(ends@),
                        phases as nat,
                        (i + 1) as nat,
                        ends@.len(),
                    );
                }
                return None;
            },
        }
        i = i + 1;
    }
    Some(r)
}

/// Whether a reference is to one of the ends of a transformer.
pub open spec fn among(end: Option<Seq<char>>, ends: Seq<(Bits, Seq<char>)>) -> bool {
    exists|k: int| 0 <= k < ends.len() && end == Some((#[trigger] ends[k]).1)
}

/// Whether a mesh impedance joins ends of a transformer.
pub open spec fn joins(s: StoreV, mesh: Seq<char>, ends: Seq<(Bits, Seq<char>)>) -> bool {
    &&& among(s.refv(mesh, "TransformerMeshImpedance.FromTransformerEnd"@), ends)
    &&& among(s.refv(mesh, "TransformerMeshImpedance.ToTransformerEnd"@), ends)
}

/// The first reactance, from the `i`-th mesh impedance on, of one that joins the
/// ends of a transformer.
pub open spec fn mesh_from(
    m: Sem,
    s: StoreV,
    ends: Seq<(Bits, Seq<char>)>,
    ids: Seq<Seq<char>>,
    i: int,
) -> Option<Bits>
    decreases ids.len() - i,
{
    if i < 0 || i >= ids.len() {
        None
    } else if !joins(s, ids[i], ends) {
        mesh_from(m, s, ends, ids, i + 1)
    } else {
        match s.number(m, ids[i], "TransformerMeshImpedance.x"@) {
            Some(x) => Some(x),
            None => mesh_from(m, s, ends, ids, i + 1),
        }
    }
}

fn is_among(end: Option<&String>, ends: &Vec<(Bits, String)>) -> (r: bool)
    ensures
        r == among(
            match end {
                Some(e) => Some(e@),
                None => None,
            },
            views(ends@),
        ),
{
    let id = match end {
        Some(e) => e,
        None => {
            return false;
        },
    };
    assert(views(ends@).len() == ends.len());
    let mut k: usize = 0;
    while k < ends.len()
        invariant
            k <= ends.len(),
            end == Some(id),
            views(ends@).len() == ends.len(),
            forall|j: int| 0 <= j < k ==> id@ != (#[trigger] views(ends@)[j]).1,
        decreases ends.len() - k,
    {
        assert(views(ends@)[k as int] == (ends@[k as int].0, ends@[k as int].1@));
        if same(ends[k].1.as_str(), id.as_str()) {
            return true;
        }
        k = k + 1;
    }
    false
}

/// The sum of the first `n` ends' own reactances.
pub open spec fn end_x_sum(m: Sem, s: StoreV, ends: Seq<(Bits, Seq<char>)>, n: nat) -> Bits
    decreases n,
{
    if n == 0 {
        ZERO
    } else {
        m.plus(
            end_x_sum(m, s, ends, (n - 1) as nat),
            s.number_or(m, ends[n - 1].1, "PowerTransformerEnd.x"@, ZERO),
        )
    }
}

/// The short-circuit reactance in percent of the first end's impedance base:
/// that of a mesh impedance between its ends, else the sum of the ends' own.
pub open spec fn reactance_of(m: Sem, s: StoreV, ends: Seq<(Bits, Seq<char>)>) -> Bits {
    let (v_ref, s_rating) = if ends.len() > 0 {
        (
            s.number_or(m, ends[0].1, "PowerTransformerEnd.ratedU"@, ZERO),
            s.number_or(m, ends[0].1, "PowerTransformerEnd.ratedS"@, ZERO),
        )
    } else {
        (ZERO, ZERO)
    };
    match z_base_of(m, v_ref, s_rating) {
        None => ZERO,
        Some(base) => {
            let x = match mesh_from(m, s, ends, s.of_class("TransformerMeshImpedance"@), 0) {
                Some(x) => x,
                None => end_x_sum(m, s, ends, ends.len()),
            };
            m.times(m.over(x, base), HUNDRED)
        },
    }
}

fn mesh_reactance_pct<C: Calc>(math: &C, s: &Store, ends: &Vec<(Bits, String)>) -> (r: Bits)
    ensures
        r == reactance_of(math.sem(), s@, views(ends@)),
{
    assert(views(ends@).len() == ends.len());
    let (v_ref, s_rating) = if ends.len() > 0 {
        assert(views(ends@)[0] == (ends@[0].0, ends@[0].1@));
        let e = ends[0].1.as_str();
        (
            s.number_or(math, e, "PowerTransformerEnd.ratedU", ZERO),
            s.number_or(math, e, "PowerTransformerEnd.ratedS", ZERO),
        )
    } else {
        (ZERO, ZERO)
    };
    let base = match z_base(math, v_ref, s_rating) {
        Some(b) => b,
        None => {
            return ZERO;
        },
    };
    let meshes = s.of_class("TransformerMeshImpedance");
    let mut i: usize = 0;
    while i < meshes.len()
        invariant
            i <= meshes.len(),
            views(meshes@) == s@.of_class("TransformerMeshImpedance"@),
            mesh_from(math.sem(), s@, views(ends@), views(meshes@), 0) == mesh_from(
                math.sem(),
                s@,
                views(ends@),
                views(meshes@),
                i as int,
            ),
            Some(base) == z_base_of(math.sem(), v_ref, s_rating),
            reactance_of(math.sem(), s@, views(ends@)) == math.sem().times(
                math.sem().over(
                    match mesh_from(math.sem(), s@, views(ends@), views(meshes@), 0) {
                        Some(x) => x,
                        None => end_x_sum(math.sem(), s@, views(ends@), views(ends@).len()),
                    },
                    base,
                ),
                HUNDRED,
            ),
        decreases meshes.len() - i,
    {
        assert(views(meshes@)[i as int] == meshes@[i as int]@);
        let mesh = meshes[i].as_str();
        let from = s.refv(mesh, "TransformerMeshImpedance.FromTransformerEnd");
        let to = s.refv(mesh, "TransformerMeshImpedance.ToTransformerEnd");
        if is_among(from, ends) && is_among(to, ends) {
            if let Some(x) = s.number(math, mesh, "TransformerMeshImpedance.x") {
                return times(math, over(math, x, base), HUNDRED);
            }
        }
        i = i + 1;
    }
    let mut sum = ZERO;
    let mut k: usize = 0;
    while k < ends.len()
        invariant
            k <= ends.len(),
            sum == end_x_sum(math.sem(), s@, views(ends@), k as nat),
        decreases ends.len() - k,
    {
        assert(views(ends@)[k as int] == (ends@[k as int].0, ends@[k as int].1@));
        sum =
        plus(math, sum, s.number_or(math, ends[k].1.as_str(), "PowerTransformerEnd.x", ZERO));
        k = k + 1;
    }
    times(math, over(math, sum, base), HUNDRED)
}

/// Transformers read so far, and the warnings.
pub struct TransformersV {
    pub transformers: Seq<DistTransformerV>,
    pub warnings: Seq<Seq<char>>,
}

/// A transformer of two ends, each on a node; any other is reported.
pub open spec fn transformer_step(
    m: Sem,
    s: StoreV,
    st: TransformersV,
    xf: Seq<char>,
) -> TransformersV {
    let ends = ends_of(m, s, xf);
    let phases = phase_count_from(s, ends, 0);
    let warn = |why: Seq<char>|
        TransformersV {
            warnings: st.warnings.push("PowerTransformer "@ + s.name(xf) + why),
            ..st
        };
    if ends.len() == 0 {
        warn(
            ": no PowerTransformerEnd records (TransformerTank/TankInfo form is not mapped yet); skipped"@,
        )
    } else if ends.len() != 2 {
        warn(
            ": "@ + dec_of(ends.len()) + " windings (only two-winding is mapped); skipped"@,
        )
    } else {
        match windings_n(m, s, ends, phases, 2) {
            None => warn(": an end has no terminal on a connectivity node; skipped"@),
            Some(windings) => TransformersV {
                transformers: st.transformers.push(
                    DistTransformerV {
                        extras: imported(xf),
                        ..dist_transformer_of(
                            s.name(xf),
                            windings,
                            seq![reactance_of(m, s, ends)],
                            phases as usize,
                        )
                    },
                ),
                ..st
            },
        }
    }
}

pub open spec fn transformers_n(
    m: Sem,
    s: StoreV,
    ids: Seq<Seq<char>>,
    w: Seq<Seq<char>>,
    n: nat,
) -> TransformersV
    decreases n,
{
    if n == 0 {
        TransformersV { transformers: seq![], warnings: w }
    } else {
        transformer_step(m, s, transformers_n(m, s, ids, w, (n - 1) as nat), ids[n - 1])
    }
}

/// Every transformer, after the warnings `w`.
pub open spec fn transformers_of(m: Sem, s: StoreV, w: Seq<Seq<char>>) -> TransformersV {
    let ids = s.of_class("PowerTransformer"@);
    transformers_n(m, s, ids, w, ids.len())
}

fn read_transformer<C: Calc>(
    math: &C,
    s: &Store,
    r: &mut Vec<DistTransformer>,
    warnings: &mut Vec<String>,
    xf: &str,
)
    ensures
        (TransformersV { transformers: views(final(r)@), warnings: views(final(warnings)@) })
            == transformer_step(
            math.sem(),
            s@,
            TransformersV { transformers: views(old(r)@), warnings: views(old(warnings)@) },
            xf@,
        ),
{
    broadcast use group_views;

    let ends = transformer_ends(math, s, xf);
    assert(views(ends@).len() == ends.len());
    let name = s.name(xf);
    if ends.len() == 0 {
        warnings.push(
            cat3(
                "PowerTransformer ",
                name.as_str(),
                ": no PowerTransformerEnd records (TransformerTank/TankInfo form is not mapped yet); skipped",
            ),
        );
        return;
    }
    if ends.len() != 2 {
        let count = cat3(
            ": ",
            dec_usize(ends.len()).as_str(),
            " windings (only two-winding is mapped); skipped",
        );
        warnings.push(cat3("PowerTransformer ", name.as_str(), count.as_str()));
        return;
    }
    let phases = transformer_phase_count(s, &ends);
    let windings = match build_windings(math, s, &ends, phases) {
        Some(w) => w,
        None => {
            warnings.push(
                cat3(
                    "PowerTransformer ",
                    name.as_str(),
                    ": an end has no terminal on a connectivity node; skipped",
                ),
            );
            return;
        },
    };
    let xsc = vec![mesh_reactance_pct(math, s, &ends)];
    assert(xsc@ =~= seq![reactance_of(math.sem(), s@, views(ends@))]);
    let mut t = DistTransformer::new(name, windings, xsc, phases);
    t.extras.put("cim_mrid".to_owned(), Json::text(xf));
    r.push(t);
}

fn transformers<C: Calc>(math: &C, s: &Store, warnings: &mut Vec<String>) -> (r: Vec<
    DistTransformer,
>)
    ensures
        (TransformersV { transformers: views(r@), warnings: views(final(warnings)@) })
            == transformers_of(math.sem(), s@, views(old(warnings)@)),
{
    broadcast use group_views;

    let ids = s.of_class("PowerTransformer");
    let mut r: Vec<DistTransformer> = Vec::new();
    let mut i: usize = 0;
    assert(views(r@) =~= seq![]);
    while i < ids.len()
        invariant
            i <= ids.len(),
            (TransformersV { transformers: views(r@), warnings: views(warnings@) })
                == transformers_n(
                math.sem(),
                s@,
                views(ids@),
                views(old(warnings)@),
                i as nat,
            ),
        decreases ids.len() - i,
    {
        assert(views(ids@)[i as int] == ids@[i as int]@);
        read_transformer(math, s, &mut r, warnings, ids[i].as_str());
        i = i + 1;
    }
    assert(views(ids@).len() == ids.len());
    r
}

// ---- sources ---------------------------------------------------------------

/// The angle of the `i`-th phase: a third of a turn behind the one before.
pub open spec fn phase_angle(m: Sem, base: Bits, i: nat) -> Bits {
    m.minus(base, m.over(m.times(m.times(m.from_int(i as u64), TWO), PI), THREE))
}

/// The source of an object on a bus. Its voltage is line to line where it has
/// two terminals or more, and stands line to neutral at each.
pub open spec fn source_of(m: Sem, s: StoreV, id: Seq<char>, bus: Seq<char>) -> VoltageSourceV {
    let map = terminal_map_of(m, s, id, "EnergySourcePhase"@, "EnergySourcePhase.EnergySource"@);
    let v_ll = match s.number(m, id, "EnergySource.voltageMagnitude"@) {
        Some(v) => v,
        None => s.number_or(m, id, "EnergySource.nominalVoltage"@, ZERO),
    };
    let v_ln = if map.len() >= 2 {
        m.over(v_ll, m.root3())
    } else {
        v_ll
    };
    let base = s.number_or(m, id, "EnergySource.voltageAngle"@, ZERO);
    VoltageSourceV {
        extras: imported(id),
        ..voltage_source_of(
            s.name(id),
            bus,
            with_neutral_of(map, Configuration::Wye),
            repeat_of(v_ln, map.len()),
            Seq::new(map.len(), |i: int| phase_angle(m, base, i as nat)),
        )
    }
}

/// The sources among the first `n` of `ids`; one without a bus is left out.
pub open spec fn sources_n(m: Sem, s: StoreV, ids: Seq<Seq<char>>, n: nat) -> Seq<VoltageSourceV>
    decreases n,
{
    if n == 0 {
        seq![]
    } else {
        let before = sources_n(m, s, ids, (n - 1) as nat);
        match bus_at_of(m, s, ids[n - 1], 0) {
            Some(bus) => before.push(source_of(m, s, ids[n - 1], bus)),
            None => before,
        }
    }
}

pub open spec fn sources_of(m: Sem, s: StoreV) -> Seq<VoltageSourceV> {
    let ids = s.of_class("EnergySource"@);
    sources_n(m, s, ids, ids.len())
}

fn read_source<C: Calc>(math: &C, s: &Store, id: &str, bus: String) -> (r: VoltageSource)
    ensures
        r@ == source_of(math.sem(), s@, id@, bus@),
{
    let map = terminal_map(math, s, id, "EnergySourcePhase", "EnergySourcePhase.EnergySource");
    assert(views(map@).len() == map.len());
    let n = map.len();
    let v_ll = match s.number(math, id, "EnergySource.voltageMagnitude") {
        Some(v) => v,
        None => s.number_or(math, id, "EnergySource.nominalVoltage", ZERO),
    };
    let v_ln = if n >= 2 {
        over(math, v_ll, root3(math))
    } else {
        v_ll
    };
    let base = s.number_or(math, id, "EnergySource.voltageAngle", ZERO);
    let ghost want = Seq::new(n as nat, |i: int| phase_angle(math.sem(), base, i as nat));
    let mut angles: Vec<Bits> = Vec::new();
    let mut i: usize = 0;
    while i < n
        invariant
            i <= n,
            want.len() == n,
            forall|k: int| 0 <= k < n ==> #[trigger] want[k] == phase_angle(math.sem(), base, k as nat),
            angles@ == want.take(i as int),
        decreases n - i,
    {
        let turn = over(
            math,
            times(math, times(math, from_int(math, i as u64), TWO), PI),
            THREE,
        );
        angles.push(minus(math, base, turn));
        i = i + 1;
        assert(angles@ =~= want.take(i as int));
    }
    assert(angles@ =~= want);
    let map = with_neutral(map, Configuration::Wye);
    let mut source = VoltageSource::new(s.name(id), bus, map, repeat(v_ln, n), angles);
    source.extras.put("cim_mrid".to_owned(), Json::text(id));
    source
}

fn sources<C: Calc>(math: &C, s: &Store) -> (r: Vec<VoltageSource>)
    ensures
        views(r@) == sources_of(math.sem(), s@),
{
    broadcast use group_views;

    let ids = s.of_class("EnergySource");
    let mut r: Vec<VoltageSource> = Vec::new();
    let mut i: usize = 0;
    while i < ids.len()
        invariant
            i <= ids.len(),
            views(r@) == sources_n(math.sem(), s@, views(ids@), i as nat),
        decreases ids.len() - i,
    {
        assert(views(ids@)[i as int] == ids@[i as int]@);
        if let Some(bus) = bus_at(math, s, ids[i].as_str(), 0) {
            let source = read_source(math, s, ids[i].as_str(), bus);
            r.push(source);
        }
        i = i + 1;
    }
    assert(views(ids@).len() == ids.len());
    r
}

// ---- buses -----------------------------------------------------------------

/// The terminals in use at a bus, with those that an element presents at `at`
/// added where that is the same bus, letter case aside.
pub open spec fn use_at(
    used: Seq<Seq<char>>,
    bus: Seq<char>,
    at: Seq<char>,
    terms: Seq<Seq<char>>,
) -> Seq<
    Seq<char>,
> {
    if lower_of(at) == lower_of(bus) {
        set_extend_of(used, terms)
    } else {
        used
    }
}

fn add_use(used: &mut Vec<String>, bus: &str, at: &str, terms: &Vec<String>)
    ensures
        views(final(used)@) == use_at(views(old(used)@), bus@, at@, views(terms@)),
{
    if same_ignoring_case(at, bus) {
        set_extend(used, terms);
    }
}

pub open spec fn line_use(
    used: Seq<Seq<char>>,
    bus: Seq<char>,
    items: Seq<DistLineV>,
    n: nat,
) -> Seq<
    Seq<char>,
>
    decreases n,
{
    if n == 0 {
        used
    } else {
        let x = items[n - 1];
        use_at(
            use_at(
                line_use(used, bus, items, (n - 1) as nat),
                bus,
                x.bus_from,
                x.terminal_map_from,
            ),
            bus,
            x.bus_to,
            x.terminal_map_to,
        )
    }
}

fn add_line_use(used: &mut Vec<String>, bus: &str, items: &Vec<DistLine>)
    ensures
        views(final(used)@) == line_use(views(old(used)@), bus@, views(items@), items@.len()),
{
    let mut i: usize = 0;
    while i < items.len()
        invariant
            i <= items.len(),
            views(used@) == line_use(views(old(used)@), bus@, views(items@), i as nat),
        decreases items.len() - i,
    {
        assert(views(items@)[i as int] == items@[i as int]@);
        add_use(used, bus, items[i].bus_from.as_str(), &items[i].terminal_map_from);
        add_use(used, bus, items[i].bus_to.as_str(), &items[i].terminal_map_to);
        i = i + 1;
    }
}

pub open spec fn switch_use(
    used: Seq<Seq<char>>,
    bus: Seq<char>,
    items: Seq<DistSwitchV>,
    n: nat,
) -> Seq<
    Seq<char>,
>
    decreases n,
{
    if n == 0 {
        used
    } else {
        let x = items[n - 1];
        use_at(
            use_at(
                switch_use(used, bus, items, (n - 1) as nat),
                bus,
                x.bus_from,
                x.terminal_map_from,
            ),
            bus,
            x.bus_to,
            x.terminal_map_to,
        )
    }
}

fn add_switch_use(used: &mut Vec<String>, bus: &str, items: &Vec<DistSwitch>)
    ensures
        views(final(used)@) == switch_use(views(old(used)@), bus@, views(items@), items@.len()),
{
    let mut i: usize = 0;
    while i < items.len()
        invariant
            i <= items.len(),
            views(used@) == switch_use(views(old(used)@), bus@, views(items@), i as nat),
        decreases items.len() - i,
    {
        assert(views(items@)[i as int] == items@[i as int]@);
        add_use(used, bus, items[i].bus_from.as_str(), &items[i].terminal_map_from);
        add_use(used, bus, items[i].bus_to.as_str(), &items[i].terminal_map_to);
        i = i + 1;
    }
}

pub open spec fn load_use(
    used: Seq<Seq<char>>,
    bus: Seq<char>,
    items: Seq<DistLoadV>,
    n: nat,
) -> Seq<
    Seq<char>,
>
    decreases n,
{
    if n == 0 {
        used
    } else {
        let x = items[n - 1];
        use_at(load_use(used, bus, items, (n - 1) as nat), bus, x.bus, x.terminal_map)
    }
}

fn add_load_use(used: &mut Vec<String>, bus: &str, items: &Vec<DistLoad>)
    ensures
        views(final(used)@) == load_use(views(old(used)@), bus@, views(items@), items@.len()),
{
    let mut i: usize = 0;
    while i < items.len()
        invariant
            i <= items.len(),
            views(used@) == load_use(views(old(used)@), bus@, views(items@), i as nat),
        decreases items.len() - i,
    {
        assert(views(items@)[i as int] == items@[i as int]@);
        add_use(used, bus, items[i].bus.as_str(), &items[i].terminal_map);
        i = i + 1;
    }
}

pub open spec fn shunt_use(
    used: Seq<Seq<char>>,
    bus: Seq<char>,
    items: Seq<DistShuntV>,
    n: nat,
) -> Seq<
    Seq<char>,
>
    decreases n,
{
    if n == 0 {
        used
    } else {
        let x = items[n - 1];
        use_at(shunt_use(used, bus, items, (n - 1) as nat), bus, x.bus, x.terminal_map)
    }
}

fn add_shunt_use(used: &mut Vec<String>, bus: &str, items: &Vec<DistShunt>)
    ensures
        views(final(used)@) == shunt_use(views(old(used)@), bus@, views(items@), items@.len()),
{
    let mut i: usize = 0;
    while i < items.len()
        invariant
            i <= items.len(),
            views(used@) == shunt_use(views(old(used)@), bus@, views(items@), i as nat),
        decreases items.len() - i,
    {
        assert(views(items@)[i as int] == items@[i as int]@);
        add_use(used, bus, items[i].bus.as_str(), &items[i].terminal_map);
        i = i + 1;
    }
}

pub open spec fn winding_use(
    used: Seq<Seq<char>>,
    bus: Seq<char>,
    items: Seq<WindingV>,
    n: nat,
) -> Seq<
    Seq<char>,
>
    decreases n,
{
    if n == 0 {
        used
    } else {
        let x = items[n - 1];
        use_at(winding_use(used, bus, items, (n - 1) as nat), bus, x.bus, x.terminal_map)
    }
}

fn add_winding_use(used: &mut Vec<String>, bus: &str, items: &Vec<Winding>)
    ensures
        views(final(used)@) == winding_use(views(old(used)@), bus@, views(items@), items@.len()),
{
    let mut i: usize = 0;
    while i < items.len()
        invariant
            i <= items.len(),
            views(used@) == winding_use(views(old(used)@), bus@, views(items@), i as nat),
        decreases items.len() - i,
    {
        assert(views(items@)[i as int] == items@[i as int]@);
        add_use(used, bus, items[i].bus.as_str(), &items[i].terminal_map);
        i = i + 1;
    }
}

pub open spec fn source_use(
    used: Seq<Seq<char>>,
    bus: Seq<char>,
    items: Seq<VoltageSourceV>,
    n: nat,
) -> Seq<
    Seq<char>,
>
    decreases n,
{
    if n == 0 {
        used
    } else {
        let x = items[n - 1];
        use_at(source_use(used, bus, items, (n - 1) as nat), bus, x.bus, x.terminal_map)
    }
}

fn add_source_use(used: &mut Vec<String>, bus: &str, items: &Vec<VoltageSource>)
    ensures
        views(final(used)@) == source_use(views(old(used)@), bus@, views(items@), items@.len()),
{
    let mut i: usize = 0;
    while i < items.len()
        invariant
            i <= items.len(),
            views(used@) == source_use(views(old(used)@), bus@, views(items@), i as nat),
        decreases items.len() - i,
    {
        assert(views(items@)[i as int] == items@[i as int]@);
        add_use(used, bus, items[i].bus.as_str(), &items[i].terminal_map);
        i = i + 1;
    }
}

pub open spec fn transformer_use(
    used: Seq<Seq<char>>,
    bus: Seq<char>,
    items: Seq<DistTransformerV>,
    n: nat,
) -> Seq<Seq<char>>
    decreases n,
{
    if n == 0 {
        used
    } else {
        let w = items[n - 1].windings;
        winding_use(transformer_use(used, bus, items, (n - 1) as nat), bus, w, w.len())
    }
}

fn add_transformer_use(used: &mut Vec<String>, bus: &str, items: &Vec<DistTransformer>)
    ensures
        views(final(used)@) == transformer_use(
            views(old(used)@),
            bus@,
            views(items@),
            items@.len(),
        ),
{
    let mut i: usize = 0;
    while i < items.len()
        invariant
            i <= items.len(),
            views(used@) == transformer_use(views(old(used)@), bus@, views(items@), i as nat),
        decreases items.len() - i,
    {
        assert(views(items@)[i as int] == items@[i as int]@);
        assert(items@[i as int]@.windings.len() == items@[i as int].windings@.len());
        add_winding_use(used, bus, &items[i].windings);
        i = i + 1;
    }
}

/// The elements that connect to buses.
pub struct ElementsV {
    pub lines: Seq<DistLineV>,
    pub switches: Seq<DistSwitchV>,
    pub loads: Seq<DistLoadV>,
    pub shunts: Seq<DistShuntV>,
    pub transformers: Seq<DistTransformerV>,
    pub sources: Seq<VoltageSourceV>,
}

/// The terminals that the elements present at a bus, in order, each once.
#[verifier::opaque]
pub open spec fn used_terminals(bus: Seq<char>, e: ElementsV) -> Seq<Seq<char>> {
    let u = line_use(Seq::empty(), bus, e.lines, e.lines.len());
    let u = switch_use(u, bus, e.switches, e.switches.len());
    let u = load_use(u, bus, e.loads, e.loads.len());
    let u = shunt_use(u, bus, e.shunts, e.shunts.len());
    let u = transformer_use(u, bus, e.transformers, e.transformers.len());
    source_use(u, bus, e.sources, e.sources.len())
}

/// A connectivity node as a bus: it has the terminals that the elements present
/// there, and its neutral is perfectly grounded.
pub open spec fn derived_bus(s: StoreV, cn: Seq<char>, e: ElementsV) -> DistBusV {
    let terminals = used_terminals(s.name(cn), e);
    DistBusV {
        grounded: if terminals.contains("4"@) {
            seq!["4"@]
        } else {
            seq![]
        },
        extras: imported(cn),
        ..dist_bus_of(s.name(cn), terminals)
    }
}

/// Every connectivity node as a bus, in document order.
pub open spec fn buses_of(s: StoreV, e: ElementsV) -> Seq<DistBusV> {
    let nodes = s.of_class("ConnectivityNode"@);
    Seq::new(nodes.len(), |i: int| derived_bus(s, nodes[i], e))
}

#[allow(clippy::too_many_arguments)]
fn derive_buses(
    s: &Store,
    nodes: &Vec<String>,
    lines: &Vec<DistLine>,
    switches: &Vec<DistSwitch>,
    loads: &Vec<DistLoad>,
    shunts: &Vec<DistShunt>,
    transformers: &Vec<DistTransformer>,
    sources: &Vec<VoltageSource>,
) -> (r: Vec<DistBus>)
    requires
        views(nodes@) == s@.of_class("ConnectivityNode"@),
    ensures
        views(r@) == buses_of(
            s@,
            ElementsV {
                lines: views(lines@),
                switches: views(switches@),
                loads: views(loads@),
                shunts: views(shunts@),
                transformers: views(transformers@),
                sources: views(sources@),
            },
        ),
{
    broadcast use group_views;

    let ghost e = ElementsV {
        lines: views(lines@),
        switches: views(switches@),
        loads: views(loads@),
        shunts: views(shunts@),
        transformers: views(transformers@),
        sources: views(sources@),
    };
    let mut r: Vec<DistBus> = Vec::new();
    let mut i: usize = 0;
    assert(views(r@) =~= buses_of(s@, e).take(0));
    while i < nodes.len()
        invariant
            i <= nodes.len(),
            views(nodes@) == s@.of_class("ConnectivityNode"@),
            e == (ElementsV {
                lines: views(lines@),
                switches: views(switches@),
                loads: views(loads@),
                shunts: views(shunts@),
                transformers: views(transformers@),
                sources: views(sources@),
            }),
            views(r@) == buses_of(s@, e).take(i as int),
        decreases nodes.len() - i,
    {
        assert(views(nodes@)[i as int] == nodes@[i as int]@);
        let cn = nodes[i].as_str();
        let name = s.name(cn);
        let mut used: Vec<String> = Vec::new();
        assert(views(used@) =~= Seq::empty());
        add_line_use(&mut used, name.as_str(), lines);
        add_switch_use(&mut used, name.as_str(), switches);
        add_load_use(&mut used, name.as_str(), loads);
        add_shunt_use(&mut used, name.as_str(), shunts);
        add_transformer_use(&mut used, name.as_str(), transformers);
        add_source_use(&mut used, name.as_str(), sources);
        assert(views(used@) == used_terminals(name@, e)) by {
            reveal(used_terminals);
        }
        let mut grounded: Vec<String> = Vec::new();
        if contains(&used, "4") {
            grounded.push("4".to_owned());
            assert(views(grounded@) =~= seq!["4"@]);
        }
        let mut bus = DistBus::new(name, used);
        bus.grounded = grounded;
        bus.extras.put("cim_mrid".to_owned(), Json::text(cn));
        assert(bus@ == derived_bus(s@, cn@, e));
        r.push(bus);
        assert(buses_of(s@, e)[i as int] == derived_bus(s@, cn@, e));
        assert(buses_of(s@, e).take(i + 1) =~= buses_of(s@, e).take(i as int).push(
            derived_bus(s@, cn@, e),
        ));
        i = i + 1;
    }
    assert(views(nodes@).len() == nodes.len());
    assert(views(r@) =~= buses_of(s@, e));
    r
}

// ---- what is left ----------------------------------------------------------

/// The classes the mapping reads, besides switching equipment.
pub open spec fn consumed_classes() -> Seq<Seq<char>> {
    seq![
        "ConnectivityNode"@,
        "Terminal"@,
        "BaseVoltage"@,
        "BaseFrequency"@,
        "ACLineSegment"@,
        "ACLineSegmentPhase"@,
        "PerLengthPhaseImpedance"@,
        "PerLengthSequenceImpedance"@,
        "PhaseImpedanceData"@,
        "EnergyConsumer"@,
        "EnergyConsumerPhase"@,
        "LinearShuntCompensator"@,
        "ShuntCompensatorPhase"@,
        "EnergySource"@,
        "EnergySourcePhase"@,
        "PowerTransformer"@,
        "PowerTransformerEnd"@,
        "TransformerMeshImpedance"@,
        "RatioTapChanger"@,
        "Location"@,
        "IEC61970CIMVersion"@,
        "GeographicalRegion"@,
        "SubGeographicalRegion"@,
        "Line"@,
        "Substation"@,
        "VoltageLevel"@,
        "Bay"@,
        "Feeder"@,
        "CoordinateSystem"@,
        "PositionPoint"@,
        "Analog"@,
        "Discrete"@,
        "Name"@,
        "NameType"@,
        "NameTypeAuthority"@,
    ]
}

fn consumed_list() -> (r: Vec<&'static str>)
    ensures
        r@.len() == consumed_classes().len(),
        forall|i: int| 0 <= i < r@.len() ==> (#[trigger] r@[i])@ == consumed_classes()[i],
{
    vec![
        "ConnectivityNode",
        "Terminal",
        "BaseVoltage",
        "BaseFrequency",
        "ACLineSegment",
        "ACLineSegmentPhase",
        "PerLengthPhaseImpedance",
        "PerLengthSequenceImpedance",
        "PhaseImpedanceData",
        "EnergyConsumer",
        "EnergyConsumerPhase",
        "LinearShuntCompensator",
        "ShuntCompensatorPhase",
        "EnergySource",
        "EnergySourcePhase",
        "PowerTransformer",
        "PowerTransformerEnd",
        "TransformerMeshImpedance",
        "RatioTapChanger",
        "Location",
        "IEC61970CIMVersion",
        "GeographicalRegion",
        "SubGeographicalRegion",
        "Line",
        "Substation",
        "VoltageLevel",
        "Bay",
        "Feeder",
        "CoordinateSystem",
        "PositionPoint",
        "Analog",
        "Discrete",
        "Name",
        "NameType",
        "NameTypeAuthority",
    ]
}

/// Whether the mapping reads a class, or knows it as mere context.
pub open spec fn consumes(class: Seq<char>) -> bool {
    consumed_classes().contains(class) || switch_classes().contains(class) || has_suffix(
        class,
        "Info"@,
    )
}

fn listed(list: &Vec<&'static str>, class: &str) -> (r: bool)
    ensures
        r == exists|i: int| 0 <= i < list@.len() && (#[trigger] list@[i])@ == class@,
{
    let mut i: usize = 0;
    while i < list.len()
        invariant
            i <= list.len(),
            forall|k: int| 0 <= k < i ==> (#[trigger] list@[k])@ != class@,
        decreases list.len() - i,
    {
        if same(list[i], class) {
            assert(list@[i as int]@ == class@);
            return true;
        }
        i = i + 1;
    }
    false
}

fn is_consumed(class: &str) -> (r: bool)
    ensures
        r == consumes(class@),
{
    let read = consumed_list();
    let switching = switch_class_list();
    let a = listed(&read, class);
    let b = listed(&switching, class);
    proof {
        if a {
            let i = choose|i: int| 0 <= i < read@.len() && (#[trigger] read@[i])@ == class@;
            assert(consumed_classes()[i] == class@);
        } else if consumed_classes().contains(class@) {
            let i = consumed_classes().index_of(class@);
            assert(read@[i]@ == class@);
        }
        if b {
            let i = choose|i: int|
                0 <= i < switching@.len() && (#[trigger] switching@[i])@ == class@;
            assert(switch_classes()[i] == class@);
        } else if switch_classes().contains(class@) {
            let i = switch_classes().index_of(class@);
            assert(switching@[i]@ == class@);
        }
    }
    a || b || ends_with(class, "Info")
}

/// How many of the first `n` objects are of each class the mapping does not
/// read, in class order.
pub open spec fn unmapped_n(objects: Seq<CimObjectV>, n: nat) -> Seq<(Seq<char>, usize)>
    decreases n,
{
    if n == 0 {
        seq![]
    } else if consumes(objects[n - 1].class) {
        unmapped_n(objects, (n - 1) as nat)
    } else {
        bump_of(unmapped_n(objects, (n - 1) as nat), objects[n - 1].class)
    }
}

/// The warnings `w`, then one for each of the first `n` counts.
pub open spec fn count_warnings(w: Seq<Seq<char>>, counts: Seq<(Seq<char>, usize)>, n: nat) -> Seq<
    Seq<char>,
>
    decreases n,
{
    if n == 0 {
        w
    } else {
        count_warnings(w, counts, (n - 1) as nat).push(
            dec_of(counts[n - 1].1 as nat) + " "@ + counts[n - 1].0
                + " object(s) have no multiconductor mapping and are not carried"@,
        )
    }
}

pub open spec fn unmapped_of(s: StoreV, w: Seq<Seq<char>>) -> Seq<Seq<char>> {
    let counts = unmapped_n(s.objects, s.objects.len());
    count_warnings(w, counts, counts.len())
}

fn warn_unmapped(s: &Store, warnings: &mut Vec<String>)
    ensures
        views(final(warnings)@) == unmapped_of(s@, views(old(warnings)@)),
{
    broadcast use group_views;

    let mut counts: Vec<(String, usize)> = Vec::new();
    let mut i: usize = 0;
    while i < s.objects.len()
        invariant
            i <= s.objects.len(),
            views(counts@) == unmapped_n(s@.objects, i as nat),
            forall|k: int| 0 <= k < counts@.len() ==> (#[trigger] counts@[k]).1 <= i,
        decreases s.objects.len() - i,
    {
        assert(s@.objects[i as int] == s.objects@[i as int]@);
        let class = s.objects[i].class.as_str();
        if !is_consumed(class) {
            bump(&mut counts, class, Ghost(i));
        }
        i = i + 1;
    }
    assert(s@.objects.len() == s.objects.len());
    let mut k: usize = 0;
    while k < counts.len()
        invariant
            k <= counts.len(),
            views(warnings@) == count_warnings(views(old(warnings)@), views(counts@), k as nat),
        decreases counts.len() - k,
    {
        assert(views(counts@)[k as int] == (counts@[k as int].0@, counts@[k as int].1));
        warnings.push(
            cat4(
                dec_usize(counts[k].1).as_str(),
                " ",
                counts[k].0.as_str(),
                " object(s) have no multiconductor mapping and are not carried",
            ),
        );
        k = k + 1;
    }
    assert(views(counts@).len() == counts.len());
}

// ---- documents -------------------------------------------------------------

/// The objects of the first `n` documents, merged.
pub open spec fn merged_n(docs: Seq<CimDocumentV>, n: nat) -> Seq<CimObjectV>
    decreases n,
{
    if n == 0 {
        seq![]
    } else {
        let objects = docs[n - 1].objects;
        merge_n(merged_n(docs, (n - 1) as nat), objects, objects.len())
    }
}

/// The first CIM namespace that one of the first `n` documents declares.
pub open spec fn namespace_n(docs: Seq<CimDocumentV>, n: nat) -> Option<Seq<char>>
    decreases n,
{
    if n == 0 {
        None
    } else {
        match namespace_n(docs, (n - 1) as nat) {
            Some(s) => Some(s),
            None => docs[n - 1].cim_namespace,
        }
    }
}

/// The first description among the first `n` documents.
pub open spec fn description_n(docs: Seq<CimDocumentV>, n: nat) -> Option<Seq<char>>
    decreases n,
{
    if n == 0 {
        None
    } else {
        match description_n(docs, (n - 1) as nat) {
            Some(s) => Some(s),
            None => docs[n - 1].description,
        }
    }
}

/// The name of a network: its description, else the hint.
pub open spec fn network_name(description: Option<Seq<char>>, hint: Option<Seq<char>>) -> Option<
    Seq<char>,
> {
    match description {
        Some(d) if d.len() > 0 => Some(d),
        _ => hint,
    }
}

/// The base frequency: that of the first record, else 60 Hz.
pub open spec fn frequency_of(m: Sem, s: StoreV) -> Bits {
    let ids = s.of_class("BaseFrequency"@);
    if ids.len() > 0 {
        s.number_or(m, ids[0], "BaseFrequency.frequency"@, SIXTY)
    } else {
        SIXTY
    }
}

// ---- equipment without nodes -----------------------------------------------

/// Whether an equipment has the terminals on connectivity nodes that it needs.
pub open spec fn has_nodes(m: Sem, s: StoreV, id: Seq<char>, two: bool) -> bool {
    bus_at_of(m, s, id, 0) is Some && (two ==> bus_at_of(m, s, id, 1) is Some)
}

/// What is said of an equipment that lacks them.
pub open spec fn nodeless_text(s: StoreV, class: Seq<char>, id: Seq<char>, two: bool) -> Seq<char> {
    class + " "@ + s.name(id) + if two {
        ": needs two terminals on connectivity nodes; skipped"@
    } else {
        ": no terminal on a connectivity node; skipped"@
    }
}

/// The warnings with one for each of the first `n` of `ids` that lacks them.
pub open spec fn nodeless_n(
    m: Sem,
    s: StoreV,
    class: Seq<char>,
    two: bool,
    w: Seq<Seq<char>>,
    ids: Seq<Seq<char>>,
    n: nat,
) -> Seq<Seq<char>>
    decreases n,
{
    if n == 0 {
        w
    } else {
        let before = nodeless_n(m, s, class, two, w, ids, (n - 1) as nat);
        if has_nodes(m, s, ids[n - 1], two) {
            before
        } else {
            before.push(nodeless_text(s, class, ids[n - 1], two))
        }
    }
}

/// The same of a class.
pub open spec fn nodeless_class(
    m: Sem,
    s: StoreV,
    class: Seq<char>,
    two: bool,
    w: Seq<Seq<char>>,
) -> Seq<Seq<char>> {
    let ids = s.of_class(class);
    nodeless_n(m, s, class, two, w, ids, ids.len())
}

/// The same of the first `c` classes of switching equipment.
pub open spec fn nodeless_switches(m: Sem, s: StoreV, w: Seq<Seq<char>>, c: nat) -> Seq<Seq<char>>
    decreases c,
{
    if c == 0 {
        w
    } else {
        nodeless_class(
            m,
            s,
            switch_classes()[c - 1],
            true,
            nodeless_switches(m, s, w, (c - 1) as nat),
        )
    }
}

/// The warnings with those of the shunts, the switches and the sources that have
/// no connectivity nodes.
#[verifier::opaque]
pub open spec fn nodeless_of(m: Sem, s: StoreV, w: Seq<Seq<char>>) -> Seq<Seq<char>> {
    let w = nodeless_class(m, s, "LinearShuntCompensator"@, false, w);
    let w = nodeless_switches(m, s, w, 7);
    nodeless_class(m, s, "EnergySource"@, false, w)
}

fn warn_nodeless_class<C: Calc>(
    math: &C,
    s: &Store,
    class: &str,
    two: bool,
    warnings: &mut Vec<String>,
)
    ensures
        views(final(warnings)@) == nodeless_class(
            math.sem(),
            s@,
            class@,
            two,
            views(old(warnings)@),
        ),
{
    broadcast use group_views;

    let ids = s.of_class(class);
    assert(views(ids@).len() == ids.len());
    let mut i: usize = 0;
    while i < ids.len()
        invariant
            i <= ids.len(),
            views(ids@) == s@.of_class(class@),
            views(warnings@) == nodeless_n(
                math.sem(),
                s@,
                class@,
                two,
                views(old(warnings)@),
                views(ids@),
                i as nat,
            ),
        decreases ids.len() - i,
    {
        assert(views(ids@)[i as int] == ids@[i as int]@);
        let id = ids[i].as_str();
        let there = bus_at(math, s, id, 0).is_some() && (!two || bus_at(math, s, id, 1).is_some());
        if !there {
            let name = s.name(id);
            warnings.push(
                cat4(
                    class,
                    " ",
                    name.as_str(),
                    if two {
                        ": needs two terminals on connectivity nodes; skipped"
                    } else {
                        ": no terminal on a connectivity node; skipped"
                    },
                ),
            );
        }
        i = i + 1;
    }
}

fn warn_nodeless<C: Calc>(math: &C, s: &Store, warnings: &mut Vec<String>)
    ensures
        views(final(warnings)@) == nodeless_of(math.sem(), s@, views(old(warnings)@)),
{
    reveal(nodeless_of);
    warn_nodeless_class(math, s, "LinearShuntCompensator", false, warnings);
    let ghost w = views(warnings@);
    let classes = switch_class_list();
    let mut c: usize = 0;
    while c < classes.len()
        invariant
            c <= classes.len(),
            classes@.len() == 7,
            forall|i: int| 0 <= i < 7 ==> (#[trigger] classes@[i])@ == switch_classes()[i],
            views(warnings@) == nodeless_switches(math.sem(), s@, w, c as nat),
        decreases classes.len() - c,
    {
        warn_nodeless_class(math, s, classes[c], true, warnings);
        c = c + 1;
    }
    warn_nodeless_class(math, s, "EnergySource", false, warnings);
}

/// The network that a store of objects describes.
#[verifier::opaque]
pub open spec fn network_of(m: Sem, s: StoreV, name: Option<Seq<char>>) -> DistNetworkV {
    let l = lines_of(m, s);
    let loads = loads_of(m, s, l.warnings);
    let shunts = shunts_of(m, s);
    let switches = switches_of(m, s);
    let xfs = transformers_of(m, s, loads.warnings);
    let sources = sources_of(m, s);
    let e = ElementsV {
        lines: l.lines,
        switches,
        loads: loads.loads,
        shunts,
        transformers: xfs.transformers,
        sources,
    };
    DistNetworkV {
        name,
        base_frequency: frequency_of(m, s),
        buses: buses_of(s, e),
        linecodes: l.codes,
        lines: l.lines,
        switches,
        transformers: xfs.transformers,
        loads: loads.loads,
        shunts,
        sources,
        warnings: unmapped_of(s, nodeless_of(m, s, xfs.warnings)),
        source_format: Some(DistSourceFormat::Cim),
        ..dist_network_of()
    }
}

/// The network that documents describe together, or why they describe none.
pub open spec fn documents_of(
    m: Sem,
    docs: Seq<CimDocumentV>,
    hint: Option<Seq<char>>,
) -> std::result::Result<
    DistNetworkV,
    ErrorV,
> {
    let s = StoreV { objects: merged_n(docs, docs.len()) };
    if namespace_n(docs, docs.len()) is None {
        Err(
            ErrorV::Xml {
                format: "distribution CIM"@,
                message: "no CIM namespace declared; not a CIM document"@,
            },
        )
    } else if s.of_class("ConnectivityNode"@).len() == 0 {
        Err(
            ErrorV::Xml {
                format: "distribution CIM"@,
                message: "no ConnectivityNode records; not a node-based CIM feeder"@,
            },
        )
    } else {
        Ok(network_of(m, s, network_name(description_n(docs, docs.len()), hint)))
    }
}

fn read_network<C: Calc>(math: &C, s: &Store, nodes: &Vec<String>, name: Option<String>) -> (r:
    DistNetwork)
    requires
        views(nodes@) == s@.of_class("ConnectivityNode"@),
    ensures
        r@ == network_of(math.sem(), s@, opt_view(name)),
{
    reveal(network_of);
    let l = lines(math, s);
    let mut warnings = l.warnings;
    let loads = loads(math, s, &mut warnings);
    let shunts = shunts(math, s);
    let switches = switches(math, s);
    let transformers = transformers(math, s, &mut warnings);
    let sources = sources(math, s);
    let buses = derive_buses(
        s,
        nodes,
        &l.lines,
        &switches,
        &loads,
        &shunts,
        &transformers,
        &sources,
    );
    warn_nodeless(math, s, &mut warnings);
    warn_unmapped(s, &mut warnings);
    let ids = s.of_class("BaseFrequency");
    assert(views(ids@).len() == ids.len());
    let base_frequency = if ids.len() > 0 {
        assert(views(ids@)[0] == ids@[0]@);
        s.number_or(math, ids[0].as_str(), "BaseFrequency.frequency", SIXTY)
    } else {
        SIXTY
    };
    let mut net = DistNetwork::new();
    net.name = name;
    net.base_frequency = base_frequency;
    net.buses = buses;
    net.linecodes = l.codes;
    net.lines = l.lines;
    net.switches = switches;
    net.transformers = transformers;
    net.loads = loads;
    net.shunts = shunts;
    net.sources = sources;
    net.warnings = warnings;
    net.source_format = Some(DistSourceFormat::Cim);
    net
}

/// Reads documents as one network. `hint` names it where no document does.
pub fn parse_cim_documents<C: Calc>(math: &C, docs: &Vec<CimDocument>, hint: Option<&str>) -> (r:
    Result<DistNetwork>)
    ensures
        match r {
            Ok(net) => documents_of(math.sem(), views(docs@), hint_view(hint)) == Ok::<
                DistNetworkV,
                ErrorV,
            >(net@),
            Err(e) => documents_of(math.sem(), views(docs@), hint_view(hint)) == Err::<
                DistNetworkV,
                ErrorV,
            >(e@),
        },
{
    let mut s = Store::new();
    let mut namespace: bool = false;
    let mut description: Option<String> = None;
    let mut i: usize = 0;
    while i < docs.len()
        invariant
            i <= docs.len(),
            s@.objects == merged_n(views(docs@), i as nat),
            namespace == (namespace_n(views(docs@), i as nat) is Some),
            opt_view(description) == description_n(views(docs@), i as nat),
        decreases docs.len() - i,
    {
        let doc = &docs[i];
        assert(views(docs@)[i as int] == doc@);
        if doc.cim_namespace.is_some() {
            namespace = true;
        }
        if description.is_none() {
            description =
            match &doc.description {
                Some(d) => Some(d.clone()),
                None => None,
            };
        }
        assert(doc@.objects.len() == doc.objects@.len());
        s.merge(&doc.objects);
        i = i + 1;
    }
    assert(views(docs@).len() == docs.len());
    if !namespace {
        return Err(
            Error::Xml {
                format: "distribution CIM",
                message: "no CIM namespace declared; not a CIM document".to_owned(),
            },
        );
    }
    let nodes = s.of_class("ConnectivityNode");
    assert(views(nodes@).len() == nodes.len());
    if nodes.len() == 0 {
        return Err(
            Error::Xml {
                format: "distribution CIM",
                message: "no ConnectivityNode records; not a node-based CIM feeder".to_owned(),
            },
        );
    }
    let name = match description {
        Some(d) if !empty(d.as_str()) => Some(d),
        _ => match hint {
            Some(h) => Some(h.to_owned()),
            None => None,
        },
    };
    Ok(read_network(math, &s, &nodes, name))
}

/// The text of a hint.
pub open spec fn hint_view(hint: Option<&str>) -> Option<Seq<char>> {
    match hint {
        Some(h) => Some(h@),
        None => None,
    }
}

/// The network that a set of documents describes, or why it describes none. One
/// document alone keeps its text.
pub open spec fn set_of_documents(
    m: Sem,
    docs: Seq<CimDocumentV>,
    text: Option<Seq<char>>,
    hint: Option<Seq<char>>,
) -> Outcome<DistNetworkV> {
    if docs.len() == 0 {
        Err(
            ErrorV::Xml {
                format: "distribution CIM"@,
                message: "no .xml instance files to read"@,
            },
        )
    } else {
        match documents_of(m, docs, hint) {
            Ok(net) => if docs.len() == 1 {
                Ok(DistNetworkV { source: text, ..net })
            } else {
                Ok(net)
            },
            Err(e) => Err(e),
        }
    }
}

/// Reads instance files as one case; `text` is that of the first.
pub fn parse_cim_set<C: Calc>(
    math: &C,
    docs: &Vec<CimDocument>,
    text: Option<&str>,
    hint: Option<&str>,
) -> (r: Result<DistNetwork>)
    ensures
        outcome(r) == set_of_documents(math.sem(), views(docs@), hint_view(text), hint_view(hint)),
{
    assert(views(docs@).len() == docs.len());
    if docs.len() == 0 {
        return Err(
            Error::Xml {
                format: "distribution CIM",
                message: "no .xml instance files to read".to_owned(),
            },
        );
    }
    match parse_cim_documents(math, docs, hint) {
        Ok(n) => {
            let mut net = n;
            if docs.len() == 1 {
                net.source = match text {
                    Some(t) => Some(Arc::new(t.to_owned())),
                    None => None,
                };
            }
            Ok(net)
        },
        Err(e) => Err(e),
    }
}

/// The network that a text describes, or why it describes none; a network keeps
/// the text it was read from.
pub open spec fn cim_text(m: Sem, text: Seq<char>) -> Outcome<DistNetworkV> {
    match cimxml_of(text) {
        Err(e) => Err(e),
        Ok(doc) => set_of_documents(m, seq![doc], Some(text), None),
    }
}

/// Reads a distribution CIM document.
pub fn parse_cim_str<C: Calc>(math: &C, text: &str) -> (r: Result<DistNetwork>)
    ensures
        outcome(r) == cim_text(math.sem(), text@),
{
    match parse_cimxml(text) {
        Err(e) => Err(e),
        Ok(doc) => {
            let ghost dv = doc@;
            let mut docs: Vec<CimDocument> = Vec::new();
            docs.push(doc);
            assert(views(docs@) =~= seq![dv]);
            parse_cim_set(math, &docs, Some(text), None)
        },
    }
}

// ---- sniffing --------------------------------------------------------------

/// How many bytes a character takes in UTF-8.
pub open spec fn utf8_len(c: char) -> nat {
    let u = c as u32;
    if u < 0x80 {
        1
    } else if u < 0x800 {
        2
    } else if u < 0x10000 {
        3
    } else {
        4
    }
}

/// How many of the first characters, from the `i`-th on, fit in `room` bytes.
pub open spec fn fitting(s: Seq<char>, i: int, room: nat) -> int
    decreases s.len() - i,
{
    if 0 <= i < s.len() && utf8_len(s[i]) <= room {
        fitting(s, i + 1, (room - utf8_len(s[i])) as nat)
    } else {
        i
    }
}

/// The start of a text, as far as it fits in eight kibibytes.
pub open spec fn head_of(s: Seq<char>) -> Seq<char> {
    s.subrange(0, fitting(s, 0, 8192))
}

/// Whether the start of a text is that of a CIM RDF document with distribution
/// equipment.
pub open spec fn looks_like_cim_of(s: Seq<char>) -> bool {
    let h = head_of(s);
    &&& find_of(h, "rdf-syntax"@) is Some
    &&& find_of(h, "CIM"@) is Some
    &&& find_of(h, "ConnectivityNode"@) is Some || find_of(h, "ACLineSegment"@) is Some
}

fn mentions(h: &Vec<char>, word: &str) -> (r: bool)
    ensures
        r == (find_of(h@, word@) is Some),
{
    let w = to_chars(word);
    find(h, &w).is_some()
}

/// Sniffs a document.
pub fn looks_like_cim(text: &str) -> (r: bool)
    ensures
        r == looks_like_cim_of(text@),
{
    let v = to_chars(text);
    let mut h: Vec<char> = Vec::new();
    let mut i: usize = 0;
    let mut room: usize = 8192;
    let mut fits = true;
    while i < v.len() && fits
        invariant
            i <= v.len(),
            v@ == text@,
            h@ =~= v@.subrange(0, i as int),
            fits ==> fitting(v@, 0, 8192) == fitting(v@, i as int, room as nat),
            !fits ==> fitting(v@, 0, 8192) == i,
        decreases
            v.len() - i + (if fits {
                1int
            } else {
                0int
            }),
    {
        let u: u32 = v[i] as u32;
        let n: usize = if u < 0x80 {
            1
        } else if u < 0x800 {
            2
        } else if u < 0x10000 {
            3
        } else {
            4
        };
        if n <= room {
            h.push(v[i]);
            room = room - n;
            i = i + 1;
        } else {
            fits = false;
        }
    }
    assert(h@ == head_of(text@));
    mentions(&h, "rdf-syntax") && mentions(&h, "CIM") && (mentions(&h, "ConnectivityNode")
        || mentions(&h, "ACLineSegment"))
}

} // verus!
