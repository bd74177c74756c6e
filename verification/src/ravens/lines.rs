//! Line codes, lines and switches.

use vstd::prelude::*;

use crate::json::{float_json, put_of, Entries, Json, JsonMap, JsonV};
use crate::math::{eq, num_eq, trunc, Bits, Calc, Sem, ONE, ZERO};
use crate::matrix::{
    halve, halved, max3, max_usize, mirror, mirror_of, square, to_usize, to_usize_of,
};
use crate::model::{
    dist_line_code_of, dist_line_of, dist_switch_of, filled, filled_of, repeat, repeat_of, DistLine,
    DistLineCode, DistLineCodeV, DistLineV, DistNetworkV, DistSwitch, DistSwitchV, MatV,
};
use crate::order::copy_list;
use crate::ravens::doc::{
    add_kind, bool_at, get_bool, get_list, get_num, get_num_or, get_str, get_suffix, get_target,
    get_uint, limit_set, limits_of, list_at, num_at, num_or, of_kind_n, sorted_kind, sorted_of_kind,
    str_at, suffix_at, target_at, terminal_entries, terminals_of, uint_at, Obj, ObjV, Terminal,
    TerminalV,
};
use crate::ravens::name::{hot_terminals, hot_terminals_of, phase_terminal, phase_terminal_of};
use crate::ravens::state::{State, StateV};
use crate::terminals::{numbered, numbered_map, three_phase_map, three_phases};
use crate::text::{cat3, cat7, group_views, opt_view, same, views};

verus! {

/// The extras of an object: its imported identifier, where it has one.
#[verifier::opaque]
pub open spec fn mrid_extras(props: Entries) -> Entries {
    match str_at(props, "IdentifiedObject.mRID"@) {
        Some(id) => put_of(Entries::empty(), "ravens_mrid"@, JsonV::Str(id)),
        None => Entries::empty(),
    }
}

pub fn extras_with_mrid(props: &JsonMap) -> (r: JsonMap)
    ensures
        r@ == mrid_extras(props@),
{
    reveal(mrid_extras);
    let mut r = JsonMap::new();
    if let Some(id) = get_str(props, "IdentifiedObject.mRID") {
        r.put("ravens_mrid".to_owned(), Json::Str(id.clone()));
    }
    r
}

// ---- line codes ------------------------------------------------------------

/// A data row: its row and column, counted from one, and its values.
#[derive(Clone, Copy)]
pub struct Row {
    pub i: usize,
    pub j: usize,
    pub r: Bits,
    pub x: Bits,
    pub b: Bits,
    pub g: Bits,
}

/// The data row that an entry is; one without row or column is none.
#[verifier::opaque]
pub open spec fn row_of(m: Sem, entry: JsonV) -> Option<Row> {
    match entry {
        JsonV::Obj(o) => match (num_at(m, o, "PhaseImpedanceData.row"@), num_at(
            m,
            o,
            "PhaseImpedanceData.column"@,
        )) {
            (Some(i), Some(j)) => Some(
                Row {
                    i: to_usize_of(m.trunc(i)),
                    j: to_usize_of(m.trunc(j)),
                    r: num_or(m, o, "PhaseImpedanceData.r"@, ZERO),
                    x: num_or(m, o, "PhaseImpedanceData.x"@, ZERO),
                    b: num_or(m, o, "PhaseImpedanceData.b"@, ZERO),
                    g: num_or(m, o, "PhaseImpedanceData.g"@, ZERO),
                },
            ),
            _ => None,
        },
        _ => None,
    }
}

pub open spec fn rows_n(m: Sem, items: Seq<JsonV>, n: nat) -> Seq<Row>
    decreases n,
{
    if n == 0 {
        seq![]
    } else {
        match row_of(m, items[n - 1]) {
            Some(r) => rows_n(m, items, (n - 1) as nat).push(r),
            None => rows_n(m, items, (n - 1) as nat),
        }
    }
}

fn read_row<C: Calc>(math: &C, entry: &Json) -> (r: Option<Row>)
    ensures
        r == row_of(math.sem(), entry@),
{
    reveal(row_of);
    let o = match entry.as_obj() {
        Some(o) => o,
        None => {
            return None;
        },
    };
    let i = get_num(math, o, "PhaseImpedanceData.row");
    let j = get_num(math, o, "PhaseImpedanceData.column");
    if let (Some(i), Some(j)) = (i, j) {
        Some(
            Row {
                i: to_usize(trunc(math, i)),
                j: to_usize(trunc(math, j)),
                r: get_num_or(math, o, "PhaseImpedanceData.r", ZERO),
                x: get_num_or(math, o, "PhaseImpedanceData.x", ZERO),
                b: get_num_or(math, o, "PhaseImpedanceData.b", ZERO),
                g: get_num_or(math, o, "PhaseImpedanceData.g", ZERO),
            },
        )
    } else {
        None
    }
}

/// The largest row or column of the first `n` rows.
pub open spec fn extent_n(rows: Seq<Row>, n: nat) -> nat
    decreases n,
{
    if n == 0 {
        0
    } else {
        max3(extent_n(rows, (n - 1) as nat), rows[n - 1].i as nat, rows[n - 1].j as nat)
    }
}

/// The four matrices of a line code.
pub struct Mats {
    pub r: MatV,
    pub x: MatV,
    pub b: MatV,
    pub g: MatV,
}

pub open spec fn mats_n(size: nat, rows: Seq<Row>, n: nat) -> Mats
    decreases n,
{
    if n == 0 {
        let zero = filled_of(size, ZERO);
        Mats { r: zero, x: zero, b: zero, g: zero }
    } else {
        let t = mats_n(size, rows, (n - 1) as nat);
        let row = rows[n - 1];
        if row.i == 0 || row.j == 0 || row.i > size || row.j > size {
            t
        } else {
            Mats {
                r: mirror_of(t.r, row.i - 1, row.j - 1, row.r),
                x: mirror_of(t.x, row.i - 1, row.j - 1, row.x),
                b: mirror_of(t.b, row.i - 1, row.j - 1, row.b),
                g: mirror_of(t.g, row.i - 1, row.j - 1, row.g),
            }
        }
    }
}

/// The line code of an object: its matrices from the lower triangle it lists,
/// the shunt half at either end. One without conductors is reported.
pub open spec fn linecode_step(m: Sem, st: StateV, o: ObjV) -> StateV {
    let items = list_at(o.props, "PerLengthPhaseImpedance.PhaseImpedanceData"@);
    let rows = rows_n(m, items, items.len());
    let n = match num_at(m, o.props, "PerLengthPhaseImpedance.conductorCount"@) {
        Some(c) => to_usize_of(m.trunc(c)) as nat,
        None => extent_n(rows, rows.len()),
    };
    if n == 0 {
        st.warn(
            "PerLengthPhaseImpedance "@ + o.name + ": no impedance rows; linecode skipped"@,
        )
    } else {
        let t = mats_n(n, rows, rows.len());
        let code = DistLineCodeV {
            b_from: halved(m, t.b),
            b_to: halved(m, t.b),
            g_from: halved(m, t.g),
            g_to: halved(m, t.g),
            extras: mrid_extras(o.props),
            ..dist_line_code_of(o.name, t.r, t.x)
        };
        StateV {
            net: DistNetworkV { linecodes: st.net.linecodes.push(code), ..st.net },
            ..st
        }
    }
}

pub open spec fn linecodes_n(m: Sem, doc: Seq<ObjV>, st: StateV, ids: Seq<usize>, n: nat) -> StateV
    decreases n,
{
    if n == 0 {
        st
    } else {
        linecode_step(m, linecodes_n(m, doc, st, ids, (n - 1) as nat), doc[ids[n - 1] as int])
    }
}

/// Every line code, in natural name order.
pub open spec fn map_linecodes_of(m: Sem, doc: Seq<ObjV>, st: StateV) -> StateV {
    let ids = sorted_kind(doc, "PerLengthPhaseImpedance"@);
    linecodes_n(m, doc, st, ids, ids.len())
}

fn read_rows<C: Calc>(math: &C, props: &JsonMap) -> (r: Vec<Row>)
    ensures
        ({
            let items = list_at(props@, "PerLengthPhaseImpedance.PhaseImpedanceData"@);
            r@ == rows_n(math.sem(), items, items.len())
        }),
{
    let mut rows: Vec<Row> = Vec::new();
    if let Some(items) = get_list(props, "PerLengthPhaseImpedance.PhaseImpedanceData") {
        let mut i: usize = 0;
        while i < items.len()
            invariant
                i <= items.len(),
                rows@ == rows_n(math.sem(), views(items@), i as nat),
            decreases items.len() - i,
        {
            assert(views(items@)[i as int] == items@[i as int]@);
            if let Some(row) = read_row(math, &items[i]) {
                rows.push(row);
            }
            i = i + 1;
        }
        assert(views(items@).len() == items.len());
    }
    rows
}

fn extent(rows: &Vec<Row>) -> (r: usize)
    ensures
        r == extent_n(rows@, rows@.len()),
{
    let mut r: usize = 0;
    let mut i: usize = 0;
    while i < rows.len()
        invariant
            i <= rows.len(),
            r == extent_n(rows@, i as nat),
        decreases rows.len() - i,
    {
        r = max_usize(max_usize(r, rows[i].i), rows[i].j);
        i = i + 1;
    }
    r
}

fn read_linecode<C: Calc>(math: &C, st: &mut State, o: &Obj)
    ensures
        final(st)@ == linecode_step(math.sem(), old(st)@, o@),
{
    broadcast use group_views;

    let rows = read_rows(math, &o.props);
    let n = match get_num(math, &o.props, "PerLengthPhaseImpedance.conductorCount") {
        Some(c) => to_usize(trunc(math, c)),
        None => extent(&rows),
    };
    if n == 0 {
        st.warn(
            cat3(
                "PerLengthPhaseImpedance ",
                o.name.as_str(),
                ": no impedance rows; linecode skipped",
            ),
        );
        return;
    }
    let mut r = filled(n, ZERO);
    let mut x = filled(n, ZERO);
    let mut b = filled(n, ZERO);
    let mut g = filled(n, ZERO);
    let mut k: usize = 0;
    while k < rows.len()
        invariant
            k <= rows.len(),
            square(views(r@), n as nat),
            square(views(x@), n as nat),
            square(views(b@), n as nat),
            square(views(g@), n as nat),
            (Mats { r: views(r@), x: views(x@), b: views(b@), g: views(g@) }) == mats_n(
                n as nat,
                rows@,
                k as nat,
            ),
        decreases rows.len() - k,
    {
        let row = rows[k];
        if !(row.i == 0 || row.j == 0 || row.i > n || row.j > n) {
            mirror(&mut r, n, row.i - 1, row.j - 1, row.r);
            mirror(&mut x, n, row.i - 1, row.j - 1, row.x);
            mirror(&mut b, n, row.i - 1, row.j - 1, row.b);
            mirror(&mut g, n, row.i - 1, row.j - 1, row.g);
        }
        k = k + 1;
    }
    let mut code = DistLineCode::new(o.name.clone(), r, x);
    code.b_from = halve(math, &b);
    code.b_to = halve(math, &b);
    code.g_from = halve(math, &g);
    code.g_to = halve(math, &g);
    code.extras = extras_with_mrid(&o.props);
    st.net.linecodes.push(code);
}

pub fn map_linecodes<C: Calc>(math: &C, doc: &Vec<Obj>, st: &mut State)
    ensures
        final(st)@ == map_linecodes_of(math.sem(), views(doc@), old(st)@),
{
    let ids = sorted_of_kind(doc, "PerLengthPhaseImpedance");
    let mut i: usize = 0;
    while i < ids.len()
        invariant
            i <= ids.len(),
            forall|k: int| 0 <= k < ids@.len() ==> (#[trigger] ids@[k]) < doc@.len(),
            st@ == linecodes_n(math.sem(), views(doc@), old(st)@, ids@, i as nat),
        decreases ids.len() - i,
    {
        assert(views(doc@)[ids@[i as int] as int] == doc@[ids@[i as int] as int]@);
        read_linecode(math, st, &doc[ids[i]]);
        i = i + 1;
    }
}

// ---- lines -----------------------------------------------------------------

/// A phase row of a line: its sequence number and its letter.
#[verifier::opaque]
pub open spec fn phase_row_of(entry: JsonV) -> Option<(u64, Seq<char>)> {
    match entry {
        JsonV::Obj(o) => match suffix_at(o, "ACLineSegmentPhase.phase"@) {
            Some(letter) => Some(
                (
                    match uint_at(o, "ACLineSegmentPhase.sequenceNumber"@) {
                        Some(n) => n,
                        None => 1,
                    },
                    letter,
                ),
            ),
            None => None,
        },
        _ => None,
    }
}

pub open spec fn phase_slot(s: Seq<(u64, Seq<char>)>, n: u64, i: int) -> int
    decreases s.len() - i,
{
    if i < 0 || i >= s.len() || n < s[i].0 {
        i
    } else {
        phase_slot(s, n, i + 1)
    }
}

/// The phase rows among the first `n` entries, by sequence number.
pub open spec fn phase_rows_n(items: Seq<JsonV>, n: nat) -> Seq<(u64, Seq<char>)>
    decreases n,
{
    if n == 0 {
        seq![]
    } else {
        let before = phase_rows_n(items, (n - 1) as nat);
        match phase_row_of(items[n - 1]) {
            Some(r) => before.insert(phase_slot(before, r.0, 0), r),
            None => before,
        }
    }
}

/// The letters of phase rows, in order.
pub open spec fn seconds(s: Seq<(u64, Seq<char>)>) -> Seq<Seq<char>> {
    Seq::new(s.len(), |i: int| s[i].1)
}

/// The phase letters of a line: those of its phase rows, else those of its
/// terminal.
#[verifier::opaque]
pub open spec fn line_letters_of(props: Entries, from: TerminalV) -> Seq<Seq<char>> {
    let items = list_at(props, "ACLineSegment.ACLineSegmentPhase"@);
    let rows = phase_rows_n(items, items.len());
    if rows.len() == 0 {
        from.phases
    } else {
        seconds(rows)
    }
}

fn read_phase_row(entry: &Json) -> (r: Option<(u64, String)>)
    ensures
        opt_view(r) == phase_row_of(entry@),
{
    reveal(phase_row_of);
    let o = match entry.as_obj() {
        Some(o) => o,
        None => {
            return None;
        },
    };
    match get_suffix(o, "ACLineSegmentPhase.phase") {
        Some(letter) => {
            let n: u64 = match get_uint(o, "ACLineSegmentPhase.sequenceNumber") {
                Some(n) => n,
                None => 1,
            };
            Some((n, letter))
        },
        None => None,
    }
}

fn line_letters(props: &JsonMap, from: &Terminal) -> (r: Vec<String>)
    ensures
        views(r@) == line_letters_of(props@, from@),
{
    broadcast use group_views;

    reveal(line_letters_of);
    let mut rows: Vec<(u64, String)> = Vec::new();
    assert(views(rows@) =~= seq![]);
    let ghost all = list_at(props@, "ACLineSegment.ACLineSegmentPhase"@);
    if let Some(items) = get_list(props, "ACLineSegment.ACLineSegmentPhase") {
        let mut n: usize = 0;
        while n < items.len()
            invariant
                n <= items.len(),
                views(rows@) == phase_rows_n(views(items@), n as nat),
            decreases items.len() - n,
        {
            assert(views(items@)[n as int] == items@[n as int]@);
            if let Some((seq, letter)) = read_phase_row(&items[n]) {
                let ghost before = views(rows@);
                let mut i: usize = 0;
                while i < rows.len() && !(seq < rows[i].0)
                    invariant
                        i <= rows.len(),
                        views(rows@) == before,
                        phase_slot(before, seq, 0) == phase_slot(before, seq, i as int),
                    decreases rows.len() - i,
                {
                    assert(views(rows@)[i as int] == (rows@[i as int].0, rows@[i as int].1@));
                    i = i + 1;
                }
                if i < rows.len() {
                    assert(views(rows@)[i as int] == (rows@[i as int].0, rows@[i as int].1@));
                }
                let ghost l = letter@;
                rows.insert(i, (seq, letter));
                assert(views(rows@) =~= before.insert(i as int, (seq, l)));
            }
            n = n + 1;
        }
        assert(views(items@).len() == items.len());
    }
    assert(views(rows@) == phase_rows_n(all, all.len()));
    assert(views(rows@).len() == rows.len());
    if rows.len() == 0 {
        return copy_list(&from.phases);
    }
    let mut r: Vec<String> = Vec::new();
    let mut k: usize = 0;
    while k < rows.len()
        invariant
            k <= rows.len(),
            r.len() == k,
            forall|q: int| 0 <= q < k ==> (#[trigger] r@[q])@ == rows@[q].1@,
        decreases rows.len() - k,
    {
        r.push(rows[k].1.clone());
        k = k + 1;
    }
    assert(views(r@) =~= seconds(views(rows@)));
    r
}

/// Two lists of numbers that are equal as numbers.
pub open spec fn same_numbers_of(a: Seq<Bits>, b: Seq<Bits>) -> bool {
    a.len() == b.len() && forall|i: int| 0 <= i < a.len() ==> num_eq(#[trigger] a[i], b[i])
}

fn same_numbers(a: &Vec<Bits>, b: &Vec<Bits>) -> (r: bool)
    ensures
        r == same_numbers_of(a@, b@),
{
    if a.len() != b.len() {
        return false;
    }
    let mut i: usize = 0;
    while i < a.len()
        invariant
            i <= a.len(),
            a.len() == b.len(),
            forall|k: int| 0 <= k < i ==> num_eq(#[trigger] a@[k], b@[k]),
        decreases a.len() - i,
    {
        if !eq(a[i], b[i]) {
            return false;
        }
        i = i + 1;
    }
    true
}

/// The first line code, from the `i`-th on, of exactly this name.
pub open spec fn code_from(codes: Seq<DistLineCodeV>, name: Seq<char>, i: int) -> Option<int>
    decreases codes.len() - i,
{
    if i < 0 || i >= codes.len() {
        None
    } else if codes[i].name == name {
        Some(i)
    } else {
        code_from(codes, name, i + 1)
    }
}

/// The line codes once a line of `n` conductors has asked for an emergency
/// rating: a code without a rating takes it. And whether the code had another.
pub open spec fn rate_of(codes: Seq<DistLineCodeV>, name: Seq<char>, n: nat, amps: Bits) -> (
    Seq<DistLineCodeV>,
    bool,
) {
    match code_from(codes, name, 0) {
        None => (codes, false),
        Some(i) => {
            let proposed = repeat_of(amps, max3(n, codes[i].n_conductors as nat, 0));
            match codes[i].i_max {
                Some(had) => (codes, !same_numbers_of(had, proposed)),
                None => (
                    codes.update(i, DistLineCodeV { i_max: Some(proposed), ..codes[i] }),
                    false,
                ),
            }
        },
    }
}

fn rate(codes: &mut Vec<DistLineCode>, name: &str, n: usize, amps: Bits) -> (r: bool)
    ensures
        (views(final(codes)@), r) == rate_of(views(old(codes)@), name@, n as nat, amps),
{
    let ghost before = views(codes@);
    let mut i: usize = 0;
    while i < codes.len()
        invariant
            i <= codes.len(),
            views(codes@) == before,
            views(old(codes)@) == before,
            code_from(before, name@, 0) == code_from(before, name@, i as int),
        decreases codes.len() - i,
    {
        assert(views(codes@)[i as int] == codes@[i as int]@);
        if same(codes[i].name.as_str(), name) {
            let proposed = repeat(amps, max_usize(n, codes[i].n_conductors));
            let conflict = match &codes[i].i_max {
                Some(had) => Some(!same_numbers(had, &proposed)),
                None => None,
            };
            match conflict {
                Some(c) => {
                    return c;
                },
                None => {
                    let ghost was = codes@[i as int]@;
                    let ghost p = proposed@;
                    codes[i].i_max = Some(proposed);
                    assert(codes@[i as int]@ == (DistLineCodeV { i_max: Some(p), ..was }));
                    assert(views(codes@) =~= before.update(
                        i as int,
                        DistLineCodeV { i_max: Some(p), ..was },
                    ));
                    return false;
                },
            }
        }
        i = i + 1;
    }
    false
}

/// The state and the extras once a line's ampacity has been read: the emergency
/// limit rates its line code, the continuous one stands in its extras.
#[verifier::opaque]
pub open spec fn line_limits_of(
    m: Sem,
    doc: Seq<ObjV>,
    st: StateV,
    name: Seq<char>,
    code: Seq<char>,
    set: Option<Seq<char>>,
    n: nat,
    extras: Entries,
) -> (StateV, Entries) {
    match set {
        None => (st, extras),
        Some(set) => {
            let l = limits_of(m, doc, set);
            let noted = match l.norm_amps {
                Some(amps) => put_of(extras, "normamps"@, float_json(m, amps)),
                None => extras,
            };
            match l.emerg_amps {
                None => (st, noted),
                Some(amps) => {
                    let (codes, conflict) = rate_of(st.net.linecodes, code, n, amps);
                    let rated = StateV {
                        net: DistNetworkV { linecodes: codes, ..st.net },
                        ..st
                    };
                    if conflict {
                        (
                            rated.warn(
                                "line "@ + name + ": emergency ampacity "@ + (m.show)(amps)
                                    + " conflicts with an earlier line sharing linecode "@ + code
                                    + "; keeping the first value"@,
                            ),
                            noted,
                        )
                    } else {
                        (rated, noted)
                    }
                },
            }
        },
    }
}

fn line_limits<C: Calc>(
    math: &C,
    doc: &Vec<Obj>,
    st: &mut State,
    name: &str,
    code: &str,
    set: &Option<String>,
    n: usize,
    extras: &mut JsonMap,
)
    ensures
        (final(st)@, final(extras)@) == line_limits_of(
            math.sem(),
            views(doc@),
            old(st)@,
            name@,
            code@,
            opt_view(*set),
            n as nat,
            old(extras)@,
        ),
{
    reveal(line_limits_of);
    if let Some(set) = set {
        let l = limit_set(math, doc, set.as_str());
        if let Some(amps) = l.norm_amps {
            extras.put("normamps".to_owned(), Json::float(math, amps));
        }
        if let Some(amps) = l.emerg_amps {
            if rate(&mut st.net.linecodes, code, n, amps) {
                let shown = math.show(amps);
                st.warn(
                    cat7(
                        "line ",
                        name,
                        ": emergency ampacity ",
                        shown.as_str(),
                        " conflicts with an earlier line sharing linecode ",
                        code,
                        "; keeping the first value",
                    ),
                );
            }
        }
    }
}

pub open spec fn line_step(m: Sem, doc: Seq<ObjV>, st: StateV, o: ObjV) -> StateV {
    let terms = terminals_of(o.props);
    if terms.len() < 2 {
        st.keep_untyped(o, "fewer than two terminals"@)
    } else {
        match target_at(o.props, "ACLineSegment.PerLengthImpedance"@) {
            None => st.keep_untyped(
                o,
                "no PerLengthImpedance (wire-table lines are roadmap)"@,
            ),
            Some(code) => {
                let from = terms[0].1;
                let to = terms[1].1;
                let named = hot_terminals_of(line_letters_of(o.props, from));
                let (phased, map) = if named.len() == 0 {
                    let n = match st.net.linecode(code) {
                        Some(c) => if c.n_conductors < 3 {
                            c.n_conductors as nat
                        } else {
                            3
                        },
                        None => 3,
                    };
                    (st.defaulted("line"@, o.name, "phases"@), numbered(n))
                } else {
                    (st, named)
                };
                let length = num_or(m, o.props, "Conductor.length"@, ONE);
                let measured = if num_at(m, o.props, "Conductor.length"@) is None {
                    phased.defaulted("line"@, o.name, "length"@)
                } else {
                    phased
                };
                let (rated, extras) = line_limits_of(
                    m,
                    doc,
                    measured,
                    o.name,
                    code,
                    from.limit_set,
                    map.len(),
                    mrid_extras(o.props),
                );
                let wired = rated.use_terminals(from.node, map).use_terminals(to.node, map);
                let line = DistLineV {
                    extras,
                    ..dist_line_of(o.name, from.node, to.node, map, map, code, length)
                };
                StateV {
                    net: DistNetworkV { lines: wired.net.lines.push(line), ..wired.net },
                    ..wired
                }
            },
        }
    }
}

pub open spec fn lines_n(m: Sem, doc: Seq<ObjV>, st: StateV, ids: Seq<usize>, n: nat) -> StateV
    decreases n,
{
    if n == 0 {
        st
    } else {
        line_step(m, doc, lines_n(m, doc, st, ids, (n - 1) as nat), doc[ids[n - 1] as int])
    }
}

/// Every line, in natural name order.
pub open spec fn map_lines_of(m: Sem, doc: Seq<ObjV>, st: StateV) -> StateV {
    let ids = sorted_kind(doc, "ACLineSegment"@);
    lines_n(m, doc, st, ids, ids.len())
}

fn read_line<C: Calc>(math: &C, doc: &Vec<Obj>, st: &mut State, o: &Obj)
    ensures
        final(st)@ == line_step(math.sem(), views(doc@), old(st)@, o@),
{
    broadcast use group_views;

    let name = o.name.as_str();
    let terms = terminal_entries(&o.props);
    assert(views(terms@).len() == terms.len());
    if terms.len() < 2 {
        st.keep_untyped(o, "fewer than two terminals");
        return;
    }
    let code = match get_target(&o.props, "ACLineSegment.PerLengthImpedance") {
        Some(c) => c,
        None => {
            st.keep_untyped(o, "no PerLengthImpedance (wire-table lines are roadmap)");
            return;
        },
    };
    let from = &terms[0].1;
    let to = &terms[1].1;
    assert(views(terms@)[0] == (terms@[0].0, terms@[0].1@));
    assert(views(terms@)[1] == (terms@[1].0, terms@[1].1@));
    let letters = line_letters(&o.props, from);
    let mut map = hot_terminals(&letters);
    assert(views(map@).len() == map.len());
    if map.len() == 0 {
        let n: usize = match st.net.linecode(code.as_str()) {
            Some(c) => if c.n_conductors < 3 {
                c.n_conductors
            } else {
                3
            },
            None => 3,
        };
        map = numbered_map(n);
        st.defaulted("line", name, "phases");
    }
    let length = match get_num(math, &o.props, "Conductor.length") {
        Some(l) => l,
        None => {
            st.defaulted("line", name, "length");
            ONE
        },
    };
    let mut extras = extras_with_mrid(&o.props);
    assert(views(map@).len() == map.len());
    line_limits(
        math,
        doc,
        st,
        name,
        code.as_str(),
        &from.limit_set,
        map.len(),
        &mut extras,
    );
    st.use_terminals(from.node.as_str(), &map);
    st.use_terminals(to.node.as_str(), &map);
    let map_from = copy_list(&map);
    let mut line = DistLine::new(
        o.name.clone(),
        from.node.clone(),
        to.node.clone(),
        map_from,
        map,
        code,
        length,
    );
    line.extras = extras;
    st.net.lines.push(line);
}

pub fn map_lines<C: Calc>(math: &C, doc: &Vec<Obj>, st: &mut State)
    ensures
        final(st)@ == map_lines_of(math.sem(), views(doc@), old(st)@),
{
    let ids = sorted_of_kind(doc, "ACLineSegment");
    let mut i: usize = 0;
    while i < ids.len()
        invariant
            i <= ids.len(),
            forall|k: int| 0 <= k < ids@.len() ==> (#[trigger] ids@[k]) < doc@.len(),
            st@ == lines_n(math.sem(), views(doc@), old(st)@, ids@, i as nat),
        decreases ids.len() - i,
    {
        assert(views(doc@)[ids@[i as int] as int] == doc@[ids@[i as int] as int]@);
        read_line(math, doc, st, &doc[ids[i]]);
        i = i + 1;
    }
}

// ---- switches --------------------------------------------------------------

/// The terminal that the phase under a key names.
#[verifier::opaque]
pub open spec fn side_of(o: Entries, key: Seq<char>) -> Option<Seq<char>> {
    match suffix_at(o, key) {
        Some(letter) => phase_terminal_of(letter),
        None => None,
    }
}

fn side(o: &JsonMap, key: &str) -> (r: Option<String>)
    ensures
        opt_view(r) == side_of(o@, key@),
{
    reveal(side_of);
    match get_suffix(o, key) {
        Some(letter) => match phase_terminal(letter.as_str()) {
            Some(t) => Some(t.to_owned()),
            None => None,
        },
        None => None,
    }
}

/// The terminals of the two sides, phase by phase, among the first `n` entries.
pub open spec fn sides_n(items: Seq<JsonV>, n: nat) -> (Seq<Seq<char>>, Seq<Seq<char>>)
    decreases n,
{
    if n == 0 {
        (seq![], seq![])
    } else {
        let (a, b) = sides_n(items, (n - 1) as nat);
        match items[n - 1] {
            JsonV::Obj(o) => match (side_of(o, "SwitchPhase.phaseSide1"@), side_of(
                o,
                "SwitchPhase.phaseSide2"@,
            )) {
                (Some(x), Some(y)) => (a.push(x), b.push(y)),
                _ => (a, b),
            },
            _ => (a, b),
        }
    }
}

/// The terminal maps of a switch: those of its phases, else those of its
/// terminals.
#[verifier::opaque]
pub open spec fn switch_maps_of(props: Entries, from: TerminalV, to: TerminalV) -> (
    Seq<Seq<char>>,
    Seq<Seq<char>>,
) {
    let items = list_at(props, "Switch.SwitchPhase"@);
    let sides = sides_n(items, items.len());
    if sides.0.len() == 0 {
        (hot_terminals_of(from.phases), hot_terminals_of(to.phases))
    } else {
        sides
    }
}

fn switch_maps(props: &JsonMap, from: &Terminal, to: &Terminal) -> (r: (Vec<String>, Vec<String>))
    ensures
        (views(r.0@), views(r.1@)) == switch_maps_of(props@, from@, to@),
{
    broadcast use group_views;

    reveal(switch_maps_of);
    let mut a: Vec<String> = Vec::new();
    let mut b: Vec<String> = Vec::new();
    assert(views(a@) =~= seq![]);
    assert(views(b@) =~= seq![]);
    let ghost all = list_at(props@, "Switch.SwitchPhase"@);
    if let Some(items) = get_list(props, "Switch.SwitchPhase") {
        let mut n: usize = 0;
        while n < items.len()
            invariant
                n <= items.len(),
                (views(a@), views(b@)) == sides_n(views(items@), n as nat),
            decreases items.len() - n,
        {
            assert(views(items@)[n as int] == items@[n as int]@);
            if let Some(o) = items[n].as_obj() {
                let x = side(o, "SwitchPhase.phaseSide1");
                let y = side(o, "SwitchPhase.phaseSide2");
                if let (Some(x), Some(y)) = (x, y) {
                    a.push(x);
                    b.push(y);
                }
            }
            n = n + 1;
        }
        assert(views(items@).len() == items.len());
    }
    assert((views(a@), views(b@)) == sides_n(all, all.len()));
    assert(views(a@).len() == a.len());
    if a.len() == 0 {
        (hot_terminals(&from.phases), hot_terminals(&to.phases))
    } else {
        (a, b)
    }
}

/// The rating and the extras once a switch's ampacity has been read.
#[verifier::opaque]
pub open spec fn switch_limits_of(
    m: Sem,
    doc: Seq<ObjV>,
    set: Option<Seq<char>>,
    n: nat,
    extras: Entries,
) -> (Option<Seq<Bits>>, Entries) {
    match set {
        None => (None, extras),
        Some(set) => {
            let l = limits_of(m, doc, set);
            (
                match l.emerg_amps {
                    Some(amps) => Some(repeat_of(amps, n)),
                    None => None,
                },
                match l.norm_amps {
                    Some(amps) => put_of(extras, "normamps"@, float_json(m, amps)),
                    None => extras,
                },
            )
        },
    }
}

fn switch_limits<C: Calc>(
    math: &C,
    doc: &Vec<Obj>,
    set: &Option<String>,
    n: usize,
    extras: &mut JsonMap,
) -> (r: Option<Vec<Bits>>)
    ensures
        (opt_view(r), final(extras)@) == switch_limits_of(
            math.sem(),
            views(doc@),
            opt_view(*set),
            n as nat,
            old(extras)@,
        ),
{
    reveal(switch_limits_of);
    match set {
        None => None,
        Some(set) => {
            let l = limit_set(math, doc, set.as_str());
            if let Some(amps) = l.norm_amps {
                extras.put("normamps".to_owned(), Json::float(math, amps));
            }
            match l.emerg_amps {
                Some(amps) => Some(repeat(amps, n)),
                None => None,
            }
        },
    }
}

pub open spec fn switch_step(m: Sem, doc: Seq<ObjV>, st: StateV, o: ObjV) -> StateV {
    let terms = terminals_of(o.props);
    if terms.len() < 2 {
        st.keep_untyped(o, "fewer than two terminals"@)
    } else {
        let from = terms[0].1;
        let to = terms[1].1;
        let maps = switch_maps_of(o.props, from, to);
        let bare = maps.0.len() == 0 || maps.1.len() == 0;
        let phased = if bare {
            st.defaulted("switch"@, o.name, "phases"@)
        } else {
            st
        };
        let (map_from, map_to) = if bare {
            (three_phases(), three_phases())
        } else {
            maps
        };
        let open = bool_at(o.props, "Switch.open"@) == Some(true);
        let base = mrid_extras(o.props);
        let noted = match bool_at(o.props, "Switch.normalOpen"@) {
            Some(normal) => if normal != open {
                put_of(base, "ravens_normal_open"@, JsonV::Bool(normal))
            } else {
                base
            },
            None => base,
        };
        let (i_max, extras) = switch_limits_of(m, doc, from.limit_set, map_from.len(), noted);
        let wired = phased.use_terminals(from.node, map_from).use_terminals(to.node, map_to);
        let switch = DistSwitchV {
            i_max,
            extras,
            ..dist_switch_of(o.name, from.node, to.node, map_from, map_to, open)
        };
        StateV {
            net: DistNetworkV { switches: wired.net.switches.push(switch), ..wired.net },
            ..wired
        }
    }
}

pub open spec fn switches_n(m: Sem, doc: Seq<ObjV>, st: StateV, ids: Seq<usize>, n: nat) -> StateV
    decreases n,
{
    if n == 0 {
        st
    } else {
        switch_step(m, doc, switches_n(m, doc, st, ids, (n - 1) as nat), doc[ids[n - 1] as int])
    }
}

/// The switching equipment of every class, in natural name order.
pub open spec fn switch_ids(doc: Seq<ObjV>) -> Seq<usize> {
    let s = of_kind_n(doc, Seq::empty(), "Switch"@, doc.len());
    let s = of_kind_n(doc, s, "LoadBreakSwitch"@, doc.len());
    let s = of_kind_n(doc, s, "Breaker"@, doc.len());
    of_kind_n(doc, s, "Recloser"@, doc.len())
}

pub open spec fn map_switches_of(m: Sem, doc: Seq<ObjV>, st: StateV) -> StateV {
    let ids = switch_ids(doc);
    switches_n(m, doc, st, ids, ids.len())
}

fn read_switch<C: Calc>(math: &C, doc: &Vec<Obj>, st: &mut State, o: &Obj)
    ensures
        final(st)@ == switch_step(math.sem(), views(doc@), old(st)@, o@),
{
    broadcast use group_views;

    let terms = terminal_entries(&o.props);
    assert(views(terms@).len() == terms.len());
    if terms.len() < 2 {
        st.keep_untyped(o, "fewer than two terminals");
        return;
    }
    let from = &terms[0].1;
    let to = &terms[1].1;
    assert(views(terms@)[0] == (terms@[0].0, terms@[0].1@));
    assert(views(terms@)[1] == (terms@[1].0, terms@[1].1@));
    let (mut map_from, mut map_to) = switch_maps(&o.props, from, to);
    assert(views(map_from@).len() == map_from.len());
    assert(views(map_to@).len() == map_to.len());
    if map_from.len() == 0 || map_to.len() == 0 {
        st.defaulted("switch", o.name.as_str(), "phases");
        map_from = three_phase_map();
        map_to = three_phase_map();
    }
    assert(views(map_from@).len() == map_from.len());
    let open = match get_bool(&o.props, "Switch.open") {
        Some(b) => b,
        None => false,
    };
    let mut extras = extras_with_mrid(&o.props);
    if let Some(normal) = get_bool(&o.props, "Switch.normalOpen") {
        if normal != open {
            extras.put("ravens_normal_open".to_owned(), Json::Bool(normal));
        }
    }
    let i_max = switch_limits(math, doc, &from.limit_set, map_from.len(), &mut extras);
    st.use_terminals(from.node.as_str(), &map_from);
    st.use_terminals(to.node.as_str(), &map_to);
    let mut switch = DistSwitch::new(
        o.name.clone(),
        from.node.clone(),
        to.node.clone(),
        map_from,
        map_to,
        open,
    );
    switch.i_max = i_max;
    switch.extras = extras;
    st.net.switches.push(switch);
}

pub fn map_switches<C: Calc>(math: &C, doc: &Vec<Obj>, st: &mut State)
    ensures
        final(st)@ == map_switches_of(math.sem(), views(doc@), old(st)@),
{
    let mut ids: Vec<usize> = Vec::new();
    assert(views(doc@).len() == doc.len());
    add_kind(doc, &mut ids, "Switch");
    add_kind(doc, &mut ids, "LoadBreakSwitch");
    add_kind(doc, &mut ids, "Breaker");
    add_kind(doc, &mut ids, "Recloser");
    let mut i: usize = 0;
    while i < ids.len()
        invariant
            i <= ids.len(),
            forall|k: int| 0 <= k < ids@.len() ==> (#[trigger] ids@[k]) < doc@.len(),
            st@ == switches_n(math.sem(), views(doc@), old(st)@, ids@, i as nat),
        decreases ids.len() - i,
    {
        assert(views(doc@)[ids@[i as int] as int] == doc@[ids@[i as int] as int]@);
        read_switch(math, doc, st, &doc[ids[i]]);
        i = i + 1;
    }
}

} // verus!
