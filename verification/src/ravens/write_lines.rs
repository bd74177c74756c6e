//! Line codes, lines and switches, as tables by name.

use vstd::prelude::*;

use crate::json::{put_of, uint_json, Entries, Json, JsonMap, JsonV};
use crate::math::{abs, abs_of, lt, num_lt, plus, Bits, Calc, Sem, ZERO};
use crate::model::{
    entry, entry_of, DistLine, DistLineCode, DistLineCodeV, DistLineV, DistNetwork, DistNetworkV,
    DistSwitch, DistSwitchV, Mat, MatV,
};
use crate::numeral::{dec_of, dec_usize};
use crate::ravens::doc::{bool_at, get_bool};
use crate::ravens::emit::{
    array, array2, extra_num, extras_mrid, extras_mrid_of, hot_code, hot_code_of, hot_letters,
    hot_letters_of, identified, identified_of, object, pointer, pointer_json, terminal,
    terminal_json, xnum, Writer, WriterV,
};
use crate::ravens::name::{terminal_phase, terminal_phase_of};
use crate::text::{cat2, cat3, cat4, cat5, group_views, opt_view, same_list, views};

verus! {

// ---- line codes ------------------------------------------------------------

/// The sum of what stands in two matrices.
pub open spec fn total_of(m: Sem, a: MatV, b: MatV, i: int, j: int) -> Bits {
    m.plus(entry_of(a, i, j), entry_of(b, i, j))
}

fn total<C: Calc>(math: &C, a: &Mat, b: &Mat, i: usize, j: usize) -> (r: Bits)
    ensures
        r == total_of(math.sem(), views(a@), views(b@), i as int, j as int),
{
    plus(math, entry(a, i, j), entry(b, i, j))
}

/// One data row of a line code.
#[verifier::opaque]
pub open spec fn row_json(w: WriterV, m: Sem, c: DistLineCodeV, row: nat, col: nat) -> (
    WriterV,
    JsonV,
) {
    let what = "linecode "@ + c.name;
    let (i, j) = (row as int, col as int);
    let o = put_of(
        Entries::empty(),
        "Ravens.cimObjectType"@,
        JsonV::Str("PhaseImpedanceData"@),
    );
    let o = put_of(o, "PhaseImpedanceData.row"@, uint_json(row + 1));
    let o = put_of(o, "PhaseImpedanceData.column"@, uint_json(col + 1));
    let (w, r) = w.num(m, entry_of(c.r_series, i, j), what);
    let (w, x) = w.num(m, entry_of(c.x_series, i, j), what);
    let (w, b) = w.num(m, total_of(m, c.b_from, c.b_to, i, j), what);
    let o = put_of(o, "PhaseImpedanceData.r"@, r);
    let o = put_of(o, "PhaseImpedanceData.x"@, x);
    let o = put_of(o, "PhaseImpedanceData.b"@, b);
    let g = total_of(m, c.g_from, c.g_to, i, j);
    if num_lt(ZERO, abs_of(g)) {
        let (w, o) = w.put_num(m, o, "PhaseImpedanceData.g"@, g, what);
        (w, JsonV::Obj(o))
    } else {
        (w, JsonV::Obj(o))
    }
}

fn write_row<C: Calc>(
    w: &mut Writer,
    math: &C,
    c: &DistLineCode,
    row: usize,
    col: usize,
) -> (r: Json)
    requires
        row < usize::MAX,
        col < usize::MAX,
    ensures
        (final(w)@, r@) == row_json(old(w)@, math.sem(), c@, row as nat, col as nat),
{
    reveal(row_json);
    let what = cat2("linecode ", c.name.as_str());
    let mut o = JsonMap::new();
    o.put("Ravens.cimObjectType".to_owned(), Json::text("PhaseImpedanceData"));
    o.put("PhaseImpedanceData.row".to_owned(), Json::uint((row + 1) as u64));
    o.put("PhaseImpedanceData.column".to_owned(), Json::uint((col + 1) as u64));
    let r = w.num(math, entry(&c.r_series, row, col), what.as_str());
    let x = w.num(math, entry(&c.x_series, row, col), what.as_str());
    let bt = total(math, &c.b_from, &c.b_to, row, col);
    let b = w.num(math, bt, what.as_str());
    o.put("PhaseImpedanceData.r".to_owned(), r);
    o.put("PhaseImpedanceData.x".to_owned(), x);
    o.put("PhaseImpedanceData.b".to_owned(), b);
    let g = total(math, &c.g_from, &c.g_to, row, col);
    if lt(ZERO, abs(g)) {
        w.put_num(math, &mut o, "PhaseImpedanceData.g", g, what.as_str());
    }
    object(o)
}

/// The rows of one column, from the diagonal down to the `end`-th.
pub open spec fn column_json(
    w: WriterV,
    m: Sem,
    c: DistLineCodeV,
    rows: Seq<JsonV>,
    col: nat,
    end: nat,
) -> (WriterV, Seq<JsonV>)
    decreases end,
{
    if end <= col {
        (w, rows)
    } else {
        let before = column_json(w, m, c, rows, col, (end - 1) as nat);
        let (v, j) = row_json(before.0, m, c, (end - 1) as nat, col);
        (v, before.1.push(j))
    }
}

/// The rows of the first `col` columns of the lower triangle.
pub open spec fn columns_json(w: WriterV, m: Sem, c: DistLineCodeV, col: nat) -> (
    WriterV,
    Seq<JsonV>,
)
    decreases col,
{
    if col == 0 {
        (w, seq![])
    } else {
        let before = columns_json(w, m, c, (col - 1) as nat);
        column_json(before.0, m, c, before.1, (col - 1) as nat, c.n_conductors as nat)
    }
}

fn write_rows<C: Calc>(w: &mut Writer, math: &C, c: &DistLineCode) -> (r: Vec<Json>)
    ensures
        (final(w)@, views(r@)) == columns_json(
            old(w)@,
            math.sem(),
            c@,
            c.n_conductors as nat,
        ),
{
    broadcast use group_views;

    let mut rows: Vec<Json> = Vec::new();
    let mut col: usize = 0;
    assert(views(rows@) =~= seq![]);
    while col < c.n_conductors
        invariant
            col <= c.n_conductors,
            (w@, views(rows@)) == columns_json(old(w)@, math.sem(), c@, col as nat),
        decreases c.n_conductors - col,
    {
        let ghost w0 = w@;
        let ghost r0 = views(rows@);
        let mut row: usize = col;
        while row < c.n_conductors
            invariant
                col < c.n_conductors,
                col <= row <= c.n_conductors,
                (w@, views(rows@)) == column_json(
                    w0,
                    math.sem(),
                    c@,
                    r0,
                    col as nat,
                    row as nat,
                ),
            decreases c.n_conductors - row,
        {
            let j = write_row(w, math, c, row, col);
            rows.push(j);
            row = row + 1;
        }
        col = col + 1;
    }
    rows
}

pub open spec fn linecode_json(w: WriterV, m: Sem, c: DistLineCodeV) -> (WriterV, JsonV) {
    let w = if c.n_conductors > 4 {
        w.warn(
            "linecode "@ + c.name + ": "@ + dec_of(c.n_conductors as nat)
                + " conductors exceed the four CIM SinglePhaseKind identities (A/B/C/N); the impedance matrix is written in full, but conductors beyond the fourth have no phase representation on the lines that use it, so a reparse cannot recover their terminal assignment"@,
        )
    } else {
        w
    };
    let o = identified_of("PerLengthPhaseImpedance"@, c.name, extras_mrid_of(c.extras));
    let o = put_of(
        o,
        "PerLengthPhaseImpedance.conductorCount"@,
        uint_json(c.n_conductors as nat),
    );
    let (w, rows) = columns_json(w, m, c, c.n_conductors as nat);
    let o = put_of(o, "PerLengthPhaseImpedance.PhaseImpedanceData"@, JsonV::Arr(rows));
    let w = w.warn_extras("linecode "@ + c.name, c.extras, Seq::empty());
    let w = if c.s_max is Some {
        w.warn(
            "linecode "@ + c.name
                + ": `s_max` power rating has no MG-RAVENS slot; dropped (ampacity carries through the line current limits)"@,
        )
    } else {
        w
    };
    (w, JsonV::Obj(o))
}

pub open spec fn linecodes_json(w: WriterV, m: Sem, codes: Seq<DistLineCodeV>, n: nat) -> (
    WriterV,
    Entries,
)
    decreases n,
{
    if n == 0 {
        (w, Entries::empty())
    } else {
        let before = linecodes_json(w, m, codes, (n - 1) as nat);
        let (v, j) = linecode_json(before.0, m, codes[n - 1]);
        (v, put_of(before.1, codes[n - 1].name, j))
    }
}

/// No extras that an element carries on purpose.
pub fn nothing() -> (r: Vec<&'static str>)
    ensures
        views(r@) == Seq::<Seq<char>>::empty(),
{
    let r: Vec<&'static str> = Vec::new();
    assert(views(r@) =~= Seq::<Seq<char>>::empty());
    r
}

fn write_linecode<C: Calc>(w: &mut Writer, math: &C, c: &DistLineCode) -> (r: Json)
    ensures
        (final(w)@, r@) == linecode_json(old(w)@, math.sem(), c@),
{
    if c.n_conductors > 4 {
        let n = dec_usize(c.n_conductors);
        w.warn(
            cat5(
                "linecode ",
                c.name.as_str(),
                ": ",
                n.as_str(),
                " conductors exceed the four CIM SinglePhaseKind identities (A/B/C/N); the impedance matrix is written in full, but conductors beyond the fourth have no phase representation on the lines that use it, so a reparse cannot recover their terminal assignment",
            ),
        );
    }
    let mut o = identified(
        "PerLengthPhaseImpedance",
        c.name.as_str(),
        extras_mrid(&c.extras),
    );
    o.put(
        "PerLengthPhaseImpedance.conductorCount".to_owned(),
        Json::uint(c.n_conductors as u64),
    );
    let rows = write_rows(w, math, c);
    o.put("PerLengthPhaseImpedance.PhaseImpedanceData".to_owned(), array(rows));
    let none = nothing();
    w.warn_extras(cat2("linecode ", c.name.as_str()).as_str(), &c.extras, &none);
    if c.s_max.is_some() {
        w.warn(
            cat3(
                "linecode ",
                c.name.as_str(),
                ": `s_max` power rating has no MG-RAVENS slot; dropped (ampacity carries through the line current limits)",
            ),
        );
    }
    object(o)
}

pub fn write_linecodes<C: Calc>(w: &mut Writer, math: &C, net: &DistNetwork) -> (r: JsonMap)
    ensures
        (final(w)@, r@) == linecodes_json(
            old(w)@,
            math.sem(),
            net@.linecodes,
            net@.linecodes.len(),
        ),
{
    let mut table = JsonMap::new();
    let mut n: usize = 0;
    while n < net.linecodes.len()
        invariant
            n <= net.linecodes.len(),
            (w@, table@) == linecodes_json(old(w)@, math.sem(), net@.linecodes, n as nat),
        decreases net.linecodes.len() - n,
    {
        assert(net@.linecodes[n as int] == net.linecodes@[n as int]@);
        let j = write_linecode(w, math, &net.linecodes[n]);
        table.put(net.linecodes[n].name.clone(), j);
        n = n + 1;
    }
    assert(net@.linecodes.len() == net.linecodes.len());
    table
}

// ---- lines -----------------------------------------------------------------

/// A phase of a line.
#[verifier::opaque]
pub open spec fn line_phase_json(name: Seq<char>, letter: Seq<char>, k: nat) -> JsonV {
    let o = identified_of("ACLineSegmentPhase"@, name + "_"@ + letter, None);
    let o = put_of(
        o,
        "ACLineSegmentPhase.phase"@,
        JsonV::Str("SinglePhaseKind."@ + letter),
    );
    JsonV::Obj(put_of(o, "ACLineSegmentPhase.sequenceNumber"@, uint_json(k + 1)))
}

pub open spec fn line_phases_json(name: Seq<char>, letters: Seq<Seq<char>>) -> Seq<JsonV> {
    Seq::new(letters.len(), |k: int| line_phase_json(name, letters[k], k as nat))
}

fn write_line_phases(name: &str, letters: &Vec<String>) -> (r: Vec<Json>)
    ensures
        views(r@) == line_phases_json(name@, views(letters@)),
{
    let mut r: Vec<Json> = Vec::new();
    let mut k: usize = 0;
    while k < letters.len()
        invariant
            k <= letters.len(),
            r.len() == k,
            forall|q: int|
                0 <= q < k ==> (#[trigger] r@[q])@ == line_phase_json(
                    name@,
                    letters@[q]@,
                    q as nat,
                ),
        decreases letters.len() - k,
    {
        let l = letters[k].as_str();
        let mut o = identified("ACLineSegmentPhase", cat3(name, "_", l).as_str(), None);
        o.put("ACLineSegmentPhase.phase".to_owned(), Json::Str(cat2("SinglePhaseKind.", l)));
        o.put("ACLineSegmentPhase.sequenceNumber".to_owned(), Json::uint((k + 1) as u64));
        r.push(object(o));
        reveal(line_phase_json);
        assert(r@[k as int]@ == line_phase_json(name@, letters@[k as int]@, k as nat));
        k = k + 1;
    }
    assert(views(r@) =~= line_phases_json(name@, views(letters@)));
    r
}

/// The first number of a rating.
pub open spec fn first_rating(v: Option<Seq<Bits>>) -> Option<Bits> {
    match v {
        Some(s) => if s.len() > 0 {
            Some(s[0])
        } else {
            None
        },
        None => None,
    }
}

fn rating(v: &Option<Vec<Bits>>) -> (r: Option<Bits>)
    ensures
        r == first_rating(opt_view(*v)),
{
    match v {
        Some(s) => if s.len() > 0 {
            Some(s[0])
        } else {
            None
        },
        None => None,
    }
}

/// The emergency ampacity of a line: that of its line code.
pub open spec fn line_rating(net: DistNetworkV, code: Seq<char>) -> Option<Bits> {
    match net.linecode(code) {
        Some(c) => first_rating(c.i_max),
        None => None,
    }
}

pub open spec fn line_json(w: WriterV, m: Sem, net: DistNetworkV, line: DistLineV) -> (
    WriterV,
    JsonV,
) {
    let what = "line "@ + line.name;
    let o = identified_of("ACLineSegment"@, line.name, extras_mrid_of(line.extras));
    let o = put_of(o, "Equipment.inService"@, JsonV::Bool(true));
    let o = w.put_base(m, o, line.bus_from);
    let (w, o) = w.put_num(m, o, "Conductor.length"@, line.length, what);
    let o = put_of(
        o,
        "ACLineSegment.PerLengthImpedance"@,
        pointer_json("PerLengthPhaseImpedance"@, line.linecode),
    );
    let w = if line.terminal_map_to != line.terminal_map_from {
        w.warn(
            what
                + ": the two terminal maps differ; MG-RAVENS carries one phase list per segment, so the from side wins"@,
        )
    } else {
        w
    };
    let (w, limit) = w.ampacity(
        m,
        extra_num(m, line.extras, "normamps"@),
        line_rating(net, line.linecode),
    );
    let code = hot_code_of(line.terminal_map_from);
    let o = put_of(
        o,
        "ConductingEquipment.Terminals"@,
        JsonV::Arr(
            seq![
                terminal_json(line.name, 1, line.bus_from, code, limit),
                terminal_json(line.name, 2, line.bus_to, code, limit),
            ],
        ),
    );
    let o = put_of(
        o,
        "ACLineSegment.ACLineSegmentPhase"@,
        JsonV::Arr(line_phases_json(line.name, hot_letters_of(line.terminal_map_from))),
    );
    (w.warn_extras(what, line.extras, seq!["normamps"@]), JsonV::Obj(o))
}

pub open spec fn lines_json(w: WriterV, m: Sem, net: DistNetworkV, n: nat) -> (WriterV, Entries)
    decreases n,
{
    if n == 0 {
        (w, Entries::empty())
    } else {
        let before = lines_json(w, m, net, (n - 1) as nat);
        let (v, j) = line_json(before.0, m, net, net.lines[n - 1]);
        (v, put_of(before.1, net.lines[n - 1].name, j))
    }
}

fn normamps() -> (r: Vec<&'static str>)
    ensures
        views(r@) == seq!["normamps"@],
{
    let r: Vec<&'static str> = vec!["normamps"];
    assert(views(r@) =~= seq!["normamps"@]);
    r
}

fn write_line<C: Calc>(w: &mut Writer, math: &C, net: &DistNetwork, line: &DistLine) -> (r: Json)
    ensures
        (final(w)@, r@) == line_json(old(w)@, math.sem(), net@, line@),
{
    let what = cat2("line ", line.name.as_str());
    let mut o = identified("ACLineSegment", line.name.as_str(), extras_mrid(&line.extras));
    o.put("Equipment.inService".to_owned(), Json::Bool(true));
    w.put_base(math, &mut o, line.bus_from.as_str());
    w.put_num(math, &mut o, "Conductor.length", line.length, what.as_str());
    o.put(
        "ACLineSegment.PerLengthImpedance".to_owned(),
        pointer("PerLengthPhaseImpedance", line.linecode.as_str()),
    );
    if !same_list(&line.terminal_map_to, &line.terminal_map_from) {
        w.warn(
            cat2(
                what.as_str(),
                ": the two terminal maps differ; MG-RAVENS carries one phase list per segment, so the from side wins",
            ),
        );
    }
    let emerg = match net.linecode(line.linecode.as_str()) {
        Some(c) => rating(&c.i_max),
        None => None,
    };
    let norm = xnum(math, &line.extras, "normamps");
    let limit = w.ampacity(math, norm, emerg);
    let code = hot_code(&line.terminal_map_from);
    let a = terminal(line.name.as_str(), 1, line.bus_from.as_str(), code.as_str(), &limit);
    let b = terminal(line.name.as_str(), 2, line.bus_to.as_str(), code.as_str(), &limit);
    o.put("ConductingEquipment.Terminals".to_owned(), array2(a, b));
    let letters = hot_letters(&line.terminal_map_from);
    let phases = write_line_phases(line.name.as_str(), &letters);
    o.put("ACLineSegment.ACLineSegmentPhase".to_owned(), array(phases));
    let carried = normamps();
    w.warn_extras(what.as_str(), &line.extras, &carried);
    object(o)
}

pub fn write_lines<C: Calc>(w: &mut Writer, math: &C, net: &DistNetwork) -> (r: JsonMap)
    ensures
        (final(w)@, r@) == lines_json(old(w)@, math.sem(), net@, net@.lines.len()),
{
    let mut table = JsonMap::new();
    let mut n: usize = 0;
    while n < net.lines.len()
        invariant
            n <= net.lines.len(),
            (w@, table@) == lines_json(old(w)@, math.sem(), net@, n as nat),
        decreases net.lines.len() - n,
    {
        assert(net@.lines[n as int] == net.lines@[n as int]@);
        let j = write_line(w, math, net, &net.lines[n]);
        table.put(net.lines[n].name.clone(), j);
        n = n + 1;
    }
    assert(net@.lines.len() == net.lines.len());
    table
}

// ---- switches --------------------------------------------------------------

#[verifier::opaque]
pub open spec fn side_json(name: Seq<char>, a: Seq<char>, b: Seq<char>) -> JsonV {
    let o = identified_of("SwitchPhase"@, name + "_"@ + a + b, None);
    let o = put_of(o, "SwitchPhase.phaseSide1"@, JsonV::Str("SinglePhaseKind."@ + a));
    JsonV::Obj(put_of(o, "SwitchPhase.phaseSide2"@, JsonV::Str("SinglePhaseKind."@ + b)))
}

/// The phases of the first `n` conductors of a switch whose sides differ; those
/// with a terminal that carries no phase left out.
pub open spec fn sides_json(
    name: Seq<char>,
    from: Seq<Seq<char>>,
    to: Seq<Seq<char>>,
    n: nat,
) -> Seq<
    JsonV,
>
    decreases n,
{
    if n == 0 {
        seq![]
    } else {
        let before = sides_json(name, from, to, (n - 1) as nat);
        match (terminal_phase_of(from[n - 1]), terminal_phase_of(to[n - 1])) {
            (Some(a), Some(b)) => before.push(side_json(name, a, b)),
            _ => before,
        }
    }
}

pub open spec fn min_nat(a: nat, b: nat) -> nat {
    if a < b {
        a
    } else {
        b
    }
}

fn write_sides(name: &str, from: &Vec<String>, to: &Vec<String>) -> (r: Vec<Json>)
    ensures
        views(r@) == sides_json(
            name@,
            views(from@),
            views(to@),
            min_nat(from@.len(), to@.len()),
        ),
{
    broadcast use group_views;

    let mut r: Vec<Json> = Vec::new();
    let mut n: usize = 0;
    assert(views(r@) =~= seq![]);
    while n < from.len() && n < to.len()
        invariant
            n <= from.len(),
            n <= to.len(),
            views(r@) == sides_json(name@, views(from@), views(to@), n as nat),
        decreases from.len() - n,
    {
        assert(views(from@)[n as int] == from@[n as int]@);
        assert(views(to@)[n as int] == to@[n as int]@);
        let a = terminal_phase(from[n].as_str());
        let b = terminal_phase(to[n].as_str());
        if let (Some(a), Some(b)) = (a, b) {
            let mut o = identified("SwitchPhase", cat4(name, "_", a, b).as_str(), None);
            o.put("SwitchPhase.phaseSide1".to_owned(), Json::Str(cat2("SinglePhaseKind.", a)));
            o.put("SwitchPhase.phaseSide2".to_owned(), Json::Str(cat2("SinglePhaseKind.", b)));
            let j = object(o);
            reveal(side_json);
            assert(j@ == side_json(name@, a@, b@));
            r.push(j);
        }
        n = n + 1;
    }
    r
}

pub open spec fn switch_json(w: WriterV, m: Sem, s: DistSwitchV) -> (WriterV, JsonV) {
    let what = "switch "@ + s.name;
    let o = identified_of("Switch"@, s.name, extras_mrid_of(s.extras));
    let o = put_of(o, "Equipment.inService"@, JsonV::Bool(true));
    let o = put_of(o, "Switch.open"@, JsonV::Bool(s.open));
    let normal = match bool_at(s.extras, "ravens_normal_open"@) {
        Some(b) => b,
        None => s.open,
    };
    let o = put_of(o, "Switch.normalOpen"@, JsonV::Bool(normal));
    let (w, limit) = w.ampacity(
        m,
        extra_num(m, s.extras, "normamps"@),
        first_rating(s.i_max),
    );
    let o = put_of(
        o,
        "ConductingEquipment.Terminals"@,
        JsonV::Arr(
            seq![
                terminal_json(s.name, 1, s.bus_from, hot_code_of(s.terminal_map_from), limit),
                terminal_json(s.name, 2, s.bus_to, hot_code_of(s.terminal_map_to), limit),
            ],
        ),
    );
    let o = if s.terminal_map_from != s.terminal_map_to {
        put_of(
            o,
            "Switch.SwitchPhase"@,
            JsonV::Arr(
                sides_json(
                    s.name,
                    s.terminal_map_from,
                    s.terminal_map_to,
                    min_nat(s.terminal_map_from.len(), s.terminal_map_to.len()),
                ),
            ),
        )
    } else {
        o
    };
    (w.warn_extras(what, s.extras, seq!["normamps"@]), JsonV::Obj(o))
}

pub open spec fn switches_json(w: WriterV, m: Sem, s: Seq<DistSwitchV>, n: nat) -> (
    WriterV,
    Entries,
)
    decreases n,
{
    if n == 0 {
        (w, Entries::empty())
    } else {
        let before = switches_json(w, m, s, (n - 1) as nat);
        let (v, j) = switch_json(before.0, m, s[n - 1]);
        (v, put_of(before.1, s[n - 1].name, j))
    }
}

fn write_switch<C: Calc>(w: &mut Writer, math: &C, s: &DistSwitch) -> (r: Json)
    ensures
        (final(w)@, r@) == switch_json(old(w)@, math.sem(), s@),
{
    let what = cat2("switch ", s.name.as_str());
    let mut o = identified("Switch", s.name.as_str(), extras_mrid(&s.extras));
    o.put("Equipment.inService".to_owned(), Json::Bool(true));
    o.put("Switch.open".to_owned(), Json::Bool(s.open));
    let normal = match get_bool(&s.extras, "ravens_normal_open") {
        Some(b) => b,
        None => s.open,
    };
    o.put("Switch.normalOpen".to_owned(), Json::Bool(normal));
    let emerg = rating(&s.i_max);
    let norm = xnum(math, &s.extras, "normamps");
    let limit = w.ampacity(math, norm, emerg);
    let code_from = hot_code(&s.terminal_map_from);
    let code_to = hot_code(&s.terminal_map_to);
    let a = terminal(s.name.as_str(), 1, s.bus_from.as_str(), code_from.as_str(), &limit);
    let b = terminal(s.name.as_str(), 2, s.bus_to.as_str(), code_to.as_str(), &limit);
    o.put("ConductingEquipment.Terminals".to_owned(), array2(a, b));
    if !same_list(&s.terminal_map_from, &s.terminal_map_to) {
        assert(s@.terminal_map_from.len() == s.terminal_map_from@.len());
        assert(s@.terminal_map_to.len() == s.terminal_map_to@.len());
        let sides = write_sides(s.name.as_str(), &s.terminal_map_from, &s.terminal_map_to);
        o.put("Switch.SwitchPhase".to_owned(), array(sides));
    }
    let carried = normamps();
    w.warn_extras(what.as_str(), &s.extras, &carried);
    object(o)
}

pub fn write_switches<C: Calc>(w: &mut Writer, math: &C, net: &DistNetwork) -> (r: JsonMap)
    ensures
        (final(w)@, r@) == switches_json(
            old(w)@,
            math.sem(),
            net@.switches,
            net@.switches.len(),
        ),
{
    let mut table = JsonMap::new();
    let mut n: usize = 0;
    while n < net.switches.len()
        invariant
            n <= net.switches.len(),
            (w@, table@) == switches_json(old(w)@, math.sem(), net@.switches, n as nat),
        decreases net.switches.len() - n,
    {
        assert(net@.switches[n as int] == net.switches@[n as int]@);
        let j = write_switch(w, math, &net.switches[n]);
        table.put(net.switches[n].name.clone(), j);
        n = n + 1;
    }
    assert(net@.switches.len() == net.switches.len());
    table
}

} // verus!
