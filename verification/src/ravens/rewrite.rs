//! Writing what was read of a written object gives that object again.

use vstd::prelude::*;

use crate::json::JsonV;
use crate::math::{abs_of, num_lt, Bits, Sem, TWO, ZERO};
use crate::matrix::{halved, mirrored};
use crate::model::{
    entry_of, DistBusV, DistLineCodeV, DistLineV, DistNetworkV, DistSwitchV, LocationV,
};
use crate::order::get_of;
use crate::ravens::doc::ObjV;
use crate::ravens::emit::{
    extra_num, extras_mrid_of, hot_code_of, hot_letters_n, hot_letters_of, letters_n, shown,
    WriterV,
};
use crate::ravens::lines::{line_step, linecode_step, mrid_extras, switch_step};
use crate::ravens::name::terminal_phase_of;
use crate::ravens::read::bus_step;
use crate::ravens::state::StateV;
use crate::ravens::survive::{
    comes_of_line, comes_of_switch, hot_wires, lemma_code_letters, lemma_extras_hold_id,
    lemma_get_put, lemma_hot_letters, lemma_identified_again, lemma_identity_keys, lemma_letters,
    lemma_line_says, lemma_line_step, lemma_switch_says, lemma_switch_step, told, written_id,
};
use crate::ravens::survive_codes::{
    cell_b, cell_g, cell_r, cell_x, code_told, comes_of_code, lemma_code_says, lemma_code_step,
};
use crate::ravens::write_lines::{
    column_json, columns_json, first_rating, line_json, line_rating, linecode_json, row_json,
    switch_json, total_of,
};

verus! {

// ---- ampacity --------------------------------------------------------------

/// The name of the limit set of two ampacities.
pub open spec fn limit_name(m: Sem, norm: Option<Bits>, emerg: Option<Bits>) -> Option<Seq<char>> {
    match (norm, emerg) {
        (Some(n), Some(e)) => Some("OpLimI_"@ + shown(m, n) + "_"@ + shown(m, e)),
        (None, Some(e)) => Some("OpLimI_"@ + shown(m, e) + "_"@ + shown(m, e)),
        (Some(n), None) => Some("OpLimI_"@ + shown(m, n) + "_"@ + shown(m, n)),
        (None, None) => None,
    }
}

broadcast proof fn lemma_limit_name(w: WriterV, m: Sem, norm: Option<Bits>, emerg: Option<Bits>)
    ensures
        (#[trigger] w.ampacity(m, norm, emerg)).1 == limit_name(m, norm, emerg),
{
    reveal(WriterV::current_limit_set);
}

// ---- wires -----------------------------------------------------------------

proof fn lemma_hot_wires_again(map: Seq<Seq<char>>, n: nat)
    requires
        n <= hot_wires(map).len(),
    ensures
        hot_letters_n(hot_wires(map), n) == hot_letters_of(map).take(n as int),
        letters_n(hot_wires(map), true, n).len() == n,
        forall|i: int|
            0 <= i < n ==> seq![#[trigger] letters_n(hot_wires(map), true, n)[i]]
                == hot_letters_of(map)[i],
    decreases n,
{
    lemma_letters();
    lemma_hot_letters(map, map.len());
    let letters = hot_letters_of(map);
    if n == 0 {
        assert(letters.take(0) =~= seq![]);
    } else {
        lemma_hot_wires_again(map, (n - 1) as nat);
        let wire = hot_wires(map)[n - 1];
        assert(terminal_phase_of(wire) == Some(letters[n - 1]));
        assert(letters.take(n as int) =~= letters.take(n - 1).push(letters[n - 1]));
        assert("A"@[0] == 'A' && "B"@[0] == 'B' && "C"@[0] == 'C' && "N"@[0] == 'N');
        let before = letters_n(hot_wires(map), true, (n - 1) as nat);
        let code = letters_n(hot_wires(map), true, n);
        assert(code == before + letters[n - 1]);
        assert forall|i: int| 0 <= i < n implies seq![#[trigger] code[i]] == letters[i] by {
            if i < n - 1 {
                assert(code[i] == before[i]);
            } else {
                assert(seq![code[i]] =~= letters[n - 1]);
            }
        }
    }
}

/// The phases of a map are written as the map is.
pub proof fn lemma_hot_map_writes_the_same(map: Seq<Seq<char>>)
    ensures
        hot_letters_of(hot_wires(map)) == hot_letters_of(map),
        hot_code_of(hot_wires(map)) == hot_code_of(map),
{
    let n = hot_wires(map).len();
    lemma_hot_letters(map, map.len());
    lemma_hot_wires_again(map, n);
    let letters = hot_letters_of(map);
    assert(letters.take(n as int) =~= letters);
    lemma_code_letters(map, map.len());
    let a = letters_n(hot_wires(map), true, n);
    let b = letters_n(map, true, map.len());
    assert forall|i: int| 0 <= i < n implies a[i] == b[i] by {
        assert(seq![a[i]] == letters[i]);
        assert(seq![b[i]] == letters[i]);
        assert(seq![a[i]][0] == seq![b[i]][0]);
    }
    assert(a =~= b);
}

// ---- lines -----------------------------------------------------------------

/// What the reader makes of an object of a line.
pub open spec fn line_read(m: Sem, doc: Seq<ObjV>, st: StateV, o: ObjV) -> DistLineV {
    line_step(m, doc, st, o).net.lines.last()
}

/// A line object is stable: writing what the reader makes of a written line
/// gives the same object, where the base voltage of its bus and the name of its
/// limit set are the same.
#[verifier::rlimit(60)]
pub proof fn lemma_line_object_is_stable(
    w: WriterV,
    v: WriterV,
    m: Sem,
    net: DistNetworkV,
    other: DistNetworkV,
    line: DistLineV,
    doc: Seq<ObjV>,
    st: StateV,
    o: ObjV,
)
    requires
        o.name == line.name,
        line_json(w, m, net, line).1 == JsonV::Obj(o.props),
        told(m, line.length),
        0 < hot_wires(line.terminal_map_from).len() < u64::MAX,
        v.base_of(line.bus_from) == w.base_of(line.bus_from),
        limit_name(
            m,
            extra_num(m, line_read(m, doc, st, o).extras, "normamps"@),
            line_rating(other, line.linecode),
        ) == limit_name(
            m,
            extra_num(m, line.extras, "normamps"@),
            line_rating(net, line.linecode),
        ),
    ensures
        line_json(v, m, other, line_read(m, doc, st, o)).1 == JsonV::Obj(o.props),
        comes_of_line(m, line_read(m, doc, st, o), line),
{
    broadcast use {lemma_limit_name, lemma_get_put};

    let props = o.props;
    let back = line_read(m, doc, st, o);
    lemma_line_says(w, m, net, line);
    lemma_line_step(m, doc, st, o, line);
    assert(comes_of_line(m, back, line));
    let kind = "ACLineSegment"@;
    let imported = extras_mrid_of(line.extras);
    let id = written_id(kind, line.name, imported);
    lemma_identified_again(kind, line.name, imported);
    assert(extras_mrid_of(back.extras) == Some(id));
    lemma_hot_map_writes_the_same(line.terminal_map_from);
    reveal(WriterV::put_base);
    reveal(WriterV::num);
}

// ---- switches --------------------------------------------------------------

/// What the reader makes of an object of a switch.
pub open spec fn switch_read(m: Sem, doc: Seq<ObjV>, st: StateV, o: ObjV) -> DistSwitchV {
    switch_step(m, doc, st, o).net.switches.last()
}

/// A switch object is stable: writing what the reader makes of a written switch,
/// both sides of which are on the same phases, gives the same object, where the
/// name of its limit set is the same.
#[verifier::rlimit(60)]
pub proof fn lemma_switch_object_is_stable(
    w: WriterV,
    v: WriterV,
    m: Sem,
    s: DistSwitchV,
    doc: Seq<ObjV>,
    st: StateV,
    o: ObjV,
)
    requires
        o.name == s.name,
        switch_json(w, m, s).1 == JsonV::Obj(o.props),
        s.terminal_map_from == s.terminal_map_to,
        hot_wires(s.terminal_map_from).len() > 0,
        ({
            let back = switch_read(m, doc, st, o);
            limit_name(m, extra_num(m, back.extras, "normamps"@), first_rating(back.i_max))
                == limit_name(m, extra_num(m, s.extras, "normamps"@), first_rating(s.i_max))
        }),
    ensures
        switch_json(v, m, switch_read(m, doc, st, o)).1 == JsonV::Obj(o.props),
        comes_of_switch(switch_read(m, doc, st, o), s),
{
    broadcast use lemma_limit_name;

    let props = o.props;
    let back = switch_read(m, doc, st, o);
    lemma_switch_says(w, m, s);
    lemma_switch_step(m, doc, st, o, s);
    assert(comes_of_switch(back, s));
    let kind = "Switch"@;
    let imported = extras_mrid_of(s.extras);
    let id = written_id(kind, s.name, imported);
    lemma_identified_again(kind, s.name, imported);
    assert(extras_mrid_of(back.extras) == Some(id));
    lemma_hot_map_writes_the_same(s.terminal_map_from);
}

// ---- line codes ------------------------------------------------------------

/// What the reader makes of an object of a line code.
pub open spec fn code_read(m: Sem, st: StateV, o: ObjV) -> DistLineCodeV {
    linecode_step(m, st, o).net.linecodes.last()
}

/// The shunt of a cell is the sum of its halves.
pub open spec fn shunt_halves(m: Sem, c: DistLineCodeV, i: int, j: int) -> bool {
    let b = cell_b(m, c)(i, j);
    let g = cell_g(m, c)(i, j);
    &&& m.plus(m.over(b, TWO), m.over(b, TWO)) == b
    &&& m.plus(m.over(g, TWO), m.over(g, TWO)) == g
}

/// Two line codes of which the same row is written.
pub open spec fn same_row(m: Sem, a: DistLineCodeV, b: DistLineCodeV, i: int, j: int) -> bool {
    &&& entry_of(a.r_series, i, j) == entry_of(b.r_series, i, j)
    &&& entry_of(a.x_series, i, j) == entry_of(b.x_series, i, j)
    &&& total_of(m, a.b_from, a.b_to, i, j) == total_of(m, b.b_from, b.b_to, i, j)
    &&& cell_g(m, a)(i, j) == cell_g(m, b)(i, j)
    &&& num_lt(ZERO, abs_of(total_of(m, a.g_from, a.g_to, i, j))) == num_lt(
        ZERO,
        abs_of(total_of(m, b.g_from, b.g_to, i, j)),
    )
}

proof fn lemma_row_same(
    w: WriterV,
    v: WriterV,
    m: Sem,
    a: DistLineCodeV,
    b: DistLineCodeV,
    i: nat,
    j: nat,
)
    requires
        same_row(m, a, b, i as int, j as int),
    ensures
        row_json(w, m, a, i, j).1 == row_json(v, m, b, i, j).1,
{
    reveal(row_json);
    reveal(WriterV::num);
}

proof fn lemma_column_same(
    w: WriterV,
    v: WriterV,
    m: Sem,
    a: DistLineCodeV,
    b: DistLineCodeV,
    rows: Seq<JsonV>,
    col: nat,
    end: nat,
)
    requires
        a.n_conductors == b.n_conductors,
        end <= a.n_conductors,
        forall|i: int, j: int| 0 <= j <= i < a.n_conductors ==> #[trigger] same_row(m, a, b, i, j),
    ensures
        column_json(w, m, a, rows, col, end).1 == column_json(v, m, b, rows, col, end).1,
    decreases end,
{
    if end > col {
        let i = (end - 1) as nat;
        lemma_column_same(w, v, m, a, b, rows, col, i);
        assert(same_row(m, a, b, i as int, col as int));
        lemma_row_same(
            column_json(w, m, a, rows, col, i).0,
            column_json(v, m, b, rows, col, i).0,
            m,
            a,
            b,
            i,
            col,
        );
    }
}

pub proof fn lemma_columns_same(
    w: WriterV,
    v: WriterV,
    m: Sem,
    a: DistLineCodeV,
    b: DistLineCodeV,
    col: nat,
)
    requires
        a.n_conductors == b.n_conductors,
        col <= a.n_conductors,
        forall|i: int, j: int| 0 <= j <= i < a.n_conductors ==> #[trigger] same_row(m, a, b, i, j),
    ensures
        columns_json(w, m, a, col).1 == columns_json(v, m, b, col).1,
    decreases col,
{
    if col > 0 {
        let j = (col - 1) as nat;
        lemma_columns_same(w, v, m, a, b, j);
        lemma_column_same(
            columns_json(w, m, a, j).0,
            columns_json(v, m, b, j).0,
            m,
            a,
            b,
            columns_json(w, m, a, j).1,
            j,
            a.n_conductors as nat,
        );
    }
}

proof fn lemma_cells_come_back(m: Sem, c: DistLineCodeV, back: DistLineCodeV, i: int, j: int)
    requires
        comes_of_code(m, back, c),
        0 <= j <= i < c.n_conductors,
        shunt_halves(m, c, i, j),
    ensures
        same_row(m, c, back, i, j),
{
    let n = c.n_conductors as nat;
    let b = mirrored(n, cell_b(m, c));
    let g = mirrored(n, cell_g(m, c));
    assert(back.r_series[i][j] == cell_r(c)(i, j));
    assert(back.x_series[i][j] == cell_x(c)(i, j));
    assert(halved(m, b)[i][j] == m.over(cell_b(m, c)(i, j), TWO));
    assert(halved(m, g)[i][j] == m.over(cell_g(m, c)(i, j), TWO));
    assert(total_of(m, back.b_from, back.b_to, i, j) == cell_b(m, c)(i, j));
    assert(total_of(m, back.g_from, back.g_to, i, j) == cell_g(m, c)(i, j));
    assert(!num_lt(ZERO, abs_of(ZERO)));
}

/// A line code object is stable: writing what the reader makes of a written line
/// code gives the same object, where each shunt is the sum of its halves.
#[verifier::rlimit(60)]
pub proof fn lemma_code_object_is_stable(
    w: WriterV,
    v: WriterV,
    m: Sem,
    c: DistLineCodeV,
    st: StateV,
    o: ObjV,
)
    requires
        o.name == c.name,
        linecode_json(w, m, c).1 == JsonV::Obj(o.props),
        code_told(m, c),
        forall|i: int, j: int| 0 <= j <= i < c.n_conductors ==> #[trigger] shunt_halves(m, c, i, j),
    ensures
        linecode_json(v, m, code_read(m, st, o)).1 == JsonV::Obj(o.props),
        comes_of_code(m, code_read(m, st, o), c),
{
    broadcast use lemma_get_put;

    let props = o.props;
    let kind = "PerLengthPhaseImpedance"@;
    let back = code_read(m, st, o);
    lemma_code_says(w, m, c);
    lemma_code_step(m, st, o, c);
    assert(comes_of_code(m, back, c));
    let imported = extras_mrid_of(c.extras);
    let id = written_id(kind, c.name, imported);
    lemma_identified_again(kind, c.name, imported);
    assert(get_of(props, "IdentifiedObject.mRID"@) == Some(JsonV::Str(id))) by {
        lemma_identity_keys();
        reveal_strlit("PerLengthPhaseImpedance.conductorCount");
        reveal_strlit("PerLengthPhaseImpedance.PhaseImpedanceData");
        assert("PerLengthPhaseImpedance.conductorCount"@.len() == 38);
        assert("PerLengthPhaseImpedance.PhaseImpedanceData"@.len() == 42);
    }
    lemma_extras_hold_id(props, id);
    assert(back.extras == mrid_extras(props));
    assert(extras_mrid_of(back.extras) == Some(id));
    assert forall|i: int, j: int| 0 <= j <= i < c.n_conductors implies #[trigger] same_row(
        m,
        c,
        back,
        i,
        j,
    ) by {
        assert(shunt_halves(m, c, i, j));
        lemma_cells_come_back(m, c, back, i, j);
    }
    let n = c.n_conductors as nat;
    assert forall|a: WriterV, b: WriterV| #[trigger] columns_json(a, m, c, n).1
        == #[trigger] columns_json(b, m, back, n).1 by {
        lemma_columns_same(a, b, m, c, back, n);
    }
}

// ---- buses -----------------------------------------------------------------

/// What the reader makes of an object of a node.
pub open spec fn bus_read(
    m: Sem,
    doc: Seq<ObjV>,
    st: StateV,
    places: Seq<(Seq<char>, LocationV)>,
    o: ObjV,
) -> DistBusV {
    bus_step(m, doc, st, places, o).0.net.buses.last()
}

} // verus!
