//! What the reader makes of the line codes that the writer wrote.

use vstd::prelude::*;

use crate::json::{num_of, uint_json, Entries, JsonV};
use crate::math::{abs_of, num_lt, Bits, Sem, ZERO};
use crate::matrix::{halved, mirror_of, mirrored, to_usize_of};
use crate::model::{entry_of, filled_of, DistLineCodeV, DistNetworkV, MatV};
use crate::numeral::dec_of;
use crate::order::{get_of, put_of};
use crate::ravens::bases::bases_of;
use crate::ravens::doc::{collect_of, list_at, num_at, sorted_kind, str_at, ObjV};
use crate::ravens::emit::{extras_mrid_of, WriterV};
use crate::ravens::found::{lemma_kind_holds, lemma_typed_object_is_collected};
use crate::ravens::keeps::{lemma_linecodes_n_grows, lemma_nothing_is_taken_back, same_code, stages};
use crate::ravens::laws::{clear, found_at, lemma_typed_place_stays, typed_root};
use crate::ravens::lines::{linecode_step, linecodes_n, mats_n, row_of, rows_n, Mats, Row};
use crate::ravens::read::{ravens_value, run_of};
use crate::ravens::state::{empty_state, StateV};
use crate::ravens::survive::{
    comes_of_id, lemma_extras_hold_id, lemma_get_put, lemma_identified, lemma_identified_again,
    lemma_identity_keys, lemma_put_some, lemma_root_keys, lemma_some_entries, says_id, told,
    written_id, written_tables,
};
use crate::ravens::write::{fresh_writer, ravens_document, tables_of, typed_of, unrepresented};
use crate::ravens::write_lines::{
    column_json, columns_json, linecode_json, linecodes_json, row_json, total_of,
};

verus! {

// ---- rows ------------------------------------------------------------------

/// The counts up to `n` read as the numbers they are.
pub open spec fn counted(m: Sem, n: nat) -> bool {
    forall|k: nat|
        1 <= k <= n ==> {
            let v = num_of(m, #[trigger] uint_json(k));
            v is Some && to_usize_of(m.trunc(v->0)) == k
        }
}

/// The four numbers of a cell of a line code.
pub open spec fn cell_r(c: DistLineCodeV) -> spec_fn(int, int) -> Bits {
    |i: int, j: int| entry_of(c.r_series, i, j)
}

pub open spec fn cell_x(c: DistLineCodeV) -> spec_fn(int, int) -> Bits {
    |i: int, j: int| entry_of(c.x_series, i, j)
}

pub open spec fn cell_b(m: Sem, c: DistLineCodeV) -> spec_fn(int, int) -> Bits {
    |i: int, j: int| total_of(m, c.b_from, c.b_to, i, j)
}

/// The conductance, which is written only where it is not zero.
pub open spec fn cell_g(m: Sem, c: DistLineCodeV) -> spec_fn(int, int) -> Bits {
    |i: int, j: int|
        {
            let g = total_of(m, c.g_from, c.g_to, i, j);
            if num_lt(ZERO, abs_of(g)) {
                g
            } else {
                ZERO
            }
        }
}

pub open spec fn cell_told(m: Sem, c: DistLineCodeV, i: int, j: int) -> bool {
    &&& told(m, cell_r(c)(i, j))
    &&& told(m, cell_x(c)(i, j))
    &&& told(m, cell_b(m, c)(i, j))
    &&& num_lt(ZERO, abs_of(total_of(m, c.g_from, c.g_to, i, j))) ==> told(
        m,
        total_of(m, c.g_from, c.g_to, i, j),
    )
}

/// A line code with conductors, whose numbers come back from their numerals.
pub open spec fn code_told(m: Sem, c: DistLineCodeV) -> bool {
    &&& c.n_conductors > 0
    &&& counted(m, c.n_conductors as nat)
    &&& forall|i: int, j: int| 0 <= j <= i < c.n_conductors ==> #[trigger] cell_told(m, c, i, j)
}

proof fn lemma_row_keys()
    ensures
        "PhaseImpedanceData.row"@.len() == 22,
        "PhaseImpedanceData.column"@.len() == 25,
        "PhaseImpedanceData.r"@.len() == 20 && "PhaseImpedanceData.r"@[19] == 'r',
        "PhaseImpedanceData.x"@.len() == 20 && "PhaseImpedanceData.x"@[19] == 'x',
        "PhaseImpedanceData.b"@.len() == 20 && "PhaseImpedanceData.b"@[19] == 'b',
        "PhaseImpedanceData.g"@.len() == 20 && "PhaseImpedanceData.g"@[19] == 'g',
        "PhaseImpedanceData.g"@[0] == 'P',
        "Ravens.cimObjectType"@.len() == 20 && "Ravens.cimObjectType"@[0] == 'R',
        "Ravens.cimObjectType"@[19] == 'e',
{
    reveal_strlit("PhaseImpedanceData.row");
    reveal_strlit("PhaseImpedanceData.column");
    reveal_strlit("PhaseImpedanceData.r");
    reveal_strlit("PhaseImpedanceData.x");
    reveal_strlit("PhaseImpedanceData.b");
    reveal_strlit("PhaseImpedanceData.g");
    reveal_strlit("Ravens.cimObjectType");
}

pub open spec fn row_at(m: Sem, c: DistLineCodeV, i: int, j: int) -> Row {
    Row {
        i: (i + 1) as usize,
        j: (j + 1) as usize,
        r: cell_r(c)(i, j),
        x: cell_x(c)(i, j),
        b: cell_b(m, c)(i, j),
        g: cell_g(m, c)(i, j),
    }
}

#[verifier::rlimit(40)]
proof fn lemma_row_reads(w: WriterV, m: Sem, c: DistLineCodeV, i: nat, j: nat)
    requires
        code_told(m, c),
        j <= i < c.n_conductors,
    ensures
        row_of(m, row_json(w, m, c, i, j).1) == Some(row_at(m, c, i as int, j as int)),
{
    broadcast use lemma_get_put;

    lemma_row_keys();
    reveal(row_json);
    reveal(row_of);
    reveal(num_at);
    reveal(WriterV::num);
    assert(cell_told(m, c, i as int, j as int));
    let a = (i + 1) as nat;
    let b = (j + 1) as nat;
    assert(num_of(m, uint_json(a)) is Some && to_usize_of(m.trunc(num_of(m, uint_json(a))->0))
        == a);
    assert(num_of(m, uint_json(b)) is Some && to_usize_of(m.trunc(num_of(m, uint_json(b))->0))
        == b);
    assert(get_of(Entries::empty(), "PhaseImpedanceData.g"@) is None) by {
        reveal(get_of);
    }
}

// ---- matrices out of columns -----------------------------------------------

/// The symmetric matrix of a lower triangle of values, of which the columns
/// before the `j`-th are in, and of that column the rows before the `i`-th.
pub open spec fn columns_in(n: nat, v: spec_fn(int, int) -> Bits, j: int, i: int) -> MatV {
    Seq::new(
        n,
        |a: int|
            Seq::new(
                n,
                |b: int|
                    {
                        let hi = if a < b {
                            b
                        } else {
                            a
                        };
                        let lo = if a < b {
                            a
                        } else {
                            b
                        };
                        if lo < j || (lo == j && hi < i) {
                            v(hi, lo)
                        } else {
                            ZERO
                        }
                    },
            ),
    )
}

proof fn lemma_columns_start(n: nat, v: spec_fn(int, int) -> Bits)
    ensures
        columns_in(n, v, 0, 0) == filled_of(n, ZERO),
{
    let x = columns_in(n, v, 0, 0);
    let y = filled_of(n, ZERO);
    assert forall|a: int| 0 <= a < n implies x[a] == y[a] by {
        assert(x[a] =~= y[a]);
    }
    assert(x =~= y);
}

proof fn lemma_columns_end(n: nat, v: spec_fn(int, int) -> Bits)
    ensures
        columns_in(n, v, n as int, n as int) == mirrored(n, v),
{
    let x = columns_in(n, v, n as int, n as int);
    let y = mirrored(n, v);
    assert forall|a: int| 0 <= a < n implies x[a] == y[a] by {
        assert(x[a] =~= y[a]);
    }
    assert(x =~= y);
}

proof fn lemma_columns_next(n: nat, v: spec_fn(int, int) -> Bits, j: int)
    requires
        0 <= j < n,
    ensures
        columns_in(n, v, j, n as int) == columns_in(n, v, j + 1, j + 1),
{
    let x = columns_in(n, v, j, n as int);
    let y = columns_in(n, v, j + 1, j + 1);
    assert forall|a: int| 0 <= a < n implies x[a] == y[a] by {
        assert(x[a] =~= y[a]);
    }
    assert(x =~= y);
}

proof fn lemma_columns_cell(n: nat, v: spec_fn(int, int) -> Bits, j: int, i: int)
    requires
        0 <= j <= i < n,
    ensures
        mirror_of(columns_in(n, v, j, i), i, j, v(i, j)) == columns_in(n, v, j, i + 1),
{
    let x = mirror_of(columns_in(n, v, j, i), i, j, v(i, j));
    let y = columns_in(n, v, j, i + 1);
    assert forall|a: int| 0 <= a < n implies x[a] == y[a] by {
        assert(x[a] =~= y[a]);
    }
    assert(x =~= y);
}

pub open spec fn mats_in(m: Sem, c: DistLineCodeV, j: int, i: int) -> Mats {
    let n = c.n_conductors as nat;
    Mats {
        r: columns_in(n, cell_r(c), j, i),
        x: columns_in(n, cell_x(c), j, i),
        b: columns_in(n, cell_b(m, c), j, i),
        g: columns_in(n, cell_g(m, c), j, i),
    }
}

proof fn lemma_mats_next(m: Sem, c: DistLineCodeV, j: int)
    requires
        0 <= j < c.n_conductors,
    ensures
        mats_in(m, c, j, c.n_conductors as int) == mats_in(m, c, j + 1, j + 1),
{
    let n = c.n_conductors as nat;
    lemma_columns_next(n, cell_r(c), j);
    lemma_columns_next(n, cell_x(c), j);
    lemma_columns_next(n, cell_b(m, c), j);
    lemma_columns_next(n, cell_g(m, c), j);
}

proof fn lemma_mats_cell(m: Sem, c: DistLineCodeV, j: int, i: int)
    requires
        0 <= j <= i < c.n_conductors,
    ensures
        ({
            let t = mats_in(m, c, j, i);
            let row = row_at(m, c, i, j);
            mats_in(m, c, j, i + 1) == (Mats {
                r: mirror_of(t.r, i, j, row.r),
                x: mirror_of(t.x, i, j, row.x),
                b: mirror_of(t.b, i, j, row.b),
                g: mirror_of(t.g, i, j, row.g),
            })
        }),
{
    let n = c.n_conductors as nat;
    lemma_columns_cell(n, cell_r(c), j, i);
    lemma_columns_cell(n, cell_x(c), j, i);
    lemma_columns_cell(n, cell_b(m, c), j, i);
    lemma_columns_cell(n, cell_g(m, c), j, i);
}

/// The rows of items that are all rows.
pub open spec fn all_rows(m: Sem, items: Seq<JsonV>, rows: Seq<Row>) -> bool {
    &&& items.len() == rows.len()
    &&& forall|k: int| 0 <= k < items.len() ==> row_of(m, #[trigger] items[k]) == Some(rows[k])
}

proof fn lemma_all_rows(m: Sem, items: Seq<JsonV>, rows: Seq<Row>, n: nat)
    requires
        all_rows(m, items, rows),
        n <= items.len(),
    ensures
        rows_n(m, items, n) == rows.take(n as int),
    decreases n,
{
    if n == 0 {
        assert(rows.take(0) =~= seq![]);
    } else {
        lemma_all_rows(m, items, rows, (n - 1) as nat);
        assert(row_of(m, items[n - 1]) == Some(rows[n - 1]));
        assert(rows.take(n as int) =~= rows.take(n - 1).push(rows[n - 1]));
    }
}

pub proof fn lemma_mats_same(size: nat, a: Seq<Row>, b: Seq<Row>, n: nat)
    requires
        n <= a.len(),
        n <= b.len(),
        forall|k: int| 0 <= k < n ==> a[k] == b[k],
    ensures
        mats_n(size, a, n) == mats_n(size, b, n),
    decreases n,
{
    if n > 0 {
        lemma_mats_same(size, a, b, (n - 1) as nat);
    }
}

/// One column: rows so far, and the matrices they make.
#[verifier::rlimit(40)]
proof fn lemma_column_reads(
    w: WriterV,
    m: Sem,
    c: DistLineCodeV,
    items: Seq<JsonV>,
    rows: Seq<Row>,
    j: nat,
    end: nat,
) -> (out: Seq<Row>)
    requires
        code_told(m, c),
        j < c.n_conductors,
        j <= end <= c.n_conductors,
        all_rows(m, items, rows),
        mats_n(c.n_conductors as nat, rows, rows.len()) == mats_in(m, c, j as int, j as int),
    ensures
        all_rows(m, column_json(w, m, c, items, j, end).1, out),
        mats_n(c.n_conductors as nat, out, out.len()) == mats_in(m, c, j as int, end as int),
    decreases end,
{
    if end == j {
        rows
    } else {
        let i = (end - 1) as nat;
        let before = column_json(w, m, c, items, j, i);
        let had = lemma_column_reads(w, m, c, items, rows, j, i);
        let row = row_at(m, c, i as int, j as int);
        lemma_row_reads(before.0, m, c, i, j);
        let out = had.push(row);
        let n = c.n_conductors as nat;
        lemma_mats_same(n, out, had, had.len());
        lemma_mats_cell(m, c, j as int, i as int);
        let made = column_json(w, m, c, items, j, end).1;
        assert(made == before.1.push(row_json(before.0, m, c, i, j).1));
        assert forall|k: int| 0 <= k < made.len() implies row_of(m, #[trigger] made[k]) == Some(
            out[k],
        ) by {
            if k < before.1.len() {
                assert(made[k] == before.1[k]);
            }
        }
        out
    }
}

proof fn lemma_columns_read(w: WriterV, m: Sem, c: DistLineCodeV, col: nat) -> (out: Seq<Row>)
    requires
        code_told(m, c),
        col <= c.n_conductors,
    ensures
        all_rows(m, columns_json(w, m, c, col).1, out),
        mats_n(c.n_conductors as nat, out, out.len()) == mats_in(m, c, col as int, col as int),
    decreases col,
{
    let n = c.n_conductors as nat;
    if col == 0 {
        lemma_columns_start(n, cell_r(c));
        lemma_columns_start(n, cell_x(c));
        lemma_columns_start(n, cell_b(m, c));
        lemma_columns_start(n, cell_g(m, c));
        Seq::empty()
    } else {
        let j = (col - 1) as nat;
        let had = lemma_columns_read(w, m, c, j);
        let before = columns_json(w, m, c, j);
        let out = lemma_column_reads(before.0, m, c, before.1, had, j, n);
        lemma_mats_next(m, c, j as int);
        out
    }
}

// ---- objects ---------------------------------------------------------------

/// What a line code object says.
pub open spec fn says_code(m: Sem, o: Entries, c: DistLineCodeV) -> bool {
    let items = list_at(o, "PerLengthPhaseImpedance.PhaseImpedanceData"@);
    let rows = rows_n(m, items, items.len());
    let n = c.n_conductors as nat;
    &&& str_at(o, "Ravens.cimObjectType"@) == Some("PerLengthPhaseImpedance"@)
    &&& says_id(o, "PerLengthPhaseImpedance"@, c.name, c.extras)
    &&& num_at(m, o, "PerLengthPhaseImpedance.conductorCount"@) is Some
    &&& to_usize_of(m.trunc(num_at(m, o, "PerLengthPhaseImpedance.conductorCount"@)->0)) == n
    &&& mats_n(n, rows, rows.len()) == (Mats {
        r: mirrored(n, cell_r(c)),
        x: mirrored(n, cell_x(c)),
        b: mirrored(n, cell_b(m, c)),
        g: mirrored(n, cell_g(m, c)),
    })
}

#[verifier::rlimit(40)]
pub proof fn lemma_code_says(w: WriterV, m: Sem, c: DistLineCodeV)
    requires
        code_told(m, c),
    ensures
        linecode_json(w, m, c).1 matches JsonV::Obj(o) && says_code(m, o, c),
{
    broadcast use lemma_get_put;

    lemma_identity_keys();
    reveal_strlit("PerLengthPhaseImpedance.conductorCount");
    reveal_strlit("PerLengthPhaseImpedance.PhaseImpedanceData");
    assert("PerLengthPhaseImpedance.conductorCount"@.len() == 38);
    assert("PerLengthPhaseImpedance.PhaseImpedanceData"@.len() == 42);
    lemma_identified_again("PerLengthPhaseImpedance"@, c.name, extras_mrid_of(c.extras));
    reveal(str_at);
    reveal(num_at);
    reveal(list_at);
    let n = c.n_conductors as nat;
    let v = if c.n_conductors > 4 {
        w.warn(
            "linecode "@ + c.name + ": "@ + dec_of(c.n_conductors as nat)
                + " conductors exceed the four CIM SinglePhaseKind identities (A/B/C/N); the impedance matrix is written in full, but conductors beyond the fourth have no phase representation on the lines that use it, so a reparse cannot recover their terminal assignment"@,
        )
    } else {
        w
    };
    lemma_identified(
        "PerLengthPhaseImpedance"@,
        c.name,
        extras_mrid_of(c.extras),
        "PerLengthPhaseImpedance.conductorCount"@,
    );
    let items = columns_json(v, m, c, n).1;
    let rows = lemma_columns_read(v, m, c, n);
    lemma_all_rows(m, items, rows, items.len());
    assert(rows.take(items.len() as int) =~= rows);
    lemma_columns_end(n, cell_r(c));
    lemma_columns_end(n, cell_x(c));
    lemma_columns_end(n, cell_b(m, c));
    lemma_columns_end(n, cell_g(m, c));
    assert(num_of(m, uint_json(n)) is Some && to_usize_of(m.trunc(num_of(m, uint_json(n))->0))
        == n);
    let o = linecode_json(w, m, c).1->Obj_0;
    assert(get_of(o, "PerLengthPhaseImpedance.PhaseImpedanceData"@) == Some(JsonV::Arr(items)));
}

proof fn lemma_code_table(w: WriterV, m: Sem, codes: Seq<DistLineCodeV>, n: nat, i: int)
    requires
        0 <= i < n <= codes.len(),
        code_told(m, codes[i]),
        forall|j: int| i < j < codes.len() ==> (#[trigger] codes[j]).name != codes[i].name,
    ensures
        get_of(linecodes_json(w, m, codes, n).1, codes[i].name) matches Some(JsonV::Obj(o))
            && says_code(m, o, codes[i]),
    decreases n,
{
    broadcast use lemma_get_put;

    let before = linecodes_json(w, m, codes, (n - 1) as nat);
    if i == n - 1 {
        lemma_code_says(before.0, m, codes[i]);
    } else {
        lemma_code_table(w, m, codes, (n - 1) as nat, i);
        assert(codes[n - 1].name != codes[i].name);
    }
}

pub proof fn lemma_code_tables(m: Sem, net: DistNetworkV, i: int)
    requires
        0 <= i < net.linecodes.len(),
        code_told(m, net.linecodes[i]),
        forall|j: int|
            i < j < net.linecodes.len() ==> (#[trigger] net.linecodes[j]).name
                != net.linecodes[i].name,
    ensures
        get_of(written_tables(m, net).linecodes, net.linecodes[i].name) matches Some(
            JsonV::Obj(o),
        ) && says_code(m, o, net.linecodes[i]),
{
    reveal(tables_of);
    let w = unrepresented(fresh_writer(bases_of(m, net)), m, net);
    lemma_code_table(w, m, net.linecodes, net.linecodes.len(), i);
}

pub open spec fn code_path() -> Seq<Seq<char>> {
    seq!["PerLengthLineParameter"@, "PerLengthImpedance"@, "PerLengthPhaseImpedance"@]
}

#[verifier::rlimit(40)]
proof fn lemma_code_place(m: Sem, net: DistNetworkV)
    requires
        written_tables(m, net).linecodes.len() > 0,
    ensures
        ({
            let root = typed_root(m, net);
            let codes = written_tables(m, net).linecodes;
            let inner = put_of(Entries::empty(), "PerLengthPhaseImpedance"@, JsonV::Obj(codes));
            let level = put_of(Entries::empty(), "PerLengthImpedance"@, JsonV::Obj(inner));
            get_of(root, "PerLengthLineParameter"@) == Some(JsonV::Obj(level))
        }),
{
    broadcast use lemma_get_put;

    let codes = written_tables(m, net).linecodes;
    let inner = put_of(Entries::empty(), "PerLengthPhaseImpedance"@, JsonV::Obj(codes));
    lemma_put_some(Entries::empty(), "PerLengthPhaseImpedance"@, JsonV::Obj(codes));
    lemma_put_some(Entries::empty(), "PerLengthImpedance"@, JsonV::Obj(inner));
    lemma_root_keys();
    reveal(typed_of);
}

#[verifier::rlimit(40)]
pub proof fn lemma_code_found(m: Sem, net: DistNetworkV, name: Seq<char>, v: JsonV)
    requires
        clear(net.untyped, code_path(), name),
        get_of(written_tables(m, net).linecodes, name) == Some(v),
    ensures
        found_at(ravens_document(m, net).1, code_path(), 0, name) == Some(v),
{
    broadcast use lemma_get_put;

    lemma_some_entries(written_tables(m, net).linecodes, name);
    lemma_code_place(m, net);
    lemma_typed_place_stays(m, net, code_path(), name);
    reveal_with_fuel(found_at, 5);
}

// ---- reading ---------------------------------------------------------------

/// A line code that comes back of a line code: its matrices mirrored from their
/// lower triangles, and the shunt of both ends shared evenly.
pub open spec fn comes_of_code(m: Sem, back: DistLineCodeV, c: DistLineCodeV) -> bool {
    let n = c.n_conductors as nat;
    &&& back.name == c.name
    &&& back.n_conductors == c.n_conductors
    &&& back.r_series == mirrored(n, cell_r(c))
    &&& back.x_series == mirrored(n, cell_x(c))
    &&& back.b_from == halved(m, mirrored(n, cell_b(m, c)))
    &&& back.b_to == back.b_from
    &&& back.g_from == halved(m, mirrored(n, cell_g(m, c)))
    &&& back.g_to == back.g_from
    &&& comes_of_id(back.extras, "PerLengthPhaseImpedance"@, c.name, c.extras)
}

pub proof fn lemma_code_step(m: Sem, st: StateV, o: ObjV, c: DistLineCodeV)
    requires
        o.name == c.name,
        c.n_conductors > 0,
        says_code(m, o.props, c),
    ensures
        ({
            let codes = linecode_step(m, st, o).net.linecodes;
            codes.len() > 0 && comes_of_code(m, codes[codes.len() - 1], c)
        }),
{
    lemma_extras_hold_id(
        o.props,
        written_id("PerLengthPhaseImpedance"@, c.name, extras_mrid_of(c.extras)),
    );
}

pub proof fn lemma_code_pushed(
    m: Sem,
    doc: Seq<ObjV>,
    st: StateV,
    ids: Seq<usize>,
    j: int,
    c: DistLineCodeV,
) -> (k: int)
    requires
        0 <= j < ids.len(),
        c.n_conductors > 0,
        doc[ids[j] as int].name == c.name,
        says_code(m, doc[ids[j] as int].props, c),
    ensures
        0 <= k < linecodes_n(m, doc, st, ids, ids.len()).net.linecodes.len(),
        comes_of_code(m, linecodes_n(m, doc, st, ids, ids.len()).net.linecodes[k], c),
{
    let before = linecodes_n(m, doc, st, ids, j as nat);
    let after = linecodes_n(m, doc, st, ids, (j + 1) as nat).net.linecodes;
    lemma_code_step(m, before, doc[ids[j] as int], c);
    lemma_linecodes_n_grows(m, doc, st, ids, (j + 1) as nat, ids.len());
    let k = after.len() - 1;
    let end = linecodes_n(m, doc, st, ids, ids.len()).net.linecodes;
    assert(same_code(after[k], end[k]));
    k
}

/// No line code is lost: a network that is read of a written document has, for
/// every line code of the network that was written whose name is its own, a line
/// code of that name and identifier with the same impedances, and with the same
/// shunt in all, half of it at either end.
#[verifier::rlimit(40)]
pub proof fn lemma_linecodes_survive(m: Sem, net: DistNetworkV, i: int)
    requires
        0 <= i < net.linecodes.len(),
        clear(net.untyped, code_path(), net.linecodes[i].name),
        code_told(m, net.linecodes[i]),
        forall|j: int|
            i < j < net.linecodes.len() ==> (#[trigger] net.linecodes[j]).name
                != net.linecodes[i].name,
        collect_of(ravens_document(m, net).1).len() <= usize::MAX,
    ensures
        ravens_value(m, JsonV::Obj(ravens_document(m, net).1)) matches Ok(back) ==> exists|k: int|
            0 <= k < back.linecodes.len() && comes_of_code(
                m,
                #[trigger] back.linecodes[k],
                net.linecodes[i],
            ),
{
    let root = ravens_document(m, net).1;
    let doc = collect_of(root);
    let c = net.linecodes[i];
    lemma_code_tables(m, net, i);
    let o = get_of(written_tables(m, net).linecodes, c.name)->0->Obj_0;
    lemma_code_found(m, net, c.name, JsonV::Obj(o));
    let kind = "PerLengthPhaseImpedance"@;
    let at = lemma_typed_object_is_collected(root, code_path(), c.name, o, kind);
    let j = lemma_kind_holds(doc, Seq::empty(), kind, doc.len(), at);
    let ids = sorted_kind(doc, kind);
    let g = stages(m, doc);
    let st = empty_state().warn(
        "MG-RAVENS carries no system frequency; base_frequency assumes the OpenDSS default (60 Hz)"@,
    );
    let k = lemma_code_pushed(m, doc, st, ids, j, c);
    lemma_nothing_is_taken_back(m, doc);
    let end = run_of(m, doc).net.linecodes;
    assert(same_code(g.coded.net.linecodes[k], end[k]));
    if let Ok(back) = ravens_value(m, JsonV::Obj(root)) {
        assert(comes_of_code(m, back.linecodes[k], c));
    }
}

} // verus!
