//! What holds of every document that the scanner hands on.

use vstd::prelude::*;

use crate::dgs::called::well_named;
use crate::dgs::coded::well_coded;
use crate::dgs::laws::{buses_apart, countable, grounds_present, lemma_network_is_sound, well_sited};
use crate::dgs::read::dgs_text;
use crate::dgs::scan::{
    cells_from, cells_of, columns_n, filter_n, filter_step, keep_n, keep_step, line_step, line_text,
    lines_n, names_of, row_cells, scan_of, shares_ids, table_from, DgsRowV, DgsTableV, KeepV,
    NotesV, ScanV,
};
use crate::math::Sem;
use crate::text::{has_prefix, split_from, split_of, strip_prefix_of, trim_of};

verus! {

// ---- quoting ---------------------------------------------------------------

/// A cell with each quotation mark doubled.
pub open spec fn doubled(s: Seq<char>) -> Seq<char>
    decreases s.len(),
{
    if s.len() == 0 {
        seq![]
    } else if s[0] == '"' {
        seq!['"', '"'] + doubled(s.skip(1))
    } else {
        seq![s[0]] + doubled(s.skip(1))
    }
}

/// A cell in quotation marks.
pub open spec fn quoted(s: Seq<char>) -> Seq<char> {
    seq!['"'] + doubled(s) + seq!['"']
}

/// A line of quoted cells, from the `i`-th on.
pub open spec fn quoted_line(cells: Seq<Seq<char>>, i: int) -> Seq<char>
    decreases cells.len() - i,
{
    if i < 0 || i >= cells.len() {
        seq![]
    } else if i == cells.len() - 1 {
        quoted(cells[i])
    } else {
        quoted(cells[i]) + seq![';'] + quoted_line(cells, i + 1)
    }
}

/// Splitting looks only at what lies ahead.
proof fn lemma_cells_ahead(a: Seq<char>, i: int, b: Seq<char>, j: int, quoted: bool, cur: Seq<char>)
    requires
        0 <= i <= a.len(),
        0 <= j <= b.len(),
        a.skip(i) == b.skip(j),
    ensures
        cells_from(a, i, quoted, cur) == cells_from(b, j, quoted, cur),
    decreases a.len() - i,
{
    assert(a.skip(i).len() == a.len() - i);
    assert(b.skip(j).len() == b.len() - j);
    if i < a.len() {
        assert(a[i] == a.skip(i)[0] && b[j] == b.skip(j)[0]);
        assert(a.skip(i + 1) =~= a.skip(i).skip(1));
        assert(b.skip(j + 1) =~= b.skip(j).skip(1));
        if i + 1 < a.len() {
            assert(a[i + 1] == a.skip(i)[1] && b[j + 1] == b.skip(j)[1]);
            assert(a.skip(i + 2) =~= a.skip(i).skip(2));
            assert(b.skip(j + 2) =~= b.skip(j).skip(2));
            lemma_cells_ahead(a, i + 2, b, j + 2, quoted, cur.push('"'));
        }
        lemma_cells_ahead(a, i + 1, b, j + 1, !quoted, cur);
        lemma_cells_ahead(a, i + 1, b, j + 1, quoted, seq![]);
        lemma_cells_ahead(a, i + 1, b, j + 1, quoted, cur.push(a[i]));
    }
}

/// A doubled text read inside a quotation adds the text to the cell.
proof fn lemma_doubled(s: Seq<char>, rest: Seq<char>, cur: Seq<char>)
    requires
        rest.len() > 0,
        rest[0] == '"',
        rest.len() > 1 ==> rest[1] != '"',
    ensures
        cells_from(doubled(s) + rest, 0, true, cur) == cells_from(rest, 0, true, cur + s),
    decreases s.len(),
{
    let line = doubled(s) + rest;
    if s.len() == 0 {
        assert(line =~= rest);
        assert(cur + s =~= cur);
    } else {
        let tail = doubled(s.skip(1)) + rest;
        lemma_doubled(s.skip(1), rest, cur.push(s[0]));
        assert(cur.push(s[0]) + s.skip(1) =~= cur + s);
        if s[0] == '"' {
            assert(line =~= seq!['"', '"'] + tail);
            assert(line.skip(2) =~= tail.skip(0));
            lemma_cells_ahead(line, 2, tail, 0, true, cur.push('"'));
        } else {
            assert(line =~= seq![s[0]] + tail);
            assert(line.skip(1) =~= tail.skip(0));
            lemma_cells_ahead(line, 1, tail, 0, true, cur.push(s[0]));
        }
    }
}

proof fn lemma_quoted_line(cells: Seq<Seq<char>>, i: int)
    requires
        0 <= i < cells.len(),
    ensures
        cells_from(quoted_line(cells, i), 0, false, seq![]) == cells.skip(i),
    decreases cells.len() - i,
{
    let line = quoted_line(cells, i);
    let s = cells[i];
    let rest = if i == cells.len() - 1 {
        seq!['"']
    } else {
        seq!['"', ';'] + quoted_line(cells, i + 1)
    };
    let inner = doubled(s) + rest;
    assert(line =~= seq!['"'] + inner);
    assert(line.skip(1) =~= inner.skip(0));
    lemma_cells_ahead(line, 1, inner, 0, true, seq![]);
    lemma_doubled(s, rest, seq![]);
    assert(Seq::<char>::empty() + s =~= s);
    if i == cells.len() - 1 {
        assert(cells_from(rest, 0, true, s) == cells_from(rest, 1, false, s));
        assert(cells.skip(i) =~= seq![s]);
    } else {
        let next = quoted_line(cells, i + 1);
        assert(cells_from(rest, 0, true, s) == cells_from(rest, 1, false, s));
        assert(cells_from(rest, 1, false, s) == seq![s] + cells_from(rest, 2, false, seq![]));
        assert(rest.skip(2) =~= next.skip(0));
        lemma_cells_ahead(rest, 2, next, 0, false, seq![]);
        lemma_quoted_line(cells, i + 1);
        assert(cells.skip(i) =~= seq![s] + cells.skip(i + 1));
    }
}

/// Quoting keeps a cell whole: a line of quoted cells splits into those cells,
/// whatever semicolons and quotation marks they hold.
pub proof fn lemma_quoting_keeps_cells(cells: Seq<Seq<char>>)
    requires
        cells.len() > 0,
    ensures
        cells_of(quoted_line(cells, 0)) == cells,
{
    lemma_quoted_line(cells, 0);
    assert(cells.skip(0) =~= cells);
}

// ---- tables ----------------------------------------------------------------

/// Each row has a cell for each column.
pub open spec fn rectangular(t: DgsTableV) -> bool {
    forall|i: int| 0 <= i < t.rows.len() ==> (#[trigger] t.rows[i]).cells.len() == t.columns.len()
}

/// No class has two tables.
pub open spec fn classes_apart(tables: Seq<DgsTableV>) -> bool {
    forall|i: int, j: int|
        0 <= i < j < tables.len() ==> (#[trigger] tables[i]).class != (#[trigger] tables[j]).class
}

/// Of the tables after `n` lines.
pub open spec fn scanned(tables: Seq<DgsTableV>, n: nat) -> bool {
    &&& classes_apart(tables)
    &&& forall|i: int|
        0 <= i < tables.len() ==> rectangular(#[trigger] tables[i]) && tables[i].rows.len() <= n
}

proof fn lemma_columns_keep(st: ScanV, cells: Seq<Seq<char>>, n: nat)
    ensures
        columns_n(st, cells, n).tables == st.tables,
    decreases n,
{
    if n > 1 {
        lemma_columns_keep(st, cells, (n - 1) as nat);
    }
}

proof fn lemma_table_absent(tables: Seq<DgsTableV>, class: Seq<char>, i: int)
    requires
        0 <= i <= tables.len(),
        table_from(tables, class, i) is None,
    ensures
        forall|k: int| i <= k < tables.len() ==> (#[trigger] tables[k]).class != class,
    decreases tables.len() - i,
{
    if i < tables.len() {
        lemma_table_absent(tables, class, i + 1);
    }
}

proof fn lemma_line_step(st: ScanV, raw: Seq<char>, line: usize, n: nat)
    requires
        scanned(st.tables, n),
    ensures
        line_step(st, raw, line) matches Ok(a) ==> scanned(a.tables, n + 1),
{
    let text = line_text(raw);
    assert(scanned(st.tables, n + 1));
    match strip_prefix_of(text, "$$"@) {
        Some(body) => {
            let cells = cells_of(body);
            let class = trim_of(cells[0]);
            lemma_columns_keep(st, cells, cells.len());
            if table_from(st.tables, class, 0) is None {
                lemma_table_absent(st.tables, class, 0);
                let new = DgsTableV { class, columns: names_of(cells), rows: seq![] };
                let after = st.tables.push(new);
                assert forall|i: int, j: int| 0 <= i < j < after.len() implies (
                #[trigger] after[i]).class != (#[trigger] after[j]).class by {
                    assert(after[i] == st.tables[i]);
                    if j < st.tables.len() {
                        assert(after[j] == st.tables[j]);
                    }
                }
                assert forall|i: int| 0 <= i < after.len() implies rectangular(#[trigger] after[i])
                    && after[i].rows.len() <= n + 1 by {
                    if i < st.tables.len() {
                        assert(after[i] == st.tables[i]);
                    }
                }
            }
        },
        None => {
            if st.tables.len() > 0 {
                let table = st.tables.last();
                let cells = row_cells(text);
                let new = DgsTableV {
                    rows: table.rows.push(DgsRowV { line_no: line, cells }),
                    ..table
                };
                let after = st.tables.drop_last().push(new);
                assert(rectangular(table) && table.rows.len() <= n) by {
                    assert(table == st.tables[st.tables.len() - 1]);
                }
                assert forall|i: int, j: int| 0 <= i < j < after.len() implies (
                #[trigger] after[i]).class != (#[trigger] after[j]).class by {
                    assert(after[i] == st.tables[i]);
                    assert(after[j].class == st.tables[j].class);
                }
                if cells.len() == table.columns.len() {
                    assert(rectangular(new)) by {
                        assert forall|k: int| 0 <= k < new.rows.len() implies (
                        #[trigger] new.rows[k]).cells.len() == new.columns.len() by {
                            if k < table.rows.len() {
                                assert(new.rows[k] == table.rows[k]);
                            }
                        }
                    }
                    assert forall|i: int| 0 <= i < after.len() implies rectangular(
                        #[trigger] after[i],
                    ) && after[i].rows.len() <= n + 1 by {
                        if i < st.tables.len() - 1 {
                            assert(after[i] == st.tables[i]);
                        } else {
                            assert(after[i] == new);
                        }
                    }
                }
            }
        },
    }
}

proof fn lemma_lines(lines: Seq<Seq<char>>, n: nat)
    ensures
        lines_n(lines, n) matches Ok(st) ==> scanned(st.tables, n),
    decreases n,
{
    if n > 0 {
        lemma_lines(lines, (n - 1) as nat);
        match lines_n(lines, (n - 1) as nat) {
            Ok(b) => {
                lemma_line_step(b, lines[n - 1], n as usize, (n - 1) as nat);
            },
            Err(_) => {},
        }
    }
}

// ---- kept rows -------------------------------------------------------------

/// Rows kept as object definitions: none is keyed outside the file, and, but in
/// tables whose rows share one, no identity occurs twice.
pub open spec fn keyed(t: DgsTableV) -> bool {
    &&& forall|i: int|
        0 <= i < t.rows.len() ==> !has_prefix(t.id_of(#[trigger] t.rows[i]), "##"@)
    &&& !shares_ids(t.class) ==> forall|i: int, j: int|
        0 <= i < j < t.rows.len() && t.id_of(t.rows[i]).len() > 0 ==> t.id_of(#[trigger] t.rows[i])
            != t.id_of(#[trigger] t.rows[j])
}

/// What filtering leaves of a table.
pub open spec fn filtered(t: DgsTableV) -> bool {
    &&& rectangular(t)
    &&& t.class == "Deletion"@ ==> t.rows.len() == 0
    &&& t.class != "General"@ && t.class != "Deletion"@ ==> keyed(t)
}

/// Of the rows kept so far: they are rows of the table, and their identities are
/// on record.
spec fn kept_well(t: DgsTableV, st: KeepV, n: nat) -> bool {
    &&& st.rows.len() <= n
    &&& forall|i: int|
        0 <= i < st.rows.len() ==> (#[trigger] st.rows[i]).cells.len() == t.columns.len()
            && !has_prefix(t.id_of(st.rows[i]), "##"@) && (!shares_ids(t.class) && t.id_of(
            st.rows[i],
        ).len() > 0 ==> st.ids.contains(t.id_of(st.rows[i])))
    &&& !shares_ids(t.class) ==> forall|i: int, j: int|
        0 <= i < j < st.rows.len() && t.id_of(st.rows[i]).len() > 0 ==> t.id_of(
            #[trigger] st.rows[i],
        ) != t.id_of(#[trigger] st.rows[j])
}

proof fn lemma_keep(t: DgsTableV, notes: NotesV, n: nat)
    requires
        rectangular(t),
        n <= t.rows.len(),
    ensures
        keep_n(t, notes, n) matches Ok(st) ==> kept_well(t, st, n),
    decreases n,
{
    if n > 0 {
        lemma_keep(t, notes, (n - 1) as nat);
        match keep_n(t, notes, (n - 1) as nat) {
            Ok(b) => {
                let r = t.rows[n - 1];
                let id = t.id_of(r);
                match keep_step(t, b, r) {
                    Ok(a) => {
                        if a.rows != b.rows {
                            assert(a.rows == b.rows.push(r));
                            assert forall|x: Seq<char>| b.ids.contains(x) implies a.ids.contains(
                                x,
                            ) by {
                                let k = choose|k: int| 0 <= k < b.ids.len() && b.ids[k] == x;
                                assert(a.ids[k] == x);
                            }
                            if !shares_ids(t.class) && id.len() > 0 {
                                assert(a.ids == b.ids.push(id));
                                assert(a.ids[a.ids.len() - 1] == id);
                            }
                            assert forall|i: int| 0 <= i < a.rows.len() implies (
                            #[trigger] a.rows[i]).cells.len() == t.columns.len() && !has_prefix(
                                t.id_of(a.rows[i]),
                                "##"@,
                            ) && (!shares_ids(t.class) && t.id_of(a.rows[i]).len() > 0
                                ==> a.ids.contains(t.id_of(a.rows[i]))) by {
                                if i < b.rows.len() {
                                    assert(a.rows[i] == b.rows[i]);
                                } else {
                                    assert(a.rows[i] == r);
                                }
                            }
                            if !shares_ids(t.class) {
                                assert forall|i: int, j: int|
                                    0 <= i < j < a.rows.len() && t.id_of(a.rows[i]).len()
                                        > 0 implies t.id_of(#[trigger] a.rows[i]) != t.id_of(
                                    #[trigger] a.rows[j],
                                ) by {
                                    assert(a.rows[i] == b.rows[i]);
                                    if j < b.rows.len() {
                                        assert(a.rows[j] == b.rows[j]);
                                    } else {
                                        assert(a.rows[j] == r);
                                        assert(b.ids.contains(t.id_of(b.rows[i])));
                                    }
                                }
                            }
                        } else {
                            assert(a.ids == b.ids);
                        }
                    },
                    Err(_) => {},
                }
            },
            Err(_) => {},
        }
    }
}

proof fn lemma_filter(tables: Seq<DgsTableV>, lines: nat, n: nat)
    requires
        scanned(tables, lines),
        n <= tables.len(),
    ensures
        filter_n(tables, n) matches Ok((kept, notes)) ==> {
            &&& kept.len() == n
            &&& forall|i: int|
                0 <= i < n ==> (#[trigger] kept[i]).class == tables[i].class && kept[i].columns
                    == tables[i].columns && filtered(kept[i]) && kept[i].rows.len() <= lines
        },
    decreases n,
{
    if n > 0 {
        lemma_filter(tables, lines, (n - 1) as nat);
        match filter_n(tables, (n - 1) as nat) {
            Ok((before, notes)) => {
                let t = tables[n - 1];
                assert(rectangular(t) && t.rows.len() <= lines);
                lemma_keep(t, notes, t.rows.len());
                match filter_step(t, notes) {
                    Ok((new, more)) => {
                        if t.class == "General"@ {
                            reveal_strlit("General");
                            reveal_strlit("Deletion");
                            assert("General"@.len() != "Deletion"@.len());
                        } else if t.class == "Deletion"@ {
                        } else {
                            let st = keep_n(t, notes, t.rows.len())->Ok_0;
                            assert(new == (DgsTableV { rows: st.rows, ..t }));
                            assert forall|r: DgsRowV| #[trigger] new.id_of(r) == t.id_of(r) by {}
                            assert(keyed(new));
                            assert(rectangular(new));
                        }
                        assert(filtered(new));
                        let kept = before.push(new);
                        assert forall|i: int| 0 <= i < n implies (#[trigger] kept[i]).class
                            == tables[i].class && kept[i].columns == tables[i].columns && filtered(
                            kept[i],
                        ) && kept[i].rows.len() <= lines by {
                            if i < n - 1 {
                                assert(kept[i] == before[i]);
                            } else {
                                assert(kept[i] == new);
                            }
                        }
                    },
                    Err(_) => {},
                }
            },
            Err(_) => {},
        }
    }
}

/// Of every document that the scanner hands on: no class has two tables, each
/// row has a cell for each column, no table but `General` holds a row keyed
/// outside the file, no identity occurs twice in a table whose rows do not share
/// one, and the `Deletion` table is empty.
pub proof fn lemma_scan_is_sound(source: Seq<char>)
    ensures
        scan_of(source) matches Ok((doc, warnings)) ==> {
            &&& classes_apart(doc.tables)
            &&& forall|i: int|
                0 <= i < doc.tables.len() ==> filtered(#[trigger] doc.tables[i])
                    && doc.tables[i].rows.len() <= split_of(source, '\n').len()
        },
{
    let lines = split_of(source, '\n');
    lemma_lines(lines, lines.len());
    match lines_n(lines, lines.len()) {
        Ok(st) => {
            lemma_filter(st.tables, lines.len(), st.tables.len());
            match filter_n(st.tables, st.tables.len()) {
                Ok((kept, notes)) => {
                    assert forall|i: int, j: int| 0 <= i < j < kept.len() implies (
                    #[trigger] kept[i]).class != (#[trigger] kept[j]).class by {
                        assert(st.tables[i].class != st.tables[j].class);
                    }
                },
                Err(_) => {},
            }
        },
        Err(_) => {},
    }
}

proof fn lemma_split_len(s: Seq<char>, sep: char, start: int, i: int)
    requires
        0 <= start <= i <= s.len(),
    ensures
        split_from(s, sep, start, i).len() <= s.len() - i + 1,
    decreases s.len() - i,
{
    if i < s.len() {
        lemma_split_len(s, sep, i + 1, i + 1);
        lemma_split_len(s, sep, start, i + 1);
    }
}

/// Of every network read from DGS text: each element stands on a bus of the
/// network, on terminals that the bus has; no two buses go by one name; what is
/// grounded at a bus is a terminal of it; there is at most one voltage source; no
/// two elements go by one name, and every name is of plain characters; no two line
/// codes go by one name, and the line code of each line is one of them; the
/// network keeps its text and names no format to be written back in. The text is
/// one that memory can hold.
pub proof fn lemma_text_gives_a_sound_network(m: Sem, text: Seq<char>, hint: Option<Seq<char>>)
    requires
        text.len() < usize::MAX,
    ensures
        dgs_text(m, text, hint) matches Ok(net) ==> {
            &&& well_sited(net)
            &&& buses_apart(net)
            &&& grounds_present(net)
            &&& net.sources.len() <= 1
            &&& well_named(net)
            &&& well_coded(net)
            &&& net.source_format is None
            &&& net.source == Some(text)
        },
{
    lemma_scan_is_sound(text);
    lemma_split_len(text, '\n', 0, 0);
    match scan_of(text) {
        Ok((doc, warnings)) => {
            assert(countable(doc));
            lemma_network_is_sound(m, doc, hint);
        },
        Err(_) => {},
    }
}

} // verus!
