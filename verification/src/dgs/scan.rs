//! The class tables of a DGS export, and the typed cells of their rows.
//!
//! A table opens with `$$Class;attr(type);...` and goes on with rows of cells
//! between semicolons; a line that starts with `*` is a comment. Rows are keyed
//! by `ID` or `FID`, and an `OP` column may mark a row as an update, a deletion
//! or one to ignore. A pointer that starts with `##` leads into a project that
//! is not in the file.

use vstd::prelude::*;

use crate::error::{outcome, Error, ErrorV, Outcome, Result};
use crate::math::{round, Bits, Calc, Sem};
use crate::numeral::{dec_of, dec_usize, parse_uint, parse_unsigned};
use crate::order::{contains, copy_list};
use crate::text::{
    before_either, before_either_of, cat2, cat3, cat4, cat5, cat6, debug, debug_of, empty,
    from_chars, group_views, has_prefix, opt_view, same, split, split_of, starts_with, strip_prefix,
    strip_prefix_of, to_chars, trim, trim_of, trim_start, trim_start_of, views,
};

verus! {

/// A DGS export that the reader refuses.
pub open spec fn refusal(message: Seq<char>) -> ErrorV {
    ErrorV::FormatRead { format: "DIgSILENT DGS"@, message }
}

pub fn refuse(message: String) -> (r: Error)
    ensures
        r@ == refusal(message@),
{
    Error::FormatRead { format: "DIgSILENT DGS", message }
}

// ---- tables ----------------------------------------------------------------

/// One data row: its line in the source and one cell per column, empty where
/// the export gives nothing.
pub struct DgsRow {
    pub line_no: usize,
    pub cells: Vec<String>,
}

pub struct DgsRowV {
    pub line_no: usize,
    pub cells: Seq<Seq<char>>,
}

impl View for DgsRow {
    type V = DgsRowV;

    open spec fn view(&self) -> DgsRowV {
        DgsRowV { line_no: self.line_no, cells: views(self.cells@) }
    }
}

/// One class table; columns go by their bare names.
pub struct DgsTable {
    pub class: String,
    pub columns: Vec<String>,
    pub rows: Vec<DgsRow>,
}

pub struct DgsTableV {
    pub class: Seq<char>,
    pub columns: Seq<Seq<char>>,
    pub rows: Seq<DgsRowV>,
}

impl View for DgsTable {
    type V = DgsTableV;

    open spec fn view(&self) -> DgsTableV {
        DgsTableV {
            class: self.class@,
            columns: views(self.columns@),
            rows: views(self.rows@),
        }
    }
}

/// The tables of a document, and the character that stands before a decimal
/// fraction in it.
pub struct DgsDoc {
    pub tables: Vec<DgsTable>,
    pub decimal: char,
}

pub struct DgsDocV {
    pub tables: Seq<DgsTableV>,
    pub decimal: char,
}

impl View for DgsDoc {
    type V = DgsDocV;

    open spec fn view(&self) -> DgsDocV {
        DgsDocV { tables: views(self.tables@), decimal: self.decimal }
    }
}

/// The first index, from the `i`-th on, of a column that goes by either name.
pub open spec fn column_from(
    columns: Seq<Seq<char>>,
    a: Seq<char>,
    b: Seq<char>,
    i: int,
) -> Option<int>
    decreases columns.len() - i,
{
    if i < 0 || i >= columns.len() {
        None
    } else if columns[i] == a || columns[i] == b {
        Some(i)
    } else {
        column_from(columns, a, b, i + 1)
    }
}

/// The text in column `i`, where the export gives one.
pub open spec fn cell_at(r: DgsRowV, i: int) -> Option<Seq<char>> {
    if 0 <= i < r.cells.len() && r.cells[i].len() > 0 {
        Some(r.cells[i])
    } else {
        None
    }
}

impl DgsTableV {
    pub open spec fn col(self, name: Seq<char>) -> Option<int> {
        column_from(self.columns, name, name, 0)
    }

    /// The identity column: the first `FID` or `ID`, else the first column.
    pub open spec fn id_col(self) -> int {
        match column_from(self.columns, "FID"@, "ID"@, 0) {
            Some(i) => i,
            None => 0,
        }
    }

    /// What a row is known by; empty where it gives nothing.
    pub open spec fn id_of(self, r: DgsRowV) -> Seq<char> {
        match cell_at(r, self.id_col()) {
            Some(s) => trim_of(s),
            None => seq![],
        }
    }

    /// What a row says under a column name.
    pub open spec fn cell(self, r: DgsRowV, name: Seq<char>) -> Option<Seq<char>> {
        match self.col(name) {
            Some(i) => cell_at(r, i),
            None => None,
        }
    }

    /// A text attribute that does not lead out of the file.
    pub open spec fn text(self, r: DgsRowV, name: Seq<char>) -> Option<Seq<char>> {
        match self.cell(r, name) {
            Some(s) => if has_prefix(s, "##"@) {
                None
            } else {
                Some(s)
            },
            None => None,
        }
    }

    /// A pointer attribute, which may lead out of the file.
    pub open spec fn ptr(self, r: DgsRowV, name: Seq<char>) -> Option<Seq<char>> {
        match self.cell(r, name) {
            Some(s) => if trim_of(s).len() > 0 {
                Some(trim_of(s))
            } else {
                None
            },
            None => None,
        }
    }
}

fn column(columns: &Vec<String>, a: &str, b: &str) -> (r: Option<usize>)
    ensures
        match r {
            Some(i) => column_from(views(columns@), a@, b@, 0) == Some(i as int) && i
                < columns.len(),
            None => column_from(views(columns@), a@, b@, 0) is None,
        },
{
    let mut i: usize = 0;
    while i < columns.len()
        invariant
            i <= columns.len(),
            column_from(views(columns@), a@, b@, 0) == column_from(
                views(columns@),
                a@,
                b@,
                i as int,
            ),
        decreases columns.len() - i,
    {
        assert(views(columns@)[i as int] == columns@[i as int]@);
        if same(columns[i].as_str(), a) || same(columns[i].as_str(), b) {
            return Some(i);
        }
        i = i + 1;
    }
    None
}

/// The view inside an optional reference to a string.
pub open spec fn ref_view(o: Option<&String>) -> Option<Seq<char>> {
    match o {
        Some(s) => Some(s@),
        None => None,
    }
}

fn cell_in<'a>(r: &'a DgsRow, i: usize) -> (c: Option<&'a String>)
    ensures
        ref_view(c) == cell_at(r@, i as int),
{
    assert(r@.cells.len() == r.cells@.len());
    if i < r.cells.len() {
        assert(views(r.cells@)[i as int] == r.cells@[i as int]@);
        if !empty(r.cells[i].as_str()) {
            return Some(&r.cells[i]);
        }
    }
    None
}

impl DgsTable {
    pub fn col(&self, name: &str) -> (r: Option<usize>)
        ensures
            match r {
                Some(i) => self@.col(name@) == Some(i as int),
                None => self@.col(name@) is None,
            },
    {
        column(&self.columns, name, name)
    }

    pub fn id_of(&self, r: &DgsRow) -> (id: String)
        ensures
            id@ == self@.id_of(r@),
    {
        let i = match column(&self.columns, "FID", "ID") {
            Some(i) => i,
            None => 0,
        };
        match cell_in(r, i) {
            Some(s) => trim(s.as_str()),
            None => {
                let e = String::new();
                assert(e@ =~= seq![]);
                e
            },
        }
    }

    pub fn cell<'a>(&self, r: &'a DgsRow, name: &str) -> (c: Option<&'a String>)
        ensures
            ref_view(c) == self@.cell(r@, name@),
    {
        match self.col(name) {
            Some(i) => cell_in(r, i),
            None => None,
        }
    }

    pub fn text<'a>(&self, r: &'a DgsRow, name: &str) -> (c: Option<&'a String>)
        ensures
            ref_view(c) == self@.text(r@, name@),
    {
        match self.cell(r, name) {
            Some(s) => if starts_with(s.as_str(), "##") {
                None
            } else {
                Some(s)
            },
            None => None,
        }
    }

    pub fn ptr(&self, r: &DgsRow, name: &str) -> (c: Option<String>)
        ensures
            opt_view(c) == self@.ptr(r@, name@),
    {
        match self.cell(r, name) {
            Some(s) => {
                let t = trim(s.as_str());
                if empty(t.as_str()) {
                    None
                } else {
                    Some(t)
                }
            },
            None => None,
        }
    }
}

/// The first table of a class, from the `i`-th on.
pub open spec fn table_from(tables: Seq<DgsTableV>, class: Seq<char>, i: int) -> Option<DgsTableV>
    decreases tables.len() - i,
{
    if i < 0 || i >= tables.len() {
        None
    } else if tables[i].class == class {
        Some(tables[i])
    } else {
        table_from(tables, class, i + 1)
    }
}

fn find_table<'a>(tables: &'a Vec<DgsTable>, class: &str) -> (r: Option<&'a DgsTable>)
    ensures
        match r {
            Some(t) => table_from(views(tables@), class@, 0) == Some(t@),
            None => table_from(views(tables@), class@, 0) is None,
        },
{
    let mut i: usize = 0;
    while i < tables.len()
        invariant
            i <= tables.len(),
            table_from(views(tables@), class@, 0) == table_from(
                views(tables@),
                class@,
                i as int,
            ),
        decreases tables.len() - i,
    {
        assert(views(tables@)[i as int] == tables@[i as int]@);
        if same(tables[i].class.as_str(), class) {
            return Some(&tables[i]);
        }
        i = i + 1;
    }
    None
}

impl DgsDocV {
    pub open spec fn table(self, class: Seq<char>) -> Option<DgsTableV> {
        table_from(self.tables, class, 0)
    }
}

impl DgsDoc {
    pub fn table<'a>(&'a self, class: &str) -> (r: Option<&'a DgsTable>)
        ensures
            match r {
                Some(t) => self@.table(class@) == Some(t@),
                None => self@.table(class@) is None,
            },
    {
        find_table(&self.tables, class)
    }
}

// ---- cells -----------------------------------------------------------------

/// The cells of `s[i..]`: `cur` is what the current cell holds so far, `quoted`
/// whether a quotation is open.
pub open spec fn cells_from(s: Seq<char>, i: int, quoted: bool, cur: Seq<char>) -> Seq<Seq<char>>
    decreases s.len() - i,
{
    if i < 0 || i >= s.len() {
        seq![cur]
    } else if s[i] == '"' {
        if quoted && i + 1 < s.len() && s[i + 1] == '"' {
            cells_from(s, i + 2, quoted, cur.push('"'))
        } else {
            cells_from(s, i + 1, !quoted, cur)
        }
    } else if s[i] == ';' && !quoted {
        seq![cur] + cells_from(s, i + 1, quoted, seq![])
    } else {
        cells_from(s, i + 1, quoted, cur.push(s[i]))
    }
}

/// The cells of a line. A semicolon between double quotes belongs to its cell;
/// two quotes inside a quotation are one.
pub open spec fn cells_of(s: Seq<char>) -> Seq<Seq<char>> {
    cells_from(s, 0, false, seq![])
}

pub fn split_semicolons(line: &str) -> (r: Vec<String>)
    ensures
        views(r@) == cells_of(line@),
        r.len() > 0,
{
    broadcast use group_views;

    let v = to_chars(line);
    let mut out: Vec<String> = Vec::new();
    let mut cur = String::new();
    let mut quoted = false;
    let mut i: usize = 0;
    assert(cur@ =~= seq![]);
    assert(views(out@) + cells_from(v@, 0, false, cur@) =~= cells_of(line@));
    while i < v.len()
        invariant
            i <= v.len(),
            v@ == line@,
            views(out@) + cells_from(v@, i as int, quoted, cur@) == cells_of(line@),
        decreases v.len() - i,
    {
        let c = v[i];
        if c == '"' {
            if quoted && i < v.len() - 1 && v[i + 1] == '"' {
                cur.push('"');
                i = i + 2;
            } else {
                quoted = !quoted;
                i = i + 1;
            }
        } else if c == ';' && !quoted {
            let ghost before = views(out@);
            let ghost rest = cells_from(v@, i + 1, quoted, seq![]);
            let ghost held = cur@;
            out.push(cur);
            cur = String::new();
            assert(cur@ =~= seq![]);
            assert(views(out@) + rest =~= before + (seq![held] + rest));
            i = i + 1;
        } else {
            cur.push(c);
            i = i + 1;
        }
    }
    let ghost before = views(out@);
    let ghost held = cur@;
    out.push(cur);
    assert(views(out@) =~= before + seq![held]);
    out
}

// ---- scanning --------------------------------------------------------------

/// The index of the last `c` before `j`.
pub open spec fn last_index_of(s: Seq<char>, c: char, j: int) -> Option<int>
    decreases j,
{
    if j <= 0 || j > s.len() {
        None
    } else if s[j - 1] == c {
        Some(j - 1)
    } else {
        last_index_of(s, c, j - 1)
    }
}

/// Whether a column type is one of integer, real, text or pointer.
pub open spec fn known_type(t: Seq<char>) -> bool {
    let head = trim_of(before_either_of(t, ':', ':'));
    head == "i"@ || head == "r"@ || head == "d"@ || head == "a"@ || head == "p"@
}

/// Where the type of a column stands: after the last round bracket, where the
/// column ends in one.
pub open spec fn type_at(spec: Seq<char>) -> Option<int> {
    if spec.len() > 0 && spec[spec.len() - 1] == ')' {
        last_index_of(spec, '(', spec.len() as int)
    } else {
        None
    }
}

/// The type of a column, without its brackets.
pub open spec fn type_of(spec: Seq<char>) -> Option<Seq<char>> {
    match type_at(spec) {
        Some(i) => Some(spec.subrange(i + 1, spec.len() - 1)),
        None => None,
    }
}

/// The letter of a type that is not known.
pub open spec fn unknown_letter(spec: Seq<char>) -> Option<char> {
    match type_of(spec) {
        Some(t) => if known_type(t) {
            None
        } else if t.len() > 0 {
            Some(t[0])
        } else {
            Some('?')
        },
        None => None,
    }
}

/// The bare name of a column: without its type, and without the ordinal that
/// `@` or `#` sets off.
pub open spec fn column_name(raw: Seq<char>) -> Seq<char> {
    let spec = trim_of(raw);
    let head = match type_at(spec) {
        Some(i) => spec.subrange(0, i),
        None => spec,
    };
    trim_of(before_either_of(head, '@', '#'))
}

/// Tables scanned so far, the unknown type letters seen, and the warnings.
pub struct Scan {
    pub tables: Vec<DgsTable>,
    pub seen: Vec<char>,
    pub warnings: Vec<String>,
}

pub struct ScanV {
    pub tables: Seq<DgsTableV>,
    pub seen: Seq<char>,
    pub warnings: Seq<Seq<char>>,
}

impl View for Scan {
    type V = ScanV;

    open spec fn view(&self) -> ScanV {
        ScanV {
            tables: views(self.tables@),
            seen: self.seen@,
            warnings: views(self.warnings@),
        }
    }
}

/// A column read: its type letter, where unknown and not seen before, warns.
pub open spec fn column_step(st: ScanV, raw: Seq<char>) -> ScanV {
    match unknown_letter(trim_of(raw)) {
        Some(c) => if st.seen.contains(c) {
            st
        } else {
            ScanV {
                seen: st.seen.push(c),
                warnings: st.warnings.push(
                    "DGS column type '"@ + seq![c] + "' is unknown; read as text"@,
                ),
                ..st
            }
        },
        None => st,
    }
}

fn last_index(v: &Vec<char>, c: char) -> (r: Option<usize>)
    ensures
        match r {
            Some(i) => last_index_of(v@, c, v.len() as int) == Some(i as int) && i < v.len()
                && v@[i as int] == c,
            None => last_index_of(v@, c, v.len() as int) is None,
        },
{
    let mut j: usize = v.len();
    while j > 0
        invariant
            j <= v.len(),
            last_index_of(v@, c, v.len() as int) == last_index_of(v@, c, j as int),
        decreases j,
    {
        if v[j - 1] == c {
            return Some(j - 1);
        }
        j = j - 1;
    }
    None
}

fn holds_char(v: &Vec<char>, c: char) -> (r: bool)
    ensures
        r == v@.contains(c),
{
    let mut i: usize = 0;
    while i < v.len()
        invariant
            i <= v.len(),
            forall|k: int| 0 <= k < i ==> v@[k] != c,
        decreases v.len() - i,
    {
        if v[i] == c {
            assert(v@[i as int] == c);
            return true;
        }
        i = i + 1;
    }
    false
}

fn known(t: &str) -> (r: bool)
    ensures
        r == known_type(t@),
{
    let head = before_either(t, ':', ':');
    let head = trim(head.as_str());
    let h = head.as_str();
    same(h, "i") || same(h, "r") || same(h, "d") || same(h, "a") || same(h, "p")
}

pub fn parse_column(raw: &str, st: &mut Scan) -> (name: String)
    ensures
        name@ == column_name(raw@),
        final(st)@ == column_step(old(st)@, raw@),
{
    broadcast use group_views;

    let spec = trim(raw);
    let v = to_chars(spec.as_str());
    let at = if v.len() > 0 && v[v.len() - 1] == ')' {
        last_index(&v, '(')
    } else {
        None
    };
    match at {
        Some(i) => {
            let ty = from_chars(&v, i + 1, v.len() - 1);
            if !known(ty.as_str()) {
                let letter = if i + 1 < v.len() - 1 {
                    v[i + 1]
                } else {
                    '?'
                };
                if !holds_char(&st.seen, letter) {
                    st.seen.push(letter);
                    let mut w = "DGS column type '".to_owned();
                    w.push(letter);
                    w.append("' is unknown; read as text");
                    assert(w@ =~= "DGS column type '"@ + seq![letter]
                        + "' is unknown; read as text"@);
                    st.warnings.push(w);
                }
            }
            let head = from_chars(&v, 0, i);
            let name = before_either(head.as_str(), '@', '#');
            trim(name.as_str())
        },
        None => {
            let name = before_either(spec.as_str(), '@', '#');
            trim(name.as_str())
        },
    }
}

/// The state after the columns up to the `n`-th cell of a header; the first
/// cell is the class.
pub open spec fn columns_n(st: ScanV, cells: Seq<Seq<char>>, n: nat) -> ScanV
    decreases n,
{
    if n <= 1 {
        st
    } else {
        column_step(columns_n(st, cells, (n - 1) as nat), cells[n - 1])
    }
}

/// The column names of a header.
pub open spec fn names_of(cells: Seq<Seq<char>>) -> Seq<Seq<char>> {
    Seq::new((cells.len() - 1) as nat, |i: int| column_name(cells[i + 1]))
}

/// A header opens a table, and no class has two.
pub open spec fn header_step(st: ScanV, body: Seq<char>, line: nat) -> Outcome<ScanV> {
    let cells = cells_of(body);
    let class = trim_of(cells[0]);
    let after = columns_n(st, cells, cells.len());
    if table_from(st.tables, class, 0) is Some {
        Err(refusal("duplicate table `"@ + class + "` at line "@ + dec_of(line)))
    } else {
        Ok(
            ScanV {
                tables: after.tables.push(
                    DgsTableV { class, columns: names_of(cells), rows: seq![] },
                ),
                ..after
            },
        )
    }
}

fn header(st: &mut Scan, body: &str, line: usize) -> (r: Result<()>)
    ensures
        match r {
            Ok(_) => header_step(old(st)@, body@, line as nat) == Ok::<ScanV, ErrorV>(final(st)@),
            Err(e) => header_step(old(st)@, body@, line as nat) == Err::<ScanV, ErrorV>(e@),
        },
{
    broadcast use group_views;

    let cells = split_semicolons(body);
    assert(views(cells@)[0] == cells@[0]@);
    let class = trim(cells[0].as_str());
    let mut columns: Vec<String> = Vec::new();
    let mut i: usize = 1;
    while i < cells.len()
        invariant
            1 <= i <= cells.len(),
            columns.len() == i - 1,
            views(cells@) == cells_of(body@),
            st@ == columns_n(old(st)@, views(cells@), i as nat),
            st@.tables == old(st)@.tables,
            forall|k: int|
                0 <= k < columns.len() ==> (#[trigger] columns@[k])@ == names_of(views(cells@))[k],
        decreases cells.len() - i,
    {
        assert(views(cells@)[i as int] == cells@[i as int]@);
        let name = parse_column(cells[i].as_str(), st);
        columns.push(name);
        i = i + 1;
    }
    assert(views(cells@).len() == cells.len());
    assert(views(columns@) =~= names_of(views(cells@)));
    if find_table(&st.tables, class.as_str()).is_some() {
        let n = dec_usize(line);
        return Err(
            refuse(cat4("duplicate table `", class.as_str(), "` at line ", n.as_str())),
        );
    }
    let rows: Vec<DgsRow> = Vec::new();
    assert(views(rows@) =~= seq![]);
    st.tables.push(DgsTable { class, columns, rows });
    Ok(())
}

/// The cells of a row; one that says `$empty$` gives nothing.
pub open spec fn row_cells(line: Seq<char>) -> Seq<Seq<char>> {
    let cells = cells_of(line);
    Seq::new(
        cells.len(),
        |i: int|
            if cells[i] == "$empty$"@ {
                seq![]
            } else {
                cells[i]
            },
    )
}

/// A row belongs to the table opened last, and has a cell for each of its
/// columns. One before any table is passed over.
pub open spec fn row_step(st: ScanV, text: Seq<char>, line: usize) -> Outcome<ScanV> {
    if st.tables.len() == 0 {
        Ok(st)
    } else {
        let table = st.tables.last();
        let cells = row_cells(text);
        if cells.len() != table.columns.len() {
            Err(
                refusal(
                    "table `"@ + table.class + "` row at line "@ + dec_of(line as nat) + " has "@
                        + dec_of(cells.len()) + " cells, header declares "@ + dec_of(
                        table.columns.len(),
                    ),
                ),
            )
        } else {
            Ok(
                ScanV {
                    tables: st.tables.drop_last().push(
                        DgsTableV {
                            rows: table.rows.push(DgsRowV { line_no: line, cells }),
                            ..table
                        },
                    ),
                    ..st
                },
            )
        }
    }
}

fn row(st: &mut Scan, text: &str, line: usize) -> (r: Result<()>)
    ensures
        match r {
            Ok(_) => row_step(old(st)@, text@, line) == Ok::<ScanV, ErrorV>(final(st)@),
            Err(e) => row_step(old(st)@, text@, line) == Err::<ScanV, ErrorV>(e@),
        },
{
    broadcast use group_views;

    let mut table = match st.tables.pop() {
        Some(t) => t,
        None => {
            return Ok(());
        },
    };
    assert(views(st.tables@) =~= views(old(st).tables@).drop_last());
    assert(table@ == views(old(st).tables@).last());
    let cells = split_semicolons(text);
    assert(views(cells@).len() == cells.len());
    assert(views(table.columns@).len() == table.columns.len());
    if cells.len() != table.columns.len() {
        let n = dec_usize(line);
        let a = dec_usize(cells.len());
        let b = dec_usize(table.columns.len());
        let head = cat5("table `", table.class.as_str(), "` row at line ", n.as_str(), " has ");
        return Err(
            refuse(
                cat4(head.as_str(), a.as_str(), " cells, header declares ", b.as_str()),
            ),
        );
    }
    let mut kept: Vec<String> = Vec::new();
    let mut i: usize = 0;
    while i < cells.len()
        invariant
            i <= cells.len(),
            kept.len() == i,
            views(cells@) == cells_of(text@),
            forall|k: int| 0 <= k < i ==> (#[trigger] kept@[k])@ == row_cells(text@)[k],
        decreases cells.len() - i,
    {
        assert(views(cells@)[i as int] == cells@[i as int]@);
        if same(cells[i].as_str(), "$empty$") {
            let e = String::new();
            assert(e@ =~= seq![]);
            kept.push(e);
        } else {
            kept.push(cells[i].clone());
        }
        i = i + 1;
    }
    assert(views(kept@) =~= row_cells(text@));
    table.rows.push(DgsRow { line_no: line, cells: kept });
    st.tables.push(table);
    Ok(())
}

/// The end of a line before its carriage returns.
pub open spec fn back_returns(s: Seq<char>, j: int) -> int
    decreases j,
{
    if 0 < j <= s.len() && s[j - 1] == '\r' {
        back_returns(s, j - 1)
    } else {
        j
    }
}

/// A source line without trailing carriage returns and leading white space.
pub open spec fn line_text(raw: Seq<char>) -> Seq<char> {
    trim_start_of(raw.subrange(0, back_returns(raw, raw.len() as int)))
}

fn line_of(raw: &str) -> (r: String)
    ensures
        r@ == line_text(raw@),
{
    let v = to_chars(raw);
    let mut j: usize = v.len();
    while j > 0 && v[j - 1] == '\r'
        invariant
            j <= v.len(),
            back_returns(v@, v.len() as int) == back_returns(v@, j as int),
        decreases j,
    {
        j = j - 1;
    }
    let cut = from_chars(&v, 0, j);
    trim_start(cut.as_str())
}

/// A line read: blank lines and comments are passed over.
pub open spec fn line_step(st: ScanV, raw: Seq<char>, line: usize) -> Outcome<ScanV> {
    let text = line_text(raw);
    if text.len() == 0 || has_prefix(text, "*"@) {
        Ok(st)
    } else {
        match strip_prefix_of(text, "$$"@) {
            Some(body) => header_step(st, body, line as nat),
            None => row_step(st, text, line),
        }
    }
}

pub open spec fn lines_n(lines: Seq<Seq<char>>, n: nat) -> Outcome<ScanV>
    decreases n,
{
    if n == 0 {
        Ok(ScanV { tables: seq![], seen: seq![], warnings: seq![] })
    } else {
        match lines_n(lines, (n - 1) as nat) {
            Ok(st) => line_step(st, lines[n - 1], n as usize),
            Err(e) => Err(e),
        }
    }
}

/// A refusal among the first lines stands.
proof fn lemma_lines_stop(lines: Seq<Seq<char>>, k: nat, n: nat)
    requires
        k <= n,
        lines_n(lines, k) is Err,
    ensures
        lines_n(lines, n) == lines_n(lines, k),
    decreases n,
{
    if k < n {
        lemma_lines_stop(lines, k, (n - 1) as nat);
    }
}

fn scan_lines(source: &str) -> (r: Result<Scan>)
    ensures
        outcome(r) == lines_n(split_of(source@, '\n'), split_of(source@, '\n').len()),
{
    broadcast use group_views;

    let lines = split(source, '\n');
    let mut st = Scan { tables: Vec::new(), seen: Vec::new(), warnings: Vec::new() };
    assert(st@.tables =~= seq![] && st@.seen =~= seq![] && st@.warnings =~= seq![]);
    assert(views(lines@).len() == lines.len());
    let mut i: usize = 0;
    while i < lines.len()
        invariant
            i <= lines.len(),
            views(lines@).len() == lines.len(),
            views(lines@) == split_of(source@, '\n'),
            lines_n(views(lines@), i as nat) == Ok::<ScanV, ErrorV>(st@),
        decreases lines.len() - i,
    {
        assert(views(lines@)[i as int] == lines@[i as int]@);
        let text = line_of(lines[i].as_str());
        if !empty(text.as_str()) && !starts_with(text.as_str(), "*") {
            let r = match strip_prefix(text.as_str(), "$$") {
                Some(body) => header(&mut st, body.as_str(), i + 1),
                None => row(&mut st, text.as_str(), i + 1),
            };
            match r {
                Ok(_) => {},
                Err(e) => {
                    proof {
                        lemma_lines_stop(views(lines@), (i + 1) as nat, views(lines@).len());
                    }
                    return Err(e);
                },
            }
        }
        i = i + 1;
    }
    Ok(st)
}

// ---- configuration ---------------------------------------------------------

/// What the first row, from the `i`-th on, that describes `key` says, where it
/// says anything.
pub open spec fn setting_from(
    rows: Seq<DgsRowV>,
    descr: int,
    val: int,
    key: Seq<char>,
    i: int,
) -> Option<
    Seq<char>,
>
    decreases rows.len() - i,
{
    if i < 0 || i >= rows.len() {
        None
    } else if cell_at(rows[i], descr) is Some && trim_of(cell_at(rows[i], descr)->0) == key
        && cell_at(rows[i], val) is Some {
        cell_at(rows[i], val)
    } else {
        setting_from(rows, descr, val, key, i + 1)
    }
}

fn setting<'a>(rows: &'a Vec<DgsRow>, descr: usize, val: usize, key: &str) -> (r: Option<
    &'a String,
>)
    ensures
        ref_view(r) == setting_from(views(rows@), descr as int, val as int, key@, 0),
{
    let mut i: usize = 0;
    while i < rows.len()
        invariant
            i <= rows.len(),
            setting_from(views(rows@), descr as int, val as int, key@, 0) == setting_from(
                views(rows@),
                descr as int,
                val as int,
                key@,
                i as int,
            ),
        decreases rows.len() - i,
    {
        assert(views(rows@)[i as int] == rows@[i as int]@);
        match cell_in(&rows[i], descr) {
            Some(d) => {
                let d = trim(d.as_str());
                if same(d.as_str(), key) {
                    match cell_in(&rows[i], val) {
                        Some(v) => {
                            return Some(v);
                        },
                        None => {},
                    }
                }
            },
            None => {},
        }
        i = i + 1;
    }
    None
}

/// The major number of a version, where it is one of a byte.
pub open spec fn major_of(version: Seq<char>) -> Option<nat> {
    parse_unsigned(before_either_of(trim_of(version), '.', '.'), 255)
}

/// The decimal separator, and whether values may be in display units.
pub struct Config {
    pub decimal: char,
    pub displayed: bool,
}

/// What the `General` table says: a version from 5 to 7, the decimal separator
/// and the attribute mode.
pub open spec fn config_of(tables: Seq<DgsTableV>) -> Outcome<Config> {
    match table_from(tables, "General"@, 0) {
        None => Err(refusal("no General table; not a DGS export"@)),
        Some(g) => match (g.col("Descr"@), g.col("Val"@)) {
            (Some(d), Some(v)) => match setting_from(g.rows, d, v, "Version"@, 0) {
                None => Err(refusal("General table has no Version row"@)),
                Some(version) => match major_of(version) {
                    None => Err(refusal("unrecognized DGS version "@ + debug_of(version))),
                    Some(major) => if 5 <= major <= 7 {
                        let separator = setting_from(g.rows, d, v, "DecimalSeparator"@, 0);
                        let mode = setting_from(g.rows, d, v, "AttributeMode"@, 0);
                        Ok(
                            Config {
                                decimal: if separator is Some && trim_of(separator->0) == ","@ {
                                    ','
                                } else {
                                    '.'
                                },
                                displayed: mode is Some && trim_of(mode->0) == "DISPLAYED"@,
                            },
                        )
                    } else {
                        Err(
                            refusal(
                                "DGS version "@ + debug_of(version)
                                    + " is not supported (this reader handles 5.0, 6.0, 7.0)"@,
                            ),
                        )
                    },
                },
            },
            _ => Err(refusal("General table has no Descr/Val columns"@)),
        },
    }
}

fn says(o: Option<&String>, text: &str) -> (r: bool)
    ensures
        r == (ref_view(o) is Some && trim_of(ref_view(o)->0) == text@),
{
    match o {
        Some(s) => {
            let t = trim(s.as_str());
            same(t.as_str(), text)
        },
        None => false,
    }
}

fn read_config(tables: &Vec<DgsTable>) -> (r: Result<Config>)
    ensures
        match r {
            Ok(c) => config_of(views(tables@)) == Ok::<Config, ErrorV>(c),
            Err(e) => config_of(views(tables@)) == Err::<Config, ErrorV>(e@),
        },
{
    let general = match find_table(tables, "General") {
        Some(t) => t,
        None => {
            return Err(refuse("no General table; not a DGS export".to_owned()));
        },
    };
    match (general.col("Descr"), general.col("Val")) {
        (Some(d), Some(v)) => {
            let version = match setting(&general.rows, d, v, "Version") {
                Some(s) => s,
                None => {
                    return Err(refuse("General table has no Version row".to_owned()));
                },
            };
            let text = trim(version.as_str());
            let head = before_either(text.as_str(), '.', '.');
            let shown = debug(version.as_str());
            match parse_uint(head.as_str(), 255) {
                None => Err(refuse(cat2("unrecognized DGS version ", shown.as_str()))),
                Some(major) => if 5 <= major && major <= 7 {
                    let decimal = if says(
                        setting(&general.rows, d, v, "DecimalSeparator"),
                        ",",
                    ) {
                        ','
                    } else {
                        '.'
                    };
                    let displayed = says(
                        setting(&general.rows, d, v, "AttributeMode"),
                        "DISPLAYED",
                    );
                    Ok(Config { decimal, displayed })
                } else {
                    Err(
                        refuse(
                            cat3(
                                "DGS version ",
                                shown.as_str(),
                                " is not supported (this reader handles 5.0, 6.0, 7.0)",
                            ),
                        ),
                    )
                },
            }
        },
        _ => Err(refuse("General table has no Descr/Val columns".to_owned())),
    }
}

// ---- operations ------------------------------------------------------------

/// The lines of the rows that are more or less than object definitions.
pub struct Notes {
    pub updates: Vec<usize>,
    pub deletes: Vec<usize>,
    pub ignored: Vec<usize>,
    pub external: Vec<usize>,
    pub deletions: Vec<usize>,
}

pub struct NotesV {
    pub updates: Seq<usize>,
    pub deletes: Seq<usize>,
    pub ignored: Seq<usize>,
    pub external: Seq<usize>,
    pub deletions: Seq<usize>,
}

impl View for Notes {
    type V = NotesV;

    open spec fn view(&self) -> NotesV {
        NotesV {
            updates: self.updates@,
            deletes: self.deletes@,
            ignored: self.ignored@,
            external: self.external@,
            deletions: self.deletions@,
        }
    }
}

/// Rows kept so far, and their identities.
pub struct KeepV {
    pub rows: Seq<DgsRowV>,
    pub ids: Seq<Seq<char>>,
    pub notes: NotesV,
}

/// The operation flag of a row; empty without one.
pub open spec fn operation_of(t: DgsTableV, r: DgsRowV) -> Seq<char> {
    match t.cell(r, "OP"@) {
        Some(s) => trim_of(s),
        None => seq![],
    }
}

/// Tables whose rows share an identity: one for each entry of a matrix or
/// vector.
pub open spec fn shares_ids(class: Seq<char>) -> bool {
    class == "Matrix"@ || class == "VecDouble"@
}

/// A row is kept unless it is keyed outside the file, deleted or ignored; in
/// one table no identity is kept twice.
pub open spec fn keep_step(t: DgsTableV, st: KeepV, r: DgsRowV) -> Outcome<KeepV> {
    let id = t.id_of(r);
    let op = operation_of(t, r);
    if has_prefix(id, "##"@) {
        Ok(
            KeepV {
                notes: NotesV { external: st.notes.external.push(r.line_no), ..st.notes },
                ..st
            },
        )
    } else if op == "D"@ {
        Ok(
            KeepV {
                notes: NotesV { deletes: st.notes.deletes.push(r.line_no), ..st.notes },
                ..st
            },
        )
    } else if op == "I"@ {
        Ok(
            KeepV {
                notes: NotesV { ignored: st.notes.ignored.push(r.line_no), ..st.notes },
                ..st
            },
        )
    } else {
        let notes = if op == "U"@ {
            NotesV { updates: st.notes.updates.push(r.line_no), ..st.notes }
        } else {
            st.notes
        };
        if shares_ids(t.class) || id.len() == 0 {
            Ok(KeepV { rows: st.rows.push(r), notes, ..st })
        } else if st.ids.contains(id) {
            Err(
                refusal(
                    "duplicate id "@ + debug_of(id) + " in table `"@ + t.class + "` at line "@
                        + dec_of(r.line_no as nat),
                ),
            )
        } else {
            Ok(KeepV { rows: st.rows.push(r), ids: st.ids.push(id), notes })
        }
    }
}

pub open spec fn keep_n(t: DgsTableV, notes: NotesV, n: nat) -> Outcome<KeepV>
    decreases n,
{
    if n == 0 {
        Ok(KeepV { rows: seq![], ids: seq![], notes })
    } else {
        match keep_n(t, notes, (n - 1) as nat) {
            Ok(st) => keep_step(t, st, t.rows[n - 1]),
            Err(e) => Err(e),
        }
    }
}

proof fn lemma_keep_stop(t: DgsTableV, notes: NotesV, k: nat, n: nat)
    requires
        k <= n,
        keep_n(t, notes, k) is Err,
    ensures
        keep_n(t, notes, n) == keep_n(t, notes, k),
    decreases n,
{
    if k < n {
        lemma_keep_stop(t, notes, k, (n - 1) as nat);
    }
}

/// The lines of the first `n` rows.
pub open spec fn line_numbers(rows: Seq<DgsRowV>) -> Seq<usize> {
    Seq::new(rows.len(), |i: int| rows[i].line_no)
}

/// A table filtered. `General` stays as it is, and the `Deletion` table is
/// emptied.
pub open spec fn filter_step(t: DgsTableV, notes: NotesV) -> Outcome<(DgsTableV, NotesV)> {
    if t.class == "General"@ {
        Ok((t, notes))
    } else if t.class == "Deletion"@ {
        Ok(
            (
                DgsTableV { rows: seq![], ..t },
                NotesV { deletions: notes.deletions + line_numbers(t.rows), ..notes },
            ),
        )
    } else {
        match keep_n(t, notes, t.rows.len()) {
            Ok(st) => Ok((DgsTableV { rows: st.rows, ..t }, st.notes)),
            Err(e) => Err(e),
        }
    }
}

pub open spec fn filter_n(tables: Seq<DgsTableV>, n: nat) -> Outcome<(Seq<DgsTableV>, NotesV)>
    decreases n,
{
    if n == 0 {
        Ok(
            (
                seq![],
                NotesV {
                    updates: seq![],
                    deletes: seq![],
                    ignored: seq![],
                    external: seq![],
                    deletions: seq![],
                },
            ),
        )
    } else {
        match filter_n(tables, (n - 1) as nat) {
            Ok((kept, notes)) => match filter_step(tables[n - 1], notes) {
                Ok((t, notes)) => Ok((kept.push(t), notes)),
                Err(e) => Err(e),
            },
            Err(e) => Err(e),
        }
    }
}

proof fn lemma_filter_stop(tables: Seq<DgsTableV>, k: nat, n: nat)
    requires
        k <= n,
        filter_n(tables, k) is Err,
    ensures
        filter_n(tables, n) == filter_n(tables, k),
    decreases n,
{
    if k < n {
        lemma_filter_stop(tables, k, (n - 1) as nat);
    }
}

fn copy_row(r: &DgsRow) -> (c: DgsRow)
    ensures
        c@ == r@,
{
    DgsRow { line_no: r.line_no, cells: copy_list(&r.cells) }
}

fn keep_rows(t: &DgsTable, notes: &mut Notes) -> (r: Result<Vec<DgsRow>>)
    ensures
        match r {
            Ok(rows) => keep_n(t@, old(notes)@, t@.rows.len()) matches Ok(k) && k.rows == views(
                rows@,
            ) && k.notes == final(notes)@,
            Err(e) => keep_n(t@, old(notes)@, t@.rows.len()) == Err::<KeepV, ErrorV>(e@),
        },
{
    broadcast use group_views;

    let mut kept: Vec<DgsRow> = Vec::new();
    let mut ids: Vec<String> = Vec::new();
    assert(views(kept@) =~= seq![] && views(ids@) =~= seq![]);
    let shared = same(t.class.as_str(), "Matrix") || same(t.class.as_str(), "VecDouble");
    assert(t@.rows.len() == t.rows.len());
    let mut i: usize = 0;
    while i < t.rows.len()
        invariant
            i <= t.rows.len(),
            t@.rows.len() == t.rows.len(),
            shared == shares_ids(t@.class),
            keep_n(t@, old(notes)@, i as nat) == Ok::<KeepV, ErrorV>(
                (KeepV { rows: views(kept@), ids: views(ids@), notes: notes@ }),
            ),
        decreases t.rows.len() - i,
    {
        let row = &t.rows[i];
        let ghost prior = KeepV { rows: views(kept@), ids: views(ids@), notes: notes@ };
        assert(t@.rows[i as int] == row@);
        let id = t.id_of(row);
        let ghost id0 = id@;
        let op = match t.cell(row, "OP") {
            Some(s) => trim(s.as_str()),
            None => {
                let e = String::new();
                assert(e@ =~= seq![]);
                e
            },
        };
        assert(op@ == operation_of(t@, row@));
        if starts_with(id.as_str(), "##") {
            notes.external.push(row.line_no);
            assert(notes@ == (NotesV { external: prior.notes.external.push(row.line_no), ..prior.notes }));
        } else if same(op.as_str(), "D") {
            notes.deletes.push(row.line_no);
            assert(notes@ == (NotesV { deletes: prior.notes.deletes.push(row.line_no), ..prior.notes }));
        } else if same(op.as_str(), "I") {
            notes.ignored.push(row.line_no);
            assert(notes@ == (NotesV { ignored: prior.notes.ignored.push(row.line_no), ..prior.notes }));
        } else {
            if same(op.as_str(), "U") {
                notes.updates.push(row.line_no);
                assert(notes@ == (NotesV { updates: prior.notes.updates.push(row.line_no), ..prior.notes }));
            }
            if !shared && !empty(id.as_str()) {
                if contains(&ids, id.as_str()) {
                    let shown = debug(id.as_str());
                    let n = dec_usize(row.line_no);
                    proof {
                        lemma_keep_stop(t@, old(notes)@, (i + 1) as nat, t@.rows.len());
                    }
                    return Err(
                        refuse(
                            cat6(
                                "duplicate id ",
                                shown.as_str(),
                                " in table `",
                                t.class.as_str(),
                                "` at line ",
                                n.as_str(),
                            ),
                        ),
                    );
                }
                ids.push(id);
            }
            kept.push(copy_row(row));
            assert(views(kept@) == prior.rows.push(row@));
            assert(shares_ids(t@.class) || id0.len() == 0 ==> views(ids@) == prior.ids);
            assert(!(shares_ids(t@.class) || id0.len() == 0) ==> views(ids@) == prior.ids.push(id0));
        }
        assert(keep_step(t@, prior, row@) == Ok::<KeepV, ErrorV>(
            (KeepV { rows: views(kept@), ids: views(ids@), notes: notes@ }),
        ));
        i = i + 1;
    }
    Ok(kept)
}

/// A note on how many rows were treated so, where there are any.
pub open spec fn noted(
    warnings: Seq<Seq<char>>,
    n: nat,
    before: Seq<char>,
    after: Seq<char>,
) -> Seq<
    Seq<char>,
> {
    if n > 0 {
        warnings.push(before + dec_of(n) + after)
    } else {
        warnings
    }
}

fn note(warnings: &mut Vec<String>, n: usize, before: &str, after: &str)
    ensures
        views(final(warnings)@) == noted(views(old(warnings)@), n as nat, before@, after@),
{
    broadcast use group_views;

    if n > 0 {
        let d = dec_usize(n);
        warnings.push(cat3(before, d.as_str(), after));
    }
}

/// The warnings with those on the filtered rows.
pub open spec fn notes_said(warnings: Seq<Seq<char>>, n: NotesV) -> Seq<Seq<char>> {
    let w = noted(
        warnings,
        n.updates.len(),
        ""@,
        " DGS update row(s) (OP=U) treated as object definitions"@,
    );
    let w = noted(w, n.deletes.len(), ""@, " DGS delete row(s) (OP=D) skipped"@);
    let w = noted(w, n.ignored.len(), ""@, " DGS ignored row(s) (OP=I) skipped"@);
    let w = noted(
        w,
        n.external.len(),
        ""@,
        " DGS row(s) key an external PowerFactory project (## id) and were skipped"@,
    );
    noted(
        w,
        n.deletions.len(),
        "DGS Deletion table skipped ("@,
        " rows): operational deletions reference an external project"@,
    )
}

/// The document in a text, and the warnings of the scan.
pub open spec fn scan_of(source: Seq<char>) -> Outcome<(DgsDocV, Seq<Seq<char>>)> {
    let lines = split_of(source, '\n');
    match lines_n(lines, lines.len()) {
        Err(e) => Err(e),
        Ok(st) => match config_of(st.tables) {
            Err(e) => Err(e),
            Ok(c) => match filter_n(st.tables, st.tables.len()) {
                Err(e) => Err(e),
                Ok((tables, notes)) => {
                    let w = if c.displayed {
                        st.warnings.push(
                            "DGS AttributeMode is DISPLAYED; exported values may be in project-display units rather than SI"@,
                        )
                    } else {
                        st.warnings
                    };
                    Ok((DgsDocV { tables, decimal: c.decimal }, notes_said(w, notes)))
                },
            },
        },
    }
}

/// Scans a text into its class tables, with the warnings that come of it.
pub fn scan(source: &str) -> (r: Result<(DgsDoc, Vec<String>)>)
    ensures
        match r {
            Ok(p) => scan_of(source@) == Ok::<(DgsDocV, Seq<Seq<char>>), ErrorV>(
                (p.0@, views(p.1@)),
            ),
            Err(e) => scan_of(source@) == Err::<(DgsDocV, Seq<Seq<char>>), ErrorV>(e@),
        },
{
    broadcast use group_views;

    let st = match scan_lines(source) {
        Ok(st) => st,
        Err(e) => {
            return Err(e);
        },
    };
    let config = match read_config(&st.tables) {
        Ok(c) => c,
        Err(e) => {
            return Err(e);
        },
    };
    let ghost lines = split_of(source@, '\n');
    let ghost scanned = st@;
    let ghost all = st@.tables;
    let tables = st.tables;
    let mut warnings = st.warnings;
    let mut notes = Notes {
        updates: Vec::new(),
        deletes: Vec::new(),
        ignored: Vec::new(),
        external: Vec::new(),
        deletions: Vec::new(),
    };
    let mut kept: Vec<DgsTable> = Vec::new();
    assert(views(kept@) =~= seq![]);
    assert(notes@.ignored =~= seq![]);
    assert(notes@.updates =~= seq![] && notes@.deletes =~= seq![] && notes@.external =~= seq![]
        && notes@.deletions =~= seq![]);
    assert(all.len() == tables.len());
    let mut i: usize = 0;
    while i < tables.len()
        invariant
            i <= tables.len(),
            all == views(tables@),
            all.len() == tables.len(),
            lines == split_of(source@, '\n'),
            lines_n(lines, lines.len()) == Ok::<ScanV, ErrorV>(scanned),
            all == scanned.tables,
            config_of(all) == Ok::<Config, ErrorV>(config),
            filter_n(all, i as nat) == Ok::<(Seq<DgsTableV>, NotesV), ErrorV>(
                (views(kept@), notes@),
            ),
        decreases tables.len() - i,
    {
        let t = &tables[i];
        assert(all[i as int] == t@);
        let ghost before = notes@;
        let ghost held = views(kept@);
        let class = t.class.clone();
        let columns = copy_list(&t.columns);
        if same(t.class.as_str(), "General") {
            let rows = copy_rows(&t.rows);
            kept.push(DgsTable { class, columns, rows });
            assert(views(kept@) == held.push(t@));
        } else if same(t.class.as_str(), "Deletion") {
            let rows: Vec<DgsRow> = Vec::new();
            assert(views(rows@) =~= seq![]);
            add_lines(&mut notes.deletions, &t.rows);
            assert(notes@ == (NotesV {
                deletions: before.deletions + line_numbers(t@.rows),
                ..before
            }));
            kept.push(DgsTable { class, columns, rows });
            assert(views(kept@) == held.push(DgsTableV { rows: seq![], ..t@ }));
        } else {
            match keep_rows(t, &mut notes) {
                Ok(rows) => {
                    let ghost new = DgsTableV { rows: views(rows@), ..t@ };
                    kept.push(DgsTable { class, columns, rows });
                    assert(views(kept@) == held.push(new));
                    assert(filter_step(t@, before) == Ok::<(DgsTableV, NotesV), ErrorV>((new, notes@)));
                },
                Err(e) => {
                    proof {
                        lemma_filter_stop(all, (i + 1) as nat, all.len());
                    }
                    return Err(e);
                },
            }
        }
        i = i + 1;
    }
    if config.displayed {
        warnings.push(
            "DGS AttributeMode is DISPLAYED; exported values may be in project-display units rather than SI".to_owned(),
        );
    }
    note(
        &mut warnings,
        notes.updates.len(),
        "",
        " DGS update row(s) (OP=U) treated as object definitions",
    );
    note(&mut warnings, notes.deletes.len(), "", " DGS delete row(s) (OP=D) skipped");
    note(&mut warnings, notes.ignored.len(), "", " DGS ignored row(s) (OP=I) skipped");
    note(
        &mut warnings,
        notes.external.len(),
        "",
        " DGS row(s) key an external PowerFactory project (## id) and were skipped",
    );
    note(
        &mut warnings,
        notes.deletions.len(),
        "DGS Deletion table skipped (",
        " rows): operational deletions reference an external project",
    );
    Ok((DgsDoc { tables: kept, decimal: config.decimal }, warnings))
}

fn copy_rows(rows: &Vec<DgsRow>) -> (r: Vec<DgsRow>)
    ensures
        views(r@) == views(rows@),
{
    let mut r: Vec<DgsRow> = Vec::new();
    let mut i: usize = 0;
    while i < rows.len()
        invariant
            i <= rows.len(),
            r.len() == i,
            forall|k: int| 0 <= k < i ==> (#[trigger] r@[k])@ == rows@[k]@,
        decreases rows.len() - i,
    {
        r.push(copy_row(&rows[i]));
        i = i + 1;
    }
    assert(views(r@) =~= views(rows@));
    r
}

fn add_lines(list: &mut Vec<usize>, rows: &Vec<DgsRow>)
    ensures
        final(list)@ == old(list)@ + line_numbers(views(rows@)),
{
    let mut i: usize = 0;
    while i < rows.len()
        invariant
            i <= rows.len(),
            list@ =~= old(list)@ + line_numbers(views(rows@)).take(i as int),
        decreases rows.len() - i,
    {
        assert(views(rows@)[i as int] == rows@[i as int]@);
        list.push(rows[i].line_no);
        i = i + 1;
    }
    assert(line_numbers(views(rows@)).take(i as int) =~= line_numbers(views(rows@)));
}

// ---- numbers ---------------------------------------------------------------

/// A numeral with a point before its fraction.
pub open spec fn pointed(s: Seq<char>, decimal: char) -> Seq<char> {
    Seq::new(
        s.len(),
        |i: int|
            if decimal == ',' && s[i] == ',' {
                '.'
            } else {
                s[i]
            },
    )
}

/// The number that a cell gives.
pub open spec fn parse_num_of(m: Sem, s: Seq<char>, decimal: char) -> Option<Bits> {
    let t = trim_of(s);
    if t.len() == 0 {
        None
    } else {
        (m.parse)(pointed(t, decimal))
    }
}

pub fn parse_num<C: Calc>(math: &C, s: &str, decimal: char) -> (r: Option<Bits>)
    ensures
        r == parse_num_of(math.sem(), s@, decimal),
{
    let t = trim(s);
    let v = to_chars(t.as_str());
    if v.len() == 0 {
        return None;
    }
    let mut text = String::new();
    let mut i: usize = 0;
    assert(text@ =~= pointed(v@, decimal).take(0));
    while i < v.len()
        invariant
            i <= v.len(),
            text@ == pointed(v@, decimal).take(i as int),
        decreases v.len() - i,
    {
        if decimal == ',' && v[i] == ',' {
            text.push('.');
        } else {
            text.push(v[i]);
        }
        i = i + 1;
        assert(text@ =~= pointed(v@, decimal).take(i as int));
    }
    assert(text@ =~= pointed(v@, decimal));
    math.parse(text.as_str())
}

/// The number under a column name. A cell that is missing or leads out of the
/// file gives `default`; one that is no number is refused.
pub open spec fn num_of(
    m: Sem,
    decimal: char,
    t: DgsTableV,
    r: DgsRowV,
    name: Seq<char>,
    default: Bits,
) -> Outcome<Bits> {
    match t.cell(r, name) {
        None => Ok(default),
        Some(s) => if has_prefix(s, "##"@) {
            Ok(default)
        } else {
            match parse_num_of(m, s, decimal) {
                Some(x) => Ok(x),
                None => Err(
                    refusal(
                        name + " value "@ + debug_of(s) + " is not a number at line "@ + dec_of(
                            r.line_no as nat,
                        ),
                    ),
                ),
            }
        },
    }
}

pub fn num<C: Calc>(
    math: &C,
    decimal: char,
    t: &DgsTable,
    r: &DgsRow,
    name: &str,
    default: Bits,
) -> (x: Result<Bits>)
    ensures
        outcome(x) == num_of(math.sem(), decimal, t@, r@, name@, default),
{
    match t.cell(r, name) {
        None => Ok(default),
        Some(s) => {
            if starts_with(s.as_str(), "##") {
                return Ok(default);
            }
            match parse_num(math, s.as_str(), decimal) {
                Some(x) => Ok(x),
                None => {
                    let shown = debug(s.as_str());
                    let n = dec_usize(r.line_no);
                    Err(
                        refuse(
                            cat5(
                                name,
                                " value ",
                                shown.as_str(),
                                " is not a number at line ",
                                n.as_str(),
                            ),
                        ),
                    )
                },
            }
        },
    }
}

/// The signed integer of a two's complement.
pub open spec fn signed_of(x: u64) -> i64 {
    if x < 0x8000_0000_0000_0000 {
        x as i64
    } else {
        (x - 0x1_0000_0000_0000_0000) as i64
    }
}

/// A number rounded to an integer.
pub open spec fn whole_of(m: Sem, x: Bits) -> i64 {
    signed_of(m.round(x))
}

pub fn whole<C: Calc>(math: &C, x: Bits) -> (r: i64)
    ensures
        r == whole_of(math.sem(), x),
{
    let n = round(math, x);
    if n < 0x8000_0000_0000_0000 {
        n as i64
    } else {
        (n - 0x8000_0000_0000_0000) as i64 + i64::MIN
    }
}

/// The integer under a column name.
pub open spec fn int_of(
    m: Sem,
    decimal: char,
    t: DgsTableV,
    r: DgsRowV,
    name: Seq<char>,
    default: Bits,
) -> Outcome<i64> {
    match num_of(m, decimal, t, r, name, default) {
        Ok(x) => Ok(whole_of(m, x)),
        Err(e) => Err(e),
    }
}

pub fn integer<C: Calc>(
    math: &C,
    decimal: char,
    t: &DgsTable,
    r: &DgsRow,
    name: &str,
    default: Bits,
) -> (x: Result<i64>)
    ensures
        outcome(x) == int_of(math.sem(), decimal, t@, r@, name@, default),
{
    match num(math, decimal, t, r, name, default) {
        Ok(x) => Ok(whole(math, x)),
        Err(e) => Err(e),
    }
}

} // verus!
