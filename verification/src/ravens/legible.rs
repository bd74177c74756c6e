//! That a written document is one that its text gives back.

use vstd::prelude::*;

use crate::json::{
    float_json, float_text, json_parse, plain_json, printed, reads_as, uint_json, Entries, JsonV,
};
use crate::math::{Bits, Sem, DAY, FIVE_BILLION};
use crate::model::{
    Configuration, DistBusV, DistGeneratorV, DistIbrV, DistLineCodeV, DistLineV, DistLoadV,
    DistNetworkV, DistShuntV, DistSwitchV, DistTransformerV, IbrPrimeMover, UntypedObjectV,
    VoltageSourceV,
};
use crate::numeral::dec_of;
use crate::order::{get_of, lemma_put, put_of, sorted};
use crate::ravens::accept::{
    even, group_even, lemma_put_from_entries, lemma_share_even, lemma_unrepresented_even,
};
use crate::ravens::bases::bases_of;
use crate::ravens::emit::{
    extra_num, extras_mrid_of, full_code_of, hot_code_of, hot_letters_n, hot_letters_of,
    identified_of, pointer_json, shown, sum_of, terminal_json, WriterV,
};
use crate::ravens::found::lemma_entry_of;
use crate::ravens::write::{
    all_read, base_names, base_table, bus_json, buses_json, document_of, equipment_of, fresh_writer,
    insert_in, location_json, path_keys_of, put_table, ravens_document, restore_step, restored,
    tables_of, typed_of, unrepresented, untyped_prop, versions_json, TablesV,
};
use crate::ravens::write_lines::{
    column_json, columns_json, first_rating, line_json, line_phase_json, line_phases_json,
    line_rating, linecode_json, linecodes_json, lines_json, min_nat, row_json, side_json,
    sides_json, switch_json, switches_json,
};
use crate::ravens::write_loads::{
    load_head, load_json, load_phase_json, load_phases_json, loads_json, spans_pair,
};
use crate::ravens::write_machines::{
    all_electronics_json, carry, electronics_json, machine_json, machines_json, shunt_json,
    shunts_json, source_json, sources_json, unit_bounds_of, unit_json,
};
use crate::ravens::write_tanks::{
    circuit_json, end_json, info_json, noload_json, objects, tested_json, transformer_json,
    transformers_json, windings_json,
};

verus! {

// ---- plain values ----------------------------------------------------------

/// A value that its text gives back, nested at most `d` levels deep.
pub open spec fn plain(d: int, v: JsonV) -> bool {
    d >= 0 && plain_json(v, d as nat)
}

/// Entries in key order, of values that nest at most `d` levels deep.
pub open spec fn tidy(d: int, o: Entries) -> bool {
    sorted(o) && forall|i: int| 0 <= i < o.len() ==> plain(d, (#[trigger] o[i]).1)
}

/// A list of values that nest at most `d` levels deep.
pub open spec fn all_plain(d: int, a: Seq<JsonV>) -> bool {
    forall|i: int| 0 <= i < a.len() ==> plain(d, #[trigger] a[i])
}

pub broadcast proof fn lemma_plain_object(d: int, o: Entries)
    ensures
        d >= 1 ==> #[trigger] plain(d, JsonV::Obj(o)) == tidy(d - 1, o),
{
    if d >= 1 {
        if plain(d, JsonV::Obj(o)) {
            assert forall|i: int| 0 <= i < o.len() implies plain(d - 1, (#[trigger] o[i]).1) by {
                assert(plain_json(o[i].1, (d as nat - 1) as nat));
            }
        }
        if tidy(d - 1, o) {
            assert forall|i: int| 0 <= i < o.len() implies plain_json(
                (#[trigger] o[i]).1,
                (d as nat - 1) as nat,
            ) by {
                assert(plain(d - 1, o[i].1));
            }
        }
    }
}

pub broadcast proof fn lemma_plain_list(d: int, a: Seq<JsonV>)
    ensures
        d >= 1 && all_plain(d - 1, a) ==> #[trigger] plain(d, JsonV::Arr(a)),
{
    if d >= 1 && all_plain(d - 1, a) {
        assert forall|i: int| 0 <= i < a.len() implies plain_json(
            #[trigger] a[i],
            (d as nat - 1) as nat,
        ) by {
            assert(plain(d - 1, a[i]));
        }
    }
}

/// What nests no deeper than one bound nests no deeper than a greater one.
pub proof fn lemma_plain_more(d: int, e: int, v: JsonV)
    requires
        plain(d, v),
        d <= e,
    ensures
        plain(e, v),
    decreases v,
{
    match v {
        JsonV::Arr(a) => {
            assert forall|i: int| 0 <= i < a.len() implies plain(e - 1, #[trigger] a[i]) by {
                assert(plain_json(a[i], (d as nat - 1) as nat));
                lemma_plain_more(d - 1, e - 1, a[i]);
            }
            lemma_plain_list(e, a);
        },
        JsonV::Obj(o) => {
            assert forall|i: int| 0 <= i < o.len() implies plain(e - 1, (#[trigger] o[i]).1) by {
                assert(plain_json(o[i].1, (d as nat - 1) as nat));
                assert(decreases_to!(v => o[i].1));
                lemma_plain_more(d - 1, e - 1, o[i].1);
            }
            lemma_plain_object(e, o);
        },
        _ => {},
    }
}

pub proof fn lemma_tidy_more(d: int, e: int, o: Entries)
    requires
        tidy(d, o),
        d <= e,
    ensures
        tidy(e, o),
{
    assert forall|i: int| 0 <= i < o.len() implies plain(e, (#[trigger] o[i]).1) by {
        lemma_plain_more(d, e, o[i].1);
    }
}

pub broadcast proof fn lemma_tidy_put(d: int, o: Entries, k: Seq<char>, v: JsonV)
    ensures
        tidy(d, o) && plain(d, v) ==> #[trigger] tidy(d, put_of(o, k, v)),
{
    if tidy(d, o) && plain(d, v) {
        lemma_put(o, k, v);
        let r = put_of(o, k, v);
        assert forall|i: int| 0 <= i < r.len() implies plain(d, (#[trigger] r[i]).1) by {
            reveal(put_of);
            lemma_put_from_entries(o, k, v, 0, i);
        }
    }
}

pub broadcast proof fn lemma_pointer_plain(d: int, class: Seq<char>, name: Seq<char>)
    ensures
        d >= 0 ==> #[trigger] plain(d, pointer_json(class, name)),
{
}

pub broadcast proof fn lemma_identified_plain(
    d: int,
    kind: Seq<char>,
    name: Seq<char>,
    imported: Option<Seq<char>>,
)
    ensures
        d >= 0 ==> #[trigger] tidy(d, identified_of(kind, name, imported)),
{
    broadcast use lemma_tidy_put;

    reveal(identified_of);
    assert(tidy(d, Entries::empty()));
}

pub broadcast proof fn lemma_count_plain(d: int, n: nat)
    ensures
        d >= 0 && n <= u64::MAX ==> #[trigger] plain(d, uint_json(n)),
{
    if n <= u64::MAX {
        assert(printed(dec_of(n)));
    }
}

pub broadcast proof fn lemma_float_plain(d: int, m: Sem, x: Bits)
    ensures
        d >= 0 ==> #[trigger] plain(d, float_json(m, x)),
{
    let t = float_text(m, x);
    if let Ok(JsonV::Num(u)) = json_parse(t) {
        assert(reads_as(t, JsonV::Num(u)));
        assert(printed(u));
    }
}

pub broadcast proof fn lemma_num_plain(d: int, w: WriterV, m: Sem, v: Bits, what: Seq<char>)
    ensures
        d >= 0 ==> #[trigger] plain(d, w.num(m, v, what).1),
{
    lemma_float_plain(d, m, v);
    lemma_count_plain(d, 0);
    reveal(WriterV::num);
}

pub broadcast proof fn lemma_base_plain(
    d: int,
    w: WriterV,
    m: Sem,
    o: Entries,
    bus: Seq<char>,
)
    ensures
        d >= 0 && tidy(d, o) ==> #[trigger] tidy(d, w.put_base(m, o, bus)),
{
    broadcast use {lemma_tidy_put, lemma_pointer_plain};

    reveal(WriterV::put_base);
}

pub broadcast group group_plain {
    lemma_plain_object,
    lemma_plain_list,
    lemma_tidy_put,
    lemma_pointer_plain,
    lemma_identified_plain,
    lemma_count_plain,
    lemma_float_plain,
    lemma_num_plain,
    lemma_base_plain,
}

pub broadcast proof fn lemma_terminal_plain(
    d: int,
    owner: Seq<char>,
    seq: nat,
    node: Seq<char>,
    code: Seq<char>,
    limits: Option<Seq<char>>,
)
    ensures
        d >= 1 && seq <= u64::MAX ==> #[trigger] plain(
            d,
            terminal_json(owner, seq, node, code, limits),
        ),
{
    broadcast use group_plain;

    reveal(terminal_json);
}

/// What the writer has gathered is plain.
pub open spec fn gathered_plain(d: int, w: WriterV) -> bool {
    &&& tidy(d, w.limit_sets)
    &&& tidy(d, w.responses)
    &&& tidy(d, w.profiles)
}

// ---- limits ----------------------------------------------------------------

proof fn lemma_current_limit(
    d: int,
    w: WriterV,
    m: Sem,
    name: Seq<char>,
    suffix: Seq<char>,
    value: Bits,
    norm: Bits,
    ty: Seq<char>,
)
    requires
        d >= 3,
    ensures
        even(w.use_type(ty), w.current_limit(m, name, suffix, value, norm, ty).0),
        plain(d, w.current_limit(m, name, suffix, value, norm, ty).1),
{
    broadcast use {group_plain, group_even};

    reveal(WriterV::current_limit);
}

proof fn lemma_voltage_limit(
    d: int,
    w: WriterV,
    m: Sem,
    name: Seq<char>,
    suffix: Seq<char>,
    value: Bits,
    normal: Option<Bits>,
    ty: Seq<char>,
)
    requires
        d >= 3,
    ensures
        even(w.use_type(ty), w.voltage_limit(m, name, suffix, value, normal, ty).0),
        plain(d, w.voltage_limit(m, name, suffix, value, normal, ty).1),
{
    broadcast use {group_plain, group_even};

    reveal(WriterV::voltage_limit);
}

proof fn lemma_current_set(d: int, w: WriterV, m: Sem, norm: Bits, emerg: Bits)
    requires
        d >= 8,
    ensures
        gathered_plain(d, w) ==> gathered_plain(d, w.current_limit_set(m, norm, emerg).0),
        w.current_limit_set(m, norm, emerg).0.bases == w.bases,
{
    broadcast use {group_plain, group_even};

    reveal(WriterV::current_limit_set);
    let name = "OpLimI_"@ + shown(m, norm) + "_"@ + shown(m, emerg);
    lemma_current_limit(d - 2, w, m, name, "Norm"@, norm, norm, "absoluteValueType_5000000000.0s"@);
    let (v, a) = w.current_limit(
        m,
        name,
        "Norm"@,
        norm,
        norm,
        "absoluteValueType_5000000000.0s"@,
    );
    lemma_current_limit(d - 2, v, m, name, "Emerg"@, emerg, norm, "absoluteValueType_86400.0s"@);
    let (_u, b) = v.current_limit(
        m,
        name,
        "Emerg"@,
        emerg,
        norm,
        "absoluteValueType_86400.0s"@,
    );
    assert(all_plain(d - 2, seq![a, b]));
}

proof fn lemma_voltage_set(
    d: int,
    w: WriterV,
    m: Sem,
    low: Bits,
    high: Bits,
    normal: Option<Bits>,
)
    requires
        d >= 8,
    ensures
        gathered_plain(d, w) ==> gathered_plain(d, w.voltage_limit_set(m, low, high, normal).0),
        w.voltage_limit_set(m, low, high, normal).0.bases == w.bases,
{
    broadcast use {group_plain, group_even};

    reveal(WriterV::voltage_limit_set);
    let name = "OpLimV_"@ + shown(m, low) + "-"@ + shown(m, high);
    lemma_voltage_limit(d - 2, w, m, name, "RangeAlow"@, low, normal, "lowType_5000000000.0s"@);
    let (v, a) = w.voltage_limit(
        m,
        name,
        "RangeAlow"@,
        low,
        normal,
        "lowType_5000000000.0s"@,
    );
    lemma_voltage_limit(d - 2, v, m, name, "RangeAhigh"@, high, normal, "highType_5000000000.0s"@);
    let (_u, b) = v.voltage_limit(
        m,
        name,
        "RangeAhigh"@,
        high,
        normal,
        "highType_5000000000.0s"@,
    );
    assert(all_plain(d - 2, seq![a, b]));
}

proof fn lemma_ampacity(d: int, w: WriterV, m: Sem, norm: Option<Bits>, emerg: Option<Bits>)
    requires
        d >= 8,
    ensures
        gathered_plain(d, w) ==> gathered_plain(d, w.ampacity(m, norm, emerg).0),
        w.ampacity(m, norm, emerg).0.bases == w.bases,
{
    match (norm, emerg) {
        (Some(n), Some(e)) => {
            lemma_current_set(d, w, m, n, e);
        },
        (None, Some(e)) => {
            lemma_current_set(d, w, m, e, e);
        },
        (Some(n), None) => {
            lemma_current_set(d, w, m, n, n);
        },
        (None, None) => {},
    }
}

proof fn lemma_bus_limit(d: int, w: WriterV, m: Sem, net: DistNetworkV, bus: Seq<char>)
    requires
        d >= 8,
    ensures
        gathered_plain(d, w) ==> gathered_plain(d, w.bus_voltage_limit(m, net, bus).0),
        w.bus_voltage_limit(m, net, bus).0.bases == w.bases,
{
    reveal(WriterV::bus_voltage_limit);
    if let Some(b) = net.bus(bus) {
        if b.v_min is Some && b.v_max is Some {
            lemma_voltage_set(d, w, m, b.v_min->0, b.v_max->0, w.base_of(bus));
        }
    }
}

proof fn lemma_add_type(
    d: int,
    w: WriterV,
    m: Sem,
    t: Entries,
    name: Seq<char>,
    direction: Seq<char>,
    duration: Bits,
)
    requires
        d >= 8,
    ensures
        even(w, w.add_type(m, t, name, direction, duration).0),
        tidy(d, t) ==> tidy(d, w.add_type(m, t, name, direction, duration).1),
{
    broadcast use {group_plain, group_even};

}

pub proof fn lemma_limit_types(d: int, w: WriterV, m: Sem)
    requires
        d >= 8,
    ensures
        even(w, w.limit_types(m).0),
        tidy(d, w.limit_types(m).1),
{
    reveal(WriterV::limit_types);
    let none = Entries::empty();
    lemma_add_type(d, w, m, none, "lowType_5000000000.0s"@, "low"@, FIVE_BILLION);
    let (w1, t1) = w.add_type(m, none, "lowType_5000000000.0s"@, "low"@, FIVE_BILLION);
    lemma_add_type(d, w1, m, t1, "highType_5000000000.0s"@, "high"@, FIVE_BILLION);
    let (w2, t2) = w1.add_type(m, t1, "highType_5000000000.0s"@, "high"@, FIVE_BILLION);
    lemma_add_type(
        d,
        w2,
        m,
        t2,
        "absoluteValueType_5000000000.0s"@,
        "absoluteValue"@,
        FIVE_BILLION,
    );
    let (w3, t3) = w2.add_type(
        m,
        t2,
        "absoluteValueType_5000000000.0s"@,
        "absoluteValue"@,
        FIVE_BILLION,
    );
    lemma_add_type(d, w3, m, t3, "absoluteValueType_86400.0s"@, "absoluteValue"@, DAY);
}

// ---- lines -----------------------------------------------------------------

proof fn lemma_row_plain(d: int, w: WriterV, m: Sem, c: DistLineCodeV, row: nat, col: nat)
    requires
        d >= 3,
        row < u64::MAX,
        col < u64::MAX,
    ensures
        even(w, row_json(w, m, c, row, col).0),
        plain(d, row_json(w, m, c, row, col).1),
{
    broadcast use {group_plain, group_even};

    reveal(row_json);
}

proof fn lemma_column_plain(
    d: int,
    w: WriterV,
    m: Sem,
    c: DistLineCodeV,
    rows: Seq<JsonV>,
    col: nat,
    end: nat,
)
    requires
        d >= 3,
        end <= u64::MAX,
    ensures
        even(w, column_json(w, m, c, rows, col, end).0),
        all_plain(d, rows) ==> all_plain(d, column_json(w, m, c, rows, col, end).1),
    decreases end,
{
    if end > col {
        lemma_column_plain(d, w, m, c, rows, col, (end - 1) as nat);
        let before = column_json(w, m, c, rows, col, (end - 1) as nat);
        lemma_row_plain(d, before.0, m, c, (end - 1) as nat, col);
    }
}

proof fn lemma_columns_plain(d: int, w: WriterV, m: Sem, c: DistLineCodeV, col: nat)
    requires
        d >= 3,
        col <= u64::MAX,
    ensures
        even(w, columns_json(w, m, c, col).0),
        all_plain(d, columns_json(w, m, c, col).1),
    decreases col,
{
    if col > 0 {
        lemma_columns_plain(d, w, m, c, (col - 1) as nat);
        let before = columns_json(w, m, c, (col - 1) as nat);
        lemma_column_plain(d, before.0, m, c, before.1, (col - 1) as nat, c.n_conductors as nat);
    }
}

#[verifier::rlimit(40)]
proof fn lemma_linecode_plain(d: int, w: WriterV, m: Sem, c: DistLineCodeV)
    requires
        d >= 8,
    ensures
        even(w, linecode_json(w, m, c).0),
        plain(d, linecode_json(w, m, c).1),
{
    broadcast use {group_plain, group_even};

    lemma_columns_plain(d - 2, w, m, c, c.n_conductors as nat);
    let v = w.warn(
        "linecode "@ + c.name + ": "@ + dec_of(c.n_conductors as nat)
            + " conductors exceed the four CIM SinglePhaseKind identities (A/B/C/N); the impedance matrix is written in full, but conductors beyond the fourth have no phase representation on the lines that use it, so a reparse cannot recover their terminal assignment"@,
    );
    lemma_columns_plain(d - 2, v, m, c, c.n_conductors as nat);
}

pub proof fn lemma_linecodes_plain(d: int, w: WriterV, m: Sem, s: Seq<DistLineCodeV>, n: nat)
    requires
        d >= 8,
    ensures
        even(w, linecodes_json(w, m, s, n).0),
        tidy(d, linecodes_json(w, m, s, n).1),
    decreases n,
{
    broadcast use {group_plain, group_even};

    if n > 0 {
        lemma_linecodes_plain(d, w, m, s, (n - 1) as nat);
        lemma_linecode_plain(d, linecodes_json(w, m, s, (n - 1) as nat).0, m, s[n - 1]);
    }
}

proof fn lemma_letters_fit(map: Seq<Seq<char>>, n: nat)
    ensures
        hot_letters_n(map, n).len() <= n,
    decreases n,
{
    if n > 0 {
        lemma_letters_fit(map, (n - 1) as nat);
    }
}

proof fn lemma_phases_plain(d: int, name: Seq<char>, letters: Seq<Seq<char>>)
    requires
        d >= 3,
        letters.len() <= u64::MAX,
    ensures
        all_plain(d, line_phases_json(name, letters)),
{
    broadcast use {group_plain, group_even};

    let items = line_phases_json(name, letters);
    assert forall|i: int| 0 <= i < items.len() implies plain(d, #[trigger] items[i]) by {
        reveal(line_phase_json);
    }
}

#[verifier::rlimit(40)]
pub proof fn lemma_line_plain(d: int, w: WriterV, m: Sem, net: DistNetworkV, line: DistLineV)
    requires
        d >= 8,
        line.terminal_map_from.len() <= u64::MAX,
    ensures
        gathered_plain(d, w) ==> gathered_plain(d, line_json(w, m, net, line).0),
        line_json(w, m, net, line).0.bases == w.bases,
        plain(d, line_json(w, m, net, line).1),
{
    broadcast use {group_plain, group_even, lemma_terminal_plain};

    lemma_letters_fit(line.terminal_map_from, line.terminal_map_from.len());
    let what = "line "@ + line.name;
    let o = identified_of("ACLineSegment"@, line.name, extras_mrid_of(line.extras));
    let o = put_of(o, "Equipment.inService"@, JsonV::Bool(true));
    let o = w.put_base(m, o, line.bus_from);
    let (w1, o1) = w.put_num(m, o, "Conductor.length"@, line.length, what);
    let w2 = if line.terminal_map_to != line.terminal_map_from {
        w1.warn(
            what
                + ": the two terminal maps differ; MG-RAVENS carries one phase list per segment, so the from side wins"@,
        )
    } else {
        w1
    };
    let norm = extra_num(m, line.extras, "normamps"@);
    let emerg = line_rating(net, line.linecode);
    lemma_ampacity(d, w2, m, norm, emerg);
    let limit = w2.ampacity(m, norm, emerg).1;
    let code = hot_code_of(line.terminal_map_from);
    assert(all_plain(
        d - 2,
        seq![
            terminal_json(line.name, 1, line.bus_from, code, limit),
            terminal_json(line.name, 2, line.bus_to, code, limit),
        ],
    ));
    lemma_phases_plain(d - 2, line.name, hot_letters_of(line.terminal_map_from));
}

proof fn lemma_lines_plain(d: int, w: WriterV, m: Sem, net: DistNetworkV, n: nat)
    requires
        d >= 8,
        n <= net.lines.len(),
        forall|i: int|
            0 <= i < net.lines.len() ==> (#[trigger] net.lines[i]).terminal_map_from.len()
                <= u64::MAX,
    ensures
        gathered_plain(d, w) ==> gathered_plain(d, lines_json(w, m, net, n).0),
        lines_json(w, m, net, n).0.bases == w.bases,
        tidy(d, lines_json(w, m, net, n).1),
    decreases n,
{
    broadcast use {group_plain, group_even};

    if n > 0 {
        lemma_lines_plain(d, w, m, net, (n - 1) as nat);
        lemma_line_plain(d, lines_json(w, m, net, (n - 1) as nat).0, m, net, net.lines[n - 1]);
    }
}

proof fn lemma_sides_plain(
    d: int,
    name: Seq<char>,
    from: Seq<Seq<char>>,
    to: Seq<Seq<char>>,
    n: nat,
)
    requires
        d >= 3,
    ensures
        all_plain(d, sides_json(name, from, to, n)),
    decreases n,
{
    broadcast use {group_plain, group_even};

    if n > 0 {
        lemma_sides_plain(d, name, from, to, (n - 1) as nat);
        reveal(side_json);
    }
}

#[verifier::rlimit(40)]
proof fn lemma_switch_plain(d: int, w: WriterV, m: Sem, s: DistSwitchV)
    requires
        d >= 8,
    ensures
        gathered_plain(d, w) ==> gathered_plain(d, switch_json(w, m, s).0),
        switch_json(w, m, s).0.bases == w.bases,
        plain(d, switch_json(w, m, s).1),
{
    broadcast use {group_plain, group_even, lemma_terminal_plain};

    let norm = extra_num(m, s.extras, "normamps"@);
    let emerg = first_rating(s.i_max);
    lemma_ampacity(d, w, m, norm, emerg);
    let limit = w.ampacity(m, norm, emerg).1;
    assert(all_plain(
        d - 2,
        seq![
            terminal_json(s.name, 1, s.bus_from, hot_code_of(s.terminal_map_from), limit),
            terminal_json(s.name, 2, s.bus_to, hot_code_of(s.terminal_map_to), limit),
        ],
    ));
    lemma_sides_plain(
        d - 2,
        s.name,
        s.terminal_map_from,
        s.terminal_map_to,
        min_nat(s.terminal_map_from.len(), s.terminal_map_to.len()),
    );
}

proof fn lemma_switches_plain(d: int, w: WriterV, m: Sem, s: Seq<DistSwitchV>, n: nat)
    requires
        d >= 8,
    ensures
        gathered_plain(d, w) ==> gathered_plain(d, switches_json(w, m, s, n).0),
        switches_json(w, m, s, n).0.bases == w.bases,
        tidy(d, switches_json(w, m, s, n).1),
    decreases n,
{
    broadcast use {group_plain, group_even};

    if n > 0 {
        lemma_switches_plain(d, w, m, s, (n - 1) as nat);
        lemma_switch_plain(d, switches_json(w, m, s, (n - 1) as nat).0, m, s[n - 1]);
    }
}

// ---- loads -----------------------------------------------------------------

proof fn lemma_shared_plain(d: int, w: WriterV, m: Sem, name: Seq<char>, field: Seq<char>)
    requires
        d >= 8,
    ensures
        gathered_plain(d, w) ==> gathered_plain(d, w.shared_response(m, name, field)),
        w.shared_response(m, name, field).bases == w.bases,
{
    broadcast use {group_plain, group_even};

    reveal(WriterV::shared_response);
}

pub broadcast proof fn lemma_share_plain(
    d: int,
    w: WriterV,
    m: Sem,
    o: Entries,
    what: Seq<char>,
    key: Seq<char>,
    v: Seq<Bits>,
)
    ensures
        d >= 0 && tidy(d, o) ==> #[trigger] tidy(d, w.put_share(m, o, what, key, v).1),
{
    broadcast use {group_plain, group_even};

    reveal(WriterV::put_share);
}

#[verifier::rlimit(40)]
proof fn lemma_response_plain(d: int, w: WriterV, m: Sem, load: DistLoadV)
    requires
        d >= 8,
    ensures
        gathered_plain(d, w) ==> gathered_plain(d, w.load_response(m, load).0),
        w.load_response(m, load).0.bases == w.bases,
{
    broadcast use {group_plain, group_even, lemma_share_plain, lemma_share_even};

    reveal(WriterV::load_response);
    lemma_shared_plain(d, w, m, "Constant kVA"@, "ConstantPower"@);
    lemma_shared_plain(d, w, m, "Constant I"@, "ConstantCurrent"@);
    lemma_shared_plain(d, w, m, "Constant Z"@, "ConstantImpedance"@);
}

#[verifier::rlimit(40)]
proof fn lemma_profile_plain(
    d: int,
    w: WriterV,
    m: Sem,
    o: Entries,
    load: DistLoadV,
    net: DistNetworkV,
)
    requires
        d >= 7,
    ensures
        gathered_plain(d + 1, w) ==> gathered_plain(d + 1, w.attach_profile(m, o, load, net).0),
        w.attach_profile(m, o, load, net).0.bases == w.bases,
        tidy(d, o) ==> tidy(d, w.attach_profile(m, o, load, net).1),
{
    broadcast use {group_plain, group_even};

    reveal(WriterV::attach_profile);
}

pub proof fn lemma_load_phases_plain(
    d: int,
    w: WriterV,
    m: Sem,
    load: DistLoadV,
    letters: Seq<Seq<char>>,
    n: nat,
)
    requires
        d >= 3,
    ensures
        even(w, load_phases_json(w, m, load, letters, n).0),
        all_plain(d, load_phases_json(w, m, load, letters, n).1),
    decreases n,
{
    broadcast use {group_plain, group_even};

    if n > 0 {
        lemma_load_phases_plain(d, w, m, load, letters, (n - 1) as nat);
        reveal(load_phase_json);
    }
}

#[verifier::rlimit(40)]
proof fn lemma_head_plain(d: int, w: WriterV, m: Sem, net: DistNetworkV, load: DistLoadV)
    requires
        d >= 7,
    ensures
        gathered_plain(d + 1, w) ==> gathered_plain(d + 1, load_head(w, m, net, load).0),
        load_head(w, m, net, load).0.bases == w.bases,
        tidy(d, load_head(w, m, net, load).1),
{
    broadcast use {group_plain, group_even};

    reveal(load_head);
    let what = "load "@ + load.name;
    let delta = load.configuration == Configuration::Delta;
    let grounded = !delta && load.terminal_map.contains("4"@);
    let o = identified_of("EnergyConsumer"@, load.name, extras_mrid_of(load.extras));
    let (w1, p) = w.num(m, sum_of(m, load.p_nom), what);
    let (w2, q) = w1.num(m, sum_of(m, load.q_nom), what);
    let o = put_of(o, "EnergyConsumer.p"@, p);
    let o = put_of(o, "EnergyConsumer.q"@, q);
    let o = put_of(o, "EnergyConsumer.grounded"@, JsonV::Bool(grounded));
    let w3 = if grounded {
        w2.ground(load.bus)
    } else {
        w2
    };
    let o = put_of(o, "Equipment.inService"@, JsonV::Bool(true));
    let o = w3.put_base(m, o, load.bus);
    let kind = "PhaseShuntConnectionKind."@ + if delta {
        "D"@
    } else {
        "Y"@
    };
    let o = put_of(o, "EnergyConsumer.phaseConnection"@, JsonV::Str(kind));
    lemma_response_plain(d + 1, w3, m, load);
    let (w4, response) = w3.load_response(m, load);
    let o = put_of(
        o,
        "EnergyConsumer.LoadResponse"@,
        pointer_json("LoadResponseCharacteristic"@, response),
    );
    lemma_profile_plain(d, w4, m, o, load, net);
}

#[verifier::rlimit(40)]
proof fn lemma_load_plain(d: int, w: WriterV, m: Sem, net: DistNetworkV, load: DistLoadV)
    requires
        d >= 8,
    ensures
        gathered_plain(d, w) ==> gathered_plain(d, load_json(w, m, net, load).0),
        load_json(w, m, net, load).0.bases == w.bases,
        plain(d, load_json(w, m, net, load).1),
{
    broadcast use {group_plain, group_even, lemma_terminal_plain};

    reveal(load_json);
    let letters = hot_letters_of(load.terminal_map);
    lemma_head_plain(d - 1, w, m, net, load);
    let (w1, o1) = load_head(w, m, net, load);
    lemma_load_phases_plain(d - 2, w1, m, load, letters, letters.len());
    let (w2, phases) = load_phases_json(w1, m, load, letters, letters.len());
    let kept = if spans_pair(load) {
        phases.take(1)
    } else {
        phases
    };
    assert(all_plain(d - 2, kept)) by {
        assert forall|i: int| 0 <= i < kept.len() implies plain(d - 2, #[trigger] kept[i]) by {
            assert(kept[i] == phases[i]);
        }
    }
    lemma_bus_limit(d, w2, m, net, load.bus);
    let limit = w2.bus_voltage_limit(m, net, load.bus).1;
    assert(all_plain(
        d - 2,
        seq![terminal_json(load.name, 1, load.bus, hot_code_of(load.terminal_map), limit)],
    ));
}

proof fn lemma_loads_plain(d: int, w: WriterV, m: Sem, net: DistNetworkV, n: nat)
    requires
        d >= 8,
    ensures
        gathered_plain(d, w) ==> gathered_plain(d, loads_json(w, m, net, n).0),
        loads_json(w, m, net, n).0.bases == w.bases,
        tidy(d, loads_json(w, m, net, n).1),
    decreases n,
{
    broadcast use {group_plain, group_even};

    if n > 0 {
        lemma_loads_plain(d, w, m, net, (n - 1) as nat);
        lemma_load_plain(d, loads_json(w, m, net, (n - 1) as nat).0, m, net, net.loads[n - 1]);
    }
}

// ---- sites -----------------------------------------------------------------

#[verifier::rlimit(40)]
proof fn lemma_shunt_plain(d: int, w: WriterV, m: Sem, s: DistShuntV)
    requires
        d >= 8,
    ensures
        even(w, shunt_json(w, m, s).0),
        plain(d, shunt_json(w, m, s).1),
{
    broadcast use {group_plain, group_even, lemma_terminal_plain};

    reveal(shunt_json);
    assert(all_plain(
        d - 2,
        seq![terminal_json(s.name, 1, s.bus, full_code_of(s.terminal_map), None)],
    ));
}

pub proof fn lemma_shunts_plain(d: int, w: WriterV, m: Sem, s: Seq<DistShuntV>, n: nat)
    requires
        d >= 8,
    ensures
        even(w, shunts_json(w, m, s, n).0),
        tidy(d, shunts_json(w, m, s, n).1),
    decreases n,
{
    broadcast use {group_plain, group_even};

    if n > 0 {
        lemma_shunts_plain(d, w, m, s, (n - 1) as nat);
        lemma_shunt_plain(d, shunts_json(w, m, s, (n - 1) as nat).0, m, s[n - 1]);
    }
}

#[verifier::rlimit(40)]
proof fn lemma_machine_plain(d: int, w: WriterV, m: Sem, g: DistGeneratorV)
    requires
        d >= 8,
    ensures
        even(w, machine_json(w, m, g).0),
        plain(d, machine_json(w, m, g).1),
{
    broadcast use {group_plain, group_even, lemma_terminal_plain};

    reveal(machine_json);
    assert(all_plain(
        d - 2,
        seq![terminal_json(g.name, 1, g.bus, hot_code_of(g.terminal_map), None)],
    ));
}

pub proof fn lemma_machines_plain(d: int, w: WriterV, m: Sem, s: Seq<DistGeneratorV>, n: nat)
    requires
        d >= 8,
    ensures
        even(w, machines_json(w, m, s, n).0),
        tidy(d, machines_json(w, m, s, n).1),
    decreases n,
{
    broadcast use {group_plain, group_even};

    if n > 0 {
        lemma_machines_plain(d, w, m, s, (n - 1) as nat);
        lemma_machine_plain(d, machines_json(w, m, s, (n - 1) as nat).0, m, s[n - 1]);
    }
}

/// What an inverter carries over from where it was read is plain.
pub open spec fn carries_plain(d: int, ibr: DistIbrV) -> bool {
    &&& plain_under(d, ibr.extras, "ravens_rated_e"@)
    &&& plain_under(d, ibr.extras, "ravens_stored_e"@)
    &&& plain_under(d, ibr.extras, "ravens_battery_efficiency"@)
}

pub open spec fn plain_under(d: int, o: Entries, k: Seq<char>) -> bool {
    get_of(o, k) matches Some(v) ==> plain(d, v)
}

proof fn lemma_carry_plain(
    d: int,
    o: Entries,
    extras: Entries,
    key: Seq<char>,
    prop: Seq<char>,
)
    requires
        plain_under(d, extras, key),
    ensures
        tidy(d, o) ==> tidy(d, carry(o, extras, key, prop)),
{
    broadcast use {group_plain, group_even};

}

#[verifier::rlimit(40)]
proof fn lemma_unit_plain(d: int, w: WriterV, m: Sem, ibr: DistIbrV, what: Seq<char>)
    requires
        d >= 7,
        carries_plain(d - 1, ibr),
    ensures
        even(w, unit_json(w, m, ibr, what).0),
        unit_json(w, m, ibr, what).1 matches Some(u) ==> plain(d, u) && u is Obj,
{
    broadcast use {group_plain, group_even};

    reveal(unit_json);
    if ibr.prime_mover == IbrPrimeMover::Battery {
        let u = identified_of("BatteryUnit"@, ibr.name + "_Battery"@, None);
        let (_v, u1) = unit_bounds_of(w, m, u, ibr, what);
        assert(plain_under(d - 1, ibr.extras, "ravens_rated_e"@));
        assert(plain_under(d - 1, ibr.extras, "ravens_stored_e"@));
        assert(plain_under(d - 1, ibr.extras, "ravens_battery_efficiency"@));
        lemma_carry_plain(d - 1, u1, ibr.extras, "ravens_rated_e"@, "BatteryUnit.ratedE"@);
        let u2 = carry(u1, ibr.extras, "ravens_rated_e"@, "BatteryUnit.ratedE"@);
        lemma_carry_plain(d - 1, u2, ibr.extras, "ravens_stored_e"@, "BatteryUnit.storedE"@);
        let u3 = carry(u2, ibr.extras, "ravens_stored_e"@, "BatteryUnit.storedE"@);
        lemma_carry_plain(
            d - 1,
            u3,
            ibr.extras,
            "ravens_battery_efficiency"@,
            "BatteryUnit.BatteryUnitEfficiency"@,
        );
    }
}

#[verifier::rlimit(40)]
proof fn lemma_inverter_plain(d: int, w: WriterV, m: Sem, ibr: DistIbrV)
    requires
        d >= 8,
        carries_plain(d - 2, ibr),
    ensures
        even(w, electronics_json(w, m, ibr).0),
        plain(d, electronics_json(w, m, ibr).1),
{
    broadcast use {group_plain, group_even, lemma_terminal_plain};

    reveal(electronics_json);
    assert forall|v: WriterV| even(v, (#[trigger] unit_json(v, m, ibr, "ibr "@ + ibr.name)).0) && (
    unit_json(v, m, ibr, "ibr "@ + ibr.name).1 matches Some(u) ==> plain(d - 1, u) && u is Obj) by {
        lemma_unit_plain(d - 1, v, m, ibr, "ibr "@ + ibr.name);
    }
    assert(all_plain(
        d - 2,
        seq![terminal_json(ibr.name, 1, ibr.bus, hot_code_of(ibr.terminal_map), None)],
    ));
}

proof fn lemma_inverters_plain(d: int, w: WriterV, m: Sem, s: Seq<DistIbrV>, n: nat)
    requires
        d >= 8,
        n <= s.len(),
        forall|i: int| 0 <= i < s.len() ==> carries_plain(d - 2, #[trigger] s[i]),
    ensures
        even(w, all_electronics_json(w, m, s, n).0),
        tidy(d, all_electronics_json(w, m, s, n).1),
    decreases n,
{
    broadcast use {group_plain, group_even};

    if n > 0 {
        lemma_inverters_plain(d, w, m, s, (n - 1) as nat);
        lemma_inverter_plain(d, all_electronics_json(w, m, s, (n - 1) as nat).0, m, s[n - 1]);
    }
}

#[verifier::rlimit(40)]
proof fn lemma_source_plain(d: int, w: WriterV, m: Sem, s: VoltageSourceV)
    requires
        d >= 8,
    ensures
        even(w, source_json(w, m, s).0),
        plain(d, source_json(w, m, s).1),
{
    broadcast use {group_plain, group_even, lemma_terminal_plain};

    reveal(source_json);
    assert(all_plain(
        d - 2,
        seq![terminal_json(s.name, 1, s.bus, hot_code_of(s.terminal_map), None)],
    ));
}

pub proof fn lemma_sources_plain(d: int, w: WriterV, m: Sem, s: Seq<VoltageSourceV>, n: nat)
    requires
        d >= 8,
    ensures
        even(w, sources_json(w, m, s, n).0),
        tidy(d, sources_json(w, m, s, n).1),
    decreases n,
{
    broadcast use {group_plain, group_even};

    if n > 0 {
        lemma_sources_plain(d, w, m, s, (n - 1) as nat);
        lemma_source_plain(d, sources_json(w, m, s, (n - 1) as nat).0, m, s[n - 1]);
    }
}

// ---- transformers ----------------------------------------------------------

#[verifier::rlimit(40)]
proof fn lemma_end_plain(d: int, w: WriterV, m: Sem, xf: DistTransformerV, k: nat)
    requires
        d >= 4,
        k < u64::MAX,
    ensures
        even(w, end_json(w, m, xf, k).0),
        plain(d, end_json(w, m, xf, k).1),
{
    broadcast use {group_plain, group_even, lemma_terminal_plain};

    reveal(end_json);
    let wd = xf.windings[k as int];
    assert(all_plain(
        d - 2,
        seq![
            terminal_json(
                xf.name + "_E"@ + dec_of(k + 1),
                1,
                wd.bus,
                hot_code_of(wd.terminal_map),
                None,
            ),
        ],
    ));
}

#[verifier::rlimit(40)]
proof fn lemma_info_plain(d: int, w: WriterV, m: Sem, xf: DistTransformerV, k: nat)
    requires
        d >= 0,
        k < u64::MAX,
    ensures
        even(w, info_json(w, m, xf, k).0),
        tidy(d, info_json(w, m, xf, k).1),
{
    broadcast use {group_plain, group_even};

    reveal(info_json);
}

/// Records that are all tidy.
pub open spec fn all_tidy(d: int, s: Seq<Entries>) -> bool {
    forall|i: int| 0 <= i < s.len() ==> tidy(d, #[trigger] s[i])
}

pub proof fn lemma_windings_plain(
    d: int,
    e: int,
    w: WriterV,
    m: Sem,
    xf: DistTransformerV,
    n: nat,
)
    requires
        d >= 4,
        e >= 0,
        n <= u64::MAX,
    ensures
        even(w, windings_json(w, m, xf, n).0),
        all_plain(d, windings_json(w, m, xf, n).1),
        all_tidy(e, windings_json(w, m, xf, n).2),
        windings_json(w, m, xf, n).2.len() == n,
    decreases n,
{
    if n > 0 {
        lemma_windings_plain(d, e, w, m, xf, (n - 1) as nat);
        let before = windings_json(w, m, xf, (n - 1) as nat);
        lemma_end_plain(d, before.0, m, xf, (n - 1) as nat);
        let v = end_json(before.0, m, xf, (n - 1) as nat).0;
        lemma_info_plain(e, v, m, xf, (n - 1) as nat);
    }
}

#[verifier::rlimit(40)]
proof fn lemma_circuit_plain(d: int, w: WriterV, m: Sem, xf: DistTransformerV, base: Bits)
    requires
        d >= 3,
    ensures
        even(w, circuit_json(w, m, xf, base).0),
        plain(d, circuit_json(w, m, xf, base).1),
{
    broadcast use {group_plain, group_even};

    reveal(circuit_json);
}

#[verifier::rlimit(40)]
proof fn lemma_noload_plain(d: int, w: WriterV, m: Sem, xf: DistTransformerV)
    requires
        d >= 3,
    ensures
        even(w, noload_json(w, m, xf).0),
        plain(d, noload_json(w, m, xf).1),
{
    broadcast use {group_plain, group_even};

    reveal(noload_json);
}

#[verifier::rlimit(40)]
proof fn lemma_tested_plain(d: int, w: WriterV, m: Sem, xf: DistTransformerV, info: Entries)
    requires
        d >= 5,
    ensures
        even(w, tested_json(w, m, xf, info).0),
        tidy(d, info) ==> tidy(d, tested_json(w, m, xf, info).1),
{
    broadcast use {group_plain, group_even};

    reveal(tested_json);
    assert forall|v: WriterV, b: Bits|
        even(v, (#[trigger] circuit_json(v, m, xf, b)).0) && all_plain(
            d - 1,
            seq![circuit_json(v, m, xf, b).1],
        ) by {
        lemma_circuit_plain(d - 1, v, m, xf, b);
    }
    assert forall|v: WriterV|
        even(v, (#[trigger] noload_json(v, m, xf)).0) && all_plain(
            d - 1,
            seq![noload_json(v, m, xf).1],
        ) by {
        lemma_noload_plain(d - 1, v, m, xf);
    }
}

#[verifier::rlimit(60)]
proof fn lemma_transformer_plain(d: int, w: WriterV, m: Sem, xf: DistTransformerV)
    requires
        d >= 14,
        2 <= xf.windings.len() <= u64::MAX,
    ensures
        even(w, transformer_json(w, m, xf).0),
        plain(d, transformer_json(w, m, xf).1),
        plain(d, transformer_json(w, m, xf).2),
{
    broadcast use {group_plain, group_even};

    reveal(transformer_json);
    lemma_windings_plain(d - 5, d - 7, w, m, xf, xf.windings.len());
    let (v, ends, infos) = windings_json(w, m, xf, xf.windings.len());
    lemma_tested_plain(d - 7, v, m, xf, infos[0]);
    let first = tested_json(v, m, xf, infos[0]).1;
    let all = infos.update(0, first);
    assert(all_plain(d - 6, objects(all))) by {
        assert forall|i: int| 0 <= i < objects(all).len() implies plain(
            d - 6,
            #[trigger] objects(all)[i],
        ) by {
            assert(objects(all)[i] == JsonV::Obj(all[i]));
            if i != 0 {
                assert(all[i] == infos[i]);
            }
        }
    }
    let tank = identified_of("TransformerTank"@, xf.name, None);
    let tank = put_of(
        tank,
        "PowerSystemResource.AssetDatasheet"@,
        pointer_json("TransformerTankInfo"@, xf.name + "_info"@),
    );
    let tank = put_of(tank, "TransformerTank.TransformerTankEnd"@, JsonV::Arr(ends));
    assert(plain(d - 4, JsonV::Arr(ends)));
    assert(tidy(d - 4, tank));
    assert(plain(d - 3, JsonV::Obj(tank)));
    lemma_plain_more(d - 3, d - 2, JsonV::Obj(tank));
    assert(all_plain(d - 2, seq![JsonV::Obj(tank)]));
    let sheet = put_of(
        identified_of("TransformerTankInfo"@, xf.name + "_info"@, None),
        "TransformerTankInfo.TransformerEndInfos"@,
        JsonV::Arr(objects(all)),
    );
    assert(plain(d - 5, JsonV::Arr(objects(all))));
    assert(tidy(d - 5, sheet));
    assert(plain(d - 4, JsonV::Obj(sheet)));
    let inner = put_of(Entries::empty(), xf.name + "_info"@, JsonV::Obj(sheet));
    assert(tidy(d - 4, inner));
    assert(plain(d - 3, JsonV::Obj(inner)));
    lemma_plain_more(d - 3, d - 1, JsonV::Obj(inner));
}

/// The wires of the lines and the windings of the transformers can be numbered.
pub open spec fn countable(net: DistNetworkV) -> bool {
    &&& forall|i: int|
        0 <= i < net.lines.len() ==> (#[trigger] net.lines[i]).terminal_map_from.len() <= u64::MAX
    &&& forall|i: int|
        0 <= i < net.transformers.len() ==> (#[trigger] net.transformers[i]).windings.len()
            <= u64::MAX
}

pub proof fn lemma_transformers_plain(
    d: int,
    w: WriterV,
    m: Sem,
    s: Seq<DistTransformerV>,
    n: nat,
)
    requires
        d >= 14,
        n <= s.len(),
        forall|i: int| 0 <= i < s.len() ==> (#[trigger] s[i]).windings.len() <= u64::MAX,
    ensures
        even(w, transformers_json(w, m, s, n).0),
        tidy(d, transformers_json(w, m, s, n).1),
        tidy(d, transformers_json(w, m, s, n).2),
    decreases n,
{
    broadcast use {group_plain, group_even};

    if n > 0 {
        lemma_transformers_plain(d, w, m, s, (n - 1) as nat);
        if s[n - 1].windings.len() >= 2 {
            let before = transformers_json(w, m, s, (n - 1) as nat);
            lemma_transformer_plain(d, before.0, m, s[n - 1]);
        }
    }
}

// ---- buses and the document ------------------------------------------------

proof fn lemma_location_plain(d: int, m: Sem, name: Seq<char>, east: Bits, north: Bits)
    requires
        d >= 8,
    ensures
        plain(d, location_json(m, name, east, north)),
{
    broadcast use {group_plain, group_even};

    reveal(location_json);
    let p = put_of(
        Entries::empty(),
        "Ravens.cimObjectType"@,
        JsonV::Str("PositionPoint"@),
    );
    let p = put_of(p, "PositionPoint.sequenceNumber"@, uint_json(0));
    let p = put_of(p, "PositionPoint.xPosition"@, JsonV::Str(shown(m, east)));
    let p = put_of(p, "PositionPoint.yPosition"@, JsonV::Str(shown(m, north)));
    assert(all_plain(d - 2, seq![JsonV::Obj(p)]));
}

#[verifier::rlimit(40)]
proof fn lemma_bus_plain(d: int, w: WriterV, m: Sem, b: DistBusV)
    requires
        d >= 8,
    ensures
        gathered_plain(d, w) ==> gathered_plain(d, bus_json(w, m, b).0),
        bus_json(w, m, b).0.bases == w.bases,
        plain(d, bus_json(w, m, b).1),
{
    broadcast use {group_plain, group_even};

    reveal(bus_json);
    if b.v_min is Some && b.v_max is Some {
        lemma_voltage_set(d, w, m, b.v_min->0, b.v_max->0, w.base_of(b.id));
    }
}

proof fn lemma_buses_plain(d: int, w: WriterV, m: Sem, s: Seq<DistBusV>, n: nat)
    requires
        d >= 8,
    ensures
        gathered_plain(d, w) ==> gathered_plain(d, buses_json(w, m, s, n).0),
        buses_json(w, m, s, n).0.bases == w.bases,
        tidy(d, buses_json(w, m, s, n).1),
        tidy(d, buses_json(w, m, s, n).2),
    decreases n,
{
    broadcast use {group_plain, group_even};

    if n > 0 {
        lemma_buses_plain(d, w, m, s, (n - 1) as nat);
        let before = buses_json(w, m, s, (n - 1) as nat);
        lemma_bus_plain(d, before.0, m, s[n - 1]);
        if let Some(l) = s[n - 1].location {
            lemma_location_plain(d, m, s[n - 1].id + "_Location"@, l.x, l.y);
        }
    }
}

/// Tables of plain objects.
pub open spec fn tables_plain(d: int, t: TablesV) -> bool {
    &&& tidy(d, t.linecodes)
    &&& tidy(d, t.lines)
    &&& tidy(d, t.switches)
    &&& tidy(d, t.loads)
    &&& tidy(d, t.shunts)
    &&& tidy(d, t.machines)
    &&& tidy(d, t.electronics)
    &&& tidy(d, t.sources)
    &&& tidy(d, t.transformers)
    &&& tidy(d, t.nodes)
    &&& tidy(d, t.locations)
    &&& tidy(d, t.assets)
}

#[verifier::rlimit(40)]
pub proof fn lemma_tables_plain(d: int, w: WriterV, m: Sem, net: DistNetworkV)
    requires
        d >= 14,
        gathered_plain(d, w),
        forall|i: int| 0 <= i < net.ibrs.len() ==> carries_plain(d - 2, #[trigger] net.ibrs[i]),
        countable(net),
    ensures
        gathered_plain(d, tables_of(w, m, net).0),
        tables_of(w, m, net).0.bases == w.bases,
        tables_plain(d, tables_of(w, m, net).1),
{
    reveal(tables_of);
    lemma_unrepresented_even(w, m, net);
    let w = unrepresented(w, m, net);
    lemma_linecodes_plain(d, w, m, net.linecodes, net.linecodes.len());
    let w = linecodes_json(w, m, net.linecodes, net.linecodes.len()).0;
    lemma_lines_plain(d, w, m, net, net.lines.len());
    let w = lines_json(w, m, net, net.lines.len()).0;
    lemma_switches_plain(d, w, m, net.switches, net.switches.len());
    let w = switches_json(w, m, net.switches, net.switches.len()).0;
    lemma_loads_plain(d, w, m, net, net.loads.len());
    let w = loads_json(w, m, net, net.loads.len()).0;
    lemma_shunts_plain(d, w, m, net.shunts, net.shunts.len());
    let w = shunts_json(w, m, net.shunts, net.shunts.len()).0;
    lemma_machines_plain(d, w, m, net.generators, net.generators.len());
    let w = machines_json(w, m, net.generators, net.generators.len()).0;
    lemma_inverters_plain(d, w, m, net.ibrs, net.ibrs.len());
    let w = all_electronics_json(w, m, net.ibrs, net.ibrs.len()).0;
    lemma_sources_plain(d, w, m, net.sources, net.sources.len());
    let w = sources_json(w, m, net.sources, net.sources.len()).0;
    lemma_transformers_plain(d, w, m, net.transformers, net.transformers.len());
    let w = transformers_json(w, m, net.transformers, net.transformers.len()).0;
    lemma_buses_plain(d, w, m, net.buses, net.buses.len());
}

pub proof fn lemma_base_table_plain(
    d: int,
    w: WriterV,
    m: Sem,
    names: Seq<(Seq<char>, Bits)>,
    n: nat,
)
    requires
        d >= 8,
    ensures
        even(w, base_table(w, m, names, n).0),
        tidy(d, base_table(w, m, names, n).1),
    decreases n,
{
    broadcast use {group_plain, group_even};

    if n > 0 {
        lemma_base_table_plain(d, w, m, names, (n - 1) as nat);
    }
}

pub proof fn lemma_versions_plain(d: int)
    requires
        d >= 2,
    ensures
        plain(d, versions_json()),
{
    broadcast use group_plain;

    reveal(versions_json);
    assert(tidy(d - 2, Entries::empty()));
    assert(tidy(d - 1, Entries::empty()));
}

/// A table goes under a key, one level down.
pub broadcast proof fn lemma_table_plain(d: int, o: Entries, key: Seq<char>, table: Entries)
    ensures
        d >= 1 && tidy(d, o) && tidy(d - 1, table) ==> #[trigger] tidy(
            d,
            put_table(o, key, table),
        ),
{
    broadcast use group_plain;

}


proof fn lemma_equipment_plain(d: int, t: TablesV)
    requires
        d >= 14,
        tables_plain(d, t),
    ensures
        tidy(d + 4, equipment_of(t)),
{
    broadcast use lemma_table_plain;

    reveal(equipment_of);
    lemma_tidy_more(d, d + 2, t.loads);
    lemma_tidy_more(d, d + 2, t.sources);
    lemma_tidy_more(d, d + 1, t.lines);
    lemma_tidy_more(d, d + 2, t.lines);
    lemma_tidy_more(d, d + 3, t.switches);
    lemma_tidy_more(d, d + 3, t.transformers);
    lemma_tidy_more(d, d + 1, t.shunts);
    lemma_tidy_more(d, d + 1, t.machines);
    lemma_tidy_more(d, d + 1, t.electronics);
    let none = Entries::empty();
    assert(tidy(d + 2, none) && tidy(d + 3, none) && tidy(d + 4, none));
    let regulating = put_table(none, "ShuntCompensator"@, t.shunts);
    let regulating = put_table(regulating, "RotatingMachine"@, t.machines);
    let regulating = put_table(regulating, "PowerElectronicsConnection"@, t.electronics);
    assert(tidy(d + 2, regulating));
    let energy = put_table(none, "EnergyConsumer"@, t.loads);
    let energy = put_table(energy, "EnergySource"@, t.sources);
    let energy = put_table(energy, "RegulatingCondEq"@, regulating);
    assert(tidy(d + 3, energy));
    let conductor = put_table(none, "ACLineSegment"@, t.lines);
    assert(tidy(d + 3, conductor));
}

/// The typed part of a document is plain.
#[verifier::rlimit(60)]
proof fn lemma_typed_plain(w: WriterV, m: Sem, net: DistNetworkV)
    requires
        gathered_plain(100, w),
        forall|i: int| 0 <= i < net.ibrs.len() ==> carries_plain(98, #[trigger] net.ibrs[i]),
        countable(net),
    ensures
        tidy(126, typed_of(w, m, net).1),
{
    broadcast use {group_plain, lemma_table_plain};

    reveal(typed_of);
    lemma_tables_plain(100, w, m, net);
    let (v, t) = tables_of(w, m, net);
    lemma_versions_plain(126);
    lemma_equipment_plain(100, t);
    lemma_tidy_more(104, 122, equipment_of(t));
    lemma_tidy_more(100, 125, t.nodes);
    lemma_tidy_more(100, 125, t.locations);
    lemma_tidy_more(100, 123, t.linecodes);
    lemma_tidy_more(100, 124, t.assets);
    let names = base_names(m, v.bases, v.bases.len());
    lemma_base_table_plain(125, v, m, names, names.len());
    let u = base_table(v, m, names, names.len()).0;
    lemma_limit_types(125, u, m);
    lemma_tidy_more(100, 125, u.responses);
    lemma_tidy_more(100, 125, u.limit_sets);
    lemma_tidy_more(100, 125, u.profiles);
    let none = Entries::empty();
    assert(tidy(126, none) && tidy(125, none) && tidy(124, none) && tidy(123, none));
    let conducting = put_table(none, "ConductingEquipment"@, equipment_of(t));
    assert(tidy(123, conducting));
    lemma_tidy_more(123, 124, conducting);
    assert(tidy(125, put_table(none, "Equipment"@, conducting)));
    let codes = put_table(none, "PerLengthPhaseImpedance"@, t.linecodes);
    assert(tidy(124, codes));
    assert(tidy(125, put_table(none, "PerLengthImpedance"@, codes)));
    assert(tidy(125, put_table(none, "PowerTransformerInfo"@, t.assets)));
}

// ---- untyped objects -------------------------------------------------------

proof fn lemma_insert_plain(
    d: int,
    m: Entries,
    path: Seq<Seq<char>>,
    i: nat,
    name: Seq<char>,
    v: JsonV,
)
    requires
        i <= path.len(),
        tidy(d, m),
        plain(d - (path.len() - i), v),
    ensures
        insert_in(m, path, i, name, v) matches Ok(o) ==> tidy(d, o),
    decreases path.len() - i,
{
    broadcast use group_plain;

    if i < path.len() {
        reveal(get_of);
        let k = path[i as int];
        let below = match get_of(m, k) {
            None => Entries::empty(),
            Some(JsonV::Obj(sub)) => sub,
            Some(_) => Entries::empty(),
        };
        if get_of(m, k) is Some {
            let j = lemma_entry_of(m, k, 0);
            assert(plain(d, m[j].1));
        }
        assert(tidy(d - 1, below));
        lemma_insert_plain(d - 1, below, path, i + 1, name, v);
    } else {
        assert(plain(d, v));
    }
}

/// A value nests at most `d` levels deep.
pub open spec fn nests(d: int, v: JsonV) -> bool
    decreases v,
{
    d >= 0 && match v {
        JsonV::Arr(a) => d > 0 && forall|i: int|
            0 <= i < a.len() ==> nests(d - 1, #[trigger] a[i]),
        JsonV::Obj(o) => d > 0 && forall|i: int|
            0 <= i < o.len() ==> nests(d - 1, (#[trigger] o[i]).1),
        _ => true,
    }
}

/// A plain value that nests no deeper than a bound.
pub proof fn lemma_plain_nests(d: int, e: int, v: JsonV)
    requires
        plain(d, v),
        nests(e, v),
    ensures
        plain(e, v),
    decreases v,
{
    match v {
        JsonV::Arr(a) => {
            assert forall|i: int| 0 <= i < a.len() implies plain(e - 1, #[trigger] a[i]) by {
                assert(plain_json(a[i], (d as nat - 1) as nat));
                lemma_plain_nests(d - 1, e - 1, a[i]);
            }
            lemma_plain_list(e, a);
        },
        JsonV::Obj(o) => {
            assert forall|i: int| 0 <= i < o.len() implies plain(e - 1, (#[trigger] o[i]).1) by {
                assert(plain_json(o[i].1, (d as nat - 1) as nat));
                assert(decreases_to!(v => o[i].1));
                lemma_plain_nests(d - 1, e - 1, o[i].1);
            }
            lemma_plain_object(e, o);
        },
        _ => {},
    }
}

/// What an untyped object keeps nests no deeper in its place than what can be
/// read.
pub open spec fn keeps_shallow(u: UntypedObjectV) -> bool {
    let path = untyped_prop(u.props, "ravens_path"@, 0);
    let raw = untyped_prop(u.props, "ravens_json"@, 0);
    path is Some && raw is Some ==> (json_parse(raw->0) matches Ok(v) ==> nests(
        126 - path_keys_of(path->0).len(),
        v,
    ))
}

/// What an untyped object keeps was read, and so is plain.
pub open spec fn keeps_read(u: UntypedObjectV) -> bool {
    untyped_prop(u.props, "ravens_json"@, 0) matches Some(raw) ==> (json_parse(raw) matches Ok(v)
        ==> plain_json(v, 127))
}

proof fn lemma_restored_plain(w: WriterV, root: Entries, s: Seq<UntypedObjectV>, n: nat)
    requires
        n <= s.len(),
        tidy(126, root),
        forall|i: int| 0 <= i < s.len() ==> keeps_shallow(#[trigger] s[i]),
        all_read(s, s.len()),
    ensures
        tidy(126, restored(w, root, s, n).1),
    decreases n,
{
    if n > 0 {
        lemma_restored_plain(w, root, s, (n - 1) as nat);
        reveal(restore_step);
        let before = restored(w, root, s, (n - 1) as nat);
        let u = s[n - 1];
        let p = untyped_prop(u.props, "ravens_path"@, 0);
        let raw = untyped_prop(u.props, "ravens_json"@, 0);
        assert(keeps_shallow(u));
        if p is Some && raw is Some {
            assert(keeps_read(s[n - 1]));
            if let Ok(v) = json_parse(raw->0) {
                lemma_plain_nests(127, 126 - path_keys_of(p->0).len(), v);
                lemma_insert_plain(126, before.1, path_keys_of(p->0), 0, u.name, v);
            }
        }
    }
}

/// What a network takes over from where it was read can be read again: what its
/// untyped objects keep nests no deeper than what can be read, and what its
/// inverters carry is plain.
pub open spec fn shallow(net: DistNetworkV) -> bool {
    &&& forall|i: int| 0 <= i < net.untyped.len() ==> keeps_shallow(#[trigger] net.untyped[i])
    &&& forall|i: int| 0 <= i < net.ibrs.len() ==> carries_plain(98, #[trigger] net.ibrs[i])
}

/// A document is one that its text gives back: its objects are in key order, its
/// numerals are printed ones, and it nests no deeper than what can be read.
pub proof fn lemma_document_is_plain(m: Sem, net: DistNetworkV)
    requires
        shallow(net),
        all_read(net.untyped, net.untyped.len()),
        countable(net),
    ensures
        plain_json(JsonV::Obj(ravens_document(m, net).1), 127),
{
    let w = fresh_writer(bases_of(m, net));
    let root = ravens_document(m, net).1;
    lemma_typed_plain(w, m, net);
    let before = typed_of(w, m, net);
    lemma_restored_plain(before.0, before.1, net.untyped, net.untyped.len());
    assert(root == restored(before.0, before.1, net.untyped, net.untyped.len()).1) by {
        reveal(document_of);
    }
    lemma_plain_object(127, root);
}

} // verus!
