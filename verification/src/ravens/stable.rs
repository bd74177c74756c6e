//! Tables that are written the same when a written document is read and written
//! again.

use vstd::prelude::*;

use crate::json::{Entries, JsonV};
use crate::math::Sem;
use crate::model::{DistBusV, DistLineCodeV, DistLineV, DistNetworkV, DistSwitchV};
use crate::order::{get_of, lemma_put, lemma_sorted_unique, put_of, sorted};
use crate::ravens::accept::lemma_line_mild;
use crate::ravens::doc::{of_kind_n, sorted_kind, ObjV};
use crate::ravens::emit::{extra_num, WriterV};
use crate::ravens::keeps::{group_keeps, group_parts, same_code};
use crate::ravens::lines::{linecodes_n, lines_n, switch_ids, switches_n};
use crate::ravens::only::only_in;
use crate::ravens::rewrite::{
    bus_read, code_read, lemma_code_object_is_stable, lemma_columns_same,
    lemma_line_object_is_stable, lemma_switch_object_is_stable, limit_name, line_read, same_row,
    shunt_halves, switch_read,
};
use crate::ravens::read::buses_n;
use crate::ravens::state::StateV;
use crate::ravens::survive::{
    comes_of_line, comes_of_switch, hot_wires, lemma_line_says, lemma_line_step, lemma_switch_says,
    lemma_switch_step, told, written_tables,
};
use crate::ravens::survive_models::lemma_response_stands_alone;
use crate::ravens::write::{bus_json, buses_json, tables_of};
use crate::ravens::survive_codes::code_told;
use crate::ravens::survive_places::lemma_kind_only;
use crate::ravens::write_lines::{
    columns_json, first_rating, line_json, line_rating, linecode_json, linecodes_json, lines_json,
    switch_json, switches_json,
};

verus! {

// ---- tables ----------------------------------------------------------------

/// The table of the first `n` named values: of two with one name the later stays.
pub open spec fn table_n(s: Entries, n: nat) -> Entries
    decreases n,
{
    if n == 0 {
        Entries::empty()
    } else {
        put_of(table_n(s, (n - 1) as nat), s[n - 1].0, s[n - 1].1)
    }
}

pub open spec fn table_of(s: Entries) -> Entries {
    table_n(s, s.len())
}

pub proof fn lemma_table_sorted(s: Entries, n: nat)
    ensures
        sorted(table_n(s, n)),
    decreases n,
{
    if n > 0 {
        lemma_table_sorted(s, (n - 1) as nat);
        lemma_put(table_n(s, (n - 1) as nat), s[n - 1].0, s[n - 1].1);
    }
}

/// What a table holds under a name is one of the values of the name.
pub proof fn lemma_table_entry(s: Entries, n: nat, k: Seq<char>) -> (i: int)
    requires
        get_of(table_n(s, n), k) is Some,
    ensures
        0 <= i < n,
        s[i].0 == k,
        get_of(table_n(s, n), k) == Some(s[i].1),
    decreases n,
{
    if n == 0 {
        reveal(get_of);
        0
    } else {
        lemma_table_sorted(s, (n - 1) as nat);
        lemma_put(table_n(s, (n - 1) as nat), s[n - 1].0, s[n - 1].1);
        if s[n - 1].0 == k {
            n - 1
        } else {
            lemma_table_entry(s, (n - 1) as nat, k)
        }
    }
}

pub proof fn lemma_table_holds(s: Entries, n: nat, i: int)
    requires
        0 <= i < n,
    ensures
        get_of(table_n(s, n), s[i].0) is Some,
    decreases n,
{
    lemma_table_sorted(s, (n - 1) as nat);
    lemma_put(table_n(s, (n - 1) as nat), s[n - 1].0, s[n - 1].1);
    if i < n - 1 {
        lemma_table_holds(s, (n - 1) as nat, i);
    }
}

/// A value of `b` has a name.
pub open spec fn named_in(b: Entries, k: Seq<char>) -> bool {
    exists|j: int| 0 <= j < b.len() && (#[trigger] b[j]).0 == k
}

/// Two lists make one table, where the values of one are those that the table of
/// the other holds, and every name of the other is among them.
pub proof fn lemma_one_table(a: Entries, b: Entries)
    requires
        forall|j: int|
            0 <= j < b.len() ==> get_of(table_of(a), (#[trigger] b[j]).0) == Some(b[j].1),
        forall|i: int| 0 <= i < a.len() ==> named_in(b, (#[trigger] a[i]).0),
    ensures
        table_of(a) == table_of(b),
{
    lemma_table_sorted(a, a.len());
    lemma_table_sorted(b, b.len());
    assert forall|k: Seq<char>| #[trigger] get_of(table_of(a), k) == get_of(table_of(b), k) by {
        if get_of(table_of(b), k) is Some {
            let j = lemma_table_entry(b, b.len(), k);
            assert(b[j].0 == k);
        } else if get_of(table_of(a), k) is Some {
            let i = lemma_table_entry(a, a.len(), k);
            assert(named_in(b, a[i].0));
            let j = choose|j: int| 0 <= j < b.len() && (#[trigger] b[j]).0 == k;
            lemma_table_holds(b, b.len(), j);
        }
    }
    lemma_sorted_unique(table_of(a), table_of(b));
}

proof fn lemma_line_bases(w: WriterV, m: Sem, net: DistNetworkV, line: DistLineV)
    ensures
        line_json(w, m, net, line).0.bases == w.bases,
{
    lemma_response_stands_alone();
    lemma_line_mild("LoadResponseCharacteristic"@, w, m, net, line);
}

// ---- lines -----------------------------------------------------------------

/// The lines of a network as they are written, by name.
pub open spec fn line_pairs(w: WriterV, m: Sem, net: DistNetworkV) -> Entries {
    Seq::new(
        net.lines.len(),
        |i: int|
            (
                net.lines[i].name,
                line_json(lines_json(w, m, net, i as nat).0, m, net, net.lines[i]).1,
            ),
    )
}

proof fn lemma_line_pairs(w: WriterV, m: Sem, net: DistNetworkV, n: nat)
    requires
        n <= net.lines.len(),
    ensures
        lines_json(w, m, net, n).1 == table_n(line_pairs(w, m, net), n),
        lines_json(w, m, net, n).0.bases == w.bases,
    decreases n,
{
    if n > 0 {
        lemma_line_pairs(w, m, net, (n - 1) as nat);
        lemma_line_bases(lines_json(w, m, net, (n - 1) as nat).0, m, net, net.lines[n - 1]);
    }
}

pub proof fn lemma_line_origin(
    m: Sem,
    doc: Seq<ObjV>,
    st: StateV,
    ids: Seq<usize>,
    n: nat,
    k: int,
) -> (i:
    int)
    requires
        st.net.lines.len() == 0,
        0 <= k < lines_n(m, doc, st, ids, n).net.lines.len(),
    ensures
        0 <= i < n,
        lines_n(m, doc, st, ids, n).net.lines[k] == line_read(
            m,
            doc,
            lines_n(m, doc, st, ids, i as nat),
            doc[ids[i] as int],
        ),
    decreases n,
{
    broadcast use {group_keeps, group_parts};

    let before = lines_n(m, doc, st, ids, (n - 1) as nat);
    if k < before.net.lines.len() {
        let i = lemma_line_origin(m, doc, st, ids, (n - 1) as nat, k);
        i
    } else {
        n - 1
    }
}

/// A line can be written again: its length is told, and it is on some phase.
pub open spec fn line_kept(m: Sem, line: DistLineV) -> bool {
    told(m, line.length) && 0 < hot_wires(line.terminal_map_from).len() < u64::MAX
}

/// The name of the limit set of a line of a network.
pub open spec fn line_limit(m: Sem, net: DistNetworkV, line: DistLineV) -> Option<Seq<char>> {
    limit_name(m, extra_num(m, line.extras, "normamps"@), line_rating(net, line.linecode))
}

/// One line is written the same again.
proof fn lemma_line_again(
    w: WriterV,
    v: WriterV,
    m: Sem,
    net: DistNetworkV,
    other: DistNetworkV,
    i: int,
    j: int,
    doc: Seq<ObjV>,
    st: StateV,
    o: ObjV,
)
    requires
        v.bases == w.bases,
        0 <= i < net.lines.len(),
        0 <= j < other.lines.len(),
        line_pairs(w, m, net)[i] == (o.name, JsonV::Obj(o.props)),
        other.lines[j] == line_read(m, doc, st, o),
        line_kept(m, net.lines[i]),
        line_limit(m, net, net.lines[i]) == line_limit(m, other, other.lines[j]),
    ensures
        line_pairs(v, m, other)[j] == (o.name, JsonV::Obj(o.props)),
{
    reveal(WriterV::base_of);
    let line = net.lines[i];
    lemma_line_pairs(w, m, net, i as nat);
    lemma_line_pairs(v, m, other, j as nat);
    lemma_line_reads(lines_json(w, m, net, i as nat).0, m, net, line, doc, st, o);
    lemma_line_object_is_stable(
        lines_json(w, m, net, i as nat).0,
        lines_json(v, m, other, j as nat).0,
        m,
        net,
        other,
        line,
        doc,
        st,
        o,
    );
}

/// The table of lines is written the same again.
#[verifier::rlimit(40)]
pub proof fn lemma_lines_written_again(
    w: WriterV,
    v: WriterV,
    m: Sem,
    net: DistNetworkV,
    other: DistNetworkV,
    doc: Seq<ObjV>,
    st: StateV,
)
    requires
        doc.len() <= usize::MAX,
        st.net.lines.len() == 0,
        v.bases == w.bases,
        only_in("ACLineSegment"@, lines_json(w, m, net, net.lines.len()).1, doc),
        ({
            let ids = sorted_kind(doc, "ACLineSegment"@);
            other.lines == lines_n(m, doc, st, ids, ids.len()).net.lines
        }),
        forall|i: int| 0 <= i < net.lines.len() ==> line_kept(m, #[trigger] net.lines[i]),
        forall|i: int, j: int|
            0 <= i < net.lines.len() && 0 <= j < other.lines.len() && (
            #[trigger] net.lines[i]).name == (#[trigger] other.lines[j]).name ==> line_limit(
                m,
                net,
                net.lines[i],
            ) == line_limit(m, other, other.lines[j]),
        forall|i: int|
            0 <= i < net.lines.len() ==> exists|k: int|
                0 <= k < other.lines.len() && comes_of_line(
                    m,
                    #[trigger] other.lines[k],
                    #[trigger] net.lines[i],
                ),
    ensures
        lines_json(v, m, other, other.lines.len()).1 == lines_json(w, m, net, net.lines.len()).1,
{
    let a = line_pairs(w, m, net);
    let b = line_pairs(v, m, other);
    let ids = sorted_kind(doc, "ACLineSegment"@);
    lemma_line_pairs(w, m, net, net.lines.len());
    lemma_line_pairs(v, m, other, other.lines.len());
    reveal_strlit("ACLineSegment");
    reveal_strlit("TransformerTankInfo");
    assert("ACLineSegment"@.len() == 13);
    assert("TransformerTankInfo"@.len() == 19);
    assert forall|j: int| 0 <= j < b.len() implies get_of(table_of(a), (#[trigger] b[j]).0)
        == Some(b[j].1) by {
        let at = lemma_line_origin(m, doc, st, ids, ids.len(), j);
        let o = doc[ids[at] as int];
        lemma_kind_only(doc, Seq::empty(), "ACLineSegment"@, doc.len(), at);
        assert(o.kind == "ACLineSegment"@);
        assert(get_of(table_of(a), o.name) == Some(JsonV::Obj(o.props)));
        let i = lemma_table_entry(a, a.len(), o.name);
        let now = lines_n(m, doc, st, ids, at as nat);
        assert(a[i] == (o.name, JsonV::Obj(o.props)));
        lemma_line_reads(
            lines_json(w, m, net, i as nat).0,
            m,
            net,
            net.lines[i],
            doc,
            now,
            o,
        );
        assert(net.lines[i].name == other.lines[j].name);
        lemma_line_again(w, v, m, net, other, i, j, doc, now, o);
    }
    assert forall|i: int| 0 <= i < a.len() implies named_in(b, (#[trigger] a[i]).0) by {
        let line = net.lines[i];
        let k = choose|k: int|
            0 <= k < other.lines.len() && comes_of_line(m, #[trigger] other.lines[k], line);
        assert(b[k].0 == a[i].0);
    }
    lemma_one_table(a, b);
}

proof fn lemma_line_reads(
    w: WriterV,
    m: Sem,
    net: DistNetworkV,
    line: DistLineV,
    doc: Seq<ObjV>,
    st: StateV,
    o: ObjV,
)
    requires
        o.name == line.name,
        line_json(w, m, net, line).1 == JsonV::Obj(o.props),
        line_kept(m, line),
    ensures
        line_read(m, doc, st, o).linecode == line.linecode,
        line_read(m, doc, st, o).name == line.name,
{
    lemma_line_says(w, m, net, line);
    lemma_line_step(m, doc, st, o, line);
}

// ---- switches --------------------------------------------------------------

/// The switches as they are written, by name.
pub open spec fn switch_pairs(w: WriterV, m: Sem, s: Seq<DistSwitchV>) -> Entries {
    Seq::new(
        s.len(),
        |i: int| (s[i].name, switch_json(switches_json(w, m, s, i as nat).0, m, s[i]).1),
    )
}

proof fn lemma_switch_pairs(w: WriterV, m: Sem, s: Seq<DistSwitchV>, n: nat)
    requires
        n <= s.len(),
    ensures
        switches_json(w, m, s, n).1 == table_n(switch_pairs(w, m, s), n),
    decreases n,
{
    if n > 0 {
        lemma_switch_pairs(w, m, s, (n - 1) as nat);
    }
}

pub proof fn lemma_switch_origin(
    m: Sem,
    doc: Seq<ObjV>,
    st: StateV,
    ids: Seq<usize>,
    n: nat,
    k: int,
) -> (i:
    int)
    requires
        st.net.switches.len() == 0,
        0 <= k < switches_n(m, doc, st, ids, n).net.switches.len(),
    ensures
        0 <= i < n,
        switches_n(m, doc, st, ids, n).net.switches[k] == switch_read(
            m,
            doc,
            switches_n(m, doc, st, ids, i as nat),
            doc[ids[i] as int],
        ),
    decreases n,
{
    broadcast use {group_keeps, group_parts};

    let before = switches_n(m, doc, st, ids, (n - 1) as nat);
    if k < before.net.switches.len() {
        let i = lemma_switch_origin(m, doc, st, ids, (n - 1) as nat, k);
        i
    } else {
        n - 1
    }
}

/// A switch can be written again: both sides are on the same phases, of which
/// there is one.
pub open spec fn switch_kept(s: DistSwitchV) -> bool {
    s.terminal_map_from == s.terminal_map_to && hot_wires(s.terminal_map_from).len() > 0
}

/// The name of the limit set of a switch.
pub open spec fn switch_limit(m: Sem, s: DistSwitchV) -> Option<Seq<char>> {
    limit_name(m, extra_num(m, s.extras, "normamps"@), first_rating(s.i_max))
}

/// The objects that are read as switches are those of the table.
pub proof fn lemma_switch_ids(doc: Seq<ObjV>, k: int)
    requires
        doc.len() <= usize::MAX,
        only_in("LoadBreakSwitch"@, Entries::empty(), doc),
        only_in("Breaker"@, Entries::empty(), doc),
        only_in("Recloser"@, Entries::empty(), doc),
        0 <= k < switch_ids(doc).len(),
    ensures
        switch_ids(doc)[k] < doc.len(),
        doc[switch_ids(doc)[k] as int].kind == "Switch"@,
{
    let s = of_kind_n(doc, Seq::empty(), "Switch"@, doc.len());
    lemma_none_more(doc, s, "LoadBreakSwitch"@, doc.len());
    lemma_none_more(doc, s, "Breaker"@, doc.len());
    lemma_none_more(doc, s, "Recloser"@, doc.len());
    lemma_kind_only(doc, Seq::empty(), "Switch"@, doc.len(), k);
}

pub proof fn lemma_none_more(doc: Seq<ObjV>, s: Seq<usize>, kind: Seq<char>, n: nat)
    requires
        n <= doc.len(),
        only_in(kind, Entries::empty(), doc),
    ensures
        of_kind_n(doc, s, kind, n) == s,
    decreases n,
{
    if n > 0 {
        lemma_none_more(doc, s, kind, (n - 1) as nat);
        reveal(get_of);
        assert(get_of(Entries::empty(), doc[n - 1].name) is None);
    }
}

/// The table of switches is written the same again.
#[verifier::rlimit(40)]
pub proof fn lemma_switches_written_again(
    w: WriterV,
    v: WriterV,
    m: Sem,
    a: Seq<DistSwitchV>,
    b: Seq<DistSwitchV>,
    doc: Seq<ObjV>,
    st: StateV,
)
    requires
        doc.len() <= usize::MAX,
        st.net.switches.len() == 0,
        only_in("Switch"@, switches_json(w, m, a, a.len()).1, doc),
        only_in("LoadBreakSwitch"@, Entries::empty(), doc),
        only_in("Breaker"@, Entries::empty(), doc),
        only_in("Recloser"@, Entries::empty(), doc),
        b == switches_n(m, doc, st, switch_ids(doc), switch_ids(doc).len()).net.switches,
        forall|i: int| 0 <= i < a.len() ==> switch_kept(#[trigger] a[i]),
        forall|i: int, j: int|
            0 <= i < a.len() && 0 <= j < b.len() && (#[trigger] a[i]).name == (
            #[trigger] b[j]).name ==> switch_limit(m, a[i]) == switch_limit(m, b[j]),
        forall|i: int|
            0 <= i < a.len() ==> exists|k: int|
                0 <= k < b.len() && comes_of_switch(#[trigger] b[k], #[trigger] a[i]),
    ensures
        switches_json(v, m, b, b.len()).1 == switches_json(w, m, a, a.len()).1,
{
    let pa = switch_pairs(w, m, a);
    let pb = switch_pairs(v, m, b);
    let ids = switch_ids(doc);
    lemma_switch_pairs(w, m, a, a.len());
    lemma_switch_pairs(v, m, b, b.len());
    reveal_strlit("Switch");
    reveal_strlit("TransformerTankInfo");
    assert("Switch"@.len() == 6);
    assert("TransformerTankInfo"@.len() == 19);
    assert forall|j: int| 0 <= j < pb.len() implies get_of(table_of(pa), (#[trigger] pb[j]).0)
        == Some(pb[j].1) by {
        let at = lemma_switch_origin(m, doc, st, ids, ids.len(), j);
        let now = switches_n(m, doc, st, ids, at as nat);
        let o = doc[ids[at] as int];
        lemma_switch_ids(doc, at);
        assert(get_of(table_of(pa), o.name) == Some(JsonV::Obj(o.props)));
        let i = lemma_table_entry(pa, pa.len(), o.name);
        assert(pa[i].1 == JsonV::Obj(o.props));
        assert(switch_kept(a[i]));
        lemma_switch_says(switches_json(w, m, a, i as nat).0, m, a[i]);
        lemma_switch_step(m, doc, now, o, a[i]);
        assert(a[i].name == b[j].name);
        lemma_switch_object_is_stable(
            switches_json(w, m, a, i as nat).0,
            switches_json(v, m, b, j as nat).0,
            m,
            a[i],
            doc,
            now,
            o,
        );
    }
    assert forall|i: int| 0 <= i < pa.len() implies named_in(pb, (#[trigger] pa[i]).0) by {
        let s = a[i];
        let k = choose|k: int| 0 <= k < b.len() && comes_of_switch(#[trigger] b[k], s);
        assert(pb[k].0 == pa[i].0);
    }
    lemma_one_table(pa, pb);
}

// ---- line codes ------------------------------------------------------------

/// The line codes as they are written, by name.
pub open spec fn code_pairs(w: WriterV, m: Sem, s: Seq<DistLineCodeV>) -> Entries {
    Seq::new(
        s.len(),
        |i: int| (s[i].name, linecode_json(linecodes_json(w, m, s, i as nat).0, m, s[i]).1),
    )
}

proof fn lemma_code_pairs(w: WriterV, m: Sem, s: Seq<DistLineCodeV>, n: nat)
    requires
        n <= s.len(),
    ensures
        linecodes_json(w, m, s, n).1 == table_n(code_pairs(w, m, s), n),
    decreases n,
{
    if n > 0 {
        lemma_code_pairs(w, m, s, (n - 1) as nat);
    }
}

pub proof fn lemma_code_origin(
    m: Sem,
    doc: Seq<ObjV>,
    st: StateV,
    ids: Seq<usize>,
    n: nat,
    k: int,
) -> (i:
    int)
    requires
        st.net.linecodes.len() == 0,
        0 <= k < linecodes_n(m, doc, st, ids, n).net.linecodes.len(),
    ensures
        0 <= i < n,
        linecodes_n(m, doc, st, ids, n).net.linecodes[k] == code_read(
            m,
            linecodes_n(m, doc, st, ids, i as nat),
            doc[ids[i] as int],
        ),
    decreases n,
{
    broadcast use {group_keeps, group_parts};

    reveal(StateV::warn);
    let before = linecodes_n(m, doc, st, ids, (n - 1) as nat);
    if k < before.net.linecodes.len() {
        let i = lemma_code_origin(m, doc, st, ids, (n - 1) as nat, k);
        i
    } else {
        n - 1
    }
}

/// A line code can be written again: its numbers are told, and each shunt is the
/// sum of its halves.
pub open spec fn code_kept(m: Sem, c: DistLineCodeV) -> bool {
    &&& code_told(m, c)
    &&& forall|i: int, j: int| 0 <= j <= i < c.n_conductors ==> #[trigger] shunt_halves(m, c, i, j)
}

/// The table of line codes is written the same again.
#[verifier::rlimit(40)]
pub proof fn lemma_codes_written_again(
    w: WriterV,
    v: WriterV,
    m: Sem,
    a: Seq<DistLineCodeV>,
    b: Seq<DistLineCodeV>,
    doc: Seq<ObjV>,
    st: StateV,
)
    requires
        doc.len() <= usize::MAX,
        st.net.linecodes.len() == 0,
        only_in("PerLengthPhaseImpedance"@, linecodes_json(w, m, a, a.len()).1, doc),
        ({
            let ids = sorted_kind(doc, "PerLengthPhaseImpedance"@);
            b == linecodes_n(m, doc, st, ids, ids.len()).net.linecodes
        }),
        forall|i: int| 0 <= i < a.len() ==> code_kept(m, #[trigger] a[i]),
        forall|i: int|
            0 <= i < a.len() ==> exists|k: int|
                0 <= k < b.len() && (#[trigger] b[k]).name == (#[trigger] a[i]).name,
    ensures
        linecodes_json(v, m, b, b.len()).1 == linecodes_json(w, m, a, a.len()).1,
{
    let pa = code_pairs(w, m, a);
    let pb = code_pairs(v, m, b);
    let kind = "PerLengthPhaseImpedance"@;
    let ids = sorted_kind(doc, kind);
    lemma_code_pairs(w, m, a, a.len());
    lemma_code_pairs(v, m, b, b.len());
    reveal_strlit("PerLengthPhaseImpedance");
    reveal_strlit("TransformerTankInfo");
    assert("PerLengthPhaseImpedance"@.len() == 23);
    assert("TransformerTankInfo"@.len() == 19);
    assert forall|j: int| 0 <= j < pb.len() implies get_of(table_of(pa), (#[trigger] pb[j]).0)
        == Some(pb[j].1) by {
        let at = lemma_code_origin(m, doc, st, ids, ids.len(), j);
        let now = linecodes_n(m, doc, st, ids, at as nat);
        let o = doc[ids[at] as int];
        lemma_kind_only(doc, Seq::empty(), kind, doc.len(), at);
        assert(get_of(table_of(pa), o.name) == Some(JsonV::Obj(o.props)));
        let i = lemma_table_entry(pa, pa.len(), o.name);
        assert(pa[i].1 == JsonV::Obj(o.props));
        assert(code_kept(m, a[i]));
        lemma_code_object_is_stable(
            linecodes_json(w, m, a, i as nat).0,
            linecodes_json(v, m, b, j as nat).0,
            m,
            a[i],
            now,
            o,
        );
    }
    assert forall|i: int| 0 <= i < pa.len() implies named_in(pb, (#[trigger] pa[i]).0) by {
        let c = a[i];
        let k = choose|k: int| 0 <= k < b.len() && (#[trigger] b[k]).name == c.name;
        assert(pb[k].0 == pa[i].0);
    }
    lemma_one_table(pa, pb);
}

/// A line code is written alike whatever its rating.
#[verifier::rlimit(40)]
proof fn lemma_code_unrated(w: WriterV, v: WriterV, m: Sem, a: DistLineCodeV, b: DistLineCodeV)
    requires
        same_code(a, b),
    ensures
        linecode_json(w, m, a).1 == linecode_json(v, m, b).1,
{
    let n = a.n_conductors as nat;
    assert forall|i: int, j: int| 0 <= j <= i < a.n_conductors implies #[trigger] same_row(
        m,
        a,
        b,
        i,
        j,
    ) by {}
    assert forall|x: WriterV, y: WriterV| #[trigger] columns_json(x, m, a, n).1
        == #[trigger] columns_json(y, m, b, n).1 by {
        lemma_columns_same(x, y, m, a, b, n);
    }
}

/// The table of line codes is written alike whatever their ratings.
pub proof fn lemma_codes_unrated(
    w: WriterV,
    v: WriterV,
    m: Sem,
    a: Seq<DistLineCodeV>,
    b: Seq<DistLineCodeV>,
    n: nat,
)
    requires
        n <= a.len() == b.len(),
        forall|i: int| 0 <= i < a.len() ==> same_code(#[trigger] a[i], b[i]),
    ensures
        linecodes_json(w, m, a, n).1 == linecodes_json(v, m, b, n).1,
    decreases n,
{
    if n > 0 {
        lemma_codes_unrated(w, v, m, a, b, (n - 1) as nat);
        assert(same_code(a[n - 1], b[n - 1]));
        lemma_code_unrated(
            linecodes_json(w, m, a, (n - 1) as nat).0,
            linecodes_json(v, m, b, (n - 1) as nat).0,
            m,
            a[n - 1],
            b[n - 1],
        );
    }
}

// ---- buses -----------------------------------------------------------------

/// The buses as they are written, by name.
pub open spec fn bus_pairs(w: WriterV, m: Sem, s: Seq<DistBusV>) -> Entries {
    Seq::new(
        s.len(),
        |i: int| (s[i].id, bus_json(buses_json(w, m, s, i as nat).0, m, s[i]).1),
    )
}

pub proof fn lemma_bus_pairs(w: WriterV, m: Sem, s: Seq<DistBusV>, n: nat)
    requires
        n <= s.len(),
    ensures
        buses_json(w, m, s, n).1 == table_n(bus_pairs(w, m, s), n),
    decreases n,
{
    if n > 0 {
        lemma_bus_pairs(w, m, s, (n - 1) as nat);
    }
}

pub proof fn lemma_bus_origin(
    m: Sem,
    doc: Seq<ObjV>,
    st: StateV,
    ids: Seq<usize>,
    n: nat,
    k: int,
) -> (i:
    int)
    requires
        st.net.buses.len() == 0,
        0 <= k < buses_n(m, doc, st, ids, n).0.net.buses.len(),
    ensures
        0 <= i < n,
        ({
            let (now, places) = buses_n(m, doc, st, ids, i as nat);
            buses_n(m, doc, st, ids, n).0.net.buses[k] == bus_read(
                m,
                doc,
                now,
                places,
                doc[ids[i] as int],
            )
        }),
    decreases n,
{
    let before = buses_n(m, doc, st, ids, (n - 1) as nat).0;
    if k < before.net.buses.len() {
        let i = lemma_bus_origin(m, doc, st, ids, (n - 1) as nat, k);
        i
    } else {
        n - 1
    }
}

// ---- order -----------------------------------------------------------------

proof fn lemma_places_sorted(w: WriterV, m: Sem, s: Seq<DistBusV>, n: nat)
    ensures
        sorted(buses_json(w, m, s, n).2),
    decreases n,
{
    if n > 0 {
        lemma_places_sorted(w, m, s, (n - 1) as nat);
        let before = buses_json(w, m, s, (n - 1) as nat).2;
        assert forall|k: Seq<char>, v: JsonV| sorted(#[trigger] put_of(before, k, v)) by {
            lemma_put(before, k, v);
        }
    }
}

/// The tables of buses, line codes, lines and switches are in key order.
pub proof fn lemma_tables_sorted(m: Sem, net: DistNetworkV)
    ensures
        ({
            let t = written_tables(m, net);
            &&& sorted(t.linecodes)
            &&& sorted(t.lines)
            &&& sorted(t.switches)
            &&& sorted(t.nodes)
            &&& sorted(t.locations)
        }),
{
    reveal(tables_of);
    assert forall|w: WriterV| sorted(
        (#[trigger] linecodes_json(w, m, net.linecodes, net.linecodes.len())).1,
    ) by {
        lemma_code_pairs(w, m, net.linecodes, net.linecodes.len());
        lemma_table_sorted(code_pairs(w, m, net.linecodes), net.linecodes.len());
    }
    assert forall|w: WriterV| sorted((#[trigger] lines_json(w, m, net, net.lines.len())).1) by {
        lemma_line_pairs(w, m, net, net.lines.len());
        lemma_table_sorted(line_pairs(w, m, net), net.lines.len());
    }
    assert forall|w: WriterV| sorted(
        (#[trigger] switches_json(w, m, net.switches, net.switches.len())).1,
    ) by {
        lemma_switch_pairs(w, m, net.switches, net.switches.len());
        lemma_table_sorted(switch_pairs(w, m, net.switches), net.switches.len());
    }
    assert forall|w: WriterV| sorted((#[trigger] buses_json(w, m, net.buses, net.buses.len())).1)
        && sorted(buses_json(w, m, net.buses, net.buses.len()).2) by {
        lemma_bus_pairs(w, m, net.buses, net.buses.len());
        lemma_table_sorted(bus_pairs(w, m, net.buses), net.buses.len());
        lemma_places_sorted(w, m, net.buses, net.buses.len());
    }
}

// ---- entries ---------------------------------------------------------------

/// An entry of a table of lines is a line of the network.
pub proof fn lemma_line_entry(w: WriterV, m: Sem, net: DistNetworkV, o: ObjV) -> (r: (int, WriterV))
    requires
        get_of(lines_json(w, m, net, net.lines.len()).1, o.name) == Some(JsonV::Obj(o.props)),
    ensures
        0 <= r.0 < net.lines.len(),
        net.lines[r.0].name == o.name,
        line_json(r.1, m, net, net.lines[r.0]).1 == JsonV::Obj(o.props),
{
    lemma_line_pairs(w, m, net, net.lines.len());
    let i = lemma_table_entry(line_pairs(w, m, net), net.lines.len(), o.name);
    (i, lines_json(w, m, net, i as nat).0)
}

/// An entry of a table of line codes is one of the line codes.
pub proof fn lemma_code_entry(w: WriterV, m: Sem, s: Seq<DistLineCodeV>, o: ObjV) -> (r: (
    int,
    WriterV,
))
    requires
        get_of(linecodes_json(w, m, s, s.len()).1, o.name) == Some(JsonV::Obj(o.props)),
    ensures
        0 <= r.0 < s.len(),
        s[r.0].name == o.name,
        linecode_json(r.1, m, s[r.0]).1 == JsonV::Obj(o.props),
{
    lemma_code_pairs(w, m, s, s.len());
    let i = lemma_table_entry(code_pairs(w, m, s), s.len(), o.name);
    (i, linecodes_json(w, m, s, i as nat).0)
}

/// An entry of a table of switches is one of the switches.
pub proof fn lemma_switch_entry(w: WriterV, m: Sem, s: Seq<DistSwitchV>, o: ObjV) -> (r: (
    int,
    WriterV,
))
    requires
        get_of(switches_json(w, m, s, s.len()).1, o.name) == Some(JsonV::Obj(o.props)),
    ensures
        0 <= r.0 < s.len(),
        s[r.0].name == o.name,
        switch_json(r.1, m, s[r.0]).1 == JsonV::Obj(o.props),
{
    lemma_switch_pairs(w, m, s, s.len());
    let i = lemma_table_entry(switch_pairs(w, m, s), s.len(), o.name);
    (i, switches_json(w, m, s, i as nat).0)
}

} // verus!
