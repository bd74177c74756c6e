//! What the reader makes of the ratings of lines and switches that were written.

use vstd::prelude::*;

use crate::json::JsonV;
use crate::math::{Bits, Sem};
use crate::model::{linecode_from, DistBusV, DistLineCodeV, DistLineV, DistNetworkV, DistSwitchV};
use crate::order::get_of;
use crate::ravens::doc::ObjV;
use crate::ravens::emit::{extra_num, WriterV};
use crate::ravens::keeps::same_code;
use crate::ravens::lines::{
    code_from, line_limits_of, line_step, lines_n, rate_of, switch_limits_of, switch_step,
};
use crate::ravens::plain::{all_declared, lemma_no_normal, lemma_use_declared, lemma_use_plain};
use crate::ravens::read::declared;
use crate::ravens::rewrite::{line_read, switch_read};
use crate::ravens::stable::{lemma_line_entry, line_kept, switch_kept};
use crate::ravens::state::StateV;
use crate::ravens::survive::{hot_wires, lemma_get_put, lemma_line_says, lemma_switch_says, told};
use crate::ravens::survive_bounds::{
    amps_read, lemma_line_points, lemma_rated_line_step, lemma_rated_step, lemma_switch_points,
};
use crate::ravens::survive_limits::{line_amps, switch_amps};
use crate::ravens::write_lines::{first_rating, line_json, line_rating, lines_json, switch_json};
use crate::text::lower_of;

verus! {

/// A pair of ampacities is told.
pub open spec fn pair_told(m: Sem, pair: Option<(Bits, Bits)>) -> bool {
    pair matches Some((n, e)) ==> told(m, n) && told(m, e)
}

// ---- line codes ------------------------------------------------------------

/// Every line code is named as one of the network is.
pub open spec fn kin(net: DistNetworkV, codes: Seq<DistLineCodeV>) -> bool {
    forall|k: int| 0 <= k < codes.len() ==> is_code(net.linecodes, (#[trigger] codes[k]).name)
}

pub open spec fn is_code(codes: Seq<DistLineCodeV>, name: Seq<char>) -> bool {
    exists|i: int| 0 <= i < codes.len() && (#[trigger] codes[i]).name == name
}

/// The ratings are those that the network gives its line codes.
pub open spec fn rated_by(net: DistNetworkV, codes: Seq<DistLineCodeV>) -> bool {
    forall|k: int|
        0 <= k < codes.len() && (#[trigger] codes[k]).i_max is Some ==> first_rating(
            codes[k].i_max,
        ) is Some && first_rating(codes[k].i_max) == line_rating(net, codes[k].name)
}

/// A name is written as the code is that it stands for.
pub open spec fn exact(codes: Seq<DistLineCodeV>, name: Seq<char>) -> bool {
    forall|k: int|
        0 <= k < codes.len() && lower_of((#[trigger] codes[k]).name) == lower_of(name)
            ==> codes[k].name == name
}

/// The first code of a name has a rating.
pub open spec fn has_rating(codes: Seq<DistLineCodeV>, name: Seq<char>) -> bool {
    code_from(codes, name, 0) matches Some(k) && codes[k].i_max is Some
}

/// The same codes, but for their ratings.
pub open spec fn same_codes(a: Seq<DistLineCodeV>, b: Seq<DistLineCodeV>) -> bool {
    &&& a.len() == b.len()
    &&& forall|i: int| 0 <= i < a.len() ==> same_code(#[trigger] a[i], b[i])
}

pub proof fn lemma_code_index(codes: Seq<DistLineCodeV>, name: Seq<char>, i: int)
    requires
        0 <= i,
    ensures
        code_from(codes, name, i) matches Some(j) ==> i <= j < codes.len() && codes[j].name == name,
        code_from(codes, name, i) is None ==> forall|k: int|
            i <= k < codes.len() ==> (#[trigger] codes[k]).name != name,
    decreases codes.len() - i,
{
    if i < codes.len() {
        lemma_code_index(codes, name, i + 1);
    }
}

proof fn lemma_code_same(a: Seq<DistLineCodeV>, b: Seq<DistLineCodeV>, name: Seq<char>, i: int)
    requires
        0 <= i,
        same_codes(a, b),
    ensures
        code_from(a, name, i) == code_from(b, name, i),
    decreases a.len() - i,
{
    if i < a.len() {
        assert(same_code(a[i], b[i]));
        lemma_code_same(a, b, name, i + 1);
    }
}

/// Codes are found by their exact names.
pub proof fn lemma_lookup(codes: Seq<DistLineCodeV>, name: Seq<char>, i: int)
    requires
        0 <= i,
        exact(codes, name),
    ensures
        linecode_from(codes, name, i) == match code_from(codes, name, i) {
            Some(k) => Some(codes[k]),
            None => None,
        },
    decreases codes.len() - i,
{
    if i < codes.len() {
        lemma_lookup(codes, name, i + 1);
        if codes[i].name == name {
            assert(lower_of(codes[i].name) == lower_of(name));
        }
    }
}

/// What rating a code does.
#[verifier::rlimit(40)]
proof fn lemma_rate(net: DistNetworkV, codes: Seq<DistLineCodeV>, name: Seq<char>, n: nat, e: Bits)
    requires
        kin(net, codes),
        rated_by(net, codes),
        n > 0,
        code_from(codes, name, 0) is Some ==> line_rating(net, name) == Some(e),
    ensures
        ({
            let r = rate_of(codes, name, n, e).0;
            &&& kin(net, r)
            &&& rated_by(net, r)
            &&& same_codes(codes, r)
            &&& code_from(codes, name, 0) is Some ==> has_rating(r, name)
            &&& forall|q: Seq<char>| #[trigger] has_rating(codes, q) ==> has_rating(r, q)
        }),
{
    let r = rate_of(codes, name, n, e).0;
    lemma_code_index(codes, name, 0);
    assert forall|k: int| 0 <= k < r.len() implies is_code(
        net.linecodes,
        (#[trigger] r[k]).name,
    ) by {
        assert(is_code(net.linecodes, codes[k].name));
        assert(r[k].name == codes[k].name);
    }
    assert(same_codes(codes, r));
    assert forall|q: Seq<char>| #[trigger] code_from(codes, q, 0) == code_from(r, q, 0) by {
        lemma_code_same(codes, r, q, 0);
    }
    assert forall|k: int| 0 <= k < r.len() && (#[trigger] r[k]).i_max is Some implies first_rating(
        r[k].i_max,
    ) is Some && first_rating(r[k].i_max) == line_rating(net, r[k].name) by {
        if codes[k].i_max is Some {
            assert(r[k] == codes[k]);
        }
    }
    assert forall|q: Seq<char>| #[trigger] has_rating(codes, q) implies has_rating(r, q) by {
        lemma_code_index(codes, q, 0);
        let k = code_from(codes, q, 0)->0;
        assert(code_from(r, q, 0) == Some(k));
        assert(r[k].i_max is Some);
    }
    if code_from(codes, name, 0) is Some {
        let k = code_from(codes, name, 0)->0;
        assert(code_from(r, name, 0) == Some(k));
        assert(r[k].i_max is Some);
    }
}

// ---- lines -----------------------------------------------------------------

/// What a line asks of the codes once it is read.
pub open spec fn codes_after(
    m: Sem,
    net: DistNetworkV,
    line: DistLineV,
    codes: Seq<DistLineCodeV>,
) -> Seq<DistLineCodeV> {
    match line_amps(m, net, line) {
        Some((n, e)) => rate_of(codes, line.linecode, hot_wires(line.terminal_map_from).len(), e).0,
        None => codes,
    }
}

/// A state goes on without leaving anything untyped or using a node that is no
/// bus.
pub open spec fn typedly(a: StateV, b: StateV, buses: Seq<DistBusV>) -> bool {
    &&& b.net.untyped == a.net.untyped
    &&& all_declared(a.nodes, buses) ==> all_declared(b.nodes, buses)
}

/// A line is read with its ratings.
#[verifier::rlimit(60)]
pub proof fn lemma_line_rated(
    w: WriterV,
    m: Sem,
    net: DistNetworkV,
    line: DistLineV,
    doc: Seq<ObjV>,
    st: StateV,
    o: ObjV,
    buses: Seq<DistBusV>,
)
    requires
        o.name == line.name,
        line_json(w, m, net, line).1 == JsonV::Obj(o.props),
        line_kept(m, line),
        amps_read(m, doc, line_amps(m, net, line)),
        pair_told(m, line_amps(m, net, line)),
        declared(buses, line.bus_from),
        declared(buses, line.bus_to),
    ensures
        typedly(st, line_step(m, doc, st, o), buses),
        line_step(m, doc, st, o).net.linecodes == codes_after(m, net, line, st.net.linecodes),
        line_read(m, doc, st, o).linecode == line.linecode,
        line_read(m, doc, st, o).name == line.name,
        extra_num(m, line_read(m, doc, st, o).extras, "normamps"@) == match line_amps(
            m,
            net,
            line,
        ) {
            Some((n, _)) => Some(n),
            None => None,
        },
{
    broadcast use {lemma_use_declared, lemma_use_plain, lemma_get_put};

    lemma_line_says(w, m, net, line);
    lemma_line_points(w, m, net, line);
    lemma_rated_line_step(m, doc, st, o, net, line);
    reveal(line_limits_of);
    reveal(StateV::defaulted);
    reveal(StateV::warn);
    reveal(extra_num);
}

/// The codes that the lines of the network stand for are rated: a line with a
/// continuous rating whose code is defined has a code with a rating.
pub open spec fn line_rated(m: Sem, net: DistNetworkV, line: DistLineV) -> bool {
    &&& exact(net.linecodes, line.linecode)
    &&& extra_num(m, line.extras, "normamps"@) is Some && net.linecode(line.linecode) is Some
        ==> line_rating(net, line.linecode) is Some
}

/// A code of the network is among those that were read.
pub open spec fn all_there(net: DistNetworkV, codes: Seq<DistLineCodeV>) -> bool {
    forall|i: int|
        0 <= i < net.linecodes.len() ==> is_code(codes, (#[trigger] net.linecodes[i]).name)
}

/// What holds of the codes once some lines are read.
pub open spec fn codes_hold(net: DistNetworkV, codes: Seq<DistLineCodeV>) -> bool {
    &&& kin(net, codes)
    &&& rated_by(net, codes)
    &&& all_there(net, codes)
}

/// The code of a line that is rated has its rating.
pub open spec fn code_settled(
    m: Sem,
    net: DistNetworkV,
    codes: Seq<DistLineCodeV>,
    line: DistLineV,
) -> bool {
    line_amps(m, net, line) is Some && net.linecode(line.linecode) is Some ==> has_rating(
        codes,
        line.linecode,
    )
}

/// Reading one line.
#[verifier::rlimit(40)]
proof fn lemma_codes_step(m: Sem, net: DistNetworkV, line: DistLineV, codes: Seq<DistLineCodeV>)
    requires
        codes_hold(net, codes),
        line_rated(m, net, line),
        hot_wires(line.terminal_map_from).len() > 0,
    ensures
        codes_hold(net, codes_after(m, net, line, codes)),
        same_codes(codes, codes_after(m, net, line, codes)),
        code_settled(m, net, codes_after(m, net, line, codes), line),
        forall|q: Seq<char>| #[trigger]
            has_rating(codes, q) ==> has_rating(codes_after(m, net, line, codes), q),
{
    let name = line.linecode;
    let r = codes_after(m, net, line, codes);
    lemma_lookup(net.linecodes, name, 0);
    lemma_code_index(net.linecodes, name, 0);
    lemma_code_index(codes, name, 0);
    if let Some((n, e)) = line_amps(m, net, line) {
        if code_from(codes, name, 0) is Some {
            let k = code_from(codes, name, 0)->0;
            assert(is_code(net.linecodes, codes[k].name));
            assert(code_from(net.linecodes, name, 0) is Some) by {
                let i = choose|i: int|
                    0 <= i < net.linecodes.len() && (#[trigger] net.linecodes[i]).name == name;
                if code_from(net.linecodes, name, 0) is None {
                    assert(net.linecodes[i].name != name);
                }
            }
            assert(line_rating(net, name) == Some(e));
        }
        lemma_rate(net, codes, name, hot_wires(line.terminal_map_from).len(), e);
        if net.linecode(name) is Some {
            let i = code_from(net.linecodes, name, 0)->0;
            assert(is_code(codes, net.linecodes[i].name));
            let k = choose|k: int| 0 <= k < codes.len() && (#[trigger] codes[k]).name == name;
            assert(codes[k].name == name);
            assert(code_from(codes, name, 0) is Some);
        }
        assert forall|i: int| 0 <= i < net.linecodes.len() implies is_code(
            r,
            (#[trigger] net.linecodes[i]).name,
        ) by {
            assert(is_code(codes, net.linecodes[i].name));
            let k = choose|k: int|
                0 <= k < codes.len() && (#[trigger] codes[k]).name == net.linecodes[i].name;
            assert(same_code(codes[k], r[k]));
            assert(r[k].name == net.linecodes[i].name);
        }
    }
}

/// A line of the network whose object was read.
pub open spec fn was_read(doc: Seq<ObjV>, ids: Seq<usize>, n: nat, name: Seq<char>) -> bool {
    exists|j: int| 0 <= j < n && doc[#[trigger] ids[j] as int].name == name
}

/// Reading lines with their ratings.
#[verifier::rlimit(60)]
pub proof fn lemma_lines_rated(
    w: WriterV,
    m: Sem,
    net: DistNetworkV,
    doc: Seq<ObjV>,
    st: StateV,
    ids: Seq<usize>,
    n: nat,
)
    requires
        n <= ids.len(),
        forall|i: int| 0 <= i < net.lines.len() ==> line_reads(m, net, doc, #[trigger] net.lines[i]),
        forall|i: int, j: int|
            0 <= i < j < net.lines.len() ==> (#[trigger] net.lines[i]).name != (
            #[trigger] net.lines[j]).name,
        codes_hold(net, st.net.linecodes),
        forall|j: int|
            0 <= j < ids.len() ==> get_of(
                lines_json(w, m, net, net.lines.len()).1,
                doc[(#[trigger] ids[j]) as int].name,
            ) == Some(JsonV::Obj(doc[ids[j] as int].props)),
    ensures
        ({
            let r = lines_n(m, doc, st, ids, n);
            &&& typedly(st, r, net.buses)
            &&& codes_hold(net, r.net.linecodes)
            &&& same_codes(st.net.linecodes, r.net.linecodes)
            &&& forall|i: int|
                0 <= i < net.lines.len() && was_read(doc, ids, n, (#[trigger] net.lines[i]).name)
                    ==> code_settled(m, net, r.net.linecodes, net.lines[i])
        }),
    decreases n,
{
    if n > 0 {
        lemma_lines_rated(w, m, net, doc, st, ids, (n - 1) as nat);
        let o = doc[ids[n - 1] as int];
        let (h, v) = lemma_line_entry(w, m, net, o);
        let before = lines_n(m, doc, st, ids, (n - 1) as nat);
        let after = lines_n(m, doc, st, ids, n);
        assert(line_reads(m, net, doc, net.lines[h]));
        lemma_line_rated(v, m, net, net.lines[h], doc, before, o, net.buses);
        lemma_codes_step(m, net, net.lines[h], before.net.linecodes);
        let x = before.net.linecodes;
        let y = after.net.linecodes;
        assert forall|i: int| 0 <= i < y.len() implies same_code(#[trigger] st.net.linecodes[i], y[i]) by {
            assert(same_code(st.net.linecodes[i], x[i]));
            assert(same_code(x[i], y[i]));
        }
        assert forall|i: int|
            0 <= i < net.lines.len() && was_read(doc, ids, n, (#[trigger] net.lines[i]).name) implies
        code_settled(m, net, y, net.lines[i]) by {
            let name = net.lines[i].name;
            let j = choose|j: int| 0 <= j < n && doc[#[trigger] ids[j] as int].name == name;
            if j < n - 1 {
                assert(was_read(doc, ids, (n - 1) as nat, name));
                assert(code_settled(m, net, x, net.lines[i]));
            } else {
                assert(net.lines[h].name == name);
                if i < h {
                    assert(net.lines[i].name != net.lines[h].name);
                } else if h < i {
                    assert(net.lines[h].name != net.lines[i].name);
                }
                assert(i == h);
            }
        }
    }
}

/// A line can be read with its ratings.
pub open spec fn line_reads(m: Sem, net: DistNetworkV, doc: Seq<ObjV>, line: DistLineV) -> bool {
    &&& line_kept(m, line)
    &&& line_rated(m, net, line)
    &&& amps_read(m, doc, line_amps(m, net, line))
    &&& pair_told(m, line_amps(m, net, line))
    &&& declared(net.buses, line.bus_from)
    &&& declared(net.buses, line.bus_to)
}

/// The ampacities of a line that was read are those of the line that was written.
#[verifier::rlimit(40)]
pub proof fn lemma_amps_again(
    m: Sem,
    net: DistNetworkV,
    back: DistNetworkV,
    line: DistLineV,
    x: DistLineV,
)
    requires
        line_rated(m, net, line),
        codes_hold(net, back.linecodes),
        code_settled(m, net, back.linecodes, line),
        x.linecode == line.linecode,
        extra_num(m, x.extras, "normamps"@) == match line_amps(m, net, line) {
            Some((n, _)) => Some(n),
            None => None,
        },
    ensures
        line_amps(m, back, x) == line_amps(m, net, line),
{
    let name = line.linecode;
    let codes = back.linecodes;
    assert(exact(codes, name)) by {
        assert forall|k: int|
            0 <= k < codes.len() && lower_of((#[trigger] codes[k]).name) == lower_of(name) implies
        codes[k].name == name by {
            assert(is_code(net.linecodes, codes[k].name));
            let i = choose|i: int|
                0 <= i < net.linecodes.len() && (#[trigger] net.linecodes[i]).name == codes[k].name;
            assert(lower_of(net.linecodes[i].name) == lower_of(name));
        }
    }
    lemma_lookup(codes, name, 0);
    lemma_lookup(net.linecodes, name, 0);
    lemma_code_index(codes, name, 0);
    lemma_code_index(net.linecodes, name, 0);
    if let Some(k) = code_from(codes, name, 0) {
        assert(is_code(net.linecodes, codes[k].name));
        let i = choose|i: int|
            0 <= i < net.linecodes.len() && (#[trigger] net.linecodes[i]).name == name;
        assert(net.linecodes[i].name == name);
        assert(code_from(net.linecodes, name, 0) is Some);
    }
}

// ---- switches --------------------------------------------------------------

/// A switch is read with its ratings.
#[verifier::rlimit(60)]
pub proof fn lemma_switch_rated(
    w: WriterV,
    m: Sem,
    s: DistSwitchV,
    doc: Seq<ObjV>,
    st: StateV,
    o: ObjV,
    buses: Seq<DistBusV>,
)
    requires
        o.name == s.name,
        switch_json(w, m, s).1 == JsonV::Obj(o.props),
        switch_kept(s),
        amps_read(m, doc, switch_amps(m, s)),
        pair_told(m, switch_amps(m, s)),
        declared(buses, s.bus_from),
        declared(buses, s.bus_to),
    ensures
        typedly(st, switch_step(m, doc, st, o), buses),
        switch_step(m, doc, st, o).net.linecodes == st.net.linecodes,
        switch_read(m, doc, st, o).name == s.name,
        switch_amps(m, switch_read(m, doc, st, o)) == switch_amps(m, s),
{
    broadcast use {lemma_use_declared, lemma_use_plain, lemma_get_put};

    lemma_switch_says(w, m, s);
    lemma_switch_points(w, m, s);
    lemma_rated_step(m, doc, st, o, s);
    lemma_no_normal(o.props);
    reveal_strlit("ravens_normal_open");
    reveal_strlit("normamps");
    assert("ravens_normal_open"@.len() == 18 && "normamps"@.len() == 8);
    reveal(switch_limits_of);
    reveal(StateV::defaulted);
    reveal(extra_num);
}

} // verus!
