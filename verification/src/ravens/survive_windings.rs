//! What the reader makes of the tank ends and the catalog records that the writer
//! wrote.

use vstd::prelude::*;

use crate::cim::read::z_base_of;
use crate::json::{float_json, Entries, JsonV};
use crate::math::{abs_of, num_lt, Bits, Sem, HUNDRED, MINUS_ONE, ZERO};
use crate::model::{repeat_of, DistTransformerV, WindingConn, WindingV};
use crate::numeral::dec_of;
use crate::order::get_of;
use crate::ravens::doc::{bool_at, list_at, num_at, str_at, suffix_at, target_at, uint_at};
use crate::ravens::emit::{
    extra_num, extras_mrid_of, hot_code_of, identified_of, letters_n, ordered_code_of,
    terminal_json, WriterV,
};
use crate::ravens::laws::lemma_pointer_reads_back;
use crate::ravens::lines::mrid_extras;
use crate::ravens::name::{letters_of, terminal_phase_of, terminals_of};
use crate::ravens::scale::of_base_of;
use crate::ravens::state::StateV;
use crate::ravens::survive::{
    lemma_extras_hold_id, lemma_get_none, lemma_get_put, lemma_identified, lemma_identity_keys,
    lemma_pointer_classes, lemma_terminal_keys, lemma_uint_reads_back, lemma_undotted, told,
    written_id,
};
use crate::ravens::survive_sites::{
    coded_wires, lemma_full_letters, lemma_wires_from, lemma_wires_of_letters,
};
use crate::ravens::tanks::{
    circuit_n, end_conn_of, end_letters_of, end_map_of, end_node_of, end_slot, end_step, ends_n,
    info_at, info_slot, infos_n, is_grounded, neutral_of, noload_from, noload_n, pairs,
    rated_winding, reactances_of, test_reactance, tests_n, windings_n,
};
use crate::ravens::write_loads::first_or_zero;
use crate::ravens::write_tanks::{
    circuit_json, end_json, grounded_of, info_json, noload_json, objects, or_zero, tested_json,
    windings_json,
};
use crate::terminals::three_phases;
use crate::text::after_last_of;

verus! {

// ---- phases ----------------------------------------------------------------

/// An ordered phase code reads back as the wires it was written for.
pub proof fn lemma_ordered_code_reads_back(map: Seq<Seq<char>>)
    ensures
        terminals_of(letters_of(ordered_code_of(map))) == coded_wires(map),
{
    let code = letters_n(map, false, map.len());
    let wires = coded_wires(map);
    lemma_full_letters(map, map.len());
    reveal_strlit("OrderedPhaseCodeKind.");
    let text = "OrderedPhaseCodeKind."@ + code;
    let k = "OrderedPhaseCodeKind."@.len() as int;
    assert forall|i: int| k <= i < text.len() implies text[i] != '.' by {
        assert(text[i] == code[i - k]);
        assert(terminal_phase_of(wires[i - k]) == Some(seq![code[i - k]]));
    }
    lemma_undotted(text, k, text.len() as int);
    assert(text.subrange(k, text.len() as int) =~= code);
    reveal(letters_of);
    let letters = Seq::new(code.len(), |i: int| seq![code[i]]);
    assert(Seq::<Seq<char>>::empty() =~= Seq::new(0, |i: int| seq![code[i]]));
    lemma_wires_from(code, wires, 0, Seq::empty());
    lemma_wires_of_letters(letters, wires, wires.len());
    assert(wires.take(wires.len() as int) =~= wires);
    reveal(terminals_of);
}

// ---- ends ------------------------------------------------------------------

proof fn lemma_end_keys()
    ensures
        "TransformerEnd.grounded"@.len() == 23,
        "TransformerEnd.rground"@.len() == 22 && "TransformerEnd.rground"@[15] == 'r',
        "TransformerEnd.xground"@.len() == 22 && "TransformerEnd.xground"@[15] == 'x',
        "TransformerTankEnd.orderedPhases"@.len() == 32,
        "TransformerEnd.endNumber"@.len() == 24,
        "ConductingEquipment.BaseVoltage"@.len() == 31,
        "ConductingEquipment.Terminals"@.len() == 29,
{
    reveal_strlit("TransformerEnd.grounded");
    reveal_strlit("TransformerEnd.rground");
    reveal_strlit("TransformerEnd.xground");
    reveal_strlit("TransformerTankEnd.orderedPhases");
    reveal_strlit("TransformerEnd.endNumber");
    reveal_strlit("ConductingEquipment.BaseVoltage");
    reveal_strlit("ConductingEquipment.Terminals");
}

/// The neutral resistance that is written of a grounded winding.
pub open spec fn neutral_ohms(m: Sem, x: WindingV) -> Bits {
    m.max(or_zero(x.r_neutral), ZERO)
}

/// What a tank end says.
pub open spec fn says_end(m: Sem, o: Entries, x: WindingV, k: nat) -> bool {
    &&& k < u64::MAX ==> uint_at(o, "TransformerEnd.endNumber"@) == Some((k + 1) as u64)
    &&& end_node_of(o) == Some(x.bus)
    &&& end_letters_of(o) == letters_of(ordered_code_of(x.terminal_map))
    &&& is_grounded(o) == grounded_of(x)
    &&& grounded_of(x) && told(m, neutral_ohms(m, x)) ==> num_at(m, o, "TransformerEnd.rground"@)
        == Some(neutral_ohms(m, x))
    &&& grounded_of(x) && told(m, or_zero(x.x_neutral)) ==> num_at(
        m,
        o,
        "TransformerEnd.xground"@,
    ) == Some(or_zero(x.x_neutral))
}

/// The node of a terminal that is written.
proof fn lemma_terminal_node(owner: Seq<char>, node: Seq<char>, code: Seq<char>)
    ensures
        terminal_json(owner, 1, node, code, None) matches JsonV::Obj(t) && target_at(
            t,
            "Terminal.ConnectivityNode"@,
        ) == Some(node),
{
    broadcast use lemma_get_put;

    reveal(terminal_json);
    reveal(target_at);
    reveal(str_at);
    lemma_terminal_keys();
    lemma_pointer_classes();
    lemma_pointer_reads_back("ConnectivityNode"@, node);
}

#[verifier::rlimit(40)]
proof fn lemma_end_says(w: WriterV, m: Sem, xf: DistTransformerV, k: nat)
    requires
        k < xf.windings.len(),
    ensures
        end_json(w, m, xf, k).1 matches JsonV::Obj(o) && says_end(m, o, xf.windings[k as int], k),
{
    broadcast use lemma_get_put;

    reveal(end_json);
    reveal(WriterV::num);
    reveal(WriterV::put_base);
    reveal(uint_at);
    reveal(num_at);
    reveal(bool_at);
    reveal(list_at);
    reveal(end_node_of);
    reveal(end_letters_of);
    lemma_end_keys();
    let x = xf.windings[k as int];
    let num = dec_of(k + 1);
    if k < u64::MAX {
        lemma_uint_reads_back(k + 1);
    }
    lemma_terminal_node(xf.name + "_E"@ + num, x.bus, hot_code_of(x.terminal_map));
}

// ---- catalog records -------------------------------------------------------

proof fn lemma_info_keys()
    ensures
        "TransformerEndInfo.endNumber"@.len() == 28,
        "TransformerEndInfo.connectionKind"@.len() == 33,
        "TransformerEndInfo.phaseAngleClock"@.len() == 34,
        "TransformerEndInfo.ratedU"@.len() == 25 && "TransformerEndInfo.ratedU"@[24] == 'U',
        "TransformerEndInfo.ratedS"@.len() == 25 && "TransformerEndInfo.ratedS"@[24] == 'S',
        "TransformerEndInfo.r"@.len() == 20 && "TransformerEndInfo.r"@[0] == 'T',
        "TransformerEndInfo.EnergisedEndShortCircuitTests"@.len() == 48,
        "TransformerEndInfo.EnergisedEndNoLoadTests"@.len() == 42,
{
    reveal_strlit("TransformerEndInfo.endNumber");
    reveal_strlit("TransformerEndInfo.connectionKind");
    reveal_strlit("TransformerEndInfo.phaseAngleClock");
    reveal_strlit("TransformerEndInfo.ratedU");
    reveal_strlit("TransformerEndInfo.ratedS");
    reveal_strlit("TransformerEndInfo.r");
    reveal_strlit("TransformerEndInfo.EnergisedEndShortCircuitTests");
    reveal_strlit("TransformerEndInfo.EnergisedEndNoLoadTests");
}

/// The letter of a connection.
pub open spec fn conn_letter(c: WindingConn) -> Seq<char> {
    if c == WindingConn::Delta {
        "D"@
    } else {
        "Y"@
    }
}

/// What a catalog record says, its tests aside.
pub open spec fn says_info(m: Sem, o: Entries, x: WindingV, k: nat) -> bool {
    &&& k < u64::MAX ==> uint_at(o, "TransformerEndInfo.endNumber"@) == Some((k + 1) as u64)
    &&& suffix_at(o, "TransformerEndInfo.connectionKind"@) == Some(conn_letter(x.conn))
    &&& told(m, x.v_ref) ==> num_at(m, o, "TransformerEndInfo.ratedU"@) == Some(x.v_ref)
    &&& told(m, x.s_rating) ==> num_at(m, o, "TransformerEndInfo.ratedS"@) == Some(x.s_rating)
    &&& match z_base_of(m, x.v_ref, x.s_rating) {
        Some(base) => {
            let ohms = of_base_of(m, x.r_pct, base);
            told(m, ohms) ==> num_at(m, o, "TransformerEndInfo.r"@) == Some(ohms)
        },
        None => num_at(m, o, "TransformerEndInfo.r"@) is None,
    }
}

proof fn lemma_conn_suffix(c: WindingConn)
    ensures
        after_last_of("WindingConnection."@ + conn_letter(c), '.') == conn_letter(c),
{
    reveal_strlit("WindingConnection.");
    reveal_strlit("D");
    reveal_strlit("Y");
    let text = "WindingConnection."@ + conn_letter(c);
    lemma_undotted(text, 18, text.len() as int);
    assert(text.subrange(18, text.len() as int) =~= conn_letter(c));
}

#[verifier::rlimit(40)]
proof fn lemma_info_says(w: WriterV, m: Sem, xf: DistTransformerV, k: nat)
    requires
        k < xf.windings.len(),
    ensures
        says_info(m, info_json(w, m, xf, k).1, xf.windings[k as int], k),
        get_of(
            info_json(w, m, xf, k).1,
            "TransformerEndInfo.EnergisedEndShortCircuitTests"@,
        ) is None,
        get_of(info_json(w, m, xf, k).1, "TransformerEndInfo.EnergisedEndNoLoadTests"@) is None,
{
    broadcast use lemma_get_put;

    reveal(info_json);
    reveal(WriterV::num);
    reveal(uint_at);
    reveal(num_at);
    reveal(str_at);
    reveal(suffix_at);
    lemma_info_keys();
    lemma_identity_keys();
    let x = xf.windings[k as int];
    let name = xf.name + "_info_"@ + dec_of(k + 1);
    lemma_identified(
        "TransformerEndInfo"@,
        name,
        None,
        "TransformerEndInfo.EnergisedEndShortCircuitTests"@,
    );
    lemma_identified(
        "TransformerEndInfo"@,
        name,
        None,
        "TransformerEndInfo.EnergisedEndNoLoadTests"@,
    );
    assert(get_of(identified_of("TransformerEndInfo"@, name, None), "TransformerEndInfo.r"@)
        is None) by {
        reveal(identified_of);
        lemma_get_none("TransformerEndInfo.r"@);
    }
    if k < u64::MAX {
        lemma_uint_reads_back(k + 1);
    }
    lemma_conn_suffix(x.conn);
}

// ---- windings --------------------------------------------------------------

/// The wires of a winding that is read: those its code names, three phases where
/// it names none, and the neutral of a grounded wye.
pub open spec fn wound_map(x: WindingV) -> Seq<Seq<char>> {
    let named = coded_wires(x.terminal_map);
    let map = if named.len() == 0 {
        three_phases()
    } else {
        named
    };
    if grounded_of(x) && !map.contains("4"@) {
        map.push("4"@)
    } else {
        map
    }
}

/// A winding that comes back of a winding. Its resistance has been to ohms and
/// back.
pub open spec fn comes_of_winding(m: Sem, back: WindingV, x: WindingV) -> bool {
    &&& back.bus == x.bus
    &&& back.conn == x.conn
    &&& back.terminal_map == wound_map(x)
    &&& told(m, x.v_ref) ==> back.v_ref == x.v_ref
    &&& told(m, x.s_rating) ==> back.s_rating == x.s_rating
    &&& told(m, x.v_ref) && told(m, x.s_rating) ==> match z_base_of(m, x.v_ref, x.s_rating) {
        Some(base) => {
            let ohms = of_base_of(m, x.r_pct, base);
            told(m, ohms) ==> back.r_pct == m.times(m.over(ohms, base), HUNDRED)
        },
        None => back.r_pct == ZERO,
    }
    &&& x.conn == WindingConn::Delta ==> back.r_neutral is None && back.x_neutral is None
    &&& x.conn == WindingConn::Wye && !grounded_of(x) ==> {
        &&& back.r_neutral == Some(MINUS_ONE)
        &&& back.x_neutral == Some(ZERO)
    }
    &&& grounded_of(x) && told(m, neutral_ohms(m, x)) && told(m, or_zero(x.x_neutral)) ==> {
        let r = neutral_ohms(m, x);
        let i = or_zero(x.x_neutral);
        if num_lt(ZERO, abs_of(r)) || num_lt(ZERO, abs_of(i)) {
            back.r_neutral == Some(r) && back.x_neutral == Some(i)
        } else {
            back.r_neutral is None && back.x_neutral is None
        }
    }
}

#[verifier::rlimit(40)]
proof fn lemma_end_reads(
    m: Sem,
    st: StateV,
    name: Seq<char>,
    infos: Seq<(u64, Entries)>,
    num: u64,
    end: Entries,
    x: WindingV,
    k: nat,
)
    requires
        says_end(m, end, x, k),
        info_at(infos, num, 0) matches Some(info) && says_info(m, info, x, k),
    ensures
        end_step(m, st, name, infos, num, end).1 matches Some(back) && comes_of_winding(m, back, x),
{
    reveal(end_conn_of);
    reveal(end_map_of);
    reveal(rated_winding);
    reveal(neutral_of);
    reveal_strlit("D");
    reveal_strlit("Y");
    reveal_strlit("A");
    lemma_ordered_code_reads_back(x.terminal_map);
    assert("D"@[0] == 'D' && "Y"@[0] == 'Y' && "A"@[0] == 'A');
}

// ---- lists of ends ---------------------------------------------------------

/// The ends and the records of windings, one of each for each.
pub open spec fn told_windings(
    m: Sem,
    ends: Seq<JsonV>,
    infos: Seq<Entries>,
    xs: Seq<WindingV>,
    n: nat,
) -> bool {
    &&& ends.len() == n
    &&& infos.len() == n
    &&& forall|k: int|
        0 <= k < n ==> {
            &&& #[trigger] ends[k] is Obj
            &&& says_end(m, ends[k]->Obj_0, xs[k], k as nat)
        }
    &&& forall|k: int|
        0 <= k < n ==> {
            &&& says_info(m, #[trigger] infos[k], xs[k], k as nat)
            &&& get_of(infos[k], "TransformerEndInfo.EnergisedEndShortCircuitTests"@) is None
            &&& get_of(infos[k], "TransformerEndInfo.EnergisedEndNoLoadTests"@) is None
        }
}

pub proof fn lemma_windings_say(w: WriterV, m: Sem, xf: DistTransformerV, n: nat)
    requires
        n <= xf.windings.len(),
    ensures
        told_windings(
            m,
            windings_json(w, m, xf, n).1,
            windings_json(w, m, xf, n).2,
            xf.windings,
            n,
        ),
    decreases n,
{
    if n > 0 {
        let j = (n - 1) as nat;
        lemma_windings_say(w, m, xf, j);
        let before = windings_json(w, m, xf, j);
        lemma_end_says(before.0, m, xf, j);
        lemma_info_says(end_json(before.0, m, xf, j).0, m, xf, j);
        let now = windings_json(w, m, xf, n);
        assert forall|k: int| 0 <= k < n implies {
            &&& #[trigger] now.1[k] is Obj
            &&& says_end(m, now.1[k]->Obj_0, xf.windings[k], k as nat)
        } by {
            if k < j {
                assert(now.1[k] == before.1[k]);
            }
        }
        assert forall|k: int| 0 <= k < n implies {
            &&& says_info(m, #[trigger] now.2[k], xf.windings[k], k as nat)
            &&& get_of(now.2[k], "TransformerEndInfo.EnergisedEndShortCircuitTests"@) is None
            &&& get_of(now.2[k], "TransformerEndInfo.EnergisedEndNoLoadTests"@) is None
        } by {
            if k < j {
                assert(now.2[k] == before.2[k]);
            }
        }
    }
}

proof fn lemma_end_slot_last(s: Seq<(u64, Entries)>, n: u64, i: int)
    requires
        0 <= i <= s.len(),
        forall|k: int| 0 <= k < s.len() ==> (#[trigger] s[k]).0 < n,
    ensures
        end_slot(s, n, i) == s.len(),
        info_slot(s, n, i) == s.len(),
    decreases s.len() - i,
{
    if i < s.len() {
        assert(s[i].0 < n);
        lemma_end_slot_last(s, n, i + 1);
    }
}

/// Ends that are written in order are read in order.
pub proof fn lemma_ends_in_order(items: Seq<JsonV>, n: nat)
    requires
        n <= items.len() < u64::MAX,
        forall|k: int|
            0 <= k < items.len() ==> {
                &&& #[trigger] items[k] is Obj
                &&& uint_at(items[k]->Obj_0, "TransformerEnd.endNumber"@) == Some((k + 1) as u64)
            },
    ensures
        ends_n(items, n) == Seq::new(n, |k: int| ((k + 1) as u64, items[k]->Obj_0)),
    decreases n,
{
    let all = Seq::new(n, |k: int| ((k + 1) as u64, items[k]->Obj_0));
    if n > 0 {
        let j = (n - 1) as nat;
        lemma_ends_in_order(items, j);
        let before = ends_n(items, j);
        assert(items[n - 1] is Obj);
        assert forall|k: int| 0 <= k < before.len() implies (#[trigger] before[k]).0 < n as u64 by {
        }
        lemma_end_slot_last(before, n as u64, 0);
        assert(ends_n(items, n) =~= all);
    } else {
        assert(all =~= seq![]);
    }
}

pub proof fn lemma_infos_in_order(items: Seq<Entries>, n: nat)
    requires
        n <= items.len() < u64::MAX,
        forall|k: int|
            0 <= k < items.len() ==> uint_at(#[trigger] items[k], "TransformerEndInfo.endNumber"@)
                == Some((k + 1) as u64),
    ensures
        infos_n(objects(items), n) == Seq::new(n, |k: int| ((k + 1) as u64, items[k])),
    decreases n,
{
    let all = Seq::new(n, |k: int| ((k + 1) as u64, items[k]));
    if n > 0 {
        let j = (n - 1) as nat;
        lemma_infos_in_order(items, j);
        let before = infos_n(objects(items), j);
        assert(objects(items)[n - 1] == JsonV::Obj(items[n - 1]));
        assert(uint_at(items[n - 1], "TransformerEndInfo.endNumber"@) == Some(n as u64));
        assert forall|k: int| 0 <= k < before.len() implies (#[trigger] before[k]).0 < n as u64 by {
        }
        lemma_end_slot_last(before, n as u64, 0);
        assert(infos_n(objects(items), n) =~= all);
    } else {
        assert(all =~= seq![]);
    }
}

pub proof fn lemma_info_at(s: Seq<(u64, Entries)>, k: int, i: int)
    requires
        0 <= i <= k < s.len() < u64::MAX,
        forall|j: int| 0 <= j < s.len() ==> (#[trigger] s[j]).0 == (j + 1) as u64,
    ensures
        info_at(s, (k + 1) as u64, i) == Some(s[k].1),
    decreases k - i,
{
    assert(s[i].0 == (i + 1) as u64);
    assert(s[k].0 == (k + 1) as u64);
    if i < k {
        lemma_info_at(s, k, i + 1);
    }
}

/// Ends and records by number, one of each for each winding.
pub open spec fn numbered(
    m: Sem,
    ends: Seq<(u64, Entries)>,
    infos: Seq<(u64, Entries)>,
    xs: Seq<WindingV>,
) -> bool {
    &&& xs.len() < u64::MAX
    &&& ends.len() == xs.len()
    &&& infos.len() == xs.len()
    &&& forall|k: int|
        0 <= k < xs.len() ==> {
            &&& (#[trigger] ends[k]).0 == (k + 1) as u64
            &&& says_end(m, ends[k].1, xs[k], k as nat)
        }
    &&& forall|k: int|
        0 <= k < xs.len() ==> {
            &&& (#[trigger] infos[k]).0 == (k + 1) as u64
            &&& says_info(m, infos[k].1, xs[k], k as nat)
        }
}

/// The windings of a tank come back, in order.
pub open spec fn come_of_windings(m: Sem, back: Seq<WindingV>, xs: Seq<WindingV>, n: nat) -> bool {
    &&& back.len() == n
    &&& forall|k: int| 0 <= k < n ==> comes_of_winding(m, #[trigger] back[k], xs[k])
}

pub proof fn lemma_windings_read(
    m: Sem,
    st: StateV,
    name: Seq<char>,
    infos: Seq<(u64, Entries)>,
    ends: Seq<(u64, Entries)>,
    xs: Seq<WindingV>,
    n: nat,
)
    requires
        numbered(m, ends, infos, xs),
        n <= xs.len(),
    ensures
        windings_n(m, st, name, infos, ends, n).ok,
        come_of_windings(m, windings_n(m, st, name, infos, ends, n).windings, xs, n),
    decreases n,
{
    if n > 0 {
        let j = (n - 1) as nat;
        lemma_windings_read(m, st, name, infos, ends, xs, j);
        let before = windings_n(m, st, name, infos, ends, j);
        assert(ends[n - 1].0 == n as u64);
        lemma_info_at(infos, n - 1, 0);
        assert(says_info(m, infos[n - 1].1, xs[n - 1], j));
        lemma_end_reads(m, before.st, name, infos, n as u64, ends[n - 1].1, xs[n - 1], j);
        let now = windings_n(m, st, name, infos, ends, n);
        assert forall|k: int| 0 <= k < n implies comes_of_winding(
            m,
            #[trigger] now.windings[k],
            xs[k],
        ) by {
            if k < j {
                assert(now.windings[k] == before.windings[k]);
            }
        }
    }
}

// ---- tests -----------------------------------------------------------------

/// The reactance of the first pair in ohms, as it is written.
pub open spec fn leakage(m: Sem, xf: DistTransformerV, base: Bits) -> Bits {
    of_base_of(m, first_or_zero(xf.xsc_pct), base)
}

/// What the record of a first winding says with its tests.
pub open spec fn says_tests(m: Sem, o: Entries, xf: DistTransformerV) -> bool {
    let x = xf.windings[0];
    let tests = list_at(o, "TransformerEndInfo.EnergisedEndShortCircuitTests"@);
    match z_base_of(m, x.v_ref, x.s_rating) {
        None => tests.len() == 0,
        Some(base) => {
            &&& tests.len() == 1
            &&& tests[0] is Obj
            &&& told(m, leakage(m, xf, base)) ==> num_at(
                m,
                tests[0]->Obj_0,
                "ShortCircuitTest.leakageImpedance"@,
            ) == Some(leakage(m, xf, base))
            &&& told(m, x.s_rating) ==> num_at(m, tests[0]->Obj_0, "TransformerTest.basePower"@)
                == Some(x.s_rating)
        },
    }
}

proof fn lemma_circuit_says(w: WriterV, m: Sem, xf: DistTransformerV, base: Bits)
    ensures
        circuit_json(w, m, xf, base).1 matches JsonV::Obj(t) && (told(m, leakage(m, xf, base))
            ==> num_at(m, t, "ShortCircuitTest.leakageImpedance"@) == Some(leakage(m, xf, base)))
            && (told(m, xf.windings[0].s_rating) ==> num_at(m, t, "TransformerTest.basePower"@)
            == Some(xf.windings[0].s_rating)),
{
    broadcast use lemma_get_put;

    reveal(circuit_json);
    reveal(WriterV::num);
    reveal(num_at);
    reveal_strlit("ShortCircuitTest.leakageImpedance");
    reveal_strlit("ShortCircuitTest.leakageImpedanceZero");
    reveal_strlit("TransformerTest.basePower");
    assert("ShortCircuitTest.leakageImpedance"@.len() == 33);
    assert("ShortCircuitTest.leakageImpedanceZero"@.len() == 37);
    assert("TransformerTest.basePower"@.len() == 25);
}

#[verifier::rlimit(40)]
pub proof fn lemma_tested_says(w: WriterV, m: Sem, xf: DistTransformerV, info: Entries)
    requires
        says_info(m, info, xf.windings[0], 0),
        get_of(info, "TransformerEndInfo.EnergisedEndShortCircuitTests"@) is None,
    ensures
        says_info(m, tested_json(w, m, xf, info).1, xf.windings[0], 0),
        says_tests(m, tested_json(w, m, xf, info).1, xf),
{
    broadcast use lemma_get_put;

    reveal(tested_json);
    reveal(list_at);
    reveal(uint_at);
    reveal(num_at);
    reveal(str_at);
    reveal(suffix_at);
    lemma_info_keys();
    let x = xf.windings[0];
    if let Some(base) = z_base_of(m, x.v_ref, x.s_rating) {
        lemma_circuit_says(w, m, xf, base);
    }
}

/// The reactance that comes back of the first pair's: it has been to ohms and
/// back.
pub open spec fn comes_of_reactances(m: Sem, back: Seq<Bits>, xf: DistTransformerV) -> bool {
    let x = xf.windings[0];
    &&& back.len() == pairs(xf.windings.len())
    &&& forall|k: int| 1 <= k < back.len() ==> #[trigger] back[k] == ZERO
    &&& told(m, x.v_ref) && told(m, x.s_rating) ==> match z_base_of(m, x.v_ref, x.s_rating) {
        Some(base) => told(m, leakage(m, xf, base)) ==> back[0] == m.times(
            m.over(leakage(m, xf, base), base),
            HUNDRED,
        ),
        None => back[0] == ZERO,
    }
}

/// Records without tests change no reactance.
proof fn lemma_circuit_rests(
    m: Sem,
    st: StateV,
    name: Seq<char>,
    windings: nat,
    infos: Seq<(u64, Entries)>,
    n: nat,
)
    requires
        1 <= n <= infos.len(),
        forall|k: int|
            1 <= k < infos.len() ==> list_at(
                (#[trigger] infos[k]).1,
                "TransformerEndInfo.EnergisedEndShortCircuitTests"@,
            ).len() == 0,
    ensures
        circuit_n(m, st, name, windings, infos, n) == circuit_n(m, st, name, windings, infos, 1),
    decreases n,
{
    if n > 1 {
        lemma_circuit_rests(m, st, name, windings, infos, (n - 1) as nat);
        assert(list_at(
            infos[n - 1].1,
            "TransformerEndInfo.EnergisedEndShortCircuitTests"@,
        ).len() == 0);
    }
}

proof fn lemma_pairs(n: nat)
    requires
        n >= 2,
    ensures
        pairs(n) >= 1,
    decreases n,
{
    reveal_with_fuel(pairs, 3);
    if n > 2 {
        lemma_pairs((n - 1) as nat);
    }
}

#[verifier::rlimit(40)]
pub proof fn lemma_reactances_read(
    m: Sem,
    st: StateV,
    name: Seq<char>,
    infos: Seq<(u64, Entries)>,
    xf: DistTransformerV,
)
    requires
        infos.len() == xf.windings.len() >= 2,
        says_info(m, infos[0].1, xf.windings[0], 0),
        says_tests(m, infos[0].1, xf),
        forall|k: int|
            1 <= k < infos.len() ==> list_at(
                (#[trigger] infos[k]).1,
                "TransformerEndInfo.EnergisedEndShortCircuitTests"@,
            ).len() == 0,
    ensures
        comes_of_reactances(
            m,
            reactances_of(m, st, name, xf.windings.len(), infos).1,
            xf,
        ),
{
    let n = xf.windings.len();
    lemma_pairs(n);
    lemma_circuit_rests(m, st, name, n, infos, n);
    reveal(reactances_of);
    reveal(test_reactance);
    reveal_with_fuel(circuit_n, 2);
    reveal_with_fuel(tests_n, 2);
    let x = xf.windings[0];
    let info = infos[0].1;
    let tests = list_at(info, "TransformerEndInfo.EnergisedEndShortCircuitTests"@);
    let zero = repeat_of(ZERO, pairs(n));
    assert(zero.len() == pairs(n));
    if let Some(base) = z_base_of(m, x.v_ref, x.s_rating) {
        assert(tests[0] is Obj);
    }
}

// ---- no-load tests ---------------------------------------------------------

/// The no-load loss in watts, as it is written.
pub open spec fn loss_of(m: Sem, xf: DistTransformerV) -> Option<Bits> {
    match extra_num(m, xf.extras, "%noloadloss"@) {
        Some(pct) => Some(of_base_of(m, pct, xf.windings[0].s_rating)),
        None => None,
    }
}

/// What the no-load tests of a record say.
pub open spec fn says_noload(m: Sem, o: Entries, xf: DistTransformerV) -> bool {
    let current = extra_num(m, xf.extras, "%imag"@);
    let loss = loss_of(m, xf);
    if current is Some || loss is Some {
        &&& get_of(o, "TransformerEndInfo.EnergisedEndNoLoadTests"@) matches Some(JsonV::Arr(tests))
        &&& tests.len() == 1
        &&& tests[0] matches JsonV::Obj(t)
        &&& match current {
            Some(i) => told(m, i) ==> num_at(m, t, "NoLoadTest.excitingCurrent"@) == Some(i),
            None => num_at(m, t, "NoLoadTest.excitingCurrent"@) is None,
        }
        &&& match loss {
            Some(l) => told(m, l) ==> num_at(m, t, "NoLoadTest.loss"@) == Some(l),
            None => num_at(m, t, "NoLoadTest.loss"@) is None,
        }
        &&& told(m, xf.windings[0].s_rating) ==> num_at(m, t, "TransformerTest.basePower"@) == Some(
            xf.windings[0].s_rating,
        )
    } else {
        get_of(o, "TransformerEndInfo.EnergisedEndNoLoadTests"@) is None
    }
}

#[verifier::rlimit(40)]
proof fn lemma_noload_says(w: WriterV, m: Sem, xf: DistTransformerV)
    ensures
        noload_json(w, m, xf).1 matches JsonV::Obj(t) && (match extra_num(
            m,
            xf.extras,
            "%imag"@,
        ) {
            Some(i) => told(m, i) ==> num_at(m, t, "NoLoadTest.excitingCurrent"@) == Some(i),
            None => num_at(m, t, "NoLoadTest.excitingCurrent"@) is None,
        }) && (match loss_of(m, xf) {
            Some(l) => told(m, l) ==> num_at(m, t, "NoLoadTest.loss"@) == Some(l),
            None => num_at(m, t, "NoLoadTest.loss"@) is None,
        }) && (told(m, xf.windings[0].s_rating) ==> num_at(m, t, "TransformerTest.basePower"@)
            == Some(xf.windings[0].s_rating)),
{
    broadcast use lemma_get_put;

    reveal(noload_json);
    reveal(WriterV::num);
    reveal(num_at);
    reveal_strlit("NoLoadTest.energisedEndVoltage");
    reveal_strlit("NoLoadTest.excitingCurrent");
    reveal_strlit("NoLoadTest.loss");
    reveal_strlit("TransformerTest.basePower");
    assert("NoLoadTest.energisedEndVoltage"@.len() == 30);
    assert("NoLoadTest.excitingCurrent"@.len() == 26);
    assert("NoLoadTest.loss"@.len() == 15);
    assert("TransformerTest.basePower"@.len() == 25);
    let name = xf.name + "_info_1_noload"@;
    lemma_identified("NoLoadTest"@, name, None, "NoLoadTest.excitingCurrent"@);
    lemma_identified("NoLoadTest"@, name, None, "NoLoadTest.loss"@);
}

#[verifier::rlimit(40)]
pub proof fn lemma_tested_noload(w: WriterV, m: Sem, xf: DistTransformerV, info: Entries)
    requires
        get_of(info, "TransformerEndInfo.EnergisedEndNoLoadTests"@) is None,
    ensures
        says_noload(m, tested_json(w, m, xf, info).1, xf),
{
    broadcast use lemma_get_put;

    reveal(tested_json);
    lemma_info_keys();
    let x = xf.windings[0];
    lemma_noload_says(w, m, xf);
    if let Some(base) = z_base_of(m, x.v_ref, x.s_rating) {
        let (v, _test) = circuit_json(w, m, xf, base);
        let u = if xf.xsc_pct.len() > 1 {
            v.warn(
                "transformer "@ + xf.name
                    + ": only the first winding pair's short-circuit reactance is carried; the document format does not encode the remaining pairs"@,
            )
        } else {
            v
        };
        lemma_noload_says(u, m, xf);
    }
}

/// The extras that come back of a transformer's: its identifier, and what its
/// no-load tests carry. The loss has been to watts and back.
pub open spec fn comes_of_extras(m: Sem, back: Entries, xf: DistTransformerV) -> bool {
    let s = xf.windings[0].s_rating;
    &&& extras_mrid_of(back) == Some(
        written_id("PowerTransformer"@, xf.name, extras_mrid_of(xf.extras)),
    )
    &&& match extra_num(m, xf.extras, "%imag"@) {
        Some(i) => told(m, i) && num_lt(ZERO, abs_of(i)) ==> get_of(back, "%imag"@) == Some(
            float_json(m, i),
        ),
        None => get_of(back, "%imag"@) is None,
    }
    &&& match loss_of(m, xf) {
        Some(l) => told(m, l) && told(m, s) && num_lt(ZERO, s) && num_lt(ZERO, abs_of(l))
            ==> get_of(back, "%noloadloss"@) == Some(
            float_json(m, m.times(m.over(l, s), HUNDRED)),
        ),
        None => get_of(back, "%noloadloss"@) is None,
    }
}

/// Records without no-load tests add nothing.
proof fn lemma_noload_rests(m: Sem, extras: Entries, infos: Seq<(u64, Entries)>, i: int)
    requires
        0 <= i,
        forall|k: int|
            i <= k < infos.len() ==> get_of(
                (#[trigger] infos[k]).1,
                "TransformerEndInfo.EnergisedEndNoLoadTests"@,
            ) is None,
    ensures
        noload_from(m, extras, infos, i) == extras,
    decreases infos.len() - i,
{
    if i < infos.len() {
        assert(get_of(infos[i].1, "TransformerEndInfo.EnergisedEndNoLoadTests"@) is None);
        lemma_noload_rests(m, extras, infos, i + 1);
    }
}

#[verifier::rlimit(40)]
pub proof fn lemma_extras_come_back(
    m: Sem,
    props: Entries,
    infos: Seq<(u64, Entries)>,
    xf: DistTransformerV,
)
    requires
        infos.len() > 0,
        get_of(props, "IdentifiedObject.mRID"@) == Some(
            JsonV::Str(written_id("PowerTransformer"@, xf.name, extras_mrid_of(xf.extras))),
        ),
        says_noload(m, infos[0].1, xf),
        forall|k: int|
            1 <= k < infos.len() ==> get_of(
                (#[trigger] infos[k]).1,
                "TransformerEndInfo.EnergisedEndNoLoadTests"@,
            ) is None,
    ensures
        comes_of_extras(m, noload_from(m, mrid_extras(props), infos, 0), xf),
{
    broadcast use lemma_get_put;

    reveal_strlit("ravens_mrid");
    reveal_strlit("%imag");
    reveal_strlit("%noloadloss");
    assert("ravens_mrid"@.len() == 11 && "%imag"@.len() == 5);
    assert("%noloadloss"@.len() == 11 && "%noloadloss"@[0] == '%' && "ravens_mrid"@[0] == 'r');
    let e = mrid_extras(props);
    lemma_get_none("%imag"@);
    lemma_get_none("%noloadloss"@);
    assert(get_of(e, "%imag"@) is None && get_of(e, "%noloadloss"@) is None) by {
        reveal(mrid_extras);
    }
    lemma_extras_hold_id(
        props,
        written_id("PowerTransformer"@, xf.name, extras_mrid_of(xf.extras)),
    );
    lemma_noload_rests(m, e, infos, 1);
    reveal_with_fuel(noload_n, 2);
}

} // verus!
