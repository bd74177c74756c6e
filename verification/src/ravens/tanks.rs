//! Transformer tanks and their catalog records.

use vstd::prelude::*;

use crate::cim::read::{z_base, z_base_of};
use crate::json::{float_json, get_of, put_of, str_of, Entries, Json, JsonMap, JsonV};
use crate::math::{
    abs, abs_of, le, lt, minus, num_le, num_lt, over, plus, times, Bits, Calc, Sem, HALF, HUNDRED,
    MICRO, MINUS_ONE, ONE, ONE_AND_HALF, ZERO,
};
use crate::matrix::{max3, max_usize};
use crate::model::{
    dist_transformer_of, repeat_of, winding_of, DistNetworkV, DistTransformer, DistTransformerV,
    Winding, WindingConn, WindingV,
};
use crate::numeral::{dec, dec_of};
use crate::order::{contains, copy_list};
use crate::ravens::doc::{
    bool_at, find_named, get_bool, get_list, get_num, get_num_or, get_suffix, get_target, get_uint,
    list_at, named_of, num_at, num_or, sorted_kind, sorted_of_kind, suffix_at, target_at, uint_at,
    Obj, ObjV,
};
use crate::ravens::lines::{extras_with_mrid, mrid_extras};
use crate::ravens::name::{
    expand_phase_code, hot, hot_of, letters_of, letters_to_terminals, terminals_of,
};
use crate::ravens::state::{State, StateV};
use crate::terminals::{three_phase_map, three_phases};
use crate::text::{cat2, cat3, cat4, cat5, group_views, opt_view, same, views};

verus! {

// ---- catalog records -------------------------------------------------------

/// Where an end number goes among ascending ones.
pub open spec fn info_slot(s: Seq<(u64, Entries)>, n: u64, i: int) -> int
    decreases s.len() - i,
{
    if i < 0 || i >= s.len() || n <= s[i].0 {
        i
    } else {
        info_slot(s, n, i + 1)
    }
}

/// The records by end number, with one more; of two for one end the last
/// stands.
pub open spec fn info_put(s: Seq<(u64, Entries)>, x: (u64, Entries)) -> Seq<(u64, Entries)> {
    let i = info_slot(s, x.0, 0);
    if i < s.len() && s[i].0 == x.0 {
        s.update(i, x)
    } else {
        s.insert(i, x)
    }
}

pub open spec fn infos_n(items: Seq<JsonV>, n: nat) -> Seq<(u64, Entries)>
    decreases n,
{
    if n == 0 {
        seq![]
    } else {
        let before = infos_n(items, (n - 1) as nat);
        match items[n - 1] {
            JsonV::Obj(e) => match uint_at(e, "TransformerEndInfo.endNumber"@) {
                Some(k) => info_put(before, (k, e)),
                None => before,
            },
            _ => before,
        }
    }
}

/// The catalog records of a datasheet, by end number.
#[verifier::opaque]
pub open spec fn infos_of(props: Entries) -> Seq<(u64, Entries)> {
    let items = list_at(props, "TransformerTankInfo.TransformerEndInfos"@);
    infos_n(items, items.len())
}

fn end_infos(props: &JsonMap) -> (r: Vec<(u64, &JsonMap)>)
    ensures
        views(r@) == infos_of(props@),
{
    broadcast use group_views;

    reveal(infos_of);
    let mut r: Vec<(u64, &JsonMap)> = Vec::new();
    assert(views(r@) =~= seq![]);
    if let Some(items) = get_list(props, "TransformerTankInfo.TransformerEndInfos") {
        let mut n: usize = 0;
        while n < items.len()
            invariant
                n <= items.len(),
                views(r@) == infos_n(views(items@), n as nat),
            decreases items.len() - n,
        {
            assert(views(items@)[n as int] == items@[n as int]@);
            if let Some(e) = items[n].as_obj() {
                if let Some(k) = get_uint(e, "TransformerEndInfo.endNumber") {
                    let ghost before = views(r@);
                    let mut i: usize = 0;
                    while i < r.len() && k > r[i].0
                        invariant
                            i <= r.len(),
                            views(r@) == before,
                            info_slot(before, k, 0) == info_slot(before, k, i as int),
                        decreases r.len() - i,
                    {
                        assert(views(r@)[i as int] == (r@[i as int].0, r@[i as int].1@));
                        i = i + 1;
                    }
                    assert(before.len() == r.len());
                    if i < r.len() {
                        assert(views(r@)[i as int] == (r@[i as int].0, r@[i as int].1@));
                    }
                    if i < r.len() && r[i].0 == k {
                        r.set(i, (k, e));
                        assert(views(r@) =~= before.update(i as int, (k, e@)));
                    } else {
                        r.insert(i, (k, e));
                        assert(views(r@) =~= before.insert(i as int, (k, e@)));
                    }
                }
            }
            n = n + 1;
        }
        assert(views(items@).len() == items.len());
    }
    r
}

/// The record of an end.
pub open spec fn info_at(s: Seq<(u64, Entries)>, n: u64, i: int) -> Option<Entries>
    decreases s.len() - i,
{
    if i < 0 || i >= s.len() {
        None
    } else if s[i].0 == n {
        Some(s[i].1)
    } else {
        info_at(s, n, i + 1)
    }
}

fn find_info<'a>(s: &Vec<(u64, &'a JsonMap)>, n: u64) -> (r: Option<&'a JsonMap>)
    ensures
        match r {
            Some(e) => info_at(views(s@), n, 0) == Some(e@),
            None => info_at(views(s@), n, 0) is None,
        },
{
    let mut i: usize = 0;
    while i < s.len()
        invariant
            i <= s.len(),
            info_at(views(s@), n, 0) == info_at(views(s@), n, i as int),
        decreases s.len() - i,
    {
        assert(views(s@)[i as int] == (s@[i as int].0, s@[i as int].1@));
        if s[i].0 == n {
            return Some(s[i].1);
        }
        i = i + 1;
    }
    None
}

// ---- ends ------------------------------------------------------------------

pub open spec fn end_slot(s: Seq<(u64, Entries)>, n: u64, i: int) -> int
    decreases s.len() - i,
{
    if i < 0 || i >= s.len() || n < s[i].0 {
        i
    } else {
        end_slot(s, n, i + 1)
    }
}

/// The ends among the first `n` entries, by end number; those of one number
/// stay in list order.
pub open spec fn ends_n(items: Seq<JsonV>, n: nat) -> Seq<(u64, Entries)>
    decreases n,
{
    if n == 0 {
        seq![]
    } else {
        let before = ends_n(items, (n - 1) as nat);
        match items[n - 1] {
            JsonV::Obj(e) => {
                let k = match uint_at(e, "TransformerEnd.endNumber"@) {
                    Some(k) => k,
                    None => 1,
                };
                before.insert(end_slot(before, k, 0), (k, e))
            },
            _ => before,
        }
    }
}

#[verifier::opaque]
pub open spec fn ends_of(props: Entries) -> Seq<(u64, Entries)> {
    let items = list_at(props, "TransformerTank.TransformerTankEnd"@);
    ends_n(items, items.len())
}

fn tank_ends(props: &JsonMap) -> (r: Vec<(u64, &JsonMap)>)
    ensures
        views(r@) == ends_of(props@),
{
    broadcast use group_views;

    reveal(ends_of);
    let mut r: Vec<(u64, &JsonMap)> = Vec::new();
    assert(views(r@) =~= seq![]);
    if let Some(items) = get_list(props, "TransformerTank.TransformerTankEnd") {
        let mut n: usize = 0;
        while n < items.len()
            invariant
                n <= items.len(),
                views(r@) == ends_n(views(items@), n as nat),
            decreases items.len() - n,
        {
            assert(views(items@)[n as int] == items@[n as int]@);
            if let Some(e) = items[n].as_obj() {
                let k: u64 = match get_uint(e, "TransformerEnd.endNumber") {
                    Some(k) => k,
                    None => 1,
                };
                let ghost before = views(r@);
                let mut i: usize = 0;
                while i < r.len() && k >= r[i].0
                    invariant
                        i <= r.len(),
                        views(r@) == before,
                        end_slot(before, k, 0) == end_slot(before, k, i as int),
                    decreases r.len() - i,
                {
                    assert(views(r@)[i as int] == (r@[i as int].0, r@[i as int].1@));
                    i = i + 1;
                }
                if i < r.len() {
                    assert(views(r@)[i as int] == (r@[i as int].0, r@[i as int].1@));
                }
                r.insert(i, (k, e));
                assert(views(r@) =~= before.insert(i as int, (k, e@)));
            }
            n = n + 1;
        }
        assert(views(items@).len() == items.len());
    }
    r
}

/// The node of an end: that of the first of its terminals.
#[verifier::opaque]
pub open spec fn end_node_of(end: Entries) -> Option<Seq<char>> {
    let items = list_at(end, "ConductingEquipment.Terminals"@);
    if items.len() == 0 {
        None
    } else {
        match items[0] {
            JsonV::Obj(t) => target_at(t, "Terminal.ConnectivityNode"@),
            _ => None,
        }
    }
}

fn end_node(end: &JsonMap) -> (r: Option<String>)
    ensures
        opt_view(r) == end_node_of(end@),
{
    reveal(end_node_of);
    match get_list(end, "ConductingEquipment.Terminals") {
        Some(items) => {
            assert(views(items@).len() == items.len());
            if items.len() == 0 {
                None
            } else {
                assert(views(items@)[0] == items@[0]@);
                match items[0].as_obj() {
                    Some(t) => get_target(t, "Terminal.ConnectivityNode"),
                    None => None,
                }
            }
        },
        None => None,
    }
}

/// The phase letters of an end, under either name of the attribute.
#[verifier::opaque]
pub open spec fn end_letters_of(end: Entries) -> Seq<Seq<char>> {
    let v = match get_of(end, "TransformerTankEnd.orderedPhases"@) {
        Some(v) => Some(v),
        None => get_of(end, "TransformerTankEnd.phases"@),
    };
    match v {
        Some(v) => match str_of(v) {
            Some(s) => letters_of(s),
            None => seq![],
        },
        None => seq![],
    }
}

fn end_letters(end: &JsonMap) -> (r: Vec<String>)
    ensures
        views(r@) == end_letters_of(end@),
{
    broadcast use group_views;

    reveal(end_letters_of);
    let v = match end.get("TransformerTankEnd.orderedPhases") {
        Some(v) => Some(v),
        None => end.get("TransformerTankEnd.phases"),
    };
    let r = match v {
        Some(v) => match v.as_str() {
            Some(s) => expand_phase_code(s.as_str()),
            None => Vec::new(),
        },
        None => Vec::new(),
    };
    assert(views(r@) =~= end_letters_of(end@));
    r
}

/// The head of a warning about an end.
pub open spec fn about_end(name: Seq<char>, num: u64) -> Seq<char> {
    "transformer tank "@ + name + ": end "@ + dec_of(num as nat)
}

fn about(name: &str, num: u64) -> (r: String)
    ensures
        r@ == about_end(name@, num),
{
    let n = dec(num);
    cat4("transformer tank ", name, ": end ", n.as_str())
}

/// The state and the connection of an end; one that is neither delta nor wye is
/// reported and read as wye.
#[verifier::opaque]
pub open spec fn end_conn_of(st: StateV, name: Seq<char>, num: u64, info: Entries) -> (
    StateV,
    WindingConn,
) {
    let conn = match suffix_at(info, "TransformerEndInfo.connectionKind"@) {
        Some(c) => c,
        None => "Y"@,
    };
    if conn == "D"@ || conn == "A"@ {
        (st, WindingConn::Delta)
    } else if conn == "Y"@ || conn == "Yn"@ || conn == "I"@ {
        (st, WindingConn::Wye)
    } else {
        (
            st.warn(
                about_end(name, num) + " connection `"@ + conn
                    + "` is not typed; treated as wye"@,
            ),
            WindingConn::Wye,
        )
    }
}

fn end_conn(st: &mut State, name: &str, num: u64, info: &JsonMap) -> (r: WindingConn)
    ensures
        (final(st)@, r) == end_conn_of(old(st)@, name@, num, info@),
{
    reveal(end_conn_of);
    let conn = match get_suffix(info, "TransformerEndInfo.connectionKind") {
        Some(c) => c,
        None => "Y".to_owned(),
    };
    let c = conn.as_str();
    if same(c, "D") || same(c, "A") {
        WindingConn::Delta
    } else if same(c, "Y") || same(c, "Yn") || same(c, "I") {
        WindingConn::Wye
    } else {
        let head = about(name, num);
        st.warn(
            cat4(
                head.as_str(),
                " connection `",
                c,
                "` is not typed; treated as wye",
            ),
        );
        WindingConn::Wye
    }
}

/// The state once the vector group of an end has been looked at: the model
/// carries no shift.
#[verifier::opaque]
pub open spec fn end_clock_of(st: StateV, name: Seq<char>, num: u64, info: Entries) -> StateV {
    match uint_at(info, "TransformerEndInfo.phaseAngleClock"@) {
        Some(clock) => if clock != 0 {
            st.warn(
                about_end(name, num) + " phaseAngleClock "@ + dec_of(clock as nat)
                    + " is not modeled (the model carries no vector-group shift)"@,
            )
        } else {
            st
        },
        None => st,
    }
}

fn end_clock(st: &mut State, name: &str, num: u64, info: &JsonMap)
    ensures
        final(st)@ == end_clock_of(old(st)@, name@, num, info@),
{
    reveal(end_clock_of);
    if let Some(clock) = get_uint(info, "TransformerEndInfo.phaseAngleClock") {
        if clock != 0 {
            let head = about(name, num);
            let c = dec(clock);
            st.warn(
                cat4(
                    head.as_str(),
                    " phaseAngleClock ",
                    c.as_str(),
                    " is not modeled (the model carries no vector-group shift)",
                ),
            );
        }
    }
}

/// Whether an end's neutral is grounded.
pub open spec fn is_grounded(end: Entries) -> bool {
    bool_at(end, "TransformerEnd.grounded"@) == Some(true)
}

/// The state and the terminals of an end; a grounded wye has its neutral.
#[verifier::opaque]
pub open spec fn end_map_of(st: StateV, name: Seq<char>, end: Entries, conn: WindingConn) -> (
    StateV,
    Seq<Seq<char>>,
) {
    let named = terminals_of(end_letters_of(end));
    let (phased, map) = if named.len() == 0 {
        (st.defaulted("transformer"@, name, "phases"@), three_phases())
    } else {
        (st, named)
    };
    if conn == WindingConn::Wye && is_grounded(end) && !map.contains("4"@) {
        (phased, map.push("4"@))
    } else {
        (phased, map)
    }
}

fn end_map(st: &mut State, name: &str, end: &JsonMap, conn: WindingConn, grounded: bool) -> (r: Vec<
    String,
>)
    requires
        grounded == is_grounded(end@),
    ensures
        (final(st)@, views(r@)) == end_map_of(old(st)@, name@, end@, conn),
{
    broadcast use group_views;

    reveal(end_map_of);
    let letters = end_letters(end);
    let mut map = letters_to_terminals(&letters);
    assert(views(map@).len() == map.len());
    if map.len() == 0 {
        map = three_phase_map();
        st.defaulted("transformer", name, "phases");
    }
    if conn == WindingConn::Wye && grounded && !contains(&map, "4") {
        map.push("4".to_owned());
    }
    map
}

/// The winding of an end, its neutral left aside: its resistance is in percent
/// of its impedance base.
#[verifier::opaque]
pub open spec fn rated_winding(
    m: Sem,
    info: Entries,
    node: Seq<char>,
    map: Seq<Seq<char>>,
    conn: WindingConn,
) -> WindingV {
    let v = num_or(m, info, "TransformerEndInfo.ratedU"@, ZERO);
    let s = num_or(m, info, "TransformerEndInfo.ratedS"@, ZERO);
    let bare = winding_of(node, map, conn, v, s);
    match (num_at(m, info, "TransformerEndInfo.r"@), z_base_of(m, v, s)) {
        (Some(r), Some(base)) => WindingV { r_pct: m.times(m.over(r, base), HUNDRED), ..bare },
        _ => bare,
    }
}

fn make_winding<C: Calc>(
    math: &C,
    info: &JsonMap,
    node: &str,
    map: &Vec<String>,
    conn: WindingConn,
) -> (r:
    Winding)
    ensures
        r@ == rated_winding(math.sem(), info@, node@, views(map@), conn),
{
    reveal(rated_winding);
    let v = get_num_or(math, info, "TransformerEndInfo.ratedU", ZERO);
    let s = get_num_or(math, info, "TransformerEndInfo.ratedS", ZERO);
    let mut w = Winding::new(node.to_owned(), copy_list(map), conn, v, s);
    if let Some(r) = get_num(math, info, "TransformerEndInfo.r") {
        if let Some(base) = z_base(math, v, s) {
            w.r_pct = times(math, over(math, r, base), HUNDRED);
        }
    }
    w
}

/// The state and the winding once its neutral is settled: a grounded wye notes
/// a real impedance and grounds its node, an open one has a negative
/// resistance.
#[verifier::opaque]
pub open spec fn neutral_of(
    m: Sem,
    st: StateV,
    name: Seq<char>,
    end: Entries,
    node: Seq<char>,
    map: Seq<Seq<char>>,
    w: WindingV,
) -> (StateV, WindingV) {
    let rg = num_or(m, end, "TransformerEnd.rground"@, ZERO);
    let xg = num_or(m, end, "TransformerEnd.xground"@, ZERO);
    if w.conn != WindingConn::Wye {
        (st, w)
    } else if is_grounded(end) {
        (
            if map.contains("4"@) {
                st.ground_node(node)
            } else {
                st
            },
            if num_lt(ZERO, abs_of(rg)) || num_lt(ZERO, abs_of(xg)) {
                WindingV { r_neutral: Some(rg), x_neutral: Some(xg), ..w }
            } else {
                w
            },
        )
    } else {
        (
            st.defaulted("transformer"@, name, "rneut"@),
            WindingV { r_neutral: Some(MINUS_ONE), x_neutral: Some(ZERO), ..w },
        )
    }
}

fn settle_neutral<C: Calc>(
    math: &C,
    st: &mut State,
    name: &str,
    end: &JsonMap,
    grounded: bool,
    node: &str,
    map: &Vec<String>,
    w: Winding,
) -> (r: Winding)
    requires
        grounded == is_grounded(end@),
    ensures
        (final(st)@, r@) == neutral_of(
            math.sem(),
            old(st)@,
            name@,
            end@,
            node@,
            views(map@),
            w@,
        ),
{
    reveal(neutral_of);
    let mut w = w;
    if w.conn == WindingConn::Wye {
        if grounded {
            let rg = get_num_or(math, end, "TransformerEnd.rground", ZERO);
            let xg = get_num_or(math, end, "TransformerEnd.xground", ZERO);
            if lt(ZERO, abs(rg)) || lt(ZERO, abs(xg)) {
                w.r_neutral = Some(rg);
                w.x_neutral = Some(xg);
            }
            if contains(map, "4") {
                st.ground_node(node);
            }
        } else {
            w.r_neutral = Some(MINUS_ONE);
            w.x_neutral = Some(ZERO);
            st.defaulted("transformer", name, "rneut");
        }
    }
    w
}

/// The state and the winding of one end; no winding where the end has no
/// terminal or no catalog record.
pub open spec fn end_step(
    m: Sem,
    st: StateV,
    name: Seq<char>,
    infos: Seq<(u64, Entries)>,
    num: u64,
    end: Entries,
) -> (StateV, Option<WindingV>) {
    match end_node_of(end) {
        None => (
            st.warn(about_end(name, num) + " has no terminal; kept untyped"@),
            None,
        ),
        Some(node) => match info_at(infos, num, 0) {
            None => (
                st.warn(about_end(name, num) + " has no TransformerEndInfo; kept untyped"@),
                None,
            ),
            Some(info) => {
                let (typed, conn) = end_conn_of(st, name, num, info);
                let clocked = end_clock_of(typed, name, num, info);
                let (mapped, map) = end_map_of(clocked, name, end, conn);
                let w = rated_winding(m, info, node, map, conn);
                let (settled, w) = neutral_of(m, mapped, name, end, node, map, w);
                (settled.use_terminals(node, map), Some(w))
            },
        },
    }
}

fn read_end<C: Calc>(
    math: &C,
    st: &mut State,
    name: &str,
    infos: &Vec<(u64, &JsonMap)>,
    num: u64,
    end: &JsonMap,
) -> (r: Option<Winding>)
    ensures
        (final(st)@, opt_view(r)) == end_step(
            math.sem(),
            old(st)@,
            name@,
            views(infos@),
            num,
            end@,
        ),
{
    let node = match end_node(end) {
        Some(n) => n,
        None => {
            let head = about(name, num);
            st.warn(cat2(head.as_str(), " has no terminal; kept untyped"));
            return None;
        },
    };
    let info = match find_info(infos, num) {
        Some(i) => i,
        None => {
            let head = about(name, num);
            st.warn(cat2(head.as_str(), " has no TransformerEndInfo; kept untyped"));
            return None;
        },
    };
    let conn = end_conn(st, name, num, info);
    end_clock(st, name, num, info);
    let grounded = match get_bool(end, "TransformerEnd.grounded") {
        Some(b) => b,
        None => false,
    };
    let map = end_map(st, name, end, conn, grounded);
    let w = make_winding(math, info, node.as_str(), &map, conn);
    let w = settle_neutral(math, st, name, end, grounded, node.as_str(), &map, w);
    st.use_terminals(node.as_str(), &map);
    Some(w)
}

/// Windings read so far, the most phases one of them has, and whether every end
/// gave one.
pub struct EndsV {
    pub st: StateV,
    pub windings: Seq<WindingV>,
    pub phases: nat,
    pub ok: bool,
}

pub open spec fn windings_n(
    m: Sem,
    st: StateV,
    name: Seq<char>,
    infos: Seq<(u64, Entries)>,
    ends: Seq<(u64, Entries)>,
    n: nat,
) -> EndsV
    decreases n,
{
    if n == 0 {
        EndsV { st, windings: seq![], phases: 1, ok: true }
    } else {
        let before = windings_n(m, st, name, infos, ends, (n - 1) as nat);
        if !before.ok {
            before
        } else {
            match end_step(m, before.st, name, infos, ends[n - 1].0, ends[n - 1].1) {
                (st, Some(w)) => EndsV {
                    st,
                    windings: before.windings.push(w),
                    phases: max3(before.phases, hot_of(w.terminal_map).len(), 0),
                    ok: true,
                },
                (st, None) => EndsV { st, ok: false, ..before },
            }
        }
    }
}

proof fn lemma_windings_stop(
    m: Sem,
    st: StateV,
    name: Seq<char>,
    infos: Seq<(u64, Entries)>,
    ends: Seq<(u64, Entries)>,
    k: nat,
    n: nat,
)
    requires
        k <= n,
        !windings_n(m, st, name, infos, ends, k).ok,
    ensures
        windings_n(m, st, name, infos, ends, n) == windings_n(m, st, name, infos, ends, k),
    decreases n,
{
    if k < n {
        lemma_windings_stop(m, st, name, infos, ends, k, (n - 1) as nat);
    }
}

fn read_ends<C: Calc>(
    math: &C,
    st: &mut State,
    name: &str,
    infos: &Vec<(u64, &JsonMap)>,
    ends: &Vec<(u64, &JsonMap)>,
) -> (r: Option<(Vec<Winding>, usize)>)
    ensures
        ({
            let e = windings_n(
                math.sem(),
                old(st)@,
                name@,
                views(infos@),
                views(ends@),
                ends@.len(),
            );
            &&& final(st)@ == e.st
            &&& match r {
                Some((w, p)) => e.ok && views(w@) == e.windings && p == e.phases,
                None => !e.ok,
            }
        }),
{
    broadcast use group_views;

    let mut windings: Vec<Winding> = Vec::new();
    let mut phases: usize = 1;
    let mut i: usize = 0;
    assert(views(windings@) =~= seq![]);
    while i < ends.len()
        invariant
            i <= ends.len(),
            ({
                let e = windings_n(
                    math.sem(),
                    old(st)@,
                    name@,
                    views(infos@),
                    views(ends@),
                    i as nat,
                );
                st@ == e.st && e.ok && views(windings@) == e.windings && phases == e.phases
            }),
        decreases ends.len() - i,
    {
        assert(views(ends@)[i as int] == (ends@[i as int].0, ends@[i as int].1@));
        match read_end(math, st, name, infos, ends[i].0, ends[i].1) {
            Some(w) => {
                let h = hot(&w.terminal_map);
                assert(views(h@).len() == h.len());
                phases = max_usize(phases, h.len());
                windings.push(w);
            },
            None => {
                proof {
                    lemma_windings_stop(
                        math.sem(),
                        old(st)@,
                        name@,
                        views(infos@),
                        views(ends@),
                        (i + 1) as nat,
                        ends@.len(),
                    );
                }
                return None;
            },
        }
        i = i + 1;
    }
    Some((windings, phases))
}

// ---- short-circuit tests ---------------------------------------------------

/// The number of pairs of `n` windings.
pub open spec fn pairs(n: nat) -> nat
    decreases n,
{
    if n == 0 {
        0
    } else {
        pairs((n - 1) as nat) + (n - 1) as nat
    }
}

fn zero_pairs(n: usize) -> (r: Vec<Bits>)
    ensures
        r@ == repeat_of(ZERO, pairs(n as nat)),
{
    let mut r: Vec<Bits> = Vec::new();
    let mut i: usize = 0;
    assert(r@ =~= repeat_of(ZERO, 0));
    while i < n
        invariant
            i <= n,
            r@ == repeat_of(ZERO, pairs(i as nat)),
        decreases n - i,
    {
        let mut j: usize = 0;
        while j < i
            invariant
                j <= i,
                r@ == repeat_of(ZERO, pairs(i as nat) + j as nat),
            decreases i - j,
        {
            r.push(ZERO);
            j = j + 1;
            assert(r@ =~= repeat_of(ZERO, pairs(i as nat) + j as nat));
        }
        i = i + 1;
    }
    r
}

/// The reactance a test gives, in percent of its own base.
#[verifier::opaque]
pub open spec fn test_reactance(m: Sem, info: Entries, test: Entries) -> Option<Bits> {
    let z = num_or(m, test, "ShortCircuitTest.leakageImpedance"@, ZERO);
    let power = match num_at(m, test, "TransformerTest.basePower"@) {
        Some(p) => p,
        None => num_or(m, info, "TransformerEndInfo.ratedS"@, ZERO),
    };
    match z_base_of(m, num_or(m, info, "TransformerEndInfo.ratedU"@, ZERO), power) {
        Some(base) => Some(m.times(m.over(z, base), HUNDRED)),
        None => None,
    }
}

fn read_test<C: Calc>(math: &C, info: &JsonMap, test: &JsonMap) -> (r: Option<Bits>)
    ensures
        r == test_reactance(math.sem(), info@, test@),
{
    reveal(test_reactance);
    let z = get_num_or(math, test, "ShortCircuitTest.leakageImpedance", ZERO);
    let power = match get_num(math, test, "TransformerTest.basePower") {
        Some(p) => p,
        None => get_num_or(math, info, "TransformerEndInfo.ratedS", ZERO),
    };
    let u = get_num_or(math, info, "TransformerEndInfo.ratedU", ZERO);
    match z_base(math, u, power) {
        Some(base) => Some(times(math, over(math, z, base), HUNDRED)),
        None => None,
    }
}

/// The state and the reactance once a test has been looked at: the first one
/// that gives a reactance stands, and a further one of a tank with more than two
/// windings is reported.
pub open spec fn test_step(
    m: Sem,
    st: StateV,
    name: Seq<char>,
    windings: nat,
    num: u64,
    info: Entries,
    x: Option<Bits>,
    test: JsonV,
) -> (StateV, Option<Bits>) {
    match test {
        JsonV::Obj(t) => match test_reactance(m, info, t) {
            None => (st, x),
            Some(v) => if x is None {
                (st, Some(v))
            } else if windings > 2 {
                (
                    st.warn(
                        "transformer tank "@ + name
                            + ": additional short-circuit test on end "@ + dec_of(num as nat)
                            + " is not mapped (winding-pair topology beyond two windings is not encoded in the document)"@,
                    ),
                    x,
                )
            } else {
                (st, x)
            },
        },
        _ => (st, x),
    }
}

pub open spec fn tests_n(
    m: Sem,
    st: StateV,
    name: Seq<char>,
    windings: nat,
    num: u64,
    info: Entries,
    x: Option<Bits>,
    tests: Seq<JsonV>,
    n: nat,
) -> (StateV, Option<Bits>)
    decreases n,
{
    if n == 0 {
        (st, x)
    } else {
        let before = tests_n(m, st, name, windings, num, info, x, tests, (n - 1) as nat);
        test_step(m, before.0, name, windings, num, info, before.1, tests[n - 1])
    }
}

/// The same over the records of the first `n` ends.
pub open spec fn circuit_n(
    m: Sem,
    st: StateV,
    name: Seq<char>,
    windings: nat,
    infos: Seq<(u64, Entries)>,
    n: nat,
) -> (StateV, Option<Bits>)
    decreases n,
{
    if n == 0 {
        (st, None)
    } else {
        let before = circuit_n(m, st, name, windings, infos, (n - 1) as nat);
        let info = infos[n - 1].1;
        let tests = list_at(info, "TransformerEndInfo.EnergisedEndShortCircuitTests"@);
        tests_n(
            m,
            before.0,
            name,
            windings,
            infos[n - 1].0,
            info,
            before.1,
            tests,
            tests.len(),
        )
    }
}

/// The state and the reactances between the windings of a tank: only the first
/// pair is encoded.
#[verifier::opaque]
pub open spec fn reactances_of(
    m: Sem,
    st: StateV,
    name: Seq<char>,
    windings: nat,
    infos: Seq<(u64, Entries)>,
) -> (StateV, Seq<Bits>) {
    let zero = repeat_of(ZERO, pairs(windings));
    match circuit_n(m, st, name, windings, infos, infos.len()) {
        (tested, Some(x)) => (tested, zero.update(0, x)),
        (tested, None) => (tested.defaulted("transformer"@, name, "xhl"@), zero),
    }
}

fn read_tests<C: Calc>(
    math: &C,
    st: &mut State,
    name: &str,
    windings: usize,
    num: u64,
    info: &JsonMap,
    x: Option<Bits>,
) -> (r: Option<Bits>)
    ensures
        ({
            let tests = list_at(info@, "TransformerEndInfo.EnergisedEndShortCircuitTests"@);
            (final(st)@, r) == tests_n(
                math.sem(),
                old(st)@,
                name@,
                windings as nat,
                num,
                info@,
                x,
                tests,
                tests.len(),
            )
        }),
{
    let mut found = x;
    if let Some(tests) = get_list(info, "TransformerEndInfo.EnergisedEndShortCircuitTests") {
        let mut n: usize = 0;
        while n < tests.len()
            invariant
                n <= tests.len(),
                (st@, found) == tests_n(
                    math.sem(),
                    old(st)@,
                    name@,
                    windings as nat,
                    num,
                    info@,
                    x,
                    views(tests@),
                    n as nat,
                ),
            decreases tests.len() - n,
        {
            assert(views(tests@)[n as int] == tests@[n as int]@);
            if let Some(t) = tests[n].as_obj() {
                if let Some(v) = read_test(math, info, t) {
                    if found.is_none() {
                        found = Some(v);
                    } else if windings > 2 {
                        let k = dec(num);
                        st.warn(
                            cat5(
                                "transformer tank ",
                                name,
                                ": additional short-circuit test on end ",
                                k.as_str(),
                                " is not mapped (winding-pair topology beyond two windings is not encoded in the document)",
                            ),
                        );
                    }
                }
            }
            n = n + 1;
        }
        assert(views(tests@).len() == tests.len());
    }
    found
}

proof fn lemma_pairs(n: nat)
    requires
        n >= 2,
    ensures
        pairs(n) >= 1,
    decreases n,
{
    if n > 2 {
        lemma_pairs((n - 1) as nat);
    } else {
        assert(pairs(1) == pairs(0) + 0);
        assert(pairs(2) == pairs(1) + 1);
    }
}

fn reactances<C: Calc>(
    math: &C,
    st: &mut State,
    name: &str,
    windings: usize,
    infos: &Vec<(u64, &JsonMap)>,
) -> (r: Vec<Bits>)
    requires
        windings >= 2,
    ensures
        (final(st)@, r@) == reactances_of(
            math.sem(),
            old(st)@,
            name@,
            windings as nat,
            views(infos@),
        ),
{
    reveal(reactances_of);
    let mut found: Option<Bits> = None;
    let mut n: usize = 0;
    while n < infos.len()
        invariant
            n <= infos.len(),
            (st@, found) == circuit_n(
                math.sem(),
                old(st)@,
                name@,
                windings as nat,
                views(infos@),
                n as nat,
            ),
        decreases infos.len() - n,
    {
        assert(views(infos@)[n as int] == (infos@[n as int].0, infos@[n as int].1@));
        found = read_tests(math, st, name, windings, infos[n].0, infos[n].1, found);
        n = n + 1;
    }
    assert(views(infos@).len() == infos.len());
    let mut r = zero_pairs(windings);
    match found {
        Some(x) => {
            proof {
                lemma_pairs(windings as nat);
            }
            r.set(0, x);
        },
        None => {
            st.defaulted("transformer", name, "xhl");
        },
    }
    r
}

// ---- no-load tests ---------------------------------------------------------

/// The extras with what a no-load test gives.
pub open spec fn noload_step(m: Sem, extras: Entries, test: JsonV) -> Entries {
    match test {
        JsonV::Obj(t) => {
            let power = num_or(m, t, "TransformerTest.basePower"@, ZERO);
            let e = match num_at(m, t, "NoLoadTest.loss"@) {
                Some(loss) => if num_lt(ZERO, power) && num_lt(ZERO, abs_of(loss)) {
                    put_of(
                        extras,
                        "%noloadloss"@,
                        float_json(m, m.times(m.over(loss, power), HUNDRED)),
                    )
                } else {
                    extras
                },
                None => extras,
            };
            match num_at(m, t, "NoLoadTest.excitingCurrent"@) {
                Some(i) => if num_lt(ZERO, abs_of(i)) {
                    put_of(e, "%imag"@, float_json(m, i))
                } else {
                    e
                },
                None => e,
            }
        },
        _ => extras,
    }
}

pub open spec fn noload_n(m: Sem, extras: Entries, tests: Seq<JsonV>, n: nat) -> Entries
    decreases n,
{
    if n == 0 {
        extras
    } else {
        noload_step(m, noload_n(m, extras, tests, (n - 1) as nat), tests[n - 1])
    }
}

/// The extras with the no-load tests of the first end, from the `i`-th on, that
/// lists any.
pub open spec fn noload_from(m: Sem, extras: Entries, infos: Seq<(u64, Entries)>, i: int) -> Entries
    decreases infos.len() - i,
{
    if i < 0 || i >= infos.len() {
        extras
    } else {
        match get_of(infos[i].1, "TransformerEndInfo.EnergisedEndNoLoadTests"@) {
            Some(JsonV::Arr(tests)) => noload_n(m, extras, tests, tests.len()),
            _ => noload_from(m, extras, infos, i + 1),
        }
    }
}

fn read_noload<C: Calc>(math: &C, extras: &mut JsonMap, tests: &Vec<Json>)
    ensures
        final(extras)@ == noload_n(math.sem(), old(extras)@, views(tests@), tests@.len()),
{
    let mut n: usize = 0;
    while n < tests.len()
        invariant
            n <= tests.len(),
            extras@ == noload_n(math.sem(), old(extras)@, views(tests@), n as nat),
        decreases tests.len() - n,
    {
        assert(views(tests@)[n as int] == tests@[n as int]@);
        if let Some(t) = tests[n].as_obj() {
            let power = get_num_or(math, t, "TransformerTest.basePower", ZERO);
            if let Some(loss) = get_num(math, t, "NoLoadTest.loss") {
                if lt(ZERO, power) && lt(ZERO, abs(loss)) {
                    let pct = times(math, over(math, loss, power), HUNDRED);
                    extras.put("%noloadloss".to_owned(), Json::float(math, pct));
                }
            }
            if let Some(i) = get_num(math, t, "NoLoadTest.excitingCurrent") {
                if lt(ZERO, abs(i)) {
                    extras.put("%imag".to_owned(), Json::float(math, i));
                }
            }
        }
        n = n + 1;
    }
}

fn noload<C: Calc>(math: &C, extras: &mut JsonMap, infos: &Vec<(u64, &JsonMap)>)
    ensures
        final(extras)@ == noload_from(math.sem(), old(extras)@, views(infos@), 0),
{
    let mut i: usize = 0;
    while i < infos.len()
        invariant
            i <= infos.len(),
            extras@ == old(extras)@,
            noload_from(math.sem(), old(extras)@, views(infos@), 0) == noload_from(
                math.sem(),
                old(extras)@,
                views(infos@),
                i as int,
            ),
        decreases infos.len() - i,
    {
        assert(views(infos@)[i as int] == (infos@[i as int].0, infos@[i as int].1@));
        if let Some(v) = infos[i].1.get("TransformerEndInfo.EnergisedEndNoLoadTests") {
            if let Some(tests) = v.as_arr() {
                assert(views(tests@).len() == tests@.len());
                read_noload(math, extras, tests);
                return;
            }
        }
        i = i + 1;
    }
}

// ---- tap changers ----------------------------------------------------------

/// The ratio a tap changer sets: its step, where that is a ratio itself, else
/// its steps from neutral in percent.
#[verifier::opaque]
pub open spec fn tap_ratio(m: Sem, o: Entries) -> Bits {
    let step = num_or(m, o, "TapChanger.step"@, ONE);
    let neutral = num_or(m, o, "TapChanger.neutralStep"@, ZERO);
    let increment = num_or(m, o, "RatioTapChanger.stepVoltageIncrement"@, ZERO);
    if num_le(HALF, step) && num_le(step, ONE_AND_HALF) {
        step
    } else {
        m.plus(ONE, m.over(m.times(m.minus(step, neutral), increment), HUNDRED))
    }
}

/// Whether a winding's volts are the neutral volts of a tap changer, to a
/// millionth.
pub open spec fn regulates(m: Sem, u: Bits, w: WindingV) -> bool {
    num_lt(ZERO, u) && num_le(abs_of(m.minus(w.v_ref, u)), m.times(MICRO, abs_of(u)))
}

/// The first winding, from the `i`-th on, that a tap changer regulates, else the
/// last.
pub open spec fn tapped_from(m: Sem, u: Bits, windings: Seq<WindingV>, i: int) -> int
    decreases windings.len() - i,
{
    if i < 0 || i >= windings.len() {
        windings.len() - 1
    } else if regulates(m, u, windings[i]) {
        i
    } else {
        tapped_from(m, u, windings, i + 1)
    }
}

/// The state and the windings once the tank's tap changer has been applied.
#[verifier::opaque]
pub open spec fn tapped_of(
    m: Sem,
    doc: Seq<ObjV>,
    st: StateV,
    name: Seq<char>,
    windings: Seq<WindingV>,
) -> (StateV, Seq<WindingV>) {
    match named_of(doc, "RatioTapChanger"@, name) {
        None => (st, windings),
        Some(o) => {
            let ratio = tap_ratio(m, o);
            let i = tapped_from(m, num_or(m, o, "TapChanger.neutralU"@, ZERO), windings, 0);
            (
                st.warn(
                    "transformer tank "@ + name + ": RatioTapChanger sets the winding tap to "@
                        + (m.show)(ratio)
                        + "; the regulator control settings are preserved untyped"@,
                ),
                if windings.len() > 0 {
                    windings.update(i, WindingV { tap: ratio, ..windings[i] })
                } else {
                    windings
                },
            )
        },
    }
}

fn apply_tap_changers<C: Calc>(
    math: &C,
    doc: &Vec<Obj>,
    st: &mut State,
    name: &str,
    windings: &mut Vec<Winding>,
)
    ensures
        (final(st)@, views(final(windings)@)) == tapped_of(
            math.sem(),
            views(doc@),
            old(st)@,
            name@,
            views(old(windings)@),
        ),
{
    reveal(tapped_of);
    reveal(tap_ratio);
    let o = match find_named(doc, "RatioTapChanger", name) {
        Some(o) => o,
        None => {
            return;
        },
    };
    let step = get_num_or(math, o, "TapChanger.step", ONE);
    let neutral = get_num_or(math, o, "TapChanger.neutralStep", ZERO);
    let increment = get_num_or(math, o, "RatioTapChanger.stepVoltageIncrement", ZERO);
    let ratio = if le(HALF, step) && le(step, ONE_AND_HALF) {
        step
    } else {
        plus(
            math,
            ONE,
            over(math, times(math, minus(math, step, neutral), increment), HUNDRED),
        )
    };
    let u = get_num_or(math, o, "TapChanger.neutralU", ZERO);
    let ghost before = views(windings@);
    assert(before.len() == windings.len());
    if windings.len() > 0 {
        let mut i: usize = 0;
        let mut found: bool = false;
        while i < windings.len() && !found
            invariant
                i <= windings.len(),
                windings.len() > 0,
                views(windings@) == before,
                windings@ == old(windings)@,
                tapped_from(math.sem(), u, before, 0) == tapped_from(
                    math.sem(),
                    u,
                    before,
                    i as int,
                ),
                found ==> i < windings.len() && regulates(math.sem(), u, before[i as int]),
            decreases windings.len() - i, (if found { 0int } else { 1int }),
        {
            assert(before[i as int] == windings@[i as int]@);
            if lt(ZERO, u) && le(
                abs(minus(math, windings[i].v_ref, u)),
                times(math, MICRO, abs(u)),
            ) {
                found = true;
            } else {
                i = i + 1;
            }
        }
        let k: usize = if found {
            i
        } else {
            windings.len() - 1
        };
        assert(k == tapped_from(math.sem(), u, before, 0));
        let ghost was = windings@[k as int]@;
        windings[k].tap = ratio;
        assert(windings@[k as int]@ == (WindingV { tap: ratio, ..was }));
        assert(views(windings@) =~= before.update(k as int, WindingV { tap: ratio, ..was }));
    }
    let shown = math.show(ratio);
    st.warn(
        cat5(
            "transformer tank ",
            name,
            ": RatioTapChanger sets the winding tap to ",
            shown.as_str(),
            "; the regulator control settings are preserved untyped",
        ),
    );
}

// ---- tanks -----------------------------------------------------------------

/// The datasheet of a tank.
pub open spec fn datasheet_of(doc: Seq<ObjV>, props: Entries) -> Option<Entries> {
    match target_at(props, "PowerSystemResource.AssetDatasheet"@) {
        Some(n) => named_of(doc, "TransformerTankInfo"@, n),
        None => None,
    }
}

/// The extras of a tank's transformer: the identifier of the transformer of its
/// name, and what its no-load tests give.
pub open spec fn tank_extras_of(
    m: Sem,
    doc: Seq<ObjV>,
    name: Seq<char>,
    infos: Seq<(u64, Entries)>,
) -> Entries {
    let base = match named_of(doc, "PowerTransformer"@, name) {
        Some(p) => mrid_extras(p),
        None => Entries::empty(),
    };
    noload_from(m, base, infos, 0)
}

/// One tank as a transformer. A tank without a datasheet, with fewer than two
/// ends or with an incomplete end is kept as it stands.
pub open spec fn tank_step(m: Sem, doc: Seq<ObjV>, st: StateV, o: ObjV) -> StateV {
    match datasheet_of(doc, o.props) {
        None => st.warn(
            "transformer tank "@ + o.name
                + ": no TransformerTankInfo datasheet; the tank has no voltages or impedances and is kept untyped"@,
        ).keep_untyped(o, "missing datasheet"@),
        Some(info) => {
            let infos = infos_of(info);
            let ends = ends_of(o.props);
            if ends.len() < 2 {
                st.warn(
                    "transformer tank "@ + o.name + ": fewer than two ends; kept untyped"@,
                ).keep_untyped(o, "fewer than two ends"@)
            } else {
                let e = windings_n(m, st, o.name, infos, ends, ends.len());
                if !e.ok {
                    e.st.keep_untyped(o, "incomplete ends"@)
                } else {
                    let (tested, xsc) = reactances_of(
                        m,
                        e.st,
                        o.name,
                        e.windings.len(),
                        infos,
                    );
                    let (tapped, windings) = tapped_of(m, doc, tested, o.name, e.windings);
                    let t = DistTransformerV {
                        extras: tank_extras_of(m, doc, o.name, infos),
                        ..dist_transformer_of(o.name, windings, xsc, e.phases as usize)
                    };
                    StateV {
                        net: DistNetworkV {
                            transformers: tapped.net.transformers.push(t),
                            ..tapped.net
                        },
                        ..tapped
                    }
                }
            }
        },
    }
}

pub open spec fn tanks_n(m: Sem, doc: Seq<ObjV>, st: StateV, ids: Seq<usize>, n: nat) -> StateV
    decreases n,
{
    if n == 0 {
        st
    } else {
        tank_step(m, doc, tanks_n(m, doc, st, ids, (n - 1) as nat), doc[ids[n - 1] as int])
    }
}

/// Every tank, in natural name order.
pub open spec fn map_transformers_of(m: Sem, doc: Seq<ObjV>, st: StateV) -> StateV {
    let ids = sorted_kind(doc, "TransformerTank"@);
    tanks_n(m, doc, st, ids, ids.len())
}

proof fn lemma_windings_len(
    m: Sem,
    st: StateV,
    name: Seq<char>,
    infos: Seq<(u64, Entries)>,
    ends: Seq<(u64, Entries)>,
    n: nat,
)
    ensures
        windings_n(m, st, name, infos, ends, n).ok ==> windings_n(
            m,
            st,
            name,
            infos,
            ends,
            n,
        ).windings.len() == n,
        windings_n(m, st, name, infos, ends, n).phases >= 1,
    decreases n,
{
    if n > 0 {
        lemma_windings_len(m, st, name, infos, ends, (n - 1) as nat);
    }
}

fn read_tank<C: Calc>(math: &C, doc: &Vec<Obj>, st: &mut State, o: &Obj)
    ensures
        final(st)@ == tank_step(math.sem(), views(doc@), old(st)@, o@),
{
    broadcast use group_views;

    let name = o.name.as_str();
    let info = match get_target(&o.props, "PowerSystemResource.AssetDatasheet") {
        Some(n) => find_named(doc, "TransformerTankInfo", n.as_str()),
        None => None,
    };
    let info = match info {
        Some(i) => i,
        None => {
            st.warn(
                cat3(
                    "transformer tank ",
                    name,
                    ": no TransformerTankInfo datasheet; the tank has no voltages or impedances and is kept untyped",
                ),
            );
            st.keep_untyped(o, "missing datasheet");
            return;
        },
    };
    let infos = end_infos(info);
    let ends = tank_ends(&o.props);
    assert(views(ends@).len() == ends.len());
    if ends.len() < 2 {
        st.warn(
            cat3("transformer tank ", name, ": fewer than two ends; kept untyped"),
        );
        st.keep_untyped(o, "fewer than two ends");
        return;
    }
    proof {
        lemma_windings_len(
            math.sem(),
            st@,
            name@,
            views(infos@),
            views(ends@),
            ends@.len(),
        );
    }
    let (mut windings, phases) = match read_ends(math, st, name, &infos, &ends) {
        Some(w) => w,
        None => {
            st.keep_untyped(o, "incomplete ends");
            return;
        },
    };
    assert(views(windings@).len() == windings.len());
    let xsc = reactances(math, st, name, windings.len(), &infos);
    let mut extras = match find_named(doc, "PowerTransformer", name) {
        Some(p) => extras_with_mrid(p),
        None => JsonMap::new(),
    };
    noload(math, &mut extras, &infos);
    apply_tap_changers(math, doc, st, name, &mut windings);
    let mut t = DistTransformer::new(o.name.clone(), windings, xsc, phases);
    t.extras = extras;
    st.net.transformers.push(t);
}

pub fn map_transformers<C: Calc>(math: &C, doc: &Vec<Obj>, st: &mut State)
    ensures
        final(st)@ == map_transformers_of(math.sem(), views(doc@), old(st)@),
{
    let ids = sorted_of_kind(doc, "TransformerTank");
    let mut i: usize = 0;
    while i < ids.len()
        invariant
            i <= ids.len(),
            forall|k: int| 0 <= k < ids@.len() ==> (#[trigger] ids@[k]) < doc@.len(),
            st@ == tanks_n(math.sem(), views(doc@), old(st)@, ids@, i as nat),
        decreases ids.len() - i,
    {
        assert(views(doc@)[ids@[i as int] as int] == doc@[ids@[i as int] as int]@);
        read_tank(math, doc, st, &doc[ids[i]]);
        i = i + 1;
    }
}

} // verus!
