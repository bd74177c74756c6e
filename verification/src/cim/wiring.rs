//! Which terminals, and so which buses, a written element comes back with.

use vstd::prelude::*;

use crate::cim::blocks::{
    blocks_of, bus_blocks, class_ids, flat, frequency_block, kind_ref, lemma_class_ids_add,
    lemma_class_ids_from, lemma_class_ids_none, lemma_document_is_its_blocks, lemma_says,
    line_block, line_blocks, linecode_blocks, load_block, load_blocks, shunt_block, shunt_blocks,
    source_block, source_blocks, switch_block, switch_blocks, terminal_object, transformer_block,
    transformer_blocks,
};
use crate::cim::phase::{canonical, expand_from, expand_of, push_new_of};
use crate::cim::read::{bus_at_of, sequence_of, terminal_node_of, terminals_n, terminals_of};
use crate::cim::recall::{
    lemma_block_at, lemma_classes, lemma_linecode_lacks, lemma_node_name, lemma_prop_at,
    lemma_segments_lack, told_apart, written,
};
use crate::cim::store::{distinct_ids, of_class_n, prop_from, CimObjectV, PropV, StoreV};
use crate::cim::write::{code_n, node_of, phase_code_of, phase_letter_of, terminal_id};
use crate::math::{total_rank, Sem};
use crate::model::{
    bus_from, DistBusV, DistLineV, DistLoadV, DistNetworkV, DistShuntV, DistSwitchV,
    DistTransformerV, VoltageSourceV,
};
use crate::numeral::dec_of;
use crate::order::{insert_by_rank_of, slot_by_rank};
use crate::text::{after_last_from, after_last_of, lower_of, trim_of};

verus! {

// ---- references ------------------------------------------------------------

/// Every object of a class refers, by a property, to one among these objects.
pub open spec fn refers_within(objects: Seq<CimObjectV>, class: Seq<char>, key: Seq<char>) -> bool {
    forall|i: int|
        0 <= i < objects.len() && (#[trigger] objects[i]).class == class ==> refers_to_one(
            objects,
            objects[i],
            key,
        )
}

pub open spec fn refers_to_one(objects: Seq<CimObjectV>, o: CimObjectV, key: Seq<char>) -> bool {
    exists|j: int|
        0 <= j < objects.len() && prop_from(o.props, key, 0) == Some(
            PropV::Ref((#[trigger] objects[j]).id),
        )
}

proof fn lemma_refers_add(a: Seq<CimObjectV>, b: Seq<CimObjectV>, class: Seq<char>, key: Seq<char>)
    requires
        refers_within(a, class, key),
        refers_within(b, class, key),
    ensures
        refers_within(a + b, class, key),
{
    let all = a + b;
    assert forall|i: int| 0 <= i < all.len() && (#[trigger] all[i]).class == class implies refers_to_one(
        all,
        all[i],
        key,
    ) by {
        if i < a.len() {
            assert(all[i] == a[i]);
            assert(refers_to_one(a, a[i], key));
            let j = choose|j: int|
                0 <= j < a.len() && prop_from(a[i].props, key, 0) == Some(
                    PropV::Ref((#[trigger] a[j]).id),
                );
            assert(all[j] == a[j]);
        } else {
            let k = i - a.len();
            assert(all[i] == b[k]);
            assert(refers_to_one(b, b[k], key));
            let j = choose|j: int|
                0 <= j < b.len() && prop_from(b[k].props, key, 0) == Some(
                    PropV::Ref((#[trigger] b[j]).id),
                );
            assert(all[a.len() + j] == b[j]);
        }
    }
}

pub proof fn lemma_refers_flat(bs: Seq<Seq<CimObjectV>>, class: Seq<char>, key: Seq<char>)
    requires
        forall|i: int| 0 <= i < bs.len() ==> refers_within(#[trigger] bs[i], class, key),
    ensures
        refers_within(flat(bs), class, key),
    decreases bs.len(),
{
    if bs.len() > 0 {
        let b = bs.drop_last();
        assert forall|i: int| 0 <= i < b.len() implies refers_within(#[trigger] b[i], class, key) by {
            assert(b[i] == bs[i]);
        }
        lemma_refers_flat(b, class, key);
        assert(refers_within(bs[bs.len() - 1], class, key));
        lemma_refers_add(flat(b), bs.last(), class, key);
    }
}

/// A part of a document that does not hold an object does not refer to it.
pub proof fn lemma_refers_elsewhere(
    s: StoreV,
    part: Seq<CimObjectV>,
    at: int,
    class: Seq<char>,
    key: Seq<char>,
    owner: int,
    k: int,
)
    requires
        distinct_ids(s.objects),
        refers_within(part, class, key),
        0 <= at,
        at + part.len() <= s.objects.len(),
        forall|i: int| 0 <= i < part.len() ==> s.objects[at + i] == #[trigger] part[i],
        0 <= owner < s.objects.len(),
        owner < at || at + part.len() <= owner,
        0 <= k < class_ids(part, class).len(),
    ensures
        s.refv(class_ids(part, class)[k], key) != Some(s.objects[owner].id),
{
    lemma_class_ids_from(part, class, part.len(), k);
    let id = class_ids(part, class)[k];
    let i = choose|i: int|
        0 <= i < part.len() && (#[trigger] part[i]).class == class && part[i].id == id;
    assert(s.objects[at + i] == part[i]);
    lemma_says(s, at + i);
    assert(refers_to_one(part, part[i], key));
    let j = choose|j: int|
        0 <= j < part.len() && prop_from(part[i].props, key, 0) == Some(
            PropV::Ref((#[trigger] part[j]).id),
        );
    assert(s.objects[at + j] == part[j]);
    assert(s.prop(id, key) == Some(PropV::Ref(part[j].id)));
    reveal(StoreV::refv);
    if at + j < owner {
        assert(s.objects[at + j].id != s.objects[owner].id);
    } else {
        assert(s.objects[owner].id != s.objects[at + j].id);
    }
}

// ---- terminals -------------------------------------------------------------

proof fn lemma_terminals_same(
    m: Sem,
    s: StoreV,
    eq: Seq<char>,
    a: Seq<Seq<char>>,
    b: Seq<Seq<char>>,
    n: nat,
)
    requires
        n <= a.len(),
        n <= b.len(),
        forall|i: int| 0 <= i < n ==> a[i] == b[i],
    ensures
        terminals_n(m, s, eq, a, n) == terminals_n(m, s, eq, b, n),
    decreases n,
{
    if n > 0 {
        lemma_terminals_same(m, s, eq, a, b, (n - 1) as nat);
    }
}

proof fn lemma_terminals_skip(m: Sem, s: StoreV, eq: Seq<char>, ids: Seq<Seq<char>>, a: nat, b: nat)
    requires
        a <= b <= ids.len(),
        forall|i: int|
            a <= i < b ==> s.refv(#[trigger] ids[i], "Terminal.ConductingEquipment"@) != Some(eq),
    ensures
        terminals_n(m, s, eq, ids, b) == terminals_n(m, s, eq, ids, a),
    decreases b - a,
{
    if a < b {
        lemma_terminals_skip(m, s, eq, ids, a, (b - 1) as nat);
    }
}

proof fn lemma_terminals_shift(
    m: Sem,
    s: StoreV,
    eq: Seq<char>,
    a: Seq<Seq<char>>,
    b: Seq<Seq<char>>,
    n: nat,
)
    requires
        n <= b.len(),
        forall|i: int|
            0 <= i < a.len() ==> s.refv(#[trigger] a[i], "Terminal.ConductingEquipment"@) != Some(eq),
    ensures
        terminals_n(m, s, eq, a + b, (a.len() + n) as nat) == terminals_n(m, s, eq, b, n),
    decreases n,
{
    if n == 0 {
        assert forall|i: int| 0 <= i < a.len() implies s.refv(
            #[trigger] (a + b)[i],
            "Terminal.ConductingEquipment"@,
        ) != Some(eq) by {
            assert((a + b)[i] == a[i]);
        }
        lemma_terminals_skip(m, s, eq, a + b, 0, a.len());
    } else {
        lemma_terminals_shift(m, s, eq, a, b, (n - 1) as nat);
        assert((a + b)[a.len() + n - 1] == b[n - 1]);
    }
}

/// Of identifiers between others that are not an equipment's terminals, only
/// those between count.
proof fn lemma_terminals_middle(
    m: Sem,
    s: StoreV,
    eq: Seq<char>,
    a: Seq<Seq<char>>,
    b: Seq<Seq<char>>,
    c: Seq<Seq<char>>,
)
    requires
        forall|i: int|
            0 <= i < a.len() ==> s.refv(#[trigger] a[i], "Terminal.ConductingEquipment"@) != Some(eq),
        forall|i: int|
            0 <= i < c.len() ==> s.refv(#[trigger] c[i], "Terminal.ConductingEquipment"@) != Some(eq),
    ensures
        terminals_n(m, s, eq, a + b + c, (a + b + c).len()) == terminals_n(m, s, eq, b, b.len()),
{
    let all = a + b + c;
    let n = (a.len() + b.len()) as nat;
    assert forall|i: int| n <= i < all.len() implies s.refv(
        #[trigger] all[i],
        "Terminal.ConductingEquipment"@,
    ) != Some(eq) by {
        assert(all[i] == c[i - n]);
    }
    lemma_terminals_skip(m, s, eq, all, n, all.len());
    lemma_terminals_same(m, s, eq, all, a + b, n);
    lemma_terminals_shift(m, s, eq, a, b, b.len());
}

/// Every block of a document keeps its terminals to itself.
#[verifier::rlimit(40)]
proof fn lemma_block_terminals(m: Sem, net: DistNetworkV, k: int)
    requires
        0 <= k < blocks_of(m, net).len(),
    ensures
        refers_within(blocks_of(m, net)[k], "Terminal"@, "Terminal.ConductingEquipment"@),
{
    let t = "Terminal"@;
    let key = "Terminal.ConductingEquipment"@;
    lemma_classes();
    lemma_segments_lack(m, net, t);
    let n1 = 1int;
    let n2 = n1 + net.buses.len();
    let n3 = n2 + net.linecodes.len();
    let n4 = n3 + net.lines.len();
    let n5 = n4 + net.loads.len();
    let n6 = n5 + net.shunts.len();
    let n7 = n6 + net.switches.len();
    let n8 = n7 + net.transformers.len();
    let b = blocks_of(m, net)[k];
    if k < n1 {
        assert(b == seq![frequency_block(m, net)][k]);
    } else if k < n2 {
        assert(b == bus_blocks(net)[k - n1]);
    } else if k < n3 {
        assert(b == linecode_blocks(m, net)[k - n2]);
        lemma_linecode_lacks(m, net.linecodes[k - n2], t);
    } else if k < n4 {
        lemma_line_terminals(m, net, net.lines[k - n3]);
        assert(b == line_blocks(m, net)[k - n3]);
    } else if k < n5 {
        lemma_load_terminals(m, net, net.loads[k - n4]);
        assert(b == load_blocks(m, net)[k - n4]);
    } else if k < n6 {
        lemma_shunt_terminals(m, net, net.shunts[k - n5]);
        assert(b == shunt_blocks(m, net)[k - n5]);
    } else if k < n7 {
        lemma_switch_terminals(net, net.switches[k - n6]);
        assert(b == switch_blocks(net)[k - n6]);
    } else if k < n8 {
        lemma_transformer_terminals(m, net, net.transformers[k - n7]);
        assert(b == transformer_blocks(m, net)[k - n7]);
    } else {
        lemma_source_terminals(m, net, net.sources[k - n8]);
        assert(b == source_blocks(m, net)[k - n8]);
    }
}

proof fn lemma_line_terminals(m: Sem, net: DistNetworkV, line: DistLineV)
    ensures
        refers_within(line_block(m, net, line), "Terminal"@, "Terminal.ConductingEquipment"@),
{
    lemma_classes();
    let b = line_block(m, net, line);
    let key = "Terminal.ConductingEquipment"@;
    assert forall|i: int| 0 <= i < b.len() && (#[trigger] b[i]).class == "Terminal"@ implies refers_to_one(
        b,
        b[i],
        key,
    ) by {
        assert(i == 1 || i == 2);
        assert(prop_from(b[i].props, key, 0) == Some(PropV::Ref(b[0].id)));
    }
}

proof fn lemma_load_terminals(m: Sem, net: DistNetworkV, load: DistLoadV)
    ensures
        refers_within(load_block(m, net, load), "Terminal"@, "Terminal.ConductingEquipment"@),
{
    lemma_classes();
    let b = load_block(m, net, load);
    let key = "Terminal.ConductingEquipment"@;
    assert forall|i: int| 0 <= i < b.len() && (#[trigger] b[i]).class == "Terminal"@ implies refers_to_one(
        b,
        b[i],
        key,
    ) by {
        assert(i == 1);
        assert(prop_from(b[i].props, key, 0) == Some(PropV::Ref(b[0].id)));
    }
}

proof fn lemma_shunt_terminals(m: Sem, net: DistNetworkV, shunt: DistShuntV)
    ensures
        refers_within(shunt_block(m, net, shunt), "Terminal"@, "Terminal.ConductingEquipment"@),
{
    lemma_classes();
    let b = shunt_block(m, net, shunt);
    let key = "Terminal.ConductingEquipment"@;
    assert forall|i: int| 0 <= i < b.len() && (#[trigger] b[i]).class == "Terminal"@ implies refers_to_one(
        b,
        b[i],
        key,
    ) by {
        assert(i == 1);
        assert(prop_from(b[i].props, key, 0) == Some(PropV::Ref(b[0].id)));
    }
}

proof fn lemma_switch_terminals(net: DistNetworkV, s: DistSwitchV)
    ensures
        refers_within(switch_block(net, s), "Terminal"@, "Terminal.ConductingEquipment"@),
{
    lemma_classes();
    let b = switch_block(net, s);
    let key = "Terminal.ConductingEquipment"@;
    assert forall|i: int| 0 <= i < b.len() && (#[trigger] b[i]).class == "Terminal"@ implies refers_to_one(
        b,
        b[i],
        key,
    ) by {
        assert(i == 1 || i == 2);
        assert(prop_from(b[i].props, key, 0) == Some(PropV::Ref(b[0].id)));
    }
}

proof fn lemma_transformer_terminals(m: Sem, net: DistNetworkV, xf: DistTransformerV)
    ensures
        refers_within(transformer_block(m, net, xf), "Terminal"@, "Terminal.ConductingEquipment"@),
{
    lemma_classes();
    let b = transformer_block(m, net, xf);
    let key = "Terminal.ConductingEquipment"@;
    assert forall|i: int| 0 <= i < b.len() && (#[trigger] b[i]).class == "Terminal"@ implies refers_to_one(
        b,
        b[i],
        key,
    ) by {
        assert(i == 1 || i == 3);
        assert(prop_from(b[i].props, key, 0) == Some(PropV::Ref(b[0].id)));
    }
}

proof fn lemma_source_terminals(m: Sem, net: DistNetworkV, s: VoltageSourceV)
    ensures
        refers_within(source_block(m, net, s), "Terminal"@, "Terminal.ConductingEquipment"@),
{
    lemma_classes();
    let b = source_block(m, net, s);
    let key = "Terminal.ConductingEquipment"@;
    assert forall|i: int| 0 <= i < b.len() && (#[trigger] b[i]).class == "Terminal"@ implies refers_to_one(
        b,
        b[i],
        key,
    ) by {
        assert(i == 1);
        assert(prop_from(b[i].props, key, 0) == Some(PropV::Ref(b[0].id)));
    }
}

/// The terminals of an equipment are those of its block.
#[verifier::rlimit(40)]
proof fn lemma_terminals_of_block(m: Sem, net: DistNetworkV, k: int)
    requires
        told_apart(m, net),
        0 <= k < blocks_of(m, net).len(),
        blocks_of(m, net)[k].len() > 0,
    ensures
        ({
            let b = blocks_of(m, net)[k];
            let ids = class_ids(b, "Terminal"@);
            terminals_of(m, written(m, net), b[0].id) == terminals_n(
                m,
                written(m, net),
                b[0].id,
                ids,
                ids.len(),
            )
        }),
{
    let s = written(m, net);
    let t = "Terminal"@;
    let key = "Terminal.ConductingEquipment"@;
    lemma_document_is_its_blocks(m, net);
    let bs = blocks_of(m, net);
    let b = bs[k];
    let p = flat(bs.take(k));
    let q = flat(bs.skip(k + 1));
    lemma_block_at(bs, k);
    assert(s.objects == p + b + q);
    assert forall|i: int| 0 <= i < bs.take(k).len() implies refers_within(
        #[trigger] bs.take(k)[i],
        t,
        key,
    ) by {
        lemma_block_terminals(m, net, i);
    }
    lemma_refers_flat(bs.take(k), t, key);
    assert forall|i: int| 0 <= i < bs.skip(k + 1).len() implies refers_within(
        #[trigger] bs.skip(k + 1)[i],
        t,
        key,
    ) by {
        lemma_block_terminals(m, net, k + 1 + i);
    }
    lemma_refers_flat(bs.skip(k + 1), t, key);
    let owner = p.len() as int;
    assert(s.objects[owner] == b[0]);
    let eq = b[0].id;
    let ia = class_ids(p, t);
    let ib = class_ids(b, t);
    let ic = class_ids(q, t);
    assert forall|i: int| 0 <= i < ia.len() implies s.refv(#[trigger] ia[i], key) != Some(eq) by {
        lemma_refers_elsewhere(s, p, 0, t, key, owner, i);
    }
    assert forall|i: int| 0 <= i < ic.len() implies s.refv(#[trigger] ic[i], key) != Some(eq) by {
        lemma_refers_elsewhere(s, q, (p + b).len() as int, t, key, owner, i);
    }
    lemma_class_ids_add(p + b, q, t);
    lemma_class_ids_add(p, b, t);
    assert(s.of_class(t) == ia + ib + ic) by {
        reveal(StoreV::of_class);
    }
    reveal(terminals_of);
    lemma_terminals_middle(m, s, eq, ia, ib, ic);
}

// ---- phase codes -----------------------------------------------------------

pub proof fn lemma_letters()
    ensures
        "1"@ =~= seq!['1'],
        "2"@ =~= seq!['2'],
        "3"@ =~= seq!['3'],
        "4"@ =~= seq!['4'],
        "A"@ =~= seq!['A'],
        "B"@ =~= seq!['B'],
        "C"@ =~= seq!['C'],
        "N"@ =~= seq!['N'],
        "ABC"@ =~= seq!['A', 'B', 'C'],
{
    reveal_strlit("1");
    reveal_strlit("2");
    reveal_strlit("3");
    reveal_strlit("4");
    reveal_strlit("A");
    reveal_strlit("B");
    reveal_strlit("C");
    reveal_strlit("N");
    reveal_strlit("ABC");
}

proof fn lemma_code_letters(map: Seq<Seq<char>>, n: nat)
    requires
        n <= map.len(),
    ensures
        forall|i: int| 0 <= i < code_n(map, n).len() ==> #[trigger] code_n(map, n)[i] != '.',
    decreases n,
{
    lemma_letters();
    if n > 0 {
        lemma_code_letters(map, (n - 1) as nat);
        let before = code_n(map, (n - 1) as nat);
        let code = code_n(map, n);
        assert forall|i: int| 0 <= i < code.len() implies #[trigger] code[i] != '.' by {
            if i < before.len() {
                assert(code[i] == before[i]);
            } else {
                assert(code[i] == (phase_letter_of(map[n - 1])->0)[i - before.len()]);
            }
        }
    }
}

/// A phase code is made of letters.
proof fn lemma_code_undotted(map: Seq<Seq<char>>)
    ensures
        forall|i: int| 0 <= i < phase_code_of(map).len() ==> #[trigger] phase_code_of(map)[i] != '.',
{
    lemma_letters();
    lemma_code_letters(map, map.len());
}

/// A terminal map that a phase code can say: wires 1 to 4, in canonical order,
/// and at least one.
pub open spec fn codable(map: Seq<Seq<char>>) -> bool {
    &&& map.len() > 0
    &&& map.no_duplicates()
    &&& canonical(map) == map
    &&& forall|i: int| 0 <= i < map.len() ==> phase_letter_of(#[trigger] map[i]) is Some
}

proof fn lemma_code_prefix(map: Seq<Seq<char>>, n: nat)
    requires
        n <= map.len(),
        forall|i: int| 0 <= i < map.len() ==> phase_letter_of(#[trigger] map[i]) is Some,
    ensures
        code_n(map, n).len() == n,
        forall|i: int|
            0 <= i < n ==> seq![#[trigger] code_n(map, n)[i]] == phase_letter_of(map[i])->0,
    decreases n,
{
    lemma_letters();
    if n > 0 {
        lemma_code_prefix(map, (n - 1) as nat);
        assert(phase_letter_of(map[n - 1]) is Some);
    }
}

proof fn lemma_expand_code(map: Seq<Seq<char>>, i: nat)
    requires
        codable(map),
        i <= map.len(),
    ensures
        expand_from(code_n(map, map.len()), i as int, map.take(i as int)) == map,
    decreases map.len() - i,
{
    let code = code_n(map, map.len());
    lemma_letters();
    lemma_code_prefix(map, map.len());
    if i == map.len() {
        assert(map.take(i as int) =~= map);
    } else {
        let out = map.take(i as int);
        let t = map[i as int];
        assert(phase_letter_of(t) is Some);
        assert(!out.contains(t)) by {
            if out.contains(t) {
                let j = choose|j: int| 0 <= j < out.len() && out[j] == t;
                assert(map[j] == map[i as int]);
            }
        }
        assert(push_new_of(out, t) =~= map.take(i as int + 1));
        assert(seq![code[i as int]] == phase_letter_of(t)->0);
        assert(seq![code[i as int]][0] == code[i as int]);
        lemma_expand_code(map, i + 1);
    }
}

/// A terminal map comes back from its phase code.
pub proof fn lemma_code_expands_to_its_map(map: Seq<Seq<char>>)
    requires
        codable(map),
    ensures
        expand_of(phase_code_of(map)) == map,
{
    lemma_expand_code(map, 0);
    lemma_code_prefix(map, map.len());
    assert(map.take(0) =~= Seq::empty());
    reveal(expand_of);
}

// ---- terminals as they read ------------------------------------------------

proof fn lemma_after_last_dot(s: Seq<char>, k: int, j: int)
    requires
        0 < k <= j <= s.len(),
        s[k - 1] == '.',
        forall|i: int| k <= i < s.len() ==> s[i] != '.',
    ensures
        after_last_from(s, '.', j) == s.subrange(k, s.len() as int),
    decreases j,
{
    if j > k {
        lemma_after_last_dot(s, k, j - 1);
    }
}

/// What an enumeration reference says after its last full stop.
pub proof fn lemma_kind_says(kind: Seq<char>, value: Seq<char>)
    requires
        kind.len() > 0,
        kind.last() == '.',
        forall|i: int| 0 <= i < value.len() ==> #[trigger] value[i] != '.',
    ensures
        kind_ref(kind + value) is Ref,
        after_last_of(kind_ref(kind + value)->Ref_0, '.') == value,
{
    let ns = "http://iec.ch/TC57/CIM100#"@;
    let s = ns + (kind + value);
    let k = (ns.len() + kind.len()) as int;
    assert(s[k - 1] == kind[kind.len() - 1]);
    assert forall|i: int| k <= i < s.len() implies s[i] != '.' by {
        assert(s[i] == value[i - k]);
    }
    lemma_after_last_dot(s, k, s.len() as int);
    assert(s.subrange(k, s.len() as int) =~= value);
}

/// A terminal reads as it was written.
pub proof fn lemma_terminal_reads(
    m: Sem,
    s: StoreV,
    k: int,
    owner: Seq<char>,
    seq: nat,
    node: Seq<char>,
    map: Seq<Seq<char>>,
)
    requires
        distinct_ids(s.objects),
        0 <= k < s.objects.len(),
        s.objects[k] == terminal_object(owner, seq, node, phase_code_of(map)),
    ensures
        s.refv(terminal_id(owner, seq), "Terminal.ConductingEquipment"@) == Some(owner),
        terminal_node_of(s, terminal_id(owner, seq)) == Some(node),
        s.number(m, terminal_id(owner, seq), "ACDCTerminal.sequenceNumber"@) == (m.parse)(
            trim_of(dec_of(seq)),
        ),
        s.enum_value(terminal_id(owner, seq), "Terminal.phases"@) == Some(phase_code_of(map)),
{
    lemma_says(s, k);
    let id = terminal_id(owner, seq);
    let props = s.objects[k].props;
    reveal_strlit("Terminal.ConductingEquipment");
    reveal_strlit("Terminal.ConnectivityNode");
    reveal_strlit("ACDCTerminal.sequenceNumber");
    reveal_strlit("Terminal.phases");
    reveal_strlit("PhaseCode.");
    assert("Terminal.ConductingEquipment"@.len() == 28);
    assert("Terminal.ConnectivityNode"@.len() == 25);
    assert("ACDCTerminal.sequenceNumber"@.len() == 27);
    assert("Terminal.phases"@.len() == 15);
    lemma_prop_at(props, "Terminal.ConductingEquipment"@, 0, 0);
    lemma_prop_at(props, "Terminal.ConnectivityNode"@, 0, 1);
    lemma_prop_at(props, "ACDCTerminal.sequenceNumber"@, 0, 2);
    lemma_prop_at(props, "Terminal.phases"@, 0, 3);
    lemma_code_undotted(map);
    lemma_kind_says("PhaseCode."@, phase_code_of(map));
    assert(s.prop(id, "Terminal.ConductingEquipment"@) == Some(props[0].1));
    assert(s.prop(id, "Terminal.ConnectivityNode"@) == Some(props[1].1));
    assert(s.prop(id, "ACDCTerminal.sequenceNumber"@) == Some(props[2].1));
    assert(s.prop(id, "Terminal.phases"@) == Some(props[3].1));
    reveal(StoreV::refv);
    reveal(StoreV::text);
    reveal(StoreV::number);
    reveal(StoreV::enum_value);
}

/// The first two sequence numbers read as numbers in their order.
pub open spec fn counts(m: Sem) -> bool {
    let one = (m.parse)(trim_of(dec_of(1)));
    let two = (m.parse)(trim_of(dec_of(2)));
    &&& one is Some
    &&& two is Some
    &&& total_rank(one->0) <= total_rank(two->0)
}

proof fn lemma_ids_of_two(b: Seq<CimObjectV>, class: Seq<char>)
    requires
        b.len() >= 3,
        b[0].class != class,
        b[1].class == class,
        b[2].class == class,
        forall|i: int| 3 <= i < b.len() ==> (#[trigger] b[i]).class != class,
    ensures
        class_ids(b, class) == seq![b[1].id, b[2].id],
{
    let x = b.take(3);
    let y = b.skip(3);
    assert(b =~= x + y);
    assert forall|i: int| 0 <= i < y.len() implies (#[trigger] y[i]).class != class by {
        assert(y[i] == b[3 + i]);
    }
    lemma_class_ids_add(x, y, class);
    lemma_class_ids_none(y, class, y.len());
    reveal_with_fuel(of_class_n, 4);
    assert(class_ids(x, class) =~= seq![b[1].id, b[2].id]);
    assert(class_ids(b, class) =~= seq![b[1].id, b[2].id]);
}

proof fn lemma_ids_of_one(b: Seq<CimObjectV>, class: Seq<char>)
    requires
        b.len() >= 2,
        b[0].class != class,
        b[1].class == class,
        forall|i: int| 2 <= i < b.len() ==> (#[trigger] b[i]).class != class,
    ensures
        class_ids(b, class) == seq![b[1].id],
{
    let x = b.take(2);
    let y = b.skip(2);
    assert(b =~= x + y);
    assert forall|i: int| 0 <= i < y.len() implies (#[trigger] y[i]).class != class by {
        assert(y[i] == b[2 + i]);
    }
    lemma_class_ids_add(x, y, class);
    lemma_class_ids_none(y, class, y.len());
    reveal_with_fuel(of_class_n, 3);
    assert(class_ids(x, class) =~= seq![b[1].id]);
    assert(class_ids(b, class) =~= seq![b[1].id]);
}

proof fn lemma_bus_from_index(buses: Seq<DistBusV>, id: Seq<char>, i: int) -> (j: int)
    requires
        0 <= i,
        bus_from(buses, id, i) is Some,
    ensures
        i <= j < buses.len(),
        bus_from(buses, id, i) == Some(buses[j]),
    decreases buses.len() - i,
{
    if lower_of(buses[i].id) == lower_of(id) {
        i
    } else {
        lemma_bus_from_index(buses, id, i + 1)
    }
}

/// The node that an element was written at goes by the name of the bus that
/// the element names.
pub proof fn lemma_node_of_names(m: Sem, net: DistNetworkV, bus: Seq<char>)
    requires
        told_apart(m, net),
        net.bus(bus) is Some,
    ensures
        written(m, net).name(node_of(net, bus)) == net.bus(bus)->0.id,
{
    let j = lemma_bus_from_index(net.buses, bus, 0);
    lemma_node_name(m, net, j);
}

/// Two terminals of an equipment come in the order of their numbers.
proof fn lemma_pair(m: Sem, s: StoreV, id: Seq<char>, t1: Seq<char>, t2: Seq<char>)
    requires
        counts(m),
        s.refv(t1, "Terminal.ConductingEquipment"@) == Some(id),
        s.refv(t2, "Terminal.ConductingEquipment"@) == Some(id),
        s.number(m, t1, "ACDCTerminal.sequenceNumber"@) == (m.parse)(trim_of(dec_of(1))),
        s.number(m, t2, "ACDCTerminal.sequenceNumber"@) == (m.parse)(trim_of(dec_of(2))),
    ensures
        terminals_n(m, s, id, seq![t1, t2], 2).len() == 2,
        terminals_n(m, s, id, seq![t1, t2], 2)[0].1 == t1,
        terminals_n(m, s, id, seq![t1, t2], 2)[1].1 == t2,
{
    let one = (m.parse)(trim_of(dec_of(1)))->0;
    let two = (m.parse)(trim_of(dec_of(2)))->0;
    let ids = seq![t1, t2];
    let none = terminals_n(m, s, id, ids, 0);
    assert(none.len() == 0);
    let first = terminals_n(m, s, id, ids, 1);
    assert(first == insert_by_rank_of(none, (one, t1)));
    assert(slot_by_rank(none, one, 0) == 0);
    assert(first =~= seq![(one, t1)]);
    let both = terminals_n(m, s, id, ids, 2);
    assert(both == insert_by_rank_of(first, (two, t2)));
    assert(slot_by_rank(first, two, 1) == 1);
    assert(slot_by_rank(first, two, 0) == 1);
    assert(both =~= seq![(one, t1), (two, t2)]);
}

/// The two terminals of a written element, in order, at its two buses.
#[verifier::rlimit(40)]
pub proof fn lemma_two_terminals(
    m: Sem,
    net: DistNetworkV,
    k: int,
    from: Seq<char>,
    to: Seq<char>,
    map: Seq<Seq<char>>,
    other: Seq<Seq<char>>,
)
    requires
        told_apart(m, net),
        counts(m),
        net.bus(from) is Some,
        net.bus(to) is Some,
        0 <= k < blocks_of(m, net).len(),
        ({
            let b = blocks_of(m, net)[k];
            &&& b.len() >= 3
            &&& b[0].class != "Terminal"@
            &&& b[1] == terminal_object(b[0].id, 1, node_of(net, from), phase_code_of(map))
            &&& b[2] == terminal_object(b[0].id, 2, node_of(net, to), phase_code_of(other))
            &&& forall|i: int| 3 <= i < b.len() ==> (#[trigger] b[i]).class != "Terminal"@
        }),
    ensures
        ({
            let id = blocks_of(m, net)[k][0].id;
            let s = written(m, net);
            &&& bus_at_of(m, s, id, 0) == Some(net.bus(from)->0.id)
            &&& bus_at_of(m, s, id, 1) == Some(net.bus(to)->0.id)
            &&& terminals_of(m, s, id).len() == 2
            &&& s.enum_value(terminals_of(m, s, id)[0].1, "Terminal.phases"@) == Some(
                phase_code_of(map),
            )
        }),
{
    let s = written(m, net);
    let bs = blocks_of(m, net);
    let b = bs[k];
    let id = b[0].id;
    lemma_document_is_its_blocks(m, net);
    lemma_block_at(bs, k);
    let at = flat(bs.take(k)).len() as int;
    assert(s.objects[at + 1] == b[1]);
    assert(s.objects[at + 2] == b[2]);
    lemma_terminal_reads(m, s, at + 1, id, 1, node_of(net, from), map);
    lemma_terminal_reads(m, s, at + 2, id, 2, node_of(net, to), other);
    lemma_terminals_of_block(m, net, k);
    lemma_ids_of_two(b, "Terminal"@);
    lemma_pair(m, s, id, terminal_id(id, 1), terminal_id(id, 2));
    lemma_node_of_names(m, net, from);
    lemma_node_of_names(m, net, to);
    reveal(bus_at_of);
}

/// The terminal of a written element, at its bus.
#[verifier::rlimit(40)]
pub proof fn lemma_one_terminal(
    m: Sem,
    net: DistNetworkV,
    k: int,
    bus: Seq<char>,
    map: Seq<Seq<char>>,
)
    requires
        told_apart(m, net),
        net.bus(bus) is Some,
        0 <= k < blocks_of(m, net).len(),
        ({
            let b = blocks_of(m, net)[k];
            &&& b.len() >= 2
            &&& b[0].class != "Terminal"@
            &&& b[1] == terminal_object(b[0].id, 1, node_of(net, bus), phase_code_of(map))
            &&& forall|i: int| 2 <= i < b.len() ==> (#[trigger] b[i]).class != "Terminal"@
        }),
    ensures
        ({
            let id = blocks_of(m, net)[k][0].id;
            let s = written(m, net);
            &&& bus_at_of(m, s, id, 0) == Some(net.bus(bus)->0.id)
            &&& terminals_of(m, s, id).len() == 1
            &&& s.enum_value(terminals_of(m, s, id)[0].1, "Terminal.phases"@) == Some(
                phase_code_of(map),
            )
        }),
{
    let s = written(m, net);
    let bs = blocks_of(m, net);
    let b = bs[k];
    let id = b[0].id;
    lemma_document_is_its_blocks(m, net);
    lemma_block_at(bs, k);
    let at = flat(bs.take(k)).len() as int;
    assert(s.objects[at + 1] == b[1]);
    lemma_terminal_reads(m, s, at + 1, id, 1, node_of(net, bus), map);
    lemma_terminals_of_block(m, net, k);
    lemma_ids_of_one(b, "Terminal"@);
    let t1 = terminal_id(id, 1);
    reveal_with_fuel(terminals_n, 2);
    reveal_with_fuel(slot_by_rank, 2);
    let ids = seq![t1];
    assert(terminals_n(m, s, id, ids, 1) =~= seq![(sequence_of(m, s, t1), t1)]);
    lemma_node_of_names(m, net, bus);
    reveal(bus_at_of);
}

} // verus!
