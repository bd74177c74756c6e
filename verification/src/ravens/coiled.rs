//! The tanks of a document: each is that of a transformer in the table.

use vstd::prelude::*;

use crate::json::{Entries, JsonV};
use crate::order::{get_of, lemma_put, put_of, sorted};
use crate::math::Sem;
use crate::model::DistTransformerV;
use crate::ravens::accept::{
    calm_in, fine, lemma_marked, group_even, group_mild, lemma_put_from_entries,
    lemma_windings_mild, mild, stands_alone,
};
use crate::ravens::doc::{collect_of, str_at, walk_entries, walk_items, walk_of, ObjV};
use crate::ravens::emit::{extras_mrid_of, identified_of, pointer_json, WriterV};
use crate::ravens::name::det_mrid_of;
use crate::ravens::found::lemma_entry_of;
use crate::ravens::only::{
    lemma_only_n, lemma_only_typed, lemma_sorted_entry, only, only_all, only_n,
};
use crate::ravens::survive_tanks::{lemma_transformer_shape, says_tank, sheet_name, tank_in};
use crate::ravens::walks::{lemma_mild_none, lemma_walk_adds, none_of};
use crate::ravens::write_tanks::{
    transformer_json, transformers_json, vector_group_of, windings_json,
};

verus! {

/// A tank is that of the transformer of its name.
pub open spec fn tank_ok(t: Entries, o: ObjV) -> bool {
    get_of(t, o.name) matches Some(JsonV::Obj(p)) && tank_in(p) == o.props
}

/// Every tank is that of a transformer of a table.
pub open spec fn tanks_in(t: Entries, doc: Seq<ObjV>) -> bool {
    forall|i: int|
        0 <= i < doc.len() && (#[trigger] doc[i]).kind == "TransformerTank"@ ==> tank_ok(t, doc[i])
}

/// What an entry of the table of transformers holds: one tank, of its name.
pub open spec fn holds_tank(e: (Seq<char>, JsonV)) -> bool {
    &&& e.1 matches JsonV::Obj(p)
    &&& says_tank(tank_in(p), e.0)
    &&& str_at(p, "Ravens.cimObjectType"@) == Some("PowerTransformer"@)
    &&& get_of(p, "PowerTransformer.TransformerTank"@) == Some(
        JsonV::Arr(seq![JsonV::Obj(tank_in(p))]),
    )
    &&& calm_in("TransformerTank"@, tank_in(p))
    &&& forall|i: int|
        0 <= i < p.len() && (#[trigger] p[i]).0 != "PowerTransformer.TransformerTank"@ ==> mild(
            "TransformerTank"@,
            p[i].1,
        )
    &&& sorted(p)
}

proof fn lemma_more(t: Entries, a: Seq<ObjV>, b: Seq<ObjV>)
    requires
        tanks_in(t, a),
        tanks_in(t, b),
    ensures
        tanks_in(t, a + b),
{
    let c = a + b;
    assert forall|i: int|
        0 <= i < c.len() && (#[trigger] c[i]).kind == "TransformerTank"@ implies tank_ok(t, c[i]) by {
        if i < a.len() {
            assert(c[i] == a[i]);
        } else {
            assert(c[i] == b[i - a.len()]);
        }
    }
}

proof fn lemma_mild_tanks(
    t: Entries,
    name: Option<Seq<char>>,
    value: JsonV,
    path: Seq<Seq<char>>,
    nested: bool,
    out: Seq<ObjV>,
)
    requires
        mild("TransformerTank"@, value),
        tanks_in(t, out),
    ensures
        tanks_in(t, walk_of(name, value, path, nested, out)),
{
    lemma_mild_none("TransformerTank"@, name, value, path, nested);
    lemma_walk_adds(name, value, path, nested, out);
    let s = walk_of(name, value, path, nested, Seq::empty());
    assert(tanks_in(t, s)) by {
        assert forall|i: int|
            0 <= i < s.len() && (#[trigger] s[i]).kind == "TransformerTank"@ implies tank_ok(
            t,
            s[i],
        ) by {
            assert(none_of("TransformerTank"@, s));
        }
    }
    lemma_more(t, out, s);
}

/// Below a tank.
proof fn lemma_inside_tank(
    t: Entries,
    tank: Entries,
    n: nat,
    path: Seq<Seq<char>>,
    out: Seq<ObjV>,
)
    requires
        n <= tank.len(),
        calm_in("TransformerTank"@, tank),
        tanks_in(t, out),
    ensures
        tanks_in(t, walk_entries(tank, n, path, true, out)),
    decreases n,
{
    if n > 0 {
        lemma_inside_tank(t, tank, (n - 1) as nat, path, out);
        lemma_mild_tanks(
            t,
            Some(tank[n - 1].0),
            tank[n - 1].1,
            path,
            true,
            walk_entries(tank, (n - 1) as nat, path, true, out),
        );
    }
}

/// Below a transformer.
#[verifier::rlimit(40)]
proof fn lemma_inside(
    t: Entries,
    key: Seq<char>,
    p: Entries,
    n: nat,
    path: Seq<Seq<char>>,
    out: Seq<ObjV>,
)
    requires
        n <= p.len(),
        holds_tank((key, JsonV::Obj(p))),
        get_of(t, key) == Some(JsonV::Obj(p)),
        tanks_in(t, out),
    ensures
        tanks_in(t, walk_entries(p, n, path, true, out)),
    decreases n,
{
    if n > 0 {
        lemma_inside(t, key, p, (n - 1) as nat, path, out);
        let before = walk_entries(p, (n - 1) as nat, path, true, out);
        let (k, v) = p[n - 1];
        if k == "PowerTransformer.TransformerTank"@ {
            lemma_sorted_entry(p, n - 1);
            let tank = tank_in(p);
            let items = seq![JsonV::Obj(tank)];
            assert(v == JsonV::Arr(items));
            let below = path.push(k);
            let own = ObjV {
                kind: "TransformerTank"@,
                name: key,
                path: below,
                nested: true,
                props: tank,
            };
            assert(tanks_in(t, before.push(own)));
            lemma_inside_tank(t, tank, tank.len(), below, before.push(own));
            assert(walk_items(items, 0, below, true, before) == before);
            assert(walk_of(None, items[0], below, true, before) == walk_entries(
                tank,
                tank.len(),
                below,
                true,
                before.push(own),
            ));
            assert(walk_items(items, 1, below, true, before) == walk_of(
                None,
                items[0],
                below,
                true,
                walk_items(items, 0, below, true, before),
            ));
            assert(walk_of(Some(k), v, path, true, before) == walk_items(
                items,
                1,
                below,
                true,
                before,
            ));
        } else {
            lemma_mild_tanks(t, Some(k), v, path, true, before);
        }
    }
}

proof fn lemma_table_tanks(
    t: Entries,
    n: nat,
    path: Seq<Seq<char>>,
    nested: bool,
    out: Seq<ObjV>,
)
    requires
        n <= t.len(),
        sorted(t),
        forall|i: int| 0 <= i < t.len() ==> holds_tank(#[trigger] t[i]),
        tanks_in(t, out),
    ensures
        tanks_in(t, walk_entries(t, n, path, nested, out)),
    decreases n,
{
    if n > 0 {
        lemma_table_tanks(t, (n - 1) as nat, path, nested, out);
        let before = walk_entries(t, (n - 1) as nat, path, nested, out);
        let (key, v) = t[n - 1];
        assert(holds_tank(t[n - 1]));
        let p = v->Obj_0;
        lemma_sorted_entry(t, n - 1);
        let own = ObjV { kind: "PowerTransformer"@, name: key, path, nested, props: p };
        reveal_strlit("PowerTransformer");
        reveal_strlit("TransformerTank");
        assert("PowerTransformer"@.len() == 16 && "TransformerTank"@.len() == 15);
        assert(tanks_in(t, before.push(own)));
        lemma_inside(t, key, p, p.len(), path.push(key), before.push(own));
        assert(walk_of(Some(key), v, path, nested, before) == walk_entries(
            p,
            p.len(),
            path.push(key),
            true,
            before.push(own),
        ));
    }
}

proof fn lemma_table_plain(t: Entries)
    requires
        forall|i: int| 0 <= i < t.len() ==> holds_tank(#[trigger] t[i]),
    ensures
        str_at(t, "Ravens.cimObjectType"@) is None,
{
    reveal(str_at);
    reveal(get_of);
    if get_of(t, "Ravens.cimObjectType"@) is Some {
        let j = lemma_entry_of(t, "Ravens.cimObjectType"@, 0);
        assert(holds_tank(t[j]));
        assert(t[j].1 is Obj);
    }
}

proof fn lemma_tanks_walk(
    t: Entries,
    name: Seq<char>,
    value: JsonV,
    path: Seq<Seq<char>>,
    nested: bool,
    out: Seq<ObjV>,
)
    requires
        only("TransformerTank"@, t, value),
        sorted(t),
        forall|i: int| 0 <= i < t.len() ==> holds_tank(#[trigger] t[i]),
        tanks_in(t, out),
    ensures
        tanks_in(t, walk_of(Some(name), value, path, nested, out)),
    decreases value, 0nat,
{
    let x = "TransformerTank"@;
    if mild(x, value) {
        lemma_mild_tanks(t, Some(name), value, path, nested, out);
    } else {
        let o = value->Obj_0;
        let below = path.push(name);
        if o == t {
            lemma_table_plain(t);
            lemma_table_tanks(t, t.len(), below, nested, out);
        } else {
            lemma_only_typed(x, t, o);
            match str_at(o, "Ravens.cimObjectType"@) {
                Some(kind) => {
                    let own = ObjV { kind, name, path, nested, props: o };
                    assert(tanks_in(t, out.push(own)));
                    lemma_tanks_entries(t, o, o.len(), below, true, out.push(own));
                },
                None => {
                    lemma_tanks_entries(t, o, o.len(), below, nested, out);
                },
            }
        }
    }
}

proof fn lemma_tanks_entries(
    t: Entries,
    map: Entries,
    n: nat,
    path: Seq<Seq<char>>,
    nested: bool,
    out: Seq<ObjV>,
)
    requires
        n <= map.len(),
        only_n("TransformerTank"@, t, map, n),
        sorted(t),
        forall|i: int| 0 <= i < t.len() ==> holds_tank(#[trigger] t[i]),
        tanks_in(t, out),
    ensures
        tanks_in(t, walk_entries(map, n, path, nested, out)),
    decreases map, n,
{
    if n > 0 {
        lemma_tanks_entries(t, map, (n - 1) as nat, path, nested, out);
        lemma_tanks_walk(
            t,
            map[n - 1].0,
            map[n - 1].1,
            path,
            nested,
            walk_entries(map, (n - 1) as nat, path, nested, out),
        );
    }
}

/// In a document that holds tanks only in a table of transformers, every tank is
/// that of a transformer of the table.
pub proof fn lemma_collected_tanks(t: Entries, root: Entries)
    requires
        only_all("TransformerTank"@, t, root),
        sorted(t),
        forall|i: int| 0 <= i < t.len() ==> holds_tank(#[trigger] t[i]),
    ensures
        tanks_in(t, collect_of(root)),
{
    lemma_only_n("TransformerTank"@, t, root, root.len());
    lemma_tanks_entries(t, root, root.len(), Seq::empty(), false, Seq::empty());
}

proof fn lemma_identified_sorted(kind: Seq<char>, name: Seq<char>, imported: Option<Seq<char>>)
    ensures
        sorted(identified_of(kind, name, imported)),
{
    let id = match imported {
        Some(s) => s,
        None => det_mrid_of(kind, name),
    };
    let a = put_of(Entries::empty(), "Ravens.cimObjectType"@, JsonV::Str(kind));
    let b = put_of(a, "IdentifiedObject.mRID"@, JsonV::Str(id));
    lemma_put(Entries::empty(), "Ravens.cimObjectType"@, JsonV::Str(kind));
    lemma_put(a, "IdentifiedObject.mRID"@, JsonV::Str(id));
    lemma_put(b, "IdentifiedObject.name"@, JsonV::Str(name));
    reveal(identified_of);
}

/// The object of a transformer holds one tank, of its name.
#[verifier::rlimit(60)]
proof fn lemma_holds_tank(w: WriterV, m: Sem, xf: DistTransformerV)
    requires
        stands_alone("TransformerTank"@),
        xf.windings.len() >= 2,
    ensures
        holds_tank((xf.name, transformer_json(w, m, xf).1)),
{
    broadcast use {group_mild, group_even};

    let x = "TransformerTank"@;
    lemma_transformer_shape(w, m, xf);
    lemma_windings_mild(x, w, m, xf, xf.windings.len());
    reveal(transformer_json);
    let ends = windings_json(w, m, xf, xf.windings.len()).1;
    let bare = identified_of("PowerTransformer"@, xf.name, extras_mrid_of(xf.extras));
    let o = put_of(
        bare,
        "PowerTransformer.vectorGroup"@,
        JsonV::Str(vector_group_of(xf.windings)),
    );
    let tank = identified_of(x, xf.name, None);
    let tank = put_of(
        tank,
        "PowerSystemResource.AssetDatasheet"@,
        pointer_json("TransformerTankInfo"@, sheet_name(xf.name)),
    );
    let tank = put_of(tank, "TransformerTank.TransformerTankEnd"@, JsonV::Arr(ends));
    let key = "PowerTransformer.TransformerTank"@;
    let list = JsonV::Arr(seq![JsonV::Obj(tank)]);
    let p = put_of(o, key, list);
    assert(transformer_json(w, m, xf).1 == JsonV::Obj(p));
    assert(sorted(bare)) by {
        lemma_identified_sorted("PowerTransformer"@, xf.name, extras_mrid_of(xf.extras));
    }
    lemma_put(bare, "PowerTransformer.vectorGroup"@, JsonV::Str(vector_group_of(xf.windings)));
    lemma_put(o, key, list);
    assert(tank_in(p) == tank);
    assert(fine(x, x, tank));
    let group = vector_group_of(xf.windings);
    assert(group[group.len() - 1] == '0');
    lemma_marked(x, group, group.len() - 1);
    assert(fine(x, "PowerTransformer"@, o));
    assert forall|i: int| 0 <= i < p.len() && (#[trigger] p[i]).0 != key implies mild(
        x,
        p[i].1,
    ) by {
        reveal(put_of);
        lemma_put_from_entries(o, key, list, 0, i);
    }
}

/// The table of transformers.
pub proof fn lemma_tank_table(w: WriterV, m: Sem, s: Seq<DistTransformerV>, n: nat)
    requires
        stands_alone("TransformerTank"@),
        n <= s.len(),
    ensures
        forall|i: int|
            0 <= i < transformers_json(w, m, s, n).1.len() ==> holds_tank(
                #[trigger] transformers_json(w, m, s, n).1[i],
            ),
    decreases n,
{
    if n > 0 {
        lemma_tank_table(w, m, s, (n - 1) as nat);
        let before = transformers_json(w, m, s, (n - 1) as nat);
        let xf = s[n - 1];
        if xf.windings.len() >= 2 {
            lemma_holds_tank(before.0, m, xf);
            let v = transformer_json(before.0, m, xf).1;
            let t = put_of(before.1, xf.name, v);
            assert forall|i: int| 0 <= i < t.len() implies holds_tank(#[trigger] t[i]) by {
                reveal(put_of);
                lemma_put_from_entries(before.1, xf.name, v, 0, i);
            }
        }
    }
}

} // verus!
