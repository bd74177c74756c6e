//! The objects of a kind in a written document are the entries of its table.

use vstd::prelude::*;

use crate::json::{Entries, JsonV};
use crate::math::Sem;
use crate::model::DistNetworkV;
use crate::order::{get_from, get_of, put_of, sorted};
use crate::ravens::accept::{
    assets_fine, calm, calm_in, calm_writer, carries_calm, fine, group_mild, is_barred, is_wrapped,
    lemma_base_table_mild, lemma_calm_entries, lemma_kind_at, lemma_limit_types,
    lemma_put_from_entries, lemma_tables_mild, lemma_versions_mild, mild, mild_entries, mild_items,
    stands_alone, table_fine, tables_fine, wrapped,
};
use crate::ravens::doc::{collect_of, str_at, walk_entries, walk_items, walk_of, ObjV};
use crate::ravens::emit::WriterV;
use crate::ravens::found::lemma_entry_of;
use crate::ravens::write::{
    base_names, base_table, equipment_of, put_table, put_under, tables_of, typed_of, versions_json,
    TablesV,
};
use crate::text::lemma_str_less_total;

verus! {

// ---- tables ----------------------------------------------------------------

/// The entries of a sorted table are what their keys read.
pub proof fn lemma_sorted_entry(t: Entries, i: int)
    requires
        sorted(t),
        0 <= i < t.len(),
    ensures
        get_of(t, t[i].0) == Some(t[i].1),
{
    reveal(get_of);
    lemma_sorted_entry_from(t, i, 0);
}

proof fn lemma_sorted_entry_from(t: Entries, i: int, k: int)
    requires
        sorted(t),
        0 <= k <= i < t.len(),
    ensures
        get_from(t, t[i].0, k) == Some(t[i].1),
    decreases i - k,
{
    if k < i {
        lemma_str_less_total(t[k].0, t[i].0);
        lemma_sorted_entry_from(t, i, k + 1);
    }
}

/// What an object stands in its table as: a datasheet stands in an entry of the
/// catalog.
pub open spec fn stored(x: Seq<char>, name: Seq<char>, props: Entries) -> JsonV {
    if x == "TransformerTankInfo"@ {
        wrapped(name, props)
    } else {
        JsonV::Obj(props)
    }
}

/// Every object of the kind `x` is an entry of a table.
pub open spec fn only_in(x: Seq<char>, t: Entries, doc: Seq<ObjV>) -> bool {
    forall|i: int|
        0 <= i < doc.len() && (#[trigger] doc[i]).kind == x ==> get_of(t, doc[i].name) == Some(
            stored(x, doc[i].name, doc[i].props),
        )
}

/// An entry of a table of the kind `x`: no other object below is of the kind.
pub open spec fn is_stored(x: Seq<char>, e: (Seq<char>, JsonV)) -> bool {
    exists|o: Entries| e.1 == #[trigger] stored(x, e.0, o) && calm_in(x, o)
}

pub open spec fn own_fine(x: Seq<char>, t: Entries) -> bool {
    forall|i: int| 0 <= i < t.len() ==> is_stored(x, #[trigger] t[i])
}

/// A table of objects of a kind is a table of the kind.
pub proof fn lemma_own_fine(x: Seq<char>, t: Entries)
    requires
        if x == "TransformerTankInfo"@ {
            assets_fine(x, t)
        } else {
            table_fine(x, x, t)
        },
    ensures
        own_fine(x, t),
{
    assert forall|i: int| 0 <= i < t.len() implies is_stored(x, #[trigger] t[i]) by {
        if x == "TransformerTankInfo"@ {
            assert(is_wrapped(x, t[i]));
            let sheet = choose|sheet: Entries|
                t[i].1 == #[trigger] wrapped(t[i].0, sheet) && fine(x, x, sheet);
            assert(t[i].1 == stored(x, t[i].0, sheet));
        } else {
            let o = t[i].1->Obj_0;
            assert(fine(x, x, o));
            assert(t[i].1 == stored(x, t[i].0, o));
        }
    }
}

/// Objects of the kind `x` stand at or below a value only as entries of a table.
pub open spec fn only(x: Seq<char>, t: Entries, v: JsonV) -> bool
    decreases v, 0nat,
{
    ||| mild(x, v)
    ||| v == JsonV::Obj(t)
    ||| match v {
        JsonV::Obj(o) => only_n(x, t, o, o.len()),
        _ => false,
    }
}

pub open spec fn only_n(x: Seq<char>, t: Entries, o: Entries, n: nat) -> bool
    decreases o, n,
{
    n == 0 || n > o.len() || {
        &&& only_n(x, t, o, (n - 1) as nat)
        &&& only(x, t, o[n - 1].1)
        &&& o[n - 1].0 == "Ravens.cimObjectType"@ ==> !is_barred(x, o[n - 1].1)
    }
}

pub open spec fn only_all(x: Seq<char>, t: Entries, o: Entries) -> bool {
    forall|i: int|
        0 <= i < o.len() ==> only(x, t, (#[trigger] o[i]).1) && (o[i].0
            == "Ravens.cimObjectType"@ ==> !is_barred(x, o[i].1))
}

pub proof fn lemma_only_n(x: Seq<char>, t: Entries, o: Entries, n: nat)
    requires
        n <= o.len(),
        only_all(x, t, o),
    ensures
        only_n(x, t, o, n),
    decreases n,
{
    if n > 0 {
        lemma_only_n(x, t, o, (n - 1) as nat);
    }
}

proof fn lemma_only_put(x: Seq<char>, t: Entries, m: Entries, k: Seq<char>, v: JsonV)
    requires
        only_all(x, t, m),
        only(x, t, v),
        !is_barred(x, v),
    ensures
        only_all(x, t, put_of(m, k, v)),
{
    reveal(put_of);
    let o = put_of(m, k, v);
    assert forall|i: int| 0 <= i < o.len() implies only(x, t, (#[trigger] o[i]).1) && (o[i].0
        == "Ravens.cimObjectType"@ ==> !is_barred(x, o[i].1)) by {
        lemma_put_from_entries(m, k, v, 0, i);
    }
}

/// A table that may be put in: the table itself, one without the kind, or one of
/// tables.
pub open spec fn admissible(x: Seq<char>, t: Entries, table: Entries) -> bool {
    calm(x, table) || table == t || only_all(x, t, table)
}

proof fn lemma_admissible(x: Seq<char>, t: Entries, table: Entries)
    requires
        admissible(x, t, table),
    ensures
        only(x, t, JsonV::Obj(table)),
{
    broadcast use group_mild;

    if only_all(x, t, table) {
        lemma_only_n(x, t, table, table.len());
    }
}

proof fn lemma_only_table(x: Seq<char>, t: Entries, o: Entries, key: Seq<char>, table: Entries)
    requires
        only_all(x, t, o),
        admissible(x, t, table),
    ensures
        only_all(x, t, put_table(o, key, table)),
{
    lemma_admissible(x, t, table);
    if table.len() > 0 {
        lemma_only_put(x, t, o, key, JsonV::Obj(table));
    }
}

proof fn lemma_only_under(
    x: Seq<char>,
    t: Entries,
    o: Entries,
    key: Seq<char>,
    inner: Seq<char>,
    table: Entries,
)
    requires
        only_all(x, t, o),
        admissible(x, t, table),
    ensures
        only_all(x, t, put_under(o, key, inner, table)),
{
    lemma_only_table(x, t, Entries::empty(), inner, table);
    lemma_only_table(x, t, o, key, put_table(Entries::empty(), inner, table));
}

// ---- walks -----------------------------------------------------------------

pub proof fn lemma_mild_walk(
    x: Seq<char>,
    t: Entries,
    name: Option<Seq<char>>,
    value: JsonV,
    path: Seq<Seq<char>>,
    nested: bool,
    out: Seq<ObjV>,
)
    requires
        mild(x, value),
        only_in(x, t, out),
    ensures
        only_in(x, t, walk_of(name, value, path, nested, out)),
    decreases value, 0nat,
{
    match value {
        JsonV::Obj(map) => {
            let below = match name {
                Some(n) => path.push(n),
                None => path,
            };
            lemma_calm_entries(x, map, map.len());
            lemma_kind_at(x, map);
            match str_at(map, "Ravens.cimObjectType"@) {
                Some(kind) => {
                    let own = ObjV {
                        kind,
                        name: match name {
                            Some(n) => n,
                            None => match str_at(map, "IdentifiedObject.name"@) {
                                Some(n) => n,
                                None => seq![],
                            },
                        },
                        path,
                        nested,
                        props: map,
                    };
                    lemma_mild_entries_walk(x, t, map, map.len(), below, true, out.push(own));
                },
                None => {
                    lemma_mild_entries_walk(x, t, map, map.len(), below, nested, out);
                },
            }
        },
        JsonV::Arr(items) => {
            let below = match name {
                Some(n) => path.push(n),
                None => path,
            };
            lemma_mild_items_walk(x, t, items, items.len(), below, nested, out);
        },
        _ => {},
    }
}

proof fn lemma_mild_entries_walk(
    x: Seq<char>,
    t: Entries,
    map: Entries,
    n: nat,
    path: Seq<Seq<char>>,
    nested: bool,
    out: Seq<ObjV>,
)
    requires
        n <= map.len(),
        mild_entries(x, map, n),
        only_in(x, t, out),
    ensures
        only_in(x, t, walk_entries(map, n, path, nested, out)),
    decreases map, n,
{
    if n > 0 {
        lemma_mild_entries_walk(x, t, map, (n - 1) as nat, path, nested, out);
        lemma_mild_walk(
            x,
            t,
            Some(map[n - 1].0),
            map[n - 1].1,
            path,
            nested,
            walk_entries(map, (n - 1) as nat, path, nested, out),
        );
    }
}

proof fn lemma_mild_items_walk(
    x: Seq<char>,
    t: Entries,
    items: Seq<JsonV>,
    n: nat,
    path: Seq<Seq<char>>,
    nested: bool,
    out: Seq<ObjV>,
)
    requires
        n <= items.len(),
        mild_items(x, items, n),
        only_in(x, t, out),
    ensures
        only_in(x, t, walk_items(items, n, path, nested, out)),
    decreases items, n,
{
    if n > 0 {
        lemma_mild_items_walk(x, t, items, (n - 1) as nat, path, nested, out);
        lemma_mild_walk(
            x,
            t,
            None,
            items[n - 1],
            path,
            nested,
            walk_items(items, (n - 1) as nat, path, nested, out),
        );
    }
}

/// Below an object whose entries are mild, whatever the object is.
proof fn lemma_inner_walk(
    x: Seq<char>,
    t: Entries,
    map: Entries,
    n: nat,
    path: Seq<Seq<char>>,
    nested: bool,
    out: Seq<ObjV>,
)
    requires
        n <= map.len(),
        calm_in(x, map),
        only_in(x, t, out),
    ensures
        only_in(x, t, walk_entries(map, n, path, nested, out)),
    decreases n,
{
    if n > 0 {
        lemma_inner_walk(x, t, map, (n - 1) as nat, path, nested, out);
        lemma_mild_walk(
            x,
            t,
            Some(map[n - 1].0),
            map[n - 1].1,
            path,
            nested,
            walk_entries(map, (n - 1) as nat, path, nested, out),
        );
    }
}

/// An object of the kind itself, which stands in the table.
proof fn lemma_own_walk(
    x: Seq<char>,
    t: Entries,
    key: Seq<char>,
    o: Entries,
    path: Seq<Seq<char>>,
    nested: bool,
    out: Seq<ObjV>,
)
    requires
        calm_in(x, o),
        get_of(t, key) == Some(stored(x, key, o)),
        only_in(x, t, out),
    ensures
        only_in(x, t, walk_of(Some(key), JsonV::Obj(o), path, nested, out)),
{
    let below = path.push(key);
    match str_at(o, "Ravens.cimObjectType"@) {
        Some(kind) => {
            let own = ObjV { kind, name: key, path, nested, props: o };
            assert(only_in(x, t, out.push(own)));
            lemma_inner_walk(x, t, o, o.len(), below, true, out.push(own));
        },
        None => {
            lemma_inner_walk(x, t, o, o.len(), below, nested, out);
        },
    }
}

/// An object with one entry, an object.
proof fn lemma_single_walk(
    name: Seq<char>,
    key: Seq<char>,
    o: Entries,
    path: Seq<Seq<char>>,
    nested: bool,
    out: Seq<ObjV>,
)
    ensures
        walk_of(
            Some(name),
            JsonV::Obj(put_of(Entries::empty(), key, JsonV::Obj(o))),
            path,
            nested,
            out,
        ) == walk_of(Some(key), JsonV::Obj(o), path.push(name), nested, out),
{
    let single = put_of(Entries::empty(), key, JsonV::Obj(o));
    reveal(put_of);
    assert(single =~= seq![(key, JsonV::Obj(o))]);
    assert(str_at(single, "Ravens.cimObjectType"@) is None) by {
        reveal(str_at);
        reveal(get_of);
        reveal_with_fuel(get_from, 3);
    }
    assert(walk_entries(single, 0, path.push(name), nested, out) == out);
    reveal_with_fuel(walk_entries, 3);
}

/// The entries of the table itself.
proof fn lemma_table_walk(
    x: Seq<char>,
    t: Entries,
    n: nat,
    path: Seq<Seq<char>>,
    nested: bool,
    out: Seq<ObjV>,
)
    requires
        n <= t.len(),
        sorted(t),
        own_fine(x, t),
        only_in(x, t, out),
    ensures
        only_in(x, t, walk_entries(t, n, path, nested, out)),
    decreases n,
{
    if n > 0 {
        lemma_table_walk(x, t, (n - 1) as nat, path, nested, out);
        let before = walk_entries(t, (n - 1) as nat, path, nested, out);
        let key = t[n - 1].0;
        assert(is_stored(x, t[n - 1]));
        let o = choose|o: Entries| t[n - 1].1 == #[trigger] stored(x, key, o) && calm_in(x, o);
        lemma_sorted_entry(t, n - 1);
        if x == "TransformerTankInfo"@ {
            let part = "PowerTransformerInfo.TransformerTankInfos"@;
            let table = put_of(Entries::empty(), key, JsonV::Obj(o));
            lemma_single_walk(key, part, table, path, nested, before);
            lemma_single_walk(part, key, o, path.push(key), nested, before);
            lemma_own_walk(x, t, key, o, path.push(key).push(part), nested, before);
        } else {
            lemma_own_walk(x, t, key, o, path, nested, before);
        }
        assert(walk_entries(t, n, path, nested, out) == walk_of(
            Some(key),
            t[n - 1].1,
            path,
            nested,
            before,
        ));
    }
}

/// A table of objects has no kind of its own.
proof fn lemma_table_untyped(x: Seq<char>, t: Entries)
    requires
        own_fine(x, t),
    ensures
        str_at(t, "Ravens.cimObjectType"@) is None,
{
    reveal(str_at);
    reveal(get_of);
    if get_of(t, "Ravens.cimObjectType"@) is Some {
        let j = lemma_entry_of(t, "Ravens.cimObjectType"@, 0);
        assert(is_stored(x, t[j]));
        assert(t[j].1 is Obj);
    }
}

pub proof fn lemma_only_typed(x: Seq<char>, t: Entries, o: Entries)
    requires
        only_n(x, t, o, o.len()),
    ensures
        str_at(o, "Ravens.cimObjectType"@) != Some(x),
{
    reveal(str_at);
    reveal(get_of);
    if get_of(o, "Ravens.cimObjectType"@) is Some {
        let j = lemma_entry_of(o, "Ravens.cimObjectType"@, 0);
        lemma_only_n_at(x, t, o, o.len(), j);
    }
}

proof fn lemma_only_n_at(x: Seq<char>, t: Entries, o: Entries, n: nat, j: int)
    requires
        only_n(x, t, o, n),
        0 <= j < n <= o.len(),
    ensures
        o[j].0 == "Ravens.cimObjectType"@ ==> !is_barred(x, o[j].1),
    decreases n,
{
    if j < n - 1 {
        lemma_only_n_at(x, t, o, (n - 1) as nat, j);
    }
}

proof fn lemma_only_walk(
    x: Seq<char>,
    t: Entries,
    name: Seq<char>,
    value: JsonV,
    path: Seq<Seq<char>>,
    nested: bool,
    out: Seq<ObjV>,
)
    requires
        only(x, t, value),
        sorted(t),
        own_fine(x, t),
        only_in(x, t, out),
    ensures
        only_in(x, t, walk_of(Some(name), value, path, nested, out)),
    decreases value, 0nat,
{
    if mild(x, value) {
        lemma_mild_walk(x, t, Some(name), value, path, nested, out);
    } else {
        let o = value->Obj_0;
        let below = path.push(name);
        if o == t {
            lemma_table_untyped(x, t);
            lemma_table_walk(x, t, t.len(), below, nested, out);
        } else {
            lemma_only_typed(x, t, o);
            match str_at(o, "Ravens.cimObjectType"@) {
                Some(kind) => {
                    let own = ObjV { kind, name, path, nested, props: o };
                    assert(only_in(x, t, out.push(own)));
                    lemma_only_entries_walk(x, t, o, o.len(), below, true, out.push(own));
                },
                None => {
                    lemma_only_entries_walk(x, t, o, o.len(), below, nested, out);
                },
            }
        }
    }
}

proof fn lemma_only_entries_walk(
    x: Seq<char>,
    t: Entries,
    map: Entries,
    n: nat,
    path: Seq<Seq<char>>,
    nested: bool,
    out: Seq<ObjV>,
)
    requires
        n <= map.len(),
        only_n(x, t, map, n),
        sorted(t),
        own_fine(x, t),
        only_in(x, t, out),
    ensures
        only_in(x, t, walk_entries(map, n, path, nested, out)),
    decreases map, n,
{
    if n > 0 {
        lemma_only_entries_walk(x, t, map, (n - 1) as nat, path, nested, out);
        lemma_only_walk(
            x,
            t,
            map[n - 1].0,
            map[n - 1].1,
            path,
            nested,
            walk_entries(map, (n - 1) as nat, path, nested, out),
        );
    }
}

/// In a document that holds a kind only in a table, every object of the kind
/// that is found is an entry of the table.
pub proof fn lemma_collected_only(x: Seq<char>, t: Entries, root: Entries)
    requires
        only_all(x, t, root),
        sorted(t),
        own_fine(x, t),
    ensures
        only_in(x, t, collect_of(root)),
{
    lemma_only_n(x, t, root, root.len());
    lemma_only_entries_walk(x, t, root, root.len(), Seq::empty(), false, Seq::empty());
}

// ---- documents -------------------------------------------------------------

/// A table is the one of its kind, where it is of the kind `x`.
pub open spec fn own_table(
    x: Seq<char>,
    t: Entries,
    w: WriterV,
    m: Sem,
    net: DistNetworkV,
) -> bool {
    let (v, tt) = tables_of(w, m, net);
    &&& x == "PerLengthPhaseImpedance"@ ==> tt.linecodes == t
    &&& x == "ACLineSegment"@ ==> tt.lines == t
    &&& x == "Switch"@ ==> tt.switches == t
    &&& x == "EnergyConsumer"@ ==> tt.loads == t
    &&& x == "LinearShuntCompensator"@ ==> tt.shunts == t
    &&& x == "SynchronousMachine"@ ==> tt.machines == t
    &&& x == "PowerElectronicsConnection"@ ==> tt.electronics == t
    &&& x == "EnergySource"@ ==> tt.sources == t
    &&& x == "PowerTransformer"@ ==> tt.transformers == t
    &&& x == "TransformerTank"@ ==> tt.transformers == t
    &&& x == "ConnectivityNode"@ ==> tt.nodes == t
    &&& x == "Location"@ ==> tt.locations == t
    &&& x == "LoadResponseCharacteristic"@ ==> v.responses == t
    &&& x == "TransformerTankInfo"@ ==> tt.assets == t
    &&& x != "BaseVoltage"@
}

#[verifier::rlimit(40)]
proof fn lemma_equipment_only(x: Seq<char>, t: Entries, tt: TablesV)
    requires
        admissible(x, t, tt.shunts),
        admissible(x, t, tt.machines),
        admissible(x, t, tt.electronics),
        admissible(x, t, tt.loads),
        admissible(x, t, tt.sources),
        admissible(x, t, tt.lines),
        admissible(x, t, tt.switches),
        admissible(x, t, tt.transformers),
    ensures
        only_all(x, t, equipment_of(tt)),
{
    reveal(equipment_of);
    let none = Entries::empty();
    lemma_only_table(x, t, none, "ShuntCompensator"@, tt.shunts);
    let r1 = put_table(none, "ShuntCompensator"@, tt.shunts);
    lemma_only_table(x, t, r1, "RotatingMachine"@, tt.machines);
    let r2 = put_table(r1, "RotatingMachine"@, tt.machines);
    lemma_only_table(x, t, r2, "PowerElectronicsConnection"@, tt.electronics);
    let r3 = put_table(r2, "PowerElectronicsConnection"@, tt.electronics);
    lemma_only_table(x, t, none, "EnergyConsumer"@, tt.loads);
    let e1 = put_table(none, "EnergyConsumer"@, tt.loads);
    lemma_only_table(x, t, e1, "EnergySource"@, tt.sources);
    let e2 = put_table(e1, "EnergySource"@, tt.sources);
    lemma_only_table(x, t, e2, "RegulatingCondEq"@, r3);
    let e3 = put_table(e2, "RegulatingCondEq"@, r3);
    lemma_only_table(x, t, none, "ACLineSegment"@, tt.lines);
    let c0 = put_table(none, "ACLineSegment"@, tt.lines);
    lemma_only_table(x, t, none, "Conductor"@, c0);
    let c1 = put_table(none, "Conductor"@, c0);
    lemma_only_table(x, t, c1, "Switch"@, tt.switches);
    let c2 = put_table(c1, "Switch"@, tt.switches);
    lemma_only_table(x, t, c2, "PowerTransformer"@, tt.transformers);
    let c3 = put_table(c2, "PowerTransformer"@, tt.transformers);
    lemma_only_table(x, t, c3, "EnergyConnection"@, e3);
}

/// The typed part of a document holds the objects of a kind only in its table.
#[verifier::rlimit(60)]
pub proof fn lemma_typed_only(x: Seq<char>, t: Entries, w: WriterV, m: Sem, net: DistNetworkV)
    requires
        stands_alone(x),
        calm_writer(x, w),
        own_table(x, t, w, m, net),
        forall|i: int| 0 <= i < net.ibrs.len() ==> carries_calm(x, #[trigger] net.ibrs[i]),
    ensures
        only_all(x, t, typed_of(w, m, net).1),
{
    reveal(typed_of);
    lemma_tables_mild(x, w, m, net);
    let (v, tt) = tables_of(w, m, net);
    assert(tables_fine(x, tt));
    lemma_equipment_only(x, t, tt);
    lemma_versions_mild(x);
    let none = Entries::empty();
    let r0 = put_of(none, "Versions"@, versions_json());
    lemma_only_put(x, t, none, "Versions"@, versions_json());
    lemma_admissible(x, t, tt.nodes);
    lemma_only_put(x, t, r0, "ConnectivityNode"@, JsonV::Obj(tt.nodes));
    let r1 = put_of(r0, "ConnectivityNode"@, JsonV::Obj(tt.nodes));
    lemma_only_table(x, t, r1, "Location"@, tt.locations);
    let r2 = put_table(r1, "Location"@, tt.locations);
    lemma_only_table(x, t, none, "ConductingEquipment"@, equipment_of(tt));
    let level = put_table(none, "ConductingEquipment"@, equipment_of(tt));
    lemma_only_under(x, t, r2, "PowerSystemResource"@, "Equipment"@, level);
    let r3 = put_under(r2, "PowerSystemResource"@, "Equipment"@, level);
    let names = base_names(m, v.bases, v.bases.len());
    lemma_base_table_mild(x, v, m, names, names.len());
    let (u, bases) = base_table(v, m, names, names.len());
    lemma_only_table(x, t, r3, "BaseVoltage"@, bases);
    let r4 = put_table(r3, "BaseVoltage"@, bases);
    lemma_only_table(x, t, none, "PerLengthPhaseImpedance"@, tt.linecodes);
    let codes = put_table(none, "PerLengthPhaseImpedance"@, tt.linecodes);
    lemma_only_under(x, t, r4, "PerLengthLineParameter"@, "PerLengthImpedance"@, codes);
    let r5 = put_under(r4, "PerLengthLineParameter"@, "PerLengthImpedance"@, codes);
    lemma_only_under(x, t, r5, "AssetInfo"@, "PowerTransformerInfo"@, tt.assets);
    let r6 = put_under(r5, "AssetInfo"@, "PowerTransformerInfo"@, tt.assets);
    lemma_only_table(x, t, r6, "LoadResponseCharacteristic"@, u.responses);
    let r7 = put_table(r6, "LoadResponseCharacteristic"@, u.responses);
    lemma_limit_types(x, u, m);
    let (u2, types) = u.limit_types(m);
    lemma_admissible(x, t, u.limit_sets);
    lemma_admissible(x, t, types);
    lemma_only_put(x, t, r7, "OperationalLimitSet"@, JsonV::Obj(u.limit_sets));
    let r8 = put_of(r7, "OperationalLimitSet"@, JsonV::Obj(u.limit_sets));
    lemma_only_put(x, t, r8, "OperationalLimitType"@, JsonV::Obj(types));
    let r9 = if u.limit_sets.len() == 0 {
        r7
    } else {
        put_of(r8, "OperationalLimitType"@, JsonV::Obj(types))
    };
    lemma_only_table(x, t, r9, "EnergyConnectionProfile"@, u.profiles);
}

} // verus!
