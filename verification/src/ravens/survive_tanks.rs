//! What the reader makes of the transformers that the writer wrote.

use vstd::prelude::*;

use crate::json::{Entries, JsonV};
use crate::math::{Bits, Sem, ZERO};
use crate::model::{DistNetworkV, DistTransformerV, WindingV};
use crate::order::{get_of, lemma_put, put_of, sorted};
use crate::ravens::accept::{carries_calm, lemma_tables_mild, stands_alone};
use crate::ravens::bases::bases_of;
use crate::ravens::doc::{
    collect_of, list_at, named_from, named_of, num_or, sorted_kind, str_at, target_at, uint_at,
    ObjV,
};
use crate::ravens::emit::{extras_mrid_of, identified_of, WriterV};
use crate::ravens::found::{
    lemma_kind_holds, lemma_listed_object_is_collected, lemma_typed_object_is_collected,
};
use crate::ravens::keeps::{lemma_nothing_is_taken_back, lemma_tanks_n_grows, stages};
use crate::ravens::laws::{
    clear, found_at, lemma_pointer_reads_back, lemma_typed_place_stays, typed_root,
};
use crate::ravens::only::{lemma_collected_only, lemma_own_fine, lemma_typed_only, stored};
use crate::ravens::read::{ravens_value, run_of};
use crate::ravens::state::StateV;
use crate::ravens::survive::{
    lemma_equipment_keys, lemma_get_put, lemma_identified, lemma_identified_again,
    lemma_identity_keys, lemma_levels, lemma_put_some, lemma_root_keys, lemma_some_entries,
    written_id, written_tables,
};
use crate::ravens::survive_windings::{
    come_of_windings, comes_of_extras, comes_of_reactances, comes_of_winding, lemma_ends_in_order,
    lemma_extras_come_back, lemma_infos_in_order, lemma_reactances_read, lemma_tested_noload,
    lemma_tested_says, lemma_windings_read, lemma_windings_say, numbered, says_info, says_noload,
    says_tests,
};
use crate::ravens::tanks::{
    datasheet_of, ends_of, infos_of, reactances_of, tank_step, tanks_n, tapped_from, tapped_of,
    windings_n,
};
use crate::ravens::write::{
    document_of, equipment_of, fresh_writer, put_table, ravens_document, tables_of, typed_of,
    unrepresented, TablesV,
};
use crate::ravens::write_lines::{linecodes_json, lines_json, switches_json};
use crate::ravens::write_loads::loads_json;
use crate::ravens::write_machines::{all_electronics_json, machines_json, shunts_json, sources_json};
use crate::ravens::write_tanks::{
    objects, tested_json, transformer_json, transformers_json, windings_json,
};

verus! {

// ---- objects ---------------------------------------------------------------

/// The name of the datasheet of a transformer.
pub open spec fn sheet_name(name: Seq<char>) -> Seq<char> {
    name + "_info"@
}

/// A transformer object, and the tank in it.
pub open spec fn says_transformer(m: Sem, o: Entries, xf: DistTransformerV) -> bool {
    &&& str_at(o, "Ravens.cimObjectType"@) == Some("PowerTransformer"@)
    &&& get_of(o, "IdentifiedObject.mRID"@) == Some(
        JsonV::Str(written_id("PowerTransformer"@, xf.name, extras_mrid_of(xf.extras))),
    )
    &&& get_of(o, "PowerTransformer.TransformerTank"@) matches Some(JsonV::Arr(tanks))
    &&& tanks.len() == 1
    &&& tanks[0] is Obj
}

/// The tank of a transformer object.
pub open spec fn tank_in(o: Entries) -> Entries {
    get_of(o, "PowerTransformer.TransformerTank"@)->0->Arr_0[0]->Obj_0
}

/// The datasheet of a catalog entry.
pub open spec fn sheet_in(wrapper: Entries, name: Seq<char>) -> Entries {
    get_of(
        get_of(wrapper, "PowerTransformerInfo.TransformerTankInfos"@)->0->Obj_0,
        sheet_name(name),
    )->0->Obj_0
}

/// A tank of a name that points at the datasheet of the name.
pub open spec fn says_tank(tank: Entries, name: Seq<char>) -> bool {
    &&& str_at(tank, "Ravens.cimObjectType"@) == Some("TransformerTank"@)
    &&& str_at(tank, "IdentifiedObject.name"@) == Some(name)
    &&& target_at(tank, "PowerSystemResource.AssetDatasheet"@) == Some(sheet_name(name))
}

/// A catalog entry that holds the datasheet of a name.
pub open spec fn says_wrapper(wrapper: Entries, name: Seq<char>) -> bool {
    &&& get_of(wrapper, "PowerTransformerInfo.TransformerTankInfos"@) matches Some(
        JsonV::Obj(table),
    )
    &&& get_of(table, sheet_name(name)) matches Some(JsonV::Obj(sheet))
    &&& str_at(sheet, "Ravens.cimObjectType"@) == Some("TransformerTankInfo"@)
}

/// The ends of a tank and the records of its datasheet, with the tests of the
/// first.
pub open spec fn says_pair(m: Sem, tank: Entries, sheet: Entries, xf: DistTransformerV) -> bool {
    let infos = infos_of(sheet);
    &&& numbered(m, ends_of(tank), infos, xf.windings)
    &&& says_tests(m, infos[0].1, xf)
    &&& says_noload(m, infos[0].1, xf)
    &&& forall|k: int|
        1 <= k < infos.len() ==> {
            &&& get_of(
                (#[trigger] infos[k]).1,
                "TransformerEndInfo.EnergisedEndShortCircuitTests"@,
            ) is None
            &&& get_of(infos[k].1, "TransformerEndInfo.EnergisedEndNoLoadTests"@) is None
        }
}

proof fn lemma_tank_keys()
    ensures
        "PowerTransformer.vectorGroup"@.len() == 28,
        "PowerTransformer.TransformerTank"@.len() == 32,
        "PowerSystemResource.AssetDatasheet"@.len() == 34,
        "PowerSystemResource.AssetDatasheet"@[0] == 'P',
        "TransformerTank.TransformerTankEnd"@.len() == 34,
        "TransformerTank.TransformerTankEnd"@[0] == 'T',
        "TransformerTankInfo.TransformerEndInfos"@.len() == 39,
        forall|i: int|
            0 <= i < "TransformerTankInfo"@.len() ==> #[trigger] "TransformerTankInfo"@[i] != ':',
{
    reveal_strlit("PowerTransformer.vectorGroup");
    reveal_strlit("PowerTransformer.TransformerTank");
    reveal_strlit("PowerSystemResource.AssetDatasheet");
    reveal_strlit("TransformerTank.TransformerTankEnd");
    reveal_strlit("TransformerTankInfo.TransformerEndInfos");
    reveal_strlit("TransformerTankInfo");
}

/// The name an object gives itself.
proof fn lemma_named(kind: Seq<char>, name: Seq<char>, imported: Option<Seq<char>>)
    ensures
        get_of(identified_of(kind, name, imported), "IdentifiedObject.name"@) == Some(
            JsonV::Str(name),
        ),
{
    broadcast use lemma_get_put;

    lemma_identity_keys();
    reveal(identified_of);
}

#[verifier::rlimit(40)]
pub proof fn lemma_transformer_shape(w: WriterV, m: Sem, xf: DistTransformerV)
    ensures
        transformer_json(w, m, xf).1 matches JsonV::Obj(o) && says_transformer(m, o, xf)
            && says_tank(tank_in(o), xf.name) && list_at(
            tank_in(o),
            "TransformerTank.TransformerTankEnd"@,
        ) == windings_json(w, m, xf, xf.windings.len()).1,
{
    broadcast use lemma_get_put;

    reveal(transformer_json);
    reveal(str_at);
    reveal(list_at);
    reveal(target_at);
    lemma_tank_keys();
    lemma_identity_keys();
    let imported = extras_mrid_of(xf.extras);
    lemma_identified_again("PowerTransformer"@, xf.name, imported);
    lemma_identified("PowerTransformer"@, xf.name, imported, "PowerTransformer.vectorGroup"@);
    lemma_identified("TransformerTank"@, xf.name, None, "PowerTransformer.vectorGroup"@);
    lemma_named("TransformerTank"@, xf.name, None);
    lemma_pointer_reads_back("TransformerTankInfo"@, sheet_name(xf.name));
}

#[verifier::rlimit(40)]
proof fn lemma_wrapper_shape(w: WriterV, m: Sem, xf: DistTransformerV)
    ensures
        transformer_json(w, m, xf).2 matches JsonV::Obj(a) && says_wrapper(a, xf.name) && list_at(
            sheet_in(a, xf.name),
            "TransformerTankInfo.TransformerEndInfos"@,
        ) == objects(
            windings_json(w, m, xf, xf.windings.len()).2.update(
                0,
                tested_json(
                    windings_json(w, m, xf, xf.windings.len()).0,
                    m,
                    xf,
                    windings_json(w, m, xf, xf.windings.len()).2[0],
                ).1,
            ),
        ),
{
    broadcast use lemma_get_put;

    reveal(transformer_json);
    reveal(str_at);
    reveal(list_at);
    lemma_tank_keys();
    lemma_identity_keys();
    lemma_identified(
        "TransformerTankInfo"@,
        sheet_name(xf.name),
        None,
        "PowerTransformer.vectorGroup"@,
    );
}

#[verifier::rlimit(40)]
proof fn lemma_pair_says(w: WriterV, m: Sem, xf: DistTransformerV)
    requires
        2 <= xf.windings.len() < u64::MAX,
    ensures
        ({
            let o = transformer_json(w, m, xf).1->Obj_0;
            let a = transformer_json(w, m, xf).2->Obj_0;
            says_pair(m, tank_in(o), sheet_in(a, xf.name), xf)
        }),
{
    lemma_transformer_shape(w, m, xf);
    lemma_wrapper_shape(w, m, xf);
    let n = xf.windings.len();
    let (v, ends, infos) = windings_json(w, m, xf, n);
    lemma_windings_say(w, m, xf, n);
    assert(says_info_at(m, infos, xf, 0));
    lemma_tested_says(v, m, xf, infos[0]);
    lemma_tested_noload(v, m, xf, infos[0]);
    let all = infos.update(0, tested_json(v, m, xf, infos[0]).1);
    assert forall|k: int| 0 <= k < ends.len() implies {
        &&& #[trigger] ends[k] is Obj
        &&& uint_at(ends[k]->Obj_0, "TransformerEnd.endNumber"@) == Some((k + 1) as u64)
    } by {}
    lemma_ends_in_order(ends, n);
    assert forall|k: int| 0 <= k < all.len() implies uint_at(
        #[trigger] all[k],
        "TransformerEndInfo.endNumber"@,
    ) == Some((k + 1) as u64) by {
        assert(says_info_at(m, infos, xf, k));
    }
    lemma_infos_in_order(all, n);
    reveal(ends_of);
    reveal(infos_of);
    let o = transformer_json(w, m, xf).1->Obj_0;
    let a = transformer_json(w, m, xf).2->Obj_0;
    let read = infos_of(sheet_in(a, xf.name));
    assert(read == Seq::new(n, |k: int| ((k + 1) as u64, all[k])));
    assert forall|k: int| 0 <= k < n implies {
        &&& (#[trigger] read[k]).0 == (k + 1) as u64
        &&& says_info(m, read[k].1, xf.windings[k], k as nat)
    } by {
        assert(says_info_at(m, infos, xf, k));
    }
    assert forall|k: int| 1 <= k < read.len() implies {
        &&& get_of(
            (#[trigger] read[k]).1,
            "TransformerEndInfo.EnergisedEndShortCircuitTests"@,
        ) is None
        &&& get_of(read[k].1, "TransformerEndInfo.EnergisedEndNoLoadTests"@) is None
    } by {
        assert(says_info_at(m, infos, xf, k));
    }
}

spec fn says_info_at(m: Sem, infos: Seq<Entries>, xf: DistTransformerV, k: int) -> bool {
    &&& says_info(m, infos[k], xf.windings[k], k as nat)
    &&& get_of(infos[k], "TransformerEndInfo.EnergisedEndShortCircuitTests"@) is None
    &&& get_of(infos[k], "TransformerEndInfo.EnergisedEndNoLoadTests"@) is None
}

// ---- tables ----------------------------------------------------------------

/// The object and the catalog entry of a transformer in their tables.
pub open spec fn tabled(m: Sem, table: Entries, assets: Entries, xf: DistTransformerV) -> bool {
    &&& get_of(table, xf.name) matches Some(JsonV::Obj(o))
    &&& get_of(assets, sheet_name(xf.name)) matches Some(JsonV::Obj(a))
    &&& says_transformer(m, o, xf)
    &&& says_tank(tank_in(o), xf.name)
    &&& says_wrapper(a, xf.name)
    &&& says_pair(m, tank_in(o), sheet_in(a, xf.name), xf)
}

pub proof fn lemma_sheet_names(a: Seq<char>, b: Seq<char>)
    requires
        sheet_name(a) == sheet_name(b),
    ensures
        a == b,
{
    assert(a =~= sheet_name(a).take(sheet_name(a).len() - "_info"@.len()));
    assert(b =~= sheet_name(b).take(sheet_name(b).len() - "_info"@.len()));
}

proof fn lemma_transformer_table(w: WriterV, m: Sem, s: Seq<DistTransformerV>, n: nat, i: int)
    requires
        0 <= i < n <= s.len(),
        2 <= s[i].windings.len() < u64::MAX,
        forall|j: int| i < j < s.len() ==> (#[trigger] s[j]).name != s[i].name,
    ensures
        tabled(m, transformers_json(w, m, s, n).1, transformers_json(w, m, s, n).2, s[i]),
    decreases n,
{
    broadcast use lemma_get_put;

    let before = transformers_json(w, m, s, (n - 1) as nat);
    if i == n - 1 {
        lemma_transformer_shape(before.0, m, s[i]);
        lemma_wrapper_shape(before.0, m, s[i]);
        lemma_pair_says(before.0, m, s[i]);
    } else {
        lemma_transformer_table(w, m, s, (n - 1) as nat, i);
        assert(s[n - 1].name != s[i].name);
        if sheet_name(s[n - 1].name) == sheet_name(s[i].name) {
            lemma_sheet_names(s[n - 1].name, s[i].name);
        }
    }
}

pub proof fn lemma_transformer_tables(m: Sem, net: DistNetworkV, i: int)
    requires
        0 <= i < net.transformers.len(),
        2 <= net.transformers[i].windings.len() < u64::MAX,
        forall|j: int|
            i < j < net.transformers.len() ==> (#[trigger] net.transformers[j]).name
                != net.transformers[i].name,
    ensures
        tabled(
            m,
            written_tables(m, net).transformers,
            written_tables(m, net).assets,
            net.transformers[i],
        ),
{
    reveal(tables_of);
    let w = unrepresented(fresh_writer(bases_of(m, net)), m, net);
    let w = linecodes_json(w, m, net.linecodes, net.linecodes.len()).0;
    let w = lines_json(w, m, net, net.lines.len()).0;
    let w = switches_json(w, m, net.switches, net.switches.len()).0;
    let w = loads_json(w, m, net, net.loads.len()).0;
    let w = shunts_json(w, m, net.shunts, net.shunts.len()).0;
    let w = machines_json(w, m, net.generators, net.generators.len()).0;
    let w = all_electronics_json(w, m, net.ibrs, net.ibrs.len()).0;
    let w = sources_json(w, m, net.sources, net.sources.len()).0;
    lemma_transformer_table(w, m, net.transformers, net.transformers.len(), i);
}

// ---- places ----------------------------------------------------------------

pub open spec fn transformer_path() -> Seq<Seq<char>> {
    seq!["PowerSystemResource"@, "Equipment"@, "ConductingEquipment"@, "PowerTransformer"@]
}

/// The path to the datasheet of a transformer.
pub open spec fn sheet_path(name: Seq<char>) -> Seq<Seq<char>> {
    seq![
        "AssetInfo"@,
        "PowerTransformerInfo"@,
        sheet_name(name),
        "PowerTransformerInfo.TransformerTankInfos"@,
    ]
}

proof fn lemma_transformer_place(t: TablesV)
    requires
        t.transformers.len() > 0,
    ensures
        get_of(equipment_of(t), "PowerTransformer"@) == Some(JsonV::Obj(t.transformers)),
        equipment_of(t).len() > 0,
{
    broadcast use lemma_get_put;

    lemma_equipment_keys();
    reveal(equipment_of);
    lemma_some_entries(equipment_of(t), "PowerTransformer"@);
}

#[verifier::rlimit(40)]
proof fn lemma_asset_place(m: Sem, net: DistNetworkV)
    requires
        written_tables(m, net).assets.len() > 0,
    ensures
        ({
            let root = typed_root(m, net);
            let assets = written_tables(m, net).assets;
            let level = put_table(Entries::empty(), "PowerTransformerInfo"@, assets);
            get_of(root, "AssetInfo"@) == Some(JsonV::Obj(level))
        }),
{
    broadcast use lemma_get_put;

    let assets = written_tables(m, net).assets;
    lemma_put_some(Entries::empty(), "PowerTransformerInfo"@, JsonV::Obj(assets));
    lemma_root_keys();
    reveal(typed_of);
}

#[verifier::rlimit(40)]
proof fn lemma_transformer_found(m: Sem, net: DistNetworkV, name: Seq<char>, v: JsonV)
    requires
        clear(net.untyped, transformer_path(), name),
        get_of(written_tables(m, net).transformers, name) == Some(v),
    ensures
        found_at(ravens_document(m, net).1, transformer_path(), 0, name) == Some(v),
{
    broadcast use lemma_get_put;

    let t = written_tables(m, net);
    lemma_some_entries(t.transformers, name);
    lemma_transformer_place(t);
    lemma_levels(m, net);
    lemma_typed_place_stays(m, net, transformer_path(), name);
    reveal_with_fuel(found_at, 6);
}

#[verifier::rlimit(40)]
proof fn lemma_sheet_found(m: Sem, net: DistNetworkV, name: Seq<char>, a: Entries)
    requires
        clear(net.untyped, sheet_path(name), sheet_name(name)),
        get_of(written_tables(m, net).assets, sheet_name(name)) == Some(JsonV::Obj(a)),
        says_wrapper(a, name),
    ensures
        found_at(ravens_document(m, net).1, sheet_path(name), 0, sheet_name(name)) == Some(
            JsonV::Obj(sheet_in(a, name)),
        ),
{
    broadcast use lemma_get_put;

    lemma_some_entries(written_tables(m, net).assets, sheet_name(name));
    lemma_asset_place(m, net);
    lemma_typed_place_stays(m, net, sheet_path(name), sheet_name(name));
    reveal_with_fuel(found_at, 6);
}

// ---- reading ---------------------------------------------------------------

/// All objects of a kind and a name are the same.
pub open spec fn unambiguous(doc: Seq<ObjV>, kind: Seq<char>, name: Seq<char>) -> bool {
    forall|a: int, b: int|
        0 <= a < doc.len() && 0 <= b < doc.len() && (#[trigger] doc[a]).kind == kind
            && doc[a].name == name && (#[trigger] doc[b]).kind == kind && doc[b].name == name
            ==> doc[a].props == doc[b].props
}

proof fn lemma_named_from(doc: Seq<ObjV>, kind: Seq<char>, name: Seq<char>, at: int, i: int)
    requires
        0 <= i <= at < doc.len(),
        doc[at].kind == kind,
        doc[at].name == name,
    ensures
        named_from(doc, kind, name, i) matches Some(k) && i <= k <= at && doc[k].kind == kind
            && doc[k].name == name,
    decreases at - i,
{
    if !(doc[i].name == name && doc[i].kind == kind) {
        lemma_named_from(doc, kind, name, at, i + 1);
    }
}

/// What is found by its name is the object of the name.
pub proof fn lemma_named_is(doc: Seq<ObjV>, kind: Seq<char>, name: Seq<char>, at: int)
    requires
        unambiguous(doc, kind, name),
        0 <= at < doc.len(),
        doc[at].kind == kind,
        doc[at].name == name,
    ensures
        named_of(doc, kind, name) == Some(doc[at].props),
{
    reveal(named_of);
    lemma_named_from(doc, kind, name, at, 0);
}

/// A transformer that comes back of a transformer. Its taps are those of the tap
/// changers of the document.
pub open spec fn comes_of_transformer(
    m: Sem,
    back: DistTransformerV,
    xf: DistTransformerV,
) -> bool {
    &&& back.name == xf.name
    &&& back.windings.len() == xf.windings.len()
    &&& forall|k: int|
        0 <= k < back.windings.len() ==> comes_of_winding(
            m,
            #[trigger] back.windings[k],
            xf.windings[k],
        )
    &&& comes_of_reactances(m, back.xsc_pct, xf)
    &&& comes_of_extras(m, back.extras, xf)
}

proof fn lemma_tapped_inside(m: Sem, u: Bits, windings: Seq<WindingV>, i: int)
    requires
        0 <= i,
        windings.len() > 0,
    ensures
        0 <= tapped_from(m, u, windings, i) < windings.len(),
    decreases windings.len() - i,
{
    if i < windings.len() {
        lemma_tapped_inside(m, u, windings, i + 1);
    }
}

/// A tap changes nothing else of a winding.
proof fn lemma_tapped_come(
    m: Sem,
    doc: Seq<ObjV>,
    st: StateV,
    name: Seq<char>,
    windings: Seq<WindingV>,
    xs: Seq<WindingV>,
)
    requires
        come_of_windings(m, windings, xs, xs.len()),
    ensures
        come_of_windings(m, tapped_of(m, doc, st, name, windings).1, xs, xs.len()),
{
    reveal(tapped_of);
    let tapped = tapped_of(m, doc, st, name, windings).1;
    if let Some(o) = named_of(doc, "RatioTapChanger"@, name) {
        if windings.len() > 0 {
            lemma_tapped_inside(m, num_or(m, o, "TapChanger.neutralU"@, ZERO), windings, 0);
        }
    }
    assert forall|k: int| 0 <= k < xs.len() implies comes_of_winding(
        m,
        #[trigger] tapped[k],
        xs[k],
    ) by {
        assert(comes_of_winding(m, windings[k], xs[k]));
    }
}

#[verifier::rlimit(60)]
pub proof fn lemma_tank_step(
    m: Sem,
    doc: Seq<ObjV>,
    st: StateV,
    o: ObjV,
    props: Entries,
    sheet: Entries,
    xf: DistTransformerV,
)
    requires
        xf.windings.len() >= 2,
        o.name == xf.name,
        says_transformer(m, props, xf),
        says_tank(o.props, xf.name),
        says_pair(m, o.props, sheet, xf),
        named_of(doc, "TransformerTankInfo"@, sheet_name(xf.name)) == Some(sheet),
        named_of(doc, "PowerTransformer"@, xf.name) == Some(props),
    ensures
        ({
            let all = tank_step(m, doc, st, o).net.transformers;
            all.len() > 0 && comes_of_transformer(m, all[all.len() - 1], xf)
        }),
{
    let infos = infos_of(sheet);
    let ends = ends_of(o.props);
    let n = xf.windings.len();
    assert(datasheet_of(doc, o.props) == Some(sheet));
    lemma_windings_read(m, st, o.name, infos, ends, xf.windings, n);
    let e = windings_n(m, st, o.name, infos, ends, n);
    assert(infos[0].0 == 1u64);
    assert forall|k: int| 1 <= k < infos.len() implies list_at(
        (#[trigger] infos[k]).1,
        "TransformerEndInfo.EnergisedEndShortCircuitTests"@,
    ).len() == 0 by {
        reveal(list_at);
    }
    lemma_reactances_read(m, e.st, o.name, infos, xf);
    let tested = reactances_of(m, e.st, o.name, n, infos).0;
    lemma_tapped_come(m, doc, tested, o.name, e.windings, xf.windings);
    lemma_extras_come_back(m, props, infos, xf);
}

proof fn lemma_tank_pushed(
    m: Sem,
    doc: Seq<ObjV>,
    st: StateV,
    ids: Seq<usize>,
    j: int,
    props: Entries,
    sheet: Entries,
    xf: DistTransformerV,
) -> (k: int)
    requires
        0 <= j < ids.len(),
        xf.windings.len() >= 2,
        doc[ids[j] as int].name == xf.name,
        says_transformer(m, props, xf),
        says_tank(doc[ids[j] as int].props, xf.name),
        says_pair(m, doc[ids[j] as int].props, sheet, xf),
        named_of(doc, "TransformerTankInfo"@, sheet_name(xf.name)) == Some(sheet),
        named_of(doc, "PowerTransformer"@, xf.name) == Some(props),
    ensures
        0 <= k < tanks_n(m, doc, st, ids, ids.len()).net.transformers.len(),
        comes_of_transformer(m, tanks_n(m, doc, st, ids, ids.len()).net.transformers[k], xf),
{
    let before = tanks_n(m, doc, st, ids, j as nat);
    let after = tanks_n(m, doc, st, ids, (j + 1) as nat).net.transformers;
    lemma_tank_step(m, doc, before, doc[ids[j] as int], props, sheet, xf);
    lemma_tanks_n_grows(m, doc, st, ids, (j + 1) as nat, ids.len());
    let k = after.len() - 1;
    assert(tanks_n(m, doc, st, ids, ids.len()).net.transformers[k] == after[k]);
    k
}

/// The tank of a transformer finds the transformer and the datasheet.
#[verifier::rlimit(60)]
pub proof fn lemma_tank_lookups(m: Sem, net: DistNetworkV, i: int)
    requires
        0 <= i < net.transformers.len(),
        2 <= net.transformers[i].windings.len() < u64::MAX,
        clear(net.untyped, transformer_path(), net.transformers[i].name),
        clear(
            net.untyped,
            sheet_path(net.transformers[i].name),
            sheet_name(net.transformers[i].name),
        ),
        forall|j: int|
            i < j < net.transformers.len() ==> (#[trigger] net.transformers[j]).name
                != net.transformers[i].name,
        unambiguous(
            collect_of(ravens_document(m, net).1),
            "TransformerTankInfo"@,
            sheet_name(net.transformers[i].name),
        ),
        unambiguous(
            collect_of(ravens_document(m, net).1),
            "PowerTransformer"@,
            net.transformers[i].name,
        ),
    ensures
        ({
            let doc = collect_of(ravens_document(m, net).1);
            let xf = net.transformers[i];
            let t = written_tables(m, net);
            let a = get_of(t.assets, sheet_name(xf.name))->0->Obj_0;
            let o = get_of(t.transformers, xf.name)->0->Obj_0;
            &&& tabled(m, t.transformers, t.assets, xf)
            &&& named_of(doc, "PowerTransformer"@, xf.name) == Some(o)
            &&& named_of(doc, "TransformerTankInfo"@, sheet_name(xf.name)) == Some(
                sheet_in(a, xf.name),
            )
        }),
{
    let root = ravens_document(m, net).1;
    let doc = collect_of(root);
    let xf = net.transformers[i];
    let name = xf.name;
    lemma_transformer_tables(m, net, i);
    let o = get_of(written_tables(m, net).transformers, name)->0->Obj_0;
    let a = get_of(written_tables(m, net).assets, sheet_name(name))->0->Obj_0;
    let sheet = sheet_in(a, name);
    lemma_transformer_found(m, net, name, JsonV::Obj(o));
    lemma_sheet_found(m, net, name, a);
    let p = lemma_typed_object_is_collected(root, transformer_path(), name, o, "PowerTransformer"@);
    lemma_named_is(doc, "PowerTransformer"@, name, p);
    let q = lemma_typed_object_is_collected(
        root,
        sheet_path(name),
        sheet_name(name),
        sheet,
        "TransformerTankInfo"@,
    );
    lemma_named_is(doc, "TransformerTankInfo"@, sheet_name(name), q);
}

/// No transformer is lost: a network that is read of a written document has, for
/// every transformer of the network that was written that has two windings and a
/// name of its own, one of that name and identifier with the same windings, at
/// the same buses, connected and rated as they were, and with the reactance of
/// its first pair.
#[verifier::rlimit(60)]
pub proof fn lemma_transformers_survive(m: Sem, net: DistNetworkV, i: int)
    requires
        0 <= i < net.transformers.len(),
        2 <= net.transformers[i].windings.len() < u64::MAX,
        clear(net.untyped, transformer_path(), net.transformers[i].name),
        clear(
            net.untyped,
            sheet_path(net.transformers[i].name),
            sheet_name(net.transformers[i].name),
        ),
        forall|j: int|
            i < j < net.transformers.len() ==> (#[trigger] net.transformers[j]).name
                != net.transformers[i].name,
        collect_of(ravens_document(m, net).1).len() <= usize::MAX,
        unambiguous(
            collect_of(ravens_document(m, net).1),
            "TransformerTankInfo"@,
            sheet_name(net.transformers[i].name),
        ),
        unambiguous(
            collect_of(ravens_document(m, net).1),
            "PowerTransformer"@,
            net.transformers[i].name,
        ),
    ensures
        ravens_value(m, JsonV::Obj(ravens_document(m, net).1)) matches Ok(back) ==> exists|k: int|
            0 <= k < back.transformers.len() && comes_of_transformer(
                m,
                #[trigger] back.transformers[k],
                net.transformers[i],
            ),
{
    let root = ravens_document(m, net).1;
    let doc = collect_of(root);
    let xf = net.transformers[i];
    let name = xf.name;
    lemma_tank_lookups(m, net, i);
    let o = get_of(written_tables(m, net).transformers, name)->0->Obj_0;
    let a = get_of(written_tables(m, net).assets, sheet_name(name))->0->Obj_0;
    let sheet = sheet_in(a, name);
    let tank = tank_in(o);
    lemma_transformer_found(m, net, name, JsonV::Obj(o));
    let at = lemma_listed_object_is_collected(
        root,
        transformer_path(),
        name,
        o,
        "PowerTransformer.TransformerTank"@,
        get_of(o, "PowerTransformer.TransformerTank"@)->0->Arr_0,
        0,
        tank,
    );
    let kind = "TransformerTank"@;
    let j = lemma_kind_holds(doc, Seq::empty(), kind, doc.len(), at);
    let ids = sorted_kind(doc, "TransformerTank"@);
    let g = stages(m, doc);
    let k = lemma_tank_pushed(m, doc, g.fed, ids, j, o, sheet, xf);
    lemma_nothing_is_taken_back(m, doc);
    assert(g.wound.net.transformers == tanks_n(m, doc, g.fed, ids, ids.len()).net.transformers);
    assert(run_of(m, doc).net.transformers[k] == g.wound.net.transformers[k]);
    if let Ok(back) = ravens_value(m, JsonV::Obj(root)) {
        assert(comes_of_transformer(m, back.transformers[k], xf));
    }
}

// ---- documents without untyped objects ---------------------------------------

/// The kinds that a tank is looked up with.
pub open spec fn looked_up(x: Seq<char>) -> bool {
    x == "TransformerTankInfo"@ || x == "PowerTransformer"@
}

proof fn lemma_looked_up(x: Seq<char>)
    requires
        looked_up(x),
    ensures
        stands_alone(x),
        x != "TransformerTank"@,
        x != "BaseVoltage"@,
{
    reveal_strlit("Terminal");
    reveal_strlit("CurrentLimit");
    reveal_strlit("VoltageLimit");
    reveal_strlit("OperationalLimitSet");
    reveal_strlit("OperationalLimitType");
    reveal_strlit("PhaseImpedanceData");
    reveal_strlit("ACLineSegmentPhase");
    reveal_strlit("SwitchPhase");
    reveal_strlit("EnergyConnectionProfile");
    reveal_strlit("EnergyConsumerPhase");
    reveal_strlit("GeneratingUnit");
    reveal_strlit("PhotoVoltaicUnit");
    reveal_strlit("BatteryUnit");
    reveal_strlit("TransformerTankEnd");
    reveal_strlit("TransformerEndInfo");
    reveal_strlit("ShortCircuitTest");
    reveal_strlit("NoLoadTest");
    reveal_strlit("PositionPoint");
    reveal_strlit("IEC61970CIMVersion");
    reveal_strlit("RavensVersion");
    reveal_strlit("TransformerTank");
    reveal_strlit("BaseVoltage");
    reveal_strlit("TransformerTankInfo");
    reveal_strlit("PowerTransformer");
    assert("Terminal"@.len() == 8);
    assert("CurrentLimit"@.len() == 12);
    assert("VoltageLimit"@.len() == 12);
    assert("OperationalLimitSet"@.len() == 19);
    assert("OperationalLimitType"@.len() == 20);
    assert("PhaseImpedanceData"@.len() == 18);
    assert("ACLineSegmentPhase"@.len() == 18);
    assert("SwitchPhase"@.len() == 11);
    assert("EnergyConnectionProfile"@.len() == 23);
    assert("EnergyConsumerPhase"@.len() == 19);
    assert("GeneratingUnit"@.len() == 14);
    assert("PhotoVoltaicUnit"@.len() == 16);
    assert("BatteryUnit"@.len() == 11);
    assert("TransformerTankEnd"@.len() == 18);
    assert("TransformerEndInfo"@.len() == 18);
    assert("ShortCircuitTest"@.len() == 16);
    assert("NoLoadTest"@.len() == 10);
    assert("PositionPoint"@.len() == 13);
    assert("IEC61970CIMVersion"@.len() == 18);
    assert("RavensVersion"@.len() == 13);
    assert("TransformerTank"@.len() == 15);
    assert("BaseVoltage"@.len() == 11);
    assert("TransformerTankInfo"@.len() == 19);
    assert("PowerTransformer"@.len() == 16);
    assert("OperationalLimitSet"@[0] == 'O' && "TransformerTankInfo"@[0] == 'T');
    assert("EnergyConsumerPhase"@[0] == 'E' && "TransformerTankInfo"@[0] == 'T');
    assert("PhotoVoltaicUnit"@[1] == 'h' && "PowerTransformer"@[1] == 'o');
    assert("ShortCircuitTest"@[0] == 'S' && "PowerTransformer"@[0] == 'P');
}

proof fn lemma_kinds_differ()
    ensures
        "TransformerTankInfo"@ != "PerLengthPhaseImpedance"@,
        "TransformerTankInfo"@ != "ACLineSegment"@,
        "TransformerTankInfo"@ != "Switch"@,
        "TransformerTankInfo"@ != "EnergyConsumer"@,
        "TransformerTankInfo"@ != "LinearShuntCompensator"@,
        "TransformerTankInfo"@ != "SynchronousMachine"@,
        "TransformerTankInfo"@ != "PowerElectronicsConnection"@,
        "TransformerTankInfo"@ != "EnergySource"@,
        "TransformerTankInfo"@ != "ConnectivityNode"@,
        "TransformerTankInfo"@ != "Location"@,
        "TransformerTankInfo"@ != "LoadResponseCharacteristic"@,
        "PowerTransformer"@ != "PerLengthPhaseImpedance"@,
        "PowerTransformer"@ != "ACLineSegment"@,
        "PowerTransformer"@ != "Switch"@,
        "PowerTransformer"@ != "EnergyConsumer"@,
        "PowerTransformer"@ != "LinearShuntCompensator"@,
        "PowerTransformer"@ != "SynchronousMachine"@,
        "PowerTransformer"@ != "PowerElectronicsConnection"@,
        "PowerTransformer"@ != "EnergySource"@,
        "PowerTransformer"@ != "ConnectivityNode"@,
        "PowerTransformer"@ != "Location"@,
        "PowerTransformer"@ != "LoadResponseCharacteristic"@,
        "TransformerTankInfo"@ != "PowerTransformer"@,
{
    reveal_strlit("PerLengthPhaseImpedance");
    reveal_strlit("ACLineSegment");
    reveal_strlit("Switch");
    reveal_strlit("EnergyConsumer");
    reveal_strlit("LinearShuntCompensator");
    reveal_strlit("SynchronousMachine");
    reveal_strlit("PowerElectronicsConnection");
    reveal_strlit("EnergySource");
    reveal_strlit("ConnectivityNode");
    reveal_strlit("Location");
    reveal_strlit("LoadResponseCharacteristic");
    reveal_strlit("TransformerTankInfo");
    reveal_strlit("PowerTransformer");
    assert("PerLengthPhaseImpedance"@.len() == 23);
    assert("ACLineSegment"@.len() == 13);
    assert("Switch"@.len() == 6);
    assert("EnergyConsumer"@.len() == 14);
    assert("LinearShuntCompensator"@.len() == 22);
    assert("SynchronousMachine"@.len() == 18);
    assert("PowerElectronicsConnection"@.len() == 26);
    assert("EnergySource"@.len() == 12);
    assert("ConnectivityNode"@.len() == 16);
    assert("Location"@.len() == 8);
    assert("LoadResponseCharacteristic"@.len() == 26);
    assert("TransformerTankInfo"@.len() == 19);
    assert("PowerTransformer"@.len() == 16);
    assert("ConnectivityNode"@[0] == 'C' && "PowerTransformer"@[0] == 'P');
}

/// The tables of transformers and of their catalog entries are in key order.
pub proof fn lemma_wound_sorted(w: WriterV, m: Sem, s: Seq<DistTransformerV>, n: nat)
    ensures
        sorted(transformers_json(w, m, s, n).1),
        sorted(transformers_json(w, m, s, n).2),
    decreases n,
{
    if n > 0 {
        lemma_wound_sorted(w, m, s, (n - 1) as nat);
        let before = transformers_json(w, m, s, (n - 1) as nat);
        let xf = s[n - 1];
        let (_w, o, a) = transformer_json(before.0, m, xf);
        lemma_put(before.1, xf.name, o);
        lemma_put(before.2, xf.name + "_info"@, a);
    }
}

/// The same object stands the same way.
proof fn lemma_stored_once(x: Seq<char>, name: Seq<char>, a: Entries, b: Entries)
    requires
        stored(x, name, a) == stored(x, name, b),
    ensures
        a == b,
{
    broadcast use lemma_get_put;

    if x == "TransformerTankInfo"@ {
        let part = "PowerTransformerInfo.TransformerTankInfos"@;
        let p = put_of(Entries::empty(), name, JsonV::Obj(a));
        let q = put_of(Entries::empty(), name, JsonV::Obj(b));
        assert(get_of(put_of(Entries::empty(), part, JsonV::Obj(p)), part) == Some(JsonV::Obj(p)));
        assert(get_of(put_of(Entries::empty(), part, JsonV::Obj(q)), part) == Some(JsonV::Obj(q)));
        assert(get_of(p, name) == Some(JsonV::Obj(a)));
        assert(get_of(q, name) == Some(JsonV::Obj(b)));
    }
}

/// All datasheets of a name in the typed part of a document are the same, and so
/// are all transformers of a name.
pub proof fn lemma_typed_lookups(
    m: Sem,
    net: DistNetworkV,
    x: Seq<char>,
    name: Seq<char>,
)
    requires
        looked_up(x),
        forall|i: int| 0 <= i < net.ibrs.len() ==> carries_calm(x, #[trigger] net.ibrs[i]),
    ensures
        unambiguous(collect_of(typed_root(m, net)), x, name),
{
    lemma_looked_up(x);
    let w = fresh_writer(bases_of(m, net));
    let root = typed_root(m, net);
    let doc = collect_of(root);
    let tt = written_tables(m, net);
    let t = if x == "PowerTransformer"@ {
        tt.transformers
    } else {
        tt.assets
    };
    lemma_kinds_differ();
    lemma_tables_mild(x, w, m, net);
    assert(sorted(tt.transformers) && sorted(tt.assets)) by {
        reveal(tables_of);
        let w = unrepresented(w, m, net);
        let w = linecodes_json(w, m, net.linecodes, net.linecodes.len()).0;
        let w = lines_json(w, m, net, net.lines.len()).0;
        let w = switches_json(w, m, net.switches, net.switches.len()).0;
        let w = loads_json(w, m, net, net.loads.len()).0;
        let w = shunts_json(w, m, net.shunts, net.shunts.len()).0;
        let w = machines_json(w, m, net.generators, net.generators.len()).0;
        let w = all_electronics_json(w, m, net.ibrs, net.ibrs.len()).0;
        let w = sources_json(w, m, net.sources, net.sources.len()).0;
        lemma_wound_sorted(w, m, net.transformers, net.transformers.len());
    }
    lemma_own_fine(x, t);
    lemma_typed_only(x, t, w, m, net);
    lemma_collected_only(x, t, root);
    assert forall|a: int, b: int|
        0 <= a < doc.len() && 0 <= b < doc.len() && (#[trigger] doc[a]).kind == x && doc[a].name
            == name && (#[trigger] doc[b]).kind == x && doc[b].name
            == name implies doc[a].props == doc[b].props by {
        lemma_stored_once(x, name, doc[a].props, doc[b].props);
    }
}

/// Tanks find what is theirs: in the document of a network that keeps no untyped
/// objects, and whose inverters carry none over, all datasheets of a name are
/// the same, and so are all transformers of a name.
pub proof fn lemma_lookups_are_unambiguous(
    m: Sem,
    net: DistNetworkV,
    x: Seq<char>,
    name: Seq<char>,
)
    requires
        looked_up(x),
        net.untyped.len() == 0,
        forall|i: int| 0 <= i < net.ibrs.len() ==> carries_calm(x, #[trigger] net.ibrs[i]),
    ensures
        unambiguous(collect_of(ravens_document(m, net).1), x, name),
{
    lemma_typed_lookups(m, net, x, name);
    reveal(document_of);
}

} // verus!
