//! A network as one MG-RAVENS document.
//!
//! Identifiers are deterministic, imported ones pass through, and every scaled
//! value stands at the fixed point of reading and writing. Untyped objects that
//! a reader kept go back to the path they were found at; what the schema cannot
//! carry is reported by element and field.

use vstd::prelude::*;

use crate::json::{
    get_of, json_parse, json_pretty, parse_json, pretty_json, put_of, uint_json, Entries, Json,
    JsonMap, JsonV,
};
use crate::math::{eq, num_eq, over, Bits, Calc, Sem, SIXTY, THOUSAND};
use crate::model::{
    ControlProfileV, Conversion, ConversionV, DistBus, DistBusV, DistNetwork, DistNetworkV, PropV,
    UntypedObject, UntypedObjectV,
};
use crate::order::{contains, put};
use crate::ravens::accept::{lemma_written_is_accepted, unbalanced};
use crate::ravens::bases::{bases_of, best_claims, bus_bases, claims_of, edges_of, is_bases};
use crate::ravens::emit::{
    array1, base_name, extras_mrid, extras_mrid_of, fdisp, identified, identified_of, object,
    pointer, pointer_json, shown, Writer, WriterV,
};
use crate::ravens::legible::{countable, keeps_read, lemma_document_is_plain, shallow};
use crate::ravens::losses::{losses_of, say_losses};
use crate::ravens::read::{ravens_text, ravens_value as network_of};
use crate::ravens::second::{lemma_second_write_is_the_first, writes_again};
use crate::ravens::write_lines::{
    linecodes_json, lines_json, nothing, switches_json, write_linecodes, write_lines,
    write_switches,
};
use crate::ravens::write_loads::{loads_json, write_loads};
use crate::ravens::write_machines::{
    all_electronics_json, machines_json, shunts_json, sources_json, write_machines,
    write_power_electronics, write_shunts, write_sources,
};
use crate::ravens::write_tanks::{transformers_json, write_transformers};
use crate::text::{
    cat2, cat3, cat4, cat5, empty, group_views, lower, lower_of, same, split, split_of, views,
};

verus! {

// ---- buses -----------------------------------------------------------------

/// A position as a location object.
#[verifier::opaque]
pub open spec fn location_json(m: Sem, name: Seq<char>, x: Bits, y: Bits) -> JsonV {
    let p = put_of(
        Entries::empty(),
        "Ravens.cimObjectType"@,
        JsonV::Str("PositionPoint"@),
    );
    let p = put_of(p, "PositionPoint.sequenceNumber"@, uint_json(0));
    let p = put_of(p, "PositionPoint.xPosition"@, JsonV::Str(shown(m, x)));
    let p = put_of(p, "PositionPoint.yPosition"@, JsonV::Str(shown(m, y)));
    JsonV::Obj(
        put_of(
            identified_of("Location"@, name, None),
            "Location.PositionPoints"@,
            JsonV::Arr(seq![JsonV::Obj(p)]),
        ),
    )
}

fn write_location<C: Calc>(math: &C, name: &str, x: Bits, y: Bits) -> (r: Json)
    ensures
        r@ == location_json(math.sem(), name@, x, y),
{
    reveal(location_json);
    let mut p = JsonMap::new();
    p.put("Ravens.cimObjectType".to_owned(), Json::text("PositionPoint"));
    p.put("PositionPoint.sequenceNumber".to_owned(), Json::uint(0));
    p.put("PositionPoint.xPosition".to_owned(), Json::Str(fdisp(math, x)));
    p.put("PositionPoint.yPosition".to_owned(), Json::Str(fdisp(math, y)));
    let mut o = identified("Location", name, None);
    o.put("Location.PositionPoints".to_owned(), array1(object(p)));
    object(o)
}

/// The writer once a family of bounds that has no slot is reported.
pub open spec fn warn_family(w: WriterV, id: Seq<char>, family: Seq<char>, there: bool) -> WriterV {
    if there {
        w.warn(
            "bus "@ + id + ": "@ + family
                + " voltage bound family has no MG-RAVENS slot; dropped"@,
        )
    } else {
        w
    }
}

fn family(w: &mut Writer, id: &str, family: &str, there: bool)
    ensures
        final(w)@ == warn_family(old(w)@, id@, family@, there),
{
    if there {
        w.warn(
            cat5(
                "bus ",
                id,
                ": ",
                family,
                " voltage bound family has no MG-RAVENS slot; dropped",
            ),
        );
    }
}

/// A bus as a node object.
#[verifier::opaque]
pub open spec fn bus_json(w: WriterV, m: Sem, b: DistBusV) -> (WriterV, JsonV) {
    let o = identified_of("ConnectivityNode"@, b.id, extras_mrid_of(b.extras));
    let (w, o) = match (b.v_min, b.v_max) {
        (Some(low), Some(high)) => {
            let (w, set) = w.voltage_limit_set(m, low, high, w.base_of(b.id));
            (
                w,
                put_of(
                    o,
                    "ConnectivityNode.OperationalLimitSet"@,
                    pointer_json("OperationalLimitSet"@, set),
                ),
            )
        },
        _ => (w, o),
    };
    let w = warn_family(w, b.id, "vpn"@, b.vpn_min is Some || b.vpn_max is Some);
    let w = warn_family(w, b.id, "vpp"@, b.vpp_min is Some || b.vpp_max is Some);
    let w = warn_family(w, b.id, "vsym"@, b.vsym_min is Some || b.vsym_max is Some);
    let w = if b.grounded.len() > 0 && !w.grounded.contains(lower_of(b.id)) {
        w.warn(
            "bus "@ + b.id
                + ": grounding is not implied by any emitted equipment; a reparse will not recover it (MG-RAVENS has no bus grounding record)"@,
        )
    } else {
        w
    };
    (w.warn_extras("bus "@ + b.id, b.extras, Seq::empty()), JsonV::Obj(o))
}

/// The tables of the first `n` buses and of their positions.
pub open spec fn buses_json(w: WriterV, m: Sem, s: Seq<DistBusV>, n: nat) -> (
    WriterV,
    Entries,
    Entries,
)
    decreases n,
{
    if n == 0 {
        (w, Entries::empty(), Entries::empty())
    } else {
        let before = buses_json(w, m, s, (n - 1) as nat);
        let b = s[n - 1];
        let (v, j) = bus_json(before.0, m, b);
        let places = match b.location {
            Some(l) => put_of(
                before.2,
                b.id + "_Location"@,
                location_json(m, b.id + "_Location"@, l.x, l.y),
            ),
            None => before.2,
        };
        (v, put_of(before.1, b.id, j), places)
    }
}

fn write_bus<C: Calc>(w: &mut Writer, math: &C, b: &DistBus) -> (r: Json)
    ensures
        (final(w)@, r@) == bus_json(old(w)@, math.sem(), b@),
{
    reveal(bus_json);
    let id = b.id.as_str();
    let mut o = identified("ConnectivityNode", id, extras_mrid(&b.extras));
    if let (Some(low), Some(high)) = (b.v_min, b.v_max) {
        let normal = w.base_of(id);
        let set = w.voltage_limit_set(math, low, high, normal);
        o.put(
            "ConnectivityNode.OperationalLimitSet".to_owned(),
            pointer("OperationalLimitSet", set.as_str()),
        );
    }
    family(w, id, "vpn", b.vpn_min.is_some() || b.vpn_max.is_some());
    family(w, id, "vpp", b.vpp_min.is_some() || b.vpp_max.is_some());
    family(w, id, "vsym", b.vsym_min.is_some() || b.vsym_max.is_some());
    assert(b@.grounded.len() == b.grounded.len());
    if b.grounded.len() > 0 && !contains(&w.grounded, lower(id).as_str()) {
        w.warn(
            cat3(
                "bus ",
                id,
                ": grounding is not implied by any emitted equipment; a reparse will not recover it (MG-RAVENS has no bus grounding record)",
            ),
        );
    }
    let none = nothing();
    w.warn_extras(cat2("bus ", id).as_str(), &b.extras, &none);
    object(o)
}

fn write_buses<C: Calc>(w: &mut Writer, math: &C, net: &DistNetwork) -> (r: (JsonMap, JsonMap))
    ensures
        (final(w)@, r.0@, r.1@) == buses_json(
            old(w)@,
            math.sem(),
            net@.buses,
            net@.buses.len(),
        ),
{
    let mut nodes = JsonMap::new();
    let mut places = JsonMap::new();
    let mut n: usize = 0;
    while n < net.buses.len()
        invariant
            n <= net.buses.len(),
            (w@, nodes@, places@) == buses_json(old(w)@, math.sem(), net@.buses, n as nat),
        decreases net.buses.len() - n,
    {
        let b = &net.buses[n];
        assert(net@.buses[n as int] == b@);
        let j = write_bus(w, math, b);
        if let Some(l) = &b.location {
            let name = cat2(b.id.as_str(), "_Location");
            let place = write_location(math, name.as_str(), l.x, l.y);
            places.put(name, place);
        }
        nodes.put(b.id.clone(), j);
        n = n + 1;
    }
    assert(net@.buses.len() == net.buses.len());
    (nodes, places)
}

// ---- untyped objects -------------------------------------------------------

/// The value of the first property, from the `i`-th on, of a key.
pub open spec fn untyped_prop(props: Seq<PropV>, key: Seq<char>, i: int) -> Option<Seq<char>>
    decreases props.len() - i,
{
    if i < 0 || i >= props.len() {
        None
    } else if props[i].key == Some(key) {
        Some(props[i].value)
    } else {
        untyped_prop(props, key, i + 1)
    }
}

fn find_prop<'a>(u: &'a UntypedObject, key: &str) -> (r: Option<&'a String>)
    ensures
        match r {
            Some(v) => untyped_prop(u@.props, key@, 0) == Some(v@),
            None => untyped_prop(u@.props, key@, 0) is None,
        },
{
    let mut i: usize = 0;
    while i < u.props.len()
        invariant
            i <= u.props.len(),
            untyped_prop(u@.props, key@, 0) == untyped_prop(u@.props, key@, i as int),
        decreases u.props.len() - i,
    {
        assert(u@.props[i as int] == u.props@[i as int]@);
        if let Some(k) = &u.props[i].key {
            if same(k.as_str(), key) {
                return Some(&u.props[i].value);
            }
        }
        i = i + 1;
    }
    None
}

/// The keys of a path: what stands between its slashes, where anything does.
pub open spec fn path_keys_n(parts: Seq<Seq<char>>, n: nat) -> Seq<Seq<char>>
    decreases n,
{
    if n == 0 {
        seq![]
    } else if parts[n - 1].len() == 0 {
        path_keys_n(parts, (n - 1) as nat)
    } else {
        path_keys_n(parts, (n - 1) as nat).push(parts[n - 1])
    }
}

pub open spec fn path_keys_of(path: Seq<char>) -> Seq<Seq<char>> {
    let parts = split_of(path, '/');
    path_keys_n(parts, parts.len())
}

fn path_keys(path: &str) -> (r: Vec<String>)
    ensures
        views(r@) == path_keys_of(path@),
{
    broadcast use group_views;

    let parts = split(path, '/');
    let mut r: Vec<String> = Vec::new();
    let mut i: usize = 0;
    assert(views(r@) =~= seq![]);
    while i < parts.len()
        invariant
            i <= parts.len(),
            views(r@) == path_keys_n(views(parts@), i as nat),
        decreases parts.len() - i,
    {
        assert(views(parts@)[i as int] == parts@[i as int]@);
        if !empty(parts[i].as_str()) {
            r.push(parts[i].clone());
        }
        i = i + 1;
    }
    assert(views(parts@).len() == parts.len());
    r
}

/// The entries with a value under a name, at the end of a path from its `i`-th
/// key on; levels that are missing are made. Refused where the path leads
/// through something else than an object, or the name is taken.
pub open spec fn insert_in(
    m: Entries,
    path: Seq<Seq<char>>,
    i: nat,
    name: Seq<char>,
    value: JsonV,
) -> Result<
    Entries,
    Seq<char>,
>
    decreases path.len() - i,
{
    if i >= path.len() {
        if get_of(m, name) is Some {
            Err("its document slot is already taken"@)
        } else {
            Ok(put_of(m, name, value))
        }
    } else {
        let below = match get_of(m, path[i as int]) {
            None => Some(Entries::empty()),
            Some(JsonV::Obj(sub)) => Some(sub),
            Some(_) => None,
        };
        match below {
            None => Err("a document path segment is not an object"@),
            Some(sub) => match insert_in(sub, path, i + 1, name, value) {
                Ok(s) => Ok(put_of(m, path[i as int], JsonV::Obj(s))),
                Err(e) => Err(e),
            },
        }
    }
}

/// Puts a value at the end of a path, or says why it cannot stand there.
pub fn insert_at(m: &JsonMap, path: &Vec<String>, i: usize, name: &str, value: Json) -> (r: Result<
    JsonMap,
    &'static str,
>)
    requires
        i <= path.len(),
    ensures
        match r {
            Ok(o) => insert_in(m@, views(path@), i as nat, name@, value@) == Ok::<
                Entries,
                Seq<char>,
            >(o@),
            Err(e) => insert_in(m@, views(path@), i as nat, name@, value@) == Err::<
                Entries,
                Seq<char>,
            >(e@),
        },
    decreases path.len() - i,
{
    if i == path.len() {
        if m.has(name) {
            return Err("its document slot is already taken");
        }
        let mut o = m.copy();
        o.put(name.to_owned(), value);
        return Ok(o);
    }
    assert(views(path@)[i as int] == path@[i as int]@);
    let sub = match m.get(path[i].as_str()) {
        None => JsonMap::new(),
        Some(v) => match v.as_obj() {
            Some(o) => o.copy(),
            None => {
                return Err("a document path segment is not an object");
            },
        },
    };
    match insert_at(&sub, path, i + 1, name, value) {
        Ok(s) => {
            let mut o = m.copy();
            o.put(path[i].clone(), object(s));
            Ok(o)
        },
        Err(e) => Err(e),
    }
}

/// The writer and the document once an untyped object is back in its place, or
/// its loss is reported.
#[verifier::opaque]
pub open spec fn restore_step(w: WriterV, root: Entries, u: UntypedObjectV) -> (WriterV, Entries) {
    let head = "untyped "@ + u.class + " "@ + u.name;
    match (untyped_prop(u.props, "ravens_path"@, 0), untyped_prop(u.props, "ravens_json"@, 0)) {
        (Some(path), Some(raw)) => match json_parse(raw) {
            Err(_) => (
                w.warn(head + ": preserved JSON no longer parses; dropped"@),
                root,
            ),
            Ok(value) => match insert_in(root, path_keys_of(path), 0, u.name, value) {
                Ok(o) => (w, o),
                Err(why) => (w.warn(head + ": "@ + why + "; dropped"@), root),
            },
        },
        _ => (w.warn(head + ": no MG-RAVENS representation; dropped"@), root),
    }
}

pub open spec fn restored(w: WriterV, root: Entries, s: Seq<UntypedObjectV>, n: nat) -> (
    WriterV,
    Entries,
)
    decreases n,
{
    if n == 0 {
        (w, root)
    } else {
        let before = restored(w, root, s, (n - 1) as nat);
        restore_step(before.0, before.1, s[n - 1])
    }
}

fn restore(w: &mut Writer, root: &mut JsonMap, u: &UntypedObject)
    ensures
        (final(w)@, final(root)@) == restore_step(old(w)@, old(root)@, u@),
        untyped_prop(u@.props, "ravens_path"@, 0) is Some ==> keeps_read(u@),
{
    reveal(restore_step);
    let head = cat4("untyped ", u.class.as_str(), " ", u.name.as_str());
    let path = find_prop(u, "ravens_path");
    let raw = find_prop(u, "ravens_json");
    if let (Some(path), Some(raw)) = (path, raw) {
        match parse_json(raw.as_str()) {
            Err(_) => {
                w.warn(
                    cat2(head.as_str(), ": preserved JSON no longer parses; dropped"),
                );
            },
            Ok(value) => {
                let keys = path_keys(path.as_str());
                match insert_at(root, &keys, 0, u.name.as_str(), value) {
                    Ok(o) => {
                        *root = o;
                    },
                    Err(why) => {
                        w.warn(cat4(head.as_str(), ": ", why, "; dropped"));
                    },
                }
            },
        }
    } else {
        w.warn(cat2(head.as_str(), ": no MG-RAVENS representation; dropped"));
    }
}

/// What the first `n` untyped objects that have a place keep was read.
pub open spec fn all_read(s: Seq<UntypedObjectV>, n: nat) -> bool {
    forall|i: int|
        0 <= i < n && untyped_prop((#[trigger] s[i]).props, "ravens_path"@, 0) is Some
            ==> keeps_read(s[i])
}

fn restore_untyped(w: &mut Writer, root: &mut JsonMap, net: &DistNetwork)
    ensures
        (final(w)@, final(root)@) == restored(
            old(w)@,
            old(root)@,
            net@.untyped,
            net@.untyped.len(),
        ),
        all_read(net@.untyped, net@.untyped.len()),
{
    let mut n: usize = 0;
    while n < net.untyped.len()
        invariant
            n <= net.untyped.len(),
            (w@, root@) == restored(old(w)@, old(root)@, net@.untyped, n as nat),
            all_read(net@.untyped, n as nat),
        decreases net.untyped.len() - n,
    {
        assert(net@.untyped[n as int] == net.untyped@[n as int]@);
        restore(w, root, &net.untyped[n]);
        n = n + 1;
    }
    assert(net@.untyped.len() == net.untyped.len());
}

// ---- what has no slot ------------------------------------------------------

pub open spec fn warn_commands(w: WriterV, s: Seq<(Seq<char>, Seq<char>)>, n: nat) -> WriterV
    decreases n,
{
    if n == 0 {
        w
    } else {
        warn_commands(w, s, (n - 1) as nat).warn(
            "source command `"@ + s[n - 1].0 + " "@ + s[n - 1].1
                + "` has no MG-RAVENS representation; dropped"@,
        )
    }
}

fn report_commands(w: &mut Writer, s: &Vec<(String, String)>)
    ensures
        final(w)@ == warn_commands(old(w)@, views(s@), s@.len()),
{
    let mut n: usize = 0;
    while n < s.len()
        invariant
            n <= s.len(),
            w@ == warn_commands(old(w)@, views(s@), n as nat),
        decreases s.len() - n,
    {
        assert(views(s@)[n as int] == (s@[n as int].0@, s@[n as int].1@));
        w.warn(
            cat5(
                "source command `",
                s[n].0.as_str(),
                " ",
                s[n].1.as_str(),
                "` has no MG-RAVENS representation; dropped",
            ),
        );
        n = n + 1;
    }
}

pub open spec fn warn_profiles(w: WriterV, s: Seq<ControlProfileV>, n: nat) -> WriterV
    decreases n,
{
    if n == 0 {
        w
    } else {
        warn_profiles(w, s, (n - 1) as nat).warn(
            "control profile "@ + s[n - 1].name
                + ": inverter control curves have no MG-RAVENS slot; dropped"@,
        )
    }
}

/// The writer once everything that belongs to the network as a whole and has no
/// slot is reported.
#[verifier::opaque]
pub open spec fn unrepresented(w: WriterV, m: Sem, net: DistNetworkV) -> WriterV {
    let w = match net.name {
        Some(name) => w.warn(
            "network name `"@ + name
                + "` has no MG-RAVENS slot (the document carries no circuit record); dropped"@,
        ),
        None => w,
    };
    let w = if num_eq(net.base_frequency, SIXTY) {
        w
    } else {
        w.warn(
            "base frequency "@ + (m.show)(net.base_frequency)
                + " Hz has no MG-RAVENS slot; a reparse assumes 60 Hz (admittances are stored in siemens, so the model is unaffected)"@,
        )
    };
    let w = if net.geo is Some {
        w.warn(
            "coordinate-space metadata has no MG-RAVENS slot; bus positions are emitted as bare PositionPoints"@,
        )
    } else {
        w
    };
    let w = warn_commands(w, net.commands, net.commands.len());
    let w = warn_commands(w, net.options, net.options.len());
    let w = warn_profiles(w, net.control_profiles, net.control_profiles.len());
    w.warn_extras("network"@, net.extras, Seq::empty())
}

fn warn_unrepresented<C: Calc>(w: &mut Writer, math: &C, net: &DistNetwork)
    ensures
        final(w)@ == unrepresented(old(w)@, math.sem(), net@),
{
    reveal(unrepresented);
    if let Some(name) = &net.name {
        w.warn(
            cat3(
                "network name `",
                name.as_str(),
                "` has no MG-RAVENS slot (the document carries no circuit record); dropped",
            ),
        );
    }
    if !eq(net.base_frequency, SIXTY) {
        let f = math.show(net.base_frequency);
        w.warn(
            cat3(
                "base frequency ",
                f.as_str(),
                " Hz has no MG-RAVENS slot; a reparse assumes 60 Hz (admittances are stored in siemens, so the model is unaffected)",
            ),
        );
    }
    if net.geo.is_some() {
        w.warn(
            "coordinate-space metadata has no MG-RAVENS slot; bus positions are emitted as bare PositionPoints".to_owned(),
        );
    }
    assert(net@.commands.len() == net.commands@.len());
    assert(net@.options.len() == net.options@.len());
    report_commands(w, &net.commands);
    report_commands(w, &net.options);
    let ghost w0 = w@;
    let mut n: usize = 0;
    while n < net.control_profiles.len()
        invariant
            n <= net.control_profiles.len(),
            w@ == warn_profiles(w0, net@.control_profiles, n as nat),
        decreases net.control_profiles.len() - n,
    {
        assert(net@.control_profiles[n as int] == net.control_profiles@[n as int]@);
        w.warn(
            cat3(
                "control profile ",
                net.control_profiles[n].name.as_str(),
                ": inverter control curves have no MG-RAVENS slot; dropped",
            ),
        );
        n = n + 1;
    }
    assert(net@.control_profiles.len() == net.control_profiles.len());
    let none = nothing();
    w.warn_extras("network", &net.extras, &none);
}

// ---- the document ----------------------------------------------------------

/// The versions a document is of.
#[verifier::opaque]
pub open spec fn versions_json() -> JsonV {
    let cim = put_of(
        Entries::empty(),
        "Ravens.cimObjectType"@,
        JsonV::Str("IEC61970CIMVersion"@),
    );
    let cim = put_of(cim, "IEC61970CIMVersion.version"@, JsonV::Str("IEC61970CIM100"@));
    let cim = put_of(cim, "IEC61970CIMVersion.date"@, JsonV::Str("2019-04-01"@));
    let ravens = put_of(
        Entries::empty(),
        "Ravens.cimObjectType"@,
        JsonV::Str("RavensVersion"@),
    );
    let ravens = put_of(ravens, "RavensVersion.date"@, JsonV::Str("2025-03-11"@));
    let ravens = put_of(ravens, "RavensVersion.version"@, JsonV::Str("RAVENSv0.3.0-dev"@));
    JsonV::Obj(
        put_of(
            put_of(Entries::empty(), "IEC61970CIMVersion"@, JsonV::Obj(cim)),
            "RavensVersion"@,
            JsonV::Obj(ravens),
        ),
    )
}

fn versions() -> (r: Json)
    ensures
        r@ == versions_json(),
{
    reveal(versions_json);
    let mut cim = JsonMap::new();
    cim.put("Ravens.cimObjectType".to_owned(), Json::text("IEC61970CIMVersion"));
    cim.put("IEC61970CIMVersion.version".to_owned(), Json::text("IEC61970CIM100"));
    cim.put("IEC61970CIMVersion.date".to_owned(), Json::text("2019-04-01"));
    let mut ravens = JsonMap::new();
    ravens.put("Ravens.cimObjectType".to_owned(), Json::text("RavensVersion"));
    ravens.put("RavensVersion.date".to_owned(), Json::text("2025-03-11"));
    ravens.put("RavensVersion.version".to_owned(), Json::text("RAVENSv0.3.0-dev"));
    let mut v = JsonMap::new();
    v.put("IEC61970CIMVersion".to_owned(), object(cim));
    v.put("RavensVersion".to_owned(), object(ravens));
    object(v)
}

/// The entries with a table under a key, where the table holds anything.
pub open spec fn put_table(o: Entries, key: Seq<char>, table: Entries) -> Entries {
    if table.len() == 0 {
        o
    } else {
        put_of(o, key, JsonV::Obj(table))
    }
}

fn add_table(o: &mut JsonMap, key: &str, table: JsonMap)
    ensures
        final(o)@ == put_table(old(o)@, key@, table@),
{
    if table.len() > 0 {
        o.put(key.to_owned(), object(table));
    }
}

/// The base voltages of the first `n` buses, by name.
pub open spec fn base_names(m: Sem, bases: Seq<(Seq<char>, Bits)>, n: nat) -> Seq<
    (Seq<char>, Bits),
>
    decreases n,
{
    if n == 0 {
        seq![]
    } else {
        put_of(
            base_names(m, bases, (n - 1) as nat),
            base_name(m, bases[n - 1].1),
            bases[n - 1].1,
        )
    }
}

/// The table of the first `n` base voltages.
pub open spec fn base_table(w: WriterV, m: Sem, names: Seq<(Seq<char>, Bits)>, n: nat) -> (
    WriterV,
    Entries,
)
    decreases n,
{
    if n == 0 {
        (w, Entries::empty())
    } else {
        let before = base_table(w, m, names, (n - 1) as nat);
        let o = identified_of("BaseVoltage"@, names[n - 1].0, None);
        let (v, o) = before.0.put_num(
            m,
            o,
            "BaseVoltage.nominalVoltage"@,
            names[n - 1].1,
            "base voltage"@,
        );
        (v, put_of(before.1, names[n - 1].0, JsonV::Obj(o)))
    }
}

fn write_bases<C: Calc>(w: &mut Writer, math: &C) -> (r: JsonMap)
    ensures
        ({
            let m = math.sem();
            let names = base_names(m, old(w)@.bases, old(w)@.bases.len());
            (final(w)@, r@) == base_table(old(w)@, m, names, names.len())
        }),
{
    broadcast use group_views;

    let ghost m = math.sem();
    let mut names: Vec<(String, Bits)> = Vec::new();
    let mut i: usize = 0;
    assert(views(names@) =~= seq![]);
    while i < w.bases.len()
        invariant
            i <= w.bases.len(),
            w@ == old(w)@,
            m == math.sem(),
            views(names@) == base_names(m, w@.bases, i as nat),
        decreases w.bases.len() - i,
    {
        assert(w@.bases[i as int] == (w.bases@[i as int].0@, w.bases@[i as int].1));
        let v = w.bases[i].1;
        let n = fdisp(math, over(math, v, THOUSAND));
        put(&mut names, cat2("BaseV_", n.as_str()), v);
        i = i + 1;
    }
    assert(w@.bases.len() == w.bases.len());
    let ghost nv = views(names@);
    let mut table = JsonMap::new();
    let mut k: usize = 0;
    while k < names.len()
        invariant
            k <= names.len(),
            m == math.sem(),
            nv == views(names@),
            (w@, table@) == base_table(old(w)@, m, nv, k as nat),
        decreases names.len() - k,
    {
        assert(nv[k as int] == (names@[k as int].0@, names@[k as int].1));
        let mut o = identified("BaseVoltage", names[k].0.as_str(), None);
        w.put_num(math, &mut o, "BaseVoltage.nominalVoltage", names[k].1, "base voltage");
        table.put(names[k].0.clone(), object(o));
        k = k + 1;
    }
    table
}

/// The element tables of a document.
pub struct TablesV {
    pub linecodes: Entries,
    pub lines: Entries,
    pub switches: Entries,
    pub loads: Entries,
    pub shunts: Entries,
    pub machines: Entries,
    pub electronics: Entries,
    pub sources: Entries,
    pub transformers: Entries,
    pub assets: Entries,
    pub nodes: Entries,
    pub locations: Entries,
}

pub struct Tables {
    pub linecodes: JsonMap,
    pub lines: JsonMap,
    pub switches: JsonMap,
    pub loads: JsonMap,
    pub shunts: JsonMap,
    pub machines: JsonMap,
    pub electronics: JsonMap,
    pub sources: JsonMap,
    pub transformers: JsonMap,
    pub assets: JsonMap,
    pub nodes: JsonMap,
    pub locations: JsonMap,
}

impl View for Tables {
    type V = TablesV;

    open spec fn view(&self) -> TablesV {
        TablesV {
            linecodes: self.linecodes@,
            lines: self.lines@,
            switches: self.switches@,
            loads: self.loads@,
            shunts: self.shunts@,
            machines: self.machines@,
            electronics: self.electronics@,
            sources: self.sources@,
            transformers: self.transformers@,
            assets: self.assets@,
            nodes: self.nodes@,
            locations: self.locations@,
        }
    }
}

/// The writer and the tables once every element is written, one family after
/// another and the buses last.
#[verifier::opaque]
pub open spec fn tables_of(w: WriterV, m: Sem, net: DistNetworkV) -> (WriterV, TablesV) {
    let w = unrepresented(w, m, net);
    let (w, linecodes) = linecodes_json(w, m, net.linecodes, net.linecodes.len());
    let (w, lines) = lines_json(w, m, net, net.lines.len());
    let (w, switches) = switches_json(w, m, net.switches, net.switches.len());
    let (w, loads) = loads_json(w, m, net, net.loads.len());
    let (w, shunts) = shunts_json(w, m, net.shunts, net.shunts.len());
    let (w, machines) = machines_json(w, m, net.generators, net.generators.len());
    let (w, electronics) = all_electronics_json(w, m, net.ibrs, net.ibrs.len());
    let (w, sources) = sources_json(w, m, net.sources, net.sources.len());
    let (w, transformers, assets) = transformers_json(
        w,
        m,
        net.transformers,
        net.transformers.len(),
    );
    let (w, nodes, locations) = buses_json(w, m, net.buses, net.buses.len());
    (
        w,
        TablesV {
            linecodes,
            lines,
            switches,
            loads,
            shunts,
            machines,
            electronics,
            sources,
            transformers,
            assets,
            nodes,
            locations,
        },
    )
}

fn write_tables<C: Calc>(w: &mut Writer, math: &C, net: &DistNetwork) -> (r: Tables)
    ensures
        (final(w)@, r@) == tables_of(old(w)@, math.sem(), net@),
{
    reveal(tables_of);
    warn_unrepresented(w, math, net);
    let linecodes = write_linecodes(w, math, net);
    let lines = write_lines(w, math, net);
    let switches = write_switches(w, math, net);
    let loads = write_loads(w, math, net);
    let shunts = write_shunts(w, math, net);
    let machines = write_machines(w, math, net);
    let electronics = write_power_electronics(w, math, net);
    let sources = write_sources(w, math, net);
    let (transformers, assets) = write_transformers(w, math, net);
    let (nodes, locations) = write_buses(w, math, net);
    Tables {
        linecodes,
        lines,
        switches,
        loads,
        shunts,
        machines,
        electronics,
        sources,
        transformers,
        assets,
        nodes,
        locations,
    }
}

/// The equipment, each table under its abstract ancestors; empty levels are left
/// out.
#[verifier::opaque]
pub open spec fn equipment_of(t: TablesV) -> Entries {
    let regulating = Entries::empty();
    let regulating = put_table(regulating, "ShuntCompensator"@, t.shunts);
    let regulating = put_table(regulating, "RotatingMachine"@, t.machines);
    let regulating = put_table(regulating, "PowerElectronicsConnection"@, t.electronics);
    let energy = Entries::empty();
    let energy = put_table(energy, "EnergyConsumer"@, t.loads);
    let energy = put_table(energy, "EnergySource"@, t.sources);
    let energy = put_table(energy, "RegulatingCondEq"@, regulating);
    let conductor = put_table(Entries::empty(), "ACLineSegment"@, t.lines);
    let conducting = put_table(Entries::empty(), "Conductor"@, conductor);
    let conducting = put_table(conducting, "Switch"@, t.switches);
    let conducting = put_table(conducting, "PowerTransformer"@, t.transformers);
    put_table(conducting, "EnergyConnection"@, energy)
}

fn equipment(t: &Tables) -> (r: JsonMap)
    ensures
        r@ == equipment_of(t@),
{
    reveal(equipment_of);
    let mut regulating = JsonMap::new();
    add_table(&mut regulating, "ShuntCompensator", t.shunts.copy());
    add_table(&mut regulating, "RotatingMachine", t.machines.copy());
    add_table(&mut regulating, "PowerElectronicsConnection", t.electronics.copy());
    let mut energy = JsonMap::new();
    add_table(&mut energy, "EnergyConsumer", t.loads.copy());
    add_table(&mut energy, "EnergySource", t.sources.copy());
    add_table(&mut energy, "RegulatingCondEq", regulating);
    let mut conductor = JsonMap::new();
    add_table(&mut conductor, "ACLineSegment", t.lines.copy());
    let mut conducting = JsonMap::new();
    add_table(&mut conducting, "Conductor", conductor);
    add_table(&mut conducting, "Switch", t.switches.copy());
    add_table(&mut conducting, "PowerTransformer", t.transformers.copy());
    add_table(&mut conducting, "EnergyConnection", energy);
    conducting
}

/// The entries with a table two levels down, where the table holds anything.
pub open spec fn put_under(
    o: Entries,
    key: Seq<char>,
    inner: Seq<char>,
    table: Entries,
) -> Entries {
    put_table(o, key, put_table(Entries::empty(), inner, table))
}

fn add_under(o: &mut JsonMap, key: &str, inner: &str, table: JsonMap)
    ensures
        final(o)@ == put_under(old(o)@, key@, inner@, table@),
{
    let mut sub = JsonMap::new();
    add_table(&mut sub, inner, table);
    add_table(o, key, sub);
}

/// The typed part of the document of a network whose buses have the given
/// volts.
#[verifier::opaque]
pub open spec fn typed_of(w: WriterV, m: Sem, net: DistNetworkV) -> (WriterV, Entries) {
    let (w, t) = tables_of(w, m, net);
    let root = put_of(Entries::empty(), "Versions"@, versions_json());
    let root = put_of(root, "ConnectivityNode"@, JsonV::Obj(t.nodes));
    let root = put_table(root, "Location"@, t.locations);
    let root = put_under(
        root,
        "PowerSystemResource"@,
        "Equipment"@,
        put_table(Entries::empty(), "ConductingEquipment"@, equipment_of(t)),
    );
    let names = base_names(m, w.bases, w.bases.len());
    let (w, bases) = base_table(w, m, names, names.len());
    let root = put_table(root, "BaseVoltage"@, bases);
    let root = put_under(
        root,
        "PerLengthLineParameter"@,
        "PerLengthImpedance"@,
        put_table(Entries::empty(), "PerLengthPhaseImpedance"@, t.linecodes),
    );
    let root = put_under(root, "AssetInfo"@, "PowerTransformerInfo"@, t.assets);
    let root = put_table(root, "LoadResponseCharacteristic"@, w.responses);
    let (w, root) = if w.limit_sets.len() == 0 {
        (w, root)
    } else {
        let root = put_of(root, "OperationalLimitSet"@, JsonV::Obj(w.limit_sets));
        let (w, types) = w.limit_types(m);
        (w, put_of(root, "OperationalLimitType"@, JsonV::Obj(types)))
    };
    (w, put_table(root, "EnergyConnectionProfile"@, w.profiles))
}

/// The document of a network whose buses have the given volts.
#[verifier::opaque]
pub open spec fn document_of(w: WriterV, m: Sem, net: DistNetworkV) -> (WriterV, Entries) {
    let (w, root) = typed_of(w, m, net);
    restored(w, root, net.untyped, net.untyped.len())
}

fn document<C: Calc>(w: &mut Writer, math: &C, net: &DistNetwork) -> (r: JsonMap)
    ensures
        (final(w)@, r@) == document_of(old(w)@, math.sem(), net@),
        all_read(net@.untyped, net@.untyped.len()),
{
    reveal(document_of);
    reveal(typed_of);
    let t = write_tables(w, math, net);
    let conducting = equipment(&t);
    let mut root = JsonMap::new();
    root.put("Versions".to_owned(), versions());
    root.put("ConnectivityNode".to_owned(), object(t.nodes));
    add_table(&mut root, "Location", t.locations);
    let mut level = JsonMap::new();
    add_table(&mut level, "ConductingEquipment", conducting);
    add_under(&mut root, "PowerSystemResource", "Equipment", level);
    let bases = write_bases(w, math);
    add_table(&mut root, "BaseVoltage", bases);
    let mut impedance = JsonMap::new();
    add_table(&mut impedance, "PerLengthPhaseImpedance", t.linecodes);
    add_under(&mut root, "PerLengthLineParameter", "PerLengthImpedance", impedance);
    add_under(&mut root, "AssetInfo", "PowerTransformerInfo", t.assets);
    add_table(&mut root, "LoadResponseCharacteristic", w.responses.copy());
    if w.limit_sets.len() > 0 {
        root.put("OperationalLimitSet".to_owned(), object(w.limit_sets.copy()));
        let types = w.limit_types(math);
        root.put("OperationalLimitType".to_owned(), object(types));
    }
    add_table(&mut root, "EnergyConnectionProfile", w.profiles.copy());
    restore_untyped(w, &mut root, net);
    root
}

/// A writer that has emitted nothing.
pub open spec fn fresh_writer(bases: Seq<(Seq<char>, Bits)>) -> WriterV {
    WriterV {
        warnings: seq![],
        limit_sets: Entries::empty(),
        used_types: seq![],
        responses: Entries::empty(),
        profiles: Entries::empty(),
        grounded: seq![],
        bases,
    }
}

/// The document of a network as a value, with what it could not carry.
pub open spec fn ravens_document(m: Sem, net: DistNetworkV) -> (WriterV, Entries) {
    document_of(fresh_writer(bases_of(m, net)), m, net)
}

/// A network as MG-RAVENS text.
pub open spec fn ravens_json(m: Sem, net: DistNetworkV) -> ConversionV {
    let (w, root) = ravens_document(m, net);
    ConversionV {
        text: json_pretty(JsonV::Obj(root)) + "\n"@,
        sidecars: seq![],
        warnings: losses_of(m, w.warnings, net),
        diagnostics: seq![],
    }
}

/// The document of a network, and the warnings.
pub fn ravens_value<C: Calc>(math: &C, net: &DistNetwork) -> (r: (Json, Vec<String>))
    ensures
        r.0@ == JsonV::Obj(ravens_document(math.sem(), net@).1),
        views(r.1@) == ravens_document(math.sem(), net@).0.warnings,
        all_read(net@.untyped, net@.untyped.len()),
        is_bases(
            claims_of(math.sem(), net@),
            edges_of(net@),
            best_claims(math.sem(), net@),
        ),
{
    broadcast use group_views;

    let bases = bus_bases(math, net);
    let mut w = Writer {
        warnings: Vec::new(),
        limit_sets: JsonMap::new(),
        used_types: Vec::new(),
        responses: JsonMap::new(),
        profiles: JsonMap::new(),
        grounded: Vec::new(),
        bases,
    };
    assert(w@.warnings =~= seq![]);
    assert(w@.used_types =~= seq![]);
    assert(w@.grounded =~= seq![]);
    assert(w@ == fresh_writer(bases_of(math.sem(), net@)));
    let root = document(&mut w, math, net);
    (object(root), w.warnings)
}

/// What a machine holds can be numbered.
proof fn lemma_countable(net: DistNetwork)
    ensures
        countable(net@),
{
    let v = net@;
    assert forall|i: int| 0 <= i < v.lines.len() implies (
    #[trigger] v.lines[i]).terminal_map_from.len() <= u64::MAX by {
        assert(v.lines[i] == net.lines@[i]@);
        assert(net.lines@[i].terminal_map_from.len() <= usize::MAX);
    }
    assert forall|i: int| 0 <= i < v.transformers.len() implies (
    #[trigger] v.transformers[i]).windings.len() <= u64::MAX by {
        assert(v.transformers[i] == net.transformers@[i]@);
        assert(net.transformers@[i].windings.len() <= usize::MAX);
    }
}

/// Writes `net` as an MG-RAVENS document. Every field the schema cannot carry is
/// reported in the warnings.
///
/// What is read of the text is what is read of the document, and a network is
/// read of it, where nothing that the network takes over from a document nests
/// deeper than what can be read or is of the balanced profile. What is written
/// of the network that is read is the same text, letter for letter, where the
/// network can be written again.
pub fn write_ravens_json<C: Calc>(math: &C, net: &DistNetwork) -> (r: Conversion)
    ensures
        r@ == ravens_json(math.sem(), net@),
        shallow(net@) ==> ravens_text(math.sem(), r@.text) == match network_of(
            math.sem(),
            JsonV::Obj(ravens_document(math.sem(), net@).1),
        ) {
            Ok(back) => Ok(DistNetworkV { source: Some(r@.text), ..back }),
            Err(e) => Err(e),
        },
        shallow(net@) && unbalanced(net@) ==> ravens_text(math.sem(), r@.text) is Ok,
        shallow(net@) && writes_again(math.sem(), net@) ==> (ravens_text(
            math.sem(),
            r@.text,
        ) matches Ok(back) ==> ravens_json(math.sem(), back).text == r@.text),
{
    broadcast use group_views;

    let (doc, mut warnings) = ravens_value(math, net);
    say_losses(math, &mut warnings, net);
    let text = cat2(pretty_json(&doc).as_str(), "\n");
    proof {
        lemma_countable(*net);
        if shallow(net@) {
            lemma_document_is_plain(math.sem(), net@);
        }
        if unbalanced(net@) {
            lemma_written_is_accepted(math.sem(), net@);
        }
        if writes_again(math.sem(), net@) {
            lemma_second_write_is_the_first(math.sem(), net@, Some(text@));
        }
    }
    let r = Conversion { text, sidecars: Vec::new(), warnings, diagnostics: Vec::new() };
    assert(r@.sidecars =~= seq![]);
    assert(r@.diagnostics =~= seq![]);
    r
}

} // verus!
