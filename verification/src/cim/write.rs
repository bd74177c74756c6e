//! A network as one distribution CIM document.
//!
//! An element's imported identifier (its `cim_mrid` extra) passes through;
//! every other one derives from the element's role and name. The grounded
//! neutral is implied by the wye phases, so it is not written as a phase.

use vstd::prelude::*;

use crate::cim::losses::{losses_of, say_losses};
use crate::cim::store::{CimObjectV, PropV};
use crate::json::{get_of, str_of, Entries};
use crate::math::{
    abs, abs_of, eq, lt, minus, num_eq, num_lt, over, plus, root3, times, Bits, Calc, Sem, HUNDRED,
    ONE, PICO, ZERO,
};
use crate::model::{
    entry, entry_of, Configuration, Conversion, ConversionV, DistBusV, DistLineCode, DistLineCodeV,
    DistLineV, DistLoadV, DistLoadVoltageModel, DistNetwork, DistNetworkV, DistShuntV, DistSwitchV,
    DistTransformer, DistTransformerV, Extras, Mat, MatV, VoltageSourceV, WindingConn, WindingV,
};
use crate::mrid::{uuid, uuid_of};
use crate::numeral::{dec_of, dec_usize};
use crate::text::{
    cat2, cat3, cat4, cat5, cat6, cat7, empty, group_views, join, join_of, same, same_list,
    to_chars, views,
};

verus! {

// ---- identifiers -----------------------------------------------------------

/// The identifier derived from an object's role and name.
pub open spec fn det_mrid_of(kind: Seq<char>, name: Seq<char>) -> Seq<char> {
    uuid_of("powerio-distcim:"@ + kind + ":"@ + name)
}

pub fn det_mrid(kind: &str, name: &str) -> (r: String)
    ensures
        r@ == det_mrid_of(kind@, name@),
{
    let tag = cat4("powerio-distcim:", kind, ":", name);
    uuid(tag.as_str())
}

/// The imported identifier where there is one, else the derived one.
pub open spec fn mrid_of(extras: Entries, kind: Seq<char>, name: Seq<char>) -> Seq<char> {
    match get_of(extras, "cim_mrid"@) {
        Some(v) => match str_of(v) {
            Some(s) => s,
            None => det_mrid_of(kind, name),
        },
        None => det_mrid_of(kind, name),
    }
}

pub fn mrid(extras: &Extras, kind: &str, name: &str) -> (r: String)
    ensures
        r@ == mrid_of(extras@, kind@, name@),
{
    match extras.get("cim_mrid") {
        Some(v) => match v.as_str() {
            Some(s) => s.clone(),
            None => det_mrid(kind, name),
        },
        None => det_mrid(kind, name),
    }
}

/// The identifier of the node that stands for a bus.
pub open spec fn node_of(net: DistNetworkV, bus: Seq<char>) -> Seq<char> {
    match net.bus(bus) {
        Some(b) => mrid_of(b.extras, "node"@, b.id),
        None => det_mrid_of("node"@, bus),
    }
}

fn node(net: &DistNetwork, bus: &str) -> (r: String)
    ensures
        r@ == node_of(net@, bus@),
{
    match net.bus(bus) {
        Some(b) => mrid(&b.extras, "node", b.id.as_str()),
        None => det_mrid("node", bus),
    }
}

// ---- phases ----------------------------------------------------------------

/// The phase a terminal carries.
pub open spec fn phase_letter_of(terminal: Seq<char>) -> Option<Seq<char>> {
    if terminal == "1"@ {
        Some("A"@)
    } else if terminal == "2"@ {
        Some("B"@)
    } else if terminal == "3"@ {
        Some("C"@)
    } else if terminal == "4"@ {
        Some("N"@)
    } else {
        None
    }
}

pub fn phase_letter(terminal: &str) -> (r: Option<&'static str>)
    ensures
        match r {
            Some(s) => phase_letter_of(terminal@) == Some(s@),
            None => phase_letter_of(terminal@) is None,
        },
{
    if same(terminal, "1") {
        Some("A")
    } else if same(terminal, "2") {
        Some("B")
    } else if same(terminal, "3") {
        Some("C")
    } else if same(terminal, "4") {
        Some("N")
    } else {
        None
    }
}

/// The phases of the first `n` terminals, the neutral left out.
pub open spec fn phases_n(map: Seq<Seq<char>>, n: nat) -> Seq<Seq<char>>
    decreases n,
{
    if n == 0 {
        seq![]
    } else {
        let before = phases_n(map, (n - 1) as nat);
        let t = map[n - 1];
        match phase_letter_of(t) {
            Some(p) if t != "4"@ => before.push(p),
            _ => before,
        }
    }
}

pub fn phases_of(map: &Vec<String>) -> (r: Vec<String>)
    ensures
        views(r@) == phases_n(views(map@), map@.len()),
{
    broadcast use group_views;

    let mut r: Vec<String> = Vec::new();
    let mut i: usize = 0;
    while i < map.len()
        invariant
            i <= map.len(),
            views(r@) == phases_n(views(map@), i as nat),
        decreases map.len() - i,
    {
        assert(views(map@)[i as int] == map@[i as int]@);
        if !same(map[i].as_str(), "4") {
            if let Some(p) = phase_letter(map[i].as_str()) {
                r.push(p.to_owned());
            }
        }
        i = i + 1;
    }
    r
}

/// The phases of the first `n` terminals, run together.
pub open spec fn code_n(map: Seq<Seq<char>>, n: nat) -> Seq<char>
    decreases n,
{
    if n == 0 {
        seq![]
    } else {
        match phase_letter_of(map[n - 1]) {
            Some(p) => code_n(map, (n - 1) as nat) + p,
            None => code_n(map, (n - 1) as nat),
        }
    }
}

/// The `PhaseCode` of a terminal map; `ABC` where it names no phase.
pub open spec fn phase_code_of(map: Seq<Seq<char>>) -> Seq<char> {
    let code = code_n(map, map.len());
    if code.len() == 0 {
        "ABC"@
    } else {
        code
    }
}

pub fn phase_code(map: &Vec<String>) -> (r: String)
    ensures
        r@ == phase_code_of(views(map@)),
{
    let mut code = String::new();
    let mut i: usize = 0;
    while i < map.len()
        invariant
            i <= map.len(),
            code@ == code_n(views(map@), i as nat),
        decreases map.len() - i,
    {
        assert(views(map@)[i as int] == map@[i as int]@);
        if let Some(p) = phase_letter(map[i].as_str()) {
            code.append(p);
        }
        i = i + 1;
    }
    if empty(code.as_str()) {
        "ABC".to_owned()
    } else {
        code
    }
}

// ---- the document ----------------------------------------------------------

/// A character as XML text.
pub open spec fn esc_char(c: char) -> Seq<char> {
    if c == '&' {
        "&amp;"@
    } else if c == '<' {
        "&lt;"@
    } else if c == '>' {
        "&gt;"@
    } else {
        seq![c]
    }
}

pub open spec fn esc_n(s: Seq<char>, n: nat) -> Seq<char>
    decreases n,
{
    if n == 0 {
        seq![]
    } else {
        esc_n(s, (n - 1) as nat) + esc_char(s[n - 1])
    }
}

/// A string as XML text.
pub open spec fn esc_of(s: Seq<char>) -> Seq<char> {
    esc_n(s, s.len())
}

pub fn esc(s: &str) -> (r: String)
    ensures
        r@ == esc_of(s@),
{
    let v = to_chars(s);
    let mut r = String::new();
    let mut i: usize = 0;
    while i < v.len()
        invariant
            i <= v.len(),
            v@ == s@,
            r@ == esc_n(s@, i as nat),
        decreases v.len() - i,
    {
        let c = v[i];
        if c == '&' {
            r.append("&amp;");
        } else if c == '<' {
            r.append("&lt;");
        } else if c == '>' {
            r.append("&gt;");
        } else {
            r.push(c);
            assert(r@ =~= esc_n(s@, i as nat) + seq![c]);
        }
        i = i + 1;
    }
    r
}

/// A document under construction: its text, the warnings, and what the text
/// says: the objects written so far and the one that is open.
pub struct DocV {
    pub body: Seq<char>,
    pub warnings: Seq<Seq<char>>,
    pub objects: Seq<CimObjectV>,
    pub object: Option<CimObjectV>,
}

impl DocV {
    pub open spec fn add(self, s: Seq<char>) -> DocV {
        DocV { body: self.body + s, ..self }
    }

    #[verifier::opaque]
    pub open spec fn warn(self, s: Seq<char>) -> DocV {
        DocV { warnings: self.warnings.push(s), ..self }
    }

    /// The open object with one more property.
    pub open spec fn with_prop(self, key: Seq<char>, value: PropV) -> Option<CimObjectV> {
        match self.object {
            Some(o) => Some(CimObjectV { props: o.props.push((key, value)), ..o }),
            None => None,
        }
    }

    #[verifier::opaque]
    pub open spec fn open(self, class: Seq<char>, id: Seq<char>) -> DocV {
        DocV {
            object: Some(CimObjectV { class, id, props: seq![] }),
            ..self.add("  <cim:"@ + class + " rdf:ID=\"_"@ + id + "\">\n"@)
        }
    }

    #[verifier::opaque]
    pub open spec fn close(self, class: Seq<char>) -> DocV {
        DocV {
            objects: match self.object {
                Some(o) => self.objects.push(o),
                None => self.objects,
            },
            object: None,
            ..self.add("  </cim:"@ + class + ">\n"@)
        }
    }

    #[verifier::opaque]
    pub open spec fn text(self, prop: Seq<char>, value: Seq<char>) -> DocV {
        DocV {
            object: self.with_prop(prop, PropV::Text(value)),
            ..self.add("    <cim:"@ + prop + ">"@ + esc_of(value) + "</cim:"@ + prop + ">\n"@)
        }
    }

    #[verifier::opaque]
    pub open spec fn reference(self, prop: Seq<char>, target: Seq<char>) -> DocV {
        DocV {
            object: self.with_prop(prop, PropV::Ref(target)),
            ..self.add("    <cim:"@ + prop + " rdf:resource=\"#_"@ + target + "\"/>\n"@)
        }
    }

    #[verifier::opaque]
    pub open spec fn enumeration(self, prop: Seq<char>, value: Seq<char>) -> DocV {
        DocV {
            object: self.with_prop(prop, PropV::Ref("http://iec.ch/TC57/CIM100#"@ + value)),
            ..self.add(
                "    <cim:"@ + prop + " rdf:resource=\"http://iec.ch/TC57/CIM100#"@ + value
                    + "\"/>\n"@,
            )
        }
    }

    /// The head of an object that has an identifier and a name.
    #[verifier::opaque]
    pub open spec fn named(self, class: Seq<char>, id: Seq<char>, name: Seq<char>) -> DocV {
        self.open(class, id).text("IdentifiedObject.mRID"@, id).text(
            "IdentifiedObject.name"@,
            name,
        )
    }

    /// A terminal that ties an equipment to a node.
    #[verifier::opaque]
    pub open spec fn terminal(
        self,
        owner: Seq<char>,
        seq: nat,
        node: Seq<char>,
        code: Seq<char>,
    ) -> DocV {
        self.open("Terminal"@, terminal_id(owner, seq)).reference(
            "Terminal.ConductingEquipment"@,
            owner,
        ).reference("Terminal.ConnectivityNode"@, node).text(
            "ACDCTerminal.sequenceNumber"@,
            dec_of(seq),
        ).enumeration("Terminal.phases"@, "PhaseCode."@ + code).close("Terminal"@)
    }

    /// The warning that names the extras a document has no place for.
    #[verifier::opaque]
    pub open spec fn warn_extras(self, kind: Seq<char>, name: Seq<char>, extras: Entries) -> DocV {
        let keys = unwritten_keys(extras, extras.len());
        if keys.len() == 0 {
            self
        } else {
            self.warn(
                kind + " "@ + name + ": extras ["@ + join_of(keys, ", "@)
                    + "] have no distribution CIM mapping"@,
            )
        }
    }
}

/// The identifier of an equipment's terminal.
pub open spec fn terminal_id(owner: Seq<char>, seq: nat) -> Seq<char> {
    det_mrid_of("terminal"@, owner + ":"@ + dec_of(seq))
}

/// The keys of the first `n` extras, the imported identifier left out.
pub open spec fn unwritten_keys(extras: Entries, n: nat) -> Seq<Seq<char>>
    decreases n,
{
    if n == 0 {
        seq![]
    } else if extras[n - 1].0 == "cim_mrid"@ {
        unwritten_keys(extras, (n - 1) as nat)
    } else {
        unwritten_keys(extras, (n - 1) as nat).push(extras[n - 1].0)
    }
}

pub struct Doc {
    pub body: String,
    pub warnings: Vec<String>,
    pub objects: Ghost<Seq<CimObjectV>>,
    pub object: Ghost<Option<CimObjectV>>,
}

impl View for Doc {
    type V = DocV;

    open spec fn view(&self) -> DocV {
        DocV {
            body: self.body@,
            warnings: views(self.warnings@),
            objects: self.objects@,
            object: self.object@,
        }
    }
}

impl Doc {
    fn add_text(&mut self, s: String)
        ensures
            final(self)@ == old(self)@.add(s@),
    {
        self.body.append(s.as_str());
    }

    fn warn(&mut self, s: String)
        ensures
            final(self)@ == old(self)@.warn(s@),
    {
        reveal(DocV::warn);
        broadcast use group_views;

        self.warnings.push(s);
    }

    fn open(&mut self, class: &str, id: &str)
        ensures
            final(self)@ == old(self)@.open(class@, id@),
    {
        reveal(DocV::open);
        self.add_text(cat5("  <cim:", class, " rdf:ID=\"_", id, "\">\n"));
        self.object = Ghost(Some(CimObjectV { class: class@, id: id@, props: seq![] }));
    }

    fn close(&mut self, class: &str)
        ensures
            final(self)@ == old(self)@.close(class@),
    {
        reveal(DocV::close);
        self.add_text(cat3("  </cim:", class, ">\n"));
        self.objects = Ghost(
            match self.object@ {
                Some(o) => self.objects@.push(o),
                None => self.objects@,
            },
        );
        self.object = Ghost(None);
    }

    fn text(&mut self, prop: &str, value: &str)
        ensures
            final(self)@ == old(self)@.text(prop@, value@),
    {
        reveal(DocV::text);
        let v = esc(value);
        self.add_text(cat7("    <cim:", prop, ">", v.as_str(), "</cim:", prop, ">\n"));
        self.object = Ghost(self@.with_prop(prop@, PropV::Text(value@)));
    }

    fn reference(&mut self, prop: &str, target: &str)
        ensures
            final(self)@ == old(self)@.reference(prop@, target@),
    {
        reveal(DocV::reference);
        self.add_text(cat5("    <cim:", prop, " rdf:resource=\"#_", target, "\"/>\n"));
        self.object = Ghost(self@.with_prop(prop@, PropV::Ref(target@)));
    }

    fn enumeration(&mut self, prop: &str, value: &str)
        ensures
            final(self)@ == old(self)@.enumeration(prop@, value@),
    {
        reveal(DocV::enumeration);
        self.add_text(
            cat5(
                "    <cim:",
                prop,
                " rdf:resource=\"http://iec.ch/TC57/CIM100#",
                value,
                "\"/>\n",
            ),
        );
        self.object = Ghost(
            self@.with_prop(prop@, PropV::Ref("http://iec.ch/TC57/CIM100#"@ + value@)),
        );
    }

    fn named(&mut self, class: &str, id: &str, name: &str)
        ensures
            final(self)@ == old(self)@.named(class@, id@, name@),
    {
        reveal(DocV::named);
        self.open(class, id);
        self.text("IdentifiedObject.mRID", id);
        self.text("IdentifiedObject.name", name);
    }

    fn terminal(&mut self, owner: &str, seq: usize, node: &str, code: &str)
        ensures
            final(self)@ == old(self)@.terminal(owner@, seq as nat, node@, code@),
    {
        reveal(DocV::terminal);
        let n = dec_usize(seq);
        let tag = cat3(owner, ":", n.as_str());
        let id = det_mrid("terminal", tag.as_str());
        self.open("Terminal", id.as_str());
        self.reference("Terminal.ConductingEquipment", owner);
        self.reference("Terminal.ConnectivityNode", node);
        self.text("ACDCTerminal.sequenceNumber", n.as_str());
        let value = cat2("PhaseCode.", code);
        self.enumeration("Terminal.phases", value.as_str());
        self.close("Terminal");
    }

    fn warn_extras(&mut self, kind: &str, name: &str, extras: &Extras)
        ensures
            final(self)@ == old(self)@.warn_extras(kind@, name@, extras@),
    {
        reveal(DocV::warn_extras);
        broadcast use group_views;

        let mut keys: Vec<String> = Vec::new();
        let mut i: usize = 0;
        while i < extras.items.len()
            invariant
                i <= extras.items.len(),
                views(keys@) == unwritten_keys(extras@, i as nat),
            decreases extras.items.len() - i,
        {
            assert(extras@[i as int].0 == extras.items@[i as int].0@);
            if !same(extras.items[i].0.as_str(), "cim_mrid") {
                keys.push(extras.items[i].0.clone());
            }
            i = i + 1;
        }
        if keys.len() > 0 {
            let list = join(&keys, ", ");
            self.warn(
                cat6(
                    kind,
                    " ",
                    name,
                    ": extras [",
                    list.as_str(),
                    "] have no distribution CIM mapping",
                ),
            );
        }
    }
}

// ---- buses -----------------------------------------------------------------

pub open spec fn bus_doc(d: DocV, b: DistBusV) -> DocV {
    d.named("ConnectivityNode"@, mrid_of(b.extras, "node"@, b.id), b.id).close(
        "ConnectivityNode"@,
    ).warn_extras("bus"@, b.id, b.extras)
}

/// The document with the first `n` buses.
pub open spec fn buses_doc(d: DocV, net: DistNetworkV, n: nat) -> DocV
    decreases n,
{
    if n == 0 {
        d
    } else {
        bus_doc(buses_doc(d, net, (n - 1) as nat), net.buses[n - 1])
    }
}

fn write_buses(doc: &mut Doc, net: &DistNetwork)
    ensures
        final(doc)@ == buses_doc(old(doc)@, net@, net@.buses.len()),
{
    let mut i: usize = 0;
    while i < net.buses.len()
        invariant
            i <= net.buses.len(),
            doc@ == buses_doc(old(doc)@, net@, i as nat),
        decreases net.buses.len() - i,
    {
        let bus = &net.buses[i];
        assert(net@.buses[i as int] == bus@);
        let id = mrid(&bus.extras, "node", bus.id.as_str());
        doc.named("ConnectivityNode", id.as_str(), bus.id.as_str());
        doc.close("ConnectivityNode");
        doc.warn_extras("bus", bus.id.as_str(), &bus.extras);
        i = i + 1;
    }
}

// ---- line codes ------------------------------------------------------------

/// The series matrices hold a value for every pair of the lower triangle.
pub open spec fn lower_triangle(lc: DistLineCodeV) -> bool {
    &&& lc.n_conductors <= lc.r_series.len()
    &&& lc.n_conductors <= lc.x_series.len()
    &&& forall|i: int| 0 <= i < lc.n_conductors ==> i < (#[trigger] lc.r_series[i]).len()
    &&& forall|i: int| 0 <= i < lc.n_conductors ==> i < (#[trigger] lc.x_series[i]).len()
}

/// One entry of the lower triangle, rows and columns counted from one.
pub open spec fn cell_doc(
    m: Sem,
    d: DocV,
    lc: DistLineCodeV,
    id: Seq<char>,
    i: nat,
    j: nat,
) -> DocV {
    d.open(
        "PhaseImpedanceData"@,
        det_mrid_of("pid"@, lc.name + ":"@ + dec_of(i) + ":"@ + dec_of(j)),
    ).reference("PhaseImpedanceData.PerLengthPhaseImpedance"@, id).text(
        "PhaseImpedanceData.row"@,
        dec_of(i + 1),
    ).text("PhaseImpedanceData.column"@, dec_of(j + 1)).text(
        "PhaseImpedanceData.r"@,
        (m.show)(lc.r_series[i as int][j as int]),
    ).text("PhaseImpedanceData.x"@, (m.show)(lc.x_series[i as int][j as int])).text(
        "PhaseImpedanceData.b"@,
        (m.show)(
            m.plus(
                entry_of(lc.b_from, i as int, j as int),
                entry_of(lc.b_to, i as int, j as int),
            ),
        ),
    ).close("PhaseImpedanceData"@)
}

/// The first `j` entries of row `i`.
pub open spec fn row_doc(m: Sem, d: DocV, lc: DistLineCodeV, id: Seq<char>, i: nat, j: nat) -> DocV
    decreases j,
{
    if j == 0 {
        d
    } else {
        cell_doc(m, row_doc(m, d, lc, id, i, (j - 1) as nat), lc, id, i, (j - 1) as nat)
    }
}

/// The first `i` rows of the lower triangle.
pub open spec fn triangle_doc(m: Sem, d: DocV, lc: DistLineCodeV, id: Seq<char>, i: nat) -> DocV
    decreases i,
{
    if i == 0 {
        d
    } else {
        row_doc(m, triangle_doc(m, d, lc, id, (i - 1) as nat), lc, id, (i - 1) as nat, i)
    }
}

/// Some entry is not zero.
pub open spec fn any_nonzero(a: MatV) -> bool {
    exists|i: int, j: int|
        0 <= i < a.len() && 0 <= j < a[i].len() && !num_eq(#[trigger] a[i][j], ZERO)
}

/// Some entry off the diagonal is not zero.
pub open spec fn any_off_diagonal(a: MatV) -> bool {
    exists|i: int, j: int|
        0 <= i < a.len() && 0 <= j < a[i].len() && i != j && !num_eq(#[trigger] a[i][j], ZERO)
}

pub open spec fn linecode_doc(m: Sem, d: DocV, lc: DistLineCodeV) -> DocV {
    let id = mrid_of(lc.extras, "plpi"@, lc.name);
    let head = d.named("PerLengthPhaseImpedance"@, id, lc.name).text(
        "PerLengthPhaseImpedance.conductorCount"@,
        dec_of(lc.n_conductors as nat),
    ).close("PerLengthPhaseImpedance"@);
    let data = triangle_doc(m, head, lc, id, lc.n_conductors as nat);
    let shunted = if any_nonzero(lc.g_from) || any_nonzero(lc.g_to) {
        data.warn(
            "linecode "@ + lc.name
                + ": shunt conductance has no PhaseImpedanceData slot; only b is written"@,
        )
    } else {
        data
    };
    let rated = if lc.i_max is Some || lc.s_max is Some {
        shunted.warn(
            "linecode "@ + lc.name
                + ": ampacity/apparent-power ratings are not written (no OperationalLimit mapping yet)"@,
        )
    } else {
        shunted
    };
    rated.warn_extras("linecode"@, lc.name, lc.extras)
}

pub open spec fn linecodes_doc(m: Sem, d: DocV, net: DistNetworkV, n: nat) -> DocV
    decreases n,
{
    if n == 0 {
        d
    } else {
        linecode_doc(m, linecodes_doc(m, d, net, (n - 1) as nat), net.linecodes[n - 1])
    }
}

pub fn has_nonzero(a: &Mat, skip_diagonal: bool) -> (r: bool)
    ensures
        r == if skip_diagonal {
            any_off_diagonal(views(a@))
        } else {
            any_nonzero(views(a@))
        },
{
    let mut i: usize = 0;
    while i < a.len()
        invariant
            i <= a.len(),
            forall|p: int, q: int|
                0 <= p < i && 0 <= q < views(a@)[p].len() && !(skip_diagonal && p == q)
                    ==> num_eq(#[trigger] views(a@)[p][q], ZERO),
        decreases a.len() - i,
    {
        let mut j: usize = 0;
        while j < a[i].len()
            invariant
                i < a.len(),
                j <= a@[i as int].len(),
                views(a@)[i as int] == a@[i as int]@,
                forall|q: int|
                    0 <= q < j && !(skip_diagonal && i == q) ==> num_eq(
                        #[trigger] views(a@)[i as int][q],
                        ZERO,
                    ),
            decreases a@[i as int].len() - j,
        {
            if !(skip_diagonal && i == j) && !eq(a[i][j], ZERO) {
                assert(!num_eq(views(a@)[i as int][j as int], ZERO));
                return true;
            }
            j = j + 1;
        }
        i = i + 1;
    }
    false
}

fn write_cell<C: Calc>(math: &C, doc: &mut Doc, lc: &DistLineCode, id: &str, i: usize, j: usize)
    requires
        lower_triangle(lc@),
        j <= i < lc.n_conductors,
    ensures
        final(doc)@ == cell_doc(math.sem(), old(doc)@, lc@, id@, i as nat, j as nat),
{
    assert(lc@.r_series[i as int] == lc.r_series@[i as int]@);
    assert(lc@.x_series[i as int] == lc.x_series@[i as int]@);
    let si = dec_usize(i);
    let sj = dec_usize(j);
    let tag = cat5(lc.name.as_str(), ":", si.as_str(), ":", sj.as_str());
    let did = det_mrid("pid", tag.as_str());
    doc.open("PhaseImpedanceData", did.as_str());
    doc.reference("PhaseImpedanceData.PerLengthPhaseImpedance", id);
    doc.text("PhaseImpedanceData.row", dec_usize(i + 1).as_str());
    doc.text("PhaseImpedanceData.column", dec_usize(j + 1).as_str());
    doc.text("PhaseImpedanceData.r", math.show(lc.r_series[i][j]).as_str());
    doc.text("PhaseImpedanceData.x", math.show(lc.x_series[i][j]).as_str());
    let b = plus(math, entry(&lc.b_from, i, j), entry(&lc.b_to, i, j));
    doc.text("PhaseImpedanceData.b", math.show(b).as_str());
    doc.close("PhaseImpedanceData");
}

fn write_linecode<C: Calc>(math: &C, doc: &mut Doc, lc: &DistLineCode)
    requires
        lower_triangle(lc@),
    ensures
        final(doc)@ == linecode_doc(math.sem(), old(doc)@, lc@),
{
    let id = mrid(&lc.extras, "plpi", lc.name.as_str());
    doc.named("PerLengthPhaseImpedance", id.as_str(), lc.name.as_str());
    doc.text("PerLengthPhaseImpedance.conductorCount", dec_usize(lc.n_conductors).as_str());
    doc.close("PerLengthPhaseImpedance");
    let ghost head = doc@;
    let mut i: usize = 0;
    while i < lc.n_conductors
        invariant
            i <= lc.n_conductors,
            lower_triangle(lc@),
            doc@ == triangle_doc(math.sem(), head, lc@, id@, i as nat),
        decreases lc.n_conductors - i,
    {
        let ghost rows = doc@;
        let mut j: usize = 0;
        while j <= i
            invariant
                j <= i + 1,
                i < lc.n_conductors,
                lower_triangle(lc@),
                doc@ == row_doc(math.sem(), rows, lc@, id@, i as nat, j as nat),
            decreases i + 1 - j,
        {
            write_cell(math, doc, lc, id.as_str(), i, j);
            j = j + 1;
        }
        i = i + 1;
    }
    if has_nonzero(&lc.g_from, false) || has_nonzero(&lc.g_to, false) {
        doc.warn(
            cat3(
                "linecode ",
                lc.name.as_str(),
                ": shunt conductance has no PhaseImpedanceData slot; only b is written",
            ),
        );
    }
    if lc.i_max.is_some() || lc.s_max.is_some() {
        doc.warn(
            cat3(
                "linecode ",
                lc.name.as_str(),
                ": ampacity/apparent-power ratings are not written (no OperationalLimit mapping yet)",
            ),
        );
    }
    doc.warn_extras("linecode", lc.name.as_str(), &lc.extras);
}

fn write_linecodes<C: Calc>(math: &C, doc: &mut Doc, net: &DistNetwork)
    requires
        forall|k: int|
            0 <= k < net@.linecodes.len() ==> lower_triangle(#[trigger] net@.linecodes[k]),
    ensures
        final(doc)@ == linecodes_doc(math.sem(), old(doc)@, net@, net@.linecodes.len()),
{
    let mut i: usize = 0;
    while i < net.linecodes.len()
        invariant
            i <= net.linecodes.len(),
            forall|k: int|
                0 <= k < net@.linecodes.len() ==> lower_triangle(#[trigger] net@.linecodes[k]),
            doc@ == linecodes_doc(math.sem(), old(doc)@, net@, i as nat),
        decreases net.linecodes.len() - i,
    {
        assert(net@.linecodes[i as int] == net.linecodes@[i as int]@);
        write_linecode(math, doc, &net.linecodes[i]);
        i = i + 1;
    }
}

// ---- lines -----------------------------------------------------------------

pub open spec fn line_phase_doc(
    d: DocV,
    name: Seq<char>,
    id: Seq<char>,
    phase: Seq<char>,
    n: nat,
) -> DocV {
    d.named(
        "ACLineSegmentPhase"@,
        det_mrid_of("linephase"@, name + ":"@ + phase),
        name + "_"@ + phase,
    ).reference("ACLineSegmentPhase.ACLineSegment"@, id).enumeration(
        "ACLineSegmentPhase.phase"@,
        "SinglePhaseKind."@ + phase,
    ).text("ACLineSegmentPhase.sequenceNumber"@, dec_of(n + 1)).close("ACLineSegmentPhase"@)
}

/// The first `n` phases of a line.
pub open spec fn line_phases_doc(
    d: DocV,
    name: Seq<char>,
    id: Seq<char>,
    phases: Seq<Seq<char>>,
    n: nat,
) -> DocV
    decreases n,
{
    if n == 0 {
        d
    } else {
        line_phase_doc(
            line_phases_doc(d, name, id, phases, (n - 1) as nat),
            name,
            id,
            phases[n - 1],
            (n - 1) as nat,
        )
    }
}

pub open spec fn line_doc(m: Sem, d: DocV, net: DistNetworkV, line: DistLineV) -> DocV {
    let id = mrid_of(line.extras, "line"@, line.name);
    let head = d.named("ACLineSegment"@, id, line.name).text(
        "Conductor.length"@,
        (m.show)(line.length),
    );
    let coded = match net.linecode(line.linecode) {
        Some(lc) => head.reference(
            "ACLineSegment.PerLengthImpedance"@,
            mrid_of(lc.extras, "plpi"@, lc.name),
        ),
        None => head.warn(
            "line "@ + line.name + ": linecode `"@ + line.linecode
                + "` is not defined; the segment is written without impedance"@,
        ),
    };
    let wired = coded.close("ACLineSegment"@).terminal(
        id,
        1,
        node_of(net, line.bus_from),
        phase_code_of(line.terminal_map_from),
    ).terminal(id, 2, node_of(net, line.bus_to), phase_code_of(line.terminal_map_to));
    let phases = phases_n(line.terminal_map_from, line.terminal_map_from.len());
    let phased = line_phases_doc(wired, line.name, id, phases, phases.len());
    let checked = if line.terminal_map_from != line.terminal_map_to {
        phased.warn(
            "line "@ + line.name
                + ": from/to terminal maps differ; CIM phases are written from the from side"@,
        )
    } else {
        phased
    };
    checked.warn_extras("line"@, line.name, line.extras)
}

pub open spec fn lines_doc(m: Sem, d: DocV, net: DistNetworkV, n: nat) -> DocV
    decreases n,
{
    if n == 0 {
        d
    } else {
        line_doc(m, lines_doc(m, d, net, (n - 1) as nat), net, net.lines[n - 1])
    }
}

fn write_line_phases(doc: &mut Doc, name: &str, id: &str, phases: &Vec<String>)
    ensures
        final(doc)@ == line_phases_doc(old(doc)@, name@, id@, views(phases@), phases@.len()),
{
    let mut n: usize = 0;
    while n < phases.len()
        invariant
            n <= phases.len(),
            doc@ == line_phases_doc(old(doc)@, name@, id@, views(phases@), n as nat),
        decreases phases.len() - n,
    {
        assert(views(phases@)[n as int] == phases@[n as int]@);
        let phase = phases[n].as_str();
        let pid = det_mrid("linephase", cat3(name, ":", phase).as_str());
        doc.named("ACLineSegmentPhase", pid.as_str(), cat3(name, "_", phase).as_str());
        doc.reference("ACLineSegmentPhase.ACLineSegment", id);
        doc.enumeration("ACLineSegmentPhase.phase", cat2("SinglePhaseKind.", phase).as_str());
        doc.text("ACLineSegmentPhase.sequenceNumber", dec_usize(n + 1).as_str());
        doc.close("ACLineSegmentPhase");
        n = n + 1;
    }
}

fn write_lines<C: Calc>(math: &C, doc: &mut Doc, net: &DistNetwork)
    ensures
        final(doc)@ == lines_doc(math.sem(), old(doc)@, net@, net@.lines.len()),
{
    let mut i: usize = 0;
    while i < net.lines.len()
        invariant
            i <= net.lines.len(),
            doc@ == lines_doc(math.sem(), old(doc)@, net@, i as nat),
        decreases net.lines.len() - i,
    {
        let line = &net.lines[i];
        assert(net@.lines[i as int] == line@);
        let name = line.name.as_str();
        let id = mrid(&line.extras, "line", name);
        doc.named("ACLineSegment", id.as_str(), name);
        doc.text("Conductor.length", math.show(line.length).as_str());
        match net.linecode(line.linecode.as_str()) {
            Some(lc) => {
                let code = mrid(&lc.extras, "plpi", lc.name.as_str());
                doc.reference("ACLineSegment.PerLengthImpedance", code.as_str());
            },
            None => {
                doc.warn(
                    cat5(
                        "line ",
                        name,
                        ": linecode `",
                        line.linecode.as_str(),
                        "` is not defined; the segment is written without impedance",
                    ),
                );
            },
        }
        doc.close("ACLineSegment");
        let from = node(net, line.bus_from.as_str());
        let to = node(net, line.bus_to.as_str());
        let code_from = phase_code(&line.terminal_map_from);
        let code_to = phase_code(&line.terminal_map_to);
        doc.terminal(id.as_str(), 1, from.as_str(), code_from.as_str());
        doc.terminal(id.as_str(), 2, to.as_str(), code_to.as_str());
        let phases = phases_of(&line.terminal_map_from);
        write_line_phases(doc, name, id.as_str(), &phases);
        if !same_list(&line.terminal_map_from, &line.terminal_map_to) {
            doc.warn(
                cat3(
                    "line ",
                    name,
                    ": from/to terminal maps differ; CIM phases are written from the from side",
                ),
            );
        }
        doc.warn_extras("line", name, &line.extras);
        i = i + 1;
    }
}

// ---- loads -----------------------------------------------------------------

/// The value at `n`, or zero past the end.
pub open spec fn value_or_zero(v: Seq<Bits>, n: int) -> Bits {
    if 0 <= n < v.len() {
        v[n]
    } else {
        ZERO
    }
}

fn value_at(v: &Vec<Bits>, n: usize) -> (r: Bits)
    ensures
        r == value_or_zero(v@, n as int),
{
    if n < v.len() {
        v[n]
    } else {
        ZERO
    }
}

pub open spec fn load_phase_doc(
    m: Sem,
    d: DocV,
    load: DistLoadV,
    id: Seq<char>,
    phase: Seq<char>,
    n: nat,
) -> DocV {
    d.named(
        "EnergyConsumerPhase"@,
        det_mrid_of("loadphase"@, load.name + ":"@ + phase),
        load.name + "_"@ + phase,
    ).reference("EnergyConsumerPhase.EnergyConsumer"@, id).enumeration(
        "EnergyConsumerPhase.phase"@,
        "SinglePhaseKind."@ + phase,
    ).text("EnergyConsumerPhase.p"@, (m.show)(value_or_zero(load.p_nom, n as int))).text(
        "EnergyConsumerPhase.q"@,
        (m.show)(value_or_zero(load.q_nom, n as int)),
    ).close("EnergyConsumerPhase"@)
}

/// The first `n` phases of a load.
pub open spec fn load_phases_doc(
    m: Sem,
    d: DocV,
    load: DistLoadV,
    id: Seq<char>,
    phases: Seq<Seq<char>>,
    n: nat,
) -> DocV
    decreases n,
{
    if n == 0 {
        d
    } else {
        load_phase_doc(
            m,
            load_phases_doc(m, d, load, id, phases, (n - 1) as nat),
            load,
            id,
            phases[n - 1],
            (n - 1) as nat,
        )
    }
}

/// How CIM names a configuration.
pub open spec fn connection_of(c: Configuration) -> Seq<char> {
    match c {
        Configuration::Delta => "D"@,
        Configuration::SinglePhase => "I"@,
        Configuration::Wye => "Y"@,
    }
}

pub open spec fn load_doc(m: Sem, d: DocV, net: DistNetworkV, load: DistLoadV) -> DocV {
    let id = mrid_of(load.extras, "load"@, load.name);
    let phases = phases_n(load.terminal_map, load.terminal_map.len());
    let wired = d.named("EnergyConsumer"@, id, load.name).enumeration(
        "EnergyConsumer.phaseConnection"@,
        "PhaseShuntConnectionKind."@ + connection_of(load.configuration),
    ).close("EnergyConsumer"@).terminal(
        id,
        1,
        node_of(net, load.bus),
        phase_code_of(load.terminal_map),
    );
    let phased = load_phases_doc(m, wired, load, id, phases, phases.len());
    let modelled = if load.voltage_model is ConstantPower {
        phased
    } else {
        phased.warn(
            "load "@ + load.name
                + ": voltage-dependence model is not written (no LoadResponseCharacteristic mapping yet)"@,
        )
    };
    modelled.warn_extras("load"@, load.name, load.extras)
}

pub open spec fn loads_doc(m: Sem, d: DocV, net: DistNetworkV, n: nat) -> DocV
    decreases n,
{
    if n == 0 {
        d
    } else {
        load_doc(m, loads_doc(m, d, net, (n - 1) as nat), net, net.loads[n - 1])
    }
}

fn write_loads<C: Calc>(math: &C, doc: &mut Doc, net: &DistNetwork)
    ensures
        final(doc)@ == loads_doc(math.sem(), old(doc)@, net@, net@.loads.len()),
{
    let mut i: usize = 0;
    while i < net.loads.len()
        invariant
            i <= net.loads.len(),
            doc@ == loads_doc(math.sem(), old(doc)@, net@, i as nat),
        decreases net.loads.len() - i,
    {
        let load = &net.loads[i];
        assert(net@.loads[i as int] == load@);
        let name = load.name.as_str();
        let id = mrid(&load.extras, "load", name);
        doc.named("EnergyConsumer", id.as_str(), name);
        let connection = match load.configuration {
            Configuration::Delta => "D",
            Configuration::SinglePhase => "I",
            Configuration::Wye => "Y",
        };
        doc.enumeration(
            "EnergyConsumer.phaseConnection",
            cat2("PhaseShuntConnectionKind.", connection).as_str(),
        );
        doc.close("EnergyConsumer");
        let at = node(net, load.bus.as_str());
        let code = phase_code(&load.terminal_map);
        doc.terminal(id.as_str(), 1, at.as_str(), code.as_str());
        let phases = phases_of(&load.terminal_map);
        let ghost wired = doc@;
        let mut n: usize = 0;
        while n < phases.len()
            invariant
                n <= phases.len(),
                name@ == load@.name,
                doc@ == load_phases_doc(math.sem(), wired, load@, id@, views(phases@), n as nat),
            decreases phases.len() - n,
        {
            assert(views(phases@)[n as int] == phases@[n as int]@);
            let phase = phases[n].as_str();
            let pid = det_mrid("loadphase", cat3(name, ":", phase).as_str());
            doc.named("EnergyConsumerPhase", pid.as_str(), cat3(name, "_", phase).as_str());
            doc.reference("EnergyConsumerPhase.EnergyConsumer", id.as_str());
            doc.enumeration("EnergyConsumerPhase.phase", cat2("SinglePhaseKind.", phase).as_str());
            doc.text("EnergyConsumerPhase.p", math.show(value_at(&load.p_nom, n)).as_str());
            doc.text("EnergyConsumerPhase.q", math.show(value_at(&load.q_nom, n)).as_str());
            doc.close("EnergyConsumerPhase");
            n = n + 1;
        }
        match &load.voltage_model {
            DistLoadVoltageModel::ConstantPower { v_nom: _ } => {},
            _ => {
                doc.warn(
                    cat3(
                        "load ",
                        name,
                        ": voltage-dependence model is not written (no LoadResponseCharacteristic mapping yet)",
                    ),
                );
            },
        }
        doc.warn_extras("load", name, &load.extras);
        i = i + 1;
    }
}

// ---- shunts ----------------------------------------------------------------

pub open spec fn shunt_phase_doc(
    m: Sem,
    d: DocV,
    shunt: DistShuntV,
    id: Seq<char>,
    phase: Seq<char>,
    n: nat,
) -> DocV {
    d.named(
        "ShuntCompensatorPhase"@,
        det_mrid_of("shuntphase"@, shunt.name + ":"@ + phase),
        shunt.name + "_"@ + phase,
    ).reference("ShuntCompensatorPhase.ShuntCompensator"@, id).enumeration(
        "ShuntCompensatorPhase.phase"@,
        "SinglePhaseKind."@ + phase,
    ).text(
        "ShuntCompensatorPhase.bPerSection"@,
        (m.show)(entry_of(shunt.b, n as int, n as int)),
    ).text(
        "ShuntCompensatorPhase.gPerSection"@,
        (m.show)(entry_of(shunt.g, n as int, n as int)),
    ).close("ShuntCompensatorPhase"@)
}

/// The first `n` phases of a shunt.
pub open spec fn shunt_phases_doc(
    m: Sem,
    d: DocV,
    shunt: DistShuntV,
    id: Seq<char>,
    phases: Seq<Seq<char>>,
    n: nat,
) -> DocV
    decreases n,
{
    if n == 0 {
        d
    } else {
        shunt_phase_doc(
            m,
            shunt_phases_doc(m, d, shunt, id, phases, (n - 1) as nat),
            shunt,
            id,
            phases[n - 1],
            (n - 1) as nat,
        )
    }
}

pub open spec fn shunt_doc(m: Sem, d: DocV, net: DistNetworkV, shunt: DistShuntV) -> DocV {
    let id = mrid_of(shunt.extras, "shunt"@, shunt.name);
    let phases = phases_n(shunt.terminal_map, shunt.terminal_map.len());
    let wired = d.named("LinearShuntCompensator"@, id, shunt.name).close(
        "LinearShuntCompensator"@,
    ).terminal(id, 1, node_of(net, shunt.bus), phase_code_of(shunt.terminal_map));
    let phased = shunt_phases_doc(m, wired, shunt, id, phases, phases.len());
    let checked = if any_off_diagonal(shunt.b) {
        phased.warn(
            "shunt "@ + shunt.name
                + ": off-diagonal admittance has no per-phase CIM slot; the diagonal is written"@,
        )
    } else {
        phased
    };
    checked.warn_extras("shunt"@, shunt.name, shunt.extras)
}

pub open spec fn shunts_doc(m: Sem, d: DocV, net: DistNetworkV, n: nat) -> DocV
    decreases n,
{
    if n == 0 {
        d
    } else {
        shunt_doc(m, shunts_doc(m, d, net, (n - 1) as nat), net, net.shunts[n - 1])
    }
}

fn write_shunts<C: Calc>(math: &C, doc: &mut Doc, net: &DistNetwork)
    ensures
        final(doc)@ == shunts_doc(math.sem(), old(doc)@, net@, net@.shunts.len()),
{
    let mut i: usize = 0;
    while i < net.shunts.len()
        invariant
            i <= net.shunts.len(),
            doc@ == shunts_doc(math.sem(), old(doc)@, net@, i as nat),
        decreases net.shunts.len() - i,
    {
        let shunt = &net.shunts[i];
        assert(net@.shunts[i as int] == shunt@);
        let name = shunt.name.as_str();
        let id = mrid(&shunt.extras, "shunt", name);
        doc.named("LinearShuntCompensator", id.as_str(), name);
        doc.close("LinearShuntCompensator");
        let at = node(net, shunt.bus.as_str());
        let code = phase_code(&shunt.terminal_map);
        doc.terminal(id.as_str(), 1, at.as_str(), code.as_str());
        let phases = phases_of(&shunt.terminal_map);
        let ghost wired = doc@;
        let mut n: usize = 0;
        while n < phases.len()
            invariant
                n <= phases.len(),
                name@ == shunt@.name,
                doc@ == shunt_phases_doc(math.sem(), wired, shunt@, id@, views(phases@), n as nat),
            decreases phases.len() - n,
        {
            assert(views(phases@)[n as int] == phases@[n as int]@);
            let phase = phases[n].as_str();
            let pid = det_mrid("shuntphase", cat3(name, ":", phase).as_str());
            doc.named("ShuntCompensatorPhase", pid.as_str(), cat3(name, "_", phase).as_str());
            doc.reference("ShuntCompensatorPhase.ShuntCompensator", id.as_str());
            doc.enumeration(
                "ShuntCompensatorPhase.phase",
                cat2("SinglePhaseKind.", phase).as_str(),
            );
            doc.text(
                "ShuntCompensatorPhase.bPerSection",
                math.show(entry(&shunt.b, n, n)).as_str(),
            );
            doc.text(
                "ShuntCompensatorPhase.gPerSection",
                math.show(entry(&shunt.g, n, n)).as_str(),
            );
            doc.close("ShuntCompensatorPhase");
            n = n + 1;
        }
        if has_nonzero(&shunt.b, true) {
            doc.warn(
                cat3(
                    "shunt ",
                    name,
                    ": off-diagonal admittance has no per-phase CIM slot; the diagonal is written",
                ),
            );
        }
        doc.warn_extras("shunt", name, &shunt.extras);
        i = i + 1;
    }
}

// ---- switches --------------------------------------------------------------

pub open spec fn bool_text(b: bool) -> Seq<char> {
    if b {
        "true"@
    } else {
        "false"@
    }
}

pub open spec fn switch_doc(d: DocV, net: DistNetworkV, s: DistSwitchV) -> DocV {
    let id = mrid_of(s.extras, "switch"@, s.name);
    d.named("LoadBreakSwitch"@, id, s.name).text("Switch.normalOpen"@, bool_text(s.open)).text(
        "Switch.open"@,
        bool_text(s.open),
    ).close("LoadBreakSwitch"@).terminal(
        id,
        1,
        node_of(net, s.bus_from),
        phase_code_of(s.terminal_map_from),
    ).terminal(id, 2, node_of(net, s.bus_to), phase_code_of(s.terminal_map_to)).warn_extras(
        "switch"@,
        s.name,
        s.extras,
    )
}

pub open spec fn switches_doc(d: DocV, net: DistNetworkV, n: nat) -> DocV
    decreases n,
{
    if n == 0 {
        d
    } else {
        switch_doc(switches_doc(d, net, (n - 1) as nat), net, net.switches[n - 1])
    }
}

fn write_switches(doc: &mut Doc, net: &DistNetwork)
    ensures
        final(doc)@ == switches_doc(old(doc)@, net@, net@.switches.len()),
{
    let mut i: usize = 0;
    while i < net.switches.len()
        invariant
            i <= net.switches.len(),
            doc@ == switches_doc(old(doc)@, net@, i as nat),
        decreases net.switches.len() - i,
    {
        let s = &net.switches[i];
        assert(net@.switches[i as int] == s@);
        let name = s.name.as_str();
        let id = mrid(&s.extras, "switch", name);
        doc.named("LoadBreakSwitch", id.as_str(), name);
        let open = if s.open {
            "true"
        } else {
            "false"
        };
        doc.text("Switch.normalOpen", open);
        doc.text("Switch.open", open);
        doc.close("LoadBreakSwitch");
        let from = node(net, s.bus_from.as_str());
        let to = node(net, s.bus_to.as_str());
        let code_from = phase_code(&s.terminal_map_from);
        let code_to = phase_code(&s.terminal_map_to);
        doc.terminal(id.as_str(), 1, from.as_str(), code_from.as_str());
        doc.terminal(id.as_str(), 2, to.as_str(), code_to.as_str());
        doc.warn_extras("switch", name, &s.extras);
        i = i + 1;
    }
}

// ---- transformers ----------------------------------------------------------

/// The impedance base of a winding, or zero where its ratings give none.
pub open spec fn base_or_zero(m: Sem, w: WindingV) -> Bits {
    if num_lt(ZERO, w.v_ref) && num_lt(ZERO, w.s_rating) {
        m.over(m.times(w.v_ref, w.v_ref), w.s_rating)
    } else {
        ZERO
    }
}

/// One winding as a transformer end. The reactance of the pair stands on the
/// first end.
pub open spec fn winding_doc(
    m: Sem,
    d: DocV,
    net: DistNetworkV,
    xf: DistTransformerV,
    id: Seq<char>,
    e: nat,
) -> DocV {
    let w = xf.windings[e as int];
    let number = dec_of(e + 1);
    let base = base_or_zero(m, w);
    let x = if e == 0 {
        m.times(m.over(value_or_zero(xf.xsc_pct, 0), HUNDRED), base)
    } else {
        ZERO
    };
    let kind = match w.conn {
        WindingConn::Delta => "D"@,
        WindingConn::Wye => "Yn"@,
    };
    let written = d.terminal(
        id,
        e + 1,
        node_of(net, w.bus),
        phase_code_of(w.terminal_map),
    ).named(
        "PowerTransformerEnd"@,
        det_mrid_of("xfend"@, xf.name + ":"@ + number),
        xf.name + "_end"@ + number,
    ).reference("PowerTransformerEnd.PowerTransformer"@, id).text(
        "TransformerEnd.endNumber"@,
        number,
    ).reference("TransformerEnd.Terminal"@, terminal_id(id, e + 1)).text(
        "PowerTransformerEnd.ratedU"@,
        (m.show)(w.v_ref),
    ).text("PowerTransformerEnd.ratedS"@, (m.show)(w.s_rating)).enumeration(
        "PowerTransformerEnd.connectionKind"@,
        "WindingConnection."@ + kind,
    ).text(
        "PowerTransformerEnd.r"@,
        (m.show)(m.times(m.over(w.r_pct, HUNDRED), base)),
    ).text("PowerTransformerEnd.x"@, (m.show)(x)).close("PowerTransformerEnd"@);
    let tapped = if num_lt(PICO, abs_of(m.minus(w.tap, ONE))) {
        written.warn(
            "transformer "@ + xf.name + " winding "@ + number + ": off-nominal tap "@ + (m.show)(
                w.tap,
            ) + " is not written (no RatioTapChanger mapping yet)"@,
        )
    } else {
        written
    };
    if w.r_neutral is Some || w.x_neutral is Some {
        tapped.warn(
            "transformer "@ + xf.name + " winding "@ + number
                + ": neutral impedance has no CIM slot"@,
        )
    } else {
        tapped
    }
}

pub open spec fn windings_doc(
    m: Sem,
    d: DocV,
    net: DistNetworkV,
    xf: DistTransformerV,
    id: Seq<char>,
    n: nat,
) -> DocV
    decreases n,
{
    if n == 0 {
        d
    } else {
        winding_doc(
            m,
            windings_doc(m, d, net, xf, id, (n - 1) as nat),
            net,
            xf,
            id,
            (n - 1) as nat,
        )
    }
}

pub open spec fn transformer_doc(m: Sem, d: DocV, net: DistNetworkV, xf: DistTransformerV) -> DocV {
    let id = mrid_of(xf.extras, "xf"@, xf.name);
    if xf.windings.len() != 2 {
        d.warn(
            "transformer "@ + xf.name + ": "@ + dec_of(xf.windings.len())
                + " windings (only two-winding transformers are written); dropped"@,
        )
    } else {
        windings_doc(
            m,
            d.named("PowerTransformer"@, id, xf.name).close("PowerTransformer"@),
            net,
            xf,
            id,
            2,
        ).warn_extras("transformer"@, xf.name, xf.extras)
    }
}

pub open spec fn transformers_doc(m: Sem, d: DocV, net: DistNetworkV, n: nat) -> DocV
    decreases n,
{
    if n == 0 {
        d
    } else {
        transformer_doc(
            m,
            transformers_doc(m, d, net, (n - 1) as nat),
            net,
            net.transformers[n - 1],
        )
    }
}

fn write_winding<C: Calc>(
    math: &C,
    doc: &mut Doc,
    net: &DistNetwork,
    xf: &DistTransformer,
    id: &str,
    e: usize,
)
    requires
        e < xf.windings.len(),
    ensures
        final(doc)@ == winding_doc(math.sem(), old(doc)@, net@, xf@, id@, e as nat),
{
    let w = &xf.windings[e];
    assert(xf@.windings[e as int] == w@);
    let name = xf.name.as_str();
    let number = dec_usize(e + 1);
    let at = node(net, w.bus.as_str());
    let code = phase_code(&w.terminal_map);
    doc.terminal(id, e + 1, at.as_str(), code.as_str());
    let end = det_mrid("xfend", cat3(name, ":", number.as_str()).as_str());
    doc.named(
        "PowerTransformerEnd",
        end.as_str(),
        cat3(name, "_end", number.as_str()).as_str(),
    );
    doc.reference("PowerTransformerEnd.PowerTransformer", id);
    doc.text("TransformerEnd.endNumber", number.as_str());
    let term = det_mrid("terminal", cat3(id, ":", number.as_str()).as_str());
    doc.reference("TransformerEnd.Terminal", term.as_str());
    doc.text("PowerTransformerEnd.ratedU", math.show(w.v_ref).as_str());
    doc.text("PowerTransformerEnd.ratedS", math.show(w.s_rating).as_str());
    let kind = match w.conn {
        WindingConn::Delta => "D",
        WindingConn::Wye => "Yn",
    };
    doc.enumeration(
        "PowerTransformerEnd.connectionKind",
        cat2("WindingConnection.", kind).as_str(),
    );
    let base = if lt(ZERO, w.v_ref) && lt(ZERO, w.s_rating) {
        over(math, times(math, w.v_ref, w.v_ref), w.s_rating)
    } else {
        ZERO
    };
    let r = times(math, over(math, w.r_pct, HUNDRED), base);
    doc.text("PowerTransformerEnd.r", math.show(r).as_str());
    let x = if e == 0 {
        times(math, over(math, value_at(&xf.xsc_pct, 0), HUNDRED), base)
    } else {
        ZERO
    };
    doc.text("PowerTransformerEnd.x", math.show(x).as_str());
    doc.close("PowerTransformerEnd");
    if lt(PICO, abs(minus(math, w.tap, ONE))) {
        let tap = math.show(w.tap);
        doc.warn(
            cat7(
                "transformer ",
                name,
                " winding ",
                number.as_str(),
                ": off-nominal tap ",
                tap.as_str(),
                " is not written (no RatioTapChanger mapping yet)",
            ),
        );
    }
    if w.r_neutral.is_some() || w.x_neutral.is_some() {
        doc.warn(
            cat5(
                "transformer ",
                name,
                " winding ",
                number.as_str(),
                ": neutral impedance has no CIM slot",
            ),
        );
    }
}

fn write_transformers<C: Calc>(math: &C, doc: &mut Doc, net: &DistNetwork)
    ensures
        final(doc)@ == transformers_doc(math.sem(), old(doc)@, net@, net@.transformers.len()),
{
    let mut i: usize = 0;
    while i < net.transformers.len()
        invariant
            i <= net.transformers.len(),
            doc@ == transformers_doc(math.sem(), old(doc)@, net@, i as nat),
        decreases net.transformers.len() - i,
    {
        let xf = &net.transformers[i];
        assert(net@.transformers[i as int] == xf@);
        let name = xf.name.as_str();
        let id = mrid(&xf.extras, "xf", name);
        if xf.windings.len() != 2 {
            let count = dec_usize(xf.windings.len());
            doc.warn(
                cat5(
                    "transformer ",
                    name,
                    ": ",
                    count.as_str(),
                    " windings (only two-winding transformers are written); dropped",
                ),
            );
        } else {
            doc.named("PowerTransformer", id.as_str(), name);
            doc.close("PowerTransformer");
            let ghost head = doc@;
            let mut e: usize = 0;
            while e < 2
                invariant
                    e <= 2,
                    xf.windings.len() == 2,
                    doc@ == windings_doc(math.sem(), head, net@, xf@, id@, e as nat),
                decreases 2 - e,
            {
                write_winding(math, doc, net, xf, id.as_str(), e);
                e = e + 1;
            }
            doc.warn_extras("transformer", name, &xf.extras);
        }
        i = i + 1;
    }
}

// ---- sources ---------------------------------------------------------------

pub open spec fn source_doc(m: Sem, d: DocV, net: DistNetworkV, s: VoltageSourceV) -> DocV {
    let id = mrid_of(s.extras, "source"@, s.name);
    let v_ln = value_or_zero(s.v_magnitude, 0);
    let v = (m.show)(
        if phases_n(s.terminal_map, s.terminal_map.len()).len() >= 2 {
            m.times(v_ln, m.root3())
        } else {
            v_ln
        },
    );
    d.named("EnergySource"@, id, s.name).text("EnergySource.voltageMagnitude"@, v).text(
        "EnergySource.voltageAngle"@,
        (m.show)(value_or_zero(s.v_angle, 0)),
    ).text("EnergySource.nominalVoltage"@, v).close("EnergySource"@).terminal(
        id,
        1,
        node_of(net, s.bus),
        phase_code_of(s.terminal_map),
    ).warn_extras("source"@, s.name, s.extras)
}

pub open spec fn sources_doc(m: Sem, d: DocV, net: DistNetworkV, n: nat) -> DocV
    decreases n,
{
    if n == 0 {
        d
    } else {
        source_doc(m, sources_doc(m, d, net, (n - 1) as nat), net, net.sources[n - 1])
    }
}

fn write_sources<C: Calc>(math: &C, doc: &mut Doc, net: &DistNetwork)
    ensures
        final(doc)@ == sources_doc(math.sem(), old(doc)@, net@, net@.sources.len()),
{
    let mut i: usize = 0;
    while i < net.sources.len()
        invariant
            i <= net.sources.len(),
            doc@ == sources_doc(math.sem(), old(doc)@, net@, i as nat),
        decreases net.sources.len() - i,
    {
        let s = &net.sources[i];
        assert(net@.sources[i as int] == s@);
        let name = s.name.as_str();
        let id = mrid(&s.extras, "source", name);
        let phases = phases_of(&s.terminal_map);
        assert(views(phases@).len() == phases.len());
        let v_ln = value_at(&s.v_magnitude, 0);
        let v = if phases.len() >= 2 {
            times(math, v_ln, root3(math))
        } else {
            v_ln
        };
        let volts = math.show(v);
        doc.named("EnergySource", id.as_str(), name);
        doc.text("EnergySource.voltageMagnitude", volts.as_str());
        doc.text("EnergySource.voltageAngle", math.show(value_at(&s.v_angle, 0)).as_str());
        doc.text("EnergySource.nominalVoltage", volts.as_str());
        doc.close("EnergySource");
        let at = node(net, s.bus.as_str());
        let code = phase_code(&s.terminal_map);
        doc.terminal(id.as_str(), 1, at.as_str(), code.as_str());
        doc.warn_extras("source", name, &s.extras);
        i = i + 1;
    }
}

// ---- the whole document ----------------------------------------------------

/// The warning about a family of elements that is left out.
pub open spec fn dropped_doc(d: DocV, what: Seq<char>, count: nat) -> DocV {
    if count > 0 {
        d.warn(
            dec_of(count) + " "@ + what
                + "(s) have no distribution CIM mapping yet and are dropped"@,
        )
    } else {
        d
    }
}

fn warn_dropped(doc: &mut Doc, what: &str, count: usize)
    ensures
        final(doc)@ == dropped_doc(old(doc)@, what@, count as nat),
{
    if count > 0 {
        let n = dec_usize(count);
        doc.warn(
            cat4(
                n.as_str(),
                " ",
                what,
                "(s) have no distribution CIM mapping yet and are dropped",
            ),
        );
    }
}

/// The base frequency record.
pub open spec fn frequency_doc(m: Sem, d: DocV, net: DistNetworkV) -> DocV {
    let f = (m.show)(net.base_frequency);
    d.open("BaseFrequency"@, det_mrid_of("frequency"@, "base"@)).text(
        "IdentifiedObject.name"@,
        f + " Hz"@,
    ).text("BaseFrequency.frequency"@, f).close("BaseFrequency"@)
}

/// Every element of a network, one family after another.
pub open spec fn network_doc(m: Sem, net: DistNetworkV) -> DocV {
    let d = DocV { body: seq![], warnings: seq![], objects: seq![], object: None };
    let d = frequency_doc(m, d, net);
    let d = buses_doc(d, net, net.buses.len());
    let d = linecodes_doc(m, d, net, net.linecodes.len());
    let d = lines_doc(m, d, net, net.lines.len());
    let d = loads_doc(m, d, net, net.loads.len());
    let d = shunts_doc(m, d, net, net.shunts.len());
    let d = switches_doc(d, net, net.switches.len());
    let d = transformers_doc(m, d, net, net.transformers.len());
    let d = sources_doc(m, d, net, net.sources.len());
    let d = dropped_doc(d, "generator"@, net.generators.len());
    let d = dropped_doc(d, "inverter-based resource"@, net.ibrs.len());
    let d = dropped_doc(d, "control profile"@, net.control_profiles.len());
    dropped_doc(d, "untyped object"@, net.untyped.len())
}

pub open spec fn cim_header() -> Seq<char> {
    "<?xml version=\"1.0\" encoding=\"UTF-8\"?>\n"@
        + "<rdf:RDF xmlns:rdf=\"http://www.w3.org/1999/02/22-rdf-syntax-ns#\"\n         xmlns:cim=\"http://iec.ch/TC57/CIM100#\">\n"@
}

/// A network as one distribution CIM document, with the warnings of its elements
/// and of [`losses_of`].
pub open spec fn cim_xml(m: Sem, net: DistNetworkV) -> ConversionV {
    let d = network_doc(m, net);
    ConversionV {
        text: cim_header() + d.body + "</rdf:RDF>\n"@,
        sidecars: seq![],
        warnings: losses_of(m, d.warnings, net),
        diagnostics: seq![],
    }
}

/// Writes `net` as one distribution CIM document. The warnings name the elements
/// that the profile cannot carry, and the values of the others that it drops.
pub fn write_cim_xml<C: Calc>(math: &C, net: &DistNetwork) -> (r: Conversion)
    requires
        forall|k: int|
            0 <= k < net@.linecodes.len() ==> lower_triangle(#[trigger] net@.linecodes[k]),
    ensures
        r@ == cim_xml(math.sem(), net@),
{
    broadcast use group_views;

    let mut doc = Doc {
        body: String::new(),
        warnings: Vec::new(),
        objects: Ghost(Seq::empty()),
        object: Ghost(None),
    };
    assert(doc@.body == Seq::<char>::empty());
    assert(doc@.warnings == Seq::<Seq<char>>::empty());
    let id = det_mrid("frequency", "base");
    let f = math.show(net.base_frequency);
    doc.open("BaseFrequency", id.as_str());
    doc.text("IdentifiedObject.name", cat2(f.as_str(), " Hz").as_str());
    doc.text("BaseFrequency.frequency", f.as_str());
    doc.close("BaseFrequency");
    write_buses(&mut doc, net);
    write_linecodes(math, &mut doc, net);
    write_lines(math, &mut doc, net);
    write_loads(math, &mut doc, net);
    write_shunts(math, &mut doc, net);
    write_switches(&mut doc, net);
    write_transformers(math, &mut doc, net);
    write_sources(math, &mut doc, net);
    warn_dropped(&mut doc, "generator", net.generators.len());
    warn_dropped(&mut doc, "inverter-based resource", net.ibrs.len());
    warn_dropped(&mut doc, "control profile", net.control_profiles.len());
    warn_dropped(&mut doc, "untyped object", net.untyped.len());
    let text = cat4(
        "<?xml version=\"1.0\" encoding=\"UTF-8\"?>\n",
        "<rdf:RDF xmlns:rdf=\"http://www.w3.org/1999/02/22-rdf-syntax-ns#\"\n         xmlns:cim=\"http://iec.ch/TC57/CIM100#\">\n",
        doc.body.as_str(),
        "</rdf:RDF>\n",
    );
    let mut warnings = doc.warnings;
    say_losses(math, &mut warnings, net);
    Conversion { text, sidecars: Vec::new(), warnings, diagnostics: Vec::new() }
}

} // verus!
