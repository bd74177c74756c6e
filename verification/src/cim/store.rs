//! The objects of one or more CIM documents, merged by identifier.

use vstd::prelude::*;

use crate::math::{Bits, Calc, Sem};
use crate::text::{
    after_last, after_last_of, empty, group_views, opt_view, same, trim, trim_of, views,
};

verus! {

/// A property's value: a reference to another object, or text.
pub enum PropValue {
    Ref(String),
    Text(String),
}

pub enum PropV {
    Ref(Seq<char>),
    Text(Seq<char>),
}

impl View for PropValue {
    type V = PropV;

    open spec fn view(&self) -> PropV {
        match *self {
            PropValue::Ref(s) => PropV::Ref(s@),
            PropValue::Text(s) => PropV::Text(s@),
        }
    }
}

impl PropV {
    pub open spec fn text(self) -> Seq<char> {
        match self {
            PropV::Ref(s) => s,
            PropV::Text(s) => s,
        }
    }
}

impl PropValue {
    pub fn as_str(&self) -> (r: &String)
        ensures
            r@ == self@.text(),
    {
        match self {
            PropValue::Ref(s) => s,
            PropValue::Text(s) => s,
        }
    }
}

fn copy_props(props: &Vec<(String, PropValue)>) -> (r: Vec<(String, PropValue)>)
    ensures
        views(r@) == views(props@),
{
    let mut r: Vec<(String, PropValue)> = Vec::new();
    let mut i: usize = 0;
    while i < props.len()
        invariant
            i <= props.len(),
            r.len() == i,
            forall|k: int| 0 <= k < i ==> (#[trigger] r@[k])@ == props@[k]@,
        decreases props.len() - i,
    {
        let v = match &props[i].1 {
            PropValue::Ref(s) => PropValue::Ref(s.clone()),
            PropValue::Text(s) => PropValue::Text(s.clone()),
        };
        r.push((props[i].0.clone(), v));
        i = i + 1;
    }
    assert(views(r@) =~= views(props@));
    r
}

/// An object of a document.
pub struct CimObject {
    pub class: String,
    pub id: String,
    pub props: Vec<(String, PropValue)>,
}

pub struct CimObjectV {
    pub class: Seq<char>,
    pub id: Seq<char>,
    pub props: Seq<(Seq<char>, PropV)>,
}

impl View for CimObject {
    type V = CimObjectV;

    open spec fn view(&self) -> CimObjectV {
        CimObjectV { class: self.class@, id: self.id@, props: views(self.props@) }
    }
}

/// A document: its objects in order, the namespace it declares for CIM, and the
/// description in its header.
pub struct CimDocument {
    pub objects: Vec<CimObject>,
    pub cim_namespace: Option<String>,
    pub description: Option<String>,
}

pub struct CimDocumentV {
    pub objects: Seq<CimObjectV>,
    pub cim_namespace: Option<Seq<char>>,
    pub description: Option<Seq<char>>,
}

impl View for CimDocument {
    type V = CimDocumentV;

    open spec fn view(&self) -> CimDocumentV {
        CimDocumentV {
            objects: views(self.objects@),
            cim_namespace: opt_view(self.cim_namespace),
            description: opt_view(self.description),
        }
    }
}

// ---- merging ---------------------------------------------------------------

/// The index of the first object at or after `i` with this identifier.
pub open spec fn index_from(s: Seq<CimObjectV>, id: Seq<char>, i: int) -> Option<int>
    decreases s.len() - i,
{
    if i < 0 || i >= s.len() {
        None
    } else if s[i].id == id {
        Some(i)
    } else {
        index_from(s, id, i + 1)
    }
}

/// The objects with one more merged in: the properties of an identifier seen
/// before are appended to its object, and an object without an identifier is
/// left out.
pub open spec fn merge_one(s: Seq<CimObjectV>, o: CimObjectV) -> Seq<CimObjectV> {
    if o.id.len() == 0 {
        s
    } else {
        match index_from(s, o.id, 0) {
            Some(i) => s.update(i, CimObjectV { props: s[i].props + o.props, ..s[i] }),
            None => s.push(o),
        }
    }
}

pub open spec fn merge_n(s: Seq<CimObjectV>, objects: Seq<CimObjectV>, n: nat) -> Seq<CimObjectV>
    decreases n,
{
    if n == 0 {
        s
    } else {
        merge_one(merge_n(s, objects, (n - 1) as nat), objects[n - 1])
    }
}

/// No identifier is empty and none occurs twice.
pub open spec fn distinct_ids(s: Seq<CimObjectV>) -> bool {
    &&& forall|i: int| 0 <= i < s.len() ==> (#[trigger] s[i]).id.len() > 0
    &&& forall|i: int, j: int|
        0 <= i < j < s.len() ==> (#[trigger] s[i]).id != (#[trigger] s[j]).id
}

proof fn lemma_index_from(s: Seq<CimObjectV>, id: Seq<char>, i: int)
    requires
        0 <= i <= s.len(),
    ensures
        match index_from(s, id, i) {
            Some(k) => i <= k < s.len() && s[k].id == id,
            None => forall|k: int| i <= k < s.len() ==> (#[trigger] s[k]).id != id,
        },
    decreases s.len() - i,
{
    if i < s.len() && s[i].id != id {
        lemma_index_from(s, id, i + 1);
    }
}

/// Merging keeps identifiers distinct, whatever the documents repeat.
pub proof fn lemma_merge_distinct(s: Seq<CimObjectV>, objects: Seq<CimObjectV>, n: nat)
    requires
        distinct_ids(s),
        n <= objects.len(),
    ensures
        distinct_ids(merge_n(s, objects, n)),
    decreases n,
{
    if n > 0 {
        lemma_merge_distinct(s, objects, (n - 1) as nat);
        lemma_index_from(merge_n(s, objects, (n - 1) as nat), objects[n - 1].id, 0);
    }
}

// ---- the store -------------------------------------------------------------

#[verifier::ext_equal]
pub struct StoreV {
    pub objects: Seq<CimObjectV>,
}

/// The value of the first property at or after `i` with this key.
pub open spec fn prop_from(props: Seq<(Seq<char>, PropV)>, key: Seq<char>, i: int) -> Option<PropV>
    decreases props.len() - i,
{
    if i < 0 || i >= props.len() {
        None
    } else if props[i].0 == key {
        Some(props[i].1)
    } else {
        prop_from(props, key, i + 1)
    }
}

/// The identifiers of the first `n` objects that are of a class.
pub open spec fn of_class_n(s: Seq<CimObjectV>, class: Seq<char>, n: nat) -> Seq<Seq<char>>
    decreases n,
{
    if n == 0 {
        seq![]
    } else if s[n - 1].class == class {
        of_class_n(s, class, (n - 1) as nat).push(s[n - 1].id)
    } else {
        of_class_n(s, class, (n - 1) as nat)
    }
}

impl StoreV {
    #[verifier::opaque]
    pub open spec fn class_of(self, id: Seq<char>) -> Option<Seq<char>> {
        match index_from(self.objects, id, 0) {
            Some(i) => Some(self.objects[i].class),
            None => None,
        }
    }

    /// The identifiers of a class, in document order.
    #[verifier::opaque]
    pub open spec fn of_class(self, class: Seq<char>) -> Seq<Seq<char>> {
        of_class_n(self.objects, class, self.objects.len())
    }

    #[verifier::opaque]
    pub open spec fn prop(self, id: Seq<char>, key: Seq<char>) -> Option<PropV> {
        match index_from(self.objects, id, 0) {
            Some(i) => prop_from(self.objects[i].props, key, 0),
            None => None,
        }
    }

    /// A property's text.
    #[verifier::opaque]
    pub open spec fn text(self, id: Seq<char>, key: Seq<char>) -> Option<Seq<char>> {
        match self.prop(id, key) {
            Some(p) => Some(p.text()),
            None => None,
        }
    }

    /// A property that denotes a number.
    #[verifier::opaque]
    pub open spec fn number(self, m: Sem, id: Seq<char>, key: Seq<char>) -> Option<Bits> {
        match self.text(id, key) {
            Some(s) => (m.parse)(trim_of(s)),
            None => None,
        }
    }

    pub open spec fn number_or(self, m: Sem, id: Seq<char>, key: Seq<char>, d: Bits) -> Bits {
        match self.number(m, id, key) {
            Some(x) => x,
            None => d,
        }
    }

    /// A property that denotes a truth value.
    #[verifier::opaque]
    pub open spec fn boolean(self, id: Seq<char>, key: Seq<char>) -> Option<bool> {
        match self.text(id, key) {
            Some(s) => {
                let t = trim_of(s);
                if t == "true"@ || t == "TRUE"@ || t == "True"@ || t == "1"@ {
                    Some(true)
                } else if t == "false"@ || t == "FALSE"@ || t == "False"@ || t == "0"@ {
                    Some(false)
                } else {
                    None
                }
            },
            None => None,
        }
    }

    /// What a property refers to; text refers to nothing.
    #[verifier::opaque]
    pub open spec fn refv(self, id: Seq<char>, key: Seq<char>) -> Option<Seq<char>> {
        match self.prop(id, key) {
            Some(PropV::Ref(s)) => Some(s),
            _ => None,
        }
    }

    /// The last part of an enumeration reference.
    #[verifier::opaque]
    pub open spec fn enum_value(self, id: Seq<char>, key: Seq<char>) -> Option<Seq<char>> {
        match self.refv(id, key) {
            Some(s) => Some(after_last_of(s, '.')),
            None => None,
        }
    }

    /// An object's name, or its identifier where it has none.
    #[verifier::opaque]
    pub open spec fn name(self, id: Seq<char>) -> Seq<char> {
        match self.text(id, "IdentifiedObject.name"@) {
            Some(s) => s,
            None => id,
        }
    }
}

pub struct Store {
    pub objects: Vec<CimObject>,
}

impl View for Store {
    type V = StoreV;

    open spec fn view(&self) -> StoreV {
        StoreV { objects: views(self.objects@) }
    }
}

impl Store {
    pub fn new() -> (r: Store)
        ensures
            r@.objects == Seq::<CimObjectV>::empty(),
    {
        broadcast use group_views;

        Store { objects: Vec::new() }
    }

    fn index(&self, id: &str) -> (r: Option<usize>)
        ensures
            match r {
                Some(i) => i < self.objects.len() && index_from(self@.objects, id@, 0) == Some(
                    i as int,
                ),
                None => index_from(self@.objects, id@, 0) is None,
            },
    {
        let mut i: usize = 0;
        while i < self.objects.len()
            invariant
                i <= self.objects.len(),
                index_from(self@.objects, id@, 0) == index_from(self@.objects, id@, i as int),
            decreases self.objects.len() - i,
        {
            assert(self@.objects[i as int] == self.objects@[i as int]@);
            if same(self.objects[i].id.as_str(), id) {
                return Some(i);
            }
            i = i + 1;
        }
        None
    }

    /// Merges a document's objects in.
    pub fn merge(&mut self, objects: &Vec<CimObject>)
        ensures
            final(self)@.objects == merge_n(
                old(self)@.objects,
                views(objects@),
                objects@.len(),
            ),
    {
        broadcast use group_views;

        let mut n: usize = 0;
        while n < objects.len()
            invariant
                n <= objects.len(),
                self@.objects == merge_n(old(self)@.objects, views(objects@), n as nat),
            decreases objects.len() - n,
        {
            let ghost before = self@.objects;
            let o = &objects[n];
            assert(views(objects@)[n as int] == o@);
            if !empty(o.id.as_str()) {
                match self.index(o.id.as_str()) {
                    Some(i) => {
                        let mut props = copy_props(&o.props);
                        assert(before[i as int] == self.objects@[i as int]@);
                        let ghost was = self.objects@[i as int];
                        let ghost more = props@;
                        self.objects[i].props.append(&mut props);
                        assert(self.objects@[i as int].props@ == was.props@ + more);
                        assert(views(was.props@ + more) == views(was.props@) + views(more));
                        assert(self.objects@[i as int].class == was.class);
                        assert(self.objects@[i as int].id == was.id);
                        assert(self.objects@[i as int]@ == (CimObjectV {
                            props: before[i as int].props + o@.props,
                            ..before[i as int]
                        }));
                        assert(self@.objects =~= before.update(
                            i as int,
                            CimObjectV {
                                props: before[i as int].props + o@.props,
                                ..before[i as int]
                            },
                        ));
                    },
                    None => {
                        let props = copy_props(&o.props);
                        self.objects.push(
                            CimObject { class: o.class.clone(), id: o.id.clone(), props },
                        );
                    },
                }
            }
            n = n + 1;
        }
    }

    pub fn class_of(&self, id: &str) -> (r: Option<&String>)
        ensures
            match r {
                Some(c) => self@.class_of(id@) == Some(c@),
                None => self@.class_of(id@) is None,
            },
    {
        reveal(StoreV::class_of);
        match self.index(id) {
            Some(i) => {
                assert(self@.objects[i as int] == self.objects@[i as int]@);
                Some(&self.objects[i].class)
            },
            None => None,
        }
    }

    pub fn of_class(&self, class: &str) -> (r: Vec<String>)
        ensures
            views(r@) == self@.of_class(class@),
    {
        broadcast use group_views;

        reveal(StoreV::of_class);
        let mut r: Vec<String> = Vec::new();
        let mut i: usize = 0;
        while i < self.objects.len()
            invariant
                i <= self.objects.len(),
                views(r@) == of_class_n(self@.objects, class@, i as nat),
            decreases self.objects.len() - i,
        {
            assert(self@.objects[i as int] == self.objects@[i as int]@);
            if same(self.objects[i].class.as_str(), class) {
                r.push(self.objects[i].id.clone());
            }
            i = i + 1;
        }
        r
    }

    fn prop(&self, id: &str, key: &str) -> (r: Option<&PropValue>)
        ensures
            match r {
                Some(p) => self@.prop(id@, key@) == Some(p@),
                None => self@.prop(id@, key@) is None,
            },
    {
        reveal(StoreV::prop);
        match self.index(id) {
            Some(i) => {
                assert(self@.objects[i as int] == self.objects@[i as int]@);
                let props = &self.objects[i].props;
                let mut k: usize = 0;
                while k < props.len()
                    invariant
                        k <= props.len(),
                        index_from(self@.objects, id@, 0) == Some(i as int),
                        self@.objects[i as int].props == views(props@),
                        self@.prop(id@, key@) == prop_from(views(props@), key@, k as int),
                    decreases props.len() - k,
                {
                    assert(views(props@)[k as int] == (props@[k as int].0@, props@[k as int].1@));
                    if same(props[k].0.as_str(), key) {
                        return Some(&props[k].1);
                    }
                    k = k + 1;
                }
                None
            },
            None => None,
        }
    }

    fn text(&self, id: &str, key: &str) -> (r: Option<&String>)
        ensures
            match r {
                Some(s) => self@.text(id@, key@) == Some(s@),
                None => self@.text(id@, key@) is None,
            },
    {
        reveal(StoreV::text);
        match self.prop(id, key) {
            Some(p) => Some(p.as_str()),
            None => None,
        }
    }

    pub fn number<C: Calc>(&self, math: &C, id: &str, key: &str) -> (r: Option<Bits>)
        ensures
            r == self@.number(math.sem(), id@, key@),
    {
        reveal(StoreV::number);
        match self.text(id, key) {
            Some(s) => math.parse(trim(s.as_str()).as_str()),
            None => None,
        }
    }

    pub fn number_or<C: Calc>(&self, math: &C, id: &str, key: &str, d: Bits) -> (r: Bits)
        ensures
            r == self@.number_or(math.sem(), id@, key@, d),
    {
        match self.number(math, id, key) {
            Some(x) => x,
            None => d,
        }
    }

    pub fn boolean(&self, id: &str, key: &str) -> (r: Option<bool>)
        ensures
            r == self@.boolean(id@, key@),
    {
        reveal(StoreV::boolean);
        match self.text(id, key) {
            Some(s) => {
                let t = trim(s.as_str());
                let t = t.as_str();
                if same(t, "true") || same(t, "TRUE") || same(t, "True") || same(t, "1") {
                    Some(true)
                } else if same(t, "false") || same(t, "FALSE") || same(t, "False") || same(t, "0") {
                    Some(false)
                } else {
                    None
                }
            },
            None => None,
        }
    }

    pub fn refv(&self, id: &str, key: &str) -> (r: Option<&String>)
        ensures
            match r {
                Some(s) => self@.refv(id@, key@) == Some(s@),
                None => self@.refv(id@, key@) is None,
            },
    {
        reveal(StoreV::refv);
        match self.prop(id, key) {
            Some(PropValue::Ref(s)) => Some(s),
            _ => None,
        }
    }

    /// Whether a property refers to `target`.
    pub fn refers(&self, id: &str, key: &str, target: &str) -> (r: bool)
        ensures
            r == (self@.refv(id@, key@) == Some(target@)),
    {
        match self.refv(id, key) {
            Some(s) => same(s.as_str(), target),
            None => false,
        }
    }

    pub fn enum_value(&self, id: &str, key: &str) -> (r: Option<String>)
        ensures
            opt_view(r) == self@.enum_value(id@, key@),
    {
        reveal(StoreV::enum_value);
        match self.refv(id, key) {
            Some(s) => Some(after_last(s.as_str(), '.')),
            None => None,
        }
    }

    pub fn name(&self, id: &str) -> (r: String)
        ensures
            r@ == self@.name(id@),
    {
        reveal(StoreV::name);
        match self.text(id, "IdentifiedObject.name") {
            Some(s) => s.clone(),
            None => id.to_owned(),
        }
    }
}

} // verus!
