//! The arena that holds every object, and the object operations.

use vstd::prelude::*;

use crate::laws::lemma_ancestor_within_heap;
use crate::names::{decimal, index_name};
use crate::object::{Object, ObjectPtr, ScriptObject, StageObject};
use crate::value::{Attributes, DisplayObject, Error, Executable, Property, ReturnValue, Value};

verus! {

/// The number of prototype links a lookup may follow before giving up.
pub const MAX_PROTO_DEPTH: usize = 255;

/// What an access yields, as a mathematical value.
pub enum Outcome {
    /// The value itself.
    Value(Value),
    /// A call the driving VM must make: function, receiver, arguments.
    Call(Executable, Object, Seq<Value>),
}

impl View for ReturnValue {
    type V = Outcome;

    open spec fn view(&self) -> Outcome {
        match self {
            ReturnValue::Immediate(v) => Outcome::Value(*v),
            ReturnValue::Invoke { function, this, args } => Outcome::Call(*function, *this, args@),
        }
    }
}

pub open spec fn result_view(r: Result<ReturnValue, Error>) -> Result<Outcome, Error> {
    match r {
        Ok(v) => Ok(v@),
        Err(e) => Err(e),
    }
}

/// The state of one object.
pub struct ObjectView {
    /// The stage node behind a stage-backed object.
    pub display: Option<DisplayObject>,
    /// What calling the object runs, if it is a function.
    pub function: Option<Executable>,
    pub proto: Option<Object>,
    pub properties: Map<Seq<char>, Property>,
    pub array: Seq<Value>,
}

struct Entry {
    name: String,
    property: Property,
}

struct ObjectData {
    display: Option<DisplayObject>,
    function: Option<Executable>,
    proto: Option<Object>,
    entries: Vec<Entry>,
    array: Vec<Value>,
}

/// The arena of objects. A `&mut Heap` is the capability to mutate them.
pub struct Heap {
    objects: Vec<ObjectData>,
}

spec fn has_name(s: Seq<Entry>, k: Seq<char>) -> bool {
    exists|i: int| 0 <= i < s.len() && (#[trigger] s[i]).name@ == k
}

spec fn entries_map(s: Seq<Entry>) -> Map<Seq<char>, Property> {
    Map::new(
        |k: Seq<char>| has_name(s, k),
        |k: Seq<char>| s[choose|i: int| 0 <= i < s.len() && (#[trigger] s[i]).name@ == k].property,
    )
}

spec fn names_unique(s: Seq<Entry>) -> bool {
    forall|i: int, j: int|
        0 <= i < s.len() && 0 <= j < s.len() && (#[trigger] s[i]).name@ == (#[trigger] s[j]).name@
            ==> i == j
}

proof fn lemma_entry_at(s: Seq<Entry>, j: int)
    requires
        names_unique(s),
        0 <= j < s.len(),
    ensures
        entries_map(s).contains_key(s[j].name@),
        entries_map(s)[s[j].name@] == s[j].property,
{
    let k = s[j].name@;
    assert(has_name(s, k));
    let i = choose|i: int| 0 <= i < s.len() && (#[trigger] s[i]).name@ == k;
    assert(i == j);
}

proof fn lemma_update(s: Seq<Entry>, j: int, e: Entry)
    requires
        names_unique(s),
        0 <= j < s.len(),
        e.name@ == s[j].name@,
    ensures
        names_unique(s.update(j, e)),
        entries_map(s.update(j, e)) == entries_map(s).insert(e.name@, e.property),
{
    let t = s.update(j, e);
    assert(names_unique(t)) by {
        assert forall|a: int, b: int|
            0 <= a < t.len() && 0 <= b < t.len() && (#[trigger] t[a]).name@ == (#[trigger] t[b]).name@
            implies a == b by {
            assert(t[a].name@ == s[a].name@);
            assert(t[b].name@ == s[b].name@);
        }
    }
    let m = entries_map(s).insert(e.name@, e.property);
    assert forall|k: Seq<char>| #[trigger] entries_map(t).contains_key(k) == m.contains_key(k) by {
        if has_name(t, k) {
            let i = choose|i: int| 0 <= i < t.len() && (#[trigger] t[i]).name@ == k;
            assert(s[i].name@ == k);
        }
        if has_name(s, k) {
            let i = choose|i: int| 0 <= i < s.len() && (#[trigger] s[i]).name@ == k;
            assert(t[i].name@ == k);
        }
    }
    assert forall|k: Seq<char>| #[trigger] entries_map(t).contains_key(k) implies entries_map(t)[k] == m[k] by {
        let i = choose|i: int| 0 <= i < t.len() && (#[trigger] t[i]).name@ == k;
        lemma_entry_at(t, i);
        if i != j {
            assert(s[i].name@ == k);
            lemma_entry_at(s, i);
        }
    }
    assert(entries_map(t) =~= m);
}

proof fn lemma_push(s: Seq<Entry>, e: Entry)
    requires
        names_unique(s),
        !has_name(s, e.name@),
    ensures
        names_unique(s.push(e)),
        entries_map(s.push(e)) == entries_map(s).insert(e.name@, e.property),
{
    let t = s.push(e);
    assert(names_unique(t)) by {
        assert forall|a: int, b: int|
            0 <= a < t.len() && 0 <= b < t.len() && (#[trigger] t[a]).name@ == (#[trigger] t[b]).name@
            implies a == b by {
            if a < s.len() {
                assert(t[a] == s[a]);
            }
            if b < s.len() {
                assert(t[b] == s[b]);
            }
        }
    }
    let m = entries_map(s).insert(e.name@, e.property);
    assert forall|k: Seq<char>| #[trigger] entries_map(t).contains_key(k) == m.contains_key(k) by {
        if has_name(t, k) {
            let i = choose|i: int| 0 <= i < t.len() && (#[trigger] t[i]).name@ == k;
            if i < s.len() {
                assert(s[i].name@ == k);
            }
        }
        if has_name(s, k) {
            let i = choose|i: int| 0 <= i < s.len() && (#[trigger] s[i]).name@ == k;
            assert(t[i].name@ == k);
        }
        assert(t[s.len() as int] == e);
    }
    assert forall|k: Seq<char>| #[trigger] entries_map(t).contains_key(k) implies entries_map(t)[k] == m[k] by {
        let i = choose|i: int| 0 <= i < t.len() && (#[trigger] t[i]).name@ == k;
        lemma_entry_at(t, i);
        if i < s.len() {
            assert(s[i] == t[i]);
            lemma_entry_at(s, i);
        }
    }
    assert(entries_map(t) =~= m);
}

proof fn lemma_remove(s: Seq<Entry>, j: int)
    requires
        names_unique(s),
        0 <= j < s.len(),
    ensures
        names_unique(s.remove(j)),
        entries_map(s.remove(j)) == entries_map(s).remove(s[j].name@),
{
    let t = s.remove(j);
    assert forall|a: int| 0 <= a < t.len() implies #[trigger] t[a] == (if a < j { s[a] } else { s[a + 1] }) by {}
    assert(names_unique(t)) by {
        assert forall|a: int, b: int|
            0 <= a < t.len() && 0 <= b < t.len() && (#[trigger] t[a]).name@ == (#[trigger] t[b]).name@
            implies a == b by {
            let sa = if a < j { a } else { a + 1 };
            let sb = if b < j { b } else { b + 1 };
            assert(s[sa] == t[a]);
            assert(s[sb] == t[b]);
        }
    }
    let m = entries_map(s).remove(s[j].name@);
    assert forall|k: Seq<char>| #[trigger] entries_map(t).contains_key(k) == m.contains_key(k) by {
        if has_name(t, k) {
            let i = choose|i: int| 0 <= i < t.len() && (#[trigger] t[i]).name@ == k;
            let si = if i < j { i } else { i + 1 };
            assert(s[si].name@ == k);
            assert(si != j);
        }
        if has_name(s, k) && k != s[j].name@ {
            let i = choose|i: int| 0 <= i < s.len() && (#[trigger] s[i]).name@ == k;
            let ti = if i < j { i } else { i - 1 };
            assert(t[ti].name@ == k);
        }
    }
    assert forall|k: Seq<char>| #[trigger] entries_map(t).contains_key(k) implies entries_map(t)[k] == m[k] by {
        let i = choose|i: int| 0 <= i < t.len() && (#[trigger] t[i]).name@ == k;
        lemma_entry_at(t, i);
        let si = if i < j { i } else { i + 1 };
        assert(s[si] == t[i]);
        lemma_entry_at(s, si);
    }
    assert(entries_map(t) =~= m);
}

fn find_entry(entries: &Vec<Entry>, name: &String) -> (r: Option<usize>)
    ensures
        match r {
            Some(i) => i < entries@.len() && entries@[i as int].name@ == name@,
            None => !has_name(entries@, name@),
        },
{
    let mut i: usize = 0;
    while i < entries.len()
        invariant
            i <= entries@.len(),
            forall|a: int| 0 <= a < i ==> (#[trigger] entries@[a]).name@ != name@,
        decreases entries@.len() - i,
    {
        if entries[i].name == *name {
            return Some(i);
        }
        i = i + 1;
    }
    None
}

impl ObjectData {
    spec fn view(self) -> ObjectView {
        ObjectView {
            display: self.display,
            function: self.function,
            proto: self.proto,
            properties: entries_map(self.entries@),
            array: self.array@,
        }
    }
}

/// Whether `o` is a handle of an object of `heap`, of the kind it was made as.
pub open spec fn valid_in(heap: Seq<ObjectView>, o: Object) -> bool {
    &&& o.index() < heap.len()
    &&& (o is StageObject) == heap[o.index() as int].display.is_some()
}

/// Every prototype link points into the heap.
pub open spec fn protos_valid(heap: Seq<ObjectView>) -> bool {
    forall|i: int|
        0 <= i < heap.len() ==> match (#[trigger] heap[i]).proto {
            Some(p) => valid_in(heap, p),
            None => true,
        }
}

pub open spec fn has_own(heap: Seq<ObjectView>, o: Object, name: Seq<char>) -> bool {
    heap[o.index() as int].properties.contains_key(name)
}

/// What reading the own property `name` of `o` yields, with receiver `this`.
pub open spec fn local_outcome(heap: Seq<ObjectView>, o: Object, name: Seq<char>, this: Object) -> Outcome {
    let props = heap[o.index() as int].properties;
    if props.contains_key(name) {
        match props[name] {
            Property::Stored { value, .. } => Outcome::Value(value),
            Property::Virtual { get, .. } => Outcome::Call(get, this, Seq::empty()),
        }
    } else {
        Outcome::Value(Value::Undefined)
    }
}

/// Prototype resolution from the link `proto`, having followed `depth` links.
pub open spec fn search_outcome(
    heap: Seq<ObjectView>,
    proto: Option<Object>,
    name: Seq<char>,
    this: Object,
    depth: nat,
) -> Result<Outcome, Error>
    decreases 255 - depth,
{
    match proto {
        None => Ok(Outcome::Value(Value::Undefined)),
        Some(p) => if depth >= 255 {
            Err(Error::PrototypeChainTooDeep)
        } else if has_own(heap, p, name) {
            Ok(local_outcome(heap, p, name, this))
        } else {
            search_outcome(heap, heap[p.index() as int].proto, name, this, depth + 1)
        },
    }
}

/// What reading `name` from `o` yields: its own property, else the prototype chain's.
pub open spec fn get_outcome(heap: Seq<ObjectView>, o: Object, name: Seq<char>) -> Result<Outcome, Error> {
    if has_own(heap, o, name) {
        Ok(local_outcome(heap, o, name, o))
    } else {
        search_outcome(heap, heap[o.index() as int].proto, name, o, 0)
    }
}

impl View for Heap {
    type V = Seq<ObjectView>;

    closed spec fn view(&self) -> Seq<ObjectView> {
        self.objects@.map_values(|d: ObjectData| d.view())
    }
}

impl Heap {
    pub closed spec fn entries_unique(&self) -> bool {
        forall|i: int| 0 <= i < self.objects@.len() ==> names_unique(#[trigger] self.objects@[i].entries@)
    }

    /// The heap is well formed.
    pub open spec fn wf(&self) -> bool {
        &&& self.entries_unique()
        &&& protos_valid(self@)
    }

    proof fn lemma_view_at(&self, i: int)
        requires
            0 <= i < self.objects@.len(),
        ensures
            self@.len() == self.objects@.len(),
            self@[i] == self.objects@[i].view(),
    {
    }

    /// An empty heap.
    pub fn new() -> (r: Heap)
        ensures
            r.wf(),
            r@ == Seq::<ObjectView>::empty(),
    {
        let r = Heap { objects: Vec::new() };
        assert(r@ =~= Seq::<ObjectView>::empty());
        r
    }

    /// The number of allocations made so far.
    pub fn len(&self) -> (r: usize)
        ensures
            r == self@.len(),
    {
        self.objects.len()
    }

    /// Whether `o` is a handle of an object of this heap.
    pub fn contains(&self, o: Object) -> (r: bool)
        ensures
            r == valid_in(self@, o),
    {
        let i = match o.as_ptr() {
            ObjectPtr::Allocation(i) => i,
        };
        if i < self.objects.len() {
            proof { self.lemma_view_at(i as int); }
            let stage = match o {
                Object::StageObject(_) => true,
                _ => false,
            };
            stage == self.objects[i].display.is_some()
        } else {
            false
        }
    }
}

impl Object {
    fn slot(self) -> (r: usize)
        ensures
            r == self.index(),
    {
        match self.as_ptr() {
            ObjectPtr::Allocation(i) => i,
        }
    }

    /// The prototype link of this object.
    pub fn proto(self, heap: &Heap) -> (r: Option<Object>)
        requires
            valid_in(heap@, self),
        ensures
            r == heap@[self.index() as int].proto,
    {
        let i = self.slot();
        proof { heap.lemma_view_at(i as int); }
        heap.objects[i].proto
    }

    /// Whether this object has the property `name` itself.
    pub fn has_own_property(self, heap: &Heap, name: &str) -> (r: bool)
        requires
            valid_in(heap@, self),
        ensures
            r == has_own(heap@, self, name@),
    {
        let i = self.slot();
        proof { heap.lemma_view_at(i as int); }
        let key = name.to_owned();
        match find_entry(&heap.objects[i].entries, &key) {
            Some(j) => {
                proof {
                    assert(has_name(heap.objects@[i as int].entries@, name@));
                }
                true
            },
            None => false,
        }
    }

    /// Reads the own property `name` of this object, with receiver `this`;
    /// never looks at the prototype chain.
    pub fn get_local(self, heap: &Heap, name: &str, this: Object) -> (r: Result<ReturnValue, Error>)
        requires
            heap.wf(),
            valid_in(heap@, self),
        ensures
            result_view(r) == Ok::<Outcome, Error>(local_outcome(heap@, self, name@, this)),
    {
        let i = self.slot();
        proof { heap.lemma_view_at(i as int); }
        let key = name.to_owned();
        let entries = &heap.objects[i].entries;
        match find_entry(entries, &key) {
            Some(j) => {
                proof { lemma_entry_at(entries@, j as int); }
                match &entries[j].property {
                    Property::Stored { value, .. } => Ok(ReturnValue::Immediate(value.duplicate())),
                    Property::Virtual { get, .. } => {
                        let args: Vec<Value> = Vec::new();
                        proof { assert(args@ =~= Seq::<Value>::empty()); }
                        Ok(ReturnValue::Invoke { function: *get, this, args })
                    },
                }
            },
            None => Ok(ReturnValue::Immediate(Value::Undefined)),
        }
    }

    /// Reads the property `name`: the object's own, else the first one found
    /// along the prototype chain, read with this object as receiver.
    pub fn get(self, heap: &Heap, name: &str) -> (r: Result<ReturnValue, Error>)
        requires
            heap.wf(),
            valid_in(heap@, self),
        ensures
            result_view(r) == get_outcome(heap@, self, name@),
    {
        if self.has_own_property(heap, name) {
            self.get_local(heap, name, self)
        } else {
            search_prototype(self.proto(heap), name, heap, self)
        }
    }
}

/// Resolves `name` along the prototype chain that starts at `proto`, reading
/// the first match with receiver `this`. Fails once 255 links have been
/// followed without reaching a match or the end of the chain.
pub fn search_prototype(proto: Option<Object>, name: &str, heap: &Heap, this: Object) -> (r: Result<ReturnValue, Error>)
    requires
        heap.wf(),
        match proto {
            Some(p) => valid_in(heap@, p),
            None => true,
        },
    ensures
        result_view(r) == search_outcome(heap@, proto, name@, this, 0),
{
    let mut cur = proto;
    let mut depth: usize = 0;
    while cur.is_some()
        invariant
            heap.wf(),
            depth <= MAX_PROTO_DEPTH,
            match cur {
                Some(p) => valid_in(heap@, p),
                None => true,
            },
            search_outcome(heap@, cur, name@, this, depth as nat)
                == search_outcome(heap@, proto, name@, this, 0),
        decreases MAX_PROTO_DEPTH - depth,
    {
        let p = cur.unwrap();
        proof {
            assert(cur == Some(p));
            assert(search_outcome(heap@, cur, name@, this, depth as nat) == if depth >= 255 {
                Err(Error::PrototypeChainTooDeep)
            } else if has_own(heap@, p, name@) {
                Ok(local_outcome(heap@, p, name@, this))
            } else {
                search_outcome(heap@, heap@[p.index() as int].proto, name@, this, depth as nat + 1)
            });
        }
        if depth == MAX_PROTO_DEPTH {
            return Err(Error::PrototypeChainTooDeep);
        }
        if p.has_own_property(heap, name) {
            return p.get_local(heap, name, this);
        }
        cur = p.proto(heap);
        depth = depth + 1;
    }
    Ok(ReturnValue::Immediate(Value::Undefined))
}


/// `v` with its properties replaced by `p`.
pub open spec fn with_properties(v: ObjectView, p: Map<Seq<char>, Property>) -> ObjectView {
    ObjectView { display: v.display, function: v.function, proto: v.proto, properties: p, array: v.array }
}

/// `v` with its prototype link replaced by `proto`.
pub open spec fn with_proto(v: ObjectView, proto: Option<Object>) -> ObjectView {
    ObjectView { display: v.display, function: v.function, proto, properties: v.properties, array: v.array }
}

/// `v` with its properties and its array storage replaced.
pub open spec fn with_storage(v: ObjectView, p: Map<Seq<char>, Property>, a: Seq<Value>) -> ObjectView {
    ObjectView { display: v.display, function: v.function, proto: v.proto, properties: p, array: a }
}

/// A freshly allocated object.
pub open spec fn fresh_view(
    display: Option<DisplayObject>,
    function: Option<Executable>,
    proto: Option<Object>,
) -> ObjectView {
    ObjectView { display, function, proto, properties: Map::empty(), array: Seq::empty() }
}

pub open spec fn link_valid(heap: Seq<ObjectView>, proto: Option<Object>) -> bool {
    match proto {
        Some(p) => valid_in(heap, p),
        None => true,
    }
}

/// The result and the new heap of writing `value` to the property `name` of `o`.
///
/// A stored property that is not read-only takes the value and keeps its
/// attributes; a missing one is created without attributes; a virtual one
/// hands the value to its setter; read-only and getter-only ones reject it.
pub open spec fn set_effect(heap: Seq<ObjectView>, o: Object, name: Seq<char>, value: Value) -> (
    Result<Outcome, Error>,
    Seq<ObjectView>,
) {
    let i = o.index() as int;
    let props = heap[i].properties;
    let unchanged = Ok(Outcome::Value(Value::Undefined));
    if props.contains_key(name) {
        match props[name] {
            Property::Stored { attributes, .. } => if attributes.read_only {
                (Err(Error::PropertyReadOnly), heap)
            } else {
                (
                    unchanged,
                    heap.update(
                        i,
                        with_properties(heap[i], props.insert(name, Property::Stored { value, attributes })),
                    ),
                )
            },
            Property::Virtual { set, .. } => match set {
                Some(f) => (Ok(Outcome::Call(f, o, seq![value])), heap),
                None => (Err(Error::PropertyReadOnly), heap),
            },
        }
    } else {
        (
            unchanged,
            heap.update(
                i,
                with_properties(
                    heap[i],
                    props.insert(
                        name,
                        Property::Stored {
                            value,
                            attributes: Attributes { hidden: false, permanent: false, read_only: false },
                        },
                    ),
                ),
            ),
        )
    }
}

/// Whether `delete` removes the property `name` of `o`.
pub open spec fn deletable(heap: Seq<ObjectView>, o: Object, name: Seq<char>) -> bool {
    let props = heap[o.index() as int].properties;
    props.contains_key(name) && !props[name].attrs().permanent
}

fn upsert_entry(entries: &mut Vec<Entry>, name: String, property: Property)
    requires
        names_unique(old(entries)@),
    ensures
        names_unique(final(entries)@),
        entries_map(final(entries)@) == entries_map(old(entries)@).insert(name@, property),
{
    match find_entry(entries, &name) {
        Some(j) => {
            let e = Entry { name, property };
            proof { lemma_update(entries@, j as int, e); }
            entries.set(j, e);
        },
        None => {
            let e = Entry { name, property };
            proof { lemma_push(entries@, e); }
            entries.push(e);
        },
    }
}

impl ObjectData {
    fn placeholder() -> (r: ObjectData) {
        ObjectData { display: None, function: None, proto: None, entries: Vec::new(), array: Vec::new() }
    }
}

impl Heap {
    fn take(&mut self, i: usize) -> (d: ObjectData)
        requires
            i < old(self).objects@.len(),
        ensures
            d == old(self).objects@[i as int],
            final(self).objects@.len() == old(self).objects@.len(),
            forall|j: int| 0 <= j < old(self).objects@.len() && j != i
                ==> final(self).objects@[j] == old(self).objects@[j],
    {
        let mut d = ObjectData::placeholder();
        self.objects.set_and_swap(i, &mut d);
        d
    }

    fn restore(&mut self, i: usize, d: ObjectData)
        requires
            i < old(self).objects@.len(),
        ensures
            final(self).objects@ == old(self).objects@.update(i as int, d),
    {
        self.objects.set(i, d);
    }

    proof fn lemma_replaced(&self, prev: &Heap, i: int)
        requires
            prev.wf(),
            0 <= i < prev.objects@.len(),
            self.objects@.len() == prev.objects@.len(),
            forall|j: int| 0 <= j < prev.objects@.len() && j != i ==> self.objects@[j] == prev.objects@[j],
            names_unique(self.objects@[i].entries@),
            self.objects@[i].display == prev.objects@[i].display,
            link_valid(prev@, self.objects@[i].proto),
        ensures
            self@ == prev@.update(i, self.objects@[i].view()),
            self.wf(),
    {
        assert(self@ =~= prev@.update(i, self.objects@[i].view()));
        assert forall|j: int| 0 <= j < self.objects@.len() implies names_unique(#[trigger] self.objects@[j].entries@) by {
            if j != i {
                assert(self.objects@[j] == prev.objects@[j]);
            }
        }
        assert forall|j: int| 0 <= j < self@.len() implies match (#[trigger] self@[j]).proto {
            Some(p) => valid_in(self@, p),
            None => true,
        } by {
            if j != i {
                assert(prev@[j] == self@[j]);
            }
        }
    }

    fn allocate(&mut self, display: Option<DisplayObject>, function: Option<Executable>, proto: Option<Object>) -> (r: Object)
        requires
            old(self).wf(),
            link_valid(old(self)@, proto),
            old(self)@.len() < usize::MAX,
        ensures
            final(self).wf(),
            r.index() == old(self)@.len(),
            (r is StageObject) == display.is_some(),
            final(self)@ == old(self)@.push(fresh_view(display, function, proto)),
    {
        let i = self.objects.len();
        let d = ObjectData { display, function, proto, entries: Vec::new(), array: Vec::new() };
        let ghost prev = *self;
        self.objects.push(d);
        proof {
            assert(entries_map(d.entries@) =~= Map::empty());
            assert(d.view() == fresh_view(display, function, proto));
            assert(self@ =~= prev@.push(fresh_view(display, function, proto)));
            assert forall|j: int| 0 <= j < self.objects@.len() implies names_unique(#[trigger] self.objects@[j].entries@) by {
                if j < i {
                    assert(self.objects@[j] == prev.objects@[j]);
                }
            }
            assert forall|j: int| 0 <= j < self@.len() implies match (#[trigger] self@[j]).proto {
                Some(p) => valid_in(self@, p),
                None => true,
            } by {
                if j < i {
                    assert(prev@[j] == self@[j]);
                }
            }
        }
        match display {
            Some(_) => Object::StageObject(StageObject { ptr: ObjectPtr::Allocation(i) }),
            None => Object::ScriptObject(ScriptObject { ptr: ObjectPtr::Allocation(i) }),
        }
    }

    /// Allocates a plain script object with the prototype link `proto`.
    pub fn new_script_object(&mut self, proto: Option<Object>) -> (r: Object)
        requires
            old(self).wf(),
            link_valid(old(self)@, proto),
            old(self)@.len() < usize::MAX,
        ensures
            final(self).wf(),
            r is ScriptObject,
            r.index() == old(self)@.len(),
            final(self)@ == old(self)@.push(fresh_view(None, None, proto)),
    {
        self.allocate(None, None, proto)
    }

    /// Allocates a script object that runs `function` when called.
    pub fn new_function_object(&mut self, function: Executable, proto: Option<Object>) -> (r: Object)
        requires
            old(self).wf(),
            link_valid(old(self)@, proto),
            old(self)@.len() < usize::MAX,
        ensures
            final(self).wf(),
            r is ScriptObject,
            r.index() == old(self)@.len(),
            final(self)@ == old(self)@.push(fresh_view(None, Some(function), proto)),
    {
        self.allocate(None, Some(function), proto)
    }

    /// Allocates an object backed by the stage node `display`.
    pub fn new_stage_object(&mut self, display: DisplayObject, proto: Option<Object>) -> (r: Object)
        requires
            old(self).wf(),
            link_valid(old(self)@, proto),
            old(self)@.len() < usize::MAX,
        ensures
            final(self).wf(),
            r is StageObject,
            r.index() == old(self)@.len(),
            final(self)@ == old(self)@.push(fresh_view(Some(display), None, proto)),
    {
        self.allocate(Some(display), None, proto)
    }
}

impl Object {
    /// Replaces the prototype link of this object.
    pub fn set_proto(self, heap: &mut Heap, proto: Option<Object>)
        requires
            old(heap).wf(),
            valid_in(old(heap)@, self),
            link_valid(old(heap)@, proto),
        ensures
            final(heap).wf(),
            final(heap)@ == old(heap)@.update(self.index() as int, with_proto(old(heap)@[self.index() as int], proto)),
    {
        let i = self.slot();
        let ghost prev = *heap;
        let mut d = heap.take(i);
        d.proto = proto;
        heap.restore(i, d);
        proof {
            prev.lemma_view_at(i as int);
            heap.lemma_replaced(&prev, i as int);
            assert(d.view() == with_proto(prev@[i as int], proto));
        }
    }

    fn put_property(self, heap: &mut Heap, name: &str, property: Property)
        requires
            old(heap).wf(),
            valid_in(old(heap)@, self),
        ensures
            final(heap).wf(),
            final(heap)@ == old(heap)@.update(
                self.index() as int,
                with_properties(
                    old(heap)@[self.index() as int],
                    old(heap)@[self.index() as int].properties.insert(name@, property),
                ),
            ),
    {
        let i = self.slot();
        let ghost prev = *heap;
        proof { prev.lemma_view_at(i as int); }
        let mut d = heap.take(i);
        upsert_entry(&mut d.entries, name.to_owned(), property);
        heap.restore(i, d);
        proof {
            heap.lemma_replaced(&prev, i as int);
        }
    }

    /// Installs a stored property, replacing whatever slot `name` had; runs no setter.
    pub fn define_value(self, heap: &mut Heap, name: &str, value: Value, attributes: Attributes)
        requires
            old(heap).wf(),
            valid_in(old(heap)@, self),
        ensures
            final(heap).wf(),
            final(heap)@ == old(heap)@.update(
                self.index() as int,
                with_properties(
                    old(heap)@[self.index() as int],
                    old(heap)@[self.index() as int].properties.insert(
                        name@,
                        Property::Stored { value, attributes },
                    ),
                ),
            ),
    {
        self.put_property(heap, name, Property::Stored { value, attributes })
    }

    /// Installs a virtual property, replacing whatever slot `name` had.
    pub fn add_property(
        self,
        heap: &mut Heap,
        name: &str,
        get: Executable,
        set: Option<Executable>,
        attributes: Attributes,
    )
        requires
            old(heap).wf(),
            valid_in(old(heap)@, self),
        ensures
            final(heap).wf(),
            final(heap)@ == old(heap)@.update(
                self.index() as int,
                with_properties(
                    old(heap)@[self.index() as int],
                    old(heap)@[self.index() as int].properties.insert(
                        name@,
                        Property::Virtual { get, set, attributes },
                    ),
                ),
            ),
    {
        self.put_property(heap, name, Property::Virtual { get, set, attributes })
    }

    /// Writes `value` to the own property `name`, as `set_effect` describes.
    pub fn set(self, heap: &mut Heap, name: &str, value: Value) -> (r: Result<ReturnValue, Error>)
        requires
            old(heap).wf(),
            valid_in(old(heap)@, self),
        ensures
            final(heap).wf(),
            (result_view(r), final(heap)@) == set_effect(old(heap)@, self, name@, value),
    {
        let i = self.slot();
        proof { heap.lemma_view_at(i as int); }
        let key = name.to_owned();
        let found = find_entry(&heap.objects[i].entries, &key);
        match found {
            Some(j) => {
                proof { lemma_entry_at(heap.objects@[i as int].entries@, j as int); }
                match &heap.objects[i].entries[j].property {
                    Property::Stored { attributes, .. } => {
                        let attributes = *attributes;
                        if attributes.read_only {
                            Err(Error::PropertyReadOnly)
                        } else {
                            self.put_property(heap, name, Property::Stored { value, attributes });
                            Ok(ReturnValue::Immediate(Value::Undefined))
                        }
                    },
                    Property::Virtual { set, .. } => match set {
                        Some(f) => {
                            let f = *f;
                            let mut args: Vec<Value> = Vec::new();
                            args.push(value);
                            proof { assert(args@ =~= seq![value]); }
                            Ok(ReturnValue::Invoke { function: f, this: self, args })
                        },
                        None => Err(Error::PropertyReadOnly),
                    },
                }
            },
            None => {
                self.put_property(heap, name, Property::Stored { value, attributes: Attributes::empty() });
                Ok(ReturnValue::Immediate(Value::Undefined))
            },
        }
    }

    /// Removes the own property `name`. Returns false, changing nothing, when
    /// there is no such property or it is permanent.
    pub fn delete(self, heap: &mut Heap, name: &str) -> (r: bool)
        requires
            old(heap).wf(),
            valid_in(old(heap)@, self),
        ensures
            final(heap).wf(),
            r == deletable(old(heap)@, self, name@),
            final(heap)@ == if r {
                old(heap)@.update(
                    self.index() as int,
                    with_properties(
                        old(heap)@[self.index() as int],
                        old(heap)@[self.index() as int].properties.remove(name@),
                    ),
                )
            } else {
                old(heap)@
            },
    {
        let i = self.slot();
        let ghost prev = *heap;
        proof { heap.lemma_view_at(i as int); }
        let key = name.to_owned();
        match find_entry(&heap.objects[i].entries, &key) {
            Some(j) => {
                proof { lemma_entry_at(heap.objects@[i as int].entries@, j as int); }
                if heap.objects[i].entries[j].property.attributes().permanent {
                    false
                } else {
                    let mut d = heap.take(i);
                    proof { lemma_remove(d.entries@, j as int); }
                    d.entries.remove(j);
                    heap.restore(i, d);
                    proof { heap.lemma_replaced(&prev, i as int); }
                    true
                }
            },
            None => false,
        }
    }
}


/// Whether `o` has `name` itself or through one of its first 255 ancestors.
pub open spec fn chain_has(heap: Seq<ObjectView>, proto: Option<Object>, name: Seq<char>, depth: nat) -> bool
    decreases 255 - depth,
{
    match proto {
        None => false,
        Some(p) => if depth >= 255 {
            false
        } else if has_own(heap, p, name) {
            true
        } else {
            chain_has(heap, heap[p.index() as int].proto, name, depth + 1)
        },
    }
}

/// Whether `o` has the own property `name` and it is not hidden.
pub open spec fn enumerable(heap: Seq<ObjectView>, o: Object, name: Seq<char>) -> bool {
    let props = heap[o.index() as int].properties;
    props.contains_key(name) && !props[name].attrs().hidden
}

/// The object `k` prototype links above `o` (`o` itself for `k == 0`).
pub open spec fn ancestor(heap: Seq<ObjectView>, o: Object, k: nat) -> Option<Object>
    decreases k,
{
    if k == 0 {
        Some(o)
    } else {
        match ancestor(heap, o, (k - 1) as nat) {
            Some(a) => heap[a.index() as int].proto,
            None => None,
        }
    }
}

/// Whether the allocation of `a` is the `k`-th ancestor of `b`.
pub open spec fn is_ancestor_at(heap: Seq<ObjectView>, a: Object, b: Object, k: nat) -> bool {
    match ancestor(heap, b, k) {
        Some(x) => x.ptr() == a.ptr(),
        None => false,
    }
}

/// Every ancestor of a handle of the heap is a handle of the heap.
pub proof fn lemma_ancestor_valid(heap: Seq<ObjectView>, o: Object, k: nat)
    requires
        protos_valid(heap),
        valid_in(heap, o),
    ensures
        link_valid(heap, ancestor(heap, o, k)),
    decreases k,
{
    if k > 0 {
        lemma_ancestor_valid(heap, o, (k - 1) as nat);
    }
}

/// Once the chain has ended, it stays ended.
pub proof fn lemma_ancestor_ends(heap: Seq<ObjectView>, o: Object, k: nat, m: nat)
    requires
        ancestor(heap, o, k) is None,
        k <= m,
    ensures
        ancestor(heap, o, m) is None,
    decreases m - k,
{
    if k < m {
        lemma_ancestor_ends(heap, o, k, (m - 1) as nat);
    }
}

impl Object {
    /// Whether this object has `name` itself or through one of its first 255
    /// ancestors.
    pub fn has_property(self, heap: &Heap, name: &str) -> (r: bool)
        requires
            heap.wf(),
            valid_in(heap@, self),
        ensures
            r == (has_own(heap@, self, name@) || chain_has(heap@, heap@[self.index() as int].proto, name@, 0)),
    {
        if self.has_own_property(heap, name) {
            return true;
        }
        let ghost start = heap@[self.index() as int].proto;
        let mut cur = self.proto(heap);
        let mut depth: usize = 0;
        while depth < MAX_PROTO_DEPTH
            invariant
                heap.wf(),
                depth <= MAX_PROTO_DEPTH,
                start == heap@[self.index() as int].proto,
                !has_own(heap@, self, name@),
                link_valid(heap@, cur),
                chain_has(heap@, cur, name@, depth as nat) == chain_has(heap@, start, name@, 0),
            decreases MAX_PROTO_DEPTH - depth,
        {
            match cur {
                None => {
                    assert(chain_has(heap@, cur, name@, depth as nat) == false);
                    return false;
                },
                Some(p) => {
                    proof {
                        assert(chain_has(heap@, cur, name@, depth as nat) == if has_own(heap@, p, name@) {
                            true
                        } else {
                            chain_has(heap@, heap@[p.index() as int].proto, name@, depth as nat + 1)
                        });
                    }
                    if p.has_own_property(heap, name) {
                        return true;
                    }
                    cur = p.proto(heap);
                    depth = depth + 1;
                },
            }
        }
        proof {
            assert(chain_has(heap@, cur, name@, depth as nat) == false);
        }
        false
    }

    /// Whether the own property `name` exists and accepts writes: it is not
    /// read-only, and a virtual one has a setter.
    pub fn is_property_overwritable(self, heap: &Heap, name: &str) -> (r: bool)
        requires
            heap.wf(),
            valid_in(heap@, self),
        ensures
            r == {
                let props = heap@[self.index() as int].properties;
                props.contains_key(name@) && !props[name@].attrs().read_only && match props[name@] {
                    Property::Virtual { set, .. } => set.is_some(),
                    Property::Stored { .. } => true,
                }
            },
    {
        let i = self.slot();
        proof { heap.lemma_view_at(i as int); }
        let key = name.to_owned();
        let entries = &heap.objects[i].entries;
        match find_entry(entries, &key) {
            Some(j) => {
                proof { lemma_entry_at(entries@, j as int); }
                let p = &entries[j].property;
                !p.attributes().read_only && match p {
                    Property::Virtual { set, .. } => set.is_some(),
                    Property::Stored { .. } => true,
                }
            },
            None => false,
        }
    }

    /// Whether the own property `name` exists and is not hidden.
    pub fn is_property_enumerable(self, heap: &Heap, name: &str) -> (r: bool)
        requires
            heap.wf(),
            valid_in(heap@, self),
        ensures
            r == enumerable(heap@, self, name@),
    {
        let i = self.slot();
        proof { heap.lemma_view_at(i as int); }
        let key = name.to_owned();
        let entries = &heap.objects[i].entries;
        match find_entry(entries, &key) {
            Some(j) => {
                proof { lemma_entry_at(entries@, j as int); }
                !entries[j].property.attributes().hidden
            },
            None => false,
        }
    }

    /// The names of the own properties that are not hidden, each once, in no
    /// particular order.
    pub fn get_keys(self, heap: &Heap) -> (r: Vec<String>)
        requires
            heap.wf(),
            valid_in(heap@, self),
        ensures
            forall|k: Seq<char>|
                #[trigger] enumerable(heap@, self, k) == (exists|a: int| 0 <= a < r@.len() && (#[trigger] r@[a])@ == k),
            forall|a: int, b: int|
                0 <= a < r@.len() && 0 <= b < r@.len() && (#[trigger] r@[a])@ == (#[trigger] r@[b])@ ==> a == b,
    {
        let i = self.slot();
        proof { heap.lemma_view_at(i as int); }
        let entries = &heap.objects[i].entries;
        let ghost s = entries@;
        let mut keys: Vec<String> = Vec::new();
        let ghost mut from: Seq<int> = Seq::empty();
        let mut j: usize = 0;
        while j < entries.len()
            invariant
                s == entries@,
                names_unique(s),
                j <= s.len(),
                keys@.len() == from.len(),
                forall|a: int| 0 <= a < from.len() ==> 0 <= #[trigger] from[a] < j,
                forall|a: int| 0 <= a < from.len() ==> (#[trigger] keys@[a])@ == s[from[a]].name@,
                forall|a: int| 0 <= a < from.len() ==> !(#[trigger] s[from[a]]).property.attrs().hidden,
                forall|a: int, b: int| 0 <= a < b < from.len() ==> #[trigger] from[a] < #[trigger] from[b],
                forall|c: int| 0 <= c < j && !(#[trigger] s[c]).property.attrs().hidden
                    ==> exists|a: int| 0 <= a < from.len() && from[a] == c,
            decreases s.len() - j,
        {
            let ghost prev = from;
            if !entries[j].property.attributes().hidden {
                keys.push(entries[j].name.clone());
                proof { from = from.push(j as int); }
            }
            proof {
                assert forall|c: int| 0 <= c < j + 1 && !(#[trigger] s[c]).property.attrs().hidden
                    implies exists|a: int| 0 <= a < from.len() && from[a] == c by {
                    if c < j {
                        let a = choose|a: int| 0 <= a < prev.len() && prev[a] == c;
                        assert(from[a] == c);
                    } else {
                        assert(from[from.len() - 1] == c);
                    }
                }
            }
            j = j + 1;
        }
        proof {
            let props = heap@[i as int].properties;
            assert(props == entries_map(s));
            assert forall|k: Seq<char>|
                #[trigger] enumerable(heap@, self, k) == (exists|a: int| 0 <= a < keys@.len() && (#[trigger] keys@[a])@ == k) by {
                if exists|a: int| 0 <= a < keys@.len() && (#[trigger] keys@[a])@ == k {
                    let a = choose|a: int| 0 <= a < keys@.len() && (#[trigger] keys@[a])@ == k;
                    lemma_entry_at(s, from[a]);
                }
                if props.contains_key(k) && !props[k].attrs().hidden {
                    let c = choose|c: int| 0 <= c < s.len() && (#[trigger] s[c]).name@ == k;
                    lemma_entry_at(s, c);
                    let a = choose|a: int| 0 <= a < from.len() && from[a] == c;
                    assert(keys@[a]@ == k);
                }
            }
            assert forall|a: int, b: int|
                0 <= a < keys@.len() && 0 <= b < keys@.len() && (#[trigger] keys@[a])@ == (#[trigger] keys@[b])@
                implies a == b by {
                if a < b {
                    assert(from[a] < from[b]);
                } else if b < a {
                    assert(from[b] < from[a]);
                }
            }
        }
        keys
    }

    /// Whether this object is among the ancestors of `other` (`other` itself
    /// only on a cycle through it). The walk stops once it has taken as many
    /// steps as the heap has objects: every ancestor is reached within them.
    pub fn is_prototype_of(self, heap: &Heap, other: Object) -> (r: bool)
        requires
            heap.wf(),
            valid_in(heap@, other),
        ensures
            r == exists|k: nat| k >= 1 && #[trigger] is_ancestor_at(heap@, self, other, k),
    {
        let r = self.walk_ancestors(heap, other);
        proof {
            if !r {
                assert forall|k: nat| k >= 1 implies !#[trigger] is_ancestor_at(heap@, self, other, k) by {
                    if is_ancestor_at(heap@, self, other, k) {
                        lemma_ancestor_within_heap(heap@, self, other, k);
                    }
                }
            }
        }
        r
    }

    fn walk_ancestors(self, heap: &Heap, other: Object) -> (r: bool)
        requires
            heap.wf(),
            valid_in(heap@, other),
        ensures
            r == exists|k: nat| 1 <= k <= heap@.len() && #[trigger] is_ancestor_at(heap@, self, other, k),
    {
        let n = heap.len();
        let mut cur = other.proto(heap);
        let mut k: usize = 0;
        proof {
            assert(ancestor(heap@, other, 0) == Some(other));
            lemma_ancestor_valid(heap@, other, 1);
        }
        while k < n
            invariant
                heap.wf(),
                valid_in(heap@, other),
                n == heap@.len(),
                k <= n,
                cur == ancestor(heap@, other, k as nat + 1),
                link_valid(heap@, cur),
                forall|m: nat| 1 <= m <= k ==> !#[trigger] is_ancestor_at(heap@, self, other, m),
            decreases n - k,
        {
            match cur {
                None => {
                    proof {
                        assert forall|m: nat| 1 <= m <= heap@.len() implies !#[trigger] is_ancestor_at(heap@, self, other, m) by {
                            if m > k {
                                lemma_ancestor_ends(heap@, other, k as nat + 1, m);
                            }
                        }
                    }
                    return false;
                },
                Some(p) => {
                    if Object::ptr_eq(self, p) {
                        assert(is_ancestor_at(heap@, self, other, k as nat + 1));
                        return true;
                    }
                    cur = p.proto(heap);
                    proof {
                        assert(ancestor(heap@, other, k as nat + 2) == heap@[p.index() as int].proto);
                        lemma_ancestor_valid(heap@, other, k as nat + 2);
                    }
                    k = k + 1;
                },
            }
        }
        false
    }

    /// Calls this object with receiver `this`: a function object asks the VM
    /// to run its function; any other object yields undefined.
    pub fn call(self, heap: &Heap, this: Object, args: Vec<Value>) -> (r: Result<ReturnValue, Error>)
        requires
            valid_in(heap@, self),
        ensures
            result_view(r) == Ok::<Outcome, Error>(match heap@[self.index() as int].function {
                Some(f) => Outcome::Call(f, this, args@),
                None => Outcome::Value(Value::Undefined),
            }),
    {
        let i = self.slot();
        proof { heap.lemma_view_at(i as int); }
        match heap.objects[i].function {
            Some(f) => Ok(ReturnValue::Invoke { function: f, this, args }),
            None => Ok(ReturnValue::Immediate(Value::Undefined)),
        }
    }

    /// Allocates a bare script object whose prototype is `this`; initialising
    /// it is left to calling the constructor.
    pub fn new(self, heap: &mut Heap, this: Object, args: Vec<Value>) -> (r: Result<Object, Error>)
        requires
            old(heap).wf(),
            valid_in(old(heap)@, self),
            valid_in(old(heap)@, this),
            old(heap)@.len() < usize::MAX,
        ensures
            final(heap).wf(),
            match r {
                Ok(o) => o is ScriptObject && o.index() == old(heap)@.len()
                    && final(heap)@ == old(heap)@.push(fresh_view(None, None, Some(this))),
                Err(_) => false,
            },
    {
        Ok(heap.new_script_object(Some(this)))
    }

    /// The script-level string form of this object.
    pub fn as_string(self, heap: &Heap) -> (r: String)
        requires
            valid_in(heap@, self),
        ensures
            r@ == if heap@[self.index() as int].function.is_some() {
                "[type Function]"@
            } else {
                "[object Object]"@
            },
    {
        let i = self.slot();
        proof { heap.lemma_view_at(i as int); }
        if heap.objects[i].function.is_some() {
            String::from_str("[type Function]")
        } else {
            String::from_str("[object Object]")
        }
    }

    /// The script-level type tag of this object.
    pub fn type_of(self, heap: &Heap) -> (r: &'static str)
        requires
            valid_in(heap@, self),
        ensures
            r@ == if heap@[self.index() as int].function.is_some() {
                "function"@
            } else if self is StageObject {
                "movieclip"@
            } else {
                "object"@
            },
    {
        let i = self.slot();
        proof { heap.lemma_view_at(i as int); }
        if heap.objects[i].function.is_some() {
            "function"
        } else {
            match self {
                Object::StageObject(_) => "movieclip",
                Object::ScriptObject(_) => "object",
            }
        }
    }

    /// The stage node behind this object, for a stage-backed one.
    pub fn as_display_object(self, heap: &Heap) -> (r: Option<DisplayObject>)
        requires
            valid_in(heap@, self),
        ensures
            r == heap@[self.index() as int].display,
    {
        let i = self.slot();
        proof { heap.lemma_view_at(i as int); }
        heap.objects[i].display
    }

    /// What calling this object runs, for a function object.
    pub fn as_executable(self, heap: &Heap) -> (r: Option<Executable>)
        requires
            valid_in(heap@, self),
        ensures
            r == heap@[self.index() as int].function,
    {
        let i = self.slot();
        proof { heap.lemma_view_at(i as int); }
        heap.objects[i].function
    }
}


/// Whether `k` is the name of an index in `[lo, hi)`.
pub open spec fn index_in(k: Seq<char>, lo: nat, hi: nat) -> bool {
    exists|i: nat| lo <= i < hi && #[trigger] decimal(i) == k
}

/// The slot that fills a gap of the array view.
pub open spec fn undefined_slot() -> Property {
    Property::Stored {
        value: Value::Undefined,
        attributes: Attributes { hidden: false, permanent: false, read_only: false },
    }
}

/// The properties after the array length goes from `old_len` to `n`: the
/// indices added hold undefined, the indices dropped are gone.
pub open spec fn resized_properties(p: Map<Seq<char>, Property>, old_len: nat, n: nat) -> Map<Seq<char>, Property> {
    Map::new(
        |k: Seq<char>|
            if index_in(k, old_len, n) {
                true
            } else if index_in(k, n, old_len) {
                false
            } else {
                p.contains_key(k)
            },
        |k: Seq<char>|
            if index_in(k, old_len, n) {
                undefined_slot()
            } else {
                p[k]
            },
    )
}

/// The array storage cut or padded with undefined to length `n`.
pub open spec fn resized_array(a: Seq<Value>, n: nat) -> Seq<Value> {
    if n <= a.len() {
        a.subrange(0, n as int)
    } else {
        a + Seq::new((n - a.len()) as nat, |_i: int| Value::Undefined)
    }
}

fn remove_entry(entries: &mut Vec<Entry>, name: &String)
    requires
        names_unique(old(entries)@),
    ensures
        names_unique(final(entries)@),
        entries_map(final(entries)@) == entries_map(old(entries)@).remove(name@),
{
    match find_entry(entries, name) {
        Some(j) => {
            proof { lemma_remove(entries@, j as int); }
            entries.remove(j);
        },
        None => {
            assert(entries_map(entries@).remove(name@) =~= entries_map(entries@));
        },
    }
}

fn undefined_property() -> (r: Property)
    ensures
        r == undefined_slot(),
{
    Property::Stored { value: Value::Undefined, attributes: Attributes::empty() }
}

fn resize(d: &mut ObjectData, n: usize)
    requires
        names_unique(old(d).entries@),
    ensures
        names_unique(final(d).entries@),
        final(d).display == old(d).display,
        final(d).function == old(d).function,
        final(d).proto == old(d).proto,
        final(d).array@ == resized_array(old(d).array@, n as nat),
        entries_map(final(d).entries@) == resized_properties(
            entries_map(old(d).entries@),
            old(d).array@.len(),
            n as nat,
        ),
{
    let ghost d0 = *d;
    let ghost a0 = d.array@;
    let ghost p0 = entries_map(d.entries@);
    let ghost len0 = a0.len();
    proof {
        assert(resized_properties(p0, len0, len0) =~= p0);
        assert(resized_array(a0, len0) =~= a0);
    }
    if n > d.array.len() {
        while d.array.len() < n
            invariant
                names_unique(d.entries@),
                d.display == d0.display,
                d.function == d0.function,
                d.proto == d0.proto,
                len0 == a0.len(),
                len0 <= d.array@.len() <= n,
                d.array@ == resized_array(a0, d.array@.len()),
                entries_map(d.entries@) == resized_properties(p0, len0, d.array@.len()),
            decreases n - d.array@.len(),
        {
            let i = d.array.len();
            let ghost before = entries_map(d.entries@);
            let ghost before_a = d.array@;
            d.array.push(Value::Undefined);
            upsert_entry(&mut d.entries, index_name(i), undefined_property());
            proof {
                let i = i as nat;
                let target = resized_array(a0, i + 1);
                assert forall|j: int| 0 <= j < i + 1 implies #[trigger] d.array@[j] == target[j] by {
                    if j < i {
                        assert(d.array@[j] == before_a[j]);
                        if j < len0 {
                            assert(before_a[j] == a0[j]);
                        }
                    }
                }
                assert(d.array@ =~= target);
                let next = resized_properties(p0, len0, i + 1);
                assert forall|k: Seq<char>| #[trigger] next.contains_key(k)
                    == before.insert(decimal(i), undefined_slot()).contains_key(k) by {
                    if index_in(k, len0, i + 1) && k != decimal(i) {
                        let w = choose|w: nat| len0 <= w < i + 1 && #[trigger] decimal(w) == k;
                        assert(index_in(k, len0, i));
                    }
                    if k == decimal(i) {
                        assert(decimal(i) == k);
                        assert(index_in(k, len0, i + 1));
                    }
                    if index_in(k, len0, i) {
                        let w = choose|w: nat| len0 <= w < i && #[trigger] decimal(w) == k;
                        assert(index_in(k, len0, i + 1));
                    }
                }
                assert forall|k: Seq<char>| #[trigger] next.contains_key(k)
                    implies next[k] == before.insert(decimal(i), undefined_slot())[k] by {
                    if index_in(k, len0, i + 1) && k != decimal(i) {
                        let w = choose|w: nat| len0 <= w < i + 1 && #[trigger] decimal(w) == k;
                        assert(index_in(k, len0, i));
                    }
                    if k == decimal(i) {
                        assert(index_in(k, len0, i + 1));
                    }
                    if index_in(k, len0, i) {
                        let w = choose|w: nat| len0 <= w < i && #[trigger] decimal(w) == k;
                        assert(index_in(k, len0, i + 1));
                    }
                }
                assert(next =~= before.insert(decimal(i), undefined_slot()));
            }
        }
    } else {
        while d.array.len() > n
            invariant
                names_unique(d.entries@),
                d.display == d0.display,
                d.function == d0.function,
                d.proto == d0.proto,
                len0 == a0.len(),
                n <= d.array@.len() <= len0,
                d.array@ == resized_array(a0, d.array@.len()),
                entries_map(d.entries@) == resized_properties(p0, len0, d.array@.len()),
            decreases d.array@.len(),
        {
            let i = d.array.len() - 1;
            let ghost before = entries_map(d.entries@);
            d.array.pop();
            let key = index_name(i);
            remove_entry(&mut d.entries, &key);
            proof {
                let i = i as nat;
                assert(d.array@ =~= resized_array(a0, i));
                let next = resized_properties(p0, len0, i);
                assert forall|k: Seq<char>| #[trigger] next.contains_key(k)
                    == before.remove(decimal(i)).contains_key(k) by {
                    if index_in(k, i, len0) && k != decimal(i) {
                        let w = choose|w: nat| i <= w < len0 && #[trigger] decimal(w) == k;
                        assert(index_in(k, i + 1, len0));
                    }
                    if k == decimal(i) {
                        assert(index_in(k, i, len0));
                    }
                    if index_in(k, i + 1, len0) {
                        let w = choose|w: nat| i + 1 <= w < len0 && #[trigger] decimal(w) == k;
                        assert(index_in(k, i, len0));
                    }
                }
                assert(next =~= before.remove(decimal(i)));
            }
        }
    }
}

impl Object {
    /// The length of this object's array view.
    pub fn get_length(self, heap: &Heap) -> (r: usize)
        requires
            valid_in(heap@, self),
        ensures
            r == heap@[self.index() as int].array.len(),
    {
        let i = self.slot();
        proof { heap.lemma_view_at(i as int); }
        heap.objects[i].array.len()
    }

    /// A copy of this object's array storage.
    pub fn get_array(self, heap: &Heap) -> (r: Vec<Value>)
        requires
            valid_in(heap@, self),
        ensures
            r@ == heap@[self.index() as int].array,
    {
        let i = self.slot();
        proof { heap.lemma_view_at(i as int); }
        let array = &heap.objects[i].array;
        let mut r: Vec<Value> = Vec::new();
        let mut j: usize = 0;
        while j < array.len()
            invariant
                j <= array@.len(),
                r@ == array@.subrange(0, j as int),
            decreases array@.len() - j,
        {
            r.push(array[j].duplicate());
            j = j + 1;
            proof { assert(r@ =~= array@.subrange(0, j as int)); }
        }
        proof { assert(r@ =~= array@); }
        r
    }

    /// Element `index` of the array view; undefined past its end. Never
    /// looks at the prototype chain or runs a getter.
    pub fn get_array_element(self, heap: &Heap, index: usize) -> (r: Value)
        requires
            valid_in(heap@, self),
        ensures
            r == if index < heap@[self.index() as int].array.len() {
                heap@[self.index() as int].array[index as int]
            } else {
                Value::Undefined
            },
    {
        let i = self.slot();
        proof { heap.lemma_view_at(i as int); }
        if index < heap.objects[i].array.len() {
            heap.objects[i].array[index].duplicate()
        } else {
            Value::Undefined
        }
    }

    /// Sets the length of the array view. Indices added hold undefined, both
    /// as elements and as properties; indices dropped leave both storages.
    pub fn set_length(self, heap: &mut Heap, length: usize)
        requires
            old(heap).wf(),
            valid_in(old(heap)@, self),
        ensures
            final(heap).wf(),
            final(heap)@ == old(heap)@.update(
                self.index() as int,
                with_storage(
                    old(heap)@[self.index() as int],
                    resized_properties(
                        old(heap)@[self.index() as int].properties,
                        old(heap)@[self.index() as int].array.len(),
                        length as nat,
                    ),
                    resized_array(old(heap)@[self.index() as int].array, length as nat),
                ),
            ),
    {
        let i = self.slot();
        let ghost prev = *heap;
        proof { prev.lemma_view_at(i as int); }
        let mut d = heap.take(i);
        resize(&mut d, length);
        heap.restore(i, d);
        proof { heap.lemma_replaced(&prev, i as int); }
    }

    /// Stores `value` as element `index` of the array view and as the
    /// property of that index; past the end, the length grows to `index + 1`
    /// and the gap holds undefined. Returns the new length.
    pub fn set_array_element(self, heap: &mut Heap, index: usize, value: Value) -> (r: usize)
        requires
            old(heap).wf(),
            valid_in(old(heap)@, self),
            index < usize::MAX,
        ensures
            final(heap).wf(),
            ({
                let v = old(heap)@[self.index() as int];
                let len = v.array.len();
                &&& r == if index < len { len } else { index as nat + 1 }
                &&& final(heap)@ == old(heap)@.update(
                    self.index() as int,
                    with_storage(
                        v,
                        resized_properties(v.properties, len, if index < len { len } else { index as nat }).insert(
                            decimal(index as nat),
                            Property::Stored { value, attributes: Attributes { hidden: false, permanent: false, read_only: false } },
                        ),
                        resized_array(v.array, r as nat).update(index as int, value),
                    ),
                )
            }),
    {
        let i = self.slot();
        let ghost prev = *heap;
        proof { prev.lemma_view_at(i as int); }
        let mut d = heap.take(i);
        let ghost a0 = d.array@;
        let ghost p0 = entries_map(d.entries@);
        let len = d.array.len();
        let stored = Property::Stored { value: value.duplicate(), attributes: Attributes::empty() };
        let r;
        if index >= len {
            resize(&mut d, index);
            d.array.push(value);
            r = index + 1;
            proof { assert(d.array@ =~= resized_array(a0, r as nat).update(index as int, value)); }
        } else {
            d.array.set(index, value);
            r = len;
            proof {
                assert(resized_properties(p0, len as nat, len as nat) =~= p0);
                assert(resized_array(a0, len as nat) =~= a0);
            }
        }
        upsert_entry(&mut d.entries, index_name(index), stored);
        heap.restore(i, d);
        proof { heap.lemma_replaced(&prev, i as int); }
        r
    }

    /// Removes element `index` from both storages, leaving a hole that reads
    /// as undefined; the length is unchanged. Does nothing past the end.
    pub fn delete_array_element(self, heap: &mut Heap, index: usize)
        requires
            old(heap).wf(),
            valid_in(old(heap)@, self),
        ensures
            final(heap).wf(),
            final(heap)@ == if index < old(heap)@[self.index() as int].array.len() {
                let v = old(heap)@[self.index() as int];
                old(heap)@.update(
                    self.index() as int,
                    with_storage(
                        v,
                        v.properties.remove(decimal(index as nat)),
                        v.array.update(index as int, Value::Undefined),
                    ),
                )
            } else {
                old(heap)@
            },
    {
        let i = self.slot();
        let ghost prev = *heap;
        proof { prev.lemma_view_at(i as int); }
        if index < heap.objects[i].array.len() {
            let mut d = heap.take(i);
            d.array.set(index, Value::Undefined);
            let key = index_name(index);
            remove_entry(&mut d.entries, &key);
            heap.restore(i, d);
            proof { heap.lemma_replaced(&prev, i as int); }
        }
    }
}

} // verus!
