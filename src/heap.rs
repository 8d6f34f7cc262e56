use vstd::prelude::*;

use crate::error::Error;
use crate::local::Local;
use crate::stack::Stack;
use crate::value::{Value, TAG_ARRAY, TAG_CLASS, TAG_DICT, TAG_STRING};

verus! {

/// The number of objects that the heap can name at once.
pub const HANDLE_LIMIT: usize = 0xFFFF_FFFF;

pub struct ObjString {
    pub contents: String,
}

/// A dictionary: each key at most once, in the order of insertion.
pub struct ObjDict {
    pub fields: Vec<(Value, Value)>,
}

pub struct ObjArray {
    pub arr: Vec<Value>,
}

/// An instance of a class: the name of its class and one slot per field.
pub struct ObjClass {
    pub class_name: String,
    pub fields: Vec<Value>,
}

pub enum Object {
    String(ObjString),
    Dict(ObjDict),
    Array(ObjArray),
    Instance(ObjClass),
}

/// The tag of the values that refer to `o`.
pub open spec fn kind_tag(o: Object) -> u64 {
    match o {
        Object::String(_) => TAG_STRING,
        Object::Dict(_) => TAG_DICT,
        Object::Array(_) => TAG_ARRAY,
        Object::Instance(_) => TAG_CLASS,
    }
}

/// The keys and values of a dictionary, alternating, in order.
pub open spec fn dict_children(fields: Seq<(Value, Value)>) -> Seq<Value> {
    Seq::new(
        (2 * fields.len()) as nat,
        |i: int|
            if i % 2 == 0 {
                fields[i / 2].0
            } else {
                fields[i / 2].1
            },
    )
}

/// The values that `o` holds.
pub open spec fn children(o: Object) -> Seq<Value> {
    match o {
        Object::String(_) => Seq::empty(),
        Object::Dict(d) => dict_children(d.fields@),
        Object::Array(a) => a.arr@,
        Object::Instance(c) => c.fields@,
    }
}

/// The value stored under `key` in `fields`, if any.
pub open spec fn dict_get(fields: Seq<(Value, Value)>, key: Value) -> Option<Value> {
    if exists|i: int| 0 <= i < fields.len() && #[trigger] fields[i].0 == key {
        let i = choose|i: int| 0 <= i < fields.len() && #[trigger] fields[i].0 == key;
        Some(fields[i].1)
    } else {
        None
    }
}

pub open spec fn keys_unique(fields: Seq<(Value, Value)>) -> bool {
    forall|i: int, j: int|
        0 <= i < fields.len() && 0 <= j < fields.len() && i != j ==> #[trigger] fields[i].0
            != #[trigger] fields[j].0
}

/// The handle `h` is that of some reference among `roots`.
pub open spec fn root_handle(roots: Seq<Value>, h: int) -> bool {
    exists|j: int| 0 <= j < roots.len() && roots[j].is_heap() && #[trigger] roots[j].spec_payload() == h
}

/// The number of `true` entries of `s`.
pub open spec fn count_true(s: Seq<bool>) -> nat
    decreases s.len(),
{
    if s.len() == 0 {
        0
    } else {
        count_true(s.drop_last()) + if s.last() { 1nat } else { 0nat }
    }
}

/// The number of occupied slots of `s`.
pub open spec fn count_some(s: Seq<Option<Object>>) -> nat
    decreases s.len(),
{
    if s.len() == 0 {
        0
    } else {
        count_some(s.drop_last()) + if s.last() is Some { 1nat } else { 0nat }
    }
}

proof fn lemma_count_true_bound(s: Seq<bool>)
    ensures
        count_true(s) <= s.len(),
    decreases s.len(),
{
    if s.len() > 0 {
        lemma_count_true_bound(s.drop_last());
    }
}

proof fn lemma_count_true_update(s: Seq<bool>, i: int)
    requires
        0 <= i < s.len(),
        !s[i],
    ensures
        count_true(s.update(i, true)) == count_true(s) + 1,
    decreases s.len(),
{
    let t = s.update(i, true);
    if i == s.len() - 1 {
        assert(t.drop_last() =~= s.drop_last());
    } else {
        assert(t.drop_last() =~= s.drop_last().update(i, true));
        lemma_count_true_update(s.drop_last(), i);
    }
}

/// Two slot tables with the same occupied slots hold as many objects.
pub proof fn lemma_count_some_same(a: Seq<Option<Object>>, b: Seq<Option<Object>>)
    requires
        a.len() == b.len(),
        forall|i: int| 0 <= i < a.len() ==> (a[i] is Some <==> b[i] is Some),
    ensures
        count_some(a) == count_some(b),
    decreases a.len(),
{
    if a.len() > 0 {
        lemma_count_some_same(a.drop_last(), b.drop_last());
    }
}

pub proof fn lemma_count_some_none(s: Seq<Option<Object>>)
    requires
        forall|i: int| 0 <= i < s.len() ==> s[i] is None,
    ensures
        count_some(s) == 0,
    decreases s.len(),
{
    if s.len() > 0 {
        lemma_count_some_none(s.drop_last());
    }
}

/// Marks `h`; tells whether it was unmarked, in which case it joins the worklist.
fn mark_handle(marks: &mut Vec<bool>, worklist: &mut Vec<usize>, h: usize) -> (newly: bool)
    requires
        h < old(marks)@.len(),
    ensures
        newly == !old(marks)@[h as int],
        final(marks)@ == old(marks)@.update(h as int, true),
        final(worklist)@ == if newly {
            old(worklist)@.push(h)
        } else {
            old(worklist)@
        },
{
    if marks[h] {
        false
    } else {
        marks.set(h, true);
        worklist.push(h);
        true
    }
}

/// The garbage-collected heap: a table of slots, each empty or holding one object.
/// The handle of an object is the index of its slot.
pub struct Heap {
    slots: Vec<Option<Object>>,
    free: Vec<usize>,
}

impl ObjDict {
    pub open spec fn wf(&self) -> bool {
        keys_unique(self.fields@)
    }

    /// Every value held by the dictionary: its keys and its values, alternating.
    pub fn values(&self) -> (r: Vec<Value>)
        ensures
            r@ == dict_children(self.fields@),
    {
        let mut r: Vec<Value> = Vec::new();
        let mut i: usize = 0;
        while i < self.fields.len()
            invariant
                i <= self.fields@.len(),
                r@ == dict_children(self.fields@.subrange(0, i as int)),
            decreases self.fields@.len() - i,
        {
            let (k, v) = self.fields[i];
            r.push(k);
            r.push(v);
            i = i + 1;
            proof {
                assert(r@ =~= dict_children(self.fields@.subrange(0, i as int)));
            }
        }
        proof {
            assert(self.fields@.subrange(0, i as int) =~= self.fields@);
        }
        r
    }
}

impl ObjDict {
    /// The references among the keys and values: exactly the heap-tagged ones.
    pub fn refs(&self) -> (r: Vec<Value>)
        ensures
            refs_of(dict_children(self.fields@), r@),
    {
        heap_refs(&self.values())
    }
}

impl ObjArray {
    /// Every value held by the array.
    pub fn values(&self) -> (r: Vec<Value>)
        ensures
            r@ == self.arr@,
    {
        self.arr.clone()
    }

    /// The references among the slots: exactly the heap-tagged ones.
    pub fn refs(&self) -> (r: Vec<Value>)
        ensures
            refs_of(self.arr@, r@),
    {
        heap_refs(&self.arr)
    }
}

impl ObjClass {
    /// Every value held by the instance's slots.
    pub fn values(&self) -> (r: Vec<Value>)
        ensures
            r@ == self.fields@,
    {
        self.fields.clone()
    }

    /// The references among the slots: exactly the heap-tagged ones.
    pub fn refs(&self) -> (r: Vec<Value>)
        ensures
            refs_of(self.fields@, r@),
    {
        heap_refs(&self.fields)
    }
}

/// As sets, `r` is the heap-tagged values of `s`.
pub open spec fn refs_of(s: Seq<Value>, r: Seq<Value>) -> bool {
    &&& forall|i: int| 0 <= i < r.len() ==> (#[trigger] r[i]).is_heap() && s.contains(r[i])
    &&& forall|i: int| 0 <= i < s.len() && (#[trigger] s[i]).is_heap() ==> r.contains(s[i])
}

/// The heap-tagged values of `values`, in order.
pub fn heap_refs(values: &Vec<Value>) -> (r: Vec<Value>)
    ensures
        refs_of(values@, r@),
{
    let mut r: Vec<Value> = Vec::new();
    let mut i: usize = 0;
    while i < values.len()
        invariant
            i <= values@.len(),
            forall|k: int| 0 <= k < r@.len() ==> (#[trigger] r@[k]).is_heap() && values@.contains(r@[k]),
            forall|k: int| 0 <= k < i && (#[trigger] values@[k]).is_heap() ==> r@.contains(values@[k]),
        decreases values@.len() - i,
    {
        let v = values[i];
        let t = v.tag();
        if t >= TAG_STRING && t <= TAG_CLASS {
            let ghost r0 = r@;
            r.push(v);
            proof {
                assert(values@.contains(v)) by {
                    assert(values@[i as int] == v);
                }
                assert forall|k: int| 0 <= k < i + 1 && (#[trigger] values@[k]).is_heap() implies r@.contains(values@[k]) by {
                    if k < i {
                        let z = choose|z: int| 0 <= z < r0.len() && r0[z] == values@[k];
                        assert(r@[z] == values@[k]);
                    } else {
                        assert(r@[r0.len() as int] == v);
                    }
                }
            }
        }
        i = i + 1;
    }
    r
}

impl Heap {
    pub closed spec fn objects(&self) -> Seq<Option<Object>> {
        self.slots@
    }

    pub open spec fn live(&self, h: int) -> bool {
        0 <= h < self.objects().len() && self.objects()[h] is Some
    }

    pub open spec fn object(&self, h: int) -> Object {
        self.objects()[h]->Some_0
    }

    /// The handles of the live objects.
    pub open spec fn live_set(&self) -> Set<int> {
        Set::new(|h: int| self.live(h))
    }

    /// `v` is not a reference, or refers to a live object of its kind.
    pub open spec fn valid_value(&self, v: Value) -> bool {
        v.is_heap() ==> {
            &&& self.live(v.spec_payload() as int)
            &&& kind_tag(self.object(v.spec_payload() as int)) == v.spec_tag()
        }
    }

    pub open spec fn valid_values(&self, s: Seq<Value>) -> bool {
        forall|i: int| 0 <= i < s.len() ==> self.valid_value(#[trigger] s[i])
    }

    pub open spec fn object_ok(&self, o: Object) -> bool {
        &&& self.valid_values(children(o))
        &&& (o matches Object::Dict(d) ==> d.wf())
    }

    pub closed spec fn free_ok(&self) -> bool {
        &&& forall|i: int|
            0 <= i < self.free@.len() ==> #[trigger] self.free@[i] < self.slots@.len()
                && self.slots@[self.free@[i] as int] is None
        &&& forall|i: int, j: int|
            0 <= i < self.free@.len() && 0 <= j < self.free@.len() && i != j ==> #[trigger] self.free@[i]
                != #[trigger] self.free@[j]
    }

    /// Room for one more object.
    pub closed spec fn has_room(&self) -> bool {
        self.free@.len() > 0 || self.slots@.len() < HANDLE_LIMIT
    }

    /// Every live object holds only valid values.
    pub open spec fn wf(&self) -> bool {
        &&& self.objects().len() <= HANDLE_LIMIT
        &&& self.free_ok()
        &&& forall|h: int| #[trigger] self.live(h) ==> self.object_ok(self.object(h))
    }

    /// Nothing but the object `h`, which was not live, changed, and `h` now holds `o`.
    pub open spec fn allocated(&self, old_heap: &Heap, h: int, o: Object) -> bool {
        &&& !old_heap.live(h)
        &&& self.live(h)
        &&& self.object(h) == o
        &&& self.objects().len() >= old_heap.objects().len()
        &&& forall|g: int| g != h && 0 <= g < old_heap.objects().len() ==> self.objects()[g] == old_heap.objects()[g]
        &&& forall|g: int| g != h && old_heap.objects().len() <= g < self.objects().len() ==> self.objects()[g] is None
    }

    pub fn new() -> (r: Heap)
        ensures
            r.wf(),
            r.objects().len() == 0,
            r.live_set() == Set::<int>::empty(),
    {
        let r = Heap { slots: Vec::new(), free: Vec::new() };
        assert(r.live_set() =~= Set::<int>::empty());
        r
    }

    /// An allocation keeps every valid value valid.
    pub proof fn lemma_alloc_keeps_valid(&self, old_heap: &Heap, h: int, o: Object, v: Value)
        requires
            self.allocated(old_heap, h, o),
            old_heap.valid_value(v),
        ensures
            self.valid_value(v),
    {
    }

    fn place(&mut self, o: Object) -> (r: Result<Value, Error>)
        requires
            old(self).wf(),
            old(self).object_ok(o),
        ensures
            forall|x: Value| old(self).valid_value(x) ==> #[trigger] final(self).valid_value(x),
            final(self).wf(),
            r is Err <==> !old(self).has_room(),
            r is Err ==> r == Err::<Value, Error>(Error::HeapExhausted) && *final(self) == *old(self),
            r matches Ok(v) ==> {
                &&& v.spec_tag() == kind_tag(o)
                &&& v.is_heap()
                &&& final(self).allocated(old(self), v.spec_payload() as int, o)
                &&& final(self).valid_value(v)
            },
    {
        let tag = match &o {
            Object::String(_) => TAG_STRING,
            Object::Dict(_) => TAG_DICT,
            Object::Array(_) => TAG_ARRAY,
            Object::Instance(_) => TAG_CLASS,
        };
        let ghost go = o;
        let h: usize;
        if self.free.len() > 0 {
            let f = self.free.pop().unwrap();
            h = f;
            self.slots.set(h, Some(o));
        } else if self.slots.len() < HANDLE_LIMIT {
            h = self.slots.len();
            self.slots.push(Some(o));
        } else {
            return Err(Error::HeapExhausted);
        }
        proof {
            assert forall|g: int| #[trigger] self.live(g) implies self.object_ok(self.object(g)) by {
                if g != h {
                    assert(old(self).live(g));
                    let og = old(self).object(g);
                    assert forall|i: int| 0 <= i < children(og).len() implies self.valid_value(
                        #[trigger] children(og)[i],
                    ) by {
                        assert(old(self).valid_value(children(og)[i]));
                    }
                } else {
                    assert forall|i: int| 0 <= i < children(go).len() implies self.valid_value(
                        #[trigger] children(go)[i],
                    ) by {
                        assert(old(self).valid_value(children(go)[i]));
                    }
                }
            }
            assert forall|i: int| 0 <= i < self.free@.len() implies #[trigger] self.free@[i]
                < self.slots@.len() && self.slots@[self.free@[i] as int] is None by {
                assert(old(self).free@[i] == self.free@[i]);
                if old(self).free@.len() > self.free@.len() {
                    assert(old(self).free@[old(self).free@.len() - 1] == h);
                }
            }
        }
        proof {
            assert forall|x: Value| old(self).valid_value(x) implies #[trigger] self.valid_value(x) by {
                self.lemma_alloc_keeps_valid(old(self), h as int, go, x);
            }
        }
        Ok(Value::mk_reference(tag, h as u64))
    }

    /// Whether `v` is valid here: not a reference, or one to a live object of its kind.
    pub fn check_value(&self, v: Value) -> (r: bool)
        ensures
            r == self.valid_value(v),
    {
        let t = v.tag();
        if t < TAG_STRING || t > TAG_CLASS {
            return true;
        }
        let h = v.reference();
        if h >= self.slots.len() as u64 {
            return false;
        }
        match &self.slots[h as usize] {
            None => false,
            Some(o) => {
                let k = match o {
                    Object::String(_) => TAG_STRING,
                    Object::Dict(_) => TAG_DICT,
                    Object::Array(_) => TAG_ARRAY,
                    Object::Instance(_) => TAG_CLASS,
                };
                k == t
            },
        }
    }

    pub fn alloc_string(&mut self, s: String) -> (r: Result<Value, Error>)
        requires
            old(self).wf(),
        ensures
            forall|x: Value| old(self).valid_value(x) ==> #[trigger] final(self).valid_value(x),
            final(self).wf(),
            r is Err <==> !old(self).has_room(),
            r is Err ==> r == Err::<Value, Error>(Error::HeapExhausted) && *final(self) == *old(self),
            r matches Ok(v) ==> {
                &&& v.spec_tag() == TAG_STRING
                &&& final(self).valid_value(v)
                &&& final(self).object(v.spec_payload() as int) matches Object::String(o) && o.contents@ == s@
                &&& final(self).allocated(old(self), v.spec_payload() as int, final(self).object(v.spec_payload() as int))
            },
    {
        self.place(Object::String(ObjString { contents: s }))
    }

    pub fn alloc_dict(&mut self) -> (r: Result<Value, Error>)
        requires
            old(self).wf(),
        ensures
            forall|x: Value| old(self).valid_value(x) ==> #[trigger] final(self).valid_value(x),
            final(self).wf(),
            r is Err <==> !old(self).has_room(),
            r is Err ==> r == Err::<Value, Error>(Error::HeapExhausted) && *final(self) == *old(self),
            r matches Ok(v) ==> {
                &&& v.spec_tag() == TAG_DICT
                &&& final(self).valid_value(v)
                &&& final(self).object(v.spec_payload() as int) matches Object::Dict(o) && o.fields@.len() == 0
                &&& final(self).allocated(old(self), v.spec_payload() as int, final(self).object(v.spec_payload() as int))
            },
    {
        self.place(Object::Dict(ObjDict { fields: Vec::new() }))
    }

    /// An array of `size` slots, each null; a negative size is out of bounds.
    pub fn alloc_array(&mut self, size: i32) -> (r: Result<Value, Error>)
        requires
            old(self).wf(),
        ensures
            forall|x: Value| old(self).valid_value(x) ==> #[trigger] final(self).valid_value(x),
            final(self).wf(),
            size < 0 ==> r == Err::<Value, Error>(Error::IndexOutOfBounds) && *final(self) == *old(self),
            size >= 0 ==> (r is Err <==> !old(self).has_room()),
            size >= 0 && r is Err ==> r == Err::<Value, Error>(Error::HeapExhausted) && *final(self) == *old(self),
            r matches Ok(v) ==> {
                &&& v.spec_tag() == TAG_ARRAY
                &&& final(self).valid_value(v)
                &&& final(self).object(v.spec_payload() as int) matches Object::Array(o)
                    && o.arr@ == Seq::new(size as nat, |i: int| Value(0))
                &&& final(self).allocated(old(self), v.spec_payload() as int, final(self).object(v.spec_payload() as int))
            },
    {
        if size < 0 {
            return Err(Error::IndexOutOfBounds);
        }
        let n = size as usize;
        let mut arr: Vec<Value> = Vec::new();
        let mut i: usize = 0;
        while i < n
            invariant
                i <= n,
                arr@ == Seq::new(i as nat, |j: int| Value(0)),
            decreases n - i,
        {
            arr.push(Value::null());
            i = i + 1;
            proof {
                assert(arr@ =~= Seq::new(i as nat, |j: int| Value(0)));
            }
        }
        let ghost g = arr@;
        let o = Object::Array(ObjArray { arr });
        proof {
            assert forall|j: int| 0 <= j < children(o).len() implies self.valid_value(
                #[trigger] children(o)[j],
            ) by {
                assert(children(o)[j] == Value(0));
                crate::value::lemma_tag_bound(0);
                assert(0u64 >> 60 == 0) by (bit_vector);
            }
        }
        self.place(o)
    }

    /// An instance of the class `class_name` with `field_count` slots, each null.
    pub fn alloc_instance(&mut self, class_name: String, field_count: usize) -> (r: Result<
        Value,
        Error,
    >)
        requires
            old(self).wf(),
        ensures
            forall|x: Value| old(self).valid_value(x) ==> #[trigger] final(self).valid_value(x),
            final(self).wf(),
            r is Err <==> !old(self).has_room(),
            r is Err ==> r == Err::<Value, Error>(Error::HeapExhausted) && *final(self) == *old(self),
            r matches Ok(v) ==> {
                &&& v.spec_tag() == TAG_CLASS
                &&& final(self).valid_value(v)
                &&& final(self).object(v.spec_payload() as int) matches Object::Instance(o)
                    && o.fields@ == Seq::new(field_count as nat, |i: int| Value(0))
                    && o.class_name@ == class_name@
                &&& final(self).allocated(old(self), v.spec_payload() as int, final(self).object(v.spec_payload() as int))
            },
    {
        let mut arr: Vec<Value> = Vec::new();
        let mut i: usize = 0;
        while i < field_count
            invariant
                i <= field_count,
                arr@ == Seq::new(i as nat, |j: int| Value(0)),
            decreases field_count - i,
        {
            arr.push(Value::null());
            i = i + 1;
            proof {
                assert(arr@ =~= Seq::new(i as nat, |j: int| Value(0)));
            }
        }
        let o = Object::Instance(ObjClass { class_name, fields: arr });
        proof {
            assert forall|j: int| 0 <= j < children(o).len() implies self.valid_value(
                #[trigger] children(o)[j],
            ) by {
                assert(children(o)[j] == Value(0));
                assert(0u64 >> 60 == 0) by (bit_vector);
            }
        }
        self.place(o)
    }

    /// Both heaps have the same objects live, each of the same kind.
    pub open spec fn same_shape(&self, other: &Heap) -> bool {
        &&& self.objects().len() == other.objects().len()
        &&& forall|g: int| #[trigger] self.live(g) == other.live(g)
        &&& forall|g: int| #[trigger] self.live(g) ==> kind_tag(self.object(g)) == kind_tag(other.object(g))
    }

    /// Every object but `h` is as in `other`.
    pub open spec fn same_except(&self, other: &Heap, h: int) -> bool {
        &&& self.same_shape(other)
        &&& forall|g: int| g != h && #[trigger] self.live(g) ==> self.object(g) == other.object(g)
    }

    /// The error that a reference `r` expected of kind `tag` gives, if any.
    pub open spec fn ref_error(&self, r: Value, tag: u64) -> Option<Error> {
        if r.0 == 0 {
            Some(Error::NullDereference)
        } else if r.spec_tag() != tag {
            Some(Error::TypeMismatch)
        } else {
            None
        }
    }

    /// The handle of `r`, checked to be a reference of kind `tag`.
    fn check_ref(&self, r: Value, tag: u64) -> (res: Result<usize, Error>)
        requires
            self.wf(),
            self.valid_value(r),
            crate::value::is_heap_tag(tag),
        ensures
            self.ref_error(r, tag) matches Some(e) ==> res == Err::<usize, Error>(e),
            self.ref_error(r, tag) is None ==> (res matches Ok(h) && h == r.spec_payload() && self.live(h as int)
                && kind_tag(self.object(h as int)) == tag),
    {
        if !r.is_not_null() {
            return Err(Error::NullDereference);
        }
        if r.tag() != tag {
            return Err(Error::TypeMismatch);
        }
        let h = r.reference();
        Ok(h as usize)
    }

    /// Takes the object out of slot `h`, leaving it empty.
    fn take(&mut self, h: usize) -> (r: Option<Object>)
        requires
            h < old(self).objects().len(),
        ensures
            r == old(self).objects()[h as int],
            final(self).objects() == old(self).objects().update(h as int, None),
            final(self).free@ == old(self).free@,
    {
        let mut t: Option<Object> = None;
        core::mem::swap(&mut self.slots[h], &mut t);
        t
    }

    /// The number of slots of the array `r`.
    pub fn array_len(&self, r: Value) -> (res: Result<usize, Error>)
        requires
            self.wf(),
            self.valid_value(r),
        ensures
            self.ref_error(r, TAG_ARRAY) matches Some(e) ==> res == Err::<usize, Error>(e),
            self.ref_error(r, TAG_ARRAY) is None ==> (self.object(r.spec_payload() as int) matches Object::Array(a)
                && res == Ok::<usize, Error>(a.arr@.len() as usize)),
    {
        let h = self.check_ref(r, TAG_ARRAY)?;
        match &self.slots[h] {
            Some(Object::Array(a)) => Ok(a.arr.len()),
            _ => Err(Error::TypeMismatch),
        }
    }

    /// The slots of the array `r`.
    pub fn array_values(&self, r: Value) -> (res: Result<&Vec<Value>, Error>)
        requires
            self.wf(),
            self.valid_value(r),
        ensures
            self.ref_error(r, TAG_ARRAY) matches Some(e) ==> res == Err::<&Vec<Value>, Error>(e),
            self.ref_error(r, TAG_ARRAY) is None ==> (self.object(r.spec_payload() as int) matches Object::Array(a)
                && res matches Ok(v) && v@ == a.arr@),
    {
        let h = self.check_ref(r, TAG_ARRAY)?;
        match &self.slots[h] {
            Some(Object::Array(a)) => Ok(&a.arr),
            _ => Err(Error::TypeMismatch),
        }
    }

    /// The slot `index` of the array `r`.
    pub fn array_get(&self, r: Value, index: i32) -> (res: Result<Value, Error>)
        requires
            self.wf(),
            self.valid_value(r),
        ensures
            self.ref_error(r, TAG_ARRAY) matches Some(e) ==> res == Err::<Value, Error>(e),
            self.ref_error(r, TAG_ARRAY) is None ==> (self.object(r.spec_payload() as int) matches Object::Array(a)
                && if 0 <= index < a.arr@.len() {
                    res == Ok::<Value, Error>(a.arr@[index as int])
                } else {
                    res == Err::<Value, Error>(Error::IndexOutOfBounds)
                }),
            res matches Ok(v) ==> self.valid_value(v),
    {
        let h = self.check_ref(r, TAG_ARRAY)?;
        match &self.slots[h] {
            Some(Object::Array(a)) => {
                if index < 0 || index as usize >= a.arr.len() {
                    Err(Error::IndexOutOfBounds)
                } else {
                    proof {
                        assert(self.live(h as int));
                        assert(children(self.object(h as int))[index as int] == a.arr@[index as int]);
                    }
                    Ok(a.arr[index as usize])
                }
            },
            _ => Err(Error::TypeMismatch),
        }
    }

    /// Stores `v` in slot `index` of the array `r`.
    pub fn array_set(&mut self, r: Value, index: i32, v: Value) -> (res: Result<(), Error>)
        requires
            old(self).wf(),
            old(self).valid_value(r),
            old(self).valid_value(v),
        ensures
            final(self).wf(),
            old(self).ref_error(r, TAG_ARRAY) matches Some(e) ==> res == Err::<(), Error>(e) && *final(self) == *old(self),
            old(self).ref_error(r, TAG_ARRAY) is None ==> (old(self).object(r.spec_payload() as int) matches Object::Array(a)
                && if 0 <= index < a.arr@.len() {
                    &&& res == Ok::<(), Error>(())
                    &&& final(self).same_except(old(self), r.spec_payload() as int)
                    &&& final(self).object(r.spec_payload() as int) matches Object::Array(b)
                    &&& b.arr@ == a.arr@.update(index as int, v)
                } else {
                    res == Err::<(), Error>(Error::IndexOutOfBounds) && *final(self) == *old(self)
                }),
            forall|x: Value| old(self).valid_value(x) ==> #[trigger] final(self).valid_value(x),
    {
        let h = self.check_ref(r, TAG_ARRAY)?;
        let len = match &self.slots[h] {
            Some(Object::Array(a)) => a.arr.len(),
            _ => 0,
        };
        if index < 0 || index as usize >= len {
            return Err(Error::IndexOutOfBounds);
        }
        let ghost old_heap = *self;
        let o = self.take(h);
        match o {
            Some(Object::Array(mut a)) => {
                a.arr.set(index as usize, v);
                self.slots.set(h, Some(Object::Array(a)));
            },
            Some(other) => {
                self.slots.set(h, Some(other));
            },
            None => {},
        }
        proof {
            assert(self.objects().len() == old_heap.objects().len());
            assert forall|g: int| #[trigger] self.live(g) implies self.object_ok(self.object(g)) by {
                assert(old_heap.live(g));
                let og = old_heap.object(g);
                assert forall|i: int| 0 <= i < children(self.object(g)).len() implies self.valid_value(
                    #[trigger] children(self.object(g))[i],
                ) by {
                    if g == h && i == index {
                    } else {
                        assert(children(self.object(g))[i] == children(og)[i]);
                        assert(old_heap.valid_value(children(og)[i]));
                    }
                }
            }
            assert(self.free_ok());
        }
        Ok(())
    }

    /// The contents of the string `r`.
    pub fn string_contents(&self, r: Value) -> (res: Result<&String, Error>)
        requires
            self.wf(),
            self.valid_value(r),
        ensures
            self.ref_error(r, TAG_STRING) matches Some(e) ==> res == Err::<&String, Error>(e),
            self.ref_error(r, TAG_STRING) is None ==> (self.object(r.spec_payload() as int) matches Object::String(o)
                && res matches Ok(c) && c@ == o.contents@),
    {
        let h = self.check_ref(r, TAG_STRING)?;
        match &self.slots[h] {
            Some(Object::String(o)) => Ok(&o.contents),
            _ => Err(Error::TypeMismatch),
        }
    }

    /// The entries of the dictionary `r`, in the order of insertion.
    pub fn dict_entries(&self, r: Value) -> (res: Result<&Vec<(Value, Value)>, Error>)
        requires
            self.wf(),
            self.valid_value(r),
        ensures
            self.ref_error(r, TAG_DICT) matches Some(e) ==> res == Err::<&Vec<(Value, Value)>, Error>(e),
            self.ref_error(r, TAG_DICT) is None ==> (self.object(r.spec_payload() as int) matches Object::Dict(d)
                && res matches Ok(f) && f@ == d.fields@),
    {
        let h = self.check_ref(r, TAG_DICT)?;
        match &self.slots[h] {
            Some(Object::Dict(d)) => Ok(&d.fields),
            _ => Err(Error::TypeMismatch),
        }
    }

    /// The instance `r`: its class name and its slots.
    pub fn instance(&self, r: Value) -> (res: Result<&ObjClass, Error>)
        requires
            self.wf(),
            self.valid_value(r),
        ensures
            self.ref_error(r, TAG_CLASS) matches Some(e) ==> res == Err::<&ObjClass, Error>(e),
            self.ref_error(r, TAG_CLASS) is None ==> (self.object(r.spec_payload() as int) matches Object::Instance(o)
                && res matches Ok(c) && c.fields@ == o.fields@ && c.class_name@ == o.class_name@),
    {
        let h = self.check_ref(r, TAG_CLASS)?;
        match &self.slots[h] {
            Some(Object::Instance(o)) => Ok(o),
            _ => Err(Error::TypeMismatch),
        }
    }

    /// The value stored under `key` in the dictionary `r`; null where there is none.
    pub fn get_dict(&self, r: Value, key: Value) -> (res: Result<Value, Error>)
        requires
            self.wf(),
            self.valid_value(r),
        ensures
            self.ref_error(r, TAG_DICT) matches Some(e) ==> res == Err::<Value, Error>(e),
            self.ref_error(r, TAG_DICT) is None ==> (self.object(r.spec_payload() as int) matches Object::Dict(d)
                && res == Ok::<Value, Error>(match dict_get(d.fields@, key) {
                    Some(v) => v,
                    None => Value(0),
                })),
            res matches Ok(v) ==> self.valid_value(v),
    {
        let h = self.check_ref(r, TAG_DICT)?;
        match &self.slots[h] {
            Some(Object::Dict(d)) => {
                let mut i: usize = 0;
                proof {
                    assert(self.object(h as int) == Object::Dict(*d));
                }
                while i < d.fields.len()
                    invariant
                        i <= d.fields@.len(),
                        self.wf(),
                        self.live(h as int),
                        self.object(h as int) == Object::Dict(*d),
                        self.ref_error(r, TAG_DICT) is None,
                        h == r.spec_payload(),
                        forall|j: int| 0 <= j < i ==> #[trigger] d.fields@[j].0 != key,
                    decreases d.fields@.len() - i,
                {
                    if d.fields[i].0 == key {
                        proof {
                            assert(self.object_ok(self.object(h as int)));
                            assert(d.wf());
                            let c = choose|j: int| 0 <= j < d.fields@.len() && #[trigger] d.fields@[j].0 == key;
                            assert(c == i);
                            assert(children(self.object(h as int))[2 * i + 1] == d.fields@[i as int].1);
                        }
                        return Ok(d.fields[i].1);
                    }
                    i = i + 1;
                }
                proof {
                    assert(crate::value::tag_of(0) == 0) by (bit_vector);
                }
                Ok(Value::null())
            },
            _ => Err(Error::TypeMismatch),
        }
    }

    /// Stores `v` under `key` in the dictionary `r`, replacing what was there.
    pub fn set_dict(&mut self, r: Value, key: Value, v: Value) -> (res: Result<(), Error>)
        requires
            old(self).wf(),
            old(self).valid_value(r),
            old(self).valid_value(key),
            old(self).valid_value(v),
        ensures
            final(self).wf(),
            old(self).ref_error(r, TAG_DICT) matches Some(e) ==> res == Err::<(), Error>(e) && *final(self) == *old(self),
            old(self).ref_error(r, TAG_DICT) is None ==> ({
                &&& res == Ok::<(), Error>(())
                &&& final(self).same_except(old(self), r.spec_payload() as int)
                &&& old(self).object(r.spec_payload() as int) matches Object::Dict(a)
                &&& final(self).object(r.spec_payload() as int) matches Object::Dict(b)
                &&& dict_get(b.fields@, key) == Some(v)
                &&& forall|k: Value| k != key ==> #[trigger] dict_get(b.fields@, k) == dict_get(a.fields@, k)
            }),
            forall|x: Value| old(self).valid_value(x) ==> #[trigger] final(self).valid_value(x),
    {
        let h = self.check_ref(r, TAG_DICT)?;
        let ghost old_heap = *self;
        let o = self.take(h);
        match o {
            Some(Object::Dict(mut d)) => {
                let ghost f0 = d.fields@;
                let n = d.fields.len();
                let mut i: usize = 0;
                let mut idx: usize = n;
                while i < n
                    invariant
                        i <= n,
                        n == f0.len(),
                        d.fields@ == f0,
                        idx == n ==> forall|j: int| 0 <= j < i ==> #[trigger] f0[j].0 != key,
                        idx < n ==> f0[idx as int].0 == key,
                        idx <= n,
                    decreases n - i,
                {
                    if idx == n && d.fields[i].0 == key {
                        idx = i;
                    }
                    i = i + 1;
                }
                if idx < n {
                    d.fields.set(idx, (key, v));
                } else {
                    d.fields.push((key, v));
                }
                proof {
                    let f1 = d.fields@;
                    assert(keys_unique(f0));
                    assert forall|a: int, b: int|
                        0 <= a < f1.len() && 0 <= b < f1.len() && a != b implies #[trigger] f1[a].0
                        != #[trigger] f1[b].0 by {
                        if a < f0.len() && b < f0.len() {
                            assert(f1[a].0 == f0[a].0);
                            assert(f1[b].0 == f0[b].0);
                        }
                    }
                    assert(keys_unique(f1));
                    let pos: int = if idx < n { idx as int } else { f0.len() as int };
                    assert(f1[pos].0 == key);
                    assert(dict_get(f1, key) == Some(v));
                    assert forall|k: Value| k != key implies #[trigger] dict_get(f1, k) == dict_get(f0, k) by {
                        if exists|j: int| 0 <= j < f0.len() && #[trigger] f0[j].0 == k {
                            let j = choose|j: int| 0 <= j < f0.len() && #[trigger] f0[j].0 == k;
                            assert(f1[j] == f0[j]);
                        }
                        if exists|j: int| 0 <= j < f1.len() && #[trigger] f1[j].0 == k {
                            let j = choose|j: int| 0 <= j < f1.len() && #[trigger] f1[j].0 == k;
                            assert(f1[j] == f0[j]);
                        }
                    }
                }
                self.slots.set(h, Some(Object::Dict(d)));
            },
            Some(other) => {
                self.slots.set(h, Some(other));
            },
            None => {},
        }
        proof {
            assert(self.objects().len() == old_heap.objects().len());
            assert forall|g: int| #[trigger] self.live(g) implies self.object_ok(self.object(g)) by {
                assert(old_heap.live(g));
                let og = old_heap.object(g);
                assert(old_heap.object_ok(og));
                assert forall|i: int| 0 <= i < children(self.object(g)).len() implies self.valid_value(
                    #[trigger] children(self.object(g))[i],
                ) by {
                    if g == h {
                        let c = children(self.object(g))[i];
                        if let (Object::Dict(d0), Object::Dict(d1)) = (og, self.object(g)) {
                            let j = i / 2;
                            if j < d0.fields@.len() && d1.fields@[j] == d0.fields@[j] {
                                assert(children(og)[i] == c);
                                assert(old_heap.valid_value(children(og)[i]));
                            }
                        }
                    } else {
                        assert(children(self.object(g))[i] == children(og)[i]);
                        assert(old_heap.valid_value(children(og)[i]));
                    }
                }
            }
            assert(self.free_ok());
        }
        Ok(())
    }

    /// The slot `offset` of the instance `r`.
    pub fn get_field_with_offset(&self, r: Value, offset: usize) -> (res: Result<Value, Error>)
        requires
            self.wf(),
            self.valid_value(r),
        ensures
            self.ref_error(r, TAG_CLASS) matches Some(e) ==> res == Err::<Value, Error>(e),
            self.ref_error(r, TAG_CLASS) is None ==> (self.object(r.spec_payload() as int) matches Object::Instance(a)
                && if offset < a.fields@.len() {
                    res == Ok::<Value, Error>(a.fields@[offset as int])
                } else {
                    res == Err::<Value, Error>(Error::IndexOutOfBounds)
                }),
            res matches Ok(v) ==> self.valid_value(v),
    {
        let h = self.check_ref(r, TAG_CLASS)?;
        match &self.slots[h] {
            Some(Object::Instance(a)) => {
                if offset >= a.fields.len() {
                    Err(Error::IndexOutOfBounds)
                } else {
                    proof {
                        assert(self.live(h as int));
                        assert(children(self.object(h as int))[offset as int] == a.fields@[offset as int]);
                    }
                    Ok(a.fields[offset])
                }
            },
            _ => Err(Error::TypeMismatch),
        }
    }

    /// Stores `v` in slot `offset` of the instance `r`.
    pub fn set_field_with_offset(&mut self, r: Value, offset: usize, v: Value) -> (res: Result<(), Error>)
        requires
            old(self).wf(),
            old(self).valid_value(r),
            old(self).valid_value(v),
        ensures
            final(self).wf(),
            old(self).ref_error(r, TAG_CLASS) matches Some(e) ==> res == Err::<(), Error>(e) && *final(self) == *old(self),
            old(self).ref_error(r, TAG_CLASS) is None ==> (old(self).object(r.spec_payload() as int) matches Object::Instance(a)
                && if offset < a.fields@.len() {
                    &&& res == Ok::<(), Error>(())
                    &&& final(self).same_except(old(self), r.spec_payload() as int)
                    &&& final(self).object(r.spec_payload() as int) matches Object::Instance(b)
                    &&& b.fields@ == a.fields@.update(offset as int, v)
                    &&& b.class_name@ == a.class_name@
                } else {
                    res == Err::<(), Error>(Error::IndexOutOfBounds) && *final(self) == *old(self)
                }),
            forall|x: Value| old(self).valid_value(x) ==> #[trigger] final(self).valid_value(x),
    {
        let h = self.check_ref(r, TAG_CLASS)?;
        let len = match &self.slots[h] {
            Some(Object::Instance(a)) => a.fields.len(),
            _ => 0,
        };
        if offset >= len {
            return Err(Error::IndexOutOfBounds);
        }
        let ghost old_heap = *self;
        let o = self.take(h);
        match o {
            Some(Object::Instance(mut a)) => {
                a.fields.set(offset, v);
                self.slots.set(h, Some(Object::Instance(a)));
            },
            Some(other) => {
                self.slots.set(h, Some(other));
            },
            None => {},
        }
        proof {
            assert(self.objects().len() == old_heap.objects().len());
            assert forall|g: int| #[trigger] self.live(g) implies self.object_ok(self.object(g)) by {
                assert(old_heap.live(g));
                let og = old_heap.object(g);
                assert forall|i: int| 0 <= i < children(self.object(g)).len() implies self.valid_value(
                    #[trigger] children(self.object(g))[i],
                ) by {
                    if g == h && i == offset {
                    } else {
                        assert(children(self.object(g))[i] == children(og)[i]);
                        assert(old_heap.valid_value(children(og)[i]));
                    }
                }
            }
            assert(self.free_ok());
        }
        Ok(())
    }

    /// `c` is the handle of a reference held by the live object `h`.
    pub open spec fn edge(&self, h: int, c: int) -> bool {
        &&& self.live(h)
        &&& exists|i: int|
            0 <= i < children(self.object(h)).len() && children(self.object(h))[i].is_heap()
                && #[trigger] children(self.object(h))[i].spec_payload() == c
    }

    /// `p` leads from a handle among `roots` along references held by objects.
    pub open spec fn is_path(&self, roots: Seq<Value>, p: Seq<int>) -> bool {
        &&& p.len() > 0
        &&& root_handle(roots, p[0])
        &&& forall|i: int| 0 <= i < p.len() - 1 ==> self.edge(#[trigger] p[i], p[i + 1])
    }

    /// The object `h` can be reached from `roots`.
    pub open spec fn reachable(&self, roots: Seq<Value>, h: int) -> bool {
        exists|p: Seq<int>| #[trigger] self.is_path(roots, p) && p.last() == h
    }

    /// Every heap reference held by the object `h` is marked.
    spec fn done(&self, marks: Seq<bool>, h: int) -> bool {
        forall|i: int|
            0 <= i < children(self.object(h)).len() && (#[trigger] children(self.object(h))[i]).is_heap()
                ==> marks[children(self.object(h))[i].spec_payload() as int]
    }

    /// Each mark is on a live object that can be reached from `roots`.
    spec fn marks_sound(&self, roots: Seq<Value>, marks: Seq<bool>) -> bool {
        &&& marks.len() == self.objects().len()
        &&& forall|h: int| 0 <= h < marks.len() && #[trigger] marks[h] ==> self.live(h) && self.reachable(roots, h)
    }

    /// Every marked object but `e` is on the worklist or has its references marked.
    spec fn pending_ok(&self, marks: Seq<bool>, worklist: Seq<usize>, e: int) -> bool {
        &&& forall|k: int| 0 <= k < worklist.len() ==> #[trigger] worklist[k] < marks.len() && marks[worklist[k] as int]
        &&& forall|h: int|
            0 <= h < marks.len() && #[trigger] marks[h] && h != e ==> worklist.contains(h as usize) || self.done(marks, h)
    }

    proof fn lemma_path_marked(&self, roots: Seq<Value>, marks: Seq<bool>, p: Seq<int>)
        requires
            self.wf(),
            self.valid_values(roots),
            marks.len() == self.objects().len(),
            self.is_path(roots, p),
            forall|j: int| 0 <= j < roots.len() && (#[trigger] roots[j]).is_heap() ==> marks[roots[j].spec_payload() as int],
            forall|h: int| 0 <= h < marks.len() && #[trigger] marks[h] ==> self.live(h) && self.done(marks, h),
        ensures
            0 <= p.last() < marks.len(),
            marks[p.last()],
        decreases p.len(),
    {
        if p.len() == 1 {
            let j = choose|j: int| 0 <= j < roots.len() && roots[j].is_heap() && #[trigger] roots[j].spec_payload() == p[0];
            assert(self.valid_value(roots[j]));
        } else {
            let q = p.drop_last();
            assert forall|i: int| 0 <= i < q.len() - 1 implies self.edge(#[trigger] q[i], q[i + 1]) by {
                assert(self.edge(p[i], p[i + 1]));
            }
            self.lemma_path_marked(roots, marks, q);
            let g = q.last();
            assert(self.edge(p[p.len() - 2], p[p.len() - 1]));
            assert(p[p.len() - 2] == g);
            let o = self.object(g);
            let i = choose|i: int| 0 <= i < children(o).len() && children(o)[i].is_heap()
                && #[trigger] children(o)[i].spec_payload() == p.last();
            assert(self.done(marks, g));
            assert(self.object_ok(o));
            assert(self.valid_value(children(o)[i]));
        }
    }

    /// Marks the reachable object `h`; where it was unmarked it joins the worklist.
    fn mark_reachable(
        &self,
        Ghost(roots): Ghost<Seq<Value>>,
        Ghost(e): Ghost<int>,
        marks: &mut Vec<bool>,
        worklist: &mut Vec<usize>,
        h: usize,
    )
        requires
            self.wf(),
            self.live(h as int),
            self.reachable(roots, h as int),
            self.marks_sound(roots, old(marks)@),
            self.pending_ok(old(marks)@, old(worklist)@, e),
        ensures
            self.marks_sound(roots, final(marks)@),
            self.pending_ok(final(marks)@, final(worklist)@, e),
            final(marks)@[h as int],
            forall|x: int| 0 <= x < old(marks)@.len() && old(marks)@[x] ==> #[trigger] final(marks)@[x],
            old(marks)@[h as int] ==> final(marks)@ == old(marks)@ && final(worklist)@ == old(worklist)@,
            !old(marks)@[h as int] ==> count_true(final(marks)@) == count_true(old(marks)@) + 1
                && final(worklist)@.len() == old(worklist)@.len() + 1,
    {
        let ghost m0 = marks@;
        let ghost w0 = worklist@;
        let newly = mark_handle(marks, worklist, h);
        proof {
            let m1 = marks@;
            let w1 = worklist@;
            if newly {
                lemma_count_true_update(m0, h as int);
            } else {
                assert(m1 =~= m0);
            }
            assert forall|k: int| 0 <= k < w1.len() implies #[trigger] w1[k] < m1.len() && m1[w1[k] as int] by {
                if k < w0.len() {
                    assert(w1[k] == w0[k]);
                }
            }
            assert forall|g: int| 0 <= g < m1.len() && #[trigger] m1[g] && g != e implies w1.contains(g as usize) || self.done(m1, g) by {
                if g == h && newly {
                    assert(w1[w0.len() as int] == h);
                } else {
                    assert(m0[g]);
                    if w0.contains(g as usize) {
                        let k = choose|k: int| 0 <= k < w0.len() && w0[k] == g as usize;
                        assert(w1[k] == g as usize);
                    } else {
                        assert(self.done(m0, g));
                    }
                }
            }
            assert forall|g: int| 0 <= g < m1.len() && #[trigger] m1[g] implies self.live(g) && self.reachable(roots, g) by {
                if g != h {
                    assert(m0[g]);
                }
            }
        }
    }

    /// Marks the objects that `roots` refer to.
    fn mark_roots(&self, roots: &Vec<Value>, marks: &mut Vec<bool>, worklist: &mut Vec<usize>)
        requires
            self.wf(),
            self.valid_values(roots@),
            self.marks_sound(roots@, old(marks)@),
            self.pending_ok(old(marks)@, old(worklist)@, -1),
        ensures
            self.marks_sound(roots@, final(marks)@),
            self.pending_ok(final(marks)@, final(worklist)@, -1),
            forall|k: int| 0 <= k < roots@.len() && (#[trigger] roots@[k]).is_heap() ==> final(marks)@[roots@[k].spec_payload() as int],
    {
        let mut j: usize = 0;
        while j < roots.len()
            invariant
                self.wf(),
                self.valid_values(roots@),
                j <= roots@.len(),
                self.marks_sound(roots@, marks@),
                self.pending_ok(marks@, worklist@, -1),
                forall|k: int| 0 <= k < j && (#[trigger] roots@[k]).is_heap() ==> marks@[roots@[k].spec_payload() as int],
            decreases roots@.len() - j,
        {
            let v = roots[j];
            let t = v.tag();
            if t >= 4 && t <= 7 {
                proof {
                    assert(self.valid_value(roots@[j as int]));
                }
                let h = v.reference() as usize;
                proof {
                    let p = seq![h as int];
                    assert(roots@[j as int].spec_payload() == h);
                    assert(root_handle(roots@, p[0]));
                    assert(self.is_path(roots@, p));
                }
                self.mark_reachable(Ghost(roots@), Ghost(-1), marks, worklist, h);
            }
            j = j + 1;
        }
    }

    /// Marks the objects that the reachable object `h` refers to.
    fn mark_children(
        &self,
        Ghost(roots): Ghost<Seq<Value>>,
        h: usize,
        marks: &mut Vec<bool>,
        worklist: &mut Vec<usize>,
    )
        requires
            self.wf(),
            self.live(h as int),
            old(marks)@[h as int],
            self.marks_sound(roots, old(marks)@),
            self.pending_ok(old(marks)@, old(worklist)@, h as int),
        ensures
            self.marks_sound(roots, final(marks)@),
            self.pending_ok(final(marks)@, final(worklist)@, -1),
            forall|x: int| 0 <= x < old(marks)@.len() && old(marks)@[x] ==> #[trigger] final(marks)@[x],
            count_true(final(marks)@) - count_true(old(marks)@) == final(worklist)@.len() - old(worklist)@.len(),
            final(worklist)@.len() >= old(worklist)@.len(),
    {
        let kids: Vec<Value> = match &self.slots[h] {
            Some(Object::String(_)) => Vec::new(),
            Some(Object::Dict(d)) => d.values(),
            Some(Object::Array(a)) => a.values(),
            Some(Object::Instance(c)) => c.values(),
            None => Vec::new(),
        };
        proof {
            assert(kids@ =~= children(self.object(h as int)));
            assert(self.object_ok(self.object(h as int)));
        }
        let ghost m_start = marks@;
        let ghost w_start = worklist@;
        let mut k: usize = 0;
        while k < kids.len()
            invariant
                self.wf(),
                self.live(h as int),
                kids@ == children(self.object(h as int)),
                self.valid_values(kids@),
                marks@[h as int],
                k <= kids@.len(),
                self.marks_sound(roots, marks@),
                self.pending_ok(marks@, worklist@, h as int),
                forall|q: int| 0 <= q < k && (#[trigger] kids@[q]).is_heap() ==> marks@[kids@[q].spec_payload() as int],
                forall|x: int| 0 <= x < m_start.len() && m_start[x] ==> #[trigger] marks@[x],
                m_start.len() == marks@.len(),
                worklist@.len() >= w_start.len(),
                count_true(marks@) - count_true(m_start) == worklist@.len() - w_start.len(),
            decreases kids@.len() - k,
        {
            let v = kids[k];
            let t = v.tag();
            if t >= 4 && t <= 7 {
                proof {
                    assert(self.valid_value(kids@[k as int]));
                }
                let c = v.reference() as usize;
                proof {
                    let p = choose|p: Seq<int>| #[trigger] self.is_path(roots, p) && p.last() == h as int;
                    let longer = p.push(c as int);
                    assert(self.edge(h as int, c as int)) by {
                        assert(children(self.object(h as int))[k as int].spec_payload() == c);
                    }
                    assert forall|q: int| 0 <= q < longer.len() - 1 implies self.edge(#[trigger] longer[q], longer[q + 1]) by {
                        if q < p.len() - 1 {
                            assert(longer[q] == p[q] && longer[q + 1] == p[q + 1]);
                        } else {
                            assert(longer[q] == h as int);
                        }
                    }
                    assert(self.is_path(roots, longer));
                }
                let ghost m_before = marks@;
                self.mark_reachable(Ghost(roots), Ghost(h as int), marks, worklist, c);
                proof {
                    assert forall|x: int| 0 <= x < m_start.len() && m_start[x] implies #[trigger] marks@[x] by {
                        assert(m_before[x]);
                    }
                }
            }
            k = k + 1;
        }
        proof {
            assert(self.done(marks@, h as int));
        }
    }

    /// Marks everything that can be reached from the worklist.
    fn trace(&self, Ghost(roots): Ghost<Seq<Value>>, marks: &mut Vec<bool>, worklist: &mut Vec<usize>)
        requires
            self.wf(),
            self.marks_sound(roots, old(marks)@),
            self.pending_ok(old(marks)@, old(worklist)@, -1),
        ensures
            self.marks_sound(roots, final(marks)@),
            final(worklist)@.len() == 0,
            forall|x: int| 0 <= x < old(marks)@.len() && old(marks)@[x] ==> #[trigger] final(marks)@[x],
            forall|x: int| 0 <= x < final(marks)@.len() && #[trigger] final(marks)@[x] ==> self.done(final(marks)@, x),
    {
        let ghost m_start = marks@;
        proof {
            lemma_count_true_bound(marks@);
        }
        while worklist.len() > 0
            invariant
                self.wf(),
                self.marks_sound(roots, marks@),
                self.pending_ok(marks@, worklist@, -1),
                forall|x: int| 0 <= x < m_start.len() && m_start[x] ==> #[trigger] marks@[x],
                m_start.len() == marks@.len(),
                count_true(marks@) <= marks@.len(),
            decreases 2 * (marks@.len() - count_true(marks@)) + worklist@.len(),
        {
            let ghost w0 = worklist@;
            let ghost m0 = marks@;
            let h = worklist.pop().unwrap();
            proof {
                assert(w0[w0.len() - 1] == h);
                assert(marks@[h as int]);
                assert forall|g: int| 0 <= g < marks@.len() && #[trigger] marks@[g] && g != h implies worklist@.contains(g as usize) || self.done(marks@, g) by {
                    if w0.contains(g as usize) {
                        let z = choose|z: int| 0 <= z < w0.len() && w0[z] == g as usize;
                        assert(z != w0.len() - 1);
                        assert(worklist@[z] == g as usize);
                    }
                }
                assert forall|z: int| 0 <= z < worklist@.len() implies #[trigger] worklist@[z] < marks@.len() && marks@[worklist@[z] as int] by {
                    assert(worklist@[z] == w0[z]);
                }
            }
            let ghost m_before = marks@;
            self.mark_children(Ghost(roots), h, marks, worklist);
            proof {
                lemma_count_true_bound(marks@);
                assert forall|x: int| 0 <= x < m_start.len() && m_start[x] implies #[trigger] marks@[x] by {
                    assert(m_before[x]);
                }
                assert(marks@.len() == m0.len());
            }
        }
        proof {
            assert forall|x: int| 0 <= x < marks@.len() && #[trigger] marks@[x] implies self.done(marks@, x) by {
                if worklist@.contains(x as usize) {
                    let z = choose|z: int| 0 <= z < worklist@.len() && worklist@[z] == x as usize;
                }
            }
        }
    }

    /// Frees every object whose mark is unset.
    fn sweep(&mut self, marks: &Vec<bool>)
        requires
            old(self).wf(),
            marks@.len() == old(self).objects().len(),
            forall|x: int| 0 <= x < marks@.len() && #[trigger] marks@[x] ==> old(self).live(x),
        ensures
            final(self).objects().len() == old(self).objects().len(),
            forall|x: int| 0 <= x < marks@.len() ==> #[trigger] final(self).objects()[x] == (if marks@[x] {
                old(self).objects()[x]
            } else {
                None
            }),
            final(self).free_ok(),
    {
        let n = self.slots.len();
        let mut g: usize = 0;
        while g < n
            invariant
                n == self.slots@.len(),
                n == marks@.len(),
                n == old(self).objects().len(),
                g <= n,
                forall|x: int| 0 <= x < marks@.len() && #[trigger] marks@[x] ==> old(self).live(x),
                forall|x: int| 0 <= x < g ==> #[trigger] self.slots@[x] == (if marks@[x] {
                    old(self).objects()[x]
                } else {
                    None
                }),
                forall|x: int| g <= x < n ==> #[trigger] self.slots@[x] == old(self).objects()[x],
                self.free_ok(),
            decreases n - g,
        {
            if !marks[g] {
                if self.slots[g].is_some() {
                    let ghost f0 = self.free@;
                    proof {
                        assert forall|q: int| 0 <= q < f0.len() implies f0[q] != g by {
                            assert(self.slots@[f0[q] as int] is None);
                        }
                    }
                    self.slots.set(g, None);
                    self.free.push(g);
                    proof {
                        assert forall|q: int| 0 <= q < self.free@.len() implies #[trigger] self.free@[q] < self.slots@.len()
                            && self.slots@[self.free@[q] as int] is None by {
                            if q < f0.len() {
                                assert(self.free@[q] == f0[q]);
                            }
                        }
                        assert forall|a: int, b: int|
                            0 <= a < self.free@.len() && 0 <= b < self.free@.len() && a != b implies #[trigger] self.free@[a]
                            != #[trigger] self.free@[b] by {
                            if a < f0.len() {
                                assert(self.free@[a] == f0[a]);
                            }
                            if b < f0.len() {
                                assert(self.free@[b] == f0[b]);
                            }
                        }
                    }
                }
            }
            g = g + 1;
        }
    }

    /// Mark and sweep: the objects that can be reached from `roots` stay, all others are
    /// freed, and the slots of the freed ones can be used again.
    pub fn mark_sweep(&mut self, roots: &Vec<Value>)
        requires
            old(self).wf(),
            old(self).valid_values(roots@),
        ensures
            final(self).wf(),
            final(self).objects().len() == old(self).objects().len(),
            forall|h: int| #[trigger] final(self).live(h) <==> old(self).reachable(roots@, h),
            forall|h: int| #[trigger] final(self).live(h) ==> final(self).object(h) == old(self).object(h),
            final(self).valid_values(roots@),
    {
        let n = self.slots.len();
        let mut marks: Vec<bool> = Vec::new();
        let mut i: usize = 0;
        while i < n
            invariant
                i <= n,
                marks@ == Seq::new(i as nat, |j: int| false),
            decreases n - i,
        {
            marks.push(false);
            i = i + 1;
            proof {
                assert(marks@ =~= Seq::new(i as nat, |j: int| false));
            }
        }
        let mut worklist: Vec<usize> = Vec::new();
        self.mark_roots(roots, &mut marks, &mut worklist);
        self.trace(Ghost(roots@), &mut marks, &mut worklist);
        let ghost h0 = *self;
        self.sweep(&marks);
        proof {
            assert forall|x: int| #[trigger] self.live(x) <==> 0 <= x < n && marks@[x] by {
                if 0 <= x < n {
                    assert(self.objects()[x] == (if marks@[x] { h0.objects()[x] } else { None }));
                }
            }
            assert forall|x: int| #[trigger] self.live(x) implies self.object(x) == h0.object(x) by {
                assert(self.objects()[x] == (if marks@[x] { h0.objects()[x] } else { None }));
            }
            assert forall|x: int| #[trigger] self.live(x) <==> h0.reachable(roots@, x) by {
                if h0.reachable(roots@, x) {
                    let p = choose|p: Seq<int>| #[trigger] h0.is_path(roots@, p) && p.last() == x;
                    h0.lemma_path_marked(roots@, marks@, p);
                }
            }
            assert forall|x: int| #[trigger] self.live(x) implies self.object_ok(self.object(x)) by {
                let o = h0.object(x);
                assert(h0.object_ok(o));
                assert(h0.done(marks@, x));
                assert forall|q: int| 0 <= q < children(o).len() implies self.valid_value(#[trigger] children(o)[q]) by {
                    assert(h0.valid_value(children(o)[q]));
                    if children(o)[q].is_heap() {
                        assert(self.live(children(o)[q].spec_payload() as int));
                    }
                }
            }
            assert forall|q: int| 0 <= q < roots@.len() implies self.valid_value(#[trigger] roots@[q]) by {
                assert(h0.valid_value(roots@[q]));
                if roots@[q].is_heap() {
                    assert(self.live(roots@[q].spec_payload() as int));
                }
            }
        }
    }

    /// The number of live objects.
    pub fn live_count(&self) -> (r: usize)
        ensures
            r == count_some(self.objects()),
    {
        let mut c: usize = 0;
        let mut i: usize = 0;
        while i < self.slots.len()
            invariant
                i <= self.slots@.len(),
                c == count_some(self.slots@.subrange(0, i as int)),
                c <= i,
            decreases self.slots@.len() - i,
        {
            proof {
                assert(self.slots@.subrange(0, i as int + 1).drop_last() =~= self.slots@.subrange(0, i as int));
            }
            if self.slots[i].is_some() {
                c = c + 1;
            }
            i = i + 1;
        }
        proof {
            assert(self.slots@.subrange(0, i as int) =~= self.slots@);
        }
        c
    }

    /// Collects the garbage of a running program: the roots are the operand stack and
    /// every local slot.
    pub fn gc(&mut self, stack: &Stack, local: &Local)
        requires
            old(self).wf(),
            old(self).valid_values(stack@),
            old(self).valid_values(local.values()),
        ensures
            final(self).wf(),
            final(self).objects().len() == old(self).objects().len(),
            forall|h: int| #[trigger] final(self).live(h) <==> old(self).reachable(stack@ + local.values(), h),
            forall|h: int| #[trigger] final(self).live(h) ==> final(self).object(h) == old(self).object(h),
            final(self).valid_values(stack@),
            final(self).valid_values(local.values()),
            stack@.len() == 0 && local.values().len() == 0 ==> count_some(final(self).objects()) == 0,
    {
        let mut roots: Vec<Value> = Vec::new();
        let sv = stack.values();
        let lv = local.slots();
        let mut i: usize = 0;
        while i < sv.len()
            invariant
                i <= sv@.len(),
                roots@ == sv@.subrange(0, i as int),
            decreases sv@.len() - i,
        {
            roots.push(sv[i]);
            i = i + 1;
            proof {
                assert(roots@ =~= sv@.subrange(0, i as int));
            }
        }
        let mut j: usize = 0;
        while j < lv.len()
            invariant
                j <= lv@.len(),
                i == sv@.len(),
                roots@ == sv@ + lv@.subrange(0, j as int),
            decreases lv@.len() - j,
        {
            roots.push(lv[j]);
            j = j + 1;
            proof {
                assert(roots@ =~= sv@ + lv@.subrange(0, j as int));
            }
        }
        proof {
            assert(roots@ =~= stack@ + local.values());
            assert forall|k: int| 0 <= k < roots@.len() implies self.valid_value(#[trigger] roots@[k]) by {
                if k < stack@.len() {
                    assert(roots@[k] == stack@[k]);
                } else {
                    assert(roots@[k] == local.values()[k - stack@.len()]);
                }
            }
        }
        let ghost h0 = *self;
        self.mark_sweep(&roots);
        proof {
            assert forall|k: int| 0 <= k < stack@.len() implies self.valid_value(#[trigger] stack@[k]) by {
                assert(roots@[k] == stack@[k]);
            }
            assert forall|k: int| 0 <= k < local.values().len() implies self.valid_value(#[trigger] local.values()[k]) by {
                assert(roots@[k + stack@.len()] == local.values()[k]);
            }
            if stack@.len() == 0 && local.values().len() == 0 {
                assert forall|k: int| 0 <= k < self.objects().len() implies self.objects()[k] is None by {
                    if self.live(k) {
                        assert(h0.reachable(roots@, k));
                        let p = choose|p: Seq<int>| #[trigger] h0.is_path(roots@, p) && p.last() == k;
                        assert(root_handle(roots@, p[0]));
                    }
                }
                lemma_count_some_none(self.objects());
            }
        }
    }

    /// What can be reached from valid roots is live.
    pub proof fn lemma_reachable_live(&self, roots: Seq<Value>, h: int)
        requires
            self.wf(),
            self.valid_values(roots),
            self.reachable(roots, h),
        ensures
            self.live(h),
    {
        let p = choose|p: Seq<int>| #[trigger] self.is_path(roots, p) && p.last() == h;
        if p.len() == 1 {
            let j = choose|j: int| 0 <= j < roots.len() && roots[j].is_heap() && #[trigger] roots[j].spec_payload() == p[0];
            assert(self.valid_value(roots[j]));
        } else {
            assert(self.edge(p[p.len() - 2], p[p.len() - 1]));
            let g = p[p.len() - 2];
            let o = self.object(g);
            let i = choose|i: int| 0 <= i < children(o).len() && children(o)[i].is_heap()
                && #[trigger] children(o)[i].spec_payload() == p.last();
            assert(self.object_ok(o));
            assert(self.valid_value(children(o)[i]));
        }
    }
}

} // verus!
