//! The Array exotic object: integer-indexed properties live in packed
//! element storage under the `length` coupling rule; everything else lives
//! in a lazily-created backing object.

use vstd::prelude::*;

use crate::elements::{to_property_descriptor_spec, ElementDescriptor};
use crate::heap::{Heap, ObjectHandle, ObjectRecord, PropertySlot};
use crate::object::{new_slot_spec, validate_apply, validate_apply_spec};
use crate::value::{
    KeyAbs, PropertyDescriptor, PropertyKey, TryResult, Value, MAX_ARRAY_INDEX,
};

verus! {

/// An Array handle: an index into the arrays arena.
#[derive(Debug, Clone, Copy, PartialEq, Eq, Structural)]
pub struct Array(pub u32);

/// How the Array internal methods treat a property key.
pub enum ArrayKeyKind {
    /// The string "length".
    Length,
    /// An integer index within `[0, 2^32 - 2]`.
    Index(u32),
    /// Any other key: it belongs to the backing object.
    Other,
}

pub open spec fn classify_abs_spec(ka: KeyAbs) -> ArrayKeyKind {
    match ka {
        KeyAbs::Int(n) => if 0 <= n <= MAX_ARRAY_INDEX {
            ArrayKeyKind::Index(n as u32)
        } else {
            ArrayKeyKind::Other
        },
        KeyAbs::Str(s) => if s == "length"@ {
            ArrayKeyKind::Length
        } else {
            ArrayKeyKind::Other
        },
        KeyAbs::Sym(_) => ArrayKeyKind::Other,
    }
}

pub open spec fn classify_key_spec(k: PropertyKey) -> ArrayKeyKind {
    classify_abs_spec(k.abs())
}

pub fn classify_key(k: &PropertyKey) -> (r: ArrayKeyKind)
    ensures
        r == classify_key_spec(*k),
{
    match k {
        PropertyKey::Integer(n) => {
            if 0 <= *n && *n <= MAX_ARRAY_INDEX {
                ArrayKeyKind::Index(*n as u32)
            } else {
                ArrayKeyKind::Other
            }
        },
        PropertyKey::String(s) => {
            let length_str = String::from_str("length");
            if *s == length_str {
                ArrayKeyKind::Length
            } else {
                ArrayKeyKind::Other
            }
        },
        PropertyKey::Symbol(_) => ArrayKeyKind::Other,
    }
}

// ---- element views -------------------------------------------------------

pub open spec fn arr_len(h: Heap, a: int) -> int {
    h.arr(a).length as int
}

pub open spec fn arr_cap(h: Heap, a: int) -> int {
    h.sto(h.arr(a).storage as int).values@.len() as int
}

pub open spec fn elem_value(h: Heap, a: int, i: int) -> Option<Value> {
    h.sto(h.arr(a).storage as int).values@[i]
}

pub open spec fn elem_desc(h: Heap, a: int, i: int) -> Option<ElementDescriptor> {
    h.sto(h.arr(a).storage as int).descriptor_at(i)
}

/// The property slot an element slot stands for; `None` is a hole.
pub open spec fn element_slot_state(v: Option<Value>, d: Option<ElementDescriptor>) -> Option<
    PropertySlot,
> {
    match d {
        None => match v {
            Some(x) => Some(PropertySlot {
                value: Some(x),
                get: None,
                set: None,
                writable: true,
                enumerable: true,
                configurable: true,
            }),
            None => None,
        },
        Some(ElementDescriptor::Data { writable, enumerable, configurable }) => Some(PropertySlot {
            value: v,
            get: None,
            set: None,
            writable,
            enumerable,
            configurable,
        }),
        Some(ElementDescriptor::Accessor { get, set, enumerable, configurable }) => Some(
            PropertySlot {
                value: None,
                get,
                set,
                writable: false,
                enumerable,
                configurable,
            },
        ),
    }
}

pub open spec fn elem_state(h: Heap, a: int, i: int) -> Option<PropertySlot> {
    element_slot_state(elem_value(h, a, i), elem_desc(h, a, i))
}

/// The element storage pair a canonical slot writes back as.
pub open spec fn slot_to_element_spec(s: PropertySlot) -> (Option<Value>, Option<
    ElementDescriptor,
>) {
    if s.is_accessor_spec() {
        (
            None,
            Some(ElementDescriptor::Accessor {
                get: s.get,
                set: s.set,
                enumerable: s.enumerable,
                configurable: s.configurable,
            }),
        )
    } else {
        (s.value, crate::elements::new_with_wec_spec(s.writable, s.enumerable, s.configurable))
    }
}

pub fn slot_to_element(s: &PropertySlot) -> (r: (Option<Value>, Option<ElementDescriptor>))
    ensures
        r == slot_to_element_spec(*s),
{
    if s.get.is_some() || s.set.is_some() {
        (
            None,
            Some(ElementDescriptor::Accessor {
                get: s.get,
                set: s.set,
                enumerable: s.enumerable,
                configurable: s.configurable,
            }),
        )
    } else {
        (
            match &s.value {
                Some(v) => Some(v.duplicate()),
                None => None,
            },
            ElementDescriptor::new_with_wec(s.writable, s.enumerable, s.configurable),
        )
    }
}

/// A slot is canonical when an accessor carries no value and no writable
/// bit, and a data slot carries a value and no functions. Slots read from
/// element storage and slots produced by descriptor application are
/// canonical.
pub open spec fn canonical_slot(s: PropertySlot) -> bool {
    if s.is_accessor_spec() {
        s.value is None && !s.writable
    } else {
        s.value is Some
    }
}

pub proof fn lemma_slot_element_roundtrip(s: PropertySlot)
    requires
        canonical_slot(s),
        s.wf(),
    ensures
        element_slot_state(slot_to_element_spec(s).0, slot_to_element_spec(s).1) == Some(s),
{
}

/// Reading a slot out of storage gives a canonical well-formed slot.
pub proof fn lemma_elem_state_canonical(h: Heap, a: int, i: int)
    requires
        h.array_wf(a),
        0 <= i < arr_cap(h, a),
    ensures
        elem_state(h, a, i) matches Some(s) ==> canonical_slot(s) && s.wf(),
{
    assert(h.sto(h.arr(a).storage as int).wf());
    match elem_desc(h, a, i) {
        Some(d) => {
            assert(d.wf());
            assert(d.is_accessor_spec() <==> elem_value(h, a, i) is None);
        },
        None => {},
    }
}

/// Validation output slots are canonical and well formed.
pub proof fn lemma_validate_apply_canonical(
    extensible: bool,
    desc: PropertyDescriptor,
    current: Option<PropertySlot>,
)
    requires
        current matches Some(c) ==> c.wf() && canonical_slot(c),
    ensures
        validate_apply_spec(extensible, desc, current) matches Some(s) ==> s.wf()
            && canonical_slot(s),
{
}

impl Array {
    pub fn get_index(self) -> (r: usize)
        ensures
            r == self.0 as usize,
    {
        self.0 as usize
    }

    /// The length slot of the Array.
    pub fn len(&self, h: &Heap) -> (r: u32)
        requires
            h.array_live(self.0 as int),
        ensures
            r == h.arr(self.0 as int).length,
    {
        h.array(self.0).length
    }

    /// Whether `length` may still change.
    pub fn length_writable(&self, h: &Heap) -> (r: bool)
        requires
            h.array_live(self.0 as int),
        ensures
            r == h.arr(self.0 as int).len_writable,
    {
        h.array(self.0).len_writable
    }

    pub fn is_empty(&self, h: &Heap) -> (r: bool)
        requires
            h.array_live(self.0 as int),
        ensures
            r == (h.arr(self.0 as int).length == 0),
    {
        h.array(self.0).length == 0
    }

    /// Creates a new array holding the given values, as CreateArrayFromList:
    /// every slot is a plain data property with default attributes and the
    /// length is the list's length.
    pub fn from_slice(h: &mut Heap, elements: &Vec<Value>) -> (a: Array)
        requires
            elements@.len() <= MAX_ARRAY_INDEX + 1,
            old(h).arrays@.len() < u32::MAX,
            old(h).storages@.len() < u32::MAX,
        ensures
            final(h).array_wf(a.0 as int),
            !old(h).array_live(a.0 as int),
            a.0 as int == old(h).arrays@.len(),
            arr_len(*final(h), a.0 as int) == elements@.len(),
            final(h).arr(a.0 as int).len_writable,
            final(h).arr(a.0 as int).object_index is None,
            forall|i: int|
                0 <= i < elements@.len() ==> elem_value(*final(h), a.0 as int, i) == Some(
                    elements@[i],
                ),
            forall|i: int|
                0 <= i < elements@.len() ==> elem_desc(*final(h), a.0 as int, i)
                    == None::<ElementDescriptor>,
            forall|t: int|
                0 <= t < old(h).arrays@.len() ==> #[trigger] final(h).arrays@[t] == old(h).arrays@[t],
            forall|t: int|
                0 <= t < old(h).storages@.len() ==> #[trigger] final(h).storages@[t] == old(h).storages@[t],
            final(h).arrays@.len() == old(h).arrays@.len() + 1,
            final(h).objects == old(h).objects,
            final(h).functions == old(h).functions,
    {
        let n = elements.len();
        let mut values: Vec<Option<Value>> = Vec::new();
        let mut i: usize = 0;
        while i < n
            invariant
                i <= n,
                n == elements@.len(),
                values@.len() == i,
                forall|j: int| 0 <= j < i ==> values@[j] == Some(elements@[j]),
            decreases n - i,
        {
            values.push(Some(elements[i].duplicate()));
            i += 1;
        }
        let s = h.create_storage(values);
        let a = h.create_array(
            crate::heap::ArrayRecord {
                object_index: None,
                storage: s,
                length: n as u32,
                len_writable: true,
            },
        );
        Array(a)
    }

    /// Whether every slot below the length holds a value: no holes and no
    /// accessors.
    pub fn is_dense(self, h: &Heap) -> (r: bool)
        requires
            h.array_wf(self.0 as int),
        ensures
            r == (forall|i: int|
                0 <= i < arr_len(*h, self.0 as int) ==> (#[trigger] elem_value(
                    *h,
                    self.0 as int,
                    i,
                )) is Some),
    {
        let rec = h.array(self.0);
        let len = rec.length as usize;
        let mut i: usize = 0;
        while i < len
            invariant
                i <= len,
                h.array_wf(self.0 as int),
                len == arr_len(*h, self.0 as int),
                rec == h.arr(self.0 as int),
                forall|j: int|
                    0 <= j < i ==> (#[trigger] elem_value(*h, self.0 as int, j)) is Some,
            decreases len - i,
        {
            if h.storage_value(rec.storage, i).is_none() {
                proof {
                    assert(elem_value(*h, self.0 as int, i as int) is None);
                }
                return false;
            }
            i += 1;
        }
        true
    }

    /// An array is simple if it contains no element accessor descriptors.
    pub fn is_simple(self, h: &Heap) -> (r: bool)
        requires
            h.array_wf(self.0 as int),
        ensures
            r == (forall|i: int|
                0 <= i < arr_len(*h, self.0 as int) ==> !((#[trigger] elem_desc(
                    *h,
                    self.0 as int,
                    i,
                )) matches Some(d) && d.is_accessor_spec())),
    {
        let rec = h.array(self.0);
        let len = rec.length as usize;
        let mut i: usize = 0;
        while i < len
            invariant
                i <= len,
                h.array_wf(self.0 as int),
                len == arr_len(*h, self.0 as int),
                rec == h.arr(self.0 as int),
                forall|j: int|
                    0 <= j < i ==> !((#[trigger] elem_desc(*h, self.0 as int, j)) matches Some(d)
                        && d.is_accessor_spec()),
            decreases len - i,
        {
            match h.storage_descriptor(rec.storage, i) {
                Some(ElementDescriptor::Accessor { .. }) => {
                    proof {
                        assert(elem_desc(*h, self.0 as int, i as int) matches Some(dd)
                            && dd.is_accessor_spec());
                    }
                    return false;
                },
                _ => {},
            }
            i += 1;
        }
        true
    }

    /// An array is trivial if it contains no element descriptors at all.
    pub fn is_trivial(self, h: &Heap) -> (r: bool)
        requires
            h.array_wf(self.0 as int),
        ensures
            r == (forall|i: int|
                0 <= i < arr_len(*h, self.0 as int) ==> (#[trigger] elem_desc(
                    *h,
                    self.0 as int,
                    i,
                )) is None),
    {
        let rec = h.array(self.0);
        let len = rec.length as usize;
        let mut i: usize = 0;
        while i < len
            invariant
                i <= len,
                h.array_wf(self.0 as int),
                len == arr_len(*h, self.0 as int),
                rec == h.arr(self.0 as int),
                forall|j: int|
                    0 <= j < i ==> (#[trigger] elem_desc(*h, self.0 as int, j)) is None,
            decreases len - i,
        {
            if h.storage_descriptor(rec.storage, i).is_some() {
                proof {
                    assert(elem_desc(*h, self.0 as int, i as int) is Some);
                }
                return false;
            }
            i += 1;
        }
        true
    }

    /// A shallow clone: element values are copied, element descriptors are
    /// not, so accessor slots of the original become holes of the clone.
    pub fn to_cloned(self, h: &mut Heap) -> (c: Array)
        requires
            old(h).array_wf(self.0 as int),
            old(h).arrays@.len() < u32::MAX,
            old(h).storages@.len() < u32::MAX,
        ensures
            final(h).array_wf(c.0 as int),
            c.0 as int == old(h).arrays@.len(),
            arr_len(*final(h), c.0 as int) == arr_len(*old(h), self.0 as int),
            final(h).arr(c.0 as int).len_writable == old(h).arr(self.0 as int).len_writable,
            final(h).arr(c.0 as int).object_index is None,
            forall|i: int|
                0 <= i < arr_cap(*old(h), self.0 as int) ==> elem_value(*final(h), c.0 as int, i)
                    == elem_value(*old(h), self.0 as int, i),
            forall|i: int|
                0 <= i < arr_cap(*old(h), self.0 as int) ==> elem_desc(*final(h), c.0 as int, i)
                    == None::<ElementDescriptor>,
            forall|t: int|
                0 <= t < old(h).arrays@.len() ==> #[trigger] final(h).arrays@[t] == old(h).arrays@[t],
            forall|t: int|
                0 <= t < old(h).storages@.len() ==> #[trigger] final(h).storages@[t] == old(h).storages@[t],
            final(h).objects == old(h).objects,
            final(h).functions == old(h).functions,
    {
        let rec = h.array(self.0);
        let s = h.shallow_clone(rec.storage);
        let c = h.create_array(
            crate::heap::ArrayRecord {
                object_index: None,
                storage: s,
                length: rec.length,
                len_writable: rec.len_writable,
            },
        );
        proof {
            assert forall|i: int|
                rec.length <= i < final(h).sto(s as int).values@.len() implies #[trigger] final(h).sto(s as int).is_hole(i) by {
                assert(old(h).sto(rec.storage as int).is_hole(i));
            }
        }
        Array(c)
    }

    pub fn get_backing_object(self, h: &Heap) -> (r: Option<u32>)
        requires
            h.array_live(self.0 as int),
        ensures
            r == h.arr(self.0 as int).object_index,
    {
        h.array(self.0).object_index
    }

    /// Installs a freshly created backing object; there must be none yet.
    pub fn set_backing_object(self, h: &mut Heap, backing: u32)
        requires
            old(h).array_live(self.0 as int),
            old(h).arr(self.0 as int).object_index is None,
        ensures
            final(h).array_live(self.0 as int),
            final(h).arr(self.0 as int) == (crate::heap::ArrayRecord {
                object_index: Some(backing),
                ..old(h).arr(self.0 as int)
            }),
            forall|t: int|
                0 <= t < old(h).arrays@.len() && t != self.0 as int ==> #[trigger] final(h).arrays@[t] == old(h).arrays@[t],
            final(h).arrays@.len() == old(h).arrays@.len(),
            final(h).objects == old(h).objects,
            final(h).storages == old(h).storages,
            final(h).functions == old(h).functions,
    {
        let mut rec = h.array(self.0);
        rec.object_index = Some(backing);
        h.set_array(self.0, rec);
    }

    /// Creates the lazily-allocated backing object, with the given prototype
    /// (normally the realm's Array prototype).
    pub fn create_backing_object(self, h: &mut Heap, prototype: Option<ObjectHandle>) -> (o: u32)
        requires
            old(h).array_wf(self.0 as int),
            old(h).arr(self.0 as int).object_index is None,
            old(h).objects@.len() < u32::MAX,
            prototype matches Some(p) ==> old(h).handle_live(p),
        ensures
            final(h).array_wf(self.0 as int),
            final(h).arr(self.0 as int).object_index == Some(o),
            final(h).object_wf(o as int),
            final(h).obj(o as int).properties@.len() == 0,
            final(h).obj(o as int).prototype == prototype,
            final(h).obj(o as int).extensible,
            o as int == old(h).objects@.len(),
            arr_len(*final(h), self.0 as int) == arr_len(*old(h), self.0 as int),
            final(h).arr(self.0 as int).len_writable == old(h).arr(self.0 as int).len_writable,
            final(h).arr(self.0 as int).storage == old(h).arr(self.0 as int).storage,
            forall|t: int|
                0 <= t < old(h).arrays@.len() && t != self.0 as int ==> #[trigger] final(h).arrays@[t] == old(h).arrays@[t],
            final(h).arrays@.len() == old(h).arrays@.len(),
            forall|t: int|
                0 <= t < old(h).objects@.len() ==> #[trigger] final(h).objects@[t] == old(h).objects@[t],
            final(h).objects@.len() == old(h).objects@.len() + 1,
            final(h).storages == old(h).storages,
            final(h).functions == old(h).functions,
    {
        let o = h.create_object(
            ObjectRecord { prototype, extensible: true, properties: Vec::new() },
        );
        self.set_backing_object(h, o);
        o
    }
}


// ---- [[GetOwnProperty]] --------------------------------------------------

/// The descriptor Array [[GetOwnProperty]] reports for a key.
pub open spec fn array_get_own_spec(h: Heap, a: int, k: PropertyKey) -> Option<PropertyDescriptor> {
    match classify_key_spec(k) {
        ArrayKeyKind::Length => Some(length_descriptor_spec(h, a)),
        ArrayKeyKind::Index(idx) => if idx >= h.arr(a).length {
            None
        } else if elem_value(h, a, idx as int) is None && elem_desc(h, a, idx as int) is None {
            None
        } else {
            Some(to_property_descriptor_spec(elem_desc(h, a, idx as int), elem_value(h, a, idx as int)))
        },
        ArrayKeyKind::Other => match h.arr(a).object_index {
            Some(o) => match crate::object::obj_lookup(h, o as int, k.abs()) {
                Some(s) => Some(crate::object::slot_to_descriptor_spec(s)),
                None => None,
            },
            None => None,
        },
    }
}

/// The virtual "length" property: a non-enumerable, non-configurable data
/// property whose writable bit is the length-writable flag.
pub open spec fn length_descriptor_spec(h: Heap, a: int) -> PropertyDescriptor {
    PropertyDescriptor {
        value: Some(Value::Integer(h.arr(a).length as i64)),
        writable: Some(h.arr(a).len_writable),
        get: None,
        set: None,
        enumerable: Some(false),
        configurable: Some(false),
    }
}

/// The virtual "length" slot ArraySetLength validates against.
pub open spec fn length_slot_spec(h: Heap, a: int) -> PropertySlot {
    PropertySlot {
        value: Some(Value::Integer(h.arr(a).length as i64)),
        get: None,
        set: None,
        writable: h.arr(a).len_writable,
        enumerable: false,
        configurable: false,
    }
}

/// For every array and every index at or beyond the length,
/// [[GetOwnProperty]] reports the property absent.
pub proof fn lemma_get_own_absent_beyond_length(h: Heap, a: int, k: PropertyKey, idx: u32)
    requires
        h.array_wf(a),
        classify_key_spec(k) == ArrayKeyKind::Index(idx),
        idx >= h.arr(a).length,
    ensures
        array_get_own_spec(h, a, k) is None,
{
}

impl Array {
    /// Array [[GetOwnProperty]]: the "length" slot, an element slot, or the
    /// backing object's property. Never needs to call user code.
    pub fn try_get_own_property(self, h: &Heap, key: &PropertyKey) -> (r: TryResult<
        Option<PropertyDescriptor>,
    >)
        requires
            h.array_wf(self.0 as int),
        ensures
            r matches TryResult::Continue(d) && d == array_get_own_spec(*h, self.0 as int, *key),
    {
        let rec = h.array(self.0);
        match classify_key(key) {
            ArrayKeyKind::Length => {
                TryResult::Continue(
                    Some(
                        PropertyDescriptor {
                            value: Some(Value::Integer(rec.length as i64)),
                            writable: Some(rec.len_writable),
                            get: None,
                            set: None,
                            enumerable: Some(false),
                            configurable: Some(false),
                        },
                    ),
                )
            },
            ArrayKeyKind::Index(idx) => {
                if idx >= rec.length {
                    return TryResult::Continue(None);
                }
                let value = h.storage_value(rec.storage, idx as usize);
                let descriptor = h.storage_descriptor(rec.storage, idx as usize);
                if value.is_none() && descriptor.is_none() {
                    TryResult::Continue(None)
                } else {
                    TryResult::Continue(
                        Some(ElementDescriptor::to_property_descriptor(&descriptor, &value)),
                    )
                }
            },
            ArrayKeyKind::Other => {
                match self.get_backing_object(h) {
                    Some(o) => TryResult::Continue(
                        crate::object::ordinary_get_own_property(h, o, key),
                    ),
                    None => TryResult::Continue(None),
                }
            },
        }
    }
}

// ---- ArraySetLength ------------------------------------------------------

/// Whether the element at `i` blocks shrinking: present and
/// non-configurable.
pub open spec fn elem_nonconfig(h: Heap, a: int, i: int) -> bool {
    elem_state(h, a, i) matches Some(s) && !s.configurable
}

/// The descriptor with its value field replaced by the coerced length.
pub open spec fn with_length_value(desc: PropertyDescriptor, n: u32) -> PropertyDescriptor {
    PropertyDescriptor { value: Some(Value::Integer(n as i64)), ..desc }
}

/// ArraySetLength. Writes to "length" validate against the virtual length
/// slot; shrinking deletes elements from the top down and stops at the
/// first non-configurable one, leaving the length just above it.
///
/// A descriptor whose value is not a small integer would need the numeric
/// conversion machinery and breaks to the slow path; a value outside
/// `[0, 2^32 - 1]` throws a RangeError.
#[verifier::rlimit(50)]
pub fn array_try_set_length(h: &mut Heap, a: Array, desc: &PropertyDescriptor) -> (r: TryResult<
    Result<bool, crate::value::JsError>,
>)
    requires
        old(h).array_wf(a.0 as int),
    ensures
        final(h).array_wf(a.0 as int),
        desc.value matches Some(v) && !(v is Integer) ==> r is Break && *final(h) == *old(h),
        desc.value matches Some(v) && v matches Value::Integer(n) && !(0 <= n <= MAX_ARRAY_INDEX
            + 1) ==> (r matches TryResult::Continue(c) && c matches Err(e) && e.kind
            == crate::value::ExceptionType::RangeError) && *final(h) == *old(h),
        desc.value is None ==> ({
            let vres = validate_apply_spec(true, *desc, Some(length_slot_spec(*old(h), a.0 as int)));
            match vres {
                None => (r matches TryResult::Continue(c) && c == Ok::<bool, crate::value::JsError>(false))
                    && *final(h) == *old(h),
                Some(ns) => (r matches TryResult::Continue(c) && c == Ok::<bool, crate::value::JsError>(true))
                    && final(h).arr(a.0 as int).len_writable == ns.writable
                    && final(h).arr(a.0 as int).length == old(h).arr(a.0 as int).length
                    && final(h).arr(a.0 as int).storage == old(h).arr(a.0 as int).storage
                    && final(h).arr(a.0 as int).object_index == old(h).arr(a.0 as int).object_index
                    && final(h).storages == old(h).storages
                    && final(h).objects == old(h).objects,
            }
        }),
        set_length_int_case(*old(h), *final(h), a.0 as int, *desc, r),
        final(h).arrays@.len() == old(h).arrays@.len(),
        forall|t: int|
            0 <= t < old(h).arrays@.len() && t != a.0 as int ==> #[trigger] final(h).arrays@[t]
                == old(h).arrays@[t],
        forall|t: int|
            0 <= t < old(h).storages@.len() && t != old(h).arr(a.0 as int).storage as int
                ==> #[trigger] final(h).storages@[t] == old(h).storages@[t],
        final(h).storages@.len() == old(h).storages@.len(),
        final(h).objects == old(h).objects,
        final(h).functions == old(h).functions,
{
    let rec = h.array(a.0);
    let old_len = rec.length;
    match &desc.value {
        None => {
            let cur = PropertySlot {
                value: Some(Value::Integer(old_len as i64)),
                get: None,
                set: None,
                writable: rec.len_writable,
                enumerable: false,
                configurable: false,
            };
            let vres = validate_apply(true, desc, &Some(cur));
            match vres {
                None => TryResult::Continue(Ok(false)),
                Some(ns) => {
                    let mut rec2 = rec;
                    rec2.len_writable = ns.writable;
                    h.set_array(a.0, rec2);
                    TryResult::Continue(Ok(true))
                },
            }
        },
        Some(Value::Integer(n)) => {
            let n = *n;
            if !(0 <= n && n <= MAX_ARRAY_INDEX + 1) {
                return TryResult::Continue(
                    Err(
                        crate::value::JsError::new(
                            crate::value::ExceptionType::RangeError,
                            "Invalid array length",
                        ),
                    ),
                );
            }
            let new_len = n as u32;
            let cur = PropertySlot {
                value: Some(Value::Integer(old_len as i64)),
                get: None,
                set: None,
                writable: rec.len_writable,
                enumerable: false,
                configurable: false,
            };
            let desc2 = PropertyDescriptor { value: Some(Value::Integer(n)), ..desc.duplicate() };
            let vres = validate_apply(true, &desc2, &Some(cur));
            proof {
                assert(desc2 == with_length_value(*desc, new_len));
            }
            match vres {
                None => TryResult::Continue(Ok(false)),
                Some(ns) => {
                    if new_len >= old_len {
                        h.storage_reserve(rec.storage, new_len as usize);
                        let mut rec2 = rec;
                        rec2.length = new_len;
                        rec2.len_writable = ns.writable;
                        h.set_array(a.0, rec2);
                        proof {
                            let st = rec.storage as int;
                            let precap = arr_cap(*old(h), a.0 as int);
                            assert forall|p: int|
                                new_len <= p < precap implies #[trigger] old(h).sto(st).is_hole(
                                p,
                            ) by {}
                            assert forall|p: int|
                                precap <= p < h.sto(st).values@.len() implies #[trigger] h.sto(
                                st,
                            ).is_hole(p) by {}
                            lemma_array_wf_preserved(*old(h), *h, a.0 as int, precap);
                        }
                        TryResult::Continue(Ok(true))
                    } else {
                        // Shrink: delete from the top down, stopping at the
                        // first non-configurable element.
                        let mut i: u32 = old_len;
                        while i > new_len
                            invariant
                                desc.value == Some(Value::Integer(n)),
                                0 <= n <= MAX_ARRAY_INDEX + 1,
                                new_len == n as u32,
                                new_len < old_len,
                                validate_apply_spec(
                                    true,
                                    with_length_value(*desc, new_len),
                                    Some(length_slot_spec(*old(h), a.0 as int)),
                                ) == Some(ns),
                                new_len <= i <= old_len,
                                h.array_live(a.0 as int),
                                h.arr(a.0 as int) == old(h).arr(a.0 as int),
                                old(h).array_wf(a.0 as int),
                                old_len == old(h).arr(a.0 as int).length,
                                old_len <= old(h).sto(rec.storage as int).values@.len(),
                                rec == old(h).arr(a.0 as int),
                                h.storage_live(rec.storage as int),
                                h.sto(rec.storage as int).wf(),
                                h.sto(rec.storage as int).values@.len() == old(h).sto(
                                    rec.storage as int,
                                ).values@.len(),
                                forall|j: int|
                                    0 <= j < i || old_len <= j < old(h).sto(
                                        rec.storage as int,
                                    ).values@.len() ==> #[trigger] h.sto(
                                        rec.storage as int,
                                    ).values@[j] == old(h).sto(rec.storage as int).values@[j],
                                forall|j: int|
                                    0 <= j < i || old_len <= j < old(h).sto(
                                        rec.storage as int,
                                    ).values@.len() ==> #[trigger] h.sto(
                                        rec.storage as int,
                                    ).descriptor_at(j) == old(h).sto(
                                        rec.storage as int,
                                    ).descriptor_at(j),
                                forall|j: int|
                                    i <= j < old_len ==> #[trigger] h.sto(
                                        rec.storage as int,
                                    ).is_hole(j),
                                forall|j: int|
                                    i <= j < old_len ==> !elem_nonconfig(*old(h), a.0 as int, j),
                                h.arrays == old(h).arrays,
                                h.objects == old(h).objects,
                                h.functions == old(h).functions,
                                h.storages@.len() == old(h).storages@.len(),
                                forall|t: int|
                                    0 <= t < old(h).storages@.len() && t != rec.storage as int
                                        ==> #[trigger] h.storages@[t] == old(h).storages@[t],
                            decreases i,
                        {
                            let j = i - 1;
                            let d = h.storage_descriptor(rec.storage, j as usize);
                            let blocked: bool = match &d {
                                Some(dd) => !dd.is_configurable(),
                                None => false,
                            };
                            if blocked {
                                // Stop: keep the blocking element, set the
                                // length just above it.
                                let mut rec2 = rec;
                                rec2.length = j + 1;
                                rec2.len_writable = ns.writable;
                                h.set_array(a.0, rec2);
                                proof {
                                    let st = rec.storage as int;
                                    assert(elem_nonconfig(*old(h), a.0 as int, j as int));
                                    assert forall|p: int|
                                        j + 1 <= p < h.sto(st).values@.len()
                                            implies #[trigger] h.sto(st).is_hole(p) by {
                                        if p >= old_len {
                                            assert(old(h).sto(st).is_hole(p));
                                            assert(h.sto(st).values@[p] == old(h).sto(
                                                st,
                                            ).values@[p]);
                                            assert(h.sto(st).descriptor_at(p) == old(h).sto(
                                                st,
                                            ).descriptor_at(p));
                                        }
                                    }
                                    lemma_array_wf_preserved(
                                        *old(h),
                                        *h,
                                        a.0 as int,
                                        j as int + 1,
                                    );
                                }
                                return TryResult::Continue(Ok(false));
                            }
                            let ghost hpre = *h;
                            h.storage_set_value(rec.storage, j as usize, None);
                            let ghost hmid = *h;
                            h.storage_set_descriptor(rec.storage, j as usize, None);
                            proof {
                                let st = rec.storage as int;
                                assert(hmid.sto(st).values@ == hpre.sto(st).values@.update(
                                    j as int,
                                    None,
                                ));
                                assert(h.sto(st).values == hmid.sto(st).values);
                                assert forall|p: int|
                                    j <= p < old_len implies #[trigger] h.sto(st).is_hole(p) by {
                                    if p == j as int {
                                        assert(h.sto(st).values@[p] is None);
                                        assert(h.sto(st).descriptor_at(p) is None);
                                    } else {
                                        assert(hpre.sto(st).is_hole(p));
                                        assert(h.sto(st).values@[p] == hpre.sto(st).values@[p]);
                                        assert(h.sto(st).descriptor_at(p) == hpre.sto(
                                            st,
                                        ).descriptor_at(p));
                                    }
                                }
                                assert forall|p: int|
                                    0 <= p < j || old_len <= p < old(h).sto(st).values@.len()
                                        implies #[trigger] h.sto(st).values@[p] == old(h).sto(
                                    st,
                                ).values@[p] by {
                                    assert(hpre.sto(st).values@[p] == old(h).sto(st).values@[p]);
                                }
                                assert forall|p: int|
                                    0 <= p < j || old_len <= p < old(h).sto(st).values@.len()
                                        implies #[trigger] h.sto(st).descriptor_at(p) == old(h).sto(st).descriptor_at(p) by {
                                    assert(hpre.sto(st).descriptor_at(p) == old(h).sto(
                                        st,
                                    ).descriptor_at(p));
                                    assert(hmid.sto(st).descriptor_at(p) == hpre.sto(
                                        st,
                                    ).descriptor_at(p));
                                    assert(h.sto(st).descriptor_at(p) == hmid.sto(
                                        st,
                                    ).descriptor_at(p));
                                }
                            }
                            i = j;
                        }
                        let mut rec2 = rec;
                        rec2.length = new_len;
                        rec2.len_writable = ns.writable;
                        h.set_array(a.0, rec2);
                        proof {
                            let st = rec.storage as int;
                            assert forall|p: int|
                                new_len <= p < h.sto(st).values@.len() implies #[trigger] h.sto(
                                st,
                            ).is_hole(p) by {
                                if p >= old_len {
                                    assert(old(h).sto(st).is_hole(p));
                                    assert(h.sto(st).values@[p] == old(h).sto(st).values@[p]);
                                    assert(h.sto(st).descriptor_at(p) == old(h).sto(
                                        st,
                                    ).descriptor_at(p));
                                }
                            }
                            lemma_array_wf_preserved(*old(h), *h, a.0 as int, new_len as int);
                        }
                        TryResult::Continue(Ok(true))
                    }
                },
            }
        },
        Some(_) => TryResult::Break,
    }
}



/// ArraySetLength's outcome for a small-integer length value in range; no
/// claim otherwise (those cases are covered separately).
pub open spec fn set_length_int_case(
    pre: Heap,
    post: Heap,
    a: int,
    desc: PropertyDescriptor,
    r: TryResult<Result<bool, crate::value::JsError>>,
) -> bool {
    match desc.value {
        Some(Value::Integer(ni)) => if 0 <= ni <= MAX_ARRAY_INDEX + 1 {
            set_length_post(pre, post, a, desc, ni as u32, r)
        } else {
            true
        },
        _ => true,
    }
}


/// Re-establishes an array's well-formedness after its element storage was
/// partly rewritten: slots below `keep` were preserved, slots from `keep` on
/// are holes, and the record fields other than length and writability are
/// unchanged.
pub proof fn lemma_array_wf_preserved(pre: Heap, post: Heap, a: int, keep: int)
    requires
        pre.array_wf(a),
        post.array_live(a),
        post.arr(a).storage == pre.arr(a).storage,
        post.arr(a).object_index == pre.arr(a).object_index,
        post.objects == pre.objects,
        forall|t: int| pre.array_live(t) ==> #[trigger] post.array_live(t),
        post.storage_live(pre.arr(a).storage as int),
        post.sto(pre.arr(a).storage as int).wf(),
        0 <= keep <= arr_cap(pre, a),
        keep <= post.sto(pre.arr(a).storage as int).values@.len(),
        forall|p: int|
            0 <= p < keep ==> #[trigger] post.sto(pre.arr(a).storage as int).values@[p] == pre.sto(
                pre.arr(a).storage as int,
            ).values@[p] && #[trigger] post.sto(pre.arr(a).storage as int).descriptor_at(p)
                == pre.sto(pre.arr(a).storage as int).descriptor_at(p),
        forall|p: int|
            keep <= p < post.sto(pre.arr(a).storage as int).values@.len() ==> #[trigger] post.sto(
                pre.arr(a).storage as int,
            ).is_hole(p),
        post.arr(a).length as int <= post.sto(pre.arr(a).storage as int).values@.len(),
        forall|p: int|
            post.arr(a).length <= p < keep ==> #[trigger] pre.sto(
                pre.arr(a).storage as int,
            ).is_hole(p),
    ensures
        post.array_wf(a),
{
    let st = pre.arr(a).storage as int;
    assert forall|p: int|
        post.arr(a).length <= p < post.sto(st).values@.len() implies #[trigger] post.sto(
        st,
    ).is_hole(p) by {
        if p < keep {
            assert(pre.sto(st).is_hole(p));
        }
    }
    assert forall|p: int|
        0 <= p < post.sto(st).values@.len() implies (match (#[trigger] post.sto(st).descriptor_at(
        p,
    )) {
        Some(d) => d.is_accessor_spec() <==> post.sto(st).values@[p] is None,
        None => true,
    }) by {
        if p < keep {
            assert(post.sto(st).descriptor_at(p) == pre.sto(st).descriptor_at(p));
        } else {
            assert(post.sto(st).is_hole(p));
        }
    }
    match post.arr(a).object_index {
        Some(o) => {
            assert(pre.object_wf(o as int));
            assert(post.obj(o as int) == pre.obj(o as int));
            match post.obj(o as int).prototype {
                Some(p) => {
                    assert(pre.handle_live(p));
                    match p {
                        ObjectHandle::Array(t) => {
                            assert(post.array_live(t as int));
                        },
                        ObjectHandle::Ordinary(_) => {},
                    }
                },
                None => {},
            }
        },
        None => {},
    }
}

/// What ArraySetLength leaves behind for an in-range new length `n`.
pub open spec fn set_length_post(
    pre: Heap,
    post: Heap,
    a: int,
    desc: PropertyDescriptor,
    n: u32,
    r: TryResult<Result<bool, crate::value::JsError>>,
) -> bool {
    let old_len = pre.arr(a).length;
    let vres = validate_apply_spec(true, with_length_value(desc, n), Some(length_slot_spec(pre, a)));
    match vres {
        None => (r matches TryResult::Continue(c) && c == Ok::<bool, crate::value::JsError>(false))
            && post == pre,
        Some(ns) => {
            if n >= old_len {
                // Growth (or unchanged): every old slot is kept.
                &&& (r matches TryResult::Continue(c) && c == Ok::<bool, crate::value::JsError>(
                    true,
                ))
                &&& post.arr(a).length == n
                &&& post.arr(a).len_writable == ns.writable
                &&& post.arr(a).object_index == pre.arr(a).object_index
                &&& post.arr(a).storage == pre.arr(a).storage
                &&& arr_cap(post, a) >= arr_cap(pre, a)
                &&& (forall|j: int|
                    0 <= j < arr_cap(pre, a) ==> #[trigger] elem_value(post, a, j) == elem_value(
                        pre,
                        a,
                        j,
                    ) && #[trigger] elem_desc(post, a, j) == elem_desc(pre, a, j))
            } else if forall|j: int| n <= j < old_len ==> !elem_nonconfig(pre, a, j) {
                // Shrink with nothing in the way.
                &&& (r matches TryResult::Continue(c) && c == Ok::<bool, crate::value::JsError>(
                    true,
                ))
                &&& post.arr(a).length == n
                &&& post.arr(a).len_writable == ns.writable
                &&& post.arr(a).object_index == pre.arr(a).object_index
                &&& post.arr(a).storage == pre.arr(a).storage
                &&& (forall|j: int|
                    0 <= j < n ==> #[trigger] elem_value(post, a, j) == elem_value(pre, a, j)
                        && #[trigger] elem_desc(post, a, j) == elem_desc(pre, a, j))
                &&& (forall|j: int|
                    n <= j < arr_cap(post, a) ==> #[trigger] post.sto(
                        post.arr(a).storage as int,
                    ).is_hole(j))
            } else {
                // Shrink blocked at the highest non-configurable element.
                exists|b: int|
                    {
                        &&& n <= b < old_len
                        &&& #[trigger] elem_nonconfig(pre, a, b)
                        &&& (forall|j: int| b < j < old_len ==> !elem_nonconfig(pre, a, j))
                        &&& (r matches TryResult::Continue(c) && c == Ok::<
                            bool,
                            crate::value::JsError,
                        >(false))
                        &&& post.arr(a).length == b + 1
                        &&& post.arr(a).len_writable == ns.writable
                        &&& post.arr(a).object_index == pre.arr(a).object_index
                        &&& post.arr(a).storage == pre.arr(a).storage
                        &&& (forall|j: int|
                            0 <= j <= b ==> #[trigger] elem_value(post, a, j) == elem_value(
                                pre,
                                a,
                                j,
                            ) && #[trigger] elem_desc(post, a, j) == elem_desc(pre, a, j))
                        &&& (forall|j: int|
                            b < j < arr_cap(post, a) ==> #[trigger] post.sto(
                                post.arr(a).storage as int,
                            ).is_hole(j))
                    }
            }
        },
    }
}


// ---- [[DefineOwnProperty]] -----------------------------------------------

/// Reads an element slot as the property slot it stands for.
pub fn elem_state_read(h: &Heap, a: Array, idx: usize) -> (r: Option<PropertySlot>)
    requires
        h.array_wf(a.0 as int),
        idx < arr_cap(*h, a.0 as int),
    ensures
        r == elem_state(*h, a.0 as int, idx as int),
{
    let rec = h.array(a.0);
    let v = h.storage_value(rec.storage, idx);
    let d = h.storage_descriptor(rec.storage, idx);
    match d {
        None => match v {
            Some(x) => Some(PropertySlot {
                value: Some(x),
                get: None,
                set: None,
                writable: true,
                enumerable: true,
                configurable: true,
            }),
            None => None,
        },
        Some(ElementDescriptor::Data { writable, enumerable, configurable }) => Some(
            PropertySlot { value: v, get: None, set: None, writable, enumerable, configurable },
        ),
        Some(ElementDescriptor::Accessor { get, set, enumerable, configurable }) => Some(
            PropertySlot { value: None, get, set, writable: false, enumerable, configurable },
        ),
    }
}

/// Re-establishes an array's well-formedness after exactly one element slot
/// below the length was overwritten with a canonical slot.
pub proof fn lemma_array_wf_update_slot(pre: Heap, post: Heap, a: int, idx: int, ns: PropertySlot)
    requires
        pre.array_wf(a),
        post.array_live(a),
        post.arr(a) == pre.arr(a),
        post.objects == pre.objects,
        forall|t: int| pre.array_live(t) ==> #[trigger] post.array_live(t),
        post.storage_live(pre.arr(a).storage as int),
        post.sto(pre.arr(a).storage as int).wf(),
        post.sto(pre.arr(a).storage as int).values@.len() == arr_cap(pre, a),
        0 <= idx < pre.arr(a).length,
        forall|p: int|
            0 <= p < arr_cap(pre, a) && p != idx ==> #[trigger] post.sto(
                pre.arr(a).storage as int,
            ).values@[p] == pre.sto(pre.arr(a).storage as int).values@[p],
        forall|p: int|
            0 <= p < arr_cap(pre, a) && p != idx ==> #[trigger] post.sto(
                pre.arr(a).storage as int,
            ).descriptor_at(p) == pre.sto(pre.arr(a).storage as int).descriptor_at(p),
        elem_value(post, a, idx) == slot_to_element_spec(ns).0,
        elem_desc(post, a, idx) == slot_to_element_spec(ns).1,
        ns.wf(),
        canonical_slot(ns),
    ensures
        post.array_wf(a),
        elem_state(post, a, idx) == Some(ns),
{
    let st = pre.arr(a).storage as int;
    lemma_slot_element_roundtrip(ns);
    assert forall|p: int|
        post.arr(a).length <= p < post.sto(st).values@.len() implies #[trigger] post.sto(
        st,
    ).is_hole(p) by {
        assert(pre.sto(st).is_hole(p));
    }
    assert forall|p: int|
        0 <= p < post.sto(st).values@.len() implies (match (#[trigger] post.sto(st).descriptor_at(
        p,
    )) {
        Some(d) => d.is_accessor_spec() <==> post.sto(st).values@[p] is None,
        None => true,
    }) by {
        if p != idx {
            assert(post.sto(st).descriptor_at(p) == pre.sto(st).descriptor_at(p));
        }
    }
    match post.arr(a).object_index {
        Some(o) => {
            assert(pre.object_wf(o as int));
            assert(post.obj(o as int) == pre.obj(o as int));
            match post.obj(o as int).prototype {
                Some(p) => {
                    assert(pre.handle_live(p));
                    match p {
                        ObjectHandle::Array(t) => {
                            assert(post.array_live(t as int));
                        },
                        ObjectHandle::Ordinary(_) => {},
                    }
                },
                None => {},
            }
        },
        None => {},
    }
}

/// OrdinaryDefineOwnProperty specialised to an array's element storage:
/// validates the descriptor against the slot at `index` (which must be below
/// the length) and applies it in place.
pub fn ordinary_define_own_property_for_array(
    h: &mut Heap,
    a: Array,
    index: u32,
    descriptor: &PropertyDescriptor,
) -> (r: bool)
    requires
        old(h).array_wf(a.0 as int),
        index < old(h).arr(a.0 as int).length,
    ensures
        r == (validate_apply_spec(
            old(h).arr(a.0 as int).len_writable,
            *descriptor,
            elem_state(*old(h), a.0 as int, index as int),
        ) is Some),
        final(h).array_wf(a.0 as int),
        r ==> elem_state(*final(h), a.0 as int, index as int) == validate_apply_spec(
            old(h).arr(a.0 as int).len_writable,
            *descriptor,
            elem_state(*old(h), a.0 as int, index as int),
        ),
        r ==> elem_value(*final(h), a.0 as int, index as int) == slot_to_element_spec(
            validate_apply_spec(
                old(h).arr(a.0 as int).len_writable,
                *descriptor,
                elem_state(*old(h), a.0 as int, index as int),
            ).unwrap(),
        ).0,
        r ==> elem_desc(*final(h), a.0 as int, index as int) == slot_to_element_spec(
            validate_apply_spec(
                old(h).arr(a.0 as int).len_writable,
                *descriptor,
                elem_state(*old(h), a.0 as int, index as int),
            ).unwrap(),
        ).1,
        r ==> elem_define_footprint(*old(h), *final(h), a.0 as int, index as int, *descriptor),
        !r ==> *final(h) == *old(h),
        final(h).arrays == old(h).arrays,
        final(h).objects == old(h).objects,
        final(h).functions == old(h).functions,
        final(h).storages@.len() == old(h).storages@.len(),
        forall|t: int|
            0 <= t < old(h).storages@.len() && t != old(h).arr(a.0 as int).storage as int
                ==> #[trigger] final(h).storages@[t] == old(h).storages@[t],
    {
    let rec = h.array(a.0);
    let current = elem_state_read(h, a, index as usize);
    proof {
        lemma_elem_state_canonical(*h, a.0 as int, index as int);
    }
    let ns = validate_apply(rec.len_writable, descriptor, &current);
    proof {
        lemma_validate_apply_canonical(rec.len_writable, *descriptor, current);
    }
    match ns {
        None => false,
        Some(ns) => {
            let (nv, nd) = slot_to_element(&ns);
            proof {
                match nd {
                    Some(dd) => assert(dd.wf()),
                    None => {},
                }
            }
            h.storage_set_value(rec.storage, index as usize, nv);
            h.storage_set_descriptor(rec.storage, index as usize, nd);
            proof {
                lemma_array_wf_update_slot(*old(h), *h, a.0 as int, index as int, ns);
            }
            true
        },
    }
}

/// Elements other than the defined one, and the array record itself, are
/// untouched.
pub open spec fn elem_define_footprint(
    pre: Heap,
    post: Heap,
    a: int,
    idx: int,
    desc: PropertyDescriptor,
) -> bool {
    &&& post.arr(a) == pre.arr(a)
    &&& arr_cap(post, a) == arr_cap(pre, a)
    &&& (forall|p: int|
        0 <= p < arr_cap(pre, a) && p != idx ==> #[trigger] elem_value(post, a, p) == elem_value(
            pre,
            a,
            p,
        ))
    &&& (forall|p: int|
        0 <= p < arr_cap(pre, a) && p != idx ==> #[trigger] elem_desc(post, a, p) == elem_desc(
            pre,
            a,
            p,
        ))
}


/// The backing object's stored slot for a key, absent backing included.
pub open spec fn backing_lookup(h: Heap, a: int, k: KeyAbs) -> Option<PropertySlot> {
    match h.arr(a).object_index {
        Some(o) => crate::object::obj_lookup(h, o as int, k),
        None => None,
    }
}

/// The backing object's extensible bit; a backing yet to be created starts
/// extensible.
pub open spec fn backing_extensible(h: Heap, a: int) -> bool {
    match h.arr(a).object_index {
        Some(o) => h.obj(o as int).extensible,
        None => true,
    }
}

/// What Array [[DefineOwnProperty]] leaves behind, by the kind of the key.
pub open spec fn array_define_post(
    pre: Heap,
    post: Heap,
    a: int,
    key: PropertyKey,
    desc: PropertyDescriptor,
    r: TryResult<Result<bool, crate::value::JsError>>,
) -> bool {
    match classify_key_spec(key) {
        ArrayKeyKind::Length => {
            &&& (desc.value matches Some(v) && !(v is Integer) ==> r is Break && post == pre)
            &&& (desc.value matches Some(v) && v matches Value::Integer(n) && !(0 <= n
                <= MAX_ARRAY_INDEX + 1) ==> (r matches TryResult::Continue(c) && c matches Err(e)
                && e.kind == crate::value::ExceptionType::RangeError) && post == pre)
            &&& (desc.value is None ==> length_only_define_post(pre, post, a, desc, r))
            &&& set_length_int_case(pre, post, a, desc, r)
        },
        ArrayKeyKind::Index(idx) => {
            if idx < pre.arr(a).length {
                let vres = validate_apply_spec(
                    pre.arr(a).len_writable,
                    desc,
                    elem_state(pre, a, idx as int),
                );
                match vres {
                    None => (r matches TryResult::Continue(c) && c == Ok::<
                        bool,
                        crate::value::JsError,
                    >(false)) && post == pre,
                    Some(ns) => {
                        &&& (r matches TryResult::Continue(c) && c == Ok::<
                            bool,
                            crate::value::JsError,
                        >(true))
                        &&& elem_state(post, a, idx as int) == Some(ns)
                        &&& elem_value(post, a, idx as int) == slot_to_element_spec(ns).0
                        &&& elem_desc(post, a, idx as int) == slot_to_element_spec(ns).1
                        &&& elem_define_footprint(pre, post, a, idx as int, desc)
                        &&& post.objects == pre.objects
                    },
                }
            } else if !pre.arr(a).len_writable {
                (r matches TryResult::Continue(c) && c == Ok::<bool, crate::value::JsError>(false))
                    && post == pre
            } else {
                &&& (r matches TryResult::Continue(c) && c == Ok::<bool, crate::value::JsError>(
                    true,
                ))
                &&& post.arr(a).length == idx + 1
                &&& post.arr(a).len_writable == pre.arr(a).len_writable
                &&& post.arr(a).object_index == pre.arr(a).object_index
                &&& post.arr(a).storage == pre.arr(a).storage
                &&& elem_value(post, a, idx as int) == slot_to_element_spec(
                    new_slot_spec(desc),
                ).0
                &&& elem_desc(post, a, idx as int) == slot_to_element_spec(new_slot_spec(desc)).1
                &&& elem_state(post, a, idx as int) == Some(new_slot_spec(desc))
                &&& (forall|p: int|
                    0 <= p < arr_cap(pre, a) && p != idx ==> #[trigger] elem_value(post, a, p)
                        == elem_value(pre, a, p))
                &&& (forall|p: int|
                    0 <= p < arr_cap(pre, a) && p != idx ==> #[trigger] elem_desc(post, a, p)
                        == elem_desc(pre, a, p))
                &&& (forall|p: int|
                    pre.arr(a).length <= p < idx ==> #[trigger] post.sto(
                        post.arr(a).storage as int,
                    ).is_hole(p))
                &&& post.objects == pre.objects
            }
        },
        ArrayKeyKind::Other => {
            let vres = validate_apply_spec(
                backing_extensible(pre, a),
                desc,
                backing_lookup(pre, a, key.abs()),
            );
            &&& (post.arr(a).object_index is Some)
            &&& (r matches TryResult::Continue(c) && c == Ok::<bool, crate::value::JsError>(
                vres is Some,
            ))
            &&& (vres matches Some(ns) ==> backing_lookup(post, a, key.abs()) == Some(ns))
            &&& (vres is None ==> backing_lookup(post, a, key.abs()) == backing_lookup(
                pre,
                a,
                key.abs(),
            ))
            &&& (forall|k2: KeyAbs|
                k2 != key.abs() ==> #[trigger] backing_lookup(post, a, k2) == backing_lookup(
                    pre,
                    a,
                    k2,
                ))
            &&& post.arr(a).length == pre.arr(a).length
            &&& post.arr(a).len_writable == pre.arr(a).len_writable
            &&& post.arr(a).storage == pre.arr(a).storage
            &&& post.storages == pre.storages
        },
    }
}

/// Defining "length" without a value only adjusts the writable flag.
pub open spec fn length_only_define_post(
    pre: Heap,
    post: Heap,
    a: int,
    desc: PropertyDescriptor,
    r: TryResult<Result<bool, crate::value::JsError>>,
) -> bool {
    let vres = validate_apply_spec(true, desc, Some(length_slot_spec(pre, a)));
    match vres {
        None => (r matches TryResult::Continue(c) && c == Ok::<bool, crate::value::JsError>(false))
            && post == pre,
        Some(ns) => {
            &&& (r matches TryResult::Continue(c) && c == Ok::<bool, crate::value::JsError>(true))
            &&& post.arr(a).len_writable == ns.writable
            &&& post.arr(a).length == pre.arr(a).length
            &&& post.arr(a).storage == pre.arr(a).storage
            &&& post.arr(a).object_index == pre.arr(a).object_index
            &&& post.storages == pre.storages
            &&& post.objects == pre.objects
        },
    }
}

impl Array {
    /// Array [[DefineOwnProperty]]: the "length" branch runs ArraySetLength;
    /// an index below the length validates against the element slot; an
    /// index at or beyond it grows the array (unless the length is frozen);
    /// every other key goes to the backing object, created on demand with
    /// the given prototype.
    #[verifier::rlimit(50)]
    pub fn try_define_own_property(
        self,
        h: &mut Heap,
        key: &PropertyKey,
        desc: &PropertyDescriptor,
        proto: Option<ObjectHandle>,
    ) -> (r: TryResult<Result<bool, crate::value::JsError>>)
        requires
            old(h).array_wf(self.0 as int),
            old(h).objects@.len() < u32::MAX - 1,
            proto matches Some(p) ==> old(h).handle_live(p),
            old(h).arr(self.0 as int).object_index matches Some(o) ==> old(h).obj(
                o as int,
            ).properties@.len() < usize::MAX,
        ensures
            array_define_post(*old(h), *final(h), self.0 as int, *key, *desc, r),
            final(h).array_wf(self.0 as int),
            final(h).arrays@.len() == old(h).arrays@.len(),
            forall|t: int|
                0 <= t < old(h).arrays@.len() && t != self.0 as int ==> #[trigger] final(h).arrays@[t] == old(h).arrays@[t],
            final(h).storages@.len() == old(h).storages@.len(),
            forall|t: int|
                0 <= t < old(h).storages@.len() && t != old(h).arr(self.0 as int).storage as int
                    ==> #[trigger] final(h).storages@[t] == old(h).storages@[t],
            final(h).functions == old(h).functions,
            forall|t: int|
                0 <= t < old(h).objects@.len() && Some(t as u32) != old(h).arr(
                    self.0 as int,
                ).object_index ==> #[trigger] final(h).objects@[t] == old(h).objects@[t],
    {
        match classify_key(key) {
            ArrayKeyKind::Length => array_try_set_length(h, self, desc),
            ArrayKeyKind::Index(idx) => {
                let rec = h.array(self.0);
                if idx < rec.length {
                    TryResult::Continue(
                        Ok(ordinary_define_own_property_for_array(h, self, idx, desc)),
                    )
                } else if !rec.len_writable {
                    TryResult::Continue(Ok(false))
                } else {
                    h.storage_reserve(rec.storage, idx as usize + 1);
                    let ghost h1 = *h;
                    let ns = validate_apply(true, desc, &None);
                    let ns = ns.unwrap();
                    let (nv, nd) = slot_to_element(&ns);
                    proof {
                        lemma_validate_apply_canonical(true, *desc, None);
                        match nd {
                            Some(dd) => assert(dd.wf()),
                            None => {},
                        }
                    }
                    h.storage_set_value(rec.storage, idx as usize, nv);
                    let ghost h2 = *h;
                    h.storage_set_descriptor(rec.storage, idx as usize, nd);
                    let mut rec2 = rec;
                    rec2.length = idx + 1;
                    h.set_array(self.0, rec2);
                    proof {
                        let st = rec.storage as int;
                        let a = self.0 as int;
                        lemma_slot_element_roundtrip(ns);
                        assert forall|p: int|
                            0 <= p < arr_cap(*old(h), a) && p != idx as int implies (
                        #[trigger] h.sto(st).values@[p] == old(h).sto(st).values@[p]) by {}
                        assert forall|p: int|
                            0 <= p < arr_cap(*old(h), a) && p != idx as int implies (
                        #[trigger] h.sto(st).descriptor_at(p) == old(h).sto(st).descriptor_at(
                            p,
                        )) by {
                            assert(h1.sto(st).descriptor_at(p) == old(h).sto(st).descriptor_at(p));
                            assert(h2.sto(st).descriptor_at(p) == h1.sto(st).descriptor_at(p));
                            assert(h.sto(st).descriptor_at(p) == h2.sto(st).descriptor_at(p));
                        }
                        assert forall|p: int|
                            idx + 1 <= p < h.sto(st).values@.len() implies #[trigger] h.sto(
                            st,
                        ).is_hole(p) by {
                            if p < arr_cap(*old(h), a) {
                                assert(old(h).sto(st).is_hole(p));
                                assert(h1.sto(st).values@[p] == old(h).sto(st).values@[p]);
                                assert(h1.sto(st).descriptor_at(p) == old(h).sto(
                                    st,
                                ).descriptor_at(p));
                            } else {
                                assert(h1.sto(st).is_hole(p));
                            }
                            assert(h2.sto(st).values@[p] == h1.sto(st).values@[p]);
                            assert(h2.sto(st).descriptor_at(p) == h1.sto(st).descriptor_at(p));
                            assert(h.sto(st).values@[p] == h2.sto(st).values@[p]);
                            assert(h.sto(st).descriptor_at(p) == h2.sto(st).descriptor_at(p));
                        }
                        assert forall|p: int|
                            arr_len(*old(h), a) <= p < idx as int implies #[trigger] h.sto(
                            st,
                        ).is_hole(p) by {
                            if p < arr_cap(*old(h), a) {
                                assert(old(h).sto(st).is_hole(p));
                                assert(h1.sto(st).values@[p] == old(h).sto(st).values@[p]);
                                assert(h1.sto(st).descriptor_at(p) == old(h).sto(
                                    st,
                                ).descriptor_at(p));
                            } else {
                                assert(h1.sto(st).is_hole(p));
                            }
                            assert(h2.sto(st).values@[p] == h1.sto(st).values@[p]);
                            assert(h2.sto(st).descriptor_at(p) == h1.sto(st).descriptor_at(p));
                            assert(h.sto(st).values@[p] == h2.sto(st).values@[p]);
                            assert(h.sto(st).descriptor_at(p) == h2.sto(st).descriptor_at(p));
                        }
                        assert forall|p: int|
                            0 <= p < h.sto(st).values@.len() implies (match (#[trigger] h.sto(
                            st,
                        ).descriptor_at(p)) {
                            Some(d) => d.is_accessor_spec() <==> h.sto(st).values@[p] is None,
                            None => true,
                        }) by {
                            if p < arr_cap(*old(h), a) && p != idx as int {
                                assert(h.sto(st).descriptor_at(p) == old(h).sto(
                                    st,
                                ).descriptor_at(p));
                            } else if p != idx as int {
                                assert(h1.sto(st).is_hole(p));
                                assert(h2.sto(st).values@[p] == h1.sto(st).values@[p]);
                                assert(h2.sto(st).descriptor_at(p) == h1.sto(st).descriptor_at(p));
                                assert(h.sto(st).values@[p] == h2.sto(st).values@[p]);
                                assert(h.sto(st).descriptor_at(p) == h2.sto(st).descriptor_at(p));
                                assert(h.sto(st).is_hole(p));
                            }
                        }
                        match h.arr(a).object_index {
                            Some(o) => {
                                assert(old(h).object_wf(o as int));
                                assert(h.obj(o as int) == old(h).obj(o as int));
                                match h.obj(o as int).prototype {
                                    Some(pr) => {
                                        assert(old(h).handle_live(pr));
                                        match pr {
                                            ObjectHandle::Array(tt) => {
                                                assert(h.array_live(tt as int));
                                            },
                                            ObjectHandle::Ordinary(_) => {},
                                        }
                                    },
                                    None => {},
                                }
                            },
                            None => {},
                        }
                    }
                    TryResult::Continue(Ok(true))
                }
            },
            ArrayKeyKind::Other => {
                let backing = match self.get_backing_object(h) {
                    Some(o) => o,
                    None => self.create_backing_object(h, proto),
                };
                let ghost mid = *h;
                let ok = crate::object::ordinary_define_own_property(h, backing, key, desc);
                proof {
                    assert(backing_lookup(mid, self.0 as int, key.abs()) == backing_lookup(
                        *old(h),
                        self.0 as int,
                        key.abs(),
                    ));
                    assert(backing_extensible(mid, self.0 as int) == backing_extensible(
                        *old(h),
                        self.0 as int,
                    ));
                    assert(final(h).array_wf(self.0 as int)) by {
                        backing_define_preserves_wf(mid, *final(h), self.0 as int, backing, *key);
                    }
                }
                TryResult::Continue(Ok(ok))
            },
        }
    }
}

/// A define on the backing object with a non-index key keeps the array well
/// formed.
pub proof fn backing_define_preserves_wf(pre: Heap, post: Heap, a: int, o: u32, key: PropertyKey)
    requires
        pre.array_wf(a),
        pre.arr(a).object_index == Some(o),
        post.array_live(a),
        post.arr(a) == pre.arr(a),
        post.storages == pre.storages,
        post.object_wf(o as int),
        !crate::heap::is_index_key(key),
        crate::object::keys_subset_plus(
            pre.obj(o as int).properties@,
            post.obj(o as int).properties@,
            key.abs(),
        ),
        post.obj(o as int).prototype == pre.obj(o as int).prototype,
        forall|t: int|
            0 <= t < pre.arrays@.len() ==> (#[trigger] post.arrays@[t]) == pre.arrays@[t],
        forall|t: int|
            0 <= t < pre.objects@.len() && t != o as int ==> (#[trigger] post.objects@[t])
                == pre.objects@[t],
        post.objects@.len() >= pre.objects@.len(),
    ensures
        post.array_wf(a),
{
    let st = pre.arr(a).storage as int;
    assert(post.sto(st) == pre.sto(st));
    assert forall|p: int|
        post.arr(a).length <= p < post.sto(st).values@.len() implies #[trigger] post.sto(
        st,
    ).is_hole(p) by {
        assert(pre.sto(st).is_hole(p));
    }
    assert forall|i: int|
        0 <= i < post.obj(o as int).properties@.len() implies !crate::heap::is_index_key(
        (#[trigger] post.obj(o as int).properties@[i]).key,
    ) by {
        if post.obj(o as int).properties@[i].key.abs() == key.abs() {
            key_abs_same_index(post.obj(o as int).properties@[i].key, key);
        } else {
            let s = choose|s: int|
                0 <= s < pre.obj(o as int).properties@.len() && post.obj(
                    o as int,
                ).properties@[i].key.abs() == pre.obj(o as int).properties@[s].key.abs();
            assert(!crate::heap::is_index_key(pre.obj(o as int).properties@[s].key));
            key_abs_same_index(post.obj(o as int).properties@[i].key, pre.obj(
                o as int,
            ).properties@[s].key);
        }
    }
}

/// Keys with the same identity are index keys together.
pub proof fn key_abs_same_index(k1: PropertyKey, k2: PropertyKey)
    requires
        k1.abs() == k2.abs(),
    ensures
        crate::heap::is_index_key(k1) == crate::heap::is_index_key(k2),
{
}


// ---- [[Delete]] ----------------------------------------------------------

/// What Array [[Delete]] does: "length" deletes vacuously (a documented
/// engine convention), an in-bounds element clears unless its descriptor is
/// non-configurable, anything else forwards to the backing object.
pub open spec fn array_delete_post(
    pre: Heap,
    post: Heap,
    a: int,
    key: PropertyKey,
    r: bool,
) -> bool {
    match classify_key_spec(key) {
        ArrayKeyKind::Length => r && post == pre,
        ArrayKeyKind::Index(idx) => {
            if idx >= pre.arr(a).length {
                r && post == pre
            } else if elem_desc(pre, a, idx as int) matches Some(d) && !d.configurable_spec() {
                !r && post == pre
            } else {
                &&& r
                &&& post.arr(a) == pre.arr(a)
                &&& post.objects == pre.objects
                &&& arr_cap(post, a) == arr_cap(pre, a)
                &&& elem_value(post, a, idx as int) is None
                &&& elem_desc(post, a, idx as int) is None
                &&& (forall|p: int|
                    0 <= p < arr_cap(pre, a) && p != idx ==> #[trigger] elem_value(post, a, p)
                        == elem_value(pre, a, p))
                &&& (forall|p: int|
                    0 <= p < arr_cap(pre, a) && p != idx ==> #[trigger] elem_desc(post, a, p)
                        == elem_desc(pre, a, p))
            }
        },
        ArrayKeyKind::Other => {
            match pre.arr(a).object_index {
                Some(o) => {
                    &&& r == crate::object::delete_allowed_spec(
                        crate::object::obj_lookup(pre, o as int, key.abs()),
                    )
                    &&& (r ==> backing_lookup(post, a, key.abs()) is None)
                    &&& (!r ==> post == pre)
                    &&& (forall|k2: KeyAbs|
                        k2 != key.abs() ==> #[trigger] backing_lookup(post, a, k2)
                            == backing_lookup(pre, a, k2))
                    &&& post.arr(a) == pre.arr(a)
                    &&& post.storages == pre.storages
                },
                None => r && post == pre,
            }
        },
    }
}

impl Array {
    /// Array [[Delete]].
    pub fn try_delete(self, h: &mut Heap, key: &PropertyKey) -> (r: TryResult<bool>)
        requires
            old(h).array_wf(self.0 as int),
        ensures
            r matches TryResult::Continue(b) && array_delete_post(
                *old(h),
                *final(h),
                self.0 as int,
                *key,
                b,
            ),
            final(h).array_wf(self.0 as int),
            final(h).arrays == old(h).arrays,
            final(h).functions == old(h).functions,
            final(h).storages@.len() == old(h).storages@.len(),
            forall|t: int|
                0 <= t < old(h).storages@.len() && t != old(h).arr(self.0 as int).storage as int
                    ==> #[trigger] final(h).storages@[t] == old(h).storages@[t],
            final(h).objects@.len() == old(h).objects@.len(),
            forall|t: int|
                0 <= t < old(h).objects@.len() && Some(t as u32) != old(h).arr(
                    self.0 as int,
                ).object_index ==> #[trigger] final(h).objects@[t] == old(h).objects@[t],
    {
        match classify_key(key) {
            ArrayKeyKind::Length => TryResult::Continue(true),
            ArrayKeyKind::Index(idx) => {
                let rec = h.array(self.0);
                if idx >= rec.length {
                    return TryResult::Continue(true);
                }
                let d = h.storage_descriptor(rec.storage, idx as usize);
                match &d {
                    Some(dd) => {
                        if !dd.is_configurable() {
                            return TryResult::Continue(false);
                        }
                    },
                    None => {},
                }
                let ghost h1 = *h;
                h.storage_set_value(rec.storage, idx as usize, None);
                let ghost h2 = *h;
                h.storage_set_descriptor(rec.storage, idx as usize, None);
                proof {
                    let st = rec.storage as int;
                    let a = self.0 as int;
                    assert(h.sto(st).values@[idx as int] is None) by {
                        assert(h2.sto(st).values@[idx as int] is None);
                    }
                    assert(h.sto(st).descriptor_at(idx as int) is None);
                    assert forall|p: int|
                        0 <= p < arr_cap(*old(h), a) && p != idx as int implies (#[trigger] h.sto(
                        st,
                    ).values@[p] == old(h).sto(st).values@[p]) by {
                        assert(h2.sto(st).values@[p] == h1.sto(st).values@[p]);
                    }
                    assert forall|p: int|
                        0 <= p < arr_cap(*old(h), a) && p != idx as int implies (#[trigger] h.sto(
                        st,
                    ).descriptor_at(p) == old(h).sto(st).descriptor_at(p)) by {
                        assert(h2.sto(st).descriptor_at(p) == h1.sto(st).descriptor_at(p));
                        assert(h.sto(st).descriptor_at(p) == h2.sto(st).descriptor_at(p));
                    }
                    assert forall|p: int|
                        h.arr(a).length <= p < h.sto(st).values@.len() implies #[trigger] h.sto(
                        st,
                    ).is_hole(p) by {
                        assert(old(h).sto(st).is_hole(p));
                    }
                    assert forall|p: int|
                        0 <= p < h.sto(st).values@.len() implies (match (#[trigger] h.sto(
                        st,
                    ).descriptor_at(p)) {
                        Some(dd) => dd.is_accessor_spec() <==> h.sto(st).values@[p] is None,
                        None => true,
                    }) by {
                        if p != idx as int {
                            assert(h.sto(st).descriptor_at(p) == old(h).sto(st).descriptor_at(p));
                        }
                    }
                    match h.arr(a).object_index {
                        Some(o) => {
                            assert(old(h).object_wf(o as int));
                            assert(h.obj(o as int) == old(h).obj(o as int));
                            match h.obj(o as int).prototype {
                                Some(pr) => {
                                    assert(old(h).handle_live(pr));
                                    match pr {
                                        ObjectHandle::Array(tt) => {
                                            assert(h.array_live(tt as int));
                                        },
                                        ObjectHandle::Ordinary(_) => {},
                                    }
                                },
                                None => {},
                            }
                        },
                        None => {},
                    }
                }
                TryResult::Continue(true)
            },
            ArrayKeyKind::Other => {
                match self.get_backing_object(h) {
                    Some(o) => {
                        let ok = crate::object::ordinary_delete(h, o, key);
                        proof {
                            if ok {
                                backing_delete_preserves_wf(*old(h), *h, self.0 as int, o);
                                assert(h.arr(self.0 as int).object_index == Some(o));
                                assert(crate::object::obj_lookup(*h, o as int, key.abs())
                                    is None);
                                assert(backing_lookup(*h, self.0 as int, key.abs()) is None);
                            }
                        }
                        TryResult::Continue(ok)
                    },
                    None => TryResult::Continue(true),
                }
            },
        }
    }
}

/// A delete on the backing object keeps the array well formed: the key set
/// only shrinks.
pub proof fn backing_delete_preserves_wf(pre: Heap, post: Heap, a: int, o: u32)
    requires
        pre.array_wf(a),
        pre.arr(a).object_index == Some(o),
        post.array_live(a),
        post.arr(a) == pre.arr(a),
        post.storages == pre.storages,
        post.object_wf(o as int),
        post.obj(o as int).properties@.len() <= pre.obj(o as int).properties@.len(),
        (post.obj(o as int).properties@ == pre.obj(o as int).properties@ || (exists|i: int|
            0 <= i < pre.obj(o as int).properties@.len() && post.obj(o as int).properties@ == pre
                .obj(o as int)
                .properties@
                .remove(i))),
        post.obj(o as int).prototype == pre.obj(o as int).prototype,
        forall|t: int|
            0 <= t < pre.arrays@.len() ==> (#[trigger] post.arrays@[t]) == pre.arrays@[t],
        post.objects@.len() == pre.objects@.len(),
    ensures
        post.array_wf(a),
{
    let st = pre.arr(a).storage as int;
    assert(post.sto(st) == pre.sto(st));
    assert forall|p: int|
        post.arr(a).length <= p < post.sto(st).values@.len() implies #[trigger] post.sto(
        st,
    ).is_hole(p) by {
        assert(pre.sto(st).is_hole(p));
    }
    assert forall|i: int|
        0 <= i < post.obj(o as int).properties@.len() implies !crate::heap::is_index_key(
        (#[trigger] post.obj(o as int).properties@[i]).key,
    ) by {
        if post.obj(o as int).properties@ == pre.obj(o as int).properties@ {
            assert(!crate::heap::is_index_key(pre.obj(o as int).properties@[i].key));
        } else {
            let w = choose|w: int|
                0 <= w < pre.obj(o as int).properties@.len() && post.obj(o as int).properties@
                    == pre.obj(o as int).properties@.remove(w);
            let orig = if i < w {
                i
            } else {
                i + 1
            };
            assert(post.obj(o as int).properties@[i] == pre.obj(o as int).properties@[orig]);
            assert(!crate::heap::is_index_key(pre.obj(o as int).properties@[orig].key));
        }
    }
}


// ---- [[OwnPropertyKeys]] -------------------------------------------------

/// The identities of a key sequence.
pub open spec fn keys_abs(s: Seq<PropertyKey>) -> Seq<KeyAbs> {
    s.map_values(|k: PropertyKey| k.abs())
}

/// The integer keys of the non-hole element slots below `upto`, ascending.
pub open spec fn element_index_keys(h: Heap, a: int, upto: int) -> Seq<KeyAbs>
    decreases upto,
{
    if upto <= 0 {
        Seq::empty()
    } else {
        let rest = element_index_keys(h, a, upto - 1);
        if h.sto(h.arr(a).storage as int).is_hole(upto - 1) {
            rest
        } else {
            rest.push(KeyAbs::Int(upto - 1))
        }
    }
}

/// Every selected element key is an integer below `upto`, and they ascend.
pub proof fn lemma_element_index_keys(h: Heap, a: int, upto: int)
    ensures
        forall|x: int|
            0 <= x < element_index_keys(h, a, upto).len() ==> ((#[trigger] element_index_keys(
                h,
                a,
                upto,
            )[x]) matches KeyAbs::Int(n) && 0 <= n < upto),
        forall|x: int, y: int|
            0 <= x < y < element_index_keys(h, a, upto).len() ==> abs_int_val(
                element_index_keys(h, a, upto)[x],
            ) < abs_int_val(element_index_keys(h, a, upto)[y]),
    decreases upto,
{
    if upto > 0 {
        lemma_element_index_keys(h, a, upto - 1);
        let rest = element_index_keys(h, a, upto - 1);
        let whole = element_index_keys(h, a, upto);
        assert forall|x: int, y: int|
            0 <= x < y < whole.len() implies abs_int_val(whole[x]) < abs_int_val(whole[y]) by {
            if y < rest.len() {
            } else {
                assert(whole[x] == rest[x]);
            }
        }
    }
}

/// The numeric value of an integer key identity; zero for others.
pub open spec fn abs_int_val(k: KeyAbs) -> int {
    match k {
        KeyAbs::Int(n) => n,
        _ => 0,
    }
}

/// The own keys of the backing object, empty when there is none.
pub open spec fn backing_keys_spec(h: Heap, a: int) -> Seq<PropertyKey> {
    match h.arr(a).object_index {
        Some(o) => crate::object::sel_keys(h.obj(o as int).properties@, 0) + crate::object::sel_keys(
            h.obj(o as int).properties@,
            1,
        ) + crate::object::sel_keys(h.obj(o as int).properties@, 2),
        None => Seq::empty(),
    }
}

/// No key of an array's backing object is an integer index.
pub proof fn lemma_backing_keys_not_index(h: Heap, a: int)
    requires
        h.array_wf(a),
    ensures
        forall|x: int|
            0 <= x < backing_keys_spec(h, a).len() ==> !crate::heap::is_index_key(
                #[trigger] backing_keys_spec(h, a)[x],
            ),
{
    match h.arr(a).object_index {
        Some(o) => {
            let props = h.obj(o as int).properties@;
            crate::object::lemma_sel_keys_membership(props, 0);
            crate::object::lemma_sel_keys_membership(props, 1);
            crate::object::lemma_sel_keys_membership(props, 2);
            assert forall|x: int|
                0 <= x < backing_keys_spec(h, a).len() implies !crate::heap::is_index_key(
                #[trigger] backing_keys_spec(h, a)[x],
            ) by {
                let bk = backing_keys_spec(h, a);
                let s0 = crate::object::sel_keys(props, 0);
                let s1 = crate::object::sel_keys(props, 1);
                let s2 = crate::object::sel_keys(props, 2);
                if x < s0.len() {
                    assert(bk[x] == s0[x]);
                    let tt = choose|tt: int| 0 <= tt < props.len() && props[tt].key == s0[x];
                    assert(!crate::heap::is_index_key(props[tt].key));
                    key_abs_same_index(bk[x], props[tt].key);
                } else if x < s0.len() + s1.len() {
                    assert(bk[x] == s1[x - s0.len()]);
                    assert(crate::object::key_class(bk[x]) == 1);
                } else {
                    assert(bk[x] == s2[x - s0.len() - s1.len()]);
                    assert(crate::object::key_class(bk[x]) == 2);
                }
            }
        },
        None => {},
    }
}

impl Array {
    /// Array [[OwnPropertyKeys]]: the indices of the non-hole element slots
    /// in ascending order, then "length", then the backing object's own keys
    /// in their ordinary order.
    pub fn try_own_property_keys(self, h: &Heap) -> (r: TryResult<Vec<PropertyKey>>)
        requires
            h.array_wf(self.0 as int),
        ensures
            r matches TryResult::Continue(keys) && keys_abs(keys@) == element_index_keys(
                *h,
                self.0 as int,
                arr_len(*h, self.0 as int),
            ) + seq![KeyAbs::Str("length"@)] + keys_abs(backing_keys_spec(*h, self.0 as int)),
            r matches TryResult::Continue(keys) && (forall|x: int, y: int|
                0 <= x < y < keys@.len() && crate::heap::is_index_key(#[trigger] keys@[x])
                    && crate::heap::is_index_key(#[trigger] keys@[y])
                    ==> crate::heap::int_key_val(keys@[x]) < crate::heap::int_key_val(keys@[y])),
    {
        let rec = h.array(self.0);
        let len = rec.length as usize;
        let mut keys: Vec<PropertyKey> = Vec::new();
        let mut i: usize = 0;
        while i < len
            invariant
                i <= len,
                h.array_wf(self.0 as int),
                rec == h.arr(self.0 as int),
                len == arr_len(*h, self.0 as int),
                keys_abs(keys@) == element_index_keys(*h, self.0 as int, i as int),
            decreases len - i,
        {
            let v = h.storage_value(rec.storage, i);
            let d = h.storage_descriptor(rec.storage, i);
            if v.is_some() || d.is_some() {
                keys.push(PropertyKey::Integer(i as i64));
            }
            proof {
                assert(keys_abs(keys@) =~= element_index_keys(*h, self.0 as int, i as int + 1));
            }
            i += 1;
        }
        let length_str = String::from_str("length");
        proof {
            reveal_strlit("length");
        }
        keys.push(PropertyKey::String(length_str));
        let ghost with_length = keys@;
        match self.get_backing_object(h) {
            Some(o) => {
                let mut backing = crate::object::ordinary_own_property_keys(h, o);
                keys.append(&mut backing);
            },
            None => {},
        }
        proof {
            let a = self.0 as int;
            lemma_element_index_keys(*h, a, len as int);
            let elem_keys = element_index_keys(*h, a, len as int);
            let bk = backing_keys_spec(*h, a);
            assert(keys_abs(keys@) =~= elem_keys + seq![KeyAbs::Str("length"@)] + keys_abs(bk));
            lemma_backing_keys_not_index(*h, a);
            let n0 = elem_keys.len() as int;
            assert forall|x: int, y: int|
                0 <= x < y < keys@.len() && crate::heap::is_index_key(#[trigger] keys@[x])
                    && crate::heap::is_index_key(#[trigger] keys@[y]) implies
                crate::heap::int_key_val(keys@[x]) < crate::heap::int_key_val(keys@[y]) by {
                assert(keys@[x].abs() == keys_abs(keys@)[x]);
                assert(keys@[y].abs() == keys_abs(keys@)[y]);
                if y == n0 {
                    assert(keys@[y].abs() == KeyAbs::Str("length"@));
                    assert(!crate::heap::is_index_key(keys@[y]));
                } else if y > n0 {
                    assert(keys@[y].abs() == bk[y - n0 - 1].abs());
                    assert(!crate::heap::is_index_key(bk[y - n0 - 1]));
                    key_abs_same_index(keys@[y], bk[y - n0 - 1]);
                } else {
                    assert(keys@[x].abs() == elem_keys[x]);
                    assert(keys@[y].abs() == elem_keys[y]);
                    assert(crate::heap::int_key_val(keys@[x]) == abs_int_val(elem_keys[x]));
                    assert(crate::heap::int_key_val(keys@[y]) == abs_int_val(elem_keys[y]));
                }
            }
        }
        TryResult::Continue(keys)
    }
}


// ---- [[Get]] and [[HasProperty]] -----------------------------------------

/// Depth bound for prototype-chain walks; exceeding it models stack
/// exhaustion and surfaces as a RangeError.
pub const PROTO_CHAIN_LIMIT: u32 = 10000;

/// What a chain lookup step finds.
pub enum GetOutcome {
    /// The finished value.
    Val(Value),
    /// A getter must run; the host calls it with the receiver.
    NeedsCall(u32),
    /// The chain was longer than the depth bound.
    OutOfFuel,
}

/// The prototype an array presents: its backing object's prototype, or the
/// realm default while no backing object exists.
pub open spec fn array_prototype_spec(
    h: Heap,
    a: int,
    default_proto: Option<ObjectHandle>,
) -> Option<ObjectHandle> {
    match h.arr(a).object_index {
        Some(o) => h.obj(o as int).prototype,
        None => default_proto,
    }
}

/// [[Get]] over the prototype chain, fuel-bounded. Each recursive step
/// spends one unit of fuel.
pub open spec fn spec_get(
    h: Heap,
    handle: ObjectHandle,
    k: KeyAbs,
    dp: Option<ObjectHandle>,
    fuel: nat,
) -> GetOutcome
    decreases fuel,
{
    if fuel == 0 {
        GetOutcome::OutOfFuel
    } else {
        match handle {
            ObjectHandle::Ordinary(o) => match crate::object::obj_lookup(h, o as int, k) {
                Some(s) => if s.is_accessor_spec() {
                    match s.get {
                        Some(g) => GetOutcome::NeedsCall(g),
                        None => GetOutcome::Val(Value::Undefined),
                    }
                } else {
                    GetOutcome::Val(s.value.unwrap())
                },
                None => match h.obj(o as int).prototype {
                    Some(p) => spec_get(h, p, k, dp, (fuel - 1) as nat),
                    None => GetOutcome::Val(Value::Undefined),
                },
            },
            ObjectHandle::Array(a) => match classify_abs_spec(k) {
                ArrayKeyKind::Length => GetOutcome::Val(
                    Value::Integer(h.arr(a as int).length as i64),
                ),
                ArrayKeyKind::Index(idx) => {
                    if idx < h.arr(a as int).length && elem_value(h, a as int, idx as int)
                        is Some {
                        GetOutcome::Val(elem_value(h, a as int, idx as int).unwrap())
                    } else if idx < h.arr(a as int).length && (elem_desc(h, a as int, idx as int)
                        matches Some(d) && d.is_accessor_spec()) {
                        match elem_desc(h, a as int, idx as int).unwrap().getter_spec() {
                            Some(g) => GetOutcome::NeedsCall(g),
                            None => GetOutcome::Val(Value::Undefined),
                        }
                    } else {
                        match array_prototype_spec(h, a as int, dp) {
                            Some(p) => spec_get(h, p, k, dp, (fuel - 1) as nat),
                            None => GetOutcome::Val(Value::Undefined),
                        }
                    }
                },
                ArrayKeyKind::Other => match h.arr(a as int).object_index {
                    Some(o) => spec_get(h, ObjectHandle::Ordinary(o), k, dp, (fuel - 1) as nat),
                    None => match dp {
                        Some(p) => spec_get(h, p, k, dp, (fuel - 1) as nat),
                        None => GetOutcome::Val(Value::Undefined),
                    },
                },
            },
        }
    }
}

/// Liveness and well-formedness of everything a chain walk may touch.
pub open spec fn heap_protos_wf(h: Heap, dp: Option<ObjectHandle>) -> bool {
    &&& (forall|o: int| h.object_live(o) ==> #[trigger] h.object_wf(o))
    &&& (forall|a: int| h.array_live(a) ==> #[trigger] h.array_wf(a))
    &&& match dp {
        Some(p) => h.handle_live(p),
        None => true,
    }
}

/// [[Get]] on an object handle: walks own slots and the prototype chain,
/// breaking out when a getter must run, and throwing a RangeError when the
/// chain exceeds the depth bound.
pub fn get_on_handle(
    h: &Heap,
    start: ObjectHandle,
    key: &PropertyKey,
    dp: Option<ObjectHandle>,
) -> (r: TryResult<Result<Value, crate::value::JsError>>)
    requires
        heap_protos_wf(*h, dp),
        h.handle_live(start),
    ensures
        match spec_get(*h, start, key.abs(), dp, PROTO_CHAIN_LIMIT as nat) {
            GetOutcome::Val(v) => r matches TryResult::Continue(c) && c == Ok::<
                Value,
                crate::value::JsError,
            >(v),
            GetOutcome::NeedsCall(_) => r is Break,
            GetOutcome::OutOfFuel => r matches TryResult::Continue(c) && c matches Err(e)
                && e.kind == crate::value::ExceptionType::RangeError,
        },
{
    let mut cur = start;
    let mut fuel: u32 = PROTO_CHAIN_LIMIT;
    loop
        invariant
            heap_protos_wf(*h, dp),
            h.handle_live(cur),
            fuel <= PROTO_CHAIN_LIMIT,
            spec_get(*h, start, key.abs(), dp, PROTO_CHAIN_LIMIT as nat) == spec_get(
                *h,
                cur,
                key.abs(),
                dp,
                fuel as nat,
            ),
        decreases fuel,
    {
        if fuel == 0 {
            return TryResult::Continue(
                Err(
                    crate::value::JsError::new(
                        crate::value::ExceptionType::RangeError,
                        "Maximum prototype chain depth exceeded",
                    ),
                ),
            );
        }
        match cur {
            ObjectHandle::Ordinary(o) => {
                let idx = h.find_own_property(o, key);
                match idx {
                    Some(i) => {
                        proof {
                            assert(h.object_wf(o as int));
                            crate::object::lemma_lookup_at_index(
                                h.obj(o as int).properties@,
                                key.abs(),
                                i as int,
                            );
                        }
                        let entry = h.object_prop_at(o, i);
                        if entry.slot.get.is_some() || entry.slot.set.is_some() {
                            match entry.slot.get {
                                Some(_) => {
                                    return TryResult::Break;
                                },
                                None => {
                                    return TryResult::Continue(Ok(Value::Undefined));
                                },
                            }
                        }
                        return TryResult::Continue(
                            Ok(
                                match entry.slot.value {
                                    Some(v) => v,
                                    None => Value::Undefined,
                                },
                            ),
                        );
                    },
                    None => {
                        proof {
                            crate::object::lemma_lookup_absent(
                                h.obj(o as int).properties@,
                                key.abs(),
                            );
                            assert(h.object_wf(o as int));
                        }
                        match h.object_prototype(o) {
                            Some(p) => {
                                cur = p;
                                fuel = fuel - 1;
                                proof {
                                    assert(spec_get(
                                        *h,
                                        ObjectHandle::Ordinary(o),
                                        key.abs(),
                                        dp,
                                        (fuel + 1) as nat,
                                    ) == spec_get(*h, cur, key.abs(), dp, fuel as nat));
                                }
                            },
                            None => {
                                return TryResult::Continue(Ok(Value::Undefined));
                            },
                        }
                    },
                }
            },
            ObjectHandle::Array(a) => {
                proof {
                    assert(h.array_wf(a as int));
                }
                let arr = Array(a);
                let rec = h.array(a);
                match classify_key(key) {
                    ArrayKeyKind::Length => {
                        return TryResult::Continue(Ok(Value::Integer(rec.length as i64)));
                    },
                    ArrayKeyKind::Index(idx) => {
                        if idx < rec.length {
                            let v = h.storage_value(rec.storage, idx as usize);
                            match v {
                                Some(v) => {
                                    return TryResult::Continue(Ok(v));
                                },
                                None => {},
                            }
                            let d = h.storage_descriptor(rec.storage, idx as usize);
                            match &d {
                                Some(dd) => {
                                    if dd.getter_function().is_some() {
                                        return TryResult::Break;
                                    }
                                    if dd.setter_function().is_some() {
                                        return TryResult::Continue(Ok(Value::Undefined));
                                    }
                                },
                                None => {},
                            }
                        }
                        proof {
                            if idx < rec.length {
                                let st = rec.storage as int;
                                match elem_desc(*h, a as int, idx as int) {
                                    Some(dd) => {
                                        assert(h.sto(st).wf());
                                        assert(h.sto(st).descriptors.unwrap()@[idx as int]
                                            == Some(dd));
                                        assert(h.sto(st).descriptors.unwrap()@[
                                            idx as int
                                        ].unwrap().wf());
                                        assert(dd.wf());
                                    },
                                    None => {},
                                }
                            }
                            match h.arr(a as int).object_index {
                                Some(o) => {
                                    assert(h.object_wf(o as int));
                                },
                                None => {},
                            }
                        }
                        match arr.array_prototype(h, dp) {
                            Some(p) => {
                                cur = p;
                                fuel = fuel - 1;
                                proof {
                                    assert(spec_get(
                                        *h,
                                        ObjectHandle::Array(a),
                                        key.abs(),
                                        dp,
                                        (fuel + 1) as nat,
                                    ) == spec_get(*h, cur, key.abs(), dp, fuel as nat));
                                }
                            },
                            None => {
                                return TryResult::Continue(Ok(Value::Undefined));
                            },
                        }
                    },
                    ArrayKeyKind::Other => {
                        match rec.object_index {
                            Some(o) => {
                                proof {
                                    assert(h.object_wf(o as int));
                                }
                                cur = ObjectHandle::Ordinary(o);
                                fuel = fuel - 1;
                                proof {
                                    assert(spec_get(
                                        *h,
                                        ObjectHandle::Array(a),
                                        key.abs(),
                                        dp,
                                        (fuel + 1) as nat,
                                    ) == spec_get(*h, cur, key.abs(), dp, fuel as nat));
                                }
                            },
                            None => {
                                match dp {
                                    Some(p) => {
                                        cur = p;
                                        fuel = fuel - 1;
                                        proof {
                                    assert(spec_get(
                                        *h,
                                        ObjectHandle::Array(a),
                                        key.abs(),
                                        dp,
                                        (fuel + 1) as nat,
                                    ) == spec_get(*h, cur, key.abs(), dp, fuel as nat));
                                }
                                    },
                                    None => {
                                        return TryResult::Continue(Ok(Value::Undefined));
                                    },
                                }
                            },
                        }
                    },
                }
            },
        }
    }
}

/// [[HasProperty]] over the chain: `None` stands for fuel exhaustion.
pub open spec fn spec_has(
    h: Heap,
    handle: ObjectHandle,
    k: KeyAbs,
    dp: Option<ObjectHandle>,
    fuel: nat,
) -> Option<bool>
    decreases fuel,
{
    if fuel == 0 {
        None
    } else {
        match handle {
            ObjectHandle::Ordinary(o) => match crate::object::obj_lookup(h, o as int, k) {
                Some(_) => Some(true),
                None => match h.obj(o as int).prototype {
                    Some(p) => spec_has(h, p, k, dp, (fuel - 1) as nat),
                    None => Some(false),
                },
            },
            ObjectHandle::Array(a) => match classify_abs_spec(k) {
                ArrayKeyKind::Length => Some(true),
                ArrayKeyKind::Index(idx) => {
                    if idx < h.arr(a as int).length && !(h.sto(
                        h.arr(a as int).storage as int,
                    ).is_hole(idx as int)) {
                        Some(true)
                    } else {
                        match array_prototype_spec(h, a as int, dp) {
                            Some(p) => spec_has(h, p, k, dp, (fuel - 1) as nat),
                            None => Some(false),
                        }
                    }
                },
                ArrayKeyKind::Other => match h.arr(a as int).object_index {
                    Some(o) => spec_has(h, ObjectHandle::Ordinary(o), k, dp, (fuel - 1) as nat),
                    None => match dp {
                        Some(p) => spec_has(h, p, k, dp, (fuel - 1) as nat),
                        None => Some(false),
                    },
                },
            },
        }
    }
}

/// [[HasProperty]] on an object handle.
pub fn has_on_handle(
    h: &Heap,
    start: ObjectHandle,
    key: &PropertyKey,
    dp: Option<ObjectHandle>,
) -> (r: TryResult<Result<bool, crate::value::JsError>>)
    requires
        heap_protos_wf(*h, dp),
        h.handle_live(start),
    ensures
        match spec_has(*h, start, key.abs(), dp, PROTO_CHAIN_LIMIT as nat) {
            Some(b) => r matches TryResult::Continue(c) && c == Ok::<bool, crate::value::JsError>(
                b,
            ),
            None => r matches TryResult::Continue(c) && c matches Err(e) && e.kind
                == crate::value::ExceptionType::RangeError,
        },
{
    let mut cur = start;
    let mut fuel: u32 = PROTO_CHAIN_LIMIT;
    loop
        invariant
            heap_protos_wf(*h, dp),
            h.handle_live(cur),
            fuel <= PROTO_CHAIN_LIMIT,
            spec_has(*h, start, key.abs(), dp, PROTO_CHAIN_LIMIT as nat) == spec_has(
                *h,
                cur,
                key.abs(),
                dp,
                fuel as nat,
            ),
        decreases fuel,
    {
        if fuel == 0 {
            return TryResult::Continue(
                Err(
                    crate::value::JsError::new(
                        crate::value::ExceptionType::RangeError,
                        "Maximum prototype chain depth exceeded",
                    ),
                ),
            );
        }
        match cur {
            ObjectHandle::Ordinary(o) => {
                let idx = h.find_own_property(o, key);
                match idx {
                    Some(i) => {
                        proof {
                            crate::object::lemma_lookup_at_index(
                                h.obj(o as int).properties@,
                                key.abs(),
                                i as int,
                            );
                        }
                        return TryResult::Continue(Ok(true));
                    },
                    None => {
                        proof {
                            crate::object::lemma_lookup_absent(
                                h.obj(o as int).properties@,
                                key.abs(),
                            );
                            assert(h.object_wf(o as int));
                        }
                        match h.object_prototype(o) {
                            Some(p) => {
                                cur = p;
                                fuel = fuel - 1;
                            },
                            None => {
                                return TryResult::Continue(Ok(false));
                            },
                        }
                    },
                }
            },
            ObjectHandle::Array(a) => {
                proof {
                    assert(h.array_wf(a as int));
                }
                let arr = Array(a);
                let rec = h.array(a);
                match classify_key(key) {
                    ArrayKeyKind::Length => {
                        return TryResult::Continue(Ok(true));
                    },
                    ArrayKeyKind::Index(idx) => {
                        if idx < rec.length {
                            let v = h.storage_value(rec.storage, idx as usize);
                            let d = h.storage_descriptor(rec.storage, idx as usize);
                            if v.is_some() || d.is_some() {
                                return TryResult::Continue(Ok(true));
                            }
                        }
                        proof {
                            match h.arr(a as int).object_index {
                                Some(o) => {
                                    assert(h.object_wf(o as int));
                                },
                                None => {},
                            }
                        }
                        match arr.array_prototype(h, dp) {
                            Some(p) => {
                                cur = p;
                                fuel = fuel - 1;
                            },
                            None => {
                                return TryResult::Continue(Ok(false));
                            },
                        }
                    },
                    ArrayKeyKind::Other => {
                        match rec.object_index {
                            Some(o) => {
                                proof {
                                    assert(h.object_wf(o as int));
                                }
                                cur = ObjectHandle::Ordinary(o);
                                fuel = fuel - 1;
                            },
                            None => {
                                match dp {
                                    Some(p) => {
                                        cur = p;
                                        fuel = fuel - 1;
                                    },
                                    None => {
                                        return TryResult::Continue(Ok(false));
                                    },
                                }
                            },
                        }
                    },
                }
            },
        }
    }
}

impl Array {
    /// The prototype this array presents to the chain walk.
    pub fn array_prototype(self, h: &Heap, dp: Option<ObjectHandle>) -> (r: Option<ObjectHandle>)
        requires
            h.array_live(self.0 as int),
            h.arr(self.0 as int).object_index matches Some(o) ==> h.object_live(o as int),
        ensures
            r == array_prototype_spec(*h, self.0 as int, dp),
    {
        match self.get_backing_object(h) {
            Some(o) => h.object_prototype(o),
            None => dp,
        }
    }

    /// Array [[Get]]: "length", then elements, then backing object and the
    /// prototype chain.
    pub fn try_get(self, h: &Heap, key: &PropertyKey, dp: Option<ObjectHandle>) -> (r: TryResult<
        Result<Value, crate::value::JsError>,
    >)
        requires
            heap_protos_wf(*h, dp),
            h.array_live(self.0 as int),
        ensures
            match spec_get(*h, ObjectHandle::Array(self.0), key.abs(), dp, PROTO_CHAIN_LIMIT as nat) {
                GetOutcome::Val(v) => r matches TryResult::Continue(c) && c == Ok::<
                    Value,
                    crate::value::JsError,
                >(v),
                GetOutcome::NeedsCall(_) => r is Break,
                GetOutcome::OutOfFuel => r matches TryResult::Continue(c) && c matches Err(e)
                    && e.kind == crate::value::ExceptionType::RangeError,
            },
    {
        get_on_handle(h, ObjectHandle::Array(self.0), key, dp)
    }

    /// Array [[HasProperty]]: whether the key resolves anywhere on the
    /// chain, without reading values.
    pub fn try_has_property(self, h: &Heap, key: &PropertyKey, dp: Option<ObjectHandle>) -> (r:
        TryResult<Result<bool, crate::value::JsError>>)
        requires
            heap_protos_wf(*h, dp),
            h.array_live(self.0 as int),
        ensures
            match spec_has(*h, ObjectHandle::Array(self.0), key.abs(), dp, PROTO_CHAIN_LIMIT as nat) {
                Some(b) => r matches TryResult::Continue(c) && c == Ok::<
                    bool,
                    crate::value::JsError,
                >(b),
                None => r matches TryResult::Continue(c) && c matches Err(e) && e.kind
                    == crate::value::ExceptionType::RangeError,
            },
    {
        has_on_handle(h, ObjectHandle::Array(self.0), key, dp)
    }
}


// ---- laws ---------------------------------------------------------------

/// After a successful `[[DefineOwnProperty]]("length", {value: n})`, the
/// length is exactly `n` and every slot at or beyond `n` is a hole.
pub proof fn lemma_set_length_truncates(
    pre: Heap,
    post: Heap,
    a: int,
    desc: PropertyDescriptor,
    n: u32,
    r: TryResult<Result<bool, crate::value::JsError>>,
)
    requires
        pre.array_wf(a),
        post.array_wf(a),
        desc.value == Some(Value::Integer(n as i64)),
        set_length_post(pre, post, a, desc, n, r),
        r matches TryResult::Continue(c) && c == Ok::<bool, crate::value::JsError>(true),
    ensures
        post.arr(a).length == n,
        forall|i: int|
            n <= i < arr_cap(post, a) ==> #[trigger] post.sto(post.arr(a).storage as int).is_hole(
                i,
            ),
{
    let vres = validate_apply_spec(true, with_length_value(desc, n), Some(length_slot_spec(pre, a)));
    match vres {
        None => {
            assert(false);
        },
        Some(ns) => {
            let old_len = pre.arr(a).length;
            if n >= old_len {
                assert(post.arr(a).length == n);
                assert forall|i: int|
                    n <= i < arr_cap(post, a) implies #[trigger] post.sto(
                    post.arr(a).storage as int,
                ).is_hole(i) by {}
            } else if forall|j: int| n <= j < old_len ==> !elem_nonconfig(pre, a, j) {
            } else {
                assert(false);
            }
        },
    }
}

/// Once `length` is frozen, no define on an index at or beyond the length
/// succeeds, and the flag never comes back.
pub proof fn lemma_frozen_length_permanent(
    pre: Heap,
    post: Heap,
    a: int,
    key: PropertyKey,
    desc: PropertyDescriptor,
    r: TryResult<Result<bool, crate::value::JsError>>,
)
    requires
        pre.array_wf(a),
        array_define_post(pre, post, a, key, desc, r),
        !pre.arr(a).len_writable,
    ensures
        !post.arr(a).len_writable,
        classify_key_spec(key) matches ArrayKeyKind::Index(idx) && idx >= pre.arr(a).length
            ==> (r matches TryResult::Continue(c) && c == Ok::<bool, crate::value::JsError>(
            false,
        )) && post == pre,
{
    match classify_key_spec(key) {
        ArrayKeyKind::Length => {
            let cur = length_slot_spec(pre, a);
            assert(!cur.writable);
            match desc.value {
                None => {
                    let vres = validate_apply_spec(true, desc, Some(cur));
                    match vres {
                        None => {},
                        Some(ns) => {
                            assert(!ns.writable);
                        },
                    }
                },
                Some(Value::Integer(ni)) => {
                    if 0 <= ni <= MAX_ARRAY_INDEX + 1 {
                        let d2 = with_length_value(desc, ni as u32);
                        let vres = validate_apply_spec(true, d2, Some(cur));
                        match vres {
                            None => {},
                            Some(ns) => {
                                assert(!ns.writable);
                            },
                        }
                    }
                },
                Some(_) => {},
            }
        },
        ArrayKeyKind::Index(idx) => {
            if idx < pre.arr(a).length {
                let vres = validate_apply_spec(
                    pre.arr(a).len_writable,
                    desc,
                    elem_state(pre, a, idx as int),
                );
                match vres {
                    None => {},
                    Some(_) => {
                        assert(post.arr(a) == pre.arr(a));
                    },
                }
            }
        },
        ArrayKeyKind::Other => {},
    }
}

/// The full-attribute data descriptor for a value.
pub open spec fn full_data_descriptor(v: Value) -> PropertyDescriptor {
    PropertyDescriptor {
        value: Some(v),
        writable: Some(true),
        get: None,
        set: None,
        enumerable: Some(true),
        configurable: Some(true),
    }
}

/// Defining index `i` with a full default-attribute data descriptor and
/// reading it back returns the same descriptor.
pub proof fn lemma_define_then_get_own(
    pre: Heap,
    post: Heap,
    a: int,
    idx: u32,
    v: Value,
    r: TryResult<Result<bool, crate::value::JsError>>,
)
    requires
        pre.array_wf(a),
        post.array_wf(a),
        idx <= MAX_ARRAY_INDEX,
        array_define_post(pre, post, a, PropertyKey::Integer(idx as i64), full_data_descriptor(v), r),
        r matches TryResult::Continue(c) && c == Ok::<bool, crate::value::JsError>(true),
    ensures
        array_get_own_spec(post, a, PropertyKey::Integer(idx as i64)) == Some(
            full_data_descriptor(v),
        ),
{
    let key = PropertyKey::Integer(idx as i64);
    let desc = full_data_descriptor(v);
    assert(classify_key_spec(key) == ArrayKeyKind::Index(idx));
    if idx < pre.arr(a).length {
        let vres = validate_apply_spec(
            pre.arr(a).len_writable,
            desc,
            elem_state(pre, a, idx as int),
        );
        match vres {
            None => {
                assert(false);
            },
            Some(ns) => {
                assert(ns == (PropertySlot {
                    value: Some(v),
                    get: None,
                    set: None,
                    writable: true,
                    enumerable: true,
                    configurable: true,
                }));
                assert(slot_to_element_spec(ns).0 == Some(v));
                assert(slot_to_element_spec(ns).1 == None::<ElementDescriptor>);
                assert(post.arr(a).length == pre.arr(a).length);
            },
        }
    } else {
        let ns = new_slot_spec(desc);
        assert(ns == (PropertySlot {
            value: Some(v),
            get: None,
            set: None,
            writable: true,
            enumerable: true,
            configurable: true,
        }));
        assert(slot_to_element_spec(ns).0 == Some(v));
        assert(slot_to_element_spec(ns).1 == None::<ElementDescriptor>);
        assert(post.arr(a).length == idx + 1);
    }
}

/// Reading back the elements an array was created from returns them
/// unchanged, in index order.
pub proof fn lemma_create_array_round_trip(
    h: Heap,
    a: u32,
    vals: Seq<Value>,
    i: int,
    dp: Option<ObjectHandle>,
)
    requires
        h.array_wf(a as int),
        arr_len(h, a as int) == vals.len(),
        vals.len() <= MAX_ARRAY_INDEX + 1,
        forall|j: int| 0 <= j < vals.len() ==> elem_value(h, a as int, j) == Some(vals[j]),
        0 <= i < vals.len(),
    ensures
        spec_get(
            h,
            ObjectHandle::Array(a),
            KeyAbs::Int(i),
            dp,
            PROTO_CHAIN_LIMIT as nat,
        ) == GetOutcome::Val(vals[i]),
{
    assert(classify_abs_spec(KeyAbs::Int(i)) == ArrayKeyKind::Index(i as u32));
    assert(elem_value(h, a as int, i) == Some(vals[i]));
}


impl Array {
    /// Array [[SetExtensible]]-style sealing: the length-writable flag
    /// doubles as the element store's extensibility, and the backing
    /// object follows, created on demand when sealing an array that has
    /// none yet.
    pub fn internal_set_extensible(
        self,
        h: &mut Heap,
        value: bool,
        proto: Option<ObjectHandle>,
    )
        requires
            old(h).array_wf(self.0 as int),
            old(h).objects@.len() < u32::MAX,
            proto matches Some(p) ==> old(h).handle_live(p),
        ensures
            final(h).array_wf(self.0 as int),
            final(h).arr(self.0 as int).len_writable == value,
            final(h).arr(self.0 as int).length == old(h).arr(self.0 as int).length,
            final(h).arr(self.0 as int).storage == old(h).arr(self.0 as int).storage,
            backing_extensible(*final(h), self.0 as int) == value,
            final(h).storages == old(h).storages,
            final(h).functions == old(h).functions,
            final(h).arrays@.len() == old(h).arrays@.len(),
    {
        let mut rec = h.array(self.0);
        rec.len_writable = value;
        h.set_array(self.0, rec);
        let backing = match self.get_backing_object(h) {
            Some(o) => o,
            None => self.create_backing_object(h, proto),
        };
        let ghost mid = *h;
        h.object_set_extensible(backing, value);
        proof {
            set_extensible_preserves_wf(mid, *h, self.0 as int, backing);
        }
    }

    /// Array [[SetPrototypeOf]]: the prototype lives on the backing object,
    /// which is created when the requested prototype differs from the
    /// realm's current default.
    pub fn internal_set_prototype(
        self,
        h: &mut Heap,
        prototype: Option<ObjectHandle>,
        current_default: Option<ObjectHandle>,
    )
        requires
            old(h).array_wf(self.0 as int),
            old(h).objects@.len() < u32::MAX,
            prototype matches Some(p) ==> old(h).handle_live(p),
        ensures
            final(h).array_wf(self.0 as int),
            old(h).arr(self.0 as int).object_index is None && prototype == current_default
                ==> *final(h) == *old(h),
            !(old(h).arr(self.0 as int).object_index is None && prototype == current_default)
                ==> array_prototype_spec(*final(h), self.0 as int, current_default) == prototype,
            final(h).arr(self.0 as int).length == old(h).arr(self.0 as int).length,
            final(h).arr(self.0 as int).len_writable == old(h).arr(self.0 as int).len_writable,
            final(h).storages == old(h).storages,
            final(h).functions == old(h).functions,
            final(h).arrays@.len() == old(h).arrays@.len(),
    {
        match self.get_backing_object(h) {
            Some(o) => {
                let ghost mid = *h;
                h.object_set_prototype(o, prototype);
                proof {
                    set_prototype_preserves_wf(mid, *h, self.0 as int, o, prototype);
                }
            },
            None => {
                // Keeping the realm default needs no backing object.
                let same = match (&prototype, &current_default) {
                    (None, None) => true,
                    (Some(p1), Some(p2)) => *p1 == *p2,
                    _ => false,
                };
                if same {
                    return ;
                }
                self.create_backing_object(h, prototype);
            },
        }
    }
}

/// Flipping the backing object's extensible bit keeps the array well
/// formed.
pub proof fn set_extensible_preserves_wf(pre: Heap, post: Heap, a: int, o: u32)
    requires
        pre.array_wf(a),
        pre.arr(a).object_index == Some(o),
        post.arrays == pre.arrays,
        post.storages == pre.storages,
        post.objects@.len() == pre.objects@.len(),
        forall|t: int|
            0 <= t < pre.objects@.len() && t != o as int ==> #[trigger] post.objects@[t]
                == pre.objects@[t],
        post.object_live(o as int),
        post.obj(o as int).prototype == pre.obj(o as int).prototype,
        post.obj(o as int).properties == pre.obj(o as int).properties,
    ensures
        post.array_wf(a),
{
    let st = pre.arr(a).storage as int;
    assert(post.sto(st) == pre.sto(st));
    assert forall|p: int|
        post.arr(a).length <= p < post.sto(st).values@.len() implies #[trigger] post.sto(
        st,
    ).is_hole(p) by {
        assert(pre.sto(st).is_hole(p));
    }
    assert(pre.object_wf(o as int));
    assert forall|i: int|
        0 <= i < post.obj(o as int).properties@.len() implies !crate::heap::is_index_key(
        (#[trigger] post.obj(o as int).properties@[i]).key,
    ) by {
        assert(!crate::heap::is_index_key(pre.obj(o as int).properties@[i].key));
    }
}

/// Re-pointing the backing object's prototype at a live handle keeps the
/// array well formed.
pub proof fn set_prototype_preserves_wf(
    pre: Heap,
    post: Heap,
    a: int,
    o: u32,
    prototype: Option<ObjectHandle>,
)
    requires
        pre.array_wf(a),
        pre.arr(a).object_index == Some(o),
        post.arrays == pre.arrays,
        post.storages == pre.storages,
        post.objects@.len() == pre.objects@.len(),
        forall|t: int|
            0 <= t < pre.objects@.len() && t != o as int ==> #[trigger] post.objects@[t]
                == pre.objects@[t],
        post.object_live(o as int),
        post.obj(o as int).prototype == prototype,
        prototype matches Some(p) ==> post.handle_live(p),
        post.obj(o as int).properties == pre.obj(o as int).properties,
    ensures
        post.array_wf(a),
{
    let st = pre.arr(a).storage as int;
    assert(post.sto(st) == pre.sto(st));
    assert forall|p: int|
        post.arr(a).length <= p < post.sto(st).values@.len() implies #[trigger] post.sto(
        st,
    ).is_hole(p) by {
        assert(pre.sto(st).is_hole(p));
    }
    assert(pre.object_wf(o as int));
    assert forall|i: int|
        0 <= i < post.obj(o as int).properties@.len() implies !crate::heap::is_index_key(
        (#[trigger] post.obj(o as int).properties@[i]).key,
    ) by {
        assert(!crate::heap::is_index_key(pre.obj(o as int).properties@[i].key));
    }
}

} // verus!
