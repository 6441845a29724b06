//! Typed arenas of entity records, the handles into them, and the Agent that
//! owns the heap.
//!
//! A handle is a 32-bit index into the arena of its kind. An arena slot is
//! `None` when the record it held was reclaimed by the collector; every live
//! handle points at a `Some` slot.

use vstd::prelude::*;

use crate::elements::{ElementDescriptor, ElementStorage};
use crate::value::{KeyAbs, PropertyKey, Value, MAX_ARRAY_INDEX};

verus! {

/// Heap data of one Array: the lazily-created backing object for its
/// non-index properties, and its element storage with the `length` coupling.
#[derive(Debug, Clone, Copy)]
pub struct ArrayRecord {
    pub object_index: Option<u32>,
    pub storage: u32,
    pub length: u32,
    pub len_writable: bool,
}

/// One named property of an ordinary object: either a data slot (value plus
/// writable bit) or an accessor pair.
#[derive(Debug)]
pub struct PropertySlot {
    pub value: Option<Value>,
    pub get: Option<u32>,
    pub set: Option<u32>,
    pub writable: bool,
    pub enumerable: bool,
    pub configurable: bool,
}

impl PropertySlot {
    /// An accessor slot holds no value; a data slot holds one.
    pub open spec fn wf(self) -> bool {
        if self.get is Some || self.set is Some {
            self.value is None
        } else {
            self.value is Some
        }
    }

    pub open spec fn is_accessor_spec(self) -> bool {
        self.get is Some || self.set is Some
    }

    pub fn duplicate(&self) -> (r: PropertySlot)
        ensures
            r == *self,
    {
        PropertySlot {
            value: match &self.value {
                Some(v) => Some(v.duplicate()),
                None => None,
            },
            get: self.get,
            set: self.set,
            writable: self.writable,
            enumerable: self.enumerable,
            configurable: self.configurable,
        }
    }
}

#[derive(Debug)]
pub struct PropertyEntry {
    pub key: PropertyKey,
    pub slot: PropertySlot,
}

impl PropertyEntry {
    pub fn duplicate(&self) -> (r: PropertyEntry)
        ensures
            r == *self,
    {
        PropertyEntry { key: self.key.duplicate(), slot: self.slot.duplicate() }
    }
}

/// A reference to an object of any variant.
#[derive(Debug, Clone, Copy, PartialEq, Eq, Structural)]
pub enum ObjectHandle {
    Ordinary(u32),
    Array(u32),
}

/// Heap data of one ordinary object.
#[derive(Debug)]
pub struct ObjectRecord {
    pub prototype: Option<ObjectHandle>,
    pub extensible: bool,
    pub properties: Vec<PropertyEntry>,
}

/// Heap data of one function object. The core never reads a function's
/// behaviour; calling one is the host's business.
#[derive(Debug)]
pub struct FunctionRecord {
    pub name: String,
    pub is_async: bool,
    pub is_generator: bool,
}

/// Whether a key is an integer index in array index range.
pub open spec fn is_index_key(k: PropertyKey) -> bool {
    k.abs() matches KeyAbs::Int(n) && 0 <= n <= MAX_ARRAY_INDEX
}

/// The numeric value of an integer key; zero for others.
pub open spec fn int_key_val(k: PropertyKey) -> int {
    match k.abs() {
        KeyAbs::Int(n) => n,
        _ => 0,
    }
}

/// Integer-index keys occur in strictly ascending numeric order, which makes
/// own-key enumeration a plain scan.
pub open spec fn index_keys_ascending(props: Seq<PropertyEntry>) -> bool {
    forall|i: int, j: int|
        0 <= i < j < props.len() && is_index_key(#[trigger] props[i].key) && is_index_key(
            #[trigger] props[j].key,
        ) ==> int_key_val(props[i].key) < int_key_val(props[j].key)
}

/// The typed arenas.
#[derive(Debug)]
pub struct Heap {
    pub arrays: Vec<Option<ArrayRecord>>,
    pub objects: Vec<Option<ObjectRecord>>,
    pub storages: Vec<Option<ElementStorage>>,
    pub functions: Vec<Option<FunctionRecord>>,
}

impl Heap {
    pub fn new() -> (h: Heap)
        ensures
            h.arrays@.len() == 0,
            h.objects@.len() == 0,
            h.storages@.len() == 0,
            h.functions@.len() == 0,
    {
        Heap { arrays: Vec::new(), objects: Vec::new(), storages: Vec::new(), functions: Vec::new() }
    }

    // ---- specs -----------------------------------------------------------

    pub open spec fn array_live(self, a: int) -> bool {
        0 <= a < self.arrays@.len() && self.arrays@[a] is Some
    }

    pub open spec fn arr(self, a: int) -> ArrayRecord {
        self.arrays@[a].unwrap()
    }

    pub open spec fn object_live(self, o: int) -> bool {
        0 <= o < self.objects@.len() && self.objects@[o] is Some
    }

    pub open spec fn obj(self, o: int) -> ObjectRecord {
        self.objects@[o].unwrap()
    }

    pub open spec fn storage_live(self, s: int) -> bool {
        0 <= s < self.storages@.len() && self.storages@[s] is Some
    }

    pub open spec fn sto(self, s: int) -> ElementStorage {
        self.storages@[s].unwrap()
    }

    pub open spec fn function_live(self, f: int) -> bool {
        0 <= f < self.functions@.len() && self.functions@[f] is Some
    }

    pub open spec fn func(self, f: int) -> FunctionRecord {
        self.functions@[f].unwrap()
    }

    pub open spec fn handle_live(self, h: ObjectHandle) -> bool {
        match h {
            ObjectHandle::Ordinary(o) => self.object_live(o as int),
            ObjectHandle::Array(a) => self.array_live(a as int),
        }
    }

    /// Well-formedness of one live object record: property slots are well
    /// formed, property keys are pairwise distinct, and the prototype, if
    /// any, is live.
    pub open spec fn object_wf(self, o: int) -> bool {
        &&& self.object_live(o)
        &&& (forall|i: int|
            0 <= i < self.obj(o).properties@.len() ==> (
            #[trigger] self.obj(o).properties@[i].slot).wf())
        &&& (forall|i: int, j: int|
            0 <= i < j < self.obj(o).properties@.len() ==> (#[trigger] self.obj(
                o,
            ).properties@[i].key.abs()) != (#[trigger] self.obj(o).properties@[j].key.abs()))
        &&& index_keys_ascending(self.obj(o).properties@)
        &&& match self.obj(o).prototype {
            Some(p) => self.handle_live(p),
            None => true,
        }
    }

    /// Whether a key is an integer index in array index range.
    pub open spec fn key_in_index_range(k: PropertyKey) -> bool {
        is_index_key(k)
    }

    /// Well-formedness of one live array: its storage is live and well
    /// formed, the length fits the capacity, every slot at and beyond the
    /// length is a hole, accessor descriptors coincide with valueless slots,
    /// and the backing object, if present, is well formed and holds no
    /// integer-indexed key in array index range.
    pub open spec fn array_wf(self, a: int) -> bool {
        &&& self.array_live(a)
        &&& self.storage_live(self.arr(a).storage as int)
        &&& self.sto(self.arr(a).storage as int).wf()
        &&& self.arr(a).length <= self.sto(self.arr(a).storage as int).values@.len()
        &&& (forall|i: int|
            self.arr(a).length <= i < self.sto(self.arr(a).storage as int).values@.len()
                ==> #[trigger] self.sto(self.arr(a).storage as int).is_hole(i))
        &&& (forall|i: int|
            0 <= i < self.sto(self.arr(a).storage as int).values@.len() ==> match (#[trigger] self
                .sto(self.arr(a).storage as int)
                .descriptor_at(i)) {
                Some(d) => d.is_accessor_spec() <==> self.sto(
                    self.arr(a).storage as int,
                ).values@[i] is None,
                None => true,
            })
        &&& match self.arr(a).object_index {
            Some(o) => self.object_wf(o as int) && (forall|i: int|
                0 <= i < self.obj(o as int).properties@.len() ==> !Self::key_in_index_range(
                    (#[trigger] self.obj(o as int).properties@[i]).key,
                )),
            None => true,
        }
    }

    // ---- arrays ----------------------------------------------------------

    pub fn array(&self, a: u32) -> (r: ArrayRecord)
        requires
            self.array_live(a as int),
        ensures
            r == self.arr(a as int),
    {
        self.arrays[a as usize].unwrap()
    }

    pub fn set_array(&mut self, a: u32, rec: ArrayRecord)
        requires
            old(self).array_live(a as int),
        ensures
            final(self).arrays@ == old(self).arrays@.update(a as int, Some(rec)),
            final(self).objects == old(self).objects,
            final(self).storages == old(self).storages,
            final(self).functions == old(self).functions,
    {
        self.arrays[a as usize] = Some(rec);
        proof {
            assert(final(self).arrays@ =~= old(self).arrays@.update(a as int, Some(rec)));
        }
    }

    pub fn create_array(&mut self, rec: ArrayRecord) -> (a: u32)
        requires
            old(self).arrays@.len() < u32::MAX,
        ensures
            a as int == old(self).arrays@.len(),
            final(self).arrays@ == old(self).arrays@.push(Some(rec)),
            final(self).objects == old(self).objects,
            final(self).storages == old(self).storages,
            final(self).functions == old(self).functions,
    {
        let a = self.arrays.len() as u32;
        self.arrays.push(Some(rec));
        a
    }

    // ---- storages --------------------------------------------------------

    pub fn storage_capacity(&self, s: u32) -> (r: usize)
        requires
            self.storage_live(s as int),
        ensures
            r == self.sto(s as int).values@.len(),
    {
        self.storages[s as usize].as_ref().unwrap().values.len()
    }

    pub fn storage_value(&self, s: u32, i: usize) -> (r: Option<Value>)
        requires
            self.storage_live(s as int),
            i < self.sto(s as int).values@.len(),
        ensures
            r == self.sto(s as int).values@[i as int],
    {
        match &self.storages[s as usize].as_ref().unwrap().values[i] {
            Some(v) => Some(v.duplicate()),
            None => None,
        }
    }

    pub fn storage_descriptor(&self, s: u32, i: usize) -> (r: Option<ElementDescriptor>)
        requires
            self.storage_live(s as int),
            self.sto(s as int).wf(),
            i < self.sto(s as int).values@.len(),
        ensures
            r == self.sto(s as int).descriptor_at(i as int),
    {
        match &self.storages[s as usize].as_ref().unwrap().descriptors {
            Some(d) => d[i],
            None => None,
        }
    }

    pub fn storage_set_value(&mut self, s: u32, i: usize, v: Option<Value>)
        requires
            old(self).storage_live(s as int),
            i < old(self).sto(s as int).values@.len(),
        ensures
            final(self).storage_live(s as int),
            final(self).sto(s as int).values@ == old(self).sto(s as int).values@.update(
                i as int,
                v,
            ),
            final(self).sto(s as int).descriptors == old(self).sto(s as int).descriptors,
            forall|t: int|
                0 <= t < old(self).storages@.len() && t != s as int ==> #[trigger] final(self).storages@[t] == old(self).storages@[t],
            final(self).storages@.len() == old(self).storages@.len(),
            final(self).arrays == old(self).arrays,
            final(self).objects == old(self).objects,
            final(self).functions == old(self).functions,
    {
        let mut st = self.storages[s as usize].take().unwrap();
        st.values[i] = v;
        self.storages[s as usize] = Some(st);
    }

    pub fn storage_set_descriptor(&mut self, s: u32, i: usize, d: Option<ElementDescriptor>)
        requires
            old(self).storage_live(s as int),
            old(self).sto(s as int).wf(),
            i < old(self).sto(s as int).values@.len(),
            d matches Some(dd) ==> dd.wf(),
        ensures
            final(self).storage_live(s as int),
            final(self).sto(s as int).wf(),
            final(self).sto(s as int).values == old(self).sto(s as int).values,
            final(self).sto(s as int).values@.len() == old(self).sto(s as int).values@.len(),
            forall|j: int|
                0 <= j < old(self).sto(s as int).values@.len() ==> #[trigger] final(self).sto(
                    s as int,
                ).descriptor_at(j) == (if j == i as int {
                    d
                } else {
                    old(self).sto(s as int).descriptor_at(j)
                }),
            forall|t: int|
                0 <= t < old(self).storages@.len() && t != s as int ==> #[trigger] final(self).storages@[t] == old(self).storages@[t],
            final(self).storages@.len() == old(self).storages@.len(),
            final(self).arrays == old(self).arrays,
            final(self).objects == old(self).objects,
            final(self).functions == old(self).functions,
    {
        let mut st = self.storages[s as usize].take().unwrap();
        match &mut st.descriptors {
            Some(tab) => {
                tab[i] = d;
            },
            None => {
                if d.is_some() {
                    let n = st.values.len();
                    let mut tab: Vec<Option<ElementDescriptor>> = Vec::new();
                    let mut k: usize = 0;
                    while k < n
                        invariant
                            k <= n,
                            tab@.len() == k,
                            forall|j: int| 0 <= j < k ==> tab@[j] is None,
                        decreases n - k,
                    {
                        tab.push(None);
                        k += 1;
                    }
                    tab[i] = d;
                    st.descriptors = Some(tab);
                }
            },
        }
        self.storages[s as usize] = Some(st);
    }

    /// Grows the storage so that at least `need` slots exist; new slots are
    /// holes. Slots already present keep their contents.
    pub fn storage_reserve(&mut self, s: u32, need: usize)
        requires
            old(self).storage_live(s as int),
            old(self).sto(s as int).wf(),
        ensures
            final(self).storage_live(s as int),
            final(self).sto(s as int).wf(),
            final(self).sto(s as int).values@.len() >= need,
            final(self).sto(s as int).values@.len() >= old(self).sto(s as int).values@.len(),
            forall|j: int|
                0 <= j < old(self).sto(s as int).values@.len() ==> #[trigger] final(self).sto(
                    s as int,
                ).values@[j] == old(self).sto(s as int).values@[j],
            forall|j: int|
                0 <= j < old(self).sto(s as int).values@.len() ==> #[trigger] final(self).sto(
                    s as int,
                ).descriptor_at(j) == old(self).sto(s as int).descriptor_at(j),
            forall|j: int|
                old(self).sto(s as int).values@.len() <= j < final(self).sto(
                    s as int,
                ).values@.len() ==> #[trigger] final(self).sto(s as int).is_hole(j),
            forall|t: int|
                0 <= t < old(self).storages@.len() && t != s as int ==> #[trigger] final(self).storages@[t] == old(self).storages@[t],
            final(self).storages@.len() == old(self).storages@.len(),
            final(self).arrays == old(self).arrays,
            final(self).objects == old(self).objects,
            final(self).functions == old(self).functions,
    {
        let mut st = self.storages[s as usize].take().unwrap();
        let n = st.values.len();
        if n < need {
            let mut k: usize = n;
            while k < need
                invariant
                    n <= k <= need,
                    st.values@.len() == k,
                    forall|j: int|
                        0 <= j < n ==> #[trigger] st.values@[j] == old(self).sto(
                            s as int,
                        ).values@[j],
                    forall|j: int| n <= j < k ==> #[trigger] st.values@[j] is None,
                    st.descriptors == old(self).sto(s as int).descriptors,
                decreases need - k,
            {
                st.values.push(None);
                k += 1;
            }
            match &mut st.descriptors {
                Some(tab) => {
                    let start = tab.len();
                    let mut k2: usize = start;
                    while k2 < need
                        invariant
                            start <= k2 <= need,
                            tab@.len() == k2,
                            forall|j: int| 0 <= j < start ==> #[trigger] tab@[j] == old(self).sto(
                                s as int,
                            ).descriptor_at(j),
                            forall|j: int| start <= j < k2 ==> #[trigger] tab@[j] is None,
                            old(self).sto(s as int).descriptors is Some,
                            start == old(self).sto(s as int).values@.len(),
                            forall|j: int|
                                0 <= j < start && old(self).sto(s as int).descriptor_at(j) is Some
                                    ==> (#[trigger] old(self).sto(s as int).descriptor_at(
                                    j,
                                )).unwrap().wf(),
                        decreases need - k2,
                    {
                        tab.push(None);
                        k2 += 1;
                    }
                },
                None => {},
            }
        }
        self.storages[s as usize] = Some(st);
    }

    pub fn create_storage(&mut self, values: Vec<Option<Value>>) -> (s: u32)
        requires
            old(self).storages@.len() < u32::MAX,
        ensures
            s as int == old(self).storages@.len(),
            final(self).storages@.len() == old(self).storages@.len() + 1,
            final(self).storage_live(s as int),
            final(self).sto(s as int).values == values,
            final(self).sto(s as int).descriptors is None,
            forall|t: int|
                0 <= t < old(self).storages@.len() ==> #[trigger] final(self).storages@[t] == old(
                    self,
                ).storages@[t],
            final(self).arrays == old(self).arrays,
            final(self).objects == old(self).objects,
            final(self).functions == old(self).functions,
    {
        let s = self.storages.len() as u32;
        self.storages.push(Some(ElementStorage { values, descriptors: None }));
        s
    }

    /// A shallow clone of a storage: values are copied, descriptors are not,
    /// so an accessor slot of the original becomes a hole of the clone.
    pub fn shallow_clone(&mut self, s: u32) -> (c: u32)
        requires
            old(self).storage_live(s as int),
            old(self).storages@.len() < u32::MAX,
        ensures
            c as int == old(self).storages@.len(),
            final(self).storages@.len() == old(self).storages@.len() + 1,
            final(self).storage_live(c as int),
            final(self).sto(c as int).values@ == old(self).sto(s as int).values@,
            final(self).sto(c as int).descriptors is None,
            forall|t: int|
                0 <= t < old(self).storages@.len() ==> #[trigger] final(self).storages@[t] == old(
                    self,
                ).storages@[t],
            final(self).arrays == old(self).arrays,
            final(self).objects == old(self).objects,
            final(self).functions == old(self).functions,
    {
        let n = self.storage_capacity(s);
        let mut values: Vec<Option<Value>> = Vec::new();
        let mut k: usize = 0;
        while k < n
            invariant
                k <= n,
                values@.len() == k,
                self == old(self),
                old(self).storage_live(s as int),
                n == old(self).sto(s as int).values@.len(),
                forall|j: int|
                    0 <= j < k ==> #[trigger] values@[j] == old(self).sto(s as int).values@[j],
            decreases n - k,
        {
            let v = self.storage_value(s, k);
            values.push(v);
            k += 1;
        }
        let c = self.create_storage(values);
        proof {
            assert(final(self).sto(c as int).values@ =~= old(self).sto(s as int).values@);
        }
        c
    }

    // ---- objects ---------------------------------------------------------

    pub fn object_prototype(&self, o: u32) -> (r: Option<ObjectHandle>)
        requires
            self.object_live(o as int),
        ensures
            r == self.obj(o as int).prototype,
    {
        self.objects[o as usize].as_ref().unwrap().prototype
    }

    pub fn object_extensible(&self, o: u32) -> (r: bool)
        requires
            self.object_live(o as int),
        ensures
            r == self.obj(o as int).extensible,
    {
        self.objects[o as usize].as_ref().unwrap().extensible
    }

    pub fn object_prop_len(&self, o: u32) -> (r: usize)
        requires
            self.object_live(o as int),
        ensures
            r == self.obj(o as int).properties@.len(),
    {
        self.objects[o as usize].as_ref().unwrap().properties.len()
    }

    pub fn object_prop_at(&self, o: u32, i: usize) -> (r: PropertyEntry)
        requires
            self.object_live(o as int),
            i < self.obj(o as int).properties@.len(),
        ensures
            r == self.obj(o as int).properties@[i as int],
    {
        self.objects[o as usize].as_ref().unwrap().properties[i].duplicate()
    }

    pub fn create_object(&mut self, rec: ObjectRecord) -> (o: u32)
        requires
            old(self).objects@.len() < u32::MAX,
        ensures
            o as int == old(self).objects@.len(),
            final(self).objects@ == old(self).objects@.push(Some(rec)),
            final(self).arrays == old(self).arrays,
            final(self).storages == old(self).storages,
            final(self).functions == old(self).functions,
    {
        let o = self.objects.len() as u32;
        self.objects.push(Some(rec));
        o
    }

    pub fn object_set_prototype(&mut self, o: u32, p: Option<ObjectHandle>)
        requires
            old(self).object_live(o as int),
        ensures
            final(self).object_live(o as int),
            final(self).obj(o as int).prototype == p,
            final(self).obj(o as int).extensible == old(self).obj(o as int).extensible,
            final(self).obj(o as int).properties == old(self).obj(o as int).properties,
            forall|t: int|
                0 <= t < old(self).objects@.len() && t != o as int ==> #[trigger] final(self).objects@[t] == old(self).objects@[t],
            final(self).objects@.len() == old(self).objects@.len(),
            final(self).arrays == old(self).arrays,
            final(self).storages == old(self).storages,
            final(self).functions == old(self).functions,
    {
        let mut rec = self.objects[o as usize].take().unwrap();
        rec.prototype = p;
        self.objects[o as usize] = Some(rec);
    }

    pub fn object_set_extensible(&mut self, o: u32, e: bool)
        requires
            old(self).object_live(o as int),
        ensures
            final(self).object_live(o as int),
            final(self).obj(o as int).prototype == old(self).obj(o as int).prototype,
            final(self).obj(o as int).extensible == e,
            final(self).obj(o as int).properties == old(self).obj(o as int).properties,
            forall|t: int|
                0 <= t < old(self).objects@.len() && t != o as int ==> #[trigger] final(self).objects@[t] == old(self).objects@[t],
            final(self).objects@.len() == old(self).objects@.len(),
            final(self).arrays == old(self).arrays,
            final(self).storages == old(self).storages,
            final(self).functions == old(self).functions,
    {
        let mut rec = self.objects[o as usize].take().unwrap();
        rec.extensible = e;
        self.objects[o as usize] = Some(rec);
    }

    pub fn object_push_property(&mut self, o: u32, entry: PropertyEntry)
        requires
            old(self).object_live(o as int),
        ensures
            final(self).object_live(o as int),
            final(self).obj(o as int).prototype == old(self).obj(o as int).prototype,
            final(self).obj(o as int).extensible == old(self).obj(o as int).extensible,
            final(self).obj(o as int).properties@ == old(self).obj(
                o as int,
            ).properties@.push(entry),
            forall|t: int|
                0 <= t < old(self).objects@.len() && t != o as int ==> #[trigger] final(self).objects@[t] == old(self).objects@[t],
            final(self).objects@.len() == old(self).objects@.len(),
            final(self).arrays == old(self).arrays,
            final(self).storages == old(self).storages,
            final(self).functions == old(self).functions,
    {
        let mut rec = self.objects[o as usize].take().unwrap();
        rec.properties.push(entry);
        self.objects[o as usize] = Some(rec);
    }

    pub fn object_insert_prop_at(&mut self, o: u32, i: usize, entry: PropertyEntry)
        requires
            old(self).object_live(o as int),
            i <= old(self).obj(o as int).properties@.len(),
            old(self).obj(o as int).properties@.len() < usize::MAX,
        ensures
            final(self).object_live(o as int),
            final(self).obj(o as int).prototype == old(self).obj(o as int).prototype,
            final(self).obj(o as int).extensible == old(self).obj(o as int).extensible,
            final(self).obj(o as int).properties@ == old(self).obj(o as int).properties@.insert(
                i as int,
                entry,
            ),
            forall|t: int|
                0 <= t < old(self).objects@.len() && t != o as int ==> #[trigger] final(self).objects@[t] == old(self).objects@[t],
            final(self).objects@.len() == old(self).objects@.len(),
            final(self).arrays == old(self).arrays,
            final(self).storages == old(self).storages,
            final(self).functions == old(self).functions,
    {
        let mut rec = self.objects[o as usize].take().unwrap();
        rec.properties.insert(i, entry);
        self.objects[o as usize] = Some(rec);
    }

    pub fn object_set_prop_at(&mut self, o: u32, i: usize, entry: PropertyEntry)
        requires
            old(self).object_live(o as int),
            i < old(self).obj(o as int).properties@.len(),
        ensures
            final(self).object_live(o as int),
            final(self).obj(o as int).prototype == old(self).obj(o as int).prototype,
            final(self).obj(o as int).extensible == old(self).obj(o as int).extensible,
            final(self).obj(o as int).properties@ == old(self).obj(o as int).properties@.update(
                i as int,
                entry,
            ),
            forall|t: int|
                0 <= t < old(self).objects@.len() && t != o as int ==> #[trigger] final(self).objects@[t] == old(self).objects@[t],
            final(self).objects@.len() == old(self).objects@.len(),
            final(self).arrays == old(self).arrays,
            final(self).storages == old(self).storages,
            final(self).functions == old(self).functions,
    {
        let mut rec = self.objects[o as usize].take().unwrap();
        rec.properties[i] = entry;
        self.objects[o as usize] = Some(rec);
    }

    pub fn object_remove_prop_at(&mut self, o: u32, i: usize)
        requires
            old(self).object_live(o as int),
            i < old(self).obj(o as int).properties@.len(),
        ensures
            final(self).object_live(o as int),
            final(self).obj(o as int).prototype == old(self).obj(o as int).prototype,
            final(self).obj(o as int).extensible == old(self).obj(o as int).extensible,
            final(self).obj(o as int).properties@ == old(self).obj(o as int).properties@.remove(
                i as int,
            ),
            forall|t: int|
                0 <= t < old(self).objects@.len() && t != o as int ==> #[trigger] final(self).objects@[t] == old(self).objects@[t],
            final(self).objects@.len() == old(self).objects@.len(),
            final(self).arrays == old(self).arrays,
            final(self).storages == old(self).storages,
            final(self).functions == old(self).functions,
    {
        let mut rec = self.objects[o as usize].take().unwrap();
        rec.properties.remove(i);
        self.objects[o as usize] = Some(rec);
    }

    /// The index of the own property with the given key, if any.
    pub fn find_own_property(&self, o: u32, key: &PropertyKey) -> (r: Option<usize>)
        requires
            self.object_live(o as int),
        ensures
            match r {
                Some(i) => i < self.obj(o as int).properties@.len() && self.obj(
                    o as int,
                ).properties@[i as int].key.abs() == key.abs() && (forall|j: int|
                    0 <= j < i ==> (#[trigger] self.obj(o as int).properties@[j].key.abs())
                        != key.abs()),
                None => forall|i: int|
                    0 <= i < self.obj(o as int).properties@.len() ==> (#[trigger] self.obj(
                        o as int,
                    ).properties@[i].key.abs()) != key.abs(),
            },
    {
        let n = self.object_prop_len(o);
        let mut i: usize = 0;
        while i < n
            invariant
                i <= n,
                self.object_live(o as int),
                n == self.obj(o as int).properties@.len(),
                forall|j: int|
                    0 <= j < i ==> (#[trigger] self.obj(o as int).properties@[j].key.abs())
                        != key.abs(),
            decreases n - i,
        {
            let entry = self.object_prop_at(o, i);
            if crate::value::key_eq(&entry.key, key) {
                return Some(i);
            }
            i += 1;
        }
        None
    }

    // ---- functions -------------------------------------------------------

    pub fn create_function(&mut self, rec: FunctionRecord) -> (f: u32)
        requires
            old(self).functions@.len() < u32::MAX,
        ensures
            f as int == old(self).functions@.len(),
            final(self).functions@ == old(self).functions@.push(Some(rec)),
            final(self).arrays == old(self).arrays,
            final(self).objects == old(self).objects,
            final(self).storages == old(self).storages,
    {
        let f = self.functions.len() as u32;
        self.functions.push(Some(rec));
        f
    }

    pub fn function_name(&self, f: u32) -> (r: String)
        requires
            self.function_live(f as int),
        ensures
            r@ == self.func(f as int).name@,
    {
        self.functions[f as usize].as_ref().unwrap().name.clone()
    }

    pub fn function_flags(&self, f: u32) -> (r: (bool, bool))
        requires
            self.function_live(f as int),
        ensures
            r.0 == self.func(f as int).is_async,
            r.1 == self.func(f as int).is_generator,
    {
        let rec = self.functions[f as usize].as_ref().unwrap();
        (rec.is_async, rec.is_generator)
    }
}

} // verus!
