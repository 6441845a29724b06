//! Ordinary-object internal methods, and the ValidateAndApplyPropertyDescriptor
//! algorithm shared with the Array exotic object.

use vstd::prelude::*;

use crate::elements::opt_or_false;
use crate::heap::{Heap, ObjectHandle, PropertyEntry, PropertySlot};
use crate::value::{KeyAbs, PropertyDescriptor, PropertyKey, Value, MAX_ARRAY_INDEX};

verus! {

/// The full property descriptor a slot expands to.
pub open spec fn slot_to_descriptor_spec(s: PropertySlot) -> PropertyDescriptor {
    if s.is_accessor_spec() {
        PropertyDescriptor {
            value: None,
            writable: None,
            get: s.get,
            set: s.set,
            enumerable: Some(s.enumerable),
            configurable: Some(s.configurable),
        }
    } else {
        PropertyDescriptor {
            value: s.value,
            writable: Some(s.writable),
            get: None,
            set: None,
            enumerable: Some(s.enumerable),
            configurable: Some(s.configurable),
        }
    }
}

pub fn slot_to_descriptor(s: &PropertySlot) -> (r: PropertyDescriptor)
    ensures
        r == slot_to_descriptor_spec(*s),
{
    if s.get.is_some() || s.set.is_some() {
        PropertyDescriptor {
            value: None,
            writable: None,
            get: s.get,
            set: s.set,
            enumerable: Some(s.enumerable),
            configurable: Some(s.configurable),
        }
    } else {
        PropertyDescriptor {
            value: match &s.value {
                Some(v) => Some(v.duplicate()),
                None => None,
            },
            writable: Some(s.writable),
            get: None,
            set: None,
            enumerable: Some(s.enumerable),
            configurable: Some(s.configurable),
        }
    }
}

/// Whether ValidateAndApplyPropertyDescriptor refuses the change on a
/// non-configurable current property.
pub open spec fn refused_on_nonconfigurable_spec(
    desc: PropertyDescriptor,
    cur: PropertySlot,
) -> bool {
    ||| desc.configurable == Some(true)
    ||| (desc.enumerable is Some && opt_or_false(desc.enumerable) != cur.enumerable)
    ||| (!desc.is_generic_spec() && desc.is_accessor_spec() != cur.is_accessor_spec())
    ||| (cur.is_accessor_spec() && ((desc.get is Some && desc.get != cur.get) || (desc.set is Some
        && desc.set != cur.set)))
    ||| (!cur.is_accessor_spec() && !cur.writable && (desc.writable == Some(true) || (
    desc.value matches Some(dv) && !dv.same_value_spec(cur.value.unwrap()))))
}

/// The slot that applying `desc` over `cur` produces, once validation has
/// passed and `desc` has at least one field.
pub open spec fn apply_descriptor_spec(desc: PropertyDescriptor, cur: PropertySlot) -> PropertySlot {
    if !cur.is_accessor_spec() && desc.is_accessor_spec() {
        // Data property converted to an accessor property.
        PropertySlot {
            value: None,
            get: desc.get,
            set: desc.set,
            writable: false,
            enumerable: opt_or(desc.enumerable, cur.enumerable),
            configurable: opt_or(desc.configurable, cur.configurable),
        }
    } else if cur.is_accessor_spec() && desc.is_data_spec() {
        // Accessor property converted to a data property.
        PropertySlot {
            value: Some(opt_value_or_undefined(desc.value)),
            get: None,
            set: None,
            writable: opt_or_false(desc.writable),
            enumerable: opt_or(desc.enumerable, cur.enumerable),
            configurable: opt_or(desc.configurable, cur.configurable),
        }
    } else {
        // Fields of the descriptor overlay the current attributes.
        PropertySlot {
            value: if desc.value is Some {
                desc.value
            } else {
                cur.value
            },
            get: if desc.get is Some {
                desc.get
            } else {
                cur.get
            },
            set: if desc.set is Some {
                desc.set
            } else {
                cur.set
            },
            writable: opt_or(desc.writable, cur.writable),
            enumerable: opt_or(desc.enumerable, cur.enumerable),
            configurable: opt_or(desc.configurable, cur.configurable),
        }
    }
}

/// The slot a fresh property gets from a descriptor: absent fields take the
/// attribute defaults.
pub open spec fn new_slot_spec(desc: PropertyDescriptor) -> PropertySlot {
    if desc.is_accessor_spec() {
        PropertySlot {
            value: None,
            get: desc.get,
            set: desc.set,
            writable: false,
            enumerable: opt_or_false(desc.enumerable),
            configurable: opt_or_false(desc.configurable),
        }
    } else {
        PropertySlot {
            value: Some(opt_value_or_undefined(desc.value)),
            get: None,
            set: None,
            writable: opt_or_false(desc.writable),
            enumerable: opt_or_false(desc.enumerable),
            configurable: opt_or_false(desc.configurable),
        }
    }
}

/// ValidateAndApplyPropertyDescriptor: `None` when the definition is
/// refused; otherwise the property slot the object ends up with.
pub open spec fn validate_apply_spec(
    extensible: bool,
    desc: PropertyDescriptor,
    current: Option<PropertySlot>,
) -> Option<PropertySlot> {
    match current {
        None => {
            if !extensible {
                None
            } else {
                Some(new_slot_spec(desc))
            }
        },
        Some(cur) => {
            if !desc.has_fields_spec() {
                Some(cur)
            } else if !cur.configurable && refused_on_nonconfigurable_spec(desc, cur) {
                None
            } else {
                Some(apply_descriptor_spec(desc, cur))
            }
        },
    }
}

pub open spec fn opt_or(a: Option<bool>, b: bool) -> bool {
    match a {
        Some(x) => x,
        None => b,
    }
}

pub open spec fn opt_value_or_undefined(v: Option<Value>) -> Value {
    match v {
        Some(x) => x,
        None => Value::Undefined,
    }
}

/// Executable ValidateAndApplyPropertyDescriptor on a property slot.
pub fn validate_apply(
    extensible: bool,
    desc: &PropertyDescriptor,
    current: &Option<PropertySlot>,
) -> (r: Option<PropertySlot>)
    requires
        current matches Some(c) ==> c.wf(),
    ensures
        r == validate_apply_spec(extensible, *desc, *current),
{
    match current {
        None => {
            if !extensible {
                return None;
            }
            if desc.is_accessor_descriptor() {
                Some(PropertySlot {
                    value: None,
                    get: desc.get,
                    set: desc.set,
                    writable: false,
                    enumerable: crate::elements::unwrap_or_false(desc.enumerable),
                    configurable: crate::elements::unwrap_or_false(desc.configurable),
                })
            } else {
                Some(PropertySlot {
                    value: Some(match &desc.value {
                        Some(v) => v.duplicate(),
                        None => Value::Undefined,
                    }),
                    get: None,
                    set: None,
                    writable: crate::elements::unwrap_or_false(desc.writable),
                    enumerable: crate::elements::unwrap_or_false(desc.enumerable),
                    configurable: crate::elements::unwrap_or_false(desc.configurable),
                })
            }
        },
        Some(cur) => {
            if !desc.has_fields() {
                return Some(cur.duplicate());
            }
            let cur_is_accessor = cur.get.is_some() || cur.set.is_some();
            if !cur.configurable {
                if matches!(desc.configurable, Some(true)) {
                    return None;
                }
                if match desc.enumerable {
                    Some(e) => e != cur.enumerable,
                    None => false,
                } {
                    return None;
                }
                if !desc.is_generic_descriptor() && desc.is_accessor_descriptor()
                    != cur_is_accessor {
                    return None;
                }
                if cur_is_accessor {
                    if desc.get.is_some() && desc.get != cur.get {
                        return None;
                    }
                    if desc.set.is_some() && desc.set != cur.set {
                        return None;
                    }
                } else if !cur.writable {
                    if matches!(desc.writable, Some(true)) {
                        return None;
                    }
                    if let Some(dv) = &desc.value {
                        let cv = cur.value.as_ref().unwrap();
                        if !crate::value::same_value(dv, cv) {
                            return None;
                        }
                    }
                }
            }
            if !cur_is_accessor && desc.is_accessor_descriptor() {
                Some(PropertySlot {
                    value: None,
                    get: desc.get,
                    set: desc.set,
                    writable: false,
                    enumerable: match desc.enumerable {
                        Some(e) => e,
                        None => cur.enumerable,
                    },
                    configurable: match desc.configurable {
                        Some(c) => c,
                        None => cur.configurable,
                    },
                })
            } else if cur_is_accessor && desc.is_data_descriptor() {
                Some(PropertySlot {
                    value: Some(match &desc.value {
                        Some(v) => v.duplicate(),
                        None => Value::Undefined,
                    }),
                    get: None,
                    set: None,
                    writable: crate::elements::unwrap_or_false(desc.writable),
                    enumerable: match desc.enumerable {
                        Some(e) => e,
                        None => cur.enumerable,
                    },
                    configurable: match desc.configurable {
                        Some(c) => c,
                        None => cur.configurable,
                    },
                })
            } else {
                Some(PropertySlot {
                    value: match &desc.value {
                        Some(v) => Some(v.duplicate()),
                        None => match &cur.value {
                            Some(v) => Some(v.duplicate()),
                            None => None,
                        },
                    },
                    get: if desc.get.is_some() {
                        desc.get
                    } else {
                        cur.get
                    },
                    set: if desc.set.is_some() {
                        desc.set
                    } else {
                        cur.set
                    },
                    writable: match desc.writable {
                        Some(w) => w,
                        None => cur.writable,
                    },
                    enumerable: match desc.enumerable {
                        Some(e) => e,
                        None => cur.enumerable,
                    },
                    configurable: match desc.configurable {
                        Some(c) => c,
                        None => cur.configurable,
                    },
                })
            }
        },
    }
}


/// First slot stored under key `k`, scanning left to right.
pub open spec fn lookup_in(props: Seq<PropertyEntry>, k: KeyAbs) -> Option<PropertySlot>
    decreases props.len(),
{
    if props.len() == 0 {
        None
    } else if props[0].key.abs() == k {
        Some(props[0].slot)
    } else {
        lookup_in(props.drop_first(), k)
    }
}

/// The slot stored for key `k` in object `o`.
pub open spec fn obj_lookup(h: Heap, o: int, k: KeyAbs) -> Option<PropertySlot> {
    lookup_in(h.obj(o).properties@, k)
}

pub proof fn lemma_lookup_at_index(props: Seq<PropertyEntry>, k: KeyAbs, i: int)
    requires
        0 <= i < props.len(),
        props[i].key.abs() == k,
        forall|j: int| 0 <= j < i ==> (#[trigger] props[j].key.abs()) != k,
    ensures
        lookup_in(props, k) == Some(props[i].slot),
    decreases i,
{
    if i > 0 {
        assert(props[0].key.abs() != k);
        let rest = props.drop_first();
        assert(forall|j: int| 0 <= j < i - 1 ==> (#[trigger] rest[j].key.abs()) != k);
        assert(rest[i - 1] == props[i]);
        lemma_lookup_at_index(rest, k, i - 1);
    }
}

pub proof fn lemma_lookup_absent(props: Seq<PropertyEntry>, k: KeyAbs)
    requires
        forall|j: int| 0 <= j < props.len() ==> (#[trigger] props[j].key.abs()) != k,
    ensures
        lookup_in(props, k) is None,
    decreases props.len(),
{
    if props.len() > 0 {
        let rest = props.drop_first();
        assert(forall|j: int| 0 <= j < rest.len() ==> (#[trigger] rest[j].key.abs()) != k);
        lemma_lookup_absent(rest, k);
    }
}

pub proof fn lemma_lookup_update(props: Seq<PropertyEntry>, i: int, e: PropertyEntry, k: KeyAbs)
    requires
        0 <= i < props.len(),
        props[i].key.abs() == e.key.abs(),
        forall|p: int, q: int|
            0 <= p < q < props.len() ==> (#[trigger] props[p].key.abs()) != (
            #[trigger] props[q].key.abs()),
    ensures
        lookup_in(props.update(i, e), k) == (if k == e.key.abs() {
            Some(e.slot)
        } else {
            lookup_in(props, k)
        }),
    decreases props.len(),
{
    let upd = props.update(i, e);
    assert(upd.len() == props.len());
    if i == 0 {
        if k == e.key.abs() {
        } else {
            assert(upd[0] == e);
            assert(upd.drop_first() =~= props.drop_first());
            if props[0].key.abs() == k {
                assert(k == e.key.abs());
            }
        }
    } else {
        assert(upd[0] == props[0]);
        assert(upd.drop_first() =~= props.drop_first().update(i - 1, e));
        let rest = props.drop_first();
        assert(forall|p: int, q: int|
            0 <= p < q < rest.len() ==> (#[trigger] rest[p].key.abs()) != (
            #[trigger] rest[q].key.abs()));
        assert(rest[i - 1] == props[i]);
        lemma_lookup_update(rest, i - 1, e, k);
        if props[0].key.abs() == k {
            assert(props[0].key.abs() != props[i].key.abs());
        }
    }
}

pub proof fn lemma_lookup_insert(props: Seq<PropertyEntry>, i: int, e: PropertyEntry, k: KeyAbs)
    requires
        0 <= i <= props.len(),
        forall|j: int| 0 <= j < props.len() ==> (#[trigger] props[j].key.abs()) != e.key.abs(),
    ensures
        lookup_in(props.insert(i, e), k) == (if k == e.key.abs() {
            Some(e.slot)
        } else {
            lookup_in(props, k)
        }),
    decreases props.len(),
{
    let ins = props.insert(i, e);
    if i == 0 {
        assert(ins[0] == e);
        assert(ins.drop_first() =~= props);
    } else {
        assert(ins[0] == props[0]);
        assert(ins.drop_first() =~= props.drop_first().insert(i - 1, e));
        let rest = props.drop_first();
        assert(forall|j: int|
            0 <= j < rest.len() ==> (#[trigger] rest[j].key.abs()) != e.key.abs());
        lemma_lookup_insert(rest, i - 1, e, k);
        if props[0].key.abs() == k && k == e.key.abs() {
            assert(false);
        }
    }
}

pub proof fn lemma_lookup_remove(props: Seq<PropertyEntry>, i: int, k: KeyAbs)
    requires
        0 <= i < props.len(),
        forall|p: int, q: int|
            0 <= p < q < props.len() ==> (#[trigger] props[p].key.abs()) != (
            #[trigger] props[q].key.abs()),
    ensures
        lookup_in(props.remove(i), k) == (if k == props[i].key.abs() {
            None::<PropertySlot>
        } else {
            lookup_in(props, k)
        }),
    decreases props.len(),
{
    let rem = props.remove(i);
    if i == 0 {
        assert(rem =~= props.drop_first());
        if props[0].key.abs() == k {
            assert(forall|j: int|
                0 <= j < rem.len() ==> (#[trigger] rem[j].key.abs()) != k);
            lemma_lookup_absent(rem, k);
        }
    } else {
        assert(rem[0] == props[0]);
        assert(rem.drop_first() =~= props.drop_first().remove(i - 1));
        let rest = props.drop_first();
        assert(forall|p: int, q: int|
            0 <= p < q < rest.len() ==> (#[trigger] rest[p].key.abs()) != (
            #[trigger] rest[q].key.abs()));
        assert(rest[i - 1] == props[i]);
        lemma_lookup_remove(rest, i - 1, k);
        if props[0].key.abs() == k {
            assert(props[0].key.abs() != props[i].key.abs());
        }
    }
}

/// OrdinaryGetOwnProperty: the stored descriptor for `key`, if any.
pub fn ordinary_get_own_property(h: &Heap, o: u32, key: &PropertyKey) -> (r: Option<
    PropertyDescriptor,
>)
    requires
        h.object_live(o as int),
    ensures
        r == match obj_lookup(*h, o as int, key.abs()) {
            Some(s) => Some(slot_to_descriptor_spec(s)),
            None => None::<PropertyDescriptor>,
        },
{
    let idx = h.find_own_property(o, key);
    match idx {
        Some(i) => {
            let entry = h.object_prop_at(o, i);
            proof {
                lemma_lookup_at_index(h.obj(o as int).properties@, key.abs(), i as int);
            }
            Some(slot_to_descriptor(&entry.slot))
        },
        None => {
            proof {
                lemma_lookup_absent(h.obj(o as int).properties@, key.abs());
            }
            None
        },
    }
}


/// Every key of the changed property list is either the defined key or a
/// key the list already had.
pub open spec fn keys_subset_plus(
    pre_props: Seq<PropertyEntry>,
    post_props: Seq<PropertyEntry>,
    k: KeyAbs,
) -> bool {
    forall|t: int|
        0 <= t < post_props.len() ==> (#[trigger] post_props[t].key.abs()) == k || (exists|s: int|
            0 <= s < pre_props.len() && post_props[t].key.abs() == (
            #[trigger] pre_props[s].key.abs()))
}

/// Wherever validation succeeds, the applied slot is well formed.
pub proof fn lemma_validate_apply_wf(
    extensible: bool,
    desc: PropertyDescriptor,
    current: Option<PropertySlot>,
)
    requires
        current matches Some(c) ==> c.wf(),
    ensures
        validate_apply_spec(extensible, desc, current) matches Some(s) ==> s.wf(),
{
}

/// OrdinaryDefineOwnProperty: validates the descriptor against the current
/// property and applies it. Returns whether the definition succeeded; on
/// refusal nothing changes.
pub fn ordinary_define_own_property(
    h: &mut Heap,
    o: u32,
    key: &PropertyKey,
    desc: &PropertyDescriptor,
) -> (r: bool)
    requires
        old(h).object_wf(o as int),
        old(h).obj(o as int).properties@.len() < usize::MAX,
    ensures
        r == (validate_apply_spec(
            old(h).obj(o as int).extensible,
            *desc,
            obj_lookup(*old(h), o as int, key.abs()),
        ) is Some),
        final(h).object_wf(o as int),
        r ==> obj_lookup(*final(h), o as int, key.abs()) == validate_apply_spec(
            old(h).obj(o as int).extensible,
            *desc,
            obj_lookup(*old(h), o as int, key.abs()),
        ),
        forall|k2: KeyAbs|
            k2 != key.abs() ==> #[trigger] obj_lookup(*final(h), o as int, k2) == obj_lookup(
                *old(h),
                o as int,
                k2,
            ),
        !r ==> *final(h) == *old(h),
        keys_subset_plus(
            old(h).obj(o as int).properties@,
            final(h).obj(o as int).properties@,
            key.abs(),
        ),
        final(h).obj(o as int).prototype == old(h).obj(o as int).prototype,
        final(h).obj(o as int).extensible == old(h).obj(o as int).extensible,
        forall|t: int|
            0 <= t < old(h).objects@.len() && t != o as int ==> #[trigger] final(h).objects@[t]
                == old(h).objects@[t],
        final(h).objects@.len() == old(h).objects@.len(),
        final(h).arrays == old(h).arrays,
        final(h).storages == old(h).storages,
        final(h).functions == old(h).functions,
{
    let ghost props0 = h.obj(o as int).properties@;
    let idx = h.find_own_property(o, key);
    let current: Option<PropertySlot> = match idx {
        Some(i) => Some(h.object_prop_at(o, i).slot.duplicate()),
        None => None,
    };
    proof {
        match idx {
            Some(i) => lemma_lookup_at_index(props0, key.abs(), i as int),
            None => lemma_lookup_absent(props0, key.abs()),
        }
    }
    let extensible = h.object_extensible(o);
    let ns = validate_apply(extensible, desc, &current);
    proof {
        lemma_validate_apply_wf(extensible, *desc, current);
    }
    match ns {
        None => false,
        Some(ns) => {
            match idx {
                Some(i) => {
                    let entry = PropertyEntry { key: key.duplicate(), slot: ns };
                    proof {
                        lemma_lookup_update_all(props0, i as int, entry);
                    }
                    h.object_set_prop_at(o, i, entry);
                    proof {
                        let props1 = final(h).obj(o as int).properties@;
                        assert(props1 =~= props0.update(i as int, entry));
                        assert(crate::heap::index_keys_ascending(props1)) by {
                            assert(forall|p: int|
                                0 <= p < props1.len() ==> (#[trigger] props1[p].key.abs())
                                    == props0[p].key.abs());
                        }
                        assert forall|tt: int|
                            0 <= tt < props1.len() implies (#[trigger] props1[tt].key.abs())
                            == key.abs() || (exists|s: int|
                            0 <= s < props0.len() && props1[tt].key.abs() == (
                            #[trigger] props0[s].key.abs())) by {
                            if tt != i as int {
                                assert(props1[tt].key.abs() == props0[tt].key.abs());
                            }
                        }
                    }
                },
                None => {
                    let entry = PropertyEntry { key: key.duplicate(), slot: ns };
                    let pos = find_index_insert_pos(h, o, key);
                    proof {
                        lemma_lookup_insert_all(props0, pos as int, entry);
                    }
                    h.object_insert_prop_at(o, pos, entry);
                    proof {
                        let props1 = final(h).obj(o as int).properties@;
                        assert(props1 == props0.insert(pos as int, entry));
                        lemma_insert_keeps_ascending(props0, pos as int, entry);
                        assert(forall|p: int, q: int|
                            0 <= p < q < props1.len() ==> (#[trigger] props1[p].key.abs()) != (
                            #[trigger] props1[q].key.abs())) by {
                            lemma_insert_keeps_unique(props0, pos as int, entry);
                        }
                        assert forall|tt: int|
                            0 <= tt < props1.len() implies (#[trigger] props1[tt].key.abs())
                            == key.abs() || (exists|s: int|
                            0 <= s < props0.len() && props1[tt].key.abs() == (
                            #[trigger] props0[s].key.abs())) by {
                            if tt < pos as int {
                                assert(props1[tt] == props0[tt]);
                                assert(props1[tt].key.abs() == props0[tt].key.abs());
                            } else if tt > pos as int {
                                assert(props1[tt] == props0[tt - 1]);
                                assert(props1[tt].key.abs() == props0[tt - 1].key.abs());
                            }
                        }
                    }
                },
            }
            true
        },
    }
}

/// All-keys corollary of `lemma_lookup_update`.
pub proof fn lemma_lookup_update_all(props: Seq<PropertyEntry>, i: int, e: PropertyEntry)
    requires
        0 <= i < props.len(),
        props[i].key.abs() == e.key.abs(),
        forall|p: int, q: int|
            0 <= p < q < props.len() ==> (#[trigger] props[p].key.abs()) != (
            #[trigger] props[q].key.abs()),
    ensures
        lookup_in(props.update(i, e), e.key.abs()) == Some(e.slot),
        forall|k2: KeyAbs|
            k2 != e.key.abs() ==> #[trigger] lookup_in(props.update(i, e), k2) == lookup_in(
                props,
                k2,
            ),
{
    lemma_lookup_update(props, i, e, e.key.abs());
    assert forall|k2: KeyAbs| k2 != e.key.abs() implies #[trigger] lookup_in(
        props.update(i, e),
        k2,
    ) == lookup_in(props, k2) by {
        lemma_lookup_update(props, i, e, k2);
    }
}

/// All-keys corollary of `lemma_lookup_insert`.
pub proof fn lemma_lookup_insert_all(props: Seq<PropertyEntry>, i: int, e: PropertyEntry)
    requires
        0 <= i <= props.len(),
        forall|j: int| 0 <= j < props.len() ==> (#[trigger] props[j].key.abs()) != e.key.abs(),
    ensures
        lookup_in(props.insert(i, e), e.key.abs()) == Some(e.slot),
        forall|k2: KeyAbs|
            k2 != e.key.abs() ==> #[trigger] lookup_in(props.insert(i, e), k2) == lookup_in(
                props,
                k2,
            ),
{
    lemma_lookup_insert(props, i, e, e.key.abs());
    assert forall|k2: KeyAbs| k2 != e.key.abs() implies #[trigger] lookup_in(
        props.insert(i, e),
        k2,
    ) == lookup_in(props, k2) by {
        lemma_lookup_insert(props, i, e, k2);
    }
}

pub proof fn lemma_insert_keeps_unique(props: Seq<PropertyEntry>, i: int, e: PropertyEntry)
    requires
        0 <= i <= props.len(),
        forall|j: int| 0 <= j < props.len() ==> (#[trigger] props[j].key.abs()) != e.key.abs(),
        forall|p: int, q: int|
            0 <= p < q < props.len() ==> (#[trigger] props[p].key.abs()) != (
            #[trigger] props[q].key.abs()),
    ensures
        forall|p: int, q: int|
            0 <= p < q < props.insert(i, e).len() ==> (#[trigger] props.insert(
                i,
                e,
            )[p].key.abs()) != (#[trigger] props.insert(i, e)[q].key.abs()),
{
    let ins = props.insert(i, e);
    assert forall|p: int, q: int| 0 <= p < q < ins.len() implies (#[trigger] ins[p].key.abs()) != (
    #[trigger] ins[q].key.abs()) by {
        if p == i {
            let qo = q - 1;
            assert(ins[q] == props[qo]);
        } else if q == i {
            assert(ins[p] == props[p]);
        } else {
            let po = if p < i { p } else { p - 1 };
            let qo = if q < i { q } else { q - 1 };
            assert(ins[p] == props[po]);
            assert(ins[q] == props[qo]);
        }
    }
}

/// Inserting an index key at the position `find_index_insert_pos` picks, or a
/// non-index key anywhere, keeps the index keys ascending.
pub proof fn lemma_insert_keeps_ascending(props: Seq<PropertyEntry>, i: int, e: PropertyEntry)
    requires
        0 <= i <= props.len(),
        crate::heap::index_keys_ascending(props),
        crate::heap::is_index_key(e.key) ==> (forall|j: int|
            0 <= j < i && crate::heap::is_index_key(#[trigger] props[j].key)
                ==> crate::heap::int_key_val(props[j].key) < crate::heap::int_key_val(e.key)),
        crate::heap::is_index_key(e.key) ==> (forall|j: int|
            i <= j < props.len() && crate::heap::is_index_key(#[trigger] props[j].key)
                ==> crate::heap::int_key_val(props[j].key) > crate::heap::int_key_val(e.key)),
        !crate::heap::is_index_key(e.key) ==> i == props.len(),
    ensures
        crate::heap::index_keys_ascending(props.insert(i, e)),
{
    let ins = props.insert(i, e);
    assert forall|p: int, q: int|
        0 <= p < q < ins.len() && crate::heap::is_index_key(#[trigger] ins[p].key)
            && crate::heap::is_index_key(#[trigger] ins[q].key) implies crate::heap::int_key_val(
        ins[p].key,
    ) < crate::heap::int_key_val(ins[q].key) by {
        if p == i {
            let qo = q - 1;
            assert(ins[q] == props[qo]);
        } else if q == i {
            assert(ins[p] == props[p]);
        } else {
            let po = if p < i { p } else { p - 1 };
            let qo = if q < i { q } else { q - 1 };
            assert(ins[p] == props[po]);
            assert(ins[q] == props[qo]);
        }
    }
}

/// Where a fresh property belongs in the ordered property list: an index key
/// goes before the first larger index key, anything else at the end.
pub fn find_index_insert_pos(h: &Heap, o: u32, key: &PropertyKey) -> (pos: usize)
    requires
        h.object_wf(o as int),
    ensures
        pos <= h.obj(o as int).properties@.len(),
        crate::heap::is_index_key(*key) ==> (forall|j: int|
            0 <= j < pos && crate::heap::is_index_key(
                #[trigger] h.obj(o as int).properties@[j].key,
            ) ==> crate::heap::int_key_val(h.obj(o as int).properties@[j].key)
                <= crate::heap::int_key_val(*key)),
        crate::heap::is_index_key(*key) ==> (forall|j: int|
            pos <= j < h.obj(o as int).properties@.len() && crate::heap::is_index_key(
                #[trigger] h.obj(o as int).properties@[j].key,
            ) ==> crate::heap::int_key_val(h.obj(o as int).properties@[j].key)
                > crate::heap::int_key_val(*key)),
        !crate::heap::is_index_key(*key) ==> pos == h.obj(o as int).properties@.len(),
{
    let n = h.object_prop_len(o);
    let kval: i64 = match key {
        PropertyKey::Integer(v) => {
            if 0 <= *v && *v <= MAX_ARRAY_INDEX {
                *v
            } else {
                return n;
            }
        },
        _ => {
            return n;
        },
    };
    let mut p: usize = 0;
    while p < n
        invariant
            p <= n,
            h.object_wf(o as int),
            n == h.obj(o as int).properties@.len(),
            crate::heap::is_index_key(*key),
            kval == crate::heap::int_key_val(*key),
            forall|j: int|
                0 <= j < p && crate::heap::is_index_key(
                    #[trigger] h.obj(o as int).properties@[j].key,
                ) ==> crate::heap::int_key_val(h.obj(o as int).properties@[j].key) <= kval,
        decreases n - p,
    {
        let entry = h.object_prop_at(o, p);
        match &entry.key {
            PropertyKey::Integer(v) => {
                if 0 <= *v && *v <= MAX_ARRAY_INDEX && *v > kval {
                    proof {
                        assert forall|j: int|
                            p <= j < n && crate::heap::is_index_key(
                                #[trigger] h.obj(o as int).properties@[j].key,
                            ) implies crate::heap::int_key_val(h.obj(o as int).properties@[j].key)
                            > kval by {
                            if j > p {
                                assert(crate::heap::int_key_val(
                                    h.obj(o as int).properties@[p as int].key,
                                ) < crate::heap::int_key_val(h.obj(o as int).properties@[j].key));
                            }
                        }
                    }
                    return p;
                }
            },
            _ => {},
        }
        p += 1;
    }
    n
}

/// Whether deleting a property with this current slot is allowed: an absent
/// or configurable property deletes successfully.
pub open spec fn delete_allowed_spec(cur: Option<PropertySlot>) -> bool {
    match cur {
        Some(s) => s.configurable,
        None => true,
    }
}

/// OrdinaryDelete: removes the property unless it is non-configurable.
pub fn ordinary_delete(h: &mut Heap, o: u32, key: &PropertyKey) -> (r: bool)
    requires
        old(h).object_wf(o as int),
    ensures
        r == delete_allowed_spec(obj_lookup(*old(h), o as int, key.abs())),
        final(h).obj(o as int).properties@ == old(h).obj(o as int).properties@ || (exists|i: int|
            0 <= i < old(h).obj(o as int).properties@.len() && final(h).obj(
                o as int,
            ).properties@ == old(h).obj(o as int).properties@.remove(i)),
        final(h).object_wf(o as int),
        r ==> (obj_lookup(*final(h), o as int, key.abs()) is None),
        !r ==> *final(h) == *old(h),
        forall|k2: KeyAbs|
            k2 != key.abs() ==> #[trigger] obj_lookup(*final(h), o as int, k2) == obj_lookup(
                *old(h),
                o as int,
                k2,
            ),
        final(h).obj(o as int).prototype == old(h).obj(o as int).prototype,
        final(h).obj(o as int).extensible == old(h).obj(o as int).extensible,
        forall|t: int|
            0 <= t < old(h).objects@.len() && t != o as int ==> #[trigger] final(h).objects@[t]
                == old(h).objects@[t],
        final(h).objects@.len() == old(h).objects@.len(),
        final(h).arrays == old(h).arrays,
        final(h).storages == old(h).storages,
        final(h).functions == old(h).functions,
{
    let ghost props0 = h.obj(o as int).properties@;
    let idx = h.find_own_property(o, key);
    match idx {
        None => {
            proof {
                lemma_lookup_absent(props0, key.abs());
            }
            true
        },
        Some(i) => {
            let entry = h.object_prop_at(o, i);
            proof {
                lemma_lookup_at_index(props0, key.abs(), i as int);
            }
            if !entry.slot.configurable {
                false
            } else {
                proof {
                    lemma_lookup_remove(props0, i as int, key.abs());
                    assert forall|k2: KeyAbs| k2 != key.abs() implies #[trigger] lookup_in(
                        props0.remove(i as int),
                        k2,
                    ) == lookup_in(props0, k2) by {
                        lemma_lookup_remove(props0, i as int, k2);
                    }
                }
                h.object_remove_prop_at(o, i);
                proof {
                    let props1 = final(h).obj(o as int).properties@;
                    assert(props1 == props0.remove(i as int));
                    assert forall|p: int, q: int| 0 <= p < q < props1.len() implies (
                    #[trigger] props1[p].key.abs()) != (#[trigger] props1[q].key.abs()) by {
                        let po = if p < i { p } else { p + 1 };
                        let qo = if q < i { q } else { q + 1 };
                        assert(props1[p] == props0[po]);
                        assert(props1[q] == props0[qo]);
                    }
                    assert forall|p: int, q: int|
                        0 <= p < q < props1.len() && crate::heap::is_index_key(
                            #[trigger] props1[p].key,
                        ) && crate::heap::is_index_key(
                            #[trigger] props1[q].key,
                        ) implies crate::heap::int_key_val(props1[p].key)
                        < crate::heap::int_key_val(props1[q].key) by {
                        let po = if p < i { p } else { p + 1 };
                        let qo = if q < i { q } else { q + 1 };
                        assert(props1[p] == props0[po]);
                        assert(props1[q] == props0[qo]);
                    }
                }
                true
            }
        },
    }
}


/// Enumeration class of a key: integer indices first, then strings (and
/// out-of-range integers, which enumerate as strings), then symbols.
pub open spec fn key_class(k: PropertyKey) -> int {
    if crate::heap::is_index_key(k) {
        0
    } else if k.abs() matches KeyAbs::Sym(_) {
        2
    } else {
        1
    }
}

pub fn key_class_of(k: &PropertyKey) -> (r: u32)
    ensures
        r as int == key_class(*k),
{
    match k {
        PropertyKey::Integer(v) => {
            if 0 <= *v && *v <= MAX_ARRAY_INDEX {
                0
            } else {
                1
            }
        },
        PropertyKey::String(_) => 1,
        PropertyKey::Symbol(_) => 2,
    }
}

/// The keys of one enumeration class, in storage order.
pub open spec fn sel_keys(props: Seq<PropertyEntry>, cls: int) -> Seq<PropertyKey>
    decreases props.len(),
{
    if props.len() == 0 {
        Seq::empty()
    } else {
        let rest = sel_keys(props.drop_last(), cls);
        if key_class(props.last().key) == cls {
            rest.push(props.last().key)
        } else {
            rest
        }
    }
}

/// Every selected key has the class selected for, and occurs in the list.
pub proof fn lemma_sel_keys_membership(props: Seq<PropertyEntry>, cls: int)
    ensures
        forall|x: int|
            0 <= x < sel_keys(props, cls).len() ==> key_class(
                #[trigger] sel_keys(props, cls)[x],
            ) == cls,
        forall|x: int|
            0 <= x < sel_keys(props, cls).len() ==> (exists|t: int|
                0 <= t < props.len() && (#[trigger] props[t].key) == (#[trigger] sel_keys(
                    props,
                    cls,
                )[x])),
    decreases props.len(),
{
    if props.len() > 0 {
        let rest = props.drop_last();
        lemma_sel_keys_membership(rest, cls);
        assert forall|x: int| #![trigger sel_keys(props, cls)[x]]
            0 <= x < sel_keys(props, cls).len() implies (exists|t: int|
            0 <= t < props.len() && (#[trigger] props[t].key) == sel_keys(props, cls)[x]) by {
            if x < sel_keys(rest, cls).len() {
                let t = choose|t: int| 0 <= t < rest.len() && rest[t].key == sel_keys(rest, cls)[x];
                assert(props[t].key == sel_keys(props, cls)[x]);
            } else {
                assert(props[props.len() - 1].key == sel_keys(props, cls)[x]);
            }
        }
    }
}

/// When the index keys of the list ascend, so do the selected index keys.
pub proof fn lemma_sel_keys_ascending(props: Seq<PropertyEntry>)
    requires
        crate::heap::index_keys_ascending(props),
    ensures
        forall|x: int, y: int|
            0 <= x < y < sel_keys(props, 0).len() ==> crate::heap::int_key_val(
                #[trigger] sel_keys(props, 0)[x],
            ) < crate::heap::int_key_val(#[trigger] sel_keys(props, 0)[y]),
    decreases props.len(),
{
    if props.len() > 0 {
        let rest = props.drop_last();
        assert(crate::heap::index_keys_ascending(rest)) by {
            assert(forall|i: int|
                0 <= i < rest.len() ==> (#[trigger] rest[i]) == props[i]);
        }
        lemma_sel_keys_ascending(rest);
        lemma_sel_keys_membership(rest, 0);
        let sel = sel_keys(props, 0);
        let selr = sel_keys(rest, 0);
        assert forall|x: int, y: int| 0 <= x < y < sel.len() implies crate::heap::int_key_val(
            #[trigger] sel[x],
        ) < crate::heap::int_key_val(#[trigger] sel[y]) by {
            if y < selr.len() {
            } else {
                // y names the appended last key; x names an earlier index key.
                assert(key_class(props.last().key) == 0);
                assert(sel[y] == props.last().key);
                assert(sel[x] == selr[x]);
                let t = choose|t: int| 0 <= t < rest.len() && rest[t].key == selr[x];
                assert(props[t].key == selr[x]);
                assert(crate::heap::is_index_key(props[t].key)) by {
                    assert(key_class(selr[x]) == 0);
                }
                assert(crate::heap::int_key_val(props[t].key) < crate::heap::int_key_val(
                    props[props.len() - 1].key,
                ));
            }
        }
    }
}

/// The selected keys of one class of object `o`, in enumeration order.
fn collect_keys(h: &Heap, o: u32, cls: u32) -> (r: Vec<PropertyKey>)
    requires
        h.object_live(o as int),
    ensures
        r@ == sel_keys(h.obj(o as int).properties@, cls as int),
{
    let n = h.object_prop_len(o);
    let mut r: Vec<PropertyKey> = Vec::new();
    let mut i: usize = 0;
    while i < n
        invariant
            i <= n,
            h.object_live(o as int),
            n == h.obj(o as int).properties@.len(),
            r@ == sel_keys(h.obj(o as int).properties@.take(i as int), cls as int),
        decreases n - i,
    {
        let ghost props = h.obj(o as int).properties@;
        let entry = h.object_prop_at(o, i);
        proof {
            assert(props.take(i as int + 1).drop_last() =~= props.take(i as int));
            assert(props.take(i as int + 1).last() == props[i as int]);
        }
        if key_class_of(&entry.key) == cls {
            r.push(entry.key);
        }
        i += 1;
    }
    proof {
        assert(h.obj(o as int).properties@.take(n as int) =~= h.obj(o as int).properties@);
    }
    r
}

/// OrdinaryOwnPropertyKeys: integer-index keys in strictly ascending numeric
/// order, then the remaining string-like keys in insertion order, then
/// symbol keys in insertion order.
pub fn ordinary_own_property_keys(h: &Heap, o: u32) -> (r: Vec<PropertyKey>)
    requires
        h.object_wf(o as int),
    ensures
        r@ == sel_keys(h.obj(o as int).properties@, 0) + sel_keys(
            h.obj(o as int).properties@,
            1,
        ) + sel_keys(h.obj(o as int).properties@, 2),
        forall|x: int, y: int|
            0 <= x < y < r@.len() && crate::heap::is_index_key(#[trigger] r@[x])
                && crate::heap::is_index_key(#[trigger] r@[y]) ==> crate::heap::int_key_val(r@[x])
                < crate::heap::int_key_val(r@[y]),
{
    let ghost props = h.obj(o as int).properties@;
    let mut r = collect_keys(h, o, 0);
    let mut strs = collect_keys(h, o, 1);
    let mut syms = collect_keys(h, o, 2);
    let ghost n0 = r@.len();
    r.append(&mut strs);
    r.append(&mut syms);
    proof {
        lemma_sel_keys_ascending(props);
        lemma_sel_keys_membership(props, 0);
        lemma_sel_keys_membership(props, 1);
        lemma_sel_keys_membership(props, 2);
        assert forall|x: int, y: int|
            0 <= x < y < r@.len() && crate::heap::is_index_key(#[trigger] r@[x])
                && crate::heap::is_index_key(#[trigger] r@[y]) implies crate::heap::int_key_val(
            r@[x],
        ) < crate::heap::int_key_val(r@[y]) by {
            assert(y < n0) by {
                if y >= n0 {
                    assert(key_class(r@[y]) != 0);
                    assert(!crate::heap::is_index_key(r@[y]));
                }
            }
            assert(r@[x] == sel_keys(props, 0)[x]);
            assert(r@[y] == sel_keys(props, 0)[y]);
        }
    }
    r
}

} // verus!
