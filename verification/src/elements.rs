//! Element descriptors and the packed element storage record that backs the
//! integer-indexed properties of arrays.

use vstd::prelude::*;

use crate::value::{PropertyDescriptor, Value};

verus! {

/// Out-of-band attributes for one element slot. A slot holding a value with
/// no descriptor has the default attributes: writable, enumerable and
/// configurable all true. An accessor descriptor implies the slot's value is
/// absent.
#[derive(Debug, Clone, Copy, PartialEq, Eq, Structural)]
pub enum ElementDescriptor {
    Data { writable: bool, enumerable: bool, configurable: bool },
    Accessor { get: Option<u32>, set: Option<u32>, enumerable: bool, configurable: bool },
}

impl ElementDescriptor {
    /// An accessor descriptor names at least one of its two functions.
    pub open spec fn wf(self) -> bool {
        match self {
            ElementDescriptor::Accessor { get, set, .. } => get is Some || set is Some,
            _ => true,
        }
    }

    pub open spec fn is_data_spec(self) -> bool {
        self is Data
    }

    pub open spec fn is_accessor_spec(self) -> bool {
        self is Accessor
    }

    pub open spec fn writable_spec(self) -> Option<bool> {
        match self {
            ElementDescriptor::Data { writable, .. } => Some(writable),
            ElementDescriptor::Accessor { .. } => None,
        }
    }

    pub open spec fn enumerable_spec(self) -> bool {
        match self {
            ElementDescriptor::Data { enumerable, .. } => enumerable,
            ElementDescriptor::Accessor { enumerable, .. } => enumerable,
        }
    }

    pub open spec fn configurable_spec(self) -> bool {
        match self {
            ElementDescriptor::Data { configurable, .. } => configurable,
            ElementDescriptor::Accessor { configurable, .. } => configurable,
        }
    }

    pub open spec fn getter_spec(self) -> Option<u32> {
        match self {
            ElementDescriptor::Data { .. } => None,
            ElementDescriptor::Accessor { get, .. } => get,
        }
    }

    pub open spec fn setter_spec(self) -> Option<u32> {
        match self {
            ElementDescriptor::Data { .. } => None,
            ElementDescriptor::Accessor { set, .. } => set,
        }
    }

    pub fn is_configurable(&self) -> (r: bool)
        ensures
            r == self.configurable_spec(),
    {
        match self {
            ElementDescriptor::Data { configurable, .. } => *configurable,
            ElementDescriptor::Accessor { configurable, .. } => *configurable,
        }
    }

    pub fn is_enumerable(&self) -> (r: bool)
        ensures
            r == self.enumerable_spec(),
    {
        match self {
            ElementDescriptor::Data { enumerable, .. } => *enumerable,
            ElementDescriptor::Accessor { enumerable, .. } => *enumerable,
        }
    }

    pub fn is_writable(&self) -> (r: Option<bool>)
        ensures
            r == self.writable_spec(),
    {
        match self {
            ElementDescriptor::Data { writable, .. } => Some(*writable),
            ElementDescriptor::Accessor { .. } => None,
        }
    }

    pub fn getter_function(&self) -> (r: Option<u32>)
        ensures
            r == self.getter_spec(),
    {
        match self {
            ElementDescriptor::Data { .. } => None,
            ElementDescriptor::Accessor { get, .. } => *get,
        }
    }

    pub fn setter_function(&self) -> (r: Option<u32>)
        ensures
            r == self.setter_spec(),
    {
        match self {
            ElementDescriptor::Data { .. } => None,
            ElementDescriptor::Accessor { set, .. } => *set,
        }
    }

    /// A data descriptor from explicit attribute bits; `None` when the bits
    /// are the defaults, which need no out-of-band record.
    pub fn new_with_wec(writable: bool, enumerable: bool, configurable: bool) -> (r: Option<
        ElementDescriptor,
    >)
        ensures
            r == new_with_wec_spec(writable, enumerable, configurable),
    {
        if writable && enumerable && configurable {
            None
        } else {
            Some(ElementDescriptor::Data { writable, enumerable, configurable })
        }
    }

    /// The element descriptor a full property descriptor compresses to:
    /// `None` stands for a plain data slot with all-default attributes.
    /// Absent attribute fields default to false, as for a fresh property.
    pub fn from_property_descriptor(desc: &PropertyDescriptor) -> (r: Option<ElementDescriptor>)
        ensures
            r == from_property_descriptor_spec(*desc),
    {
        if desc.is_accessor_descriptor() {
            Some(ElementDescriptor::Accessor {
                get: desc.get,
                set: desc.set,
                enumerable: unwrap_or_false(desc.enumerable),
                configurable: unwrap_or_false(desc.configurable),
            })
        } else {
            let writable = unwrap_or_false(desc.writable);
            let enumerable = unwrap_or_false(desc.enumerable);
            let configurable = unwrap_or_false(desc.configurable);
            if writable && enumerable && configurable {
                None
            } else {
                Some(ElementDescriptor::Data { writable, enumerable, configurable })
            }
        }
    }

    /// Expansion of a slot (optional descriptor plus optional value) into a
    /// full property descriptor.
    pub fn to_property_descriptor(desc: &Option<ElementDescriptor>, value: &Option<Value>) -> (r:
        PropertyDescriptor)
        ensures
            r == to_property_descriptor_spec(*desc, *value),
    {
        match desc {
            None => PropertyDescriptor {
                value: match value {
                    Some(v) => Some(v.duplicate()),
                    None => None,
                },
                writable: Some(true),
                get: None,
                set: None,
                enumerable: Some(true),
                configurable: Some(true),
            },
            Some(ElementDescriptor::Data { writable, enumerable, configurable }) => {
                PropertyDescriptor {
                    value: match value {
                        Some(v) => Some(v.duplicate()),
                        None => None,
                    },
                    writable: Some(*writable),
                    get: None,
                    set: None,
                    enumerable: Some(*enumerable),
                    configurable: Some(*configurable),
                }
            },
            Some(ElementDescriptor::Accessor { get, set, enumerable, configurable }) => {
                PropertyDescriptor {
                    value: None,
                    writable: None,
                    get: *get,
                    set: *set,
                    enumerable: Some(*enumerable),
                    configurable: Some(*configurable),
                }
            },
        }
    }
}

pub open spec fn new_with_wec_spec(writable: bool, enumerable: bool, configurable: bool) -> Option<
    ElementDescriptor,
> {
    if writable && enumerable && configurable {
        None
    } else {
        Some(ElementDescriptor::Data { writable, enumerable, configurable })
    }
}

pub open spec fn from_property_descriptor_spec(desc: PropertyDescriptor) -> Option<
    ElementDescriptor,
> {
    if desc.is_accessor_spec() {
        Some(ElementDescriptor::Accessor {
            get: desc.get,
            set: desc.set,
            enumerable: opt_or_false(desc.enumerable),
            configurable: opt_or_false(desc.configurable),
        })
    } else {
        new_with_wec_spec(
            opt_or_false(desc.writable),
            opt_or_false(desc.enumerable),
            opt_or_false(desc.configurable),
        )
    }
}

pub open spec fn to_property_descriptor_spec(
    desc: Option<ElementDescriptor>,
    value: Option<Value>,
) -> PropertyDescriptor {
    match desc {
        None => PropertyDescriptor {
            value,
            writable: Some(true),
            get: None,
            set: None,
            enumerable: Some(true),
            configurable: Some(true),
        },
        Some(ElementDescriptor::Data { writable, enumerable, configurable }) => PropertyDescriptor {
            value,
            writable: Some(writable),
            get: None,
            set: None,
            enumerable: Some(enumerable),
            configurable: Some(configurable),
        },
        Some(ElementDescriptor::Accessor { get, set, enumerable, configurable }) => {
            PropertyDescriptor {
                value: None,
                writable: None,
                get,
                set,
                enumerable: Some(enumerable),
                configurable: Some(configurable),
            }
        },
    }
}

pub open spec fn opt_or_false(b: Option<bool>) -> bool {
    match b {
        Some(x) => x,
        None => false,
    }
}

pub fn unwrap_or_false(b: Option<bool>) -> (r: bool)
    ensures
        r == opt_or_false(b),
{
    match b {
        Some(x) => x,
        None => false,
    }
}

/// One storage record: a packed slice of value slots together with the
/// lazily-allocated descriptor side table. When present, the side table has
/// one entry per slot; it is never dropped once allocated.
#[derive(Debug)]
pub struct ElementStorage {
    pub values: Vec<Option<Value>>,
    pub descriptors: Option<Vec<Option<ElementDescriptor>>>,
}

impl ElementStorage {
    /// The side table, when present, parallels the value slots, and every
    /// descriptor in it is well formed.
    pub open spec fn wf(self) -> bool {
        match self.descriptors {
            Some(d) => d@.len() == self.values@.len() && (forall|i: int|
                0 <= i < d@.len() && d@[i] is Some ==> #[trigger] d@[i].unwrap().wf()),
            None => true,
        }
    }

    /// The descriptor recorded for slot `i`, absent side table included.
    pub open spec fn descriptor_at(self, i: int) -> Option<ElementDescriptor> {
        match self.descriptors {
            Some(d) => d@[i],
            None => None,
        }
    }

    /// A slot is a hole when it has neither a value nor a descriptor.
    pub open spec fn is_hole(self, i: int) -> bool {
        self.values@[i] is None && self.descriptor_at(i) is None
    }
}

} // verus!
