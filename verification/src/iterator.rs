//! The bytecode-level iteration protocol: the iterator-record variants that
//! drive `for`-`of`, `for`-`in` and spread.

use vstd::prelude::*;

use crate::array::{
    arr_len, array_get_own_spec, elem_value, get_on_handle, heap_protos_wf, spec_get, Array,
    GetOutcome, PROTO_CHAIN_LIMIT,
};
use crate::heap::{Heap, ObjectHandle};
use crate::value::{ExceptionType, JsError, KeyAbs, PropertyKey, TryResult, Value};

verus! {

/// The well-known `@@iterator` symbol's identity.
pub const WELL_KNOWN_ITERATOR_SYMBOL: u32 = 0;

/// Whether a key sequence holds a key with this identity.
pub open spec fn key_in(s: Seq<PropertyKey>, k: KeyAbs) -> bool {
    exists|i: int| 0 <= i < s.len() && s[i].abs() == k
}

fn keys_contain(s: &Vec<PropertyKey>, k: &PropertyKey) -> (r: bool)
    ensures
        r == key_in(s@, k.abs()),
{
    let n = s.len();
    let mut i: usize = 0;
    while i < n
        invariant
            i <= n,
            n == s@.len(),
            forall|j: int| 0 <= j < i ==> (#[trigger] s@[j].abs()) != k.abs(),
        decreases n - i,
    {
        if crate::value::key_eq(&s[i], k) {
            return true;
        }
        i += 1;
    }
    false
}

/// The descriptor an object handle reports for its own property.
pub open spec fn handle_get_own_spec(h: Heap, handle: ObjectHandle, k: PropertyKey) -> Option<
    crate::value::PropertyDescriptor,
> {
    match handle {
        ObjectHandle::Ordinary(o) => match crate::object::obj_lookup(h, o as int, k.abs()) {
            Some(s) => Some(crate::object::slot_to_descriptor_spec(s)),
            None => None,
        },
        ObjectHandle::Array(a) => array_get_own_spec(h, a as int, k),
    }
}

/// [[GetOwnProperty]] on an object handle; never calls user code.
pub fn handle_get_own_property(h: &Heap, handle: ObjectHandle, key: &PropertyKey) -> (r: Option<
    crate::value::PropertyDescriptor,
>)
    requires
        heap_protos_wf(*h, None),
        h.handle_live(handle),
    ensures
        r == handle_get_own_spec(*h, handle, *key),
{
    match handle {
        ObjectHandle::Ordinary(o) => {
            proof {
                assert(h.object_wf(o as int));
            }
            crate::object::ordinary_get_own_property(h, o, key)
        },
        ObjectHandle::Array(a) => {
            proof {
                assert(h.array_wf(a as int));
            }
            match Array(a).try_get_own_property(h, key) {
                TryResult::Continue(d) => d,
                TryResult::Break => None,
            }
        },
    }
}

/// The own keys an object handle enumerates, symbols included.
pub fn handle_own_property_keys(h: &Heap, handle: ObjectHandle) -> (r: Vec<PropertyKey>)
    requires
        heap_protos_wf(*h, None),
        h.handle_live(handle),
{
    match handle {
        ObjectHandle::Ordinary(o) => {
            proof {
                assert(h.object_wf(o as int));
            }
            crate::object::ordinary_own_property_keys(h, o)
        },
        ObjectHandle::Array(a) => {
            proof {
                assert(h.array_wf(a as int));
            }
            match Array(a).try_own_property_keys(h) {
                TryResult::Continue(keys) => keys,
                TryResult::Break => Vec::new(),
            }
        },
    }
}

/// The prototype an object handle presents.
pub open spec fn handle_prototype_spec(
    h: Heap,
    handle: ObjectHandle,
    dp: Option<ObjectHandle>,
) -> Option<ObjectHandle> {
    match handle {
        ObjectHandle::Ordinary(o) => h.obj(o as int).prototype,
        ObjectHandle::Array(a) => crate::array::array_prototype_spec(h, a as int, dp),
    }
}

pub fn handle_prototype(h: &Heap, handle: ObjectHandle, dp: Option<ObjectHandle>) -> (r: Option<
    ObjectHandle,
>)
    requires
        heap_protos_wf(*h, dp),
        h.handle_live(handle),
    ensures
        r == handle_prototype_spec(*h, handle, dp),
        r matches Some(p) ==> h.handle_live(p),
{
    match handle {
        ObjectHandle::Ordinary(o) => {
            proof {
                assert(h.object_wf(o as int));
            }
            h.object_prototype(o)
        },
        ObjectHandle::Array(a) => {
            proof {
                assert(h.array_wf(a as int));
                match h.arr(a as int).object_index {
                    Some(o) => {
                        assert(h.object_wf(o as int));
                    },
                    None => {},
                }
            }
            Array(a).array_prototype(h, dp)
        },
    }
}


/// Rank used by the enumeration loop: an unvisited level still owes a key
/// fetch.
pub open spec fn visit_rank(visited: bool) -> int {
    if visited {
        0
    } else {
        1
    }
}


/// The prototype chain starting at `from` reaches `to` in exactly `k`
/// steps.
pub open spec fn proto_chain_reaches(
    h: Heap,
    dp: Option<ObjectHandle>,
    from: ObjectHandle,
    to: ObjectHandle,
    k: nat,
) -> bool
    decreases k,
{
    if k == 0 {
        from == to
    } else {
        handle_prototype_spec(h, from, dp) matches Some(p) && proto_chain_reaches(
            h,
            dp,
            p,
            to,
            (k - 1) as nat,
        )
    }
}

/// The prototype chain from `handle` descends at least `k` times.
pub open spec fn proto_chain_at_least(
    h: Heap,
    dp: Option<ObjectHandle>,
    handle: ObjectHandle,
    k: nat,
) -> bool
    decreases k,
{
    k == 0 || (handle_prototype_spec(h, handle, dp) matches Some(p) && proto_chain_at_least(
        h,
        dp,
        p,
        (k - 1) as nat,
    ))
}

pub proof fn lemma_reaches_extend(
    h: Heap,
    dp: Option<ObjectHandle>,
    from: ObjectHandle,
    to: ObjectHandle,
    p: ObjectHandle,
    k: nat,
)
    requires
        proto_chain_reaches(h, dp, from, to, k),
        handle_prototype_spec(h, to, dp) == Some(p),
    ensures
        proto_chain_reaches(h, dp, from, p, (k + 1) as nat),
    decreases k,
{
    if k == 0 {
        assert(from == to);
        assert(proto_chain_reaches(h, dp, p, p, 0nat));
    } else {
        let q = handle_prototype_spec(h, from, dp).unwrap();
        lemma_reaches_extend(h, dp, q, to, p, (k - 1) as nat);
        assert(proto_chain_reaches(h, dp, from, p, (k + 1) as nat));
    }
}

pub proof fn lemma_reaches_at_least(
    h: Heap,
    dp: Option<ObjectHandle>,
    from: ObjectHandle,
    to: ObjectHandle,
    k: nat,
)
    requires
        proto_chain_reaches(h, dp, from, to, k),
    ensures
        proto_chain_at_least(h, dp, from, k),
    decreases k,
{
    if k > 0 {
        let q = handle_prototype_spec(h, from, dp).unwrap();
        lemma_reaches_at_least(h, dp, q, to, (k - 1) as nat);
    }
}

/// Drives `for`-`in`: enumerates string-keyed own properties up the
/// prototype chain, skipping keys already visited at a shadowing level.
#[derive(Debug)]
pub struct ObjectPropertiesIterator {
    pub object: ObjectHandle,
    pub object_was_visited: bool,
    pub visited_keys: Vec<PropertyKey>,
    pub remaining_keys: Vec<PropertyKey>,
    pub front: usize,
    /// Prototype levels this iterator may still ascend.
    pub levels_left: u32,
}

/// What one `for`-`in` step guarantees: a yielded key was never visited
/// before, is recorded as visited, is not a symbol, and is an enumerable own
/// property of the level that yielded it; the visited set only grows.
pub open spec fn properties_step_post(
    h: Heap,
    dp: Option<ObjectHandle>,
    pre: ObjectPropertiesIterator,
    post: ObjectPropertiesIterator,
    r: Result<Option<PropertyKey>, JsError>,
) -> bool {
    &&& (forall|ka: KeyAbs| key_in(pre.visited_keys@, ka) ==> key_in(post.visited_keys@, ka))
    &&& match r {
        Ok(Some(k)) => {
            &&& !key_in(pre.visited_keys@, k.abs())
            &&& key_in(post.visited_keys@, k.abs())
            &&& !(k.abs() is Sym)
            &&& (handle_get_own_spec(h, post.object, k) matches Some(d) && d.enumerable == Some(
                true,
            ))
        },
        Ok(None) => {
            // The walk is exhausted: the current level's key queue is spent
            // and the chain has no further prototype.
            &&& post.object_was_visited
            &&& post.front == post.remaining_keys@.len()
            &&& (handle_prototype_spec(h, post.object, dp) is None)
        },
        Err(e) => e.kind == ExceptionType::RangeError && proto_chain_at_least(
            h,
            dp,
            pre.object,
            pre.levels_left as nat,
        ),
    }
}

impl ObjectPropertiesIterator {
    pub fn new(object: ObjectHandle) -> (r: ObjectPropertiesIterator)
        ensures
            r.object == object,
            !r.object_was_visited,
            r.visited_keys@.len() == 0,
            r.remaining_keys@.len() == 0,
    {
        ObjectPropertiesIterator {
            object,
            object_was_visited: false,
            visited_keys: Vec::new(),
            remaining_keys: Vec::new(),
            front: 0,
            levels_left: PROTO_CHAIN_LIMIT,
        }
    }

    /// The next enumerable string key, ascending the prototype chain when a
    /// level is exhausted. Never yields the same key twice over the whole
    /// chain walk.
    pub fn next(&mut self, h: &Heap, dp: Option<ObjectHandle>) -> (r: Result<
        Option<PropertyKey>,
        JsError,
    >)
        requires
            heap_protos_wf(*h, dp),
            old(self).h_inv(*h),
        ensures
            properties_step_post(*h, dp, *old(self), *final(self), r),
            final(self).h_inv(*h),
    {
        loop
            invariant
                heap_protos_wf(*h, dp),
                self.h_inv(*h),
                self.levels_left <= old(self).levels_left,
                proto_chain_reaches(
                    *h,
                    dp,
                    old(self).object,
                    self.object,
                    (old(self).levels_left - self.levels_left) as nat,
                ),
                forall|ka: KeyAbs|
                    key_in(old(self).visited_keys@, ka) ==> key_in(self.visited_keys@, ka),
            decreases self.levels_left, visit_rank(self.object_was_visited),
        {
            if !self.object_was_visited {
                let keys = handle_own_property_keys(h, self.object);
                let mut filtered: Vec<PropertyKey> = Vec::new();
                let n = keys.len();
                let mut i: usize = 0;
                while i < n
                    invariant
                        i <= n,
                        n == keys@.len(),
                        forall|j: int| 0 <= j < filtered@.len() ==> !((#[trigger] filtered@[j].abs()) is Sym),
                    decreases n - i,
                {
                    match &keys[i] {
                        PropertyKey::Symbol(_) => {},
                        k => {
                            proof {
                                assert(!(keys@[i as int].abs() is Sym));
                            }
                            filtered.push(k.duplicate());
                        },
                    }
                    i += 1;
                }
                self.remaining_keys = filtered;
                self.front = 0;
                self.object_was_visited = true;
            }
            let ghost levels0 = self.levels_left;
            let ghost visited0 = self.object_was_visited;
            let ghost obj0 = self.object;
            while self.front < self.remaining_keys.len()
                invariant
                    heap_protos_wf(*h, dp),
                    self.h_inv(*h),
                    self.front <= self.remaining_keys@.len(),
                    self.levels_left == levels0,
                    self.object_was_visited == visited0,
                    self.object == obj0,
                    self.levels_left <= old(self).levels_left,
                    proto_chain_reaches(
                        *h,
                        dp,
                        old(self).object,
                        self.object,
                        (old(self).levels_left - self.levels_left) as nat,
                    ),
                    forall|ka: KeyAbs|
                        key_in(old(self).visited_keys@, ka) ==> key_in(self.visited_keys@, ka),
                decreases self.remaining_keys@.len() - self.front,
            {
                let k = self.remaining_keys[self.front].duplicate();
                self.front = self.front + 1;
                if keys_contain(&self.visited_keys, &k) {
                    continue ;
                }
                let desc = handle_get_own_property(h, self.object, &k);
                match desc {
                    Some(d) => {
                        let ghost pre_visited = self.visited_keys@;
                        self.visited_keys.push(k.duplicate());
                        proof {
                            assert(self.visited_keys@ == pre_visited.push(k));
                            assert(self.visited_keys@[pre_visited.len() as int].abs() == k.abs());
                            assert(key_in(self.visited_keys@, k.abs()));
                            assert forall|ka: KeyAbs|
                                key_in(pre_visited, ka) implies key_in(
                                self.visited_keys@,
                                ka,
                            ) by {
                                let wi = choose|wi: int|
                                    0 <= wi < pre_visited.len() && pre_visited[wi].abs() == ka;
                                assert(self.visited_keys@[wi].abs() == ka);
                            }
                        }
                        if matches!(d.enumerable, Some(true)) {
                            if !matches!(k, PropertyKey::Symbol(_)) {
                                return Ok(Some(k));
                            }
                        }
                    },
                    None => {},
                }
            }
            if self.levels_left == 0 {
                proof {
                    lemma_reaches_at_least(
                        *h,
                        dp,
                        old(self).object,
                        self.object,
                        old(self).levels_left as nat,
                    );
                }
                return Err(
                    JsError::new(
                        ExceptionType::RangeError,
                        "Maximum prototype chain depth exceeded",
                    ),
                );
            }
            match handle_prototype(h, self.object, dp) {
                Some(p) => {
                    proof {
                        lemma_reaches_extend(
                            *h,
                            dp,
                            old(self).object,
                            self.object,
                            p,
                            (old(self).levels_left - self.levels_left) as nat,
                        );
                    }
                    self.object = p;
                    self.object_was_visited = false;
                    self.remaining_keys = Vec::new();
                    self.front = 0;
                    self.levels_left = self.levels_left - 1;
                },
                None => {
                    return Ok(None);
                },
            }
        }
    }

    /// The iterator's current object stays live in the heap, the key
    /// cursor stays within its queue, and every already-consumed key that
    /// the current object owns was recorded as visited — non-enumerable
    /// keys included, which is what shadows them at the ancestors.
    pub open spec fn h_inv(self, h: Heap) -> bool {
        &&& h.handle_live(self.object)
        &&& self.front <= self.remaining_keys@.len()
        &&& (forall|q: int|
            0 <= q < self.front ==> ((handle_get_own_spec(
                h,
                self.object,
                #[trigger] self.remaining_keys@[q],
            ) is Some) ==> key_in(self.visited_keys@, self.remaining_keys@[q].abs())))
    }
}

/// Drives `for`-`of` over an array: yields the elements below the current
/// length in index order, re-reading the length each step.
#[derive(Debug)]
pub struct ArrayValuesIterator {
    pub array: Array,
    pub index: u32,
}

/// What one array-values step guarantees: before the end, the slot's value
/// comes back and the cursor advances by exactly one; at or past the end,
/// the iterator finishes and stays finished.
pub open spec fn values_step_post(
    h: Heap,
    dp: Option<ObjectHandle>,
    pre: ArrayValuesIterator,
    post: ArrayValuesIterator,
    r: TryResult<Result<Option<Value>, JsError>>,
) -> bool {
    &&& post.array == pre.array
    &&& (pre.index >= arr_len(h, pre.array.0 as int) ==> (r matches TryResult::Continue(c) && c
        == Ok::<Option<Value>, JsError>(None)) && post == pre)
    &&& (pre.index < arr_len(h, pre.array.0 as int) ==> post.index == pre.index + 1 && (match elem_value(
        h,
        pre.array.0 as int,
        pre.index as int,
    ) {
        Some(v) => r matches TryResult::Continue(c) && c == Ok::<Option<Value>, JsError>(Some(v)),
        None => match spec_get(
            h,
            crate::heap::ObjectHandle::Array(pre.array.0),
            KeyAbs::Int(pre.index as int),
            dp,
            PROTO_CHAIN_LIMIT as nat,
        ) {
            GetOutcome::Val(v) => r matches TryResult::Continue(c) && c == Ok::<
                Option<Value>,
                JsError,
            >(Some(v)),
            GetOutcome::NeedsCall(_) => r is Break,
            GetOutcome::OutOfFuel => r matches TryResult::Continue(c) && c matches Err(e)
                && e.kind == ExceptionType::RangeError,
        },
    }))
}

impl ArrayValuesIterator {
    pub fn new(array: Array) -> (r: ArrayValuesIterator)
        ensures
            r.array == array,
            r.index == 0,
    {
        ArrayValuesIterator { array, index: 0 }
    }

    /// One `for`-`of` step. The fast path reads the element slot directly;
    /// a hole or accessor slot falls back to a full [[Get]], which may need
    /// a user getter (`Break`).
    pub fn next(&mut self, h: &Heap, dp: Option<ObjectHandle>) -> (r: TryResult<
        Result<Option<Value>, JsError>,
    >)
        requires
            heap_protos_wf(*h, dp),
            h.array_live(old(self).array.0 as int),
        ensures
            values_step_post(*h, dp, *old(self), *final(self), r),
    {
        let array = self.array;
        let index = self.index;
        let len = array.len(h);
        if index >= len {
            return TryResult::Continue(Ok(None));
        }
        self.index = index + 1;
        proof {
            assert(h.array_wf(array.0 as int));
        }
        let rec = h.array(array.0);
        match h.storage_value(rec.storage, index as usize) {
            Some(v) => TryResult::Continue(Ok(Some(v))),
            None => {
                // Hole or accessor: perform a full [[Get]].
                let key = PropertyKey::Integer(index as i64);
                proof {
                    assert(key.abs() == KeyAbs::Int(index as int));
                }
                match get_on_handle(h, ObjectHandle::Array(array.0), &key, dp) {
                    TryResult::Continue(res) => match res {
                        Ok(v) => TryResult::Continue(Ok(Some(v))),
                        Err(e) => TryResult::Continue(Err(e)),
                    },
                    TryResult::Break => TryResult::Break,
                }
            },
        }
    }
}

/// Iterating a fully populated array yields exactly its elements in index
/// order, one per step, and then stays finished: the single-pass law.
pub proof fn lemma_array_values_in_order(
    h: Heap,
    dp: Option<ObjectHandle>,
    pre: ArrayValuesIterator,
    post: ArrayValuesIterator,
    r: TryResult<Result<Option<Value>, JsError>>,
    vals: Seq<Value>,
)
    requires
        h.array_wf(pre.array.0 as int),
        arr_len(h, pre.array.0 as int) == vals.len(),
        forall|j: int| 0 <= j < vals.len() ==> elem_value(h, pre.array.0 as int, j) == Some(vals[j]),
        values_step_post(h, dp, pre, post, r),
    ensures
        pre.index < vals.len() ==> (r matches TryResult::Continue(c) && c == Ok::<
            Option<Value>,
            JsError,
        >(Some(vals[pre.index as int]))) && post.index == pre.index + 1,
        pre.index >= vals.len() ==> (r matches TryResult::Continue(c) && c == Ok::<
            Option<Value>,
            JsError,
        >(None)) && post == pre,
{
}

/// Two successful `for`-`in` steps never yield the same key: the
/// never-twice law across the whole prototype chain.
pub proof fn lemma_for_in_never_repeats(
    h: Heap,
    dp: Option<ObjectHandle>,
    it0: ObjectPropertiesIterator,
    it1: ObjectPropertiesIterator,
    it2: ObjectPropertiesIterator,
    r1: Result<Option<PropertyKey>, JsError>,
    r2: Result<Option<PropertyKey>, JsError>,
    k1: PropertyKey,
    k2: PropertyKey,
)
    requires
        properties_step_post(h, dp, it0, it1, r1),
        properties_step_post(h, dp, it1, it2, r2),
        r1 == Ok::<Option<PropertyKey>, JsError>(Some(k1)),
        r2 == Ok::<Option<PropertyKey>, JsError>(Some(k2)),
    ensures
        k1.abs() != k2.abs(),
{
}

/// An iterator record, one variant per driving strategy.
#[derive(Debug)]
pub enum VmIterator {
    /// An iterator whose `next` method is not callable.
    InvalidIterator,
    ObjectProperties(ObjectPropertiesIterator),
    ArrayValues(ArrayValuesIterator),
    /// A user iterator: stepping it calls `next_method`, which only the
    /// host can do.
    GenericIterator { iterator: Value, next_method: u32 },
    SliceIterator { values: Vec<Value>, front: usize },
    EmptySliceIterator,
}

/// What the generic path decides once the host has called `next` and hands
/// the result back: a non-object result throws, otherwise `done` ends the
/// iteration and `value` carries the element.
pub enum GenericStep {
    Done,
    Value(Value),
}

impl VmIterator {
    /// IteratorStepValue for the variants that need no user call; the
    /// generic variant breaks to the host.
    pub fn step_value(&mut self, h: &Heap, dp: Option<ObjectHandle>) -> (r: TryResult<
        Result<Option<Value>, JsError>,
    >)
        requires
            heap_protos_wf(*h, dp),
            old(self).h_inv(*h),
        ensures
            final(self).h_inv(*h),
            (*old(self)) is EmptySliceIterator ==> (r matches TryResult::Continue(c) && c == Ok::<
                Option<Value>,
                JsError,
            >(None)) && *final(self) == *old(self),
            (*old(self)) is InvalidIterator ==> (r matches TryResult::Continue(c) && c matches Err(e)
                && e.kind == ExceptionType::TypeError) && *final(self) == *old(self),
            (*old(self)) is GenericIterator ==> (r is Break) && *final(self) == *old(self),
            step_value_array_post(*h, dp, *old(self), *final(self), r),
            step_value_props_post(*h, dp, *old(self), *final(self), r),
            step_value_slice_post(*old(self), *final(self), r),
    {
        match self {
            VmIterator::InvalidIterator => TryResult::Continue(
                Err(JsError::new(ExceptionType::TypeError, "Not callable")),
            ),
            VmIterator::ObjectProperties(iter) => {
                let stepped = iter.next(h, dp);
                match stepped {
                    Ok(Some(k)) => match k {
                        PropertyKey::Integer(n) => {
                            let s = crate::strconv::i64_to_string(n);
                            TryResult::Continue(Ok(Some(Value::String(s))))
                        },
                        PropertyKey::String(s) => TryResult::Continue(Ok(Some(Value::String(s)))),
                        PropertyKey::Symbol(_) => TryResult::Continue(
                            Err(JsError::new(ExceptionType::TypeError, "Unexpected symbol key")),
                        ),
                    },
                    Ok(None) => TryResult::Continue(Ok(None)),
                    Err(e) => TryResult::Continue(Err(e)),
                }
            },
            VmIterator::ArrayValues(iter) => iter.next(h, dp),
            VmIterator::GenericIterator { .. } => TryResult::Break,
            VmIterator::SliceIterator { values, front } => {
                if *front < values.len() {
                    let v = values[*front].duplicate();
                    *front = *front + 1;
                    TryResult::Continue(Ok(Some(v)))
                } else {
                    TryResult::Continue(Ok(None))
                }
            },
            VmIterator::EmptySliceIterator => TryResult::Continue(Ok(None)),
        }
    }

    /// How many elements remain, where that can be known cheaply.
    pub fn remaining_length_estimate(&self, h: &Heap) -> (r: Option<usize>)
        requires
            self.h_inv(*h),
        ensures
            self matches VmIterator::ArrayValues(it) ==> r == Some(
                (if arr_len(*h, it.array.0 as int) >= it.index as int {
                    arr_len(*h, it.array.0 as int) - it.index as int
                } else {
                    0
                }) as usize,
            ),
            self matches VmIterator::ObjectProperties(it) ==> r == Some(
                (it.remaining_keys@.len() - it.front) as usize,
            ),
            self matches VmIterator::SliceIterator { values, front } ==> r == Some(
                (if (front as int) < values@.len() {
                    values@.len() - front as int
                } else {
                    0
                }) as usize,
            ),
            (self is InvalidIterator || self is GenericIterator) ==> r is None,
            self is EmptySliceIterator ==> r == Some(0usize),
    {
        match self {
            VmIterator::InvalidIterator => None,
            VmIterator::ObjectProperties(iter) => Some(
                iter.remaining_keys.len() - if iter.front < iter.remaining_keys.len() {
                    iter.front
                } else {
                    iter.remaining_keys.len()
                },
            ),
            VmIterator::ArrayValues(iter) => {
                let len = iter.array.len(h);
                if len >= iter.index {
                    Some((len - iter.index) as usize)
                } else {
                    Some(0)
                }
            },
            VmIterator::GenericIterator { .. } => None,
            VmIterator::SliceIterator { values, front } => {
                if *front < values.len() {
                    Some(values.len() - *front)
                } else {
                    Some(0)
                }
            },
            VmIterator::EmptySliceIterator => Some(0),
        }
    }

    /// GetIterator: looks up `@@iterator`; an array using the realm's own
    /// values iterator short-circuits to the fast variant; anything else
    /// needs the host to invoke the method (`Break`), and a missing or
    /// non-callable method throws a TypeError.
    pub fn from_value(
        h: &Heap,
        value: &Value,
        array_prototype_values: Option<u32>,
        dp: Option<ObjectHandle>,
    ) -> (r: TryResult<Result<VmIterator, JsError>>)
        requires
            heap_protos_wf(*h, dp),
            value matches Value::Array(a) ==> h.array_live(a as int),
            value matches Value::Object(o) ==> h.object_live(o as int),
        ensures
            from_value_ok_inv(*h, r),
            from_value_post(*h, *value, array_prototype_values, dp, r),
    {
        let handle = match value {
            Value::Array(a) => ObjectHandle::Array(*a),
            Value::Object(o) => ObjectHandle::Ordinary(*o),
            _ => {
                return TryResult::Continue(
                    Err(
                        JsError::new(
                            ExceptionType::TypeError,
                            "Iterator method cannot be undefined",
                        ),
                    ),
                );
            },
        };
        let key = PropertyKey::Symbol(WELL_KNOWN_ITERATOR_SYMBOL);
        proof {
            assert(key.abs() == KeyAbs::Sym(WELL_KNOWN_ITERATOR_SYMBOL));
        }
        let method = match get_on_handle(h, handle, &key, dp) {
            TryResult::Continue(res) => match res {
                Ok(v) => v,
                Err(e) => {
                    return TryResult::Continue(Err(e));
                },
            },
            TryResult::Break => {
                return TryResult::Break;
            },
        };
        match method {
            Value::Undefined => TryResult::Continue(
                Err(JsError::new(ExceptionType::TypeError, "Iterator method cannot be undefined")),
            ),
            Value::Function(f) => {
                match value {
                    Value::Array(a) => {
                        let is_values = match array_prototype_values {
                            Some(g) => g == f,
                            None => false,
                        };
                        if is_values {
                            TryResult::Continue(
                                Ok(VmIterator::ArrayValues(ArrayValuesIterator::new(Array(*a)))),
                            )
                        } else {
                            // The host must call the method itself.
                            TryResult::Break
                        }
                    },
                    _ => TryResult::Break,
                }
            },
            _ => TryResult::Continue(
                Err(JsError::new(ExceptionType::TypeError, "Iterator method is not callable")),
            ),
        }
    }

    /// The heap facts a stored iterator relies on.
    pub open spec fn h_inv(self, h: Heap) -> bool {
        match self {
            VmIterator::ObjectProperties(it) => it.h_inv(h),
            VmIterator::ArrayValues(it) => h.array_live(it.array.0 as int),
            _ => true,
        }
    }
}



/// The for-in case of `step_value`: the inner step's key comes back as a
/// string value, integer keys in their decimal spelling.
pub open spec fn step_value_props_post(
    h: Heap,
    dp: Option<ObjectHandle>,
    pre: VmIterator,
    post: VmIterator,
    r: TryResult<Result<Option<Value>, JsError>>,
) -> bool {
    match (pre, post) {
        (VmIterator::ObjectProperties(p0), VmIterator::ObjectProperties(p1)) => exists|
            kr: Result<Option<PropertyKey>, JsError>,
        |
            #[trigger] properties_step_post(h, dp, p0, p1, kr) && key_result_as_value(kr, r),
        (VmIterator::ObjectProperties(_), _) => false,
        _ => true,
    }
}

/// How a yielded property key surfaces as a for-in value.
pub open spec fn key_result_as_value(
    kr: Result<Option<PropertyKey>, JsError>,
    r: TryResult<Result<Option<Value>, JsError>>,
) -> bool {
    match kr {
        Ok(Some(PropertyKey::Integer(n))) => r matches TryResult::Continue(c) && c matches Ok(v)
            && v matches Some(Value::String(s)) && s@ == crate::strconv::decimal_string(n as int),
        Ok(Some(PropertyKey::String(s))) => r == TryResult::Continue(
            Ok::<Option<Value>, JsError>(Some(Value::String(s))),
        ),
        Ok(Some(PropertyKey::Symbol(_))) => r matches TryResult::Continue(c) && c matches Err(e)
            && e.kind == ExceptionType::TypeError,
        Ok(None) => r == TryResult::Continue(Ok::<Option<Value>, JsError>(None)),
        Err(e) => r == TryResult::Continue(Err::<Option<Value>, JsError>(e)),
    }
}

/// The slice case of `step_value`: yields its values in order, then stays
/// finished.
pub open spec fn step_value_slice_post(
    pre: VmIterator,
    post: VmIterator,
    r: TryResult<Result<Option<Value>, JsError>>,
) -> bool {
    match pre {
        VmIterator::SliceIterator { values: v0, front: f0 } => {
            &&& (post matches VmIterator::SliceIterator { values: v1, front: f1 } && v1 == v0 && (
            if f0 < v0@.len() {
                f1 == f0 + 1
            } else {
                f1 == f0
            }))
            &&& (if f0 < v0@.len() {
                r matches TryResult::Continue(c) && c == Ok::<Option<Value>, JsError>(
                    Some(v0@[f0 as int]),
                )
            } else {
                r matches TryResult::Continue(c) && c == Ok::<Option<Value>, JsError>(None)
            })
        },
        _ => true,
    }
}

/// The object handle a value stands for, if any.
pub open spec fn value_handle(v: Value) -> Option<ObjectHandle> {
    match v {
        Value::Object(o) => Some(ObjectHandle::Ordinary(o)),
        Value::Array(a) => Some(ObjectHandle::Array(a)),
        _ => None,
    }
}

/// What the generic decision step returns, case by case over the reads of
/// `done` and `value` on the call result.
pub open spec fn generic_step_post(
    h: Heap,
    call_result: Value,
    dp: Option<ObjectHandle>,
    r: TryResult<Result<GenericStep, JsError>>,
) -> bool {
    match value_handle(call_result) {
        None => (r matches TryResult::Continue(c) && c matches Err(e) && e.kind
            == ExceptionType::TypeError),
        Some(handle) => match spec_get(h, handle, KeyAbs::Str("done"@), dp, PROTO_CHAIN_LIMIT as nat) {
            GetOutcome::Val(d) => if to_boolean_spec(d) {
                r matches TryResult::Continue(c) && c matches Ok(g) && g is Done
            } else {
                match spec_get(h, handle, KeyAbs::Str("value"@), dp, PROTO_CHAIN_LIMIT as nat) {
                    GetOutcome::Val(v) => r matches TryResult::Continue(c) && c matches Ok(g)
                        && g matches GenericStep::Value(vv) && vv == v,
                    GetOutcome::NeedsCall(_) => r is Break,
                    GetOutcome::OutOfFuel => r matches TryResult::Continue(c) && c matches Err(e)
                        && e.kind == ExceptionType::RangeError,
                }
            },
            GetOutcome::NeedsCall(_) => r is Break,
            GetOutcome::OutOfFuel => r matches TryResult::Continue(c) && c matches Err(e)
                && e.kind == ExceptionType::RangeError,
        },
    }
}

/// What GetIterator decides from the `@@iterator` lookup: a missing or
/// non-callable method throws, the realm's own array-values method takes
/// the fast variant, and any other callable needs the host to invoke it.
pub open spec fn from_value_post(
    h: Heap,
    value: Value,
    array_prototype_values: Option<u32>,
    dp: Option<ObjectHandle>,
    r: TryResult<Result<VmIterator, JsError>>,
) -> bool {
    match value_handle(value) {
        None => (r matches TryResult::Continue(c) && c matches Err(e) && e.kind
            == ExceptionType::TypeError),
        Some(handle) => match spec_get(
            h,
            handle,
            KeyAbs::Sym(WELL_KNOWN_ITERATOR_SYMBOL),
            dp,
            PROTO_CHAIN_LIMIT as nat,
        ) {
            GetOutcome::Val(m) => match m {
                Value::Undefined => (r matches TryResult::Continue(c) && c matches Err(e)
                    && e.kind == ExceptionType::TypeError),
                Value::Function(f) => match value {
                    Value::Array(a) => if array_prototype_values == Some(f) {
                        r matches TryResult::Continue(c) && c matches Ok(it) && it == (
                        VmIterator::ArrayValues(ArrayValuesIterator { array: Array(a), index: 0 }))
                    } else {
                        r is Break
                    },
                    _ => r is Break,
                },
                _ => (r matches TryResult::Continue(c) && c matches Err(e) && e.kind
                    == ExceptionType::TypeError),
            },
            GetOutcome::NeedsCall(_) => r is Break,
            GetOutcome::OutOfFuel => (r matches TryResult::Continue(c) && c matches Err(e)
                && e.kind == ExceptionType::RangeError),
        },
    }
}


/// What the generic iteration path decides from the host's call result:
/// IteratorComplete and IteratorValue. A non-object result is a TypeError;
/// reading `done` or `value` walks the result object like any other get.
pub fn generic_step_decide(h: &Heap, call_result: &Value, dp: Option<ObjectHandle>) -> (r:
    TryResult<Result<GenericStep, JsError>>)
    requires
        heap_protos_wf(*h, dp),
        call_result matches Value::Object(o) ==> h.object_live(o as int),
        call_result matches Value::Array(a) ==> h.array_live(a as int),
    ensures
        generic_step_post(*h, *call_result, dp, r),
{
    let handle = match call_result {
        Value::Object(o) => ObjectHandle::Ordinary(*o),
        Value::Array(a) => ObjectHandle::Array(*a),
        _ => {
            return TryResult::Continue(
                Err(JsError::new(ExceptionType::TypeError, "Iterator returned a non-object result")),
            );
        },
    };
    let done_key = PropertyKey::String(String::from_str("done"));
    proof {
        reveal_strlit("done");
        assert(done_key.abs() == KeyAbs::Str("done"@));
    }
    let done = match get_on_handle(h, handle, &done_key, dp) {
        TryResult::Continue(res) => match res {
            Ok(v) => v,
            Err(e) => {
                return TryResult::Continue(Err(e));
            },
        },
        TryResult::Break => {
            return TryResult::Break;
        },
    };
    if to_boolean(&done) {
        return TryResult::Continue(Ok(GenericStep::Done));
    }
    let value_key = PropertyKey::String(String::from_str("value"));
    proof {
        reveal_strlit("value");
        assert(value_key.abs() == KeyAbs::Str("value"@));
    }
    match get_on_handle(h, handle, &value_key, dp) {
        TryResult::Continue(res) => match res {
            Ok(v) => TryResult::Continue(Ok(GenericStep::Value(v))),
            Err(e) => TryResult::Continue(Err(e)),
        },
        TryResult::Break => TryResult::Break,
    }
}


/// What GetIteratorFromMethod decides once the host has invoked the
/// `@@iterator` method: a non-object result throws, a callable `next`
/// member forms a generic iterator record, and anything else leaves the
/// record invalid so that the first step throws.
pub open spec fn iterator_from_result_post(
    h: Heap,
    call_result: Value,
    dp: Option<ObjectHandle>,
    r: TryResult<Result<VmIterator, JsError>>,
) -> bool {
    match value_handle(call_result) {
        None => (r matches TryResult::Continue(c) && c matches Err(e) && e.kind
            == ExceptionType::TypeError),
        Some(handle) => match spec_get(h, handle, KeyAbs::Str("next"@), dp, PROTO_CHAIN_LIMIT as nat) {
            GetOutcome::Val(m) => match m {
                Value::Function(f) => r == TryResult::Continue(
                    Ok::<VmIterator, JsError>(
                        VmIterator::GenericIterator { iterator: call_result, next_method: f },
                    ),
                ),
                _ => r == TryResult::Continue(
                    Ok::<VmIterator, JsError>(VmIterator::InvalidIterator),
                ),
            },
            GetOutcome::NeedsCall(_) => r is Break,
            GetOutcome::OutOfFuel => (r matches TryResult::Continue(c) && c matches Err(e)
                && e.kind == ExceptionType::RangeError),
        },
    }
}

/// Finishes GetIterator from the `@@iterator` call's result.
pub fn iterator_record_from_result(
    h: &Heap,
    call_result: &Value,
    dp: Option<ObjectHandle>,
) -> (r: TryResult<Result<VmIterator, JsError>>)
    requires
        heap_protos_wf(*h, dp),
        call_result matches Value::Object(o) ==> h.object_live(o as int),
        call_result matches Value::Array(a) ==> h.array_live(a as int),
    ensures
        iterator_from_result_post(*h, *call_result, dp, r),
{
    let handle = match call_result {
        Value::Object(o) => ObjectHandle::Ordinary(*o),
        Value::Array(a) => ObjectHandle::Array(*a),
        _ => {
            return TryResult::Continue(
                Err(JsError::new(ExceptionType::TypeError, "Iterator is not an object")),
            );
        },
    };
    let next_key = PropertyKey::String(String::from_str("next"));
    proof {
        reveal_strlit("next");
        assert(next_key.abs() == KeyAbs::Str("next"@));
    }
    match get_on_handle(h, handle, &next_key, dp) {
        TryResult::Continue(res) => match res {
            Ok(Value::Function(f)) => TryResult::Continue(
                Ok(
                    VmIterator::GenericIterator {
                        iterator: call_result.duplicate(),
                        next_method: f,
                    },
                ),
            ),
            Ok(_) => TryResult::Continue(Ok(VmIterator::InvalidIterator)),
            Err(e) => TryResult::Continue(Err(e)),
        },
        TryResult::Break => TryResult::Break,
    }
}

/// ToBoolean on the modelled values; the bits of a double decide through
/// its classification.
pub open spec fn to_boolean_spec(v: Value) -> bool {
    match v {
        Value::Undefined => false,
        Value::Null => false,
        Value::Boolean(b) => b,
        Value::Integer(i) => i != 0,
        Value::Number(bits) => !(bits == 0 || bits == 0x8000_0000_0000_0000u64
            || crate::value::f64_bits_is_nan(bits)),
        Value::String(s) => s@.len() != 0,
        Value::Symbol(_) => true,
        Value::Object(_) => true,
        Value::Array(_) => true,
        Value::Function(_) => true,
    }
}

pub fn to_boolean(v: &Value) -> (r: bool)
    ensures
        r == to_boolean_spec(*v),
{
    match v {
        Value::Undefined => false,
        Value::Null => false,
        Value::Boolean(b) => *b,
        Value::Integer(i) => *i != 0,
        Value::Number(bits) => !(*bits == 0 || *bits == 0x8000_0000_0000_0000u64
            || crate::value::bits_is_nan(*bits)),
        Value::String(s) => !s.as_str().is_empty(),
        Value::Symbol(_) => true,
        Value::Object(_) => true,
        Value::Array(_) => true,
        Value::Function(_) => true,
    }
}


/// The array-values case of `step_value`, stated over the wrapped record.
pub open spec fn step_value_array_post(
    h: Heap,
    dp: Option<ObjectHandle>,
    pre: VmIterator,
    post: VmIterator,
    r: TryResult<Result<Option<Value>, JsError>>,
) -> bool {
    match (pre, post) {
        (VmIterator::ArrayValues(p0), VmIterator::ArrayValues(p1)) => values_step_post(
            h,
            dp,
            p0,
            p1,
            r,
        ),
        (VmIterator::ArrayValues(_), _) => false,
        _ => true,
    }
}

/// A record `from_value` hands back refers only to live heap entities.
pub open spec fn from_value_ok_inv(h: Heap, r: TryResult<Result<VmIterator, JsError>>) -> bool {
    match r {
        TryResult::Continue(c) => match c {
            Ok(it) => it.h_inv(h),
            Err(_) => true,
        },
        TryResult::Break => true,
    }
}

} // verus!
