//! The stop-the-world mark-and-sweep collector: a worklist-based mark phase
//! over the typed arenas, then a sweep that compacts every arena and
//! rewrites each surviving handle through the compaction maps.

use vstd::prelude::*;

use crate::elements::{ElementDescriptor, ElementStorage};
use crate::heap::{ArrayRecord, FunctionRecord, Heap, ObjectHandle, ObjectRecord, PropertyEntry};
use crate::value::Value;

verus! {

/// One queued mark-phase item.
#[derive(Debug, Clone, Copy)]
pub enum WorkItem {
    Arr(u32),
    Obj(u32),
    Sto(u32),
    Fun(u32),
}

/// The per-arena mark bits.
#[derive(Debug)]
pub struct Marks {
    pub arrays: Vec<bool>,
    pub objects: Vec<bool>,
    pub storages: Vec<bool>,
    pub functions: Vec<bool>,
}

/// The per-arena compaction maps: the new index of each surviving record,
/// together with the mark bits the sweep used.
#[derive(Debug)]
pub struct CompactionLists {
    pub arrays: Vec<u32>,
    pub objects: Vec<u32>,
    pub storages: Vec<u32>,
    pub functions: Vec<u32>,
    pub marks: Marks,
}

/// Whether every reference leaving a live record lands on a live record:
/// the collector requires a closed heap.
pub open spec fn value_refs_live(h: Heap, v: Value) -> bool {
    match v {
        Value::Object(o) => h.object_live(o as int),
        Value::Array(a) => h.array_live(a as int),
        Value::Function(f) => h.function_live(f as int),
        _ => true,
    }
}

pub open spec fn opt_value_refs_live(h: Heap, v: Option<Value>) -> bool {
    match v {
        Some(x) => value_refs_live(h, x),
        None => true,
    }
}

pub open spec fn opt_fun_live(h: Heap, f: Option<u32>) -> bool {
    match f {
        Some(x) => h.function_live(x as int),
        None => true,
    }
}

pub open spec fn descriptor_refs_live(h: Heap, d: Option<ElementDescriptor>) -> bool {
    match d {
        Some(ElementDescriptor::Accessor { get, set, .. }) => opt_fun_live(h, get) && opt_fun_live(
            h,
            set,
        ),
        _ => true,
    }
}

pub open spec fn entry_refs_live(h: Heap, e: PropertyEntry) -> bool {
    &&& opt_value_refs_live(h, e.slot.value)
    &&& opt_fun_live(h, e.slot.get)
    &&& opt_fun_live(h, e.slot.set)
}

pub open spec fn handle_refs_live(h: Heap, hd: Option<ObjectHandle>) -> bool {
    match hd {
        Some(ObjectHandle::Ordinary(o)) => h.object_live(o as int),
        Some(ObjectHandle::Array(a)) => h.array_live(a as int),
        None => true,
    }
}

/// A closed heap: every out-reference of every live record is live.
pub open spec fn heap_closed(h: Heap) -> bool {
    &&& (forall|a: int|
        h.array_live(a) ==> h.storage_live(#[trigger] h.arr(a).storage as int) && (match h.arr(
            a,
        ).object_index {
            Some(o) => h.object_live(o as int),
            None => true,
        }))
    &&& (forall|o: int|
        h.object_live(o) ==> handle_refs_live(h, #[trigger] h.obj(o).prototype) && (forall|i: int|
            0 <= i < h.obj(o).properties@.len() ==> entry_refs_live(
                h,
                #[trigger] h.obj(o).properties@[i],
            )))
    &&& (forall|s: int|
        h.storage_live(s) ==> (forall|i: int|
            0 <= i < h.sto(s).values@.len() ==> opt_value_refs_live(
                h,
                #[trigger] h.sto(s).values@[i],
            )) && (forall|i: int|
            0 <= i < h.sto(s).values@.len() ==> descriptor_refs_live(
                h,
                #[trigger] h.sto(s).descriptor_at(i),
            )))
}

// ---- rewriting through the compaction maps -------------------------------

pub open spec fn rewrite_value_spec(c: CompactionLists, v: Value) -> Value {
    match v {
        Value::Object(o) => Value::Object(c.objects@[o as int]),
        Value::Array(a) => Value::Array(c.arrays@[a as int]),
        Value::Function(f) => Value::Function(c.functions@[f as int]),
        _ => v,
    }
}

pub open spec fn rewrite_opt_value_spec(c: CompactionLists, v: Option<Value>) -> Option<Value> {
    match v {
        Some(x) => Some(rewrite_value_spec(c, x)),
        None => None,
    }
}

pub open spec fn rewrite_opt_fun_spec(c: CompactionLists, f: Option<u32>) -> Option<u32> {
    match f {
        Some(x) => Some(c.functions@[x as int]),
        None => None,
    }
}

pub open spec fn rewrite_handle_spec(c: CompactionLists, hd: ObjectHandle) -> ObjectHandle {
    match hd {
        ObjectHandle::Ordinary(o) => ObjectHandle::Ordinary(c.objects@[o as int]),
        ObjectHandle::Array(a) => ObjectHandle::Array(c.arrays@[a as int]),
    }
}

pub open spec fn rewrite_array_spec(c: CompactionLists, r: ArrayRecord) -> ArrayRecord {
    ArrayRecord {
        object_index: match r.object_index {
            Some(o) => Some(c.objects@[o as int]),
            None => None,
        },
        storage: c.storages@[r.storage as int],
        length: r.length,
        len_writable: r.len_writable,
    }
}

pub open spec fn rewrite_descriptor_spec(
    c: CompactionLists,
    d: ElementDescriptor,
) -> ElementDescriptor {
    match d {
        ElementDescriptor::Accessor { get, set, enumerable, configurable } => {
            ElementDescriptor::Accessor {
                get: rewrite_opt_fun_spec(c, get),
                set: rewrite_opt_fun_spec(c, set),
                enumerable,
                configurable,
            }
        },
        _ => d,
    }
}

pub open spec fn rewrite_entry_spec(c: CompactionLists, e: PropertyEntry) -> PropertyEntry {
    PropertyEntry {
        key: e.key,
        slot: crate::heap::PropertySlot {
            value: rewrite_opt_value_spec(c, e.slot.value),
            get: rewrite_opt_fun_spec(c, e.slot.get),
            set: rewrite_opt_fun_spec(c, e.slot.set),
            writable: e.slot.writable,
            enumerable: e.slot.enumerable,
            configurable: e.slot.configurable,
        },
    }
}


/// Object records rewrite field-wise; the property list is compared
/// entry-wise because it lives in a vector.
pub open spec fn object_rewritten(c: CompactionLists, pre: ObjectRecord, post: ObjectRecord) -> bool {
    &&& post.prototype == (match pre.prototype {
        Some(hd) => Some(rewrite_handle_spec(c, hd)),
        None => None,
    })
    &&& post.extensible == pre.extensible
    &&& post.properties@.len() == pre.properties@.len()
    &&& (forall|i: int|
        0 <= i < pre.properties@.len() ==> #[trigger] post.properties@[i] == rewrite_entry_spec(
            c,
            pre.properties@[i],
        ))
}

/// Storage records rewrite slot-wise.
pub open spec fn storage_rewritten(
    c: CompactionLists,
    pre: ElementStorage,
    post: ElementStorage,
) -> bool {
    &&& post.values@.len() == pre.values@.len()
    &&& (forall|i: int|
        0 <= i < pre.values@.len() ==> #[trigger] post.values@[i] == rewrite_opt_value_spec(
            c,
            pre.values@[i],
        ))
    &&& (forall|i: int|
        0 <= i < pre.values@.len() ==> #[trigger] post.descriptor_at(i) == (match pre.descriptor_at(
            i,
        ) {
            Some(d) => Some(rewrite_descriptor_spec(c, d)),
            None => None,
        }))
}

// ---- counting marks ------------------------------------------------------

pub open spec fn count_marked(s: Seq<bool>) -> int
    decreases s.len(),
{
    if s.len() == 0 {
        0
    } else {
        count_marked(s.drop_last()) + (if s.last() {
            1int
        } else {
            0
        })
    }
}

pub proof fn lemma_count_marked_bounds(s: Seq<bool>)
    ensures
        0 <= count_marked(s) <= s.len(),
    decreases s.len(),
{
    if s.len() > 0 {
        lemma_count_marked_bounds(s.drop_last());
    }
}

/// Marking one unmarked bit raises the count by one.
pub proof fn lemma_count_marked_update(s: Seq<bool>, i: int)
    requires
        0 <= i < s.len(),
        !s[i],
    ensures
        count_marked(s.update(i, true)) == count_marked(s) + 1,
    decreases s.len(),
{
    let t = s.update(i, true);
    if i == s.len() - 1 {
        assert(t.drop_last() =~= s.drop_last());
    } else {
        assert(t.drop_last() =~= s.drop_last().update(i, true));
        lemma_count_marked_update(s.drop_last(), i);
    }
}

/// Counting a strict prefix never exceeds counting the whole.
pub proof fn lemma_count_marked_prefix(s: Seq<bool>, i: int)
    requires
        0 <= i <= s.len(),
    ensures
        count_marked(s.take(i)) <= count_marked(s),
        s.take(i).len() == i,
    decreases s.len() - i,
{
    if i < s.len() {
        lemma_count_marked_prefix(s, i + 1);
        assert(s.take(i + 1).drop_last() =~= s.take(i));
        lemma_count_marked_bounds(s.take(i));
    } else {
        assert(s.take(i) =~= s);
    }
}


// ---- the mark phase ------------------------------------------------------

pub open spec fn marks_wf(h: Heap, m: Marks) -> bool {
    &&& m.arrays@.len() == h.arrays@.len()
    &&& m.objects@.len() == h.objects@.len()
    &&& m.storages@.len() == h.storages@.len()
    &&& m.functions@.len() == h.functions@.len()
}

pub open spec fn item_live(h: Heap, it: WorkItem) -> bool {
    match it {
        WorkItem::Arr(a) => h.array_live(a as int),
        WorkItem::Obj(o) => h.object_live(o as int),
        WorkItem::Sto(s) => h.storage_live(s as int),
        WorkItem::Fun(f) => h.function_live(f as int),
    }
}

pub open spec fn item_marked(m: Marks, it: WorkItem) -> bool {
    match it {
        WorkItem::Arr(a) => m.arrays@[a as int],
        WorkItem::Obj(o) => m.objects@[o as int],
        WorkItem::Sto(s) => m.storages@[s as int],
        WorkItem::Fun(f) => m.functions@[f as int],
    }
}

pub open spec fn queued(w: Seq<WorkItem>, it: WorkItem) -> bool {
    exists|i: int| 0 <= i < w.len() && w[i] == it
}

/// Marked, or still waiting in the worklist.
pub open spec fn mq(m: Marks, w: Seq<WorkItem>, it: WorkItem) -> bool {
    item_marked(m, it) || queued(w, it)
}

pub open spec fn value_mq(m: Marks, w: Seq<WorkItem>, v: Value) -> bool {
    match v {
        Value::Object(o) => mq(m, w, WorkItem::Obj(o)),
        Value::Array(a) => mq(m, w, WorkItem::Arr(a)),
        Value::Function(f) => mq(m, w, WorkItem::Fun(f)),
        _ => true,
    }
}

pub open spec fn opt_value_mq(m: Marks, w: Seq<WorkItem>, v: Option<Value>) -> bool {
    match v {
        Some(x) => value_mq(m, w, x),
        None => true,
    }
}

pub open spec fn opt_fun_mq(m: Marks, w: Seq<WorkItem>, f: Option<u32>) -> bool {
    match f {
        Some(x) => mq(m, w, WorkItem::Fun(x)),
        None => true,
    }
}

/// Every out-reference of the item is marked or queued.
pub open spec fn refs_mq(h: Heap, m: Marks, w: Seq<WorkItem>, it: WorkItem) -> bool {
    match it {
        WorkItem::Arr(a) => mq(m, w, WorkItem::Sto(h.arr(a as int).storage)) && (match h.arr(
            a as int,
        ).object_index {
            Some(o) => mq(m, w, WorkItem::Obj(o)),
            None => true,
        }),
        WorkItem::Obj(o) => (match h.obj(o as int).prototype {
            Some(ObjectHandle::Ordinary(p)) => mq(m, w, WorkItem::Obj(p)),
            Some(ObjectHandle::Array(p)) => mq(m, w, WorkItem::Arr(p)),
            None => true,
        }) && (forall|i: int|
            0 <= i < h.obj(o as int).properties@.len() ==> {
                let e = #[trigger] h.obj(o as int).properties@[i];
                opt_value_mq(m, w, e.slot.value) && opt_fun_mq(m, w, e.slot.get) && opt_fun_mq(
                    m,
                    w,
                    e.slot.set,
                )
            }),
        WorkItem::Sto(s) => (forall|i: int|
            0 <= i < h.sto(s as int).values@.len() ==> opt_value_mq(
                m,
                w,
                #[trigger] h.sto(s as int).values@[i],
            )) && (forall|i: int|
            0 <= i < h.sto(s as int).values@.len() ==> (match (#[trigger] h.sto(
                s as int,
            ).descriptor_at(i)) {
                Some(ElementDescriptor::Accessor { get, set, .. }) => opt_fun_mq(m, w, get)
                    && opt_fun_mq(m, w, set),
                _ => true,
            })),
        WorkItem::Fun(_) => true,
    }
}

/// The fully marked form: every out-reference of the item is marked.
pub open spec fn refs_marked(h: Heap, m: Marks, it: WorkItem) -> bool {
    refs_mq(h, m, Seq::empty(), it)
}

/// The state the mark phase leaves behind.
pub open spec fn mark_post(h: Heap, m: Marks, roots: Seq<Value>) -> bool {
    &&& marks_wf(h, m)
    &&& (forall|a: int| 0 <= a < m.arrays@.len() && m.arrays@[a] ==> h.array_live(a))
    &&& (forall|o: int| 0 <= o < m.objects@.len() && m.objects@[o] ==> h.object_live(o))
    &&& (forall|s: int| 0 <= s < m.storages@.len() && m.storages@[s] ==> h.storage_live(s))
    &&& (forall|f: int| 0 <= f < m.functions@.len() && m.functions@[f] ==> h.function_live(f))
    &&& (forall|a: int|
        0 <= a < m.arrays@.len() && #[trigger] m.arrays@[a] ==> refs_marked(
            h,
            m,
            WorkItem::Arr(a as u32),
        ))
    &&& (forall|o: int|
        0 <= o < m.objects@.len() && #[trigger] m.objects@[o] ==> refs_marked(
            h,
            m,
            WorkItem::Obj(o as u32),
        ))
    &&& (forall|s: int|
        0 <= s < m.storages@.len() && #[trigger] m.storages@[s] ==> refs_marked(
            h,
            m,
            WorkItem::Sto(s as u32),
        ))
    &&& (forall|i: int|
        0 <= i < roots.len() ==> value_mq(m, Seq::empty(), #[trigger] roots[i]))
}

/// Marks only ever grow during the mark phase.
pub open spec fn mark_leq(m1: Marks, m2: Marks) -> bool {
    &&& m1.arrays@.len() == m2.arrays@.len()
    &&& m1.objects@.len() == m2.objects@.len()
    &&& m1.storages@.len() == m2.storages@.len()
    &&& m1.functions@.len() == m2.functions@.len()
    &&& (forall|i: int| 0 <= i < m1.arrays@.len() && m1.arrays@[i] ==> #[trigger] m2.arrays@[i])
    &&& (forall|i: int| 0 <= i < m1.objects@.len() && m1.objects@[i] ==> #[trigger] m2.objects@[i])
    &&& (forall|i: int|
        0 <= i < m1.storages@.len() && m1.storages@[i] ==> #[trigger] m2.storages@[i])
    &&& (forall|i: int|
        0 <= i < m1.functions@.len() && m1.functions@[i] ==> #[trigger] m2.functions@[i])
}

/// Total number of unmarked bits: the mark phase's termination measure.
pub open spec fn unmarked_total(m: Marks) -> int {
    (m.arrays@.len() - count_marked(m.arrays@)) + (m.objects@.len() - count_marked(m.objects@)) + (
    m.storages@.len() - count_marked(m.storages@)) + (m.functions@.len() - count_marked(
        m.functions@,
    ))
}

pub proof fn lemma_unmarked_total_nonneg(m: Marks)
    ensures
        unmarked_total(m) >= 0,
{
    lemma_count_marked_bounds(m.arrays@);
    lemma_count_marked_bounds(m.objects@);
    lemma_count_marked_bounds(m.storages@);
    lemma_count_marked_bounds(m.functions@);
}

/// Bits that turned on denote live records.
pub open spec fn marks_new_live(h: Heap, m1: Marks, m2: Marks) -> bool {
    &&& (forall|i: int|
        0 <= i < m2.arrays@.len() && #[trigger] m2.arrays@[i] ==> m1.arrays@[i] || h.array_live(i))
    &&& (forall|i: int|
        0 <= i < m2.objects@.len() && #[trigger] m2.objects@[i] ==> m1.objects@[i]
            || h.object_live(i))
    &&& (forall|i: int|
        0 <= i < m2.storages@.len() && #[trigger] m2.storages@[i] ==> m1.storages@[i]
            || h.storage_live(i))
    &&& (forall|i: int|
        0 <= i < m2.functions@.len() && #[trigger] m2.functions@[i] ==> m1.functions@[i]
            || h.function_live(i))
}


pub proof fn lemma_mark_leq_trans(m1: Marks, m2: Marks, m3: Marks)
    requires
        mark_leq(m1, m2),
        mark_leq(m2, m3),
    ensures
        mark_leq(m1, m3),
{
}

/// A value's referent is marked.
pub open spec fn value_marked(m: Marks, v: Value) -> bool {
    value_mq(m, Seq::empty(), v)
}

/// Sets the mark bit of a value's referent; reports whether anything
/// changed.
fn mark_value_bit(h: &Heap, m: &mut Marks, v: &Value) -> (ch: bool)
    requires
        marks_wf(*h, *old(m)),
        value_refs_live(*h, *v),
    ensures
        marks_wf(*h, *final(m)),
        mark_leq(*old(m), *final(m)),
        marks_new_live(*h, *old(m), *final(m)),
        value_marked(*final(m), *v),
        !ch ==> *final(m) == *old(m),
        ch ==> unmarked_total(*final(m)) < unmarked_total(*old(m)),
{
    match v {
        Value::Object(o) => {
            if !m.objects[*o as usize] {
                let ghost pre = m.objects@;
                m.objects[*o as usize] = true;
                proof {
                    lemma_count_marked_update(pre, *o as int);
                }
                true
            } else {
                false
            }
        },
        Value::Array(a) => {
            if !m.arrays[*a as usize] {
                let ghost pre = m.arrays@;
                m.arrays[*a as usize] = true;
                proof {
                    lemma_count_marked_update(pre, *a as int);
                }
                true
            } else {
                false
            }
        },
        Value::Function(f) => {
            if !m.functions[*f as usize] {
                let ghost pre = m.functions@;
                m.functions[*f as usize] = true;
                proof {
                    lemma_count_marked_update(pre, *f as int);
                }
                true
            } else {
                false
            }
        },
        _ => false,
    }
}

/// Sets one arena's mark bit directly.
fn mark_sto_bit(h: &Heap, m: &mut Marks, s: u32) -> (ch: bool)
    requires
        marks_wf(*h, *old(m)),
        h.storage_live(s as int),
    ensures
        marks_wf(*h, *final(m)),
        mark_leq(*old(m), *final(m)),
        marks_new_live(*h, *old(m), *final(m)),
        final(m).storages@[s as int],
        !ch ==> *final(m) == *old(m),
        ch ==> unmarked_total(*final(m)) < unmarked_total(*old(m)),
{
    if !m.storages[s as usize] {
        let ghost pre = m.storages@;
        m.storages[s as usize] = true;
        proof {
            lemma_count_marked_update(pre, s as int);
        }
        true
    } else {
        false
    }
}

fn mark_obj_bit(h: &Heap, m: &mut Marks, o: u32) -> (ch: bool)
    requires
        marks_wf(*h, *old(m)),
        h.object_live(o as int),
    ensures
        marks_wf(*h, *final(m)),
        mark_leq(*old(m), *final(m)),
        marks_new_live(*h, *old(m), *final(m)),
        final(m).objects@[o as int],
        !ch ==> *final(m) == *old(m),
        ch ==> unmarked_total(*final(m)) < unmarked_total(*old(m)),
{
    if !m.objects[o as usize] {
        let ghost pre = m.objects@;
        m.objects[o as usize] = true;
        proof {
            lemma_count_marked_update(pre, o as int);
        }
        true
    } else {
        false
    }
}

fn mark_arr_bit(h: &Heap, m: &mut Marks, a: u32) -> (ch: bool)
    requires
        marks_wf(*h, *old(m)),
        h.array_live(a as int),
    ensures
        marks_wf(*h, *final(m)),
        mark_leq(*old(m), *final(m)),
        marks_new_live(*h, *old(m), *final(m)),
        final(m).arrays@[a as int],
        !ch ==> *final(m) == *old(m),
        ch ==> unmarked_total(*final(m)) < unmarked_total(*old(m)),
{
    if !m.arrays[a as usize] {
        let ghost pre = m.arrays@;
        m.arrays[a as usize] = true;
        proof {
            lemma_count_marked_update(pre, a as int);
        }
        true
    } else {
        false
    }
}

fn mark_fun_bit(h: &Heap, m: &mut Marks, f: u32) -> (ch: bool)
    requires
        marks_wf(*h, *old(m)),
        h.function_live(f as int),
    ensures
        marks_wf(*h, *final(m)),
        mark_leq(*old(m), *final(m)),
        marks_new_live(*h, *old(m), *final(m)),
        final(m).functions@[f as int],
        !ch ==> *final(m) == *old(m),
        ch ==> unmarked_total(*final(m)) < unmarked_total(*old(m)),
{
    if !m.functions[f as usize] {
        let ghost pre = m.functions@;
        m.functions[f as usize] = true;
        proof {
            lemma_count_marked_update(pre, f as int);
        }
        true
    } else {
        false
    }
}

fn vec_false(n: usize) -> (r: Vec<bool>)
    ensures
        r@.len() == n,
        forall|i: int| 0 <= i < n ==> !(#[trigger] r@[i]),
{
    let mut r: Vec<bool> = Vec::new();
    let mut i: usize = 0;
    while i < n
        invariant
            i <= n,
            r@.len() == i,
            forall|j: int| 0 <= j < i ==> !(#[trigger] r@[j]),
        decreases n - i,
    {
        r.push(false);
        i += 1;
    }
    r
}


/// Every live storage record is internally well formed.
pub open spec fn storages_wf(h: Heap) -> bool {
    forall|s: int| h.storage_live(s) ==> (#[trigger] h.sto(s)).wf()
}

/// All four arenas are indexable by 32-bit handles.
pub open spec fn arena_lens_fit(h: Heap) -> bool {
    &&& h.arrays@.len() <= u32::MAX
    &&& h.objects@.len() <= u32::MAX
    &&& h.storages@.len() <= u32::MAX
    &&& h.functions@.len() <= u32::MAX
}

/// The ambient facts every mark invariant carries: bits fit the arenas and
/// denote live records.
pub open spec fn marks_sound(h: Heap, m: Marks) -> bool {
    &&& marks_wf(h, m)
    &&& (forall|a: int| 0 <= a < m.arrays@.len() && #[trigger] m.arrays@[a] ==> h.array_live(a))
    &&& (forall|o: int| 0 <= o < m.objects@.len() && #[trigger] m.objects@[o] ==> h.object_live(o))
    &&& (forall|s: int|
        0 <= s < m.storages@.len() && #[trigger] m.storages@[s] ==> h.storage_live(s))
    &&& (forall|f: int|
        0 <= f < m.functions@.len() && #[trigger] m.functions@[f] ==> h.function_live(f))
}

/// The mark phase: roots are marked directly, then passes over the arenas
/// propagate marks along references until a full pass changes nothing,
/// which is exactly the transitive closure.
fn mark(h: &Heap, roots: &Vec<Value>) -> (m: Marks)
    requires
        heap_closed(*h),
        arena_lens_fit(*h),
        storages_wf(*h),
        forall|i: int| 0 <= i < roots@.len() ==> value_refs_live(*h, #[trigger] roots@[i]),
    ensures
        mark_post(*h, m, roots@),
{
    let mut m = Marks {
        arrays: vec_false(h.arrays.len()),
        objects: vec_false(h.objects.len()),
        storages: vec_false(h.storages.len()),
        functions: vec_false(h.functions.len()),
    };
    // Mark the roots.
    let nr = roots.len();
    let mut i: usize = 0;
    while i < nr
        invariant
            i <= nr,
            nr == roots@.len(),
            heap_closed(*h),
            arena_lens_fit(*h),
            storages_wf(*h),
            marks_sound(*h, m),
            forall|j: int| 0 <= j < roots@.len() ==> value_refs_live(*h, #[trigger] roots@[j]),
            forall|j: int| 0 <= j < i ==> value_marked(m, #[trigger] roots@[j]),
        decreases nr - i,
    {
        let ghost m_before = m;
        mark_value_bit(h, &mut m, &roots[i]);
        proof {
            assert forall|j: int| 0 <= j < i + 1 implies value_marked(
                m,
                #[trigger] roots@[j],
            ) by {
                if j < i {
                    assert(value_marked(m_before, roots@[j]));
                    assert(value_refs_live(*h, roots@[j]));
                }
            }
        }
        i += 1;
    }
    // Propagate to a fixpoint.
    loop
        invariant
            heap_closed(*h),
            arena_lens_fit(*h),
            storages_wf(*h),
            marks_sound(*h, m),
            forall|j: int| 0 <= j < roots@.len() ==> value_refs_live(*h, #[trigger] roots@[j]),
            forall|j: int| 0 <= j < roots@.len() ==> value_marked(m, #[trigger] roots@[j]),
        decreases unmarked_total(m),
    {
        proof {
            lemma_unmarked_total_nonneg(m);
        }
        let ghost m0 = m;
        let mut changed = false;

        // Arrays: storage and backing object.
        let na = m.arrays.len();
        let mut a: usize = 0;
        while a < na
            invariant
                a <= na,
                na == m.arrays@.len(),
                heap_closed(*h),
                arena_lens_fit(*h),
                storages_wf(*h),
                marks_sound(*h, m),
                mark_leq(m0, m),
                !changed ==> m == m0,
                changed ==> unmarked_total(m) < unmarked_total(m0),
                !changed ==> (forall|a2: int|
                    0 <= a2 < a && #[trigger] m.arrays@[a2] ==> refs_marked(
                        *h,
                        m,
                        WorkItem::Arr(a2 as u32),
                    )),
            decreases na - a,
        {
            if m.arrays[a] {
                let rec = h.array(a as u32);
                let ghost mb = m;
                let c1 = mark_sto_bit(h, &mut m, rec.storage);
                let ghost mc = m;
                let c2 = match rec.object_index {
                    Some(o) => mark_obj_bit(h, &mut m, o),
                    None => false,
                };
                proof {
                    lemma_mark_leq_trans(mb, mc, m);
                    lemma_mark_leq_trans(m0, mb, m);
                }
                if c1 || c2 {
                    changed = true;
                }
                proof {
                    if !(c1 || c2) {
                        assert(m == mb);
                        assert(refs_marked(*h, m, WorkItem::Arr(a as u32)));
                    }
                }
            }
            a += 1;
        }

        // Objects: prototype, property values and accessor functions.
        let no = m.objects.len();
        let mut o: usize = 0;
        while o < no
            invariant
                o <= no,
                no == m.objects@.len(),
                heap_closed(*h),
                arena_lens_fit(*h),
                storages_wf(*h),
                marks_sound(*h, m),
                mark_leq(m0, m),
                !changed ==> m == m0,
                changed ==> unmarked_total(m) < unmarked_total(m0),
                !changed ==> (forall|a2: int|
                    0 <= a2 < m.arrays@.len() && #[trigger] m.arrays@[a2] ==> refs_marked(
                        *h,
                        m,
                        WorkItem::Arr(a2 as u32),
                    )),
                !changed ==> (forall|o2: int|
                    0 <= o2 < o && #[trigger] m.objects@[o2] ==> refs_marked(
                        *h,
                        m,
                        WorkItem::Obj(o2 as u32),
                    )),
            decreases no - o,
        {
            if m.objects[o] {
                let ghost mb = m;
                let mut ch_here = false;
                match h.object_prototype(o as u32) {
                    Some(ObjectHandle::Ordinary(p)) => {
                        proof {
                            assert(handle_refs_live(*h, h.obj(o as int).prototype));
                        }
                        if mark_obj_bit(h, &mut m, p) {
                            ch_here = true;
                        }
                    },
                    Some(ObjectHandle::Array(p)) => {
                        proof {
                            assert(handle_refs_live(*h, h.obj(o as int).prototype));
                        }
                        if mark_arr_bit(h, &mut m, p) {
                            ch_here = true;
                        }
                    },
                    None => {},
                }
                let np = h.object_prop_len(o as u32);
                let mut pi: usize = 0;
                while pi < np
                    invariant
                        pi <= np,
                        o < no,
                        no == m.objects@.len(),
                        np == h.obj(o as int).properties@.len(),
                        heap_closed(*h),
                        arena_lens_fit(*h),
                        storages_wf(*h),
                        h.object_live(o as int),
                        marks_sound(*h, m),
                        mark_leq(m0, m),
                        mark_leq(mb, m),
                        !ch_here ==> (match h.obj(o as int).prototype {
                            Some(ObjectHandle::Ordinary(p)) => m.objects@[p as int],
                            Some(ObjectHandle::Array(p)) => m.arrays@[p as int],
                            None => true,
                        }),
                        !(changed || ch_here) ==> m == m0,
                        (changed || ch_here) ==> unmarked_total(m) < unmarked_total(m0),
                        !ch_here ==> (forall|i2: int|
                            0 <= i2 < pi ==> {
                                let e = #[trigger] h.obj(o as int).properties@[i2];
                                opt_value_mq(m, Seq::empty(), e.slot.value) && opt_fun_mq(
                                    m,
                                    Seq::empty(),
                                    e.slot.get,
                                ) && opt_fun_mq(m, Seq::empty(), e.slot.set)
                            }),
                    decreases np - pi,
                {
                    let entry = h.object_prop_at(o as u32, pi);
                    proof {
                        assert(entry_refs_live(*h, h.obj(o as int).properties@[pi as int]));
                    }
                    let ghost me0 = m;
                    let c1 = match &entry.slot.value {
                        Some(v) => mark_value_bit(h, &mut m, v),
                        None => false,
                    };
                    let ghost me1 = m;
                    let c2 = match entry.slot.get {
                        Some(g) => mark_fun_bit(h, &mut m, g),
                        None => false,
                    };
                    let ghost me2 = m;
                    let c3 = match entry.slot.set {
                        Some(sf) => mark_fun_bit(h, &mut m, sf),
                        None => false,
                    };
                    proof {
                        lemma_mark_leq_trans(me1, me2, m);
                        lemma_mark_leq_trans(me0, me1, m);
                        lemma_mark_leq_trans(m0, me0, m);
                        lemma_mark_leq_trans(mb, me0, m);
                    }
                    if c1 || c2 || c3 {
                        ch_here = true;
                    }
                    proof {
                        if !(c1 || c2 || c3) {
                            assert(m == me0);
                        }
                    }
                    pi += 1;
                }
                if ch_here {
                    changed = true;
                }
                proof {
                    if !ch_here {
                        assert(refs_marked(*h, m, WorkItem::Obj(o as u32)));
                    }
                }
            }
            o += 1;
        }

        // Storages: element values and accessor functions.
        let ns = m.storages.len();
        let mut s: usize = 0;
        while s < ns
            invariant
                s <= ns,
                ns == m.storages@.len(),
                heap_closed(*h),
                arena_lens_fit(*h),
                storages_wf(*h),
                marks_sound(*h, m),
                mark_leq(m0, m),
                !changed ==> m == m0,
                changed ==> unmarked_total(m) < unmarked_total(m0),
                !changed ==> (forall|a2: int|
                    0 <= a2 < m.arrays@.len() && #[trigger] m.arrays@[a2] ==> refs_marked(
                        *h,
                        m,
                        WorkItem::Arr(a2 as u32),
                    )),
                !changed ==> (forall|o2: int|
                    0 <= o2 < m.objects@.len() && #[trigger] m.objects@[o2] ==> refs_marked(
                        *h,
                        m,
                        WorkItem::Obj(o2 as u32),
                    )),
                !changed ==> (forall|s2: int|
                    0 <= s2 < s && #[trigger] m.storages@[s2] ==> refs_marked(
                        *h,
                        m,
                        WorkItem::Sto(s2 as u32),
                    )),
            decreases ns - s,
        {
            if m.storages[s] {
                let ghost mb = m;
                let mut ch_here = false;
                let cap = h.storage_capacity(s as u32);
                let mut vi: usize = 0;
                while vi < cap
                    invariant
                        vi <= cap,
                        s < ns,
                        ns == m.storages@.len(),
                        cap == h.sto(s as int).values@.len(),
                        heap_closed(*h),
                        arena_lens_fit(*h),
                        storages_wf(*h),
                        h.storage_live(s as int),
                        h.sto(s as int).wf(),
                        marks_sound(*h, m),
                        mark_leq(m0, m),
                        mark_leq(mb, m),
                        !(changed || ch_here) ==> m == m0,
                        (changed || ch_here) ==> unmarked_total(m) < unmarked_total(m0),
                        !ch_here ==> (forall|i2: int|
                            0 <= i2 < vi ==> opt_value_mq(
                                m,
                                Seq::empty(),
                                #[trigger] h.sto(s as int).values@[i2],
                            )),
                        !ch_here ==> (forall|i2: int|
                            0 <= i2 < vi ==> (match (#[trigger] h.sto(s as int).descriptor_at(
                                i2,
                            )) {
                                Some(ElementDescriptor::Accessor { get, set, .. }) => opt_fun_mq(
                                    m,
                                    Seq::empty(),
                                    get,
                                ) && opt_fun_mq(m, Seq::empty(), set),
                                _ => true,
                            })),
                    decreases cap - vi,
                {
                    proof {
                        assert(opt_value_refs_live(*h, h.sto(s as int).values@[vi as int]));
                        assert(descriptor_refs_live(
                            *h,
                            h.sto(s as int).descriptor_at(vi as int),
                        ));
                    }
                    let ghost me0 = m;
                    let v = h.storage_value(s as u32, vi);
                    let c1 = match &v {
                        Some(v) => mark_value_bit(h, &mut m, v),
                        None => false,
                    };
                    let ghost me1 = m;
                    let d = h.storage_descriptor(s as u32, vi);
                    let (c2, c3) = match d {
                        Some(ElementDescriptor::Accessor { get, set, .. }) => {
                            let c2 = match get {
                                Some(g) => mark_fun_bit(h, &mut m, g),
                                None => false,
                            };
                            let ghost me2 = m;
                            let c3 = match set {
                                Some(sf) => mark_fun_bit(h, &mut m, sf),
                                None => false,
                            };
                            proof {
                                lemma_mark_leq_trans(me1, me2, m);
                            }
                            (c2, c3)
                        },
                        _ => (false, false),
                    };
                    proof {
                        lemma_mark_leq_trans(me0, me1, m);
                        lemma_mark_leq_trans(m0, me0, m);
                        lemma_mark_leq_trans(mb, me0, m);
                    }
                    if c1 || c2 || c3 {
                        ch_here = true;
                    }
                    proof {
                        if !(c1 || c2 || c3) {
                            assert(m == me0);
                        }
                    }
                    vi += 1;
                }
                if ch_here {
                    changed = true;
                }
                proof {
                    if !ch_here {
                        assert(refs_marked(*h, m, WorkItem::Sto(s as u32)));
                    }
                }
            }
            s += 1;
        }

        if !changed {
            return m;
        }
        proof {
            lemma_unmarked_total_nonneg(m);
            assert forall|j: int| 0 <= j < roots@.len() implies value_marked(
                m,
                #[trigger] roots@[j],
            ) by {
                assert(value_marked(m0, roots@[j]));
                assert(value_refs_live(*h, roots@[j]));
            }
        }
    }
}


// ---- the sweep phase -----------------------------------------------------

/// Builds a compaction map: each index's new position is the number of
/// marked slots before it.
fn build_map(marks: &Vec<bool>) -> (map: Vec<u32>)
    requires
        marks@.len() <= u32::MAX,
    ensures
        map@.len() == marks@.len(),
        forall|i: int| 0 <= i < marks@.len() ==> #[trigger] map@[i] == count_marked(marks@.take(i)),
{
    let n = marks.len();
    let mut map: Vec<u32> = Vec::new();
    let mut count: u32 = 0;
    let mut i: usize = 0;
    while i < n
        invariant
            i <= n,
            n == marks@.len(),
            n <= u32::MAX,
            map@.len() == i,
            count as int == count_marked(marks@.take(i as int)),
            forall|j: int| 0 <= j < i ==> #[trigger] map@[j] == count_marked(marks@.take(j)),
        decreases n - i,
    {
        map.push(count);
        proof {
            lemma_count_marked_bounds(marks@.take(i as int));
            assert(marks@.take(i as int + 1).drop_last() =~= marks@.take(i as int));
        }
        if marks[i] {
            count = count + 1;
        }
        i += 1;
    }
    map
}

/// The compaction maps agree with the mark bits.
pub open spec fn maps_wf(h: Heap, c: CompactionLists) -> bool {
    &&& marks_wf(h, c.marks)
    &&& c.arrays@.len() == h.arrays@.len()
    &&& c.objects@.len() == h.objects@.len()
    &&& c.storages@.len() == h.storages@.len()
    &&& c.functions@.len() == h.functions@.len()
    &&& (forall|i: int|
        0 <= i < h.arrays@.len() ==> #[trigger] c.arrays@[i] == count_marked(
            c.marks.arrays@.take(i),
        ))
    &&& (forall|i: int|
        0 <= i < h.objects@.len() ==> #[trigger] c.objects@[i] == count_marked(
            c.marks.objects@.take(i),
        ))
    &&& (forall|i: int|
        0 <= i < h.storages@.len() ==> #[trigger] c.storages@[i] == count_marked(
            c.marks.storages@.take(i),
        ))
    &&& (forall|i: int|
        0 <= i < h.functions@.len() ==> #[trigger] c.functions@[i] == count_marked(
            c.marks.functions@.take(i),
        ))
}

/// A marked slot's new index lies below the count of all marked slots.
pub proof fn lemma_map_in_range(marks: Seq<bool>, i: int)
    requires
        0 <= i < marks.len(),
        marks[i],
    ensures
        count_marked(marks.take(i)) < count_marked(marks),
        count_marked(marks.take(i)) == count_marked(marks.take(i + 1)) - 1,
    decreases marks.len() - i,
{
    assert(marks.take(i + 1).drop_last() =~= marks.take(i));
    assert(marks.take(i + 1).last() == marks[i]);
    lemma_count_marked_prefix(marks, i + 1);
}

fn rewrite_value(h: &Heap, c: &CompactionLists, v: &Value) -> (r: Value)
    requires
        maps_wf(*h, *c),
        value_refs_live(*h, *v),
    ensures
        r == rewrite_value_spec(*c, *v),
{
    match v {
        Value::Object(o) => Value::Object(c.objects[*o as usize]),
        Value::Array(a) => Value::Array(c.arrays[*a as usize]),
        Value::Function(f) => Value::Function(c.functions[*f as usize]),
        _ => v.duplicate(),
    }
}

fn rewrite_opt_fun(h: &Heap, c: &CompactionLists, f: &Option<u32>) -> (r: Option<u32>)
    requires
        maps_wf(*h, *c),
        opt_fun_live(*h, *f),
    ensures
        r == rewrite_opt_fun_spec(*c, *f),
{
    match f {
        Some(x) => Some(c.functions[*x as usize]),
        None => None,
    }
}

fn sweep_arrays(h: &Heap, c: &CompactionLists) -> (new: Vec<Option<ArrayRecord>>)
    requires
        maps_wf(*h, *c),
        heap_closed(*h),
        arena_lens_fit(*h),
        marks_sound(*h, c.marks),
    ensures
        new@.len() == count_marked(c.marks.arrays@),
        forall|a: int|
            0 <= a < h.arrays@.len() && #[trigger] c.marks.arrays@[a] ==> (c.arrays@[a] as int)
                < new@.len() && new@[c.arrays@[a] as int] == Some(
                rewrite_array_spec(*c, h.arr(a)),
            ),
{
    let n = h.arrays.len();
    let mut new: Vec<Option<ArrayRecord>> = Vec::new();
    let mut i: usize = 0;
    while i < n
        invariant
            i <= n,
            n == h.arrays@.len(),
            maps_wf(*h, *c),
            heap_closed(*h),
            arena_lens_fit(*h),
            marks_sound(*h, c.marks),
            new@.len() == count_marked(c.marks.arrays@.take(i as int)),
            forall|a: int|
                0 <= a < i && #[trigger] c.marks.arrays@[a] ==> (c.arrays@[a] as int) < new@.len()
                    && new@[c.arrays@[a] as int] == Some(rewrite_array_spec(*c, h.arr(a))),
        decreases n - i,
    {
        proof {
            assert(c.marks.arrays@.take(i as int + 1).drop_last() =~= c.marks.arrays@.take(
                i as int,
            ));
            assert(c.marks.arrays@.take(i as int + 1).last() == c.marks.arrays@[i as int]);
        }
        if marks_array_at(c, i) {
            proof {
                assert(h.array_live(i as int));
                assert(h.storage_live(h.arr(i as int).storage as int));
                assert((h.arr(i as int).storage as int) < c.storages@.len());
                match h.arr(i as int).object_index {
                    Some(o) => {
                        assert(h.object_live(o as int));
                    },
                    None => {},
                }
            }
            let rec = h.array(i as u32);
            let storage = c.storages[rec.storage as usize];
            let object_index = match rec.object_index {
                Some(o) => Some(c.objects[o as usize]),
                None => None,
            };
            new.push(
                Some(
                    ArrayRecord {
                        object_index,
                        storage,
                        length: rec.length,
                        len_writable: rec.len_writable,
                    },
                ),
            );
        }
        i += 1;
    }
    proof {
        assert(c.marks.arrays@.take(n as int) =~= c.marks.arrays@);
    }
    new
}

fn marks_array_at(c: &CompactionLists, i: usize) -> (r: bool)
    requires
        i < c.marks.arrays@.len(),
    ensures
        r == c.marks.arrays@[i as int],
{
    c.marks.arrays[i]
}

fn sweep_functions(h: &Heap, c: &CompactionLists) -> (new: Vec<Option<FunctionRecord>>)
    requires
        maps_wf(*h, *c),
        arena_lens_fit(*h),
        marks_sound(*h, c.marks),
    ensures
        new@.len() == count_marked(c.marks.functions@),
        forall|f: int|
            0 <= f < h.functions@.len() && #[trigger] c.marks.functions@[f] ==> (c.functions@[
                f
            ] as int) < new@.len() && (new@[c.functions@[f] as int] matches Some(fr)
                && fr.name@ == h.func(f).name@ && fr.is_async == h.func(f).is_async
                && fr.is_generator == h.func(f).is_generator),
{
    let n = h.functions.len();
    let mut new: Vec<Option<FunctionRecord>> = Vec::new();
    let mut i: usize = 0;
    while i < n
        invariant
            i <= n,
            n == h.functions@.len(),
            maps_wf(*h, *c),
            arena_lens_fit(*h),
            marks_sound(*h, c.marks),
            new@.len() == count_marked(c.marks.functions@.take(i as int)),
            forall|f: int|
                0 <= f < i && #[trigger] c.marks.functions@[f] ==> (c.functions@[f] as int)
                    < new@.len() && (new@[c.functions@[f] as int] matches Some(fr) && fr.name@
                    == h.func(f).name@ && fr.is_async == h.func(f).is_async && fr.is_generator
                    == h.func(f).is_generator),
        decreases n - i,
    {
        proof {
            assert(c.marks.functions@.take(i as int + 1).drop_last() =~= c.marks.functions@.take(
                i as int,
            ));
            assert(c.marks.functions@.take(i as int + 1).last() == c.marks.functions@[i as int]);
        }
        if c.marks.functions[i] {
            proof {
                assert(h.function_live(i as int));
            }
            let name = h.function_name(i as u32);
            let (is_async, is_generator) = h.function_flags(i as u32);
            new.push(Some(FunctionRecord { name, is_async, is_generator }));
        }
        i += 1;
    }
    proof {
        assert(c.marks.functions@.take(n as int) =~= c.marks.functions@);
    }
    new
}


fn sweep_objects(h: &Heap, c: &CompactionLists) -> (new: Vec<Option<ObjectRecord>>)
    requires
        maps_wf(*h, *c),
        heap_closed(*h),
        arena_lens_fit(*h),
        marks_sound(*h, c.marks),
    ensures
        new@.len() == count_marked(c.marks.objects@),
        forall|o: int|
            0 <= o < h.objects@.len() && #[trigger] c.marks.objects@[o] ==> (c.objects@[o] as int)
                < new@.len() && (new@[c.objects@[o] as int] matches Some(nr) && object_rewritten(
                *c,
                h.obj(o),
                nr,
            )),
{
    let n = h.objects.len();
    let mut new: Vec<Option<ObjectRecord>> = Vec::new();
    let mut i: usize = 0;
    while i < n
        invariant
            i <= n,
            n == h.objects@.len(),
            maps_wf(*h, *c),
            heap_closed(*h),
            arena_lens_fit(*h),
            marks_sound(*h, c.marks),
            new@.len() == count_marked(c.marks.objects@.take(i as int)),
            forall|o: int|
                0 <= o < i && #[trigger] c.marks.objects@[o] ==> (c.objects@[o] as int)
                    < new@.len() && (new@[c.objects@[o] as int] matches Some(nr)
                    && object_rewritten(*c, h.obj(o), nr)),
        decreases n - i,
    {
        proof {
            assert(c.marks.objects@.take(i as int + 1).drop_last() =~= c.marks.objects@.take(
                i as int,
            ));
            assert(c.marks.objects@.take(i as int + 1).last() == c.marks.objects@[i as int]);
        }
        if c.marks.objects[i] {
            proof {
                assert(h.object_live(i as int));
                assert(handle_refs_live(*h, h.obj(i as int).prototype));
            }
            let prototype = match h.object_prototype(i as u32) {
                Some(ObjectHandle::Ordinary(p)) => Some(ObjectHandle::Ordinary(
                    c.objects[p as usize],
                )),
                Some(ObjectHandle::Array(p)) => Some(ObjectHandle::Array(c.arrays[p as usize])),
                None => None,
            };
            let extensible = h.object_extensible(i as u32);
            let np = h.object_prop_len(i as u32);
            let mut props: Vec<PropertyEntry> = Vec::new();
            let mut pi: usize = 0;
            while pi < np
                invariant
                    pi <= np,
                    i < n,
                    n == h.objects@.len(),
                    np == h.obj(i as int).properties@.len(),
                    maps_wf(*h, *c),
                    heap_closed(*h),
                    arena_lens_fit(*h),
                    h.object_live(i as int),
                    props@.len() == pi,
                    forall|j: int|
                        0 <= j < pi ==> #[trigger] props@[j] == rewrite_entry_spec(
                            *c,
                            h.obj(i as int).properties@[j],
                        ),
                decreases np - pi,
            {
                let e = h.object_prop_at(i as u32, pi);
                proof {
                    assert(h.object_live(i as int));
                    assert(handle_refs_live(*h, h.obj(i as int).prototype));
                    assert(entry_refs_live(*h, h.obj(i as int).properties@[pi as int]));
                }
                let value = match &e.slot.value {
                    Some(v) => Some(rewrite_value(h, c, v)),
                    None => None,
                };
                let get = rewrite_opt_fun(h, c, &e.slot.get);
                let set = rewrite_opt_fun(h, c, &e.slot.set);
                props.push(
                    PropertyEntry {
                        key: e.key,
                        slot: crate::heap::PropertySlot {
                            value,
                            get,
                            set,
                            writable: e.slot.writable,
                            enumerable: e.slot.enumerable,
                            configurable: e.slot.configurable,
                        },
                    },
                );
                pi += 1;
            }
            new.push(Some(ObjectRecord { prototype, extensible, properties: props }));
        }
        i += 1;
    }
    proof {
        assert(c.marks.objects@.take(n as int) =~= c.marks.objects@);
    }
    new
}

fn sweep_storages(h: &Heap, c: &CompactionLists) -> (new: Vec<Option<ElementStorage>>)
    requires
        maps_wf(*h, *c),
        heap_closed(*h),
        arena_lens_fit(*h),
        storages_wf(*h),
        marks_sound(*h, c.marks),
    ensures
        new@.len() == count_marked(c.marks.storages@),
        forall|s: int|
            0 <= s < h.storages@.len() && #[trigger] c.marks.storages@[s] ==> (c.storages@[
                s
            ] as int) < new@.len() && (new@[c.storages@[s] as int] matches Some(ns)
                && storage_rewritten(*c, h.sto(s), ns) && ns.wf()),
{
    let n = h.storages.len();
    let mut new: Vec<Option<ElementStorage>> = Vec::new();
    let mut i: usize = 0;
    while i < n
        invariant
            i <= n,
            n == h.storages@.len(),
            maps_wf(*h, *c),
            heap_closed(*h),
            arena_lens_fit(*h),
            storages_wf(*h),
            marks_sound(*h, c.marks),
            new@.len() == count_marked(c.marks.storages@.take(i as int)),
            forall|s: int|
                0 <= s < i && #[trigger] c.marks.storages@[s] ==> (c.storages@[s] as int)
                    < new@.len() && (new@[c.storages@[s] as int] matches Some(ns)
                    && storage_rewritten(*c, h.sto(s), ns) && ns.wf()),
        decreases n - i,
    {
        proof {
            assert(c.marks.storages@.take(i as int + 1).drop_last() =~= c.marks.storages@.take(
                i as int,
            ));
            assert(c.marks.storages@.take(i as int + 1).last() == c.marks.storages@[i as int]);
        }
        if c.marks.storages[i] {
            proof {
                assert(h.storage_live(i as int));
                assert(h.sto(i as int).wf());
            }
            let cap = h.storage_capacity(i as u32);
            let mut values: Vec<Option<Value>> = Vec::new();
            let mut has_descriptors = false;
            let mut descriptors: Vec<Option<ElementDescriptor>> = Vec::new();
            let mut vi: usize = 0;
            while vi < cap
                invariant
                    vi <= cap,
                    i < n,
                    n == h.storages@.len(),
                    cap == h.sto(i as int).values@.len(),
                    maps_wf(*h, *c),
                    heap_closed(*h),
                    arena_lens_fit(*h),
                    h.storage_live(i as int),
                    h.sto(i as int).wf(),
                    values@.len() == vi,
                    forall|j: int|
                        0 <= j < vi ==> #[trigger] values@[j] == rewrite_opt_value_spec(
                            *c,
                            h.sto(i as int).values@[j],
                        ),
                    descriptors@.len() == vi,
                    forall|j: int|
                        0 <= j < vi ==> #[trigger] descriptors@[j] == (match h.sto(
                            i as int,
                        ).descriptor_at(j) {
                            Some(d) => Some(rewrite_descriptor_spec(*c, d)),
                            None => None,
                        }),
                    forall|j: int|
                        0 <= j < vi && descriptors@[j] is Some ==> (#[trigger] descriptors@[
                            j
                        ].unwrap()).wf(),
                decreases cap - vi,
            {
                proof {
                    assert(opt_value_refs_live(*h, h.sto(i as int).values@[vi as int]));
                    assert(descriptor_refs_live(*h, h.sto(i as int).descriptor_at(vi as int)));
                }
                let v = h.storage_value(i as u32, vi);
                let value = match &v {
                    Some(v) => Some(rewrite_value(h, c, v)),
                    None => None,
                };
                values.push(value);
                let d = h.storage_descriptor(i as u32, vi);
                proof {
                    match h.sto(i as int).descriptor_at(vi as int) {
                        Some(dd) => {
                            assert(h.sto(i as int).descriptors.unwrap()@[vi as int] == Some(dd));
                            assert(h.sto(i as int).descriptors.unwrap()@[vi as int].unwrap().wf());
                        },
                        None => {},
                    }
                }
                let nd = match d {
                    Some(ElementDescriptor::Accessor { get, set, enumerable, configurable }) => {
                        Some(
                            ElementDescriptor::Accessor {
                                get: rewrite_opt_fun(h, c, &get),
                                set: rewrite_opt_fun(h, c, &set),
                                enumerable,
                                configurable,
                            },
                        )
                    },
                    Some(dd) => Some(dd),
                    None => None,
                };
                descriptors.push(nd);
                vi += 1;
            }
            let st = ElementStorage { values, descriptors: Some(descriptors) };
            proof {
                assert forall|j: int|
                    0 <= j < cap implies #[trigger] st.descriptor_at(j) == (match h.sto(
                    i as int,
                ).descriptor_at(j) {
                    Some(d) => Some(rewrite_descriptor_spec(*c, d)),
                    None => None,
                }) by {}
                assert(st.wf());
                assert(storage_rewritten(*c, h.sto(i as int), st));
            }
            new.push(Some(st));
        }
        i += 1;
    }
    proof {
        assert(c.marks.storages@.take(n as int) =~= c.marks.storages@);
    }
    new
}


// ---- the full cycle ------------------------------------------------------

/// Everything one collection cycle guarantees: marks and maps are well
/// formed, every marked record survives at its compacted index with its
/// references rewritten through the maps, the marked records are closed
/// under references, and every root was marked and rewritten in place.
pub open spec fn gc_post(
    pre: Heap,
    post: Heap,
    c: CompactionLists,
    roots_pre: Seq<Value>,
    roots_post: Seq<Value>,
) -> bool {
    &&& maps_wf(pre, c)
    &&& marks_sound(pre, c.marks)
    &&& post.arrays@.len() == count_marked(c.marks.arrays@)
    &&& post.objects@.len() == count_marked(c.marks.objects@)
    &&& post.storages@.len() == count_marked(c.marks.storages@)
    &&& post.functions@.len() == count_marked(c.marks.functions@)
    &&& (forall|a: int|
        0 <= a < pre.arrays@.len() && #[trigger] c.marks.arrays@[a] ==> post.array_live(
            c.arrays@[a] as int,
        ) && post.arr(c.arrays@[a] as int) == rewrite_array_spec(c, pre.arr(a)))
    &&& (forall|o: int|
        0 <= o < pre.objects@.len() && #[trigger] c.marks.objects@[o] ==> post.object_live(
            c.objects@[o] as int,
        ) && object_rewritten(c, pre.obj(o), post.obj(c.objects@[o] as int)))
    &&& (forall|s: int|
        0 <= s < pre.storages@.len() && #[trigger] c.marks.storages@[s] ==> post.storage_live(
            c.storages@[s] as int,
        ) && storage_rewritten(c, pre.sto(s), post.sto(c.storages@[s] as int)))
    &&& (forall|f: int|
        0 <= f < pre.functions@.len() && #[trigger] c.marks.functions@[f] ==> post.function_live(
            c.functions@[f] as int,
        ) && post.func(c.functions@[f] as int).name@ == pre.func(f).name@ && post.func(
            c.functions@[f] as int,
        ).is_async == pre.func(f).is_async && post.func(c.functions@[f] as int).is_generator
            == pre.func(f).is_generator)
    &&& (forall|a: int|
        0 <= a < c.marks.arrays@.len() && #[trigger] c.marks.arrays@[a] ==> refs_marked(
            pre,
            c.marks,
            WorkItem::Arr(a as u32),
        ))
    &&& (forall|o: int|
        0 <= o < c.marks.objects@.len() && #[trigger] c.marks.objects@[o] ==> refs_marked(
            pre,
            c.marks,
            WorkItem::Obj(o as u32),
        ))
    &&& roots_post.len() == roots_pre.len()
    &&& (forall|i: int|
        0 <= i < roots_pre.len() ==> value_refs_live(pre, #[trigger] roots_pre[i]))
    &&& (forall|i: int|
        0 <= i < roots_pre.len() ==> value_marked(c.marks, #[trigger] roots_pre[i]))
    &&& (forall|i: int|
        0 <= i < roots_pre.len() ==> #[trigger] roots_post[i] == rewrite_value_spec(
            c,
            roots_pre[i],
        ))
}

/// One full stop-the-world collection: marks everything reachable from the
/// roots, compacts all four arenas, rewrites every surviving record's
/// references and updates the rooted handles in place.
pub fn mark_and_sweep(h: &mut Heap, roots: &mut Vec<Value>) -> (c: CompactionLists)
    requires
        heap_closed(*old(h)),
        arena_lens_fit(*old(h)),
        storages_wf(*old(h)),
        forall|i: int|
            0 <= i < old(roots)@.len() ==> value_refs_live(*old(h), #[trigger] old(roots)@[i]),
    ensures
        gc_post(*old(h), *final(h), c, old(roots)@, final(roots)@),
{
    let m = mark(h, roots);
    let c = CompactionLists {
        arrays: build_map(&m.arrays),
        objects: build_map(&m.objects),
        storages: build_map(&m.storages),
        functions: build_map(&m.functions),
        marks: m,
    };
    let new_arrays = sweep_arrays(h, &c);
    let new_objects = sweep_objects(h, &c);
    let new_storages = sweep_storages(h, &c);
    let new_functions = sweep_functions(h, &c);
    let ghost pre = *h;
    h.arrays = new_arrays;
    h.objects = new_objects;
    h.storages = new_storages;
    h.functions = new_functions;
    // Rewrite the roots in place.
    let n = roots.len();
    let mut i: usize = 0;
    while i < n
        invariant
            i <= n,
            n == roots@.len(),
            n == old(roots)@.len(),
            maps_wf(pre, c),
            forall|j: int|
                0 <= j < old(roots)@.len() ==> value_refs_live(pre, #[trigger] old(roots)@[j]),
            forall|j: int| i <= j < n ==> #[trigger] roots@[j] == old(roots)@[j],
            forall|j: int|
                0 <= j < i ==> #[trigger] roots@[j] == rewrite_value_spec(c, old(roots)@[j]),
        decreases n - i,
    {
        let ghost hp = pre;
        let v = match &roots[i] {
            Value::Object(o) => Value::Object(c.objects[*o as usize]),
            Value::Array(a) => Value::Array(c.arrays[*a as usize]),
            Value::Function(f) => Value::Function(c.functions[*f as usize]),
            other => other.duplicate(),
        };
        roots[i] = v;
        i += 1;
    }
    proof {
        assert forall|a: int|
            0 <= a < pre.arrays@.len() && #[trigger] c.marks.arrays@[a] implies final(h).array_live(c.arrays@[a] as int) && final(h).arr(c.arrays@[a] as int)
            == rewrite_array_spec(c, pre.arr(a)) by {
            lemma_map_in_range(c.marks.arrays@, a);
        }
        assert forall|o: int|
            0 <= o < pre.objects@.len() && #[trigger] c.marks.objects@[o] implies final(h).object_live(c.objects@[o] as int) && object_rewritten(
            c,
            pre.obj(o),
            final(h).obj(c.objects@[o] as int),
        ) by {
            lemma_map_in_range(c.marks.objects@, o);
        }
        assert forall|s: int|
            0 <= s < pre.storages@.len() && #[trigger] c.marks.storages@[s] implies final(h).storage_live(c.storages@[s] as int) && storage_rewritten(
            c,
            pre.sto(s),
            final(h).sto(c.storages@[s] as int),
        ) by {
            lemma_map_in_range(c.marks.storages@, s);
        }
        assert forall|f: int|
            0 <= f < pre.functions@.len() && #[trigger] c.marks.functions@[f] implies final(h).function_live(c.functions@[f] as int) && final(h).func(c.functions@[f] as int).name@
            == pre.func(f).name@ by {
            lemma_map_in_range(c.marks.functions@, f);
        }
    }
    c
}

/// The law a collection cycle upholds: a rooted handle survives the cycle,
/// and through the compaction map it resolves to exactly the record it
/// resolved to before, with every reference inside redirected to the moved
/// copy of its old referent.
pub proof fn lemma_collection_preserves_rooted(
    pre: Heap,
    post: Heap,
    c: CompactionLists,
    roots_pre: Seq<Value>,
    roots_post: Seq<Value>,
    i: int,
)
    requires
        gc_post(pre, post, c, roots_pre, roots_post),
        0 <= i < roots_pre.len(),
    ensures
        roots_pre[i] matches Value::Array(a) ==> roots_post[i] == Value::Array(
            c.arrays@[a as int],
        ) && post.array_live(c.arrays@[a as int] as int) && post.arr(c.arrays@[a as int] as int)
            == rewrite_array_spec(c, pre.arr(a as int)),
        roots_pre[i] matches Value::Object(o) ==> roots_post[i] == Value::Object(
            c.objects@[o as int],
        ) && post.object_live(c.objects@[o as int] as int) && object_rewritten(
            c,
            pre.obj(o as int),
            post.obj(c.objects@[o as int] as int),
        ),
{
    assert(value_marked(c.marks, roots_pre[i]));
    assert(value_refs_live(pre, roots_pre[i]));
}

} // verus!

