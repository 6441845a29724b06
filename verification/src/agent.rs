//! The Agent: the per-thread container that owns the heap, the environment
//! arena, the realm and the execution-context stack, plus the rooted-handle
//! list that survives garbage collection.

use vstd::prelude::*;

use crate::array::Array;
use crate::env::EnvironmentRecord;
use crate::heap::{Heap, ObjectHandle};
use crate::value::Value;

verus! {

/// A realm: the intrinsics the core needs and the global environment.
#[derive(Debug, Clone, Copy)]
pub struct RealmRecord {
    pub array_prototype: Option<ObjectHandle>,
    /// The `%Array.prototype.values%` intrinsic function.
    pub array_prototype_values: Option<u32>,
    pub global_env: Option<u32>,
}

/// One ECMAScript code execution context.
#[derive(Debug, Clone, Copy, PartialEq, Eq, Structural)]
pub struct ExecutionContext {
    pub lexical_environment: u32,
    pub variable_environment: u32,
    pub private_environment: Option<u32>,
    pub is_strict_mode: bool,
}

/// The per-thread VM state container.
#[derive(Debug)]
pub struct Agent {
    pub heap: Heap,
    pub envs: Vec<Option<EnvironmentRecord>>,
    pub realm: RealmRecord,
    pub execution_context_stack: Vec<ExecutionContext>,
    /// Values registered as roots: they survive collection and are
    /// rewritten in place by the sweep.
    pub rooted: Vec<Value>,
}

impl Agent {
    pub fn new() -> (a: Agent)
        ensures
            a.heap.arrays@.len() == 0,
            a.heap.objects@.len() == 0,
            a.heap.storages@.len() == 0,
            a.heap.functions@.len() == 0,
            a.envs@.len() == 0,
            a.execution_context_stack@.len() == 0,
            a.rooted@.len() == 0,
            a.realm.array_prototype is None,
            a.realm.array_prototype_values is None,
            a.realm.global_env is None,
    {
        Agent {
            heap: Heap::new(),
            envs: Vec::new(),
            realm: RealmRecord {
                array_prototype: None,
                array_prototype_values: None,
                global_env: None,
            },
            execution_context_stack: Vec::new(),
            rooted: Vec::new(),
        }
    }

    pub open spec fn env_live(self, e: int) -> bool {
        0 <= e < self.envs@.len() && self.envs@[e] is Some
    }

    pub open spec fn env(self, e: int) -> EnvironmentRecord {
        self.envs@[e].unwrap()
    }

    pub fn create_env(&mut self, rec: EnvironmentRecord) -> (e: u32)
        requires
            old(self).envs@.len() < u32::MAX,
        ensures
            e as int == old(self).envs@.len(),
            final(self).envs@ == old(self).envs@.push(Some(rec)),
            final(self).env_live(e as int),
            final(self).env(e as int) == rec,
            final(self).heap == old(self).heap,
            final(self).realm == old(self).realm,
            final(self).execution_context_stack == old(self).execution_context_stack,
            final(self).rooted == old(self).rooted,
    {
        let e = self.envs.len() as u32;
        self.envs.push(Some(rec));
        e
    }

    pub fn env_outer(&self, e: u32) -> (r: Option<u32>)
        requires
            self.env_live(e as int),
        ensures
            r == self.env(e as int).outer,
    {
        self.envs[e as usize].as_ref().unwrap().outer
    }

    pub fn env_kind(&self, e: u32) -> (r: crate::env::EnvironmentKind)
        requires
            self.env_live(e as int),
        ensures
            r == self.env(e as int).kind,
    {
        self.envs[e as usize].as_ref().unwrap().kind
    }

    pub fn env_live_check(&self, e: u32) -> (r: bool)
        ensures
            r == self.env_live(e as int),
    {
        (e as usize) < self.envs.len() && self.envs[e as usize].is_some()
    }

    /// Runs a closure-free read of one environment; callers use the
    /// reference directly.
    pub fn env_ref(&self, e: u32) -> (r: &EnvironmentRecord)
        requires
            self.env_live(e as int),
        ensures
            *r == self.env(e as int),
    {
        self.envs[e as usize].as_ref().unwrap()
    }

    /// Takes an environment record out for mutation; `env_put` returns it.
    pub fn env_take(&mut self, e: u32) -> (r: EnvironmentRecord)
        requires
            old(self).env_live(e as int),
        ensures
            r == old(self).env(e as int),
            final(self).envs@ == old(self).envs@.update(e as int, None),
            final(self).heap == old(self).heap,
            final(self).realm == old(self).realm,
            final(self).execution_context_stack == old(self).execution_context_stack,
            final(self).rooted == old(self).rooted,
    {
        let r = self.envs[e as usize].take().unwrap();
        proof {
            assert(final(self).envs@ =~= old(self).envs@.update(e as int, None));
        }
        r
    }

    pub fn env_put(&mut self, e: u32, rec: EnvironmentRecord)
        requires
            (e as int) < old(self).envs@.len(),
        ensures
            final(self).envs@ == old(self).envs@.update(e as int, Some(rec)),
            final(self).env_live(e as int),
            final(self).env(e as int) == rec,
            final(self).heap == old(self).heap,
            final(self).realm == old(self).realm,
            final(self).execution_context_stack == old(self).execution_context_stack,
            final(self).rooted == old(self).rooted,
    {
        self.envs[e as usize] = Some(rec);
        proof {
            assert(final(self).envs@ =~= old(self).envs@.update(e as int, Some(rec)));
        }
    }
}

/// A handle registered in the Agent's root list: stable across garbage
/// collection, which rewrites the slot in place.
#[derive(Debug, Clone, Copy)]
pub struct ScopedArray(pub usize);

impl ScopedArray {
    /// Reloads the possibly rewritten handle after a safepoint.
    pub fn get(&self, agent: &Agent) -> (r: Array)
        requires
            self.0 < agent.rooted@.len(),
            agent.rooted@[self.0 as int] is Array,
        ensures
            agent.rooted@[self.0 as int] matches Value::Array(x) && r == Array(x),
    {
        match &agent.rooted[self.0] {
            Value::Array(x) => Array(*x),
            _ => {
                proof {
                    assert(false);
                }
                Array(0)
            },
        }
    }
}

impl Array {
    /// Registers this array in the root list so that it survives a
    /// safepoint; the returned scoped handle reloads it afterwards.
    pub fn scope(self, agent: &mut Agent) -> (s: ScopedArray)
        ensures
            s.0 == old(agent).rooted@.len(),
            final(agent).rooted@ == old(agent).rooted@.push(Value::Array(self.0)),
            final(agent).heap == old(agent).heap,
            final(agent).envs == old(agent).envs,
            final(agent).realm == old(agent).realm,
            final(agent).execution_context_stack == old(agent).execution_context_stack,
    {
        let s = ScopedArray(agent.rooted.len());
        agent.rooted.push(Value::Array(self.0));
        s
    }
}

} // verus!
