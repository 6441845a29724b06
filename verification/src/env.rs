//! Environment records: binding resolution for declarative, object,
//! function and global environments.

use vstd::prelude::*;

use crate::value::{ExceptionType, JsError, Value};

verus! {

#[derive(Debug, Clone, Copy, PartialEq, Eq, Structural)]
pub enum EnvironmentKind {
    Declarative,
    Object,
    Function,
    Global,
}

/// One binding. `deletable` stands for the configurable bit of the
/// corresponding global-object property where that applies.
#[derive(Debug)]
pub struct Binding {
    pub name: String,
    pub value: Option<Value>,
    pub mutable: bool,
    pub deletable: bool,
}

/// A binding-resolution record. A global environment keeps its lexical
/// declarations in `bindings` and the global object's var bindings in
/// `var_bindings`; every other kind uses `bindings` alone.
#[derive(Debug)]
pub struct EnvironmentRecord {
    pub kind: EnvironmentKind,
    pub outer: Option<u32>,
    pub bindings: Vec<Binding>,
    pub var_bindings: Vec<Binding>,
}

/// Whether a binding list holds a binding with this name.
pub open spec fn binding_in(bs: Seq<Binding>, name: Seq<char>) -> bool {
    exists|i: int| 0 <= i < bs.len() && bs[i].name@ == name
}

/// The binding stored under a name, scanning left to right: resolution
/// always sees the first entry.
pub open spec fn lookup_binding(bs: Seq<Binding>, name: Seq<char>) -> Option<Binding>
    decreases bs.len(),
{
    if bs.len() == 0 {
        None
    } else if bs[0].name@ == name {
        Some(bs[0])
    } else {
        lookup_binding(bs.drop_first(), name)
    }
}

pub proof fn lemma_binding_in_lookup(bs: Seq<Binding>, nm: Seq<char>)
    ensures
        binding_in(bs, nm) <==> (lookup_binding(bs, nm) is Some),
    decreases bs.len(),
{
    if bs.len() > 0 {
        let rest = bs.drop_first();
        lemma_binding_in_lookup(rest, nm);
        if binding_in(bs, nm) && bs[0].name@ != nm {
            let w = choose|w: int| 0 <= w < bs.len() && bs[w].name@ == nm;
            assert(rest[w - 1].name@ == nm);
            assert(binding_in(rest, nm));
        }
        if binding_in(rest, nm) {
            let w = choose|w: int| 0 <= w < rest.len() && rest[w].name@ == nm;
            assert(bs[w + 1].name@ == nm);
        }
    }
}

pub proof fn lemma_binding_lookup_at(bs: Seq<Binding>, name: Seq<char>, i: int)
    requires
        0 <= i < bs.len(),
        bs[i].name@ == name,
        forall|j: int| 0 <= j < i ==> (#[trigger] bs[j].name@) != name,
    ensures
        lookup_binding(bs, name) == Some(bs[i]),
    decreases i,
{
    if i > 0 {
        let rest = bs.drop_first();
        assert(rest[i - 1] == bs[i]);
        assert(forall|j: int| 0 <= j < i - 1 ==> (#[trigger] rest[j].name@) != name);
        lemma_binding_lookup_at(rest, name, i - 1);
    }
}

pub proof fn lemma_binding_lookup_absent(bs: Seq<Binding>, name: Seq<char>)
    requires
        forall|j: int| 0 <= j < bs.len() ==> (#[trigger] bs[j].name@) != name,
    ensures
        lookup_binding(bs, name) is None,
    decreases bs.len(),
{
    if bs.len() > 0 {
        let rest = bs.drop_first();
        assert(forall|j: int| 0 <= j < rest.len() ==> (#[trigger] rest[j].name@) != name);
        lemma_binding_lookup_absent(rest, name);
    }
}

/// Overwriting the first entry of a name changes only that name's lookup.
pub proof fn lemma_binding_lookup_update(bs: Seq<Binding>, i: int, b: Binding, nm: Seq<char>)
    requires
        0 <= i < bs.len(),
        bs[i].name@ == b.name@,
        forall|j: int| 0 <= j < i ==> (#[trigger] bs[j].name@) != b.name@,
    ensures
        lookup_binding(bs.update(i, b), nm) == (if nm == b.name@ {
            Some(b)
        } else {
            lookup_binding(bs, nm)
        }),
    decreases bs.len(),
{
    let upd = bs.update(i, b);
    if i == 0 {
        if nm != b.name@ {
            assert(upd.drop_first() =~= bs.drop_first());
        }
    } else {
        assert(upd[0] == bs[0]);
        assert(upd.drop_first() =~= bs.drop_first().update(i - 1, b));
        let rest = bs.drop_first();
        assert(rest[i - 1] == bs[i]);
        assert(forall|j: int| 0 <= j < i - 1 ==> (#[trigger] rest[j].name@) != b.name@);
        lemma_binding_lookup_update(rest, i - 1, b, nm);
    }
}

/// Appending a binding for a fresh name changes only that name's lookup.
pub proof fn lemma_binding_lookup_push(bs: Seq<Binding>, b: Binding, nm: Seq<char>)
    requires
        forall|j: int| 0 <= j < bs.len() ==> (#[trigger] bs[j].name@) != b.name@,
    ensures
        lookup_binding(bs.push(b), nm) == (if nm == b.name@ {
            Some(b)
        } else {
            lookup_binding(bs, nm)
        }),
    decreases bs.len(),
{
    let ps = bs.push(b);
    if bs.len() == 0 {
        assert(ps[0] == b);
        if nm != b.name@ {
            assert(ps.drop_first() =~= Seq::<Binding>::empty());
        }
    } else {
        assert(ps[0] == bs[0]);
        assert(ps.drop_first() =~= bs.drop_first().push(b));
        let rest = bs.drop_first();
        assert(forall|j: int| 0 <= j < rest.len() ==> (#[trigger] rest[j].name@) != b.name@);
        lemma_binding_lookup_push(rest, b, nm);
    }
}

pub fn bindings_find(bs: &Vec<Binding>, name: &String) -> (r: Option<usize>)
    ensures
        match r {
            Some(i) => i < bs@.len() && bs@[i as int].name@ == name@ && (forall|j: int|
                0 <= j < i ==> (#[trigger] bs@[j].name@) != name@),
            None => !binding_in(bs@, name@),
        },
{
    let n = bs.len();
    let mut i: usize = 0;
    while i < n
        invariant
            i <= n,
            n == bs@.len(),
            forall|j: int| 0 <= j < i ==> (#[trigger] bs@[j].name@) != name@,
        decreases n - i,
    {
        if bs[i].name == *name {
            return Some(i);
        }
        i += 1;
    }
    None
}

impl EnvironmentRecord {
    pub fn new(kind: EnvironmentKind, outer: Option<u32>) -> (r: EnvironmentRecord)
        ensures
            r.kind == kind,
            r.outer == outer,
            r.bindings@.len() == 0,
            r.var_bindings@.len() == 0,
    {
        EnvironmentRecord { kind, outer, bindings: Vec::new(), var_bindings: Vec::new() }
    }

    /// HasBinding.
    pub fn has_binding(&self, name: &String) -> (r: bool)
        ensures
            r == binding_in(self.bindings@, name@),
    {
        bindings_find(&self.bindings, name).is_some()
    }

    /// HasLexicalDeclaration on a global environment: whether the
    /// declarative part binds the name.
    pub fn has_lexical_declaration(&self, name: &String) -> (r: bool)
        ensures
            r == binding_in(self.bindings@, name@),
    {
        self.has_binding(name)
    }

    /// CreateMutableBinding: the name must not be bound yet; a duplicate is
    /// reported as a TypeError.
    pub fn create_mutable_binding(&mut self, name: &String, deletable: bool) -> (r: Result<
        (),
        JsError,
    >)
        ensures
            r is Ok <==> !binding_in(old(self).bindings@, name@),
            r is Ok ==> (exists|b: Binding|
                b.name@ == name@ && b.value is None && b.mutable && b.deletable == deletable
                    && final(self).bindings@ == old(self).bindings@.push(b) && lookup_binding(
                    final(self).bindings@,
                    name@,
                ) == Some(b)),
            r is Ok ==> binding_in(final(self).bindings@, name@),
            forall|nm: Seq<char>|
                nm != name@ ==> #[trigger] lookup_binding(final(self).bindings@, nm)
                    == lookup_binding(old(self).bindings@, nm),
            r is Err ==> *final(self) == *old(self),
            final(self).kind == old(self).kind,
            final(self).outer == old(self).outer,
            final(self).var_bindings == old(self).var_bindings,
            forall|nm: Seq<char>|
                binding_in(old(self).bindings@, nm) ==> binding_in(final(self).bindings@, nm),
    {
        if self.has_binding(name) {
            return Err(JsError::new(ExceptionType::TypeError, "Binding already declared"));
        }
        let ghost pre = self.bindings@;
        self.bindings.push(
            Binding { name: name.clone(), value: None, mutable: true, deletable },
        );
        proof {
            assert(final(self).bindings@[pre.len() as int].name@ == name@);
            lemma_binding_push_monotone(pre, final(self).bindings@);
            assert(final(self).bindings@ =~= pre.push(final(self).bindings@[pre.len() as int]));
            assert forall|nm: Seq<char>| true implies #[trigger] lookup_binding(
                final(self).bindings@,
                nm,
            ) == (if nm == name@ {
                Some(final(self).bindings@[pre.len() as int])
            } else {
                lookup_binding(pre, nm)
            }) by {
                lemma_binding_lookup_push(pre, final(self).bindings@[pre.len() as int], nm);
            }
        }
        Ok(())
    }

    /// CreateImmutableBinding.
    pub fn create_immutable_binding(&mut self, name: &String) -> (r: Result<(), JsError>)
        ensures
            r is Ok <==> !binding_in(old(self).bindings@, name@),
            r is Ok ==> binding_in(final(self).bindings@, name@),
            r is Ok ==> (exists|b: Binding|
                b.name@ == name@ && b.value is None && !b.mutable && final(self).bindings@ == old(
                    self,
                ).bindings@.push(b) && lookup_binding(final(self).bindings@, name@) == Some(b)),
            forall|nm: Seq<char>|
                nm != name@ ==> #[trigger] lookup_binding(final(self).bindings@, nm)
                    == lookup_binding(old(self).bindings@, nm),
            r is Err ==> *final(self) == *old(self),
            final(self).kind == old(self).kind,
            final(self).outer == old(self).outer,
            final(self).var_bindings == old(self).var_bindings,
            forall|nm: Seq<char>|
                binding_in(old(self).bindings@, nm) ==> binding_in(final(self).bindings@, nm),
    {
        if self.has_binding(name) {
            return Err(JsError::new(ExceptionType::TypeError, "Binding already declared"));
        }
        let ghost pre = self.bindings@;
        self.bindings.push(
            Binding { name: name.clone(), value: None, mutable: false, deletable: false },
        );
        proof {
            assert(final(self).bindings@[pre.len() as int].name@ == name@);
            lemma_binding_push_monotone(pre, final(self).bindings@);
            assert(final(self).bindings@ =~= pre.push(final(self).bindings@[pre.len() as int]));
            assert forall|nm: Seq<char>| true implies #[trigger] lookup_binding(
                final(self).bindings@,
                nm,
            ) == (if nm == name@ {
                Some(final(self).bindings@[pre.len() as int])
            } else {
                lookup_binding(pre, nm)
            }) by {
                lemma_binding_lookup_push(pre, final(self).bindings@[pre.len() as int], nm);
            }
        }
        Ok(())
    }

    /// InitializeBinding: records the value of an existing binding; a
    /// missing binding is a ReferenceError.
    pub fn initialize_binding(&mut self, name: &String, v: Value) -> (r: Result<(), JsError>)
        ensures
            r is Ok <==> binding_in(old(self).bindings@, name@),
            r is Ok ==> (lookup_binding(final(self).bindings@, name@) matches Some(b) && b.value
                == Some(v) && b.mutable == lookup_binding(
                old(self).bindings@,
                name@,
            ).unwrap().mutable),
            r matches Err(e) ==> e.kind == ExceptionType::ReferenceError && *final(self) == *old(
                self,
            ),
            forall|nm: Seq<char>|
                nm != name@ ==> #[trigger] lookup_binding(final(self).bindings@, nm)
                    == lookup_binding(old(self).bindings@, nm),
            final(self).bindings@.len() == old(self).bindings@.len(),
            forall|nm: Seq<char>|
                binding_in(old(self).bindings@, nm) ==> binding_in(final(self).bindings@, nm),
            final(self).kind == old(self).kind,
            final(self).outer == old(self).outer,
            final(self).var_bindings == old(self).var_bindings,
    {
        let idx = bindings_find(&self.bindings, name);
        match idx {
            Some(i) => {
                let ghost pre = self.bindings@;
                let mutable = self.bindings[i].mutable;
                let deletable = self.bindings[i].deletable;
                self.bindings[i] = Binding { name: name.clone(), value: Some(v), mutable, deletable };
                proof {
                    let nb = Binding { name: *name, value: Some(v), mutable, deletable };
                    assert(final(self).bindings@ == pre.update(i as int, nb));
                    lemma_binding_update_same_name(pre, final(self).bindings@, i as int);
                    lemma_binding_lookup_at(pre, name@, i as int);
                    assert forall|nm: Seq<char>| true implies #[trigger] lookup_binding(
                        final(self).bindings@,
                        nm,
                    ) == (if nm == name@ {
                        Some(nb)
                    } else {
                        lookup_binding(pre, nm)
                    }) by {
                        lemma_binding_lookup_update(pre, i as int, nb, nm);
                    }
                }
                Ok(())
            },
            None => Err(JsError::new(ExceptionType::ReferenceError, "Binding is not declared")),
        }
    }

    /// SetMutableBinding: overwrites an existing mutable binding; an
    /// immutable binding is a TypeError and a missing one a ReferenceError.
    pub fn set_mutable_binding(&mut self, name: &String, v: Value) -> (r: Result<(), JsError>)
        ensures
            r is Ok <==> (lookup_binding(old(self).bindings@, name@) matches Some(b) && b.mutable),
            r is Ok ==> (lookup_binding(final(self).bindings@, name@) matches Some(b) && b.value
                == Some(v) && b.mutable),
            r matches Err(e) ==> *final(self) == *old(self) && e.kind == (if lookup_binding(
                old(self).bindings@,
                name@,
            ) is Some {
                ExceptionType::TypeError
            } else {
                ExceptionType::ReferenceError
            }),
            forall|nm: Seq<char>|
                nm != name@ ==> #[trigger] lookup_binding(final(self).bindings@, nm)
                    == lookup_binding(old(self).bindings@, nm),
            final(self).bindings@.len() == old(self).bindings@.len(),
            forall|nm: Seq<char>|
                binding_in(old(self).bindings@, nm) ==> binding_in(final(self).bindings@, nm),
            final(self).kind == old(self).kind,
            final(self).outer == old(self).outer,
            final(self).var_bindings == old(self).var_bindings,
    {
        let idx = bindings_find(&self.bindings, name);
        match idx {
            Some(i) => {
                proof {
                    lemma_binding_lookup_at(self.bindings@, name@, i as int);
                }
                if !self.bindings[i].mutable {
                    return Err(
                        JsError::new(ExceptionType::TypeError, "Cannot assign to constant"),
                    );
                }
                let ghost pre = self.bindings@;
                let deletable = self.bindings[i].deletable;
                self.bindings[i] = Binding {
                    name: name.clone(),
                    value: Some(v),
                    mutable: true,
                    deletable,
                };
                proof {
                    let nb = Binding { name: *name, value: Some(v), mutable: true, deletable };
                    assert(final(self).bindings@ == pre.update(i as int, nb));
                    lemma_binding_update_same_name(pre, final(self).bindings@, i as int);
                    assert forall|nm: Seq<char>| true implies #[trigger] lookup_binding(
                        final(self).bindings@,
                        nm,
                    ) == (if nm == name@ {
                        Some(nb)
                    } else {
                        lookup_binding(pre, nm)
                    }) by {
                        lemma_binding_lookup_update(pre, i as int, nb, nm);
                    }
                }
                Ok(())
            },
            None => {
                proof {
                    lemma_binding_lookup_absent(self.bindings@, name@);
                }
                Err(JsError::new(ExceptionType::ReferenceError, "Binding is not declared"))
            },
        }
    }

    // ---- global-environment operations ----------------------------------

    /// CanDeclareGlobalVar. The modelled global object is always
    /// extensible and its var properties are plain data slots, so a var is
    /// always declarable; the check is kept so that declaration
    /// instantiation runs it in the place the algorithm prescribes.
    pub fn can_declare_global_var(&self, name: &String) -> (r: bool)
        ensures
            r == can_declare_global_var_spec(*self, name@),
    {
        match bindings_find(&self.var_bindings, name) {
            Some(_) => true,
            None => true,
        }
    }

    /// CanDeclareGlobalFunction: an absent property is declarable; an
    /// existing one must be configurable or a writable data property.
    pub fn can_declare_global_function(&self, name: &String) -> (r: bool)
        ensures
            r == can_declare_global_function_spec(*self, name@),
    {
        let n = self.var_bindings.len();
        let mut i: usize = 0;
        while i < n
            invariant
                i <= n,
                n == self.var_bindings@.len(),
                forall|j: int|
                    0 <= j < i && (#[trigger] self.var_bindings@[j].name@) == name@
                        ==> self.var_bindings@[j].deletable || self.var_bindings@[j].mutable,
            decreases n - i,
        {
            if self.var_bindings[i].name == *name {
                if !self.var_bindings[i].deletable && !self.var_bindings[i].mutable {
                    return false;
                }
            }
            i += 1;
        }
        true
    }

    /// CreateGlobalVarBinding: a fresh property is created mutable and
    /// initialised to undefined; an existing one is left untouched.
    pub fn create_global_var_binding(&mut self, name: &String)
        ensures
            binding_in(final(self).var_bindings@, name@),
            binding_in(old(self).var_bindings@, name@) ==> *final(self) == *old(self),
            !binding_in(old(self).var_bindings@, name@) ==> (lookup_binding(
                final(self).var_bindings@,
                name@,
            ) matches Some(b) && b.value == Some(Value::Undefined) && b.mutable && !b.deletable),
            forall|nm: Seq<char>|
                nm != name@ ==> #[trigger] lookup_binding(final(self).var_bindings@, nm)
                    == lookup_binding(old(self).var_bindings@, nm),
            forall|nm: Seq<char>|
                binding_in(old(self).var_bindings@, nm) ==> binding_in(
                    final(self).var_bindings@,
                    nm,
                ),
            final(self).bindings == old(self).bindings,
            final(self).kind == old(self).kind,
            final(self).outer == old(self).outer,
    {
        let idx = bindings_find(&self.var_bindings, name);
        match idx {
            Some(i) => {
                proof {
                    assert(binding_in(self.var_bindings@, name@));
                }
            },
            None => {
                let ghost pre = self.var_bindings@;
                self.var_bindings.push(
                    Binding {
                        name: name.clone(),
                        value: Some(Value::Undefined),
                        mutable: true,
                        deletable: false,
                    },
                );
                proof {
                    assert(final(self).var_bindings@[pre.len() as int].name@ == name@);
                    lemma_binding_push_monotone(pre, final(self).var_bindings@);
                    assert(final(self).var_bindings@ =~= pre.push(
                        final(self).var_bindings@[pre.len() as int],
                    ));
                    assert forall|nm: Seq<char>| true implies #[trigger] lookup_binding(
                        final(self).var_bindings@,
                        nm,
                    ) == (if nm == name@ {
                        Some(final(self).var_bindings@[pre.len() as int])
                    } else {
                        lookup_binding(pre, nm)
                    }) by {
                        lemma_binding_lookup_push(
                            pre,
                            final(self).var_bindings@[pre.len() as int],
                            nm,
                        );
                    }
                }
            },
        }
    }

    /// CreateGlobalFunctionBinding: creates or overwrites the property so
    /// that it holds exactly the function value, writable.
    pub fn create_global_function_binding(&mut self, name: &String, fo: Value)
        ensures
            binding_in(final(self).var_bindings@, name@),
            lookup_binding(final(self).var_bindings@, name@) matches Some(b) && b.value == Some(
                fo,
            ) && b.mutable,
            forall|nm: Seq<char>|
                nm != name@ ==> #[trigger] lookup_binding(final(self).var_bindings@, nm)
                    == lookup_binding(old(self).var_bindings@, nm),
            forall|nm: Seq<char>|
                binding_in(old(self).var_bindings@, nm) ==> binding_in(
                    final(self).var_bindings@,
                    nm,
                ),
            final(self).bindings == old(self).bindings,
            final(self).kind == old(self).kind,
            final(self).outer == old(self).outer,
    {
        let idx = bindings_find(&self.var_bindings, name);
        match idx {
            Some(i) => {
                let ghost pre = self.var_bindings@;
                let deletable = self.var_bindings[i].deletable;
                self.var_bindings[i] = Binding {
                    name: name.clone(),
                    value: Some(fo),
                    mutable: true,
                    deletable,
                };
                proof {
                    let nb = Binding { name: *name, value: Some(fo), mutable: true, deletable };
                    assert(final(self).var_bindings@ == pre.update(i as int, nb));
                    lemma_binding_update_same_name(pre, final(self).var_bindings@, i as int);
                    assert(final(self).var_bindings@[i as int].name@ == name@);
                    assert forall|nm: Seq<char>| true implies #[trigger] lookup_binding(
                        final(self).var_bindings@,
                        nm,
                    ) == (if nm == name@ {
                        Some(nb)
                    } else {
                        lookup_binding(pre, nm)
                    }) by {
                        lemma_binding_lookup_update(pre, i as int, nb, nm);
                    }
                }
            },
            None => {
                let ghost pre = self.var_bindings@;
                self.var_bindings.push(
                    Binding { name: name.clone(), value: Some(fo), mutable: true, deletable: false },
                );
                proof {
                    assert(final(self).var_bindings@[pre.len() as int].name@ == name@);
                    lemma_binding_push_monotone(pre, final(self).var_bindings@);
                    assert(final(self).var_bindings@ =~= pre.push(
                        final(self).var_bindings@[pre.len() as int],
                    ));
                    assert forall|nm: Seq<char>| true implies #[trigger] lookup_binding(
                        final(self).var_bindings@,
                        nm,
                    ) == (if nm == name@ {
                        Some(final(self).var_bindings@[pre.len() as int])
                    } else {
                        lookup_binding(pre, nm)
                    }) by {
                        lemma_binding_lookup_push(
                            pre,
                            final(self).var_bindings@[pre.len() as int],
                            nm,
                        );
                    }
                }
            },
        }
    }
}

/// Constantly true: see `can_declare_global_var` on the modelled global.
pub open spec fn can_declare_global_var_spec(env: EnvironmentRecord, name: Seq<char>) -> bool {
    true
}

pub open spec fn can_declare_global_function_spec(env: EnvironmentRecord, name: Seq<char>) -> bool {
    forall|i: int|
        0 <= i < env.var_bindings@.len() && (#[trigger] env.var_bindings@[i].name@) == name
            ==> env.var_bindings@[i].deletable || env.var_bindings@[i].mutable
}

pub proof fn lemma_binding_push_monotone(pre: Seq<Binding>, post: Seq<Binding>)
    requires
        post.len() == pre.len() + 1,
        forall|i: int| 0 <= i < pre.len() ==> post[i] == pre[i],
    ensures
        forall|nm: Seq<char>| binding_in(pre, nm) ==> binding_in(post, nm),
{
    assert forall|nm: Seq<char>| binding_in(pre, nm) implies binding_in(post, nm) by {
        let w = choose|w: int| 0 <= w < pre.len() && pre[w].name@ == nm;
        assert(post[w].name@ == nm);
    }
}

pub proof fn lemma_binding_update_same_name(pre: Seq<Binding>, post: Seq<Binding>, i: int)
    requires
        0 <= i < pre.len(),
        post.len() == pre.len(),
        post[i].name@ == pre[i].name@,
        forall|j: int| 0 <= j < pre.len() && j != i ==> post[j] == pre[j],
    ensures
        forall|nm: Seq<char>| binding_in(pre, nm) ==> binding_in(post, nm),
{
    assert forall|nm: Seq<char>| binding_in(pre, nm) implies binding_in(post, nm) by {
        let w = choose|w: int| 0 <= w < pre.len() && pre[w].name@ == nm;
        assert(post[w].name@ == nm);
    }
}

} // verus!
