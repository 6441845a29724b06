//! `PerformEval` and `EvalDeclarationInstantiation`: the declaration
//! preamble that runs before an eval body, over the script's collected
//! declarations.

use vstd::prelude::*;

use crate::agent::{Agent, ExecutionContext};
use crate::env::{binding_in, lookup_binding, Binding, EnvironmentKind, EnvironmentRecord};
use crate::heap::FunctionRecord;
use crate::value::{ExceptionType, JsError, Value};

verus! {

// ---- name sets -----------------------------------------------------------

#[verifier::external_type_specification]
#[verifier::external_body]
#[verifier::reject_recursive_types(T)]
#[verifier::reject_recursive_types(S)]
pub struct ExAHashSet<T, S>(ahash::AHashSet<T, S>);

#[verifier::external_type_specification]
#[verifier::external_body]
pub struct ExRandomState(ahash::RandomState);

/// The set of strings an ahash name set holds, by their characters.
pub uninterp spec fn name_set_view(s: ahash::AHashSet<String, ahash::RandomState>) -> Set<
    Seq<char>,
>;

/// Relies on ahash's AHashSet::new: a freshly created set holds nothing.
#[verifier::external_body]
fn name_set_new() -> (s: ahash::AHashSet<String, ahash::RandomState>)
    ensures
        name_set_view(s) == Set::<Seq<char>>::empty(),
{
    ahash::AHashSet::new()
}

/// Relies on std's HashSet::insert, reached through ahash's Deref impl:
/// returns whether the value was newly added, and the set contains it
/// afterwards. String equality is by characters.
#[verifier::external_body]
fn name_set_insert(s: &mut ahash::AHashSet<String, ahash::RandomState>, x: &String) -> (r: bool)
    ensures
        r == !name_set_view(*old(s)).contains(x@),
        name_set_view(*final(s)) == name_set_view(*old(s)).insert(x@),
{
    s.insert(x.clone())
}

/// Relies on std's HashSet::contains, reached through ahash's Deref impl.
#[verifier::external_body]
fn name_set_contains(s: &ahash::AHashSet<String, ahash::RandomState>, x: &String) -> (r: bool)
    ensures
        r == name_set_view(*s).contains(x@),
{
    s.contains(x)
}

// ---- the script's collected declarations ---------------------------------

/// One var-scoped declaration: a hoisted function, or variable bindings.
#[derive(Debug)]
pub enum VarScopedDecl {
    Function { name: String, is_async: bool, is_generator: bool },
    Variable { bound_names: Vec<String> },
}

/// One lexically scoped declaration.
#[derive(Debug)]
pub enum LexicalDecl {
    Variable { is_const: bool, bound_names: Vec<String> },
    Function { name: String },
    Class { name: String },
    DefaultExport,
}

/// What declaration instantiation needs to know of a parsed script.
#[derive(Debug)]
pub struct ScriptDecls {
    pub var_scoped: Vec<VarScopedDecl>,
    pub lex_scoped: Vec<LexicalDecl>,
    pub has_use_strict: bool,
    pub is_empty: bool,
}

pub open spec fn decl_bound_names(d: VarScopedDecl) -> Seq<Seq<char>> {
    match d {
        VarScopedDecl::Function { name, .. } => seq![name@],
        VarScopedDecl::Variable { bound_names } => bound_names@.map_values(|s: String| s@),
    }
}

/// VarDeclaredNames: every var-scoped bound name, function names included.
pub open spec fn var_declared_names_spec(s: Seq<VarScopedDecl>) -> Seq<Seq<char>>
    decreases s.len(),
{
    if s.len() == 0 {
        Seq::empty()
    } else {
        var_declared_names_spec(s.drop_last()) + decl_bound_names(s.last())
    }
}

fn collect_var_declared_names(script: &ScriptDecls) -> (r: Vec<String>)
    ensures
        r@.map_values(|s: String| s@) == var_declared_names_spec(script.var_scoped@),
{
    let n = script.var_scoped.len();
    let mut r: Vec<String> = Vec::new();
    let mut i: usize = 0;
    while i < n
        invariant
            i <= n,
            n == script.var_scoped@.len(),
            r@.map_values(|s: String| s@) == var_declared_names_spec(
                script.var_scoped@.take(i as int),
            ),
        decreases n - i,
    {
        let ghost pre = r@;
        match &script.var_scoped[i] {
            VarScopedDecl::Function { name, .. } => {
                r.push(name.clone());
                proof {
                    assert(r@ =~= pre.push(*name));
                    assert(r@.map_values(|s: String| s@) =~= pre.map_values(|s: String| s@)
                        + seq![name@]);
                }
            },
            VarScopedDecl::Variable { bound_names } => {
                let m = bound_names.len();
                let mut j: usize = 0;
                while j < m
                    invariant
                        j <= m,
                        m == bound_names@.len(),
                        r@ =~= pre + bound_names@.take(j as int),
                    decreases m - j,
                {
                    r.push(bound_names[j].clone());
                    proof {
                        assert(bound_names@.take(j as int + 1) =~= bound_names@.take(
                            j as int,
                        ).push(bound_names@[j as int]));
                        assert(r@ =~= pre + bound_names@.take(j as int + 1));
                    }
                    j += 1;
                }
                proof {
                    assert(bound_names@.take(m as int) =~= bound_names@);
                    assert(r@ =~= pre + bound_names@);
                    assert(r@.map_values(|s: String| s@) =~= pre.map_values(|s: String| s@)
                        + bound_names@.map_values(|s: String| s@));
                }
            },
        }
        proof {
            let taken = script.var_scoped@.take(i as int + 1);
            assert(taken.drop_last() =~= script.var_scoped@.take(i as int));
            assert(taken.last() == script.var_scoped@[i as int]);
            assert(r@.map_values(|s: String| s@) =~= var_declared_names_spec(taken));
        }
        i += 1;
    }
    proof {
        assert(script.var_scoped@.take(n as int) =~= script.var_scoped@);
    }
    r
}

// ---- function instantiation ----------------------------------------------

/// InstantiateFunctionObject: every syntactic function kind (plain,
/// generator, async, async generator) instantiates as an ordinary function
/// object here; the flags only select the intrinsic prototype, which the
/// core does not model.
pub fn instantiate_function_object(
    agent: &mut Agent,
    name: &String,
    is_async: bool,
    is_generator: bool,
) -> (f: u32)
    requires
        old(agent).heap.functions@.len() < u32::MAX,
    ensures
        f as int == old(agent).heap.functions@.len(),
        final(agent).heap.functions@ == old(agent).heap.functions@.push(
            Some(FunctionRecord { name: *name, is_async, is_generator }),
        ),
        final(agent).heap.arrays == old(agent).heap.arrays,
        final(agent).heap.objects == old(agent).heap.objects,
        final(agent).heap.storages == old(agent).heap.storages,
        final(agent).envs == old(agent).envs,
        final(agent).realm == old(agent).realm,
        final(agent).execution_context_stack == old(agent).execution_context_stack,
        final(agent).rooted == old(agent).rooted,
{
    agent.heap.create_function(FunctionRecord { name: name.clone(), is_async, is_generator })
}

// ---- EvalDeclarationInstantiation ----------------------------------------


/// Rank of the chain walk: an unfinished walk still owes a step.
pub open spec fn walk_rank(done: bool) -> int {
    if done {
        0
    } else {
        1
    }
}

/// The chain walk cannot finish cleanly: a non-object layer between the
/// environments binds a var name, a link is dead, or the depth bound runs
/// out before the variable environment or the chain's end is reached.
pub open spec fn chain_blocks(
    a: Agent,
    e: int,
    var_env: int,
    names: Seq<Seq<char>>,
    fuel: nat,
) -> bool
    decreases fuel,
{
    if fuel == 0 {
        true
    } else if e == var_env {
        false
    } else if !a.env_live(e) {
        true
    } else {
        (!(a.env(e).kind is Object) && (exists|i: int|
            0 <= i < names.len() && binding_in(a.env(e).bindings@, #[trigger] names[i]))) || (
        match a.env(e).outer {
            Some(o) => chain_blocks(a, o as int, var_env, names, (fuel - 1) as nat),
            None => false,
        })
    }
}

/// A hoisted function's name is not declarable on the global.
pub open spec fn fn_undeclarable(env: EnvironmentRecord, ds: Seq<VarScopedDecl>) -> bool {
    exists|i: int|
        0 <= i < ds.len() && ((#[trigger] ds[i]) matches VarScopedDecl::Function { name, .. }
            && !crate::env::can_declare_global_function_spec(env, name@))
}

/// The names one lexical declaration binds.
pub open spec fn decl_lex_names(d: LexicalDecl) -> Seq<Seq<char>> {
    match d {
        LexicalDecl::Variable { bound_names, .. } => bound_names@.map_values(|s: String| s@),
        LexicalDecl::Function { name } => seq![name@],
        LexicalDecl::Class { name } => seq![name@],
        LexicalDecl::DefaultExport => seq!["*default*"@],
    }
}

/// All lexically bound names of the script, in declaration order.
pub open spec fn lex_bound_names_flat(s: Seq<LexicalDecl>) -> Seq<Seq<char>>
    decreases s.len(),
{
    if s.len() == 0 {
        Seq::empty()
    } else {
        lex_bound_names_flat(s.drop_last()) + decl_lex_names(s.last())
    }
}

pub open spec fn seq_names_has(sq: Seq<Seq<char>>, nm: Seq<char>) -> bool {
    exists|i: int| 0 <= i < sq.len() && sq[i] == nm
}

/// Whether each name a lexical declaration binds is a `const` binding, in
/// the order of `decl_lex_names`.
pub open spec fn decl_lex_consts(d: LexicalDecl) -> Seq<bool> {
    match d {
        LexicalDecl::Variable { is_const, bound_names } => Seq::new(
            bound_names@.len(),
            |i: int| is_const,
        ),
        LexicalDecl::Function { name } => seq![false],
        LexicalDecl::Class { name } => seq![false],
        LexicalDecl::DefaultExport => seq![false],
    }
}

/// The const flags of all lexically bound names, parallel to
/// `lex_bound_names_flat`.
pub open spec fn lex_const_flat(s: Seq<LexicalDecl>) -> Seq<bool>
    decreases s.len(),
{
    if s.len() == 0 {
        Seq::empty()
    } else {
        lex_const_flat(s.drop_last()) + decl_lex_consts(s.last())
    }
}

pub proof fn lemma_lex_flat_lens(s: Seq<LexicalDecl>)
    ensures
        lex_const_flat(s).len() == lex_bound_names_flat(s).len(),
    decreases s.len(),
{
    if s.len() > 0 {
        lemma_lex_flat_lens(s.drop_last());
        assert(decl_lex_consts(s.last()).len() == decl_lex_names(s.last()).len());
    }
}

/// Each lexically bound name's const flag at its flattened position.
pub proof fn lemma_lex_const_index(s: Seq<LexicalDecl>, i: int, k: int)
    requires
        0 <= i < s.len(),
        0 <= k < decl_lex_names(s[i]).len(),
    ensures
        lex_const_flat(s).len() == lex_bound_names_flat(s).len(),
        lex_const_flat(s)[lex_bound_names_flat(s.take(i)).len() + k] == decl_lex_consts(s[i])[k],
    decreases s.len(),
{
    lemma_lex_flat_lens(s);
    lemma_lex_flat_index(s, i, k);
    assert(lex_const_flat(s) == lex_const_flat(s.drop_last()) + decl_lex_consts(s.last()));
    if i == s.len() - 1 {
        assert(s.take(i) =~= s.drop_last());
        lemma_lex_flat_lens(s.drop_last());
        assert(decl_lex_consts(s[i]).len() == decl_lex_names(s[i]).len());
        assert(s.last() == s[i]);
        assert(lex_const_flat(s)[lex_bound_names_flat(s.take(i)).len() + k] == decl_lex_consts(
            s[i],
        )[k]);
    } else {
        let d = s.drop_last();
        assert(d.take(i) =~= s.take(i));
        assert(d[i] == s[i]);
        lemma_lex_const_index(d, i, k);
        lemma_lex_flat_lens(d);
        lemma_lex_flat_index(d, i, k);
        assert(lex_bound_names_flat(s.take(i)).len() + k < lex_const_flat(d).len());
        assert(lex_const_flat(s)[lex_bound_names_flat(s.take(i)).len() + k] == lex_const_flat(
            d,
        )[lex_bound_names_flat(d.take(i)).len() + k]);
    }
}

/// The binding a lexical declaration leaves behind: present, mutable
/// exactly when the declaration was not `const`, and still uninitialised
/// where nothing later in the preamble may write to it.
pub open spec fn lex_name_bound(
    bs: Seq<Binding>,
    nm: Seq<char>,
    is_const: bool,
    uninit: bool,
) -> bool {
    lookup_binding(bs, nm) matches Some(b) && b.mutable == !is_const && (uninit ==> b.value
        is None)
}

/// Every lexically declared name of the script is bound in the lexical
/// environment, const ones immutably; when the variable environment is a
/// different record, the bindings are still uninitialised.
pub open spec fn edi_lex_outcomes(a: Agent, lex_env: int, var_env: int, s: ScriptDecls) -> bool {
    forall|q: int|
        0 <= q < lex_bound_names_flat(s.lex_scoped@).len() ==> lex_name_bound(
            a.env(lex_env).bindings@,
            #[trigger] lex_bound_names_flat(s.lex_scoped@)[q],
            lex_const_flat(s.lex_scoped@)[q],
            var_env != lex_env,
        )
}

/// A lexical name is already bound in the lexical environment, or the
/// script declares it lexically twice.
pub open spec fn lex_clash(env0: EnvironmentRecord, s: Seq<LexicalDecl>) -> bool {
    ||| (exists|i: int|
        0 <= i < lex_bound_names_flat(s).len() && binding_in(
            env0.bindings@,
            #[trigger] lex_bound_names_flat(s)[i],
        ))
    ||| (exists|i: int, j: int|
        0 <= i < j < lex_bound_names_flat(s).len() && lex_bound_names_flat(s)[i]
            == lex_bound_names_flat(s)[j])
}

/// A hoisted function's name meets an immutable binding already present in
/// the variable environment.
pub open spec fn fn_meets_immutable(env0: EnvironmentRecord, ds: Seq<VarScopedDecl>) -> bool {
    exists|i: int|
        0 <= i < ds.len() && ((#[trigger] ds[i]) matches VarScopedDecl::Function { name, .. } && (
        lookup_binding(env0.bindings@, name@) matches Some(b) && !b.mutable))
}

/// A hoisted function's name is also lexically declared by the script.
pub open spec fn fn_name_lexical(s: ScriptDecls) -> bool {
    exists|i: int|
        0 <= i < s.var_scoped@.len() && ((#[trigger] s.var_scoped@[i]) matches
            VarScopedDecl::Function { name, .. } && seq_names_has(
            lex_bound_names_flat(s.lex_scoped@),
            name@,
        ))
}

/// Any immutable binding of the variable environment either predates the
/// preamble or was pre-created from the script's own lexical names, which
/// can only land there when the two environments coincide.
pub open spec fn imm_provenance(
    a0: Agent,
    a: Agent,
    var_env: int,
    lex_env: int,
    s: ScriptDecls,
) -> bool {
    forall|nm: Seq<char>|
        ((#[trigger] lookup_binding(a.env(var_env).bindings@, nm)) matches Some(b) && !b.mutable)
            ==> ((lookup_binding(a0.env(var_env).bindings@, nm) matches Some(b0) && !b0.mutable)
            || (var_env == lex_env && seq_names_has(lex_bound_names_flat(s.lex_scoped@), nm)))
}

/// The named conditions a declaration-instantiation error can arise from:
/// an error is owed only under one of these, so conflict-free, declarable,
/// collision-free input must succeed.
pub open spec fn edi_error_cause(
    a0: Agent,
    s: ScriptDecls,
    var_env: int,
    lex_env: int,
    strict: bool,
) -> bool {
    ||| (!strict && a0.env(var_env).kind is Global && global_lexical_conflict(a0, var_env, s))
    ||| (!strict && chain_blocks(
        a0,
        lex_env,
        var_env,
        var_declared_names_spec(s.var_scoped@),
        crate::array::PROTO_CHAIN_LIMIT as nat,
    ))
    ||| (a0.env(var_env).kind is Global && fn_undeclarable(a0.env(var_env), s.var_scoped@))
    ||| lex_clash(a0.env(lex_env), s.lex_scoped@)
    ||| (!(a0.env(var_env).kind is Global) && fn_meets_immutable(a0.env(var_env), s.var_scoped@))
    ||| (var_env == lex_env && fn_name_lexical(s))
}


/// At a failed lexical creation, the clash cause holds: the name was
/// pre-existing or created earlier from the script's own lexical names.
pub proof fn lemma_lex_create_clash(
    a0bs: Seq<Binding>,
    bs0: Seq<Binding>,
    flat: Seq<Seq<char>>,
    done: int,
    nm: Seq<char>,
)
    requires
        0 <= done < flat.len(),
        flat[done] == nm,
        binding_in(bs0, nm),
        lookup_binding(bs0, nm) == lookup_binding(a0bs, nm) || ((lookup_binding(bs0, nm) is Some)
            && seq_names_has(flat.take(done), nm)),
    ensures
        (exists|i: int| 0 <= i < flat.len() && binding_in(a0bs, #[trigger] flat[i])) || (exists|
            i: int,
            j: int,
        |
            0 <= i < j < flat.len() && flat[i] == flat[j]),
{
    crate::env::lemma_binding_in_lookup(bs0, nm);
    if lookup_binding(bs0, nm) == lookup_binding(a0bs, nm) {
        crate::env::lemma_binding_in_lookup(a0bs, nm);
        assert(binding_in(a0bs, flat[done]));
    } else {
        let q = choose|q: int| 0 <= q < flat.take(done).len() && flat.take(done)[q] == nm;
        assert(flat[q] == flat[done]);
    }
}

/// Dichotomy maintenance after one successful lexical creation: every
/// binding is either untouched or carries a lexical name seen so far.
pub proof fn lemma_lex_dichotomy_step(
    a0bs: Seq<Binding>,
    bs0: Seq<Binding>,
    bs1: Seq<Binding>,
    flat: Seq<Seq<char>>,
    done: int,
    nm: Seq<char>,
)
    requires
        0 <= done < flat.len(),
        flat[done] == nm,
        lookup_binding(bs1, nm) is Some,
        forall|n2: Seq<char>|
            n2 != nm ==> #[trigger] lookup_binding(bs1, n2) == lookup_binding(bs0, n2),
        forall|n2: Seq<char>|
            #[trigger] lookup_binding(bs0, n2) == lookup_binding(a0bs, n2) || ((lookup_binding(
                bs0,
                n2,
            ) is Some) && seq_names_has(flat.take(done), n2)),
    ensures
        forall|n2: Seq<char>|
            #[trigger] lookup_binding(bs1, n2) == lookup_binding(a0bs, n2) || ((lookup_binding(
                bs1,
                n2,
            ) is Some) && seq_names_has(flat.take(done + 1), n2)),
{
    assert forall|n2: Seq<char>| true implies (#[trigger] lookup_binding(bs1, n2)
        == lookup_binding(a0bs, n2) || ((lookup_binding(bs1, n2) is Some) && seq_names_has(
        flat.take(done + 1),
        n2,
    ))) by {
        if n2 == nm {
            assert(flat.take(done + 1)[done] == nm);
        } else {
            if !(lookup_binding(bs0, n2) == lookup_binding(a0bs, n2)) {
                let q = choose|q: int|
                    0 <= q < flat.take(done).len() && flat.take(done)[q] == n2;
                assert(flat.take(done + 1)[q] == n2);
            }
        }
    }
}

/// Each lexically bound name's position in the flattened name list.
pub proof fn lemma_lex_flat_index(s: Seq<LexicalDecl>, i: int, k: int)
    requires
        0 <= i < s.len(),
        0 <= k < decl_lex_names(s[i]).len(),
    ensures
        lex_bound_names_flat(s.take(i)).len() + k < lex_bound_names_flat(s).len(),
        lex_bound_names_flat(s)[lex_bound_names_flat(s.take(i)).len() + k] == decl_lex_names(
            s[i],
        )[k],
        lex_bound_names_flat(s.take(i + 1)).len() == lex_bound_names_flat(s.take(i)).len()
            + decl_lex_names(s[i]).len(),
    decreases s.len(),
{
    if i == s.len() - 1 {
        assert(s.take(i) =~= s.drop_last());
        assert(s.take(i + 1) =~= s);
        lemma_lex_flat_prefix_len(s, i);
    } else {
        let d = s.drop_last();
        assert(d.take(i) =~= s.take(i));
        assert(d.take(i + 1) =~= s.take(i + 1));
        assert(d[i] == s[i]);
        lemma_lex_flat_index(d, i, k);
    }
}

pub proof fn lemma_lex_flat_prefix_len(s: Seq<LexicalDecl>, i: int)
    requires
        0 <= i <= s.len(),
    ensures
        lex_bound_names_flat(s.take(i)).len() <= lex_bound_names_flat(s).len(),
    decreases s.len() - i,
{
    if i < s.len() {
        assert(s.take(i + 1).drop_last() =~= s.take(i));
        assert(s.take(i + 1).last() == s[i]);
        lemma_lex_flat_prefix_len(s, i + 1);
        if i + 1 == s.len() {
            assert(s.take(i + 1) =~= s);
        }
    } else {
        assert(s.take(i) =~= s);
    }
}

/// The store var declarations write to: the global object's bindings on a
/// global variable environment, the declarative bindings otherwise.
pub open spec fn var_binding_lookup(a: Agent, e: int, nm: Seq<char>) -> Option<Binding> {
    if a.env(e).kind is Global {
        lookup_binding(a.env(e).var_bindings@, nm)
    } else {
        lookup_binding(a.env(e).bindings@, nm)
    }
}

/// What a var-scoped name with no function declaration of the same name
/// holds after instantiation: a pre-existing binding is left exactly as it
/// was; a fresh one is mutable and initialised to undefined.
pub open spec fn var_name_outcome(a0: Agent, a: Agent, e: int, nm: Seq<char>) -> bool {
    if var_binding_lookup(a0, e, nm) is Some {
        var_binding_lookup(a, e, nm) == var_binding_lookup(a0, e, nm)
    } else {
        var_binding_lookup(a, e, nm) matches Some(b) && b.value == Some(Value::Undefined)
            && b.mutable
    }
}

/// The flags of the textually last function declaration of this name:
/// with several declarations of one name, the last one wins.
pub open spec fn last_fn_flags(ds: Seq<VarScopedDecl>, nm: Seq<char>) -> (bool, bool)
    decreases ds.len(),
{
    if ds.len() == 0 {
        (false, false)
    } else if ds.last() matches VarScopedDecl::Function { name, is_async, is_generator }
        && name@ == nm {
        (ds.last()->Function_is_async, ds.last()->Function_is_generator)
    } else {
        last_fn_flags(ds.drop_last(), nm)
    }
}

/// A function declaration with no later declaration of the same name is
/// the one whose flags `last_fn_flags` reports.
pub proof fn lemma_last_fn_flags_at(ds: Seq<VarScopedDecl>, i: int, nm: Seq<char>)
    requires
        0 <= i < ds.len(),
        (ds[i] matches VarScopedDecl::Function { name, .. } && name@ == nm),
        forall|j: int|
            i < j < ds.len() ==> ((#[trigger] ds[j]) matches VarScopedDecl::Function {
                name,
                ..
            } ==> name@ != nm),
    ensures
        last_fn_flags(ds, nm) == (ds[i]->Function_is_async, ds[i]->Function_is_generator),
    decreases ds.len(),
{
    if i == ds.len() - 1 {
        assert(ds.last() == ds[i]);
    } else {
        let d = ds.drop_last();
        assert(d[i] == ds[i]);
        lemma_last_fn_flags_at(d, i, nm);
    }
}

/// The binding a hoisted function declaration leaves: mutable, holding a
/// live function object carrying that very name and these flags.
pub open spec fn fn_binding_outcome(a: Agent, e: int, nm: Seq<char>, ia: bool, ig: bool) -> bool {
    var_binding_lookup(a, e, nm) matches Some(b) && b.mutable && (b.value matches Some(v) && (
    v matches Value::Function(f) && a.heap.function_live(f as int) && a.heap.func(
        f as int,
    ).name@ == nm && a.heap.func(f as int).is_async == ia && a.heap.func(f as int).is_generator
        == ig))
}

/// A collected entry's flags are the last declaration's for its name.
pub open spec fn fti_flags_last(fs: Seq<VarScopedDecl>, k: int, ds: Seq<VarScopedDecl>) -> bool {
    fs[k] matches VarScopedDecl::Function { name, is_async, is_generator } ==> last_fn_flags(
        ds,
        name@,
    ) == (fs[k]->Function_is_async, fs[k]->Function_is_generator)
}

/// A collected entry's name is bound to a function object carrying the
/// entry's flags.
pub open spec fn fti_bound(fs: Seq<VarScopedDecl>, k: int, a: Agent, e: int) -> bool {
    fs[k] matches VarScopedDecl::Function { name, is_async, is_generator } ==> fn_binding_outcome(
        a,
        e,
        name@,
        fs[k]->Function_is_async,
        fs[k]->Function_is_generator,
    )
}

/// Every hoisted function declaration of the script ends bound to a live
/// function object of its name in the variable environment.
pub open spec fn edi_fn_outcomes(a: Agent, var_env: int, s: ScriptDecls) -> bool {
    forall|j: int|
        0 <= j < s.var_scoped@.len() ==> ((#[trigger] s.var_scoped@[j]) matches
            VarScopedDecl::Function { name, .. } ==> fn_binding_outcome(
            a,
            var_env,
            name@,
            last_fn_flags(s.var_scoped@, name@).0,
            last_fn_flags(s.var_scoped@, name@).1,
        ))
}

pub open spec fn var_decl_name_outcome(
    a0: Agent,
    a: Agent,
    var_env: int,
    s: ScriptDecls,
    j: int,
    k: int,
) -> bool {
    s.var_scoped@[j] matches VarScopedDecl::Variable { bound_names } ==> ((0 <= k
        < bound_names@.len() && !fn_list_has(s.var_scoped@, bound_names@[k]@))
        ==> var_name_outcome(a0, a, var_env, bound_names@[k]@))
}

/// Every var-declared name that no function declaration also binds keeps a
/// pre-existing binding untouched, and otherwise gains a mutable binding
/// initialised to undefined.
pub open spec fn edi_var_outcomes(a0: Agent, a: Agent, var_env: int, s: ScriptDecls) -> bool {
    forall|j: int, k: int|
        0 <= j < s.var_scoped@.len() ==> #[trigger] var_decl_name_outcome(
            a0,
            a,
            var_env,
            s,
            j,
            k,
        )
}

/// Two collected entries hold different function names.
pub open spec fn fn_names_differ(fs: Seq<VarScopedDecl>, k1: int, k2: int) -> bool {
    fs[k1] matches VarScopedDecl::Function { name: n1, .. } ==> (fs[k2] matches
        VarScopedDecl::Function { name: n2, .. } ==> n1@ != n2@)
}

/// Whether one of the first `n` strings of the list is this name.
pub open spec fn str_prefix_has(ss: Seq<String>, n: int, nm: Seq<char>) -> bool {
    exists|i: int| 0 <= i < n && i < ss.len() && (#[trigger] ss[i])@ == nm
}

/// A var name may not shadow a lexical declaration of the global
/// environment: the conflict the sloppy-eval preamble must reject.
pub open spec fn global_lexical_conflict(a: Agent, var_env: int, s: ScriptDecls) -> bool {
    exists|i: int|
        0 <= i < var_declared_names_spec(s.var_scoped@).len() && binding_in(
            a.env(var_env).bindings@,
            var_declared_names_spec(s.var_scoped@)[i],
        )
}

/// Where var and function declarations of an eval land: the global object's
/// bindings for a global variable environment, the declarative bindings
/// otherwise.
pub open spec fn env_binds_var(a: Agent, e: int, nm: Seq<char>) -> bool {
    if a.env(e).kind is Global {
        binding_in(a.env(e).var_bindings@, nm)
    } else {
        binding_in(a.env(e).bindings@, nm)
    }
}

/// Frame of declaration instantiation: only the two named environments, the
/// functions arena and nothing else may change.
pub open spec fn edi_frame(pre: Agent, post: Agent, var_env: int, lex_env: int) -> bool {
    &&& post.heap.arrays == pre.heap.arrays
    &&& post.heap.objects == pre.heap.objects
    &&& post.heap.storages == pre.heap.storages
    &&& post.heap.functions@.len() >= pre.heap.functions@.len()
    &&& post.envs@.len() == pre.envs@.len()
    &&& (forall|t: int|
        0 <= t < pre.envs@.len() && t != var_env && t != lex_env ==> #[trigger] post.envs@[t]
            == pre.envs@[t])
    &&& post.realm == pre.realm
    &&& post.execution_context_stack == pre.execution_context_stack
    &&& post.rooted == pre.rooted
}

/// EvalDeclarationInstantiation. The sloppy-mode conflict checks run first:
/// a var name shadowing a global lexical declaration, or any binding on the
/// environment chain between the lexical and the variable environment, is a
/// SyntaxError. Then function and var declarations are collected with
/// last-function-wins de-duplication, lexical declarations are pre-created
/// (const ones immutable), functions are instantiated and bound, and var
/// names are bound and initialised to undefined.
#[verifier::rlimit(80)]
pub fn eval_declaration_instantiation(
    agent: &mut Agent,
    script: &ScriptDecls,
    var_env: u32,
    lex_env: u32,
    private_env: Option<u32>,
    strict_eval: bool,
) -> (r: Result<(), JsError>)
    requires
        old(agent).env_live(var_env as int),
        old(agent).env_live(lex_env as int),
        old(agent).heap.functions@.len() + script.var_scoped@.len() < u32::MAX - 1,
    ensures
        edi_frame(*old(agent), *final(agent), var_env as int, lex_env as int),
        final(agent).env_live(var_env as int),
        final(agent).env_live(lex_env as int),
        !strict_eval && old(agent).env(var_env as int).kind is Global && global_lexical_conflict(
            *old(agent),
            var_env as int,
            *script,
        ) ==> (r matches Err(e) && e.kind == ExceptionType::SyntaxError) && final(agent).envs
            == old(agent).envs && final(agent).heap.functions == old(agent).heap.functions,
        !strict_eval && chain_conflict(
            *old(agent),
            lex_env as int,
            var_env as int,
            var_declared_names_spec(script.var_scoped@),
            crate::array::PROTO_CHAIN_LIMIT as nat,
        ) ==> (r matches Err(e) && e.kind == ExceptionType::SyntaxError) && final(agent).envs
            == old(agent).envs && final(agent).heap.functions == old(agent).heap.functions,
        r is Ok && !strict_eval && old(agent).env(var_env as int).kind is Global
            ==> !global_lexical_conflict(*old(agent), var_env as int, *script),
        r is Ok && !strict_eval ==> !chain_conflict(
            *old(agent),
            lex_env as int,
            var_env as int,
            var_declared_names_spec(script.var_scoped@),
            crate::array::PROTO_CHAIN_LIMIT as nat,
        ),
        r is Ok ==> edi_fn_outcomes(*final(agent), var_env as int, *script),
        r is Ok ==> final(agent).heap.functions@.len() == old(agent).heap.functions@.len()
            + distinct_fn_from(script.var_scoped@, 0),
        r is Ok && (old(agent).env(var_env as int).kind is Global || var_env != lex_env)
            ==> edi_var_outcomes(*old(agent), *final(agent), var_env as int, *script),
        r is Ok ==> edi_lex_outcomes(
            *final(agent),
            lex_env as int,
            var_env as int,
            *script,
        ),
        r is Ok && old(agent).env(var_env as int).kind is Global ==> !fn_undeclarable(
            old(agent).env(var_env as int),
            script.var_scoped@,
        ),
        r is Err ==> edi_error_cause(
            *old(agent),
            *script,
            var_env as int,
            lex_env as int,
            strict_eval,
        ),
        r is Ok ==> (forall|i: int|
            0 <= i < script.var_scoped@.len() ==> ((#[trigger] script.var_scoped@[i]) matches
                VarScopedDecl::Function { name, .. } ==> env_binds_var(
                *final(agent),
                var_env as int,
                name@,
            ))),
        r is Ok ==> (forall|i: int|
            0 <= i < script.var_scoped@.len() ==> decl_vars_bound(
                *final(agent),
                var_env as int,
                #[trigger] script.var_scoped@[i],
            )),
        final(agent).env(var_env as int).kind == old(agent).env(var_env as int).kind,
        final(agent).env(lex_env as int).kind == old(agent).env(lex_env as int).kind,
        final(agent).env(var_env as int).outer == old(agent).env(var_env as int).outer,
        final(agent).env(lex_env as int).outer == old(agent).env(lex_env as int).outer,
{
    let ghost agent0 = *agent;
    let var_names = collect_var_declared_names(script);
    let ghost names_spec = var_declared_names_spec(script.var_scoped@);

    // 3. Sloppy mode: reject var names shadowed by global lexical
    //    declarations, then scan the chain between the environments.
    if !strict_eval {
        if matches!(agent.env_kind(var_env), EnvironmentKind::Global) {
            let n = var_names.len();
            let mut i: usize = 0;
            while i < n
                invariant
                    i <= n,
                    *agent == agent0,
                    agent0 == *old(agent),
                    !strict_eval,
                    agent0.env(var_env as int).kind is Global,
                    agent0.env_live(var_env as int),
                    agent0.env_live(lex_env as int),
                    n == var_names@.len(),
                    var_names@.map_values(|s: String| s@) == names_spec,
                    names_spec == var_declared_names_spec(script.var_scoped@),
                    forall|j: int|
                        0 <= j < i ==> !binding_in(
                            agent0.env(var_env as int).bindings@,
                            #[trigger] names_spec[j],
                        ),
                decreases n - i,
            {
                let genv = agent.env_ref(var_env);
                if genv.has_lexical_declaration(&var_names[i]) {
                    proof {
                        assert(names_spec[i as int] == var_names@.map_values(|s: String| s@)[
                            i as int
                        ]);
                        assert(binding_in(
                            agent0.env(var_env as int).bindings@,
                            names_spec[i as int],
                        ));
                        assert(global_lexical_conflict(agent0, var_env as int, *script));
                    }
                    return Err(
                        JsError::new(
                            ExceptionType::SyntaxError,
                            "Redeclaration of lexical declaration",
                        ),
                    );
                }
                proof {
                    assert(names_spec[i as int] == var_names@.map_values(|s: String| s@)[i as int]);
                }
                i += 1;
            }
            proof {
                assert(forall|j: int|
                    0 <= j < names_spec.len() ==> !binding_in(
                        agent0.env(var_env as int).bindings@,
                        #[trigger] names_spec[j],
                    ));
                assert(!global_lexical_conflict(agent0, var_env as int, *script));
            }
        }
        // Walk outward from the lexical environment toward the variable
        // environment; every non-object layer must be free of the var names.
        let mut this_env = lex_env;
        let mut fuel: u32 = crate::array::PROTO_CHAIN_LIMIT;
        let mut chain_done = false;
        while !chain_done && this_env != var_env
            invariant
                *agent == agent0,
                agent0 == *old(agent),
                agent0.env_live(var_env as int),
                agent0.env_live(this_env as int),
                agent0.env_live(lex_env as int),
                names_spec == var_names@.map_values(|s: String| s@),
                names_spec == var_declared_names_spec(script.var_scoped@),
                fuel <= crate::array::PROTO_CHAIN_LIMIT,
                !strict_eval,
                chain_blocks(
                    agent0,
                    lex_env as int,
                    var_env as int,
                    names_spec,
                    crate::array::PROTO_CHAIN_LIMIT as nat,
                ) == chain_blocks(
                    agent0,
                    this_env as int,
                    var_env as int,
                    names_spec,
                    fuel as nat,
                ),
                !strict_eval && agent0.env(var_env as int).kind is Global
                    ==> !global_lexical_conflict(agent0, var_env as int, *script),
                chain_conflict(
                    agent0,
                    lex_env as int,
                    var_env as int,
                    names_spec,
                    crate::array::PROTO_CHAIN_LIMIT as nat,
                ) == chain_conflict(
                    agent0,
                    this_env as int,
                    var_env as int,
                    names_spec,
                    fuel as nat,
                ),
                chain_done ==> !chain_conflict(
                    agent0,
                    this_env as int,
                    var_env as int,
                    names_spec,
                    fuel as nat,
                ),
            decreases fuel, walk_rank(chain_done),
        {
            if fuel == 0 {
                proof {
                    assert(chain_blocks(
                        agent0,
                        this_env as int,
                        var_env as int,
                        names_spec,
                        fuel as nat,
                    ));
                    assert(!chain_conflict(
                        agent0,
                        this_env as int,
                        var_env as int,
                        names_spec,
                        fuel as nat,
                    ));
                    assert(!chain_conflict(
                        agent0,
                        lex_env as int,
                        var_env as int,
                        names_spec,
                        crate::array::PROTO_CHAIN_LIMIT as nat,
                    ));
                }
                return Err(
                    JsError::new(
                        ExceptionType::RangeError,
                        "Maximum environment chain depth exceeded",
                    ),
                );
            }
            if !matches!(agent.env_kind(this_env), EnvironmentKind::Object) {
                let n = var_names.len();
                let mut i: usize = 0;
                while i < n
                    invariant
                        i <= n,
                        *agent == agent0,
                        agent0 == *old(agent),
                        agent0.env_live(this_env as int),
                        agent0.env_live(var_env as int),
                        agent0.env_live(lex_env as int),
                        n == var_names@.len(),
                        names_spec == var_names@.map_values(|s: String| s@),
                        names_spec == var_declared_names_spec(script.var_scoped@),
                        !strict_eval,
                        chain_blocks(
                            agent0,
                            lex_env as int,
                            var_env as int,
                            names_spec,
                            crate::array::PROTO_CHAIN_LIMIT as nat,
                        ) == chain_blocks(
                            agent0,
                            this_env as int,
                            var_env as int,
                            names_spec,
                            fuel as nat,
                        ),
                        this_env != var_env,
                        1 <= fuel <= crate::array::PROTO_CHAIN_LIMIT,
                        !(agent0.env(this_env as int).kind is Object),
                        !strict_eval && agent0.env(var_env as int).kind is Global
                            ==> !global_lexical_conflict(agent0, var_env as int, *script),
                        chain_conflict(
                            agent0,
                            lex_env as int,
                            var_env as int,
                            names_spec,
                            crate::array::PROTO_CHAIN_LIMIT as nat,
                        ) == chain_conflict(
                            agent0,
                            this_env as int,
                            var_env as int,
                            names_spec,
                            fuel as nat,
                        ),
                        forall|j: int|
                            0 <= j < i ==> !binding_in(
                                agent0.env(this_env as int).bindings@,
                                #[trigger] names_spec[j],
                            ),
                    decreases n - i,
                {
                    let env = agent.env_ref(this_env);
                    if env.has_binding(&var_names[i]) {
                        proof {
                            assert(names_spec[i as int] == var_names@.map_values(
                                |s: String| s@,
                            )[i as int]);
                            assert(binding_in(
                                agent0.env(this_env as int).bindings@,
                                names_spec[i as int],
                            ));
                            assert(chain_conflict(
                                agent0,
                                this_env as int,
                                var_env as int,
                                names_spec,
                                fuel as nat,
                            ));
                            assert(chain_blocks(
                                agent0,
                                this_env as int,
                                var_env as int,
                                names_spec,
                                fuel as nat,
                            ));
                        }
                        return Err(
                            JsError::new(ExceptionType::SyntaxError, "Redeclaration of variable"),
                        );
                    }
                    proof {
                        assert(names_spec[i as int] == var_names@.map_values(|s: String| s@)[
                            i as int
                        ]);
                    }
                    i += 1;
                }
            }
            match agent.env_outer(this_env) {
                Some(outer) => {
                    if !agent.env_live_check(outer) {
                        proof {
                            assert(agent0.env(this_env as int).outer == Some(outer));
                            assert(!agent0.env_live(outer as int));
                            assert(chain_blocks(
                                agent0,
                                outer as int,
                                var_env as int,
                                names_spec,
                                (fuel - 1) as nat,
                            ));
                            assert(chain_blocks(
                                agent0,
                                this_env as int,
                                var_env as int,
                                names_spec,
                                fuel as nat,
                            ));
                            assert(!chain_conflict(
                                agent0,
                                outer as int,
                                var_env as int,
                                names_spec,
                                (fuel - 1) as nat,
                            ));
                            assert(!chain_conflict(
                                agent0,
                                this_env as int,
                                var_env as int,
                                names_spec,
                                fuel as nat,
                            ));
                            assert(!chain_conflict(
                                agent0,
                                lex_env as int,
                                var_env as int,
                                names_spec,
                                crate::array::PROTO_CHAIN_LIMIT as nat,
                            ));
                        }
                        return Err(
                            JsError::new(
                                ExceptionType::ReferenceError,
                                "Broken environment chain",
                            ),
                        );
                    }
                    this_env = outer;
                    fuel = fuel - 1;
                },
                None => {
                    // The variable environment was not on the chain; there
                    // is nothing further to scan.
                    proof {
                        assert(!chain_conflict(
                            agent0,
                            this_env as int,
                            var_env as int,
                            names_spec,
                            fuel as nat,
                        ));
                    }
                    chain_done = true;
                },
            }
        }
        proof {
            assert(!chain_conflict(
                agent0,
                lex_env as int,
                var_env as int,
                names_spec,
                crate::array::PROTO_CHAIN_LIMIT as nat,
            ));
        }
    }
    proof {
        if !strict_eval && agent0.env(var_env as int).kind is Global {
            assert(!global_lexical_conflict(agent0, var_env as int, *script));
        }
        if !strict_eval {
            assert(!chain_conflict(
                agent0,
                lex_env as int,
                var_env as int,
                names_spec,
                crate::array::PROTO_CHAIN_LIMIT as nat,
            ));
        }
    }

    // 8.-10. Collect function declarations in reverse, keeping the last
    // declaration per name.
    let is_global = matches!(agent.env_kind(var_env), EnvironmentKind::Global);
    let mut declared_function_names = name_set_new();
    let mut functions_to_initialize: Vec<VarScopedDecl> = Vec::new();
    let n = script.var_scoped.len();
    let mut i: usize = n;
    while i > 0
        invariant
            i <= n,
            *agent == agent0,
            agent0 == *old(agent),
            agent0.env_live(var_env as int),
            agent0.env_live(lex_env as int),
            n == script.var_scoped@.len(),
            is_global == (agent0.env(var_env as int).kind is Global),
            forall|j: int|
                i <= j < n ==> ((#[trigger] script.var_scoped@[j]) matches
                    VarScopedDecl::Function { name, .. } ==> name_set_view(
                    declared_function_names,
                ).contains(name@)),
            forall|nm: Seq<char>|
                name_set_view(declared_function_names).contains(nm) ==> fn_list_has(
                    functions_to_initialize@,
                    nm,
                ),
            forall|nm: Seq<char>|
                name_set_view(declared_function_names).contains(nm)
                    ==> #[trigger] fn_list_has_from(script.var_scoped@, i as int, nm),
            functions_to_initialize@.len() == distinct_fn_from(script.var_scoped@, i as int),
            forall|k: int|
                0 <= k < functions_to_initialize@.len() ==> (
                #[trigger] functions_to_initialize@[k]) is Function,
            forall|k: int|
                0 <= k < functions_to_initialize@.len() ==> ((
                #[trigger] functions_to_initialize@[k]) matches VarScopedDecl::Function {
                    name,
                    ..
                } ==> fn_list_has(script.var_scoped@, name@)),
            functions_to_initialize@.len() + i <= n,
            forall|k: int|
                0 <= k < functions_to_initialize@.len() ==> ((
                #[trigger] functions_to_initialize@[k]) matches VarScopedDecl::Function {
                    name,
                    ..
                } ==> name_set_view(declared_function_names).contains(name@)),
            forall|k1: int, k2: int|
                0 <= k1 < k2 < functions_to_initialize@.len() ==> #[trigger] fn_names_differ(
                    functions_to_initialize@,
                    k1,
                    k2,
                ),
            forall|k: int|
                0 <= k < functions_to_initialize@.len() ==> #[trigger] fti_flags_last(
                    functions_to_initialize@,
                    k,
                    script.var_scoped@,
                ),
            no_conflict_after_check(agent0, var_env as int, lex_env as int, *script, strict_eval),
            is_global ==> (forall|nm: Seq<char>|
                name_set_view(declared_function_names).contains(nm)
                    ==> crate::env::can_declare_global_function_spec(
                    agent0.env(var_env as int),
                    nm,
                )),
        decreases i,
    {
        i = i - 1;
        match &script.var_scoped[i] {
            VarScopedDecl::Function { name, is_async, is_generator } => {
                if name_set_insert(&mut declared_function_names, name) {
                    if is_global {
                        let genv = agent.env_ref(var_env);
                        if !genv.can_declare_global_function(name) {
                            proof {
                                assert(script.var_scoped@[i as int] matches
                                    VarScopedDecl::Function { name: nn, .. } && nn@ == name@);
                                assert(fn_undeclarable(
                                    agent0.env(var_env as int),
                                    script.var_scoped@,
                                ));
                            }
                            return Err(
                                JsError::new(
                                    ExceptionType::TypeError,
                                    "Cannot declare global function",
                                ),
                            );
                        }
                    }
                    let ghost pre = functions_to_initialize@;
                    functions_to_initialize.push(
                        VarScopedDecl::Function {
                            name: name.clone(),
                            is_async: *is_async,
                            is_generator: *is_generator,
                        },
                    );
                    proof {
                        assert(fn_list_has(functions_to_initialize@, name@)) by {
                            assert(functions_to_initialize@[pre.len() as int] matches
                                VarScopedDecl::Function { name: nn, .. } && nn@ == name@);
                        }
                        assert(fn_list_has(script.var_scoped@, name@)) by {
                            assert(script.var_scoped@[i as int] matches
                                VarScopedDecl::Function { name: nn, .. } && nn@ == name@);
                        }
                        assert forall|k: int|
                            0 <= k < functions_to_initialize@.len() implies ((
                        #[trigger] functions_to_initialize@[k]) matches VarScopedDecl::Function {
                            name: nn,
                            ..
                        } ==> fn_list_has(script.var_scoped@, nn@)) by {
                            if k < pre.len() {
                                assert(functions_to_initialize@[k] == pre[k]);
                            }
                        }
                        assert forall|k: int|
                            0 <= k < functions_to_initialize@.len() implies
                            #[trigger] fti_flags_last(
                            functions_to_initialize@,
                            k,
                            script.var_scoped@,
                        ) by {
                            if k < pre.len() {
                                assert(functions_to_initialize@[k] == pre[k]);
                                assert(fti_flags_last(pre, k, script.var_scoped@));
                            } else {
                                assert(functions_to_initialize@[k] matches
                                    VarScopedDecl::Function { name: nn, .. } && nn@ == name@);
                                lemma_last_fn_flags_at(script.var_scoped@, i as int, name@);
                            }
                        }
                        assert forall|k1: int, k2: int|
                            0 <= k1 < k2 < functions_to_initialize@.len() implies
                            #[trigger] fn_names_differ(functions_to_initialize@, k1, k2) by {
                            assert(functions_to_initialize@[k1] == pre[k1]);
                            if k2 == pre.len() {
                                assert(functions_to_initialize@[k2] matches
                                    VarScopedDecl::Function { name: nn, .. } && nn@ == name@);
                            } else {
                                assert(functions_to_initialize@[k2] == pre[k2]);
                                assert(fn_names_differ(pre, k1, k2));
                            }
                        }
                        assert forall|nm: Seq<char>|
                            name_set_view(declared_function_names).contains(nm) implies fn_list_has(
                            functions_to_initialize@,
                            nm,
                        ) by {
                            if nm != name@ {
                                assert(fn_list_has(pre, nm));
                                let w = choose|w: int|
                                    0 <= w < pre.len() && ((#[trigger] pre[w]) matches
                                        VarScopedDecl::Function { name: nn, .. } && nn@ == nm);
                                assert(functions_to_initialize@[w] == pre[w]);
                            }
                        }
                    }
                }
                proof {
                    assert forall|nm: Seq<char>|
                        name_set_view(declared_function_names).contains(nm) implies
                        #[trigger] fn_list_has_from(script.var_scoped@, i as int, nm) by {
                        if nm == name@ {
                            assert(script.var_scoped@[i as int] matches
                                VarScopedDecl::Function { name: nn, .. } && nn@ == nm);
                        } else {
                            assert(fn_list_has_from(script.var_scoped@, i as int + 1, nm));
                            let k = choose|k: int|
                                i as int + 1 <= k < script.var_scoped@.len() && ((
                                #[trigger] script.var_scoped@[k]) matches
                                    VarScopedDecl::Function { name: nn, .. } && nn@ == nm);
                            assert(fn_list_has_from(script.var_scoped@, i as int, nm));
                        }
                    }
                    if fn_list_has_from(script.var_scoped@, i as int + 1, name@) {
                        assert(script.var_scoped@[i as int] matches VarScopedDecl::Function {
                            name: nn,
                            ..
                        } ==> name_set_view(declared_function_names).contains(nn@));
                    }
                    assert(functions_to_initialize@.len() == distinct_fn_from(
                        script.var_scoped@,
                        i as int,
                    ));
                }
            },
            VarScopedDecl::Variable { .. } => {
                proof {
                    assert forall|nm: Seq<char>|
                        name_set_view(declared_function_names).contains(nm) implies
                        #[trigger] fn_list_has_from(script.var_scoped@, i as int, nm) by {
                        assert(fn_list_has_from(script.var_scoped@, i as int + 1, nm));
                        let k = choose|k: int|
                            i as int + 1 <= k < script.var_scoped@.len() && ((
                            #[trigger] script.var_scoped@[k]) matches VarScopedDecl::Function {
                                name: nn,
                                ..
                            } && nn@ == nm);
                        assert(fn_list_has_from(script.var_scoped@, i as int, nm));
                    }
                    assert(distinct_fn_from(script.var_scoped@, i as int) == distinct_fn_from(
                        script.var_scoped@,
                        i as int + 1,
                    ));
                }
            },
        }
    }

    proof {
        if agent0.env(var_env as int).kind is Global {
            assert(!fn_undeclarable(agent0.env(var_env as int), script.var_scoped@)) by {
                if fn_undeclarable(agent0.env(var_env as int), script.var_scoped@) {
                    let w = choose|w: int|
                        0 <= w < script.var_scoped@.len() && ((#[trigger] script.var_scoped@[w])
                            matches VarScopedDecl::Function { name, .. }
                            && !crate::env::can_declare_global_function_spec(
                            agent0.env(var_env as int),
                            name@,
                        ));
                    assert(script.var_scoped@[w] matches VarScopedDecl::Function { name, .. }
                        ==> name_set_view(declared_function_names).contains(name@));
                }
            }
        }
    }

    // 11.-12. Collect remaining var names, de-duplicated, skipping names
    // taken by a function declaration.
    let mut declared_var_names_strings = name_set_new();
    let mut declared_var_names: Vec<String> = Vec::new();
    let mut i2: usize = 0;
    while i2 < n
        invariant
            i2 <= n,
            *agent == agent0,
            agent0 == *old(agent),
            agent0.env_live(var_env as int),
            agent0.env_live(lex_env as int),
            n == script.var_scoped@.len(),
            forall|nm: Seq<char>|
                name_set_view(declared_var_names_strings).contains(nm) ==> str_list_has(
                    declared_var_names@,
                    nm,
                ),
            forall|j: int|
                0 <= j < i2 ==> decl_vars_covered(
                    #[trigger] script.var_scoped@[j],
                    declared_function_names,
                    declared_var_names_strings,
                ),
            forall|nm: Seq<char>|
                name_set_view(declared_var_names_strings).contains(nm) ==> !name_set_view(
                    declared_function_names,
                ).contains(nm),
            forall|q: int|
                0 <= q < declared_var_names@.len() ==> name_set_view(
                    declared_var_names_strings,
                ).contains((#[trigger] declared_var_names@[q])@),
            forall|q1: int, q2: int|
                #![trigger declared_var_names@[q1], declared_var_names@[q2]]
                0 <= q1 < q2 < declared_var_names@.len() ==> declared_var_names@[q1]@
                    != declared_var_names@[q2]@,
            no_conflict_after_check(agent0, var_env as int, lex_env as int, *script, strict_eval),
            agent0.env(var_env as int).kind is Global ==> !fn_undeclarable(
                agent0.env(var_env as int),
                script.var_scoped@,
            ),
            fn_names_collected(*script, declared_function_names, functions_to_initialize@),
        decreases n - i2,
    {
        match &script.var_scoped[i2] {
            VarScopedDecl::Variable { bound_names } => {
                let m = bound_names.len();
                let mut j: usize = 0;
                while j < m
                    invariant
                        j <= m,
                        i2 < n,
                        *agent == agent0,
                        agent0 == *old(agent),
                        agent0.env_live(var_env as int),
            agent0.env_live(lex_env as int),
                        n == script.var_scoped@.len(),
                        m == bound_names@.len(),
                        script.var_scoped@[i2 as int] == (VarScopedDecl::Variable {
                            bound_names: *bound_names,
                        }),
                        forall|nm: Seq<char>|
                            name_set_view(declared_var_names_strings).contains(nm)
                                ==> str_list_has(declared_var_names@, nm),
                        forall|jj: int|
                            0 <= jj < i2 ==> decl_vars_covered(
                                #[trigger] script.var_scoped@[jj],
                                declared_function_names,
                                declared_var_names_strings,
                            ),
                        forall|k: int|
                            0 <= k < j ==> name_set_view(declared_function_names).contains(
                                #[trigger] decl_bound_names(script.var_scoped@[i2 as int])[k],
                            ) || name_set_view(declared_var_names_strings).contains(
                                decl_bound_names(script.var_scoped@[i2 as int])[k],
                            ),
                        forall|nm: Seq<char>|
                            name_set_view(declared_var_names_strings).contains(nm) ==> !name_set_view(
                                declared_function_names,
                            ).contains(nm),
                        forall|q: int|
                            0 <= q < declared_var_names@.len() ==> name_set_view(
                                declared_var_names_strings,
                            ).contains((#[trigger] declared_var_names@[q])@),
                        forall|q1: int, q2: int|
                            #![trigger declared_var_names@[q1], declared_var_names@[q2]]
                            0 <= q1 < q2 < declared_var_names@.len() ==> declared_var_names@[q1]@
                                != declared_var_names@[q2]@,
                        fn_names_collected(
                            *script,
                            declared_function_names,
                            functions_to_initialize@,
                        ),
                        agent0.env(var_env as int).kind is Global ==> !fn_undeclarable(
                            agent0.env(var_env as int),
                            script.var_scoped@,
                        ),
                    decreases m - j,
                {
                    let vn = &bound_names[j];
                    proof {
                        assert(decl_bound_names(script.var_scoped@[i2 as int])[j as int]
                            == bound_names@[j as int]@);
                    }
                    if !name_set_contains(&declared_function_names, vn) {
                        if is_global {
                            let genv = agent.env_ref(var_env);
                            if !genv.can_declare_global_var(vn) {
                                return Err(
                                    JsError::new(
                                        ExceptionType::TypeError,
                                        "Cannot declare global variable",
                                    ),
                                );
                            }
                        }
                        if name_set_insert(&mut declared_var_names_strings, vn) {
                            let ghost pre = declared_var_names@;
                            declared_var_names.push(vn.clone());
                            proof {
                                assert(str_list_has(declared_var_names@, vn@)) by {
                                    assert(declared_var_names@[pre.len() as int]@ == vn@);
                                }
                                assert forall|nm: Seq<char>|
                                    name_set_view(declared_var_names_strings).contains(
                                        nm,
                                    ) implies str_list_has(declared_var_names@, nm) by {
                                    if nm != vn@ {
                                        assert(str_list_has(pre, nm));
                                        let w = choose|w: int|
                                            0 <= w < pre.len() && (#[trigger] pre[w])@ == nm;
                                        assert(declared_var_names@[w]@ == nm);
                                    }
                                }
                                assert forall|q: int|
                                    0 <= q < declared_var_names@.len() implies name_set_view(
                                    declared_var_names_strings,
                                ).contains((#[trigger] declared_var_names@[q])@) by {
                                    if q < pre.len() {
                                        assert(declared_var_names@[q] == pre[q]);
                                    } else {
                                        assert(declared_var_names@[q]@ == vn@);
                                    }
                                }
                                assert forall|q1: int, q2: int|
                                    #![trigger declared_var_names@[q1], declared_var_names@[q2]]
                                    0 <= q1 < q2 < declared_var_names@.len() implies
                                    declared_var_names@[q1]@ != declared_var_names@[q2]@ by {
                                    assert(declared_var_names@[q1] == pre[q1]);
                                    if q2 == pre.len() as int {
                                        assert(declared_var_names@[q2]@ == vn@);
                                    } else {
                                        assert(declared_var_names@[q2] == pre[q2]);
                                    }
                                }
                            }
                        }
                    }
                    j += 1;
                }
            },
            VarScopedDecl::Function { .. } => {},
        }
        i2 += 1;
    }

    // 15.-16. Pre-create the lexical bindings: const immutable, the rest
    // mutable and uninitialised.
    let ghost flat = lex_bound_names_flat(script.lex_scoped@);
    let ghost cflat = lex_const_flat(script.lex_scoped@);
    let ghost mut done: int = 0;
    proof {
        lemma_lex_flat_lens(script.lex_scoped@);
    }
    proof {
        assert(script.lex_scoped@.take(0) =~= Seq::<LexicalDecl>::empty());
    }
    let nl = script.lex_scoped.len();
    let mut i3: usize = 0;
    while i3 < nl
        invariant
            i3 <= nl,
            agent0 == *old(agent),
            nl == script.lex_scoped@.len(),
            agent.env_live(var_env as int),
            agent.env_live(lex_env as int),
            edi_frame(agent0, *agent, var_env as int, lex_env as int),
            agent.env(var_env as int).kind == agent0.env(var_env as int).kind,
            agent.env(lex_env as int).kind == agent0.env(lex_env as int).kind,
            agent.env(var_env as int).outer == agent0.env(var_env as int).outer,
            agent.env(lex_env as int).outer == agent0.env(lex_env as int).outer,
            agent.heap.functions@.len() == agent0.heap.functions@.len(),
            no_conflict_after_check(agent0, var_env as int, lex_env as int, *script, strict_eval),
            agent0.env(var_env as int).kind is Global ==> !fn_undeclarable(
                agent0.env(var_env as int),
                script.var_scoped@,
            ),
            fn_names_collected(*script, declared_function_names, functions_to_initialize@),
            vars_collection_summary(
                *script,
                declared_function_names,
                declared_var_names_strings,
                declared_var_names@,
            ),
            flat == lex_bound_names_flat(script.lex_scoped@),
            0 <= done <= flat.len(),
            done == lex_bound_names_flat(script.lex_scoped@.take(i3 as int)).len(),
            forall|nm: Seq<char>|
                #[trigger] lookup_binding(agent.env(lex_env as int).bindings@, nm)
                    == lookup_binding(agent0.env(lex_env as int).bindings@, nm) || ((
                lookup_binding(agent.env(lex_env as int).bindings@, nm) is Some) && seq_names_has(
                    flat.take(done),
                    nm,
                )),
            cflat == lex_const_flat(script.lex_scoped@),
            cflat.len() == flat.len(),
            forall|q: int|
                0 <= q < done ==> lex_name_bound(
                    agent.env(lex_env as int).bindings@,
                    #[trigger] flat[q],
                    cflat[q],
                    var_env != lex_env,
                ),
            var_env != lex_env ==> agent.env(var_env as int) == agent0.env(var_env as int),
            agent.env(var_env as int).var_bindings@ == agent0.env(var_env as int).var_bindings@,
        decreases nl - i3,
    {
        match &script.lex_scoped[i3] {
            LexicalDecl::Variable { is_const, bound_names } => {
                let m = bound_names.len();
                let mut j: usize = 0;
                while j < m
                    invariant
                        j <= m,
                        i3 < nl,
                        agent0 == *old(agent),
                        nl == script.lex_scoped@.len(),
                        m == bound_names@.len(),
                        script.lex_scoped@[i3 as int] == (LexicalDecl::Variable {
                            is_const: *is_const,
                            bound_names: *bound_names,
                        }),
                        agent.env_live(var_env as int),
                        agent.env_live(lex_env as int),
                        edi_frame(agent0, *agent, var_env as int, lex_env as int),
                        agent.env(var_env as int).kind == agent0.env(var_env as int).kind,
                        agent.env(lex_env as int).kind == agent0.env(lex_env as int).kind,
                        agent.env(var_env as int).outer == agent0.env(var_env as int).outer,
                        agent.env(lex_env as int).outer == agent0.env(lex_env as int).outer,
                        agent.heap.functions@.len() == agent0.heap.functions@.len(),
                        no_conflict_after_check(agent0, var_env as int, lex_env as int, *script, strict_eval),
                        agent0.env(var_env as int).kind is Global ==> !fn_undeclarable(
                            agent0.env(var_env as int),
                            script.var_scoped@,
                        ),
                        vars_collection_summary(
                            *script,
                            declared_function_names,
                            declared_var_names_strings,
                            declared_var_names@,
                        ),
                        fn_names_collected(
                            *script,
                            declared_function_names,
                            functions_to_initialize@,
                        ),
                        flat == lex_bound_names_flat(script.lex_scoped@),
                        0 <= done <= flat.len(),
                        done == lex_bound_names_flat(script.lex_scoped@.take(i3 as int)).len()
                            + j,
                        forall|nm: Seq<char>|
                            #[trigger] lookup_binding(agent.env(lex_env as int).bindings@, nm)
                                == lookup_binding(agent0.env(lex_env as int).bindings@, nm) || ((
                            lookup_binding(agent.env(lex_env as int).bindings@, nm) is Some)
                                && seq_names_has(flat.take(done), nm)),
                        cflat == lex_const_flat(script.lex_scoped@),
                        cflat.len() == flat.len(),
                        forall|q: int|
                            0 <= q < done ==> lex_name_bound(
                                agent.env(lex_env as int).bindings@,
                                #[trigger] flat[q],
                                cflat[q],
                                var_env != lex_env,
                            ),
                        var_env != lex_env ==> agent.env(var_env as int) == agent0.env(
                            var_env as int,
                        ),
                        agent.env(var_env as int).var_bindings@ == agent0.env(
                            var_env as int,
                        ).var_bindings@,
                    decreases m - j,
                {
                let ghost bs0 = agent.env(lex_env as int).bindings@;
                proof {
                    lemma_lex_flat_index(script.lex_scoped@, i3 as int, j as int);
                    assert(flat[done] == bound_names@[j as int]@);
                }
                let mut rec = agent.env_take(lex_env);
                let res = if *is_const {
                    rec.create_immutable_binding(&bound_names[j])
                } else {
                    rec.create_mutable_binding(&bound_names[j], false)
                };
                agent.env_put(lex_env, rec);
                match res {
                    Ok(_) => {
                        proof {
                            lemma_lex_dichotomy_step(
                                agent0.env(lex_env as int).bindings@,
                                bs0,
                                agent.env(lex_env as int).bindings@,
                                flat,
                                done,
                                bound_names@[j as int]@,
                            );
                            lemma_lex_const_index(script.lex_scoped@, i3 as int, j as int);
                            assert(cflat[done] == *is_const);
                            assert forall|q: int| 0 <= q <= done implies lex_name_bound(
                                agent.env(lex_env as int).bindings@,
                                #[trigger] flat[q],
                                cflat[q],
                                var_env != lex_env,
                            ) by {
                                if q < done {
                                    if flat[q] == bound_names@[j as int]@ {
                                        crate::env::lemma_binding_in_lookup(bs0, bound_names@[j as int]@);
                                    }
                                }
                            }
                            done = done + 1;
                        }
                    },
                    Err(e) => {
                        proof {
                            lemma_lex_create_clash(
                                agent0.env(lex_env as int).bindings@,
                                bs0,
                                flat,
                                done,
                                bound_names@[j as int]@,
                            );
                            assert(lex_clash(agent0.env(lex_env as int), script.lex_scoped@));
                        }
                        return Err(e);
                    },
                }
                    j += 1;
                }
                proof {
                    assert(script.lex_scoped@.take(i3 as int + 1).drop_last()
                        =~= script.lex_scoped@.take(i3 as int));
                    assert(script.lex_scoped@.take(i3 as int + 1).last()
                        == script.lex_scoped@[i3 as int]);
                }
            },
            LexicalDecl::Function { name } => {
                let ghost bs0 = agent.env(lex_env as int).bindings@;
                proof {
                    lemma_lex_flat_index(script.lex_scoped@, i3 as int, 0int);
                    assert(flat[done] == name@);
                }
                let mut rec = agent.env_take(lex_env);
                let res = rec.create_mutable_binding(name, false);
                agent.env_put(lex_env, rec);
                match res {
                    Ok(_) => {
                        proof {
                            lemma_lex_dichotomy_step(
                                agent0.env(lex_env as int).bindings@,
                                bs0,
                                agent.env(lex_env as int).bindings@,
                                flat,
                                done,
                                name@,
                            );
                            lemma_lex_const_index(script.lex_scoped@, i3 as int, 0int);
                            assert(cflat[done] == false);
                            assert forall|q: int| 0 <= q <= done implies lex_name_bound(
                                agent.env(lex_env as int).bindings@,
                                #[trigger] flat[q],
                                cflat[q],
                                var_env != lex_env,
                            ) by {
                                if q < done {
                                    if flat[q] == name@ {
                                        crate::env::lemma_binding_in_lookup(bs0, name@);
                                    }
                                }
                            }
                            done = done + 1;
                        }
                    },
                    Err(e) => {
                        proof {
                            lemma_lex_create_clash(
                                agent0.env(lex_env as int).bindings@,
                                bs0,
                                flat,
                                done,
                                name@,
                            );
                            assert(lex_clash(agent0.env(lex_env as int), script.lex_scoped@));
                        }
                        return Err(e);
                    },
                }
                proof {
                    assert(script.lex_scoped@.take(i3 as int + 1).drop_last()
                        =~= script.lex_scoped@.take(i3 as int));
                    assert(script.lex_scoped@.take(i3 as int + 1).last()
                        == script.lex_scoped@[i3 as int]);
                }
            },
            LexicalDecl::Class { name } => {
                let ghost bs0 = agent.env(lex_env as int).bindings@;
                proof {
                    lemma_lex_flat_index(script.lex_scoped@, i3 as int, 0int);
                    assert(flat[done] == name@);
                }
                let mut rec = agent.env_take(lex_env);
                let res = rec.create_mutable_binding(name, false);
                agent.env_put(lex_env, rec);
                match res {
                    Ok(_) => {
                        proof {
                            lemma_lex_dichotomy_step(
                                agent0.env(lex_env as int).bindings@,
                                bs0,
                                agent.env(lex_env as int).bindings@,
                                flat,
                                done,
                                name@,
                            );
                            lemma_lex_const_index(script.lex_scoped@, i3 as int, 0int);
                            assert(cflat[done] == false);
                            assert forall|q: int| 0 <= q <= done implies lex_name_bound(
                                agent.env(lex_env as int).bindings@,
                                #[trigger] flat[q],
                                cflat[q],
                                var_env != lex_env,
                            ) by {
                                if q < done {
                                    if flat[q] == name@ {
                                        crate::env::lemma_binding_in_lookup(bs0, name@);
                                    }
                                }
                            }
                            done = done + 1;
                        }
                    },
                    Err(e) => {
                        proof {
                            lemma_lex_create_clash(
                                agent0.env(lex_env as int).bindings@,
                                bs0,
                                flat,
                                done,
                                name@,
                            );
                            assert(lex_clash(agent0.env(lex_env as int), script.lex_scoped@));
                        }
                        return Err(e);
                    },
                }
                proof {
                    assert(script.lex_scoped@.take(i3 as int + 1).drop_last()
                        =~= script.lex_scoped@.take(i3 as int));
                    assert(script.lex_scoped@.take(i3 as int + 1).last()
                        == script.lex_scoped@[i3 as int]);
                }
            },
            LexicalDecl::DefaultExport => {
                let default_name = String::from_str("*default*");
                proof {
                    reveal_strlit("*default*");
                    assert(default_name@ == "*default*"@);
                }
                let ghost bs0 = agent.env(lex_env as int).bindings@;
                proof {
                    lemma_lex_flat_index(script.lex_scoped@, i3 as int, 0int);
                    assert(flat[done] == default_name@);
                }
                let mut rec = agent.env_take(lex_env);
                let res = rec.create_mutable_binding(&default_name, false);
                agent.env_put(lex_env, rec);
                match res {
                    Ok(_) => {
                        proof {
                            lemma_lex_dichotomy_step(
                                agent0.env(lex_env as int).bindings@,
                                bs0,
                                agent.env(lex_env as int).bindings@,
                                flat,
                                done,
                                default_name@,
                            );
                            lemma_lex_const_index(script.lex_scoped@, i3 as int, 0int);
                            assert(cflat[done] == false);
                            assert forall|q: int| 0 <= q <= done implies lex_name_bound(
                                agent.env(lex_env as int).bindings@,
                                #[trigger] flat[q],
                                cflat[q],
                                var_env != lex_env,
                            ) by {
                                if q < done {
                                    if flat[q] == default_name@ {
                                        crate::env::lemma_binding_in_lookup(bs0, default_name@);
                                    }
                                }
                            }
                            done = done + 1;
                        }
                    },
                    Err(e) => {
                        proof {
                            lemma_lex_create_clash(
                                agent0.env(lex_env as int).bindings@,
                                bs0,
                                flat,
                                done,
                                default_name@,
                            );
                            assert(lex_clash(agent0.env(lex_env as int), script.lex_scoped@));
                        }
                        return Err(e);
                    },
                }
                proof {
                    assert(script.lex_scoped@.take(i3 as int + 1).drop_last()
                        =~= script.lex_scoped@.take(i3 as int));
                    assert(script.lex_scoped@.take(i3 as int + 1).last()
                        == script.lex_scoped@[i3 as int]);
                }
            },
        }
        i3 += 1;
    }
    proof {
        assert(script.lex_scoped@.take(nl as int) =~= script.lex_scoped@);
        assert forall|nm: Seq<char>|
            ((#[trigger] lookup_binding(agent.env(var_env as int).bindings@, nm)) matches Some(b)
                && !b.mutable) implies ((lookup_binding(
            agent0.env(var_env as int).bindings@,
            nm,
        ) matches Some(b0) && !b0.mutable) || (var_env == lex_env && seq_names_has(
            lex_bound_names_flat(script.lex_scoped@),
            nm,
        ))) by {
            if var_env == lex_env {
                if lookup_binding(agent.env(var_env as int).bindings@, nm) != lookup_binding(
                    agent0.env(var_env as int).bindings@,
                    nm,
                ) {
                    let q = choose|q: int|
                        0 <= q < flat.take(done).len() && flat.take(done)[q] == nm;
                    assert(flat[q] == nm);
                }
            }
        }
        assert(imm_provenance(agent0, *agent, var_env as int, lex_env as int, *script));
    }

    // 17. Instantiate and bind the collected functions.
    let nf = functions_to_initialize.len();
    let mut i4: usize = 0;
    while i4 < nf
        invariant
            i4 <= nf,
            agent0 == *old(agent),
            nf == functions_to_initialize@.len(),
            agent.env_live(var_env as int),
            agent.env_live(lex_env as int),
            edi_frame(agent0, *agent, var_env as int, lex_env as int),
            agent.env(var_env as int).kind == agent0.env(var_env as int).kind,
            agent.env(lex_env as int).kind == agent0.env(lex_env as int).kind,
            agent.env(var_env as int).outer == agent0.env(var_env as int).outer,
            agent.env(lex_env as int).outer == agent0.env(lex_env as int).outer,
            is_global == (agent0.env(var_env as int).kind is Global),
            agent.heap.functions@.len() == agent0.heap.functions@.len() + i4,
            agent0.heap.functions@.len() + nf < u32::MAX,
            forall|k: int|
                0 <= k < functions_to_initialize@.len() ==> (
                #[trigger] functions_to_initialize@[k]) is Function,
            forall|k: int|
                0 <= k < i4 ==> ((#[trigger] functions_to_initialize@[k]) matches
                    VarScopedDecl::Function { name, .. } ==> env_binds_var(
                    *agent,
                    var_env as int,
                    name@,
                )),
            no_conflict_after_check(agent0, var_env as int, lex_env as int, *script, strict_eval),
            agent0.env(var_env as int).kind is Global ==> !fn_undeclarable(
                agent0.env(var_env as int),
                script.var_scoped@,
            ),
            fn_names_collected(*script, declared_function_names, functions_to_initialize@),
            vars_collection_summary(
                *script,
                declared_function_names,
                declared_var_names_strings,
                declared_var_names@,
            ),
            flat == lex_bound_names_flat(script.lex_scoped@),
            cflat == lex_const_flat(script.lex_scoped@),
            cflat.len() == flat.len(),
            forall|q: int|
                0 <= q < flat.len() ==> lex_name_bound(
                    agent.env(lex_env as int).bindings@,
                    #[trigger] flat[q],
                    cflat[q],
                    var_env != lex_env,
                ),
            imm_provenance(agent0, *agent, var_env as int, lex_env as int, *script),
            (agent0.env(var_env as int).kind is Global || var_env != lex_env) ==> (forall|
                nm: Seq<char>,
            |
                !fn_list_has(script.var_scoped@, nm) ==> #[trigger] var_binding_lookup(
                    *agent,
                    var_env as int,
                    nm,
                ) == var_binding_lookup(agent0, var_env as int, nm)),
            forall|k: int|
                0 <= k < i4 ==> #[trigger] fti_bound(
                    functions_to_initialize@,
                    k,
                    *agent,
                    var_env as int,
                ),
        decreases nf - i4,
    {
        let ghost a_head = *agent;
        let (name, is_async, is_generator) = match &functions_to_initialize[i4] {
            VarScopedDecl::Function { name, is_async, is_generator } => (
                name.clone(),
                *is_async,
                *is_generator,
            ),
            VarScopedDecl::Variable { .. } => {
                return Err(JsError::new(ExceptionType::TypeError, "Unexpected declaration kind"));
            },
        };
        let f = instantiate_function_object(agent, &name, is_async, is_generator);
        let fo = Value::Function(f);
        let ghost bs_v = agent.env(var_env as int).bindings@;
        let mut rec = agent.env_take(var_env);
        if matches!(rec.kind, EnvironmentKind::Global) {
            rec.create_global_function_binding(&name, fo);
            agent.env_put(var_env, rec);
        } else {
            if rec.has_binding(&name) {
                let res = rec.set_mutable_binding(&name, fo);
                agent.env_put(var_env, rec);
                match res {
                    Ok(_) => {
                        proof {
                            assert forall|q: int| 0 <= q < flat.len() implies lex_name_bound(
                                agent.env(lex_env as int).bindings@,
                                #[trigger] flat[q],
                                cflat[q],
                                var_env != lex_env,
                            ) by {
                                if var_env == lex_env && flat[q] == name@ {
                                    crate::env::lemma_binding_in_lookup(bs_v, name@);
                                }
                            }
                        }
                    },
                    Err(e) => {
                        proof {
                            crate::env::lemma_binding_in_lookup(bs_v, name@);
                            assert(lookup_binding(bs_v, name@) is Some);
                            assert(!lookup_binding(bs_v, name@).unwrap().mutable);
                            assert(fn_list_has(script.var_scoped@, name@));
                            let w = choose|w: int|
                                0 <= w < script.var_scoped@.len() && ((
                                #[trigger] script.var_scoped@[w]) matches
                                    VarScopedDecl::Function { name: nn, .. } && nn@ == name@);
                            if lookup_binding(
                                agent0.env(var_env as int).bindings@,
                                name@,
                            ) matches Some(b0) && !b0.mutable {
                                assert(fn_meets_immutable(
                                    agent0.env(var_env as int),
                                    script.var_scoped@,
                                ));
                            } else {
                                assert(var_env == lex_env && seq_names_has(
                                    lex_bound_names_flat(script.lex_scoped@),
                                    name@,
                                ));
                                assert(fn_name_lexical(*script));
                            }
                            assert(edi_error_cause(
                                agent0,
                                *script,
                                var_env as int,
                                lex_env as int,
                                strict_eval,
                            ));
                        }
                        return Err(e);
                    },
                }
            } else {
                let res = rec.create_mutable_binding(&name, true);
                match res {
                    Ok(_) => {},
                    Err(e) => {
                        agent.env_put(var_env, rec);
                        return Err(e);
                    },
                }
                let res2 = rec.initialize_binding(&name, fo);
                agent.env_put(var_env, rec);
                match res2 {
                    Ok(_) => {
                        proof {
                            assert forall|q: int| 0 <= q < flat.len() implies lex_name_bound(
                                agent.env(lex_env as int).bindings@,
                                #[trigger] flat[q],
                                cflat[q],
                                var_env != lex_env,
                            ) by {
                                if var_env == lex_env && flat[q] == name@ {
                                    crate::env::lemma_binding_in_lookup(bs_v, name@);
                                }
                            }
                        }
                    },
                    Err(e) => {
                        return Err(e);
                    },
                }
            }
        }
        proof {
            assert(env_binds_var(*agent, var_env as int, name@));
            assert(fn_list_has(script.var_scoped@, name@));
            if agent0.env(var_env as int).kind is Global || var_env != lex_env {
                assert forall|nm: Seq<char>|
                    !fn_list_has(script.var_scoped@, nm) implies #[trigger] var_binding_lookup(
                    *agent,
                    var_env as int,
                    nm,
                ) == var_binding_lookup(agent0, var_env as int, nm) by {
                    assert(nm != name@);
                    assert(var_binding_lookup(a_head, var_env as int, nm)
                        == var_binding_lookup(agent0, var_env as int, nm));
                }
            }
            assert forall|k: int| 0 <= k < i4 + 1 implies #[trigger] fti_bound(
                functions_to_initialize@,
                k,
                *agent,
                var_env as int,
            ) by {
                if k < i4 {
                    assert(fn_names_differ(functions_to_initialize@, k, i4 as int));
                    match functions_to_initialize@[k] {
                        VarScopedDecl::Function { name: nk, .. } => {
                            assert(fti_bound(functions_to_initialize@, k, a_head, var_env as int));
                            assert(nk@ != name@);
                        },
                        VarScopedDecl::Variable { .. } => {},
                    }
                }
            }
        }
        i4 += 1;
    }

    // 18. Bind the var names and initialise them to undefined.
    let nv = declared_var_names.len();
    let mut i5: usize = 0;
    while i5 < nv
        invariant
            i5 <= nv,
            agent0 == *old(agent),
            nv == declared_var_names@.len(),
            agent.env_live(var_env as int),
            agent.env_live(lex_env as int),
            edi_frame(agent0, *agent, var_env as int, lex_env as int),
            agent.env(var_env as int).kind == agent0.env(var_env as int).kind,
            agent.env(lex_env as int).kind == agent0.env(lex_env as int).kind,
            agent.env(var_env as int).outer == agent0.env(var_env as int).outer,
            agent.env(lex_env as int).outer == agent0.env(lex_env as int).outer,
            forall|k: int|
                0 <= k < i5 ==> env_binds_var(
                    *agent,
                    var_env as int,
                    (#[trigger] declared_var_names@[k])@,
                ),
            fn_bound_preserved(*agent, var_env as int, functions_to_initialize@),
            no_conflict_after_check(agent0, var_env as int, lex_env as int, *script, strict_eval),
            agent0.env(var_env as int).kind is Global ==> !fn_undeclarable(
                agent0.env(var_env as int),
                script.var_scoped@,
            ),
            fn_names_collected(*script, declared_function_names, functions_to_initialize@),
            vars_collection_summary(
                *script,
                declared_function_names,
                declared_var_names_strings,
                declared_var_names@,
            ),
            flat == lex_bound_names_flat(script.lex_scoped@),
            cflat == lex_const_flat(script.lex_scoped@),
            cflat.len() == flat.len(),
            forall|q: int|
                0 <= q < flat.len() ==> lex_name_bound(
                    agent.env(lex_env as int).bindings@,
                    #[trigger] flat[q],
                    cflat[q],
                    var_env != lex_env,
                ),
            agent.heap.functions@.len() == agent0.heap.functions@.len()
                + functions_to_initialize@.len(),
            (agent0.env(var_env as int).kind is Global || var_env != lex_env) ==> (forall|
                nm: Seq<char>,
            |
                (!fn_list_has(script.var_scoped@, nm) && !str_prefix_has(
                    declared_var_names@,
                    i5 as int,
                    nm,
                )) ==> #[trigger] var_binding_lookup(*agent, var_env as int, nm)
                    == var_binding_lookup(agent0, var_env as int, nm)),
            (agent0.env(var_env as int).kind is Global || var_env != lex_env) ==> (forall|
                q: int,
            |
                0 <= q < i5 ==> var_name_outcome(
                    agent0,
                    *agent,
                    var_env as int,
                    (#[trigger] declared_var_names@[q])@,
                )),
            forall|k: int|
                0 <= k < functions_to_initialize@.len() ==> #[trigger] fti_bound(
                    functions_to_initialize@,
                    k,
                    *agent,
                    var_env as int,
                ),
        decreases nv - i5,
    {
        let vn = &declared_var_names[i5];
        let ghost a_head = *agent;
        let ghost bs_v5 = agent.env(var_env as int).bindings@;
        let mut rec = agent.env_take(var_env);
        if matches!(rec.kind, EnvironmentKind::Global) {
            rec.create_global_var_binding(vn);
            agent.env_put(var_env, rec);
        } else {
            if !rec.has_binding(vn) {
                let res = rec.create_mutable_binding(vn, true);
                match res {
                    Ok(_) => {},
                    Err(e) => {
                        agent.env_put(var_env, rec);
                        return Err(e);
                    },
                }
                let res2 = rec.initialize_binding(vn, Value::Undefined);
                agent.env_put(var_env, rec);
                match res2 {
                    Ok(_) => {
                        proof {
                            assert forall|q: int| 0 <= q < flat.len() implies lex_name_bound(
                                agent.env(lex_env as int).bindings@,
                                #[trigger] flat[q],
                                cflat[q],
                                var_env != lex_env,
                            ) by {
                                if var_env == lex_env && flat[q] == vn@ {
                                    crate::env::lemma_binding_in_lookup(bs_v5, vn@);
                                }
                            }
                        }
                    },
                    Err(e) => {
                        return Err(e);
                    },
                }
            } else {
                agent.env_put(var_env, rec);
            }
        }
        proof {
            assert(env_binds_var(*agent, var_env as int, vn@));
            assert(name_set_view(declared_var_names_strings).contains(vn@));
            assert(!name_set_view(declared_function_names).contains(vn@));
            assert(!fn_list_has(script.var_scoped@, vn@)) by {
                if fn_list_has(script.var_scoped@, vn@) {
                    let w = choose|w: int|
                        0 <= w < script.var_scoped@.len() && ((#[trigger] script.var_scoped@[w])
                            matches VarScopedDecl::Function { name: nn, .. } && nn@ == vn@);
                    assert(script.var_scoped@[w] matches VarScopedDecl::Function { name, .. }
                        ==> name_set_view(declared_function_names).contains(name@));
                }
            }
            assert forall|k: int|
                0 <= k < functions_to_initialize@.len() implies #[trigger] fti_bound(
                functions_to_initialize@,
                k,
                *agent,
                var_env as int,
            ) by {
                match functions_to_initialize@[k] {
                    VarScopedDecl::Function { name: nk, .. } => {
                        assert(fti_bound(functions_to_initialize@, k, a_head, var_env as int));
                        assert(name_set_view(declared_function_names).contains(nk@));
                        assert(nk@ != vn@);
                    },
                    VarScopedDecl::Variable { .. } => {},
                }
            }
            if agent0.env(var_env as int).kind is Global || var_env != lex_env {
                assert(!str_prefix_has(declared_var_names@, i5 as int, vn@)) by {
                    if str_prefix_has(declared_var_names@, i5 as int, vn@) {
                        let q = choose|q: int|
                            0 <= q < i5 && q < declared_var_names@.len() && (
                            #[trigger] declared_var_names@[q])@ == vn@;
                        assert(declared_var_names@[q]@ != declared_var_names@[i5 as int]@);
                    }
                }
                assert(var_binding_lookup(a_head, var_env as int, vn@) == var_binding_lookup(
                    agent0,
                    var_env as int,
                    vn@,
                ));
                if var_binding_lookup(agent0, var_env as int, vn@) is Some {
                    if agent0.env(var_env as int).kind is Global {
                        crate::env::lemma_binding_in_lookup(
                            a_head.env(var_env as int).var_bindings@,
                            vn@,
                        );
                    } else {
                        crate::env::lemma_binding_in_lookup(bs_v5, vn@);
                    }
                } else {
                    if agent0.env(var_env as int).kind is Global {
                        crate::env::lemma_binding_in_lookup(
                            a_head.env(var_env as int).var_bindings@,
                            vn@,
                        );
                    } else {
                        crate::env::lemma_binding_in_lookup(bs_v5, vn@);
                    }
                }
                assert(var_name_outcome(agent0, *agent, var_env as int, vn@));
                assert forall|nm: Seq<char>|
                    (!fn_list_has(script.var_scoped@, nm) && !str_prefix_has(
                        declared_var_names@,
                        i5 as int + 1,
                        nm,
                    )) implies #[trigger] var_binding_lookup(*agent, var_env as int, nm)
                    == var_binding_lookup(agent0, var_env as int, nm) by {
                    assert(nm != vn@) by {
                        if nm == vn@ {
                            assert(declared_var_names@[i5 as int]@ == nm);
                        }
                    }
                    assert(!str_prefix_has(declared_var_names@, i5 as int, nm)) by {
                        if str_prefix_has(declared_var_names@, i5 as int, nm) {
                            let q = choose|q: int|
                                0 <= q < i5 && q < declared_var_names@.len() && (
                                #[trigger] declared_var_names@[q])@ == nm;
                            assert(str_prefix_has(declared_var_names@, i5 as int + 1, nm));
                        }
                    }
                    assert(var_binding_lookup(a_head, var_env as int, nm) == var_binding_lookup(
                        agent0,
                        var_env as int,
                        nm,
                    ));
                }
                assert forall|q: int| 0 <= q < i5 + 1 implies var_name_outcome(
                    agent0,
                    *agent,
                    var_env as int,
                    (#[trigger] declared_var_names@[q])@,
                ) by {
                    if q < i5 {
                        assert(var_name_outcome(
                            agent0,
                            a_head,
                            var_env as int,
                            declared_var_names@[q]@,
                        ));
                        assert(declared_var_names@[q]@ != vn@);
                    }
                }
            }
        }
        i5 += 1;
    }

    proof {
        assert forall|i: int|
            0 <= i < script.var_scoped@.len() implies decl_vars_bound(
            *agent,
            var_env as int,
            #[trigger] script.var_scoped@[i],
        ) by {
            let d = script.var_scoped@[i];
            assert forall|k: int|
                0 <= k < decl_bound_names(d).len() implies env_binds_var(
                *agent,
                var_env as int,
                #[trigger] decl_bound_names(d)[k],
            ) by {
                let nm = decl_bound_names(d)[k];
                match d {
                    VarScopedDecl::Function { name, .. } => {
                        assert(nm == name@);
                        assert(name_set_view(declared_function_names).contains(nm));
                        assert(fn_list_has(functions_to_initialize@, nm));
                        let w = choose|w: int|
                            0 <= w < functions_to_initialize@.len() && ((
                            #[trigger] functions_to_initialize@[w]) matches
                                VarScopedDecl::Function { name: nn, .. } && nn@ == nm);
                        assert(env_binds_var(*agent, var_env as int, nm));
                    },
                    VarScopedDecl::Variable { .. } => {
                        assert(decl_vars_covered(
                            d,
                            declared_function_names,
                            declared_var_names_strings,
                        ));
                        if name_set_view(declared_function_names).contains(nm) {
                            assert(fn_list_has(functions_to_initialize@, nm));
                            let w = choose|w: int|
                                0 <= w < functions_to_initialize@.len() && ((
                                #[trigger] functions_to_initialize@[w]) matches
                                    VarScopedDecl::Function { name: nn, .. } && nn@ == nm);
                            assert(env_binds_var(*agent, var_env as int, nm));
                        } else {
                            assert(name_set_view(declared_var_names_strings).contains(nm));
                            assert(str_list_has(declared_var_names@, nm));
                            let w = choose|w: int|
                                0 <= w < declared_var_names@.len() && (
                                #[trigger] declared_var_names@[w])@ == nm;
                            assert(env_binds_var(*agent, var_env as int, nm));
                        }
                    },
                }
            }
        }
        assert forall|j: int|
            0 <= j < script.var_scoped@.len() implies ((#[trigger] script.var_scoped@[j]) matches
                VarScopedDecl::Function { name, .. } ==> fn_binding_outcome(
                *agent,
                var_env as int,
                name@,
                last_fn_flags(script.var_scoped@, name@).0,
                last_fn_flags(script.var_scoped@, name@).1,
            )) by {
            match script.var_scoped@[j] {
                VarScopedDecl::Function { name, .. } => {
                    assert(name_set_view(declared_function_names).contains(name@));
                    assert(fn_list_has(functions_to_initialize@, name@));
                    let w = choose|w: int|
                        0 <= w < functions_to_initialize@.len() && ((
                        #[trigger] functions_to_initialize@[w]) matches VarScopedDecl::Function {
                            name: nn,
                            ..
                        } && nn@ == name@);
                    assert(fti_bound(functions_to_initialize@, w, *agent, var_env as int));
                    assert(fti_flags_last(functions_to_initialize@, w, script.var_scoped@));
                    assert(fn_binding_outcome(
                        *agent,
                        var_env as int,
                        name@,
                        last_fn_flags(script.var_scoped@, name@).0,
                        last_fn_flags(script.var_scoped@, name@).1,
                    ));
                },
                VarScopedDecl::Variable { .. } => {},
            }
        }
        assert(edi_fn_outcomes(*agent, var_env as int, *script));
        if agent0.env(var_env as int).kind is Global || var_env != lex_env {
            assert forall|j: int, k: int|
                0 <= j < script.var_scoped@.len() implies #[trigger] var_decl_name_outcome(
                agent0,
                *agent,
                var_env as int,
                *script,
                j,
                k,
            ) by {
                match script.var_scoped@[j] {
                    VarScopedDecl::Variable { bound_names } => {
                        if 0 <= k < bound_names@.len() && !fn_list_has(
                            script.var_scoped@,
                            bound_names@[k]@,
                        ) {
                            let nm = bound_names@[k]@;
                            assert(decl_vars_covered(
                                script.var_scoped@[j],
                                declared_function_names,
                                declared_var_names_strings,
                            ));
                            assert(decl_bound_names(script.var_scoped@[j])[k] == nm);
                            if name_set_view(declared_function_names).contains(nm) {
                                assert(fn_list_has(functions_to_initialize@, nm));
                                let w = choose|w: int|
                                    0 <= w < functions_to_initialize@.len() && ((
                                    #[trigger] functions_to_initialize@[w]) matches
                                        VarScopedDecl::Function { name: nn, .. } && nn@ == nm);
                                assert(fn_list_has(script.var_scoped@, nm));
                            } else {
                                assert(name_set_view(declared_var_names_strings).contains(nm));
                                assert(str_list_has(declared_var_names@, nm));
                                let q = choose|q: int|
                                    0 <= q < declared_var_names@.len() && (
                                    #[trigger] declared_var_names@[q])@ == nm;
                                assert(var_name_outcome(agent0, *agent, var_env as int, nm));
                            }
                        }
                    },
                    VarScopedDecl::Function { .. } => {},
                }
            }
            assert(edi_var_outcomes(agent0, *agent, var_env as int, *script));
        }
        assert forall|i: int|
            0 <= i < script.var_scoped@.len() implies decl_fn_bound(
            *agent,
            var_env as int,
            #[trigger] script.var_scoped@[i],
        ) by {
            match script.var_scoped@[i] {
                VarScopedDecl::Function { name, .. } => {
                    assert(name_set_view(declared_function_names).contains(name@));
                    assert(fn_list_has(functions_to_initialize@, name@));
                    let w = choose|w: int|
                        0 <= w < functions_to_initialize@.len() && ((
                        #[trigger] functions_to_initialize@[w]) matches VarScopedDecl::Function {
                            name: nn,
                            ..
                        } && nn@ == name@);
                    assert(env_binds_var(*agent, var_env as int, name@));
                },
                _ => {},
            }
        }
    }
    Ok(())
}

/// A var name collides with a binding of a non-object environment layer
/// strictly between the lexical and the variable environment (walking
/// outward within the depth bound).
pub open spec fn chain_conflict(
    a: Agent,
    e: int,
    var_env: int,
    names: Seq<Seq<char>>,
    fuel: nat,
) -> bool
    decreases fuel,
{
    if fuel == 0 {
        false
    } else if e == var_env {
        false
    } else if !a.env_live(e) {
        false
    } else {
        (!(a.env(e).kind is Object) && (exists|i: int|
            0 <= i < names.len() && binding_in(a.env(e).bindings@, #[trigger] names[i]))) || (
        match a.env(e).outer {
            Some(o) => chain_conflict(a, o as int, var_env, names, (fuel - 1) as nat),
            None => false,
        })
    }
}

/// After the sloppy-mode checks have passed, neither the global lexical
/// conflict nor a chain conflict can remain.
pub open spec fn no_conflict_after_check(
    a0: Agent,
    var_env: int,
    lex_env: int,
    s: ScriptDecls,
    strict: bool,
) -> bool {
    !strict ==> ((a0.env(var_env).kind is Global ==> !global_lexical_conflict(a0, var_env, s))
        && !chain_conflict(
        a0,
        lex_env,
        var_env,
        var_declared_names_spec(s.var_scoped@),
        crate::array::PROTO_CHAIN_LIMIT as nat,
    ))
}

/// The function-collection loop's summary: every function declaration's
/// name is in the de-duplication set, and every name in the set has a
/// collected function.
pub open spec fn fn_names_collected(
    s: ScriptDecls,
    dfn: ahash::AHashSet<String, ahash::RandomState>,
    ftoi: Seq<VarScopedDecl>,
) -> bool {
    &&& (forall|j: int|
        0 <= j < s.var_scoped@.len() ==> ((#[trigger] s.var_scoped@[j]) matches
            VarScopedDecl::Function { name, .. } ==> name_set_view(dfn).contains(name@)))
    &&& (forall|nm: Seq<char>| name_set_view(dfn).contains(nm) ==> #[trigger] fn_list_has(
        ftoi,
        nm,
    ))
    &&& (forall|k: int|
        0 <= k < ftoi.len() ==> ((#[trigger] ftoi[k]) matches VarScopedDecl::Function {
            name,
            ..
        } ==> fn_list_has(s.var_scoped@, name@)))
    &&& (forall|k: int|
        0 <= k < ftoi.len() ==> ((#[trigger] ftoi[k]) matches VarScopedDecl::Function {
            name,
            ..
        } ==> name_set_view(dfn).contains(name@)))
    &&& (forall|k1: int, k2: int|
        0 <= k1 < k2 < ftoi.len() ==> #[trigger] fn_names_differ(ftoi, k1, k2))
    &&& (forall|k: int|
        0 <= k < ftoi.len() ==> #[trigger] fti_flags_last(ftoi, k, s.var_scoped@))
}

/// Whether a collected function list holds a function with this name.
pub open spec fn fn_list_has(fs: Seq<VarScopedDecl>, nm: Seq<char>) -> bool {
    exists|i: int|
        0 <= i < fs.len() && ((#[trigger] fs[i]) matches VarScopedDecl::Function { name, .. }
            && name@ == nm)
}

/// Whether a function declaration with this name stands at or after `j`.
pub open spec fn fn_list_has_from(ds: Seq<VarScopedDecl>, j: int, nm: Seq<char>) -> bool {
    exists|k: int|
        j <= k < ds.len() && ((#[trigger] ds[k]) matches VarScopedDecl::Function { name, .. }
            && name@ == nm)
}

/// How many distinct function names the declarations from `i` on bind:
/// each name is counted at its last declaration.
pub open spec fn distinct_fn_from(ds: Seq<VarScopedDecl>, i: int) -> int
    decreases ds.len() - i,
{
    if i < 0 || i >= ds.len() {
        0
    } else {
        distinct_fn_from(ds, i + 1) + (if ds[i] matches VarScopedDecl::Function { name, .. }
            && !fn_list_has_from(ds, i + 1, ds[i]->Function_name@) {
            1int
        } else {
            0int
        })
    }
}

/// Whether a string list holds this name.
pub open spec fn str_list_has(ss: Seq<String>, nm: Seq<char>) -> bool {
    exists|i: int| 0 <= i < ss.len() && (#[trigger] ss[i])@ == nm
}

/// What the two collection passes leave behind: every variable-declared
/// name sits in one of the de-duplication sets, and the var-name set is
/// mirrored by the collected list.
pub open spec fn vars_collection_summary(
    s: ScriptDecls,
    dfn: ahash::AHashSet<String, ahash::RandomState>,
    dvs: ahash::AHashSet<String, ahash::RandomState>,
    dvn: Seq<String>,
) -> bool {
    &&& (forall|j: int|
        0 <= j < s.var_scoped@.len() ==> decl_vars_covered(
            #[trigger] s.var_scoped@[j],
            dfn,
            dvs,
        ))
    &&& (forall|nm: Seq<char>|
        name_set_view(dvs).contains(nm) ==> #[trigger] str_list_has(dvn, nm))
    &&& (forall|nm: Seq<char>|
        name_set_view(dvs).contains(nm) ==> !name_set_view(dfn).contains(nm))
    &&& (forall|q: int| 0 <= q < dvn.len() ==> name_set_view(dvs).contains((#[trigger] dvn[q])@))
    &&& (forall|q1: int, q2: int|
        #![trigger dvn[q1], dvn[q2]]
        0 <= q1 < q2 < dvn.len() ==> dvn[q1]@ != dvn[q2]@)
}

/// Every name a declaration binds is present in the variable environment.
pub open spec fn decl_vars_bound(a: Agent, e: int, d: VarScopedDecl) -> bool {
    forall|k: int|
        0 <= k < decl_bound_names(d).len() ==> env_binds_var(
            a,
            e,
            #[trigger] decl_bound_names(d)[k],
        )
}

/// During collection, every bound name of a variable declaration is in one
/// of the two de-duplication sets.
pub open spec fn decl_vars_covered(
    d: VarScopedDecl,
    dfn: ahash::AHashSet<String, ahash::RandomState>,
    dvs: ahash::AHashSet<String, ahash::RandomState>,
) -> bool {
    d is Variable ==> (forall|k: int|
        0 <= k < decl_bound_names(d).len() ==> name_set_view(dfn).contains(
            #[trigger] decl_bound_names(d)[k],
        ) || name_set_view(dvs).contains(decl_bound_names(d)[k]))
}

/// A function declaration's name is bound in the variable environment.
pub open spec fn decl_fn_bound(a: Agent, e: int, d: VarScopedDecl) -> bool {
    match d {
        VarScopedDecl::Function { name, .. } => env_binds_var(a, e, name@),
        _ => true,
    }
}

/// Every name the collected functions carry stays bound.
pub open spec fn fn_bound_preserved(a: Agent, var_env: int, fs: Seq<VarScopedDecl>) -> bool {
    forall|k: int|
        0 <= k < fs.len() ==> ((#[trigger] fs[k]) matches VarScopedDecl::Function { name, .. }
            ==> env_binds_var(a, var_env, name@))
}


// ---- PerformEval ---------------------------------------------------------


/// The agent as PerformEval stands after pushing the fresh declarative
/// lexical environment: `a0`'s environments plus one empty declarative
/// record over `parent`, with the heap and realm untouched.
pub open spec fn eval_mid_shape(a0: Agent, mid: Agent, parent: u32) -> bool {
    &&& mid.heap == a0.heap
    &&& mid.realm == a0.realm
    &&& mid.envs@.len() == a0.envs@.len() + 1
    &&& (forall|t: int| 0 <= t < a0.envs@.len() ==> #[trigger] mid.envs@[t] == a0.envs@[t])
    &&& mid.env_live(a0.envs@.len() as int)
    &&& (mid.env(a0.envs@.len() as int).kind is Declarative)
    &&& mid.env(a0.envs@.len() as int).outer == Some(parent)
    &&& mid.env(a0.envs@.len() as int).bindings@.len() == 0
    &&& mid.env(a0.envs@.len() as int).var_bindings@.len() == 0
}

/// One agent witnesses a PerformEval error: it has the shape PerformEval
/// builds (the caller's agent plus the fresh lexical environment) and
/// declaration instantiation meets a named obstacle on it.
pub open spec fn eval_err_witness(
    a0: Agent,
    mid: Agent,
    s: ScriptDecls,
    direct: bool,
    strict_caller: bool,
) -> bool {
    let strict_eval = strict_caller || s.has_use_strict;
    let lex = a0.envs@.len() as int;
    let parent = if direct {
        a0.execution_context_stack@.last().lexical_environment
    } else {
        a0.realm.global_env.unwrap()
    };
    let var_ns = if direct {
        a0.execution_context_stack@.last().variable_environment as int
    } else {
        a0.realm.global_env.unwrap() as int
    };
    let var = if strict_eval {
        lex
    } else {
        var_ns
    };
    eval_mid_shape(a0, mid, parent) && edi_error_cause(mid, s, var, lex, strict_eval)
}

/// An error from PerformEval on a parsed, non-empty script is owed only to
/// a declaration-instantiation obstacle, stated over the agent as it stood
/// with the fresh lexical environment in place.
pub open spec fn perform_eval_error_cause(
    a0: Agent,
    s: ScriptDecls,
    direct: bool,
    strict_caller: bool,
) -> bool {
    exists|mid: Agent| #[trigger] eval_err_witness(a0, mid, s, direct, strict_caller)
}

/// What PerformEval guarantees for a parsed, non-empty script: the eval
/// context received a fresh declarative lexical environment over the
/// caller's (direct) or the realm's global environment; the variable
/// environment follows the direct/strict rules; the conflict check and the
/// declaration bindings of the preamble hold of those environments; and no
/// other environment moved.
pub open spec fn perform_eval_script_post(
    a0: Agent,
    a1: Agent,
    s: ScriptDecls,
    direct: bool,
    strict_caller: bool,
    r: Result<Value, JsError>,
) -> bool {
    !s.is_empty ==> {
        let strict_eval = strict_caller || s.has_use_strict;
        let lex = a0.envs@.len() as int;
        let parent = if direct {
            a0.execution_context_stack@.last().lexical_environment
        } else {
            a0.realm.global_env.unwrap()
        };
        let var_ns = if direct {
            a0.execution_context_stack@.last().variable_environment as int
        } else {
            a0.realm.global_env.unwrap() as int
        };
        let var = if strict_eval {
            lex
        } else {
            var_ns
        };
        &&& a1.envs@.len() == a0.envs@.len() + 1
        &&& a1.env_live(lex)
        &&& (a1.env(lex).kind is Declarative)
        &&& a1.env(lex).outer == Some(parent)
        &&& (forall|t: int|
            0 <= t < a0.envs@.len() && t != var ==> #[trigger] a1.envs@[t] == a0.envs@[t])
        &&& (!strict_eval ==> a1.env(var_ns).kind == a0.env(var_ns).kind && a1.env(var_ns).outer
            == a0.env(var_ns).outer)
        &&& (!strict_eval && a0.env(var_ns).kind is Global && global_lexical_conflict(
            a0,
            var_ns,
            s,
        ) ==> (r matches Err(e) && e.kind == ExceptionType::SyntaxError))
        &&& (r is Ok ==> r == Ok::<Value, JsError>(Value::Undefined) && (forall|i: int|
            0 <= i < s.var_scoped@.len() ==> decl_vars_bound(
                a1,
                var,
                #[trigger] s.var_scoped@[i],
            )))
        &&& (r is Ok && !strict_eval && a0.env(var_ns).kind is Global
            ==> !global_lexical_conflict(a0, var_ns, s))
        &&& (r is Ok ==> edi_lex_outcomes(a1, lex, var, s) && edi_fn_outcomes(a1, var, s))
        &&& (r is Err ==> perform_eval_error_cause(a0, s, direct, strict_caller))
    }
}

/// PerformEval's first step: only a string argument is compiled and run;
/// any other value is handed straight back to the caller.
pub fn eval_string_argument(x: &Value) -> (r: Option<String>)
    ensures
        (r matches Some(s) ==> (*x matches Value::String(t) && s@ == t@)),
        r is Some <==> *x is String,
{
    match x {
        Value::String(s) => Some(s.clone()),
        _ => None,
    }
}

/// PerformEval, from the parse outcome onward. The host has already
/// checked that the argument is a string (a non-string returns unchanged
/// before this point), asked the host hook whether strings may compile,
/// and parsed the source: a parse failure arrives as `None` and throws a
/// SyntaxError. This function builds the eval contexts, runs declaration
/// instantiation and pops the context again whatever happened; executing
/// the compiled body afterwards is the interpreter's business, so a
/// successful preamble completes with undefined here.
pub fn perform_eval(
    agent: &mut Agent,
    script: Option<&ScriptDecls>,
    direct: bool,
    strict_caller: bool,
) -> (r: Result<Value, JsError>)
    requires
        strict_caller ==> direct,
        direct ==> old(agent).execution_context_stack@.len() > 0,
        direct ==> old(agent).env_live(
            old(agent).execution_context_stack@.last().lexical_environment as int,
        ) && old(agent).env_live(
            old(agent).execution_context_stack@.last().variable_environment as int,
        ),
        !direct ==> (old(agent).realm.global_env matches Some(g) && old(agent).env_live(g as int)),
        old(agent).envs@.len() < u32::MAX - 1,
        script matches Some(s) ==> old(agent).heap.functions@.len() + s.var_scoped@.len()
            < u32::MAX - 1,
        old(agent).execution_context_stack@.len() < usize::MAX,
    ensures
        final(agent).execution_context_stack@ == old(agent).execution_context_stack@,
        script is None ==> (r matches Err(e) && e.kind == ExceptionType::SyntaxError) && final(agent).envs == old(agent).envs && final(agent).heap.functions == old(agent).heap.functions,
        script matches Some(s) && s.is_empty ==> r == Ok::<Value, JsError>(Value::Undefined)
            && final(agent).envs == old(agent).envs && final(agent).heap.functions == old(agent).heap.functions,
        script matches Some(s) ==> perform_eval_script_post(
            *old(agent),
            *final(agent),
            *s,
            direct,
            strict_caller,
            r,
        ),
        final(agent).realm == old(agent).realm,
        final(agent).rooted == old(agent).rooted,
        final(agent).heap.arrays == old(agent).heap.arrays,
        final(agent).heap.objects == old(agent).heap.objects,
        final(agent).heap.storages == old(agent).heap.storages,
{
    // 11.b A parse failure is a SyntaxError throw.
    let script = match script {
        Some(s) => s,
        None => {
            return Err(JsError::new(ExceptionType::SyntaxError, "Invalid eval source text."));
        },
    };
    // 11.c An empty script evaluates to undefined.
    if script.is_empty {
        return Ok(Value::Undefined);
    }
    // 12.-13. strictEval.
    let strict_eval = strict_caller || script.has_use_strict;

    // 16.-17. The eval contexts: a fresh declarative lexical environment
    // over the caller's (direct) or the realm's global environment.
    let (parent_lex, var_parent, private_env) = if direct {
        let ctx = agent.execution_context_stack[agent.execution_context_stack.len() - 1];
        (ctx.lexical_environment, ctx.variable_environment, ctx.private_environment)
    } else {
        let g = match agent.realm.global_env {
            Some(g) => g,
            None => {
                return Err(
                    JsError::new(ExceptionType::ReferenceError, "No global environment"),
                );
            },
        };
        (g, g, None)
    };
    let lex_env = agent.create_env(
        EnvironmentRecord::new(EnvironmentKind::Declarative, Some(parent_lex)),
    );
    let ghost a_created = *agent;
    // 18. Strict eval keeps its vars inside the new lexical environment.
    let var_env = if strict_eval {
        lex_env
    } else {
        var_parent
    };
    // 20.-27. Push the eval context.
    let ghost stack0 = agent.execution_context_stack@;
    agent.execution_context_stack.push(
        ExecutionContext {
            lexical_environment: lex_env,
            variable_environment: var_env,
            private_environment: private_env,
            is_strict_mode: strict_eval,
        },
    );
    let ghost a_pushed = *agent;
    // 28. Declaration instantiation.
    let result = eval_declaration_instantiation(
        agent,
        script,
        var_env,
        lex_env,
        private_env,
        strict_eval,
    );
    let ghost a_edi = *agent;
    // 31. Pop the context, whatever happened.
    let popped = agent.execution_context_stack.pop();
    proof {
        assert(agent.execution_context_stack@ =~= stack0);
        let vi = var_env as int;
        let li = lex_env as int;
        assert(agent.envs == a_edi.envs);
        assert(a_pushed.envs == a_created.envs);
        assert(a_created.env(li).kind is Declarative);
        assert(a_created.env(li).outer == Some(parent_lex));
        assert(agent.env(li).kind == a_pushed.env(li).kind);
        assert(agent.env(li).outer == a_pushed.env(li).outer);
        if !strict_eval {
            assert(a_pushed.env(vi) == old(agent).env(vi));
            if a_pushed.env(vi).kind is Global {
                assert(global_lexical_conflict(a_pushed, vi, *script)
                    ==> global_lexical_conflict(*old(agent), vi, *script)) by {
                    if global_lexical_conflict(a_pushed, vi, *script) {
                        let names = var_declared_names_spec(script.var_scoped@);
                        let w = choose|w: int|
                            0 <= w < names.len() && binding_in(
                                a_pushed.env(vi).bindings@,
                                #[trigger] names[w],
                            );
                        assert(binding_in(old(agent).env(vi).bindings@, names[w]));
                    }
                }
                assert(global_lexical_conflict(*old(agent), vi, *script)
                    ==> global_lexical_conflict(a_pushed, vi, *script)) by {
                    if global_lexical_conflict(*old(agent), vi, *script) {
                        let names = var_declared_names_spec(script.var_scoped@);
                        let w = choose|w: int|
                            0 <= w < names.len() && binding_in(
                                old(agent).env(vi).bindings@,
                                #[trigger] names[w],
                            );
                        assert(binding_in(a_pushed.env(vi).bindings@, names[w]));
                    }
                }
            }
        }
        if result is Err {
            let vns = if direct {
                old(agent).execution_context_stack@.last().variable_environment as int
            } else {
                old(agent).realm.global_env.unwrap() as int
            };
            assert(lex_env as int == old(agent).envs@.len());
            assert(var_env as int == if strict_eval {
                old(agent).envs@.len() as int
            } else {
                vns
            });
            assert(edi_error_cause(a_pushed, *script, var_env as int, lex_env as int, strict_eval));
            assert(eval_mid_shape(*old(agent), a_pushed, parent_lex));
            assert(eval_err_witness(*old(agent), a_pushed, *script, direct, strict_caller));
            assert(perform_eval_error_cause(*old(agent), *script, direct, strict_caller));
        }
        if result is Ok {
            assert(edi_lex_outcomes(a_edi, li, vi, *script));
            assert(agent.env(li) == a_edi.env(li));
            assert(agent.env(vi) == a_edi.env(vi));
            assert(agent.heap == a_edi.heap);
            assert forall|q: int|
                0 <= q < lex_bound_names_flat(script.lex_scoped@).len() implies lex_name_bound(
                agent.env(li).bindings@,
                #[trigger] lex_bound_names_flat(script.lex_scoped@)[q],
                lex_const_flat(script.lex_scoped@)[q],
                vi != li,
            ) by {
                assert(lex_name_bound(
                    a_edi.env(li).bindings@,
                    lex_bound_names_flat(script.lex_scoped@)[q],
                    lex_const_flat(script.lex_scoped@)[q],
                    vi != li,
                ));
            }
            assert(edi_lex_outcomes(*agent, li, vi, *script));
            assert(edi_fn_outcomes(a_edi, vi, *script));
            assert forall|j: int|
                0 <= j < script.var_scoped@.len() implies ((#[trigger] script.var_scoped@[j])
                    matches VarScopedDecl::Function { name, .. } ==> fn_binding_outcome(
                    *agent,
                    vi,
                    name@,
                    last_fn_flags(script.var_scoped@, name@).0,
                    last_fn_flags(script.var_scoped@, name@).1,
                )) by {
                match script.var_scoped@[j] {
                    VarScopedDecl::Function { name, .. } => {
                        assert(fn_binding_outcome(
                            a_edi,
                            vi,
                            name@,
                            last_fn_flags(script.var_scoped@, name@).0,
                            last_fn_flags(script.var_scoped@, name@).1,
                        ));
                    },
                    VarScopedDecl::Variable { .. } => {},
                }
            }
            assert(edi_fn_outcomes(*agent, vi, *script));
            assert forall|i: int|
                0 <= i < script.var_scoped@.len() implies decl_vars_bound(
                *agent,
                vi,
                #[trigger] script.var_scoped@[i],
            ) by {
                assert(decl_vars_bound(a_edi, vi, script.var_scoped@[i]));
                assert(agent.env(vi) == a_edi.env(vi));
                let d = script.var_scoped@[i];
                assert forall|k: int|
                    0 <= k < decl_bound_names(d).len() implies env_binds_var(
                    *agent,
                    vi,
                    #[trigger] decl_bound_names(d)[k],
                ) by {
                    assert(env_binds_var(a_edi, vi, decl_bound_names(d)[k]));
                }
            }
        }
    }
    // 29.-30. On success the interpreter would compile and run the body;
    // the preamble itself completes with undefined.
    match result {
        Ok(_) => Ok(Value::Undefined),
        Err(e) => Err(e),
    }
}

} // verus!
