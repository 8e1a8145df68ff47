//! Import resolution over a graph of guest modules.
//!
//! Each declared import of a module is resolved, in strict priority order,
//! against the host function table, the two object bridges, the guest
//! standard-I/O provider, and finally a sibling module that the importing
//! module names as the provider of that namespace.  Siblings are linked first
//! (recursively), each exactly once; a module whose linking is requested while
//! it is still being linked closes a cycle, which is an error.
//!
//! The result is a plan: the modules in the order in which they are to be
//! instantiated, each with the source of every one of its imports.
use vstd::prelude::*;
use vstd::set_lib::{lemma_int_range, lemma_len_subset, set_int_range};

verus! {

/// One declared import, keyed by `(namespace, name)`.
pub struct ImportDecl {
    pub namespace: String,
    pub name: String,
}

#[derive(PartialEq, Eq, Structural, Clone, Copy, Debug)]
pub enum ModuleKind {
    Core,
    Component,
}

/// The interface of a compiled module: its imports, its exports, and for each
/// imported namespace the module (by index in the module table) that provides it.
pub struct ModuleDesc {
    pub kind: ModuleKind,
    pub imports: Vec<ImportDecl>,
    pub exports: Vec<String>,
    pub deps: Vec<(String, usize)>,
}

/// A built-in bridge namespace: a set of function names under one namespace,
/// available only when its capability is enabled.
pub struct Bridge {
    pub enabled: bool,
    pub namespace: String,
    pub names: Vec<String>,
}

/// Everything an import can be resolved against besides sibling modules.
pub struct ImportEnv {
    pub host: Vec<ImportDecl>,
    pub registry: Bridge,
    pub externref: Bridge,
    pub wasi: Vec<ImportDecl>,
}

/// Where one import is taken from.
#[derive(PartialEq, Eq, Structural, Clone, Copy, Debug)]
pub enum ImportSource {
    /// The entry of the host table with this index.
    Host(usize),
    Registry,
    Externref,
    Wasi,
    /// The export of the same name of this (earlier instantiated) module.
    Sibling(usize),
}

/// One module to instantiate, with the source of each of its imports.
#[derive(Debug)]
pub struct InstanceStep {
    pub module: usize,
    pub sources: Vec<ImportSource>,
}

#[derive(PartialEq, Eq, Structural, Clone, Copy, Debug)]
pub enum LinkError {
    /// The module is a component, not a core module.
    NotCore(usize),
    /// The import with this index of this module matches nothing.
    UnknownImport { module: usize, import: usize },
    /// Linking this module was requested while it was being linked.
    Cycle(usize),
}

// ---------------------------------------------------------------- model

/// Index of the first entry of `t` declared as `(ns, name)`.
pub open spec fn find_decl(t: Seq<ImportDecl>, ns: Seq<char>, name: Seq<char>) -> Option<nat>
    decreases t.len(),
{
    if t.len() == 0 {
        None
    } else if t[0].namespace@ == ns && t[0].name@ == name {
        Some(0)
    } else {
        match find_decl(t.drop_first(), ns, name) {
            Some(i) => Some(i + 1),
            None => None,
        }
    }
}

pub open spec fn has_name(names: Seq<String>, name: Seq<char>) -> bool {
    exists|j: int| 0 <= j < names.len() && (#[trigger] names[j])@ == name
}

pub open spec fn bridge_provides(b: Bridge, ns: Seq<char>, name: Seq<char>) -> bool {
    b.enabled && b.namespace@ == ns && has_name(b.names@, name)
}

/// The source of an import among the host table, the bridges and the
/// standard-I/O provider, in that priority order.
pub open spec fn direct_source(env: ImportEnv, ns: Seq<char>, name: Seq<char>) -> Option<ImportSource> {
    match find_decl(env.host@, ns, name) {
        Some(i) => Some(ImportSource::Host(i as usize)),
        None => if bridge_provides(env.registry, ns, name) {
            Some(ImportSource::Registry)
        } else if bridge_provides(env.externref, ns, name) {
            Some(ImportSource::Externref)
        } else if find_decl(env.wasi@, ns, name).is_some() {
            Some(ImportSource::Wasi)
        } else {
            None
        },
    }
}

/// The module that a dependency table names first for namespace `ns`.
pub open spec fn dep_of(deps: Seq<(String, usize)>, ns: Seq<char>) -> Option<usize>
    decreases deps.len(),
{
    if deps.len() == 0 {
        None
    } else if deps[0].0@ == ns {
        Some(deps[0].1)
    } else {
        dep_of(deps.drop_first(), ns)
    }
}

/// Every dependency names a module of the table.
pub open spec fn modules_wf(mods: Seq<ModuleDesc>) -> bool {
    forall|m: int, j: int|
        0 <= m < mods.len() && 0 <= j < mods[m].deps@.len() ==> (#[trigger] mods[m].deps@[j]).1
            < mods.len()
}

/// Import `k` of module `a` falls through to the sibling `b`.
pub open spec fn edge_via(env: ImportEnv, mods: Seq<ModuleDesc>, a: int, k: int, b: usize) -> bool {
    &&& 0 <= a < mods.len()
    &&& 0 <= k < mods[a].imports@.len()
    &&& direct_source(env, mods[a].imports@[k].namespace@, mods[a].imports@[k].name@).is_none()
    &&& dep_of(mods[a].deps@, mods[a].imports@[k].namespace@) == Some(b)
}

/// Module `a` needs module `b` linked first.
pub open spec fn sib_edge(env: ImportEnv, mods: Seq<ModuleDesc>, a: usize, b: usize) -> bool {
    exists|k: int| #[trigger] edge_via(env, mods, a as int, k, b)
}

/// A walk along sibling edges.
pub open spec fn path_ok(env: ImportEnv, mods: Seq<ModuleDesc>, p: Seq<usize>) -> bool {
    &&& p.len() >= 1
    &&& forall|t: int| 0 <= t < p.len() ==> #[trigger] p[t] < mods.len()
    &&& forall|t: int| 0 <= t < p.len() - 1 ==> sib_edge(env, mods, #[trigger] p[t], p[t + 1])
}

pub open spec fn reachable(env: ImportEnv, mods: Seq<ModuleDesc>, root: usize, m: usize) -> bool {
    exists|p: Seq<usize>|
        #[trigger] path_ok(env, mods, p) && p[0] == root && p[p.len() - 1] == m
}

pub open spec fn on_cycle(env: ImportEnv, mods: Seq<ModuleDesc>, m: usize) -> bool {
    exists|p: Seq<usize>|
        #[trigger] path_ok(env, mods, p) && p.len() >= 2 && p[0] == m && p[p.len() - 1] == m
}

/// Module `b` is instantiated by one of the first `limit` steps.
pub open spec fn placed_before(plan: Seq<InstanceStep>, limit: int, b: usize) -> bool {
    exists|t: int| 0 <= t < limit && (#[trigger] plan[t]).module == b
}

/// `src` is the source that import `k` of module `m` must take, given the
/// modules instantiated by the first `limit` steps of `plan`.
pub open spec fn source_ok(
    env: ImportEnv,
    mods: Seq<ModuleDesc>,
    m: int,
    k: int,
    src: ImportSource,
    plan: Seq<InstanceStep>,
    limit: int,
) -> bool {
    let imp = mods[m].imports@[k];
    match direct_source(env, imp.namespace@, imp.name@) {
        Some(s) => src == s,
        None => match dep_of(mods[m].deps@, imp.namespace@) {
            Some(b) => src == ImportSource::Sibling(b) && has_name(mods[b as int].exports@, imp.name@)
                && placed_before(plan, limit, b),
            None => false,
        },
    }
}

pub open spec fn step_ok(
    env: ImportEnv,
    mods: Seq<ModuleDesc>,
    plan: Seq<InstanceStep>,
    j: int,
) -> bool {
    let m = plan[j].module as int;
    &&& 0 <= m < mods.len()
    &&& mods[m].kind == ModuleKind::Core
    &&& plan[j].sources@.len() == mods[m].imports@.len()
    &&& forall|k: int|
        0 <= k < plan[j].sources@.len() ==> source_ok(
            env,
            mods,
            m,
            k,
            #[trigger] plan[j].sources@[k],
            plan,
            j,
        )
}

/// Every step is well linked against the steps before it, and no module is
/// instantiated twice.
pub open spec fn steps_ok(env: ImportEnv, mods: Seq<ModuleDesc>, plan: Seq<InstanceStep>) -> bool {
    &&& forall|j: int| 0 <= j < plan.len() ==> #[trigger] step_ok(env, mods, plan, j)
    &&& forall|s: int, t: int|
        0 <= s < plan.len() && 0 <= t < plan.len() && s != t ==> (#[trigger] plan[s]).module
            != (#[trigger] plan[t]).module
}

/// A complete plan for instantiating `root`.
pub open spec fn plan_valid(
    env: ImportEnv,
    mods: Seq<ModuleDesc>,
    root: usize,
    plan: Seq<InstanceStep>,
) -> bool {
    &&& steps_ok(env, mods, plan)
    &&& plan.len() > 0
    &&& plan[plan.len() - 1].module == root
}

/// What an error tells about the module graph seen from `root`.
pub open spec fn error_ok(env: ImportEnv, mods: Seq<ModuleDesc>, root: usize, e: LinkError) -> bool {
    match e {
        LinkError::NotCore(m) => m < mods.len() && mods[m as int].kind == ModuleKind::Component
            && reachable(env, mods, root, m),
        LinkError::UnknownImport { module, import } => {
            &&& module < mods.len()
            &&& import < mods[module as int].imports@.len()
            &&& reachable(env, mods, root, module)
            &&& ({
                let imp = mods[module as int].imports@[import as int];
                &&& direct_source(env, imp.namespace@, imp.name@).is_none()
                &&& match dep_of(mods[module as int].deps@, imp.namespace@) {
                    Some(b) => !has_name(mods[b as int].exports@, imp.name@),
                    None => true,
                }
            })
        },
        LinkError::Cycle(m) => m < mods.len() && reachable(env, mods, root, m) && on_cycle(
            env,
            mods,
            m,
        ),
    }
}


// ---------------------------------------------------------------- lookups

proof fn lemma_find_decl_step(t: Seq<ImportDecl>, ns: Seq<char>, name: Seq<char>, i: int)
    requires
        0 <= i < t.len(),
    ensures
        find_decl(t.subrange(i, t.len() as int), ns, name) == if t[i].namespace@ == ns
            && t[i].name@ == name {
            Some(0nat)
        } else {
            match find_decl(t.subrange(i + 1, t.len() as int), ns, name) {
                Some(j) => Some(j + 1),
                None => None,
            }
        },
{
    assert(t.subrange(i, t.len() as int).drop_first() =~= t.subrange(i + 1, t.len() as int));
}

proof fn lemma_find_decl_bound(t: Seq<ImportDecl>, ns: Seq<char>, name: Seq<char>)
    ensures
        match find_decl(t, ns, name) {
            Some(i) => i < t.len() && t[i as int].namespace@ == ns && t[i as int].name@ == name,
            None => true,
        },
    decreases t.len(),
{
    if t.len() > 0 {
        lemma_find_decl_bound(t.drop_first(), ns, name);
    }
}

/// Index of the first entry of `t` declared as `(ns, name)`.
fn lookup_decl(t: &Vec<ImportDecl>, ns: &String, name: &String) -> (r: Option<usize>)
    ensures
        r == match find_decl(t@, ns@, name@) {
            Some(i) => Some(i as usize),
            None => None::<usize>,
        },
{
    proof {
        lemma_find_decl_bound(t@, ns@, name@);
        assert(t@.subrange(0, t@.len() as int) =~= t@);
    }
    let mut i: usize = 0;
    while i < t.len()
        invariant
            i <= t@.len(),
            find_decl(t@, ns@, name@) == match find_decl(t@.subrange(i as int, t@.len() as int), ns@, name@) {
                Some(j) => Some((j + i) as nat),
                None => None,
            },
        decreases t@.len() - i,
    {
        proof {
            lemma_find_decl_step(t@, ns@, name@, i as int);
        }
        if t[i].namespace == *ns && t[i].name == *name {
            return Some(i);
        }
        i += 1;
    }
    assert(t@.subrange(i as int, t@.len() as int).len() == 0);
    None
}

fn contains_name(names: &Vec<String>, name: &String) -> (r: bool)
    ensures
        r == has_name(names@, name@),
{
    let mut i: usize = 0;
    while i < names.len()
        invariant
            i <= names@.len(),
            forall|j: int| 0 <= j < i ==> (#[trigger] names@[j])@ != name@,
        decreases names@.len() - i,
    {
        if names[i] == *name {
            return true;
        }
        i += 1;
    }
    false
}

fn bridge_has(b: &Bridge, ns: &String, name: &String) -> (r: bool)
    ensures
        r == bridge_provides(*b, ns@, name@),
{
    b.enabled && b.namespace == *ns && contains_name(&b.names, name)
}

/// The source of one import among the host table, the bridges and the
/// standard-I/O provider.
pub fn direct(env: &ImportEnv, imp: &ImportDecl) -> (r: Option<ImportSource>)
    ensures
        r == direct_source(*env, imp.namespace@, imp.name@),
{
    if let Some(i) = lookup_decl(&env.host, &imp.namespace, &imp.name) {
        Some(ImportSource::Host(i))
    } else if bridge_has(&env.registry, &imp.namespace, &imp.name) {
        Some(ImportSource::Registry)
    } else if bridge_has(&env.externref, &imp.namespace, &imp.name) {
        Some(ImportSource::Externref)
    } else if lookup_decl(&env.wasi, &imp.namespace, &imp.name).is_some() {
        Some(ImportSource::Wasi)
    } else {
        None
    }
}

proof fn lemma_dep_of_step(deps: Seq<(String, usize)>, ns: Seq<char>, i: int)
    requires
        0 <= i < deps.len(),
    ensures
        dep_of(deps.subrange(i, deps.len() as int), ns) == if deps[i].0@ == ns {
            Some(deps[i].1)
        } else {
            dep_of(deps.subrange(i + 1, deps.len() as int), ns)
        },
{
    assert(deps.subrange(i, deps.len() as int).drop_first() =~= deps.subrange(i + 1, deps.len() as int));
}

proof fn lemma_dep_of_member(deps: Seq<(String, usize)>, ns: Seq<char>)
    ensures
        match dep_of(deps, ns) {
            Some(b) => exists|j: int| 0 <= j < deps.len() && (#[trigger] deps[j]).1 == b,
            None => true,
        },
    decreases deps.len(),
{
    if deps.len() > 0 {
        lemma_dep_of_member(deps.drop_first(), ns);
        if deps[0].0@ != ns {
            if let Some(b) = dep_of(deps.drop_first(), ns) {
                let j = choose|j: int| 0 <= j < deps.drop_first().len() && (#[trigger] deps.drop_first()[j]).1 == b;
                assert(deps[j + 1].1 == b);
            }
        }
    }
}

/// The module that `deps` names first as the provider of `ns`.
fn lookup_dep(deps: &Vec<(String, usize)>, ns: &String) -> (r: Option<usize>)
    ensures
        r == dep_of(deps@, ns@),
{
    assert(deps@.subrange(0, deps@.len() as int) =~= deps@);
    let mut i: usize = 0;
    while i < deps.len()
        invariant
            i <= deps@.len(),
            dep_of(deps@, ns@) == dep_of(deps@.subrange(i as int, deps@.len() as int), ns@),
        decreases deps@.len() - i,
    {
        proof {
            lemma_dep_of_step(deps@, ns@, i as int);
        }
        if deps[i].0 == *ns {
            return Some(deps[i].1);
        }
        i += 1;
    }
    assert(deps@.subrange(i as int, deps@.len() as int).len() == 0);
    None
}

// ---------------------------------------------------------------- linking

proof fn lemma_stack_bound(stack: Seq<usize>, n: nat)
    requires
        stack.no_duplicates(),
        forall|i: int| 0 <= i < stack.len() ==> #[trigger] stack[i] < n,
    ensures
        stack.len() <= n,
{
    let s2 = stack.map_values(|x: usize| x as int);
    assert(s2.no_duplicates()) by {
        assert forall|i: int, j: int|
            0 <= i < s2.len() && 0 <= j < s2.len() && i != j implies s2[i] != s2[j] by {
            assert(stack[i] != stack[j]);
        }
    }
    s2.unique_seq_to_set();
    lemma_int_range(0, n as int);
    assert forall|x: int| s2.to_set().contains(x) implies set_int_range(0, n as int).contains(x) by {
        assert(s2.contains(x));
        let i = choose|i: int| 0 <= i < s2.len() && s2[i] == x;
        assert(stack[i] < n);
    }
    lemma_len_subset(s2.to_set(), set_int_range(0, n as int));
}

proof fn lemma_path_prefix(env: ImportEnv, mods: Seq<ModuleDesc>, p: Seq<usize>, t: int)
    requires
        path_ok(env, mods, p),
        0 <= t < p.len(),
    ensures
        path_ok(env, mods, p.subrange(0, t + 1)),
{
    let q = p.subrange(0, t + 1);
    assert forall|s: int| 0 <= s < q.len() - 1 implies sib_edge(env, mods, #[trigger] q[s], q[s + 1]) by {
        assert(q[s] == p[s] && q[s + 1] == p[s + 1]);
    }
}

proof fn lemma_path_push(env: ImportEnv, mods: Seq<ModuleDesc>, p: Seq<usize>, b: usize)
    requires
        path_ok(env, mods, p),
        b < mods.len(),
        sib_edge(env, mods, p[p.len() - 1], b),
    ensures
        path_ok(env, mods, p.push(b)),
{
    let q = p.push(b);
    assert forall|s: int| 0 <= s < q.len() - 1 implies sib_edge(env, mods, #[trigger] q[s], q[s + 1]) by {
        if s < p.len() - 1 {
            assert(q[s] == p[s] && q[s + 1] == p[s + 1]);
        }
    }
    assert forall|s: int| 0 <= s < q.len() implies #[trigger] q[s] < mods.len() by {
        if s < p.len() {
            assert(q[s] == p[s]);
        }
    }
}

proof fn lemma_cycle(env: ImportEnv, mods: Seq<ModuleDesc>, p: Seq<usize>, t: int, b: usize)
    requires
        path_ok(env, mods, p),
        0 <= t < p.len(),
        p[t] == b,
        sib_edge(env, mods, p[p.len() - 1], b),
    ensures
        on_cycle(env, mods, b),
{
    let q = p.subrange(t, p.len() as int);
    assert forall|s: int| 0 <= s < q.len() - 1 implies sib_edge(env, mods, #[trigger] q[s], q[s + 1]) by {
        assert(q[s] == p[t + s] && q[s + 1] == p[t + s + 1]);
    }
    assert forall|s: int| 0 <= s < q.len() implies #[trigger] q[s] < mods.len() by {
        assert(q[s] == p[t + s]);
    }
    assert(path_ok(env, mods, q));
    lemma_path_push(env, mods, q, b);
    let c = q.push(b);
    assert(c[0] == b && c[c.len() - 1] == b && c.len() >= 2);
}

proof fn lemma_step_ok_prefix(
    env: ImportEnv,
    mods: Seq<ModuleDesc>,
    plan: Seq<InstanceStep>,
    plan2: Seq<InstanceStep>,
    j: int,
)
    requires
        0 <= j < plan.len() <= plan2.len(),
        forall|t: int| 0 <= t < plan.len() ==> plan2[t] == plan[t],
        step_ok(env, mods, plan, j),
    ensures
        step_ok(env, mods, plan2, j),
{
    let m = plan[j].module as int;
    assert(plan2[j] == plan[j]);
    assert forall|k: int| 0 <= k < plan2[j].sources@.len() implies source_ok(
        env,
        mods,
        m,
        k,
        #[trigger] plan2[j].sources@[k],
        plan2,
        j,
    ) by {
        assert(source_ok(env, mods, m, k, plan[j].sources@[k], plan, j));
        let imp = mods[m].imports@[k];
        if direct_source(env, imp.namespace@, imp.name@).is_none() {
            if let Some(b) = dep_of(mods[m].deps@, imp.namespace@) {
                let t = choose|t: int| 0 <= t < j && (#[trigger] plan[t]).module == b;
                assert(plan2[t] == plan[t]);
            }
        }
    }
}

proof fn lemma_sources_grow(
    env: ImportEnv,
    mods: Seq<ModuleDesc>,
    m: int,
    sources: Seq<ImportSource>,
    plan: Seq<InstanceStep>,
    plan2: Seq<InstanceStep>,
)
    requires
        plan.len() <= plan2.len(),
        forall|t: int| 0 <= t < plan.len() ==> plan2[t] == plan[t],
        forall|k: int|
            0 <= k < sources.len() ==> source_ok(env, mods, m, k, #[trigger] sources[k], plan, plan.len() as int),
    ensures
        forall|k: int|
            0 <= k < sources.len() ==> source_ok(env, mods, m, k, #[trigger] sources[k], plan2, plan2.len() as int),
{
    assert forall|k: int| 0 <= k < sources.len() implies source_ok(
        env,
        mods,
        m,
        k,
        #[trigger] sources[k],
        plan2,
        plan2.len() as int,
    ) by {
        assert(source_ok(env, mods, m, k, sources[k], plan, plan.len() as int));
        let imp = mods[m].imports@[k];
        if direct_source(env, imp.namespace@, imp.name@).is_none() {
            if let Some(b) = dep_of(mods[m].deps@, imp.namespace@) {
                let t = choose|t: int| 0 <= t < plan.len() && (#[trigger] plan[t]).module == b;
                assert(plan2[t] == plan[t]);
            }
        }
    }
}

/// The modules of `stack` are those being linked, and `stack` leads from
/// `root` to the module `m` about to be linked.
pub open spec fn stack_ok(
    env: ImportEnv,
    mods: Seq<ModuleDesc>,
    root: usize,
    stack: Seq<usize>,
    active: Seq<bool>,
    m: usize,
) -> bool {
    &&& stack.no_duplicates()
    &&& active.len() == mods.len()
    &&& forall|i: int| 0 <= i < mods.len() ==> (#[trigger] active[i] <==> stack.contains(i as usize))
    &&& if stack.len() == 0 {
        m == root
    } else {
        path_ok(env, mods, stack) && stack[0] == root && sib_edge(env, mods, stack[stack.len() - 1], m)
    }
}

/// The steps so far are well linked, and `done` marks the modules they instantiate.
pub open spec fn plan_ok(env: ImportEnv, mods: Seq<ModuleDesc>, plan: Seq<InstanceStep>, done: Seq<bool>) -> bool {
    &&& steps_ok(env, mods, plan)
    &&& done.len() == mods.len()
    &&& forall|i: int| 0 <= i < mods.len() ==> (#[trigger] done[i] <==> placed_before(plan, plan.len() as int, i as usize))
}

/// `stack` leads from `root` along sibling edges, and `active` marks exactly its modules.
pub open spec fn active_path(
    env: ImportEnv,
    mods: Seq<ModuleDesc>,
    root: usize,
    stack: Seq<usize>,
    active: Seq<bool>,
) -> bool {
    &&& stack.no_duplicates()
    &&& path_ok(env, mods, stack)
    &&& stack[0] == root
    &&& active.len() == mods.len()
    &&& forall|i: int| 0 <= i < mods.len() ==> (#[trigger] active[i] <==> stack.contains(i as usize))
}

/// Links the sibling `b` that import `k` of module `m` (the last module of
/// `stack`) falls through to, unless it is linked already.
fn link_sibling(
    env: &ImportEnv,
    mods: &Vec<ModuleDesc>,
    Ghost(root): Ghost<usize>,
    m: usize,
    k: usize,
    b: usize,
    done: &mut Vec<bool>,
    active: &mut Vec<bool>,
    plan: &mut Vec<InstanceStep>,
    Ghost(stack): Ghost<Seq<usize>>,
) -> (r: Result<(), LinkError>)
    requires
        modules_wf(mods@),
        edge_via(*env, mods@, m as int, k as int, b),
        active_path(*env, mods@, root, stack, old(active)@),
        stack[stack.len() - 1] == m,
        plan_ok(*env, mods@, old(plan)@, old(done)@),
    ensures
        match r {
            Ok(()) => {
                &&& final(active)@ == old(active)@
                &&& plan_ok(*env, mods@, final(plan)@, final(done)@)
                &&& final(plan)@.len() >= old(plan)@.len()
                &&& forall|t: int| 0 <= t < old(plan)@.len() ==> final(plan)@[t] == old(plan)@[t]
                &&& final(done)@[b as int]
                &&& forall|i: int| 0 <= i < mods@.len() && #[trigger] final(done)@[i] && !old(done)@[i] ==> !old(active)@[i]
            },
            Err(e) => error_ok(*env, mods@, root, e),
        },
    decreases mods@.len() - stack.len() + 1, 0nat,
{
    proof {
        lemma_dep_of_member(mods@[m as int].deps@, mods@[m as int].imports@[k as int].namespace@);
        assert(sib_edge(*env, mods@, m, b));
        lemma_stack_bound(stack, mods@.len() as nat);
    }
    if done[b] {
        return Ok(());
    }
    if active[b] {
        proof {
            assert(stack.contains(b));
            let t = choose|t: int| 0 <= t < stack.len() && stack[t] == b;
            lemma_cycle(*env, mods@, stack, t, b);
            lemma_path_prefix(*env, mods@, stack, t);
            let q = stack.subrange(0, t + 1);
            assert(q[0] == root && q[q.len() - 1] == b);
            assert(reachable(*env, mods@, root, b));
        }
        return Err(LinkError::Cycle(b));
    }
    link_module(env, mods, Ghost(root), b, done, active, plan, Ghost(stack))
}

#[verifier::rlimit(40)]
fn link_module(
    env: &ImportEnv,
    mods: &Vec<ModuleDesc>,
    Ghost(root): Ghost<usize>,
    m: usize,
    done: &mut Vec<bool>,
    active: &mut Vec<bool>,
    plan: &mut Vec<InstanceStep>,
    Ghost(stack): Ghost<Seq<usize>>,
) -> (r: Result<(), LinkError>)
    requires
        modules_wf(mods@),
        m < mods@.len(),
        !old(done)@[m as int],
        !old(active)@[m as int],
        stack_ok(*env, mods@, root, stack, old(active)@, m),
        plan_ok(*env, mods@, old(plan)@, old(done)@),
    ensures
        match r {
            Ok(()) => {
                &&& final(active)@ == old(active)@
                &&& plan_ok(*env, mods@, final(plan)@, final(done)@)
                &&& final(plan)@.len() > old(plan)@.len()
                &&& forall|t: int| 0 <= t < old(plan)@.len() ==> final(plan)@[t] == old(plan)@[t]
                &&& final(plan)@[final(plan)@.len() - 1].module == m
                &&& forall|i: int| 0 <= i < mods@.len() && #[trigger] final(done)@[i] && !old(done)@[i] ==> !old(active)@[i]
            },
            Err(e) => error_ok(*env, mods@, root, e),
        },
        mods@[m as int].kind == ModuleKind::Component ==> r == Err::<(), LinkError>(LinkError::NotCore(m)),
    decreases mods@.len() - stack.len(), 1nat,
{
    let n = mods.len();
    let ghost stack2 = stack.push(m);
    proof {
        if stack.len() == 0 {
            assert(path_ok(*env, mods@, stack2)) by {
                assert(stack2[0] == m);
            }
        } else {
            lemma_path_push(*env, mods@, stack, m);
        }
        assert(stack2[0] == root);
        assert(stack2[stack2.len() - 1] == m);
        assert(reachable(*env, mods@, root, m));
        assert(!stack.contains(m)) by {
            assert(!old(active)@[m as int]);
        }
        assert(stack2.no_duplicates()) by {
            assert forall|i: int, j: int| 0 <= i < stack2.len() && 0 <= j < stack2.len() && i != j
                implies stack2[i] != stack2[j] by {
                if i < stack.len() && j < stack.len() {
                } else if i < stack.len() {
                    assert(stack.contains(stack[i]));
                } else if j < stack.len() {
                    assert(stack.contains(stack[j]));
                }
            }
        }
        lemma_stack_bound(stack2, mods@.len() as nat);
    }
    if mods[m].kind == ModuleKind::Component {
        return Err(LinkError::NotCore(m));
    }
    let ghost old_plan = plan@;
    let ghost old_done = done@;
    active.set(m, true);
    proof {
        assert forall|i: int| 0 <= i < mods@.len() implies (#[trigger] active@[i] <==> stack2.contains(i as usize)) by {
            if i == m as int {
                assert(stack2[stack2.len() - 1] == m);
            } else {
                if stack.contains(i as usize) {
                    let t = choose|t: int| 0 <= t < stack.len() && stack[t] == i as usize;
                    assert(stack2[t] == i as usize);
                }
                if stack2.contains(i as usize) {
                    let t = choose|t: int| 0 <= t < stack2.len() && stack2[t] == i as usize;
                    if t == stack.len() {
                        assert(stack2[t] == m);
                    }
                    assert(stack[t] == i as usize);
                }
            }
        }
        assert(active_path(*env, mods@, root, stack2, active@));
    }
    let ghost cur_active = active@;
    let n_imports = mods[m].imports.len();
    let mut sources: Vec<ImportSource> = Vec::new();
    let mut k: usize = 0;
    while k < n_imports
        invariant
            n == mods@.len(),
            m < n,
            modules_wf(mods@),
            active_path(*env, mods@, root, stack2, cur_active),
            stack2[stack2.len() - 1] == m,
            stack2.len() == stack.len() + 1,
            reachable(*env, mods@, root, m),
            cur_active[m as int],
            n_imports == mods@[m as int].imports@.len(),
            mods@[m as int].kind == ModuleKind::Core,
            k <= n_imports,
            sources@.len() == k,
            active@ == cur_active,
            plan_ok(*env, mods@, plan@, done@),
            plan@.len() >= old_plan.len(),
            forall|t: int| 0 <= t < old_plan.len() ==> plan@[t] == old_plan[t],
            forall|i: int| 0 <= i < n && #[trigger] done@[i] && !old_done[i] ==> !cur_active[i],
            forall|kk: int|
                0 <= kk < k ==> source_ok(*env, mods@, m as int, kk, #[trigger] sources@[kk], plan@, plan@.len() as int),
        decreases n_imports - k,
    {
        let imp = &mods[m].imports[k];
        match direct(env, imp) {
            Some(s) => {
                sources.push(s);
            },
            None => {
                match lookup_dep(&mods[m].deps, &imp.namespace) {
                    None => {
                        return Err(LinkError::UnknownImport { module: m, import: k });
                    },
                    Some(b) => {
                        let ghost plan_before = plan@;
                        let ghost done_before = done@;
                        proof {
                            assert(edge_via(*env, mods@, m as int, k as int, b));
                            lemma_dep_of_member(mods@[m as int].deps@, imp.namespace@);
                            assert(b < n);
                        }
                        match link_sibling(env, mods, Ghost(root), m, k, b, done, active, plan, Ghost(stack2)) {
                            Err(e) => {
                                return Err(e);
                            },
                            Ok(()) => {},
                        }
                        proof {
                            lemma_sources_grow(*env, mods@, m as int, sources@, plan_before, plan@);
                            assert(placed_before(plan@, plan@.len() as int, b)) by {
                                assert(done@[b as int]);
                            }
                        }
                        if !contains_name(&mods[b].exports, &imp.name) {
                            return Err(LinkError::UnknownImport { module: m, import: k });
                        }
                        sources.push(ImportSource::Sibling(b));
                    },
                }
            },
        }
        proof {
            assert(source_ok(*env, mods@, m as int, k as int, sources@[k as int], plan@, plan@.len() as int));
        }
        k += 1;
    }
    active.set(m, false);
    proof {
        assert forall|i: int| 0 <= i < n implies active@[i] == old(active)@[i] by {
            if i != m as int {
                assert(stack.contains(i as usize) == stack2.contains(i as usize)) by {
                    if stack2.contains(i as usize) {
                        let t = choose|t: int| 0 <= t < stack2.len() && stack2[t] == i as usize;
                        if t == stack.len() {
                            assert(stack2[t] == m);
                        }
                        assert(stack[t] == i as usize);
                    }
                    if stack.contains(i as usize) {
                        let t = choose|t: int| 0 <= t < stack.len() && stack[t] == i as usize;
                        assert(stack2[t] == i as usize);
                    }
                }
            }
        }
        assert(active@ =~= old(active)@);
    }
    let ghost plan_mid = plan@;
    proof {
        assert(!done@[m as int]);
        assert(!placed_before(plan_mid, plan_mid.len() as int, m));
    }
    plan.push(InstanceStep { module: m, sources });
    done.set(m, true);
    proof {
        lemma_plan_push(*env, mods@, plan_mid, plan@, done@, m);
    }
    Ok(())
}

proof fn lemma_plan_push(
    env: ImportEnv,
    mods: Seq<ModuleDesc>,
    plan_mid: Seq<InstanceStep>,
    p2: Seq<InstanceStep>,
    done: Seq<bool>,
    m: usize,
)
    requires
        m < mods.len() <= usize::MAX,
        mods[m as int].kind == ModuleKind::Core,
        steps_ok(env, mods, plan_mid),
        !placed_before(plan_mid, plan_mid.len() as int, m),
        p2.len() == plan_mid.len() + 1,
        forall|t: int| 0 <= t < plan_mid.len() ==> p2[t] == plan_mid[t],
        p2[plan_mid.len() as int].module == m,
        p2[plan_mid.len() as int].sources@.len() == mods[m as int].imports@.len(),
        forall|kk: int|
            0 <= kk < p2[plan_mid.len() as int].sources@.len() ==> source_ok(
                env,
                mods,
                m as int,
                kk,
                #[trigger] p2[plan_mid.len() as int].sources@[kk],
                plan_mid,
                plan_mid.len() as int,
            ),
        done.len() == mods.len(),
        done[m as int],
        forall|i: int| 0 <= i < mods.len() && i != m ==> (#[trigger] done[i] <==> placed_before(plan_mid, plan_mid.len() as int, i as usize)),
    ensures
        plan_ok(env, mods, p2, done),
{
    let j = plan_mid.len() as int;
    assert(step_ok(env, mods, p2, j)) by {
        assert forall|kk: int| 0 <= kk < p2[j].sources@.len() implies source_ok(
            env,
            mods,
            m as int,
            kk,
            #[trigger] p2[j].sources@[kk],
            p2,
            j,
        ) by {
            assert(source_ok(env, mods, m as int, kk, p2[j].sources@[kk], plan_mid, j));
            let imp = mods[m as int].imports@[kk];
            if direct_source(env, imp.namespace@, imp.name@).is_none() {
                if let Some(b) = dep_of(mods[m as int].deps@, imp.namespace@) {
                    let t = choose|t: int| 0 <= t < j && (#[trigger] plan_mid[t]).module == b;
                    assert(p2[t] == plan_mid[t]);
                }
            }
        }
    }
    assert forall|jj: int| 0 <= jj < p2.len() implies #[trigger] step_ok(env, mods, p2, jj) by {
        if jj < j {
            assert(step_ok(env, mods, plan_mid, jj));
            lemma_step_ok_prefix(env, mods, plan_mid, p2, jj);
        }
    }
    assert forall|s: int, t: int|
        0 <= s < p2.len() && 0 <= t < p2.len() && s != t implies (#[trigger] p2[s]).module
            != (#[trigger] p2[t]).module by {
        if s < j && t < j {
            assert(p2[s] == plan_mid[s] && p2[t] == plan_mid[t]);
        } else if s < j {
            assert(p2[s] == plan_mid[s]);
        } else if t < j {
            assert(p2[t] == plan_mid[t]);
        }
    }
    assert forall|i: int| 0 <= i < mods.len() implies (#[trigger] done[i] <==> placed_before(p2, p2.len() as int, i as usize)) by {
        if i != m as int {
            if placed_before(p2, p2.len() as int, i as usize) {
                let t = choose|t: int| 0 <= t < p2.len() && (#[trigger] p2[t]).module == i as usize;
                assert(i as usize as int == i);
                assert(t != j);
                assert(plan_mid[t] == p2[t]);
            }
            if placed_before(plan_mid, j, i as usize) {
                let t = choose|t: int| 0 <= t < j && (#[trigger] plan_mid[t]).module == i as usize;
                assert(plan_mid[t] == p2[t]);
            }
        } else {
            assert(p2[j].module == m);
        }
    }
}

/// Works out how to instantiate module `root`: which modules to instantiate,
/// in which order, and where each of their imports comes from.
pub fn plan_instantiation(env: &ImportEnv, mods: &Vec<ModuleDesc>, root: usize) -> (r: Result<Vec<InstanceStep>, LinkError>)
    requires
        modules_wf(mods@),
        root < mods@.len(),
    ensures
        match r {
            Ok(plan) => plan_valid(*env, mods@, root, plan@),
            Err(e) => error_ok(*env, mods@, root, e),
        },
        mods@[root as int].kind == ModuleKind::Component ==> (r matches Err(e) && e == LinkError::NotCore(
            root,
        )),
{
    let n = mods.len();
    let mut done: Vec<bool> = Vec::new();
    let mut active: Vec<bool> = Vec::new();
    let mut i: usize = 0;
    while i < n
        invariant
            n == mods@.len(),
            i <= n,
            done@.len() == i,
            active@.len() == i,
            forall|j: int| 0 <= j < i ==> !(#[trigger] done@[j]),
            forall|j: int| 0 <= j < i ==> !(#[trigger] active@[j]),
        decreases n - i,
    {
        done.push(false);
        active.push(false);
        i += 1;
    }
    let mut plan: Vec<InstanceStep> = Vec::new();
    proof {
        assert forall|j: int| 0 <= j < mods@.len() implies (#[trigger] done@[j] <==> placed_before(plan@, plan@.len() as int, j as usize)) by {}
        let ghost empty = Seq::<usize>::empty();
        assert forall|j: int| 0 <= j < mods@.len() implies (#[trigger] active@[j] <==> empty.contains(j as usize)) by {
            assert(!active@[j]);
            assert(!empty.contains(j as usize));
        }
    }
    match link_module(env, mods, Ghost(root), root, &mut done, &mut active, &mut plan, Ghost(Seq::<usize>::empty())) {
        Ok(()) => Ok(plan),
        Err(e) => Err(e),
    }
}

// ---------------------------------------------------------------- laws

/// Two modules that each take an import from the other can be part of no
/// plan: the result of planning either of them is an error.
pub proof fn law_mutual_imports_unlinkable(
    env: ImportEnv,
    mods: Seq<ModuleDesc>,
    plan: Seq<InstanceStep>,
    a: usize,
    b: usize,
    ka: int,
    kb: int,
)
    requires
        edge_via(env, mods, a as int, ka, b),
        edge_via(env, mods, b as int, kb, a),
        steps_ok(env, mods, plan),
    ensures
        forall|j: int| 0 <= j < plan.len() ==> (#[trigger] plan[j]).module != a && plan[j].module != b,
        forall|root: usize| !plan_valid(env, mods, root, plan) || (root != a && root != b),
{
    assert forall|j: int| 0 <= j < plan.len() implies (#[trigger] plan[j]).module != a && plan[j].module != b by {
        lemma_no_step_for(env, mods, plan, a, ka, b, kb, j);
        lemma_no_step_for(env, mods, plan, b, kb, a, ka, j);
    }
}

proof fn lemma_no_step_for(
    env: ImportEnv,
    mods: Seq<ModuleDesc>,
    plan: Seq<InstanceStep>,
    a: usize,
    ka: int,
    b: usize,
    kb: int,
    j: int,
)
    requires
        edge_via(env, mods, a as int, ka, b),
        edge_via(env, mods, b as int, kb, a),
        steps_ok(env, mods, plan),
        0 <= j < plan.len(),
    ensures
        plan[j].module != a,
{
    if plan[j].module == a {
        assert(step_ok(env, mods, plan, j));
        assert(source_ok(env, mods, a as int, ka, plan[j].sources@[ka], plan, j));
        let t = choose|t: int| 0 <= t < j && (#[trigger] plan[t]).module == b;
        assert(step_ok(env, mods, plan, t));
        assert(source_ok(env, mods, b as int, kb, plan[t].sources@[kb], plan, t));
        let u = choose|u: int| 0 <= u < t && (#[trigger] plan[u]).module == a;
        assert(plan[u].module == plan[j].module);
        assert(plan[u].module != plan[j].module);
    }
}

/// Modules that import from a common module all link against one
/// instantiation of it, made before any of them.
pub proof fn law_shared_dependency_once(
    env: ImportEnv,
    mods: Seq<ModuleDesc>,
    plan: Seq<InstanceStep>,
    c: usize,
    j1: int,
    k1: int,
    j2: int,
    k2: int,
)
    requires
        steps_ok(env, mods, plan),
        0 <= j1 < plan.len(),
        0 <= j2 < plan.len(),
        0 <= k1 < plan[j1].sources@.len(),
        0 <= k2 < plan[j2].sources@.len(),
        plan[j1].sources@[k1] == ImportSource::Sibling(c),
        plan[j2].sources@[k2] == ImportSource::Sibling(c),
    ensures
        exists|t: int|
            0 <= t < j1 && t < j2 && (#[trigger] plan[t]).module == c && forall|s: int|
                0 <= s < plan.len() && (#[trigger] plan[s]).module == c ==> s == t,
{
    assert(step_ok(env, mods, plan, j1));
    assert(step_ok(env, mods, plan, j2));
    let m1 = plan[j1].module as int;
    let m2 = plan[j2].module as int;
    assert(source_ok(env, mods, m1, k1, plan[j1].sources@[k1], plan, j1));
    assert(source_ok(env, mods, m2, k2, plan[j2].sources@[k2], plan, j2));
    let imp1 = mods[m1].imports@[k1];
    let imp2 = mods[m2].imports@[k2];
    assert(direct_source(env, imp1.namespace@, imp1.name@).is_none()) by {
        if let Some(s) = direct_source(env, imp1.namespace@, imp1.name@) {
            assert(s == ImportSource::Sibling(c));
        }
    }
    assert(direct_source(env, imp2.namespace@, imp2.name@).is_none()) by {
        if let Some(s) = direct_source(env, imp2.namespace@, imp2.name@) {
            assert(s == ImportSource::Sibling(c));
        }
    }
    let t1 = choose|t: int| 0 <= t < j1 && (#[trigger] plan[t]).module == c;
    let t2 = choose|t: int| 0 <= t < j2 && (#[trigger] plan[t]).module == c;
    assert(t1 == t2) by {
        if t1 != t2 {
            assert(plan[t1].module != plan[t2].module);
        }
    }
    assert forall|s: int| 0 <= s < plan.len() && (#[trigger] plan[s]).module == c implies s == t1 by {
        if s != t1 {
            assert(plan[s].module != plan[t1].module);
        }
    }
    assert(0 <= t1 < j1 && t1 < j2 && plan[t1].module == c);
}

/// Following sibling edges from the module of step `j` leads only to modules
/// instantiated at or before `j`, and strictly before it after one edge.
proof fn lemma_path_placed(
    env: ImportEnv,
    mods: Seq<ModuleDesc>,
    plan: Seq<InstanceStep>,
    p: Seq<usize>,
    j: int,
)
    requires
        steps_ok(env, mods, plan),
        0 <= j < plan.len(),
        path_ok(env, mods, p),
        plan[j].module == p[0],
    ensures
        exists|q: int|
            0 <= q <= j && (p.len() >= 2 ==> q < j) && (#[trigger] plan[q]).module == p[p.len() - 1],
    decreases p.len(),
{
    if p.len() == 1 {
        assert(plan[j].module == p[p.len() - 1]);
    } else {
        assert(sib_edge(env, mods, p[0], p[1]));
        let k = choose|k: int| #[trigger] edge_via(env, mods, p[0] as int, k, p[1]);
        assert(step_ok(env, mods, plan, j));
        assert(source_ok(env, mods, p[0] as int, k, plan[j].sources@[k], plan, j));
        let j1 = choose|t: int| 0 <= t < j && (#[trigger] plan[t]).module == p[1];
        let rest = p.drop_first();
        assert forall|t: int| 0 <= t < rest.len() - 1 implies sib_edge(env, mods, #[trigger] rest[t], rest[t + 1]) by {
            assert(rest[t] == p[t + 1] && rest[t + 1] == p[t + 2]);
        }
        assert forall|t: int| 0 <= t < rest.len() implies #[trigger] rest[t] < mods.len() by {
            assert(rest[t] == p[t + 1]);
        }
        lemma_path_placed(env, mods, plan, rest, j1);
        let q = choose|q: int|
            0 <= q <= j1 && (rest.len() >= 2 ==> q < j1) && (#[trigger] plan[q]).module == rest[rest.len() - 1];
        assert(plan[q].module == p[p.len() - 1]);
    }
}

/// A module that the root reaches and that lies on a cycle of any length
/// rules out every plan for the root.
pub proof fn law_reachable_cycle_unlinkable(
    env: ImportEnv,
    mods: Seq<ModuleDesc>,
    root: usize,
    c: usize,
    plan: Seq<InstanceStep>,
)
    requires
        reachable(env, mods, root, c),
        on_cycle(env, mods, c),
    ensures
        !plan_valid(env, mods, root, plan),
{
    if plan_valid(env, mods, root, plan) {
        let last = plan.len() - 1;
        let p = choose|p: Seq<usize>| #[trigger] path_ok(env, mods, p) && p[0] == root && p[p.len() - 1] == c;
        lemma_path_placed(env, mods, plan, p, last);
        let q = choose|q: int| 0 <= q <= last && (p.len() >= 2 ==> q < last) && (#[trigger] plan[q]).module == c;
        let cyc = choose|cyc: Seq<usize>|
            #[trigger] path_ok(env, mods, cyc) && cyc.len() >= 2 && cyc[0] == c && cyc[cyc.len() - 1] == c;
        lemma_path_placed(env, mods, plan, cyc, q);
        let q2 = choose|q2: int| 0 <= q2 <= q && (cyc.len() >= 2 ==> q2 < q) && (#[trigger] plan[q2]).module == c;
        assert(plan[q2].module != plan[q].module);
    }
}

/// Every module that the root reaches is a core module, lies on no cycle,
/// and has every import resolvable.
pub open spec fn graph_sound(env: ImportEnv, mods: Seq<ModuleDesc>, root: usize) -> bool {
    forall|m: usize|
        #[trigger] reachable(env, mods, root, m) ==> {
            &&& m < mods.len()
            &&& mods[m as int].kind == ModuleKind::Core
            &&& !on_cycle(env, mods, m)
            &&& forall|k: int|
                0 <= k < mods[m as int].imports@.len() ==> #[trigger] import_resolvable(env, mods, m, k)
        }
}

/// Import `k` of module `m` has a source: a direct one, or a sibling that exports its name.
pub open spec fn import_resolvable(env: ImportEnv, mods: Seq<ModuleDesc>, m: usize, k: int) -> bool {
    let imp = mods[m as int].imports@[k];
    direct_source(env, imp.namespace@, imp.name@).is_some() || match dep_of(
        mods[m as int].deps@,
        imp.namespace@,
    ) {
        Some(b) => has_name(mods[b as int].exports@, imp.name@),
        None => false,
    }
}

/// On a sound graph no error can be reported, so planning succeeds: with a
/// diamond of dependencies, for one, the shared module is planned once.
pub proof fn law_sound_graph_links(env: ImportEnv, mods: Seq<ModuleDesc>, root: usize, e: LinkError)
    requires
        graph_sound(env, mods, root),
    ensures
        !error_ok(env, mods, root, e),
{
    match e {
        LinkError::NotCore(m) => {
            if error_ok(env, mods, root, e) {
                assert(reachable(env, mods, root, m));
            }
        },
        LinkError::UnknownImport { module, import } => {
            if error_ok(env, mods, root, e) {
                assert(reachable(env, mods, root, module));
                assert(import_resolvable(env, mods, module, import as int));
            }
        },
        LinkError::Cycle(m) => {
            if error_ok(env, mods, root, e) {
                assert(reachable(env, mods, root, m));
            }
        },
    }
}

} // verus!
