//! The dependency graph: every module reachable from the entry through
//! `require()`, each once, dependencies before the modules that require them.
//!
//! The walk alternates file system work (canonicalizing a path, reading a
//! file and running its loaders and scanner) with decisions. [`GraphBuilder`]
//! holds the walk's state and makes the decisions: each call of
//! [`GraphBuilder::step`] takes what the last requested work produced and
//! answers with the next work to do, until the graph is finished or the walk
//! fails.
use vstd::prelude::*;

use crate::error::BundlerError;
use crate::resolver::ResolveResult;

verus! {

/// A module of the bundle: where it was read from, the name it is required
/// by, and its source after the loaders ran.
#[derive(Debug)]
pub struct Module {
    pub path: String,
    pub module_name: String,
    pub source: String,
}

/// The modules of the bundle in emission order; the entry module is last.
#[derive(Debug)]
pub struct DependencyGraph {
    pub modules: Vec<Module>,
}

/// The work the walk asks for next.
pub enum GraphAction {
    /// Canonicalize this path and answer [`GraphEvent::Canonicalized`].
    Canonicalize(String),
    /// Read the file at this canonical path, run the loaders on it as the
    /// module `module_name`, scan its `require()` calls, and answer
    /// [`GraphEvent::Loaded`].
    Load { path: String, module_name: String },
    /// Resolve this module name and answer [`GraphEvent::Resolved`].
    Resolve(String),
    /// The walk is over: here is the graph.
    Finished(DependencyGraph),
    /// The walk failed with this error.
    Failed(BundlerError),
    /// The walk stopped because the requested work failed.
    Aborted,
}

/// What the requested work produced.
pub enum GraphEvent {
    /// The canonical form of the path to canonicalize.
    Canonicalized(String),
    /// The module's source after the loaders, and the modules it requires
    /// by string literal, in order.
    Loaded { source: String, required: Vec<String> },
    /// How the module name resolved.
    Resolved(ResolveResult),
    /// The requested work failed (the caller holds the error).
    Aborted,
}

/// A module being walked: its requirements and how far they are handled.
struct Frame {
    path: String,
    module_name: String,
    source: String,
    required: Vec<String>,
    next: usize,
    /// canonical paths of the modules its handled requirements resolved to
    deps: Ghost<Seq<Seq<char>>>,
    /// the path its requirement was found at, before canonicalization
    origin: Ghost<Seq<char>>,
}

/// The work the walk waits for.
enum Pending {
    Canonicalize { module_name: String },
    Load { path: String, module_name: String },
    Resolve { module: String },
    Over,
}

/// The state of the walk over the dependency graph.
pub struct GraphBuilder {
    /// modules whose requirements are all handled, in completion order
    done: Vec<Module>,
    /// for each done module, the canonical paths its requirements resolved to
    done_deps: Ghost<Seq<Seq<Seq<char>>>>,
    /// modules being walked, the entry at the bottom
    stack: Vec<Frame>,
    pending: Pending,
    /// canonical path of the entry module
    entry: Ghost<Seq<char>>,
    /// for each canonical path loaded, the module name and the source it was loaded with
    loaded: Ghost<Map<Seq<char>, (Seq<char>, Seq<char>)>>,
    /// the path last handed out to canonicalize
    awaiting: Ghost<Seq<char>>,
}

/// What the file system and the resolver answer during a walk, as contracts
/// speak of it: the canonical form of each path, the module names that each
/// canonical file requires once loaded, and how each module name resolves (a
/// found path, or `None` for an external module; a name that is not a key is
/// not found).
pub ghost struct WalkWorld {
    pub canonical: Map<Seq<char>, Seq<char>>,
    pub requires: Map<Seq<char>, Seq<Seq<char>>>,
    pub resolves: Map<Seq<char>, Option<Seq<char>>>,
}

/// The views of a list of strings.
pub open spec fn names(v: Seq<String>) -> Seq<Seq<char>> {
    v.map_values(|s: String| s@)
}

/// The canonical paths that the requirements `reqs` lead to in `w`, in order;
/// an external module leads to none.
pub open spec fn found_deps(w: WalkWorld, reqs: Seq<Seq<char>>) -> Seq<Seq<char>>
    decreases reqs.len(),
{
    if reqs.len() == 0 {
        Seq::empty()
    } else {
        let rest = found_deps(w, reqs.drop_last());
        match w.resolves[reqs.last()] {
            Some(p) => rest.push(w.canonical[p]),
            None => rest,
        }
    }
}

/// Every requirement of `reqs` resolves in `w`, to a file or as external.
pub open spec fn all_resolved(w: WalkWorld, reqs: Seq<Seq<char>>) -> bool {
    forall|k: int| 0 <= k < reqs.len() ==> w.resolves.dom().contains(#[trigger] reqs[k])
}

/// What a finished walk in `w` guarantees of its modules `mods` and their
/// recorded dependencies `deps`: each module is a file that `w` loads, every
/// module it requires resolves, and the modules its requirements lead to are
/// exactly its recorded dependencies, in order.
pub open spec fn walk_closed(w: WalkWorld, mods: Seq<Module>, deps: Seq<Seq<Seq<char>>>) -> bool {
    &&& deps.len() == mods.len()
    &&& forall|j: int|
        0 <= j < mods.len() ==> w.requires.dom().contains((#[trigger] mods[j]).path@) && all_resolved(
            w,
            w.requires[mods[j].path@],
        ) && deps[j] == found_deps(w, w.requires[mods[j].path@])
}

/// In a graph that a walk finished in agreement with `w`, every module that
/// a module requires resolves, and each one found at a file is a module that
/// comes earlier in the graph: the walk followed every `require`, and no
/// dependency cycle remains.
pub proof fn lemma_finished_walk_follows_requires(
    w: WalkWorld,
    mods: Seq<Module>,
    deps: Seq<Seq<Seq<char>>>,
    j: int,
    k: int,
)
    requires
        walk_closed(w, mods, deps),
        dependencies_first(mods, deps),
        0 <= j < mods.len(),
        0 <= k < found_deps(w, w.requires[mods[j].path@]).len(),
    ensures
        all_resolved(w, w.requires[mods[j].path@]),
        has_path_before(mods, found_deps(w, w.requires[mods[j].path@])[k], j),
{
    assert(deps[j] == found_deps(w, w.requires[mods[j].path@]));
    assert(has_path_before(mods, deps[j][k], j));
}

/// In a graph that a walk finished in agreement with `w`, every file reached
/// from one of its modules through a chain of found requirements is one of
/// its modules.
pub proof fn lemma_finished_walk_is_closed(w: WalkWorld, mods: Seq<Module>, deps: Seq<Seq<Seq<char>>>, chain: Seq<Seq<char>>)
    requires
        walk_closed(w, mods, deps),
        dependencies_first(mods, deps),
        chain.len() > 0,
        has_path_before(mods, chain[0], mods.len() as int),
        forall|i: int| 0 <= i < chain.len() - 1 ==> found_deps(w, w.requires[#[trigger] chain[i]]).contains(chain[i + 1]),
    ensures
        forall|i: int| 0 <= i < chain.len() ==> has_path_before(mods, #[trigger] chain[i], mods.len() as int),
    decreases chain.len(),
{
    if chain.len() > 1 {
        let front = chain.drop_last();
        assert forall|i: int| 0 <= i < front.len() - 1 implies found_deps(w, w.requires[#[trigger] front[i]]).contains(
            front[i + 1],
        ) by {
            assert(front[i] == chain[i] && front[i + 1] == chain[i + 1]);
        }
        lemma_finished_walk_is_closed(w, mods, deps, front);
        let n = chain.len() as int;
        assert(has_path_before(mods, front[n - 2], mods.len() as int));
        let j = choose|j: int| 0 <= j < mods.len() as int && j < mods.len() && (#[trigger] mods[j]).path@ == front[n - 2];
        assert(found_deps(w, w.requires[chain[n - 2]]).contains(chain[n - 1]));
        let fd = found_deps(w, w.requires[mods[j].path@]);
        let k = choose|k: int| 0 <= k < fd.len() && fd[k] == chain[n - 1];
        lemma_finished_walk_follows_requires(w, mods, deps, j, k);
        let jj = choose|jj: int| 0 <= jj < j && jj < mods.len() && (#[trigger] mods[jj]).path@ == fd[k];
        assert forall|i: int| 0 <= i < chain.len() implies has_path_before(mods, #[trigger] chain[i], mods.len() as int) by {
            if i < n - 1 {
                assert(chain[i] == front[i]);
            } else {
                assert(mods[jj].path@ == chain[i]);
            }
        }
    }
}

/// Whether `chain` runs through found requirements in `w`: each file requires
/// a module that is found at the next one.
pub open spec fn is_chain(w: WalkWorld, chain: Seq<Seq<char>>) -> bool {
    forall|i: int| 0 <= i < chain.len() - 1 ==> found_deps(w, w.requires[#[trigger] chain[i]]).contains(chain[i + 1])
}

/// Whether `p` is reached from `root` through found requirements in `w`.
pub open spec fn reachable_from(w: WalkWorld, root: Seq<char>, p: Seq<char>) -> bool {
    exists|chain: Seq<Seq<char>>| #[trigger] is_chain(w, chain) && chain.len() > 0 && chain[0] == root && chain.last() == p
}

/// A requirement found at `o` leads to the canonical form of `o`.
proof fn lemma_found_contains(w: WalkWorld, reqs: Seq<Seq<char>>, k: int, o: Seq<char>)
    requires
        0 <= k < reqs.len(),
        w.resolves[reqs[k]] == Some(o),
    ensures
        found_deps(w, reqs).contains(w.canonical[o]),
    decreases reqs.len(),
{
    let rest = found_deps(w, reqs.drop_last());
    if k == reqs.len() - 1 {
        assert(found_deps(w, reqs) == rest.push(w.canonical[o]));
        assert(found_deps(w, reqs)[rest.len() as int] == w.canonical[o]);
    } else {
        assert(reqs.drop_last()[k] == reqs[k]);
        lemma_found_contains(w, reqs.drop_last(), k, o);
        let j = choose|j: int| 0 <= j < rest.len() && rest[j] == w.canonical[o];
        match w.resolves[reqs.last()] {
            Some(p) => {
                assert(found_deps(w, reqs)[j] == rest[j]);
            },
            None => {},
        }
    }
}

/// What is reached from `root` leads on to what it requires.
proof fn lemma_reach_extend(w: WalkWorld, root: Seq<char>, p: Seq<char>, q: Seq<char>)
    requires
        reachable_from(w, root, p),
        found_deps(w, w.requires[p]).contains(q),
    ensures
        reachable_from(w, root, q),
{
    let chain = choose|chain: Seq<Seq<char>>| #[trigger] is_chain(w, chain) && chain.len() > 0 && chain[0] == root && chain.last() == p;
    let c2 = chain.push(q);
    assert forall|i: int| 0 <= i < c2.len() - 1 implies found_deps(w, w.requires[#[trigger] c2[i]]).contains(c2[i + 1]) by {
        if i < chain.len() - 1 {
            assert(c2[i] == chain[i] && c2[i + 1] == chain[i + 1]);
        } else {
            assert(c2[i] == p && c2[i + 1] == q);
        }
    }
    assert(is_chain(w, c2));
}

/// A root reaches itself.
proof fn lemma_reach_self(w: WalkWorld, root: Seq<char>)
    ensures
        reachable_from(w, root, root),
{
    let c = seq![root];
    assert(is_chain(w, c));
}

/// The graph of a walk that finished in agreement with `w`, and whose
/// modules were all reached from its entry (as `GraphBuilder::step` states),
/// holds exactly the files reached from the entry through found
/// requirements.
pub proof fn lemma_finished_walk_is_exactly_reachable(
    w: WalkWorld,
    mods: Seq<Module>,
    deps: Seq<Seq<Seq<char>>>,
    p: Seq<char>,
)
    requires
        walk_closed(w, mods, deps),
        dependencies_first(mods, deps),
        mods.len() > 0,
        forall|j: int| 0 <= j < mods.len() ==> reachable_from(w, mods.last().path@, (#[trigger] mods[j]).path@),
    ensures
        has_path_before(mods, p, mods.len() as int) <==> reachable_from(w, mods.last().path@, p),
{
    let root = mods.last().path@;
    if has_path_before(mods, p, mods.len() as int) {
        let j = choose|j: int| 0 <= j < mods.len() as int && j < mods.len() && (#[trigger] mods[j]).path@ == p;
        assert(reachable_from(w, root, mods[j].path@));
    }
    if reachable_from(w, root, p) {
        let chain = choose|chain: Seq<Seq<char>>| #[trigger] is_chain(w, chain) && chain.len() > 0 && chain[0] == root
            && chain.last() == p;
        assert(mods[mods.len() - 1].path@ == chain[0]);
        assert(has_path_before(mods, chain[0], mods.len() as int));
        lemma_finished_walk_is_closed(w, mods, deps, chain);
        assert(has_path_before(mods, chain[chain.len() - 1], mods.len() as int));
    }
}

/// Along a chain of found requirements that starts at module `j0` of a
/// finished graph, each file is a module that comes earlier than the one
/// before.
proof fn lemma_chain_descends(w: WalkWorld, mods: Seq<Module>, deps: Seq<Seq<Seq<char>>>, chain: Seq<Seq<char>>, j0: int) -> (j: int)
    requires
        walk_closed(w, mods, deps),
        dependencies_first(mods, deps),
        0 <= j0 < mods.len(),
        chain.len() > 0,
        mods[j0].path@ == chain[0],
        is_chain(w, chain),
    ensures
        0 <= j <= j0 - (chain.len() - 1),
        mods[j].path@ == chain.last(),
    decreases chain.len(),
{
    if chain.len() == 1 {
        j0
    } else {
        let front = chain.drop_last();
        assert forall|i: int| 0 <= i < front.len() - 1 implies found_deps(w, w.requires[#[trigger] front[i]]).contains(
            front[i + 1],
        ) by {
            assert(front[i] == chain[i] && front[i + 1] == chain[i + 1]);
        }
        let jp = lemma_chain_descends(w, mods, deps, front, j0);
        let n = chain.len() as int;
        assert(found_deps(w, w.requires[chain[n - 2]]).contains(chain[n - 1]));
        let fd = found_deps(w, w.requires[mods[jp].path@]);
        let k = choose|k: int| 0 <= k < fd.len() && fd[k] == chain[n - 1];
        lemma_finished_walk_follows_requires(w, mods, deps, jp, k);
        let jj = choose|jj: int| 0 <= jj < jp && jj < mods.len() && (#[trigger] mods[jj]).path@ == fd[k];
        jj
    }
}

/// A walk that finished in agreement with `w` leaves no cycle: no chain of
/// found requirements through its modules comes back to where it started.
pub proof fn lemma_finished_walk_has_no_cycle(w: WalkWorld, mods: Seq<Module>, deps: Seq<Seq<Seq<char>>>, chain: Seq<Seq<char>>)
    requires
        walk_closed(w, mods, deps),
        dependencies_first(mods, deps),
        distinct(module_paths(mods)),
        chain.len() >= 2,
        is_chain(w, chain),
        has_path_before(mods, chain[0], mods.len() as int),
    ensures
        chain.last() != chain[0],
{
    let j0 = choose|j: int| 0 <= j < mods.len() as int && j < mods.len() && (#[trigger] mods[j]).path@ == chain[0];
    let j = lemma_chain_descends(w, mods, deps, chain, j0);
    assert(module_paths(mods)[j] == mods[j].path@);
    assert(module_paths(mods)[j0] == mods[j0].path@);
}

/// Handling one more requirement adds what it leads to.
proof fn lemma_found_deps_take(w: WalkWorld, reqs: Seq<Seq<char>>, k: int)
    requires
        0 <= k < reqs.len(),
    ensures
        found_deps(w, reqs.take(k + 1)) == match w.resolves[reqs[k]] {
            Some(p) => found_deps(w, reqs.take(k)).push(w.canonical[p]),
            None => found_deps(w, reqs.take(k)),
        },
{
    assert(reqs.take(k + 1).drop_last() =~= reqs.take(k));
    assert(reqs.take(k + 1).last() == reqs[k]);
}

/// A frame's requirements as `w` gives them, and the dependencies of the
/// first `h` of them, where `h` counts the requirements handled: all those
/// handed out when `all`, else all but the last one handed out.
spec fn frame_ok(w: WalkWorld, f: Frame, all: bool) -> bool {
    let reqs = names(f.required@);
    let h: int = if all {
        f.next as int
    } else {
        f.next - 1
    };
    &&& w.requires.dom().contains(f.path@) && reqs == w.requires[f.path@]
    &&& (all || f.next >= 1)
    &&& f.deps@ == found_deps(w, reqs.take(h))
    &&& all_resolved(w, reqs.take(h))
}

/// A frame walked for its parent's last handed-out requirement: that
/// requirement was found at the child's origin, whose canonical form is the
/// child's path.
spec fn linked(w: WalkWorld, parent: Frame, child: Frame) -> bool {
    let q = names(parent.required@)[parent.next - 1];
    &&& w.resolves.dom().contains(q)
    &&& w.resolves[q] == Some(child.origin@)
    &&& child.path@ == w.canonical[child.origin@]
}

/// A finished module whose requirements `w` gives, with its dependencies.
spec fn done_ok(w: WalkWorld, m: Module, deps: Seq<Seq<char>>) -> bool {
    &&& w.requires.dom().contains(m.path@)
    &&& all_resolved(w, w.requires[m.path@])
    &&& deps == found_deps(w, w.requires[m.path@])
}

/// The paths of a sequence of modules.
pub open spec fn module_paths(mods: Seq<Module>) -> Seq<Seq<char>> {
    mods.map_values(|m: Module| m.path@)
}

/// No element occurs twice.
pub open spec fn distinct(s: Seq<Seq<char>>) -> bool {
    forall|a: int, b: int| 0 <= a < b < s.len() ==> #[trigger] s[a] != #[trigger] s[b]
}

/// Whether one of the first `bound` modules has path `p`.
pub open spec fn has_path_before(mods: Seq<Module>, p: Seq<char>, bound: int) -> bool {
    exists|j: int| 0 <= j < bound && j < mods.len() && (#[trigger] mods[j]).path@ == p
}

/// Each module's dependencies are modules that come before it.
pub open spec fn dependencies_first(mods: Seq<Module>, deps: Seq<Seq<Seq<char>>>) -> bool {
    &&& deps.len() == mods.len()
    &&& forall|i: int, k: int|
        0 <= i < mods.len() && 0 <= k < deps[i].len() ==> has_path_before(mods, #[trigger] deps[i][k], i)
}

/// A path found among the first modules is still found when modules are added.
proof fn lemma_has_path_grow(mods: Seq<Module>, more: Seq<Module>, p: Seq<char>, bound: int, bound2: int)
    requires
        has_path_before(mods, p, bound),
        bound <= bound2,
        mods.len() <= more.len(),
        forall|j: int| 0 <= j < mods.len() ==> more[j] == mods[j],
    ensures
        has_path_before(more, p, bound2),
{
    let j = choose|j: int| 0 <= j < bound && j < mods.len() && (#[trigger] mods[j]).path@ == p;
    assert(more[j] == mods[j]);
}

/// What is left to walk in each module on the stack: its requirements, and
/// how many of them are handled.
spec fn progress(frames: Seq<Frame>) -> Seq<(Seq<Seq<char>>, int)> {
    frames.map_values(|f: Frame| (f.required@.map_values(|s: String| s@), f.next as int))
}

/// The first unhandled requirement of the innermost module that has one.
spec fn first_unhandled(p: Seq<(Seq<Seq<char>>, int)>) -> Option<Seq<char>>
    decreases p.len(),
{
    if p.len() == 0 {
        None
    } else if p.last().1 < p.last().0.len() {
        Some(p.last().0[p.last().1])
    } else {
        first_unhandled(p.drop_last())
    }
}

/// Handing out the innermost module's next requirement keeps the walk in
/// agreement with `w`.
proof fn lemma_resolve_keeps(st0: GraphBuilder, st1: GraphBuilder, w: WalkWorld, n: int)
    requires
        st0.ready_for(w),
        n == st0.stack@.len(),
        n > 0,
        st1.stack@.len() == n,
        forall|i: int| 0 <= i < n - 1 ==> st1.stack@[i] == st0.stack@[i],
        st1.stack@[n - 1].path == st0.stack@[n - 1].path,
        st1.stack@[n - 1].required == st0.stack@[n - 1].required,
        st1.stack@[n - 1].deps == st0.stack@[n - 1].deps,
        st1.stack@[n - 1].origin == st0.stack@[n - 1].origin,
        st1.stack@[n - 1].next == st0.stack@[n - 1].next + 1,
        st0.stack@[n - 1].next < st0.stack@[n - 1].required@.len(),
        st1.done == st0.done,
        st1.done_deps == st0.done_deps,
        st1.pending matches Pending::Resolve { module } && module@ == st0.stack@[n - 1].required@[st0.stack@[n
            - 1].next as int]@,
        st1.entry == st0.entry,
    ensures
        st1.consistent_with(w),
{
    let t = n - 1;
    assert forall|i: int| 0 <= i < n implies reachable_from(w, st1.entry@, (#[trigger] st1.stack@[i]).path@) by {
        assert(reachable_from(w, st0.entry@, st0.stack@[i].path@));
    }
    assert forall|j: int| 0 <= j < st1.done@.len() implies reachable_from(w, st1.entry@, (#[trigger] st1.done@[j]).path@) by {
        assert(reachable_from(w, st0.entry@, st0.done@[j].path@));
    }
    assert(frame_ok(w, st0.stack@[t], true));
    assert(frame_ok(w, st1.stack@[t], false));
    assert forall|i: int| 0 <= i < n implies frame_ok(w, #[trigger] st1.stack@[i], false && i == n - 1) by {
        if i < t {
            assert(frame_ok(w, st0.stack@[i], true && i == n - 1));
        }
    }
    assert forall|i: int| 1 <= i < n implies linked(w, st1.stack@[i - 1], #[trigger] st1.stack@[i]) by {
        assert(linked(w, st0.stack@[i - 1], st0.stack@[i]));
    }
    assert forall|j: int| 0 <= j < st1.done@.len() implies done_ok(w, #[trigger] st1.done@[j], st1.done_deps@[j]) by {
        assert(done_ok(w, st0.done@[j], st0.done_deps@[j]));
    }
    assert(st1.frames_ok(w, false));
    assert(names(st1.stack@[t].required@)[st1.stack@[t].next - 1] == st0.stack@[t].required@[st0.stack@[t].next as int]@);
    assert(st1.pending_ok(w));
}

/// Finishing the innermost module, all of whose requirements are handled,
/// keeps the walk in agreement with `w`.
proof fn lemma_pop_keeps(st0: GraphBuilder, st1: GraphBuilder, w: WalkWorld, n: int)
    requires
        st0.ready_for(w),
        n == st0.stack@.len(),
        n > 0,
        st0.stack@[n - 1].next == st0.stack@[n - 1].required@.len(),
        st1.stack@ == st0.stack@.drop_last(),
        st1.done@.len() == st0.done@.len() + 1,
        forall|j: int| 0 <= j < st0.done@.len() ==> st1.done@[j] == st0.done@[j],
        st1.done@.last().path == st0.stack@[n - 1].path,
        st1.done_deps@ == st0.done_deps@.push(st0.stack@[n - 1].deps@),
        st1.entry == st0.entry,
    ensures
        st1.reach_ok(w),
        st1.done_deps@.len() == st1.done@.len(),
        forall|j: int| 0 <= j < st1.done@.len() ==> done_ok(w, #[trigger] st1.done@[j], st1.done_deps@[j]),
        forall|i: int| 0 <= i < n - 1 ==> frame_ok(w, #[trigger] st1.stack@[i], false),
        forall|i: int| 1 <= i < n - 1 ==> linked(w, st1.stack@[i - 1], #[trigger] st1.stack@[i]),
        n >= 2 ==> linked(w, st0.stack@[n - 2], st0.stack@[n - 1]),
{
    let t = n - 1;
    let f = st0.stack@[t];
    assert forall|i: int| 0 <= i < n - 1 implies reachable_from(w, st1.entry@, (#[trigger] st1.stack@[i]).path@) by {
        assert(reachable_from(w, st0.entry@, st0.stack@[i].path@));
    }
    assert forall|j: int| 0 <= j < st1.done@.len() implies reachable_from(w, st1.entry@, (#[trigger] st1.done@[j]).path@) by {
        if j < st0.done@.len() {
            assert(reachable_from(w, st0.entry@, st0.done@[j].path@));
        } else {
            assert(reachable_from(w, st0.entry@, st0.stack@[t].path@));
        }
    }
    assert(frame_ok(w, f, true));
    let reqs = names(f.required@);
    assert(reqs.take(f.next as int) =~= reqs);
    assert forall|j: int| 0 <= j < st1.done@.len() implies done_ok(w, #[trigger] st1.done@[j], st1.done_deps@[j]) by {
        if j < st0.done@.len() {
            assert(done_ok(w, st0.done@[j], st0.done_deps@[j]));
            assert(st1.done_deps@[j] == st0.done_deps@[j]);
        } else {
            assert(st1.done@[j].path == f.path);
            assert(st1.done_deps@[j] == f.deps@);
        }
    }
    assert forall|i: int| 0 <= i < n - 1 implies frame_ok(w, #[trigger] st1.stack@[i], false) by {
        assert(frame_ok(w, st0.stack@[i], true && i == n - 1));
    }
    assert forall|i: int| 1 <= i < n - 1 implies linked(w, st1.stack@[i - 1], #[trigger] st1.stack@[i]) by {
        assert(linked(w, st0.stack@[i - 1], st0.stack@[i]));
    }
    if n >= 2 {
        assert(linked(w, st0.stack@[n - 2], st0.stack@[(n - 2) + 1]));
    }
}

/// Recording a finished child as its parent's dependency makes the parent
/// the innermost module with every handed-out requirement handled.
proof fn lemma_record_ready(st1: GraphBuilder, st2: GraphBuilder, w: WalkWorld, origin: Seq<char>, child: Seq<char>)
    requires
        st1.stack@.len() > 0,
        st1.done_deps@.len() == st1.done@.len(),
        forall|j: int| 0 <= j < st1.done@.len() ==> done_ok(w, #[trigger] st1.done@[j], st1.done_deps@[j]),
        forall|i: int| 0 <= i < st1.stack@.len() ==> frame_ok(w, #[trigger] st1.stack@[i], false),
        forall|i: int| 1 <= i < st1.stack@.len() ==> linked(w, st1.stack@[i - 1], #[trigger] st1.stack@[i]),
        ({
            let q = names(st1.stack@.last().required@)[st1.stack@.last().next - 1];
            &&& w.resolves.dom().contains(q)
            &&& w.resolves[q] == Some(origin)
            &&& child == w.canonical[origin]
        }),
        st1.stack@.last().next <= st1.stack@.last().required@.len(),
        st2.stack@.len() == st1.stack@.len(),
        forall|i: int| 0 <= i < st1.stack@.len() - 1 ==> st2.stack@[i] == st1.stack@[i],
        ({
            let t = st1.stack@.len() - 1;
            let (a, b) = (st1.stack@[t], st2.stack@[t]);
            &&& b.path == a.path
            &&& b.required == a.required
            &&& b.next == a.next
            &&& b.origin == a.origin
            &&& b.deps@ == a.deps@.push(child)
        }),
        st2.done == st1.done,
        st2.done_deps == st1.done_deps,
        st1.reach_ok(w),
        st2.entry == st1.entry,
    ensures
        st2.ready_for(w),
{
    let n = st1.stack@.len() as int;
    let t = n - 1;
    let p = st1.stack@[t];
    assert forall|i: int| 0 <= i < n implies reachable_from(w, st2.entry@, (#[trigger] st2.stack@[i]).path@) by {
        assert(reachable_from(w, st1.entry@, st1.stack@[i].path@));
    }
    assert forall|j: int| 0 <= j < st2.done@.len() implies reachable_from(w, st2.entry@, (#[trigger] st2.done@[j]).path@) by {
        assert(reachable_from(w, st1.entry@, st1.done@[j].path@));
    }
    assert(frame_ok(w, p, false));
    let reqs = names(p.required@);
    lemma_found_deps_take(w, reqs, p.next - 1);
    assert(reqs.take(p.next - 1 + 1) =~= reqs.take(p.next as int));
    assert(reqs[p.next - 1] == names(p.required@)[p.next - 1]);
    assert(frame_ok(w, st2.stack@[t], true)) by {
        assert forall|k: int| 0 <= k < reqs.take(p.next as int).len() implies w.resolves.dom().contains(
            #[trigger] reqs.take(p.next as int)[k],
        ) by {
            if k < p.next - 1 {
                assert(reqs.take(p.next as int)[k] == reqs.take(p.next - 1)[k]);
            }
        }
    }
    assert forall|i: int| 0 <= i < n implies frame_ok(w, #[trigger] st2.stack@[i], true && i == n - 1) by {
        if i < t {
            assert(frame_ok(w, st1.stack@[i], false));
        }
    }
    assert forall|i: int| 1 <= i < n implies linked(w, st2.stack@[i - 1], #[trigger] st2.stack@[i]) by {
        assert(linked(w, st1.stack@[i - 1], st1.stack@[i]));
    }
    assert forall|j: int| 0 <= j < st2.done@.len() implies done_ok(w, #[trigger] st2.done@[j], st2.done_deps@[j]) by {
        assert(done_ok(w, st1.done@[j], st1.done_deps@[j]));
    }
}

/// An external module as the answer to the awaited resolution handles it.
proof fn lemma_external_ready(st: GraphBuilder, w: WalkWorld)
    requires
        st.frames_ok(w, false),
        st.pending_ok(w),
        st.pending is Resolve,
        st.stack@.last().next <= st.stack@.last().required@.len(),
        w.resolves.dom().contains(st.awaited_name()),
        w.resolves[st.awaited_name()] is None,
        st.reach_ok(w),
    ensures
        st.ready_for(w),
{
    let n = st.stack@.len() as int;
    let t = n - 1;
    let p = st.stack@[t];
    assert(frame_ok(w, p, false));
    let reqs = names(p.required@);
    lemma_found_deps_take(w, reqs, p.next - 1);
    assert(reqs.take(p.next - 1 + 1) =~= reqs.take(p.next as int));
    assert(frame_ok(w, p, true)) by {
        assert forall|k: int| 0 <= k < reqs.take(p.next as int).len() implies w.resolves.dom().contains(
            #[trigger] reqs.take(p.next as int)[k],
        ) by {
            if k < p.next - 1 {
                assert(reqs.take(p.next as int)[k] == reqs.take(p.next - 1)[k]);
            }
        }
    }
    assert forall|i: int| 0 <= i < n implies frame_ok(w, #[trigger] st.stack@[i], true && i == n - 1) by {
        assert(frame_ok(w, st.stack@[i], false && i == n - 1));
    }
}

/// A loaded module pushed as the innermost frame, its requirements as `w`
/// gives them and none handed out yet, is ready to hand them out.
proof fn lemma_push_ready(st1: GraphBuilder, st2: GraphBuilder, w: WalkWorld)
    requires
        st1.frames_ok(w, false),
        st1.pending_ok(w),
        st1.pending matches Pending::Load { path, .. } && w.requires.dom().contains(path@)
            && names(st2.stack@.last().required@) == w.requires[path@] && st2.stack@.last().path@ == path@,
        st2.stack@.len() == st1.stack@.len() + 1,
        forall|i: int| 0 <= i < st1.stack@.len() ==> st2.stack@[i] == st1.stack@[i],
        st2.stack@.last().next == 0,
        st2.stack@.last().deps@ == Seq::<Seq<char>>::empty(),
        st2.stack@.last().origin == st1.awaiting,
        st2.done == st1.done,
        st2.done_deps == st1.done_deps,
        st1.reach_ok(w),
        st1.stack@.len() == 0 ==> st1.done@.len() == 0 && st2.entry@ == st2.stack@.last().path@,
        st1.stack@.len() > 0 ==> st2.entry == st1.entry,
        st1.stack@.len() > 0 ==> st1.stack@.last().next <= st1.stack@.last().required@.len(),
    ensures
        st2.ready_for(w),
{
    let n = st2.stack@.len() as int;
    let t = n - 1;
    let f = st2.stack@[t];
    if st1.stack@.len() == 0 {
        lemma_reach_self(w, f.path@);
    } else {
        let par = st1.stack@.last();
        assert(frame_ok(w, par, false));
        let reqs = names(par.required@);
        lemma_found_contains(w, reqs, par.next - 1, st1.awaiting@);
        assert(reachable_from(w, st1.entry@, par.path@));
        lemma_reach_extend(w, st1.entry@, par.path@, f.path@);
    }
    assert forall|i: int| 0 <= i < n implies reachable_from(w, st2.entry@, (#[trigger] st2.stack@[i]).path@) by {
        if i < t {
            assert(reachable_from(w, st1.entry@, st1.stack@[i].path@));
        }
    }
    assert forall|j: int| 0 <= j < st2.done@.len() implies reachable_from(w, st2.entry@, (#[trigger] st2.done@[j]).path@) by {
        assert(reachable_from(w, st1.entry@, st1.done@[j].path@));
    }
    assert(names(f.required@).take(0) =~= Seq::<Seq<char>>::empty());
    assert(frame_ok(w, f, true));
    assert forall|i: int| 0 <= i < n implies frame_ok(w, #[trigger] st2.stack@[i], true && i == n - 1) by {
        if i < t {
            assert(frame_ok(w, st1.stack@[i], false && i == st1.stack@.len() - 1));
        }
    }
    assert forall|i: int| 1 <= i < n implies linked(w, st2.stack@[i - 1], #[trigger] st2.stack@[i]) by {
        if i < t {
            assert(linked(w, st1.stack@[i - 1], st1.stack@[i]));
        } else {
            assert(st2.stack@[i - 1] == st1.stack@.last());
        }
    }
    assert forall|j: int| 0 <= j < st2.done@.len() implies done_ok(w, #[trigger] st2.done@[j], st2.done_deps@[j]) by {
        assert(done_ok(w, st1.done@[j], st1.done_deps@[j]));
    }
}

impl GraphBuilder {
    /// The requirement the walk hands out next: the first unhandled one of the
    /// innermost module being walked that has one left, or none when every
    /// module on the stack has all its requirements handled.
    pub closed spec fn next_requirement(&self) -> Option<Seq<char>> {
        first_unhandled(progress(self.stack@))
    }

    /// The path the walk last asked to canonicalize: the entry, or the file
    /// that a requirement was found at.
    pub closed spec fn awaited_origin(&self) -> Seq<char> {
        self.awaiting@
    }

    /// Whether `ev` is what `w` answers to the work the walk waits for.
    pub open spec fn answered_by(&self, w: WalkWorld, ev: GraphEvent) -> bool {
        match ev {
            GraphEvent::Canonicalized(c) => w.canonical.dom().contains(self.awaited_origin()) && c@
                == w.canonical[self.awaited_origin()],
            GraphEvent::Loaded { required, .. } => w.requires.dom().contains(self.awaited_path()) && names(
                required@,
            ) == w.requires[self.awaited_path()],
            GraphEvent::Resolved(r) => match r {
                ResolveResult::Found(p) => w.resolves.dom().contains(self.awaited_name()) && w.resolves[self.awaited_name()]
                    == Some(p@),
                ResolveResult::External => w.resolves.dom().contains(self.awaited_name())
                    && w.resolves[self.awaited_name()] is None,
                ResolveResult::NotFound => !w.resolves.dom().contains(self.awaited_name()),
            },
            GraphEvent::Aborted => true,
        }
    }

    /// The frames and finished modules agree with `w` (see `frame_ok`,
    /// `linked`, `done_ok`); `top_all` when the innermost frame has every
    /// requirement handed out so far handled.
    closed spec fn frames_ok(&self, w: WalkWorld, top_all: bool) -> bool {
        let n = self.stack@.len();
        &&& forall|i: int| 0 <= i < n ==> frame_ok(w, #[trigger] self.stack@[i], top_all && i == n - 1)
        &&& forall|i: int| 1 <= i < n ==> linked(w, self.stack@[i - 1], #[trigger] self.stack@[i])
        &&& self.done_deps@.len() == self.done@.len()
        &&& forall|j: int| 0 <= j < self.done@.len() ==> done_ok(w, #[trigger] self.done@[j], self.done_deps@[j])
    }

    /// The awaited work agrees with `w`: the name awaited is the innermost
    /// module's last requirement handed out, which was found at the path
    /// being canonicalized, whose canonical form is the path being loaded.
    closed spec fn pending_ok(&self, w: WalkWorld) -> bool {
        let n = self.stack@.len();
        let top = self.stack@.last();
        let q = names(top.required@)[top.next - 1];
        match self.pending {
            Pending::Resolve { module } => n > 0 && module@ == q,
            Pending::Canonicalize { .. } => n > 0 ==> w.resolves.dom().contains(q) && w.resolves[q] == Some(
                self.awaiting@,
            ),
            Pending::Load { path, .. } => w.canonical.dom().contains(self.awaiting@) && path@ == w.canonical[self.awaiting@]
                && (n > 0 ==> w.resolves.dom().contains(q) && w.resolves[q] == Some(self.awaiting@)),
            Pending::Over => true,
        }
    }

    /// Whether the walk so far agrees with what `w` answers: every module
    /// finished or being walked was loaded as `w` gives it, and its recorded
    /// dependencies are where its handled requirements lead in `w`.
    pub closed spec fn consistent_with(&self, w: WalkWorld) -> bool {
        self.pending is Over || (self.frames_ok(w, false) && self.pending_ok(w) && self.reach_ok(w))
    }

    /// Every module finished or being walked is reached from the entry
    /// through found requirements in `w`.
    closed spec fn reach_ok(&self, w: WalkWorld) -> bool {
        &&& forall|i: int| 0 <= i < self.stack@.len() ==> reachable_from(w, self.entry@, (#[trigger] self.stack@[i]).path@)
        &&& forall|j: int| 0 <= j < self.done@.len() ==> reachable_from(w, self.entry@, (#[trigger] self.done@[j]).path@)
    }

    /// The state in which the walk hands out the next requirement, agreeing
    /// with `w`.
    closed spec fn ready_for(&self, w: WalkWorld) -> bool {
        self.frames_ok(w, true) && self.reach_ok(w)
    }

    /// The modules whose requirements are all handled, in completion order.
    pub closed spec fn finished_modules(&self) -> Seq<Module> {
        self.done@
    }

    /// For each finished module, the canonical paths that its requirements
    /// resolved to, in order.
    pub closed spec fn finished_dependencies(&self) -> Seq<Seq<Seq<char>>> {
        self.done_deps@
    }

    /// The canonical paths of the modules being walked, the entry first.
    pub closed spec fn walk_stack(&self) -> Seq<Seq<char>> {
        self.stack@.map_values(|f: Frame| f.path@)
    }

    /// The canonical path of the entry module, once it is known.
    pub closed spec fn entry_path(&self) -> Seq<char> {
        self.entry@
    }

    /// For each canonical path loaded so far, the module name it was loaded
    /// as and its source after the loaders.
    pub closed spec fn loaded_modules(&self) -> Map<Seq<char>, (Seq<char>, Seq<char>)> {
        self.loaded@
    }

    /// The canonical path the walk waits to have loaded.
    pub closed spec fn awaited_path(&self) -> Seq<char> {
        match self.pending {
            Pending::Load { path, .. } => path@,
            _ => Seq::empty(),
        }
    }

    /// Whether the walk is over.
    pub closed spec fn is_over(&self) -> bool {
        self.pending is Over
    }

    /// The walk waits for a canonical path.
    pub closed spec fn awaits_canonical(&self) -> bool {
        self.pending is Canonicalize
    }

    /// The walk waits for a loaded module.
    pub closed spec fn awaits_load(&self) -> bool {
        self.pending is Load
    }

    /// The walk waits for a resolution.
    pub closed spec fn awaits_resolution(&self) -> bool {
        self.pending is Resolve
    }

    /// The module name of the awaited work: the name a path is canonicalized
    /// or loaded for, or the name being resolved.
    pub closed spec fn awaited_name(&self) -> Seq<char> {
        match self.pending {
            Pending::Canonicalize { module_name } => module_name@,
            Pending::Load { module_name, .. } => module_name@,
            Pending::Resolve { module } => module@,
            Pending::Over => Seq::empty(),
        }
    }

    /// Whether `ev` answers the work the walk waits for.
    pub open spec fn answers(&self, ev: GraphEvent) -> bool {
        match ev {
            GraphEvent::Canonicalized(_) => self.awaits_canonical(),
            GraphEvent::Loaded { .. } => self.awaits_load(),
            GraphEvent::Resolved(_) => self.awaits_resolution(),
            GraphEvent::Aborted => !self.is_over(),
        }
    }

    /// The walk's invariant (a finished or failed walk keeps none).
    pub closed spec fn wf(&self) -> bool {
        self.pending is Over || self.inv()
    }

    closed spec fn inv_distinct(&self) -> bool {
        let done_paths = module_paths(self.done@);
        &&& distinct(done_paths)
        &&& distinct(self.walk_stack())
        &&& forall|i: int, j: int|
            0 <= i < done_paths.len() && 0 <= j < self.walk_stack().len() ==> #[trigger] done_paths[i]
                != #[trigger] self.walk_stack()[j]
    }

    closed spec fn inv_frames(&self) -> bool {
        &&& forall|i: int|
            0 <= i < self.stack@.len() ==> (#[trigger] self.stack@[i]).next <= self.stack@[i].required@.len()
        &&& forall|i: int, k: int|
            0 <= i < self.stack@.len() && 0 <= k < self.stack@[i].deps@.len() ==> has_path_before(
                self.done@,
                #[trigger] self.stack@[i].deps@[k],
                self.done@.len() as int,
            )
        &&& self.stack@.len() > 0 ==> self.stack@[0].path@ == self.entry@
            && self.stack@[0].module_name@ == "__entry__"@
    }

    closed spec fn inv_pending(&self) -> bool {
        let done_paths = module_paths(self.done@);
        &&& match self.pending {
            Pending::Canonicalize { module_name } => self.stack@.len() == 0 ==> module_name@ == "__entry__"@,
            Pending::Load { path, module_name } => {
                &&& !done_paths.contains(path@)
                &&& !self.walk_stack().contains(path@)
                &&& self.stack@.len() == 0 ==> module_name@ == "__entry__"@
            },
            Pending::Resolve { .. } => self.stack@.len() > 0,
            Pending::Over => true,
        }
        &&& self.stack@.len() == 0 && !(self.pending is Over) ==> self.done@.len() == 0
    }

    closed spec fn inv_loaded(&self) -> bool {
        &&& forall|j: int|
            0 <= j < self.done@.len() ==> self.loaded@.contains_key((#[trigger] self.done@[j]).path@)
                && self.loaded@[self.done@[j].path@] == (self.done@[j].module_name@, self.done@[j].source@)
        &&& forall|i: int|
            0 <= i < self.stack@.len() ==> self.loaded@.contains_key((#[trigger] self.stack@[i]).path@)
                && self.loaded@[self.stack@[i].path@] == (self.stack@[i].module_name@, self.stack@[i].source@)
    }

    closed spec fn inv(&self) -> bool {
        &&& self.inv_loaded()
        &&& self.inv_distinct()
        &&& dependencies_first(self.done@, self.done_deps@)
        &&& self.inv_frames()
        &&& self.inv_pending()
    }

    /// Starts the walk at the entry file.
    pub fn start(entry: String) -> (r: (Self, GraphAction))
        ensures
            r.0.wf(),
            r.0.awaits_canonical(),
            r.0.finished_modules().len() == 0,
            r.0.walk_stack().len() == 0,
            r.0.loaded_modules() == Map::<Seq<char>, (Seq<char>, Seq<char>)>::empty(),
            r.1 matches GraphAction::Canonicalize(p) && p@ == entry@,
            r.0.awaited_origin() == entry@,
            forall|w: WalkWorld| #[trigger] r.0.consistent_with(w),
    {
        let b = GraphBuilder {
            done: Vec::new(),
            done_deps: Ghost(Seq::empty()),
            stack: Vec::new(),
            pending: Pending::Canonicalize { module_name: "__entry__".to_owned() },
            entry: Ghost(Seq::empty()),
            loaded: Ghost(Map::empty()),
            awaiting: Ghost(entry@),
        };
        assert(module_paths(b.done@) =~= Seq::<Seq<char>>::empty());
        assert(b.walk_stack() =~= Seq::<Seq<char>>::empty());
        (b, GraphAction::Canonicalize(entry))
    }

    /// Adds `path` to the dependencies of the innermost module being walked.
    fn record_dependency(&mut self, path: Ghost<Seq<char>>)
        requires
            old(self).stack@.len() > 0,
        ensures
            final(self).stack@.len() == old(self).stack@.len(),
            forall|i: int|
                0 <= i < old(self).stack@.len() - 1 ==> final(self).stack@[i] == old(self).stack@[i],
            ({
                let t = old(self).stack@.len() - 1;
                let (a, b) = (old(self).stack@[t], final(self).stack@[t]);
                &&& b.path == a.path
                &&& b.module_name == a.module_name
                &&& b.source == a.source
                &&& b.required == a.required
                &&& b.next == a.next
                &&& b.origin == a.origin
                &&& b.deps@ == a.deps@.push(path@)
            }),
            final(self).done == old(self).done,
            final(self).done_deps == old(self).done_deps,
            final(self).pending == old(self).pending,
            final(self).entry == old(self).entry,
            final(self).loaded == old(self).loaded,
    {
        let mut f = self.stack.pop().unwrap();
        f.deps = Ghost(f.deps@.push(path@));
        self.stack.push(f);
    }

    /// Continues the walk: hands out the next unhandled requirement of the
    /// innermost module, finishing modules whose requirements are all handled,
    /// or finishes the graph when the entry module is done.
    fn advance(&mut self) -> (a: GraphAction)
        requires
            old(self).inv(),
            old(self).pending is Resolve,
            old(self).stack@.len() > 0,
        ensures
            final(self).wf(),
            final(self).entry_path() == old(self).entry_path(),
            final(self).loaded_modules() == old(self).loaded_modules(),
            final(self).finished_dependencies().len() >= old(self).finished_dependencies().len(),
            a is Resolve || a is Finished,
            a is Resolve ==> final(self).awaits_resolution() && !final(self).is_over(),
            a matches GraphAction::Resolve(m) ==> old(self).next_requirement() == Some(m@)
                && final(self).awaited_name() == m@,
            a is Finished <==> old(self).next_requirement() is None,
            a matches GraphAction::Finished(g) ==> {
                &&& final(self).is_over()
                &&& dependencies_first(g.modules@, final(self).finished_dependencies())
                &&& distinct(module_paths(g.modules@))
                &&& g.modules@.len() > 0
                &&& g.modules@.last().path@ == old(self).entry_path()
                &&& g.modules@.last().module_name@ == "__entry__"@
                &&& forall|j: int|
                    0 <= j < g.modules@.len() ==> old(self).loaded_modules().contains_key(
                        (#[trigger] g.modules@[j]).path@,
                    ) && old(self).loaded_modules()[g.modules@[j].path@] == (
                        g.modules@[j].module_name@,
                        g.modules@[j].source@,
                    )
            },
            forall|w: WalkWorld|
                #[trigger] old(self).ready_for(w) ==> (a is Resolve ==> final(self).consistent_with(w)) && (
                a matches GraphAction::Finished(g) ==> walk_closed(w, g.modules@, final(self).finished_dependencies())
                    && forall|j: int|
                    0 <= j < g.modules@.len() ==> reachable_from(
                        w,
                        final(self).entry_path(),
                        (#[trigger] g.modules@[j]).path@,
                    )),
    {
        loop
            invariant
                self.inv(),
                self.pending is Resolve,
                self.stack@.len() > 0,
                self.entry == old(self).entry,
                self.loaded == old(self).loaded,
                self.done_deps@.len() >= old(self).done_deps@.len(),
                first_unhandled(progress(self.stack@)) == old(self).next_requirement(),
                forall|w: WalkWorld| #[trigger] old(self).ready_for(w) ==> self.ready_for(w),
            decreases self.stack@.len(),
        {
            let ghost st0 = *self;
            let ghost s0 = self.stack@;
            let ghost ws0 = self.walk_stack();
            let ghost done0 = self.done@;
            let ghost dd0 = self.done_deps@;
            let n = self.stack.len();
            let next = self.stack[n - 1].next;
            if next < self.stack[n - 1].required.len() {
                let m = self.stack[n - 1].required[next].clone();
                let mut f = self.stack.pop().unwrap();
                f.next = next + 1;
                self.stack.push(f);
                self.pending = Pending::Resolve { module: m.clone() };
                proof {
                    assert forall|i: int| 0 <= i < n - 1 implies self.stack@[i] == s0[i] by {}
                    assert(self.walk_stack() =~= ws0);
                    assert(self.inv_distinct());
                    assert(self.inv_frames()) by {
                        assert forall|i: int, k: int|
                            0 <= i < self.stack@.len() && 0 <= k < self.stack@[i].deps@.len() implies has_path_before(
                                self.done@,
                                #[trigger] self.stack@[i].deps@[k],
                                self.done@.len() as int,
                            ) by {
                            assert(self.stack@[i].deps@ == s0[i].deps@);
                        }
                    }
                    assert(self.inv_pending());
                    assert(progress(s0).last() == (s0[n - 1].required@.map_values(|s: String| s@), next as int));
                    assert(m@ == s0[n - 1].required@[next as int]@);
                    assert forall|w: WalkWorld| #[trigger] old(self).ready_for(w) implies self.consistent_with(w) by {
                        assert(st0.ready_for(w));
                        lemma_resolve_keeps(st0, *self, w, n as int);
                    }
                }
                return GraphAction::Resolve(m);
            }
            // all requirements handled: the module is done
            proof {
                assert(progress(s0).drop_last() =~= progress(s0.drop_last()));
                assert(first_unhandled(progress(s0)) == first_unhandled(progress(s0.drop_last())));
            }
            let f = self.stack.pop().unwrap();
            let ghost deps = f.deps@;
            let ghost fp = f.path@;
            let ghost fname = f.module_name@;
            assert(ws0[n - 1] == fp);
            assert(!module_paths(done0).contains(fp));
            self.done.push(Module { path: f.path, module_name: f.module_name, source: f.source });
            self.done_deps = Ghost(self.done_deps@.push(deps));
            proof {
                let dp = module_paths(self.done@);
                assert(dp =~= module_paths(done0).push(fp));
                assert(distinct(dp));
                assert(self.stack@ =~= s0.drop_last());
                assert(self.walk_stack() =~= ws0.drop_last());
                assert forall|j: int| 0 <= j < done0.len() implies self.done@[j] == done0[j] by {}
                assert forall|i: int, k: int|
                    0 <= i < self.done@.len() && 0 <= k < self.done_deps@[i].len() implies has_path_before(
                        self.done@,
                        #[trigger] self.done_deps@[i][k],
                        i,
                    ) by {
                    if i < done0.len() {
                        assert(self.done_deps@[i] == dd0[i]);
                        lemma_has_path_grow(done0, self.done@, dd0[i][k], i, i);
                    } else {
                        assert(s0[n - 1].deps@ == deps);
                        assert(self.done_deps@[i] == deps);
                        lemma_has_path_grow(done0, self.done@, deps[k], done0.len() as int, i);
                    }
                }
                assert(dependencies_first(self.done@, self.done_deps@));
                assert forall|i: int, k: int|
                    0 <= i < self.stack@.len() && 0 <= k < self.stack@[i].deps@.len() implies has_path_before(
                        self.done@,
                        #[trigger] self.stack@[i].deps@[k],
                        self.done@.len() as int,
                    ) by {
                    assert(self.stack@[i] == s0[i]);
                    lemma_has_path_grow(done0, self.done@, s0[i].deps@[k], done0.len() as int, self.done@.len() as int);
                }
            }
            let ghost st_mid = *self;
            proof {
                assert(s0[n - 1].next == s0[n - 1].required@.len());
                assert forall|w: WalkWorld| #[trigger] old(self).ready_for(w) implies {
                    &&& st_mid.done_deps@.len() == st_mid.done@.len()
                    &&& forall|j: int| 0 <= j < st_mid.done@.len() ==> done_ok(w, #[trigger] st_mid.done@[j], st_mid.done_deps@[j])
                    &&& forall|i: int| 0 <= i < n - 1 ==> frame_ok(w, #[trigger] st_mid.stack@[i], false)
                    &&& forall|i: int| 1 <= i < n - 1 ==> linked(w, st_mid.stack@[i - 1], #[trigger] st_mid.stack@[i])
                    &&& n >= 2 ==> linked(w, s0[n - 2], s0[n - 1])
                } by {
                    assert(st0.ready_for(w));
                    lemma_pop_keeps(st0, st_mid, w, n as int);
                }
            }
            if self.stack.len() == 0 {
                proof {
                    assert(n == 1);
                    assert(fp == self.entry@);
                    assert(fname == "__entry__"@);
                    assert(progress(self.stack@) =~= Seq::<(Seq<Seq<char>>, int)>::empty());
                }
                self.pending = Pending::Over;
                let mut modules: Vec<Module> = Vec::new();
                std::mem::swap(&mut modules, &mut self.done);
                proof {
                    assert forall|w: WalkWorld| #[trigger] old(self).ready_for(w) implies walk_closed(
                        w,
                        modules@,
                        self.finished_dependencies(),
                    ) by {
                        assert forall|j: int| 0 <= j < modules@.len() implies w.requires.dom().contains(
                            (#[trigger] modules@[j]).path@,
                        ) && all_resolved(w, w.requires[modules@[j].path@]) && self.done_deps@[j] == found_deps(
                            w,
                            w.requires[modules@[j].path@],
                        ) by {
                            assert(done_ok(w, st_mid.done@[j], st_mid.done_deps@[j]));
                        }
                    }
                    assert forall|w: WalkWorld| #[trigger] old(self).ready_for(w) implies forall|j: int|
                        0 <= j < modules@.len() ==> reachable_from(w, self.entry@, (#[trigger] modules@[j]).path@) by {
                        assert(st_mid.reach_ok(w));
                    }
                }
                return GraphAction::Finished(DependencyGraph { modules });
            }
            proof {
                assert(self.inv_distinct());
                assert(self.inv_frames());
                assert(self.inv_pending());
            }
            let ghost s1 = self.stack@;
            self.record_dependency(Ghost(fp));
            proof {
                let t = self.stack@.len() - 1;
                assert forall|i: int| 0 <= i < t implies self.stack@[i] == s1[i] by {}
                assert(progress(self.stack@) =~= progress(s1));
                assert(self.walk_stack() =~= ws0.drop_last());
                assert forall|i: int, k: int|
                    0 <= i < self.stack@.len() && 0 <= k < self.stack@[i].deps@.len() implies has_path_before(
                        self.done@,
                        #[trigger] self.stack@[i].deps@[k],
                        self.done@.len() as int,
                    ) by {
                    if i == t && k == self.stack@[i].deps@.len() - 1 {
                        assert(self.done@[done0.len() as int].path@ == fp);
                    } else {
                        assert(self.stack@[i].deps@[k] == s1[i].deps@[k]);
                    }
                }
                assert(self.inv_distinct());
                assert(self.inv_frames());
                assert(self.inv_pending());
                assert forall|w: WalkWorld| #[trigger] old(self).ready_for(w) implies self.ready_for(w) by {
                    assert(st_mid.stack@ == s1);
                    assert(s1.last() == s0[n - 2]);
                    assert(s1.last().next <= s1.last().required@.len());
                    assert(linked(w, s0[n - 2], s0[n - 1]));
                    lemma_record_ready(st_mid, *self, w, s0[n - 1].origin@, s0[n - 1].path@);
                }
            }
        }
    }

    /// Whether `c` is the path of a module being walked.
    fn on_stack(&self, c: &String) -> (r: bool)
        ensures
            r == self.walk_stack().contains(c@),
    {
        let mut k: usize = 0;
        while k < self.stack.len()
            invariant
                k <= self.stack@.len(),
                forall|j: int| 0 <= j < k ==> self.walk_stack()[j] != c@,
            decreases self.stack@.len() - k,
        {
            if self.stack[k].path == *c {
                assert(self.walk_stack()[k as int] == c@);
                return true;
            }
            k = k + 1;
        }
        false
    }

    /// Whether `c` is the path of a module already done.
    fn is_done(&self, c: &String) -> (r: bool)
        ensures
            r == module_paths(self.done@).contains(c@),
    {
        let mut k: usize = 0;
        while k < self.done.len()
            invariant
                k <= self.done@.len(),
                forall|j: int| 0 <= j < k ==> module_paths(self.done@)[j] != c@,
            decreases self.done@.len() - k,
        {
            if self.done[k].path == *c {
                assert(module_paths(self.done@)[k as int] == c@);
                return true;
            }
            k = k + 1;
        }
        false
    }

    /// Takes what the requested work produced and answers with the next work.
    ///
    /// A canonical path already walked counts as a dependency already done;
    /// one on the walk's stack is a circular dependency; any other is loaded.
    /// A loaded module's requirements are resolved in order, each found one
    /// walked before the next is resolved; an unresolved one fails the walk.
    /// A module is done when all its requirements are; the graph is finished
    /// when the entry module is done.
    pub fn step(&mut self, ev: GraphEvent) -> (a: GraphAction)
        requires
            old(self).wf(),
            old(self).answers(ev),
        ensures
            final(self).wf(),
            final(self).entry_path() == old(self).entry_path() || old(self).walk_stack().len() == 0,
            a is Resolve ==> final(self).awaits_resolution(),
            a matches GraphAction::Canonicalize(_) ==> final(self).awaits_canonical(),
            a is Load ==> final(self).awaits_load(),
            (a is Finished || a is Failed || a is Aborted) ==> final(self).is_over(),
            ev is Aborted ==> a is Aborted,
            ev matches GraphEvent::Canonicalized(c) ==> {
                &&& old(self).walk_stack().contains(c@) ==> (a matches GraphAction::Failed(
                    BundlerError::CircularDependency { cycle },
                ) && cycle@ == c@)
                &&& !old(self).walk_stack().contains(c@) && module_paths(
                    old(self).finished_modules(),
                ).contains(c@) ==> (a is Resolve || a is Finished)
                &&& !old(self).walk_stack().contains(c@) && !module_paths(
                    old(self).finished_modules(),
                ).contains(c@) ==> (a matches GraphAction::Load { path, module_name } && path@
                    == c@ && module_name@ == old(self).awaited_name())
            },
            ev is Loaded ==> (a is Resolve || a is Finished),
            ev matches GraphEvent::Loaded { required, .. } ==> if required@.len() > 0 {
                a matches GraphAction::Resolve(m) && m@ == required@[0]@
            } else {
                &&& a matches GraphAction::Resolve(m) ==> old(self).next_requirement() == Some(m@)
                &&& a is Finished <==> old(self).next_requirement() is None
            },
            !(ev is Loaded) ==> (a matches GraphAction::Resolve(m) ==> old(self).next_requirement() == Some(m@)),
            !(ev is Loaded) && a is Finished ==> old(self).next_requirement() is None,
            (a is Load || a is Canonicalize) ==> final(self).next_requirement() == old(self).next_requirement(),
            forall|w: WalkWorld|
                #[trigger] old(self).consistent_with(w) && old(self).answered_by(w, ev) ==> final(self).consistent_with(w)
                    && (a matches GraphAction::Finished(g) ==> walk_closed(
                    w,
                    g.modules@,
                    final(self).finished_dependencies(),
                ) && forall|j: int|
                    0 <= j < g.modules@.len() ==> reachable_from(
                        w,
                        final(self).entry_path(),
                        (#[trigger] g.modules@[j]).path@,
                    )),
            ev matches GraphEvent::Resolved(r) ==> match r {
                ResolveResult::Found(p) => a matches GraphAction::Canonicalize(q) && q@ == p@
                    && final(self).awaited_name() == old(self).awaited_name(),
                ResolveResult::External => a is Resolve || a is Finished,
                ResolveResult::NotFound => a matches GraphAction::Failed(
                    BundlerError::UnresolvedModule { module, requirer },
                ) && module@ == old(self).awaited_name() && requirer@ == old(self).walk_stack().last(),
            },
            ev matches GraphEvent::Loaded { source, .. } ==> final(self).loaded_modules() == old(
                self,
            ).loaded_modules().insert(old(self).awaited_path(), (old(self).awaited_name(), source@)),
            !(ev is Loaded) ==> final(self).loaded_modules() == old(self).loaded_modules(),
            a matches GraphAction::Finished(g) ==> {
                &&& dependencies_first(g.modules@, final(self).finished_dependencies())
                &&& distinct(module_paths(g.modules@))
                &&& g.modules@.len() > 0
                &&& g.modules@.last().path@ == final(self).entry_path()
                &&& g.modules@.last().module_name@ == "__entry__"@
                &&& forall|j: int|
                    0 <= j < g.modules@.len() ==> final(self).loaded_modules().contains_key(
                        (#[trigger] g.modules@[j]).path@,
                    ) && final(self).loaded_modules()[g.modules@[j].path@] == (
                        g.modules@[j].module_name@,
                        g.modules@[j].source@,
                    )
            },
    {
        proof {
            assert(!(self.pending is Over));
            assert(self.inv());
        }
        match ev {
            GraphEvent::Aborted => {
                self.pending = Pending::Over;
                GraphAction::Aborted
            },
            GraphEvent::Canonicalized(c) => {
                let module_name = match &self.pending {
                    Pending::Canonicalize { module_name } => module_name.clone(),
                    _ => String::new(),
                };
                // a module on the walk's stack requires itself through others
                if self.on_stack(&c) {
                    self.pending = Pending::Over;
                    return GraphAction::Failed(BundlerError::CircularDependency { cycle: c });
                }
                // a module already done is a dependency of the current one
                if self.is_done(&c) {
                    proof {
                        let j = choose|j: int| 0 <= j < module_paths(self.done@).len() && module_paths(self.done@)[j] == c@;
                        assert(self.done@[j].path@ == c@);
                        assert(has_path_before(self.done@, c@, self.done@.len() as int));
                    }
                    let ghost s0 = self.stack@;
                    let ghost ws0 = self.walk_stack();
                    let ghost st_b = *self;
                    assert(self.stack@.len() > 0);
                    self.record_dependency(Ghost(c@));
                    self.pending = Pending::Resolve { module: String::new() };
                    proof {
                        assert forall|w: WalkWorld|
                            #[trigger] old(self).consistent_with(w) && old(self).answered_by(w, ev) implies self.ready_for(w) by {
                            assert(st_b.frames_ok(w, false));
                            assert(st_b.pending_ok(w));
                            assert(s0.last().next <= s0.last().required@.len());
                            lemma_record_ready(st_b, *self, w, st_b.awaiting@, c@);
                        }
                        let t = self.stack@.len() - 1;
                        assert forall|i: int| 0 <= i < t implies self.stack@[i] == s0[i] by {}
                        assert(progress(self.stack@) =~= progress(s0));
                        assert(self.walk_stack() =~= ws0);
                        assert forall|i: int, k2: int|
                            0 <= i < self.stack@.len() && 0 <= k2 < self.stack@[i].deps@.len() implies has_path_before(
                                self.done@,
                                #[trigger] self.stack@[i].deps@[k2],
                                self.done@.len() as int,
                            ) by {
                            if !(i == t && k2 == self.stack@[i].deps@.len() - 1) {
                                assert(self.stack@[i].deps@[k2] == s0[i].deps@[k2]);
                            }
                        }
                        assert(self.inv_distinct());
                        assert(self.inv_frames());
                        assert(self.inv_pending());
                    }
                    return self.advance();
                }
                assert(!module_paths(self.done@).contains(c@));
                let ghost st_b = *self;
                self.pending = Pending::Load { path: c.clone(), module_name: module_name.clone() };
                proof {
                    assert forall|w: WalkWorld|
                        #[trigger] old(self).consistent_with(w) && old(self).answered_by(w, ev) implies self.consistent_with(w) by {
                        assert(st_b.frames_ok(w, false));
                        assert(st_b.pending_ok(w));
                        assert(self.frames_ok(w, false));
                        assert(self.pending_ok(w));
                    }
                }
                GraphAction::Load { path: c, module_name }
            },
            GraphEvent::Loaded { source, required } => {
                let ghost st_b = *self;
                let (path, module_name) = match &self.pending {
                    Pending::Load { path, module_name } => (path.clone(), module_name.clone()),
                    _ => (String::new(), String::new()),
                };
                let ghost ws0 = self.walk_stack();
                if self.stack.len() == 0 {
                    self.entry = Ghost(path@);
                }
                let ghost s0 = self.stack@;
                let ghost lp = path@;
                let ghost l0 = self.loaded@;
                assert(!module_paths(self.done@).contains(lp));
                assert(!ws0.contains(lp));
                self.loaded = Ghost(self.loaded@.insert(path@, (module_name@, source@)));
                self.stack.push(
                    Frame { path, module_name, source, required, next: 0, deps: Ghost(Seq::empty()), origin: self.awaiting },
                );
                self.pending = Pending::Resolve { module: String::new() };
                proof {
                    assert forall|i: int| 0 <= i < s0.len() implies self.stack@[i] == s0[i] by {}
                    assert(self.walk_stack() =~= ws0.push(self.stack@.last().path@));
                    assert forall|j: int| 0 <= j < self.done@.len() implies self.loaded@.contains_key(
                        (#[trigger] self.done@[j]).path@,
                    ) && self.loaded@[self.done@[j].path@] == (self.done@[j].module_name@, self.done@[j].source@) by {
                        assert(module_paths(self.done@)[j] == self.done@[j].path@);
                        assert(self.done@[j].path@ != lp);
                    }
                    assert forall|i: int| 0 <= i < self.stack@.len() implies self.loaded@.contains_key(
                        (#[trigger] self.stack@[i]).path@,
                    ) && self.loaded@[self.stack@[i].path@] == (self.stack@[i].module_name@, self.stack@[i].source@) by {
                        if i < s0.len() {
                            assert(ws0[i] == s0[i].path@);
                            assert(s0[i].path@ != lp);
                        }
                    }
                    assert(self.inv_loaded());
                    assert(self.inv_distinct());
                    assert(self.inv_frames());
                    assert(self.inv_pending());
                    assert(progress(self.stack@).drop_last() =~= progress(s0));
                    assert(progress(self.stack@).last() == (
                        self.stack@.last().required@.map_values(|s: String| s@),
                        0int,
                    ));
                    assert forall|w: WalkWorld|
                        #[trigger] old(self).consistent_with(w) && old(self).answered_by(w, ev) implies self.ready_for(w) by {
                        assert(st_b.frames_ok(w, false));
                        assert(st_b.pending_ok(w));
                        lemma_push_ready(st_b, *self, w);
                    }
                }
                self.advance()
            },
            GraphEvent::Resolved(r) => {
                let module = match &self.pending {
                    Pending::Resolve { module } => module.clone(),
                    _ => String::new(),
                };
                match r {
                    ResolveResult::Found(p) => {
                        let ghost st_b = *self;
                        self.pending = Pending::Canonicalize { module_name: module };
                        self.awaiting = Ghost(p@);
                        proof {
                            assert forall|w: WalkWorld|
                                #[trigger] old(self).consistent_with(w) && old(self).answered_by(w, ev) implies self.consistent_with(w) by {
                                assert(st_b.frames_ok(w, false));
                                assert(st_b.pending_ok(w));
                                assert(self.frames_ok(w, false));
                                assert(self.pending_ok(w));
                            }
                        }
                        GraphAction::Canonicalize(p)
                    },
                    ResolveResult::External => {
                        proof {
                            assert forall|w: WalkWorld|
                                #[trigger] old(self).consistent_with(w) && old(self).answered_by(w, ev) implies self.ready_for(w) by {
                                assert(self.stack@.last().next <= self.stack@.last().required@.len());
                                lemma_external_ready(*self, w);
                            }
                        }
                        self.advance()
                    },
                    ResolveResult::NotFound => {
                        let requirer = self.stack[self.stack.len() - 1].path.clone();
                        self.pending = Pending::Over;
                        GraphAction::Failed(BundlerError::UnresolvedModule { module, requirer })
                    },
                }
            },
        }
    }
}

} // verus!
