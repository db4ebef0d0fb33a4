//! Dependency Graph Resolver.
//!
//! Walks the declared-dependency graph from a root project against a
//! registry snapshot. A visited set checked before any expansion makes the
//! walk terminate on every graph, cycles and diamonds included, and keeps
//! each named entry resolved at most once; dependencies the registry does
//! not hold are recorded as failures and skipped, never fatal.

use vstd::prelude::*;
use vstd::set_lib::{lemma_len_subset, set_int_range, lemma_int_range};
use crate::bytes::{bytes_eq, clone_bytes, clone_bytes_list};
use crate::project::{Project, Registry, ResolvedDependency, ResolutionFailure, same_ident,
    project_eq, clone_project};

verus! {

/// Entry `k` is the first of its name in the registry snapshot.
pub open spec fn entry_is_first(entries: Seq<Project>, k: int) -> bool {
    0 <= k < entries.len() && forall|j: int| 0 <= j < k ==> (#[trigger] entries[j]).name@
        != entries[k].name@
}

/// Some registry entry bears this name.
pub open spec fn has_entry_named(entries: Seq<Project>, name: Seq<u8>) -> bool {
    exists|k: int| 0 <= k < entries.len() && (#[trigger] entries[k]).name@ == name
}

/// The project is a copy of some registry entry.
pub open spec fn has_matching_entry(entries: Seq<Project>, p: Project) -> bool {
    exists|k: int| 0 <= k < entries.len() && project_eq(p, #[trigger] entries[k])
}

/// Every resolved dependency is a copy of some registry entry.
pub open spec fn resolved_from_registry(
    rs: Seq<ResolvedDependency>,
    entries: Seq<Project>,
) -> bool {
    forall|i: int| 0 <= i < rs.len() ==> has_matching_entry(entries, (#[trigger] rs[i]).project)
}

/// A dependency name is answered: a resolved entry bears it, a recorded
/// failure names it, or a registry entry of that name is the root itself.
pub open spec fn dep_accounted(
    entries: Seq<Project>,
    name: Seq<u8>,
    rs: Seq<ResolvedDependency>,
    fs: Seq<ResolutionFailure>,
    root: Project,
) -> bool {
    ||| exists|r: int| 0 <= r < rs.len() && (#[trigger] rs[r]).project.name@ == name
    ||| exists|f: int| 0 <= f < fs.len() && (#[trigger] fs[f]).name@ == name
    ||| exists|k: int|
        0 <= k < entries.len() && (#[trigger] entries[k]).name@ == name && same_ident(
            entries[k],
            root,
        )
}

/// Every dependency the project declares is answered.
pub open spec fn deps_accounted(
    entries: Seq<Project>,
    p: Project,
    rs: Seq<ResolvedDependency>,
    fs: Seq<ResolutionFailure>,
    root: Project,
) -> bool {
    forall|d: int|
        0 <= d < p.deps@.len() ==> dep_accounted(
            entries,
            (#[trigger] p.deps@[d]).name@,
            rs,
            fs,
            root,
        )
}

proof fn lemma_accounted_grow(
    entries: Seq<Project>,
    name: Seq<u8>,
    rs1: Seq<ResolvedDependency>,
    fs1: Seq<ResolutionFailure>,
    rs2: Seq<ResolvedDependency>,
    fs2: Seq<ResolutionFailure>,
    root: Project,
)
    requires
        dep_accounted(entries, name, rs1, fs1, root),
        rs1.len() <= rs2.len(),
        forall|r: int| 0 <= r < rs1.len() ==> rs2[r] == rs1[r],
        fs1.len() <= fs2.len(),
        forall|f: int| 0 <= f < fs1.len() ==> fs2[f] == fs1[f],
    ensures
        dep_accounted(entries, name, rs2, fs2, root),
{
    if exists|r: int| 0 <= r < rs1.len() && (#[trigger] rs1[r]).project.name@ == name {
        let w = choose|r: int| 0 <= r < rs1.len() && (#[trigger] rs1[r]).project.name@ == name;
        assert(rs2[w].project.name@ == name);
    } else if exists|f: int| 0 <= f < fs1.len() && (#[trigger] fs1[f]).name@ == name {
        let w = choose|f: int| 0 <= f < fs1.len() && (#[trigger] fs1[f]).name@ == name;
        assert(fs2[w].name@ == name);
    }
}

proof fn lemma_resolved_from_registry(rs: Seq<ResolvedDependency>, entries: Seq<Project>, idx: Seq<int>)
    requires
        idx.len() == rs.len(),
        forall|i: int|
            0 <= i < rs.len() ==> 0 <= #[trigger] idx[i] < entries.len() && project_eq(
                rs[i].project,
                entries[idx[i]],
            ),
    ensures
        resolved_from_registry(rs, entries),
{
    assert forall|i: int| 0 <= i < rs.len() implies has_matching_entry(
        entries,
        (#[trigger] rs[i]).project,
    ) by {
        let k = idx[i];
        assert(0 <= k < entries.len() && project_eq(rs[i].project, entries[k]));
    }
}

/// Finds the first registry entry with the given name.
pub fn find_entry(registry: &Registry, name: &[u8]) -> (r: Option<usize>)
    ensures
        match r {
            Some(k) => k < registry.entries@.len() && registry.entries@[k as int].name@ == name@
                && entry_is_first(registry.entries@, k as int),
            None => !has_entry_named(registry.entries@, name@),
        },
{
    let mut k: usize = 0;
    while k < registry.entries.len()
        invariant
            k <= registry.entries@.len(),
            forall|j: int| 0 <= j < k ==> (#[trigger] registry.entries@[j]).name@ != name@,
        decreases registry.entries@.len() - k,
    {
        if bytes_eq(registry.entries[k].name.as_slice(), name) {
            return Some(k);
        }
        k = k + 1;
    }
    proof {
        if has_entry_named(registry.entries@, name@) {
            let w = choose|w: int| 0 <= w < registry.entries@.len() && (#[trigger] registry
                .entries@[w]).name@ == name@;
            assert(registry.entries@[w].name@ != name@);
        }
    }
    None
}

struct FrontierItem {
    idx: usize,
    depth: usize,
    path: Vec<Vec<u8>>,
}

spec fn in_frontier(fr: Seq<FrontierItem>, k: int) -> bool {
    exists|fi: int| 0 <= fi < fr.len() && ((#[trigger] fr[fi]).idx as int) == k
}

/// Resolves the set of dependencies reachable from the root's declared
/// dependencies, deduplicated by identity; never resolves the root itself.
///
/// With `include_deps` false nothing is resolved and nothing fails. The
/// resolved set holds registry entries only, no two of the same identity
/// and none with the root's identity; every recorded failure names a
/// dependency the registry does not hold, and every direct dependency of
/// the root that the registry does not hold is recorded as a failure.
/// The walk is complete: every declared dependency of the root and of
/// every resolved project is answered, by a resolved entry, a recorded
/// failure, or the root itself.
pub fn resolve(root: &Project, registry: &Registry, include_deps: bool) -> (r: (
    Vec<ResolvedDependency>,
    Vec<ResolutionFailure>,
))
    ensures
        !include_deps ==> r.0@.len() == 0 && r.1@.len() == 0,
        forall|i: int, j: int|
            0 <= i < j < r.0@.len() ==> !same_ident(
                (#[trigger] r.0@[i]).project,
                (#[trigger] r.0@[j]).project,
            ),
        forall|i: int| 0 <= i < r.0@.len() ==> !same_ident((#[trigger] r.0@[i]).project, *root),
        resolved_from_registry(r.0@, registry.entries@),
        forall|i: int|
            0 <= i < r.1@.len() ==> !has_entry_named(
                registry.entries@,
                (#[trigger] r.1@[i]).name@,
            ),
        include_deps ==> forall|d: int|
            0 <= d < root.deps@.len() && !has_entry_named(
                registry.entries@,
                (#[trigger] root.deps@[d]).name@,
            ) ==> exists|f: int|
                0 <= f < r.1@.len() && (#[trigger] r.1@[f]).name@ == root.deps@[d].name@,
        include_deps ==> deps_accounted(registry.entries@, *root, r.0@, r.1@, *root),
        forall|i: int|
            0 <= i < r.0@.len() ==> deps_accounted(
                registry.entries@,
                (#[trigger] r.0@[i]).project,
                r.0@,
                r.1@,
                *root,
            ),
{
    let mut resolved: Vec<ResolvedDependency> = Vec::new();
    let mut failures: Vec<ResolutionFailure> = Vec::new();
    if !include_deps {
        return (resolved, failures);
    }
    let ghost entries = registry.entries@;
    let n = registry.entries.len();
    let mut visited: Vec<bool> = Vec::new();
    let mut vi: usize = 0;
    while vi < n
        invariant
            vi <= n,
            visited@.len() == vi,
            forall|k: int| 0 <= k < vi ==> !visited@[k],
        decreases n - vi,
    {
        visited.push(false);
        vi = vi + 1;
    }
    let ghost mut vset: Set<int> = Set::empty();
    let ghost mut ridx: Seq<int> = Seq::empty();
    let mut frontier: Vec<FrontierItem> = Vec::new();
    proof {
        lemma_int_range(0, n as int);
        assert(vset.subset_of(set_int_range(0, n as int)));
        lemma_len_subset(vset, set_int_range(0, n as int));
    }

    // Expand the root's declared dependencies.
    let mut di: usize = 0;
    while di < root.deps.len()
        invariant
            di <= root.deps@.len(),
            n == entries.len(),
            entries == registry.entries@,
            visited@.len() == n,
            vset.finite(),
            forall|k: int| vset.contains(k) ==> 0 <= k < n,
            forall|k: int| 0 <= k < n ==> (visited@[k] <==> vset.contains(k)),
            vset.len() <= n,
            forall|k: int| #[trigger] vset.contains(k) ==> entry_is_first(entries, k),
            forall|fi: int|
                0 <= fi < frontier@.len() ==> ((#[trigger] frontier@[fi]).idx as int) < n
                    && vset.contains(frontier@[fi].idx as int),
            ridx.len() == resolved@.len(),
            forall|i: int|
                0 <= i < resolved@.len() ==> 0 <= #[trigger] ridx[i] < n && vset.contains(ridx[i])
                    && project_eq(resolved@[i].project, entries[ridx[i]]),
            forall|i: int, j: int| 0 <= i < j < ridx.len() ==> ridx[i] != ridx[j],
            forall|i: int|
                0 <= i < resolved@.len() ==> !same_ident((#[trigger] resolved@[i]).project, *root),
            forall|i: int|
                0 <= i < failures@.len() ==> !has_entry_named(
                    entries,
                    (#[trigger] failures@[i]).name@,
                ),
            forall|d: int|
                0 <= d < di && !has_entry_named(entries, (#[trigger] root.deps@[d]).name@)
                    ==> exists|f: int|
                    0 <= f < failures@.len() && (#[trigger] failures@[f]).name@
                        == root.deps@[d].name@,
            forall|k: int| #[trigger] vset.contains(k) ==> in_frontier(frontier@, k),
            forall|k: int| #[trigger]
                vset.contains(k) ==> exists|i: int| 0 <= i < ridx.len() && ridx[i] == k,
            forall|d: int|
                0 <= d < di ==> dep_accounted(
                    entries,
                    (#[trigger] root.deps@[d]).name@,
                    resolved@,
                    failures@,
                    *root,
                ),
        decreases root.deps@.len() - di,
    {
        let d = &root.deps[di];
        match find_entry(registry, d.name.as_slice()) {
            None => {
                let ghost fpre = failures@;
                let fname = clone_bytes(&d.name);
                failures.push(ResolutionFailure { name: fname, requirement: clone_bytes(&d.req) });
                proof {
                    assert forall|d2: int|
                        0 <= d2 < di + 1 && !has_entry_named(
                            entries,
                            (#[trigger] root.deps@[d2]).name@,
                        ) implies exists|f: int|
                        0 <= f < failures@.len() && (#[trigger] failures@[f]).name@
                            == root.deps@[d2].name@ by {
                        if d2 == di as int {
                            assert(failures@[failures@.len() - 1].name@ == root.deps@[d2].name@);
                        } else {
                            let fw = choose|f: int|
                                0 <= f < fpre.len() && (#[trigger] fpre[f]).name@
                                    == root.deps@[d2].name@;
                            assert(failures@[fw].name@ == root.deps@[d2].name@);
                        }
                    }
                    assert forall|d2: int| 0 <= d2 < di + 1 implies dep_accounted(
                        entries,
                        (#[trigger] root.deps@[d2]).name@,
                        resolved@,
                        failures@,
                        *root,
                    ) by {
                        if d2 == di as int {
                            assert(failures@[failures@.len() - 1].name@ == root.deps@[d2].name@);
                        } else {
                            lemma_accounted_grow(
                                entries,
                                root.deps@[d2].name@,
                                resolved@,
                                fpre,
                                resolved@,
                                failures@,
                                *root,
                            );
                        }
                    }
                }
            },
            Some(k) => {
                proof {
                    assert(has_entry_named(entries, root.deps@[di as int].name@)) by {
                        assert(0 <= k < entries.len() && entries[k as int].name@ == root.deps@[
                            di as int].name@);
                    }
                }
                let entry_k = &registry.entries[k];
                let is_root = bytes_eq(entry_k.name.as_slice(), root.name.as_slice()) && bytes_eq(
                    entry_k.version.as_slice(),
                    root.version.as_slice(),
                );
                if is_root {
                    proof {
                        assert(dep_accounted(
                            entries,
                            root.deps@[di as int].name@,
                            resolved@,
                            failures@,
                            *root,
                        )) by {
                            assert(0 <= k < entries.len() && entries[k as int].name@
                                == root.deps@[di as int].name@ && same_ident(
                                entries[k as int],
                                *root,
                            ));
                        }
                    }
                } else if visited[k] {
                    proof {
                        assert(vset.contains(k as int));
                        let wi = choose|i: int| 0 <= i < ridx.len() && ridx[i] == k as int;
                        assert(resolved@[wi].project.name@ == entries[k as int].name@);
                        assert(dep_accounted(
                            entries,
                            root.deps@[di as int].name@,
                            resolved@,
                            failures@,
                            *root,
                        ));
                    }
                } else {
                    visited.set(k, true);
                    let ghost rpre = resolved@;
                    let ghost fr0 = frontier@;
                    let ghost rx0 = ridx;
                    proof {
                        vset = vset.insert(k as int);
                        lemma_int_range(0, n as int);
                        assert(vset.subset_of(set_int_range(0, n as int)));
                        lemma_len_subset(vset, set_int_range(0, n as int));
                    }
                    let mut path2: Vec<Vec<u8>> = Vec::new();
                    path2.push(clone_bytes(&root.name));
                    let fpath = clone_bytes_list(&path2);
                    frontier.push(FrontierItem { idx: k, depth: 1, path: fpath });
                    resolved.push(
                        ResolvedDependency { project: clone_project(entry_k), depth: 1, path: path2 },
                    );
                    proof {
                        ridx = ridx.push(k as int);
                        assert forall|k2: int| #[trigger] vset.contains(k2) implies in_frontier(
                            frontier@,
                            k2,
                        ) by {
                            if k2 == k as int {
                                assert(frontier@[frontier@.len() - 1].idx as int == k2);
                            } else {
                                let fi = choose|fi: int|
                                    0 <= fi < fr0.len() && ((#[trigger] fr0[fi]).idx as int) == k2;
                                assert(frontier@[fi].idx as int == k2);
                            }
                        }
                        assert forall|k2: int| #[trigger] vset.contains(k2) implies exists|i: int|
                            0 <= i < ridx.len() && ridx[i] == k2 by {
                            if k2 == k as int {
                                assert(ridx[ridx.len() - 1] == k2);
                            } else {
                                let wi = choose|i: int| 0 <= i < rx0.len() && rx0[i] == k2;
                                assert(ridx[wi] == k2);
                            }
                        }
                        assert forall|d2: int| 0 <= d2 < di + 1 implies dep_accounted(
                            entries,
                            (#[trigger] root.deps@[d2]).name@,
                            resolved@,
                            failures@,
                            *root,
                        ) by {
                            if d2 == di as int {
                                assert(resolved@[resolved@.len() - 1].project.name@ == root.deps@[
                                    d2].name@);
                            } else {
                                lemma_accounted_grow(
                                    entries,
                                    root.deps@[d2].name@,
                                    rpre,
                                    failures@,
                                    resolved@,
                                    failures@,
                                    *root,
                                );
                            }
                        }
                    }
                }
            },
        }
        di = di + 1;
    }

    // Walk the frontier; the visited set bounds the work.
    let ghost mut done: Set<int> = Set::empty();
    while frontier.len() > 0
        invariant
            n == entries.len(),
            entries == registry.entries@,
            visited@.len() == n,
            vset.finite(),
            forall|k: int| vset.contains(k) ==> 0 <= k < n,
            forall|k: int| 0 <= k < n ==> (visited@[k] <==> vset.contains(k)),
            vset.len() <= n,
            forall|k: int| #[trigger] vset.contains(k) ==> entry_is_first(entries, k),
            forall|fi: int|
                0 <= fi < frontier@.len() ==> ((#[trigger] frontier@[fi]).idx as int) < n
                    && vset.contains(frontier@[fi].idx as int),
            ridx.len() == resolved@.len(),
            forall|i: int|
                0 <= i < resolved@.len() ==> 0 <= #[trigger] ridx[i] < n && vset.contains(ridx[i])
                    && project_eq(resolved@[i].project, entries[ridx[i]]),
            forall|i: int, j: int| 0 <= i < j < ridx.len() ==> ridx[i] != ridx[j],
            forall|i: int|
                0 <= i < resolved@.len() ==> !same_ident((#[trigger] resolved@[i]).project, *root),
            forall|i: int|
                0 <= i < failures@.len() ==> !has_entry_named(
                    entries,
                    (#[trigger] failures@[i]).name@,
                ),
            forall|d: int|
                0 <= d < root.deps@.len() && !has_entry_named(
                    entries,
                    (#[trigger] root.deps@[d]).name@,
                ) ==> exists|f: int|
                    0 <= f < failures@.len() && (#[trigger] failures@[f]).name@
                        == root.deps@[d].name@,
            forall|k: int| #[trigger]
                done.contains(k) ==> vset.contains(k) && deps_accounted(
                    entries,
                    entries[k],
                    resolved@,
                    failures@,
                    *root,
                ),
            forall|k: int| #[trigger]
                vset.contains(k) ==> done.contains(k) || in_frontier(frontier@, k),
            forall|k: int| #[trigger]
                vset.contains(k) ==> exists|i: int| 0 <= i < ridx.len() && ridx[i] == k,
            deps_accounted(entries, *root, resolved@, failures@, *root),
        decreases n - vset.len(), frontier@.len(),
    {
        let ghost fprev = frontier@;
        let item = frontier.pop().unwrap();
        proof {
            assert forall|k: int| #[trigger] vset.contains(k) implies done.contains(k)
                || in_frontier(frontier@, k) || k == item.idx as int by {
                if !done.contains(k) {
                    let fi = choose|fi: int|
                        0 <= fi < fprev.len() && ((#[trigger] fprev[fi]).idx as int) == k;
                    if fi < fprev.len() - 1 {
                        assert(frontier@[fi].idx as int == k);
                    } else {
                        assert(k == item.idx as int);
                    }
                }
            }
        }
        let ghost v0 = vset;
        let ghost f0 = frontier@.len() as int;
        let parent = &registry.entries[item.idx];
        let mut pdi: usize = 0;
        while pdi < parent.deps.len()
            invariant
                pdi <= parent.deps@.len(),
                item.idx < n,
                parent == &registry.entries[item.idx as int],
                n == entries.len(),
                entries == registry.entries@,
                visited@.len() == n,
                vset.finite(),
                forall|k: int| vset.contains(k) ==> 0 <= k < n,
                forall|k: int| 0 <= k < n ==> (visited@[k] <==> vset.contains(k)),
                vset.len() <= n,
                forall|k: int| #[trigger] vset.contains(k) ==> entry_is_first(entries, k),
                forall|fi: int|
                    0 <= fi < frontier@.len() ==> ((#[trigger] frontier@[fi]).idx as int) < n
                        && vset.contains(frontier@[fi].idx as int),
                ridx.len() == resolved@.len(),
                forall|i: int|
                    0 <= i < resolved@.len() ==> 0 <= #[trigger] ridx[i] < n && vset.contains(
                        ridx[i],
                    ) && project_eq(resolved@[i].project, entries[ridx[i]]),
                forall|i: int, j: int| 0 <= i < j < ridx.len() ==> ridx[i] != ridx[j],
                forall|i: int|
                    0 <= i < resolved@.len() ==> !same_ident(
                        (#[trigger] resolved@[i]).project,
                        *root,
                    ),
                forall|i: int|
                    0 <= i < failures@.len() ==> !has_entry_named(
                        entries,
                        (#[trigger] failures@[i]).name@,
                    ),
                forall|d: int|
                    0 <= d < root.deps@.len() && !has_entry_named(
                        entries,
                        (#[trigger] root.deps@[d]).name@,
                    ) ==> exists|f: int|
                        0 <= f < failures@.len() && (#[trigger] failures@[f]).name@
                            == root.deps@[d].name@,
                forall|k: int| v0.contains(k) ==> vset.contains(k),
                v0.len() <= vset.len(),
                frontier@.len() - f0 <= vset.len() - v0.len(),
                forall|k: int| #[trigger]
                    done.contains(k) ==> vset.contains(k) && deps_accounted(
                        entries,
                        entries[k],
                        resolved@,
                        failures@,
                        *root,
                    ),
                forall|k: int| #[trigger]
                    vset.contains(k) ==> done.contains(k) || in_frontier(frontier@, k) || k
                        == item.idx as int,
                forall|k: int| #[trigger]
                    vset.contains(k) ==> exists|i: int| 0 <= i < ridx.len() && ridx[i] == k,
                deps_accounted(entries, *root, resolved@, failures@, *root),
                forall|dd: int|
                    0 <= dd < pdi ==> dep_accounted(
                        entries,
                        (#[trigger] parent.deps@[dd]).name@,
                        resolved@,
                        failures@,
                        *root,
                    ),
            decreases parent.deps@.len() - pdi,
        {
            let d = &parent.deps[pdi];
            match find_entry(registry, d.name.as_slice()) {
                None => {
                    let ghost fpre = failures@;
                    failures.push(
                        ResolutionFailure {
                            name: clone_bytes(&d.name),
                            requirement: clone_bytes(&d.req),
                        },
                    );
                    proof {
                        assert forall|d2: int|
                            0 <= d2 < root.deps@.len() && !has_entry_named(
                                entries,
                                (#[trigger] root.deps@[d2]).name@,
                            ) implies exists|f: int|
                            0 <= f < failures@.len() && (#[trigger] failures@[f]).name@
                                == root.deps@[d2].name@ by {
                            let fw = choose|f: int|
                                0 <= f < fpre.len() && (#[trigger] fpre[f]).name@
                                    == root.deps@[d2].name@;
                            assert(failures@[fw].name@ == root.deps@[d2].name@);
                        }
                        assert forall|k2: int| #[trigger] done.contains(k2) implies vset.contains(
                            k2,
                        ) && deps_accounted(entries, entries[k2], resolved@, failures@, *root) by {
                            assert forall|dd: int|
                                0 <= dd < entries[k2].deps@.len() implies dep_accounted(
                                entries,
                                (#[trigger] entries[k2].deps@[dd]).name@,
                                resolved@,
                                failures@,
                                *root,
                            ) by {
                                lemma_accounted_grow(
                                    entries,
                                    entries[k2].deps@[dd].name@,
                                    resolved@,
                                    fpre,
                                    resolved@,
                                    failures@,
                                    *root,
                                );
                            }
                        }
                        assert forall|dd: int|
                            0 <= dd < root.deps@.len() implies dep_accounted(
                            entries,
                            (#[trigger] root.deps@[dd]).name@,
                            resolved@,
                            failures@,
                            *root,
                        ) by {
                            lemma_accounted_grow(
                                entries,
                                root.deps@[dd].name@,
                                resolved@,
                                fpre,
                                resolved@,
                                failures@,
                                *root,
                            );
                        }
                        assert forall|dd: int| 0 <= dd < pdi + 1 implies dep_accounted(
                            entries,
                            (#[trigger] parent.deps@[dd]).name@,
                            resolved@,
                            failures@,
                            *root,
                        ) by {
                            if dd == pdi as int {
                                assert(failures@[failures@.len() - 1].name@ == parent.deps@[
                                    dd].name@);
                            } else {
                                lemma_accounted_grow(
                                    entries,
                                    parent.deps@[dd].name@,
                                    resolved@,
                                    fpre,
                                    resolved@,
                                    failures@,
                                    *root,
                                );
                            }
                        }
                    }
                },
                Some(k) => {
                    let entry_k = &registry.entries[k];
                    let is_root = bytes_eq(entry_k.name.as_slice(), root.name.as_slice())
                        && bytes_eq(entry_k.version.as_slice(), root.version.as_slice());
                    if is_root {
                        proof {
                            assert(dep_accounted(
                                entries,
                                parent.deps@[pdi as int].name@,
                                resolved@,
                                failures@,
                                *root,
                            )) by {
                                assert(0 <= k < entries.len() && entries[k as int].name@
                                    == parent.deps@[pdi as int].name@ && same_ident(
                                    entries[k as int],
                                    *root,
                                ));
                            }
                        }
                    } else if visited[k] {
                        proof {
                            assert(vset.contains(k as int));
                            let wi = choose|i: int| 0 <= i < ridx.len() && ridx[i] == k as int;
                            assert(resolved@[wi].project.name@ == entries[k as int].name@);
                            assert(dep_accounted(
                                entries,
                                parent.deps@[pdi as int].name@,
                                resolved@,
                                failures@,
                                *root,
                            ));
                        }
                    } else {
                        visited.set(k, true);
                        let ghost rpre = resolved@;
                        let ghost fr0 = frontier@;
                        let ghost rx0 = ridx;
                        proof {
                            vset = vset.insert(k as int);
                            lemma_int_range(0, n as int);
                            assert(vset.subset_of(set_int_range(0, n as int)));
                            lemma_len_subset(vset, set_int_range(0, n as int));
                            lemma_len_subset(v0, vset);
                        }
                        let depth2 = if item.depth < usize::MAX {
                            item.depth + 1
                        } else {
                            item.depth
                        };
                        let mut path2 = clone_bytes_list(&item.path);
                        path2.push(clone_bytes(&parent.name));
                        let fpath = clone_bytes_list(&path2);
                        frontier.push(FrontierItem { idx: k, depth: depth2, path: fpath });
                        resolved.push(
                            ResolvedDependency {
                                project: clone_project(entry_k),
                                depth: depth2,
                                path: path2,
                            },
                        );
                        proof {
                            ridx = ridx.push(k as int);
                            assert forall|k2: int| #[trigger] done.contains(k2) implies vset
                                .contains(k2) && deps_accounted(
                                entries,
                                entries[k2],
                                resolved@,
                                failures@,
                                *root,
                            ) by {
                                assert forall|dd: int|
                                    0 <= dd < entries[k2].deps@.len() implies dep_accounted(
                                    entries,
                                    (#[trigger] entries[k2].deps@[dd]).name@,
                                    resolved@,
                                    failures@,
                                    *root,
                                ) by {
                                    lemma_accounted_grow(
                                        entries,
                                        entries[k2].deps@[dd].name@,
                                        rpre,
                                        failures@,
                                        resolved@,
                                        failures@,
                                        *root,
                                    );
                                }
                            }
                            assert forall|k2: int| #[trigger] vset.contains(k2) implies done
                                .contains(k2) || in_frontier(frontier@, k2) || k2
                                == item.idx as int by {
                                if k2 == k as int {
                                    assert(frontier@[frontier@.len() - 1].idx as int == k2);
                                } else if !done.contains(k2) && k2 != item.idx as int {
                                    let fi = choose|fi: int|
                                        0 <= fi < fr0.len() && ((#[trigger] fr0[fi]).idx as int)
                                            == k2;
                                    assert(frontier@[fi].idx as int == k2);
                                }
                            }
                            assert forall|k2: int| #[trigger] vset.contains(k2) implies exists|
                                i: int,
                            |
                                0 <= i < ridx.len() && ridx[i] == k2 by {
                                if k2 == k as int {
                                    assert(ridx[ridx.len() - 1] == k2);
                                } else {
                                    let wi = choose|i: int| 0 <= i < rx0.len() && rx0[i] == k2;
                                    assert(ridx[wi] == k2);
                                }
                            }
                            assert forall|dd: int|
                                0 <= dd < root.deps@.len() implies dep_accounted(
                                entries,
                                (#[trigger] root.deps@[dd]).name@,
                                resolved@,
                                failures@,
                                *root,
                            ) by {
                                lemma_accounted_grow(
                                    entries,
                                    root.deps@[dd].name@,
                                    rpre,
                                    failures@,
                                    resolved@,
                                    failures@,
                                    *root,
                                );
                            }
                            assert forall|dd: int| 0 <= dd < pdi + 1 implies dep_accounted(
                                entries,
                                (#[trigger] parent.deps@[dd]).name@,
                                resolved@,
                                failures@,
                                *root,
                            ) by {
                                if dd == pdi as int {
                                    assert(resolved@[resolved@.len() - 1].project.name@
                                        == parent.deps@[dd].name@);
                                } else {
                                    lemma_accounted_grow(
                                        entries,
                                        parent.deps@[dd].name@,
                                        rpre,
                                        failures@,
                                        resolved@,
                                        failures@,
                                        *root,
                                    );
                                }
                            }
                        }
                    }
                },
            }
            pdi = pdi + 1;
        }
        proof {
            assert(deps_accounted(entries, entries[item.idx as int], resolved@, failures@, *root))
                by {
                assert forall|dd: int|
                    0 <= dd < entries[item.idx as int].deps@.len() implies dep_accounted(
                    entries,
                    (#[trigger] entries[item.idx as int].deps@[dd]).name@,
                    resolved@,
                    failures@,
                    *root,
                ) by {
                    assert(parent.deps@[dd] == entries[item.idx as int].deps@[dd]);
                    assert(dep_accounted(
                        entries,
                        parent.deps@[dd].name@,
                        resolved@,
                        failures@,
                        *root,
                    ));
                }
            }
            done = done.insert(item.idx as int);
        }
    }
    let ghost rs = resolved@;
    let ghost fs = failures@;
    let result = (resolved, failures);
    proof {
        assert(result.0@ == rs);
        assert(result.1@ == fs);
        lemma_resolved_from_registry(rs, registry.entries@, ridx);
        assert(resolved_from_registry(result.0@, registry.entries@));
        assert forall|i: int, j: int| 0 <= i < j < result.0@.len() implies !same_ident(
            (#[trigger] result.0@[i]).project,
            (#[trigger] result.0@[j]).project,
        ) by {
            let k1 = ridx[i];
            let k2 = ridx[j];
            assert(k1 != k2);
            assert(entry_is_first(entries, k1));
            assert(entry_is_first(entries, k2));
            if same_ident(rs[i].project, rs[j].project) {
                assert(entries[k1].name@ == entries[k2].name@);
                if k1 < k2 {
                    assert(entries[k1].name@ != entries[k2].name@);
                } else {
                    assert(entries[k2].name@ != entries[k1].name@);
                }
            }
        }
        assert forall|d: int|
            0 <= d < root.deps@.len() && !has_entry_named(
                registry.entries@,
                (#[trigger] root.deps@[d]).name@,
            ) implies exists|f: int|
            0 <= f < result.1@.len() && (#[trigger] result.1@[f]).name@
                == root.deps@[d].name@ by {
            let fw = choose|f: int|
                0 <= f < fs.len() && (#[trigger] fs[f]).name@ == root.deps@[d].name@;
            assert(0 <= fw < result.1@.len() && result.1@[fw].name@ == root.deps@[d].name@);
        }
        assert(deps_accounted(entries, *root, result.0@, result.1@, *root));
        assert forall|k: int| #[trigger] vset.contains(k) implies done.contains(k) by {
            if in_frontier(frontier@, k) {
                let fi = choose|fi: int|
                    0 <= fi < frontier@.len() && ((#[trigger] frontier@[fi]).idx as int) == k;
                assert(false);
            }
        }
        assert forall|i: int| 0 <= i < result.0@.len() implies deps_accounted(
            entries,
            (#[trigger] result.0@[i]).project,
            result.0@,
            result.1@,
            *root,
        ) by {
            let k = ridx[i];
            assert(vset.contains(k));
            assert(done.contains(k));
            assert(deps_accounted(entries, entries[k], rs, fs, *root));
            let p = rs[i].project;
            assert(project_eq(p, entries[k]));
            assert forall|dd: int| 0 <= dd < p.deps@.len() implies dep_accounted(
                entries,
                (#[trigger] p.deps@[dd]).name@,
                result.0@,
                result.1@,
                *root,
            ) by {
                assert(p.deps@[dd].name@ == entries[k].deps@[dd].name@);
                assert(dep_accounted(entries, entries[k].deps@[dd].name@, rs, fs, *root));
            }
            assert(result.0@[i].project == p);
        }
    }
    result
}

} // verus!
