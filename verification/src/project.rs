//! The data model: projects, declared dependencies, the registry snapshot
//! the resolver works against, and resolution results.

use vstd::prelude::*;
use crate::bytes::{clone_bytes, clone_bytes_list};

verus! {

/// The kind of a declared dependency edge.
#[derive(Clone, Copy, PartialEq, Eq, Structural, Debug)]
pub enum DepKind {
    Normal,
    Dev,
    Build,
}

/// One dependency declared in a project's manifest.
pub struct DepDecl {
    pub name: Vec<u8>,
    pub req: Vec<u8>,
    pub kind: DepKind,
}

/// A project as its manifest declares it, loaded by the caller.
pub struct Project {
    pub name: Vec<u8>,
    pub version: Vec<u8>,
    pub authors: Vec<Vec<u8>>,
    pub license: Vec<u8>,
    pub description: Vec<u8>,
    pub keywords: Vec<Vec<u8>>,
    pub deps: Vec<DepDecl>,
}

/// A snapshot of the manifests the registry can supply, keyed by name.
pub struct Registry {
    pub entries: Vec<Project>,
}

/// A dependency reached transitively from the root, annotated with the
/// resolution depth and the chain of names that reached it.
pub struct ResolvedDependency {
    pub project: Project,
    pub depth: usize,
    pub path: Vec<Vec<u8>>,
}

/// A dependency that could not be located in the registry snapshot.
pub struct ResolutionFailure {
    pub name: Vec<u8>,
    pub requirement: Vec<u8>,
}

/// Two projects are the same entity when name and version agree.
pub open spec fn same_ident(a: Project, b: Project) -> bool {
    a.name@ == b.name@ && a.version@ == b.version@
}

/// Structural equality of the fields a row can mention.
pub open spec fn project_eq(a: Project, b: Project) -> bool {
    &&& a.name@ == b.name@
    &&& a.version@ == b.version@
    &&& a.authors@.map_values(|v: Vec<u8>| v@) == b.authors@.map_values(|v: Vec<u8>| v@)
    &&& a.license@ == b.license@
    &&& a.description@ == b.description@
    &&& a.keywords@.map_values(|v: Vec<u8>| v@) == b.keywords@.map_values(|v: Vec<u8>| v@)
    &&& a.deps@.len() == b.deps@.len()
    &&& forall|i: int| 0 <= i < a.deps@.len() ==> {
        &&& (#[trigger] a.deps@[i]).name@ == b.deps@[i].name@
        &&& a.deps@[i].req@ == b.deps@[i].req@
        &&& a.deps@[i].kind == b.deps@[i].kind
    }
}

/// Copies one dependency declaration.
pub fn clone_dep(d: &DepDecl) -> (r: DepDecl)
    ensures
        r.name@ == d.name@,
        r.req@ == d.req@,
        r.kind == d.kind,
{
    DepDecl { name: clone_bytes(&d.name), req: clone_bytes(&d.req), kind: d.kind }
}

/// Copies a whole project record.
pub fn clone_project(p: &Project) -> (r: Project)
    ensures
        project_eq(r, *p),
{
    let mut deps: Vec<DepDecl> = Vec::new();
    let mut i: usize = 0;
    while i < p.deps.len()
        invariant
            i <= p.deps@.len(),
            deps@.len() == i,
            forall|j: int| 0 <= j < i ==> {
                &&& (#[trigger] deps@[j]).name@ == p.deps@[j].name@
                &&& deps@[j].req@ == p.deps@[j].req@
                &&& deps@[j].kind == p.deps@[j].kind
            },
        decreases p.deps@.len() - i,
    {
        deps.push(clone_dep(&p.deps[i]));
        i = i + 1;
    }
    let r = Project {
        name: clone_bytes(&p.name),
        version: clone_bytes(&p.version),
        authors: clone_bytes_list(&p.authors),
        license: clone_bytes(&p.license),
        description: clone_bytes(&p.description),
        keywords: clone_bytes_list(&p.keywords),
        deps,
    };
    proof {
        assert(r.authors@.map_values(|v: Vec<u8>| v@) =~= p.authors@.map_values(
            |v: Vec<u8>| v@,
        ));
        assert(r.keywords@.map_values(|v: Vec<u8>| v@) =~= p.keywords@.map_values(
            |v: Vec<u8>| v@,
        ));
    }
    r
}

} // verus!
