use vstd::prelude::*;
use vstd::string::*;

use crate::git::{GitOp, GitRequest};
use crate::text::texts;

verus! {

/// The folder below the project root that holds the registry mirrors.
pub const GRACE_ROOT_FOLDER: &'static str = ".grace";

pub const GRACE_PROJECT_FILE_NAME: &'static str = "grace-config.json";

pub const GRACE_PACKAGE_FILE_NAME: &'static str = "grace-packages.txt";

pub const GRACE_PACKAGE_LOCK_FILE_NAME: &'static str = "grace-lock.json";

/// A catalog source, identified by its URI.
#[derive(Debug)]
pub struct Registry {
    pub uri: String,
}

impl Clone for Registry {
    fn clone(&self) -> (r: Self)
        ensures
            r == *self,
    {
        Registry { uri: self.uri.clone() }
    }
}

/// A project: its registries, in the order in which they are consulted.
#[derive(Debug)]
pub struct Project {
    pub registries: Vec<Registry>,
}

/// The character that stands for `c` in a directory name.
pub open spec fn dir_char(c: char) -> char {
    if c == ':' || c == '/' || c == '\\' {
        '_'
    } else {
        c
    }
}

/// The directory name of a registry mirror: its URI with path and drive
/// separators replaced by `_`.
pub open spec fn dir_name(uri: Seq<char>) -> Seq<char> {
    uri.map_values(|c: char| dir_char(c))
}

/// Where a registry's mirror lives, as path components below the project root.
pub open spec fn mirror_dir(uri: Seq<char>) -> Seq<Seq<char>> {
    seq![GRACE_ROOT_FOLDER@, dir_name(uri)]
}

/// The requests that bring a registry mirror up to date: a clone into a
/// fresh mirror when there is none yet, then, quietly, init, adding the
/// remote, pull and fetch.
pub open spec fn is_update_plan(plan: Seq<GitRequest>, uri: String, mirror_exists: bool) -> bool {
    let o: int = if mirror_exists {
        0
    } else {
        1
    };
    &&& plan.len() == o + 4
    &&& forall|k: int| 0 <= k < plan.len() ==> texts((#[trigger] plan[k]).dir@) == mirror_dir(uri@)
    &&& forall|k: int| o <= k < plan.len() ==> (#[trigger] plan[k]).silent
    &&& !mirror_exists ==> !plan[0].silent && plan[0].op == (GitOp::Clone { uri: uri, bare: true })
    &&& plan[o].op == GitOp::Init
    &&& plan[o + 1].op == GitOp::Remote(uri)
    &&& plan[o + 2].op == GitOp::Pull
    &&& plan[o + 3].op == GitOp::Fetch
}

impl Project {
    /// A project with no registries.
    pub fn new() -> (r: Self)
        ensures
            r.registries@.len() == 0,
    {
        Project { registries: Vec::new() }
    }

    /// The directory name for a registry's mirror.
    pub fn uri_to_directory(uri: &str) -> (r: String)
        ensures
            r@ == dir_name(uri@),
    {
        let n = uri.unicode_len();
        let mut out = String::new();
        let mut i: usize = 0;
        proof {
            reveal_strlit("_");
        }
        while i < n
            invariant
                n == uri@.len(),
                0 <= i <= n,
                out@ == dir_name(uri@.take(i as int)),
                "_"@ == seq!['_'],
            decreases n - i,
        {
            let c = uri.get_char(i);
            if c == ':' || c == '/' || c == '\\' {
                out.append("_");
            } else {
                out.append(uri.substring_char(i, i + 1));
            }
            proof {
                assert(out@ =~= dir_name(uri@.take(i + 1)));
            }
            i = i + 1;
        }
        proof {
            assert(uri@.take(n as int) =~= uri@);
        }
        out
    }

    /// Appends a registry with this URI to the project.
    pub fn add_registry(&mut self, registry: String)
        ensures
            final(self).registries@ == old(self).registries@.push(Registry { uri: registry }),
    {
        self.registries.push(Registry { uri: registry });
    }

    fn mirror_components(uri: &String) -> (r: Vec<String>)
        ensures
            texts(r@) == mirror_dir(uri@),
    {
        let mut r: Vec<String> = Vec::new();
        r.push(String::from_str(GRACE_ROOT_FOLDER));
        r.push(Project::uri_to_directory(uri.as_str()));
        proof {
            assert(texts(r@) =~= mirror_dir(uri@));
        }
        r
    }

    /// The requests that update one registry's mirror.
    pub fn update_registry(r: &Registry, mirror_exists: bool) -> (plan: Vec<GitRequest>)
        ensures
            is_update_plan(plan@, r.uri, mirror_exists),
    {
        let mut plan: Vec<GitRequest> = Vec::new();
        if !mirror_exists {
            plan.push(
                GitRequest {
                    dir: Project::mirror_components(&r.uri),
                    silent: false,
                    op: GitOp::Clone { uri: r.uri.clone(), bare: true },
                },
            );
        }
        plan.push(
            GitRequest { dir: Project::mirror_components(&r.uri), silent: true, op: GitOp::Init },
        );
        plan.push(
            GitRequest {
                dir: Project::mirror_components(&r.uri),
                silent: true,
                op: GitOp::Remote(r.uri.clone()),
            },
        );
        plan.push(
            GitRequest { dir: Project::mirror_components(&r.uri), silent: true, op: GitOp::Pull },
        );
        plan.push(
            GitRequest { dir: Project::mirror_components(&r.uri), silent: true, op: GitOp::Fetch },
        );
        plan
    }

    /// The update requests of every registry, in order; `mirror_exists[i]`
    /// says whether the `i`-th registry has a mirror already (none where it is missing).
    pub fn update_registries(&self, mirror_exists: &Vec<bool>) -> (plans: Vec<Vec<GitRequest>>)
        ensures
            plans@.len() == self.registries@.len(),
            forall|i: int|
                0 <= i < plans@.len() ==> is_update_plan(
                    (#[trigger] plans@[i])@,
                    self.registries@[i].uri,
                    i < mirror_exists@.len() && mirror_exists@[i],
                ),
    {
        let mut plans: Vec<Vec<GitRequest>> = Vec::new();
        let mut i: usize = 0;
        while i < self.registries.len()
            invariant
                0 <= i <= self.registries@.len(),
                plans@.len() == i,
                forall|k: int|
                    0 <= k < i ==> is_update_plan(
                        (#[trigger] plans@[k])@,
                        self.registries@[k].uri,
                        k < mirror_exists@.len() && mirror_exists@[k],
                    ),
            decreases self.registries@.len() - i,
        {
            let exists = i < mirror_exists.len() && mirror_exists[i];
            let plan = Project::update_registry(&self.registries[i], exists);
            plans.push(plan);
            i = i + 1;
        }
        plans
    }
}

} // verus!
