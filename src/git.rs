use vstd::prelude::*;
use vstd::string::*;

use crate::text::texts;

verus! {

/// One operation of the version-control tool.
#[derive(Debug)]
pub enum GitOp {
    Fetch,
    Init,
    /// Adds `uri` as the remote `origin`.
    Remote(String),
    /// Clones `uri`; `bare` clones into the working directory itself.
    Clone { uri: String, bare: bool },
    Pull,
    /// Checks out a commit.
    Checkout(String),
}

/// An operation together with where to run it: a directory given by its path
/// components below the project root, and whether to keep its output quiet.
#[derive(Debug)]
pub struct GitRequest {
    pub dir: Vec<String>,
    pub silent: bool,
    pub op: GitOp,
}

/// The state of a run of operations: the directory they run in, whether
/// their output is shown, and whether the last one succeeded.
#[derive(Debug)]
pub struct GitClient {
    pub cwd: String,
    pub silent: bool,
    pub err: bool,
}

/// The command-line arguments of an operation.
pub open spec fn git_args(op: GitOp) -> Seq<Seq<char>> {
    match op {
        GitOp::Fetch => seq!["fetch"@],
        GitOp::Init => seq!["init"@],
        GitOp::Remote(uri) => seq!["remote"@, "add"@, "origin"@, uri@],
        GitOp::Clone { uri, bare } => if bare {
            seq!["clone"@, uri@, "."@]
        } else {
            seq!["clone"@, uri@]
        },
        GitOp::Pull => seq!["pull"@, "origin"@, "master"@],
        GitOp::Checkout(hash) => seq!["checkout"@, hash@],
    }
}

impl GitOp {
    pub fn arguments(&self) -> (r: Vec<String>)
        ensures
            texts(r@) == git_args(*self),
    {
        let mut r: Vec<String> = Vec::new();
        match self {
            GitOp::Fetch => {
                r.push(String::from_str("fetch"));
            },
            GitOp::Init => {
                r.push(String::from_str("init"));
            },
            GitOp::Remote(uri) => {
                r.push(String::from_str("remote"));
                r.push(String::from_str("add"));
                r.push(String::from_str("origin"));
                r.push(uri.clone());
            },
            GitOp::Clone { uri, bare } => {
                r.push(String::from_str("clone"));
                r.push(uri.clone());
                if *bare {
                    r.push(String::from_str("."));
                }
            },
            GitOp::Pull => {
                r.push(String::from_str("pull"));
                r.push(String::from_str("origin"));
                r.push(String::from_str("master"));
            },
            GitOp::Checkout(hash) => {
                r.push(String::from_str("checkout"));
                r.push(hash.clone());
            },
        }
        proof {
            assert(texts(r@) =~= git_args(*self));
        }
        r
    }
}

impl GitClient {
    /// A client in the current directory, showing output, with nothing run yet.
    pub fn create() -> (r: Self)
        ensures
            r.cwd@ == "."@,
            !r.silent,
            !r.err,
    {
        GitClient { cwd: String::from_str("."), silent: false, err: false }
    }

    pub fn cwd(self, cwd: String) -> (r: Self)
        ensures
            r.cwd == cwd,
            r.silent == self.silent,
            r.err == self.err,
    {
        GitClient { cwd, silent: self.silent, err: self.err }
    }

    pub fn silent(self) -> (r: Self)
        ensures
            r.cwd == self.cwd,
            r.silent,
            r.err == self.err,
    {
        GitClient { cwd: self.cwd, silent: true, err: self.err }
    }

    /// Records the outcome of the operation just run.
    pub fn record(self, success: bool) -> (r: Self)
        ensures
            r.cwd == self.cwd,
            r.silent == self.silent,
            r.err == success,
    {
        GitClient { cwd: self.cwd, silent: self.silent, err: success }
    }

    /// Whether the last operation succeeded.
    pub fn err(&self) -> (r: bool)
        ensures
            r == self.err,
    {
        self.err
    }
}

} // verus!
