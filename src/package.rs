use vstd::prelude::*;
use vstd::string::*;

use crate::error::GraceError;
use crate::git::{GitOp, GitRequest};
use crate::resolve::{resolution, resolve_package};
use crate::semver::{parse_version, Compatibility, SemanticVersion};
use crate::text::{split_tokens, texts, tokens_of};

verus! {

/// The acceptance policy that a dependency request carries.
#[derive(Clone, Copy, Debug, PartialEq, Eq, Structural)]
pub enum VersionSelector {
    /// Only the very version asked for (`=`).
    StrictEquals,
    /// Any version of the same major line (`>=`).
    LargerEquals,
    /// Any patch of the same major and minor (`~=`).
    Compatible,
}

/// Whether `selector` accepts a candidate classified as `c` against the sought version.
pub open spec fn accepts(c: Compatibility, selector: VersionSelector) -> bool {
    match c {
        Compatibility::Breaking => false,
        Compatibility::Exact => true,
        Compatibility::Partial => selector != VersionSelector::StrictEquals,
        Compatibility::Compatible => selector == VersionSelector::LargerEquals,
    }
}

/// The acceptance table, entry by entry: no selector accepts a breaking
/// change, all accept an exact match, a patch change needs more than
/// `StrictEquals`, and a minor change needs `LargerEquals`.
pub proof fn lemma_acceptance_table()
    ensures
        !accepts(Compatibility::Breaking, VersionSelector::StrictEquals),
        !accepts(Compatibility::Breaking, VersionSelector::Compatible),
        !accepts(Compatibility::Breaking, VersionSelector::LargerEquals),
        accepts(Compatibility::Exact, VersionSelector::StrictEquals),
        accepts(Compatibility::Exact, VersionSelector::Compatible),
        accepts(Compatibility::Exact, VersionSelector::LargerEquals),
        !accepts(Compatibility::Partial, VersionSelector::StrictEquals),
        accepts(Compatibility::Partial, VersionSelector::Compatible),
        accepts(Compatibility::Partial, VersionSelector::LargerEquals),
        !accepts(Compatibility::Compatible, VersionSelector::StrictEquals),
        !accepts(Compatibility::Compatible, VersionSelector::Compatible),
        accepts(Compatibility::Compatible, VersionSelector::LargerEquals),
{
}

/// One published point of a package.
#[derive(Debug)]
pub struct PackageVersion {
    pub id: String,
    pub commit_hash: String,
}

impl Clone for PackageVersion {
    fn clone(&self) -> (r: Self)
        ensures
            r == *self,
    {
        PackageVersion { id: self.id.clone(), commit_hash: self.commit_hash.clone() }
    }
}

/// A package as a registry's catalog lists it.
#[derive(Debug)]
pub struct Package {
    pub name: String,
    pub uri: String,
    pub versions: Vec<PackageVersion>,
}

/// The catalog of one registry.
#[derive(Debug)]
pub struct PackageList {
    pub packagelist: Vec<Package>,
}

/// A pinned dependency, as the lock file records it.
#[derive(Debug)]
pub struct PackageDependency {
    pub name: String,
    pub version: String,
    pub uri: String,
    pub commit_hash: String,
}

impl Clone for PackageDependency {
    fn clone(&self) -> (r: Self)
        ensures
            r == *self,
    {
        PackageDependency {
            name: self.name.clone(),
            version: self.version.clone(),
            uri: self.uri.clone(),
            commit_hash: self.commit_hash.clone(),
        }
    }
}

/// The entries of `lock` not named `name`, in their order.
pub open spec fn without_name(lock: Seq<PackageDependency>, name: Seq<char>) -> Seq<PackageDependency>
    decreases lock.len(),
{
    if lock.len() == 0 {
        Seq::empty()
    } else {
        let rest = without_name(lock.drop_last(), name);
        if lock.last().name@ == name {
            rest
        } else {
            rest.push(lock.last())
        }
    }
}

/// The lock after pinning `dep`: every earlier entry of that name goes, `dep` comes last.
pub open spec fn upserted(lock: Seq<PackageDependency>, dep: PackageDependency) -> Seq<PackageDependency> {
    without_name(lock, dep.name@).push(dep)
}

/// The pin that a resolved candidate makes for `name`.
pub open spec fn pin_of(name: String, found: (PackageVersion, String)) -> PackageDependency {
    PackageDependency {
        name: name,
        version: found.0.id,
        uri: found.1,
        commit_hash: found.0.commit_hash,
    }
}

proof fn lemma_without_name_drops(lock: Seq<PackageDependency>, name: Seq<char>)
    ensures
        forall|i: int|
            0 <= i < without_name(lock, name).len() ==> (#[trigger] without_name(lock, name)[i]).name@
                != name,
    decreases lock.len(),
{
    if lock.len() > 0 {
        let rest = without_name(lock.drop_last(), name);
        lemma_without_name_drops(lock.drop_last(), name);
        assert forall|i: int|
            0 <= i < without_name(lock, name).len() implies (#[trigger] without_name(
            lock,
            name,
        )[i]).name@ != name by {
            if i < rest.len() {
                assert(without_name(lock, name)[i] == rest[i]);
            }
        }
    }
}

proof fn lemma_without_name_keeps(lock: Seq<PackageDependency>, name: Seq<char>)
    requires
        forall|i: int| 0 <= i < lock.len() ==> (#[trigger] lock[i]).name@ != name,
    ensures
        without_name(lock, name) == lock,
    decreases lock.len(),
{
    if lock.len() > 0 {
        lemma_without_name_keeps(lock.drop_last(), name);
        assert(lock.drop_last().push(lock.last()) =~= lock);
    }
}

/// After an upsert the lock holds exactly one entry of that name: the new one, last.
pub proof fn lemma_upsert_single_entry(lock: Seq<PackageDependency>, dep: PackageDependency)
    ensures
        upserted(lock, dep).last() == dep,
        forall|i: int|
            0 <= i < upserted(lock, dep).len() && (#[trigger] upserted(lock, dep)[i]).name@
                == dep.name@ ==> i == upserted(lock, dep).len() - 1,
{
    lemma_without_name_drops(lock, dep.name@);
}

/// Upserting twice under one name is the same as upserting the latest value
/// once: one entry for that name remains, with the latest values.
pub proof fn lemma_upsert_idempotent_by_name(
    lock: Seq<PackageDependency>,
    first: PackageDependency,
    second: PackageDependency,
)
    requires
        first.name@ == second.name@,
    ensures
        upserted(upserted(lock, first), second) == upserted(lock, second),
{
    let n = second.name@;
    let once = without_name(lock, n).push(first);
    assert(once.drop_last() =~= without_name(lock, n));
    lemma_without_name_drops(lock, n);
    lemma_without_name_keeps(without_name(lock, n), n);
}

/// The selector that a token names: `=`, `>=` or `~=`.
pub open spec fn selector_of(token: Seq<char>) -> Option<VersionSelector> {
    if token == "="@ {
        Some(VersionSelector::StrictEquals)
    } else if token == ">="@ {
        Some(VersionSelector::LargerEquals)
    } else if token == "~="@ {
        Some(VersionSelector::Compatible)
    } else {
        None
    }
}

/// What a dependency line `<name> <selector> <version>` requests: the line
/// must hold exactly three whitespace-separated tokens; the version is checked
/// before the selector.
pub open spec fn request_of(line: Seq<char>) -> Result<(Seq<char>, VersionSelector, SemanticVersion), GraceError> {
    let f = tokens_of(line);
    if f.len() != 3 {
        Err(GraceError::MalformedRequest)
    } else if parse_version(f[2]) is None {
        Err(GraceError::MalformedVersion)
    } else if selector_of(f[1]) is None {
        Err(GraceError::InvalidSelector)
    } else {
        Ok((f[0], selector_of(f[1]).unwrap(), parse_version(f[2]).unwrap()))
    }
}

/// The packages folder below the project root, and a package's folder in it.
pub open spec fn packages_dir() -> Seq<Seq<char>> {
    seq!["packages"@]
}

pub open spec fn package_dir(name: Seq<char>) -> Seq<Seq<char>> {
    seq!["packages"@, name]
}

/// The requests that place a pinned package at `packages/<name>`: clone its
/// source into the packages folder, then fetch and check out the pinned commit.
pub open spec fn is_checkout_plan(plan: Seq<GitRequest>, dep: PackageDependency) -> bool {
    &&& plan.len() == 3
    &&& texts(plan[0].dir@) == packages_dir()
    &&& plan[0].op == (GitOp::Clone { uri: dep.uri, bare: false })
    &&& texts(plan[1].dir@) == package_dir(dep.name@)
    &&& plan[1].op == GitOp::Fetch
    &&& texts(plan[2].dir@) == package_dir(dep.name@)
    &&& plan[2].op == GitOp::Checkout(dep.commit_hash)
    &&& forall|k: int| 0 <= k < 3 ==> !(#[trigger] plan[k]).silent
}

/// Reads a selector token.
pub fn parse_selector(token: &str) -> (r: Result<VersionSelector, GraceError>)
    ensures
        match selector_of(token@) {
            Some(sel) => r == Ok::<VersionSelector, GraceError>(sel),
            None => r == Err::<VersionSelector, GraceError>(GraceError::InvalidSelector),
        },
{
    let t = token.to_owned();
    if t == String::from_str("=") {
        Ok(VersionSelector::StrictEquals)
    } else if t == String::from_str(">=") {
        Ok(VersionSelector::LargerEquals)
    } else if t == String::from_str("~=") {
        Ok(VersionSelector::Compatible)
    } else {
        Err(GraceError::InvalidSelector)
    }
}

impl PackageVersion {
    /// The version that `id` spells, or `MalformedVersion`.
    pub fn as_semver(&self) -> (r: Result<SemanticVersion, GraceError>)
        ensures
            match parse_version(self.id@) {
                Some(v) => r == Ok::<SemanticVersion, GraceError>(v),
                None => r == Err::<SemanticVersion, GraceError>(GraceError::MalformedVersion),
            },
    {
        SemanticVersion::from_string(self.id.clone())
    }
}

impl PackageDependency {
    /// Replaces every entry named like `dep` by `dep`, which goes last.
    pub fn upsert(lock: &mut Vec<PackageDependency>, dep: PackageDependency)
        ensures
            final(lock)@ == upserted(old(lock)@, dep),
    {
        let mut kept: Vec<PackageDependency> = Vec::new();
        let mut i: usize = 0;
        while i < lock.len()
            invariant
                0 <= i <= lock@.len(),
                kept@ == without_name(lock@.take(i as int), dep.name@),
            decreases lock@.len() - i,
        {
            proof {
                assert(lock@.take(i + 1).drop_last() =~= lock@.take(i as int));
            }
            if lock[i].name != dep.name {
                kept.push(lock[i].clone());
            }
            i = i + 1;
        }
        proof {
            assert(lock@.take(lock@.len() as int) =~= lock@);
        }
        kept.push(dep);
        *lock = kept;
    }

    /// Resolves `package_name` against the catalogs and pins the result in
    /// `lock`; when nothing is found, or a catalog is corrupt, `lock` is left as it was.
    pub fn add_package(
        lock: &mut Vec<PackageDependency>,
        package_name: &String,
        version_selector: VersionSelector,
        package_version: SemanticVersion,
        catalogs: &Vec<PackageList>,
    ) -> (r: Result<PackageDependency, GraceError>)
        ensures
            match resolution(package_name@, package_version, version_selector, catalogs@) {
                Err(e) => r == Err::<PackageDependency, GraceError>(e) && final(lock)@ == old(lock)@,
                Ok(None) => r == Err::<PackageDependency, GraceError>(
                    (GraceError::PackageUnavailable { name: *package_name, version: package_version }),
                ) && final(lock)@ == old(lock)@,
                Ok(Some(found)) => r == Ok::<PackageDependency, GraceError>(pin_of(*package_name, found))
                    && final(lock)@ == upserted(old(lock)@, pin_of(*package_name, found)),
            },
    {
        match resolve_package(package_name, package_version, version_selector, catalogs) {
            Err(e) => Err(e),
            Ok(None) => Err(
                GraceError::PackageUnavailable { name: package_name.clone(), version: package_version },
            ),
            Ok(Some(found)) => {
                let dep = PackageDependency {
                    name: package_name.clone(),
                    version: found.0.id,
                    uri: found.1,
                    commit_hash: found.0.commit_hash,
                };
                PackageDependency::upsert(lock, dep.clone());
                Ok(dep)
            },
        }
    }

    /// Reads a dependency line `<name> <selector> <version>`.
    pub fn parse_request(line: &str) -> (r: Result<(String, VersionSelector, SemanticVersion), GraceError>)
        ensures
            match request_of(line@) {
                Ok((name, sel, v)) => r is Ok && r->Ok_0.0@ == name && r->Ok_0.1 == sel
                    && r->Ok_0.2 == v,
                Err(e) => r == Err::<(String, VersionSelector, SemanticVersion), GraceError>(e),
            },
    {
        let items = split_tokens(line);
        proof {
            assert(texts(items@).len() == items@.len());
        }
        if items.len() != 3 {
            return Err(GraceError::MalformedRequest);
        }
        proof {
            assert(items@[1]@ == texts(items@)[1]);
            assert(items@[2]@ == texts(items@)[2]);
            assert(items@[0]@ == texts(items@)[0]);
        }
        let version = match SemanticVersion::from_string(items[2].clone()) {
            Ok(v) => v,
            Err(e) => {
                return Err(e);
            },
        };
        let selector = match parse_selector(items[1].as_str()) {
            Ok(sel) => sel,
            Err(e) => {
                return Err(e);
            },
        };
        Ok((items[0].clone(), selector, version))
    }

    /// The requests that materialise a pinned package in the project.
    pub fn install_single_dependency(dep: &PackageDependency) -> (plan: Vec<GitRequest>)
        ensures
            is_checkout_plan(plan@, *dep),
    {
        let mut target: Vec<String> = Vec::new();
        target.push(String::from_str("packages"));
        let mut fetch_dir: Vec<String> = Vec::new();
        fetch_dir.push(String::from_str("packages"));
        fetch_dir.push(dep.name.clone());
        let mut checkout_dir: Vec<String> = Vec::new();
        checkout_dir.push(String::from_str("packages"));
        checkout_dir.push(dep.name.clone());
        proof {
            assert(texts(target@) =~= packages_dir());
            assert(texts(fetch_dir@) =~= package_dir(dep.name@));
            assert(texts(checkout_dir@) =~= package_dir(dep.name@));
        }
        let mut plan: Vec<GitRequest> = Vec::new();
        plan.push(
            GitRequest {
                dir: target,
                silent: false,
                op: GitOp::Clone { uri: dep.uri.clone(), bare: false },
            },
        );
        plan.push(GitRequest { dir: fetch_dir, silent: false, op: GitOp::Fetch });
        plan.push(
            GitRequest {
                dir: checkout_dir,
                silent: false,
                op: GitOp::Checkout(dep.commit_hash.clone()),
            },
        );
        plan
    }

    /// Handles one line of the dependency file: reads the request, resolves
    /// and pins it in `lock`, and returns the pin with the requests that
    /// materialise it. On any error `lock` is left as it was.
    pub fn install_line(
        lock: &mut Vec<PackageDependency>,
        line: &str,
        catalogs: &Vec<PackageList>,
    ) -> (r: Result<(PackageDependency, Vec<GitRequest>), GraceError>)
        ensures
            match request_of(line@) {
                Err(e) => r == Err::<(PackageDependency, Vec<GitRequest>), GraceError>(e)
                    && final(lock)@ == old(lock)@,
                Ok((name, sel, v)) => match resolution(name, v, sel, catalogs@) {
                    Err(e) => r == Err::<(PackageDependency, Vec<GitRequest>), GraceError>(e)
                        && final(lock)@ == old(lock)@,
                    Ok(None) => r matches Err(GraceError::PackageUnavailable { name: n, version: w })
                        && n@ == name && w == v && final(lock)@ == old(lock)@,
                    Ok(Some(found)) => r is Ok && r->Ok_0.0.name@ == name && r->Ok_0.0 == pin_of(
                        r->Ok_0.0.name,
                        found,
                    ) && is_checkout_plan(r->Ok_0.1@, r->Ok_0.0) && final(lock)@ == upserted(
                        old(lock)@,
                        r->Ok_0.0,
                    ),
                },
            },
    {
        let (name, selector, version) = match PackageDependency::parse_request(line) {
            Ok(req) => req,
            Err(e) => {
                return Err(e);
            },
        };
        match PackageDependency::add_package(lock, &name, selector, version, catalogs) {
            Ok(dep) => {
                let plan = PackageDependency::install_single_dependency(&dep);
                Ok((dep, plan))
            },
            Err(e) => Err(e),
        }
    }
}

} // verus!
