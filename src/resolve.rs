use vstd::prelude::*;

use crate::error::GraceError;
use crate::package::{accepts, Package, PackageList, PackageVersion, VersionSelector};
use crate::semver::{
    classify, lemma_classify_symmetric, newer, parse_version, Compatibility, SemanticVersion,
};

verus! {

/// A version on offer, with the source URI of the package that offers it.
pub type Candidate = (PackageVersion, String);

/// The versions of one package, in catalog order.
pub open spec fn package_candidates(p: Package) -> Seq<Candidate> {
    p.versions@.map_values(|v: PackageVersion| (v, p.uri))
}

/// The versions of every package called `name` in one catalog, in catalog order.
pub open spec fn list_candidates(name: Seq<char>, ps: Seq<Package>) -> Seq<Candidate>
    decreases ps.len(),
{
    if ps.len() == 0 {
        Seq::empty()
    } else {
        let prev = list_candidates(name, ps.drop_last());
        if ps.last().name@ == name {
            prev + package_candidates(ps.last())
        } else {
            prev
        }
    }
}

/// The versions of `name` across all catalogs, in registry order.
pub open spec fn catalog_candidates(name: Seq<char>, cats: Seq<PackageList>) -> Seq<Candidate>
    decreases cats.len(),
{
    if cats.len() == 0 {
        Seq::empty()
    } else {
        catalog_candidates(name, cats.drop_last()) + list_candidates(
            name,
            cats.last().packagelist@,
        )
    }
}

/// The version that a candidate's id spells (meaningful when it parses).
pub open spec fn candidate_version(c: Candidate) -> SemanticVersion {
    parse_version(c.0.id@).unwrap()
}

/// Whether `selector` accepts the candidate against `sought`.
pub open spec fn admissible(c: Candidate, sought: SemanticVersion, selector: VersionSelector) -> bool {
    match parse_version(c.0.id@) {
        Some(v) => accepts(classify(v, sought), selector),
        None => false,
    }
}

/// The scan over `cs` that keeps the first admissible candidate and replaces
/// it only by a strictly newer admissible one.
pub open spec fn best_of(cs: Seq<Candidate>, sought: SemanticVersion, selector: VersionSelector) -> Option<Candidate>
    decreases cs.len(),
{
    if cs.len() == 0 {
        None
    } else {
        let prev = best_of(cs.drop_last(), sought, selector);
        let c = cs.last();
        if admissible(c, sought, selector) && (prev is None || newer(
            candidate_version(c),
            candidate_version(prev.unwrap()),
        )) {
            Some(c)
        } else {
            prev
        }
    }
}

/// Every version id of every package called `name` is a well-formed version.
pub open spec fn versions_parse(name: Seq<char>, cats: Seq<PackageList>) -> bool {
    forall|a: int, b: int, c: int|
        0 <= a < cats.len() && 0 <= b < cats[a].packagelist@.len()
            && cats[a].packagelist@[b].name@ == name && 0 <= c
            < cats[a].packagelist@[b].versions@.len() ==> parse_version(
            #[trigger] cats[a].packagelist@[b].versions@[c].id@,
        ) is Some
}

/// What resolving `name` against the catalogs yields.
pub open spec fn resolution(
    name: Seq<char>,
    sought: SemanticVersion,
    selector: VersionSelector,
    cats: Seq<PackageList>,
) -> Result<Option<Candidate>, GraceError> {
    if versions_parse(name, cats) {
        Ok(best_of(catalog_candidates(name, cats), sought, selector))
    } else {
        Err(GraceError::CatalogCorrupt)
    }
}

proof fn lemma_best_of_admissible(cs: Seq<Candidate>, sought: SemanticVersion, selector: VersionSelector)
    ensures
        best_of(cs, sought, selector) is Some ==> admissible(
            best_of(cs, sought, selector).unwrap(),
            sought,
            selector,
        ),
    decreases cs.len(),
{
    if cs.len() > 0 {
        lemma_best_of_admissible(cs.drop_last(), sought, selector);
    }
}

/// The pick of a scan is the newest admissible candidate, and the first of
/// its version among them; where it is `None` no candidate is admissible.
pub open spec fn is_newest_admissible(
    cs: Seq<Candidate>,
    sought: SemanticVersion,
    selector: VersionSelector,
    pick: Option<Candidate>,
) -> bool {
    match pick {
        None => forall|j: int| 0 <= j < cs.len() ==> !admissible(#[trigger] cs[j], sought, selector),
        Some(c) => exists|i: int|
            0 <= i < cs.len() && cs[i] == c && admissible(c, sought, selector) && (forall|j: int|
                0 <= j < cs.len() && admissible(#[trigger] cs[j], sought, selector) ==> !newer(
                    candidate_version(cs[j]),
                    candidate_version(c),
                )) && (forall|j: int|
                0 <= j < i && admissible(#[trigger] cs[j], sought, selector) ==> newer(
                    candidate_version(c),
                    candidate_version(cs[j]),
                )),
    }
}

proof fn lemma_best_of_newest(cs: Seq<Candidate>, sought: SemanticVersion, selector: VersionSelector)
    ensures
        is_newest_admissible(cs, sought, selector, best_of(cs, sought, selector)),
    decreases cs.len(),
{
    if cs.len() > 0 {
        let rest = cs.drop_last();
        lemma_best_of_newest(rest, sought, selector);
        let prev = best_of(rest, sought, selector);
        let x = cs.last();
        let n = cs.len() - 1;
        assert(forall|j: int| 0 <= j < n ==> #[trigger] cs[j] == rest[j]);
        if admissible(x, sought, selector) && (prev is None || newer(
            candidate_version(x),
            candidate_version(prev.unwrap()),
        )) {
            assert forall|j: int|
                0 <= j < n && admissible(#[trigger] cs[j], sought, selector) implies newer(
                candidate_version(x),
                candidate_version(cs[j]),
            ) by {
                assert(rest[j] == cs[j]);
            }
            assert(cs[n] == x);
        } else {
            match prev {
                None => {
                    assert forall|j: int| 0 <= j < cs.len() implies !admissible(
                        #[trigger] cs[j],
                        sought,
                        selector,
                    ) by {
                        if j < n {
                            assert(rest[j] == cs[j]);
                        }
                    }
                },
                Some(c) => {
                    let i = choose|i: int|
                        0 <= i < rest.len() && rest[i] == c && admissible(c, sought, selector) && (
                        forall|j: int|
                            0 <= j < rest.len() && admissible(#[trigger] rest[j], sought, selector)
                                ==> !newer(candidate_version(rest[j]), candidate_version(c)))
                            && (forall|j: int|
                            0 <= j < i && admissible(#[trigger] rest[j], sought, selector) ==> newer(
                                candidate_version(c),
                                candidate_version(rest[j]),
                            ));
                    assert(cs[i] == c);
                    assert forall|j: int|
                        0 <= j < cs.len() && admissible(#[trigger] cs[j], sought, selector) implies !newer(
                        candidate_version(cs[j]),
                        candidate_version(c),
                    ) by {
                        if j < n {
                            assert(rest[j] == cs[j]);
                        }
                    }
                    assert forall|j: int|
                        0 <= j < i && admissible(#[trigger] cs[j], sought, selector) implies newer(
                        candidate_version(c),
                        candidate_version(cs[j]),
                    ) by {
                        assert(rest[j] == cs[j]);
                    }
                },
            }
        }
    }
}

/// Where the catalogs are well formed, resolution picks the newest version,
/// over all registries, that the selector accepts against the sought one
/// (the first met among equal versions), and nothing if none is accepted.
pub proof fn lemma_resolution_is_newest_accepted(
    name: Seq<char>,
    sought: SemanticVersion,
    selector: VersionSelector,
    cats: Seq<PackageList>,
)
    requires
        versions_parse(name, cats),
    ensures
        resolution(name, sought, selector, cats) is Ok,
        is_newest_admissible(
            catalog_candidates(name, cats),
            sought,
            selector,
            resolution(name, sought, selector, cats).unwrap(),
        ),
{
    lemma_best_of_newest(catalog_candidates(name, cats), sought, selector);
}

/// Resolution is a function of its inputs: equal requests over equal
/// catalogs resolve alike.
pub proof fn lemma_resolution_deterministic(
    name: Seq<char>,
    sought: SemanticVersion,
    selector: VersionSelector,
    cats1: Seq<PackageList>,
    cats2: Seq<PackageList>,
)
    requires
        cats1 == cats2,
    ensures
        resolution(name, sought, selector, cats1) == resolution(name, sought, selector, cats2),
{
}

/// Whether a version `version_a` satisfies a request for `version_b` under `selector`.
pub fn is_usable_for(
    version_a: &SemanticVersion,
    version_b: &SemanticVersion,
    selector: VersionSelector,
) -> (r: bool)
    ensures
        r == accepts(classify(*version_a, *version_b), selector),
{
    let compat = version_a.match_to(version_b);
    match compat {
        Compatibility::Breaking => false,
        Compatibility::Exact => true,
        Compatibility::Partial => {
            selector == VersionSelector::LargerEquals || selector == VersionSelector::Compatible
        },
        Compatibility::Compatible => selector == VersionSelector::LargerEquals,
    }
}

/// Replaces the current pick by `new_selected_version` of `package` when that
/// version is strictly newer than the current pick and still acceptable;
/// `found_version` and `current_version` are what their ids spell.
pub fn select_package(
    package: &Package,
    new_selected_version: &PackageVersion,
    found_version: SemanticVersion,
    current_version: SemanticVersion,
    sought_version: &SemanticVersion,
    found_package: Option<Candidate>,
    selector: VersionSelector,
) -> (r: Option<Candidate>)
    requires
        parse_version(new_selected_version.id@) == Some(found_version),
        found_package is Some,
        parse_version(found_package->Some_0.0.id@) == Some(current_version),
    ensures
        r == if newer(found_version, current_version) && accepts(
            classify(*sought_version, found_version),
            selector,
        ) {
            Some((*new_selected_version, package.uri))
        } else {
            found_package
        },
{
    if found_version.is_newer_than(&current_version) {
        let compat = sought_version.match_to(&found_version);
        let take = match compat {
            Compatibility::Breaking => false,
            Compatibility::Exact => true,
            Compatibility::Partial => {
                selector == VersionSelector::LargerEquals || selector
                    == VersionSelector::Compatible
            },
            Compatibility::Compatible => selector == VersionSelector::LargerEquals,
        };
        if take {
            return Some((new_selected_version.clone(), package.uri.clone()));
        }
    }
    found_package
}

/// Scans every catalog in order for `package_name` and returns the newest
/// version that `selector` accepts against `package_version`, with the source
/// of its package; a catalog entry of that name with a malformed id is an error.
#[verifier::rlimit(50)]
pub fn resolve_package(
    package_name: &String,
    package_version: SemanticVersion,
    selector: VersionSelector,
    catalogs: &Vec<PackageList>,
) -> (r: Result<Option<Candidate>, GraceError>)
    ensures
        r == resolution(package_name@, package_version, selector, catalogs@),
{
    let ghost name = package_name@;
    let mut found: Option<Candidate> = None;
    let mut i: usize = 0;
    while i < catalogs.len()
        invariant
            name == package_name@,
            0 <= i <= catalogs@.len(),
            found == best_of(catalog_candidates(name, catalogs@.take(i as int)), package_version, selector),
            forall|a: int, b: int, c: int|
                0 <= a < i && 0 <= b < catalogs@[a].packagelist@.len()
                    && catalogs@[a].packagelist@[b].name@ == name && 0 <= c
                    < catalogs@[a].packagelist@[b].versions@.len() ==> parse_version(
                    #[trigger] catalogs@[a].packagelist@[b].versions@[c].id@,
                ) is Some,
        decreases catalogs@.len() - i,
    {
        let packages = &catalogs[i].packagelist;
        let ghost pre_i = catalog_candidates(name, catalogs@.take(i as int));
        proof {
            assert(catalogs@.take(i + 1).drop_last() =~= catalogs@.take(i as int));
            assert(packages@.take(0) =~= Seq::<Package>::empty());
            assert(pre_i + list_candidates(name, packages@.take(0)) =~= pre_i);
        }
        let mut j: usize = 0;
        while j < packages.len()
            invariant
                name == package_name@,
                0 <= i < catalogs@.len(),
                packages@ == catalogs@[i as int].packagelist@,
                pre_i == catalog_candidates(name, catalogs@.take(i as int)),
                0 <= j <= packages@.len(),
                found == best_of(pre_i + list_candidates(name, packages@.take(j as int)), package_version, selector),
                forall|a: int, b: int, c: int|
                    0 <= a < i && 0 <= b < catalogs@[a].packagelist@.len()
                        && catalogs@[a].packagelist@[b].name@ == name && 0 <= c
                        < catalogs@[a].packagelist@[b].versions@.len() ==> parse_version(
                        #[trigger] catalogs@[a].packagelist@[b].versions@[c].id@,
                    ) is Some,
                forall|b: int, c: int|
                    0 <= b < j && packages@[b].name@ == name && 0 <= c
                        < packages@[b].versions@.len() ==> parse_version(
                        #[trigger] packages@[b].versions@[c].id@,
                    ) is Some,
            decreases packages@.len() - j,
        {
            let package = &packages[j];
            let ghost pre_j = pre_i + list_candidates(name, packages@.take(j as int));
            proof {
                assert(packages@.take(j + 1).drop_last() =~= packages@.take(j as int));
            }
            if package.name == *package_name {
                proof {
                    assert(package_candidates(*package).take(0) =~= Seq::<Candidate>::empty());
                    assert(pre_j + package_candidates(*package).take(0) =~= pre_j);
                }
                let mut k: usize = 0;
                while k < package.versions.len()
                    invariant
                        name == package_name@,
                        0 <= i < catalogs@.len(),
                        packages@ == catalogs@[i as int].packagelist@,
                        0 <= j < packages@.len(),
                        *package == packages@[j as int],
                        package.name@ == name,
                        0 <= k <= package.versions@.len(),
                        found == best_of(pre_j + package_candidates(*package).take(k as int), package_version, selector),
                        forall|c: int|
                            0 <= c < k ==> parse_version(#[trigger] package.versions@[c].id@) is Some,
                    decreases package.versions@.len() - k,
                {
                    let version = &package.versions[k];
                    let v = match version.as_semver() {
                        Ok(v) => v,
                        Err(_) => {
                            proof {
                                assert(catalogs@[i as int].packagelist@[j as int].versions@[k as int].id@
                                    == version.id@);
                            }
                            return Err(GraceError::CatalogCorrupt);
                        },
                    };
                    let ghost x = package_candidates(*package)[k as int];
                    let ghost prefix = pre_j + package_candidates(*package).take(k as int);
                    proof {
                        assert(x == (*version, package.uri));
                        assert(prefix.push(x) =~= pre_j + package_candidates(*package).take(k + 1));
                        assert(prefix.push(x).drop_last() =~= prefix);
                        lemma_classify_symmetric(v, package_version);
                        lemma_best_of_admissible(prefix, package_version, selector);
                    }
                    let next = match found {
                        None => {
                            if is_usable_for(&v, &package_version, selector) {
                                Some((version.clone(), package.uri.clone()))
                            } else {
                                None
                            }
                        },
                        Some(p) => {
                            let current = match p.0.as_semver() {
                                Ok(c) => c,
                                Err(_) => {
                                    return Err(GraceError::CatalogCorrupt);
                                },
                            };
                            select_package(
                                package,
                                version,
                                v,
                                current,
                                &package_version,
                                Some(p),
                                selector,
                            )
                        },
                    };
                    found = next;
                    k = k + 1;
                }
                proof {
                    assert(package_candidates(*package).take(package.versions@.len() as int)
                        =~= package_candidates(*package));
                    assert(pre_j + package_candidates(*package) =~= pre_i + list_candidates(
                        name,
                        packages@.take(j + 1),
                    ));
                }
            }
            j = j + 1;
        }
        proof {
            assert(packages@.take(packages@.len() as int) =~= packages@);
        }
        i = i + 1;
    }
    proof {
        assert(catalogs@.take(catalogs@.len() as int) =~= catalogs@);
    }
    Ok(found)
}

} // verus!
