use grace::error::GraceError;
use grace::package::{Package, PackageDependency, PackageList, PackageVersion, VersionSelector};
use grace::resolve::{is_usable_for, resolve_package, select_package};
use grace::semver::SemanticVersion;

fn version(id: &str, hash: &str) -> PackageVersion {
    PackageVersion { id: id.to_string(), commit_hash: hash.to_string() }
}

fn package(name: &str, uri: &str, ids: &[(&str, &str)]) -> Package {
    Package {
        name: name.to_string(),
        uri: uri.to_string(),
        versions: ids.iter().map(|(i, h)| version(i, h)).collect(),
    }
}

fn foo_catalog() -> Vec<PackageList> {
    vec![PackageList {
        packagelist: vec![package(
            "foo",
            "https://example.org/foo.git",
            &[("1.1.0", "c110"), ("1.0.0", "c100"), ("2.0.0", "c200"), ("1.0.4", "c104")],
        )],
    }]
}

fn resolve(sought: &str, selector: VersionSelector) -> Option<(PackageVersion, String)> {
    let v = SemanticVersion::from_string(sought.to_string()).unwrap();
    resolve_package(&"foo".to_string(), v, selector, &foo_catalog()).unwrap()
}

#[test]
fn strict_equals_takes_only_the_exact_version() {
    let (v, uri) = resolve("1.0.0", VersionSelector::StrictEquals).unwrap();
    assert_eq!(v.id, "1.0.0");
    assert_eq!(v.commit_hash, "c100");
    assert_eq!(uri, "https://example.org/foo.git");
}

#[test]
fn compatible_takes_the_newest_patch() {
    let (v, _) = resolve("1.0.0", VersionSelector::Compatible).unwrap();
    assert_eq!(v.id, "1.0.4");
    assert_eq!(v.commit_hash, "c104");
}

#[test]
fn larger_equals_stays_on_the_major_line() {
    let (v, _) = resolve("1.0.0", VersionSelector::LargerEquals).unwrap();
    assert_eq!(v.id, "1.1.0");
    assert_eq!(v.commit_hash, "c110");
}

#[test]
fn unknown_package_resolves_to_nothing() {
    let v = SemanticVersion::new(1, 0, 0);
    let r = resolve_package(&"bar".to_string(), v, VersionSelector::LargerEquals, &foo_catalog());
    assert!(matches!(r, Ok(None)));
}

#[test]
fn no_accepted_version_resolves_to_nothing() {
    assert!(resolve("3.0.0", VersionSelector::LargerEquals).is_none());
    assert!(resolve("1.0.2", VersionSelector::StrictEquals).is_none());
}

#[test]
fn empty_catalog_list_resolves_to_nothing() {
    let v = SemanticVersion::new(1, 0, 0);
    let r = resolve_package(&"foo".to_string(), v, VersionSelector::LargerEquals, &vec![]);
    assert!(matches!(r, Ok(None)));
}

#[test]
fn newest_wins_across_registries_and_first_wins_ties() {
    let catalogs = vec![
        PackageList { packagelist: vec![package("foo", "first", &[("1.2.0", "a")])] },
        PackageList { packagelist: vec![] },
        PackageList {
            packagelist: vec![
                package("other", "x", &[("1.9.0", "x")]),
                package("foo", "second", &[("1.2.0", "b"), ("1.3.1", "c")]),
            ],
        },
        PackageList { packagelist: vec![package("foo", "third", &[("1.3.1", "d")])] },
    ];
    let v = SemanticVersion::new(1, 0, 0);
    let (pv, uri) =
        resolve_package(&"foo".to_string(), v, VersionSelector::LargerEquals, &catalogs)
            .unwrap()
            .unwrap();
    assert_eq!(pv.id, "1.3.1");
    assert_eq!(pv.commit_hash, "c");
    assert_eq!(uri, "second");

    let (pv, uri) =
        resolve_package(&"foo".to_string(), SemanticVersion::new(1, 2, 0), VersionSelector::StrictEquals, &catalogs)
            .unwrap()
            .unwrap();
    assert_eq!(pv.commit_hash, "a");
    assert_eq!(uri, "first");
}

#[test]
fn repeated_resolution_gives_the_same_answer() {
    let first = resolve("1.0.0", VersionSelector::LargerEquals).unwrap();
    let second = resolve("1.0.0", VersionSelector::LargerEquals).unwrap();
    assert_eq!(first.0.id, second.0.id);
    assert_eq!(first.0.commit_hash, second.0.commit_hash);
    assert_eq!(first.1, second.1);
}

#[test]
fn malformed_id_of_the_sought_package_is_an_error() {
    let catalogs = vec![PackageList {
        packagelist: vec![package("foo", "u", &[("1.0.0", "a"), ("1.x.0", "b")])],
    }];
    let r = resolve_package(
        &"foo".to_string(),
        SemanticVersion::new(1, 0, 0),
        VersionSelector::StrictEquals,
        &catalogs,
    );
    assert!(matches!(r, Err(GraceError::CatalogCorrupt)));
}

#[test]
fn malformed_id_of_another_package_is_ignored() {
    let catalogs = vec![PackageList {
        packagelist: vec![
            package("bar", "u", &[("bad", "a")]),
            package("foo", "v", &[("1.0.0", "b")]),
        ],
    }];
    let r = resolve_package(
        &"foo".to_string(),
        SemanticVersion::new(1, 0, 0),
        VersionSelector::StrictEquals,
        &catalogs,
    );
    assert_eq!(r.unwrap().unwrap().0.commit_hash, "b");
}

#[test]
fn acceptance_table() {
    let sought = SemanticVersion::new(1, 1, 1);
    let breaking = SemanticVersion::new(2, 1, 1);
    let exact = SemanticVersion::new(1, 1, 1);
    let partial = SemanticVersion::new(1, 1, 0);
    let compatible = SemanticVersion::new(1, 0, 1);
    let strict = VersionSelector::StrictEquals;
    let minor = VersionSelector::Compatible;
    let larger = VersionSelector::LargerEquals;
    let expect = [
        (breaking, [false, false, false]),
        (exact, [true, true, true]),
        (partial, [false, true, true]),
        (compatible, [false, false, true]),
    ];
    for (v, row) in expect.iter() {
        assert_eq!(is_usable_for(v, &sought, strict), row[0]);
        assert_eq!(is_usable_for(v, &sought, minor), row[1]);
        assert_eq!(is_usable_for(v, &sought, larger), row[2]);
    }
}

#[test]
fn select_package_replaces_only_by_newer_accepted() {
    let p = package("foo", "u", &[]);
    let newer = version("1.2.0", "n");
    let current = Some((version("1.1.0", "c"), "u".to_string()));
    let sought = SemanticVersion::new(1, 0, 0);
    let r = select_package(
        &p,
        &newer,
        SemanticVersion::new(1, 2, 0),
        SemanticVersion::new(1, 1, 0),
        &sought,
        current,
        VersionSelector::LargerEquals,
    );
    assert_eq!(r.unwrap().0.commit_hash, "n");

    let current = Some((version("1.1.0", "c"), "u".to_string()));
    let r = select_package(
        &p,
        &newer,
        SemanticVersion::new(1, 2, 0),
        SemanticVersion::new(1, 1, 0),
        &sought,
        current,
        VersionSelector::Compatible,
    );
    assert_eq!(r.unwrap().0.commit_hash, "c");

    let current = Some((version("1.1.0", "c"), "u".to_string()));
    let r = select_package(
        &p,
        &version("1.0.5", "o"),
        SemanticVersion::new(1, 0, 5),
        SemanticVersion::new(1, 1, 0),
        &sought,
        current,
        VersionSelector::LargerEquals,
    );
    assert_eq!(r.unwrap().0.commit_hash, "c");
}

#[test]
fn package_version_reads_its_id() {
    assert_eq!(version("3.2.1", "h").as_semver().unwrap(), SemanticVersion::new(3, 2, 1));
    assert!(matches!(version("3.2", "h").as_semver(), Err(GraceError::MalformedVersion)));
}

#[test]
fn unavailable_package_leaves_the_lock_alone() {
    let mut lock = vec![PackageDependency {
        name: "baz".to_string(),
        version: "0.1.0".to_string(),
        uri: "z".to_string(),
        commit_hash: "h".to_string(),
    }];
    let r = PackageDependency::add_package(
        &mut lock,
        &"bar".to_string(),
        VersionSelector::StrictEquals,
        SemanticVersion::new(1, 0, 0),
        &foo_catalog(),
    );
    match r {
        Err(GraceError::PackageUnavailable { name, version }) => {
            assert_eq!(name, "bar");
            assert_eq!(version, SemanticVersion::new(1, 0, 0));
        }
        _ => panic!("expected PackageUnavailable"),
    }
    assert_eq!(lock.len(), 1);
    assert_eq!(lock[0].name, "baz");
}
