use yac::yac_toml::{
    Dependency, Location, ManifestStore, Package, PackageType, Target, Type, YacLock,
    YacLockLinearizeError, YacToml,
};

fn manifest(name: &str, deps: Vec<(&str, &str)>) -> YacToml {
    YacToml {
        package: Package {
            name: name.to_string(),
            version: String::from("0.1.0"),
            ty: PackageType::Executable,
        },
        dependencies: deps
            .into_iter()
            .map(|(dep_name, path)| {
                (
                    dep_name.to_string(),
                    Dependency {
                        version: String::from("0.1.0"),
                        location: Location::Path { path: path.to_string() },
                        ty: Type::Yac,
                    },
                )
            })
            .collect(),
    }
}

fn names(lock: &YacLock) -> Vec<String> {
    lock.package.iter().map(|t| t.yac_toml.package.name.clone()).collect()
}

fn description_path(target: &Target) -> String {
    match &target.description.location {
        Location::Path { path } => path.clone(),
        Location::Link { link } => panic!("unexpected link location {link}"),
    }
}

#[test]
fn no_dependencies_resolves_empty() {
    let root = manifest("root", vec![]);
    let store = ManifestStore::new();
    let lock = YacLock::linearize_from(&root, "./", &store).unwrap();
    assert_eq!(lock.package.len(), 0);
}

#[test]
fn diamond_resolves_shared_dependency_once_and_first() {
    let root = manifest("root", vec![("a", "a"), ("b", "b")]);
    let mut store = ManifestStore::new();
    store.add("./a".to_string(), manifest("a", vec![("c", "../c")]));
    store.add("./b".to_string(), manifest("b", vec![("c", "../c")]));
    store.add("./a/../c".to_string(), manifest("c", vec![]));
    store.add("./b/../c".to_string(), manifest("c", vec![]));

    let lock = YacLock::linearize_from(&root, "./", &store).unwrap();

    // C is resolved exactly once, and precedes both A and B.
    assert_eq!(names(&lock), vec!["c", "a", "b"]);
    // The root itself is not a member, and locations are normalized.
    assert_eq!(description_path(&lock.package[0]), "c");
    assert_eq!(description_path(&lock.package[1]), "a");
    assert_eq!(description_path(&lock.package[2]), "b");
    for target in &lock.package {
        assert_eq!(target.description.ty, Type::Yac);
        assert_eq!(target.description.version, target.yac_toml.package.version);
    }
}

#[test]
fn resolving_twice_yields_identical_locks() {
    let root = manifest("root", vec![("a", "a"), ("b", "b")]);
    let mut store = ManifestStore::new();
    store.add("./a".to_string(), manifest("a", vec![("c", "../c")]));
    store.add("./b".to_string(), manifest("b", vec![("c", "../c")]));
    store.add("./a/../c".to_string(), manifest("c", vec![]));
    store.add("./b/../c".to_string(), manifest("c", vec![]));

    let first = YacLock::linearize_from(&root, "./", &store).unwrap();
    let second = YacLock::linearize_from(&root, "./", &store).unwrap();
    assert_eq!(first, second);
}

#[test]
fn cycle_terminates_without_reaching_the_limit() {
    // a -> b -> a: the second encounter of `a` is skipped by name, so the
    // traversal terminates far below the recursion limit.
    let root = manifest("a", vec![("b", "b")]);
    let mut store = ManifestStore::new();
    store.add("./b".to_string(), manifest("b", vec![("a", "..")]));
    store.add("./b/..".to_string(), manifest("a", vec![("b", "b")]));

    let lock = YacLock::linearize_from(&root, "./", &store).unwrap();
    assert_eq!(names(&lock), vec!["b"]);
}

#[test]
fn pathological_depth_reaches_the_recursion_limit() {
    let mut store = ManifestStore::new();
    let mut location = String::from("./");
    for i in 0..300usize {
        location = format!("{}/x", location.trim_end_matches('/'));
        let child = if i == 299 {
            manifest(&format!("pkg{}", i), vec![])
        } else {
            manifest(&format!("pkg{}", i), vec![(&format!("pkg{}", i + 1), "x")])
        };
        store.add(location.clone(), child);
    }
    let root = manifest("root", vec![("pkg0", "x")]);
    let result = YacLock::linearize_from(&root, "./", &store);
    assert!(matches!(result, Err(YacLockLinearizeError::RecursionLimit)));
}

#[test]
fn missing_manifest_is_reported_with_its_location() {
    let root = manifest("root", vec![("ghost", "ghost")]);
    let store = ManifestStore::new();
    let result = YacLock::linearize_from(&root, "./", &store);
    match result {
        Err(YacLockLinearizeError::MissingManifest { location }) => {
            assert_eq!(location, "./ghost");
        },
        other => panic!("expected a missing manifest error, got {other:?}"),
    }
}

#[test]
fn link_dependency_fails_loudly() {
    let mut root = manifest("root", vec![]);
    root.dependencies.push((
        "linked".to_string(),
        Dependency {
            version: String::from("1.0"),
            location: Location::Link { link: "registry://linked".to_string() },
            ty: Type::Yac,
        },
    ));
    let store = ManifestStore::new();
    let result = YacLock::linearize_from(&root, "./", &store);
    match result {
        Err(YacLockLinearizeError::UnsupportedLocation { dependency }) => {
            assert_eq!(dependency, "linked");
        },
        other => panic!("expected an unsupported location error, got {other:?}"),
    }
}

#[test]
fn store_lookup_finds_first_entry() {
    let mut store = ManifestStore::new();
    store.add("./a".to_string(), manifest("one", vec![]));
    store.add("./a".to_string(), manifest("two", vec![]));
    let found = store.lookup(&"./a".to_string()).unwrap();
    assert_eq!(found.package.name, "one");
    assert!(store.lookup(&"./b".to_string()).is_none());
}
