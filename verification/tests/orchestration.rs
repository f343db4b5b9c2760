use yac::dynamic::Build;
use yac::orchestrator::{
    aggregate_results, compile_args, compiling_message, dep_include_paths, first_failure,
    has_c_extension, include_flags_for, lib_globs, link_args, lock_is_stale, make_include_flags,
    plan_target_tasks, sanitize_artifact_name, warning_flags, with_exe, BuildCfg, TaskResult,
};
use yac::yac_toml::{
    Dependency, Location, Package, PackageType, Target, Type, YacLock, YacLockLinearizeError,
    YacToml,
};

const WARNINGS: [&str; 6] = [
    "-Wall",
    "-Wextra",
    "-Wdouble-promotion",
    "-Wformat-overflow=2",
    "-Wformat-nonliteral",
    "-Wformat-security",
];

fn manifest(name: &str, deps: Vec<(&str, Location)>) -> YacToml {
    YacToml {
        package: Package {
            name: name.to_string(),
            version: String::from("0.1.0"),
            ty: PackageType::Executable,
        },
        dependencies: deps
            .into_iter()
            .map(|(dep_name, location)| {
                (
                    dep_name.to_string(),
                    Dependency { version: String::from("0.1.0"), location, ty: Type::Yac },
                )
            })
            .collect(),
    }
}

#[test]
fn warning_flags_are_fixed() {
    assert_eq!(warning_flags(), WARNINGS.map(String::from).to_vec());
}

#[test]
fn artifact_names_flatten_separators_and_dots() {
    assert_eq!(sanitize_artifact_name("deps/src/main.c"), "deps_src_main_c");
    assert_eq!(sanitize_artifact_name("a\\b.c"), "a_b_c");
}

#[test]
fn compile_args_are_exact() {
    let args = compile_args(&"src/main.c".to_string(), &"out/dep".to_string(), false);
    let mut expected: Vec<String> = WARNINGS.map(String::from).to_vec();
    expected.extend(
        ["-c", "src/main.c", "-g", "-o", "out/dep/src_main_c.o"].map(String::from),
    );
    assert_eq!(args, expected);
}

#[test]
fn planning_filters_to_c_sources() {
    assert!(has_c_extension("src/a.c"));
    assert!(!has_c_extension("src/a.h"));
    assert!(!has_c_extension("src/.c"));
    assert!(!has_c_extension("README"));
    let files = vec![
        "src/a.c".to_string(),
        "src/a.h".to_string(),
        "notes".to_string(),
        "src/sub/b.c".to_string(),
    ];
    let tasks = plan_target_tasks(&files, &"out/dep".to_string(), true);
    assert_eq!(tasks.len(), 2);
    assert_eq!(tasks[0].artifacts_dir, "out/dep");
    assert_eq!(tasks[0].args[6], "-c");
    assert_eq!(tasks[0].args[7], "src/a.c");
    assert_eq!(tasks[0].args[8], "-O3");
    assert_eq!(tasks[1].args[7], "src/sub/b.c");
    assert_eq!(tasks[1].args[10], "out/dep/src_sub_b_c.o");
}

#[test]
fn one_failure_rolls_back_only_its_own_target() {
    let results = vec![
        TaskResult {
            artifacts_dir: "out/one".to_string(),
            exit_code: 0,
            stderr: b"first ".to_vec(),
        },
        TaskResult {
            artifacts_dir: "out/two".to_string(),
            exit_code: 1,
            stderr: b"second ".to_vec(),
        },
        TaskResult {
            artifacts_dir: "out/three".to_string(),
            exit_code: 0,
            stderr: b"third".to_vec(),
        },
    ];
    let (output, to_remove) = aggregate_results(&results);
    // Diagnostics of all three tasks are aggregated, in order.
    assert_eq!(output.stderr, b"first second third".to_vec());
    assert_eq!(output.exit_codes, vec![0, 1, 0]);
    // Only the failing target's directory is rolled back.
    assert_eq!(to_remove, vec!["out/two".to_string()]);
    assert_eq!(first_failure(&output.exit_codes), Some(1));
}

#[test]
fn repeated_failures_name_a_directory_once() {
    let results = vec![
        TaskResult { artifacts_dir: "out/dep".to_string(), exit_code: 2, stderr: vec![] },
        TaskResult { artifacts_dir: "out/dep".to_string(), exit_code: 3, stderr: vec![] },
    ];
    let (output, to_remove) = aggregate_results(&results);
    assert_eq!(to_remove, vec!["out/dep".to_string()]);
    assert_eq!(first_failure(&output.exit_codes), Some(2));
}

#[test]
fn all_successes_remove_nothing() {
    let results = vec![
        TaskResult { artifacts_dir: "out/a".to_string(), exit_code: 0, stderr: vec![] },
        TaskResult { artifacts_dir: "out/b".to_string(), exit_code: 0, stderr: vec![] },
    ];
    let (output, to_remove) = aggregate_results(&results);
    assert!(to_remove.is_empty());
    assert_eq!(first_failure(&output.exit_codes), None);
}

#[test]
fn binary_extension_is_substituted() {
    assert_eq!(with_exe("target/debug/app"), "target/debug/app.exe");
    assert_eq!(with_exe("target/debug/app.bin"), "target/debug/app.exe");
    assert_eq!(with_exe("dir.d/app"), "dir.d/app.exe");
    assert_eq!(with_exe("dir/.hidden"), "dir/.hidden.exe");
}

#[test]
fn link_args_are_exact() {
    let include_flags = vec!["-I/abs/dep/include".to_string()];
    let libs = vec!["target/debug/app/dep/*.o".to_string()];
    let args = link_args(&include_flags, &libs, true, &"target/debug/app".to_string());
    let mut expected: Vec<String> = WARNINGS.map(String::from).to_vec();
    expected.extend(
        [
            "src/*.c",
            "-I/abs/dep/include",
            "target/debug/app/dep/*.o",
            "-O3",
            "-o",
            "target/debug/app.exe",
        ]
        .map(String::from),
    );
    assert_eq!(args, expected);
}

#[test]
fn lib_globs_follow_the_lock_order() {
    let lock = YacLock {
        package: vec![
            Target {
                yac_toml: manifest("dep1", vec![]),
                description: Dependency {
                    version: "0.1.0".to_string(),
                    location: Location::Path { path: "dep1".to_string() },
                    ty: Type::Yac,
                },
            },
            Target {
                yac_toml: manifest("dep2", vec![]),
                description: Dependency {
                    version: "0.1.0".to_string(),
                    location: Location::Path { path: "dep2".to_string() },
                    ty: Type::Yac,
                },
            },
        ],
    };
    let globs = lib_globs(&lock, &"target/debug/app".to_string());
    assert_eq!(
        globs,
        vec!["target/debug/app/dep1/*.o".to_string(), "target/debug/app/dep2/*.o".to_string()],
    );
}

#[test]
fn include_paths_follow_declared_dependencies() {
    let root = manifest(
        "root",
        vec![("dep", Location::Path { path: "../dep".to_string() })],
    );
    let paths = dep_include_paths(&root).unwrap();
    assert_eq!(paths, vec!["../dep/include".to_string()]);
    let flags = make_include_flags(&paths);
    assert_eq!(flags, vec!["-I../dep/include".to_string()]);
}

#[test]
fn include_flags_reject_link_dependencies() {
    let root = manifest(
        "root",
        vec![("linked", Location::Link { link: "registry://x".to_string() })],
    );
    match include_flags_for(&root) {
        Err(YacLockLinearizeError::UnsupportedLocation { dependency }) => {
            assert_eq!(dependency, "linked");
        },
        other => panic!("expected an unsupported location error, got {other:?}"),
    }
}

#[test]
fn include_flags_are_absolute_and_prefixed() {
    let root = manifest(
        "root",
        vec![("dep", Location::Path { path: "../dep".to_string() })],
    );
    let flags = include_flags_for(&root).unwrap();
    assert_eq!(flags.len(), 1);
    assert!(flags[0].starts_with("-I"));
    assert!(flags[0].ends_with("include"));
    // The wrapper resolved the relative path against the working directory.
    assert_ne!(flags[0], "-I../dep/include");
}

#[test]
fn lock_staleness_follows_presence_and_manifest() {
    assert!(lock_is_stale(false, false));
    assert!(lock_is_stale(false, true));
    assert!(lock_is_stale(true, true));
    assert!(!lock_is_stale(true, false));
}

#[test]
fn build_cfg_takes_the_descriptor_name() {
    let build = Build {
        executable_name: "custom".to_string(),
        src_files: vec![],
        link_directories: vec![],
        enabled_flags: vec![],
    };
    let cfg = BuildCfg::from_dynamic(&build, true);
    assert_eq!(cfg.target, "target");
    assert_eq!(cfg.executable_name, "custom");
    assert!(cfg.release);
    let root = manifest("root", vec![]);
    let plain = BuildCfg::without_script(&root, false);
    assert_eq!(plain.executable_name, "root");
    assert!(!plain.release);
}

#[test]
fn compiling_messages_mention_the_location_when_shown() {
    let with_path = compiling_message(
        &"pkg".to_string(),
        &"0.1.0".to_string(),
        Some(&"/home/projects/pkg".to_string()),
    );
    assert_eq!(with_path, "pkg v0.1.0 (/home/projects/pkg)");
    let without = compiling_message(&"pkg".to_string(), &"0.1.0".to_string(), None);
    assert_eq!(without, "pkg v0.1.0");
}
