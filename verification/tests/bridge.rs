use yac::dynamic::{
    compile_script_decision, marshal_c_str, Build, RawBuild, ScriptCompileAction,
};

#[test]
fn null_string_marshals_to_empty() {
    assert_eq!(marshal_c_str(None), "");
    assert_eq!(marshal_c_str(Some("keep".to_string())), "keep");
}

#[test]
fn null_descriptor_fields_marshal_to_empty_strings() {
    let raw = RawBuild {
        executable_name: None,
        src_files: vec![None, Some("extra.c".to_string())],
        link_directories: vec![None],
        enables_flags: vec![Some("fast".to_string()), None],
    };
    let build = Build::from_raw(&raw);
    assert_eq!(build.executable_name, "");
    assert_eq!(build.src_files, vec!["".to_string(), "extra.c".to_string()]);
    assert_eq!(build.link_directories, vec!["".to_string()]);
    assert_eq!(build.enabled_flags, vec!["fast".to_string(), "".to_string()]);
}

#[test]
fn finishing_appends_the_default_pattern() {
    let build = Build {
        executable_name: String::new(),
        src_files: vec!["extra.c".to_string()],
        link_directories: vec![],
        enabled_flags: vec![],
    };
    let finished = build.finish(&"pkg".to_string());
    assert_eq!(finished.executable_name, "pkg");
    assert_eq!(finished.src_files, vec!["extra.c".to_string(), "src/*.c".to_string()]);
}

#[test]
fn finishing_keeps_an_explicit_default_pattern_once() {
    let build = Build {
        executable_name: "custom".to_string(),
        src_files: vec!["src/*.c".to_string()],
        link_directories: vec![],
        enabled_flags: vec![],
    };
    let finished = build.finish(&"pkg".to_string());
    assert_eq!(finished.executable_name, "custom");
    assert_eq!(finished.src_files, vec!["src/*.c".to_string()]);
}

#[test]
fn synthesized_descriptor_has_the_convention_alone() {
    let build = Build::synthesized_default(&"pkg".to_string());
    assert_eq!(build.executable_name, "pkg");
    assert_eq!(build.src_files, vec!["src/*.c".to_string()]);
    assert!(build.link_directories.is_empty());
    assert!(build.enabled_flags.is_empty());
}

#[test]
fn script_decision_covers_the_three_states() {
    assert_eq!(compile_script_decision(false, true), ScriptCompileAction::NoScript);
    assert_eq!(compile_script_decision(true, false), ScriptCompileAction::Reuse);
    assert_eq!(compile_script_decision(true, true), ScriptCompileAction::Compile);
}
