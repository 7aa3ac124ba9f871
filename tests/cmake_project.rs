use cmk::project::{
    first_line, is_target_reply, parse_translation_units, picker_height, select_executables,
};
use cmk::{Target, TargetArtifact};

fn target(name: &str, kind: &str, artifacts: Option<Vec<&str>>) -> Target {
    Target {
        name: name.to_string(),
        target_type: kind.to_string(),
        artifacts: artifacts
            .map(|a| a.into_iter().map(|p| TargetArtifact { path: p.to_string() }).collect()),
    }
}

#[test]
fn executable_type_is_recognised() {
    assert!(target("app", "EXECUTABLE", None).is_executable());
    assert!(!target("lib", "STATIC_LIBRARY", None).is_executable());
    assert!(!target("app", "executable", None).is_executable());
}

#[test]
fn only_executables_with_artifacts_are_runnable() {
    let all = vec![
        target("a", "EXECUTABLE", Some(vec!["bin/a"])),
        target("b", "STATIC_LIBRARY", Some(vec!["libb.a"])),
        target("c", "EXECUTABLE", None),
        target("d", "EXECUTABLE", Some(vec!["bin/d"])),
    ];
    let names: Vec<String> = select_executables(all).into_iter().map(|t| t.name).collect();
    assert_eq!(names, vec!["a".to_string(), "d".to_string()]);
}

#[test]
fn target_reply_files_are_recognised() {
    assert!(is_target_reply("target-app-Debug-1234.json"));
    assert!(is_target_reply("target-"));
    assert!(!is_target_reply("codemodel-v2-1234.json"));
    assert!(!is_target_reply("target"));
}

#[test]
fn picker_height_is_capped() {
    assert_eq!(picker_height(0), 2);
    assert_eq!(picker_height(3), 5);
    assert_eq!(picker_height(10), 12);
    assert_eq!(picker_height(50), 12);
}

#[test]
fn translation_units_come_from_object_lines() {
    let output = "src/main.cc.o: CXX_COMPILER__app_Debug\napp: CXX_EXECUTABLE_LINKER__app_Debug\nall: phony\nlib/a.cc.o: CXX_COMPILER__a_Debug\n";
    assert_eq!(
        parse_translation_units(output),
        vec!["src/main.cc.o".to_string(), "lib/a.cc.o".to_string()]
    );
    assert_eq!(parse_translation_units(""), Vec::<String>::new());
}

#[test]
fn first_line_stops_at_newline() {
    assert_eq!(first_line("/home/u/proj\n"), "/home/u/proj");
    assert_eq!(first_line("/a\n/b\n"), "/a");
    assert_eq!(first_line("no newline"), "no newline");
}
