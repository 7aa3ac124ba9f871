use cmk::{ConfigError, EnvConfig, EnvValue, NameMap, Platform, RawEntry, VarTable};

fn table(pairs: &[(&str, &str)]) -> VarTable {
    let mut t = NameMap::new();
    for (k, v) in pairs {
        t.insert(k.to_string(), v.to_string());
    }
    t
}

fn lookup<'a>(t: &'a VarTable, k: &str) -> Option<&'a str> {
    t.get(k).map(|s| s.as_str())
}

#[test]
fn test_parse_simple_config() {
    let content = r#"
[vars]
DEPS_DIR = "${PROJECT_ROOT}/.deps"
DEPS_INSTALL = "${DEPS_DIR}/install"

[env]
CC = "clang"
PATH = { prepend = ["${DEPS_INSTALL}/bin"] }

[env.build]
CXX = "clang++"

[env.run]
LD_LIBRARY_PATH = { prepend = ["${DEPS_INSTALL}/lib"] }

[env.run.my_target]
MY_VAR = "test_value"

[env.linux]
LD_LIBRARY_PATH = { prepend = ["${DEPS_INSTALL}/lib", "${DEPS_INSTALL}/lib64"] }
"#;

    let project_root = "/test/project";
    let config = EnvConfig::parse(content, project_root).unwrap();

    assert_eq!(config.vars.get("DEPS_DIR").unwrap(), "${PROJECT_ROOT}/.deps");
    assert!(config.common.contains_key("CC"));
    assert!(config.common.contains_key("PATH"));
    assert!(config.build.contains_key("CXX"));
    assert!(config.run.contains_key("LD_LIBRARY_PATH"));
    assert!(config.run_targets.contains_key("my_target"));
    assert!(config.linux.contains_key("LD_LIBRARY_PATH"));
}

#[test]
fn test_expand_vars() {
    let mut config = EnvConfig::load(None, "").unwrap();
    config.vars.insert("PROJECT_ROOT".to_string(), "/test".to_string());
    config.vars.insert("DEPS_DIR".to_string(), "${PROJECT_ROOT}/.deps".to_string());

    // First level expansion
    let result = config.expand_vars("${PROJECT_ROOT}/bin", None).unwrap();
    assert_eq!(result, "/test/bin");

    // Test PROJECT_BUILD_ROOT expansion
    let build_dir = "/test/build";
    let result = config.expand_vars("${PROJECT_BUILD_ROOT}/lib", Some(build_dir)).unwrap();
    assert_eq!(result, "/test/build/lib");
}

#[test]
fn test_env_value_resolve() {
    let prepend = EnvValue::Prepend(vec!["/new/path".to_string()]);
    assert_eq!(prepend.resolve(Some("/existing")), "/new/path:/existing");
    assert_eq!(prepend.resolve(None), "/new/path");

    let append = EnvValue::Append(vec!["/new/path".to_string()]);
    assert_eq!(append.resolve(Some("/existing")), "/existing:/new/path");

    let set = EnvValue::Assign("value".to_string());
    assert_eq!(set.resolve(Some("/existing")), "value");
}

#[test]
fn assign_ignores_existing_value() {
    let set = EnvValue::Assign("v".to_string());
    assert_eq!(set.resolve(None), "v");
    assert_eq!(set.resolve(Some("")), "v");
    assert_eq!(set.resolve(Some("old")), "v");
}

#[test]
fn prepend_joins_several_paths() {
    let p = EnvValue::Prepend(vec!["/a".to_string(), "/b".to_string(), "/c".to_string()]);
    assert_eq!(p.resolve(Some("/e")), "/a:/b:/c:/e");
    assert_eq!(p.resolve(None), "/a:/b:/c");
}

#[test]
fn append_is_prepend_with_operands_swapped() {
    let a = EnvValue::Append(vec!["/a".to_string(), "/b".to_string()]);
    assert_eq!(a.resolve(Some("/e")), "/e:/a:/b");
    assert_eq!(a.resolve(None), "/a:/b");
}

#[test]
fn empty_existing_value_adds_no_separator() {
    let p = EnvValue::Prepend(vec!["/a".to_string()]);
    assert_eq!(p.resolve(Some("")), "/a");
    let a = EnvValue::Append(vec!["/a".to_string()]);
    assert_eq!(a.resolve(Some("")), "/a");
}

#[test]
fn project_root_overrides_declared_variable() {
    let content = "[vars]\nPROJECT_ROOT = \"/elsewhere\"\nOTHER = \"x\"\n";
    let config = EnvConfig::parse(content, "/real/root").unwrap();
    assert_eq!(config.vars.get("PROJECT_ROOT").unwrap(), "/real/root");
    assert_eq!(config.vars.get("OTHER").unwrap(), "x");
}

#[test]
fn absent_file_still_binds_project_root() {
    let config = EnvConfig::load(None, "/p").unwrap();
    assert_eq!(config.vars.get("PROJECT_ROOT").unwrap(), "/p");
    assert_eq!(config.common.len(), 0);
}

#[test]
fn repeated_placeholder_expands_everywhere() {
    let mut config = EnvConfig::load(None, "/p").unwrap();
    config.vars.insert("A".to_string(), "1".to_string());
    assert_eq!(config.expand_vars("${A}${A}", None).unwrap(), "11");
}

#[test]
fn nested_variables_expand_transitively() {
    let mut config = EnvConfig::load(None, "/p").unwrap();
    config.vars.insert("A".to_string(), "x".to_string());
    config.vars.insert("B".to_string(), "${A}y".to_string());
    assert_eq!(config.expand_vars("${B}", None).unwrap(), "xy");
}

#[test]
fn nested_variables_expand_in_either_order() {
    let mut config = EnvConfig::load(None, "/p").unwrap();
    config.vars.insert("B".to_string(), "${A}y".to_string());
    config.vars.insert("A".to_string(), "x".to_string());
    assert_eq!(config.expand_vars("${B}", None).unwrap(), "xy");
}

#[test]
fn unknown_placeholder_is_left_verbatim() {
    let config = EnvConfig::load(None, "/p").unwrap();
    assert_eq!(config.expand_vars("${HOME}/x", None).unwrap(), "${HOME}/x");
    assert_eq!(config.expand_vars("${PROJECT_BUILD_ROOT}/x", None).unwrap(), "${PROJECT_BUILD_ROOT}/x");
}

#[test]
fn self_reference_is_an_expansion_cycle() {
    let mut config = EnvConfig::load(None, "/p").unwrap();
    config.vars.insert("A".to_string(), "a${A}".to_string());
    assert_eq!(config.expand_vars("${A}", None), Err(ConfigError::ExpansionCycle));
    assert_eq!(config.expand_vars("plain", None).unwrap(), "plain");
}

#[test]
fn mutual_reference_is_an_expansion_cycle() {
    let mut config = EnvConfig::load(None, "/p").unwrap();
    config.vars.insert("A".to_string(), "${B}".to_string());
    config.vars.insert("B".to_string(), "${A}".to_string());
    assert_eq!(config.expand_vars("${A}", None), Err(ConfigError::ExpansionCycle));
}

#[test]
fn cycle_in_an_entry_fails_resolution() {
    let content = "[vars]\nA = \"${A}\"\n[env]\nX = \"${A}\"\n";
    let config = EnvConfig::parse(content, "/p").unwrap();
    let ambient = table(&[]);
    assert_eq!(
        config.build_env(Platform::Linux, None, &ambient).unwrap_err(),
        ConfigError::ExpansionCycle
    );
}

#[test]
fn run_target_block_and_path_modifier_are_told_apart() {
    let content = "[env.run.svc]\nFOO = \"bar\"\n\n[env.run.PATH]\nprepend = [\"/a\"]\n";
    let config = EnvConfig::parse(content, "/p").unwrap();
    assert!(config.run_targets.contains_key("svc"));
    assert!(!config.run_targets.contains_key("PATH"));
    assert!(config.run.contains_key("PATH"));
    assert!(!config.run.contains_key("svc"));
    match config.run.get("PATH").unwrap() {
        EnvValue::Prepend(p) => assert_eq!(p, &vec!["/a".to_string()]),
        other => panic!("unexpected entry {:?}", other),
    }
}

#[test]
fn later_layer_assign_wins_in_build() {
    let content = "[env]\nCC = \"clang\"\n[env.build]\nCC = \"clang++\"\n";
    let config = EnvConfig::parse(content, "/p").unwrap();
    let env = config.build_env(Platform::Linux, None, &table(&[])).unwrap();
    assert_eq!(lookup(&env, "CC"), Some("clang++"));
}

#[test]
fn prepends_compose_across_layers() {
    let content = "[env]\nPATH = [\"/a\"]\n[env.build]\nPATH = { prepend = [\"/b\"] }\n";
    let config = EnvConfig::parse(content, "/p").unwrap();
    let env = config.build_env(Platform::Linux, None, &table(&[])).unwrap();
    assert_eq!(lookup(&env, "PATH"), Some("/b:/a"));
}

#[test]
fn empty_config_resolves_to_empty_environments() {
    let ambient = table(&[]);
    for config in [EnvConfig::load(None, "/p").unwrap(), EnvConfig::parse("", "/p").unwrap()] {
        assert_eq!(config.build_env(Platform::Linux, None, &ambient).unwrap().len(), 0);
        assert_eq!(config.build_env(Platform::MacOs, None, &ambient).unwrap().len(), 0);
        assert_eq!(config.run_env(Platform::Linux, None, None, &ambient).unwrap().len(), 0);
        assert_eq!(config.run_env(Platform::Linux, Some("t"), None, &ambient).unwrap().len(), 0);
    }
}

#[test]
fn ambient_value_is_the_base_of_a_modifier() {
    let content = "[env]\nPATH = { append = [\"/x\"] }\n";
    let config = EnvConfig::parse(content, "/p").unwrap();
    let ambient = table(&[("PATH", "/usr/bin"), ("HOME", "/h")]);
    let env = config.build_env(Platform::Linux, None, &ambient).unwrap();
    assert_eq!(lookup(&env, "PATH"), Some("/usr/bin:/x"));
    assert_eq!(lookup(&env, "HOME"), None);
    assert_eq!(env.len(), 1);
}

#[test]
fn platform_scope_follows_the_platform() {
    let content = "[env.linux]\nCC = \"gcc\"\n[env.macos]\nCC = \"clang\"\n";
    let config = EnvConfig::parse(content, "/p").unwrap();
    let ambient = table(&[]);
    let linux = config.build_env(Platform::Linux, None, &ambient).unwrap();
    let mac = config.build_env(Platform::MacOs, None, &ambient).unwrap();
    assert_eq!(lookup(&linux, "CC"), Some("gcc"));
    assert_eq!(lookup(&mac, "CC"), Some("clang"));
}

#[test]
fn run_env_applies_target_scope_last() {
    let content = r#"
[vars]
ROOT = "${PROJECT_ROOT}/out"

[env]
LD = { prepend = ["/common"] }
MODE = "common"

[env.run]
LD = { prepend = ["${ROOT}/lib"] }

[env.run.svc]
MODE = "svc"
LD = { append = ["${PROJECT_BUILD_ROOT}/svc"] }
"#;
    let config = EnvConfig::parse(content, "/p").unwrap();
    let ambient = table(&[("LD", "/sys")]);
    let plain = config.run_env(Platform::Linux, None, Some("/b"), &ambient).unwrap();
    assert_eq!(lookup(&plain, "LD"), Some("/p/out/lib:/common:/sys"));
    assert_eq!(lookup(&plain, "MODE"), Some("common"));
    let svc = config.run_env(Platform::Linux, Some("svc"), Some("/b"), &ambient).unwrap();
    assert_eq!(lookup(&svc, "LD"), Some("/p/out/lib:/common:/sys:/b/svc"));
    assert_eq!(lookup(&svc, "MODE"), Some("svc"));
    let other = config.run_env(Platform::Linux, Some("nope"), Some("/b"), &ambient).unwrap();
    assert_eq!(lookup(&other, "MODE"), Some("common"));
    let build = config.build_env(Platform::Linux, Some("/b"), &ambient).unwrap();
    assert_eq!(lookup(&build, "LD"), Some("/common:/sys"));
}

#[test]
fn odd_shapes_set_the_empty_string() {
    let content = "[env]\nN = 5\nT = { other = \"x\" }\nS = { prepend = \"notalist\" }\n";
    let config = EnvConfig::parse(content, "/p").unwrap();
    let env = config.build_env(Platform::Linux, None, &table(&[])).unwrap();
    assert_eq!(lookup(&env, "N"), Some(""));
    assert_eq!(lookup(&env, "T"), Some(""));
    assert_eq!(lookup(&env, "S"), Some(""));
}

#[test]
fn non_string_in_list_is_a_value_type_error() {
    let bad = [
        "[env]\nPATH = { prepend = [\"/a\", 3] }\n",
        "[env]\nPATH = { append = [true] }\n",
        "[env]\nPATH = [\"/a\", 1.5]\n",
        "[env.build]\nPATH = [1]\n",
        "[env.run.svc]\nPATH = [[\"x\"]]\n",
    ];
    for content in bad {
        assert_eq!(EnvConfig::parse(content, "/p").unwrap_err(), ConfigError::ValueType);
    }
}

#[test]
fn malformed_text_is_a_parse_error() {
    assert!(matches!(EnvConfig::parse("[env\nX = ", "/p"), Err(ConfigError::Parse(_))));
    assert!(matches!(EnvConfig::load(Some("= 1"), "/p"), Err(ConfigError::Parse(_))));
}

#[test]
fn misshapen_sections_are_parse_errors() {
    assert!(matches!(EnvConfig::parse("vars = 1\n", "/p"), Err(ConfigError::Parse(_))));
    assert!(matches!(EnvConfig::parse("[vars]\nA = 1\n", "/p"), Err(ConfigError::Parse(_))));
    assert!(matches!(EnvConfig::parse("env = \"x\"\n", "/p"), Err(ConfigError::Parse(_))));
}

#[test]
fn unknown_top_level_keys_are_ignored() {
    let config = EnvConfig::parse("title = \"x\"\n[other]\nA = 1\n", "/p").unwrap();
    assert_eq!(config.vars.len(), 1);
    assert_eq!(config.common.len(), 0);
}

#[test]
fn document_tree_is_read_without_the_parser() {
    let text = |s: &str| RawEntry::Text(s.to_string());
    let doc = RawEntry::Table(vec![
        (
            "vars".to_string(),
            RawEntry::Table(vec![("PROJECT_ROOT".to_string(), text("/declared"))]),
        ),
        (
            "env".to_string(),
            RawEntry::Table(vec![
                ("CC".to_string(), text("cc")),
                (
                    "run".to_string(),
                    RawEntry::Table(vec![
                        (
                            "svc".to_string(),
                            RawEntry::Table(vec![("FOO".to_string(), text("bar"))]),
                        ),
                        (
                            "PATH".to_string(),
                            RawEntry::Table(vec![(
                                "append".to_string(),
                                RawEntry::List(vec![text("${PROJECT_ROOT}/bin")]),
                            )]),
                        ),
                    ]),
                ),
            ]),
        ),
    ]);
    let config = EnvConfig::from_document(&doc, "/root").unwrap();
    assert_eq!(config.vars.get("PROJECT_ROOT").unwrap(), "/root");
    assert!(config.run_targets.contains_key("svc"));
    assert!(config.run.contains_key("PATH"));
    let env = config.run_env(Platform::Linux, Some("svc"), None, &table(&[])).unwrap();
    assert_eq!(lookup(&env, "PATH"), Some("/root/bin"));
    assert_eq!(lookup(&env, "FOO"), Some("bar"));
    assert_eq!(lookup(&env, "CC"), Some("cc"));

    let bad = RawEntry::Table(vec![(
        "env".to_string(),
        RawEntry::Table(vec![("X".to_string(), RawEntry::List(vec![RawEntry::Other]))]),
    )]);
    assert_eq!(EnvConfig::from_document(&bad, "/root").unwrap_err(), ConfigError::ValueType);
    assert!(matches!(
        EnvConfig::from_document(&RawEntry::Other, "/root"),
        Err(ConfigError::Parse(_))
    ));
}
