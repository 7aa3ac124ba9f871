use cmk::{IndexError, Package, PackageIndex};

fn sample() -> PackageIndex {
    let mut index = PackageIndex::new();
    index.add_repo("fmtlib", "fmt", "11.0.2".to_string());
    index
}

#[test]
fn package_name_is_owner_slash_repo() {
    let p = Package { owner: "fmtlib".to_string(), repo: "fmt".to_string() };
    assert_eq!(p.to_string(), "fmtlib/fmt");
}

#[test]
fn alias_resolves_to_full_name() {
    let index = sample();
    assert_eq!(index.get_pkg_name("fmt").unwrap(), "fmtlib/fmt");
    assert_eq!(index.get_pkg_name("a/b").unwrap(), "a/b");
    assert_eq!(
        index.get_pkg_name("spdlog"),
        Err(IndexError::AliasNotFound("spdlog".to_string()))
    );
}

#[test]
fn release_lookup_goes_through_aliases() {
    let index = sample();
    assert_eq!(index.get_release("fmt").unwrap(), "11.0.2");
    assert_eq!(index.get_release("fmtlib/fmt").unwrap(), "11.0.2");
    assert_eq!(
        index.get_release("gabime/spdlog"),
        Err(IndexError::ReleaseNotFound("gabime/spdlog".to_string()))
    );
    assert_eq!(
        index.get_release("spdlog"),
        Err(IndexError::AliasNotFound("spdlog".to_string()))
    );
}

#[test]
fn update_release_reports_what_changed() {
    let mut index = sample();
    assert_eq!(index.update_release("fmtlib/fmt", "11.0.2".to_string()), Ok(None));
    assert_eq!(
        index.update_release("fmtlib/fmt", "11.1.0".to_string()),
        Ok(Some("11.0.2".to_string()))
    );
    assert_eq!(index.get_release("fmt").unwrap(), "11.1.0");
    assert_eq!(
        index.update_release("x/y", "1".to_string()),
        Err(IndexError::PackageNotFound("x/y".to_string()))
    );
}

#[test]
fn adding_a_repo_again_replaces_its_release() {
    let mut index = sample();
    index.add_repo("fmtlib", "fmt", "12.0.0".to_string());
    assert_eq!(index.aliases.len(), 1);
    assert_eq!(index.releases.len(), 1);
    assert_eq!(index.get_release("fmt").unwrap(), "12.0.0");
}
