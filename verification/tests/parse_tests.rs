use ppm::engine::{needs_resolution, AddPackage};
use ppm::pkgspec::split_package_spec;
use ppm::registry::extract_latest_version;
use ppm::reqfile::requirement_specs;

#[test]
fn bare_name_has_empty_version() {
    let (name, version) = split_package_spec(&"requests".to_string());
    assert_eq!(name, "requests");
    assert_eq!(version, "");
}

#[test]
fn pinned_name_splits_at_the_separator() {
    let (name, version) = split_package_spec(&"requests==2.25.0".to_string());
    assert_eq!(name, "requests");
    assert_eq!(version, "2.25.0");
}

#[test]
fn split_happens_at_the_first_separator_only() {
    let (name, version) = split_package_spec(&"a==b==c".to_string());
    assert_eq!(name, "a");
    assert_eq!(version, "b==c");
}

#[test]
fn parse_version_method_matches_the_free_parser() {
    let cmd = AddPackage { pkg_names: vec![] };
    assert_eq!(
        cmd.parse_version("flask==2.0.0".to_string()),
        ("flask".to_string(), "2.0.0".to_string())
    );
    assert_eq!(cmd.parse_version("flask".to_string()), ("flask".to_string(), "".to_string()));
}

#[test]
fn resolver_is_consulted_only_for_unpinned_successes() {
    assert!(needs_resolution(true, &"".to_string()));
    assert!(!needs_resolution(true, &"2.25.0".to_string()));
    assert!(!needs_resolution(false, &"".to_string()));
}

#[test]
fn requirements_drop_every_commented_line() {
    // Scenario: only the two clean lines survive, in order.
    let text = "flask==2.0.0\n# comment\nclick\n".to_string();
    assert_eq!(requirement_specs(&text), vec!["flask==2.0.0".to_string(), "click".to_string()]);
}

#[test]
fn requirements_drop_lines_with_a_marker_anywhere() {
    let text = "click # pinned for now\nflask\n".to_string();
    assert_eq!(requirement_specs(&text), vec!["flask".to_string()]);
}

#[test]
fn requirements_accept_crlf_endings() {
    let text = "flask==2.0.0\r\n# comment\r\nclick\r\n".to_string();
    assert_eq!(requirement_specs(&text), vec!["flask==2.0.0".to_string(), "click".to_string()]);
}

#[test]
fn requirements_keep_order_and_empty_lines() {
    let text = "b\n\na\n".to_string();
    assert_eq!(
        requirement_specs(&text),
        vec!["b".to_string(), "".to_string(), "a".to_string()]
    );
}

#[test]
fn registry_version_is_read_from_info_version() {
    let body = "{\"info\": {\"version\": \"1.2.3\", \"name\": \"flask\"}}";
    assert_eq!(extract_latest_version(body), Some("1.2.3".to_string()));
}

#[test]
fn registry_answers_without_a_version_yield_nothing() {
    assert_eq!(extract_latest_version("not json"), None);
    assert_eq!(extract_latest_version("{\"info\": {}}"), None);
    assert_eq!(extract_latest_version("{\"info\": {\"version\": 3}}"), None);
    assert_eq!(extract_latest_version("{}"), None);
}
