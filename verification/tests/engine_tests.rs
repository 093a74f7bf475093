use ppm::engine::{
    reinstall_args, requirements_text, update_merge, AddEvent, AddOutcome, AddPackage,
    RemoveOutcome, RemovePackage, RunScript, UpdateEvent,
};
use ppm::manifest::{Config, Project};

fn base_config(packages: Vec<(String, String)>) -> Config {
    Config::new(
        Project::new(
            "demo".to_string(),
            "0.1.0".to_string(),
            "a demo project".to_string(),
            "./src/main.py".to_string(),
        ),
        packages,
        vec![("upgrade-pip".to_string(), "python -m pip install --upgrade pip".to_string())],
    )
}

#[test]
fn add_unpinned_records_resolved_version() {
    // Scenario: empty manifest, installer succeeds, resolver answers.
    let mut conf = base_config(vec![]);
    let cmd = AddPackage { pkg_names: vec!["requests".to_string()] };
    let events = vec![AddEvent { install_ok: true, resolved: Some("2.31.0".to_string()) }];
    let outcomes = cmd.add_package(&mut conf, &events);
    assert_eq!(conf.packages, vec![("requests".to_string(), "2.31.0".to_string())]);
    assert_eq!(
        outcomes,
        vec![AddOutcome::Added { name: "requests".to_string(), version: "2.31.0".to_string() }]
    );
}

#[test]
fn add_pinned_needs_no_resolution() {
    // Scenario: a pinned spec is recorded at its pin; no lookup is
    // consulted, so its slot stays empty.
    let mut conf = base_config(vec![]);
    let cmd = AddPackage { pkg_names: vec!["requests==2.25.0".to_string()] };
    let events = vec![AddEvent { install_ok: true, resolved: None }];
    let outcomes = cmd.add_package(&mut conf, &events);
    assert_eq!(conf.packages, vec![("requests".to_string(), "2.25.0".to_string())]);
    assert_eq!(
        outcomes,
        vec![AddOutcome::Added { name: "requests".to_string(), version: "2.25.0".to_string() }]
    );
}

#[test]
fn add_failed_install_leaves_manifest_untouched() {
    let mut conf = base_config(vec![]);
    let cmd = AddPackage { pkg_names: vec!["requests".to_string()] };
    let events = vec![AddEvent { install_ok: false, resolved: Some("2.31.0".to_string()) }];
    let outcomes = cmd.add_package(&mut conf, &events);
    assert!(conf.packages.is_empty());
    assert_eq!(outcomes, vec![AddOutcome::InstallFailed { name: "requests".to_string() }]);
}

#[test]
fn add_failed_resolution_skips_the_entry() {
    // The package is installed but cannot be pinned: the manifest
    // stays untouched and the item reports the drift.
    let mut conf = base_config(vec![]);
    let cmd = AddPackage { pkg_names: vec!["requests".to_string()] };
    let events = vec![AddEvent { install_ok: true, resolved: None }];
    let outcomes = cmd.add_package(&mut conf, &events);
    assert!(conf.packages.is_empty());
    assert_eq!(outcomes, vec![AddOutcome::ResolveFailed { name: "requests".to_string() }]);
}

#[test]
fn add_isolates_failures_per_item() {
    let mut conf = base_config(vec![]);
    let cmd = AddPackage {
        pkg_names: vec!["a==1.0".to_string(), "b".to_string(), "c==3.0".to_string()],
    };
    let events = vec![
        AddEvent { install_ok: true, resolved: None },
        AddEvent { install_ok: false, resolved: None },
        AddEvent { install_ok: true, resolved: None },
    ];
    let outcomes = cmd.add_package(&mut conf, &events);
    assert_eq!(
        conf.packages,
        vec![("a".to_string(), "1.0".to_string()), ("c".to_string(), "3.0".to_string())]
    );
    assert_eq!(outcomes[1], AddOutcome::InstallFailed { name: "b".to_string() });
}

#[test]
fn add_replaces_an_existing_pin() {
    let mut conf = base_config(vec![("requests".to_string(), "2.25.0".to_string())]);
    let cmd = AddPackage { pkg_names: vec!["requests==2.31.0".to_string()] };
    let events = vec![AddEvent { install_ok: true, resolved: None }];
    cmd.add_package(&mut conf, &events);
    assert_eq!(conf.packages, vec![("requests".to_string(), "2.31.0".to_string())]);
}

#[test]
fn remove_failed_uninstall_keeps_the_entry() {
    // Scenario: the uninstaller fails, so the entry must stay.
    let mut conf = base_config(vec![("requests".to_string(), "2.25.0".to_string())]);
    let cmd = RemovePackage { pkg_names: vec!["requests".to_string()] };
    let outcomes = cmd.remove_package(&mut conf, &vec![false]);
    assert_eq!(conf.packages, vec![("requests".to_string(), "2.25.0".to_string())]);
    assert_eq!(outcomes, vec![RemoveOutcome::UninstallFailed { name: "requests".to_string() }]);
}

#[test]
fn remove_succeeded_uninstall_drops_the_entry() {
    let mut conf = base_config(vec![
        ("requests".to_string(), "2.25.0".to_string()),
        ("flask".to_string(), "2.0.0".to_string()),
    ]);
    let cmd = RemovePackage { pkg_names: vec!["requests".to_string()] };
    let outcomes = cmd.remove_package(&mut conf, &vec![true]);
    assert_eq!(conf.packages, vec![("flask".to_string(), "2.0.0".to_string())]);
    assert_eq!(outcomes, vec![RemoveOutcome::Removed { name: "requests".to_string() }]);
}

#[test]
fn remove_unknown_package_reports_not_found() {
    let mut conf = base_config(vec![]);
    let cmd = RemovePackage { pkg_names: vec!["requests".to_string()] };
    let outcomes = cmd.remove_package(&mut conf, &vec![false]);
    assert!(conf.packages.is_empty());
    assert_eq!(outcomes, vec![RemoveOutcome::NotFound { name: "requests".to_string() }]);
}

#[test]
fn update_keeps_failures_and_applies_successes() {
    // Scenario: `a` resolves to 1.1 and reinstalls fine; `b` fails.
    let mut conf = base_config(vec![
        ("a".to_string(), "1.0".to_string()),
        ("b".to_string(), "1.0".to_string()),
    ]);
    let events = vec![
        UpdateEvent { name: "a".to_string(), resolved: Some("1.1".to_string()), install_ok: true },
        UpdateEvent { name: "b".to_string(), resolved: None, install_ok: false },
    ];
    update_merge(&mut conf, &events);
    assert_eq!(
        conf.packages,
        vec![("a".to_string(), "1.1".to_string()), ("b".to_string(), "1.0".to_string())]
    );
}

#[test]
fn update_ignores_resolved_but_failed_installs() {
    let mut conf = base_config(vec![("a".to_string(), "1.0".to_string())]);
    let events = vec![UpdateEvent {
        name: "a".to_string(),
        resolved: Some("2.0".to_string()),
        install_ok: false,
    }];
    update_merge(&mut conf, &events);
    assert_eq!(conf.packages, vec![("a".to_string(), "1.0".to_string())]);
}

#[test]
fn update_lets_the_last_success_for_a_name_win() {
    let mut conf = base_config(vec![("a".to_string(), "1.0".to_string())]);
    let events = vec![
        UpdateEvent { name: "a".to_string(), resolved: Some("1.1".to_string()), install_ok: true },
        UpdateEvent { name: "a".to_string(), resolved: Some("1.2".to_string()), install_ok: true },
        UpdateEvent { name: "a".to_string(), resolved: Some("1.3".to_string()), install_ok: false },
    ];
    update_merge(&mut conf, &events);
    assert_eq!(conf.packages, vec![("a".to_string(), "1.2".to_string())]);
}

#[test]
fn run_finds_a_script_and_never_mutates() {
    let conf = base_config(vec![]);
    let run = RunScript { script_name: "upgrade-pip".to_string() };
    assert_eq!(run.command(&conf), Some("python -m pip install --upgrade pip".to_string()));
    let missing = RunScript { script_name: "lint".to_string() };
    assert_eq!(missing.command(&conf), None);
}

#[test]
fn reinstall_args_pin_every_entry() {
    let conf = base_config(vec![
        ("flask".to_string(), "2.0.0".to_string()),
        ("click".to_string(), "8.1".to_string()),
    ]);
    assert_eq!(reinstall_args(&conf), vec!["flask==2.0.0".to_string(), "click==8.1".to_string()]);
}

#[test]
fn requirements_text_lists_one_pin_per_line() {
    let conf = base_config(vec![
        ("flask".to_string(), "2.0.0".to_string()),
        ("click".to_string(), "8.1".to_string()),
    ]);
    assert_eq!(requirements_text(&conf), "flask==2.0.0\nclick==8.1\n");
}
