use ppm::manifest::{Config, Project};
use ppm::store::{load, save};

fn config(
    packages: Vec<(String, String)>,
    scripts: Vec<(String, String)>,
) -> Config {
    Config::new(
        Project::new(
            "demo".to_string(),
            "0.1.0".to_string(),
            "a demo project".to_string(),
            "./src/main.py".to_string(),
        ),
        packages,
        scripts,
    )
}

fn assert_same(a: &Config, b: &Config) {
    assert_eq!(a.project.name, b.project.name);
    assert_eq!(a.project.version, b.project.version);
    assert_eq!(a.project.description, b.project.description);
    assert_eq!(a.project.main_script, b.project.main_script);
    assert_eq!(a.packages, b.packages);
    assert_eq!(a.scripts, b.scripts);
}

#[test]
fn save_writes_the_documented_layout() {
    let c = config(
        vec![("flask".to_string(), "2.0.0".to_string())],
        vec![("hi".to_string(), "echo hi".to_string())],
    );
    let expected = "[project]\n\
        \"name\" = \"demo\"\n\
        \"version\" = \"0.1.0\"\n\
        \"description\" = \"a demo project\"\n\
        \"main_script\" = \"./src/main.py\"\n\
        [packages]\n\
        \"flask\" = \"2.0.0\"\n\
        [scripts]\n\
        \"hi\" = \"echo hi\"\n";
    assert_eq!(save(&c), expected);
}

#[test]
fn round_trip_plain_manifest() {
    let c = config(
        vec![
            ("flask".to_string(), "2.0.0".to_string()),
            ("click".to_string(), "8.1".to_string()),
        ],
        vec![("hi".to_string(), "echo hi".to_string())],
    );
    let back = load(&save(&c)).unwrap();
    assert_same(&back, &c);
}

#[test]
fn round_trip_empty_tables() {
    let c = config(vec![], vec![]);
    let back = load(&save(&c)).unwrap();
    assert_same(&back, &c);
}

#[test]
fn round_trip_awkward_characters() {
    let c = Config::new(
        Project::new(
            "de\"mo\\".to_string(),
            "0.1\n0".to_string(),
            "multi\r\nline = tricky".to_string(),
            "./src/main.py".to_string(),
        ),
        vec![("pkg = odd".to_string(), "1.0\"~\\n".to_string())],
        vec![("run\nit".to_string(), "echo \"x\"".to_string())],
    );
    let back = load(&save(&c)).unwrap();
    assert_same(&back, &c);
}

#[test]
fn load_accepts_main_as_alias() {
    let text = "[project]\n\
        \"name\" = \"demo\"\n\
        \"version\" = \"0.1.0\"\n\
        \"description\" = \"\"\n\
        \"main\" = \"./main.py\"\n\
        [packages]\n\
        [scripts]\n";
    let c = load(&text.to_string()).unwrap();
    assert_eq!(c.project.main_script, "./main.py");
}

#[test]
fn load_treats_missing_tables_as_empty() {
    let text = "[project]\n\
        \"name\" = \"demo\"\n\
        \"version\" = \"0.1.0\"\n\
        \"description\" = \"\"\n\
        \"main_script\" = \"./main.py\"\n";
    let c = load(&text.to_string()).unwrap();
    assert!(c.packages.is_empty());
    assert!(c.scripts.is_empty());
}

#[test]
fn load_rejects_a_missing_project_field() {
    let text = "[project]\n\
        \"name\" = \"demo\"\n\
        \"version\" = \"0.1.0\"\n\
        [packages]\n\
        [scripts]\n";
    assert!(load(&text.to_string()).is_err());
}

#[test]
fn load_rejects_garbage() {
    assert!(load(&"not a manifest".to_string()).is_err());
    assert!(load(&"[project]\nname = unquoted\n".to_string()).is_err());
}

#[test]
fn load_rejects_a_duplicate_package_key() {
    let text = "[project]\n\
        \"name\" = \"demo\"\n\
        \"version\" = \"0.1.0\"\n\
        \"description\" = \"\"\n\
        \"main_script\" = \"./main.py\"\n\
        [packages]\n\
        \"flask\" = \"1.0\"\n\
        \"flask\" = \"2.0\"\n";
    assert!(load(&text.to_string()).is_err());
}

#[test]
fn load_rejects_a_pair_before_any_header() {
    let text = "\"name\" = \"demo\"\n";
    assert!(load(&text.to_string()).is_err());
}
