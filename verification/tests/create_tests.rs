use ppm::engine::{ProjectConf, ProjectCreator};
use ppm::store::load;

fn conf(name: &str, git: bool, no_venv: bool) -> ProjectConf {
    ProjectConf {
        name: name.to_string(),
        version: "0.1.0".to_string(),
        description: "fresh".to_string(),
        git,
        no_venv,
    }
}

#[test]
fn new_project_plans_paths_under_its_name() {
    let plan = conf("myproj", true, false).create_project(false);
    assert_eq!(plan.src_dir, "myproj/src");
    assert_eq!(plan.main_py_path, "myproj/src/main.py");
    assert_eq!(plan.gitignore_path, "myproj/.gitignore");
    assert_eq!(plan.venv_path, "myproj/venv");
    assert_eq!(plan.config_path, "myproj/project.toml");
    assert!(plan.make_git);
    assert!(plan.make_venv);
}

#[test]
fn init_project_plans_paths_in_place() {
    let plan = conf("myproj", false, true).create_project(true);
    assert_eq!(plan.src_dir, "src");
    assert_eq!(plan.config_path, "project.toml");
    assert!(!plan.make_git);
    assert!(!plan.make_venv);
}

#[test]
fn planned_config_text_loads_back_as_the_fresh_manifest() {
    let plan = conf("myproj", false, false).create_project(false);
    let c = load(&plan.config_text).unwrap();
    assert_eq!(c.project.name, "myproj");
    assert_eq!(c.project.version, "0.1.0");
    assert_eq!(c.project.description, "fresh");
    assert_eq!(c.project.main_script, "./src/main.py");
    assert!(c.packages.is_empty());
    assert_eq!(
        c.scripts,
        vec![("upgrade-pip".to_string(), "python -m pip install --upgrade pip".to_string())]
    );
}

#[test]
fn init_config_points_at_a_bare_main() {
    let creator = ProjectCreator::new(conf("here", false, false), true);
    let c = creator.initial_config();
    assert_eq!(c.project.main_script, "./main.py");
    let (path, text) = creator.save_config();
    assert_eq!(path, "project.toml");
    let back = load(&text).unwrap();
    assert_eq!(back.project.name, "here");
}

#[test]
fn get_path_with_respects_init() {
    let sub = ProjectCreator::new(conf("p", false, false), false);
    assert_eq!(sub.get_path_with("venv"), "p/venv");
    let here = ProjectCreator::new(conf("p", false, false), true);
    assert_eq!(here.get_path_with("venv"), "venv");
}
