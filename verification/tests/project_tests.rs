use jtools::project::detect_project_type;
use jtools::project::detect_work_project;
use jtools::project::extension;
use jtools::project::find_project_name;
use jtools::project::Project;
use jtools::project::ProjectType;
use jtools::project::ToolError;

fn comps(path: &[&str]) -> Vec<String> {
    path.iter().map(|c| c.to_string()).collect()
}

#[test]
fn new_keeps_the_parts() {
    let p = Project::new("demo", false, ProjectType::Rust);
    assert_eq!(p.name, "demo");
    assert!(!p.work);
    assert_eq!(p.project_type, ProjectType::Rust);
}

#[test]
fn build_plain_rust_project() {
    let p = Project::new("demo", false, ProjectType::Rust);
    assert_eq!(p.build(false).unwrap(), vec!["cargo", "build"]);
    assert_eq!(p.build(true).unwrap(), vec!["cargo", "build", "--release"]);
}

#[test]
fn build_work_hotshot_goes_through_just() {
    let p = Project::new("hotshot", true, ProjectType::Rust);
    assert_eq!(p.build(false).unwrap(), vec!["just", "async-std", "build"]);
    assert_eq!(
        p.build(true).unwrap(),
        vec!["just", "async-std", "build", "--release"]
    );
}

#[test]
fn build_python_project_is_refused() {
    let p = Project::new("demo", false, ProjectType::Python);
    assert_eq!(p.build(false).unwrap_err(), ToolError::CannotBuild);
    assert_eq!(
        p.build(false).unwrap_err().message(),
        "Cannot build this project type yet."
    );
}

#[test]
fn format_commands() {
    let plain = Project::new("demo", false, ProjectType::Rust);
    assert_eq!(plain.format().unwrap(), vec!["cargo", "fmt"]);
    let work = Project::new("hotshot", true, ProjectType::Rust);
    assert_eq!(work.format().unwrap(), vec!["just", "async-std", "fmt_lint"]);
    let py = Project::new("demo", false, ProjectType::Python);
    assert_eq!(py.format().unwrap_err(), ToolError::CannotFormat);
    assert_eq!(
        py.format().unwrap_err().message(),
        "Cannot format this project type yet."
    );
}

#[test]
fn describe_renders_name_work_flag_and_type() {
    let p = Project::new("demo", false, ProjectType::Rust);
    assert_eq!(
        p.describe(),
        "Project(name=demo, is_work_project=false, project_type=ProjectType(Rust))"
    );
    let q = Project::new("hotshot", true, ProjectType::Python);
    assert_eq!(
        q.describe(),
        "Project(name=hotshot, is_work_project=true, project_type=ProjectType(Python))"
    );
}

#[test]
fn detect_work_project_by_component() {
    let paths = vec![comps(&["home", "user", "HotShot", "Cargo.toml"])];
    // Directory name is lowercased before the work-name check.
    let r = detect_work_project("HotShot", &paths);
    assert_eq!(r.as_deref(), Some("hotshot"));
}

#[test]
fn detect_work_project_needs_a_work_dirname() {
    let paths = vec![comps(&["home", "user", "hotshot"])];
    assert_eq!(detect_work_project("otherproj", &paths), None);
}

#[test]
fn detect_work_project_probe_order_wins() {
    // Both names occur; "hotshot" is probed before "espresso-sequencer".
    let paths = vec![
        comps(&["x", "espresso-sequencer"]),
        comps(&["x", "hotshot"]),
    ];
    let r = detect_work_project("espresso-sequencer", &paths);
    assert_eq!(r.as_deref(), Some("hotshot"));
}

#[test]
fn detect_project_type_prefers_manifest_names() {
    // The lowercase wrapper decides the manifest match.
    let names = comps(&["README.md", "CARGO.TOML"]);
    assert_eq!(detect_project_type(&names), Some(ProjectType::Rust));
    let names = comps(&["setup.cfg", "PyProject.Toml"]);
    assert_eq!(detect_project_type(&names), Some(ProjectType::Python));
}

#[test]
fn detect_project_type_by_extension() {
    let names = comps(&["README.md", "main.rs"]);
    assert_eq!(detect_project_type(&names), Some(ProjectType::Rust));
    let names = comps(&["README.md", "main.py"]);
    assert_eq!(detect_project_type(&names), Some(ProjectType::Python));
    let names = comps(&["README.md", "notes.txt"]);
    assert_eq!(detect_project_type(&names), None);
}

#[test]
fn detect_project_type_first_entry_decides() {
    let names = comps(&["a.py", "Cargo.toml"]);
    assert_eq!(detect_project_type(&names), Some(ProjectType::Python));
}

#[test]
fn extension_follows_the_last_dot() {
    assert_eq!(extension("main.rs"), Some("rs"));
    assert_eq!(extension("archive.tar.gz"), Some("gz"));
    assert_eq!(extension(".gitignore"), None);
    assert_eq!(extension("Makefile"), None);
    assert_eq!(extension("odd."), Some(""));
}

#[test]
fn find_project_name_takes_the_last_component() {
    assert_eq!(find_project_name("/home/user/proj").as_deref(), Some("proj"));
    assert_eq!(find_project_name("/home/user/proj/").as_deref(), Some("proj"));
    assert_eq!(find_project_name("proj").as_deref(), Some("proj"));
    assert_eq!(find_project_name("/"), None);
    assert_eq!(find_project_name("/home/.."), None);
}

#[test]
fn detect_work_project_without_matching_component() {
    let paths = vec![comps(&["src"]), comps(&["target", "debug"])];
    assert_eq!(detect_work_project("hotshot", &paths), None);
}
