//! Tests for the application linker over probed directory data.

use scanner::analyzer::app_linker::{ApplicationLinker, DirectoryManifests};
use scanner::models::classification::{Classification, ClassifiedDependency};
use scanner::models::dependency::Ecosystem;

fn node_dir(path: &str, json: &str) -> DirectoryManifests {
    DirectoryManifests {
        directory: path.to_string(),
        package_json: Some(json.to_string()),
        pyproject_toml: None,
        cargo_toml: None,
    }
}

#[test]
fn test_find_node_application_root() {
    let dirs = vec![node_dir("/tmp/myapp", r#"{"name": "myapp", "version": "1.0.0"}"#)];

    let linker = ApplicationLinker::new();
    let result = linker.find_application_root("/tmp/myapp/node_modules/react", &dirs);

    assert!(result.is_some());
    let (root, name, ecosystem) = result.unwrap();
    assert_eq!(root, "/tmp/myapp");
    assert_eq!(name, "myapp");
    assert_eq!(ecosystem, Ecosystem::Node);
}

#[test]
fn test_find_python_application_root() {
    let dirs = vec![DirectoryManifests {
        directory: "/tmp/myapp".to_string(),
        package_json: None,
        pyproject_toml: Some("[project]\nname = \"myapp\"\nversion = \"1.0.0\"\n".to_string()),
        cargo_toml: None,
    }];

    let linker = ApplicationLinker::new();
    let result = linker.find_application_root(
        "/tmp/myapp/.venv/lib/python3.11/site-packages/requests",
        &dirs,
    );

    assert!(result.is_some());
    let (root, name, ecosystem) = result.unwrap();
    assert_eq!(root, "/tmp/myapp");
    assert_eq!(name, "myapp");
    assert_eq!(ecosystem, Ecosystem::Python);
}

#[test]
fn test_find_rust_application_root() {
    let dirs = vec![DirectoryManifests {
        directory: "/tmp/mycrate".to_string(),
        package_json: None,
        pyproject_toml: None,
        cargo_toml: Some(
            "[package]\nname = \"mycrate\"\nversion = \"0.1.0\"\n\n[dependencies]\n".to_string(),
        ),
    }];

    let linker = ApplicationLinker::new();
    let result = linker.find_application_root("/tmp/mycrate/target/debug/deps", &dirs);

    assert!(result.is_some());
    let (root, name, ecosystem) = result.unwrap();
    assert_eq!(root, "/tmp/mycrate");
    assert_eq!(name, "mycrate");
    assert_eq!(ecosystem, Ecosystem::Rust);
}

#[test]
fn test_cargo_name_outside_package_section_ignored() {
    let dirs = vec![DirectoryManifests {
        directory: "/tmp/c".to_string(),
        package_json: None,
        pyproject_toml: None,
        cargo_toml: Some(
            "[dependencies]\nname = \"wrong\"\n\n[package]\nname = \"right\"\n".to_string(),
        ),
    }];

    let linker = ApplicationLinker::new();
    let result = linker.find_application_root("/tmp/c/src", &dirs);
    let (_, name, _) = result.unwrap();
    assert_eq!(name, "right");
}

#[test]
fn test_link_to_applications() {
    let dirs = vec![node_dir("/tmp/myapp", r#"{"name": "myapp", "version": "1.0.0"}"#)];

    let linker = ApplicationLinker::new();

    let mut dep1 = ClassifiedDependency::new("react".to_string(), Ecosystem::Node);
    dep1.installed_path = Some("/tmp/myapp/node_modules/react".to_string());
    dep1.add_classification(
        Classification::Has,
        "18.2.0".to_string(),
        "/tmp/myapp/node_modules/react".to_string(),
    );

    let mut dep2 = ClassifiedDependency::new("lodash".to_string(), Ecosystem::Node);
    dep2.installed_path = Some("/tmp/myapp/node_modules/lodash".to_string());
    dep2.add_classification(
        Classification::Has,
        "4.17.21".to_string(),
        "/tmp/myapp/node_modules/lodash".to_string(),
    );

    let apps = linker.link_to_applications(vec![dep1, dep2], &dirs);

    assert_eq!(apps.len(), 1);
    assert_eq!(apps[0].name, "myapp");
    assert_eq!(apps[0].ecosystem, Ecosystem::Node);
    assert_eq!(apps[0].manifest_path, "/tmp/myapp/package.json");
    assert_eq!(apps[0].dependency_count(), 2);
    assert!(apps[0].has_dependency("react"));
    assert!(apps[0].has_dependency("lodash"));
}

#[test]
fn test_link_multiple_applications() {
    let dirs = vec![
        node_dir("/tmp/app1", r#"{"name": "app1", "version": "1.0.0"}"#),
        node_dir("/tmp/app2", r#"{"name": "app2", "version": "1.0.0"}"#),
    ];

    let linker = ApplicationLinker::new();

    let mut dep1 = ClassifiedDependency::new("react".to_string(), Ecosystem::Node);
    dep1.installed_path = Some("/tmp/app1/node_modules/react".to_string());

    let mut dep2 = ClassifiedDependency::new("lodash".to_string(), Ecosystem::Node);
    dep2.installed_path = Some("/tmp/app2/node_modules/lodash".to_string());

    let apps = linker.link_to_applications(vec![dep1, dep2], &dirs);

    assert_eq!(apps.len(), 2);
    assert!(apps.iter().any(|a| a.name == "app1"));
    assert!(apps.iter().any(|a| a.name == "app2"));
}

#[test]
fn test_no_application_root() {
    let dirs: Vec<DirectoryManifests> = vec![];

    let linker = ApplicationLinker::new();

    let mut dep = ClassifiedDependency::new("react".to_string(), Ecosystem::Node);
    dep.installed_path = Some("/tmp/orphan/node_modules/react".to_string());

    let apps = linker.link_to_applications(vec![dep], &dirs);

    assert_eq!(apps.len(), 0);
}

#[test]
fn test_nearest_ancestor_wins() {
    let dirs = vec![
        node_dir("/a", r#"{"name": "outer"}"#),
        node_dir("/a/b", r#"{"name": "inner"}"#),
    ];

    let linker = ApplicationLinker::new();
    let result = linker.find_application_root("/a/b/node_modules/x", &dirs);
    let (root, name, _) = result.unwrap();
    assert_eq!(root, "/a/b");
    assert_eq!(name, "inner");
}

#[test]
fn test_node_checked_before_python() {
    let dirs = vec![DirectoryManifests {
        directory: "/tmp/both".to_string(),
        package_json: Some(r#"{"name": "nodeapp"}"#.to_string()),
        pyproject_toml: Some("[project]\nname = \"pyapp\"\n".to_string()),
        cargo_toml: None,
    }];

    let linker = ApplicationLinker::new();
    let (_, name, eco) = linker
        .find_application_root("/tmp/both/node_modules/x", &dirs)
        .unwrap();
    assert_eq!(name, "nodeapp");
    assert_eq!(eco, Ecosystem::Node);
}

#[test]
fn test_unreadable_manifest_falls_through() {
    let dirs = vec![DirectoryManifests {
        directory: "/tmp/bad".to_string(),
        package_json: Some("not valid json".to_string()),
        pyproject_toml: Some("[project]\nname = \"fallback\"\n".to_string()),
        cargo_toml: None,
    }];

    let linker = ApplicationLinker::new();
    let (_, name, eco) = linker
        .find_application_root("/tmp/bad/node_modules/x", &dirs)
        .unwrap();
    assert_eq!(name, "fallback");
    assert_eq!(eco, Ecosystem::Python);
}

#[test]
fn test_linked_entities_carry_root_and_name() {
    let dirs = vec![node_dir("/tmp/myapp", r#"{"name": "myapp"}"#)];

    let linker = ApplicationLinker::new();
    let mut dep = ClassifiedDependency::new("react".to_string(), Ecosystem::Node);
    dep.installed_path = Some("/tmp/myapp/node_modules/react".to_string());

    let apps = linker.link_to_applications(vec![dep], &dirs);
    assert_eq!(apps.len(), 1);
    let linked = &apps[0].dependencies[0];
    assert_eq!(linked.application_root, Some("/tmp/myapp".to_string()));
    assert_eq!(linked.application_name, Some("myapp".to_string()));
}

#[test]
fn test_resolved_manifest_decides_app_ecosystem() {
    // the manifest that identified the root decides the application's
    // ecosystem and manifest filename, not the entity's own ecosystem: a
    // Python dependency installed under a Node project joins a Node app
    let dirs = vec![node_dir("/tmp/myapp", r#"{"name": "myapp"}"#)];

    let linker = ApplicationLinker::new();
    let mut dep = ClassifiedDependency::new("requests".to_string(), Ecosystem::Python);
    dep.installed_path = Some("/tmp/myapp/node_modules/requests".to_string());

    let apps = linker.link_to_applications(vec![dep], &dirs);
    assert_eq!(apps.len(), 1);
    assert_eq!(apps[0].ecosystem, Ecosystem::Node);
    assert_eq!(apps[0].manifest_path, "/tmp/myapp/package.json");
}
