//! Tests for the core data models: classifications, classified entities,
//! applications, installed packages, dependency trees and install
//! directories.

use scanner::models::classification::{Classification, ClassifiedDependency};
use scanner::models::application::Application;
use scanner::models::dependency::Ecosystem;
use scanner::models::dependency_tree::{DependencyNode, DependencyTree};
use scanner::models::installed_package::{DependencySpec, InstalledPackage};
use scanner::indexer::install_dirs::{InstallDir, InstallDirType};

#[test]
fn test_classification_display() {
    assert_eq!(Classification::Has.as_str(), "HAS");
    assert_eq!(Classification::Should.as_str(), "SHOULD");
    assert_eq!(Classification::Can.as_str(), "CAN");
}

#[test]
fn test_new_classified_dependency() {
    let dep = ClassifiedDependency::new("react".to_string(), Ecosystem::Node);
    assert_eq!(dep.name, "react");
    assert_eq!(dep.ecosystem, Ecosystem::Node);
    assert!(dep.get_classifications().is_empty());
    assert!(!dep.has_version_mismatch);
    assert!(!dep.has_constraint_violation);
}

#[test]
fn test_add_classification() {
    let mut dep = ClassifiedDependency::new("react".to_string(), Ecosystem::Node);
    dep.add_classification(
        Classification::Has,
        "18.2.0".to_string(),
        "/app/node_modules/react".to_string(),
    );

    assert!(dep.has_classification(Classification::Has));
    assert_eq!(dep.get_version(Classification::Has), Some("18.2.0"));
    assert_eq!(
        dep.get_source_file(Classification::Has),
        Some("/app/node_modules/react")
    );
}

#[test]
fn test_get_classifications_sorted() {
    let mut dep = ClassifiedDependency::new("react".to_string(), Ecosystem::Node);
    dep.add_classification(
        Classification::Can,
        "^18.0.0".to_string(),
        "/app/package.json".to_string(),
    );
    dep.add_classification(
        Classification::Has,
        "18.2.0".to_string(),
        "/app/node_modules/react".to_string(),
    );
    dep.add_classification(
        Classification::Should,
        "18.2.0".to_string(),
        "/app/package-lock.json".to_string(),
    );

    let classifications = dep.get_classifications();
    assert_eq!(classifications.len(), 3);
    assert_eq!(classifications[0], Classification::Has);
    assert_eq!(classifications[1], Classification::Should);
    assert_eq!(classifications[2], Classification::Can);
}

#[test]
fn test_primary_classification() {
    let mut dep = ClassifiedDependency::new("react".to_string(), Ecosystem::Node);
    assert_eq!(dep.primary_classification(), None);

    dep.add_classification(
        Classification::Should,
        "18.2.0".to_string(),
        "/app/package-lock.json".to_string(),
    );
    assert_eq!(dep.primary_classification(), Some(Classification::Should));

    dep.add_classification(
        Classification::Has,
        "18.2.0".to_string(),
        "/app/node_modules/react".to_string(),
    );
    assert_eq!(dep.primary_classification(), Some(Classification::Has));
}

#[test]
fn test_new_application() {
    let app = Application::new(
        "myapp".to_string(),
        "/home/user/myapp".to_string(),
        "/home/user/myapp/package.json".to_string(),
        Ecosystem::Node,
    );

    assert_eq!(app.name, "myapp");
    assert_eq!(app.root_path, "/home/user/myapp");
    assert_eq!(app.manifest_path, "/home/user/myapp/package.json");
    assert_eq!(app.ecosystem, Ecosystem::Node);
    assert_eq!(app.dependency_count(), 0);
}

#[test]
fn application_test_add_dependency() {
    let mut app = Application::new(
        "myapp".to_string(),
        "/home/user/myapp".to_string(),
        "/home/user/myapp/package.json".to_string(),
        Ecosystem::Node,
    );

    let mut dep = ClassifiedDependency::new("react".to_string(), Ecosystem::Node);
    dep.add_classification(
        Classification::Has,
        "18.2.0".to_string(),
        "/home/user/myapp/node_modules/react".to_string(),
    );

    app.add_dependency(dep);
    assert_eq!(app.dependency_count(), 1);
    assert!(app.has_dependency("react"));
}

#[test]
fn application_test_find_dependency() {
    let mut app = Application::new(
        "myapp".to_string(),
        "/home/user/myapp".to_string(),
        "/home/user/myapp/package.json".to_string(),
        Ecosystem::Node,
    );

    let mut dep = ClassifiedDependency::new("react".to_string(), Ecosystem::Node);
    dep.add_classification(
        Classification::Has,
        "18.2.0".to_string(),
        "/home/user/myapp/node_modules/react".to_string(),
    );

    app.add_dependency(dep);

    let found = app.find_dependency("react");
    assert!(found.is_some());
    assert_eq!(found.unwrap().name, "react");

    let not_found = app.find_dependency("lodash");
    assert!(not_found.is_none());
}

#[test]
fn test_find_dependency_mut() {
    let mut app = Application::new(
        "myapp".to_string(),
        "/home/user/myapp".to_string(),
        "/home/user/myapp/package.json".to_string(),
        Ecosystem::Node,
    );

    let dep = ClassifiedDependency::new("react".to_string(), Ecosystem::Node);
    app.add_dependency(dep);

    if let Some(i) = app.find_dependency_mut("react") {
        app.dependencies[i].add_classification(
            Classification::Should,
            "18.2.0".to_string(),
            "/home/user/myapp/package-lock.json".to_string(),
        );
    }

    let dep = app.find_dependency("react").unwrap();
    assert!(dep.has_classification(Classification::Should));
}

#[test]
fn application_test_get_dependencies() {
    let mut app = Application::new(
        "myapp".to_string(),
        "/home/user/myapp".to_string(),
        "/home/user/myapp/package.json".to_string(),
        Ecosystem::Node,
    );

    app.add_dependency(ClassifiedDependency::new(
        "react".to_string(),
        Ecosystem::Node,
    ));
    app.add_dependency(ClassifiedDependency::new(
        "lodash".to_string(),
        Ecosystem::Node,
    ));

    let deps = app.get_dependencies();
    assert_eq!(deps.len(), 2);
    assert_eq!(deps[0].name, "react");
    assert_eq!(deps[1].name, "lodash");
}

#[test]
fn test_dependency_spec_creation() {
    let spec = DependencySpec::new("react".to_string(), "^18.0.0".to_string());
    assert_eq!(spec.name, "react");
    assert_eq!(spec.version_constraint, "^18.0.0");
}

#[test]
fn test_installed_package_creation() {
    let pkg = InstalledPackage::new(
        "react".to_string(),
        "18.2.0".to_string(),
        "/app/node_modules/react".to_string(),
        Ecosystem::Node,
    );

    assert_eq!(pkg.name, "react");
    assert_eq!(pkg.version, "18.2.0");
    assert_eq!(pkg.path, "/app/node_modules/react");
    assert_eq!(pkg.ecosystem, Ecosystem::Node);
    assert_eq!(pkg.dependencies.len(), 0);
}

#[test]
fn installed_package_test_add_dependency() {
    let mut pkg = InstalledPackage::new(
        "react".to_string(),
        "18.2.0".to_string(),
        "/app/node_modules/react".to_string(),
        Ecosystem::Node,
    );

    pkg.add_dependency("loose-envify".to_string(), "^1.1.0".to_string());
    pkg.add_dependency("scheduler".to_string(), "^0.23.0".to_string());

    assert_eq!(pkg.dependencies.len(), 2);
    assert!(pkg.has_dependency("loose-envify"));
    assert!(pkg.has_dependency("scheduler"));
    assert!(!pkg.has_dependency("nonexistent"));
}

#[test]
fn installed_package_test_find_dependency() {
    let mut pkg = InstalledPackage::new(
        "react".to_string(),
        "18.2.0".to_string(),
        "/app/node_modules/react".to_string(),
        Ecosystem::Node,
    );

    pkg.add_dependency("loose-envify".to_string(), "^1.1.0".to_string());

    let dep = pkg.find_dependency("loose-envify");
    assert!(dep.is_some());
    assert_eq!(dep.unwrap().version_constraint, "^1.1.0");

    let not_found = pkg.find_dependency("nonexistent");
    assert!(not_found.is_none());
}

#[test]
fn installed_package_test_get_dependencies() {
    let mut pkg = InstalledPackage::new(
        "react".to_string(),
        "18.2.0".to_string(),
        "/app/node_modules/react".to_string(),
        Ecosystem::Node,
    );

    pkg.add_dependency("loose-envify".to_string(), "^1.1.0".to_string());
    pkg.add_dependency("scheduler".to_string(), "^0.23.0".to_string());

    let deps = pkg.get_dependencies();
    assert_eq!(deps.len(), 2);
    assert_eq!(deps[0].name, "loose-envify");
    assert_eq!(deps[1].name, "scheduler");
}

#[test]
fn test_new_dependency_node() {
    let node = DependencyNode::new(
        "react".to_string(),
        "18.2.0".to_string(),
        Classification::Has,
        true,
    );

    assert_eq!(node.name, "react");
    assert_eq!(node.version, "18.2.0");
    assert_eq!(node.classification, Classification::Has);
    assert!(node.is_direct);
    assert_eq!(node.dependencies.len(), 0);
}

#[test]
fn dependency_tree_test_add_dependency() {
    let mut parent = DependencyNode::new(
        "react".to_string(),
        "18.2.0".to_string(),
        Classification::Has,
        true,
    );

    let child = DependencyNode::new(
        "loose-envify".to_string(),
        "1.4.0".to_string(),
        Classification::Has,
        false,
    );

    parent.add_dependency(child);
    assert_eq!(parent.dependencies.len(), 1);
    assert_eq!(parent.dependencies[0].name, "loose-envify");
}

#[test]
fn test_count_total_dependencies() {
    let mut parent = DependencyNode::new(
        "react".to_string(),
        "18.2.0".to_string(),
        Classification::Has,
        true,
    );

    let mut child1 = DependencyNode::new(
        "loose-envify".to_string(),
        "1.4.0".to_string(),
        Classification::Has,
        false,
    );

    let grandchild = DependencyNode::new(
        "js-tokens".to_string(),
        "4.0.0".to_string(),
        Classification::Has,
        false,
    );

    child1.add_dependency(grandchild);
    parent.add_dependency(child1);

    assert_eq!(parent.count_total_dependencies(), 2);
}

#[test]
fn dependency_tree_test_find_dependency() {
    let mut parent = DependencyNode::new(
        "react".to_string(),
        "18.2.0".to_string(),
        Classification::Has,
        true,
    );

    let child = DependencyNode::new(
        "loose-envify".to_string(),
        "1.4.0".to_string(),
        Classification::Has,
        false,
    );

    parent.add_dependency(child);

    assert!(parent.find_dependency("react").is_some());
    assert!(parent.find_dependency("loose-envify").is_some());
    assert!(parent.find_dependency("nonexistent").is_none());
}

#[test]
fn test_max_depth() {
    let mut parent = DependencyNode::new(
        "react".to_string(),
        "18.2.0".to_string(),
        Classification::Has,
        true,
    );

    let mut child = DependencyNode::new(
        "loose-envify".to_string(),
        "1.4.0".to_string(),
        Classification::Has,
        false,
    );

    let grandchild = DependencyNode::new(
        "js-tokens".to_string(),
        "4.0.0".to_string(),
        Classification::Has,
        false,
    );

    child.add_dependency(grandchild);
    parent.add_dependency(child);

    assert_eq!(parent.max_depth(), 2);
}

#[test]
fn test_new_dependency_tree() {
    let app = Application::new(
        "myapp".to_string(),
        "/home/user/myapp".to_string(),
        "/home/user/myapp/package.json".to_string(),
        Ecosystem::Node,
    );

    let tree = DependencyTree::new(app);
    assert_eq!(tree.application.name, "myapp");
    assert_eq!(tree.roots.len(), 0);
}

#[test]
fn test_add_root() {
    let app = Application::new(
        "myapp".to_string(),
        "/home/user/myapp".to_string(),
        "/home/user/myapp/package.json".to_string(),
        Ecosystem::Node,
    );

    let mut tree = DependencyTree::new(app);

    let node = DependencyNode::new(
        "react".to_string(),
        "18.2.0".to_string(),
        Classification::Has,
        true,
    );

    tree.add_root(node);
    assert_eq!(tree.roots.len(), 1);
    assert_eq!(tree.roots[0].name, "react");
}

#[test]
fn test_tree_count_total_dependencies() {
    let app = Application::new(
        "myapp".to_string(),
        "/home/user/myapp".to_string(),
        "/home/user/myapp/package.json".to_string(),
        Ecosystem::Node,
    );

    let mut tree = DependencyTree::new(app);

    let mut root1 = DependencyNode::new(
        "react".to_string(),
        "18.2.0".to_string(),
        Classification::Has,
        true,
    );

    let child = DependencyNode::new(
        "loose-envify".to_string(),
        "1.4.0".to_string(),
        Classification::Has,
        false,
    );

    root1.add_dependency(child);
    tree.add_root(root1);

    let root2 = DependencyNode::new(
        "lodash".to_string(),
        "4.17.21".to_string(),
        Classification::Has,
        true,
    );

    tree.add_root(root2);

    assert_eq!(tree.count_total_dependencies(), 3);
}

#[test]
fn test_tree_find_dependency() {
    let app = Application::new(
        "myapp".to_string(),
        "/home/user/myapp".to_string(),
        "/home/user/myapp/package.json".to_string(),
        Ecosystem::Node,
    );

    let mut tree = DependencyTree::new(app);

    let mut root = DependencyNode::new(
        "react".to_string(),
        "18.2.0".to_string(),
        Classification::Has,
        true,
    );

    let child = DependencyNode::new(
        "loose-envify".to_string(),
        "1.4.0".to_string(),
        Classification::Has,
        false,
    );

    root.add_dependency(child);
    tree.add_root(root);

    assert!(tree.find_dependency("react").is_some());
    assert!(tree.find_dependency("loose-envify").is_some());
    assert!(tree.find_dependency("nonexistent").is_none());
}

#[test]
fn test_tree_max_depth() {
    let app = Application::new(
        "myapp".to_string(),
        "/home/user/myapp".to_string(),
        "/home/user/myapp/package.json".to_string(),
        Ecosystem::Node,
    );

    let mut tree = DependencyTree::new(app);

    let mut root = DependencyNode::new(
        "react".to_string(),
        "18.2.0".to_string(),
        Classification::Has,
        true,
    );

    let mut child = DependencyNode::new(
        "loose-envify".to_string(),
        "1.4.0".to_string(),
        Classification::Has,
        false,
    );

    let grandchild = DependencyNode::new(
        "js-tokens".to_string(),
        "4.0.0".to_string(),
        Classification::Has,
        false,
    );

    child.add_dependency(grandchild);
    root.add_dependency(child);
    tree.add_root(root);

    assert_eq!(tree.max_depth(), 2);
}

#[test]
fn test_install_dir_creation() {
    let dir = InstallDir::new(
        "/app/node_modules".to_string(),
        InstallDirType::NodeModules,
        Ecosystem::Node,
    );

    assert_eq!(dir.path, "/app/node_modules");
    assert_eq!(dir.dir_type, InstallDirType::NodeModules);
    assert_eq!(dir.ecosystem, Ecosystem::Node);
    assert!(dir.venv_root.is_none());
}

#[test]
fn test_install_dir_with_venv_root() {
    let dir = InstallDir::new(
        "/app/.venv/lib/python3.11/site-packages".to_string(),
        InstallDirType::SitePackages,
        Ecosystem::Python,
    )
    .with_venv_root("/app/.venv".to_string());

    assert_eq!(dir.venv_root, Some("/app/.venv".to_string()));
}
