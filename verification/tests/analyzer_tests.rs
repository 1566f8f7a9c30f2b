//! Tests for the classifier and the tree builder.

use scanner::analyzer::classifier::Classifier;
use scanner::analyzer::tree_builder::TreeBuilder;
use scanner::models::application::Application;
use scanner::models::classification::{Classification, ClassifiedDependency};
use scanner::models::dependency::{DependencyRecord, DependencyType, Ecosystem, FileType};
use scanner::models::installed_package::InstalledPackage;

#[test]
fn test_classify_has_only() {
    let classifier = Classifier::new();

    let installed = vec![InstalledPackage::new(
        "react".to_string(),
        "18.2.0".to_string(),
        "/app/node_modules/react".to_string(),
        Ecosystem::Node,
    )];

    let classified = classifier.classify(vec![], installed);

    assert_eq!(classified.len(), 1);
    assert_eq!(classified[0].name, "react");
    assert!(classified[0].has_classification(Classification::Has));
    assert!(!classified[0].has_classification(Classification::Should));
    assert!(!classified[0].has_classification(Classification::Can));
    assert_eq!(
        classified[0].get_version(Classification::Has),
        Some("18.2.0")
    );
}

#[test]
fn test_classify_primary_version_is_installed() {
    let classifier = Classifier::new();

    let installed = vec![InstalledPackage::new(
        "react".to_string(),
        "18.2.0".to_string(),
        "/app/node_modules/react".to_string(),
        Ecosystem::Node,
    )];

    let classified = classifier.classify(vec![], installed);

    assert_eq!(classified.len(), 1);
    assert_eq!(classified[0].get_primary_version(), Some("18.2.0"));
}

#[test]
fn test_classify_should_only() {
    let classifier = Classifier::new();

    let records = vec![DependencyRecord {
        name: "react".to_string(),
        version: "18.2.0".to_string(),
        source_file: "/app/package-lock.json".to_string(),
        dep_type: DependencyType::Runtime,
        ecosystem: Ecosystem::Node,
        file_type: FileType::Lockfile,
    }];

    let classified = classifier.classify(records, vec![]);

    assert_eq!(classified.len(), 1);
    assert!(!classified[0].has_classification(Classification::Has));
    assert!(classified[0].has_classification(Classification::Should));
    assert!(!classified[0].has_classification(Classification::Can));
    assert_eq!(
        classified[0].get_version(Classification::Should),
        Some("18.2.0")
    );
}

#[test]
fn test_classify_can_only() {
    let classifier = Classifier::new();

    let records = vec![DependencyRecord {
        name: "react".to_string(),
        version: "^18.0.0".to_string(),
        source_file: "/app/package.json".to_string(),
        dep_type: DependencyType::Runtime,
        ecosystem: Ecosystem::Node,
        file_type: FileType::Manifest,
    }];

    let classified = classifier.classify(records, vec![]);

    assert_eq!(classified.len(), 1);
    assert!(!classified[0].has_classification(Classification::Has));
    assert!(!classified[0].has_classification(Classification::Should));
    assert!(classified[0].has_classification(Classification::Can));
    assert_eq!(
        classified[0].get_version(Classification::Can),
        Some("^18.0.0")
    );
}

#[test]
fn test_classify_all_three() {
    let classifier = Classifier::new();

    let installed = vec![InstalledPackage::new(
        "react".to_string(),
        "18.2.0".to_string(),
        "/app/node_modules/react".to_string(),
        Ecosystem::Node,
    )];

    let records = vec![
        DependencyRecord {
            name: "react".to_string(),
            version: "18.2.0".to_string(),
            source_file: "/app/package-lock.json".to_string(),
            dep_type: DependencyType::Runtime,
            ecosystem: Ecosystem::Node,
            file_type: FileType::Lockfile,
        },
        DependencyRecord {
            name: "react".to_string(),
            version: "^18.0.0".to_string(),
            source_file: "/app/package.json".to_string(),
            dep_type: DependencyType::Runtime,
            ecosystem: Ecosystem::Node,
            file_type: FileType::Manifest,
        },
    ];

    let classified = classifier.classify(records, installed);

    assert_eq!(classified.len(), 3);

    let has_dep = classified
        .iter()
        .find(|d| d.has_classification(Classification::Has))
        .unwrap();
    let should_dep = classified
        .iter()
        .find(|d| d.has_classification(Classification::Should))
        .unwrap();
    let can_dep = classified
        .iter()
        .find(|d| d.has_classification(Classification::Can))
        .unwrap();

    assert_eq!(has_dep.get_version(Classification::Has), Some("18.2.0"));
    assert_eq!(
        should_dep.get_version(Classification::Should),
        Some("18.2.0")
    );
    assert_eq!(can_dep.get_version(Classification::Can), Some("^18.0.0"));
}

#[test]
fn test_classify_multiple_packages() {
    let classifier = Classifier::new();

    let installed = vec![
        InstalledPackage::new(
            "react".to_string(),
            "18.2.0".to_string(),
            "/app/node_modules/react".to_string(),
            Ecosystem::Node,
        ),
        InstalledPackage::new(
            "lodash".to_string(),
            "4.17.21".to_string(),
            "/app/node_modules/lodash".to_string(),
            Ecosystem::Node,
        ),
    ];

    let classified = classifier.classify(vec![], installed);

    assert_eq!(classified.len(), 2);
    assert!(classified.iter().any(|d| d.name == "react"));
    assert!(classified.iter().any(|d| d.name == "lodash"));
}

#[test]
fn test_classify_different_ecosystems() {
    let classifier = Classifier::new();

    let installed = vec![
        InstalledPackage::new(
            "react".to_string(),
            "18.2.0".to_string(),
            "/app/node_modules/react".to_string(),
            Ecosystem::Node,
        ),
        InstalledPackage::new(
            "requests".to_string(),
            "2.31.0".to_string(),
            "/app/site-packages/requests".to_string(),
            Ecosystem::Python,
        ),
    ];

    let classified = classifier.classify(vec![], installed);

    assert_eq!(classified.len(), 2);
    let react = classified.iter().find(|d| d.name == "react").unwrap();
    assert_eq!(react.ecosystem, Ecosystem::Node);
    let requests = classified.iter().find(|d| d.name == "requests").unwrap();
    assert_eq!(requests.ecosystem, Ecosystem::Python);
}

#[test]
fn test_classify_stores_dependencies() {
    let classifier = Classifier::new();

    let mut pkg = InstalledPackage::new(
        "react".to_string(),
        "18.2.0".to_string(),
        "/app/node_modules/react".to_string(),
        Ecosystem::Node,
    );
    pkg.add_dependency("loose-envify".to_string(), "^1.1.0".to_string());
    pkg.add_dependency("scheduler".to_string(), "^0.23.0".to_string());

    let classified = classifier.classify(vec![], vec![pkg]);

    assert_eq!(classified.len(), 1);
    assert_eq!(classified[0].dependencies.len(), 2);
    assert!(classified[0]
        .dependencies
        .contains(&"loose-envify".to_string()));
    assert!(classified[0]
        .dependencies
        .contains(&"scheduler".to_string()));
}

#[test]
fn test_classify_no_deduplication() {
    let classifier = Classifier::new();

    let installed = vec![
        InstalledPackage::new(
            "react".to_string(),
            "18.2.0".to_string(),
            "/app1/node_modules/react".to_string(),
            Ecosystem::Node,
        ),
        InstalledPackage::new(
            "react".to_string(),
            "18.2.0".to_string(),
            "/app2/node_modules/react".to_string(),
            Ecosystem::Node,
        ),
    ];

    let classified = classifier.classify(vec![], installed);

    assert_eq!(classified.len(), 2);
    assert_eq!(classified[0].name, "react");
    assert_eq!(classified[1].name, "react");

    let paths: Vec<_> = classified
        .iter()
        .filter_map(|d| d.installed_path.as_ref())
        .collect();
    assert_eq!(paths.len(), 2);
    assert!(paths.contains(&&"/app1/node_modules/react".to_string()));
    assert!(paths.contains(&&"/app2/node_modules/react".to_string()));
}

#[test]
fn test_build_simple_tree() {
    let mut app = Application::new(
        "myapp".to_string(),
        "/app".to_string(),
        "/app/package.json".to_string(),
        Ecosystem::Node,
    );

    let mut dep = ClassifiedDependency::new("react".to_string(), Ecosystem::Node);
    dep.add_classification(
        Classification::Has,
        "18.2.0".to_string(),
        "/app/node_modules/react".to_string(),
    );

    app.add_dependency(dep);

    let builder = TreeBuilder::new();
    let tree = builder.build_tree(app);

    assert_eq!(tree.application.name, "myapp");
    assert_eq!(tree.roots.len(), 1);
    assert_eq!(tree.roots[0].name, "react");
    assert_eq!(tree.roots[0].version, "18.2.0");
    assert!(tree.roots[0].is_direct);
}

#[test]
fn test_build_tree_with_transitive_deps() {
    let mut app = Application::new(
        "myapp".to_string(),
        "/app".to_string(),
        "/app/package.json".to_string(),
        Ecosystem::Node,
    );

    let mut react = ClassifiedDependency::new("react".to_string(), Ecosystem::Node);
    react.add_classification(
        Classification::Has,
        "18.2.0".to_string(),
        "/app/node_modules/react".to_string(),
    );
    react.dependencies.push("loose-envify".to_string());

    let mut loose_envify = ClassifiedDependency::new("loose-envify".to_string(), Ecosystem::Node);
    loose_envify.add_classification(
        Classification::Has,
        "1.4.0".to_string(),
        "/app/node_modules/loose-envify".to_string(),
    );

    app.add_dependency(react);
    app.add_dependency(loose_envify);

    let builder = TreeBuilder::new();
    let tree = builder.build_tree(app);

    assert_eq!(tree.roots.len(), 2);

    let react_node = tree.roots.iter().find(|n| n.name == "react").unwrap();
    assert_eq!(react_node.dependencies.len(), 1);
    assert_eq!(react_node.dependencies[0].name, "loose-envify");
    assert!(!react_node.dependencies[0].is_direct);
}

#[test]
fn test_build_tree_multiple_roots() {
    let mut app = Application::new(
        "myapp".to_string(),
        "/app".to_string(),
        "/app/package.json".to_string(),
        Ecosystem::Node,
    );

    let mut react = ClassifiedDependency::new("react".to_string(), Ecosystem::Node);
    react.add_classification(
        Classification::Has,
        "18.2.0".to_string(),
        "/app/node_modules/react".to_string(),
    );

    let mut lodash = ClassifiedDependency::new("lodash".to_string(), Ecosystem::Node);
    lodash.add_classification(
        Classification::Has,
        "4.17.21".to_string(),
        "/app/node_modules/lodash".to_string(),
    );

    app.add_dependency(react);
    app.add_dependency(lodash);

    let builder = TreeBuilder::new();
    let tree = builder.build_tree(app);

    assert_eq!(tree.roots.len(), 2);
    assert!(tree.roots.iter().any(|n| n.name == "react"));
    assert!(tree.roots.iter().any(|n| n.name == "lodash"));
}

#[test]
fn test_circular_dependency_detection() {
    let mut app = Application::new(
        "myapp".to_string(),
        "/app".to_string(),
        "/app/package.json".to_string(),
        Ecosystem::Node,
    );

    let mut dep_a = ClassifiedDependency::new("pkg-a".to_string(), Ecosystem::Node);
    dep_a.add_classification(
        Classification::Has,
        "1.0.0".to_string(),
        "/app/node_modules/pkg-a".to_string(),
    );
    dep_a.dependencies.push("pkg-b".to_string());

    let mut dep_b = ClassifiedDependency::new("pkg-b".to_string(), Ecosystem::Node);
    dep_b.add_classification(
        Classification::Has,
        "1.0.0".to_string(),
        "/app/node_modules/pkg-b".to_string(),
    );
    dep_b.dependencies.push("pkg-a".to_string());

    app.add_dependency(dep_a);
    app.add_dependency(dep_b);

    let builder = TreeBuilder::new();
    let tree = builder.build_tree(app);

    assert_eq!(tree.roots.len(), 2);
}

#[test]
fn test_build_trees_multiple_apps() {
    let mut app1 = Application::new(
        "app1".to_string(),
        "/app1".to_string(),
        "/app1/package.json".to_string(),
        Ecosystem::Node,
    );

    let mut dep1 = ClassifiedDependency::new("react".to_string(), Ecosystem::Node);
    dep1.add_classification(
        Classification::Has,
        "18.2.0".to_string(),
        "/app1/node_modules/react".to_string(),
    );
    app1.add_dependency(dep1);

    let mut app2 = Application::new(
        "app2".to_string(),
        "/app2".to_string(),
        "/app2/package.json".to_string(),
        Ecosystem::Node,
    );

    let mut dep2 = ClassifiedDependency::new("lodash".to_string(), Ecosystem::Node);
    dep2.add_classification(
        Classification::Has,
        "4.17.21".to_string(),
        "/app2/node_modules/lodash".to_string(),
    );
    app2.add_dependency(dep2);

    let builder = TreeBuilder::new();
    let trees = builder.build_trees(vec![app1, app2]);

    assert_eq!(trees.len(), 2);
    assert_eq!(trees[0].application.name, "app1");
    assert_eq!(trees[1].application.name, "app2");
}

#[test]
fn test_only_has_classification_in_tree() {
    let mut app = Application::new(
        "myapp".to_string(),
        "/app".to_string(),
        "/app/package.json".to_string(),
        Ecosystem::Node,
    );

    let mut dep = ClassifiedDependency::new("react".to_string(), Ecosystem::Node);
    dep.add_classification(
        Classification::Should,
        "18.2.0".to_string(),
        "/app/package-lock.json".to_string(),
    );

    app.add_dependency(dep);

    let builder = TreeBuilder::new();
    let tree = builder.build_tree(app);

    assert_eq!(tree.roots.len(), 0);
}

#[test]
fn test_cycle_breaking_keeps_subtrees() {
    let mut app = Application::new(
        "myapp".to_string(),
        "/app".to_string(),
        "/app/package.json".to_string(),
        Ecosystem::Node,
    );

    let mut dep_a = ClassifiedDependency::new("pkg-a".to_string(), Ecosystem::Node);
    dep_a.add_classification(
        Classification::Has,
        "1.0.0".to_string(),
        "/app/node_modules/pkg-a".to_string(),
    );
    dep_a.dependencies.push("pkg-b".to_string());

    let mut dep_b = ClassifiedDependency::new("pkg-b".to_string(), Ecosystem::Node);
    dep_b.add_classification(
        Classification::Has,
        "1.0.0".to_string(),
        "/app/node_modules/pkg-b".to_string(),
    );
    dep_b.dependencies.push("pkg-a".to_string());

    app.add_dependency(dep_a);
    app.add_dependency(dep_b);

    let builder = TreeBuilder::new();
    let tree = builder.build_tree(app);

    // each root descends one level into the cycle and then stops
    let a_root = tree.roots.iter().find(|n| n.name == "pkg-a").unwrap();
    assert_eq!(a_root.dependencies.len(), 1);
    assert_eq!(a_root.dependencies[0].name, "pkg-b");
    assert_eq!(a_root.dependencies[0].dependencies.len(), 0);
}

#[test]
fn test_shared_descendant_not_globally_blocked() {
    let mut app = Application::new(
        "myapp".to_string(),
        "/app".to_string(),
        "/app/package.json".to_string(),
        Ecosystem::Node,
    );

    let mut parent = ClassifiedDependency::new("parent".to_string(), Ecosystem::Node);
    parent.add_classification(
        Classification::Has,
        "1.0.0".to_string(),
        "/app/node_modules/parent".to_string(),
    );
    parent.dependencies.push("left".to_string());
    parent.dependencies.push("right".to_string());

    let mut left = ClassifiedDependency::new("left".to_string(), Ecosystem::Node);
    left.add_classification(
        Classification::Has,
        "1.0.0".to_string(),
        "/app/node_modules/left".to_string(),
    );
    left.dependencies.push("shared".to_string());

    let mut right = ClassifiedDependency::new("right".to_string(), Ecosystem::Node);
    right.add_classification(
        Classification::Has,
        "1.0.0".to_string(),
        "/app/node_modules/right".to_string(),
    );
    right.dependencies.push("shared".to_string());

    let mut shared = ClassifiedDependency::new("shared".to_string(), Ecosystem::Node);
    shared.add_classification(
        Classification::Has,
        "1.0.0".to_string(),
        "/app/node_modules/shared".to_string(),
    );

    app.add_dependency(parent);
    app.add_dependency(left);
    app.add_dependency(right);
    app.add_dependency(shared);

    let builder = TreeBuilder::new();
    let tree = builder.build_tree(app);

    let parent_node = tree.roots.iter().find(|n| n.name == "parent").unwrap();
    assert_eq!(parent_node.dependencies.len(), 2);
    assert_eq!(parent_node.dependencies[0].dependencies.len(), 1);
    assert_eq!(parent_node.dependencies[1].dependencies.len(), 1);
}

#[test]
fn test_classify_then_build_uses_primary_version() {
    // an entity with no classification at all becomes a node only as a child
    let mut app = Application::new(
        "myapp".to_string(),
        "/app".to_string(),
        "/app/package.json".to_string(),
        Ecosystem::Node,
    );

    let mut root = ClassifiedDependency::new("root".to_string(), Ecosystem::Node);
    root.add_classification(
        Classification::Has,
        "1.0.0".to_string(),
        "/app/node_modules/root".to_string(),
    );
    root.dependencies.push("bare".to_string());

    let bare = ClassifiedDependency::new("bare".to_string(), Ecosystem::Node);

    app.add_dependency(root);
    app.add_dependency(bare);

    let builder = TreeBuilder::new();
    let tree = builder.build_tree(app);

    assert_eq!(tree.roots.len(), 1);
    let root_node = &tree.roots[0];
    assert_eq!(root_node.dependencies.len(), 1);
    assert_eq!(root_node.dependencies[0].name, "bare");
    assert_eq!(root_node.dependencies[0].version, "unknown");
    assert_eq!(root_node.dependencies[0].classification, Classification::Can);
}
