//! Tests for scan-result aggregation: filtering, unique names, statistics
//! and sorting.

use scanner::models::dependency::{DependencyRecord, DependencyType, Ecosystem, FileType};
use scanner::models::scan_result::ScanResult;

fn record(name: &str, eco: Ecosystem, src: &str) -> DependencyRecord {
    DependencyRecord {
        name: name.to_string(),
        version: "1.0.0".to_string(),
        source_file: src.to_string(),
        dep_type: DependencyType::Runtime,
        ecosystem: eco,
        file_type: FileType::Manifest,
    }
}

#[test]
fn test_scan_result_add_and_count() {
    let mut result = ScanResult::new();
    assert_eq!(result.total_count(), 0);

    result.add(record("react", Ecosystem::Node, "a"));
    result.add_all(vec![
        record("requests", Ecosystem::Python, "b"),
        record("serde", Ecosystem::Rust, "c"),
    ]);

    assert_eq!(result.total_count(), 3);
}

#[test]
fn test_scan_result_by_ecosystem() {
    let mut result = ScanResult::new();
    result.add(record("react", Ecosystem::Node, "a"));
    result.add(record("requests", Ecosystem::Python, "b"));
    result.add(record("lodash", Ecosystem::Node, "c"));

    let node = result.by_ecosystem(Ecosystem::Node);
    assert_eq!(node.len(), 2);
    assert_eq!(node[0].name, "react");
    assert_eq!(node[1].name, "lodash");
    assert_eq!(result.by_ecosystem(Ecosystem::Rust).len(), 0);
}

#[test]
fn test_scan_result_by_package() {
    let mut result = ScanResult::new();
    result.add(record("react", Ecosystem::Node, "a"));
    result.add(record("react", Ecosystem::Node, "b"));
    result.add(record("lodash", Ecosystem::Node, "c"));

    assert_eq!(result.by_package("react").len(), 2);
    assert_eq!(result.by_package("lodash").len(), 1);
    assert_eq!(result.by_package("missing").len(), 0);
}

#[test]
fn test_scan_result_unique_packages() {
    let mut result = ScanResult::new();
    result.add(record("zeta", Ecosystem::Node, "a"));
    result.add(record("alpha", Ecosystem::Node, "b"));
    result.add(record("zeta", Ecosystem::Node, "c"));

    let unique = result.unique_packages();
    assert_eq!(unique, vec!["alpha".to_string(), "zeta".to_string()]);
}

#[test]
fn test_scan_result_ecosystem_stats() {
    let mut result = ScanResult::new();
    result.add(record("react", Ecosystem::Node, "a"));
    result.add(record("lodash", Ecosystem::Node, "b"));
    result.add(record("serde", Ecosystem::Rust, "c"));

    let stats = result.ecosystem_stats();
    assert_eq!(stats.len(), 2);
    assert!(stats.contains(&(Ecosystem::Node, 2)));
    assert!(stats.contains(&(Ecosystem::Rust, 1)));
}

#[test]
fn test_scan_result_sort() {
    let mut result = ScanResult::new();
    result.add(record("serde", Ecosystem::Rust, "z"));
    result.add(record("zeta", Ecosystem::Node, "y"));
    result.add(record("alpha", Ecosystem::Node, "x"));
    result.add(record("alpha", Ecosystem::Node, "a"));

    result.sort();

    let names: Vec<&str> = result.dependencies.iter().map(|d| d.name.as_str()).collect();
    assert_eq!(names, vec!["alpha", "alpha", "zeta", "serde"]);
    assert_eq!(result.dependencies[0].source_file, "a");
    assert_eq!(result.dependencies[1].source_file, "x");
}
