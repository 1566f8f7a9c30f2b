//! Tests for the infected-package filter: matching, statuses, loading, and
//! priority sorting.

use scanner::analyzer::vuln_filter::{InfectedPackage, InfectedPackageFilter, SecurityStatus};
use scanner::models::classification::{Classification, ClassifiedDependency};
use scanner::models::dependency::Ecosystem;

#[test]
fn test_infected_package_single_version() {
    let versions = vec!["0.2.1".to_string()];
    let infected = InfectedPackage::new("webpack-loader-httpfile".to_string(), versions);

    let mut dep = ClassifiedDependency::new("webpack-loader-httpfile".to_string(), Ecosystem::Node);
    dep.add_classification(
        Classification::Has,
        "0.2.1".to_string(),
        "/app/node_modules/webpack-loader-httpfile".to_string(),
    );

    assert!(infected.matches(&dep));
}

#[test]
fn test_infected_package_multiple_versions() {
    let versions = vec!["1.0.3".to_string(), "1.0.2".to_string(), "1.0.1".to_string()];
    let infected = InfectedPackage::new("zapier-async-storage".to_string(), versions);

    let mut dep = ClassifiedDependency::new("zapier-async-storage".to_string(), Ecosystem::Node);
    dep.add_classification(
        Classification::Has,
        "1.0.2".to_string(),
        "/app/node_modules/zapier-async-storage".to_string(),
    );

    assert!(infected.matches(&dep));
}

#[test]
fn test_no_match_different_version() {
    let versions = vec!["1.0.3".to_string()];
    let infected = InfectedPackage::new("zapier-async-storage".to_string(), versions);

    let mut dep = ClassifiedDependency::new("zapier-async-storage".to_string(), Ecosystem::Node);
    dep.add_classification(
        Classification::Has,
        "1.0.4".to_string(),
        "/app/node_modules/zapier-async-storage".to_string(),
    );

    assert!(!infected.matches(&dep));
}

#[test]
fn test_load_from_csv() {
    let content = "webpack-loader-httpfile,0.2.1\n\
                   wellness-expert-ng-gallery,5.1.1\n\
                   zapier-async-storage,1.0.3 | 1.0.2 | 1.0.1\n\
                   # comment\n\
                   \n\
                   zapier-platform-cli,18.0.4 | 18.0.3 | 18.0.2\n";

    let mut filter = InfectedPackageFilter::new();
    filter.load_from_text(content, "infected.csv").unwrap();

    assert_eq!(filter.count(), 4);
}

#[test]
fn test_load_from_text_missing_comma_is_fatal() {
    let content = "good-name,1.0.0\nbad-line-without-comma\nother,2.0.0\n";

    let mut filter = InfectedPackageFilter::new();
    let err = filter.load_from_text(content, "infected.csv");
    assert!(err.is_err());
    match err.unwrap_err() {
        scanner::models::error::ScanError::InvalidCsvLine { file, line } => {
            assert_eq!(file, "infected.csv");
            assert_eq!(line, 2);
        }
        other => panic!("unexpected error: {:?}", other),
    }
    // the entry before the bad line is already loaded
    assert_eq!(filter.count(), 1);
}

#[test]
fn test_load_from_text_duplicate_names_collapse() {
    let content = "pkg,1.0.0\npkg,2.0.0\n";

    let mut filter = InfectedPackageFilter::new();
    filter.load_from_text(content, "infected.csv").unwrap();

    assert_eq!(filter.count(), 1);
}

#[test]
fn test_filter() {
    let mut filter = InfectedPackageFilter::new();
    filter.add_infected_package(InfectedPackage::new(
        "webpack-loader-httpfile".to_string(),
        vec!["0.2.1".to_string()],
    ));

    let mut dep1 = ClassifiedDependency::new("webpack-loader-httpfile".to_string(), Ecosystem::Node);
    dep1.add_classification(
        Classification::Has,
        "0.2.1".to_string(),
        "/app/node_modules/webpack-loader-httpfile".to_string(),
    );

    let mut dep2 = ClassifiedDependency::new("lodash".to_string(), Ecosystem::Node);
    dep2.add_classification(
        Classification::Has,
        "4.17.21".to_string(),
        "/app/node_modules/lodash".to_string(),
    );

    let filtered = filter.filter(vec![dep1, dep2]);

    assert_eq!(filtered.len(), 1);
    assert_eq!(filtered[0].name, "webpack-loader-httpfile");
}

#[test]
fn test_security_status_none() {
    let filter = InfectedPackageFilter::new();

    let mut dep = ClassifiedDependency::new("react".to_string(), Ecosystem::Node);
    dep.add_classification(
        Classification::Has,
        "18.2.0".to_string(),
        "/app/node_modules/react".to_string(),
    );

    assert_eq!(filter.get_security_status(&dep), SecurityStatus::NotListed);
    assert_eq!(filter.get_security_status(&dep).as_str(), "NONE");
}

#[test]
fn test_security_status_match_package() {
    let mut filter = InfectedPackageFilter::new();
    filter.add_infected_package(InfectedPackage::new(
        "zapier-async-storage".to_string(),
        vec!["1.0.1".to_string()],
    ));

    let mut dep = ClassifiedDependency::new("zapier-async-storage".to_string(), Ecosystem::Node);
    dep.add_classification(
        Classification::Has,
        "1.0.4".to_string(),
        "/app/node_modules/zapier-async-storage".to_string(),
    );

    assert_eq!(
        filter.get_security_status(&dep),
        SecurityStatus::MatchPackage
    );
}

#[test]
fn test_security_status_match_version_semver() {
    let mut filter = InfectedPackageFilter::new();
    filter.add_infected_package(InfectedPackage::new(
        "zapier-async-storage".to_string(),
        vec!["1.0.1".to_string()],
    ));

    let mut dep = ClassifiedDependency::new("zapier-async-storage".to_string(), Ecosystem::Node);
    dep.add_classification(
        Classification::Can,
        "^1.0.0".to_string(),
        "/app/package.json".to_string(),
    );

    assert_eq!(
        filter.get_security_status(&dep),
        SecurityStatus::MatchVersion
    );
}

#[test]
fn test_security_status_infected() {
    let mut filter = InfectedPackageFilter::new();
    filter.add_infected_package(InfectedPackage::new(
        "zapier-async-storage".to_string(),
        vec!["1.0.1".to_string()],
    ));

    let mut dep = ClassifiedDependency::new("zapier-async-storage".to_string(), Ecosystem::Node);
    dep.add_classification(
        Classification::Has,
        "1.0.1".to_string(),
        "/app/node_modules/zapier-async-storage".to_string(),
    );

    assert_eq!(filter.get_security_status(&dep), SecurityStatus::Infected);
}

#[test]
fn test_filter_and_sort_by_priority() {
    let mut filter = InfectedPackageFilter::new();
    filter.add_infected_package(InfectedPackage::new(
        "react".to_string(),
        vec!["18.2.0".to_string()],
    ));

    let mut dep_has = ClassifiedDependency::new("react".to_string(), Ecosystem::Node);
    dep_has.add_classification(
        Classification::Has,
        "18.2.0".to_string(),
        "/app/node_modules/react".to_string(),
    );

    let mut dep_should = ClassifiedDependency::new("react".to_string(), Ecosystem::Node);
    dep_should.add_classification(
        Classification::Should,
        "18.2.0".to_string(),
        "/app/package-lock.json".to_string(),
    );

    let sorted = filter.filter_and_sort(vec![dep_should, dep_has]);

    assert_eq!(sorted.len(), 2);
    assert!(sorted[0].has_classification(Classification::Has));
    assert!(sorted[1].has_classification(Classification::Should));
}

#[test]
fn test_filter_and_sort_ties_by_name() {
    let mut filter = InfectedPackageFilter::new();
    filter.add_infected_package(InfectedPackage::new("aaa".to_string(), vec![]));
    filter.add_infected_package(InfectedPackage::new("bbb".to_string(), vec![]));
    filter.add_infected_package(InfectedPackage::new("ccc".to_string(), vec![]));

    let mut has_b = ClassifiedDependency::new("bbb".to_string(), Ecosystem::Node);
    has_b.add_classification(
        Classification::Has,
        "1.0.0".to_string(),
        "/m/bbb".to_string(),
    );
    let mut has_a = ClassifiedDependency::new("aaa".to_string(), Ecosystem::Node);
    has_a.add_classification(
        Classification::Has,
        "1.0.0".to_string(),
        "/m/aaa".to_string(),
    );
    let mut should_c = ClassifiedDependency::new("ccc".to_string(), Ecosystem::Node);
    should_c.add_classification(
        Classification::Should,
        "1.0.0".to_string(),
        "/m/lock".to_string(),
    );

    let sorted = filter.filter_and_sort(vec![should_c, has_b, has_a]);

    assert_eq!(sorted.len(), 3);
    assert_eq!(sorted[0].name, "aaa");
    assert_eq!(sorted[1].name, "bbb");
    assert_eq!(sorted[2].name, "ccc");
    assert!(sorted[2].has_classification(Classification::Should));
}

#[test]
fn test_filter_and_sort_is_stable() {
    // two instances of the same infected package, equal in priority and
    // name, keep their input order
    let mut filter = InfectedPackageFilter::new();
    filter.add_infected_package(InfectedPackage::new(
        "left-pad".to_string(),
        vec!["1.0.0".to_string()],
    ));

    let mut first = ClassifiedDependency::new("left-pad".to_string(), Ecosystem::Node);
    first.add_classification(
        Classification::Has,
        "1.0.0".to_string(),
        "/a/node_modules/left-pad".to_string(),
    );
    first.installed_path = Some("/a/node_modules/left-pad".to_string());

    let mut second = ClassifiedDependency::new("left-pad".to_string(), Ecosystem::Node);
    second.add_classification(
        Classification::Has,
        "1.0.0".to_string(),
        "/b/node_modules/left-pad".to_string(),
    );
    second.installed_path = Some("/b/node_modules/left-pad".to_string());

    let sorted = filter.filter_and_sort(vec![first, second]);

    assert_eq!(sorted.len(), 2);
    assert_eq!(
        sorted[0].installed_path,
        Some("/a/node_modules/left-pad".to_string())
    );
    assert_eq!(
        sorted[1].installed_path,
        Some("/b/node_modules/left-pad".to_string())
    );
}

#[test]
fn test_wildcard_infected_entry() {
    let mut filter = InfectedPackageFilter::new();
    filter.add_infected_package(InfectedPackage::new("anyver".to_string(), vec![]));

    let mut dep = ClassifiedDependency::new("anyver".to_string(), Ecosystem::Node);
    dep.add_classification(
        Classification::Has,
        "9.9.9".to_string(),
        "/m/anyver".to_string(),
    );

    assert_eq!(filter.get_security_status(&dep), SecurityStatus::Infected);
    assert!(filter.is_infected(&dep));
}

#[test]
fn test_should_version_hit_is_infected() {
    let mut filter = InfectedPackageFilter::new();
    filter.add_infected_package(InfectedPackage::new(
        "pkg".to_string(),
        vec!["2.0.0".to_string()],
    ));

    let mut dep = ClassifiedDependency::new("pkg".to_string(), Ecosystem::Node);
    dep.add_classification(
        Classification::Should,
        "2.0.0".to_string(),
        "/m/lock".to_string(),
    );

    assert_eq!(filter.get_security_status(&dep), SecurityStatus::Infected);
}

#[test]
fn test_get_matched_version() {
    let infected = InfectedPackage::new("pkg".to_string(), vec!["2.0.0".to_string()]);

    let mut dep = ClassifiedDependency::new("pkg".to_string(), Ecosystem::Node);
    dep.add_classification(
        Classification::Has,
        "2.0.0".to_string(),
        "/m/pkg".to_string(),
    );
    assert_eq!(infected.get_matched_version(&dep), Some("2.0.0".to_string()));

    let mut other = ClassifiedDependency::new("pkg".to_string(), Ecosystem::Node);
    other.add_classification(
        Classification::Has,
        "3.0.0".to_string(),
        "/m/pkg".to_string(),
    );
    assert_eq!(infected.get_matched_version(&other), None);
}

#[test]
fn test_status_priorities() {
    assert_eq!(SecurityStatus::Infected.priority(), 0);
    assert_eq!(SecurityStatus::MatchVersion.priority(), 1);
    assert_eq!(SecurityStatus::MatchPackage.priority(), 2);
    assert_eq!(SecurityStatus::NotListed.priority(), 3);
    assert_eq!(SecurityStatus::Infected.as_str(), "INFECTED");
    assert_eq!(SecurityStatus::MatchVersion.as_str(), "MATCH_VERSION");
    assert_eq!(SecurityStatus::MatchPackage.as_str(), "MATCH_PACKAGE");
}
