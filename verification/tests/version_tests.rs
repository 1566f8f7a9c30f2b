//! Tests for version matching across the three ecosystem grammars.

use scanner::analyzer::version_matcher::VersionMatcher;
use scanner::models::dependency::Ecosystem;

#[test]
fn test_exact_match() {
    let matcher = VersionMatcher::new();
    assert!(matcher.exact_match("18.2.0", "18.2.0"));
    assert!(matcher.exact_match(" 18.2.0 ", "18.2.0"));
    assert!(!matcher.exact_match("18.2.0", "18.2.1"));
    assert!(!matcher.exact_match("18.2.0", "18.3.0"));
}

#[test]
fn test_detect_version_mismatch() {
    let matcher = VersionMatcher::new();
    assert!(!matcher.detect_version_mismatch("18.2.0", "18.2.0"));
    assert!(matcher.detect_version_mismatch("18.2.0", "18.2.1"));
    assert!(matcher.detect_version_mismatch("18.2.0", "17.0.0"));
}

#[test]
fn test_satisfies_range_node() {
    let matcher = VersionMatcher::new();

    assert!(matcher
        .satisfies_range("18.2.0", "^18.0.0", Ecosystem::Node)
        .unwrap());
    assert!(!matcher
        .satisfies_range("17.0.0", "^18.0.0", Ecosystem::Node)
        .unwrap());

    assert!(matcher
        .satisfies_range("1.2.3", "~1.2.0", Ecosystem::Node)
        .unwrap());
    assert!(!matcher
        .satisfies_range("1.3.0", "~1.2.0", Ecosystem::Node)
        .unwrap());

    assert!(matcher
        .satisfies_range("1.2.3", "1.2.3", Ecosystem::Node)
        .unwrap());
    assert!(!matcher
        .satisfies_range("1.2.4", "1.2.3", Ecosystem::Node)
        .unwrap());
}

#[test]
fn test_satisfies_range_python() {
    let matcher = VersionMatcher::new();

    assert!(matcher
        .satisfies_range("2.31.0", ">=2.0.0", Ecosystem::Python)
        .unwrap());
    assert!(!matcher
        .satisfies_range("1.9.0", ">=2.0.0", Ecosystem::Python)
        .unwrap());

    assert!(matcher
        .satisfies_range("2.31.0", "~=2.30", Ecosystem::Python)
        .unwrap());
}

#[test]
fn test_satisfies_range_rust() {
    let matcher = VersionMatcher::new();

    assert!(matcher
        .satisfies_range("1.2.3", "^1.2.0", Ecosystem::Rust)
        .unwrap());
    assert!(!matcher
        .satisfies_range("2.0.0", "^1.2.0", Ecosystem::Rust)
        .unwrap());
}

#[test]
fn test_detect_constraint_violation() {
    let matcher = VersionMatcher::new();

    assert!(!matcher.detect_constraint_violation("18.2.0", "^18.0.0", Ecosystem::Node));

    assert!(matcher.detect_constraint_violation("17.0.0", "^18.0.0", Ecosystem::Node));
}

#[test]
fn test_caret_range_boundaries() {
    let matcher = VersionMatcher::new();
    for eco in [Ecosystem::Node, Ecosystem::Rust] {
        assert!(matcher.satisfies_range("1.2.3", "^1.2.3", eco).unwrap());
        assert!(matcher.satisfies_range("1.2.9", "^1.2.3", eco).unwrap());
        assert!(matcher.satisfies_range("1.9.0", "^1.2.3", eco).unwrap());
        assert!(!matcher.satisfies_range("1.2.2", "^1.2.3", eco).unwrap());
        assert!(!matcher.satisfies_range("2.0.0", "^1.2.3", eco).unwrap());
    }
}

#[test]
fn test_tilde_range_boundaries() {
    let matcher = VersionMatcher::new();
    for eco in [Ecosystem::Node, Ecosystem::Rust] {
        assert!(matcher.satisfies_range("1.2.3", "~1.2.3", eco).unwrap());
        assert!(matcher.satisfies_range("1.2.9", "~1.2.3", eco).unwrap());
        assert!(!matcher.satisfies_range("1.3.0", "~1.2.3", eco).unwrap());
        assert!(!matcher.satisfies_range("1.2.2", "~1.2.3", eco).unwrap());
    }
}

#[test]
fn test_reflexive_exact_constraints() {
    let matcher = VersionMatcher::new();
    for eco in [Ecosystem::Node, Ecosystem::Python, Ecosystem::Rust] {
        assert!(matcher.satisfies_range("1.2.3", "1.2.3", eco).unwrap());
        assert!(matcher.satisfies_range("0.0.1", "0.0.1", eco).unwrap());
        assert!(matcher
            .satisfies_range("not-a-version", "not-a-version", eco)
            .unwrap());
    }
}

#[test]
fn test_wildcard_ranges() {
    let matcher = VersionMatcher::new();
    assert!(matcher.satisfies_range("5.6.7", "*", Ecosystem::Node).unwrap());
    assert!(matcher.satisfies_range("5.6.7", "x", Ecosystem::Node).unwrap());
    assert!(matcher.satisfies_range("5.6.7", "X", Ecosystem::Node).unwrap());
    assert!(matcher.satisfies_range("5.6.7", "*", Ecosystem::Rust).unwrap());
}

#[test]
fn test_rust_bare_requirement_is_caret() {
    let matcher = VersionMatcher::new();
    assert!(matcher
        .satisfies_range("1.4.0", "1.2.0", Ecosystem::Rust)
        .unwrap());
    assert!(!matcher
        .satisfies_range("2.0.0", "1.2.0", Ecosystem::Rust)
        .unwrap());
}

#[test]
fn test_python_operators() {
    let matcher = VersionMatcher::new();
    assert!(matcher
        .satisfies_range("1.9.0", "<2.0.0", Ecosystem::Python)
        .unwrap());
    assert!(!matcher
        .satisfies_range("2.1.0", "<2.0.0", Ecosystem::Python)
        .unwrap());
    assert!(matcher
        .satisfies_range("2.0.0", "<=2.0.0", Ecosystem::Python)
        .unwrap());
    assert!(matcher
        .satisfies_range("2.0.1", ">2.0.0", Ecosystem::Python)
        .unwrap());
    assert!(matcher
        .satisfies_range("1.24.0", "==1.24.0", Ecosystem::Python)
        .unwrap());
    assert!(!matcher
        .satisfies_range("1.24.1", "==1.24.0", Ecosystem::Python)
        .unwrap());
}

#[test]
fn test_python_short_versions() {
    let matcher = VersionMatcher::new();
    assert!(matcher.satisfies_range("2", ">=1", Ecosystem::Python).unwrap());
    assert!(matcher
        .satisfies_range("2.1", ">=2.0", Ecosystem::Python)
        .unwrap());
}

#[test]
fn test_unparseable_version_is_error() {
    let matcher = VersionMatcher::new();
    assert!(matcher
        .satisfies_range("abc", "^1.0.0", Ecosystem::Node)
        .is_err());
    assert!(matcher
        .satisfies_range("1.2.3", "^x.y.z", Ecosystem::Node)
        .is_err());
    assert!(matcher
        .satisfies_range("1.2", "^1.0.0", Ecosystem::Node)
        .is_err());
    assert!(!matcher.detect_constraint_violation("abc", "^1.0.0", Ecosystem::Node));
}

#[test]
fn test_prerelease_patch_suffix() {
    let matcher = VersionMatcher::new();
    assert!(matcher
        .satisfies_range("1.2.3-beta", "^1.2.0", Ecosystem::Node)
        .unwrap());
}
