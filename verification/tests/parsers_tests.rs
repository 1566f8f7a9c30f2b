//! Tests for the Python metadata, requirements and site-packages parsers,
//! and for filename classification.

use scanner::indexer::file_types::classify_file;
use scanner::models::dependency::{Ecosystem, FileType};
use scanner::parsers::metadata::{parse_metadata, parse_pkg_info, parse_requires_dist};
use scanner::parsers::requirements_txt::RequirementsTxtParser;
use scanner::parsers::site_packages::SitePackagesParser;

#[test]
fn test_parse_metadata() {
    let content = "Metadata-Version: 2.1\n\
Name: requests\n\
Version: 2.31.0\n\
Summary: Python HTTP for Humans.\n\
Requires-Dist: charset-normalizer (<4,>=2)\n\
Requires-Dist: idna (<4,>=2.5)\n\
Requires-Dist: urllib3 (<3,>=1.21.1)\n";

    let metadata = parse_metadata(content, "METADATA").unwrap();

    assert_eq!(metadata.name, "requests");
    assert_eq!(metadata.version, "2.31.0");
    assert_eq!(metadata.dependencies.len(), 3);
    assert_eq!(metadata.dependencies[0].0, "charset-normalizer");
    assert_eq!(metadata.dependencies[0].1, "<4,>=2");
    assert_eq!(metadata.dependencies[1].0, "idna");
    assert_eq!(metadata.dependencies[2].0, "urllib3");
}

#[test]
fn test_parse_metadata_with_extras() {
    let content = "Metadata-Version: 2.1\n\
Name: requests\n\
Version: 2.31.0\n\
Requires-Dist: pytest ; extra == 'dev'\n\
Requires-Dist: urllib3 (<3,>=1.21.1)\n";

    let metadata = parse_metadata(content, "METADATA").unwrap();

    assert_eq!(metadata.dependencies.len(), 2);
    assert_eq!(metadata.dependencies[0].0, "pytest");
    assert_eq!(metadata.dependencies[1].0, "urllib3");
}

#[test]
fn test_parse_pkg_info() {
    let content = "Metadata-Version: 1.1\n\
Name: simplejson\n\
Version: 3.19.1\n\
Summary: Simple, fast, extensible JSON encoder/decoder\n";

    let metadata = parse_pkg_info(content, "PKG-INFO").unwrap();

    assert_eq!(metadata.name, "simplejson");
    assert_eq!(metadata.version, "3.19.1");
}

#[test]
fn test_parse_pkg_info_with_requires() {
    let content = "Metadata-Version: 1.1\n\
Name: oldpackage\n\
Version: 1.0.0\n\
Requires: requests\n\
Requires: urllib3\n";

    let metadata = parse_pkg_info(content, "PKG-INFO").unwrap();

    assert_eq!(metadata.dependencies.len(), 2);
    assert_eq!(metadata.dependencies[0].0, "requests");
    assert_eq!(metadata.dependencies[0].1, "*");
    assert_eq!(metadata.dependencies[1].0, "urllib3");
}

#[test]
fn test_parse_requires_dist_simple() {
    let result = parse_requires_dist("requests").unwrap();
    assert_eq!(result.0, "requests");
    assert_eq!(result.1, "*");
}

#[test]
fn test_parse_requires_dist_with_version() {
    let result = parse_requires_dist("requests (>=2.0.0)").unwrap();
    assert_eq!(result.0, "requests");
    assert_eq!(result.1, ">=2.0.0");
}

#[test]
fn test_parse_requires_dist_with_complex_version() {
    let result = parse_requires_dist("urllib3 (<3,>=1.21.1)").unwrap();
    assert_eq!(result.0, "urllib3");
    assert_eq!(result.1, "<3,>=1.21.1");
}

#[test]
fn test_parse_requires_dist_with_extras() {
    let result = parse_requires_dist("pytest ; extra == 'dev'").unwrap();
    assert_eq!(result.0, "pytest");
    assert_eq!(result.1, "*");
}

#[test]
fn test_parse_requires_dist_with_version_and_extras() {
    let result = parse_requires_dist("pytest (>=6.0) ; extra == 'dev'").unwrap();
    assert_eq!(result.0, "pytest");
    assert_eq!(result.1, ">=6.0");
}

#[test]
fn test_parse_metadata_missing_name() {
    let content = "Version: 1.0.0\n";
    let result = parse_metadata(content, "METADATA");
    assert!(result.is_err());
}

#[test]
fn test_parse_metadata_missing_version() {
    let content = "Name: test\n";
    let result = parse_metadata(content, "METADATA");
    assert!(result.is_err());
}

#[test]
fn test_parse_requirements_txt() {
    let content = "\n\
# Core dependencies\n\
requests>=2.28.0\n\
numpy==1.24.0\n\
\n\
# Optional\n\
flask>=3.0.0\n";

    let parser = RequirementsTxtParser::new();
    let result = parser.parse(content, "requirements.txt").unwrap();

    assert_eq!(result.len(), 3);

    let requests = result.iter().find(|d| d.name == "requests");
    assert!(requests.is_some());
    assert_eq!(requests.unwrap().version, ">=2.28.0");

    let numpy = result.iter().find(|d| d.name == "numpy");
    assert!(numpy.is_some());
    assert_eq!(numpy.unwrap().version, "==1.24.0");
}

#[test]
fn test_parse_requirements_txt_with_extras() {
    let content = "celery[redis]>=5.3.0\nclick";

    let parser = RequirementsTxtParser::new();
    let result = parser.parse(content, "requirements.txt").unwrap();

    assert_eq!(result.len(), 2);

    let celery = result.iter().find(|d| d.name == "celery");
    assert!(celery.is_some());
    assert_eq!(celery.unwrap().version, ">=5.3.0");

    let click = result.iter().find(|d| d.name == "click");
    assert!(click.is_some());
    assert_eq!(click.unwrap().version, "*");
}

#[test]
fn test_requirements_txt_parser_metadata() {
    let parser = RequirementsTxtParser::new();
    assert_eq!(parser.ecosystem(), Ecosystem::Python);
    assert_eq!(parser.file_type(), FileType::Manifest);
    assert_eq!(parser.filename(), "requirements.txt");
}

#[test]
fn test_parse_requirements_skips_flags_and_urls() {
    let content = "-r other.txt\n\
-c constraints.txt\n\
--requirement more.txt\n\
-e ./local\n\
git+https://example.invalid/repo.git\n\
https://example.invalid/pkg.whl\n\
serious-pkg==1.0.0  # pinned\n";

    let parser = RequirementsTxtParser::new();
    let result = parser.parse(content, "requirements.txt").unwrap();

    assert_eq!(result.len(), 1);
    assert_eq!(result[0].name, "serious-pkg");
    assert_eq!(result[0].version, "==1.0.0");
    assert_eq!(result[0].ecosystem, Ecosystem::Python);
    assert_eq!(result[0].file_type, FileType::Manifest);
    assert_eq!(result[0].source_file, "requirements.txt");
}

#[test]
fn test_parse_dist_info() {
    let content = "Name: requests\nVersion: 2.31.0\nRequires-Dist: urllib3 (<3)\n";
    let parser = SitePackagesParser::new();
    let pkg = parser
        .parse_dist_info(content, "/sp/requests-2.31.0.dist-info")
        .unwrap();

    assert_eq!(pkg.name, "requests");
    assert_eq!(pkg.version, "2.31.0");
    assert_eq!(pkg.path, "/sp/requests");
    assert_eq!(pkg.ecosystem, Ecosystem::Python);
    assert_eq!(pkg.dependencies.len(), 1);
    assert_eq!(pkg.dependencies[0].name, "urllib3");
    assert_eq!(pkg.dependencies[0].version_constraint, "<3");
}

#[test]
fn test_parse_egg_info_dir() {
    let content = "Name: simplejson\nVersion: 3.19.1\nRequires: requests\n";
    let parser = SitePackagesParser::new();
    let pkg = parser
        .parse_egg_info_dir(content, "/sp/simplejson-3.19.1.egg-info")
        .unwrap();

    assert_eq!(pkg.name, "simplejson");
    assert_eq!(pkg.version, "3.19.1");
    assert_eq!(pkg.path, "/sp/simplejson");
    assert_eq!(pkg.dependencies.len(), 1);
    assert_eq!(pkg.dependencies[0].version_constraint, "*");
}

#[test]
fn test_parse_egg_info_file() {
    let content = "Name: legacy\nVersion: 0.9.0\n";
    let parser = SitePackagesParser::new();
    let pkg = parser.parse_egg_info_file(content, "/sp/legacy.egg-info").unwrap();

    assert_eq!(pkg.name, "legacy");
    assert_eq!(pkg.version, "0.9.0");
    assert_eq!(pkg.path, "/sp/legacy");
}

#[test]
fn test_parse_dist_info_bad_metadata() {
    let parser = SitePackagesParser::new();
    let result = parser.parse_dist_info("Summary: no fields\n", "/sp/x.dist-info");
    assert!(result.is_err());
}

#[test]
fn test_classify_file_names() {
    assert_eq!(
        classify_file("package.json"),
        Some((Ecosystem::Node, FileType::Manifest))
    );
    assert_eq!(
        classify_file("yarn.lock"),
        Some((Ecosystem::Node, FileType::Lockfile))
    );
    assert_eq!(
        classify_file("package-lock.json"),
        Some((Ecosystem::Node, FileType::Lockfile))
    );
    assert_eq!(
        classify_file("pyproject.toml"),
        Some((Ecosystem::Python, FileType::Manifest))
    );
    assert_eq!(
        classify_file("requirements.txt"),
        Some((Ecosystem::Python, FileType::Manifest))
    );
    assert_eq!(
        classify_file("poetry.lock"),
        Some((Ecosystem::Python, FileType::Lockfile))
    );
    assert_eq!(
        classify_file("uv.lock"),
        Some((Ecosystem::Python, FileType::Lockfile))
    );
    assert_eq!(
        classify_file("Cargo.toml"),
        Some((Ecosystem::Rust, FileType::Manifest))
    );
    assert_eq!(
        classify_file("Cargo.lock"),
        Some((Ecosystem::Rust, FileType::Lockfile))
    );
    assert_eq!(classify_file("README.md"), None);
}
