use repose::filters::{match_targets, Filter};
use repose::package::{Arch, Entry, Metadata, Package};

fn sample_pkg() -> Package {
    let mut pkg = Package::new("test", "1");
    pkg.arch = Arch::from_str("any");
    pkg.metadata_insert(Entry::Filename, Metadata::Path("test-1.pkg.tar.xz".to_string()));
    pkg
}

#[test]
fn test_match_name() {
    let pkg = sample_pkg();

    let filter = Filter::new("test").unwrap();
    assert_eq!(filter.match_pkg(&pkg), true);

    let filter = Filter::new("foobar").unwrap();
    assert_eq!(filter.match_pkg(&pkg), false);
}

#[test]
fn test_filename() {
    let pkg = sample_pkg();

    let filter = Filter::new("test-1.pkg.tar.xz").unwrap();
    assert_eq!(filter.match_pkg(&pkg), true);

    let filter = Filter::new("test-2.pkg.tar.xz").unwrap();
    assert_eq!(filter.match_pkg(&pkg), false);
}

#[test]
fn test_glob() {
    let pkg = sample_pkg();

    let filter = Filter::new("test*").unwrap();
    assert_eq!(filter.match_pkg(&pkg), true);

    let filter = Filter::new("*-1*").unwrap();
    assert_eq!(filter.match_pkg(&pkg), true);

    let filter = Filter::new("*foobar*").unwrap();
    assert_eq!(filter.match_pkg(&pkg), false);
}

#[test]
fn invalid_pattern_is_rejected() {
    assert!(Filter::new("a[").is_none());
    assert!(Filter::new("abc").is_some());
}

#[test]
fn match_targets_is_any_of() {
    let pkg = sample_pkg();
    let none: Vec<Filter> = Vec::new();
    assert_eq!(match_targets(&pkg, &none), false);

    let filters = vec![Filter::new("nope").unwrap(), Filter::new("te*").unwrap()];
    assert_eq!(match_targets(&pkg, &filters), true);

    let filters = vec![Filter::new("nope").unwrap(), Filter::new("still-no").unwrap()];
    assert_eq!(match_targets(&pkg, &filters), false);
}
