use repose::database::{get_pkg_metadata, parse_entry, RepoEntry};
use repose::desc::Parser;
use repose::error::Error;
use repose::numfmt::{i64_to_dec, parse_i64, parse_u64, u64_to_dec};
use repose::package::{Arch, Entry, Metadata, Package};

fn sample_pkg() -> Package {
    let mut pkg = Package::new("pkg", "1.0-1");
    pkg.arch = Arch::from_str("x86_64");
    pkg.metadata_insert(Entry::Filename, Metadata::Path("pkg-1.0-1.pkg.tar.xz".to_string()));
    pkg.metadata_insert(Entry::Name, Metadata::Text("pkg".to_string()));
    pkg.metadata_insert(Entry::Version, Metadata::Text("1.0-1".to_string()));
    pkg.metadata_insert(Entry::Description, Metadata::Text("a sample".to_string()));
    pkg.metadata_insert(Entry::PackageSize, Metadata::Size(1234));
    pkg.metadata_insert(Entry::InstallSize, Metadata::Size(5678));
    pkg.metadata_insert(Entry::Arch, Metadata::Text("x86_64".to_string()));
    pkg.metadata_insert(Entry::BuildDate, Metadata::Timestamp(1500000000));
    pkg.metadata_insert(
        Entry::Depends,
        Metadata::List(vec!["glibc".to_string(), "zlib".to_string()]),
    );
    pkg
}

#[test]
fn desc_page_is_exact() {
    let pkg = sample_pkg();
    let page = RepoEntry::Desc.render(&pkg);
    let expected = "%FILENAME%\npkg-1.0-1.pkg.tar.xz\n\n\
                    %NAME%\npkg\n\n\
                    %VERSION%\n1.0-1\n\n\
                    %DESC%\na sample\n\n\
                    %CSIZE%\n1234\n\n\
                    %ISIZE%\n5678\n\n\
                    %ARCH%\nx86_64\n\n\
                    %BUILDDATE%\n1500000000\n\n";
    assert_eq!(page, expected);
}

#[test]
fn depends_page_is_exact() {
    let pkg = sample_pkg();
    let page = RepoEntry::Depends.render(&pkg);
    assert_eq!(page, "%DEPENDS%\nglibc\nzlib\n\n");
}

#[test]
fn files_page_empty_when_absent() {
    let pkg = sample_pkg();
    assert_eq!(RepoEntry::Files.render(&pkg), "");
}

#[test]
fn desc_sections_follow_fixed_order() {
    let pkg = sample_pkg();
    let page = RepoEntry::Desc.render(&pkg);
    let headers = ["%FILENAME%", "%NAME%", "%VERSION%", "%DESC%", "%CSIZE%", "%ISIZE%",
        "%ARCH%", "%BUILDDATE%"];
    let mut last: usize = 0;
    for h in headers.iter() {
        let at = page.find(h).expect("header missing");
        assert!(at >= last);
        last = at;
    }
}

#[test]
fn desc_round_trip_is_byte_identical() {
    let pkg = sample_pkg();
    for which in [RepoEntry::Desc, RepoEntry::Depends] {
        let page = which.render(&pkg);
        let mut fresh = Package::new("pkg", "1.0-1");
        let mut parser = Parser::new();
        parser.read(&mut fresh, &page).unwrap();
        let again = which.render(&fresh);
        assert_eq!(page, again);
    }
}

#[test]
fn parse_recovers_name_version_arch() {
    let pkg = sample_pkg();
    let page = RepoEntry::Desc.render(&pkg);
    let mut fresh = Package::new("pkg", "1.0-1");
    Parser::new().read(&mut fresh, &page).unwrap();
    assert_eq!(fresh.name, "pkg");
    assert_eq!(fresh.version.as_str(), "1.0-1");
    assert!(matches!(fresh.arch, Arch::Arch(ref s) if s == "x86_64"));
}

#[test]
fn parser_rejects_value_without_header() {
    let mut pkg = Package::new("x", "1");
    let r = Parser::new().read(&mut pkg, "orphan value\n");
    assert!(matches!(r, Err(Error::MalformedDesc)));
}

#[test]
fn parser_rejects_mismatched_name() {
    let mut pkg = Package::new("x", "1");
    let r = Parser::new().read(&mut pkg, "%NAME%\nother\n\n");
    assert!(matches!(r, Err(Error::MalformedDesc)));
}

#[test]
fn parser_skips_unknown_sections() {
    let mut pkg = Package::new("x", "1");
    Parser::new()
        .read(&mut pkg, "%NOSUCHTHING%\nvalue\n\n%DESC%\nkept\n\n")
        .unwrap();
    assert!(matches!(
        pkg.metadata_get(Entry::Description),
        Some(Metadata::Text(s)) if s == "kept"
    ));
}

#[test]
fn parser_accumulates_lists_across_reads() {
    let mut pkg = Package::new("x", "1");
    let mut parser = Parser::new();
    parser.read(&mut pkg, "%DEPENDS%\na\n\n").unwrap();
    parser.read(&mut pkg, "%DEPENDS%\nb\n\n").unwrap();
    assert!(matches!(
        pkg.metadata_get(Entry::Depends),
        Some(Metadata::List(l)) if l == &vec!["a".to_string(), "b".to_string()]
    ));
}

#[test]
fn decimal_codec_round_trips() {
    assert_eq!(u64_to_dec(0), "0");
    assert_eq!(u64_to_dec(1234567890), "1234567890");
    assert_eq!(u64_to_dec(u64::MAX), "18446744073709551615");
    assert_eq!(i64_to_dec(-42), "-42");
    assert_eq!(i64_to_dec(i64::MIN), "-9223372036854775808");
    assert_eq!(parse_u64("1234567890"), Some(1234567890));
    assert_eq!(parse_u64("18446744073709551616"), None);
    assert_eq!(parse_u64(""), None);
    assert_eq!(parse_u64("12a"), None);
    assert_eq!(parse_i64("-42"), Some(-42));
    assert_eq!(parse_i64("-9223372036854775808"), Some(i64::MIN));
    assert_eq!(parse_i64("-9223372036854775809"), None);
}

#[test]
fn test_entry_split() {
    let (name, version) = parse_entry("foo-bar-1.2-3").unwrap();
    assert_eq!(name, "foo-bar");
    assert_eq!(version, "1.2-3");
    assert!(parse_entry("nodashes").is_none());
    assert!(parse_entry("one-dash").is_none());
}

#[test]
fn archive_paths_name_their_directory() {
    let (name, version) = get_pkg_metadata("foo-1.0-1/desc").unwrap();
    assert_eq!(name, "foo");
    assert_eq!(version, "1.0-1");
    assert!(get_pkg_metadata("toplevel").is_none());
    assert!(get_pkg_metadata("a/b/c").is_none());
    assert!(get_pkg_metadata("dir/").is_none());
}
