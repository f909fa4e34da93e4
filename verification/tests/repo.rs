use repose::database::{
    ensure_files, ensure_sha256, package_pages, LoadedFile, Repo, RepoEntry, UpsertOutcome,
};
use repose::elephant::elephant;
use repose::error::Error;
use repose::package::{Arch, Entry, Metadata, Package};
use repose::pkginfo::parse_pkginfo;

fn pool_pkg(name: &str, version: &str) -> Package {
    let mut pkg = Package::new(name, version);
    pkg.arch = Arch::from_str("x86_64");
    let file = format!("{}-{}.pkg.tar.xz", name, version);
    pkg.metadata_insert(Entry::Filename, Metadata::Path(file));
    pkg.metadata_insert(Entry::Name, Metadata::Text(name.to_string()));
    pkg.metadata_insert(Entry::Version, Metadata::Text(version.to_string()));
    pkg.metadata_insert(Entry::Arch, Metadata::Text("x86_64".to_string()));
    pkg
}

#[test]
fn collision_keeps_greater_version() {
    let repo = Repo::from_iter(vec![pool_pkg("a", "1.0-1"), pool_pkg("a", "2.0-1")]);
    assert_eq!(repo.pkgs().len(), 1);
    assert_eq!(repo.get("a").unwrap().version.as_str(), "2.0-1");

    let repo = Repo::from_iter(vec![pool_pkg("a", "2.0-1"), pool_pkg("a", "1.0-1")]);
    assert_eq!(repo.get("a").unwrap().version.as_str(), "2.0-1");
}

#[test]
fn collision_keeps_first_seen_on_ties() {
    let mut first = pool_pkg("a", "1.5-1");
    first.metadata_insert(Entry::Description, Metadata::Text("first".to_string()));
    let second = pool_pkg("a", "1.5");
    let repo = Repo::from_iter(vec![first, second]);
    assert!(matches!(
        repo.get("a").unwrap().metadata_get(Entry::Description),
        Some(Metadata::Text(s)) if s == "first"
    ));
}

#[test]
fn upsert_reports_outcomes() {
    let mut repo = Repo::new();
    assert!(matches!(repo.upsert(pool_pkg("a", "1.0-1")), UpsertOutcome::Added));
    assert!(matches!(repo.upsert(pool_pkg("a", "1.0-1")), UpsertOutcome::Kept));
    match repo.upsert(pool_pkg("a", "2.0-1")) {
        UpsertOutcome::Updated(prev) => assert_eq!(prev, "a-1.0-1"),
        _ => panic!("expected an update"),
    }
}

#[test]
fn load_merges_db_and_files_trees() {
    let pkg = pool_pkg("pkg", "1.0-1");
    let desc = RepoEntry::Desc.render(&pkg);
    let mut with_files = pool_pkg("pkg", "1.0-1");
    with_files.metadata_insert(
        Entry::Files,
        Metadata::List(vec!["usr/".to_string(), "usr/bin/pkg".to_string()]),
    );
    let files = RepoEntry::Files.render(&with_files);

    let mut repo = Repo::new();
    repo.load(&vec![
        LoadedFile { path: "pkg-1.0-1/desc".to_string(), data: desc },
        LoadedFile { path: "pkg-1.0-1/files".to_string(), data: files },
    ])
    .unwrap();

    let loaded = repo.get("pkg").unwrap();
    assert_eq!(loaded.name, "pkg");
    assert_eq!(loaded.version.as_str(), "1.0-1");
    assert!(matches!(
        loaded.metadata_get(Entry::Files),
        Some(Metadata::List(l)) if l.len() == 2
    ));
}

#[test]
fn load_tolerates_stray_paths_but_not_corruption() {
    let mut repo = Repo::new();
    repo.load(&vec![LoadedFile { path: "nodir".to_string(), data: "x\n".to_string() }])
        .unwrap();
    assert_eq!(repo.pkgs().len(), 0);

    let r = repo.load(&vec![LoadedFile {
        path: "pkg-1.0-1/desc".to_string(),
        data: "garbage without header\n".to_string(),
    }]);
    assert!(matches!(r, Err(Error::MalformedDesc)));
}

#[test]
fn dropped_package_emits_no_directory() {
    let mut repo = Repo::new();
    repo.upsert(pool_pkg("gone", "1.0-1"));
    repo.upsert(pool_pkg("kept", "1.0-1"));
    // the pool no longer holds gone's file: the driver drops it
    let removed = repo.remove("gone").unwrap();
    assert_eq!(removed.name, "gone");
    assert!(repo.get("gone").is_none());
    let names: Vec<String> = repo.pkgs().iter().map(|p| p.display()).collect();
    assert_eq!(names, vec!["kept-1.0-1".to_string()]);
}

#[test]
fn arch_selection_keeps_any_and_target() {
    let target = Arch::from_str("x86_64");
    assert!(Arch::from_str("any").matches_target(&target));
    assert!(Arch::from_str("x86_64").matches_target(&target));
    assert!(!Arch::from_str("i686").matches_target(&target));
}

#[test]
fn sha256_computed_on_demand() {
    let mut pkg = pool_pkg("pkg", "1.0-1");
    assert!(pkg.metadata_get(Entry::SHA256Sum).is_none());
    ensure_sha256(&mut pkg, &b"abc".to_vec());
    let desc = RepoEntry::Desc.render(&pkg);
    assert!(desc.contains(
        "%SHA256SUM%\nba7816bf8f01cfea414140de5dae2223b00361a396177a9cb410ff61f20015ad\n"
    ));
    // a digest already present is kept
    let mut other = pool_pkg("pkg", "1.0-1");
    other.metadata_insert(Entry::SHA256Sum, Metadata::Text("cafe".to_string()));
    ensure_sha256(&mut other, &b"abc".to_vec());
    assert!(matches!(
        other.metadata_get(Entry::SHA256Sum),
        Some(Metadata::Text(s)) if s == "cafe"
    ));
}

#[test]
fn file_listing_hides_dot_entries() {
    let mut pkg = pool_pkg("pkg", "1.0-1");
    ensure_files(
        &mut pkg,
        &vec![
            ".PKGINFO".to_string(),
            "usr/".to_string(),
            ".MTREE".to_string(),
            "usr/bin/pkg".to_string(),
        ],
    );
    assert!(matches!(
        pkg.metadata_get(Entry::Files),
        Some(Metadata::List(l)) if l == &vec!["usr/".to_string(), "usr/bin/pkg".to_string()]
    ));
}

#[test]
fn pages_skip_empty_renderings() {
    let pkg = pool_pkg("pkg", "1.0-1");
    let pages = package_pages(&pkg, &vec![RepoEntry::Desc, RepoEntry::Depends, RepoEntry::Files]);
    let names: Vec<&str> = pages.iter().map(|p| p.0.as_str()).collect();
    assert_eq!(names, vec!["desc"]);
}

#[test]
fn pkginfo_builds_the_record() {
    let text = "# a comment\n\
                pkgname = foo\n\
                pkgver = 1.0-1\n\
                arch = any\n\
                pkgdesc = demo\n\
                size = 4096\n\
                builddate = 1500000000\n\
                depend = bar\n\
                depend = baz\n\
                unknownkey = ignored\n";
    let pkg = parse_pkginfo(text, "foo-1.0-1.pkg.tar.xz", 777).unwrap();
    assert_eq!(pkg.name, "foo");
    assert_eq!(pkg.version.as_str(), "1.0-1");
    assert!(matches!(pkg.arch, Arch::Any));
    assert!(matches!(
        pkg.metadata_get(Entry::InstallSize),
        Some(Metadata::Size(4096))
    ));
    assert!(matches!(
        pkg.metadata_get(Entry::PackageSize),
        Some(Metadata::Size(777))
    ));
    assert!(matches!(
        pkg.metadata_get(Entry::Filename),
        Some(Metadata::Path(p)) if p == "foo-1.0-1.pkg.tar.xz"
    ));
    assert!(matches!(
        pkg.metadata_get(Entry::Depends),
        Some(Metadata::List(l)) if l == &vec!["bar".to_string(), "baz".to_string()]
    ));
}

#[test]
fn pkginfo_rejects_malformed_input() {
    assert!(matches!(
        parse_pkginfo("pkgname = a\nnot a pair\n", "f", 1),
        Err(Error::MalformedPKGINFO)
    ));
    assert!(matches!(
        parse_pkginfo("pkgver = 1\n", "f", 1),
        Err(Error::MalformedPKGINFO)
    ));
    assert!(matches!(
        parse_pkginfo("pkgname = a\npkgver = 1\nsize = notanumber\n", "f", 1),
        Err(Error::MalformedPKGINFO)
    ));
}

#[test]
fn mascot_decodes_from_base64() {
    let mascots = vec!["aGVsbG8=".to_string(), "bad!".to_string()];
    assert_eq!(elephant(&mascots, 0), Some("hello".to_string()));
    assert_eq!(elephant(&mascots, 1), None);
    assert_eq!(elephant(&mascots, 2), None);
}

#[test]
fn error_messages_are_single_lines() {
    assert_eq!(Error::MissingPKGINFO.message(), "archive missing .PKGINFO");
    assert_eq!(Error::MalformedPKGINFO.message(), "archive malformed .PKGINFO");
}
