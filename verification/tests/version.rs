use repose::alpm::pkg_vercmp;
use repose::package::Version;
use std::cmp::Ordering;

#[test]
fn test_version_cmp() {
    let res = pkg_vercmp("1.5-1", "1.5");
    assert_eq!(res, Ordering::Equal);
}

#[test]
fn test_version_sort() {
    let mut res: Vec<Version> = ["1.4", "1.4.1", "1.4-1", "1.5-1", "1.5", "1.3-1", "1.3.1-1"]
        .iter()
        .map(|s| Version::new(s))
        .collect();

    res.sort_by(|a, b| a.cmp(b));
    let got: Vec<&str> = res.iter().map(|v| v.as_str()).collect();
    assert_eq!(
        got,
        vec!["1.3-1", "1.3.1-1", "1.4", "1.4-1", "1.4.1", "1.5-1", "1.5"]
    );
}

#[test]
fn vercmp_release_decides_only_when_both_present() {
    assert_eq!(pkg_vercmp("1.4.1", "1.4-1"), Ordering::Greater);
    assert_eq!(pkg_vercmp("1.4", "1.4-1"), Ordering::Equal);
    assert_eq!(pkg_vercmp("1.4-1", "1.4-2"), Ordering::Less);
}

#[test]
fn vercmp_numeric_and_alpha_segments() {
    assert_eq!(pkg_vercmp("1.0", "1.0.1"), Ordering::Less);
    assert_eq!(pkg_vercmp("12", "2"), Ordering::Greater);
    assert_eq!(pkg_vercmp("1.001", "1.1"), Ordering::Equal);
    assert_eq!(pkg_vercmp("1.0a", "1.0"), Ordering::Less);
    assert_eq!(pkg_vercmp("1.0a", "1.0b"), Ordering::Less);
}

#[test]
fn vercmp_epoch_dominates() {
    assert_eq!(pkg_vercmp("1:1.0", "2.0"), Ordering::Greater);
    assert_eq!(pkg_vercmp("1:1.0", "1:1.1"), Ordering::Less);
}

#[test]
fn vercmp_reflexive_and_antisymmetric_samples() {
    let vs = ["1.5-1", "1.5", "2:3.4a-7", "0.1.alpha", ""];
    for a in vs.iter() {
        assert_eq!(pkg_vercmp(a, a), Ordering::Equal);
        for b in vs.iter() {
            let fw = pkg_vercmp(a, b);
            let bw = pkg_vercmp(b, a);
            let mirrored = match fw {
                Ordering::Less => Ordering::Greater,
                Ordering::Equal => Ordering::Equal,
                Ordering::Greater => Ordering::Less,
            };
            assert_eq!(bw, mirrored);
        }
    }
}
