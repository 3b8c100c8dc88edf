use mukti::Version;
use std::cmp::Ordering;

fn version(text: &str) -> Version {
    let parsed = semver::Version::parse(text).unwrap();
    Version::from_parts(
        parsed.major,
        parsed.minor,
        parsed.patch,
        parsed.pre.as_str(),
        parsed.build.as_str(),
    )
    .unwrap()
}

#[test]
fn new_makes_an_ordinary_release() {
    let v = Version::new(1, 2, 3);
    assert_eq!((v.major(), v.minor(), v.patch()), (1, 2, 3));
    assert_eq!(v.pre(), "");
    assert_eq!(v.build(), "");
    assert!(!v.is_prerelease());
    assert_eq!(v.to_string(), "1.2.3");
}

#[test]
fn from_parts_keeps_the_texts() {
    let v = Version::from_parts(2, 0, 0, "beta.1", "exp.sha.5114f85").unwrap();
    assert!(v.is_prerelease());
    assert_eq!(v.pre(), "beta.1");
    assert_eq!(v.build(), "exp.sha.5114f85");
    assert_eq!(v.to_string(), "2.0.0-beta.1+exp.sha.5114f85");
    assert_eq!(Version::from_parts(1, 0, 0, "", "b7").unwrap().to_string(), "1.0.0+b7");
}

#[test]
fn from_parts_refuses_what_semver_refuses() {
    assert!(Version::from_parts(1, 0, 0, "01", "").is_none());
    assert!(Version::from_parts(1, 0, 0, "a..b", "").is_none());
    assert!(Version::from_parts(1, 0, 0, "a_b", "").is_none());
    assert!(Version::from_parts(1, 0, 0, "rc.", "").is_none());
    assert!(Version::from_parts(1, 0, 0, "", "a+b").is_none());
    assert!(Version::from_parts(1, 0, 0, "", "..").is_none());
    assert!(Version::from_parts(1, 0, 0, "0", "001").is_some());
    assert!(Version::from_parts(1, 0, 0, "x-y-z.--", "").is_some());
}

#[test]
fn to_string_agrees_with_semver() {
    for text in ["0.0.0", "1.2.3", "10.20.30", "1.0.0-alpha.1", "1.0.0+build", "1.0.0-rc.1+build.7"] {
        assert_eq!(version(text).to_string(), text);
    }
}

#[test]
fn versions_follow_the_precedence_of_the_semver_documentation() {
    let ascending = [
        "0.9.9",
        "1.0.0-alpha",
        "1.0.0-alpha.1",
        "1.0.0-alpha.beta",
        "1.0.0-beta",
        "1.0.0-beta.2",
        "1.0.0-beta.11",
        "1.0.0-rc.1",
        "1.0.0",
        "1.0.1",
        "1.5.0",
        "1.19.0",
        "2.0.0-0",
        "2.0.0",
    ];
    for (i, a) in ascending.iter().enumerate() {
        for (j, b) in ascending.iter().enumerate() {
            assert_eq!(version(a).compare(&version(b)), i.cmp(&j), "{} against {}", a, b);
        }
    }
}

#[test]
fn precedence_is_a_sign() {
    assert_eq!(version("1.2.0").precedence(&version("1.10.0")), -1);
    assert_eq!(version("1.2.0").precedence(&version("1.2.0")), 0);
    assert_eq!(version("1.2.0").precedence(&version("1.2.0-rc.1")), 1);
    assert_eq!(version("1.2.0-rc.1").precedence(&version("1.2.0")), -1);
    assert_eq!(version("1.2.0-rc.2").precedence(&version("1.2.0-rc.10")), -1);
}

#[test]
fn build_metadata_tells_versions_apart() {
    assert_eq!(version("1.0.0").compare(&version("1.0.0+a")), Ordering::Less);
    assert_eq!(version("1.0.0+a").compare(&version("1.0.0+b")), Ordering::Less);
    assert_eq!(version("1.0.0+b").compare(&version("1.0.0+b")), Ordering::Equal);
}

#[test]
fn compare_agrees_with_semver_on_every_pair() {
    let texts = [
        "0.0.0", "0.0.1", "0.1.0", "1.0.0", "1.0.0-a", "1.0.0-a.1", "1.0.0-a.b", "1.0.0-1",
        "1.0.0-2", "1.0.0-10", "1.0.0-a-b", "1.0.0+1", "1.0.0+01", "1.0.0+a", "1.0.0-a+1",
        "18446744073709551615.0.0",
    ];
    for a in texts {
        for b in texts {
            let expected = semver::Version::parse(a).unwrap().cmp(&semver::Version::parse(b).unwrap());
            assert_eq!(version(a).compare(&version(b)), expected, "{} against {}", a, b);
        }
    }
}

#[test]
fn a_clone_is_the_same_version() {
    let v = version("3.1.4-pre.2+meta");
    let copy = v.clone();
    assert_eq!(copy.to_string(), "3.1.4-pre.2+meta");
    assert_eq!(v.compare(&copy), Ordering::Equal);
}
