use mukti::{ParseNumberError, Version, VersionRange, VersionRangeKind, VersionRangeParseError};
use std::cmp::Ordering;

#[test]
fn description_names_the_component() {
    assert_eq!(VersionRangeKind::Major.description(), "major");
    assert_eq!(VersionRangeKind::Minor.description(), "minor");
    assert_eq!(VersionRangeKind::Patch.description(), "patch");
}

#[test]
fn from_version_picks_the_first_component_that_is_not_zero() {
    assert_eq!(VersionRange::from_version(&Version::new(1, 2, 3)), VersionRange::Major(1));
    assert_eq!(VersionRange::from_version(&Version::new(0, 5, 0)), VersionRange::Minor(5));
    assert_eq!(VersionRange::from_version(&Version::new(0, 0, 7)), VersionRange::Patch(7));
    assert_eq!(VersionRange::from_version(&Version::new(0, 0, 0)), VersionRange::Patch(0));
    assert_eq!(VersionRange::from_version(&Version::new(12, 0, 0)), VersionRange::Major(12));
}

#[test]
fn from_version_ignores_prerelease_and_build_metadata() {
    let plain = Version::new(1, 2, 3);
    let decorated = Version::from_parts(1, 2, 3, "rc.1", "build.5").unwrap();
    assert_eq!(VersionRange::from_version(&plain), VersionRange::from_version(&decorated));
    let early = Version::from_parts(0, 0, 7, "alpha", "").unwrap();
    assert_eq!(VersionRange::from_version(&early), VersionRange::Patch(7));
}

#[test]
fn ranges_are_ordered_by_kind_then_number() {
    let ascending = [
        VersionRange::Patch(0),
        VersionRange::Patch(9),
        VersionRange::Minor(0),
        VersionRange::Minor(3),
        VersionRange::Major(1),
        VersionRange::Major(2),
    ];
    for (i, a) in ascending.iter().enumerate() {
        for (j, b) in ascending.iter().enumerate() {
            assert_eq!(a.compare(b), i.cmp(&j), "{:?} against {:?}", a, b);
        }
    }
    assert_eq!(VersionRange::Patch(100).compare(&VersionRange::Minor(1)), Ordering::Less);
    assert_eq!(VersionRange::Major(1).order_sign(&VersionRange::Minor(100)), 1);
    assert_eq!(VersionRange::Minor(4).order_sign(&VersionRange::Minor(4)), 0);
}

#[test]
fn ranges_are_written_in_one_of_three_forms() {
    assert_eq!(VersionRange::Major(1).to_string(), "1");
    assert_eq!(VersionRange::Minor(5).to_string(), "0.5");
    assert_eq!(VersionRange::Patch(7).to_string(), "0.0.7");
    assert_eq!(VersionRange::Major(120).to_string(), "120");
}

#[test]
fn ranges_are_read_from_the_three_forms() {
    assert_eq!(VersionRange::from_str("1").unwrap(), VersionRange::Major(1));
    assert_eq!(VersionRange::from_str("0.5").unwrap(), VersionRange::Minor(5));
    assert_eq!(VersionRange::from_str("0.0.7").unwrap(), VersionRange::Patch(7));
    assert_eq!(VersionRange::from_str("0").unwrap(), VersionRange::Major(0));
    assert_eq!(VersionRange::from_str("0.0").unwrap(), VersionRange::Minor(0));
    assert_eq!(VersionRange::from_str("0.0.0").unwrap(), VersionRange::Patch(0));
}

#[test]
fn reading_a_written_range_gives_it_back() {
    for range in [
        VersionRange::Major(0),
        VersionRange::Major(3),
        VersionRange::Minor(0),
        VersionRange::Minor(41),
        VersionRange::Patch(0),
        VersionRange::Patch(u64::MAX),
    ] {
        assert_eq!(VersionRange::from_str(&range.to_string()).unwrap(), range);
    }
}

fn parse_error(input: &str) -> VersionRangeParseError {
    match VersionRange::from_str(input) {
        Ok(range) => panic!("{:?} was read as {:?}", input, range),
        Err(e) => e,
    }
}

#[test]
fn a_bad_range_names_the_component_and_what_was_left_of_the_input() {
    let e = parse_error("1.2");
    assert_eq!(e.input, "1.2");
    assert_eq!(e.component, VersionRangeKind::Major);
    assert_eq!(e.error, ParseNumberError::InvalidDigit);

    let e = parse_error("0.x");
    assert_eq!(e.input, "x");
    assert_eq!(e.component, VersionRangeKind::Minor);
    assert_eq!(e.source(), ParseNumberError::InvalidDigit);

    let e = parse_error("0.0.");
    assert_eq!(e.input, "");
    assert_eq!(e.component, VersionRangeKind::Patch);
    assert_eq!(e.error, ParseNumberError::Empty);

    let e = parse_error("0.0.99999999999999999999");
    assert_eq!(e.component, VersionRangeKind::Patch);
    assert_eq!(e.error, ParseNumberError::PosOverflow);

    let e = parse_error("");
    assert_eq!(e.component, VersionRangeKind::Major);
    assert_eq!(e.error, ParseNumberError::Empty);
}

#[test]
fn a_range_error_says_what_failed() {
    let e = VersionRangeParseError::new("abc", VersionRangeKind::Minor, ParseNumberError::InvalidDigit);
    assert_eq!(e.to_string(), "unable to parse version range input abc at component minor");
}

#[test]
fn a_range_can_be_parsed_from_text() {
    assert_eq!("0.7".parse::<VersionRange>().unwrap(), VersionRange::Minor(7));
    assert!("seven".parse::<VersionRange>().is_err());
}
