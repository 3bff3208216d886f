use yen::errors::YenError;
use yen::version::Version;

#[test]
fn parse_full_version() {
    let v = Version::parse("3.12.4").unwrap();
    assert_eq!(v.major, 3);
    assert_eq!(v.minor, Some(12));
    assert_eq!(v.patch, Some(4));
}

#[test]
fn parse_major_only() {
    let v = Version::parse("3").unwrap();
    assert_eq!(v.major, 3);
    assert_eq!(v.minor, None);
    assert_eq!(v.patch, None);
}

#[test]
fn parse_major_minor() {
    let v = Version::parse("3.12").unwrap();
    assert_eq!(v.major, 3);
    assert_eq!(v.minor, Some(12));
    assert_eq!(v.patch, None);
}

#[test]
fn parse_rejects_empty() {
    assert!(matches!(Version::parse(""), Err(YenError::Parse)));
}

#[test]
fn parse_rejects_non_numeric() {
    assert!(matches!(Version::parse("a.b"), Err(YenError::Parse)));
    assert!(matches!(Version::parse("3.x"), Err(YenError::Parse)));
    assert!(matches!(Version::parse("3..4"), Err(YenError::Parse)));
    assert!(matches!(Version::parse("3.12."), Err(YenError::Parse)));
}

#[test]
fn parse_rejects_four_components() {
    assert!(matches!(Version::parse("1.2.3.4"), Err(YenError::Parse)));
}

#[test]
fn parse_rejects_overflow() {
    assert!(matches!(Version::parse("4294967296"), Err(YenError::Parse)));
    let v = Version::parse("4294967295").unwrap();
    assert_eq!(v.major, u32::MAX);
}

#[test]
fn render_only_supplied_components() {
    assert_eq!(Version::parse("3").unwrap().to_string(), "3");
    assert_eq!(Version::parse("3.12").unwrap().to_string(), "3.12");
    assert_eq!(Version::parse("3.12.4").unwrap().to_string(), "3.12.4");
}

#[test]
fn round_trip_parse_render() {
    for s in ["0", "3", "10", "3.0", "3.12", "3.12.0", "3.12.4", "4294967295.0.1"] {
        let v = Version::parse(s).unwrap();
        let back = Version::parse(v.to_string().as_str()).unwrap();
        assert!(back.eq(&v), "round trip failed for {}", s);
    }
}

#[test]
fn parse_accepts_leading_zeros_and_renders_canonically() {
    let v = Version::parse("03.012").unwrap();
    assert_eq!(v.major, 3);
    assert_eq!(v.minor, Some(12));
    assert_eq!(v.to_string(), "3.12");
}

#[test]
fn ordering_is_lexicographic_with_absent_first() {
    let a = Version::parse("3").unwrap();
    let b = Version::parse("3.0").unwrap();
    let c = Version::parse("3.11.9").unwrap();
    let d = Version::parse("3.12.0").unwrap();
    assert!(a.lt(&b));
    assert!(b.lt(&c));
    assert!(c.lt(&d));
    assert!(!d.lt(&c));
    assert!(!a.lt(&a));
}

#[test]
fn prefix_matching_is_over_renderings() {
    let full = Version::parse("3.12.4").unwrap();
    assert!(full.matches_prefix(&Version::parse("3.12").unwrap()));
    assert!(full.matches_prefix(&Version::parse("3").unwrap()));
    assert!(full.matches_prefix(&Version::parse("3.12.4").unwrap()));
    // The match is over the rendered strings, so "3.1" also matches.
    assert!(full.matches_prefix(&Version::parse("3.1").unwrap()));
    assert!(!full.matches_prefix(&Version::parse("3.11").unwrap()));
    assert!(!full.matches_prefix(&Version::parse("4").unwrap()));
}
