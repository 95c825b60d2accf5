use version_bump::version::SemVer;

#[test]
fn parse_plain_triple() {
    let v = SemVer::parse("1.2.3").unwrap();
    assert_eq!(v.get_major(), 1);
    assert_eq!(v.get_minor(), 2);
    assert_eq!(v.get_patch(), 3);
    assert_eq!(v.to_string(), "1.2.3");
}

#[test]
fn parse_round_trip_with_pre_and_build() {
    for s in [
        "0.0.0",
        "1.2.3-alpha.0",
        "1.2.3-beta.1",
        "1.2.3+build.5",
        "1.2.3-rc.1+build.5",
        "10.20.30-a-b.c-d+x-y.0012",
        "18446744073709551615.0.1",
    ] {
        let v = SemVer::parse(s).unwrap();
        assert_eq!(v.to_string(), s);
    }
}

#[test]
fn parse_rejects_malformed_text() {
    for s in [
        "",
        "1",
        "1.2",
        "1.2.3.4",
        "01.2.3",
        "1.02.3",
        "1.2.+3",
        "a.2.3",
        "1.2.3-",
        "1.2.3+",
        "1.2.3-alpha..1",
        "1.2.3-alpha.01",
        "1.2.3-al_pha",
        "1.2.3+x+y",
        "1.2.3 ",
        " 1.2.3",
        "1.2.3-\u{e9}",
        "18446744073709551616.0.0",
        "-1.2.3",
    ] {
        assert!(SemVer::parse(s).is_err(), "accepted {:?}", s);
    }
}

#[test]
fn parse_allows_leading_zeros_in_build_only() {
    let v = SemVer::parse("1.2.3+007").unwrap();
    assert_eq!(v.to_string(), "1.2.3+007");
    assert!(SemVer::parse("1.2.3-007").is_err());
}

#[test]
fn parse_bytes_matches_parse() {
    let v = SemVer::parse_bytes(b"4.5.6-alpha.7").unwrap();
    assert_eq!(v.to_string(), "4.5.6-alpha.7");
    assert!(SemVer::parse_bytes(b"4.5").is_err());
}

#[test]
fn serialize_bytes_is_canonical() {
    let v = SemVer::parse("1.0.0-alpha.3+linux").unwrap();
    assert_eq!(v.serialize_bytes(), b"1.0.0-alpha.3+linux".to_vec());
}
