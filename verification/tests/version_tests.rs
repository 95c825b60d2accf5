use version_bump::version::{extract_alpha_version, SemVer};

#[test]
fn test_extract_alpha_version() {
    let pre1 = "alpha.0";
    let pre2 = "alpha.42";
    let pre3 = "beta.1";
    let pre4 = "alpha";

    assert_eq!(extract_alpha_version(pre1.as_bytes()), Some(0));
    assert_eq!(extract_alpha_version(pre2.as_bytes()), Some(42));
    assert_eq!(extract_alpha_version(pre3.as_bytes()), None);
    assert_eq!(extract_alpha_version(pre4.as_bytes()), None);
}

#[test]
fn extract_alpha_version_edge_cases() {
    assert_eq!(extract_alpha_version(b"alpha."), None);
    assert_eq!(extract_alpha_version(b"alpha.x"), None);
    assert_eq!(extract_alpha_version(b"alpha.1x"), None);
    assert_eq!(extract_alpha_version(b"alphax0"), None);
    assert_eq!(extract_alpha_version(b""), None);
    assert_eq!(extract_alpha_version(b"alpha.18446744073709551615"), Some(u64::MAX));
    assert_eq!(extract_alpha_version(b"alpha.18446744073709551616"), None);
}

#[test]
fn field_accessors_functional_update() {
    let v = SemVer::new(1, 2, 3);
    assert_eq!(v.get_major(), 1);
    let v = v.set_major(7);
    assert_eq!(v.get_major(), 7);
    let v = v.inc_minor();
    assert_eq!(v.get_minor(), 3);
    let v = v.reset_patch();
    assert_eq!(v.get_patch(), 0);
    let v = v.inc_patch().inc_patch();
    assert_eq!(v.get_patch(), 2);
    let v = v.reset_major().reset_minor();
    assert_eq!(v.to_string(), "0.0.2");
}

#[test]
fn pre_counter_accessors() {
    let v = SemVer::new(1, 2, 3);
    assert_eq!(v.get_pre(), None);
    let v = v.set_pre(Some(5));
    assert_eq!(v.get_pre(), Some(5));
    assert_eq!(v.to_string(), "1.2.3-alpha.5");
    let v = v.inc_pre();
    assert_eq!(v.get_pre(), Some(6));
    let v = v.reset_pre();
    assert_eq!(v.get_pre(), None);
    assert_eq!(v.to_string(), "1.2.3");
    let v = v.inc_pre();
    assert_eq!(v.get_pre(), Some(0));
    assert_eq!(v.to_string(), "1.2.3-alpha.0");
}

#[test]
fn non_alpha_pre_is_absent_for_get_pre() {
    let v = SemVer::parse("1.2.3-beta.1").unwrap();
    assert_eq!(v.get_pre(), None);
    let v = SemVer::parse("1.2.3-alpha").unwrap();
    assert_eq!(v.get_pre(), None);
    let v = SemVer::parse("1.2.3-alpha.9").unwrap();
    assert_eq!(v.get_pre(), Some(9));
}
