use version_bump::bump::VersionBump;
use version_bump::infer::infer_version_bump;

#[test]
fn infers_each_tag() {
    assert_eq!(infer_version_bump(b"feat: thing [major]"), Some(VersionBump::Major));
    assert_eq!(infer_version_bump(b"feat: thing [minor]"), Some(VersionBump::Minor));
    assert_eq!(infer_version_bump(b"fix: thing [patch]"), Some(VersionBump::Patch));
    assert_eq!(infer_version_bump(b"wip [preminor]"), Some(VersionBump::Preminor));
    assert_eq!(infer_version_bump(b"wip [prepatch]"), Some(VersionBump::Prepatch));
    assert_eq!(infer_version_bump(b"docs only [no-version]"), Some(VersionBump::Skip));
}

#[test]
fn inference_is_case_insensitive() {
    assert_eq!(infer_version_bump(b"Breaking! [MAJOR]"), Some(VersionBump::Major));
    assert_eq!(infer_version_bump(b"[No-Version] typo fix"), Some(VersionBump::Skip));
}

#[test]
fn fixed_priority_order_wins() {
    assert_eq!(infer_version_bump(b"[patch] then [major]"), Some(VersionBump::Major));
    assert_eq!(infer_version_bump(b"[minor] and [patch]"), Some(VersionBump::Minor));
    assert_eq!(infer_version_bump(b"[prepatch] [preminor]"), Some(VersionBump::Preminor));
}

#[test]
fn no_tag_means_no_inference() {
    assert_eq!(infer_version_bump(b""), None);
    assert_eq!(infer_version_bump(b"major changes ahead"), None);
    assert_eq!(infer_version_bump(b"[unknown]"), None);
    assert_eq!(infer_version_bump(b"major]"), None);
}

#[test]
fn preminor_tag_does_not_match_minor() {
    assert_eq!(infer_version_bump(b"[preminor] only"), Some(VersionBump::Preminor));
    assert_eq!(infer_version_bump(b"[prepatch] only"), Some(VersionBump::Prepatch));
}
