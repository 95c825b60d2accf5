use version_bump::bump::{BumpColor, VersionBump};
use version_bump::version::SemVer;

fn apply_str(bump: VersionBump, current: &str) -> String {
    let version = SemVer::parse(current).unwrap();
    bump.apply(version).to_string()
}

#[test]
fn major_bump() {
    let version = SemVer::parse("1.2.3").unwrap();
    let result = VersionBump::Major.apply(version);
    assert_eq!(result.to_string(), "2.0.0");
}

#[test]
fn minor_bump() {
    let version = SemVer::parse("1.2.3").unwrap();
    let result = VersionBump::Minor.apply(version);
    assert_eq!(result.to_string(), "1.3.0");
}

#[test]
fn patch_bump() {
    let version = SemVer::parse("1.2.3").unwrap();
    let result = VersionBump::Patch.apply(version);
    assert_eq!(result.to_string(), "1.2.4");
}

#[test]
fn preminor_first_time() {
    let version = SemVer::parse("1.2.3").unwrap();
    let result = VersionBump::Preminor.apply(version);
    assert_eq!(result.to_string(), "1.3.0-alpha.0");
}

#[test]
fn preminor_increment_existing() {
    let version = SemVer::parse("1.3.0-alpha.2").unwrap();
    let result = VersionBump::Preminor.apply(version);
    assert_eq!(result.to_string(), "1.3.0-alpha.3");
}

#[test]
fn prepatch_first_time() {
    let version = SemVer::parse("1.2.3").unwrap();
    let result = VersionBump::Prepatch.apply(version);
    assert_eq!(result.to_string(), "1.2.4-alpha.0");
}

#[test]
fn prepatch_increment_existing() {
    let version = SemVer::parse("1.2.4-alpha.1").unwrap();
    let result = VersionBump::Prepatch.apply(version);
    assert_eq!(result.to_string(), "1.2.4-alpha.2");
}

#[test]
fn patch_clears_pre() {
    let version = SemVer::parse("1.2.3-alpha.0").unwrap();
    let result = VersionBump::Patch.apply(version);
    assert_eq!(result.to_string(), "1.2.3");
}

#[test]
fn minor_clears_pre() {
    let version = SemVer::parse("1.2.3-alpha.0").unwrap();
    let result = VersionBump::Minor.apply(version);
    assert_eq!(result.to_string(), "1.2.0");
}

#[test]
fn major_clears_pre() {
    let version = SemVer::parse("1.2.3-alpha.0").unwrap();
    let result = VersionBump::Major.apply(version);
    assert_eq!(result.to_string(), "2.0.0");
}

#[test]
fn test_realistic() {
    let version = SemVer::parse("0.1.0").unwrap();
    let version = VersionBump::Prepatch.apply(version);
    assert_eq!(version.to_string(), "0.1.1-alpha.0");
    let version = VersionBump::Prepatch.apply(version);
    assert_eq!(version.to_string(), "0.1.1-alpha.1");
    let version = VersionBump::Prepatch.apply(version);
    assert_eq!(version.to_string(), "0.1.1-alpha.2");
    let version = VersionBump::Prepatch.apply(version);
    assert_eq!(version.to_string(), "0.1.1-alpha.3");
    let version = VersionBump::Prepatch.apply(version);
    assert_eq!(version.to_string(), "0.1.1-alpha.4");
    let version = VersionBump::Patch.apply(version);
    assert_eq!(version.to_string(), "0.1.1");
    let version = VersionBump::Preminor.apply(version);
    assert_eq!(version.to_string(), "0.2.0-alpha.0");
    let version = VersionBump::Minor.apply(version);
    assert_eq!(version.to_string(), "0.2.0");
    let version = VersionBump::Major.apply(version);
    assert_eq!(version.to_string(), "1.0.0");
}

#[test]
fn test_non_alpha_prerelease_treated_as_no_prerelease() {
    let version = SemVer::parse("1.2.3-beta.1").unwrap();
    let result = VersionBump::Preminor.apply(version);
    assert_eq!(result.to_string(), "1.3.0-alpha.0");
}

#[test]
fn build_metadata_discarded_on_every_bump() {
    assert_eq!(apply_str(VersionBump::Patch, "1.2.3+abc.5"), "1.2.4");
    assert_eq!(apply_str(VersionBump::Major, "1.2.3-alpha.1+xyz"), "2.0.0");
    assert_eq!(apply_str(VersionBump::Skip, "1.2.3+abc"), "1.2.3");
}

#[test]
fn skip_keeps_everything_but_build() {
    assert_eq!(apply_str(VersionBump::Skip, "1.2.3"), "1.2.3");
    assert_eq!(apply_str(VersionBump::Skip, "1.2.3-alpha.4"), "1.2.3-alpha.4");
    assert_eq!(apply_str(VersionBump::Skip, "1.2.3-beta.1+b5"), "1.2.3-beta.1");
}

#[test]
fn bare_alpha_counts_as_no_prerelease() {
    assert_eq!(apply_str(VersionBump::Prepatch, "1.2.3-alpha"), "1.2.4-alpha.0");
    assert_eq!(apply_str(VersionBump::Patch, "1.2.3-alpha"), "1.2.4");
}

#[test]
fn oversized_alpha_counter_counts_as_no_prerelease() {
    assert_eq!(
        apply_str(VersionBump::Prepatch, "1.2.3-alpha.99999999999999999999"),
        "1.2.4-alpha.0"
    );
}

#[test]
fn is_pre_classification() {
    assert!(VersionBump::Prepatch.is_pre());
    assert!(VersionBump::Preminor.is_pre());
    assert!(!VersionBump::Patch.is_pre());
    assert!(!VersionBump::Minor.is_pre());
    assert!(!VersionBump::Major.is_pre());
    assert!(!VersionBump::Skip.is_pre());
}

#[test]
fn try_apply_refuses_overflow() {
    let version = SemVer::new(u64::MAX, 0, 0);
    assert!(VersionBump::Major.try_apply(version).is_none());
    let version = SemVer::new(u64::MAX, 0, 0);
    let bumped = VersionBump::Minor.try_apply(version).unwrap();
    assert_eq!(bumped.to_string(), format!("{}.1.0", u64::MAX));
    let version = SemVer::new(1, 2, u64::MAX);
    assert!(VersionBump::Patch.try_apply(version).is_none());
    let version = SemVer::parse("1.2.3-alpha.0").unwrap();
    let bumped = VersionBump::Patch.try_apply(version).unwrap();
    assert_eq!(bumped.to_string(), "1.2.3");
}

#[test]
fn descriptions() {
    assert_eq!(VersionBump::Major.description(), "major release");
    assert_eq!(VersionBump::Minor.description(), "minor release");
    assert_eq!(VersionBump::Patch.description(), "patch release");
    assert_eq!(VersionBump::Preminor.description(), "pre-minor alpha");
    assert_eq!(VersionBump::Prepatch.description(), "pre-patch alpha");
    assert_eq!(VersionBump::Skip.description(), "skip version bump");
}

#[test]
fn colors() {
    assert_eq!(VersionBump::Major.color(), BumpColor::Red);
    assert_eq!(VersionBump::Minor.color(), BumpColor::Blue);
    assert_eq!(VersionBump::Patch.color(), BumpColor::Green);
    assert_eq!(VersionBump::Preminor.color(), BumpColor::Yellow);
    assert_eq!(VersionBump::Prepatch.color(), BumpColor::Yellow);
    assert_eq!(VersionBump::Skip.color(), BumpColor::White);
}

#[test]
fn emojis_are_distinct_glyphs() {
    let all = [
        VersionBump::Major.emoji(),
        VersionBump::Minor.emoji(),
        VersionBump::Patch.emoji(),
        VersionBump::Preminor.emoji(),
        VersionBump::Prepatch.emoji(),
        VersionBump::Skip.emoji(),
    ];
    for (i, a) in all.iter().enumerate() {
        assert!(!a.is_empty());
        for b in all.iter().skip(i + 1) {
            assert_ne!(a, b);
        }
    }
}
