use easy_release::bump::{bumped_text, EditFailure};
use easy_release::metadata::Version;
use easy_release::version::{caret_requirement, decimal_text, BumpStrategy};

fn version(major: u64, minor: u64, patch: u64, pre: &str, build: &str) -> Version {
    Version { major, minor, patch, pre: pre.to_string(), build: build.to_string() }
}

#[test]
fn numbers_are_written_in_decimal() {
    assert_eq!(decimal_text(0), "0");
    assert_eq!(decimal_text(7), "7");
    assert_eq!(decimal_text(10), "10");
    assert_eq!(decimal_text(1203), "1203");
    assert_eq!(decimal_text(u64::MAX), "18446744073709551615");
}

#[test]
fn versions_are_written_with_their_marks() {
    assert_eq!(version(1, 2, 3, "", "").to_text(), "1.2.3");
    assert_eq!(version(0, 10, 0, "alpha.1", "").to_text(), "0.10.0-alpha.1");
    assert_eq!(version(2, 0, 1, "", "build5").to_text(), "2.0.1+build5");
    assert_eq!(version(2, 0, 1, "rc.2", "exp.sha").to_text(), "2.0.1-rc.2+exp.sha");
}

#[test]
fn minor_bump_resets_or_keeps_the_patch() {
    let reset = version(1, 2, 3, "", "").bump_minor(BumpStrategy::ResetPatch).unwrap();
    assert_eq!((reset.major, reset.minor, reset.patch), (1, 3, 0));
    let kept = version(1, 2, 3, "", "").bump_minor(BumpStrategy::KeepPatch).unwrap();
    assert_eq!((kept.major, kept.minor, kept.patch), (1, 3, 3));
    let marked = version(0, 9, 9, "beta", "b1").bump_minor(BumpStrategy::ResetPatch).unwrap();
    assert_eq!(marked.to_text(), "0.10.0-beta+b1");
}

#[test]
fn minor_at_the_limit_cannot_be_bumped() {
    assert!(version(1, u64::MAX, 0, "", "").bump_minor(BumpStrategy::ResetPatch).is_none());
    assert!(version(1, u64::MAX, 0, "", "").bump_minor(BumpStrategy::KeepPatch).is_none());
    assert!(version(1, u64::MAX - 1, 0, "", "").bump_minor(BumpStrategy::KeepPatch).is_some());
}

#[test]
fn caret_requirement_puts_a_caret_in_front() {
    assert_eq!(caret_requirement("1.3.0"), "^1.3.0");
    assert_eq!(caret_requirement(""), "^");
}

#[test]
fn duplicate_keeps_every_part() {
    let v = version(4, 5, 6, "pre", "meta").duplicate();
    assert_eq!(v.to_text(), "4.5.6-pre+meta");
}

#[test]
fn bumped_text_follows_what_was_read() {
    assert_eq!(
        bumped_text(Some(version(1, 2, 3, "", "")), BumpStrategy::ResetPatch),
        Ok("1.3.0".to_string())
    );
    assert_eq!(
        bumped_text(Some(version(1, 2, 3, "", "")), BumpStrategy::KeepPatch),
        Ok("1.3.3".to_string())
    );
    assert_eq!(bumped_text(None, BumpStrategy::ResetPatch), Err(EditFailure::Malformed));
    assert_eq!(
        bumped_text(Some(version(0, u64::MAX, 0, "", "")), BumpStrategy::ResetPatch),
        Err(EditFailure::Overflow)
    );
}
