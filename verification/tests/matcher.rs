use structured_logger::target::{InnerTarget, Target};

#[test]
fn target_works() {
    let target = InnerTarget::from(Target::from("*"));
    assert!(target.test(""));
    assert!(target.test("api"));
    assert!(target.test("hello"));

    let target = InnerTarget::from(Target::from("api*, file,db"));
    assert!(!target.test(""));
    assert!(!target.test("apx"));
    assert!(!target.test("err"));
    assert!(!target.test("dbx"));
    assert!(target.test("api"));
    assert!(target.test("apiinfo"));
    assert!(target.test("apierr"));
    assert!(target.test("file"));
    assert!(target.test("db"));

    let target = InnerTarget::from(Target::from("api*, file, *"));
    assert!(target.test(""));
    assert!(target.test("apx"));
    assert!(target.test("err"));
    assert!(target.test("api"));
    assert!(target.test("apiinfo"));
    assert!(target.test("apierr"));
    assert!(target.test("error"));
}

#[test]
fn plain_pattern_works() {
    let target = InnerTarget::from(Target::from("api*,file,db"));
    assert!(target.test("api"));
    assert!(target.test("apiinfo"));
    assert!(target.test("apierr"));
    assert!(target.test("file"));
    assert!(target.test("db"));
    assert!(!target.test(""));
    assert!(!target.test("apx"));
    assert!(!target.test("err"));
    assert!(!target.test("dbx"));
}

#[test]
fn empty_pattern_matches_only_empty_atom() {
    let target = InnerTarget::from(Target::from(""));
    assert!(target.test(""));
    assert!(!target.test("api"));
}

#[test]
fn trailing_stars_collapse() {
    let target = InnerTarget::from(Target::from("api**"));
    assert!(target.test("api"));
    assert!(target.test("apiinfo"));
    assert!(!target.test("ap"));
}
