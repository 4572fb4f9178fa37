use tcrelay::bloom::{add, check, hash};

#[test]
fn hash_literal() {
    let out = hash(0, b"meow im a fox");
    assert_eq!(out, 29020);
}

#[test]
fn added() {
    let mut filter = [0_u8; 8192];
    add(&mut filter, b"yip");
    add(&mut filter, b"yap");
    add(&mut filter, b"yop");

    assert!(check(&filter, b"yap"));

    assert!(!check(&filter, b"awoo"));
}

#[test]
fn all_ones() {
    let filter = [255_u8; 8192];

    assert!(check(&filter, b"beep"));
    assert!(check(&filter, b"boop"));
}

#[test]
fn zero_filter_rejects() {
    let filter = [0_u8; 8192];
    assert!(!check(&filter, b"meow"));
    assert!(!check(&filter, b""));
}

#[test]
fn add_then_check() {
    let mut filter = [0_u8; 8192];
    add(&mut filter, b"/some/path");
    assert!(check(&filter, b"/some/path"));
    add(&mut filter, b"");
    assert!(check(&filter, b""));
    assert!(check(&filter, b"/some/path"));
}
