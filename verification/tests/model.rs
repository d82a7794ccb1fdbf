use ontv::hex16::Hex16;
use ontv::raw::{Raw, Raw16};

#[test]
fn hex16_test_hex16() {
    let id = Hex16::from(0x61d78641a649a);
    assert_eq!(id.to_string(), "61d78641a649a");
    let id = Hex16::from_hex(b"61d78641a649a").unwrap();
    assert_eq!(id.to_string(), "61d78641a649a");
    let id = Hex16::from_hex("61d78641a649a".as_bytes()).unwrap();
    assert_eq!(id.to_string(), "61d78641a649a");
}

#[test]
fn raw_test_raw16() {
    let id = Raw::<16>::new(b"foobarbaz").unwrap();
    assert_eq!(id.to_string(), "foobarbaz");
    let id = Raw::<16>::new("foobarbaz".as_bytes()).unwrap();
    assert_eq!(id.to_string(), "foobarbaz");
}

#[test]
fn raw16_test_raw16() {
    let id = Raw16::from_string(b"foobarbaz");
    assert_eq!(id.to_string(), "foobarbaz");
    let id = Raw16::from_string("foobarbaz".as_bytes());
    assert_eq!(id.to_string(), "foobarbaz");
}

#[test]
fn tests_test_hex16() {
    let id = Hex16::from(0x61d78641a649a);
    assert_eq!(id.to_string(), "61d78641a649a");
    let id = Hex16::from_hex(b"61d78641a649a").unwrap();
    assert_eq!(id.to_string(), "61d78641a649a");
    let id = Hex16::from_hex("61d78641a649a".as_bytes()).unwrap();
    assert_eq!(id.to_string(), "61d78641a649a");
}

#[test]
fn tests_test_raw16() {
    let id = Raw16::from_string(b"foobarbaz");
    assert_eq!(id.to_string(), "foobarbaz");
    let id = Raw16::from_string("foobarbaz".as_bytes());
    assert_eq!(id.to_string(), "foobarbaz");
}
