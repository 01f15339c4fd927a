use qlox::utils::range::IntoRange;
use qlox::utils::string::Substring;

fn range_eq<L, R>(left: L, right: R) -> bool
where
    L: IntoRange<usize>,
    R: IntoRange<usize>,
{
    left.into_range(0..10) == right.into_range(0..10)
}

#[test]
fn into_range() {
    assert!(range_eq(3..7, 3..7));
    assert!(range_eq(3..=7, 3..8));
    assert!(range_eq(3.., 3..10));
    assert!(range_eq(..7, 0..7));
    assert!(range_eq(.., 0..10));
}

#[test]
fn substring() {
    let s: String = String::from("[Alice]");
    assert_eq!(s.substring(1..3).unwrap(), "Al");
    assert_eq!(s.substring(1..=3).unwrap(), "Ali");
    assert_eq!(s.substring(1..).unwrap(), "Alice]");
    assert_eq!(s.substring(..3).unwrap(), "[Al");
    assert_eq!(s.substring(..).unwrap(), "[Alice]");

    assert_eq!(s.substring_lossy(1..3), "Al");
    assert_eq!(s.substring_lossy(1..=3), "Ali");
    assert_eq!(s.substring_lossy(1..), "Alice]");
    assert_eq!(s.substring_lossy(..3), "[Al");
    assert_eq!(s.substring_lossy(..), "[Alice]");

    let s: &str = &s[1..s.len() - 1];
    assert_eq!(s.substring(..).unwrap(), "Alice");
    assert_eq!(s.substring_lossy(1..3), "li");

    let v: Vec<u8> = String::from("[Alice]").into_bytes();
    assert_eq!(v.substring(1..3).unwrap(), "Al");
    assert_eq!(v.substring(1..=3).unwrap(), "Ali");
    assert_eq!(v.substring(1..).unwrap(), "Alice]");
    assert_eq!(v.substring(..3).unwrap(), "[Al");
    assert_eq!(v.substring(..).unwrap(), "[Alice]");

    assert_eq!(v.substring_lossy(1..3), "Al");
    assert_eq!(v.substring_lossy(1..=3), "Ali");
    assert_eq!(v.substring_lossy(1..), "Alice]");
    assert_eq!(v.substring_lossy(..3), "[Al");
    assert_eq!(v.substring_lossy(..), "[Alice]");

    let v: &[u8] = &v[1..v.len() - 1];
    assert_eq!(v.substring(..).unwrap(), "Alice");
    assert_eq!(v.substring_lossy(1..3), "li");
}

#[test]
fn substring_reports_first_invalid_byte() {
    let v: Vec<u8> = vec![b'a', b'b', 0xff, b'c'];
    let e = v.substring(..).err().unwrap();
    assert_eq!(e.valid_up_to, 2);
    assert_eq!(e.range, 0..4);
    assert_eq!(v.substring_lossy(..), "ab\u{fffd}c");
    assert_eq!(v.substring(3..).unwrap(), "c");
}
