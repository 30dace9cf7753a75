use cdn_seeder::http::{byte_range, signed_byte_range, HttpStatus};
use cdn_seeder::text::{push_decimal, push_signed_decimal};

#[test]
fn status_codes_have_three_digits() {
    assert!(HttpStatus::from_u16(99).is_none());
    assert!(HttpStatus::from_u16(100).is_some());
    assert!(HttpStatus::from_u16(999).is_some());
    assert!(HttpStatus::from_u16(1000).is_none());
}

#[test]
fn success_class() {
    for code in 100..=999u16 {
        let status = HttpStatus::from_u16(code).unwrap();
        assert_eq!(status.is_success(), code / 100 == 2);
        assert!(status.has_code(code));
        assert!(!status.has_code(code + 1));
    }
}

#[test]
fn status_texts() {
    assert_eq!(HttpStatus::from_u16(200).unwrap().text(), "200 OK");
    assert_eq!(HttpStatus::from_u16(404).unwrap().text(), "404 Not Found");
    assert_eq!(HttpStatus::from_u16(999).unwrap().text(), "999 <unknown status code>");
}

#[test]
fn numerals_are_those_of_std() {
    for n in [0u64, 1, 9, 10, 99, 100, 1234567890, u64::MAX] {
        let mut text = "x".to_string();
        push_decimal(&mut text, n);
        assert_eq!(text, format!("x{}", n));
    }
    for i in [0i32, 7, -7, -10, i32::MIN, i32::MAX] {
        let mut text = String::new();
        push_signed_decimal(&mut text, i);
        assert_eq!(text, i.to_string());
    }
}

#[test]
fn ranges_include_both_ends() {
    assert_eq!(byte_range(0, 1), "bytes=0-0");
    assert_eq!(byte_range(16384, 16384), "bytes=16384-32767");
    assert_eq!(byte_range(5, 0), "bytes=5-4");
    assert_eq!(signed_byte_range(0, 10), "bytes=0-9");
    assert_eq!(signed_byte_range(-5, 3), "bytes=-5--3");
}

#[test]
fn distinct_ranges_have_distinct_headers() {
    let mut seen = Vec::new();
    for offset in -12..12i32 {
        for len in 1..12i32 {
            seen.push(signed_byte_range(offset, len));
        }
    }
    let all = seen.len();
    seen.sort();
    seen.dedup();
    assert_eq!(seen.len(), all);
}
