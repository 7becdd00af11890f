use oyo::count::{count_digit, push_count_digit, take_count, MAX_COUNT};

#[test]
fn count_digits_need_plain_keys() {
    assert_eq!(count_digit('5', true, false), Some(5));
    assert_eq!(count_digit('0', true, false), None);
    assert_eq!(count_digit('0', true, true), Some(0));
    assert_eq!(count_digit('5', false, false), None);
    assert_eq!(count_digit('x', true, true), None);
}

#[test]
fn digits_build_the_count() {
    let mut c = None;
    for d in [1u8, 2, 3] {
        c = push_count_digit(c, d);
    }
    assert_eq!(c, Some(123));
    assert_eq!(push_count_digit(Some(9999), 9), Some(MAX_COUNT));
    assert_eq!(push_count_digit(Some(usize::MAX), 9), Some(9999));
    let mut pending = Some(7);
    assert_eq!(take_count(&mut pending), 7);
    assert_eq!(pending, None);
    assert_eq!(take_count(&mut pending), 1);
}

#[test]
fn count_digits_require_plain_digit_keys() {
    // A plain key is one typed without modifiers; `ctrl` adds one.
    assert_eq!(count_digit('1', true, false), Some(1));
    assert_eq!(count_digit('0', true, false), None);
    assert_eq!(count_digit('0', true, true), Some(0));
    assert_eq!(count_digit('1', false, false), None);
}
