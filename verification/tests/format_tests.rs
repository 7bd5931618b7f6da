use beebot::dates::{daily_request_id, get_daily_request_id, LocalDate};
use beebot::numfmt::{i64_to_string, u64_pad2, u64_pad4, u64_to_string};

#[test]
fn unsigned_decimal_text() {
    assert_eq!(u64_to_string(0), "0");
    assert_eq!(u64_to_string(7), "7");
    assert_eq!(u64_to_string(30), "30");
    assert_eq!(u64_to_string(1009), "1009");
    assert_eq!(u64_to_string(u64::MAX), "18446744073709551615");
}

#[test]
fn signed_decimal_text() {
    assert_eq!(i64_to_string(0), "0");
    assert_eq!(i64_to_string(3), "3");
    assert_eq!(i64_to_string(-5), "-5");
    assert_eq!(i64_to_string(i64::MAX), "9223372036854775807");
    assert_eq!(i64_to_string(i64::MIN), "-9223372036854775808");
}

#[test]
fn zero_padded_text() {
    assert_eq!(u64_pad2(0), "00");
    assert_eq!(u64_pad2(7), "07");
    assert_eq!(u64_pad2(12), "12");
    assert_eq!(u64_pad4(0), "0000");
    assert_eq!(u64_pad4(42), "0042");
    assert_eq!(u64_pad4(2024), "2024");
    assert_eq!(u64_pad4(12345), "12345");
}

#[test]
fn daily_key_has_fixed_format() {
    let d = LocalDate { year: 2024, month: 3, day: 7 };
    assert_eq!(daily_request_id(&d), "BOT_2024-03-07");
    let d2 = LocalDate { year: 1999, month: 12, day: 31 };
    assert_eq!(daily_request_id(&d2), "BOT_1999-12-31");
    let far = LocalDate { year: 12345, month: 1, day: 2 };
    assert_eq!(daily_request_id(&far), "BOT_12345-01-02");
    let bce = LocalDate { year: -44, month: 3, day: 15 };
    assert_eq!(daily_request_id(&bce), "BOT_-0044-03-15");
}

#[test]
fn daily_key_same_day_same_string_next_day_differs() {
    let today = LocalDate { year: 2024, month: 3, day: 7 };
    let first = daily_request_id(&today);
    let second = daily_request_id(&today);
    assert_eq!(first, second);
    let tomorrow = LocalDate { year: 2024, month: 3, day: 8 };
    assert_ne!(daily_request_id(&tomorrow), first);
    let next_month = LocalDate { year: 2024, month: 4, day: 7 };
    assert_ne!(daily_request_id(&next_month), first);
    let next_year = LocalDate { year: 2025, month: 3, day: 7 };
    assert_ne!(daily_request_id(&next_year), first);
}

#[test]
fn todays_key_matches_the_date_library() {
    // computed twice in case the test straddles midnight
    let before = chrono::Local::now().format("BOT_%Y-%m-%d").to_string();
    let key = get_daily_request_id();
    let after = chrono::Local::now().format("BOT_%Y-%m-%d").to_string();
    assert!(key == before || key == after, "key {:?} is not today's", key);
}
