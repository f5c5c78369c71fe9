use wikipedia_sz_bot::format::{count, duration};

#[test]
fn format_formats_counts() {
    assert_eq!(count(0), "0");
    assert_eq!(count(999), "999");
    assert_eq!(count(1000), "1,000");
    assert_eq!(count(1_013_254), "1,013,254");
}

#[test]
fn formats_durations() {
    assert_eq!(duration(0), "0s");
    assert_eq!(duration(45), "45s");
    assert_eq!(duration(125), "2m05s");
    assert_eq!(duration(60 * 60), "1h00m");
    assert_eq!(duration(210 * 60), "3h30m");
}

#[test]
fn groups_digits_at_every_length() {
    assert_eq!(count(12), "12");
    assert_eq!(count(12_345), "12,345");
    assert_eq!(count(123_456), "123,456");
    assert_eq!(count(u64::MAX), "18,446,744,073,709,551,615");
    assert_eq!(count(u64::MAX).replace(',', ""), u64::MAX.to_string());
}

#[test]
fn shows_the_two_largest_units() {
    assert_eq!(duration(59), "59s");
    assert_eq!(duration(60), "1m00s");
    assert_eq!(duration(3599), "59m59s");
    assert_eq!(duration(3600 + 59), "1h00m");
    assert_eq!(duration(100 * 3600 + 9 * 60), "100h09m");
    assert_eq!(duration(u64::MAX), "5124095576030431h00m");
}

#[test]
fn groups_have_three_digits() {
    for n in [0, 7, 999, 1000, 12_345, 1_000_000, u64::MAX] {
        let text = count(n);
        assert!(!text.starts_with(','));
        for (i, c) in text.chars().rev().enumerate() {
            assert_eq!(c == ',', i % 4 == 3);
        }
    }
}
