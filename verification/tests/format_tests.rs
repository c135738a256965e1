use snapdiff::util;

#[test]
fn dec() {
    assert_eq!(snapdiff::format::dec(-123_456_789), "-123,456,789");
    assert_eq!(snapdiff::format::dec(-12_345), "-12,345");
    assert_eq!(snapdiff::format::dec(-1), "-1");
    assert_eq!(snapdiff::format::dec(0), "0");
    assert_eq!(snapdiff::format::dec(1), "1");
    assert_eq!(snapdiff::format::dec(543), "543");
    assert_eq!(snapdiff::format::dec(987), "987");
    assert_eq!(snapdiff::format::dec(1_234), "1,234");
    assert_eq!(snapdiff::format::dec(9_876), "9,876");
    assert_eq!(snapdiff::format::dec(12_345), "12,345");
    assert_eq!(snapdiff::format::dec(98_765), "98,765");
    assert_eq!(snapdiff::format::dec(123_456_789), "123,456,789");
}

#[test]
fn dec_signed() {
    assert_eq!(snapdiff::format::dec_signed(-1), "-1");
    assert_eq!(snapdiff::format::dec_signed(0), "0");
    assert_eq!(snapdiff::format::dec_signed(1), "+1");
}

#[test]
fn dec_human() {
    assert_eq!(snapdiff::format::size_human(0), "0 B");
    assert_eq!(snapdiff::format::size_human(1), "1 B");
    assert_eq!(snapdiff::format::size_human(543), "543 B");
    assert_eq!(snapdiff::format::size_human(987), "987 B");
    assert_eq!(snapdiff::format::size_human(1_234), "1.2 K");
    assert_eq!(snapdiff::format::size_human(9_999), "9.9 K");
    assert_eq!(snapdiff::format::size_human(34_567), "34.5 K");
    assert_eq!(snapdiff::format::size_human(123_456), "123.4 K");
    assert_eq!(snapdiff::format::size_human(999_999), "999.9 K");
    assert_eq!(snapdiff::format::size_human(1_234_567), "1.2 M");
    assert_eq!(snapdiff::format::size_human(1_234_567_890), "1.2 G");
}

#[test]
fn duration_human() {
    assert_eq!(snapdiff::format::duration_human(0), "0s");
    assert_eq!(snapdiff::format::duration_human(59), "59s");
    assert_eq!(snapdiff::format::duration_human(60), "1m 0s");
    assert_eq!(snapdiff::format::duration_human(61), "1m 1s");
    assert_eq!(snapdiff::format::duration_human(34 * 60), "34m 0s");
    assert_eq!(snapdiff::format::duration_human(34 * 60 + 12), "34m 12s");
    assert_eq!(snapdiff::format::duration_human(59 * 60 + 59), "59m 59s");
    assert_eq!(snapdiff::format::duration_human(60 * 60), "1h 0m 0s");
    assert_eq!(snapdiff::format::duration_human(1 * 60 * 60 + 1), "1h 0m 1s");
    assert_eq!(snapdiff::format::duration_human(1 * 60 * 60 + 44 * 60), "1h 44m 0s");
    assert_eq!(
        snapdiff::format::duration_human(7 * 60 * 60 + 32 * 60 + 54),
        "7h 32m 54s"
    );
}

#[test]
fn percent() {
    assert_eq!(snapdiff::format::percent(0, 100), "0 %");
    assert_eq!(snapdiff::format::percent(1, 100), "1 %");
    assert_eq!(snapdiff::format::percent(50, 100), "50 %");
    assert_eq!(snapdiff::format::percent(99, 100), "99 %");
    assert_eq!(snapdiff::format::percent(100, 100), "100 %");
    assert_eq!(snapdiff::format::percent(2, 101), "1 %");
    assert_eq!(snapdiff::format::percent(50, 101), "49 %");
    assert_eq!(snapdiff::format::percent(75, 50), "150 %");
}

#[test]
fn dec_groups_of_three_keep_their_zeros() {
    assert_eq!(snapdiff::format::dec(1_000), "1,000");
    assert_eq!(snapdiff::format::dec(1_001), "1,001");
    assert_eq!(snapdiff::format::dec(1_000_000), "1,000,000");
    assert_eq!(snapdiff::format::dec(20_030_004), "20,030,004");
    assert_eq!(snapdiff::format::dec(999), "999");
}

#[test]
fn dec_at_the_ends_of_the_range() {
    assert_eq!(
        snapdiff::format::dec(i128::MAX),
        "170,141,183,460,469,231,731,687,303,715,884,105,727"
    );
    assert_eq!(
        snapdiff::format::dec(i128::MIN),
        "-170,141,183,460,469,231,731,687,303,715,884,105,728"
    );
    assert_eq!(snapdiff::format::dec(u64::MAX as i128), "18,446,744,073,709,551,615");
}

#[test]
fn dec_signed_with_groups() {
    assert_eq!(snapdiff::format::dec_signed(1_234_567), "+1,234,567");
    assert_eq!(snapdiff::format::dec_signed(-1_234_567), "-1,234,567");
}

#[test]
fn dec_format_separates_with_points() {
    assert_eq!(util::dec_format(0), "0");
    assert_eq!(util::dec_format(999), "999");
    assert_eq!(util::dec_format(1_234), "1.234");
    assert_eq!(util::dec_format(-12_345), "-12.345");
    assert_eq!(util::dec_format(123_456_789), "123.456.789");
}

#[test]
fn size_human_cuts_off_and_stops_at_the_largest_unit() {
    assert_eq!(snapdiff::format::size_human(999), "999 B");
    assert_eq!(snapdiff::format::size_human(1_000), "1.0 K");
    assert_eq!(snapdiff::format::size_human(1_999), "1.9 K");
    assert_eq!(snapdiff::format::size_human(1_000_000_000_000), "1.0 T");
    assert_eq!(snapdiff::format::size_human(1_234_000_000_000_000), "1.2 P");
    assert_eq!(snapdiff::format::size_human(u64::MAX), "18,446.7 P");
}

#[test]
fn percent_of_large_numbers_does_not_overflow() {
    assert_eq!(snapdiff::format::percent(u64::MAX, u64::MAX), "100 %");
    assert_eq!(snapdiff::format::percent(u64::MAX, 1), "1844674407370955161500 %");
}

#[test]
fn pad_left_aligns_to_the_right() {
    assert_eq!(snapdiff::format::pad_left("ab", 5), "   ab");
    assert_eq!(snapdiff::format::pad_left("abcde", 5), "abcde");
    assert_eq!(snapdiff::format::pad_left("abcdef", 5), "abcdef");
    assert_eq!(snapdiff::format::pad_left("", 3), "   ");
    assert_eq!(snapdiff::format::pad_left("x", 0), "x");
}

#[test]
fn append_number_writes_behind_what_is_there() {
    let mut text = String::from("n=");
    snapdiff::format::append_number(&mut text, 0);
    snapdiff::format::append_number(&mut text, 12_345);
    assert_eq!(text, "n=012345");
}
