use cache_churn::decimal::parse_number;
use cache_churn::error::ExtractError;
use cache_churn::event::{BlockKey, Event, EventKind};
use cache_churn::extract::{
    detect_section, event_from_groups, events_from_captures, events_in, parse, EVENT_PATTERN,
    EVICTED_MARKER, MISSED_MARKER,
};
use cache_churn::time::Timestamp;

fn line(sst: &str, blk: &str, sec: &str, nsec: &str) -> String {
    format!(
        "SstableBlockIndex {{ sst_id: {sst}, block_idx: {blk} }}, SystemTime {{ tv_sec: {sec}, tv_nsec: {nsec} }}"
    )
}

fn event(sst_id: u64, block_idx: u64, secs: u64, nanos: u32, kind: EventKind) -> Event {
    Event { key: BlockKey { sst_id, block_idx }, time: Timestamp::new(secs, nanos).unwrap(), kind }
}

fn groups(fields: &[&str]) -> Vec<Option<String>> {
    let mut all = vec![Some(String::from("whole match"))];
    for text in fields {
        all.push(Some(String::from(*text)));
    }
    all
}

#[test]
fn markers_are_the_two_section_lines() {
    assert_eq!(EVICTED_MARKER, "========== EVICTED DATA BLOCKS ==========");
    assert_eq!(MISSED_MARKER, "========== MISSED DATA BLOCKS ==========");
}

#[test]
fn two_evicted_lines_give_two_evicted_events() {
    let text = format!(
        "{EVICTED_MARKER}\n{}\n{}\n",
        line("7", "3", "1000", "5"),
        line("8", "4", "2000", "999999999")
    );
    let events = parse(&text).unwrap();
    assert_eq!(
        events,
        vec![
            event(7, 3, 1000, 5, EventKind::Evicted),
            event(8, 4, 2000, 999_999_999, EventKind::Evicted),
        ]
    );
    assert_eq!(events[0].time.secs(), 1000);
    assert_eq!(events[0].time.subsec_nanos(), 5);
    assert_eq!(events[1].time.secs(), 2000);
    assert_eq!(events[1].time.subsec_nanos(), 999_999_999);
}

#[test]
fn missed_marker_gives_missed_events() {
    let text = format!("{MISSED_MARKER}\n{}\n", line("1", "2", "3", "4"));
    assert_eq!(parse(&text), Ok(vec![event(1, 2, 3, 4, EventKind::Missed)]));
}

#[test]
fn block_without_marker_is_empty() {
    let text = format!("{}\n{}\n", line("7", "3", "1000", "5"), line("8", "4", "2000", "6"));
    assert_eq!(parse(&text), Ok(vec![]));
    assert_eq!(parse(""), Ok(vec![]));
    assert_eq!(parse("========== EVICTED DATA BLOCK =========="), Ok(vec![]));
}

#[test]
fn block_without_marker_is_empty_even_with_a_bad_number() {
    let text = line("99999999999999999999999999", "3", "1000", "5");
    assert_eq!(parse(&text), Ok(vec![]));
}

#[test]
fn marker_without_lines_is_empty() {
    assert_eq!(parse(EVICTED_MARKER), Ok(vec![]));
    assert_eq!(parse(MISSED_MARKER), Ok(vec![]));
}

#[test]
fn marker_may_stand_anywhere_in_the_block() {
    let text = format!("{} trailing {MISSED_MARKER} text", line("1", "2", "3", "4"));
    assert_eq!(parse(&text), Ok(vec![event(1, 2, 3, 4, EventKind::Missed)]));
}

#[test]
fn eviction_marker_comes_first_when_both_are_there() {
    let text = format!("{MISSED_MARKER}\n{EVICTED_MARKER}\n{}", line("1", "2", "3", "4"));
    assert_eq!(detect_section(&text), Some(EventKind::Evicted));
    assert_eq!(parse(&text), Ok(vec![event(1, 2, 3, 4, EventKind::Evicted)]));
}

#[test]
fn section_is_told_by_the_marker() {
    assert_eq!(detect_section(EVICTED_MARKER), Some(EventKind::Evicted));
    assert_eq!(detect_section(MISSED_MARKER), Some(EventKind::Missed));
    assert_eq!(detect_section("=========="), None);
    assert_eq!(detect_section(""), None);
    assert_eq!(detect_section("x========== MISSED DATA BLOCKS ==========x"), Some(EventKind::Missed));
    assert_eq!(detect_section("========== missed data blocks =========="), None);
}

#[test]
fn text_that_is_no_event_line_is_passed_over() {
    let text = format!(
        "{EVICTED_MARKER}\nnoise\n{}\nSstableBlockIndex {{ sst_id: x, block_idx: 1 }}\n{} and more\n",
        line("1", "2", "3", "4"),
        line("5", "6", "7", "8")
    );
    assert_eq!(
        parse(&text),
        Ok(vec![event(1, 2, 3, 4, EventKind::Evicted), event(5, 6, 7, 8, EventKind::Evicted)])
    );
}

#[test]
fn lines_on_one_row_are_read_from_left_to_right() {
    let text = format!(
        "{MISSED_MARKER}{}{}",
        line("2", "2", "20", "0"),
        line("1", "1", "10", "0")
    );
    assert_eq!(
        parse(&text),
        Ok(vec![event(2, 2, 20, 0, EventKind::Missed), event(1, 1, 10, 0, EventKind::Missed)])
    );
}

#[test]
fn largest_numbers_are_read() {
    let text = format!(
        "{EVICTED_MARKER}\n{}",
        line("18446744073709551615", "18446744073709551615", "18446744073709551615", "999999999")
    );
    let events = parse(&text).unwrap();
    assert_eq!(events.len(), 1);
    assert_eq!(events[0].key, BlockKey { sst_id: u64::MAX, block_idx: u64::MAX });
    assert_eq!(events[0].time.secs(), u64::MAX);
    assert_eq!(events[0].time.subsec_nanos(), 999_999_999);
}

#[test]
fn leading_zeros_do_not_count() {
    let text = format!("{EVICTED_MARKER}\n{}", line("007", "000", "0000000000000000000000001", "05"));
    assert_eq!(parse(&text), Ok(vec![event(7, 0, 1, 5, EventKind::Evicted)]));
}

#[test]
fn whole_seconds_in_the_nanoseconds_are_carried() {
    let text = format!("{EVICTED_MARKER}\n{}", line("1", "1", "10", "4294967295"));
    let events = parse(&text).unwrap();
    assert_eq!(events[0].time.secs(), 14);
    assert_eq!(events[0].time.subsec_nanos(), 294_967_295);
}

#[test]
fn field_beyond_u64_is_an_overflow() {
    let text = format!("{MISSED_MARKER}\n{}\n", line("18446744073709551616", "3", "1000", "5"));
    assert_eq!(parse(&text), Err(ExtractError::NumericOverflow));
    let text = format!("{MISSED_MARKER}\n{}\n", line("1", "18446744073709551616", "1000", "5"));
    assert_eq!(parse(&text), Err(ExtractError::NumericOverflow));
    let text = format!("{MISSED_MARKER}\n{}\n", line("1", "3", "99999999999999999999", "5"));
    assert_eq!(parse(&text), Err(ExtractError::NumericOverflow));
}

#[test]
fn nanoseconds_beyond_u32_are_an_overflow() {
    let text = format!("{MISSED_MARKER}\n{}\n", line("1", "3", "1000", "4294967296"));
    assert_eq!(parse(&text), Err(ExtractError::NumericOverflow));
}

#[test]
fn time_beyond_the_last_second_is_an_overflow() {
    let text = format!(
        "{MISSED_MARKER}\n{}\n",
        line("1", "3", "18446744073709551615", "1000000000")
    );
    assert_eq!(parse(&text), Err(ExtractError::NumericOverflow));
}

#[test]
fn one_bad_line_fails_the_whole_block() {
    let text = format!(
        "{EVICTED_MARKER}\n{}\n{}\n{}\n",
        line("1", "2", "3", "4"),
        line("1", "2", "3", "4294967296"),
        line("5", "6", "7", "8")
    );
    assert_eq!(parse(&text), Err(ExtractError::NumericOverflow));
}

#[test]
fn digits_of_another_script_are_no_number() {
    let text = format!("{EVICTED_MARKER}\n{}", line("\u{0663}", "2", "3", "4"));
    assert_eq!(parse(&text), Err(ExtractError::InvalidDigit));
}

#[test]
fn first_bad_field_names_the_error() {
    let text = format!(
        "{EVICTED_MARKER}\n{}",
        line("\u{0663}", "99999999999999999999", "3", "4")
    );
    assert_eq!(parse(&text), Err(ExtractError::InvalidDigit));
    let text = format!(
        "{EVICTED_MARKER}\n{}",
        line("99999999999999999999", "\u{0663}", "3", "4")
    );
    assert_eq!(parse(&text), Err(ExtractError::NumericOverflow));
}

#[test]
fn pattern_that_does_not_compile_is_refused() {
    let text = line("1", "2", "3", "4");
    assert_eq!(events_in(EventKind::Evicted, "(", &text), Err(ExtractError::InvalidPattern));
}

#[test]
fn events_in_reads_with_the_given_pattern() {
    let text = line("1", "2", "3", "4");
    assert_eq!(
        events_in(EventKind::Missed, EVENT_PATTERN, &text),
        Ok(vec![event(1, 2, 3, 4, EventKind::Missed)])
    );
    assert_eq!(
        events_in(EventKind::Missed, r"(\d+);(\d+);(\d+);(\d+)", "9;8;7;6 x 1;2;3;4"),
        Ok(vec![event(9, 8, 7, 6, EventKind::Missed), event(1, 2, 3, 4, EventKind::Missed)])
    );
    assert_eq!(events_in(EventKind::Missed, EVENT_PATTERN, "nothing here"), Ok(vec![]));
}

#[test]
fn pattern_with_too_few_groups_misses_fields() {
    assert_eq!(
        events_in(EventKind::Missed, r"(\d+);(\d+);(\d+)", "9;8;7"),
        Err(ExtractError::MissingField)
    );
}

#[test]
fn group_that_took_no_part_is_a_missing_field() {
    assert_eq!(
        events_in(EventKind::Missed, r"(\d+);(\d+);(\d+);(\d+)?", "9;8;7;"),
        Err(ExtractError::MissingField)
    );
}

#[test]
fn groups_of_one_match_give_one_event() {
    assert_eq!(
        event_from_groups(EventKind::Evicted, &groups(&["12", "34", "56", "78"])),
        Ok(event(12, 34, 56, 78, EventKind::Evicted))
    );
}

#[test]
fn groups_beyond_the_fourth_are_not_read() {
    assert_eq!(
        event_from_groups(EventKind::Evicted, &groups(&["12", "34", "56", "78", "x"])),
        Ok(event(12, 34, 56, 78, EventKind::Evicted))
    );
}

#[test]
fn match_without_its_fields_is_refused() {
    assert_eq!(event_from_groups(EventKind::Evicted, &vec![]), Err(ExtractError::MissingField));
    assert_eq!(
        event_from_groups(EventKind::Evicted, &groups(&["1", "2", "3"])),
        Err(ExtractError::MissingField)
    );
    let mut with_gap = groups(&["1", "2", "3", "4"]);
    with_gap[2] = None;
    assert_eq!(event_from_groups(EventKind::Evicted, &with_gap), Err(ExtractError::MissingField));
    let mut bad_and_gap = groups(&["x", "2", "3", "4"]);
    bad_and_gap[4] = None;
    assert_eq!(event_from_groups(EventKind::Evicted, &bad_and_gap), Err(ExtractError::MissingField));
}

#[test]
fn whole_match_need_not_be_there() {
    let mut found = groups(&["1", "2", "3", "4"]);
    found[0] = None;
    assert_eq!(
        event_from_groups(EventKind::Missed, &found),
        Ok(event(1, 2, 3, 4, EventKind::Missed))
    );
}

#[test]
fn field_that_is_no_number_is_refused() {
    assert_eq!(
        event_from_groups(EventKind::Evicted, &groups(&["", "2", "3", "4"])),
        Err(ExtractError::InvalidDigit)
    );
    assert_eq!(
        event_from_groups(EventKind::Evicted, &groups(&["1", "+2", "3", "4"])),
        Err(ExtractError::InvalidDigit)
    );
    assert_eq!(
        event_from_groups(EventKind::Evicted, &groups(&["1", "2", " 3", "4"])),
        Err(ExtractError::InvalidDigit)
    );
    assert_eq!(
        event_from_groups(EventKind::Evicted, &groups(&["1", "2", "3", "4x"])),
        Err(ExtractError::InvalidDigit)
    );
}

#[test]
fn matches_give_their_events_in_order() {
    let found = vec![groups(&["1", "2", "3", "4"]), groups(&["5", "6", "7", "8"])];
    assert_eq!(
        events_from_captures(EventKind::Missed, &found),
        Ok(vec![event(1, 2, 3, 4, EventKind::Missed), event(5, 6, 7, 8, EventKind::Missed)])
    );
    assert_eq!(events_from_captures(EventKind::Missed, &vec![]), Ok(vec![]));
}

#[test]
fn first_bad_match_names_the_error() {
    let found = vec![
        groups(&["1", "2", "3", "4"]),
        groups(&["1", "2", "3"]),
        groups(&["1", "2", "x", "4"]),
    ];
    assert_eq!(events_from_captures(EventKind::Missed, &found), Err(ExtractError::MissingField));
    let found = vec![
        groups(&["1", "2", "x", "4"]),
        groups(&["1", "2", "3"]),
    ];
    assert_eq!(events_from_captures(EventKind::Missed, &found), Err(ExtractError::InvalidDigit));
}

#[test]
fn numbers_are_read_in_decimal() {
    assert_eq!(parse_number("0", u64::MAX), Ok(0));
    assert_eq!(parse_number("42", u64::MAX), Ok(42));
    assert_eq!(parse_number("0042", u64::MAX), Ok(42));
    assert_eq!(parse_number("18446744073709551615", u64::MAX), Ok(u64::MAX));
    assert_eq!(parse_number("4294967295", 4_294_967_295), Ok(4_294_967_295));
    assert_eq!(parse_number("100", 100), Ok(100));
}

#[test]
fn numbers_beyond_the_limit_overflow() {
    assert_eq!(parse_number("18446744073709551616", u64::MAX), Err(ExtractError::NumericOverflow));
    assert_eq!(parse_number("4294967296", 4_294_967_295), Err(ExtractError::NumericOverflow));
    assert_eq!(parse_number("101", 100), Err(ExtractError::NumericOverflow));
    assert_eq!(
        parse_number("340282366920938463463374607431768211456", u64::MAX),
        Err(ExtractError::NumericOverflow)
    );
    assert_eq!(parse_number("1", 0), Err(ExtractError::NumericOverflow));
}

#[test]
fn text_with_anything_but_digits_is_no_number() {
    assert_eq!(parse_number("", u64::MAX), Err(ExtractError::InvalidDigit));
    assert_eq!(parse_number("+1", u64::MAX), Err(ExtractError::InvalidDigit));
    assert_eq!(parse_number("-1", u64::MAX), Err(ExtractError::InvalidDigit));
    assert_eq!(parse_number("1_000", u64::MAX), Err(ExtractError::InvalidDigit));
    assert_eq!(parse_number("12a", u64::MAX), Err(ExtractError::InvalidDigit));
    assert_eq!(parse_number("/", u64::MAX), Err(ExtractError::InvalidDigit));
    assert_eq!(parse_number(":", u64::MAX), Err(ExtractError::InvalidDigit));
    assert_eq!(parse_number("99999999999999999999999x", u64::MAX), Err(ExtractError::InvalidDigit));
}
