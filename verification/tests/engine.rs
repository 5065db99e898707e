use bulk_react::engine::{Engine, Step, ACTION_DELAY_MS, PAGE_SIZE_CAP};
use bulk_react::snowflake::{parse_snowflake, Snowflake};

fn id(n: u64) -> Snowflake {
    Snowflake::new(n).unwrap()
}

#[test]
fn snowflake_rejects_zero() {
    assert!(Snowflake::new(0).is_none());
    let s = Snowflake::new(7).unwrap();
    assert_eq!(s.get(), 7);
    assert_eq!(s, id(7));
    assert_ne!(s, id(8));
}

#[test]
fn parsing_reads_decimal_identifiers() {
    assert_eq!(parse_snowflake(b"123"), Some(id(123)));
    assert_eq!(parse_snowflake(b"987654321098765432"), Some(id(987654321098765432)));
    // The largest 64-bit value is readable; one more is not.
    assert_eq!(parse_snowflake(b"18446744073709551615"), Some(id(u64::MAX)));
    assert_eq!(parse_snowflake(b"18446744073709551616"), None);
    // Zero is not a valid identifier, empty and non-digit strings no number.
    assert_eq!(parse_snowflake(b"0"), None);
    assert_eq!(parse_snowflake(b"00"), None);
    assert_eq!(parse_snowflake(b""), None);
    assert_eq!(parse_snowflake(b"12a"), None);
    assert_eq!(parse_snowflake(b"-12"), None);
    assert_eq!(parse_snowflake(b" 12"), None);
    // Leading zeros are digits all the same.
    assert_eq!(parse_snowflake(b"007"), Some(id(7)));
}

#[test]
fn constants_match_the_protocol() {
    assert_eq!(ACTION_DELAY_MS, 500);
    assert_eq!(PAGE_SIZE_CAP, 100);
}

#[test]
fn first_step_fetches_the_whole_limit_when_small() {
    let e = Engine::new(7, None);
    assert_eq!(e.next_step(), Step::FetchPage { page_size: 7, before: None });
}

#[test]
fn page_size_is_clamped_to_the_cap() {
    let e = Engine::new(150, None);
    assert_eq!(e.next_step(), Step::FetchPage { page_size: 100, before: None });
    let f = Engine::new(100, None);
    assert_eq!(f.next_step(), Step::FetchPage { page_size: 100, before: None });
}

#[test]
fn zero_limit_is_finished_at_once() {
    let e = Engine::new(0, None);
    assert_eq!(e.next_step(), Step::Finished);
    assert_eq!(e.remaining(), 0);
}

#[test]
fn starting_item_is_applied_before_any_fetch() {
    let s = id(42);
    let mut e = Engine::new(1, Some(s));
    assert_eq!(e.next_step(), Step::Apply { item: s });
    e.on_applied();
    assert_eq!(e.next_step(), Step::Finished);
    assert_eq!(e.remaining(), 0);
    assert_eq!(e.cursor(), Some(s));
}

#[test]
fn starting_item_becomes_the_first_boundary() {
    let s = id(42);
    let mut e = Engine::new(3, Some(s));
    e.on_applied();
    assert_eq!(e.next_step(), Step::FetchPage { page_size: 2, before: Some(s) });
}

#[test]
fn cursor_tracks_the_applied_item_not_the_fetched_one() {
    let mut e = Engine::new(5, None);
    e.on_page(vec![id(30), id(20), id(10)]);
    assert_eq!(e.cursor(), None);
    assert_eq!(e.next_step(), Step::Apply { item: id(30) });
    e.on_applied();
    // Items 20 and 10 are fetched but not yet applied: the boundary is 30.
    assert_eq!(e.cursor(), Some(id(30)));
    e.on_applied();
    assert_eq!(e.cursor(), Some(id(20)));
    e.on_applied();
    assert_eq!(e.cursor(), Some(id(10)));
    assert_eq!(e.remaining(), 2);
    assert_eq!(e.next_step(), Step::FetchPage { page_size: 2, before: Some(id(10)) });
}

#[test]
fn empty_page_finishes_the_run_early() {
    let mut e = Engine::new(5, None);
    e.on_page(Vec::new());
    assert_eq!(e.next_step(), Step::Finished);
    assert_eq!(e.remaining(), 5);
}
