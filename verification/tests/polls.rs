use poll_registry::decimal::push_decimal;
use poll_registry::error::PollError;
use poll_registry::clock::Clock;
use poll_registry::poll::{
    cleaner, register, route, start, start_at, vote, Event, Route, COMMAND,
};
use poll_registry::record::PollRecord;
use poll_registry::store::PollStore;
use poll_registry::tally::{render, Tally};

fn poll(raw: &str, now: u128) -> PollRecord {
    start_at(raw, now).expect("the input names a label")
}

fn counts(tally: &Tally) -> Vec<(String, usize)> {
    tally.entries.iter().map(|e| (e.option.clone(), e.votes)).collect()
}

fn labels(tally: &Tally) -> Vec<String> {
    tally.entries.iter().map(|e| e.label()).collect()
}

fn store_with(id: u64, raw: &str, now: u128) -> PollStore {
    let mut store = PollStore::new();
    store.insert(id, poll(raw, now));
    store
}

#[test]
fn start_stores_sorted_distinct_options() {
    let record = poll("b,a,a,,b", 0);
    assert_eq!(record.options(), &vec!["a".to_string(), "b".to_string()]);
    assert_eq!(record.start_time(), 0);
    assert_eq!(record.voter_count(), 0);
}

#[test]
fn start_without_options_fails() {
    assert!(matches!(start_at("", 5), Err(PollError::NoOptions)));
    assert!(matches!(start_at(" , ,", 5), Err(PollError::NoOptions)));
}

#[test]
fn fresh_poll_shows_zero_for_every_option() {
    let tally = render(&poll("b,a", 7));
    assert_eq!(tally.content, "Vote:\na,b");
    assert_eq!(counts(&tally), vec![("a".to_string(), 0), ("b".to_string(), 0)]);
    assert_eq!(labels(&tally), vec!["a: 0".to_string(), "b: 0".to_string()]);
}

#[test]
fn content_of_a_single_option_has_no_comma() {
    assert_eq!(render(&poll("only", 0)).content, "Vote:\nonly");
}

#[test]
fn changed_vote_counts_once_for_the_last_choice() {
    let mut store = store_with(1, "a,b", 0);
    let first = vote(&mut store, 1, 42, "a").expect("a is an option");
    assert_eq!(labels(&first), vec!["a: 1".to_string(), "b: 0".to_string()]);
    let second = vote(&mut store, 1, 42, "b").expect("b is an option");
    assert_eq!(labels(&second), vec!["a: 0".to_string(), "b: 1".to_string()]);
    assert_eq!(counts(&second), vec![("a".to_string(), 0), ("b".to_string(), 1)]);
}

#[test]
fn two_voters_for_one_option_count_twice() {
    let mut store = store_with(1, "a,b", 0);
    vote(&mut store, 1, 1, "a").expect("a is an option");
    let tally = vote(&mut store, 1, 2, "a").expect("a is an option");
    assert_eq!(labels(&tally), vec!["a: 2".to_string(), "b: 0".to_string()]);
}

#[test]
fn same_vote_twice_changes_nothing() {
    let mut store = store_with(1, "a,b", 0);
    let once = vote(&mut store, 1, 9, "b").expect("b is an option");
    let twice = vote(&mut store, 1, 9, "b").expect("b is an option");
    assert_eq!(counts(&once), counts(&twice));
    assert_eq!(once.content, twice.content);
    assert_eq!(store.get(1).expect("the poll is open").voter_count(), 1);
}

#[test]
fn many_votes_by_one_voter_leave_the_last() {
    let mut store = store_with(3, "x,y,z", 0);
    let mut last = None;
    for option in ["x", "y", "z", "x", "z", "y"] {
        last = Some(vote(&mut store, 3, 77, option).expect("an option"));
    }
    let tally = last.expect("votes were cast");
    assert_eq!(labels(&tally), vec!["x: 0".to_string(), "y: 1".to_string(), "z: 0".to_string()]);
    let record = store.get(3).expect("the poll is open");
    assert_eq!(record.choice_of(77), Some(&"y".to_string()));
    assert_eq!(record.choice_of(78), None);
}

#[test]
fn counts_add_up_to_the_number_of_voters() {
    let mut store = store_with(1, "a,b,c", 0);
    let choices = ["a", "b", "a", "c", "c", "c", "b", "a", "a", "b"];
    for (i, option) in choices.iter().enumerate() {
        vote(&mut store, 1, (i % 7) as u64, option).expect("an option");
    }
    let record = store.get(1).expect("the poll is open");
    let tally = render(record);
    let sum: usize = tally.entries.iter().map(|e| e.votes).sum();
    assert_eq!(sum, record.voter_count());
    assert_eq!(sum, 7);
    for entry in &tally.entries {
        assert_eq!(entry.votes, record.votes_for(&entry.option));
    }
}

#[test]
fn render_twice_gives_the_same_output() {
    let mut store = store_with(1, "tea,coffee", 0);
    vote(&mut store, 1, 5, "tea").expect("tea is an option");
    let record = store.get(1).expect("the poll is open");
    let first = render(record);
    let second = render(record);
    assert_eq!(first, second);
    assert_eq!(first.content.as_bytes(), second.content.as_bytes());
    assert_eq!(counts(&first), counts(&second));
    assert_eq!(labels(&first), labels(&second));
}

#[test]
fn vote_on_unknown_poll_fails_and_changes_nothing() {
    let mut store = store_with(1, "a,b", 0);
    vote(&mut store, 1, 5, "a").expect("a is an option");
    assert!(matches!(vote(&mut store, 2, 5, "a"), Err(PollError::UnknownPoll)));
    assert_eq!(store.len(), 1);
    assert!(!store.contains(2));
    let record = store.get(1).expect("the poll is open");
    assert_eq!(record.voter_count(), 1);
    assert_eq!(record.votes_for("a"), 1);
}

#[test]
fn vote_on_empty_store_fails() {
    let mut store = PollStore::new();
    assert!(matches!(vote(&mut store, 0, 0, "a"), Err(PollError::UnknownPoll)));
    assert_eq!(store.len(), 0);
}

#[test]
fn vote_after_eviction_fails() {
    let mut store = store_with(1, "a,b", 0);
    store.evict_older_than(301, 300);
    assert!(matches!(vote(&mut store, 1, 5, "a"), Err(PollError::UnknownPoll)));
    assert_eq!(store.len(), 0);
}

#[test]
fn vote_for_unknown_option_fails_and_changes_nothing() {
    let mut store = store_with(1, "a,b", 0);
    vote(&mut store, 1, 5, "a").expect("a is an option");
    assert!(matches!(vote(&mut store, 1, 5, "c"), Err(PollError::UnknownOption)));
    assert!(matches!(vote(&mut store, 1, 6, ""), Err(PollError::UnknownOption)));
    assert!(matches!(vote(&mut store, 1, 6, " a"), Err(PollError::UnknownOption)));
    let record = store.get(1).expect("the poll is open");
    assert_eq!(record.voter_count(), 1);
    assert_eq!(record.choice_of(5), Some(&"a".to_string()));
}

#[test]
fn record_vote_on_a_record() {
    let mut record = poll("a,b", 0);
    assert!(record.offers("a"));
    assert!(!record.offers("c"));
    assert_eq!(record.record_vote(1, "a"), Ok(()));
    assert_eq!(record.record_vote(1, "c"), Err(PollError::UnknownOption));
    assert_eq!(record.votes_for("a"), 1);
    assert_eq!(record.votes_for("b"), 0);
    assert_eq!(record.votes_for("c"), 0);
}

const SECOND: u128 = 1_000_000_000;

#[test]
fn sweep_removes_old_polls_only() {
    let mut late = store_with(1, "a,b", 0);
    late.evict_older_than(301 * SECOND, 300 * SECOND);
    assert!(!late.contains(1));
    assert_eq!(late.len(), 0);

    let mut early = store_with(1, "a,b", 0);
    early.evict_older_than(100 * SECOND, 300 * SECOND);
    assert!(early.contains(1));
    assert_eq!(early.len(), 1);
}

#[test]
fn sweep_goes_by_the_age_alone() {
    let mut store = store_with(1, "a,b", 0);
    for voter in 0..5u64 {
        vote(&mut store, 1, voter, "a").expect("a is an option");
    }
    store.evict_older_than(299 * SECOND, 300 * SECOND);
    assert!(store.contains(1));
    vote(&mut store, 1, 9, "b").expect("b is an option");
    store.evict_older_than(300 * SECOND + 1, 300 * SECOND);
    assert!(!store.contains(1));
}

#[test]
fn poll_of_exactly_the_lifetime_stays() {
    let mut store = store_with(1, "a,b", 50);
    store.evict_older_than(350, 300);
    assert!(store.contains(1));
    store.evict_older_than(351, 300);
    assert!(!store.contains(1));
}

#[test]
fn sweep_keeps_the_votes_of_young_polls() {
    let mut store = PollStore::new();
    store.insert(1, poll("a,b", 0));
    store.insert(2, poll("c,d", 200));
    store.insert(3, poll("e,f", 10));
    vote(&mut store, 2, 9, "d").expect("d is an option");
    store.evict_older_than(400, 300);
    assert_eq!(store.len(), 1);
    assert!(!store.contains(1));
    assert!(!store.contains(3));
    let kept = store.get(2).expect("the young poll stays");
    assert_eq!(kept.votes_for("d"), 1);
    assert_eq!(kept.start_time(), 200);
}

#[test]
fn evicted_poll_does_not_come_back() {
    let mut store = PollStore::new();
    store.insert(1, poll("a,b", 0));
    store.insert(2, poll("a,b", 1000));
    store.evict_older_than(301, 300);
    assert!(!store.contains(1));
    assert!(vote(&mut store, 1, 5, "a").is_err());
    assert!(vote(&mut store, 2, 5, "a").is_ok());
    store.evict_older_than(302, 300);
    store.evict_older_than(1200, 300);
    assert!(!store.contains(1));
    assert!(store.contains(2));
    store.evict_older_than(1301, 300);
    assert_eq!(store.len(), 0);
}

#[test]
fn clock_reading_before_the_start_counts_as_age_zero() {
    let record = poll("a", 500);
    assert_eq!(record.age(100), 0);
    assert_eq!(record.age(500), 0);
    assert_eq!(record.age(512), 12);
    assert!(!record.is_expired(100, 0));
    assert!(record.is_expired(501, 0));
    assert!(!record.is_expired(u128::MAX, u128::MAX));
    assert!(record.is_expired(u128::MAX, u128::MAX - 501));
    assert!(!record.is_expired(u128::MAX, u128::MAX - 500));
}

#[test]
fn sweep_of_an_empty_store() {
    let mut store = PollStore::new();
    store.evict_older_than(10, 0);
    assert_eq!(store.len(), 0);
}

#[test]
fn insert_under_a_used_id_replaces_the_poll() {
    let mut store = store_with(1, "a,b", 0);
    store.insert(1, poll("c", 9));
    assert_eq!(store.len(), 1);
    assert_eq!(store.get(1).expect("open").options(), &vec!["c".to_string()]);
}

#[test]
fn with_record_mut_hands_out_the_record() {
    let mut store = store_with(4, "a,b", 0);
    let seen = store.with_record_mut(4, |record: &mut PollRecord| {
        record.record_vote(1, "b").expect("b is an option");
        record.votes_for("b")
    });
    assert_eq!(seen, Ok(1));
    assert_eq!(store.get(4).expect("open").votes_for("b"), 1);
    let missing = store.with_record_mut(5, |_record: &mut PollRecord| 0usize);
    assert_eq!(missing, Err(PollError::UnknownPoll));
    assert_eq!(store.len(), 1);
}

#[test]
fn register_opens_the_poll_only_when_displayed() {
    let mut store = PollStore::new();
    assert_eq!(register(&mut store, 1, poll("a,b", 0), false), Err(
        PollError::UpstreamDisplayFailure
    ));
    assert_eq!(store.len(), 0);
    assert_eq!(register(&mut store, 1, poll("a,b", 0), true), Ok(()));
    assert!(store.contains(1));
}

#[test]
fn routing_goes_by_the_command_name() {
    assert_eq!(COMMAND, "poll");
    assert_eq!(route(&Event::CommandInvoked { command_name: "poll" }), Route::StartPoll);
    assert_eq!(route(&Event::CommandInvoked { command_name: "polls" }), Route::Ignore);
    assert_eq!(route(&Event::CommandInvoked { command_name: "" }), Route::Ignore);
    assert_eq!(
        route(&Event::ComponentActivated { origin_command: Some("poll") }),
        Route::RecordVote
    );
    assert_eq!(route(&Event::ComponentActivated { origin_command: Some("ping") }), Route::Ignore);
    assert_eq!(route(&Event::ComponentActivated { origin_command: None }), Route::Ignore);
    assert_eq!(route(&Event::Other), Route::Ignore);
}

#[test]
fn decimal_numerals() {
    for n in [0usize, 1, 9, 10, 11, 99, 100, 101, 12345, 1_000_000, usize::MAX] {
        let mut text = String::from("n=");
        push_decimal(&mut text, n);
        assert_eq!(text, format!("n={}", n));
    }
}

#[test]
fn button_labels_join_option_and_count() {
    let mut store = store_with(1, "red wine,beer", 0);
    for voter in 0..12u64 {
        vote(&mut store, 1, voter, "beer").expect("beer is an option");
    }
    let tally = vote(&mut store, 1, 100, "red wine").expect("an option");
    assert_eq!(labels(&tally), vec!["beer: 12".to_string(), "red wine: 1".to_string()]);
    assert_eq!(tally.content, "Vote:\nbeer,red wine");
}

fn wait_for_the_clock_to_move(clock: &mut Clock) -> u128 {
    let before = clock.now();
    let mut reading = clock.now();
    while reading <= before {
        reading = clock.now();
    }
    reading
}

#[test]
fn clock_readings_do_not_go_back() {
    let mut clock = Clock::new();
    assert_eq!(clock.latest(), 0);
    let mut last = clock.now();
    for _ in 0..1000 {
        let reading = clock.now();
        assert!(reading >= last);
        assert_eq!(clock.latest(), reading);
        last = reading;
    }
    assert!(wait_for_the_clock_to_move(&mut clock) > 0);
}

#[test]
fn start_reads_the_clock() {
    let mut clock = Clock::new();
    let before = wait_for_the_clock_to_move(&mut clock);
    let record = start("b,a,a,,b", &mut clock).expect("the input names a label");
    assert_eq!(record.options(), &vec!["a".to_string(), "b".to_string()]);
    assert_eq!(record.voter_count(), 0);
    assert_eq!(record.start_time(), clock.latest());
    assert!(before <= record.start_time());
    let after = clock.now();
    assert!(record.start_time() <= after);
}

#[test]
fn start_without_options_does_not_read_the_clock() {
    let mut clock = Clock::new();
    let before = wait_for_the_clock_to_move(&mut clock);
    assert!(matches!(start(",", &mut clock), Err(PollError::NoOptions)));
    assert_eq!(clock.latest(), before);
}

#[test]
fn later_polls_start_later() {
    let mut clock = Clock::new();
    let first = start("a", &mut clock).expect("the input names a label");
    wait_for_the_clock_to_move(&mut clock);
    let second = start("a", &mut clock).expect("the input names a label");
    assert!(first.start_time() < second.start_time());
}

#[test]
fn cleaner_closes_polls_that_outlived_their_time() {
    let mut clock = Clock::new();
    let mut store = PollStore::new();
    store.insert(1, start("a,b", &mut clock).expect("the input names a label"));
    cleaner(&mut store, &mut clock, u128::MAX);
    assert!(store.contains(1));
    cleaner(&mut store, &mut clock, 3_600_000_000_000);
    assert!(store.contains(1));
    wait_for_the_clock_to_move(&mut clock);
    cleaner(&mut store, &mut clock, 0);
    assert!(!store.contains(1));
    assert_eq!(store.len(), 0);
}

#[test]
fn cleaner_sweeps_at_the_reading_it_takes() {
    let mut clock = Clock::new();
    let mut store = PollStore::new();
    store.insert(1, poll("a,b", 0));
    store.insert(2, poll("a,b", u128::MAX));
    wait_for_the_clock_to_move(&mut clock);
    cleaner(&mut store, &mut clock, 0);
    assert!(clock.latest() > 0);
    assert!(!store.contains(1));
    assert!(store.contains(2));
}

#[test]
fn error_descriptions() {
    assert_eq!(PollError::NoOptions.describe(), "no options");
    assert_eq!(PollError::UnknownPoll.describe(), "unexpected interaction id");
    assert_eq!(PollError::UnknownOption.describe(), "unknown option");
    assert_eq!(PollError::UpstreamDisplayFailure.describe(), "failed to create response");
}
