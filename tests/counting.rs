use helios::counting::{
    next_power_of_ten, reaction_for, restriction_end, CountingState, Rejection, TipDeleted,
    Verdict, LARGEST_TIER, PUNISHMENT_SECS, TIP_DELETION_SECS,
};
use helios::message::{extract_number, first_word_of, ChannelMessage, LastNumber, THE_NO_ONE};
use helios::number::NumberFormat;

const A: u64 = 1001;
const B: u64 = 1002;
const C: u64 = 1003;

fn msg(id: u64, author: u64, content: &str) -> ChannelMessage {
    ChannelMessage { id, author, content: content.to_string() }
}

fn entry(count: u64, user: u64, message_id: u64) -> LastNumber {
    LastNumber { user, count, message_id, number_format: NumberFormat::Decimal }
}

fn state_with_tip(tip: LastNumber) -> CountingState {
    let mut state = CountingState::new();
    state.replace(tip);
    state
}

#[test]
fn first_word_skips_leading_white_space() {
    assert_eq!(first_word_of("  \t12 apples"), Some(vec!['1', '2']));
    assert_eq!(first_word_of("\u{3000}0x1f\u{a0}rest"), Some(vec!['0', 'x', '1', 'f']));
    assert_eq!(first_word_of(" \n "), None);
    assert_eq!(first_word_of(""), None);
}

#[test]
fn extract_number_reads_the_first_word() {
    let m = msg(7, A, " 0b101 is five");
    assert_eq!(
        extract_number(&m),
        Some(LastNumber { user: A, count: 5, message_id: 7, number_format: NumberFormat::Binary })
    );
    assert_eq!(extract_number(&msg(8, A, "five 5")), None);
    assert_eq!(extract_number(&msg(9, A, "")), None);
}

#[test]
fn cold_start_accepts_one_then_two() {
    let mut state = CountingState::new();
    let first = msg(10, A, "1");
    let second = msg(11, B, "2");
    assert!(state.needs_history(&first));
    let verdict = state.on_count(&first, &vec![first.clone()]);
    assert_eq!(verdict, Verdict::Accepted(entry(1, A, 10)));
    assert!(!state.needs_history(&second));
    let verdict = state.on_count(&second, &Vec::new());
    assert_eq!(verdict, Verdict::Accepted(entry(2, B, 11)));
    assert_eq!(state.tip(), Some(entry(2, B, 11)));
}

#[test]
fn same_submitter_is_rejected() {
    let mut state = state_with_tip(entry(5, A, 50));
    let verdict = state.on_count(&msg(51, A, "6"), &Vec::new());
    assert_eq!(verdict, Verdict::Rejected(Rejection::SameSubmitter));
    assert_eq!(state.tip(), Some(entry(5, A, 50)));
}

#[test]
fn wrong_successor_is_rejected() {
    let mut state = state_with_tip(entry(5, A, 50));
    let verdict = state.on_count(&msg(51, B, "7"), &Vec::new());
    assert_eq!(verdict, Verdict::Rejected(Rejection::WrongValue));
    assert_eq!(state.tip(), Some(entry(5, A, 50)));
}

#[test]
fn racing_successors_have_one_winner() {
    let mut state = state_with_tip(entry(5, A, 50));
    let from_b = msg(51, B, "6");
    let from_c = msg(52, C, "0x6");
    assert_eq!(state.on_count(&from_b, &Vec::new()), Verdict::Accepted(entry(6, B, 51)));
    assert_eq!(state.on_count(&from_c, &Vec::new()), Verdict::Rejected(Rejection::WrongValue));
    assert_eq!(state.tip(), Some(entry(6, B, 51)));
}

#[test]
fn deleting_the_tip_calls_for_a_notice() {
    let state = state_with_tip(entry(5, A, 50));
    assert_eq!(
        state.on_delete(50),
        Some(TipDeleted { count: 5, user: A, restriction_secs: 86400 })
    );
    assert_eq!(state.on_delete(49), None);
    assert_eq!(state.tip(), Some(entry(5, A, 50)));
    assert_eq!(CountingState::new().on_delete(50), None);
    assert_eq!(TIP_DELETION_SECS, 24 * 60 * 60);
    assert_eq!(PUNISHMENT_SECS, 60 * 60);
}

#[test]
fn recovery_without_counts_seeds_zero() {
    let sentinel = LastNumber { user: THE_NO_ONE, count: 0, message_id: 1, number_format: NumberFormat::Decimal };
    let history = vec![msg(30, B, "hello"), msg(29, C, "no numbers here"), msg(28, A, "")];
    let mut state = CountingState::new();
    let two = msg(31, A, "2");
    assert_eq!(state.on_count(&two, &history), Verdict::Rejected(Rejection::WrongValue));
    assert_eq!(state.tip(), Some(sentinel));
    assert_eq!(state.on_count(&msg(32, A, "1"), &Vec::new()), Verdict::Accepted(entry(1, A, 32)));

    let mut empty = CountingState::new();
    assert_eq!(empty.read_or_recover(&Vec::new(), 5), sentinel);
}

#[test]
fn recovery_takes_the_newest_count_but_the_trigger() {
    let history = vec![msg(40, B, "5"), msg(39, C, "oops"), msg(38, A, "0x4 four"), msg(37, C, "3")];
    let mut state = CountingState::new();
    let verdict = state.on_count(&msg(40, B, "5"), &history);
    assert_eq!(verdict, Verdict::Accepted(entry(5, B, 40)));
    let mut other = CountingState::new();
    assert_eq!(
        other.read_or_recover(&history, 40),
        LastNumber { user: A, count: 4, message_id: 38, number_format: NumberFormat::Hexadecimal }
    );
}

#[test]
fn malformed_message_leaves_the_state_cold() {
    let mut state = CountingState::new();
    let m = msg(60, A, "hello 1");
    assert!(!state.needs_history(&m));
    assert_eq!(state.on_count(&m, &vec![msg(59, B, "3")]), Verdict::Rejected(Rejection::Malformed));
    assert_eq!(state.tip(), None);
}

#[test]
fn count_after_u64_max_is_rejected() {
    let mut state = state_with_tip(entry(u64::MAX, A, 1));
    assert_eq!(state.on_count(&msg(2, B, "0"), &Vec::new()), Verdict::Rejected(Rejection::WrongValue));
}

#[test]
fn tiers_are_powers_of_ten() {
    assert_eq!(next_power_of_ten(0), 0);
    assert_eq!(next_power_of_ten(1), 1);
    assert_eq!(next_power_of_ten(2), 10);
    assert_eq!(next_power_of_ten(10), 10);
    assert_eq!(next_power_of_ten(11), 100);
    assert_eq!(next_power_of_ten(999), 1000);
    assert_eq!(next_power_of_ten(1_000_000_000_000_000_001), LARGEST_TIER);
    assert_eq!(next_power_of_ten(LARGEST_TIER), LARGEST_TIER);
}

#[test]
fn tiers_do_not_decrease() {
    let mut last = 0;
    for c in 0..2000u64 {
        let t = next_power_of_ten(c);
        assert!(t >= last && t >= c);
        last = t;
    }
}

#[test]
fn reactions_depend_on_notation() {
    assert_eq!(reaction_for(NumberFormat::Decimal), "🔢");
    assert_eq!(reaction_for(NumberFormat::Hexadecimal), "🤓");
    assert_eq!(reaction_for(NumberFormat::Unary), "🤓");
}

#[test]
fn restriction_end_adds_and_bounds() {
    assert_eq!(restriction_end(1_700_000_000, 3600), Some(1_700_003_600));
    assert_eq!(restriction_end(i64::MAX as u64, 1), None);
    assert_eq!(restriction_end(i64::MAX as u64, 0), Some(i64::MAX));
    assert_eq!(restriction_end(u64::MAX, u64::MAX), None);
}
