use trace_store::{State, Timing};

const SEC: u64 = 1_000_000_000;

#[test]
fn timing_new() {
    let timing = Timing::new_at(0);
    assert_eq!(timing.state(), State::Idle);
    assert_eq!(timing.idle_duration(), 0);
    assert_eq!(timing.busy_duration(), 0);
    assert_eq!(timing.total_duration(), 0);
    assert_eq!(timing.enter_count(), 0);
    assert_eq!(timing.exit_count(), 0);
}

#[test]
fn timing_enter() {
    let mut timing = Timing::new_at(0);
    timing.enter_at(SEC);
    assert_eq!(timing.state(), State::Busy);
    assert_eq!(timing.idle_duration(), SEC);
    assert_eq!(timing.busy_duration(), 0);
    assert_eq!(timing.total_duration(), SEC);
    assert_eq!(timing.enter_count(), 1);
    assert_eq!(timing.exit_count(), 0);
}

#[test]
fn timing_exit() {
    let mut timing = Timing::new_at(0);
    timing.enter_at(0);
    timing.exit_at(SEC);
    assert_eq!(timing.state(), State::Idle);
    assert_eq!(timing.idle_duration(), 0);
    assert_eq!(timing.busy_duration(), SEC);
    assert_eq!(timing.total_duration(), SEC);
    assert_eq!(timing.enter_count(), 1);
    assert_eq!(timing.exit_count(), 1);
}

#[test]
fn timing_enter_and_exit() {
    let mut timing = Timing::new_at(0);
    timing.enter_at(SEC);
    timing.exit_at(SEC + 2 * SEC);
    assert_eq!(timing.state(), State::Idle);
    assert_eq!(timing.idle_duration(), SEC);
    assert_eq!(timing.busy_duration(), 2 * SEC);
    assert_eq!(timing.total_duration(), 3 * SEC);
    assert_eq!(timing.enter_count(), 1);
    assert_eq!(timing.exit_count(), 1);
}

#[test]
fn timing_multiple() {
    let mut timing = Timing::new_at(0);
    timing.enter_at(SEC);
    timing.exit_at(3 * SEC);
    timing.enter_at(6 * SEC);
    timing.exit_at(10 * SEC);
    assert_eq!(timing.state(), State::Idle);
    assert_eq!(timing.idle_duration(), SEC + 3 * SEC);
    assert_eq!(timing.busy_duration(), 2 * SEC + 4 * SEC);
    assert_eq!(timing.total_duration(), 10 * SEC);
    assert_eq!(timing.enter_count(), 2);
    assert_eq!(timing.exit_count(), 2);
}

#[test]
fn timing_close_idle() {
    let mut timing = Timing::new_at(0);
    timing.enter_at(SEC);
    timing.exit_at(3 * SEC);
    timing.close_at(6 * SEC);
    assert_eq!(timing.state(), State::Closed);
    assert_eq!(timing.idle_duration(), SEC + 3 * SEC);
    assert_eq!(timing.busy_duration(), 2 * SEC);
    assert_eq!(timing.total_duration(), 6 * SEC);
    assert_eq!(timing.enter_count(), 1);
    assert_eq!(timing.exit_count(), 1);
}

#[test]
fn timing_close_busy() {
    let mut timing = Timing::new_at(0);
    timing.enter_at(SEC);
    timing.close_at(3 * SEC);
    assert_eq!(timing.state(), State::Closed);
    assert_eq!(timing.idle_duration(), SEC);
    assert_eq!(timing.busy_duration(), 2 * SEC);
    assert_eq!(timing.total_duration(), 3 * SEC);
    assert_eq!(timing.enter_count(), 1);
    assert_eq!(timing.exit_count(), 0);
}

#[test]
fn timing_exit_while_idle() {
    let mut timing = Timing::new_at(0);
    timing.enter_at(SEC);
    timing.exit_at(3 * SEC);
    timing.exit_at(6 * SEC);
    assert_eq!(timing.state(), State::Idle);
    assert_eq!(timing.idle_duration(), SEC + 3 * SEC);
    assert_eq!(timing.busy_duration(), 2 * SEC);
    assert_eq!(timing.total_duration(), 6 * SEC);
    assert_eq!(timing.enter_count(), 1);
    assert_eq!(timing.exit_count(), 2);
}

#[test]
fn timing_enter_while_busy() {
    let mut timing = Timing::new_at(0);
    timing.enter_at(SEC);
    timing.enter_at(3 * SEC);
    assert_eq!(timing.state(), State::Busy);
    assert_eq!(timing.idle_duration(), SEC);
    assert_eq!(timing.busy_duration(), 2 * SEC);
    assert_eq!(timing.total_duration(), 3 * SEC);
    assert_eq!(timing.enter_count(), 2);
    assert_eq!(timing.exit_count(), 0);
}

#[test]
fn timing_close_while_closed() {
    let mut timing = Timing::new_at(0);
    timing.enter_at(SEC);
    timing.close_at(3 * SEC);
    timing.close_at(6 * SEC);
    assert_eq!(timing.state(), State::Closed);
    assert_eq!(timing.idle_duration(), SEC); // should not include time after the close
    assert_eq!(timing.busy_duration(), 2 * SEC);
    assert_eq!(timing.total_duration(), 3 * SEC);
}

// Scenario: one second idle, one busy, three idle, two busy, then close.
#[test]
fn timing_full_lifecycle() {
    let mut timing = Timing::new_at(0);
    timing.enter_at(SEC);
    timing.exit_at(2 * SEC);
    timing.enter_at(5 * SEC);
    timing.close_at(7 * SEC);
    assert_eq!(timing.idle_duration(), 4 * SEC);
    assert_eq!(timing.busy_duration(), 3 * SEC);
    assert_eq!(timing.total_duration(), 7 * SEC);
    assert_eq!(timing.state(), State::Closed);
    assert_eq!(timing.enter_count(), 2);
    assert_eq!(timing.exit_count(), 1);
}

// The sum of idle and busy time equals the total after every call.
#[test]
fn timing_durations_sum_to_total() {
    let mut timing = Timing::new_at(0);
    let nows = [3u64, 7, 7, 20, 100, 101];
    let mut step: usize = 0;
    for now in nows {
        match step % 3 {
            0 => timing.enter_at(now),
            1 => timing.exit_at(now),
            _ => timing.enter_at(now),
        }
        assert_eq!(
            timing.idle_duration() + timing.busy_duration(),
            timing.total_duration()
        );
        step += 1;
    }
}

// After a close, further calls change nothing observable.
#[test]
fn timing_frozen_after_close() {
    let mut timing = Timing::new_at(0);
    timing.enter_at(SEC);
    timing.close_at(2 * SEC);
    let idle = timing.idle_duration();
    let busy = timing.busy_duration();
    let enters = timing.enter_count();
    let exits = timing.exit_count();
    timing.enter_at(5 * SEC);
    timing.exit_at(6 * SEC);
    timing.close_at(7 * SEC);
    assert_eq!(timing.state(), State::Closed);
    assert_eq!(timing.idle_duration(), idle);
    assert_eq!(timing.busy_duration(), busy);
    assert_eq!(timing.enter_count(), enters);
    assert_eq!(timing.exit_count(), exits);
}

// Counts track calls made before the close; the close itself counts as
// neither an enter nor an exit.
#[test]
fn timing_counts_track_calls() {
    let mut timing = Timing::new_at(0);
    timing.enter_at(1);
    timing.enter_at(2);
    timing.exit_at(3);
    timing.enter_at(4);
    timing.close_at(5);
    timing.enter_at(6);
    timing.exit_at(7);
    assert_eq!(timing.enter_count(), 3);
    assert_eq!(timing.exit_count(), 1);
}

// The real clocks drive the same machine: counts and state behave the
// same, and durations never lose time.
#[test]
fn timing_with_real_clock() {
    let mut timing = Timing::new();
    assert_eq!(timing.state(), State::Idle);
    timing.enter();
    assert_eq!(timing.state(), State::Busy);
    timing.exit();
    assert_eq!(timing.state(), State::Idle);
    timing.close();
    assert_eq!(timing.state(), State::Closed);
    assert_eq!(timing.enter_count(), 1);
    assert_eq!(timing.exit_count(), 1);
    assert_eq!(
        timing.idle_duration() + timing.busy_duration(),
        timing.total_duration()
    );
}
