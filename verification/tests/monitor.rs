//! Cycle-level behavior: debouncing, thresholds, diffing, aggregation,
//! pruning and first-cycle silence.

use cosmic_pinger::cycle::{compute_aggregate, diff, run_cycle};
use cosmic_pinger::debounce::{debounce_apply, FailStreaks};
use cosmic_pinger::status::{CycleSnapshot, EffectiveStatus, NotificationEvent, ProbeOutcome};

fn outcome(target: &str, reachable: bool, label: &str) -> ProbeOutcome {
    ProbeOutcome { target: target.to_string(), reachable, label: label.to_string() }
}

fn status(target: &str, up: bool, label: &str) -> EffectiveStatus {
    EffectiveStatus {
        target: target.to_string(),
        effective_reachable: up,
        display_label: label.to_string(),
    }
}

fn cycle_over(
    outcomes: Vec<ProbeOutcome>,
    prior: &CycleSnapshot,
    streaks: &mut FailStreaks,
) -> (CycleSnapshot, Vec<NotificationEvent>) {
    let had_targets = !outcomes.is_empty();
    run_cycle(had_targets, &outcomes, prior, streaks, 2, "12:00:00".to_string())
}

#[test]
fn streak_resets_to_zero_on_success() {
    let mut streaks = FailStreaks::new();
    let down = outcome("a", false, "OFFLINE");
    let up = outcome("a", true, "5 ms");
    debounce_apply(&mut streaks, &down, 2);
    debounce_apply(&mut streaks, &down, 2);
    assert_eq!(streaks.get(&"a".to_string()), 2);
    debounce_apply(&mut streaks, &up, 2);
    assert_eq!(streaks.get(&"a".to_string()), 0);
}

#[test]
fn streak_is_nondecreasing_while_failing() {
    let mut streaks = FailStreaks::new();
    let down = outcome("a", false, "OFFLINE");
    let mut last = 0;
    for _ in 0..5 {
        debounce_apply(&mut streaks, &down, 2);
        let cur = streaks.get(&"a".to_string());
        assert!(cur >= last);
        last = cur;
    }
    assert_eq!(last, 5);
}

#[test]
fn streak_saturates_at_max() {
    let mut streaks = FailStreaks::new();
    let target = "a".to_string();
    streaks.set(&target, 255);
    let down = outcome("a", false, "OFFLINE");
    debounce_apply(&mut streaks, &down, 2);
    assert_eq!(streaks.get(&target), 255);
}

#[test]
fn threshold_boundary_single_failure_still_up() {
    let mut streaks = FailStreaks::new();
    let down = outcome("a", false, "OFFLINE");
    let st = debounce_apply(&mut streaks, &down, 2);
    assert!(st.effective_reachable);
    assert_eq!(st.display_label, "OFFLINE (fail 1/2)");
}

#[test]
fn threshold_boundary_two_failures_down() {
    let mut streaks = FailStreaks::new();
    let down = outcome("a", false, "OFFLINE");
    debounce_apply(&mut streaks, &down, 2);
    let st = debounce_apply(&mut streaks, &down, 2);
    assert!(!st.effective_reachable);
    assert_eq!(st.display_label, "OFFLINE");
}

#[test]
fn threshold_boundary_fail_then_success_up_with_reset() {
    let mut streaks = FailStreaks::new();
    debounce_apply(&mut streaks, &outcome("a", false, "OFFLINE"), 2);
    let st = debounce_apply(&mut streaks, &outcome("a", true, "5 ms"), 2);
    assert!(st.effective_reachable);
    assert_eq!(st.display_label, "5 ms");
    assert_eq!(streaks.get(&"a".to_string()), 0);
}

#[test]
fn first_cycle_produces_no_events() {
    let mut streaks = FailStreaks::new();
    let prior = CycleSnapshot::initial();
    let outcomes = vec![outcome("a", false, "OFFLINE"), outcome("b", true, "3 ms")];
    let (snap, events) = cycle_over(outcomes, &prior, &mut streaks);
    assert!(events.is_empty());
    assert!(!snap.is_first_cycle);
    assert_eq!(snap.cycle_number, 1);
}

#[test]
fn diff_scenario_changed_new_and_unchanged() {
    // prior: (A, up), (B, down); new: (A, down), (B, down), (C, up)
    let prior = vec![status("A", true, "x"), status("B", false, "x")];
    let current = vec![
        status("A", false, "x"),
        status("B", false, "x"),
        status("C", true, "x"),
    ];
    let events = diff(&prior, &current);
    assert_eq!(events.len(), 2);
    assert_eq!(events[0].target, "A");
    assert!(!events[0].now_up);
    assert_eq!(events[1].target, "C");
    assert!(events[1].now_up);
}

#[test]
fn empty_configuration_placeholder() {
    let mut streaks = FailStreaks::new();
    let prior = CycleSnapshot::initial();
    let (snap, events) = run_cycle(
        false,
        &Vec::new(),
        &prior,
        &mut streaks,
        2,
        "12:00:00".to_string(),
    );
    assert_eq!(snap.results.len(), 1);
    assert_eq!(snap.results[0].target, "no targets configured");
    assert!(snap.results[0].effective_reachable);
    assert_eq!(snap.results[0].display_label, "-");
    assert!(snap.aggregate_up);
    assert!(events.is_empty());
}

#[test]
fn all_invalid_targets_placeholder() {
    let mut streaks = FailStreaks::new();
    let prior = CycleSnapshot::initial();
    let (snap, _) = run_cycle(
        true,
        &Vec::new(),
        &prior,
        &mut streaks,
        2,
        "12:00:00".to_string(),
    );
    assert_eq!(snap.results[0].target, "no valid targets");
}

#[test]
fn aggregate_true_iff_no_entry_down() {
    let all_up = vec![status("a", true, "x"), status("b", true, "y")];
    assert!(compute_aggregate(&all_up));
    let one_down = vec![status("a", true, "x"), status("b", false, "y")];
    assert!(!compute_aggregate(&one_down));
    let first_down = vec![status("a", false, "x"), status("b", true, "y")];
    assert!(!compute_aggregate(&first_down));
    let empty: Vec<EffectiveStatus> = Vec::new();
    assert!(compute_aggregate(&empty));
}

#[test]
fn removed_target_streak_is_pruned() {
    let mut streaks = FailStreaks::new();
    let prior = CycleSnapshot::initial();
    // b fails twice: streak reaches the threshold.
    let (snap1, _) = cycle_over(
        vec![outcome("a", true, "1 ms"), outcome("b", false, "OFFLINE")],
        &prior,
        &mut streaks,
    );
    let (snap2, _) = cycle_over(
        vec![outcome("a", true, "1 ms"), outcome("b", false, "OFFLINE")],
        &snap1,
        &mut streaks,
    );
    assert!(!snap2.results[1].effective_reachable);
    // b leaves the configuration: its entry must be pruned.
    let (snap3, events3) = cycle_over(vec![outcome("a", true, "1 ms")], &snap2, &mut streaks);
    assert_eq!(streaks.get(&"b".to_string()), 0);
    // no orphan notification for b
    assert!(events3.iter().all(|e| e.target != "b"));
    // b returns and fails once: the streak restarts, so b is still reported up.
    let (snap4, _) = cycle_over(
        vec![outcome("a", true, "1 ms"), outcome("b", false, "OFFLINE")],
        &snap3,
        &mut streaks,
    );
    assert!(snap4.results[1].effective_reachable);
    assert_eq!(snap4.results[1].display_label, "OFFLINE (fail 1/2)");
}

#[test]
fn transition_events_across_cycles() {
    let mut streaks = FailStreaks::new();
    let prior = CycleSnapshot::initial();
    let (snap1, ev1) = cycle_over(vec![outcome("a", true, "1 ms")], &prior, &mut streaks);
    assert!(ev1.is_empty());
    // one failure: suppressed, still up, no event
    let (snap2, ev2) = cycle_over(vec![outcome("a", false, "OFFLINE")], &snap1, &mut streaks);
    assert!(ev2.is_empty());
    assert!(snap2.results[0].effective_reachable);
    assert!(snap2.aggregate_up);
    // second failure: crosses the threshold, one down event
    let (snap3, ev3) = cycle_over(vec![outcome("a", false, "OFFLINE")], &snap2, &mut streaks);
    assert_eq!(ev3.len(), 1);
    assert_eq!(ev3[0].target, "a");
    assert!(!ev3[0].now_up);
    assert!(!snap3.aggregate_up);
    // recovery: one up event
    let (snap4, ev4) = cycle_over(vec![outcome("a", true, "2 ms")], &snap3, &mut streaks);
    assert_eq!(ev4.len(), 1);
    assert!(ev4[0].now_up);
    assert!(snap4.aggregate_up);
    assert_eq!(snap4.cycle_number, 4);
}

#[test]
fn duplicate_target_shares_streak_within_cycle() {
    let mut streaks = FailStreaks::new();
    let prior = CycleSnapshot::initial();
    let (snap, _) = cycle_over(
        vec![outcome("a", false, "OFFLINE"), outcome("a", false, "OFFLINE")],
        &prior,
        &mut streaks,
    );
    // outcomes are debounced in order against the running streaks, so the
    // second occurrence sees the streak the first one wrote
    assert!(snap.results[0].effective_reachable);
    assert_eq!(snap.results[0].display_label, "OFFLINE (fail 1/2)");
    assert!(!snap.results[1].effective_reachable);
    assert_eq!(streaks.get(&"a".to_string()), 2);
}

#[test]
fn initial_snapshot_fields() {
    let snap = CycleSnapshot::initial();
    assert!(snap.is_first_cycle);
    assert!(snap.aggregate_up);
    assert_eq!(snap.cycle_number, 0);
    assert!(snap.results.is_empty());
    assert_eq!(snap.timestamp_text, "waiting...");
}

#[test]
fn timestamp_and_counter_carried_into_snapshot() {
    let mut streaks = FailStreaks::new();
    let prior = CycleSnapshot::initial();
    let (snap, _) = run_cycle(
        true,
        &vec![outcome("a", true, "1 ms")],
        &prior,
        &mut streaks,
        2,
        "23:59:07".to_string(),
    );
    assert_eq!(snap.timestamp_text, "23:59:07");
    assert_eq!(snap.cycle_number, prior.cycle_number + 1);
}
