//! One full monitoring cycle: debounce every probe outcome in order, compute
//! the aggregate health flag, diff against the previous cycle's effective
//! statuses to decide which transitions deserve a notification, and prune
//! fail streaks of targets that left the configuration.

use vstd::prelude::*;

use crate::debounce::{
    contains_str, debounce_apply, next_streak, status_of, streak_or, FailStreaks,
};
use crate::status::{
    event_models, outcome_models, status_models, CycleSnapshot, EffectiveStatus, EventModel,
    NotificationEvent, OutcomeModel, ProbeOutcome, StatusModel,
};

verus! {

/// Whether every status in the sequence reports reachable.
pub open spec fn all_up(rs: Seq<StatusModel>) -> bool {
    forall|i: int| 0 <= i < rs.len() ==> (#[trigger] rs[i]).up
}

/// The aggregate health flag: true iff no entry reports unreachable.
pub fn compute_aggregate(results: &Vec<EffectiveStatus>) -> (r: bool)
    ensures
        r == all_up(status_models(results@)),
{
    let ghost rm = status_models(results@);
    let mut i: usize = 0;
    while i < results.len()
        invariant
            i <= results@.len(),
            rm == status_models(results@),
            forall|j: int| 0 <= j < i ==> (#[trigger] rm[j]).up,
        decreases results@.len() - i,
    {
        if !results[i].effective_reachable {
            proof {
                assert(!rm[i as int].up);
            }
            return false;
        }
        i += 1;
    }
    true
}

/// Aggregate correctness, flip direction: making any one entry unreachable
/// makes the aggregate false.
pub proof fn lemma_aggregate_flip(rs: Seq<StatusModel>, i: int, down: StatusModel)
    requires
        0 <= i < rs.len(),
        !down.up,
    ensures
        !all_up(rs.update(i, down)),
{
    assert(rs.update(i, down)[i] == down);
}

/// The effective-reachable value the immediately prior snapshot recorded for
/// target `t`: the first entry with that target, if any.
pub open spec fn prior_status(prior: Seq<StatusModel>, t: Seq<char>) -> Option<bool>
    decreases prior.len(),
{
    if prior.len() == 0 {
        Option::None
    } else if prior[0].target == t {
        Option::Some(prior[0].up)
    } else {
        prior_status(prior.drop_first(), t)
    }
}

/// Whether a status deserves a notification: its target is absent from the
/// prior snapshot, or present with the other reachability value.
pub open spec fn event_needed(prior: Seq<StatusModel>, s: StatusModel) -> bool {
    match prior_status(prior, s.target) {
        Option::None => true,
        Option::Some(p) => p != s.up,
    }
}

/// The notification events for a cycle: one per current entry that changed,
/// in result order.
pub open spec fn diff_events(prior: Seq<StatusModel>, cur: Seq<StatusModel>) -> Seq<EventModel>
    decreases cur.len(),
{
    if cur.len() == 0 {
        Seq::empty()
    } else {
        let rest = diff_events(prior, cur.drop_last());
        if event_needed(prior, cur.last()) {
            rest.push(EventModel { target: cur.last().target, now_up: cur.last().up })
        } else {
            rest
        }
    }
}

/// No orphan notifications: every event produced by the diff names a target
/// present in the current result set.
pub proof fn lemma_events_have_current_targets(
    prior: Seq<StatusModel>,
    cur: Seq<StatusModel>,
    j: int,
)
    requires
        0 <= j < diff_events(prior, cur).len(),
    ensures
        exists|i: int|
            0 <= i < cur.len() && (#[trigger] cur[i]).target == diff_events(prior, cur)[j].target,
    decreases cur.len(),
{
    if cur.len() > 0 {
        let rest = diff_events(prior, cur.drop_last());
        if j < rest.len() {
            lemma_events_have_current_targets(prior, cur.drop_last(), j);
            let i = choose|i: int|
                0 <= i < cur.drop_last().len() && cur.drop_last()[i].target == rest[j].target;
            assert(cur[i].target == diff_events(prior, cur)[j].target);
        } else {
            assert(cur[cur.len() - 1].target == diff_events(prior, cur)[j].target);
        }
    }
}

/// At most one notification per target per cycle: when the current results
/// name each target once, no two events share a target.
pub proof fn lemma_events_unique_targets(
    prior: Seq<StatusModel>,
    cur: Seq<StatusModel>,
    j1: int,
    j2: int,
)
    requires
        forall|i1: int, i2: int|
            0 <= i1 < i2 < cur.len() ==> (#[trigger] cur[i1]).target != (#[trigger] cur[i2]).target,
        0 <= j1 < j2 < diff_events(prior, cur).len(),
    ensures
        diff_events(prior, cur)[j1].target != diff_events(prior, cur)[j2].target,
    decreases cur.len(),
{
    let evs = diff_events(prior, cur);
    if cur.len() > 0 {
        let shorter = cur.drop_last();
        let rest = diff_events(prior, shorter);
        assert(forall|i: int| 0 <= i < shorter.len() ==> shorter[i] == cur[i]);
        if j2 < rest.len() {
            lemma_events_unique_targets(prior, shorter, j1, j2);
        } else {
            assert(evs[j2] == EventModel { target: cur.last().target, now_up: cur.last().up });
            lemma_events_have_current_targets(prior, shorter, j1);
            let i = choose|i: int|
                0 <= i < shorter.len() && (#[trigger] shorter[i]).target == rest[j1].target;
            assert(cur[i].target != cur[cur.len() - 1].target);
        }
    }
}

fn lookup_prior(prior: &Vec<EffectiveStatus>, t: &String) -> (r: Option<bool>)
    ensures
        r == prior_status(status_models(prior@), t@),
{
    let ghost pm = status_models(prior@);
    proof {
        assert(pm.skip(0) =~= pm);
    }
    let mut i: usize = 0;
    while i < prior.len()
        invariant
            i <= prior@.len(),
            pm == status_models(prior@),
            prior_status(pm, t@) == prior_status(pm.skip(i as int), t@),
        decreases prior@.len() - i,
    {
        if prior[i].target.eq(t) {
            proof {
                assert(pm.skip(i as int)[0] == pm[i as int]);
                assert(pm[i as int].target == t@);
            }
            return Some(prior[i].effective_reachable);
        }
        proof {
            assert(pm.skip(i as int)[0] == pm[i as int]);
            assert(pm.skip(i as int).drop_first() =~= pm.skip(i as int + 1));
        }
        i += 1;
    }
    None
}

/// Computes the notification events for the current results against the
/// prior snapshot's results.
pub fn diff(prior: &Vec<EffectiveStatus>, current: &Vec<EffectiveStatus>) -> (evs: Vec<
    NotificationEvent,
>)
    ensures
        event_models(evs@) == diff_events(status_models(prior@), status_models(current@)),
{
    let ghost pm = status_models(prior@);
    let ghost cm = status_models(current@);
    let mut evs: Vec<NotificationEvent> = Vec::new();
    proof {
        assert(event_models(evs@) =~= diff_events(pm, cm.take(0)));
    }
    let mut i: usize = 0;
    while i < current.len()
        invariant
            i <= current@.len(),
            pm == status_models(prior@),
            cm == status_models(current@),
            event_models(evs@) == diff_events(pm, cm.take(i as int)),
        decreases current@.len() - i,
    {
        let prev = lookup_prior(prior, &current[i].target);
        let needed = match prev {
            Option::None => true,
            Option::Some(p) => p != current[i].effective_reachable,
        };
        proof {
            assert(cm.take(i as int + 1).drop_last() =~= cm.take(i as int));
            assert(cm.take(i as int + 1).last() == cm[i as int]);
            assert(cm[i as int] == current@[i as int]@);
            assert(needed == event_needed(pm, cm[i as int]));
        }
        if needed {
            evs.push(
                NotificationEvent {
                    target: current[i].target.clone(),
                    now_up: current[i].effective_reachable,
                },
            );
            proof {
                assert(event_models(evs@) =~= diff_events(pm, cm.take(i as int + 1)));
            }
        }
        i += 1;
    }
    proof {
        assert(cm.take(current@.len() as int) =~= cm);
    }
    evs
}

/// The fail-streak map after debouncing a run of outcomes in order, starting
/// from `m`.
pub open spec fn streaks_after(m: Map<Seq<char>, u8>, outs: Seq<OutcomeModel>) -> Map<
    Seq<char>,
    u8,
>
    decreases outs.len(),
{
    if outs.len() == 0 {
        m
    } else {
        let prev = streaks_after(m, outs.drop_last());
        let o = outs.last();
        prev.insert(o.target, next_streak(streak_or(prev, o.target), o.reachable))
    }
}

/// The effective statuses produced for a run of outcomes, in outcome order.
pub open spec fn results_of(
    m: Map<Seq<char>, u8>,
    outs: Seq<OutcomeModel>,
    threshold: u8,
) -> Seq<StatusModel>
    decreases outs.len(),
{
    if outs.len() == 0 {
        Seq::empty()
    } else {
        results_of(m, outs.drop_last(), threshold).push(
            status_of(
                outs.last(),
                streak_or(streaks_after(m, outs.drop_last()), outs.last().target),
                threshold,
            ),
        )
    }
}

/// Whether some outcome in the run is for target `k`.
pub open spec fn outcome_targets(outs: Seq<OutcomeModel>, k: Seq<char>) -> bool {
    exists|i: int| 0 <= i < outs.len() && (#[trigger] outs[i]).target == k
}

proof fn lemma_streaks_after_contains(m: Map<Seq<char>, u8>, outs: Seq<OutcomeModel>, k: Seq<char>)
    ensures
        streaks_after(m, outs).contains_key(k) <==> (m.contains_key(k) || outcome_targets(
            outs,
            k,
        )),
    decreases outs.len(),
{
    if outs.len() > 0 {
        lemma_streaks_after_contains(m, outs.drop_last(), k);
        if outcome_targets(outs.drop_last(), k) {
            let i = choose|i: int|
                0 <= i < outs.drop_last().len() && outs.drop_last()[i].target == k;
            assert(outs[i].target == k);
        }
        if outs.last().target == k {
            assert(outs[outs.len() - 1].target == k);
        }
        if outcome_targets(outs, k) && outs.last().target != k {
            let i = choose|i: int| 0 <= i < outs.len() && outs[i].target == k;
            assert(outs.drop_last()[i].target == k);
        }
    }
}

/// The one result shown when there is nothing to probe: either the target
/// list was empty, or every entry was dropped by normalization.
pub open spec fn placeholder_text(had_targets: bool) -> Seq<char> {
    if had_targets {
        "no valid targets"@
    } else {
        "no targets configured"@
    }
}

/// Model of the placeholder result: reported reachable, neutral label.
pub open spec fn placeholder_model(had_targets: bool) -> StatusModel {
    StatusModel { target: placeholder_text(had_targets), up: true, label: "-"@ }
}

/// Runs one monitoring cycle over the debounced outcomes.
///
/// `outcomes` are the raw probe outcomes for this cycle, in configured target
/// order; `had_targets` says whether the configuration held any entry at all
/// (it only picks the placeholder text when `outcomes` is empty). The cycle:
/// debounces every outcome against the running fail streaks, prunes streak
/// entries of targets no longer probed, computes the aggregate flag, and
/// produces notification events for effective transitions — none on the
/// first cycle, and none when there was nothing to probe.
pub fn run_cycle(
    had_targets: bool,
    outcomes: &Vec<ProbeOutcome>,
    prior: &CycleSnapshot,
    streaks: &mut FailStreaks,
    threshold: u8,
    timestamp_text: String,
) -> (r: (CycleSnapshot, Vec<NotificationEvent>))
    requires
        old(streaks).wf(),
        prior.cycle_number < u64::MAX,
    ensures
        final(streaks).wf(),
        r.0.cycle_number == prior.cycle_number + 1,
        !r.0.is_first_cycle,
        r.0.timestamp_text == timestamp_text,
        outcomes@.len() > 0 ==> status_models(r.0.results@) == results_of(
            old(streaks).as_map(),
            outcome_models(outcomes@),
            threshold,
        ),
        outcomes@.len() == 0 ==> status_models(r.0.results@) == seq![
            placeholder_model(had_targets),
        ],
        r.0.aggregate_up == all_up(status_models(r.0.results@)),
        forall|k: Seq<char>|
            #[trigger] final(streaks).as_map().contains_key(k) <==> outcome_targets(
                outcome_models(outcomes@),
                k,
            ),
        forall|k: Seq<char>|
            #[trigger] final(streaks).as_map().contains_key(k) ==> final(streaks).as_map()[k]
                == streaks_after(old(streaks).as_map(), outcome_models(outcomes@))[k],
        prior.is_first_cycle ==> r.1@.len() == 0,
        outcomes@.len() == 0 ==> r.1@.len() == 0,
        !prior.is_first_cycle && outcomes@.len() > 0 ==> event_models(r.1@) == diff_events(
            status_models(prior.results@),
            status_models(r.0.results@),
        ),
{
    let ghost m0 = old(streaks).as_map();
    let ghost oms = outcome_models(outcomes@);
    let mut results: Vec<EffectiveStatus> = Vec::new();
    let mut current_targets: Vec<String> = Vec::new();

    if outcomes.len() == 0 {
        let text = if had_targets {
            "no valid targets"
        } else {
            "no targets configured"
        };
        results.push(
            EffectiveStatus {
                target: String::from_str(text),
                effective_reachable: true,
                display_label: String::from_str("-"),
            },
        );
        proof {
            assert(status_models(results@) =~= seq![placeholder_model(had_targets)]);
        }
    } else {
        proof {
            assert(status_models(results@) =~= results_of(m0, oms.take(0), threshold));
        }
        let mut i: usize = 0;
        while i < outcomes.len()
            invariant
                i <= outcomes@.len(),
                oms == outcome_models(outcomes@),
                m0 == old(streaks).as_map(),
                streaks.wf(),
                streaks.as_map() == streaks_after(m0, oms.take(i as int)),
                status_models(results@) == results_of(m0, oms.take(i as int), threshold),
                current_targets@.len() == i,
                forall|j: int|
                    0 <= j < i ==> (#[trigger] current_targets@[j])@ == oms[j].target,
            decreases outcomes@.len() - i,
        {
            let st = debounce_apply(streaks, &outcomes[i], threshold);
            proof {
                assert(oms.take(i as int + 1).drop_last() =~= oms.take(i as int));
                assert(oms.take(i as int + 1).last() == oms[i as int]);
                assert(oms[i as int] == outcomes@[i as int]@);
            }
            results.push(st);
            current_targets.push(outcomes[i].target.clone());
            proof {
                assert(status_models(results@) =~= results_of(m0, oms.take(i as int + 1), threshold));
            }
            i += 1;
        }
        proof {
            assert(oms.take(outcomes@.len() as int) =~= oms);
        }
    }
    proof {
        assert(streaks.as_map() == streaks_after(m0, oms));
        assert(current_targets@.len() == oms.len());
    }

    streaks.prune(&current_targets);
    proof {
        assert forall|k: Seq<char>| #[trigger]
            streaks.as_map().contains_key(k) <==> outcome_targets(oms, k) by {
            lemma_streaks_after_contains(m0, oms, k);
            if contains_str(current_targets@, k) {
                let i = choose|i: int|
                    0 <= i < current_targets@.len() && current_targets@[i]@ == k;
                assert(oms[i].target == k);
            }
            if outcome_targets(oms, k) {
                let i = choose|i: int| 0 <= i < oms.len() && oms[i].target == k;
                assert(current_targets@[i]@ == k);
            }
        }
    }

    let aggregate_up = compute_aggregate(&results);

    let events: Vec<NotificationEvent> = if prior.is_first_cycle || outcomes.len() == 0 {
        Vec::new()
    } else {
        diff(&prior.results, &results)
    };

    let snapshot = CycleSnapshot {
        results,
        timestamp_text,
        aggregate_up,
        cycle_number: prior.cycle_number + 1,
        is_first_cycle: false,
    };
    (snapshot, events)
}

} // verus!
