//! Flap suppression: per-target consecutive-failure counts and the rule that
//! turns a raw probe outcome into the externally visible status.
//!
//! A target is reported down only once its fail streak has reached the
//! configured threshold; below that, it is still reported up, with the label
//! annotated to show the streak progress. Any successful probe resets the
//! streak to zero.

use vstd::prelude::*;

use crate::label::{append_dec, dec_of};
use crate::status::{EffectiveStatus, OutcomeModel, ProbeOutcome, StatusModel};

verus! {

/// The streak after one more probe: reset on success, saturating increment
/// on failure.
pub open spec fn next_streak(prev: u8, reachable: bool) -> u8 {
    if reachable {
        0
    } else if prev == 255 {
        255
    } else {
        (prev + 1) as u8
    }
}

/// The streak recorded for `t`, or zero when `t` has no entry yet.
pub open spec fn streak_or(m: Map<Seq<char>, u8>, t: Seq<char>) -> u8 {
    if m.contains_key(t) {
        m[t]
    } else {
        0
    }
}

/// Whether a target is reported reachable, given the raw outcome and its
/// updated streak.
pub open spec fn effective_up_of(reachable: bool, streak: u8, threshold: u8) -> bool {
    reachable || streak < threshold
}

/// The label shown for a target: unchanged on success or once the streak has
/// reached the threshold, annotated with the streak progress below it.
pub open spec fn display_label_of(
    label: Seq<char>,
    reachable: bool,
    streak: u8,
    threshold: u8,
) -> Seq<char> {
    if reachable || streak >= threshold {
        label
    } else {
        label + " (fail "@ + dec_of(streak as int) + "/"@ + dec_of(threshold as int) + ")"@
    }
}

/// The effective status the debouncer produces for one outcome, given the
/// streak recorded before this cycle.
pub open spec fn status_of(o: OutcomeModel, prev_streak: u8, threshold: u8) -> StatusModel {
    let ns = next_streak(prev_streak, o.reachable);
    StatusModel {
        target: o.target,
        up: effective_up_of(o.reachable, ns, threshold),
        label: display_label_of(o.label, o.reachable, ns, threshold),
    }
}

/// Whether some element of `ts` views to `k`.
pub open spec fn contains_str(ts: Seq<String>, k: Seq<char>) -> bool {
    exists|i: int| 0 <= i < ts.len() && ts[i]@ == k
}

/// The fail-streak store: one entry per target, no target twice.
pub struct FailStreaks {
    entries: Vec<(String, u8)>,
}

impl FailStreaks {
    /// No target appears in two entries.
    pub closed spec fn wf(self) -> bool {
        forall|i: int, j: int|
            0 <= i < j < self.entries@.len() ==> self.entries@[i].0@ != self.entries@[j].0@
    }

    /// Whether some entry is for target `t`.
    pub closed spec fn contains_target(self, t: Seq<char>) -> bool {
        exists|i: int| 0 <= i < self.entries@.len() && self.entries@[i].0@ == t
    }

    spec fn index_of(self, t: Seq<char>) -> int {
        choose|i: int| 0 <= i < self.entries@.len() && self.entries@[i].0@ == t
    }

    /// The store as a map from target to streak.
    pub closed spec fn as_map(self) -> Map<Seq<char>, u8> {
        Map::new(|t: Seq<char>| self.contains_target(t), |t: Seq<char>| self.entries@[self.index_of(t)].1)
    }

    proof fn lemma_entry_is_map_entry(self, t: Seq<char>, i: int)
        requires
            self.wf(),
            0 <= i < self.entries@.len(),
            self.entries@[i].0@ == t,
        ensures
            self.as_map().contains_key(t),
            self.as_map()[t] == self.entries@[i].1,
    {
        assert(self.contains_target(t));
        let j = self.index_of(t);
        assert(0 <= j < self.entries@.len() && self.entries@[j].0@ == t);
        if i < j {
            assert(self.entries@[i].0@ != self.entries@[j].0@);
        } else if j < i {
            assert(self.entries@[j].0@ != self.entries@[i].0@);
        }
    }

    /// An empty store.
    pub fn new() -> (r: Self)
        ensures
            r.wf(),
            r.as_map() == Map::<Seq<char>, u8>::empty(),
    {
        let r = FailStreaks { entries: Vec::new() };
        proof {
            assert(r.as_map() =~= Map::<Seq<char>, u8>::empty());
        }
        r
    }

    /// The streak recorded for `t`, or zero when `t` has no entry.
    pub fn get(&self, t: &String) -> (r: u8)
        requires
            self.wf(),
        ensures
            r == streak_or(self.as_map(), t@),
    {
        let mut i: usize = 0;
        while i < self.entries.len()
            invariant
                i <= self.entries@.len(),
                self.wf(),
                forall|j: int| 0 <= j < i ==> self.entries@[j].0@ != t@,
            decreases self.entries@.len() - i,
        {
            if self.entries[i].0.eq(t) {
                proof {
                    self.lemma_entry_is_map_entry(t@, i as int);
                }
                return self.entries[i].1;
            }
            i += 1;
        }
        proof {
            assert(!self.contains_target(t@));
            assert(!self.as_map().contains_key(t@));
        }
        0
    }

    /// Records streak `v` for target `t`, replacing any earlier entry.
    #[verifier::rlimit(50)]
    pub fn set(&mut self, t: &String, v: u8)
        requires
            old(self).wf(),
        ensures
            final(self).wf(),
            final(self).as_map() == old(self).as_map().insert(t@, v),
    {
        let mut out: Vec<(String, u8)> = Vec::new();
        let mut i: usize = 0;
        while i < self.entries.len()
            invariant
                i <= old(self).entries@.len(),
                self == old(self),
                self.entries@ == old(self).entries@,
                old(self).wf(),
                forall|j: int| 0 <= j < out@.len() ==> (#[trigger] out@[j]).0@ != t@,
                forall|j: int|
                    0 <= j < out@.len() ==> exists|i2: int|
                        0 <= i2 < i && #[trigger] out@[j] == old(self).entries@[i2],
                forall|j1: int, j2: int|
                    0 <= j1 < j2 < out@.len() ==> out@[j1].0@ != out@[j2].0@,
                forall|i2: int|
                    0 <= i2 < i && (#[trigger] old(self).entries@[i2]).0@ != t@ ==> exists|j: int|
                        0 <= j < out@.len() && out@[j] == old(self).entries@[i2],
            decreases old(self).entries@.len() - i,
        {
            let ghost out0 = out@;
            if !self.entries[i].0.eq(t) {
                proof {
                    assert forall|j: int| 0 <= j < out0.len() implies out0[j].0@ != old(
                        self,
                    ).entries@[i as int].0@ by {
                        let i2 = choose|i2: int| 0 <= i2 < i && out0[j] == old(self).entries@[i2];
                        assert(old(self).entries@[i2].0@ != old(self).entries@[i as int].0@);
                    }
                }
                out.push((self.entries[i].0.clone(), self.entries[i].1));
                proof {
                    assert(out@[out@.len() - 1] == old(self).entries@[i as int]);
                    assert forall|i2: int|
                        0 <= i2 < i + 1 && (#[trigger] old(self).entries@[i2]).0@
                        != t@ implies exists|j: int|
                        0 <= j < out@.len() && out@[j] == old(self).entries@[i2] by {
                        if i2 == i {
                            assert(out@[out@.len() - 1] == old(self).entries@[i2]);
                        } else {
                            let j = choose|j: int|
                                0 <= j < out0.len() && out0[j] == old(self).entries@[i2];
                            assert(out@[j] == old(self).entries@[i2]);
                        }
                    }
                }
            } else {
                proof {
                    assert(old(self).entries@[i as int].0@ == t@);
                }
            }
            i += 1;
        }
        let ghost base = out@;
        out.push((t.clone(), v));
        self.entries = out;
        proof {
            let last = self.entries@.len() - 1;
            assert(self.entries@.len() == base.len() + 1);
            assert(forall|j: int| 0 <= j < base.len() ==> #[trigger] self.entries@[j] == base[j]);
            assert(self.entries@[last].0@ == t@);
            assert(self.wf());
            assert forall|k: Seq<char>|
                #[trigger] self.contains_target(k) <==> old(self).contains_target(k) || k
                == t@ by {
                if self.contains_target(k) {
                    let j = choose|j: int|
                        0 <= j < self.entries@.len() && self.entries@[j].0@ == k;
                    if j < last {
                        assert(self.entries@[j] == base[j]);
                        let i2 = choose|i2: int|
                            0 <= i2 < old(self).entries@.len() && base[j] == old(
                                self,
                            ).entries@[i2];
                        assert(old(self).entries@[i2].0@ == k);
                        assert(old(self).contains_target(k));
                    }
                }
                if k == t@ {
                    assert(self.entries@[last].0@ == k);
                    assert(self.contains_target(k));
                }
                if k != t@ && old(self).contains_target(k) {
                    let i2 = choose|i2: int|
                        0 <= i2 < old(self).entries@.len() && old(self).entries@[i2].0@ == k;
                    let j = choose|j: int|
                        0 <= j < base.len() && base[j] == old(self).entries@[i2];
                    assert(self.entries@[j] == base[j]);
                    assert(self.entries@[j].0@ == k);
                    assert(self.contains_target(k));
                }
            }
            assert forall|k: Seq<char>| #[trigger]
                self.as_map().contains_key(k) implies self.as_map()[k] == old(
                self,
            ).as_map().insert(t@, v)[k] by {
                if k == t@ {
                    self.lemma_entry_is_map_entry(k, last);
                } else {
                    let j = choose|j: int|
                        0 <= j < self.entries@.len() && self.entries@[j].0@ == k;
                    assert(j != last);
                    self.lemma_entry_is_map_entry(k, j);
                    assert(self.entries@[j] == base[j]);
                    let i2 = choose|i2: int|
                        0 <= i2 < old(self).entries@.len() && base[j] == old(self).entries@[i2];
                    old(self).lemma_entry_is_map_entry(k, i2);
                }
            }
            assert(self.as_map() =~= old(self).as_map().insert(t@, v));
        }
    }

    /// Drops every entry whose target is not in `keep`.
    #[verifier::rlimit(50)]
    pub fn prune(&mut self, keep: &Vec<String>)
        requires
            old(self).wf(),
        ensures
            final(self).wf(),
            forall|k: Seq<char>|
                #[trigger] final(self).as_map().contains_key(k) <==> (old(
                    self,
                ).as_map().contains_key(k) && contains_str(keep@, k)),
            forall|k: Seq<char>|
                #[trigger] final(self).as_map().contains_key(k) ==> final(self).as_map()[k] == old(
                    self,
                ).as_map()[k],
    {
        let mut out: Vec<(String, u8)> = Vec::new();
        let mut i: usize = 0;
        while i < self.entries.len()
            invariant
                i <= self.entries@.len(),
                self == old(self),
                old(self).wf(),
                forall|j: int| 0 <= j < out@.len() ==> contains_str(keep@, (#[trigger] out@[j]).0@),
                forall|j: int|
                    0 <= j < out@.len() ==> exists|i2: int|
                        0 <= i2 < i && #[trigger] out@[j] == self.entries@[i2],
                forall|j1: int, j2: int|
                    0 <= j1 < j2 < out@.len() ==> out@[j1].0@ != out@[j2].0@,
                forall|i2: int|
                    0 <= i2 < i && contains_str(keep@, (#[trigger] self.entries@[i2]).0@)
                        ==> exists|j: int| 0 <= j < out@.len() && out@[j] == self.entries@[i2],
            decreases self.entries@.len() - i,
        {
            let ghost out0 = out@;
            if vec_contains_target(keep, &self.entries[i].0) {
                proof {
                    assert forall|j: int| 0 <= j < out0.len() implies out0[j].0@
                        != self.entries@[i as int].0@ by {
                        let i2 = choose|i2: int| 0 <= i2 < i && out0[j] == self.entries@[i2];
                        assert(self.entries@[i2].0@ != self.entries@[i as int].0@);
                    }
                }
                out.push((self.entries[i].0.clone(), self.entries[i].1));
                proof {
                    assert(out@[out@.len() - 1] == self.entries@[i as int]);
                    assert forall|i2: int|
                        0 <= i2 < i + 1 && contains_str(
                            keep@,
                            (#[trigger] self.entries@[i2]).0@,
                        ) implies exists|j: int|
                        0 <= j < out@.len() && out@[j] == self.entries@[i2] by {
                        if i2 == i {
                            assert(out@[out@.len() - 1] == self.entries@[i2]);
                        } else {
                            let j = choose|j: int|
                                0 <= j < out0.len() && out0[j] == self.entries@[i2];
                            assert(out@[j] == self.entries@[i2]);
                        }
                    }
                }
            }
            i += 1;
        }
        self.entries = out;
        proof {
            assert(self.wf());
            assert forall|k: Seq<char>|
                #[trigger] self.contains_target(k) <==> (old(self).contains_target(k)
                    && contains_str(keep@, k)) by {
                if self.contains_target(k) {
                    let j = choose|j: int|
                        0 <= j < self.entries@.len() && self.entries@[j].0@ == k;
                    let i2 = choose|i2: int|
                        0 <= i2 < old(self).entries@.len() && self.entries@[j] == old(
                            self,
                        ).entries@[i2];
                    assert(old(self).entries@[i2].0@ == k);
                    assert(old(self).contains_target(k));
                }
                if old(self).contains_target(k) && contains_str(keep@, k) {
                    let i2 = choose|i2: int|
                        0 <= i2 < old(self).entries@.len() && old(self).entries@[i2].0@ == k;
                    let j = choose|j: int|
                        0 <= j < self.entries@.len() && self.entries@[j] == old(
                            self,
                        ).entries@[i2];
                    assert(self.entries@[j].0@ == k);
                    assert(self.contains_target(k));
                }
            }
            assert forall|k: Seq<char>| #[trigger]
                self.as_map().contains_key(k) implies self.as_map()[k] == old(
                self,
            ).as_map()[k] by {
                let j = choose|j: int| 0 <= j < self.entries@.len() && self.entries@[j].0@ == k;
                self.lemma_entry_is_map_entry(k, j);
                let i2 = choose|i2: int|
                    0 <= i2 < old(self).entries@.len() && self.entries@[j] == old(
                        self,
                    ).entries@[i2];
                old(self).lemma_entry_is_map_entry(k, i2);
            }
        }
    }
}

/// Whether `v` holds a string equal to `t`.
pub fn vec_contains_target(v: &Vec<String>, t: &String) -> (r: bool)
    ensures
        r == contains_str(v@, t@),
{
    let mut i: usize = 0;
    while i < v.len()
        invariant
            i <= v@.len(),
            forall|j: int| 0 <= j < i ==> v@[j]@ != t@,
        decreases v@.len() - i,
    {
        if v[i].eq(t) {
            return true;
        }
        i += 1;
    }
    false
}

fn build_display_label(label: &String, reachable: bool, streak: u8, threshold: u8) -> (r: String)
    ensures
        r@ == display_label_of(label@, reachable, streak, threshold),
{
    if reachable || streak >= threshold {
        label.clone()
    } else {
        let mut s = label.clone();
        s.append(" (fail ");
        append_dec(&mut s, streak as u64);
        s.append("/");
        append_dec(&mut s, threshold as u64);
        s.append(")");
        s
    }
}

/// Debounces one probe outcome: updates the target's fail streak and returns
/// the effective status the rest of the cycle works with.
pub fn debounce_apply(streaks: &mut FailStreaks, outcome: &ProbeOutcome, threshold: u8) -> (r:
    EffectiveStatus)
    requires
        old(streaks).wf(),
    ensures
        final(streaks).wf(),
        final(streaks).as_map() == old(streaks).as_map().insert(
            outcome.target@,
            next_streak(streak_or(old(streaks).as_map(), outcome.target@), outcome.reachable),
        ),
        r@ == status_of(outcome@, streak_or(old(streaks).as_map(), outcome.target@), threshold),
{
    let prev = streaks.get(&outcome.target);
    let ns: u8 = if outcome.reachable {
        0
    } else if prev == 255 {
        255
    } else {
        prev + 1
    };
    streaks.set(&outcome.target, ns);
    let display_label = build_display_label(&outcome.label, outcome.reachable, ns, threshold);
    EffectiveStatus {
        target: outcome.target.clone(),
        effective_reachable: outcome.reachable || ns < threshold,
        display_label,
    }
}

/// A target's display label is never empty when the probe label is not:
/// debouncing either keeps the label or extends it.
pub proof fn lemma_display_label_nonempty(
    label: Seq<char>,
    reachable: bool,
    streak: u8,
    threshold: u8,
)
    requires
        label.len() > 0,
    ensures
        display_label_of(label, reachable, streak, threshold).len() > 0,
{
}

/// The fail streak after a run of probes for one target, starting from
/// `init`: each success resets it, each failure bumps it (saturating).
pub open spec fn streak_fold(init: u8, reachables: Seq<bool>) -> u8
    decreases reachables.len(),
{
    if reachables.len() == 0 {
        init
    } else {
        next_streak(streak_fold(init, reachables.drop_last()), reachables.last())
    }
}

/// Debounce monotonicity: along any run of probe outcomes for one target,
/// the fail streak never decreases while the probes keep failing, and any
/// successful probe resets it to exactly zero.
pub proof fn lemma_streak_monotonic(init: u8, reachables: Seq<bool>, i: int)
    requires
        0 <= i < reachables.len(),
    ensures
        !reachables[i] ==> streak_fold(init, reachables.take(i + 1)) >= streak_fold(
            init,
            reachables.take(i),
        ),
        reachables[i] ==> streak_fold(init, reachables.take(i + 1)) == 0,
{
    let pre = reachables.take(i + 1);
    assert(pre.drop_last() =~= reachables.take(i));
    assert(pre.last() == reachables[i]);
}

/// Threshold boundary: a failing probe leaves the target reported reachable
/// exactly while the updated streak is still below the threshold; a
/// successful probe always leaves it reported reachable.
pub proof fn lemma_threshold_boundary(o: OutcomeModel, prev_streak: u8, threshold: u8)
    ensures
        !o.reachable ==> status_of(o, prev_streak, threshold).up == (next_streak(prev_streak, false)
            < threshold),
        o.reachable ==> status_of(o, prev_streak, threshold).up,
{
}

} // verus!
