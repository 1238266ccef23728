//! The data carried through one monitoring cycle, with the mathematical
//! models the contracts speak of.
//!
//! Each executable record has a ghost model holding the same information over
//! `Seq<char>`, reached through the `@` view.

use vstd::prelude::*;

verus! {

/// What one probe of one target reported, before debouncing.
pub struct ProbeOutcome {
    pub target: String,
    pub reachable: bool,
    pub label: String,
}

/// Model of [`ProbeOutcome`].
pub struct OutcomeModel {
    pub target: Seq<char>,
    pub reachable: bool,
    pub label: Seq<char>,
}

impl View for ProbeOutcome {
    type V = OutcomeModel;

    open spec fn view(&self) -> OutcomeModel {
        OutcomeModel { target: self.target@, reachable: self.reachable, label: self.label@ }
    }
}

/// A target's externally visible state after flap suppression.
pub struct EffectiveStatus {
    pub target: String,
    pub effective_reachable: bool,
    pub display_label: String,
}

/// Model of [`EffectiveStatus`].
pub struct StatusModel {
    pub target: Seq<char>,
    pub up: bool,
    pub label: Seq<char>,
}

impl View for EffectiveStatus {
    type V = StatusModel;

    open spec fn view(&self) -> StatusModel {
        StatusModel {
            target: self.target@,
            up: self.effective_reachable,
            label: self.display_label@,
        }
    }
}

/// One notification-worthy transition: `target` is now up or now down.
pub struct NotificationEvent {
    pub target: String,
    pub now_up: bool,
}

/// Model of [`NotificationEvent`].
pub struct EventModel {
    pub target: Seq<char>,
    pub now_up: bool,
}

impl View for NotificationEvent {
    type V = EventModel;

    open spec fn view(&self) -> EventModel {
        EventModel { target: self.target@, now_up: self.now_up }
    }
}

/// Everything one cycle publishes for the tray to read.
pub struct CycleSnapshot {
    pub results: Vec<EffectiveStatus>,
    pub timestamp_text: String,
    pub aggregate_up: bool,
    pub cycle_number: u64,
    pub is_first_cycle: bool,
}

impl CycleSnapshot {
    /// The state before any cycle has run: nothing measured yet, aggregate
    /// optimistically up, and the first-cycle flag set so that no diff is
    /// taken against the empty baseline.
    pub fn initial() -> (r: Self)
        ensures
            r.results@.len() == 0,
            r.timestamp_text@ == "waiting..."@,
            r.aggregate_up == true,
            r.cycle_number == 0,
            r.is_first_cycle == true,
    {
        CycleSnapshot {
            results: Vec::new(),
            timestamp_text: String::from_str("waiting..."),
            aggregate_up: true,
            cycle_number: 0,
            is_first_cycle: true,
        }
    }
}

/// The models of a sequence of statuses.
pub open spec fn status_models(s: Seq<EffectiveStatus>) -> Seq<StatusModel> {
    s.map_values(|e: EffectiveStatus| e@)
}

/// The models of a sequence of probe outcomes.
pub open spec fn outcome_models(s: Seq<ProbeOutcome>) -> Seq<OutcomeModel> {
    s.map_values(|o: ProbeOutcome| o@)
}

/// The models of a sequence of notification events.
pub open spec fn event_models(s: Seq<NotificationEvent>) -> Seq<EventModel> {
    s.map_values(|e: NotificationEvent| e@)
}

} // verus!
