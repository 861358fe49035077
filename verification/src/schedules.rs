//! Schedule labels and the order of schedules that makes up one tick.
//!
//! A schedule is addressed by a 128-bit label. The runtime owns a few
//! well-known labels for its phases; user code is free to add schedules
//! under labels of its own.

use vstd::prelude::*;

verus! {

/// Label of the schedule that stands for one whole tick.
pub const MAIN_LABEL: u128 = 1;

/// Label of the schedule run once before `Startup`, on the first tick only.
pub const PRE_STARTUP_LABEL: u128 = 2;

/// Label of the schedule run once when the app starts.
pub const STARTUP_LABEL: u128 = 3;

/// Label of the earliest per-tick phase, where event channels flip their
/// buffers before any reader runs.
pub const EVENT_REGISTRATION_LABEL: u128 = 4;

/// Label of the phase that prepares data that `Update` consumes.
pub const PRE_UPDATE_LABEL: u128 = 5;

/// Label of the phase that holds app logic.
pub const UPDATE_LABEL: u128 = 6;

/// Label of the phase that reacts to what happened in `Update`.
pub const POST_UPDATE_LABEL: u128 = 7;

/// The resource identifier under which the driver looks up the
/// [`MainScheduleOrder`], stored as [`crate::value::Value::Order`].
pub const MAIN_SCHEDULE_ORDER_KEY: u128 = 8;

/// The schedule that stands for one whole tick.
#[derive(Clone, Copy, Debug, PartialEq, Eq, Hash)]
pub struct Main;

/// The schedule that runs once when the app starts.
/// This is run by the [`Main`] schedule.
#[derive(Clone, Copy, Debug, PartialEq, Eq, Hash)]
pub struct Startup;

/// The schedule that runs once before [`Startup`].
/// This is run by the [`Main`] schedule.
#[derive(Clone, Copy, Debug, PartialEq, Eq, Hash)]
pub struct PreStartup;

/// The earliest per-tick schedule: event channels rotate their buffers
/// here, before any reader system observes events.
/// This is run by the [`Main`] schedule.
#[derive(Clone, Copy, Debug, PartialEq, Eq, Hash)]
pub struct EventRegistration;

/// The schedule with logic that must run before [`Update`].
/// This is run by the [`Main`] schedule.
#[derive(Clone, Copy, Debug, PartialEq, Eq, Hash)]
pub struct PreUpdate;

/// The schedule that holds app logic.
/// This is run by the [`Main`] schedule.
#[derive(Clone, Copy, Debug, PartialEq, Eq, Hash)]
pub struct Update;

/// The schedule with logic that must run after [`Update`].
/// This is run by the [`Main`] schedule.
#[derive(Clone, Copy, Debug, PartialEq, Eq, Hash)]
pub struct PostUpdate;

impl Main {
    /// The label this marker stands for.
    pub fn label() -> (l: u128)
        ensures
            l == MAIN_LABEL,
    {
        MAIN_LABEL
    }
}

impl Startup {
    /// The label this marker stands for.
    pub fn label() -> (l: u128)
        ensures
            l == STARTUP_LABEL,
    {
        STARTUP_LABEL
    }
}

impl PreStartup {
    /// The label this marker stands for.
    pub fn label() -> (l: u128)
        ensures
            l == PRE_STARTUP_LABEL,
    {
        PRE_STARTUP_LABEL
    }
}

impl EventRegistration {
    /// The label this marker stands for.
    pub fn label() -> (l: u128)
        ensures
            l == EVENT_REGISTRATION_LABEL,
    {
        EVENT_REGISTRATION_LABEL
    }
}

impl PreUpdate {
    /// The label this marker stands for.
    pub fn label() -> (l: u128)
        ensures
            l == PRE_UPDATE_LABEL,
    {
        PRE_UPDATE_LABEL
    }
}

impl Update {
    /// The label this marker stands for.
    pub fn label() -> (l: u128)
        ensures
            l == UPDATE_LABEL,
    {
        UPDATE_LABEL
    }
}

impl PostUpdate {
    /// The label this marker stands for.
    pub fn label() -> (l: u128)
        ensures
            l == POST_UPDATE_LABEL,
    {
        POST_UPDATE_LABEL
    }
}

/// The default per-tick order of schedule labels.
pub open spec fn default_order() -> Seq<u128> {
    seq![EVENT_REGISTRATION_LABEL, PRE_UPDATE_LABEL, UPDATE_LABEL, POST_UPDATE_LABEL]
}

/// Defines the schedules to be run for the [`Main`] schedule, including
/// their order.
#[derive(Clone, Debug, PartialEq, Eq)]
pub struct MainScheduleOrder {
    /// The labels to run for the [`Main`] schedule, in the order they
    /// will be run.
    pub labels: Vec<u128>,
}

impl Default for MainScheduleOrder {
    /// Starts from the per-tick phases in their canonical order.
    fn default() -> (r: Self)
        ensures
            r.labels@ == default_order(),
    {
        let mut labels: Vec<u128> = Vec::new();
        labels.push(EVENT_REGISTRATION_LABEL);
        labels.push(PRE_UPDATE_LABEL);
        labels.push(UPDATE_LABEL);
        labels.push(POST_UPDATE_LABEL);
        proof {
            assert(labels@ =~= default_order());
        }
        MainScheduleOrder { labels }
    }
}

impl MainScheduleOrder {
    /// Adds the given `schedule` right after the first occurrence of the
    /// `after` schedule.
    ///
    /// A missing anchor is a wiring mistake made at build time, and by
    /// design it is fatal rather than a silent no-op; hence the caller
    /// must have established that the anchor is present, by
    /// [`Self::try_insert_after`] or otherwise.
    pub fn insert_after(&mut self, after: u128, schedule: u128)
        requires
            old(self).labels@.contains(after),
        ensures
            final(self).labels@ == old(self).labels@.insert(
                old(self).labels@.index_of_first(after).unwrap() + 1,
                schedule,
            ),
    {
        let ok = self.try_insert_after(after, schedule);
        proof {
            assert(ok);
        }
    }

    /// Adds the given `schedule` right after the first occurrence of the
    /// `after` schedule, and reports whether the anchor was found; when
    /// it was not, the order is left unchanged.
    pub fn try_insert_after(&mut self, after: u128, schedule: u128) -> (ok: bool)
        ensures
            ok == old(self).labels@.contains(after),
            ok ==> final(self).labels@ == old(self).labels@.insert(
                old(self).labels@.index_of_first(after).unwrap() + 1,
                schedule,
            ),
            !ok ==> *final(self) == *old(self),
    {
        proof {
            old(self).labels@.index_of_first_ensures(after);
        }
        let n: usize = self.labels.len();
        let mut i: usize = 0;
        while i < n
            invariant
                *self == *old(self),
                n == self.labels@.len(),
                i <= n,
                forall|j: int| 0 <= j < i ==> self.labels@[j] != after,
            decreases n - i,
        {
            if self.labels[i] == after {
                proof {
                    old(self).labels@.index_of_first_ensures(after);
                    assert(old(self).labels@.index_of_first(after) == Some(i as int));
                }
                self.labels.insert(i + 1, schedule);
                return true;
            }
            i = i + 1;
        }
        false
    }
}

} // verus!
