//! When jobs run: fixed intervals per job, mutual exclusion between the full
//! and the partial job of one resource, and the pauses that the external
//! rate limits ask for.

use vstd::prelude::*;
use crate::roster::{
    member_failures, partial_update_roster, remaining_requests, rows, synced_all, unique_cids,
    Controller, MemberError, RosterMember, IPC,
};

verus! {

/// A scheduled job.
#[derive(Clone, Copy, PartialEq, Eq, Structural, Debug)]
pub enum Job {
    PartialRoster,
    FullRoster,
    PartialActivity,
    FullActivity,
    SoloCertSweep,
    NoShowSweep,
}

/// A resource that a full and a partial job share.
#[derive(Clone, Copy, PartialEq, Eq, Structural, Debug)]
pub enum Resource {
    Roster,
    Activity,
}

/// What a tick of a job does.
#[derive(Clone, Copy, PartialEq, Eq, Structural, Debug)]
pub enum TickAction {
    /// The job runs now, holding its resource's guard if it has one.
    Run,
    /// The partial job gives up this tick: the full job holds the guard.
    Skip,
    /// The full job waits for the guard and tries again.
    Wait,
}

/// The resource that a job works on, if it shares one.
pub open spec fn resource_of(job: Job) -> Option<Resource> {
    match job {
        Job::PartialRoster | Job::FullRoster => Some(Resource::Roster),
        Job::PartialActivity | Job::FullActivity => Some(Resource::Activity),
        _ => None,
    }
}

/// Whether a job is the partial job of its resource.
pub open spec fn is_partial(job: Job) -> bool {
    job == Job::PartialRoster || job == Job::PartialActivity
}

/// The guards of the two shared resources.
#[derive(Clone, Copy, PartialEq, Eq, Structural, Debug)]
pub struct ResourceGuards {
    pub roster_held: bool,
    pub activity_held: bool,
}

/// Whether the guard of `r` is held.
pub open spec fn held(g: ResourceGuards, r: Resource) -> bool {
    match r {
        Resource::Roster => g.roster_held,
        Resource::Activity => g.activity_held,
    }
}

/// The guards with that of `r` set to `v`.
pub open spec fn with_guard(g: ResourceGuards, r: Resource, v: bool) -> ResourceGuards {
    match r {
        Resource::Roster => ResourceGuards { roster_held: v, ..g },
        Resource::Activity => ResourceGuards { activity_held: v, ..g },
    }
}

/// What a tick of `job` does: a job without a shared resource runs; one
/// whose guard is free takes it and runs; otherwise the partial job skips
/// its tick and the full job waits.
pub open spec fn tick_decision(g: ResourceGuards, job: Job) -> TickAction {
    match resource_of(job) {
        None => TickAction::Run,
        Some(r) => if !held(g, r) {
            TickAction::Run
        } else if is_partial(job) {
            TickAction::Skip
        } else {
            TickAction::Wait
        },
    }
}

/// The guards after a tick of `job`.
pub open spec fn after_tick(g: ResourceGuards, job: Job) -> ResourceGuards {
    match resource_of(job) {
        Some(r) => if !held(g, r) {
            with_guard(g, r, true)
        } else {
            g
        },
        None => g,
    }
}

/// The guards after `job` finished.
pub open spec fn after_finish(g: ResourceGuards, job: Job) -> ResourceGuards {
    match resource_of(job) {
        Some(r) => with_guard(g, r, false),
        None => g,
    }
}

impl ResourceGuards {
    /// Both guards free.
    pub fn new() -> (r: ResourceGuards)
        ensures
            !r.roster_held && !r.activity_held,
    {
        ResourceGuards { roster_held: false, activity_held: false }
    }

    /// Decide a tick of `job`, taking its guard when it runs.
    pub fn begin(&mut self, job: Job) -> (r: TickAction)
        ensures
            r == tick_decision(*old(self), job),
            *final(self) == after_tick(*old(self), job),
    {
        match job {
            Job::PartialRoster | Job::FullRoster => {
                if !self.roster_held {
                    self.roster_held = true;
                    TickAction::Run
                } else if job == Job::PartialRoster {
                    TickAction::Skip
                } else {
                    TickAction::Wait
                }
            },
            Job::PartialActivity | Job::FullActivity => {
                if !self.activity_held {
                    self.activity_held = true;
                    TickAction::Run
                } else if job == Job::PartialActivity {
                    TickAction::Skip
                } else {
                    TickAction::Wait
                }
            },
            _ => TickAction::Run,
        }
    }

    /// Release the guard of a job that ran.
    pub fn finish(&mut self, job: Job)
        ensures
            *final(self) == after_finish(*old(self), job),
    {
        match job {
            Job::PartialRoster | Job::FullRoster => {
                self.roster_held = false;
            },
            Job::PartialActivity | Job::FullActivity => {
                self.activity_held = false;
            },
            _ => {},
        }
    }
}

/// While a full job holds its resource, a tick of the partial job of the
/// same resource is skipped and leaves the guards as they are; the other
/// resource is not affected.
pub proof fn lemma_partial_skipped_during_full(g: ResourceGuards, full: Job, partial: Job)
    requires
        tick_decision(g, full) == TickAction::Run,
        !is_partial(full),
        is_partial(partial),
        resource_of(full) is Some,
        resource_of(partial) == resource_of(full),
    ensures
        tick_decision(after_tick(g, full), partial) == TickAction::Skip,
        after_tick(after_tick(g, full), partial) == after_tick(g, full),
{
}

/// One tick of the partial roster job: when the full roster job holds the
/// guard it is skipped and writes nothing; otherwise it drains the refresh
/// requests with the members fetched for them, and releases the guard.
pub fn partial_roster_tick(
    guards: &mut ResourceGuards,
    controllers: &mut Vec<Controller>,
    requests: &mut Vec<IPC>,
    fetched: &Vec<RosterMember>,
    facility: &str,
) -> (r: (TickAction, Vec<(u32, MemberError)>))
    requires
        unique_cids(rows(old(controllers)@)),
    ensures
        r.0 == tick_decision(*old(guards), Job::PartialRoster),
        r.0 == TickAction::Skip ==> final(controllers)@ == old(controllers)@ && final(requests)@
            == old(requests)@ && *final(guards) == *old(guards) && r.1@.len() == 0,
        r.0 == TickAction::Run ==> rows(final(controllers)@) == synced_all(
            rows(old(controllers)@),
            fetched@,
            facility@,
        ) && final(requests)@ == remaining_requests(old(requests)@) && r.1@ == member_failures(
            rows(old(controllers)@),
            fetched@,
            facility@,
        ) && *final(guards) == after_finish(after_tick(*old(guards), Job::PartialRoster), Job::PartialRoster),
        unique_cids(rows(final(controllers)@)),
{
    let action = guards.begin(Job::PartialRoster);
    match action {
        TickAction::Run => {
            let failures = partial_update_roster(controllers, requests, fetched, facility);
            guards.finish(Job::PartialRoster);
            (action, failures)
        },
        _ => (action, Vec::new()),
    }
}

/// How often each job runs, in seconds.
#[derive(Clone, Copy, PartialEq, Eq, Structural, Debug)]
pub struct ScheduleConfig {
    pub partial_roster_secs: u64,
    pub full_roster_secs: u64,
    pub partial_activity_secs: u64,
    pub full_activity_secs: u64,
    pub solo_cert_sweep_secs: u64,
    pub no_show_sweep_secs: u64,
}

/// The interval of `job` under `c`.
pub open spec fn interval_of(c: ScheduleConfig, job: Job) -> u64 {
    match job {
        Job::PartialRoster => c.partial_roster_secs,
        Job::FullRoster => c.full_roster_secs,
        Job::PartialActivity => c.partial_activity_secs,
        Job::FullActivity => c.full_activity_secs,
        Job::SoloCertSweep => c.solo_cert_sweep_secs,
        Job::NoShowSweep => c.no_show_sweep_secs,
    }
}

/// Whether a job that last ran at `last` (never, if none) is due at `now`.
pub open spec fn due(last: Option<i64>, interval: u64, now: i64) -> bool {
    match last {
        None => true,
        Some(t) => now - t >= interval,
    }
}

impl ScheduleConfig {
    /// The usual intervals: partial roster every 5 minutes, full roster
    /// every 2 hours, partial activity every 15 minutes, full activity every
    /// 6 hours, solo certifications every 30 minutes and no-shows every 12
    /// hours.
    pub fn standard() -> (r: ScheduleConfig)
        ensures
            r.partial_roster_secs == 300,
            r.full_roster_secs == 7200,
            r.partial_activity_secs == 900,
            r.full_activity_secs == 21600,
            r.solo_cert_sweep_secs == 1800,
            r.no_show_sweep_secs == 43200,
    {
        ScheduleConfig {
            partial_roster_secs: 300,
            full_roster_secs: 7200,
            partial_activity_secs: 900,
            full_activity_secs: 21600,
            solo_cert_sweep_secs: 1800,
            no_show_sweep_secs: 43200,
        }
    }

    /// The interval of `job`.
    pub fn interval_secs(&self, job: Job) -> (r: u64)
        ensures
            r == interval_of(*self, job),
    {
        match job {
            Job::PartialRoster => self.partial_roster_secs,
            Job::FullRoster => self.full_roster_secs,
            Job::PartialActivity => self.partial_activity_secs,
            Job::FullActivity => self.full_activity_secs,
            Job::SoloCertSweep => self.solo_cert_sweep_secs,
            Job::NoShowSweep => self.no_show_sweep_secs,
        }
    }

    /// Whether `job`, last run at `last`, is due at `now`.
    pub fn is_due(&self, job: Job, last: Option<i64>, now: i64) -> (r: bool)
        ensures
            r == due(last, interval_of(*self, job), now),
    {
        let interval = self.interval_secs(job);
        match last {
            None => true,
            Some(t) => (now as i128) - (t as i128) >= interval as i128,
        }
    }
}

/// How a call to an external service failed.
#[derive(Clone, Copy, PartialEq, Eq, Structural, Debug)]
pub enum FetchFailure {
    /// The service asked to slow down.
    RateLimited,
    /// Another unsuccessful status, or no answer.
    Unavailable,
    /// The answer could not be read.
    BadData,
}

/// The failure that an unsuccessful HTTP status means.
pub open spec fn status_failure(code: u16) -> FetchFailure {
    if code == 429 {
        FetchFailure::RateLimited
    } else {
        FetchFailure::Unavailable
    }
}

/// The failure that an unsuccessful HTTP status means.
pub fn classify_status(code: u16) -> (r: FetchFailure)
    ensures
        r == status_failure(code),
{
    if code == 429 {
        FetchFailure::RateLimited
    } else {
        FetchFailure::Unavailable
    }
}

/// The pauses and the look-back that the reconcilers use.
#[derive(Clone, Copy, PartialEq, Eq, Structural, Debug)]
pub struct RateLimits {
    /// Seconds between two calls to the session history service.
    pub pause_secs: u64,
    /// Seconds to back off after a rate-limit answer.
    pub backoff_secs: u64,
    /// Months of session history that a full activity sync reads.
    pub lookback_months: u32,
}

impl RateLimits {
    /// The usual limits: 8 seconds between calls, 30 seconds of back-off,
    /// 5 months of history.
    pub fn standard() -> (r: RateLimits)
        ensures
            r.pause_secs == 8,
            r.backoff_secs == 30,
            r.lookback_months == 5,
    {
        RateLimits { pause_secs: 8, backoff_secs: 30, lookback_months: 5 }
    }

    /// Seconds to wait after a failed call, before the failure is reported:
    /// the back-off after a rate-limit answer, nothing otherwise.
    pub fn backoff_after(&self, f: FetchFailure) -> (r: u64)
        ensures
            r == (if f == FetchFailure::RateLimited {
                self.backoff_secs
            } else {
                0
            }),
    {
        match f {
            FetchFailure::RateLimited => self.backoff_secs,
            _ => 0,
        }
    }
}

} // verus!
