use vzdv::roles::RoleSet;
use vzdv::roster::{Controller, RosterMember, IPC};
use vzdv::schedule::{
    classify_status, partial_roster_tick, FetchFailure, Job, RateLimits, ResourceGuards,
    ScheduleConfig, TickAction,
};

fn controller(cid: u32) -> Controller {
    Controller {
        cid,
        first_name: String::from("A"),
        last_name: String::from("B"),
        email: None,
        operating_initials: None,
        rating: 3,
        home_facility: String::from("ZDV"),
        is_on_roster: false,
        roles: RoleSet::empty(),
        join_date: None,
        loa_until: None,
    }
}

fn member(cid: u32) -> RosterMember {
    RosterMember {
        cid,
        first_name: String::from("Ann"),
        last_name: String::from("Bee"),
        email: None,
        facility: String::from("ZDV"),
        rating: 4,
        facility_join: String::from("2024-01-01T00:00:00Z"),
        roles: vec![],
        visiting_facilities: None,
    }
}

#[test]
fn partial_tick_writes_nothing_while_full_runs() {
    let mut guards = ResourceGuards::new();
    assert_eq!(guards.begin(Job::FullRoster), TickAction::Run);
    let mut controllers = vec![controller(1)];
    let mut requests = vec![IPC { uuid: String::from("u"), action: String::from("VATUSA_SYNC"), data: String::from("1") }];
    let (action, failures) = partial_roster_tick(&mut guards, &mut controllers, &mut requests, &vec![member(1)], "ZDV");
    assert_eq!(action, TickAction::Skip);
    assert!(failures.is_empty());
    assert_eq!(requests.len(), 1);
    assert!(!controllers[0].is_on_roster);
    assert_eq!(controllers[0].rating, 3);
    guards.finish(Job::FullRoster);
    let (action, _) = partial_roster_tick(&mut guards, &mut controllers, &mut requests, &vec![member(1)], "ZDV");
    assert_eq!(action, TickAction::Run);
    assert!(requests.is_empty());
    assert!(controllers[0].is_on_roster);
    assert_eq!(guards, ResourceGuards::new());
}

#[test]
fn full_job_waits_and_resources_are_separate() {
    let mut guards = ResourceGuards::new();
    assert_eq!(guards.begin(Job::PartialActivity), TickAction::Run);
    assert_eq!(guards.begin(Job::FullActivity), TickAction::Wait);
    assert_eq!(guards.begin(Job::PartialRoster), TickAction::Run);
    assert_eq!(guards.begin(Job::SoloCertSweep), TickAction::Run);
    guards.finish(Job::PartialActivity);
    assert_eq!(guards.begin(Job::FullActivity), TickAction::Run);
}

#[test]
fn intervals_and_due() {
    let c = ScheduleConfig::standard();
    assert_eq!(c.interval_secs(Job::PartialRoster), 300);
    assert_eq!(c.interval_secs(Job::NoShowSweep), 43_200);
    assert!(c.is_due(Job::FullRoster, None, 0));
    assert!(!c.is_due(Job::FullRoster, Some(1000), 1000 + 7199));
    assert!(c.is_due(Job::FullRoster, Some(1000), 1000 + 7200));
}

#[test]
fn rate_limits_back_off() {
    let r = RateLimits::standard();
    assert_eq!(classify_status(429), FetchFailure::RateLimited);
    assert_eq!(classify_status(503), FetchFailure::Unavailable);
    assert_eq!(r.backoff_after(FetchFailure::RateLimited), 30);
    assert_eq!(r.backoff_after(FetchFailure::Unavailable), 0);
    assert_eq!(r.pause_secs, 8);
}
