use vzdv::activity::{
    activity_months, aggregate_sessions, currency_violation, ActivityMonth, parse_minutes_millis, position_in_facility_airspace, should_spot_update,
    true_up_single_activity, update_single_activity, Activity, ActivityError, AtcSession,
};
use vzdv::config::ConfigStats;

fn stats() -> ConfigStats {
    ConfigStats {
        position_prefixes: vec![String::from("DEN"), String::from("ZDV")],
        position_suffixes: vec![String::from("_TWR"), String::from("_CTR"), String::from("_APP")],
    }
}

fn session(callsign: &str, start: &str, minutes: &str) -> AtcSession {
    AtcSession {
        callsign: callsign.to_string(),
        start: start.to_string(),
        minutes_on_callsign: minutes.to_string(),
    }
}

#[test]
fn airspace_needs_prefix_and_suffix() {
    let s = stats();
    assert!(position_in_facility_airspace(&s, "DEN_TWR"));
    assert!(position_in_facility_airspace(&s, "ZDV_12_CTR"));
    assert!(!position_in_facility_airspace(&s, "DEN_OBS"));
    assert!(!position_in_facility_airspace(&s, "LAX_TWR"));
}

#[test]
fn minutes_are_read_in_thousandths() {
    assert_eq!(parse_minutes_millis("90"), Some(90_000));
    assert_eq!(parse_minutes_millis("12.5"), Some(12_500));
    assert_eq!(parse_minutes_millis("0.1234"), Some(123));
    assert_eq!(parse_minutes_millis("7."), Some(7_000));
    assert_eq!(parse_minutes_millis("abc"), None);
    assert_eq!(parse_minutes_millis("1.2.3"), None);
    assert_eq!(parse_minutes_millis(""), None);
}

#[test]
fn sessions_are_summed_per_month() {
    let sessions = vec![
        session("DEN_TWR", "2025-09-03T10:00:00", "30.4"),
        session("DEN_APP", "2025-09-20T10:00:00", "29.7"),
        session("LAX_TWR", "2025-09-21T10:00:00", "500"),
        session("ZDV_CTR", "2025-10-01T10:00:00", "45"),
        session("DEN_TWR", "2025", "45"),
        session("DEN_TWR", "2025-10-05T10:00:00", "bad"),
    ];
    let totals = aggregate_sessions(&stats(), &sessions);
    assert_eq!(totals.len(), 2);
    assert_eq!(totals[0].month, "2025-09");
    assert_eq!(totals[0].minutes, 60);
    assert_eq!(totals[1].month, "2025-10");
    assert_eq!(totals[1].minutes, 45);
}

#[test]
fn full_sync_replaces_all_months() {
    let mut activity = vec![
        Activity { cid: 1, month: String::from("2024-01"), minutes: 99 },
        Activity { cid: 2, month: String::from("2025-09"), minutes: 10 },
        Activity { cid: 1, month: String::from("2025-09"), minutes: 5 },
    ];
    let sessions = vec![
        session("DEN_TWR", "2025-09-03T10:00:00", "120"),
        session("DEN_TWR", "2025-08-03T10:00:00", "60.5"),
    ];
    let totals = true_up_single_activity(&mut activity, &stats(), 1, &sessions);
    assert_eq!(totals.len(), 2);
    let mut mine: Vec<(String, u32)> = activity.iter().filter(|a| a.cid == 1).map(|a| (a.month.clone(), a.minutes)).collect();
    mine.sort();
    assert_eq!(mine, vec![(String::from("2025-08"), 61), (String::from("2025-09"), 120)]);
    assert_eq!(activity.iter().filter(|a| a.cid == 2).count(), 1);
}

#[test]
fn online_update_inserts_then_updates() {
    let mut activity = vec![Activity { cid: 2, month: String::from("2025-10"), minutes: 10 }];
    let sessions = vec![session("DEN_TWR", "2025-10-01T10:00:00", "30")];
    let logon = "2025-10-10T10:00:00+00:00";
    let now = 1_760_090_400 + 15 * 60; // 15 minutes after the login
    let m = update_single_activity(&mut activity, &stats(), 1, "2025-10", &sessions, logon, now).unwrap();
    assert_eq!(m, 45);
    assert_eq!(activity.len(), 2);
    let m = update_single_activity(&mut activity, &stats(), 1, "2025-10", &sessions, logon, now + 600).unwrap();
    assert_eq!(m, 55);
    assert_eq!(activity.len(), 2);
    assert_eq!(activity[1].minutes, 55);
    assert_eq!(activity[0].minutes, 10);
}

#[test]
fn online_update_rejects_bad_logon() {
    let mut activity = vec![];
    let r = update_single_activity(&mut activity, &stats(), 1, "2025-10", &vec![], "later", 0);
    assert_eq!(r, Err(ActivityError::BadLogonTime));
    assert!(activity.is_empty());
}

#[test]
fn spot_update_needs_roster_and_airspace() {
    let s = stats();
    assert!(should_spot_update(&vec![1, 2], &s, 2, "DEN_TWR"));
    assert!(!should_spot_update(&vec![1, 2], &s, 3, "DEN_TWR"));
    assert!(!should_spot_update(&vec![1, 2], &s, 2, "DEN_OBS"));
}

#[test]
fn activity_report_months_and_violation() {
    let activity = vec![
        Activity { cid: 1, month: String::from("2025-10"), minutes: 100 },
        Activity { cid: 1, month: String::from("2025-09"), minutes: 50 },
        Activity { cid: 2, month: String::from("2025-10"), minutes: 500 },
        Activity { cid: 1, month: String::from("2025-10"), minutes: 20 },
    ];
    let months = vec![String::from("2025-10"), String::from("2025-09"), String::from("2025-08"), String::from("2025-07")];
    let report = activity_months(&activity, 1, &months);
    let values: Vec<u32> = report.iter().map(|m| m.value).collect();
    assert_eq!(values, vec![120, 50, 0, 0]);
    assert!(currency_violation(&report));
    let enough = vec![ActivityMonth::from(60), ActivityMonth::from(60), ActivityMonth::from(60), ActivityMonth::from(0)];
    assert!(!currency_violation(&enough));
    assert_eq!(ActivityMonth::from(7).position, None);
}
