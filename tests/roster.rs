use vzdv::certs::{CertValue, Certification, OffRosterCertPolicy};
use vzdv::initials::{generate_operating_initials_for, InitialsError};
use vzdv::roles::{Role, RoleSet};
use vzdv::roster::{
    on_roster_cids, partial_update_roster, recognized_roles, sync_request_cid, update_controller_record,
    update_roster, Controller, MemberError, MembershipType, RosterMember, RosterMemberRole,
    RosterSettings, IPC,
};

fn role(facility: &str, code: &str) -> RosterMemberRole {
    RosterMemberRole {
        id: 1,
        cid: 0,
        facility: facility.to_string(),
        role: code.to_string(),
        created_at: String::from("2024-01-01T00:00:00Z"),
    }
}

fn member(cid: u32, first: &str, last: &str, rating: i8, roles: Vec<RosterMemberRole>) -> RosterMember {
    RosterMember {
        cid,
        first_name: first.to_string(),
        last_name: last.to_string(),
        email: None,
        facility: String::from("ZDV"),
        rating,
        facility_join: String::from("2023-05-01T12:00:00+00:00"),
        roles,
        visiting_facilities: None,
    }
}

fn controller(cid: u32, ois: Option<&str>, on_roster: bool, roles: RoleSet) -> Controller {
    Controller {
        cid,
        first_name: String::from("Jane"),
        last_name: String::from("Doe"),
        email: None,
        operating_initials: ois.map(|s| s.to_string()),
        rating: 5,
        home_facility: String::from("ZDV"),
        is_on_roster: on_roster,
        roles,
        join_date: Some(1_600_000_000),
        loa_until: None,
    }
}

fn cert(id: u32, cid: u32, name: &str, value: CertValue) -> Certification {
    Certification { id, cid, name: name.to_string(), value, changed_on: 1_700_000_000, set_by: 42 }
}

fn settings(policy: OffRosterCertPolicy) -> RosterSettings {
    RosterSettings { facility: String::from("ZDV"), cert_policy: policy }
}

fn only(r: Role) -> RoleSet {
    let mut s = RoleSet::empty();
    s.insert(r);
    s
}

#[test]
fn scenario_controller_dropped_from_roster() {
    let mut controllers = vec![controller(100001, Some("JD"), true, only(Role::Mtr))];
    let mut certs = vec![cert(1, 100001, "GND", CertValue::Certified)];
    let roster = vec![member(100002, "Ann", "Bee", 3, vec![])];
    let report = update_roster(&mut controllers, &mut certs, &roster, &settings(OffRosterCertPolicy::StripWhenNoneHeld));
    assert!(report.failures.is_empty());
    let c = controllers.iter().find(|c| c.cid == 100001).unwrap();
    assert!(!c.is_on_roster);
    assert_eq!(c.home_facility, "");
    assert_eq!(c.operating_initials, None);
    assert_eq!(c.join_date, None);
    assert_eq!(c.roles, only(Role::Mtr));
    // the long-standing policy deletes only when none are held
    assert_eq!(certs.len(), 1);
}

#[test]
fn off_roster_strips_certs_under_any_held_policy() {
    let mut controllers = vec![
        controller(100001, Some("JD"), true, RoleSet::empty()),
        controller(100003, Some("KL"), true, RoleSet::empty()),
    ];
    let mut certs = vec![
        cert(1, 100001, "GND", CertValue::Certified),
        cert(2, 100003, "TWR", CertValue::Training),
        cert(3, 100001, "APP", CertValue::Solo),
    ];
    let roster = vec![member(100003, "Kim", "Lee", 4, vec![])];
    update_roster(&mut controllers, &mut certs, &roster, &settings(OffRosterCertPolicy::StripWhenAnyHeld));
    assert_eq!(certs.len(), 1);
    assert_eq!(certs[0].cid, 100003);
}

#[test]
fn off_roster_set_is_local_minus_external() {
    let mut controllers = vec![
        controller(1, Some("AA"), true, RoleSet::empty()),
        controller(2, Some("BB"), true, RoleSet::empty()),
        controller(3, Some("CC"), true, RoleSet::empty()),
    ];
    let mut certs = vec![];
    let roster = vec![member(2, "Bo", "Bo", 3, vec![]), member(4, "Di", "Do", 3, vec![])];
    update_roster(&mut controllers, &mut certs, &roster, &settings(OffRosterCertPolicy::StripWhenAnyHeld));
    let mut off: Vec<u32> = controllers.iter().filter(|c| !c.is_on_roster).map(|c| c.cid).collect();
    off.sort();
    assert_eq!(off, vec![1, 3]);
    assert_eq!(controllers.len(), 4);
}

#[test]
fn full_sync_twice_gives_same_rows() {
    let mut controllers = vec![
        controller(1, Some("AA"), true, only(Role::Ec)),
        controller(5, None, false, RoleSet::empty()),
    ];
    let mut certs = vec![cert(1, 1, "GND", CertValue::Certified)];
    let roster = vec![
        member(5, "Eve", "Fox", 3, vec![role("ZDV", "TA")]),
        member(6, "Gus", "Hale", 9, vec![]),
    ];
    let s = settings(OffRosterCertPolicy::StripWhenAnyHeld);
    update_roster(&mut controllers, &mut certs, &roster, &s);
    let first = format!("{:?}", controllers);
    update_roster(&mut controllers, &mut certs, &roster, &s);
    assert_eq!(format!("{:?}", controllers), first);
}

#[test]
fn sync_keeps_roles_not_reported() {
    let mut controllers = vec![controller(7, Some("JD"), true, only(Role::Wm))];
    let m = member(7, "Jane", "Doe", 5, vec![]);
    update_controller_record(&mut controllers, &m, "ZDV").unwrap();
    assert!(controllers[0].roles.contains(Role::Wm));
    assert_eq!(controllers[0].operating_initials, Some(String::from("JD")));
}

#[test]
fn recognized_roles_take_senior_roles_and_instructors() {
    let m = member(8, "Ian", "Jo", 8, vec![role("ZDV", "ATM"), role("ZDV", "EC"), role("ZAB", "TA"), role("ZDV", "MTR")]);
    let r = recognized_roles(&m, "ZDV");
    assert!(r.contains(Role::Atm));
    assert!(r.contains(Role::Mtr));
    assert!(r.contains(Role::Ins));
    assert!(!r.contains(Role::Ec));
    assert!(!r.contains(Role::Ta));
    let mut visitor = member(9, "Val", "Wu", 8, vec![]);
    visitor.facility = String::from("ZAB");
    assert!(!recognized_roles(&visitor, "ZDV").contains(Role::Ins));
}

#[test]
fn new_member_gets_initials() {
    let mut controllers = vec![controller(1, Some("AB"), true, RoleSet::empty())];
    let m = member(2, "alice", "Brown", 3, vec![]);
    update_controller_record(&mut controllers, &m, "ZDV").unwrap();
    assert_eq!(controllers[1].operating_initials, Some(String::from("AA")));
    assert!(controllers[1].is_on_roster);
    assert_eq!(controllers[1].join_date, Some(1682942400));
}

#[test]
fn bad_join_date_changes_nothing() {
    let mut controllers = vec![controller(1, Some("AB"), true, RoleSet::empty())];
    let mut m = member(2, "Al", "Bo", 3, vec![]);
    m.facility_join = String::from("yesterday");
    assert_eq!(update_controller_record(&mut controllers, &m, "ZDV"), Err(MemberError::BadJoinDate));
    assert_eq!(controllers.len(), 1);
}

#[test]
fn initials_prefer_name_then_alphabet() {
    let used = vec![String::from("JD"), String::from("AA")];
    assert_eq!(generate_operating_initials_for(&used, "John", "smith").unwrap(), "JS");
    assert_eq!(generate_operating_initials_for(&used, "John", "Doe").unwrap(), "AB");
    assert_eq!(generate_operating_initials_for(&used, "", "Doe").unwrap(), "AB");
    let mut all = Vec::new();
    for a in b'A'..=b'Z' {
        for b in b'A'..=b'Z' {
            all.push(format!("{}{}", a as char, b as char));
        }
    }
    assert_eq!(generate_operating_initials_for(&all, "Ann", "Bee"), Err(InitialsError::Exhausted));
}

#[test]
fn partial_sync_drains_refresh_requests() {
    let mut controllers = vec![controller(1, Some("AB"), false, RoleSet::empty())];
    let mut requests = vec![
        IPC { uuid: String::from("a"), action: String::from("VATUSA_SYNC"), data: String::from("1") },
        IPC { uuid: String::from("b"), action: String::from("OTHER"), data: String::from("x") },
        IPC { uuid: String::from("c"), action: String::from("VATUSA_SYNC"), data: String::from("nope") },
    ];
    assert_eq!(sync_request_cid(&requests[0]), Some(1));
    assert_eq!(sync_request_cid(&requests[1]), None);
    assert_eq!(sync_request_cid(&requests[2]), None);
    let fetched = vec![member(1, "Ann", "Bee", 4, vec![])];
    let failures = partial_update_roster(&mut controllers, &mut requests, &fetched, "ZDV");
    assert!(failures.is_empty());
    assert_eq!(requests.len(), 1);
    assert_eq!(requests[0].uuid, "b");
    assert!(controllers[0].is_on_roster);
    assert_eq!(controllers[0].rating, 4);
}

#[test]
fn role_codes_round_trip() {
    let codes = vec![String::from("MTR"), String::from("XYZ"), String::from("ATM")];
    let set = RoleSet::from_codes(&codes);
    assert_eq!(set.codes(), vec![String::from("ATM"), String::from("MTR")]);
    assert_eq!(Role::from_code("DATM"), Some(Role::Datm));
    assert_eq!(MembershipType::Both.query_word(), "both");
}

#[test]
fn on_roster_cids_in_row_order() {
    let controllers = vec![
        controller(3, None, true, RoleSet::empty()),
        controller(1, None, false, RoleSet::empty()),
        controller(2, None, true, RoleSet::empty()),
    ];
    assert_eq!(on_roster_cids(&controllers), vec![3, 2]);
}
