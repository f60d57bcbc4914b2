use chrono::{Duration, Months, Utc};
use vzdv::certs::{CertValue, Certification};
use vzdv::no_show_expiration::{self, NoShow};
use vzdv::solo_cert::{self, SoloCert};

fn solo(id: u32, cid: u32, position: &str, expires: i64) -> SoloCert {
    SoloCert {
        id,
        cid,
        issued_by: 9,
        position: position.to_string(),
        reported: false,
        created_date: expires - 86_400,
        expiration_date: expires,
    }
}

fn no_show(id: u32, created: i64) -> NoShow {
    NoShow {
        id,
        cid: 5,
        reported_by: 9,
        entry_type: String::from("training"),
        created_date: created,
        notified: false,
        notes: None,
    }
}

#[test]
fn expired_solo_cert_reverts_certification() {
    let now = 1_700_000_000;
    let mut solos = vec![solo(1, 10, "DEN_APP", now - 10), solo(2, 11, "DEN_TWR", now + 10)];
    let mut certs = vec![
        Certification { id: 1, cid: 10, name: String::from("DEN_APP"), value: CertValue::Solo, changed_on: 123, set_by: 77 },
        Certification { id: 2, cid: 10, name: String::from("DEN_TWR"), value: CertValue::Solo, changed_on: 5, set_by: 6 },
        Certification { id: 3, cid: 11, name: String::from("DEN_TWR"), value: CertValue::Solo, changed_on: 5, set_by: 6 },
    ];
    solo_cert::check_expired(&mut solos, &mut certs, now);
    assert_eq!(solos.len(), 1);
    assert_eq!(solos[0].id, 2);
    assert_eq!(certs[0].value, CertValue::Training);
    assert_eq!(certs[0].changed_on, 123);
    assert_eq!(certs[0].set_by, 77);
    assert_eq!(certs[1].value, CertValue::Solo);
    assert_eq!(certs[2].value, CertValue::Solo);
}

#[test]
fn no_show_pruned_after_six_months() {
    let now = Utc::now();
    let old = now.checked_sub_months(Months::new(6)).unwrap() - Duration::days(1);
    let recent = now.checked_sub_months(Months::new(5)).unwrap() - Duration::days(29);
    let mut entries = vec![no_show(1, old.timestamp()), no_show(2, recent.timestamp())];
    let undated = no_show_expiration::check_expired(&mut entries, now.timestamp());
    assert!(undated.is_empty());
    assert_eq!(entries.len(), 1);
    assert_eq!(entries[0].id, 2);
}

#[test]
fn undated_no_show_is_kept_and_reported() {
    let mut entries = vec![no_show(3, i64::MAX)];
    let undated = no_show_expiration::check_expired(&mut entries, 0);
    assert_eq!(undated, vec![3]);
    assert_eq!(entries.len(), 1);
}
