//! Roster reconciliation: merging the external registry's members into the
//! local controller table, and clearing those who left it.

use vstd::prelude::*;
use crate::certs::{
    cert_rows, delete_certifications_for, has_certifications, holds_certs, strips, Certification,
    CertificationView, OffRosterCertPolicy,
};
use crate::initials::{allocation, generate_operating_initials_for, texts};
use crate::roles::{role_of_code, Role, RoleSet};
use crate::text::{parse_unsigned, same_text, unsigned_value};
use crate::time::{parse_rfc3339_seconds, rfc3339_seconds};

verus! {

/// Which members of a facility a roster query returns.
#[derive(Clone, Copy, PartialEq, Eq, Structural, Debug)]
pub enum MembershipType {
    Home,
    Visit,
    Both,
}

impl MembershipType {
    /// The word that names the membership in a roster query.
    pub fn query_word(&self) -> (r: String)
        ensures
            r@ == match *self {
                MembershipType::Home => "home"@,
                MembershipType::Visit => "visit"@,
                MembershipType::Both => "both"@,
            },
    {
        match self {
            MembershipType::Home => String::from_str("home"),
            MembershipType::Visit => String::from_str("visit"),
            MembershipType::Both => String::from_str("both"),
        }
    }
}

/// A role that the registry reports for a member.
#[derive(Debug)]
pub struct RosterMemberRole {
    pub id: u32,
    pub cid: u32,
    pub facility: String,
    pub role: String,
    pub created_at: String,
}

/// A facility that a member visits.
#[derive(Debug)]
pub struct RosterMemberVisiting {
    pub id: u32,
    pub cid: u32,
    pub facility: String,
    pub created_at: String,
    pub updated_at: String,
}

/// A solo certification as the registry reports it.
#[derive(Debug)]
pub struct SoloCertification {
    pub id: u32,
    pub cid: u32,
    pub position: String,
    pub expires: String,
    pub created_at: String,
    pub updated_at: String,
}

/// A member as the registry reports it.
#[derive(Debug)]
pub struct RosterMember {
    pub cid: u32,
    pub first_name: String,
    pub last_name: String,
    pub email: Option<String>,
    pub facility: String,
    pub rating: i8,
    pub facility_join: String,
    pub roles: Vec<RosterMemberRole>,
    pub visiting_facilities: Option<Vec<RosterMemberVisiting>>,
}

/// A controller row of the local store.
#[derive(Debug)]
pub struct Controller {
    pub cid: u32,
    pub first_name: String,
    pub last_name: String,
    pub email: Option<String>,
    pub operating_initials: Option<String>,
    pub rating: i8,
    pub home_facility: String,
    pub is_on_roster: bool,
    pub roles: RoleSet,
    pub join_date: Option<i64>,
    pub loa_until: Option<i64>,
}

/// A controller row as a value.
pub struct ControllerView {
    pub cid: u32,
    pub first_name: Seq<char>,
    pub last_name: Seq<char>,
    pub email: Option<Seq<char>>,
    pub operating_initials: Option<Seq<char>>,
    pub rating: i8,
    pub home_facility: Seq<char>,
    pub is_on_roster: bool,
    pub roles: RoleSet,
    pub join_date: Option<i64>,
    pub loa_until: Option<i64>,
}

/// The text of an optional string.
pub open spec fn opt_text(o: Option<String>) -> Option<Seq<char>> {
    match o {
        Some(s) => Some(s@),
        None => None,
    }
}

impl View for Controller {
    type V = ControllerView;

    open spec fn view(&self) -> ControllerView {
        ControllerView {
            cid: self.cid,
            first_name: self.first_name@,
            last_name: self.last_name@,
            email: opt_text(self.email),
            operating_initials: opt_text(self.operating_initials),
            rating: self.rating,
            home_facility: self.home_facility@,
            is_on_roster: self.is_on_roster,
            roles: self.roles,
            join_date: self.join_date,
            loa_until: self.loa_until,
        }
    }
}

/// The rows of a controller table, as values.
pub open spec fn rows(v: Seq<Controller>) -> Seq<ControllerView> {
    v.map_values(|c: Controller| c@)
}

/// Whether the table holds a row for `cid`.
pub open spec fn has_cid(cs: Seq<ControllerView>, cid: u32) -> bool {
    exists|i: int| 0 <= i < cs.len() && cs[i].cid == cid
}

/// Whether the row for `cid` is marked as on the roster.
pub open spec fn on_roster(cs: Seq<ControllerView>, cid: u32) -> bool {
    exists|i: int| 0 <= i < cs.len() && cs[i].cid == cid && cs[i].is_on_roster
}

/// No two rows share a cid.
pub open spec fn unique_cids(cs: Seq<ControllerView>) -> bool {
    forall|i: int, j: int|
        0 <= i < cs.len() && 0 <= j < cs.len() && #[trigger] cs[i].cid == #[trigger] cs[j].cid
            ==> i == j
}

/// Whether the member is reported with role `r` at facility `fac`.
pub open spec fn reported(m: RosterMember, fac: Seq<char>, r: Role) -> bool {
    exists|i: int|
        0 <= i < m.roles@.len() && (#[trigger] m.roles@[i]).facility@ == fac && role_of_code(
            m.roles@[i].role@,
        ) == Some(r)
}

/// The roles that synchronization takes from the registry: the senior and
/// training roles reported at the facility, and the instructor role of
/// the facility's own members with an instructor rating.
pub open spec fn synced_role(r: Role) -> bool {
    r == Role::Atm || r == Role::Datm || r == Role::Ta || r == Role::Mtr
}

/// Whether a network rating is in the instructor band.
pub open spec fn instructor_rating(rating: i8) -> bool {
    8 <= rating <= 10
}

/// The roles that the registry gives a member at facility `fac`.
pub open spec fn recognized(m: RosterMember, fac: Seq<char>) -> RoleSet {
    RoleSet {
        atm: reported(m, fac, Role::Atm),
        datm: reported(m, fac, Role::Datm),
        ta: reported(m, fac, Role::Ta),
        ec: false,
        fe: false,
        wm: false,
        aec: false,
        afe: false,
        awm: false,
        mtr: reported(m, fac, Role::Mtr),
        ins: m.facility@ == fac && instructor_rating(m.rating),
    }
}

/// An existing row brought up to date from the member: identity, rating,
/// home facility, join date and the roster flag are taken over, roles are
/// merged by union, and the rest is kept.
pub open spec fn refreshed(c: ControllerView, m: RosterMember, fac: Seq<char>, join: i64) -> ControllerView {
    ControllerView {
        cid: m.cid,
        first_name: m.first_name@,
        last_name: m.last_name@,
        email: opt_text(m.email),
        operating_initials: c.operating_initials,
        rating: m.rating,
        home_facility: m.facility@,
        is_on_roster: true,
        roles: c.roles.spec_union(recognized(m, fac)),
        join_date: Some(join),
        loa_until: c.loa_until,
    }
}

/// The row of a member seen for the first time.
pub open spec fn new_row(m: RosterMember, fac: Seq<char>, join: i64) -> ControllerView {
    ControllerView {
        cid: m.cid,
        first_name: m.first_name@,
        last_name: m.last_name@,
        email: opt_text(m.email),
        operating_initials: None,
        rating: m.rating,
        home_facility: m.facility@,
        is_on_roster: true,
        roles: recognized(m, fac),
        join_date: Some(join),
        loa_until: None,
    }
}

/// The table with the member's row inserted or refreshed.
pub open spec fn upsert_rows(cs: Seq<ControllerView>, m: RosterMember, fac: Seq<char>, join: i64) -> Seq<
    ControllerView,
> {
    if has_cid(cs, m.cid) {
        cs.map_values(
            |c: ControllerView|
                if c.cid == m.cid {
                    refreshed(c, m, fac, join)
                } else {
                    c
                },
        )
    } else {
        cs.push(new_row(m, fac, join))
    }
}

/// The operating initials held in the table, in row order.
pub open spec fn initials_used(cs: Seq<ControllerView>) -> Seq<Seq<char>>
    decreases cs.len(),
{
    if cs.len() == 0 {
        Seq::empty()
    } else {
        initials_used(cs.drop_last()) + match cs.last().operating_initials {
            Some(x) => seq![x],
            None => Seq::empty(),
        }
    }
}

/// The table with the row of `cid` given the initials `oi`.
pub open spec fn with_initials(cs: Seq<ControllerView>, cid: u32, oi: Seq<char>) -> Seq<
    ControllerView,
> {
    cs.map_values(
        |c: ControllerView|
            if c.cid == cid {
                ControllerView { operating_initials: Some(oi), ..c }
            } else {
                c
            },
    )
}

/// Why one member could not be brought in.
#[derive(Clone, Copy, PartialEq, Eq, Structural, Debug)]
pub enum MemberError {
    /// The facility join date is not an RFC 3339 text.
    BadJoinDate,
    /// The member needed initials and none were free.
    NoInitials,
}

/// The table after one member is brought in. A member who is new or was
/// off the roster is also given fresh operating initials.
pub open spec fn synced_rows(cs: Seq<ControllerView>, m: RosterMember, fac: Seq<char>) -> Seq<
    ControllerView,
> {
    match rfc3339_seconds(m.facility_join@) {
        None => cs,
        Some(join) => {
            let cs1 = upsert_rows(cs, m, fac, join);
            if on_roster(cs, m.cid) {
                cs1
            } else {
                match allocation(initials_used(cs1), m.first_name@, m.last_name@) {
                    Some(oi) => with_initials(cs1, m.cid, oi),
                    None => cs1,
                }
            }
        },
    }
}

/// What bringing in one member reports.
pub open spec fn sync_outcome(cs: Seq<ControllerView>, m: RosterMember, fac: Seq<char>) -> Result<
    (),
    MemberError,
> {
    match rfc3339_seconds(m.facility_join@) {
        None => Err(MemberError::BadJoinDate),
        Some(join) => {
            if on_roster(cs, m.cid) {
                Ok(())
            } else {
                match allocation(
                    initials_used(upsert_rows(cs, m, fac, join)),
                    m.first_name@,
                    m.last_name@,
                ) {
                    Some(_) => Ok(()),
                    None => Err(MemberError::NoInitials),
                }
            }
        },
    }
}

/// A copy of an optional string.
fn copy_opt(o: &Option<String>) -> (r: Option<String>)
    ensures
        opt_text(r) == opt_text(*o),
{
    match o {
        Some(s) => Some(s.clone()),
        None => None,
    }
}

/// The roles that the registry gives `member` at facility `facility`.
pub fn recognized_roles(member: &RosterMember, facility: &str) -> (r: RoleSet)
    ensures
        r == recognized(*member, facility@),
{
    let mut r = RoleSet::empty();
    let mut i: usize = 0;
    while i < member.roles.len()
        invariant
            i <= member.roles@.len(),
            forall|x: Role|
                #[trigger] r.has(x) <==> (synced_role(x) && exists|j: int|
                    0 <= j < i && (#[trigger] member.roles@[j]).facility@ == facility@
                        && role_of_code(member.roles@[j].role@) == Some(x)),
        decreases member.roles@.len() - i,
    {
        let ghost prev = r;
        let entry = &member.roles[i];
        let mut found: Option<Role> = None;
        if same_text(entry.facility.as_str(), facility) {
            match Role::from_code(entry.role.as_str()) {
                Some(x) => {
                    if x == Role::Atm || x == Role::Datm || x == Role::Ta || x == Role::Mtr {
                        found = Some(x);
                    }
                },
                None => {},
            }
        }
        match found {
            Some(x) => r.insert(x),
            None => {},
        }
        proof {
            assert forall|x: Role|
                #[trigger] r.has(x) <==> (synced_role(x) && exists|j: int|
                    0 <= j < i + 1 && (#[trigger] member.roles@[j]).facility@ == facility@
                        && role_of_code(member.roles@[j].role@) == Some(x)) by {
                if exists|j: int|
                    0 <= j < i + 1 && (#[trigger] member.roles@[j]).facility@ == facility@
                        && role_of_code(member.roles@[j].role@) == Some(x) {
                    let j = choose|j: int|
                        0 <= j < i + 1 && (#[trigger] member.roles@[j]).facility@ == facility@
                            && role_of_code(member.roles@[j].role@) == Some(x);
                    if j < i {
                        assert(synced_role(x) ==> prev.has(x));
                    }
                }
                if prev.has(x) {
                    let j = choose|j: int|
                        0 <= j < i && (#[trigger] member.roles@[j]).facility@ == facility@
                            && role_of_code(member.roles@[j].role@) == Some(x);
                    assert(0 <= j < i + 1);
                }
            }
        }
        i = i + 1;
    }
    proof {
        assert(r.has(Role::Atm) == reported(*member, facility@, Role::Atm));
        assert(r.has(Role::Datm) == reported(*member, facility@, Role::Datm));
        assert(r.has(Role::Ta) == reported(*member, facility@, Role::Ta));
        assert(r.has(Role::Mtr) == reported(*member, facility@, Role::Mtr));
        assert(!r.has(Role::Ec) && !r.has(Role::Fe) && !r.has(Role::Wm));
        assert(!r.has(Role::Aec) && !r.has(Role::Afe) && !r.has(Role::Awm));
        assert(!r.has(Role::Ins));
    }
    if same_text(member.facility.as_str(), facility) && 8 <= member.rating && member.rating <= 10 {
        r.insert(Role::Ins);
    }
    assert(r == recognized(*member, facility@));
    r
}

/// The index of the row for `cid`, if the table holds one.
pub fn find_controller(controllers: &Vec<Controller>, cid: u32) -> (r: Option<usize>)
    ensures
        match r {
            Some(i) => i < controllers@.len() && controllers@[i as int].cid == cid,
            None => !has_cid(rows(controllers@), cid),
        },
{
    let mut i: usize = 0;
    while i < controllers.len()
        invariant
            i <= controllers@.len(),
            forall|k: int| 0 <= k < i ==> (#[trigger] controllers@[k]).cid != cid,
        decreases controllers@.len() - i,
    {
        if controllers[i].cid == cid {
            return Some(i);
        }
        i = i + 1;
    }
    proof {
        if has_cid(rows(controllers@), cid) {
            let k = choose|k: int| 0 <= k < rows(controllers@).len() && rows(controllers@)[k].cid == cid;
            assert(controllers@[k].cid == cid);
        }
    }
    None
}

/// The operating initials held in the table, in row order.
pub fn retrieve_all_in_use_ois(controllers: &Vec<Controller>) -> (r: Vec<String>)
    ensures
        texts(r@) == initials_used(rows(controllers@)),
{
    let ghost cs = rows(controllers@);
    let mut r: Vec<String> = Vec::new();
    let mut i: usize = 0;
    while i < controllers.len()
        invariant
            i <= controllers@.len(),
            cs == rows(controllers@),
            texts(r@) == initials_used(cs.subrange(0, i as int)),
        decreases controllers@.len() - i,
    {
        let ghost prev = r@;
        assert(cs.subrange(0, i + 1).drop_last() =~= cs.subrange(0, i as int));
        assert(cs.subrange(0, i + 1).last() == controllers@[i as int]@);
        match &controllers[i].operating_initials {
            Some(s) => {
                r.push(s.clone());
                assert(texts(r@) =~= texts(prev) + seq![s@]);
            },
            None => {
                assert(texts(r@) =~= texts(prev) + Seq::<Seq<char>>::empty());
            },
        }
        i = i + 1;
    }
    assert(cs.subrange(0, controllers@.len() as int) =~= cs);
    r
}

/// The row of `c` brought up to date from the member.
fn refresh_row(c: &Controller, member: &RosterMember, recognized_set: &RoleSet, join: i64) -> (r: Controller)
    ensures
        forall|fac: Seq<char>| *recognized_set == recognized(*member, fac) ==>
            r@ == refreshed(c@, *member, fac, join),
{
    Controller {
        cid: member.cid,
        first_name: member.first_name.clone(),
        last_name: member.last_name.clone(),
        email: copy_opt(&member.email),
        operating_initials: copy_opt(&c.operating_initials),
        rating: member.rating,
        home_facility: member.facility.clone(),
        is_on_roster: true,
        roles: c.roles.union(recognized_set),
        join_date: Some(join),
        loa_until: c.loa_until,
    }
}

/// The row of a member seen for the first time.
fn new_controller(member: &RosterMember, recognized_set: &RoleSet, join: i64) -> (r: Controller)
    ensures
        forall|fac: Seq<char>| *recognized_set == recognized(*member, fac) ==>
            r@ == new_row(*member, fac, join),
{
    Controller {
        cid: member.cid,
        first_name: member.first_name.clone(),
        last_name: member.last_name.clone(),
        email: copy_opt(&member.email),
        operating_initials: None,
        rating: member.rating,
        home_facility: member.facility.clone(),
        is_on_roster: true,
        roles: *recognized_set,
        join_date: Some(join),
        loa_until: None,
    }
}

/// A copy of the row with other operating initials.
fn row_with_initials(c: &Controller, oi: Option<String>) -> (r: Controller)
    ensures
        r@ == (ControllerView { operating_initials: opt_text(oi), ..c@ }),
{
    Controller {
        cid: c.cid,
        first_name: c.first_name.clone(),
        last_name: c.last_name.clone(),
        email: copy_opt(&c.email),
        operating_initials: oi,
        rating: c.rating,
        home_facility: c.home_facility.clone(),
        is_on_roster: c.is_on_roster,
        roles: c.roles,
        join_date: c.join_date,
        loa_until: c.loa_until,
    }
}

/// Bring one member of the registry into the controller table.
///
/// The member's identity, rating, home facility and join date are taken
/// over and the row is marked as on the roster; the registry's roles are
/// merged into the held ones by union, so none is ever removed. A member
/// who is new, or who was off the roster, is also given fresh operating
/// initials. Where the join date does not parse nothing changes.
pub fn update_controller_record(
    controllers: &mut Vec<Controller>,
    member: &RosterMember,
    facility: &str,
) -> (r: Result<(), MemberError>)
    requires
        unique_cids(rows(old(controllers)@)),
    ensures
        rows(final(controllers)@) == synced_rows(rows(old(controllers)@), *member, facility@),
        unique_cids(rows(final(controllers)@)),
        r == sync_outcome(rows(old(controllers)@), *member, facility@),
{
    let ghost cs0 = rows(controllers@);
    let join = match parse_rfc3339_seconds(member.facility_join.as_str()) {
        Some(j) => j,
        None => {
            return Err(MemberError::BadJoinDate);
        },
    };
    let recognized_set = recognized_roles(member, facility);
    let ghost cs1 = upsert_rows(cs0, *member, facility@, join);
    let found = find_controller(controllers, member.cid);
    let fresh: bool;
    match found {
        Some(i) => {
            let was_on = controllers[i].is_on_roster;
            let row = refresh_row(&controllers[i], member, &recognized_set, join);
            controllers.set(i, row);
            proof {
                assert(has_cid(cs0, member.cid)) by {
                    assert(cs0[i as int].cid == member.cid);
                }
                assert(cs1.len() == cs0.len());
                assert forall|x: int| 0 <= x < cs0.len() implies rows(controllers@)[x] == cs1[x] by {
                    if x != i {
                        if cs0[x].cid == member.cid {
                            assert(cs0[i as int].cid == cs0[x].cid);
                        }
                    }
                }
                assert(rows(controllers@) =~= cs1);
                assert(on_roster(cs0, member.cid) == was_on) by {
                    if on_roster(cs0, member.cid) {
                        let k = choose|k: int| 0 <= k < cs0.len() && cs0[k].cid == member.cid && cs0[k].is_on_roster;
                        assert(cs0[k].cid == cs0[i as int].cid);
                    }
                    assert(cs0[i as int].cid == member.cid);
                }
            }
            fresh = !was_on;
        },
        None => {
            controllers.push(new_controller(member, &recognized_set, join));
            proof {
                assert(rows(controllers@) =~= cs1);
                assert(!on_roster(cs0, member.cid));
            }
            fresh = true;
        },
    }
    assert(unique_cids(rows(controllers@))) by {
        assert forall|a: int, b: int|
            0 <= a < cs1.len() && 0 <= b < cs1.len() && #[trigger] cs1[a].cid == #[trigger] cs1[b].cid
            implies a == b by {
            if a < cs0.len() && b < cs0.len() {
                assert(cs0[a].cid == cs1[a].cid);
                assert(cs0[b].cid == cs1[b].cid);
            } else if a < cs0.len() {
                assert(cs0[a].cid == cs1[a].cid);
            } else if b < cs0.len() {
                assert(cs0[b].cid == cs1[b].cid);
            }
        }
    }
    if fresh {
        let in_use = retrieve_all_in_use_ois(controllers);
        match generate_operating_initials_for(
            &in_use,
            member.first_name.as_str(),
            member.last_name.as_str(),
        ) {
            Ok(oi) => {
                let k = find_controller(controllers, member.cid);
                match k {
                    Some(j) => {
                        let ghost before = controllers@;
                        let row = row_with_initials(&controllers[j], Some(oi));
                        controllers.set(j, row);
                        proof {
                            assert(rows(before) == cs1);
                            assert forall|x: int| 0 <= x < cs1.len() implies rows(controllers@)[x]
                                == with_initials(cs1, member.cid, oi@)[x] by {
                                if x != j {
                                    if cs1[x].cid == member.cid {
                                        assert(cs1[j as int].cid == cs1[x].cid);
                                    }
                                }
                            }
                            assert(rows(controllers@) =~= with_initials(cs1, member.cid, oi@));
                            let cs2 = rows(controllers@);
                            assert forall|a: int, b: int|
                                0 <= a < cs2.len() && 0 <= b < cs2.len() && #[trigger] cs2[a].cid == #[trigger] cs2[b].cid
                                implies a == b by {
                                assert(cs1[a].cid == cs2[a].cid);
                                assert(cs1[b].cid == cs2[b].cid);
                            }
                        }
                    },
                    None => {
                        proof {
                            let w = if has_cid(cs0, member.cid) {
                                choose|w: int| 0 <= w < cs0.len() && cs0[w].cid == member.cid
                            } else {
                                cs0.len() as int
                            };
                            assert(cs1[w].cid == member.cid);
                        }
                    },
                }
            },
            Err(_) => {
                return Err(MemberError::NoInitials);
            },
        }
    }
    Ok(())
}

/// The table after the members are brought in, in order.
pub open spec fn synced_all(cs: Seq<ControllerView>, ms: Seq<RosterMember>, fac: Seq<char>) -> Seq<
    ControllerView,
>
    decreases ms.len(),
{
    if ms.len() == 0 {
        cs
    } else {
        synced_rows(synced_all(cs, ms.drop_last(), fac), ms.last(), fac)
    }
}

/// The members that could not be brought in, with the reason, in order.
pub open spec fn member_failures(cs: Seq<ControllerView>, ms: Seq<RosterMember>, fac: Seq<char>) -> Seq<
    (u32, MemberError),
>
    decreases ms.len(),
{
    if ms.len() == 0 {
        Seq::empty()
    } else {
        member_failures(cs, ms.drop_last(), fac) + match sync_outcome(
            synced_all(cs, ms.drop_last(), fac),
            ms.last(),
            fac,
        ) {
            Ok(_) => Seq::empty(),
            Err(e) => seq![(ms.last().cid, e)],
        }
    }
}

/// Whether the registry's roster lists `cid`.
pub open spec fn on_external_roster(ms: Seq<RosterMember>, cid: u32) -> bool {
    exists|i: int| 0 <= i < ms.len() && ms[i].cid == cid
}

/// A row of a controller who left the roster: home facility, join date and
/// operating initials are cleared and the roster flag is lowered; roles and
/// the rest are kept.
pub open spec fn cleared(c: ControllerView) -> ControllerView {
    ControllerView {
        home_facility: Seq::empty(),
        join_date: None,
        operating_initials: None,
        is_on_roster: false,
        ..c
    }
}

/// The table with every row that the roster does not list cleared.
pub open spec fn mark_departed(cs: Seq<ControllerView>, ms: Seq<RosterMember>) -> Seq<ControllerView> {
    cs.map_values(
        |c: ControllerView|
            if on_external_roster(ms, c.cid) {
                c
            } else {
                cleared(c)
            },
    )
}

/// Whether the certifications of `cid` go with the departure: the
/// controller has a row, is not on the roster, and the policy strips.
pub open spec fn departs_with_certs(
    cs: Seq<ControllerView>,
    ms: Seq<RosterMember>,
    policy: OffRosterCertPolicy,
    certs: Seq<CertificationView>,
    cid: u32,
) -> bool {
    has_cid(cs, cid) && !on_external_roster(ms, cid) && strips(policy, holds_certs(certs, cid))
}

/// The certification rows that remain after the departures.
pub open spec fn kept_certs(
    cs: Seq<ControllerView>,
    ms: Seq<RosterMember>,
    policy: OffRosterCertPolicy,
    certs: Seq<CertificationView>,
) -> Seq<CertificationView> {
    certs.filter(|c: CertificationView| !departs_with_certs(cs, ms, policy, certs, c.cid))
}

/// What a full roster synchronization needs to know of the facility.
pub struct RosterSettings {
    /// The facility's code in the registry.
    pub facility: String,
    /// What happens to the certifications of controllers who leave.
    pub cert_policy: OffRosterCertPolicy,
}

/// What a full roster synchronization reports.
pub struct RosterSyncReport {
    /// The members that could not be brought in, with the reason.
    pub failures: Vec<(u32, MemberError)>,
}

/// Whether the roster lists `cid`.
pub fn roster_lists(roster: &Vec<RosterMember>, cid: u32) -> (r: bool)
    ensures
        r == on_external_roster(roster@, cid),
{
    let mut i: usize = 0;
    while i < roster.len()
        invariant
            i <= roster@.len(),
            forall|k: int| 0 <= k < i ==> (#[trigger] roster@[k]).cid != cid,
        decreases roster@.len() - i,
    {
        if roster[i].cid == cid {
            return true;
        }
        i = i + 1;
    }
    false
}

/// The row of a controller who left the roster.
fn cleared_row(c: &Controller) -> (r: Controller)
    ensures
        r@ == cleared(c@),
{
    Controller {
        cid: c.cid,
        first_name: c.first_name.clone(),
        last_name: c.last_name.clone(),
        email: copy_opt(&c.email),
        operating_initials: None,
        rating: c.rating,
        home_facility: String::new(),
        is_on_roster: false,
        roles: c.roles,
        join_date: None,
        loa_until: c.loa_until,
    }
}

/// Update the stored roster from a full copy of the registry's roster.
///
/// Every member is brought in on its own, and one that fails does not stop
/// the rest. Then every controller that the roster does not list is
/// cleared, and the certifications of those are deleted where the policy
/// says so.
pub fn update_roster(
    controllers: &mut Vec<Controller>,
    certifications: &mut Vec<Certification>,
    roster: &Vec<RosterMember>,
    settings: &RosterSettings,
) -> (r: RosterSyncReport)
    requires
        unique_cids(rows(old(controllers)@)),
    ensures
        rows(final(controllers)@) == mark_departed(
            synced_all(rows(old(controllers)@), roster@, settings.facility@),
            roster@,
        ),
        cert_rows(final(certifications)@) == kept_certs(
            synced_all(rows(old(controllers)@), roster@, settings.facility@),
            roster@,
            settings.cert_policy,
            cert_rows(old(certifications)@),
        ),
        r.failures@ == member_failures(rows(old(controllers)@), roster@, settings.facility@),
        unique_cids(rows(final(controllers)@)),
{
    let failures = sync_members(controllers, roster, settings.facility.as_str());
    let ghost after = rows(controllers@);
    let ghost certs0 = cert_rows(certifications@);
    let ghost policy = settings.cert_policy;
    let mut strip: Vec<u32> = Vec::new();
    let mut k: usize = 0;
    while k < controllers.len()
        invariant
            k <= controllers@.len(),
            after.len() == controllers@.len(),
            certs0 == cert_rows(certifications@),
            policy == settings.cert_policy,
            forall|x: int| 0 <= x < k ==> rows(controllers@)[x] == mark_departed(after, roster@)[x],
            forall|x: int| k <= x < after.len() ==> rows(controllers@)[x] == after[x],
            forall|c: u32| strip@.contains(c) <==> exists|x: int|
                0 <= x < k && (#[trigger] after[x]).cid == c && !on_external_roster(roster@, c)
                    && strips(policy, holds_certs(certs0, c)),
        decreases controllers@.len() - k,
    {
        let cid = controllers[k].cid;
        let ghost prev_strip = strip@;
        let ghost prev_rows = rows(controllers@);
        if !roster_lists(roster, cid) {
            let row = cleared_row(&controllers[k]);
            controllers.set(k, row);
            let held = has_certifications(certifications, cid);
            if settings.cert_policy.strip_certifications(held) {
                strip.push(cid);
            }
        }
        proof {
            assert(after[k as int].cid == cid);
            assert forall|x: int| 0 <= x < k + 1 implies rows(controllers@)[x] == mark_departed(after, roster@)[x] by {
                if x < k {
                    assert(rows(controllers@)[x] == prev_rows[x]);
                }
            }
            assert forall|x: int| k + 1 <= x < after.len() implies rows(controllers@)[x] == after[x] by {
                assert(rows(controllers@)[x] == prev_rows[x]);
            }
            assert forall|c: u32| strip@.contains(c) <==> exists|x: int|
                0 <= x < k + 1 && (#[trigger] after[x]).cid == c && !on_external_roster(roster@, c)
                    && strips(policy, holds_certs(certs0, c)) by {
                if strip@.contains(c) && !prev_strip.contains(c) {
                    assert(strip@[strip@.len() - 1] == cid);
                    if c != cid {
                        let y = choose|y: int| 0 <= y < strip@.len() && strip@[y] == c;
                        assert(prev_strip[y] == c);
                    }
                }
                if prev_strip.contains(c) {
                    let y = choose|y: int| 0 <= y < prev_strip.len() && prev_strip[y] == c;
                    assert(strip@[y] == c);
                    let x = choose|x: int| 0 <= x < k && (#[trigger] after[x]).cid == c && !on_external_roster(roster@, c)
                        && strips(policy, holds_certs(certs0, c));
                    assert(0 <= x < k + 1);
                }
                if exists|x: int| 0 <= x < k + 1 && (#[trigger] after[x]).cid == c && !on_external_roster(roster@, c)
                    && strips(policy, holds_certs(certs0, c)) {
                    let x = choose|x: int| 0 <= x < k + 1 && (#[trigger] after[x]).cid == c && !on_external_roster(roster@, c)
                        && strips(policy, holds_certs(certs0, c));
                    if x == k {
                        assert(strip@[strip@.len() - 1] == c);
                    } else {
                        assert(prev_strip.contains(c));
                        let y = choose|y: int| 0 <= y < prev_strip.len() && prev_strip[y] == c;
                        assert(strip@[y] == c);
                    }
                }
            }
        }
        k = k + 1;
    }
    assert(rows(controllers@) =~= mark_departed(after, roster@));
    assert(unique_cids(rows(controllers@))) by {
        let cs = rows(controllers@);
        assert forall|a: int, b: int|
            0 <= a < cs.len() && 0 <= b < cs.len() && #[trigger] cs[a].cid == #[trigger] cs[b].cid
            implies a == b by {
            assert(after[a].cid == cs[a].cid);
            assert(after[b].cid == cs[b].cid);
        }
    }
    delete_certifications_for(certifications, &strip);
    proof {
        let p1 = crate::certs::not_of(strip@);
        let p2 = |c: CertificationView| !departs_with_certs(after, roster@, policy, certs0, c.cid);
        assert forall|c: CertificationView| #[trigger] p1(c) == p2(c) by {
            if departs_with_certs(after, roster@, policy, certs0, c.cid) {
                let x = choose|x: int| 0 <= x < after.len() && after[x].cid == c.cid;
                assert(after[x].cid == c.cid);
            }
            if strip@.contains(c.cid) {
                let x = choose|x: int| 0 <= x < k && (#[trigger] after[x]).cid == c.cid && !on_external_roster(roster@, c.cid)
                    && strips(policy, holds_certs(certs0, c.cid));
                assert(has_cid(after, c.cid));
            }
        }
        assert(p1 =~= p2);
    }
    RosterSyncReport { failures }
}

/// Bring the members into the controller table, in order; one that fails
/// does not stop the rest. Returns the failures, in order.
pub fn sync_members(
    controllers: &mut Vec<Controller>,
    members: &Vec<RosterMember>,
    facility: &str,
) -> (r: Vec<(u32, MemberError)>)
    requires
        unique_cids(rows(old(controllers)@)),
    ensures
        rows(final(controllers)@) == synced_all(rows(old(controllers)@), members@, facility@),
        r@ == member_failures(rows(old(controllers)@), members@, facility@),
        unique_cids(rows(final(controllers)@)),
{
    let ghost cs0 = rows(controllers@);
    let ghost fac = facility@;
    let mut failures: Vec<(u32, MemberError)> = Vec::new();
    let mut i: usize = 0;
    while i < members.len()
        invariant
            i <= members@.len(),
            fac == facility@,
            rows(controllers@) == synced_all(cs0, members@.subrange(0, i as int), fac),
            failures@ == member_failures(cs0, members@.subrange(0, i as int), fac),
            unique_cids(rows(controllers@)),
        decreases members@.len() - i,
    {
        let ghost part = members@.subrange(0, i + 1);
        assert(part.drop_last() =~= members@.subrange(0, i as int));
        assert(part.last() == members@[i as int]);
        let outcome = update_controller_record(controllers, &members[i], facility);
        match outcome {
            Ok(()) => {},
            Err(e) => {
                failures.push((members[i].cid, e));
            },
        }
        assert(failures@ =~= member_failures(cs0, part, fac));
        i = i + 1;
    }
    assert(members@.subrange(0, members@.len() as int) =~= members@);
    failures
}

/// A request, queued by another process, for work on one item.
#[derive(Debug)]
pub struct IPC {
    pub uuid: String,
    pub action: String,
    pub data: String,
}

/// The action of a request to refresh one controller from the registry.
pub open spec fn sync_action() -> Seq<char> {
    "VATUSA_SYNC"@
}

/// The controller that a request asks to refresh, if it is such a request
/// and its payload is a cid.
pub open spec fn requested_cid(req: IPC) -> Option<u32> {
    if req.action@ == sync_action() {
        match unsigned_value(req.data@, u32::MAX as int) {
            Some(v) => Some(v as u32),
            None => None,
        }
    } else {
        None
    }
}

/// The controller that a request asks to refresh, if it is such a request
/// and its payload is a cid.
pub fn sync_request_cid(req: &IPC) -> (r: Option<u32>)
    ensures
        r == requested_cid(*req),
{
    if !same_text(req.action.as_str(), "VATUSA_SYNC") {
        return None;
    }
    match parse_unsigned(req.data.as_str(), 0xffff_ffff) {
        Some(v) => Some(v as u32),
        None => None,
    }
}

/// Whether a request is a refresh request.
pub open spec fn is_sync_request(req: IPC) -> bool {
    req.action@ == sync_action()
}

/// The requests that a partial synchronization leaves in the queue: all
/// but the refresh requests.
pub open spec fn remaining_requests(reqs: Seq<IPC>) -> Seq<IPC> {
    reqs.filter(|q: IPC| !is_sync_request(q))
}

/// Partially update the roster: bring in the members fetched for the queued
/// refresh requests, then delete every refresh request, whether its fetch
/// succeeded or not.
pub fn partial_update_roster(
    controllers: &mut Vec<Controller>,
    requests: &mut Vec<IPC>,
    fetched: &Vec<RosterMember>,
    facility: &str,
) -> (r: Vec<(u32, MemberError)>)
    requires
        unique_cids(rows(old(controllers)@)),
    ensures
        rows(final(controllers)@) == synced_all(rows(old(controllers)@), fetched@, facility@),
        r@ == member_failures(rows(old(controllers)@), fetched@, facility@),
        final(requests)@ == remaining_requests(old(requests)@),
        unique_cids(rows(final(controllers)@)),
{
    let failures = sync_members(controllers, fetched, facility);
    let ghost before = requests@;
    let ghost keep = |q: IPC| !is_sync_request(q);
    let mut kept: Vec<IPC> = Vec::new();
    let mut queue: Vec<IPC> = Vec::new();
    std::mem::swap(&mut queue, requests);
    assert(queue@ == before);
    let mut i: usize = 0;
    let n = queue.len();
    while queue.len() > 0
        invariant
            queue@.len() + i == n,
            n == before.len(),
            queue@ =~= before.subrange(i as int, n as int),
            kept@ == before.subrange(0, i as int).filter(|q: IPC| !is_sync_request(q)),
        decreases queue@.len(),
    {
        let q = queue.remove(0);
        assert(q == before[i as int]);
        assert(before.subrange(0, i + 1) =~= before.subrange(0, i as int).push(q));
        proof {
            before.subrange(0, i as int).lemma_filter_push(q, |q: IPC| !is_sync_request(q));
        }
        if !same_text(q.action.as_str(), "VATUSA_SYNC") {
            kept.push(q);
        }
        i = i + 1;
    }
    assert(before.subrange(0, n as int) =~= before);
    *requests = kept;
    failures
}

/// The cids of the controllers on the roster, in row order.
pub open spec fn roster_cids(cs: Seq<ControllerView>) -> Seq<u32> {
    cs.filter(|c: ControllerView| c.is_on_roster).map_values(|c: ControllerView| c.cid)
}

/// The cids of the controllers on the roster, in row order: those whose
/// activity the activity jobs keep.
pub fn on_roster_cids(controllers: &Vec<Controller>) -> (r: Vec<u32>)
    ensures
        r@ == roster_cids(rows(controllers@)),
{
    let ghost cs = rows(controllers@);
    let ghost pred = |c: ControllerView| c.is_on_roster;
    let mut r: Vec<u32> = Vec::new();
    let mut i: usize = 0;
    while i < controllers.len()
        invariant
            i <= controllers@.len(),
            cs == rows(controllers@),
            pred == (|c: ControllerView| c.is_on_roster),
            r@ == cs.take(i as int).filter(pred).map_values(|c: ControllerView| c.cid),
        decreases controllers@.len() - i,
    {
        assert(cs.take(i + 1) =~= cs.take(i as int).push(cs[i as int]));
        proof {
            cs.take(i as int).lemma_filter_push(cs[i as int], pred);
        }
        let ghost prev = r@;
        if controllers[i].is_on_roster {
            r.push(controllers[i].cid);
            assert(r@ =~= cs.take(i + 1).filter(pred).map_values(|c: ControllerView| c.cid));
        } else {
            assert(r@ =~= cs.take(i + 1).filter(pred).map_values(|c: ControllerView| c.cid));
        }
        i = i + 1;
    }
    assert(cs.take(controllers@.len() as int) =~= cs);
    r
}

} // verus!
