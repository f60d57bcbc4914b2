//! Laws of roster synchronization.

use vstd::prelude::*;
use crate::roles::Role;
use crate::roster::{
    cleared, has_cid, mark_departed, new_row, on_external_roster, on_roster, refreshed, synced_all,
    synced_rows, unique_cids, upsert_rows, with_initials, ControllerView, RosterMember,
};
use crate::time::rfc3339_seconds;
use crate::initials::{allocation, candidate, first_free};
use crate::roster::initials_used;

verus! {

/// Whether the table already reflects the member: where the member's join
/// date parses, its row is on the roster and refreshing it changes nothing.
pub open spec fn settled(cs: Seq<ControllerView>, m: RosterMember, fac: Seq<char>) -> bool {
    match rfc3339_seconds(m.facility_join@) {
        None => true,
        Some(join) => exists|i: int|
            0 <= i < cs.len() && (#[trigger] cs[i]).cid == m.cid && cs[i].is_on_roster && cs[i]
                == refreshed(cs[i], m, fac, join),
    }
}

/// No two members of the roster share a cid.
pub open spec fn distinct_members(ms: Seq<RosterMember>) -> bool {
    forall|a: int, b: int|
        0 <= a < ms.len() && 0 <= b < ms.len() && (#[trigger] ms[a]).cid == (#[trigger] ms[b]).cid
            ==> a == b
}

proof fn lemma_upsert_unique(cs: Seq<ControllerView>, m: RosterMember, fac: Seq<char>, join: i64)
    requires
        unique_cids(cs),
    ensures
        unique_cids(upsert_rows(cs, m, fac, join)),
        upsert_rows(cs, m, fac, join).len() >= cs.len(),
        forall|i: int| 0 <= i < cs.len() ==> (#[trigger] upsert_rows(cs, m, fac, join)[i]).cid == cs[i].cid,
{
    let cs1 = upsert_rows(cs, m, fac, join);
    assert forall|a: int, b: int|
        0 <= a < cs1.len() && 0 <= b < cs1.len() && #[trigger] cs1[a].cid == #[trigger] cs1[b].cid implies a == b by {
        if a < cs.len() && b < cs.len() {
            assert(cs1[a].cid == cs[a].cid && cs1[b].cid == cs[b].cid);
        } else if a < cs.len() {
            assert(cs1[a].cid == cs[a].cid);
        } else if b < cs.len() {
            assert(cs1[b].cid == cs[b].cid);
        }
    }
}

/// Bringing in a member keeps cids unique and keeps every row's cid and
/// place.
pub proof fn lemma_synced_unique(cs: Seq<ControllerView>, m: RosterMember, fac: Seq<char>)
    requires
        unique_cids(cs),
    ensures
        unique_cids(synced_rows(cs, m, fac)),
        synced_rows(cs, m, fac).len() >= cs.len(),
        forall|i: int| 0 <= i < cs.len() ==> (#[trigger] synced_rows(cs, m, fac)[i]).cid == cs[i].cid,
{
    match rfc3339_seconds(m.facility_join@) {
        None => {},
        Some(join) => {
            lemma_upsert_unique(cs, m, fac, join);
            let cs1 = upsert_rows(cs, m, fac, join);
            if !on_roster(cs, m.cid) {
                match allocation(initials_used(cs1), m.first_name@, m.last_name@) {
                    Some(oi) => {
                        let cs2 = with_initials(cs1, m.cid, oi);
                        assert forall|a: int, b: int|
                            0 <= a < cs2.len() && 0 <= b < cs2.len() && #[trigger] cs2[a].cid == #[trigger] cs2[b].cid
                            implies a == b by {
                            assert(cs2[a].cid == cs1[a].cid && cs2[b].cid == cs1[b].cid);
                        }
                        assert forall|i: int| 0 <= i < cs.len() implies (#[trigger] cs2[i]).cid == cs[i].cid by {
                            assert(cs2[i].cid == cs1[i].cid);
                        }
                    },
                    None => {},
                }
            }
        },
    }
}

/// A settled member is brought in without any change.
proof fn lemma_settled_step(cs: Seq<ControllerView>, m: RosterMember, fac: Seq<char>)
    requires
        unique_cids(cs),
        settled(cs, m, fac),
    ensures
        synced_rows(cs, m, fac) == cs,
{
    match rfc3339_seconds(m.facility_join@) {
        None => {},
        Some(join) => {
            let i = choose|i: int|
                0 <= i < cs.len() && (#[trigger] cs[i]).cid == m.cid && cs[i].is_on_roster && cs[i]
                    == refreshed(cs[i], m, fac, join);
            assert(has_cid(cs, m.cid));
            assert(on_roster(cs, m.cid));
            let cs1 = upsert_rows(cs, m, fac, join);
            assert forall|x: int| 0 <= x < cs.len() implies cs1[x] == cs[x] by {
                if cs[x].cid == m.cid {
                    assert(cs[x].cid == cs[i].cid);
                }
            }
            assert(cs1 =~= cs);
        },
    }
}

/// A refreshed row is left as it is by refreshing it again.
proof fn lemma_refreshed_fixed(c: ControllerView, m: RosterMember, fac: Seq<char>, join: i64)
    ensures
        refreshed(refreshed(c, m, fac, join), m, fac, join) == refreshed(c, m, fac, join),
        refreshed(new_row(m, fac, join), m, fac, join) == new_row(m, fac, join),
{
}

/// Other initials do not disturb a refreshed row.
proof fn lemma_initials_fixed(c: ControllerView, m: RosterMember, fac: Seq<char>, join: i64, oi: Seq<char>)
    requires
        c == refreshed(c, m, fac, join),
    ensures
        (ControllerView { operating_initials: Some(oi), ..c }) == refreshed(
            ControllerView { operating_initials: Some(oi), ..c },
            m,
            fac,
            join,
        ),
{
}

/// A member just brought in is settled.
#[verifier::rlimit(40)]
proof fn lemma_step_settles(cs: Seq<ControllerView>, m: RosterMember, fac: Seq<char>)
    requires
        unique_cids(cs),
    ensures
        settled(synced_rows(cs, m, fac), m, fac),
{
    match rfc3339_seconds(m.facility_join@) {
        None => {},
        Some(join) => {
            let cs1 = upsert_rows(cs, m, fac, join);
            let w: int = if has_cid(cs, m.cid) {
                choose|w: int| 0 <= w < cs.len() && cs[w].cid == m.cid
            } else {
                cs.len() as int
            };
            if has_cid(cs, m.cid) {
                assert(cs1[w] == refreshed(cs[w], m, fac, join));
                lemma_refreshed_fixed(cs[w], m, fac, join);
            } else {
                assert(cs1[w] == new_row(m, fac, join));
                lemma_refreshed_fixed(cs[0], m, fac, join);
            }
            assert(cs1[w].cid == m.cid && cs1[w].is_on_roster);
            assert(cs1[w] == refreshed(cs1[w], m, fac, join));
            let r = synced_rows(cs, m, fac);
            if !on_roster(cs, m.cid) {
                match allocation(initials_used(cs1), m.first_name@, m.last_name@) {
                    Some(oi) => {
                        let cs2 = with_initials(cs1, m.cid, oi);
                        assert(cs2[w] == ControllerView { operating_initials: Some(oi), ..cs1[w] });
                        lemma_initials_fixed(cs1[w], m, fac, join, oi);
                        assert(r[w] == cs2[w]);
                    },
                    None => {
                        assert(r[w] == cs1[w]);
                    },
                }
            } else {
                assert(r[w] == cs1[w]);
            }
            assert(r[w].cid == m.cid && r[w].is_on_roster && r[w] == refreshed(r[w], m, fac, join));
        },
    }
}

/// Bringing in another member keeps a member settled.
proof fn lemma_other_keeps_settled(
    cs: Seq<ControllerView>,
    m: RosterMember,
    other: RosterMember,
    fac: Seq<char>,
)
    requires
        unique_cids(cs),
        settled(cs, m, fac),
        other.cid != m.cid,
    ensures
        settled(synced_rows(cs, other, fac), m, fac),
{
    match rfc3339_seconds(m.facility_join@) {
        None => {},
        Some(join) => {
            let i = choose|i: int|
                0 <= i < cs.len() && (#[trigger] cs[i]).cid == m.cid && cs[i].is_on_roster && cs[i]
                    == refreshed(cs[i], m, fac, join);
            let r = synced_rows(cs, other, fac);
            match rfc3339_seconds(other.facility_join@) {
                None => {},
                Some(j2) => {
                    let cs1 = upsert_rows(cs, other, fac, j2);
                    assert(cs1[i] == cs[i]);
                    if !on_roster(cs, other.cid) {
                        match allocation(initials_used(cs1), other.first_name@, other.last_name@) {
                            Some(oi) => {
                                assert(with_initials(cs1, other.cid, oi)[i] == cs[i]);
                            },
                            None => {},
                        }
                    }
                },
            }
            assert(r[i] == cs[i]);
        },
    }
}

/// After a pass over distinct members, every member is settled.
proof fn lemma_all_settled(cs: Seq<ControllerView>, ms: Seq<RosterMember>, fac: Seq<char>)
    requires
        unique_cids(cs),
        distinct_members(ms),
    ensures
        unique_cids(synced_all(cs, ms, fac)),
        forall|k: int| 0 <= k < ms.len() ==> settled(synced_all(cs, ms, fac), #[trigger] ms[k], fac),
    decreases ms.len(),
{
    if ms.len() > 0 {
        let pre = ms.drop_last();
        assert(distinct_members(pre)) by {
            assert forall|a: int, b: int|
                0 <= a < pre.len() && 0 <= b < pre.len() && (#[trigger] pre[a]).cid == (#[trigger] pre[b]).cid
                implies a == b by {
                assert(pre[a] == ms[a] && pre[b] == ms[b]);
            }
        }
        lemma_all_settled(cs, pre, fac);
        let s = synced_all(cs, pre, fac);
        lemma_synced_unique(s, ms.last(), fac);
        assert forall|k: int| 0 <= k < ms.len() implies settled(synced_all(cs, ms, fac), #[trigger] ms[k], fac) by {
            if k == ms.len() - 1 {
                lemma_step_settles(s, ms.last(), fac);
            } else {
                assert(pre[k] == ms[k]);
                assert(settled(s, pre[k], fac));
                assert(ms[k].cid != ms[ms.len() - 1].cid);
                lemma_other_keeps_settled(s, ms[k], ms.last(), fac);
            }
        }
    }
}

/// A pass over members who are all settled changes nothing.
proof fn lemma_settled_pass(cs: Seq<ControllerView>, ms: Seq<RosterMember>, fac: Seq<char>)
    requires
        unique_cids(cs),
        forall|k: int| 0 <= k < ms.len() ==> settled(cs, #[trigger] ms[k], fac),
    ensures
        synced_all(cs, ms, fac) == cs,
    decreases ms.len(),
{
    if ms.len() > 0 {
        let pre = ms.drop_last();
        assert forall|k: int| 0 <= k < pre.len() implies settled(cs, #[trigger] pre[k], fac) by {
            assert(pre[k] == ms[k]);
        }
        lemma_settled_pass(cs, pre, fac);
        assert(settled(cs, ms[ms.len() - 1], fac));
        lemma_settled_step(cs, ms.last(), fac);
    }
}

/// Clearing departed rows keeps listed members settled and cids unique.
proof fn lemma_departed_keeps_settled(cs: Seq<ControllerView>, ms: Seq<RosterMember>, fac: Seq<char>)
    requires
        unique_cids(cs),
        forall|k: int| 0 <= k < ms.len() ==> settled(cs, #[trigger] ms[k], fac),
    ensures
        unique_cids(mark_departed(cs, ms)),
        forall|k: int| 0 <= k < ms.len() ==> settled(mark_departed(cs, ms), #[trigger] ms[k], fac),
{
    let d = mark_departed(cs, ms);
    assert forall|a: int, b: int|
        0 <= a < d.len() && 0 <= b < d.len() && #[trigger] d[a].cid == #[trigger] d[b].cid implies a == b by {
        assert(d[a].cid == cs[a].cid && d[b].cid == cs[b].cid);
    }
    assert forall|k: int| 0 <= k < ms.len() implies settled(d, #[trigger] ms[k], fac) by {
        let m = ms[k];
        match rfc3339_seconds(m.facility_join@) {
            None => {},
            Some(join) => {
                let i = choose|i: int|
                    0 <= i < cs.len() && (#[trigger] cs[i]).cid == m.cid && cs[i].is_on_roster && cs[i]
                        == refreshed(cs[i], m, fac, join);
                assert(on_external_roster(ms, cs[i].cid));
                assert(d[i] == cs[i]);
            },
        }
    }
}

/// Running a full roster synchronization twice against the same roster
/// leaves the controller table exactly as the first run left it.
pub proof fn lemma_full_sync_idempotent(cs: Seq<ControllerView>, ms: Seq<RosterMember>, fac: Seq<char>)
    requires
        unique_cids(cs),
        distinct_members(ms),
    ensures
        mark_departed(synced_all(mark_departed(synced_all(cs, ms, fac), ms), ms, fac), ms)
            == mark_departed(synced_all(cs, ms, fac), ms),
{
    let a = synced_all(cs, ms, fac);
    lemma_all_settled(cs, ms, fac);
    let s1 = mark_departed(a, ms);
    lemma_departed_keeps_settled(a, ms, fac);
    lemma_settled_pass(s1, ms, fac);
    assert(mark_departed(s1, ms) =~= s1);
}

/// Whether the row of `cid` holds role `r`.
pub open spec fn holds_role(cs: Seq<ControllerView>, cid: u32, r: Role) -> bool {
    exists|i: int| 0 <= i < cs.len() && (#[trigger] cs[i]).cid == cid && cs[i].roles.has(r)
}

proof fn lemma_step_keeps_role(cs: Seq<ControllerView>, m: RosterMember, fac: Seq<char>, cid: u32, r: Role)
    requires
        holds_role(cs, cid, r),
    ensures
        holds_role(synced_rows(cs, m, fac), cid, r),
{
    let i = choose|i: int| 0 <= i < cs.len() && (#[trigger] cs[i]).cid == cid && cs[i].roles.has(r);
    match rfc3339_seconds(m.facility_join@) {
        None => {},
        Some(join) => {
            let cs1 = upsert_rows(cs, m, fac, join);
            assert(cs1[i].cid == cid && cs1[i].roles.has(r));
            if !on_roster(cs, m.cid) {
                match allocation(initials_used(cs1), m.first_name@, m.last_name@) {
                    Some(oi) => {
                        let cs2 = with_initials(cs1, m.cid, oi);
                        assert(cs2[i].cid == cid && cs2[i].roles.has(r));
                    },
                    None => {},
                }
            }
            let res = synced_rows(cs, m, fac);
            assert(res[i].cid == cid && res[i].roles.has(r));
        },
    }
}

proof fn lemma_pass_keeps_role(cs: Seq<ControllerView>, ms: Seq<RosterMember>, fac: Seq<char>, cid: u32, r: Role)
    requires
        holds_role(cs, cid, r),
    ensures
        holds_role(synced_all(cs, ms, fac), cid, r),
    decreases ms.len(),
{
    if ms.len() > 0 {
        lemma_pass_keeps_role(cs, ms.drop_last(), fac, cid, r);
        lemma_step_keeps_role(synced_all(cs, ms.drop_last(), fac), ms.last(), fac, cid, r);
    }
}

/// Synchronization never takes a role away: a role that a controller holds
/// before a full synchronization, whatever the registry reports, it still
/// holds after.
pub proof fn lemma_roles_only_grow(cs: Seq<ControllerView>, ms: Seq<RosterMember>, fac: Seq<char>, cid: u32, r: Role)
    requires
        holds_role(cs, cid, r),
    ensures
        holds_role(mark_departed(synced_all(cs, ms, fac), ms), cid, r),
{
    lemma_pass_keeps_role(cs, ms, fac, cid, r);
    let a = synced_all(cs, ms, fac);
    let i = choose|i: int| 0 <= i < a.len() && (#[trigger] a[i]).cid == cid && a[i].roles.has(r);
    let d = mark_departed(a, ms);
    assert(d[i].cid == cid && d[i].roles.has(r));
}

proof fn lemma_step_keeps_unlisted(cs: Seq<ControllerView>, m: RosterMember, fac: Seq<char>, cid: u32)
    requires
        cid != m.cid,
    ensures
        has_cid(synced_rows(cs, m, fac), cid) == has_cid(cs, cid),
{
    match rfc3339_seconds(m.facility_join@) {
        None => {},
        Some(join) => {
            let cs1 = upsert_rows(cs, m, fac, join);
            let res = synced_rows(cs, m, fac);
            assert(res.len() >= cs.len());
            assert forall|i: int| 0 <= i < cs.len() implies res[i].cid == cs[i].cid by {
                assert(cs1[i].cid == cs[i].cid);
                if !on_roster(cs, m.cid) {
                    match allocation(initials_used(cs1), m.first_name@, m.last_name@) {
                        Some(oi) => {
                            assert(with_initials(cs1, m.cid, oi)[i].cid == cs1[i].cid);
                        },
                        None => {},
                    }
                }
            }
            assert forall|i: int| cs.len() <= i < res.len() implies res[i].cid == m.cid by {
                assert(cs1[i].cid == m.cid);
                if !on_roster(cs, m.cid) {
                    match allocation(initials_used(cs1), m.first_name@, m.last_name@) {
                        Some(oi) => {
                            assert(with_initials(cs1, m.cid, oi)[i].cid == cs1[i].cid);
                        },
                        None => {},
                    }
                }
            }
            if has_cid(res, cid) {
                let i = choose|i: int| 0 <= i < res.len() && res[i].cid == cid;
                assert(i < cs.len());
                assert(cs[i].cid == cid);
            }
            if has_cid(cs, cid) {
                let i = choose|i: int| 0 <= i < cs.len() && cs[i].cid == cid;
                assert(res[i].cid == cid);
            }
        },
    }
}

proof fn lemma_pass_keeps_unlisted(cs: Seq<ControllerView>, ms: Seq<RosterMember>, fac: Seq<char>, cid: u32)
    requires
        !on_external_roster(ms, cid),
    ensures
        has_cid(synced_all(cs, ms, fac), cid) == has_cid(cs, cid),
    decreases ms.len(),
{
    if ms.len() > 0 {
        let pre = ms.drop_last();
        assert(!on_external_roster(pre, cid)) by {
            if on_external_roster(pre, cid) {
                let i = choose|i: int| 0 <= i < pre.len() && pre[i].cid == cid;
                assert(ms[i] == pre[i]);
            }
        }
        lemma_pass_keeps_unlisted(cs, pre, fac, cid);
        assert(ms[ms.len() - 1].cid != cid);
        lemma_step_keeps_unlisted(synced_all(cs, pre, fac), ms.last(), fac, cid);
    }
}

/// After a full synchronization the controllers marked off the roster are
/// exactly those known locally and not on the registry's roster: such a
/// cid has a row after if and only if it had one before, and each row whose
/// cid the roster does not list is cleared, while rows whose cid it lists
/// are left as the members made them.
pub proof fn lemma_off_roster_set(cs: Seq<ControllerView>, ms: Seq<RosterMember>, fac: Seq<char>)
    ensures
        forall|cid: u32|
            !on_external_roster(ms, cid) ==> (has_cid(
                mark_departed(synced_all(cs, ms, fac), ms),
                cid,
            ) <==> #[trigger] has_cid(cs, cid)),
        forall|i: int|
            0 <= i < synced_all(cs, ms, fac).len() && !on_external_roster(
                ms,
                (#[trigger] synced_all(cs, ms, fac)[i]).cid,
            ) ==> mark_departed(synced_all(cs, ms, fac), ms)[i] == cleared(synced_all(cs, ms, fac)[i]),
        forall|i: int|
            0 <= i < synced_all(cs, ms, fac).len() && on_external_roster(
                ms,
                (#[trigger] synced_all(cs, ms, fac)[i]).cid,
            ) ==> mark_departed(synced_all(cs, ms, fac), ms)[i] == synced_all(cs, ms, fac)[i],
{
    let a = synced_all(cs, ms, fac);
    let d = mark_departed(a, ms);
    assert forall|cid: u32| !on_external_roster(ms, cid) implies (has_cid(d, cid) <==> #[trigger] has_cid(cs, cid)) by {
        lemma_pass_keeps_unlisted(cs, ms, fac, cid);
        if has_cid(d, cid) {
            let i = choose|i: int| 0 <= i < d.len() && d[i].cid == cid;
            assert(a[i].cid == cid);
        }
        if has_cid(a, cid) {
            let i = choose|i: int| 0 <= i < a.len() && a[i].cid == cid;
            assert(d[i].cid == cid);
        }
    }
}

/// No two rows hold the same operating initials.
pub open spec fn unique_initials(cs: Seq<ControllerView>) -> bool {
    forall|i: int, j: int|
        0 <= i < cs.len() && 0 <= j < cs.len() && cs[i].operating_initials is Some
            && #[trigger] cs[i].operating_initials == #[trigger] cs[j].operating_initials ==> i == j
}

proof fn lemma_used_holds(cs: Seq<ControllerView>, i: int)
    requires
        0 <= i < cs.len(),
        cs[i].operating_initials is Some,
    ensures
        initials_used(cs).contains(cs[i].operating_initials.unwrap()),
    decreases cs.len(),
{
    let x = cs[i].operating_initials.unwrap();
    let tail = match cs.last().operating_initials {
        Some(y) => seq![y],
        None => Seq::<Seq<char>>::empty(),
    };
    assert(initials_used(cs) == initials_used(cs.drop_last()) + tail);
    if i == cs.len() - 1 {
        assert(initials_used(cs)[initials_used(cs).len() - 1] == x);
    } else {
        assert(cs.drop_last()[i] == cs[i]);
        lemma_used_holds(cs.drop_last(), i);
        let k = choose|k: int| 0 <= k < initials_used(cs.drop_last()).len() && initials_used(cs.drop_last())[k] == x;
        assert(initials_used(cs)[k] == x);
    }
}

proof fn lemma_first_free_unused(used: Seq<Seq<char>>, k: int)
    ensures
        match first_free(used, k) {
            Some(x) => !used.contains(x),
            None => true,
        },
    decreases 676 - k,
{
    if 0 <= k < 676 && used.contains(candidate(k)) {
        lemma_first_free_unused(used, k + 1);
    }
}

/// Allocated initials are never among those in use.
pub proof fn lemma_allocation_unused(used: Seq<Seq<char>>, first: Seq<char>, last: Seq<char>)
    ensures
        match allocation(used, first, last) {
            Some(x) => !used.contains(x),
            None => true,
        },
{
    lemma_first_free_unused(used, 0);
}

/// Bringing in a member keeps operating initials unique.
pub proof fn lemma_sync_keeps_initials_unique(cs: Seq<ControllerView>, m: RosterMember, fac: Seq<char>)
    requires
        unique_cids(cs),
        unique_initials(cs),
    ensures
        unique_initials(synced_rows(cs, m, fac)),
{
    match rfc3339_seconds(m.facility_join@) {
        None => {},
        Some(join) => {
            let cs1 = upsert_rows(cs, m, fac, join);
            lemma_upsert_unique(cs, m, fac, join);
            assert forall|i: int| 0 <= i < cs1.len() && cs1[i].operating_initials is Some implies i < cs.len()
                && cs1[i].operating_initials == cs[i].operating_initials by {
                if i >= cs.len() {
                    assert(cs1[i] == new_row(m, fac, join));
                }
            }
            assert(unique_initials(cs1)) by {
                assert forall|i: int, j: int|
                    0 <= i < cs1.len() && 0 <= j < cs1.len() && cs1[i].operating_initials is Some
                        && #[trigger] cs1[i].operating_initials == #[trigger] cs1[j].operating_initials implies i == j by {
                    assert(cs[i].operating_initials == cs[j].operating_initials);
                }
            }
            if !on_roster(cs, m.cid) {
                let used = initials_used(cs1);
                lemma_allocation_unused(used, m.first_name@, m.last_name@);
                match allocation(used, m.first_name@, m.last_name@) {
                    Some(x) => {
                        let cs2 = with_initials(cs1, m.cid, x);
                        assert forall|i: int, j: int|
                            0 <= i < cs2.len() && 0 <= j < cs2.len() && cs2[i].operating_initials is Some
                                && #[trigger] cs2[i].operating_initials == #[trigger] cs2[j].operating_initials implies i == j by {
                            if cs1[i].cid == m.cid && cs1[j].cid == m.cid {
                                assert(cs1[i].cid == cs1[j].cid);
                            } else if cs1[i].cid == m.cid {
                                assert(cs2[j] == cs1[j]);
                                lemma_used_holds(cs1, j);
                            } else if cs1[j].cid == m.cid {
                                assert(cs2[i] == cs1[i]);
                                lemma_used_holds(cs1, i);
                            } else {
                                assert(cs2[i] == cs1[i] && cs2[j] == cs1[j]);
                            }
                        }
                    },
                    None => {},
                }
            }
        },
    }
}

proof fn lemma_pass_keeps_initials_unique(cs: Seq<ControllerView>, ms: Seq<RosterMember>, fac: Seq<char>)
    requires
        unique_cids(cs),
        unique_initials(cs),
    ensures
        unique_cids(synced_all(cs, ms, fac)),
        unique_initials(synced_all(cs, ms, fac)),
    decreases ms.len(),
{
    if ms.len() > 0 {
        lemma_pass_keeps_initials_unique(cs, ms.drop_last(), fac);
        let s = synced_all(cs, ms.drop_last(), fac);
        lemma_synced_unique(s, ms.last(), fac);
        lemma_sync_keeps_initials_unique(s, ms.last(), fac);
    }
}

/// A full roster synchronization keeps operating initials unique among
/// all controllers.
pub proof fn lemma_full_sync_keeps_initials_unique(cs: Seq<ControllerView>, ms: Seq<RosterMember>, fac: Seq<char>)
    requires
        unique_cids(cs),
        unique_initials(cs),
    ensures
        unique_initials(mark_departed(synced_all(cs, ms, fac), ms)),
{
    lemma_pass_keeps_initials_unique(cs, ms, fac);
    let a = synced_all(cs, ms, fac);
    let d = mark_departed(a, ms);
    assert forall|i: int, j: int|
        0 <= i < d.len() && 0 <= j < d.len() && d[i].operating_initials is Some
            && #[trigger] d[i].operating_initials == #[trigger] d[j].operating_initials implies i == j by {
        assert(d[i].operating_initials == a[i].operating_initials);
        assert(d[j].operating_initials == a[j].operating_initials);
    }
}

} // verus!
