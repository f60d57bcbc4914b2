//! Activity reconciliation: minutes controlled per month, from the
//! network's session history.

use vstd::prelude::*;
use crate::config::ConfigStats;
use crate::time::{parse_rfc3339_seconds, rfc3339_seconds};
use crate::text::{
    all_digits, digit_value, ends_with, has_prefix, has_suffix, is_digit,
    parse_unsigned, starts_with, unsigned_value,
};

verus! {

/// Whether a callsign belongs to the facility: it begins with one of the
/// configured prefixes and ends with one of the configured suffixes.
pub open spec fn in_airspace(stats: ConfigStats, callsign: Seq<char>) -> bool {
    (exists|i: int|
        0 <= i < stats.position_prefixes@.len() && has_prefix(
            callsign,
            (#[trigger] stats.position_prefixes@[i])@,
        )) && (exists|j: int|
        0 <= j < stats.position_suffixes@.len() && has_suffix(
            callsign,
            (#[trigger] stats.position_suffixes@[j])@,
        ))
}

/// Whether some entry of `list` begins `s`.
fn any_prefix(list: &Vec<String>, s: &str) -> (r: bool)
    ensures
        r == exists|i: int| 0 <= i < list@.len() && has_prefix(s@, (#[trigger] list@[i])@),
{
    let mut i: usize = 0;
    while i < list.len()
        invariant
            i <= list@.len(),
            forall|k: int| 0 <= k < i ==> !has_prefix(s@, (#[trigger] list@[k])@),
        decreases list@.len() - i,
    {
        if starts_with(s, list[i].as_str()) {
            return true;
        }
        i = i + 1;
    }
    false
}

/// Whether some entry of `list` ends `s`.
fn any_suffix(list: &Vec<String>, s: &str) -> (r: bool)
    ensures
        r == exists|i: int| 0 <= i < list@.len() && has_suffix(s@, (#[trigger] list@[i])@),
{
    let mut i: usize = 0;
    while i < list.len()
        invariant
            i <= list@.len(),
            forall|k: int| 0 <= k < i ==> !has_suffix(s@, (#[trigger] list@[k])@),
        decreases list@.len() - i,
    {
        if ends_with(s, list[i].as_str()) {
            return true;
        }
        i = i + 1;
    }
    false
}

/// Whether a callsign belongs to the facility's airspace.
pub fn position_in_facility_airspace(stats: &ConfigStats, callsign: &str) -> (r: bool)
    ensures
        r == in_airspace(*stats, callsign@),
{
    any_prefix(&stats.position_prefixes, callsign) && any_suffix(&stats.position_suffixes, callsign)
}

/// The largest number of whole minutes that a session length may give.
pub const MAX_SESSION_MINUTES: u64 = 1_000_000_000_000_000;

/// The index of the first dot of `s`, at or after `k`.
pub open spec fn dot_from(s: Seq<char>, k: int) -> Option<int>
    decreases s.len() - k,
{
    if k < 0 || k >= s.len() {
        None
    } else if s[k] == '.' {
        Some(k)
    } else {
        dot_from(s, k + 1)
    }
}

/// Thousandths given by the digits after a decimal point; digits after the
/// third are dropped.
pub open spec fn frac_millis(b: Seq<char>) -> int {
    if b.len() >= 3 {
        digit_value(b[0]) * 100 + digit_value(b[1]) * 10 + digit_value(b[2])
    } else if b.len() == 2 {
        digit_value(b[0]) * 100 + digit_value(b[1]) * 10
    } else if b.len() == 1 {
        digit_value(b[0]) * 100
    } else {
        0
    }
}

/// A length in minutes written in decimal (whole part, and optionally a dot
/// and a fraction), in thousandths of a minute.
pub open spec fn minutes_millis(s: Seq<char>) -> Option<int> {
    match dot_from(s, 0) {
        None => match unsigned_value(s, MAX_SESSION_MINUTES as int) {
            Some(v) => Some(v * 1000),
            None => None,
        },
        Some(k) => if all_digits(s.skip(k + 1)) {
            match unsigned_value(s.take(k), MAX_SESSION_MINUTES as int) {
                Some(v) => Some(v * 1000 + frac_millis(s.skip(k + 1))),
                None => None,
            }
        } else {
            None
        },
    }
}

/// Read a length in minutes, written in decimal, in thousandths of a minute.
pub fn parse_minutes_millis(s: &str) -> (r: Option<u64>)
    ensures
        match r {
            Some(v) => minutes_millis(s@) == Some(v as int),
            None => minutes_millis(s@) is None,
        },
{
    let n = s.unicode_len();
    let mut k: usize = 0;
    while k < n && s.get_char(k) != '.'
        invariant
            k <= n,
            n == s@.len(),
            dot_from(s@, 0) == dot_from(s@, k as int),
        decreases n - k,
    {
        k = k + 1;
    }
    if k == n {
        return match parse_unsigned(s, MAX_SESSION_MINUTES) {
            Some(v) => Some(v * 1000),
            None => None,
        };
    }
    assert(dot_from(s@, 0) == Some(k as int));
    let head = s.substring_char(0, k);
    assert(head@ =~= s@.take(k as int));
    let whole = parse_unsigned(head, MAX_SESSION_MINUTES);
    let frac = s.substring_char(k + 1, n);
    let ghost b = s@.skip(k + 1);
    assert(frac@ =~= b);
    let m = frac.unicode_len();
    let mut i: usize = 0;
    let mut millis: u64 = 0;
    while i < m
        invariant
            i <= m,
            m == b.len(),
            frac@ == b,
            b == s@.skip(k + 1),
            dot_from(s@, 0) == Some(k as int),
            forall|x: int| 0 <= x < i ==> is_digit(#[trigger] b[x]),
            millis as int == frac_millis(b.take(i as int)) && millis < 1000,
        decreases m - i,
    {
        let c = frac.get_char(i);
        if c < '0' || c > '9' {
            assert(!is_digit(b[i as int]));
            assert(!all_digits(b));
            return None;
        }
        let d = (c as u32 - '0' as u32) as u64;
        assert(b.take(i + 1) =~= b.take(i as int).push(c));
        if i == 0 {
            millis = d * 100;
        } else if i == 1 {
            millis = millis + d * 10;
        } else if i == 2 {
            millis = millis + d;
        }
        proof {
            let t = b.take(i + 1);
            if i >= 3 {
                assert(b.take(i as int).take(3) =~= t.take(3));
                assert(t[0] == b.take(i as int)[0] && t[1] == b.take(i as int)[1] && t[2] == b.take(i as int)[2]);
            } else if i == 2 {
                assert(t[0] == b.take(i as int)[0] && t[1] == b.take(i as int)[1]);
            } else if i == 1 {
                assert(t[0] == b.take(i as int)[0]);
            }
        }
        i = i + 1;
    }
    assert(b.take(m as int) =~= b);
    assert(all_digits(b));
    match whole {
        Some(v) => Some(v * 1000 + millis),
        None => None,
    }
}

/// A controlling session from the network's history.
#[derive(Debug)]
pub struct AtcSession {
    pub callsign: String,
    /// When the session began, as an ISO 8601 text ("2025-10-03T...").
    pub start: String,
    /// How long the session lasted, in minutes, written in decimal.
    pub minutes_on_callsign: String,
}

/// The month ("YYYY-MM") in which a session began: the first seven
/// characters of its start.
pub open spec fn session_month(s: AtcSession) -> Option<Seq<char>> {
    if s.start@.len() >= 7 {
        Some(s.start@.take(7))
    } else {
        None
    }
}

/// Whether a session counts toward the facility's activity: it is on a
/// position of the facility, and its month and its length can be read.
pub open spec fn counted(stats: ConfigStats, s: AtcSession) -> bool {
    in_airspace(stats, s.callsign@) && session_month(s) is Some && minutes_millis(
        s.minutes_on_callsign@,
    ) is Some
}

/// The length of a counted session, in thousandths of a minute.
pub open spec fn session_millis(s: AtcSession) -> int {
    minutes_millis(s.minutes_on_callsign@).unwrap()
}

/// What one session adds to the total of `month`.
pub open spec fn adds_to(stats: ConfigStats, s: AtcSession, month: Seq<char>) -> int {
    if counted(stats, s) && session_month(s) == Some(month) {
        session_millis(s)
    } else {
        0
    }
}

/// The length of the counted sessions of `month`, in thousandths of a
/// minute.
pub open spec fn month_millis(stats: ConfigStats, ss: Seq<AtcSession>, month: Seq<char>) -> int
    decreases ss.len(),
{
    if ss.len() == 0 {
        0
    } else {
        month_millis(stats, ss.drop_last(), month) + adds_to(stats, ss.last(), month)
    }
}

/// Whether some counted session began in `month`.
pub open spec fn month_seen(stats: ConfigStats, ss: Seq<AtcSession>, month: Seq<char>) -> bool {
    exists|i: int|
        0 <= i < ss.len() && counted(stats, #[trigger] ss[i]) && session_month(ss[i]) == Some(
            month,
        )
}

/// Thousandths of a minute rounded to whole minutes, half up, and held to
/// what a `u32` can count.
pub open spec fn rounded_minutes(millis: int) -> int {
    if (millis + 500) / 1000 > u32::MAX as int {
        u32::MAX as int
    } else {
        (millis + 500) / 1000
    }
}

/// The minutes controlled in one month.
#[derive(Debug)]
pub struct MonthTotal {
    pub month: String,
    pub minutes: u32,
}

/// The totals are exactly the per-month sums of the counted sessions, one
/// per month.
pub open spec fn totals_of(stats: ConfigStats, ss: Seq<AtcSession>, r: Seq<MonthTotal>) -> bool {
    &&& forall|a: int, b: int|
        0 <= a < r.len() && 0 <= b < r.len() && (#[trigger] r[a]).month@ == (#[trigger] r[b]).month@
            ==> a == b
    &&& forall|k: int|
        0 <= k < r.len() ==> month_seen(stats, ss, (#[trigger] r[k]).month@) && r[k].minutes as int
            == rounded_minutes(month_millis(stats, ss, r[k].month@))
    &&& forall|m: Seq<char>|
        #[trigger] month_seen(stats, ss, m) ==> exists|k: int| 0 <= k < r.len() && (#[trigger] r[k]).month@ == m
}

/// How adding one session changes the per-month sums.
proof fn lemma_month_step(stats: ConfigStats, ss: Seq<AtcSession>, i: int)
    requires
        0 <= i < ss.len(),
    ensures
        forall|m: Seq<char>|
            #[trigger] month_millis(stats, ss.take(i + 1), m) == month_millis(stats, ss.take(i), m)
                + adds_to(stats, ss[i], m),
        forall|m: Seq<char>|
            #[trigger] month_seen(stats, ss.take(i + 1), m) == (month_seen(stats, ss.take(i), m) || (
            counted(stats, ss[i]) && session_month(ss[i]) == Some(m))),
{
    let p = ss.take(i);
    let p1 = ss.take(i + 1);
    assert(p1.drop_last() =~= p);
    assert(p1.last() == ss[i]);
    assert forall|m: Seq<char>|
        #[trigger] month_seen(stats, p1, m) == (month_seen(stats, p, m) || (counted(stats, ss[i])
            && session_month(ss[i]) == Some(m))) by {
        if month_seen(stats, p, m) {
            let x = choose|x: int|
                0 <= x < p.len() && counted(stats, #[trigger] p[x]) && session_month(p[x]) == Some(m);
            assert(p1[x] == p[x]);
        }
        if counted(stats, ss[i]) && session_month(ss[i]) == Some(m) {
            assert(p1[i] == ss[i]);
        }
        if month_seen(stats, p1, m) {
            let x = choose|x: int|
                0 <= x < p1.len() && counted(stats, #[trigger] p1[x]) && session_month(p1[x]) == Some(m);
            if x < i {
                assert(p[x] == p1[x]);
            }
        }
    }
}

/// Sum the counted sessions' lengths per month.
pub fn aggregate_sessions(stats: &ConfigStats, sessions: &Vec<AtcSession>) -> (r: Vec<MonthTotal>)
    ensures
        totals_of(*stats, sessions@, r@),
{
    let ghost ss = sessions@;
    let mut months: Vec<String> = Vec::new();
    let mut sums: Vec<u128> = Vec::new();
    let mut i: usize = 0;
    while i < sessions.len()
        invariant
            i <= ss.len(),
            ss == sessions@,
            months@.len() == sums@.len(),
            forall|a: int, b: int|
                0 <= a < months@.len() && 0 <= b < months@.len() && (#[trigger] months@[a])@ == (
                #[trigger] months@[b])@ ==> a == b,
            forall|k: int|
                0 <= k < months@.len() ==> month_seen(*stats, ss.take(i as int), (#[trigger] months@[k])@)
                    && sums@[k] as int == month_millis(*stats, ss.take(i as int), months@[k]@)
                    && sums@[k] as int <= i as int * 10_000_000_000_000_000_000,
            forall|m: Seq<char>|
                #[trigger] month_seen(*stats, ss.take(i as int), m) ==> exists|k: int|
                    0 <= k < months@.len() && (#[trigger] months@[k])@ == m,
        decreases ss.len() - i,
    {
        proof {
            lemma_month_step(*stats, ss, i as int);
        }
        let s = &sessions[i];
        let mut counts = false;
        let mut v: u64 = 0;
        if position_in_facility_airspace(stats, s.callsign.as_str()) && s.start.unicode_len() >= 7 {
            match parse_minutes_millis(s.minutes_on_callsign.as_str()) {
                Some(x) => {
                    counts = true;
                    v = x;
                },
                None => {},
            }
        }
        assert(counts == counted(*stats, *s));
        if counts {
            let ghost months0 = months@;
            let month = String::from_str(s.start.as_str().substring_char(0, 7));
            assert(session_month(*s) == Some(month@));
            assert(v as int == session_millis(*s));
            assert(v as int <= 10_000_000_000_000_000_000) by {
                assert(minutes_millis(s.minutes_on_callsign@) == Some(v as int));
            }
            let mut j: usize = 0;
            while j < months.len() && !crate::text::same_text(months[j].as_str(), month.as_str())
                invariant
                    j <= months@.len(),
                    forall|k: int| 0 <= k < j ==> (#[trigger] months@[k])@ != month@,
                decreases months@.len() - j,
            {
                j = j + 1;
            }
            if j < months.len() {
                let old_sum = sums[j];
                assert(old_sum as int <= i as int * 10_000_000_000_000_000_000);
                assert((i as int + 1) * 10_000_000_000_000_000_000 < 0xffff_ffff_ffff_ffff_ffff_ffff_ffff_ffff) by (nonlinear_arith)
                    requires
                        i < 0x1_0000_0000_0000_0000,
                ;
                let ghost prev_sums = sums@;
                sums.set(j, old_sum + v as u128);
                proof {
                    assert forall|k: int| 0 <= k < months@.len() implies month_seen(*stats, ss.take(i + 1), (#[trigger] months@[k])@)
                        && sums@[k] as int == month_millis(*stats, ss.take(i + 1), months@[k]@)
                        && sums@[k] as int <= (i + 1) * 10_000_000_000_000_000_000 by {
                        assert(month_millis(*stats, ss.take(i + 1), months@[k]@) == month_millis(*stats, ss.take(i as int), months@[k]@) + adds_to(*stats, ss[i as int], months@[k]@));
                        if k != j {
                            assert(months@[k]@ != month@) by {
                                if months@[k]@ == month@ {
                                    assert(months@[k]@ == months@[j as int]@);
                                }
                            }
                        }
                    }
                }
            } else {
                let ghost prev_months = months@;
                months.push(month);
                sums.push(v as u128);
                proof {
                    assert(!month_seen(*stats, ss.take(i as int), month@));
                    assert(month_millis(*stats, ss.take(i as int), month@) == 0) by {
                        lemma_unseen_zero(*stats, ss.take(i as int), month@);
                    }
                    assert forall|k: int| 0 <= k < months@.len() implies month_seen(*stats, ss.take(i + 1), (#[trigger] months@[k])@)
                        && sums@[k] as int == month_millis(*stats, ss.take(i + 1), months@[k]@)
                        && sums@[k] as int <= (i + 1) * 10_000_000_000_000_000_000 by {
                        assert(month_millis(*stats, ss.take(i + 1), months@[k]@) == month_millis(*stats, ss.take(i as int), months@[k]@) + adds_to(*stats, ss[i as int], months@[k]@));
                        if k < prev_months.len() {
                            assert(months@[k] == prev_months[k]);
                            assert(prev_months[k]@ != month@);
                        }
                    }
                    assert forall|a: int, b: int|
                        0 <= a < months@.len() && 0 <= b < months@.len() && (#[trigger] months@[a])@ == (
                        #[trigger] months@[b])@ implies a == b by {
                        if a < prev_months.len() && b < prev_months.len() {
                            assert(months@[a] == prev_months[a] && months@[b] == prev_months[b]);
                        } else if a < prev_months.len() {
                            assert(months@[a] == prev_months[a]);
                        } else if b < prev_months.len() {
                            assert(months@[b] == prev_months[b]);
                        }
                    }
                }
            }
            proof {
                assert forall|m: Seq<char>| #[trigger] month_seen(*stats, ss.take(i + 1), m) implies exists|k: int|
                    0 <= k < months@.len() && (#[trigger] months@[k])@ == m by {
                    if m == month@ {
                        assert(months@[j as int]@ == m);
                    } else {
                        assert(month_seen(*stats, ss.take(i as int), m));
                        let k = choose|k: int| 0 <= k < months0.len() && (#[trigger] months0[k])@ == m;
                        assert(months@[k] == months0[k]);
                    }
                }
            }
        } else {
            proof {
                assert forall|k: int| 0 <= k < months@.len() implies month_seen(*stats, ss.take(i + 1), (#[trigger] months@[k])@)
                    && sums@[k] as int == month_millis(*stats, ss.take(i + 1), months@[k]@)
                    && sums@[k] as int <= (i + 1) * 10_000_000_000_000_000_000 by {
                    assert(month_millis(*stats, ss.take(i + 1), months@[k]@) == month_millis(*stats, ss.take(i as int), months@[k]@) + adds_to(*stats, ss[i as int], months@[k]@));
                }
            }
        }
        i = i + 1;
    }
    assert(ss.take(ss.len() as int) =~= ss);
    assert(i as int == ss.len());
    assert forall|x: int| 0 <= x < sums@.len() implies (#[trigger] sums@[x]) as int <= ss.len() * 10_000_000_000_000_000_000 by {
        assert(month_seen(*stats, ss.take(i as int), months@[x]@));
        assert(sums@[x] as int <= i as int * 10_000_000_000_000_000_000);
    }
    let mut r: Vec<MonthTotal> = Vec::new();
    let mut k: usize = 0;
    while k < months.len()
        invariant
            k <= months@.len(),
            months@.len() == sums@.len(),
            r@.len() == k,
            ss.len() <= usize::MAX,
            forall|x: int| 0 <= x < sums@.len() ==> (#[trigger] sums@[x]) as int <= ss.len() * 10_000_000_000_000_000_000,
            forall|x: int| 0 <= x < k ==> (#[trigger] r@[x]).month@ == months@[x]@
                && r@[x].minutes as int == rounded_minutes(sums@[x] as int),
        decreases months@.len() - k,
    {
        let total = sums[k];
        assert(total as int + 500 < 0xffff_ffff_ffff_ffff_ffff_ffff_ffff_ffff) by (nonlinear_arith)
            requires
                total as int <= ss.len() * 10_000_000_000_000_000_000,
                ss.len() <= usize::MAX,
        ;
        let rounded = (total + 500) / 1000;
        let minutes: u32 = if rounded > 0xffff_ffff {
            0xffff_ffff
        } else {
            rounded as u32
        };
        r.push(MonthTotal { month: months[k].clone(), minutes });
        k = k + 1;
    }
    proof {
        assert forall|a: int, b: int|
            0 <= a < r@.len() && 0 <= b < r@.len() && (#[trigger] r@[a]).month@ == (#[trigger] r@[b]).month@
            implies a == b by {
            assert(months@[a]@ == months@[b]@);
        }
        assert forall|m: Seq<char>| #[trigger] month_seen(*stats, sessions@, m) implies exists|x: int|
            0 <= x < r@.len() && (#[trigger] r@[x]).month@ == m by {
            let x = choose|x: int| 0 <= x < months@.len() && (#[trigger] months@[x])@ == m;
            assert(r@[x].month@ == m);
        }
    }
    r
}

/// A month that no counted session began in sums to nothing.
proof fn lemma_unseen_zero(stats: ConfigStats, ss: Seq<AtcSession>, month: Seq<char>)
    requires
        !month_seen(stats, ss, month),
    ensures
        month_millis(stats, ss, month) == 0,
    decreases ss.len(),
{
    if ss.len() > 0 {
        assert(!month_seen(stats, ss.drop_last(), month)) by {
            if month_seen(stats, ss.drop_last(), month) {
                let x = choose|x: int|
                    0 <= x < ss.drop_last().len() && counted(stats, #[trigger] ss.drop_last()[x])
                        && session_month(ss.drop_last()[x]) == Some(month);
                assert(ss[x] == ss.drop_last()[x]);
            }
        }
        lemma_unseen_zero(stats, ss.drop_last(), month);
        assert(!(counted(stats, ss[ss.len() - 1]) && session_month(ss[ss.len() - 1]) == Some(month)));
    }
}

/// An activity row: the minutes a controller controlled in one month.
#[derive(Debug)]
pub struct Activity {
    pub cid: u32,
    pub month: String,
    pub minutes: u32,
}

/// An activity row as a value.
pub struct ActivityView {
    pub cid: u32,
    pub month: Seq<char>,
    pub minutes: u32,
}

impl View for Activity {
    type V = ActivityView;

    open spec fn view(&self) -> ActivityView {
        ActivityView { cid: self.cid, month: self.month@, minutes: self.minutes }
    }
}

/// The rows of an activity table, as values.
pub open spec fn activity_rows(v: Seq<Activity>) -> Seq<ActivityView> {
    v.map_values(|a: Activity| a@)
}

/// Whether a row belongs to a controller other than `cid`.
pub open spec fn not_cid(cid: u32) -> spec_fn(ActivityView) -> bool {
    |a: ActivityView| a.cid != cid
}

/// The rows that record the totals for `cid`.
pub open spec fn rows_for_totals(cid: u32, totals: Seq<MonthTotal>) -> Seq<ActivityView> {
    totals.map_values(|t: MonthTotal| ActivityView { cid, month: t.month@, minutes: t.minutes })
}

/// Delete every activity row of `cid`.
fn delete_activity_for(activity: &mut Vec<Activity>, cid: u32)
    ensures
        activity_rows(final(activity)@) == activity_rows(old(activity)@).filter(not_cid(cid)),
{
    let ghost before = activity_rows(activity@);
    let mut kept: Vec<Activity> = Vec::new();
    let mut queue: Vec<Activity> = Vec::new();
    std::mem::swap(&mut queue, activity);
    let n = queue.len();
    let mut i: usize = 0;
    while queue.len() > 0
        invariant
            queue@.len() + i == n,
            n == before.len(),
            activity_rows(queue@) =~= before.subrange(i as int, n as int),
            activity_rows(kept@) == before.subrange(0, i as int).filter(not_cid(cid)),
        decreases queue@.len(),
    {
        let ghost q0 = queue@;
        let a = queue.remove(0);
        assert(activity_rows(q0)[0] == a@);
        assert(a@ == before[i as int]);
        assert(activity_rows(queue@) =~= before.subrange(i + 1, n as int)) by {
            assert(queue@ =~= q0.subrange(1, q0.len() as int));
            assert forall|x: int| 0 <= x < queue@.len() implies activity_rows(queue@)[x] == before.subrange(i + 1, n as int)[x] by {
                assert(queue@[x] == q0[x + 1]);
                assert(activity_rows(q0)[x + 1] == before.subrange(i as int, n as int)[x + 1]);
            }
        }
        assert(before.subrange(0, i + 1) =~= before.subrange(0, i as int).push(a@));
        proof {
            before.subrange(0, i as int).lemma_filter_push(a@, not_cid(cid));
        }
        let ghost prev = kept@;
        if a.cid != cid {
            kept.push(a);
            assert(activity_rows(kept@) =~= activity_rows(prev).push(before[i as int]));
        }
        i = i + 1;
    }
    assert(before.subrange(0, n as int) =~= before);
    *activity = kept;
}

/// Replace the whole activity history of a controller with totals
/// freshly computed from the sessions. Rows of other controllers stay.
/// Returns the totals written.
pub fn true_up_single_activity(
    activity: &mut Vec<Activity>,
    stats: &ConfigStats,
    cid: u32,
    sessions: &Vec<AtcSession>,
) -> (r: Vec<MonthTotal>)
    ensures
        totals_of(*stats, sessions@, r@),
        activity_rows(final(activity)@) == activity_rows(old(activity)@).filter(not_cid(cid))
            + rows_for_totals(cid, r@),
{
    let totals = aggregate_sessions(stats, sessions);
    delete_activity_for(activity, cid);
    let ghost base = activity_rows(activity@);
    let mut k: usize = 0;
    while k < totals.len()
        invariant
            k <= totals@.len(),
            activity_rows(activity@) == base + rows_for_totals(cid, totals@.take(k as int)),
        decreases totals@.len() - k,
    {
        let row = Activity { cid, month: totals[k].month.clone(), minutes: totals[k].minutes };
        let ghost prev = activity@;
        activity.push(row);
        assert(activity_rows(activity@) =~= activity_rows(prev).push(row@));
        assert(rows_for_totals(cid, totals@.take(k + 1)) =~= rows_for_totals(cid, totals@.take(k as int)).push(row@));
        assert(activity_rows(activity@) =~= base + rows_for_totals(cid, totals@.take(k + 1)));
        k = k + 1;
    }
    assert(totals@.take(totals@.len() as int) =~= totals@);
    totals
}

/// The length of all counted sessions, in thousandths of a minute.
pub open spec fn counted_millis(stats: ConfigStats, ss: Seq<AtcSession>) -> int
    decreases ss.len(),
{
    if ss.len() == 0 {
        0
    } else {
        counted_millis(stats, ss.drop_last()) + if counted(stats, ss.last()) {
            session_millis(ss.last())
        } else {
            0
        }
    }
}

/// This month's minutes of a controller who is online: the counted sessions
/// so far and the seconds since the current login (none if the login lies
/// ahead), rounded half up and held to what a `u32` can count.
pub open spec fn live_minutes(millis: int, online_secs: int) -> int {
    let ms = millis * 60 + (if online_secs > 0 {
        online_secs
    } else {
        0
    }) * 1000;
    if (ms + 30000) / 60000 > u32::MAX as int {
        u32::MAX as int
    } else {
        (ms + 30000) / 60000
    }
}

/// The table with the row of (`cid`, `month`) set to `minutes`, or such a
/// row added where there is none.
pub open spec fn upsert_month(rows: Seq<ActivityView>, cid: u32, month: Seq<char>, minutes: u32) -> Seq<
    ActivityView,
> {
    if exists|i: int| 0 <= i < rows.len() && rows[i].cid == cid && rows[i].month == month {
        rows.map_values(
            |a: ActivityView|
                if a.cid == cid && a.month == month {
                    ActivityView { minutes, ..a }
                } else {
                    a
                },
        )
    } else {
        rows.push(ActivityView { cid, month, minutes })
    }
}

/// Why the activity of an online controller could not be updated.
#[derive(Clone, Copy, PartialEq, Eq, Structural, Debug)]
pub enum ActivityError {
    /// The login time is not an RFC 3339 text.
    BadLogonTime,
}

/// The largest sum of session lengths that is tracked exactly; any larger
/// sum gives the largest count of minutes anyway.
const MILLIS_CAP: u128 = 0x1_0000_0000_0000_0000;

/// Sum the counted sessions' lengths, held to just above the cap.
fn counted_sum(stats: &ConfigStats, sessions: &Vec<AtcSession>) -> (r: u128)
    ensures
        r as int == if counted_millis(*stats, sessions@) > MILLIS_CAP as int {
            MILLIS_CAP as int + 1
        } else {
            counted_millis(*stats, sessions@)
        },
{
    let ghost ss = sessions@;
    let mut sum: u128 = 0;
    let mut i: usize = 0;
    while i < sessions.len()
        invariant
            i <= ss.len(),
            ss == sessions@,
            sum as int == if counted_millis(*stats, ss.take(i as int)) > MILLIS_CAP as int {
                MILLIS_CAP as int + 1
            } else {
                counted_millis(*stats, ss.take(i as int))
            },
            counted_millis(*stats, ss.take(i as int)) >= 0,
        decreases ss.len() - i,
    {
        let s = &sessions[i];
        assert(ss.take(i + 1).drop_last() =~= ss.take(i as int));
        assert(ss.take(i + 1).last() == *s);
        let mut v: u64 = 0;
        let mut counts = false;
        if position_in_facility_airspace(stats, s.callsign.as_str()) && s.start.unicode_len() >= 7 {
            match parse_minutes_millis(s.minutes_on_callsign.as_str()) {
                Some(x) => {
                    v = x;
                    counts = true;
                },
                None => {},
            }
        }
        assert(counts == counted(*stats, *s));
        if counts {
            assert(v as int == session_millis(*s));
            assert(v as int >= 0);
            if sum + v as u128 > MILLIS_CAP {
                sum = MILLIS_CAP + 1;
            } else {
                sum = sum + v as u128;
            }
        }
        i = i + 1;
    }
    assert(ss.take(ss.len() as int) =~= ss);
    sum
}

/// Update this month's activity of one controller who is online.
pub fn update_single_activity(
    activity: &mut Vec<Activity>,
    stats: &ConfigStats,
    cid: u32,
    month: &str,
    sessions: &Vec<AtcSession>,
    logon_time: &str,
    now: i64,
) -> (r: Result<u32, ActivityError>)
    ensures
        match rfc3339_seconds(logon_time@) {
            None => r == Err::<u32, ActivityError>(ActivityError::BadLogonTime) && final(activity)@
                == old(activity)@,
            Some(t) => r is Ok && r.unwrap() as int == live_minutes(
                counted_millis(*stats, sessions@),
                now - t,
            ) && activity_rows(final(activity)@) == upsert_month(
                activity_rows(old(activity)@),
                cid,
                month@,
                r.unwrap(),
            ),
        },
{
    let logon = match parse_rfc3339_seconds(logon_time) {
        Some(t) => t,
        None => {
            return Err(ActivityError::BadLogonTime);
        },
    };
    let sum = counted_sum(stats, sessions);
    let online: i128 = now as i128 - logon as i128;
    let secs: u128 = if online > 0 {
        online as u128
    } else {
        0
    };
    let ms: u128 = sum * 60 + secs * 1000;
    let rounded = (ms + 30000) / 60000;
    let minutes: u32 = if rounded > 0xffff_ffff {
        0xffff_ffff
    } else {
        rounded as u32
    };
    proof {
        let m = counted_millis(*stats, sessions@);
        if m > MILLIS_CAP as int {
            assert((m * 60 + secs * 1000 + 30000) / 60000 > u32::MAX as int) by (nonlinear_arith)
                requires
                    m > 0x1_0000_0000_0000_0000,
                    secs >= 0,
            ;
            assert((ms + 30000) / 60000 > u32::MAX as int) by (nonlinear_arith)
                requires
                    ms == (0x1_0000_0000_0000_0001 * 60 + secs * 1000),
                    secs >= 0,
            ;
        }
    }
    let ghost rows0 = activity_rows(activity@);
    let mut i: usize = 0;
    while i < activity.len() && !(activity[i].cid == cid && crate::text::same_text(
        activity[i].month.as_str(),
        month,
    ))
        invariant
            i <= activity@.len(),
            rows0 == activity_rows(activity@),
            forall|k: int| 0 <= k < i ==> !((#[trigger] activity@[k]).cid == cid && activity@[k].month@ == month@),
        decreases activity@.len() - i,
    {
        i = i + 1;
    }
    let ghost target = upsert_month(rows0, cid, month@, minutes);
    if i < activity.len() {
        let mut j: usize = i;
        while j < activity.len()
            invariant
                i <= j <= activity@.len(),
                activity@.len() == rows0.len(),
                rows0[i as int].cid == cid && rows0[i as int].month == month@,
                target == upsert_month(rows0, cid, month@, minutes),
                forall|k: int| 0 <= k < j ==> (#[trigger] activity_rows(activity@)[k]) == target[k],
                forall|k: int| j <= k < rows0.len() ==> (#[trigger] activity_rows(activity@)[k]) == rows0[k],
            decreases activity@.len() - j,
        {
            let ghost prev = activity@;
            let hit = activity[j].cid == cid && crate::text::same_text(activity[j].month.as_str(), month);
            assert(activity_rows(prev)[j as int] == rows0[j as int]);
            if hit {
                let row = Activity { cid, month: activity[j].month.clone(), minutes };
                activity.set(j, row);
            }
            proof {
                assert(exists|x: int| 0 <= x < rows0.len() && rows0[x].cid == cid && rows0[x].month == month@);
                assert(target[j as int] == activity_rows(activity@)[j as int]);
                assert forall|k: int| 0 <= k < j + 1 implies (#[trigger] activity_rows(activity@)[k]) == target[k] by {
                    if k < j {
                        assert(activity_rows(activity@)[k] == activity_rows(prev)[k]);
                    }
                }
                assert forall|k: int| j + 1 <= k < rows0.len() implies (#[trigger] activity_rows(activity@)[k]) == rows0[k] by {
                    assert(activity_rows(activity@)[k] == activity_rows(prev)[k]);
                }
            }
            j = j + 1;
        }
        assert(activity_rows(activity@) =~= target);
    } else {
        activity.push(Activity { cid, month: String::from_str(month), minutes });
        assert(activity_rows(activity@) =~= target);
    }
    Ok(minutes)
}

/// Whether an online controller's activity is updated: the controller is
/// on the roster and on a position of the facility.
pub fn should_spot_update(on_roster_cids: &Vec<u32>, stats: &ConfigStats, cid: u32, callsign: &str) -> (r: bool)
    ensures
        r == (on_roster_cids@.contains(cid) && in_airspace(*stats, callsign@)),
{
    crate::certs::listed(on_roster_cids, cid) && position_in_facility_airspace(stats, callsign)
}

/// Whether a row belongs to `cid`.
pub open spec fn of_cid(cid: u32) -> spec_fn(ActivityView) -> bool {
    |a: ActivityView| a.cid == cid
}

proof fn lemma_filter_keeps_all(s: Seq<ActivityView>, cid: u32)
    requires
        forall|i: int| 0 <= i < s.len() ==> (#[trigger] s[i]).cid == cid,
    ensures
        s.filter(of_cid(cid)) == s,
    decreases s.len(),
{
    reveal(Seq::filter);
    if s.len() > 0 {
        lemma_filter_keeps_all(s.drop_last(), cid);
        assert(s.drop_last().push(s.last()) =~= s);
    }
}

/// After a full activity synchronization of `cid`, the rows of `cid` are
/// exactly the freshly computed totals: no month from before survives.
pub proof fn lemma_replace_all(rows: Seq<ActivityView>, cid: u32, totals: Seq<MonthTotal>)
    ensures
        (rows.filter(not_cid(cid)) + rows_for_totals(cid, totals)).filter(of_cid(cid))
            == rows_for_totals(cid, totals),
{
    let others = rows.filter(not_cid(cid));
    let fresh = rows_for_totals(cid, totals);
    Seq::filter_distributes_over_add(others, fresh, of_cid(cid));
    assert forall|i: int| 0 <= i < others.len() implies !of_cid(cid)(#[trigger] others[i]) by {
        rows.lemma_filter_pred(not_cid(cid), i);
    }
    others.lemma_all_neg_filter_empty(of_cid(cid));
    lemma_filter_keeps_all(fresh, cid);
    assert(others.filter(of_cid(cid)) =~= Seq::<ActivityView>::empty());
    assert(others.filter(of_cid(cid)) + fresh =~= fresh);
}

/// One month of a controller's activity report.
#[derive(Clone, Copy, PartialEq, Eq, Structural, Debug)]
pub struct ActivityMonth {
    pub value: u32,
    pub position: Option<u8>,
}

impl From<u32> for ActivityMonth {
    fn from(value: u32) -> (r: Self) {
        ActivityMonth { value, position: None }
    }
}

impl vstd::std_specs::convert::FromSpecImpl<u32> for ActivityMonth {
    open spec fn obeys_from_spec() -> bool {
        true
    }

    open spec fn from_spec(v: u32) -> ActivityMonth {
        ActivityMonth { value: v, position: None }
    }
}

/// The minutes that the rows record for `cid` in `month`.
pub open spec fn minutes_in(rows: Seq<ActivityView>, cid: u32, month: Seq<char>) -> int
    decreases rows.len(),
{
    if rows.len() == 0 {
        0
    } else {
        minutes_in(rows.drop_last(), cid, month) + if rows.last().cid == cid && rows.last().month
            == month {
            rows.last().minutes as int
        } else {
            0
        }
    }
}

/// `v`, held to what a `u32` can count.
pub open spec fn capped(v: int) -> int {
    if v > u32::MAX as int {
        u32::MAX as int
    } else {
        v
    }
}

/// The minutes of `cid` in `month`, held to what a `u32` can count.
fn month_minutes(activity: &Vec<Activity>, cid: u32, month: &str) -> (r: u32)
    ensures
        r as int == capped(minutes_in(activity_rows(activity@), cid, month@)),
{
    let ghost rows = activity_rows(activity@);
    let mut sum: u64 = 0;
    let mut i: usize = 0;
    while i < activity.len()
        invariant
            i <= activity@.len(),
            rows == activity_rows(activity@),
            minutes_in(rows.take(i as int), cid, month@) >= 0,
            sum as int == if minutes_in(rows.take(i as int), cid, month@) > u32::MAX as int {
                u32::MAX as int + 1
            } else {
                minutes_in(rows.take(i as int), cid, month@)
            },
        decreases activity@.len() - i,
    {
        assert(rows.take(i + 1).drop_last() =~= rows.take(i as int));
        assert(rows.take(i + 1).last() == activity@[i as int]@);
        if activity[i].cid == cid && crate::text::same_text(activity[i].month.as_str(), month) {
            let add = activity[i].minutes as u64;
            if sum + add > 0xffff_ffff {
                sum = 0x1_0000_0000;
            } else {
                sum = sum + add;
            }
        }
        i = i + 1;
    }
    assert(rows.take(rows.len() as int) =~= rows);
    if sum > 0xffff_ffff {
        0xffff_ffff
    } else {
        sum as u32
    }
}

/// The months of a controller's activity report, one per month asked for.
pub fn activity_months(activity: &Vec<Activity>, cid: u32, months: &Vec<String>) -> (r: Vec<ActivityMonth>)
    ensures
        r@.len() == months@.len(),
        forall|k: int|
            0 <= k < r@.len() ==> (#[trigger] r@[k]).value as int == capped(
                minutes_in(activity_rows(activity@), cid, months@[k]@),
            ) && r@[k].position is None,
{
    let mut r: Vec<ActivityMonth> = Vec::new();
    let mut k: usize = 0;
    while k < months.len()
        invariant
            k <= months@.len(),
            r@.len() == k,
            forall|j: int|
                0 <= j < k ==> (#[trigger] r@[j]).value as int == capped(
                    minutes_in(activity_rows(activity@), cid, months@[j]@),
                ) && r@[j].position is None,
        decreases months@.len() - k,
    {
        let v = month_minutes(activity, cid, months[k].as_str());
        r.push(ActivityMonth::from(v));
        k = k + 1;
    }
    r
}

/// The minutes of the first three months of a report.
pub open spec fn first_three_total(ms: Seq<ActivityMonth>) -> int {
    (if ms.len() > 0 {
        ms[0].value as int
    } else {
        0
    }) + (if ms.len() > 1 {
        ms[1].value as int
    } else {
        0
    }) + (if ms.len() > 2 {
        ms[2].value as int
    } else {
        0
    })
}

/// Whether a report shows too little activity: under three hours over its
/// first three months.
pub fn currency_violation(months: &Vec<ActivityMonth>) -> (r: bool)
    ensures
        r == (first_three_total(months@) < 180),
{
    let mut total: u64 = 0;
    if months.len() > 0 {
        total = total + months[0].value as u64;
    }
    if months.len() > 1 {
        total = total + months[1].value as u64;
    }
    if months.len() > 2 {
        total = total + months[2].value as u64;
    }
    total < 180
}

} // verus!
