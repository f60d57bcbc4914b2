//! Pruning of old no-show entries.

use vstd::prelude::*;
use crate::time::{add_months, months_after};

verus! {

/// A recorded no-show.
#[derive(Debug)]
pub struct NoShow {
    pub id: u32,
    pub cid: u32,
    pub reported_by: u32,
    pub entry_type: String,
    pub created_date: i64,
    pub notified: bool,
    pub notes: Option<String>,
}

/// Whether a no-show entry has expired at `now`: six calendar months after
/// it was made lie before `now`.
pub open spec fn no_show_expired(e: NoShow, now: i64) -> bool {
    match months_after(e.created_date, 6) {
        Some(t) => t < now,
        None => false,
    }
}

/// Whether a no-show entry stays after a sweep at `now`.
pub open spec fn no_show_kept(now: i64) -> spec_fn(NoShow) -> bool {
    |e: NoShow| !no_show_expired(e, now)
}

/// Whether the expiration of a no-show entry cannot be computed.
pub open spec fn no_show_undated() -> spec_fn(NoShow) -> bool {
    |e: NoShow| months_after(e.created_date, 6) is None
}

/// Delete every no-show entry that has expired at `now`. An entry whose
/// expiration cannot be computed stays; the ids of those are returned.
pub fn check_expired(no_shows: &mut Vec<NoShow>, now: i64) -> (r: Vec<u32>)
    ensures
        final(no_shows)@ == old(no_shows)@.filter(no_show_kept(now)),
        r@ == old(no_shows)@.filter(no_show_undated()).map_values(|e: NoShow| e.id),
{
    let ghost before = no_shows@;
    let mut kept: Vec<NoShow> = Vec::new();
    let mut undated: Vec<u32> = Vec::new();
    let mut queue: Vec<NoShow> = Vec::new();
    std::mem::swap(&mut queue, no_shows);
    let n = queue.len();
    let mut i: usize = 0;
    while queue.len() > 0
        invariant
            queue@.len() + i == n,
            n == before.len(),
            queue@ =~= before.subrange(i as int, n as int),
            kept@ == before.subrange(0, i as int).filter(no_show_kept(now)),
            undated@ == before.subrange(0, i as int).filter(no_show_undated()).map_values(|e: NoShow| e.id),
        decreases queue@.len(),
    {
        let e = queue.remove(0);
        assert(e == before[i as int]);
        let ghost pre = before.subrange(0, i as int);
        assert(before.subrange(0, i + 1) =~= pre.push(e));
        proof {
            pre.lemma_filter_push(e, no_show_kept(now));
            pre.lemma_filter_push(e, no_show_undated());
        }
        let ghost prev_undated = undated@;
        let expires = add_months(e.created_date, 6);
        match expires {
            Some(t) => {
                if !(t < now) {
                    kept.push(e);
                }
                assert(undated@ =~= before.subrange(0, i + 1).filter(no_show_undated()).map_values(|e: NoShow| e.id));
            },
            None => {
                undated.push(e.id);
                assert(undated@ =~= before.subrange(0, i + 1).filter(no_show_undated()).map_values(|e: NoShow| e.id));
                kept.push(e);
            },
        }
        i = i + 1;
    }
    assert(before.subrange(0, n as int) =~= before);
    *no_shows = kept;
    undated
}
} // verus!
