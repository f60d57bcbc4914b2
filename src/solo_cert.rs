//! Expiration of solo certifications, and its cascade into the
//! certification rows.

use vstd::prelude::*;
use crate::certs::{cert_rows, CertValue, Certification, CertificationView};

verus! {


/// A time-boxed authorization to work a position without supervision.
#[derive(Debug)]
pub struct SoloCert {
    pub id: u32,
    pub cid: u32,
    pub issued_by: u32,
    pub position: String,
    pub reported: bool,
    pub created_date: i64,
    pub expiration_date: i64,
}

/// Whether a solo certification has expired at `now`.
pub open spec fn solo_expired(s: SoloCert, now: i64) -> bool {
    s.expiration_date < now
}

/// Whether an expired solo certification of `solos` covers the row `c`,
/// and `c` is at the solo level.
pub open spec fn reverted_by(solos: Seq<SoloCert>, now: i64, c: CertificationView) -> bool {
    c.value == CertValue::Solo && exists|i: int|
        0 <= i < solos.len() && solo_expired(#[trigger] solos[i], now) && solos[i].cid == c.cid
            && solos[i].position@ == c.name
}

/// The row set back from solo to training, its date and author kept.
pub open spec fn to_training(c: CertificationView) -> CertificationView {
    CertificationView { value: CertValue::Training, ..c }
}

/// The certification rows after the expired solo certifications are swept.
pub open spec fn after_solo_sweep(certs: Seq<CertificationView>, solos: Seq<SoloCert>, now: i64) -> Seq<
    CertificationView,
> {
    certs.map_values(
        |c: CertificationView|
            if reverted_by(solos, now, c) {
                to_training(c)
            } else {
                c
            },
    )
}

/// Whether a solo certification is still in force at `now`.
pub open spec fn solo_current(now: i64) -> spec_fn(SoloCert) -> bool {
    |s: SoloCert| !solo_expired(s, now)
}

/// Set back to training every solo-level row that `s` covers.
fn revert_for(certs: &mut Vec<Certification>, s: &SoloCert)
    ensures
        cert_rows(final(certs)@) == cert_rows(old(certs)@).map_values(
            |c: CertificationView|
                if c.value == CertValue::Solo && c.cid == s.cid && c.name == s.position@ {
                    to_training(c)
                } else {
                    c
                },
        ),
{
    let ghost before = cert_rows(certs@);
    let ghost target = before.map_values(
        |c: CertificationView|
            if c.value == CertValue::Solo && c.cid == s.cid && c.name == s.position@ {
                to_training(c)
            } else {
                c
            },
    );
    let mut j: usize = 0;
    while j < certs.len()
        invariant
            j <= certs@.len(),
            certs@.len() == before.len(),
            target.len() == before.len(),
            forall|k: int| 0 <= k < before.len() ==> #[trigger] target[k] == (if before[k].value == CertValue::Solo
                && before[k].cid == s.cid && before[k].name == s.position@ {
                to_training(before[k])
            } else {
                before[k]
            }),
            forall|k: int| 0 <= k < j ==> (#[trigger] cert_rows(certs@)[k]) == target[k],
            forall|k: int| j <= k < before.len() ==> (#[trigger] cert_rows(certs@)[k]) == before[k],
        decreases certs@.len() - j,
    {
        let ghost prev = certs@;
        assert(cert_rows(prev)[j as int] == before[j as int]);
        if certs[j].value == CertValue::Solo && certs[j].cid == s.cid && crate::text::same_text(
            certs[j].name.as_str(),
            s.position.as_str(),
        ) {
            let row = Certification {
                id: certs[j].id,
                cid: certs[j].cid,
                name: certs[j].name.clone(),
                value: CertValue::Training,
                changed_on: certs[j].changed_on,
                set_by: certs[j].set_by,
            };
            certs.set(j, row);
        }
        proof {
            assert(target[j as int] == cert_rows(certs@)[j as int]);
            assert forall|k: int| 0 <= k < j + 1 implies (#[trigger] cert_rows(certs@)[k]) == target[k] by {
                if k < j {
                    assert(cert_rows(certs@)[k] == cert_rows(prev)[k]);
                }
            }
            assert forall|k: int| j + 1 <= k < before.len() implies (#[trigger] cert_rows(certs@)[k]) == before[k] by {
                assert(cert_rows(certs@)[k] == cert_rows(prev)[k]);
            }
        }
        j = j + 1;
    }
    assert(cert_rows(certs@) =~= target);
}

/// Delete every solo certification that has expired at `now`, and set the
/// controller's certification on that position back from solo to
/// training, keeping when and by whom it was granted.
pub fn check_expired(
    solo_certs: &mut Vec<SoloCert>,
    certs: &mut Vec<Certification>,
    now: i64,
)
    ensures
        final(solo_certs)@ == old(solo_certs)@.filter(solo_current(now)),
        cert_rows(final(certs)@) == after_solo_sweep(cert_rows(old(certs)@), old(solo_certs)@, now),
{
    let ghost before = solo_certs@;
    let ghost certs0 = cert_rows(certs@);
    let mut kept: Vec<SoloCert> = Vec::new();
    let mut queue: Vec<SoloCert> = Vec::new();
    std::mem::swap(&mut queue, solo_certs);
    let n = queue.len();
    let mut i: usize = 0;
    while queue.len() > 0
        invariant
            queue@.len() + i == n,
            n == before.len(),
            queue@ =~= before.subrange(i as int, n as int),
            kept@ == before.subrange(0, i as int).filter(solo_current(now)),
            cert_rows(certs@) == after_solo_sweep(certs0, before.subrange(0, i as int), now),
        decreases queue@.len(),
    {
        let s = queue.remove(0);
        assert(s == before[i as int]);
        let ghost pre = before.subrange(0, i as int);
        let ghost pre1 = before.subrange(0, i + 1);
        assert(pre1 =~= pre.push(s));
        proof {
            pre.lemma_filter_push(s, solo_current(now));
        }
        let ghost mid = cert_rows(certs@);
        if s.expiration_date < now {
            revert_for(certs, &s);
            proof {
                assert forall|x: int| 0 <= x < certs0.len() implies cert_rows(certs@)[x]
                    == after_solo_sweep(certs0, pre1, now)[x] by {
                    let c = certs0[x];
                    if reverted_by(pre, now, c) {
                        let w = choose|w: int| 0 <= w < pre.len() && solo_expired(#[trigger] pre[w], now) && pre[w].cid == c.cid
                            && pre[w].position@ == c.name;
                        assert(pre1[w] == pre[w]);
                    }
                    if reverted_by(pre1, now, c) && !reverted_by(pre, now, c) {
                        let w = choose|w: int| 0 <= w < pre1.len() && solo_expired(#[trigger] pre1[w], now) && pre1[w].cid == c.cid
                            && pre1[w].position@ == c.name;
                        if w < i {
                            assert(pre[w] == pre1[w]);
                        }
                    }
                    if c.value == CertValue::Solo && c.cid == s.cid && c.name == s.position@ {
                        assert(pre1[i as int] == s);
                    }
                }
                assert(cert_rows(certs@) =~= after_solo_sweep(certs0, pre1, now));
            }
            i = i + 1;
        } else {
            kept.push(s);
            proof {
                assert forall|x: int| 0 <= x < certs0.len() implies reverted_by(pre1, now, certs0[x])
                    == reverted_by(pre, now, certs0[x]) by {
                    let c = certs0[x];
                    if reverted_by(pre, now, c) {
                        let w = choose|w: int| 0 <= w < pre.len() && solo_expired(#[trigger] pre[w], now) && pre[w].cid == c.cid
                            && pre[w].position@ == c.name;
                        assert(pre1[w] == pre[w]);
                    }
                    if reverted_by(pre1, now, c) {
                        let w = choose|w: int| 0 <= w < pre1.len() && solo_expired(#[trigger] pre1[w], now) && pre1[w].cid == c.cid
                            && pre1[w].position@ == c.name;
                        if w < i {
                            assert(pre[w] == pre1[w]);
                        }
                    }
                }
                assert(after_solo_sweep(certs0, pre1, now) =~= after_solo_sweep(certs0, pre, now));
            }
            i = i + 1;
        }
    }
    assert(before.subrange(0, n as int) =~= before);
    *solo_certs = kept;
}


/// A sweep after a solo certification expired deletes it and sets the
/// controller's solo-level certification on that position back to
/// training, with its date and author kept.
pub proof fn lemma_solo_expiry_cascade(
    certs: Seq<CertificationView>,
    solos: Seq<SoloCert>,
    now: i64,
    i: int,
    x: int,
)
    requires
        0 <= i < solos.len(),
        solo_expired(solos[i], now),
        0 <= x < certs.len(),
        certs[x].value == CertValue::Solo,
        certs[x].cid == solos[i].cid,
        certs[x].name == solos[i].position@,
    ensures
        after_solo_sweep(certs, solos, now)[x].value == CertValue::Training,
        after_solo_sweep(certs, solos, now)[x] == to_training(certs[x]),
        !solos.filter(solo_current(now)).contains(solos[i]),
{
    assert(reverted_by(solos, now, certs[x]));
    let kept = solos.filter(solo_current(now));
    if kept.contains(solos[i]) {
        let k = choose|k: int| 0 <= k < kept.len() && kept[k] == solos[i];
        solos.lemma_filter_pred(solo_current(now), k);
    }
}


} // verus!
