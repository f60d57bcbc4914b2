//! Certification rows, and the policies that change them as a side effect
//! of roster and solo-certification events.

use vstd::prelude::*;

verus! {

/// The level of a controller on one certification.
#[derive(Clone, Copy, PartialEq, Eq, Structural, Debug)]
pub enum CertValue {
    Unrated,
    Training,
    Solo,
    Certified,
}

/// One certification row of a controller.
#[derive(Debug)]
pub struct Certification {
    pub id: u32,
    pub cid: u32,
    pub name: String,
    pub value: CertValue,
    pub changed_on: i64,
    pub set_by: u32,
}

/// A certification row as a value.
pub struct CertificationView {
    pub id: u32,
    pub cid: u32,
    pub name: Seq<char>,
    pub value: CertValue,
    pub changed_on: i64,
    pub set_by: u32,
}

impl View for Certification {
    type V = CertificationView;

    open spec fn view(&self) -> CertificationView {
        CertificationView {
            id: self.id,
            cid: self.cid,
            name: self.name@,
            value: self.value,
            changed_on: self.changed_on,
            set_by: self.set_by,
        }
    }
}

impl Certification {
    /// A copy of the row.
    pub fn duplicate(&self) -> (r: Certification)
        ensures
            r@ == self@,
    {
        Certification {
            id: self.id,
            cid: self.cid,
            name: self.name.clone(),
            value: self.value,
            changed_on: self.changed_on,
            set_by: self.set_by,
        }
    }
}

/// The certification rows of a table, as values.
pub open spec fn cert_rows(v: Seq<Certification>) -> Seq<CertificationView> {
    v.map_values(|c: Certification| c@)
}

/// Whether the table holds a row for `cid`.
pub open spec fn holds_certs(rows: Seq<CertificationView>, cid: u32) -> bool {
    exists|i: int| 0 <= i < rows.len() && rows[i].cid == cid
}

/// When the certifications of a controller who left the roster are deleted.
///
/// The long-standing behaviour deletes them only when the controller holds
/// none, which reads as the inverse of its evident purpose; the other
/// policy deletes them when the controller holds any. The choice is left to
/// the facility.
#[derive(Clone, Copy, PartialEq, Eq, Structural, Debug)]
pub enum OffRosterCertPolicy {
    /// Delete only when the controller holds no certification row.
    StripWhenNoneHeld,
    /// Delete whenever the controller holds a certification row.
    StripWhenAnyHeld,
}

/// Whether the policy deletes the rows of a controller who holds some
/// (`held`) or none.
pub open spec fn strips(policy: OffRosterCertPolicy, held: bool) -> bool {
    match policy {
        OffRosterCertPolicy::StripWhenNoneHeld => !held,
        OffRosterCertPolicy::StripWhenAnyHeld => held,
    }
}

impl OffRosterCertPolicy {
    /// Whether the certification rows of a controller who left the roster
    /// are to be deleted, given whether the controller holds any.
    pub fn strip_certifications(&self, held: bool) -> (r: bool)
        ensures
            r == strips(*self, held),
    {
        match self {
            OffRosterCertPolicy::StripWhenNoneHeld => !held,
            OffRosterCertPolicy::StripWhenAnyHeld => held,
        }
    }
}

/// Whether the table holds a row for `cid`.
pub fn has_certifications(certs: &Vec<Certification>, cid: u32) -> (r: bool)
    ensures
        r == holds_certs(cert_rows(certs@), cid),
{
    let mut i: usize = 0;
    while i < certs.len()
        invariant
            i <= certs@.len(),
            forall|k: int| 0 <= k < i ==> (#[trigger] certs@[k]).cid != cid,
        decreases certs@.len() - i,
    {
        if certs[i].cid == cid {
            assert(cert_rows(certs@)[i as int].cid == cid);
            return true;
        }
        i = i + 1;
    }
    proof {
        if holds_certs(cert_rows(certs@), cid) {
            let k = choose|k: int| 0 <= k < cert_rows(certs@).len() && cert_rows(certs@)[k].cid == cid;
            assert(certs@[k].cid == cid);
        }
    }
    false
}

/// Whether a row belongs to none of the controllers `cids`.
pub open spec fn not_of(cids: Seq<u32>) -> spec_fn(CertificationView) -> bool {
    |c: CertificationView| !cids.contains(c.cid)
}

/// Whether `cid` is listed in `cids`.
pub fn listed(cids: &Vec<u32>, cid: u32) -> (r: bool)
    ensures
        r == cids@.contains(cid),
{
    let mut i: usize = 0;
    while i < cids.len()
        invariant
            i <= cids@.len(),
            forall|k: int| 0 <= k < i ==> cids@[k] != cid,
        decreases cids@.len() - i,
    {
        if cids[i] == cid {
            assert(cids@[i as int] == cid);
            return true;
        }
        i = i + 1;
    }
    false
}

/// Delete every certification row of the controllers `cids`.
pub fn delete_certifications_for(certs: &mut Vec<Certification>, cids: &Vec<u32>)
    ensures
        cert_rows(final(certs)@) == cert_rows(old(certs)@).filter(not_of(cids@)),
{
    let ghost before = cert_rows(certs@);
    let mut kept: Vec<Certification> = Vec::new();
    let mut i: usize = 0;
    while i < certs.len()
        invariant
            i <= certs@.len(),
            before == cert_rows(certs@),
            cert_rows(kept@) == before.subrange(0, i as int).filter(not_of(cids@)),
        decreases certs@.len() - i,
    {
        let c = certs[i].duplicate();
        assert(before.subrange(0, i + 1) =~= before.subrange(0, i as int).push(before[i as int]));
        proof {
            before.subrange(0, i as int).lemma_filter_push(before[i as int], not_of(cids@));
        }
        let ghost prev = kept@;
        assert(c@ == before[i as int]);
        let gone = listed(cids, c.cid);
        assert(not_of(cids@)(c@) == !gone);
        if !gone {
            kept.push(c);
            assert(cert_rows(kept@) =~= cert_rows(prev).push(before[i as int]));
        }
        assert(cert_rows(kept@) =~= before.subrange(0, i + 1).filter(not_of(cids@)));
        i = i + 1;
    }
    assert(before.subrange(0, certs@.len() as int) =~= before);
    *certs = kept;
}

} // verus!
