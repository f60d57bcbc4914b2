//! A controller's training progress: ratings and certifications in the
//! order they are earned, each marked as held, next, or out of reach.

use vstd::prelude::*;
use crate::initials::texts;
use crate::text::{has_prefix, same_text, starts_with};

verus! {

/// Network controller ratings.
#[derive(Clone, Copy, PartialEq, Eq, Structural, Debug)]
pub enum ControllerRating {
    OBS,
    S1,
    S2,
    S3,
    C1,
    C2,
    C3,
    I1,
    I2,
    I3,
    SUP,
    ADM,
}

/// The network's numeric id of a rating.
pub open spec fn rating_id(r: ControllerRating) -> i8 {
    match r {
        ControllerRating::OBS => 1,
        ControllerRating::S1 => 2,
        ControllerRating::S2 => 3,
        ControllerRating::S3 => 4,
        ControllerRating::C1 => 5,
        ControllerRating::C2 => 6,
        ControllerRating::C3 => 7,
        ControllerRating::I1 => 8,
        ControllerRating::I2 => 9,
        ControllerRating::I3 => 10,
        ControllerRating::SUP => 11,
        ControllerRating::ADM => 12,
    }
}

impl ControllerRating {
    /// The network's numeric id of the rating.
    pub fn as_id(&self) -> (r: i8)
        ensures
            r == rating_id(*self),
    {
        match self {
            ControllerRating::OBS => 1,
            ControllerRating::S1 => 2,
            ControllerRating::S2 => 3,
            ControllerRating::S3 => 4,
            ControllerRating::C1 => 5,
            ControllerRating::C2 => 6,
            ControllerRating::C3 => 7,
            ControllerRating::I1 => 8,
            ControllerRating::I2 => 9,
            ControllerRating::I3 => 10,
            ControllerRating::SUP => 11,
            ControllerRating::ADM => 12,
        }
    }
}

/// One step of the progress list.
#[derive(Debug)]
pub struct CertForTmpl {
    pub name: String,
    pub style: &'static str,
    pub order: usize,
}

/// A step of the progress list as a value.
pub struct StepView {
    pub name: Seq<char>,
    pub style: Seq<char>,
    pub order: int,
}

impl View for CertForTmpl {
    type V = StepView;

    open spec fn view(&self) -> StepView {
        StepView { name: self.name@, style: self.style@, order: self.order as int }
    }
}

/// The steps of a list, as values.
pub open spec fn steps(v: Seq<CertForTmpl>) -> Seq<StepView> {
    v.map_values(|c: CertForTmpl| c@)
}

/// The style of a step: held, the first one not held, or one after that.
pub open spec fn style_for(held: bool, behind: bool) -> Seq<char> {
    if held {
        "success"@
    } else if behind {
        "light"@
    } else {
        "warning"@
    }
}

/// The configured certifications that begin with `prefix`, in order.
pub open spec fn prefixed(config: Seq<String>, prefix: Seq<char>) -> Seq<Seq<char>> {
    texts(config).filter(|c: Seq<char>| has_prefix(c, prefix))
}

/// Whether the controller holds certification `c`.
pub open spec fn holds(cc: Seq<String>, c: Seq<char>) -> bool {
    texts(cc).contains(c)
}

/// Whether a step not held comes before the `k`-th of `fs`, or already
/// before the list (`init`).
pub open spec fn behind_at(cc: Seq<String>, fs: Seq<Seq<char>>, init: bool, k: int) -> bool {
    init || exists|j: int| 0 <= j < k && !holds(cc, #[trigger] fs[j])
}

/// The steps of one group of certifications.
pub open spec fn part_steps(
    start: int,
    cc: Seq<String>,
    fs: Seq<Seq<char>>,
    init: bool,
) -> Seq<StepView> {
    Seq::new(
        fs.len(),
        |k: int|
            StepView {
                name: fs[k],
                style: style_for(holds(cc, fs[k]), behind_at(cc, fs, init, k)),
                order: start + k + 1,
            },
    )
}

/// The style for a step, as text.
fn style_text(held: bool, behind: bool) -> (r: &'static str)
    ensures
        r@ == style_for(held, behind),
{
    if held {
        "success"
    } else if behind {
        "light"
    } else {
        "warning"
    }
}

/// Whether `cc` holds a certification named `c`.
fn holds_cert(cc: &Vec<String>, c: &String) -> (r: bool)
    ensures
        r == holds(cc@, c@),
{
    let mut i: usize = 0;
    while i < cc.len()
        invariant
            i <= cc@.len(),
            forall|k: int| 0 <= k < i ==> (#[trigger] cc@[k])@ != c@,
        decreases cc@.len() - i,
    {
        if same_text(cc[i].as_str(), c.as_str()) {
            assert(texts(cc@)[i as int] == c@);
            return true;
        }
        i = i + 1;
    }
    proof {
        if texts(cc@).contains(c@) {
            let k = choose|k: int| 0 <= k < texts(cc@).len() && texts(cc@)[k] == c@;
            assert(cc@[k]@ == c@);
        }
    }
    false
}

/// Construct the steps of one group of certifications (those that begin
/// with `prefix`), numbered after `starting_index`, and whether a step not
/// held has come by its end.
pub fn progress_part_certs(
    starting_index: usize,
    controller_certs: &Vec<String>,
    config_certs: &Vec<String>,
    prefix: &str,
    out_of_reach: bool,
) -> (r: (Vec<CertForTmpl>, bool))
    requires
        starting_index + config_certs@.len() < usize::MAX,
    ensures
        steps(r.0@) == part_steps(
            starting_index as int,
            controller_certs@,
            prefixed(config_certs@, prefix@),
            out_of_reach,
        ),
        r.1 == behind_at(
            controller_certs@,
            prefixed(config_certs@, prefix@),
            out_of_reach,
            prefixed(config_certs@, prefix@).len() as int,
        ),
{
    let ghost all = texts(config_certs@);
    let ghost pred = |c: Seq<char>| has_prefix(c, prefix@);
    let ghost cc = controller_certs@;
    let mut behind = out_of_reach;
    let mut ret: Vec<CertForTmpl> = Vec::new();
    let mut i: usize = 0;
    while i < config_certs.len()
        invariant
            i <= config_certs@.len(),
            starting_index + config_certs@.len() < usize::MAX,
            all == texts(config_certs@),
            pred == (|c: Seq<char>| has_prefix(c, prefix@)),
            cc == controller_certs@,
            ret@.len() == all.take(i as int).filter(pred).len(),
            ret@.len() <= i,
            steps(ret@) == part_steps(starting_index as int, cc, all.take(i as int).filter(pred), out_of_reach),
            behind == behind_at(cc, all.take(i as int).filter(pred), out_of_reach, ret@.len() as int),
        decreases config_certs@.len() - i,
    {
        let ghost fs0 = all.take(i as int).filter(pred);
        assert(all.take(i + 1) =~= all.take(i as int).push(all[i as int]));
        proof {
            all.take(i as int).lemma_filter_push(all[i as int], pred);
        }
        let cert = &config_certs[i];
        assert(cert@ == all[i as int]);
        if starts_with(cert.as_str(), prefix) {
            let ghost fs1 = fs0.push(cert@);
            assert(all.take(i + 1).filter(pred) == fs1);
            let held_it = holds_cert(controller_certs, cert);
            let k = ret.len();
            let step = CertForTmpl {
                name: cert.clone(),
                style: style_text(held_it, behind),
                order: starting_index + k + 1,
            };
            let ghost prev = steps(ret@);
            ret.push(step);
            proof {
                assert forall|j: int| 0 <= j < k implies behind_at(cc, fs1, out_of_reach, j) == behind_at(cc, fs0, out_of_reach, j) by {
                    if exists|x: int| 0 <= x < j && !holds(cc, #[trigger] fs0[x]) {
                        let x = choose|x: int| 0 <= x < j && !holds(cc, #[trigger] fs0[x]);
                        assert(fs1[x] == fs0[x]);
                    }
                    if exists|x: int| 0 <= x < j && !holds(cc, #[trigger] fs1[x]) {
                        let x = choose|x: int| 0 <= x < j && !holds(cc, #[trigger] fs1[x]);
                        assert(fs1[x] == fs0[x]);
                    }
                }
                assert(behind_at(cc, fs1, out_of_reach, k as int) == behind_at(cc, fs0, out_of_reach, k as int)) by {
                    if exists|x: int| 0 <= x < k && !holds(cc, #[trigger] fs0[x]) {
                        let x = choose|x: int| 0 <= x < k && !holds(cc, #[trigger] fs0[x]);
                        assert(fs1[x] == fs0[x]);
                    }
                    if exists|x: int| 0 <= x < k && !holds(cc, #[trigger] fs1[x]) {
                        let x = choose|x: int| 0 <= x < k && !holds(cc, #[trigger] fs1[x]);
                        assert(fs1[x] == fs0[x]);
                    }
                }
                assert(steps(ret@) =~= part_steps(starting_index as int, cc, fs1, out_of_reach)) by {
                    assert forall|j: int| 0 <= j < k implies #[trigger] steps(ret@)[j] == part_steps(starting_index as int, cc, fs1, out_of_reach)[j] by {
                        assert(steps(ret@)[j] == prev[j]);
                        assert(fs1[j] == fs0[j]);
                    }
                }
            }
            if !held_it {
                behind = true;
            }
            proof {
                if !held_it {
                    assert(!holds(cc, fs1[k as int]));
                }
                if behind_at(cc, fs1, out_of_reach, k + 1) && !behind_at(cc, fs1, out_of_reach, k as int) {
                    let x = choose|x: int| 0 <= x < k + 1 && !holds(cc, #[trigger] fs1[x]);
                    assert(x == k);
                }
            }
        } else {
            assert(all.take(i + 1).filter(pred) == fs0);
        }
        i = i + 1;
    }
    assert(all.take(config_certs@.len() as int) =~= all);
    assert(prefixed(config_certs@, prefix@) == all.filter(pred));
    (ret, behind)
}

/// The progress list before it is put in order: the four ratings, each
/// followed by the certifications that it opens.
pub open spec fn progress_unsorted(rating: i8, cc: Seq<String>, config: Seq<String>) -> Seq<StepView> {
    let g = prefixed(config, "GC"@);
    let b1 = behind_at(cc, g, false, g.len() as int);
    let b2 = b1 || rating < 3;
    let l = prefixed(config, "LC"@);
    let b3 = behind_at(cc, l, b2, l.len() as int);
    let b4 = b3 || rating < 4;
    let a = prefixed(config, "APP"@);
    let b5 = behind_at(cc, a, b4, a.len() as int);
    seq![StepView { name: "S1"@, style: if rating < 2 { "warning"@ } else { "success"@ }, order: 10 }]
        + part_steps(10, cc, g, false)
        + seq![StepView { name: "S2"@, style: style_for(rating >= 3, b1), order: 20 }]
        + part_steps(20, cc, l, b2)
        + seq![StepView { name: "S3"@, style: style_for(rating >= 4, b3), order: 30 }]
        + part_steps(30, cc, a, b4)
        + seq![StepView { name: "C1"@, style: style_for(rating >= 5, b5), order: 40 }]
}

/// Where a step of order `o` goes in an ordered list: before the first
/// step, from `k` on, of a greater order.
pub open spec fn insert_pos(s: Seq<StepView>, o: int, k: int) -> int
    decreases s.len() - k,
{
    if k < 0 || k >= s.len() {
        s.len() as int
    } else if s[k].order > o {
        k
    } else {
        insert_pos(s, o, k + 1)
    }
}

/// The list with `x` put in its place.
pub open spec fn sorted_insert(s: Seq<StepView>, x: StepView) -> Seq<StepView> {
    let p = insert_pos(s, x.order, 0);
    s.take(p) + seq![x] + s.skip(p)
}

/// The steps put in order of `order`, steps of equal order kept as they
/// came.
pub open spec fn sort_by_order(s: Seq<StepView>) -> Seq<StepView>
    decreases s.len(),
{
    if s.len() == 0 {
        s
    } else {
        sorted_insert(sort_by_order(s.drop_last()), s.last())
    }
}

proof fn lemma_insert_pos_range(s: Seq<StepView>, o: int, k: int)
    requires
        0 <= k <= s.len(),
    ensures
        k <= insert_pos(s, o, k) <= s.len(),
    decreases s.len() - k,
{
    if k < s.len() {
        lemma_insert_pos_range(s, o, k + 1);
    }
}

/// Put the steps in order of `order`, keeping equal orders as they came.
fn sort_steps(items: Vec<CertForTmpl>) -> (r: Vec<CertForTmpl>)
    ensures
        steps(r@) == sort_by_order(steps(items@)),
{
    let ghost before = steps(items@);
    let mut queue = items;
    let mut out: Vec<CertForTmpl> = Vec::new();
    let n = queue.len();
    let mut i: usize = 0;
    while queue.len() > 0
        invariant
            queue@.len() + i == n,
            n == before.len(),
            steps(queue@) =~= before.subrange(i as int, n as int),
            steps(out@) == sort_by_order(before.take(i as int)),
        decreases queue@.len(),
    {
        let ghost q0 = queue@;
        let x = queue.remove(0);
        assert(steps(q0)[0] == x@);
        assert(x@ == before[i as int]);
        assert(steps(queue@) =~= before.subrange(i + 1, n as int)) by {
            assert forall|j: int| 0 <= j < queue@.len() implies steps(queue@)[j] == before.subrange(i + 1, n as int)[j] by {
                assert(queue@[j] == q0[j + 1]);
                assert(steps(q0)[j + 1] == before.subrange(i as int, n as int)[j + 1]);
            }
        }
        let ghost s = steps(out@);
        let mut p: usize = 0;
        while p < out.len() && out[p].order <= x.order
            invariant
                p <= out@.len(),
                s == steps(out@),
                insert_pos(s, x.order as int, 0) == insert_pos(s, x.order as int, p as int),
            decreases out@.len() - p,
        {
            p = p + 1;
        }
        assert(insert_pos(s, x.order as int, p as int) == p);
        let ghost pre_out = out@;
        out.insert(p, x);
        assert(before.take(i + 1).drop_last() =~= before.take(i as int));
        assert(before.take(i + 1).last() == before[i as int]);
        assert(steps(out@) =~= sorted_insert(s, before[i as int])) by {
            assert(out@ =~= pre_out.insert(p as int, x));
            assert forall|j: int| 0 <= j < out@.len() implies steps(out@)[j] == sorted_insert(s, before[i as int])[j] by {
                if j < p {
                    assert(out@[j] == pre_out[j]);
                } else if j > p {
                    assert(out@[j] == pre_out[j - 1]);
                }
            }
        }
        i = i + 1;
    }
    assert(before.take(n as int) =~= before);
    out
}

/// The step of a rating: held when the rating is reached, and otherwise the
/// next step or out of reach.
fn rating_step(name: &str, order: usize, reached: bool, behind: bool) -> (r: CertForTmpl)
    ensures
        r@ == (StepView { name: name@, style: style_for(reached, behind), order: order as int }),
{
    CertForTmpl { name: String::from_str(name), style: style_text(reached, behind), order }
}

/// Append all of `part` to `ret`.
fn append_steps(ret: &mut Vec<CertForTmpl>, part: Vec<CertForTmpl>)
    ensures
        steps(final(ret)@) == steps(old(ret)@) + steps(part@),
{
    let mut part = part;
    let ghost p0 = steps(part@);
    let ghost r0 = steps(ret@);
    let n = part.len();
    let mut i: usize = 0;
    while part.len() > 0
        invariant
            part@.len() + i == n,
            n == p0.len(),
            steps(part@) =~= p0.subrange(i as int, n as int),
            steps(ret@) == r0 + p0.take(i as int),
        decreases part@.len(),
    {
        let ghost q0 = part@;
        let x = part.remove(0);
        assert(steps(q0)[0] == x@);
        assert(steps(part@) =~= p0.subrange(i + 1, n as int)) by {
            assert forall|j: int| 0 <= j < part@.len() implies steps(part@)[j] == p0.subrange(i + 1, n as int)[j] by {
                assert(part@[j] == q0[j + 1]);
                assert(steps(q0)[j + 1] == p0.subrange(i as int, n as int)[j + 1]);
            }
        }
        let ghost pre = steps(ret@);
        ret.push(x);
        assert(steps(ret@) =~= pre.push(p0[i as int]));
        assert(p0.take(i + 1) =~= p0.take(i as int).push(p0[i as int]));
        i = i + 1;
    }
    assert(p0.take(n as int) =~= p0);
}

/// Construct the list of ratings and certifications that reflects a
/// controller's learning progress, in order. The first rating or
/// certification not held is marked as next; those after it as out of
/// reach.
pub fn progress_list(rating: i8, controller_certs: &Vec<String>, config_certs: &Vec<String>) -> (r: Vec<CertForTmpl>)
    requires
        config_certs@.len() + 40 < usize::MAX,
    ensures
        steps(r@) == sort_by_order(progress_unsorted(rating, controller_certs@, config_certs@)),
{
    let ghost cc = controller_certs@;
    let ghost g = prefixed(config_certs@, "GC"@);
    let ghost l = prefixed(config_certs@, "LC"@);
    let ghost a = prefixed(config_certs@, "APP"@);
    let mut ret: Vec<CertForTmpl> = Vec::new();
    ret.push(CertForTmpl {
        name: String::from_str("S1"),
        style: if rating < ControllerRating::S1.as_id() {
            "warning"
        } else {
            "success"
        },
        order: 10,
    });
    let ghost e1 = seq![StepView { name: "S1"@, style: if rating < 2 { "warning"@ } else { "success"@ }, order: 10 }];
    assert(steps(ret@) =~= e1);
    let ground = progress_part_certs(10, controller_certs, config_certs, "GC", false);
    let b1 = ground.1;
    append_steps(&mut ret, ground.0);
    let ghost e2 = e1 + part_steps(10, cc, g, false);
    assert(steps(ret@) == e2);
    let reached2 = rating >= ControllerRating::S2.as_id();
    ret.push(rating_step("S2", 20, reached2, b1));
    let ghost e3 = e2 + seq![StepView { name: "S2"@, style: style_for(rating >= 3, b1), order: 20 }];
    assert(steps(ret@) =~= e3);
    let b2 = b1 || !reached2;
    let tower = progress_part_certs(20, controller_certs, config_certs, "LC", b2);
    let b3 = tower.1;
    append_steps(&mut ret, tower.0);
    let ghost e4 = e3 + part_steps(20, cc, l, b2);
    assert(steps(ret@) == e4);
    let reached3 = rating >= ControllerRating::S3.as_id();
    ret.push(rating_step("S3", 30, reached3, b3));
    let ghost e5 = e4 + seq![StepView { name: "S3"@, style: style_for(rating >= 4, b3), order: 30 }];
    assert(steps(ret@) =~= e5);
    let b4 = b3 || !reached3;
    let approach = progress_part_certs(30, controller_certs, config_certs, "APP", b4);
    let b5 = approach.1;
    append_steps(&mut ret, approach.0);
    let ghost e6 = e5 + part_steps(30, cc, a, b4);
    assert(steps(ret@) == e6);
    let reached4 = rating >= ControllerRating::C1.as_id();
    ret.push(rating_step("C1", 40, reached4, b5));
    let ghost e7 = e6 + seq![StepView { name: "C1"@, style: style_for(rating >= 5, b5), order: 40 }];
    assert(steps(ret@) =~= e7);
    assert(e7 == progress_unsorted(rating, controller_certs@, config_certs@));
    sort_steps(ret)
}

} // verus!
