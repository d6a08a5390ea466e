//! Non-maximum suppression: greedy overlap-based filtering of a scored
//! candidate list.
//!
//! Candidates are first sorted by descending confidence with a stable
//! insertion sort ([`sort_by_conf_spec`] pins the exact order, equal
//! confidences keep their original relative order).  The sorted list is then
//! filtered greedily: a candidate survives exactly when no higher-priority
//! survivor overlaps it with IoU above the threshold ([`greedy_keep`]).
//! Suppression is class-agnostic: all candidates compete regardless of
//! predicted class.

use vstd::prelude::*;

use crate::geometry::Bbox;
use crate::geometry::Point2;
use crate::geometry::iou_exceeds;
use crate::geometry::iou_gt;
use crate::units::NM_LIMIT;
use crate::units::RAW_LIMIT;
use crate::units::UNIT;

verus! {

/// A decoded detection candidate: a scored box, an optional keypoint list,
/// and optional raw mask coefficients.
#[derive(Debug)]
pub struct Candidate {
    pub bbox: Bbox,
    pub keypoints: Option<Vec<Point2>>,
    pub coefs: Option<Vec<i64>>,
}

/// The mathematical value of a [`Candidate`].
pub struct CandView {
    pub bbox: Bbox,
    pub keypoints: Option<Seq<Point2>>,
    pub coefs: Option<Seq<i64>>,
}

impl View for Candidate {
    type V = CandView;

    open spec fn view(&self) -> CandView {
        CandView {
            bbox: self.bbox,
            keypoints: match self.keypoints {
                Some(k) => Some(k@),
                None => None,
            },
            coefs: match self.coefs {
                Some(v) => Some(v@),
                None => None,
            },
        }
    }
}

impl CandView {
    /// A candidate is well formed when its box is, and its mask
    /// coefficients, if present, are bounded raw tensor values.
    pub open spec fn wf(self) -> bool {
        &&& self.bbox.wf()
        &&& (self.coefs matches Some(v) ==> v.len() <= NM_LIMIT && (forall|i: int|
            0 <= i < v.len() ==> -RAW_LIMIT <= #[trigger] v[i] <= RAW_LIMIT))
    }
}

/// The sequence of views of a candidate vector.
pub open spec fn views_of(s: Seq<Candidate>) -> Seq<CandView> {
    s.map_values(|c: Candidate| c@)
}

/// Every candidate of the sequence is well formed.
pub open spec fn all_wf(s: Seq<CandView>) -> bool {
    forall|i: int| 0 <= i < s.len() ==> (#[trigger] s[i]).wf()
}

/// The sequence is ordered by descending confidence.
pub open spec fn sorted_desc(s: Seq<CandView>) -> bool {
    forall|i: int, j: int| 0 <= i <= j < s.len() ==> s[i].bbox.conf >= s[j].bbox.conf
}

/// Stable descending insertion: `c` is placed after every element whose
/// confidence is at least `c`'s, so equal confidences keep their order.
pub open spec fn insert_desc(s: Seq<CandView>, c: CandView) -> Seq<CandView>
    decreases s.len(),
{
    if s.len() == 0 {
        seq![c]
    } else if s.last().bbox.conf >= c.bbox.conf {
        s.push(c)
    } else {
        insert_desc(s.drop_last(), c).push(s.last())
    }
}

/// Stable insertion sort by descending confidence.
pub open spec fn sort_by_conf_spec(s: Seq<CandView>) -> Seq<CandView>
    decreases s.len(),
{
    if s.len() == 0 {
        Seq::empty()
    } else {
        insert_desc(sort_by_conf_spec(s.drop_last()), s.last())
    }
}

/// `c` overlaps no already-kept candidate above the threshold.
pub open spec fn compatible(kept: Seq<CandView>, c: CandView, t: int) -> bool {
    forall|i: int| 0 <= i < kept.len() ==> !iou_exceeds((#[trigger] kept[i]).bbox, c.bbox, t)
}

/// The greedy filter: walk `s` in order, keeping a candidate exactly when it
/// is compatible with everything kept so far.
pub open spec fn greedy_from(s: Seq<CandView>, kept: Seq<CandView>, t: int) -> Seq<CandView>
    decreases s.len(),
{
    if s.len() == 0 {
        kept
    } else if compatible(kept, s[0], t) {
        greedy_from(s.subrange(1, s.len() as int), kept.push(s[0]), t)
    } else {
        greedy_from(s.subrange(1, s.len() as int), kept, t)
    }
}

/// Greedy suppression of an already-sorted candidate sequence.
pub open spec fn greedy_keep(s: Seq<CandView>, t: int) -> Seq<CandView> {
    greedy_from(s, Seq::empty(), t)
}

/// The whole suppression pass: stable sort by descending confidence, then
/// greedy filtering.
pub open spec fn nms_spec(s: Seq<CandView>, t: int) -> Seq<CandView> {
    greedy_keep(sort_by_conf_spec(s), t)
}

/// No two distinct surviving candidates overlap above the threshold.
pub open spec fn pairwise_ok(s: Seq<CandView>, t: int) -> bool {
    forall|i: int, j: int| 0 <= i < j < s.len() ==> !iou_exceeds(s[i].bbox, s[j].bbox, t)
}

proof fn lemma_insert_desc_len(s: Seq<CandView>, c: CandView)
    ensures
        insert_desc(s, c).len() == s.len() + 1,
    decreases s.len(),
{
    if s.len() != 0 && s.last().bbox.conf < c.bbox.conf {
        lemma_insert_desc_len(s.drop_last(), c);
    }
}

proof fn lemma_insert_desc_contains(s: Seq<CandView>, c: CandView, x: CandView)
    ensures
        insert_desc(s, c).contains(x) <==> s.contains(x) || x == c,
    decreases s.len(),
{
    if s.len() == 0 {
        assert(insert_desc(s, c)[0] == c);
    } else if s.last().bbox.conf >= c.bbox.conf {
        assert(insert_desc(s, c) == s.push(c));
        assert forall|y: CandView| s.push(c).contains(y) implies s.contains(y) || y == c by {
            let i = choose|i: int| 0 <= i < s.push(c).len() && s.push(c)[i] == y;
            if i < s.len() {
                assert(s[i] == y);
            }
        }
        if s.contains(x) {
            let i = choose|i: int| 0 <= i < s.len() && s[i] == x;
            assert(s.push(c)[i] == x);
        }
        assert(s.push(c)[s.len() as int] == c);
    } else {
        lemma_insert_desc_contains(s.drop_last(), c, x);
        let inner = insert_desc(s.drop_last(), c);
        assert(insert_desc(s, c) == inner.push(s.last()));
        assert forall|y: CandView| inner.push(s.last()).contains(y) implies inner.contains(y)
            || y == s.last() by {
            let i = choose|i: int|
                0 <= i < inner.push(s.last()).len() && inner.push(s.last())[i] == y;
            if i < inner.len() {
                assert(inner[i] == y);
            }
        }
        if inner.contains(x) {
            let i = choose|i: int| 0 <= i < inner.len() && inner[i] == x;
            assert(inner.push(s.last())[i] == x);
        }
        assert(inner.push(s.last())[inner.len() as int] == s.last());
        assert forall|y: CandView| s.contains(y) implies s.drop_last().contains(y)
            || y == s.last() by {
            let i = choose|i: int| 0 <= i < s.len() && s[i] == y;
            if i < s.len() - 1 {
                assert(s.drop_last()[i] == y);
            }
        }
        if s.drop_last().contains(x) {
            let i = choose|i: int| 0 <= i < s.drop_last().len() && s.drop_last()[i] == x;
            assert(s[i] == x);
        }
        if x == s.last() {
            assert(s.contains(x)) by {
                assert(s[s.len() - 1] == x);
            }
        }
    }
}

proof fn lemma_insert_desc_wf(s: Seq<CandView>, c: CandView)
    requires
        all_wf(s),
        c.wf(),
    ensures
        all_wf(insert_desc(s, c)),
{
    lemma_insert_desc_len(s, c);
    assert forall|i: int| 0 <= i < insert_desc(s, c).len() implies (#[trigger] insert_desc(s,
    c)[i]).wf() by {
        lemma_insert_desc_contains(s, c, insert_desc(s, c)[i]);
        assert(insert_desc(s, c).contains(insert_desc(s, c)[i]));
        if s.contains(insert_desc(s, c)[i]) {
            let j = choose|j: int| 0 <= j < s.len() && s[j] == insert_desc(s, c)[i];
        }
    }
}

proof fn lemma_insert_desc_sorted(s: Seq<CandView>, c: CandView)
    requires
        sorted_desc(s),
    ensures
        sorted_desc(insert_desc(s, c)),
    decreases s.len(),
{
    if s.len() == 0 {
    } else if s.last().bbox.conf >= c.bbox.conf {
        assert(insert_desc(s, c) == s.push(c));
    } else {
        assert(sorted_desc(s.drop_last()));
        lemma_insert_desc_sorted(s.drop_last(), c);
        lemma_insert_desc_len(s.drop_last(), c);
        let inner = insert_desc(s.drop_last(), c);
        // every element of `inner` is an original element or `c`, and both
        // have confidence at least `s.last()`'s
        assert forall|i: int| 0 <= i < inner.len() implies inner[i].bbox.conf
            >= s.last().bbox.conf by {
            lemma_insert_desc_contains(s.drop_last(), c, inner[i]);
            assert(inner.contains(inner[i]));
            if s.drop_last().contains(inner[i]) {
                let j = choose|j: int|
                    0 <= j < s.drop_last().len() && s.drop_last()[j] == inner[i];
                assert(s[j] == inner[i]);
            }
        }
        assert(sorted_desc(inner.push(s.last())));
    }
}

/// The exact placement of a stable descending insert: if every element from
/// position `j` on has confidence strictly below `c`'s, and the element just
/// before `j` (if any) has confidence at least `c`'s, then inserting `c`
/// puts it exactly at position `j`.
proof fn lemma_insert_desc_at(s: Seq<CandView>, c: CandView, j: int)
    requires
        0 <= j <= s.len(),
        forall|k: int| j <= k < s.len() ==> (#[trigger] s[k]).bbox.conf < c.bbox.conf,
        j > 0 ==> s[j - 1].bbox.conf >= c.bbox.conf,
    ensures
        insert_desc(s, c) == s.insert(j, c),
    decreases s.len(),
{
    if s.len() == 0 {
        assert(insert_desc(s, c) =~= s.insert(0, c));
    } else if j == s.len() {
        assert(s.last().bbox.conf >= c.bbox.conf);
        assert(insert_desc(s, c) =~= s.insert(j, c));
    } else {
        assert(s[s.len() - 1].bbox.conf < c.bbox.conf);
        lemma_insert_desc_at(s.drop_last(), c, j);
        assert(insert_desc(s.drop_last(), c).push(s.last()) =~= s.insert(j, c));
    }
}

proof fn lemma_sort_sorted(s: Seq<CandView>)
    ensures
        sorted_desc(sort_by_conf_spec(s)),
        sort_by_conf_spec(s).len() == s.len(),
    decreases s.len(),
{
    if s.len() != 0 {
        lemma_sort_sorted(s.drop_last());
        lemma_insert_desc_sorted(sort_by_conf_spec(s.drop_last()), s.last());
        lemma_insert_desc_len(sort_by_conf_spec(s.drop_last()), s.last());
    }
}

proof fn lemma_sort_contains(s: Seq<CandView>, x: CandView)
    ensures
        sort_by_conf_spec(s).contains(x) <==> s.contains(x),
    decreases s.len(),
{
    if s.len() == 0 {
    } else {
        lemma_sort_contains(s.drop_last(), x);
        lemma_insert_desc_contains(sort_by_conf_spec(s.drop_last()), s.last(), x);
        assert forall|y: CandView| s.contains(y) implies s.drop_last().contains(y)
            || y == s.last() by {
            let i = choose|i: int| 0 <= i < s.len() && s[i] == y;
            if i < s.len() - 1 {
                assert(s.drop_last()[i] == y);
            }
        }
        if s.drop_last().contains(x) {
            let i = choose|i: int| 0 <= i < s.drop_last().len() && s.drop_last()[i] == x;
            assert(s[i] == x);
        }
        if x == s.last() {
            assert(s[s.len() - 1] == x);
        }
    }
}

proof fn lemma_sort_wf(s: Seq<CandView>)
    requires
        all_wf(s),
    ensures
        all_wf(sort_by_conf_spec(s)),
{
    let r = sort_by_conf_spec(s);
    assert forall|i: int| 0 <= i < r.len() implies (#[trigger] r[i]).wf() by {
        assert(r.contains(r[i]));
        lemma_sort_contains(s, r[i]);
        let j = choose|j: int| 0 <= j < s.len() && s[j] == r[i];
    }
}

/// Sorting an already-sorted sequence leaves it unchanged.
proof fn lemma_sort_of_sorted(s: Seq<CandView>)
    requires
        sorted_desc(s),
    ensures
        sort_by_conf_spec(s) == s,
    decreases s.len(),
{
    if s.len() != 0 {
        assert(sorted_desc(s.drop_last()));
        lemma_sort_of_sorted(s.drop_last());
        let prefix = s.drop_last();
        if prefix.len() == 0 {
            assert(insert_desc(prefix, s.last()) =~= s);
        } else {
            assert(prefix.last() == s[s.len() - 2]);
            assert(prefix.last().bbox.conf >= s.last().bbox.conf);
            assert(prefix.push(s.last()) =~= s);
        }
    }
}

proof fn lemma_greedy_from_pairwise(s: Seq<CandView>, kept: Seq<CandView>, t: int)
    requires
        pairwise_ok(kept, t),
    ensures
        pairwise_ok(greedy_from(s, kept, t), t),
    decreases s.len(),
{
    if s.len() != 0 {
        if compatible(kept, s[0], t) {
            assert(pairwise_ok(kept.push(s[0]), t));
            lemma_greedy_from_pairwise(s.subrange(1, s.len() as int), kept.push(s[0]), t);
        } else {
            lemma_greedy_from_pairwise(s.subrange(1, s.len() as int), kept, t);
        }
    }
}

proof fn lemma_greedy_from_contains(s: Seq<CandView>, kept: Seq<CandView>, t: int, x: CandView)
    requires
        greedy_from(s, kept, t).contains(x),
    ensures
        kept.contains(x) || s.contains(x),
    decreases s.len(),
{
    if s.len() != 0 {
        let tail = s.subrange(1, s.len() as int);
        if compatible(kept, s[0], t) {
            lemma_greedy_from_contains(tail, kept.push(s[0]), t, x);
            if kept.push(s[0]).contains(x) {
                let i = choose|i: int|
                    0 <= i < kept.push(s[0]).len() && kept.push(s[0])[i] == x;
                if i < kept.len() {
                    assert(kept[i] == x);
                } else {
                    assert(s[0] == x);
                }
            }
        } else {
            lemma_greedy_from_contains(tail, kept, t, x);
        }
        if tail.contains(x) {
            let i = choose|i: int| 0 <= i < tail.len() && tail[i] == x;
            assert(s[i + 1] == x);
        }
        if x == s[0] {
            assert(s.contains(x)) by {
                assert(s[0] == x);
            }
        }
    }
}

proof fn lemma_greedy_from_sorted(s: Seq<CandView>, kept: Seq<CandView>, t: int)
    requires
        sorted_desc(s),
        sorted_desc(kept),
        forall|i: int, k: int|
            0 <= i < kept.len() && 0 <= k < s.len() ==> kept[i].bbox.conf >= s[k].bbox.conf,
    ensures
        sorted_desc(greedy_from(s, kept, t)),
    decreases s.len(),
{
    if s.len() != 0 {
        let tail = s.subrange(1, s.len() as int);
        assert(sorted_desc(tail));
        if compatible(kept, s[0], t) {
            assert(sorted_desc(kept.push(s[0])));
            lemma_greedy_from_sorted(tail, kept.push(s[0]), t);
        } else {
            lemma_greedy_from_sorted(tail, kept, t);
        }
    }
}

/// When everything (kept and pending together) is pairwise compatible, the
/// greedy filter keeps it all.
proof fn lemma_greedy_from_keeps_all(s: Seq<CandView>, kept: Seq<CandView>, t: int)
    requires
        pairwise_ok(kept + s, t),
    ensures
        greedy_from(s, kept, t) == kept + s,
    decreases s.len(),
{
    if s.len() == 0 {
        assert(greedy_from(s, kept, t) =~= kept + s);
    } else {
        let whole = kept + s;
        assert forall|i: int| 0 <= i < kept.len() implies !iou_exceeds(
            (#[trigger] kept[i]).bbox, s[0].bbox, t) by {
            assert(whole[i] == kept[i]);
            assert(whole[kept.len() as int] == s[0]);
        }
        assert(compatible(kept, s[0], t));
        let tail = s.subrange(1, s.len() as int);
        assert(kept.push(s[0]) + tail =~= whole);
        lemma_greedy_from_keeps_all(tail, kept.push(s[0]), t);
        assert(greedy_from(s, kept, t) =~= kept + s);
    }
}

/// `a` is a subsequence of `b`: `a`'s elements appear in `b` in the same
/// order, not necessarily adjacent.
pub open spec fn subseq_of(a: Seq<CandView>, b: Seq<CandView>) -> bool
    decreases b.len(),
{
    if a.len() == 0 {
        true
    } else if b.len() == 0 {
        false
    } else {
        (a[0] == b[0] && subseq_of(a.skip(1), b.skip(1))) || subseq_of(a, b.skip(1))
    }
}

/// Whatever has been kept stays a prefix of the greedy filter's result.
proof fn lemma_greedy_from_prefix(s: Seq<CandView>, kept: Seq<CandView>, t: int)
    ensures
        greedy_from(s, kept, t).len() >= kept.len(),
        greedy_from(s, kept, t).take(kept.len() as int) == kept,
    decreases s.len(),
{
    if s.len() == 0 {
        assert(greedy_from(s, kept, t).take(kept.len() as int) =~= kept);
    } else {
        let tail = s.subrange(1, s.len() as int);
        if compatible(kept, s[0], t) {
            lemma_greedy_from_prefix(tail, kept.push(s[0]), t);
            let r = greedy_from(tail, kept.push(s[0]), t);
            assert(r.take(kept.len() as int + 1) == kept.push(s[0]));
            assert(r.take(kept.len() as int) =~= kept);
        } else {
            lemma_greedy_from_prefix(tail, kept, t);
        }
    }
}

/// What the greedy filter appends after the kept prefix is a subsequence of
/// the pending candidates.
proof fn lemma_greedy_from_subseq(s: Seq<CandView>, kept: Seq<CandView>, t: int)
    ensures
        subseq_of(greedy_from(s, kept, t).skip(kept.len() as int), s),
    decreases s.len(),
{
    let r = greedy_from(s, kept, t);
    if s.len() == 0 {
        assert(r.skip(kept.len() as int) =~= Seq::<CandView>::empty());
    } else {
        let tail = s.subrange(1, s.len() as int);
        assert(tail =~= s.skip(1));
        if compatible(kept, s[0], t) {
            lemma_greedy_from_subseq(tail, kept.push(s[0]), t);
            lemma_greedy_from_prefix(tail, kept.push(s[0]), t);
            let dropped = r.skip(kept.len() as int);
            assert(r.take(kept.len() as int + 1) == kept.push(s[0]));
            assert(dropped.len() > 0);
            assert(dropped[0] == r[kept.len() as int]);
            assert(r[kept.len() as int] == kept.push(s[0])[kept.len() as int]);
            assert(dropped[0] == s[0]);
            assert(dropped.skip(1) =~= r.skip(kept.len() as int + 1));
            assert(subseq_of(dropped.skip(1), s.skip(1)));
        } else {
            lemma_greedy_from_subseq(tail, kept, t);
            assert(subseq_of(r.skip(kept.len() as int), s.skip(1)));
        }
    }
}

/// The suppression survivors form a subsequence of the sorted candidate
/// list: a subset of the input that keeps the descending-confidence order.
pub proof fn lemma_suppression_subsequence(s: Seq<CandView>, t: int)
    ensures
        subseq_of(nms_spec(s, t), sort_by_conf_spec(s)),
{
    lemma_greedy_from_subseq(sort_by_conf_spec(s), Seq::empty(), t);
    assert(nms_spec(s, t).skip(0) =~= nms_spec(s, t));
}

/// Output boxes of the suppression pass are pairwise compatible: for any two
/// distinct survivors, IoU does not exceed the threshold.
pub proof fn lemma_suppression_pairwise(s: Seq<CandView>, t: int)
    ensures
        forall|i: int, j: int|
            0 <= i < nms_spec(s, t).len() && 0 <= j < nms_spec(s, t).len() && i != j
                ==> !iou_exceeds(nms_spec(s, t)[i].bbox, nms_spec(s, t)[j].bbox, t),
{
    lemma_greedy_from_pairwise(sort_by_conf_spec(s), Seq::empty(), t);
    let r = nms_spec(s, t);
    assert forall|i: int, j: int| 0 <= i < r.len() && 0 <= j < r.len() && i != j implies
        !iou_exceeds(r[i].bbox, r[j].bbox, t) by {
        if i < j {
            assert(!iou_exceeds(r[i].bbox, r[j].bbox, t));
        } else {
            assert(!iou_exceeds(r[j].bbox, r[i].bbox, t));
            crate::geometry::lemma_iou_symmetric(r[i].bbox, r[j].bbox, t);
        }
    }
}

/// Every survivor of the suppression pass is one of the input candidates.
pub proof fn lemma_suppression_subset(s: Seq<CandView>, t: int, x: CandView)
    requires
        nms_spec(s, t).contains(x),
    ensures
        s.contains(x),
{
    lemma_greedy_from_contains(sort_by_conf_spec(s), Seq::empty(), t, x);
    lemma_sort_contains(s, x);
}

/// Survivors come out in descending-confidence order.
pub proof fn lemma_suppression_sorted(s: Seq<CandView>, t: int)
    ensures
        sorted_desc(nms_spec(s, t)),
{
    lemma_sort_sorted(s);
    lemma_greedy_from_sorted(sort_by_conf_spec(s), Seq::empty(), t);
}

/// Suppression is idempotent: running it on its own output returns that
/// output unchanged.
pub proof fn lemma_suppression_idempotent(s: Seq<CandView>, t: int)
    ensures
        nms_spec(nms_spec(s, t), t) == nms_spec(s, t),
{
    let r = nms_spec(s, t);
    lemma_suppression_sorted(s, t);
    lemma_sort_of_sorted(r);
    lemma_greedy_from_pairwise(sort_by_conf_spec(s), Seq::empty(), t);
    assert(Seq::<CandView>::empty() + r =~= r);
    lemma_greedy_from_keeps_all(r, Seq::empty(), t);
}

/// All suppression survivors remain well formed.
pub proof fn lemma_suppression_wf(s: Seq<CandView>, t: int)
    requires
        all_wf(s),
    ensures
        all_wf(nms_spec(s, t)),
{
    let r = nms_spec(s, t);
    lemma_sort_wf(s);
    assert forall|i: int| 0 <= i < r.len() implies (#[trigger] r[i]).wf() by {
        assert(r.contains(r[i]));
        lemma_greedy_from_contains(sort_by_conf_spec(s), Seq::empty(), t, r[i]);
        let j = choose|j: int|
            0 <= j < sort_by_conf_spec(s).len() && sort_by_conf_spec(s)[j] == r[i];
    }
}

/// Insert `c` into a list sorted by descending confidence, after every
/// element with confidence at least `c`'s.
fn insert_sorted(v: &mut Vec<Candidate>, c: Candidate)
    ensures
        views_of(final(v)@) == insert_desc(views_of(old(v)@), c@),
        final(v)@.len() == old(v)@.len() + 1,
{
    let mut j = v.len();
    while j > 0 && v[j - 1].bbox.conf < c.bbox.conf
        invariant
            j <= v.len(),
            forall|k: int| j <= k < v@.len() ==> (#[trigger] v@[k]).bbox.conf < c.bbox.conf,
        decreases j,
    {
        j = j - 1;
    }
    proof {
        assert forall|k: int| j <= k < views_of(v@).len() implies (#[trigger] views_of(
        v@)[k]).bbox.conf < c@.bbox.conf by {
            assert(views_of(v@)[k] == v@[k]@);
        }
        if j > 0 {
            assert(views_of(v@)[j - 1] == v@[j - 1]@);
        }
        lemma_insert_desc_at(views_of(v@), c@, j as int);
        lemma_insert_desc_len(views_of(v@), c@);
    }
    let ghost pre = v@;
    v.insert(j, c);
    proof {
        assert(views_of(pre.insert(j as int, c)) =~= views_of(pre).insert(j as int, c@));
    }
}

/// Reduce the candidate list in place to the greedy non-maximum-suppression
/// survivors: sort by descending confidence (stable), then keep each
/// candidate exactly when no higher-priority keeper overlaps it with
/// `IoU > iou_t / UNIT`.
pub fn non_max_suppression(data: &mut Vec<Candidate>, iou_t: i64)
    requires
        0 <= iou_t <= UNIT,
        all_wf(views_of(old(data)@)),
    ensures
        views_of(final(data)@) == nms_spec(views_of(old(data)@), iou_t as int),
        all_wf(views_of(final(data)@)),
{
    let ghost orig = data@;
    let ghost vorig = views_of(orig);
    // stable insertion sort by descending confidence
    let mut sorted: Vec<Candidate> = Vec::new();
    while data.len() > 0
        invariant
            data@.len() <= orig.len(),
            data@ =~= orig.subrange(orig.len() - data@.len(), orig.len() as int),
            views_of(sorted@) == sort_by_conf_spec(
                vorig.subrange(0, orig.len() - data@.len())),
            all_wf(vorig),
            vorig == views_of(orig),
        decreases data@.len(),
    {
        let ghost done = orig.len() - data@.len();
        let ghost pre = data@;
        let ghost vsorted = views_of(sorted@);
        let c = data.remove(0);
        proof {
            assert(pre == orig.subrange(done, orig.len() as int));
            assert(orig.subrange(done, orig.len() as int)[0] == orig[done]);
            assert(c == orig[done]);
            assert(pre.remove(0) =~= orig.subrange(done + 1, orig.len() as int));
            assert(data@ =~= orig.subrange(done + 1, orig.len() as int));
            assert(c@ == vorig[done]);
            let vprefix = vorig.subrange(0, done + 1);
            assert(vprefix.drop_last() =~= vorig.subrange(0, done));
            assert(vprefix.last() == c@);
        }
        insert_sorted(&mut sorted, c);
        proof {
            assert(views_of(sorted@) == insert_desc(vsorted, c@));
        }
    }
    proof {
        assert(vorig.subrange(0, vorig.len() as int) =~= vorig);
        assert(views_of(sorted@) == sort_by_conf_spec(vorig));
        lemma_sort_wf(vorig);
    }
    // greedy filtering against the keepers found so far
    let ghost sorted_all = views_of(sorted@);
    let mut result: Vec<Candidate> = Vec::new();
    proof {
        assert(views_of(result@) =~= Seq::<CandView>::empty());
    }
    while sorted.len() > 0
        invariant
            0 <= iou_t <= UNIT,
            all_wf(views_of(sorted@)),
            all_wf(views_of(result@)),
            greedy_from(views_of(sorted@), views_of(result@), iou_t as int) == greedy_from(
                sorted_all, Seq::empty(), iou_t as int),
        decreases sorted@.len(),
    {
        let ghost before = views_of(sorted@);
        let c = sorted.remove(0);
        proof {
            assert(views_of(sorted@) =~= before.subrange(1, before.len() as int));
            assert(c@ == before[0]);
            assert(c@.wf());
        }
        let mut ok = true;
        let mut k: usize = 0;
        while k < result.len()
            invariant
                k <= result@.len(),
                0 <= iou_t <= UNIT,
                c@.wf(),
                all_wf(views_of(result@)),
                ok == compatible(views_of(result@).subrange(0, k as int), c@, iou_t as int),
            decreases result@.len() - k,
        {
            let ghost vres = views_of(result@);
            let ghost prev = vres.subrange(0, k as int);
            proof {
                assert(vres[k as int] == result@[k as int]@);
                assert(vres[k as int].wf());
            }
            let hit = iou_gt(&result[k].bbox, &c.bbox, iou_t);
            if hit {
                ok = false;
            }
            proof {
                let cur = vres.subrange(0, k + 1);
                assert(cur[k as int] == vres[k as int]);
                if !hit && compatible(prev, c@, iou_t as int) {
                    assert forall|i: int| 0 <= i < cur.len() implies !iou_exceeds(
                        (#[trigger] cur[i]).bbox, c@.bbox, iou_t as int) by {
                        if i < k {
                            assert(prev[i] == cur[i]);
                        }
                    }
                    assert(compatible(cur, c@, iou_t as int));
                } else {
                    if hit {
                        assert(!compatible(cur, c@, iou_t as int));
                    } else {
                        let i = choose|i: int|
                            0 <= i < prev.len() && iou_exceeds(prev[i].bbox, c@.bbox,
                            iou_t as int);
                        assert(cur[i] == prev[i]);
                        assert(!compatible(cur, c@, iou_t as int));
                    }
                }
            }
            k = k + 1;
        }
        proof {
            assert(views_of(result@).subrange(0, result@.len() as int) =~= views_of(result@));
            assert(ok == compatible(views_of(result@), c@, iou_t as int));
        }
        if ok {
            let ghost vres = views_of(result@);
            result.push(c);
            proof {
                assert(views_of(result@) =~= vres.push(c@));
            }
        }
    }
    proof {
        assert(greedy_from(views_of(sorted@), views_of(result@), iou_t as int) == views_of(
            result@));
    }
    *data = result;
}

} // verus!
