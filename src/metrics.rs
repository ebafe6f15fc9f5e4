//! Derived ranking metrics of one subject: weighted score, collection
//! total, drop rate, average comment count and broadcast weekday.

use crate::date::{aired_spec, has_aired, Date};
use vstd::prelude::*;

verus! {

/// An exact non-negative fraction `num / den`; `den` is never zero.
#[derive(Clone, Copy, Debug, PartialEq, Eq, Structural)]
pub struct Ratio {
    pub num: u128,
    pub den: u128,
}

impl Ratio {
    pub open spec fn wf(self) -> bool {
        self.den > 0
    }

    /// The fraction `0 / 1`, the value of an empty average.
    pub open spec fn zero_spec() -> Ratio {
        Ratio { num: 0, den: 1 }
    }

    pub fn zero() -> (r: Ratio)
        ensures
            r == Ratio::zero_spec(),
    {
        Ratio { num: 0, den: 1 }
    }

    /// Whether the fraction lies in the closed interval `[0, 1]`.
    pub open spec fn in_unit_interval(self) -> bool {
        self.wf() && self.num <= self.den
    }
}

/// How many users put a subject in each of the five collection buckets.
#[derive(Clone, Copy, Debug, PartialEq, Eq, Structural)]
pub struct Collection {
    pub wish: u32,
    pub collect: u32,
    pub doing: u32,
    pub on_hold: u32,
    pub dropped: u32,
}

pub open spec fn collection_total_spec(c: Collection) -> int {
    c.wish + c.collect + c.doing + c.on_hold + c.dropped
}

/// `dropped / total`, or `0` when nobody collected the subject.
pub open spec fn drop_rate_spec(dropped: int, total: int) -> Ratio {
    if total == 0 {
        Ratio::zero_spec()
    } else {
        Ratio { num: dropped as u128, den: total as u128 }
    }
}

/// The number of users who collected the subject in any bucket.
pub fn get_total_collection(collection: &Collection) -> (r: u64)
    ensures
        r == collection_total_spec(*collection),
{
    collection.wish as u64 + collection.collect as u64 + collection.doing as u64
        + collection.on_hold as u64 + collection.dropped as u64
}

/// The share of collectors who dropped the subject.
pub fn get_drop_rate(collection: &Collection, collection_total: u64) -> (r: Ratio)
    ensures
        r == drop_rate_spec(collection.dropped as int, collection_total as int),
        r.wf(),
{
    if collection_total == 0 {
        Ratio::zero()
    } else {
        Ratio { num: collection.dropped as u128, den: collection_total as u128 }
    }
}

/// Over any collection block, the drop rate computed from the block's own
/// total lies in `[0, 1]` when the total is positive and is `0` otherwise.
pub proof fn lemma_drop_rate_bounded(c: Collection)
    ensures
        collection_total_spec(c) == c.wish + c.collect + c.doing + c.on_hold + c.dropped,
        collection_total_spec(c) > 0 ==> drop_rate_spec(
            c.dropped as int,
            collection_total_spec(c),
        ).in_unit_interval(),
        collection_total_spec(c) == 0 ==> drop_rate_spec(c.dropped as int, collection_total_spec(c))
            == Ratio::zero_spec(),
{
}


/// A subject's rating block: its rank and how many users gave each score.
/// Each entry of `count` is a pair (score, number of raters).
#[derive(Clone, Debug, PartialEq, Eq)]
pub struct Rating {
    pub rank: u32,
    pub count: Vec<(u32, u32)>,
}

/// The number of raters over a distribution.
pub open spec fn rater_sum(d: Seq<(u32, u32)>) -> int
    decreases d.len(),
{
    if d.len() == 0 {
        0
    } else {
        rater_sum(d.drop_last()) + d.last().1
    }
}

/// The sum of score times raters over a distribution.
pub open spec fn weighted_sum(d: Seq<(u32, u32)>) -> int
    decreases d.len(),
{
    if d.len() == 0 {
        0
    } else {
        weighted_sum(d.drop_last()) + d.last().0 * d.last().1
    }
}

/// The mean score weighted by raters, `0` when nobody rated.
pub open spec fn score_spec(d: Seq<(u32, u32)>) -> Ratio {
    if rater_sum(d) == 0 {
        Ratio::zero_spec()
    } else {
        Ratio { num: weighted_sum(d) as u128, den: rater_sum(d) as u128 }
    }
}

const U32_MAX: u128 = 0xffff_ffff;

/// The mean score of a rating distribution, weighted by the raters of
/// each score; `0` when the distribution has no raters.
pub fn get_score(rating: &Rating) -> (r: Ratio)
    ensures
        r == score_spec(rating.count@),
        r.wf(),
        rater_sum(rating.count@) == 0 ==> r.num == 0,
{
    let d = &rating.count;
    let mut total_count: u128 = 0;
    let mut total_score: u128 = 0;
    let mut i: usize = 0;
    while i < d.len()
        invariant
            i <= d@.len(),
            total_count == rater_sum(d@.take(i as int)),
            total_score == weighted_sum(d@.take(i as int)),
            total_count <= i * U32_MAX,
            total_score <= i * (U32_MAX * U32_MAX),
        decreases d@.len() - i,
    {
        let (score, count) = d[i];
        assert(d@.take(i + 1).drop_last() =~= d@.take(i as int));
        proof {
            lemma_step_bounds(i as int, total_count as int, total_score as int, score, count);
        }
        total_count = total_count + count as u128;
        total_score = total_score + score as u128 * count as u128;
        i = i + 1;
    }
    assert(d@.take(i as int) =~= d@);
    if total_count == 0 {
        Ratio::zero()
    } else {
        Ratio { num: total_score, den: total_count }
    }
}

proof fn lemma_step_bounds(i: int, tc: int, ts: int, s: u32, c: u32)
    requires
        0 <= i < 0x1_0000_0000_0000_0000,
        0 <= tc <= i * U32_MAX,
        0 <= ts <= i * (U32_MAX * U32_MAX),
    ensures
        tc + c <= (i + 1) * U32_MAX,
        s * c <= U32_MAX * U32_MAX,
        ts + s * c <= (i + 1) * (U32_MAX * U32_MAX),
        (i + 1) * (U32_MAX * U32_MAX) <= u128::MAX,
        (i + 1) * U32_MAX <= u128::MAX,
{
    assert(s * c <= U32_MAX * U32_MAX) by (nonlinear_arith)
        requires
            s <= U32_MAX,
            c <= U32_MAX,
            0 <= s,
            0 <= c,
    ;
    assert((i + 1) * (U32_MAX * U32_MAX) <= u128::MAX) by (nonlinear_arith)
        requires
            i + 1 <= 0x1_0000_0000_0000_0000,
    ;
    assert((i + 1) * U32_MAX <= u128::MAX) by (nonlinear_arith)
        requires
            i + 1 <= 0x1_0000_0000_0000_0000,
    ;
    assert((i + 1) * U32_MAX == i * U32_MAX + U32_MAX) by (nonlinear_arith);
    assert((i + 1) * (U32_MAX * U32_MAX) == i * (U32_MAX * U32_MAX) + U32_MAX * U32_MAX)
        by (nonlinear_arith);
}


/// One episode of a subject, as far as the metrics read it: its kind
/// (main story, special, opening, ...), its free-text air date and how
/// many comments it drew.
#[derive(Clone, Debug, PartialEq, Eq)]
pub struct Episode {
    pub id: u32,
    pub episode_type: u32,
    pub airdate: String,
    pub comment: u32,
}

/// The number of episodes that aired before `today`.
pub open spec fn aired_count(eps: Seq<Episode>, today: Date) -> int
    decreases eps.len(),
{
    if eps.len() == 0 {
        0
    } else {
        aired_count(eps.drop_last(), today) + if aired_spec(eps.last().airdate@, today) {
            1int
        } else {
            0int
        }
    }
}

/// The comments drawn by the episodes that aired before `today`.
pub open spec fn aired_comment_sum(eps: Seq<Episode>, today: Date) -> int
    decreases eps.len(),
{
    if eps.len() == 0 {
        0
    } else {
        aired_comment_sum(eps.drop_last(), today) + if aired_spec(eps.last().airdate@, today) {
            eps.last().comment as int
        } else {
            0int
        }
    }
}

/// The mean comment count over the aired episodes, `0` when none aired.
pub open spec fn average_comment_spec(eps: Seq<Episode>, today: Date) -> Ratio {
    if aired_count(eps, today) == 0 {
        Ratio::zero_spec()
    } else {
        Ratio {
            num: aired_comment_sum(eps, today) as u128,
            den: aired_count(eps, today) as u128,
        }
    }
}

/// The mean number of comments per episode over the episodes that aired
/// strictly before `today`; an empty or unreadable air date counts as not
/// aired. `0` when no episode has aired.
pub fn get_average_comment(episodes: &Vec<Episode>, today: Date) -> (r: Ratio)
    ensures
        r == average_comment_spec(episodes@, today),
        r.wf(),
{
    let mut aired: u128 = 0;
    let mut comments: u128 = 0;
    let mut i: usize = 0;
    while i < episodes.len()
        invariant
            i <= episodes@.len(),
            aired == aired_count(episodes@.take(i as int), today),
            comments == aired_comment_sum(episodes@.take(i as int), today),
            aired <= i,
            comments <= i * U32_MAX,
        decreases episodes@.len() - i,
    {
        let e = &episodes[i];
        assert(episodes@.take(i + 1).drop_last() =~= episodes@.take(i as int));
        proof {
            lemma_step_bounds(i as int, comments as int, 0, 0, e.comment);
        }
        if has_aired(e.airdate.as_str(), today) {
            aired = aired + 1;
            comments = comments + e.comment as u128;
        }
        i = i + 1;
    }
    assert(episodes@.take(i as int) =~= episodes@);
    if aired == 0 {
        Ratio::zero()
    } else {
        Ratio { num: comments, den: aired }
    }
}

/// An episode that has not aired by `today` (an empty or unreadable air
/// date among them) leaves the average comment count unchanged, wherever
/// it stands in the list.
pub proof fn lemma_unaired_episode_ignored(
    before: Seq<Episode>,
    e: Episode,
    after: Seq<Episode>,
    today: Date,
)
    requires
        !aired_spec(e.airdate@, today),
    ensures
        average_comment_spec(before.push(e) + after, today) == average_comment_spec(
            before + after,
            today,
        ),
{
    lemma_unaired_sums(before, e, after, today);
}

proof fn lemma_unaired_sums(before: Seq<Episode>, e: Episode, after: Seq<Episode>, today: Date)
    requires
        !aired_spec(e.airdate@, today),
    ensures
        aired_count(before.push(e) + after, today) == aired_count(before + after, today),
        aired_comment_sum(before.push(e) + after, today) == aired_comment_sum(
            before + after,
            today,
        ),
    decreases after.len(),
{
    if after.len() == 0 {
        assert(before.push(e) + after =~= before.push(e));
        assert(before + after =~= before);
        assert(before.push(e).drop_last() =~= before);
    } else {
        let a2 = after.drop_last();
        lemma_unaired_sums(before, e, a2, today);
        assert((before.push(e) + after).drop_last() =~= before.push(e) + a2);
        assert((before + after).drop_last() =~= before + a2);
    }
}

/// An episode with an empty air date never counts as aired.
pub proof fn lemma_empty_airdate_not_aired(e: Episode, today: Date)
    requires
        e.airdate@.len() == 0,
    ensures
        !aired_spec(e.airdate@, today),
{
}

/// The episodes of a list that aired before `today`, in list order.
pub open spec fn aired_only(eps: Seq<Episode>, today: Date) -> Seq<Episode> {
    eps.filter(|e: Episode| aired_spec(e.airdate@, today))
}

/// Keeping only the aired episodes of a list gives the same average
/// comment count as the whole list: only aired episodes are counted.
pub proof fn lemma_average_comment_of_aired(eps: Seq<Episode>, today: Date)
    ensures
        average_comment_spec(aired_only(eps, today), today) == average_comment_spec(eps, today),
        forall|i: int|
            0 <= i < aired_only(eps, today).len() ==> aired_spec(
                #[trigger] aired_only(eps, today)[i].airdate@,
                today,
            ),
{
    broadcast use vstd::seq_lib::group_filter_ensures;

    lemma_filter_sums(eps, today);
}

proof fn lemma_filter_sums(eps: Seq<Episode>, today: Date)
    ensures
        aired_count(eps.filter(|e: Episode| aired_spec(e.airdate@, today)), today) == aired_count(
            eps,
            today,
        ),
        aired_comment_sum(eps.filter(|e: Episode| aired_spec(e.airdate@, today)), today)
            == aired_comment_sum(eps, today),
    decreases eps.len(),
{
    let f = |e: Episode| aired_spec(e.airdate@, today);
    reveal(Seq::filter);
    if eps.len() == 0 {
        assert(eps.filter(f) =~= Seq::<Episode>::empty());
    } else {
        lemma_filter_sums(eps.drop_last(), today);
        if f(eps.last()) {
            assert(eps.filter(f) == eps.drop_last().filter(f).push(eps.last()));
            assert(eps.filter(f).drop_last() =~= eps.drop_last().filter(f));
        } else {
            assert(eps.filter(f) == eps.drop_last().filter(f));
        }
    }
}

} // verus!
