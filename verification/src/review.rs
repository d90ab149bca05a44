//! The review schedule: when a paper is due, and when it is due next.
//!
//! Every review pushes the next one further out. The first reviews are a day
//! apart; once two review dates are known, the days between them, squared,
//! give the wait until the next.

use crate::paper::{PaperMeta, PaperView};
use vstd::prelude::*;

verus! {

/// Seconds in a day.
pub const SECONDS_PER_DAY: i64 = 86_400;

/// The whole days from `earlier` to `later`, rounded towards zero.
pub open spec fn days_between(later: i64, earlier: i64) -> int {
    if later >= earlier {
        (later - earlier) / (SECONDS_PER_DAY as int)
    } else {
        -((earlier - later) / (SECONDS_PER_DAY as int))
    }
}

/// The days to wait after a review, given the two review dates on record.
pub open spec fn wait_days(last_review: Option<i64>, next_review: Option<i64>) -> int {
    match (last_review, next_review) {
        (Some(last), Some(next)) => {
            let gap = days_between(next, last);
            if gap > 1 {
                gap * gap
            } else {
                2
            }
        },
        _ => 1,
    }
}

/// When a paper reviewed at `now` is due next.
pub open spec fn next_review_date(p: PaperView, now: i64) -> int {
    now + wait_days(p.last_review, p.next_review) * SECONDS_PER_DAY
}

/// Whether a paper is due at `now`: it was never scheduled, or its date has passed.
pub open spec fn reviewable(p: PaperView, now: i64) -> bool {
    match p.next_review {
        None => true,
        Some(due) => due < now,
    }
}

/// The paper after a review at `now`: the date that was due becomes the last
/// review, and the next is set.
pub open spec fn reviewed(p: PaperView, now: i64) -> PaperView
    recommends
        next_review_date(p, now) <= i64::MAX,
{
    PaperView {
        last_review: p.next_review,
        next_review: Some(next_review_date(p, now) as i64),
        ..p
    }
}

/// The wait is at least a day.
pub proof fn lemma_wait_is_positive(last_review: Option<i64>, next_review: Option<i64>)
    ensures
        wait_days(last_review, next_review) >= 1,
{
    if let (Some(last), Some(next)) = (last_review, next_review) {
        let gap = days_between(next, last);
        if gap > 1 {
            assert(gap * gap >= 1) by (nonlinear_arith)
                requires
                    gap > 1,
            ;
        }
    }
}

/// A review never schedules the next one in the past.
pub proof fn lemma_next_review_is_later(p: PaperView, now: i64)
    ensures
        next_review_date(p, now) >= now + 86_400,
{
    lemma_wait_is_positive(p.last_review, p.next_review);
}

/// A paper that was never reviewed is due a day after its first review; a
/// second review, then or later, sets a date no earlier than the first did.
pub proof fn lemma_first_reviews(p: PaperView, now: i64, again: i64)
    requires
        p.last_review is None,
        p.next_review is None,
        now <= again,
        again + 86_400 <= i64::MAX,
    ensures
        reviewed(p, now).next_review == Some((now + 86_400) as i64),
        reviewed(p, now).last_review is None,
        reviewed(reviewed(p, now), again).last_review == reviewed(p, now).next_review,
        reviewed(reviewed(p, now), again).next_review == Some((again + 86_400) as i64),
        reviewed(reviewed(p, now), again).next_review->0 >= reviewed(p, now).next_review->0,
{
}

/// Reviewing a paper that is due, and reviewing it again at once, never
/// shortens the wait.
pub proof fn lemma_wait_never_shrinks(p: PaperView, now: i64)
    requires
        p.next_review matches Some(due) && due <= now,
        next_review_date(p, now) <= i64::MAX,
    ensures
        wait_days(reviewed(p, now).last_review, reviewed(p, now).next_review) >= wait_days(
            p.last_review,
            p.next_review,
        ),
{
    let w = wait_days(p.last_review, p.next_review);
    lemma_wait_is_positive(p.last_review, p.next_review);
    let due = p.next_review->0;
    let next = next_review_date(p, now);
    let gap = days_between(next as i64, due);
    assert(next - due >= w * 86_400);
    assert(gap >= w) by (nonlinear_arith)
        requires
            next - due >= w * 86_400,
            gap == (next - due) / 86_400,
            w >= 1,
    ;
    if gap > 1 {
        assert(gap * gap >= gap) by (nonlinear_arith)
            requires
                gap > 1,
        ;
    }
}

impl PaperMeta {
    /// Whether the paper is due for review at `now`.
    pub fn is_reviewable(&self, now: i64) -> (r: bool)
        ensures
            r == reviewable(self@, now),
    {
        match self.next_review {
            None => true,
            Some(due) => due < now,
        }
    }

    /// When the paper is due next if it is reviewed at `now`, or `None` where
    /// that date lies beyond the last second that can be told.
    pub fn calculate_next_review_date(&self, now: i64) -> (r: Option<i64>)
        ensures
            r is Some <==> next_review_date(self@, now) <= i64::MAX,
            r matches Some(d) ==> d == next_review_date(self@, now),
    {
        proof {
            lemma_wait_is_positive(self.last_review, self.next_review);
        }
        let wait: i128 = match (self.last_review, self.next_review) {
            (Some(last), Some(next)) => {
                if next > last {
                    let gap: i128 = (next as i128 - last as i128) / 86_400;
                    if gap > 1 {
                        assert(gap <= 0x1_0000_0000_0000);
                        assert(gap * gap <= 0x1_0000_0000_0000 * 0x1_0000_0000_0000)
                            by (nonlinear_arith)
                            requires
                                0 <= gap <= 0x1_0000_0000_0000,
                        ;
                        gap * gap
                    } else {
                        2
                    }
                } else {
                    2
                }
            },
            _ => 1,
        };
        assert(wait == wait_days(self.last_review, self.next_review));
        if wait > 0x1_0000_0000_0000 {
            None
        } else {
            let due: i128 = now as i128 + wait * 86_400;
            if due > i64::MAX as i128 {
                None
            } else {
                Some(due as i64)
            }
        }
    }

    /// Records a review at `now`: the date that was due becomes the last
    /// review, and the next review is scheduled.
    pub fn update_review(&mut self, now: i64)
        requires
            next_review_date(old(self)@, now) <= i64::MAX,
        ensures
            final(self)@ == reviewed(old(self)@, now),
    {
        let next = self.calculate_next_review_date(now);
        self.last_review = self.next_review;
        self.next_review = next;
    }

    /// Records a review at `now` if the next date can be told, and says
    /// whether it did; the paper is left as it was where it did not.
    pub fn try_update_review(&mut self, now: i64) -> (done: bool)
        ensures
            done == (next_review_date(old(self)@, now) <= i64::MAX),
            done ==> final(self)@ == reviewed(old(self)@, now),
            !done ==> final(self)@ == old(self)@,
    {
        match self.calculate_next_review_date(now) {
            Some(next) => {
                self.last_review = self.next_review;
                self.next_review = Some(next);
                true
            },
            None => false,
        }
    }
}

} // verus!
