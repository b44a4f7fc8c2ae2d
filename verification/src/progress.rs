//! Experience, daily goal and level rules of the review dashboard.
use vstd::prelude::*;

verus! {

/// Experience for the first review of a card in today's queue.
pub const XP_SCHEDULED: i32 = 5;

/// Experience for the first extra practice of a card outside today's queue.
pub const XP_EXTRA: i32 = 2;

/// Experience for the second and third extra practice of a card on the same day.
pub const XP_RELEARNING: i32 = 1;

/// Bonus for completing the whole daily queue.
pub const XP_COMPLETION: i32 = 20;

/// Experience awarded for one review.
pub open spec fn review_xp(scheduled_review: bool, extra_reviews_for_card_today: int) -> int {
    if scheduled_review {
        XP_SCHEDULED as int
    } else if extra_reviews_for_card_today == 0 {
        XP_EXTRA as int
    } else if extra_reviews_for_card_today < 3 {
        XP_RELEARNING as int
    } else {
        0
    }
}

/// Experience of a review: the first review of a queued card earns the most;
/// extra practice of the same card earns less and less, then nothing.
pub fn calculate_review_xp(scheduled_review: bool, extra_reviews_for_card_today: i64) -> (xp: i32)
    ensures
        xp == review_xp(scheduled_review, extra_reviews_for_card_today as int),
{
    if scheduled_review {
        XP_SCHEDULED
    } else if extra_reviews_for_card_today == 0 {
        XP_EXTRA
    } else if extra_reviews_for_card_today < 3 {
        XP_RELEARNING
    } else {
        0
    }
}

/// Total experience of `n` extra practices of one card on one day.
pub open spec fn extra_practice_xp(n: nat) -> int
    decreases n,
{
    if n == 0 {
        0
    } else {
        extra_practice_xp((n - 1) as nat) + review_xp(false, n - 1)
    }
}

/// Repeating a card outside the queue cannot earn unlimited experience: however
/// many times it is practised on one day, it earns at most four points.
pub proof fn lemma_extra_practice_is_bounded(n: nat)
    ensures
        extra_practice_xp(n) <= XP_EXTRA + 2 * XP_RELEARNING,
        n >= 3 ==> extra_practice_xp(n) == XP_EXTRA + 2 * XP_RELEARNING,
        extra_practice_xp(n) == if n == 0 {
            0int
        } else if n == 1 {
            2int
        } else if n == 2 {
            3int
        } else {
            4int
        },
    decreases n,
{
    if n > 0 {
        lemma_extra_practice_is_bounded((n - 1) as nat);
    }
}

/// A review never earns more than the first review of a queued card, and more
/// extra practice of the same card never earns more than less.
pub proof fn lemma_review_xp_decreases_with_repetition(scheduled_review: bool, fewer: int, more: int)
    requires
        0 <= fewer <= more,
    ensures
        0 <= review_xp(scheduled_review, more) <= review_xp(scheduled_review, fewer)
            <= XP_SCHEDULED,
{
}

/// Whether this review is the first review today of a card in today's queue:
/// `first_reviewed` is `None` when the card is not queued today, and otherwise
/// tells whether it was already reviewed.
pub fn is_scheduled_review(first_reviewed: Option<bool>) -> (r: bool)
    ensures
        r == (first_reviewed == Some(false)),
{
    match first_reviewed {
        Some(already) => !already,
        None => false,
    }
}

/// The daily queue is complete: it is not empty and every card in it was reviewed.
pub fn completion_eligible(goal: i64, completed: i64) -> (r: bool)
    ensures
        r == (goal != 0 && completed >= goal),
{
    goal != 0 && completed >= goal
}

/// Cards left in today's queue (`goal - completed`, saturating).
pub fn remaining_reviews(goal: i64, completed: i64) -> (r: i64)
    ensures
        r as int == if goal - completed > i64::MAX {
            i64::MAX as int
        } else if goal - completed < i64::MIN {
            i64::MIN as int
        } else {
            goal - completed
        },
{
    if completed < 0 && goal > i64::MAX + completed {
        i64::MAX
    } else if completed > 0 && goal < i64::MIN + completed {
        i64::MIN
    } else {
        goal - completed
    }
}

/// `level` is the level of `total_xp` experience: level `n` starts at
/// `100 * (n - 1)^2` points, and negative totals are at level 1.
pub open spec fn is_level(total_xp: int, level: int) -> bool {
    let xp = if total_xp < 0 {
        0
    } else {
        total_xp
    };
    &&& level >= 1
    &&& 100 * (level - 1) * (level - 1) <= xp
    &&& xp < 100 * level * level
}

/// The level shown on the dashboard: `1 + floor(sqrt(total_xp / 100))`.
pub fn level_for_xp(total_xp: i64) -> (level: i64)
    ensures
        is_level(total_xp as int, level as int),
{
    let xp: i128 = if total_xp < 0 { 0 } else { total_xp as i128 };
    // Invariant: 100 * lo^2 <= xp < 100 * hi^2.
    let mut lo: i128 = 0;
    let mut hi: i128 = 400_000_000;
    assert(100 * hi * hi > xp) by (nonlinear_arith)
        requires
            hi == 400_000_000,
            xp <= 0x7fff_ffff_ffff_ffff,
    ;
    while hi - lo > 1
        invariant
            0 <= lo < hi <= 400_000_000,
            0 <= xp <= 0x7fff_ffff_ffff_ffff,
            100 * lo * lo <= xp,
            xp < 100 * hi * hi,
        decreases hi - lo,
    {
        let mid = lo + (hi - lo) / 2;
        assert(0 <= 100 * mid * mid <= 100 * 400_000_000 * 400_000_000) by (nonlinear_arith)
            requires
                0 <= mid <= 400_000_000,
        ;
        if 100 * mid * mid <= xp {
            lo = mid;
        } else {
            hi = mid;
        }
    }
    assert(hi == lo + 1);
    (lo + 1) as i64
}

/// More experience never lowers the level.
pub proof fn lemma_level_monotone(xp_low: int, xp_high: int, level_low: int, level_high: int)
    requires
        xp_low <= xp_high,
        is_level(xp_low, level_low),
        is_level(xp_high, level_high),
    ensures
        level_low <= level_high,
{
    let a = if xp_low < 0 { 0 } else { xp_low };
    let b = if xp_high < 0 { 0 } else { xp_high };
    assert(level_low <= level_high) by (nonlinear_arith)
        requires
            level_low >= 1,
            level_high >= 1,
            100 * (level_low - 1) * (level_low - 1) <= a,
            a <= b,
            b < 100 * level_high * level_high,
    ;
}

/// The experience of one review: 5 points for the first review of a card in
/// today's queue, 2 for the first extra practice of a card outside it, 1 for the
/// second and third, and nothing after that.
pub proof fn lemma_review_xp_values(scheduled_review: bool, extra_reviews_for_card_today: int)
    requires
        extra_reviews_for_card_today >= 0,
    ensures
        review_xp(scheduled_review, extra_reviews_for_card_today) == if scheduled_review {
            5int
        } else if extra_reviews_for_card_today == 0 {
            2int
        } else if extra_reviews_for_card_today <= 2 {
            1int
        } else {
            0int
        },
{
}

} // verus!
