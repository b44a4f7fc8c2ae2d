//! Spaced-repetition scheduling: how long a card waits before it is due again.
//!
//! Every ratio of the schedule is a decimal fraction, so the library computes
//! the exact rational interval and rounds it half away from zero, saturating
//! at the bounds of `i64`.
use vstd::prelude::*;
use vstd::arithmetic::div_mod::{
    lemma_div_is_ordered, lemma_div_is_ordered_by_denominator, lemma_div_pos_is_pos,
    lemma_fundamental_div_mod, lemma_fundamental_div_mod_converse, lemma_mod_pos_bound,
};

verus! {

/// One day, in seconds.
pub const DAY: i64 = 86_400;

/// The first interval of a card that has never been reviewed.
pub open spec fn new_card_step(correct: bool, difficulty: int) -> int {
    if correct {
        if difficulty == 1 {
            604_800
        } else if difficulty == 2 {
            432_000
        } else if difficulty == 3 {
            259_200
        } else if difficulty == 4 {
            172_800
        } else {
            86_400
        }
    } else {
        lapse_floor(difficulty)
    }
}

/// Shortest interval after a wrong answer (also the first step of a new card answered wrongly).
pub open spec fn lapse_floor(difficulty: int) -> int {
    if difficulty == 1 {
        86_400
    } else if difficulty == 2 {
        43_200
    } else if difficulty == 3 {
        21_600
    } else if difficulty == 4 {
        7_200
    } else {
        600
    }
}

/// Longest interval after a wrong answer: five days for the easiest rating down to one day.
pub open spec fn lapse_cap(difficulty: int) -> int {
    (6 - difficulty) * 86_400
}

/// Growth factor of a correct answer, in tenths (3.2, 2.6, 2.0, 1.5, 1.2).
pub open spec fn growth_tenths(difficulty: int) -> int {
    if difficulty == 1 {
        32
    } else if difficulty == 2 {
        26
    } else if difficulty == 3 {
        20
    } else if difficulty == 4 {
        15
    } else {
        12
    }
}

/// Shrink factor of a wrong answer, in tenths (0.5, 0.4, 0.3, 0.2, 0.1).
pub open spec fn lapse_tenths(difficulty: int) -> int {
    6 - difficulty
}

/// `num / den` rounded to the nearest integer, halves away from zero.
pub open spec fn round_half_away(num: int, den: int) -> int {
    if num >= 0 {
        (2 * num + den) / (2 * den)
    } else {
        -((2 * (-num) + den) / (2 * den))
    }
}

/// The nearest value representable as an `i64`.
pub open spec fn saturate_i64(x: int) -> int {
    if x > i64::MAX {
        i64::MAX as int
    } else if x < i64::MIN {
        i64::MIN as int
    } else {
        x
    }
}

pub open spec fn clamp(x: int, lo: int, hi: int) -> int {
    if x < lo {
        lo
    } else if x > hi {
        hi
    } else {
        x
    }
}

pub open spec fn max_int(a: int, b: int) -> int {
    if a >= b { a } else { b }
}

pub open spec fn min_int(a: int, b: int) -> int {
    if a <= b { a } else { b }
}

/// Interval after a correct answer on a card already in review:
/// `max(current, DAY) * growth * (1 + 0.03 * min(streak, 5))`, at least one day.
pub open spec fn grown_interval(current: int, difficulty: int, consecutive_correct: int) -> int {
    let base = max_int(current, 86_400);
    let bonus_hundredths = 100 + 3 * min_int(consecutive_correct, 5);
    max_int(
        saturate_i64(round_half_away(base * growth_tenths(difficulty) * bonus_hundredths, 1000)),
        86_400,
    )
}

/// Interval after a wrong answer on a card already in review:
/// `current * shrink * (1 - 0.1 * min(lapses, 3))`, kept between the floor and the cap.
pub open spec fn lapsed_interval(current: int, difficulty: int, consecutive_incorrect: int) -> int {
    let penalty_tenths = 10 - min_int(consecutive_incorrect, 3);
    clamp(
        saturate_i64(round_half_away(current * lapse_tenths(difficulty) * penalty_tenths, 100)),
        lapse_floor(difficulty),
        lapse_cap(difficulty),
    )
}

/// The interval, in seconds, that follows a review.
pub open spec fn next_interval(
    current: int,
    correct: bool,
    difficulty: int,
    consecutive_correct: int,
    consecutive_incorrect: int,
) -> int {
    if current == 0 {
        new_card_step(correct, difficulty)
    } else if correct {
        grown_interval(current, difficulty, consecutive_correct)
    } else {
        lapsed_interval(current, difficulty, consecutive_incorrect)
    }
}

/// The review state that follows a review.
pub open spec fn next_state(current: int, correct: bool) -> Seq<char> {
    if correct {
        "review"@
    } else if current == 0 {
        "learning"@
    } else {
        "relearning"@
    }
}

fn round_half_away_exec(num: i128, den: i128) -> (r: i128)
    requires
        0 < den <= 1000,
        -0x4000_0000_0000_0000_0000_0000_0000 <= num <= 0x4000_0000_0000_0000_0000_0000_0000,
    ensures
        r == round_half_away(num as int, den as int),
{
    if num >= 0 {
        (2 * num + den) / (2 * den)
    } else {
        let q = (2 * (-num) + den) / (2 * den);
        proof {
            lemma_div_pos_is_pos(2 * (-num) + den, 2 * den);
            lemma_div_is_ordered_by_denominator(2 * (-num) + den, 1, 2 * den);
        }
        -q
    }
}

fn saturate_exec(x: i128) -> (r: i64)
    ensures
        r == saturate_i64(x as int),
{
    if x > i64::MAX as i128 {
        i64::MAX
    } else if x < i64::MIN as i128 {
        i64::MIN
    } else {
        x as i64
    }
}

/// Computes the next interval and review state of a card.
///
/// A card that was never reviewed (`current == 0`) gets its first learning step;
/// a correct answer grows the interval by the difficulty's factor and the
/// recent streak, a wrong answer shrinks it between a floor and a cap.
pub fn calculate_interval(
    current: i64,
    correct: bool,
    difficulty: i16,
    consecutive_correct: i32,
    consecutive_incorrect: i32,
) -> (r: (i64, String))
    requires
        1 <= difficulty <= 5,
    ensures
        r.0 == next_interval(
            current as int,
            correct,
            difficulty as int,
            consecutive_correct as int,
            consecutive_incorrect as int,
        ),
        r.1@ == next_state(current as int, correct),
{
    let d: i128 = difficulty as i128;
    if current == 0 {
        let seconds: i64 = if correct {
            if difficulty == 1 {
                7 * DAY
            } else if difficulty == 2 {
                5 * DAY
            } else if difficulty == 3 {
                3 * DAY
            } else if difficulty == 4 {
                2 * DAY
            } else {
                DAY
            }
        } else {
            lapse_floor_exec(difficulty)
        };
        let state = if correct {
            String::from_str("review")
        } else {
            String::from_str("learning")
        };
        return (seconds, state);
    }
    if correct {
        let base: i128 = if current < DAY { DAY as i128 } else { current as i128 };
        let streak: i128 = if consecutive_correct < 5 { consecutive_correct as i128 } else { 5 };
        let growth: i128 = if difficulty == 1 {
            32
        } else if difficulty == 2 {
            26
        } else if difficulty == 3 {
            20
        } else if difficulty == 4 {
            15
        } else {
            12
        };
        let bonus: i128 = 100 + 3 * streak;
        assert(-0x4000_0000_0000_0000_0000_0000_0000 <= base * growth * bonus
            <= 0x4000_0000_0000_0000_0000_0000_0000) by (nonlinear_arith)
            requires
                86_400 <= base <= 0x7fff_ffff_ffff_ffff,
                12 <= growth <= 32,
                -0x2_0000_0000 <= bonus <= 115,
        ;
        assert(0 <= base * growth <= 0x10_0000_0000_0000_0000) by (nonlinear_arith)
            requires
                86_400 <= base <= 0x7fff_ffff_ffff_ffff,
                12 <= growth <= 32,
        ;
        let value = saturate_exec(round_half_away_exec(base * growth * bonus, 1000));
        let seconds = if value < DAY { DAY } else { value };
        (seconds, String::from_str("review"))
    } else {
        let lapses: i128 = if consecutive_incorrect < 3 { consecutive_incorrect as i128 } else { 3 };
        let shrink: i128 = 6 - d;
        let penalty: i128 = 10 - lapses;
        let c: i128 = current as i128;
        assert(-0x4000_0000_0000_0000_0000_0000_0000 <= c * shrink * penalty
            <= 0x4000_0000_0000_0000_0000_0000_0000) by (nonlinear_arith)
            requires
                -0x8000_0000_0000_0000 <= c <= 0x7fff_ffff_ffff_ffff,
                1 <= shrink <= 5,
                7 <= penalty <= 0x1_0000_0000,
        ;
        assert(-0x10_0000_0000_0000_0000 <= c * shrink <= 0x10_0000_0000_0000_0000) by (nonlinear_arith)
            requires
                -0x8000_0000_0000_0000 <= c <= 0x7fff_ffff_ffff_ffff,
                1 <= shrink <= 5,
        ;
        let reduced = saturate_exec(round_half_away_exec(c * shrink * penalty, 100));
        let floor = lapse_floor_exec(difficulty);
        let cap = (6 - difficulty as i64) * DAY;
        let seconds = if reduced < floor {
            floor
        } else if reduced > cap {
            cap
        } else {
            reduced
        };
        (seconds, String::from_str("relearning"))
    }
}

fn lapse_floor_exec(difficulty: i16) -> (r: i64)
    requires
        1 <= difficulty <= 5,
    ensures
        r == lapse_floor(difficulty as int),
{
    if difficulty == 1 {
        DAY
    } else if difficulty == 2 {
        12 * 3_600
    } else if difficulty == 3 {
        6 * 3_600
    } else if difficulty == 4 {
        2 * 3_600
    } else {
        10 * 60
    }
}

proof fn lemma_round_exact(l: int, den: int)
    requires
        den > 0,
    ensures
        (2 * (l * den) + den) / (2 * den) == l,
{
    assert(2 * (l * den) + den == l * (2 * den) + den) by (nonlinear_arith);
    lemma_fundamental_div_mod_converse(2 * (l * den) + den, 2 * den, l, den);
}

proof fn lemma_round_monotone(a: int, b: int, den: int)
    requires
        a <= b,
        den > 0,
    ensures
        round_half_away(a, den) <= round_half_away(b, den),
{
    if a >= 0 {
        lemma_div_is_ordered(2 * a + den, 2 * b + den, 2 * den);
    } else if b < 0 {
        lemma_div_is_ordered(2 * (-b) + den, 2 * (-a) + den, 2 * den);
    } else {
        lemma_div_pos_is_pos(2 * (-a) + den, 2 * den);
        lemma_div_pos_is_pos(2 * b + den, 2 * den);
    }
}

proof fn lemma_round_at_least(num: int, den: int, l: int)
    requires
        den > 0,
        l >= 0,
        num >= l * den,
    ensures
        round_half_away(num, den) >= l,
{
    assert(l * den >= 0) by (nonlinear_arith)
        requires
            l >= 0,
            den > 0,
    ;
    lemma_round_exact(l, den);
    lemma_round_monotone(l * den, num, den);
}

proof fn lemma_round_at_most(num: int, den: int, u: int)
    requires
        den > 0,
        u >= 0,
        num <= u * den,
    ensures
        round_half_away(num, den) <= u,
{
    assert(u * den >= 0) by (nonlinear_arith)
        requires
            u >= 0,
            den > 0,
    ;
    lemma_round_exact(u, den);
    lemma_round_monotone(num, u * den, den);
}

proof fn lemma_round_sign(num: int, den: int)
    requires
        den > 0,
    ensures
        num >= 0 ==> round_half_away(num, den) >= 0,
        num <= 0 ==> round_half_away(num, den) <= 0,
{
    lemma_round_exact(0, den);
    if num >= 0 {
        lemma_round_monotone(0, num, den);
    } else {
        lemma_round_monotone(num, 0, den);
    }
}

proof fn lemma_grown_monotone(num_lo: int, num_hi: int)
    requires
        num_lo <= num_hi,
    ensures
        max_int(saturate_i64(round_half_away(num_lo, 1000)), 86_400) <= max_int(
            saturate_i64(round_half_away(num_hi, 1000)),
            86_400,
        ),
{
    lemma_round_monotone(num_lo, num_hi, 1000);
}

proof fn lemma_grown_at_least_base(current: int, difficulty: int, consecutive_correct: int)
    requires
        1 <= difficulty <= 5,
        consecutive_correct >= 0,
        current <= i64::MAX,
    ensures
        grown_interval(current, difficulty, consecutive_correct) >= max_int(current, 86_400),
{
    let base = max_int(current, 86_400);
    let g = growth_tenths(difficulty);
    let b = 100 + 3 * min_int(consecutive_correct, 5);
    assert(base * g * b >= base * 1000) by (nonlinear_arith)
        requires
            base >= 0,
            g >= 12,
            b >= 100,
    ;
    lemma_round_at_least(base * g * b, 1000, base);
}

proof fn lemma_lapsed_below_base(current: int, difficulty: int, consecutive_incorrect: int)
    requires
        1 <= difficulty <= 5,
        consecutive_incorrect >= 0,
        current > 0,
    ensures
        lapsed_interval(current, difficulty, consecutive_incorrect) <= max_int(current, 86_400),
        lapse_floor(difficulty) <= lapsed_interval(current, difficulty, consecutive_incorrect)
            <= lapse_cap(difficulty),
{
    let l = lapse_tenths(difficulty);
    let p = 10 - min_int(consecutive_incorrect, 3);
    assert(0 <= current * l * p <= current * 100) by (nonlinear_arith)
        requires
            current > 0,
            1 <= l <= 5,
            7 <= p <= 10,
    ;
    lemma_round_at_most(current * l * p, 100, current);
    lemma_round_sign(current * l * p, 100);
}

/// A correct answer never shortens the wait of a card, and always waits at least a day.
pub proof fn lemma_correct_answer_never_shortens(
    current: int,
    difficulty: int,
    consecutive_correct: int,
    consecutive_incorrect: int,
)
    requires
        0 <= current <= i64::MAX,
        1 <= difficulty <= 5,
        consecutive_correct >= 0,
    ensures
        next_interval(current, true, difficulty, consecutive_correct, consecutive_incorrect)
            >= current,
        next_interval(current, true, difficulty, consecutive_correct, consecutive_incorrect)
            >= DAY,
{
    if current != 0 {
        lemma_grown_at_least_base(current, difficulty, consecutive_correct);
    }
}

/// A wrong answer on a card that waited at least a day never lengthens its wait,
/// and the new wait stays between the floor and the cap of the rating.
pub proof fn lemma_wrong_answer_never_lengthens(
    current: int,
    difficulty: int,
    consecutive_correct: int,
    consecutive_incorrect: int,
)
    requires
        current >= DAY,
        1 <= difficulty <= 5,
        consecutive_incorrect >= 0,
    ensures
        next_interval(current, false, difficulty, consecutive_correct, consecutive_incorrect)
            <= current,
        lapse_floor(difficulty) <= next_interval(
            current,
            false,
            difficulty,
            consecutive_correct,
            consecutive_incorrect,
        ) <= lapse_cap(difficulty),
{
    lemma_lapsed_below_base(current, difficulty, consecutive_incorrect);
}

/// A wrong answer always leads to a wait no longer than any correct answer would,
/// whatever ratings the two answers carry.
pub proof fn lemma_wrong_answer_waits_less_than_right_answer(
    current: int,
    wrong_difficulty: int,
    right_difficulty: int,
    consecutive_correct: int,
    consecutive_incorrect: int,
)
    requires
        0 <= current <= i64::MAX,
        1 <= wrong_difficulty <= 5,
        1 <= right_difficulty <= 5,
        consecutive_correct >= 0,
        consecutive_incorrect >= 0,
    ensures
        next_interval(current, false, wrong_difficulty, consecutive_correct, consecutive_incorrect)
            <= next_interval(
            current,
            true,
            right_difficulty,
            consecutive_correct,
            consecutive_incorrect,
        ),
{
    if current != 0 {
        lemma_lapsed_below_base(current, wrong_difficulty, consecutive_incorrect);
        lemma_grown_at_least_base(current, right_difficulty, consecutive_correct);
    }
}

/// For the same answer, an easier rating never leads to a shorter wait than a harder one.
pub proof fn lemma_easier_rating_waits_longer(
    current: int,
    correct: bool,
    easier: int,
    harder: int,
    consecutive_correct: int,
    consecutive_incorrect: int,
)
    requires
        1 <= easier <= harder <= 5,
    ensures
        next_interval(current, correct, easier, consecutive_correct, consecutive_incorrect)
            >= next_interval(current, correct, harder, consecutive_correct, consecutive_incorrect),
{
    if current == 0 {
    } else if correct {
        let base = max_int(current, 86_400);
        let b = 100 + 3 * min_int(consecutive_correct, 5);
        let ge = growth_tenths(easier);
        let gh = growth_tenths(harder);
        assert(ge >= gh);
        if b >= 0 {
            assert(base * gh * b <= base * ge * b) by (nonlinear_arith)
                requires
                    base >= 0,
                    gh <= ge,
                    b >= 0,
            ;
            lemma_grown_monotone(base * gh * b, base * ge * b);
        } else {
            assert(base * gh * b <= 0 && base * ge * b <= 0) by (nonlinear_arith)
                requires
                    base >= 0,
                    gh >= 0,
                    ge >= 0,
                    b < 0,
            ;
            lemma_round_sign(base * gh * b, 1000);
            lemma_round_sign(base * ge * b, 1000);
        }
    } else {
        let p = 10 - min_int(consecutive_incorrect, 3);
        let le = lapse_tenths(easier);
        let lh = lapse_tenths(harder);
        if current > 0 {
            assert(current * lh * p <= current * le * p) by (nonlinear_arith)
                requires
                    current > 0,
                    1 <= lh <= le,
                    p >= 7,
            ;
            lemma_round_monotone(current * lh * p, current * le * p, 100);
        } else {
            assert(current * lh * p <= 0 && current * le * p <= 0) by (nonlinear_arith)
                requires
                    current < 0,
                    lh >= 1,
                    le >= 1,
                    p >= 7,
            ;
            lemma_round_sign(current * lh * p, 100);
            lemma_round_sign(current * le * p, 100);
        }
    }
}

/// After a correct answer, a longer run of earlier correct answers never shortens the wait.
pub proof fn lemma_streak_lengthens_wait(
    current: int,
    difficulty: int,
    shorter_streak: int,
    longer_streak: int,
    consecutive_incorrect: int,
)
    requires
        1 <= difficulty <= 5,
        shorter_streak <= longer_streak,
    ensures
        next_interval(current, true, difficulty, shorter_streak, consecutive_incorrect)
            <= next_interval(current, true, difficulty, longer_streak, consecutive_incorrect),
{
    if current != 0 {
        let base = max_int(current, 86_400);
        let g = growth_tenths(difficulty);
        let bs = 100 + 3 * min_int(shorter_streak, 5);
        let bl = 100 + 3 * min_int(longer_streak, 5);
        assert(base * g * bs <= base * g * bl) by (nonlinear_arith)
            requires
                base >= 0,
                g >= 0,
                bs <= bl,
        ;
        lemma_grown_monotone(base * g * bs, base * g * bl);
    }
}

/// After a wrong answer, a longer run of earlier wrong answers never lengthens the wait.
pub proof fn lemma_repeated_lapses_shorten_wait(
    current: int,
    difficulty: int,
    consecutive_correct: int,
    fewer_lapses: int,
    more_lapses: int,
)
    requires
        current >= 0,
        1 <= difficulty <= 5,
        fewer_lapses <= more_lapses,
    ensures
        next_interval(current, false, difficulty, consecutive_correct, fewer_lapses)
            >= next_interval(current, false, difficulty, consecutive_correct, more_lapses),
{
    if current != 0 {
        let l = lapse_tenths(difficulty);
        let pf = 10 - min_int(fewer_lapses, 3);
        let pm = 10 - min_int(more_lapses, 3);
        assert(current * l * pm <= current * l * pf) by (nonlinear_arith)
            requires
                current >= 0,
                l >= 0,
                pm <= pf,
        ;
        lemma_round_monotone(current * l * pm, current * l * pf, 100);
    }
}

/// `round_half_away(num, den)` is the integer nearest to `num / den`, halves upwards.
proof fn lemma_round_nearest(num: int, den: int)
    requires
        num >= 0,
        den > 0,
    ensures
        -den < (2 * den) * round_half_away(num, den) - 2 * num <= den,
{
    let x = 2 * num + den;
    let d = 2 * den;
    lemma_fundamental_div_mod(x, d);
    lemma_mod_pos_bound(x, d);
}

/// The first review of a new card: a right answer waits 7, 5, 3, 2 or 1 days for
/// the ratings 1 to 5, a wrong one 1 day, 12 hours, 6 hours, 2 hours or 10
/// minutes; either way the streaks play no part.
pub proof fn lemma_first_review_steps(
    correct: bool,
    difficulty: int,
    consecutive_correct: int,
    consecutive_incorrect: int,
)
    requires
        1 <= difficulty <= 5,
    ensures
        next_interval(0, correct, difficulty, consecutive_correct, consecutive_incorrect) == (
        if correct {
            if difficulty == 1 {
                7 * 86_400int
            } else if difficulty == 2 {
                5 * 86_400int
            } else if difficulty == 3 {
                3 * 86_400int
            } else if difficulty == 4 {
                2 * 86_400int
            } else {
                86_400int
            }
        } else {
            if difficulty == 1 {
                86_400int
            } else if difficulty == 2 {
                12 * 3600int
            } else if difficulty == 3 {
                6 * 3600int
            } else if difficulty == 4 {
                2 * 3600int
            } else {
                10 * 60int
            }
        }),
        next_state(0, correct) == if correct {
            "review"@
        } else {
            "learning"@
        },
{
}

/// A right answer on a card already in review: the new wait is the whole number
/// of seconds nearest (halves upwards) to
/// `max(current, 1 day) × g × (1 + 0.03 × min(streak, 5))`, where the growth
/// factor `g` is 3.2, 2.6, 2.0, 1.5 and 1.2 for the ratings 1 to 5. In
/// thousandths of a second that exact value is `exact` below, and the wait is
/// within half a second of it.
pub proof fn lemma_right_answer_grows_by_rating_factor(
    current: int,
    difficulty: int,
    consecutive_correct: int,
    consecutive_incorrect: int,
)
    requires
        0 < current <= 1_000_000_000_000_000,
        1 <= difficulty <= 5,
        consecutive_correct >= 0,
    ensures
        ({
            let base = if current < 86_400 { 86_400 } else { current };
            let factor_tenths = if difficulty == 1 {
                32int
            } else if difficulty == 2 {
                26int
            } else if difficulty == 3 {
                20int
            } else if difficulty == 4 {
                15int
            } else {
                12int
            };
            let bonus_hundredths = if consecutive_correct < 5 {
                100 + 3 * consecutive_correct
            } else {
                115
            };
            let exact = base * factor_tenths * bonus_hundredths;
            let wait = next_interval(
                current,
                true,
                difficulty,
                consecutive_correct,
                consecutive_incorrect,
            );
            exact - 500 < 1000 * wait <= exact + 500
        }),
        next_state(current, true) == "review"@,
{
    let base = max_int(current, 86_400);
    let g = growth_tenths(difficulty);
    let b = 100 + 3 * min_int(consecutive_correct, 5);
    let num = base * g * b;
    assert(103_680_000 <= num <= 4_000_000_000_000_000_000) by (nonlinear_arith)
        requires
            86_400 <= base <= 1_000_000_000_000_000,
            12 <= g <= 32,
            100 <= b <= 115,
            num == base * g * b,
    ;
    lemma_round_nearest(num, 1000);
    let q = round_half_away(num, 1000);
    assert(q >= 86_400 && q <= i64::MAX);
}

/// A wrong answer on a card already in review: the new wait is the whole number
/// of seconds nearest (halves upwards) to
/// `current × s × (1 − 0.1 × min(lapses, 3))`, with the shrink factor `s` 0.5,
/// 0.4, 0.3, 0.2 and 0.1 for the ratings 1 to 5, raised to the rating's floor
/// (1 day, 12 hours, 6 hours, 2 hours, 10 minutes) or lowered to its cap (5, 4,
/// 3, 2 or 1 days). In hundredths of a second that exact value is `exact` below.
pub proof fn lemma_wrong_answer_shrinks_by_rating_factor(
    current: int,
    difficulty: int,
    consecutive_correct: int,
    consecutive_incorrect: int,
)
    requires
        0 < current <= i64::MAX,
        1 <= difficulty <= 5,
        consecutive_incorrect >= 0,
    ensures
        ({
            let shrink_tenths = if difficulty == 1 {
                5int
            } else if difficulty == 2 {
                4int
            } else if difficulty == 3 {
                3int
            } else if difficulty == 4 {
                2int
            } else {
                1int
            };
            let floor = if difficulty == 1 {
                86_400int
            } else if difficulty == 2 {
                43_200int
            } else if difficulty == 3 {
                21_600int
            } else if difficulty == 4 {
                7_200int
            } else {
                600int
            };
            let cap = if difficulty == 1 {
                5 * 86_400int
            } else if difficulty == 2 {
                4 * 86_400int
            } else if difficulty == 3 {
                3 * 86_400int
            } else if difficulty == 4 {
                2 * 86_400int
            } else {
                86_400int
            };
            let penalty_tenths = if consecutive_incorrect < 3 {
                10 - consecutive_incorrect
            } else {
                7
            };
            let exact = current * shrink_tenths * penalty_tenths;
            let wait = next_interval(
                current,
                false,
                difficulty,
                consecutive_correct,
                consecutive_incorrect,
            );
            &&& floor <= wait <= cap
            &&& wait > floor ==> 100 * wait - 50 <= exact
            &&& wait < cap ==> exact < 100 * wait + 50
        }),
        next_state(current, false) == "relearning"@,
{
    let l = lapse_tenths(difficulty);
    let p = 10 - min_int(consecutive_incorrect, 3);
    let num = current * l * p;
    assert(0 <= num <= 50 * current) by (nonlinear_arith)
        requires
            current > 0,
            1 <= l <= 5,
            7 <= p <= 10,
            num == current * l * p,
    ;
    lemma_round_nearest(num, 100);
    let q = round_half_away(num, 100);
    assert(0 <= q <= i64::MAX);
    assert(saturate_i64(q) == q);
    assert(lapsed_interval(current, difficulty, consecutive_incorrect) == clamp(
        q,
        lapse_floor(difficulty),
        lapse_cap(difficulty),
    ));
    assert(-100 < 200 * q - 2 * num <= 100);
    let shrink_tenths = if difficulty == 1 {
        5int
    } else if difficulty == 2 {
        4int
    } else if difficulty == 3 {
        3int
    } else if difficulty == 4 {
        2int
    } else {
        1int
    };
    let penalty_tenths = if consecutive_incorrect < 3 {
        10 - consecutive_incorrect
    } else {
        7
    };
    assert(l == shrink_tenths && p == penalty_tenths);
    assert(num == current * shrink_tenths * penalty_tenths);
}

} // verus!
