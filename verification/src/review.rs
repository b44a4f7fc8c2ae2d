//! A single review: whether the answer was right, and the local day it counts for.
use vstd::prelude::*;
use vstd::arithmetic::div_mod::lemma_fundamental_div_mod_converse;
use crate::model::{invalid_request, Refusal, ReviewError};
use crate::text::{eq_ignore_ascii_case, eq_ignore_ascii_case_spec, same_text, trim, trim_seq};
use crate::validation::result_view;

verus! {

/// The answer given to a card.
pub struct ReviewRequest {
    pub difficulty: i16,
    pub selected_answer: Option<String>,
    pub correct: Option<bool>,
    pub response_time_ms: Option<i32>,
    pub timezone_offset_minutes: i32,
}

/// Whether an answer was right: a classic card reports it itself; for the other
/// cards the selected answer must match the expected one, ignoring surrounding
/// whitespace and the case of ASCII letters.
pub open spec fn answer_check(
    card_type: Seq<char>,
    answer: Seq<char>,
    correct: Option<bool>,
    selected_answer: Option<Seq<char>>,
) -> Result<bool, Refusal> {
    if card_type == "classic"@ {
        match correct {
            Some(c) => Ok(c),
            None => Err(Refusal::InvalidRequest("classic cards require correct"@)),
        }
    } else {
        match selected_answer {
            Some(s) => Ok(eq_ignore_ascii_case_spec(trim_seq(s), trim_seq(answer))),
            None => Err(Refusal::InvalidRequest("selected_answer is required"@)),
        }
    }
}

pub open spec fn option_view(o: Option<String>) -> Option<Seq<char>> {
    match o {
        Some(s) => Some(s@),
        None => None,
    }
}

/// Decides whether the answer of a review was right.
pub fn determine_correct(card_type: &str, answer: &str, request: &ReviewRequest) -> (r: Result<
    bool,
    ReviewError,
>)
    ensures
        result_view(r) == answer_check(
            card_type@,
            answer@,
            request.correct,
            option_view(request.selected_answer),
        ),
{
    if same_text(card_type, "classic") {
        return match request.correct {
            Some(c) => Ok(c),
            None => Err(invalid_request("classic cards require correct")),
        };
    }
    match &request.selected_answer {
        Some(selected) => Ok(eq_ignore_ascii_case(trim(selected.as_str()), trim(answer))),
        None => Err(invalid_request("selected_answer is required")),
    }
}

/// The local day a review counts for, and the instants where that day starts
/// and ends. Days are numbered from 1970-01-01 and instants are seconds of Unix time.
pub struct ReviewWindow {
    pub date: i64,
    pub start: i64,
    pub end: i64,
}

/// The review window at instant `now` for a time zone `offset_minutes` east of UTC:
/// the local day of `now`, and its first and last instants, both in UTC.
pub open spec fn window_spec(offset_minutes: int, now: int) -> Result<(int, int, int), Refusal> {
    if !(-840 <= offset_minutes <= 840) {
        Err(Refusal::InvalidRequest("invalid timezone offset"@))
    } else {
        let date = (now + offset_minutes * 60) / 86_400;
        let start = date * 86_400 - offset_minutes * 60;
        let end = start + 86_400;
        if i64::MIN <= date && i64::MIN <= start && end <= i64::MAX {
            Ok((date, start, end))
        } else {
            Err(Refusal::Internal("review date overflow"@))
        }
    }
}

/// The local day of `now` in a time zone `offset_minutes` east of UTC (at most 14
/// hours either way), with its first and last instants.
pub fn review_window(offset_minutes: i32, now: i64) -> (r: Result<ReviewWindow, ReviewError>)
    ensures
        match r {
            Ok(w) => window_spec(offset_minutes as int, now as int) == Ok::<
                (int, int, int),
                Refusal,
            >((w.date as int, w.start as int, w.end as int)),
            Err(e) => window_spec(offset_minutes as int, now as int) == Err::<
                (int, int, int),
                Refusal,
            >(e@),
        },
{
    if !(-14 * 60 <= offset_minutes && offset_minutes <= 14 * 60) {
        return Err(invalid_request("invalid timezone offset"));
    }
    let offset: i128 = offset_minutes as i128 * 60;
    let local: i128 = now as i128 + offset;
    let date: i128 = if local >= 0 {
        local / 86_400
    } else {
        let m: i128 = -local;
        let k: i128 = (m + 86_399) / 86_400;
        proof {
            let r2 = (m + 86_399) % 86_400;
            vstd::arithmetic::div_mod::lemma_fundamental_div_mod(m + 86_399, 86_400);
            assert(0 <= r2 < 86_400);
            assert(local == (-k) * 86_400 + (86_399 - r2));
            lemma_fundamental_div_mod_converse(local as int, 86_400, -k as int, 86_399 - r2);
        }
        -k
    };
    assert(date == local / 86_400);
    let start: i128 = date * 86_400 - offset;
    let end: i128 = start + 86_400;
    if i64::MIN as i128 <= date && i64::MIN as i128 <= start && end <= i64::MAX as i128 {
        Ok(ReviewWindow { date: date as i64, start: start as i64, end: end as i64 })
    } else {
        Err(ReviewError::Internal(String::from_str("review date overflow")))
    }
}

/// The review window is one day long and holds the instant it was computed for.
pub proof fn lemma_window_holds_now(offset_minutes: int, now: int)
    requires
        window_spec(offset_minutes, now) is Ok,
    ensures
        ({
            let (date, start, end) = window_spec(offset_minutes, now)->Ok_0;
            &&& end - start == 86_400
            &&& start <= now < end
        }),
{
    let local = now + offset_minutes * 60;
    vstd::arithmetic::div_mod::lemma_fundamental_div_mod(local, 86_400);
}

/// A classic card is judged by the flag the user reported, whatever answer was
/// selected and whatever the card's answer; without a flag the review is refused.
pub proof fn lemma_classic_card_takes_reported_flag(
    answer: Seq<char>,
    correct: Option<bool>,
    selected_answer: Option<Seq<char>>,
)
    ensures
        correct is Some ==> answer_check("classic"@, answer, correct, selected_answer) == Ok::<
            bool,
            Refusal,
        >(correct->0),
        correct is None ==> answer_check("classic"@, answer, correct, selected_answer) is Err,
{
}

/// Any other card is judged by the selected answer alone: a reported flag plays
/// no part, an answer equal to the card's once surrounding whitespace is removed
/// is right, and without a selected answer the review is refused.
pub proof fn lemma_selected_answer_decides(
    card_type: Seq<char>,
    answer: Seq<char>,
    correct: Option<bool>,
    other_correct: Option<bool>,
    selected: Seq<char>,
)
    requires
        card_type != "classic"@,
    ensures
        answer_check(card_type, answer, correct, Some(selected)) == answer_check(
            card_type,
            answer,
            other_correct,
            Some(selected),
        ),
        trim_seq(selected) == trim_seq(answer) ==> answer_check(
            card_type,
            answer,
            correct,
            Some(selected),
        ) == Ok::<bool, Refusal>(true),
        answer_check(card_type, answer, correct, None) is Err,
{
}

/// Any other card is wrong when the selected answer, once surrounding whitespace
/// is removed, is not as long as the card's answer.
pub proof fn lemma_answer_of_other_length_is_wrong(
    card_type: Seq<char>,
    answer: Seq<char>,
    correct: Option<bool>,
    selected: Seq<char>,
)
    requires
        card_type != "classic"@,
        trim_seq(selected).len() != trim_seq(answer).len(),
    ensures
        answer_check(card_type, answer, correct, Some(selected)) == Ok::<bool, Refusal>(false),
{
}

} // verus!
