//! The stored form of a new card.
use vstd::prelude::*;
use crate::model::CreateCardRequest;
use crate::tags::{normalize_tags, normalized_tags_of, views};
use crate::text::{trim, trim_seq};

verus! {

/// A copy of a list of strings.
pub fn clone_strings(v: &Vec<String>) -> (r: Vec<String>)
    ensures
        views(r@) == views(v@),
{
    let mut r: Vec<String> = Vec::new();
    let mut i: usize = 0;
    while i < v.len()
        invariant
            0 <= i <= v.len(),
            views(r@) == views(v@).take(i as int),
        decreases v.len() - i,
    {
        let ghost before = views(r@);
        r.push(v[i].clone());
        assert(views(r@) =~= before.push(v@[i as int]@));
        assert(views(v@).take(i + 1) =~= views(v@).take(i as int).push(v@[i as int]@));
        i = i + 1;
    }
    assert(views(v@).take(i as int) =~= views(v@));
    r
}

/// The text fields of a card as they are stored, and its starting difficulty.
pub struct CardRow {
    pub front: String,
    pub back: String,
    pub explanation: String,
    pub correct_answer: String,
    pub tags: Vec<String>,
    pub initial_difficulty: i16,
}

/// A new card as it is stored: text fields trimmed, tags normalised, and a
/// starting difficulty of 3 unless the request gives one.
pub fn card_row(request: &CreateCardRequest) -> (r: CardRow)
    ensures
        r.front@ == trim_seq(request.front@),
        r.back@ == trim_seq(request.back@),
        r.explanation@ == trim_seq(request.explanation@),
        r.correct_answer@ == trim_seq(request.correct_answer@),
        normalized_tags_of(views(request.tags@), views(r.tags@)),
        r.initial_difficulty == match request.initial_difficulty {
            Some(d) => d,
            None => 3,
        },
{
    CardRow {
        front: trim(request.front.as_str()).to_owned(),
        back: trim(request.back.as_str()).to_owned(),
        explanation: trim(request.explanation.as_str()).to_owned(),
        correct_answer: trim(request.correct_answer.as_str()).to_owned(),
        tags: normalize_tags(clone_strings(&request.tags)),
        initial_difficulty: match request.initial_difficulty {
            Some(d) => d,
            None => 3,
        },
    }
}

} // verus!
