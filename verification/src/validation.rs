//! What the review system accepts: cards, taxonomy nodes, imports and reviews.
use vstd::prelude::*;
use vstd::utf8::encode_utf8;
use crate::model::{
    invalid_request, CreateCardRequest, CreateTaxonomyRequest, Id, Refusal, ReviewError,
    TaxonomyKind,
};
use crate::text::{
    chars_of, lowercase, same_text, string_from_range, to_lowercase, trim, trim_seq,
    utf8_len_exceeds,
};

verus! {

/// Why a card cannot be created, if it cannot; `choices_len` is the number of
/// choices when they form a JSON array.
pub open spec fn card_refusal(
    card_type: Seq<char>,
    front: Seq<char>,
    back: Seq<char>,
    correct_answer: Seq<char>,
    initial_difficulty: Option<i16>,
    choices_len: Option<usize>,
) -> Option<Seq<char>> {
    if trim_seq(front).len() == 0 {
        Some("front is required"@)
    } else if initial_difficulty matches Some(d) && !(1 <= d <= 5) {
        Some("initial_difficulty must be between 1 and 5"@)
    } else if card_type == "classic"@ {
        if trim_seq(back).len() == 0 {
            Some("classic cards require a back"@)
        } else {
            None
        }
    } else if card_type == "multiple_choice"@ {
        match choices_len {
            None => Some("choices must be an array"@),
            Some(n) => if n < 2 || trim_seq(correct_answer).len() == 0 {
                Some("multiple choice cards require choices and a correct answer"@)
            } else {
                None
            },
        }
    } else if card_type == "true_false"@ {
        if lowercase(correct_answer) == "true"@ || lowercase(correct_answer) == "false"@ {
            None
        } else {
            Some("true/false cards require correct_answer true or false"@)
        }
    } else {
        Some("invalid card type"@)
    }
}

/// The taxonomy nodes a card refers to, each with the kind it must have.
pub open spec fn taxonomy_references(
    subject_id: Option<Id>,
    topic_id: Option<Id>,
    content_id: Option<Id>,
) -> Seq<(Id, TaxonomyKind)> {
    (if subject_id is Some {
        seq![(subject_id->0, TaxonomyKind::Subject)]
    } else {
        seq![]
    }) + (if topic_id is Some {
        seq![(topic_id->0, TaxonomyKind::Topic)]
    } else {
        seq![]
    }) + (if content_id is Some {
        seq![(content_id->0, TaxonomyKind::Content)]
    } else {
        seq![]
    })
}

/// `r` is the outcome of checking `request` whose choices have `choices_len` items.
pub open spec fn card_check_outcome(
    r: Result<Vec<(Id, TaxonomyKind)>, ReviewError>,
    request: &CreateCardRequest,
    choices_len: Option<usize>,
) -> bool {
    let refusal = card_refusal(
        request.card_type@,
        request.front@,
        request.back@,
        request.correct_answer@,
        request.initial_difficulty,
        choices_len,
    );
    match r {
        Ok(references) => refusal is None && references@ == taxonomy_references(
            request.subject_id,
            request.topic_id,
            request.content_id,
        ),
        Err(e) => refusal is Some && e@ == Refusal::InvalidRequest(refusal->0),
    }
}

/// Whether a lower-cased answer of a true/false card names one of the two
/// truth values.
pub fn is_boolean_answer(lowered: &str) -> (r: bool)
    ensures
        r == (lowered@ == "true"@ || lowered@ == "false"@),
{
    same_text(lowered, "true") || same_text(lowered, "false")
}

/// Checks the fields of a new card. On success it returns the taxonomy nodes the
/// card names, which must exist in the workspace with the kind given.
pub fn check_card_fields(request: &CreateCardRequest, choices_len: Option<usize>) -> (r: Result<
    Vec<(Id, TaxonomyKind)>,
    ReviewError,
>)
    ensures
        card_check_outcome(r, request, choices_len),
{
    if trim(request.front.as_str()).is_empty() {
        return Err(invalid_request("front is required"));
    }
    if let Some(difficulty) = request.initial_difficulty {
        if !(1 <= difficulty && difficulty <= 5) {
            return Err(invalid_request("initial_difficulty must be between 1 and 5"));
        }
    }
    let card_type = request.card_type.as_str();
    if same_text(card_type, "classic") {
        if trim(request.back.as_str()).is_empty() {
            return Err(invalid_request("classic cards require a back"));
        }
    } else if same_text(card_type, "multiple_choice") {
        match choices_len {
            None => {
                return Err(invalid_request("choices must be an array"));
            },
            Some(n) => {
                if n < 2 || trim(request.correct_answer.as_str()).is_empty() {
                    return Err(
                        invalid_request("multiple choice cards require choices and a correct answer"),
                    );
                }
            },
        }
    } else if same_text(card_type, "true_false") {
        let lowered = to_lowercase(request.correct_answer.as_str());
        if !is_boolean_answer(lowered.as_str()) {
            return Err(invalid_request("true/false cards require correct_answer true or false"));
        }
    } else {
        return Err(invalid_request("invalid card type"));
    }
    let mut references: Vec<(Id, TaxonomyKind)> = Vec::new();
    if let Some(id) = request.subject_id {
        references.push((id, TaxonomyKind::Subject));
    }
    if let Some(id) = request.topic_id {
        references.push((id, TaxonomyKind::Topic));
    }
    if let Some(id) = request.content_id {
        references.push((id, TaxonomyKind::Content));
    }
    assert(references@ =~= taxonomy_references(
        request.subject_id,
        request.topic_id,
        request.content_id,
    ));
    Ok(references)
}

/// Checks a new card; its choices count only when they form a JSON array.
pub fn validate_card(request: &CreateCardRequest) -> (r: Result<Vec<(Id, TaxonomyKind)>, ReviewError>)
    ensures
        card_check_outcome(r, request, request.choices.array_len()),
{
    check_card_fields(request, request.choices.array_len_exec())
}

/// The refusal of a card naming a taxonomy node that does not exist with the kind required.
pub fn invalid_taxonomy_reference(kind: TaxonomyKind) -> (e: ReviewError)
    ensures
        e@ == Refusal::InvalidRequest("invalid "@ + kind.name()),
{
    let mut message = String::from_str("invalid ");
    message.append(kind.as_str());
    ReviewError::InvalidRequest(message)
}

/// The kind named by `kind`, if any.
pub open spec fn taxonomy_kind_named(kind: Seq<char>) -> Option<TaxonomyKind> {
    if kind == "subject"@ {
        Some(TaxonomyKind::Subject)
    } else if kind == "topic"@ {
        Some(TaxonomyKind::Topic)
    } else if kind == "content"@ {
        Some(TaxonomyKind::Content)
    } else {
        None
    }
}

/// The kind a node's parent must have: none for a subject.
pub open spec fn required_parent(kind: TaxonomyKind) -> Option<TaxonomyKind> {
    match kind {
        TaxonomyKind::Subject => None,
        TaxonomyKind::Topic => Some(TaxonomyKind::Subject),
        TaxonomyKind::Content => Some(TaxonomyKind::Topic),
    }
}

/// Parses a taxonomy kind.
pub fn parse_taxonomy_kind(kind: &str) -> (r: Option<TaxonomyKind>)
    ensures
        r == taxonomy_kind_named(kind@),
{
    if same_text(kind, "subject") {
        Some(TaxonomyKind::Subject)
    } else if same_text(kind, "topic") {
        Some(TaxonomyKind::Topic)
    } else if same_text(kind, "content") {
        Some(TaxonomyKind::Content)
    } else {
        None
    }
}

/// The outcome of checking a taxonomy node by itself: `Ok(None)` for a subject
/// without parent, `Ok(Some(k))` when its parent must be checked to be of kind `k`.
pub open spec fn taxonomy_check(parent_id: Option<Id>, kind: Seq<char>, name: Seq<char>) -> Result<
    Option<TaxonomyKind>,
    Refusal,
> {
    if trim_seq(name).len() == 0 {
        Err(Refusal::InvalidRequest("taxonomy name is required"@))
    } else if taxonomy_kind_named(kind) is None {
        Err(Refusal::InvalidRequest("invalid taxonomy kind"@))
    } else {
        let expected = required_parent(taxonomy_kind_named(kind)->0);
        if expected is None && parent_id is None {
            Ok(None)
        } else if expected is Some && parent_id is Some {
            Ok(expected)
        } else {
            Err(Refusal::InvalidRequest("invalid taxonomy parent"@))
        }
    }
}

pub open spec fn result_view<T>(r: Result<T, ReviewError>) -> Result<T, Refusal> {
    match r {
        Ok(v) => Ok(v),
        Err(e) => Err(e@),
    }
}

/// Checks a taxonomy node before it is created.
pub fn validate_taxonomy(request: &CreateTaxonomyRequest) -> (r: Result<
    Option<TaxonomyKind>,
    ReviewError,
>)
    ensures
        result_view(r) == taxonomy_check(request.parent_id, request.kind@, request.name@),
{
    if trim(request.name.as_str()).is_empty() {
        return Err(invalid_request("taxonomy name is required"));
    }
    let kind = match parse_taxonomy_kind(request.kind.as_str()) {
        Some(kind) => kind,
        None => {
            return Err(invalid_request("invalid taxonomy kind"));
        },
    };
    let expected = match kind {
        TaxonomyKind::Subject => None,
        TaxonomyKind::Topic => Some(TaxonomyKind::Subject),
        TaxonomyKind::Content => Some(TaxonomyKind::Topic),
    };
    match (expected, request.parent_id) {
        (None, None) => Ok(None),
        (Some(k), Some(_)) => Ok(Some(k)),
        _ => Err(invalid_request("invalid taxonomy parent")),
    }
}

/// Checks the kind of the parent node found for a new taxonomy node.
pub fn check_parent_kind(request_kind: &str, expected: TaxonomyKind, found: Option<&str>) -> (r:
    Result<(), ReviewError>)
    ensures
        match r {
            Ok(()) => found matches Some(f) && f@ == expected.name(),
            Err(e) => !(found matches Some(f) && f@ == expected.name()) && e@
                == Refusal::InvalidRequest(
                request_kind@ + " requires a "@ + expected.name() + " parent"@,
            ),
        },
{
    let matches = match found {
        Some(kind) => same_text(kind, expected.as_str()),
        None => false,
    };
    if matches {
        Ok(())
    } else {
        let mut message = request_kind.to_owned();
        message.append(" requires a ");
        message.append(expected.as_str());
        message.append(" parent");
        Err(ReviewError::InvalidRequest(message))
    }
}

/// A bulk import holds between 1 and 200 cards.
pub fn check_import_size(count: usize) -> (r: Result<(), ReviewError>)
    ensures
        match r {
            Ok(()) => 1 <= count <= 200,
            Err(e) => !(1 <= count <= 200) && e@ == Refusal::InvalidRequest(
                "an import must contain between 1 and 200 cards"@,
            ),
        },
{
    if count == 0 || count > 200 {
        Err(invalid_request("an import must contain between 1 and 200 cards"))
    } else {
        Ok(())
    }
}

/// A review is rated from 1 (very easy) to 5 (very hard).
pub fn check_review_difficulty(difficulty: i16) -> (r: Result<(), ReviewError>)
    ensures
        match r {
            Ok(()) => 1 <= difficulty <= 5,
            Err(e) => !(1 <= difficulty <= 5) && e@ == Refusal::InvalidRequest(
                "difficulty must be between 1 and 5"@,
            ),
        },
{
    if 1 <= difficulty && difficulty <= 5 {
        Ok(())
    } else {
        Err(invalid_request("difficulty must be between 1 and 5"))
    }
}

/// The outcome of checking a lesson package: its trimmed title, or why it is refused.
/// Lengths are counted in UTF-8 bytes.
pub open spec fn lesson_check(title: Seq<char>, source_url: Seq<char>, card_count: nat) -> Result<
    Seq<char>,
    Refusal,
> {
    let t = trim_seq(title);
    if t.len() == 0 || encode_utf8(t).len() > 500 {
        Err(Refusal::InvalidRequest("lesson title must contain 1 to 500 characters"@))
    } else if trim_seq(source_url).len() == 0 || encode_utf8(source_url).len() > 4_000 {
        Err(Refusal::InvalidRequest("a valid lesson source URL is required"@))
    } else if card_count > 200 {
        Err(Refusal::InvalidRequest("a lesson import is limited to 200 flashcards"@))
    } else {
        Ok(t)
    }
}

/// Checks the title, source and size of a lesson package and returns its trimmed title.
pub fn check_lesson_request(title: &str, source_url: &str, card_count: usize) -> (r: Result<
    String,
    ReviewError,
>)
    ensures
        match r {
            Ok(t) => lesson_check(title@, source_url@, card_count as nat) == Ok::<
                Seq<char>,
                Refusal,
            >(t@),
            Err(e) => lesson_check(title@, source_url@, card_count as nat) == Err::<
                Seq<char>,
                Refusal,
            >(e@),
        },
{
    let trimmed = trim(title);
    if trimmed.is_empty() || utf8_len_exceeds(trimmed, 500) {
        return Err(invalid_request("lesson title must contain 1 to 500 characters"));
    }
    if trim(source_url).is_empty() || utf8_len_exceeds(source_url, 4_000) {
        return Err(invalid_request("a valid lesson source URL is required"));
    }
    if card_count > 200 {
        return Err(invalid_request("a lesson import is limited to 200 flashcards"));
    }
    Ok(trimmed.to_owned())
}

/// The name of a taxonomy node kept in sync with a page: trimmed, with its
/// lower-case form used to find it again.
pub fn page_taxonomy_name(name: &str) -> (r: Result<(String, String), ReviewError>)
    ensures
        match r {
            Ok((trimmed, normalized)) => {
                &&& trimmed@ == trim_seq(name@)
                &&& 1 <= trimmed@.len() <= 200
                &&& normalized@ == lowercase(trim_seq(name@))
            },
            Err(e) => {
                &&& (trim_seq(name@).len() == 0 || trim_seq(name@).len() > 200)
                &&& e@ == Refusal::InvalidRequest(
                    "page taxonomy names must contain between 1 and 200 characters"@,
                )
            },
        },
{
    let trimmed = trim(name);
    if trimmed.is_empty() || trimmed.unicode_len() > 200 {
        return Err(invalid_request("page taxonomy names must contain between 1 and 200 characters"));
    }
    Ok((trimmed.to_owned(), to_lowercase(trimmed)))
}

/// A name trimmed, with its lower-case form (taxonomy names, the tag filter of card lists).
pub fn trimmed_and_lowercase(name: &str) -> (r: (String, String))
    ensures
        r.0@ == trim_seq(name@),
        r.1@ == lowercase(trim_seq(name@)),
{
    let trimmed = trim(name);
    (trimmed.to_owned(), to_lowercase(trimmed))
}

/// The first 200 characters of a lesson title: the name of its taxonomy node.
pub fn taxonomy_name_for_title(title: &str) -> (r: String)
    ensures
        r@ == title@.take(if title@.len() < 200 { title@.len() as int } else { 200 }),
{
    let chars = chars_of(title);
    let end = if chars.len() < 200 { chars.len() } else { 200 };
    let r = string_from_range(&chars, 0, end);
    assert(chars@.subrange(0, end as int) =~= title@.take(end as int));
    r
}

/// Which cards are accepted: the front must not be blank, an initial difficulty,
/// when given, must lie between 1 and 5, and by card type a classic card needs a
/// back that is not blank, a multiple-choice card an array of at least two
/// choices and a correct answer that is not blank, and a true/false card a
/// correct answer that lower-cases to `true` or `false`. Any other type is refused.
pub proof fn lemma_card_acceptance(
    card_type: Seq<char>,
    front: Seq<char>,
    back: Seq<char>,
    correct_answer: Seq<char>,
    initial_difficulty: Option<i16>,
    choices_len: Option<usize>,
)
    ensures
        card_refusal(card_type, front, back, correct_answer, initial_difficulty, choices_len)
            is None <==> {
            &&& trim_seq(front).len() > 0
            &&& (initial_difficulty is None || 1 <= initial_difficulty->0 <= 5)
            &&& {
                ||| card_type == "classic"@ && trim_seq(back).len() > 0
                ||| card_type == "multiple_choice"@ && choices_len is Some && choices_len->0 >= 2
                    && trim_seq(correct_answer).len() > 0
                ||| card_type == "true_false"@ && (lowercase(correct_answer) == "true"@
                    || lowercase(correct_answer) == "false"@)
            }
        },
{
    reveal_strlit("classic");
    reveal_strlit("multiple_choice");
    reveal_strlit("true_false");
    assert("classic"@.len() == 7 && "multiple_choice"@.len() == 15 && "true_false"@.len() == 10);
}

/// A multiple-choice card whose choices form an array but whose correct answer
/// is blank is refused, however many choices it has, for want of a correct answer.
pub proof fn lemma_blank_multiple_choice_answer_refused(
    front: Seq<char>,
    back: Seq<char>,
    correct_answer: Seq<char>,
    initial_difficulty: Option<i16>,
    choices: usize,
)
    requires
        trim_seq(front).len() > 0,
        initial_difficulty is None || 1 <= initial_difficulty->0 <= 5,
        trim_seq(correct_answer).len() == 0,
    ensures
        card_refusal(
            "multiple_choice"@,
            front,
            back,
            correct_answer,
            initial_difficulty,
            Some(choices),
        ) == Some("multiple choice cards require choices and a correct answer"@),
{
    reveal_strlit("classic");
    reveal_strlit("multiple_choice");
    assert("classic"@.len() == 7 && "multiple_choice"@.len() == 15);
}

/// A card whose front is blank is refused for that reason, whatever else it holds.
pub proof fn lemma_blank_front_refused(
    card_type: Seq<char>,
    front: Seq<char>,
    back: Seq<char>,
    correct_answer: Seq<char>,
    initial_difficulty: Option<i16>,
    choices_len: Option<usize>,
)
    requires
        trim_seq(front).len() == 0,
    ensures
        card_refusal(card_type, front, back, correct_answer, initial_difficulty, choices_len)
            == Some("front is required"@),
{
}

} // verus!
