//! The requests, identifiers and errors the review system works with.
use vstd::prelude::*;
use serde_json::Value;

verus! {

/// A JSON value carried through unchanged (card choices, lesson questions).
#[verifier::external_type_specification]
#[verifier::external_body]
pub struct ExJsonValue(serde_json::Value);

/// Identifier of a workspace page, taxonomy node or card (the 128 bits of its UUID).
pub type Id = u128;

/// Why a request was refused.
#[derive(Debug)]
pub enum ReviewError {
    InvalidRequest(String),
    RecordNotFound(String),
    NotEnoughPermissions,
    Internal(String),
}

/// A refusal with its message as text.
pub enum Refusal {
    InvalidRequest(Seq<char>),
    RecordNotFound(Seq<char>),
    NotEnoughPermissions,
    Internal(Seq<char>),
}

impl View for ReviewError {
    type V = Refusal;

    open spec fn view(&self) -> Refusal {
        match self {
            ReviewError::InvalidRequest(m) => Refusal::InvalidRequest(m@),
            ReviewError::RecordNotFound(m) => Refusal::RecordNotFound(m@),
            ReviewError::NotEnoughPermissions => Refusal::NotEnoughPermissions,
            ReviewError::Internal(m) => Refusal::Internal(m@),
        }
    }
}

/// An invalid-request refusal with a fixed message.
pub fn invalid_request(message: &str) -> (e: ReviewError)
    ensures
        e@ == Refusal::InvalidRequest(message@),
{
    ReviewError::InvalidRequest(message.to_owned())
}

/// The level of a taxonomy node: a subject holds topics, a topic holds contents.
#[derive(Clone, Copy, PartialEq, Eq, Structural, Debug)]
pub enum TaxonomyKind {
    Subject,
    Topic,
    Content,
}

impl TaxonomyKind {
    pub open spec fn name(self) -> Seq<char> {
        match self {
            TaxonomyKind::Subject => "subject"@,
            TaxonomyKind::Topic => "topic"@,
            TaxonomyKind::Content => "content"@,
        }
    }

    /// The name stored for this kind.
    pub fn as_str(&self) -> (r: &'static str)
        ensures
            r@ == self.name(),
    {
        match self {
            TaxonomyKind::Subject => "subject",
            TaxonomyKind::Topic => "topic",
            TaxonomyKind::Content => "content",
        }
    }
}

/// The choices of a card as the request gives them: a JSON array of items, or
/// some other JSON value. The items are kept as they came, for storage.
pub enum Choices {
    Array(Vec<Value>),
    Other(Value),
}

impl Choices {
    /// The number of choices, when they form a JSON array.
    pub open spec fn array_len(&self) -> Option<usize> {
        match self {
            Choices::Array(items) => Some(items.len()),
            Choices::Other(_) => None,
        }
    }

    /// The number of choices, when they form a JSON array.
    pub fn array_len_exec(&self) -> (r: Option<usize>)
        ensures
            r == self.array_len(),
    {
        match self {
            Choices::Array(items) => Some(items.len()),
            Choices::Other(_) => None,
        }
    }
}

/// A new flashcard.
pub struct CreateCardRequest {
    pub card_type: String,
    pub front: String,
    pub back: String,
    pub explanation: String,
    pub choices: Choices,
    pub correct_answer: String,
    pub subject_id: Option<Id>,
    pub topic_id: Option<Id>,
    pub content_id: Option<Id>,
    pub tags: Vec<String>,
    pub source_view_id: Option<Id>,
    pub source_block_id: Option<String>,
    pub timezone_offset_minutes: i32,
    pub initial_difficulty: Option<i16>,
}

/// A complete lesson package sent by the StudyFlash Gran extension.
pub struct LessonImportRequest {
    pub parent_view_id: Id,
    pub title: String,
    pub source_url: String,
    pub discipline: String,
    pub topic: String,
    pub transcript: String,
    pub summary: String,
    pub pocket_review: String,
    pub questions: Vec<Value>,
    pub mind_maps: Vec<String>,
    pub skipped_materials: Vec<String>,
    pub cards: Vec<CreateCardRequest>,
    pub subject_id: Option<Id>,
    pub topic_id: Option<Id>,
    pub content_id: Option<Id>,
    pub timezone_offset_minutes: i32,
}

/// A taxonomy node created by hand.
pub struct CreateTaxonomyRequest {
    pub parent_id: Option<Id>,
    pub kind: String,
    pub name: String,
}

/// A content page below a topic page.
pub struct PageContentInput {
    pub view_id: Id,
    pub name: String,
}

impl View for PageContentInput {
    type V = (Id, Seq<char>);

    open spec fn view(&self) -> (Id, Seq<char>) {
        (self.view_id, self.name@)
    }
}

/// A topic page below a subject page, with its content pages.
pub struct PageTopicInput {
    pub view_id: Id,
    pub name: String,
    pub contents: Vec<PageContentInput>,
}

impl View for PageTopicInput {
    type V = (Id, Seq<char>, Seq<(Id, Seq<char>)>);

    open spec fn view(&self) -> (Id, Seq<char>, Seq<(Id, Seq<char>)>) {
        (self.view_id, self.name@, self.contents@.map_values(|c: PageContentInput| c@))
    }
}

/// A subject page with its topic pages.
pub struct PageSubjectInput {
    pub view_id: Id,
    pub name: String,
    pub topics: Vec<PageTopicInput>,
}

impl View for PageSubjectInput {
    type V = (Id, Seq<char>, Seq<(Id, Seq<char>, Seq<(Id, Seq<char>)>)>);

    open spec fn view(&self) -> (Id, Seq<char>, Seq<(Id, Seq<char>, Seq<(Id, Seq<char>)>)>) {
        (self.view_id, self.name@, self.topics@.map_values(|t: PageTopicInput| t@))
    }
}

} // verus!
