//! The review taxonomy (subject, topic, content) and how pages and imported
//! lessons are placed in it.
use vstd::prelude::*;
use crate::model::{
    invalid_request, CreateCardRequest, Id, PageContentInput, PageSubjectInput, PageTopicInput,
    Refusal, ReviewError, TaxonomyKind,
};
use crate::text::same_text;

verus! {

/// Where a page sits in the taxonomy: the subject, topic and content nodes it belongs to.
#[derive(Clone, Copy, PartialEq, Eq, Structural, Debug)]
pub struct SourceTaxonomy {
    pub subject_id: Option<Id>,
    pub topic_id: Option<Id>,
    pub content_id: Option<Id>,
}

impl SourceTaxonomy {
    /// No taxonomy node.
    pub fn none() -> (r: SourceTaxonomy)
        ensures
            r.subject_id is None && r.topic_id is None && r.content_id is None,
    {
        SourceTaxonomy { subject_id: None, topic_id: None, content_id: None }
    }
}

/// The placement of a page that is the taxonomy node `taxonomy_id` of kind `kind`
/// with parent `parent_id`; `topic_parent` is the subject above that parent, when
/// the node is a content node. A page of another kind is placed nowhere.
pub open spec fn source_taxonomy_spec(
    kind: Seq<char>,
    taxonomy_id: Id,
    parent_id: Option<Id>,
    topic_parent: Option<Id>,
) -> SourceTaxonomy {
    if kind == "subject"@ {
        SourceTaxonomy { subject_id: Some(taxonomy_id), topic_id: None, content_id: None }
    } else if kind == "topic"@ {
        SourceTaxonomy { subject_id: parent_id, topic_id: Some(taxonomy_id), content_id: None }
    } else if kind == "content"@ {
        SourceTaxonomy {
            subject_id: if parent_id is Some {
                topic_parent
            } else {
                None
            },
            topic_id: parent_id,
            content_id: Some(taxonomy_id),
        }
    } else {
        SourceTaxonomy { subject_id: None, topic_id: None, content_id: None }
    }
}

/// Whether the subject above the parent of a page's node must be looked up:
/// only for a content node that has a parent.
pub fn source_needs_topic_parent(kind: &str, parent_id: Option<Id>) -> (r: bool)
    ensures
        r == (kind@ == "content"@ && parent_id is Some),
{
    same_text(kind, "content") && parent_id.is_some()
}

/// Maps the taxonomy node of a page back to its subject, topic and content.
pub fn source_taxonomy(
    kind: &str,
    taxonomy_id: Id,
    parent_id: Option<Id>,
    topic_parent: Option<Id>,
) -> (r: SourceTaxonomy)
    ensures
        r == source_taxonomy_spec(kind@, taxonomy_id, parent_id, topic_parent),
{
    if same_text(kind, "subject") {
        SourceTaxonomy { subject_id: Some(taxonomy_id), topic_id: None, content_id: None }
    } else if same_text(kind, "topic") {
        SourceTaxonomy { subject_id: parent_id, topic_id: Some(taxonomy_id), content_id: None }
    } else if same_text(kind, "content") {
        let subject_id = if parent_id.is_some() {
            topic_parent
        } else {
            None
        };
        SourceTaxonomy { subject_id, topic_id: parent_id, content_id: Some(taxonomy_id) }
    } else {
        SourceTaxonomy::none()
    }
}

pub open spec fn or_else(a: Option<Id>, b: Option<Id>) -> Option<Id> {
    if a is Some {
        a
    } else {
        b
    }
}

/// The placement of an imported lesson: what the request names, and otherwise
/// the placement of the page it is imported into.
pub fn lesson_taxonomy(
    subject_id: Option<Id>,
    topic_id: Option<Id>,
    content_id: Option<Id>,
    resolved: &SourceTaxonomy,
) -> (r: SourceTaxonomy)
    ensures
        r.subject_id == or_else(subject_id, resolved.subject_id),
        r.topic_id == or_else(topic_id, resolved.topic_id),
        r.content_id == or_else(content_id, resolved.content_id),
{
    SourceTaxonomy {
        subject_id: if subject_id.is_some() {
            subject_id
        } else {
            resolved.subject_id
        },
        topic_id: if topic_id.is_some() {
            topic_id
        } else {
            resolved.topic_id
        },
        content_id: if content_id.is_some() {
            content_id
        } else {
            resolved.content_id
        },
    }
}

/// The taxonomy node an imported lesson becomes: a content node below its
/// topic, or else a topic node below its subject; none when it is already placed.
pub open spec fn lesson_node_spec(t: SourceTaxonomy) -> Option<(TaxonomyKind, Id)> {
    if t.topic_id is Some && t.content_id is None {
        Some((TaxonomyKind::Content, t.topic_id->0))
    } else if t.subject_id is Some && t.topic_id is None {
        Some((TaxonomyKind::Topic, t.subject_id->0))
    } else {
        None
    }
}

/// The kind and parent of the taxonomy node an imported lesson becomes, if any.
pub fn lesson_node(t: &SourceTaxonomy) -> (r: Option<(TaxonomyKind, Id)>)
    ensures
        r == lesson_node_spec(*t),
        r is Some <==> ((t.subject_id is Some && t.topic_id is None) || (t.topic_id is Some
            && t.content_id is None)),
{
    match (t.topic_id, t.content_id) {
        (Some(topic), None) => Some((TaxonomyKind::Content, topic)),
        _ => match (t.subject_id, t.topic_id) {
            (Some(subject), None) => Some((TaxonomyKind::Topic, subject)),
            _ => None,
        },
    }
}

/// The placement of a lesson once it became the node `node_id` of kind `kind`.
pub fn place_lesson(t: &SourceTaxonomy, kind: TaxonomyKind, node_id: Id) -> (r: SourceTaxonomy)
    ensures
        kind == TaxonomyKind::Content ==> r == (SourceTaxonomy {
            content_id: Some(node_id),
            ..*t
        }),
        kind == TaxonomyKind::Topic ==> r == (SourceTaxonomy { topic_id: Some(node_id), ..*t }),
        kind == TaxonomyKind::Subject ==> r == *t,
{
    match kind {
        TaxonomyKind::Content => SourceTaxonomy {
            subject_id: t.subject_id,
            topic_id: t.topic_id,
            content_id: Some(node_id),
        },
        TaxonomyKind::Topic => SourceTaxonomy {
            subject_id: t.subject_id,
            topic_id: Some(node_id),
            content_id: t.content_id,
        },
        TaxonomyKind::Subject => *t,
    }
}

/// Whether the import of a lesson writes to the taxonomy or the cards at all.
pub fn lesson_needs_transaction(card_count: usize, t: &SourceTaxonomy) -> (r: bool)
    ensures
        r == (card_count > 0 || lesson_node_spec(*t) is Some),
{
    card_count > 0 || lesson_node(t).is_some()
}

/// The same cards, each placed in `t` and reviewed in the time zone `offset`.
pub open spec fn placed_cards(
    before: Seq<CreateCardRequest>,
    after: Seq<CreateCardRequest>,
    t: SourceTaxonomy,
    offset: i32,
) -> bool {
    &&& after.len() == before.len()
    &&& forall|i: int|
        0 <= i < after.len() ==> {
            let a = #[trigger] after[i];
            let b = before[i];
            &&& a.subject_id == t.subject_id
            &&& a.topic_id == t.topic_id
            &&& a.content_id == t.content_id
            &&& a.timezone_offset_minutes == offset
            &&& a.card_type == b.card_type
            &&& a.front == b.front
            &&& a.back == b.back
            &&& a.explanation == b.explanation
            &&& a.choices == b.choices
            &&& a.correct_answer == b.correct_answer
            &&& a.tags == b.tags
            &&& a.source_view_id == b.source_view_id
            &&& a.source_block_id == b.source_block_id
            &&& a.initial_difficulty == b.initial_difficulty
        }
}

/// Places every card of an imported lesson in the lesson's taxonomy and time zone.
pub fn place_lesson_cards(cards: &mut Vec<CreateCardRequest>, t: &SourceTaxonomy, offset: i32)
    ensures
        placed_cards(old(cards)@, final(cards)@, *t, offset),
{
    let ghost before = cards@;
    let mut i: usize = 0;
    while i < cards.len()
        invariant
            0 <= i <= cards.len(),
            cards.len() == before.len(),
            forall|j: int| i <= j < cards.len() ==> #[trigger] cards@[j] == before[j],
            placed_cards(before.take(i as int), cards@.take(i as int), *t, offset),
        decreases cards.len() - i,
    {
        let mut card = cards.remove(i);
        card.subject_id = t.subject_id;
        card.topic_id = t.topic_id;
        card.content_id = t.content_id;
        card.timezone_offset_minutes = offset;
        cards.insert(i, card);
        proof {
            assert forall|j: int| 0 <= j < i + 1 implies #[trigger] cards@.take(i + 1)[j]
                == cards@[j] by {}
        }
        i = i + 1;
    }
    assert(before.take(i as int) =~= before);
    assert(cards@.take(i as int) =~= cards@);
}

/// The same cards, each linked to the lesson page `page_id`.
pub open spec fn linked_cards(
    before: Seq<CreateCardRequest>,
    after: Seq<CreateCardRequest>,
    page_id: Id,
) -> bool {
    &&& after.len() == before.len()
    &&& forall|i: int|
        0 <= i < after.len() ==> {
            let a = #[trigger] after[i];
            let b = before[i];
            &&& a.source_view_id == Some(page_id)
            &&& a.source_block_id is None
            &&& a.subject_id == b.subject_id
            &&& a.topic_id == b.topic_id
            &&& a.content_id == b.content_id
            &&& a.timezone_offset_minutes == b.timezone_offset_minutes
            &&& a.card_type == b.card_type
            &&& a.front == b.front
            &&& a.back == b.back
            &&& a.explanation == b.explanation
            &&& a.choices == b.choices
            &&& a.correct_answer == b.correct_answer
            &&& a.tags == b.tags
            &&& a.initial_difficulty == b.initial_difficulty
        }
}

/// Links every card of an imported lesson to the lesson page, so that reviewing
/// a card can open the lesson again.
pub fn link_cards_to_page(cards: &mut Vec<CreateCardRequest>, page_id: Id)
    ensures
        linked_cards(old(cards)@, final(cards)@, page_id),
{
    let ghost before = cards@;
    let mut i: usize = 0;
    while i < cards.len()
        invariant
            0 <= i <= cards.len(),
            cards.len() == before.len(),
            forall|j: int| i <= j < cards.len() ==> #[trigger] cards@[j] == before[j],
            linked_cards(before.take(i as int), cards@.take(i as int), page_id),
        decreases cards.len() - i,
    {
        let mut card = cards.remove(i);
        card.source_view_id = Some(page_id);
        card.source_block_id = None;
        cards.insert(i, card);
        proof {
            assert forall|j: int| 0 <= j < i + 1 implies #[trigger] cards@.take(i + 1)[j]
                == cards@[j] by {}
        }
        i = i + 1;
    }
    assert(before.take(i as int) =~= before);
    assert(cards@.take(i as int) =~= cards@);
}

/// One node to keep in sync with the page tree: its kind, the position in the
/// plan of its parent node, and the page it stands for.
pub struct PageTaxonomyStep {
    pub kind: TaxonomyKind,
    pub parent: Option<usize>,
    pub view_id: Id,
    pub name: String,
}

pub type StepView = (TaxonomyKind, Option<usize>, Id, Seq<char>);

impl View for PageTaxonomyStep {
    type V = StepView;

    open spec fn view(&self) -> StepView {
        (self.kind, self.parent, self.view_id, self.name@)
    }
}

pub open spec fn step_views(steps: Seq<PageTaxonomyStep>) -> Seq<StepView> {
    steps.map_values(|s: PageTaxonomyStep| s@)
}

/// The content nodes below the topic at position `topic_index`.
pub open spec fn contents_steps(contents: Seq<(Id, Seq<char>)>, topic_index: int) -> Seq<StepView> {
    contents.map_values(
        |c: (Id, Seq<char>)| (TaxonomyKind::Content, Some(topic_index as usize), c.0, c.1),
    )
}

/// The topic nodes (each followed by its contents) below the subject at position
/// `subject_index`, the first of them at position `base`.
pub open spec fn topics_steps(
    topics: Seq<(Id, Seq<char>, Seq<(Id, Seq<char>)>)>,
    subject_index: int,
    base: int,
) -> Seq<StepView>
    decreases topics.len(),
{
    if topics.len() == 0 {
        seq![]
    } else {
        let prev = topics_steps(topics.drop_last(), subject_index, base);
        let t = topics.last();
        prev + seq![(TaxonomyKind::Topic, Some(subject_index as usize), t.0, t.1)]
            + contents_steps(t.2, base + prev.len())
    }
}

/// All nodes of the page tree in order: each subject, then its topics, each topic
/// followed by its contents.
pub open spec fn subjects_steps(subjects: Seq<(Id, Seq<char>, Seq<(Id, Seq<char>, Seq<(Id, Seq<char>)>)>)>) -> Seq<StepView>
    decreases subjects.len(),
{
    if subjects.len() == 0 {
        seq![]
    } else {
        let prev = subjects_steps(subjects.drop_last());
        let s = subjects.last();
        prev + seq![(TaxonomyKind::Subject, None::<usize>, s.0, s.1)] + topics_steps(
            s.2,
            prev.len() as int,
            prev.len() + 1int,
        )
    }
}

pub open spec fn subject_views(subjects: Seq<PageSubjectInput>) -> Seq<(Id, Seq<char>, Seq<(Id, Seq<char>, Seq<(Id, Seq<char>)>)>)> {
    subjects.map_values(|s: PageSubjectInput| s@)
}

/// The page tree may hold at most 2000 nodes.
pub const PAGE_TAXONOMY_LIMIT: usize = 2000;

/// The nodes to keep in sync with the page tree, in order, each with the position
/// of its parent; refused when the tree has more than 2000 nodes.
pub fn page_taxonomy_plan(subjects: &Vec<PageSubjectInput>) -> (r: Result<
    Vec<PageTaxonomyStep>,
    ReviewError,
>)
    ensures
        match r {
            Ok(steps) => {
                &&& step_views(steps@) == subjects_steps(subject_views(subjects@))
                &&& page_count(subject_views(subjects@)) <= 2000
            },
            Err(e) => {
                &&& page_count(subject_views(subjects@)) > 2000
                &&& e@ == Refusal::InvalidRequest("page taxonomy is limited to 2000 items"@)
            },
        },
{
    let ghost sv = subject_views(subjects@);
    let mut steps: Vec<PageTaxonomyStep> = Vec::new();
    let mut i: usize = 0;
    assert(sv.take(0) =~= Seq::<(Id, Seq<char>, Seq<(Id, Seq<char>, Seq<(Id, Seq<char>)>)>)>::empty());
    assert(step_views(steps@) =~= Seq::<StepView>::empty());
    while i < subjects.len()
        invariant
            0 <= i <= subjects.len(),
            sv == subject_views(subjects@),
            step_views(steps@) == subjects_steps(sv.take(i as int)),
        decreases subjects.len() - i,
    {
        let subject = &subjects[i];
        let si = steps.len();
        let ghost tv = sv[i as int].2;
        let ghost head = step_views(steps@).push(
            (TaxonomyKind::Subject, None::<usize>, subject.view_id, subject.name@),
        );
        steps.push(
            PageTaxonomyStep {
                kind: TaxonomyKind::Subject,
                parent: None,
                view_id: subject.view_id,
                name: subject.name.clone(),
            },
        );
        assert(step_views(steps@) =~= head);
        assert(tv.take(0) =~= Seq::<(Id, Seq<char>, Seq<(Id, Seq<char>)>)>::empty());
        assert(step_views(steps@) =~= head + topics_steps(tv.take(0), si as int, si + 1));
        let mut j: usize = 0;
        while j < subject.topics.len()
            invariant
                0 <= j <= subject.topics.len(),
                subject == &subjects[i as int],
                sv == subject_views(subjects@),
                i < subjects.len(),
                tv == sv[i as int].2,
                tv == subject.topics@.map_values(|t: PageTopicInput| t@),
                head.len() == si + 1,
                step_views(steps@) == head + topics_steps(tv.take(j as int), si as int, si + 1),
            decreases subject.topics.len() - j,
        {
            let topic = &subject.topics[j];
            let ti = steps.len();
            let ghost cv = tv[j as int].2;
            let ghost mid = step_views(steps@).push(
                (TaxonomyKind::Topic, Some(si), topic.view_id, topic.name@),
            );
            steps.push(
                PageTaxonomyStep {
                    kind: TaxonomyKind::Topic,
                    parent: Some(si),
                    view_id: topic.view_id,
                    name: topic.name.clone(),
                },
            );
            assert(step_views(steps@) =~= mid);
            let mut k: usize = 0;
            assert(contents_steps(cv.take(0), ti as int) =~= Seq::<StepView>::empty());
            assert(step_views(steps@) =~= mid + contents_steps(cv.take(0), ti as int));
            while k < topic.contents.len()
                invariant
                    0 <= k <= topic.contents.len(),
                    topic == &subject.topics[j as int],
                    j < subject.topics.len(),
                    cv == tv[j as int].2,
                    tv == subject.topics@.map_values(|t: PageTopicInput| t@),
                    cv == topic.contents@.map_values(|c: PageContentInput| c@),
                    step_views(steps@) == mid + contents_steps(cv.take(k as int), ti as int),
                decreases topic.contents.len() - k,
            {
                let content = &topic.contents[k];
                let ghost before = step_views(steps@);
                steps.push(
                    PageTaxonomyStep {
                        kind: TaxonomyKind::Content,
                        parent: Some(ti),
                        view_id: content.view_id,
                        name: content.name.clone(),
                    },
                );
                assert(cv[k as int] == content@);
                assert(contents_steps(cv.take(k + 1), ti as int) =~= contents_steps(
                    cv.take(k as int),
                    ti as int,
                ).push((TaxonomyKind::Content, Some(ti), content.view_id, content.name@)));
                assert(step_views(steps@) =~= before.push(
                    (TaxonomyKind::Content, Some(ti), content.view_id, content.name@),
                ));
                assert(step_views(steps@) =~= mid + contents_steps(cv.take(k + 1), ti as int));
                k = k + 1;
            }
            proof {
                assert(cv.take(k as int) =~= cv);
                let prev = topics_steps(tv.take(j as int), si as int, si + 1);
                assert(tv.take(j + 1).drop_last() =~= tv.take(j as int));
                assert(tv.take(j + 1).last() == tv[j as int]);
                assert(tv[j as int] == topic@);
                assert(ti == head.len() + prev.len());
                assert(topics_steps(tv.take(j + 1), si as int, si + 1) == prev + seq![
                    (TaxonomyKind::Topic, Some(si), topic.view_id, topic.name@),
                ] + contents_steps(cv, si + 1 + prev.len()));
                assert(step_views(steps@) =~= head + topics_steps(
                    tv.take(j + 1),
                    si as int,
                    si + 1,
                ));
            }
            j = j + 1;
        }
        proof {
            assert(tv.take(j as int) =~= tv);
            let prev = subjects_steps(sv.take(i as int));
            assert(sv.take(i + 1).drop_last() =~= sv.take(i as int));
            assert(sv.take(i + 1).last() == sv[i as int]);
            assert(sv[i as int] == subject@);
            assert(si == prev.len());
            assert(step_views(steps@) =~= subjects_steps(sv.take(i + 1)));
        }
        i = i + 1;
    }
    assert(sv.take(i as int) =~= sv);
    proof {
        lemma_plan_has_one_node_per_page(sv);
    }
    if steps.len() > PAGE_TAXONOMY_LIMIT {
        Err(invalid_request("page taxonomy is limited to 2000 items"))
    } else {
        Ok(steps)
    }
}

/// The pages kept in sync, in the order of the plan; auto-managed nodes of other
/// pages are removed.
pub fn synced_source_ids(steps: &Vec<PageTaxonomyStep>) -> (r: Vec<Id>)
    ensures
        r@ == step_views(steps@).map_values(|s: StepView| s.2),
{
    let mut ids: Vec<Id> = Vec::new();
    let mut i: usize = 0;
    while i < steps.len()
        invariant
            0 <= i <= steps.len(),
            ids@ == step_views(steps@).take(i as int).map_values(|s: StepView| s.2),
        decreases steps.len() - i,
    {
        ids.push(steps[i].view_id);
        assert(step_views(steps@).take(i + 1) =~= step_views(steps@).take(i as int).push(
            steps@[i as int]@,
        ));
        assert(ids@ =~= step_views(steps@).take(i + 1).map_values(|s: StepView| s.2));
        i = i + 1;
    }
    assert(step_views(steps@).take(i as int) =~= step_views(steps@));
    ids
}

/// The number of pages of a topic: the topic and its contents.
pub open spec fn topics_page_count(topics: Seq<(Id, Seq<char>, Seq<(Id, Seq<char>)>)>) -> nat
    decreases topics.len(),
{
    if topics.len() == 0 {
        0
    } else {
        topics_page_count(topics.drop_last()) + 1 + topics.last().2.len()
    }
}

/// The number of pages of the tree: each subject, topic and content page.
pub open spec fn page_count(subjects: Seq<(Id, Seq<char>, Seq<(Id, Seq<char>, Seq<(Id, Seq<char>)>)>)>) -> nat
    decreases subjects.len(),
{
    if subjects.len() == 0 {
        0
    } else {
        page_count(subjects.drop_last()) + 1 + topics_page_count(subjects.last().2)
    }
}

proof fn lemma_topics_steps_len(
    topics: Seq<(Id, Seq<char>, Seq<(Id, Seq<char>)>)>,
    subject_index: int,
    base: int,
)
    ensures
        topics_steps(topics, subject_index, base).len() == topics_page_count(topics),
    decreases topics.len(),
{
    if topics.len() > 0 {
        lemma_topics_steps_len(topics.drop_last(), subject_index, base);
    }
}

/// The plan holds one node for each page of the tree, so the limit of 2000 nodes
/// is a limit of 2000 pages.
pub proof fn lemma_plan_has_one_node_per_page(
    subjects: Seq<(Id, Seq<char>, Seq<(Id, Seq<char>, Seq<(Id, Seq<char>)>)>)>,
)
    ensures
        subjects_steps(subjects).len() == page_count(subjects),
    decreases subjects.len(),
{
    if subjects.len() > 0 {
        lemma_plan_has_one_node_per_page(subjects.drop_last());
        let prev = subjects_steps(subjects.drop_last());
        lemma_topics_steps_len(subjects.last().2, prev.len() as int, prev.len() + 1int);
    }
}

/// A content page as the plan sees it: its page and its name.
pub type ContentTree = (Id, Seq<char>);

/// A topic page with its content pages.
pub type TopicTree = (Id, Seq<char>, Seq<ContentTree>);

/// A subject page with its topic pages.
pub type SubjectTree = (Id, Seq<char>, Seq<TopicTree>);

proof fn lemma_subjects_steps_prefix(subjects: Seq<SubjectTree>, n: int)
    requires
        0 <= n <= subjects.len(),
    ensures
        subjects_steps(subjects.take(n)).len() <= subjects_steps(subjects).len(),
        forall|k: int|
            0 <= k < subjects_steps(subjects.take(n)).len() ==> #[trigger] subjects_steps(
                subjects,
            )[k] == subjects_steps(subjects.take(n))[k],
    decreases subjects.len(),
{
    if n == subjects.len() {
        assert(subjects.take(n) =~= subjects);
    } else {
        let shorter = subjects.drop_last();
        assert(subjects.take(n) =~= shorter.take(n));
        lemma_subjects_steps_prefix(shorter, n);
    }
}

proof fn lemma_subjects_steps_next(subjects: Seq<SubjectTree>, a: int)
    requires
        0 <= a < subjects.len(),
    ensures
        subjects_steps(subjects.take(a + 1)) == subjects_steps(subjects.take(a)) + seq![
            (TaxonomyKind::Subject, None::<usize>, subjects[a].0, subjects[a].1),
        ] + topics_steps(
            subjects[a].2,
            subjects_steps(subjects.take(a)).len() as int,
            subjects_steps(subjects.take(a)).len() + 1int,
        ),
{
    assert(subjects.take(a + 1).drop_last() =~= subjects.take(a));
    assert(subjects.take(a + 1).last() == subjects[a]);
}

proof fn lemma_topics_steps_prefix(topics: Seq<TopicTree>, subject_index: int, base: int, n: int)
    requires
        0 <= n <= topics.len(),
    ensures
        topics_steps(topics.take(n), subject_index, base).len() <= topics_steps(
            topics,
            subject_index,
            base,
        ).len(),
        forall|k: int|
            0 <= k < topics_steps(topics.take(n), subject_index, base).len()
                ==> #[trigger] topics_steps(topics, subject_index, base)[k] == topics_steps(
                topics.take(n),
                subject_index,
                base,
            )[k],
    decreases topics.len(),
{
    if n == topics.len() {
        assert(topics.take(n) =~= topics);
    } else {
        let shorter = topics.drop_last();
        assert(topics.take(n) =~= shorter.take(n));
        lemma_topics_steps_prefix(shorter, subject_index, base, n);
    }
}

proof fn lemma_topics_steps_next(topics: Seq<TopicTree>, subject_index: int, base: int, b: int)
    requires
        0 <= b < topics.len(),
    ensures
        topics_steps(topics.take(b + 1), subject_index, base) == topics_steps(
            topics.take(b),
            subject_index,
            base,
        ) + seq![(TaxonomyKind::Topic, Some(subject_index as usize), topics[b].0, topics[b].1)]
            + contents_steps(
            topics[b].2,
            base + topics_steps(topics.take(b), subject_index, base).len(),
        ),
{
    assert(topics.take(b + 1).drop_last() =~= topics.take(b));
    assert(topics.take(b + 1).last() == topics[b]);
}

/// Every topic page is kept below its own subject: the plan holds the subject's
/// node, without a parent, and after it the topic's node, whose parent is the
/// position of that subject's node.
pub proof fn lemma_plan_places_topic_under_its_subject(
    subjects: Seq<SubjectTree>,
    a: int,
    b: int,
)
    requires
        0 <= a < subjects.len(),
        0 <= b < subjects[a].2.len(),
    ensures
        exists|ps: int, pt: int|
            #![trigger subjects_steps(subjects)[ps], subjects_steps(subjects)[pt]]
            0 <= ps < pt < subjects_steps(subjects).len() && subjects_steps(subjects)[ps] == (
                TaxonomyKind::Subject,
                None::<usize>,
                subjects[a].0,
                subjects[a].1,
            ) && subjects_steps(subjects)[pt] == (
                TaxonomyKind::Topic,
                Some(ps as usize),
                subjects[a].2[b].0,
                subjects[a].2[b].1,
            ),
{
    let plan = subjects_steps(subjects);
    let topics = subjects[a].2;
    let p = subjects_steps(subjects.take(a)).len() as int;
    lemma_subjects_steps_next(subjects, a);
    lemma_subjects_steps_prefix(subjects, a + 1);
    let upto = subjects_steps(subjects.take(a + 1));
    let tail = topics_steps(topics, p, p + 1);
    lemma_topics_steps_next(topics, p, p + 1, b);
    lemma_topics_steps_prefix(topics, p, p + 1, b + 1);
    let q = topics_steps(topics.take(b), p, p + 1).len() as int;
    let ps = p;
    let pt = p + 1 + q;
    assert(upto[ps] == (TaxonomyKind::Subject, None::<usize>, subjects[a].0, subjects[a].1));
    assert(tail[q] == topics_steps(topics.take(b + 1), p, p + 1)[q]);
    assert(upto[pt] == tail[q]);
    assert(plan[ps] == upto[ps]);
    assert(plan[pt] == upto[pt]);
}

/// Every content page is kept below its own topic, itself below its own subject:
/// the plan holds the subject's node, without a parent, then the topic's node,
/// whose parent is the subject's node, then the content's node, whose parent is
/// the topic's node.
pub proof fn lemma_plan_places_content_under_its_topic(
    subjects: Seq<SubjectTree>,
    a: int,
    b: int,
    c: int,
)
    requires
        0 <= a < subjects.len(),
        0 <= b < subjects[a].2.len(),
        0 <= c < subjects[a].2[b].2.len(),
    ensures
        exists|ps: int, pt: int, pc: int|
            #![trigger subjects_steps(subjects)[ps], subjects_steps(subjects)[pt], subjects_steps(subjects)[pc]]
            0 <= ps < pt < pc < subjects_steps(subjects).len() && subjects_steps(subjects)[ps] == (
                TaxonomyKind::Subject,
                None::<usize>,
                subjects[a].0,
                subjects[a].1,
            ) && subjects_steps(subjects)[pt] == (
                TaxonomyKind::Topic,
                Some(ps as usize),
                subjects[a].2[b].0,
                subjects[a].2[b].1,
            ) && subjects_steps(subjects)[pc] == (
                TaxonomyKind::Content,
                Some(pt as usize),
                subjects[a].2[b].2[c].0,
                subjects[a].2[b].2[c].1,
            ),
{
    let plan = subjects_steps(subjects);
    let topics = subjects[a].2;
    let p = subjects_steps(subjects.take(a)).len() as int;
    lemma_subjects_steps_next(subjects, a);
    lemma_subjects_steps_prefix(subjects, a + 1);
    let upto = subjects_steps(subjects.take(a + 1));
    let tail = topics_steps(topics, p, p + 1);
    lemma_topics_steps_next(topics, p, p + 1, b);
    lemma_topics_steps_prefix(topics, p, p + 1, b + 1);
    let q = topics_steps(topics.take(b), p, p + 1).len() as int;
    let within = topics_steps(topics.take(b + 1), p, p + 1);
    let ps = p;
    let pt = p + 1 + q;
    let pc = p + 1 + q + 1 + c;
    assert(upto[ps] == (TaxonomyKind::Subject, None::<usize>, subjects[a].0, subjects[a].1));
    assert(tail[q] == within[q]);
    assert(tail[q + 1 + c] == within[q + 1 + c]);
    assert(within[q + 1 + c] == contents_steps(topics[b].2, p + 1 + q)[c]);
    assert(upto[pt] == tail[q]);
    assert(upto[pc] == tail[q + 1 + c]);
    assert(plan[ps] == upto[ps]);
    assert(plan[pt] == upto[pt]);
    assert(plan[pc] == upto[pc]);
}

} // verus!
