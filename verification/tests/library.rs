use serde_json::Value;
use studyflash_review::cards::card_row;
use studyflash_review::document::{
    document_text_data, push_document_heading, push_document_text, Block, BlockKind,
};
use studyflash_review::lesson::{lesson_material_pages, lesson_page_data};
use studyflash_review::model::{
    Choices, CreateCardRequest, CreateTaxonomyRequest, LessonImportRequest, PageContentInput,
    PageSubjectInput, PageTopicInput, ReviewError, TaxonomyKind,
};
use studyflash_review::progress::{
    calculate_review_xp, completion_eligible, is_scheduled_review, level_for_xp,
    remaining_reviews, XP_COMPLETION,
};
use studyflash_review::review::{determine_correct, review_window, ReviewRequest};
use studyflash_review::schedule::calculate_interval;
use studyflash_review::tags::{normalize_lowered_tags, normalize_tags};
use studyflash_review::taxonomy::{
    lesson_needs_transaction, lesson_node, lesson_taxonomy, link_cards_to_page,
    page_taxonomy_plan, place_lesson, place_lesson_cards, source_needs_topic_parent,
    source_taxonomy, synced_source_ids, SourceTaxonomy,
};
use studyflash_review::text::{eq_ignore_ascii_case, numbered_list_item, trim};
use studyflash_review::validation::{
    check_card_fields, check_import_size, check_lesson_request, check_parent_kind,
    check_review_difficulty, invalid_taxonomy_reference, is_boolean_answer, page_taxonomy_name,
    parse_taxonomy_kind, taxonomy_name_for_title, trimmed_and_lowercase, validate_card,
    validate_taxonomy,
};

const DAY: i64 = 86_400;

fn invalid(result_error: ReviewError) -> String {
    match result_error {
        ReviewError::InvalidRequest(message) => message,
        _ => panic!("expected an invalid request"),
    }
}

fn card(card_type: &str, front: &str, back: &str, correct_answer: &str, choices: Value) -> CreateCardRequest {
    let choices = match choices {
        Value::Array(items) => Choices::Array(items),
        other => Choices::Other(other),
    };
    CreateCardRequest {
        card_type: card_type.to_string(),
        front: front.to_string(),
        back: back.to_string(),
        explanation: String::new(),
        choices,
        correct_answer: correct_answer.to_string(),
        subject_id: None,
        topic_id: None,
        content_id: None,
        tags: Vec::new(),
        source_view_id: None,
        source_block_id: None,
        timezone_offset_minutes: 0,
        initial_difficulty: None,
    }
}

fn strings(items: &[&str]) -> Vec<String> {
    items.iter().map(|s| s.to_string()).collect()
}

// ---- scheduling ----

#[test]
fn schedule_states_follow_the_answer() {
    assert_eq!(calculate_interval(0, true, 1, 0, 0), (7 * DAY, "review".to_string()));
    assert_eq!(calculate_interval(0, false, 1, 0, 0), (DAY, "learning".to_string()));
    assert_eq!(calculate_interval(0, false, 2, 0, 0).0, 12 * 3_600);
    assert_eq!(calculate_interval(5 * DAY, true, 2, 0, 0).1, "review");
    assert_eq!(calculate_interval(5 * DAY, false, 2, 0, 0).1, "relearning");
}

#[test]
fn schedule_streak_bonus_and_lapse_penalty() {
    // 10 days * 2.0 * 1.15
    assert_eq!(calculate_interval(10 * DAY, true, 3, 5, 0).0, 1_987_200);
    // the streak bonus stops growing after five correct answers
    assert_eq!(calculate_interval(10 * DAY, true, 3, 9, 0).0, 1_987_200);
    // 10 days * 0.5 * 0.7
    assert_eq!(calculate_interval(10 * DAY, false, 1, 0, 3).0, 302_400);
    assert_eq!(calculate_interval(10 * DAY, false, 1, 0, 7).0, 302_400);
}

#[test]
fn schedule_short_intervals_grow_from_one_day() {
    // max(100, DAY) * 1.2
    assert_eq!(calculate_interval(100, true, 5, 0, 0).0, 103_680);
    // a wrong answer on a short interval is raised to the floor of its rating
    assert_eq!(calculate_interval(100, false, 5, 0, 0).0, 600);
    assert_eq!(calculate_interval(-5, false, 2, 0, 0).0, 12 * 3_600);
}

#[test]
fn schedule_saturates_at_the_largest_interval() {
    assert_eq!(calculate_interval(i64::MAX, true, 1, 5, 0).0, i64::MAX);
    assert_eq!(calculate_interval(i64::MAX, false, 1, 0, 0).0, 5 * DAY);
}

#[test]
fn schedule_laws_on_examples() {
    for current in [0, 1, 600, DAY, 3 * DAY, 40 * DAY] {
        for wrong in 1..=5i16 {
            for right in 1..=5i16 {
                let w = calculate_interval(current, false, wrong, 2, 1).0;
                let r = calculate_interval(current, true, right, 2, 1).0;
                assert!(w <= r, "wrong answer waits less: {} {} {}", current, wrong, right);
            }
        }
        for easier in 1..=5i16 {
            for harder in easier..=5i16 {
                for correct in [true, false] {
                    assert!(
                        calculate_interval(current, correct, easier, 1, 1).0
                            >= calculate_interval(current, correct, harder, 1, 1).0
                    );
                }
            }
        }
        assert!(calculate_interval(current, true, 3, 0, 0).0 >= current);
        if current >= DAY {
            assert!(calculate_interval(current, false, 1, 0, 0).0 <= current);
        }
        assert!(calculate_interval(current, true, 2, 1, 0).0 <= calculate_interval(current, true, 2, 4, 0).0);
        assert!(calculate_interval(current, false, 2, 0, 0).0 >= calculate_interval(current, false, 2, 0, 2).0);
    }
}

// ---- experience and progress ----

#[test]
fn extra_practice_earns_at_most_four_points() {
    let total: i32 = (0..50).map(|n| calculate_review_xp(false, n)).sum();
    assert_eq!(total, 4);
    assert_eq!(calculate_review_xp(true, 7), 5);
}

#[test]
fn scheduled_review_is_the_first_review_of_a_queued_card() {
    assert!(is_scheduled_review(Some(false)));
    assert!(!is_scheduled_review(Some(true)));
    assert!(!is_scheduled_review(None));
}

#[test]
fn completion_needs_a_finished_non_empty_queue() {
    assert!(!completion_eligible(0, 0));
    assert!(!completion_eligible(5, 4));
    assert!(completion_eligible(5, 5));
    assert_eq!(XP_COMPLETION, 20);
    assert_eq!(remaining_reviews(5, 3), 2);
    assert_eq!(remaining_reviews(i64::MIN, 1), i64::MIN);
    assert_eq!(remaining_reviews(i64::MAX, -1), i64::MAX);
}

#[test]
fn levels_grow_with_the_square_root_of_experience() {
    assert_eq!(level_for_xp(-5), 1);
    assert_eq!(level_for_xp(0), 1);
    assert_eq!(level_for_xp(99), 1);
    assert_eq!(level_for_xp(100), 2);
    assert_eq!(level_for_xp(399), 2);
    assert_eq!(level_for_xp(400), 3);
    assert_eq!(level_for_xp(i64::MAX), 303_700_050);
    let mut previous = 1;
    for xp in (0..5_000).step_by(37) {
        let level = level_for_xp(xp);
        assert!(level >= previous);
        previous = level;
    }
}

// ---- text ----

#[test]
fn trim_removes_unicode_whitespace() {
    assert_eq!(trim("\u{3000} a b \t\r\n"), "a b");
    assert_eq!(trim("   "), "");
    assert_eq!(trim("\u{2003}x\u{00a0}"), "x");
}

#[test]
fn answers_compare_ignoring_ascii_case() {
    assert!(eq_ignore_ascii_case("Crédito Rotativo", "crédito ROTATIVO"));
    assert!(!eq_ignore_ascii_case("É", "é"));
    assert!(!eq_ignore_ascii_case("a", "ab"));
}

#[test]
fn numbered_items_need_digits_a_separator_and_text() {
    assert_eq!(numbered_list_item("12.   item  "), Some("item"));
    assert_eq!(numbered_list_item("1."), None);
    assert_eq!(numbered_list_item("a1. x"), None);
    assert_eq!(numbered_list_item("5 item"), None);
    assert_eq!(numbered_list_item(". item"), None);
    assert_eq!(numbered_list_item("123"), None);
}

// ---- tags ----

#[test]
fn tags_are_trimmed_lowercased_sorted_and_unique() {
    let tags = normalize_tags(strings(&["  Foo", "bar", "FOO", "", "   ", "Çedilha"]));
    assert_eq!(tags, strings(&["bar", "foo", "çedilha"]));
}

#[test]
fn normalised_tags_are_never_more_than_given() {
    let given = strings(&["A", "a", " a ", "", "b"]);
    let tags = normalize_tags(given.clone());
    assert_eq!(tags, strings(&["a", "b"]));
    assert!(tags.len() <= given.len());
    assert!(normalize_tags(Vec::new()).is_empty());
}

#[test]
fn tag_order_and_repeats_do_not_matter() {
    let a = normalize_tags(strings(&["b", "A", "c", "a"]));
    let b = normalize_tags(strings(&["c", "a", "b", "b"]));
    assert_eq!(a, b);
}

#[test]
fn lowered_tags_are_sorted_without_empties_or_repeats() {
    let tags = normalize_lowered_tags(strings(&["zeta", "", "alpha", "zeta", "Beta"]));
    assert_eq!(tags, strings(&["Beta", "alpha", "zeta"]));
    assert!(normalize_lowered_tags(strings(&["", ""])).is_empty());
}

#[test]
fn normalising_tags_twice_changes_nothing() {
    let once = normalize_tags(strings(&["  Rust ", "verus", "RUST", "Ünïcode", ""]));
    assert_eq!(once, strings(&["rust", "verus", "ünïcode"]));
    assert_eq!(normalize_tags(once.clone()), once);
}

#[test]
fn boolean_answers_are_true_or_false() {
    assert!(is_boolean_answer("true"));
    assert!(is_boolean_answer("false"));
    assert!(!is_boolean_answer("True"));
    assert!(!is_boolean_answer(" true"));
    assert!(!is_boolean_answer("yes"));
    assert!(!is_boolean_answer(""));
}

// ---- documents ----

fn views(blocks: &[Block]) -> Vec<(BlockKind, String)> {
    blocks.iter().map(|b| (b.kind, b.text.clone())).collect()
}

#[test]
fn document_lines_become_blocks() {
    let mut children = Vec::new();
    push_document_heading(&mut children, "Título");
    push_document_text(&mut children, "  um\r\n\n• dois\n-  três\n3) quatro\n\t\n4) \n");
    assert_eq!(
        views(&children),
        vec![
            (BlockKind::Heading, "Título".to_string()),
            (BlockKind::Paragraph, "um".to_string()),
            (BlockKind::BulletedList, "dois".to_string()),
            (BlockKind::BulletedList, " três".to_string()),
            (BlockKind::NumberedList, "quatro".to_string()),
            (BlockKind::Paragraph, "4)".to_string()),
        ]
    );
    assert!(document_text_data(" \n \n").is_empty());
}

#[test]
fn joined_texts_keep_their_lines_apart() {
    let a = "primeiro\n- item";
    let b = "2. segundo";
    let joined = format!("{}\n{}", a, b);
    let mut left = document_text_data(a);
    left.extend(document_text_data(b));
    assert_eq!(views(&document_text_data(&joined)), views(&left));
}

fn lesson(summary: &str, cards: usize, skipped: &[&str]) -> LessonImportRequest {
    LessonImportRequest {
        parent_view_id: 7,
        title: "Aula".to_string(),
        source_url: "https://example.com/aula".to_string(),
        discipline: "  ".to_string(),
        topic: " Sintaxe ".to_string(),
        transcript: String::new(),
        summary: summary.to_string(),
        pocket_review: " \n ".to_string(),
        questions: Vec::new(),
        mind_maps: Vec::new(),
        skipped_materials: strings(skipped),
        cards: (0..cards).map(|_| card("classic", "f", "b", "", Value::Null)).collect(),
        subject_id: None,
        topic_id: None,
        content_id: None,
        timezone_offset_minutes: 0,
    }
}

#[test]
fn lesson_overview_lists_origin_topic_cards_and_missing_materials() {
    let request = lesson("", 12, &["Resumo: ausente", "Mapa: ausente"]);
    let blocks = views(&lesson_page_data(&request));
    assert_eq!(blocks[0], (BlockKind::Paragraph, "Aula importada do Gran".to_string()));
    assert_eq!(blocks[1], (BlockKind::Paragraph, "Origem: https://example.com/aula".to_string()));
    assert_eq!(blocks[2], (BlockKind::Paragraph, "Tópico: Sintaxe".to_string()));
    assert!(blocks[3].1.contains("páginas filhas"));
    assert!(blocks[4].1.starts_with("12 cartão(ões)"));
    assert_eq!(blocks[5], (BlockKind::Heading, "MATERIAIS NÃO DISPONÍVEIS NESTA IMPORTAÇÃO".to_string()));
    assert_eq!(blocks[6].1, "Resumo: ausente");
    assert_eq!(blocks[7].1, "Mapa: ausente");
    assert_eq!(blocks.len(), 8);
}

#[test]
fn blank_materials_get_no_page() {
    let request = lesson("Resumo\n- a", 0, &[]);
    let pages = lesson_material_pages(&request);
    assert_eq!(pages.len(), 1);
    assert_eq!(pages[0].name, "Resumo");
    assert_eq!(views(&pages[0].blocks).len(), 2);
    let overview = views(&lesson_page_data(&request));
    assert_eq!(overview.len(), 4);
}

// ---- validation ----

#[test]
fn card_fields_are_checked() {
    assert_eq!(invalid(check_card_fields(&card("classic", "  ", "b", "", Value::Null), None).unwrap_err()), "front is required");
    let mut hard = card("classic", "f", "b", "", Value::Null);
    hard.initial_difficulty = Some(6);
    assert_eq!(invalid(check_card_fields(&hard, None).unwrap_err()), "initial_difficulty must be between 1 and 5");
    assert_eq!(invalid(check_card_fields(&card("classic", "f", " ", "", Value::Null), None).unwrap_err()), "classic cards require a back");
    assert_eq!(invalid(check_card_fields(&card("multiple_choice", "f", "", "x", Value::Null), None).unwrap_err()), "choices must be an array");
    assert_eq!(
        invalid(check_card_fields(&card("multiple_choice", "f", "", "x", Value::Null), Some(1)).unwrap_err()),
        "multiple choice cards require choices and a correct answer"
    );
    assert!(check_card_fields(&card("multiple_choice", "f", "", "x", Value::Null), Some(2)).is_ok());
    assert!(check_card_fields(&card("true_false", "f", "", "TRUE", Value::Null), None).is_ok());
    assert_eq!(
        invalid(check_card_fields(&card("true_false", "f", "", "yes", Value::Null), None).unwrap_err()),
        "true/false cards require correct_answer true or false"
    );
    assert_eq!(invalid(check_card_fields(&card("essay", "f", "", "", Value::Null), None).unwrap_err()), "invalid card type");
}

#[test]
fn card_taxonomy_references_are_listed() {
    let mut request = card("classic", "f", "b", "", Value::Null);
    request.subject_id = Some(1);
    request.content_id = Some(3);
    let refs = check_card_fields(&request, None).unwrap();
    assert_eq!(refs, vec![(1, TaxonomyKind::Subject), (3, TaxonomyKind::Content)]);
    assert_eq!(invalid(invalid_taxonomy_reference(TaxonomyKind::Topic)), "invalid topic");
}

#[test]
fn card_choices_are_read_as_a_json_array() {
    let two = Value::Array(vec![Value::String("a".into()), Value::String("b".into())]);
    assert!(validate_card(&card("multiple_choice", "f", "", "a", two)).is_ok());
    let one = Value::Array(vec![Value::String("a".into())]);
    assert_eq!(
        invalid(validate_card(&card("multiple_choice", "f", "", "a", one)).unwrap_err()),
        "multiple choice cards require choices and a correct answer"
    );
    assert_eq!(
        invalid(validate_card(&card("multiple_choice", "f", "", "a", Value::String("a".into()))).unwrap_err()),
        "choices must be an array"
    );
    assert_eq!(
        invalid(validate_card(&card("multiple_choice", "f", "", "a", Value::Array(Vec::new()))).unwrap_err()),
        "multiple choice cards require choices and a correct answer"
    );
    // choices matter only to multiple-choice cards
    assert!(validate_card(&card("classic", "f", "b", "", Value::Null)).is_ok());
}

#[test]
fn taxonomy_nodes_are_checked() {
    let request = |parent: Option<u128>, kind: &str, name: &str| CreateTaxonomyRequest {
        parent_id: parent,
        kind: kind.to_string(),
        name: name.to_string(),
    };
    assert_eq!(validate_taxonomy(&request(None, "subject", "Português")).unwrap(), None);
    assert_eq!(validate_taxonomy(&request(Some(4), "topic", "Sintaxe")).unwrap(), Some(TaxonomyKind::Subject));
    assert_eq!(validate_taxonomy(&request(Some(4), "content", "Aula")).unwrap(), Some(TaxonomyKind::Topic));
    assert_eq!(invalid(validate_taxonomy(&request(None, "subject", " ")).unwrap_err()), "taxonomy name is required");
    assert_eq!(invalid(validate_taxonomy(&request(None, "chapter", "x")).unwrap_err()), "invalid taxonomy kind");
    assert_eq!(invalid(validate_taxonomy(&request(Some(1), "subject", "x")).unwrap_err()), "invalid taxonomy parent");
    assert_eq!(invalid(validate_taxonomy(&request(None, "topic", "x")).unwrap_err()), "invalid taxonomy parent");
    assert!(check_parent_kind("topic", TaxonomyKind::Subject, Some("subject")).is_ok());
    assert_eq!(
        invalid(check_parent_kind("topic", TaxonomyKind::Subject, Some("topic")).unwrap_err()),
        "topic requires a subject parent"
    );
    assert_eq!(parse_taxonomy_kind("content"), Some(TaxonomyKind::Content));
    assert_eq!(TaxonomyKind::Topic.as_str(), "topic");
}

#[test]
fn request_limits_are_enforced() {
    assert!(check_import_size(1).is_ok());
    assert!(check_import_size(200).is_ok());
    assert_eq!(invalid(check_import_size(0).unwrap_err()), "an import must contain between 1 and 200 cards");
    assert!(check_import_size(201).is_err());
    assert!(check_review_difficulty(1).is_ok());
    assert_eq!(invalid(check_review_difficulty(0).unwrap_err()), "difficulty must be between 1 and 5");
}

#[test]
fn lesson_requests_are_checked() {
    assert_eq!(check_lesson_request("  Aula 1 ", "https://x", 3).ok(), Some("Aula 1".to_string()));
    assert_eq!(
        invalid(check_lesson_request("   ", "https://x", 0).unwrap_err()),
        "lesson title must contain 1 to 500 characters"
    );
    // 250 two-byte characters are 500 bytes; one more exceeds the limit
    assert!(check_lesson_request(&"é".repeat(250), "https://x", 0).is_ok());
    assert!(check_lesson_request(&"é".repeat(251), "https://x", 0).is_err());
    assert_eq!(invalid(check_lesson_request("Aula", " ", 0).unwrap_err()), "a valid lesson source URL is required");
    assert!(check_lesson_request("Aula", &"u".repeat(4_001), 0).is_err());
    assert_eq!(
        invalid(check_lesson_request("Aula", "https://x", 201).unwrap_err()),
        "a lesson import is limited to 200 flashcards"
    );
}

#[test]
fn names_are_trimmed_and_lowercased() {
    assert_eq!(page_taxonomy_name("  Língua PORTUGUESA ").ok(), Some(("Língua PORTUGUESA".to_string(), "língua portuguesa".to_string())));
    assert_eq!(
        invalid(page_taxonomy_name(" ").unwrap_err()),
        "page taxonomy names must contain between 1 and 200 characters"
    );
    assert!(page_taxonomy_name(&"ã".repeat(200)).is_ok());
    assert!(page_taxonomy_name(&"ã".repeat(201)).is_err());
    assert_eq!(trimmed_and_lowercase(" Tag "), ("Tag".to_string(), "tag".to_string()));
    assert_eq!(taxonomy_name_for_title(&"ç".repeat(300)).chars().count(), 200);
    assert_eq!(taxonomy_name_for_title("Aula"), "Aula");
}

// ---- taxonomy ----

#[test]
fn source_pages_map_back_to_the_taxonomy() {
    let s = |a: Option<u128>, b: Option<u128>, c: Option<u128>| SourceTaxonomy { subject_id: a, topic_id: b, content_id: c };
    assert_eq!(source_taxonomy("subject", 1, None, None), s(Some(1), None, None));
    assert_eq!(source_taxonomy("topic", 2, Some(1), None), s(Some(1), Some(2), None));
    assert_eq!(source_taxonomy("content", 3, Some(2), Some(1)), s(Some(1), Some(2), Some(3)));
    assert_eq!(source_taxonomy("content", 3, None, Some(1)), s(None, None, Some(3)));
    assert_eq!(source_taxonomy("other", 3, Some(2), Some(1)), s(None, None, None));
    assert!(source_needs_topic_parent("content", Some(2)));
    assert!(!source_needs_topic_parent("topic", Some(2)));
    assert!(!source_needs_topic_parent("content", None));
}

#[test]
fn imported_lessons_become_topics_or_contents() {
    let resolved = SourceTaxonomy { subject_id: Some(1), topic_id: None, content_id: None };
    let t = lesson_taxonomy(None, None, None, &resolved);
    assert_eq!(lesson_node(&t), Some((TaxonomyKind::Topic, 1)));
    assert_eq!(place_lesson(&t, TaxonomyKind::Topic, 9).topic_id, Some(9));
    let in_topic = lesson_taxonomy(None, Some(5), None, &resolved);
    assert_eq!(in_topic.subject_id, Some(1));
    assert_eq!(lesson_node(&in_topic), Some((TaxonomyKind::Content, 5)));
    let placed = place_lesson(&in_topic, TaxonomyKind::Content, 8);
    assert_eq!(placed.content_id, Some(8));
    assert_eq!(lesson_node(&placed), None);
    assert!(!lesson_needs_transaction(0, &placed));
    assert!(lesson_needs_transaction(1, &placed));
    assert!(lesson_needs_transaction(0, &in_topic));
}

#[test]
fn lesson_cards_take_the_lesson_placement_and_page() {
    let mut cards = vec![card("classic", "f", "b", "", Value::Null), card("true_false", "g", "", "true", Value::Null)];
    cards[1].source_block_id = Some("block".to_string());
    let t = SourceTaxonomy { subject_id: Some(1), topic_id: Some(2), content_id: None };
    place_lesson_cards(&mut cards, &t, -180);
    link_cards_to_page(&mut cards, 77);
    for c in &cards {
        assert_eq!((c.subject_id, c.topic_id, c.content_id), (Some(1), Some(2), None));
        assert_eq!(c.timezone_offset_minutes, -180);
        assert_eq!(c.source_view_id, Some(77));
        assert_eq!(c.source_block_id, None);
    }
    assert_eq!(cards[1].front, "g");
}

#[test]
fn page_tree_is_planned_in_order_with_parents() {
    let subjects = vec![PageSubjectInput {
        view_id: 10,
        name: "Português".to_string(),
        topics: vec![
            PageTopicInput {
                view_id: 20,
                name: "Sintaxe".to_string(),
                contents: vec![
                    PageContentInput { view_id: 30, name: "Aula 1".to_string() },
                    PageContentInput { view_id: 31, name: "Aula 2".to_string() },
                ],
            },
            PageTopicInput { view_id: 21, name: "Morfologia".to_string(), contents: vec![] },
        ],
    }];
    let steps = page_taxonomy_plan(&subjects).ok().unwrap();
    let plan: Vec<(TaxonomyKind, Option<usize>, u128)> = steps.iter().map(|s| (s.kind, s.parent, s.view_id)).collect();
    assert_eq!(
        plan,
        vec![
            (TaxonomyKind::Subject, None, 10),
            (TaxonomyKind::Topic, Some(0), 20),
            (TaxonomyKind::Content, Some(1), 30),
            (TaxonomyKind::Content, Some(1), 31),
            (TaxonomyKind::Topic, Some(0), 21),
        ]
    );
    assert_eq!(synced_source_ids(&steps), vec![10, 20, 30, 31, 21]);
}

#[test]
fn page_tree_is_limited_to_two_thousand_nodes() {
    let contents = |n: usize| (0..n).map(|i| PageContentInput { view_id: i as u128, name: "c".to_string() }).collect::<Vec<_>>();
    let tree = |n: usize| vec![PageSubjectInput {
        view_id: 1,
        name: "s".to_string(),
        topics: vec![PageTopicInput { view_id: 2, name: "t".to_string(), contents: contents(n) }],
    }];
    assert_eq!(page_taxonomy_plan(&tree(1_998)).ok().map(|s| s.len()), Some(2_000));
    assert_eq!(invalid(page_taxonomy_plan(&tree(1_999)).err().unwrap()), "page taxonomy is limited to 2000 items");
}

// ---- reviews ----

#[test]
fn answers_are_judged_by_card_type() {
    let request = |selected: Option<&str>, correct: Option<bool>| ReviewRequest {
        difficulty: 3,
        selected_answer: selected.map(|s| s.to_string()),
        correct,
        response_time_ms: None,
        timezone_offset_minutes: 0,
    };
    assert_eq!(determine_correct("classic", "x", &request(None, Some(false))).ok(), Some(false));
    assert_eq!(invalid(determine_correct("classic", "x", &request(Some("x"), None)).unwrap_err()), "classic cards require correct");
    assert_eq!(determine_correct("multiple_choice", " Crédito ", &request(Some("crédito  "), None)).ok(), Some(true));
    assert_eq!(determine_correct("true_false", "true", &request(Some("False"), None)).ok(), Some(false));
    assert_eq!(invalid(determine_correct("true_false", "true", &request(None, Some(true))).unwrap_err()), "selected_answer is required");
}

#[test]
fn review_window_is_the_local_day() {
    let w = review_window(0, 86_400 * 3 + 10).ok().unwrap();
    assert_eq!((w.date, w.start, w.end), (3, 3 * DAY, 4 * DAY));
    // one hour west of UTC, just after midnight UTC, it is still the previous day
    let w = review_window(-60, 0).ok().unwrap();
    assert_eq!((w.date, w.start, w.end), (-1, -DAY + 3_600, 3_600));
    let w = review_window(14 * 60, 0).ok().unwrap();
    assert_eq!((w.date, w.start, w.end), (0, -14 * 3_600, DAY - 14 * 3_600));
    assert_eq!(invalid(review_window(14 * 60 + 1, 0).err().unwrap()), "invalid timezone offset");
    assert!(matches!(review_window(0, i64::MAX).err().unwrap(), ReviewError::Internal(_)));
}

#[test]
fn cards_are_stored_trimmed_with_normalised_tags() {
    let mut request = card("classic", " Frente ", "Verso  ", " ", Value::Null);
    request.explanation = "\tporque".to_string();
    request.tags = strings(&["B", " a ", "b"]);
    let row = card_row(&request);
    assert_eq!(row.front, "Frente");
    assert_eq!(row.back, "Verso");
    assert_eq!(row.explanation, "porque");
    assert_eq!(row.correct_answer, "");
    assert_eq!(row.tags, strings(&["a", "b"]));
    assert_eq!(row.initial_difficulty, 3);
    request.initial_difficulty = Some(5);
    assert_eq!(card_row(&request).initial_difficulty, 5);
}
