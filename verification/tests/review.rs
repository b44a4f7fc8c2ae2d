use serde_json::Value;
use studyflash_review::document::{push_document_text, Block};
use studyflash_review::lesson::{lesson_material_pages, lesson_page_data};
use studyflash_review::model::{Choices, CreateCardRequest, LessonImportRequest};
use studyflash_review::progress::calculate_review_xp;
use studyflash_review::schedule::calculate_interval;
use studyflash_review::text::numbered_list_item;
use uuid::Uuid;

const DAY: i64 = 86_400;

#[test]
fn correct_result_expands_interval_by_difficulty() {
    let very_easy = calculate_interval(10 * DAY, true, 1, 0, 0).0;
    let very_hard = calculate_interval(10 * DAY, true, 5, 0, 0).0;
    assert_eq!(very_easy, 32 * DAY);
    assert_eq!(very_hard, 12 * DAY);
}

#[test]
fn incorrect_result_dominates_even_when_marked_easy() {
    let very_easy = calculate_interval(10 * DAY, false, 1, 0, 0).0;
    let very_hard = calculate_interval(10 * DAY, false, 5, 0, 0).0;
    assert_eq!(very_easy, 5 * DAY);
    assert_eq!(very_hard, DAY);
}

#[test]
fn new_cards_use_initial_learning_steps() {
    assert_eq!(calculate_interval(0, true, 3, 0, 0).0, 3 * DAY);
    assert_eq!(calculate_interval(0, false, 5, 0, 0).0, 10 * 60);
}

#[test]
fn xp_rewards_habit_without_allowing_unlimited_repetition() {
    assert_eq!(calculate_review_xp(true, 0), 5);
    assert_eq!(calculate_review_xp(false, 0), 2);
    assert_eq!(calculate_review_xp(false, 1), 1);
    assert_eq!(calculate_review_xp(false, 2), 1);
    assert_eq!(calculate_review_xp(false, 3), 0);
}

#[test]
fn imported_text_preserves_simple_lists_as_editor_blocks() {
    let mut children: Vec<Block> = Vec::new();
    push_document_text(&mut children, "Introdução\n- ponto importante\n2. segunda etapa");
    assert_eq!(children[0].kind.editor_type(), "paragraph");
    assert_eq!(children[1].kind.editor_type(), "bulleted_list");
    assert_eq!(children[2].kind.editor_type(), "numbered_list");
    assert_eq!(numbered_list_item("3) exemplo"), Some("exemplo"));
    assert_eq!(numbered_list_item("texto comum"), None);
}

fn object(entries: Vec<(&str, Value)>) -> Value {
    let mut map = serde_json::Map::new();
    for (key, value) in entries {
        map.insert(key.to_string(), value);
    }
    Value::Object(map)
}

#[test]
fn full_lesson_package_uses_child_pages_and_native_review_cards() {
    let question = object(vec![
        ("statement", Value::String("Qual é a resposta?".to_string())),
        ("correct", Value::String("A".to_string())),
        (
            "alternatives",
            Value::Array(vec![object(vec![
                ("letter", Value::String("A".to_string())),
                ("text", Value::String("Certa".to_string())),
                ("correct", Value::Bool(true)),
                ("explanation", Value::String("Porque está certa.".to_string())),
            ])]),
        ),
    ]);
    let request = LessonImportRequest {
        parent_view_id: Uuid::new_v4().as_u128(),
        title: "Morfologia III".to_string(),
        source_url: "https://www.grancursosonline.com.br/aluno/curso/video/example".to_string(),
        discipline: "Língua Portuguesa".to_string(),
        topic: "Morfologia".to_string(),
        transcript: "Texto da transcrição".to_string(),
        summary: "Resumo da aula".to_string(),
        pocket_review: "Revisão rápida".to_string(),
        questions: vec![question],
        mind_maps: vec!["https://cdn.example.com/mapa.png".to_string()],
        skipped_materials: vec!["Resumo de bolso: não disponível nesta aula".to_string()],
        cards: vec![CreateCardRequest {
            card_type: "classic".to_string(),
            front: "Frente".to_string(),
            back: "Verso".to_string(),
            explanation: String::new(),
            choices: Choices::Array(Vec::new()),
            correct_answer: String::new(),
            subject_id: None,
            topic_id: None,
            content_id: None,
            tags: Vec::new(),
            source_view_id: None,
            source_block_id: None,
            timezone_offset_minutes: 0,
            initial_difficulty: None,
        }],
        subject_id: None,
        topic_id: None,
        content_id: None,
        timezone_offset_minutes: 0,
    };

    let materials = lesson_material_pages(&request);
    assert_eq!(materials.len(), 4);
    assert_eq!(materials[0].name, "Resumo");
    assert_eq!(materials[1].name, "Revisão de bolso");
    assert_eq!(materials[2].name, "Transcrição");
    assert_eq!(materials[3].name, "Mapas mentais");
    assert_eq!(materials[3].blocks[0].kind.editor_type(), "image");

    let lesson = lesson_page_data(&request);
    let lesson_text: String = lesson
        .iter()
        .map(|block| format!("{}:{}\n", block.kind.editor_type(), block.text))
        .collect();
    assert!(lesson_text.contains("páginas filhas"));
    assert!(lesson_text.contains("formato nativo da Revisão"));
    assert!(!lesson_text.contains("Questão 1"));
    assert!(!lesson_text.contains("Frente: Frente"));
}
