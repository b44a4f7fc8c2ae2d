//! The pages of an imported lesson: an overview page and one child page per
//! learning material (summary, pocket review, transcript, mind maps).
use vstd::prelude::*;
use crate::document::{
    block_views, push_document_heading, push_document_text, text_blocks, Block, BlockKind,
    document_text_data,
};
use crate::model::LessonImportRequest;
use crate::tags::views;
use crate::text::{push_char, trim, trim_seq};

verus! {

pub open spec fn digit_char(d: nat) -> char {
    if d == 0 {
        '0'
    } else if d == 1 {
        '1'
    } else if d == 2 {
        '2'
    } else if d == 3 {
        '3'
    } else if d == 4 {
        '4'
    } else if d == 5 {
        '5'
    } else if d == 6 {
        '6'
    } else if d == 7 {
        '7'
    } else if d == 8 {
        '8'
    } else {
        '9'
    }
}

/// The decimal digits of `n`.
pub open spec fn decimal(n: nat) -> Seq<char>
    decreases n,
{
    if n < 10 {
        seq![digit_char(n)]
    } else {
        decimal(n / 10).push(digit_char(n % 10))
    }
}

fn digit_char_exec(d: usize) -> (c: char)
    requires
        d < 10,
    ensures
        c == digit_char(d as nat),
{
    if d == 0 {
        '0'
    } else if d == 1 {
        '1'
    } else if d == 2 {
        '2'
    } else if d == 3 {
        '3'
    } else if d == 4 {
        '4'
    } else if d == 5 {
        '5'
    } else if d == 6 {
        '6'
    } else if d == 7 {
        '7'
    } else if d == 8 {
        '8'
    } else {
        '9'
    }
}

/// Appends the decimal digits of `n`.
pub fn push_decimal(s: &mut String, n: usize)
    ensures
        final(s)@ == old(s)@ + decimal(n as nat),
    decreases n,
{
    let ghost before = s@;
    if n >= 10 {
        push_decimal(s, n / 10);
    }
    push_char(s, digit_char_exec(n % 10));
    proof {
        if n >= 10 {
            assert((before + decimal((n / 10) as nat)).push(digit_char((n % 10) as nat)) =~= before
                + decimal((n / 10) as nat).push(digit_char((n % 10) as nat)));
        } else {
            assert(before.push(digit_char(n as nat)) =~= before + seq![digit_char(n as nat)]);
        }
    }
}

/// The texts joined with line feeds between them.
pub open spec fn join_lines(parts: Seq<Seq<char>>) -> Seq<char>
    decreases parts.len(),
{
    if parts.len() == 0 {
        seq![]
    } else if parts.len() == 1 {
        parts[0]
    } else {
        join_lines(parts.drop_last()) + seq!['\n'] + parts.last()
    }
}

/// `parts.join("\n")`.
pub fn join_lines_exec(parts: &Vec<String>) -> (r: String)
    ensures
        r@ == join_lines(views(parts@)),
{
    let ghost v = views(parts@);
    let mut r = String::new();
    let mut i: usize = 0;
    assert(v.take(0) =~= Seq::<Seq<char>>::empty());
    while i < parts.len()
        invariant
            0 <= i <= parts.len(),
            v == views(parts@),
            r@ == join_lines(v.take(i as int)),
        decreases parts.len() - i,
    {
        let ghost before = r@;
        if i > 0 {
            push_char(&mut r, '\n');
        }
        r.append(parts[i].as_str());
        proof {
            assert(v.take(i + 1).drop_last() =~= v.take(i as int));
            assert(v.take(i + 1).last() == parts@[i as int]@);
            if i == 0 {
                assert(before =~= Seq::<char>::empty());
                assert(r@ =~= v.take(1)[0]);
            } else {
                assert(r@ =~= before + seq!['\n'] + parts@[i as int]@);
            }
        }
        i = i + 1;
    }
    assert(v.take(parts.len() as int) =~= v);
    r
}

/// The blocks of the lesson's overview page.
pub open spec fn lesson_overview_blocks(
    source_url: Seq<char>,
    discipline: Seq<char>,
    topic: Seq<char>,
    card_count: nat,
    skipped_materials: Seq<Seq<char>>,
) -> Seq<(BlockKind, Seq<char>)> {
    let d = trim_seq(discipline);
    let t = trim_seq(topic);
    text_blocks("Aula importada do Gran\nOrigem: "@ + source_url) + (if d.len() > 0 {
        text_blocks("Matéria: "@ + d)
    } else {
        seq![]
    }) + (if t.len() > 0 {
        text_blocks("Tópico: "@ + t)
    } else {
        seq![]
    }) + text_blocks(
        "Os resumos, a transcrição e os mapas mentais estão organizados em páginas filhas desta aula."@,
    ) + (if card_count > 0 {
        text_blocks(
            decimal(card_count)
                + " cartão(ões), incluindo questões quando disponíveis, foram criados no formato nativo da Revisão e vinculados a esta aula."@,
        )
    } else {
        seq![]
    }) + (if skipped_materials.len() > 0 {
        seq![(BlockKind::Heading, "MATERIAIS NÃO DISPONÍVEIS NESTA IMPORTAÇÃO"@)] + text_blocks(
            join_lines(skipped_materials),
        )
    } else {
        seq![]
    })
}

/// The overview page of an imported lesson: where it came from, its subject and
/// topic, where its materials are, how many cards it brought, and which
/// materials were not available.
pub fn lesson_page_data(request: &LessonImportRequest) -> (r: Vec<Block>)
    ensures
        block_views(r@) == lesson_overview_blocks(
            request.source_url@,
            request.discipline@,
            request.topic@,
            request.cards.len() as nat,
            views(request.skipped_materials@),
        ),
{
    let mut children: Vec<Block> = Vec::new();
    let ghost mut expected: Seq<(BlockKind, Seq<char>)> = seq![];
    assert(block_views(children@) =~= expected);

    let mut origin = String::from_str("Aula importada do Gran\nOrigem: ");
    origin.append(request.source_url.as_str());
    push_document_text(&mut children, origin.as_str());
    proof {
        expected = expected + text_blocks(origin@);
    }

    let discipline = trim(request.discipline.as_str());
    if !discipline.is_empty() {
        let mut line = String::from_str("Matéria: ");
        line.append(discipline);
        push_document_text(&mut children, line.as_str());
        proof {
            expected = expected + text_blocks(line@);
        }
    } else {
        proof {
            expected = expected + Seq::<(BlockKind, Seq<char>)>::empty();
        }
    }

    let topic = trim(request.topic.as_str());
    if !topic.is_empty() {
        let mut line = String::from_str("Tópico: ");
        line.append(topic);
        push_document_text(&mut children, line.as_str());
        proof {
            expected = expected + text_blocks(line@);
        }
    } else {
        proof {
            expected = expected + Seq::<(BlockKind, Seq<char>)>::empty();
        }
    }

    push_document_text(
        &mut children,
        "Os resumos, a transcrição e os mapas mentais estão organizados em páginas filhas desta aula.",
    );
    proof {
        expected = expected + text_blocks(
            "Os resumos, a transcrição e os mapas mentais estão organizados em páginas filhas desta aula."@,
        );
    }

    if request.cards.len() > 0 {
        let mut line = String::new();
        push_decimal(&mut line, request.cards.len());
        line.append(
            " cartão(ões), incluindo questões quando disponíveis, foram criados no formato nativo da Revisão e vinculados a esta aula.",
        );
        push_document_text(&mut children, line.as_str());
        proof {
            assert(line@ =~= decimal(request.cards.len() as nat)
                + " cartão(ões), incluindo questões quando disponíveis, foram criados no formato nativo da Revisão e vinculados a esta aula."@);
            expected = expected + text_blocks(line@);
        }
    } else {
        proof {
            expected = expected + Seq::<(BlockKind, Seq<char>)>::empty();
        }
    }

    if request.skipped_materials.len() > 0 {
        push_document_heading(&mut children, "MATERIAIS NÃO DISPONÍVEIS NESTA IMPORTAÇÃO");
        let joined = join_lines_exec(&request.skipped_materials);
        push_document_text(&mut children, joined.as_str());
        proof {
            expected = expected + (seq![
                (BlockKind::Heading, "MATERIAIS NÃO DISPONÍVEIS NESTA IMPORTAÇÃO"@),
            ] + text_blocks(joined@));
        }
    } else {
        proof {
            expected = expected + Seq::<(BlockKind, Seq<char>)>::empty();
        }
    }
    proof {
        assert(block_views(children@) =~= expected);
        assert(expected =~= lesson_overview_blocks(
            request.source_url@,
            request.discipline@,
            request.topic@,
            request.cards.len() as nat,
            views(request.skipped_materials@),
        ));
    }
    children
}

/// A page created below the lesson: its title and its blocks.
pub struct MaterialPage {
    pub name: &'static str,
    pub blocks: Vec<Block>,
}

impl View for MaterialPage {
    type V = (Seq<char>, Seq<(BlockKind, Seq<char>)>);

    open spec fn view(&self) -> (Seq<char>, Seq<(BlockKind, Seq<char>)>) {
        (self.name@, block_views(self.blocks@))
    }
}

pub open spec fn page_views(pages: Seq<MaterialPage>) -> Seq<
    (Seq<char>, Seq<(BlockKind, Seq<char>)>),
> {
    pages.map_values(|p: MaterialPage| p@)
}

/// A material page holding `text`, or nothing when `text` is blank.
pub open spec fn text_page(name: Seq<char>, text: Seq<char>) -> Seq<
    (Seq<char>, Seq<(BlockKind, Seq<char>)>),
> {
    if trim_seq(text).len() > 0 {
        seq![(name, text_blocks(text))]
    } else {
        seq![]
    }
}

/// The image blocks of the mind maps.
pub open spec fn image_blocks(urls: Seq<Seq<char>>) -> Seq<(BlockKind, Seq<char>)> {
    urls.map_values(|u: Seq<char>| (BlockKind::Image, u))
}

/// The child pages of an imported lesson, in order; blank materials get no page.
pub open spec fn material_pages(
    summary: Seq<char>,
    pocket_review: Seq<char>,
    transcript: Seq<char>,
    mind_maps: Seq<Seq<char>>,
) -> Seq<(Seq<char>, Seq<(BlockKind, Seq<char>)>)> {
    text_page("Resumo"@, summary) + text_page("Revisão de bolso"@, pocket_review) + text_page(
        "Transcrição"@,
        transcript,
    ) + (if mind_maps.len() > 0 {
        seq![("Mapas mentais"@, image_blocks(mind_maps))]
    } else {
        seq![]
    })
}

fn push_text_page(pages: &mut Vec<MaterialPage>, name: &'static str, text: &str)
    ensures
        page_views(final(pages)@) == page_views(old(pages)@) + text_page(name@, text@),
{
    let ghost before = page_views(pages@);
    if !trim(text).is_empty() {
        pages.push(MaterialPage { name, blocks: document_text_data(text) });
    }
    assert(page_views(pages@) =~= before + text_page(name@, text@));
}

/// Builds the pages nested directly below an imported lesson.
pub fn lesson_material_pages(request: &LessonImportRequest) -> (r: Vec<MaterialPage>)
    ensures
        page_views(r@) == material_pages(
            request.summary@,
            request.pocket_review@,
            request.transcript@,
            views(request.mind_maps@),
        ),
{
    let mut pages: Vec<MaterialPage> = Vec::new();
    assert(page_views(pages@) =~= Seq::<(Seq<char>, Seq<(BlockKind, Seq<char>)>)>::empty());
    push_text_page(&mut pages, "Resumo", request.summary.as_str());
    push_text_page(&mut pages, "Revisão de bolso", request.pocket_review.as_str());
    push_text_page(&mut pages, "Transcrição", request.transcript.as_str());
    let ghost before = page_views(pages@);
    if request.mind_maps.len() > 0 {
        let mut children: Vec<Block> = Vec::new();
        let mut i: usize = 0;
        while i < request.mind_maps.len()
            invariant
                0 <= i <= request.mind_maps.len(),
                block_views(children@) == image_blocks(views(request.mind_maps@).take(i as int)),
            decreases request.mind_maps.len() - i,
        {
            let ghost old_children = block_views(children@);
            let url = request.mind_maps[i].clone();
            children.push(Block { kind: BlockKind::Image, text: url });
            assert(block_views(children@) =~= old_children.push((BlockKind::Image, url@)));
            assert(views(request.mind_maps@).take(i + 1) =~= views(request.mind_maps@).take(
                i as int,
            ).push(request.mind_maps@[i as int]@));
            assert(block_views(children@) =~= image_blocks(
                views(request.mind_maps@).take(i + 1),
            ));
            i = i + 1;
        }
        assert(views(request.mind_maps@).take(i as int) =~= views(request.mind_maps@));
        pages.push(MaterialPage { name: "Mapas mentais", blocks: children });
        assert(page_views(pages@) =~= before + seq![
            ("Mapas mentais"@, image_blocks(views(request.mind_maps@))),
        ]);
    } else {
        assert(page_views(pages@) =~= before + Seq::<
            (Seq<char>, Seq<(BlockKind, Seq<char>)>),
        >::empty());
    }
    pages
}

/// The child pages of a lesson: one for each of the summary, the pocket review
/// and the transcript that is not blank, in that order, holding that text; then,
/// when the lesson has mind maps, a last page "Mapas mentais" with one image block
/// per mind map, in order, carrying its address.
pub proof fn lemma_material_pages_hold_every_material(
    summary: Seq<char>,
    pocket_review: Seq<char>,
    transcript: Seq<char>,
    mind_maps: Seq<Seq<char>>,
)
    ensures
        ({
            let pages = material_pages(summary, pocket_review, transcript, mind_maps);
            let texts = (if trim_seq(summary).len() > 0 {
                1int
            } else {
                0int
            }) + (if trim_seq(pocket_review).len() > 0 {
                1int
            } else {
                0int
            }) + (if trim_seq(transcript).len() > 0 {
                1int
            } else {
                0int
            });
            &&& pages.len() == texts + if mind_maps.len() > 0 {
                1int
            } else {
                0int
            }
            &&& trim_seq(summary).len() > 0 ==> pages[0] == ("Resumo"@, text_blocks(summary))
            &&& trim_seq(transcript).len() > 0 ==> pages[texts - 1] == (
                "Transcrição"@,
                text_blocks(transcript),
            )
            &&& mind_maps.len() > 0 ==> {
                &&& pages.last().0 == "Mapas mentais"@
                &&& pages.last().1.len() == mind_maps.len()
                &&& forall|i: int|
                    0 <= i < mind_maps.len() ==> #[trigger] pages.last().1[i] == (
                        BlockKind::Image,
                        mind_maps[i],
                    )
            }
        }),
{
}

} // verus!
