//! Editor documents built from imported text: each non-blank line becomes a
//! paragraph, a bulleted item (`- ` or `• `) or a numbered item (`1. `, `2) `),
//! and an imported lesson gets an overview page and one child page per material.
use vstd::prelude::*;
use crate::text::{
    chars_of, numbered_item, numbered_item_range, string_from_range, trim_range, trim_seq,
};

verus! {

/// The kind of an editor block.
#[derive(Clone, Copy, PartialEq, Eq, Structural, Debug)]
pub enum BlockKind {
    Paragraph,
    BulletedList,
    NumberedList,
    Heading,
    Image,
}

impl BlockKind {
    /// The block type of the editor.
    pub fn editor_type(&self) -> (r: &'static str)
        ensures
            r@ == match *self {
                BlockKind::Paragraph => "paragraph"@,
                BlockKind::BulletedList => "bulleted_list"@,
                BlockKind::NumberedList => "numbered_list"@,
                BlockKind::Heading => "heading"@,
                BlockKind::Image => "image"@,
            },
    {
        match self {
            BlockKind::Paragraph => "paragraph",
            BlockKind::BulletedList => "bulleted_list",
            BlockKind::NumberedList => "numbered_list",
            BlockKind::Heading => "heading",
            BlockKind::Image => "image",
        }
    }
}

/// One editor block: its kind and its text (the address, for an image).
pub struct Block {
    pub kind: BlockKind,
    pub text: String,
}

impl View for Block {
    type V = (BlockKind, Seq<char>);

    open spec fn view(&self) -> (BlockKind, Seq<char>) {
        (self.kind, self.text@)
    }
}

pub open spec fn block_views(blocks: Seq<Block>) -> Seq<(BlockKind, Seq<char>)> {
    blocks.map_values(|b: Block| b@)
}

/// The pieces of `s` between line feeds (`"a\nb\n"` has the pieces `a`, `b` and an empty one).
pub open spec fn split_lines(s: Seq<char>) -> Seq<Seq<char>>
    decreases s.len(),
{
    if s.len() == 0 {
        seq![Seq::<char>::empty()]
    } else {
        let prev = split_lines(s.drop_last());
        if s.last() == '\n' {
            prev.push(Seq::<char>::empty())
        } else {
            prev.update(prev.len() - 1, prev.last().push(s.last()))
        }
    }
}

pub proof fn lemma_split_lines_not_empty(s: Seq<char>)
    ensures
        split_lines(s).len() >= 1,
    decreases s.len(),
{
    if s.len() > 0 {
        lemma_split_lines_not_empty(s.drop_last());
    }
}

/// The block of a trimmed, non-blank line.
pub open spec fn classify_line(t: Seq<char>) -> (BlockKind, Seq<char>) {
    if t.len() >= 2 && t[0] == '-' && t[1] == ' ' {
        (BlockKind::BulletedList, t.skip(2))
    } else if t.len() >= 2 && t[0] == '•' && t[1] == ' ' {
        (BlockKind::BulletedList, t.skip(2))
    } else {
        match numbered_item(t) {
            Some(item) => (BlockKind::NumberedList, item),
            None => (BlockKind::Paragraph, t),
        }
    }
}

/// The blocks of one line: none when it is blank.
pub open spec fn line_blocks(line: Seq<char>) -> Seq<(BlockKind, Seq<char>)> {
    let t = trim_seq(line);
    if t.len() == 0 {
        seq![]
    } else {
        seq![classify_line(t)]
    }
}

pub open spec fn lines_blocks(lines: Seq<Seq<char>>) -> Seq<(BlockKind, Seq<char>)>
    decreases lines.len(),
{
    if lines.len() == 0 {
        seq![]
    } else {
        lines_blocks(lines.drop_last()) + line_blocks(lines.last())
    }
}

/// The blocks of a text, one for each of its non-blank lines.
///
/// Lines are split at line feeds and trimmed, so a carriage return before a line
/// feed is dropped, as `str::lines` does.
pub open spec fn text_blocks(s: Seq<char>) -> Seq<(BlockKind, Seq<char>)> {
    lines_blocks(split_lines(s))
}

fn push_line_block(children: &mut Vec<Block>, chars: &Vec<char>, from: usize, to: usize)
    requires
        from <= to <= chars.len(),
    ensures
        block_views(final(children)@) == block_views(old(children)@) + line_blocks(
            chars@.subrange(from as int, to as int),
        ),
{
    let ghost before = block_views(children@);
    let (a, b) = trim_range(chars, from, to);
    if a == b {
        assert(block_views(children@) =~= before + line_blocks(
            chars@.subrange(from as int, to as int),
        ));
        return ;
    }
    let ghost t = chars@.subrange(a as int, b as int);
    let block = if b - a >= 2 && chars[a] == '-' && chars[a + 1] == ' ' {
        assert(t.skip(2) =~= chars@.subrange(a + 2, b as int));
        Block { kind: BlockKind::BulletedList, text: string_from_range(chars, a + 2, b) }
    } else if b - a >= 2 && chars[a] == '•' && chars[a + 1] == ' ' {
        assert(t.skip(2) =~= chars@.subrange(a + 2, b as int));
        Block { kind: BlockKind::BulletedList, text: string_from_range(chars, a + 2, b) }
    } else {
        match numbered_item_range(chars, a, b) {
            Some((x, y)) => Block {
                kind: BlockKind::NumberedList,
                text: string_from_range(chars, x, y),
            },
            None => Block { kind: BlockKind::Paragraph, text: string_from_range(chars, a, b) },
        }
    };
    assert(block@ == classify_line(t));
    children.push(block);
    assert(block_views(children@) =~= before + line_blocks(chars@.subrange(from as int, to as int)));
}

/// Appends the blocks of each non-blank line of `text`.
pub fn push_document_text(children: &mut Vec<Block>, text: &str)
    ensures
        block_views(final(children)@) == block_views(old(children)@) + text_blocks(text@),
{
    let chars = chars_of(text);
    let ghost s = chars@;
    let ghost before = block_views(children@);
    let mut start: usize = 0;
    let mut i: usize = 0;
    let ghost mut done: Seq<Seq<char>> = seq![];
    assert(s.take(0) =~= Seq::<char>::empty());
    assert(s.subrange(0, 0) =~= Seq::<char>::empty());
    assert(split_lines(s.take(0)) =~= done.push(s.subrange(0, 0)));
    while i < chars.len()
        invariant
            s == chars@,
            s == text@,
            0 <= start <= i <= chars.len(),
            split_lines(s.take(i as int)) == done.push(s.subrange(start as int, i as int)),
            block_views(children@) == before + lines_blocks(done),
        decreases chars.len() - i,
    {
        assert(s.take(i + 1).drop_last() =~= s.take(i as int));
        assert(s.take(i + 1).last() == s[i as int]);
        if chars[i] == '\n' {
            push_line_block(children, &chars, start, i);
            proof {
                let line = s.subrange(start as int, i as int);
                assert(done.push(line).drop_last() =~= done);
                assert(lines_blocks(done.push(line)) == lines_blocks(done) + line_blocks(line));
                done = done.push(line);
                assert(s.subrange(i + 1, i + 1) =~= Seq::<char>::empty());
                assert(split_lines(s.take(i + 1)) =~= done.push(s.subrange(i + 1, i + 1)));
            }
            start = i + 1;
        } else {
            proof {
                let prev = done.push(s.subrange(start as int, i as int));
                assert(s.subrange(start as int, i as int).push(s[i as int]) =~= s.subrange(
                    start as int,
                    i + 1,
                ));
                assert(split_lines(s.take(i + 1)) =~= prev.update(
                    prev.len() - 1,
                    prev.last().push(s[i as int]),
                ));
                assert(prev.update(prev.len() - 1, prev.last().push(s[i as int])) =~= done.push(
                    s.subrange(start as int, i + 1),
                ));
            }
        }
        i = i + 1;
    }
    push_line_block(children, &chars, start, chars.len());
    proof {
        let line = s.subrange(start as int, s.len() as int);
        assert(s.take(s.len() as int) =~= s);
        assert(done.push(line).drop_last() =~= done);
        assert(lines_blocks(done.push(line)) == lines_blocks(done) + line_blocks(line));
        assert(block_views(children@) =~= before + text_blocks(text@));
    }
}

/// Appends a second-level heading holding `text`.
pub fn push_document_heading(children: &mut Vec<Block>, text: &str)
    ensures
        block_views(final(children)@) == block_views(old(children)@).push(
            (BlockKind::Heading, text@),
        ),
{
    let ghost before = block_views(children@);
    children.push(Block { kind: BlockKind::Heading, text: text.to_owned() });
    assert(block_views(children@) =~= before.push((BlockKind::Heading, text@)));
}

/// The page holding the blocks of `text`.
pub fn document_text_data(text: &str) -> (r: Vec<Block>)
    ensures
        block_views(r@) == text_blocks(text@),
{
    let mut children: Vec<Block> = Vec::new();
    assert(block_views(children@) =~= Seq::<(BlockKind, Seq<char>)>::empty());
    push_document_text(&mut children, text);
    assert(block_views(children@) =~= text_blocks(text@));
    children
}

proof fn lemma_split_lines_join(a: Seq<char>, b: Seq<char>)
    ensures
        split_lines(a + seq!['\n'] + b) == split_lines(a) + split_lines(b),
    decreases b.len(),
{
    let s = a + seq!['\n'] + b;
    if b.len() == 0 {
        assert(s.drop_last() =~= a);
        assert(split_lines(b) =~= seq![Seq::<char>::empty()]);
        assert(split_lines(s) =~= split_lines(a) + split_lines(b));
    } else {
        assert(s.drop_last() =~= a + seq!['\n'] + b.drop_last());
        lemma_split_lines_join(a, b.drop_last());
        lemma_split_lines_not_empty(b.drop_last());
        let x = split_lines(a);
        let y = split_lines(b.drop_last());
        if b.last() == '\n' {
            assert(split_lines(s) =~= (x + y).push(Seq::<char>::empty()));
            assert((x + y).push(Seq::<char>::empty()) =~= x + y.push(Seq::<char>::empty()));
        } else {
            let xy = x + y;
            assert(xy.last() == y.last());
            assert(xy.update(xy.len() - 1, xy.last().push(b.last())) =~= x + y.update(
                y.len() - 1,
                y.last().push(b.last()),
            ));
        }
    }
}

proof fn lemma_lines_blocks_concat(x: Seq<Seq<char>>, y: Seq<Seq<char>>)
    ensures
        lines_blocks(x + y) == lines_blocks(x) + lines_blocks(y),
    decreases y.len(),
{
    if y.len() == 0 {
        assert(x + y =~= x);
        assert(lines_blocks(x) + lines_blocks(y) =~= lines_blocks(x));
    } else {
        assert((x + y).drop_last() =~= x + y.drop_last());
        lemma_lines_blocks_concat(x, y.drop_last());
        assert(lines_blocks(x + y) =~= lines_blocks(x) + lines_blocks(y));
    }
}

/// Imported text keeps its lines apart: two texts joined by a line break give the
/// blocks of the first followed by the blocks of the second.
pub proof fn lemma_text_blocks_of_joined_lines(a: Seq<char>, b: Seq<char>)
    ensures
        text_blocks(a + seq!['\n'] + b) == text_blocks(a) + text_blocks(b),
{
    lemma_split_lines_join(a, b);
    lemma_lines_blocks_concat(split_lines(a), split_lines(b));
}

/// A text without a line break holds at most one block.
pub proof fn lemma_single_line_text_blocks(s: Seq<char>)
    requires
        !s.contains('\n'),
    ensures
        text_blocks(s) == line_blocks(s),
{
    lemma_split_lines_single(s);
    assert(seq![s].drop_last() =~= Seq::<Seq<char>>::empty());
    assert(lines_blocks(Seq::<Seq<char>>::empty()) =~= Seq::<(BlockKind, Seq<char>)>::empty());
    assert(seq![s].last() == s);
    assert(lines_blocks(seq![s]) =~= line_blocks(s));
}

proof fn lemma_split_lines_single(s: Seq<char>)
    requires
        !s.contains('\n'),
    ensures
        split_lines(s) == seq![s],
    decreases s.len(),
{
    if s.len() == 0 {
        assert(s =~= Seq::<char>::empty());
        assert(split_lines(s) =~= seq![s]);
    } else {
        assert(!s.drop_last().contains('\n')) by {
            if s.drop_last().contains('\n') {
                let i = choose|i: int| 0 <= i < s.drop_last().len() && s.drop_last()[i] == '\n';
                assert(s[i] == '\n');
            }
        }
        lemma_split_lines_single(s.drop_last());
        assert(s[s.len() - 1] != '\n');
        assert(s.drop_last().push(s.last()) =~= s);
        let prev = split_lines(s.drop_last());
        assert(prev == seq![s.drop_last()]);
        assert(prev.last() == s.drop_last());
        assert(prev.update(prev.len() - 1, prev.last().push(s.last())) =~= seq![s]);
    }
}

} // verus!
