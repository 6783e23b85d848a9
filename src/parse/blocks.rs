use vstd::prelude::*;

use super::document::DocContext;
use super::helpers::{is_loose, loose_spec, trim_empty_lines, trim_empty_lines_spec};
use super::inlines::{inlines_text, inlines_view, Inline};
use super::list::{list_items_spec, parse_line_items, ListType};
use super::{parse_inlines, parse_spec, parse_tokens_with_context, inline_spec};
use crate::lex::{digit_char, digit_to_char, push_char, surface_of, tokens_view, Token, TokenV};

verus! {

/// The kind of block that a line opens or continues.
#[derive(Debug, PartialEq, Eq, Copy, Clone, Structural)]
pub enum BlockType {
    Paragraph,
    BlockQuote,
    List(ListType),
    /// An item in a list
    ListItem,
    /// A horizontal rule
    ThematicBreak,
    /// An ATX heading of level 1 to 6
    Header(u8),
    /// An underline of a paragraph; resolved into a heading or a break when
    /// the block is built
    SetextHeader(u8),
    IndentedCodeBlock,
}

impl BlockType {
    /// Headings may be empty; other blocks need content.
    pub open spec fn spec_allow_no_content(self) -> bool {
        self is Header || self is SetextHeader
    }

    /// Only a setext underline takes over an open paragraph.
    pub open spec fn spec_allow_takeover(self, other: BlockType) -> bool {
        self is SetextHeader && other == BlockType::Paragraph
    }

    /// Whether a block of this type may be built with no content.
    pub fn allow_no_content(&self) -> (r: bool)
        ensures
            r == self.spec_allow_no_content(),
    {
        match self {
            BlockType::Header(_) => true,
            BlockType::SetextHeader(_) => true,
            _ => false,
        }
    }

    /// Whether a line of this type may take over an open block of type `block_type`.
    pub fn allow_takeover(&self, block_type: BlockType) -> (r: bool)
        ensures
            r == self.spec_allow_takeover(block_type),
    {
        match self {
            BlockType::SetextHeader(_) => block_type == BlockType::Paragraph,
            _ => false,
        }
    }
}

/// Why a parse gave up.
#[derive(Debug, PartialEq, Eq, Copy, Clone, Structural)]
pub enum ParseError {
    /// Containers were nested deeper than the limit of the parse.
    NestingTooDeep,
}

/// A block of the parsed document.
#[derive(Debug, PartialEq)]
pub enum Block {
    Paragraph(Vec<Inline>),
    BlockQuote(Vec<Block>),
    List { list_type: ListType, inner: Vec<Block>, loose: bool },
    ListItem { inner: Vec<Block> },
    ThematicBreak,
    Header(u8, Vec<Inline>),
    IndentedCodeBlock(String),
}

/// The mathematical value of a block.
pub enum BlockV {
    Paragraph(Seq<Seq<char>>),
    BlockQuote(Seq<BlockV>),
    List { list_type: ListType, inner: Seq<BlockV>, loose: bool },
    ListItem(Seq<BlockV>),
    ThematicBreak,
    Header(u8, Seq<Seq<char>>),
    IndentedCodeBlock(Seq<char>),
}

/// The value of a block, its children included.
pub open spec fn block_view(b: Block) -> BlockV
    decreases b,
{
    match b {
        Block::Paragraph(v) => BlockV::Paragraph(inlines_view(v@)),
        Block::BlockQuote(v) => BlockV::BlockQuote(
            Seq::new(v@.len(), |i: int| if 0 <= i < v@.len() { block_view(v@[i]) } else { BlockV::ThematicBreak }),
        ),
        Block::List { list_type, inner, loose } => BlockV::List {
            list_type,
            inner: Seq::new(
                inner@.len(),
                |i: int| if 0 <= i < inner@.len() { block_view(inner@[i]) } else { BlockV::ThematicBreak },
            ),
            loose,
        },
        Block::ListItem { inner } => BlockV::ListItem(
            Seq::new(
                inner@.len(),
                |i: int| if 0 <= i < inner@.len() { block_view(inner@[i]) } else { BlockV::ThematicBreak },
            ),
        ),
        Block::ThematicBreak => BlockV::ThematicBreak,
        Block::Header(l, v) => BlockV::Header(l, inlines_view(v@)),
        Block::IndentedCodeBlock(s) => BlockV::IndentedCodeBlock(s@),
    }
}

impl View for Block {
    type V = BlockV;

    open spec fn view(&self) -> BlockV {
        block_view(*self)
    }
}

/// The values of a run of blocks.
pub open spec fn blocks_view(v: Seq<Block>) -> Seq<BlockV> {
    Seq::new(v.len(), |i: int| v[i]@)
}

/// The value of a built block, or `None` where the build gave up.
pub open spec fn block_result_view(r: Result<Block, ParseError>) -> Option<BlockV> {
    match r {
        Ok(b) => Some(b@),
        Err(_) => None,
    }
}

/// The values of built blocks, or `None` where the build gave up.
pub open spec fn blocks_result_view(r: Result<Vec<Block>, ParseError>) -> Option<Seq<BlockV>> {
    match r {
        Ok(v) => Some(blocks_view(v@)),
        Err(_) => None,
    }
}

/// A setext heading's content without the newline left by the paragraph it
/// took over.
pub open spec fn setext_content(inner: Seq<TokenV>) -> Seq<TokenV> {
    if inner.len() > 0 && inner.last() is NewLine {
        inner.drop_last()
    } else {
        inner
    }
}

/// The block built from a closed token run of type `bt`; `None` where
/// containers nest deeper than `depth`.
pub open spec fn block_spec(bt: BlockType, inner: Seq<TokenV>, depth: nat) -> Option<BlockV>
    decreases depth, if bt is List { 3nat } else { 1nat }, 0nat,
{
    match bt {
        BlockType::Paragraph => Some(BlockV::Paragraph(inline_spec(inner))),
        BlockType::BlockQuote => {
            if depth == 0 {
                None
            } else {
                match parse_spec(inner, (depth - 1) as nat) {
                    Some(bs) => Some(BlockV::BlockQuote(bs)),
                    None => None,
                }
            }
        },
        BlockType::List(list_type) => {
            match list_items_spec(inner, list_type, depth) {
                Some(items) => Some(BlockV::List { list_type, inner: items, loose: loose_spec(inner) }),
                None => None,
            }
        },
        BlockType::ListItem => {
            if depth == 0 {
                None
            } else {
                match parse_spec(inner, (depth - 1) as nat) {
                    Some(bs) => Some(BlockV::ListItem(bs)),
                    None => None,
                }
            }
        },
        BlockType::ThematicBreak => Some(BlockV::ThematicBreak),
        BlockType::Header(level) => Some(BlockV::Header(level, inline_spec(inner))),
        BlockType::SetextHeader(level) => {
            if setext_content(inner).len() == 0 {
                Some(BlockV::ThematicBreak)
            } else {
                Some(BlockV::Header(level, inline_spec(setext_content(inner))))
            }
        },
        BlockType::IndentedCodeBlock => Some(
            BlockV::IndentedCodeBlock(surface_of(trim_empty_lines_spec(inner))),
        ),
    }
}

/// The decimal text of a number.
pub open spec fn nat_text(n: nat) -> Seq<char>
    decreases n,
{
    if n < 10 {
        seq![digit_char(n)]
    } else {
        nat_text(n / 10).push(digit_char(n % 10))
    }
}

/// Texts joined by newlines.
pub open spec fn join_nl(v: Seq<Seq<char>>) -> Seq<char>
    decreases v.len(),
{
    if v.len() == 0 {
        Seq::empty()
    } else if v.len() == 1 {
        v[0]
    } else {
        join_nl(v.drop_last()) + seq!['\n'] + v.last()
    }
}

/// The HTML element of a list: `ol` for numbered lists (`1.` or `1)`), else `ul`.
pub open spec fn list_tag(t: ListType) -> Seq<char> {
    if t is Number || t is BracketedNumber {
        "ol"@
    } else {
        "ul"@
    }
}

/// The `start` attribute of a numbered list that does not start at 1.
pub open spec fn list_start_attr(t: ListType) -> Seq<char> {
    match t {
        ListType::Number(n) | ListType::BracketedNumber(n) => if n != 1 {
            " start=\""@ + nat_text(n as nat) + "\""@
        } else {
            Seq::empty()
        },
        _ => Seq::empty(),
    }
}

/// The HTML of a block; `loose` says whether paragraphs get `<p>` tags.
pub open spec fn block_html(b: BlockV, loose: bool) -> Seq<char>
    decreases b,
{
    match b {
        BlockV::Paragraph(inl) => if loose {
            "<p>"@ + inlines_text(inl) + "</p>"@
        } else {
            inlines_text(inl)
        },
        BlockV::BlockQuote(bs) => "<blockquote>\n"@ + join_nl(html_parts(bs, true)) + "\n</blockquote>"@,
        BlockV::List { list_type, inner, loose: l } => "<"@ + list_tag(list_type) + list_start_attr(list_type)
            + ">\n"@ + join_nl(html_parts(inner, l)) + "\n</"@ + list_tag(list_type) + ">"@,
        BlockV::ListItem(inner) => {
            let body = join_nl(html_parts(inner, loose));
            if !loose && inner.len() > 0 && inner[0] is Paragraph {
                "<li>"@ + body + (if inner.last() is List { seq!['\n'] } else { Seq::empty() }) + "</li>"@
            } else {
                "<li>\n"@ + body + "\n</li>"@
            }
        },
        BlockV::ThematicBreak => "<hr />"@,
        BlockV::Header(level, inl) => "<h"@ + nat_text(level as nat) + ">"@ + inlines_text(inl) + "</h"@
            + nat_text(level as nat) + ">"@,
        BlockV::IndentedCodeBlock(s) => "<pre><code>"@ + s + "\n</code></pre>"@,
    }
}

/// The HTML of each block of a run.
pub open spec fn html_parts(bs: Seq<BlockV>, loose: bool) -> Seq<Seq<char>>
    decreases bs,
{
    Seq::new(bs.len(), |i: int| if 0 <= i < bs.len() { block_html(bs[i], loose) } else { Seq::empty() })
}

/// The HTML of a run of blocks, one per line.
pub open spec fn blocks_html(bs: Seq<BlockV>, loose: bool) -> Seq<char> {
    join_nl(html_parts(bs, loose))
}

/// Tight and loose items: an item holding one paragraph renders it bare in a
/// tight list and inside `<p>` tags in a loose one.
pub proof fn lemma_tight_item_has_no_paragraph_tags(x: Seq<Seq<char>>)
    ensures
        block_html(BlockV::ListItem(seq![BlockV::Paragraph(x)]), false) == "<li>"@ + inlines_text(x)
            + "</li>"@,
        block_html(BlockV::ListItem(seq![BlockV::Paragraph(x)]), true) == "<li>\n"@ + ("<p>"@
            + inlines_text(x) + "</p>"@) + "\n</li>"@,
{
    let inner = seq![BlockV::Paragraph(x)];
    assert(html_parts(inner, false) =~= seq![inlines_text(x)]);
    assert(html_parts(inner, true) =~= seq![("<p>"@ + inlines_text(x) + "</p>"@)]);
    assert(join_nl(seq![inlines_text(x)]) == inlines_text(x));
    assert(join_nl(seq![("<p>"@ + inlines_text(x) + "</p>"@)]) == "<p>"@ + inlines_text(x) + "</p>"@);
    assert("<li>"@ + inlines_text(x) + Seq::<char>::empty() =~= "<li>"@ + inlines_text(x));
}

fn write_nat(out: &mut String, n: usize)
    ensures
        final(out)@ == old(out)@ + nat_text(n as nat),
    decreases n,
{
    if n >= 10 {
        write_nat(out, n / 10);
    }
    let ghost mid = out@;
    push_char(out, digit_to_char((n % 10) as u8));
    proof {
        if n >= 10 {
            assert(out@ =~= old(out)@ + nat_text(n as nat));
        } else {
            assert(out@ =~= old(out)@ + nat_text(n as nat));
        }
    }
}

impl Block {
    /// Builds a block of type `block_type` from its closed token run: text
    /// for paragraphs and headings, children for containers. Containers
    /// may nest `depth` deep.
    pub fn new(
        block_type: BlockType,
        inner: Vec<Token>,
        context: &mut DocContext,
        depth: usize,
    ) -> (r: Result<Block, ParseError>)
        ensures
            block_result_view(r) == block_spec(block_type, tokens_view(inner@), depth as nat),
        decreases depth, if block_type is List { 2nat } else { 0nat },
    {
        match block_type {
            BlockType::Paragraph => Ok(Block::Paragraph(parse_inlines(&inner, context))),
            BlockType::BlockQuote => {
                if depth == 0 {
                    return Err(ParseError::NestingTooDeep);
                }
                match parse_tokens_with_context(&inner, context, depth - 1) {
                    Ok(bs) => {
                        let r = Block::BlockQuote(bs);
                        assert(r@->BlockQuote_0 =~= blocks_view(bs@));
                        Ok(r)
                    },
                    Err(e) => Err(e),
                }
            },
            BlockType::List(list_type) => {
                let loose = is_loose(&inner);
                match parse_line_items(&inner, context, list_type, depth) {
                    Ok(items) => {
                        let r = Block::List { list_type, inner: items, loose };
                        assert(r@->inner =~= blocks_view(items@));
                        Ok(r)
                    },
                    Err(e) => Err(e),
                }
            },
            BlockType::ListItem => {
                if depth == 0 {
                    return Err(ParseError::NestingTooDeep);
                }
                match parse_tokens_with_context(&inner, context, depth - 1) {
                    Ok(bs) => {
                        let r = Block::ListItem { inner: bs };
                        assert(r@->ListItem_0 =~= blocks_view(bs@));
                        Ok(r)
                    },
                    Err(e) => Err(e),
                }
            },
            BlockType::ThematicBreak => Ok(Block::ThematicBreak),
            BlockType::Header(level) => Ok(Block::Header(level, parse_inlines(&inner, context))),
            BlockType::SetextHeader(level) => {
                // the paragraph that the underline took over may leave a newline behind
                let mut true_inner = inner;
                let n = true_inner.len();
                if n > 0 && matches!(true_inner[n - 1], Token::NewLine) {
                    true_inner.pop();
                    assert(tokens_view(true_inner@) =~= setext_content(tokens_view(inner@)));
                } else {
                    assert(tokens_view(true_inner@) =~= setext_content(tokens_view(inner@)));
                }
                if true_inner.len() == 0 {
                    return Ok(Block::ThematicBreak);
                }
                Ok(Block::Header(level, parse_inlines(&true_inner, context)))
            },
            BlockType::IndentedCodeBlock => {
                let trimmed = trim_empty_lines(inner);
                let mut code = String::new();
                let mut i: usize = 0;
                while i < trimmed.len()
                    invariant
                        i <= trimmed@.len(),
                        code@ == surface_of(tokens_view(trimmed@).subrange(0, i as int)),
                    decreases trimmed@.len() - i,
                {
                    assert(tokens_view(trimmed@).subrange(0, i + 1).drop_last() =~= tokens_view(trimmed@).subrange(0, i as int));
                    trimmed[i].write_surface(&mut code);
                    i = i + 1;
                }
                assert(tokens_view(trimmed@).subrange(0, i as int) =~= tokens_view(trimmed@));
                Ok(Block::IndentedCodeBlock(code))
            },
        }
    }

    /// The HTML of this block. `loose_mode` says whether paragraphs get
    /// `<p>` tags; a tight list item renders its paragraph bare.
    pub fn as_html(&self, loose_mode: bool) -> (r: String)
        ensures
            r@ == block_html(self@, loose_mode),
        decreases self,
    {
        match self {
            Block::Paragraph(inlines) => {
                assert(self@ == BlockV::Paragraph(inlines_view(inlines@)));
                if loose_mode {
                    let mut out = String::new();
                    out.append("<p>");
                    let t = Inline::vec_as_html(inlines);
                    out.append(t.as_str());
                    out.append("</p>");
                    assert(out@ =~= "<p>"@ + inlines_text(inlines_view(inlines@)) + "</p>"@);
                    assert(block_html(self@, loose_mode) == "<p>"@ + inlines_text(inlines_view(inlines@)) + "</p>"@);
                    out
                } else {
                    let r = Inline::vec_as_html(inlines);
                    assert(block_html(self@, loose_mode) == inlines_text(inlines_view(inlines@)));
                    r
                }
            },
            Block::BlockQuote(blocks) => {
                let mut out = String::new();
                out.append("<blockquote>\n");
                let t = Block::vec_as_html(blocks, true);
                out.append(t.as_str());
                out.append("\n</blockquote>");
                assert(blocks_view(blocks@) =~= self@->BlockQuote_0);
                let ghost inner_html = blocks_html(blocks_view(blocks@), true);
                assert(t@ == inner_html);
                assert(out@ =~= "<blockquote>\n"@ + inner_html + "\n</blockquote>"@);
                assert(block_html(self@, loose_mode) == "<blockquote>\n"@ + blocks_html(self@->BlockQuote_0, true) + "\n</blockquote>"@);
                assert(out@ =~= block_html(self@, loose_mode));
                out
            },
            Block::List { list_type, inner, loose } => {
                let name = if matches!(list_type, ListType::Number(_) | ListType::BracketedNumber(_)) {
                    "ol"
                } else {
                    "ul"
                };
                let mut out = String::new();
                out.append("<");
                out.append(name);
                match list_type {
                    ListType::Number(start_num) | ListType::BracketedNumber(start_num) => {
                        if *start_num != 1 {
                            out.append(" start=\"");
                            write_nat(&mut out, *start_num);
                            out.append("\"");
                        }
                    },
                    _ => {},
                }
                out.append(">\n");
                let t = Block::vec_as_html(inner, *loose);
                out.append(t.as_str());
                out.append("\n</");
                out.append(name);
                out.append(">");
                assert(blocks_view(inner@) =~= self@->inner);
                assert(out@ =~= block_html(self@, loose_mode));
                out
            },
            Block::ListItem { inner } => {
                assert(blocks_view(inner@) =~= self@->ListItem_0);
                let blocks = Block::vec_as_html(inner, loose_mode);
                let mut out = String::new();
                let n = inner.len();
                if !loose_mode && n > 0 && matches!(inner[0], Block::Paragraph(..)) {
                    out.append("<li>");
                    out.append(blocks.as_str());
                    if matches!(inner[n - 1], Block::List { .. }) {
                        push_char(&mut out, '\n');
                    }
                    out.append("</li>");
                } else {
                    out.append("<li>\n");
                    out.append(blocks.as_str());
                    out.append("\n</li>");
                }
                assert(out@ =~= block_html(self@, loose_mode));
                out
            },
            Block::ThematicBreak => String::from_str("<hr />"),
            Block::Header(level, inner) => {
                let mut out = String::new();
                out.append("<h");
                write_nat(&mut out, *level as usize);
                out.append(">");
                let t = Inline::vec_as_html(inner);
                out.append(t.as_str());
                out.append("</h");
                write_nat(&mut out, *level as usize);
                out.append(">");
                assert(out@ =~= block_html(self@, loose_mode));
                out
            },
            Block::IndentedCodeBlock(inner) => {
                let mut out = String::new();
                out.append("<pre><code>");
                out.append(inner.as_str());
                out.append("\n</code></pre>");
                assert(out@ =~= block_html(self@, loose_mode));
                out
            },
        }
    }

    /// The HTML of a run of blocks, one per line.
    pub fn vec_as_html(blocks: &Vec<Self>, loose_mode: bool) -> (r: String)
        ensures
            r@ == blocks_html(blocks_view(blocks@), loose_mode),
        decreases blocks,
    {
        let ghost parts = Seq::new(blocks@.len(), |i: int| block_html(blocks@[i]@, loose_mode));
        let mut html = String::new();
        let mut i: usize = 0;
        while i < blocks.len()
            invariant
                i <= blocks@.len(),
                parts == Seq::new(blocks@.len(), |i: int| block_html(blocks@[i]@, loose_mode)),
                html@ == join_nl(parts.subrange(0, i as int)),
            decreases blocks@.len() - i,
        {
            assert(parts.subrange(0, i + 1).drop_last() =~= parts.subrange(0, i as int));
            if i > 0 {
                push_char(&mut html, '\n');
            }
            let t = blocks[i].as_html(loose_mode);
            html.append(t.as_str());
            assert(html@ =~= join_nl(parts.subrange(0, i + 1)));
            i = i + 1;
        }
        assert(parts.subrange(0, i as int) =~= parts);
        assert(html_parts(blocks_view(blocks@), loose_mode) =~= parts);
        html
    }
}

} // verus!
