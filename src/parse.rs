pub mod blocks;
pub mod document;
pub mod helpers;
pub mod inlines;
pub mod line;
pub mod list;

use vstd::prelude::*;

use crate::lex::{lex, lex_spec, surface_of, tokens_view, Token, TokenV};
use blocks::{block_spec, blocks_result_view, blocks_view, Block, BlockType, BlockV, ParseError};
use document::{DocContext, Document};
use helpers::{recognises_blank_lines, should_recognise_blank_lines};
use inlines::{inlines_view, Inline};
use line::{is_blank, line_type_spec, strip_type_chars, trim_start, unindented_spaces, Line};
use list::{item_content_start, list_item_content_start, same_list_kind, ListType};

verus! {

/// Lines so far, and the line being filled.
pub open spec fn split_lines(toks: Seq<TokenV>) -> (Seq<Seq<TokenV>>, Seq<TokenV>)
    decreases toks.len(),
{
    if toks.len() == 0 {
        (Seq::empty(), Seq::empty())
    } else {
        let (ls, cur) = split_lines(toks.drop_last());
        if toks.last() is NewLine {
            (ls.push(cur), Seq::empty())
        } else {
            (ls, cur.push(toks.last()))
        }
    }
}

/// The lines of a token run, split on newline tokens. The last line is kept
/// where it holds tokens, or where it follows a line that is not blank.
pub open spec fn lines_spec(toks: Seq<TokenV>) -> Seq<Seq<TokenV>> {
    let (ls, cur) = split_lines(toks);
    if cur.len() > 0 || (ls.len() > 0 && !is_blank(ls.last())) {
        ls.push(cur)
    } else {
        ls
    }
}

/// The values of a run of lines.
pub open spec fn lines_view(v: Seq<Line>) -> Seq<Seq<TokenV>> {
    Seq::new(v.len(), |i: int| v[i]@)
}

/// Splits a token run into lines.
pub fn tokens_to_lines(tokens: &Vec<Token>) -> (r: Vec<Line>)
    ensures
        lines_view(r@) == lines_spec(tokens_view(tokens@)),
{
    let ghost t = tokens_view(tokens@);
    let mut lines: Vec<Line> = Vec::new();
    let mut latest_line: Vec<Token> = Vec::new();
    let mut i: usize = 0;
    while i < tokens.len()
        invariant
            t == tokens_view(tokens@),
            i <= t.len(),
            split_lines(t.subrange(0, i as int)) == (lines_view(lines@), tokens_view(latest_line@)),
        decreases t.len() - i,
    {
        assert(t.subrange(0, i + 1).drop_last() =~= t.subrange(0, i as int));
        if matches!(tokens[i], Token::NewLine) {
            let done = latest_line;
            latest_line = Vec::new();
            lines.push(Line(done));
            assert(lines_view(lines@) =~= split_lines(t.subrange(0, i + 1)).0);
            assert(tokens_view(latest_line@) =~= split_lines(t.subrange(0, i + 1)).1);
        } else {
            latest_line.push(tokens[i].duplicate());
            assert(tokens_view(latest_line@) =~= split_lines(t.subrange(0, i + 1)).1);
        }
        i = i + 1;
    }
    assert(t.subrange(0, i as int) =~= t);
    let n = lines.len();
    if latest_line.len() > 0 || (n > 0 && !lines[n - 1].is_empty()) {
        lines.push(Line(latest_line));
        assert(lines_view(lines@) =~= lines_spec(t));
    }
    lines
}

/// How deep containers may nest in a document that `parse` reads.
pub const MAX_NESTING: usize = 64;

/// The inline content of a token run: one text node holding its source text.
pub open spec fn inline_spec(t: Seq<TokenV>) -> Seq<Seq<char>> {
    seq![surface_of(t)]
}

/// Hands a token run to inline processing: one text node with the run's text.
pub fn parse_inlines(tokens: &Vec<Token>, context: &mut DocContext) -> (r: Vec<Inline>)
    ensures
        inlines_view(r@) == inline_spec(tokens_view(tokens@)),
{
    let mut text = String::new();
    let mut i: usize = 0;
    while i < tokens.len()
        invariant
            i <= tokens@.len(),
            text@ == surface_of(tokens_view(tokens@).subrange(0, i as int)),
        decreases tokens@.len() - i,
    {
        assert(tokens_view(tokens@).subrange(0, i + 1).drop_last() =~= tokens_view(tokens@).subrange(0, i as int));
        tokens[i].write_surface(&mut text);
        i = i + 1;
    }
    assert(tokens_view(tokens@).subrange(0, i as int) =~= tokens_view(tokens@));
    let r = vec![Inline::Text(text)];
    assert(inlines_view(r@) =~= inline_spec(tokens_view(tokens@)));
    r
}

/// A numbered list line continues the open list where its number follows
/// the open list's `count + 1` items on from the first.
pub open spec fn num_continuation(old_type: BlockType, new_type: BlockType, count: int) -> bool {
    match (old_type, new_type) {
        (BlockType::List(ListType::Number(start)), BlockType::List(ListType::Number(n))) => n == start + count + 1,
        (
            BlockType::List(ListType::BracketedNumber(start)),
            BlockType::List(ListType::BracketedNumber(n)),
        ) => n == start + count + 1,
        _ => false,
    }
}

fn is_num_list_continuation(old_type: &BlockType, new_type: &BlockType, count: usize) -> (r: bool)
    ensures
        r == num_continuation(*old_type, *new_type, count as int),
{
    match (old_type, new_type) {
        (BlockType::List(ListType::Number(start)), BlockType::List(ListType::Number(n))) => {
            *n > *start && *n - *start - 1 == count
        },
        (
            BlockType::List(ListType::BracketedNumber(start)),
            BlockType::List(ListType::BracketedNumber(n)),
        ) => *n > *start && *n - *start - 1 == count,
        _ => false,
    }
}

/// Two list types of the same kind, whatever their numbers.
pub open spec fn is_same_list_kind(a: BlockType, b: BlockType) -> bool {
    match (a, b) {
        (BlockType::List(x), BlockType::List(y)) => same_list_kind(x, y),
        _ => false,
    }
}

fn same_kind_of_list(a: BlockType, b: BlockType) -> (r: bool)
    ensures
        r == is_same_list_kind(a, b),
{
    match (a, b) {
        (BlockType::List(x), BlockType::List(y)) => match (x, y) {
            (ListType::Number(_), ListType::Number(_)) => true,
            (ListType::BracketedNumber(_), ListType::BracketedNumber(_)) => true,
            (ListType::Dash, ListType::Dash) => true,
            (ListType::Star, ListType::Star) => true,
            (ListType::Plus, ListType::Plus) => true,
            _ => false,
        },
        _ => false,
    }
}

/// The state of the block assembler between two lines.
pub struct AsmState {
    pub blocks: Seq<BlockV>,
    pub current_type: Option<BlockType>,
    pub current: Seq<TokenV>,
    pub content_start: int,
    pub last_line_empty: bool,
    pub count: int,
}

/// A setext underline with nothing above it is no heading.
pub open spec fn resolve_setext(t: BlockType, current: Seq<TokenV>) -> BlockType {
    if current.len() == 0 {
        match t {
            BlockType::SetextHeader(1) => BlockType::Paragraph,
            BlockType::SetextHeader(2) => BlockType::ThematicBreak,
            _ => t,
        }
    } else {
        t
    }
}

/// Stores the line, stripped of its markers, in the open block of type `t`.
pub open spec fn asm_store(
    blocks: Seq<BlockV>,
    current: Seq<TokenV>,
    t: BlockType,
    line: Seq<TokenV>,
    as_empty: bool,
    content_start: int,
    last_line_empty: bool,
    count: int,
) -> AsmState {
    let t2 = resolve_setext(t, current);
    let l2 = strip_type_chars(line, t2);
    let cur = if as_empty {
        current
    } else if current.len() > 0 {
        current.push(TokenV::NewLine) + l2
    } else {
        current + l2
    };
    AsmState { blocks, current_type: Some(t2), current: cur, content_start, last_line_empty, count }
}

/// One line through the block assembler.
pub open spec fn asm_step(st: AsmState, line: Seq<TokenV>, depth: nat) -> Option<AsmState>
    decreases depth, 4nat, 0nat,
{
    let reset = st.current_type == Some(BlockType::Paragraph) && st.current.len() == 0;
    let ct = if reset {
        None
    } else {
        st.current_type
    };
    let ccs = if reset {
        0
    } else {
        st.content_start
    };
    let in_list = ct matches Some(BlockType::List(_));
    let blank_space = unindented_spaces(line);
    let l = trim_start(line, blank_space);
    let t0 = line_type_spec(l, ct);
    let fresh = line_type_spec(l, None);
    let ccs2 = if fresh is List {
        item_content_start(l) + blank_space
    } else {
        ccs
    };
    match ct {
        None => Some(asm_store(st.blocks, st.current, t0, l, false, ccs2, st.last_line_empty, st.count)),
        Some(cbt) => {
            let under_indented = !is_blank(l) && st.last_line_empty && item_content_start(l)
                + blank_space < ccs2;
            let special = is_same_list_kind(cbt, t0) && in_list;
            let t1 = if special && under_indented {
                fresh
            } else if special && num_continuation(cbt, t0, st.count) {
                cbt
            } else {
                t0
            };
            let count1 = if special && !under_indented && num_continuation(cbt, t0, st.count) {
                st.count + 1
            } else {
                st.count
            };
            let as_empty = recognises_blank_lines(cbt) && is_blank(l);
            let doesnt_match = !t1.spec_allow_takeover(cbt) && t1 != cbt;
            let enough = cbt.spec_allow_no_content() || st.current.len() > 0;
            if enough && (as_empty || doesnt_match) {
                match block_spec(cbt, st.current, depth) {
                    Some(b) => Some(
                        asm_store(st.blocks.push(b), Seq::empty(), fresh, l, as_empty, ccs2, is_blank(l), 0),
                    ),
                    None => None,
                }
            } else {
                Some(asm_store(st.blocks, st.current, t1, l, as_empty, ccs2, is_blank(l), count1))
            }
        },
    }
}

/// The assembler before the first line: no block open.
pub open spec fn asm_init() -> AsmState {
    AsmState {
        blocks: Seq::empty(),
        current_type: None,
        current: Seq::empty(),
        content_start: 0,
        last_line_empty: false,
        count: 0,
    }
}

/// The assembler after the first `n` lines.
pub open spec fn asm_fold(lines: Seq<Seq<TokenV>>, n: nat, depth: nat) -> Option<AsmState>
    decreases depth, 5nat, n,
{
    if n == 0 || n > lines.len() {
        Some(asm_init())
    } else {
        match asm_fold(lines, (n - 1) as nat, depth) {
            Some(st) => asm_step(st, lines[n - 1], depth),
            None => None,
        }
    }
}

/// The blocks after the last line: the open block is closed where it has
/// content or may go without.
pub open spec fn asm_flush(st: AsmState, depth: nat) -> Option<Seq<BlockV>>
    decreases depth, 4nat, 0nat,
{
    match st.current_type {
        Some(t) => if t.spec_allow_no_content() || st.current.len() > 0 {
            match block_spec(t, st.current, depth) {
                Some(b) => Some(st.blocks.push(b)),
                None => None,
            }
        } else {
            Some(st.blocks)
        },
        None => Some(st.blocks),
    }
}

/// The blocks of a token run; `None` where containers nest deeper than `depth`.
pub open spec fn parse_spec(toks: Seq<TokenV>, depth: nat) -> Option<Seq<BlockV>>
    decreases depth, 6nat, 0nat,
{
    let lines = lines_spec(toks);
    match asm_fold(lines, lines.len(), depth) {
        Some(st) => asm_flush(st, depth),
        None => None,
    }
}

proof fn lemma_asm_fold_none(lines: Seq<Seq<TokenV>>, n: nat, m: nat, depth: nat)
    requires
        n <= m <= lines.len(),
        asm_fold(lines, n, depth) is None,
    ensures
        asm_fold(lines, m, depth) is None,
    decreases m - n,
{
    if n < m {
        lemma_asm_fold_none(lines, n, (m - 1) as nat, depth);
    }
}

/// Groups the lines of a token run into blocks, containers parsed in turn;
/// containers may nest `depth` deep.
pub fn parse_tokens_with_context(
    tokens: &Vec<Token>,
    context: &mut DocContext,
    depth: usize,
) -> (r: Result<Vec<Block>, ParseError>)
    ensures
        blocks_result_view(r) == parse_spec(tokens_view(tokens@), depth as nat),
    decreases depth, 3nat,
{
    let lines = tokens_to_lines(tokens);
    let ghost ls = lines_view(lines@);
    let mut blocks: Vec<Block> = Vec::new();
    let mut current_block_type: Option<BlockType> = None;
    let mut current_block: Vec<Token> = Vec::new();
    let mut continued_content_start: usize = 0;
    let mut last_line_empty = false;
    let mut count: usize = 0;
    let mut i: usize = 0;
    assert(blocks_view(blocks@) =~= Seq::<BlockV>::empty());
    assert(tokens_view(current_block@) =~= Seq::<TokenV>::empty());
    while i < lines.len()
        invariant
            ls == lines_view(lines@),
            ls == lines_spec(tokens_view(tokens@)),
            i <= ls.len(),
            count <= i,
            asm_fold(ls, i as nat, depth as nat) == Some(
                AsmState {
                    blocks: blocks_view(blocks@),
                    current_type: current_block_type,
                    current: tokens_view(current_block@),
                    content_start: continued_content_start as int,
                    last_line_empty,
                    count: count as int,
                },
            ),
        decreases ls.len() - i,
    {
        let ghost st = AsmState {
            blocks: blocks_view(blocks@),
            current_type: current_block_type,
            current: tokens_view(current_block@),
            content_start: continued_content_start as int,
            last_line_empty,
            count: count as int,
        };
        let ghost raw = ls[i as int];
        let mut line = Line(lines[i].copy_tokens());
        assert(line@ == raw);
        if matches!(current_block_type, Some(BlockType::Paragraph)) && current_block.len() == 0 {
            current_block_type = None;
            continued_content_start = 0;
        }
        let currently_in_list = matches!(current_block_type, Some(BlockType::List(..)));
        let blank_space = line.unindented_leading_spaces();
        line.trim_line_start(blank_space);
        let ghost l = line@;
        let mut new_block_type = line.line_type(current_block_type);
        let fresh_type = line.line_type(None);
        proof {
            if blank_space > 0 {
                line::lemma_leading_count_props(raw, crate::lex::TokenType::Space);
            }
        }
        if matches!(fresh_type, BlockType::List(..)) {
            continued_content_start = list_item_content_start(&line) + blank_space;
        }
        let line_empty = line.is_empty();
        let mut handle_as_empty = false;
        let ghost t_first = new_block_type;
        let ghost mut built = BlockV::ThematicBreak;
        match current_block_type {
            None => {},
            Some(cbt) => {
                // a line of the open list's kind, for the list to take or end
                if same_kind_of_list(cbt, new_block_type) && currently_in_list {
                    if !line_empty && last_line_empty && list_item_content_start(&line) + blank_space
                        < continued_content_start {
                        new_block_type = fresh_type;
                    } else if is_num_list_continuation(&cbt, &new_block_type, count) {
                        count = count + 1;
                        new_block_type = cbt;
                    }
                }
                handle_as_empty = should_recognise_blank_lines(cbt) && line_empty;
                let doesnt_match = !new_block_type.allow_takeover(cbt) && new_block_type != cbt;
                let has_enough_to_push = cbt.allow_no_content() || current_block.len() > 0;
                last_line_empty = line_empty;
                if has_enough_to_push && (handle_as_empty || doesnt_match) {
                    let inner = current_block;
                    current_block = Vec::new();
                    match Block::new(cbt, inner, context, depth) {
                        Ok(b) => {
                            proof {
                                built = b@;
                            }
                            let ghost prev = blocks_view(blocks@);
                            blocks.push(b);
                            assert(blocks_view(blocks@) =~= prev.push(b@));
                        },
                        Err(e) => {
                            proof {
                                assert(asm_fold(ls, (i + 1) as nat, depth as nat) == asm_step(st, raw, depth as nat));
                                assert(asm_step(st, raw, depth as nat) is None);
                                lemma_asm_fold_none(ls, (i + 1) as nat, ls.len(), depth as nat);
                            }
                            return Err(e);
                        },
                    }
                    new_block_type = fresh_type;
                    count = 0;
                }
            },
        }
        let ghost t_before = new_block_type;
        let ghost cur_before = tokens_view(current_block@);
        let ghost blocks_before = blocks_view(blocks@);
        // the line so far, against one step of `asm_step`
        proof {
            let reset = st.current_type == Some(BlockType::Paragraph) && st.current.len() == 0;
            let ct = if reset { None } else { st.current_type };
            let ccs = if reset { 0 } else { st.content_start };
            let fresh = line_type_spec(l, None);
            let ccs2 = if fresh is List { item_content_start(l) + blank_space } else { ccs };
            assert(fresh_type == fresh);
            assert(continued_content_start == ccs2);
            match ct {
                None => {
                    assert(t_first == line_type_spec(l, ct));
                    assert(blocks_view(blocks@) == st.blocks);
                    assert(tokens_view(current_block@) == st.current);
                    assert(!handle_as_empty);
                    assert(last_line_empty == st.last_line_empty);
                    assert(count == st.count);
                    assert(asm_step(st, raw, depth as nat) == Some(
                        asm_store(st.blocks, st.current, new_block_type, l, false, ccs2, st.last_line_empty, st.count),
                    ));
                },
                Some(cbt) => {
                    let t0 = line_type_spec(l, ct);
                    assert(t0 == t_first);
                    let in_list = ct matches Some(BlockType::List(_));
                    let under = !is_blank(l) && st.last_line_empty && item_content_start(l) + blank_space < ccs2;
                    let special = is_same_list_kind(cbt, t0) && in_list;
                    let cont = special && num_continuation(cbt, t0, st.count);
                    let t1 = if special && under { fresh } else if cont { cbt } else { t0 };
                    let count1 = if special && !under && cont { st.count + 1 } else { st.count };
                    let as_empty = recognises_blank_lines(cbt) && is_blank(l);
                    let dm = !t1.spec_allow_takeover(cbt) && t1 != cbt;
                    let enough = cbt.spec_allow_no_content() || st.current.len() > 0;
                    assert(handle_as_empty == as_empty);
                    assert(last_line_empty == is_blank(l));
                    if enough && (as_empty || dm) {
                        assert(t_before == fresh);
                        assert(cur_before =~= Seq::<TokenV>::empty());
                        assert(count == 0);
                        assert(block_spec(cbt, st.current, depth as nat) == Some(built));
                        assert(blocks_before == st.blocks.push(built));
                        assert(asm_step(st, raw, depth as nat) == Some(
                            asm_store(st.blocks.push(built), Seq::empty(), fresh, l, as_empty, ccs2, is_blank(l), 0),
                        ));
                    } else {
                        assert(t_before == t1);
                        assert(count == count1);
                        assert(blocks_before == st.blocks);
                        assert(cur_before == st.current);
                        assert(asm_step(st, raw, depth as nat) == Some(
                            asm_store(st.blocks, st.current, t1, l, as_empty, ccs2, is_blank(l), count1),
                        ));
                    }
                },
            }
        }
        if current_block.len() == 0 {
            new_block_type = match new_block_type {
                BlockType::SetextHeader(1) => BlockType::Paragraph,
                BlockType::SetextHeader(2) => BlockType::ThematicBreak,
                _ => new_block_type,
            };
        }
        assert(new_block_type == resolve_setext(t_before, cur_before));
        line.remove_type_chars(&new_block_type);
        current_block_type = Some(new_block_type);
        let ghost l2 = line@;
        if !handle_as_empty {
            if current_block.len() > 0 {
                proof {
                    crate::lex::lemma_tokens_view_push(current_block@, Token::NewLine);
                }
                current_block.push(Token::NewLine);
            }
            let mut tail = line.0;
            proof {
                crate::lex::lemma_tokens_view_concat(current_block@, tail@);
            }
            current_block.append(&mut tail);
        }
        assert(tokens_view(current_block@) == (if handle_as_empty {
            cur_before
        } else if cur_before.len() > 0 {
            cur_before.push(TokenV::NewLine) + l2
        } else {
            cur_before + l2
        }));
        proof {
            assert(asm_fold(ls, (i + 1) as nat, depth as nat) == asm_step(st, raw, depth as nat));
            assert(AsmState {
                    blocks: blocks_view(blocks@),
                    current_type: current_block_type,
                    current: tokens_view(current_block@),
                    content_start: continued_content_start as int,
                    last_line_empty,
                    count: count as int,
                } == asm_store(
                    blocks_before,
                    cur_before,
                    t_before,
                    l,
                    handle_as_empty,
                    continued_content_start as int,
                    last_line_empty,
                    count as int,
                ));
            assert(asm_step(st, raw, depth as nat) == Some(
                AsmState {
                    blocks: blocks_view(blocks@),
                    current_type: current_block_type,
                    current: tokens_view(current_block@),
                    content_start: continued_content_start as int,
                    last_line_empty,
                    count: count as int,
                },
            ));
        }
        i = i + 1;
    }
    match current_block_type {
        Some(t) => {
            if t.allow_no_content() || current_block.len() > 0 {
                match Block::new(t, current_block, context, depth) {
                    Ok(b) => {
                        let ghost prev = blocks_view(blocks@);
                        blocks.push(b);
                        assert(blocks_view(blocks@) =~= prev.push(b@));
                    },
                    Err(e) => {
                        return Err(e);
                    },
                }
            }
        },
        None => {},
    }
    Ok(blocks)
}

/// Parses a token run into a document; containers may nest `max_depth` deep.
pub fn parse_tokens_checked(tokens: Vec<Token>, max_depth: usize) -> (r: Result<Document, ParseError>)
    ensures
        r matches Ok(d) ==> parse_spec(tokens_view(tokens@), max_depth as nat) == Some(d@),
        r is Err <==> parse_spec(tokens_view(tokens@), max_depth as nat) is None,
{
    let mut context = DocContext {};
    match parse_tokens_with_context(&tokens, &mut context, max_depth) {
        Ok(blocks) => Ok(Document::from_blocks(blocks, context)),
        Err(e) => Err(e),
    }
}

/// Parses a Markdown text into a document; containers may nest `max_depth`
/// deep, and `NestingTooDeep` is returned where they nest deeper.
pub fn parse_checked(md: &str, max_depth: usize) -> (r: Result<Document, ParseError>)
    ensures
        r matches Ok(d) ==> parse_spec(lex_spec(md@), max_depth as nat) == Some(d@),
        r is Err <==> parse_spec(lex_spec(md@), max_depth as nat) is None,
{
    let tokens = lex(md);
    parse_tokens_checked(tokens, max_depth)
}

/// The blocks of a document read from `toks`: none at all where containers
/// nest deeper than `MAX_NESTING`.
pub open spec fn document_spec(toks: Seq<TokenV>) -> Seq<BlockV> {
    match parse_spec(toks, MAX_NESTING as nat) {
        Some(bs) => bs,
        None => Seq::empty(),
    }
}

/// Parses a token run into a document. Where containers nest deeper than
/// `MAX_NESTING` the document is empty.
pub fn parse_tokens(tokens: Vec<Token>) -> (r: Document)
    ensures
        r@ == document_spec(tokens_view(tokens@)),
{
    match parse_tokens_checked(tokens, MAX_NESTING) {
        Ok(d) => d,
        Err(_) => Document::new(),
    }
}

/// Parses a Markdown text into a document. Where containers nest deeper
/// than `MAX_NESTING` the document is empty.
pub fn parse(md: &str) -> (r: Document)
    ensures
        r@ == document_spec(lex_spec(md@)),
{
    let tokens = lex(md);
    parse_tokens(tokens)
}

} // verus!
