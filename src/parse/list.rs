use vstd::prelude::*;

use super::blocks::{block_spec, blocks_result_view, blocks_view, Block, BlockType, BlockV, ParseError};
use super::document::DocContext;
use super::line::{is_blank, leading_count, line_type_spec, trim_start, Line};
use super::{lines_spec, lines_view, tokens_to_lines};
use crate::lex::{tokens_view, Token, TokenType, TokenV};

verus! {

/// The kind of a list, with the number of its first item where it is numbered.
#[derive(Debug, PartialEq, Eq, Copy, Clone, Structural)]
pub enum ListType {
    Number(usize),
    BracketedNumber(usize),
    Dash,
    Star,
    Plus,
}

/// Two list types of the same kind, whatever their numbers.
pub open spec fn same_list_kind(a: ListType, b: ListType) -> bool {
    match (a, b) {
        (ListType::Number(_), ListType::Number(_)) => true,
        (ListType::BracketedNumber(_), ListType::BracketedNumber(_)) => true,
        (ListType::Dash, ListType::Dash) => true,
        (ListType::Star, ListType::Star) => true,
        (ListType::Plus, ListType::Plus) => true,
        _ => false,
    }
}

/// The first space at or after `i`, or -1.
pub open spec fn first_space_from(s: Seq<TokenV>, i: int) -> int
    decreases s.len() - i,
{
    if i < 0 || i >= s.len() {
        -1
    } else if s[i] is Space {
        i
    } else {
        first_space_from(s, i + 1)
    }
}

/// The position just past the first space after the line's indentation, or 0.
pub open spec fn after_marker(s: Seq<TokenV>) -> int {
    let p = first_space_from(s, leading_count(s, TokenType::Space) as int);
    if p < 0 {
        0
    } else {
        p + 1
    }
}

/// Where a list item's content starts: past its marker and the spaces that
/// follow it.
pub open spec fn item_content_start(s: Seq<TokenV>) -> int {
    let f = after_marker(s);
    f + leading_count(s.subrange(f, s.len() as int), TokenType::Space)
}

/// The column after a tab that starts at column `col`: the next multiple of four.
pub open spec fn tab_stop(col: nat) -> nat {
    (col + 4 - col % 4) as nat
}

/// The column where the line's leading spaces and tabs end, counting from
/// column `col`.
pub open spec fn indent_columns(s: Seq<TokenV>, col: nat) -> nat
    decreases s.len(),
{
    if s.len() > 0 && s[0] is Space {
        indent_columns(s.drop_first(), col + 1)
    } else if s.len() > 0 && s[0] is Tab {
        indent_columns(s.drop_first(), tab_stop(col))
    } else {
        col
    }
}

/// A run of `n` spaces.
pub open spec fn spaces(n: nat) -> Seq<TokenV> {
    Seq::new(n, |i: int| TokenV::Space)
}

/// The line without the leading blanks that fill columns `col` to `n`; a
/// tab that reaches past column `n` leaves spaces for the rest of its width.
pub open spec fn strip_columns(s: Seq<TokenV>, col: nat, n: nat) -> Seq<TokenV>
    decreases s.len(),
{
    if col >= n || s.len() == 0 {
        s
    } else if s[0] is Space {
        strip_columns(s.drop_first(), col + 1, n)
    } else if s[0] is Tab {
        if tab_stop(col) <= n {
            strip_columns(s.drop_first(), tab_stop(col), n)
        } else {
            spaces((tab_stop(col) - n) as nat) + s.drop_first()
        }
    } else {
        s
    }
}

/// The line's indentation reaches column `start` (never where `start` is 0).
pub open spec fn indented_past(s: Seq<TokenV>, start: int) -> bool {
    start != 0 && indent_columns(s, 0) >= start
}

/// The line opens item number `count` (from 0) of a list of type `lt`.
pub open spec fn is_new_item_spec(s: Seq<TokenV>, lt: ListType, count: int) -> bool {
    match lt {
        ListType::BracketedNumber(start) => match line_type_spec(s, None) {
            BlockType::List(ListType::BracketedNumber(c)) => c == start + count,
            _ => false,
        },
        ListType::Number(start) => match line_type_spec(s, None) {
            BlockType::List(ListType::Number(c)) => c == start + count,
            _ => false,
        },
        _ => line_type_spec(s, None) == BlockType::List(lt),
    }
}

/// The list items built so far, the token run of the open item, how many
/// items were opened, and the content column of the open item.
pub struct ItemState {
    pub items: Seq<BlockV>,
    pub current: Seq<TokenV>,
    pub count: int,
    pub last_line_start: int,
}

/// One line through the list-item splitter.
pub open spec fn items_step(st: ItemState, line: Seq<TokenV>, lt: ListType, depth: nat) -> Option<ItemState>
    decreases depth, 2nat, 0nat,
{
    let new_item = is_new_item_spec(line, lt, st.count) || st.last_line_start == 0;
    if new_item && !indented_past(line, st.last_line_start) {
        let start = item_content_start(line);
        let items = if st.current.len() > 0 {
            match block_spec(BlockType::ListItem, st.current, depth) {
                Some(b) => Some(st.items.push(b)),
                None => None,
            }
        } else {
            Some(st.items)
        };
        match items {
            Some(items) => Some(
                ItemState {
                    items,
                    current: trim_start(line, start as nat),
                    count: st.count + 1,
                    last_line_start: start,
                },
            ),
            None => None,
        }
    } else {
        let c1 = if st.current.len() > 0 {
            st.current.push(TokenV::NewLine)
        } else {
            st.current
        };
        let c2 = if !is_blank(line) {
            c1 + if indented_past(line, st.last_line_start) {
                strip_columns(line, 0, st.last_line_start as nat)
            } else {
                line
            }
        } else {
            c1
        };
        Some(ItemState { current: c2, ..st })
    }
}

/// Item numbering: once an item is open, a line opens the next item of a
/// numbered list only where it is a marker of the same kind whose number is
/// the first item's number plus the items so far; any other line, a marker
/// with another number included, opens none.
pub proof fn lemma_item_numbering(st: ItemState, line: Seq<TokenV>, lt: ListType, depth: nat)
    requires
        st.last_line_start != 0,
        lt is Number || lt is BracketedNumber,
        items_step(st, line, lt, depth) is Some,
    ensures
        ({
            let next = items_step(st, line, lt, depth)->0;
            &&& next.count == st.count || next.count == st.count + 1
            &&& next.count == st.count + 1 ==> match lt {
                ListType::Number(start) => line_type_spec(line, None) matches BlockType::List(
                    ListType::Number(n),
                ) && n == start + st.count,
                ListType::BracketedNumber(start) => line_type_spec(line, None) matches BlockType::List(
                    ListType::BracketedNumber(n),
                ) && n == start + st.count,
                _ => false,
            }
        }),
{
}

/// The splitter after the first `n` lines.
pub open spec fn items_fold(lines: Seq<Seq<TokenV>>, n: nat, lt: ListType, depth: nat) -> Option<ItemState>
    decreases depth, 2nat, n,
{
    if n == 0 || n > lines.len() {
        Some(ItemState { items: Seq::empty(), current: Seq::empty(), count: 0, last_line_start: 0 })
    } else {
        match items_fold(lines, (n - 1) as nat, lt, depth) {
            Some(st) => items_step(st, lines[n - 1], lt, depth),
            None => None,
        }
    }
}

/// The items of a list whose token run is `toks`.
pub open spec fn list_items_spec(toks: Seq<TokenV>, lt: ListType, depth: nat) -> Option<Seq<BlockV>>
    decreases depth, 2nat, lines_spec(toks).len() + 1,
{
    let lines = lines_spec(toks);
    match items_fold(lines, lines.len(), lt, depth) {
        Some(st) => if st.current.len() > 0 {
            match block_spec(BlockType::ListItem, st.current, depth) {
                Some(b) => Some(st.items.push(b)),
                None => None,
            }
        } else {
            Some(st.items)
        },
        None => None,
    }
}

proof fn lemma_items_fold_none(lines: Seq<Seq<TokenV>>, n: nat, m: nat, lt: ListType, depth: nat)
    requires
        n <= m <= lines.len(),
        items_fold(lines, n, lt, depth) is None,
    ensures
        items_fold(lines, m, lt, depth) is None,
    decreases m - n,
{
    if n < m {
        lemma_items_fold_none(lines, n, (m - 1) as nat, lt, depth);
    }
}

/// Whether the line's indentation reaches column `last_line_start`, tabs
/// counted to the next tab stop; always false where `last_line_start` is 0.
fn is_indented_past_start(line: &Line, last_line_start: usize) -> (r: bool)
    ensures
        r == indented_past(line@, last_line_start as int),
{
    if last_line_start == 0 {
        return false;
    }
    let ghost s = line@;
    let mut i: usize = 0;
    let mut col: usize = 0;
    assert(s.subrange(0, s.len() as int) =~= s);
    while i < line.0.len() && col < last_line_start && (matches!(line.0[i], Token::Space)
        || matches!(line.0[i], Token::Tab))
        invariant
            s == line@,
            i <= s.len(),
            indent_columns(s, 0) == indent_columns(s.subrange(i as int, s.len() as int), col as nat),
        decreases s.len() - i,
    {
        let ghost rest = s.subrange(i as int, s.len() as int);
        assert(rest.drop_first() =~= s.subrange(i + 1, s.len() as int));
        match &line.0[i] {
            Token::Space => {
                col = col + 1;
            },
            Token::Tab => {
                if 4 - col % 4 >= last_line_start - col {
                    proof {
                        lemma_indent_columns_grows(rest.drop_first(), tab_stop(col as nat));
                    }
                    return true;
                }
                col = col + 4 - col % 4;
            },
            _ => {},
        }
        i = i + 1;
    }
    proof {
        lemma_indent_columns_grows(s.subrange(i as int, s.len() as int), col as nat);
    }
    if col >= last_line_start {
        return true;
    }
    false
}

proof fn lemma_indent_columns_grows(s: Seq<TokenV>, col: nat)
    ensures
        indent_columns(s, col) >= col,
        s.len() == 0 ==> indent_columns(s, col) == col,
    decreases s.len(),
{
    if s.len() > 0 && s[0] is Space {
        lemma_indent_columns_grows(s.drop_first(), col + 1);
    } else if s.len() > 0 && s[0] is Tab {
        lemma_indent_columns_grows(s.drop_first(), tab_stop(col));
    }
}

/// The line without the leading blanks that fill its first `n` columns.
fn strip_leading_columns(line: &Line, n: usize) -> (r: Vec<Token>)
    ensures
        tokens_view(r@) == strip_columns(line@, 0, n as nat),
{
    let ghost s = line@;
    let mut i: usize = 0;
    let mut col: usize = 0;
    let mut out: Vec<Token> = Vec::new();
    assert(s.subrange(0, s.len() as int) =~= s);
    while i < line.0.len() && col < n && (matches!(line.0[i], Token::Space) || matches!(
        line.0[i],
        Token::Tab,
    ))
        invariant
            s == line@,
            i <= s.len(),
            col <= n,
            out@.len() == 0,
            strip_columns(s, 0, n as nat) == strip_columns(s.subrange(i as int, s.len() as int), col as nat, n as nat),
        decreases s.len() - i,
    {
        let ghost rest = s.subrange(i as int, s.len() as int);
        assert(rest.drop_first() =~= s.subrange(i + 1, s.len() as int));
        match &line.0[i] {
            Token::Space => {
                col = col + 1;
            },
            Token::Tab => {
                if 4 - col % 4 <= n - col {
                    col = col + 4 - col % 4;
                } else {
                    let extra = 4 - col % 4 - (n - col);
                    let mut k: usize = 0;
                    while k < extra
                        invariant
                            k <= extra,
                            tokens_view(out@) == spaces(k as nat),
                        decreases extra - k,
                    {
                        proof {
                            crate::lex::lemma_tokens_view_push(out@, Token::Space);
                        }
                        out.push(Token::Space);
                        assert(spaces(k as nat).push(TokenV::Space) =~= spaces((k + 1) as nat));
                        k = k + 1;
                    }
                    let mut j: usize = i + 1;
                    let ghost pre = tokens_view(out@);
                    assert(pre =~= pre + s.subrange(i + 1, i + 1));
                    while j < line.0.len()
                        invariant
                            s == line@,
                            i < j <= s.len(),
                            tokens_view(out@) == pre + s.subrange(i + 1, j as int),
                        decreases s.len() - j,
                    {
                        assert(s[j as int] == line.0@[j as int]@);
                        let tok = line.0[j].duplicate();
                        proof {
                            crate::lex::lemma_tokens_view_push(out@, tok);
                        }
                        out.push(tok);
                        assert(tokens_view(out@) =~= pre + s.subrange(i + 1, j + 1));
                        j = j + 1;
                    }
                    return out;
                }
            },
            _ => {},
        }
        i = i + 1;
    }
    let mut j: usize = i;
    assert(tokens_view(out@) =~= s.subrange(i as int, i as int));
    while j < line.0.len()
        invariant
            s == line@,
            i <= j <= s.len(),
            tokens_view(out@) == s.subrange(i as int, j as int),
        decreases s.len() - j,
    {
        assert(s[j as int] == line.0@[j as int]@);
        let tok = line.0[j].duplicate();
        proof {
            crate::lex::lemma_tokens_view_push(out@, tok);
        }
        out.push(tok);
        assert(tokens_view(out@) =~= s.subrange(i as int, j + 1));
        j = j + 1;
    }
    out
}

/// Whether the line opens item number `count` (from 0) of a list of type `list_type`.
fn is_new_list_item(line: &Line, list_type: ListType, count: usize) -> (r: bool)
    ensures
        r == is_new_item_spec(line@, list_type, count as int),
{
    let lt = line.line_type(None);
    match list_type {
        ListType::BracketedNumber(start) => match lt {
            BlockType::List(ListType::BracketedNumber(cur_count)) => cur_count >= start && cur_count - start == count,
            _ => false,
        },
        ListType::Number(start) => match lt {
            BlockType::List(ListType::Number(cur_count)) => cur_count >= start && cur_count - start == count,
            _ => false,
        },
        _ => lt == BlockType::List(list_type),
    }
}

fn first_char_after_list_indicator(line: &Line) -> (r: usize)
    ensures
        r == after_marker(line@),
        r <= line@.len(),
{
    let leading_spaces = line.leading_spaces();
    proof {
        super::line::lemma_leading_count_props(line@, TokenType::Space);
    }
    let mut i: usize = leading_spaces;
    while i < line.0.len()
        invariant
            leading_spaces <= i <= line@.len(),
            leading_spaces == leading_count(line@, TokenType::Space),
            first_space_from(line@, leading_spaces as int) == first_space_from(line@, i as int),
        decreases line@.len() - i,
    {
        if matches!(line.0[i], Token::Space) {
            return i + 1;
        }
        i = i + 1;
    }
    0
}

/// Where a list item's content starts: past its marker and the spaces that
/// follow it (never past the end of the line).
pub fn list_item_content_start(line: &Line) -> (r: usize)
    ensures
        r == item_content_start(line@),
        r <= line@.len(),
{
    let f = first_char_after_list_indicator(line);
    let mut i: usize = f;
    while i < line.0.len() && matches!(line.0[i], Token::Space)
        invariant
            f <= i <= line@.len(),
            forall|j: int| f <= j < i ==> #[trigger] line@[j] is Space,
        decreases line@.len() - i,
    {
        i = i + 1;
    }
    proof {
        let rest = line@.subrange(f as int, line@.len() as int);
        assert forall|j: int| 0 <= j < i - f implies type_of_is_space(#[trigger] rest[j]) by {
            assert(rest[j] == line@[f + j]);
        }
        super::line::lemma_leading_count(rest, TokenType::Space, i - f);
    }
    i
}

/// A space token.
pub open spec fn type_of_is_space(t: TokenV) -> bool {
    crate::lex::type_of(t) == TokenType::Space
}

/// Splits the token run of a list into its items, each parsed in turn.
pub fn parse_line_items(
    tokens: &Vec<Token>,
    context: &mut DocContext,
    list_type: ListType,
    depth: usize,
) -> (r: Result<Vec<Block>, ParseError>)
    ensures
        blocks_result_view(r) == list_items_spec(tokens_view(tokens@), list_type, depth as nat),
    decreases depth, 1nat,
{
    let lines = tokens_to_lines(tokens);
    let ghost ls = lines_view(lines@);
    let mut blocks: Vec<Block> = Vec::new();
    let mut current_block: Vec<Token> = Vec::new();
    let mut count: usize = 0;
    let mut last_line_start: usize = 0;
    let mut i: usize = 0;
    assert(blocks_view(blocks@) =~= Seq::<BlockV>::empty());
    assert(tokens_view(current_block@) =~= Seq::<TokenV>::empty());
    while i < lines.len()
        invariant
            ls == lines_view(lines@),
            ls == lines_spec(tokens_view(tokens@)),
            i <= ls.len(),
            count <= i,
            items_fold(ls, i as nat, list_type, depth as nat) == Some(
                ItemState {
                    items: blocks_view(blocks@),
                    current: tokens_view(current_block@),
                    count: count as int,
                    last_line_start: last_line_start as int,
                },
            ),
        decreases ls.len() - i,
    {
        let ghost st = ItemState {
            items: blocks_view(blocks@),
            current: tokens_view(current_block@),
            count: count as int,
            last_line_start: last_line_start as int,
        };
        let line = &lines[i];
        let ghost raw = ls[i as int];
        assert(line@ == raw);
        let ghost mut built = BlockV::ThematicBreak;
        let new_line_item = is_new_list_item(line, list_type, count) || last_line_start == 0;
        if new_line_item && !is_indented_past_start(line, last_line_start) {
            let start = list_item_content_start(line);
            if current_block.len() > 0 {
                let inner = current_block;
                match Block::new(BlockType::ListItem, inner, context, depth) {
                    Ok(b) => {
                        proof {
                            built = b@;
                        }
                        let ghost prev = blocks_view(blocks@);
                        blocks.push(b);
                        assert(blocks_view(blocks@) =~= prev.push(b@));
                    },
                    Err(e) => {
                        proof {
                            assert(items_fold(ls, (i + 1) as nat, list_type, depth as nat) == items_step(st, raw, list_type, depth as nat));
                            lemma_items_fold_none(ls, (i + 1) as nat, ls.len(), list_type, depth as nat);
                        }
                        return Err(e);
                    },
                }
            }
            let mut item_line = Line(Vec::new());
            let mut j: usize = start;
            assert(item_line@ =~= line@.subrange(start as int, start as int));
            while j < line.0.len()
                invariant
                    start <= j <= line@.len(),
                    item_line@ == line@.subrange(start as int, j as int),
                decreases line@.len() - j,
            {
                assert(line@[j as int] == line.0@[j as int]@);
                let tok = line.0[j].duplicate();
                proof {
                    crate::lex::lemma_tokens_view_push(item_line.0@, tok);
                }
                item_line.0.push(tok);
                assert(item_line@ =~= line@.subrange(start as int, j + 1));
                j = j + 1;
            }
            assert(item_line@ =~= trim_start(line@, start as nat));
            current_block = item_line.0;
            last_line_start = start;
            count = count + 1;
            proof {
                if st.current.len() > 0 {
                    assert(block_spec(BlockType::ListItem, st.current, depth as nat) == Some(built));
                    assert(blocks_view(blocks@) == st.items.push(built));
                } else {
                    assert(blocks_view(blocks@) == st.items);
                }
                assert(items_step(st, raw, list_type, depth as nat) == Some(
                    ItemState {
                        items: blocks_view(blocks@),
                        current: tokens_view(current_block@),
                        count: count as int,
                        last_line_start: last_line_start as int,
                    },
                ));
            }
        } else {
            if current_block.len() > 0 {
                proof {
                    crate::lex::lemma_tokens_view_push(current_block@, Token::NewLine);
                }
                current_block.push(Token::NewLine);
            }
            let ghost c1 = tokens_view(current_block@);
            if !line.is_empty() {
                let mut part = if is_indented_past_start(line, last_line_start) {
                    strip_leading_columns(line, last_line_start)
                } else {
                    line.copy_tokens()
                };
                proof {
                    crate::lex::lemma_tokens_view_concat(current_block@, part@);
                }
                current_block.append(&mut part);
            }
            assert(items_step(st, raw, list_type, depth as nat) == Some(
                ItemState {
                    items: blocks_view(blocks@),
                    current: tokens_view(current_block@),
                    count: count as int,
                    last_line_start: last_line_start as int,
                },
            ));
        }
        assert(items_fold(ls, (i + 1) as nat, list_type, depth as nat) == items_step(st, raw, list_type, depth as nat));
        i = i + 1;
    }
    if current_block.len() > 0 {
        match Block::new(BlockType::ListItem, current_block, context, depth) {
            Ok(b) => {
                let ghost prev = blocks_view(blocks@);
                blocks.push(b);
                assert(blocks_view(blocks@) =~= prev.push(b@));
            },
            Err(e) => {
                return Err(e);
            },
        }
    }
    Ok(blocks)
}

} // verus!
