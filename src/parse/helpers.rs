use vstd::prelude::*;

use super::blocks::BlockType;
use super::line::is_blank;
use super::{lines_spec, lines_view, tokens_to_lines};
use crate::lex::{tokens_view, Token, TokenV};

verus! {

/// Blocks that a blank line ends: all but lists and indented code.
pub open spec fn recognises_blank_lines(bt: BlockType) -> bool {
    !(bt is List) && bt != BlockType::IndentedCodeBlock
}

/// Whether a blank line ends an open block of this type.
pub fn should_recognise_blank_lines(block_type: BlockType) -> (r: bool)
    ensures
        r == recognises_blank_lines(block_type),
{
    match block_type {
        BlockType::List(..) => false,
        BlockType::IndentedCodeBlock => false,
        _ => true,
    }
}

/// The first blank line at or after `i`, or -1.
pub open spec fn first_blank_from(ls: Seq<Seq<TokenV>>, i: int) -> int
    decreases ls.len() - i,
{
    if i < 0 || i >= ls.len() {
        -1
    } else if is_blank(ls[i]) {
        i
    } else {
        first_blank_from(ls, i + 1)
    }
}

/// The first line at or after `i` that is not blank, or -1.
pub open spec fn first_filled_from(ls: Seq<Seq<TokenV>>, i: int) -> int
    decreases ls.len() - i,
{
    if i < 0 || i >= ls.len() {
        -1
    } else if !is_blank(ls[i]) {
        i
    } else {
        first_filled_from(ls, i + 1)
    }
}

/// The last line before `j` that is not blank, or -1.
pub open spec fn last_filled_before(ls: Seq<Seq<TokenV>>, j: int) -> int
    decreases j,
{
    if j <= 0 || j > ls.len() {
        -1
    } else if !is_blank(ls[j - 1]) {
        j - 1
    } else {
        last_filled_before(ls, j - 1)
    }
}

/// Lines joined by newline tokens; an empty line that starts the run adds
/// no newline.
pub open spec fn join_lines(ls: Seq<Seq<TokenV>>) -> Seq<TokenV>
    decreases ls.len(),
{
    if ls.len() == 0 {
        Seq::empty()
    } else {
        let acc = join_lines(ls.drop_last());
        if acc.len() > 0 {
            acc.push(TokenV::NewLine) + ls.last()
        } else {
            acc + ls.last()
        }
    }
}

/// The token run without its leading and trailing blank lines; a run of
/// blank lines alone becomes empty.
pub open spec fn trim_empty_lines_spec(toks: Seq<TokenV>) -> Seq<TokenV> {
    let ls = lines_spec(toks);
    let f = first_filled_from(ls, 0);
    let l = last_filled_before(ls, ls.len() as int);
    let lo = if f < 0 {
        0
    } else {
        f
    };
    let hi = if l < 0 {
        0
    } else {
        l + 1
    };
    join_lines(ls.subrange(lo, hi))
}

/// A list is loose where a blank line stands anywhere but last.
pub open spec fn loose_spec(toks: Seq<TokenV>) -> bool {
    let ls = lines_spec(toks);
    let p = first_blank_from(ls, 0);
    p >= 0 && p + 1 != ls.len()
}

proof fn lemma_last_filled_bounds(ls: Seq<Seq<TokenV>>, j: int)
    requires
        0 <= j <= ls.len(),
    ensures
        -1 <= last_filled_before(ls, j) < j,
    decreases j,
{
    if j > 0 && is_blank(ls[j - 1]) {
        lemma_last_filled_bounds(ls, j - 1);
    }
}

proof fn lemma_first_filled_bounds(ls: Seq<Seq<TokenV>>, i: int)
    requires
        0 <= i <= ls.len(),
    ensures
        first_filled_from(ls, i) == -1 || i <= first_filled_from(ls, i) < ls.len(),
    decreases ls.len() - i,
{
    if i < ls.len() && is_blank(ls[i]) {
        lemma_first_filled_bounds(ls, i + 1);
    }
}

/// Whether the list's token run is loose.
pub fn is_loose(tokens: &Vec<Token>) -> (r: bool)
    ensures
        r == loose_spec(tokens_view(tokens@)),
{
    let lines = tokens_to_lines(tokens);
    let ghost ls = lines_view(lines@);
    let mut i: usize = 0;
    while i < lines.len()
        invariant
            ls == lines_view(lines@),
            ls == lines_spec(tokens_view(tokens@)),
            i <= ls.len(),
            first_blank_from(ls, 0) == first_blank_from(ls, i as int),
        decreases ls.len() - i,
    {
        assert(lines@[i as int]@ == ls[i as int]);
        if lines[i].is_empty() {
            return i + 1 != lines.len();
        }
        i = i + 1;
    }
    false
}

/// Removes the blank lines that start and end a token run; blank lines
/// between others stay.
pub fn trim_empty_lines(tokens: Vec<Token>) -> (r: Vec<Token>)
    ensures
        tokens_view(r@) == trim_empty_lines_spec(tokens_view(tokens@)),
{
    let lines = tokens_to_lines(&tokens);
    let ghost ls = lines_view(lines@);
    let n = lines.len();
    let mut lo: usize = 0;
    while lo < n && lines[lo].is_empty()
        invariant
            ls == lines_view(lines@),
            n == ls.len(),
            lo <= n,
            first_filled_from(ls, 0) == first_filled_from(ls, lo as int),
        decreases n - lo,
    {
        lo = lo + 1;
    }
    if lo == n {
        lo = 0;
    }
    let mut hi: usize = n;
    while hi > 0 && lines[hi - 1].is_empty()
        invariant
            ls == lines_view(lines@),
            n == ls.len(),
            hi <= n,
            last_filled_before(ls, n as int) == last_filled_before(ls, hi as int),
        decreases hi,
    {
        hi = hi - 1;
    }
    proof {
        lemma_first_filled_bounds(ls, 0);
        lemma_last_filled_bounds(ls, n as int);
    }
    let ghost f = first_filled_from(ls, 0);
    let ghost l = last_filled_before(ls, n as int);
    proof {
        if f >= 0 {
            lemma_first_filled_is_filled(ls, 0);
            lemma_no_filled_before(ls, n as int, f);
        }
        if l >= 0 {
            lemma_last_filled_is_filled(ls, n as int);
            lemma_no_filled_from(ls, 0, l);
        }
    }
    assert(lo as int == (if f < 0 { 0 } else { f }));
    assert(hi as int == (if l < 0 { 0 } else { l + 1 }));
    assert(lo <= hi);
    let mut out: Vec<Token> = Vec::new();
    let mut i: usize = lo;
    assert(ls.subrange(lo as int, lo as int) =~= Seq::<Seq<TokenV>>::empty());
    while i < hi
        invariant
            ls == lines_view(lines@),
            n == ls.len(),
            lo <= i <= hi <= n,
            tokens_view(out@) == join_lines(ls.subrange(lo as int, i as int)),
        decreases hi - i,
    {
        assert(ls.subrange(lo as int, i + 1).drop_last() =~= ls.subrange(lo as int, i as int));
        if out.len() > 0 {
            out.push(Token::NewLine);
        }
        let mut part = lines[i].copy_tokens();
        proof {
            crate::lex::lemma_tokens_view_concat(out@, part@);
        }
        out.append(&mut part);
        i = i + 1;
    }
    out
}

proof fn lemma_first_filled_is_filled(ls: Seq<Seq<TokenV>>, i: int)
    requires
        0 <= i <= ls.len(),
        first_filled_from(ls, i) >= 0,
    ensures
        !is_blank(ls[first_filled_from(ls, i)]),
    decreases ls.len() - i,
{
    if i < ls.len() && is_blank(ls[i]) {
        lemma_first_filled_is_filled(ls, i + 1);
    }
}

proof fn lemma_last_filled_is_filled(ls: Seq<Seq<TokenV>>, j: int)
    requires
        0 <= j <= ls.len(),
        last_filled_before(ls, j) >= 0,
    ensures
        !is_blank(ls[last_filled_before(ls, j)]),
    decreases j,
{
    if j > 0 && is_blank(ls[j - 1]) {
        lemma_last_filled_is_filled(ls, j - 1);
    }
}

proof fn lemma_no_filled_before(ls: Seq<Seq<TokenV>>, j: int, f: int)
    requires
        0 <= f < j <= ls.len(),
        !is_blank(ls[f]),
    ensures
        last_filled_before(ls, j) >= f,
    decreases j,
{
    if j - 1 != f && is_blank(ls[j - 1]) {
        lemma_no_filled_before(ls, j - 1, f);
    }
}

proof fn lemma_no_filled_from(ls: Seq<Seq<TokenV>>, i: int, l: int)
    requires
        0 <= i <= l < ls.len(),
        !is_blank(ls[l]),
    ensures
        0 <= first_filled_from(ls, i) <= l,
    decreases ls.len() - i,
{
    if i != l && is_blank(ls[i]) {
        lemma_no_filled_from(ls, i + 1, l);
    }
}

} // verus!
