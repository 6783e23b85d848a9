use vstd::prelude::*;

use super::blocks::BlockType;
use super::list::ListType;
use crate::lex::{digits_value, surface_of, tokens_view, type_of, Bracket, Token, TokenType, TokenV};

verus! {

/// A line of tokens, without its newline.
#[derive(Debug, PartialEq, Clone)]
pub struct Line(pub Vec<Token>);

/// A space or a tab.
pub open spec fn is_blank_tok(t: TokenV) -> bool {
    t is Space || t is Tab
}

/// A line holding nothing but spaces and tabs.
pub open spec fn is_blank(s: Seq<TokenV>) -> bool {
    forall|i: int| 0 <= i < s.len() ==> is_blank_tok(#[trigger] s[i])
}

/// The length of the run of tokens of type `ty` that starts the line.
pub open spec fn leading_count(s: Seq<TokenV>, ty: TokenType) -> nat
    decreases s.len(),
{
    if s.len() > 0 && type_of(s[0]) == ty {
        1 + leading_count(s.drop_first(), ty)
    } else {
        0
    }
}

/// The length of the run of spaces and tabs that starts the line.
pub open spec fn leading_blanks(s: Seq<TokenV>) -> nat
    decreases s.len(),
{
    if s.len() > 0 && is_blank_tok(s[0]) {
        1 + leading_blanks(s.drop_first())
    } else {
        0
    }
}

/// The width of the leading run of spaces and tabs, a tab counting four.
pub open spec fn indent_width(s: Seq<TokenV>) -> nat
    decreases s.len(),
{
    if s.len() > 0 && s[0] is Space {
        1 + indent_width(s.drop_first())
    } else if s.len() > 0 && s[0] is Tab {
        4 + indent_width(s.drop_first())
    } else {
        0
    }
}

/// The leading spaces that may stand before a block marker: up to three.
pub open spec fn unindented_spaces(s: Seq<TokenV>) -> nat {
    if leading_count(s, TokenType::Space) > 3 {
        0
    } else {
        leading_count(s, TokenType::Space)
    }
}

/// The number of tokens of type `ty` in the line.
pub open spec fn count_type(s: Seq<TokenV>, ty: TokenType) -> nat
    decreases s.len(),
{
    if s.len() == 0 {
        0
    } else {
        count_type(s.drop_last(), ty) + if type_of(s.last()) == ty {
            1nat
        } else {
            0nat
        }
    }
}

/// Every token is of type `ty` or blank, and at least `min` are of type `ty`.
pub open spec fn marks_with_blanks(s: Seq<TokenV>, ty: TokenType, min: nat) -> bool {
    &&& forall|i: int| 0 <= i < s.len() ==> type_of(#[trigger] s[i]) == ty || is_blank_tok(s[i])
    &&& count_type(s, ty) >= min
}

/// At least `min` tokens of type `ty`, then nothing but blanks.
pub open spec fn marks_then_blanks(s: Seq<TokenV>, ty: TokenType, min: nat) -> bool {
    &&& leading_count(s, ty) >= min
    &&& forall|i: int| leading_count(s, ty) <= i < s.len() ==> is_blank_tok(#[trigger] s[i])
}

/// Every token is of type `ty`, and at least `min` of them.
pub open spec fn all_marks(s: Seq<TokenV>, ty: TokenType, min: nat) -> bool {
    &&& forall|i: int| 0 <= i < s.len() ==> type_of(#[trigger] s[i]) == ty
    &&& s.len() >= min
}

/// Position `i` is past the end or holds a blank.
pub open spec fn is_space_at(s: Seq<TokenV>, i: int) -> bool {
    i < 0 || i >= s.len() || is_blank_tok(s[i])
}

/// The line without trailing blanks, its first token always kept.
pub open spec fn trim_trailing_blanks(s: Seq<TokenV>) -> Seq<TokenV>
    decreases s.len(),
{
    if s.len() > 1 && is_blank_tok(s.last()) {
        trim_trailing_blanks(s.drop_last())
    } else {
        s
    }
}

/// The line without its leading spaces and tabs; a blank line becomes empty.
pub open spec fn strip_indentation(s: Seq<TokenV>) -> Seq<TokenV> {
    if is_blank(s) {
        Seq::empty()
    } else {
        s.subrange(leading_blanks(s) as int, s.len() as int)
    }
}

/// The line without its first `n` tokens (all of them, where it is shorter).
pub open spec fn trim_start(s: Seq<TokenV>, n: nat) -> Seq<TokenV> {
    if n <= s.len() {
        s.subrange(n as int, s.len() as int)
    } else {
        Seq::empty()
    }
}

/// Where a closing run of `#` at the end of the first `e` tokens starts;
/// never before position 1.
pub open spec fn closing_hashes_start(s: Seq<TokenV>, e: nat) -> nat
    decreases e,
{
    if e > 1 && e <= s.len() && s[e - 1] is Hash {
        closing_hashes_start(s, (e - 1) as nat)
    } else {
        e
    }
}

/// A digit run that may number a list item: at most nine digits.
pub open spec fn marker_digits(d: Seq<u8>) -> bool {
    d.len() <= 9 && forall|i: int| 0 <= i < d.len() ==> #[trigger] d[i] < 10
}

/// What a line continues where no marker decides.
pub open spec fn fallback_type(prev: Option<BlockType>) -> BlockType {
    match prev {
        Some(BlockType::List(k)) => BlockType::List(k),
        Some(BlockType::BlockQuote) => BlockType::BlockQuote,
        _ => BlockType::Paragraph,
    }
}

/// The line starts with four spaces.
pub open spec fn four_spaces(s: Seq<TokenV>) -> bool {
    s.len() >= 4 && s[0] is Space && s[1] is Space && s[2] is Space && s[3] is Space
}

/// The type of block that a line opens, given the type of the open block.
pub open spec fn line_type_spec(s: Seq<TokenV>, prev: Option<BlockType>) -> BlockType {
    let fb = fallback_type(prev);
    if prev == Some(BlockType::IndentedCodeBlock) && is_blank(s) {
        BlockType::IndentedCodeBlock
    } else if s.len() == 0 {
        fb
    } else if s[0] is Dash && fb == BlockType::Paragraph && marks_then_blanks(
        s,
        TokenType::Dash,
        1,
    ) {
        BlockType::SetextHeader(2)
    } else if s[0] is Dash && marks_with_blanks(s, TokenType::Dash, 3) {
        BlockType::ThematicBreak
    } else if s[0] is Underscore && marks_with_blanks(s, TokenType::Underscore, 3) {
        BlockType::ThematicBreak
    } else if s[0] is Star && marks_with_blanks(s, TokenType::Star, 3) {
        BlockType::ThematicBreak
    } else if s[0] is Equals && fb == BlockType::Paragraph && marks_then_blanks(
        s,
        TokenType::Equals,
        1,
    ) {
        BlockType::SetextHeader(1)
    } else if s[0] == TokenV::CloseBracket(Bracket::Angle) {
        BlockType::BlockQuote
    } else if s[0] is Hash {
        let h = leading_count(s, TokenType::Hash);
        if h <= 6 && is_space_at(s, h as int) {
            BlockType::Header(h as u8)
        } else {
            fb
        }
    } else if s.len() >= 2 && s[0] is Dash && s[1] is Space {
        BlockType::List(ListType::Dash)
    } else if s.len() >= 2 && s[0] is Plus && s[1] is Space {
        BlockType::List(ListType::Plus)
    } else if s.len() >= 2 && s[0] is Star && s[1] is Space {
        BlockType::List(ListType::Star)
    } else if s.len() >= 3 && s[0] is Number && marker_digits(s[0]->Number_0) && s[2] is Space
        && s[1] == TokenV::CloseBracket(Bracket::Parenthesis) {
        BlockType::List(ListType::BracketedNumber(digits_value(s[0]->Number_0) as usize))
    } else if s.len() >= 3 && s[0] is Number && marker_digits(s[0]->Number_0) && s[2] is Space
        && s[1] is Dot {
        BlockType::List(ListType::Number(digits_value(s[0]->Number_0) as usize))
    } else if four_spaces(s) && !(prev matches Some(BlockType::List(_))) && prev != Some(
        BlockType::Paragraph,
    ) {
        BlockType::IndentedCodeBlock
    } else {
        fb
    }
}

/// A line of ATX heading without its markers: the opening run, trailing
/// blanks, a closing run of `#` that follows a blank, and indentation.
pub open spec fn strip_header(s: Seq<TokenV>, level: u8) -> Seq<TokenV> {
    let end = unindented_spaces(s) + level;
    let s1 = if end >= 1 && end - 1 < s.len() && s[end - 1] is Hash {
        s.subrange(end as int, s.len() as int)
    } else {
        s
    };
    let s2 = trim_trailing_blanks(s1);
    if s2.len() == 0 {
        s2
    } else {
        let e = closing_hashes_start(s2, s2.len());
        let s3 = if is_blank_tok(s2[e - 1]) {
            trim_trailing_blanks(s2.subrange(0, e as int))
        } else {
            s2
        };
        strip_indentation(s3)
    }
}

/// The line without the characters that mark it as a block of type `bt`.
pub open spec fn strip_type_chars(s: Seq<TokenV>, bt: BlockType) -> Seq<TokenV> {
    match bt {
        BlockType::Paragraph => strip_indentation(s),
        BlockType::BlockQuote => {
            let lead = unindented_spaces(s);
            if lead < s.len() && s[lead as int] == TokenV::CloseBracket(Bracket::Angle) {
                s.subrange(lead + 1 as int, s.len() as int)
            } else if line_type_spec(s, None) is SetextHeader {
                seq![TokenV::Text(surface_of(s))]
            } else {
                s
            }
        },
        BlockType::Header(level) => strip_header(s, level),
        BlockType::SetextHeader(_) => {
            if marks_then_blanks(s, TokenType::Equals, 1) || marks_then_blanks(
                s,
                TokenType::Dash,
                1,
            ) {
                Seq::empty()
            } else {
                s
            }
        },
        BlockType::IndentedCodeBlock => {
            if line_type_spec(s, None) == BlockType::IndentedCodeBlock {
                s.subrange(4, s.len() as int)
            } else {
                s
            }
        },
        _ => s,
    }
}

/// ATX headings: a line opens a heading exactly where it starts with one to
/// six `#` followed by a space, a tab or the end of the line, and the
/// heading's level is the number of `#`; seven or more never open one.
pub proof fn lemma_atx_heading_bounds(s: Seq<TokenV>, prev: Option<BlockType>)
    ensures
        (line_type_spec(s, prev) is Header) <==> (1 <= leading_count(s, TokenType::Hash) <= 6
            && is_space_at(s, leading_count(s, TokenType::Hash) as int)),
        line_type_spec(s, prev) is Header ==> line_type_spec(s, prev) == BlockType::Header(
            leading_count(s, TokenType::Hash) as u8,
        ),
        leading_count(s, TokenType::Hash) >= 7 ==> !(line_type_spec(s, prev) is Header),
{
    lemma_leading_count_props(s, TokenType::Hash);
    let h = leading_count(s, TokenType::Hash);
    if s.len() > 0 && s[0] is Hash {
        assert(h >= 1);
        assert(!is_blank(s)) by {
            assert(!is_blank_tok(s[0]));
        }
    } else {
        assert(h == 0);
    }
}

/// Indented code cannot interrupt a paragraph: under an open paragraph no
/// line opens an indented code block.
pub proof fn lemma_code_cannot_interrupt_paragraph(s: Seq<TokenV>)
    ensures
        line_type_spec(s, Some(BlockType::Paragraph)) != BlockType::IndentedCodeBlock,
{
}

/// A line that is not blank and does not start with four spaces ends an
/// open indented code block.
pub proof fn lemma_unindented_line_ends_code(s: Seq<TokenV>)
    requires
        !is_blank(s),
        !four_spaces(s),
    ensures
        line_type_spec(s, Some(BlockType::IndentedCodeBlock)) != BlockType::IndentedCodeBlock,
{
}

/// Laziness: a line that continues a block quote without its `>` marker,
/// and that would underline a paragraph, is kept as one run of text, which
/// underlines nothing inside the quote.
pub proof fn lemma_lazy_quote_line_stays_text(s: Seq<TokenV>)
    requires
        !(unindented_spaces(s) < s.len() && s[unindented_spaces(s) as int] == TokenV::CloseBracket(
            Bracket::Angle,
        )),
        line_type_spec(s, None) is SetextHeader,
    ensures
        strip_type_chars(s, BlockType::BlockQuote) == seq![TokenV::Text(surface_of(s))],
        line_type_spec(strip_type_chars(s, BlockType::BlockQuote), Some(BlockType::Paragraph))
            == BlockType::Paragraph,
{
    let t = seq![TokenV::Text(surface_of(s))];
    assert(!is_blank(t)) by {
        assert(!is_blank_tok(t[0]));
    }
}

/// A run of `i` tokens of type `ty`, ended by another token or the end, is the leading run.
pub proof fn lemma_leading_count(s: Seq<TokenV>, ty: TokenType, i: int)
    requires
        0 <= i <= s.len(),
        forall|j: int| 0 <= j < i ==> type_of(#[trigger] s[j]) == ty,
        i == s.len() || type_of(s[i]) != ty,
    ensures
        leading_count(s, ty) == i,
    decreases i,
{
    if i > 0 {
        assert(type_of(s[0]) == ty);
        lemma_leading_count(s.drop_first(), ty, i - 1);
    }
}

/// The leading run is within the line, made of `ty`, and ends before a token of another type.
pub proof fn lemma_leading_count_props(s: Seq<TokenV>, ty: TokenType)
    ensures
        leading_count(s, ty) <= s.len(),
        forall|j: int| 0 <= j < leading_count(s, ty) ==> type_of(#[trigger] s[j]) == ty,
        leading_count(s, ty) < s.len() ==> type_of(s[leading_count(s, ty) as int]) != ty,
    decreases s.len(),
{
    if s.len() > 0 && type_of(s[0]) == ty {
        lemma_leading_count_props(s.drop_first(), ty);
        assert forall|j: int| 0 <= j < leading_count(s, ty) implies type_of(#[trigger] s[j]) == ty by {
            if j > 0 {
                assert(s[j] == s.drop_first()[j - 1]);
            }
        }
    }
}

/// A run of `i` blanks, ended by another token or the end, is the leading run of blanks.
pub proof fn lemma_leading_blanks(s: Seq<TokenV>, i: int)
    requires
        0 <= i <= s.len(),
        forall|j: int| 0 <= j < i ==> is_blank_tok(#[trigger] s[j]),
        i == s.len() || !is_blank_tok(s[i]),
    ensures
        leading_blanks(s) == i,
    decreases i,
{
    if i > 0 {
        assert(is_blank_tok(s[0]));
        lemma_leading_blanks(s.drop_first(), i - 1);
    }
}

/// Counting one more token of a prefix.
pub proof fn lemma_count_type_prefix(s: Seq<TokenV>, ty: TokenType, i: int)
    requires
        0 <= i < s.len(),
    ensures
        count_type(s.subrange(0, i + 1), ty) == count_type(s.subrange(0, i), ty) + if type_of(
            s[i],
        ) == ty {
            1nat
        } else {
            0nat
        },
{
    assert(s.subrange(0, i + 1).drop_last() =~= s.subrange(0, i));
}

/// A run of at most nine decimal digits is worth less than a billion.
pub proof fn lemma_marker_value_bound(d: Seq<u8>)
    requires
        marker_digits(d),
    ensures
        digits_value(d) <= 999_999_999,
{
    lemma_digits_value_pow(d);
    let p = pow10(d.len());
    assert(p <= 1_000_000_000) by {
        lemma_pow10_mono(d.len(), 9);
    }
}

/// Ten to the power `n`.
pub open spec fn pow10(n: nat) -> nat
    decreases n,
{
    if n == 0 {
        1
    } else {
        10 * pow10((n - 1) as nat)
    }
}

proof fn lemma_pow10_mono(a: nat, b: nat)
    requires
        a <= b,
    ensures
        pow10(a) <= pow10(b),
        pow10(9) == 1_000_000_000,
    decreases b,
{
    reveal_with_fuel(pow10, 10);
    if a < b {
        lemma_pow10_mono(a, (b - 1) as nat);
    }
}

proof fn lemma_digits_value_pow(d: Seq<u8>)
    requires
        forall|i: int| 0 <= i < d.len() ==> #[trigger] d[i] < 10,
    ensures
        digits_value(d) < pow10(d.len()),
    decreases d.len(),
{
    if d.len() > 0 {
        let p = d.drop_last();
        assert forall|i: int| 0 <= i < p.len() implies #[trigger] p[i] < 10 by {
            assert(p[i] == d[i]);
        }
        lemma_digits_value_pow(p);
        let v = digits_value(p);
        let q = pow10(p.len());
        let l = d.last() as nat;
        assert(d[d.len() - 1] < 10);
        assert(v * 10 + l < 10 * q) by (nonlinear_arith)
            requires
                v < q,
                l < 10,
        ;
    }
}

impl View for Line {
    type V = Seq<TokenV>;

    open spec fn view(&self) -> Seq<TokenV> {
        tokens_view(self.0@)
    }
}

impl Line {
    /// Whether the line holds nothing but spaces and tabs.
    pub fn is_empty(&self) -> (r: bool)
        ensures
            r == is_blank(self@),
    {
        let mut i: usize = 0;
        while i < self.0.len()
            invariant
                i <= self.0@.len(),
                forall|j: int| 0 <= j < i ==> is_blank_tok(#[trigger] self@[j]),
            decreases self.0@.len() - i,
        {
            match &self.0[i] {
                Token::Space => {},
                Token::Tab => {},
                _ => {
                    assert(!is_blank_tok(self@[i as int]));
                    return false;
                },
            }
            i = i + 1;
        }
        true
    }

    fn leading_run(&self, ty: TokenType) -> (r: usize)
        ensures
            r == leading_count(self@, ty),
    {
        let mut i: usize = 0;
        while i < self.0.len() && self.0[i].token_type() == ty
            invariant
                i <= self.0@.len(),
                forall|j: int| 0 <= j < i ==> type_of(#[trigger] self@[j]) == ty,
            decreases self.0@.len() - i,
        {
            i = i + 1;
        }
        proof {
            lemma_leading_count(self@, ty, i as int);
        }
        i
    }

    /// Removes the leading spaces and tabs, and returns their width in tab
    /// stops (a tab or four spaces each). A blank line becomes empty.
    pub fn remove_all_indentation(&mut self) -> (r: usize)
        ensures
            final(self)@ == strip_indentation(old(self)@),
            r == if is_blank(old(self)@) {
                0
            } else {
                indent_width(old(self)@) / 4
            },
    {
        if self.is_empty() {
            self.0 = Vec::new();
            assert(self@ =~= Seq::<TokenV>::empty());
            return 0;
        }
        let ghost s = self@;
        let mut spaces: usize = 0;
        let mut tabs: usize = 0;
        let mut i: usize = 0;
        assert(s.subrange(0, s.len() as int) =~= s);
        while i < self.0.len() && (matches!(self.0[i], Token::Space) || matches!(self.0[i], Token::Tab))
            invariant
                s == self@,
                i <= s.len(),
                spaces + tabs <= i,
                forall|j: int| 0 <= j < i ==> is_blank_tok(#[trigger] s[j]),
                indent_width(s) == spaces + 4 * tabs + indent_width(s.subrange(i as int, s.len() as int)),
            decreases s.len() - i,
        {
            assert(s.subrange(i as int, s.len() as int).drop_first() =~= s.subrange(i + 1, s.len() as int));
            if matches!(self.0[i], Token::Space) {
                spaces = spaces + 1;
            } else {
                tabs = tabs + 1;
            }
            i = i + 1;
        }
        proof {
            lemma_leading_blanks(s, i as int);
            assert(indent_width(s.subrange(i as int, s.len() as int)) == 0);
        }
        let rest = self.0.split_off(i);
        self.0 = rest;
        assert(self@ =~= s.subrange(i as int, s.len() as int));
        tabs + spaces / 4
    }

    /// The leading spaces that may stand before a block marker: up to three.
    pub fn unindented_leading_spaces(&self) -> (r: usize)
        ensures
            r == unindented_spaces(self@),
    {
        let space = self.leading_spaces();
        if space > 3 {
            0
        } else {
            space
        }
    }

    /// The number of spaces that start the line.
    pub fn leading_spaces(&self) -> (r: usize)
        ensures
            r == leading_count(self@, TokenType::Space),
    {
        self.leading_run(TokenType::Space)
    }

    fn is_space(&self, i: usize) -> (r: bool)
        ensures
            r == is_space_at(self@, i as int),
    {
        if i < self.0.len() {
            matches!(self.0[i], Token::Space) || matches!(self.0[i], Token::Tab)
        } else {
            true
        }
    }

    fn count_of(&self, needle: TokenType) -> (r: usize)
        ensures
            r == count_type(self@, needle),
    {
        let mut count: usize = 0;
        let mut i: usize = 0;
        while i < self.0.len()
            invariant
                i <= self.0@.len(),
                count <= i,
                count == count_type(self@.subrange(0, i as int), needle),
            decreases self.0@.len() - i,
        {
            proof {
                lemma_count_type_prefix(self@, needle, i as int);
            }
            if self.0[i].token_type() == needle {
                count = count + 1;
            }
            i = i + 1;
        }
        assert(self@.subrange(0, i as int) =~= self@);
        count
    }

    /// A copy of the line's tokens.
    pub fn copy_tokens(&self) -> (r: Vec<Token>)
        ensures
            tokens_view(r@) == self@,
    {
        let mut out: Vec<Token> = Vec::new();
        let mut i: usize = 0;
        while i < self.0.len()
            invariant
                i <= self@.len(),
                tokens_view(out@) == self@.subrange(0, i as int),
            decreases self@.len() - i,
        {
            assert(self@[i as int] == self.0@[i as int]@);
            let tok = self.0[i].duplicate();
            proof {
                crate::lex::lemma_tokens_view_push(out@, tok);
            }
            out.push(tok);
            assert(tokens_view(out@) =~= self@.subrange(0, i + 1));
            i = i + 1;
        }
        assert(self@.subrange(0, i as int) =~= self@);
        out
    }

    /// The kinds of the line's tokens, in order.
    pub fn to_token_types(&self) -> (r: Vec<TokenType>)
        ensures
            r@ == Seq::new(self@.len(), |i: int| type_of(self@[i])),
    {
        let mut out: Vec<TokenType> = Vec::new();
        let mut i: usize = 0;
        while i < self.0.len()
            invariant
                i <= self.0@.len(),
                out@ == Seq::new(i as nat, |k: int| type_of(self@[k])),
            decreases self.0@.len() - i,
        {
            out.push(self.0[i].token_type());
            assert(out@ =~= Seq::new((i + 1) as nat, |k: int| type_of(self@[k])));
            i = i + 1;
        }
        out
    }

    /// Whether the line is made up of `needle` tokens alone, at least
    /// `min_number` of them. With `allow_inline_blanks`, spaces and tabs may
    /// stand anywhere; else with `allow_trailing_blanks`, only at the end.
    fn is_all(
        &self,
        needle: TokenType,
        min_number: usize,
        allow_inline_blanks: bool,
        allow_trailing_blanks: bool,
    ) -> (r: bool)
        requires
            needle != TokenType::Space,
            needle != TokenType::Tab,
        ensures
            allow_inline_blanks ==> r == marks_with_blanks(self@, needle, min_number as nat),
            !allow_inline_blanks && allow_trailing_blanks ==> r == marks_then_blanks(self@, needle, min_number as nat),
            !allow_inline_blanks && !allow_trailing_blanks ==> r == all_marks(self@, needle, min_number as nat),
    {
        if allow_inline_blanks {
            let mut i: usize = 0;
            while i < self.0.len()
                invariant
                    allow_inline_blanks,
                    i <= self.0@.len(),
                    forall|j: int| 0 <= j < i ==> type_of(#[trigger] self@[j]) == needle || is_blank_tok(self@[j]),
                decreases self.0@.len() - i,
            {
                let t = self.0[i].token_type();
                if t != needle && t != TokenType::Space && t != TokenType::Tab {
                    assert(!(type_of(self@[i as int]) == needle || is_blank_tok(self@[i as int])));
                    return false;
                }
                i = i + 1;
            }
            self.count_of(needle) >= min_number
        } else if allow_trailing_blanks {
            let k = self.leading_run(needle);
            proof {
                lemma_leading_count_props(self@, needle);
            }
            let mut i: usize = k;
            while i < self.0.len()
                invariant
                    !allow_inline_blanks && allow_trailing_blanks,
                    k <= i <= self.0@.len(),
                    k == leading_count(self@, needle),
                    forall|j: int| k <= j < i ==> is_blank_tok(#[trigger] self@[j]),
                decreases self.0@.len() - i,
            {
                if !self.is_space(i) {
                    assert(!is_blank_tok(self@[i as int]));
                    return false;
                }
                i = i + 1;
            }
            k >= min_number
        } else {
            let k = self.leading_run(needle);
            proof {
                lemma_leading_count_props(self@, needle);
            }
            k == self.0.len() && k >= min_number
        }
    }

    /// Removes trailing spaces and tabs, keeping the first token.
    pub fn remove_ending_blanks(&mut self)
        ensures
            final(self)@ == trim_trailing_blanks(old(self)@),
    {
        let ghost s = self@;
        let mut end = self.0.len();
        if end == 0 {
            return;
        }
        assert(s.subrange(0, end as int) =~= s);
        while end > 1 && self.is_space(end - 1)
            invariant
                s == self@,
                1 <= end <= s.len(),
                trim_trailing_blanks(s) == trim_trailing_blanks(s.subrange(0, end as int)),
            decreases end,
        {
            assert(s.subrange(0, end as int).drop_last() =~= s.subrange(0, end - 1));
            end = end - 1;
        }
        assert(trim_trailing_blanks(s.subrange(0, end as int)) == s.subrange(0, end as int));
        self.0.truncate(end);
        assert(self@ =~= s.subrange(0, end as int));
    }

    /// Removes one level of indentation: a tab, or four spaces.
    pub fn unindent(&mut self)
        ensures
            final(self)@ == if old(self)@.len() > 0 && old(self)@[0] is Tab {
                old(self)@.drop_first()
            } else if leading_count(old(self)@, TokenType::Space) >= 4 {
                old(self)@.subrange(4, old(self)@.len() as int)
            } else {
                old(self)@
            },
    {
        if self.0.len() > 0 && matches!(self.0[0], Token::Tab) {
            self.trim_line_start(1);
            return;
        }
        let space_count = self.leading_spaces();
        if space_count >= 4 {
            proof {
                lemma_leading_count_props(self@, TokenType::Space);
            }
            self.trim_line_start(4);
        }
    }

    /// Removes `chars` tokens from the start of the line (all of them, where
    /// the line is shorter).
    pub fn trim_line_start(&mut self, chars: usize)
        ensures
            final(self)@ == trim_start(old(self)@, chars as nat),
    {
        let ghost s = self@;
        let at = if chars <= self.0.len() {
            chars
        } else {
            self.0.len()
        };
        let rest = self.0.split_off(at);
        self.0 = rest;
        assert(self@ =~= trim_start(s, chars as nat));
    }

    /// The position of the first token of type `needle`.
    pub fn find_first(&self, needle: TokenType) -> (r: Option<usize>)
        ensures
            r matches Some(i) ==> i < self@.len() && type_of(self@[i as int]) == needle && forall|j: int|
                0 <= j < i ==> type_of(#[trigger] self@[j]) != needle,
            r is None ==> forall|j: int| 0 <= j < self@.len() ==> type_of(#[trigger] self@[j]) != needle,
    {
        let mut i: usize = 0;
        while i < self.0.len()
            invariant
                i <= self.0@.len(),
                forall|j: int| 0 <= j < i ==> type_of(#[trigger] self@[j]) != needle,
            decreases self.0@.len() - i,
        {
            if self.0[i].token_type() == needle {
                return Some(i);
            }
            i = i + 1;
        }
        None
    }

    /// Replaces the line by one text token holding its source text.
    pub fn stringify_line(&mut self)
        ensures
            final(self)@ == seq![TokenV::Text(surface_of(old(self)@))],
    {
        let ghost s = self@;
        let mut text = String::new();
        let mut i: usize = 0;
        while i < self.0.len()
            invariant
                s == self@,
                i <= s.len(),
                text@ == surface_of(s.subrange(0, i as int)),
            decreases s.len() - i,
        {
            assert(s.subrange(0, i + 1).drop_last() =~= s.subrange(0, i as int));
            self.0[i].write_surface(&mut text);
            i = i + 1;
        }
        assert(s.subrange(0, i as int) =~= s);
        self.0 = vec![Token::Text(text)];
        assert(self@ =~= seq![TokenV::Text(surface_of(s))]);
    }

    fn marker_number(&self) -> (r: Option<usize>)
        ensures
            r matches Some(v) ==> self@.len() > 0 && self@[0] is Number && marker_digits(self@[0]->Number_0)
                && v == digits_value(self@[0]->Number_0),
            r is None ==> !(self@.len() > 0 && self@[0] is Number && marker_digits(self@[0]->Number_0)),
    {
        if self.0.len() == 0 {
            return None;
        }
        match &self.0[0] {
            Token::Number(d) => {
                if d.0.len() > 9 {
                    return None;
                }
                let mut i: usize = 0;
                assert(self@[0] == TokenV::Number(d.0@));
                while i < d.0.len()
                    invariant
                        self@.len() > 0,
                        self@[0] == TokenV::Number(d.0@),
                        i <= d.0@.len(),
                        forall|j: int| 0 <= j < i ==> #[trigger] d.0@[j] < 10,
                    decreases d.0@.len() - i,
                {
                    if d.0[i] >= 10 {
                        return None;
                    }
                    i = i + 1;
                }
                proof {
                    lemma_marker_value_bound(d.0@);
                }
                Some(d.to_usize())
            },
            _ => None,
        }
    }

    /// The type of block that this line opens, given the type of the block
    /// that is open (`None` where the line starts afresh).
    pub fn line_type(&self, previous_block: Option<BlockType>) -> (r: BlockType)
        ensures
            r == line_type_spec(self@, previous_block),
    {
        let fb = match previous_block {
            Some(BlockType::List(k)) => BlockType::List(k),
            Some(BlockType::BlockQuote) => BlockType::BlockQuote,
            _ => BlockType::Paragraph,
        };
        if matches!(previous_block, Some(BlockType::IndentedCodeBlock)) && self.is_empty() {
            return BlockType::IndentedCodeBlock;
        }
        let n = self.0.len();
        if n == 0 {
            return fb;
        }
        let second_is_space = n >= 2 && matches!(self.0[1], Token::Space);
        match &self.0[0] {
            Token::Dash => {
                if fb == BlockType::Paragraph && self.is_all(TokenType::Dash, 1, false, true) {
                    BlockType::SetextHeader(2)
                } else if self.is_all(TokenType::Dash, 3, true, true) {
                    BlockType::ThematicBreak
                } else if second_is_space {
                    BlockType::List(ListType::Dash)
                } else {
                    fb
                }
            },
            Token::Underscore => {
                if self.is_all(TokenType::Underscore, 3, true, true) {
                    BlockType::ThematicBreak
                } else {
                    fb
                }
            },
            Token::Star => {
                if self.is_all(TokenType::Star, 3, true, true) {
                    BlockType::ThematicBreak
                } else if second_is_space {
                    BlockType::List(ListType::Star)
                } else {
                    fb
                }
            },
            Token::Equals => {
                if fb == BlockType::Paragraph && self.is_all(TokenType::Equals, 1, false, true) {
                    BlockType::SetextHeader(1)
                } else {
                    fb
                }
            },
            Token::CloseBracket(Bracket::Angle) => BlockType::BlockQuote,
            Token::Hash => {
                let h = self.leading_run(TokenType::Hash);
                if h <= 6 && self.is_space(h) {
                    BlockType::Header(h as u8)
                } else {
                    fb
                }
            },
            Token::Plus => {
                if second_is_space {
                    BlockType::List(ListType::Plus)
                } else {
                    fb
                }
            },
            Token::Number(_) => {
                if n >= 3 && matches!(self.0[2], Token::Space) {
                    match self.marker_number() {
                        Some(v) => {
                            if matches!(self.0[1], Token::CloseBracket(Bracket::Parenthesis)) {
                                BlockType::List(ListType::BracketedNumber(v))
                            } else if matches!(self.0[1], Token::Dot) {
                                BlockType::List(ListType::Number(v))
                            } else {
                                fb
                            }
                        },
                        None => fb,
                    }
                } else {
                    fb
                }
            },
            Token::Space => {
                let four = n >= 4 && matches!(self.0[1], Token::Space) && matches!(self.0[2], Token::Space)
                    && matches!(self.0[3], Token::Space);
                if four && !matches!(previous_block, Some(BlockType::List(_))) && !matches!(
                    previous_block,
                    Some(BlockType::Paragraph)
                ) {
                    BlockType::IndentedCodeBlock
                } else {
                    fb
                }
            },
            _ => fb,
        }
    }

    /// Removes the characters that mark this line as a block of type
    /// `line_type`.
    pub fn remove_type_chars(&mut self, line_type: &BlockType)
        ensures
            final(self)@ == strip_type_chars(old(self)@, *line_type),
    {
        let ghost s = self@;
        let leading = self.unindented_leading_spaces();
        match line_type {
            BlockType::Paragraph => {
                self.remove_all_indentation();
            },
            BlockType::BlockQuote => {
                if leading < self.0.len() && matches!(self.0[leading], Token::CloseBracket(Bracket::Angle)) {
                    self.trim_line_start(leading + 1);
                } else if matches!(self.line_type(None), BlockType::SetextHeader(_)) {
                    self.stringify_line();
                }
            },
            BlockType::Header(level) => {
                let end: usize = leading + *level as usize;
                if end >= 1 && end - 1 < self.0.len() && matches!(self.0[end - 1], Token::Hash) {
                    self.trim_line_start(end);
                }
                self.remove_ending_blanks();
                if self.0.len() == 0 {
                    return;
                }
                let ghost s2 = self@;
                let mut e = self.0.len();
                while e > 1 && matches!(self.0[e - 1], Token::Hash)
                    invariant
                        s2 == self@,
                        1 <= e <= s2.len(),
                        closing_hashes_start(s2, s2.len()) == closing_hashes_start(s2, e as nat),
                    decreases e,
                {
                    e = e - 1;
                }
                if self.is_space(e - 1) {
                    self.0.truncate(e);
                    assert(self@ =~= s2.subrange(0, e as int));
                    self.remove_ending_blanks();
                }
                self.remove_all_indentation();
            },
            BlockType::SetextHeader(_) => {
                if self.is_all(TokenType::Equals, 1, false, true) || self.is_all(TokenType::Dash, 1, false, true) {
                    self.0 = Vec::new();
                    assert(self@ =~= Seq::<TokenV>::empty());
                }
            },
            BlockType::IndentedCodeBlock => {
                if self.line_type(None) == BlockType::IndentedCodeBlock {
                    self.trim_line_start(4);
                }
            },
            _ => {},
        }
    }
}

} // verus!
