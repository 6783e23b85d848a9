mod token;

pub use token::{
    Bracket, Token, TokenType, TokenV, VecNum, bracket_close_char, bracket_open_char, byte_text,
    digit_char, digits_text, digits_value, lemma_digits_value_prefix, lemma_tokens_view_concat,
    lemma_tokens_view_push, surface, surface_of,
    tokens_view, type_of,
};
pub(crate) use token::{digit_to_char, push_char};

use vstd::prelude::*;

verus! {

/// ASCII punctuation: the characters that a backslash escapes.
pub open spec fn is_escapable(c: char) -> bool {
    ('!' <= c && c <= '/') || (':' <= c && c <= '@') || ('[' <= c && c <= '`') || ('{' <= c
        && c <= '~')
}

/// A character from `0` to `9`.
pub open spec fn is_ascii_digit(c: char) -> bool {
    '0' <= c && c <= '9'
}

/// The token a single character forms, given the token before it.
pub open spec fn char_token(c: char, prev: Option<TokenV>) -> TokenV {
    if c == '#' {
        TokenV::Hash
    } else if c == '!' {
        TokenV::Bang
    } else if c == '(' {
        TokenV::OpenBracket(Bracket::Parenthesis)
    } else if c == ')' {
        TokenV::CloseBracket(Bracket::Parenthesis)
    } else if c == '[' {
        TokenV::OpenBracket(Bracket::Square)
    } else if c == ']' {
        TokenV::CloseBracket(Bracket::Square)
    } else if c == '{' {
        TokenV::OpenBracket(Bracket::Brace)
    } else if c == '}' {
        TokenV::CloseBracket(Bracket::Brace)
    } else if c == '<' {
        TokenV::OpenBracket(Bracket::Angle)
    } else if c == '>' {
        TokenV::CloseBracket(Bracket::Angle)
    } else if c == '*' {
        TokenV::Star
    } else if c == '-' {
        TokenV::Dash
    } else if c == '+' {
        TokenV::Plus
    } else if c == '=' {
        TokenV::Equals
    } else if c == '.' {
        TokenV::Dot
    } else if c == '_' {
        TokenV::Underscore
    } else if c == '`' {
        TokenV::BackTick
    } else if c == '~' {
        TokenV::Tilde
    } else if c == '\\' {
        TokenV::Escape
    } else if c == '\n' {
        TokenV::NewLine
    } else if c == '\t' {
        TokenV::Tab
    } else if c == ' ' {
        TokenV::Space
    } else if is_ascii_digit(c) {
        match prev {
            Some(TokenV::Text(_)) => TokenV::Text(seq![c]),
            _ => TokenV::Number(seq![(c as u32 - 48) as u8]),
        }
    } else if c == '\0' {
        TokenV::Text(seq!['\u{FFFD}'])
    } else {
        TokenV::Text(seq![c])
    }
}

/// The tokens after one more character: an escape is consumed by the
/// punctuation it escapes, and adjacent text or digit runs merge.
pub open spec fn lex_step(toks: Seq<TokenV>, c: char) -> Seq<TokenV> {
    let escaped = toks.len() > 0 && toks.last() is Escape && is_escapable(c);
    let base = if escaped {
        toks.drop_last()
    } else {
        toks
    };
    let tok = if escaped {
        TokenV::Text(seq![c])
    } else {
        char_token(c, if base.len() > 0 { Some(base.last()) } else { None })
    };
    if base.len() > 0 {
        match (base.last(), tok) {
            (TokenV::Text(a), TokenV::Text(b)) => base.drop_last().push(TokenV::Text(a + b)),
            (TokenV::Number(a), TokenV::Number(b)) => base.drop_last().push(TokenV::Number(a + b)),
            _ => base.push(tok),
        }
    } else {
        base.push(tok)
    }
}

/// The tokens of a text, scanned left to right.
pub open spec fn lex_spec(s: Seq<char>) -> Seq<TokenV>
    decreases s.len(),
{
    if s.len() == 0 {
        Seq::empty()
    } else {
        lex_step(lex_spec(s.drop_last()), s.last())
    }
}

fn escapable(c: char) -> (r: bool)
    ensures
        r == is_escapable(c),
{
    ('!' <= c && c <= '/') || (':' <= c && c <= '@') || ('[' <= c && c <= '`') || ('{' <= c
        && c <= '~')
}

fn char_string(c: char) -> (r: String)
    ensures
        r@ == seq![c],
{
    let mut s = String::new();
    push_char(&mut s, c);
    assert(s@ =~= seq![c]);
    s
}

fn single_token(c: char, prev_is_text: bool) -> (t: Token)
    ensures
        forall|p: Option<TokenV>|
            (prev_is_text <==> p matches Some(TokenV::Text(_))) ==> t@ == #[trigger] char_token(c, p),
{
    match c {
        '#' => Token::Hash,
        '!' => Token::Bang,
        '(' => Token::OpenBracket(Bracket::Parenthesis),
        ')' => Token::CloseBracket(Bracket::Parenthesis),
        '[' => Token::OpenBracket(Bracket::Square),
        ']' => Token::CloseBracket(Bracket::Square),
        '{' => Token::OpenBracket(Bracket::Brace),
        '}' => Token::CloseBracket(Bracket::Brace),
        '<' => Token::OpenBracket(Bracket::Angle),
        '>' => Token::CloseBracket(Bracket::Angle),
        '*' => Token::Star,
        '-' => Token::Dash,
        '+' => Token::Plus,
        '=' => Token::Equals,
        '.' => Token::Dot,
        '_' => Token::Underscore,
        '`' => Token::BackTick,
        '~' => Token::Tilde,
        '\\' => Token::Escape,
        '\n' => Token::NewLine,
        '\t' => Token::Tab,
        ' ' => Token::Space,
        '0'..='9' => {
            if prev_is_text {
                Token::Text(char_string(c))
            } else {
                let d = ((c as u32) - 48) as u8;
                let v = vec![d];
                assert(v@ =~= seq![d]);
                Token::Number(VecNum(v))
            }
        },
        _ => {
            // U+0000 is replaced by U+FFFD, as unsafe input
            if c == '\0' {
                Token::Text(char_string('\u{FFFD}'))
            } else {
                Token::Text(char_string(c))
            }
        },
    }
}

/// A backslash before ASCII punctuation makes that character literal text.
pub proof fn lemma_escape_punctuation(c: char)
    requires
        is_escapable(c),
    ensures
        lex_spec(seq!['\\', c]) == seq![TokenV::Text(seq![c])],
{
    let s = seq!['\\', c];
    assert(s.drop_last() =~= seq!['\\']);
    lemma_lex_single('\\');
    assert(lex_spec(seq!['\\']) =~= seq![TokenV::Escape]);
    assert(lex_spec(s) =~= seq![TokenV::Text(seq![c])]);
}

/// A backslash before anything but ASCII punctuation stays an escape token,
/// and the character after it forms its usual token.
pub proof fn lemma_escape_other(c: char)
    requires
        !is_escapable(c),
    ensures
        lex_spec(seq!['\\', c]) == seq![TokenV::Escape, char_token(c, Some(TokenV::Escape))],
{
    let s = seq!['\\', c];
    assert(s.drop_last() =~= seq!['\\']);
    lemma_lex_single('\\');
    assert(lex_spec(seq!['\\']) =~= seq![TokenV::Escape]);
    assert(lex_spec(s) =~= seq![TokenV::Escape, char_token(c, Some(TokenV::Escape))]);
}

proof fn lemma_lex_single(c: char)
    ensures
        lex_spec(seq![c]) == lex_step(Seq::empty(), c),
{
    assert(seq![c].drop_last() =~= Seq::<char>::empty());
    assert(lex_spec(Seq::<char>::empty()) =~= Seq::<TokenV>::empty());
    assert(lex_spec(seq![c]) == lex_step(lex_spec(seq![c].drop_last()), seq![c].last()));
}

/// Text with neither backslashes nor NUL characters.
pub open spec fn plain_text(s: Seq<char>) -> bool {
    forall|i: int| 0 <= i < s.len() ==> #[trigger] s[i] != '\\' && s[i] != '\0'
}

/// Text in which no backslash escapes the character after it: no backslash
/// is followed by ASCII punctuation.
pub open spec fn no_escaping_backslash(s: Seq<char>) -> bool {
    forall|i: int| 0 <= i < s.len() - 1 ==> !(#[trigger] s[i] == '\\' && is_escapable(s[i + 1]))
}

/// A character as the tokenizer reads it: NUL stands for U+FFFD.
pub open spec fn nul_free(c: char) -> char {
    if c == '\0' {
        '\u{FFFD}'
    } else {
        c
    }
}

/// A text with each NUL replaced by U+FFFD.
pub open spec fn nul_free_text(s: Seq<char>) -> Seq<char> {
    Seq::new(s.len(), |i: int| nul_free(s[i]))
}

proof fn lemma_char_token_surface(c: char, prev: Option<TokenV>)
    ensures
        surface(char_token(c, prev)) == seq![nul_free(c)],
        (char_token(c, prev) is Escape) <==> c == '\\',
{
    if is_ascii_digit(c) {
        let d = (c as u32 - 48) as u8;
        assert(seq![d].drop_last() =~= Seq::<u8>::empty());
        assert(digits_text(Seq::<u8>::empty()) =~= Seq::<char>::empty());
        assert(digits_text(seq![d]) == digits_text(seq![d].drop_last()) + byte_text(seq![d].last()));
        assert(digits_text(seq![d]) =~= byte_text(d));
        assert(digit_char(d as nat) == c);
    }
}

proof fn lemma_digits_text_concat(a: Seq<u8>, b: Seq<u8>)
    ensures
        digits_text(a + b) == digits_text(a) + digits_text(b),
    decreases b.len(),
{
    if b.len() == 0 {
        assert(a + b =~= a);
        assert(digits_text(a) + digits_text(b) =~= digits_text(a));
    } else {
        lemma_digits_text_concat(a, b.drop_last());
        assert((a + b).drop_last() =~= a + b.drop_last());
        assert(digits_text(a + b) =~= digits_text(a) + digits_text(b));
    }
}

proof fn lemma_surface_of_push(s: Seq<TokenV>, t: TokenV)
    ensures
        surface_of(s.push(t)) == surface_of(s) + surface(t),
{
    assert(s.push(t).drop_last() =~= s);
}

/// A step that escapes nothing adds the character's text, and leaves an
/// escape last exactly where the character is a backslash.
proof fn lemma_lex_step_surface(toks: Seq<TokenV>, c: char)
    requires
        !(toks.len() > 0 && toks.last() is Escape && is_escapable(c)),
    ensures
        surface_of(lex_step(toks, c)) == surface_of(toks).push(nul_free(c)),
        lex_step(toks, c).len() > 0,
        (lex_step(toks, c).last() is Escape) <==> c == '\\',
{
    let prev = if toks.len() > 0 { Some(toks.last()) } else { None };
    let tok = char_token(c, prev);
    lemma_char_token_surface(c, prev);
    if toks.len() > 0 {
        let base = toks.drop_last();
        assert(toks =~= base.push(toks.last()));
        lemma_surface_of_push(base, toks.last());
        match (toks.last(), tok) {
            (TokenV::Text(a), TokenV::Text(b)) => {
                lemma_surface_of_push(base, TokenV::Text(a + b));
                assert(surface_of(lex_step(toks, c)) =~= surface_of(toks).push(nul_free(c)));
            },
            (TokenV::Number(a), TokenV::Number(b)) => {
                lemma_surface_of_push(base, TokenV::Number(a + b));
                lemma_digits_text_concat(a, b);
                assert(surface_of(lex_step(toks, c)) =~= surface_of(toks).push(nul_free(c)));
            },
            _ => {
                lemma_surface_of_push(toks, tok);
                assert(surface_of(lex_step(toks, c)) =~= surface_of(toks).push(nul_free(c)));
            },
        }
    } else {
        lemma_surface_of_push(toks, tok);
        assert(surface_of(lex_step(toks, c)) =~= surface_of(toks).push(nul_free(c)));
    }
}

/// Where no backslash escapes anything, the tokens' source forms spell the
/// text again, NUL read as U+FFFD; the tokens end in an escape exactly where
/// the text ends in a backslash.
pub proof fn lemma_lex_surface(s: Seq<char>)
    requires
        no_escaping_backslash(s),
    ensures
        surface_of(lex_spec(s)) == nul_free_text(s),
        s.len() > 0 ==> lex_spec(s).len() > 0 && ((lex_spec(s).last() is Escape) <==> s.last()
            == '\\'),
    decreases s.len(),
{
    if s.len() == 0 {
        assert(nul_free_text(s) =~= Seq::<char>::empty());
    } else {
        let p = s.drop_last();
        assert(no_escaping_backslash(p)) by {
            assert forall|i: int| 0 <= i < p.len() - 1 implies !(#[trigger] p[i] == '\\'
                && is_escapable(p[i + 1])) by {
                assert(p[i] == s[i] && p[i + 1] == s[i + 1]);
            }
        }
        lemma_lex_surface(p);
        if p.len() > 0 {
            assert(s[p.len() - 1] == p.last());
            assert(!(s[p.len() - 1] == '\\' && is_escapable(s[p.len() as int])));
        }
        lemma_lex_step_surface(lex_spec(p), s.last());
        assert(nul_free_text(s) =~= nul_free_text(p).push(nul_free(s.last())));
    }
}

/// Tokenizing text without backslashes or NUL characters and writing each
/// token's source form back gives the text again.
pub proof fn lemma_lex_round_trip(s: Seq<char>)
    requires
        plain_text(s),
    ensures
        surface_of(lex_spec(s)) == s,
{
    assert(no_escaping_backslash(s));
    lemma_lex_surface(s);
    assert(nul_free_text(s) =~= s);
}

/// NUL and U+FFFD tokenize alike.
pub proof fn lemma_lex_nul_free(s: Seq<char>)
    ensures
        lex_spec(nul_free_text(s)) == lex_spec(s),
    decreases s.len(),
{
    if s.len() > 0 {
        let p = s.drop_last();
        lemma_lex_nul_free(p);
        assert(nul_free_text(s).drop_last() =~= nul_free_text(p));
        assert(nul_free_text(s).last() == nul_free(s.last()));
        let t = lex_spec(p);
        let prev = if t.len() > 0 { Some(t.last()) } else { None };
        assert(char_token(nul_free(s.last()), prev) == char_token(s.last(), prev));
        assert(lex_step(t, nul_free(s.last())) == lex_step(t, s.last()));
    } else {
        assert(nul_free_text(s) =~= s);
    }
}

/// Round trip: where no backslash escapes anything, feeding the tokens'
/// source forms back through the tokenizer gives the same tokens.
pub proof fn lemma_lex_surface_relex(s: Seq<char>)
    requires
        no_escaping_backslash(s),
    ensures
        lex_spec(surface_of(lex_spec(s))) == lex_spec(s),
{
    lemma_lex_surface(s);
    lemma_lex_nul_free(s);
}

/// A run of decimal digits is one number token, and its source form
/// tokenizes back to it.
pub proof fn lemma_number_token_round_trip(d: Seq<u8>)
    requires
        d.len() > 0,
        forall|i: int| 0 <= i < d.len() ==> #[trigger] d[i] < 10,
    ensures
        lex_spec(surface(TokenV::Number(d))) == seq![TokenV::Number(d)],
    decreases d.len(),
{
    let p = d.drop_last();
    let x = d.last();
    assert(d[d.len() - 1] < 10);
    let c = digit_char(x as nat);
    assert(is_ascii_digit(c) && (c as u32 - 48) as u8 == x);
    assert(seq![x].drop_last() =~= Seq::<u8>::empty());
    assert(digits_text(Seq::<u8>::empty()) =~= Seq::<char>::empty());
    assert(digits_text(seq![x]) == digits_text(seq![x].drop_last()) + byte_text(seq![x].last()));
    let text = digits_text(d);
    assert(text == digits_text(p) + byte_text(x));
    assert(byte_text(x) == seq![c]);
    assert(text.drop_last() =~= digits_text(p));
    assert(text.last() == c);
    if p.len() == 0 {
        assert(digits_text(p) =~= Seq::<char>::empty());
        assert(text.drop_last() =~= Seq::<char>::empty());
        assert(lex_spec(Seq::<char>::empty()) =~= Seq::<TokenV>::empty());
        assert(d =~= seq![x]);
        assert(lex_spec(text) =~= seq![TokenV::Number(d)]);
    } else {
        assert forall|i: int| 0 <= i < p.len() implies #[trigger] p[i] < 10 by {
            assert(p[i] == d[i]);
        }
        lemma_number_token_round_trip(p);
        assert(p + seq![x] =~= d);
        assert(lex_spec(text) =~= seq![TokenV::Number(d)]);
    }
}

/// Each token of a fixed kind (punctuation, brackets, whitespace, escape)
/// tokenizes back from its source form to itself.
pub proof fn lemma_fixed_token_round_trip(t: TokenV)
    requires
        !(t is Text),
        !(t is Number),
    ensures
        lex_spec(surface(t)) == seq![t],
{
    let c = surface(t)[0];
    assert(surface(t) =~= seq![c]);
    lemma_lex_single(c);
    assert(lex_step(Seq::empty(), c) =~= seq![t]);
}

/// Scans one character onto a token stack.
pub fn parse_token(token_list: &mut Vec<Token>, latest_char: char)
    ensures
        tokens_view(final(token_list)@) == lex_step(tokens_view(old(token_list)@), latest_char),
{
    let ghost old_view = tokens_view(token_list@);
    let n = token_list.len();
    let escaped = n > 0 && matches!(token_list[n - 1], Token::Escape) && escapable(latest_char);
    if escaped {
        token_list.pop();
    }
    let ghost base = tokens_view(token_list@);
    assert(escaped ==> base =~= old_view.drop_last());
    assert(!escaped ==> base =~= old_view);
    let n = token_list.len();
    let prev_is_text = n > 0 && matches!(token_list[n - 1], Token::Text(..));
    let token = if escaped {
        Token::Text(char_string(latest_char))
    } else {
        single_token(latest_char, prev_is_text)
    };
    assert(!escaped ==> token@ == char_token(
        latest_char,
        if base.len() > 0 {
            Some(base.last())
        } else {
            None
        },
    ));
    let text_pair = n > 0 && matches!(token_list[n - 1], Token::Text(..)) && matches!(token, Token::Text(..));
    let num_pair = n > 0 && matches!(token_list[n - 1], Token::Number(..)) && matches!(token, Token::Number(..));
    if text_pair || num_pair {
        let last = token_list.pop().unwrap();
        assert(tokens_view(token_list@) =~= base.drop_last());
        let merged = match (last, token) {
            (Token::Text(mut a), Token::Text(b)) => {
                a.append(b.as_str());
                Token::Text(a)
            },
            (Token::Number(VecNum(mut a)), Token::Number(VecNum(mut b))) => {
                a.append(&mut b);
                Token::Number(VecNum(a))
            },
            (l, _) => l,
        };
        token_list.push(merged);
        assert(tokens_view(token_list@) =~= lex_step(old_view, latest_char));
    } else {
        token_list.push(token);
        assert(tokens_view(token_list@) =~= lex_step(old_view, latest_char));
    }
}

/// Splits a Markdown text into tokens.
pub fn lex(markdown: &str) -> (r: Vec<Token>)
    ensures
        tokens_view(r@) == lex_spec(markdown@),
{
    let mut tokens: Vec<Token> = Vec::new();
    for c in it: markdown.chars()
        invariant
            it.seq() == markdown@,
            tokens_view(tokens@) == lex_spec(markdown@.subrange(0, it.index() as int)),
    {
        assert(markdown@.subrange(0, it.index() + 1).drop_last() =~= markdown@.subrange(
            0,
            it.index() as int,
        ));
        parse_token(&mut tokens, c);
    }
    assert(markdown@.subrange(0, markdown@.len() as int) =~= markdown@);
    tokens
}

} // verus!
