use vstd::prelude::*;

verus! {

/// The recognised kinds of bracket.
#[derive(Debug, Eq, PartialEq, Copy, Clone, Structural)]
pub enum Bracket {
    Parenthesis,
    Square,
    Brace,
    Angle,
}

/// A lexical token of a Markdown document.
#[derive(Debug, Eq, PartialEq, Clone)]
pub enum Token {
    Hash,
    Bang,
    OpenBracket(Bracket),
    CloseBracket(Bracket),
    Star,
    Dash,
    Plus,
    Equals,
    Dot,
    Underscore,
    BackTick,
    Tilde,
    Tab,
    NewLine,
    Space,
    /// A maximal run of literal text.
    Text(String),
    /// A maximal run of decimal digits, leading zeros kept.
    Number(VecNum),
    /// A backslash that has not (yet) escaped anything.
    Escape,
}

/// The kind of a token, without its payload.
#[derive(Debug, Eq, PartialEq, Copy, Clone, Structural)]
pub enum TokenType {
    Hash,
    Bang,
    OpenBracket(Bracket),
    CloseBracket(Bracket),
    Star,
    Dash,
    Plus,
    Equals,
    Dot,
    Underscore,
    BackTick,
    Tilde,
    Tab,
    NewLine,
    Space,
    Text,
    Number,
    Escape,
}

/// A run of decimal digits, most significant first.
#[derive(Debug, Eq, PartialEq, Clone)]
pub struct VecNum(pub Vec<u8>);

/// The mathematical value of a token: text as a sequence of chars, digits as
/// a sequence of bytes.
pub enum TokenV {
    Hash,
    Bang,
    OpenBracket(Bracket),
    CloseBracket(Bracket),
    Star,
    Dash,
    Plus,
    Equals,
    Dot,
    Underscore,
    BackTick,
    Tilde,
    Tab,
    NewLine,
    Space,
    Text(Seq<char>),
    Number(Seq<u8>),
    Escape,
}

impl View for Token {
    type V = TokenV;

    open spec fn view(&self) -> TokenV {
        match self {
            Token::Hash => TokenV::Hash,
            Token::Bang => TokenV::Bang,
            Token::OpenBracket(b) => TokenV::OpenBracket(*b),
            Token::CloseBracket(b) => TokenV::CloseBracket(*b),
            Token::Star => TokenV::Star,
            Token::Dash => TokenV::Dash,
            Token::Plus => TokenV::Plus,
            Token::Equals => TokenV::Equals,
            Token::Dot => TokenV::Dot,
            Token::Underscore => TokenV::Underscore,
            Token::BackTick => TokenV::BackTick,
            Token::Tilde => TokenV::Tilde,
            Token::Tab => TokenV::Tab,
            Token::NewLine => TokenV::NewLine,
            Token::Space => TokenV::Space,
            Token::Text(s) => TokenV::Text(s@),
            Token::Number(n) => TokenV::Number(n.0@),
            Token::Escape => TokenV::Escape,
        }
    }
}

/// The values of a sequence of tokens.
pub open spec fn tokens_view(v: Seq<Token>) -> Seq<TokenV> {
    Seq::new(v.len(), |i: int| v[i]@)
}

/// The kind of a token value.
pub open spec fn type_of(t: TokenV) -> TokenType {
    match t {
        TokenV::Hash => TokenType::Hash,
        TokenV::Bang => TokenType::Bang,
        TokenV::OpenBracket(b) => TokenType::OpenBracket(b),
        TokenV::CloseBracket(b) => TokenType::CloseBracket(b),
        TokenV::Star => TokenType::Star,
        TokenV::Dash => TokenType::Dash,
        TokenV::Plus => TokenType::Plus,
        TokenV::Equals => TokenType::Equals,
        TokenV::Dot => TokenType::Dot,
        TokenV::Underscore => TokenType::Underscore,
        TokenV::BackTick => TokenType::BackTick,
        TokenV::Tilde => TokenType::Tilde,
        TokenV::Tab => TokenType::Tab,
        TokenV::NewLine => TokenType::NewLine,
        TokenV::Space => TokenType::Space,
        TokenV::Text(_) => TokenType::Text,
        TokenV::Number(_) => TokenType::Number,
        TokenV::Escape => TokenType::Escape,
    }
}

/// The values of a token run with one more token.
pub proof fn lemma_tokens_view_push(v: Seq<Token>, t: Token)
    ensures
        tokens_view(v.push(t)) == tokens_view(v).push(t@),
{
    assert(tokens_view(v.push(t)) =~= tokens_view(v).push(t@));
}

/// The values of two token runs, joined.
pub proof fn lemma_tokens_view_concat(a: Seq<Token>, b: Seq<Token>)
    ensures
        tokens_view(a + b) == tokens_view(a) + tokens_view(b),
{
    assert(tokens_view(a + b) =~= tokens_view(a) + tokens_view(b));
}

/// The value of a run of decimal digits, most significant first.
pub open spec fn digits_value(d: Seq<u8>) -> nat
    decreases d.len(),
{
    if d.len() == 0 {
        0
    } else {
        digits_value(d.drop_last()) * 10 + d.last() as nat
    }
}

/// The decimal text of one byte, as `format!("{}")` writes it.
pub open spec fn byte_text(b: u8) -> Seq<char> {
    if b < 10 {
        seq![digit_char(b as nat)]
    } else if b < 100 {
        seq![digit_char(b as nat / 10), digit_char(b as nat % 10)]
    } else {
        seq![digit_char(b as nat / 100), digit_char((b as nat / 10) % 10), digit_char(b as nat % 10)]
    }
}

/// The ASCII digit for a value below ten.
pub open spec fn digit_char(d: nat) -> char {
    (d + 48) as char
}

/// The text of a digit run: each byte's decimal text, in order.
pub open spec fn digits_text(d: Seq<u8>) -> Seq<char>
    decreases d.len(),
{
    if d.len() == 0 {
        Seq::empty()
    } else {
        digits_text(d.drop_last()) + byte_text(d.last())
    }
}

/// The opening character of a bracket kind.
pub open spec fn bracket_open_char(b: Bracket) -> char {
    match b {
        Bracket::Parenthesis => '(',
        Bracket::Square => '[',
        Bracket::Brace => '{',
        Bracket::Angle => '<',
    }
}

/// The closing character of a bracket kind.
pub open spec fn bracket_close_char(b: Bracket) -> char {
    match b {
        Bracket::Parenthesis => ')',
        Bracket::Square => ']',
        Bracket::Brace => '}',
        Bracket::Angle => '>',
    }
}

/// The text that a token stands for in the source.
pub open spec fn surface(t: TokenV) -> Seq<char> {
    match t {
        TokenV::Hash => seq!['#'],
        TokenV::Bang => seq!['!'],
        TokenV::OpenBracket(b) => seq![bracket_open_char(b)],
        TokenV::CloseBracket(b) => seq![bracket_close_char(b)],
        TokenV::Star => seq!['*'],
        TokenV::Dash => seq!['-'],
        TokenV::Plus => seq!['+'],
        TokenV::Equals => seq!['='],
        TokenV::Dot => seq!['.'],
        TokenV::Underscore => seq!['_'],
        TokenV::BackTick => seq!['`'],
        TokenV::Tilde => seq!['~'],
        TokenV::Tab => seq!['\t'],
        TokenV::NewLine => seq!['\n'],
        TokenV::Space => seq![' '],
        TokenV::Text(s) => s,
        TokenV::Number(d) => digits_text(d),
        TokenV::Escape => seq!['\\'],
    }
}

/// The text of a run of tokens: the surfaces, concatenated.
pub open spec fn surface_of(s: Seq<TokenV>) -> Seq<char>
    decreases s.len(),
{
    if s.len() == 0 {
        Seq::empty()
    } else {
        surface_of(s.drop_last()) + surface(s.last())
    }
}

/// Relies on String::push: appends one char to the string.
#[verifier::external_body]
pub(crate) fn push_char(s: &mut String, c: char)
    ensures
        final(s)@ == old(s)@.push(c),
{
    s.push(c)
}

pub(crate) fn digit_to_char(d: u8) -> (c: char)
    requires
        d < 10,
    ensures
        c == digit_char(d as nat),
{
    match d {
        0 => '0',
        1 => '1',
        2 => '2',
        3 => '3',
        4 => '4',
        5 => '5',
        6 => '6',
        7 => '7',
        8 => '8',
        _ => '9',
    }
}

impl VecNum {
    /// The number the digits stand for.
    pub open spec fn value(&self) -> nat {
        digits_value(self.0@)
    }

    /// The digits as text, each byte written in decimal.
    pub fn to_string(&self) -> (r: String)
        ensures
            r@ == digits_text(self.0@),
    {
        let mut out = String::new();
        let mut i: usize = 0;
        while i < self.0.len()
            invariant
                i <= self.0@.len(),
                out@ == digits_text(self.0@.subrange(0, i as int)),
            decreases self.0@.len() - i,
        {
            let b = self.0[i];
            if b >= 100 {
                push_char(&mut out, digit_to_char(b / 100));
                push_char(&mut out, digit_to_char((b / 10) % 10));
                push_char(&mut out, digit_to_char(b % 10));
            } else if b >= 10 {
                push_char(&mut out, digit_to_char(b / 10));
                push_char(&mut out, digit_to_char(b % 10));
            } else {
                push_char(&mut out, digit_to_char(b));
            }
            assert(self.0@.subrange(0, i + 1).drop_last() =~= self.0@.subrange(0, i as int));
            i = i + 1;
        }
        assert(self.0@.subrange(0, i as int) =~= self.0@);
        out
    }

    /// The numeric value of the digits.
    pub fn to_usize(&self) -> (r: usize)
        requires
            self.value() <= usize::MAX,
        ensures
            r == self.value(),
    {
        let mut total: usize = 0;
        let mut i: usize = 0;
        while i < self.0.len()
            invariant
                i <= self.0@.len(),
                digits_value(self.0@) <= usize::MAX,
                total == digits_value(self.0@.subrange(0, i as int)),
            decreases self.0@.len() - i,
        {
            proof {
                lemma_digits_value_prefix(self.0@, i as int + 1);
            }
            assert(self.0@.subrange(0, i + 1).drop_last() =~= self.0@.subrange(0, i as int));
            total = total * 10 + self.0[i] as usize;
            i = i + 1;
        }
        assert(self.0@.subrange(0, i as int) =~= self.0@);
        total
    }
}

/// A prefix of a digit run is worth no more than the whole run.
pub proof fn lemma_digits_value_prefix(d: Seq<u8>, n: int)
    requires
        0 <= n <= d.len(),
    ensures
        digits_value(d.subrange(0, n)) <= digits_value(d),
    decreases d.len() - n,
{
    if n < d.len() {
        lemma_digits_value_prefix(d, n + 1);
        assert(d.subrange(0, n + 1).drop_last() =~= d.subrange(0, n));
    } else {
        assert(d.subrange(0, n) =~= d);
    }
}

impl Token {
    /// The kind of this token.
    pub fn token_type(&self) -> (r: TokenType)
        ensures
            r == type_of(self@),
    {
        match self {
            Token::Hash => TokenType::Hash,
            Token::Bang => TokenType::Bang,
            Token::OpenBracket(b) => TokenType::OpenBracket(*b),
            Token::CloseBracket(b) => TokenType::CloseBracket(*b),
            Token::Star => TokenType::Star,
            Token::Dash => TokenType::Dash,
            Token::Plus => TokenType::Plus,
            Token::Equals => TokenType::Equals,
            Token::Dot => TokenType::Dot,
            Token::Underscore => TokenType::Underscore,
            Token::BackTick => TokenType::BackTick,
            Token::Tilde => TokenType::Tilde,
            Token::Tab => TokenType::Tab,
            Token::NewLine => TokenType::NewLine,
            Token::Space => TokenType::Space,
            Token::Text(..) => TokenType::Text,
            Token::Escape => TokenType::Escape,
            Token::Number(..) => TokenType::Number,
        }
    }

    /// A copy of this token.
    pub fn duplicate(&self) -> (r: Token)
        ensures
            r@ == self@,
    {
        match self {
            Token::Text(s) => Token::Text(s.clone()),
            Token::Number(n) => {
                let d = n.0.clone();
                assert(d@ =~= n.0@);
                Token::Number(VecNum(d))
            },
            Token::Hash => Token::Hash,
            Token::Bang => Token::Bang,
            Token::OpenBracket(b) => Token::OpenBracket(*b),
            Token::CloseBracket(b) => Token::CloseBracket(*b),
            Token::Star => Token::Star,
            Token::Dash => Token::Dash,
            Token::Plus => Token::Plus,
            Token::Equals => Token::Equals,
            Token::Dot => Token::Dot,
            Token::Underscore => Token::Underscore,
            Token::BackTick => Token::BackTick,
            Token::Tilde => Token::Tilde,
            Token::Tab => Token::Tab,
            Token::NewLine => Token::NewLine,
            Token::Space => Token::Space,
            Token::Escape => Token::Escape,
        }
    }

    /// Appends the text this token stands for in the source.
    pub fn write_surface(&self, out: &mut String)
        ensures
            final(out)@ == old(out)@ + surface(self@),
    {
        match self {
            Token::Text(s) => {
                out.append(s.as_str());
            },
            Token::Number(n) => {
                let d = n.to_string();
                out.append(d.as_str());
            },
            Token::Hash => push_char(out, '#'),
            Token::Bang => push_char(out, '!'),
            Token::OpenBracket(b) => push_char(
                out,
                match b {
                    Bracket::Parenthesis => '(',
                    Bracket::Square => '[',
                    Bracket::Brace => '{',
                    Bracket::Angle => '<',
                },
            ),
            Token::CloseBracket(b) => push_char(
                out,
                match b {
                    Bracket::Parenthesis => ')',
                    Bracket::Square => ']',
                    Bracket::Brace => '}',
                    Bracket::Angle => '>',
                },
            ),
            Token::Star => push_char(out, '*'),
            Token::Dash => push_char(out, '-'),
            Token::Plus => push_char(out, '+'),
            Token::Equals => push_char(out, '='),
            Token::Dot => push_char(out, '.'),
            Token::Underscore => push_char(out, '_'),
            Token::BackTick => push_char(out, '`'),
            Token::Tilde => push_char(out, '~'),
            Token::Tab => push_char(out, '\t'),
            Token::NewLine => push_char(out, '\n'),
            Token::Space => push_char(out, ' '),
            Token::Escape => push_char(out, '\\'),
        }
    }

    /// The text this token stands for in the source.
    pub fn surface_form(&self) -> (r: String)
        ensures
            r@ == surface(self@),
    {
        let mut out = String::new();
        self.write_surface(&mut out);
        assert(out@ =~= surface(self@));
        out
    }
}

} // verus!
