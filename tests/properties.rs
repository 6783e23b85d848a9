use smarkdown::{
    trim_empty_lines,
    lex, parse, parse_checked, tokens_to_lines, Bracket, Line, ListType, Token, TokenType,
    VecNum, BlockType, ParseError, MAX_NESTING,
};

fn text(s: &str) -> Token {
    Token::Text(s.to_string())
}

fn surfaces(tokens: &[Token]) -> String {
    let mut out = String::new();
    for t in tokens {
        out.push_str(&t.surface_form());
    }
    out
}

#[test]
fn round_trip_plain_text() {
    let source = "# Title 12\n- item *one*\n> quote (with) [brackets] {and} <angles>\n\t007 `code` ~x~ _y_ +z =w.";
    let tokens = lex(source);
    assert_eq!(surfaces(&tokens), source);
}

#[test]
fn round_trip_fixed_tokens() {
    let fixed = vec![
        Token::Hash,
        Token::Bang,
        Token::OpenBracket(Bracket::Parenthesis),
        Token::CloseBracket(Bracket::Square),
        Token::OpenBracket(Bracket::Brace),
        Token::CloseBracket(Bracket::Angle),
        Token::Star,
        Token::Dash,
        Token::Plus,
        Token::Equals,
        Token::Dot,
        Token::Underscore,
        Token::BackTick,
        Token::Tilde,
        Token::Tab,
        Token::NewLine,
        Token::Space,
        Token::Escape,
    ];
    for t in fixed {
        let s = t.surface_form();
        assert_eq!(lex(&s), vec![t]);
    }
}

#[test]
fn escaped_punctuation_is_text() {
    for c in "!\"#$%&'()*+,-./:;<=>?@[\\]^_`{|}~".chars() {
        let source = format!("\\{c}");
        assert_eq!(lex(&source), vec![Token::Text(c.to_string())]);
    }
}

#[test]
fn backslash_before_letter_stays() {
    assert_eq!(lex("\\a"), vec![Token::Escape, text("a")]);
    assert_eq!(lex("\\ "), vec![Token::Escape, Token::Space]);
    assert_eq!(lex("\\7"), vec![Token::Escape, Token::Number(VecNum(vec![7]))]);
}

#[test]
fn digits_after_text_join_the_text() {
    assert_eq!(lex("ab12"), vec![text("ab12")]);
    assert_eq!(lex("12ab"), vec![Token::Number(VecNum(vec![1, 2])), text("ab")]);
}

#[test]
fn nul_becomes_replacement_char() {
    assert_eq!(lex("a\u{0}b"), vec![text("a\u{FFFD}b")]);
}

#[test]
fn vecnum_values() {
    let n = VecNum(vec![0, 0, 3]);
    assert_eq!(n.to_usize(), 3);
    assert_eq!(n.to_string(), "003");
    assert_eq!(VecNum(vec![1, 2, 3, 4, 5, 6, 7, 8, 9]).to_usize(), 123456789);
    assert_eq!(VecNum(vec![12, 255]).to_string(), "12255");
}

#[test]
fn number_surface_form() {
    assert_eq!(Token::Number(VecNum(vec![0, 1, 9])).surface_form(), "019");
    assert_eq!(Token::Hash.surface_form(), "#");
}

#[test]
fn num_list_continues_with_next_number() {
    assert_eq!(
        parse("1. item 1\n2. item 2").as_html(),
        "<ol>\n<li>item 1</li>\n<li>item 2</li>\n</ol>"
    );
}

#[test]
fn num_list_breaks_on_skipped_number() {
    assert_eq!(
        parse("1. item 1\n3. item 2").as_html(),
        "<ol>\n<li>item 1</li>\n</ol>\n<ol start=\"3\">\n<li>item 2</li>\n</ol>"
    );
}

#[test]
fn bracketed_list_breaks_on_skipped_number() {
    assert_eq!(
        parse("1) a\n2) b\n4) c").as_html(),
        "<ol>\n<li>a</li>\n<li>b</li>\n</ol>\n<ol start=\"4\">\n<li>c</li>\n</ol>"
    );
}

#[test]
fn lazy_setext_line_stays_in_quote() {
    assert_eq!(
        parse("> foo\nbar\n===").as_html(),
        "<blockquote>\n<p>foo\nbar\n===</p>\n</blockquote>"
    );
}

#[test]
fn tight_list_has_no_paragraphs() {
    assert_eq!(
        parse("- item 1\n- item 2").as_html(),
        "<ul>\n<li>item 1</li>\n<li>item 2</li>\n</ul>"
    );
}

#[test]
fn loose_list_has_paragraphs() {
    assert_eq!(
        parse("- item 1\n\n- item 2").as_html(),
        "<ul>\n<li>\n<p>item 1</p>\n</li>\n<li>\n<p>item 2</p>\n</li>\n</ul>"
    );
}

#[test]
fn trailing_blank_line_keeps_list_tight() {
    assert_eq!(
        parse("- item 1\n- item 2\n").as_html(),
        "<ul>\n<li>item 1</li>\n<li>item 2</li>\n</ul>"
    );
}

#[test]
fn indented_code_cannot_interrupt_paragraph() {
    assert_eq!(parse("Foo\n    bar").as_html(), "<p>Foo\nbar</p>");
    assert_eq!(parse("    foo\nbar").as_html(), "<pre><code>foo\n</code></pre>\n<p>bar</p>");
}

#[test]
fn atx_heading_levels() {
    for level in 1..=6 {
        let line = Line(vec![Token::Hash; level].into_iter().chain(vec![Token::Space, text("x")]).collect());
        assert_eq!(line.line_type(None), BlockType::Header(level as u8));
    }
    let seven = Line(vec![Token::Hash; 7].into_iter().chain(vec![Token::Space, text("x")]).collect());
    assert_eq!(seven.line_type(None), BlockType::Paragraph);
    assert_eq!(Line(vec![Token::Hash]).line_type(None), BlockType::Header(1));
    assert_eq!(Line(vec![Token::Hash, text("x")]).line_type(None), BlockType::Paragraph);
}

#[test]
fn list_marker_types() {
    let dash = Line(vec![Token::Dash, Token::Space, text("a")]);
    assert_eq!(dash.line_type(None), BlockType::List(ListType::Dash));
    let num = Line(vec![Token::Number(VecNum(vec![4, 2])), Token::Dot, Token::Space, text("a")]);
    assert_eq!(num.line_type(None), BlockType::List(ListType::Number(42)));
    let br = Line(vec![Token::Number(VecNum(vec![7])), Token::CloseBracket(Bracket::Parenthesis), Token::Space]);
    assert_eq!(br.line_type(None), BlockType::List(ListType::BracketedNumber(7)));
    let long = Line(vec![Token::Number(VecNum(vec![1; 10])), Token::Dot, Token::Space]);
    assert_eq!(long.line_type(None), BlockType::Paragraph);
}

#[test]
fn setext_and_breaks() {
    let eq = Line(vec![Token::Equals, Token::Equals, Token::Space]);
    assert_eq!(eq.line_type(Some(BlockType::Paragraph)), BlockType::SetextHeader(1));
    let dashes = Line(vec![Token::Dash, Token::Space, Token::Dash, Token::Space, Token::Dash]);
    assert_eq!(dashes.line_type(None), BlockType::ThematicBreak);
    let underscores = Line(vec![Token::Underscore, Token::Underscore]);
    assert_eq!(underscores.line_type(None), BlockType::Paragraph);
}

#[test]
fn find_first_and_token_types() {
    let line = Line(vec![Token::Space, text("a"), Token::Dot, Token::Dot]);
    assert_eq!(line.find_first(TokenType::Dot), Some(2));
    assert_eq!(line.find_first(TokenType::Hash), None);
    assert_eq!(
        line.to_token_types(),
        vec![TokenType::Space, TokenType::Text, TokenType::Dot, TokenType::Dot]
    );
}

#[test]
fn unindent_and_stringify() {
    let mut tabbed = Line(vec![Token::Tab, text("a")]);
    tabbed.unindent();
    assert_eq!(tabbed, Line(vec![text("a")]));
    let mut spaced = Line(vec![Token::Space; 5].into_iter().chain(vec![text("a")]).collect());
    spaced.unindent();
    assert_eq!(spaced, Line(vec![Token::Space, text("a")]));
    let mut line = Line(vec![Token::Dash, Token::Space, text("x"), Token::Number(VecNum(vec![3]))]);
    line.stringify_line();
    assert_eq!(line, Line(vec![text("- x3")]));
}

#[test]
fn trim_past_the_end_empties_the_line() {
    let mut line = Line(vec![Token::Space, text("a")]);
    line.trim_line_start(5);
    assert_eq!(line, Line(vec![]));
}

#[test]
fn heading_markers_removed() {
    let mut line = Line(lex("## foo ##  "));
    line.remove_type_chars(&BlockType::Header(2));
    assert_eq!(line, Line(vec![text("foo")]));
}

#[test]
fn empty_input_gives_empty_document() {
    assert_eq!(parse("").as_html(), "");
    assert_eq!(tokens_to_lines(&vec![]), Vec::<Line>::new());
}

#[test]
fn trailing_newline_gives_empty_last_line() {
    let lines = tokens_to_lines(&lex("a\n"));
    assert_eq!(lines, vec![Line(vec![text("a")]), Line(vec![])]);
    let lines = tokens_to_lines(&lex("\n"));
    assert_eq!(lines, vec![Line(vec![])]);
}

#[test]
fn nesting_too_deep_is_reported() {
    let deep = format!("{} a", ">".repeat(MAX_NESTING + 1));
    assert!(matches!(parse_checked(&deep, MAX_NESTING), Err(ParseError::NestingTooDeep)));
    assert_eq!(parse(&deep).as_html(), "");
    let shallow = "> > a";
    assert_eq!(
        parse_checked(shallow, MAX_NESTING).map(|d| d.as_html()).unwrap(),
        "<blockquote>\n<blockquote>\n<p>a</p>\n</blockquote>\n</blockquote>"
    );
    assert!(matches!(parse_checked(shallow, 1), Err(ParseError::NestingTooDeep)));
}

#[test]
fn code_block_keeps_inner_blank_lines() {
    assert_eq!(
        parse("    a\n\n    b\n\n").as_html(),
        "<pre><code>a\n\nb\n</code></pre>"
    );
}

#[test]
fn lone_dash_in_list_item_underlines_it() {
    assert_eq!(parse("- a\n-  ").as_html(), "<ul>\n<li>\n<h2>a</h2>\n</li>\n</ul>");
}

#[test]
fn arbitrary_text_never_panics() {
    let alphabet: Vec<char> = "#!()[]{}<>*-+=._`~\\\n\t 0123456789ab\u{0}é".chars().collect();
    let mut state: u64 = 0x2545F4914F6CDD1D;
    for _ in 0..2000 {
        let mut s = String::new();
        state ^= state << 13;
        state ^= state >> 7;
        state ^= state << 17;
        let len = (state % 40) as usize;
        for _ in 0..len {
            state ^= state << 13;
            state ^= state >> 7;
            state ^= state << 17;
            s.push(alphabet[(state % alphabet.len() as u64) as usize]);
        }
        let _ = parse(&s).as_html();
    }
}

#[test]
fn tab_in_list_item_counts_to_its_tab_stop() {
    assert_eq!(parse("- a\n\tb").as_html(), "<ul>\n<li>a\nb</li>\n</ul>");
    assert_eq!(
        parse("- a\n\n\t    code").as_html(),
        "<ul>\n<li>\n<p>a</p>\n<pre><code>  code\n</code></pre>\n</li>\n</ul>"
    );
}

#[test]
fn nesting_up_to_the_limit_is_parsed() {
    let deepest = format!("{} a", ">".repeat(MAX_NESTING));
    let html = parse_checked(&deepest, MAX_NESTING).map(|d| d.as_html()).unwrap();
    assert_eq!(html.matches("<blockquote>").count(), MAX_NESTING);
    assert!(html.contains("<p>a</p>"));
}

#[test]
fn blank_code_run_is_trimmed_to_nothing() {
    assert_eq!(parse("     ").as_html(), "<pre><code>\n</code></pre>");
    assert_eq!(trim_empty_lines(lex("  \n\t\n ")), Vec::<Token>::new());
    assert_eq!(trim_empty_lines(lex("\n a\n\n b\n ")), lex(" a\n\n b"));
}

#[test]
fn unindent_removes_four_spaces_from_a_blank_line() {
    let mut line = Line(vec![Token::Space; 5]);
    line.unindent();
    assert_eq!(line, Line(vec![Token::Space]));
    let mut short = Line(vec![Token::Space; 3]);
    short.unindent();
    assert_eq!(short, Line(vec![Token::Space; 3]));
}

#[test]
fn bracketed_list_start_number() {
    assert_eq!(parse("3) x").as_html(), "<ol start=\"3\">\n<li>x</li>\n</ol>");
}

#[test]
fn relex_of_surface_forms_gives_same_tokens() {
    for source in ["\\a b\\", "x\u{0}y 12.3", "019", "a\\\n\\7"] {
        let tokens = lex(source);
        assert_eq!(lex(&surfaces(&tokens)), tokens);
    }
    let n = Token::Number(VecNum(vec![0, 1, 9]));
    assert_eq!(lex(&n.surface_form()), vec![n]);
}
