//! Block-level Markdown parsing: a tokenizer, a line classifier, the block
//! assembler with its container recursion, and an HTML renderer.
pub mod lex;
pub mod parse;

pub use lex::{lex, Bracket, Token, TokenType, VecNum};
pub use parse::blocks::{Block, BlockType, ParseError};
pub use parse::document::{DocContext, Document};
pub use parse::inlines::Inline;
pub use parse::line::Line;
pub use parse::list::{list_item_content_start, parse_line_items, ListType};
pub use parse::helpers::{should_recognise_blank_lines, trim_empty_lines};
pub use parse::{parse, parse_checked, parse_inlines, parse_tokens, parse_tokens_checked, tokens_to_lines, MAX_NESTING};
