//! What the lexer computes, as functions of the source text and an offset.
//!
//! Offsets count characters from zero. Reading at or past the end of the text
//! gives the NUL character, which also ends the input where it occurs inside
//! the text.

use vstd::prelude::*;
use crate::chars::{char_is_alphabetic, char_is_whitespace, is_ident_part};
use crate::token::{keyword_kind, TokenKind, TokenView};
use crate::parser::DiagnosticView;

verus! {

/// The character at offset `i`, or NUL where the text has none.
pub open spec fn char_at(s: Seq<char>, i: int) -> char {
    if 0 <= i < s.len() {
        s[i]
    } else {
        '\0'
    }
}

/// The first offset at or after `pos` that holds no white space.
pub open spec fn skip_whitespace(s: Seq<char>, pos: int) -> int
    decreases s.len() - pos,
{
    if 0 <= pos < s.len() && char_is_whitespace(s[pos]) {
        skip_whitespace(s, pos + 1)
    } else {
        pos
    }
}

/// The first offset at or after `pos` that cannot continue an identifier.
pub open spec fn ident_end(s: Seq<char>, pos: int) -> int
    decreases s.len() - pos,
{
    if 0 <= pos < s.len() && is_ident_part(s[pos]) {
        ident_end(s, pos + 1)
    } else {
        pos
    }
}

/// The first offset at or after `pos` that holds a line feed or ends the
/// input.
pub open spec fn line_end(s: Seq<char>, pos: int) -> int
    decreases s.len() - pos,
{
    if char_at(s, pos) != '\n' && char_at(s, pos) != '\0' {
        line_end(s, pos + 1)
    } else {
        pos
    }
}

/// The offset just behind the first `*/` that starts at or after `pos`, or
/// the end of the text where there is none.
pub open spec fn block_comment_end(s: Seq<char>, pos: int) -> int
    decreases s.len() - pos,
{
    if !(0 <= pos < s.len()) {
        pos
    } else if s[pos] == '*' && char_at(s, pos + 1) == '/' {
        pos + 2
    } else {
        block_comment_end(s, pos + 1)
    }
}

/// Whether a comment opens at offset `p`: whether `//` or `/*` stands there.
pub open spec fn opens_comment(s: Seq<char>, p: int) -> bool {
    char_at(s, p) == '/' && (char_at(s, p + 1) == '/' || char_at(s, p + 1) == '*')
}

/// Where lexing goes on behind the comment that opens at offset `p`: at the
/// end of the line for a line comment, behind the `*/` for a block comment.
pub open spec fn comment_end(s: Seq<char>, p: int) -> int {
    if char_at(s, p + 1) == '/' {
        line_end(s, p + 1)
    } else {
        block_comment_end(s, p + 2)
    }
}

/// The kind of a single-character token, if `c` is one.
pub open spec fn punctuation(c: char) -> Option<TokenKind> {
    if c == '{' {
        Some(TokenKind::OpenCurly)
    } else if c == '}' {
        Some(TokenKind::CloseCurly)
    } else if c == '(' {
        Some(TokenKind::OpenParen)
    } else if c == ')' {
        Some(TokenKind::CloseParen)
    } else if c == ';' {
        Some(TokenKind::SemiColon)
    } else if c == ',' {
        Some(TokenKind::Comma)
    } else if c == '=' {
        Some(TokenKind::Equal)
    } else {
        None
    }
}

/// The message of the diagnostic for a character that starts no token.
pub open spec fn bad_character_message(c: char) -> Seq<char> {
    "Bad character input '"@ + seq![c] + "'"@
}

/// One step of the lexer: the token found, the offset behind it, and the
/// diagnostics raised on the way to it.
pub struct Lexed {
    pub token: TokenView,
    pub end: int,
    pub diags: Seq<DiagnosticView>,
}

/// Skipping white space goes forward and stays in the text.
pub proof fn lemma_skip_whitespace_bounds(s: Seq<char>, pos: int)
    ensures
        pos <= skip_whitespace(s, pos),
        pos <= s.len() ==> skip_whitespace(s, pos) <= s.len(),
    decreases s.len() - pos,
{
    if 0 <= pos < s.len() && char_is_whitespace(s[pos]) {
        lemma_skip_whitespace_bounds(s, pos + 1);
    }
}

/// An identifier ends behind its first character and within the text.
pub proof fn lemma_ident_end_bounds(s: Seq<char>, pos: int)
    ensures
        pos <= ident_end(s, pos),
        pos <= s.len() ==> ident_end(s, pos) <= s.len(),
        0 <= pos < s.len() && is_ident_part(s[pos]) ==> pos < ident_end(s, pos),
    decreases s.len() - pos,
{
    if 0 <= pos < s.len() && is_ident_part(s[pos]) {
        lemma_ident_end_bounds(s, pos + 1);
    }
}

/// A text that has the shape of an identifier is an identifier or a keyword.
pub proof fn lemma_keyword_kind_not_eof(text: Seq<char>)
    ensures
        keyword_kind(text) != TokenKind::Eof,
        keyword_kind(text) == TokenKind::Identifier || keyword_kind(text).keyword(),
{
}

/// A line comment ends at or behind where it is scanned from, within the text.
pub proof fn lemma_line_end_bounds(s: Seq<char>, pos: int)
    ensures
        pos <= line_end(s, pos),
        pos <= s.len() ==> line_end(s, pos) <= s.len(),
    decreases s.len() - pos,
{
    if char_at(s, pos) != '\n' && char_at(s, pos) != '\0' {
        lemma_line_end_bounds(s, pos + 1);
    }
}

/// A block comment ends at or behind where it is scanned from, within the
/// text.
pub proof fn lemma_block_comment_end_bounds(s: Seq<char>, pos: int)
    ensures
        pos <= block_comment_end(s, pos),
        pos <= s.len() ==> block_comment_end(s, pos) <= s.len(),
    decreases s.len() - pos,
{
    if 0 <= pos < s.len() && !(s[pos] == '*' && char_at(s, pos + 1) == '/') {
        lemma_block_comment_end_bounds(s, pos + 1);
    }
}

/// Lexing goes on behind the two characters that open a comment, within the
/// text.
pub proof fn lemma_comment_end_bounds(s: Seq<char>, p: int)
    requires
        opens_comment(s, p),
    ensures
        p < comment_end(s, p) <= s.len(),
{
    lemma_line_end_bounds(s, p + 1);
    lemma_block_comment_end_bounds(s, p + 2);
}

/// The token that starts at or after `pos`.
///
/// White space and comments before it are passed over. A character that
/// starts no token raises a diagnostic and is passed over too. The end of the
/// input gives an `Eof` token, without moving.
#[verifier::opaque]
pub open spec fn lex(s: Seq<char>, pos: int) -> Lexed
    decreases s.len() - pos,
{
    let p = skip_whitespace(s, pos);
    let c = char_at(s, p);
    if c == '\0' {
        Lexed {
            token: TokenView { kind: TokenKind::Eof, text: "\0"@, pos: p },
            end: p,
            diags: Seq::empty(),
        }
    } else if punctuation(c) is Some {
        Lexed {
            token: TokenView { kind: punctuation(c)->0, text: seq![c], pos: p },
            end: p + 1,
            diags: Seq::empty(),
        }
    } else if char_is_alphabetic(c) {
        let text = s.subrange(p, ident_end(s, p));
        Lexed {
            token: TokenView { kind: keyword_kind(text), text: text, pos: p },
            end: ident_end(s, p),
            diags: Seq::empty(),
        }
    } else if opens_comment(s, p) {
        proof {
            lemma_skip_whitespace_bounds(s, pos);
            lemma_comment_end_bounds(s, p);
        }
        lex(s, comment_end(s, p))
    } else {
        proof {
            lemma_skip_whitespace_bounds(s, pos);
        }
        let rest = lex(s, p + 1);
        Lexed {
            token: rest.token,
            end: rest.end,
            diags: seq![DiagnosticView { message: bad_character_message(c), pos: p }] + rest.diags,
        }
    }
}

/// White space from `pos` up to `end`, and none at `end`: skipping white
/// space from `pos` stops at `end`.
pub proof fn lemma_skip_whitespace_to(s: Seq<char>, pos: int, end: int)
    requires
        0 <= pos <= end,
        pos == end || end <= s.len(),
        forall|i: int| pos <= i < end ==> char_is_whitespace(#[trigger] s[i]),
        !(end < s.len() && char_is_whitespace(s[end])),
    ensures
        skip_whitespace(s, pos) == end,
    decreases end - pos,
{
    if pos < end {
        lemma_skip_whitespace_to(s, pos + 1, end);
    }
}

/// Identifier characters from `pos` up to `end`, and none at `end`: an
/// identifier that holds `pos` ends at `end`.
pub proof fn lemma_ident_end_to(s: Seq<char>, pos: int, end: int)
    requires
        0 <= pos <= end,
        pos == end || end <= s.len(),
        forall|i: int| pos <= i < end ==> is_ident_part(#[trigger] s[i]),
        !(end < s.len() && is_ident_part(s[end])),
    ensures
        ident_end(s, pos) == end,
    decreases end - pos,
{
    if pos < end {
        lemma_ident_end_to(s, pos + 1, end);
    }
}

/// A token lies at or after the offset where lexing started, the lexer
/// stops behind it, and never behind the end of a text that it started in.
/// Every token but `Eof` holds at least one character.
pub proof fn lemma_lex_bounds(s: Seq<char>, pos: int)
    ensures
        pos <= lex(s, pos).token.pos <= lex(s, pos).end,
        pos <= s.len() ==> lex(s, pos).end <= s.len(),
        lex(s, pos).token.kind != TokenKind::Eof ==> lex(s, pos).token.pos < lex(s, pos).end
            <= s.len(),
        lex(s, pos).token.kind == TokenKind::Eof ==> lex(s, pos).token.pos == lex(s, pos).end,
    decreases s.len() - pos,
{
    reveal(lex);
    let p = skip_whitespace(s, pos);
    let c = char_at(s, p);
    lemma_skip_whitespace_bounds(s, pos);
    if c == '\0' {
    } else if punctuation(c) is Some {
    } else if char_is_alphabetic(c) {
        lemma_ident_end_bounds(s, p);
        lemma_keyword_kind_not_eof(s.subrange(p, ident_end(s, p)));
    } else if opens_comment(s, p) {
        lemma_comment_end_bounds(s, p);
        lemma_lex_bounds(s, comment_end(s, p));
    } else {
        lemma_lex_bounds(s, p + 1);
    }
}

} // verus!
