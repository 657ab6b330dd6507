//! What a parse reports: characters that start no token are reported and
//! passed over, and the first token of a wrong kind is reported and ends the
//! parse. So a parse that succeeds has reported bad characters only, and a
//! parse that fails has reported one token of a wrong kind, last of all.

use vstd::prelude::*;
use crate::chars::char_is_alphabetic;
use crate::grammar::{
    accept, class_declaration, declaration, declaration_head, expect, field_end,
    initializer_end, lemma_declaration_bounds, members, method_end, method_rest, modifiers,
    parameters, unexpected_token_message,
};
use crate::parser::DiagnosticView;
use crate::scan::{
    bad_character_message, char_at, comment_end, opens_comment, lemma_comment_end_bounds, lemma_lex_bounds,
    lemma_skip_whitespace_bounds, lex, punctuation, skip_whitespace,
};
use crate::token::TokenKind;

verus! {

/// The diagnostic reports a character that starts no token.
pub open spec fn is_bad_character(diagnostic: DiagnosticView) -> bool {
    exists|c: char| diagnostic.message == #[trigger] bad_character_message(c)
}

/// The diagnostic reports a token of a wrong kind.
pub open spec fn is_unexpected_token(diagnostic: DiagnosticView) -> bool {
    exists|found: TokenKind, wanted: TokenKind|
        diagnostic.message == #[trigger] unexpected_token_message(found, wanted)
}

/// All the diagnostics report bad characters.
#[verifier::opaque]
pub open spec fn all_lexical(diags: Seq<DiagnosticView>) -> bool {
    forall|i: int| 0 <= i < diags.len() ==> is_bad_character(#[trigger] diags[i])
}

/// The last diagnostic reports a token of a wrong kind, and all before it
/// report bad characters.
pub open spec fn fails_on_a_token(diags: Seq<DiagnosticView>) -> bool {
    &&& diags.len() > 0
    &&& is_unexpected_token(diags.last())
    &&& all_lexical(diags.drop_last())
}

/// No diagnostics at all report bad characters only.
proof fn lemma_all_lexical_empty()
    ensures
        all_lexical(Seq::<DiagnosticView>::empty()),
{
    reveal(all_lexical);
}

/// Two lists that report bad characters only do so together.
proof fn lemma_all_lexical_add(a: Seq<DiagnosticView>, b: Seq<DiagnosticView>)
    requires
        all_lexical(a),
        all_lexical(b),
    ensures
        all_lexical(a + b),
{
    reveal(all_lexical);
    assert forall|i: int| 0 <= i < (a + b).len() implies is_bad_character(#[trigger] (a + b)[i]) by {
        if i < a.len() {
            assert((a + b)[i] == a[i]);
        } else {
            assert((a + b)[i] == b[i - a.len()]);
        }
    }
}

/// Bad characters in front of a failure leave it a failure.
proof fn lemma_fails_after(a: Seq<DiagnosticView>, b: Seq<DiagnosticView>)
    requires
        all_lexical(a),
        fails_on_a_token(b),
    ensures
        fails_on_a_token(a + b),
{
    assert((a + b).last() == b.last());
    assert((a + b).drop_last() =~= a + b.drop_last());
    lemma_all_lexical_add(a, b.drop_last());
}

/// The lexer reports bad characters only.
pub proof fn lemma_lex_reports(s: Seq<char>, pos: int)
    ensures
        all_lexical(lex(s, pos).diags),
    decreases s.len() - pos,
{
    reveal(lex);
    let p = skip_whitespace(s, pos);
    let c = char_at(s, p);
    lemma_skip_whitespace_bounds(s, pos);
    lemma_all_lexical_empty();
    if c == '\0' {
    } else if punctuation(c) is Some {
    } else if char_is_alphabetic(c) {
    } else if opens_comment(s, p) {
        lemma_comment_end_bounds(s, p);
        lemma_lex_reports(s, comment_end(s, p));
    } else {
        lemma_lex_reports(s, p + 1);
        let first = seq![DiagnosticView { message: bad_character_message(c), pos: p }];
        assert(all_lexical(first)) by {
            reveal(all_lexical);
            assert(first[0].message == bad_character_message(c));
        }
        lemma_all_lexical_add(first, lex(s, p + 1).diags);
    }
}

/// A token of the kind asked for reports bad characters only; one of
/// another kind is reported last.
proof fn lemma_expect_reports(s: Seq<char>, pos: int, kind: TokenKind)
    ensures
        expect(s, pos, kind).token is Some ==> all_lexical(expect(s, pos, kind).diags),
        expect(s, pos, kind).token is None ==> fails_on_a_token(expect(s, pos, kind).diags),
{
    let step = lex(s, pos);
    lemma_lex_reports(s, pos);
    if step.token.kind != kind {
        let diags = expect(s, pos, kind).diags;
        assert(diags.last().message == unexpected_token_message(step.token.kind, kind));
        assert(diags.drop_last() =~= step.diags);
    }
}

/// An optional token reports bad characters only.
proof fn lemma_accept_reports(s: Seq<char>, pos: int, kind: TokenKind)
    ensures
        all_lexical(accept(s, pos, kind).diags),
{
    lemma_lex_reports(s, pos);
}

/// A run of keywords reports bad characters only.
proof fn lemma_modifiers_reports(s: Seq<char>, pos: int)
    ensures
        all_lexical(modifiers(s, pos).diags),
    decreases s.len() - pos,
{
    let step = lex(s, pos);
    lemma_lex_reports(s, pos);
    lemma_lex_bounds(s, pos);
    if step.token.kind.modifier() {
        lemma_modifiers_reports(s, step.end);
        lemma_all_lexical_add(step.diags, step.diags);
        lemma_all_lexical_add(step.diags + step.diags, modifiers(s, step.end).diags);
    }
}

/// A parameter list reports bad characters only, or fails on a token.
proof fn lemma_parameters_reports(s: Seq<char>, pos: int)
    ensures
        parameters(s, pos).params is Some ==> all_lexical(parameters(s, pos).diags),
        parameters(s, pos).params is None ==> fails_on_a_token(parameters(s, pos).diags),
    decreases s.len() - pos,
{
    let ahead = lex(s, pos);
    let ty = expect(s, pos, TokenKind::Identifier);
    let name = expect(s, ty.end, TokenKind::Identifier);
    let comma = lex(s, name.end);
    lemma_lex_reports(s, pos);
    lemma_expect_reports(s, pos, TokenKind::Identifier);
    lemma_expect_reports(s, ty.end, TokenKind::Identifier);
    lemma_lex_reports(s, name.end);
    if ahead.token.kind == TokenKind::CloseParen {
    } else if ty.token is None {
        lemma_fails_after(ahead.diags, ty.diags);
    } else if name.token is None {
        lemma_all_lexical_add(ahead.diags, ty.diags);
        lemma_fails_after(ahead.diags + ty.diags, name.diags);
    } else {
        lemma_all_lexical_add(ahead.diags, ty.diags);
        lemma_all_lexical_add(ahead.diags + ty.diags, name.diags);
        lemma_all_lexical_add(ahead.diags + ty.diags + name.diags, comma.diags);
        if comma.token.kind == TokenKind::Comma {
            lemma_lex_bounds(s, pos);
            lemma_lex_bounds(s, ty.end);
            lemma_lex_bounds(s, name.end);
            let rest = parameters(s, comma.end);
            lemma_parameters_reports(s, comma.end);
            let before = ahead.diags + ty.diags + name.diags + comma.diags + comma.diags;
            lemma_all_lexical_add(ahead.diags + ty.diags + name.diags + comma.diags, comma.diags);
            if rest.params is Some {
                lemma_all_lexical_add(before, rest.diags);
            } else {
                lemma_fails_after(before, rest.diags);
            }
        }
    }
}

/// The end of a method reports bad characters only, or fails on a token.
proof fn lemma_method_end_reports(s: Seq<char>, pos: int)
    ensures
        method_end(s, pos).ok ==> all_lexical(method_end(s, pos).diags),
        !method_end(s, pos).ok ==> fails_on_a_token(method_end(s, pos).diags),
{
    let close = expect(s, pos, TokenKind::CloseParen);
    let semi = accept(s, close.end, TokenKind::SemiColon);
    let open = expect(s, close.end, TokenKind::OpenCurly);
    lemma_expect_reports(s, pos, TokenKind::CloseParen);
    lemma_accept_reports(s, close.end, TokenKind::SemiColon);
    lemma_expect_reports(s, close.end, TokenKind::OpenCurly);
    if close.token is None {
    } else if semi.taken {
        lemma_all_lexical_add(close.diags, semi.diags);
    } else if open.token is None {
        lemma_all_lexical_add(close.diags, semi.diags);
        lemma_fails_after(close.diags + semi.diags, open.diags);
    } else {
        lemma_all_lexical_add(close.diags, semi.diags);
        lemma_all_lexical_add(close.diags + semi.diags, open.diags);
    }
}

/// The end of a field reports bad characters only, or fails on a token.
proof fn lemma_field_end_reports(s: Seq<char>, pos: int)
    ensures
        field_end(s, pos).ok ==> all_lexical(field_end(s, pos).diags),
        !field_end(s, pos).ok ==> fails_on_a_token(field_end(s, pos).diags),
{
    let ahead = lex(s, pos);
    lemma_lex_reports(s, pos);
    if ahead.token.kind == TokenKind::Equal {
        let from = initializer_end(s, ahead.end);
        let semi = expect(s, from, TokenKind::SemiColon);
        lemma_expect_reports(s, from, TokenKind::SemiColon);
        lemma_all_lexical_add(ahead.diags, ahead.diags);
        if semi.token is Some {
            lemma_all_lexical_add(ahead.diags + ahead.diags, semi.diags);
        } else {
            lemma_fails_after(ahead.diags + ahead.diags, semi.diags);
        }
    } else {
        let semi = expect(s, pos, TokenKind::SemiColon);
        lemma_expect_reports(s, pos, TokenKind::SemiColon);
        if semi.token is Some {
            lemma_all_lexical_add(ahead.diags, semi.diags);
        } else {
            lemma_fails_after(ahead.diags, semi.diags);
        }
    }
}

/// The head of a declaration reports bad characters only, or fails on a
/// token.
proof fn lemma_declaration_head_reports(s: Seq<char>, pos: int)
    ensures
        declaration_head(s, pos).head is Some ==> all_lexical(declaration_head(s, pos).diags),
        declaration_head(s, pos).head is None ==> fails_on_a_token(
            declaration_head(s, pos).diags,
        ),
{
    let mods = modifiers(s, pos);
    let ty = expect(s, mods.end, TokenKind::Identifier);
    let ahead = lex(s, ty.end);
    let name = expect(s, ty.end, TokenKind::Identifier);
    lemma_modifiers_reports(s, pos);
    lemma_expect_reports(s, mods.end, TokenKind::Identifier);
    lemma_lex_reports(s, ty.end);
    lemma_expect_reports(s, ty.end, TokenKind::Identifier);
    if ty.token is None {
        lemma_fails_after(mods.diags, ty.diags);
    } else {
        lemma_all_lexical_add(mods.diags, ty.diags);
        lemma_all_lexical_add(mods.diags + ty.diags, ahead.diags);
        if ahead.token.kind == TokenKind::OpenParen {
        } else if name.token is Some {
            lemma_all_lexical_add(mods.diags + ty.diags + ahead.diags, name.diags);
        } else {
            lemma_fails_after(mods.diags + ty.diags + ahead.diags, name.diags);
        }
    }
}

/// The rest of a method reports bad characters only, or fails on a token.
proof fn lemma_method_rest_reports(s: Seq<char>, pos: int)
    ensures
        method_rest(s, pos).params is Some ==> all_lexical(method_rest(s, pos).diags),
        method_rest(s, pos).params is None ==> fails_on_a_token(method_rest(s, pos).diags),
{
    let params = parameters(s, pos);
    let tail = method_end(s, params.end);
    lemma_parameters_reports(s, pos);
    lemma_method_end_reports(s, params.end);
    if params.params is Some {
        if tail.ok {
            lemma_all_lexical_add(params.diags, tail.diags);
        } else {
            lemma_fails_after(params.diags, tail.diags);
        }
    }
}

/// A declaration that was recognised has reported bad characters only; one
/// that was not has reported one token of a wrong kind, last of all.
pub proof fn lemma_declaration_reports(s: Seq<char>, pos: int)
    ensures
        declaration(s, pos).decl is Some ==> all_lexical(declaration(s, pos).diags),
        declaration(s, pos).decl is None ==> fails_on_a_token(declaration(s, pos).diags),
{
    reveal(declaration);
    let start = declaration_head(s, pos);
    let open = accept(s, start.end, TokenKind::OpenParen);
    let method = method_rest(s, open.end);
    let field = field_end(s, start.end);
    lemma_declaration_head_reports(s, pos);
    lemma_accept_reports(s, start.end, TokenKind::OpenParen);
    lemma_method_rest_reports(s, open.end);
    lemma_field_end_reports(s, start.end);
    if start.head is Some {
        lemma_all_lexical_add(start.diags, open.diags);
        if open.taken {
            if method.params is Some {
                lemma_all_lexical_add(start.diags + open.diags, method.diags);
            } else {
                lemma_fails_after(start.diags + open.diags, method.diags);
            }
        } else {
            if field.ok {
                lemma_all_lexical_add(start.diags + open.diags, field.diags);
            } else {
                lemma_fails_after(start.diags + open.diags, field.diags);
            }
        }
    }
}

/// The members of a class report bad characters only, or fail on a token.
proof fn lemma_members_reports(s: Seq<char>, pos: int)
    ensures
        members(s, pos).ok ==> all_lexical(members(s, pos).diags),
        !members(s, pos).ok ==> fails_on_a_token(members(s, pos).diags),
    decreases s.len() - pos,
{
    let ahead = lex(s, pos);
    let first = declaration(s, pos);
    lemma_lex_reports(s, pos);
    lemma_declaration_reports(s, pos);
    lemma_declaration_bounds(s, pos);
    if ahead.token.kind == TokenKind::CloseCurly || ahead.token.kind == TokenKind::Eof {
    } else if first.decl is None {
        lemma_fails_after(ahead.diags, first.diags);
    } else {
        let rest = members(s, first.end);
        lemma_members_reports(s, first.end);
        lemma_all_lexical_add(ahead.diags, first.diags);
        if rest.ok {
            lemma_all_lexical_add(ahead.diags + first.diags, rest.diags);
        } else {
            lemma_fails_after(ahead.diags + first.diags, rest.diags);
        }
    }
}

/// A parse that gives a class has reported bad characters only. A parse that
/// gives none has reported one token of a wrong kind, last of all: nothing
/// is reported behind the first token of a wrong kind, and a parse never
/// fails in silence.
pub proof fn parse_reports(s: Seq<char>, pos: int)
    ensures
        class_declaration(s, pos).class is Some ==> all_lexical(class_declaration(s, pos).diags),
        class_declaration(s, pos).class is None ==> fails_on_a_token(
            class_declaration(s, pos).diags,
        ),
{
    let keyword = expect(s, pos, TokenKind::ClassKeyword);
    let name = expect(s, keyword.end, TokenKind::Identifier);
    let open = expect(s, name.end, TokenKind::OpenCurly);
    let body = members(s, open.end);
    let close = expect(s, body.end, TokenKind::CloseCurly);
    lemma_expect_reports(s, pos, TokenKind::ClassKeyword);
    lemma_expect_reports(s, keyword.end, TokenKind::Identifier);
    lemma_expect_reports(s, name.end, TokenKind::OpenCurly);
    lemma_members_reports(s, open.end);
    lemma_expect_reports(s, body.end, TokenKind::CloseCurly);
    if keyword.token is None {
    } else if name.token is None {
        lemma_fails_after(keyword.diags, name.diags);
    } else if open.token is None {
        lemma_all_lexical_add(keyword.diags, name.diags);
        lemma_fails_after(keyword.diags + name.diags, open.diags);
    } else if !body.ok {
        lemma_all_lexical_add(keyword.diags, name.diags);
        lemma_all_lexical_add(keyword.diags + name.diags, open.diags);
        lemma_fails_after(keyword.diags + name.diags + open.diags, body.diags);
    } else {
        lemma_all_lexical_add(keyword.diags, name.diags);
        lemma_all_lexical_add(keyword.diags + name.diags, open.diags);
        lemma_all_lexical_add(keyword.diags + name.diags + open.diags, body.diags);
        if close.token is Some {
            lemma_all_lexical_add(
                keyword.diags + name.diags + open.diags + body.diags,
                close.diags,
            );
        } else {
            lemma_fails_after(keyword.diags + name.diags + open.diags + body.diags, close.diags);
        }
    }
}

} // verus!
