//! Properties of the lexer and the parser that hold for every source text.

use vstd::prelude::*;
use crate::chars::{char_is_alphabetic, is_ident_part};
use crate::grammar::{
    class_declaration, declaration, expect, lemma_class_declaration_bounds,
    lemma_declaration_bounds, lemma_modifiers_bounds, modifiers, visibility_of,
};
use crate::java::{Capsulation, DeclarationView, MethodView, render_parameters};
use crate::scan::{
    char_at, comment_end, opens_comment, ident_end, lemma_comment_end_bounds, lemma_ident_end_bounds,
    lemma_keyword_kind_not_eof, lemma_lex_bounds, lemma_skip_whitespace_bounds, lex,
    punctuation, skip_whitespace,
};
use crate::parser::DiagnosticView;
use crate::token::{keyword_kind, TokenKind};

verus! {

/// Parsing is a function of the characters of the text: two texts that hold
/// the same characters give the same class, the same diagnostics and the
/// same end, from any offset. So parsing a text twice changes nothing.
pub proof fn parse_is_repeatable(first: Seq<char>, second: Seq<char>, pos: int)
    requires
        first.len() == second.len(),
        forall|i: int| 0 <= i < first.len() ==> first[i] == second[i],
    ensures
        class_declaration(first, pos) == class_declaration(second, pos),
{
    assert(first =~= second);
}

/// Every token but `Eof` moves the cursor forward, and `Eof` leaves it
/// within the text: lexing cannot go on for ever.
pub proof fn token_moves_the_cursor(s: Seq<char>, pos: int)
    requires
        0 <= pos <= s.len(),
    ensures
        pos <= lex(s, pos).end <= s.len(),
        lex(s, pos).token.kind != TokenKind::Eof ==> pos < lex(s, pos).end,
{
    lemma_lex_bounds(s, pos);
}

/// One step of the lexer raises at most one diagnostic for each character
/// that it passes.
pub proof fn token_reports_are_bounded(s: Seq<char>, pos: int)
    requires
        0 <= pos <= s.len(),
    ensures
        lex(s, pos).diags.len() <= lex(s, pos).end - pos,
    decreases s.len() - pos,
{
    reveal(lex);
    let p = skip_whitespace(s, pos);
    let c = char_at(s, p);
    lemma_skip_whitespace_bounds(s, pos);
    if c == '\0' {
    } else if punctuation(c) is Some {
    } else if char_is_alphabetic(c) {
        lemma_ident_end_bounds(s, p);
    } else if opens_comment(s, p) {
        lemma_comment_end_bounds(s, p);
        token_reports_are_bounded(s, comment_end(s, p));
    } else {
        token_reports_are_bounded(s, p + 1);
    }
}

/// A declaration that was recognised moves the cursor forward: the loop over
/// the members of a class never stalls.
pub proof fn declaration_moves_the_cursor(s: Seq<char>, pos: int)
    requires
        0 <= pos <= s.len(),
    ensures
        pos <= declaration(s, pos).end <= s.len(),
        declaration(s, pos).decl is Some ==> pos < declaration(s, pos).end,
{
    lemma_declaration_bounds(s, pos);
}

/// The parser never leaves the text: from an offset within the text it ends
/// at an offset within the text, at or behind the one it started at.
pub proof fn parse_stays_in_text(s: Seq<char>, pos: int)
    requires
        0 <= pos <= s.len(),
    ensures
        pos <= class_declaration(s, pos).end <= s.len(),
{
    lemma_class_declaration_bounds(s, pos);
}

/// The text of every token but `Eof` is the piece of the source that the
/// token covers, and that piece is not empty.
pub proof fn token_text_is_source(s: Seq<char>, pos: int)
    requires
        0 <= pos,
    ensures
        lex(s, pos).token.kind != TokenKind::Eof ==> {
            &&& pos <= lex(s, pos).token.pos < lex(s, pos).end <= s.len()
            &&& lex(s, pos).token.text == s.subrange(lex(s, pos).token.pos, lex(s, pos).end)
        },
    decreases s.len() - pos,
{
    reveal(lex);
    let p = skip_whitespace(s, pos);
    let c = char_at(s, p);
    lemma_skip_whitespace_bounds(s, pos);
    if c == '\0' {
    } else if punctuation(c) is Some {
        assert(seq![c] =~= s.subrange(p, p + 1));
    } else if char_is_alphabetic(c) {
        lemma_ident_end_bounds(s, p);
        lemma_keyword_kind_not_eof(s.subrange(p, ident_end(s, p)));
    } else if opens_comment(s, p) {
        lemma_comment_end_bounds(s, p);
        token_text_is_source(s, comment_end(s, p));
    } else {
        token_text_is_source(s, p + 1);
    }
}

/// An identifier or a keyword is a maximal run: it starts with a letter, it
/// holds identifier characters only, and no identifier character follows it.
/// Its kind depends on its text alone.
pub proof fn word_is_a_maximal_run(s: Seq<char>, pos: int)
    requires
        0 <= pos,
        lex(s, pos).token.kind == TokenKind::Identifier || lex(s, pos).token.kind.keyword(),
    ensures
        ({
            let step = lex(s, pos);
            &&& pos <= step.token.pos < step.end <= s.len()
            &&& char_is_alphabetic(s[step.token.pos])
            &&& forall|i: int| step.token.pos <= i < step.end ==> is_ident_part(#[trigger] s[i])
            &&& !(step.end < s.len() && is_ident_part(s[step.end]))
            &&& step.token.kind == keyword_kind(step.token.text)
        }),
    decreases s.len() - pos,
{
    reveal(lex);
    let p = skip_whitespace(s, pos);
    let c = char_at(s, p);
    lemma_skip_whitespace_bounds(s, pos);
    if c == '\0' {
    } else if punctuation(c) is Some {
    } else if char_is_alphabetic(c) {
        lemma_ident_end_bounds(s, p);
        lemma_ident_end_is_maximal(s, p);
    } else if opens_comment(s, p) {
        lemma_comment_end_bounds(s, p);
        word_is_a_maximal_run(s, comment_end(s, p));
    } else {
        word_is_a_maximal_run(s, p + 1);
    }
}

/// From `pos` to where an identifier ends there are identifier characters
/// only, and none stands at the end.
proof fn lemma_ident_end_is_maximal(s: Seq<char>, pos: int)
    requires
        0 <= pos,
    ensures
        forall|i: int| pos <= i < ident_end(s, pos) ==> is_ident_part(#[trigger] s[i]),
        !(ident_end(s, pos) < s.len() && is_ident_part(s[ident_end(s, pos)])),
    decreases s.len() - pos,
{
    if pos < s.len() && is_ident_part(s[pos]) {
        lemma_ident_end_is_maximal(s, pos + 1);
    }
}

/// The end of the input is found again and again: lexing from where an
/// `Eof` token was found gives the same token and raises nothing.
pub proof fn eof_is_found_again(s: Seq<char>, pos: int)
    requires
        0 <= pos,
        lex(s, pos).token.kind == TokenKind::Eof,
    ensures
        lex(s, lex(s, pos).end).token == lex(s, pos).token,
        lex(s, lex(s, pos).end).end == lex(s, pos).end,
        lex(s, lex(s, pos).end).diags == Seq::<DiagnosticView>::empty(),
    decreases s.len() - pos,
{
    reveal(lex);
    let p = skip_whitespace(s, pos);
    let c = char_at(s, p);
    lemma_skip_whitespace_bounds(s, pos);
    if c == '\0' {
    } else if punctuation(c) is Some {
    } else if char_is_alphabetic(c) {
        lemma_keyword_kind_not_eof(s.subrange(p, ident_end(s, p)));
    } else if opens_comment(s, p) {
        lemma_comment_end_bounds(s, p);
        eof_is_found_again(s, comment_end(s, p));
    } else {
        eof_is_found_again(s, p + 1);
    }
}

/// The visibility of a run of keywords is that of its first visibility
/// keyword.
pub proof fn first_visibility_keyword_decides(tokens: Seq<TokenKind>, i: int)
    requires
        0 <= i < tokens.len(),
        tokens[i].visibility(),
        forall|j: int| 0 <= j < i ==> !tokens[j].visibility(),
    ensures
        visibility_of(tokens) == match tokens[i] {
            TokenKind::PrivateKeyword => Capsulation::Private,
            TokenKind::ProtectedKeyword => Capsulation::Protected,
            _ => Capsulation::Public,
        },
    decreases i,
{
    if i > 0 {
        assert(!tokens[0].visibility());
        let rest = tokens.drop_first();
        assert(rest[i - 1] == tokens[i]);
        assert forall|j: int| 0 <= j < i - 1 implies !rest[j].visibility() by {
            assert(rest[j] == tokens[j + 1]);
        }
        first_visibility_keyword_decides(rest, i - 1);
    }
}

/// A run of keywords without a visibility keyword gives `Public`.
pub proof fn no_visibility_keyword_is_public(tokens: Seq<TokenKind>)
    requires
        forall|j: int| 0 <= j < tokens.len() ==> !tokens[j].visibility(),
    ensures
        visibility_of(tokens) == Capsulation::Public,
    decreases tokens.len(),
{
    if tokens.len() > 0 {
        assert(!tokens[0].visibility());
        let rest = tokens.drop_first();
        assert forall|j: int| 0 <= j < rest.len() implies !rest[j].visibility() by {
            assert(rest[j] == tokens[j + 1]);
        }
        no_visibility_keyword_is_public(rest);
    }
}

/// Keywords that name no visibility leave no trace: taking one out of a run
/// of keywords does not change the visibility that the run gives.
pub proof fn other_keywords_leave_no_trace(tokens: Seq<TokenKind>, i: int)
    requires
        0 <= i < tokens.len(),
        !tokens[i].visibility(),
    ensures
        visibility_of(tokens.remove(i)) == visibility_of(tokens),
    decreases i,
{
    if i == 0 {
        assert(tokens.remove(0) =~= tokens.drop_first());
    } else {
        assert(tokens.remove(i)[0] == tokens[0]);
        assert(tokens.remove(i).drop_first() =~= tokens.drop_first().remove(i - 1));
        other_keywords_leave_no_trace(tokens.drop_first(), i - 1);
    }
}

/// The visibility of a member that was parsed is the one that its keywords
/// give; a member declared without a visibility keyword is `Public`.
pub proof fn member_visibility(s: Seq<char>, pos: int)
    requires
        declaration(s, pos).decl is Some,
    ensures
        match declaration(s, pos).decl->0 {
            DeclarationView::Field(field) => field.capsulation == visibility_of(
                modifiers(s, pos).kinds,
            ),
            DeclarationView::Method(method) => method.capsulation == visibility_of(
                modifiers(s, pos).kinds,
            ),
        },
        (forall|j: int|
            0 <= j < modifiers(s, pos).kinds.len() ==> !modifiers(s, pos).kinds[j].visibility())
            ==> match declaration(s, pos).decl->0 {
            DeclarationView::Field(field) => field.capsulation == Capsulation::Public,
            DeclarationView::Method(method) => method.capsulation == Capsulation::Public,
        },
{
    reveal(declaration);
    if forall|j: int|
        0 <= j < modifiers(s, pos).kinds.len() ==> !modifiers(s, pos).kinds[j].visibility() {
        no_visibility_keyword_is_public(modifiers(s, pos).kinds);
    }
}

/// A declaration is a constructor exactly when an opening parenthesis
/// follows its type identifier at once. A constructor is a method without a
/// return type that is named by that identifier; any other method has the
/// identifier as its return type, which is not empty.
pub proof fn constructor_detection(s: Seq<char>, pos: int)
    requires
        0 <= pos,
        declaration(s, pos).decl is Some,
    ensures
        ({
            let ty = expect(s, modifiers(s, pos).end, TokenKind::Identifier);
            let follows = lex(s, ty.end).token.kind == TokenKind::OpenParen;
            match declaration(s, pos).decl->0 {
                DeclarationView::Method(method) => {
                    &&& method.is_constructor() == follows
                    &&& follows ==> method.name == ty.token->0.text
                    &&& !follows ==> method.return_type == ty.token->0.text
                },
                DeclarationView::Field(field) => !follows && field.field_type == ty.token->0.text,
            }
        }),
{
    reveal(declaration);
    let mods = modifiers(s, pos);
    lemma_modifiers_bounds(s, pos);
    token_text_is_source(s, mods.end);
}

/// The text of a constructor ends with its parameter list: no return type
/// follows. The text of any other method ends with a colon, a blank and the
/// return type.
pub proof fn constructor_text_has_no_return_type(method: MethodView)
    ensures
        method.is_constructor() ==> method.render() == seq![method.capsulation.glyph(), ' ']
            + method.name + seq!['('] + render_parameters(method.parameters) + seq![')'],
        !method.is_constructor() ==> method.render() == seq![method.capsulation.glyph(), ' ']
            + method.name + seq!['('] + render_parameters(method.parameters) + seq![')'] + seq![
            ':',
            ' ',
        ] + method.return_type,
{
}

} // verus!
