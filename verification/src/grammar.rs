//! What the parser computes, as functions of the source text and an offset.
//!
//! Each function gives the outcome of one parsing step that starts at `pos`:
//! what was recognised, the offset where the next step starts, and the
//! diagnostics that the step raises, in order. Looking ahead lexes a token
//! without moving, so the diagnostics on the way to a token are raised again
//! each time that token is looked at.

use vstd::prelude::*;
use crate::java::{
    Capsulation, ClassView, DeclarationView, FieldView, MethodView, ParameterView,
};
use crate::parser::DiagnosticView;
use crate::scan::{char_at, lex, lemma_lex_bounds};
use crate::token::{TokenKind, TokenView};

verus! {

/// The message of the diagnostic for a token of the wrong kind.
pub open spec fn unexpected_token_message(found: TokenKind, wanted: TokenKind) -> Seq<char> {
    "Unexpected Token of kind "@ + found.name() + ", expected "@ + wanted.name()
}

/// The outcome of requiring a token of one kind.
pub struct Expected {
    /// The token, if it has the kind asked for.
    pub token: Option<TokenView>,
    pub end: int,
    pub diags: Seq<DiagnosticView>,
}

/// Requires the next token to be of `kind`. A token of another kind is
/// consumed all the same and raises a diagnostic at its own offset.
pub open spec fn expect(s: Seq<char>, pos: int, kind: TokenKind) -> Expected {
    let step = lex(s, pos);
    if step.token.kind == kind {
        Expected { token: Some(step.token), end: step.end, diags: step.diags }
    } else {
        Expected {
            token: None,
            end: step.end,
            diags: step.diags.push(
                DiagnosticView {
                    message: unexpected_token_message(step.token.kind, kind),
                    pos: step.token.pos,
                },
            ),
        }
    }
}

/// The outcome of consuming a token if it is of one kind.
pub struct Accepted {
    pub taken: bool,
    pub end: int,
    pub diags: Seq<DiagnosticView>,
}

/// Consumes the next token if it is of `kind`, and stays at `pos` otherwise.
pub open spec fn accept(s: Seq<char>, pos: int, kind: TokenKind) -> Accepted {
    let step = lex(s, pos);
    if step.token.kind == kind {
        Accepted { taken: true, end: step.end, diags: step.diags }
    } else {
        Accepted { taken: false, end: pos, diags: step.diags }
    }
}

/// The outcome of reading a run of modifier keywords.
pub struct Modifiers {
    pub kinds: Seq<TokenKind>,
    pub end: int,
    pub diags: Seq<DiagnosticView>,
}

/// The kinds of the longest run of modifier keywords from `pos` on. Each of
/// them is looked at and then consumed; the token that ends the run is only
/// looked at. The keyword `class` is no modifier and ends the run.
pub open spec fn modifiers(s: Seq<char>, pos: int) -> Modifiers
    decreases s.len() - pos,
{
    let step = lex(s, pos);
    if step.token.kind.modifier() {
        proof {
            lemma_lex_bounds(s, pos);
        }
        let rest = modifiers(s, step.end);
        Modifiers {
            kinds: seq![step.token.kind] + rest.kinds,
            end: rest.end,
            diags: step.diags + step.diags + rest.diags,
        }
    } else {
        Modifiers { kinds: Seq::empty(), end: pos, diags: step.diags }
    }
}

/// The visibility that a run of keywords gives: that of the first visibility
/// keyword in it, and `Public` where it has none.
pub open spec fn visibility_of(kinds: Seq<TokenKind>) -> Capsulation
    decreases kinds.len(),
{
    if kinds.len() == 0 {
        Capsulation::Public
    } else if kinds[0] == TokenKind::PrivateKeyword {
        Capsulation::Private
    } else if kinds[0] == TokenKind::PublicKeyword {
        Capsulation::Public
    } else if kinds[0] == TokenKind::ProtectedKeyword {
        Capsulation::Protected
    } else {
        visibility_of(kinds.drop_first())
    }
}

/// The outcome of reading a parameter list.
pub struct ParsedParameters {
    /// The parameters in order, or `None` after a token of the wrong kind.
    pub params: Option<Seq<ParameterView>>,
    pub end: int,
    pub diags: Seq<DiagnosticView>,
}

/// The parameters from `pos` up to, and without, the closing parenthesis:
/// pairs of a type and a name, with commas between them. The list also ends
/// behind a parameter that no comma follows.
pub open spec fn parameters(s: Seq<char>, pos: int) -> ParsedParameters
    decreases s.len() - pos,
{
    let ahead = lex(s, pos);
    if ahead.token.kind == TokenKind::CloseParen {
        ParsedParameters { params: Some(Seq::empty()), end: pos, diags: ahead.diags }
    } else {
        let ty = expect(s, pos, TokenKind::Identifier);
        let name = expect(s, ty.end, TokenKind::Identifier);
        let comma = lex(s, name.end);
        if ty.token is None {
            ParsedParameters { params: None, end: ty.end, diags: ahead.diags + ty.diags }
        } else if name.token is None {
            ParsedParameters {
                params: None,
                end: name.end,
                diags: ahead.diags + ty.diags + name.diags,
            }
        } else {
            let param = ParameterView { param_type: ty.token->0.text, name: name.token->0.text };
            if comma.token.kind != TokenKind::Comma {
                ParsedParameters {
                    params: Some(seq![param]),
                    end: name.end,
                    diags: ahead.diags + ty.diags + name.diags + comma.diags,
                }
            } else {
                proof {
                    lemma_lex_bounds(s, pos);
                    lemma_lex_bounds(s, ty.end);
                    lemma_lex_bounds(s, name.end);
                }
                let rest = parameters(s, comma.end);
                ParsedParameters {
                    params: match rest.params {
                        Some(more) => Some(seq![param] + more),
                        None => None,
                    },
                    end: rest.end,
                    diags: ahead.diags + ty.diags + name.diags + comma.diags + comma.diags
                        + rest.diags,
                }
            }
        }
    }
}

/// Where the raw scan of a method body stops: behind the brace that brings
/// the nesting `depth` to zero, or at the end of the input. Braces are
/// counted wherever they stand, in comments and literals too.
pub open spec fn block_end(s: Seq<char>, pos: int, depth: int) -> int
    decreases s.len() - pos,
{
    if depth == 0 || char_at(s, pos) == '\0' {
        pos
    } else if s[pos] == '}' {
        block_end(s, pos + 1, depth - 1)
    } else if s[pos] == '{' {
        block_end(s, pos + 1, depth + 1)
    } else {
        block_end(s, pos + 1, depth)
    }
}

/// The first offset at or after `pos` that holds a semicolon or ends the
/// input.
pub open spec fn initializer_end(s: Seq<char>, pos: int) -> int
    decreases s.len() - pos,
{
    if char_at(s, pos) != ';' && char_at(s, pos) != '\0' {
        initializer_end(s, pos + 1)
    } else {
        pos
    }
}

/// The outcome of a step that recognises without building anything.
pub struct Passed {
    pub ok: bool,
    pub end: int,
    pub diags: Seq<DiagnosticView>,
}

/// What follows the parameter list of a method: the closing parenthesis,
/// then either a semicolon or a body in braces, which is skipped unread.
pub open spec fn method_end(s: Seq<char>, pos: int) -> Passed {
    let close = expect(s, pos, TokenKind::CloseParen);
    let semi = accept(s, close.end, TokenKind::SemiColon);
    let open = expect(s, close.end, TokenKind::OpenCurly);
    if close.token is None {
        Passed { ok: false, end: close.end, diags: close.diags }
    } else if semi.taken {
        Passed { ok: true, end: semi.end, diags: close.diags + semi.diags }
    } else if open.token is None {
        Passed { ok: false, end: open.end, diags: close.diags + semi.diags + open.diags }
    } else {
        Passed {
            ok: true,
            end: block_end(s, open.end, 1),
            diags: close.diags + semi.diags + open.diags,
        }
    }
}

/// What follows the name of a field: an optional initializer, skipped unread
/// from behind the `=` to the next semicolon, and the semicolon.
pub open spec fn field_end(s: Seq<char>, pos: int) -> Passed {
    let ahead = lex(s, pos);
    if ahead.token.kind == TokenKind::Equal {
        let semi = expect(s, initializer_end(s, ahead.end), TokenKind::SemiColon);
        Passed {
            ok: semi.token is Some,
            end: semi.end,
            diags: ahead.diags + ahead.diags + semi.diags,
        }
    } else {
        let semi = expect(s, pos, TokenKind::SemiColon);
        Passed { ok: semi.token is Some, end: semi.end, diags: ahead.diags + semi.diags }
    }
}

/// What the start of a declaration settles.
pub struct Head {
    pub capsulation: Capsulation,
    /// The identifier read as the type.
    pub declared_type: Seq<char>,
    /// The name of the member; for a constructor the same identifier again.
    pub name: Seq<char>,
    pub is_constructor: bool,
}

/// The outcome of reading the start of a declaration.
pub struct ParsedHead {
    /// The head, or `None` after a token of the wrong kind.
    pub head: Option<Head>,
    pub end: int,
    pub diags: Seq<DiagnosticView>,
}

/// The start of the declaration at `pos`: a run of keywords, which gives the
/// visibility, an identifier, which gives the type, and the name. If an
/// opening parenthesis follows the type at once, the declaration is a
/// constructor and the type is its name; otherwise a second identifier is
/// the name.
pub open spec fn declaration_head(s: Seq<char>, pos: int) -> ParsedHead {
    let mods = modifiers(s, pos);
    let ty = expect(s, mods.end, TokenKind::Identifier);
    let ahead = lex(s, ty.end);
    let name = expect(s, ty.end, TokenKind::Identifier);
    if ty.token is None {
        ParsedHead { head: None, end: ty.end, diags: mods.diags + ty.diags }
    } else if ahead.token.kind == TokenKind::OpenParen {
        ParsedHead {
            head: Some(
                Head {
                    capsulation: visibility_of(mods.kinds),
                    declared_type: ty.token->0.text,
                    name: ty.token->0.text,
                    is_constructor: true,
                },
            ),
            end: ty.end,
            diags: mods.diags + ty.diags + ahead.diags,
        }
    } else {
        ParsedHead {
            head: if name.token is Some {
                Some(
                    Head {
                        capsulation: visibility_of(mods.kinds),
                        declared_type: ty.token->0.text,
                        name: name.token->0.text,
                        is_constructor: false,
                    },
                )
            } else {
                None
            },
            end: name.end,
            diags: mods.diags + ty.diags + ahead.diags + name.diags,
        }
    }
}

/// The outcome of reading a method from behind its opening parenthesis.
pub struct ParsedSignature {
    /// The parameters, or `None` after a token of the wrong kind.
    pub params: Option<Seq<ParameterView>>,
    pub end: int,
    pub diags: Seq<DiagnosticView>,
}

/// The rest of a method from behind its opening parenthesis: the parameters,
/// the closing parenthesis, and a semicolon or a body.
pub open spec fn method_rest(s: Seq<char>, pos: int) -> ParsedSignature {
    let params = parameters(s, pos);
    let tail = method_end(s, params.end);
    if params.params is None {
        ParsedSignature { params: None, end: params.end, diags: params.diags }
    } else {
        ParsedSignature {
            params: if tail.ok {
                params.params
            } else {
                None
            },
            end: tail.end,
            diags: params.diags + tail.diags,
        }
    }
}

/// The outcome of parsing one declaration.
pub struct ParsedDeclaration {
    /// The declaration, or `None` after a token of the wrong kind.
    pub decl: Option<DeclarationView>,
    pub end: int,
    pub diags: Seq<DiagnosticView>,
}

/// The declaration that starts at `pos`: its head, and then, if an opening
/// parenthesis follows the name, the rest of a method, else the rest of a
/// field. A constructor is a method without a return type.
#[verifier::opaque]
pub open spec fn declaration(s: Seq<char>, pos: int) -> ParsedDeclaration {
    let start = declaration_head(s, pos);
    let open = accept(s, start.end, TokenKind::OpenParen);
    let method = method_rest(s, open.end);
    let field = field_end(s, start.end);
    if start.head is None {
        ParsedDeclaration { decl: None, end: start.end, diags: start.diags }
    } else if open.taken {
        ParsedDeclaration {
            decl: if method.params is Some {
                Some(
                    DeclarationView::Method(
                        MethodView {
                            name: start.head->0.name,
                            return_type: if start.head->0.is_constructor {
                                Seq::empty()
                            } else {
                                start.head->0.declared_type
                            },
                            parameters: method.params->0,
                            capsulation: start.head->0.capsulation,
                        },
                    ),
                )
            } else {
                None
            },
            end: method.end,
            diags: start.diags + open.diags + method.diags,
        }
    } else {
        ParsedDeclaration {
            decl: if field.ok {
                Some(
                    DeclarationView::Field(
                        FieldView {
                            name: start.head->0.name,
                            field_type: start.head->0.declared_type,
                            capsulation: start.head->0.capsulation,
                        },
                    ),
                )
            } else {
                None
            },
            end: field.end,
            diags: start.diags + open.diags + field.diags,
        }
    }
}

/// Every step ends at or behind the offset it started at, and within a text
/// that it started in.
pub proof fn lemma_expect_bounds(s: Seq<char>, pos: int, kind: TokenKind)
    ensures
        pos <= expect(s, pos, kind).end,
        pos <= s.len() ==> expect(s, pos, kind).end <= s.len(),
        expect(s, pos, kind).token is Some && kind != TokenKind::Eof ==> pos < expect(
            s,
            pos,
            kind,
        ).end <= s.len(),
{
    lemma_lex_bounds(s, pos);
}

/// An optional token ends at or behind the offset it started at, within the
/// text.
pub proof fn lemma_accept_bounds(s: Seq<char>, pos: int, kind: TokenKind)
    ensures
        pos <= accept(s, pos, kind).end,
        pos <= s.len() ==> accept(s, pos, kind).end <= s.len(),
{
    lemma_lex_bounds(s, pos);
}

/// A run of keywords ends at or behind the offset it started at, within the
/// text.
pub proof fn lemma_modifiers_bounds(s: Seq<char>, pos: int)
    ensures
        pos <= modifiers(s, pos).end,
        pos <= s.len() ==> modifiers(s, pos).end <= s.len(),
    decreases s.len() - pos,
{
    lemma_lex_bounds(s, pos);
    if lex(s, pos).token.kind.modifier() {
        lemma_modifiers_bounds(s, lex(s, pos).end);
    }
}

/// A parameter list ends at or behind the offset it started at, within the
/// text.
pub proof fn lemma_parameters_bounds(s: Seq<char>, pos: int)
    ensures
        pos <= parameters(s, pos).end,
        pos <= s.len() ==> parameters(s, pos).end <= s.len(),
    decreases s.len() - pos,
{
    let ty = expect(s, pos, TokenKind::Identifier);
    let name = expect(s, ty.end, TokenKind::Identifier);
    let comma = lex(s, name.end);
    lemma_lex_bounds(s, pos);
    lemma_expect_bounds(s, pos, TokenKind::Identifier);
    lemma_expect_bounds(s, ty.end, TokenKind::Identifier);
    lemma_lex_bounds(s, name.end);
    if lex(s, pos).token.kind != TokenKind::CloseParen && ty.token is Some && name.token is Some
        && comma.token.kind == TokenKind::Comma {
        lemma_parameters_bounds(s, comma.end);
    }
}

/// The scan of a method body ends at or behind the offset it started at,
/// within the text.
pub proof fn lemma_block_end_bounds(s: Seq<char>, pos: int, depth: int)
    ensures
        pos <= block_end(s, pos, depth),
        pos <= s.len() ==> block_end(s, pos, depth) <= s.len(),
    decreases s.len() - pos,
{
    if !(depth == 0 || char_at(s, pos) == '\0') {
        if s[pos] == '}' {
            lemma_block_end_bounds(s, pos + 1, depth - 1);
        } else if s[pos] == '{' {
            lemma_block_end_bounds(s, pos + 1, depth + 1);
        } else {
            lemma_block_end_bounds(s, pos + 1, depth);
        }
    }
}

/// The scan of an initializer ends at or behind the offset it started at,
/// within the text.
pub proof fn lemma_initializer_end_bounds(s: Seq<char>, pos: int)
    ensures
        pos <= initializer_end(s, pos),
        pos <= s.len() ==> initializer_end(s, pos) <= s.len(),
    decreases s.len() - pos,
{
    if char_at(s, pos) != ';' && char_at(s, pos) != '\0' {
        lemma_initializer_end_bounds(s, pos + 1);
    }
}

/// The end of a method ends at or behind the offset it started at, within
/// the text.
pub proof fn lemma_method_end_bounds(s: Seq<char>, pos: int)
    ensures
        pos <= method_end(s, pos).end,
        pos <= s.len() ==> method_end(s, pos).end <= s.len(),
{
    let close = expect(s, pos, TokenKind::CloseParen);
    let open = expect(s, close.end, TokenKind::OpenCurly);
    lemma_expect_bounds(s, pos, TokenKind::CloseParen);
    lemma_accept_bounds(s, close.end, TokenKind::SemiColon);
    lemma_expect_bounds(s, close.end, TokenKind::OpenCurly);
    lemma_block_end_bounds(s, open.end, 1);
}

/// The end of a field ends at or behind the offset it started at, within
/// the text.
pub proof fn lemma_field_end_bounds(s: Seq<char>, pos: int)
    ensures
        pos <= field_end(s, pos).end,
        pos <= s.len() ==> field_end(s, pos).end <= s.len(),
{
    let ahead = lex(s, pos);
    lemma_lex_bounds(s, pos);
    lemma_initializer_end_bounds(s, ahead.end);
    lemma_expect_bounds(s, initializer_end(s, ahead.end), TokenKind::SemiColon);
    lemma_expect_bounds(s, pos, TokenKind::SemiColon);
}

/// The head of a declaration ends within the text, and a head that was
/// recognised holds at least one character.
pub proof fn lemma_declaration_head_bounds(s: Seq<char>, pos: int)
    ensures
        pos <= declaration_head(s, pos).end,
        pos <= s.len() ==> declaration_head(s, pos).end <= s.len(),
        declaration_head(s, pos).head is Some ==> pos < declaration_head(s, pos).end <= s.len(),
{
    let mods = modifiers(s, pos);
    let ty = expect(s, mods.end, TokenKind::Identifier);
    lemma_modifiers_bounds(s, pos);
    lemma_expect_bounds(s, mods.end, TokenKind::Identifier);
    lemma_expect_bounds(s, ty.end, TokenKind::Identifier);
}

/// The rest of a method ends at or behind the offset it started at, within
/// the text.
pub proof fn lemma_method_rest_bounds(s: Seq<char>, pos: int)
    ensures
        pos <= method_rest(s, pos).end,
        pos <= s.len() ==> method_rest(s, pos).end <= s.len(),
{
    lemma_parameters_bounds(s, pos);
    lemma_method_end_bounds(s, parameters(s, pos).end);
}

/// A declaration ends within the text, and a declaration that was recognised
/// holds at least one character.
pub proof fn lemma_declaration_bounds(s: Seq<char>, pos: int)
    ensures
        pos <= declaration(s, pos).end,
        pos <= s.len() ==> declaration(s, pos).end <= s.len(),
        declaration(s, pos).decl is Some ==> pos < declaration(s, pos).end <= s.len(),
{
    reveal(declaration);
    let start = declaration_head(s, pos);
    let open = accept(s, start.end, TokenKind::OpenParen);
    lemma_declaration_head_bounds(s, pos);
    lemma_accept_bounds(s, start.end, TokenKind::OpenParen);
    lemma_method_rest_bounds(s, open.end);
    lemma_field_end_bounds(s, start.end);
}

/// The outcome of reading the members of a class body.
pub struct ParsedMembers {
    pub ok: bool,
    pub fields: Seq<FieldView>,
    pub methods: Seq<MethodView>,
    pub end: int,
    pub diags: Seq<DiagnosticView>,
}

/// The declarations from `pos` up to, and without, the closing brace or the
/// end of the input, each filed under the fields or the methods in the order
/// of the source. The first declaration that fails ends the reading.
pub open spec fn members(s: Seq<char>, pos: int) -> ParsedMembers
    decreases s.len() - pos,
{
    let ahead = lex(s, pos);
    let first = declaration(s, pos);
    if ahead.token.kind == TokenKind::CloseCurly || ahead.token.kind == TokenKind::Eof {
        ParsedMembers {
            ok: true,
            fields: Seq::empty(),
            methods: Seq::empty(),
            end: pos,
            diags: ahead.diags,
        }
    } else if first.decl is None {
        ParsedMembers {
            ok: false,
            fields: Seq::empty(),
            methods: Seq::empty(),
            end: first.end,
            diags: ahead.diags + first.diags,
        }
    } else {
        proof {
            lemma_declaration_bounds(s, pos);
        }
        let rest = members(s, first.end);
        ParsedMembers {
            ok: rest.ok,
            fields: match first.decl->0 {
                DeclarationView::Field(field) => seq![field] + rest.fields,
                DeclarationView::Method(_) => rest.fields,
            },
            methods: match first.decl->0 {
                DeclarationView::Field(_) => rest.methods,
                DeclarationView::Method(method) => seq![method] + rest.methods,
            },
            end: rest.end,
            diags: ahead.diags + first.diags + rest.diags,
        }
    }
}

/// The members of a class end at or behind the offset they started at,
/// within the text.
pub proof fn lemma_members_bounds(s: Seq<char>, pos: int)
    ensures
        pos <= members(s, pos).end,
        pos <= s.len() ==> members(s, pos).end <= s.len(),
    decreases s.len() - pos,
{
    let ahead = lex(s, pos);
    let first = declaration(s, pos);
    lemma_declaration_bounds(s, pos);
    if !(ahead.token.kind == TokenKind::CloseCurly || ahead.token.kind == TokenKind::Eof)
        && first.decl is Some {
        lemma_members_bounds(s, first.end);
    }
}

/// The outcome of parsing a class declaration.
pub struct ParsedClass {
    /// The class, or `None` after a token of the wrong kind.
    pub class: Option<ClassView>,
    pub end: int,
    pub diags: Seq<DiagnosticView>,
}

/// The class declaration that starts at `pos`: the keyword `class`, the name,
/// and the members between braces.
pub open spec fn class_declaration(s: Seq<char>, pos: int) -> ParsedClass {
    let keyword = expect(s, pos, TokenKind::ClassKeyword);
    let name = expect(s, keyword.end, TokenKind::Identifier);
    let open = expect(s, name.end, TokenKind::OpenCurly);
    let body = members(s, open.end);
    let close = expect(s, body.end, TokenKind::CloseCurly);
    if keyword.token is None {
        ParsedClass { class: None, end: keyword.end, diags: keyword.diags }
    } else if name.token is None {
        ParsedClass { class: None, end: name.end, diags: keyword.diags + name.diags }
    } else if open.token is None {
        ParsedClass {
            class: None,
            end: open.end,
            diags: keyword.diags + name.diags + open.diags,
        }
    } else if !body.ok {
        ParsedClass {
            class: None,
            end: body.end,
            diags: keyword.diags + name.diags + open.diags + body.diags,
        }
    } else {
        ParsedClass {
            class: if close.token is Some {
                Some(
                    ClassView {
                        name: name.token->0.text,
                        fields: body.fields,
                        methods: body.methods,
                    },
                )
            } else {
                None
            },
            end: close.end,
            diags: keyword.diags + name.diags + open.diags + body.diags + close.diags,
        }
    }
}

/// A class declaration ends at or behind the offset it started at, and
/// within a text that it started in.
pub proof fn lemma_class_declaration_bounds(s: Seq<char>, pos: int)
    ensures
        pos <= class_declaration(s, pos).end,
        pos <= s.len() ==> class_declaration(s, pos).end <= s.len(),
{
    let keyword = expect(s, pos, TokenKind::ClassKeyword);
    let name = expect(s, keyword.end, TokenKind::Identifier);
    let open = expect(s, name.end, TokenKind::OpenCurly);
    let body = members(s, open.end);
    lemma_expect_bounds(s, pos, TokenKind::ClassKeyword);
    lemma_expect_bounds(s, keyword.end, TokenKind::Identifier);
    lemma_expect_bounds(s, name.end, TokenKind::OpenCurly);
    lemma_members_bounds(s, open.end);
    lemma_expect_bounds(s, body.end, TokenKind::CloseCurly);
}

} // verus!
