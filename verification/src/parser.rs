//! The lexer and the recursive-descent parser of a class declaration.

use vstd::prelude::*;
use crate::chars::{ident_part, whitespace};
use crate::decimal::{decimal, decimal_text};
use crate::scan::{
    bad_character_message, block_comment_end, char_at, lemma_comment_end_bounds,
    lemma_ident_end_to, lemma_lex_bounds, lemma_skip_whitespace_to, lex, line_end, punctuation,
};
use crate::grammar::{
    accept, block_end, class_declaration, declaration, declaration_head, expect, field_end,
    initializer_end, lemma_class_declaration_bounds, lemma_declaration_bounds,
    lemma_expect_bounds, members, method_end, method_rest, modifiers, parameters,
    unexpected_token_message, visibility_of, Head,
};
use crate::java::{Capsulation, Class, Declaration, Field, Method, Parameter, Type};
use crate::token::{Token, TokenKind};

verus! {

/// What a diagnostic is in contracts.
pub struct DiagnosticView {
    pub message: Seq<char>,
    pub pos: int,
}

/// A problem found while reading the source, with the offset it was found at.
#[derive(Debug)]
pub struct Diagnostic {
    pub message: String,
    pub pos: usize,
}

impl View for Diagnostic {
    type V = DiagnosticView;

    open spec fn view(&self) -> DiagnosticView {
        DiagnosticView { message: self.message@, pos: self.pos as int }
    }
}

impl DiagnosticView {
    /// The line that reports the diagnostic: the offset in parentheses, and
    /// the message.
    pub open spec fn line(self) -> Seq<char> {
        "(pos "@ + decimal(self.pos as nat) + ") Parsing Error: "@ + self.message
    }
}

impl Diagnostic {
    /// The line that reports the diagnostic to the user.
    pub fn to_string(&self) -> (line: String)
        ensures
            line@ == self@.line(),
    {
        let mut line = String::from_str("(pos ");
        line.append(decimal_text(self.pos).as_str());
        line.append(") Parsing Error: ");
        line.append(self.message.as_str());
        line
    }
}

/// The diagnostics of a list, each by its view.
pub open spec fn diagnostic_views(v: Seq<Diagnostic>) -> Seq<DiagnosticView> {
    v.map_values(|d: Diagnostic| d@)
}

/// A cursor into a source text, with the diagnostics raised so far.
pub struct Parser<'s> {
    source: &'s str,
    pos: usize,
    pub diagnostics: Vec<Diagnostic>,
}

impl<'s> Parser<'s> {
    /// The source text.
    pub closed spec fn text(&self) -> Seq<char> {
        self.source@
    }

    /// The offset of the next character to read.
    pub closed spec fn cursor(&self) -> int {
        self.pos as int
    }

    /// The diagnostics raised so far.
    pub closed spec fn reports(&self) -> Seq<DiagnosticView> {
        diagnostic_views(self.diagnostics@)
    }

    /// The cursor stands within the text or at its end.
    pub open spec fn in_text(&self) -> bool {
        0 <= self.cursor() <= self.text().len()
    }

    /// A parser at the start of `source`, with no diagnostics.
    pub fn new(source: &'s str) -> (parser: Parser<'s>)
        ensures
            parser.text() == source@,
            parser.cursor() == 0,
            parser.reports() == Seq::<DiagnosticView>::empty(),
            parser.in_text(),
    {
        let parser = Parser { source, pos: 0, diagnostics: Vec::new() };
        assert(parser.reports() =~= Seq::<DiagnosticView>::empty());
        parser
    }

    /// The diagnostics raised so far.
    pub fn diagnostics(&self) -> (diagnostics: &Vec<Diagnostic>)
        ensures
            diagnostic_views(diagnostics@) == self.reports(),
    {
        &self.diagnostics
    }

    /// The character `offset` places after the cursor.
    fn nth_chr(&self, offset: usize) -> (c: char)
        ensures
            c == char_at(self.source@, self.pos + offset),
    {
        let len = self.source.unicode_len();
        match self.pos.checked_add(offset) {
            Some(i) => {
                if i < len {
                    self.source.get_char(i)
                } else {
                    '\0'
                }
            },
            None => '\0',
        }
    }

    /// The character at the cursor.
    fn curr_chr(&self) -> (c: char)
        ensures
            c == char_at(self.source@, self.pos as int),
    {
        if self.pos < self.source.unicode_len() {
            self.source.get_char(self.pos)
        } else {
            '\0'
        }
    }

    /// Moves the cursor over the characters that `pred` accepts, up to the
    /// first one that it refuses or to the end of the text.
    fn chr_drop_while<F: Fn(char) -> bool>(&mut self, pred: F)
        requires
            forall|c: char| #[trigger] pred.requires((c,)),
        ensures
            final(self).source@ == old(self).source@,
            final(self).diagnostics == old(self).diagnostics,
            old(self).pos <= final(self).pos,
            final(self).pos == old(self).pos || final(self).pos <= old(self).source@.len(),
            forall|i: int|
                old(self).pos <= i < final(self).pos ==> pred.ensures(
                    (#[trigger] old(self).source@[i],),
                    true,
                ),
            final(self).pos < old(self).source@.len() ==> pred.ensures(
                (old(self).source@[final(self).pos as int],),
                false,
            ),
    {
        let len = self.source.unicode_len();
        while self.pos < len && pred(self.source.get_char(self.pos))
            invariant
                len == self.source@.len(),
                self.source@ == old(self).source@,
                self.diagnostics == old(self).diagnostics,
                old(self).pos <= self.pos,
                self.pos == old(self).pos || self.pos <= len,
                forall|c: char| #[trigger] pred.requires((c,)),
                forall|i: int|
                    old(self).pos <= i < self.pos ==> pred.ensures(
                        (#[trigger] self.source@[i],),
                        true,
                    ),
            decreases len - self.pos,
        {
            self.pos += 1;
        }
    }

    /// Moves the cursor as [`Parser::chr_drop_while`] does and returns the
    /// characters passed over.
    fn chr_take_while<F: Fn(char) -> bool>(&mut self, pred: F) -> (out: String)
        requires
            old(self).pos <= old(self).source@.len(),
            forall|c: char| #[trigger] pred.requires((c,)),
        ensures
            final(self).source@ == old(self).source@,
            final(self).diagnostics == old(self).diagnostics,
            old(self).pos <= final(self).pos <= old(self).source@.len(),
            forall|i: int|
                old(self).pos <= i < final(self).pos ==> pred.ensures(
                    (#[trigger] old(self).source@[i],),
                    true,
                ),
            final(self).pos < old(self).source@.len() ==> pred.ensures(
                (old(self).source@[final(self).pos as int],),
                false,
            ),
            out@ == old(self).source@.subrange(old(self).pos as int, final(self).pos as int),
    {
        let start = self.pos;
        self.chr_drop_while(pred);
        String::from_str(self.source.substring_char(start, self.pos))
    }

    /// The kind and the text of the single-character token that `c` is, if
    /// it is one.
    fn punctuation_token(c: char) -> (r: Option<(TokenKind, &'static str)>)
        ensures
            match r {
                Some((kind, text)) => punctuation(c) == Some(kind) && text@ == seq![c],
                None => punctuation(c) is None,
            },
    {
        proof {
            reveal_strlit("{");
            reveal_strlit("}");
            reveal_strlit("(");
            reveal_strlit(")");
            reveal_strlit(";");
            reveal_strlit(",");
            reveal_strlit("=");
        }
        if c == '{' {
            assert("{"@ =~= seq![c]);
            Some((TokenKind::OpenCurly, "{"))
        } else if c == '}' {
            assert("}"@ =~= seq![c]);
            Some((TokenKind::CloseCurly, "}"))
        } else if c == '(' {
            assert("("@ =~= seq![c]);
            Some((TokenKind::OpenParen, "("))
        } else if c == ')' {
            assert(")"@ =~= seq![c]);
            Some((TokenKind::CloseParen, ")"))
        } else if c == ';' {
            assert(";"@ =~= seq![c]);
            Some((TokenKind::SemiColon, ";"))
        } else if c == ',' {
            assert(","@ =~= seq![c]);
            Some((TokenKind::Comma, ","))
        } else if c == '=' {
            assert("="@ =~= seq![c]);
            Some((TokenKind::Equal, "="))
        } else {
            None
        }
    }

    /// Moves the cursor from the second character of a line comment to the
    /// line feed or the end of input that closes it.
    fn skip_line_comment(&mut self)
        ensures
            final(self).source@ == old(self).source@,
            final(self).diagnostics == old(self).diagnostics,
            final(self).pos == line_end(old(self).source@, old(self).pos as int),
    {
        let len = self.source.unicode_len();
        loop
            invariant
                len == self.source@.len(),
                self.source@ == old(self).source@,
                self.diagnostics == old(self).diagnostics,
                line_end(self.source@, self.pos as int) == line_end(
                    old(self).source@,
                    old(self).pos as int,
                ),
            decreases self.source@.len() - self.pos,
        {
            let c = self.curr_chr();
            if c == '\n' || c == '\0' {
                return ;
            }
            self.pos += 1;
        }
    }

    /// Moves the cursor from the inside of a block comment behind the `*/`
    /// that closes it, or to the end of the text where nothing closes it.
    fn skip_block_comment(&mut self)
        requires
            old(self).pos <= old(self).source@.len(),
        ensures
            final(self).source@ == old(self).source@,
            final(self).diagnostics == old(self).diagnostics,
            final(self).pos == block_comment_end(old(self).source@, old(self).pos as int),
    {
        let len = self.source.unicode_len();
        while self.pos < len
            invariant
                len == self.source@.len(),
                self.pos <= len,
                self.source@ == old(self).source@,
                self.diagnostics == old(self).diagnostics,
                block_comment_end(self.source@, self.pos as int) == block_comment_end(
                    old(self).source@,
                    old(self).pos as int,
                ),
            decreases len - self.pos,
        {
            if self.curr_chr() == '*' && self.nth_chr(1) == '/' {
                self.pos += 2;
                return ;
            }
            self.pos += 1;
        }
    }

    /// Reads the token that starts at or after the cursor and moves the
    /// cursor behind it.
    pub fn consume_token(&mut self) -> (token: Token)
        ensures
            final(self).text() == old(self).text(),
            token@ == lex(old(self).text(), old(self).cursor()).token,
            final(self).cursor() == lex(old(self).text(), old(self).cursor()).end,
            final(self).reports() == old(self).reports() + lex(
                old(self).text(),
                old(self).cursor(),
            ).diags,
            0 <= old(self).cursor() <= final(self).cursor(),
            old(self).in_text() ==> final(self).in_text(),
    {
        proof {
            lemma_lex_bounds(self.source@, self.pos as int);
        }
        let len = self.source.unicode_len();
        loop
            invariant
                len == self.source@.len(),
                self.source@ == old(self).source@,
                lex(self.source@, self.pos as int).token == lex(
                    old(self).source@,
                    old(self).pos as int,
                ).token,
                lex(self.source@, self.pos as int).end == lex(
                    old(self).source@,
                    old(self).pos as int,
                ).end,
                old(self).pos <= lex(old(self).source@, old(self).pos as int).end,
                old(self).pos <= len ==> lex(old(self).source@, old(self).pos as int).end <= len,
                self.reports() + lex(self.source@, self.pos as int).diags == old(self).reports()
                    + lex(old(self).source@, old(self).pos as int).diags,
            decreases len - self.pos,
        {
            let ghost from = self.pos as int;
            let ghost before = self.reports();
            self.chr_drop_while(whitespace);
            proof {
                reveal(lex);
                lemma_skip_whitespace_to(self.source@, from, self.pos as int);
            }
            let start = self.pos;
            let c = self.curr_chr();
            if c == '\0' {
                assert(self.reports() + Seq::<DiagnosticView>::empty() =~= self.reports());
                return Token::new(TokenKind::Eof, String::from_str("\0"), start);
            }
            if let Some((kind, text)) = Self::punctuation_token(c) {
                self.pos += 1;
                assert(self.reports() + Seq::<DiagnosticView>::empty() =~= self.reports());
                return Token::new(kind, String::from_str(text), start);
            }
            if c.is_alphabetic() {
                let ident = self.chr_take_while(ident_part);
                proof {
                    lemma_ident_end_to(self.source@, start as int, self.pos as int);
                }
                assert(self.reports() + Seq::<DiagnosticView>::empty() =~= self.reports());
                let kind = TokenKind::keyword_from_str(ident.as_str());
                return Token::new(kind, ident, start);
            }
            let next = self.nth_chr(1);
            if c == '/' && (next == '/' || next == '*') {
                proof {
                    lemma_comment_end_bounds(self.source@, start as int);
                }
                self.pos += 1;
                if next == '/' {
                    self.skip_line_comment();
                } else {
                    self.pos += 1;
                    self.skip_block_comment();
                }
            } else {
                let message = String::from_str("Bad character input '").concat(
                    self.source.substring_char(start, start + 1),
                ).concat("'");
                assert(message@ =~= bad_character_message(c));
                self.report_diagnostic(message, start);
                self.pos += 1;
                assert(self.reports() + lex(self.source@, self.pos as int).diags =~= before + lex(
                    self.source@,
                    from,
                ).diags);
            }
        }
    }


    /// Appends a diagnostic.
    fn report_diagnostic(&mut self, message: String, pos: usize)
        ensures
            final(self).source@ == old(self).source@,
            final(self).pos == old(self).pos,
            final(self).reports() == old(self).reports().push(
                DiagnosticView { message: message@, pos: pos as int },
            ),
    {
        self.diagnostics.push(Diagnostic { message, pos });
        assert(self.reports() =~= old(self).reports().push(
            DiagnosticView { message: message@, pos: pos as int },
        ));
    }
    /// Reads the token that starts at or after the cursor without moving the
    /// cursor. What the lexer reports on the way to the token is reported.
    pub fn curr_token(&mut self) -> (token: Token)
        ensures
            final(self).text() == old(self).text(),
            final(self).cursor() == old(self).cursor(),
            token@ == lex(old(self).text(), old(self).cursor()).token,
            final(self).reports() == old(self).reports() + lex(
                old(self).text(),
                old(self).cursor(),
            ).diags,
            0 <= final(self).cursor(),
    {
        let pos = self.pos;
        let token = self.consume_token();
        self.pos = pos;
        token
    }

    /// Reads the next token and returns it if it is of `kind`. A token of
    /// another kind is consumed too, and reported.
    pub fn consume_expected(&mut self, kind: TokenKind) -> (r: Option<Token>)
        ensures
            final(self).text() == old(self).text(),
            final(self).cursor() == expect(old(self).text(), old(self).cursor(), kind).end,
            final(self).reports() == old(self).reports() + expect(
                old(self).text(),
                old(self).cursor(),
                kind,
            ).diags,
            r.deep_view() == expect(old(self).text(), old(self).cursor(), kind).token,
            0 <= old(self).cursor() <= final(self).cursor(),
            old(self).in_text() ==> final(self).in_text(),
    {
        let ghost step = lex(self.source@, self.pos as int);
        let token = self.consume_token();
        if token.kind != kind {
            let message = String::from_str("Unexpected Token of kind ").concat(
                token.kind.to_str(),
            ).concat(", expected ").concat(kind.to_str());
            self.report_diagnostic(message, token.pos);
            assert(self.reports() =~= old(self).reports() + step.diags.push(
                DiagnosticView {
                    message: unexpected_token_message(step.token.kind, kind),
                    pos: step.token.pos,
                },
            ));
            None
        } else {
            Some(token)
        }
    }

    /// Reads the next token and keeps it consumed only if it is of `kind`.
    pub fn consume_optional(&mut self, kind: TokenKind) -> (taken: bool)
        ensures
            final(self).text() == old(self).text(),
            final(self).cursor() == accept(old(self).text(), old(self).cursor(), kind).end,
            final(self).reports() == old(self).reports() + accept(
                old(self).text(),
                old(self).cursor(),
                kind,
            ).diags,
            taken == accept(old(self).text(), old(self).cursor(), kind).taken,
            0 <= old(self).cursor() <= final(self).cursor(),
            old(self).in_text() ==> final(self).in_text(),
    {
        let pos = self.pos;
        let token = self.consume_token();
        if token.kind == kind {
            true
        } else {
            self.pos = pos;
            false
        }
    }

    /// Reads the run of modifier keywords at the cursor and returns their
    /// kinds.
    fn parse_keywords(&mut self) -> (keywords: Vec<TokenKind>)
        ensures
            final(self).source@ == old(self).source@,
            final(self).pos == modifiers(old(self).source@, old(self).pos as int).end,
            final(self).reports() == old(self).reports() + modifiers(
                old(self).source@,
                old(self).pos as int,
            ).diags,
            keywords@ == modifiers(old(self).source@, old(self).pos as int).kinds,
    {
        let mut keywords: Vec<TokenKind> = Vec::new();
        let ghost all = modifiers(self.source@, self.pos as int);
        assert(keywords@ + all.kinds =~= all.kinds);
        loop
            invariant
                self.source@ == old(self).source@,
                all == modifiers(old(self).source@, old(self).pos as int),
                keywords@ + modifiers(self.source@, self.pos as int).kinds == all.kinds,
                modifiers(self.source@, self.pos as int).end == all.end,
                self.reports() + modifiers(self.source@, self.pos as int).diags == old(
                    self,
                ).reports() + all.diags,
            decreases self.source@.len() - self.pos,
        {
            let ghost here = modifiers(self.source@, self.pos as int);
            let ghost step = lex(self.source@, self.pos as int);
            let ghost before = self.reports();
            let ghost seen = keywords@;
            proof {
                lemma_lex_bounds(self.source@, self.pos as int);
            }
            let ahead = self.curr_token();
            if !ahead.kind.is_modifier() {
                assert(seen + here.kinds =~= seen);
                return keywords;
            }
            let token = self.consume_token();
            keywords.push(token.kind);
            proof {
                let rest = modifiers(self.source@, self.pos as int);
                assert(keywords@ + rest.kinds =~= seen + here.kinds);
                assert(self.reports() + rest.diags =~= before + here.diags);
            }
        }
    }

    /// The visibility that a run of keywords gives.
    fn capsulation_of(keywords: &Vec<TokenKind>) -> (capsulation: Capsulation)
        ensures
            capsulation == visibility_of(keywords@),
    {
        let mut i: usize = 0;
        assert(keywords@.skip(0) =~= keywords@);
        while i < keywords.len()
            invariant
                i <= keywords.len(),
                visibility_of(keywords@.skip(i as int)) == visibility_of(keywords@),
            decreases keywords.len() - i,
        {
            assert(keywords@.skip(i as int)[0] == keywords[i as int]);
            assert(keywords@.skip(i as int).drop_first() =~= keywords@.skip(i + 1));
            match keywords[i] {
                TokenKind::PrivateKeyword => {
                    return Capsulation::Private;
                },
                TokenKind::PublicKeyword => {
                    return Capsulation::Public;
                },
                TokenKind::ProtectedKeyword => {
                    return Capsulation::Protected;
                },
                _ => {},
            }
            i += 1;
        }
        Capsulation::Public
    }

    /// Reads the parameters of a method, up to the closing parenthesis.
    fn parse_parameters(&mut self) -> (r: Option<Vec<Parameter>>)
        ensures
            final(self).source@ == old(self).source@,
            final(self).pos == parameters(old(self).source@, old(self).pos as int).end,
            final(self).reports() == old(self).reports() + parameters(
                old(self).source@,
                old(self).pos as int,
            ).diags,
            r.deep_view() == parameters(old(self).source@, old(self).pos as int).params,
    {
        let mut start_pos = self.pos;
        let mut params: Vec<Parameter> = Vec::new();
        let ghost all = parameters(self.source@, self.pos as int);
        assert(params.deep_view() + all.params->0 =~= all.params->0);
        loop
            invariant
                self.source@ == old(self).source@,
                all == parameters(old(self).source@, old(self).pos as int),
                start_pos == self.pos,
                match parameters(self.source@, self.pos as int).params {
                    Some(more) => all.params == Some(params.deep_view() + more),
                    None => all.params is None,
                },
                parameters(self.source@, self.pos as int).end == all.end,
                self.reports() + parameters(self.source@, self.pos as int).diags == old(
                    self,
                ).reports() + all.diags,
            decreases self.source@.len() - self.pos,
        {
            let ghost s = self.source@;
            let ghost here = parameters(s, self.pos as int);
            let ghost before = self.reports();
            let ghost seen = params.deep_view();
            let ghost ty = expect(s, self.pos as int, TokenKind::Identifier);
            let ghost name = expect(s, ty.end, TokenKind::Identifier);
            let ghost comma = lex(s, name.end);
            proof {
                lemma_expect_bounds(s, self.pos as int, TokenKind::Identifier);
                lemma_expect_bounds(s, ty.end, TokenKind::Identifier);
                lemma_lex_bounds(s, name.end);
            }
            let ahead = self.curr_token();
            if ahead.kind == TokenKind::CloseParen {
                assert(seen + here.params->0 =~= seen);
                return Some(params);
            }
            let param_type = match self.consume_expected(TokenKind::Identifier) {
                Some(token) => token,
                None => {
                    assert(self.reports() =~= before + here.diags);
                    return None;
                },
            };
            let param_name = match self.consume_expected(TokenKind::Identifier) {
                Some(token) => token,
                None => {
                    assert(self.reports() =~= before + here.diags);
                    return None;
                },
            };
            params.push(Parameter(Type(param_type.text), param_name.text));
            let ghost param = params[params.len() - 1]@;
            assert(params.deep_view() =~= seen.push(param));
            if self.pos == start_pos {
                return Some(params);
            }
            start_pos = self.pos;
            let separator = self.curr_token();
            if separator.kind != TokenKind::Comma {
                assert(self.reports() =~= before + here.diags);
                assert(seen + here.params->0 =~= seen.push(param));
                return Some(params);
            }
            let consumed = self.consume_expected(TokenKind::Comma);
            start_pos = self.pos;
            proof {
                let rest = parameters(s, self.pos as int);
                assert(expect(s, name.end, TokenKind::Comma).diags == comma.diags);
                assert(self.reports() + rest.diags =~= before + here.diags);
                if rest.params is Some {
                    assert(seen.push(param) + rest.params->0 =~= seen + (seq![param]
                        + rest.params->0));
                }
            }
        }
    }

    /// Moves the cursor over a method body, from behind its opening brace to
    /// behind the brace that closes it, or to the end of the input.
    fn skip_block(&mut self)
        requires
            1 <= old(self).pos,
        ensures
            final(self).source@ == old(self).source@,
            final(self).diagnostics == old(self).diagnostics,
            final(self).pos == block_end(old(self).source@, old(self).pos as int, 1),
    {
        let len = self.source.unicode_len();
        let mut curly_stack: usize = 1;
        loop
            invariant
                len == self.source@.len(),
                self.source@ == old(self).source@,
                self.diagnostics == old(self).diagnostics,
                1 <= old(self).pos <= self.pos,
                curly_stack <= self.pos - old(self).pos + 1,
                block_end(self.source@, self.pos as int, curly_stack as int) == block_end(
                    old(self).source@,
                    old(self).pos as int,
                    1,
                ),
            decreases len - self.pos,
        {
            let curr = self.curr_chr();
            if curly_stack == 0 || curr == '\0' {
                return ;
            }
            if curr == '}' {
                curly_stack -= 1;
            } else if curr == '{' {
                curly_stack += 1;
            }
            self.pos += 1;
        }
    }

    /// Reads what follows the parameters of a method: the closing
    /// parenthesis, then a semicolon or a body.
    fn parse_method_end(&mut self) -> (ok: bool)
        ensures
            final(self).source@ == old(self).source@,
            final(self).pos == method_end(old(self).source@, old(self).pos as int).end,
            final(self).reports() == old(self).reports() + method_end(
                old(self).source@,
                old(self).pos as int,
            ).diags,
            ok == method_end(old(self).source@, old(self).pos as int).ok,
    {
        let ghost s = self.source@;
        let ghost close = expect(s, self.pos as int, TokenKind::CloseParen);
        if self.consume_expected(TokenKind::CloseParen).is_none() {
            return false;
        }
        if !self.consume_optional(TokenKind::SemiColon) {
            proof {
                lemma_expect_bounds(s, close.end, TokenKind::OpenCurly);
            }
            if self.consume_expected(TokenKind::OpenCurly).is_none() {
                assert(self.reports() =~= old(self).reports() + method_end(
                    s,
                    old(self).pos as int,
                ).diags);
                return false;
            }
            let ghost before = self.reports();
            self.skip_block();
            assert(self.reports() == before);
            assert(self.reports() =~= old(self).reports() + method_end(
                s,
                old(self).pos as int,
            ).diags);
        } else {
            assert(self.reports() =~= old(self).reports() + method_end(
                s,
                old(self).pos as int,
            ).diags);
        }
        true
    }

    /// Moves the cursor over an initializer, to the semicolon that ends it
    /// or to the end of the input.
    fn skip_initializer(&mut self)
        ensures
            final(self).source@ == old(self).source@,
            final(self).diagnostics == old(self).diagnostics,
            final(self).pos == initializer_end(old(self).source@, old(self).pos as int),
    {
        let len = self.source.unicode_len();
        loop
            invariant
                len == self.source@.len(),
                self.source@ == old(self).source@,
                self.diagnostics == old(self).diagnostics,
                initializer_end(self.source@, self.pos as int) == initializer_end(
                    old(self).source@,
                    old(self).pos as int,
                ),
            decreases len - self.pos,
        {
            let curr = self.curr_chr();
            if curr == ';' || curr == '\0' {
                return ;
            }
            self.pos += 1;
        }
    }

    /// Reads what follows the name of a field: an optional initializer and
    /// the semicolon.
    fn parse_field_end(&mut self) -> (ok: bool)
        ensures
            final(self).source@ == old(self).source@,
            final(self).pos == field_end(old(self).source@, old(self).pos as int).end,
            final(self).reports() == old(self).reports() + field_end(
                old(self).source@,
                old(self).pos as int,
            ).diags,
            ok == field_end(old(self).source@, old(self).pos as int).ok,
    {
        let ghost s = self.source@;
        if self.curr_token().kind == TokenKind::Equal {
            self.consume_token();
            let ghost before = self.reports();
            self.skip_initializer();
            assert(self.reports() == before);
        }
        let ok = self.consume_expected(TokenKind::SemiColon).is_some();
        assert(self.reports() =~= old(self).reports() + field_end(s, old(self).pos as int).diags);
        ok
    }

    /// Reads the start of a declaration: the keywords, the type and the
    /// name. Returns the visibility, the type, the name, and whether the
    /// declaration is a constructor.
    fn parse_head(&mut self) -> (r: Option<(Capsulation, String, String, bool)>)
        ensures
            final(self).source@ == old(self).source@,
            final(self).pos == declaration_head(old(self).source@, old(self).pos as int).end,
            final(self).reports() == old(self).reports() + declaration_head(
                old(self).source@,
                old(self).pos as int,
            ).diags,
            match r {
                Some((capsulation, declared_type, name, is_constructor)) => declaration_head(
                    old(self).source@,
                    old(self).pos as int,
                ).head == Some(
                    Head {
                        capsulation,
                        declared_type: declared_type@,
                        name: name@,
                        is_constructor,
                    },
                ),
                None => declaration_head(old(self).source@, old(self).pos as int).head is None,
            },
    {
        let ghost s = self.source@;
        let ghost all = declaration_head(s, self.pos as int);
        let keywords = self.parse_keywords();
        let capsulation = Self::capsulation_of(&keywords);
        let field_type = match self.consume_expected(TokenKind::Identifier) {
            Some(token) => token,
            None => {
                return None;
            },
        };
        if self.curr_token().kind == TokenKind::OpenParen {
            assert(self.reports() =~= old(self).reports() + all.diags);
            let name = field_type.text.clone();
            Some((capsulation, field_type.text, name, true))
        } else {
            let name = self.consume_expected(TokenKind::Identifier);
            assert(self.reports() =~= old(self).reports() + all.diags);
            match name {
                Some(token) => Some((capsulation, field_type.text, token.text, false)),
                None => None,
            }
        }
    }

    /// Reads a method from behind its opening parenthesis: the parameters,
    /// the closing parenthesis, and a semicolon or a body, which is skipped.
    fn parse_method_rest(&mut self) -> (r: Option<Vec<Parameter>>)
        ensures
            final(self).source@ == old(self).source@,
            final(self).pos == method_rest(old(self).source@, old(self).pos as int).end,
            final(self).reports() == old(self).reports() + method_rest(
                old(self).source@,
                old(self).pos as int,
            ).diags,
            r.deep_view() == method_rest(old(self).source@, old(self).pos as int).params,
    {
        let ghost s = self.source@;
        let params = match self.parse_parameters() {
            Some(params) => params,
            None => {
                return None;
            },
        };
        let ok = self.parse_method_end();
        assert(self.reports() =~= old(self).reports() + method_rest(s, old(self).pos as int).diags);
        if ok {
            Some(params)
        } else {
            None
        }
    }

    /// Parses the declaration of one member at the cursor.
    pub fn parse_def(&mut self) -> (r: Option<Declaration>)
        ensures
            final(self).text() == old(self).text(),
            final(self).cursor() == declaration(old(self).text(), old(self).cursor()).end,
            final(self).reports() == old(self).reports() + declaration(
                old(self).text(),
                old(self).cursor(),
            ).diags,
            r.deep_view() == declaration(old(self).text(), old(self).cursor()).decl,
            0 <= old(self).cursor() <= final(self).cursor(),
            old(self).in_text() ==> final(self).in_text(),
    {
        let ghost s = self.source@;
        let ghost all = declaration(s, self.pos as int);
        proof {
            lemma_declaration_bounds(s, self.pos as int);
            reveal(declaration);
        }
        let (capsulation, declared_type, name, is_constructor) = match self.parse_head() {
            Some(head) => head,
            None => {
                return None;
            },
        };
        if self.consume_optional(TokenKind::OpenParen) {
            let params = self.parse_method_rest();
            assert(self.reports() =~= old(self).reports() + all.diags);
            match params {
                Some(params) => Some(
                    Declaration::Method(
                        if is_constructor {
                            Method::new_constructor(name, params, capsulation)
                        } else {
                            Method::new(name, Type(declared_type), params, capsulation)
                        },
                    ),
                ),
                None => None,
            }
        } else {
            let ok = self.parse_field_end();
            assert(self.reports() =~= old(self).reports() + all.diags);
            if ok {
                Some(Declaration::Field(Field::new(Type(declared_type), name, capsulation)))
            } else {
                None
            }
        }
    }

    /// Reads the members of a class body, up to its closing brace or the end
    /// of the input. Returns the fields and the methods, each in the order
    /// of the source.
    fn parse_members(&mut self) -> (r: Option<(Vec<Field>, Vec<Method>)>)
        ensures
            final(self).source@ == old(self).source@,
            final(self).pos == members(old(self).source@, old(self).pos as int).end,
            final(self).reports() == old(self).reports() + members(
                old(self).source@,
                old(self).pos as int,
            ).diags,
            match r {
                Some((fields, methods)) => {
                    &&& members(old(self).source@, old(self).pos as int).ok
                    &&& fields.deep_view() == members(
                        old(self).source@,
                        old(self).pos as int,
                    ).fields
                    &&& methods.deep_view() == members(
                        old(self).source@,
                        old(self).pos as int,
                    ).methods
                },
                None => !members(old(self).source@, old(self).pos as int).ok,
            },
    {
        let ghost s = self.source@;
        let ghost all = members(s, self.pos as int);
        let mut start_pos = self.pos;
        let mut fields: Vec<Field> = Vec::new();
        let mut methods: Vec<Method> = Vec::new();
        assert(fields.deep_view() + all.fields =~= all.fields);
        assert(methods.deep_view() + all.methods =~= all.methods);
        loop
            invariant
                self.source@ == s,
                s == old(self).source@,
                all == members(s, old(self).pos as int),
                start_pos == self.pos,
                members(s, self.pos as int).ok ==> fields.deep_view() + members(
                    s,
                    self.pos as int,
                ).fields == all.fields,
                members(s, self.pos as int).ok ==> methods.deep_view() + members(
                    s,
                    self.pos as int,
                ).methods == all.methods,
                self.reports() + members(s, self.pos as int).diags == old(self).reports()
                    + all.diags,
                members(s, self.pos as int).ok == all.ok,
                members(s, self.pos as int).end == all.end,
            decreases s.len() - self.pos,
        {
            let ghost here = members(s, self.pos as int);
            let ghost before = self.reports();
            let ghost seen_fields = fields.deep_view();
            let ghost seen_methods = methods.deep_view();
            let ghost first = declaration(s, self.pos as int);
            proof {
                lemma_declaration_bounds(s, self.pos as int);
            }
            let ahead = self.curr_token();
            if ahead.kind == TokenKind::CloseCurly || ahead.kind == TokenKind::Eof {
                assert(seen_fields + here.fields =~= seen_fields);
                assert(seen_methods + here.methods =~= seen_methods);
                return Some((fields, methods));
            }
            let def = match self.parse_def() {
                Some(def) => def,
                None => {
                    assert(self.reports() =~= before + here.diags);
                    return None;
                },
            };
            match def {
                Declaration::Field(field) => {
                    fields.push(field);
                    assert(fields.deep_view() =~= seen_fields.push(first.decl->0->Field_0));
                },
                Declaration::Method(method) => {
                    methods.push(method);
                    assert(methods.deep_view() =~= seen_methods.push(first.decl->0->Method_0));
                },
            }
            proof {
                let rest = members(s, self.pos as int);
                assert(self.reports() + rest.diags =~= before + here.diags);
                if rest.ok {
                    assert(fields.deep_view() + rest.fields =~= seen_fields + here.fields);
                    assert(methods.deep_view() + rest.methods =~= seen_methods + here.methods);
                }
            }
            if self.pos == start_pos {
                return Some((fields, methods));
            }
            start_pos = self.pos;
        }
    }

    /// Parses the class declaration at the cursor: the keyword `class`, the
    /// name, and the members between braces. Fields and methods keep the
    /// order of the source. The first token of a wrong kind is reported and
    /// ends the parse with `None`.
    pub fn parse_class_def(&mut self) -> (r: Option<Class>)
        ensures
            final(self).text() == old(self).text(),
            final(self).cursor() == class_declaration(old(self).text(), old(self).cursor()).end,
            final(self).reports() == old(self).reports() + class_declaration(
                old(self).text(),
                old(self).cursor(),
            ).diags,
            r.deep_view() == class_declaration(old(self).text(), old(self).cursor()).class,
            0 <= old(self).cursor() <= final(self).cursor(),
            old(self).in_text() ==> final(self).in_text(),
    {
        let ghost s = self.source@;
        let ghost all = class_declaration(s, self.pos as int);
        proof {
            lemma_class_declaration_bounds(s, self.pos as int);
        }
        if self.consume_expected(TokenKind::ClassKeyword).is_none() {
            return None;
        }
        let name = match self.consume_expected(TokenKind::Identifier) {
            Some(token) => token,
            None => {
                return None;
            },
        };
        if self.consume_expected(TokenKind::OpenCurly).is_none() {
            assert(self.reports() =~= old(self).reports() + all.diags);
            return None;
        }
        let (fields, methods) = match self.parse_members() {
            Some(body) => body,
            None => {
                assert(self.reports() =~= old(self).reports() + all.diags);
                return None;
            },
        };
        let closed = self.consume_expected(TokenKind::CloseCurly).is_some();
        assert(self.reports() =~= old(self).reports() + all.diags);
        if !closed {
            return None;
        }
        Some(Class::new(name.text, fields, methods))
    }
}

} // verus!
