//! Well-formed source texts, and the proof that the parser reads them back.
//!
//! A class is written down token by token, each token behind a gap of
//! blanks and comments: a [`Frame`] holds the gaps around the members, and each member
//! comes with a [`Style`] that holds the gaps between its own tokens. The
//! parser reads such a text without a diagnostic and gives back the class
//! that was written, with its fields and its methods in the order of the
//! text.

use vstd::prelude::*;
use crate::chars::{char_is_alphabetic, char_is_whitespace, is_ident_part};
use crate::grammar::{
    block_end, class_declaration, declaration, declaration_head, expect, field_end,
    initializer_end, members, method_end, method_rest, modifiers, parameters, visibility_of,
    Expected, Head, ParsedClass, ParsedDeclaration, ParsedHead, ParsedMembers, ParsedParameters,
    ParsedSignature, Passed,
};
use crate::java::{ClassView, DeclarationView, FieldView, MethodView, ParameterView};
use crate::parser::DiagnosticView;
use crate::scan::{
    block_comment_end, lemma_ident_end_to, lex, line_end, punctuation, skip_whitespace, Lexed,
};
use crate::token::{keyword_kind, TokenKind, TokenView};

verus! {

/// A blank: a character of white space that continues no identifier.
pub open spec fn is_blank(c: char) -> bool {
    char_is_whitespace(c) && !is_ident_part(c)
}

/// A piece of a gap: a blank, a line comment with its line feed, or a block
/// comment. A comment is given by the text between its delimiters.
pub enum GapPiece {
    Blank(char),
    LineComment(Seq<char>),
    BlockComment(Seq<char>),
}

impl GapPiece {
    /// The text of the piece.
    pub open spec fn text(self) -> Seq<char> {
        match self {
            GapPiece::Blank(c) => seq![c],
            GapPiece::LineComment(body) => seq!['/', '/'] + body + seq!['\n'],
            GapPiece::BlockComment(body) => seq!['/', '*'] + body + seq!['*', '/'],
        }
    }

    /// The blank is a blank, the line comment holds no line feed and no NUL
    /// character, and the block comment does not close before its end.
    pub open spec fn valid(self) -> bool {
        match self {
            GapPiece::Blank(c) => is_blank(c),
            GapPiece::LineComment(body) => forall|i: int|
                0 <= i < body.len() ==> #[trigger] body[i] != '\n' && body[i] != '\0',
            GapPiece::BlockComment(body) => forall|i: int|
                0 <= i < body.len() ==> !(#[trigger] body[i] == '*' && (body + seq![
                    '*',
                    '/',
                ])[i + 1] == '/'),
        }
    }
}

/// The texts of the pieces, one behind the other.
pub open spec fn pieces_text(pieces: Seq<GapPiece>) -> Seq<char>
    decreases pieces.len(),
{
    if pieces.len() == 0 {
        Seq::empty()
    } else {
        pieces[0].text() + pieces_text(pieces.drop_first())
    }
}

/// A gap: blanks and comments, one behind the other. The empty text is a
/// gap.
#[verifier::opaque]
pub open spec fn is_gap(gap: Seq<char>) -> bool {
    exists|pieces: Seq<GapPiece>|
        #[trigger] pieces_text(pieces) == gap && forall|i: int|
            0 <= i < pieces.len() ==> (#[trigger] pieces[i]).valid()
}

/// A character that may start a word: a letter that the lexer does not take
/// for white space, for a single-character token or for the end of input.
pub open spec fn is_word_start(c: char) -> bool {
    c != '\0' && !char_is_whitespace(c) && punctuation(c) is None && char_is_alphabetic(c)
}

/// A word: a word start followed by identifier characters.
#[verifier::opaque]
pub open spec fn is_word(word: Seq<char>) -> bool {
    &&& word.len() > 0
    &&& is_word_start(word[0])
    &&& forall|i: int| 0 <= i < word.len() ==> is_ident_part(#[trigger] word[i])
}

/// An identifier: a word that is no keyword.
pub open spec fn is_identifier(word: Seq<char>) -> bool {
    is_word(word) && keyword_kind(word) == TokenKind::Identifier
}

/// A mark: the character of a single-character token that is neither white
/// space nor an identifier character.
pub open spec fn is_mark(c: char) -> bool {
    punctuation(c) is Some && !char_is_whitespace(c) && !is_ident_part(c)
}

/// The text of a keyword.
pub open spec fn keyword_text(kind: TokenKind) -> Seq<char> {
    match kind {
        TokenKind::ClassKeyword => "class"@,
        TokenKind::PrivateKeyword => "private"@,
        TokenKind::PublicKeyword => "public"@,
        TokenKind::StaticKeyword => "static"@,
        TokenKind::ProtectedKeyword => "protected"@,
        TokenKind::AbstractKeyword => "abstract"@,
        TokenKind::FinalKeyword => "final"@,
        _ => Seq::empty(),
    }
}

/// The characters of the syntax are what the syntax needs: the
/// single-character tokens are marks, and the keywords are words.
pub open spec fn plain_syntax() -> bool {
    &&& is_mark('{')
    &&& is_mark('}')
    &&& is_mark('(')
    &&& is_mark(')')
    &&& is_mark(';')
    &&& is_mark(',')
    &&& is_mark('=')
    &&& is_word("class"@)
    &&& is_word("private"@)
    &&& is_word("public"@)
    &&& is_word("static"@)
    &&& is_word("protected"@)
    &&& is_word("abstract"@)
    &&& is_word("final"@)
}

/// The characters of the syntax are what [`plain_syntax`] asks for.
pub proof fn lemma_plain_syntax()
    ensures
        plain_syntax(),
{
    reveal(is_word);
    reveal_strlit("class");
    reveal_strlit("private");
    reveal_strlit("public");
    reveal_strlit("static");
    reveal_strlit("protected");
    reveal_strlit("abstract");
    reveal_strlit("final");
}

/// `piece` stands in `s` at offset `pos`.
#[verifier::opaque]
pub open spec fn has_at(s: Seq<char>, pos: int, piece: Seq<char>) -> bool {
    &&& 0 <= pos
    &&& pos + piece.len() <= s.len()
    &&& forall|i: int| 0 <= i < piece.len() ==> s[pos + i] == #[trigger] piece[i]
}

/// No identifier character stands in `s` at offset `pos`.
pub open spec fn closed_at(s: Seq<char>, pos: int) -> bool {
    !(0 <= pos < s.len() && is_ident_part(s[pos]))
}

/// Two pieces stand one behind the other exactly where their concatenation
/// stands.
pub proof fn lemma_has_at_split(s: Seq<char>, pos: int, a: Seq<char>, b: Seq<char>)
    ensures
        has_at(s, pos, a + b) <==> has_at(s, pos, a) && has_at(s, pos + a.len(), b),
{
    reveal(has_at);
    if has_at(s, pos, a + b) {
        assert forall|i: int| 0 <= i < a.len() implies s[pos + i] == #[trigger] a[i] by {
            assert((a + b)[i] == a[i]);
        }
        assert forall|i: int| 0 <= i < b.len() implies s[pos + a.len() + i] == #[trigger] b[i] by {
            assert((a + b)[a.len() + i] == b[i]);
        }
    }
    if has_at(s, pos, a) && has_at(s, pos + a.len(), b) {
        assert forall|i: int| 0 <= i < (a + b).len() implies s[pos + i] == #[trigger] (a + b)[i] by {
            if i < a.len() {
                assert((a + b)[i] == a[i]);
            } else {
                assert((a + b)[i] == b[i - a.len()]);
                assert(s[pos + a.len() + (i - a.len())] == b[i - a.len()]);
            }
        }
    }
}

/// A text stands at the start of whatever it is the start of.
pub proof fn lemma_has_at_start(text: Seq<char>, rest: Seq<char>)
    ensures
        has_at(text + rest, 0, text),
{
    reveal(has_at);
    assert forall|i: int| 0 <= i < text.len() implies (text + rest)[0 + i] == #[trigger] text[i] by {
    }
}

/// The empty text is a gap.
pub proof fn lemma_empty_gap()
    ensures
        is_gap(Seq::<char>::empty()),
{
    reveal(is_gap);
    let pieces = Seq::<GapPiece>::empty();
    assert(pieces_text(pieces) == Seq::<char>::empty());
}

/// The text of valid pieces is a gap.
pub proof fn lemma_pieces_are_a_gap(pieces: Seq<GapPiece>)
    requires
        forall|i: int| 0 <= i < pieces.len() ==> (#[trigger] pieces[i]).valid(),
    ensures
        is_gap(pieces_text(pieces)),
{
    reveal(is_gap);
}

/// The piece that holds one blank.
pub open spec fn blank_piece(c: char) -> GapPiece {
    GapPiece::Blank(c)
}

/// The blanks of a text as pieces of a gap.
pub open spec fn blank_pieces(gap: Seq<char>) -> Seq<GapPiece>
    decreases gap.len(),
{
    if gap.len() == 0 {
        Seq::empty()
    } else {
        seq![blank_piece(gap[0])] + blank_pieces(gap.drop_first())
    }
}

/// The pieces of a run of blanks are valid and hold the blanks.
proof fn lemma_blank_pieces(gap: Seq<char>)
    requires
        forall|i: int| 0 <= i < gap.len() ==> is_blank(#[trigger] gap[i]),
    ensures
        pieces_text(blank_pieces(gap)) == gap,
        forall|i: int|
            0 <= i < blank_pieces(gap).len() ==> (#[trigger] blank_pieces(gap)[i]).valid(),
    decreases gap.len(),
{
    if gap.len() > 0 {
        let rest = gap.drop_first();
        let pieces = blank_pieces(gap);
        assert forall|i: int| 0 <= i < rest.len() implies is_blank(#[trigger] rest[i]) by {
            assert(rest[i] == gap[i + 1]);
        }
        lemma_blank_pieces(rest);
        assert(pieces[0] == blank_piece(gap[0]));
        assert(pieces.drop_first() =~= blank_pieces(rest));
        assert(pieces_text(pieces) =~= gap);
        assert(is_blank(gap[0]));
        assert forall|i: int| 0 <= i < pieces.len() implies (#[trigger] pieces[i]).valid() by {
            if i > 0 {
                assert(pieces[i] == blank_pieces(rest)[i - 1]);
            }
        }
    } else {
        assert(pieces_text(blank_pieces(gap)) =~= gap);
    }
}

/// Blanks alone are a gap.
pub proof fn lemma_blanks_are_a_gap(gap: Seq<char>)
    requires
        forall|i: int| 0 <= i < gap.len() ==> is_blank(#[trigger] gap[i]),
    ensures
        is_gap(gap),
{
    lemma_blank_pieces(gap);
    lemma_pieces_are_a_gap(blank_pieces(gap));
}

/// A line that holds no line feed and no NUL character ends at the line
/// feed behind it.
proof fn lemma_line_end_at(s: Seq<char>, from: int, end: int)
    requires
        0 <= from <= end < s.len(),
        forall|i: int| from <= i < end ==> #[trigger] s[i] != '\n' && s[i] != '\0',
        s[end] == '\n',
    ensures
        line_end(s, from) == end,
    decreases end - from,
{
    if from < end {
        assert(s[from] != '\n' && s[from] != '\0');
        lemma_line_end_at(s, from + 1, end);
    }
}

/// A block comment that does not close before `end` ends behind the `*/`
/// that stands at `end`.
proof fn lemma_block_comment_end_at(s: Seq<char>, from: int, end: int)
    requires
        0 <= from <= end,
        end + 2 <= s.len(),
        forall|i: int| from <= i < end ==> !(#[trigger] s[i] == '*' && s[i + 1] == '/'),
        s[end] == '*',
        s[end + 1] == '/',
    ensures
        block_comment_end(s, from) == end + 2,
    decreases end - from,
{
    if from < end {
        assert(!(s[from] == '*' && s[from + 1] == '/'));
        lemma_block_comment_end_at(s, from + 1, end);
    }
}

/// The lexer passes over a piece of a gap without a word.
proof fn lemma_lex_passes_piece(s: Seq<char>, pos: int, piece: GapPiece)
    requires
        piece.valid(),
        has_at(s, pos, piece.text()),
    ensures
        lex(s, pos) == lex(s, pos + piece.text().len()),
        !is_ident_part(s[pos]),
        0 <= pos < s.len(),
{
    reveal(lex);
    reveal(has_at);
    let text = piece.text();
    assert(s[pos + 0] == text[0]);
    match piece {
        GapPiece::Blank(c) => {
            assert(text[0] == c);
            assert(text.len() == 1);
            assert(skip_whitespace(s, pos) == skip_whitespace(s, pos + 1));
            assert(lex(s, pos) == lex(s, pos + 1));
        },
        GapPiece::LineComment(body) => {
            let n = body.len() as int;
            let end = pos + 2 + n;
            assert(text[0] == '/' && text[1] == '/');
            assert(s[pos + 1] == text[1]);
            assert(text[n + 2] == '\n');
            assert(s[pos + (n + 2)] == text[n + 2]);
            assert forall|i: int| pos + 1 <= i < end implies #[trigger] s[i] != '\n' && s[i]
                != '\0' by {
                assert(s[pos + (i - pos)] == text[i - pos]);
                if i > pos + 1 {
                    assert(text[i - pos] == body[i - pos - 2]);
                }
            }
            lemma_line_end_at(s, pos + 1, end);
            assert(skip_whitespace(s, pos) == pos);
            assert(lex(s, pos) == lex(s, end));
            assert(skip_whitespace(s, end) == skip_whitespace(s, end + 1));
            assert(lex(s, end) == lex(s, end + 1));
            assert(text.len() == n + 3);
        },
        GapPiece::BlockComment(body) => {
            let n = body.len() as int;
            let end = pos + 2 + n;
            let closing = body + seq!['*', '/'];
            assert(text[0] == '/' && text[1] == '*');
            assert(s[pos + 1] == text[1]);
            assert(text[n + 2] == '*' && text[n + 3] == '/');
            assert(s[pos + (n + 2)] == text[n + 2]);
            assert(s[pos + (n + 3)] == text[n + 3]);
            assert forall|i: int| pos + 2 <= i < end implies !(#[trigger] s[i] == '*' && s[i + 1]
                == '/') by {
                let k = i - pos - 2;
                assert(s[pos + (i - pos)] == text[i - pos]);
                assert(s[pos + (i + 1 - pos)] == text[i + 1 - pos]);
                assert(text[i - pos] == body[k]);
                assert(text[i + 1 - pos] == closing[k + 1]);
                assert(!(body[k] == '*' && closing[k + 1] == '/'));
            }
            lemma_block_comment_end_at(s, pos + 2, end);
            assert(skip_whitespace(s, pos) == pos);
            assert(lex(s, pos) == lex(s, end + 2));
            assert(text.len() == n + 4);
        },
    }
}

/// The lexer passes over the pieces of a gap without a word.
proof fn lemma_lex_passes_pieces(s: Seq<char>, pos: int, pieces: Seq<GapPiece>)
    requires
        forall|i: int| 0 <= i < pieces.len() ==> (#[trigger] pieces[i]).valid(),
        has_at(s, pos, pieces_text(pieces)),
    ensures
        lex(s, pos) == lex(s, pos + pieces_text(pieces).len()),
        pieces_text(pieces).len() > 0 ==> 0 <= pos < s.len() && !is_ident_part(s[pos]),
    decreases pieces.len(),
{
    if pieces.len() > 0 {
        let more = pieces.drop_first();
        assert(pieces[0].valid());
        lemma_has_at_split(s, pos, pieces[0].text(), pieces_text(more));
        lemma_lex_passes_piece(s, pos, pieces[0]);
        assert forall|i: int| 0 <= i < more.len() implies (#[trigger] more[i]).valid() by {
            assert(more[i] == pieces[i + 1]);
        }
        lemma_lex_passes_pieces(s, pos + pieces[0].text().len(), more);
    }
}

/// The lexer passes over a gap without a word, and a gap that is not empty
/// starts with a character that continues no identifier.
pub proof fn lemma_lex_passes_gap(s: Seq<char>, pos: int, gap: Seq<char>)
    requires
        is_gap(gap),
        has_at(s, pos, gap),
    ensures
        lex(s, pos) == lex(s, pos + gap.len()),
        gap.len() > 0 ==> closed_at(s, pos),
{
    reveal(is_gap);
    let pieces = choose|pieces: Seq<GapPiece>|
        #[trigger] pieces_text(pieces) == gap && forall|i: int|
            0 <= i < pieces.len() ==> (#[trigger] pieces[i]).valid();
    lemma_lex_passes_pieces(s, pos, pieces);
}

/// A gap and then a mark: the lexer gives the token of the mark.
pub proof fn lemma_lex_mark(s: Seq<char>, pos: int, gap: Seq<char>, c: char)
    requires
        is_gap(gap),
        is_mark(c),
        has_at(s, pos, gap),
        has_at(s, pos + gap.len(), seq![c]),
    ensures
        lex(s, pos) == (Lexed {
            token: TokenView { kind: punctuation(c)->0, text: seq![c], pos: pos + gap.len() },
            end: pos + gap.len() + 1,
            diags: Seq::empty(),
        }),
{
    lemma_lex_passes_gap(s, pos, gap);
    reveal(lex);
    reveal(has_at);
    let p = pos + gap.len();
    assert(s[p] == c) by {
        assert(seq![c][0] == c);
        assert(s[p + 0] == seq![c][0]);
    }
    assert(skip_whitespace(s, p) == p);
}

/// A gap and then a word that ends where no identifier character follows:
/// the lexer gives the token of the word.
pub proof fn lemma_lex_word(s: Seq<char>, pos: int, gap: Seq<char>, word: Seq<char>)
    requires
        is_gap(gap),
        is_word(word),
        has_at(s, pos, gap),
        has_at(s, pos + gap.len(), word),
        closed_at(s, pos + gap.len() + word.len()),
    ensures
        lex(s, pos) == (Lexed {
            token: TokenView { kind: keyword_kind(word), text: word, pos: pos + gap.len() },
            end: pos + gap.len() + word.len(),
            diags: Seq::empty(),
        }),
{
    lemma_lex_passes_gap(s, pos, gap);
    reveal(lex);
    reveal(has_at);
    reveal(is_word);
    let p = pos + gap.len();
    let e = p + word.len();
    assert(s[p] == word[0]) by {
        assert(s[p + 0] == word[0]);
    }
    assert(skip_whitespace(s, p) == p);
    assert forall|i: int| p <= i < e implies is_ident_part(#[trigger] s[i]) by {
        assert(s[p + (i - p)] == word[i - p]);
    }
    lemma_ident_end_to(s, p, e);
    assert(s.subrange(p, e) =~= word) by {
        assert forall|i: int| 0 <= i < word.len() implies s.subrange(p, e)[i] == word[i] by {
            assert(s[p + i] == word[i]);
        }
    }
}

/// A gap that is not empty closes the word in front of it.
pub proof fn lemma_gap_closes(s: Seq<char>, pos: int, gap: Seq<char>)
    requires
        is_gap(gap),
        gap.len() > 0,
        has_at(s, pos, gap),
    ensures
        closed_at(s, pos),
{
    lemma_lex_passes_gap(s, pos, gap);
}

/// A gap and then a mark close the word in front of them.
pub proof fn lemma_mark_closes(s: Seq<char>, pos: int, gap: Seq<char>, c: char)
    requires
        is_gap(gap),
        is_mark(c),
        has_at(s, pos, gap),
        has_at(s, pos + gap.len(), seq![c]),
    ensures
        closed_at(s, pos),
{
    if gap.len() > 0 {
        lemma_gap_closes(s, pos, gap);
    } else {
        reveal(has_at);
        assert(seq![c][0] == c);
        assert(s[pos + gap.len() + 0] == seq![c][0]);
    }
}

/// The gaps around the members of a class, one for each place where a gap
/// may stand.
pub struct Frame {
    /// Before the keyword `class`.
    pub lead: Seq<char>,
    /// Between the keyword and the name. It is never empty.
    pub sep: Seq<char>,
    /// Before the brace that opens the class.
    pub open_curly: Seq<char>,
    /// Before the brace that closes the class.
    pub close_curly: Seq<char>,
}

impl Frame {
    pub open spec fn valid(self) -> bool {
        &&& is_gap(self.lead)
        &&& is_gap(self.sep)
        &&& self.sep.len() > 0
        &&& is_gap(self.open_curly)
        &&& is_gap(self.close_curly)
    }
}

/// The gaps of a member, one for each place where a gap may stand.
pub struct Style {
    /// Before the member.
    pub member: Seq<char>,
    /// Between two words. It is never empty.
    pub sep: Seq<char>,
    /// Before a semicolon.
    pub semicolon: Seq<char>,
    /// Before the equals sign of an initializer.
    pub equal: Seq<char>,
    /// Before an opening parenthesis.
    pub open_paren: Seq<char>,
    /// Before the first parameter.
    pub first_param: Seq<char>,
    /// Before a comma.
    pub comma: Seq<char>,
    /// Before each parameter but the first.
    pub next_param: Seq<char>,
    /// Before a closing parenthesis.
    pub close_paren: Seq<char>,
    /// Before the brace that opens a method body.
    pub open_body: Seq<char>,
}

impl Style {
    pub open spec fn valid(self) -> bool {
        &&& is_gap(self.member)
        &&& is_gap(self.sep)
        &&& self.sep.len() > 0
        &&& is_gap(self.semicolon)
        &&& is_gap(self.equal)
        &&& is_gap(self.open_paren)
        &&& is_gap(self.first_param)
        &&& is_gap(self.comma)
        &&& is_gap(self.next_param)
        &&& is_gap(self.close_paren)
        &&& is_gap(self.open_body)
    }
}

/// A method body without braces and without a NUL character.
pub open spec fn is_plain_body(body: Seq<char>) -> bool {
    forall|i: int|
        0 <= i < body.len() ==> #[trigger] body[i] != '{' && body[i] != '}' && body[i] != '\0'
}

/// An initializer without a semicolon and without a NUL character.
pub open spec fn is_plain_initializer(initializer: Seq<char>) -> bool {
    forall|i: int|
        0 <= i < initializer.len() ==> #[trigger] initializer[i] != ';' && initializer[i] != '\0'
}

/// A member as it is written: the keywords in front of it, the member, for a
/// method the text between the braces of its body, or `None` where a
/// semicolon stands for the body, for a field the text between the equals
/// sign and the semicolon, or `None` where it has no initializer, and the
/// gaps between its tokens.
pub struct Written {
    pub modifiers: Seq<TokenKind>,
    pub member: DeclarationView,
    pub body: Option<Seq<char>>,
    pub initializer: Option<Seq<char>>,
    pub style: Style,
}

impl Written {
    /// The gaps are gaps, the keywords are modifiers and give the visibility
    /// of the member, the names are identifiers, a method has a return type
    /// or is a constructor, and a body or an initializer is plain.
    pub open spec fn well_formed(self) -> bool {
        &&& self.style.valid()
        &&& forall|i: int| 0 <= i < self.modifiers.len() ==> (#[trigger] self.modifiers[i]).modifier()
        &&& match self.member {
            DeclarationView::Field(field) => {
                &&& is_identifier(field.name)
                &&& is_identifier(field.field_type)
                &&& field.capsulation == visibility_of(self.modifiers)
                &&& self.initializer matches Some(initializer) ==> is_plain_initializer(initializer)
            },
            DeclarationView::Method(method) => {
                &&& is_identifier(method.name)
                &&& method.is_constructor() || is_identifier(method.return_type)
                &&& method.capsulation == visibility_of(self.modifiers)
                &&& forall|i: int|
                    0 <= i < method.parameters.len() ==> is_identifier(
                        (#[trigger] method.parameters[i]).name,
                    ) && is_identifier(method.parameters[i].param_type)
                &&& self.body matches Some(body) ==> is_plain_body(body)
            },
        }
    }
}

/// The keywords in front of a member, each with the word gap behind it.
pub open spec fn modifiers_text(kinds: Seq<TokenKind>, sep: Seq<char>) -> Seq<char>
    decreases kinds.len(),
{
    if kinds.len() == 0 {
        Seq::empty()
    } else {
        keyword_text(kinds[0]) + sep + modifiers_text(kinds.drop_first(), sep)
    }
}

/// The parameters of a method: each as type, word gap and name, the first
/// behind the gap `lead`, the others behind a comma.
pub open spec fn parameters_text(params: Seq<ParameterView>, lead: Seq<char>, style: Style) -> Seq<
    char,
>
    decreases params.len(),
{
    if params.len() == 0 {
        Seq::empty()
    } else if params.len() == 1 {
        lead + params[0].param_type + style.sep + params[0].name
    } else {
        lead + params[0].param_type + style.sep + params[0].name + style.comma + seq![',']
            + parameters_text(params.drop_first(), style.next_param, style)
    }
}

/// What stands for the body of a method: a semicolon, or the body in braces.
pub open spec fn body_text(body: Option<Seq<char>>, style: Style) -> Seq<char> {
    match body {
        None => style.semicolon + seq![';'],
        Some(text) => style.open_body + seq!['{'] + text + seq!['}'],
    }
}

/// What ends a field: a semicolon, or an initializer and the semicolon
/// right behind it.
pub open spec fn initializer_text(initializer: Option<Seq<char>>, style: Style) -> Seq<char> {
    match initializer {
        None => style.semicolon + seq![';'],
        Some(text) => style.equal + seq!['='] + text + seq![';'],
    }
}

/// The text of a member, from its first keyword or its type on.
pub open spec fn member_text(written: Written) -> Seq<char> {
    let style = written.style;
    match written.member {
        DeclarationView::Field(field) => modifiers_text(written.modifiers, style.sep)
            + field.field_type + style.sep + field.name + initializer_text(
            written.initializer,
            style,
        ),
        DeclarationView::Method(method) => modifiers_text(written.modifiers, style.sep) + (if method.is_constructor() {
            method.name
        } else {
            method.return_type + style.sep + method.name
        }) + style.open_paren + seq!['('] + parameters_text(
            method.parameters,
            style.first_param,
            style,
        ) + style.close_paren + seq![')'] + body_text(written.body, style),
    }
}

/// The text of the members of a class, each behind its own member gap.
pub open spec fn members_text(written: Seq<Written>) -> Seq<char>
    decreases written.len(),
{
    if written.len() == 0 {
        Seq::empty()
    } else {
        written[0].style.member + member_text(written[0]) + members_text(written.drop_first())
    }
}

/// The text of a class: the keyword, the name, and the members in braces.
pub open spec fn class_text(name: Seq<char>, written: Seq<Written>, frame: Frame) -> Seq<char> {
    frame.lead + "class"@ + frame.sep + name + frame.open_curly + seq!['{'] + members_text(
        written,
    ) + frame.close_curly + seq!['}']
}

/// The fields among the members, in their order.
pub open spec fn written_fields(written: Seq<Written>) -> Seq<FieldView>
    decreases written.len(),
{
    if written.len() == 0 {
        Seq::empty()
    } else {
        match written[0].member {
            DeclarationView::Field(field) => seq![field] + written_fields(written.drop_first()),
            DeclarationView::Method(_) => written_fields(written.drop_first()),
        }
    }
}

/// The methods among the members, in their order.
pub open spec fn written_methods(written: Seq<Written>) -> Seq<MethodView>
    decreases written.len(),
{
    if written.len() == 0 {
        Seq::empty()
    } else {
        match written[0].member {
            DeclarationView::Field(_) => written_methods(written.drop_first()),
            DeclarationView::Method(method) => seq![method] + written_methods(
                written.drop_first(),
            ),
        }
    }
}

/// The text of a keyword lexes as that keyword.
pub proof fn lemma_keyword_text(kind: TokenKind)
    requires
        kind.keyword(),
    ensures
        keyword_kind(keyword_text(kind)) == kind,
        is_word(keyword_text(kind)),
{
    lemma_plain_syntax();
    reveal_strlit("class");
    reveal_strlit("private");
    reveal_strlit("public");
    reveal_strlit("static");
    reveal_strlit("protected");
    reveal_strlit("abstract");
    reveal_strlit("final");
    assert("class"@.len() == 5 && "class"@[0] == 'c');
    assert("private"@.len() == 7);
    assert("public"@.len() == 6 && "public"@[0] == 'p');
    assert("static"@.len() == 6 && "static"@[0] == 's');
    assert("protected"@.len() == 9);
    assert("abstract"@.len() == 8);
    assert("final"@.len() == 5 && "final"@[0] == 'f');
    assert("final"@ != "class"@);
    assert("static"@ != "public"@);
}

/// A run of keywords and the identifier behind it are read as written, and
/// the first token of the two is a word.
pub proof fn lemma_modifiers_written(
    s: Seq<char>,
    pos: int,
    lead: Seq<char>,
    kinds: Seq<TokenKind>,
    sep: Seq<char>,
    word: Seq<char>,
)
    requires
        is_gap(lead),
        is_gap(sep),
        sep.len() > 0,
        forall|i: int| 0 <= i < kinds.len() ==> (#[trigger] kinds[i]).modifier(),
        is_identifier(word),
        has_at(s, pos, lead),
        has_at(s, pos + lead.len(), modifiers_text(kinds, sep)),
        has_at(s, pos + lead.len() + modifiers_text(kinds, sep).len(), word),
        closed_at(s, pos + lead.len() + modifiers_text(kinds, sep).len() + word.len()),
    ensures
        modifiers(s, pos).kinds == kinds,
        modifiers(s, pos).diags == Seq::<DiagnosticView>::empty(),
        expect(s, modifiers(s, pos).end, TokenKind::Identifier) == (Expected {
            token: Some(
                TokenView {
                    kind: TokenKind::Identifier,
                    text: word,
                    pos: pos + lead.len() + modifiers_text(kinds, sep).len(),
                },
            ),
            end: pos + lead.len() + modifiers_text(kinds, sep).len() + word.len(),
            diags: Seq::empty(),
        }),
        lex(s, pos).diags == Seq::<DiagnosticView>::empty(),
        lex(s, pos).token.kind == TokenKind::Identifier || lex(s, pos).token.kind.keyword(),
    decreases kinds.len(),
{
    if kinds.len() == 0 {
        lemma_lex_word(s, pos, lead, word);
    } else {
        let keyword = keyword_text(kinds[0]);
        let rest = kinds.drop_first();
        let from = pos + lead.len();
        assert(kinds[0].modifier());
        lemma_keyword_text(kinds[0]);
        lemma_has_at_split(s, from, keyword + sep, modifiers_text(rest, sep));
        lemma_has_at_split(s, from, keyword, sep);
        let e = from + keyword.len();
        lemma_gap_closes(s, e, sep);
        lemma_lex_word(s, pos, lead, keyword);
        assert forall|i: int| 0 <= i < rest.len() implies (#[trigger] rest[i]).modifier() by {
            assert(rest[i] == kinds[i + 1]);
        }
        lemma_modifiers_written(s, e, sep, rest, sep, word);
        assert(seq![kinds[0]] + rest =~= kinds);
        assert(modifiers(s, pos).diags =~= Seq::<DiagnosticView>::empty());
    }
}

/// The head of a field or of a method with a return type is read as written.
pub proof fn lemma_head_written(
    s: Seq<char>,
    pos: int,
    lead: Seq<char>,
    kinds: Seq<TokenKind>,
    sep: Seq<char>,
    declared_type: Seq<char>,
    name: Seq<char>,
)
    requires
        is_gap(lead),
        is_gap(sep),
        sep.len() > 0,
        forall|i: int| 0 <= i < kinds.len() ==> (#[trigger] kinds[i]).modifier(),
        is_identifier(declared_type),
        is_identifier(name),
        has_at(s, pos, lead),
        has_at(s, pos + lead.len(), modifiers_text(kinds, sep)),
        has_at(s, pos + lead.len() + modifiers_text(kinds, sep).len(), declared_type),
        has_at(
            s,
            pos + lead.len() + modifiers_text(kinds, sep).len() + declared_type.len(),
            sep,
        ),
        has_at(
            s,
            pos + lead.len() + modifiers_text(kinds, sep).len() + declared_type.len() + sep.len(),
            name,
        ),
        closed_at(
            s,
            pos + lead.len() + modifiers_text(kinds, sep).len() + declared_type.len() + sep.len()
                + name.len(),
        ),
    ensures
        declaration_head(s, pos) == (ParsedHead {
            head: Some(
                Head {
                    capsulation: visibility_of(kinds),
                    declared_type: declared_type,
                    name: name,
                    is_constructor: false,
                },
            ),
            end: pos + lead.len() + modifiers_text(kinds, sep).len() + declared_type.len()
                + sep.len() + name.len(),
            diags: Seq::empty(),
        }),
        lex(s, pos).diags == Seq::<DiagnosticView>::empty(),
        lex(s, pos).token.kind == TokenKind::Identifier || lex(s, pos).token.kind.keyword(),
{
    let e = pos + lead.len() + modifiers_text(kinds, sep).len() + declared_type.len();
    lemma_gap_closes(s, e, sep);
    lemma_modifiers_written(s, pos, lead, kinds, sep, declared_type);
    lemma_lex_word(s, e, sep, name);
    assert(declaration_head(s, pos).diags =~= Seq::<DiagnosticView>::empty());
}

/// The head of a constructor is read as written.
pub proof fn lemma_constructor_head_written(
    s: Seq<char>,
    pos: int,
    lead: Seq<char>,
    kinds: Seq<TokenKind>,
    sep: Seq<char>,
    name: Seq<char>,
    gap: Seq<char>,
)
    requires
        is_gap(lead),
        is_gap(sep),
        sep.len() > 0,
        is_gap(gap),
        forall|i: int| 0 <= i < kinds.len() ==> (#[trigger] kinds[i]).modifier(),
        is_identifier(name),
        has_at(s, pos, lead),
        has_at(s, pos + lead.len(), modifiers_text(kinds, sep)),
        has_at(s, pos + lead.len() + modifiers_text(kinds, sep).len(), name),
        has_at(s, pos + lead.len() + modifiers_text(kinds, sep).len() + name.len(), gap),
        has_at(
            s,
            pos + lead.len() + modifiers_text(kinds, sep).len() + name.len() + gap.len(),
            seq!['('],
        ),
    ensures
        declaration_head(s, pos) == (ParsedHead {
            head: Some(
                Head {
                    capsulation: visibility_of(kinds),
                    declared_type: name,
                    name: name,
                    is_constructor: true,
                },
            ),
            end: pos + lead.len() + modifiers_text(kinds, sep).len() + name.len(),
            diags: Seq::empty(),
        }),
        lex(s, pos).diags == Seq::<DiagnosticView>::empty(),
        lex(s, pos).token.kind == TokenKind::Identifier || lex(s, pos).token.kind.keyword(),
{
    let e = pos + lead.len() + modifiers_text(kinds, sep).len() + name.len();
    lemma_mark_closes(s, e, gap, '(');
    lemma_modifiers_written(s, pos, lead, kinds, sep, name);
    lemma_lex_mark(s, e, gap, '(');
    assert(declaration_head(s, pos).diags =~= Seq::<DiagnosticView>::empty());
}

/// A parameter list that is not empty is read as written, up to the closing
/// parenthesis behind it.
pub proof fn lemma_parameters_written(
    s: Seq<char>,
    pos: int,
    params: Seq<ParameterView>,
    lead: Seq<char>,
    style: Style,
)
    requires
        style.valid(),
        is_gap(lead),
        params.len() > 0,
        forall|i: int|
            0 <= i < params.len() ==> is_identifier((#[trigger] params[i]).name) && is_identifier(
                params[i].param_type,
            ),
        has_at(s, pos, parameters_text(params, lead, style)),
        has_at(s, pos + parameters_text(params, lead, style).len(), style.close_paren),
        has_at(
            s,
            pos + parameters_text(params, lead, style).len() + style.close_paren.len(),
            seq![')'],
        ),
    ensures
        parameters(s, pos) == (ParsedParameters {
            params: Some(params),
            end: pos + parameters_text(params, lead, style).len(),
            diags: Seq::empty(),
        }),
    decreases params.len(),
{
    let first = params[0];
    let t = pos + lead.len() + first.param_type.len();
    let n = t + style.sep.len() + first.name.len();
    if params.len() == 1 {
        lemma_has_at_split(s, pos, lead + first.param_type + style.sep, first.name);
        lemma_has_at_split(s, pos, lead + first.param_type, style.sep);
        lemma_has_at_split(s, pos, lead, first.param_type);
        lemma_gap_closes(s, t, style.sep);
        lemma_lex_word(s, pos, lead, first.param_type);
        lemma_mark_closes(s, n, style.close_paren, ')');
        lemma_lex_word(s, t, style.sep, first.name);
        lemma_lex_mark(s, n, style.close_paren, ')');
        assert(parameters(s, pos).params->0 =~= params);
        assert(parameters(s, pos).diags =~= Seq::<DiagnosticView>::empty());
    } else {
        let rest = params.drop_first();
        let more = parameters_text(rest, style.next_param, style);
        lemma_has_at_split(
            s,
            pos,
            lead + first.param_type + style.sep + first.name + style.comma + seq![','],
            more,
        );
        lemma_has_at_split(
            s,
            pos,
            lead + first.param_type + style.sep + first.name + style.comma,
            seq![','],
        );
        lemma_has_at_split(
            s,
            pos,
            lead + first.param_type + style.sep + first.name,
            style.comma,
        );
        lemma_has_at_split(s, pos, lead + first.param_type + style.sep, first.name);
        lemma_has_at_split(s, pos, lead + first.param_type, style.sep);
        lemma_has_at_split(s, pos, lead, first.param_type);
        lemma_gap_closes(s, t, style.sep);
        lemma_lex_word(s, pos, lead, first.param_type);
        lemma_mark_closes(s, n, style.comma, ',');
        lemma_lex_word(s, t, style.sep, first.name);
        lemma_lex_mark(s, n, style.comma, ',');
        assert forall|i: int| 0 <= i < rest.len() implies is_identifier((#[trigger] rest[i]).name)
            && is_identifier(rest[i].param_type) by {
            assert(rest[i] == params[i + 1]);
        }
        let from = n + style.comma.len() + 1;
        if rest.len() == 1 {
            lemma_has_at_split(
                s,
                from,
                style.next_param + rest[0].param_type + style.sep,
                rest[0].name,
            );
            lemma_has_at_split(s, from, style.next_param + rest[0].param_type, style.sep);
            lemma_has_at_split(s, from, style.next_param, rest[0].param_type);
        } else {
            let after = parameters_text(rest.drop_first(), style.next_param, style);
            lemma_has_at_split(
                s,
                from,
                style.next_param + rest[0].param_type + style.sep + rest[0].name + style.comma
                    + seq![','],
                after,
            );
            lemma_has_at_split(
                s,
                from,
                style.next_param + rest[0].param_type + style.sep + rest[0].name + style.comma,
                seq![','],
            );
            lemma_has_at_split(
                s,
                from,
                style.next_param + rest[0].param_type + style.sep + rest[0].name,
                style.comma,
            );
            lemma_has_at_split(
                s,
                from,
                style.next_param + rest[0].param_type + style.sep,
                rest[0].name,
            );
            lemma_has_at_split(s, from, style.next_param + rest[0].param_type, style.sep);
            lemma_has_at_split(s, from, style.next_param, rest[0].param_type);
        }
        lemma_gap_closes(s, from + style.next_param.len() + rest[0].param_type.len(), style.sep);
        lemma_lex_word(s, from, style.next_param, rest[0].param_type);
        lemma_parameters_written(s, from, rest, style.next_param, style);
        assert(seq![first] + rest =~= params);
        assert(parameters(s, pos).diags =~= Seq::<DiagnosticView>::empty());
    }
}

/// An empty parameter list is read as written.
pub proof fn lemma_no_parameters_written(s: Seq<char>, pos: int, style: Style)
    requires
        style.valid(),
        has_at(s, pos, style.close_paren),
        has_at(s, pos + style.close_paren.len(), seq![')']),
    ensures
        parameters(s, pos) == (ParsedParameters {
            params: Some(Seq::empty()),
            end: pos,
            diags: Seq::empty(),
        }),
{
    lemma_lex_mark(s, pos, style.close_paren, ')');
}

/// The raw scan of a plain body stops behind the brace that closes it.
pub proof fn lemma_plain_body_skipped(s: Seq<char>, pos: int, body: Seq<char>, from: int)
    requires
        is_plain_body(body),
        has_at(s, pos, body),
        has_at(s, pos + body.len(), seq!['}']),
        0 <= from <= body.len(),
    ensures
        block_end(s, pos + from, 1) == pos + body.len() + 1,
    decreases body.len() - from,
{
    reveal(has_at);
    if from == body.len() {
        assert(seq!['}'][0] == '}');
        assert(s[pos + body.len() + 0] == seq!['}'][0]);
        assert(block_end(s, pos + from + 1, 0) == pos + from + 1);
    } else {
        assert(s[pos + from] == body[from]);
        lemma_plain_body_skipped(s, pos, body, from + 1);
    }
}

/// The end of a method is read as written: the closing parenthesis, and the
/// semicolon or the body.
pub proof fn lemma_method_end_written(
    s: Seq<char>,
    pos: int,
    body: Option<Seq<char>>,
    style: Style,
)
    requires
        style.valid(),
        body matches Some(text) ==> is_plain_body(text),
        has_at(s, pos, style.close_paren),
        has_at(s, pos + style.close_paren.len(), seq![')']),
        has_at(s, pos + style.close_paren.len() + 1, body_text(body, style)),
    ensures
        method_end(s, pos) == (Passed {
            ok: true,
            end: pos + style.close_paren.len() + 1 + body_text(body, style).len(),
            diags: Seq::empty(),
        }),
{
    lemma_lex_mark(s, pos, style.close_paren, ')');
    let e = pos + style.close_paren.len() + 1;
    match body {
        None => {
            lemma_has_at_split(s, e, style.semicolon, seq![';']);
            lemma_lex_mark(s, e, style.semicolon, ';');
        },
        Some(text) => {
            lemma_has_at_split(s, e, style.open_body + seq!['{'] + text, seq!['}']);
            lemma_has_at_split(s, e, style.open_body + seq!['{'], text);
            lemma_has_at_split(s, e, style.open_body, seq!['{']);
            lemma_lex_mark(s, e, style.open_body, '{');
            lemma_plain_body_skipped(s, e + style.open_body.len() + 1, text, 0);
        },
    }
    assert(method_end(s, pos).diags =~= Seq::<DiagnosticView>::empty());
}

/// The raw scan of a plain initializer stops at the semicolon behind it.
pub proof fn lemma_plain_initializer_skipped(
    s: Seq<char>,
    pos: int,
    initializer: Seq<char>,
    from: int,
)
    requires
        is_plain_initializer(initializer),
        has_at(s, pos, initializer),
        has_at(s, pos + initializer.len(), seq![';']),
        0 <= from <= initializer.len(),
    ensures
        initializer_end(s, pos + from) == pos + initializer.len(),
    decreases initializer.len() - from,
{
    reveal(has_at);
    if from == initializer.len() {
        assert(seq![';'][0] == ';');
        assert(s[pos + initializer.len() + 0] == seq![';'][0]);
    } else {
        assert(s[pos + from] == initializer[from]);
        lemma_plain_initializer_skipped(s, pos, initializer, from + 1);
    }
}

/// The end of a field is read as written: the semicolon, or the initializer
/// and the semicolon.
pub proof fn lemma_field_end_written(
    s: Seq<char>,
    pos: int,
    initializer: Option<Seq<char>>,
    style: Style,
)
    requires
        style.valid(),
        initializer matches Some(text) ==> is_plain_initializer(text),
        has_at(s, pos, initializer_text(initializer, style)),
    ensures
        field_end(s, pos) == (Passed {
            ok: true,
            end: pos + initializer_text(initializer, style).len(),
            diags: Seq::empty(),
        }),
        closed_at(s, pos),
        lex(s, pos).token.kind != TokenKind::OpenParen,
        lex(s, pos).diags == Seq::<DiagnosticView>::empty(),
{
    match initializer {
        None => {
            lemma_has_at_split(s, pos, style.semicolon, seq![';']);
            lemma_mark_closes(s, pos, style.semicolon, ';');
            lemma_lex_mark(s, pos, style.semicolon, ';');
        },
        Some(text) => {
            lemma_has_at_split(s, pos, style.equal + seq!['='] + text, seq![';']);
            lemma_has_at_split(s, pos, style.equal + seq!['='], text);
            lemma_has_at_split(s, pos, style.equal, seq!['=']);
            lemma_mark_closes(s, pos, style.equal, '=');
            lemma_lex_mark(s, pos, style.equal, '=');
            let from = pos + style.equal.len() + 1;
            lemma_plain_initializer_skipped(s, from, text, 0);
            assert(has_at(s, from + text.len(), Seq::<char>::empty())) by {
                reveal(has_at);
            }
            lemma_empty_gap();
            lemma_lex_mark(s, from + text.len(), Seq::<char>::empty(), ';');
        },
    }
    assert(field_end(s, pos).diags =~= Seq::<DiagnosticView>::empty());
}

/// A well-formed field is read as written.
pub proof fn lemma_field_written(
    s: Seq<char>,
    pos: int,
    kinds: Seq<TokenKind>,
    field: FieldView,
    initializer: Option<Seq<char>>,
    style: Style,
)
    requires
        style.valid(),
        (Written {
            modifiers: kinds,
            member: DeclarationView::Field(field),
            body: None,
            initializer,
            style,
        }).well_formed(),
        has_at(s, pos, style.member),
        has_at(
            s,
            pos + style.member.len(),
            modifiers_text(kinds, style.sep) + field.field_type + style.sep + field.name
                + initializer_text(initializer, style),
        ),
    ensures
        declaration(s, pos) == (ParsedDeclaration {
            decl: Some(DeclarationView::Field(field)),
            end: pos + style.member.len() + (modifiers_text(kinds, style.sep) + field.field_type
                + style.sep + field.name + initializer_text(initializer, style)).len(),
            diags: Seq::empty(),
        }),
        lex(s, pos).diags == Seq::<DiagnosticView>::empty(),
        lex(s, pos).token.kind == TokenKind::Identifier || lex(s, pos).token.kind.keyword(),
{
    reveal(declaration);
    let mods = modifiers_text(kinds, style.sep);
    let from = pos + style.member.len();
    lemma_has_at_split(
        s,
        from,
        mods + field.field_type + style.sep + field.name,
        initializer_text(initializer, style),
    );
    lemma_has_at_split(s, from, mods + field.field_type + style.sep, field.name);
    lemma_has_at_split(s, from, mods + field.field_type, style.sep);
    lemma_has_at_split(s, from, mods, field.field_type);
    let e = from + mods.len() + field.field_type.len() + style.sep.len() + field.name.len();
    lemma_field_end_written(s, e, initializer, style);
    lemma_head_written(s, pos, style.member, kinds, style.sep, field.field_type, field.name);
    assert(declaration(s, pos).diags =~= Seq::<DiagnosticView>::empty());
}

/// The rest of a well-formed method, from behind its opening parenthesis, is
/// read as written.
pub proof fn lemma_method_rest_written(
    s: Seq<char>,
    pos: int,
    params: Seq<ParameterView>,
    body: Option<Seq<char>>,
    style: Style,
)
    requires
        style.valid(),
        forall|i: int|
            0 <= i < params.len() ==> is_identifier((#[trigger] params[i]).name) && is_identifier(
                params[i].param_type,
            ),
        body matches Some(text) ==> is_plain_body(text),
        has_at(s, pos, parameters_text(params, style.first_param, style)),
        has_at(
            s,
            pos + parameters_text(params, style.first_param, style).len(),
            style.close_paren,
        ),
        has_at(
            s,
            pos + parameters_text(params, style.first_param, style).len()
                + style.close_paren.len(),
            seq![')'],
        ),
        has_at(
            s,
            pos + parameters_text(params, style.first_param, style).len()
                + style.close_paren.len() + 1,
            body_text(body, style),
        ),
    ensures
        method_rest(s, pos) == (ParsedSignature {
            params: Some(params),
            end: pos + parameters_text(params, style.first_param, style).len()
                + style.close_paren.len() + 1 + body_text(body, style).len(),
            diags: Seq::empty(),
        }),
{
    let p = pos + parameters_text(params, style.first_param, style).len();
    if params.len() == 0 {
        assert(params =~= Seq::<ParameterView>::empty());
        lemma_no_parameters_written(s, pos, style);
    } else {
        lemma_parameters_written(s, pos, params, style.first_param, style);
    }
    lemma_method_end_written(s, p, body, style);
    assert(method_rest(s, pos).diags =~= Seq::<DiagnosticView>::empty());
}

/// A well-formed method with a return type is read as written.
pub proof fn lemma_method_written(
    s: Seq<char>,
    pos: int,
    kinds: Seq<TokenKind>,
    method: MethodView,
    body: Option<Seq<char>>,
    style: Style,
)
    requires
        style.valid(),
        (Written {
            modifiers: kinds,
            member: DeclarationView::Method(method),
            body,
            initializer: None,
            style,
        }).well_formed(),
        !method.is_constructor(),
        has_at(s, pos, style.member),
        has_at(
            s,
            pos + style.member.len(),
            modifiers_text(kinds, style.sep) + (method.return_type + style.sep + method.name)
                + style.open_paren + seq!['('] + parameters_text(
                method.parameters,
                style.first_param,
                style,
            ) + style.close_paren + seq![')'] + body_text(body, style),
        ),
    ensures
        declaration(s, pos) == (ParsedDeclaration {
            decl: Some(DeclarationView::Method(method)),
            end: pos + style.member.len() + (modifiers_text(kinds, style.sep) + (method.return_type
                + style.sep + method.name) + style.open_paren + seq!['('] + parameters_text(
                method.parameters,
                style.first_param,
                style,
            ) + style.close_paren + seq![')'] + body_text(body, style)).len(),
            diags: Seq::empty(),
        }),
        lex(s, pos).diags == Seq::<DiagnosticView>::empty(),
        lex(s, pos).token.kind == TokenKind::Identifier || lex(s, pos).token.kind.keyword(),
{
    reveal(declaration);
    let mods = modifiers_text(kinds, style.sep);
    let head = method.return_type + style.sep + method.name;
    let params = parameters_text(method.parameters, style.first_param, style);
    let from = pos + style.member.len();
    lemma_has_at_split(
        s,
        from,
        mods + head + style.open_paren + seq!['('] + params + style.close_paren + seq![')'],
        body_text(body, style),
    );
    lemma_has_at_split(
        s,
        from,
        mods + head + style.open_paren + seq!['('] + params + style.close_paren,
        seq![')'],
    );
    lemma_has_at_split(
        s,
        from,
        mods + head + style.open_paren + seq!['('] + params,
        style.close_paren,
    );
    lemma_has_at_split(s, from, mods + head + style.open_paren + seq!['('], params);
    lemma_has_at_split(s, from, mods + head + style.open_paren, seq!['(']);
    lemma_has_at_split(s, from, mods + head, style.open_paren);
    lemma_has_at_split(s, from, mods, head);
    let h = from + mods.len();
    lemma_has_at_split(s, h, method.return_type + style.sep, method.name);
    lemma_has_at_split(s, h, method.return_type, style.sep);
    let e = h + head.len();
    lemma_mark_closes(s, e, style.open_paren, '(');
    lemma_head_written(s, pos, style.member, kinds, style.sep, method.return_type, method.name);
    lemma_lex_mark(s, e, style.open_paren, '(');
    lemma_method_rest_written(s, e + style.open_paren.len() + 1, method.parameters, body, style);
    assert(declaration(s, pos).diags =~= Seq::<DiagnosticView>::empty());
}

/// A well-formed constructor is read as written.
pub proof fn lemma_constructor_written(
    s: Seq<char>,
    pos: int,
    kinds: Seq<TokenKind>,
    method: MethodView,
    body: Option<Seq<char>>,
    style: Style,
)
    requires
        style.valid(),
        (Written {
            modifiers: kinds,
            member: DeclarationView::Method(method),
            body,
            initializer: None,
            style,
        }).well_formed(),
        method.is_constructor(),
        has_at(s, pos, style.member),
        has_at(
            s,
            pos + style.member.len(),
            modifiers_text(kinds, style.sep) + method.name + style.open_paren + seq!['(']
                + parameters_text(method.parameters, style.first_param, style)
                + style.close_paren + seq![')'] + body_text(body, style),
        ),
    ensures
        declaration(s, pos) == (ParsedDeclaration {
            decl: Some(DeclarationView::Method(method)),
            end: pos + style.member.len() + (modifiers_text(kinds, style.sep) + method.name
                + style.open_paren + seq!['('] + parameters_text(
                method.parameters,
                style.first_param,
                style,
            ) + style.close_paren + seq![')'] + body_text(body, style)).len(),
            diags: Seq::empty(),
        }),
        lex(s, pos).diags == Seq::<DiagnosticView>::empty(),
        lex(s, pos).token.kind == TokenKind::Identifier || lex(s, pos).token.kind.keyword(),
{
    reveal(declaration);
    let mods = modifiers_text(kinds, style.sep);
    let params = parameters_text(method.parameters, style.first_param, style);
    let from = pos + style.member.len();
    lemma_has_at_split(
        s,
        from,
        mods + method.name + style.open_paren + seq!['('] + params + style.close_paren + seq![')'],
        body_text(body, style),
    );
    lemma_has_at_split(
        s,
        from,
        mods + method.name + style.open_paren + seq!['('] + params + style.close_paren,
        seq![')'],
    );
    lemma_has_at_split(
        s,
        from,
        mods + method.name + style.open_paren + seq!['('] + params,
        style.close_paren,
    );
    lemma_has_at_split(s, from, mods + method.name + style.open_paren + seq!['('], params);
    lemma_has_at_split(s, from, mods + method.name + style.open_paren, seq!['(']);
    lemma_has_at_split(s, from, mods + method.name, style.open_paren);
    lemma_has_at_split(s, from, mods, method.name);
    let e = from + mods.len() + method.name.len();
    lemma_constructor_head_written(
        s,
        pos,
        style.member,
        kinds,
        style.sep,
        method.name,
        style.open_paren,
    );
    lemma_lex_mark(s, e, style.open_paren, '(');
    lemma_method_rest_written(s, e + style.open_paren.len() + 1, method.parameters, body, style);
    assert(method.return_type =~= Seq::<char>::empty());
    assert(declaration(s, pos).diags =~= Seq::<DiagnosticView>::empty());
}

/// A well-formed member is read as written, and its first token is a word.
pub proof fn lemma_declaration_written(s: Seq<char>, pos: int, written: Written)
    requires
        written.well_formed(),
        has_at(s, pos, written.style.member),
        has_at(s, pos + written.style.member.len(), member_text(written)),
    ensures
        declaration(s, pos) == (ParsedDeclaration {
            decl: Some(written.member),
            end: pos + written.style.member.len() + member_text(written).len(),
            diags: Seq::empty(),
        }),
        lex(s, pos).diags == Seq::<DiagnosticView>::empty(),
        lex(s, pos).token.kind == TokenKind::Identifier || lex(s, pos).token.kind.keyword(),
{
    let style = written.style;
    match written.member {
        DeclarationView::Field(field) => {
            lemma_field_written(s, pos, written.modifiers, field, written.initializer, style);
        },
        DeclarationView::Method(method) => {
            if method.is_constructor() {
                lemma_constructor_written(s, pos, written.modifiers, method, written.body, style);
            } else {
                lemma_method_written(s, pos, written.modifiers, method, written.body, style);
            }
        },
    }
}

/// Well-formed members are read as written, up to the closing brace behind
/// them: the fields and the methods come out in the order of the text.
pub proof fn lemma_members_written(s: Seq<char>, pos: int, written: Seq<Written>, frame: Frame)
    requires
        frame.valid(),
        forall|i: int| 0 <= i < written.len() ==> (#[trigger] written[i]).well_formed(),
        has_at(s, pos, members_text(written)),
        has_at(s, pos + members_text(written).len(), frame.close_curly),
        has_at(s, pos + members_text(written).len() + frame.close_curly.len(), seq!['}']),
    ensures
        members(s, pos) == (ParsedMembers {
            ok: true,
            fields: written_fields(written),
            methods: written_methods(written),
            end: pos + members_text(written).len(),
            diags: Seq::empty(),
        }),
    decreases written.len(),
{
    if written.len() == 0 {
        lemma_lex_mark(s, pos, frame.close_curly, '}');
    } else {
        let gap = written[0].style.member;
        let first = member_text(written[0]);
        let rest = written.drop_first();
        lemma_has_at_split(s, pos, gap + first, members_text(rest));
        lemma_has_at_split(s, pos, gap, first);
        assert(written[0].well_formed());
        lemma_declaration_written(s, pos, written[0]);
        assert forall|i: int| 0 <= i < rest.len() implies (#[trigger] rest[i]).well_formed() by {
            assert(rest[i] == written[i + 1]);
        }
        lemma_members_written(s, pos + gap.len() + first.len(), rest, frame);
        assert(members(s, pos).diags =~= Seq::<DiagnosticView>::empty());
    }
}

/// Every member is a field or a method.
pub proof fn lemma_written_counts(written: Seq<Written>)
    ensures
        written_fields(written).len() + written_methods(written).len() == written.len(),
    decreases written.len(),
{
    if written.len() > 0 {
        lemma_written_counts(written.drop_first());
    }
}

/// Every well-formed class text parses without a diagnostic, to the class
/// that was written: its name, and its fields and its methods, each as many
/// as were written and in the order of the text. What stands behind the
/// closing brace of the class is not read.
///
/// The text holds the members of `written` in order, only fields and methods
/// whose body holds no brace, each with gaps of its own between its tokens.
/// A gap holds blanks and comments.
pub proof fn well_formed_class_parses(
    name: Seq<char>,
    written: Seq<Written>,
    frame: Frame,
    rest: Seq<char>,
)
    requires
        frame.valid(),
        is_identifier(name),
        forall|i: int| 0 <= i < written.len() ==> (#[trigger] written[i]).well_formed(),
    ensures
        class_declaration(class_text(name, written, frame) + rest, 0) == (ParsedClass {
            class: Some(
                ClassView {
                    name: name,
                    fields: written_fields(written),
                    methods: written_methods(written),
                },
            ),
            end: class_text(name, written, frame).len() as int,
            diags: Seq::empty(),
        }),
        written_fields(written).len() + written_methods(written).len() == written.len(),
{
    let text = class_text(name, written, frame);
    let s = text + rest;
    let body = members_text(written);
    lemma_has_at_start(text, rest);
    lemma_has_at_split(
        s,
        0,
        frame.lead + "class"@ + frame.sep + name + frame.open_curly + seq!['{'] + body
            + frame.close_curly,
        seq!['}'],
    );
    lemma_has_at_split(
        s,
        0,
        frame.lead + "class"@ + frame.sep + name + frame.open_curly + seq!['{'] + body,
        frame.close_curly,
    );
    lemma_has_at_split(
        s,
        0,
        frame.lead + "class"@ + frame.sep + name + frame.open_curly + seq!['{'],
        body,
    );
    lemma_has_at_split(
        s,
        0,
        frame.lead + "class"@ + frame.sep + name + frame.open_curly,
        seq!['{'],
    );
    lemma_has_at_split(s, 0, frame.lead + "class"@ + frame.sep + name, frame.open_curly);
    lemma_has_at_split(s, 0, frame.lead + "class"@ + frame.sep, name);
    lemma_has_at_split(s, 0, frame.lead + "class"@, frame.sep);
    lemma_has_at_split(s, 0, frame.lead, "class"@);
    let k = frame.lead.len() + "class"@.len();
    let n = k + frame.sep.len() + name.len();
    let o = n + frame.open_curly.len() + 1;
    lemma_keyword_text(TokenKind::ClassKeyword);
    lemma_gap_closes(s, k as int, frame.sep);
    lemma_lex_word(s, 0, frame.lead, "class"@);
    lemma_mark_closes(s, n as int, frame.open_curly, '{');
    lemma_lex_word(s, k as int, frame.sep, name);
    lemma_lex_mark(s, n as int, frame.open_curly, '{');
    lemma_members_written(s, o as int, written, frame);
    lemma_lex_mark(s, (o + body.len()) as int, frame.close_curly, '}');
    assert(class_declaration(s, 0).diags =~= Seq::<DiagnosticView>::empty());
    lemma_written_counts(written);
}

} // verus!
