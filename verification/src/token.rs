//! Tokens of the class syntax.

use vstd::prelude::*;
use crate::chars::same_text;

verus! {

/// The closed set of token kinds.
#[derive(Clone, Copy, PartialEq, Eq, Debug, Structural)]
pub enum TokenKind {
    Identifier,
    ClassKeyword,
    PublicKeyword,
    PrivateKeyword,
    FinalKeyword,
    AbstractKeyword,
    ProtectedKeyword,
    StaticKeyword,
    OpenCurly,
    CloseCurly,
    OpenParen,
    CloseParen,
    SemiColon,
    Comma,
    Equal,
    Eof,
}

/// The kind of an identifier-shaped text: one of the seven keywords, or
/// `Identifier` for any other text.
pub open spec fn keyword_kind(text: Seq<char>) -> TokenKind {
    if text == "class"@ {
        TokenKind::ClassKeyword
    } else if text == "private"@ {
        TokenKind::PrivateKeyword
    } else if text == "public"@ {
        TokenKind::PublicKeyword
    } else if text == "static"@ {
        TokenKind::StaticKeyword
    } else if text == "protected"@ {
        TokenKind::ProtectedKeyword
    } else if text == "abstract"@ {
        TokenKind::AbstractKeyword
    } else if text == "final"@ {
        TokenKind::FinalKeyword
    } else {
        TokenKind::Identifier
    }
}

impl TokenKind {
    /// Whether the kind is one of the seven keywords.
    pub open spec fn keyword(self) -> bool {
        self == TokenKind::ClassKeyword || self == TokenKind::PrivateKeyword || self
            == TokenKind::PublicKeyword || self == TokenKind::StaticKeyword || self
            == TokenKind::ProtectedKeyword || self == TokenKind::AbstractKeyword || self
            == TokenKind::FinalKeyword
    }

    /// Whether the kind is one of the six modifier keywords: the keywords
    /// but `class`.
    pub open spec fn modifier(self) -> bool {
        self == TokenKind::PrivateKeyword || self == TokenKind::PublicKeyword || self
            == TokenKind::StaticKeyword || self == TokenKind::ProtectedKeyword || self
            == TokenKind::AbstractKeyword || self == TokenKind::FinalKeyword
    }

    /// Whether the kind is one of the three visibility keywords.
    pub open spec fn visibility(self) -> bool {
        self == TokenKind::PrivateKeyword || self == TokenKind::PublicKeyword || self
            == TokenKind::ProtectedKeyword
    }

    /// The name of the kind as diagnostics print it.
    pub open spec fn name(self) -> Seq<char> {
        match self {
            TokenKind::Identifier => "Identifier"@,
            TokenKind::ClassKeyword => "ClassKeyword"@,
            TokenKind::PublicKeyword => "PublicKeyword"@,
            TokenKind::PrivateKeyword => "PrivateKeyword"@,
            TokenKind::FinalKeyword => "FinalKeyword"@,
            TokenKind::AbstractKeyword => "AbstractKeyword"@,
            TokenKind::ProtectedKeyword => "ProtectedKeyword"@,
            TokenKind::StaticKeyword => "StaticKeyword"@,
            TokenKind::OpenCurly => "OpenCurly"@,
            TokenKind::CloseCurly => "CloseCurly"@,
            TokenKind::OpenParen => "OpenParen"@,
            TokenKind::CloseParen => "CloseParen"@,
            TokenKind::SemiColon => "SemiColon"@,
            TokenKind::Comma => "Comma"@,
            TokenKind::Equal => "Equal"@,
            TokenKind::Eof => "Eof"@,
        }
    }

    /// The kind of an identifier-shaped text: the keyword that it spells,
    /// or `Identifier`.
    pub fn keyword_from_str(ident: &str) -> (kind: TokenKind)
        ensures
            kind == keyword_kind(ident@),
    {
        if same_text(ident, "class") {
            TokenKind::ClassKeyword
        } else if same_text(ident, "private") {
            TokenKind::PrivateKeyword
        } else if same_text(ident, "public") {
            TokenKind::PublicKeyword
        } else if same_text(ident, "static") {
            TokenKind::StaticKeyword
        } else if same_text(ident, "protected") {
            TokenKind::ProtectedKeyword
        } else if same_text(ident, "abstract") {
            TokenKind::AbstractKeyword
        } else if same_text(ident, "final") {
            TokenKind::FinalKeyword
        } else {
            TokenKind::Identifier
        }
    }

    /// Whether the kind is one of the seven keywords.
    pub fn is_keyword(&self) -> (r: bool)
        ensures
            r == self.keyword(),
    {
        match self {
            TokenKind::ClassKeyword
            | TokenKind::PrivateKeyword
            | TokenKind::PublicKeyword
            | TokenKind::StaticKeyword
            | TokenKind::ProtectedKeyword
            | TokenKind::AbstractKeyword
            | TokenKind::FinalKeyword => true,
            _ => false,
        }
    }

    /// Whether the kind is one of the six modifier keywords.
    pub fn is_modifier(&self) -> (r: bool)
        ensures
            r == self.modifier(),
    {
        match self {
            TokenKind::PrivateKeyword
            | TokenKind::PublicKeyword
            | TokenKind::StaticKeyword
            | TokenKind::ProtectedKeyword
            | TokenKind::AbstractKeyword
            | TokenKind::FinalKeyword => true,
            _ => false,
        }
    }

    /// The name of the kind, as a diagnostic message spells it.
    pub fn to_str(&self) -> (r: &'static str)
        ensures
            r@ == self.name(),
    {
        match self {
            TokenKind::Identifier => "Identifier",
            TokenKind::ClassKeyword => "ClassKeyword",
            TokenKind::PublicKeyword => "PublicKeyword",
            TokenKind::PrivateKeyword => "PrivateKeyword",
            TokenKind::FinalKeyword => "FinalKeyword",
            TokenKind::AbstractKeyword => "AbstractKeyword",
            TokenKind::ProtectedKeyword => "ProtectedKeyword",
            TokenKind::StaticKeyword => "StaticKeyword",
            TokenKind::OpenCurly => "OpenCurly",
            TokenKind::CloseCurly => "CloseCurly",
            TokenKind::OpenParen => "OpenParen",
            TokenKind::CloseParen => "CloseParen",
            TokenKind::SemiColon => "SemiColon",
            TokenKind::Comma => "Comma",
            TokenKind::Equal => "Equal",
            TokenKind::Eof => "Eof",
        }
    }
}

/// What a token is in contracts: its kind, its characters, and the offset of
/// its first character.
pub struct TokenView {
    pub kind: TokenKind,
    pub text: Seq<char>,
    pub pos: int,
}

/// A classified piece of the source text.
#[derive(Debug)]
pub struct Token {
    pub kind: TokenKind,
    pub text: String,
    pub pos: usize,
}

impl View for Token {
    type V = TokenView;

    open spec fn view(&self) -> TokenView {
        TokenView { kind: self.kind, text: self.text@, pos: self.pos as int }
    }
}

impl DeepView for Token {
    type V = TokenView;

    open spec fn deep_view(&self) -> TokenView {
        self@
    }
}

impl Clone for Token {
    fn clone(&self) -> (token: Token)
        ensures
            token == *self,
    {
        Token { kind: self.kind, text: self.text.clone(), pos: self.pos }
    }
}

impl Token {
    /// A token of the given kind and text that starts at offset `pos`.
    pub fn new(kind: TokenKind, text: String, pos: usize) -> (token: Token)
        ensures
            token.kind == kind,
            token.text == text,
            token.pos == pos,
    {
        Token { kind, text, pos }
    }
}

} // verus!
