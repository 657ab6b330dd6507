use java_uml::parser::Parser;
use java_uml::token::TokenKind;

fn kinds(source: &str) -> Vec<TokenKind> {
    let mut parser = Parser::new(source);
    let mut out = Vec::new();
    loop {
        let token = parser.consume_token();
        out.push(token.kind);
        if token.kind == TokenKind::Eof {
            return out;
        }
    }
}

#[test]
fn single_character_tokens() {
    assert_eq!(
        kinds("{}();,="),
        vec![
            TokenKind::OpenCurly,
            TokenKind::CloseCurly,
            TokenKind::OpenParen,
            TokenKind::CloseParen,
            TokenKind::SemiColon,
            TokenKind::Comma,
            TokenKind::Equal,
            TokenKind::Eof,
        ]
    );
}

#[test]
fn token_text_and_position() {
    let mut parser = Parser::new("  class Foo{");
    let class = parser.consume_token();
    assert_eq!(class.kind, TokenKind::ClassKeyword);
    assert_eq!(class.text, "class");
    assert_eq!(class.pos, 2);
    let name = parser.consume_token();
    assert_eq!(name.kind, TokenKind::Identifier);
    assert_eq!(name.text, "Foo");
    assert_eq!(name.pos, 8);
    let open = parser.consume_token();
    assert_eq!(open.kind, TokenKind::OpenCurly);
    assert_eq!(open.text, "{");
    assert_eq!(open.pos, 11);
    assert!(parser.diagnostics.is_empty());
}

#[test]
fn keywords_are_recognised() {
    assert_eq!(
        kinds("class private public protected static abstract final classy"),
        vec![
            TokenKind::ClassKeyword,
            TokenKind::PrivateKeyword,
            TokenKind::PublicKeyword,
            TokenKind::ProtectedKeyword,
            TokenKind::StaticKeyword,
            TokenKind::AbstractKeyword,
            TokenKind::FinalKeyword,
            TokenKind::Identifier,
            TokenKind::Eof,
        ]
    );
}

#[test]
fn identifier_takes_digits_underscores_and_brackets() {
    let mut parser = Parser::new("int[] my_var2;");
    let ty = parser.consume_token();
    assert_eq!(ty.kind, TokenKind::Identifier);
    assert_eq!(ty.text, "int[]");
    let name = parser.consume_token();
    assert_eq!(name.text, "my_var2");
    assert_eq!(name.pos, 6);
    assert_eq!(parser.consume_token().kind, TokenKind::SemiColon);
}

#[test]
fn identifier_of_letters_beyond_ascii() {
    let mut parser = Parser::new("größe übung");
    let first = parser.consume_token();
    assert_eq!(first.kind, TokenKind::Identifier);
    assert_eq!(first.text, "größe");
    assert_eq!(first.pos, 0);
    let second = parser.consume_token();
    assert_eq!(second.text, "übung");
    assert_eq!(second.pos, 6);
}

#[test]
fn identifier_does_not_start_with_a_digit_or_underscore() {
    let mut parser = Parser::new("_a");
    let token = parser.consume_token();
    assert_eq!(token.kind, TokenKind::Identifier);
    assert_eq!(token.text, "a");
    assert_eq!(token.pos, 1);
    assert_eq!(parser.diagnostics.len(), 1);
    assert_eq!(parser.diagnostics[0].message, "Bad character input '_'");
    assert_eq!(parser.diagnostics[0].pos, 0);
}

#[test]
fn white_space_of_every_kind_is_skipped() {
    let mut parser = Parser::new(" \t\r\n\u{a0}\u{2003}x");
    let token = parser.consume_token();
    assert_eq!(token.kind, TokenKind::Identifier);
    assert_eq!(token.text, "x");
    assert_eq!(token.pos, 6);
    assert!(parser.diagnostics.is_empty());
}

#[test]
fn eof_is_returned_again_and_again() {
    let mut parser = Parser::new("x  ");
    assert_eq!(parser.consume_token().kind, TokenKind::Identifier);
    let first = parser.consume_token();
    assert_eq!(first.kind, TokenKind::Eof);
    assert_eq!(first.text, "\0");
    assert_eq!(first.pos, 3);
    let second = parser.consume_token();
    assert_eq!(second.kind, TokenKind::Eof);
    assert_eq!(second.pos, 3);
    assert!(parser.diagnostics.is_empty());
}

#[test]
fn empty_text_is_eof() {
    let mut parser = Parser::new("");
    let token = parser.consume_token();
    assert_eq!(token.kind, TokenKind::Eof);
    assert_eq!(token.pos, 0);
}

#[test]
fn nul_inside_the_text_ends_the_input() {
    let mut parser = Parser::new("a\0b");
    assert_eq!(parser.consume_token().kind, TokenKind::Identifier);
    let end = parser.consume_token();
    assert_eq!(end.kind, TokenKind::Eof);
    assert_eq!(end.pos, 1);
    assert_eq!(parser.consume_token().kind, TokenKind::Eof);
}

#[test]
fn line_comment_is_transparent() {
    let mut parser = Parser::new("a // b c {\n d");
    assert_eq!(parser.consume_token().text, "a");
    let d = parser.consume_token();
    assert_eq!(d.text, "d");
    assert_eq!(d.pos, 12);
    assert!(parser.diagnostics.is_empty());
}

#[test]
fn line_comment_at_the_end_of_input() {
    assert_eq!(kinds("a // rest"), vec![TokenKind::Identifier, TokenKind::Eof]);
}

#[test]
fn block_comment_is_transparent() {
    let mut parser = Parser::new("a /* b \n * c */ d");
    assert_eq!(parser.consume_token().text, "a");
    let d = parser.consume_token();
    assert_eq!(d.text, "d");
    assert_eq!(d.pos, 16);
    assert!(parser.diagnostics.is_empty());
}

#[test]
fn block_comment_needs_both_characters_to_close() {
    assert_eq!(kinds("/*/ a */ b"), vec![TokenKind::Identifier, TokenKind::Eof]);
    let mut parser = Parser::new("/*/ a */ b");
    assert_eq!(parser.consume_token().text, "b");
}

#[test]
fn unterminated_block_comment_runs_to_the_end() {
    let mut parser = Parser::new("a /* b c");
    assert_eq!(parser.consume_token().text, "a");
    let end = parser.consume_token();
    assert_eq!(end.kind, TokenKind::Eof);
    assert_eq!(end.pos, 8);
    assert!(parser.diagnostics.is_empty());
}

#[test]
fn unterminated_block_comment_ending_in_a_star() {
    let mut parser = Parser::new("/* b *");
    let end = parser.consume_token();
    assert_eq!(end.kind, TokenKind::Eof);
    assert_eq!(end.pos, 6);
}

#[test]
fn slash_that_opens_no_comment_is_a_bad_character() {
    let mut parser = Parser::new("/ x");
    let x = parser.consume_token();
    assert_eq!(x.kind, TokenKind::Identifier);
    assert_eq!(x.text, "x");
    assert_eq!(x.pos, 2);
    assert_eq!(parser.diagnostics.len(), 1);
    assert_eq!(parser.diagnostics[0].message, "Bad character input '/'");
    assert_eq!(parser.diagnostics[0].pos, 0);
}

#[test]
fn slash_at_the_end_is_a_bad_character() {
    let mut parser = Parser::new("a /");
    assert_eq!(parser.consume_token().text, "a");
    let end = parser.consume_token();
    assert_eq!(end.kind, TokenKind::Eof);
    assert_eq!(end.pos, 3);
    assert_eq!(parser.diagnostics.len(), 1);
    assert_eq!(parser.diagnostics[0].message, "Bad character input '/'");
    assert_eq!(parser.diagnostics[0].pos, 2);
}

#[test]
fn slash_before_a_comment_is_a_bad_character() {
    let mut parser = Parser::new("/ // c\nb");
    let b = parser.consume_token();
    assert_eq!(b.text, "b");
    assert_eq!(b.pos, 7);
    assert_eq!(parser.diagnostics.len(), 1);
    assert_eq!(parser.diagnostics[0].pos, 0);
}

#[test]
fn diagnostics_are_handed_out() {
    let mut parser = Parser::new("@ x");
    assert!(parser.diagnostics().is_empty());
    parser.consume_token();
    assert_eq!(parser.diagnostics().len(), 1);
    assert_eq!(parser.diagnostics()[0].message, "Bad character input '@'");
    assert_eq!(parser.diagnostics()[0].pos, parser.diagnostics[0].pos);
}

#[test]
fn modifier_kinds() {
    assert!(TokenKind::PrivateKeyword.is_modifier());
    assert!(TokenKind::PublicKeyword.is_modifier());
    assert!(TokenKind::ProtectedKeyword.is_modifier());
    assert!(TokenKind::StaticKeyword.is_modifier());
    assert!(TokenKind::AbstractKeyword.is_modifier());
    assert!(TokenKind::FinalKeyword.is_modifier());
    assert!(!TokenKind::ClassKeyword.is_modifier());
    assert!(!TokenKind::Identifier.is_modifier());
    assert!(!TokenKind::SemiColon.is_modifier());
    assert!(!TokenKind::Eof.is_modifier());
}

#[test]
fn bad_character_is_reported_and_skipped() {
    let mut parser = Parser::new("a @# b");
    assert_eq!(parser.consume_token().text, "a");
    let b = parser.consume_token();
    assert_eq!(b.text, "b");
    assert_eq!(b.pos, 5);
    assert_eq!(parser.diagnostics.len(), 2);
    assert_eq!(parser.diagnostics[0].message, "Bad character input '@'");
    assert_eq!(parser.diagnostics[0].pos, 2);
    assert_eq!(parser.diagnostics[1].message, "Bad character input '#'");
    assert_eq!(parser.diagnostics[1].pos, 3);
}

#[test]
fn looking_ahead_does_not_consume() {
    let mut parser = Parser::new("  foo bar");
    let ahead = parser.curr_token();
    assert_eq!(ahead.text, "foo");
    assert_eq!(ahead.pos, 2);
    let again = parser.curr_token();
    assert_eq!(again.text, "foo");
    let taken = parser.consume_token();
    assert_eq!(taken.text, "foo");
    assert_eq!(parser.curr_token().text, "bar");
}

#[test]
fn looking_ahead_reports_a_bad_character_each_time() {
    let mut parser = Parser::new("@x");
    assert_eq!(parser.curr_token().text, "x");
    assert_eq!(parser.curr_token().text, "x");
    assert_eq!(parser.consume_token().text, "x");
    assert_eq!(parser.diagnostics.len(), 3);
    for diagnostic in &parser.diagnostics {
        assert_eq!(diagnostic.message, "Bad character input '@'");
        assert_eq!(diagnostic.pos, 0);
    }
}

#[test]
fn expected_token_is_returned() {
    let mut parser = Parser::new(" ;");
    let token = parser.consume_expected(TokenKind::SemiColon).expect("a semicolon");
    assert_eq!(token.kind, TokenKind::SemiColon);
    assert_eq!(token.pos, 1);
    assert!(parser.diagnostics.is_empty());
}

#[test]
fn unexpected_token_is_consumed_and_reported() {
    let mut parser = Parser::new(" ; x");
    assert!(parser.consume_expected(TokenKind::OpenCurly).is_none());
    assert_eq!(parser.diagnostics.len(), 1);
    assert_eq!(
        parser.diagnostics[0].message,
        "Unexpected Token of kind SemiColon, expected OpenCurly"
    );
    assert_eq!(parser.diagnostics[0].pos, 1);
    assert_eq!(parser.consume_token().text, "x");
}

#[test]
fn unexpected_end_of_input_is_reported_at_the_end() {
    let mut parser = Parser::new("  ");
    assert!(parser.consume_expected(TokenKind::Identifier).is_none());
    assert_eq!(
        parser.diagnostics[0].message,
        "Unexpected Token of kind Eof, expected Identifier"
    );
    assert_eq!(parser.diagnostics[0].pos, 2);
}

#[test]
fn optional_token_is_taken_or_left() {
    let mut parser = Parser::new("( x");
    assert!(!parser.consume_optional(TokenKind::SemiColon));
    assert!(parser.consume_optional(TokenKind::OpenParen));
    assert!(!parser.consume_optional(TokenKind::OpenParen));
    assert_eq!(parser.consume_token().text, "x");
    assert!(parser.diagnostics.is_empty());
}

#[test]
fn kind_names() {
    assert_eq!(TokenKind::Identifier.to_str(), "Identifier");
    assert_eq!(TokenKind::ClassKeyword.to_str(), "ClassKeyword");
    assert_eq!(TokenKind::PublicKeyword.to_str(), "PublicKeyword");
    assert_eq!(TokenKind::PrivateKeyword.to_str(), "PrivateKeyword");
    assert_eq!(TokenKind::FinalKeyword.to_str(), "FinalKeyword");
    assert_eq!(TokenKind::AbstractKeyword.to_str(), "AbstractKeyword");
    assert_eq!(TokenKind::ProtectedKeyword.to_str(), "ProtectedKeyword");
    assert_eq!(TokenKind::StaticKeyword.to_str(), "StaticKeyword");
    assert_eq!(TokenKind::OpenCurly.to_str(), "OpenCurly");
    assert_eq!(TokenKind::CloseCurly.to_str(), "CloseCurly");
    assert_eq!(TokenKind::OpenParen.to_str(), "OpenParen");
    assert_eq!(TokenKind::CloseParen.to_str(), "CloseParen");
    assert_eq!(TokenKind::SemiColon.to_str(), "SemiColon");
    assert_eq!(TokenKind::Comma.to_str(), "Comma");
    assert_eq!(TokenKind::Equal.to_str(), "Equal");
    assert_eq!(TokenKind::Eof.to_str(), "Eof");
}

#[test]
fn kind_names_are_the_debug_names() {
    for kind in [
        TokenKind::Identifier,
        TokenKind::ClassKeyword,
        TokenKind::PublicKeyword,
        TokenKind::PrivateKeyword,
        TokenKind::FinalKeyword,
        TokenKind::AbstractKeyword,
        TokenKind::ProtectedKeyword,
        TokenKind::StaticKeyword,
        TokenKind::OpenCurly,
        TokenKind::CloseCurly,
        TokenKind::OpenParen,
        TokenKind::CloseParen,
        TokenKind::SemiColon,
        TokenKind::Comma,
        TokenKind::Equal,
        TokenKind::Eof,
    ] {
        assert_eq!(format!("{:?}", kind), kind.to_str());
    }
}

#[test]
fn keyword_lookup() {
    assert_eq!(TokenKind::keyword_from_str("class"), TokenKind::ClassKeyword);
    assert_eq!(TokenKind::keyword_from_str("private"), TokenKind::PrivateKeyword);
    assert_eq!(TokenKind::keyword_from_str("public"), TokenKind::PublicKeyword);
    assert_eq!(TokenKind::keyword_from_str("static"), TokenKind::StaticKeyword);
    assert_eq!(TokenKind::keyword_from_str("protected"), TokenKind::ProtectedKeyword);
    assert_eq!(TokenKind::keyword_from_str("abstract"), TokenKind::AbstractKeyword);
    assert_eq!(TokenKind::keyword_from_str("final"), TokenKind::FinalKeyword);
    assert_eq!(TokenKind::keyword_from_str("Class"), TokenKind::Identifier);
    assert_eq!(TokenKind::keyword_from_str("finally"), TokenKind::Identifier);
    assert_eq!(TokenKind::keyword_from_str(""), TokenKind::Identifier);
}

#[test]
fn keyword_kinds() {
    assert!(TokenKind::ClassKeyword.is_keyword());
    assert!(TokenKind::PrivateKeyword.is_keyword());
    assert!(TokenKind::PublicKeyword.is_keyword());
    assert!(TokenKind::StaticKeyword.is_keyword());
    assert!(TokenKind::ProtectedKeyword.is_keyword());
    assert!(TokenKind::AbstractKeyword.is_keyword());
    assert!(TokenKind::FinalKeyword.is_keyword());
    assert!(!TokenKind::Identifier.is_keyword());
    assert!(!TokenKind::OpenCurly.is_keyword());
    assert!(!TokenKind::Eof.is_keyword());
}
