use fllaf::lexer::Lexer;
use fllaf::token::Token;
use fllaf::token::LexError;

/// Pull tokens until `EndOfFile`, collecting everything before it.
fn scan_all(src: &str) -> Result<Vec<Token>, LexError> {
    let mut lexer = Lexer::new(src);
    let mut out = Vec::new();
    loop {
        match lexer.next_token() {
            Ok(Token::EndOfFile) => return Ok(out),
            Ok(t) => out.push(t),
            Err(e) => return Err(e),
        }
    }
}

#[test]
fn empty_input_is_end_of_file() {
    let mut lexer = Lexer::new("");
    assert_eq!(lexer.next_token(), Ok(Token::EndOfFile));
}

#[test]
fn ascii_whitespace_only_is_end_of_file() {
    let mut lexer = Lexer::new(" \t\r\n  ");
    assert_eq!(lexer.next_token(), Ok(Token::EndOfFile));
}

#[test]
fn unicode_whitespace_only_is_end_of_file() {
    let mut lexer = Lexer::new("\u{00A0}\u{2003}\u{3000}");
    assert_eq!(lexer.next_token(), Ok(Token::EndOfFile));
}

#[test]
fn single_punctuation_tokens() {
    assert_eq!(scan_all("+"), Ok(vec![Token::Plus]));
    assert_eq!(scan_all("-"), Ok(vec![Token::Minus]));
    assert_eq!(scan_all("*"), Ok(vec![Token::Multiply]));
    assert_eq!(scan_all("("), Ok(vec![Token::LParen]));
    assert_eq!(scan_all(")"), Ok(vec![Token::RParen]));
    assert_eq!(scan_all(";"), Ok(vec![Token::Semicolon]));
    assert_eq!(scan_all("."), Ok(vec![Token::Dot]));
}

#[test]
fn string_literal_round_trip() {
    assert_eq!(
        scan_all("\"abc\""),
        Ok(vec![Token::StringLiteral("abc".to_string())])
    );
}

#[test]
fn string_literal_resumes_right_after_closing_quote() {
    assert_eq!(
        scan_all("\"abc\"42"),
        Ok(vec![Token::StringLiteral("abc".to_string()), Token::Number(42)])
    );
}

#[test]
fn empty_string_literal() {
    assert_eq!(scan_all("\"\""), Ok(vec![Token::StringLiteral("".to_string())]));
}

#[test]
fn unterminated_string_literal_fails() {
    assert_eq!(scan_all("\"abc"), Err(LexError::UnterminatedString));
}

#[test]
fn max_signed_64_bit_number_scans() {
    assert_eq!(
        scan_all("9223372036854775807"),
        Ok(vec![Token::Number(9223372036854775807)])
    );
}

#[test]
fn one_past_max_number_overflows() {
    assert_eq!(scan_all("9223372036854775808"), Err(LexError::NumberOverflow));
}

#[test]
fn plain_numbers() {
    assert_eq!(scan_all("0"), Ok(vec![Token::Number(0)]));
    assert_eq!(scan_all("42"), Ok(vec![Token::Number(42)]));
    assert_eq!(scan_all("007"), Ok(vec![Token::Number(7)]));
}

#[test]
fn leading_minus_is_its_own_token() {
    assert_eq!(scan_all("-5"), Ok(vec![Token::Minus, Token::Number(5)]));
}

#[test]
fn number_run_ends_at_first_non_digit() {
    assert_eq!(
        scan_all("12ab"),
        Ok(vec![Token::Number(12), Token::Identifier("ab".to_string())])
    );
}

#[test]
fn keyword_system_is_recognised() {
    assert_eq!(scan_all("System"), Ok(vec![Token::System]));
}

#[test]
fn keyword_prefix_is_an_identifier() {
    assert_eq!(
        scan_all("Systemx"),
        Ok(vec![Token::Identifier("Systemx".to_string())])
    );
}

#[test]
fn keyword_log_is_recognised() {
    assert_eq!(scan_all("log"), Ok(vec![Token::Log]));
}

#[test]
fn keyword_lookup_is_case_sensitive() {
    assert_eq!(scan_all("LOG"), Ok(vec![Token::Identifier("LOG".to_string())]));
}

#[test]
fn identifier_may_contain_underscores_and_digits() {
    assert_eq!(
        scan_all("a_b1"),
        Ok(vec![Token::Identifier("a_b1".to_string())])
    );
}

#[test]
fn leading_underscore_is_unexpected() {
    assert_eq!(scan_all("_a"), Err(LexError::UnexpectedCharacter('_')));
}

#[test]
fn unexpected_character_is_reported() {
    assert_eq!(scan_all("#"), Err(LexError::UnexpectedCharacter('#')));
}

#[test]
fn line_comment_without_trailing_newline() {
    assert_eq!(
        scan_all("// trailing"),
        Ok(vec![Token::Comment(" trailing".to_string())])
    );
}

#[test]
fn line_comment_stops_at_newline_without_eating_it() {
    assert_eq!(
        scan_all("// a\n+"),
        Ok(vec![Token::Comment(" a".to_string()), Token::Plus])
    );
}

#[test]
fn block_comment_body_is_exact() {
    assert_eq!(
        scan_all("/* a */"),
        Ok(vec![Token::BlockComment(" a ".to_string())])
    );
}

#[test]
fn empty_block_comment() {
    assert_eq!(scan_all("/**/"), Ok(vec![Token::BlockComment("".to_string())]));
}

#[test]
fn block_comment_keeps_inner_stars() {
    assert_eq!(scan_all("/***/"), Ok(vec![Token::BlockComment("*".to_string())]));
}

#[test]
fn unterminated_block_comment_fails() {
    assert_eq!(scan_all("/* unterminated"), Err(LexError::UnterminatedBlockComment));
}

#[test]
fn half_closed_block_comment_fails() {
    assert_eq!(scan_all("/*/"), Err(LexError::UnterminatedBlockComment));
}

#[test]
fn bare_slash_is_divide() {
    assert_eq!(scan_all("/"), Ok(vec![Token::Divide]));
}

#[test]
fn slash_lookahead_is_not_consumed() {
    assert_eq!(
        scan_all("a/b"),
        Ok(vec![
            Token::Identifier("a".to_string()),
            Token::Divide,
            Token::Identifier("b".to_string()),
        ])
    );
    assert_eq!(
        scan_all("6/2"),
        Ok(vec![Token::Number(6), Token::Divide, Token::Number(2)])
    );
}

#[test]
fn full_statement_scans_to_exact_sequence() {
    assert_eq!(
        scan_all("System.log(\"hi\"); // done"),
        Ok(vec![
            Token::System,
            Token::Dot,
            Token::Log,
            Token::LParen,
            Token::StringLiteral("hi".to_string()),
            Token::RParen,
            Token::Semicolon,
            Token::Comment(" done".to_string()),
        ])
    );
}

#[test]
fn multi_byte_string_literal_content_is_exact() {
    assert_eq!(
        scan_all("\"héλλo☃\""),
        Ok(vec![Token::StringLiteral("héλλo☃".to_string())])
    );
}

#[test]
fn scanning_resumes_after_multi_byte_string() {
    assert_eq!(
        scan_all("\"λ\"+"),
        Ok(vec![Token::StringLiteral("λ".to_string()), Token::Plus])
    );
}

#[test]
fn multi_byte_line_comment_content_is_exact() {
    assert_eq!(
        scan_all("// κόσμε"),
        Ok(vec![Token::Comment(" κόσμε".to_string())])
    );
}

#[test]
fn multi_byte_block_comment_content_is_exact() {
    assert_eq!(
        scan_all("/* こんにちは */"),
        Ok(vec![Token::BlockComment(" こんにちは ".to_string())])
    );
}

#[test]
fn token_debug_representation_is_tag_then_payload() {
    assert_eq!(
        format!("{:?}", Token::Identifier("foo".to_string())),
        "Identifier(\"foo\")"
    );
    assert_eq!(format!("{:?}", Token::Number(42)), "Number(42)");
    assert_eq!(
        format!("{:?}", Token::StringLiteral("hi".to_string())),
        "StringLiteral(\"hi\")"
    );
    assert_eq!(format!("{:?}", Token::Plus), "Plus");
    assert_eq!(
        format!("{:?}", Token::Comment(" rest of line".to_string())),
        "Comment(\" rest of line\")"
    );
    assert_eq!(
        format!("{:?}", Token::BlockComment(" body ".to_string())),
        "BlockComment(\" body \")"
    );
}

#[test]
fn non_ascii_letters_form_identifiers() {
    assert_eq!(
        scan_all("héllo"),
        Ok(vec![Token::Identifier("héllo".to_string())])
    );
}
