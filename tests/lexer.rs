use katanoisi::chars::is_whitespace;
use katanoisi::{is_operator, tokenize, Error, Lexer, Lookahead, TokenType};

fn lex_all(src: &str) -> (Vec<(TokenType, String)>, Error) {
    let mut lexer = Lexer::new(src.as_bytes().to_vec());
    let mut tokens = Vec::new();
    loop {
        match lexer.next_token() {
            Ok(t) => tokens.push((t.token_type, t.content)),
            Err(e) => return (tokens, e),
        }
        assert!(tokens.len() < 1000);
    }
}

fn tok(kind: TokenType, content: &str) -> (TokenType, String) {
    (kind, content.to_string())
}

#[test]
fn empty_source_is_end_of_file() {
    let mut lexer = Lexer::new(Vec::new());
    assert_eq!(lexer.next_token().err(), Some(Error::EndOfFile));
    assert_eq!(lexer.next_token().err(), Some(Error::EndOfFile));
}

#[test]
fn whitespace_only_is_end_of_file() {
    assert_eq!(lex_all(" \t\r\n  \u{a0}"), (vec![], Error::EndOfFile));
}

#[test]
fn keyword_return() {
    assert_eq!(lex_all("return"), (vec![tok(TokenType::Keyword, "return")], Error::EndOfFile));
}

#[test]
fn identifier_returnx() {
    assert_eq!(lex_all("returnx"), (vec![tok(TokenType::Identifier, "returnx")], Error::EndOfFile));
}

#[test]
fn every_keyword() {
    for k in ["fn", "true", "false", "u8", "u16", "u32", "u64", "bool", "return", "if", "else", "void"] {
        assert_eq!(lex_all(k), (vec![tok(TokenType::Keyword, k)], Error::EndOfFile));
    }
    assert_eq!(lex_all("Fn"), (vec![tok(TokenType::Identifier, "Fn")], Error::EndOfFile));
    assert_eq!(lex_all("u128"), (vec![tok(TokenType::Identifier, "u128")], Error::EndOfFile));
}

#[test]
fn identifiers_with_underscores_and_digits() {
    assert_eq!(
        lex_all("_a1 b_2"),
        (vec![tok(TokenType::Identifier, "_a1"), tok(TokenType::Identifier, "b_2")], Error::EndOfFile)
    );
}

#[test]
fn unicode_identifier() {
    assert_eq!(lex_all("été"), (vec![tok(TokenType::Identifier, "été")], Error::EndOfFile));
}

#[test]
fn integer_literal() {
    assert_eq!(lex_all("123"), (vec![tok(TokenType::IntegerLiteral, "123")], Error::EndOfFile));
}

#[test]
fn letter_inside_number_is_invalid() {
    assert_eq!(lex_all("12a").1, Error::InvalidCharacter);
    assert!(lex_all("12a").0.is_empty());
    assert_eq!(lex_all("1_").1, Error::InvalidCharacter);
}

#[test]
fn number_ends_at_operator() {
    assert_eq!(
        lex_all("12+3"),
        (
            vec![
                tok(TokenType::IntegerLiteral, "12"),
                tok(TokenType::Operator, "+"),
                tok(TokenType::IntegerLiteral, "3"),
            ],
            Error::EndOfFile
        )
    );
}

#[test]
fn string_literal() {
    assert_eq!(lex_all("\"hello\""), (vec![tok(TokenType::StringLiteral, "hello")], Error::EndOfFile));
}

#[test]
fn string_literal_then_word() {
    assert_eq!(
        lex_all("\"a b\"x"),
        (vec![tok(TokenType::StringLiteral, "a b"), tok(TokenType::Identifier, "x")], Error::EndOfFile)
    );
}

#[test]
fn empty_and_unterminated_strings() {
    assert_eq!(lex_all("\"\""), (vec![tok(TokenType::StringLiteral, "")], Error::EndOfFile));
    assert_eq!(lex_all("\"abc"), (vec![tok(TokenType::StringLiteral, "abc")], Error::EndOfFile));
}

#[test]
fn escaped_quote_stays_in_string() {
    assert_eq!(
        lex_all("\"a\\\"b\""),
        (vec![tok(TokenType::StringLiteral, "a\\\"b")], Error::EndOfFile)
    );
    assert_eq!(lex_all("\"a\\\\\""), (vec![tok(TokenType::StringLiteral, "a\\\\")], Error::EndOfFile));
}

#[test]
fn comment_inside_string_is_kept() {
    assert_eq!(lex_all("\"//\""), (vec![tok(TokenType::StringLiteral, "//")], Error::EndOfFile));
}

#[test]
fn triple_right_shift() {
    assert_eq!(lex_all(">>>"), (vec![tok(TokenType::Operator, ">>>")], Error::EndOfFile));
}

#[test]
fn right_shift_then_less() {
    assert_eq!(
        lex_all(">><"),
        (vec![tok(TokenType::Operator, ">>"), tok(TokenType::Operator, "<")], Error::EndOfFile)
    );
}

#[test]
fn compound_operators() {
    assert_eq!(
        lex_all("+= == && || <= >= /* ++ -- ;;"),
        (
            vec![
                tok(TokenType::Operator, "+"),
                tok(TokenType::Operator, "="),
                tok(TokenType::Operator, "=="),
                tok(TokenType::Operator, "&&"),
                tok(TokenType::Operator, "||"),
                tok(TokenType::Operator, "<="),
                tok(TokenType::Operator, ">="),
                tok(TokenType::Operator, "/*"),
                tok(TokenType::Operator, "++"),
                tok(TokenType::Operator, "--"),
                tok(TokenType::Operator, ";"),
                tok(TokenType::Operator, ";"),
            ],
            Error::EndOfFile
        )
    );
}

#[test]
fn operator_of_three_ends() {
    assert_eq!(
        lex_all(">>>>"),
        (vec![tok(TokenType::Operator, ">>>"), tok(TokenType::Operator, ">")], Error::EndOfFile)
    );
    assert_eq!(
        lex_all("(("),
        (vec![tok(TokenType::Operator, "("), tok(TokenType::Operator, "(")], Error::EndOfFile)
    );
}

#[test]
fn negative_integer() {
    assert_eq!(lex_all("-5"), (vec![tok(TokenType::IntegerLiteral, "-5")], Error::EndOfFile));
}

#[test]
fn minus_space_five() {
    assert_eq!(
        lex_all("- 5"),
        (vec![tok(TokenType::Operator, "-"), tok(TokenType::IntegerLiteral, "5")], Error::EndOfFile)
    );
}

#[test]
fn line_comment_is_skipped() {
    assert_eq!(lex_all("// comment\nx"), (vec![tok(TokenType::Identifier, "x")], Error::EndOfFile));
}

#[test]
fn comments_in_a_row_and_at_end() {
    assert_eq!(
        lex_all("a // one\n// two\n//\nb // three"),
        (vec![tok(TokenType::Identifier, "a"), tok(TokenType::Identifier, "b")], Error::EndOfFile)
    );
    assert_eq!(lex_all("//"), (vec![], Error::EndOfFile));
}

#[test]
fn invalid_start_character() {
    assert_eq!(lex_all("#"), (vec![], Error::InvalidCharacter));
    assert_eq!(lex_all("a @"), (vec![tok(TokenType::Identifier, "a")], Error::InvalidCharacter));
}

#[test]
fn small_program() {
    assert_eq!(
        lex_all("fn main() { return x1 >= -42; }"),
        (
            vec![
                tok(TokenType::Keyword, "fn"),
                tok(TokenType::Identifier, "main"),
                tok(TokenType::Operator, "("),
                tok(TokenType::Operator, ")"),
                tok(TokenType::Operator, "{"),
                tok(TokenType::Keyword, "return"),
                tok(TokenType::Identifier, "x1"),
                tok(TokenType::Operator, ">="),
                tok(TokenType::IntegerLiteral, "-42"),
                tok(TokenType::Operator, ";"),
                tok(TokenType::Operator, "}"),
            ],
            Error::EndOfFile
        )
    );
}

#[test]
fn fresh_tokenizers_agree() {
    let src = "fn f(a) { \"s\" // c\n 12 >>> -3 }";
    assert_eq!(lex_all(src), lex_all(src));
    assert_eq!(lex_all(src).0.len(), 11);
}

#[test]
fn lookahead_is_primed_and_kept() {
    let mut lexer = Lexer::new(b"ab+c".to_vec());
    assert_eq!(lexer.current(), Lookahead::Char('a'));
    assert_eq!(lexer.next_token().unwrap().content, "ab");
    assert_eq!(lexer.current(), Lookahead::Char('+'));
    assert_eq!(lexer.next_token().unwrap().content, "+");
    assert_eq!(lexer.current(), Lookahead::Char('c'));
    assert_eq!(lexer.next_token().unwrap().content, "c");
    assert_eq!(lexer.current(), Lookahead::End);
    assert_eq!(lexer.next_token().err(), Some(Error::EndOfFile));
}

#[test]
fn decode_error_reaches_the_caller() {
    let mut lexer = Lexer::new(vec![b'a', 0xF8]);
    assert_eq!(lexer.next_token().err(), Some(Error::DecoderError));
    assert_eq!(lexer.next_token().err(), Some(Error::DecoderError));
    let mut first = Lexer::new(vec![0xE2, 0x82]);
    assert_eq!(first.current(), Lookahead::End);
    assert_eq!(first.fault(), Some(Error::UnexpectedEndOfFile));
    assert_eq!(first.next_token().err(), Some(Error::UnexpectedEndOfFile));
    assert_eq!(first.next_token().err(), Some(Error::UnexpectedEndOfFile));
}

#[test]
fn operator_characters() {
    for c in "+-*/,.=><|&?:;()[]{}".chars() {
        assert!(is_operator(c));
    }
    for c in "a1_\"#@ \n".chars() {
        assert!(!is_operator(c));
    }
}

#[test]
fn decode_error_inside_token_keeps_last_character() {
    let mut lexer = Lexer::new(vec![b'a', b'b', 0xFF, b'c']);
    assert_eq!(lexer.next_token().err(), Some(Error::DecoderError));
    assert_eq!(lexer.current(), Lookahead::Char('b'));
    assert_eq!(lexer.fault(), Some(Error::DecoderError));
}

#[test]
fn whitespace_matches_std() {
    for v in 0u32..=0x10FFFF {
        if let Some(c) = char::from_u32(v) {
            assert_eq!(is_whitespace(c), c.is_whitespace(), "{:x}", v);
        }
    }
}

#[test]
fn tokenize_repeats_next_token() {
    let src = "x = -1 // c\n\"s\"";
    let r = tokenize(src.as_bytes().to_vec(), 6);
    assert_eq!(r.len(), 6);
    let mut lexer = Lexer::new(src.as_bytes().to_vec());
    for item in r.iter() {
        let again = lexer.next_token();
        match (item, again) {
            (Ok(a), Ok(b)) => {
                assert_eq!(a.token_type, b.token_type);
                assert_eq!(a.content, b.content);
            }
            (Err(a), Err(b)) => assert_eq!(*a, b),
            _ => panic!("results differ"),
        }
    }
    assert_eq!(r[0].as_ref().unwrap().content, "x");
    assert_eq!(r[2].as_ref().unwrap().token_type, TokenType::IntegerLiteral);
    assert_eq!(r[3].as_ref().unwrap().content, "s");
    assert_eq!(r[4].as_ref().err(), Some(&Error::EndOfFile));
    assert_eq!(r[5].as_ref().err(), Some(&Error::EndOfFile));
}

#[test]
fn fresh_tokenize_calls_agree() {
    let bytes = b"fn f() { return 12 >>> -3; } \xC3".to_vec();
    let a = tokenize(bytes.clone(), 14);
    let b = tokenize(bytes, 14);
    for (x, y) in a.iter().zip(b.iter()) {
        match (x, y) {
            (Ok(p), Ok(q)) => assert_eq!((p.token_type, &p.content), (q.token_type, &q.content)),
            (Err(p), Err(q)) => assert_eq!(p, q),
            _ => panic!("results differ"),
        }
    }
    assert_eq!(a[13].as_ref().err(), Some(&Error::UnexpectedEndOfFile));
}
