use jinjer::tokenizer::{Token, TokenKind, Tokenizer};

fn tokenizer_from_str(x: &str) -> Tokenizer {
    Tokenizer::from_source(x.chars().collect())
}

#[test]
fn tokenize_simple_expr() {
    let mut tokenizer = tokenizer_from_str("x + 22 ");
    assert_eq!(
        tokenizer.pop(),
        Token { col: 0, line: 0, length: 1, kind: TokenKind::Ident("x".to_string()) },
    );
    assert_eq!(tokenizer.pop(), Token { col: 2, line: 0, length: 1, kind: TokenKind::Plus });
    assert_eq!(tokenizer.pop(), Token { col: 4, line: 0, length: 2, kind: TokenKind::Int(22) });
    assert_eq!(tokenizer.pop(), Token { col: 0, line: 1, length: 0, kind: TokenKind::Eof });
}

#[test]
fn unterminated_string_yields_error_token() {
    let mut tokenizer = tokenizer_from_str("\"abc");
    assert_eq!(
        tokenizer.pop(),
        Token {
            col: 0,
            line: 0,
            length: 4,
            kind: TokenKind::Error("unterminated string".to_string()),
        },
    );
}

#[test]
fn terminated_string_keeps_its_text_and_span() {
    let mut tokenizer = tokenizer_from_str("\"ab\"");
    assert_eq!(
        tokenizer.pop(),
        Token { col: 0, line: 0, length: 4, kind: TokenKind::Str("ab".to_string()) },
    );
}

#[test]
fn unrecognized_character_yields_error_token() {
    let mut tokenizer = tokenizer_from_str("#");
    assert_eq!(
        tokenizer.pop(),
        Token {
            col: 0,
            line: 0,
            length: 1,
            kind: TokenKind::Error("unrecognized token".to_string()),
        },
    );
}

#[test]
fn keywords_are_recognized_case_sensitively() {
    let mut tokenizer = tokenizer_from_str("let in and or else if false true with Let");
    assert_eq!(tokenizer.pop().kind, TokenKind::Let);
    assert_eq!(tokenizer.pop().kind, TokenKind::In);
    assert_eq!(tokenizer.pop().kind, TokenKind::And);
    assert_eq!(tokenizer.pop().kind, TokenKind::Or);
    assert_eq!(tokenizer.pop().kind, TokenKind::Else);
    assert_eq!(tokenizer.pop().kind, TokenKind::If);
    assert_eq!(tokenizer.pop().kind, TokenKind::False);
    assert_eq!(tokenizer.pop().kind, TokenKind::True);
    assert_eq!(tokenizer.pop().kind, TokenKind::With);
    assert_eq!(tokenizer.pop().kind, TokenKind::Ident("Let".to_string()));
}

#[test]
fn two_character_operators_are_greedy() {
    let mut tokenizer = tokenizer_from_str("== != <= >= < > ! = ( ) , . - + * / %");
    assert_eq!(tokenizer.pop().kind, TokenKind::EqualEqual);
    assert_eq!(tokenizer.pop().kind, TokenKind::BangEqual);
    assert_eq!(tokenizer.pop().kind, TokenKind::LesserEqual);
    assert_eq!(tokenizer.pop().kind, TokenKind::GreaterEqual);
    assert_eq!(tokenizer.pop().kind, TokenKind::Lesser);
    assert_eq!(tokenizer.pop().kind, TokenKind::Greater);
    assert_eq!(tokenizer.pop().kind, TokenKind::Bang);
    assert_eq!(tokenizer.pop().kind, TokenKind::Equal);
    assert_eq!(tokenizer.pop().kind, TokenKind::LParen);
    assert_eq!(tokenizer.pop().kind, TokenKind::RParen);
    assert_eq!(tokenizer.pop().kind, TokenKind::Comma);
    assert_eq!(tokenizer.pop().kind, TokenKind::Dot);
    assert_eq!(tokenizer.pop().kind, TokenKind::Minus);
    assert_eq!(tokenizer.pop().kind, TokenKind::Plus);
    assert_eq!(tokenizer.pop().kind, TokenKind::Star);
    assert_eq!(tokenizer.pop().kind, TokenKind::Slash);
    assert_eq!(tokenizer.pop().kind, TokenKind::Percent);
    assert_eq!(tokenizer.pop().kind, TokenKind::Eof);
}

#[test]
fn comments_run_to_end_of_line() {
    let mut tokenizer = tokenizer_from_str("1 // all of this is skipped + 2\n3");
    assert_eq!(tokenizer.pop().kind, TokenKind::Int(1));
    assert_eq!(tokenizer.pop(), Token { col: 0, line: 1, length: 1, kind: TokenKind::Int(3) });
    assert_eq!(tokenizer.pop().kind, TokenKind::Eof);
}

#[test]
fn integer_literals_wrap_like_fixed_width_arithmetic() {
    let mut tokenizer = tokenizer_from_str("2147483648");
    assert_eq!(tokenizer.pop().kind, TokenKind::Int(i32::MIN));
}

#[test]
fn peek_does_not_consume() {
    let mut tokenizer = tokenizer_from_str("a b");
    assert_eq!(tokenizer.peek().kind.clone(), TokenKind::Ident("a".to_string()));
    assert_eq!(tokenizer.pop().kind, TokenKind::Ident("a".to_string()));
    assert_eq!(tokenizer.pop().kind, TokenKind::Ident("b".to_string()));
}

#[test]
fn popping_past_the_end_keeps_returning_eof() {
    let mut tokenizer = tokenizer_from_str("");
    assert_eq!(tokenizer.pop(), Token { col: 0, line: 0, length: 0, kind: TokenKind::Eof });
    assert_eq!(tokenizer.pop(), Token { col: 0, line: 0, length: 0, kind: TokenKind::Eof });
}

#[test]
fn multi_character_identifiers_take_digits_and_underscores() {
    let mut tokenizer = tokenizer_from_str("abc1_x");
    assert_eq!(
        tokenizer.pop(),
        Token { col: 0, line: 0, length: 6, kind: TokenKind::Ident("abc1_x".to_string()) },
    );
}

#[test]
fn positions_track_lines_and_columns() {
    let mut tokenizer = tokenizer_from_str("a\n  b");
    assert_eq!(
        tokenizer.pop(),
        Token { col: 0, line: 0, length: 1, kind: TokenKind::Ident("a".to_string()) },
    );
    assert_eq!(
        tokenizer.pop(),
        Token { col: 2, line: 1, length: 1, kind: TokenKind::Ident("b".to_string()) },
    );
}
