use walc::lexer::{lex, Lexeme};
use walc::parser::{parse, ParseError, Parser};
use walc::token::Token;
use walc::token::Token::{Add, Divide, Multiply, Number, Subtract};

fn num(text: &str) -> Token {
    Number { value: text.to_string() }
}

fn lit(text: &str) -> Lexeme {
    Lexeme::Number { value: text.to_string() }
}

#[test]
fn test_lex() {
    let input = "(3 + 5) * 3 / -2";
    let lexemes = lex(input);

    let three = num("3");
    let five = num("5");
    let plus = Add { left: Box::new(three), right: Box::new(five) };
    let three = num("3");
    let times = Multiply { left: Box::new(plus), right: Box::new(three) };
    let neg_two = num("-2");
    let divide = Divide { left: Box::new(times), right: Box::new(neg_two) };

    assert_eq!(divide, parse(lexemes).unwrap().unwrap());
}

#[test]
fn test_empty() {
    let input = "";
    assert_eq!(Ok(None), parse(lex(input)))
}

#[test]
fn test_invalid_lexeme() {
    let input = "3+";
    assert_eq!(Err(ParseError::ExpectedNumber), parse(lex(input)));
}

#[test]
fn unterminated_parentheses() {
    assert_eq!(Err(ParseError::UnterminatedParentheses), parse(lex("(3+5")));
}

#[test]
fn stray_close_paren_expects_number() {
    assert_eq!(Err(ParseError::ExpectedNumber), parse(lex(")3")));
}

#[test]
fn blank_line_is_no_expression() {
    assert_eq!(Ok(None), parse(lex("  \t\n")));
}

#[test]
fn multiplication_binds_tighter() {
    let expected = Add {
        left: Box::new(Multiply { left: Box::new(num("2")), right: Box::new(num("3")) }),
        right: Box::new(num("4")),
    };
    assert_eq!(expected, parse(lex("2 * 3 + 4")).unwrap().unwrap());
}

#[test]
fn addition_before_product_still_binds_looser() {
    let expected = Add {
        left: Box::new(num("2")),
        right: Box::new(Multiply { left: Box::new(num("3")), right: Box::new(num("4")) }),
    };
    assert_eq!(expected, parse(lex("2 + 3 * 4")).unwrap().unwrap());
}

#[test]
fn subtraction_groups_left() {
    let expected = Subtract {
        left: Box::new(Subtract { left: Box::new(num("5")), right: Box::new(num("2")) }),
        right: Box::new(num("1")),
    };
    assert_eq!(expected, parse(lex("5 - 2 - 1")).unwrap().unwrap());
}

#[test]
fn division_groups_left() {
    let expected = Divide {
        left: Box::new(Divide { left: Box::new(num("8")), right: Box::new(num("4")) }),
        right: Box::new(num("2")),
    };
    assert_eq!(expected, parse(lex("8/4/2")).unwrap().unwrap());
}

#[test]
fn division_by_zero_still_parses() {
    let expected = Divide { left: Box::new(num("3")), right: Box::new(num("0")) };
    assert_eq!(expected, parse(lex("3/0")).unwrap().unwrap());
}

#[test]
fn end_to_end_line_parses() {
    let zero = Subtract { left: Box::new(num("3")), right: Box::new(num("3")) };
    let doubled = Multiply { left: Box::new(zero), right: Box::new(num("2")) };
    let minus_one = Subtract { left: Box::new(doubled), right: Box::new(num("1")) };
    let half = Divide { left: Box::new(num("1")), right: Box::new(num("2")) };
    let expected = Add { left: Box::new(minus_one), right: Box::new(half) };
    assert_eq!(expected, parse(lex("(3 - 3) *2 - 1+1 / 2")).unwrap().unwrap());
}

#[test]
fn trailing_lexemes_are_rejected() {
    assert_eq!(Err(ParseError::ExpectedNumber), parse(lex("3 4")));
    assert_eq!(Err(ParseError::ExpectedNumber), parse(lex("3)")));
    assert_eq!(Err(ParseError::ExpectedNumber), parse(lex("(1 + 2) 3")));
}

#[test]
fn lex_operators_and_numbers() {
    let expected = vec![
        Lexeme::OpenParen,
        lit("3"),
        Lexeme::Plus,
        lit("5"),
        Lexeme::CloseParen,
        Lexeme::Star,
        lit("3"),
        Lexeme::Slash,
        lit("-2"),
        Lexeme::EOF,
    ];
    assert_eq!(expected, lex("(3 + 5) * 3 / -2"));
}

#[test]
fn lex_is_deterministic() {
    let s = "(1.5 - 2) * -3 / 4";
    assert_eq!(lex(s), lex(s));
}

#[test]
fn lex_decimal_literal() {
    assert_eq!(vec![lit("12.75"), Lexeme::EOF], lex("12.75"));
}

#[test]
fn lex_second_decimal_point_stops_scan() {
    assert_eq!(vec![lit("1.2"), Lexeme::EOF], lex("1.2.3"));
}

#[test]
fn lex_minus_after_operand_is_operator() {
    assert_eq!(vec![lit("3"), Lexeme::Minus, lit("2"), Lexeme::EOF], lex("3 -2"));
    assert_eq!(vec![lit("3"), Lexeme::Minus, lit("2"), Lexeme::EOF], lex("3-2"));
}

#[test]
fn lex_minus_after_close_paren_is_operator() {
    let expected = vec![
        Lexeme::OpenParen,
        lit("1"),
        Lexeme::CloseParen,
        Lexeme::Minus,
        lit("2"),
        Lexeme::EOF,
    ];
    assert_eq!(expected, lex("(1)-2"));
}

#[test]
fn lex_minus_at_start_is_sign() {
    assert_eq!(vec![lit("-7"), Lexeme::Plus, lit("1"), Lexeme::EOF], lex("-7 + 1"));
}

#[test]
fn lex_unknown_character_ends_scan() {
    assert_eq!(vec![lit("3"), Lexeme::Plus, Lexeme::EOF], lex("3 + x 4"));
    assert_eq!(Err(ParseError::ExpectedNumber), parse(lex("3 + x 4")));
}

#[test]
fn lex_empty_is_only_eof() {
    assert_eq!(vec![Lexeme::EOF], lex(""));
}

#[test]
fn lex_skips_line_end() {
    assert_eq!(vec![lit("42"), Lexeme::EOF], lex("42\r\n"));
}

#[test]
fn parser_cursor_helpers() {
    let mut p = Parser { index: 0, lexemes: lex("1 + 2") };
    assert!(p.in_bounds());
    assert!(p.has(lit("1")));
    assert!(!p.has(Lexeme::Plus));
    assert_eq!(lit("1"), p.next());
    assert_eq!(1, p.index);
    assert_eq!(&Lexeme::Plus, p.current());
    p.advance();
    assert_eq!(&lit("2"), p.current());
    p.advance();
    assert_eq!(&Lexeme::EOF, p.current());
    p.advance();
    assert!(!p.in_bounds());
    assert!(!p.has(Lexeme::EOF));
}

#[test]
fn long_chain_groups_left_with_products_inside() {
    let product = Multiply { left: Box::new(num("2")), right: Box::new(num("3")) };
    let quotient = Divide { left: Box::new(num("4")), right: Box::new(num("2")) };
    let first = Subtract { left: Box::new(num("1")), right: Box::new(product) };
    let second = Add { left: Box::new(first), right: Box::new(quotient) };
    let expected = Subtract { left: Box::new(second), right: Box::new(num("5")) };
    assert_eq!(expected, parse(lex("1 - 2 * 3 + 4 / 2 - 5")).unwrap().unwrap());
}
