use bc_rs::error::CalcError;
use bc_rs::tokenizer::{Token, Tokenizer};

fn num(r: Result<Token, CalcError>) -> f64 {
    match r {
        Ok(Token::Num(d)) => d.iter().collect::<String>().parse().unwrap(),
        other => panic!("expected a number, got {:?}", other),
    }
}

#[test]
fn tokenize() {
    let inp_expr = String::from("1 + 2 * 3");
    let mut tokenizer = Tokenizer::new_tokenizer(&inp_expr);
    assert_eq!(num(tokenizer.next()), 1.0);
    assert!(matches!(tokenizer.next(), Ok(Token::Add)));
    assert_eq!(num(tokenizer.next()), 2.0);
    assert!(matches!(tokenizer.next(), Ok(Token::Multiply)));
    assert_eq!(num(tokenizer.next()), 3.0);
}

#[test]
fn tokenize_f64_num() {
    let inp_expr = String::from("1 + 2.67 * 3.1");
    let mut tokenizer = Tokenizer::new_tokenizer(&inp_expr);
    assert_eq!(num(tokenizer.next()), 1.0);
    assert!(matches!(tokenizer.next(), Ok(Token::Add)));
    assert_eq!(num(tokenizer.next()), 2.67);
    assert!(matches!(tokenizer.next(), Ok(Token::Multiply)));
    assert_eq!(num(tokenizer.next()), 3.1);
}

#[test]
fn tokenize_f64_num_err() {
    let inp_expr = String::from("1 + (2.67 * 3.1)");
    let mut tokenizer = Tokenizer::new_tokenizer(&inp_expr);
    assert_eq!(num(tokenizer.next()), 1.0);
    assert!(matches!(tokenizer.next(), Ok(Token::Add)));
    assert!(matches!(tokenizer.next(), Ok(Token::LeftParen)));
    assert_eq!(num(tokenizer.next()), 2.67);
    assert!(matches!(tokenizer.next(), Ok(Token::Multiply)));
    assert_eq!(num(tokenizer.next()), 3.1);
    assert!(matches!(tokenizer.next(), Ok(Token::RightParen)));
}

#[test]
fn tokenize_all_symbols() {
    let mut tokenizer = Tokenizer::new_tokenizer("+-*x/^()");
    assert!(matches!(tokenizer.next(), Ok(Token::Add)));
    assert!(matches!(tokenizer.next(), Ok(Token::Deduct)));
    assert!(matches!(tokenizer.next(), Ok(Token::Multiply)));
    assert!(matches!(tokenizer.next(), Ok(Token::Multiply)));
    assert!(matches!(tokenizer.next(), Ok(Token::Divide)));
    assert!(matches!(tokenizer.next(), Ok(Token::Power)));
    assert!(matches!(tokenizer.next(), Ok(Token::LeftParen)));
    assert!(matches!(tokenizer.next(), Ok(Token::RightParen)));
    assert!(matches!(tokenizer.next(), Ok(Token::EOF)));
}

#[test]
fn tokenize_end_repeats() {
    let mut tokenizer = Tokenizer::new_tokenizer("7");
    assert_eq!(num(tokenizer.next()), 7.0);
    assert!(matches!(tokenizer.next(), Ok(Token::EOF)));
    assert!(matches!(tokenizer.next(), Ok(Token::EOF)));
}

#[test]
fn tokenize_skips_a_run_of_blanks() {
    let mut tokenizer = Tokenizer::new_tokenizer("  12 \t+\n");
    assert_eq!(num(tokenizer.next()), 12.0);
    assert!(matches!(tokenizer.next(), Ok(Token::Add)));
    assert!(matches!(tokenizer.next(), Ok(Token::EOF)));
}

#[test]
fn tokenize_unknown_character() {
    let mut tokenizer = Tokenizer::new_tokenizer("1 $ 2");
    assert_eq!(num(tokenizer.next()), 1.0);
    assert_eq!(tokenizer.next().unwrap_err(), CalcError::Lexical { ch: '$', pos: 2 });
}

#[test]
fn tokenize_two_decimal_points() {
    let mut tokenizer = Tokenizer::new_tokenizer("1.2.3");
    assert_eq!(tokenizer.next().unwrap_err(), CalcError::MalformedNumber);
}

#[test]
fn tokenize_trailing_point() {
    let mut tokenizer = Tokenizer::new_tokenizer("5.");
    assert_eq!(num(tokenizer.next()), 5.0);
}

#[test]
fn tokens_of_a_line() {
    let mut tokenizer = Tokenizer::new_tokenizer("(1 x 2)");
    let (tokens, stop) = tokenizer.tokens();
    assert_eq!(tokens.len(), 5);
    assert!(matches!(tokens[0], Token::LeftParen));
    assert!(matches!(tokens[2], Token::Multiply));
    assert!(matches!(tokens[4], Token::RightParen));
    assert_eq!(stop, Ok(()));

    let mut bad = Tokenizer::new_tokenizer("1 + a");
    let (tokens, stop) = bad.tokens();
    assert_eq!(tokens.len(), 2);
    assert_eq!(stop, Err(CalcError::Lexical { ch: 'a', pos: 4 }));
}

#[test]
fn token_to_operator_maps_operators_only() {
    assert!(matches!(Token::Power.token_to_operator(), Some(bc_rs::operator::Operator::Power)));
    assert!(matches!(Token::Deduct.token_to_operator(), Some(bc_rs::operator::Operator::Deduct)));
    assert!(Token::LeftParen.token_to_operator().is_none());
    assert!(Token::EOF.token_to_operator().is_none());
}
