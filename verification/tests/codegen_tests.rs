use minicc::codegen::compile;
use minicc::codegen::generate;
use minicc::codegen::get_number;
use minicc::diagnostics::ErrorKind;
use minicc::lexer::tokenize;
use minicc::token::Token;
use minicc::token::TokenKind;

#[test]
fn single_numeral_program() {
    let out = compile(b"5").unwrap();
    assert_eq!(out.as_slice(), b"  .global main\nmain:\n  li a0, 5\n  ret\n".as_slice());
}

#[test]
fn mixed_sum_and_difference_program() {
    let out = compile(b"12+5-3").unwrap();
    let expect = b"  .global main\nmain:\n  li a0, 12\n  addi a0, a0, 5\n  addi a0, a0, -3\n  ret\n";
    assert_eq!(out.as_slice(), expect.as_slice());
}

#[test]
fn whitespace_does_not_change_program() {
    assert_eq!(compile(b" 1 + 2 ").unwrap(), compile(b"1+2").unwrap());
}

#[test]
fn long_numerals_pass_through_verbatim() {
    let out = compile(b"99999999999999999999+1").unwrap();
    let text = String::from_utf8(out).unwrap();
    assert!(text.contains("  li a0, 99999999999999999999\n"));
    assert!(text.contains("  addi a0, a0, 1\n"));
}

#[test]
fn leading_operator_is_expected_number() {
    let e = compile(b"+1").unwrap_err();
    assert_eq!(e.kind, ErrorKind::ExpectedNumber);
    assert_eq!(e.start, 0);
    assert_eq!(e.end, 1);
}

#[test]
fn empty_input_is_expected_number() {
    let e = compile(b"").unwrap_err();
    assert_eq!(e.kind, ErrorKind::ExpectedNumber);
    assert_eq!(e.start, 0);
    assert_eq!(e.end, 0);
}

#[test]
fn trailing_operator_is_expected_number_at_end() {
    let e = compile(b"1+").unwrap_err();
    assert_eq!(e.kind, ErrorKind::ExpectedNumber);
    assert_eq!(e.start, 2);
    assert_eq!(e.end, 2);
}

#[test]
fn stray_punctuation_is_invalid_token() {
    let e = compile(b"1*2").unwrap_err();
    assert_eq!(e.kind, ErrorKind::InvalidToken);
    assert_eq!(e.start, 1);
    assert_eq!(e.end, 2);
}

#[test]
fn lex_error_wins_over_syntax_error() {
    let e = compile(b"1+a").unwrap_err();
    assert_eq!(e.kind, ErrorKind::InvalidCharacter);
    assert_eq!(e.start, 2);
}

#[test]
fn generate_accepts_lexed_tokens() {
    let toks = tokenize(b"2+40").unwrap();
    let out = generate(&toks).unwrap();
    let expect = b"  .global main\nmain:\n  li a0, 2\n  addi a0, a0, 40\n  ret\n";
    assert_eq!(out.as_slice(), expect.as_slice());
}

#[test]
fn get_number_returns_numeral_text() {
    let t = Token::new(TokenKind::Number, b"37".to_vec(), 0, 2);
    assert_eq!(get_number(&t).unwrap().as_slice(), b"37");
}

#[test]
fn get_number_rejects_punctuation() {
    let t = Token::new(TokenKind::Punctuation, b"+".to_vec(), 4, 5);
    let e = get_number(&t).unwrap_err();
    assert_eq!(e.kind, ErrorKind::ExpectedNumber);
    assert_eq!(e.start, 4);
    assert_eq!(e.end, 5);
}
