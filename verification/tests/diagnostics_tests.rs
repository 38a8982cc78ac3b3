use minicc::codegen::compile;
use minicc::diagnostics::CompileError;
use minicc::diagnostics::ErrorKind;
use minicc::diagnostics::error_at;
use minicc::diagnostics::error_token;
use minicc::token::Token;
use minicc::token::TokenKind;

#[test]
fn error_at_points_carets_under_span() {
    let out = error_at(b"12+5-3", 2, 3, b"oops");
    assert_eq!(out.as_slice(), b"12+5-3\n  ^ oops\n".as_slice());
}

#[test]
fn error_at_covers_multi_byte_span() {
    let out = error_at(b"12+5-3", 0, 2, b"here");
    assert_eq!(out.as_slice(), b"12+5-3\n^^ here\n".as_slice());
}

#[test]
fn error_at_empty_span_has_no_carets() {
    let out = error_at(b"1+", 2, 2, b"expect a number");
    assert_eq!(out.as_slice(), b"1+\n   expect a number\n".as_slice());
}

#[test]
fn error_token_uses_token_span() {
    let t = Token::new(TokenKind::Punctuation, b"+".to_vec(), 0, 1);
    let out = error_token(b"+1", &t, b"expect a number");
    assert_eq!(out.as_slice(), b"+1\n^ expect a number\n".as_slice());
}

#[test]
fn invalid_character_message_names_the_byte() {
    let e = compile(b"1+a").unwrap_err();
    assert_eq!(e.message(b"1+a").as_slice(), b"invalid character: a".as_slice());
}

#[test]
fn invalid_token_message_names_the_token() {
    let e = compile(b"1*2").unwrap_err();
    assert_eq!(e.message(b"1*2").as_slice(), b"invalid token: *".as_slice());
}

#[test]
fn expected_number_message_is_fixed() {
    let e = CompileError { kind: ErrorKind::ExpectedNumber, start: 0, end: 1 };
    assert_eq!(e.message(b"+1").as_slice(), b"expect a number".as_slice());
}

#[test]
fn render_draws_source_and_caret_line() {
    let e = compile(b"1+a").unwrap_err();
    assert_eq!(e.render(b"1+a").as_slice(), b"1+a\n  ^ invalid character: a\n".as_slice());
}

#[test]
fn render_expected_number_at_start() {
    let e = compile(b"+1").unwrap_err();
    assert_eq!(e.render(b"+1").as_slice(), b"+1\n^ expect a number\n".as_slice());
}
