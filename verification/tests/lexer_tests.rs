use minicc::lexer::tokenize;
use minicc::token::Token;
use minicc::token::TokenKind;
use minicc::token::well_formed_tokens;

fn shapes(toks: &[Token]) -> Vec<(TokenKind, Vec<u8>)> {
    toks.iter().map(|t| (t.kind, t.value.clone())).collect()
}

#[test]
fn tokenize_mixed_expression() {
    let toks = tokenize(b"12+5-3").unwrap();
    assert_eq!(toks.len(), 6);
    let expect: Vec<(TokenKind, &[u8], usize, usize)> = vec![
        (TokenKind::Number, b"12", 0, 2),
        (TokenKind::Punctuation, b"+", 2, 3),
        (TokenKind::Number, b"5", 3, 4),
        (TokenKind::Punctuation, b"-", 4, 5),
        (TokenKind::Number, b"3", 5, 6),
        (TokenKind::EndOfFile, b"", 6, 6),
    ];
    for (t, (kind, value, start, end)) in toks.iter().zip(expect) {
        assert_eq!(t.kind, kind);
        assert_eq!(t.value.as_slice(), value);
        assert_eq!(t.start, start);
        assert_eq!(t.end, end);
    }
}

#[test]
fn tokenize_ignores_whitespace_between_tokens() {
    let spaced = tokenize(b"1 + 2").unwrap();
    let dense = tokenize(b"1+2").unwrap();
    assert_eq!(shapes(&spaced), shapes(&dense));
    assert_ne!(spaced[1].start, dense[1].start);
}

#[test]
fn tokenize_splits_numbers_at_whitespace() {
    let split = tokenize(b"1 2").unwrap();
    let joined = tokenize(b"12").unwrap();
    assert_eq!(split.len(), 3);
    assert_eq!(split[0].value.as_slice(), b"1");
    assert_eq!(split[1].value.as_slice(), b"2");
    assert_ne!(shapes(&split), shapes(&joined));
}

#[test]
fn tokenize_rejects_letter() {
    let e = tokenize(b"1+a").unwrap_err();
    assert_eq!(e.kind, minicc::diagnostics::ErrorKind::InvalidCharacter);
    assert_eq!(e.start, 2);
    assert_eq!(e.end, 3);
}

#[test]
fn tokenize_rejects_non_ascii() {
    let e = tokenize("7+\u{e9}".as_bytes()).unwrap_err();
    assert_eq!(e.kind, minicc::diagnostics::ErrorKind::InvalidCharacter);
    assert_eq!(e.start, 2);
}

#[test]
fn tokenize_empty_is_end_of_file_only() {
    let toks = tokenize(b"").unwrap();
    assert_eq!(toks.len(), 1);
    assert_eq!(toks[0].kind, TokenKind::EndOfFile);
    assert_eq!(toks[0].value.as_slice(), b"");
    assert_eq!(toks[0].start, 0);
    assert_eq!(toks[0].end, 0);
}

#[test]
fn tokenize_is_deterministic() {
    let once = tokenize(b" 40 + 2\t-1").unwrap();
    let twice = tokenize(b" 40 + 2\t-1").unwrap();
    assert_eq!(once, twice);
}

#[test]
fn tokenize_output_is_well_formed() {
    let toks = tokenize(b"8-9+10").unwrap();
    assert!(well_formed_tokens(&toks));
}

#[test]
fn tokenize_takes_maximal_digit_runs() {
    let toks = tokenize(b"007").unwrap();
    assert_eq!(toks.len(), 2);
    assert_eq!(toks[0].value.as_slice(), b"007");
    assert_eq!(toks[0].end, 3);
}

#[test]
fn token_new_keeps_fields() {
    let t = Token::new(TokenKind::Number, b"42".to_vec(), 3, 5);
    assert_eq!(t.kind, TokenKind::Number);
    assert_eq!(t.value.as_slice(), b"42");
    assert_eq!(t.start, 3);
    assert_eq!(t.end, 5);
}

#[test]
fn well_formed_rejects_missing_terminator() {
    let toks = vec![Token::new(TokenKind::Number, b"1".to_vec(), 0, 1)];
    assert!(!well_formed_tokens(&toks));
}
