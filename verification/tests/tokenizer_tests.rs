use reposnap::tokenizer::{
    settle_count, tokenizer_available, tokens_of_content, TokenError, TOKENIZER_MODEL,
};

#[test]
fn model_is_gpt_4o() {
    assert_eq!(TOKENIZER_MODEL, "gpt-4o");
}

#[test]
fn tokenizer_for_the_model_exists() {
    assert!(tokenizer_available());
}

#[test]
fn hello_world_is_two_tokens() {
    let outcome = tokens_of_content(b"hello world".to_vec());
    assert!(matches!(outcome, Ok(2)));
}

#[test]
fn counting_is_deterministic() {
    let text = "fn main() {\n    println!(\"hi\");\n}\n";
    let first = tokens_of_content(text.as_bytes().to_vec()).unwrap();
    let second = tokens_of_content(text.as_bytes().to_vec()).unwrap();
    assert_eq!(first, second);
    assert!(first > 2);
    assert!(first < text.len());
}

#[test]
fn empty_text_has_no_tokens() {
    assert!(matches!(tokens_of_content(Vec::new()), Ok(0)));
}

#[test]
fn binary_content_counts_as_zero() {
    assert!(matches!(tokens_of_content(b"hello\0world".to_vec()), Ok(0)));
}

#[test]
fn content_that_is_not_utf8_is_an_error() {
    let outcome = tokens_of_content(vec![b'a', b'b', 0xff, 0xfe, b'c', b'd', b'e', b'f', b'g', b'h', b'i', b'j']);
    assert!(matches!(outcome, Err(TokenError::NotText)));
}

#[test]
fn multibyte_text_is_counted() {
    let outcome = tokens_of_content("héllo wörld — ok".as_bytes().to_vec());
    assert!(matches!(outcome, Ok(n) if n >= 3));
}

#[test]
fn special_token_text_is_one_token() {
    let outcome = tokens_of_content(b"<|endoftext|>".to_vec());
    assert!(matches!(outcome, Ok(1)));
}

#[test]
fn settle_count_passes_a_count_on() {
    assert!(matches!(settle_count(Some(17)), Ok(17)));
}

#[test]
fn settle_count_reports_a_failed_tokenizer() {
    assert!(matches!(settle_count(None), Err(TokenError::TokenizerFailed)));
}
