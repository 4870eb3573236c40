use crate::binary::{has_nul, is_likely_binary_file, looks_binary, sniff_window};
use vstd::prelude::*;
use vstd::utf8::{decode_utf8, valid_utf8};

verus! {

/// The model whose tokenizer counts the tokens.
pub const TOKENIZER_MODEL: &'static str = "gpt-4o";

/// Whether the tokenizer crate has a tokenizer for the model of this name.
pub uninterp spec fn tokenizer_known(model: Seq<char>) -> bool;

/// The number of tokens that the tokenizer of `model` makes of `text`, special
/// tokens allowed; `None` where there is no such tokenizer or it fails on the text.
pub uninterp spec fn token_count(model: Seq<char>, text: Seq<char>) -> Option<usize>;

/// Why no token count could be produced for a file.
#[derive(Debug)]
pub enum TokenError {
    /// The path is not an existing regular file.
    FileMissing,
    /// The file's metadata could not be read; the message says why.
    Metadata(String),
    /// The file's content could not be had; the message says why.
    Read(String),
    /// The file's content is not UTF-8 text.
    NotText,
    /// No tokenizer is available for the model.
    TokenizerUnavailable,
    /// The tokenizer failed on the text.
    TokenizerFailed,
}

/// The mathematical value of a [`TokenError`].
pub enum TokenErrorModel {
    FileMissing,
    Metadata(Seq<char>),
    Read(Seq<char>),
    NotText,
    TokenizerUnavailable,
    TokenizerFailed,
}

impl View for TokenError {
    type V = TokenErrorModel;

    open spec fn view(&self) -> TokenErrorModel {
        match *self {
            TokenError::FileMissing => TokenErrorModel::FileMissing,
            TokenError::Metadata(message) => TokenErrorModel::Metadata(message@),
            TokenError::Read(message) => TokenErrorModel::Read(message@),
            TokenError::NotText => TokenErrorModel::NotText,
            TokenError::TokenizerUnavailable => TokenErrorModel::TokenizerUnavailable,
            TokenError::TokenizerFailed => TokenErrorModel::TokenizerFailed,
        }
    }
}

/// The model of a count that may have failed.
pub open spec fn count_model(outcome: Result<usize, TokenError>) -> Result<usize, TokenErrorModel> {
    match outcome {
        Ok(count) => Ok(count),
        Err(error) => Err(error@),
    }
}

/// Calls `tiktoken_rs::bpe_for_model` and reports whether it found a tokenizer.
/// Trusted: the answer depends on the model's name alone.
#[verifier::external_body]
fn tokenizer_ready(model: &str) -> (ready: bool)
    ensures
        ready == tokenizer_known(model@),
{
    tiktoken_rs::bpe_for_model(model).is_ok()
}

/// Calls `tiktoken_rs::bpe_for_model` and `CoreBPE::encode` with every special
/// token allowed, and hands back the number of tokens. Trusted: the number
/// depends on the model's name and the text alone.
#[verifier::external_body]
fn count_tokens(model: &str, text: &str) -> (count: Option<usize>)
    ensures
        count == token_count(model@, text@),
{
    match tiktoken_rs::bpe_for_model(model) {
        Ok(bpe) => match bpe.encode(text, &bpe.special_tokens()) {
            Ok((tokens, _)) => Some(tokens.len()),
            Err(_) => None,
        },
        Err(_) => None,
    }
}

/// Calls `String::from_utf8`. Trusted: it succeeds exactly on valid UTF-8, and
/// the string then holds the characters that the bytes encode.
#[verifier::external_body]
fn text_of_bytes(bytes: Vec<u8>) -> (text: Option<String>)
    ensures
        match text {
            Some(s) => valid_utf8(bytes@) && s@ == decode_utf8(bytes@),
            None => !valid_utf8(bytes@),
        },
{
    String::from_utf8(bytes).ok()
}

/// Whether a tokenizer for [`TOKENIZER_MODEL`] can be had.
pub fn tokenizer_available() -> (ready: bool)
    ensures
        ready == tokenizer_known(TOKENIZER_MODEL@),
{
    tokenizer_ready(TOKENIZER_MODEL)
}

/// What a tokenizer's answer means for a file: the count, or the error that no
/// count was made.
pub open spec fn settled_count(counted: Option<usize>) -> Result<usize, TokenErrorModel> {
    match counted {
        Some(count) => Ok(count),
        None => Err(TokenErrorModel::TokenizerFailed),
    }
}

/// Turns the tokenizer's answer into the result for a file.
pub fn settle_count(counted: Option<usize>) -> (outcome: Result<usize, TokenError>)
    ensures
        count_model(outcome) == settled_count(counted),
{
    match counted {
        Some(count) => Ok(count),
        None => Err(TokenError::TokenizerFailed),
    }
}

/// The token count of a file with this content: zero for binary content, an
/// error for content that is not text, else what the tokenizer counts.
pub open spec fn content_tokens(bytes: Seq<u8>) -> Result<usize, TokenErrorModel> {
    if looks_binary(bytes) {
        Ok(0usize)
    } else if !valid_utf8(bytes) {
        Err(TokenErrorModel::NotText)
    } else if !tokenizer_known(TOKENIZER_MODEL@) {
        Err(TokenErrorModel::TokenizerUnavailable)
    } else {
        settled_count(token_count(TOKENIZER_MODEL@, decode_utf8(bytes)))
    }
}

/// Counts the tokens of a file's content. Binary content counts as zero tokens
/// and is never handed to the tokenizer; content that is not text, and a
/// tokenizer that is missing or fails, give an error.
pub fn tokens_of_content(bytes: Vec<u8>) -> (outcome: Result<usize, TokenError>)
    ensures
        count_model(outcome) == content_tokens(bytes@),
        looks_binary(bytes@) ==> outcome == Ok::<usize, TokenError>(0usize),
{
    if is_likely_binary_file(bytes.as_slice()) {
        return Ok(0);
    }
    match text_of_bytes(bytes) {
        Some(text) => if !tokenizer_ready(TOKENIZER_MODEL) {
            Err(TokenError::TokenizerUnavailable)
        } else {
            settle_count(count_tokens(TOKENIZER_MODEL, text.as_str()))
        },
        None => Err(TokenError::NotText),
    }
}

/// Binary detection: content with a NUL byte among the bytes that are inspected
/// counts as zero tokens, whatever a tokenizer would make of it.
pub proof fn nul_byte_counts_as_zero(bytes: Seq<u8>)
    requires
        has_nul(sniff_window(bytes)),
    ensures
        content_tokens(bytes) == Ok::<usize, TokenErrorModel>(0usize),
{
}

} // verus!
