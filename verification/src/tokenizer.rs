//! Token counting over the cl100k byte-pair encoding.
//!
//! The encoder is deterministic: the same text always yields the same token
//! sequence, in every process and on every machine.  The contracts therefore
//! name the token count and the token-level truncation of a text as functions
//! of the text alone.

use vstd::prelude::*;

verus! {

#[verifier::external_type_specification]
#[verifier::external_body]
pub struct ExCoreBPE(tiktoken_rs::CoreBPE);

/// The number of byte-pair tokens of a text under the cl100k encoding.
pub uninterp spec fn token_count_of(s: Seq<char>) -> nat;

/// The text left after keeping only the first `n` byte-pair tokens of `s`
/// and decoding them back, under the cl100k encoding.
pub uninterp spec fn truncated_to(s: Seq<char>, n: int) -> Seq<char>;

/// The number of tokens of a text when special tokens are also encoded.
pub uninterp spec fn special_token_count_of(s: Seq<char>) -> nat;

/// A process-wide reusable handle on the cl100k byte-pair encoder.
///
/// The only constructor is [`Tokenizer::new`], so every value of this type
/// wraps the cl100k encoding; the contracts of the methods below rely on
/// that.
pub struct Tokenizer {
    bpe: tiktoken_rs::CoreBPE,
}

impl Tokenizer {
    /// Relies on `tiktoken_rs::cl100k_base` to build the cl100k encoder.
    #[verifier::external_body]
    pub fn new() -> (r: Result<Tokenizer, String>) {
        match tiktoken_rs::cl100k_base() {
            Ok(bpe) => Ok(Tokenizer { bpe }),
            Err(e) => Err(e.to_string()),
        }
    }

    /// Relies on `tiktoken_rs::CoreBPE::encode_ordinary`: the token count of
    /// a text under a fixed encoding depends on the text alone.
    #[verifier::external_body]
    pub fn count(&self, s: &str) -> (r: usize)
        ensures
            r as nat == token_count_of(s@),
    {
        self.bpe.encode_ordinary(s).len()
    }

    /// Relies on `tiktoken_rs::CoreBPE::encode_with_special_tokens`: the
    /// count depends on the text alone.
    #[verifier::external_body]
    pub fn count_with_special(&self, s: &str) -> (r: usize)
        ensures
            r as nat == special_token_count_of(s@),
    {
        self.bpe.encode_with_special_tokens(s).len()
    }

    /// Relies on `tiktoken_rs::CoreBPE::encode_ordinary` and
    /// `tiktoken_rs::CoreBPE::decode`: decoding the first `n` tokens of a
    /// text depends on the text and `n` alone.  A decoding failure yields
    /// the empty string.
    #[verifier::external_body]
    pub fn truncate_tokens(&self, s: &str, n: usize) -> (r: String)
        requires
            n as nat <= token_count_of(s@),
        ensures
            r@ == truncated_to(s@, n as int),
    {
        let tokens = self.bpe.encode_ordinary(s);
        self.bpe.decode(tokens[..n].to_vec()).unwrap_or_default()
    }
}

} // verus!
