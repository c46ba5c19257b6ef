//! A thin wrapper around a Hugging Face `tokenizers` tokenizer: text to
//! token ids and back, and the end-of-sequence token of the vocabulary.
//!
//! What the tokenizer computes depends on the document it was loaded from.
//! The contracts here name what they can of it (which documents load, the
//! vocabulary tokens are looked up in, what ids decode to) and say how its
//! answers and errors are passed on.
use vstd::prelude::*;

use crate::error::{AbyssError, AbyssResult};
use crate::text::{append_chars, chars_to_string, str_to_chars};

verus! {

#[verifier::external_type_specification]
#[verifier::external_body]
pub struct ExHfTokenizer(tokenizers::Tokenizer);

/// What `tokenizers` makes of `json` as a tokenizer document: `None` when
/// the tokenizer's `FromStr` (`serde_json::from_str`) rejects it, else the
/// vocabulary ([`hf_vocab`]) of the tokenizer it builds.
pub uninterp spec fn hf_load(json: Seq<char>) -> Option<Map<Seq<char>, u32>>;

/// Parses tokenizer JSON with `tokenizers::Tokenizer`'s `FromStr`
/// (`serde_json::from_str`); on failure gives the error's text. Claimed:
/// it succeeds exactly on the documents [`hf_load`] accepts, and the
/// tokenizer it builds has the vocabulary `hf_load` names; nothing is
/// claimed of the error's text.
#[verifier::external_body]
fn hf_from_json(json: &str) -> (r: Result<tokenizers::Tokenizer, String>)
    ensures
        r is Ok <==> hf_load(json@) is Some,
        r matches Ok(t) ==> hf_load(json@) == Some(hf_vocab(t)),
{
    json.parse::<tokenizers::Tokenizer>().map_err(|e| e.to_string())
}

/// `tokenizers::Tokenizer::encode(text, false)` and the ids of the
/// encoding (`Encoding::get_ids`); on failure gives the error's text.
/// Nothing is claimed of the ids, which depend on the vocabulary.
#[verifier::external_body]
fn hf_encode(t: &tokenizers::Tokenizer, text: &str) -> (r: Result<Vec<u32>, String>) {
    match t.encode(text, false) {
        Ok(enc) => Ok(enc.get_ids().to_vec()),
        Err(e) => Err(e.to_string()),
    }
}

/// What `tokenizers::Tokenizer::decode(ids, false)` gives for `t` and
/// `ids`: `None` when it fails, else the decoded text. Decoding looks up
/// each id's token and runs the tokenizer's decoder, so it depends on the
/// tokenizer and the ids alone.
pub uninterp spec fn hf_decoded(t: tokenizers::Tokenizer, ids: Seq<u32>) -> Option<Seq<char>>;

/// `tokenizers::Tokenizer::decode(ids, false)`; on failure gives the
/// error's text. Claimed: it succeeds exactly when [`hf_decoded`] is
/// `Some`, with that text; nothing is claimed of the error's text.
#[verifier::external_body]
fn hf_decode(t: &tokenizers::Tokenizer, ids: &[u32]) -> (r: Result<String, String>)
    ensures
        r is Ok <==> hf_decoded(*t, ids@) is Some,
        r matches Ok(s) ==> hf_decoded(*t, ids@) == Some(s@),
{
    t.decode(ids, false).map_err(|e| e.to_string())
}

/// The vocabulary that `tokenizers::Tokenizer::token_to_id` reads: each
/// token the tokenizer knows (its added tokens first, then its model's
/// vocabulary) and the id it gives that token.
pub uninterp spec fn hf_vocab(t: tokenizers::Tokenizer) -> Map<Seq<char>, u32>;

/// `tokenizers::Tokenizer::token_to_id`: the id of a token of the
/// vocabulary, if it has one. Claimed: the answer is the lookup of `token`
/// in [`hf_vocab`].
#[verifier::external_body]
fn hf_token_to_id(t: &tokenizers::Tokenizer, token: &str) -> (r: Option<u32>)
    ensures
        r is Some <==> hf_vocab(*t).contains_key(token@),
        r matches Some(id) ==> id == hf_vocab(*t)[token@],
{
    t.token_to_id(token)
}

/// `prefix` followed by `msg`, as the text of an engine error.
pub open spec fn engine_error(e: AbyssError, prefix: Seq<char>, msg: Seq<char>) -> bool {
    e is Engine && e->Engine_0@ == prefix + msg
}

fn engine_err(prefix: &str, msg: &String) -> (e: AbyssError)
    ensures
        engine_error(e, prefix@, msg@),
{
    let mut v = str_to_chars(prefix);
    append_chars(&mut v, &str_to_chars(msg.as_str()));
    AbyssError::Engine(chars_to_string(&v))
}

/// The special tokens that may end a sequence, in the order they are tried.
pub open spec fn eos_symbols() -> Seq<Seq<char>> {
    seq!["<|im_end|>"@, "<|endoftext|>"@, "</s>"@, "<|end_of_text|>"@]
}

/// The id of the first of `syms` that `vocab` holds, if any.
pub open spec fn first_in_vocab(vocab: Map<Seq<char>, u32>, syms: Seq<Seq<char>>) -> Option<u32>
    decreases syms.len(),
{
    if syms.len() == 0 {
        None
    } else if vocab.contains_key(syms[0]) {
        Some(vocab[syms[0]])
    } else {
        first_in_vocab(vocab, syms.drop_first())
    }
}

/// What a tokenizer call answers, as a result of this library: an answer is
/// passed on, and a failure with text `msg` becomes the engine error
/// `{prefix}{msg}`.
pub fn engine_result<T>(prefix: &str, r: Result<T, String>) -> (out: AbyssResult<T>)
    ensures
        out is Ok <==> r is Ok,
        r matches Ok(v) ==> out matches Ok(w) && w == v,
        r matches Err(m) ==> out matches Err(e) && engine_error(e, prefix@, m@),
{
    match r {
        Ok(v) => Ok(v),
        Err(m) => Err(engine_err(prefix, &m)),
    }
}

/// A tokenizer loaded from a `tokenizer.json` document.
pub struct TextTokenizer {
    inner: tokenizers::Tokenizer,
}

impl TextTokenizer {
    /// The vocabulary the tokenizer looks tokens up in.
    pub closed spec fn vocab(&self) -> Map<Seq<char>, u32> {
        hf_vocab(self.inner)
    }

    /// What decoding `ids` gives: `None` when the tokenizer fails on them,
    /// else the text.
    pub closed spec fn decoded(&self, ids: Seq<u32>) -> Option<Seq<char>> {
        hf_decoded(self.inner, ids)
    }

    /// Load a tokenizer from the text of a `tokenizer.json` file. A document
    /// the `tokenizers` crate rejects gives an engine error
    /// `tokenizer load: {reason}`.
    pub fn from_json(json: &str) -> (r: AbyssResult<TextTokenizer>)
        ensures
            r is Ok <==> hf_load(json@) is Some,
            r matches Ok(t) ==> hf_load(json@) == Some(t.vocab()),
            r matches Err(e) ==> exists|m: Seq<char>| #[trigger]
                engine_error(e, "tokenizer load: "@, m),
    {
        match engine_result("tokenizer load: ", hf_from_json(json)) {
            Ok(inner) => Ok(TextTokenizer { inner }),
            Err(e) => Err(e),
        }
    }

    /// Encode text into token ids (no special tokens added). A failure of
    /// the tokenizer gives an engine error `encode: {reason}`.
    pub fn encode(&self, text: &str) -> (r: AbyssResult<Vec<u32>>)
        ensures
            r matches Err(e) ==> exists|m: Seq<char>| #[trigger] engine_error(e, "encode: "@, m),
    {
        engine_result("encode: ", hf_encode(&self.inner, text))
    }

    /// Decode token ids back into text (special tokens kept). A failure of
    /// the tokenizer gives an engine error `decode: {reason}`.
    pub fn decode(&self, ids: &[u32]) -> (r: AbyssResult<String>)
        ensures
            r is Ok <==> self.decoded(ids@) is Some,
            r matches Ok(s) ==> self.decoded(ids@) == Some(s@),
            r matches Err(e) ==> exists|m: Seq<char>| #[trigger] engine_error(e, "decode: "@, m),
    {
        engine_result("decode: ", hf_decode(&self.inner, ids))
    }

    /// The id of the first of [`eos_symbols`] the vocabulary holds, if any.
    pub fn eos_token_id(&self) -> (r: Option<u32>)
        ensures
            r == first_in_vocab(self.vocab(), eos_symbols()),
    {
        let ghost syms = eos_symbols();
        proof {
            reveal_with_fuel(first_in_vocab, 5);
            assert(syms.drop_first() =~= seq!["<|endoftext|>"@, "</s>"@, "<|end_of_text|>"@]);
            assert(syms.drop_first().drop_first() =~= seq!["</s>"@, "<|end_of_text|>"@]);
            assert(syms.drop_first().drop_first().drop_first() =~= seq!["<|end_of_text|>"@]);
            assert(syms.drop_first().drop_first().drop_first().drop_first() =~= Seq::<Seq<char>>::empty());
        }
        if let Some(id) = hf_token_to_id(&self.inner, "<|im_end|>") {
            return Some(id);
        }
        if let Some(id) = hf_token_to_id(&self.inner, "<|endoftext|>") {
            return Some(id);
        }
        if let Some(id) = hf_token_to_id(&self.inner, "</s>") {
            return Some(id);
        }
        hf_token_to_id(&self.inner, "<|end_of_text|>")
    }
}

} // verus!
