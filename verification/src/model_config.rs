//! Model hyper-parameters resolved from GGUF metadata, for the `llama`
//! family of block layouts (`llama`, `mistral`, `qwen2`, ...).
//!
//! Keys are looked up under the architecture prefix (`{arch}.block_count`),
//! with the alternative spellings some converters use as fallbacks.
use vstd::prelude::*;

use crate::text::{append_chars, append_str, chars_to_string, str_to_chars};

verus! {

/// One metadata value, as far as the shape of the model depends on it.
#[derive(Debug, Clone)]
pub enum MetaValue {
    /// Any integer value, converted to `u64` as Rust's `as` does.
    Int(u64),
    /// A string value.
    Text(String),
    /// Any other value (floating point, boolean, array).
    Other,
}

/// The value stored under `key`: the first entry with that key.
pub open spec fn meta_find(meta: Seq<(String, MetaValue)>, key: Seq<char>) -> Option<MetaValue>
    decreases meta.len(),
{
    if meta.len() == 0 {
        None
    } else if meta[0].0@ == key {
        Some(meta[0].1)
    } else {
        meta_find(meta.drop_first(), key)
    }
}

/// The integer stored under `key`, if the value there is an integer.
pub open spec fn meta_u64(meta: Seq<(String, MetaValue)>, key: Seq<char>) -> Option<u64> {
    match meta_find(meta, key) {
        Some(MetaValue::Int(v)) => Some(v),
        _ => None,
    }
}

/// The string stored under `key`, if the value there is a string.
pub open spec fn meta_text(meta: Seq<(String, MetaValue)>, key: Seq<char>) -> Option<Seq<char>> {
    match meta_find(meta, key) {
        Some(MetaValue::Text(s)) => Some(s@),
        _ => None,
    }
}

/// The integer under `k1`, or else the one under `k2`.
pub open spec fn either_u64(meta: Seq<(String, MetaValue)>, k1: Seq<char>, k2: Seq<char>) -> Option<
    u64,
> {
    match meta_u64(meta, k1) {
        Some(v) => Some(v),
        None => meta_u64(meta, k2),
    }
}

/// `o`'s value, or `d`.
pub open spec fn or_u64(o: Option<u64>, d: u64) -> u64 {
    match o {
        Some(v) => v,
        None => d,
    }
}

/// The architecture name (`general.architecture`, `llama` by default).
pub open spec fn arch_of(meta: Seq<(String, MetaValue)>) -> Seq<char> {
    match meta_text(meta, "general.architecture"@) {
        Some(s) => s,
        None => "llama"@,
    }
}

/// `{arch}.{suffix}`.
pub open spec fn arch_key(meta: Seq<(String, MetaValue)>, suffix: Seq<char>) -> Seq<char> {
    arch_of(meta) + "."@ + suffix
}

/// The layer count, under `block_count` or `n_layer`.
pub open spec fn block_count_of(meta: Seq<(String, MetaValue)>) -> Option<u64> {
    either_u64(meta, arch_key(meta, "block_count"@), arch_key(meta, "n_layer"@))
}

/// The hidden size, under `embedding_length` or `n_embd`.
pub open spec fn hidden_of(meta: Seq<(String, MetaValue)>) -> Option<u64> {
    either_u64(meta, arch_key(meta, "embedding_length"@), arch_key(meta, "n_embd"@))
}

/// The attention head count.
pub open spec fn heads_of(meta: Seq<(String, MetaValue)>) -> Option<u64> {
    meta_u64(meta, arch_key(meta, "attention.head_count"@))
}

/// An explicit head dimension, under `attention.key_length` or
/// `attention.value_length`.
pub open spec fn key_length_of(meta: Seq<(String, MetaValue)>) -> Option<u64> {
    either_u64(
        meta,
        arch_key(meta, "attention.key_length"@),
        arch_key(meta, "attention.value_length"@),
    )
}

/// The feed-forward size, under `feed_forward_length` or `ffn_embed_dim`.
pub open spec fn ffn_of(meta: Seq<(String, MetaValue)>) -> Option<u64> {
    either_u64(meta, arch_key(meta, "feed_forward_length"@), arch_key(meta, "ffn_embed_dim"@))
}

/// The first missing required key, as the error it produces.
pub open spec fn shape_error(meta: Seq<(String, MetaValue)>) -> Option<Seq<char>> {
    if block_count_of(meta) is None {
        Some("missing block_count"@)
    } else if hidden_of(meta) is None {
        Some("missing embedding_length"@)
    } else if heads_of(meta) is None {
        Some("missing head_count"@)
    } else if ffn_of(meta) is None {
        Some("missing feed_forward_length"@)
    } else {
        None
    }
}

/// The metadata on which reading the shape divides the hidden size by a
/// head count of zero: the lookups before it succeed and the head count is
/// zero. (The quotient is the head dimension's default, which is worked out
/// whether or not an explicit head dimension is given.)
pub open spec fn zero_heads_division(meta: Seq<(String, MetaValue)>) -> bool {
    &&& block_count_of(meta) is Some
    &&& hidden_of(meta) is Some
    &&& heads_of(meta) is Some
    &&& (heads_of(meta).unwrap() as usize) == 0
}

/// The head dimension: explicit, or the hidden size over the head count.
pub open spec fn head_dim_of(meta: Seq<(String, MetaValue)>) -> usize {
    match key_length_of(meta) {
        Some(v) => v as usize,
        None => ((hidden_of(meta).unwrap() as usize) / (heads_of(meta).unwrap() as usize)) as usize,
    }
}

/// The model shape read from GGUF metadata.
#[derive(Debug, Clone)]
pub struct ModelShape {
    pub arch: String,
    pub hidden_size: usize,
    pub num_layers: usize,
    pub num_attn_heads: usize,
    pub num_kv_heads: usize,
    pub head_dim: usize,
    pub intermediate_size: usize,
    pub vocab_size: usize,
    pub context_length: usize,
    pub rope_dims: usize,
}

/// The vocabulary size of a model: the declared one, or the number of rows
/// of its embedding matrix when the metadata declares none (0).
pub fn vocab_size_or(declared: usize, embedding_rows: usize) -> (v: usize)
    ensures
        v == (if declared == 0 { embedding_rows } else { declared }),
{
    if declared == 0 {
        embedding_rows
    } else {
        declared
    }
}

/// The value stored under `key` (the first entry with that key).
pub fn find_meta<'a>(meta: &'a Vec<(String, MetaValue)>, key: &Vec<char>) -> (r: Option<
    &'a MetaValue,
>)
    ensures
        match r {
            Some(v) => meta_find(meta@, key@) == Some(*v),
            None => meta_find(meta@, key@) is None,
        },
{
    let n = meta.len();
    let mut i: usize = 0;
    assert(meta@.skip(0) =~= meta@);
    while i < n
        invariant
            n == meta@.len(),
            i <= n,
            meta_find(meta@, key@) == meta_find(meta@.skip(i as int), key@),
        decreases n - i,
    {
        assert(meta@.skip(i as int)[0] == meta@[i as int]);
        assert(meta@.skip(i as int).drop_first() == meta@.skip(i + 1));
        let k = str_to_chars(meta[i].0.as_str());
        if chars_equal(&k, key) {
            return Some(&meta[i].1);
        }
        i = i + 1;
    }
    assert(meta@.skip(n as int).len() == 0);
    None
}

fn chars_equal(a: &Vec<char>, b: &Vec<char>) -> (r: bool)
    ensures
        r == (a@ == b@),
{
    if a.len() != b.len() {
        return false;
    }
    let n = a.len();
    for i in 0..n
        invariant
            n == a@.len() == b@.len(),
            forall|k: int| 0 <= k < i ==> a@[k] == b@[k],
    {
        if a[i] != b[i] {
            return false;
        }
    }
    assert(a@ =~= b@);
    true
}

/// The integer under `key`, if any.
pub fn get_u64(meta: &Vec<(String, MetaValue)>, key: &Vec<char>) -> (r: Option<u64>)
    ensures
        r == meta_u64(meta@, key@),
{
    match find_meta(meta, key) {
        Some(MetaValue::Int(v)) => Some(*v),
        _ => None,
    }
}

/// The string under `key`, if any.
pub fn get_string(meta: &Vec<(String, MetaValue)>, key: &Vec<char>) -> (r: Option<String>)
    ensures
        match r {
            Some(s) => meta_text(meta@, key@) == Some(s@),
            None => meta_text(meta@, key@) is None,
        },
{
    match find_meta(meta, key) {
        Some(MetaValue::Text(s)) => Some(s.clone()),
        _ => None,
    }
}

fn get_either(meta: &Vec<(String, MetaValue)>, k1: &Vec<char>, k2: &Vec<char>) -> (r: Option<u64>)
    ensures
        r == either_u64(meta@, k1@, k2@),
{
    match get_u64(meta, k1) {
        Some(v) => Some(v),
        None => get_u64(meta, k2),
    }
}

fn key_of(arch: &Vec<char>, suffix: &str) -> (k: Vec<char>)
    ensures
        k@ == arch@ + "."@ + suffix@,
{
    let mut k: Vec<char> = Vec::new();
    append_chars(&mut k, arch);
    append_str(&mut k, ".");
    append_str(&mut k, suffix);
    assert(k@ == Seq::<char>::empty() + arch@ + "."@ + suffix@);
    assert(Seq::<char>::empty() + arch@ =~= arch@);
    k
}

#[verifier::truncate]
fn to_usize(v: u64) -> (r: usize)
    ensures
        r == v as usize,
{
    v as usize
}

impl ModelShape {
    /// Read the shape from GGUF metadata. Fails on the first missing
    /// required key (layer count, hidden size, head count, feed-forward
    /// size, in that order); the other keys have defaults: the head count
    /// for the key/value heads, hidden size over head count for the head
    /// dimension, 2048 for the context, 0 for the vocabulary (then taken
    /// from the embedding matrix) and the head dimension for the rotary
    /// dimensions.
    pub fn from_metadata(meta: &Vec<(String, MetaValue)>) -> (r: Result<ModelShape, String>)
        requires
            !zero_heads_division(meta@),
        ensures
            r is Ok <==> shape_error(meta@) is None,
            r matches Err(e) ==> shape_error(meta@) == Some(e@),
            r matches Ok(s) ==> {
                &&& s.arch@ == arch_of(meta@)
                &&& s.num_layers == block_count_of(meta@).unwrap() as usize
                &&& s.hidden_size == hidden_of(meta@).unwrap() as usize
                &&& s.num_attn_heads == heads_of(meta@).unwrap() as usize
                &&& s.num_kv_heads == or_u64(
                    meta_u64(meta@, arch_key(meta@, "attention.head_count_kv"@)),
                    s.num_attn_heads as u64,
                ) as usize
                &&& s.head_dim == head_dim_of(meta@)
                &&& s.intermediate_size == ffn_of(meta@).unwrap() as usize
                &&& s.context_length == or_u64(
                    either_u64(
                        meta@,
                        arch_key(meta@, "context_length"@),
                        arch_key(meta@, "max_position_embeddings"@),
                    ),
                    2048,
                ) as usize
                &&& s.vocab_size == or_u64(meta_u64(meta@, "general.vocab_size"@), 0) as usize
                &&& s.rope_dims == or_u64(
                    meta_u64(meta@, arch_key(meta@, "rope.dims"@)),
                    s.head_dim as u64,
                ) as usize
            },
    {
        let arch_key_chars = str_to_chars("general.architecture");
        let arch: String = match get_string(meta, &arch_key_chars) {
            Some(s) => s,
            None => {
                let d = str_to_chars("llama");
                chars_to_string(&d)
            },
        };
        let p = str_to_chars(arch.as_str());
        assert(p@ == arch_of(meta@));
        let block_count = match get_either(meta, &key_of(&p, "block_count"), &key_of(&p, "n_layer")) {
            Some(v) => to_usize(v),
            None => {
                let e = str_to_chars("missing block_count");
                return Err(chars_to_string(&e));
            },
        };
        let hidden = match get_either(meta, &key_of(&p, "embedding_length"), &key_of(&p, "n_embd")) {
            Some(v) => to_usize(v),
            None => {
                let e = str_to_chars("missing embedding_length");
                return Err(chars_to_string(&e));
            },
        };
        let n_heads = match get_u64(meta, &key_of(&p, "attention.head_count")) {
            Some(v) => to_usize(v),
            None => {
                let e = str_to_chars("missing head_count");
                return Err(chars_to_string(&e));
            },
        };
        let n_kv = match get_u64(meta, &key_of(&p, "attention.head_count_kv")) {
            Some(v) => to_usize(v),
            None => to_usize(n_heads as u64),
        };
        let head_dim = match get_either(
            meta,
            &key_of(&p, "attention.key_length"),
            &key_of(&p, "attention.value_length"),
        ) {
            Some(v) => to_usize(v),
            None => hidden / n_heads,
        };
        let ffn = match get_either(meta, &key_of(&p, "feed_forward_length"), &key_of(&p, "ffn_embed_dim")) {
            Some(v) => to_usize(v),
            None => {
                let e = str_to_chars("missing feed_forward_length");
                return Err(chars_to_string(&e));
            },
        };
        let ctx = match get_either(
            meta,
            &key_of(&p, "context_length"),
            &key_of(&p, "max_position_embeddings"),
        ) {
            Some(v) => to_usize(v),
            None => 2048,
        };
        let vocab_key = str_to_chars("general.vocab_size");
        let vocab = match get_u64(meta, &vocab_key) {
            Some(v) => to_usize(v),
            None => 0,
        };
        let rope_dims = match get_u64(meta, &key_of(&p, "rope.dims")) {
            Some(v) => to_usize(v),
            None => to_usize(head_dim as u64),
        };
        Ok(
            ModelShape {
                arch,
                hidden_size: hidden,
                num_layers: block_count,
                num_attn_heads: n_heads,
                num_kv_heads: n_kv,
                head_dim,
                intermediate_size: ffn,
                vocab_size: vocab,
                context_length: ctx,
                rope_dims,
            },
        )
    }
}

} // verus!
