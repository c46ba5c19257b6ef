//! Which tensor of a GGUF file holds each weight of each transformer block.
//!
//! A block's weights are named either in the GGUF convention
//! (`blk.{i}.attn_q.weight`) or in the Hugging Face convention
//! (`model.layers.{i}.self_attn.q_proj.weight`); the GGUF name is preferred.
//! The three attention biases are optional, every other weight is required.
use vstd::prelude::*;

use crate::text::{
    append_str, chars_to_string, equals_str, has_prefix, nat_to_decimal, push_decimal,
    starts_with, str_to_chars,
};

verus! {

/// Number of weight roles in a transformer block. Role indices, in the
/// order they are resolved: 0 attention norm, 1 feed-forward norm, 2..=4
/// query/key/value projections, 5..=7 their biases, 8 attention output,
/// 9 feed-forward up, 10 feed-forward gate, 11 feed-forward down.
pub const ROLE_COUNT: usize = 12;

/// The GGUF stem of a role (`attn_q` for the query projection and its bias).
pub open spec fn role_stem(r: int) -> Seq<char> {
    if r == 0 {
        "attn_norm"@
    } else if r == 1 {
        "ffn_norm"@
    } else if r == 2 || r == 5 {
        "attn_q"@
    } else if r == 3 || r == 6 {
        "attn_k"@
    } else if r == 4 || r == 7 {
        "attn_v"@
    } else if r == 8 {
        "attn_output"@
    } else if r == 9 {
        "ffn_up"@
    } else if r == 10 {
        "ffn_gate"@
    } else {
        "ffn_down"@
    }
}

/// The bias roles, the only optional ones.
pub open spec fn is_bias(r: int) -> bool {
    5 <= r <= 7
}

/// `bias` for a bias role, `weight` otherwise.
pub open spec fn role_suffix(r: int) -> Seq<char> {
    if is_bias(r) {
        "bias"@
    } else {
        "weight"@
    }
}

/// The Hugging Face name of a role inside `model.layers.{i}.`.
pub open spec fn role_hf(r: int) -> Seq<char> {
    if r == 0 {
        "input_layernorm.weight"@
    } else if r == 1 {
        "post_attention_layernorm.weight"@
    } else if r == 2 {
        "self_attn.q_proj.weight"@
    } else if r == 3 {
        "self_attn.k_proj.weight"@
    } else if r == 4 {
        "self_attn.v_proj.weight"@
    } else if r == 5 {
        "self_attn.q_proj.bias"@
    } else if r == 6 {
        "self_attn.k_proj.bias"@
    } else if r == 7 {
        "self_attn.v_proj.bias"@
    } else if r == 8 {
        "self_attn.o_proj.weight"@
    } else if r == 9 {
        "mlp.up_proj.weight"@
    } else if r == 10 {
        "mlp.gate_proj.weight"@
    } else {
        "mlp.down_proj.weight"@
    }
}

/// `blk.{i}.{stem}.{suffix}`.
pub open spec fn gguf_name(r: int, i: nat) -> Seq<char> {
    "blk."@ + nat_to_decimal(i) + "."@ + role_stem(r) + "."@ + role_suffix(r)
}

/// `model.layers.{i}.{hf}`.
pub open spec fn hf_name(r: int, i: nat) -> Seq<char> {
    "model.layers."@ + nat_to_decimal(i) + "."@ + role_hf(r)
}

/// `n` is one of `names`.
pub open spec fn name_present(names: Seq<String>, n: Seq<char>) -> bool {
    exists|j: int| 0 <= j < names.len() && #[trigger] names[j]@ == n
}

/// The first of `candidates` that is one of `names`.
pub open spec fn first_present(names: Seq<String>, candidates: Seq<String>) -> Option<Seq<char>>
    decreases candidates.len(),
{
    if candidates.len() == 0 {
        None
    } else if name_present(names, candidates[0]@) {
        Some(candidates[0]@)
    } else {
        first_present(names, candidates.drop_first())
    }
}

/// The tensor holding role `r` of block `i`: its GGUF name if present, else
/// its Hugging Face name if present.
pub open spec fn resolve_role(names: Seq<String>, r: int, i: nat) -> Option<Seq<char>> {
    if name_present(names, gguf_name(r, i)) {
        Some(gguf_name(r, i))
    } else if name_present(names, hf_name(r, i)) {
        Some(hf_name(r, i))
    } else {
        None
    }
}

/// A required role of block `i` with no tensor.
pub open spec fn missing_role(names: Seq<String>, r: int, i: nat) -> bool {
    !is_bias(r) && resolve_role(names, r, i) is None
}

/// The first role of `order` that is missing for block `i`, if any.
pub open spec fn first_missing(names: Seq<String>, i: nat, order: Seq<usize>) -> Option<int>
    decreases order.len(),
{
    if order.len() == 0 {
        None
    } else if missing_role(names, order[0] as int, i) {
        Some(order[0] as int)
    } else {
        first_missing(names, i, order.drop_first())
    }
}

/// The order in which the lazy loader resolves roles: `0, 1, ..., 11`.
pub open spec fn lazy_order() -> Seq<usize> {
    Seq::new(12, |k: int| k as usize)
}

/// The order in which the eager loader checks required roles: query, key,
/// value, output, up, gate, down, then the two norms.
pub open spec fn eager_order() -> Seq<usize> {
    seq![2usize, 3, 4, 8, 9, 10, 11, 0, 1]
}

/// The error for a missing role: `missing {stem} blk {i}`.
pub open spec fn missing_message(r: int, i: nat) -> Seq<char> {
    "missing "@ + role_stem(r) + " blk "@ + nat_to_decimal(i)
}

/// The view of an optional name.
pub open spec fn opt_view(o: Option<String>) -> Option<Seq<char>> {
    match o {
        Some(s) => Some(s@),
        None => None,
    }
}

/// The name of the output head, `output.weight`, when the registry `names`
/// holds it. When it does not, the model ties its output head to the token
/// embeddings.
pub fn output_head_name(names: &Vec<String>) -> (r: Option<String>)
    ensures
        opt_view(r) == (if name_present(names@, "output.weight"@) {
            Some("output.weight"@)
        } else {
            None
        }),
{
    let mut cands: Vec<String> = Vec::new();
    cands.push(chars_to_string(&str_to_chars("output.weight")));
    let r = find_tensor_name(names, &cands);
    proof {
        assert(cands@.drop_first().len() == 0);
        assert(first_present(names@, cands@.drop_first()) is None);
    }
    r
}

/// The tensor names of one block's weights, indexed by role.
#[derive(Debug, Clone)]
pub struct BlockTensorNames {
    /// One entry per role; `None` only for an absent bias.
    pub names: Vec<Option<String>>,
}

fn role_stem_str(r: usize) -> (s: &'static str)
    requires
        r < 12,
    ensures
        s@ == role_stem(r as int),
{
    if r == 0 {
        "attn_norm"
    } else if r == 1 {
        "ffn_norm"
    } else if r == 2 || r == 5 {
        "attn_q"
    } else if r == 3 || r == 6 {
        "attn_k"
    } else if r == 4 || r == 7 {
        "attn_v"
    } else if r == 8 {
        "attn_output"
    } else if r == 9 {
        "ffn_up"
    } else if r == 10 {
        "ffn_gate"
    } else {
        "ffn_down"
    }
}

fn role_hf_str(r: usize) -> (s: &'static str)
    requires
        r < 12,
    ensures
        s@ == role_hf(r as int),
{
    if r == 0 {
        "input_layernorm.weight"
    } else if r == 1 {
        "post_attention_layernorm.weight"
    } else if r == 2 {
        "self_attn.q_proj.weight"
    } else if r == 3 {
        "self_attn.k_proj.weight"
    } else if r == 4 {
        "self_attn.v_proj.weight"
    } else if r == 5 {
        "self_attn.q_proj.bias"
    } else if r == 6 {
        "self_attn.k_proj.bias"
    } else if r == 7 {
        "self_attn.v_proj.bias"
    } else if r == 8 {
        "self_attn.o_proj.weight"
    } else if r == 9 {
        "mlp.up_proj.weight"
    } else if r == 10 {
        "mlp.gate_proj.weight"
    } else {
        "mlp.down_proj.weight"
    }
}

/// The GGUF name of role `r` of block `block`.
pub fn gguf_tensor_name(r: usize, block: usize) -> (v: Vec<char>)
    requires
        r < ROLE_COUNT,
    ensures
        v@ == gguf_name(r as int, block as nat),
{
    let mut v = str_to_chars("blk.");
    push_decimal(&mut v, block as u128);
    append_str(&mut v, ".");
    append_str(&mut v, role_stem_str(r));
    append_str(&mut v, ".");
    if 5 <= r && r <= 7 {
        append_str(&mut v, "bias");
    } else {
        append_str(&mut v, "weight");
    }
    v
}

/// The Hugging Face name of role `r` of block `block`.
pub fn hf_tensor_name(r: usize, block: usize) -> (v: Vec<char>)
    requires
        r < ROLE_COUNT,
    ensures
        v@ == hf_name(r as int, block as nat),
{
    let mut v = str_to_chars("model.layers.");
    push_decimal(&mut v, block as u128);
    append_str(&mut v, ".");
    append_str(&mut v, role_hf_str(r));
    v
}

/// Whether `n` is one of `names`.
pub fn contains_name(names: &Vec<String>, n: &Vec<char>) -> (b: bool)
    ensures
        b == name_present(names@, n@),
{
    let m = names.len();
    for j in 0..m
        invariant
            m == names@.len(),
            forall|t: int| 0 <= t < j ==> names@[t]@ != n@,
    {
        if equals_str(n, names[j].as_str()) {
            assert(names@[j as int]@ == n@);
            return true;
        }
    }
    false
}

/// The first of `candidates` that is one of `names` (the registry of tensor
/// names of a GGUF file), if any.
pub fn find_tensor_name(names: &Vec<String>, candidates: &Vec<String>) -> (r: Option<String>)
    ensures
        opt_view(r) == first_present(names@, candidates@),
{
    let n = candidates.len();
    let mut i: usize = 0;
    assert(candidates@.skip(0) =~= candidates@);
    while i < n
        invariant
            n == candidates@.len(),
            i <= n,
            first_present(names@, candidates@) == first_present(names@, candidates@.skip(i as int)),
        decreases n - i,
    {
        assert(candidates@.skip(i as int)[0] == candidates@[i as int]);
        assert(candidates@.skip(i as int).drop_first() == candidates@.skip(i + 1));
        let c = str_to_chars(candidates[i].as_str());
        if contains_name(names, &c) {
            return Some(candidates[i].clone());
        }
        i = i + 1;
    }
    assert(candidates@.skip(n as int).len() == 0);
    None
}

/// The tensor holding role `r` of block `block` (see [`resolve_role`]).
pub fn resolve_role_name(names: &Vec<String>, r: usize, block: usize) -> (res: Option<String>)
    requires
        r < ROLE_COUNT,
    ensures
        opt_view(res) == resolve_role(names@, r as int, block as nat),
{
    let g = gguf_tensor_name(r, block);
    if contains_name(names, &g) {
        return Some(chars_to_string(&g));
    }
    let h = hf_tensor_name(r, block);
    if contains_name(names, &h) {
        return Some(chars_to_string(&h));
    }
    None
}

/// The first role of `order` missing for block `block`.
fn find_missing(names: &Vec<String>, block: usize, order: &Vec<usize>) -> (m: Option<usize>)
    requires
        forall|k: int| 0 <= k < order@.len() ==> #[trigger] order@[k] < ROLE_COUNT,
    ensures
        match m {
            Some(r) => first_missing(names@, block as nat, order@) == Some(r as int) && r
                < ROLE_COUNT,
            None => first_missing(names@, block as nat, order@) is None,
        },
{
    let n = order.len();
    let mut i: usize = 0;
    assert(order@.skip(0) =~= order@);
    while i < n
        invariant
            n == order@.len(),
            i <= n,
            forall|k: int| 0 <= k < order@.len() ==> #[trigger] order@[k] < ROLE_COUNT,
            first_missing(names@, block as nat, order@) == first_missing(
                names@,
                block as nat,
                order@.skip(i as int),
            ),
        decreases n - i,
    {
        assert(order@.skip(i as int)[0] == order@[i as int]);
        assert(order@.skip(i as int).drop_first() == order@.skip(i + 1));
        let r = order[i];
        if !(5 <= r && r <= 7) {
            let found = resolve_role_name(names, r, block);
            if found.is_none() {
                return Some(r);
            }
        }
        i = i + 1;
    }
    assert(order@.skip(n as int).len() == 0);
    None
}

/// `missing {stem} blk {block}`.
fn missing_error(r: usize, block: usize) -> (s: String)
    requires
        r < ROLE_COUNT,
    ensures
        s@ == missing_message(r as int, block as nat),
{
    let mut v = str_to_chars("missing ");
    append_str(&mut v, role_stem_str(r));
    append_str(&mut v, " blk ");
    push_decimal(&mut v, block as u128);
    chars_to_string(&v)
}

/// Resolve every role of block `block` in the lazy loader's order: each
/// role gets the tensor named by [`resolve_role`]; the first required role
/// without one is reported as `missing {stem} blk {block}`.
pub fn resolve_block(names: &Vec<String>, block: usize) -> (r: Result<BlockTensorNames, String>)
    ensures
        r is Ok <==> first_missing(names@, block as nat, lazy_order()) is None,
        r matches Ok(b) ==> b.names@.len() == ROLE_COUNT && forall|k: int|
            0 <= k < ROLE_COUNT ==> #[trigger] opt_view(b.names@[k]) == resolve_role(
                names@,
                k,
                block as nat,
            ),
        r matches Err(e) ==> exists|k: int|
            first_missing(names@, block as nat, lazy_order()) == Some(k) && e@
                == #[trigger] missing_message(k, block as nat),
{
    let mut order: Vec<usize> = Vec::new();
    for k in 0..12usize
        invariant
            order@ == lazy_order().take(k as int),
    {
        order.push(k);
        assert(order@ == lazy_order().take(k + 1));
    }
    assert(order@ == lazy_order());
    if let Some(k) = find_missing(names, block, &order) {
        return Err(missing_error(k, block));
    }
    let mut out: Vec<Option<String>> = Vec::new();
    for k in 0..12usize
        invariant
            out@.len() == k,
            forall|t: int|
                0 <= t < k ==> #[trigger] opt_view(out@[t]) == resolve_role(
                    names@,
                    t,
                    block as nat,
                ),
    {
        out.push(resolve_role_name(names, k, block));
    }
    Ok(BlockTensorNames { names: out })
}

/// Resolve block `block` as the eager loader does: the required roles are
/// checked in [`eager_order`], and every name given is the GGUF one (a bias
/// gets it only when some tensor for that bias exists).
pub fn resolve_block_eager(names: &Vec<String>, block: usize) -> (r: Result<
    BlockTensorNames,
    String,
>)
    ensures
        r is Ok <==> first_missing(names@, block as nat, eager_order()) is None,
        r matches Ok(b) ==> b.names@.len() == ROLE_COUNT && forall|k: int|
            0 <= k < ROLE_COUNT ==> #[trigger] opt_view(b.names@[k]) == (if !is_bias(k)
                || resolve_role(names@, k, block as nat) is Some {
                Some(gguf_name(k, block as nat))
            } else {
                None
            }),
        r matches Err(e) ==> exists|k: int|
            first_missing(names@, block as nat, eager_order()) == Some(k) && e@
                == #[trigger] missing_message(k, block as nat),
{
    let order: Vec<usize> = vec![2, 3, 4, 8, 9, 10, 11, 0, 1];
    assert(order@ == eager_order());
    if let Some(k) = find_missing(names, block, &order) {
        return Err(missing_error(k, block));
    }
    let mut out: Vec<Option<String>> = Vec::new();
    for k in 0..12usize
        invariant
            out@.len() == k,
            forall|t: int|
                0 <= t < k ==> #[trigger] opt_view(out@[t]) == (if !is_bias(t) || resolve_role(
                    names@,
                    t,
                    block as nat,
                ) is Some {
                    Some(gguf_name(t, block as nat))
                } else {
                    None
                }),
    {
        let present = if 5 <= k && k <= 7 {
            resolve_role_name(names, k, block).is_some()
        } else {
            true
        };
        if present {
            let g = gguf_tensor_name(k, block);
            out.push(Some(chars_to_string(&g)));
        } else {
            out.push(None);
        }
    }
    Ok(BlockTensorNames { names: out })
}

/// The names in `names` that start with `prefix`, in order.
pub open spec fn names_with_prefix(names: Seq<String>, prefix: Seq<char>) -> Seq<Seq<char>>
    decreases names.len(),
{
    if names.len() == 0 {
        Seq::empty()
    } else {
        let rest = names_with_prefix(names.drop_last(), prefix);
        if starts_with(names.last()@, prefix) {
            rest.push(names.last()@)
        } else {
            rest
        }
    }
}

/// The names of the tensors of block `block` (those starting `blk.{block}.`),
/// in the order of `names`.
pub fn block_tensor_names(names: &Vec<String>, block: usize) -> (r: Vec<String>)
    ensures
        r@.len() == names_with_prefix(names@, "blk."@ + nat_to_decimal(block as nat) + "."@).len(),
        forall|i: int|
            0 <= i < r@.len() ==> #[trigger] r@[i]@ == names_with_prefix(
                names@,
                "blk."@ + nat_to_decimal(block as nat) + "."@,
            )[i],
{
    let mut p = str_to_chars("blk.");
    push_decimal(&mut p, block as u128);
    append_str(&mut p, ".");
    let prefix = chars_to_string(&p);
    let ghost pre = p@;
    let n = names.len();
    let mut r: Vec<String> = Vec::new();
    for i in 0..n
        invariant
            n == names@.len(),
            prefix@ == pre,
            r@.len() == names_with_prefix(names@.take(i as int), pre).len(),
            forall|k: int|
                0 <= k < r@.len() ==> #[trigger] r@[k]@ == names_with_prefix(
                    names@.take(i as int),
                    pre,
                )[k],
    {
        assert(names@.take(i + 1).drop_last() == names@.take(i as int));
        let cs = str_to_chars(names[i].as_str());
        if has_prefix(&cs, prefix.as_str()) {
            r.push(names[i].clone());
        }
    }
    assert(names@.take(n as int) == names@);
    r
}

/// Resolve blocks `0..num_layers` with [`resolve_block`], stopping at the
/// first block with a missing weight.
pub fn resolve_blocks(names: &Vec<String>, num_layers: usize) -> (r: Result<
    Vec<BlockTensorNames>,
    String,
>)
    ensures
        r is Ok <==> forall|i: int|
            0 <= i < num_layers ==> #[trigger] first_missing(names@, i as nat, lazy_order()) is None,
        r matches Ok(v) ==> v@.len() == num_layers && forall|i: int, k: int|
            0 <= i < num_layers && 0 <= k < ROLE_COUNT ==> #[trigger] opt_view(v@[i].names@[k])
                == resolve_role(names@, k, i as nat) && v@[i].names@.len() == ROLE_COUNT,
        r matches Err(e) ==> exists|i: int, k: int|
            0 <= i < num_layers && (forall|j: int|
                0 <= j < i ==> #[trigger] first_missing(names@, j as nat, lazy_order()) is None)
                && first_missing(names@, i as nat, lazy_order()) == Some(k) && e@
                == #[trigger] missing_message(k, i as nat),
{
    let mut out: Vec<BlockTensorNames> = Vec::new();
    for i in 0..num_layers
        invariant
            out@.len() == i,
            forall|j: int| 0 <= j < i ==> #[trigger] first_missing(names@, j as nat, lazy_order()) is None,
            forall|j: int, k: int|
                0 <= j < i && 0 <= k < ROLE_COUNT ==> #[trigger] opt_view(out@[j].names@[k])
                    == resolve_role(names@, k, j as nat) && out@[j].names@.len() == ROLE_COUNT,
    {
        match resolve_block(names, i) {
            Ok(b) => {
                out.push(b);
            },
            Err(e) => {
                proof {
                    let ii: int = i as int;
                    assert(first_missing(names@, ii as nat, lazy_order()) is Some);
                    let k = choose|k: int|
                        first_missing(names@, i as nat, lazy_order()) == Some(k) && e@
                            == #[trigger] missing_message(k, i as nat);
                    assert(first_missing(names@, ii as nat, lazy_order()) == Some(k) && e@
                        == missing_message(k, ii as nat));
                    assert(forall|j: int|
                        0 <= j < ii ==> #[trigger] first_missing(names@, j as nat, lazy_order()) is None);
                }
                return Err(e);
            },
        }
    }
    Ok(out)
}

} // verus!
