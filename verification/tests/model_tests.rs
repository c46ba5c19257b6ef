use tpt_abyss::{
    find_tensor_name, resolve_block, resolve_block_eager, resolve_blocks, MetaValue, ModelShape,
    TextTokenizer, AbyssError, engine_result,
};

fn names(v: &[&str]) -> Vec<String> {
    v.iter().map(|s| s.to_string()).collect()
}

fn full_block(i: usize, hf: bool) -> Vec<String> {
    let gg = [
        "attn_norm.weight", "ffn_norm.weight", "attn_q.weight", "attn_k.weight", "attn_v.weight",
        "attn_output.weight", "ffn_up.weight", "ffn_gate.weight", "ffn_down.weight",
    ];
    let hfn = [
        "input_layernorm.weight", "post_attention_layernorm.weight", "self_attn.q_proj.weight",
        "self_attn.k_proj.weight", "self_attn.v_proj.weight", "self_attn.o_proj.weight",
        "mlp.up_proj.weight", "mlp.gate_proj.weight", "mlp.down_proj.weight",
    ];
    if hf {
        hfn.iter().map(|s| format!("model.layers.{i}.{s}")).collect()
    } else {
        gg.iter().map(|s| format!("blk.{i}.{s}")).collect()
    }
}

#[test]
fn find_tensor_name_takes_first_present_candidate() {
    let reg = names(&["model.embed_tokens.weight", "output.weight"]);
    let c = names(&["token_embd.weight", "model.embed_tokens.weight"]);
    assert_eq!(find_tensor_name(&reg, &c), Some("model.embed_tokens.weight".to_string()));
    assert_eq!(find_tensor_name(&reg, &names(&["output_norm.weight"])), None);
}

#[test]
fn resolve_gguf_block_without_biases() {
    let reg = full_block(0, false);
    let b = resolve_block(&reg, 0).unwrap();
    assert_eq!(b.names.len(), 12);
    assert_eq!(b.names[0].as_deref(), Some("blk.0.attn_norm.weight"));
    assert_eq!(b.names[5], None);
    assert_eq!(b.names[11].as_deref(), Some("blk.0.ffn_down.weight"));
}

#[test]
fn resolve_hf_block_with_bias() {
    let mut reg = full_block(3, true);
    reg.push("model.layers.3.self_attn.k_proj.bias".to_string());
    let b = resolve_block(&reg, 3).unwrap();
    assert_eq!(b.names[2].as_deref(), Some("model.layers.3.self_attn.q_proj.weight"));
    assert_eq!(b.names[6].as_deref(), Some("model.layers.3.self_attn.k_proj.bias"));
    assert_eq!(b.names[7], None);
    let e = resolve_block_eager(&reg, 3).unwrap();
    assert_eq!(e.names[2].as_deref(), Some("blk.3.attn_q.weight"));
    assert_eq!(e.names[6].as_deref(), Some("blk.3.attn_k.bias"));
    assert_eq!(e.names[5], None);
}

#[test]
fn missing_weight_is_reported_in_resolution_order() {
    let mut reg = full_block(1, false);
    reg.retain(|n| n != "blk.1.ffn_norm.weight" && n != "blk.1.attn_q.weight");
    assert_eq!(resolve_block(&reg, 1).unwrap_err(), "missing ffn_norm blk 1");
    assert_eq!(resolve_block_eager(&reg, 1).unwrap_err(), "missing attn_q blk 1");
}

#[test]
fn resolve_blocks_stops_at_first_bad_block() {
    let mut reg = full_block(0, false);
    reg.extend(full_block(1, true));
    assert_eq!(resolve_blocks(&reg, 2).unwrap().len(), 2);
    assert_eq!(resolve_blocks(&reg, 3).unwrap_err(), "missing attn_norm blk 2");
}

fn meta(entries: Vec<(&str, MetaValue)>) -> Vec<(String, MetaValue)> {
    entries.into_iter().map(|(k, v)| (k.to_string(), v)).collect()
}

#[test]
fn shape_from_metadata_with_defaults() {
    let m = meta(vec![
        ("general.architecture", MetaValue::Text("qwen2".to_string())),
        ("qwen2.block_count", MetaValue::Int(24)),
        ("qwen2.embedding_length", MetaValue::Int(896)),
        ("qwen2.attention.head_count", MetaValue::Int(14)),
        ("qwen2.attention.head_count_kv", MetaValue::Int(2)),
        ("qwen2.feed_forward_length", MetaValue::Int(4864)),
        ("qwen2.rope.freq_base", MetaValue::Other),
    ]);
    let s = ModelShape::from_metadata(&m).unwrap();
    assert_eq!(s.arch, "qwen2");
    assert_eq!(s.num_layers, 24);
    assert_eq!(s.hidden_size, 896);
    assert_eq!(s.num_attn_heads, 14);
    assert_eq!(s.num_kv_heads, 2);
    assert_eq!(s.head_dim, 64);
    assert_eq!(s.intermediate_size, 4864);
    assert_eq!(s.context_length, 2048);
    assert_eq!(s.vocab_size, 0);
    assert_eq!(s.rope_dims, 64);
}

#[test]
fn shape_uses_fallback_keys_and_llama_default() {
    let m = meta(vec![
        ("llama.n_layer", MetaValue::Int(2)),
        ("llama.n_embd", MetaValue::Int(64)),
        ("llama.attention.head_count", MetaValue::Int(4)),
        ("llama.attention.value_length", MetaValue::Int(32)),
        ("llama.ffn_embed_dim", MetaValue::Int(128)),
        ("llama.max_position_embeddings", MetaValue::Int(512)),
        ("general.vocab_size", MetaValue::Int(1000)),
        ("llama.rope.dims", MetaValue::Int(8)),
    ]);
    let s = ModelShape::from_metadata(&m).unwrap();
    assert_eq!(s.arch, "llama");
    assert_eq!(s.num_layers, 2);
    assert_eq!(s.num_kv_heads, 4);
    assert_eq!(s.head_dim, 32);
    assert_eq!(s.context_length, 512);
    assert_eq!(s.vocab_size, 1000);
    assert_eq!(s.rope_dims, 8);
}

#[test]
fn shape_reports_first_missing_key() {
    assert_eq!(ModelShape::from_metadata(&Vec::new()).unwrap_err(), "missing block_count");
    let m = meta(vec![
        ("llama.block_count", MetaValue::Int(2)),
        ("llama.embedding_length", MetaValue::Text("x".to_string())),
    ]);
    assert_eq!(ModelShape::from_metadata(&m).unwrap_err(), "missing embedding_length");
    let m2 = meta(vec![
        ("llama.block_count", MetaValue::Int(2)),
        ("llama.embedding_length", MetaValue::Int(8)),
        ("llama.attention.head_count", MetaValue::Int(2)),
    ]);
    assert_eq!(ModelShape::from_metadata(&m2).unwrap_err(), "missing feed_forward_length");
}

#[test]
fn tokenizer_rejects_bad_json() {
    match TextTokenizer::from_json("not json") {
        Err(AbyssError::Engine(msg)) => assert!(msg.starts_with("tokenizer load: ")),
        Err(e) => panic!("unexpected error {:?}", e),
        Ok(_) => panic!("bad json accepted"),
    }
}

#[test]
fn tokenizer_round_trip_on_a_tiny_vocabulary() {
    let json = r#"{
      "version": "1.0",
      "truncation": null,
      "padding": null,
      "added_tokens": [],
      "normalizer": null,
      "pre_tokenizer": {"type": "Whitespace"},
      "post_processor": null,
      "decoder": null,
      "model": {"type": "WordLevel", "vocab": {"hello": 0, "world": 1, "</s>": 2, "[UNK]": 3}, "unk_token": "[UNK]"}
    }"#;
    let t = TextTokenizer::from_json(json).unwrap();
    assert_eq!(t.encode("hello world").unwrap(), vec![0, 1]);
    assert_eq!(t.decode(&[1, 0]).unwrap(), "world hello");
    assert_eq!(t.eos_token_id(), Some(2));
}

#[test]
fn engine_result_passes_answers_and_tags_failures() {
    match engine_result("encode: ", Ok(vec![3u32, 4])) {
        Ok(ids) => assert_eq!(ids, vec![3u32, 4]),
        Err(e) => panic!("unexpected error {:?}", e),
    }
    match engine_result::<Vec<u32>>("decode: ", Err("bad id 9".to_string())) {
        Err(AbyssError::Engine(msg)) => assert_eq!(msg, "decode: bad id 9"),
        other => panic!("unexpected result {:?}", other),
    }
}

#[test]
fn eos_token_id_prefers_the_earliest_symbol() {
    let json = r#"{
      "version": "1.0",
      "truncation": null,
      "padding": null,
      "added_tokens": [],
      "normalizer": null,
      "pre_tokenizer": null,
      "post_processor": null,
      "decoder": null,
      "model": {"type": "WordLevel", "vocab": {"</s>": 0, "<|endoftext|>": 1, "[UNK]": 2}, "unk_token": "[UNK]"}
    }"#;
    let t = TextTokenizer::from_json(json).unwrap();
    assert_eq!(t.eos_token_id(), Some(1));
}

#[test]
fn eos_token_id_is_none_without_end_symbols() {
    let json = r#"{
      "version": "1.0",
      "truncation": null,
      "padding": null,
      "added_tokens": [],
      "normalizer": null,
      "pre_tokenizer": null,
      "post_processor": null,
      "decoder": null,
      "model": {"type": "WordLevel", "vocab": {"a": 0, "[UNK]": 1}, "unk_token": "[UNK]"}
    }"#;
    let t = TextTokenizer::from_json(json).unwrap();
    assert_eq!(t.eos_token_id(), None);
}

#[test]
fn block_tensor_names_filters_by_block_prefix() {
    let reg = names(&[
        "blk.1.attn_q.weight",
        "blk.10.attn_q.weight",
        "token_embd.weight",
        "blk.1.ffn_up.weight",
    ]);
    assert_eq!(
        tpt_abyss::block_tensor_names(&reg, 1),
        names(&["blk.1.attn_q.weight", "blk.1.ffn_up.weight"])
    );
    assert!(tpt_abyss::block_tensor_names(&reg, 2).is_empty());
}

#[test]
fn output_head_name_is_found_or_tied() {
    let with_head = names(&["token_embd.weight", "output.weight"]);
    assert_eq!(tpt_abyss::output_head_name(&with_head).as_deref(), Some("output.weight"));
    let without = names(&["token_embd.weight", "output_norm.weight"]);
    assert_eq!(tpt_abyss::output_head_name(&without), None);
}

#[test]
fn vocab_size_falls_back_to_embedding_rows() {
    assert_eq!(tpt_abyss::vocab_size_or(0, 32000), 32000);
    assert_eq!(tpt_abyss::vocab_size_or(151936, 32000), 151936);
}
