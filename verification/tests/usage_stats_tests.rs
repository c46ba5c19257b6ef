use tpt_abyss::{ActivationLog, LayerId, LayerUsageStats, Millionths};

#[test]
fn tracks_usage_after_updates() {
    let mut stats = LayerUsageStats::new(Millionths(500_000), Millionths(500_000));
    // Simulate: layer 1 appears 3x, layer 2 appears 1x.
    let log: ActivationLog = vec![
        (LayerId(1), Millionths(100_000)),
        (LayerId(1), Millionths(200_000)),
        (LayerId(1), Millionths(300_000)),
        (LayerId(2), Millionths(50_000)),
    ];
    stats.update(&log, 4);

    assert!(stats.usage_score(LayerId(1)) > stats.usage_score(LayerId(2)));
    assert_eq!(stats.rounds(), 1);
}

#[test]
fn ema_smoothing() {
    let mut stats = LayerUsageStats::new(Millionths(300_000), Millionths(1_000_000)); // all selection weight
    // Round 1: layer 1 selected 100%
    let log1: ActivationLog = vec![(LayerId(1), Millionths(100_000)), (LayerId(1), Millionths(100_000))];
    stats.update(&log1, 2);
    let score_after_1 = stats.usage_score(LayerId(1));

    // Round 2: layer 2 selected 100% — layer 1 should decay but not vanish.
    let log2: ActivationLog = vec![(LayerId(2), Millionths(100_000)), (LayerId(2), Millionths(100_000))];
    stats.update(&log2, 2);
    let score_layer1_after_2 = stats.usage_score(LayerId(1));
    // Layer 1 still has some score due to EMA smoothing.
    assert!(
        score_layer1_after_2.0 > 0,
        "EMA should preserve prior signal"
    );
    assert!(score_layer1_after_2 < score_after_1, "Layer 1 should decay");
}

#[test]
fn hot_and_cold() {
    let mut stats = LayerUsageStats::new(Millionths(500_000), Millionths(500_000));
    // Layer 3 is always selected with high activation.
    for _ in 0..5 {
        let log: ActivationLog = vec![(LayerId(3), Millionths(900_000)), (LayerId(1), Millionths(100_000))];
        stats.update(&log, 2);
    }
    let hot = stats.hot_layers(1);
    assert_eq!(hot, vec![LayerId(3)]);
}

#[test]
fn exact_fixed_point_values_after_one_round() {
    let mut stats = LayerUsageStats::new(Millionths(500_000), Millionths(500_000));
    let log: ActivationLog = vec![
        (LayerId(1), Millionths(100_000)),
        (LayerId(1), Millionths(200_000)),
        (LayerId(1), Millionths(300_000)),
        (LayerId(2), Millionths(50_000)),
    ];
    stats.update(&log, 4);
    assert_eq!(stats.selection_ema(LayerId(1)), Millionths(375_000));
    assert_eq!(stats.activation_ema(LayerId(1)), Millionths(150_000));
    assert_eq!(stats.usage_score(LayerId(1)), Millionths(262_500));
    assert_eq!(stats.selection_ema(LayerId(2)), Millionths(125_000));
    assert_eq!(stats.activation_ema(LayerId(2)), Millionths(25_000));
    assert_eq!(stats.usage_score(LayerId(2)), Millionths(75_000));
    assert_eq!(stats.usage_score(LayerId(9)), Millionths(0));
}

#[test]
fn unlogged_layer_decays_by_one_minus_decay() {
    let mut stats = LayerUsageStats::new(Millionths(300_000), Millionths(1_000_000));
    stats.update(&vec![(LayerId(1), Millionths(0))], 1);
    assert_eq!(stats.selection_ema(LayerId(1)), Millionths(300_000));
    stats.update(&vec![(LayerId(2), Millionths(0))], 1);
    assert_eq!(stats.selection_ema(LayerId(1)), Millionths(210_000));
    assert_eq!(stats.usage_score(LayerId(1)), Millionths(210_000));
    stats.update(&Vec::new(), 0);
    assert_eq!(stats.selection_ema(LayerId(1)), Millionths(147_000));
    assert_eq!(stats.rounds(), 3);
}

#[test]
fn activation_is_capped_at_one_and_decay_clamped() {
    let mut stats = LayerUsageStats::new(Millionths(0), Millionths(0));
    // decay clamps to 0.01, weight 0 puts the score on activation.
    stats.update(&vec![(LayerId(4), Millionths(5_000_000))], 1);
    assert_eq!(stats.activation_ema(LayerId(4)), Millionths(10_000));
    assert_eq!(stats.usage_score(LayerId(4)), Millionths(10_000));
    let fast = LayerUsageStats::new(Millionths(2_000_000), Millionths(2_000_000));
    let mut fast = fast;
    fast.update(&vec![(LayerId(1), Millionths(700_000))], 1);
    assert_eq!(fast.selection_ema(LayerId(1)), Millionths(1_000_000));
    assert_eq!(fast.usage_score(LayerId(1)), Millionths(1_000_000));
}

#[test]
fn ranked_and_cold_layers_and_clear() {
    let mut stats = LayerUsageStats::default();
    let log: ActivationLog = vec![
        (LayerId(1), Millionths(100_000)),
        (LayerId(2), Millionths(800_000)),
        (LayerId(2), Millionths(800_000)),
    ];
    stats.update(&log, 3);
    let r = stats.ranked();
    assert_eq!(r.len(), 2);
    assert_eq!(r[0].0, LayerId(2));
    assert!(r[0].1 >= r[1].1);
    assert_eq!(stats.cold_layers(1), vec![LayerId(1)]);
    assert_eq!(stats.hot_layers(5), vec![LayerId(2), LayerId(1)]);
    stats.clear();
    assert!(stats.ranked().is_empty());
    assert_eq!(stats.rounds(), 0);
}

#[test]
fn clone_keeps_statistics() {
    let mut stats = LayerUsageStats::new(Millionths(500_000), Millionths(500_000));
    stats.update(&vec![(LayerId(1), Millionths(200_000))], 1);
    let c = stats.clone();
    stats.clear();
    assert_eq!(c.usage_score(LayerId(1)), Millionths(300_000));
    assert_eq!(c.rounds(), 1);
    assert_eq!(stats.rounds(), 0);
}
