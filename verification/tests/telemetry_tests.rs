use tpt_abyss::{LayerId, LayerProgram, LayerSelectionStats};

#[test]
fn records_layer_frequencies() {
    let mut stats = LayerSelectionStats::new();
    // Program: [1,2,3,3,4] — layer 3 selected twice.
    let prog = LayerProgram::new(
        vec![LayerId(1), LayerId(2), LayerId(3), LayerId(3), LayerId(4)],
        4,
    )
    .unwrap();
    stats.record(&prog);

    assert_eq!(stats.count(LayerId(3)), 2);
    assert_eq!(stats.count(LayerId(1)), 1);
    assert_eq!(stats.total_executions(), 5);
    assert_eq!(stats.total_programs(), 1);
}

#[test]
fn hot_and_cold_layers() {
    let mut stats = LayerSelectionStats::new();
    let prog1 = LayerProgram::sequential(4).unwrap();
    stats.record(&prog1);
    // Second record: repeat layer 4 twice.
    let prog2 = LayerProgram::new(
        vec![LayerId(1), LayerId(2), LayerId(3), LayerId(4), LayerId(4)],
        4,
    )
    .unwrap();
    stats.record(&prog2);

    let hot = stats.hot_layers(1);
    assert_eq!(hot, vec![LayerId(4)]); // 3 total (1+2)
    let cold = stats.cold_layers(1);
    assert_eq!(cold.len(), 1);
    assert!(
        cold[0] == LayerId(1) || cold[0] == LayerId(2) || cold[0] == LayerId(3),
        "cold layer should be one with count 2, got {:?}",
        cold[0]
    );
}

#[test]
fn frequency_calculation() {
    let mut stats = LayerSelectionStats::new();
    let prog = LayerProgram::new(vec![LayerId(1), LayerId(1), LayerId(2)], 2).unwrap();
    stats.record(&prog);
    // Layer 1: 2/3, Layer 2: 1/3
    let f1 = stats.frequency(LayerId(1)).0 as f64 / 1e6;
    let f2 = stats.frequency(LayerId(2)).0 as f64 / 1e6;
    assert!((f1 - 2.0 / 3.0).abs() < 1e-6);
    assert!((f2 - 1.0 / 3.0).abs() < 1e-6);
}

#[test]
fn frequency_is_exact_millionths_rounded_down() {
    let mut stats = LayerSelectionStats::new();
    assert_eq!(stats.frequency(LayerId(1)).0, 0);
    let prog = LayerProgram::new(vec![LayerId(1), LayerId(1), LayerId(2)], 2).unwrap();
    stats.record(&prog);
    assert_eq!(stats.frequency(LayerId(1)).0, 666_666);
    assert_eq!(stats.frequency(LayerId(2)).0, 333_333);
    assert_eq!(stats.frequency(LayerId(7)).0, 0);
}

#[test]
fn ranked_lists_every_layer_by_count() {
    let mut stats = LayerSelectionStats::default();
    let prog = LayerProgram::new(vec![LayerId(2), LayerId(1), LayerId(2), LayerId(3), LayerId(2), LayerId(1)], 3).unwrap();
    stats.record(&prog);
    let r = stats.ranked();
    assert_eq!(r, vec![(LayerId(2), 3), (LayerId(1), 2), (LayerId(3), 1)]);
    assert_eq!(stats.hot_layers(10), vec![LayerId(2), LayerId(1), LayerId(3)]);
    assert_eq!(stats.cold_layers(2), vec![LayerId(3), LayerId(1)]);
}

#[test]
fn counts_accumulate_over_programs_and_clear_resets() {
    let mut stats = LayerSelectionStats::new();
    let p = LayerProgram::sequential(3).unwrap();
    stats.record(&p);
    stats.record(&p);
    assert_eq!(stats.count(LayerId(2)), 2);
    assert_eq!(stats.total_programs(), 2);
    assert_eq!(stats.total_executions(), 6);
    stats.clear();
    assert_eq!(stats.count(LayerId(2)), 0);
    assert_eq!(stats.total_programs(), 0);
    assert_eq!(stats.total_executions(), 0);
    assert!(stats.ranked().is_empty());
}

#[test]
fn clone_keeps_counts() {
    let mut stats = LayerSelectionStats::new();
    stats.record(&LayerProgram::sequential(2).unwrap());
    let c = stats.clone();
    stats.clear();
    assert_eq!(c.count(LayerId(2)), 1);
    assert_eq!(c.total_executions(), 2);
    assert_eq!(stats.total_executions(), 0);
}

#[test]
fn ranked_lists_exactly_the_recorded_layers() {
    let mut stats = tpt_abyss::LayerSelectionStats::new();
    stats.record(&tpt_abyss::LayerProgram::sequential(4).unwrap());
    stats.record(
        &tpt_abyss::LayerProgram::new(
            vec![
                tpt_abyss::LayerId(1),
                tpt_abyss::LayerId(2),
                tpt_abyss::LayerId(3),
                tpt_abyss::LayerId(4),
                tpt_abyss::LayerId(4),
            ],
            4,
        )
        .unwrap(),
    );
    let r = stats.ranked();
    assert_eq!(r.len(), 4);
    assert_eq!(r[0], (tpt_abyss::LayerId(4), 3));
    assert!(r[1..].iter().all(|e| e.1 == 2));
    assert_eq!(stats.hot_layers(1), vec![tpt_abyss::LayerId(4)]);
}
