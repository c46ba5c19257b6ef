use tpt_abyss::{
    activation_entropy, choose_program, last_residual_magnitude, or_sequential, unique_blocks,
    ActivationLog, AbyssError, GenerationLoop, HeuristicRouter, LayerId, LayerProgram, Millionths,
    RouterConfig,
};

#[test]
fn generation_stops_at_eos_without_keeping_it() {
    let mut g = GenerationLoop::start(&vec![1, 2, 3], 10, 100, 2);
    assert!(!g.is_done());
    assert_eq!(g.pending(), (vec![1, 2, 3], 0));
    g = g.advance(7);
    assert_eq!(g.pending(), (vec![7], 3));
    assert_eq!(g.seq_len(), 4);
    g = g.advance(2);
    assert!(g.is_done());
    assert_eq!(g.generated(), vec![7]);
}

#[test]
fn generation_stops_after_max_new_tokens() {
    let mut g = GenerationLoop::start(&vec![5], 3, 100, 0);
    for t in [10u32, 11, 12] {
        assert!(!g.is_done());
        g = g.advance(t);
    }
    assert!(g.is_done());
    assert_eq!(g.generated(), vec![10, 11, 12]);
    let z = GenerationLoop::start(&vec![5], 0, 100, 0);
    assert!(z.is_done());
    assert!(z.generated().is_empty());
}

#[test]
fn generation_stops_at_context_length() {
    let mut g = GenerationLoop::start(&vec![1, 1, 1], 50, 5, 0);
    g = g.advance(8);
    assert!(!g.is_done());
    g = g.advance(9);
    assert!(g.is_done());
    assert_eq!(g.seq_len(), 5);
    assert_eq!(g.generated(), vec![8, 9]);
}

#[test]
fn residual_magnitude_is_capped_mean() {
    let empty: Vec<ActivationLog> = Vec::new();
    assert_eq!(last_residual_magnitude(&empty), Millionths(300_000));
    let h = vec![vec![], vec![(LayerId(1), Millionths(200_000)), (LayerId(2), Millionths(401_000))]];
    assert_eq!(last_residual_magnitude(&h), Millionths(300_500));
    let h2 = vec![vec![(LayerId(1), Millionths(3_000_000))]];
    assert_eq!(last_residual_magnitude(&h2), Millionths(1_000_000));
    let h3: Vec<ActivationLog> = vec![vec![]];
    assert_eq!(last_residual_magnitude(&h3), Millionths(300_000));
}

#[test]
fn entropy_is_ten_times_variance_capped() {
    let empty: Vec<ActivationLog> = Vec::new();
    assert_eq!(activation_entropy(&empty), Millionths(300_000));
    let one = vec![vec![(LayerId(1), Millionths(500_000))]];
    assert_eq!(activation_entropy(&one), Millionths(300_000));
    // magnitudes 0.1 and 0.3: mean 0.2, variance 0.01, times ten 0.1
    let two = vec![vec![(LayerId(1), Millionths(100_000)), (LayerId(2), Millionths(300_000))]];
    assert_eq!(activation_entropy(&two), Millionths(100_000));
    // magnitudes 0 and 1: variance 0.25, times ten capped at 1
    let wide = vec![vec![(LayerId(1), Millionths(0)), (LayerId(2), Millionths(1_000_000))]];
    assert_eq!(activation_entropy(&wide), Millionths(1_000_000));
    let flat = vec![vec![(LayerId(1), Millionths(400_000)), (LayerId(2), Millionths(400_000))]];
    assert_eq!(activation_entropy(&flat), Millionths(0));
}

#[test]
fn unique_blocks_are_zero_based_and_deduplicated() {
    let p = LayerProgram::new(vec![LayerId(1), LayerId(2), LayerId(3), LayerId(3), LayerId(1)], 4).unwrap();
    assert_eq!(unique_blocks(&p), vec![0, 1, 2]);
}

#[test]
fn choose_program_routes_or_falls_back() {
    let r = HeuristicRouter::new(RouterConfig::builder().model_depth(4).build());
    let p = choose_program(&r, 4, 10, Millionths(900_000), Millionths(100_000)).unwrap();
    assert_eq!(p.len(), 5);
    let easy = choose_program(&r, 4, 10, Millionths(0), Millionths(0)).unwrap();
    assert!(easy.is_sequential());
    let zero = HeuristicRouter::new(RouterConfig::builder().model_depth(0).build());
    let fallback = choose_program(&zero, 3, 1, Millionths(0), Millionths(0)).unwrap();
    assert_eq!(fallback.len(), 3);
    assert!(fallback.is_sequential());
    assert!(choose_program(&zero, 0, 1, Millionths(0), Millionths(0)).is_err());
}

#[test]
fn or_sequential_keeps_success() {
    let p = LayerProgram::new(vec![LayerId(2)], 2).unwrap();
    let kept = or_sequential(Ok(p), 5).unwrap();
    assert_eq!(kept.as_slice(), &[LayerId(2)]);
    let failed: Result<LayerProgram, AbyssError> = Err(AbyssError::Router("x".to_string()));
    let seq = or_sequential(failed, 2).unwrap();
    assert_eq!(seq.as_slice(), &[LayerId(1), LayerId(2)]);
}

#[test]
fn prompt_filling_the_context_still_gets_one_token() {
    let mut g = GenerationLoop::start(&vec![1, 2, 3, 4, 5], 10, 3, 0);
    assert!(!g.is_done());
    g = g.advance(6);
    assert!(g.is_done());
    assert_eq!(g.generated(), vec![6]);
    assert_eq!(g.seq_len(), 6);
}
