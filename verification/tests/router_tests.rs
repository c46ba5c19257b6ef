use tpt_abyss::{
    HeuristicRouter, LayerProgram, Millionths, Position, RouterConfig, RouterConfigBuilder,
    RouterFeaturesBuilder, TokenId,
};

fn router() -> HeuristicRouter {
    HeuristicRouter::new(
        RouterConfigBuilder::default()
            .model_depth(8)
            .max_repeat(3)
            .max_program_len(40)
            .build(),
    )
}

#[test]
fn easy_token_is_sequential() {
    let r = router();
    let p = r
        .route_token(TokenId(10), Position(1), Millionths(50_000), Millionths(50_000), false)
        .unwrap();
    // Not hard => backbone only.
    assert!(p.is_sequential(), "expected sequential, got {}", p.to_string());
    assert_eq!(p.len(), 8);
    assert_eq!(p.model_depth(), 8);
}

#[test]
fn hard_token_gets_repeats() {
    let r = router();
    let p = r
        .route_token(TokenId(7000), Position(100), Millionths(970_000), Millionths(950_000), true)
        .unwrap();
    assert!(!p.is_sequential(), "hard token should repeat layers: {}", p.to_string());
    assert!(p.max_repeat_count() > 1, "some layer must repeat: {}", p.to_string());
    // Must stay within the cap.
    assert!(p.len() <= 40, "program too long: {}", p.len());
}

#[test]
fn produced_program_is_valid() {
    let r = router();
    for pos in 0..50u32 {
        let p = r
            .route_token(
                TokenId(pos * 7),
                Position(pos),
                Millionths(pos * 20_000),
                Millionths(pos * 20_000),
                pos % 11 == 0,
            )
            .unwrap();
        // Re-validate through the public constructor semantics.
        let rebuilt = LayerProgram::new(p.as_slice().to_vec(), 8).unwrap();
        assert_eq!(rebuilt, p);
    }
}

#[test]
fn rejects_out_of_range_depth() {
    let r = router();
    let p = r.route_token(TokenId(1), Position(0), Millionths(0), Millionths(0), false);
    assert!(p.is_ok());
}

#[test]
fn hard_token_program_is_backbone_plus_last_layer() {
    let r = router();
    let p = r
        .route_token(TokenId(3), Position(2), Millionths(800_000), Millionths(700_000), false)
        .unwrap();
    assert_eq!(p.to_string(), "[L1, L2, L3, L4, L5, L6, L7, L8, L8]");
    assert_eq!(p.max_repeat_count(), 2);
}

#[test]
fn hardness_threshold_is_point_four() {
    let r = router();
    let below = r
        .route_token(TokenId(1), Position(1), Millionths(399_999), Millionths(0), false)
        .unwrap();
    assert!(below.is_sequential());
    let at = r
        .route_token(TokenId(1), Position(1), Millionths(400_000), Millionths(0), false)
        .unwrap();
    assert_eq!(at.len(), 9);
}

#[test]
fn extra_pass_dropped_when_it_does_not_fit() {
    let r = HeuristicRouter::new(RouterConfig::builder().model_depth(8).max_program_len(8).build());
    let p = r
        .route_token(TokenId(1), Position(1), Millionths(1_000_000), Millionths(1_000_000), false)
        .unwrap();
    assert!(p.is_sequential());
    assert_eq!(p.len(), 8);
}

#[test]
fn zero_depth_router_fails() {
    let r = HeuristicRouter::new(RouterConfig::builder().model_depth(0).build());
    assert!(r
        .route_token(TokenId(1), Position(1), Millionths(0), Millionths(0), false)
        .is_err());
}

#[test]
fn default_config_values() {
    let c = RouterConfig::default();
    assert_eq!(c.model_depth, 32);
    assert_eq!(c.max_repeat, 3);
    assert_eq!(c.hard_entropy, Millionths(600_000));
    assert_eq!(c.hard_residual, Millionths(600_000));
    assert_eq!(c.max_program_len, 96);
    let r = HeuristicRouter::new(c);
    assert_eq!(r.model_depth(), 32);
}

#[test]
fn features_are_normalized() {
    let b = RouterFeaturesBuilder::new(2048, 32_000);
    assert_eq!(b.dim(), 6);
    let f = b.build(TokenId(16_000), Position(1024), Millionths(1_500_000), Millionths(250_000), true);
    assert_eq!(f.dim(), 6);
    assert_eq!(f.as_slice(), &[0, 0, 1_000_000, -500_000, 1_000_000, 0]);
    let g = b.build(TokenId(0), Position(0), Millionths(0), Millionths(0), false);
    assert_eq!(g.values, vec![-1_000_000, -1_000_000, -1_000_000, -1_000_000, -1_000_000, 1_000_000]);
    let z = RouterFeaturesBuilder::new(0, 0);
    let h = z.build(TokenId(1), Position(1), Millionths(0), Millionths(0), false);
    assert_eq!(h.values[0], 1_000_000);
    assert_eq!(h.values[1], 1_000_000);
}

#[test]
fn route_features_reads_entropy_and_residual_features() {
    let r = router();
    let f = r.features(TokenId(5), Position(5), Millionths(900_000), Millionths(0), false);
    let p = r.route_features(&f).unwrap();
    assert_eq!(p.len(), 9);
}

#[test]
fn harder_tokens_never_get_shorter_programs() {
    let r = router();
    let mut last = 0;
    for e in [0u32, 100_000, 399_999, 400_000, 700_000, 1_000_000] {
        let p = r
            .route_token(TokenId(1), Position(1), Millionths(e), Millionths(0), false)
            .unwrap();
        assert!(p.len() >= last);
        last = p.len();
    }
}

#[test]
fn max_repeat_zero_allows_no_repeat() {
    let r = HeuristicRouter::new(
        RouterConfigBuilder::default()
            .model_depth(8)
            .max_repeat(0)
            .max_program_len(40)
            .build(),
    );
    let f = r.features(TokenId(7000), Position(100), Millionths(970_000), Millionths(950_000), true);
    let p = r.route_features(&f).unwrap();
    assert!(p.max_repeat_count() <= 1, "no layer may repeat: {}", p.to_string());
    assert!(p.is_sequential());
    assert_eq!(p.len(), 8);
}

#[test]
fn max_repeat_one_allows_one_extra_pass() {
    let r = HeuristicRouter::new(
        RouterConfigBuilder::default()
            .model_depth(8)
            .max_repeat(1)
            .max_program_len(40)
            .build(),
    );
    let f = r.features(TokenId(7000), Position(100), Millionths(970_000), Millionths(950_000), true);
    let p = r.route_features(&f).unwrap();
    assert_eq!(p.max_repeat_count(), 2);
    assert_eq!(p.len(), 9);
}
