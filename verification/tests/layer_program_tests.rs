use tpt_abyss::{AbyssError, LayerId, LayerProgram, LayerProgramBuilder, Position, Token, TokenId};

#[test]
fn new_validates_steps() {
    let p = LayerProgram::new(vec![LayerId(1), LayerId(2), LayerId(2)], 2).unwrap();
    assert_eq!(p.len(), 3);
    assert!(!p.is_empty());
    assert_eq!(p.model_depth(), 2);
    assert_eq!(p.steps(), vec![LayerId(1), LayerId(2), LayerId(2)]);
    assert_eq!(p.max_repeat_count(), 2);
    assert!(!p.is_sequential());
    match LayerProgram::new(Vec::new(), 4) {
        Err(AbyssError::InvalidLayerProgram { reason }) => {
            assert_eq!(reason, "program must contain at least one layer")
        }
        _ => panic!("empty program accepted"),
    }
    match LayerProgram::new(vec![LayerId(1), LayerId(0), LayerId(7)], 4) {
        Err(AbyssError::InvalidLayerProgram { reason }) => assert!(reason.contains('0')),
        _ => panic!("out-of-range program accepted"),
    }
}

#[test]
fn sequential_programs() {
    let p = LayerProgram::sequential(5).unwrap();
    assert!(p.is_sequential());
    assert_eq!(p.max_repeat_count(), 1);
    assert_eq!(p.to_string(), "[L1, L2, L3, L4, L5]");
    assert!(LayerProgram::sequential(0).is_err());
    let c = p.clone();
    assert_eq!(c, p);
}

#[test]
fn builder_collects_layers() {
    let p = LayerProgramBuilder::with_depth(4)
        .layer(1)
        .repeat(2, 3)
        .raw(3)
        .build()
        .unwrap();
    assert_eq!(p.to_string(), "[L1, L2, L2, L2, L4]");
    assert_eq!(p.max_repeat_count(), 3);
    assert!(LayerProgramBuilder::with_depth(2).layer(3).build().is_err());
    assert!(LayerProgramBuilder::with_depth(2).build().is_err());
}

#[test]
fn layer_ids_and_tokens() {
    assert_eq!(LayerId::from_zero_based(0), LayerId(1));
    assert_eq!(LayerId(1).as_zero_based(), 0);
    assert_eq!(LayerId(0).as_zero_based(), 0);
    assert_eq!(LayerId(12).to_string(), "L12");
    assert_eq!(TokenId(42).to_string(), "#42");
    let t = Token::new(TokenId(5), "hey");
    assert_eq!(t.text, "hey");
    assert_eq!(t.id, TokenId(5));
    assert_eq!(Position(3).next(), Position(4));
    assert_eq!(Position(3).saturating_sub(5), Position(0));
    assert_eq!(Position(9).saturating_sub(4), Position(5));
    assert_eq!(Position(7).to_string(), "pos7");
}
