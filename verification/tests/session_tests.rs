use tpt_abyss::{
    byte_text, byte_tokens, correction_text, generation_mode, judge_attempt, parse_u32,
    program_override, prompt_text, qwen_chat_prompt, solve_report, AbyssError, LayerId,
    SolveStep, SolveState, solve_step, MAX_DRAFTS,
};

#[test]
fn chat_template_wraps_the_user_turn() {
    assert_eq!(
        qwen_chat_prompt("hi"),
        "<|im_start|>system\nYou are a helpful assistant.<|im_end|>\n<|im_start|>user\nhi<|im_end|>\n<|im_start|>assistant\n"
    );
    assert_eq!(prompt_text("chat", "hi"), qwen_chat_prompt("hi"));
    assert_eq!(prompt_text("raw", "hi"), "hi");
}

#[test]
fn modes() {
    assert_eq!(generation_mode(false, false), (false, "sequential"));
    assert_eq!(generation_mode(false, true), (true, "dynamic"));
    assert_eq!(generation_mode(true, true), (false, "sequential"));
}

#[test]
fn byte_fallback_round_trip() {
    assert_eq!(byte_tokens("ab"), vec![97, 98]);
    assert_eq!(byte_tokens("é"), vec![0xc3, 0xa9]);
    assert_eq!(byte_text(&vec![72, 105, 256 + 33]), "Hi!");
}

#[test]
fn u32_parsing() {
    let p = |s: &str| parse_u32(&s.chars().collect::<Vec<char>>());
    assert_eq!(p("42"), Some(42));
    assert_eq!(p("+7"), Some(7));
    assert_eq!(p("4294967295"), Some(u32::MAX));
    assert_eq!(p("4294967296"), None);
    assert_eq!(p(""), None);
    assert_eq!(p("+"), None);
    assert_eq!(p("-1"), None);
    assert_eq!(p("1a"), None);
}

#[test]
fn program_override_parses_layer_lists() {
    let p = program_override("1, 2,3,3 ,4", 4).unwrap().unwrap();
    assert_eq!(
        p.as_slice(),
        &[LayerId(1), LayerId(2), LayerId(3), LayerId(3), LayerId(4)]
    );
    assert!(program_override("1,x", 4).is_none());
    assert!(program_override("", 4).is_none());
    assert!(program_override("1,,2", 4).is_none());
    match program_override("1,9", 4) {
        Some(Err(AbyssError::InvalidLayerProgram { reason })) => {
            assert!(reason.contains("9"));
        }
        other => panic!("unexpected {:?}", other.map(|r| r.is_ok())),
    }
}

#[test]
fn judge_accepts_consistent_drafts() {
    match judge_attempt(0, "2 + 2 = 4\nanswer: 4").unwrap() {
        SolveStep::Finish { text, answer } => {
            assert_eq!(text, "2 + 2 = 4\nanswer: 4");
            assert_eq!(answer, "4");
        }
        _ => panic!("expected finish"),
    }
    match judge_attempt(1, "all good").unwrap() {
        SolveStep::Finish { answer, .. } => assert_eq!(answer, "all good"),
        _ => panic!("expected finish"),
    }
}

#[test]
fn judge_corrects_then_gives_up() {
    match judge_attempt(0, "2 + 2 = 5\nanswer: 5").unwrap() {
        SolveStep::Correct { hint } => assert_eq!(hint, "recompute or revise step 0"),
        _ => panic!("expected correction"),
    }
    match judge_attempt(2, "2 + 2 = 5\nanswer: 5").unwrap() {
        SolveStep::Finish { answer, .. } => assert_eq!(answer, "5"),
        _ => panic!("expected finish on the last attempt"),
    }
}

#[test]
fn session_texts() {
    assert_eq!(correction_text("fix step 1"), "\nCorrection: fix step 1\n");
    assert_eq!(
        solve_report("x = 1", "1"),
        "=== TPT Abyss reasoning ===\nx = 1\n\nFinal answer: 1"
    );
}

#[test]
fn solve_session_judges_the_corrected_draft() {
    let state = SolveState::new();
    assert_eq!(state.drafts_judged(), 0);
    let (state, step) = solve_step(state, "2 + 2 = 5\nanswer: 5");
    assert!(matches!(step, SolveStep::Correct { .. }));
    assert_eq!(state.drafts_judged(), 1);
    let (state, step) = solve_step(state, "2 + 2 = 4\nanswer: 4");
    assert_eq!(state.drafts_judged(), 2);
    match step {
        SolveStep::Finish { answer, .. } => assert_eq!(answer, "4"),
        _ => panic!("expected the consistent corrected draft to finish"),
    }
}

#[test]
fn solve_session_stops_at_the_third_draft() {
    let mut state = SolveState::new();
    let mut finished = None;
    for _ in 0..MAX_DRAFTS {
        let (next, step) = solve_step(state, "2 + 2 = 5\nanswer: 5");
        state = next;
        if let SolveStep::Finish { answer, .. } = step {
            finished = Some(answer);
            break;
        }
    }
    assert_eq!(state.drafts_judged(), MAX_DRAFTS);
    assert_eq!(finished.as_deref(), Some("5"));
}
