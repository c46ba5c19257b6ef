use tpt_abyss::{
    classify, looks_arithmetic, parse_trace, verify, AbyssError, ArithmeticChecker,
    ConfidenceModel, ContradictionDetector, Millionths, ReasoningStep, ReasoningTrace, StepKind,
    TraceParser, VerificationResult, VerificationStatus, Violation,
};

#[test]
fn parses_and_verifies_correct_trace() {
    let text = "\
goal: find total cost
we have 3 items at 12 each
3 * 12 = 36
therefore total = 36
answer: 36";
    let trace = parse_trace("t1", "math", text).unwrap();
    assert_eq!(trace.steps.len(), 4);
    let result = verify(&trace).unwrap();
    assert_eq!(result.status, VerificationStatus::Consistent);
    assert!(result.violations.is_empty());
    assert!(result.confidence.0 > 700_000);
}

#[test]
fn detects_arithmetic_error() {
    let text = "\
goal: multiply
4 * 5 = 25
answer: 25";
    let trace = parse_trace("t2", "math", text).unwrap();
    let result = verify(&trace).unwrap();
    assert_eq!(result.status, VerificationStatus::Inconsistent);
    assert!(result
        .violations
        .iter()
        .any(|v| v.kind == "arithmetic_error"));
}

#[test]
fn detects_contradiction() {
    let text = "\
let x = 10
now x = 20
answer: 20";
    let trace = parse_trace("t3", "logic", text).unwrap();
    let result = verify(&trace).unwrap();
    assert_eq!(result.status, VerificationStatus::Inconsistent);
    assert!(result.violations.iter().any(|v| v.kind == "contradiction"));
}

#[test]
fn division_by_zero_flagged() {
    let text = "5 / 0 = 0";
    let trace = parse_trace("t4", "math", text).unwrap();
    let result = verify(&trace).unwrap();
    assert!(result
        .violations
        .iter()
        .any(|v| v.kind == "division_by_zero"));
}

#[test]
fn final_answer_and_step_kinds() {
    let text = "goal: add\n2 + 3 = 5\nso, the sum is 5\nanswer:  5 ";
    let trace = parse_trace("t5", "math", text).unwrap();
    assert_eq!(trace.task_id, "t5");
    assert_eq!(trace.task_type, "math");
    assert_eq!(trace.final_answer.as_deref(), Some("5"));
    assert_eq!(trace.steps.len(), 3);
    assert_eq!(trace.steps[0].kind, StepKind::Goal);
    assert_eq!(trace.steps[1].kind, StepKind::Computation);
    assert_eq!(trace.steps[1].op.as_deref(), Some("+"));
    assert_eq!(trace.steps[2].kind, StepKind::Conclusion);
    for (i, s) in trace.steps.iter().enumerate() {
        assert_eq!(s.index, i);
    }
}

#[test]
fn arithmetic_violation_message_and_hint() {
    let trace = parse_trace("t6", "math", "goal: x\n4 * 5 = 25").unwrap();
    let result = verify(&trace).unwrap();
    assert_eq!(result.violations.len(), 1);
    assert_eq!(result.violations[0].step_index, Some(1));
    assert_eq!(result.correction_hint.as_deref(), Some("recompute or revise step 1"));
}

#[test]
fn malformed_trace_is_rejected() {
    let mut trace = ReasoningTrace::new("t7", "math");
    trace.steps.push(ReasoningStep {
        index: 3,
        kind: StepKind::Statement,
        text: "hello".to_string(),
        lhs: None,
        op: None,
        rhs: None,
        result: None,
    });
    match verify(&trace) {
        Err(AbyssError::MalformedTrace { reason }) => {
            assert_eq!(reason, "step index 3 but expected 0")
        }
        other => panic!("unexpected {:?}", other),
    }
    assert!(trace.validate().is_err());
}

#[test]
fn push_step_assigns_the_next_index() {
    let mut trace = ReasoningTrace::new("t9", "math");
    for text in ["first", "second"] {
        trace.push_step(ReasoningStep {
            index: 7,
            kind: StepKind::Statement,
            text: text.to_string(),
            lhs: None,
            op: None,
            rhs: None,
            result: None,
        });
    }
    assert_eq!(trace.steps[0].index, 0);
    assert_eq!(trace.steps[1].index, 1);
    assert_eq!(trace.steps[1].text, "second");
    assert!(trace.validate().is_ok());
}

#[test]
fn empty_trace_is_consistent() {
    let trace = ReasoningTrace::new("t8", "math");
    let result = verify(&trace).unwrap();
    assert_eq!(result.status, VerificationStatus::Consistent);
    assert!(result.correction_hint.is_none());
}

#[test]
fn classify_and_looks_arithmetic() {
    assert!(looks_arithmetic("12 * 3 = 36"));
    assert!(!looks_arithmetic("no digits here"));
    assert_eq!(classify("goal: solve"), StepKind::Goal);
    assert_eq!(classify("12 * 3 = 36"), StepKind::Computation);
    assert_eq!(classify("therefore x"), StepKind::Conclusion);
}

#[test]
fn checkers_append_violations() {
    let trace = TraceParser::new().parse("t9", "math", "2 + 2 = 5\nlet y = 1\nnow y = 2").unwrap();
    let mut out: Vec<Violation> = Vec::new();
    ArithmeticChecker::new().check(&trace, &mut out);
    assert_eq!(out.len(), 1);
    ContradictionDetector::new().check(&trace, &mut out);
    assert_eq!(out.len(), 2);
    assert_eq!(ConfidenceModel::status_for(&out), VerificationStatus::Inconsistent);
    assert_eq!(ConfidenceModel::status_for(&[]), VerificationStatus::Consistent);
    let s = ConfidenceModel::score(&trace, &out);
    assert!(s.0 <= 1_000_000);
}

#[test]
fn regeneration_threshold() {
    let r = VerificationResult::inconsistent(Millionths(500_000), Vec::new(), None);
    assert!(r.requires_regeneration(Millionths(400_000)));
    assert!(!r.requires_regeneration(Millionths(600_000)));
    let c = VerificationResult::consistent(Millionths(900_000));
    assert!(!c.requires_regeneration(Millionths(0)));
}

#[test]
fn confidence_formula_exact_values() {
    let ok = parse_trace("c1", "math", "goal: total\nwe have 3 items\n3 * 12 = 36\ntherefore total = 36").unwrap();
    assert_eq!(verify(&ok).unwrap().confidence, Millionths(820_000));
    let wrong = parse_trace("c2", "math", "goal: x\n4 * 5 = 25").unwrap();
    assert_eq!(verify(&wrong).unwrap().confidence, Millionths(400_000));
    let div = parse_trace("c3", "math", "5 / 0 = 0").unwrap();
    assert_eq!(verify(&div).unwrap().confidence, Millionths(150_000));
    let long: String = (0..12).map(|i| format!("step {i}\n")).collect();
    let t = parse_trace("c4", "math", &long).unwrap();
    assert_eq!(verify(&t).unwrap().confidence, Millionths(1_000_000));
}

#[test]
fn final_answer_disagreeing_with_last_claim_is_flagged() {
    let trace = parse_trace("t", "math", "total = 36\nanswer: 40").unwrap();
    let mut out: Vec<Violation> = vec![];
    ContradictionDetector::new().check(&trace, &mut out);
    assert_eq!(out.len(), 1);
    assert_eq!(out[0].kind, "contradiction");
    assert_eq!(out[0].step_index, Some(0));
    assert_eq!(out[0].message, "final answer 40 contradicts claim: total = 36");
}

#[test]
fn final_answer_agreeing_with_last_claim_is_not_flagged() {
    let trace = parse_trace("t", "math", "total = 36\nanswer: 36.0").unwrap();
    let mut out: Vec<Violation> = vec![];
    ContradictionDetector::new().check(&trace, &mut out);
    assert!(out.is_empty());
    let result = verify(&trace).unwrap();
    assert_eq!(result.status, VerificationStatus::Consistent);
}

#[test]
fn classify_treats_leading_so_word_as_conclusion() {
    assert_eq!(classify("so the total is 5"), StepKind::Conclusion);
    assert_eq!(classify("So, x is 3"), StepKind::Conclusion);
    assert_eq!(classify("some apples are red"), StepKind::Statement);
}
