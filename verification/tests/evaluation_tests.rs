use tpt_abyss::{
    canned_correct_trace, canned_wrong_trace, evaluate, evaluate_item, subset, summarize,
    Decimal, EvalItem, VerificationStatus,
};

fn item(id: &str, m: i64, s: u32) -> EvalItem {
    EvalItem {
        id: id.to_string(),
        task_type: "math".to_string(),
        prompt: String::new(),
        answer: Decimal::from_parts(m, s).unwrap(),
    }
}

#[test]
fn subset_has_five_items() {
    let s = subset();
    assert_eq!(s.len(), 5);
    assert_eq!(s[1].id, "gsm-02");
    assert_eq!(s[1].answer.mantissa(), 324);
    assert_eq!(s[1].answer.scale(), 1);
}

#[test]
fn canned_drafts() {
    let s = subset();
    assert_eq!(canned_correct_trace(&s[2]), "12 * 3 = 36\nanswer: 36");
    assert_eq!(canned_wrong_trace(&s[2]), "12 * 3 = 30\nanswer: 30");
    assert_eq!(canned_wrong_trace(&s[1]), "answer: 33.4");
    assert_eq!(canned_wrong_trace(&s[3]), "answer: 13");
    assert_eq!(canned_correct_trace(&item("other", 75, 1)), "answer: 7.5");
    assert_eq!(canned_wrong_trace(&item("other", -25, 1)), "answer: -1.5");
}

#[test]
fn evaluate_item_checks_answer_and_verdict() {
    let s = subset();
    let good = evaluate_item(&s[2], "12 * 3 = 36\nanswer: 36");
    assert_eq!(good.status, VerificationStatus::Consistent);
    assert!(good.answer_correct);
    assert_eq!(good.attempts, 1);
    assert_eq!(good.id, "math-01");
    let bad = evaluate_item(&s[2], "12 * 3 = 30\nanswer: 30");
    assert_eq!(bad.status, VerificationStatus::Inconsistent);
    assert!(!bad.answer_correct);
    let spaced = evaluate_item(&s[1], "answer:  32.40 ");
    assert!(spaced.answer_correct);
    let none = evaluate_item(&s[1], "no answer line");
    assert!(!none.answer_correct);
}

#[test]
fn dynamic_strategy_regenerates_inconsistent_drafts() {
    let dynamic = evaluate(true, "dynamic");
    assert_eq!(
        dynamic,
        "Evaluated 5 items\n  answer accuracy : 1/5 (20.0%)\n  consistent     : 5/5 (100.0%)\n  avg confidence : 0.30"
    );
    let fixed = evaluate(true, "static");
    assert_eq!(
        fixed,
        "Evaluated 5 items\n  answer accuracy : 0/5 (0.0%)\n  consistent     : 4/5 (80.0%)\n  avg confidence : 0.22"
    );
}

#[test]
fn summarize_empty() {
    assert_eq!(summarize(&Vec::new()), "No items evaluated.");
}
