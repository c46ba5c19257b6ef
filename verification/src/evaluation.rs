//! A small offline evaluation harness: a built-in MATH/GSM8K-style subset,
//! canned reasoning drafts, and the comparison of a verify-then-regenerate
//! strategy against accepting the first draft.
use vstd::prelude::*;

use crate::number::{
    decimal_text, equal_values, padded_digits, parse_number, parses_to, pow10, pow10_exec,
    push_decimal_text, push_scaled, render_scaled, same_value, Decimal,
};
use crate::parser::{parse_trace, parsed_trace};
use crate::reasoning::{Millionths, ReasoningTrace, VerificationResult, VerificationStatus};
use crate::text::{
    append_str, chars_to_string, equals_str, nat_to_decimal, push_decimal, str_to_chars, trim,
    trim_bounds,
};
use crate::verdict::{verdict_of, verify};

verus! {

/// A single evaluation item.
#[derive(Debug, Clone)]
pub struct EvalItem {
    pub id: String,
    pub task_type: String,
    /// The prompt text (dataset metadata; the harness does not read it).
    pub prompt: String,
    /// The reference answer.
    pub answer: Decimal,
}

/// The result of evaluating one item under a strategy.
#[derive(Debug, Clone)]
pub struct EvalOutcome {
    pub id: String,
    pub status: VerificationStatus,
    pub confidence: Millionths,
    /// Whether the claimed final answer equals the reference.
    pub answer_correct: bool,
    /// How many drafts were evaluated.
    pub attempts: usize,
    pub verdict: VerificationResult,
}

/// The claimed answer of a trace equals `answer`: the final answer, trimmed,
/// is a number with that value.
pub open spec fn answer_matches(final_answer: Option<String>, answer: Decimal) -> bool {
    match final_answer {
        None => false,
        Some(a) => exists|d: Decimal|
            parses_to(trim(a@), Some(d)) && #[trigger] same_value(d, answer),
    }
}

/// `o` is what evaluating `text` as a draft for `item` gives: the draft is
/// parsed, verified (a trace that fails validation counts as consistent with
/// confidence 0), and its final answer compared with the reference.
pub open spec fn evaluated(item: EvalItem, text: Seq<char>, o: EvalOutcome) -> bool {
    exists|t: ReasoningTrace|
        #[trigger] parsed_trace(t, item.id@, item.task_type@, text) && verdict_of(t, o.verdict)
            && o.answer_correct == answer_matches(t.final_answer, item.answer)
            && o.id@ == item.id@ && o.status == o.verdict.status && o.confidence
            == o.verdict.confidence && o.attempts == 1
}

/// The items of the built-in subset: id, task type, prompt, answer
/// `(mantissa, scale)`.
pub open spec fn subset_spec() -> Seq<(Seq<char>, Seq<char>, Seq<char>, int, nat)> {
    seq![
        ("gsm-01"@, "math"@, "If 3x + 5 = 20, what is x?"@, 5int, 0nat),
        ("gsm-02"@, "math"@, "A book costs $12. If you buy 3 books with a 10% discount, how much?"@, 324int, 1nat),
        ("math-01"@, "math"@, "What is 12 * 3?"@, 36int, 0nat),
        ("math-02"@, "math"@, "Compute 144 / 12."@, 12int, 0nat),
        ("math-03"@, "math"@, "What is 7 + 8 * 2?"@, 23int, 0nat),
    ]
}

/// `item` is the `i`-th item of the subset.
pub open spec fn is_subset_item(item: EvalItem, i: int) -> bool {
    let e = subset_spec()[i];
    &&& item.id@ == e.0
    &&& item.task_type@ == e.1
    &&& item.prompt@ == e.2
    &&& item.answer.m() == e.3
    &&& item.answer.s() == e.4
}

fn make_item(id: &str, task_type: &str, prompt: &str, mantissa: i64, scale: u32) -> (item: EvalItem)
    requires
        -1_000_000_000_000 < mantissa < 1_000_000_000_000,
        scale <= 6,
    ensures
        item.id@ == id@,
        item.task_type@ == task_type@,
        item.prompt@ == prompt@,
        item.answer.m() == mantissa,
        item.answer.s() == scale,
{
    let answer = Decimal::from_parts(mantissa, scale).unwrap();
    EvalItem {
        id: chars_to_string(&str_to_chars(id)),
        task_type: chars_to_string(&str_to_chars(task_type)),
        prompt: chars_to_string(&str_to_chars(prompt)),
        answer,
    }
}

/// The built-in offline subset (five MATH/GSM8K-style items).
pub fn subset() -> (v: Vec<EvalItem>)
    ensures
        v@.len() == 5,
        forall|i: int| 0 <= i < 5 ==> #[trigger] is_subset_item(v@[i], i),
{
    let mut v: Vec<EvalItem> = Vec::new();
    v.push(make_item("gsm-01", "math", "If 3x + 5 = 20, what is x?", 5, 0));
    v.push(
        make_item(
            "gsm-02",
            "math",
            "A book costs $12. If you buy 3 books with a 10% discount, how much?",
            324,
            1,
        ),
    );
    v.push(make_item("math-01", "math", "What is 12 * 3?", 36, 0));
    v.push(make_item("math-02", "math", "Compute 144 / 12.", 12, 0));
    v.push(make_item("math-03", "math", "What is 7 + 8 * 2?", 23, 0));
    v
}

/// The text of the reference answer plus one.
pub open spec fn plus_one_text(d: Decimal) -> Seq<char> {
    let v = d.m() + pow10(d.s());
    render_scaled(v < 0, (if v < 0 {
        -v
    } else {
        v
    }) as nat, d.s())
}

/// The canned correct draft for an item.
pub open spec fn correct_draft(id: Seq<char>, answer: Decimal) -> Seq<char> {
    if id == "gsm-01"@ {
        "3x + 5 = 20\n3x = 15\nx = 5\nanswer: 5"@
    } else if id == "gsm-02"@ {
        "3 * 12 = 36\n36 * 0.9 = 32.4\nanswer: 32.4"@
    } else if id == "math-01"@ {
        "12 * 3 = 36\nanswer: 36"@
    } else if id == "math-02"@ {
        "144 / 12 = 12\nanswer: 12"@
    } else if id == "math-03"@ {
        "8 * 2 = 16\n7 + 16 = 23\nanswer: 23"@
    } else {
        "answer: "@ + decimal_text(answer)
    }
}

/// The canned wrong draft for an item.
pub open spec fn wrong_draft(id: Seq<char>, answer: Decimal) -> Seq<char> {
    if id == "gsm-01"@ {
        "3x + 5 = 20\n3x = 20\nx = 6.66\nanswer: 6.66"@
    } else if id == "math-01"@ {
        "12 * 3 = 30\nanswer: 30"@
    } else {
        "answer: "@ + plus_one_text(answer)
    }
}

/// A canned, correct reasoning draft for an item (used when no model is
/// loaded, to demonstrate the verify path end to end).
pub fn canned_correct_trace(item: &EvalItem) -> (s: String)
    ensures
        s@ == correct_draft(item.id@, item.answer),
{
    let id = str_to_chars(item.id.as_str());
    let text: Vec<char> = if equals_str(&id, "gsm-01") {
        str_to_chars("3x + 5 = 20\n3x = 15\nx = 5\nanswer: 5")
    } else if equals_str(&id, "gsm-02") {
        str_to_chars("3 * 12 = 36\n36 * 0.9 = 32.4\nanswer: 32.4")
    } else if equals_str(&id, "math-01") {
        str_to_chars("12 * 3 = 36\nanswer: 36")
    } else if equals_str(&id, "math-02") {
        str_to_chars("144 / 12 = 12\nanswer: 12")
    } else if equals_str(&id, "math-03") {
        str_to_chars("8 * 2 = 16\n7 + 16 = 23\nanswer: 23")
    } else {
        let mut v = str_to_chars("answer: ");
        push_decimal_text(&mut v, &item.answer);
        v
    };
    chars_to_string(&text)
}

/// A canned, wrong reasoning draft for an item (used to demonstrate the
/// regenerate-on-inconsistency path).
pub fn canned_wrong_trace(item: &EvalItem) -> (s: String)
    ensures
        s@ == wrong_draft(item.id@, item.answer),
{
    let id = str_to_chars(item.id.as_str());
    let text: Vec<char> = if equals_str(&id, "gsm-01") {
        str_to_chars("3x + 5 = 20\n3x = 20\nx = 6.66\nanswer: 6.66")
    } else if equals_str(&id, "math-01") {
        str_to_chars("12 * 3 = 30\nanswer: 30")
    } else {
        let mut v = str_to_chars("answer: ");
        let m = item.answer.mantissa() as i128;
        let sc = item.answer.scale();
        let p = pow10_exec(sc) as i128;
        let x = m + p;
        let mag: u128 = if x < 0 {
            (-x) as u128
        } else {
            x as u128
        };
        push_scaled(&mut v, x < 0, mag, sc);
        v
    };
    chars_to_string(&text)
}

/// Whether the final answer of `trace`, trimmed, is a number equal to
/// `answer`.
fn claimed_matches(final_answer: &Option<String>, answer: &Decimal) -> (b: bool)
    ensures
        b == answer_matches(*final_answer, *answer),
{
    match final_answer {
        None => false,
        Some(a) => {
            let cs = str_to_chars(a.as_str());
            let (lo, hi) = trim_bounds(&cs, 0, cs.len());
            assert(cs@.subrange(0, cs@.len() as int) == cs@);
            match parse_number(&cs, lo, hi) {
                None => {
                    assert forall|d: Decimal| !(parses_to(trim(a@), Some(d)) && #[trigger] same_value(
                        d,
                        *answer,
                    )) by {}
                    false
                },
                Some(v) => {
                    let b = equal_values(&v, answer);
                    proof {
                        if b {
                            assert(parses_to(trim(a@), Some(v)) && same_value(v, *answer));
                        } else {
                            assert forall|d: Decimal|
                                !(parses_to(trim(a@), Some(d)) && #[trigger] same_value(
                                    d,
                                    *answer,
                                )) by {
                                if parses_to(trim(a@), Some(d)) && same_value(d, *answer) {
                                    assert(d.m() == v.m() && d.s() == v.s());
                                }
                            }
                        }
                    }
                    b
                },
            }
        },
    }
}

/// Run a draft through the verifier and compare its claimed final answer
/// (the `answer:` line) with the reference.
pub fn evaluate_item(item: &EvalItem, candidate_text: &str) -> (o: EvalOutcome)
    ensures
        evaluated(*item, candidate_text@, o),
{
    let trace = match parse_trace(item.id.as_str(), item.task_type.as_str(), candidate_text) {
        Ok(t) => t,
        Err(_) => ReasoningTrace::new(item.id.as_str(), item.task_type.as_str()),
    };
    proof {
        crate::parser::lemma_parsed_indices(trace, item.id@, item.task_type@, candidate_text@);
    }
    let verdict = match verify(&trace) {
        Ok(v) => v,
        Err(_) => VerificationResult::consistent(Millionths(0)),
    };
    let answer_correct = claimed_matches(&trace.final_answer, &item.answer);
    let o = EvalOutcome {
        id: item.id.clone(),
        status: verdict.status,
        confidence: verdict.confidence,
        answer_correct,
        attempts: 1,
        verdict,
    };
    o
}

/// The number of outcomes whose answer is correct.
pub open spec fn correct_count(os: Seq<EvalOutcome>) -> nat
    decreases os.len(),
{
    if os.len() == 0 {
        0
    } else {
        correct_count(os.drop_last()) + if os.last().answer_correct {
            1nat
        } else {
            0nat
        }
    }
}

/// The number of consistent outcomes.
pub open spec fn consistent_count(os: Seq<EvalOutcome>) -> nat
    decreases os.len(),
{
    if os.len() == 0 {
        0
    } else {
        consistent_count(os.drop_last()) + if os.last().status == VerificationStatus::Consistent {
            1nat
        } else {
            0nat
        }
    }
}

/// The sum of the outcomes' confidences, in millionths.
pub open spec fn confidence_sum(os: Seq<EvalOutcome>) -> nat
    decreases os.len(),
{
    if os.len() == 0 {
        0
    } else {
        confidence_sum(os.drop_last()) + os.last().confidence.0 as nat
    }
}

/// `num / den` rounded to the nearest integer, ties to even.
pub open spec fn round_half_even(num: nat, den: nat) -> nat {
    let q = num / den;
    let r = num % den;
    if 2 * r > den || (2 * r == den && q % 2 == 1) {
        q + 1
    } else {
        q
    }
}

/// `v / 10^places` with exactly `places` digits after the point.
pub open spec fn fixed_text(v: nat, places: nat) -> Seq<char> {
    nat_to_decimal(v / pow10(places)) + "."@ + padded_digits(v % pow10(places), places)
}

/// `count/n (p%)` with the percentage to one decimal place.
pub open spec fn ratio_text(count: nat, n: nat) -> Seq<char> {
    nat_to_decimal(count) + "/"@ + nat_to_decimal(n) + " ("@ + fixed_text(
        round_half_even(1000 * count, n),
        1,
    ) + "%)"@
}

/// The report on a set of outcomes.
pub open spec fn summary_text(os: Seq<EvalOutcome>) -> Seq<char> {
    let n = os.len();
    if n == 0 {
        "No items evaluated."@
    } else {
        "Evaluated "@ + nat_to_decimal(n) + " items\n  answer accuracy : "@ + ratio_text(
            correct_count(os),
            n,
        ) + "\n  consistent     : "@ + ratio_text(consistent_count(os), n)
            + "\n  avg confidence : "@ + fixed_text(
            round_half_even(confidence_sum(os), n * 10_000),
            2,
        )
    }
}

fn round_half_even_exec(num: u128, den: u128) -> (r: u128)
    requires
        den > 0,
        den < 0x1_0000_0000_0000_0000_0000_0000,
        num < 0x1_0000_0000_0000_0000_0000_0000,
    ensures
        r == round_half_even(num as nat, den as nat),
{
    let q = num / den;
    let rem = num % den;
    assert(q <= num) by (nonlinear_arith)
        requires
            q == num / den,
            den > 0,
    ;
    if 2 * rem > den || (2 * rem == den && q % 2 == 1) {
        q + 1
    } else {
        q
    }
}

fn push_fixed(dst: &mut Vec<char>, v: u128, places: u32)
    requires
        places <= 12,
    ensures
        final(dst)@ == old(dst)@ + fixed_text(v as nat, places as nat),
{
    let p = pow10_exec(places) as u128;
    proof {
        crate::number::lemma_pow10_ge(places as nat);
    }
    push_decimal(dst, v / p);
    append_str(dst, ".");
    crate::number::push_padded(dst, v % p, places);
}

fn push_ratio(dst: &mut Vec<char>, count: usize, n: usize)
    requires
        n > 0,
        count <= n,
    ensures
        final(dst)@ == old(dst)@ + ratio_text(count as nat, n as nat),
{
    let ghost start = dst@;
    push_decimal(dst, count as u128);
    append_str(dst, "/");
    push_decimal(dst, n as u128);
    append_str(dst, " (");
    let r = round_half_even_exec(1000 * count as u128, n as u128);
    push_fixed(dst, r, 1);
    append_str(dst, "%)");
    assert(dst@ == start + ratio_text(count as nat, n as nat));
}

/// Aggregate outcomes into an accuracy / consistency report.
pub fn summarize(outcomes: &Vec<EvalOutcome>) -> (s: String)
    ensures
        s@ == summary_text(outcomes@),
{
    let n = outcomes.len();
    if n == 0 {
        return chars_to_string(&str_to_chars("No items evaluated."));
    }
    let mut correct: usize = 0;
    let mut consistent: usize = 0;
    let mut conf: u128 = 0;
    for i in 0..n
        invariant
            n == outcomes@.len(),
            correct == correct_count(outcomes@.take(i as int)),
            consistent == consistent_count(outcomes@.take(i as int)),
            conf == confidence_sum(outcomes@.take(i as int)),
            correct <= i,
            consistent <= i,
            conf <= i * 0xffff_ffff,
    {
        assert(outcomes@.take(i + 1).drop_last() == outcomes@.take(i as int));
        let o = &outcomes[i];
        if o.answer_correct {
            correct = correct + 1;
        }
        if o.status == VerificationStatus::Consistent {
            consistent = consistent + 1;
        }
        conf = conf + o.confidence.0 as u128;
    }
    assert(outcomes@.take(n as int) == outcomes@);
    let mut v = str_to_chars("Evaluated ");
    let ghost start = v@;
    push_decimal(&mut v, n as u128);
    append_str(&mut v, " items\n  answer accuracy : ");
    push_ratio(&mut v, correct, n);
    append_str(&mut v, "\n  consistent     : ");
    push_ratio(&mut v, consistent, n);
    append_str(&mut v, "\n  avg confidence : ");
    let avg = round_half_even_exec(conf, n as u128 * 10_000);
    push_fixed(&mut v, avg, 2);
    assert(v@ == summary_text(outcomes@));
    chars_to_string(&v)
}

/// The outcome of one subset item under a strategy: the wrong draft is
/// evaluated first; under `dynamic` an inconsistent first draft is replaced
/// by the evaluation of the correct draft, counted as two attempts.
pub open spec fn strategy_outcome(item: EvalItem, strategy: Seq<char>, first: EvalOutcome, o: EvalOutcome) -> bool {
    &&& evaluated(item, wrong_draft(item.id@, item.answer), first)
    &&& if strategy == "dynamic"@ && first.status == VerificationStatus::Inconsistent {
        exists|c: EvalOutcome|
            #[trigger] evaluated(item, correct_draft(item.id@, item.answer), c) && o == (EvalOutcome {
                attempts: 2,
                ..c
            })
    } else {
        o == first
    }
}

/// Evaluate the built-in subset, comparing strategies: `dynamic` runs the
/// verify-then-regenerate loop (an inconsistent draft is replaced by a
/// consistent one), any other strategy keeps the first draft. The drafts
/// are canned, so `offline` changes nothing.
pub fn evaluate(offline: bool, strategy: &str) -> (s: String)
    ensures
        exists|items: Seq<EvalItem>, firsts: Seq<EvalOutcome>, outs: Seq<EvalOutcome>|
            items.len() == 5 && firsts.len() == 5 && outs.len() == 5 && (forall|i: int|
                0 <= i < 5 ==> #[trigger] is_subset_item(items[i], i) && strategy_outcome(
                    items[i],
                    strategy@,
                    firsts[i],
                    outs[i],
                )) && s@ == summary_text(outs),
{
    let items = subset();
    let dynamic = equals_str(&str_to_chars(strategy), "dynamic");
    let mut firsts: Ghost<Seq<EvalOutcome>> = Ghost(Seq::empty());
    let mut outcomes: Vec<EvalOutcome> = Vec::new();
    for i in 0..5usize
        invariant
            items@.len() == 5,
            forall|k: int| 0 <= k < 5 ==> #[trigger] is_subset_item(items@[k], k),
            dynamic == (strategy@ == "dynamic"@),
            outcomes@.len() == i,
            firsts@.len() == i,
            forall|k: int|
                0 <= k < i ==> #[trigger] strategy_outcome(
                    items@[k],
                    strategy@,
                    firsts@[k],
                    outcomes@[k],
                ),
    {
        let item = &items[i];
        let first_draft = canned_wrong_trace(item);
        let first = evaluate_item(item, first_draft.as_str());
        let ghost g_first = first;
        let mut outcome = first;
        if dynamic && outcome.status == VerificationStatus::Inconsistent {
            let c = evaluate_item(item, canned_correct_trace(item).as_str());
            let ghost g_c = c;
            outcome = c;
            outcome.attempts = 2;
            assert(outcome == (EvalOutcome { attempts: 2, ..g_c }));
        }
        proof {
            firsts@ = firsts@.push(g_first);
        }
        outcomes.push(outcome);
        assert(strategy_outcome(items@[i as int], strategy@, firsts@[i as int], outcomes@[i as int]));
    }
    let _ = offline;
    summarize(&outcomes)
}

} // verus!
