//! Reasoning traces and verification verdicts: the payloads of the
//! draft -> verify -> accept-or-regenerate loop.
use vstd::prelude::*;

use crate::error::AbyssError;
use crate::number::Decimal;
use crate::text::{append_str, chars_to_string, nat_to_decimal, push_decimal, str_to_chars};

verus! {

/// A fixed-point value in millionths: `Millionths(n)` stands for
/// `n / 1_000_000`. Used for confidences and thresholds in `[0, 1]`.
#[derive(Debug, Clone, Copy, PartialEq, Eq, Structural, PartialOrd, Ord, Hash)]
pub struct Millionths(pub u32);

/// One million: the fixed-point unit of [`Millionths`].
pub open spec fn unit() -> int {
    1_000_000
}

/// The kind of a reasoning step parsed from a chain-of-thought trace.
#[derive(Debug, Clone, Copy, PartialEq, Eq, Structural)]
pub enum StepKind {
    /// A natural-language statement of intermediate reasoning.
    Statement,
    /// An arithmetic computation step, e.g. "12 * 3 = 36".
    Computation,
    /// A logical deduction / inference step.
    Deduction,
    /// A conclusion drawn from prior steps.
    Conclusion,
    /// A goal / problem restatement.
    Goal,
}

/// A single structured step of a reasoning trace.
#[derive(Debug, Clone, PartialEq)]
pub struct ReasoningStep {
    /// 0-based index within the trace.
    pub index: usize,
    pub kind: StepKind,
    /// The raw text of the step.
    pub text: String,
    /// For computation steps, the parsed left operand (if numeric).
    pub lhs: Option<Decimal>,
    /// For computation steps, the operator (`+`, `-`, `*`, `/`).
    pub op: Option<String>,
    /// For computation steps, the parsed right operand (if numeric).
    pub rhs: Option<Decimal>,
    /// For computation steps, the claimed result.
    pub result: Option<Decimal>,
}

/// A fully parsed chain-of-thought reasoning trace.
#[derive(Debug, Clone, PartialEq)]
pub struct ReasoningTrace {
    /// Identifier of the task/prompt that produced the trace.
    pub task_id: String,
    /// Free-form task type hint (e.g. "math", "logic", "code").
    pub task_type: String,
    pub steps: Vec<ReasoningStep>,
    /// The final answer text the model produced.
    pub final_answer: Option<String>,
}

/// Every step's `index` equals its position.
pub open spec fn indices_well_formed(steps: Seq<ReasoningStep>) -> bool {
    forall|i: int| 0 <= i < steps.len() ==> #[trigger] steps[i].index == i
}

/// The reason reported for a step whose index is `found` at position `pos`.
pub open spec fn index_reason(found: usize, pos: int) -> Seq<char> {
    "step index "@ + nat_to_decimal(found as nat) + " but expected "@ + nat_to_decimal(pos as nat)
}

impl ReasoningTrace {
    /// An empty trace for the given task.
    pub fn new(task_id: &str, task_type: &str) -> (t: ReasoningTrace)
        ensures
            t.task_id@ == task_id@,
            t.task_type@ == task_type@,
            t.steps@.len() == 0,
            t.final_answer is None,
    {
        ReasoningTrace {
            task_id: chars_to_string(&str_to_chars(task_id)),
            task_type: chars_to_string(&str_to_chars(task_type)),
            steps: Vec::new(),
            final_answer: None,
        }
    }

    /// Append a step, assigning it the next index (the number of steps
    /// before it); its other fields are kept.
    pub fn push_step(&mut self, step: ReasoningStep)
        ensures
            final(self).steps@ == old(self).steps@.push(
                ReasoningStep { index: old(self).steps@.len() as usize, ..step },
            ),
            final(self).task_id == old(self).task_id,
            final(self).task_type == old(self).task_type,
            final(self).final_answer == old(self).final_answer,
    {
        let mut step = step;
        step.index = self.steps.len();
        self.steps.push(step);
    }

    /// Check that every step's index equals its position; the first step
    /// that does not is reported as `MalformedTrace`.
    pub fn validate(&self) -> (r: Result<(), AbyssError>)
        ensures
            r is Ok <==> indices_well_formed(self.steps@),
            r matches Err(e) ==> e is MalformedTrace && exists|i: int|
                0 <= i < self.steps@.len() && self.steps@[i].index != i && (forall|j: int|
                    0 <= j < i ==> #[trigger] self.steps@[j].index == j)
                    && e->MalformedTrace_reason@ == index_reason(self.steps@[i].index, i),
    {
        let n = self.steps.len();
        for i in 0..n
            invariant
                n == self.steps@.len(),
                forall|j: int| 0 <= j < i ==> #[trigger] self.steps@[j].index == j,
        {
            if self.steps[i].index != i {
                let mut v: Vec<char> = Vec::new();
                append_str(&mut v, "step index ");
                push_decimal(&mut v, self.steps[i].index as u128);
                append_str(&mut v, " but expected ");
                push_decimal(&mut v, i as u128);
                return Err(AbyssError::MalformedTrace { reason: chars_to_string(&v) });
            }
        }
        Ok(())
    }
}

/// The status outcome of a verification pass.
#[derive(Debug, Clone, Copy, PartialEq, Eq, Structural)]
pub enum VerificationStatus {
    /// No contradiction or arithmetic error found.
    Consistent,
    /// At least one contradiction or arithmetic error found.
    Inconsistent,
    /// Not enough information to verify.
    Undetermined,
}

/// A single detected problem within a trace.
#[derive(Debug, Clone, PartialEq)]
pub struct Violation {
    /// Index of the offending step (if known).
    pub step_index: Option<usize>,
    pub kind: String,
    pub message: String,
}

/// The result of verifying a [`ReasoningTrace`].
#[derive(Debug, Clone, PartialEq)]
pub struct VerificationResult {
    pub status: VerificationStatus,
    /// Confidence in the verdict, in millionths (at most one million).
    pub confidence: Millionths,
    pub violations: Vec<Violation>,
    /// Suggested correction signal (e.g. "recompute or revise step 3").
    pub correction_hint: Option<String>,
}

impl VerificationResult {
    /// A consistent verdict with no violations.
    pub fn consistent(confidence: Millionths) -> (r: VerificationResult)
        ensures
            r.status == VerificationStatus::Consistent,
            r.confidence == confidence,
            r.violations@.len() == 0,
            r.correction_hint is None,
    {
        VerificationResult {
            status: VerificationStatus::Consistent,
            confidence,
            violations: Vec::new(),
            correction_hint: None,
        }
    }

    /// An inconsistent verdict.
    pub fn inconsistent(confidence: Millionths, violations: Vec<Violation>, hint: Option<String>) -> (r:
        VerificationResult)
        ensures
            r.status == VerificationStatus::Inconsistent,
            r.confidence == confidence,
            r.violations == violations,
            r.correction_hint == hint,
    {
        VerificationResult {
            status: VerificationStatus::Inconsistent,
            confidence,
            violations,
            correction_hint: hint,
        }
    }

    /// Whether the engine should regenerate given this result: the verdict
    /// is inconsistent with confidence at least `threshold`.
    pub fn requires_regeneration(&self, threshold: Millionths) -> (b: bool)
        ensures
            b == (self.status == VerificationStatus::Inconsistent && self.confidence.0
                >= threshold.0),
    {
        self.status == VerificationStatus::Inconsistent && self.confidence.0 >= threshold.0
    }
}

} // verus!
