//! Checking the arithmetic of computation steps.
use vstd::prelude::*;

use crate::number::{
    decimal_text, equal_values, expected_text, mismatch, mismatches, push_decimal_text,
    push_expected_text, Decimal,
};
use crate::reasoning::{ReasoningStep, ReasoningTrace, StepKind, Violation};
use crate::text::{append_chars, append_str, chars_to_string, nat_to_decimal, push_decimal, str_to_chars};

verus! {

/// A violation's step index, kind and message, as plain values.
pub type ViolationSpec = (usize, Seq<char>, Seq<char>);

/// `v` carries exactly `e`.
pub open spec fn violation_is(v: Violation, e: ViolationSpec) -> bool {
    &&& v.step_index == Some(e.0)
    &&& v.kind@ == e.1
    &&& v.message@ == e.2
}

/// `vs` carries exactly the entries of `es`, in order.
pub open spec fn violations_are(vs: Seq<Violation>, es: Seq<ViolationSpec>) -> bool {
    &&& vs.len() == es.len()
    &&& forall|i: int| 0 <= i < vs.len() ==> #[trigger] violation_is(vs[i], es[i])
}

/// The message for a division by zero in step `i`.
pub open spec fn division_by_zero_message(i: usize) -> Seq<char> {
    "division by zero in step "@ + nat_to_decimal(i as nat)
}

/// The message for a wrong result in step `i`.
pub open spec fn arithmetic_message(i: usize, a: Decimal, op: Seq<char>, b: Decimal, expected: Seq<char>, r: Decimal) -> Seq<char> {
    "step "@ + nat_to_decimal(i as nat) + ": "@ + decimal_text(a) + " "@ + op + " "@ + decimal_text(b)
        + " = "@ + expected + " but claimed "@ + decimal_text(r)
}

/// The violation (kind, message) found in one step, if any: a step with
/// both operands, a result and one of the operators `+ - * /` is flagged
/// when the divisor is zero (`division_by_zero`) or when the exact result
/// differs from the claimed one by more than `10^-6` (`arithmetic_error`).
pub open spec fn step_violation(st: ReasoningStep) -> Option<(Seq<char>, Seq<char>)> {
    match (st.lhs, st.rhs, st.result, st.op) {
        (Some(a), Some(b), Some(r), Some(o)) => {
            let os = o@;
            if os.len() == 1 && (os[0] == '+' || os[0] == '-' || os[0] == '*' || os[0] == '/') {
                let c = os[0];
                if c == '/' && b.m() == 0 {
                    Some(("division_by_zero"@, division_by_zero_message(st.index)))
                } else if mismatch(c, a, b, r) {
                    Some(
                        (
                            "arithmetic_error"@,
                            arithmetic_message(st.index, a, os, b, expected_text(c, a, b), r),
                        ),
                    )
                } else {
                    None
                }
            } else {
                None
            }
        },
        _ => None,
    }
}

/// The arithmetic violations of a sequence of steps, in step order (only
/// computation steps are checked).
pub open spec fn arithmetic_violations(steps: Seq<ReasoningStep>) -> Seq<ViolationSpec>
    decreases steps.len(),
{
    if steps.len() == 0 {
        Seq::empty()
    } else {
        let prev = arithmetic_violations(steps.drop_last());
        let st = steps.last();
        if st.kind == StepKind::Computation && step_violation(st) is Some {
            let v = step_violation(st)->0;
            prev.push((st.index, v.0, v.1))
        } else {
            prev
        }
    }
}

/// Checks arithmetic computation steps for correctness.
pub struct ArithmeticChecker;

impl Default for ArithmeticChecker {
    fn default() -> (c: ArithmeticChecker)
        ensures
            c == ArithmeticChecker,
    {
        ArithmeticChecker
    }
}

impl ArithmeticChecker {
    pub fn new() -> (c: ArithmeticChecker)
        ensures
            c == ArithmeticChecker,
    {
        ArithmeticChecker
    }

    /// Append the arithmetic violations of `trace` to `out`.
    pub fn check(&self, trace: &ReasoningTrace, out: &mut Vec<Violation>)
        ensures
            final(out)@.len() >= old(out)@.len(),
            final(out)@.take(old(out)@.len() as int) == old(out)@,
            violations_are(final(out)@.skip(old(out)@.len() as int), arithmetic_violations(trace.steps@)),
    {
        let n = trace.steps.len();
        let ghost start = out@;
        for i in 0..n
            invariant
                n == trace.steps@.len(),
                out@.take(start.len() as int) == start,
                out@.len() >= start.len(),
                violations_are(out@.skip(start.len() as int), arithmetic_violations(trace.steps@.take(i as int))),
        {
            let step = &trace.steps[i];
            assert(trace.steps@.take(i + 1).drop_last() == trace.steps@.take(i as int));
            assert(trace.steps@.take(i + 1).last() == *step);
            if step.kind == StepKind::Computation {
                match self.check_step(step) {
                    Some(v) => {
                        let ghost before = out@;
                        out.push(v);
                        assert(out@.skip(start.len() as int) == before.skip(start.len() as int).push(v));
                        assert(out@.take(start.len() as int) == before.take(start.len() as int));
                    },
                    None => {},
                }
            }
        }
        assert(trace.steps@.take(n as int) == trace.steps@);
    }

    /// The violation found in one step, if any (see [`step_violation`]).
    fn check_step(&self, step: &ReasoningStep) -> (r: Option<Violation>)
        ensures
            r is Some <==> step_violation(*step) is Some,
            r matches Some(v) ==> violation_is(v, (step.index, (step_violation(*step)->0).0, (step_violation(*step)->0).1)),
    {
        let (a, b, r) = match (&step.lhs, &step.rhs, &step.result) {
            (Some(a), Some(b), Some(r)) => (a, b, r),
            _ => {
                return None;
            },
        };
        let o = match &step.op {
            Some(o) => o,
            None => {
                return None;
            },
        };
        let ov = str_to_chars(o.as_str());
        if ov.len() != 1 {
            return None;
        }
        let c = ov[0];
        if !(c == '+' || c == '-' || c == '*' || c == '/') {
            return None;
        }
        if c == '/' && b.mantissa() == 0 {
            let mut m: Vec<char> = Vec::new();
            append_str(&mut m, "division by zero in step ");
            push_decimal(&mut m, step.index as u128);
            return Some(
                Violation {
                    step_index: Some(step.index),
                    kind: chars_to_string(&str_to_chars("division_by_zero")),
                    message: chars_to_string(&m),
                },
            );
        }
        if mismatches(c, a, b, r) {
            let mut m: Vec<char> = Vec::new();
            append_str(&mut m, "step ");
            push_decimal(&mut m, step.index as u128);
            append_str(&mut m, ": ");
            push_decimal_text(&mut m, a);
            append_str(&mut m, " ");
            append_chars(&mut m, &ov);
            append_str(&mut m, " ");
            push_decimal_text(&mut m, b);
            append_str(&mut m, " = ");
            push_expected_text(&mut m, c, a, b);
            append_str(&mut m, " but claimed ");
            push_decimal_text(&mut m, r);
            return Some(
                Violation {
                    step_index: Some(step.index),
                    kind: chars_to_string(&str_to_chars("arithmetic_error")),
                    message: chars_to_string(&m),
                },
            );
        }
        None
    }
}

} // verus!
