//! The verification entry point: parse results in, verdict out.
use vstd::prelude::*;

use crate::arithmetic::{arithmetic_violations, violations_are, ArithmeticChecker, ViolationSpec};
use crate::error::{AbyssError, AbyssResult};
use crate::logic::{trace_contradictions, ContradictionDetector};
use crate::reasoning::{
    index_reason, indices_well_formed, ReasoningTrace, VerificationResult, VerificationStatus,
    Violation,
};
use crate::score::{computable_count, score_spec, severe_kind, ConfidenceModel};
use crate::text::{append_str, chars_to_string, nat_to_decimal, push_decimal};

verus! {

/// All violations of a trace: arithmetic ones first, then contradictions
/// (between claims, then of the final answer with the last claim).
pub open spec fn trace_violations(t: ReasoningTrace) -> Seq<ViolationSpec> {
    arithmetic_violations(t.steps@) + trace_contradictions(Map::empty(), t)
}

/// The number of severe entries (division by zero, contradiction).
pub open spec fn severe_specs(es: Seq<ViolationSpec>) -> nat
    decreases es.len(),
{
    if es.len() == 0 {
        0
    } else {
        severe_specs(es.drop_last()) + if severe_kind(es.last().1) {
            1nat
        } else {
            0nat
        }
    }
}

/// The correction hint text for step `i`.
pub open spec fn hint_text(i: usize) -> Seq<char> {
    "recompute or revise step "@ + nat_to_decimal(i as nat)
}

/// `r` is the verdict for a well-formed trace `t`.
pub open spec fn verdict_of(t: ReasoningTrace, r: VerificationResult) -> bool {
    let es = trace_violations(t);
    &&& violations_are(r.violations@, es)
    &&& r.status == (if es.len() == 0 {
        VerificationStatus::Consistent
    } else {
        VerificationStatus::Inconsistent
    })
    &&& r.confidence.0 == score_spec(
        t.steps@.len(),
        computable_count(t.steps@),
        es.len(),
        severe_specs(es),
    )
    &&& if es.len() == 0 {
        r.correction_hint is None
    } else {
        r.correction_hint matches Some(h) && h@ == hint_text(es[0].0)
    }
}

proof fn lemma_severe_agree(vs: Seq<Violation>, es: Seq<ViolationSpec>)
    requires
        violations_are(vs, es),
    ensures
        crate::score::severe_count(vs) == severe_specs(es),
    decreases vs.len(),
{
    if vs.len() > 0 {
        let vd = vs.drop_last();
        let ed = es.drop_last();
        assert forall|i: int| 0 <= i < vd.len() implies #[trigger] crate::arithmetic::violation_is(vd[i], ed[i]) by {
            assert(crate::arithmetic::violation_is(vs[i], es[i]));
        }
        lemma_severe_agree(vd, ed);
        assert(crate::arithmetic::violation_is(vs[vs.len() - 1], es[es.len() - 1]));
    }
}

/// Verify a reasoning trace and produce a verdict.
///
/// A trace whose step indices are not `0, 1, 2, ...` is rejected as
/// `MalformedTrace`. Otherwise the arithmetic of computation steps is
/// checked, then numeric claims are checked for contradictions; the trace is
/// consistent exactly when nothing was found.
pub fn verify(trace: &ReasoningTrace) -> (r: AbyssResult<VerificationResult>)
    ensures
        r is Ok <==> indices_well_formed(trace.steps@),
        r matches Ok(v) ==> verdict_of(*trace, v),
        r matches Err(e) ==> e is MalformedTrace && exists|i: int|
            0 <= i < trace.steps@.len() && trace.steps@[i].index != i && (forall|j: int|
                0 <= j < i ==> #[trigger] trace.steps@[j].index == j)
                && e->MalformedTrace_reason@ == index_reason(trace.steps@[i].index, i),
{
    match trace.validate() {
        Ok(()) => {},
        Err(e) => {
            return Err(e);
        },
    }
    let mut violations: Vec<Violation> = Vec::new();
    let arith = ArithmeticChecker::new();
    arith.check(trace, &mut violations);
    let ghost after_arith = violations@;
    let mut logic = ContradictionDetector::new();
    logic.check(trace, &mut violations);
    proof {
        let es = trace_violations(*trace);
        let a = arithmetic_violations(trace.steps@);
        assert(after_arith.skip(0) == after_arith);
        let d = trace_contradictions(Map::empty(), *trace);
        let vs = violations@;
        assert(after_arith.len() == a.len());
        assert(vs.take(a.len() as int) == after_arith);
        assert(vs.skip(a.len() as int).len() == d.len());
        assert(vs.len() == es.len());
        assert forall|i: int| 0 <= i < vs.len() implies #[trigger] crate::arithmetic::violation_is(vs[i], es[i]) by {
            if i < a.len() {
                assert(vs.take(a.len() as int)[i] == vs[i]);
                assert(es[i] == a[i]);
                assert(crate::arithmetic::violation_is(after_arith[i], a[i]));
            } else {
                assert(vs.skip(a.len() as int)[i - a.len()] == vs[i]);
                assert(es[i] == d[i - a.len()]);
                assert(crate::arithmetic::violation_is(vs.skip(a.len() as int)[i - a.len()], d[i - a.len()]));
            }
        }
        lemma_severe_agree(vs, es);
    }
    let confidence = ConfidenceModel::score(trace, violations.as_slice());
    let status = ConfidenceModel::status_for(violations.as_slice());
    let hint = if violations.len() > 0 {
        match violations[0].step_index {
            Some(i) => {
                let mut v: Vec<char> = Vec::new();
                append_str(&mut v, "recompute or revise step ");
                push_decimal(&mut v, i as u128);
                Some(chars_to_string(&v))
            },
            None => None,
        }
    } else {
        None
    };
    proof {
        if violations@.len() > 0 {
            assert(crate::arithmetic::violation_is(violations@[0], trace_violations(*trace)[0]));
        }
    }
    Ok(VerificationResult { status, confidence, violations, correction_hint: hint })
}

} // verus!
