//! Confidence scoring of a verification verdict.
use vstd::prelude::*;

use crate::reasoning::{Millionths, ReasoningStep, ReasoningTrace, StepKind, VerificationStatus, Violation};
use crate::text::{equals_str, str_to_chars};

verus! {

/// The number of computation steps in `steps`.
pub open spec fn computable_count(steps: Seq<ReasoningStep>) -> nat
    decreases steps.len(),
{
    if steps.len() == 0 {
        0
    } else {
        computable_count(steps.drop_last()) + if steps.last().kind == StepKind::Computation {
            1nat
        } else {
            0nat
        }
    }
}

/// A violation kind that counts as severe.
pub open spec fn severe_kind(kind: Seq<char>) -> bool {
    kind == "division_by_zero"@ || kind == "contradiction"@
}

/// The number of severe violations (division by zero, contradiction).
pub open spec fn severe_count(vs: Seq<Violation>) -> nat
    decreases vs.len(),
{
    if vs.len() == 0 {
        0
    } else {
        severe_count(vs.drop_last()) + if severe_kind(vs.last().kind@) {
            1nat
        } else {
            0nat
        }
    }
}

/// The confidence, in millionths, for a trace of `t` steps of which `c` are
/// computations, with `v` violations of which `sev` are severe.
///
/// With no steps it is 0. With no violations it is `0.7 + 0.3 * min(t/10, 1)`.
/// Otherwise it is `base * (1 - sev / (2v))` clamped to `[0, 1]`, where
/// `base = 0.5 * (1 - v/t) + 0.3 * c/t`; the millionths are taken by first
/// rounding `base / 2` down to millionths, then scaling by `(2v - sev) / v`
/// rounding down.
pub open spec fn score_spec(t: nat, c: nat, v: nat, sev: nat) -> nat {
    if t == 0 {
        0
    } else if v == 0 {
        700_000 + 30_000 * (if t < 10 {
            t
        } else {
            10
        })
    } else {
        let x = 5 * (t - v) + 3 * c;
        if x <= 0 {
            0
        } else {
            let base = (1_000_000 * x) / ((20 * t) as int);
            let val = (base * (2 * v - sev)) / (v as int);
            if val > 1_000_000 {
                1_000_000
            } else {
                val as nat
            }
        }
    }
}

/// Contradictions and divisions by zero are severe, arithmetic errors are
/// not: adding a violation raises the severe count by one exactly for the
/// first two kinds.
pub proof fn lemma_severe_violations(vs: Seq<Violation>, v: Violation)
    ensures
        v.kind@ == "contradiction"@ ==> severe_count(vs.push(v)) == severe_count(vs) + 1,
        v.kind@ == "division_by_zero"@ ==> severe_count(vs.push(v)) == severe_count(vs) + 1,
        v.kind@ == "arithmetic_error"@ ==> severe_count(vs.push(v)) == severe_count(vs),
{
    assert(vs.push(v).drop_last() == vs);
    reveal_strlit("arithmetic_error");
    reveal_strlit("contradiction");
    reveal_strlit("division_by_zero");
    assert("arithmetic_error"@.len() != "contradiction"@.len());
    assert("arithmetic_error"@[0] != "division_by_zero"@[0]);
}

/// A list of contradictions is all severe, so its confidence is
/// `base * (2v - v) / v`: the halved base, with nothing added back.
pub proof fn lemma_contradictions_all_severe(vs: Seq<Violation>)
    requires
        forall|i: int| 0 <= i < vs.len() ==> (#[trigger] vs[i]).kind@ == "contradiction"@,
    ensures
        severe_count(vs) == vs.len(),
        forall|t: nat, c: nat|
            vs.len() > 0 && 0 < t && c <= t && 5 * (t - vs.len()) + 3 * c > 0 ==> #[trigger] score_spec(
                t,
                c,
                vs.len(),
                severe_count(vs),
            ) == (1_000_000 * (5 * (t - vs.len()) + 3 * c)) / ((20 * t) as int),
    decreases vs.len(),
{
    if vs.len() > 0 {
        let d = vs.drop_last();
        assert forall|i: int| 0 <= i < d.len() implies (#[trigger] d[i]).kind@ == "contradiction"@ by {
            assert(d[i] == vs[i]);
        }
        lemma_contradictions_all_severe(d);
        lemma_severe_violations(d, vs.last());
        assert(d.push(vs.last()) == vs);
    }
    assert forall|t: nat, c: nat|
        vs.len() > 0 && 0 < t && c <= t && 5 * (t - vs.len()) + 3 * c > 0 implies #[trigger] score_spec(
            t,
            c,
            vs.len(),
            severe_count(vs),
        ) == (1_000_000 * (5 * (t - vs.len()) + 3 * c)) / ((20 * t) as int) by {
        let v = vs.len();
        let x = 5 * (t - v) + 3 * c;
        let base = (1_000_000 * x) / ((20 * t) as int);
        assert(base * (2 * v - v) / (v as int) == base) by (nonlinear_arith)
            requires
                v > 0,
        ;
        assert(base <= 1_000_000) by (nonlinear_arith)
            requires
                base == (1_000_000 * x) / ((20 * t) as int),
                x <= 5 * t + 3 * c,
                c <= t,
                t > 0,
        ;
    }
}

/// Produces a confidence score in `[0, 1]` for a verification verdict.
pub struct ConfidenceModel;

impl ConfidenceModel {
    /// The confidence for `trace` given the violations found in it (see
    /// [`score_spec`]).
    pub fn score(trace: &ReasoningTrace, violations: &[Violation]) -> (s: Millionths)
        ensures
            s.0 == score_spec(
                trace.steps@.len(),
                computable_count(trace.steps@),
                violations@.len(),
                severe_count(violations@),
            ),
            s.0 <= 1_000_000,
    {
        let t = trace.steps.len();
        if t == 0 {
            return Millionths(0);
        }
        let mut c: usize = 0;
        for i in 0..t
            invariant
                t == trace.steps@.len(),
                c == computable_count(trace.steps@.take(i as int)),
                c <= i,
        {
            assert(trace.steps@.take(i + 1).drop_last() == trace.steps@.take(i as int));
            if trace.steps[i].kind == StepKind::Computation {
                c = c + 1;
            }
        }
        assert(trace.steps@.take(t as int) == trace.steps@);
        let v = violations.len();
        if v == 0 {
            let m: u32 = if t < 10 {
                t as u32
            } else {
                10
            };
            return Millionths(700_000 + 30_000 * m);
        }
        let mut sev: usize = 0;
        for i in 0..v
            invariant
                v == violations@.len(),
                sev == severe_count(violations@.take(i as int)),
                sev <= i,
        {
            assert(violations@.take(i + 1).drop_last() == violations@.take(i as int));
            let k = str_to_chars(violations[i].kind.as_str());
            if equals_str(&k, "division_by_zero") || equals_str(&k, "contradiction") {
                sev = sev + 1;
            }
        }
        assert(violations@.take(v as int) == violations@);
        let x: i128 = 5 * (t as i128 - v as i128) + 3 * (c as i128);
        if x <= 0 {
            return Millionths(0);
        }
        assert(x <= 8 * t);
        let base: i128 = (1_000_000 * x) / (20 * (t as i128));
        assert(base <= 400_000) by (nonlinear_arith)
            requires
                base == (1_000_000 * x) / (20 * (t as i128)),
                x <= 8 * t,
                t >= 1,
                x >= 1,
        ;
        assert(base >= 0) by (nonlinear_arith)
            requires
                base == (1_000_000 * x) / (20 * (t as i128)),
                t >= 1,
                x >= 1,
        ;
        let y: i128 = 2 * (v as i128) - (sev as i128);
        assert(base * y <= 400_000 * 2 * v) by (nonlinear_arith)
            requires
                0 <= base <= 400_000,
                0 <= y <= 2 * v,
        ;
        assert(base * y >= 0) by (nonlinear_arith)
            requires
                0 <= base,
                0 <= y,
        ;
        assert(v as int <= usize::MAX);
        assert(usize::MAX <= u64::MAX);
        assert(base * y <= 800_000 * 18_446_744_073_709_551_615int) by (nonlinear_arith)
            requires
                base * y <= 400_000 * 2 * v,
                v <= 18_446_744_073_709_551_615int,
        ;
        let val: i128 = (base * y) / (v as i128);
        if val > 1_000_000 {
            Millionths(1_000_000)
        } else {
            Millionths(val as u32)
        }
    }

    /// The status a set of violations gives: consistent exactly when there
    /// are none.
    pub fn status_for(violations: &[Violation]) -> (s: VerificationStatus)
        ensures
            s == (if violations@.len() == 0 {
                VerificationStatus::Consistent
            } else {
                VerificationStatus::Inconsistent
            }),
    {
        if violations.len() == 0 {
            VerificationStatus::Consistent
        } else {
            VerificationStatus::Inconsistent
        }
    }
}

} // verus!
