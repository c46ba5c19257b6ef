//! Detecting contradictions between numeric claims in a trace.
use vstd::prelude::*;

use crate::arithmetic::{violation_is, violations_are, ViolationSpec};
use crate::number::{dec_pair, differs, pair_text, pairs_differ, parse_number, parse_number_spec, parses_to, Decimal, push_decimal_text, decimal_text};
use crate::reasoning::{ReasoningStep, ReasoningTrace, StepKind, Violation};
use crate::text::{
    append_chars, append_str, chars_to_string, find_char, first_index, is_whitespace, is_ws,
    lemma_first_index, lemma_trim_start_range, lower, lower_range, nat_to_decimal, push_decimal,
    str_to_chars, trim, trim_bounds, trim_start,
};

verus! {

/// What `char::is_alphanumeric` returns for `c` (Unicode `Alphabetic` or
/// `Numeric`).
pub uninterp spec fn char_is_alphanumeric(c: char) -> bool;

/// `char::is_alphanumeric`: whether `c` is Unicode alphabetic or numeric.
/// The contract only names the result; the Unicode tables are not restated.
#[verifier::external_body]
fn is_alphanumeric(c: char) -> (b: bool)
    ensures
        b == char_is_alphanumeric(c),
{
    c.is_alphanumeric()
}

/// Unicode white space, as a predicate.
pub open spec fn ws_pred() -> spec_fn(char) -> bool {
    |c: char| is_ws(c)
}

/// A character allowed in a claim's variable text.
pub open spec fn var_char_ok(c: char) -> bool {
    char_is_alphanumeric(c) || c == ' '
}

/// The part of `s` after its last space (all of `s` when it has none).
pub open spec fn after_last_space(s: Seq<char>) -> Seq<char>
    decreases s.len(),
{
    if s.len() == 0 {
        s
    } else if s.last() == ' ' {
        Seq::empty()
    } else {
        after_last_space(s.drop_last()).push(s.last())
    }
}

/// The claim `var = value` that a step's text makes, if any.
///
/// The text is lower-cased (ASCII); the part before the first `=`, trimmed,
/// must be non-empty and consist of alphanumeric characters and spaces, and
/// its last word names the variable; the first whitespace-separated token
/// after the `=` must parse as a number.
pub open spec fn claim_spec(text: Seq<char>) -> Option<(Seq<char>, (int, nat))> {
    let l = lower(text);
    let eq = first_index(l, crate::text::is_char('='));
    if eq == l.len() {
        None
    } else {
        let var = trim(l.take(eq));
        let after = trim_start(l.skip(eq + 1));
        let tok = after.take(first_index(after, ws_pred()));
        if tok.len() == 0 {
            None
        } else {
            match parse_number_spec(tok) {
                None => None,
                Some(v) => if var.len() > 0 && (forall|i: int|
                    0 <= i < var.len() ==> #[trigger] var_char_ok(var[i])) {
                    Some((after_last_space(var), v))
                } else {
                    None
                },
            }
        }
    }
}

/// The message for a claim that contradicts an earlier one.
pub open spec fn contradiction_message(i: usize, var: Seq<char>, val: (int, nat), prev: (int, nat)) -> Seq<char> {
    "step "@ + nat_to_decimal(i as nat) + " contradicts earlier claim: "@ + var + " = "@ + pair_text(val)
        + " vs "@ + pair_text(prev)
}

/// The message for a conclusion that contradicts a claim.
pub open spec fn conclusion_message(i: usize, var: Seq<char>) -> Seq<char> {
    "step "@ + nat_to_decimal(i as nat) + " conclusion contradicts claim for "@ + var
}

/// The last claim the steps make, with the index of the step that makes it.
pub open spec fn last_claim(steps: Seq<ReasoningStep>) -> Option<(usize, Seq<char>, (int, nat))>
    decreases steps.len(),
{
    if steps.len() == 0 {
        None
    } else {
        match claim_spec(steps.last().text@) {
            Some(c) => Some((steps.last().index, c.0, c.1)),
            None => last_claim(steps.drop_last()),
        }
    }
}

/// The number a final answer states: the answer, trimmed, read as a number.
pub open spec fn answer_number(final_answer: Option<String>) -> Option<(int, nat)> {
    match final_answer {
        None => None,
        Some(a) => parse_number_spec(trim(a@)),
    }
}

/// The message for a final answer that contradicts the last claim.
pub open spec fn final_answer_message(val: (int, nat), var: Seq<char>, prev: (int, nat)) -> Seq<char> {
    "final answer "@ + pair_text(val) + " contradicts claim: "@ + var + " = "@ + pair_text(prev)
}

/// The contradiction of a final answer with the trace's last claim: when the
/// final answer is a number that differs by more than `10^-6` from the
/// value of the last claim, one violation at the step of that claim.
pub open spec fn final_answer_violations(steps: Seq<ReasoningStep>, final_answer: Option<String>) -> Seq<ViolationSpec> {
    match last_claim(steps) {
        None => Seq::empty(),
        Some(c) => match answer_number(final_answer) {
            None => Seq::empty(),
            Some(v) => if pairs_differ(c.2, v) {
                seq![(c.0, "contradiction"@, final_answer_message(v, c.1, c.2))]
            } else {
                Seq::empty()
            },
        },
    }
}

/// All contradictions found in a trace starting from the claims `m`: those
/// between claims, then the final answer's.
pub open spec fn trace_contradictions(m: Map<Seq<char>, (int, nat)>, t: ReasoningTrace) -> Seq<ViolationSpec> {
    detect(m, t.steps@).1 + final_answer_violations(t.steps@, t.final_answer)
}

/// The claims known and the contradictions found after scanning `steps`
/// in order, starting from the claims `m`. A claim that differs by more than
/// `10^-6` from the last claim for the same variable is a contradiction; the
/// new value then replaces the old one. For conclusion and goal steps the
/// claim is compared once more with the stored value (which is by then the
/// claim itself).
pub open spec fn detect(m: Map<Seq<char>, (int, nat)>, steps: Seq<ReasoningStep>) -> (Map<Seq<char>, (int, nat)>, Seq<ViolationSpec>)
    decreases steps.len(),
{
    if steps.len() == 0 {
        (m, Seq::empty())
    } else {
        let prev = detect(m, steps.drop_last());
        let st = steps.last();
        match claim_spec(st.text@) {
            None => prev,
            Some(c) => {
                let var = c.0;
                let val = c.1;
                let m1 = prev.0;
                let vs1 = if m1.contains_key(var) && pairs_differ(m1[var], val) {
                    prev.1.push((st.index, "contradiction"@, contradiction_message(st.index, var, val, m1[var])))
                } else {
                    prev.1
                };
                let m2 = m1.insert(var, val);
                let vs2 = if (st.kind == StepKind::Conclusion || st.kind == StepKind::Goal)
                    && m2.contains_key(var) && pairs_differ(m2[var], val) {
                    vs1.push((st.index, "contradiction"@, conclusion_message(st.index, var)))
                } else {
                    vs1
                };
                (m2, vs2)
            },
        }
    }
}

/// The claim map of a claim log: later entries win.
pub open spec fn claims_map(log: Seq<(Seq<char>, (int, nat))>) -> Map<Seq<char>, (int, nat)>
    decreases log.len(),
{
    if log.len() == 0 {
        Map::empty()
    } else {
        claims_map(log.drop_last()).insert(log.last().0, log.last().1)
    }
}

/// Entries after position `i` that do not mention `k` leave `k`'s entry in
/// the claim map as it was after the first `i` entries.
pub proof fn lemma_claims_suffix(log: Seq<(Seq<char>, (int, nat))>, i: int, k: Seq<char>)
    requires
        0 <= i <= log.len(),
        forall|j: int| i <= j < log.len() ==> #[trigger] log[j].0 != k,
    ensures
        claims_map(log).contains_key(k) == claims_map(log.take(i)).contains_key(k),
        claims_map(log).contains_key(k) ==> claims_map(log)[k] == claims_map(log.take(i))[k],
    decreases log.len(),
{
    if log.len() == i {
        assert(log.take(i) == log);
    } else {
        let d = log.drop_last();
        assert forall|j: int| i <= j < d.len() implies #[trigger] d[j].0 != k by {
            assert(d[j] == log[j]);
        }
        lemma_claims_suffix(d, i, k);
        assert(d.take(i) == log.take(i));
        assert(log.last().0 != k);
    }
}

/// Detects logical contradictions between reasoning steps by tracking
/// numeric claims `var = value` across calls.
pub struct ContradictionDetector {
    claims: Vec<(Vec<char>, Decimal)>,
}

impl ContradictionDetector {
    /// The claim log as plain values.
    pub closed spec fn log_view(&self) -> Seq<(Seq<char>, (int, nat))> {
        self.claims@.map_values(|e: (Vec<char>, Decimal)| (e.0@, dec_pair(e.1)))
    }

    /// The current claims: variable -> last claimed value.
    pub open spec fn claims_view(&self) -> Map<Seq<char>, (int, nat)> {
        claims_map(self.log_view())
    }

    pub fn new() -> (d: ContradictionDetector)
        ensures
            d.claims_view() == Map::<Seq<char>, (int, nat)>::empty(),
    {
        let d = ContradictionDetector { claims: Vec::new() };
        assert(d.log_view().len() == 0);
        d
    }

    /// The last value claimed for `var`, if any.
    fn lookup(&self, var: &Vec<char>) -> (r: Option<Decimal>)
        ensures
            r is Some <==> self.claims_view().contains_key(var@),
            r matches Some(d) ==> dec_pair(d) == self.claims_view()[var@],
    {
        let n = self.claims.len();
        let mut i = n;
        while i > 0
            invariant
                i <= n == self.claims@.len(),
                forall|j: int| i <= j < n ==> #[trigger] self.claims@[j].0@ != var@,
            decreases i,
        {
            if same_chars(&self.claims[i - 1].0, var) {
                proof {
                    let log = self.log_view();
                    lemma_claims_suffix(log, i as int, var@);
                    assert(log.take(i as int).drop_last() == log.take(i - 1));
                    assert(log.take(i as int).last() == (var@, dec_pair(self.claims@[i - 1].1)));
                }
                return Some(self.claims[i - 1].1);
            }
            i = i - 1;
        }
        proof {
            lemma_claims_suffix(self.log_view(), 0, var@);
            assert(self.log_view().take(0).len() == 0);
        }
        None
    }

    /// Record the claim `var = val`.
    fn insert(&mut self, var: Vec<char>, val: Decimal)
        ensures
            final(self).claims_view() == old(self).claims_view().insert(var@, dec_pair(val)),
    {
        let ghost old_log = self.log_view();
        self.claims.push((var, val));
        assert(self.log_view().drop_last() == old_log);
    }

    /// Append the contradictions found in `trace` to `out`, updating the
    /// tracked claims: a claim that disagrees with an earlier claim for the
    /// same variable, and a final answer that disagrees with the trace's last
    /// claim.
    pub fn check(&mut self, trace: &ReasoningTrace, out: &mut Vec<Violation>)
        ensures
            final(out)@.len() >= old(out)@.len(),
            final(out)@.take(old(out)@.len() as int) == old(out)@,
            violations_are(final(out)@.skip(old(out)@.len() as int), trace_contradictions(old(self).claims_view(), *trace)),
            final(self).claims_view() == detect(old(self).claims_view(), trace.steps@).0,
    {
        let n = trace.steps.len();
        let ghost start = out@;
        let ghost m0 = self.claims_view();
        let mut last: Option<(usize, Vec<char>, Decimal)> = None;
        for i in 0..n
            invariant
                n == trace.steps@.len(),
                match last {
                    None => last_claim(trace.steps@.take(i as int)) is None,
                    Some(c) => last_claim(trace.steps@.take(i as int)) == Some((c.0, c.1@, dec_pair(c.2))),
                },
                out@.take(start.len() as int) == start,
                out@.len() >= start.len(),
                violations_are(out@.skip(start.len() as int), detect(m0, trace.steps@.take(i as int)).1),
                self.claims_view() == detect(m0, trace.steps@.take(i as int)).0,
        {
            let step = &trace.steps[i];
            assert(trace.steps@.take(i + 1).drop_last() == trace.steps@.take(i as int));
            assert(trace.steps@.take(i + 1).last() == *step);
            if let Some((var, val)) = extract_claim(&step.text) {
                if let Some(prev) = self.lookup(&var) {
                    if differs(&prev, &val) {
                        let mut m: Vec<char> = Vec::new();
                        append_str(&mut m, "step ");
                        push_decimal(&mut m, step.index as u128);
                        append_str(&mut m, " contradicts earlier claim: ");
                        append_chars(&mut m, &var);
                        append_str(&mut m, " = ");
                        push_decimal_text(&mut m, &val);
                        append_str(&mut m, " vs ");
                        push_decimal_text(&mut m, &prev);
                        let ghost before = out@;
                        out.push(Violation {
                            step_index: Some(step.index),
                            kind: chars_to_string(&str_to_chars("contradiction")),
                            message: chars_to_string(&m),
                        });
                        assert(out@.skip(start.len() as int) == before.skip(start.len() as int).push(out@.last()));
                        assert(out@.take(start.len() as int) == before.take(start.len() as int));
                    }
                }
                let key = copy_chars(&var);
                self.insert(key, val);
                last = Some((step.index, copy_chars(&var), val));
                if step.kind == StepKind::Conclusion || step.kind == StepKind::Goal {
                    if let Some(prev) = self.lookup(&var) {
                        if differs(&prev, &val) {
                            let mut m: Vec<char> = Vec::new();
                            append_str(&mut m, "step ");
                            push_decimal(&mut m, step.index as u128);
                            append_str(&mut m, " conclusion contradicts claim for ");
                            append_chars(&mut m, &var);
                            let ghost before = out@;
                            out.push(Violation {
                                step_index: Some(step.index),
                                kind: chars_to_string(&str_to_chars("contradiction")),
                                message: chars_to_string(&m),
                            });
                            assert(out@.skip(start.len() as int) == before.skip(start.len() as int).push(out@.last()));
                            assert(out@.take(start.len() as int) == before.take(start.len() as int));
                        }
                    }
                }
            }
        }
        assert(trace.steps@.take(n as int) == trace.steps@);
        let ghost before_final = out@;
        let ghost d = detect(m0, trace.steps@).1;
        let ghost f = final_answer_violations(trace.steps@, trace.final_answer);
        let mut pushed = false;
        match &last {
            None => {},
            Some((at, var, prev)) => match &trace.final_answer {
                None => {},
                Some(a) => {
                    let cs = str_to_chars(a.as_str());
                    let (lo, hi) = trim_bounds(&cs, 0, cs.len());
                    assert(cs@.subrange(0, cs@.len() as int) == cs@);
                    if let Some(v) = parse_number(&cs, lo, hi) {
                        if differs(prev, &v) {
                            let mut m: Vec<char> = Vec::new();
                            append_str(&mut m, "final answer ");
                            push_decimal_text(&mut m, &v);
                            append_str(&mut m, " contradicts claim: ");
                            append_chars(&mut m, var);
                            append_str(&mut m, " = ");
                            push_decimal_text(&mut m, prev);
                            out.push(Violation {
                                step_index: Some(*at),
                                kind: chars_to_string(&str_to_chars("contradiction")),
                                message: chars_to_string(&m),
                            });
                            pushed = true;
                            assert(f.len() == 1);
                            assert(violation_is(out@.last(), f[0]));
                        } else {
                            assert(f.len() == 0);
                        }
                    } else {
                        assert(f.len() == 0);
                    }
                },
            },
        }
        proof {
            if !pushed {
                assert(f.len() == 0);
                assert(out@ == before_final);
                assert(d + f =~= d);
            } else {
                assert(out@.take(start.len() as int) == before_final.take(start.len() as int));
                assert(out@.skip(start.len() as int) == before_final.skip(start.len() as int).push(out@.last()));
                let vs = out@.skip(start.len() as int);
                assert forall|k: int| 0 <= k < vs.len() implies #[trigger] violation_is(vs[k], (d + f)[k]) by {
                    if k < d.len() {
                        assert(vs[k] == before_final.skip(start.len() as int)[k]);
                    }
                }
            }
        }
    }
}

fn same_chars(a: &Vec<char>, b: &Vec<char>) -> (r: bool)
    ensures
        r == (a@ == b@),
{
    if a.len() != b.len() {
        return false;
    }
    let n = a.len();
    for i in 0..n
        invariant
            n == a@.len() == b@.len(),
            forall|k: int| 0 <= k < i ==> a@[k] == b@[k],
    {
        if a[i] != b[i] {
            return false;
        }
    }
    assert(a@ =~= b@);
    true
}

fn copy_chars(a: &Vec<char>) -> (r: Vec<char>)
    ensures
        r@ == a@,
{
    let mut r: Vec<char> = Vec::new();
    append_chars(&mut r, a);
    r
}

/// The first whitespace-separated token of `s[lo..]`.
fn first_token(s: &Vec<char>, lo: usize) -> (r: (usize, usize))
    requires
        lo <= s@.len(),
    ensures
        lo <= r.0 <= r.1 <= s@.len(),
        s@.subrange(r.0 as int, r.1 as int) == trim_start(s@.skip(lo as int)).take(
            first_index(trim_start(s@.skip(lo as int)), ws_pred()),
        ),
{
    let len = s.len();
    let mut a = lo;
    while a < len && is_whitespace(s[a])
        invariant
            lo <= a <= len == s@.len(),
            forall|k: int| lo <= k < a ==> is_ws(#[trigger] s@[k]),
        decreases len - a,
    {
        a = a + 1;
    }
    let mut b = a;
    while b < len && !is_whitespace(s[b])
        invariant
            a <= b <= len == s@.len(),
            forall|k: int| a <= k < b ==> !is_ws(#[trigger] s@[k]),
        decreases len - b,
    {
        b = b + 1;
    }
    proof {
        let rest = s@.skip(lo as int);
        assert forall|k: int| 0 <= k < a - lo implies is_ws(#[trigger] rest[k]) by {
            assert(rest[k] == s@[lo + k]);
        }
        if a < len {
            assert(rest[a - lo] == s@[a as int]);
        }
        lemma_trim_start_range(rest, a - lo, rest.len() as int);
        assert(rest.subrange(0, rest.len() as int) == rest);
        let after = rest.subrange(a - lo, rest.len() as int);
        assert(after == s@.subrange(a as int, len as int));
        assert forall|k: int| 0 <= k < b - a implies !ws_pred()(#[trigger] after[k]) by {
            assert(after[k] == s@[a + k]);
        }
        if b < len {
            assert(after[b - a] == s@[b as int]);
        }
        lemma_first_index(after, ws_pred(), b - a);
        assert(after.take(b - a) == s@.subrange(a as int, b as int));
    }
    (a, b)
}

/// Whether every character of `s[lo..hi]` is alphanumeric or a space.
fn all_var_chars(s: &Vec<char>, lo: usize, hi: usize) -> (b: bool)
    requires
        lo <= hi <= s@.len(),
    ensures
        b == forall|i: int|
            0 <= i < hi - lo ==> #[trigger] var_char_ok(s@.subrange(lo as int, hi as int)[i]),
{
    let ghost sub = s@.subrange(lo as int, hi as int);
    let mut k = lo;
    while k < hi
        invariant
            lo <= k <= hi <= s@.len(),
            sub == s@.subrange(lo as int, hi as int),
            forall|j: int| 0 <= j < k - lo ==> #[trigger] var_char_ok(sub[j]),
        decreases hi - k,
    {
        let c = s[k];
        assert(sub[k - lo] == c);
        if !(is_alphanumeric(c) || c == ' ') {
            assert(!var_char_ok(sub[k - lo]));
            return false;
        }
        k = k + 1;
    }
    true
}

/// The text of `s[lo..hi]` after its last space.
fn last_word(s: &Vec<char>, lo: usize, hi: usize) -> (w: Vec<char>)
    requires
        lo <= hi <= s@.len(),
    ensures
        w@ == after_last_space(s@.subrange(lo as int, hi as int)),
{
    let mut word: Vec<char> = Vec::new();
    let mut j = lo;
    while j < hi
        invariant
            lo <= j <= hi <= s@.len(),
            word@ == after_last_space(s@.subrange(lo as int, j as int)),
        decreases hi - j,
    {
        assert(s@.subrange(lo as int, j + 1).drop_last() == s@.subrange(lo as int, j as int));
        if s[j] == ' ' {
            word = Vec::new();
        } else {
            word.push(s[j]);
        }
        j = j + 1;
    }
    word
}

/// Extract a `var = number` claim from text (see [`claim_spec`]).
fn extract_claim(text: &String) -> (r: Option<(Vec<char>, Decimal)>)
    ensures
        r is Some <==> claim_spec(text@) is Some,
        r matches Some(c) ==> c.0@ == (claim_spec(text@)->0).0 && dec_pair(c.1) == (claim_spec(
            text@,
        )->0).1,
{
    let chars = str_to_chars(text.as_str());
    let len = chars.len();
    let l = lower_range(&chars, 0, len);
    assert(chars@.subrange(0, len as int) == chars@);
    let eq = find_char(&l, 0, len, '=');
    assert(l@.subrange(0, len as int) == l@);
    if eq == len {
        return None;
    }
    let (va, vb) = trim_bounds(&l, 0, eq);
    assert(l@.subrange(0, eq as int) == l@.take(eq as int));
    let (a, b) = first_token(&l, eq + 1);
    if a == b {
        return None;
    }
    let val = match parse_number(&l, a, b) {
        Some(v) => v,
        None => {
            return None;
        },
    };
    if va == vb {
        return None;
    }
    if !all_var_chars(&l, va, vb) {
        return None;
    }
    let word = last_word(&l, va, vb);
    Some((word, val))
}

} // verus!
