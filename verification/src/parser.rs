//! Parsing free-text chain-of-thought into a [`ReasoningTrace`].
//!
//! The parser is tolerant: it splits the text on newlines, trims each line,
//! skips blank lines, takes `answer:` / `Answer:` lines as the final answer,
//! and classifies every other line as a goal, conclusion, deduction,
//! computation or statement. Computation lines are decomposed into operands,
//! operator and claimed result for [`crate::arithmetic::ArithmeticChecker`].
use vstd::prelude::*;

use crate::number::{is_digit, parse_number, parses_to, Decimal};
use crate::reasoning::{ReasoningStep, ReasoningTrace, StepKind};
use crate::text::{
    chars_to_string, contains_sub, copy_range, find_char, first_index, has_prefix, has_substring,
    is_char, lemma_first_index, lemma_first_index_contains, lemma_first_index_props, lower,
    lower_range, starts_with, str_to_chars, trim, trim_bounds, trim_end, is_ws,
    lemma_trim_prefixed,
};

verus! {

/// Errors raised while parsing a free-text chain-of-thought. The tolerant
/// parser never produces one; the type is kept for callers that match on it.
#[derive(Debug)]
pub enum ParseError {
    Unexpected { line: usize, text: String },
}

/// The number of ASCII digits in `s`.
pub open spec fn digit_count(s: Seq<char>) -> nat
    decreases s.len(),
{
    if s.len() == 0 {
        0
    } else {
        digit_count(s.drop_last()) + if is_digit(s.last()) {
            1nat
        } else {
            0nat
        }
    }
}

/// A line looks like a computation: at least two digits and an `=`.
pub open spec fn looks_arithmetic_spec(line: Seq<char>) -> bool {
    digit_count(line) >= 2 && line.contains('=')
}

/// The kind of step a (trimmed) line is.
pub open spec fn classify_spec(line: Seq<char>) -> StepKind {
    let l = lower(line);
    if starts_with(l, "goal"@) || starts_with(l, "problem"@) || starts_with(l, "we need"@) {
        StepKind::Goal
    } else if starts_with(l, "therefore"@) || starts_with(l, "so,"@) || starts_with(l, "so "@)
        || starts_with(l, "thus"@)
        || starts_with(l, "conclusion"@) {
        StepKind::Conclusion
    } else if starts_with(l, "because"@) || starts_with(l, "since"@) || starts_with(l, "if "@)
        || contains_sub(l, " implies "@) {
        StepKind::Deduction
    } else if line.contains('=') && looks_arithmetic_spec(line) {
        StepKind::Computation
    } else {
        StepKind::Statement
    }
}

/// Multiplication and division signs folded to `*` and `/` (`x` and `×`
/// count as `*`, `÷` as `/`).
pub open spec fn norm_char(c: char) -> char {
    if c == 'x' {
        '*'
    } else if c == '\u{f7}' {
        '/'
    } else if c == '\u{d7}' {
        '*'
    } else {
        c
    }
}

/// `line` with every character folded by [`norm_char`].
pub open spec fn normalize(line: Seq<char>) -> Seq<char> {
    line.map_values(|c: char| norm_char(c))
}

/// One of `+ - * /`.
pub open spec fn is_op_char() -> spec_fn(char) -> bool {
    |c: char| c == '+' || c == '-' || c == '*' || c == '/'
}

/// The expression side and the result side of a normalized computation
/// line: the text before the first `=` and the text between the first and
/// second `=`; whichever of the two starts (after trimming) with a digit is
/// the expression side, the first one being preferred.
pub open spec fn comp_sides(line: Seq<char>) -> Option<(Seq<char>, Seq<char>)> {
    let n = normalize(line);
    let e1 = first_index(n, is_char('='));
    if e1 == n.len() {
        None
    } else {
        let s0 = n.take(e1);
        let rest = n.skip(e1 + 1);
        let s1 = rest.take(first_index(rest, is_char('=')));
        let t0 = trim(s0);
        if t0.len() > 0 && is_digit(t0[0]) {
            Some((s0, s1))
        } else {
            Some((s1, s0))
        }
    }
}

/// The operand, operator, operand and result texts of a computation line,
/// split at the first operator character of the expression side.
pub open spec fn computation_spec(line: Seq<char>) -> Option<(Seq<char>, char, Seq<char>, Seq<char>)> {
    match comp_sides(line) {
        None => None,
        Some(sides) => {
            let left = sides.0;
            let p = first_index(left, is_op_char());
            if p == left.len() {
                None
            } else {
                Some((trim(left.take(p)), left[p], trim(left.skip(p + 1)), trim(sides.1)))
            }
        },
    }
}

/// The computation fields of a step parsed from `line`.
pub open spec fn computation_fields_match(
    line: Seq<char>,
    lhs: Option<Decimal>,
    op: Option<String>,
    rhs: Option<Decimal>,
    result: Option<Decimal>,
) -> bool {
    match computation_spec(line) {
        None => lhs is None && op is None && rhs is None && result is None,
        Some(c) => {
            &&& parses_to(c.0, lhs)
            &&& op matches Some(o) && o@ == seq![c.1]
            &&& parses_to(c.2, rhs)
            &&& parses_to(c.3, result)
        },
    }
}

/// `st` is the step parsed from the trimmed line `line` at position `index`.
pub open spec fn step_matches(st: ReasoningStep, index: nat, line: Seq<char>) -> bool {
    &&& st.index == index
    &&& st.kind == classify_spec(line)
    &&& st.text@ == line
    &&& if st.kind == StepKind::Computation {
        computation_fields_match(line, st.lhs, st.op, st.rhs, st.result)
    } else {
        st.lhs is None && st.op is None && st.rhs is None && st.result is None
    }
}

/// The lines finished so far and the line in progress, after reading `s`.
pub open spec fn split_acc(s: Seq<char>) -> (Seq<Seq<char>>, Seq<char>)
    decreases s.len(),
{
    if s.len() == 0 {
        (Seq::empty(), Seq::empty())
    } else {
        let prev = split_acc(s.drop_last());
        if s.last() == '\n' {
            (prev.0.push(prev.1), Seq::empty())
        } else {
            (prev.0, prev.1.push(s.last()))
        }
    }
}

/// The segments of `s` between newlines (including a final, possibly empty,
/// segment).
pub open spec fn split_lines(s: Seq<char>) -> Seq<Seq<char>> {
    split_acc(s).0.push(split_acc(s).1)
}

/// The step lines and final answer after reading one more raw line: blank
/// lines change nothing, `answer:` / `Answer:` lines set the final answer (a
/// later one replaces an earlier one), other lines are appended trimmed.
pub open spec fn scan_step(prev: (Seq<Seq<char>>, Option<Seq<char>>), raw: Seq<char>) -> (Seq<Seq<char>>, Option<Seq<char>>) {
    let l = trim(raw);
    if l.len() == 0 {
        prev
    } else if starts_with(l, "answer:"@) || starts_with(l, "Answer:"@) {
        (prev.0, Some(trim(l.skip(7))))
    } else {
        (prev.0.push(l), prev.1)
    }
}

/// A line beginning `Answer:` is read like one beginning `answer:`: it adds
/// no step and sets the final answer to the rest of the line, trimmed.
pub proof fn lemma_answer_lines(prev: (Seq<Seq<char>>, Option<Seq<char>>), rest: Seq<char>)
    ensures
        scan_step(prev, "Answer:"@ + rest) == scan_step(prev, "answer:"@ + rest),
        scan_step(prev, "Answer:"@ + rest).0 == prev.0,
        scan_step(prev, "answer:"@ + rest).0 == prev.0,
        scan_step(prev, "Answer:"@ + rest).1 is Some,
        rest.len() == 0 || !is_ws(rest.last()) ==> scan_step(prev, "Answer:"@ + rest).1 == Some(
            trim(rest),
        ),
{
    reveal_strlit("Answer:");
    reveal_strlit("answer:");
    let up = "Answer:"@;
    let lo = "answer:"@;
    lemma_trim_prefixed(up, rest);
    lemma_trim_prefixed(lo, rest);
    let tu = up + trim_end(rest);
    let tl = lo + trim_end(rest);
    assert(tu.take(7) == up);
    assert(tl.take(7) == lo);
    assert(tu.skip(7) == trim_end(rest));
    assert(tl.skip(7) == trim_end(rest));
    assert(starts_with(tu, "Answer:"@));
    assert(starts_with(tl, "answer:"@));
    assert(tu.len() > 0);
    if rest.len() == 0 || !is_ws(rest.last()) {
        assert(trim_end(rest) == rest);
    }
}

/// The step lines and the final answer of a sequence of raw lines.
pub open spec fn scan_lines(lines: Seq<Seq<char>>) -> (Seq<Seq<char>>, Option<Seq<char>>)
    decreases lines.len(),
{
    if lines.len() == 0 {
        (Seq::empty(), None)
    } else {
        scan_step(scan_lines(lines.drop_last()), lines.last())
    }
}

/// The step lines and final answer recorded in a trace.
pub open spec fn trace_state(t: ReasoningTrace) -> (Seq<Seq<char>>, Option<Seq<char>>) {
    (
        t.steps@.map_values(|st: ReasoningStep| st.text@),
        match t.final_answer {
            None => None,
            Some(f) => Some(f@),
        },
    )
}

/// `t` is the trace parsed from `text` for the given task.
pub open spec fn parsed_trace(t: ReasoningTrace, task_id: Seq<char>, task_type: Seq<char>, text: Seq<char>) -> bool {
    let sc = scan_lines(split_lines(text));
    &&& t.task_id@ == task_id
    &&& t.task_type@ == task_type
    &&& t.steps@.len() == sc.0.len()
    &&& forall|i: int| 0 <= i < sc.0.len() ==> #[trigger] step_matches(t.steps@[i], i as nat, sc.0[i])
    &&& match sc.1 {
        None => t.final_answer is None,
        Some(a) => t.final_answer matches Some(f) && f@ == a,
    }
}

fn count_digits(line: &Vec<char>) -> (n: usize)
    ensures
        n == digit_count(line@),
{
    let mut n: usize = 0;
    let len = line.len();
    for i in 0..len
        invariant
            len == line@.len(),
            n == digit_count(line@.take(i as int)),
            n <= i,
    {
        assert(line@.take(i + 1).drop_last() == line@.take(i as int));
        if '0' <= line[i] && line[i] <= '9' {
            n = n + 1;
        }
    }
    assert(line@.take(len as int) == line@);
    n
}

fn contains_char(line: &Vec<char>, c: char) -> (b: bool)
    ensures
        b == line@.contains(c),
{
    let i = find_char(line, 0, line.len(), c);
    proof {
        assert(line@.subrange(0, line@.len() as int) == line@);
        lemma_first_index_contains(line@, c);
    }
    i < line.len()
}

fn looks_arithmetic_chars(line: &Vec<char>) -> (b: bool)
    ensures
        b == looks_arithmetic_spec(line@),
{
    count_digits(line) >= 2 && contains_char(line, '=')
}

/// Heuristic: a computation line has at least two digits and an `=`.
pub fn looks_arithmetic(line: &str) -> (b: bool)
    ensures
        b == looks_arithmetic_spec(line@),
{
    looks_arithmetic_chars(&str_to_chars(line))
}

fn classify_chars(line: &Vec<char>) -> (k: StepKind)
    ensures
        k == classify_spec(line@),
{
    let l = lower_range(line, 0, line.len());
    assert(line@.subrange(0, line@.len() as int) == line@);
    if has_prefix(&l, "goal") || has_prefix(&l, "problem") || has_prefix(&l, "we need") {
        StepKind::Goal
    } else if has_prefix(&l, "therefore") || has_prefix(&l, "so,") || has_prefix(&l, "so ")
        || has_prefix(&l, "thus")
        || has_prefix(&l, "conclusion") {
        StepKind::Conclusion
    } else if has_prefix(&l, "because") || has_prefix(&l, "since") || has_prefix(&l, "if ")
        || has_substring(&l, " implies ") {
        StepKind::Deduction
    } else if contains_char(line, '=') && looks_arithmetic_chars(line) {
        StepKind::Computation
    } else {
        StepKind::Statement
    }
}

/// Classify a line as goal, conclusion, deduction, computation or statement
/// (by its lower-cased opening words, ` implies `, and `=` with digits).
pub fn classify(line: &str) -> (k: StepKind)
    ensures
        k == classify_spec(line@),
{
    classify_chars(&str_to_chars(line))
}

fn normalize_chars(line: &Vec<char>) -> (n: Vec<char>)
    ensures
        n@ == normalize(line@),
{
    let mut n: Vec<char> = Vec::new();
    let len = line.len();
    for i in 0..len
        invariant
            len == line@.len(),
            n@ == normalize(line@.take(i as int)),
    {
        let c = line[i];
        let d = if c == 'x' {
            '*'
        } else if c == '\u{f7}' {
            '/'
        } else if c == '\u{d7}' {
            '*'
        } else {
            c
        };
        n.push(d);
        assert(normalize(line@.take(i + 1)) == normalize(line@.take(i as int)).push(d));
    }
    assert(line@.take(len as int) == line@);
    n
}

fn find_op(s: &Vec<char>, lo: usize, hi: usize) -> (r: usize)
    requires
        lo <= hi <= s@.len(),
    ensures
        r <= hi - lo,
        r == first_index(s@.subrange(lo as int, hi as int), is_op_char()),
{
    let mut i = lo;
    while i < hi && s[i] != '+' && s[i] != '-' && s[i] != '*' && s[i] != '/'
        invariant
            lo <= i <= hi <= s@.len(),
            forall|k: int| lo <= k < i ==> !is_op_char()(#[trigger] s@[k]),
        decreases hi - i,
    {
        i = i + 1;
    }
    proof {
        let sub = s@.subrange(lo as int, hi as int);
        assert forall|k: int| 0 <= k < i - lo implies !is_op_char()(#[trigger] sub[k]) by {
            assert(sub[k] == s@[lo + k]);
        }
        lemma_first_index(sub, is_op_char(), i - lo);
    }
    i - lo
}

/// Parse `lhs op rhs = result` (or `result = lhs op rhs`) from a line.
#[verifier::spinoff_prover]
#[verifier::rlimit(40)]
fn parse_computation(line: &Vec<char>) -> (r: (Option<Decimal>, Option<String>, Option<Decimal>, Option<Decimal>))
    ensures
        computation_fields_match(line@, r.0, r.1, r.2, r.3),
{
    let n = normalize_chars(line);
    let len = n.len();
    let e1 = find_char(&n, 0, len, '=');
    assert(n@.subrange(0, len as int) == n@);
    if e1 == len {
        return (None, None, None, None);
    }
    let e2 = find_char(&n, e1 + 1, len, '=');
    let s1_end = e1 + 1 + e2;
    assert(n@.skip(e1 + 1) == n@.subrange(e1 + 1, len as int));
    assert(n@.take(e1 as int) == n@.subrange(0, e1 as int));
    assert(n@.skip(e1 + 1).take(e2 as int) == n@.subrange(e1 + 1, s1_end as int));
    let (t0a, t0b) = trim_bounds(&n, 0, e1);
    let first_digit = t0a < t0b && '0' <= n[t0a] && n[t0a] <= '9';
    assert(first_digit == (trim(n@.take(e1 as int)).len() > 0 && is_digit(trim(n@.take(e1 as int))[0])));
    let (llo, lhi, rlo, rhi) = if first_digit {
        (0, e1, e1 + 1, s1_end)
    } else {
        (e1 + 1, s1_end, 0, e1)
    };
    let ghost sides = comp_sides(line@)->0;
    assert(sides.0 == n@.subrange(llo as int, lhi as int));
    assert(sides.1 == n@.subrange(rlo as int, rhi as int));
    let p = find_op(&n, llo, lhi);
    if p == lhi - llo {
        return (None, None, None, None);
    }
    let ghost left = sides.0;
    let op_char = n[llo + p];
    assert(left[p as int] == op_char);
    assert(left.take(p as int) == n@.subrange(llo as int, (llo + p) as int));
    assert(left.skip(p + 1) == n@.subrange((llo + p + 1) as int, lhi as int));
    let (a0, a1) = trim_bounds(&n, llo, llo + p);
    let (b0, b1) = trim_bounds(&n, llo + p + 1, lhi);
    let (r0, r1) = trim_bounds(&n, rlo, rhi);
    let a = parse_number(&n, a0, a1);
    let b = parse_number(&n, b0, b1);
    let r = parse_number(&n, r0, r1);
    let mut ov: Vec<char> = Vec::new();
    ov.push(op_char);
    (a, Some(chars_to_string(&ov)), b, r)
}

fn line_to_step(index: usize, line: &Vec<char>) -> (st: ReasoningStep)
    ensures
        step_matches(st, index as nat, line@),
{
    let kind = classify_chars(line);
    let (lhs, op, rhs, result) = if kind == StepKind::Computation {
        parse_computation(line)
    } else {
        (None, None, None, None)
    };
    ReasoningStep { index, kind, text: chars_to_string(line), lhs, op, rhs, result }
}

/// Parse free-text chain-of-thought into a [`ReasoningTrace`].
pub struct TraceParser;

impl Default for TraceParser {
    fn default() -> (p: TraceParser)
        ensures
            p == TraceParser,
    {
        TraceParser
    }
}

impl TraceParser {
    pub fn new() -> (p: TraceParser)
        ensures
            p == TraceParser,
    {
        TraceParser
    }

    /// A parsed trace numbers its steps `0, 1, 2, ...`.
pub proof fn lemma_parsed_indices(t: ReasoningTrace, task_id: Seq<char>, task_type: Seq<char>, text: Seq<char>)
    requires
        parsed_trace(t, task_id, task_type, text),
    ensures
        crate::reasoning::indices_well_formed(t.steps@),
{
    let sc = scan_lines(split_lines(text));
    assert forall|i: int| 0 <= i < t.steps@.len() implies #[trigger] t.steps@[i].index == i by {
        assert(step_matches(t.steps@[i], i as nat, sc.0[i]));
    }
}

/// Parse `text` into a trace for the given task id/type. Never fails.
    pub fn parse(&self, task_id: &str, task_type: &str, text: &str) -> (r: Result<ReasoningTrace, ParseError>)
        ensures
            r matches Ok(t) && parsed_trace(t, task_id@, task_type@, text@),
    {
        let chars = str_to_chars(text);
        let mut trace = ReasoningTrace::new(task_id, task_type);
        let len = chars.len();
        let mut start: usize = 0;
        let mut i: usize = 0;
        while i < len
            invariant
                len == chars@.len(),
                chars@ == text@,
                start <= i <= len,
                split_acc(chars@.take(i as int)).1 == chars@.subrange(start as int, i as int),
                scan_lines(split_acc(chars@.take(i as int)).0) == trace_state(trace),
                trace.task_id@ == task_id@,
                trace.task_type@ == task_type@,
                forall|j: int| 0 <= j < trace.steps@.len() ==> #[trigger] step_matches(trace.steps@[j], j as nat, trace_state(trace).0[j]),
                trace_state(trace).0.len() == trace.steps@.len(),
            decreases len - i,
        {
            assert(chars@.take(i + 1).drop_last() == chars@.take(i as int));
            if chars[i] == '\n' {
                let ghost lines_before = split_acc(chars@.take(i as int)).0;
                let ghost seg = chars@.subrange(start as int, i as int);
                self.take_line(&chars, start, i, &mut trace);
                proof {
                    assert(split_acc(chars@.take(i + 1)).0 == lines_before.push(seg));
                    assert(lines_before.push(seg).drop_last() == lines_before);
                }
                start = i + 1;
            } else {
                proof {
                    assert(chars@.subrange(start as int, i + 1) == chars@.subrange(start as int, i as int).push(chars@[i as int]));
                }
            }
            i = i + 1;
        }
        let ghost lines_before = split_acc(chars@.take(i as int)).0;
        let ghost seg = chars@.subrange(start as int, i as int);
        self.take_line(&chars, start, len, &mut trace);
        proof {
            assert(chars@.take(i as int) == chars@);
            assert(split_lines(chars@) == lines_before.push(seg));
            assert(lines_before.push(seg).drop_last() == lines_before);
        }
        Ok(trace)
    }

    /// Processes one raw line `chars[lo..hi]`: blank lines are skipped,
    /// answer lines set the final answer, others become the next step.
    fn take_line(&self, chars: &Vec<char>, lo: usize, hi: usize, trace: &mut ReasoningTrace)
        requires
            lo <= hi <= chars@.len(),
            trace_state(*old(trace)).0.len() == old(trace).steps@.len(),
            forall|j: int| 0 <= j < old(trace).steps@.len() ==> #[trigger] step_matches(old(trace).steps@[j], j as nat, trace_state(*old(trace)).0[j]),
        ensures
            final(trace).task_id == old(trace).task_id,
            final(trace).task_type == old(trace).task_type,
            trace_state(*final(trace)) == scan_step(trace_state(*old(trace)), chars@.subrange(lo as int, hi as int)),
            trace_state(*final(trace)).0.len() == final(trace).steps@.len(),
            forall|j: int| 0 <= j < final(trace).steps@.len() ==> #[trigger] step_matches(final(trace).steps@[j], j as nat, trace_state(*final(trace)).0[j]),
    {
        let (a, b) = trim_bounds(chars, lo, hi);
        if a == b {
            return;
        }
        let line = copy_range(chars, a, b);
        proof {
            reveal_strlit("answer:");
            reveal_strlit("Answer:");
        }
        if has_prefix(&line, "answer:") || has_prefix(&line, "Answer:") {
            let (x, y) = trim_bounds(&line, 7, line.len());
            assert(line@.subrange(7, line@.len() as int) == line@.skip(7));
            trace.final_answer = Some(chars_to_string(&copy_range(&line, x, y)));
        } else {
            let idx = trace.steps.len();
            let st = line_to_step(idx, &line);
            let ghost before = trace.steps@;
            trace.push_step(st);
            assert(trace.steps@.map_values(|st: ReasoningStep| st.text@) == before.map_values(
                |st: ReasoningStep| st.text@,
            ).push(line@));
        }
    }
}

/// A parsed trace numbers its steps `0, 1, 2, ...`.
pub proof fn lemma_parsed_indices(t: ReasoningTrace, task_id: Seq<char>, task_type: Seq<char>, text: Seq<char>)
    requires
        parsed_trace(t, task_id, task_type, text),
    ensures
        crate::reasoning::indices_well_formed(t.steps@),
{
    let sc = scan_lines(split_lines(text));
    assert forall|i: int| 0 <= i < t.steps@.len() implies #[trigger] t.steps@[i].index == i by {
        assert(step_matches(t.steps@[i], i as nat, sc.0[i]));
    }
}

/// Parse `text` into a trace for the given task id/type (see
/// [`TraceParser::parse`]).
pub fn parse_trace(task_id: &str, task_type: &str, text: &str) -> (r: Result<ReasoningTrace, ParseError>)
    ensures
        r matches Ok(t) && parsed_trace(t, task_id@, task_type@, text@),
{
    TraceParser::new().parse(task_id, task_type, text)
}

} // verus!
