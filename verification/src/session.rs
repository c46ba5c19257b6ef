//! The decisions of the command-line sessions around the engine: prompt
//! formatting, the token fallback used without a tokenizer, the forced
//! program read from a diagnostic override, and the self-correction loop
//! that drafts, verifies and regenerates.
use vstd::prelude::*;

use crate::error::AbyssResult;
use crate::layer_program::{program_error, valid_program, LayerId, LayerProgram};
use crate::number::{all_digits, digit_val, fold_digits};
use crate::parser::{lemma_parsed_indices, parse_trace, parsed_trace};
use crate::reasoning::{ReasoningTrace, VerificationResult, VerificationStatus};
use crate::text::{
    append_chars, append_str, chars_to_string, copy_range, equals_str, nat_to_decimal,
    push_decimal, str_to_chars, trim, trim_bounds,
};
use crate::verdict::{verdict_of, verify};
use vstd::string::StringSliceAdditionalSpecFns;

verus! {

/// The Qwen2 chat template around a user message.
pub open spec fn chat_prompt(user: Seq<char>) -> Seq<char> {
    "<|im_start|>system\nYou are a helpful assistant.<|im_end|>\n<|im_start|>user\n"@ + user
        + "<|im_end|>\n<|im_start|>assistant\n"@
}

/// Wrap a user prompt in the Qwen2 chat template (instruct models expect
/// it), keeping the explicit `<|im_end|>` turn boundaries.
pub fn qwen_chat_prompt(user: &str) -> (s: String)
    ensures
        s@ == chat_prompt(user@),
{
    let mut v = str_to_chars(
        "<|im_start|>system\nYou are a helpful assistant.<|im_end|>\n<|im_start|>user\n",
    );
    append_str(&mut v, user);
    append_str(&mut v, "<|im_end|>\n<|im_start|>assistant\n");
    chars_to_string(&v)
}

/// The prompt text for a prompt format: the chat template for `chat`, the
/// prompt itself for any other format.
pub fn prompt_text(format: &str, prompt: &str) -> (s: String)
    ensures
        s@ == (if format@ == "chat"@ {
            chat_prompt(prompt@)
        } else {
            prompt@
        }),
{
    if equals_str(&str_to_chars(format), "chat") {
        qwen_chat_prompt(prompt)
    } else {
        chars_to_string(&str_to_chars(prompt))
    }
}

/// Whether a generation uses the dynamic router, and the name of its mode:
/// dynamic only when asked for and not forced sequential.
pub fn generation_mode(sequential: bool, dynamic: bool) -> (r: (bool, &'static str))
    ensures
        r.0 == (dynamic && !sequential),
        r.1@ == (if dynamic && !sequential {
            "dynamic"@
        } else {
            "sequential"@
        }),
{
    if dynamic && !sequential {
        (true, "dynamic")
    } else {
        (false, "sequential")
    }
}

/// Token ids for text without a tokenizer: one per UTF-8 byte.
pub fn byte_tokens(text: &str) -> (v: Vec<u32>)
    ensures
        v@.len() == text.spec_bytes().len(),
        forall|i: int| 0 <= i < v@.len() ==> #[trigger] v@[i] == text.spec_bytes()[i] as u32,
{
    let b = text.as_bytes();
    let n = b.len();
    let mut v: Vec<u32> = Vec::new();
    for i in 0..n
        invariant
            n == b@.len(),
            b@ == text.spec_bytes(),
            v@.len() == i,
            forall|k: int| 0 <= k < i ==> #[trigger] v@[k] == b@[k] as u32,
    {
        v.push(b[i] as u32);
    }
    v
}

/// Text for token ids without a tokenizer: each id truncated to a byte and
/// read as the character with that code (Latin-1).
pub fn byte_text(tokens: &Vec<u32>) -> (s: String)
    ensures
        s@.len() == tokens@.len(),
        forall|i: int| 0 <= i < s@.len() ==> #[trigger] s@[i] == ((tokens@[i] as u8) as char),
{
    let n = tokens.len();
    let mut v: Vec<char> = Vec::new();
    for i in 0..n
        invariant
            n == tokens@.len(),
            v@.len() == i,
            forall|k: int| 0 <= k < i ==> #[trigger] v@[k] == ((tokens@[k] as u8) as char),
    {
        #[verifier::truncate]
        let b = tokens[i] as u8;
        v.push(b as char);
    }
    chars_to_string(&v)
}

/// The pieces of `s` between commas (one empty piece for empty text).
pub open spec fn split_commas(s: Seq<char>) -> Seq<Seq<char>>
    decreases s.len(),
{
    if s.len() == 0 {
        seq![Seq::<char>::empty()]
    } else {
        let r = split_commas(s.drop_last());
        if s.last() == ',' {
            r.push(Seq::<char>::empty())
        } else {
            r.update(r.len() - 1, r.last().push(s.last()))
        }
    }
}

proof fn lemma_split_nonempty(s: Seq<char>)
    ensures
        split_commas(s).len() >= 1,
    decreases s.len(),
{
    if s.len() > 0 {
        lemma_split_nonempty(s.drop_last());
    }
}

/// What `u32::from_str` accepts: an optional `+`, then one or more ASCII
/// digits whose value fits in 32 bits.
pub open spec fn parse_u32_spec(t: Seq<char>) -> Option<u32> {
    let body = if t.len() > 0 && t[0] == '+' {
        t.drop_first()
    } else {
        t
    };
    if body.len() == 0 || !all_digits(body) {
        None
    } else if fold_digits(0, body) <= u32::MAX {
        Some(fold_digits(0, body) as u32)
    } else {
        None
    }
}

/// Parse a decimal `u32` (see [`parse_u32_spec`]).
pub fn parse_u32(t: &Vec<char>) -> (r: Option<u32>)
    ensures
        r == parse_u32_spec(t@),
{
    let n = t.len();
    let start: usize = if n > 0 && t[0] == '+' {
        1
    } else {
        0
    };
    let ghost body = if t@.len() > 0 && t@[0] == '+' {
        t@.drop_first()
    } else {
        t@
    };
    assert(body == t@.skip(start as int));
    if start == n {
        return None;
    }
    let cap: u64 = 0x1_0000_0000;
    let mut acc: u64 = 0;
    let mut i = start;
    while i < n
        invariant
            start <= i <= n,
            start < n,
            n == t@.len(),
            body == t@.skip(start as int),
            body == (if t@.len() > 0 && t@[0] == '+' {
                t@.drop_first()
            } else {
                t@
            }),
            cap == 0x1_0000_0000,
            all_digits(t@.subrange(start as int, i as int)),
            acc == (if fold_digits(0, t@.subrange(start as int, i as int)) < cap {
                fold_digits(0, t@.subrange(start as int, i as int))
            } else {
                cap as nat
            }),
        decreases n - i,
    {
        let c = t[i];
        if !('0' <= c && c <= '9') {
            proof {
                assert(body[i - start] == c);
                assert(!crate::number::is_digit(body[i - start]));
            }
            return None;
        }
        let d = (c as u32 - '0' as u32) as u64;
        assert(t@.subrange(start as int, i + 1).drop_last() == t@.subrange(start as int, i as int));
        let next = acc * 10 + d;
        acc = if next >= cap {
            cap
        } else {
            next
        };
        i = i + 1;
    }
    assert(t@.subrange(start as int, n as int) == body);
    if acc >= cap {
        None
    } else {
        Some(acc as u32)
    }
}

/// The layers named by a comma-separated override, if every piece
/// (trimmed) is a `u32`.
pub open spec fn override_layers(text: Seq<char>) -> Option<Seq<LayerId>> {
    let pieces = split_commas(text);
    if forall|i: int| 0 <= i < pieces.len() ==> #[trigger] parse_u32_spec(trim(pieces[i])) is Some {
        Some(pieces.map_values(|p: Seq<char>| LayerId(parse_u32_spec(trim(p))->0)))
    } else {
        None
    }
}

fn split_on_commas(s: &Vec<char>) -> (r: Vec<Vec<char>>)
    ensures
        r@.len() == split_commas(s@).len(),
        forall|i: int| 0 <= i < r@.len() ==> #[trigger] r@[i]@ == split_commas(s@)[i],
{
    let n = s.len();
    let mut done: Vec<Vec<char>> = Vec::new();
    let mut cur: Vec<char> = Vec::new();
    for i in 0..n
        invariant
            n == s@.len(),
            done@.len() + 1 == split_commas(s@.take(i as int)).len(),
            forall|k: int| 0 <= k < done@.len() ==> #[trigger] done@[k]@ == split_commas(s@.take(i as int))[k],
            cur@ == split_commas(s@.take(i as int)).last(),
    {
        proof {
            lemma_split_nonempty(s@.take(i as int));
        }
        assert(s@.take(i + 1).drop_last() == s@.take(i as int));
        if s[i] == ',' {
            let mut fresh: Vec<char> = Vec::new();
            std::mem::swap(&mut fresh, &mut cur);
            done.push(fresh);
        } else {
            cur.push(s[i]);
        }
    }
    assert(s@.take(n as int) == s@);
    proof {
        lemma_split_nonempty(s@);
    }
    done.push(cur);
    done
}

/// A forced program for every step, read from a diagnostic override such as
/// `1,2,3,3,4`: when every comma-separated piece is a `u32`, the program of
/// those layers validated against `depth`; otherwise none.
pub fn program_override(text: &str, depth: u32) -> (r: Option<AbyssResult<LayerProgram>>)
    ensures
        r is Some <==> override_layers(text@) is Some,
        r matches Some(p) ==> (p is Ok <==> valid_program(override_layers(text@)->0, depth)),
        r matches Some(p) ==> (p matches Ok(q) ==> q.steps_view() == override_layers(text@)->0
            && q.depth_view() == depth),
        r matches Some(p) ==> (p matches Err(e) ==> program_error(
            override_layers(text@)->0,
            depth,
            e,
        )),
{
    let chars = str_to_chars(text);
    let pieces = split_on_commas(&chars);
    let ghost sp = split_commas(text@);
    let m = pieces.len();
    let mut ids: Vec<LayerId> = Vec::new();
    for i in 0..m
        invariant
            m == pieces@.len(),
            m == sp.len(),
            sp == split_commas(text@),
            forall|k: int| 0 <= k < m ==> #[trigger] pieces@[k]@ == sp[k],
            ids@.len() == i,
            forall|k: int| 0 <= k < i ==> #[trigger] parse_u32_spec(trim(sp[k])) is Some,
            forall|k: int| 0 <= k < i ==> #[trigger] ids@[k] == LayerId(parse_u32_spec(trim(sp[k]))->0),
    {
        let p = &pieces[i];
        let (lo, hi) = trim_bounds(p, 0, p.len());
        assert(p@.subrange(0, p@.len() as int) == p@);
        let t = copy_range(p, lo, hi);
        match parse_u32(&t) {
            Some(v) => {
                ids.push(LayerId(v));
            },
            None => {
                assert(parse_u32_spec(trim(sp[i as int])) is None);
                return None;
            },
        }
    }
    assert(ids@ == sp.map_values(|p: Seq<char>| LayerId(parse_u32_spec(trim(p))->0)));
    Some(LayerProgram::new(ids, depth))
}

/// What the self-correction loop does after verifying one draft.
#[derive(Debug, Clone)]
pub enum SolveStep {
    /// Stop with this reasoning text and final answer.
    Finish { text: String, answer: String },
    /// Draft again with this correction hint appended to the prompt; that
    /// draft is judged like any other.
    Correct { hint: String },
    /// Draft again from the prompt.
    Retry,
}

/// The task id of attempt `n`: `task-{n}`.
pub open spec fn attempt_task_id(n: nat) -> Seq<char> {
    "task-"@ + nat_to_decimal(n)
}

/// The decision after attempt `attempt` whose draft `text` parsed to a
/// trace with final answer `final_answer` and was verified as `v`: a
/// consistent draft is accepted; the third attempt is accepted whatever
/// its verdict; an earlier inconsistent draft with a correction hint is
/// corrected, one without is drafted again. An accepted draft's answer is
/// its final answer, or the whole text when it has none.
pub open spec fn solve_decision(
    attempt: nat,
    text: Seq<char>,
    final_answer: Option<String>,
    v: VerificationResult,
    step: SolveStep,
) -> bool {
    let answer = match final_answer {
        Some(a) => a@,
        None => text,
    };
    if v.status == VerificationStatus::Consistent || attempt == 2 {
        step matches SolveStep::Finish { text: t, answer: a } && t@ == text && a@ == answer
    } else {
        match v.correction_hint {
            Some(h) => step matches SolveStep::Correct { hint } && hint@ == h@,
            None => step is Retry,
        }
    }
}

/// Verify the draft of attempt `attempt` and decide what the
/// self-correction loop does next (see [`solve_decision`]).
pub fn judge_attempt(attempt: usize, text: &str) -> (r: AbyssResult<SolveStep>)
    ensures
        r matches Ok(step) && exists|t: ReasoningTrace, v: VerificationResult|
            #[trigger] parsed_trace(t, attempt_task_id(attempt as nat), "math"@, text@)
                && #[trigger] verdict_of(t, v) && solve_decision(
                attempt as nat,
                text@,
                t.final_answer,
                v,
                step,
            ),
{
    let mut id = str_to_chars("task-");
    push_decimal(&mut id, attempt as u128);
    let id_s = chars_to_string(&id);
    let trace = match parse_trace(id_s.as_str(), "math", text) {
        Ok(t) => t,
        Err(_) => ReasoningTrace::new("task", "math"),
    };
    proof {
        lemma_parsed_indices(trace, id_s@, "math"@, text@);
    }
    let verdict = match verify(&trace) {
        Ok(v) => v,
        Err(e) => {
            return Err(e);
        },
    };
    let whole = chars_to_string(&str_to_chars(text));
    let step = if verdict.status == VerificationStatus::Consistent || attempt == 2 {
        let answer = match &trace.final_answer {
            Some(a) => a.clone(),
            None => whole.clone(),
        };
        SolveStep::Finish { text: whole, answer }
    } else {
        match &verdict.correction_hint {
            Some(h) => SolveStep::Correct { hint: h.clone() },
            None => SolveStep::Retry,
        }
    };
    assert(parsed_trace(trace, attempt_task_id(attempt as nat), "math"@, text@));
    assert(verdict_of(trace, verdict));
    Ok(step)
}

/// The text appended to the prompt to correct a draft: `\nCorrection: {hint}\n`.
pub fn correction_text(hint: &str) -> (s: String)
    ensures
        s@ == "\nCorrection: "@ + hint@ + "\n"@,
{
    let mut v = str_to_chars("\nCorrection: ");
    append_str(&mut v, hint);
    append_str(&mut v, "\n");
    chars_to_string(&v)
}

/// How many drafts a self-correction session judges at most.
pub const MAX_DRAFTS: usize = 3;

/// Where a self-correction session stands: how many drafts it has judged.
pub struct SolveState {
    judged: usize,
}

impl SolveState {
    #[verifier::type_invariant]
    spec fn inv(self) -> bool {
        self.judged <= MAX_DRAFTS
    }

    /// The number of drafts judged so far.
    pub closed spec fn judged_view(&self) -> nat {
        self.judged as nat
    }

    /// A session that has judged no draft yet.
    pub fn new() -> (s: SolveState)
        ensures
            s.judged_view() == 0,
    {
        SolveState { judged: 0 }
    }

    /// The number of drafts judged so far (at most [`MAX_DRAFTS`]).
    pub fn drafts_judged(&self) -> (n: usize)
        ensures
            n == self.judged_view(),
            n <= MAX_DRAFTS,
    {
        proof {
            use_type_invariant(self);
        }
        self.judged
    }
}

/// One turn of the self-correction loop: judge `draft`, the next draft of
/// the session in `state`, and say what comes next (see
/// [`solve_decision`]). The draft is the session's `judged_view()`-th
/// (counting from 0) and is judged as attempt number that; the third draft
/// always finishes the session, so a session judges at most
/// [`MAX_DRAFTS`] drafts, and a session finishes on a consistent draft or on
/// its third.
pub fn solve_step(state: SolveState, draft: &str) -> (r: (SolveState, SolveStep))
    requires
        state.judged_view() < MAX_DRAFTS,
    ensures
        r.0.judged_view() == state.judged_view() + 1,
        exists|t: ReasoningTrace, v: VerificationResult|
            #[trigger] parsed_trace(t, attempt_task_id(state.judged_view()), "math"@, draft@)
                && #[trigger] verdict_of(t, v) && solve_decision(
                state.judged_view(),
                draft@,
                t.final_answer,
                v,
                r.1,
            ),
        !(r.1 is Finish) ==> r.0.judged_view() < MAX_DRAFTS,
{
    let n = state.judged;
    let step = match judge_attempt(n, draft) {
        Ok(step) => step,
        Err(e) => {
            proof {
                assert(false);
            }
            SolveStep::Retry
        },
    };
    (SolveState { judged: n + 1 }, step)
}

/// What the loop promises of a judged draft: a draft that does not finish
/// the session is not consistent and is not the third; a draft that
/// finishes it is consistent or is the third, and the session's answer is
/// the draft's final answer (its whole text when it has none).
pub proof fn lemma_solve_outcome(
    attempt: nat,
    text: Seq<char>,
    final_answer: Option<String>,
    v: VerificationResult,
    step: SolveStep,
)
    requires
        attempt < MAX_DRAFTS,
        solve_decision(attempt, text, final_answer, v, step),
    ensures
        !(step is Finish) ==> v.status != VerificationStatus::Consistent && attempt + 1 < MAX_DRAFTS,
        step is Finish ==> v.status == VerificationStatus::Consistent || attempt + 1 == MAX_DRAFTS,
        step matches SolveStep::Finish { text: t, answer: a } ==> t@ == text && a@ == match final_answer {
            Some(f) => f@,
            None => text,
        },
{
}

/// The report of a self-correction session.
pub fn solve_report(text: &str, answer: &str) -> (s: String)
    ensures
        s@ == "=== TPT Abyss reasoning ===\n"@ + text@ + "\n\nFinal answer: "@ + answer@,
{
    let mut v = str_to_chars("=== TPT Abyss reasoning ===\n");
    append_str(&mut v, text);
    append_str(&mut v, "\n\nFinal answer: ");
    append_str(&mut v, answer);
    chars_to_string(&v)
}

} // verus!
