//! The decisions of the generation loop, apart from the forward pass and
//! sampling: which tokens to feed next, when to stop, which program a step
//! runs, which blocks to prefetch, and the router signals read off the
//! activation log.
use vstd::prelude::*;

use crate::error::AbyssResult;
use crate::layer_program::{sequential_steps, LayerId, LayerProgram};
use crate::reasoning::{unit, Millionths};
use crate::router::{feature_values, routed_steps, HeuristicRouter};
use crate::tokens::{Position, TokenId};
use crate::usage_stats::ActivationLog;

verus! {

/// The state of one generation: the prompt followed by the tokens generated
/// so far, how much of it the model has already consumed, and whether the
/// loop has stopped.
#[derive(Debug)]
pub struct GenerationLoop {
    prompt_len: usize,
    seq: Vec<u32>,
    processed: usize,
    steps: usize,
    max_new_tokens: usize,
    max_context: usize,
    eos: u32,
    done: bool,
}

impl GenerationLoop {
    #[verifier::type_invariant]
    spec fn wf(self) -> bool {
        &&& self.prompt_len <= self.seq@.len()
        &&& self.processed <= self.seq@.len()
        &&& self.seq@.len() - self.prompt_len <= self.steps <= self.max_new_tokens
        &&& forall|i: int| self.prompt_len <= i < self.seq@.len() ==> #[trigger] self.seq@[i] != self.eos
        &&& (self.seq@.len() > self.prompt_len ==> self.processed == self.seq@.len() - 1)
        &&& (self.seq@.len() == self.prompt_len ==> self.processed == 0)
        &&& (self.steps >= self.max_new_tokens ==> self.done)
        &&& (!self.done ==> (self.seq@.len() == self.prompt_len || self.seq@.len()
            < self.max_context))
        &&& (self.seq@.len() <= self.max_context || self.seq@.len() <= self.prompt_len + 1)
    }

    /// Prompt and generated tokens.
    pub closed spec fn seq_view(&self) -> Seq<u32> {
        self.seq@
    }

    /// The tokens generated so far.
    pub closed spec fn generated_view(&self) -> Seq<u32> {
        self.seq@.skip(self.prompt_len as int)
    }

    /// Where the next forward step starts in the sequence.
    pub closed spec fn processed_view(&self) -> usize {
        self.processed
    }

    /// Number of tokens sampled so far (an end-of-sequence token included).
    pub closed spec fn steps_view(&self) -> usize {
        self.steps
    }

    /// Whether the loop has stopped.
    pub closed spec fn done_view(&self) -> bool {
        self.done
    }

    /// The limits: new tokens, context length, end-of-sequence id.
    pub closed spec fn limits(&self) -> (usize, usize, u32) {
        (self.max_new_tokens, self.max_context, self.eos)
    }

    /// The prompt.
    pub closed spec fn prompt_view(&self) -> Seq<u32> {
        self.seq@.take(self.prompt_len as int)
    }

    /// What holds of every state: the sequence is the prompt followed by
    /// the generated tokens, no more tokens were generated than sampled nor
    /// sampled than allowed, no generated token is the end-of-sequence id,
    /// the loop has stopped once the allowance is used up, and the sequence
    /// is no longer than the context (or than the prompt and one token, when
    /// the prompt alone fills the context).
    pub open spec fn consistent(&self) -> bool {
        &&& self.seq_view() == self.prompt_view() + self.generated_view()
        &&& self.generated_view().len() <= self.steps_view() <= self.limits().0
        &&& !self.generated_view().contains(self.limits().2)
        &&& (self.steps_view() >= self.limits().0 ==> self.done_view())
        &&& (self.seq_view().len() <= self.limits().1 || self.seq_view().len()
            <= self.prompt_view().len() + 1)
    }

    proof fn lemma_consistent(&self)
        requires
            self.wf(),
        ensures
            self.consistent(),
    {
        assert(self.seq@ =~= self.seq@.take(self.prompt_len as int) + self.seq@.skip(
            self.prompt_len as int,
        ));
        let gen = self.generated_view();
        if gen.contains(self.eos) {
            let t = choose|t: int| 0 <= t < gen.len() && gen[t] == self.eos;
            assert(self.seq@[self.prompt_len + t] == self.eos);
        }
    }

    /// Start generating after `prompt`, for at most `max_new_tokens` tokens,
    /// stopping early at `eos` or once the sequence reaches `max_context`.
    pub fn start(prompt: &Vec<u32>, max_new_tokens: usize, max_context: usize, eos: u32) -> (g:
        GenerationLoop)
        ensures
            g.seq_view() == prompt@,
            g.prompt_view() == prompt@,
            g.consistent(),
            g.generated_view() == Seq::<u32>::empty(),
            g.processed_view() == 0,
            g.steps_view() == 0,
            g.done_view() == (max_new_tokens == 0),
            g.limits() == (max_new_tokens, max_context, eos),
    {
        let seq = prompt.clone();
        assert(seq@ == prompt@);
        let g = GenerationLoop {
            prompt_len: seq.len(),
            seq,
            processed: 0,
            steps: 0,
            max_new_tokens,
            max_context,
            eos,
            done: max_new_tokens == 0,
        };
        assert(g.seq@.skip(g.prompt_len as int) =~= Seq::<u32>::empty());
        assert(g.seq@.take(g.prompt_len as int) =~= g.seq@);
        proof {
            g.lemma_consistent();
        }
        g
    }

    /// Whether the loop has stopped.
    pub fn is_done(&self) -> (b: bool)
        ensures
            b == self.done_view(),
    {
        self.done
    }

    /// The tokens the next forward step consumes (those not yet processed)
    /// and the position of the first of them.
    pub fn pending(&self) -> (r: (Vec<u32>, usize))
        ensures
            r.0@ == self.seq_view().skip(self.processed_view() as int),
            r.1 == self.processed_view(),
    {
        proof {
            use_type_invariant(self);
        }
        let n = self.seq.len();
        let mut v: Vec<u32> = Vec::new();
        let mut i = self.processed;
        while i < n
            invariant
                n == self.seq@.len(),
                self.processed <= i <= n,
                v@ == self.seq@.subrange(self.processed as int, i as int),
            decreases n - i,
        {
            v.push(self.seq[i]);
            i = i + 1;
        }
        (v, self.processed)
    }

    /// Length of the sequence so far (prompt and generated tokens).
    pub fn seq_len(&self) -> (n: usize)
        ensures
            n == self.seq_view().len(),
    {
        self.seq.len()
    }

    /// Take the token sampled by a forward step. An end-of-sequence token
    /// stops the loop and is not kept; any other token is appended, and the
    /// loop stops once the sequence reaches the context length. The loop
    /// also stops after `max_new_tokens` sampled tokens.
    pub fn advance(self, next: u32) -> (g: GenerationLoop)
        requires
            !self.done_view(),
        ensures
            g.limits() == self.limits(),
            g.prompt_view() == self.prompt_view(),
            g.consistent(),
            g.steps_view() == self.steps_view() + 1,
            next == self.limits().2 ==> g.seq_view() == self.seq_view() && g.generated_view()
                == self.generated_view() && g.processed_view() == self.processed_view()
                && g.done_view(),
            next != self.limits().2 ==> g.seq_view() == self.seq_view().push(next)
                && g.generated_view() == self.generated_view().push(next) && g.processed_view()
                == self.seq_view().len() && g.done_view() == (g.seq_view().len() >= self.limits().1
                || g.steps_view() >= self.limits().0),
    {
        proof {
            use_type_invariant(&self);
        }
        let ghost old_seq = self.seq@;
        let ghost old_processed = self.processed;
        let GenerationLoop {
            prompt_len,
            mut seq,
            processed,
            steps,
            max_new_tokens,
            max_context,
            eos,
            done,
        } = self;
        let steps = steps + 1;
        let g = if next == eos {
            GenerationLoop {
                prompt_len,
                seq,
                processed,
                steps,
                max_new_tokens,
                max_context,
                eos,
                done: true,
            }
        } else {
            let processed = seq.len();
            seq.push(next);
            let done = seq.len() >= max_context || steps >= max_new_tokens;
            assert(seq@.skip(prompt_len as int) =~= old_seq.skip(prompt_len as int).push(next));
            assert(seq@.take(prompt_len as int) =~= old_seq.take(prompt_len as int));
            GenerationLoop {
                prompt_len,
                seq,
                processed,
                steps,
                max_new_tokens,
                max_context,
                eos,
                done,
            }
        };
        proof {
            use_type_invariant(&g);
            g.lemma_consistent();
        }
        g
    }

    /// The tokens generated so far.
    pub fn generated(&self) -> (v: Vec<u32>)
        ensures
            v@ == self.generated_view(),
    {
        proof {
            use_type_invariant(self);
        }
        let n = self.seq.len();
        let mut v: Vec<u32> = Vec::new();
        let mut i = self.prompt_len;
        while i < n
            invariant
                n == self.seq@.len(),
                self.prompt_len <= i <= n,
                v@ == self.seq@.subrange(self.prompt_len as int, i as int),
            decreases n - i,
        {
            v.push(self.seq[i]);
            i = i + 1;
        }
        assert(v@ == self.seq@.skip(self.prompt_len as int));
        v
    }
}

/// The sum of the logged magnitudes.
pub open spec fn magnitude_sum(log: Seq<(LayerId, Millionths)>) -> nat
    decreases log.len(),
{
    if log.len() == 0 {
        0
    } else {
        magnitude_sum(log.drop_last()) + log.last().1.0 as nat
    }
}

/// The residual-magnitude signal of a step: the mean logged magnitude,
/// capped at 1 (rounded down); 0.3 for an empty log.
pub open spec fn residual_of(log: Seq<(LayerId, Millionths)>) -> int {
    if log.len() == 0 {
        300_000
    } else {
        let m = (magnitude_sum(log) / log.len()) as int;
        if m > unit() {
            unit()
        } else {
            m
        }
    }
}

/// The residual-magnitude signal for the next step: that of the last
/// logged step, or 0.3 before the first step.
pub open spec fn last_residual_of(history: Seq<ActivationLog>) -> int {
    if history.len() == 0 {
        300_000
    } else {
        residual_of(history.last()@)
    }
}

/// Sum of squared deviations of the logged magnitudes from `mean`.
pub open spec fn squared_deviations(log: Seq<(LayerId, Millionths)>, mean: int) -> nat
    decreases log.len(),
{
    if log.len() == 0 {
        0
    } else {
        let d = log.last().1.0 as int - mean;
        squared_deviations(log.drop_last(), mean) + (d * d) as nat
    }
}

/// The entropy signal of a step: ten times the variance of the logged
/// magnitudes around their (rounded down) mean, capped at 1; 0.3 for a log
/// of fewer than two entries.
pub open spec fn entropy_of(log: Seq<(LayerId, Millionths)>) -> int {
    if log.len() < 2 {
        300_000
    } else {
        let n = log.len() as int;
        let mean = (magnitude_sum(log) / log.len()) as int;
        let v = (10 * squared_deviations(log, mean) as int) / (n * unit());
        if v > unit() {
            unit()
        } else {
            v
        }
    }
}

/// The entropy signal for the next step: that of the last logged step, or
/// 0.3 before the first step.
pub open spec fn last_entropy_of(history: Seq<ActivationLog>) -> int {
    if history.len() == 0 {
        300_000
    } else {
        entropy_of(history.last()@)
    }
}

fn mean_magnitude(log: &ActivationLog) -> (m: u64)
    requires
        log@.len() > 0,
    ensures
        m == magnitude_sum(log@) / log@.len(),
        m <= 0xffff_ffff,
{
    let n = log.len();
    let mut sum: u128 = 0;
    for i in 0..n
        invariant
            n == log@.len(),
            sum == magnitude_sum(log@.take(i as int)),
            sum <= i * 0xffff_ffff,
    {
        assert(log@.take(i + 1).drop_last() == log@.take(i as int));
        sum = sum + log[i].1.0 as u128;
    }
    assert(log@.take(n as int) == log@);
    let q = sum / n as u128;
    assert(q <= 0xffff_ffff) by (nonlinear_arith)
        requires
            q == sum / (n as u128),
            sum <= n * 0xffff_ffff,
            n > 0,
    ;
    q as u64
}

/// The residual-magnitude signal for the next step (see
/// [`last_residual_of`]).
pub fn last_residual_magnitude(history: &Vec<ActivationLog>) -> (m: Millionths)
    ensures
        m.0 == last_residual_of(history@),
{
    if history.len() == 0 {
        return Millionths(300_000);
    }
    let log = &history[history.len() - 1];
    if log.len() == 0 {
        return Millionths(300_000);
    }
    let mean = mean_magnitude(log);
    if mean > 1_000_000 {
        Millionths(1_000_000)
    } else {
        Millionths(mean as u32)
    }
}

/// The entropy signal for the next step (see [`last_entropy_of`]).
pub fn activation_entropy(history: &Vec<ActivationLog>) -> (m: Millionths)
    ensures
        m.0 == last_entropy_of(history@),
{
    if history.len() == 0 {
        return Millionths(300_000);
    }
    let log = &history[history.len() - 1];
    let n = log.len();
    if n < 2 {
        return Millionths(300_000);
    }
    let mean = mean_magnitude(log);
    let ghost g_mean = mean as int;
    // Once the sum reaches `cap` the signal is 1 whatever follows.
    let cap: u128 = n as u128 * 100_000_000_000;
    let mut sum: u128 = 0;
    for i in 0..n
        invariant
            n == log@.len(),
            n >= 2,
            g_mean == mean as int,
            mean <= 0xffff_ffff,
            cap == n * 100_000_000_000,
            sum == (if squared_deviations(log@.take(i as int), g_mean) < cap {
                squared_deviations(log@.take(i as int), g_mean)
            } else {
                cap as nat
            }),
    {
        assert(log@.take(i + 1).drop_last() == log@.take(i as int));
        let x = log[i].1.0 as u64;
        let d: u64 = if x >= mean {
            x - mean
        } else {
            mean - x
        };
        assert(d * d <= 0xffff_ffff * 0xffff_ffff) by (nonlinear_arith)
            requires
                d <= 0xffff_ffff,
        ;
        let sq = d as u128 * d as u128;
        assert((x as int - g_mean) * (x as int - g_mean) == sq) by (nonlinear_arith)
            requires
                d == (if x >= mean { x - mean } else { mean - x }),
                sq == d * d,
                g_mean == mean,
        ;
        let next = sum + sq;
        sum = if next >= cap {
            cap
        } else {
            next
        };
    }
    assert(log@.take(n as int) == log@);
    let ghost total: int = squared_deviations(log@, g_mean) as int;
    let v: u128 = if sum >= cap {
        1_000_000
    } else {
        (10 * sum) / (n as u128 * 1_000_000)
    };
    proof {
        let nn = n as int;
        if sum >= cap {
            assert(total >= cap);
            assert((10 * total) / (nn * unit()) >= unit()) by (nonlinear_arith)
                requires
                    total >= nn * 100_000_000_000,
                    nn >= 2,
                    unit() == 1_000_000,
            ;
        } else {
            assert(total == sum);
            assert((10 * total) / (nn * unit()) < unit()) by (nonlinear_arith)
                requires
                    total < nn * 100_000_000_000,
                    nn >= 2,
                    unit() == 1_000_000,
            ;
        }
    }
    Millionths(v as u32)
}

/// The zero-based block indices a program runs, each once, in order of
/// first use (what the prefetcher loads ahead of a step).
pub fn unique_blocks(program: &LayerProgram) -> (r: Vec<usize>)
    ensures
        r@.no_duplicates(),
        forall|x: usize| #[trigger]
            r@.contains(x) <==> exists|i: int|
                0 <= i < program.steps_view().len() && #[trigger] program.steps_view()[i].0 == x + 1,
{
    let steps = program.as_slice();
    let n = steps.len();
    let mut r: Vec<usize> = Vec::new();
    proof {
        assert forall|k: int| 0 <= k < n implies #[trigger] steps@[k].0 >= 1 by {
            assert(crate::layer_program::in_range(steps@[k], program.depth_view()));
        }
    }
    for i in 0..n
        invariant
            n == steps@.len(),
            steps@ == program.steps_view(),
            forall|k: int| 0 <= k < n ==> #[trigger] steps@[k].0 >= 1,
            r@.no_duplicates(),
            forall|x: usize| #[trigger]
                r@.contains(x) <==> exists|j: int| 0 <= j < i && #[trigger] steps@[j].0 == x + 1,
    {
        let b = (steps[i].0 - 1) as usize;
        let mut seen = false;
        let m = r.len();
        for j in 0..m
            invariant
                m == r@.len(),
                seen <==> exists|t: int| 0 <= t < j && r@[t] == b,
        {
            if r[j] == b {
                seen = true;
            }
        }
        let ghost before = r@;
        if !seen {
            r.push(b);
            assert forall|a: int, c: int| 0 <= a < c < r@.len() implies r@[a] != r@[c] by {
                if c == r@.len() - 1 {
                    assert(before.contains(r@[a]));
                }
            }
        }
        assert forall|x: usize| #[trigger]
            r@.contains(x) <==> exists|j: int| 0 <= j < i + 1 && #[trigger] steps@[j].0 == x + 1 by {
            if x == b {
                assert(steps@[i as int].0 == x + 1);
                if seen {
                    let t = choose|t: int| 0 <= t < m && r@[t] == b;
                    assert(r@[t] == x);
                } else {
                    assert(r@[r@.len() - 1] == x);
                }
            } else {
                if r@.contains(x) {
                    let t = choose|t: int| 0 <= t < r@.len() && r@[t] == x;
                    assert(before[t] == x);
                    assert(before.contains(x));
                }
                if before.contains(x) {
                    let t = choose|t: int| 0 <= t < before.len() && before[t] == x;
                    assert(r@[t] == x);
                }
                if exists|j: int| 0 <= j < i + 1 && #[trigger] steps@[j].0 == x + 1 {
                    let j = choose|j: int| 0 <= j < i + 1 && #[trigger] steps@[j].0 == x + 1;
                    if j == i {
                        assert(b == x);
                    }
                }
            }
        }
    }
    r
}

/// `r`, or the sequential program of `depth` when `r` failed (how a
/// step falls back from a failed routing decision).
pub fn or_sequential(r: AbyssResult<LayerProgram>, depth: u32) -> (p: AbyssResult<LayerProgram>)
    ensures
        r is Ok ==> p == r,
        r is Err ==> (p is Ok <==> depth >= 1) && (p matches Ok(q) ==> q.steps_view()
            == sequential_steps(depth as nat) && q.depth_view() == depth),
{
    match r {
        Ok(p) => Ok(p),
        Err(_) => LayerProgram::sequential(depth),
    }
}

/// The program the router picks for the next step: route the token at
/// position `seq_len` (truncated to 32 bits) with the given signals, falling
/// back to the sequential program of `depth` if routing fails.
pub fn choose_program(
    router: &HeuristicRouter,
    depth: u32,
    seq_len: usize,
    entropy: Millionths,
    residual: Millionths,
) -> (p: AbyssResult<LayerProgram>)
    ensures
        router.config().model_depth >= 1 ==> (p matches Ok(q) && q.depth_view()
            == router.config().model_depth && q.steps_view() == routed_steps(
            router.config(),
            feature_values(
                router.scales().0,
                router.scales().1,
                0,
                seq_len as u32,
                entropy.0,
                residual.0,
                false,
            ),
        )),
        router.config().model_depth == 0 ==> (p is Ok <==> depth >= 1) && (p matches Ok(q)
            ==> q.steps_view() == sequential_steps(depth as nat) && q.depth_view() == depth),
{
    #[verifier::truncate]
    let pos = seq_len as u32;
    let routed = router.route_token(TokenId(0), Position(pos), entropy, residual, false);
    or_sequential(routed, depth)
}

} // verus!
