//! Layer programs: the ordered list of 1-based layer ids that one forward
//! pass executes, e.g. `[1, 2, 3, 3, 4]` where layer 3 runs twice.
use vstd::prelude::*;

use crate::error::{AbyssError, AbyssResult};
use crate::text::{append_str, chars_to_string, nat_to_decimal, push_decimal};

verus! {

/// A 1-based model layer index (model layer 1 ..= N).
#[derive(Debug, Clone, Copy, PartialEq, Eq, Structural, PartialOrd, Ord, Hash)]
pub struct LayerId(pub u32);

/// The text `L<n>` that names layer `n`.
pub open spec fn layer_text(n: u32) -> Seq<char> {
    seq!['L'] + nat_to_decimal(n as nat)
}

impl LayerId {
    /// Construct a layer id from a 0-based raw index.
    pub fn from_zero_based(raw: u32) -> (id: LayerId)
        requires
            raw < u32::MAX,
        ensures
            id.0 == raw + 1,
    {
        LayerId(raw + 1)
    }

    /// The 0-based index used for weight tensor selection (saturating at 0).
    pub fn as_zero_based(self) -> (raw: u32)
        ensures
            raw == (if self.0 == 0 { 0 } else { self.0 - 1 }),
    {
        self.0.saturating_sub(1)
    }

    /// The display text `L<n>`.
    pub fn to_string(&self) -> (s: String)
        ensures
            s@ == layer_text(self.0),
    {
        let mut v: Vec<char> = Vec::new();
        v.push('L');
        push_decimal(&mut v, self.0 as u128);
        chars_to_string(&v)
    }
}

/// Whether `l` lies within `1 ..= depth`.
pub open spec fn in_range(l: LayerId, depth: u32) -> bool {
    1 <= l.0 && l.0 <= depth
}

/// A program is valid against `depth` when it is non-empty and every step
/// lies in `1 ..= depth`.
pub open spec fn valid_program(steps: Seq<LayerId>, depth: u32) -> bool {
    &&& steps.len() > 0
    &&& forall|i: int| 0 <= i < steps.len() ==> #[trigger] in_range(steps[i], depth)
}

/// The reason given for an empty program.
pub open spec fn empty_reason() -> Seq<char> {
    "program must contain at least one layer"@
}

/// The reason given for a step outside `1 ..= depth`.
pub open spec fn out_of_range_reason(l: u32, depth: u32) -> Seq<char> {
    "layer L"@ + nat_to_decimal(l as nat) + " out of range 1..="@ + nat_to_decimal(depth as nat)
}

/// `i` is the first step of `steps` outside `1 ..= depth`.
pub open spec fn first_out_of_range(steps: Seq<LayerId>, depth: u32, i: int) -> bool {
    &&& 0 <= i < steps.len()
    &&& !in_range(steps[i], depth)
    &&& forall|j: int| 0 <= j < i ==> #[trigger] in_range(steps[j], depth)
}

/// The error that validating `steps` against `depth` reports.
pub open spec fn program_error(steps: Seq<LayerId>, depth: u32, e: AbyssError) -> bool {
    &&& e is InvalidLayerProgram
    &&& if steps.len() == 0 {
        e->InvalidLayerProgram_reason@ == empty_reason()
    } else {
        exists|i: int|
            #[trigger] first_out_of_range(steps, depth, i) && e->InvalidLayerProgram_reason@ == out_of_range_reason(
                steps[i].0,
                depth,
            )
    }
}

/// The number of times `x` occurs in `s`.
pub open spec fn count_of(s: Seq<LayerId>, x: LayerId) -> nat
    decreases s.len(),
{
    if s.len() == 0 {
        0
    } else {
        count_of(s.drop_last(), x) + if s.last() == x {
            1nat
        } else {
            0nat
        }
    }
}

/// The largest number of occurrences among the first `n` steps of `s`
/// (0 when `n` is 0).
pub open spec fn max_repeat_upto(s: Seq<LayerId>, n: nat) -> nat
    decreases n,
{
    if n == 0 {
        0
    } else {
        let prev = max_repeat_upto(s, (n - 1) as nat);
        let c = count_of(s, s[n - 1]);
        if c > prev {
            c
        } else {
            prev
        }
    }
}

/// The sequence `1, 2, ..., depth`.
pub open spec fn sequential_steps(depth: nat) -> Seq<LayerId> {
    Seq::new(depth, |i: int| LayerId((i + 1) as u32))
}

/// Every step is the successor of the previous one.
pub open spec fn consecutive(s: Seq<LayerId>) -> bool {
    forall|i: int| 0 <= i < s.len() - 1 ==> #[trigger] s[i + 1].0 == s[i].0 + 1
}

/// The display text of a list of steps joined by `", "` (without brackets).
pub open spec fn join_layers(s: Seq<LayerId>) -> Seq<char>
    decreases s.len(),
{
    if s.len() == 0 {
        Seq::empty()
    } else if s.len() == 1 {
        layer_text(s[0].0)
    } else {
        join_layers(s.drop_last()) + ", "@ + layer_text(s.last().0)
    }
}

/// An execution plan: an ordered list of layer ids to run.
///
/// Programs are 1-based and validated to be non-empty and within
/// `[1, model_depth]`.
#[derive(Debug, PartialEq, Eq)]
pub struct LayerProgram {
    steps: Vec<LayerId>,
    model_depth: u32,
}

impl LayerProgram {
    #[verifier::type_invariant]
    spec fn well_formed(self) -> bool {
        valid_program(self.steps@, self.model_depth)
    }

    /// The steps of the program, in execution order.
    pub closed spec fn steps_view(&self) -> Seq<LayerId> {
        self.steps@
    }

    /// The depth the program was validated against.
    pub closed spec fn depth_view(&self) -> u32 {
        self.model_depth
    }

    /// Whether the program runs layers `1..=depth` once each, in order.
    pub open spec fn is_sequential_spec(&self) -> bool {
        &&& (self.steps_view().len() as u32) == self.depth_view()
        &&& consecutive(self.steps_view())
    }

    /// Build a validated program against the given model depth.
    ///
    /// Fails with `InvalidLayerProgram` if `steps` is empty or any step is
    /// out of the `[1, model_depth]` range (the first such step is named).
    pub fn new(steps: Vec<LayerId>, model_depth: u32) -> (r: AbyssResult<LayerProgram>)
        ensures
            r is Ok <==> valid_program(steps@, model_depth),
            r matches Ok(p) ==> p.steps_view() == steps@ && p.depth_view() == model_depth,
            r matches Err(e) ==> program_error(steps@, model_depth, e),
    {
        if steps.len() == 0 {
            let reason = chars_to_string(&crate::text::str_to_chars(
                "program must contain at least one layer",
            ));
            return Err(AbyssError::InvalidLayerProgram { reason });
        }
        let n = steps.len();
        for i in 0..n
            invariant
                n == steps@.len(),
                forall|j: int| 0 <= j < i ==> #[trigger] in_range(steps@[j], model_depth),
        {
            let s = steps[i];
            if s.0 == 0 || s.0 > model_depth {
                let mut v: Vec<char> = Vec::new();
                append_str(&mut v, "layer L");
                push_decimal(&mut v, s.0 as u128);
                append_str(&mut v, " out of range 1..=");
                push_decimal(&mut v, model_depth as u128);
                assert(v@ == out_of_range_reason(s.0, model_depth));
                let reason = chars_to_string(&v);
                assert(first_out_of_range(steps@, model_depth, i as int));
                return Err(AbyssError::InvalidLayerProgram { reason });
            }
        }
        Ok(LayerProgram { steps, model_depth })
    }

    /// The total number of layer executions (program length).
    pub fn len(&self) -> (n: usize)
        ensures
            n == self.steps_view().len(),
            valid_program(self.steps_view(), self.depth_view()),
    {
        proof {
            use_type_invariant(self);
        }
        self.steps.len()
    }

    /// Whether the program is empty (never, for a validated program).
    pub fn is_empty(&self) -> (b: bool)
        ensures
            b == (self.steps_view().len() == 0),
            !b,
    {
        proof {
            use_type_invariant(self);
        }
        self.steps.len() == 0
    }

    /// The model depth this program is valid against.
    pub fn model_depth(&self) -> (d: u32)
        ensures
            d == self.depth_view(),
            valid_program(self.steps_view(), self.depth_view()),
    {
        proof {
            use_type_invariant(self);
        }
        self.model_depth
    }

    /// The layer ids in execution order.
    pub fn steps(&self) -> (v: Vec<LayerId>)
        ensures
            v@ == self.steps_view(),
    {
        let mut v: Vec<LayerId> = Vec::new();
        let n = self.steps.len();
        for i in 0..n
            invariant
                n == self.steps@.len(),
                v@ == self.steps@.take(i as int),
        {
            v.push(self.steps[i]);
            assert(self.steps@.take(i + 1) == self.steps@.take(i as int).push(self.steps@[i as int]));
        }
        assert(self.steps@.take(n as int) == self.steps@);
        v
    }

    /// The raw step slice.
    pub fn as_slice(&self) -> (s: &[LayerId])
        ensures
            s@ == self.steps_view(),
            valid_program(self.steps_view(), self.depth_view()),
    {
        proof {
            use_type_invariant(self);
        }
        self.steps.as_slice()
    }

    /// The maximum number of times any single layer occurs. A value of 1
    /// means no layer is repeated.
    pub fn max_repeat_count(&self) -> (m: usize)
        ensures
            m == max_repeat_upto(self.steps_view(), self.steps_view().len()),
    {
        let n = self.steps.len();
        let mut best: usize = 0;
        for i in 0..n
            invariant
                n == self.steps@.len(),
                best == max_repeat_upto(self.steps@, i as nat),
                best <= n,
        {
            let x = self.steps[i];
            let mut c: usize = 0;
            for j in 0..n
                invariant
                    n == self.steps@.len(),
                    c == count_of(self.steps@.take(j as int), x),
                    c <= j,
            {
                assert(self.steps@.take(j + 1).drop_last() == self.steps@.take(j as int));
                if self.steps[j] == x {
                    c = c + 1;
                }
            }
            assert(self.steps@.take(n as int) == self.steps@);
            if c > best {
                best = c;
            }
        }
        best
    }

    /// True if the length equals the depth and every layer is the successor
    /// of the one before it.
    pub fn is_sequential(&self) -> (b: bool)
        ensures
            b == self.is_sequential_spec(),
    {
        #[verifier::truncate]
        let len32 = self.steps.len() as u32;
        if len32 != self.model_depth {
            return false;
        }
        let n = self.steps.len();
        if n < 2 {
            return true;
        }
        for i in 0..n - 1
            invariant
                n == self.steps@.len(),
                n >= 2,
                forall|k: int| 0 <= k < i ==> #[trigger] self.steps@[k + 1].0 == self.steps@[k].0 + 1,
        {
            if self.steps[i + 1].0 as u64 != self.steps[i].0 as u64 + 1 {
                return false;
            }
        }
        true
    }

    /// Build the standard sequential program `1..=model_depth`.
    ///
    /// Fails for depth 0 (a program must contain at least one layer).
    pub fn sequential(model_depth: u32) -> (r: AbyssResult<LayerProgram>)
        ensures
            r is Ok <==> model_depth >= 1,
            r matches Ok(p) ==> p.steps_view() == sequential_steps(model_depth as nat)
                && p.depth_view() == model_depth,
            r matches Err(e) ==> e is InvalidLayerProgram && e->InvalidLayerProgram_reason@ == empty_reason(),
    {
        let mut steps: Vec<LayerId> = Vec::new();
        let mut i: u64 = 0;
        while i < model_depth as u64
            invariant
                i <= model_depth,
                steps@ == sequential_steps(i as nat),
            decreases model_depth - i,
        {
            steps.push(LayerId((i + 1) as u32));
            i = i + 1;
            assert(steps@ == sequential_steps(i as nat));
        }
        proof {
            if model_depth >= 1 {
                assert forall|k: int| 0 <= k < steps@.len() implies #[trigger] in_range(steps@[k], model_depth) by {}
            }
        }
        LayerProgram::new(steps, model_depth)
    }

    /// A copy of this program.
    pub fn clone(&self) -> (p: LayerProgram)
        ensures
            p.steps_view() == self.steps_view(),
            p.depth_view() == self.depth_view(),
    {
        proof {
            use_type_invariant(self);
        }
        LayerProgram { steps: self.steps(), model_depth: self.model_depth }
    }

    /// The display text `[L1, L2, ...]`.
    pub fn to_string(&self) -> (s: String)
        ensures
            s@ == seq!['['] + join_layers(self.steps_view()) + seq![']'],
    {
        let mut v: Vec<char> = Vec::new();
        v.push('[');
        let n = self.steps.len();
        for i in 0..n
            invariant
                n == self.steps@.len(),
                v@ == seq!['['] + join_layers(self.steps@.take(i as int)),
        {
            assert(self.steps@.take(i + 1).drop_last() == self.steps@.take(i as int));
            if i > 0 {
                append_str(&mut v, ", ");
            }
            v.push('L');
            push_decimal(&mut v, self.steps[i].0 as u128);
            proof {
                let t = self.steps@.take(i + 1);
                assert(t.last() == self.steps@[i as int]);
                if i == 0 {
                    assert(join_layers(t) == layer_text(t[0].0));
                }
            }
        }
        assert(self.steps@.take(n as int) == self.steps@);
        v.push(']');
        chars_to_string(&v)
    }
}

/// Ergonomic builder for [`LayerProgram`] that also accepts raw integers.
pub struct LayerProgramBuilder {
    steps: Vec<LayerId>,
    model_depth: u32,
}

impl LayerProgramBuilder {
    /// The steps appended so far.
    pub closed spec fn steps_view(&self) -> Seq<LayerId> {
        self.steps@
    }

    /// The depth the builder validates against.
    pub closed spec fn depth_view(&self) -> u32 {
        self.model_depth
    }

    /// Start a builder against the given model depth.
    pub fn with_depth(model_depth: u32) -> (b: LayerProgramBuilder)
        ensures
            b.steps_view() == Seq::<LayerId>::empty(),
            b.depth_view() == model_depth,
    {
        LayerProgramBuilder { steps: Vec::new(), model_depth }
    }

    /// Append a layer by 1-based id.
    pub fn layer(self, id: u32) -> (b: LayerProgramBuilder)
        ensures
            b.steps_view() == self.steps_view().push(LayerId(id)),
            b.depth_view() == self.depth_view(),
    {
        let mut this = self;
        this.steps.push(LayerId(id));
        this
    }

    /// Append a raw 0-based layer index.
    pub fn raw(self, id: u32) -> (b: LayerProgramBuilder)
        requires
            id < u32::MAX,
        ensures
            b.steps_view() == self.steps_view().push(LayerId((id + 1) as u32)),
            b.depth_view() == self.depth_view(),
    {
        let mut this = self;
        this.steps.push(LayerId::from_zero_based(id));
        this
    }

    /// Append a run of `count` copies of `id`.
    pub fn repeat(self, id: u32, count: usize) -> (b: LayerProgramBuilder)
        ensures
            b.steps_view() == self.steps_view() + Seq::new(count as nat, |i: int| LayerId(id)),
            b.depth_view() == self.depth_view(),
    {
        let mut this = self;
        let ghost start = this.steps@;
        for k in 0..count
            invariant
                this.steps@ == start + Seq::new(k as nat, |i: int| LayerId(id)),
                this.model_depth == self.model_depth,
                start == self.steps@,
        {
            this.steps.push(LayerId(id));
            assert(this.steps@ == start + Seq::new((k + 1) as nat, |i: int| LayerId(id)));
        }
        this
    }

    /// Finalize, validating against the depth (see [`LayerProgram::new`]).
    pub fn build(self) -> (r: AbyssResult<LayerProgram>)
        ensures
            r is Ok <==> valid_program(self.steps_view(), self.depth_view()),
            r matches Ok(p) ==> p.steps_view() == self.steps_view() && p.depth_view()
                == self.depth_view(),
            r matches Err(e) ==> program_error(self.steps_view(), self.depth_view(), e),
    {
        LayerProgram::new(self.steps, self.model_depth)
    }
}

/// A valid program is sequential exactly when its steps are `1, 2, ..., depth`
/// (for programs shorter than 2^32 steps, where the length comparison is exact).
pub proof fn lemma_sequential_iff_identity(steps: Seq<LayerId>, depth: u32)
    requires
        valid_program(steps, depth),
        steps.len() <= u32::MAX,
    ensures
        ((steps.len() as u32) == depth && consecutive(steps)) <==> steps == sequential_steps(
            depth as nat,
        ),
{
    if (steps.len() as u32) == depth && consecutive(steps) {
        assert forall|i: int| 0 <= i < steps.len() implies #[trigger] steps[i].0 == steps[0].0 + i by {
            lemma_consecutive_offset(steps, i);
        }
        assert(steps.len() == depth as int);
        lemma_consecutive_offset(steps, steps.len() - 1);
        assert(in_range(steps[steps.len() - 1], depth));
        assert(in_range(steps[0], depth));
        assert(steps[0].0 == 1);
        let q = sequential_steps(depth as nat);
        assert forall|i: int| 0 <= i < steps.len() implies #[trigger] steps[i] == q[i] by {
            assert(steps[i].0 == steps[0].0 + i);
            assert(in_range(steps[i], depth));
            assert(q[i] == LayerId((i + 1) as u32));
        }
        assert(steps =~= q);
    }
    if steps == sequential_steps(depth as nat) {
        assert(steps.len() == depth);
        assert(consecutive(steps));
    }
}

proof fn lemma_consecutive_offset(s: Seq<LayerId>, i: int)
    requires
        consecutive(s),
        0 <= i < s.len(),
    ensures
        s[i].0 == s[0].0 + i,
    decreases i,
{
    if i > 0 {
        lemma_consecutive_offset(s, i - 1);
        assert(s[(i - 1) + 1].0 == s[i - 1].0 + 1);
    }
}

pub(crate) proof fn lemma_count_of_strictly_increasing(s: Seq<LayerId>, x: LayerId, k: int)
    requires
        forall|a: int, b: int| 0 <= a < b < s.len() ==> s[a].0 < s[b].0,
        0 <= k < s.len(),
        s[k] == x,
    ensures
        count_of(s, x) == 1,
    decreases s.len(),
{
    let t = s.drop_last();
    if k == s.len() - 1 {
        assert forall|j: int| 0 <= j < t.len() implies t[j] != x by {
            assert(s[j].0 < s[k].0);
        }
        lemma_count_absent(t, x);
    } else {
        lemma_count_of_strictly_increasing(t, x, k);
        assert(s[k].0 < s[s.len() - 1].0);
    }
}

/// In a strictly increasing sequence a layer occurs at most once.
pub(crate) proof fn lemma_count_of_increasing_at_most_one(s: Seq<LayerId>, x: LayerId)
    requires
        forall|a: int, b: int| 0 <= a < b < s.len() ==> s[a].0 < s[b].0,
    ensures
        count_of(s, x) <= 1,
{
    if exists|k: int| 0 <= k < s.len() && s[k] == x {
        let k = choose|k: int| 0 <= k < s.len() && s[k] == x;
        lemma_count_of_strictly_increasing(s, x, k);
    } else {
        lemma_count_absent(s, x);
    }
}

proof fn lemma_count_absent(s: Seq<LayerId>, x: LayerId)
    requires
        forall|j: int| 0 <= j < s.len() ==> s[j] != x,
    ensures
        count_of(s, x) == 0,
    decreases s.len(),
{
    if s.len() > 0 {
        lemma_count_absent(s.drop_last(), x);
    }
}

/// In a sequential program no layer repeats: the maximum repeat count is 1.
pub proof fn lemma_sequential_max_repeat_one(depth: u32)
    requires
        depth >= 1,
    ensures
        max_repeat_upto(sequential_steps(depth as nat), depth as nat) == 1,
{
    let s = sequential_steps(depth as nat);
    assert forall|a: int, b: int| 0 <= a < b < s.len() implies s[a].0 < s[b].0 by {}
    lemma_max_repeat_all_one(s, depth as nat);
}

proof fn lemma_max_repeat_all_one(s: Seq<LayerId>, n: nat)
    requires
        forall|a: int, b: int| 0 <= a < b < s.len() ==> s[a].0 < s[b].0,
        1 <= n <= s.len(),
    ensures
        max_repeat_upto(s, n) == 1,
    decreases n,
{
    lemma_count_of_strictly_increasing(s, s[n - 1], n - 1);
    if n > 1 {
        lemma_max_repeat_all_one(s, (n - 1) as nat);
    } else {
        assert(max_repeat_upto(s, 0) == 0);
    }
}

} // verus!
