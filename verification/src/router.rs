//! The dynamic-depth router: per-token features in, layer program out.
//!
//! Signals and thresholds are fixed-point fractions in millionths
//! ([`Millionths`]); features are normalized to `[-1, 1]` and held in
//! millionths as well.
use vstd::prelude::*;

use crate::error::AbyssResult;
use crate::layer_program::{
    consecutive, count_of, lemma_count_of_increasing_at_most_one, lemma_count_of_strictly_increasing, lemma_sequential_max_repeat_one,
    max_repeat_upto, program_error, sequential_steps, LayerId, LayerProgram, LayerProgramBuilder,
};
use crate::reasoning::{unit, Millionths};
use crate::tokens::{Position, TokenId};

verus! {

/// `x` clamped to `[0, 1]` (in millionths).
pub open spec fn clamp_unit(x: int) -> int {
    if x < 0 {
        0
    } else if x > unit() {
        unit()
    } else {
        x
    }
}

/// Per-token feature vector handed to the router, in millionths.
#[derive(Debug, Clone)]
pub struct RouterFeatures {
    /// Number of features.
    pub dim: usize,
    /// The feature values, normalized to `[-1, 1]` where applicable.
    pub values: Vec<i64>,
}

impl RouterFeatures {
    pub fn as_slice(&self) -> (s: &[i64])
        ensures
            s@ == self.values@,
    {
        self.values.as_slice()
    }

    pub fn dim(&self) -> (d: usize)
        ensures
            d == self.dim,
    {
        self.dim
    }
}

/// The six features of a token, in millionths:
/// 0: position / max_position mapped to `[-1, 1]`;
/// 1: token id / vocabulary size mapped to `[-1, 1]`;
/// 2: logit entropy (clamped to `[0, 1]`) mapped to `[-1, 1]`;
/// 3: residual magnitude (clamped to `[0, 1]`) mapped to `[-1, 1]`;
/// 4: `+1` if the token was recently repeated, `-1` otherwise;
/// 5: progress, the negation of feature 0.
pub open spec fn feature_values(
    max_position: u32,
    id_high: u32,
    token: u32,
    position: u32,
    entropy: u32,
    residual: u32,
    repeated: bool,
) -> Seq<i64> {
    let f_pos = (2 * unit() * position) / (max_position as int) - unit();
    let f_id = (2 * unit() * token) / (id_high as int) - unit();
    let f_ent = 2 * clamp_unit(entropy as int) - unit();
    let f_res = 2 * clamp_unit(residual as int) - unit();
    let f_rep = if repeated {
        unit()
    } else {
        -unit()
    };
    seq![
        f_pos as i64,
        f_id as i64,
        f_ent as i64,
        f_res as i64,
        f_rep as i64,
        (-f_pos) as i64,
    ]
}

/// Builder that produces a [`RouterFeatures`] vector of dimension six.
#[derive(Debug, Clone, Copy)]
pub struct RouterFeaturesBuilder {
    max_position: u32,
    id_high: u32,
    dim: usize,
}

impl RouterFeaturesBuilder {
    #[verifier::type_invariant]
    spec fn positive(self) -> bool {
        self.max_position >= 1 && self.id_high >= 1 && self.dim == 6
    }

    /// The position scale (at least 1).
    pub closed spec fn max_position_view(&self) -> u32 {
        self.max_position
    }

    /// The vocabulary scale (at least 1).
    pub closed spec fn id_high_view(&self) -> u32 {
        self.id_high
    }

    pub fn new(max_position: u32, vocab_size: u32) -> (b: RouterFeaturesBuilder)
        ensures
            b.max_position_view() == (if max_position >= 1 { max_position } else { 1 }),
            b.id_high_view() == (if vocab_size >= 1 { vocab_size } else { 1 }),
    {
        RouterFeaturesBuilder {
            max_position: if max_position >= 1 {
                max_position
            } else {
                1
            },
            id_high: if vocab_size >= 1 {
                vocab_size
            } else {
                1
            },
            dim: 6,
        }
    }

    pub fn dim(&self) -> (d: usize)
        ensures
            d == 6,
    {
        proof {
            use_type_invariant(self);
        }
        self.dim
    }

    /// The features of a token (see [`feature_values`]).
    pub fn build(
        &self,
        token: TokenId,
        position: Position,
        logit_entropy: Millionths,
        residual_magnitude: Millionths,
        recently_repeated: bool,
    ) -> (f: RouterFeatures)
        ensures
            f.dim == 6,
            f.values@ == feature_values(
                self.max_position_view(),
                self.id_high_view(),
                token.0,
                position.0,
                logit_entropy.0,
                residual_magnitude.0,
                recently_repeated,
            ),
    {
        proof {
            use_type_invariant(self);
        }
        let mp = self.max_position as i64;
        let ih = self.id_high as i64;
        assert(0 <= 2_000_000 * (position.0 as int) <= 2_000_000 * 4_294_967_295);
        assert(0 <= 2_000_000 * (token.0 as int) <= 2_000_000 * 4_294_967_295);
        let f_pos = (2_000_000 * position.0 as i64) / mp - 1_000_000;
        let f_id = (2_000_000 * token.0 as i64) / ih - 1_000_000;
        let e = if logit_entropy.0 > 1_000_000 {
            1_000_000
        } else {
            logit_entropy.0 as i64
        };
        let r = if residual_magnitude.0 > 1_000_000 {
            1_000_000
        } else {
            residual_magnitude.0 as i64
        };
        let f_rep: i64 = if recently_repeated {
            1_000_000
        } else {
            -1_000_000
        };
        let mut values: Vec<i64> = Vec::new();
        values.push(f_pos);
        values.push(f_id);
        values.push(2 * e - 1_000_000);
        values.push(2 * r - 1_000_000);
        values.push(f_rep);
        values.push(-f_pos);
        RouterFeatures { dim: 6, values }
    }
}

/// Configuration tuning the heuristic router's behavior.
#[derive(Debug, Clone, Copy)]
pub struct RouterConfig {
    /// Total model depth (number of layers, 1-based max).
    pub model_depth: u32,
    /// Maximum number of times any single layer may be repeated.
    pub max_repeat: usize,
    /// Entropy above which a token is considered "hard".
    pub hard_entropy: Millionths,
    /// Residual magnitude above which a token is considered "hard".
    pub hard_residual: Millionths,
    /// Cap on total program length.
    pub max_program_len: usize,
}

/// The default configuration: depth 32, at most 3 repeats, thresholds 0.6,
/// programs up to 96 long.
pub open spec fn default_config() -> RouterConfig {
    RouterConfig {
        model_depth: 32,
        max_repeat: 3,
        hard_entropy: Millionths(600_000),
        hard_residual: Millionths(600_000),
        max_program_len: 96,
    }
}

impl Default for RouterConfig {
    fn default() -> (c: RouterConfig)
        ensures
            c == default_config(),
    {
        RouterConfig {
            model_depth: 32,
            max_repeat: 3,
            hard_entropy: Millionths(600_000),
            hard_residual: Millionths(600_000),
            max_program_len: 96,
        }
    }
}

impl RouterConfig {
    pub fn builder() -> (b: RouterConfigBuilder)
        ensures
            b.config_view() == default_config(),
    {
        RouterConfigBuilder { cfg: RouterConfig::default() }
    }
}

/// Fluent builder for [`RouterConfig`], starting from the defaults.
#[derive(Debug, Clone, Copy)]
pub struct RouterConfigBuilder {
    cfg: RouterConfig,
}

impl Default for RouterConfigBuilder {
    fn default() -> (b: RouterConfigBuilder)
        ensures
            b.config_view() == default_config(),
    {
        RouterConfigBuilder { cfg: RouterConfig::default() }
    }
}

impl RouterConfigBuilder {
    /// The configuration built so far.
    pub closed spec fn config_view(&self) -> RouterConfig {
        self.cfg
    }

    pub fn model_depth(self, d: u32) -> (b: RouterConfigBuilder)
        ensures
            b.config_view() == (RouterConfig { model_depth: d, ..self.config_view() }),
    {
        RouterConfigBuilder { cfg: RouterConfig { model_depth: d, ..self.cfg } }
    }

    pub fn max_repeat(self, r: usize) -> (b: RouterConfigBuilder)
        ensures
            b.config_view() == (RouterConfig { max_repeat: r, ..self.config_view() }),
    {
        RouterConfigBuilder { cfg: RouterConfig { max_repeat: r, ..self.cfg } }
    }

    pub fn hard_entropy(self, e: Millionths) -> (b: RouterConfigBuilder)
        ensures
            b.config_view() == (RouterConfig { hard_entropy: e, ..self.config_view() }),
    {
        RouterConfigBuilder { cfg: RouterConfig { hard_entropy: e, ..self.cfg } }
    }

    pub fn hard_residual(self, r: Millionths) -> (b: RouterConfigBuilder)
        ensures
            b.config_view() == (RouterConfig { hard_residual: r, ..self.config_view() }),
    {
        RouterConfigBuilder { cfg: RouterConfig { hard_residual: r, ..self.cfg } }
    }

    pub fn max_program_len(self, n: usize) -> (b: RouterConfigBuilder)
        ensures
            b.config_view() == (RouterConfig { max_program_len: n, ..self.config_view() }),
    {
        RouterConfigBuilder { cfg: RouterConfig { max_program_len: n, ..self.cfg } }
    }

    pub fn build(self) -> (c: RouterConfig)
        ensures
            c == self.config_view(),
    {
        self.cfg
    }
}

/// A feature in `[-1, 1]` mapped back to a signal in `[0, 1]` (clamped).
pub open spec fn signal_of(v: i64) -> int {
    clamp_unit((v + unit()) / 2)
}

/// How hard a token is: the larger of its entropy and residual signals.
pub open spec fn hardness(values: Seq<i64>) -> int {
    let e = signal_of(values[2]);
    let r = signal_of(values[3]);
    if e > r {
        e
    } else {
        r
    }
}

/// A token is hard when its hardness reaches the larger threshold, or 0.4.
pub open spec fn is_hard(cfg: RouterConfig, values: Seq<i64>) -> bool {
    let t = if cfg.hard_entropy.0 > cfg.hard_residual.0 {
        cfg.hard_entropy.0
    } else {
        cfg.hard_residual.0
    };
    hardness(values) >= t || hardness(values) >= 400_000
}

/// The program the router emits: the backbone `1..=depth`, plus one extra
/// pass of the last layer for a hard token when `max_repeat` allows a layer
/// to be repeated and the extra pass still fits in `max_program_len`.
pub open spec fn routed_steps(cfg: RouterConfig, values: Seq<i64>) -> Seq<LayerId> {
    let backbone = sequential_steps(cfg.model_depth as nat);
    if is_hard(cfg, values) && cfg.max_repeat >= 1 && cfg.model_depth + 1 <= cfg.max_program_len {
        backbone.push(LayerId(cfg.model_depth))
    } else {
        backbone
    }
}

/// A dependency-light, rule-based dynamic depth router.
#[derive(Debug, Clone, Copy)]
pub struct HeuristicRouter {
    cfg: RouterConfig,
    feature_builder: RouterFeaturesBuilder,
}

impl HeuristicRouter {
    /// The configuration.
    pub closed spec fn config(&self) -> RouterConfig {
        self.cfg
    }

    /// The feature builder's position and vocabulary scales.
    pub closed spec fn scales(&self) -> (u32, u32) {
        (self.feature_builder.max_position_view(), self.feature_builder.id_high_view())
    }

    /// A router with the given configuration; features are scaled for
    /// positions up to 2048 and a vocabulary of 32000.
    pub fn new(cfg: RouterConfig) -> (r: HeuristicRouter)
        ensures
            r.config() == cfg,
            r.scales() == (2048u32, 32000u32),
    {
        let feature_builder = RouterFeaturesBuilder::new(2048, 32_000);
        HeuristicRouter { cfg, feature_builder }
    }

    /// The model depth this router produces programs for.
    pub fn model_depth(&self) -> (d: u32)
        ensures
            d == self.config().model_depth,
    {
        self.cfg.model_depth
    }

    /// Build the feature vector for a token given its state signals.
    pub fn features(
        &self,
        token: TokenId,
        position: Position,
        logit_entropy: Millionths,
        residual_magnitude: Millionths,
        recently_repeated: bool,
    ) -> (f: RouterFeatures)
        ensures
            f.dim == 6,
            f.values@ == feature_values(
                self.scales().0,
                self.scales().1,
                token.0,
                position.0,
                logit_entropy.0,
                residual_magnitude.0,
                recently_repeated,
            ),
    {
        self.feature_builder.build(
            token,
            position,
            logit_entropy,
            residual_magnitude,
            recently_repeated,
        )
    }

    /// Decide a layer program from already-computed features (see
    /// [`routed_steps`]). Fails only for depth 0.
    pub fn route_features(&self, f: &RouterFeatures) -> (r: AbyssResult<LayerProgram>)
        requires
            f.values@.len() >= 4,
        ensures
            r is Ok <==> self.config().model_depth >= 1,
            r matches Ok(p) ==> p.steps_view() == routed_steps(self.config(), f.values@)
                && p.depth_view() == self.config().model_depth,
            r matches Ok(p) ==> max_repeat_upto(p.steps_view(), p.steps_view().len())
                <= self.config().max_repeat + 1,
            r matches Err(e) ==> program_error(routed_steps(self.config(), f.values@), self.config().model_depth, e),
    {
        let depth = self.cfg.model_depth;
        let v2 = f.values[2];
        let v3 = f.values[3];
        let e = clamp_signal(v2);
        let r = clamp_signal(v3);
        let h = if e > r {
            e
        } else {
            r
        };
        let t = if self.cfg.hard_entropy.0 > self.cfg.hard_residual.0 {
            self.cfg.hard_entropy.0
        } else {
            self.cfg.hard_residual.0
        };
        let extra = h >= t as i64 || h >= 400_000;
        let mut b = LayerProgramBuilder::with_depth(depth);
        let mut l: u64 = 1;
        while l <= depth as u64
            invariant
                1 <= l <= depth as u64 + 1,
                b.steps_view() == sequential_steps((l - 1) as nat),
                b.depth_view() == depth,
            decreases depth as u64 + 1 - l,
        {
            b = b.layer(l as u32);
            assert(b.steps_view() == sequential_steps(l as nat));
            l = l + 1;
        }
        if extra && self.cfg.max_repeat >= 1 && (depth as u64 + 1) <= self.cfg.max_program_len as u64 {
            b = b.layer(depth);
        }
        proof {
            let s = routed_steps(self.cfg, f.values@);
            assert(b.steps_view() == s);
            lemma_routed_repeats_bounded(self.cfg, f.values@);
            if depth >= 1 {
                assert forall|i: int| 0 <= i < s.len() implies #[trigger] crate::layer_program::in_range(s[i], depth) by {}
            } else if s.len() > 0 {
                assert(!crate::layer_program::in_range(s[0], depth));
            }
        }
        b.build()
    }

    /// Route directly from raw token/state signals.
    pub fn route_token(
        &self,
        token: TokenId,
        position: Position,
        logit_entropy: Millionths,
        residual_magnitude: Millionths,
        recently_repeated: bool,
    ) -> (r: AbyssResult<LayerProgram>)
        ensures
            r is Ok <==> self.config().model_depth >= 1,
            r matches Ok(p) ==> p.depth_view() == self.config().model_depth
                && p.steps_view() == routed_steps(
                self.config(),
                feature_values(
                    self.scales().0,
                    self.scales().1,
                    token.0,
                    position.0,
                    logit_entropy.0,
                    residual_magnitude.0,
                    recently_repeated,
                ),
            ),
    {
        let f = self.features(token, position, logit_entropy, residual_magnitude, recently_repeated);
        self.route_features(&f)
    }
}

/// Hardness is the larger of the two signals: it is at least the entropy
/// signal and at least the residual signal, and it is one of them. So a
/// token is hard as soon as either signal reaches the threshold.
pub proof fn lemma_hardness_is_larger_signal(cfg: RouterConfig, values: Seq<i64>)
    requires
        values.len() >= 4,
    ensures
        hardness(values) >= signal_of(values[2]),
        hardness(values) >= signal_of(values[3]),
        hardness(values) == signal_of(values[2]) || hardness(values) == signal_of(values[3]),
        signal_of(values[2]) >= 400_000 ==> is_hard(cfg, values),
        signal_of(values[3]) >= 400_000 ==> is_hard(cfg, values),
{
}

/// A token that is not hard gets the plain backbone `1..=depth`, in which no
/// layer repeats.
pub proof fn lemma_easy_token_sequential(cfg: RouterConfig, values: Seq<i64>)
    requires
        !is_hard(cfg, values),
        cfg.model_depth >= 1,
    ensures
        routed_steps(cfg, values) == sequential_steps(cfg.model_depth as nat),
        consecutive(routed_steps(cfg, values)),
        max_repeat_upto(routed_steps(cfg, values), cfg.model_depth as nat) == 1,
{
    lemma_sequential_max_repeat_one(cfg.model_depth);
}

/// A hard token, when `max_repeat` allows a repeat and the extra pass fits
/// in `max_program_len`, gets a program that is not consecutive, in which
/// the last layer runs twice, and whose largest repeat count is at least 2.
pub proof fn lemma_hard_token_repeats(cfg: RouterConfig, values: Seq<i64>)
    requires
        is_hard(cfg, values),
        cfg.max_repeat >= 1,
        cfg.model_depth >= 1,
        cfg.model_depth + 1 <= cfg.max_program_len,
    ensures
        routed_steps(cfg, values).len() == cfg.model_depth + 1,
        !consecutive(routed_steps(cfg, values)),
        count_of(routed_steps(cfg, values), LayerId(cfg.model_depth)) == 2,
        max_repeat_upto(routed_steps(cfg, values), routed_steps(cfg, values).len()) >= 2,
{
    let d = cfg.model_depth;
    let b = sequential_steps(d as nat);
    let s = routed_steps(cfg, values);
    assert(s == b.push(LayerId(d)));
    assert(s.drop_last() == b);
    assert forall|a: int, c: int| 0 <= a < c < b.len() implies b[a].0 < b[c].0 by {}
    lemma_count_of_strictly_increasing(b, LayerId(d), d - 1);
    let k = s.len() - 2;
    assert(s[k + 1].0 != s[k].0 + 1);
    lemma_max_repeat_at_least(s, s.len(), s.len() - 1);
}

/// No layer of a routed program runs more than `max_repeat + 1` times (it is
/// repeated at most `max_repeat` times), so the largest repeat count is
/// within that bound too.
pub proof fn lemma_routed_repeats_bounded(cfg: RouterConfig, values: Seq<i64>)
    ensures
        forall|x: LayerId| #[trigger] count_of(routed_steps(cfg, values), x) <= cfg.max_repeat + 1,
        max_repeat_upto(routed_steps(cfg, values), routed_steps(cfg, values).len())
            <= cfg.max_repeat + 1,
{
    let d = cfg.model_depth;
    let b = sequential_steps(d as nat);
    let s = routed_steps(cfg, values);
    assert forall|a: int, c: int| 0 <= a < c < b.len() implies b[a].0 < b[c].0 by {}
    assert forall|x: LayerId| #[trigger] count_of(s, x) <= cfg.max_repeat + 1 by {
        lemma_count_of_increasing_at_most_one(b, x);
        if s.len() != b.len() {
            assert(s.drop_last() == b);
        }
    }
    lemma_max_repeat_within(s, s.len(), (cfg.max_repeat + 1) as nat);
}

/// When every step of `s` occurs at most `bound` times, so does the most
/// repeated of the first `n`.
proof fn lemma_max_repeat_within(s: Seq<LayerId>, n: nat, bound: nat)
    requires
        n <= s.len(),
        forall|x: LayerId| #[trigger] count_of(s, x) <= bound,
    ensures
        max_repeat_upto(s, n) <= bound,
    decreases n,
{
    if n > 0 {
        lemma_max_repeat_within(s, (n - 1) as nat, bound);
        assert(count_of(s, s[n - 1]) <= bound);
    }
}

/// The largest repeat count among the first `n` steps is at least the count
/// of any of them.
proof fn lemma_max_repeat_at_least(s: Seq<LayerId>, n: nat, k: int)
    requires
        0 <= k < n <= s.len(),
    ensures
        max_repeat_upto(s, n) >= count_of(s, s[k]),
    decreases n,
{
    if k < n - 1 {
        lemma_max_repeat_at_least(s, (n - 1) as nat, k);
    }
}

/// Every routed program is the backbone or one step longer, and it is longer
/// only when that fits in `max_program_len`.
pub proof fn lemma_routed_length(cfg: RouterConfig, values: Seq<i64>)
    ensures
        routed_steps(cfg, values).len() == cfg.model_depth || (routed_steps(cfg, values).len()
            == cfg.model_depth + 1 && routed_steps(cfg, values).len() <= cfg.max_program_len),
{
}

/// Routing is monotone in hardness: a token at least as hard as another
/// gets a program at least as long.
pub proof fn lemma_routing_monotone(cfg: RouterConfig, easier: Seq<i64>, harder: Seq<i64>)
    requires
        hardness(easier) <= hardness(harder),
    ensures
        routed_steps(cfg, easier).len() <= routed_steps(cfg, harder).len(),
        is_hard(cfg, easier) ==> is_hard(cfg, harder),
{
}

fn clamp_signal(v: i64) -> (s: i64)
    ensures
        s == signal_of(v),
{
    let x = v as i128 + 1_000_000;
    if x <= 0 {
        0
    } else {
        let h = x / 2;
        if h > 1_000_000 {
            1_000_000
        } else {
            h as i64
        }
    }
}

} // verus!
