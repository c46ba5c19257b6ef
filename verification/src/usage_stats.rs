//! Per-layer usage statistics: an exponential moving average (EMA) of how
//! often each layer is selected and how strongly it activates, blended into
//! one usage score. Hot layers (high score) are candidates for GPU
//! residency, cold ones for eviction.
//!
//! All quantities are fixed-point fractions in millionths and every
//! division rounds down.
use vstd::prelude::*;

use std::collections::HashMap;

use crate::layer_program::LayerId;
use crate::reasoning::{unit, Millionths};
use crate::telemetry::{distinct_layers, first_ids, sort_desc_by_count, sorted_desc, take_ids};

verus! {

broadcast use vstd::std_specs::hash::group_hash_axioms;

/// Per-step activation log: one `(layer, magnitude)` entry per executed
/// layer, magnitudes as non-negative fractions in millionths.
pub type ActivationLog = Vec<(LayerId, Millionths)>;

/// The smoothed statistics of one layer, in millionths.
#[derive(Debug, Clone, Copy, PartialEq, Eq, Structural)]
pub struct UsageEntry {
    /// EMA of the selection frequency.
    pub selection: u32,
    /// EMA of the (clamped) peak activation magnitude.
    pub activation: u32,
    /// The blended usage score.
    pub score: u32,
}

/// How many entries of `log` are for layer `l`.
pub open spec fn log_count(log: Seq<(LayerId, Millionths)>, l: u32) -> nat
    decreases log.len(),
{
    if log.len() == 0 {
        0
    } else {
        log_count(log.drop_last(), l) + if log.last().0.0 == l {
            1nat
        } else {
            0nat
        }
    }
}

/// The largest magnitude logged for layer `l` (0 when it is absent).
pub open spec fn log_peak(log: Seq<(LayerId, Millionths)>, l: u32) -> nat
    decreases log.len(),
{
    if log.len() == 0 {
        0
    } else {
        let p = log_peak(log.drop_last(), l);
        if log.last().0.0 == l && log.last().1.0 > p {
            log.last().1.0 as nat
        } else {
            p
        }
    }
}

/// The activation a log reports for layer `l` is its peak: at least every
/// magnitude logged for `l`, and one of them when `l` is logged (0 when it
/// is not).
pub proof fn lemma_log_peak_is_max(log: Seq<(LayerId, Millionths)>, l: u32)
    ensures
        forall|i: int| 0 <= i < log.len() && (#[trigger] log[i]).0.0 == l ==> log_peak(log, l) >= log[i].1.0,
        (exists|i: int| 0 <= i < log.len() && (#[trigger] log[i]).0.0 == l && log_peak(log, l) == log[i].1.0)
            || (log_peak(log, l) == 0 && forall|i: int| 0 <= i < log.len() ==> (#[trigger] log[i]).0.0 != l),
    decreases log.len(),
{
    if log.len() > 0 {
        let t = log.drop_last();
        lemma_log_peak_is_max(t, l);
        let n = log.len() - 1;
        let p = log_peak(t, l);
        let pk = log_peak(log, l);
        assert(log[n] == log.last());
        assert forall|i: int| 0 <= i < log.len() && (#[trigger] log[i]).0.0 == l implies pk >= log[i].1.0 by {
            if i < n {
                assert(t[i] == log[i]);
            }
        }
        if log[n].0.0 == l && pk == log[n].1.0 {
        } else if exists|i: int| 0 <= i < t.len() && (#[trigger] t[i]).0.0 == l && p == t[i].1.0 {
            let i = choose|i: int| 0 <= i < t.len() && (#[trigger] t[i]).0.0 == l && p == t[i].1.0;
            assert(log[i] == t[i]);
            assert(pk == p);
        } else {
            assert(p == 0);
            assert(pk == 0);
            assert forall|i: int| 0 <= i < log.len() implies (#[trigger] log[i]).0.0 != l by {
                if i < n {
                    assert(t[i] == log[i]);
                }
            }
        }
    }
}

/// One EMA step: `alpha * x + (1 - alpha) * prev`, rounded down.
pub open spec fn ema(alpha: int, x: int, prev: int) -> int {
    (alpha * x + (unit() - alpha) * prev) / unit()
}

/// The usage score: `w * selection + (1 - w) * activation`, rounded down.
pub open spec fn blend(w: int, selection: int, activation: int) -> int {
    (w * selection + (unit() - w) * activation) / unit()
}

/// A selection count as a fraction of the program length (length 0 counts
/// as 1), rounded down.
pub open spec fn frequency_of(count: nat, program_length: nat) -> int {
    (count * unit()) / (if program_length == 0 {
        1
    } else {
        program_length as int
    })
}

/// `x` capped at 1.
pub open spec fn cap_unit(x: int) -> int {
    if x > unit() {
        unit()
    } else {
        x
    }
}

/// `x` clamped to `[lo, hi]`.
pub open spec fn clamp_to(x: int, lo: int, hi: int) -> int {
    if x < lo {
        lo
    } else if x > hi {
        hi
    } else {
        x
    }
}

/// An entry whose averages are fractions and whose score is their blend.
pub open spec fn entry_ok(e: UsageEntry, w: int) -> bool {
    &&& e.selection <= unit()
    &&& e.activation <= unit()
    &&& e.score <= unit()
    &&& e.score == blend(w, e.selection as int, e.activation as int)
}

/// `s` is ordered by score, largest first.
pub open spec fn scores_desc(s: Seq<(LayerId, Millionths)>) -> bool {
    forall|i: int, j: int| 0 <= i < j < s.len() ==> #[trigger] s[i].1.0 >= #[trigger] s[j].1.0
}

/// Per-layer usage statistics computed via exponential moving averages.
#[derive(Debug)]
pub struct LayerUsageStats {
    entries: HashMap<u32, UsageEntry>,
    known: Vec<u32>,
    decay: u32,
    selection_weight: u32,
    rounds: usize,
}

impl LayerUsageStats {
    #[verifier::type_invariant]
    spec fn wf(self) -> bool {
        &&& 10_000 <= self.decay <= 1_000_000
        &&& self.selection_weight <= 1_000_000
        &&& self.known@.no_duplicates()
        &&& forall|i: int|
            0 <= i < self.known@.len() ==> #[trigger] self.entries@.contains_key(self.known@[i])
        &&& forall|k: u32| #[trigger] self.entries@.contains_key(k) ==> self.known@.contains(k)
        &&& forall|k: u32|
            #[trigger] self.entries@.contains_key(k) ==> entry_ok(
                self.entries@[k],
                self.selection_weight as int,
            )
    }

    /// The statistics of every layer seen so far, keyed by layer number.
    pub closed spec fn usage_view(&self) -> Map<u32, UsageEntry> {
        self.entries@
    }

    /// The EMA weight of a new observation, in `[0.01, 1]`.
    pub closed spec fn decay_view(&self) -> u32 {
        self.decay
    }

    /// The weight of selection against activation in the score, in `[0, 1]`.
    pub closed spec fn weight_view(&self) -> u32 {
        self.selection_weight
    }

    /// Number of update rounds processed.
    pub closed spec fn rounds_view(&self) -> usize {
        self.rounds
    }

    /// The entry of layer `k` (all zero for a layer not seen yet).
    pub open spec fn prev_entry(&self, k: u32) -> UsageEntry {
        if self.usage_view().contains_key(k) {
            self.usage_view()[k]
        } else {
            UsageEntry { selection: 0, activation: 0, score: 0 }
        }
    }

    /// The entry of layer `k` after one round with `log`, normalized by
    /// `program_length`.
    pub open spec fn updated_entry(
        &self,
        k: u32,
        log: Seq<(LayerId, Millionths)>,
        program_length: usize,
    ) -> UsageEntry {
        let prev = self.prev_entry(k);
        let a = self.decay_view() as int;
        let sel = ema(
            a,
            frequency_of(log_count(log, k), program_length as nat),
            prev.selection as int,
        );
        let act = ema(a, cap_unit(log_peak(log, k) as int), prev.activation as int);
        UsageEntry {
            selection: sel as u32,
            activation: act as u32,
            score: blend(self.weight_view() as int, sel, act) as u32,
        }
    }

    /// The score of `l` (0 for a layer not seen yet).
    pub open spec fn score_of(&self, l: LayerId) -> u32 {
        self.prev_entry(l.0).score
    }

    /// `r` lists every known layer once, with its score.
    pub open spec fn lists_scores(&self, r: Seq<(LayerId, Millionths)>) -> bool {
        &&& r.len() == self.usage_view().dom().len()
        &&& forall|i: int, j: int| 0 <= i < j < r.len() ==> #[trigger] r[i].0 != #[trigger] r[j].0
        &&& forall|i: int|
            0 <= i < r.len() ==> #[trigger] self.usage_view().contains_key(r[i].0.0) && r[i].1.0
                == self.usage_view()[r[i].0.0].score
    }

    /// `r` lists every known layer once, with its score as a plain number.
    pub open spec fn lists_all_scores(&self, r: Seq<(LayerId, usize)>) -> bool {
        &&& r.len() == self.usage_view().dom().len()
        &&& distinct_layers(r)
        &&& forall|i: int|
            0 <= i < r.len() ==> #[trigger] self.usage_view().contains_key(r[i].0.0) && r[i].1
                == self.usage_view()[r[i].0.0].score
    }

    /// A fresh accumulator. `decay` (the EMA weight of a new observation) is
    /// clamped to `[0.01, 1]`; `selection_weight` (the weight of selection
    /// frequency against activation in the score) to `[0, 1]`.
    pub fn new(decay: Millionths, selection_weight: Millionths) -> (s: LayerUsageStats)
        ensures
            s.usage_view() == Map::<u32, UsageEntry>::empty(),
            s.decay_view() == clamp_to(decay.0 as int, 10_000, 1_000_000),
            s.weight_view() == clamp_to(selection_weight.0 as int, 0, 1_000_000),
            s.rounds_view() == 0,
    {
        let d = if decay.0 < 10_000 {
            10_000
        } else if decay.0 > 1_000_000 {
            1_000_000
        } else {
            decay.0
        };
        let w = if selection_weight.0 > 1_000_000 {
            1_000_000
        } else {
            selection_weight.0
        };
        LayerUsageStats {
            entries: HashMap::new(),
            known: Vec::new(),
            decay: d,
            selection_weight: w,
            rounds: 0,
        }
    }

    fn compute_entry(&self, k: u32, log: &ActivationLog, program_length: usize) -> (e: UsageEntry)
        requires
            log@.len() <= program_length,
        ensures
            e == self.updated_entry(k, log@, program_length),
            entry_ok(e, self.weight_view() as int),
    {
        proof {
            use_type_invariant(self);
        }
        let (ps, pa): (u32, u32) = match self.entries.get(&k) {
            Some(e) => (e.selection, e.activation),
            None => (0, 0),
        };
        assert(ps == self.prev_entry(k).selection && pa == self.prev_entry(k).activation);
        let c = count_in_log(log, k);
        let denom: usize = if program_length == 0 {
            1
        } else {
            program_length
        };
        let num: u128 = c as u128 * 1_000_000;
        assert(c * 1_000_000 <= denom * 1_000_000) by (nonlinear_arith)
            requires
                c <= denom,
        ;
        let share: u128 = num / denom as u128;
        assert(share <= 1_000_000) by (nonlinear_arith)
            requires
                share == num / (denom as u128),
                num <= denom * 1_000_000,
                denom > 0,
        ;
        let f = share as u64;
        let a = self.decay as u64;
        let sel = ema_step(a, f, ps as u64);
        let peak = peak_in_log(log, k);
        let x: u64 = if peak > 1_000_000 {
            1_000_000
        } else {
            peak as u64
        };
        let act = ema_step(a, x, pa as u64);
        let w = self.selection_weight as u64;
        let score = ema_step(w, sel, act);
        UsageEntry { selection: sel as u32, activation: act as u32, score: score as u32 }
    }

    /// Incorporate one generation step: the selection EMA of every known
    /// or newly logged layer moves toward its share of `program_length`, its
    /// activation EMA toward its peak logged magnitude (capped at 1), and its
    /// score is recomputed. Layers not logged this round move toward 0.
    ///
    /// `program_length` is the number of layer executions of the step, of
    /// which the log has one entry each, so it is at least the log's length.
    pub fn update(&mut self, activation_log: &ActivationLog, program_length: usize)
        requires
            old(self).rounds_view() < usize::MAX,
            activation_log@.len() <= program_length,
        ensures
            final(self).rounds_view() == old(self).rounds_view() + 1,
            final(self).decay_view() == old(self).decay_view(),
            final(self).weight_view() == old(self).weight_view(),
            forall|k: u32|
                #[trigger] final(self).usage_view().contains_key(k) <==> (old(
                    self,
                ).usage_view().contains_key(k) || log_count(activation_log@, k) > 0),
            forall|k: u32|
                final(self).usage_view().contains_key(k) ==> #[trigger] final(self).usage_view()[k]
                    == old(self).updated_entry(k, activation_log@, program_length),
    {
        proof {
            use_type_invariant(&*self);
        }
        let ghost log = activation_log@;
        let mut new_entries: HashMap<u32, UsageEntry> = HashMap::new();
        let mut new_known: Vec<u32> = Vec::new();
        let n = self.known.len();
        for i in 0..n
            invariant
                n == self.known@.len(),
                log == activation_log@,
                log.len() <= program_length,
                self.known@.no_duplicates(),
                new_known@ == self.known@.take(i as int),
                forall|k: u32| #[trigger] new_entries@.contains_key(k) <==> new_known@.contains(k),
                forall|k: u32|
                    #[trigger] new_entries@.contains_key(k) ==> new_entries@[k]
                        == self.updated_entry(k, log, program_length) && entry_ok(
                        new_entries@[k],
                        self.weight_view() as int,
                    ),
        {
            let k = self.known[i];
            let e = self.compute_entry(k, activation_log, program_length);
            new_entries.insert(k, e);
            new_known.push(k);
            assert(new_known@ == self.known@.take(i + 1));
            assert forall|q: u32| #[trigger] new_entries@.contains_key(q) <==> new_known@.contains(q) by {
                if q == k {
                    assert(new_known@[i as int] == k);
                } else if new_known@.contains(q) {
                    let t = choose|t: int| 0 <= t < new_known@.len() && new_known@[t] == q;
                    assert(self.known@.take(i as int)[t] == q);
                }
            }
        }
        assert(new_known@ == self.known@);
        assert forall|k: u32| #[trigger] new_entries@.contains_key(k) <==> self.entries@.contains_key(k) by {
            if self.entries@.contains_key(k) {
                assert(self.known@.contains(k));
            }
            if new_known@.contains(k) {
                let t = choose|t: int| 0 <= t < new_known@.len() && new_known@[t] == k;
                assert(self.entries@.contains_key(self.known@[t]));
            }
        }
        let m = activation_log.len();
        for j in 0..m
            invariant
                m == activation_log@.len(),
                log == activation_log@,
                log.len() <= program_length,
                new_known@.no_duplicates(),
                forall|k: u32| #[trigger] new_entries@.contains_key(k) <==> new_known@.contains(k),
                forall|k: u32|
                    #[trigger] new_entries@.contains_key(k) <==> (self.entries@.contains_key(k)
                        || exists|q: int| 0 <= q < j && #[trigger] log[q].0.0 == k),
                forall|k: u32|
                    #[trigger] new_entries@.contains_key(k) ==> new_entries@[k]
                        == self.updated_entry(k, log, program_length) && entry_ok(
                        new_entries@[k],
                        self.weight_view() as int,
                    ),
        {
            let l = activation_log[j].0.0;
            if !new_entries.contains_key(&l) {
                let e = self.compute_entry(l, activation_log, program_length);
                let ghost before_entries = new_entries@;
                new_entries.insert(l, e);
                let ghost before = new_known@;
                new_known.push(l);
                assert forall|a: int, b: int|
                    0 <= a < b < new_known@.len() implies new_known@[a] != new_known@[b] by {
                    if b == new_known@.len() - 1 {
                        assert(new_known@[b] == l);
                        assert(before.contains(new_known@[a]));
                    } else {
                        assert(before[a] == new_known@[a] && before[b] == new_known@[b]);
                    }
                }
                assert forall|q: u32| #[trigger] new_entries@.contains_key(q) <==> new_known@.contains(q) by {
                    if q == l {
                        assert(new_known@[new_known@.len() - 1] == l);
                    } else {
                        if new_known@.contains(q) {
                            let t = choose|t: int| 0 <= t < new_known@.len() && new_known@[t] == q;
                            assert(before[t] == q);
                        }
                        if before_entries.contains_key(q) {
                            assert(before.contains(q));
                            let t = choose|t: int| 0 <= t < before.len() && before[t] == q;
                            assert(new_known@[t] == q);
                        }
                    }
                }
            }
            assert forall|k: u32| #[trigger] new_entries@.contains_key(k) <==> (self.entries@.contains_key(k)
                || exists|q: int| 0 <= q < j + 1 && #[trigger] log[q].0.0 == k) by {
                if k == l {
                    assert(log[j as int].0.0 == k);
                }
                if exists|q: int| 0 <= q < j + 1 && #[trigger] log[q].0.0 == k {
                    let q = choose|q: int| 0 <= q < j + 1 && #[trigger] log[q].0.0 == k;
                    if q < j {
                    } else {
                        assert(k == l);
                    }
                }
            }
        }
        proof {
            assert forall|k: u32| #[trigger] new_entries@.contains_key(k) <==> (
            self.entries@.contains_key(k) || log_count(log, k) > 0) by {
                lemma_log_count_positive(log, k);
            }
            assert forall|k: u32| #[trigger] new_entries@.contains_key(k) implies new_known@.contains(k) by {}
            assert forall|i: int| 0 <= i < new_known@.len() implies #[trigger] new_entries@.contains_key(new_known@[i]) by {
                assert(new_known@.contains(new_known@[i]));
            }
        }
        let rounds = self.rounds + 1;
        *self = LayerUsageStats {
            entries: new_entries,
            known: new_known,
            decay: self.decay,
            selection_weight: self.selection_weight,
            rounds,
        };
    }
}

impl LayerUsageStats {
    /// The combined usage score of a layer (0 for a layer not seen yet).
    pub fn usage_score(&self, layer: LayerId) -> (s: Millionths)
        ensures
            s.0 == self.prev_entry(layer.0).score,
            s.0 <= 1_000_000,
    {
        proof {
            use_type_invariant(self);
        }
        match self.entries.get(&layer.0) {
            Some(e) => Millionths(e.score),
            None => Millionths(0),
        }
    }

    /// The selection-frequency EMA of a layer (0 for a layer not seen yet).
    pub fn selection_ema(&self, layer: LayerId) -> (s: Millionths)
        ensures
            s.0 == self.prev_entry(layer.0).selection,
            s.0 <= 1_000_000,
    {
        proof {
            use_type_invariant(self);
        }
        match self.entries.get(&layer.0) {
            Some(e) => Millionths(e.selection),
            None => Millionths(0),
        }
    }

    /// The activation-magnitude EMA of a layer (0 for a layer not seen yet).
    pub fn activation_ema(&self, layer: LayerId) -> (s: Millionths)
        ensures
            s.0 == self.prev_entry(layer.0).activation,
            s.0 <= 1_000_000,
    {
        proof {
            use_type_invariant(self);
        }
        match self.entries.get(&layer.0) {
            Some(e) => Millionths(e.activation),
            None => Millionths(0),
        }
    }

    /// Every known layer with its score, in the order layers were first seen.
    fn score_pairs(&self) -> (r: Vec<(LayerId, usize)>)
        ensures
            self.lists_all_scores(r@),
    {
        proof {
            use_type_invariant(self);
        }
        let n = self.known.len();
        let mut r: Vec<(LayerId, usize)> = Vec::new();
        let mut i: usize = 0;
        while i < n
            invariant
                n == self.known@.len(),
                i <= n,
                self.known@.no_duplicates(),
                forall|t: int|
                    0 <= t < n ==> #[trigger] self.entries@.contains_key(self.known@[t]),
                r@.len() == i,
                forall|t: int|
                    0 <= t < i ==> #[trigger] r@[t] == (
                        LayerId(self.known@[t]),
                        self.entries@[self.known@[t]].score as usize,
                    ),
            decreases n - i,
        {
            let k = self.known[i];
            assert(self.entries@.contains_key(k));
            let sc: usize = match self.entries.get(&k) {
                Some(e) => e.score as usize,
                None => 0,
            };
            r.push((LayerId(k), sc));
            i = i + 1;
        }
        proof {
            assert forall|a: int, b: int| 0 <= a < b < r@.len() implies #[trigger] r@[a].0
                != #[trigger] r@[b].0 by {
                assert(self.known@[a] != self.known@[b]);
            }
            assert forall|t: int| 0 <= t < r@.len() implies #[trigger] self.usage_view().contains_key(
                r@[t].0.0,
            ) && r@[t].1 == self.usage_view()[r@[t].0.0].score by {
                assert(self.entries@.contains_key(self.known@[t]));
            }
            assert(self.entries@.dom() =~= self.known@.to_set());
            self.known@.unique_seq_to_set();
        }
        r
    }

    /// All known layers with their scores, highest score first.
    ///
    /// Layers with equal scores come in the order they were first seen.
    pub fn ranked(&self) -> (r: Vec<(LayerId, Millionths)>)
        ensures
            self.lists_scores(r@),
            scores_desc(r@),
    {
        proof {
            use_type_invariant(self);
        }
        let pairs = sort_desc_by_count(self.score_pairs());
        let n = pairs.len();
        let mut r: Vec<(LayerId, Millionths)> = Vec::new();
        for i in 0..n
            invariant
                n == pairs@.len(),
                self.lists_all_scores(pairs@),
                sorted_desc(pairs@),
                forall|k: u32|
                    #[trigger] self.entries@.contains_key(k) ==> entry_ok(
                        self.entries@[k],
                        self.selection_weight as int,
                    ),
                r@.len() == i,
                forall|t: int|
                    0 <= t < i ==> #[trigger] r@[t] == (pairs@[t].0, Millionths(pairs@[t].1 as u32)),
        {
            assert(self.usage_view().contains_key(pairs@[i as int].0.0));
            r.push((pairs[i].0, Millionths(pairs[i].1 as u32)));
        }
        proof {
            assert forall|a: int, b: int| 0 <= a < b < r@.len() implies #[trigger] r@[a].0
                != #[trigger] r@[b].0 by {
                assert(pairs@[a].0 != pairs@[b].0);
            }
            assert forall|a: int, b: int| 0 <= a < b < r@.len() implies #[trigger] r@[a].1.0
                >= #[trigger] r@[b].1.0 by {
                assert(pairs@[a].1 >= pairs@[b].1);
                assert(self.usage_view().contains_key(pairs@[a].0.0));
                assert(self.usage_view().contains_key(pairs@[b].0.0));
            }
            assert forall|t: int| 0 <= t < r@.len() implies #[trigger] self.usage_view().contains_key(
                r@[t].0.0,
            ) && r@[t].1.0 == self.usage_view()[r@[t].0.0].score by {
                assert(self.usage_view().contains_key(pairs@[t].0.0));
            }
        }
        r
    }

    /// The `k` hottest layers (highest score first); fewer if fewer are known.
    pub fn hot_layers(&self, k: usize) -> (r: Vec<LayerId>)
        ensures
            exists|full: Seq<(LayerId, usize)>|
                #![trigger self.lists_all_scores(full)]
                self.lists_all_scores(full) && sorted_desc(full) && r@ == first_ids(full, k),
    {
        let full = sort_desc_by_count(self.score_pairs());
        let r = take_ids(&full, k);
        assert(self.lists_all_scores(full@) && sorted_desc(full@));
        r
    }

    /// The `k` coldest layers (lowest score first); fewer if fewer are known.
    pub fn cold_layers(&self, k: usize) -> (r: Vec<LayerId>)
        ensures
            exists|full: Seq<(LayerId, usize)>|
                #![trigger self.lists_all_scores(full)]
                self.lists_all_scores(full) && sorted_desc(full) && r@ == first_ids(
                    full.reverse(),
                    k,
                ),
    {
        let full = sort_desc_by_count(self.score_pairs());
        let n = full.len();
        let mut rev: Vec<(LayerId, usize)> = Vec::new();
        for i in 0..n
            invariant
                n == full@.len(),
                rev@ == full@.reverse().take(i as int),
        {
            rev.push(full[n - 1 - i]);
            assert(rev@ == full@.reverse().take(i + 1));
        }
        assert(rev@ == full@.reverse());
        let r = take_ids(&rev, k);
        assert(self.lists_all_scores(full@) && sorted_desc(full@));
        r
    }

    /// Number of update rounds processed.
    pub fn rounds(&self) -> (n: usize)
        ensures
            n == self.rounds_view(),
    {
        self.rounds
    }

    /// A copy with the same statistics and settings.
    pub fn clone(&self) -> (c: LayerUsageStats)
        ensures
            c.usage_view() == self.usage_view(),
            c.decay_view() == self.decay_view(),
            c.weight_view() == self.weight_view(),
            c.rounds_view() == self.rounds_view(),
    {
        proof {
            use_type_invariant(self);
        }
        let known = self.known.clone();
        assert(known@ =~= self.known@);
        LayerUsageStats {
            entries: self.entries.clone(),
            known,
            decay: self.decay,
            selection_weight: self.selection_weight,
            rounds: self.rounds,
        }
    }

    /// Forget every layer and reset the round count; the decay and the
    /// selection weight are kept.
    pub fn clear(&mut self)
        ensures
            final(self).usage_view() == Map::<u32, UsageEntry>::empty(),
            final(self).rounds_view() == 0,
            final(self).decay_view() == old(self).decay_view(),
            final(self).weight_view() == old(self).weight_view(),
    {
        proof {
            use_type_invariant(&*self);
        }
        *self = LayerUsageStats {
            entries: HashMap::new(),
            known: Vec::new(),
            decay: self.decay,
            selection_weight: self.selection_weight,
            rounds: 0,
        };
    }
}

impl Default for LayerUsageStats {
    /// Decay 0.2 and equal weight for selection and activation.
    fn default() -> (s: LayerUsageStats)
        ensures
            s.usage_view() == Map::<u32, UsageEntry>::empty(),
            s.decay_view() == 200_000,
            s.weight_view() == 500_000,
            s.rounds_view() == 0,
    {
        LayerUsageStats::new(Millionths(200_000), Millionths(500_000))
    }
}

/// A layer that was not logged in a round has its averages decay toward 0:
/// its new selection and activation are exactly `(1 - decay)` times the old
/// ones (rounded down), strictly smaller when they were positive.
pub proof fn lemma_unlogged_layer_decays(
    stats: LayerUsageStats,
    log: Seq<(LayerId, Millionths)>,
    program_length: usize,
    k: u32,
)
    requires
        10_000 <= stats.decay_view() <= 1_000_000,
        log_count(log, k) == 0,
    ensures
        stats.updated_entry(k, log, program_length).selection == ((unit()
            - stats.decay_view()) * stats.prev_entry(k).selection) / unit(),
        stats.updated_entry(k, log, program_length).activation == ((unit()
            - stats.decay_view()) * stats.prev_entry(k).activation) / unit(),
        stats.prev_entry(k).selection > 0 ==> stats.updated_entry(k, log, program_length).selection
            < stats.prev_entry(k).selection,
        stats.prev_entry(k).activation > 0 ==> stats.updated_entry(
            k,
            log,
            program_length,
        ).activation < stats.prev_entry(k).activation,
{
    lemma_log_count_zero_peak(log, k);
    let a = stats.decay_view() as int;
    let ps = stats.prev_entry(k).selection as int;
    let pa = stats.prev_entry(k).activation as int;
    assert(frequency_of(0, program_length as nat) == 0);
    lemma_decay_step(a, ps);
    lemma_decay_step(a, pa);
}

proof fn lemma_decay_step(a: int, p: int)
    requires
        10_000 <= a <= unit(),
        0 <= p <= u32::MAX,
    ensures
        ema(a, 0, p) == ((unit() - a) * p) / unit(),
        0 <= ema(a, 0, p) <= u32::MAX,
        p > 0 ==> ema(a, 0, p) < p,
{
    assert(a * 0 == 0);
    assert(0 <= (unit() - a) * p <= unit() * p) by (nonlinear_arith)
        requires
            10_000 <= a <= unit(),
            0 <= p,
            unit() == 1_000_000,
    ;
    if p > 0 {
        assert((unit() - a) * p < unit() * p) by (nonlinear_arith)
            requires
                10_000 <= a <= unit(),
                0 < p,
                unit() == 1_000_000,
        ;
        assert(((unit() - a) * p) / unit() < p) by (nonlinear_arith)
            requires
                (unit() - a) * p < unit() * p,
                0 <= (unit() - a) * p,
                unit() == 1_000_000,
        ;
    }
    assert(((unit() - a) * p) / unit() <= p) by (nonlinear_arith)
        requires
            (unit() - a) * p <= unit() * p,
            0 <= (unit() - a) * p,
            unit() == 1_000_000,
    ;
}

/// A layer absent from the log has peak magnitude 0.
proof fn lemma_log_count_zero_peak(log: Seq<(LayerId, Millionths)>, k: u32)
    requires
        log_count(log, k) == 0,
    ensures
        log_peak(log, k) == 0,
    decreases log.len(),
{
    if log.len() > 0 {
        lemma_log_count_zero_peak(log.drop_last(), k);
    }
}

/// With all weight on selection the score is the selection average; with
/// none it is the activation average.
pub proof fn lemma_blend_extremes(selection: int, activation: int)
    ensures
        blend(unit(), selection, activation) == selection,
        blend(0, selection, activation) == activation,
{
    assert(unit() * selection + 0 * activation == unit() * selection) by (nonlinear_arith);
    assert(0 * selection + unit() * activation == unit() * activation) by (nonlinear_arith);
    assert((unit() * selection) / unit() == selection) by (nonlinear_arith)
        requires
            unit() == 1_000_000,
    ;
    assert((unit() * activation) / unit() == activation) by (nonlinear_arith)
        requires
            unit() == 1_000_000,
    ;
}

/// `a * x + (1 - a) * p` in millionths, rounded down; with every argument at
/// most 1 the result is too.
fn ema_step(a: u64, x: u64, p: u64) -> (r: u64)
    requires
        a <= 1_000_000,
        x <= 1_000_000,
        p <= 1_000_000,
    ensures
        r == ema(a as int, x as int, p as int),
        r == blend(a as int, x as int, p as int),
        r <= 1_000_000,
{
    assert(a * x <= 1_000_000 * 1_000_000) by (nonlinear_arith)
        requires
            a <= 1_000_000,
            x <= 1_000_000,
    ;
    assert((1_000_000 - a) * p <= 1_000_000 * 1_000_000) by (nonlinear_arith)
        requires
            a <= 1_000_000,
            p <= 1_000_000,
    ;
    let r = (a * x + (1_000_000 - a) * p) / 1_000_000;
    proof {
        lemma_ema_between(a as int, x as int, p as int);
    }
    r
}

/// Count the entries of `log` for layer `l`.
fn count_in_log(log: &ActivationLog, l: u32) -> (c: usize)
    ensures
        c == log_count(log@, l),
        c <= log@.len(),
{
    let n = log.len();
    let mut c: usize = 0;
    for i in 0..n
        invariant
            n == log@.len(),
            c == log_count(log@.take(i as int), l),
            c <= i,
    {
        assert(log@.take(i + 1).drop_last() == log@.take(i as int));
        if log[i].0.0 == l {
            c = c + 1;
        }
    }
    assert(log@.take(n as int) == log@);
    c
}

/// The largest magnitude logged for layer `l`.
fn peak_in_log(log: &ActivationLog, l: u32) -> (m: u32)
    ensures
        m == log_peak(log@, l),
{
    let n = log.len();
    let mut m: u32 = 0;
    for i in 0..n
        invariant
            n == log@.len(),
            m == log_peak(log@.take(i as int), l),
    {
        assert(log@.take(i + 1).drop_last() == log@.take(i as int));
        if log[i].0.0 == l && log[i].1.0 > m {
            m = log[i].1.0;
        }
    }
    assert(log@.take(n as int) == log@);
    m
}

/// A layer is counted in the log exactly when some entry names it.
proof fn lemma_log_count_positive(log: Seq<(LayerId, Millionths)>, l: u32)
    ensures
        log_count(log, l) > 0 <==> exists|q: int| 0 <= q < log.len() && #[trigger] log[q].0.0 == l,
    decreases log.len(),
{
    if log.len() > 0 {
        let t = log.drop_last();
        lemma_log_count_positive(t, l);
        if exists|q: int| 0 <= q < t.len() && #[trigger] t[q].0.0 == l {
            let q = choose|q: int| 0 <= q < t.len() && #[trigger] t[q].0.0 == l;
            assert(log[q].0.0 == l);
        }
        if exists|q: int| 0 <= q < log.len() && #[trigger] log[q].0.0 == l {
            let q = choose|q: int| 0 <= q < log.len() && #[trigger] log[q].0.0 == l;
            if q < log.len() - 1 {
                assert(t[q].0.0 == l);
            }
        }
    }
}

/// One EMA step lies between the new observation and the previous value:
/// averages of fractions stay fractions.
pub proof fn lemma_ema_between(alpha: int, x: int, prev: int)
    requires
        0 <= alpha <= unit(),
        0 <= x,
        0 <= prev,
    ensures
        ema(alpha, x, prev) >= (if x < prev {
            x
        } else {
            prev
        }),
        ema(alpha, x, prev) <= (if x > prev {
            x
        } else {
            prev
        }),
{
    let lo = if x < prev {
        x
    } else {
        prev
    };
    let hi = if x > prev {
        x
    } else {
        prev
    };
    assert(alpha * x + (unit() - alpha) * prev >= unit() * lo) by (nonlinear_arith)
        requires
            0 <= alpha <= unit(),
            lo <= x,
            lo <= prev,
            unit() == 1_000_000,
    ;
    assert(alpha * x + (unit() - alpha) * prev <= unit() * hi) by (nonlinear_arith)
        requires
            0 <= alpha <= unit(),
            x <= hi,
            prev <= hi,
            unit() == 1_000_000,
    ;
    assert((unit() * lo) / unit() == lo) by (nonlinear_arith)
        requires
            unit() == 1_000_000,
    ;
    assert((unit() * hi) / unit() == hi) by (nonlinear_arith)
        requires
            unit() == 1_000_000,
    ;
    assert(ema(alpha, x, prev) >= lo) by (nonlinear_arith)
        requires
            alpha * x + (unit() - alpha) * prev >= unit() * lo,
            (unit() * lo) / unit() == lo,
            unit() == 1_000_000,
            ema(alpha, x, prev) == (alpha * x + (unit() - alpha) * prev) / unit(),
    ;
    assert(ema(alpha, x, prev) <= hi) by (nonlinear_arith)
        requires
            alpha * x + (unit() - alpha) * prev <= unit() * hi,
            (unit() * hi) / unit() == hi,
            unit() == 1_000_000,
            ema(alpha, x, prev) == (alpha * x + (unit() - alpha) * prev) / unit(),
    ;
}

} // verus!
