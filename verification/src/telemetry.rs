//! Router selection telemetry: how often each layer appears across the
//! programs the router has emitted. Frequently selected ("hot") layers are
//! candidates for GPU residency, rarely selected ("cold") ones for eviction.
use vstd::prelude::*;

use std::collections::HashMap;

use crate::layer_program::{count_of, LayerId, LayerProgram};
use crate::reasoning::Millionths;

verus! {

broadcast use vstd::std_specs::hash::group_hash_axioms;

/// `s` is ordered by count, largest first.
pub open spec fn sorted_desc(s: Seq<(LayerId, usize)>) -> bool {
    forall|i: int, j: int| 0 <= i < j < s.len() ==> #[trigger] s[i].1 >= #[trigger] s[j].1
}

/// `s` is ordered by count, smallest first.
pub open spec fn sorted_asc(s: Seq<(LayerId, usize)>) -> bool {
    forall|i: int, j: int| 0 <= i < j < s.len() ==> #[trigger] s[i].1 <= #[trigger] s[j].1
}

/// No layer occurs twice in `s`.
pub open spec fn distinct_layers(s: Seq<(LayerId, usize)>) -> bool {
    forall|i: int, j: int| 0 <= i < j < s.len() ==> #[trigger] s[i].0 != #[trigger] s[j].0
}

/// No layer id occurs twice in `s`.
pub open spec fn distinct_ids(s: Seq<LayerId>) -> bool {
    forall|i: int, j: int| 0 <= i < j < s.len() ==> #[trigger] s[i] != #[trigger] s[j]
}

/// The count of `l` in a count map (0 when absent).
pub open spec fn count_in(m: Map<u32, usize>, l: LayerId) -> nat {
    if m.contains_key(l.0) {
        m[l.0] as nat
    } else {
        0
    }
}

/// Per-layer selection frequency counter.
pub struct LayerSelectionStats {
    counts: HashMap<u32, usize>,
    total_programs: usize,
    total_executions: usize,
    history: Ghost<Seq<LayerId>>,
}

impl LayerSelectionStats {
    #[verifier::type_invariant]
    spec fn inv(self) -> bool {
        &&& forall|k: u32|
            #[trigger] self.counts@.contains_key(k) ==> 1 <= self.counts@[k]
                <= self.total_executions
        &&& self.total_executions == self.history@.len()
        &&& forall|l: LayerId| #[trigger] count_in(self.counts@, l) == count_of(self.history@, l)
    }

    /// Every layer execution recorded so far, program after program.
    pub closed spec fn history_view(&self) -> Seq<LayerId> {
        self.history@
    }

    /// The selection count of every layer seen so far, keyed by layer number.
    pub closed spec fn counts_view(&self) -> Map<u32, usize> {
        self.counts@
    }

    /// The selection count of `l` (0 if never selected).
    pub open spec fn count_spec(&self, l: LayerId) -> nat {
        count_in(self.counts_view(), l)
    }

    /// Number of programs recorded.
    pub closed spec fn programs_view(&self) -> usize {
        self.total_programs
    }

    /// Number of layer executions recorded.
    pub closed spec fn executions_view(&self) -> usize {
        self.total_executions
    }

    /// The count map holds finitely many layers: exactly those selected at
    /// least once.
    pub open spec fn domain_exact(&self) -> bool {
        &&& self.counts_view().dom().finite()
        &&& forall|k: u32| #[trigger]
            self.counts_view().contains_key(k) <==> self.count_spec(LayerId(k)) > 0
    }

    /// `r` lists every recorded layer once, with its count, which is at
    /// least 1.
    pub open spec fn lists_all_counts(&self, r: Seq<(LayerId, usize)>) -> bool {
        &&& r.len() == self.counts_view().dom().len()
        &&& distinct_layers(r)
        &&& forall|i: int|
            0 <= i < r.len() ==> #[trigger] self.counts_view().contains_key(r[i].0.0)
                && self.counts_view()[r[i].0.0] == r[i].1 && r[i].1 >= 1
    }

    /// Create an empty accumulator.
    pub fn new() -> (s: LayerSelectionStats)
        ensures
            s.counts_view() == Map::<u32, usize>::empty(),
            s.domain_exact(),
            s.programs_view() == 0,
            s.executions_view() == 0,
            s.history_view() == Seq::<LayerId>::empty(),
    {
        LayerSelectionStats {
            counts: HashMap::new(),
            total_programs: 0,
            total_executions: 0,
            history: Ghost(Seq::empty()),
        }
    }

    /// Record one program: every occurrence of a layer adds one to its
    /// count, the program count grows by one and the execution count by the
    /// program's length.
    pub fn record(&mut self, program: &LayerProgram)
        requires
            old(self).programs_view() < usize::MAX,
            old(self).executions_view() + program.steps_view().len() <= usize::MAX,
        ensures
            final(self).programs_view() == old(self).programs_view() + 1,
            final(self).executions_view() == old(self).executions_view()
                + program.steps_view().len(),
            forall|l: LayerId| #[trigger]
                final(self).count_spec(l) == old(self).count_spec(l) + count_of(
                    program.steps_view(),
                    l,
                ),
            final(self).history_view() == old(self).history_view() + program.steps_view(),
            final(self).domain_exact(),
    {
        proof {
            use_type_invariant(&*self);
        }
        let steps = program.as_slice();
        let n = steps.len();
        let ghost s = steps@;
        let ghost start = *self;
        let mut taken = LayerSelectionStats::new();
        std::mem::swap(&mut taken, self);
        let LayerSelectionStats { counts, total_programs, total_executions, history: _ } = taken;
        let mut counts = counts;
        let mut total_executions = total_executions;
        for i in 0..n
            invariant
                n == s.len(),
                s == steps@,
                s == program.steps_view(),
                start.executions_view() + n <= usize::MAX,
                total_executions == start.total_executions + i,
                forall|k: u32|
                    #[trigger] counts@.contains_key(k) ==> 1 <= counts@[k] <= total_executions,
                forall|l: LayerId| #[trigger]
                    count_in(counts@, l) == start.count_spec(l) + count_of(s.take(i as int), l),
        {
            let layer = steps[i];
            assert(s.take(i + 1).drop_last() == s.take(i as int));
            let c: usize = match counts.get(&layer.0) {
                Some(c) => *c,
                None => 0,
            };
            assert(c == count_in(counts@, layer));
            total_executions = total_executions + 1;
            let ghost before = counts@;
            counts.insert(layer.0, c + 1);
            assert forall|l: LayerId| #[trigger]
                count_in(counts@, l) == start.count_spec(l) + count_of(s.take(i + 1), l) by {
                assert(s.take(i + 1).last() == s[i as int]);
                assert(count_in(before, l) == start.count_spec(l) + count_of(s.take(i as int), l));
                if l.0 == layer.0 {
                    assert(l == layer);
                }
            }
        }
        assert(s.take(n as int) == s);
        proof {
            assert forall|l: LayerId| #[trigger] count_in(counts@, l) == count_of(start.history@ + s, l) by {
                lemma_count_concat(start.history@, s, l);
            }
        }
        *self = LayerSelectionStats {
            counts,
            total_programs: total_programs + 1,
            total_executions,
            history: Ghost(start.history@ + s),
        };
        proof {
            self.lemma_domain_exact();
        }
    }

    /// A value whose counts are all positive has an exact domain.
    proof fn lemma_domain_exact(&self)
        requires
            forall|k: u32| #[trigger] self.counts@.contains_key(k) ==> 1 <= self.counts@[k],
        ensures
            self.domain_exact(),
    {
        assert(self.counts@.dom().finite());
        assert forall|k: u32| #[trigger]
            self.counts_view().contains_key(k) <==> self.count_spec(LayerId(k)) > 0 by {
            if self.counts_view().contains_key(k) {
                assert(self.counts@[k] >= 1);
            }
        }
    }

    /// Selection count for a specific layer.
    ///
    /// Every count is the number of occurrences of the layer among all
    /// recorded executions.
    pub fn count(&self, layer: LayerId) -> (c: usize)
        ensures
            c == self.count_spec(layer),
            c == count_of(self.history_view(), layer),
    {
        proof {
            use_type_invariant(self);
            assert(count_in(self.counts@, layer) == count_of(self.history@, layer));
        }
        match self.counts.get(&layer.0) {
            Some(c) => *c,
            None => 0,
        }
    }

    /// Selection frequency of a layer, `count / total_executions`, in
    /// millionths rounded down; 0 when nothing has been recorded.
    pub fn frequency(&self, layer: LayerId) -> (f: Millionths)
        ensures
            f.0 == (if self.executions_view() == 0 {
                0
            } else {
                self.count_spec(layer) * 1_000_000 / (self.executions_view() as nat)
            }),
            f.0 <= 1_000_000,
    {
        proof {
            use_type_invariant(self);
        }
        if self.total_executions == 0 {
            return Millionths(0);
        }
        let c = self.count(layer);
        let total = self.total_executions;
        assert(c <= total);
        let num: u128 = c as u128 * 1_000_000;
        assert(c * 1_000_000 <= total * 1_000_000) by (nonlinear_arith)
            requires
                c <= total,
        ;
        let q: u128 = num / total as u128;
        assert(q <= 1_000_000) by (nonlinear_arith)
            requires
                q == num / (total as u128),
                num <= total * 1_000_000,
                total > 0,
        ;
        Millionths(q as u32)
    }

    /// All recorded layers with their counts, largest count first.
    ///
    /// Layers with equal counts come in an unspecified order.
    pub fn ranked(&self) -> (r: Vec<(LayerId, usize)>)
        ensures
            self.domain_exact(),
            self.lists_all_counts(r@),
            sorted_desc(r@),
    {
        let mut entries: Vec<(LayerId, usize)> = Vec::new();
        let ghost m = self.counts@;
        for kv in it: self.counts.iter()
            invariant
                entries@.len() == it.index(),
                it.seq().len() == m.dom().len(),
                it.seq().no_duplicates(),
                forall|i: int|
                    0 <= i < it.seq().len() ==> #[trigger] m.contains_key(*it.seq()[i].0)
                        && m[*it.seq()[i].0] == *it.seq()[i].1,
                forall|j: int|
                    0 <= j < entries@.len() ==> #[trigger] entries@[j] == (
                        LayerId(*it.seq()[j].0),
                        *it.seq()[j].1,
                    ),
                forall|j: int|
                    0 <= j < entries@.len() ==> #[trigger] m.contains_key(entries@[j].0.0)
                        && m[entries@[j].0.0] == entries@[j].1,
                distinct_layers(entries@),
                m == self.counts@,
        {
            let (k, v) = kv;
            let ghost idx = entries@.len() as int;
            proof {
                assert forall|j: int| 0 <= j < idx implies entries@[j].0 != LayerId(*k) by {
                    if entries@[j].0 == LayerId(*k) {
                        assert(kv == it.seq()[idx]);
                        assert(*it.seq()[j].0 == *k);
                        assert(m.contains_key(*it.seq()[idx].0));
                        assert(m.contains_key(*it.seq()[j].0));
                        assert(*it.seq()[j].1 == *v);
                        assert(it.seq()[j] == it.seq()[idx]);
                    }
                }
            }
            entries.push((LayerId(*k), *v));
        }
        assert(entries@.len() == m.dom().len());
        let r = sort_desc_by_count(entries);
        proof {
            use_type_invariant(self);
            self.lemma_domain_exact();
            assert forall|i: int| 0 <= i < r@.len() implies #[trigger] r@[i].1 >= 1 by {
                assert(self.counts@.contains_key(r@[i].0.0));
            }
        }
        r
    }

    /// The `k` most frequently selected layers (hot layers), most selected
    /// first; fewer if fewer layers were recorded.
    pub fn hot_layers(&self, k: usize) -> (r: Vec<LayerId>)
        ensures
            exists|full: Seq<(LayerId, usize)>|
                #![trigger self.lists_all_counts(full)]
                self.lists_all_counts(full) && sorted_desc(full) && r@ == first_ids(full, k),
    {
        let full = self.ranked();
        let r = take_ids(&full, k);
        assert(self.lists_all_counts(full@) && sorted_desc(full@));
        r
    }

    /// The `k` least frequently selected layers (cold layers), least
    /// selected first; fewer if fewer layers were recorded.
    pub fn cold_layers(&self, k: usize) -> (r: Vec<LayerId>)
        ensures
            exists|full: Seq<(LayerId, usize)>|
                #![trigger self.lists_all_counts(full)]
                self.lists_all_counts(full) && sorted_desc(full) && r@ == first_ids(
                    full.reverse(),
                    k,
                ),
    {
        let full = self.ranked();
        let n = full.len();
        let mut rev: Vec<(LayerId, usize)> = Vec::new();
        for i in 0..n
            invariant
                n == full@.len(),
                rev@ == full@.reverse().take(i as int),
        {
            rev.push(full[n - 1 - i]);
            assert(rev@ == full@.reverse().take(i + 1));
        }
        assert(rev@ == full@.reverse());
        let r = take_ids(&rev, k);
        assert(self.lists_all_counts(full@) && sorted_desc(full@));
        r
    }

    /// Total number of programs recorded.
    pub fn total_programs(&self) -> (n: usize)
        ensures
            n == self.programs_view(),
    {
        self.total_programs
    }

    /// Total layer executions across all recorded programs.
    ///
    /// The total is the number of recorded executions.
    pub fn total_executions(&self) -> (n: usize)
        ensures
            n == self.executions_view(),
            n == self.history_view().len(),
    {
        proof {
            use_type_invariant(self);
        }
        self.total_executions
    }

    /// A copy with the same counts and totals.
    pub fn clone(&self) -> (c: LayerSelectionStats)
        ensures
            c.counts_view() == self.counts_view(),
            c.programs_view() == self.programs_view(),
            c.executions_view() == self.executions_view(),
            c.history_view() == self.history_view(),
    {
        proof {
            use_type_invariant(self);
        }
        LayerSelectionStats {
            counts: self.counts.clone(),
            total_programs: self.total_programs,
            total_executions: self.total_executions,
            history: Ghost(self.history@),
        }
    }

    /// Reset all counters.
    pub fn clear(&mut self)
        ensures
            final(self).counts_view() == Map::<u32, usize>::empty(),
            final(self).domain_exact(),
            final(self).programs_view() == 0,
            final(self).executions_view() == 0,
            final(self).history_view() == Seq::<LayerId>::empty(),
    {
        *self = LayerSelectionStats {
            counts: HashMap::new(),
            total_programs: 0,
            total_executions: 0,
            history: Ghost(Seq::empty()),
        };
    }
}

impl Default for LayerSelectionStats {
    fn default() -> (s: LayerSelectionStats)
        ensures
            s.counts_view() == Map::<u32, usize>::empty(),
            s.domain_exact(),
            s.programs_view() == 0,
            s.executions_view() == 0,
            s.history_view() == Seq::<LayerId>::empty(),
    {
        LayerSelectionStats::new()
    }
}

/// Occurrences in a concatenation add up.
proof fn lemma_count_concat(a: Seq<LayerId>, b: Seq<LayerId>, x: LayerId)
    ensures
        count_of(a + b, x) == count_of(a, x) + count_of(b, x),
    decreases b.len(),
{
    if b.len() == 0 {
        assert(a + b == a);
    } else {
        lemma_count_concat(a, b.drop_last(), x);
        assert((a + b).drop_last() == a + b.drop_last());
    }
}

/// Stable insertion sort of `e` by count, largest first.
#[verifier::rlimit(30)]
pub(crate) fn sort_desc_by_count(e: Vec<(LayerId, usize)>) -> (r: Vec<(LayerId, usize)>)
    ensures
        r@.len() == e@.len(),
        sorted_desc(r@),
        forall|j: int| 0 <= j < r@.len() ==> exists|i: int| 0 <= i < e@.len() && #[trigger] r@[j] == e@[i],
        distinct_layers(e@) ==> distinct_layers(r@),
{
    let n = e.len();
    let mut r: Vec<(LayerId, usize)> = Vec::new();
    let mut i: usize = 0;
    while i < n
        invariant
            n == e@.len(),
            i <= n,
            r@.len() == i,
            sorted_desc(r@),
            forall|j: int| 0 <= j < r@.len() ==> exists|m: int| 0 <= m < i && #[trigger] r@[j] == e@[m],
            distinct_layers(e@) ==> distinct_layers(r@),
        decreases n - i,
    {
        let x = e[i];
        let mut p: usize = 0;
        while p < r.len() && r[p].1 >= x.1
            invariant
                p <= r@.len(),
                forall|q: int| 0 <= q < p ==> #[trigger] r@[q].1 >= x.1,
            decreases r@.len() - p,
        {
            p = p + 1;
        }
        let ghost old_r = r@;
        r.insert(p, x);
        proof {
            old_r.insert_ensures(p as int, x);
            assert(r@ == old_r.insert(p as int, x));
            assert forall|a: int, b: int| 0 <= a < b < r@.len() implies #[trigger] r@[a].1 >= #[trigger] r@[b].1 by {
                if b < p {
                } else if b == p {
                } else if a < p {
                    assert(r@[b] == old_r[b - 1]);
                } else if a == p {
                    assert(r@[b] == old_r[b - 1]);
                    assert(old_r[p as int].1 < x.1);
                    if b - 1 > p {
                        assert(old_r[p as int].1 >= old_r[b - 1].1);
                    }
                } else {
                    assert(r@[b] == old_r[b - 1]);
                    assert(r@[a] == old_r[a - 1]);
                }
            }
            assert forall|j: int| 0 <= j < r@.len() implies exists|m: int| 0 <= m < i + 1 && #[trigger] r@[j] == e@[m] by {
                if j < p {
                    assert(r@[j] == old_r[j]);
                } else if j == p {
                    assert(r@[j] == e@[i as int]);
                } else {
                    assert(r@[j] == old_r[j - 1]);
                }
            }
            if distinct_layers(e@) {
                assert forall|a: int, b: int| 0 <= a < b < r@.len() implies #[trigger] r@[a].0 != #[trigger] r@[b].0 by {
                    let ga = if a < p { a } else if a == p { -1 } else { a - 1 };
                    let gb = if b < p { b } else if b == p { -1 } else { b - 1 };
                    if ga >= 0 && gb >= 0 {
                        assert(r@[a] == old_r[ga]);
                        assert(r@[b] == old_r[gb]);
                    } else if ga < 0 {
                        assert(r@[b] == old_r[gb]);
                        let mb = choose|m: int| 0 <= m < i && #[trigger] old_r[gb] == e@[m];
                        assert(e@[mb].0 != e@[i as int].0);
                    } else {
                        assert(r@[a] == old_r[ga]);
                        let ma = choose|m: int| 0 <= m < i && #[trigger] old_r[ga] == e@[m];
                        assert(e@[ma].0 != e@[i as int].0);
                    }
                }
            }
        }
        i = i + 1;
    }
    r
}

/// The layer ids of the first `k` entries of `s` (all of them when `s` is
/// shorter).
pub open spec fn first_ids(s: Seq<(LayerId, usize)>, k: usize) -> Seq<LayerId> {
    let n = if k < s.len() {
        k as int
    } else {
        s.len() as int
    };
    s.take(n).map_values(|p: (LayerId, usize)| p.0)
}

pub(crate) fn take_ids(s: &Vec<(LayerId, usize)>, k: usize) -> (r: Vec<LayerId>)
    ensures
        r@ == first_ids(s@, k),
{
    let n = if k < s.len() {
        k
    } else {
        s.len()
    };
    let mut r: Vec<LayerId> = Vec::new();
    for i in 0..n
        invariant
            n <= s@.len(),
            n == (if k < s@.len() { k as int } else { s@.len() as int }),
            r@ == s@.take(i as int).map_values(|p: (LayerId, usize)| p.0),
    {
        r.push(s[i].0);
        assert(s@.take(i + 1) == s@.take(i as int).push(s@[i as int]));
        assert(r@ == s@.take(i + 1).map_values(|p: (LayerId, usize)| p.0));
    }
    r
}

} // verus!
