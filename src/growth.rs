//! Growing a topology: new synapses that keep every genome well formed.
use vstd::prelude::*;
use vstd::set_lib::{lemma_int_range, lemma_len_subset, set_int_range};
use crate::genome::{
    lemma_synapses_in_prefix, lemma_synapses_in_update, synapses_in, Gene, GeneView, Minet, MinetView,
    Synapse,
};
use crate::random::{choose_from, random_below};

verus! {

/// How a fresh individual receives its first synapses.
#[derive(Clone, Copy, Debug, PartialEq, Eq)]
pub enum GrowthPolicy {
    /// Connect random open pairs until the individual holds
    /// `(input + output) * hidden` synapses.
    Budget,
    /// Make three attempts per non-input neuron to connect it from a random
    /// lower input or hidden neuron.
    Reachability,
}

impl MinetView {
    /// The same individual with `syn` appended to the synapses of `source`.
    pub open spec fn with_synapse(self, source: int, syn: Synapse) -> MinetView {
        MinetView {
            genes: self.genes.update(
                source,
                GeneView {
                    bias_bits: self.genes[source].bias_bits,
                    synapses: self.genes[source].synapses.push(syn),
                },
            ),
            ..self
        }
    }

    /// No pair of slots may receive another synapse.
    pub open spec fn is_full(self) -> bool {
        forall|s: int, t: int| !#[trigger] self.is_candidate(s, t)
    }

    /// The number of synapses a full, well-formed individual holds at least
    /// among its first `k` genes.
    pub open spec fn full_floor(self, k: int) -> int
        decreases k,
    {
        if k <= 0 {
            0
        } else {
            let per = if k - 1 < self.input {
                (self.hidden + self.output) as int
            } else if k - 1 < self.source_count() {
                self.output as int
            } else {
                0
            };
            self.full_floor(k - 1) + per
        }
    }
}

/// The weights that a growth policy may consume for an individual of these
/// sizes.
pub open spec fn weight_demand(input: nat, hidden: nat, output: nat, growth: GrowthPolicy) -> nat {
    match growth {
        GrowthPolicy::Budget => ((input + output) * hidden) as nat,
        GrowthPolicy::Reachability => 3 * (hidden + output),
    }
}

/// In a full, well-formed individual the gene at `s` holds a synapse to
/// every slot it may connect to.
proof fn lemma_full_gene(m: MinetView, s: int)
    requires
        m.well_formed(),
        m.is_full(),
        0 <= s < m.genes.len(),
    ensures
        m.genes[s].synapses.len() >= if s < m.input {
            (m.hidden + m.output) as int
        } else if s < m.source_count() {
            m.output as int
        } else {
            0
        },
{
    if s < m.source_count() {
        let syn = m.genes[s].synapses;
        let targets = syn.map_values(|x: Synapse| x.target as int);
        let lo = if s + 1 < m.input { m.input as int } else { s + 1 };
        let hi = m.neuron_count() as int;
        lemma_int_range(lo, hi);
        assert forall|t: int| set_int_range(lo, hi).contains(t) implies targets.to_set().contains(t) by {
            assert(!m.is_candidate(s, t));
            assert(m.connected(s, t));
            let j = choose|j: int| 0 <= j < syn.len() && #[trigger] syn[j].target == t;
            assert(targets[j] == t);
        };
        targets.lemma_cardinality_of_set();
        lemma_len_subset(set_int_range(lo, hi), targets.to_set());
    }
}

/// A full, well-formed individual holds at least the floor over its genes.
proof fn lemma_full_floor(m: MinetView, k: int)
    requires
        m.well_formed(),
        m.is_full(),
        0 <= k <= m.genes.len(),
    ensures
        synapses_in(m.genes.take(k)) >= m.full_floor(k),
    decreases k,
{
    if k == 0 {
        assert(m.genes.take(0) =~= Seq::<GeneView>::empty());
    } else {
        lemma_full_floor(m, k - 1);
        lemma_synapses_in_prefix(m.genes, k - 1);
        lemma_full_gene(m, k - 1);
    }
}

/// The floor over the first `k` genes in closed form.
spec fn floor_closed(m: MinetView, k: int) -> int {
    let i = m.input as int;
    let h = m.hidden as int;
    let o = m.output as int;
    if k <= i {
        k * (h + o)
    } else if k <= i + h {
        i * (h + o) + (k - i) * o
    } else {
        i * (h + o) + h * o
    }
}

proof fn lemma_floor_closed(m: MinetView, k: int)
    requires
        0 <= k <= m.neuron_count(),
    ensures
        m.full_floor(k) == floor_closed(m, k),
    decreases k,
{
    if k > 0 {
        lemma_floor_closed(m, k - 1);
        let a = (m.hidden + m.output) as int;
        let o = m.output as int;
        let i = m.input as int;
        let h = m.hidden as int;
        if k <= i {
            assert((k - 1) * a + a == k * a) by (nonlinear_arith);
        } else if k <= i + h {
            if k - 1 <= i {
                assert(k - 1 == i);
                assert((k - i) * o == o) by (nonlinear_arith)
                    requires
                        k - i == 1,
                ;
            } else {
                assert((k - 1 - i) * o + o == (k - i) * o) by (nonlinear_arith);
            }
        } else {
            if k - 1 <= i {
                assert(h == 0);
                assert(h * o == 0) by (nonlinear_arith)
                    requires
                        h == 0,
                ;
            } else if k - 1 <= i + h {
                assert(k - 1 == i + h);
                assert((k - 1 - i) * o == h * o);
            }
        }
    }
}

/// A full, well-formed individual holds at least `(input + output) * hidden`
/// synapses, so budget growth always reaches its target.
pub proof fn lemma_full_reaches_budget(m: MinetView)
    requires
        m.well_formed(),
        m.is_full(),
    ensures
        m.synapse_total() >= (m.input + m.output) * m.hidden,
{
    lemma_full_floor(m, m.genes.len() as int);
    assert(m.genes.take(m.genes.len() as int) =~= m.genes);
    lemma_floor_closed(m, m.neuron_count() as int);
    let i = m.input as int;
    assert(m.neuron_count() as int > i + m.hidden as int || m.output == 0);
    let h = m.hidden as int;
    let o = m.output as int;
    assert(i * (h + o) + h * o >= (i + o) * h) by (nonlinear_arith)
        requires
            i >= 0,
            h >= 0,
            o >= 0,
    ;
}


impl MinetView {
    /// `source` may still receive a new synapse to some slot.
    pub open spec fn has_candidate(self, source: int) -> bool {
        exists|t: int| self.is_candidate(source, t)
    }
}

/// Appending a synapse to an open pair keeps the individual well formed and
/// adds one to its synapse count.
pub proof fn lemma_with_synapse(m: MinetView, s: int, syn: Synapse)
    requires
        m.well_formed(),
        m.is_candidate(s, syn.target as int),
    ensures
        m.with_synapse(s, syn).well_formed(),
        m.with_synapse(s, syn).same_shape(m),
        m.with_synapse(s, syn).synapse_total() == m.synapse_total() + 1,
{
    let r = m.with_synapse(s, syn);
    assert forall|x: int| 0 <= x < r.genes.len() implies #[trigger] r.gene_well_formed(x) by {
        assert(m.gene_well_formed(x));
        if x == s {
            let old_syn = m.genes[s].synapses;
            let new_syn = r.genes[s].synapses;
            assert forall|j: int, k: int| 0 <= j < k < new_syn.len() implies #[trigger] new_syn[j].target
                != #[trigger] new_syn[k].target by {
                if k == old_syn.len() {
                    assert(old_syn[j].target == new_syn[j].target);
                    assert(!m.connected(s, syn.target as int));
                }
            };
        }
    };
    lemma_synapses_in_update(
        m.genes,
        s,
        GeneView { bias_bits: m.genes[s].bias_bits, synapses: m.genes[s].synapses.push(syn) },
    );
}

/// Every slot in `c` is a candidate of `source`, and `c` holds them all.
spec fn lists_candidates(m: MinetView, source: int, c: Seq<usize>) -> bool {
    forall|t: usize| c.contains(t) <==> m.is_candidate(source, t as int)
}

proof fn lemma_empty_candidates(m: MinetView, source: int, c: Seq<usize>)
    requires
        lists_candidates(m, source, c),
        m.neuron_count() <= usize::MAX,
    ensures
        c.len() == 0 <==> !m.has_candidate(source),
{
    if m.has_candidate(source) {
        let t = choose|t: int| m.is_candidate(source, t);
        assert(c.contains(t as usize));
    }
    if c.len() > 0 {
        assert(c.contains(c[0]));
    }
}

impl Minet {
    /// Appends `syn` to the synapses of `source`.
    fn append_synapse(&mut self, source: usize, syn: Synapse)
        requires
            source < old(self).genes.len(),
        ensures
            final(self)@ == old(self)@.with_synapse(source as int, syn),
    {
        let ghost before = self@;
        self.genes[source].synapses.push(syn);
        assert(self@.genes =~= before.with_synapse(source as int, syn).genes);
    }

    /// Connects a random open pair of slots with a synapse of the given
    /// weight: a source is drawn among the slots that may still connect
    /// somewhere, then a target among that source's candidates. Returns
    /// `false`, and changes nothing, when no pair is open.
    pub fn synapse_connect_random(&mut self, weight_bits: u32, rng: &mut rand::rngs::StdRng) -> (added: bool)
        requires
            old(self)@.well_formed(),
        ensures
            final(self)@.well_formed(),
            final(self)@.same_shape(old(self)@),
            added ==> exists|s: int, t: int|
                old(self)@.is_candidate(s, t) && final(self)@ == old(self)@.with_synapse(
                    s,
                    Synapse { target: t as usize, weight_bits },
                ),
            !added ==> old(self)@.is_full() && final(self)@ == old(self)@,
            final(self)@.synapse_total() == old(self)@.synapse_total() + if added {
                1int
            } else {
                0int
            },
    {
        let n = self.genes.len();
        let non_output = self.input + self.hidden;
        let mut open: Vec<usize> = Vec::new();
        let mut s: usize = 0;
        while s < non_output
            invariant
                self@.well_formed(),
                non_output == self@.source_count(),
                s <= non_output,
                n == self@.neuron_count(),
                forall|j: int| 0 <= j < open@.len() ==> open@[j] < non_output && self@.has_candidate(#[trigger] open@[j] as int),
                open@.len() == 0 ==> forall|x: int| 0 <= x < s ==> !#[trigger] self@.has_candidate(x),
            decreases non_output - s,
        {
            let c = self.synapse_candidates(s);
            proof {
                lemma_empty_candidates(self@, s as int, c@);
            }
            if c.len() > 0 {
                open.push(s);
            }
            s += 1;
        }
        match choose_from(rng, &open) {
            None => {
                assert forall|x: int, t: int| !#[trigger] self@.is_candidate(x, t) by {
                    if 0 <= x < non_output {
                        assert(!self@.has_candidate(x));
                    }
                };
                false
            },
            Some(source) => {
                let ghost j = choose|j: int| 0 <= j < open@.len() && open@[j] == source;
                assert(self@.has_candidate(open@[j] as int));
                let c = self.synapse_candidates(source);
                proof {
                    lemma_empty_candidates(self@, source as int, c@);
                }
                match choose_from(rng, &c) {
                    None => false,
                    Some(target) => {
                        let syn = Synapse { target, weight_bits };
                        proof {
                            lemma_with_synapse(self@, source as int, syn);
                        }
                        self.append_synapse(source, syn);
                        true
                    },
                }
            },
        }
    }
}


impl MinetView {
    /// Every bias is zero.
    pub open spec fn biases_zero(self) -> bool {
        forall|s: int| 0 <= s < self.genes.len() ==> (#[trigger] self.genes[s]).bias_bits == 0
    }

    /// Every synapse weight is one of `weights`.
    pub open spec fn weights_drawn_from(self, weights: Seq<u32>) -> bool {
        forall|s: int, j: int|
            0 <= s < self.genes.len() && 0 <= j < self.genes[s].synapses.len() ==> weights.contains(
                #[trigger] self.genes[s].synapses[j].weight_bits,
            )
    }
}

/// Appending a synapse keeps the biases and, when its weight is one of
/// `weights`, keeps all weights drawn from them.
proof fn lemma_with_synapse_keeps(m: MinetView, s: int, syn: Synapse, weights: Seq<u32>)
    requires
        0 <= s < m.genes.len(),
        m.biases_zero(),
        m.weights_drawn_from(weights),
        weights.contains(syn.weight_bits),
    ensures
        m.with_synapse(s, syn).biases_zero(),
        m.with_synapse(s, syn).weights_drawn_from(weights),
{
    let r = m.with_synapse(s, syn);
    assert forall|x: int, j: int|
        0 <= x < r.genes.len() && 0 <= j < r.genes[x].synapses.len() implies weights.contains(
        #[trigger] r.genes[x].synapses[j].weight_bits,
    ) by {
        if x == s && j == m.genes[s].synapses.len() {
        } else {
            assert(r.genes[x].synapses[j] == m.genes[x].synapses[j]);
        }
    };
}

/// An individual of the given sizes with zero biases, zero fitness and no
/// synapses.
pub open spec fn blank(input: nat, hidden: nat, output: nat) -> MinetView {
    MinetView {
        genes: Seq::new(input + hidden + output, |i: int| GeneView { bias_bits: 0, synapses: Seq::empty() }),
        input,
        hidden,
        output,
        fitness_bits: 0,
    }
}

proof fn lemma_blank(input: nat, hidden: nat, output: nat)
    ensures
        blank(input, hidden, output).well_formed(),
        blank(input, hidden, output).biases_zero(),
        blank(input, hidden, output).synapse_total() == 0,
{
    let m = blank(input, hidden, output);
    lemma_no_synapses(m.genes, m.genes.len() as int);
    assert(m.genes.take(m.genes.len() as int) =~= m.genes);
}

/// Budget growth from `m` that adds synapse `j` between `pairs[j]` with
/// weight `weights[j]`, for the first `k` pairs.
pub open spec fn budget_grown(m: MinetView, pairs: Seq<(int, int)>, weights: Seq<u32>, k: nat) -> MinetView
    decreases k,
{
    if k == 0 {
        m
    } else {
        let p = budget_grown(m, pairs, weights, (k - 1) as nat);
        p.with_synapse(
            pairs[k - 1].0,
            Synapse { target: pairs[k - 1].1 as usize, weight_bits: weights[k - 1] },
        )
    }
}

/// Each pair was open when budget growth connected it.
pub open spec fn budget_valid(m: MinetView, pairs: Seq<(int, int)>, weights: Seq<u32>) -> bool {
    forall|j: int|
        0 <= j < pairs.len() ==> #[trigger] budget_grown(m, pairs, weights, j as nat).is_candidate(
            pairs[j].0,
            pairs[j].1,
        )
}

proof fn lemma_budget_prefix_same(m: MinetView, pairs: Seq<(int, int)>, next: Seq<(int, int)>, weights: Seq<u32>, k: nat)
    requires
        k <= pairs.len(),
        pairs.len() <= next.len(),
        pairs == next.subrange(0, pairs.len() as int),
    ensures
        budget_grown(m, next, weights, k) == budget_grown(m, pairs, weights, k),
    decreases k,
{
    if k > 0 {
        lemma_budget_prefix_same(m, pairs, next, weights, (k - 1) as nat);
        assert(next[k - 1] == pairs[k - 1]);
    }
}

proof fn lemma_budget_prefix(m: MinetView, pairs: Seq<(int, int)>, next: Seq<(int, int)>, weights: Seq<u32>, k: nat)
    requires
        pairs.len() == k,
        next.len() == k + 1,
        pairs == next.subrange(0, k as int),
        budget_valid(m, pairs, weights),
        budget_grown(m, pairs, weights, k).is_candidate(next[k as int].0, next[k as int].1),
    ensures
        budget_valid(m, next, weights),
        budget_grown(m, next, weights, k + 1) == budget_grown(m, pairs, weights, k).with_synapse(
            next[k as int].0,
            Synapse { target: next[k as int].1 as usize, weight_bits: weights[k as int] },
        ),
{
    assert forall|j: int| 0 <= j <= k implies #[trigger] budget_grown(m, next, weights, j as nat) == budget_grown(
        m,
        pairs,
        weights,
        j as nat,
    ) by {
        lemma_budget_prefix_same(m, pairs, next, weights, j as nat);
    };
    lemma_budget_prefix_same(m, pairs, next, weights, k);
    assert forall|j: int| 0 <= j < next.len() implies #[trigger] budget_grown(m, next, weights, j as nat).is_candidate(
        next[j].0,
        next[j].1,
    ) by {
        if j < k {
            assert(next[j] == pairs[j]);
            assert(budget_grown(m, pairs, weights, j as nat).is_candidate(pairs[j].0, pairs[j].1));
        }
    };
}

/// Draws for reachability attempt `k` fall below this bound; where no
/// source can be drawn the attempt records zero.
pub open spec fn reachability_bound(m: MinetView, k: int) -> int {
    let to = m.input + k / 3;
    let bound = if to < m.source_count() {
        to
    } else {
        m.source_count() as int
    };
    if bound == 0 {
        1
    } else {
        bound
    }
}

/// One reachability attempt: connect `source` to `to` when that pair is open.
pub open spec fn reachability_step(m: MinetView, source: int, to: int, weight_bits: u32) -> MinetView {
    if m.is_candidate(source, to) {
        m.with_synapse(source, Synapse { target: to as usize, weight_bits })
    } else {
        m
    }
}

/// Reachability growth from `m` after its first `k` attempts: attempt `j`
/// connects `sources[j]` to slot `input + j / 3`, with weight `weights[j]`.
pub open spec fn reachability_grown(m: MinetView, sources: Seq<usize>, weights: Seq<u32>, k: nat) -> MinetView
    decreases k,
{
    if k == 0 {
        m
    } else {
        reachability_step(
            reachability_grown(m, sources, weights, (k - 1) as nat),
            sources[k - 1] as int,
            m.input + (k - 1) / 3,
            weights[k - 1],
        )
    }
}

/// The draws of a whole reachability growth: three per non-input slot, each
/// below its bound.
pub open spec fn reachability_draws(m: MinetView, sources: Seq<usize>) -> bool {
    &&& sources.len() == 3 * (m.hidden + m.output)
    &&& forall|k: int| 0 <= k < sources.len() ==> #[trigger] sources[k] < reachability_bound(m, k)
}

proof fn lemma_reachability_same(m: MinetView, sources: Seq<usize>, next: Seq<usize>, weights: Seq<u32>, k: nat)
    requires
        k <= sources.len(),
        sources.len() <= next.len(),
        sources == next.subrange(0, sources.len() as int),
    ensures
        reachability_grown(m, next, weights, k) == reachability_grown(m, sources, weights, k),
    decreases k,
{
    if k > 0 {
        lemma_reachability_same(m, sources, next, weights, (k - 1) as nat);
        assert(next[k - 1] == sources[k - 1]);
    }
}

proof fn lemma_reachability_prefix(m: MinetView, sources: Seq<usize>, next: Seq<usize>, weights: Seq<u32>, k: nat)
    requires
        sources.len() == k,
        next.len() == k + 1,
        sources == next.subrange(0, k as int),
    ensures
        reachability_grown(m, next, weights, k + 1) == reachability_step(
            reachability_grown(m, sources, weights, k),
            next[k as int] as int,
            (m.input + k / 3) as int,
            weights[k as int],
        ),
{
    lemma_reachability_same(m, sources, next, weights, k);
}

impl Minet {
    /// One attempt to connect `to_index` from a random lower input or hidden
    /// slot: a source is drawn below both `to_index` and `input + hidden`,
    /// and the synapse is added only when `to_index` is among that source's
    /// candidates. Returns the drawn source, or `None` when there is no slot
    /// to draw from.
    pub fn connect_random_from(&mut self, to_index: usize, weight_bits: u32, rng: &mut rand::rngs::StdRng) -> (r: Option<usize>)
        requires
            old(self)@.well_formed(),
        ensures
            final(self)@.well_formed(),
            final(self)@.same_shape(old(self)@),
            r is None <==> to_index == 0 || old(self)@.source_count() == 0,
            r is None ==> final(self)@ == old(self)@,
            r matches Some(from) ==> {
                &&& from < to_index
                &&& from < old(self)@.source_count()
                &&& final(self)@ == if old(self)@.is_candidate(from as int, to_index as int) {
                    old(self)@.with_synapse(from as int, Synapse { target: to_index, weight_bits })
                } else {
                    old(self)@
                }
            },
    {
        let n = self.genes.len();
        let non_output = self.input + self.hidden;
        let bound = if to_index < non_output {
            to_index
        } else {
            non_output
        };
        if bound == 0 {
            return None;
        }
        let from = random_below(rng, bound);
        let c = self.synapse_candidates(from);
        let mut found = false;
        let mut k: usize = 0;
        while k < c.len()
            invariant
                k <= c@.len(),
                found <==> exists|j: int| 0 <= j < k && c@[j] == to_index,
            decreases c@.len() - k,
        {
            if c[k] == to_index {
                found = true;
            }
            k += 1;
        }
        assert(found <==> c@.contains(to_index));
        if found {
            let syn = Synapse { target: to_index, weight_bits };
            proof {
                lemma_with_synapse(self@, from as int, syn);
            }
            self.append_synapse(from, syn);
        }
        Some(from)
    }

    /// How many weights `new` needs for these sizes under `growth`, or
    /// `None` when that count, or the number of slots, exceeds `usize`.
    pub fn weights_needed(input: usize, hidden: usize, output: usize, growth: GrowthPolicy) -> (r: Option<usize>)
        ensures
            r matches Some(n) ==> n == weight_demand(input as nat, hidden as nat, output as nat, growth)
                && input + hidden + output <= usize::MAX,
            r is None ==> weight_demand(input as nat, hidden as nat, output as nat, growth) > usize::MAX
                || input + hidden + output > usize::MAX,
    {
        let slots = match input.checked_add(hidden) {
            Some(x) => x.checked_add(output),
            None => None,
        };
        if slots.is_none() {
            return None;
        }
        match growth {
            GrowthPolicy::Budget => (input + output).checked_mul(hidden),
            GrowthPolicy::Reachability => (hidden + output).checked_mul(3),
        }
    }

    /// A fresh individual of the given sizes: all biases zero, fitness zero,
    /// and synapses grown by `growth`. The `k`-th synapse that budget growth
    /// adds has weight `weights[k]`; the `k`-th attempt of reachability
    /// growth offers weight `weights[k]`.
    pub fn new(
        input: usize,
        hidden: usize,
        output: usize,
        growth: GrowthPolicy,
        weights: &Vec<u32>,
        rng: &mut rand::rngs::StdRng,
    ) -> (r: Minet)
        requires
            input + hidden + output <= usize::MAX,
            weights@.len() >= weight_demand(input as nat, hidden as nat, output as nat, growth),
        ensures
            r@.well_formed(),
            r.input == input,
            r.hidden == hidden,
            r.output == output,
            r.fitness_bits == 0,
            r@.biases_zero(),
            r@.weights_drawn_from(weights@),
            growth == GrowthPolicy::Budget ==> {
                &&& r@.synapse_total() == (input + output) * hidden
                &&& exists|pairs: Seq<(int, int)>|
                    #[trigger] budget_valid(blank(input as nat, hidden as nat, output as nat), pairs, weights@)
                        && pairs.len() == r@.synapse_total() && r@ == budget_grown(
                        blank(input as nat, hidden as nat, output as nat),
                        pairs,
                        weights@,
                        pairs.len(),
                    )
            },
            growth == GrowthPolicy::Reachability ==> exists|sources: Seq<usize>|
                #[trigger] reachability_draws(blank(input as nat, hidden as nat, output as nat), sources) && r@
                    == reachability_grown(
                    blank(input as nat, hidden as nat, output as nat),
                    sources,
                    weights@,
                    sources.len(),
                ),
    {
        let n = input + hidden + output;
        let wlen = weights.len();
        let mut genes: Vec<Gene> = Vec::new();
        let mut i: usize = 0;
        while i < n
            invariant
                i <= n,
                genes@.len() == i,
                forall|j: int| 0 <= j < i ==> (#[trigger] genes@[j])@ == (GeneView { bias_bits: 0, synapses: Seq::empty() }),
            decreases n - i,
        {
            genes.push(Gene::unconnected(0));
            i += 1;
        }
        let mut m = Minet { genes, input, hidden, output, fitness_bits: 0 };
        let ghost start = blank(input as nat, hidden as nat, output as nat);
        assert(m@.genes =~= start.genes);
        assert(m@ == start);
        proof {
            lemma_blank(input as nat, hidden as nat, output as nat);
        }
        match growth {
            GrowthPolicy::Budget => {
                let target = (input + output) * hidden;
                let mut count: usize = 0;
                let ghost mut pairs: Seq<(int, int)> = Seq::empty();
                while count < target
                    invariant
                        m@.well_formed(),
                        m.input == input,
                        m.hidden == hidden,
                        m.output == output,
                        m.fitness_bits == 0,
                        m@.biases_zero(),
                        m@.weights_drawn_from(weights@),
                        m@.synapse_total() == count,
                        count <= target,
                        target == (input + output) * hidden,
                        target <= weights@.len(),
                        wlen == weights@.len(),
                        pairs.len() == count,
                        budget_valid(start, pairs, weights@),
                        m@ == budget_grown(start, pairs, weights@, count as nat),
                    decreases target - count,
                {
                    let ghost before = m@;
                    let w = weights[count];
                    let added = m.synapse_connect_random(w, rng);
                    proof {
                        if !added {
                            lemma_full_reaches_budget(before);
                        }
                        let (s, t) = choose|s: int, t: int|
                            before.is_candidate(s, t) && m@ == before.with_synapse(
                                s,
                                Synapse { target: t as usize, weight_bits: w },
                            );
                        lemma_with_synapse_keeps(before, s, Synapse { target: t as usize, weight_bits: w }, weights@);
                        let next = pairs.push((s, t));
                        assert(next.subrange(0, count as int) =~= pairs);
                        lemma_budget_prefix(start, pairs, next, weights@, count as nat);
                        pairs = next;
                    }
                    count += 1;
                }
            },
            GrowthPolicy::Reachability => {
                let attempts = 3 * (hidden + output);
                let mut k: usize = 0;
                let ghost mut sources: Seq<usize> = Seq::empty();
                while k < attempts
                    invariant
                        m@.well_formed(),
                        m.input == input,
                        m.hidden == hidden,
                        m.output == output,
                        m.fitness_bits == 0,
                        m@.biases_zero(),
                        m@.weights_drawn_from(weights@),
                        n == input + hidden + output,
                        attempts == 3 * (hidden + output),
                        attempts <= weights@.len(),
                        wlen == weights@.len(),
                        k <= attempts,
                        start == blank(input as nat, hidden as nat, output as nat),
                        sources.len() == k,
                        forall|j: int| 0 <= j < k ==> #[trigger] sources[j] < reachability_bound(start, j),
                        m@ == reachability_grown(start, sources, weights@, k as nat),
                    decreases attempts - k,
                {
                    let ghost before = m@;
                    let to = input + k / 3;
                    let w = weights[k];
                    let from = m.connect_random_from(to, w, rng);
                    proof {
                        let drawn: usize = match from {
                            Some(f) => f,
                            None => 0,
                        };
                        if let Some(f) = from {
                            if before.is_candidate(f as int, to as int) {
                                let syn = Synapse { target: to, weight_bits: w };
                                lemma_with_synapse_keeps(before, f as int, syn, weights@);
                            }
                        }
                        let next = sources.push(drawn);
                        assert(next.subrange(0, k as int) =~= sources);
                        assert forall|j: int| 0 <= j < k + 1 implies #[trigger] next[j] < reachability_bound(start, j) by {
                            if j < k {
                                assert(next[j] == sources[j]);
                            }
                        };
                        lemma_reachability_prefix(start, sources, next, weights@, k as nat);
                        assert(m@ == reachability_step(before, drawn as int, to as int, w));
                        sources = next;
                    }
                    k += 1;
                }
                assert(reachability_draws(start, sources));
            },
        }
        m
    }

    /// `pop_size` fresh individuals of the same sizes; individual `k` draws
    /// its weights from `weights[k]`.
    pub fn initialize_population(
        pop_size: usize,
        input: usize,
        hidden: usize,
        output: usize,
        growth: GrowthPolicy,
        weights: &Vec<Vec<u32>>,
        rng: &mut rand::rngs::StdRng,
    ) -> (r: Vec<Minet>)
        requires
            input + hidden + output <= usize::MAX,
            weights@.len() >= pop_size,
            forall|k: int|
                0 <= k < pop_size ==> (#[trigger] weights@[k])@.len() >= weight_demand(
                    input as nat,
                    hidden as nat,
                    output as nat,
                    growth,
                ),
        ensures
            r@.len() == pop_size,
            forall|k: int|
                0 <= k < pop_size ==> {
                    &&& (#[trigger] r@[k])@.well_formed()
                    &&& r@[k].input == input
                    &&& r@[k].hidden == hidden
                    &&& r@[k].output == output
                    &&& r@[k].fitness_bits == 0
                    &&& r@[k]@.biases_zero()
                    &&& r@[k]@.weights_drawn_from(weights@[k]@)
                },
    {
        let mut r: Vec<Minet> = Vec::new();
        let mut k: usize = 0;
        while k < pop_size
            invariant
                k <= pop_size,
                r@.len() == k,
                input + hidden + output <= usize::MAX,
                weights@.len() >= pop_size,
                forall|j: int|
                    0 <= j < pop_size ==> (#[trigger] weights@[j])@.len() >= weight_demand(
                        input as nat,
                        hidden as nat,
                        output as nat,
                        growth,
                    ),
                forall|j: int|
                    0 <= j < k ==> {
                        &&& (#[trigger] r@[j])@.well_formed()
                        &&& r@[j].input == input
                        &&& r@[j].hidden == hidden
                        &&& r@[j].output == output
                        &&& r@[j].fitness_bits == 0
                        &&& r@[j]@.biases_zero()
                        &&& r@[j]@.weights_drawn_from(weights@[j]@)
                    },
            decreases pop_size - k,
        {
            let m = Minet::new(input, hidden, output, growth, &weights[k], rng);
            r.push(m);
            k += 1;
        }
        r
    }
}

/// A sequence of genes without synapses holds none, in every prefix.
proof fn lemma_no_synapses(genes: Seq<GeneView>, k: int)
    requires
        0 <= k <= genes.len(),
        forall|j: int| 0 <= j < genes.len() ==> (#[trigger] genes[j]).synapses.len() == 0,
    ensures
        synapses_in(genes.take(k)) == 0,
    decreases k,
{
    if k > 0 {
        lemma_no_synapses(genes, k - 1);
        lemma_synapses_in_prefix(genes, k - 1);
    }
}

} // verus!
