//! Structural mutation: removing one synapse and growing another.
use vstd::prelude::*;
use crate::genome::{lemma_synapses_in_update, GeneView, Minet, MinetView, Synapse};
use crate::random::{random_below, random_ratio};

verus! {

/// Which synapse a structural mutation removes.
#[derive(Clone, Copy, Debug, PartialEq, Eq)]
pub enum RemovalPolicy {
    /// One drawn uniformly among all synapses of the individual.
    Random,
    /// The first one, in slot then list order, of least absolute weight.
    Smallest,
}

/// The bit pattern of the absolute value of a single-precision number given
/// by its bits. Among numbers that are not NaN, a larger magnitude pattern
/// means a larger absolute value; a NaN has a larger pattern than any number.
pub open spec fn magnitude(bits: u32) -> u32 {
    bits & 0x7fff_ffffu32
}

impl MinetView {
    /// The same individual without synapse `j` of gene `s`.
    pub open spec fn without_synapse(self, s: int, j: int) -> MinetView {
        MinetView {
            genes: self.genes.update(
                s,
                GeneView {
                    bias_bits: self.genes[s].bias_bits,
                    synapses: self.genes[s].synapses.remove(j),
                },
            ),
            ..self
        }
    }

    pub open spec fn is_synapse(self, s: int, j: int) -> bool {
        0 <= s < self.genes.len() && 0 <= j < self.genes[s].synapses.len()
    }

    pub open spec fn has_no_synapse(self) -> bool {
        forall|s: int| 0 <= s < self.genes.len() ==> (#[trigger] self.genes[s]).synapses.len() == 0
    }

    pub open spec fn weight_magnitude(self, s: int, j: int) -> u32 {
        magnitude(self.genes[s].synapses[j].weight_bits)
    }

    /// Synapse `j` of gene `s` has the least magnitude of all, and every
    /// synapse before it, in slot then list order, has a larger one.
    pub open spec fn is_smallest(self, s: int, j: int) -> bool {
        &&& self.is_synapse(s, j)
        &&& forall|s2: int, j2: int|
            self.is_synapse(s2, j2) ==> #[trigger] self.weight_magnitude(s2, j2) >= self.weight_magnitude(s, j)
        &&& forall|s2: int, j2: int|
            self.is_synapse(s2, j2) && (s2 < s || (s2 == s && j2 < j)) ==> #[trigger] self.weight_magnitude(
                s2,
                j2,
            ) > self.weight_magnitude(s, j)
    }

    /// `next` is this individual with one synapse removed as `removal`
    /// chooses, or unchanged when it has none.
    pub open spec fn removal_step(self, next: MinetView, removal: RemovalPolicy) -> bool {
        if self.has_no_synapse() {
            next == self
        } else {
            exists|s: int, j: int|
                #[trigger] self.is_synapse(s, j) && (removal == RemovalPolicy::Smallest ==> self.is_smallest(s, j))
                    && next == self.without_synapse(s, j)
        }
    }

    /// `next` is this individual with one synapse of weight `weight_bits`
    /// added between an open pair, or unchanged when no pair is open.
    pub open spec fn growth_step(self, next: MinetView, weight_bits: u32) -> bool {
        if self.is_full() {
            next == self
        } else {
            exists|s: int, t: int|
                #[trigger] self.is_candidate(s, t) && next == self.with_synapse(
                    s,
                    Synapse { target: t as usize, weight_bits },
                )
        }
    }

    /// `next` is this individual after a synapse swap: one removal, then one
    /// growth step.
    pub open spec fn swap_step(self, next: MinetView, removal: RemovalPolicy, weight_bits: u32) -> bool {
        exists|mid: MinetView| #[trigger] self.removal_step(mid, removal) && mid.growth_step(next, weight_bits)
    }
}

/// Removing a synapse keeps an individual well formed, and one fewer.
pub proof fn lemma_without_synapse(m: MinetView, s: int, j: int)
    requires
        m.well_formed(),
        m.is_synapse(s, j),
    ensures
        m.without_synapse(s, j).well_formed(),
        m.without_synapse(s, j).same_shape(m),
        m.without_synapse(s, j).synapse_total() + 1 == m.synapse_total(),
{
    let r = m.without_synapse(s, j);
    assert forall|x: int| 0 <= x < r.genes.len() implies #[trigger] r.gene_well_formed(x) by {
        assert(m.gene_well_formed(x));
        if x == s {
            let old_syn = m.genes[s].synapses;
            let new_syn = r.genes[s].synapses;
            assert forall|a: int| 0 <= a < new_syn.len() implies r.may_connect(s, #[trigger] new_syn[a].target as int) by {
                if a < j {
                    assert(new_syn[a] == old_syn[a]);
                } else {
                    assert(new_syn[a] == old_syn[a + 1]);
                }
            };
            assert forall|a: int, b: int| 0 <= a < b < new_syn.len() implies #[trigger] new_syn[a].target
                != #[trigger] new_syn[b].target by {
                let a1 = if a < j { a } else { a + 1 };
                let b1 = if b < j { b } else { b + 1 };
                assert(new_syn[a] == old_syn[a1]);
                assert(new_syn[b] == old_syn[b1]);
            };
        }
    };
    lemma_synapses_in_update(
        m.genes,
        s,
        GeneView { bias_bits: m.genes[s].bias_bits, synapses: m.genes[s].synapses.remove(j) },
    );
}

impl Minet {
    /// Removes synapse `j` of gene `s`.
    fn delete_synapse(&mut self, s: usize, j: usize)
        requires
            old(self)@.is_synapse(s as int, j as int),
        ensures
            final(self)@ == old(self)@.without_synapse(s as int, j as int),
    {
        let ghost before = self@;
        self.genes[s].synapses.remove(j);
        assert(self@.genes =~= before.without_synapse(s as int, j as int).genes);
    }

    /// Removes the synapse of least absolute weight, the first one in slot
    /// then list order among equals. Does nothing when there is no synapse.
    pub fn synapse_remove_smallest(&mut self)
        requires
            old(self)@.well_formed(),
        ensures
            final(self)@.well_formed(),
            old(self)@.removal_step(final(self)@, RemovalPolicy::Smallest),
            final(self)@.synapse_total() == if old(self)@.has_no_synapse() {
                old(self)@.synapse_total() as int
            } else {
                old(self)@.synapse_total() - 1
            },
    {
        let ghost m = self@;
        let mut found = false;
        let mut best_s: usize = 0;
        let mut best_j: usize = 0;
        let mut best: u32 = 0;
        let mut s: usize = 0;
        while s < self.genes.len()
            invariant
                m == self@,
                s <= m.genes.len(),
                !found ==> forall|x: int| 0 <= x < s ==> (#[trigger] m.genes[x]).synapses.len() == 0,
                found ==> m.is_synapse(best_s as int, best_j as int) && best_s < s && best == m.weight_magnitude(best_s as int, best_j as int),
                found ==> forall|s2: int, j2: int|
                    m.is_synapse(s2, j2) && s2 < s ==> #[trigger] m.weight_magnitude(s2, j2) >= best,
                found ==> forall|s2: int, j2: int|
                    m.is_synapse(s2, j2) && (s2 < best_s || (s2 == best_s && j2 < best_j)) ==> #[trigger] m.weight_magnitude(s2, j2) > best,
            decreases m.genes.len() - s,
        {
            let syn = &self.genes[s].synapses;
            let mut j: usize = 0;
            while j < syn.len()
                invariant
                    m == self@,
                    s < m.genes.len(),
                    syn@ == m.genes[s as int].synapses,
                    j <= syn@.len(),
                    !found ==> forall|x: int| 0 <= x < s ==> (#[trigger] m.genes[x]).synapses.len() == 0,
                    !found ==> j == 0,
                    found ==> m.is_synapse(best_s as int, best_j as int) && best_s <= s && best == m.weight_magnitude(best_s as int, best_j as int),
                    found && best_s == s ==> best_j < j,
                    found ==> forall|s2: int, j2: int|
                        m.is_synapse(s2, j2) && (s2 < s || (s2 == s && j2 < j)) ==> #[trigger] m.weight_magnitude(s2, j2) >= best,
                    found ==> forall|s2: int, j2: int|
                        m.is_synapse(s2, j2) && (s2 < best_s || (s2 == best_s && j2 < best_j)) ==> #[trigger] m.weight_magnitude(s2, j2) > best,
                decreases syn@.len() - j,
            {
                let mag = syn[j].weight_bits & 0x7fff_ffffu32;
                if !found || mag < best {
                    found = true;
                    best_s = s;
                    best_j = j;
                    best = mag;
                }
                j += 1;
            }
            s += 1;
        }
        if found {
            proof {
                lemma_without_synapse(m, best_s as int, best_j as int);
                assert(m.is_smallest(best_s as int, best_j as int));
            }
            self.delete_synapse(best_s, best_j);
        }
    }

    /// Removes one synapse drawn uniformly among all synapses. Does nothing
    /// when there is no synapse.
    pub fn synapse_remove_random(&mut self, rng: &mut rand::rngs::StdRng)
        requires
            old(self)@.well_formed(),
        ensures
            final(self)@.well_formed(),
            old(self)@.removal_step(final(self)@, RemovalPolicy::Random),
            final(self)@.synapse_total() == if old(self)@.has_no_synapse() {
                old(self)@.synapse_total() as int
            } else {
                old(self)@.synapse_total() - 1
            },
    {
        let ghost m = self@;
        let mut places: Vec<(usize, usize)> = Vec::new();
        let mut s: usize = 0;
        while s < self.genes.len()
            invariant
                m == self@,
                s <= m.genes.len(),
                places@.len() == 0 ==> forall|x: int| 0 <= x < s ==> (#[trigger] m.genes[x]).synapses.len() == 0,
                forall|k: int| 0 <= k < places@.len() ==> m.is_synapse((#[trigger] places@[k]).0 as int, places@[k].1 as int),
            decreases m.genes.len() - s,
        {
            let count = self.genes[s].synapses.len();
            let mut j: usize = 0;
            while j < count
                invariant
                    m == self@,
                    s < m.genes.len(),
                    count == m.genes[s as int].synapses.len(),
                    j <= count,
                    places@.len() == 0 ==> j == 0,
                    places@.len() == 0 ==> forall|x: int| 0 <= x < s ==> (#[trigger] m.genes[x]).synapses.len() == 0,
                    forall|k: int| 0 <= k < places@.len() ==> m.is_synapse((#[trigger] places@[k]).0 as int, places@[k].1 as int),
                decreases count - j,
            {
                places.push((s, j));
                j += 1;
            }
            s += 1;
        }
        if places.len() > 0 {
            let k = random_below(rng, places.len());
            let (gs, gj) = places[k];
            proof {
                lemma_without_synapse(m, gs as int, gj as int);
            }
            self.delete_synapse(gs, gj);
        }
    }
}


impl Minet {
    /// Removes one synapse as `removal` chooses, then connects a random open
    /// pair with a synapse of weight `weight_bits`. Either step does nothing
    /// when it has nothing to work on.
    pub fn synapse_swap(&mut self, removal: RemovalPolicy, weight_bits: u32, rng: &mut rand::rngs::StdRng)
        requires
            old(self)@.well_formed(),
        ensures
            final(self)@.well_formed(),
            final(self)@.same_shape(old(self)@),
            old(self)@.swap_step(final(self)@, removal, weight_bits),
    {
        let ghost start = self@;
        match removal {
            RemovalPolicy::Random => self.synapse_remove_random(rng),
            RemovalPolicy::Smallest => self.synapse_remove_smallest(),
        }
        let ghost mid = self@;
        proof {
            if !start.has_no_synapse() {
                let (s, j) = choose|s: int, j: int|
                    #[trigger] start.is_synapse(s, j) && (removal == RemovalPolicy::Smallest
                        ==> start.is_smallest(s, j)) && mid == start.without_synapse(s, j);
                lemma_without_synapse(start, s, j);
            }
        }
        let added = self.synapse_connect_random(weight_bits, rng);
        proof {
            if !added {
                assert(mid.is_full());
            } else {
                let (s, t) = choose|s: int, t: int|
                    mid.is_candidate(s, t) && self@ == mid.with_synapse(
                        s,
                        Synapse { target: t as usize, weight_bits },
                    );
                assert(mid.is_candidate(s, t));
                assert(!mid.is_full());
            }
            assert(start.removal_step(mid, removal) && mid.growth_step(self@, weight_bits));
        }
    }

    /// With chance `swap_numerator / swap_denominator`, performs a synapse
    /// swap; returns whether it did.
    pub fn mutate_structure(
        &mut self,
        removal: RemovalPolicy,
        swap_numerator: u32,
        swap_denominator: u32,
        weight_bits: u32,
        rng: &mut rand::rngs::StdRng,
    ) -> (swapped: bool)
        requires
            old(self)@.well_formed(),
            0 < swap_denominator,
            swap_numerator <= swap_denominator,
        ensures
            final(self)@.well_formed(),
            final(self)@.same_shape(old(self)@),
            swapped ==> old(self)@.swap_step(final(self)@, removal, weight_bits),
            !swapped ==> final(self)@ == old(self)@,
            swap_numerator == 0 ==> !swapped,
            swap_numerator == swap_denominator ==> swapped,
    {
        let swapped = random_ratio(rng, swap_numerator, swap_denominator);
        if swapped {
            self.synapse_swap(removal, weight_bits, rng);
        }
        swapped
    }
}

} // verus!
