//! Reproduction: uniform crossover of two parents, and truncation selection
//! followed by random mating.
use vstd::prelude::*;
use crate::genome::{Gene, Minet, MinetView};
use crate::random::{random_below, random_ratio};

verus! {

impl MinetView {
    /// The same individual with its fitness reset to zero.
    pub open spec fn reset_fitness(self) -> MinetView {
        MinetView { fitness_bits: 0, ..self }
    }

    /// This individual could come out of crossing `a` with `b`: it has their
    /// shape and a zero fitness, and each of its genes, bias and synapses
    /// together, is the gene of `a` or of `b` at the same slot.
    pub open spec fn is_crossover_of(self, a: MinetView, b: MinetView) -> bool {
        &&& self.same_shape(a)
        &&& self.fitness_bits == 0
        &&& forall|i: int|
            0 <= i < self.genes.len() ==> #[trigger] self.genes[i] == a.genes[i] || self.genes[i] == b.genes[i]
    }
}

/// This individual is the crossover of two of `parents`, drawn with
/// replacement.
pub open spec fn bred_from(child: MinetView, parents: Seq<Minet>) -> bool {
    exists|a: int, b: int|
        0 <= a < parents.len() && 0 <= b < parents.len() && #[trigger] child.is_crossover_of(
            parents[a]@,
            parents[b]@,
        )
}

/// A child of two well-formed parents of one shape is well formed.
pub proof fn lemma_crossover_well_formed(child: MinetView, a: MinetView, b: MinetView)
    requires
        a.well_formed(),
        b.well_formed(),
        a.same_shape(b),
        child.is_crossover_of(a, b),
    ensures
        child.well_formed(),
{
    assert forall|s: int| 0 <= s < child.genes.len() implies #[trigger] child.gene_well_formed(s) by {
        assert(a.gene_well_formed(s));
        assert(b.gene_well_formed(s));
    };
}

/// The fitness pattern is a NaN.
pub open spec fn is_nan(bits: u32) -> bool {
    (bits & 0x7f80_0000u32) == 0x7f80_0000u32 && (bits & 0x007f_ffffu32) != 0
}

/// A key on fitness bit patterns that orders numbers that are not NaN as
/// their values are ordered, with both zeros equal.
pub open spec fn fitness_rank(bits: u32) -> u32 {
    if bits & 0x7fff_ffffu32 == 0 {
        0x8000_0000u32
    } else if bits & 0x8000_0000u32 != 0 {
        !bits
    } else {
        bits | 0x8000_0000u32
    }
}

fn rank_of(bits: u32) -> (r: u32)
    ensures
        r == fitness_rank(bits),
{
    if bits & 0x7fff_ffffu32 == 0 {
        0x8000_0000u32
    } else if bits & 0x8000_0000u32 != 0 {
        !bits
    } else {
        bits | 0x8000_0000u32
    }
}

/// Individual `a` of the population comes before individual `b`: it is
/// fitter, or equally fit and earlier.
pub open spec fn ranks_before(population: Seq<Minet>, a: int, b: int) -> bool {
    let ra = fitness_rank(population[a].fitness_bits);
    let rb = fitness_rank(population[b].fitness_bits);
    ra > rb || (ra == rb && a < b)
}

/// `order` lists the population's indices from the fittest down, equally
/// fit individuals in population order.
pub open spec fn is_ranking(population: Seq<Minet>, order: Seq<usize>) -> bool {
    &&& order.len() == population.len()
    &&& forall|i: int| 0 <= i < order.len() ==> #[trigger] order[i] < population.len()
    &&& forall|i: int, j: int|
        0 <= i < j < order.len() ==> ranks_before(population, #[trigger] order[i] as int, #[trigger] order[j] as int)
}

impl Minet {
    /// Uniform crossover: each gene of the child, bias and synapses
    /// together, is copied from `self` or from `other` by a fair coin flip.
    /// The child has the parents' shape and a zero fitness.
    pub fn crossover(&self, other: &Minet, rng: &mut rand::rngs::StdRng) -> (child: Minet)
        requires
            self@.same_shape(other@),
        ensures
            child@.is_crossover_of(self@, other@),
            child.input == self.input,
            child.hidden == self.hidden,
            child.output == self.output,
            self@.well_formed() && other@.well_formed() ==> child@.well_formed(),
    {
        let mut genes: Vec<Gene> = Vec::new();
        let mut i: usize = 0;
        while i < self.genes.len()
            invariant
                self@.same_shape(other@),
                i <= self.genes@.len(),
                genes@.len() == i,
                forall|j: int|
                    0 <= j < i ==> (#[trigger] genes@[j])@ == self.genes@[j]@ || genes@[j]@ == other.genes@[j]@,
            decreases self.genes@.len() - i,
        {
            let gene = if random_ratio(rng, 1, 2) {
                self.genes[i].duplicate()
            } else {
                other.genes[i].duplicate()
            };
            genes.push(gene);
            i += 1;
        }
        let child = Minet {
            genes,
            input: self.input,
            hidden: self.hidden,
            output: self.output,
            fitness_bits: 0,
        };
        assert(child@.is_crossover_of(self@, other@));
        proof {
            if self@.well_formed() && other@.well_formed() {
                lemma_crossover_well_formed(child@, self@, other@);
            }
        }
        child
    }

    /// The indices of the population from the fittest down; equally fit
    /// individuals keep their order.
    pub fn ranking(population: &Vec<Minet>) -> (order: Vec<usize>)
        requires
            forall|i: int| 0 <= i < population@.len() ==> !is_nan((#[trigger] population@[i]).fitness_bits),
        ensures
            is_ranking(population@, order@),
    {
        let n = population.len();
        let mut order: Vec<usize> = Vec::new();
        let mut idx: usize = 0;
        while idx < n
            invariant
                n == population@.len(),
                idx <= n,
                order@.len() == idx,
                forall|i: int| 0 <= i < order@.len() ==> #[trigger] order@[i] < idx,
                forall|i: int, j: int|
                    0 <= i < j < order@.len() ==> ranks_before(population@, #[trigger] order@[i] as int, #[trigger] order@[j] as int),
            decreases n - idx,
        {
            let key = rank_of(population[idx].fitness_bits);
            let mut pos: usize = 0;
            while pos < order.len() && rank_of(population[order[pos]].fitness_bits) >= key
                invariant
                    n == population@.len(),
                    idx < n,
                    pos <= order@.len(),
                    forall|i: int| 0 <= i < order@.len() ==> #[trigger] order@[i] < idx,
                    key == fitness_rank(population@[idx as int].fitness_bits),
                    forall|i: int| 0 <= i < pos ==> fitness_rank(population@[#[trigger] order@[i] as int].fitness_bits) >= key,
                decreases order@.len() - pos,
            {
                pos += 1;
            }
            let ghost before = order@;
            proof {
                assert forall|i: int| pos <= i < before.len() implies fitness_rank(population@[#[trigger] before[i] as int].fitness_bits) < key by {
                    if i > pos {
                        assert(ranks_before(population@, before[pos as int] as int, before[i] as int));
                    }
                };
            }
            order.insert(pos, idx);
            assert forall|i: int, j: int|
                0 <= i < j < order@.len() implies ranks_before(population@, #[trigger] order@[i] as int, #[trigger] order@[j] as int) by {
                let bi = if i < pos { i } else { i - 1 };
                let bj = if j <= pos { j } else { j - 1 };
                if i != pos && j != pos {
                    assert(order@[i] == before[bi]);
                    assert(order@[j] == before[bj]);
                    assert(ranks_before(population@, before[bi] as int, before[bj] as int));
                }
            };
            idx += 1;
        }
        order
    }

    /// Truncation selection: copies of the `surviving_count` fittest
    /// individuals, fittest first and equally fit ones in population
    /// order, each with its fitness reset to zero. A NaN fitness cannot be
    /// ranked and is refused.
    pub fn select_survivors(population: &Vec<Minet>, surviving_count: usize) -> (survivors: Vec<Minet>)
        requires
            surviving_count <= population@.len(),
            forall|i: int| 0 <= i < population@.len() ==> !is_nan((#[trigger] population@[i]).fitness_bits),
        ensures
            survivors@.len() == surviving_count,
            exists|order: Seq<usize>|
                is_ranking(population@, order) && forall|i: int|
                    0 <= i < surviving_count ==> (#[trigger] survivors@[i])@ == population@[order[i] as int]@.reset_fitness(),
    {
        let order = Minet::ranking(population);
        let mut survivors: Vec<Minet> = Vec::new();
        let mut i: usize = 0;
        while i < surviving_count
            invariant
                is_ranking(population@, order@),
                surviving_count <= population@.len(),
                i <= surviving_count,
                survivors@.len() == i,
                forall|j: int|
                    0 <= j < i ==> (#[trigger] survivors@[j])@ == population@[order@[j] as int]@.reset_fitness(),
            decreases surviving_count - i,
        {
            let mut m = population[order[i]].duplicate();
            m.fitness_bits = 0;
            survivors.push(m);
            i += 1;
        }
        survivors
    }

    /// Fills the population up to `target` with children, each the
    /// crossover of two survivors drawn independently and uniformly, with
    /// replacement. The survivors stay first and unchanged.
    pub fn refill_population(survivors: Vec<Minet>, target: usize, rng: &mut rand::rngs::StdRng) -> (population: Vec<Minet>)
        requires
            survivors@.len() <= target,
            survivors@.len() == 0 ==> target == 0,
            forall|a: int, b: int|
                0 <= a < survivors@.len() && 0 <= b < survivors@.len() ==> (#[trigger] survivors@[a])@.same_shape(
                    (#[trigger] survivors@[b])@,
                ),
        ensures
            population@.len() == target,
            forall|i: int| 0 <= i < survivors@.len() ==> (#[trigger] population@[i]) == survivors@[i],
            forall|i: int| survivors@.len() <= i < target ==> bred_from((#[trigger] population@[i])@, survivors@),
            (forall|a: int| 0 <= a < survivors@.len() ==> (#[trigger] survivors@[a])@.well_formed())
                ==> forall|i: int| 0 <= i < target ==> (#[trigger] population@[i])@.well_formed(),
    {
        let ghost first = survivors@;
        let k = survivors.len();
        let mut population = survivors;
        while population.len() < target
            invariant
                k == first.len(),
                k <= population@.len() <= target,
                k == 0 ==> target == 0,
                forall|a: int, b: int|
                    0 <= a < k && 0 <= b < k ==> (#[trigger] first[a])@.same_shape((#[trigger] first[b])@),
                forall|i: int| 0 <= i < k ==> (#[trigger] population@[i]) == first[i],
                forall|i: int| k <= i < population@.len() ==> bred_from((#[trigger] population@[i])@, first),
                (forall|a: int| 0 <= a < k ==> (#[trigger] first[a])@.well_formed())
                    ==> forall|i: int| 0 <= i < population@.len() ==> (#[trigger] population@[i])@.well_formed(),
            decreases target - population@.len(),
        {
            let a = random_below(rng, k);
            let b = random_below(rng, k);
            let child = population[a].crossover(&population[b], rng);
            assert(child@.is_crossover_of(first[a as int]@, first[b as int]@));
            population.push(child);
        }
        population
    }
}

} // verus!
