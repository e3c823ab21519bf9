//! The genome: neuron slots in a fixed order and the synapses between them.
use vstd::prelude::*;

verus! {

/// A directed, weighted connection to a higher-indexed neuron.
#[derive(Clone, Copy, Debug, PartialEq, Eq)]
pub struct Synapse {
    /// Index of the neuron the connection leads to.
    pub target: usize,
    /// The weight, as the bit pattern of an IEEE-754 single-precision number.
    pub weight_bits: u32,
}

/// The record of one neuron: its bias and its outgoing synapses.
#[derive(Clone, Debug)]
pub struct Gene {
    /// The bias, as the bit pattern of an IEEE-754 single-precision number.
    pub bias_bits: u32,
    pub synapses: Vec<Synapse>,
}

/// What a gene holds, as mathematical values.
pub struct GeneView {
    pub bias_bits: u32,
    pub synapses: Seq<Synapse>,
}

impl View for Gene {
    type V = GeneView;

    open spec fn view(&self) -> GeneView {
        GeneView { bias_bits: self.bias_bits, synapses: self.synapses@ }
    }
}


impl Gene {
    /// A gene with the given bias and no synapses.
    pub fn unconnected(bias_bits: u32) -> (r: Gene)
        ensures
            r@ == (GeneView { bias_bits, synapses: Seq::empty() }),
    {
        let r = Gene { bias_bits, synapses: Vec::new() };
        assert(r@.synapses =~= Seq::<Synapse>::empty());
        r
    }

    /// An independent copy of this gene.
    pub fn duplicate(&self) -> (r: Gene)
        ensures
            r@ == self@,
    {
        let synapses = self.synapses.clone();
        assert(synapses@ =~= self.synapses@);
        Gene { bias_bits: self.bias_bits, synapses }
    }
}

/// One individual: the genes of all neurons in slot order, the sizes of the
/// three neuron ranges, and the fitness that an evaluator assigned.
///
/// Slots `0..input` are inputs, the next `hidden` slots are hidden neurons,
/// and the last `output` slots are outputs.
#[derive(Clone, Debug)]
pub struct Minet {
    pub genes: Vec<Gene>,
    pub input: usize,
    pub hidden: usize,
    pub output: usize,
    /// The fitness, as the bit pattern of an IEEE-754 single-precision number.
    pub fitness_bits: u32,
}

/// What an individual holds, as mathematical values.
pub struct MinetView {
    pub genes: Seq<GeneView>,
    pub input: nat,
    pub hidden: nat,
    pub output: nat,
    pub fitness_bits: u32,
}

impl View for Minet {
    type V = MinetView;

    open spec fn view(&self) -> MinetView {
        MinetView {
            genes: self.genes@.map_values(|g: Gene| g@),
            input: self.input as nat,
            hidden: self.hidden as nat,
            output: self.output as nat,
            fitness_bits: self.fitness_bits,
        }
    }
}

/// The number of synapses held by a sequence of genes.
pub open spec fn synapses_in(genes: Seq<GeneView>) -> nat
    decreases genes.len(),
{
    if genes.len() == 0 {
        0
    } else {
        synapses_in(genes.drop_last()) + genes.last().synapses.len()
    }
}

impl MinetView {
    pub open spec fn neuron_count(self) -> nat {
        self.input + self.hidden + self.output
    }

    /// Inputs and hidden neurons: the slots that synapses may leave from.
    pub open spec fn source_count(self) -> nat {
        self.input + self.hidden
    }

    /// There is one gene for each neuron slot.
    pub open spec fn has_shape(self) -> bool {
        self.genes.len() == self.neuron_count()
    }

    /// Two individuals have the same three range sizes.
    pub open spec fn same_shape(self, other: MinetView) -> bool {
        &&& self.input == other.input
        &&& self.hidden == other.hidden
        &&& self.output == other.output
        &&& self.genes.len() == other.genes.len()
    }

    /// A synapse from `source` to `target` respects the slot order: it leaves
    /// an input or hidden neuron and reaches a higher, non-input slot.
    pub open spec fn may_connect(self, source: int, target: int) -> bool {
        &&& 0 <= source < self.source_count()
        &&& source < target < self.neuron_count()
        &&& self.input <= target
    }

    pub open spec fn connected(self, source: int, target: int) -> bool {
        exists|j: int|
            0 <= j < self.genes[source].synapses.len() && #[trigger] self.genes[source].synapses[j].target
                == target
    }

    /// `target` may receive a new synapse from `source`.
    pub open spec fn is_candidate(self, source: int, target: int) -> bool {
        self.may_connect(source, target) && !self.connected(source, target)
    }

    /// The gene at `source` holds only synapses that respect the slot order,
    /// and at most one to each target.
    pub open spec fn gene_well_formed(self, source: int) -> bool {
        let syn = self.genes[source].synapses;
        &&& forall|j: int| 0 <= j < syn.len() ==> self.may_connect(source, #[trigger] syn[j].target as int)
        &&& forall|j: int, k: int|
            0 <= j < k < syn.len() ==> #[trigger] syn[j].target != #[trigger] syn[k].target
    }

    pub open spec fn well_formed(self) -> bool {
        &&& self.has_shape()
        &&& forall|s: int| 0 <= s < self.genes.len() ==> #[trigger] self.gene_well_formed(s)
    }

    pub open spec fn synapse_total(self) -> nat {
        synapses_in(self.genes)
    }
}

/// Counting the synapses of a prefix of the genes one gene further adds
/// that gene's synapses, and no prefix holds more than all the genes.
pub proof fn lemma_synapses_in_prefix(genes: Seq<GeneView>, k: int)
    requires
        0 <= k < genes.len(),
    ensures
        synapses_in(genes.take(k + 1)) == synapses_in(genes.take(k)) + genes[k].synapses.len(),
        synapses_in(genes.take(k + 1)) <= synapses_in(genes),
    decreases genes.len() - k,
{
    assert(genes.take(k + 1).drop_last() =~= genes.take(k));
    if k + 1 == genes.len() {
        assert(genes.take(k + 1) =~= genes);
    } else {
        lemma_synapses_in_prefix(genes, k + 1);
    }
}

/// Replacing one gene changes the count by the difference of the two
/// genes' synapse counts.
pub proof fn lemma_synapses_in_update(genes: Seq<GeneView>, s: int, g: GeneView)
    requires
        0 <= s < genes.len(),
    ensures
        synapses_in(genes.update(s, g)) == synapses_in(genes) - genes[s].synapses.len()
            + g.synapses.len(),
    decreases genes.len(),
{
    let u = genes.update(s, g);
    if s == genes.len() - 1 {
        assert(u.drop_last() =~= genes.drop_last());
    } else {
        assert(u.drop_last() =~= genes.drop_last().update(s, g));
        lemma_synapses_in_update(genes.drop_last(), s, g);
    }
}

impl Minet {
    /// The number of synapses over all genes.
    pub fn synapse_count(&self) -> (r: usize)
        requires
            self@.synapse_total() <= usize::MAX,
        ensures
            r == self@.synapse_total(),
    {
        let ghost genes = self@.genes;
        let mut total: usize = 0;
        let mut i: usize = 0;
        assert(genes.take(0) =~= Seq::<GeneView>::empty());
        while i < self.genes.len()
            invariant
                genes == self@.genes,
                i <= genes.len(),
                total == synapses_in(genes.take(i as int)),
                synapses_in(genes) <= usize::MAX,
            decreases genes.len() - i,
        {
            proof {
                lemma_synapses_in_prefix(genes, i as int);
            }
            total = total + self.genes[i].synapses.len();
            i += 1;
        }
        assert(genes.take(i as int) =~= genes);
        total
    }

    /// An independent copy of this individual.
    pub fn duplicate(&self) -> (r: Minet)
        ensures
            r@ == self@,
    {
        let mut genes: Vec<Gene> = Vec::new();
        let mut i: usize = 0;
        while i < self.genes.len()
            invariant
                i <= self.genes@.len(),
                genes@.len() == i,
                forall|j: int| 0 <= j < i ==> genes@[j]@ == self.genes@[j]@,
            decreases self.genes@.len() - i,
        {
            genes.push(self.genes[i].duplicate());
            i += 1;
        }
        assert(genes@.map_values(|g: Gene| g@) =~= self@.genes);
        let r = Minet {
            genes,
            input: self.input,
            hidden: self.hidden,
            output: self.output,
            fitness_bits: self.fitness_bits,
        };
        r
    }

    /// Whether `source` already has a synapse to `target`.
    pub fn synapse_is_connected(&self, source: usize, target: usize) -> (r: bool)
        requires
            source < self.genes.len(),
        ensures
            r == self@.connected(source as int, target as int),
    {
        let syn = &self.genes[source].synapses;
        let mut j: usize = 0;
        while j < syn.len()
            invariant
                syn@ == self@.genes[source as int].synapses,
                j <= syn@.len(),
                forall|k: int| 0 <= k < j ==> syn@[k].target != target,
            decreases syn@.len() - j,
        {
            if syn[j].target == target {
                return true;
            }
            j += 1;
        }
        false
    }

    /// Every slot that `source` may still connect to, in increasing order.
    pub fn synapse_candidates(&self, source: usize) -> (r: Vec<usize>)
        requires
            self@.has_shape(),
        ensures
            forall|t: usize| r@.contains(t) <==> self@.is_candidate(source as int, t as int),
            forall|a: int, b: int| 0 <= a < b < r@.len() ==> r@[a] < r@[b],
    {
        let mut r: Vec<usize> = Vec::new();
        let n = self.genes.len();
        if source >= n - self.output {
            return r;
        }
        let mut i: usize = source + 1;
        while i < n
            invariant
                self@.has_shape(),
                n == self@.neuron_count(),
                source < self@.source_count(),
                source < i <= n,
                forall|t: usize| r@.contains(t) <==> self@.is_candidate(source as int, t as int) && t < i,
                forall|a: int, b: int| 0 <= a < b < r@.len() ==> r@[a] < r@[b],
                forall|a: int| 0 <= a < r@.len() ==> r@[a] < i,
            decreases n - i,
        {
            let ghost before = r@;
            if i >= self.input && !self.synapse_is_connected(source, i) {
                r.push(i);
                assert forall|t: usize| r@.contains(t) <==> before.contains(t) || t == i by {
                    if before.contains(t) {
                        let k = choose|k: int| 0 <= k < before.len() && before[k] == t;
                        assert(r@[k] == t);
                    }
                    if t == i {
                        assert(r@[r@.len() - 1] == i);
                    }
                    if r@.contains(t) {
                        let k = choose|k: int| 0 <= k < r@.len() && r@[k] == t;
                        if k < before.len() {
                            assert(before[k] == t);
                        }
                    }
                };
            } else {
                assert(!self@.is_candidate(source as int, i as int));
            }
            assert forall|t: usize| r@.contains(t) <==> self@.is_candidate(source as int, t as int) && t <= i by {
                assert(before.contains(t) <==> self@.is_candidate(source as int, t as int) && t < i);
            };
            i += 1;
        }
        r
    }
}

} // verus!
