use minet_ai::codec::CodecError;
use minet_ai::genome::{Gene, Minet, Synapse};
use minet_ai::growth::GrowthPolicy;
use minet_ai::mutation::RemovalPolicy;
use rand::rngs::StdRng;
use rand::SeedableRng;

fn syn(target: usize, weight: f32) -> Synapse {
    Synapse { target, weight_bits: weight.to_bits() }
}

fn gene(bias: f32, synapses: Vec<Synapse>) -> Gene {
    Gene { bias_bits: bias.to_bits(), synapses }
}

/// One input, one hidden and one output neuron with three synapses.
fn small_genome() -> Minet {
    Minet {
        genes: vec![
            gene(0.0, vec![syn(1, 0.5), syn(2, -1.0)]),
            gene(0.25, vec![syn(2, 2.0)]),
            gene(-0.5, vec![]),
        ],
        input: 1,
        hidden: 1,
        output: 1,
        fitness_bits: 0,
    }
}

fn weights(n: usize) -> Vec<u32> {
    (0..n).map(|k| (0.01f32 * (k as f32 + 1.0)).to_bits()).collect()
}

/// Every synapse leaves an input or hidden slot for a higher, non-input
/// slot, and no pair is connected twice.
fn assert_well_formed(m: &Minet) {
    let n = m.input + m.hidden + m.output;
    assert_eq!(m.genes.len(), n);
    for (source, g) in m.genes.iter().enumerate() {
        for (j, s) in g.synapses.iter().enumerate() {
            assert!(s.target > source);
            assert!(s.target >= m.input);
            assert!(s.target < n);
            assert!(source < m.input + m.hidden);
            for t in &g.synapses[j + 1..] {
                assert_ne!(t.target, s.target);
            }
        }
    }
}

#[test]
fn budget_growth_reaches_its_target() {
    let mut rng = StdRng::seed_from_u64(7);
    let w = weights(25);
    let m = Minet::new(3, 5, 2, GrowthPolicy::Budget, &w, &mut rng);
    assert_eq!(m.synapse_count(), 25);
    assert_well_formed(&m);
    for g in &m.genes {
        assert_eq!(g.bias_bits, 0);
        for s in &g.synapses {
            assert!(w.contains(&s.weight_bits));
        }
    }
    assert_eq!(m.fitness_bits, 0);
}

#[test]
fn budget_growth_on_many_seeds() {
    for seed in 0..20u64 {
        let mut rng = StdRng::seed_from_u64(seed);
        let m = Minet::new(3, 5, 2, GrowthPolicy::Budget, &weights(25), &mut rng);
        assert_eq!(m.synapse_count(), 25);
        assert_well_formed(&m);
    }
}

#[test]
fn budget_growth_fills_a_genome_whose_target_is_its_capacity() {
    // Two inputs, one hidden, no output: three pairs exist, the target is 2.
    let mut rng = StdRng::seed_from_u64(3);
    let m = Minet::new(2, 1, 0, GrowthPolicy::Budget, &weights(2), &mut rng);
    assert_eq!(m.synapse_count(), 2);
    assert_well_formed(&m);
}

#[test]
fn reachability_growth_is_well_formed() {
    let mut rng = StdRng::seed_from_u64(11);
    let m = Minet::new(3, 5, 2, GrowthPolicy::Reachability, &weights(21), &mut rng);
    assert!(m.synapse_count() <= 21);
    assert!(m.synapse_count() > 0);
    assert_well_formed(&m);
}

#[test]
fn degenerate_sizes_grow_without_failure() {
    let sizes = [(0, 0, 0), (0, 0, 1), (0, 1, 1), (1, 0, 1), (1, 1, 0), (1, 1, 1), (0, 2, 0)];
    for &(i, h, o) in &sizes {
        for growth in [GrowthPolicy::Budget, GrowthPolicy::Reachability] {
            let mut rng = StdRng::seed_from_u64(5);
            let m = Minet::new(i, h, o, growth, &weights(3 * (h + o) + (i + o) * h), &mut rng);
            assert_eq!(m.genes.len(), i + h + o);
            assert_well_formed(&m);
        }
    }
}

#[test]
fn weights_needed_follows_the_policy() {
    assert_eq!(Minet::weights_needed(3, 5, 2, GrowthPolicy::Budget), Some(25));
    assert_eq!(Minet::weights_needed(3, 5, 2, GrowthPolicy::Reachability), Some(21));
    assert_eq!(Minet::weights_needed(0, 0, 0, GrowthPolicy::Budget), Some(0));
    assert_eq!(Minet::weights_needed(usize::MAX, 1, 0, GrowthPolicy::Budget), None);
    assert_eq!(Minet::weights_needed(1, usize::MAX / 2, 1, GrowthPolicy::Reachability), None);
    assert_eq!(Minet::weights_needed(0, usize::MAX, 0, GrowthPolicy::Reachability), None);
}

#[test]
fn minimal_genome_has_one_gene_per_slot() {
    let mut rng = StdRng::seed_from_u64(1);
    let m = Minet::new(1, 1, 1, GrowthPolicy::Reachability, &weights(6), &mut rng);
    assert_eq!(m.genes.len(), 3);
    assert_well_formed(&m);
}

#[test]
fn initial_population_has_the_requested_size() {
    let mut rng = StdRng::seed_from_u64(2);
    let w: Vec<Vec<u32>> = (0..4).map(|_| weights(25)).collect();
    let pop = Minet::initialize_population(4, 3, 5, 2, GrowthPolicy::Budget, &w, &mut rng);
    assert_eq!(pop.len(), 4);
    for m in &pop {
        assert_eq!(m.synapse_count(), 25);
        assert_well_formed(m);
    }
}

#[test]
fn candidates_skip_inputs_lower_slots_and_existing_synapses() {
    let m = small_genome();
    assert_eq!(m.synapse_candidates(0), Vec::<usize>::new());
    assert_eq!(m.synapse_candidates(1), Vec::<usize>::new());
    assert_eq!(m.synapse_candidates(2), Vec::<usize>::new());
    let mut m = small_genome();
    m.genes[0].synapses.clear();
    assert_eq!(m.synapse_candidates(0), vec![1, 2]);
    let wide = Minet {
        genes: (0..5).map(|_| gene(0.0, vec![])).collect(),
        input: 2,
        hidden: 2,
        output: 1,
        fitness_bits: 0,
    };
    assert_eq!(wide.synapse_candidates(0), vec![2, 3, 4]);
    assert_eq!(wide.synapse_candidates(2), vec![3, 4]);
    assert_eq!(wide.synapse_candidates(4), Vec::<usize>::new());
}

#[test]
fn is_connected_reads_the_source_gene() {
    let m = small_genome();
    assert!(m.synapse_is_connected(0, 2));
    assert!(!m.synapse_is_connected(1, 1));
    assert!(!m.synapse_is_connected(2, 0));
}

#[test]
fn connect_random_adds_one_open_pair_until_full() {
    let mut m = Minet {
        genes: (0..4).map(|_| gene(0.0, vec![])).collect(),
        input: 1,
        hidden: 2,
        output: 1,
        fitness_bits: 0,
    };
    let mut rng = StdRng::seed_from_u64(9);
    // Capacity: 3 from the input, 2 from the first hidden, 1 from the second.
    for k in 0..6 {
        assert!(m.synapse_connect_random(1.0f32.to_bits(), &mut rng));
        assert_eq!(m.synapse_count(), k + 1);
        assert_well_formed(&m);
    }
    let full = m.clone();
    assert!(!m.synapse_connect_random(1.0f32.to_bits(), &mut rng));
    assert_eq!(m.synapse_count(), 6);
    assert_eq!(m.genes.len(), full.genes.len());
}

#[test]
fn connect_random_from_draws_a_lower_source() {
    let mut rng = StdRng::seed_from_u64(4);
    for _ in 0..20 {
        let mut m = Minet {
            genes: (0..4).map(|_| gene(0.0, vec![])).collect(),
            input: 2,
            hidden: 1,
            output: 1,
            fitness_bits: 0,
        };
        let from = m.connect_random_from(3, 0, &mut rng).unwrap();
        assert!(from < 3);
        assert_eq!(m.genes[from].synapses, vec![Synapse { target: 3, weight_bits: 0 }]);
        assert_eq!(m.synapse_count(), 1);
    }
    let mut none = Minet { genes: vec![gene(0.0, vec![])], input: 0, hidden: 0, output: 1, fitness_bits: 0 };
    assert_eq!(none.connect_random_from(0, 0, &mut rng), None);
}

#[test]
fn remove_smallest_takes_first_least_magnitude() {
    let mut m = Minet {
        genes: vec![
            gene(0.0, vec![syn(2, 0.5), syn(3, -0.1)]),
            gene(0.0, vec![syn(2, 0.1), syn(3, 0.3)]),
            gene(0.0, vec![syn(3, -2.0)]),
            gene(0.0, vec![]),
        ],
        input: 2,
        hidden: 1,
        output: 1,
        fitness_bits: 0,
    };
    m.synapse_remove_smallest();
    assert_eq!(m.genes[0].synapses, vec![syn(2, 0.5)]);
    assert_eq!(m.genes[1].synapses, vec![syn(2, 0.1), syn(3, 0.3)]);
    m.synapse_remove_smallest();
    assert_eq!(m.genes[1].synapses, vec![syn(3, 0.3)]);
    m.synapse_remove_smallest();
    assert_eq!(m.genes[1].synapses, vec![]);
    m.synapse_remove_smallest();
    assert_eq!(m.genes[0].synapses, vec![]);
    m.synapse_remove_smallest();
    assert_eq!(m.genes[2].synapses, vec![]);
    m.synapse_remove_smallest();
    assert_eq!(m.synapse_count(), 0);
}

#[test]
fn remove_smallest_treats_both_zeros_alike() {
    let mut m = Minet {
        genes: vec![gene(0.0, vec![syn(1, -0.0), syn(2, 0.0)]), gene(0.0, vec![]), gene(0.0, vec![])],
        input: 1,
        hidden: 0,
        output: 2,
        fitness_bits: 0,
    };
    m.synapse_remove_smallest();
    assert_eq!(m.genes[0].synapses, vec![syn(2, 0.0)]);
}

#[test]
fn remove_random_removes_exactly_one() {
    let mut rng = StdRng::seed_from_u64(12);
    let mut m = small_genome();
    m.synapse_remove_random(&mut rng);
    assert_eq!(m.synapse_count(), 2);
    m.synapse_remove_random(&mut rng);
    m.synapse_remove_random(&mut rng);
    assert_eq!(m.synapse_count(), 0);
    m.synapse_remove_random(&mut rng);
    assert_eq!(m.synapse_count(), 0);
}

#[test]
fn swap_keeps_count_and_shape() {
    let mut rng = StdRng::seed_from_u64(21);
    let mut m = Minet::new(3, 5, 2, GrowthPolicy::Budget, &weights(25), &mut rng);
    for policy in [RemovalPolicy::Smallest, RemovalPolicy::Random] {
        for _ in 0..10 {
            m.synapse_swap(policy, 3.0f32.to_bits(), &mut rng);
            assert_eq!(m.synapse_count(), 25);
            assert_eq!((m.input, m.hidden, m.output, m.genes.len()), (3, 5, 2, 10));
            assert_well_formed(&m);
        }
    }
}

#[test]
fn swap_on_an_empty_genome_only_adds() {
    let mut rng = StdRng::seed_from_u64(22);
    let mut m = Minet {
        genes: (0..3).map(|_| gene(0.0, vec![])).collect(),
        input: 1,
        hidden: 1,
        output: 1,
        fitness_bits: 0,
    };
    m.synapse_swap(RemovalPolicy::Smallest, 0, &mut rng);
    assert_eq!(m.synapse_count(), 1);
}

#[test]
fn structural_mutation_follows_its_chance() {
    let mut rng = StdRng::seed_from_u64(23);
    let mut m = small_genome();
    let before = m.clone();
    assert!(!m.mutate_structure(RemovalPolicy::Smallest, 0, 5, 7.0f32.to_bits(), &mut rng));
    assert_eq!(m.genes.len(), before.genes.len());
    for (a, b) in m.genes.iter().zip(before.genes.iter()) {
        assert_eq!(a.synapses, b.synapses);
    }
    assert!(m.mutate_structure(RemovalPolicy::Smallest, 5, 5, 7.0f32.to_bits(), &mut rng));
    // The smallest synapse (0 -> 1, weight 0.5) left, and the only open
    // pair then was the same one, now with weight 7.
    assert_eq!(m.genes[0].synapses, vec![syn(2, -1.0), syn(1, 7.0)]);
    assert_eq!(m.synapse_count(), 3);
    let sevens = m.genes.iter().flat_map(|g| g.synapses.iter()).filter(|s| s.weight_bits == 7.0f32.to_bits()).count();
    assert_eq!(sevens, 1);
}

#[test]
fn crossover_copies_whole_genes_from_either_parent() {
    let mut rng = StdRng::seed_from_u64(31);
    let a = Minet::new(3, 5, 2, GrowthPolicy::Budget, &weights(25), &mut rng);
    let mut b = Minet::new(3, 5, 2, GrowthPolicy::Budget, &weights(25), &mut rng);
    for (k, g) in b.genes.iter_mut().enumerate() {
        g.bias_bits = (k as f32 + 1.0).to_bits();
    }
    let mut a = a;
    a.fitness_bits = 0.5f32.to_bits();
    let child = a.crossover(&b, &mut rng);
    assert_eq!(child.genes.len(), 10);
    assert_eq!((child.input, child.hidden, child.output), (3, 5, 2));
    assert_eq!(child.fitness_bits, 0);
    let mut from_a = 0;
    let mut from_b = 0;
    for (k, g) in child.genes.iter().enumerate() {
        let same_a = g.bias_bits == a.genes[k].bias_bits && g.synapses == a.genes[k].synapses;
        let same_b = g.bias_bits == b.genes[k].bias_bits && g.synapses == b.genes[k].synapses;
        assert!(same_a || same_b);
        if same_a {
            from_a += 1;
        } else {
            from_b += 1;
        }
    }
    assert_eq!(from_a + from_b, 10);
    assert_well_formed(&child);
}

#[test]
fn ranking_orders_by_fitness_then_position() {
    let fits = [0.5f32, -1.0, 2.0, 0.5, 0.0, -0.0, f32::INFINITY, -3.5];
    let pop: Vec<Minet> = fits
        .iter()
        .map(|f| {
            let mut m = small_genome();
            m.fitness_bits = f.to_bits();
            m
        })
        .collect();
    assert_eq!(Minet::ranking(&pop), vec![6, 2, 0, 3, 4, 5, 1, 7]);
}

#[test]
fn truncation_refill_keeps_survivors_then_children() {
    let mut rng = StdRng::seed_from_u64(41);
    let w: Vec<Vec<u32>> = (0..100).map(|_| weights(25)).collect();
    let mut pop = Minet::initialize_population(100, 3, 5, 2, GrowthPolicy::Budget, &w, &mut rng);
    for (k, m) in pop.iter_mut().enumerate() {
        m.fitness_bits = ((k % 37) as f32 / 10.0).to_bits();
    }
    let survivors = Minet::select_survivors(&pop, 10);
    assert_eq!(survivors.len(), 10);
    for s in &survivors {
        assert_eq!(s.fitness_bits, 0);
    }
    // The fittest value, 3.6, belongs to individuals 36 and 73.
    assert_eq!(survivors[0].genes.len(), pop[36].genes.len());
    for (k, g) in survivors[0].genes.iter().enumerate() {
        assert_eq!(g.synapses, pop[36].genes[k].synapses);
    }
    for (k, g) in survivors[1].genes.iter().enumerate() {
        assert_eq!(g.synapses, pop[73].genes[k].synapses);
    }
    let kept = survivors.clone();
    let next = Minet::refill_population(survivors, 100, &mut rng);
    assert_eq!(next.len(), 100);
    for k in 0..10 {
        assert_eq!(next[k].fitness_bits, 0);
        for (a, b) in next[k].genes.iter().zip(kept[k].genes.iter()) {
            assert_eq!(a.synapses, b.synapses);
        }
    }
    for child in &next[10..] {
        assert_eq!(child.genes.len(), 10);
        assert_well_formed(child);
        for (slot, g) in child.genes.iter().enumerate() {
            assert!(kept.iter().any(|s| s.genes[slot].synapses == g.synapses && s.genes[slot].bias_bits == g.bias_bits));
        }
    }
}

#[test]
fn refill_of_nothing_to_nothing() {
    let mut rng = StdRng::seed_from_u64(42);
    assert!(Minet::refill_population(Vec::new(), 0, &mut rng).is_empty());
}

#[test]
fn bytes_follow_the_wire_layout() {
    let bytes = small_genome().to_bytes().unwrap();
    assert_eq!(
        bytes,
        vec![3, 0, 0, 0, 0, 0, 2, 1, 0, 0, 0, 63, 2, 0, 0, 128, 191, 0, 0, 128, 62, 1, 2, 0, 0, 0, 64, 0, 0, 0, 191, 0]
    );
}

#[test]
fn encode_gives_unpadded_base64() {
    assert_eq!(small_genome().encode().unwrap(), "AwAAAAAAAgEAAAA/AgAAgL8AAIA+AQIAAABAAAAAvwA");
}

#[test]
fn import_reads_a_known_text() {
    let mut m = Minet { genes: vec![], input: 1, hidden: 1, output: 1, fitness_bits: 0 };
    assert_eq!(m.import_base64("AwAAAAAAAgEAAAA/AgAAgL8AAIA+AQIAAABAAAAAvwA"), Ok(()));
    let g = small_genome();
    assert_eq!(m.genes.len(), 3);
    for (a, b) in m.genes.iter().zip(g.genes.iter()) {
        assert_eq!(a.bias_bits, b.bias_bits);
        assert_eq!(a.synapses, b.synapses);
    }
}

#[test]
fn codec_round_trip_reproduces_genes() {
    let mut rng = StdRng::seed_from_u64(51);
    let mut m = Minet::new(3, 5, 2, GrowthPolicy::Budget, &weights(25), &mut rng);
    m.genes[4].bias_bits = (-0.125f32).to_bits();
    m.genes[0].synapses[0].weight_bits = f32::NAN.to_bits();
    let text = m.encode().unwrap();
    let back = Minet::decode(3, 5, 2, &text).unwrap();
    assert_eq!(back.genes.len(), m.genes.len());
    for (a, b) in back.genes.iter().zip(m.genes.iter()) {
        assert_eq!(a.bias_bits, b.bias_bits);
        assert_eq!(a.synapses, b.synapses);
    }
    let bytes = m.to_bytes().unwrap();
    let genes = Minet::genes_from_bytes(&bytes).unwrap();
    assert_eq!(genes.len(), 10);
}

#[test]
fn empty_genome_round_trips() {
    let m = Minet { genes: vec![], input: 0, hidden: 0, output: 0, fitness_bits: 0 };
    let text = m.encode().unwrap();
    assert_eq!(text, "AAA");
    assert_eq!(Minet::decode(0, 0, 0, &text).unwrap().genes.len(), 0);
}

#[test]
fn oversized_genomes_are_refused() {
    let mut m = small_genome();
    m.genes[0].synapses[0].target = 256;
    assert_eq!(m.encode(), Err(CodecError::ExceedsFormat));
    let many = Minet {
        genes: vec![gene(0.0, (0..256).map(|t| syn(t, 0.0)).collect())],
        input: 1,
        hidden: 0,
        output: 0,
        fitness_bits: 0,
    };
    assert!(matches!(many.to_bytes(), Err(CodecError::ExceedsFormat)));
    let big = Minet { genes: (0..65536).map(|_| gene(0.0, vec![])).collect(), input: 65536, hidden: 0, output: 0, fitness_bits: 0 };
    assert_eq!(big.encode(), Err(CodecError::ExceedsFormat));
    let most = Minet { genes: (0..65535).map(|_| gene(0.0, vec![])).collect(), input: 65535, hidden: 0, output: 0, fitness_bits: 0 };
    assert!(most.encode().is_ok());
}

#[test]
fn malformed_text_and_short_streams_are_refused() {
    let mut m = small_genome();
    assert_eq!(m.import_base64("not base64!"), Err(CodecError::InvalidText));
    assert_eq!(m.import_base64("AwAAAAAAAgEAAAA/AgAAgL8AAIA+AQIAAABAAAAAvwA="), Err(CodecError::InvalidText));
    // Three genes announced, the last one cut off.
    assert_eq!(m.import_base64("AwAAAAAAAgEAAAA/AgAAgL8AAIA+AQIAAABAAAAA"), Err(CodecError::Truncated));
    assert!(matches!(Minet::genes_from_bytes(&vec![1]), Err(CodecError::Truncated)));
    assert!(matches!(Minet::genes_from_bytes(&vec![1, 0, 0, 0, 0, 0, 1, 3]), Err(CodecError::Truncated)));
    assert_eq!(m.genes.len(), 3);
    assert_eq!(m.synapse_count(), 3);
}

#[test]
fn decoding_ignores_trailing_bytes() {
    let genes = Minet::genes_from_bytes(&vec![1, 0, 0, 0, 128, 63, 0, 9, 9]).unwrap();
    assert_eq!(genes.len(), 1);
    assert_eq!(genes[0].bias_bits, 1.0f32.to_bits());
    assert!(genes[0].synapses.is_empty());
}

#[test]
fn dot_text_lists_clusters_and_edges() {
    let m = small_genome();
    let bias = vec!["0.00".to_string(), "0.25".to_string(), "-0.50".to_string()];
    let w = vec![vec!["0.50".to_string(), "-1.00".to_string()], vec!["2.00".to_string()], vec![]];
    let mut expected = String::new();
    expected.push_str("digraph Minet {\n");
    expected.push_str("    // Use left-to-right orientation\n");
    expected.push_str("    rankdir=LR;\n");
    expected.push_str("    graph [layout=dot, fontname=\"Helvetica\", fontsize=12];\n");
    expected.push_str("    node [fontname=\"Helvetica\", fontsize=10];\n");
    expected.push_str("    edge [fontname=\"Helvetica\", fontsize=10];\n\n");
    expected.push_str("    subgraph cluster_inputs {\n        style=filled;\n        color=\"#cceeff\";\n        penwidth=1.5;\n        label=\"Input Layer\";\n        labelloc=\"top\";\n        labeljust=\"center\";\n        rank=same;\n");
    expected.push_str("        neuron_0 [shape=box, style=filled, fillcolor=white, penwidth=1.5, label=\"In:0\\nBias=0.00\"];\n");
    expected.push_str("    }\n\n");
    expected.push_str("    subgraph cluster_hidden {\n        style=filled;\n        color=\"#e6e6e6\";\n        penwidth=1.5;\n        label=\"Hidden Layer\";\n        labelloc=\"top\";\n        labeljust=\"center\";\n");
    expected.push_str("        neuron_1 [shape=ellipse, style=filled, fillcolor=white, penwidth=1.5, label=\"H:1\\nBias=0.25\"];\n");
    expected.push_str("    }\n\n");
    expected.push_str("    subgraph cluster_outputs {\n        style=filled;\n        color=\"#ccffcc\";\n        penwidth=1.5;\n        label=\"Output Layer\";\n        labelloc=\"top\";\n        labeljust=\"center\";\n        rank=same;\n");
    expected.push_str("        neuron_2 [shape=doublecircle, style=filled, fillcolor=white, penwidth=1.5, label=\"Out:2\\nBias=-0.50\"];\n");
    expected.push_str("    }\n\n");
    expected.push_str("    // Edges\n");
    expected.push_str("    edge [color=\"#555555\", penwidth=1.2];\n");
    expected.push_str("    neuron_0 -> neuron_1 [label=\"0.50\", fontcolor=\"#333333\"];\n");
    expected.push_str("    neuron_0 -> neuron_2 [label=\"-1.00\", fontcolor=\"#333333\"];\n");
    expected.push_str("    neuron_1 -> neuron_2 [label=\"2.00\", fontcolor=\"#333333\"];\n");
    expected.push_str("}\n");
    assert_eq!(m.to_dot(&bias, &w), expected);
}

#[test]
fn dot_indices_have_several_digits() {
    let n = 123;
    let m = Minet { genes: (0..n).map(|_| gene(0.0, vec![])).collect(), input: 0, hidden: 0, output: n, fitness_bits: 0 };
    let bias: Vec<String> = (0..n).map(|_| "b".to_string()).collect();
    let w: Vec<Vec<String>> = (0..n).map(|_| vec![]).collect();
    let dot = m.to_dot(&bias, &w);
    assert!(dot.contains("        neuron_107 [shape=doublecircle, style=filled, fillcolor=white, penwidth=1.5, label=\"Out:107\\nBias=b\"];\n"));
    assert!(dot.contains("neuron_10 [shape"));
    assert!(dot.contains("neuron_0 [shape"));
}
