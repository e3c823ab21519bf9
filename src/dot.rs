//! A Graphviz description of a genome.
use vstd::prelude::*;
use crate::genome::{GeneView, Minet, MinetView, Synapse};

verus! {

/// The character of the decimal digit `d`.
pub open spec fn digit_char(d: nat) -> char {
    if d == 0 {
        '0'
    } else if d == 1 {
        '1'
    } else if d == 2 {
        '2'
    } else if d == 3 {
        '3'
    } else if d == 4 {
        '4'
    } else if d == 5 {
        '5'
    } else if d == 6 {
        '6'
    } else if d == 7 {
        '7'
    } else if d == 8 {
        '8'
    } else {
        '9'
    }
}

/// The decimal digits of `n`.
pub open spec fn decimal(n: nat) -> Seq<char>
    decreases n,
{
    if n < 10 {
        seq![digit_char(n)]
    } else {
        decimal(n / 10) + seq![digit_char(n % 10)]
    }
}

fn digit_str(d: usize) -> (r: &'static str)
    requires
        d < 10,
    ensures
        r@ == seq![digit_char(d as nat)],
{
    proof {
        reveal_strlit("0");
        reveal_strlit("1");
        reveal_strlit("2");
        reveal_strlit("3");
        reveal_strlit("4");
        reveal_strlit("5");
        reveal_strlit("6");
        reveal_strlit("7");
        reveal_strlit("8");
        reveal_strlit("9");
    }
    let r = if d == 0 {
        "0"
    } else if d == 1 {
        "1"
    } else if d == 2 {
        "2"
    } else if d == 3 {
        "3"
    } else if d == 4 {
        "4"
    } else if d == 5 {
        "5"
    } else if d == 6 {
        "6"
    } else if d == 7 {
        "7"
    } else if d == 8 {
        "8"
    } else {
        "9"
    };
    assert(r@ =~= seq![digit_char(d as nat)]);
    r
}

/// Appends the decimal digits of `n`.
fn append_decimal(out: &mut String, n: usize)
    ensures
        final(out)@ == old(out)@ + decimal(n as nat),
    decreases n,
{
    if n >= 10 {
        append_decimal(out, n / 10);
    }
    out.append(digit_str(n % 10));
    assert(final(out)@ =~= old(out)@ + decimal(n as nat));
}

/// One neuron's node line; `shape` holds the node attributes up to its label
/// prefix.
pub open spec fn neuron_line(shape: Seq<char>, i: nat, label: Seq<char>) -> Seq<char> {
    "        neuron_"@ + decimal(i) + shape + decimal(i) + "\\nBias="@ + label + "\"];\n"@
}

/// The node lines of slots `lo..hi`.
pub open spec fn neuron_lines(shape: Seq<char>, labels: Seq<Seq<char>>, lo: int, hi: int) -> Seq<char>
    decreases hi - lo,
{
    if hi <= lo {
        Seq::empty()
    } else {
        neuron_lines(shape, labels, lo, hi - 1) + neuron_line(shape, (hi - 1) as nat, labels[hi - 1])
    }
}

pub open spec fn edge_line(source: nat, target: nat, label: Seq<char>) -> Seq<char> {
    "    neuron_"@ + decimal(source) + " -> neuron_"@ + decimal(target) + " [label=\""@ + label
        + "\", fontcolor=\"#333333\"];\n"@
}

/// The edge lines of the first `k` synapses of `source`.
pub open spec fn gene_edges(source: nat, synapses: Seq<Synapse>, labels: Seq<Seq<char>>, k: int) -> Seq<char>
    decreases k,
{
    if k <= 0 {
        Seq::empty()
    } else {
        gene_edges(source, synapses, labels, k - 1) + edge_line(
            source,
            synapses[k - 1].target as nat,
            labels[k - 1],
        )
    }
}

/// The edge lines of the synapses of the first `k` genes.
pub open spec fn all_edges(genes: Seq<GeneView>, labels: Seq<Seq<Seq<char>>>, k: int) -> Seq<char>
    decreases k,
{
    if k <= 0 {
        Seq::empty()
    } else {
        all_edges(genes, labels, k - 1) + gene_edges(
            (k - 1) as nat,
            genes[k - 1].synapses,
            labels[k - 1],
            genes[k - 1].synapses.len() as int,
        )
    }
}

pub open spec fn dot_header() -> Seq<char> {
    "digraph Minet {\n    // Use left-to-right orientation\n    rankdir=LR;\n    graph [layout=dot, fontname=\"Helvetica\", fontsize=12];\n    node [fontname=\"Helvetica\", fontsize=10];\n    edge [fontname=\"Helvetica\", fontsize=10];\n\n"@
}

pub open spec fn inputs_open() -> Seq<char> {
    "    subgraph cluster_inputs {\n        style=filled;\n        color=\"#cceeff\";\n        penwidth=1.5;\n        label=\"Input Layer\";\n        labelloc=\"top\";\n        labeljust=\"center\";\n        rank=same;\n"@
}

pub open spec fn hidden_open() -> Seq<char> {
    "    subgraph cluster_hidden {\n        style=filled;\n        color=\"#e6e6e6\";\n        penwidth=1.5;\n        label=\"Hidden Layer\";\n        labelloc=\"top\";\n        labeljust=\"center\";\n"@
}

pub open spec fn outputs_open() -> Seq<char> {
    "    subgraph cluster_outputs {\n        style=filled;\n        color=\"#ccffcc\";\n        penwidth=1.5;\n        label=\"Output Layer\";\n        labelloc=\"top\";\n        labeljust=\"center\";\n        rank=same;\n"@
}

pub open spec fn input_shape() -> Seq<char> {
    " [shape=box, style=filled, fillcolor=white, penwidth=1.5, label=\"In:"@
}

pub open spec fn hidden_shape() -> Seq<char> {
    " [shape=ellipse, style=filled, fillcolor=white, penwidth=1.5, label=\"H:"@
}

pub open spec fn output_shape() -> Seq<char> {
    " [shape=doublecircle, style=filled, fillcolor=white, penwidth=1.5, label=\"Out:"@
}

pub open spec fn cluster_close() -> Seq<char> {
    "    }\n\n"@
}

pub open spec fn edges_open() -> Seq<char> {
    "    // Edges\n    edge [color=\"#555555\", penwidth=1.2];\n"@
}

/// The whole description: one cluster of nodes per neuron range, labelled
/// with index and bias, then one edge per synapse, labelled with its weight.
pub open spec fn dot_text(m: MinetView, bias_labels: Seq<Seq<char>>, weight_labels: Seq<Seq<Seq<char>>>) -> Seq<char> {
    let i = m.input as int;
    let h = m.source_count() as int;
    let n = m.neuron_count() as int;
    dot_header() + inputs_open() + neuron_lines(input_shape(), bias_labels, 0, i) + cluster_close()
        + hidden_open() + neuron_lines(hidden_shape(), bias_labels, i, h) + cluster_close() + outputs_open()
        + neuron_lines(output_shape(), bias_labels, h, n) + cluster_close() + edges_open() + all_edges(
        m.genes,
        weight_labels,
        n,
    ) + "}\n"@
}

/// The labels as character sequences.
pub open spec fn label_views(labels: Seq<String>) -> Seq<Seq<char>> {
    labels.map_values(|l: String| l@)
}

pub open spec fn nested_label_views(labels: Seq<Vec<String>>) -> Seq<Seq<Seq<char>>> {
    labels.map_values(|v: Vec<String>| label_views(v@))
}

fn append_neuron_lines(out: &mut String, shape: &str, labels: &Vec<String>, lo: usize, hi: usize)
    requires
        lo <= hi <= labels@.len(),
    ensures
        final(out)@ == old(out)@ + neuron_lines(shape@, label_views(labels@), lo as int, hi as int),
{
    let ghost start = old(out)@;
    let mut i: usize = lo;
    assert(start + neuron_lines(shape@, label_views(labels@), lo as int, lo as int) =~= start);
    while i < hi
        invariant
            lo <= i <= hi <= labels@.len(),
            out@ == start + neuron_lines(shape@, label_views(labels@), lo as int, i as int),
        decreases hi - i,
    {
        out.append("        neuron_");
        append_decimal(out, i);
        out.append(shape);
        append_decimal(out, i);
        out.append("\\nBias=");
        out.append(labels[i].as_str());
        out.append("\"];\n");
        i += 1;
        assert(out@ =~= start + neuron_lines(shape@, label_views(labels@), lo as int, i as int));
    }
}

fn append_gene_edges(out: &mut String, source: usize, synapses: &Vec<Synapse>, labels: &Vec<String>)
    requires
        labels@.len() == synapses@.len(),
    ensures
        final(out)@ == old(out)@ + gene_edges(source as nat, synapses@, label_views(labels@), synapses@.len() as int),
{
    let ghost start = old(out)@;
    let mut k: usize = 0;
    assert(start + gene_edges(source as nat, synapses@, label_views(labels@), 0) =~= start);
    while k < synapses.len()
        invariant
            k <= synapses@.len(),
            labels@.len() == synapses@.len(),
            out@ == start + gene_edges(source as nat, synapses@, label_views(labels@), k as int),
        decreases synapses@.len() - k,
    {
        out.append("    neuron_");
        append_decimal(out, source);
        out.append(" -> neuron_");
        append_decimal(out, synapses[k].target);
        out.append(" [label=\"");
        out.append(labels[k].as_str());
        out.append("\", fontcolor=\"#333333\"];\n");
        k += 1;
        assert(out@ =~= start + gene_edges(source as nat, synapses@, label_views(labels@), k as int));
    }
}

impl Minet {
    /// A Graphviz description of the network. Number formatting is left to
    /// the caller: `bias_labels[i]` is the label of the bias of neuron `i`,
    /// and `weight_labels[i][j]` that of the weight of its synapse `j`.
    pub fn to_dot(&self, bias_labels: &Vec<String>, weight_labels: &Vec<Vec<String>>) -> (r: String)
        requires
            self@.has_shape(),
            bias_labels@.len() == self@.genes.len(),
            weight_labels@.len() == self@.genes.len(),
            forall|i: int| 0 <= i < self@.genes.len() ==> (#[trigger] weight_labels@[i])@.len() == self@.genes[i].synapses.len(),
        ensures
            r@ == dot_text(self@, label_views(bias_labels@), nested_label_views(weight_labels@)),
    {
        let n = self.genes.len();
        let i = self.input;
        let h = self.input + self.hidden;
        let mut dot = String::new();
        dot.append("digraph Minet {\n    // Use left-to-right orientation\n    rankdir=LR;\n    graph [layout=dot, fontname=\"Helvetica\", fontsize=12];\n    node [fontname=\"Helvetica\", fontsize=10];\n    edge [fontname=\"Helvetica\", fontsize=10];\n\n");
        dot.append("    subgraph cluster_inputs {\n        style=filled;\n        color=\"#cceeff\";\n        penwidth=1.5;\n        label=\"Input Layer\";\n        labelloc=\"top\";\n        labeljust=\"center\";\n        rank=same;\n");
        append_neuron_lines(&mut dot, " [shape=box, style=filled, fillcolor=white, penwidth=1.5, label=\"In:", bias_labels, 0, i);
        dot.append("    }\n\n");
        dot.append("    subgraph cluster_hidden {\n        style=filled;\n        color=\"#e6e6e6\";\n        penwidth=1.5;\n        label=\"Hidden Layer\";\n        labelloc=\"top\";\n        labeljust=\"center\";\n");
        append_neuron_lines(&mut dot, " [shape=ellipse, style=filled, fillcolor=white, penwidth=1.5, label=\"H:", bias_labels, i, h);
        dot.append("    }\n\n");
        dot.append("    subgraph cluster_outputs {\n        style=filled;\n        color=\"#ccffcc\";\n        penwidth=1.5;\n        label=\"Output Layer\";\n        labelloc=\"top\";\n        labeljust=\"center\";\n        rank=same;\n");
        append_neuron_lines(&mut dot, " [shape=doublecircle, style=filled, fillcolor=white, penwidth=1.5, label=\"Out:", bias_labels, h, n);
        dot.append("    }\n\n");
        dot.append("    // Edges\n    edge [color=\"#555555\", penwidth=1.2];\n");
        let ghost before_edges = dot@;
        let mut s: usize = 0;
        assert(before_edges + all_edges(self@.genes, nested_label_views(weight_labels@), 0) =~= before_edges);
        while s < n
            invariant
                n == self@.genes.len(),
                weight_labels@.len() == n,
                forall|x: int| 0 <= x < n ==> (#[trigger] weight_labels@[x])@.len() == self@.genes[x].synapses.len(),
                s <= n,
                dot@ == before_edges + all_edges(self@.genes, nested_label_views(weight_labels@), s as int),
            decreases n - s,
        {
            let gene = &self.genes[s];
            assert(gene.synapses@ == self@.genes[s as int].synapses);
            append_gene_edges(&mut dot, s, &gene.synapses, &weight_labels[s]);
            s += 1;
            assert(dot@ =~= before_edges + all_edges(self@.genes, nested_label_views(weight_labels@), s as int));
        }
        dot.append("}\n");
        dot
    }
}

} // verus!
