//! The binary wire format of a genome and its base64 text form.
//!
//! All integers are little-endian, with no padding:
//! a `u16` gene count, then for each gene its `f32` bias, a `u8` synapse
//! count and, for each synapse, a `u8` target index and an `f32` weight.
use vstd::prelude::*;
use base64::Engine;
use crate::genome::{Gene, GeneView, Minet, MinetView, Synapse};

verus! {

/// Why a genome could not be written or read.
#[derive(Clone, Copy, Debug, PartialEq, Eq)]
pub enum CodecError {
    /// More than 65535 genes, more than 255 synapses on one gene, or a
    /// target index above 255.
    ExceedsFormat,
    /// The text is not unpadded standard base64.
    InvalidText,
    /// The bytes end before the genes they announce.
    Truncated,
}

/// The four little-endian bytes of `x`.
pub open spec fn u32_le(x: u32) -> Seq<u8> {
    seq![
        (x & 0xffu32) as u8,
        ((x >> 8u32) & 0xffu32) as u8,
        ((x >> 16u32) & 0xffu32) as u8,
        ((x >> 24u32) & 0xffu32) as u8,
    ]
}

/// The `u32` whose little-endian bytes start at `pos`.
pub open spec fn u32_at(b: Seq<u8>, pos: int) -> u32 {
    (b[pos] as u32) | ((b[pos + 1] as u32) << 8u32) | ((b[pos + 2] as u32) << 16u32) | ((b[pos + 3] as u32)
        << 24u32)
}

pub open spec fn synapse_bytes(s: Synapse) -> Seq<u8> {
    seq![s.target as u8] + u32_le(s.weight_bits)
}

pub open spec fn synapses_bytes(ss: Seq<Synapse>) -> Seq<u8>
    decreases ss.len(),
{
    if ss.len() == 0 {
        Seq::empty()
    } else {
        synapses_bytes(ss.drop_last()) + synapse_bytes(ss.last())
    }
}

pub open spec fn gene_bytes(g: GeneView) -> Seq<u8> {
    u32_le(g.bias_bits) + seq![g.synapses.len() as u8] + synapses_bytes(g.synapses)
}

pub open spec fn genes_bytes(gs: Seq<GeneView>) -> Seq<u8>
    decreases gs.len(),
{
    if gs.len() == 0 {
        Seq::empty()
    } else {
        genes_bytes(gs.drop_last()) + gene_bytes(gs.last())
    }
}

/// The whole encoding of a sequence of genes.
pub open spec fn genome_bytes(gs: Seq<GeneView>) -> Seq<u8> {
    seq![(gs.len() % 256) as u8, ((gs.len() / 256) % 256) as u8] + genes_bytes(gs)
}

/// The genes fit the format's fields.
pub open spec fn fits_format(gs: Seq<GeneView>) -> bool {
    &&& gs.len() <= 0xffff
    &&& forall|i: int| 0 <= i < gs.len() ==> (#[trigger] gs[i]).synapses.len() <= 0xff
    &&& forall|i: int, j: int|
        0 <= i < gs.len() && 0 <= j < gs[i].synapses.len() ==> #[trigger] gs[i].synapses[j].target <= 0xff
}

/// Reads `count` synapses from `pos`: the synapses and the position after
/// them, or `None` when the bytes end first.
pub open spec fn parse_synapses(b: Seq<u8>, pos: int, count: nat) -> Option<(Seq<Synapse>, int)>
    decreases count,
{
    if count == 0 {
        Some((Seq::empty(), pos))
    } else {
        match parse_synapses(b, pos, (count - 1) as nat) {
            None => None,
            Some((ss, p)) => if 0 <= p && p + 5 <= b.len() {
                Some((ss.push(Synapse { target: b[p] as usize, weight_bits: u32_at(b, p + 1) }), p + 5))
            } else {
                None
            },
        }
    }
}

/// Reads one gene from `pos`.
pub open spec fn parse_gene(b: Seq<u8>, pos: int) -> Option<(GeneView, int)> {
    if 0 <= pos && pos + 5 <= b.len() {
        match parse_synapses(b, pos + 5, b[pos + 4] as nat) {
            None => None,
            Some((ss, q)) => Some((GeneView { bias_bits: u32_at(b, pos), synapses: ss }, q)),
        }
    } else {
        None
    }
}

/// Reads `count` genes from `pos`.
pub open spec fn parse_genes(b: Seq<u8>, pos: int, count: nat) -> Option<(Seq<GeneView>, int)>
    decreases count,
{
    if count == 0 {
        Some((Seq::empty(), pos))
    } else {
        match parse_genes(b, pos, (count - 1) as nat) {
            None => None,
            Some((gs, p)) => match parse_gene(b, p) {
                None => None,
                Some((g, q)) => Some((gs.push(g), q)),
            },
        }
    }
}

/// The genes that a byte stream encodes; bytes after them are ignored.
pub open spec fn parse_genome(b: Seq<u8>) -> Option<Seq<GeneView>> {
    if b.len() < 2 {
        None
    } else {
        match parse_genes(b, 2, (b[0] + 256 * b[1]) as nat) {
            None => None,
            Some((gs, _)) => Some(gs),
        }
    }
}

proof fn lemma_u32_round_trip(x: u32)
    ensures
        ((x & 0xffu32) as u8 as u32) | ((((x >> 8u32) & 0xffu32) as u8 as u32) << 8u32) | ((((x >> 16u32)
            & 0xffu32) as u8 as u32) << 16u32) | ((((x >> 24u32) & 0xffu32) as u8 as u32) << 24u32) == x,
{
    assert(((x & 0xffu32) as u8 as u32) | ((((x >> 8u32) & 0xffu32) as u8 as u32) << 8u32) | ((((x
        >> 16u32) & 0xffu32) as u8 as u32) << 16u32) | ((((x >> 24u32) & 0xffu32) as u8 as u32) << 24u32)
        == x) by (bit_vector);
}

/// Four bytes read back as the `u32` they were written from.
proof fn lemma_u32_at(b: Seq<u8>, pos: int, x: u32)
    requires
        0 <= pos,
        pos + 4 <= b.len(),
        b.subrange(pos, pos + 4) == u32_le(x),
    ensures
        u32_at(b, pos) == x,
{
    assert(b[pos] == b.subrange(pos, pos + 4)[0]);
    assert(b[pos + 1] == b.subrange(pos, pos + 4)[1]);
    assert(b[pos + 2] == b.subrange(pos, pos + 4)[2]);
    assert(b[pos + 3] == b.subrange(pos, pos + 4)[3]);
    lemma_u32_round_trip(x);
}

/// A window of a window of `b` is a window of `b`.
proof fn lemma_window(b: Seq<u8>, pos: int, whole: Seq<u8>, lo: int, hi: int)
    requires
        0 <= pos,
        pos + whole.len() <= b.len(),
        b.subrange(pos, pos + whole.len()) == whole,
        0 <= lo <= hi <= whole.len(),
    ensures
        b.subrange(pos + lo, pos + hi) == whole.subrange(lo, hi),
{
    assert forall|k: int| 0 <= k < hi - lo implies b.subrange(pos + lo, pos + hi)[k] == whole.subrange(lo, hi)[k] by {
        assert(b.subrange(pos, pos + whole.len())[lo + k] == b[pos + lo + k]);
    };
    assert(b.subrange(pos + lo, pos + hi) =~= whole.subrange(lo, hi));
}

proof fn lemma_synapses_bytes_len(ss: Seq<Synapse>)
    ensures
        synapses_bytes(ss).len() == 5 * ss.len(),
    decreases ss.len(),
{
    if ss.len() > 0 {
        lemma_synapses_bytes_len(ss.drop_last());
    }
}

proof fn lemma_parse_synapses(b: Seq<u8>, pos: int, ss: Seq<Synapse>)
    requires
        0 <= pos,
        pos + synapses_bytes(ss).len() <= b.len(),
        b.subrange(pos, pos + synapses_bytes(ss).len()) == synapses_bytes(ss),
        forall|j: int| 0 <= j < ss.len() ==> (#[trigger] ss[j]).target <= 0xff,
    ensures
        parse_synapses(b, pos, ss.len()) == Some((ss, pos + synapses_bytes(ss).len())),
    decreases ss.len(),
{
    lemma_synapses_bytes_len(ss);
    if ss.len() > 0 {
        let init = ss.drop_last();
        let last = ss.last();
        let n = synapses_bytes(init).len() as int;
        lemma_synapses_bytes_len(init);
        let whole = synapses_bytes(ss);
        assert(whole == synapses_bytes(init) + synapse_bytes(last));
        lemma_window(b, pos, whole, 0, n);
        assert(whole.subrange(0, n) =~= synapses_bytes(init));
        lemma_parse_synapses(b, pos, init);
        let p = pos + n;
        assert(b[p] == b.subrange(pos, pos + whole.len())[n]);
        lemma_window(b, pos, whole, n + 1, n + 5);
        assert(whole.subrange(n + 1, n + 5) =~= u32_le(last.weight_bits));
        lemma_u32_at(b, p + 1, last.weight_bits);
        assert(init.push(last) =~= ss);
    }
}

proof fn lemma_gene_bytes_len(g: GeneView)
    ensures
        gene_bytes(g).len() == 5 + 5 * g.synapses.len(),
{
    lemma_synapses_bytes_len(g.synapses);
}

proof fn lemma_parse_gene(b: Seq<u8>, pos: int, g: GeneView)
    requires
        0 <= pos,
        pos + gene_bytes(g).len() <= b.len(),
        b.subrange(pos, pos + gene_bytes(g).len()) == gene_bytes(g),
        g.synapses.len() <= 0xff,
        forall|j: int| 0 <= j < g.synapses.len() ==> (#[trigger] g.synapses[j]).target <= 0xff,
    ensures
        parse_gene(b, pos) == Some((g, pos + gene_bytes(g).len())),
{
    lemma_gene_bytes_len(g);
    let whole = gene_bytes(g);
    lemma_window(b, pos, whole, 0, 4);
    assert(whole.subrange(0, 4) =~= u32_le(g.bias_bits));
    lemma_u32_at(b, pos, g.bias_bits);
    assert(b[pos + 4] == b.subrange(pos, pos + whole.len())[4]);
    let sb = synapses_bytes(g.synapses);
    lemma_window(b, pos, whole, 5, 5 + sb.len() as int);
    assert(whole.subrange(5, 5 + sb.len() as int) =~= sb);
    lemma_parse_synapses(b, pos + 5, g.synapses);
}

proof fn lemma_genes_bytes_len(gs: Seq<GeneView>)
    ensures
        genes_bytes(gs).len() >= 5 * gs.len(),
    decreases gs.len(),
{
    if gs.len() > 0 {
        lemma_genes_bytes_len(gs.drop_last());
        lemma_gene_bytes_len(gs.last());
    }
}

proof fn lemma_parse_genes(b: Seq<u8>, pos: int, gs: Seq<GeneView>)
    requires
        0 <= pos,
        pos + genes_bytes(gs).len() <= b.len(),
        b.subrange(pos, pos + genes_bytes(gs).len()) == genes_bytes(gs),
        fits_format(gs),
    ensures
        parse_genes(b, pos, gs.len()) == Some((gs, pos + genes_bytes(gs).len())),
    decreases gs.len(),
{
    if gs.len() > 0 {
        let init = gs.drop_last();
        let last = gs.last();
        let n = genes_bytes(init).len() as int;
        let whole = genes_bytes(gs);
        assert(whole == genes_bytes(init) + gene_bytes(last));
        lemma_window(b, pos, whole, 0, n);
        assert(whole.subrange(0, n) =~= genes_bytes(init));
        assert(fits_format(init)) by {
            assert forall|i: int, j: int|
                0 <= i < init.len() && 0 <= j < init[i].synapses.len() implies #[trigger] init[i].synapses[j].target
                <= 0xff by {
                assert(init[i] == gs[i]);
            };
        };
        lemma_parse_genes(b, pos, init);
        let p = pos + n;
        let gl = gene_bytes(last).len() as int;
        lemma_window(b, pos, whole, n, n + gl);
        assert(whole.subrange(n, n + gl) =~= gene_bytes(last));
        assert(last == gs[gs.len() - 1]);
        lemma_parse_gene(b, p, last);
        assert(init.push(last) =~= gs);
    }
}

/// Reading back the encoding of genes that fit the format gives the same
/// genes: biases and weights bit for bit, synapse lists in their order.
pub proof fn lemma_codec_round_trip(gs: Seq<GeneView>)
    requires
        fits_format(gs),
    ensures
        parse_genome(genome_bytes(gs)) == Some(gs),
{
    let b = genome_bytes(gs);
    let body = genes_bytes(gs);
    assert(b.subrange(2, 2 + body.len() as int) =~= body);
    assert(b[0] + 256 * b[1] == gs.len());
    lemma_parse_genes(b, 2, gs);
}

/// Once the bytes run out for synapses, they run out for more of them.
proof fn lemma_parse_synapses_stops(b: Seq<u8>, pos: int, count: nat, more: nat)
    requires
        parse_synapses(b, pos, count) is None,
        count <= more,
    ensures
        parse_synapses(b, pos, more) is None,
    decreases more - count,
{
    if count < more {
        lemma_parse_synapses_stops(b, pos, count, (more - 1) as nat);
    }
}

/// Once the bytes run out for genes, they run out for more of them.
proof fn lemma_parse_genes_stops(b: Seq<u8>, pos: int, count: nat, more: nat)
    requires
        parse_genes(b, pos, count) is None,
        count <= more,
    ensures
        parse_genes(b, pos, more) is None,
    decreases more - count,
{
    if count < more {
        lemma_parse_genes_stops(b, pos, count, (more - 1) as nat);
    }
}

/// The name of the unpadded standard base64 text of a byte string.
pub uninterp spec fn base64_text(bytes: Seq<u8>) -> Seq<char>;

/// The name of the bytes that an unpadded standard base64 text decodes to,
/// or `None` when it is not such a text.
pub uninterp spec fn base64_bytes(text: Seq<char>) -> Option<Seq<u8>>;

/// Relies on `base64::engine::general_purpose::STANDARD_NO_PAD.encode`: the
/// unpadded standard base64 text of the bytes, which depends on them alone.
#[verifier::external_body]
fn encode_base64(bytes: &Vec<u8>) -> (r: String)
    ensures
        r@ == base64_text(bytes@),
{
    base64::engine::general_purpose::STANDARD_NO_PAD.encode(bytes)
}

/// Relies on `base64::engine::general_purpose::STANDARD_NO_PAD.decode`: the
/// bytes that the text encodes, or an error, which depends on the text alone.
#[verifier::external_body]
fn decode_base64(text: &str) -> (r: Option<Vec<u8>>)
    ensures
        match r {
            Some(v) => base64_bytes(text@) == Some(v@),
            None => base64_bytes(text@) is None,
        },
{
    base64::engine::general_purpose::STANDARD_NO_PAD.decode(text).ok()
}

fn push_u32(out: &mut Vec<u8>, x: u32)
    ensures
        final(out)@ == old(out)@ + u32_le(x),
{
    out.push((x & 0xffu32) as u8);
    out.push(((x >> 8u32) & 0xffu32) as u8);
    out.push(((x >> 16u32) & 0xffu32) as u8);
    out.push(((x >> 24u32) & 0xffu32) as u8);
    assert(final(out)@ =~= old(out)@ + u32_le(x));
}

fn read_u32(b: &Vec<u8>, pos: usize) -> (r: u32)
    requires
        pos + 4 <= b@.len() <= usize::MAX,
    ensures
        r == u32_at(b@, pos as int),
{
    (b[pos] as u32) | ((b[pos + 1] as u32) << 8u32) | ((b[pos + 2] as u32) << 16u32) | ((b[pos + 3] as u32)
        << 24u32)
}

impl Minet {
    /// Whether the genes fit the fields of the wire format.
    pub fn fits_format(&self) -> (r: bool)
        ensures
            r == fits_format(self@.genes),
    {
        if self.genes.len() > 0xffff {
            return false;
        }
        let mut i: usize = 0;
        while i < self.genes.len()
            invariant
                i <= self@.genes.len(),
                self@.genes.len() <= 0xffff,
                forall|a: int| 0 <= a < i ==> (#[trigger] self@.genes[a]).synapses.len() <= 0xff,
                forall|a: int, j: int|
                    0 <= a < i && 0 <= j < self@.genes[a].synapses.len() ==> #[trigger] self@.genes[a].synapses[j].target
                        <= 0xff,
            decreases self@.genes.len() - i,
        {
            let syn = &self.genes[i].synapses;
            assert(syn@ == self@.genes[i as int].synapses);
            if syn.len() > 0xff {
                return false;
            }
            let mut j: usize = 0;
            while j < syn.len()
                invariant
                    i < self@.genes.len(),
                    syn@ == self@.genes[i as int].synapses,
                    j <= syn@.len(),
                    forall|k: int| 0 <= k < j ==> (#[trigger] syn@[k]).target <= 0xff,
                decreases syn@.len() - j,
            {
                if syn[j].target > 0xff {
                    return false;
                }
                j += 1;
            }
            i += 1;
        }
        true
    }

    /// The wire encoding of the genes, or `ExceedsFormat` when they do not
    /// fit its fields.
    pub fn to_bytes(&self) -> (r: Result<Vec<u8>, CodecError>)
        ensures
            fits_format(self@.genes) ==> (r matches Ok(b) && b@ == genome_bytes(self@.genes)),
            !fits_format(self@.genes) ==> r == Err::<Vec<u8>, CodecError>(CodecError::ExceedsFormat),
    {
        if !self.fits_format() {
            return Err(CodecError::ExceedsFormat);
        }
        let ghost gs = self@.genes;
        let n = self.genes.len();
        let mut out: Vec<u8> = Vec::new();
        out.push((n % 256) as u8);
        out.push(((n / 256) % 256) as u8);
        let ghost head = out@;
        assert(gs.take(0) =~= Seq::<GeneView>::empty());
        assert(out@ =~= head + genes_bytes(gs.take(0)));
        let mut i: usize = 0;
        while i < n
            invariant
                gs == self@.genes,
                n == gs.len(),
                fits_format(gs),
                i <= n,
                head == seq![(gs.len() % 256) as u8, ((gs.len() / 256) % 256) as u8],
                out@ == head + genes_bytes(gs.take(i as int)),
            decreases n - i,
        {
            let gene = &self.genes[i];
            let ghost g = gs[i as int];
            assert(gene@ == g);
            let ghost start = out@;
            push_u32(&mut out, gene.bias_bits);
            let count = gene.synapses.len();
            assert(g.synapses.len() <= 0xff);
            out.push(count as u8);
            let ghost mid = out@;
            assert(g.synapses.take(0) =~= Seq::<Synapse>::empty());
            assert(out@ =~= mid + synapses_bytes(g.synapses.take(0)));
            let mut j: usize = 0;
            while j < count
                invariant
                    gene@ == g,
                    g == gs[i as int],
                    count == g.synapses.len(),
                    i < n,
                    n == gs.len(),
                    fits_format(gs),
                    j <= count,
                    out@ == mid + synapses_bytes(g.synapses.take(j as int)),
                decreases count - j,
            {
                let syn = gene.synapses[j];
                assert(syn.target <= 0xff);
                let ghost before = out@;
                out.push(syn.target as u8);
                push_u32(&mut out, syn.weight_bits);
                assert(g.synapses.take(j + 1).drop_last() =~= g.synapses.take(j as int));
                assert(out@ =~= mid + synapses_bytes(g.synapses.take(j + 1)));
                j += 1;
            }
            assert(g.synapses.take(count as int) =~= g.synapses);
            assert(out@ =~= start + gene_bytes(g));
            assert(gs.take(i + 1).drop_last() =~= gs.take(i as int));
            assert(out@ =~= head + genes_bytes(gs.take(i + 1)));
            i += 1;
        }
        assert(gs.take(n as int) =~= gs);
        Ok(out)
    }

    /// The genes that a byte stream encodes, or `Truncated` when it ends
    /// before them. Bytes after the last gene are ignored, and the genes are
    /// not checked against the slot order.
    pub fn genes_from_bytes(bytes: &Vec<u8>) -> (r: Result<Vec<Gene>, CodecError>)
        ensures
            match parse_genome(bytes@) {
                Some(gs) => r matches Ok(v) && v@.map_values(|g: Gene| g@) == gs,
                None => r == Err::<Vec<Gene>, CodecError>(CodecError::Truncated),
            },
    {
        let ghost b = bytes@;
        let len = bytes.len();
        if len < 2 {
            return Err(CodecError::Truncated);
        }
        let count = bytes[0] as usize + 256 * (bytes[1] as usize);
        let mut genes: Vec<Gene> = Vec::new();
        let mut pos: usize = 2;
        let mut i: usize = 0;
        while i < count
            invariant
                b == bytes@,
                len == b.len(),
                count == b[0] + 256 * b[1],
                i <= count,
                pos <= len,
                parse_genes(b, 2, i as nat) == Some((genes@.map_values(|g: Gene| g@), pos as int)),
            decreases count - i,
        {
            if len - pos < 5 {
                proof {
                    lemma_parse_genes_stops(b, 2, (i + 1) as nat, count as nat);
                }
                return Err(CodecError::Truncated);
            }
            let gene_pos = pos;
            let bias_bits = read_u32(bytes, pos);
            let n = bytes[pos + 4] as usize;
            pos = pos + 5;
            let mut synapses: Vec<Synapse> = Vec::new();
            let mut j: usize = 0;
            while j < n
                invariant
                    b == bytes@,
                    len == b.len(),
                    j <= n,
                    gene_pos + 5 <= len,
                    n == b[gene_pos + 4],
                    i < count,
                    count == b[0] + 256 * b[1],
                    parse_genes(b, 2, i as nat) == Some((genes@.map_values(|g: Gene| g@), gene_pos as int)),
                    pos <= len,
                    parse_synapses(b, gene_pos + 5, j as nat) == Some((synapses@, pos as int)),
                decreases n - j,
            {
                if len - pos < 5 {
                    proof {
                        lemma_parse_synapses_stops(b, gene_pos + 5, (j + 1) as nat, n as nat);
                        lemma_parse_genes_stops(b, 2, (i + 1) as nat, count as nat);
                    }
                    return Err(CodecError::Truncated);
                }
                let target = bytes[pos] as usize;
                let weight_bits = read_u32(bytes, pos + 1);
                synapses.push(Synapse { target, weight_bits });
                pos = pos + 5;
                j += 1;
            }
            let gene = Gene { bias_bits, synapses };
            let ghost before = genes@.map_values(|g: Gene| g@);
            genes.push(gene);
            assert(genes@.map_values(|g: Gene| g@) =~= before.push(gene@));
            i += 1;
        }
        Ok(genes)
    }

    /// The unpadded standard base64 text of the wire encoding, or
    /// `ExceedsFormat` when the genes do not fit its fields.
    pub fn encode(&self) -> (r: Result<String, CodecError>)
        ensures
            fits_format(self@.genes) ==> (r matches Ok(text) && text@ == base64_text(genome_bytes(self@.genes))),
            !fits_format(self@.genes) ==> r == Err::<String, CodecError>(CodecError::ExceedsFormat),
    {
        match self.to_bytes() {
            Ok(bytes) => Ok(encode_base64(&bytes)),
            Err(e) => Err(e),
        }
    }

    /// Replaces the genes with those that a base64 text encodes, keeping the
    /// sizes and the fitness. On an error nothing changes.
    pub fn import_base64(&mut self, encoded: &str) -> (r: Result<(), CodecError>)
        ensures
            match base64_bytes(encoded@) {
                None => r == Err::<(), CodecError>(CodecError::InvalidText) && final(self)@ == old(self)@,
                Some(b) => match parse_genome(b) {
                    None => r == Err::<(), CodecError>(CodecError::Truncated) && final(self)@ == old(self)@,
                    Some(gs) => r is Ok && final(self)@ == MinetView { genes: gs, ..old(self)@ },
                },
            },
    {
        let bytes = match decode_base64(encoded) {
            Some(bytes) => bytes,
            None => return Err(CodecError::InvalidText),
        };
        match Minet::genes_from_bytes(&bytes) {
            Ok(genes) => {
                self.genes = genes;
                Ok(())
            },
            Err(e) => Err(e),
        }
    }

    /// An individual of the given sizes, with zero fitness, whose genes a
    /// base64 text encodes.
    pub fn decode(input: usize, hidden: usize, output: usize, encoded: &str) -> (r: Result<Minet, CodecError>)
        ensures
            match base64_bytes(encoded@) {
                None => r == Err::<Minet, CodecError>(CodecError::InvalidText),
                Some(b) => match parse_genome(b) {
                    None => r == Err::<Minet, CodecError>(CodecError::Truncated),
                    Some(gs) => r matches Ok(m) && m@ == MinetView {
                        genes: gs,
                        input: input as nat,
                        hidden: hidden as nat,
                        output: output as nat,
                        fitness_bits: 0,
                    },
                },
            },
    {
        let mut m = Minet { genes: Vec::new(), input, hidden, output, fitness_bits: 0 };
        match m.import_base64(encoded) {
            Ok(()) => Ok(m),
            Err(e) => Err(e),
        }
    }
}

} // verus!
