//! The histogram aggregator: one pass over the pixels, counting each
//! red, green and blue value and each luminance bucket.
//!
//! The counts are a pure accumulation: they depend only on the multiset
//! of pixels, never on the scan order, and each color table sums to the
//! pixel count. Both facts are proved below.

use vstd::prelude::*;
use vstd::multiset::Multiset;
use vstd::slice::slice_index_get;
use vstd::pervasive::VecAdditionalExecFns;
use crate::math::{lum_num, luminance, lemma_div_below};

verus! {

/// How many of the first `n` pixels have value `v` in channel `c`.
pub open spec fn count_ch(data: Seq<u8>, c: int, n: int, v: u8) -> int
    decreases n,
{
    if n <= 0 {
        0
    } else {
        count_ch(data, c, n - 1, v) + (if data[4 * (n - 1) + c] == v {
            1int
        } else {
            0int
        })
    }
}

/// The luminance bucket of a pixel: its weighted luminance rounded to
/// the nearest integer (half up); always a legal byte value.
pub open spec fn lum_bucket(r: int, g: int, b: int) -> int {
    (2 * lum_num(r, g, b) + 10000) / 20000
}

/// How many of the first `n` pixels fall in luminance bucket `v`.
pub open spec fn count_lum(data: Seq<u8>, n: int, v: int) -> int
    decreases n,
{
    if n <= 0 {
        0
    } else {
        count_lum(data, n - 1, v) + (if lum_bucket(
            data[4 * (n - 1)] as int,
            data[4 * (n - 1) + 1] as int,
            data[4 * (n - 1) + 2] as int,
        ) == v {
            1int
        } else {
            0int
        })
    }
}

/// Counts never exceed the number of pixels counted.
proof fn lemma_count_ch_le(data: Seq<u8>, c: int, n: int, v: u8)
    requires
        n >= 0,
    ensures
        0 <= count_ch(data, c, n, v) <= n,
    decreases n,
{
    if n > 0 {
        lemma_count_ch_le(data, c, n - 1, v);
    }
}

/// Luminance-bucket counts never exceed the number of pixels counted.
proof fn lemma_count_lum_le(data: Seq<u8>, n: int, v: int)
    requires
        n >= 0,
    ensures
        0 <= count_lum(data, n, v) <= n,
    decreases n,
{
    if n > 0 {
        lemma_count_lum_le(data, n - 1, v);
    }
}

/// Per-channel and luminance frequency tables of an image: four
/// 256-entry count vectors.
pub struct HistogramData {
    /// Counts of each red value.
    pub red: Vec<u32>,
    /// Counts of each green value.
    pub green: Vec<u32>,
    /// Counts of each blue value.
    pub blue: Vec<u32>,
    /// Counts of each luminance bucket.
    pub luminance: Vec<u32>,
}

/// Copies a count table.
fn clone_counts(v: &Vec<u32>) -> (out: Vec<u32>)
    ensures
        out@ == v@,
{
    let mut out: Vec<u32> = Vec::new();
    let mut i: usize = 0;
    let n = v.len();
    while i < n
        invariant
            n == v@.len(),
            i <= n,
            out@ == v@.subrange(0, i as int),
        decreases n - i,
    {
        out.push(v[i]);
        proof {
            assert(out@ =~= v@.subrange(0, i + 1));
        }
        i += 1;
    }
    proof {
        assert(out@ =~= v@);
    }
    out
}

impl HistogramData {
    /// The red counts.
    pub fn red(&self) -> (r: Vec<u32>)
        ensures
            r@ == self.red@,
    {
        clone_counts(&self.red)
    }

    /// The green counts.
    pub fn green(&self) -> (r: Vec<u32>)
        ensures
            r@ == self.green@,
    {
        clone_counts(&self.green)
    }

    /// The blue counts.
    pub fn blue(&self) -> (r: Vec<u32>)
        ensures
            r@ == self.blue@,
    {
        clone_counts(&self.blue)
    }

    /// The luminance counts.
    pub fn luminance(&self) -> (r: Vec<u32>)
        ensures
            r@ == self.luminance@,
    {
        clone_counts(&self.luminance)
    }
}

/// Whether `hist` is the frequency table of channel `c` over the first
/// `n` pixels.
pub open spec fn is_channel_hist(hist: Seq<u32>, data: Seq<u8>, c: int, n: int) -> bool {
    hist.len() == 256 && forall|v: int|
        0 <= v < 256 ==> hist[v] == count_ch(data, c, n, v as u8)
}

/// Whether `hist` is the luminance-bucket table over the first `n`
/// pixels.
pub open spec fn is_lum_hist(hist: Seq<u32>, data: Seq<u8>, n: int) -> bool {
    hist.len() == 256 && forall|v: int| 0 <= v < 256 ==> hist[v] == count_lum(data, n, v)
}

/// Computes the four frequency tables of an image in a single pass:
/// counts of every red, green and blue byte, and of every luminance
/// bucket.
pub fn get_histogram(data: &[u8]) -> (out: HistogramData)
    requires
        data@.len() % 4 == 0,
        data@.len() / 4 <= u32::MAX,
    ensures
        is_channel_hist(out.red@, data@, 0, data@.len() as int / 4),
        is_channel_hist(out.green@, data@, 1, data@.len() as int / 4),
        is_channel_hist(out.blue@, data@, 2, data@.len() as int / 4),
        is_lum_hist(out.luminance@, data@, data@.len() as int / 4),
{
    let n = data.len();
    let n_px = n / 4;
    let mut red: Vec<u32> = vec![0u32; 256];
    let mut green: Vec<u32> = vec![0u32; 256];
    let mut blue: Vec<u32> = vec![0u32; 256];
    let mut lum: Vec<u32> = vec![0u32; 256];
    let mut p: usize = 0;
    while p < n_px
        invariant
            n == data@.len(),
            n % 4 == 0,
            n_px == n / 4,
            n_px <= u32::MAX,
            p <= n_px,
            is_channel_hist(red@, data@, 0, p as int),
            is_channel_hist(green@, data@, 1, p as int),
            is_channel_hist(blue@, data@, 2, p as int),
            is_lum_hist(lum@, data@, p as int),
        decreases n_px - p,
    {
        let i = 4 * p;
        proof {
            assert(4 * (p + 1) <= 4 * (n / 4) <= n) by (nonlinear_arith)
                requires p < n / 4 && n % 4 == 0;
        }
        let r = *slice_index_get(data, i);
        let g = *slice_index_get(data, i + 1);
        let b = *slice_index_get(data, i + 2);
        proof {
            lemma_count_ch_le(data@, 0, p as int, r);
            lemma_count_ch_le(data@, 1, p as int, g);
            lemma_count_ch_le(data@, 2, p as int, b);
        }
        let rv = red[r as usize];
        red.set(r as usize, rv + 1);
        let gv = green[g as usize];
        green.set(g as usize, gv + 1);
        let bv = blue[b as usize];
        blue.set(b as usize, bv + 1);
        let l = luminance(r, g, b);
        proof {
            lemma_div_below(2 * (l as int) + 10000, 20000, 256);
        }
        let bucket = ((2 * (l as u64) + 10000) / 20000) as usize;
        proof {
            lemma_count_lum_le(data@, p as int, bucket as int);
        }
        let lv = lum[bucket];
        lum.set(bucket, lv + 1);
        p += 1;
    }
    proof {
        assert(4 * (n / 4) == n) by (nonlinear_arith)
            requires n % 4 == 0 && n >= 0;
    }
    HistogramData { red, green, blue, luminance: lum }
}

/// Sum of the first `upto` entries of a count table.
pub open spec fn sum_counts(hist: Seq<u32>, upto: int) -> int
    decreases upto,
{
    if upto <= 0 {
        0
    } else {
        sum_counts(hist, upto - 1) + hist[upto - 1]
    }
}

/// Sum of `count_ch` over the values below `upto`.
spec fn sum_count_ch(data: Seq<u8>, c: int, n: int, upto: int) -> int
    decreases upto,
{
    if upto <= 0 {
        0
    } else {
        sum_count_ch(data, c, n, upto - 1) + count_ch(data, c, n, (upto - 1) as u8)
    }
}

/// Counting one more pixel raises exactly one bucket of the sum.
proof fn lemma_sum_count_ch_step(data: Seq<u8>, c: int, n: int, upto: int)
    requires
        n >= 0,
        0 <= upto <= 256,
    ensures
        sum_count_ch(data, c, n + 1, upto) == sum_count_ch(data, c, n, upto) + (if data[4 * n + c]
            < upto {
            1int
        } else {
            0int
        }),
    decreases upto,
{
    if upto > 0 {
        lemma_sum_count_ch_step(data, c, n, upto - 1);
    }
}

/// With no pixels counted, every bucket and hence every sum is zero.
proof fn lemma_sum_count_ch_zero(data: Seq<u8>, c: int, upto: int)
    requires
        upto >= 0,
    ensures
        sum_count_ch(data, c, 0, upto) == 0,
    decreases upto,
{
    if upto > 0 {
        lemma_sum_count_ch_zero(data, c, upto - 1);
    }
}

/// Summed over all 256 values, the counts of the first `n` pixels are
/// exactly `n`.
proof fn lemma_sum_count_ch_total(data: Seq<u8>, c: int, n: int)
    requires
        n >= 0,
    ensures
        sum_count_ch(data, c, n, 256) == n,
    decreases n,
{
    if n > 0 {
        lemma_sum_count_ch_total(data, c, n - 1);
        lemma_sum_count_ch_step(data, c, n - 1, 256);
    } else {
        lemma_sum_count_ch_zero(data, c, 256);
    }
}

/// A table whose entries are the counts sums to the counts' sum.
proof fn lemma_sum_counts_matches(hist: Seq<u32>, data: Seq<u8>, c: int, n: int, upto: int)
    requires
        is_channel_hist(hist, data, c, n),
        0 <= upto <= 256,
    ensures
        sum_counts(hist, upto) == sum_count_ch(data, c, n, upto),
    decreases upto,
{
    if upto > 0 {
        lemma_sum_counts_matches(hist, data, c, n, upto - 1);
    }
}

/// The color tables of a histogram each sum to the pixel count, so the
/// red, green and blue totals all agree with `width * height`.
pub proof fn lemma_histogram_sums(hist: Seq<u32>, data: Seq<u8>, c: int, n: int)
    requires
        n >= 0,
        is_channel_hist(hist, data, c, n),
    ensures
        sum_counts(hist, 256) == n,
{
    lemma_sum_counts_matches(hist, data, c, n, 256);
    lemma_sum_count_ch_total(data, c, n);
}

/// The pixels of a buffer, as a sequence of channel quadruples.
pub open spec fn pixel_seq(data: Seq<u8>, n: int) -> Seq<(u8, u8, u8, u8)> {
    Seq::new(n as nat, |i: int| (data[4 * i], data[4 * i + 1], data[4 * i + 2], data[4 * i + 3]))
}

/// Channel `c` of a pixel quadruple.
pub open spec fn px_ch(p: (u8, u8, u8, u8), c: int) -> u8 {
    if c == 0 {
        p.0
    } else if c == 1 {
        p.1
    } else if c == 2 {
        p.2
    } else {
        p.3
    }
}

/// How many pixels of `s` satisfy `f`.
pub open spec fn count_matching(s: Seq<(u8, u8, u8, u8)>, f: spec_fn((u8, u8, u8, u8)) -> bool)
    -> int
    decreases s.len(),
{
    if s.len() == 0 {
        0
    } else {
        count_matching(s.drop_last(), f) + (if f(s.last()) {
            1int
        } else {
            0int
        })
    }
}

/// Inserting an element into a multiset grows a filtered size by one
/// exactly when the element matches the filter.
proof fn lemma_filter_insert<V>(m: Multiset<V>, f: spec_fn(V) -> bool, x: V)
    ensures
        m.insert(x).filter(f).len() == m.filter(f).len() + (if f(x) {
            1int
        } else {
            0int
        }),
{
    broadcast use vstd::multiset::group_multiset_axioms;

    if f(x) {
        assert(m.insert(x).filter(f) =~= m.filter(f).insert(x));
    } else {
        assert(m.insert(x).filter(f) =~= m.filter(f));
    }
}

/// A matching count is the size of the filtered pixel multiset, so it
/// depends on the pixels alone, not on their order.
proof fn lemma_count_matching_multiset(
    s: Seq<(u8, u8, u8, u8)>,
    f: spec_fn((u8, u8, u8, u8)) -> bool,
)
    ensures
        count_matching(s, f) == s.to_multiset().filter(f).len(),
    decreases s.len(),
{
    broadcast use vstd::seq_lib::group_to_multiset_ensures;

    if s.len() == 0 {
        assert(s.to_multiset() =~= Multiset::<(u8, u8, u8, u8)>::empty());
        assert(s.to_multiset().filter(f) =~= Multiset::<(u8, u8, u8, u8)>::empty()) by {
            broadcast use vstd::multiset::group_multiset_axioms;

        }
    } else {
        let butlast = s.drop_last();
        lemma_count_matching_multiset(butlast, f);
        assert(butlast.push(s.last()) =~= s);
        assert(s.to_multiset() == butlast.to_multiset().insert(s.last()));
        lemma_filter_insert(butlast.to_multiset(), f, s.last());
    }
}

/// Matching counts agree on any two pixel sequences with the same
/// multiset.
proof fn lemma_count_matching_permutation(
    s1: Seq<(u8, u8, u8, u8)>,
    s2: Seq<(u8, u8, u8, u8)>,
    f: spec_fn((u8, u8, u8, u8)) -> bool,
)
    requires
        s1.to_multiset() == s2.to_multiset(),
    ensures
        count_matching(s1, f) == count_matching(s2, f),
{
    lemma_count_matching_multiset(s1, f);
    lemma_count_matching_multiset(s2, f);
}

/// A channel count over a buffer is a matching count over its pixel
/// sequence.
proof fn lemma_count_ch_as_matching(data: Seq<u8>, c: int, n: int, v: u8)
    requires
        0 <= c < 4,
        n >= 0,
    ensures
        count_ch(data, c, n, v) == count_matching(
            pixel_seq(data, n),
            |p: (u8, u8, u8, u8)| px_ch(p, c) == v,
        ),
    decreases n,
{
    if n > 0 {
        lemma_count_ch_as_matching(data, c, n - 1, v);
        assert(pixel_seq(data, n).drop_last() =~= pixel_seq(data, n - 1));
    }
}

/// A luminance-bucket count over a buffer is a matching count over its
/// pixel sequence.
proof fn lemma_count_lum_as_matching(data: Seq<u8>, n: int, v: int)
    requires
        n >= 0,
    ensures
        count_lum(data, n, v) == count_matching(
            pixel_seq(data, n),
            |p: (u8, u8, u8, u8)| lum_bucket(p.0 as int, p.1 as int, p.2 as int) == v,
        ),
    decreases n,
{
    if n > 0 {
        lemma_count_lum_as_matching(data, n - 1, v);
        assert(pixel_seq(data, n).drop_last() =~= pixel_seq(data, n - 1));
    }
}

/// The histogram is invariant under pixel permutation: any two buffers
/// whose pixel sequences hold the same multiset of pixels have the same
/// channel counts and the same luminance counts, whatever the scan
/// order was.
pub proof fn lemma_histogram_permutation(data1: Seq<u8>, n1: int, data2: Seq<u8>, n2: int)
    requires
        n1 >= 0,
        n2 >= 0,
        pixel_seq(data1, n1).to_multiset() == pixel_seq(data2, n2).to_multiset(),
    ensures
        forall|c: int, v: u8|
            0 <= c < 4 ==> count_ch(data1, c, n1, v) == count_ch(data2, c, n2, v),
        forall|v: int| count_lum(data1, n1, v) == count_lum(data2, n2, v),
{
    assert forall|c: int, v: u8|
        0 <= c < 4 implies count_ch(data1, c, n1, v) == count_ch(data2, c, n2, v) by {
        lemma_count_ch_as_matching(data1, c, n1, v);
        lemma_count_ch_as_matching(data2, c, n2, v);
        lemma_count_matching_permutation(
            pixel_seq(data1, n1),
            pixel_seq(data2, n2),
            |p: (u8, u8, u8, u8)| px_ch(p, c) == v,
        );
    }
    assert forall|v: int| count_lum(data1, n1, v) == count_lum(data2, n2, v) by {
        lemma_count_lum_as_matching(data1, n1, v);
        lemma_count_lum_as_matching(data2, n2, v);
        lemma_count_matching_permutation(
            pixel_seq(data1, n1),
            pixel_seq(data2, n2),
            |p: (u8, u8, u8, u8)| lum_bucket(p.0 as int, p.1 as int, p.2 as int) == v,
        );
    }
}

} // verus!
