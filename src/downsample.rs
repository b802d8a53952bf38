//! Reduction of a long sample buffer to one bar per pixel column: each bar
//! keeps, separately for negative and for non-negative samples, the sum of
//! squares and the number of samples, from which the column's RMS follows
//! as `sqrt(sum / count)` (zero where the count is zero).
use vstd::prelude::*;
use vstd::arithmetic::div_mod::{lemma_fundamental_div_mod, lemma_fundamental_div_mod_converse};

verus! {

/// One column of a downsampled channel.
#[derive(Clone, Copy, Debug, PartialEq, Eq)]
pub struct Bar {
    /// Sum of the squares of the negative samples of the column.
    pub negative_sum_sq: u128,
    /// Number of negative samples in the column.
    pub negative_count: usize,
    /// Sum of the squares of the non-negative samples of the column.
    pub positive_sum_sq: u128,
    /// Number of non-negative samples in the column.
    pub positive_count: usize,
}

/// The column of sample `i` out of `n` on a width of `w` pixels:
/// `i / n * w` rounded to the nearest integer, halves upwards.
pub open spec fn column(i: int, n: int, w: int) -> int {
    (2 * i * w + n) / (2 * n)
}

/// Whether sample `i` of `s` lands in column `x` on the negative
/// (`negative`) or on the non-negative side.
pub open spec fn in_bucket(s: Seq<i32>, w: nat, x: int, negative: bool, i: int) -> bool {
    column(i, s.len() as int, w as int) == x && ((s[i] < 0) == negative)
}

/// Sum of squares over the first `upto` samples of `s` that fall in a bucket.
pub open spec fn bucket_sum_sq(s: Seq<i32>, w: nat, x: int, negative: bool, upto: int) -> int
    decreases upto,
{
    if upto <= 0 {
        0
    } else {
        bucket_sum_sq(s, w, x, negative, upto - 1) + if in_bucket(s, w, x, negative, upto - 1) {
            s[upto - 1] * s[upto - 1]
        } else {
            0
        }
    }
}

/// Number of the first `upto` samples of `s` that fall in a bucket.
pub open spec fn bucket_count(s: Seq<i32>, w: nat, x: int, negative: bool, upto: int) -> int
    decreases upto,
{
    if upto <= 0 {
        0
    } else {
        bucket_count(s, w, x, negative, upto - 1) + if in_bucket(s, w, x, negative, upto - 1) {
            1int
        } else {
            0
        }
    }
}

/// The bar of column `x` over the first `upto` samples of `s`.
pub open spec fn partial_bar(s: Seq<i32>, w: nat, x: int, upto: int) -> Bar {
    Bar {
        negative_sum_sq: bucket_sum_sq(s, w, x, true, upto) as u128,
        negative_count: bucket_count(s, w, x, true, upto) as usize,
        positive_sum_sq: bucket_sum_sq(s, w, x, false, upto) as u128,
        positive_count: bucket_count(s, w, x, false, upto) as usize,
    }
}

/// The bars of a channel on `w` pixels: none for an empty channel or a zero
/// width, else one for each column `0 ..= w`.
pub open spec fn bars(s: Seq<i32>, w: nat) -> Seq<Bar> {
    if s.len() == 0 || w == 0 {
        Seq::empty()
    } else {
        Seq::new(w + 1, |x: int| partial_bar(s, w, x, s.len() as int))
    }
}

proof fn lemma_bucket_bounds(s: Seq<i32>, w: nat, x: int, negative: bool, upto: int)
    requires
        0 <= upto <= s.len(),
    ensures
        0 <= bucket_count(s, w, x, negative, upto) <= upto,
        0 <= bucket_sum_sq(s, w, x, negative, upto) <= upto * 0x4000_0000_0000_0000,
    decreases upto,
{
    if upto > 0 {
        lemma_bucket_bounds(s, w, x, negative, upto - 1);
        let v = s[upto - 1] as int;
        assert(0 <= v * v <= 0x4000_0000_0000_0000) by (nonlinear_arith)
            requires -0x8000_0000 <= v < 0x8000_0000;
    }
}

/// Computes `column(i, n, w)` without overflow.
fn column_of(i: usize, n: usize, w: usize) -> (x: usize)
    requires
        i < n,
    ensures
        x == column(i as int, n as int, w as int),
        x <= w,
{
    proof {
        assert((i as int) * (w as int) < 0x1_0000_0000_0000_0000_0000_0000_0000_0000) by (nonlinear_arith)
            requires i < 0x1_0000_0000_0000_0000, w < 0x1_0000_0000_0000_0000;
    }
    let iw: u128 = (i as u128) * (w as u128);
    let q: u128 = iw / (n as u128);
    let r: u128 = iw % (n as u128);
    proof {
        lemma_fundamental_div_mod(iw as int, n as int);
        assert(q <= w) by (nonlinear_arith)
            requires iw == n * q + r, 0 <= r, iw == i * w, i < n, 0 < n;
        let num = 2 * i * w + n;
        if r >= n - r {
            assert(num == (2 * n) * (q + 1) + (2 * r - n)) by (nonlinear_arith)
                requires num == 2 * i * w + n, iw == i * w, iw == n * q + r;
            lemma_fundamental_div_mod_converse(num, 2 * n, (q + 1) as int, 2 * r - n);
            assert(q + 1 <= w) by (nonlinear_arith)
                requires iw == n * q + r, 2 * r >= n, iw == i * w, i + 1 <= n, 0 < n;
        } else {
            assert(num == (2 * n) * q + (2 * r + n)) by (nonlinear_arith)
                requires num == 2 * i * w + n, iw == i * w, iw == n * q + r;
            lemma_fundamental_div_mod_converse(num, 2 * n, q as int, 2 * r + n);
        }
    }
    if r >= (n as u128) - r {
        (q + 1) as usize
    } else {
        q as usize
    }
}

/// Downsamples the `len` samples of `samples` that start at `start`.
fn downsample_span(samples: &[i32], start: usize, len: usize, width: usize) -> (r: Vec<Bar>)
    requires
        start + len <= samples@.len(),
    ensures
        r@ == bars(samples@.subrange(start as int, start + len), width as nat),
{
    let ghost s = samples@.subrange(start as int, start + len);
    let total = samples.len();
    if len == 0 || width == 0 {
        return Vec::new();
    }
    let zero = Bar { negative_sum_sq: 0, negative_count: 0, positive_sum_sq: 0, positive_count: 0 };
    let mut out: Vec<Bar> = Vec::new();
    out.push(zero);
    let mut k: usize = 0;
    while k < width
        invariant
            k <= width,
            out@.len() == k + 1,
            forall|x: int| 0 <= x <= k ==> out@[x] == zero,
        decreases width - k,
    {
        out.push(zero);
        k += 1;
    }
    assert(out@.len() == width + 1);
    let mut i: usize = 0;
    while i < len
        invariant
            s == samples@.subrange(start as int, start + len),
            start + len <= total,
            total == samples@.len(),
            0 < len,
            0 < width,
            i <= len,
            out@.len() == width + 1,
            forall|x: int| 0 <= x <= width ==> out@[x] == #[trigger] partial_bar(s, width as nat, x, i as int),
        decreases len - i,
    {
        let x = column_of(i, len, width);
        let v = samples[start + i];
        assert(v == s[i as int]);
        proof {
            lemma_bucket_bounds(s, width as nat, x as int, true, i as int);
            lemma_bucket_bounds(s, width as nat, x as int, false, i as int);
            assert(0 <= (v as int) * (v as int) <= 0x4000_0000_0000_0000) by (nonlinear_arith)
                requires -0x8000_0000 <= v < 0x8000_0000;
            assert((i as int) * 0x4000_0000_0000_0000 + 0x4000_0000_0000_0000 < 0x1_0000_0000_0000_0000_0000_0000_0000_0000) by (nonlinear_arith)
                requires i < 0x1_0000_0000_0000_0000;
        }
        assert(out@[x as int] == partial_bar(s, width as nat, x as int, i as int));
        let b = out[x];
        let sq: u128 = ((v as i64) * (v as i64)) as u128;
        let nb = if v < 0 {
            Bar { negative_sum_sq: b.negative_sum_sq + sq, negative_count: b.negative_count + 1, ..b }
        } else {
            Bar { positive_sum_sq: b.positive_sum_sq + sq, positive_count: b.positive_count + 1, ..b }
        };
        out.set(x, nb);
        proof {
            assert forall|y: int| 0 <= y <= width implies out@[y] == #[trigger] partial_bar(s, width as nat, y, i + 1) by {
                if y != x {
                    assert(!in_bucket(s, width as nat, y, true, i as int));
                    assert(!in_bucket(s, width as nat, y, false, i as int));
                    assert(partial_bar(s, width as nat, y, i as int) == partial_bar(s, width as nat, y, i + 1));
                }
            }
        }
        i += 1;
    }
    proof {
        assert(out@ =~= bars(s, width as nat));
    }
    out
}

/// The bars of one channel on a width of `width` pixels.
pub fn downsample(samples: &[i32], width: usize) -> (r: Vec<Bar>)
    ensures
        r@ == bars(samples@, width as nat),
{
    let r = downsample_span(samples, 0, samples.len(), width);
    assert(samples@.subrange(0, samples@.len() as int) =~= samples@);
    r
}

/// Channel `c` of a grouped buffer of `channels` channels.
pub open spec fn channel_of(s: Seq<i32>, channels: nat, c: int) -> Seq<i32> {
    let n = (s.len() / channels) as int;
    s.subrange(c * n, (c + 1) * n)
}

/// The bars of every channel of a grouped buffer, each on `width` pixels.
pub fn downsample_channels(samples: &[i32], channels: usize, width: usize) -> (r: Vec<Vec<Bar>>)
    requires
        channels > 0,
        samples@.len() % (channels as nat) == 0,
    ensures
        r@.len() == channels,
        forall|c: int| 0 <= c < channels ==> #[trigger] r@[c]@ == bars(channel_of(samples@, channels as nat, c), width as nat),
{
    let total = samples.len();
    let per_channel = total / channels;
    let mut out: Vec<Vec<Bar>> = Vec::new();
    let mut c: usize = 0;
    while c < channels
        invariant
            total == samples@.len(),
            per_channel == total / channels,
            0 < channels,
            c <= channels,
            out@.len() == c,
            forall|d: int| 0 <= d < c ==> #[trigger] out@[d]@ == bars(channel_of(samples@, channels as nat, d), width as nat),
        decreases channels - c,
    {
        proof {
            assert((c + 1) * per_channel <= total) by (nonlinear_arith)
                requires c + 1 <= channels, per_channel == total / channels, 0 < channels;
            assert(c * per_channel + per_channel == (c + 1) * per_channel) by (nonlinear_arith);
        }
        let bars_c = downsample_span(samples, c * per_channel, per_channel, width);
        out.push(bars_c);
        c += 1;
    }
    out
}

proof fn lemma_silent_buckets(s: Seq<i32>, w: nat, x: int, negative: bool, upto: int)
    requires
        0 <= upto <= s.len(),
        forall|i: int| 0 <= i < s.len() ==> s[i] == 0,
    ensures
        bucket_sum_sq(s, w, x, negative, upto) == 0,
        negative ==> bucket_count(s, w, x, negative, upto) == 0,
    decreases upto,
{
    if upto > 0 {
        lemma_silent_buckets(s, w, x, negative, upto - 1);
        let v = s[upto - 1];
        assert(v == 0);
        assert((v as int) * (v as int) == 0);
    }
}

/// On a silent channel every bar has zero RMS on both sides: its sums of
/// squares are zero and no sample counts as negative. An empty channel gives
/// no bar at all.
pub proof fn lemma_silent_bars(s: Seq<i32>, w: nat)
    requires
        forall|i: int| 0 <= i < s.len() ==> s[i] == 0,
    ensures
        s.len() == 0 ==> bars(s, w).len() == 0,
        forall|x: int| 0 <= x < bars(s, w).len() ==> {
            &&& (#[trigger] bars(s, w)[x]).negative_sum_sq == 0
            &&& bars(s, w)[x].positive_sum_sq == 0
            &&& bars(s, w)[x].negative_count == 0
        },
{
    assert forall|x: int| 0 <= x < bars(s, w).len() implies {
        &&& (#[trigger] bars(s, w)[x]).negative_sum_sq == 0
        &&& bars(s, w)[x].positive_sum_sq == 0
        &&& bars(s, w)[x].negative_count == 0
    } by {
        lemma_silent_buckets(s, w, x, true, s.len() as int);
        lemma_silent_buckets(s, w, x, false, s.len() as int);
    }
}

} // verus!
