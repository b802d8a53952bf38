//! Conversion between the interleaved (frame-major) and the grouped
//! (channel-major) layout of a flat sample buffer.
use vstd::prelude::*;
use vstd::arithmetic::div_mod::{lemma_fundamental_div_mod, lemma_fundamental_div_mod_converse};

verus! {

/// Number of frames in a buffer of `len` values with `stride` channels.
pub open spec fn frames(len: nat, stride: nat) -> nat {
    len / stride
}

/// The interleaved layout of a grouped buffer: value `j` of channel `c`
/// (found at `c * frames + j`) moves to `j * stride + c`.
pub open spec fn interleaved<T>(x: Seq<T>, stride: nat) -> Seq<T> {
    let n = frames(x.len(), stride);
    Seq::new(x.len(), |k: int| x[(k % stride as int) * n + k / stride as int])
}

/// The grouped layout of an interleaved buffer: the value at `j * stride + c`
/// moves to `c * frames + j`.
pub open spec fn deinterleaved<T>(x: Seq<T>, stride: nat) -> Seq<T> {
    let n = frames(x.len(), stride);
    Seq::new(x.len(), |k: int| x[(k % n as int) * stride + k / n as int])
}

/// Position arithmetic shared by both layouts: for `k < s * n`, writing
/// `k = q * s + r` gives a second position `r * n + q` inside the buffer.
proof fn lemma_index_swap(k: int, s: int, n: int)
    requires
        0 < s,
        0 < n,
        0 <= k < s * n,
    ensures
        0 <= k / s < n,
        0 <= k % s < s,
        0 <= (k % s) * n + k / s < s * n,
        ((k % s) * n + k / s) / n == k % s,
        ((k % s) * n + k / s) % n == k / s,
{
    lemma_fundamental_div_mod(k, s);
    let q = k / s;
    let r = k % s;
    assert(q < n) by (nonlinear_arith)
        requires k == s * q + r, 0 <= r < s, k < s * n, 0 < s;
    assert(0 <= q) by (nonlinear_arith)
        requires k == s * q + r, 0 <= r < s, 0 <= k, 0 < s;
    assert(0 <= r * n + q < s * n) by (nonlinear_arith)
        requires 0 <= r < s, 0 <= q < n, 0 < n;
    lemma_fundamental_div_mod_converse(r * n + q, n, r, q);
}

/// Builds the interleaved layout of `slice`, a grouped buffer of `stride`
/// channels, in a new buffer.
pub fn interleave<T: Copy>(slice: &[T], stride: usize) -> (r: Vec<T>)
    requires
        stride > 0,
        slice@.len() % (stride as nat) == 0,
    ensures
        r@ == interleaved(slice@, stride as nat),
{
    let total = slice.len();
    let stride_len = total / stride;
    proof {
        lemma_fundamental_div_mod(total as int, stride as int);
    }
    let mut out: Vec<T> = Vec::with_capacity(total);
    let mut i: usize = 0;
    while i < stride_len
        invariant
            total == slice@.len(),
            stride_len == frames(total as nat, stride as nat),
            total == stride * stride_len,
            0 < stride,
            i <= stride_len,
            out@.len() == i * stride,
            forall|k: int| 0 <= k < out@.len() ==> out@[k] == interleaved(slice@, stride as nat)[k],
        decreases stride_len - i,
    {
        let mut j: usize = 0;
        while j < stride
            invariant
                total == slice@.len(),
                stride_len == frames(total as nat, stride as nat),
                total == stride * stride_len,
                0 < stride,
                i < stride_len,
                j <= stride,
                out@.len() == i * stride + j,
                forall|k: int| 0 <= k < out@.len() ==> out@[k] == interleaved(slice@, stride as nat)[k],
            decreases stride - j,
        {
            let ghost k = i * stride + j;
            proof {
                assert(0 <= k < stride * stride_len) by (nonlinear_arith)
                    requires k == i * stride + j, 0 <= j < stride, 0 <= i < stride_len;
                lemma_fundamental_div_mod_converse(k, stride as int, i as int, j as int);
                lemma_index_swap(k, stride as int, stride_len as int);
                assert(j * stride_len + i < total) by (nonlinear_arith)
                    requires k % (stride as int) == j, k / (stride as int) == i,
                        (k % (stride as int)) * stride_len + k / (stride as int) < stride * stride_len,
                        total == stride * stride_len;
            }
            out.push(slice[i + j * stride_len]);
            proof {
                assert(i * stride + j + 1 == out@.len());
            }
            j += 1;
        }
        proof {
            assert(out@.len() == (i + 1) * stride) by (nonlinear_arith)
                requires out@.len() == i * stride + stride;
        }
        i += 1;
    }
    proof {
        assert(out@.len() == total) by (nonlinear_arith)
            requires out@.len() == i * stride, i == stride_len, total == stride * stride_len;
        assert(out@ =~= interleaved(slice@, stride as nat));
    }
    out
}

/// Builds the grouped layout of `slice`, an interleaved buffer of `stride`
/// channels, in a new buffer.
pub fn deinterleave<T: Copy>(slice: &[T], stride: usize) -> (r: Vec<T>)
    requires
        stride > 0,
        slice@.len() % (stride as nat) == 0,
    ensures
        r@ == deinterleaved(slice@, stride as nat),
{
    let total = slice.len();
    let stride_len = total / stride;
    proof {
        lemma_fundamental_div_mod(total as int, stride as int);
    }
    let mut out: Vec<T> = Vec::with_capacity(total);
    let mut i: usize = 0;
    while i < stride
        invariant
            total == slice@.len(),
            stride_len == frames(total as nat, stride as nat),
            total == stride * stride_len,
            0 < stride,
            i <= stride,
            out@.len() == i * stride_len,
            forall|k: int| 0 <= k < out@.len() ==> out@[k] == deinterleaved(slice@, stride as nat)[k],
        decreases stride - i,
    {
        let mut j: usize = 0;
        while j < stride_len
            invariant
                total == slice@.len(),
                stride_len == frames(total as nat, stride as nat),
                total == stride * stride_len,
                0 < stride,
                i < stride,
                j <= stride_len,
                out@.len() == i * stride_len + j,
                forall|k: int| 0 <= k < out@.len() ==> out@[k] == deinterleaved(slice@, stride as nat)[k],
            decreases stride_len - j,
        {
            let ghost k = i * stride_len + j;
            proof {
                assert(0 <= k < stride * stride_len) by (nonlinear_arith)
                    requires k == i * stride_len + j, 0 <= j < stride_len, 0 <= i < stride;
                lemma_fundamental_div_mod_converse(k, stride_len as int, i as int, j as int);
                assert(0 <= j * stride + i < total && stride * j == j * stride) by (nonlinear_arith)
                    requires 0 <= j < stride_len, 0 <= i < stride, total == stride * stride_len;
            }
            out.push(slice[i + stride * j]);
            proof {
                assert(i * stride_len + j + 1 == out@.len());
            }
            j += 1;
        }
        proof {
            assert(out@.len() == (i + 1) * stride_len) by (nonlinear_arith)
                requires out@.len() == i * stride_len + stride_len;
        }
        i += 1;
    }
    proof {
        assert(out@.len() == total) by (nonlinear_arith)
            requires out@.len() == i * stride_len, i == stride, total == stride * stride_len;
        assert(out@ =~= deinterleaved(slice@, stride as nat));
    }
    out
}

/// Grouping the interleaved layout of a grouped buffer gives the buffer back.
pub proof fn lemma_deinterleave_interleave<T>(x: Seq<T>, stride: nat)
    requires
        stride > 0,
        x.len() % stride == 0,
    ensures
        deinterleaved(interleaved(x, stride), stride) == x,
{
    let n = frames(x.len(), stride);
    let y = interleaved(x, stride);
    let z = deinterleaved(y, stride);
    assert forall|k: int| 0 <= k < x.len() implies z[k] == x[k] by {
        lemma_fundamental_div_mod(x.len() as int, stride as int);
        assert(n > 0) by (nonlinear_arith)
            requires x.len() == stride * n + 0, 0 <= k < x.len();
        lemma_index_swap(k, n as int, stride as int);
        let m = (k % n as int) * stride + k / n as int;
        lemma_index_swap(m, stride as int, n as int);
        lemma_fundamental_div_mod(k, n as int);
    }
    assert(z =~= x);
}

/// Interleaving the grouped layout of an interleaved buffer gives the buffer
/// back.
pub proof fn lemma_interleave_deinterleave<T>(x: Seq<T>, stride: nat)
    requires
        stride > 0,
        x.len() % stride == 0,
    ensures
        interleaved(deinterleaved(x, stride), stride) == x,
{
    let n = frames(x.len(), stride);
    let y = deinterleaved(x, stride);
    let z = interleaved(y, stride);
    assert forall|k: int| 0 <= k < x.len() implies z[k] == x[k] by {
        lemma_fundamental_div_mod(x.len() as int, stride as int);
        assert(n > 0) by (nonlinear_arith)
            requires x.len() == stride * n + 0, 0 <= k < x.len();
        lemma_index_swap(k, stride as int, n as int);
        let m = (k % stride as int) * n + k / stride as int;
        lemma_index_swap(m, n as int, stride as int);
        lemma_fundamental_div_mod(k, stride as int);
    }
    assert(z =~= x);
}

/// In the grouped layout of an interleaved buffer, channel `c` is the run
/// `[c * frames, (c + 1) * frames)` and its value `j` is the value of frame
/// `j` at offset `c`.
pub proof fn lemma_channel_run<T>(x: Seq<T>, stride: nat, c: int, j: int)
    requires
        stride > 0,
        x.len() % stride == 0,
        0 <= c < stride,
        0 <= j < frames(x.len(), stride),
    ensures
        0 <= c * frames(x.len(), stride) + j < x.len(),
        0 <= j * stride + c < x.len(),
        deinterleaved(x, stride)[c * frames(x.len(), stride) + j] == x[j * stride + c],
{
    let n = frames(x.len(), stride) as int;
    let s = stride as int;
    lemma_fundamental_div_mod(x.len() as int, s);
    assert(0 <= c * n + j < x.len() && 0 <= j * s + c < x.len()) by (nonlinear_arith)
        requires 0 <= c < s, 0 <= j < n, x.len() == s * n + 0;
    lemma_fundamental_div_mod_converse(c * n + j, n, c, j);
}

/// Every value of the grouped layout is a value of the interleaved buffer:
/// position `k` holds the value at `(k % frames) * stride + k / frames`.
pub proof fn lemma_deinterleaved_source<T>(x: Seq<T>, stride: nat, k: int)
    requires
        stride > 0,
        x.len() % stride == 0,
        0 <= k < x.len(),
    ensures
        ({
            let n = frames(x.len(), stride) as int;
            &&& 0 <= (k % n) * stride + k / n < x.len()
            &&& deinterleaved(x, stride)[k] == x[(k % n) * stride + k / n]
        }),
{
    let n = frames(x.len(), stride) as int;
    lemma_fundamental_div_mod(x.len() as int, stride as int);
    assert(n > 0) by (nonlinear_arith)
        requires x.len() == stride * n + 0, 0 <= k < x.len();
    assert(k < n * stride) by (nonlinear_arith)
        requires x.len() == stride * n, k < x.len();
    lemma_index_swap(k, n, stride as int);
    assert(n * stride == x.len()) by (nonlinear_arith)
        requires x.len() == stride * n;
}

} // verus!
