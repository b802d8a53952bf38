//! In-place conversion between the two layouts of a two-channel buffer,
//! without a second buffer: blocks are exchanged by rotation and the halves
//! are then shuffled recursively, in O(n log n) time.
use vstd::prelude::*;
use crate::interleave::{deinterleaved, interleaved};

verus! {

/// `x` with the values in `[lo, hi)` in reverse order.
pub open spec fn reversed_range<T>(x: Seq<T>, lo: int, hi: int) -> Seq<T> {
    Seq::new(x.len(), |k: int| if lo <= k < hi { x[lo + hi - 1 - k] } else { x[k] })
}

/// `x` with the block `[first, n_first)` and the block `[n_first, last)`
/// exchanged.
pub open spec fn rotated<T>(x: Seq<T>, first: int, n_first: int, last: int) -> Seq<T> {
    Seq::new(
        x.len(),
        |k: int|
            if first <= k < first + (last - n_first) {
                x[k + (n_first - first)]
            } else if first + (last - n_first) <= k < last {
                x[k - (last - n_first)]
            } else {
                x[k]
            },
    )
}

/// `x` with its range `[lo, hi)`, of even length `2m`, in-shuffled: the
/// second half and the first half of the range alternate, the second half
/// first (`b0 a0 b1 a1 ...`).
pub open spec fn in_shuffled<T>(x: Seq<T>, lo: int, hi: int) -> Seq<T> {
    let m = (hi - lo) / 2;
    Seq::new(
        x.len(),
        |k: int|
            if lo <= k < hi {
                if (k - lo) % 2 == 0 {
                    x[lo + m + (k - lo) / 2]
                } else {
                    x[lo + (k - lo) / 2]
                }
            } else {
                x[k]
            },
    )
}

/// `x` with the in-shuffle of its range `[lo, hi)` undone: the values at odd
/// offsets of the range come first, then those at even offsets.
pub open spec fn in_unshuffled<T>(x: Seq<T>, lo: int, hi: int) -> Seq<T> {
    let m = (hi - lo) / 2;
    Seq::new(
        x.len(),
        |k: int|
            if lo <= k < lo + m {
                x[lo + 2 * (k - lo) + 1]
            } else if lo + m <= k < hi {
                x[lo + 2 * (k - lo - m)]
            } else {
                x[k]
            },
    )
}

fn reverse_range<T: Copy>(v: &mut Vec<T>, lo: usize, hi: usize)
    requires
        lo <= hi <= old(v)@.len(),
    ensures
        final(v)@ == reversed_range(old(v)@, lo as int, hi as int),
{
    let mut i = lo;
    let mut j = hi;
    while j - i > 1
        invariant
            lo <= i <= j <= hi <= v@.len(),
            v@.len() == old(v)@.len(),
            i - lo == hi - j,
            forall|k: int| 0 <= k < v@.len() && !(lo <= k < i) && !(j <= k < hi) ==> v@[k] == old(v)@[k],
            forall|k: int| (lo <= k < i || j <= k < hi) ==> v@[k] == old(v)@[lo + hi - 1 - k],
        decreases j - i,
    {
        let a = v[i];
        let b = v[j - 1];
        v.set(i, b);
        v.set(j - 1, a);
        i += 1;
        j -= 1;
    }
    assert(v@ =~= reversed_range(old(v)@, lo as int, hi as int));
}

/// Exchanges the blocks `[first, n_first)` and `[n_first, last)` of `slice`.
pub fn rotate<T: Copy>(slice: &mut Vec<T>, first: usize, n_first: usize, last: usize)
    requires
        first <= n_first <= last <= old(slice)@.len(),
    ensures
        final(slice)@ == rotated(old(slice)@, first as int, n_first as int, last as int),
{
    if first == n_first || n_first == last {
        assert(slice@ =~= rotated(old(slice)@, first as int, n_first as int, last as int));
        return;
    }
    reverse_range(slice, first, n_first);
    reverse_range(slice, n_first, last);
    reverse_range(slice, first, last);
    assert(slice@ =~= rotated(old(slice)@, first as int, n_first as int, last as int));
}

/// In-shuffles the range `[first, last)` of `slice`; a range of odd length
/// is left as it is.
pub fn inshuffle_permutation<T: Copy>(slice: &mut Vec<T>, first: usize, last: usize)
    requires
        first <= last <= old(slice)@.len(),
    ensures
        (last - first) % 2 == 0 ==> final(slice)@ == in_shuffled(old(slice)@, first as int, last as int),
        (last - first) % 2 != 0 ==> final(slice)@ == old(slice)@,
    decreases last - first,
{
    let size = last - first;
    if size == 0 || size % 2 != 0 {
        assert(size == 0 ==> slice@ =~= in_shuffled(old(slice)@, first as int, last as int));
        return;
    }
    let m = size / 2;
    if m == 1 {
        rotate(slice, first, first + 1, last);
        assert(slice@ =~= in_shuffled(old(slice)@, first as int, last as int));
        return;
    }
    let h = m / 2;
    let ghost x = slice@;
    rotate(slice, first + h, first + m, first + m + h);
    let ghost y = slice@;
    inshuffle_permutation(slice, first, first + 2 * h);
    let ghost z = slice@;
    inshuffle_permutation(slice, first + 2 * h, last);
    assert forall|k: int| 0 <= k < x.len() implies slice@[k] == #[trigger] in_shuffled(x, first as int, last as int)[k] by {
        if first + 2 * h <= k < last {
            assert(slice@[k] == in_shuffled(z, first + 2 * h, last as int)[k]);
        } else if first <= k < first + 2 * h {
            assert(slice@[k] == z[k]);
            assert(z[k] == in_shuffled(y, first as int, first + 2 * h)[k]);
        }
    }
    assert(slice@ =~= in_shuffled(x, first as int, last as int));
}

/// Undoes `inshuffle_permutation` on the range `[first, last)` of `slice`;
/// a range of odd length is left as it is.
pub fn inverse_inshuffle_permutation<T: Copy>(slice: &mut Vec<T>, first: usize, last: usize)
    requires
        first <= last <= old(slice)@.len(),
    ensures
        (last - first) % 2 == 0 ==> final(slice)@ == in_unshuffled(old(slice)@, first as int, last as int),
        (last - first) % 2 != 0 ==> final(slice)@ == old(slice)@,
    decreases last - first,
{
    let size = last - first;
    if size == 0 || size % 2 != 0 {
        assert(size == 0 ==> slice@ =~= in_unshuffled(old(slice)@, first as int, last as int));
        return;
    }
    let m = size / 2;
    if m == 1 {
        rotate(slice, first, first + 1, last);
        assert(slice@ =~= in_unshuffled(old(slice)@, first as int, last as int));
        return;
    }
    let h = m / 2;
    let ghost x = slice@;
    inverse_inshuffle_permutation(slice, first, first + 2 * h);
    let ghost y = slice@;
    inverse_inshuffle_permutation(slice, first + 2 * h, last);
    let ghost z = slice@;
    rotate(slice, first + h, first + 2 * h, first + m + h);
    assert forall|k: int| 0 <= k < x.len() implies slice@[k] == #[trigger] in_unshuffled(x, first as int, last as int)[k] by {
        if first <= k < last {
            let r = rotated(z, first + h, first + 2 * h, first + m + h);
            assert(slice@[k] == r[k]);
        }
    }
    assert(slice@ =~= in_unshuffled(x, first as int, last as int));
}

proof fn lemma_shuffle_is_interleave<T>(x: Seq<T>)
    requires
        x.len() >= 2,
        x.len() % 2 == 0,
    ensures
        in_shuffled(x, 1, x.len() - 1) == interleaved(x, 2),
{
    let n = (x.len() / 2) as int;
    assert forall|k: int| 0 <= k < x.len() implies #[trigger] in_shuffled(x, 1, x.len() - 1)[k]
        == interleaved(x, 2)[k] by {
        if k % 2 == 0 {
            assert((k % 2) * n == 0);
        } else {
            assert(k % 2 == 1);
            assert((k % 2) * n == n);
        }
    }
    assert(in_shuffled(x, 1, x.len() - 1) =~= interleaved(x, 2));
}

proof fn lemma_unshuffle_is_deinterleave<T>(x: Seq<T>)
    requires
        x.len() >= 2,
        x.len() % 2 == 0,
    ensures
        in_unshuffled(x, 1, x.len() - 1) == deinterleaved(x, 2),
{
    let n = (x.len() / 2) as int;
    assert forall|k: int| 0 <= k < x.len() implies #[trigger] in_unshuffled(x, 1, x.len() - 1)[k]
        == deinterleaved(x, 2)[k] by {
        if k < n {
            vstd::arithmetic::div_mod::lemma_fundamental_div_mod_converse(k, n, 0, k);
        } else {
            vstd::arithmetic::div_mod::lemma_fundamental_div_mod_converse(k, n, 1, k - n);
        }
    }
    assert(in_unshuffled(x, 1, x.len() - 1) =~= deinterleaved(x, 2));
}

/// In-place conversion of a two-channel buffer between the grouped layout
/// (`a0 a1 .. b0 b1 ..`) and the interleaved layout (`a0 b0 a1 b1 ..`).
pub trait SliceInterleave<T> {
    /// The buffer's values.
    spec fn values(&self) -> Seq<T>;

    /// Grouped to interleaved.
    fn interleave(&mut self)
        requires
            old(self).values().len() % 2 == 0,
        ensures
            final(self).values() == interleaved(old(self).values(), 2),
    ;

    /// Interleaved to grouped.
    fn deinterleave(&mut self)
        requires
            old(self).values().len() % 2 == 0,
        ensures
            final(self).values() == deinterleaved(old(self).values(), 2),
    ;
}

impl<T: Copy> SliceInterleave<T> for Vec<T> {
    open spec fn values(&self) -> Seq<T> {
        self@
    }

    fn interleave(&mut self) {
        let len = self.len();
        if len < 2 {
            assert(self@ =~= interleaved(old(self)@, 2));
            return;
        }
        inshuffle_permutation(self, 1, len - 1);
        proof {
            lemma_shuffle_is_interleave(old(self)@);
        }
    }

    fn deinterleave(&mut self) {
        let len = self.len();
        if len < 2 {
            assert(self@ =~= deinterleaved(old(self)@, 2));
            return;
        }
        inverse_inshuffle_permutation(self, 1, len - 1);
        proof {
            lemma_unshuffle_is_deinterleave(old(self)@);
        }
    }
}

} // verus!
