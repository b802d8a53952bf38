//! The mixing side of playback: keeps the ring topped up from a signal
//! generator. The caller pauses (see `refill_pause_micros`) once the ring is
//! full and tops it up again afterwards.
use vstd::prelude::*;
use crate::generator::{square_value, SquareWave};
use crate::ring::PlaybackRing;

verus! {

/// The samples that the wave yields from position `start` on, `n` of them,
/// scaled by `amplitude`.
pub open spec fn scaled_square(rate: nat, freq: nat, start: nat, n: nat, amplitude: int) -> Seq<i32> {
    Seq::new(n, |k: int| (amplitude * square_value(rate, freq, (start + k) as nat)) as i32)
}

/// Pushes the next samples of `wave`, scaled by `amplitude`, until the ring
/// is full; returns how many were pushed.
pub fn top_up(ring: &mut PlaybackRing, wave: &mut SquareWave, amplitude: i32) -> (n: usize)
    requires
        old(ring).wf(),
        old(wave).rate() > 0,
        old(wave).position() + old(ring).cap() < u64::MAX,
        amplitude > i32::MIN,
    ensures
        final(ring).wf(),
        final(ring).cap() == old(ring).cap(),
        n == old(ring).cap() - old(ring).items().len(),
        final(ring).items() == old(ring).items() + scaled_square(
            old(wave).rate(),
            old(wave).freq(),
            old(wave).position(),
            n as nat,
            amplitude as int,
        ),
        final(wave).rate() == old(wave).rate(),
        final(wave).freq() == old(wave).freq(),
        final(wave).position() == old(wave).position() + n,
{
    let ghost items0 = ring.items();
    let ghost start = wave.position();
    let mut n: usize = 0;
    proof {
        ring.lemma_bounded();
    }
    while !ring.is_full()
        invariant
            ring.wf(),
            ring.cap() == old(ring).cap(),
            items0 == old(ring).items(),
            start == old(wave).position(),
            wave.rate() == old(wave).rate(),
            wave.freq() == old(wave).freq(),
            wave.rate() > 0,
            start + ring.cap() < u64::MAX,
            amplitude > i32::MIN,
            wave.position() == start + n,
            ring.items().len() <= ring.cap(),
            ring.items().len() == items0.len() + n,
            ring.items() == items0 + scaled_square(wave.rate(), wave.freq(), start, n as nat, amplitude as int),
        decreases ring.cap() - ring.items().len(),
    {
        proof {
            ring.lemma_bounded();
        }
        let s = wave.next_sample();
        let v: i32 = if s > 0 { amplitude } else { -amplitude };
        let ghost sv = square_value(wave.rate(), wave.freq(), (start + n) as nat);
        assert(v == (amplitude * sv) as i32) by {
            assert(s == sv);
            if s == 1 {
                assert(amplitude * sv == amplitude);
            } else {
                assert(amplitude * sv == -amplitude);
            }
        }
        let _ = ring.push(v);
        proof {
            ring.lemma_bounded();
        }
        proof {
            assert(scaled_square(wave.rate(), wave.freq(), start, (n + 1) as nat, amplitude as int)
                =~= scaled_square(wave.rate(), wave.freq(), start, n as nat, amplitude as int).push(v));
        }
        n += 1;
    }
    n
}

} // verus!
