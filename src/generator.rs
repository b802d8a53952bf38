//! A square-wave generator on an exact time base: the time of sample `k` is
//! `k / sample_rate` seconds, counted in whole samples so that no phase
//! error accumulates however long the wave runs.
use vstd::prelude::*;

verus! {

/// The value of sample `k` of a square wave of `frequency` Hz sampled at
/// `sample_rate` Hz: with `t = k / sample_rate`, it is
/// `2 * (floor(2 f t) - 2 * floor(f t)) - 1`, that is `-1` in the first half
/// of each period (from `t = 0`) and `+1` in the second.
pub open spec fn square_value(sample_rate: nat, frequency: nat, k: nat) -> int {
    let ft_floor = (frequency * k) as int / (sample_rate as int);
    let two_ft_floor = (2 * frequency * k) as int / (sample_rate as int);
    2 * (two_ft_floor - 2 * ft_floor) - 1
}

/// An endless square wave, restarted at `t = 0` by each call of `square`.
pub struct SquareWave {
    sample_rate: u32,
    frequency: u32,
    index: u64,
}

impl SquareWave {
    /// The sample rate in Hz.
    pub closed spec fn rate(&self) -> nat {
        self.sample_rate as nat
    }

    /// The frequency in Hz.
    pub closed spec fn freq(&self) -> nat {
        self.frequency as nat
    }

    /// The number of samples produced so far.
    pub closed spec fn position(&self) -> nat {
        self.index as nat
    }

    /// Produces the next sample.
    pub fn next_sample(&mut self) -> (r: i32)
        requires
            old(self).rate() > 0,
            old(self).position() < u64::MAX,
        ensures
            r == square_value(old(self).rate(), old(self).freq(), old(self).position()),
            r == 1 || r == -1,
            final(self).rate() == old(self).rate(),
            final(self).freq() == old(self).freq(),
            final(self).position() == old(self).position() + 1,
    {
        let k = self.index as u128;
        let f = self.frequency as u128;
        let sr = self.sample_rate as u128;
        proof {
            assert(f * k < 0x1_0000_0000 * 0x1_0000_0000_0000_0000) by (nonlinear_arith)
                requires f < 0x1_0000_0000, k < 0x1_0000_0000_0000_0000;
            assert(2 * f * k == 2 * (f * k)) by (nonlinear_arith);
        }
        let fk = f * k;
        let ft_floor = fk / sr;
        let two_ft_floor = (2 * fk) / sr;
        proof {
            vstd::arithmetic::div_mod::lemma_fundamental_div_mod(fk as int, sr as int);
            vstd::arithmetic::div_mod::lemma_fundamental_div_mod((2 * fk) as int, sr as int);
            let q = fk as int / sr as int;
            let r = fk as int % sr as int;
            assert(2 * fk == (2 * q) * sr + 2 * r && 2 * fk == (2 * q + 1) * sr + (2 * r - sr)) by (nonlinear_arith)
                requires fk == sr * q + r;
            if 2 * r < sr {
                vstd::arithmetic::div_mod::lemma_fundamental_div_mod_converse((2 * fk) as int, sr as int, 2 * q, 2 * r);
            } else {
                vstd::arithmetic::div_mod::lemma_fundamental_div_mod_converse((2 * fk) as int, sr as int, 2 * q + 1, 2 * r - sr);
            }
        }
        self.index = self.index + 1;
        if two_ft_floor == 2 * ft_floor {
            -1
        } else {
            1
        }
    }
}

/// A square wave of `frequency` Hz sampled at `sample_rate` Hz, starting at
/// `t = 0`.
pub fn square(sample_rate: u32, frequency: u32) -> (r: SquareWave)
    ensures
        r.rate() == sample_rate,
        r.freq() == frequency,
        r.position() == 0,
{
    SquareWave { sample_rate, frequency, index: 0 }
}

} // verus!
