//! Bringing a capture stream down to the rate that the analysis is tuned for:
//! the integer factor of the decimation, and which frames survive it.

use crate::capture::AudioError;
use crate::text;
use crate::text::decimal_text;
use vstd::prelude::*;
use vstd::string::*;

verus! {

/// The rate, in hertz, that the analysis is tuned for.
pub const CANONICAL_ANALYSIS_HZ: u32 = 48000;

/// The lowest capture rate, in hertz, that is analysed.
pub const MIN_NATIVE_HZ: u32 = 4000;

/// The highest capture rate, in hertz, that is analysed.
pub const MAX_NATIVE_HZ: u32 = 768000;

/// How far a stream of `native_rate` stays from the canonical rate when it is
/// divided by `factor`, times the factor.
pub open spec fn miss(native_rate: int, factor: int) -> int {
    let d = native_rate - CANONICAL_ANALYSIS_HZ * factor;
    if d < 0 {
        -d
    } else {
        d
    }
}

/// Division by `f` brings the rate closer to the canonical rate than division by
/// `g` does.
pub open spec fn is_closer(native_rate: int, f: int, g: int) -> bool {
    miss(native_rate, f) * g < miss(native_rate, g) * f
}

/// `f` is the factor that brings the rate closest to the canonical rate, the
/// smaller one of two.
pub open spec fn is_nearest_factor(native_rate: int, f: int) -> bool {
    &&& f >= 1
    &&& forall|g: int| g >= 1 ==> !#[trigger] is_closer(native_rate, g, f)
    &&& forall|g: int| 1 <= g < f ==> #[trigger] is_closer(native_rate, f, g)
}

/// No larger factor than `f` is closer.
spec fn is_large_enough(r: int, f: int) -> bool {
    r * (2 * f + 1) <= 96000 * (f * (f + 1))
}

/// Every smaller factor than `f` is farther.
spec fn is_small_enough(r: int, f: int) -> bool {
    f == 1 || r * (2 * f - 1) > 96000 * (f * (f - 1))
}

proof fn lemma_larger_is_not_closer(r: int, f: int, g: int)
    requires
        0 <= r,
        1 <= f < g,
        is_large_enough(r, f),
    ensures
        !is_closer(r, g, f),
{
    if r <= 48000 * f {
        assert((48000 * f - r) * g <= (48000 * g - r) * f) by (nonlinear_arith)
            requires
                0 <= r,
                1 <= f < g,
        ;
    } else {
        assert(r * (f + g) <= 96000 * (f * g)) by (nonlinear_arith)
            requires
                0 <= r,
                1 <= f < g,
                r * (2 * f + 1) <= 96000 * (f * (f + 1)),
        {
            assert(r * (2 * f + 1) * (f + g) <= 96000 * (f * (f + 1)) * (f + g));
            assert((f + 1) * (f + g) <= g * (2 * f + 1));
            assert(96000 * (f * (f + 1)) * (f + g) == 96000 * f * ((f + 1) * (f + g)));
            assert(96000 * f * ((f + 1) * (f + g)) <= 96000 * f * (g * (2 * f + 1)));
            assert(r * (2 * f + 1) * (f + g) == r * (f + g) * (2 * f + 1));
            assert(96000 * f * (g * (2 * f + 1)) == 96000 * (f * g) * (2 * f + 1));
        }
        assert((r - 48000 * f) * g <= (48000 * g - r) * f) by (nonlinear_arith)
            requires
                r * (f + g) <= 96000 * (f * g),
        ;
        assert((48000 * g - r) * f <= miss(r, g) * f) by (nonlinear_arith)
            requires
                1 <= f,
                48000 * g - r <= miss(r, g),
        ;
    }
}

proof fn lemma_smaller_is_farther(r: int, f: int, g: int)
    requires
        0 <= r,
        1 <= g < f,
        is_small_enough(r, f),
    ensures
        is_closer(r, f, g),
{
    assert(r > 0) by (nonlinear_arith)
        requires
            r * (2 * f - 1) > 96000 * (f * (f - 1)),
            0 <= r,
            2 <= f,
    ;
    if r >= 48000 * f {
        assert((r - 48000 * f) * g < (r - 48000 * g) * f) by (nonlinear_arith)
            requires
                0 < r,
                1 <= g < f,
        ;
    } else {
        assert(r * (f + g) > 96000 * (f * g)) by (nonlinear_arith)
            requires
                0 < r,
                1 <= g < f,
                r * (2 * f - 1) > 96000 * (f * (f - 1)),
        {
            assert(r * (2 * f - 1) * (f + g) > 96000 * (f * (f - 1)) * (f + g));
            assert((f - 1) * (f + g) >= g * (2 * f - 1));
            assert(96000 * (f * (f - 1)) * (f + g) == 96000 * f * ((f - 1) * (f + g)));
            assert(96000 * f * ((f - 1) * (f + g)) >= 96000 * f * (g * (2 * f - 1)));
            assert(r * (2 * f - 1) * (f + g) == r * (f + g) * (2 * f - 1));
            assert(96000 * f * (g * (2 * f - 1)) == 96000 * (f * g) * (2 * f - 1));
        }
        assert((48000 * f - r) * g < (r - 48000 * g) * f) by (nonlinear_arith)
            requires
                r * (f + g) > 96000 * (f * g),
        ;
        assert((r - 48000 * g) * f <= miss(r, g) * f) by (nonlinear_arith)
            requires
                1 <= f,
                r - 48000 * g <= miss(r, g),
        ;
    }
}

/// A factor that is neither too small nor too large is the nearest one.
proof fn lemma_nearest(r: int, f: int)
    requires
        0 <= r,
        1 <= f,
        is_large_enough(r, f),
        is_small_enough(r, f),
    ensures
        is_nearest_factor(r, f),
{
    assert forall|g: int| g >= 1 implies !#[trigger] is_closer(r, g, f) by {
        if g > f {
            lemma_larger_is_not_closer(r, f, g);
        } else if g < f {
            lemma_smaller_is_farther(r, f, g);
        }
    }
    assert forall|g: int| 1 <= g < f implies #[trigger] is_closer(r, f, g) by {
        lemma_smaller_is_farther(r, f, g);
    }
}

/// The factor that brings a capture rate closest to the canonical rate.
pub fn decimation_factor(native_rate: u32) -> (factor: usize)
    ensures
        is_nearest_factor(native_rate as int, factor as int),
{
    let r: u64 = native_rate as u64;
    let below: u64 = r / CANONICAL_ANALYSIS_HZ as u64;
    assert(48000 * below <= r < 48000 * (below + 1)) by (nonlinear_arith)
        requires
            below == r / 48000,
    ;
    if below == 0 {
        proof {
            assert(r * (2 * 1 + 1) <= 96000 * (1int * (1 + 1))) by (nonlinear_arith)
                requires
                    r < 48000,
            ;
            lemma_nearest(r as int, 1);
        }
        return 1;
    }
    proof {
        assert(r * (2 * below + 1) <= 0xffff_ffff * 180000) by (nonlinear_arith)
            requires
                r <= 0xffff_ffff,
                below <= 89479,
        ;
        assert(below * (below + 1) <= 89479 * 89480) by (nonlinear_arith)
            requires
                below <= 89479,
        ;
    }
    if r * (2 * below + 1) <= 2 * CANONICAL_ANALYSIS_HZ as u64 * (below * (below + 1)) {
        proof {
            assert(r * (2 * below - 1) > 96000 * (below * (below - 1))) by (nonlinear_arith)
                requires
                    below >= 1,
                    r >= 48000 * below,
            ;
            lemma_nearest(r as int, below as int);
        }
        below as usize
    } else {
        proof {
            let f = below + 1;
            assert(r * (2 * f + 1) <= 96000 * (f * (f + 1))) by (nonlinear_arith)
                requires
                    r <= 48000 * f,
                    f >= 1,
            ;
            assert(r * (2 * f - 1) > 96000 * (f * (f - 1))) by (nonlinear_arith)
                requires
                    f == below + 1,
                    r * (2 * below + 1) > 96000 * (below * (below + 1)),
            ;
            lemma_nearest(r as int, f);
        }
        (below + 1) as usize
    }
}

/// Refuses a capture rate outside the supported range.
pub fn validate_native_rate(rate: u32) -> (out: Result<(), AudioError>)
    ensures
        if MIN_NATIVE_HZ <= rate <= MAX_NATIVE_HZ {
            out is Ok
        } else {
            out matches Err(AudioError::Config(m)) && m@ == "unsupported audio sample rate "@
                + text::decimal(rate as nat) + " Hz (expected "@ + text::decimal(
                MIN_NATIVE_HZ as nat,
            ) + "..="@ + text::decimal(MAX_NATIVE_HZ as nat) + ")"@
        },
        out is Ok <==> 4000 <= rate <= 768000,
{
    if rate < MIN_NATIVE_HZ || rate > MAX_NATIVE_HZ {
        let mut m = "unsupported audio sample rate ".to_owned();
        m.append(decimal_text(rate as u128).as_str());
        m.append(" Hz (expected ");
        m.append(decimal_text(MIN_NATIVE_HZ as u128).as_str());
        m.append("..=");
        m.append(decimal_text(MAX_NATIVE_HZ as u128).as_str());
        m.append(")");
        return Err(AudioError::Config(m));
    }
    Ok(())
}

/// The supported rate nearest to `rate`.
pub fn clamp_native_rate(rate: u32) -> (out: u32)
    ensures
        out == (if rate < MIN_NATIVE_HZ {
            MIN_NATIVE_HZ
        } else if rate > MAX_NATIVE_HZ {
            MAX_NATIVE_HZ
        } else {
            rate
        }),
        4000 <= out <= 768000,
        4000 <= rate <= 768000 ==> out == rate,
        rate < 4000 ==> out == 4000,
        rate > 768000 ==> out == 768000,
{
    if rate < MIN_NATIVE_HZ {
        MIN_NATIVE_HZ
    } else if rate > MAX_NATIVE_HZ {
        MAX_NATIVE_HZ
    } else {
        rate
    }
}

/// Keeps one of every so many frames.
pub struct FrameDecimator {
    factor: usize,
    phase: usize,
}

impl FrameDecimator {
    /// How many frames come in for one that goes out.
    pub closed spec fn spec_factor(&self) -> nat {
        self.factor as nat
    }

    /// How many frames came in since the last one went out.
    pub closed spec fn spec_phase(&self) -> nat {
        self.phase as nat
    }

    /// The factor is positive, and a whole one has not come in yet.
    pub open spec fn wf(&self) -> bool {
        self.spec_phase() < self.spec_factor()
    }

    /// A decimator for a stream of the given capture rate.
    pub fn new(native_rate: u32) -> (out: Self)
        ensures
            out.wf(),
            is_nearest_factor(native_rate as int, out.spec_factor() as int),
            out.spec_phase() == 0,
    {
        FrameDecimator { factor: decimation_factor(native_rate), phase: 0 }
    }

    /// How many frames come in for one that goes out.
    pub fn factor(&self) -> (n: usize)
        ensures
            n == self.spec_factor(),
    {
        self.factor
    }

    /// Takes one frame and its filtered form. A stream that is not decimated
    /// passes untouched; of any other, the last of every so many frames goes
    /// out in its filtered form.
    pub fn push<T>(&mut self, frame: T, filtered: T) -> (out: Option<T>)
        requires
            old(self).wf(),
        ensures
            final(self).wf(),
            final(self).spec_factor() == old(self).spec_factor(),
            final(self).spec_phase() == (old(self).spec_phase() + 1) % old(self).spec_factor(),
            out == (if old(self).spec_factor() == 1 {
                Some(frame)
            } else if old(self).spec_phase() + 1 == old(self).spec_factor() {
                Some(filtered)
            } else {
                None
            }),
            out is Some <==> final(self).spec_phase() == 0,
            out is None ==> final(self).spec_phase() == old(self).spec_phase() + 1,
            old(self).spec_factor() == 1 ==> out == Some(frame),
            old(self).spec_factor() > 1 && out is Some ==> out == Some(filtered) && old(
                self,
            ).spec_phase() + 1 == old(self).spec_factor(),
    {
        if self.factor <= 1 {
            return Some(frame);
        }
        self.phase += 1;
        if self.phase >= self.factor {
            proof {
                vstd::arithmetic::div_mod::lemma_mod_self_0(self.factor as int);
            }
            self.phase = 0;
            Some(filtered)
        } else {
            proof {
                vstd::arithmetic::div_mod::lemma_small_mod(
                    self.phase as nat,
                    self.factor as nat,
                );
            }
            None
        }
    }
}

// ---------------------------------------------------------------------------
// Laws
// ---------------------------------------------------------------------------
/// There is one nearest factor and no other.
pub proof fn law_nearest_factor_is_unique(native_rate: int, f: int, g: int)
    requires
        is_nearest_factor(native_rate, f),
        is_nearest_factor(native_rate, g),
    ensures
        f == g,
{
    if f < g {
        assert(is_closer(native_rate, g, f));
    } else if g < f {
        assert(is_closer(native_rate, f, g));
    }
}

/// The common rates of the 44.1 and 48 kHz families come down to 44.1 or 48 kHz.
pub proof fn law_rate_families(k: int, f: int)
    requires
        1 <= k,
    ensures
        is_nearest_factor(CANONICAL_ANALYSIS_HZ * k, f) ==> f == k,
        k <= 6 && is_nearest_factor(44100 * k, f) ==> f == k,
{
    assert(48000 * k * (2 * k + 1) <= 96000 * (k * (k + 1))) by (nonlinear_arith)
        requires
            1 <= k,
    ;
    assert(48000 * k * (2 * k - 1) > 96000 * (k * (k - 1))) by (nonlinear_arith)
        requires
            1 <= k,
    ;
    lemma_nearest(48000 * k, k);
    if is_nearest_factor(48000 * k, f) {
        law_nearest_factor_is_unique(48000 * k, f, k);
    }
    if k <= 6 {
        assert(44100 * k * (2 * k + 1) <= 96000 * (k * (k + 1))) by (nonlinear_arith)
            requires
                1 <= k,
        ;
        assert(44100 * k * (2 * k - 1) > 96000 * (k * (k - 1))) by (nonlinear_arith)
            requires
                1 <= k <= 6,
        ;
        lemma_nearest(44100 * k, k);
        if is_nearest_factor(44100 * k, f) {
            law_nearest_factor_is_unique(44100 * k, f, k);
        }
    }
}

/// Every stream of at least 32 kHz comes out between 32 and 64 kHz, and a slower
/// one as it is.
pub proof fn law_decimated_rate_is_near_canonical(native_rate: int, f: int)
    requires
        0 <= native_rate,
        is_nearest_factor(native_rate, f),
    ensures
        native_rate <= 64000 * f,
        native_rate >= 32000 ==> native_rate >= 32000 * f,
        native_rate < 32000 ==> f == 1,
{
    let r = native_rate;
    assert(!is_closer(r, f + 1, f));
    if r > 64000 * f {
        assert(miss(r, f + 1) * f < miss(r, f) * (f + 1)) by (nonlinear_arith)
            requires
                1 <= f,
                r > 64000 * f,
                miss(r, f) == r - 48000 * f,
                miss(r, f + 1) == r - 48000 * (f + 1) || miss(r, f + 1) == 48000 * (f + 1) - r,
        ;
    }
    if f > 1 {
        assert(is_closer(r, f, f - 1));
        if r < 32000 * f {
            assert(miss(r, f) * (f - 1) >= miss(r, f - 1) * f) by (nonlinear_arith)
                requires
                    2 <= f,
                    0 <= r < 32000 * f,
                    miss(r, f) == 48000 * f - r,
                    miss(r, f - 1) == r - 48000 * (f - 1) || miss(r, f - 1) == 48000 * (f - 1) - r,
            ;
        }
    }
}

/// The phase of a decimator that began at zero, after `n` frames.
pub open spec fn phase_after(factor: nat, n: nat) -> nat
    decreases n,
{
    if n == 0 {
        0
    } else {
        (phase_after(factor, (n - 1) as nat) + 1) % factor
    }
}

/// Exactly one of every `factor` frames goes out: after `n` frames the decimator
/// stands where `n` stands within its group of `factor`, and the next frame goes
/// out exactly where it is the last of its group.
pub proof fn law_one_frame_of_every_factor(factor: nat, n: nat)
    requires
        factor > 0,
    ensures
        phase_after(factor, n) == n % factor,
        (phase_after(factor, n) + 1 == factor) == ((n + 1) % factor == 0),
    decreases n,
{
    if n > 0 {
        law_one_frame_of_every_factor(factor, (n - 1) as nat);
        vstd::arithmetic::div_mod::lemma_add_mod_noop(n - 1, 1, factor as int);
        if factor == 1 {
            vstd::arithmetic::div_mod::lemma_small_mod(0, 1);
        } else {
            vstd::arithmetic::div_mod::lemma_small_mod(1, factor);
        }
    } else {
        vstd::arithmetic::div_mod::lemma_small_mod(0, factor);
    }
    assert((n + 1) % factor == (n % factor + 1) % factor) by {
        vstd::arithmetic::div_mod::lemma_add_mod_noop(n as int, 1, factor as int);
        if factor > 1 {
            vstd::arithmetic::div_mod::lemma_small_mod(1, factor);
        }
    }
    if n % factor + 1 == factor {
        vstd::arithmetic::div_mod::lemma_mod_self_0(factor as int);
    } else {
        vstd::arithmetic::div_mod::lemma_small_mod((n % factor + 1) as nat, factor);
    }
}

/// No other factor divides the rate down to nearer 48 kHz, and no smaller one to as
/// near: the distances of the two quotients from 48000, each times both factors, are
/// compared.
pub proof fn law_nearest_factor_is_nearest(native_rate: int, f: int, g: int)
    requires
        is_nearest_factor(native_rate, f),
        g >= 1,
    ensures
        f >= 1,
        ({
            let by_f = native_rate - 48000 * f;
            let by_g = native_rate - 48000 * g;
            let miss_f = if by_f < 0 {
                -by_f
            } else {
                by_f
            };
            let miss_g = if by_g < 0 {
                -by_g
            } else {
                by_g
            };
            &&& miss_f * g <= miss_g * f
            &&& (g < f ==> miss_f * g < miss_g * f)
        }),
{
    assert(!is_closer(native_rate, g, f));
    if g < f {
        assert(is_closer(native_rate, f, g));
    }
}

/// The supported rates are those from 4 to 768 kHz: exactly these are accepted, and
/// every other rate is limited to the nearer end of them.
pub proof fn law_supported_rates(rate: u32, accepted: Result<(), AudioError>, limited: u32)
    requires
        call_ensures(validate_native_rate, (rate,), accepted),
        call_ensures(clamp_native_rate, (rate,), limited),
    ensures
        accepted is Ok <==> limited == rate,
        accepted is Ok <==> 4000 <= rate <= 768000,
        rate < 4000 ==> limited == 4000,
        rate > 768000 ==> limited == 768000,
        accepted is Err ==> (accepted matches Err(AudioError::Config(m)) && m@
            == "unsupported audio sample rate "@ + text::decimal(rate as nat)
            + " Hz (expected "@ + text::decimal(4000) + "..="@ + text::decimal(768000) + ")"@),
{
}

} // verus!
