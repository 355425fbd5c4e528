//! The two waveform traces of a snapshot: the newest samples as they are, and a
//! short trace of peaks.

use crate::level;
use crate::level::Level;
use vstd::prelude::*;

verus! {

/// The length of the trace of peaks.
pub const WAVEFORM_SAMPLES: usize = 32;

/// The length of the trace of newest samples.
pub const WAVEFORM_SAMPLES_FULL: usize = 512;

/// The newest samples in stream order, at the end of a trace of full length
/// that begins with zeros where there are too few.
pub open spec fn recent_full<T>(samples: Seq<T>, zero: T) -> Seq<T> {
    if samples.len() >= WAVEFORM_SAMPLES_FULL {
        samples.skip(samples.len() - WAVEFORM_SAMPLES_FULL)
    } else {
        Seq::new((WAVEFORM_SAMPLES_FULL - samples.len()) as nat, |i: int| zero) + samples
    }
}

/// The newest samples of the analysis window, in stream order.
pub fn recent_waveform_full<T: Copy>(samples: &[T], zero: T) -> (out: Vec<T>)
    ensures
        out@ == recent_full(samples@, zero),
        out@.len() == WAVEFORM_SAMPLES_FULL,
{
    let n: usize = if samples.len() < WAVEFORM_SAMPLES_FULL {
        samples.len()
    } else {
        WAVEFORM_SAMPLES_FULL
    };
    let mut out: Vec<T> = Vec::new();
    while out.len() < WAVEFORM_SAMPLES_FULL - n
        invariant
            n <= WAVEFORM_SAMPLES_FULL,
            out@.len() <= WAVEFORM_SAMPLES_FULL - n,
            forall|i: int| 0 <= i < out@.len() ==> #[trigger] out@[i] == zero,
        decreases WAVEFORM_SAMPLES_FULL - n - out@.len(),
    {
        out.push(zero);
    }
    let ghost pad = out@;
    let start: usize = samples.len() - n;
    let mut i: usize = 0;
    while i < n
        invariant
            i <= n,
            start + n == samples.len(),
            out@ == pad + samples@.subrange(start as int, start + i),
        decreases n - i,
    {
        out.push(samples[start + i]);
        i += 1;
        assert(out@ =~= pad + samples@.subrange(start as int, start + i));
    }
    assert(out@ =~= recent_full(samples@, zero));
    out
}

/// Where bucket number `i` of `len` samples begins.
pub open spec fn bucket_start(len: int, i: int) -> int {
    i * len / (WAVEFORM_SAMPLES as int)
}

/// Where bucket number `i` of `len` samples ends: before the next one, but
/// behind its own first sample.
pub open spec fn bucket_end(len: int, i: int) -> int {
    let end = (i + 1) * len / (WAVEFORM_SAMPLES as int);
    if end < bucket_start(len, i) + 1 {
        bucket_start(len, i) + 1
    } else {
        end
    }
}

/// The sample of `s` farthest from zero, the first of several, or zero where
/// none is farther from zero than zero.
pub open spec fn peak(s: Seq<Level>) -> Level
    decreases s.len(),
{
    if s.len() == 0 {
        Level::spec_zero()
    } else {
        let before = peak(s.drop_last());
        if before.spec_abs().less(s.last().spec_abs()) {
            s.last()
        } else {
            before
        }
    }
}

/// The trace of peaks of `samples`: one per bucket, within minus one and one.
pub open spec fn peaks(samples: Seq<Level>) -> Seq<Level> {
    Seq::new(
        WAVEFORM_SAMPLES as nat,
        |i: int|
            if samples.len() == 0 {
                Level::spec_zero()
            } else {
                peak(
                    samples.subrange(
                        bucket_start(samples.len() as int, i),
                        bucket_end(samples.len() as int, i),
                    ),
                ).clamped(Level::spec_minus_one(), Level::spec_one())
            },
    )
}

/// Every bucket lies within the samples and is not empty.
proof fn lemma_bucket(len: int, i: int)
    requires
        len > 0,
        0 <= i < WAVEFORM_SAMPLES,
    ensures
        0 <= bucket_start(len, i) < bucket_end(len, i) <= len,
{
    assert(0 <= i * len <= 31 * len) by (nonlinear_arith)
        requires
            len > 0,
            0 <= i <= 31,
    ;
    assert((i + 1) * len <= 32 * len) by (nonlinear_arith)
        requires
            len > 0,
            0 <= i <= 31,
    ;
    assert((i + 1) * len == i * len + len) by (nonlinear_arith);
}

/// The trace of peaks of the analysis window.
pub fn downsample_waveform(samples: &[Level]) -> (out: Vec<Level>)
    requires
        samples@.len() * WAVEFORM_SAMPLES <= usize::MAX,
    ensures
        out@ == peaks(samples@),
{
    let len: usize = samples.len();
    let mut out: Vec<Level> = Vec::new();
    let mut i: usize = 0;
    while i < WAVEFORM_SAMPLES
        invariant
            i <= WAVEFORM_SAMPLES,
            len == samples@.len(),
            len * WAVEFORM_SAMPLES <= usize::MAX,
            out@ == peaks(samples@).take(i as int),
        decreases WAVEFORM_SAMPLES - i,
    {
        let mut top = Level::zero();
        if len > 0 {
            proof {
                lemma_bucket(len as int, i as int);
                assert(i * len <= 32 * len) by (nonlinear_arith)
                    requires
                        i <= 32,
                ;
                assert((i + 1) * len <= 32 * len) by (nonlinear_arith)
                    requires
                        i + 1 <= 32,
                ;
            }
            let start: usize = i * len / WAVEFORM_SAMPLES;
            let next: usize = (i + 1) * len / WAVEFORM_SAMPLES;
            let end: usize = if next < start + 1 {
                start + 1
            } else {
                next
            };
            let mut k: usize = start;
            assert(samples@.subrange(start as int, start as int) =~= Seq::<Level>::empty());
            while k < end
                invariant
                    start <= k <= end <= samples@.len(),
                    top == peak(samples@.subrange(start as int, k as int)),
                decreases end - k,
            {
                let sample = samples[k];
                k += 1;
                assert(samples@.subrange(start as int, k as int).drop_last()
                    =~= samples@.subrange(start as int, k - 1));
                if top.abs().is_less(sample.abs()) {
                    top = sample;
                }
            }
        }
        let one = Level::from_bits(level::ONE_BITS);
        let minus_one = Level::from_bits(level::MINUS_ONE_BITS);
        out.push(top.clamp(minus_one, one));
        i += 1;
        assert(out@ =~= peaks(samples@).take(i as int));
    }
    assert(peaks(samples@).take(i as int) =~= peaks(samples@));
    out
}

// ---------------------------------------------------------------------------
// Laws
// ---------------------------------------------------------------------------
/// The full trace always ends with the newest sample.
pub proof fn law_full_trace_ends_with_the_newest<T>(samples: Seq<T>, zero: T)
    requires
        samples.len() > 0,
    ensures
        recent_full(samples, zero).len() == WAVEFORM_SAMPLES_FULL,
        recent_full(samples, zero).last() == samples.last(),
{
}

/// The buckets cover the samples from the first to the last without a hole.
pub proof fn law_buckets_cover_the_samples(len: int, i: int)
    requires
        len >= WAVEFORM_SAMPLES,
        0 <= i < WAVEFORM_SAMPLES,
    ensures
        bucket_start(len, 0) == 0,
        bucket_end(len, i) == bucket_start(len, i + 1),
        bucket_end(len, WAVEFORM_SAMPLES - 1) == len,
{
    assert(0 * len == 0) by (nonlinear_arith);
    assert((i + 1) * len == i * len + len) by (nonlinear_arith);
    assert(32 * len == 31 * len + len) by (nonlinear_arith);
}

/// No sample of `s` is farther from zero than its peak, as long as all are
/// numbers.
pub proof fn law_peak_is_farthest_from_zero(s: Seq<Level>, i: int)
    requires
        0 <= i < s.len(),
        forall|j: int| 0 <= j < s.len() ==> !(#[trigger] s[j]).spec_is_nan(),
    ensures
        !peak(s).spec_is_nan(),
        s[i].magnitude() <= peak(s).magnitude(),
    decreases s.len(),
{
    lemma_peak_is_a_number(s.drop_last());
    if i < s.len() - 1 {
        assert(s.drop_last()[i] == s[i]);
        assert forall|j: int| 0 <= j < s.drop_last().len() implies !(
        #[trigger] s.drop_last()[j]).spec_is_nan() by {
            assert(s.drop_last()[j] == s[j]);
        }
        law_peak_is_farthest_from_zero(s.drop_last(), i);
    }
}

proof fn lemma_peak_is_a_number(s: Seq<Level>)
    ensures
        !peak(s).spec_is_nan(),
    decreases s.len(),
{
    if s.len() > 0 {
        lemma_peak_is_a_number(s.drop_last());
    }
}

/// Counted from its end, the full trace holds the samples counted from theirs, the
/// newest 512 of them, and zeros where there are fewer.
pub proof fn law_full_trace_shows_the_newest_samples<T>(samples: Seq<T>, zero: T, back: int)
    requires
        0 <= back < 512,
    ensures
        recent_full(samples, zero).len() == 512,
        recent_full(samples, zero)[511 - back] == (if back < samples.len() {
            samples[samples.len() - 1 - back]
        } else {
            zero
        }),
{
}

/// A bucket holds the samples that fall into its thirty-second part of the trace:
/// where there are at least as many samples as buckets, sample `k` lies in bucket
/// `i` exactly where the sample's end lies in that part.
pub proof fn law_bucket_holds_its_part(len: int, i: int, k: int)
    requires
        len >= 32,
        0 <= i < 32,
        0 <= k < len,
    ensures
        bucket_start(len, i) <= k < bucket_end(len, i) <==> i * len < 32 * (k + 1) && 32 * (k + 1)
            <= (i + 1) * len,
{
    assert((i + 1) * len == i * len + len) by (nonlinear_arith);
    assert(0 <= i * len) by (nonlinear_arith)
        requires
            0 <= i,
            0 <= len,
    ;
}

/// Where there are fewer samples than buckets, each bucket holds one sample, the one
/// at its part of the trace.
pub proof fn law_bucket_of_a_short_trace(len: int, i: int)
    requires
        0 < len < 32,
        0 <= i < 32,
    ensures
        bucket_end(len, i) == bucket_start(len, i) + 1,
        32 * bucket_start(len, i) <= i * len < 32 * (bucket_start(len, i) + 1),
{
    assert((i + 1) * len == i * len + len) by (nonlinear_arith);
    assert(0 <= i * len) by (nonlinear_arith)
        requires
            0 <= i,
            0 <= len,
    ;
}

/// The peak of some samples is the first of them that lies farthest from zero, or
/// zero where none lies away from it. What is no number is passed over.
pub proof fn law_peak_is_the_first_farthest_sample(s: Seq<Level>)
    ensures
        (forall|j: int|
            0 <= j < s.len() ==> !Level::with_bits(0).less((#[trigger] s[j]).spec_abs()))
            ==> peak(s).bits == 0,
        (exists|j: int| 0 <= j < s.len() && Level::with_bits(0).less((#[trigger] s[j]).spec_abs()))
            ==> exists|k: int| #[trigger] is_first_farthest(s, k) && s[k] == peak(s),
    decreases s.len(),
{
    if s.len() > 0 {
        let t = s.drop_last();
        law_peak_is_the_first_farthest_sample(t);
        let n = s.len() - 1;
        if forall|j: int|
            0 <= j < t.len() ==> !Level::with_bits(0).less((#[trigger] t[j]).spec_abs()) {
            assert forall|j: int| 0 <= j < n implies !Level::with_bits(0).less(
                (#[trigger] s[j]).spec_abs(),
            ) by {
                assert(t[j] == s[j]);
            }
            assert(peak(t).bits == 0);
            if Level::with_bits(0).less(s[n].spec_abs()) {
                assert(peak(s) == s[n]);
                assert(is_first_farthest(s, n));
            }
        } else {
            let k = choose|k: int| #[trigger] is_first_farthest(t, k) && t[k] == peak(t);
            assert(t[k] == s[k]);
            if peak(t).spec_abs().less(s[n].spec_abs()) {
                assert(peak(s) == s[n]);
                assert forall|j: int| 0 <= j < n implies !s[n].spec_abs().at_most(
                    (#[trigger] s[j]).spec_abs(),
                ) by {
                    assert(t[j] == s[j]);
                }
                assert(is_first_farthest(s, n));
            } else {
                assert(peak(s) == s[k]);
                assert forall|j: int| 0 <= j < k implies !s[k].spec_abs().at_most(
                    (#[trigger] s[j]).spec_abs(),
                ) by {
                    assert(t[j] == s[j]);
                }
                assert forall|j: int| 0 <= j < s.len() implies !s[k].spec_abs().less(
                    (#[trigger] s[j]).spec_abs(),
                ) by {
                    if j < n {
                        assert(t[j] == s[j]);
                    }
                }
                assert(is_first_farthest(s, k));
            }
        }
    }
}

/// Sample `k` lies away from zero, none lies farther, and none before it as far.
pub open spec fn is_first_farthest(s: Seq<Level>, k: int) -> bool {
    &&& 0 <= k < s.len()
    &&& Level::with_bits(0).less(s[k].spec_abs())
    &&& forall|j: int| 0 <= j < k ==> !s[k].spec_abs().at_most((#[trigger] s[j]).spec_abs())
    &&& forall|j: int| 0 <= j < s.len() ==> !s[k].spec_abs().less((#[trigger] s[j]).spec_abs())
}

/// The trace of peaks has thirty-two peaks, one for each bucket in order, each
/// limited to lie between minus one and one; without samples all are zero.
pub proof fn law_trace_of_peaks(samples: Seq<Level>, i: int)
    requires
        0 <= i < 32,
    ensures
        peaks(samples).len() == 32,
        samples.len() == 0 ==> peaks(samples)[i].bits == 0,
        samples.len() > 0 ==> ({
            let p = peak(
                samples.subrange(
                    bucket_start(samples.len() as int, i),
                    bucket_end(samples.len() as int, i),
                ),
            );
            &&& (Level::with_bits(0xbf80_0000).at_most(p) && p.at_most(
                Level::with_bits(0x3f80_0000),
            ) ==> peaks(samples)[i] == p)
            &&& (Level::with_bits(0x3f80_0000).less(p) ==> peaks(samples)[i].bits == 0x3f80_0000)
            &&& (p.less(Level::with_bits(0xbf80_0000)) ==> peaks(samples)[i].bits == 0xbf80_0000)
        }),
{
}

} // verus!
