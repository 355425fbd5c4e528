//! Which bins of a spectrum a band covers, and which bands a sample rate
//! leaves room for.

use crate::level::Level;
use vstd::prelude::*;

verus! {

/// The number of bands of the crossover bank.
pub const LR_BANDS: usize = 5;

/// The first and the last bin of a triangular band in a spectrum of `n_bins`
/// bins, from its rounded edges: a band covers at least one bin.
pub fn band_bins(lo_bin: usize, hi_bin: usize, n_bins: usize) -> (out: (usize, usize))
    requires
        lo_bin < usize::MAX,
    ensures
        ({
            let top = if n_bins == 0 {
                0
            } else {
                n_bins - 1
            };
            let hi = if hi_bin <= lo_bin {
                lo_bin + 1
            } else {
                hi_bin as int
            };
            let capped = if hi < top {
                hi
            } else {
                top
            };
            &&& out.0 == (if lo_bin < top {
                lo_bin as int
            } else {
                top
            })
            &&& out.1 == (if capped < lo_bin {
                lo_bin as int
            } else {
                capped
            })
        }),
        out.0 <= out.1,
        out.0 <= lo_bin,
        out.0 < lo_bin ==> out.0 + 1 == n_bins || n_bins == 0,
        n_bins > 0 ==> out.0 < n_bins,
        lo_bin < hi_bin < n_bins ==> out == (lo_bin, hi_bin),
        hi_bin <= lo_bin && lo_bin + 1 < n_bins ==> out.0 == lo_bin && out.1 == lo_bin + 1,
        lo_bin + 1 < n_bins <= hi_bin ==> out.0 == lo_bin && out.1 + 1 == n_bins,
        lo_bin + 1 >= n_bins ==> out.1 == lo_bin,
{
    let top: usize = if n_bins == 0 {
        0
    } else {
        n_bins - 1
    };
    let hi: usize = if hi_bin <= lo_bin {
        lo_bin + 1
    } else {
        hi_bin
    };
    let capped: usize = if hi < top {
        hi
    } else {
        top
    };
    let last: usize = if capped < lo_bin {
        lo_bin
    } else {
        capped
    };
    let first: usize = if lo_bin < top {
        lo_bin
    } else {
        top
    };
    (first, last)
}

/// The bins from `lo_bin` up to `hi_bin` that a spectrum of `n` bins has.
pub fn band_limits(lo_bin: usize, hi_bin: usize, n: usize) -> (out: (usize, usize))
    ensures
        out.1 == (if hi_bin < n {
            hi_bin
        } else {
            n
        }),
        out.0 == (if lo_bin < out.1 {
            lo_bin
        } else {
            out.1
        }),
        out.0 <= out.1 <= n,
        lo_bin < hi_bin <= n ==> out == (lo_bin, hi_bin),
        lo_bin < n < hi_bin ==> out == (lo_bin, n),
        lo_bin >= hi_bin || lo_bin >= n ==> out.0 == out.1,
        out.1 == hi_bin || (out.1 == n && n <= hi_bin),
{
    let hi: usize = if hi_bin < n {
        hi_bin
    } else {
        n
    };
    let lo: usize = if lo_bin < hi {
        lo_bin
    } else {
        hi
    };
    (lo, hi)
}

/// The bins of an onset band, from its rounded edges: within the spectrum, and
/// at least one.
pub fn onset_bins(lo: usize, hi: usize, n_bins: usize) -> (out: (usize, usize))
    requires
        0 < n_bins < usize::MAX,
    ensures
        out.0 == (if lo < n_bins - 1 {
            lo as int
        } else {
            n_bins - 1
        }),
        out.1 == (if (if hi < n_bins - 1 {
            hi as int
        } else {
            n_bins - 1
        }) > out.0 {
            if hi < n_bins - 1 {
                hi as int
            } else {
                n_bins - 1
            }
        } else {
            out.0 + 1
        }),
        out.0 < out.1 <= n_bins,
        lo < hi < n_bins ==> out == (lo, hi),
        lo + 1 < n_bins <= hi ==> out.0 == lo && out.1 + 1 == n_bins,
        hi <= lo && lo + 1 <= n_bins ==> out.0 == lo && out.1 == lo + 1,
        lo + 1 >= n_bins ==> out.0 + 1 == n_bins && out.1 == n_bins,
{
    let top: usize = n_bins - 1;
    let a: usize = if lo < top {
        lo
    } else {
        top
    };
    let b: usize = if hi < top {
        hi
    } else {
        top
    };
    if b > a {
        (a, b)
    } else {
        (a, a + 1)
    }
}

/// Whether `rate` can be a sample rate: finite and above zero.
pub fn is_valid_rate(rate: Level) -> (yes: bool)
    ensures
        yes == (rate.spec_is_finite() && Level::spec_zero().less(rate)),
        yes <==> 0 < rate.bits < 0x7f80_0000,
{
    rate.is_finite() && Level::zero().is_less(rate)
}

/// How many bands of the crossover bank are meaningful: one more than the
/// crossovers below the Nyquist frequency, or none at a rate that is no rate.
pub fn available_bands(valid: bool, n_splits: usize) -> (n: usize)
    ensures
        n == (if !valid {
            0
        } else if n_splits < LR_BANDS {
            n_splits + 1
        } else {
            LR_BANDS as int
        }),
        n <= LR_BANDS,
        n <= 5,
        !valid ==> n == 0,
        valid && n_splits < 5 ==> n == n_splits + 1,
        valid && n_splits >= 5 ==> n == 5,
{
    if !valid {
        0
    } else if n_splits < LR_BANDS {
        n_splits + 1
    } else {
        LR_BANDS
    }
}

// ---------------------------------------------------------------------------
// Laws
// ---------------------------------------------------------------------------
/// A triangular band reaches from its lower to its upper edge, over one bin at least,
/// as far as the spectrum does.
pub proof fn law_triangular_band(lo_bin: usize, hi_bin: usize, n_bins: usize, out: (usize, usize))
    requires
        lo_bin < usize::MAX,
        call_ensures(band_bins, (lo_bin, hi_bin, n_bins), out),
    ensures
        lo_bin < hi_bin < n_bins ==> out.0 == lo_bin && out.1 == hi_bin,
        hi_bin <= lo_bin && lo_bin + 1 < n_bins ==> out.0 == lo_bin && out.1 == lo_bin + 1,
        lo_bin + 1 < n_bins <= hi_bin ==> out.0 == lo_bin && out.1 == n_bins - 1,
        0 < n_bins <= lo_bin + 1 ==> out.0 == n_bins - 1 && out.1 == lo_bin,
        n_bins == 0 ==> out.0 == 0 && out.1 == lo_bin,
{
}

/// A bin belongs to a band exactly where it lies between the edges and in the
/// spectrum.
pub proof fn law_bins_of_a_band(
    lo_bin: usize,
    hi_bin: usize,
    n: usize,
    out: (usize, usize),
    k: int,
)
    requires
        call_ensures(band_limits, (lo_bin, hi_bin, n), out),
    ensures
        out.0 <= k < out.1 <==> lo_bin <= k < hi_bin && k < n,
        out.0 <= out.1 <= n,
        out.1 == n || out.1 == hi_bin,
{
}

/// An onset band has one bin at least, and no bin outside the spectrum; between edges
/// in order below the last bin it is the bins between them.
pub proof fn law_bins_of_an_onset_band(lo: usize, hi: usize, n_bins: usize, out: (usize, usize))
    requires
        0 < n_bins < usize::MAX,
        call_ensures(onset_bins, (lo, hi, n_bins), out),
    ensures
        lo < hi < n_bins ==> out.0 == lo && out.1 == hi,
        lo + 1 < n_bins <= hi ==> out.0 == lo && out.1 == n_bins - 1,
        hi <= lo < n_bins ==> out.0 == lo && out.1 == lo + 1,
        lo >= n_bins ==> out.0 == n_bins - 1 && out.1 == n_bins,
{
}

/// A rate is one exactly where it is a finite number above zero.
pub proof fn law_rates(rate: Level, yes: bool)
    requires
        call_ensures(is_valid_rate, (rate,), yes),
    ensures
        yes <==> 0 < rate.bits < 0x7f80_0000,
{
}

/// Each crossover below the Nyquist frequency adds a band, up to five.
pub proof fn law_crossovers_add_bands(n_splits: usize, none: usize, here: usize, more: usize)
    requires
        n_splits < usize::MAX,
        call_ensures(available_bands, (false, n_splits), none),
        call_ensures(available_bands, (true, n_splits), here),
        call_ensures(available_bands, (true, (n_splits + 1) as usize), more),
    ensures
        none == 0,
        n_splits == 0 ==> here == 1,
        n_splits < 4 ==> more == here + 1,
        n_splits >= 4 ==> here == 5 && more == 5,
{
}

} // verus!
