//! The whole-number side of the MilkDrop level follower: the order in which its
//! transform takes the samples, which of them its butterflies join, and where
//! its three bands lie.

use crate::level::Level;
use vstd::prelude::*;

verus! {

/// The pattern of the lowest frame rate that the followers are adjusted to: 15.
pub const MIN_FPS_BITS: u32 = 0x4170_0000;

/// The pattern of the highest frame rate that the followers are adjusted to:
/// 144.
pub const MAX_FPS_BITS: u32 = 0x4310_0000;

/// The number of magnitudes that the transform gives.
pub const NUM_SAMPS: usize = 512;

/// The number of samples that the transform takes.
pub const FFT_SIZE: usize = 1024;

/// The binary logarithm of [`FFT_SIZE`].
pub const FFT_BITS: u32 = 10;

// ---------------------------------------------------------------------------
// Bit reversal
// ---------------------------------------------------------------------------
/// Two to the power of `k`.
pub open spec fn two_to(k: nat) -> nat
    decreases k,
{
    if k == 0 {
        1
    } else {
        2 * two_to((k - 1) as nat)
    }
}

/// The number whose lowest `k` bits are those of `x` in reverse.
pub open spec fn reversed(k: nat, x: nat) -> nat
    decreases k,
{
    if k == 0 {
        0
    } else {
        (x % 2) * two_to((k - 1) as nat) + reversed((k - 1) as nat, x / 2)
    }
}

/// The successor of `j` when its `k` bits are read in reverse: the highest bits
/// that are set are cleared, and the next one is set.
spec fn reverse_successor(k: nat, j: nat) -> nat
    decreases k,
{
    if k == 0 {
        j
    } else if j >= two_to((k - 1) as nat) {
        reverse_successor((k - 1) as nat, (j - two_to((k - 1) as nat)) as nat)
    } else {
        j + two_to((k - 1) as nat)
    }
}

proof fn lemma_two_to_positive(k: nat)
    ensures
        two_to(k) > 0,
    decreases k,
{
    if k > 0 {
        lemma_two_to_positive((k - 1) as nat);
    }
}

proof fn lemma_two_to_monotone(a: nat, b: nat)
    requires
        a <= b,
    ensures
        two_to(a) <= two_to(b),
    decreases b,
{
    if a < b {
        lemma_two_to_monotone(a, (b - 1) as nat);
    }
}

proof fn lemma_bit_times(bit: nat, h: nat)
    requires
        bit == 0 || bit == 1,
    ensures
        bit * h == (if bit == 1 {
            h
        } else {
            0
        }),
{
    assert(0 * h == 0) by (nonlinear_arith);
    assert(1 * h == h) by (nonlinear_arith);
}

/// A reversed number has no more bits than were reversed.
pub proof fn lemma_reversed_bound(k: nat, x: nat)
    ensures
        reversed(k, x) < two_to(k),
    decreases k,
{
    if k > 0 {
        lemma_reversed_bound((k - 1) as nat, x / 2);
        lemma_bit_times(x % 2, two_to((k - 1) as nat));
    }
}

/// Counting on by one, read in reverse.
proof fn lemma_reverse_successor(k: nat, x: nat)
    requires
        x + 1 < two_to(k),
    ensures
        reverse_successor(k, reversed(k, x)) == reversed(k, x + 1),
    decreases k,
{
    if k > 0 {
        let h = two_to((k - 1) as nat);
        lemma_reversed_bound((k - 1) as nat, x / 2);
        lemma_bit_times(x % 2, h);
        lemma_bit_times((x + 1) % 2, h);
        if x % 2 == 0 {
            assert((x + 1) / 2 == x / 2);
        } else {
            assert((x + 1) / 2 == x / 2 + 1);
            lemma_reverse_successor((k - 1) as nat, x / 2);
        }
    }
}

/// The highest of the reversed bits becomes the lowest.
proof fn lemma_reversed_high_bit(k: nat, bit: nat, r: nat)
    requires
        k > 0,
        bit == 0 || bit == 1,
        r < two_to((k - 1) as nat),
    ensures
        reversed(k, bit * two_to((k - 1) as nat) + r) == 2 * reversed((k - 1) as nat, r) + bit,
    decreases k,
{
    let h = two_to((k - 1) as nat);
    let y = bit * h + r;
    lemma_bit_times(bit, h);
    if k == 1 {
        assert(h == 1);
        assert(r == 0);
        assert(y == bit);
        assert(reversed(0, y / 2) == 0);
        assert(two_to(0) == 1);
        lemma_bit_times(y % 2, 1);
        assert(reversed(0, r) == 0);
        assert(reversed(1, y) == bit) by {
            assert(reversed(1, y) == (y % 2) * two_to(0) + reversed(0, y / 2));
        }
    } else {
        let g = two_to((k - 2) as nat);
        assert(h == 2 * g);
        lemma_bit_times(bit, g);
        assert(y % 2 == r % 2);
        assert(y / 2 == bit * g + r / 2);
        lemma_reversed_high_bit((k - 1) as nat, bit, r / 2);
        lemma_bit_times(r % 2, h);
        lemma_bit_times(r % 2, g);
    }
}

/// The index table of the transform: entry `x` is `x` with its bits reversed.
pub fn bit_reversal_table(bits: u32) -> (out: Vec<usize>)
    requires
        bits < 32,
    ensures
        out@.len() == two_to(bits as nat),
        forall|x: int| 0 <= x < out@.len() ==> #[trigger] out@[x] == reversed(
            bits as nat,
            x as nat,
        ),
{
    let ghost k = bits as nat;
    let mut n: usize = 1;
    let mut b: u32 = 0;
    proof {
        assert(two_to(31) == 0x8000_0000) by {
            reveal_with_fuel(two_to, 32);
        }
    }
    while b < bits
        invariant
            b <= bits < 32,
            n == two_to(b as nat),
            two_to(31) == 0x8000_0000,
        decreases bits - b,
    {
        proof {
            lemma_two_to_monotone((b + 1) as nat, 31);
        }
        n = n * 2;
        b += 1;
    }
    let mut table: Vec<usize> = Vec::new();
    let mut x: usize = 0;
    while x < n
        invariant
            x <= n,
            table@.len() == x,
            forall|p: int| 0 <= p < x ==> #[trigger] table@[p] == p,
        decreases n - x,
    {
        table.push(x);
        x += 1;
    }
    let mut i: usize = 0;
    let mut j: usize = 0;
    proof {
        lemma_two_to_monotone(k, 31);
        lemma_reversed_zero(k);
    }
    while i < n
        invariant
            n == two_to(k),
            k < 32,
            n <= 0x8000_0000,
            i <= n,
            i < n ==> j == reversed(k, i as nat),
            table@.len() == n,
            forall|p: int|
                0 <= p < n ==> #[trigger] table@[p] == (if p < i || reversed(k, p as nat) < i {
                    reversed(k, p as nat) as int
                } else {
                    p
                }),
        decreases n - i,
    {
        proof {
            lemma_reversed_bound(k, i as nat);
            law_reversal_undoes_itself(k, i as nat);
        }
        let ghost before = table@;
        if j > i {
            let a = table[i];
            let c = table[j];
            table.set(i, c);
            table.set(j, a);
        }
        proof {
            assert forall|p: int| 0 <= p < n implies #[trigger] table@[p] == (if p < i + 1
                || reversed(k, p as nat) < i + 1 {
                reversed(k, p as nat) as int
            } else {
                p
            }) by {
                law_reversal_undoes_itself(k, p as nat);
                assert(before[p] == (if p < i || reversed(k, p as nat) < i {
                    reversed(k, p as nat) as int
                } else {
                    p
                }));
            }
        }
        let mut m: usize = n / 2;
        let ghost mut kk: nat = k;
        proof {
            lemma_two_to_positive(k);
            if k > 0 {
                assert(n == 2 * two_to((k - 1) as nat));
            }
        }
        let ghost start = j as nat;
        while m >= 1 && j >= m
            invariant
                kk <= k,
                kk > 0 ==> m == two_to((kk - 1) as nat),
                kk == 0 ==> m == 0,
                j < two_to(kk),
                n == two_to(k),
                n <= 0x8000_0000,
                reverse_successor(k, start) == reverse_successor(kk, j as nat),
            decreases kk,
        {
            j = j - m;
            m = m / 2;
            proof {
                kk = (kk - 1) as nat;
                lemma_two_to_positive(kk);
            }
        }
        proof {
            if kk == 0 {
                lemma_two_to_positive(0);
            } else {
                lemma_two_to_positive((kk - 1) as nat);
                lemma_two_to_monotone(kk, k);
            }
            if i + 1 < n {
                lemma_reverse_successor(k, i as nat);
            }
        }
        j = j + m;
        i += 1;
    }
    proof {
        assert forall|p: int| 0 <= p < table@.len() implies #[trigger] table@[p] == reversed(
            k,
            p as nat,
        ) by {}
    }
    table
}

proof fn lemma_reversed_zero(k: nat)
    ensures
        reversed(k, 0) == 0,
    decreases k,
{
    if k > 0 {
        lemma_reversed_zero((k - 1) as nat);
        lemma_bit_times(0, two_to((k - 1) as nat));
    }
}

/// The samples in the order in which the transform takes them: by the index
/// table, with `zero` for an index that lies behind the last sample.
pub fn load_order<T: Copy>(wave: &[T], table: &Vec<usize>, zero: T) -> (out: Vec<T>)
    ensures
        out@.len() == table@.len(),
        forall|i: int|
            0 <= i < out@.len() ==> #[trigger] out@[i] == (if table@[i] < wave@.len() {
                wave@[table@[i] as int]
            } else {
                zero
            }),
{
    let mut out: Vec<T> = Vec::new();
    let mut i: usize = 0;
    while i < table.len()
        invariant
            i <= table@.len(),
            out@.len() == i,
            forall|k: int|
                0 <= k < i ==> #[trigger] out@[k] == (if table@[k] < wave@.len() {
                    wave@[table@[k] as int]
                } else {
                    zero
                }),
        decreases table@.len() - i,
    {
        let idx: usize = table[i];
        if idx < wave.len() {
            out.push(wave[idx]);
        } else {
            out.push(zero);
        }
        i += 1;
    }
    out
}

// ---------------------------------------------------------------------------
// Butterflies
// ---------------------------------------------------------------------------
/// One step of the transform: the two places that it joins, and the number of
/// the root of unity that it uses.
#[derive(Clone, Copy, Debug, PartialEq, Eq, Structural)]
pub struct Butterfly {
    pub twiddle: usize,
    pub upper: usize,
    pub lower: usize,
}

/// Butterfly number `q` of those that use root number `m`, in a stage whose
/// halves have `h` places.
pub open spec fn butterfly(h: int, m: int, q: int) -> Butterfly {
    Butterfly {
        twiddle: m as usize,
        upper: (m + q * (2 * h)) as usize,
        lower: (m + q * (2 * h) + h) as usize,
    }
}

/// The number, among all butterflies of a stage, of the `q`-th one that uses
/// root number `m`.
pub open spec fn numbered(groups: int, m: int, q: int) -> int {
    m * groups + q
}

/// Where the butterflies of root number `m + 1` begin among all of a stage.
proof fn lemma_next_root(m: int, groups: int)
    ensures
        (m + 1) * groups == m * groups + groups,
{
    assert((m + 1) * groups == m * groups + groups) by (nonlinear_arith);
}

/// Places of one group lie before those of the next.
proof fn lemma_group_bound(m: int, q: int, h: int, groups: int)
    requires
        0 <= m < h,
        0 <= q < groups,
    ensures
        0 <= q * (2 * h),
        m + q * (2 * h) + h < groups * (2 * h),
        (q + 1) * (2 * h) == q * (2 * h) + 2 * h,
{
    assert(0 <= q * (2 * h)) by (nonlinear_arith)
        requires
            0 <= q,
            0 <= h,
    ;
    assert((q + 1) * (2 * h) == q * (2 * h) + 2 * h) by (nonlinear_arith);
    assert((q + 1) * (2 * h) <= groups * (2 * h)) by (nonlinear_arith)
        requires
            q + 1 <= groups,
            0 <= h,
    ;
}

/// The butterflies of one stage in the order in which they are done: by their
/// root of unity, and then by their group. The halves of the stage have `half`
/// places, and there are `groups` groups.
pub fn butterflies(half: usize, groups: usize) -> (out: Vec<Butterfly>)
    requires
        half > 0,
        groups > 0,
        groups * (2 * half) <= usize::MAX,
    ensures
        out@.len() == half * groups,
        forall|m: int, q: int|
            0 <= m < half && 0 <= q < groups ==> #[trigger] out@[numbered(groups as int, m, q)] == butterfly(
                half as int,
                m,
                q,
            ),
{
    let mut out: Vec<Butterfly> = Vec::new();
    let mut m: usize = 0;
    proof {
        assert(0 * groups == 0) by (nonlinear_arith);
    }
    while m < half
        invariant
            half > 0,
            groups > 0,
            groups * (2 * half) <= usize::MAX,
            m <= half,
            out@.len() == m * groups,
            forall|a: int, q: int|
                0 <= a < m && 0 <= q < groups ==> #[trigger] out@[numbered(groups as int, a, q)] == butterfly(
                    half as int,
                    a,
                    q,
                ),
        decreases half - m,
    {
        let mut q: usize = 0;
        let mut upper: usize = m;
        proof {
            assert(0 * (2 * half) == 0) by (nonlinear_arith);
            lemma_group_bound(m as int, 0, half as int, groups as int);
        }
        while q < groups
            invariant
                half > 0,
                groups > 0,
                groups * (2 * half) <= usize::MAX,
                m < half,
                q <= groups,
                q < groups ==> upper == m + q * (2 * half),
                out@.len() == m * groups + q,
                forall|a: int, b: int|
                    0 <= a < m && 0 <= b < groups ==> #[trigger] out@[numbered(groups as int, a, b)] == butterfly(
                        half as int,
                        a,
                        b,
                    ),
                forall|b: int|
                    0 <= b < q ==> #[trigger] out@[numbered(groups as int, m as int, b)] == butterfly(
                        half as int,
                        m as int,
                        b,
                    ),
            decreases groups - q,
        {
            proof {
                lemma_group_bound(m as int, q as int, half as int, groups as int);
                assert forall|a: int, b: int| 0 <= a < m && 0 <= b < groups implies 0
                    <= #[trigger] numbered(groups as int, a, b) < m * groups by {
                    assert(0 <= a * groups) by (nonlinear_arith)
                        requires
                            0 <= a,
                            0 < groups,
                    ;
                    assert((a + 1) * groups <= m * groups) by (nonlinear_arith)
                        requires
                            a + 1 <= m,
                            0 < groups,
                    ;
                    lemma_next_root(a, groups as int);
                }
                assert(0 <= m * groups) by (nonlinear_arith);
            }
            out.push(Butterfly { twiddle: m, upper, lower: upper + half });
            q += 1;
            if q < groups {
                proof {
                    lemma_group_bound(m as int, q as int, half as int, groups as int);
                    lemma_group_bound(m as int, q - 1, half as int, groups as int);
                }
                upper = upper + 2 * half;
            }
        }
        proof {
            lemma_next_root(m as int, groups as int);
            assert forall|a: int, b: int| 0 <= a < m + 1 && 0 <= b < groups implies #[trigger] out@[numbered(
                groups as int,
                a,
                b,
            )] == butterfly(half as int, a, b) by {}
        }
        m += 1;
    }
    out
}

/// Signed samples from bytes that are centred at 128, filled up with zeros to
/// the length of the transform.
pub fn signed_samples(bytes: &[u8]) -> (out: Vec<i16>)
    ensures
        out@.len() == FFT_SIZE,
        forall|i: int|
            0 <= i < FFT_SIZE ==> #[trigger] out@[i] == (if i < bytes@.len() {
                bytes@[i] - 128
            } else {
                0
            }),
{
    let mut out: Vec<i16> = Vec::new();
    let mut i: usize = 0;
    while i < FFT_SIZE
        invariant
            i <= FFT_SIZE,
            out@.len() == i,
            forall|k: int|
                0 <= k < i ==> #[trigger] out@[k] == (if k < bytes@.len() {
                    bytes@[k] - 128
                } else {
                    0
                }),
        decreases FFT_SIZE - i,
    {
        if i < bytes.len() {
            out.push(bytes[i] as i16 - 128);
        } else {
            out.push(0);
        }
        i += 1;
    }
    out
}

// ---------------------------------------------------------------------------
// Bands
// ---------------------------------------------------------------------------
/// The bin of a band's edge, from the edge's frequency in rounded buckets: one
/// less, within the spectrum.
pub open spec fn edge_bin(rounded: int) -> int {
    if rounded - 1 < 0 {
        0
    } else if rounded - 1 > NUM_SAMPS - 1 {
        NUM_SAMPS - 1
    } else {
        rounded - 1
    }
}

/// The bin of a band's edge.
pub fn band_bin(rounded: i64) -> (out: usize)
    ensures
        out == edge_bin(rounded as int),
        out < NUM_SAMPS,
        1 <= rounded <= 512 ==> out + 1 == rounded,
        rounded < 1 ==> out == 0,
        rounded > 512 ==> out == 511,
{
    if rounded < 1 {
        0
    } else if rounded > NUM_SAMPS as i64 {
        NUM_SAMPS - 1
    } else {
        (rounded - 1) as usize
    }
}

/// The first bins of the bass, middle and treble bands, and the bins behind
/// them, from the rounded edges.
pub fn band_ranges(bass_low: i64, bass_high: i64, mid_high: i64, treb_high: i64) -> (out: (
    [usize; 3],
    [usize; 3],
))
    ensures
        out.0@ == seq![
            edge_bin(bass_low as int) as usize,
            edge_bin(bass_high as int) as usize,
            edge_bin(mid_high as int) as usize,
        ],
        out.1@ == seq![
            edge_bin(bass_high as int) as usize,
            edge_bin(mid_high as int) as usize,
            edge_bin(treb_high as int) as usize,
        ],
        out.0@[1] == out.1@[0],
        out.0@[2] == out.1@[1],
        1 <= bass_low <= 512 ==> out.0@[0] + 1 == bass_low,
        1 <= bass_high <= 512 ==> out.1@[0] + 1 == bass_high,
        1 <= mid_high <= 512 ==> out.1@[1] + 1 == mid_high,
        1 <= treb_high <= 512 ==> out.1@[2] + 1 == treb_high,
{
    let a = band_bin(bass_low);
    let b = band_bin(bass_high);
    let c = band_bin(mid_high);
    let d = band_bin(treb_high);
    let out = ([a, b, c], [b, c, d]);
    assert(out.0@ =~= seq![
        edge_bin(bass_low as int) as usize,
        edge_bin(bass_high as int) as usize,
        edge_bin(mid_high as int) as usize,
    ]);
    assert(out.1@ =~= seq![
        edge_bin(bass_high as int) as usize,
        edge_bin(mid_high as int) as usize,
        edge_bin(treb_high as int) as usize,
    ]);
    out
}

/// The frame rate that the followers are adjusted to: the given one within the
/// limits, and the lower limit for one that is no finite number.
pub fn effective_fps(fps: Level) -> (out: Level)
    ensures
        out == (if !fps.spec_is_finite() || fps.less(Level::with_bits(MIN_FPS_BITS)) {
            Level::with_bits(MIN_FPS_BITS)
        } else if Level::with_bits(MAX_FPS_BITS).less(fps) {
            Level::with_bits(MAX_FPS_BITS)
        } else {
            fps
        }),
        0x4170_0000 <= out.bits <= 0x4310_0000,
        0x4170_0000 <= fps.bits <= 0x4310_0000 ==> out == fps,
        0x4310_0000 < fps.bits < 0x7f80_0000 ==> out.bits == 0x4310_0000,
        fps.bits < 0x4170_0000 || fps.bits >= 0x7f80_0000 ==> out.bits == 0x4170_0000,
{
    let lo = Level::from_bits(MIN_FPS_BITS);
    let hi = Level::from_bits(MAX_FPS_BITS);
    if !fps.is_finite() || fps.is_less(lo) {
        lo
    } else if hi.is_less(fps) {
        hi
    } else {
        fps
    }
}

/// Whether the long-term average is still warming up at this frame.
pub fn is_warming_up(frame: u64) -> (yes: bool)
    ensures
        yes == (frame < 50),
{
    frame < 50
}

// ---------------------------------------------------------------------------
// Laws
// ---------------------------------------------------------------------------
/// Reversing the bits of a number twice gives the number back.
pub proof fn law_reversal_undoes_itself(k: nat, x: nat)
    requires
        x < two_to(k),
    ensures
        reversed(k, x) < two_to(k),
        reversed(k, reversed(k, x)) == x,
    decreases k,
{
    lemma_reversed_bound(k, x);
    if k > 0 {
        lemma_reversed_bound((k - 1) as nat, x / 2);
        law_reversal_undoes_itself((k - 1) as nat, x / 2);
        lemma_reversed_high_bit(k, x % 2, reversed((k - 1) as nat, x / 2));
    }
}

/// The index table takes every sample once: different places take different
/// samples.
pub proof fn law_table_is_a_permutation(k: nat, x: nat, y: nat)
    requires
        x < two_to(k),
        y < two_to(k),
        reversed(k, x) == reversed(k, y),
    ensures
        x == y,
{
    law_reversal_undoes_itself(k, x);
    law_reversal_undoes_itself(k, y);
}

/// A stage joins every place once: the place belongs to one group, in its upper
/// or its lower half.
pub proof fn law_stage_joins_every_place(half: int, groups: int, x: int)
    requires
        half > 0,
        groups > 0,
        groups * (2 * half) <= usize::MAX,
        0 <= x < groups * (2 * half),
    ensures
        ({
            let q = x / (2 * half);
            let r = x % (2 * half);
            &&& 0 <= q < groups
            &&& 0 <= r < 2 * half
            &&& (r < half ==> butterfly(half, r, q).upper == x)
            &&& (r >= half ==> butterfly(half, r - half, q).lower == x)
        }),
{
    let d = 2 * half;
    vstd::arithmetic::div_mod::lemma_fundamental_div_mod(x, d);
    vstd::arithmetic::div_mod::lemma_mod_bound(x, d);
    vstd::arithmetic::mul::lemma_mul_is_commutative(d, x / d);
    vstd::arithmetic::div_mod::lemma_div_pos_is_pos(x, d);
    assert(x / d < groups) by (nonlinear_arith)
        requires
            x == (x / d) * d + x % d,
            0 <= x % d,
            x < groups * d,
            d > 0,
    ;
}

/// The bands follow one another: each begins where the one below ends, and rising
/// edges give rising bins.
pub proof fn law_bands_are_adjacent(low: int, high: int)
    requires
        low <= high,
    ensures
        0 <= edge_bin(low) <= edge_bin(high) < NUM_SAMPS,
{
}

/// Two to a power is the power of two.
pub proof fn law_powers_of_two(k: nat)
    ensures
        two_to(k) == vstd::arithmetic::power2::pow2(k),
    decreases k,
{
    if k > 0 {
        law_powers_of_two((k - 1) as nat);
        vstd::arithmetic::power2::lemma_pow2_unfold(k);
    } else {
        vstd::arithmetic::power2::lemma2_to64();
    }
}

/// The bits of the reversed number are those of the number, from the other end: bit
/// `i` of the one is bit `k - 1 - i` of the other.
pub proof fn law_reversal_turns_the_bits_round(k: nat, x: nat, i: nat)
    requires
        i < k,
    ensures
        (reversed(k, x) / two_to((k - 1 - i) as nat)) % 2 == (x / two_to(i)) % 2,
    decreases k,
{
    let h = two_to((k - 1) as nat);
    let low = reversed((k - 1) as nat, x / 2);
    lemma_reversed_bound((k - 1) as nat, x / 2);
    lemma_two_to_positive((k - 1) as nat);
    let bit = x % 2;
    if i == 0 {
        assert((bit * h + low) / h == bit) by (nonlinear_arith)
            requires
                0 <= low < h,
        ;
        assert(two_to(0) == 1);
    } else {
        law_reversal_turns_the_bits_round((k - 1) as nat, x / 2, (i - 1) as nat);
        let d = two_to((k - 1 - i) as nat);
        lemma_two_to_positive((k - 1 - i) as nat);
        lemma_two_to_product((k - 1 - i) as nat, (i - 1) as nat);
        let m = two_to((i - 1) as nat);
        lemma_two_to_positive((i - 1) as nat);
        assert(two_to((k - 1) as nat) == 2 * two_to((k - 2) as nat));
        assert(h == 2 * (d * m));
        lemma_shifted_sum(bit as int, low as int, d as int, m as int);
        vstd::arithmetic::div_mod::lemma_div_denominator(x as int, 2, m as int);
        assert(two_to(i) == 2 * m);
    }
}

/// A multiple of `2 * d` shifted by `d` is a multiple of two, and leaves the bit of
/// what is added to it as it is.
proof fn lemma_shifted_sum(bit: int, low: int, d: int, m: int)
    requires
        d > 0,
    ensures
        (bit * (2 * (d * m)) + low) / d == 2 * (bit * m) + low / d,
        (2 * (bit * m) + low / d) % 2 == (low / d) % 2,
{
    let e = 2 * (bit * m);
    assert(bit * (2 * (d * m)) == e * d) by (nonlinear_arith)
        requires
            e == 2 * (bit * m),
    ;
    vstd::arithmetic::div_mod::lemma_fundamental_div_mod(low, d);
    vstd::arithmetic::div_mod::lemma_mod_bound(low, d);
    let q = low / d;
    let r = low % d;
    assert(e * d + low == (e + q) * d + r) by (nonlinear_arith)
        requires
            low == d * q + r,
    ;
    vstd::arithmetic::div_mod::lemma_fundamental_div_mod_converse(e * d + low, d, e + q, r);
}

/// Powers of two multiply.
proof fn lemma_two_to_product(a: nat, b: nat)
    ensures
        two_to(a + b) == two_to(a) * two_to(b),
    decreases a,
{
    if a > 0 {
        lemma_two_to_product((a - 1) as nat, b);
        assert(two_to(a) * two_to(b) == 2 * (two_to((a - 1) as nat) * two_to(b)))
            by (nonlinear_arith)
            requires
                two_to(a) == 2 * two_to((a - 1) as nat),
        ;
    } else {
        assert(1 * two_to(b) == two_to(b)) by (nonlinear_arith);
    }
}

/// A butterfly joins two places that lie half a group apart, uses the root whose
/// number is the place's number within its group, and the butterflies of a root
/// follow one another at the distance of a whole group.
pub proof fn law_butterfly_joins_half_a_group_apart(half: int, groups: int, m: int, q: int)
    requires
        0 <= m < half,
        0 <= q < groups,
        groups * (2 * half) <= usize::MAX,
    ensures
        butterfly(half, m, q).twiddle == m,
        butterfly(half, m, q).lower == butterfly(half, m, q).upper + half,
        butterfly(half, m, 0).upper == m,
        q + 1 < groups ==> butterfly(half, m, q + 1).upper == butterfly(half, m, q).upper + 2
            * half,
        butterfly(half, m, q).lower < groups * (2 * half),
{
    lemma_group_bound(m, q, half, groups);
    assert(0 * (2 * half) == 0) by (nonlinear_arith);
    if q + 1 < groups {
        lemma_group_bound(m, q + 1, half, groups);
    }
}

/// The butterflies of a stage are done root by root, and those of one root group by
/// group.
pub proof fn law_butterflies_are_done_root_by_root(groups: int, m: int, q: int)
    requires
        0 <= q < groups,
    ensures
        numbered(groups, m, 0) == m * groups,
        q + 1 < groups ==> numbered(groups, m, q + 1) == numbered(groups, m, q) + 1,
        numbered(groups, m + 1, 0) == numbered(groups, m, groups - 1) + 1,
{
    lemma_next_root(m, groups);
}

/// The bin of an edge is one less than the edge's bucket, as far as the 512 bins of
/// the spectrum reach.
pub proof fn law_edge_is_one_bucket_lower(rounded: int)
    ensures
        1 <= rounded <= 512 ==> edge_bin(rounded) == rounded - 1,
        rounded < 1 ==> edge_bin(rounded) == 0,
        rounded > 512 ==> edge_bin(rounded) == 511,
{
}

/// The table lists the places in the order of their reversed bits, and the samples are
/// taken in that order: sample `x` goes to the place whose bits are those of `x` in
/// reverse, and what lies behind the last sample is zero.
pub proof fn law_samples_are_taken_in_reversed_order<T: Copy>(
    wave: &[T],
    bits: u32,
    table: Vec<usize>,
    zero: T,
    out: Vec<T>,
    x: nat,
)
    requires
        bits < 32,
        call_ensures(bit_reversal_table, (bits,), table),
        call_ensures(load_order::<T>, (wave, &table, zero), out),
        x < two_to(bits as nat),
    ensures
        out@.len() == two_to(bits as nat),
        out@[reversed(bits as nat, x) as int] == (if x < wave@.len() {
            wave@[x as int]
        } else {
            zero
        }),
{
    law_reversal_undoes_itself(bits as nat, x);
    let r = reversed(bits as nat, x) as int;
    assert(table@[r] == reversed(bits as nat, r as nat));
}

/// A byte stands for its distance from 128, and what is missing to 1024 samples is
/// zero.
pub proof fn law_bytes_are_centred(bytes: &[u8], out: Vec<i16>, i: int)
    requires
        call_ensures(signed_samples, (bytes,), out),
        0 <= i < 1024,
    ensures
        out@.len() == 1024,
        i < bytes@.len() ==> out@[i] + 128 == bytes@[i],
        i >= bytes@.len() ==> out@[i] == 0,
{
}

/// The average warms up during its first fifty frames.
pub proof fn law_warm_up(frame: u64, yes: bool)
    requires
        call_ensures(is_warming_up, (frame,), yes),
    ensures
        yes <==> frame <= 49,
{
}

/// A frame rate from 15 to 144 is taken as it is, a higher one as 144, and a lower one
/// or what is no finite number as 15.
pub proof fn law_frame_rate_is_limited(fps: Level, out: Level)
    requires
        call_ensures(effective_fps, (fps,), out),
    ensures
        ({
            let lo = Level::with_bits(0x4170_0000);
            let hi = Level::with_bits(0x4310_0000);
            &&& (lo.at_most(fps) && fps.at_most(hi) ==> out == fps)
            &&& (fps.spec_is_finite() && hi.less(fps) ==> out == hi)
            &&& (!fps.spec_is_finite() || fps.less(lo) ==> out == lo)
        }),
{
}

/// The three bands lie one behind the other between the four edges.
pub proof fn law_bands_between_the_edges(
    bass_low: i64,
    bass_high: i64,
    mid_high: i64,
    treb_high: i64,
    out: ([usize; 3], [usize; 3]),
    a: usize,
    b: usize,
    c: usize,
    d: usize,
)
    requires
        call_ensures(band_ranges, (bass_low, bass_high, mid_high, treb_high), out),
        call_ensures(band_bin, (bass_low,), a),
        call_ensures(band_bin, (bass_high,), b),
        call_ensures(band_bin, (mid_high,), c),
        call_ensures(band_bin, (treb_high,), d),
    ensures
        out.0@[0] == a,
        out.1@[0] == b,
        out.0@[1] == b,
        out.1@[1] == c,
        out.0@[2] == c,
        out.1@[2] == d,
{
}

/// A stage has one butterfly for each root of each group, root by root.
pub proof fn law_butterflies_of_a_stage(
    half: usize,
    groups: usize,
    out: Vec<Butterfly>,
    m: int,
    q: int,
)
    requires
        half > 0,
        groups > 0,
        groups * (2 * half) <= usize::MAX,
        call_ensures(butterflies, (half, groups), out),
        0 <= m < half,
        0 <= q < groups,
    ensures
        out@.len() == half * groups,
        out@[m * groups + q].twiddle == m,
        out@[m * groups + q].upper == m + q * (2 * half),
        out@[m * groups + q].lower == m + q * (2 * half) + half,
{
    lemma_group_bound(m, q, half as int, groups as int);
    assert(out@[numbered(groups as int, m, q)] == butterfly(half as int, m, q));
}

} // verus!
