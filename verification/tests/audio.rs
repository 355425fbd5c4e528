use particle_core::bands::{
    available_bands, band_bins, band_limits, is_valid_rate, onset_bins,
};
use particle_core::butterchurn::{
    band_bin, band_ranges, bit_reversal_table, butterflies, effective_fps, is_warming_up,
    load_order, signed_samples, FFT_BITS, FFT_SIZE,
};
use particle_core::capture_ring::{
    capture_ring, drain_available, offer_frame, overruns_after, ring_status, CaptureFrame,
    RING_CAPACITY,
};
use particle_core::features::{
    Arrays, AudioLevels, Dynamics, Features, HopParts, HpssFeatures, HpssLevels, Loudness, LrBands,
    MacroBands, StructureFeatures, TempoOut, TonalRail,
};
use particle_core::history::History;
use particle_core::hpss::{bus_radius, frequency_median, neighbourhood, HpssHistory};
use particle_core::level::{
    finite_non_negative, finite_or_zero, sanitize_pcm_sample, Level,
};
use particle_core::onset::OnsetDetector;
use particle_core::order::{bracket, median, nth};
use particle_core::resample::{
    clamp_native_rate, decimation_factor, validate_native_rate, FrameDecimator,
};
use particle_core::select::{best_two, count_leading_below, first_best, keep_above, keep_at_least};
use particle_core::smoothing::{gated, SilenceGate};
use particle_core::spectrogram::{SpectrogramTrail, DEFAULT_BINS, DEFAULT_FRAMES};
use particle_core::staging::{
    drain_pass, interleaved_pairs, planar_pairs, HopStager, FFT_LEN, HOP,
};
use particle_core::structure::{checkerboard_frames, halves, HISTORY, WINDOW};
use particle_core::tempo::{
    best_lag, best_position, is_onset_peak, lag_bounds, metrical_position, next_beat, octave_lags,
    position_before, EstimateClock,
};
use particle_core::tonal::{
    chosen_tau, estimate_from_profiles, estimate_from_state_scores, nsdf_peak_pick, pitch_class,
    pitch_lags, pitch_window, transition_steps, CHROMA_BINS,
};
use particle_core::triple_buffer::{is_marked, marked, slot_of, triple_buffer};
use particle_core::waveform::{
    downsample_waveform, recent_waveform_full, WAVEFORM_SAMPLES, WAVEFORM_SAMPLES_FULL,
};

fn lv(x: f32) -> Level {
    Level::from_bits(x.to_bits())
}

fn fl(x: Level) -> f32 {
    f32::from_bits(x.bits)
}

fn lvs(xs: &[f32]) -> Vec<Level> {
    xs.iter().map(|&x| lv(x)).collect()
}

fn fls(xs: &[Level]) -> Vec<f32> {
    xs.iter().map(|&x| fl(x)).collect()
}

const SAMPLES: [f32; 16] = [
    0.0,
    -0.0,
    1.0,
    -1.0,
    0.5,
    -2.5,
    1e-40,
    -1e-40,
    f32::MAX,
    f32::MIN,
    f32::INFINITY,
    f32::NEG_INFINITY,
    f32::NAN,
    f32::MIN_POSITIVE,
    3.0,
    0.99999994,
];

// ---------------------------------------------------------------------------
// Levels
// ---------------------------------------------------------------------------

#[test]
fn levels_compare_as_numbers() {
    for &a in &SAMPLES {
        assert_eq!(lv(a).is_nan(), a.is_nan());
        assert_eq!(lv(a).is_finite(), a.is_finite());
        assert_eq!(lv(a).abs().bits, a.abs().to_bits());
        for &b in &SAMPLES {
            assert_eq!(lv(a).is_less(lv(b)), a < b, "{a} < {b}");
            assert_eq!(lv(a).is_at_most(lv(b)), a <= b, "{a} <= {b}");
            assert_eq!(
                lv(a).rank_number() < lv(b).rank_number(),
                a.total_cmp(&b).is_lt(),
                "{a} before {b}"
            );
        }
        assert_eq!(
            lv(a).clamp(lv(-1.0), lv(1.0)).bits,
            a.clamp(-1.0, 1.0).to_bits()
        );
    }
}

#[test]
fn samples_are_repaired() {
    for &a in &SAMPLES {
        let expected = if a.is_finite() { a } else { 0.0 };
        assert_eq!(fl(finite_or_zero(lv(a))), expected);
        assert_eq!(fl(sanitize_pcm_sample(lv(a))), expected.clamp(-1.0, 1.0));
        assert_eq!(fl(finite_non_negative(lv(a))), expected.max(0.0));
    }
}

#[test]
fn selection_matches_sorting() {
    let mut acc = 0.123_f32;
    let mut values: Vec<f32> = Vec::new();
    for step in 0..120 {
        acc = (acc * 7.0 + 0.31).fract();
        values.push(acc * (1.0 + (step % 5) as f32) - 1.0);
        let mut sorted = values.clone();
        sorted.sort_by(|a, b| a.total_cmp(b));
        let levels = lvs(&values);
        for n in [0, sorted.len() / 3, sorted.len() / 2, sorted.len() - 1] {
            assert_eq!(fl(nth(&levels, n)), sorted[n]);
        }
        assert_eq!(fl(median(&levels)), sorted[sorted.len() / 2]);
    }
    assert_eq!(fl(median(&[])), 0.0);
    assert_eq!(fl(nth(&lvs(&[2.0, f32::NAN, -0.0, 0.0]), 0)).to_bits(), (-0.0f32).to_bits());
}

#[test]
fn best_and_runner_up() {
    let scores = lvs(&[0.1, f32::NAN, 0.7, 0.7, -3.0]);
    let floor = lv(f32::NEG_INFINITY);
    let (best, second) = best_two(&scores, floor);
    assert_eq!(best, Some(2));
    assert_eq!(fl(second), 0.7);
    assert_eq!(first_best(&scores, lv(0.7)), None);
    let (none, floor_back) = best_two(&lvs(&[f32::NAN]), lv(0.0));
    assert_eq!(none, None);
    assert_eq!(fl(floor_back), 0.0);
}

#[test]
fn gates_keep_the_order() {
    let v = lvs(&[3.0, 1.0, f32::NAN, 2.0, 1.0]);
    assert_eq!(fls(&keep_at_least(&v, lv(1.0))), [3.0, 1.0, 2.0, 1.0]);
    assert_eq!(fls(&keep_above(&v, lv(1.0))), [3.0, 2.0]);
    assert_eq!(count_leading_below(&lvs(&[120.0, 500.0, 2000.0, 6000.0]), lv(3800.0)), 3);
    assert_eq!(count_leading_below(&lvs(&[120.0]), lv(f32::NAN)), 0);
}

// ---------------------------------------------------------------------------
// Capture ring
// ---------------------------------------------------------------------------

fn tagged_frame(tag: f32) -> CaptureFrame {
    CaptureFrame {
        mono: lv(tag),
        left: lv(tag),
        right: lv(tag),
    }
}

#[test]
fn frames_pass_the_ring_in_order() {
    let (mut producer, mut consumer) = capture_ring();
    assert!(!ring_status(&mut consumer).finished);
    let mut overruns = 0u64;
    for i in 0..RING_CAPACITY + 3 {
        overruns = offer_frame(&mut producer, tagged_frame(i as f32), overruns);
    }
    assert_eq!(overruns, 3);
    let mut out = vec![tagged_frame(-1.0)];
    assert_eq!(drain_available(&mut consumer, &mut out), RING_CAPACITY);
    assert_eq!(fl(out[0].mono), -1.0);
    for (i, f) in out[1..].iter().enumerate() {
        assert_eq!(fl(f.left), i as f32);
    }
    assert_eq!(drain_available(&mut consumer, &mut out), 0);
    assert_eq!(ring_status(&mut consumer).slots, 0);
    drop(producer);
    let status = ring_status(&mut consumer);
    assert!(status.abandoned && status.finished);
    assert_eq!(overruns_after(false, u64::MAX), 0);
}

#[test]
fn ring_ends_only_when_nothing_is_left() {
    let (mut producer, mut consumer) = capture_ring();
    // As many frames as the ring holds go in without a loss.
    let mut lost = 0;
    for i in 0..RING_CAPACITY {
        lost = offer_frame(&mut producer, tagged_frame(i as f32), lost);
    }
    assert_eq!(lost, 0);
    assert_eq!(offer_frame(&mut producer, tagged_frame(0.0), lost), 1);
    let mut all = Vec::new();
    assert_eq!(drain_available(&mut consumer, &mut all), RING_CAPACITY);
    for i in 0..5 {
        offer_frame(&mut producer, tagged_frame(i as f32), 0);
    }
    let status = ring_status(&mut consumer);
    assert!(!status.abandoned && !status.finished);
    assert_eq!(status.slots, 5);
    offer_frame(&mut producer, tagged_frame(5.0), 0);
    drop(producer);
    let status = ring_status(&mut consumer);
    assert!(status.abandoned && !status.finished);
    assert_eq!(status.slots, 6);
    let mut out = Vec::new();
    assert_eq!(drain_available(&mut consumer, &mut out), 6);
    assert_eq!(out.len(), 6);
    assert_eq!(fl(out[5].mono), 5.0);
    assert!(ring_status(&mut consumer).finished);
    assert_eq!(drain_available(&mut consumer, &mut out), 0);
}

// ---------------------------------------------------------------------------
// Triple buffer
// ---------------------------------------------------------------------------

#[test]
fn initial_value_is_readable() {
    let (mut shared, _w, mut r) = triple_buffer(7u32);
    assert_eq!(r.read(&mut shared), 7);
    // Repeated reads with no writes return the same value.
    assert_eq!(r.read(&mut shared), 7);
}

#[test]
fn read_sees_latest_write() {
    let (mut shared, mut w, mut r) = triple_buffer(0u32);
    w.write(&mut shared, 1);
    assert_eq!(r.read(&mut shared), 1);
    w.write(&mut shared, 2);
    w.write(&mut shared, 3);
    // Always the latest, intermediate values may be skipped.
    assert_eq!(r.read(&mut shared), 3);
}

#[test]
fn control_byte_names_and_marks_a_slot() {
    for slot in 0..3u8 {
        assert_eq!(slot_of(slot), slot);
        assert!(!is_marked(slot));
        assert_eq!(slot_of(marked(slot)), slot);
        assert!(is_marked(marked(slot)));
    }
}

#[test]
fn write_without_read_does_not_deadlock() {
    let (mut shared, mut w, mut r) = triple_buffer(0u32);
    for i in 0..1000 {
        w.write(&mut shared, i);
    }
    assert_eq!(r.read(&mut shared), 999);
}

// ---------------------------------------------------------------------------
// Rates
// ---------------------------------------------------------------------------

#[test]
fn decimation_factor_maps_common_rates_to_canonical_band() {
    // Standard rates pass through untouched.
    assert_eq!(decimation_factor(44_100), 1);
    assert_eq!(decimation_factor(48_000), 1);
    // High rates decimate to ~44.1/48 kHz.
    assert_eq!(decimation_factor(88_200), 2);
    assert_eq!(decimation_factor(96_000), 2);
    assert_eq!(decimation_factor(176_400), 4);
    assert_eq!(decimation_factor(192_000), 4);

    for &rate in &[44_100u32, 48_000, 88_200, 96_000, 176_400, 192_000] {
        let eff = rate as f32 / decimation_factor(rate) as f32;
        assert!(
            (32_000.0..=64_000.0).contains(&eff),
            "effective rate {eff} for native {rate} left the canonical band"
        );
    }
    // The factor whose rate comes closest, at its edges and over the supported range.
    assert_eq!(decimation_factor(0), 1);
    assert_eq!(decimation_factor(64_000), 1);
    assert_eq!(decimation_factor(64_001), 2);
    assert_eq!(decimation_factor(70_000), 2);
    for rate in (4_000..=768_000u32).step_by(7) {
        let miss = |f: u32| (rate as f64 / f as f64 - 48_000.0).abs();
        let closest = (1..=20u32)
            .min_by(|&a, &b| miss(a).total_cmp(&miss(b)))
            .unwrap();
        let factor = decimation_factor(rate);
        assert_eq!(factor, closest as usize, "{rate}");
        assert!(rate as usize <= 64_000 * factor, "{rate}");
        assert!(rate < 32_000 || rate as usize >= 32_000 * factor, "{rate}");
    }
}

#[test]
fn factor_one_is_bit_identical_passthrough() {
    let mut d = FrameDecimator::new(48_000);
    assert_eq!(d.factor(), 1);
    for i in 0..64 {
        let f = CaptureFrame {
            mono: lv((i as f32 * 0.13).sin()),
            left: lv(i as f32),
            right: lv(-(i as f32)),
        };
        let out = d
            .push(f, tagged_frame(0.0))
            .expect("factor-1 decimator emits every frame");
        assert_eq!(out.mono, f.mono);
        assert_eq!(out.left, f.left);
        assert_eq!(out.right, f.right);
    }
}

#[test]
fn decimator_emits_one_filtered_frame_per_group() {
    let mut d = FrameDecimator::new(192_000);
    let out: Vec<Option<i32>> = (0..9).map(|i| d.push(i, 100 + i)).collect();
    let expected = vec![None, None, None, Some(103), None, None, None, Some(107), None];
    assert_eq!(out, expected);
}

#[test]
fn analyzer_construction_rejects_pathological_rates() {
    assert!(
        validate_native_rate(0).is_err(),
        "zero rate must be rejected"
    );
    assert!(
        validate_native_rate(2_000).is_err(),
        "sub-audio rate must be rejected"
    );
    assert!(
        validate_native_rate(2_000_000).is_err(),
        "absurdly high rate must be rejected"
    );
    assert!(validate_native_rate(48_000).is_ok());
    match validate_native_rate(3_999) {
        Err(e) => assert_eq!(
            e.message(),
            "audio device config error: unsupported audio sample rate 3999 Hz \
             (expected 4000..=768000)"
        ),
        Ok(()) => panic!("expected a refusal"),
    }
    assert_eq!(clamp_native_rate(0), 4_000);
    assert_eq!(clamp_native_rate(48_000), 48_000);
    assert_eq!(clamp_native_rate(u32::MAX), 768_000);
}

// ---------------------------------------------------------------------------
// Staging
// ---------------------------------------------------------------------------

#[test]
fn drain_pass_no_overrun_keeps_leftover_and_stays_continuous() {
    let leftover = HOP - 64;
    let mut pending: Vec<CaptureFrame> = (0..leftover).map(|_| tagged_frame(-1.0)).collect();
    let incoming: Vec<CaptureFrame> = (0..HOP * 2).map(|_| tagged_frame(1.0)).collect();
    let watermark = 9u64;

    let (hops, now) = drain_pass(&mut pending, &incoming, watermark, watermark);

    assert_eq!(now, watermark, "no overrun leaves the watermark unchanged");
    assert!(
        hops[0].iter().any(|f| fl(f.mono) == -1.0),
        "no-overrun path must carry the sub-hop leftover into the next hop"
    );
    // (HOP-64) + 2*HOP → 2 whole hops, HOP-64 remainder still staged.
    assert_eq!(hops.len(), 2);
    assert_eq!(pending.len(), leftover);
}

#[test]
fn drain_pass_discontinuity_flushes_leftover_without_splicing() {
    let leftover = HOP - 64;
    let mut pending: Vec<CaptureFrame> = (0..leftover).map(|_| tagged_frame(-1.0)).collect();
    let incoming: Vec<CaptureFrame> = (0..HOP * 3).map(|_| tagged_frame(1.0)).collect();
    let last = 3u64;

    // Watermark advanced by one → the callback dropped frames since last pass.
    let (hops, now) = drain_pass(&mut pending, &incoming, last, last + 1);

    assert_eq!(now, last + 1, "watermark carried forward");
    for hop in &hops {
        let first = fl(hop[0].mono);
        assert!(
            hop.iter().all(|f| fl(f.mono) == first),
            "no hop may splice pre-gap and post-gap samples across a capture gap"
        );
        assert_eq!(
            first, 1.0,
            "after the discontinuity flush only post-gap audio is analyzed"
        );
    }
    // Pre-gap leftover flushed → exactly the 3 whole post-gap hops remain.
    assert_eq!(hops.len(), 3);
    assert!(pending.is_empty());
}

#[test]
fn backlog_is_shed_to_the_newest_frames() {
    let mut pending: Vec<usize> = (0..100).collect();
    let incoming: Vec<usize> = (100..FFT_LEN * 8 + 1).collect();
    let (hops, _) = drain_pass(&mut pending, &incoming, 0, 0);
    let kept: Vec<usize> = hops.concat();
    let end = FFT_LEN * 8 + 1;
    assert_eq!(kept[0], end - FFT_LEN * 4);
    assert_eq!(kept.len() + pending.len(), FFT_LEN * 4);
    assert_eq!(kept.len() % HOP, 0);
}

fn push_block(stager: &mut HopStager<u32>, block: &[u32]) -> Vec<Vec<u32>> {
    let mut hops = Vec::new();
    for &frame in block {
        if stager.push(frame) {
            while let Some(hop) = stager.next_hop() {
                hops.push(hop);
            }
        }
    }
    while let Some(hop) = stager.next_hop() {
        hops.push(hop);
    }
    hops
}

#[test]
fn large_block_drains_every_hop_without_trimming() {
    let mut stager = HopStager::new(0u32);
    let block = FFT_LEN * 32; // 65,536 frames
    let ch: Vec<u32> = (0..block as u32).collect();
    let hops = push_block(&mut stager, &ch);

    let expected = (block / HOP) as u64; // 128
    assert_eq!(stager.hops_processed(), expected);
    assert_eq!(hops.concat(), ch, "samples were trimmed");
    // Staging must be left below one hop — nothing buffered, nothing dropped.
    assert!(stager.pending().len() < HOP);
    assert_eq!(stager.window(), &ch[block - FFT_LEN..]);
}

#[test]
fn eager_drain_matches_chunked_push() {
    let total = FFT_LEN * 20;
    let signal: Vec<u32> = (0..total as u32).collect();

    let mut whole = HopStager::new(0u32);
    let whole_hops = push_block(&mut whole, &signal);

    let mut chunked = HopStager::new(0u32);
    let mut chunked_hops = Vec::new();
    for chunk in signal.chunks(333) {
        chunked_hops.extend(push_block(&mut chunked, chunk));
    }

    assert_eq!(
        whole.hops_processed(),
        chunked.hops_processed(),
        "hop counts must match regardless of push granularity"
    );
    assert_eq!(whole_hops, chunked_hops);
    assert_eq!(whole.window(), chunked.window());
}

#[test]
fn pushed_blocks_give_the_windows_of_the_whole() {
    let signal: Vec<u32> = (1..=(FFT_LEN as u32 * 5 + 77)).collect();
    let mut whole = HopStager::new(0u32);
    assert!(whole.push_block(&signal[..HOP - 1]).is_empty());
    let mut whole = HopStager::new(0u32);
    let expected = whole.push_block(&signal);
    assert_eq!(expected.len(), signal.len() / HOP);
    assert_eq!(expected[0][FFT_LEN - HOP..], signal[..HOP]);
    assert_eq!(expected[0][FFT_LEN - HOP - 1], 0);
    assert_eq!(expected[7], signal[HOP * 8 - FFT_LEN..HOP * 8]);
    assert_eq!(whole.pending(), &signal[signal.len() - signal.len() % HOP..]);
    for size in [1, 333, HOP, FFT_LEN * 4] {
        let mut cut = HopStager::new(0u32);
        let windows: Vec<Vec<u32>> = signal
            .chunks(size)
            .flat_map(|part| cut.push_block(part))
            .collect();
        assert_eq!(windows, expected);
        assert_eq!(cut.pending(), whole.pending());
        assert_eq!(cut.window(), whole.window());
        assert_eq!(cut.hops_processed(), whole.hops_processed());
    }
}

#[test]
fn window_slides_by_whole_hops() {
    let mut stager = HopStager::new(7u32);
    assert_eq!(stager.window(), vec![7; FFT_LEN].as_slice());
    assert!(push_block(&mut stager, &vec![1; HOP - 1]).is_empty());
    assert_eq!(stager.window(), vec![7; FFT_LEN].as_slice());
    assert_eq!(push_block(&mut stager, &[2]).len(), 1);
    assert_eq!(stager.window()[FFT_LEN - HOP - 1..FFT_LEN - HOP + 1], [7, 1]);
    assert_eq!(stager.window()[FFT_LEN - 1], 2);
}

#[test]
fn analyzer_push_interleaved_sanitizes_and_clips_samples() {
    let pending = interleaved_pairs(&lvs(&[2.0, f32::NAN, -3.0, 0.25]), 2);
    let mono = |p: (Level, Level)| 0.5 * (fl(p.0) + fl(p.1));

    assert_eq!(pending.len(), 2);
    assert_eq!(fl(pending[0].0), 1.0);
    assert_eq!(fl(pending[0].1), 0.0);
    assert_eq!(mono(pending[0]), 0.5);
    assert_eq!(fl(pending[1].0), -1.0);
    assert_eq!(fl(pending[1].1), 0.25);
    assert_eq!(mono(pending[1]), -0.375);
}

#[test]
fn blocks_are_paired_by_channel() {
    let pairs = interleaved_pairs(&lvs(&[0.1, 0.2, 0.3, 0.4, 0.5]), 3);
    assert_eq!(pairs, vec![(lv(0.1), lv(0.2))]);
    let mono = interleaved_pairs(&lvs(&[0.1, 0.2]), 1);
    assert_eq!(mono, vec![(lv(0.1), lv(0.1)), (lv(0.2), lv(0.2))]);
    assert!(interleaved_pairs(&lvs(&[0.1]), 0).is_empty());
    let planar = planar_pairs(&lvs(&[0.1, 9.0, 0.3]), &lvs(&[0.4, f32::INFINITY]));
    assert_eq!(planar, vec![(lv(0.1), lv(0.4)), (lv(1.0), lv(0.0))]);
}

// ---------------------------------------------------------------------------
// Waveforms
// ---------------------------------------------------------------------------

#[test]
fn waveform_full_is_recent_raw_samples_not_peak_buckets() {
    let total = FFT_LEN * 2; // whole hops, window fully primed
    let gen = |i: usize| 0.9 * (std::f32::consts::TAU * 300.0 * i as f32 / 48_000.0).sin();
    let window: Vec<f32> = (total - FFT_LEN..total).map(gen).collect();
    let full = recent_waveform_full(&window, 0.0);
    for (j, &got) in full.iter().enumerate() {
        let want = gen(total - WAVEFORM_SAMPLES_FULL + j);
        assert!(
            (got - want).abs() < 1e-6,
            "waveform_left_full[{j}] = {got}, expected recent raw sample {want}"
        );
    }

    let mut peak_buckets = vec![0.0f32; WAVEFORM_SAMPLES_FULL];
    for (i, dst) in peak_buckets.iter_mut().enumerate() {
        let start = i * FFT_LEN / WAVEFORM_SAMPLES_FULL;
        let end = ((i + 1) * FFT_LEN / WAVEFORM_SAMPLES_FULL).max(start + 1);
        let mut peak = 0.0f32;
        for &s in &window[start..end] {
            if s.abs() > peak.abs() {
                peak = s;
            }
        }
        *dst = peak;
    }
    assert!(
        full != peak_buckets,
        "waveform_full must not equal a peak-bucket decimation"
    );
}

#[test]
fn short_windows_are_padded_in_front() {
    let full = recent_waveform_full(&[1, 2, 3], 0);
    assert_eq!(full.len(), WAVEFORM_SAMPLES_FULL);
    assert_eq!(full[WAVEFORM_SAMPLES_FULL - 4..], [0, 1, 2, 3]);
}

#[test]
fn peak_trace_keeps_sign_and_limits() {
    let mut window = vec![0.0f32; FFT_LEN];
    window[3] = -0.5;
    window[4] = 0.5;
    window[64] = -3.0;
    window[2047] = f32::NAN;
    let trace = fls(&downsample_waveform(&lvs(&window)));
    assert_eq!(trace.len(), WAVEFORM_SAMPLES);
    assert_eq!(trace[0], -0.5);
    assert_eq!(trace[1], -1.0);
    assert_eq!(trace[31], 0.0);
    assert_eq!(fls(&downsample_waveform(&[])), [0.0; WAVEFORM_SAMPLES]);
    let short = fls(&downsample_waveform(&lvs(&[0.25, -0.75])));
    assert_eq!(short[0], 0.25);
    assert_eq!(short[15], 0.25);
    assert_eq!(short[16], -0.75);
}

// ---------------------------------------------------------------------------
// Spectrogram
// ---------------------------------------------------------------------------

#[test]
fn ring_advances_and_newest_is_age_zero() {
    let mut trail = SpectrogramTrail::with_size(8, 16, 0.0f32);
    assert_eq!(trail.filled(), 0);
    assert!(trail.column(0).is_none(), "empty trail has no columns");

    let mut low = vec![0.0f32; 16];
    low[1] = 1.0;
    let mut high = vec![0.0f32; 16];
    high[14] = 1.0;

    trail.push(&low, false);
    assert_eq!(trail.filled(), 1);
    trail.push(&high, false);
    assert_eq!(trail.filled(), 2);

    assert_eq!(trail.column(0).expect("newest column"), high);
    assert_eq!(trail.column(1).expect("previous column"), low);
}

#[test]
fn silence_writes_blank_column() {
    let mut trail = SpectrogramTrail::with_size(4, 16, 0.0f32);
    let mag = vec![1.0f32; 16];
    trail.push(&mag, false);
    trail.push(&mag, true);

    let blank = trail.column(0).expect("blank column");
    assert!(
        blank.iter().all(|&v| v == 0.0),
        "silent column should be all zero: {blank:?}"
    );
}

#[test]
fn ring_wraps_and_caps_history() {
    let frames = 4;
    let mut trail = SpectrogramTrail::with_size(frames, 8, 0u32);
    for i in 0..(frames as u32 * 3) {
        trail.push(&[i; 8], false);
    }
    assert_eq!(trail.filled(), frames, "history caps at `frames`");
    assert!(trail.column(frames).is_none(), "no column beyond capacity");

    let visited = trail.for_each_column();
    assert_eq!(visited.len(), frames);
    assert_eq!(visited, vec![&[11u32; 8][..], &[10; 8], &[9; 8], &[8; 8]]);
}

#[test]
fn snapshots_show_the_ring() {
    let mut trail = SpectrogramTrail::with_size(3, 2, 0u32);
    let mut early = trail.snapshot();
    for i in 1..=4 {
        trail.push(&[i, i * 10], false);
    }
    assert_eq!(trail.raw_ring(), (&[4, 40, 2, 20, 3, 30][..], 1));
    trail.fill_snapshot(&mut early);
    for snap in [early, trail.snapshot()] {
        assert_eq!(snap.raw_ring(), trail.raw_ring());
        assert_eq!((snap.frames(), snap.bins(), snap.filled()), (3, 2, 3));
        assert_eq!(snap.column(0), Some(&[4, 40][..]));
        assert_eq!(snap.column(2), Some(&[2, 20][..]));
        assert_eq!(snap.column(3), None);
    }
    trail.push(&[], true);
    assert_eq!(trail.raw_ring(), (&[4, 40, 0, 0, 3, 30][..], 2));
    let usual = SpectrogramTrail::new(0u8);
    assert_eq!(usual.raw_ring(), (&[0u8; DEFAULT_FRAMES * DEFAULT_BINS][..], 0));
    assert_eq!((usual.frames(), usual.bins()), (DEFAULT_FRAMES, DEFAULT_BINS));
    let least = SpectrogramTrail::with_size(0, 0, 0u8);
    assert_eq!((least.frames(), least.bins()), (1, 1));
}

// ---------------------------------------------------------------------------
// Histories
// ---------------------------------------------------------------------------

#[test]
fn history_holds_the_last_things() {
    let mut h = History::new(3);
    for i in 0..5 {
        h.push(i);
    }
    assert_eq!(h.in_order(), vec![2, 3, 4]);
    assert_eq!(h.recent(2), vec![4, 3]);
    assert_eq!(h.recent(9), vec![4, 3, 2]);
    assert_eq!(*h.newest(2), 2);
    assert_eq!((h.len(), h.capacity()), (3, 3));
    h.clear();
    h.push(9);
    assert_eq!(h.in_order(), vec![9]);
    assert_eq!(History::<u8>::new(0).capacity(), 1);
}

#[test]
fn checkerboard_takes_the_last_frames() {
    let mut h = History::new(HISTORY);
    for i in 0..14 {
        h.push(i);
        assert_eq!(checkerboard_frames(&h, 99), None);
    }
    h.push(14);
    h.push(15);
    let frames = checkerboard_frames(&h, 99).unwrap();
    assert_eq!(frames.len(), WINDOW * 2);
    assert_eq!(frames[..15], (1..16).collect::<Vec<_>>()[..]);
    assert_eq!(frames[15], 99);
}

#[test]
fn halves_split_newest_first() {
    let mut h = History::new(8);
    for i in 0..3 {
        h.push(i);
    }
    assert_eq!(halves(&h), None);
    h.push(3);
    h.push(4);
    assert_eq!(halves(&h), Some((vec![4, 3], vec![2, 1, 0])));
}

// ---------------------------------------------------------------------------
// Silence gate
// ---------------------------------------------------------------------------

#[test]
fn silence_gate_has_hysteresis() {
    let mut gate = SilenceGate::new(lv(0.01), lv(0.05));
    assert!(gate.update(lv(0.0))); // starts silent
    assert!(gate.update(lv(0.02))); // between thresholds → stays silent
    assert!(!gate.update(lv(0.06))); // above exit → audible
    assert!(!gate.update(lv(0.02))); // between thresholds → stays audible
    assert!(gate.update(lv(0.005))); // below enter → silent again
}

#[test]
fn silence_gives_the_neutral_value() {
    assert_eq!(gated(7, 0, false), 7);
    assert_eq!(gated(7, 0, true), 0);
}

#[test]
fn gate_survives_bad_levels_and_thresholds() {
    let mut gate = SilenceGate::new(lv(0.5), lv(0.1));
    assert!(gate.update(lv(0.4)));
    assert!(!gate.update(lv(0.6)));
    assert!(gate.update(lv(f32::NAN)));
}

// ---------------------------------------------------------------------------
// Onsets
// ---------------------------------------------------------------------------

const MULT: f32 = 1.6;
const FLOOR: f32 = 1e-4;

fn detector() -> OnsetDetector {
    let hop_dt = 256.0 / 48_000.0;
    let refractory = ((60.0f32 * 1e-3) / hop_dt).round().max(1.0) as u32;
    OnsetDetector::new(43, refractory)
}

fn process(d: &mut OnsetDetector, flux: f32, sensitivity: f32) -> bool {
    let sens = sensitivity.clamp(0.05, 5.0);
    let threshold = (fl(d.median()) * MULT / sens).max(FLOOR);
    d.process(lv(flux), lv(threshold))
}

#[test]
fn fires_on_spike_above_quiet_baseline() {
    let mut d = detector();
    // Feed a quiet baseline.
    for _ in 0..50 {
        process(&mut d, 0.01, 1.0);
    }
    // A large spike should fire.
    assert!(process(&mut d, 1.0, 1.0), "expected onset on a 100x spike");
}

#[test]
fn refractory_suppresses_double_trigger() {
    let mut d = detector();
    for _ in 0..50 {
        process(&mut d, 0.01, 1.0);
    }
    let first = process(&mut d, 1.0, 1.0);
    assert!(first);
    // Immediately following hop, even with high flux, must be suppressed.
    let second = process(&mut d, 1.0, 1.0);
    assert!(!second, "refractory window must block immediate retrigger");
}

#[test]
fn refractory_lasts_its_frames() {
    let mut d = OnsetDetector::new(1, 3);
    let fired: Vec<bool> = (0..6).map(|_| d.process(lv(1.0), lv(0.5))).collect();
    assert_eq!(fired, vec![true, false, false, false, true, false]);
}

#[test]
fn steady_loud_signal_does_not_keep_firing() {
    let mut d = detector();
    let mut fires = 0;
    // Steady high flux: the adaptive median rises, so it should NOT fire every hop.
    for _ in 0..200 {
        if process(&mut d, 0.8, 1.0) {
            fires += 1;
        }
    }
    assert!(fires < 50, "steady signal fired too often: {fires}");
}

#[test]
fn median_matches_sort_reference_without_reallocating() {
    let mut d = OnsetDetector::new(37, 11);
    let mut stream: Vec<f32> = Vec::new();
    let mut acc = 0.123_f32;
    for step in 0..400 {
        acc = (acc * 7.0 + 0.31).fract();
        let flux = acc * (1.0 + (step % 5) as f32);

        let start = stream.len().saturating_sub(37);
        let mut buf = stream[start..].to_vec();
        buf.sort_by(|a, b| a.partial_cmp(b).unwrap_or(std::cmp::Ordering::Equal));
        let expected = if buf.is_empty() { 0.0 } else { buf[buf.len() / 2] };
        let got = fl(d.median());
        assert_eq!(
            got, expected,
            "select-based median diverged from the sort reference at step {step}"
        );
        process(&mut d, flux, 1.0);
        stream.push(flux);
    }
}

#[test]
fn higher_sensitivity_fires_more_easily() {
    let mut low = detector();
    let mut high = detector();
    for _ in 0..50 {
        process(&mut low, 0.1, 1.0);
        process(&mut high, 0.1, 1.0);
    }
    let low_fire = process(&mut low, 0.16, 0.3);
    let high_fire = process(&mut high, 0.16, 3.0);
    // With a marginal spike, high sensitivity should fire where low does not.
    assert!(high_fire);
    assert!(!low_fire);
}

// ---------------------------------------------------------------------------
// Median filters
// ---------------------------------------------------------------------------

const TIME_MEDIAN_SECONDS: f32 = 0.16;

fn hpss_history(n_bins: usize, hop_dt: f32) -> HpssHistory {
    let rounded = (TIME_MEDIAN_SECONDS / hop_dt.max(1e-6)).round() as usize;
    HpssHistory::new(n_bins, rounded)
}

#[test]
fn time_median_window_is_fixed_duration_across_rates() {
    let n_bins = 128;
    // Canonical 48 kHz / 512-hop gives a 15-frame window.
    let canonical = hpss_history(n_bins, 512.0 / 48_000.0);
    assert_eq!(canonical.time_window_frames(), 15);

    for &hop_dt in &[512.0 / 96_000.0, 512.0 / 48_000.0, 512.0 / 24_000.0, 0.02] {
        let hist = hpss_history(n_bins, hop_dt);
        let duration = hist.time_window_frames() as f32 * hop_dt;
        assert!(
            (duration - TIME_MEDIAN_SECONDS).abs() < 0.05,
            "window duration {duration} s drifted from {TIME_MEDIAN_SECONDS} s at hop_dt {hop_dt}"
        );
        assert_eq!(hist.time_window_frames() % 2, 1, "window must stay odd");
    }
}

#[test]
fn shared_harm_ref_matches_naive_median_without_reallocating() {
    let n_bins = 64;
    let mut hist = hpss_history(n_bins, 512.0 / 48_000.0);
    let window = hist.time_window_frames();
    let mut frames: Vec<Vec<f32>> = Vec::new();

    for step in 0..80 {
        let frame: Vec<f32> = (0..n_bins)
            .map(|b| ((step * 7 + b * 13) % 17) as f32 * 0.05 + (b as f32 * 0.001))
            .collect();
        hist.advance(&lvs(&frame));
        frames.push(frame);

        let start = frames.len().saturating_sub(window);
        let recent = &frames[start..];
        for bin in 0..n_bins {
            let mut col: Vec<f32> = recent.iter().map(|f| f[bin].max(0.0)).collect();
            col.sort_by(|a, b| a.total_cmp(b));
            let expected = col[col.len() / 2];
            assert_eq!(
                fl(hist.harm_ref()[bin]),
                expected,
                "shared harm_ref diverged at step {step}, bin {bin}"
            );
        }
    }
}

#[test]
fn frequency_median_cleans_its_neighbourhood() {
    let mag = lvs(&[f32::NAN, -4.0, 3.0, 1.0, 2.0]);
    assert_eq!(fl(frequency_median(&mag, 0, 1)), 0.0);
    assert_eq!(fl(frequency_median(&mag, 3, 1)), 2.0);
    assert_eq!(fl(frequency_median(&mag, 2, 9)), 1.0);
    assert_eq!(neighbourhood(1, 3, 10), (0, 5));
    assert_eq!(neighbourhood(9, 3, 10), (6, 10));
    assert_eq!(neighbourhood(0, usize::MAX, 1), (0, 1));
    assert_eq!(
        [0, 1, 2, 5, 9, 1025].map(bus_radius),
        [1, 1, 1, 4, 8, 8]
    );
}

#[test]
fn loudness_range_matches_full_sort_without_reallocating() {
    // Bracketing order statistics of the gated loudness, as the range uses them.
    let lufs_at = |i: usize| -18.0 - 22.0 * ((i % 11) as f32 / 10.0);
    let values: Vec<f32> = (0..2500).map(lufs_at).filter(|&v| v >= -35.0).collect();
    let mut sorted = values.clone();
    sorted.sort_by(|a, b| a.total_cmp(b));
    for p in [0.10f32, 0.95] {
        let pos = p * (values.len() - 1) as f32;
        let (lo, hi) = (pos.floor() as usize, pos.ceil() as usize);
        let (a, b) = bracket(&lvs(&values), lo, hi);
        assert_eq!((fl(a), fl(b)), (sorted[lo], sorted[hi]));
    }
}

// ---------------------------------------------------------------------------
// Bands and transform
// ---------------------------------------------------------------------------

#[test]
fn band_ranges_match_butterchurn() {
    let bucket_hz = 44_100.0f32 / FFT_SIZE as f32;
    let rounded = |hz: f32| (hz / bucket_hz).round() as i64;
    let (starts, stops) = band_ranges(
        rounded(20.0),
        rounded(320.0),
        rounded(2800.0),
        rounded(11025.0),
    );
    assert_eq!(starts, [0, 6, 64], "band starts");
    assert_eq!(stops, [6, 64, 255], "band stops");
}

#[test]
fn band_edges_stay_within_the_spectrum() {
    assert_eq!(band_bin(i64::MIN), 0);
    assert_eq!(band_bin(1), 0);
    assert_eq!(band_bin(512), 511);
    assert_eq!(band_bin(i64::MAX), 511);
    assert_eq!(band_bins(2, 5, 100), (2, 5));
    assert_eq!(band_bins(2, 2, 100), (2, 3));
    assert_eq!(band_bins(200, 300, 100), (99, 200));
    assert_eq!(band_limits(3, 9, 5), (3, 5));
    assert_eq!(band_limits(7, 9, 5), (5, 5));
    assert_eq!(onset_bins(1, 6, 1025), (1, 6));
    assert_eq!(onset_bins(6, 6, 1025), (6, 7));
    assert_eq!(onset_bins(9000, 9000, 1025), (1024, 1025));
}

#[test]
fn bands_above_nyquist_are_unavailable() {
    // 8 kHz → Nyquist 4 kHz. Only the 120/500/2000 Hz crossovers are usable;
    // the 6 kHz crossover is above Nyquist, so the top "air" band is dropped.
    let nyquist = 8_000.0f32 * 0.5;
    let splits = count_leading_below(&lvs(&[120.0, 500.0, 2000.0, 6000.0]), lv(nyquist * 0.95));
    assert_eq!(
        available_bands(true, splits),
        4,
        "3 usable crossovers + remainder = 4 available bands"
    );
    assert_eq!(available_bands(true, 4), 5);
    assert_eq!(available_bands(true, 40), 5);
}

#[test]
fn zero_rate_yields_no_bands() {
    for sr in [0.0f32, -48_000.0, f32::NAN, f32::INFINITY] {
        let valid = is_valid_rate(lv(sr));
        let splits = count_leading_below(&lvs(&[120.0, 500.0, 2000.0, 6000.0]), lv(sr * 0.475));
        assert_eq!(available_bands(valid, splits), 0, "no valid bands at rate {sr}");
    }
    assert_eq!(available_bands(false, 0), 0);
    assert_eq!(available_bands(false, 4), 0);
}

#[test]
fn rates_are_finite_and_positive() {
    for rate in [8_000.0f32, 48_000.0, f32::MIN_POSITIVE, 1e-40, f32::MAX] {
        assert!(is_valid_rate(lv(rate)), "{rate}");
    }
    for rate in [0.0f32, -0.0, -48_000.0, f32::NAN, f32::INFINITY, f32::NEG_INFINITY] {
        assert!(!is_valid_rate(lv(rate)), "{rate}");
    }
}

#[test]
fn bit_reversal_reverses_bits() {
    let table = bit_reversal_table(FFT_BITS);
    assert_eq!(table.len(), FFT_SIZE);
    for (i, &r) in table.iter().enumerate() {
        assert_eq!(r as u32, (i as u32).reverse_bits() >> (32 - FFT_BITS));
        assert_eq!(table[r], i);
    }
    assert_eq!(bit_reversal_table(0), vec![0]);
    assert_eq!(bit_reversal_table(3), vec![0, 4, 2, 6, 1, 5, 3, 7]);
    assert_eq!(
        load_order(&[10, 11, 12, 13, 14, 15], &bit_reversal_table(3), 0),
        vec![10, 14, 12, 0, 11, 15, 13, 0]
    );
}

#[test]
fn butterflies_follow_the_stages() {
    let stage: Vec<(usize, usize, usize)> = butterflies(2, 2)
        .iter()
        .map(|b| (b.twiddle, b.upper, b.lower))
        .collect();
    assert_eq!(stage, vec![(0, 0, 2), (0, 4, 6), (1, 1, 3), (1, 5, 7)]);
    let mut seen = vec![0; FFT_SIZE];
    for b in butterflies(64, 8) {
        seen[b.upper] += 1;
        seen[b.lower] += 1;
    }
    assert!(seen.iter().all(|&n| n == 1));
}

#[test]
fn bytes_become_signed_samples() {
    let out = signed_samples(&[0, 128, 255]);
    assert_eq!(out.len(), FFT_SIZE);
    assert_eq!(out[..4], [-128, 0, 127, 0]);
}

#[test]
fn frame_rates_are_limited() {
    for (fps, expected) in [
        (60.0, 60.0),
        (15.0, 15.0),
        (3.0, 15.0),
        (1000.0, 144.0),
        (f32::NAN, 15.0),
        (f32::INFINITY, 15.0),
    ] {
        assert_eq!(fl(effective_fps(lv(fps))), expected);
    }
    assert!(is_warming_up(49));
    assert!(!is_warming_up(50));
}

// ---------------------------------------------------------------------------
// Tempo
// ---------------------------------------------------------------------------

#[test]
fn tempo_is_estimated_on_schedule() {
    let mut clock = EstimateClock::new(2);
    assert!(!clock.tick(9, 10));
    assert!(clock.tick(9, 10));
    assert!(!clock.tick(4, 10));
    assert!(!clock.tick(4, 10));
    assert!(clock.tick(5, 10));
}

#[test]
fn lags_of_the_beat() {
    assert_eq!(lag_bounds(28, 94, 375), (28, 94));
    assert_eq!(lag_bounds(28, 94, 100), (28, 50));
    assert_eq!(lag_bounds(0, 0, 100), (1, 2));
    assert_eq!(best_lag(&lvs(&[0.1, 0.4, 0.4, -1.0]), 28), Some(29));
    assert_eq!(best_lag(&lvs(&[0.0, -0.4]), 28), None);
    assert_eq!(octave_lags(30, 94), (30, 15, 60));
    assert_eq!(octave_lags(50, 94), (50, 25, 94));
    assert!(is_onset_peak(lv(0.1), lv(0.3), lv(0.3), lv(1e-4)));
    assert!(!is_onset_peak(lv(0.3), lv(0.3), lv(0.1), lv(1e-4)));
    assert!(!is_onset_peak(lv(0.0), lv(1e-5), lv(0.0), lv(1e-4)));
}

#[test]
fn bar_positions_rotate() {
    let mut pos = 0;
    for expected in [1, 2, 3, 0, 1] {
        pos = next_beat(pos);
        assert_eq!(pos, expected);
    }
    assert_eq!([0, 1, 2, 3].map(position_before), [3, 0, 1, 2]);
    let (best, second) = best_position(&lvs(&[0.2, 0.5, 0.1, 0.2]));
    assert_eq!((best, fl(second)), (1, 0.2));
    for (likelihoods, expected) in [
        ([0.5, 0.5, 0.1, 0.2], (0, 0.5)),
        ([0.5, -0.2, -0.1, f32::NAN], (0, 0.0)),
        ([-1.0, -0.5, -0.7, -2.0], (1, -0.7)),
        ([0.0, 0.0, 0.0, 0.0], (0, 0.0)),
        ([f32::NAN, 0.5, 0.9, 0.1], (0, 0.9)),
        ([0.1, f32::NAN, 0.3, 0.2], (2, 0.2)),
    ] {
        let (best, second) = best_position(&lvs(&likelihoods));
        assert_eq!((best, fl(second)), expected, "{likelihoods:?}");
    }
    assert_eq!(metrical_position(true, 2, 7), 2);
    assert_eq!(metrical_position(false, 2, 7), 3);
}

// ---------------------------------------------------------------------------
// Harmony
// ---------------------------------------------------------------------------

const KS_MAJOR: [f32; CHROMA_BINS] = [
    6.35, 2.23, 3.48, 2.33, 4.38, 4.09, 2.52, 5.19, 2.39, 3.66, 2.29, 2.88,
];
const KS_MINOR: [f32; CHROMA_BINS] = [
    6.33, 2.68, 3.52, 5.38, 2.60, 3.53, 2.54, 4.75, 3.98, 2.69, 3.34, 3.17,
];

fn pearson(chroma: &[f32; CHROMA_BINS], profile: &[f32; CHROMA_BINS], root: usize) -> f32 {
    let chroma_mean = chroma.iter().sum::<f32>() / CHROMA_BINS as f32;
    let profile_mean = profile.iter().sum::<f32>() / CHROMA_BINS as f32;
    let (mut num, mut den_a, mut den_b) = (0.0f32, 0.0f32, 0.0f32);
    for i in 0..CHROMA_BINS {
        let a = chroma[(root + i) % CHROMA_BINS] - chroma_mean;
        let b = profile[i] - profile_mean;
        num += a * b;
        den_a += a * a;
        den_b += b * b;
    }
    (num / (den_a * den_b).sqrt()).clamp(-1.0, 1.0)
}

fn estimate(
    chroma: &[f32; CHROMA_BINS],
    major: &[f32; CHROMA_BINS],
    minor: &[f32; CHROMA_BINS],
) -> (usize, bool, f32) {
    let mut scores = Vec::new();
    for root in 0..CHROMA_BINS {
        scores.push(lv(pearson(chroma, major, root)));
        scores.push(lv(pearson(chroma, minor, root)));
    }
    let choice = estimate_from_profiles(&scores);
    let separation = (fl(choice.best) - fl(choice.second)).max(0.0);
    (choice.root, choice.is_minor, (separation * 2.5).clamp(0.0, 1.0))
}

#[test]
fn key_estimate_separates_major_and_minor_triads() {
    let mut c_major = [0.0f32; CHROMA_BINS];
    c_major[0] = 1.0;
    c_major[4] = 0.85;
    c_major[7] = 0.8;
    let (root, is_minor, confidence) = estimate(&c_major, &KS_MAJOR, &KS_MINOR);
    assert_eq!(root, 0);
    assert!(!is_minor);
    assert!(confidence > 0.1, "confidence={confidence}");

    let mut a_minor = [0.0f32; CHROMA_BINS];
    a_minor[9] = 1.0;
    a_minor[0] = 0.85;
    a_minor[4] = 0.8;
    let (root, is_minor, confidence) = estimate(&a_minor, &KS_MAJOR, &KS_MINOR);
    assert_eq!(root, 9);
    assert!(is_minor);
    assert!(confidence > 0.1, "confidence={confidence}");
}

fn triad_profile(third: usize) -> [f32; CHROMA_BINS] {
    let mut out = [0.0f32; CHROMA_BINS];
    out[0] = 1.0;
    out[third] = 0.92;
    out[7] = 0.88;
    out
}

#[test]
fn chord_estimate_tracks_triad_root_and_quality() {
    let mut g_major = [0.0f32; CHROMA_BINS];
    g_major[7] = 1.0;
    g_major[11] = 0.9;
    g_major[2] = 0.85;
    let (root, is_minor, confidence) = estimate(&g_major, &triad_profile(4), &triad_profile(3));
    assert_eq!(root, 7);
    assert!(!is_minor);
    assert!(confidence > 0.2, "confidence={confidence}");

    let mut d_minor = [0.0f32; CHROMA_BINS];
    d_minor[2] = 1.0;
    d_minor[5] = 0.9;
    d_minor[9] = 0.85;
    let (root, is_minor, confidence) = estimate(&d_minor, &triad_profile(4), &triad_profile(3));
    assert_eq!(root, 2);
    assert!(is_minor);
    assert!(confidence > 0.2, "confidence={confidence}");
}

#[test]
fn key_states_are_major_then_minor() {
    let mut scores = vec![lv(-1.0); 24];
    scores[19] = lv(0.0);
    let choice = estimate_from_state_scores(&scores);
    assert_eq!((choice.root, choice.is_minor), (7, true));
    assert_eq!(fl(choice.second), -1.0);
    let none = estimate_from_state_scores(&[]);
    assert_eq!((none.state, none.root, none.is_minor), (None, 0, false));
    assert_eq!(transition_steps(0, 7), (5, false));
    assert_eq!(transition_steps(11, 12), (1, true));
    assert_eq!(transition_steps(14, 14), (0, false));
    assert_eq!([-13, -12, -1, 0, 11, 69].map(pitch_class), [11, 0, 11, 0, 11, 9]);
}

fn sine(hz: f32, sample_rate: f32, n: usize) -> Vec<f32> {
    (0..n)
        .map(|i| (2.0 * std::f32::consts::PI * hz * i as f32 / sample_rate).sin() * 0.75)
        .collect()
}

fn nsdf_at(samples: &[f32], mean: f32, tau: usize) -> f32 {
    if tau == 0 || tau >= samples.len() {
        return 0.0;
    }
    let (mut ac, mut energy) = (0.0f32, 0.0f32);
    for i in 0..(samples.len() - tau) {
        let a = samples[i] - mean;
        let b = samples[i + tau] - mean;
        ac += a * b;
        energy += a * a + b * b;
    }
    if energy <= 1e-12 {
        0.0
    } else {
        (2.0 * ac / energy).clamp(-1.0, 1.0)
    }
}

fn estimate_mono_pitch(samples: &[f32], sample_rate: f32, lo_hz: f32, hi_hz: f32) -> (f32, f32) {
    let Some(0) = pitch_window(samples.len(), samples.len()) else {
        return (0.0, 0.0);
    };
    let n = samples.len();
    let highest = (sample_rate / hi_hz).round() as usize;
    let lowest = (sample_rate / lo_hz).round() as usize;
    let Some((min_tau, max_tau)) = pitch_lags(highest, lowest, n) else {
        return (0.0, 0.0);
    };
    let mean = samples.iter().sum::<f32>() / n as f32;
    let nsdf: Vec<f32> = (0..=max_tau).map(|t| nsdf_at(samples, mean, t)).collect();
    let scan = nsdf_peak_pick(&lvs(&nsdf), min_tau, max_tau, lv(0.72));
    if scan.best_tau == 0 || fl(scan.best_peak) < 0.45 {
        return (0.0, 0.0);
    }
    let close = fl(scan.first_strong_peak) >= fl(scan.best_peak) * 0.88;
    let tau = chosen_tau(&scan, close);
    let (left, center, right) = (nsdf[tau - 1], nsdf[tau], nsdf[(tau + 1).min(max_tau)]);
    let denom = left - 2.0 * center + right;
    let offset = if denom.abs() > 1e-6 {
        (0.5 * (left - right) / denom).clamp(-0.5, 0.5)
    } else {
        0.0
    };
    (sample_rate / (tau as f32 + offset), center)
}

#[test]
fn mono_pitch_estimates_sine_fundamental() {
    let sample_rate = 48_000.0;
    let (hz, peak) = estimate_mono_pitch(&sine(220.0, sample_rate, 2048), sample_rate, 45.0, 1600.0);
    assert!((hz - 220.0).abs() < 2.0, "expected ~220 Hz, got {hz}");
    assert!(((peak - 0.45) / 0.5).clamp(0.0, 1.0) > 0.85);
}

#[test]
fn mono_pitch_prefers_first_strong_peak_over_octave() {
    let sample_rate = 48_000.0;
    let (hz, _) = estimate_mono_pitch(&sine(440.0, sample_rate, 2048), sample_rate, 45.0, 1600.0);
    assert!((hz - 440.0).abs() < 4.0, "expected ~440 Hz, got {hz}");
}

#[test]
fn mono_pitch_rejects_silence() {
    let pitch = estimate_mono_pitch(&[0.0; 2048], 48_000.0, 45.0, 1600.0);
    assert_eq!(pitch, (0.0, 0.0));
}

#[test]
fn pitch_search_is_bounded() {
    assert_eq!(pitch_window(8192, 2048), Some(6144));
    assert_eq!(pitch_window(31, 2048), None);
    assert_eq!(pitch_lags(30, 1067, 2048), Some((30, 1024)));
    assert_eq!(pitch_lags(0, 5, 64), Some((2, 5)));
    assert_eq!(pitch_lags(30, 32, 2048), None);
}

// ---------------------------------------------------------------------------
// Snapshots
// ---------------------------------------------------------------------------

#[test]
fn resting_snapshot() {
    let f = Features::resting(0.0f32, 1.0);
    assert_eq!(f.bass, 0.0);
    assert_eq!(f.bass_react, 1.0);
    assert_eq!(f.vol_react_att, 1.0);
    assert_eq!(f.is_silent, 0.0);
    assert!(f.freq_spectrum.iter().all(|&v| v == 0.0));
}

#[test]
fn snapshot_shows_what_was_found() {
    let array32 = |base: u32| -> [u32; 32] { std::array::from_fn(|i| base + i as u32) };
    let array512 = |base: u32| -> [u32; 512] { std::array::from_fn(|i| base + i as u32) };
    let parts = HopParts {
        is_silent: true,
        bands: MacroBands {
            sub_bass: 10,
            low_mid: 11,
            presence: 12,
        },
        milkdrop: AudioLevels {
            bass: 20,
            mid: 21,
            treb: 22,
            bass_att: 23,
            mid_att: 24,
            treb_att: 25,
            vol: 26,
            vol_att: 27,
        },
        tempo: TempoOut {
            bpm: 30,
            beat_phase: 31,
            bar_phase: 32,
            beat_impulse: 33,
            confidence: 34,
        },
        hpss: HpssFeatures {
            perc_rms: 40,
            perc_flux: 41,
            perc_onset: 42,
            perc_ratio: 43,
            harm_rms: 44,
            harm_flux: 45,
            harm_brightness: 46,
            harm_ratio: 47,
        },
        bus: HpssLevels {
            harmonic_level: 50,
            percussive_level: 51,
            harmonic_ratio: 52,
            percussive_ratio: 53,
        },
        crossover: LrBands {
            sub: 60,
            low: 61,
            mid: 62,
            high: 63,
            air: 64,
        },
        structure: StructureFeatures {
            novelty: 70,
            change: 71,
            confidence: 72,
        },
        loudness: Loudness {
            momentary: 80,
            short: 81,
            build: 82,
            range: 83,
        },
        key: TonalRail {
            root: 90,
            is_minor: true,
            confidence: 91,
        },
        chord: TonalRail {
            root: 92,
            is_minor: false,
            confidence: 93,
        },
        dynamics: Dynamics {
            rms_level: 100,
            brightness: 101,
            flux: 102,
            rolloff: 103,
            spectral_flatness: 104,
            spectral_spread: 105,
            spectral_contrast: 106,
            superflux: 107,
            superflux_onset: 108,
            kick_onset: 109,
            snare_onset: 110,
            hat_onset: 111,
            complex_onset: 112,
            drop_anticipation: 113,
            pitch_hz: 114,
            pitch_norm: 115,
            pitch_confidence: 116,
            harmony_hue: 117,
            harmony_mood: 118,
            vol_react: 119,
            vol_react_att: 120,
        },
        arrays: Arrays {
            spectrum: array32(1000),
            chroma: std::array::from_fn(|i| 1100 + i as u32),
            waveform_left: array32(1200),
            waveform_right: array32(1300),
            freq_spectrum: array512(2000),
            waveform_left_full: array512(3000),
            waveform_right_full: array512(4000),
            react: [130, 131, 132],
            react_att: [133, 134, 135],
        },
    };
    let f = Features::compose(parts, 0u32, 1u32);
    assert_eq!((f.sub_bass, f.low_mid, f.presence), (10, 11, 12));
    assert_eq!((f.bass, f.mid, f.air), (20, 21, 22));
    assert_eq!((f.bass_att, f.mid_att, f.treb_att, f.vol_att), (23, 24, 25, 27));
    assert_eq!((f.bpm, f.beat_phase, f.bar_phase), (30, 31, 32));
    assert_eq!((f.beat_impulse, f.beat_confidence), (33, 34));
    assert_eq!((f.perc_rms, f.perc_ratio, f.harm_ratio), (40, 43, 47));
    assert_eq!((f.harmonic_level, f.percussive_ratio), (50, 53));
    assert_eq!((f.lr_sub, f.lr_low, f.lr_mid, f.lr_high, f.lr_air), (60, 61, 62, 63, 64));
    assert_eq!((f.structure_novelty, f.structure_change), (70, 71));
    assert_eq!((f.lufs_momentary, f.lufs_short), (80, 81));
    assert_eq!((f.loudness_build, f.lufs_range), (82, 83));
    assert_eq!((f.key_root, f.key_is_minor, f.key_confidence), (90, 1, 91));
    assert_eq!((f.chord_root, f.chord_is_minor, f.chord_confidence), (92, 0, 93));
    assert_eq!((f.is_silent, f.rms_level, f.vol_react_att), (1, 100, 120));
    assert_eq!((f.bass_react, f.treb_react, f.bass_react_att), (130, 132, 133));
    assert_eq!((f.spectrum[31], f.chroma[11]), (1031, 1111));
    assert_eq!((f.freq_spectrum[511], f.waveform_right_full[0]), (2511, 4000));
}

#[test]
fn roots_lie_on_a_circle() {
    for a in 0..24 {
        for b in 0..24 {
            let (ab, mode) = transition_steps(a, b);
            assert_eq!((ab, mode), transition_steps(b, a));
            assert!(ab <= 6);
            for c in 0..24 {
                assert!(ab <= transition_steps(a, c).0 + transition_steps(c, b).0);
            }
        }
    }
}
