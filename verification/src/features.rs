//! One snapshot of the analysis.

use vstd::prelude::*;

verus! {

/// The analysis of one hop. `T` is the type of a level.
#[derive(Copy, Debug)]
pub struct Features<T> {
    // The bands.
    pub sub_bass: T,
    pub bass: T,
    pub low_mid: T,
    pub mid: T,
    pub presence: T,
    pub air: T,
    // Dynamics.
    pub rms_level: T,
    pub brightness: T,
    pub flux: T,
    pub rolloff: T,
    pub lufs_momentary: T,
    pub lufs_short: T,
    pub loudness_build: T,
    pub lufs_range: T,
    pub spectral_flatness: T,
    pub spectral_spread: T,
    pub spectral_contrast: T,
    pub superflux: T,
    pub superflux_onset: T,
    // Transients.
    pub kick_onset: T,
    pub snare_onset: T,
    pub hat_onset: T,
    pub beat_confidence: T,
    // Tempo.
    pub beat_phase: T,
    pub bar_phase: T,
    pub bpm: T,
    pub beat_impulse: T,
    // The silence gate: one while silent.
    pub is_silent: T,
    // Spectrum and harmony.
    pub spectrum: [T; 32],
    pub chroma: [T; 12],
    pub key_root: T,
    pub key_is_minor: T,
    pub key_confidence: T,
    pub chord_root: T,
    pub chord_is_minor: T,
    pub chord_confidence: T,
    pub harmony_hue: T,
    pub harmony_mood: T,
    // Waveform traces.
    pub waveform_left: [T; 32],
    pub waveform_right: [T; 32],
    // Percussive and harmonic parts.
    pub perc_rms: T,
    pub perc_flux: T,
    pub perc_onset: T,
    pub perc_ratio: T,
    pub harm_rms: T,
    pub harm_flux: T,
    pub harm_brightness: T,
    pub harm_ratio: T,
    // MilkDrop slow followers.
    pub bass_att: T,
    pub mid_att: T,
    pub treb_att: T,
    pub vol_att: T,
    // Phase-aware onsets and the crossover bank.
    pub complex_onset: T,
    pub lr_sub: T,
    pub lr_low: T,
    pub lr_mid: T,
    pub lr_high: T,
    pub lr_air: T,
    // Build-ups.
    pub drop_anticipation: T,
    // The dual bus.
    pub harmonic_level: T,
    pub percussive_level: T,
    pub harmonic_ratio: T,
    pub percussive_ratio: T,
    // Pitch.
    pub pitch_hz: T,
    pub pitch_norm: T,
    pub pitch_confidence: T,
    // Structure.
    pub structure_novelty: T,
    pub structure_change: T,
    pub structure_confidence: T,
    // Levels against their long-term average.
    pub bass_react: T,
    pub mid_react: T,
    pub treb_react: T,
    pub bass_react_att: T,
    pub mid_react_att: T,
    pub treb_react_att: T,
    pub vol_react: T,
    pub vol_react_att: T,
    // Full-resolution arrays.
    pub freq_spectrum: [T; 512],
    pub waveform_left_full: [T; 512],
    pub waveform_right_full: [T; 512],
}

impl<T: Copy> Clone for Features<T> {
    fn clone(&self) -> (out: Self)
        ensures
            out == *self,
    {
        *self
    }
}

/// Every element of `s` is `x`.
pub open spec fn all_are<T>(s: Seq<T>, x: T) -> bool {
    forall|i: int| 0 <= i < s.len() ==> #[trigger] s[i] == x
}

impl<T> Features<T> {
    /// Nothing is heard: every level is `zero`, but the levels that are measured
    /// against their own average stand at it, which is `one`.
    pub open spec fn is_resting(self, zero: T, one: T) -> bool {
        &&& self.sub_bass == zero
        &&& self.bass == zero
        &&& self.low_mid == zero
        &&& self.mid == zero
        &&& self.presence == zero
        &&& self.air == zero
        &&& self.rms_level == zero
        &&& self.brightness == zero
        &&& self.flux == zero
        &&& self.rolloff == zero
        &&& self.lufs_momentary == zero
        &&& self.lufs_short == zero
        &&& self.loudness_build == zero
        &&& self.lufs_range == zero
        &&& self.spectral_flatness == zero
        &&& self.spectral_spread == zero
        &&& self.spectral_contrast == zero
        &&& self.superflux == zero
        &&& self.superflux_onset == zero
        &&& self.kick_onset == zero
        &&& self.snare_onset == zero
        &&& self.hat_onset == zero
        &&& self.beat_confidence == zero
        &&& self.beat_phase == zero
        &&& self.bar_phase == zero
        &&& self.bpm == zero
        &&& self.beat_impulse == zero
        &&& self.is_silent == zero
        &&& all_are(self.spectrum@, zero)
        &&& all_are(self.chroma@, zero)
        &&& self.key_root == zero
        &&& self.key_is_minor == zero
        &&& self.key_confidence == zero
        &&& self.chord_root == zero
        &&& self.chord_is_minor == zero
        &&& self.chord_confidence == zero
        &&& self.harmony_hue == zero
        &&& self.harmony_mood == zero
        &&& all_are(self.waveform_left@, zero)
        &&& all_are(self.waveform_right@, zero)
        &&& self.perc_rms == zero
        &&& self.perc_flux == zero
        &&& self.perc_onset == zero
        &&& self.perc_ratio == zero
        &&& self.harm_rms == zero
        &&& self.harm_flux == zero
        &&& self.harm_brightness == zero
        &&& self.harm_ratio == zero
        &&& self.bass_att == zero
        &&& self.mid_att == zero
        &&& self.treb_att == zero
        &&& self.vol_att == zero
        &&& self.complex_onset == zero
        &&& self.lr_sub == zero
        &&& self.lr_low == zero
        &&& self.lr_mid == zero
        &&& self.lr_high == zero
        &&& self.lr_air == zero
        &&& self.drop_anticipation == zero
        &&& self.harmonic_level == zero
        &&& self.percussive_level == zero
        &&& self.harmonic_ratio == zero
        &&& self.percussive_ratio == zero
        &&& self.pitch_hz == zero
        &&& self.pitch_norm == zero
        &&& self.pitch_confidence == zero
        &&& self.structure_novelty == zero
        &&& self.structure_change == zero
        &&& self.structure_confidence == zero
        &&& self.bass_react == one
        &&& self.mid_react == one
        &&& self.treb_react == one
        &&& self.bass_react_att == one
        &&& self.mid_react_att == one
        &&& self.treb_react_att == one
        &&& self.vol_react == one
        &&& self.vol_react_att == one
        &&& all_are(self.freq_spectrum@, zero)
        &&& all_are(self.waveform_left_full@, zero)
        &&& all_are(self.waveform_right_full@, zero)
    }
}

impl<T: Copy> Features<T> {
    /// The snapshot before anything is heard.
    pub fn resting(zero: T, one: T) -> (out: Self)
        ensures
            out.is_resting(zero, one),
    {
        Features {
            sub_bass: zero,
            bass: zero,
            low_mid: zero,
            mid: zero,
            presence: zero,
            air: zero,
            rms_level: zero,
            brightness: zero,
            flux: zero,
            rolloff: zero,
            lufs_momentary: zero,
            lufs_short: zero,
            loudness_build: zero,
            lufs_range: zero,
            spectral_flatness: zero,
            spectral_spread: zero,
            spectral_contrast: zero,
            superflux: zero,
            superflux_onset: zero,
            kick_onset: zero,
            snare_onset: zero,
            hat_onset: zero,
            beat_confidence: zero,
            beat_phase: zero,
            bar_phase: zero,
            bpm: zero,
            beat_impulse: zero,
            is_silent: zero,
            spectrum: [zero; 32],
            chroma: [zero; 12],
            key_root: zero,
            key_is_minor: zero,
            key_confidence: zero,
            chord_root: zero,
            chord_is_minor: zero,
            chord_confidence: zero,
            harmony_hue: zero,
            harmony_mood: zero,
            waveform_left: [zero; 32],
            waveform_right: [zero; 32],
            perc_rms: zero,
            perc_flux: zero,
            perc_onset: zero,
            perc_ratio: zero,
            harm_rms: zero,
            harm_flux: zero,
            harm_brightness: zero,
            harm_ratio: zero,
            bass_att: zero,
            mid_att: zero,
            treb_att: zero,
            vol_att: zero,
            complex_onset: zero,
            lr_sub: zero,
            lr_low: zero,
            lr_mid: zero,
            lr_high: zero,
            lr_air: zero,
            drop_anticipation: zero,
            harmonic_level: zero,
            percussive_level: zero,
            harmonic_ratio: zero,
            percussive_ratio: zero,
            pitch_hz: zero,
            pitch_norm: zero,
            pitch_confidence: zero,
            structure_novelty: zero,
            structure_change: zero,
            structure_confidence: zero,
            bass_react: one,
            mid_react: one,
            treb_react: one,
            bass_react_att: one,
            mid_react_att: one,
            treb_react_att: one,
            vol_react: one,
            vol_react_att: one,
            freq_spectrum: [zero; 512],
            waveform_left_full: [zero; 512],
            waveform_right_full: [zero; 512],
        }
    }
}

// ---------------------------------------------------------------------------
// Composition
// ---------------------------------------------------------------------------
/// The MilkDrop levels of one hop.
#[derive(Clone, Copy, Debug)]
pub struct AudioLevels<T> {
    pub bass: T,
    pub mid: T,
    pub treb: T,
    pub bass_att: T,
    pub mid_att: T,
    pub treb_att: T,
    pub vol: T,
    pub vol_att: T,
}

/// The beat of one hop.
#[derive(Clone, Copy, Debug)]
pub struct TempoOut<T> {
    pub bpm: T,
    pub beat_phase: T,
    pub bar_phase: T,
    pub beat_impulse: T,
    pub confidence: T,
}

/// The percussive and harmonic parts of one hop.
#[derive(Clone, Copy, Debug)]
pub struct HpssFeatures<T> {
    pub perc_rms: T,
    pub perc_flux: T,
    pub perc_onset: T,
    pub perc_ratio: T,
    pub harm_rms: T,
    pub harm_flux: T,
    pub harm_brightness: T,
    pub harm_ratio: T,
}

/// The dual bus of one hop.
#[derive(Clone, Copy, Debug)]
pub struct HpssLevels<T> {
    pub harmonic_level: T,
    pub percussive_level: T,
    pub harmonic_ratio: T,
    pub percussive_ratio: T,
}

/// The crossover bank of one hop.
#[derive(Clone, Copy, Debug)]
pub struct LrBands<T> {
    pub sub: T,
    pub low: T,
    pub mid: T,
    pub high: T,
    pub air: T,
}

/// The structure of one hop.
#[derive(Clone, Copy, Debug)]
pub struct StructureFeatures<T> {
    pub novelty: T,
    pub change: T,
    pub confidence: T,
}

/// The levels of the bands that are measured on the plain spectrum.
#[derive(Clone, Copy, Debug)]
pub struct MacroBands<T> {
    pub sub_bass: T,
    pub low_mid: T,
    pub presence: T,
}

/// The loudness of one hop.
#[derive(Clone, Copy, Debug)]
pub struct Loudness<T> {
    pub momentary: T,
    pub short: T,
    pub build: T,
    pub range: T,
}

/// A key or a chord, with its root as a part of the circle of twelve.
#[derive(Clone, Copy, Debug)]
pub struct TonalRail<T> {
    pub root: T,
    pub is_minor: bool,
    pub confidence: T,
}

/// The spectral dynamics and the onsets of one hop.
#[derive(Clone, Copy, Debug)]
pub struct Dynamics<T> {
    pub rms_level: T,
    pub brightness: T,
    pub flux: T,
    pub rolloff: T,
    pub spectral_flatness: T,
    pub spectral_spread: T,
    pub spectral_contrast: T,
    pub superflux: T,
    pub superflux_onset: T,
    pub kick_onset: T,
    pub snare_onset: T,
    pub hat_onset: T,
    pub complex_onset: T,
    pub drop_anticipation: T,
    pub pitch_hz: T,
    pub pitch_norm: T,
    pub pitch_confidence: T,
    pub harmony_hue: T,
    pub harmony_mood: T,
    pub vol_react: T,
    pub vol_react_att: T,
}

/// The arrays of one hop.
#[derive(Copy, Debug)]
pub struct Arrays<T> {
    pub spectrum: [T; 32],
    pub chroma: [T; 12],
    pub waveform_left: [T; 32],
    pub waveform_right: [T; 32],
    pub freq_spectrum: [T; 512],
    pub waveform_left_full: [T; 512],
    pub waveform_right_full: [T; 512],
    pub react: [T; 3],
    pub react_att: [T; 3],
}

impl<T: Copy> Clone for Arrays<T> {
    fn clone(&self) -> (out: Self)
        ensures
            out == *self,
    {
        *self
    }
}

/// Everything that the analysis of one hop found.
pub struct HopParts<T> {
    pub is_silent: bool,
    pub bands: MacroBands<T>,
    pub milkdrop: AudioLevels<T>,
    pub tempo: TempoOut<T>,
    pub hpss: HpssFeatures<T>,
    pub bus: HpssLevels<T>,
    pub crossover: LrBands<T>,
    pub structure: StructureFeatures<T>,
    pub loudness: Loudness<T>,
    pub key: TonalRail<T>,
    pub chord: TonalRail<T>,
    pub dynamics: Dynamics<T>,
    pub arrays: Arrays<T>,
}

impl<T> Features<T> {
    /// The snapshot shows what the analysis found: each part under its own name,
    /// with the MilkDrop levels in the fields of the bass, the middle and the
    /// highest band, and what is true or false as `one` or `zero`.
    pub open spec fn shows(self, p: HopParts<T>, zero: T, one: T) -> bool {
        &&& self.sub_bass == p.bands.sub_bass
        &&& self.bass == p.milkdrop.bass
        &&& self.low_mid == p.bands.low_mid
        &&& self.mid == p.milkdrop.mid
        &&& self.presence == p.bands.presence
        &&& self.air == p.milkdrop.treb
        &&& self.rms_level == p.dynamics.rms_level
        &&& self.brightness == p.dynamics.brightness
        &&& self.flux == p.dynamics.flux
        &&& self.rolloff == p.dynamics.rolloff
        &&& self.lufs_momentary == p.loudness.momentary
        &&& self.lufs_short == p.loudness.short
        &&& self.loudness_build == p.loudness.build
        &&& self.lufs_range == p.loudness.range
        &&& self.spectral_flatness == p.dynamics.spectral_flatness
        &&& self.spectral_spread == p.dynamics.spectral_spread
        &&& self.spectral_contrast == p.dynamics.spectral_contrast
        &&& self.superflux == p.dynamics.superflux
        &&& self.superflux_onset == p.dynamics.superflux_onset
        &&& self.kick_onset == p.dynamics.kick_onset
        &&& self.snare_onset == p.dynamics.snare_onset
        &&& self.hat_onset == p.dynamics.hat_onset
        &&& self.beat_confidence == p.tempo.confidence
        &&& self.beat_phase == p.tempo.beat_phase
        &&& self.bar_phase == p.tempo.bar_phase
        &&& self.bpm == p.tempo.bpm
        &&& self.beat_impulse == p.tempo.beat_impulse
        &&& self.is_silent == (if p.is_silent {
            one
        } else {
            zero
        })
        &&& self.spectrum == p.arrays.spectrum
        &&& self.chroma == p.arrays.chroma
        &&& self.key_root == p.key.root
        &&& self.key_is_minor == (if p.key.is_minor {
            one
        } else {
            zero
        })
        &&& self.key_confidence == p.key.confidence
        &&& self.chord_root == p.chord.root
        &&& self.chord_is_minor == (if p.chord.is_minor {
            one
        } else {
            zero
        })
        &&& self.chord_confidence == p.chord.confidence
        &&& self.harmony_hue == p.dynamics.harmony_hue
        &&& self.harmony_mood == p.dynamics.harmony_mood
        &&& self.waveform_left == p.arrays.waveform_left
        &&& self.waveform_right == p.arrays.waveform_right
        &&& self.perc_rms == p.hpss.perc_rms
        &&& self.perc_flux == p.hpss.perc_flux
        &&& self.perc_onset == p.hpss.perc_onset
        &&& self.perc_ratio == p.hpss.perc_ratio
        &&& self.harm_rms == p.hpss.harm_rms
        &&& self.harm_flux == p.hpss.harm_flux
        &&& self.harm_brightness == p.hpss.harm_brightness
        &&& self.harm_ratio == p.hpss.harm_ratio
        &&& self.bass_att == p.milkdrop.bass_att
        &&& self.mid_att == p.milkdrop.mid_att
        &&& self.treb_att == p.milkdrop.treb_att
        &&& self.vol_att == p.milkdrop.vol_att
        &&& self.complex_onset == p.dynamics.complex_onset
        &&& self.lr_sub == p.crossover.sub
        &&& self.lr_low == p.crossover.low
        &&& self.lr_mid == p.crossover.mid
        &&& self.lr_high == p.crossover.high
        &&& self.lr_air == p.crossover.air
        &&& self.drop_anticipation == p.dynamics.drop_anticipation
        &&& self.harmonic_level == p.bus.harmonic_level
        &&& self.percussive_level == p.bus.percussive_level
        &&& self.harmonic_ratio == p.bus.harmonic_ratio
        &&& self.percussive_ratio == p.bus.percussive_ratio
        &&& self.pitch_hz == p.dynamics.pitch_hz
        &&& self.pitch_norm == p.dynamics.pitch_norm
        &&& self.pitch_confidence == p.dynamics.pitch_confidence
        &&& self.structure_novelty == p.structure.novelty
        &&& self.structure_change == p.structure.change
        &&& self.structure_confidence == p.structure.confidence
        &&& self.bass_react == p.arrays.react@[0]
        &&& self.mid_react == p.arrays.react@[1]
        &&& self.treb_react == p.arrays.react@[2]
        &&& self.bass_react_att == p.arrays.react_att@[0]
        &&& self.mid_react_att == p.arrays.react_att@[1]
        &&& self.treb_react_att == p.arrays.react_att@[2]
        &&& self.vol_react == p.dynamics.vol_react
        &&& self.vol_react_att == p.dynamics.vol_react_att
        &&& self.freq_spectrum == p.arrays.freq_spectrum
        &&& self.waveform_left_full == p.arrays.waveform_left_full
        &&& self.waveform_right_full == p.arrays.waveform_right_full
    }
}

impl<T: Copy> Features<T> {
    /// The snapshot of what the analysis of one hop found.
    pub fn compose(p: HopParts<T>, zero: T, one: T) -> (out: Self)
        ensures
            out.shows(p, zero, one),
            out.sub_bass == p.bands.sub_bass,
            out.bass == p.milkdrop.bass,
            out.low_mid == p.bands.low_mid,
            out.mid == p.milkdrop.mid,
            out.presence == p.bands.presence,
            out.air == p.milkdrop.treb,
            out.rms_level == p.dynamics.rms_level,
            out.brightness == p.dynamics.brightness,
            out.flux == p.dynamics.flux,
            out.rolloff == p.dynamics.rolloff,
            out.lufs_momentary == p.loudness.momentary,
            out.lufs_short == p.loudness.short,
            out.loudness_build == p.loudness.build,
            out.lufs_range == p.loudness.range,
            out.spectral_flatness == p.dynamics.spectral_flatness,
            out.spectral_spread == p.dynamics.spectral_spread,
            out.spectral_contrast == p.dynamics.spectral_contrast,
            out.superflux == p.dynamics.superflux,
            out.superflux_onset == p.dynamics.superflux_onset,
            out.kick_onset == p.dynamics.kick_onset,
            out.snare_onset == p.dynamics.snare_onset,
            out.hat_onset == p.dynamics.hat_onset,
            out.beat_confidence == p.tempo.confidence,
            out.beat_phase == p.tempo.beat_phase,
            out.bar_phase == p.tempo.bar_phase,
            out.bpm == p.tempo.bpm,
            out.beat_impulse == p.tempo.beat_impulse,
            out.is_silent == (if p.is_silent {
                one
            } else {
                zero
            }),
            out.spectrum == p.arrays.spectrum,
            out.chroma == p.arrays.chroma,
            out.key_root == p.key.root,
            out.key_is_minor == (if p.key.is_minor {
                one
            } else {
                zero
            }),
            out.key_confidence == p.key.confidence,
            out.chord_root == p.chord.root,
            out.chord_is_minor == (if p.chord.is_minor {
                one
            } else {
                zero
            }),
            out.chord_confidence == p.chord.confidence,
            out.harmony_hue == p.dynamics.harmony_hue,
            out.harmony_mood == p.dynamics.harmony_mood,
            out.waveform_left == p.arrays.waveform_left,
            out.waveform_right == p.arrays.waveform_right,
            out.perc_rms == p.hpss.perc_rms,
            out.perc_flux == p.hpss.perc_flux,
            out.perc_onset == p.hpss.perc_onset,
            out.perc_ratio == p.hpss.perc_ratio,
            out.harm_rms == p.hpss.harm_rms,
            out.harm_flux == p.hpss.harm_flux,
            out.harm_brightness == p.hpss.harm_brightness,
            out.harm_ratio == p.hpss.harm_ratio,
            out.bass_att == p.milkdrop.bass_att,
            out.mid_att == p.milkdrop.mid_att,
            out.treb_att == p.milkdrop.treb_att,
            out.vol_att == p.milkdrop.vol_att,
            out.complex_onset == p.dynamics.complex_onset,
            out.lr_sub == p.crossover.sub,
            out.lr_low == p.crossover.low,
            out.lr_mid == p.crossover.mid,
            out.lr_high == p.crossover.high,
            out.lr_air == p.crossover.air,
            out.drop_anticipation == p.dynamics.drop_anticipation,
            out.harmonic_level == p.bus.harmonic_level,
            out.percussive_level == p.bus.percussive_level,
            out.harmonic_ratio == p.bus.harmonic_ratio,
            out.percussive_ratio == p.bus.percussive_ratio,
            out.pitch_hz == p.dynamics.pitch_hz,
            out.pitch_norm == p.dynamics.pitch_norm,
            out.pitch_confidence == p.dynamics.pitch_confidence,
            out.structure_novelty == p.structure.novelty,
            out.structure_change == p.structure.change,
            out.structure_confidence == p.structure.confidence,
            out.bass_react == p.arrays.react@[0],
            out.mid_react == p.arrays.react@[1],
            out.treb_react == p.arrays.react@[2],
            out.bass_react_att == p.arrays.react_att@[0],
            out.mid_react_att == p.arrays.react_att@[1],
            out.treb_react_att == p.arrays.react_att@[2],
            out.vol_react == p.dynamics.vol_react,
            out.vol_react_att == p.dynamics.vol_react_att,
            out.freq_spectrum == p.arrays.freq_spectrum,
            out.waveform_left_full == p.arrays.waveform_left_full,
            out.waveform_right_full == p.arrays.waveform_right_full,
    {
        let flag = |b: bool| -> (v: T)
            ensures
                v == (if b {
                    one
                } else {
                    zero
                }),
            {
                if b {
                    one
                } else {
                    zero
                }
            };
        Features {
            sub_bass: p.bands.sub_bass,
            bass: p.milkdrop.bass,
            low_mid: p.bands.low_mid,
            mid: p.milkdrop.mid,
            presence: p.bands.presence,
            air: p.milkdrop.treb,
            rms_level: p.dynamics.rms_level,
            brightness: p.dynamics.brightness,
            flux: p.dynamics.flux,
            rolloff: p.dynamics.rolloff,
            lufs_momentary: p.loudness.momentary,
            lufs_short: p.loudness.short,
            loudness_build: p.loudness.build,
            lufs_range: p.loudness.range,
            spectral_flatness: p.dynamics.spectral_flatness,
            spectral_spread: p.dynamics.spectral_spread,
            spectral_contrast: p.dynamics.spectral_contrast,
            superflux: p.dynamics.superflux,
            superflux_onset: p.dynamics.superflux_onset,
            kick_onset: p.dynamics.kick_onset,
            snare_onset: p.dynamics.snare_onset,
            hat_onset: p.dynamics.hat_onset,
            beat_confidence: p.tempo.confidence,
            beat_phase: p.tempo.beat_phase,
            bar_phase: p.tempo.bar_phase,
            bpm: p.tempo.bpm,
            beat_impulse: p.tempo.beat_impulse,
            is_silent: flag(p.is_silent),
            spectrum: p.arrays.spectrum,
            chroma: p.arrays.chroma,
            key_root: p.key.root,
            key_is_minor: flag(p.key.is_minor),
            key_confidence: p.key.confidence,
            chord_root: p.chord.root,
            chord_is_minor: flag(p.chord.is_minor),
            chord_confidence: p.chord.confidence,
            harmony_hue: p.dynamics.harmony_hue,
            harmony_mood: p.dynamics.harmony_mood,
            waveform_left: p.arrays.waveform_left,
            waveform_right: p.arrays.waveform_right,
            perc_rms: p.hpss.perc_rms,
            perc_flux: p.hpss.perc_flux,
            perc_onset: p.hpss.perc_onset,
            perc_ratio: p.hpss.perc_ratio,
            harm_rms: p.hpss.harm_rms,
            harm_flux: p.hpss.harm_flux,
            harm_brightness: p.hpss.harm_brightness,
            harm_ratio: p.hpss.harm_ratio,
            bass_att: p.milkdrop.bass_att,
            mid_att: p.milkdrop.mid_att,
            treb_att: p.milkdrop.treb_att,
            vol_att: p.milkdrop.vol_att,
            complex_onset: p.dynamics.complex_onset,
            lr_sub: p.crossover.sub,
            lr_low: p.crossover.low,
            lr_mid: p.crossover.mid,
            lr_high: p.crossover.high,
            lr_air: p.crossover.air,
            drop_anticipation: p.dynamics.drop_anticipation,
            harmonic_level: p.bus.harmonic_level,
            percussive_level: p.bus.percussive_level,
            harmonic_ratio: p.bus.harmonic_ratio,
            percussive_ratio: p.bus.percussive_ratio,
            pitch_hz: p.dynamics.pitch_hz,
            pitch_norm: p.dynamics.pitch_norm,
            pitch_confidence: p.dynamics.pitch_confidence,
            structure_novelty: p.structure.novelty,
            structure_change: p.structure.change,
            structure_confidence: p.structure.confidence,
            bass_react: p.arrays.react[0],
            mid_react: p.arrays.react[1],
            treb_react: p.arrays.react[2],
            bass_react_att: p.arrays.react_att[0],
            mid_react_att: p.arrays.react_att[1],
            treb_react_att: p.arrays.react_att[2],
            vol_react: p.dynamics.vol_react,
            vol_react_att: p.dynamics.vol_react_att,
            freq_spectrum: p.arrays.freq_spectrum,
            waveform_left_full: p.arrays.waveform_left_full,
            waveform_right_full: p.arrays.waveform_right_full,
        }
    }
}

// ---------------------------------------------------------------------------
// Laws
// ---------------------------------------------------------------------------
/// Each part of the analysis is published under its own name, and no other
/// snapshot shows the same parts.
pub proof fn law_each_part_under_its_own_name<T>(
    f: Features<T>,
    g: Features<T>,
    p: HopParts<T>,
    zero: T,
    one: T,
)
    requires
        f.shows(p, zero, one),
        g.shows(p, zero, one),
    ensures
        f == g,
        f.sub_bass == p.bands.sub_bass,
        f.bass == p.milkdrop.bass,
        f.low_mid == p.bands.low_mid,
        f.mid == p.milkdrop.mid,
        f.presence == p.bands.presence,
        f.air == p.milkdrop.treb,
        f.rms_level == p.dynamics.rms_level,
        f.brightness == p.dynamics.brightness,
        f.flux == p.dynamics.flux,
        f.rolloff == p.dynamics.rolloff,
        f.lufs_momentary == p.loudness.momentary,
        f.lufs_short == p.loudness.short,
        f.loudness_build == p.loudness.build,
        f.lufs_range == p.loudness.range,
        f.spectral_flatness == p.dynamics.spectral_flatness,
        f.spectral_spread == p.dynamics.spectral_spread,
        f.spectral_contrast == p.dynamics.spectral_contrast,
        f.superflux == p.dynamics.superflux,
        f.superflux_onset == p.dynamics.superflux_onset,
        f.kick_onset == p.dynamics.kick_onset,
        f.snare_onset == p.dynamics.snare_onset,
        f.hat_onset == p.dynamics.hat_onset,
        f.beat_confidence == p.tempo.confidence,
        f.beat_phase == p.tempo.beat_phase,
        f.bar_phase == p.tempo.bar_phase,
        f.bpm == p.tempo.bpm,
        f.beat_impulse == p.tempo.beat_impulse,
        f.is_silent == (if p.is_silent {
            one
        } else {
            zero
        }),
        f.spectrum == p.arrays.spectrum,
        f.chroma == p.arrays.chroma,
        f.key_root == p.key.root,
        f.key_is_minor == (if p.key.is_minor {
            one
        } else {
            zero
        }),
        f.key_confidence == p.key.confidence,
        f.chord_root == p.chord.root,
        f.chord_is_minor == (if p.chord.is_minor {
            one
        } else {
            zero
        }),
        f.chord_confidence == p.chord.confidence,
        f.harmony_hue == p.dynamics.harmony_hue,
        f.harmony_mood == p.dynamics.harmony_mood,
        f.waveform_left == p.arrays.waveform_left,
        f.waveform_right == p.arrays.waveform_right,
        f.perc_rms == p.hpss.perc_rms,
        f.perc_flux == p.hpss.perc_flux,
        f.perc_onset == p.hpss.perc_onset,
        f.perc_ratio == p.hpss.perc_ratio,
        f.harm_rms == p.hpss.harm_rms,
        f.harm_flux == p.hpss.harm_flux,
        f.harm_brightness == p.hpss.harm_brightness,
        f.harm_ratio == p.hpss.harm_ratio,
        f.bass_att == p.milkdrop.bass_att,
        f.mid_att == p.milkdrop.mid_att,
        f.treb_att == p.milkdrop.treb_att,
        f.vol_att == p.milkdrop.vol_att,
        f.complex_onset == p.dynamics.complex_onset,
        f.lr_sub == p.crossover.sub,
        f.lr_low == p.crossover.low,
        f.lr_mid == p.crossover.mid,
        f.lr_high == p.crossover.high,
        f.lr_air == p.crossover.air,
        f.drop_anticipation == p.dynamics.drop_anticipation,
        f.harmonic_level == p.bus.harmonic_level,
        f.percussive_level == p.bus.percussive_level,
        f.harmonic_ratio == p.bus.harmonic_ratio,
        f.percussive_ratio == p.bus.percussive_ratio,
        f.pitch_hz == p.dynamics.pitch_hz,
        f.pitch_norm == p.dynamics.pitch_norm,
        f.pitch_confidence == p.dynamics.pitch_confidence,
        f.structure_novelty == p.structure.novelty,
        f.structure_change == p.structure.change,
        f.structure_confidence == p.structure.confidence,
        f.bass_react == p.arrays.react@[0],
        f.mid_react == p.arrays.react@[1],
        f.treb_react == p.arrays.react@[2],
        f.bass_react_att == p.arrays.react_att@[0],
        f.mid_react_att == p.arrays.react_att@[1],
        f.treb_react_att == p.arrays.react_att@[2],
        f.vol_react == p.dynamics.vol_react,
        f.vol_react_att == p.dynamics.vol_react_att,
        f.freq_spectrum == p.arrays.freq_spectrum,
        f.waveform_left_full == p.arrays.waveform_left_full,
        f.waveform_right_full == p.arrays.waveform_right_full,
{
}

/// Before anything is heard every level is zero, but for the levels that are
/// measured against their own average, which stand at one.
pub proof fn law_rest_is_zero_but_for_averages<T>(f: Features<T>, zero: T, one: T)
    requires
        f.is_resting(zero, one),
    ensures
        f.sub_bass == zero,
        f.bass == zero,
        f.low_mid == zero,
        f.mid == zero,
        f.presence == zero,
        f.air == zero,
        f.rms_level == zero,
        f.brightness == zero,
        f.flux == zero,
        f.rolloff == zero,
        f.lufs_momentary == zero,
        f.lufs_short == zero,
        f.loudness_build == zero,
        f.lufs_range == zero,
        f.spectral_flatness == zero,
        f.spectral_spread == zero,
        f.spectral_contrast == zero,
        f.superflux == zero,
        f.superflux_onset == zero,
        f.kick_onset == zero,
        f.snare_onset == zero,
        f.hat_onset == zero,
        f.beat_confidence == zero,
        f.beat_phase == zero,
        f.bar_phase == zero,
        f.bpm == zero,
        f.beat_impulse == zero,
        f.is_silent == zero,
        forall|i: int| 0 <= i < f.spectrum@.len() ==> #[trigger] f.spectrum@[i] == zero,
        forall|i: int| 0 <= i < f.chroma@.len() ==> #[trigger] f.chroma@[i] == zero,
        f.key_root == zero,
        f.key_is_minor == zero,
        f.key_confidence == zero,
        f.chord_root == zero,
        f.chord_is_minor == zero,
        f.chord_confidence == zero,
        f.harmony_hue == zero,
        f.harmony_mood == zero,
        forall|i: int| 0 <= i < f.waveform_left@.len() ==> #[trigger] f.waveform_left@[i] == zero,
        forall|i: int| 0 <= i < f.waveform_right@.len() ==> #[trigger] f.waveform_right@[i] == zero,
        f.perc_rms == zero,
        f.perc_flux == zero,
        f.perc_onset == zero,
        f.perc_ratio == zero,
        f.harm_rms == zero,
        f.harm_flux == zero,
        f.harm_brightness == zero,
        f.harm_ratio == zero,
        f.bass_att == zero,
        f.mid_att == zero,
        f.treb_att == zero,
        f.vol_att == zero,
        f.complex_onset == zero,
        f.lr_sub == zero,
        f.lr_low == zero,
        f.lr_mid == zero,
        f.lr_high == zero,
        f.lr_air == zero,
        f.drop_anticipation == zero,
        f.harmonic_level == zero,
        f.percussive_level == zero,
        f.harmonic_ratio == zero,
        f.percussive_ratio == zero,
        f.pitch_hz == zero,
        f.pitch_norm == zero,
        f.pitch_confidence == zero,
        f.structure_novelty == zero,
        f.structure_change == zero,
        f.structure_confidence == zero,
        f.bass_react == one,
        f.mid_react == one,
        f.treb_react == one,
        f.bass_react_att == one,
        f.mid_react_att == one,
        f.treb_react_att == one,
        f.vol_react == one,
        f.vol_react_att == one,
        forall|i: int| 0 <= i < f.freq_spectrum@.len() ==> #[trigger] f.freq_spectrum@[i] == zero,
        forall|i: int| 0 <= i < f.waveform_left_full@.len() ==> #[trigger] f.waveform_left_full@[i] == zero,
        forall|i: int| 0 <= i < f.waveform_right_full@.len() ==> #[trigger] f.waveform_right_full@[i] == zero,
{
}

} // verus!
