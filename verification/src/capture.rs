//! Choosing the audio source to capture, and laying out what it delivers.
//!
//! With loopback preferred, an input device whose name marks it as a virtual
//! cable comes first, then the platform's own loopback, then the default input.

use crate::text;
use crate::text::{chars_of, has_text};
use vstd::prelude::*;
use vstd::string::*;
use vstd::utf8::*;

verus! {

// ---------------------------------------------------------------------------
// Errors
// ---------------------------------------------------------------------------
/// Why capture or analysis could not start.
#[derive(Debug)]
pub enum AudioError {
    /// There is no default input device.
    NoInputDevice,
    /// The device's configuration could not be queried or used.
    Config(String),
    /// The capture stream could not be built or started.
    Stream(String),
}

impl AudioError {
    /// The error in words.
    pub open spec fn spec_message(self) -> Seq<char> {
        match self {
            AudioError::NoInputDevice => "no default audio input device available"@,
            AudioError::Config(e) => "audio device config error: "@ + e@,
            AudioError::Stream(e) => "audio stream error: "@ + e@,
        }
    }

    /// The error in words.
    pub fn message(&self) -> (out: String)
        ensures
            out@ == self.spec_message(),
    {
        match self {
            AudioError::NoInputDevice => "no default audio input device available".to_owned(),
            AudioError::Config(e) => {
                let mut m = "audio device config error: ".to_owned();
                m.append(e.as_str());
                m
            },
            AudioError::Stream(e) => {
                let mut m = "audio stream error: ".to_owned();
                m.append(e.as_str());
                m
            },
        }
    }
}

// ---------------------------------------------------------------------------
// Sources
// ---------------------------------------------------------------------------
/// Which path the capture stream ended up on.
#[derive(Clone, Copy, Debug, PartialEq, Eq, Structural)]
pub enum CaptureSource {
    /// The system's own loopback of its mix.
    SystemLoopback,
    /// A virtual cable or aggregate device, found by its name.
    VirtualDevice,
    /// The default input: the room, not the mix.
    Microphone,
}

impl CaptureSource {
    /// The source in words.
    pub open spec fn spec_label(self) -> Seq<char> {
        match self {
            CaptureSource::SystemLoopback => "system loopback"@,
            CaptureSource::VirtualDevice => "virtual loopback device"@,
            CaptureSource::Microphone => "mic"@,
        }
    }

    /// Whether the source carries the system's mix rather than the room.
    pub fn is_loopback(self) -> (yes: bool)
        ensures
            yes == (self is SystemLoopback || self is VirtualDevice),
    {
        match self {
            CaptureSource::SystemLoopback => true,
            CaptureSource::VirtualDevice => true,
            CaptureSource::Microphone => false,
        }
    }

    /// The source in words.
    pub fn label(self) -> (out: &'static str)
        ensures
            out@ == self.spec_label(),
    {
        match self {
            CaptureSource::SystemLoopback => "system loopback",
            CaptureSource::VirtualDevice => "virtual loopback device",
            CaptureSource::Microphone => "mic",
        }
    }
}

/// What the user prefers to capture.
#[derive(Clone, Copy, Debug)]
pub struct CaptureConfig {
    /// Whether a loopback of the system's mix comes before the default input.
    pub prefer_loopback: bool,
}

impl Default for CaptureConfig {
    fn default() -> (out: Self)
        ensures
            out.prefer_loopback,
    {
        CaptureConfig { prefer_loopback: true }
    }
}

// ---------------------------------------------------------------------------
// Virtual cables by name
// ---------------------------------------------------------------------------
/// What `str::to_lowercase` makes of the text.
pub uninterp spec fn lowercase(s: Seq<char>) -> Seq<char>;

/// The lower-case form of an ASCII letter, and every other character itself.
pub open spec fn ascii_lower(c: char) -> char {
    if 'A' <= c && c <= 'Z' {
        ((c as u32 + 32) as u32) as char
    } else {
        c
    }
}

/// The lower-case form of `s`: `str::to_lowercase` depends on the text alone,
/// and lowers an ASCII text letter by letter.
#[verifier::external_body]
fn lowered(s: &str) -> (out: String)
    ensures
        out@ == lowercase(s@),
        is_ascii_chars(s@) ==> out@ == s@.map_values(|c: char| ascii_lower(c)),
{
    s.to_lowercase()
}

/// A lower-case name holds one of the marks of a virtual cable.
pub open spec fn marks_loopback(lower: Seq<char>) -> bool {
    ||| text::contains_text(lower, "blackhole"@)
    ||| text::contains_text(lower, "loopback"@)
    ||| text::contains_text(lower, "soundflower"@)
    ||| text::contains_text(lower, "aggregate"@)
    ||| text::contains_text(lower, "multi-output"@)
}

/// Whether a lower-case name holds one of the marks of a virtual cable.
pub fn is_lowercase_loopback_name(lower: &str) -> (yes: bool)
    ensures
        yes == marks_loopback(lower@),
{
    let chars = chars_of(lower);
    let name = chars.as_slice();
    has_text(name, "blackhole") || has_text(name, "loopback") || has_text(name, "soundflower")
        || has_text(name, "aggregate") || has_text(name, "multi-output")
}

/// Whether a device's name marks it as a virtual cable, in whatever case.
pub fn is_loopback_name(name: &str) -> (yes: bool)
    ensures
        yes == marks_loopback(lowercase(name@)),
        is_ascii_chars(name@) ==> yes == marks_loopback(
            name@.map_values(|c: char| ascii_lower(c)),
        ),
{
    let lower = lowered(name);
    is_lowercase_loopback_name(lower.as_str())
}

/// The device at index `i` is known by a name that marks it as a virtual cable.
pub open spec fn is_virtual(names: Seq<Option<String>>, i: int) -> bool {
    0 <= i < names.len() && (names[i] matches Some(name) && marks_loopback(lowercase(name@)))
}

/// The first device from index `i` on that is a virtual cable.
pub open spec fn first_virtual_from(names: Seq<Option<String>>, i: int) -> Option<int>
    decreases names.len() - i,
{
    if i >= names.len() {
        None
    } else if is_virtual(names, i) {
        Some(i)
    } else {
        first_virtual_from(names, i + 1)
    }
}

/// The first of the devices, known by their names where they have one, that is
/// a virtual cable.
pub fn find_virtual_loopback_device(names: &Vec<Option<String>>) -> (out: Option<usize>)
    ensures
        first_virtual_from(names@, 0) == (match out {
            Some(i) => Some(i as int),
            None => None,
        }),
        out matches Some(i) ==> i < names@.len(),
{
    let mut i: usize = 0;
    while i < names.len()
        invariant
            i <= names@.len(),
            first_virtual_from(names@, 0) == first_virtual_from(names@, i as int),
        decreases names@.len() - i,
    {
        if let Some(name) = &names[i] {
            if is_loopback_name(name.as_str()) {
                return Some(i);
            }
        }
        i += 1;
    }
    None
}

// ---------------------------------------------------------------------------
// The order of the sources
// ---------------------------------------------------------------------------
/// One source to try.
#[derive(Clone, Copy, Debug, PartialEq, Eq, Structural)]
pub enum CaptureStep {
    /// Open the input device with this index; its failure is final.
    OpenVirtual(usize),
    /// Try the platform's own loopback; where it declines, go on.
    TryNative,
    /// Open the default input; its failure is final.
    OpenDefault,
}

/// The sources to try, in order: with loopback preferred, the first virtual
/// cable alone where there is one, else the platform's loopback and then the
/// default input; without, the default input alone.
pub open spec fn capture_steps(prefer_loopback: bool, virtual_device: Option<int>) -> Seq<
    CaptureStep,
> {
    if !prefer_loopback {
        seq![CaptureStep::OpenDefault]
    } else {
        match virtual_device {
            Some(i) => seq![CaptureStep::OpenVirtual(i as usize)],
            None => seq![CaptureStep::TryNative, CaptureStep::OpenDefault],
        }
    }
}

/// The sources to try, in order, given the names of the input devices (none
/// where they could not be listed).
pub fn start(cfg: CaptureConfig, names: &Vec<Option<String>>) -> (out: Vec<CaptureStep>)
    ensures
        out@ == capture_steps(cfg.prefer_loopback, first_virtual_from(names@, 0)),
{
    let mut out: Vec<CaptureStep> = Vec::new();
    if cfg.prefer_loopback {
        match find_virtual_loopback_device(names) {
            Some(i) => {
                out.push(CaptureStep::OpenVirtual(i));
            },
            None => {
                out.push(CaptureStep::TryNative);
                out.push(CaptureStep::OpenDefault);
            },
        }
    } else {
        out.push(CaptureStep::OpenDefault);
    }
    assert(out@ =~= capture_steps(cfg.prefer_loopback, first_virtual_from(names@, 0)));
    out
}

/// The name under which the default input is shown.
pub fn default_input_name(name: Option<String>) -> (out: String)
    ensures
        out@ == (match name {
            Some(n) => n@,
            None => "<unknown input device>"@,
        }),
{
    match name {
        Some(n) => n,
        None => "<unknown input device>".to_owned(),
    }
}

/// A running capture of the system's mix through a process tap.
pub struct ProcessTapCapture {
    pub sample_rate: u32,
    pub channels: u16,
    pub device_name: String,
}

/// How the attempt at a process tap ended.
pub enum TapOutcome<P> {
    /// The tap runs and feeds the ring.
    Opened(ProcessTapCapture),
    /// There is no tap; the ring's producer comes back for the next source.
    Declined(P),
}

/// Declines the process tap, which is not wired up: the producer comes back
/// unchanged.
pub fn try_open_process_tap<P>(producer: P) -> (out: TapOutcome<P>)
    ensures
        out == TapOutcome::<P>::Declined(producer),
{
    TapOutcome::Declined(producer)
}

// ---------------------------------------------------------------------------
// Sample formats
// ---------------------------------------------------------------------------
/// A device's sample format.
#[derive(Debug)]
pub enum SampleFormat {
    F32,
    I16,
    U16,
    I32,
    I8,
    U8,
    F64,
    /// Any other format, by its name.
    Other(String),
}

/// Accepts the formats that a stream can be built for.
pub fn build_stream(format: SampleFormat) -> (out: Result<SampleFormat, AudioError>)
    ensures
        match format {
            SampleFormat::Other(name) => out matches Err(AudioError::Config(m)) && m@
                == "unsupported sample format: "@ + name@,
            _ => out == Ok::<SampleFormat, AudioError>(format),
        },
{
    match format {
        SampleFormat::Other(name) => {
            let mut m = "unsupported sample format: ".to_owned();
            m.append(name.as_str());
            Err(AudioError::Config(m))
        },
        other => Ok(other),
    }
}

// ---------------------------------------------------------------------------
// Interleaved frames
// ---------------------------------------------------------------------------
/// The number of channels that a frame has: at least one.
pub open spec fn frame_width(channels: u16) -> int {
    if channels == 0 {
        1
    } else {
        channels as int
    }
}

/// Where frame number `index` of `len` interleaved samples begins and ends; the
/// last frame may be cut short.
pub fn frame_bounds(len: usize, channels: u16, index: usize) -> (out: Option<(usize, usize)>)
    ensures
        match out {
            Some((a, b)) => a == index * frame_width(channels) && a < b <= len && b == (if a
                + frame_width(channels) <= len {
                a + frame_width(channels)
            } else {
                len as int
            }),
            None => index * frame_width(channels) >= len,
        },
        channels >= 1 ==> (out is Some <==> index * channels < len),
        out matches Some((a, b)) ==> (b < len ==> b - a == channels || channels == 0),
{
    let width: usize = if channels == 0 {
        1
    } else {
        channels as usize
    };
    match index.checked_mul(width) {
        None => None,
        Some(a) => {
            if a >= len {
                None
            } else if width <= len - a {
                Some((a, a + width))
            } else {
                Some((a, len))
            }
        },
    }
}

/// The left and right sample of a frame: its first two, with `zero` for what is
/// missing, and the first one twice where there is one channel.
pub fn stereo_pair<T: Copy>(frame: &[T], channels: u16, zero: T) -> (out: (T, T))
    ensures
        out.0 == (if frame@.len() > 0 {
            frame@[0]
        } else {
            zero
        }),
        out.1 == (if frame_width(channels) == 1 {
            out.0
        } else if frame@.len() > 1 {
            frame@[1]
        } else {
            zero
        }),
        channels <= 1 ==> out.1 == out.0,
        channels >= 2 && frame@.len() >= 2 ==> out == (frame@[0], frame@[1]),
        channels >= 2 && frame@.len() == 1 ==> out == (frame@[0], zero),
        frame@.len() == 0 ==> out == (zero, zero),
{
    let left = if frame.len() > 0 {
        frame[0]
    } else {
        zero
    };
    let right = if channels <= 1 {
        left
    } else if frame.len() > 1 {
        frame[1]
    } else {
        zero
    };
    (left, right)
}

// ---------------------------------------------------------------------------
// Laws
// ---------------------------------------------------------------------------
/// Names that differ only in the case of ASCII letters are judged alike.
pub proof fn law_case_makes_no_difference(a: Seq<char>, b: Seq<char>)
    requires
        a.len() == b.len(),
        forall|i: int| 0 <= i < a.len() ==> ascii_lower(#[trigger] a[i]) == ascii_lower(b[i]),
    ensures
        marks_loopback(a.map_values(|c: char| ascii_lower(c))) == marks_loopback(
            b.map_values(|c: char| ascii_lower(c)),
        ),
{
    assert(a.map_values(|c: char| ascii_lower(c)) =~= b.map_values(|c: char| ascii_lower(c)));
}

/// Whatever is preferred and whatever devices there are, some source is tried,
/// and only a virtual cable keeps the default input from being the last resort.
pub proof fn law_some_source_is_tried(prefer_loopback: bool, virtual_device: Option<int>)
    ensures
        capture_steps(prefer_loopback, virtual_device).len() > 0,
        capture_steps(prefer_loopback, virtual_device).last() == CaptureStep::OpenDefault || (
        prefer_loopback && virtual_device is Some),
{
}

/// Each error is put in words of its own, with the cause behind them where there is
/// one.
pub proof fn law_errors_in_words(e: AudioError)
    ensures
        e is NoInputDevice ==> e.spec_message() == "no default audio input device available"@,
        e matches AudioError::Config(m) ==> e.spec_message() == "audio device config error: "@ + m@,
        e matches AudioError::Stream(m) ==> e.spec_message() == "audio stream error: "@ + m@,
{
}

/// Each source is called by a name of its own, and no two by the same.
pub proof fn law_sources_by_name(a: CaptureSource, b: CaptureSource)
    ensures
        a is SystemLoopback ==> a.spec_label() == "system loopback"@,
        a is VirtualDevice ==> a.spec_label() == "virtual loopback device"@,
        a is Microphone ==> a.spec_label() == "mic"@,
        a.spec_label() == b.spec_label() ==> a == b,
{
    reveal_strlit("system loopback");
    reveal_strlit("virtual loopback device");
    reveal_strlit("mic");
    assert("system loopback"@.len() == 15);
    assert("virtual loopback device"@.len() == 23);
    assert("mic"@.len() == 3);
}

/// Lower-casing changes the twenty-six capital letters of ASCII into the small ones
/// and nothing else.
pub proof fn law_capital_letters_become_small(c: char)
    ensures
        'A' <= c <= 'Z' ==> 'a' <= ascii_lower(c) <= 'z' && ascii_lower(c) as int - 'a' as int == c
            as int - 'A' as int,
        !('A' <= c <= 'Z') ==> ascii_lower(c) == c,
{
}

/// A name that holds one of the five marks anywhere is that of a virtual cable, and
/// a name that holds none of them is not.
pub proof fn law_marks_of_a_virtual_cable(before: Seq<char>, mark: Seq<char>, behind: Seq<char>)
    ensures
        mark == "blackhole"@ || mark == "loopback"@ || mark == "soundflower"@ || mark
            == "aggregate"@ || mark == "multi-output"@ ==> marks_loopback(before + mark + behind),
        (forall|i: int|
            !#[trigger] text::occurs_at(before, "blackhole"@, i) && !text::occurs_at(
                before,
                "loopback"@,
                i,
            ) && !text::occurs_at(before, "soundflower"@, i) && !text::occurs_at(
                before,
                "aggregate"@,
                i,
            ) && !text::occurs_at(before, "multi-output"@, i)) ==> !marks_loopback(before),
{
    text::law_text_stands_between(before, mark, behind, before);
    if forall|i: int|
        !#[trigger] text::occurs_at(before, "blackhole"@, i) && !text::occurs_at(
            before,
            "loopback"@,
            i,
        ) && !text::occurs_at(before, "soundflower"@, i) && !text::occurs_at(
            before,
            "aggregate"@,
            i,
        ) && !text::occurs_at(before, "multi-output"@, i) {
        assert forall|i: int| !text::occurs_at(before, "loopback"@, i) by {
            assert(!text::occurs_at(before, "blackhole"@, i));
        }
        assert forall|i: int| !text::occurs_at(before, "soundflower"@, i) by {
            assert(!text::occurs_at(before, "blackhole"@, i));
        }
        assert forall|i: int| !text::occurs_at(before, "aggregate"@, i) by {
            assert(!text::occurs_at(before, "blackhole"@, i));
        }
        assert forall|i: int| !text::occurs_at(before, "multi-output"@, i) by {
            assert(!text::occurs_at(before, "blackhole"@, i));
        }
    }
}

/// The device that is found is the first one whose name, in lower case, marks it as
/// a virtual cable; a device without a name is passed over, and none is found only
/// where no name does.
pub proof fn law_first_virtual_cable_is_found(names: Seq<Option<String>>, from: int)
    requires
        0 <= from,
    ensures
        match first_virtual_from(names, from) {
            Some(k) => {
                &&& from <= k < names.len()
                &&& (names[k] matches Some(name) && marks_loopback(lowercase(name@)))
                &&& forall|j: int|
                    from <= j < k ==> (#[trigger] names[j] matches Some(name) ==> !marks_loopback(
                        lowercase(name@),
                    ))
            },
            None => forall|j: int|
                from <= j < names.len() ==> (#[trigger] names[j] matches Some(name)
                    ==> !marks_loopback(lowercase(name@))),
        },
    decreases names.len() - from,
{
    if from < names.len() && !is_virtual(names, from) {
        law_first_virtual_cable_is_found(names, from + 1);
    }
}

/// With a loopback preferred, the first virtual cable is tried alone where there is
/// one, and else the platform's own loopback and then the default input; otherwise
/// the default input is tried alone.
pub proof fn law_order_of_the_sources(prefer_loopback: bool, virtual_device: Option<int>)
    requires
        virtual_device matches Some(i) ==> 0 <= i <= usize::MAX,
    ensures
        ({
            let steps = capture_steps(prefer_loopback, virtual_device);
            &&& (!prefer_loopback ==> steps.len() == 1 && steps[0] is OpenDefault)
            &&& (prefer_loopback && virtual_device is None ==> steps.len() == 2
                && steps[0] is TryNative && steps[1] is OpenDefault)
            &&& (prefer_loopback ==> (virtual_device matches Some(i) ==> steps.len() == 1 && (
            steps[0] matches CaptureStep::OpenVirtual(k) && k == i)))
        }),
{
}

/// A frame has one sample for each channel, and one where no channels are reported.
pub proof fn law_frame_has_a_sample_per_channel(channels: u16)
    ensures
        frame_width(channels) >= 1,
        channels >= 1 ==> frame_width(channels) == channels,
        channels == 0 ==> frame_width(channels) == 1,
{
}

/// Frames lie one behind the other: the first begins with the first sample, each of
/// the next ones where the one before ends, and the last one ends with the samples;
/// only the last one may be shorter than there are channels.
pub proof fn law_frames_follow_one_another(
    len: usize,
    channels: u16,
    index: usize,
    here: Option<(usize, usize)>,
    next: Option<(usize, usize)>,
)
    requires
        index < usize::MAX,
        channels > 0,
        call_ensures(frame_bounds, (len, channels, index), here),
        call_ensures(frame_bounds, (len, channels, (index + 1) as usize), next),
    ensures
        index == 0 && len > 0 ==> (here matches Some((a, b)) && a == 0),
        here matches Some((a, b)) ==> a < b <= len && b - a <= channels,
        here matches Some((a, b)) ==> (next matches Some((c, d)) ==> c == b && b - a == channels),
        here is Some && next is None ==> (here matches Some((a, b)) && b == len),
        next is Some ==> here is Some,
{
    let w = frame_width(channels);
    assert((index + 1) * w == index * w + w) by (nonlinear_arith);
    assert(0 * w == 0) by (nonlinear_arith);
}

/// A frame's two sides are its first two samples; the one side of a single channel is
/// the other too, and a missing sample is zero.
pub proof fn law_sides_of_a_frame<T: Copy>(frame: &[T], channels: u16, zero: T, out: (T, T))
    requires
        call_ensures(stereo_pair::<T>, (frame, channels, zero), out),
    ensures
        channels <= 1 ==> out.0 == out.1,
        frame@.len() > 0 ==> out.0 == frame@[0],
        frame@.len() > 1 && channels > 1 ==> out.1 == frame@[1],
        frame@.len() == 1 && channels > 1 ==> out.1 == zero,
        frame@.len() == 0 ==> out.0 == zero && out.1 == zero,
{
}

/// Every sample format with a name of its own is accepted as it is, and any other is
/// refused by its name.
pub proof fn law_known_formats_are_accepted(
    format: SampleFormat,
    out: Result<SampleFormat, AudioError>,
)
    requires
        call_ensures(build_stream, (format,), out),
    ensures
        out is Ok <==> !(format is Other),
        out matches Ok(f) ==> f == format,
        format matches SampleFormat::Other(name) ==> (out matches Err(AudioError::Config(m)) && m@
            == "unsupported sample format: "@ + name@),
{
}

/// A source is a loopback exactly where it is not the microphone.
pub proof fn law_microphone_is_no_loopback(source: CaptureSource, yes: bool)
    requires
        call_ensures(CaptureSource::is_loopback, (source,), yes),
    ensures
        yes <==> !(source is Microphone),
{
}

/// The default input is shown by its name where it has one.
pub proof fn law_default_input_is_named(name: Option<String>, out: String)
    requires
        call_ensures(default_input_name, (name,), out),
    ensures
        name matches Some(n) ==> out@ == n@,
        name is None ==> out@ == "<unknown input device>"@,
{
}

} // verus!
