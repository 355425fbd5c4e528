use particle_core::capture::{
    build_stream, default_input_name, find_virtual_loopback_device, frame_bounds,
    is_loopback_name, is_lowercase_loopback_name, start, stereo_pair, try_open_process_tap,
    AudioError, CaptureConfig, CaptureSource, CaptureStep, SampleFormat, TapOutcome,
};

#[test]
fn detects_common_virtual_loopback_devices() {
    // Real device names from common DJ/VJ rigs (varying case / suffixes).
    for name in [
        "BlackHole 2ch",
        "BlackHole 16ch",
        "Loopback Audio",
        "Soundflower (2ch)",
        "My Aggregate Device",
        "Multi-Output Device",
        "blackhole",     // lowercase
        "ZOOM Loopback", // marker mid-string
    ] {
        assert!(
            is_loopback_name(name),
            "expected '{name}' to match a marker"
        );
    }
}

#[test]
fn does_not_match_real_input_devices() {
    for name in [
        "MacBook Pro Microphone",
        "External Microphone",
        "USB Audio CODEC",
        "Built-in Input",
        "Scarlett 2i2 USB",
    ] {
        assert!(!is_loopback_name(name), "did not expect '{name}' to match");
    }
}

#[test]
fn source_classification_and_labels() {
    assert!(CaptureSource::SystemLoopback.is_loopback());
    assert!(CaptureSource::VirtualDevice.is_loopback());
    assert!(!CaptureSource::Microphone.is_loopback());

    assert_eq!(CaptureSource::SystemLoopback.label(), "system loopback");
    assert_eq!(
        CaptureSource::VirtualDevice.label(),
        "virtual loopback device"
    );
    assert_eq!(CaptureSource::Microphone.label(), "mic");
}

#[test]
fn default_config_prefers_loopback() {
    assert!(CaptureConfig::default().prefer_loopback);
}

#[test]
fn lowering_reaches_beyond_ascii() {
    // The Kelvin sign lowers to an ordinary k.
    assert!(is_loopback_name("LOOPBAC\u{212A}"));
    assert!(!is_lowercase_loopback_name("LOOPBACK"));
    assert!(is_lowercase_loopback_name("a multi-output b"));
    assert!(!is_loopback_name(""));
}

#[test]
fn first_virtual_device_wins() {
    let names = vec![
        Some("Built-in Input".to_string()),
        None,
        Some("SOUNDFLOWER 64".to_string()),
        Some("BlackHole 2ch".to_string()),
    ];
    assert_eq!(find_virtual_loopback_device(&names), Some(2));
    assert_eq!(find_virtual_loopback_device(&vec![None]), None);
    assert_eq!(
        start(CaptureConfig { prefer_loopback: true }, &names),
        vec![CaptureStep::OpenVirtual(2)]
    );
    assert_eq!(
        start(CaptureConfig { prefer_loopback: true }, &Vec::new()),
        vec![CaptureStep::TryNative, CaptureStep::OpenDefault]
    );
    assert_eq!(
        start(CaptureConfig { prefer_loopback: false }, &names),
        vec![CaptureStep::OpenDefault]
    );
}

#[test]
fn process_tap_hands_the_producer_back() {
    match try_open_process_tap(41u8) {
        TapOutcome::Declined(p) => assert_eq!(p, 41),
        TapOutcome::Opened(_) => panic!("nothing can be opened"),
    }
}

#[test]
fn default_input_is_always_named() {
    assert_eq!(default_input_name(None), "<unknown input device>");
    assert_eq!(default_input_name(Some("USB".to_string())), "USB");
}

#[test]
fn errors_in_words() {
    assert_eq!(
        AudioError::NoInputDevice.message(),
        "no default audio input device available"
    );
    assert_eq!(
        AudioError::Config("x".to_string()).message(),
        "audio device config error: x"
    );
    assert_eq!(
        AudioError::Stream("y".to_string()).message(),
        "audio stream error: y"
    );
}

#[test]
fn unsupported_formats_are_named() {
    assert!(build_stream(SampleFormat::F64).is_ok());
    match build_stream(SampleFormat::Other("I64".to_string())) {
        Err(e) => assert_eq!(
            e.message(),
            "audio device config error: unsupported sample format: I64"
        ),
        Ok(_) => panic!("expected a refusal"),
    }
}

#[test]
fn interleaved_frames_are_cut_like_chunks() {
    let data = [1, 2, 3, 4, 5];
    for channels in [0u16, 1, 2, 3, 7] {
        let width = channels.max(1) as usize;
        let mut index = 0;
        for chunk in data.chunks(width) {
            let (a, b) = frame_bounds(data.len(), channels, index).unwrap();
            assert_eq!(&data[a..b], chunk);
            index += 1;
        }
        assert_eq!(frame_bounds(data.len(), channels, index), None);
    }
    assert_eq!(frame_bounds(10, 2, usize::MAX), None);
}

#[test]
fn stereo_pair_takes_the_first_two_channels() {
    assert_eq!(stereo_pair(&[4, 5, 6], 3, 0), (4, 5));
    assert_eq!(stereo_pair(&[4], 1, 0), (4, 4));
    assert_eq!(stereo_pair(&[4], 2, 0), (4, 0));
}
