//! The capture options submitted with a start request.

use vstd::prelude::*;

verus! {

/// A validated set of capture options, immutable once submitted.
///
/// Volumes are carried as tenths (a gain of 1.0 is 10): the encoder's
/// filter argument is written with exactly one decimal place. The
/// capture-mode, window-title and region fields are accepted but
/// reserved: the command builder does not consume them.
pub struct RecordingOptions {
    pub mic_enabled: bool,
    pub mic_device: Option<String>,
    pub system_audio_enabled: bool,
    /// Root save directory; empty means the platform default.
    pub save_path: String,
    pub capture_mode: Option<String>,
    pub window_title: Option<String>,
    pub region: Option<String>,
    pub mic_volume_tenths: u64,
    pub system_audio_volume_tenths: u64,
}

/// The default gain of 1.0, in tenths.
pub const DEFAULT_VOLUME_TENTHS: u64 = 10;

/// Whether the microphone contributes an audio input: it must be
/// enabled and name a device that is non-empty and not the sentinel.
pub open spec fn mic_source_active(o: &RecordingOptions) -> bool {
    &&& o.mic_enabled
    &&& match o.mic_device {
        Some(d) => d@.len() > 0 && d@ != "Default"@,
        None => false,
    }
}

/// How many audio inputs the encoder will be given: the microphone
/// when it is active, and system audio on its enabled flag alone.
pub open spec fn audio_input_count(o: &RecordingOptions) -> nat {
    (if mic_source_active(o) {
        1nat
    } else {
        0nat
    }) + (if o.system_audio_enabled {
        1nat
    } else {
        0nat
    })
}

/// Decides whether the microphone contributes an audio input.
pub fn mic_active(o: &RecordingOptions) -> (r: bool)
    ensures
        r == mic_source_active(o),
{
    if !o.mic_enabled {
        return false;
    }
    match &o.mic_device {
        None => false,
        Some(d) => {
            let sentinel: String = "Default".to_owned();
            !d.as_str().is_empty() && !(*d == sentinel)
        },
    }
}

/// Computes the number of audio inputs, always zero, one or two.
pub fn count_audio_inputs(o: &RecordingOptions) -> (n: u64)
    ensures
        n == audio_input_count(o),
        n <= 2,
{
    let mut n: u64 = 0;
    if mic_active(o) {
        n = n + 1;
    }
    if o.system_audio_enabled {
        n = n + 1;
    }
    n
}

} // verus!
