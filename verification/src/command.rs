//! The pure command builder: maps validated options and an output path
//! to the ordered argument list of the external encoder.

use vstd::prelude::*;

use crate::options::{audio_input_count, mic_active, mic_source_active, RecordingOptions};
use crate::text::{format_tenths, tenths_digits};

verus! {

/// Arguments adding the microphone input stream.
pub open spec fn mic_input_args(dev: Seq<char>) -> Seq<Seq<char>> {
    seq!["-f"@, "dshow"@, "-i"@, "audio="@ + dev]
}

/// Arguments adding the system-audio capture input stream.
pub open spec fn system_audio_args() -> Seq<Seq<char>> {
    seq!["-f"@, "dshow"@, "-i"@, "audio=virtual-audio-capturer"@]
}

/// The single full-screen video input: 30 fps, cursor drawn, zero
/// offset. Appended after all audio inputs, so the video stream always
/// takes the last input index.
pub open spec fn video_input_args() -> Seq<Seq<char>> {
    seq![
        "-f"@,
        "gdigrab"@,
        "-framerate"@,
        "30"@,
        "-offset_x"@,
        "0"@,
        "-offset_y"@,
        "0"@,
        "-draw_mouse"@,
        "1"@,
        "-i"@,
        "desktop"@,
    ]
}

/// Video encoding: compatible codec and profile, 4:2:0 chroma, fast
/// preset, one keyframe per second, fixed quality factor.
pub open spec fn video_encode_args() -> Seq<Seq<char>> {
    seq![
        "-c:v"@,
        "libx264"@,
        "-pix_fmt"@,
        "yuv420p"@,
        "-preset"@,
        "superfast"@,
        "-profile:v"@,
        "main"@,
        "-level"@,
        "3.0"@,
        "-g"@,
        "30"@,
        "-crf"@,
        "23"@,
    ]
}

/// The two-source mix: a per-source gain on each input, mixed with a
/// longest-input duration policy.
pub open spec fn mix_filter(mic_tenths: nat, sys_tenths: nat) -> Seq<char> {
    "[0:a]volume="@ + tenths_digits(mic_tenths) + "[a0];[1:a]volume="@ + tenths_digits(sys_tenths)
        + "[a1];[a0][a1]amix=inputs=2:duration=longest[aout]"@
}

/// Audio mapping when both sources are enabled: mixed track at
/// 192 kb/s AAC, with the video stream at input index two.
pub open spec fn dual_audio_args(mic_tenths: nat, sys_tenths: nat) -> Seq<Seq<char>> {
    seq![
        "-filter_complex"@,
        mix_filter(mic_tenths, sys_tenths),
        "-map"@,
        "2:v"@,
        "-map"@,
        "[aout]"@,
        "-c:a"@,
        "aac"@,
        "-b:a"@,
        "192k"@,
        "-ar"@,
        "44100"@,
        "-ac"@,
        "2"@,
    ]
}

/// Audio mapping for a single source: one gain filter, 128 kb/s AAC.
pub open spec fn single_audio_args(vol_tenths: nat) -> Seq<Seq<char>> {
    seq![
        "-filter:a"@,
        "volume="@ + tenths_digits(vol_tenths),
        "-map"@,
        "1:v"@,
        "-map"@,
        "0:a"@,
        "-c:a"@,
        "aac"@,
        "-b:a"@,
        "128k"@,
        "-ar"@,
        "44100"@,
        "-ac"@,
        "2"@,
    ]
}

/// The audio input clauses, microphone first, then system audio.
pub open spec fn input_args(o: &RecordingOptions) -> Seq<Seq<char>> {
    (if mic_source_active(o) {
        mic_input_args(o.mic_device->0@)
    } else {
        Seq::empty()
    }) + (if o.system_audio_enabled {
        system_audio_args()
    } else {
        Seq::empty()
    })
}

/// The audio branch chosen by the number of audio inputs. With one
/// input the gain is the counted source's configured volume.
pub open spec fn audio_args(o: &RecordingOptions) -> Seq<Seq<char>> {
    if audio_input_count(o) == 2 {
        dual_audio_args(o.mic_volume_tenths as nat, o.system_audio_volume_tenths as nat)
    } else if audio_input_count(o) == 1 {
        single_audio_args(
            if mic_source_active(o) {
                o.mic_volume_tenths as nat
            } else {
                o.system_audio_volume_tenths as nat
            },
        )
    } else {
        seq!["-an"@]
    }
}

/// The whole encoder invocation: overwrite flag, audio inputs, the
/// video input, encoding parameters, the audio branch, the fast-start
/// flag, and the output path last.
pub open spec fn command_args(o: &RecordingOptions, out: Seq<char>) -> Seq<Seq<char>> {
    seq!["-y"@] + input_args(o) + video_input_args() + video_encode_args() + audio_args(o)
        + seq!["-movflags"@, "+faststart"@, out]
}

/// The views of the built argument strings.
pub open spec fn args_view(v: Seq<String>) -> Seq<Seq<char>> {
    v.map_values(|s: String| s@)
}

fn push_arg(v: &mut Vec<String>, s: &str)
    ensures
        args_view(final(v)@) == args_view(old(v)@).push(s@),
{
    let ghost v0 = v@;
    v.push(s.to_owned());
    proof {
        assert(v@ =~= v0.push(v@.last()));
        assert(args_view(v@) =~= args_view(v0).push(s@));
    }
}

fn push_arg_string(v: &mut Vec<String>, s: String)
    ensures
        args_view(final(v)@) == args_view(old(v)@).push(s@),
{
    let ghost v0 = v@;
    let ghost sv = s@;
    v.push(s);
    proof {
        assert(v@ =~= v0.push(v@.last()));
        assert(args_view(v@) =~= args_view(v0).push(sv));
    }
}

/// Builds the ordered argument list for the encoder. Pure and total:
/// it never fails, it only omits sources that are not enabled or have
/// no usable identifier.
#[verifier::rlimit(100)]
pub fn build_command(o: &RecordingOptions, output_path: &str) -> (r: Vec<String>)
    ensures
        args_view(r@) == command_args(o, output_path@),
{
    let mut v: Vec<String> = Vec::new();
    push_arg(&mut v, "-y");
    proof {
        assert(args_view(v@) =~= seq!["-y"@]);
    }

    // Audio inputs: microphone first, then system audio.
    if mic_active(o) {
        let dev: &String = match &o.mic_device {
            Some(d) => d,
            None => unreached(),
        };
        push_arg(&mut v, "-f");
        push_arg(&mut v, "dshow");
        push_arg(&mut v, "-i");
        let mut audio_arg = String::from_str("audio=");
        audio_arg.append(dev.as_str());
        push_arg_string(&mut v, audio_arg);
    }
    if o.system_audio_enabled {
        push_arg(&mut v, "-f");
        push_arg(&mut v, "dshow");
        push_arg(&mut v, "-i");
        push_arg(&mut v, "audio=virtual-audio-capturer");
    }
    proof {
        assert(args_view(v@) =~= seq!["-y"@] + input_args(o));
    }

    // The full-screen video input.
    push_arg(&mut v, "-f");
    push_arg(&mut v, "gdigrab");
    push_arg(&mut v, "-framerate");
    push_arg(&mut v, "30");
    push_arg(&mut v, "-offset_x");
    push_arg(&mut v, "0");
    push_arg(&mut v, "-offset_y");
    push_arg(&mut v, "0");
    push_arg(&mut v, "-draw_mouse");
    push_arg(&mut v, "1");
    push_arg(&mut v, "-i");
    push_arg(&mut v, "desktop");
    proof {
        assert(args_view(v@) =~= seq!["-y"@] + input_args(o) + video_input_args());
    }

    // Video encoding parameters.
    push_arg(&mut v, "-c:v");
    push_arg(&mut v, "libx264");
    push_arg(&mut v, "-pix_fmt");
    push_arg(&mut v, "yuv420p");
    push_arg(&mut v, "-preset");
    push_arg(&mut v, "superfast");
    push_arg(&mut v, "-profile:v");
    push_arg(&mut v, "main");
    push_arg(&mut v, "-level");
    push_arg(&mut v, "3.0");
    push_arg(&mut v, "-g");
    push_arg(&mut v, "30");
    push_arg(&mut v, "-crf");
    push_arg(&mut v, "23");
    proof {
        assert(args_view(v@) =~= seq!["-y"@] + input_args(o) + video_input_args()
            + video_encode_args());
    }

    // The audio branch, selected by the number of audio inputs.
    let count = crate::options::count_audio_inputs(o);
    if count == 2 {
        let mut filter = String::from_str("[0:a]volume=");
        let mic_vol = format_tenths(o.mic_volume_tenths);
        filter.append(mic_vol.as_str());
        filter.append("[a0];[1:a]volume=");
        let sys_vol = format_tenths(o.system_audio_volume_tenths);
        filter.append(sys_vol.as_str());
        filter.append("[a1];[a0][a1]amix=inputs=2:duration=longest[aout]");
        proof {
            assert(filter@ == mix_filter(
                o.mic_volume_tenths as nat,
                o.system_audio_volume_tenths as nat,
            ));
        }
        push_arg(&mut v, "-filter_complex");
        push_arg_string(&mut v, filter);
        push_arg(&mut v, "-map");
        push_arg(&mut v, "2:v");
        push_arg(&mut v, "-map");
        push_arg(&mut v, "[aout]");
        push_arg(&mut v, "-c:a");
        push_arg(&mut v, "aac");
        push_arg(&mut v, "-b:a");
        push_arg(&mut v, "192k");
        push_arg(&mut v, "-ar");
        push_arg(&mut v, "44100");
        push_arg(&mut v, "-ac");
        push_arg(&mut v, "2");
    } else if count == 1 {
        let vol = if mic_active(o) {
            format_tenths(o.mic_volume_tenths)
        } else {
            format_tenths(o.system_audio_volume_tenths)
        };
        let mut filter = String::from_str("volume=");
        filter.append(vol.as_str());
        push_arg(&mut v, "-filter:a");
        push_arg_string(&mut v, filter);
        push_arg(&mut v, "-map");
        push_arg(&mut v, "1:v");
        push_arg(&mut v, "-map");
        push_arg(&mut v, "0:a");
        push_arg(&mut v, "-c:a");
        push_arg(&mut v, "aac");
        push_arg(&mut v, "-b:a");
        push_arg(&mut v, "128k");
        push_arg(&mut v, "-ar");
        push_arg(&mut v, "44100");
        push_arg(&mut v, "-ac");
        push_arg(&mut v, "2");
    } else {
        push_arg(&mut v, "-an");
    }
    proof {
        assert(args_view(v@) =~= seq!["-y"@] + input_args(o) + video_input_args()
            + video_encode_args() + audio_args(o));
    }

    // Fast-start for progressive playback, then the output path last.
    push_arg(&mut v, "-movflags");
    push_arg(&mut v, "+faststart");
    push_arg(&mut v, output_path);
    proof {
        assert(args_view(v@) =~= command_args(o, output_path@));
    }
    v
}

} // verus!
