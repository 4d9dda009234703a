use reframe_core::command::build_command;
use reframe_core::options::{count_audio_inputs, RecordingOptions};

fn opts(
    mic_enabled: bool,
    mic_device: Option<&str>,
    system_audio_enabled: bool,
    mic_tenths: u64,
    sys_tenths: u64,
) -> RecordingOptions {
    RecordingOptions {
        mic_enabled,
        mic_device: mic_device.map(|d| d.to_string()),
        system_audio_enabled,
        save_path: String::new(),
        capture_mode: None,
        window_title: None,
        region: None,
        mic_volume_tenths: mic_tenths,
        system_audio_volume_tenths: sys_tenths,
    }
}

#[test]
fn audio_input_count_all_combinations() {
    assert_eq!(count_audio_inputs(&opts(false, None, false, 10, 10)), 0);
    assert_eq!(count_audio_inputs(&opts(true, None, false, 10, 10)), 0);
    assert_eq!(count_audio_inputs(&opts(true, Some(""), false, 10, 10)), 0);
    assert_eq!(count_audio_inputs(&opts(true, Some("Default"), false, 10, 10)), 0);
    assert_eq!(count_audio_inputs(&opts(true, Some("Mic"), false, 10, 10)), 1);
    assert_eq!(count_audio_inputs(&opts(false, Some("Mic"), false, 10, 10)), 0);
    assert_eq!(count_audio_inputs(&opts(false, None, true, 10, 10)), 1);
    assert_eq!(count_audio_inputs(&opts(true, Some("Default"), true, 10, 10)), 1);
    assert_eq!(count_audio_inputs(&opts(true, Some("Mic"), true, 10, 10)), 2);
}

#[test]
fn command_no_audio() {
    let args = build_command(&opts(false, None, false, 10, 10), "out.mp4");
    let expected: Vec<&str> = vec![
        "-y", "-f", "gdigrab", "-framerate", "30", "-offset_x", "0", "-offset_y", "0",
        "-draw_mouse", "1", "-i", "desktop", "-c:v", "libx264", "-pix_fmt", "yuv420p", "-preset",
        "superfast", "-profile:v", "main", "-level", "3.0", "-g", "30", "-crf", "23", "-an",
        "-movflags", "+faststart", "out.mp4",
    ];
    assert_eq!(args, expected);
}

#[test]
fn command_two_audio_sources() {
    let args = build_command(&opts(true, Some("Mic A"), true, 10, 5), "C:\\x\\screen.mp4");
    let expected: Vec<&str> = vec![
        "-y", "-f", "dshow", "-i", "audio=Mic A", "-f", "dshow", "-i",
        "audio=virtual-audio-capturer", "-f", "gdigrab", "-framerate", "30", "-offset_x", "0",
        "-offset_y", "0", "-draw_mouse", "1", "-i", "desktop", "-c:v", "libx264", "-pix_fmt",
        "yuv420p", "-preset", "superfast", "-profile:v", "main", "-level", "3.0", "-g", "30",
        "-crf", "23", "-filter_complex",
        "[0:a]volume=1.0[a0];[1:a]volume=0.5[a1];[a0][a1]amix=inputs=2:duration=longest[aout]",
        "-map", "2:v", "-map", "[aout]", "-c:a", "aac", "-b:a", "192k", "-ar", "44100", "-ac",
        "2", "-movflags", "+faststart", "C:\\x\\screen.mp4",
    ];
    assert_eq!(args, expected);
}

#[test]
fn command_single_mic_source() {
    let args = build_command(&opts(true, Some("Mic"), false, 20, 10), "o.mp4");
    let expected: Vec<&str> = vec![
        "-y", "-f", "dshow", "-i", "audio=Mic", "-f", "gdigrab", "-framerate", "30", "-offset_x",
        "0", "-offset_y", "0", "-draw_mouse", "1", "-i", "desktop", "-c:v", "libx264", "-pix_fmt",
        "yuv420p", "-preset", "superfast", "-profile:v", "main", "-level", "3.0", "-g", "30",
        "-crf", "23", "-filter:a", "volume=2.0", "-map", "1:v", "-map", "0:a", "-c:a", "aac",
        "-b:a", "128k", "-ar", "44100", "-ac", "2", "-movflags", "+faststart", "o.mp4",
    ];
    assert_eq!(args, expected);
}

#[test]
fn command_single_system_source_uses_its_own_gain() {
    // Mic enabled but with the sentinel device: only system audio is
    // counted, so the single gain is the system-audio volume.
    let args = build_command(&opts(true, Some("Default"), true, 30, 5), "o.mp4");
    assert!(args.contains(&"volume=0.5".to_string()));
    assert!(!args.iter().any(|a| a.starts_with("audio=Default")));
    assert!(args.contains(&"audio=virtual-audio-capturer".to_string()));
    assert!(args.contains(&"-b:a".to_string()));
    assert!(args.contains(&"128k".to_string()));
}

#[test]
fn command_output_path_is_last() {
    let args = build_command(&opts(false, None, true, 10, 10), "final.mp4");
    assert_eq!(args.last().unwrap(), "final.mp4");
    assert_eq!(args[args.len() - 2], "+faststart");
    assert_eq!(args[0], "-y");
}
