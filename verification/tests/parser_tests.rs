use reframe_core::devices::parse_device_list;
use reframe_core::disk::parse_disk_info;
use reframe_core::text::{format_size_mb, format_tenths, parse_u64_or_zero, u64_to_string};

#[test]
fn device_lines_classify_audio_and_video() {
    let diag = "[dshow @ 0x1] \"Mic\" (audio)\n[dshow @ 0x2] \"Cam\" (video)\n";
    let d = parse_device_list(diag);
    assert_eq!(d.audio, vec!["Mic".to_string()]);
    assert_eq!(d.video, vec!["Cam".to_string()]);
}

#[test]
fn empty_diagnostics_yield_default_sentinels() {
    let d = parse_device_list("");
    assert_eq!(d.audio, vec!["Default".to_string()]);
    assert_eq!(d.video, vec!["Default".to_string()]);
}

#[test]
fn non_matching_lines_are_ignored() {
    let diag = "ffmpeg version n7.0\nStream mapping:\n[dshow @ 0x9] could not enumerate\n";
    let d = parse_device_list(diag);
    assert_eq!(d.audio, vec!["Default".to_string()]);
    assert_eq!(d.video, vec!["Default".to_string()]);
}

#[test]
fn device_order_follows_the_printed_order() {
    let diag = "[dshow @ 0xa] \"Headset Mic\" (audio)\r\nnoise in between\r\n[dshow @ 0xb] \"Desk Mic\" (audio)\r\n[dshow @ 0xc] \"Webcam HD\" (video)\r\n";
    let d = parse_device_list(diag);
    assert_eq!(
        d.audio,
        vec!["Headset Mic".to_string(), "Desk Mic".to_string()]
    );
    assert_eq!(d.video, vec!["Webcam HD".to_string()]);
}

#[test]
fn device_pattern_may_start_mid_line() {
    let diag = "prefix text [dshow @ 0x1]   \"A B\"   (video)\n";
    let d = parse_device_list(diag);
    assert_eq!(d.video, vec!["A B".to_string()]);
    assert_eq!(d.audio, vec!["Default".to_string()]);
}

#[test]
fn first_device_match_per_line_wins() {
    let diag = "[dshow @ 0x1] \"One\" (audio) [dshow @ 0x2] \"Two\" (audio)\n";
    let d = parse_device_list(diag);
    assert_eq!(d.audio, vec!["One".to_string()]);
}

#[test]
fn device_without_kind_is_not_a_device() {
    let diag = "[dshow @ 0x1] \"Just a name\"\n[dshow @ 0x2] \"X\" (other)\n";
    let d = parse_device_list(diag);
    assert_eq!(d.audio, vec!["Default".to_string()]);
    assert_eq!(d.video, vec!["Default".to_string()]);
}

#[test]
fn disk_info_reads_key_value_lines() {
    let out = "FreeSpace=123456789\r\nSize=987654321\r\nVolumeName=Data\r\n";
    let d = parse_disk_info(out);
    assert_eq!(d.free, 123456789);
    assert_eq!(d.total, 987654321);
    assert_eq!(d.label, "Data (C:)");
}

#[test]
fn disk_info_defaults_when_output_is_empty() {
    let d = parse_disk_info("");
    assert_eq!(d.free, 0);
    assert_eq!(d.total, 0);
    assert_eq!(d.label, "System Drive (C:)");
}

#[test]
fn disk_info_trims_spaces_and_tolerates_bad_numbers() {
    let out = "FreeSpace = 99 \nSize=abc\nVolumeName=  \n";
    let d = parse_disk_info(out);
    assert_eq!(d.free, 99);
    assert_eq!(d.total, 0);
    assert_eq!(d.label, "System Drive (C:)");
}

#[test]
fn disk_info_ignores_lines_without_one_equals() {
    let out = "FreeSpace\nSize=1=2\nVolumeName=V\n";
    let d = parse_disk_info(out);
    assert_eq!(d.free, 0);
    assert_eq!(d.total, 0);
    assert_eq!(d.label, "V (C:)");
}

#[test]
fn number_formatting_is_plain_decimal() {
    assert_eq!(u64_to_string(0), "0");
    assert_eq!(u64_to_string(907), "907");
    assert_eq!(u64_to_string(18446744073709551615), "18446744073709551615");
}

#[test]
fn number_parsing_matches_std_with_zero_fallback() {
    assert_eq!(parse_u64_or_zero("123"), 123);
    assert_eq!(parse_u64_or_zero("+123"), 123);
    assert_eq!(parse_u64_or_zero(""), 0);
    assert_eq!(parse_u64_or_zero("12a"), 0);
    assert_eq!(parse_u64_or_zero("-5"), 0);
    assert_eq!(parse_u64_or_zero("18446744073709551615"), 18446744073709551615);
    assert_eq!(parse_u64_or_zero("18446744073709551616"), 0);
    assert_eq!(
        parse_u64_or_zero("123"),
        "123".parse::<u64>().unwrap_or(0)
    );
}

#[test]
fn size_strings_round_to_one_decimal_place() {
    assert_eq!(format_size_mb(0), "0.0 MB");
    assert_eq!(format_size_mb(1048576), "1.0 MB");
    assert_eq!(format_size_mb(1572864), "1.5 MB");
    assert_eq!(format_size_mb(52429), "0.1 MB");
    assert_eq!(format_size_mb(52428), "0.0 MB");
}

#[test]
fn size_string_ties_round_to_even() {
    // Exact quarter-megabyte ties go to the even tenth, as the
    // one-decimal float rendering does.
    assert_eq!(format_size_mb(262144), "0.2 MB");
    assert_eq!(format_size_mb(786432), "0.8 MB");
    assert_eq!(format_size_mb(1310720), "1.2 MB");
}

#[test]
fn size_string_matches_float_rendering() {
    let cases: Vec<u64> = vec![
        0, 1, 52428, 52429, 262144, 524288, 786432, 1048576, 1310720, 1572864, 123456789,
        9999999999,
    ];
    for b in cases {
        assert_eq!(format_size_mb(b), format!("{:.1} MB", b as f64 / 1048576.0));
    }
}

#[test]
fn volume_tenths_render_with_one_decimal() {
    assert_eq!(format_tenths(10), "1.0");
    assert_eq!(format_tenths(5), "0.5");
    assert_eq!(format_tenths(25), "2.5");
    assert_eq!(format_tenths(0), "0.0");
}
