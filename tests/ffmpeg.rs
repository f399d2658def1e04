use autovideo::command::{
    audio_filter, copy_video, cut_silences_and_export, db_string, detect_silences, duration_probe,
    enhance_audio, extract_audio, keep_expression, seconds_string, silence_filter, video_filter,
};
use autovideo::ffmpeg::{parse_duration, parse_silencedetect};
use autovideo::interval::TimeInterval;
use autovideo::text::decimal_string;

fn iv(start: u64, end: u64) -> TimeInterval {
    TimeInterval::new(start, end)
}

#[test]
fn silencedetect_log_pairs_starts_and_ends() {
    let log = "[silencedetect @ 0x1] silence_start: 2.5\n\
               [silencedetect @ 0x1] silence_end: 3.75 | silence_duration: 1.25\n\
               frame=  10 fps=0.0\n\
               [silencedetect @ 0x1] silence_start: 10\n\
               [silencedetect @ 0x1] silence_end: 12.000001 | silence_duration: 2\n";
    assert_eq!(parse_silencedetect(log), vec![iv(2_500_000, 3_750_000), iv(10_000_000, 12_000_001)]);
}

#[test]
fn silencedetect_skips_unreadable_and_unpaired() {
    let log = "silence_end: 1.0\nsilence_start: 1.2.3\nsilence_start:   4.25\nsilence_start: .5\nsilence_end: 6.\nsilence_end: 7\n";
    assert_eq!(parse_silencedetect(log), vec![iv(500_000, 6_000_000)]);
    assert_eq!(parse_silencedetect(""), vec![]);
    assert_eq!(parse_silencedetect("silence_start: 0.1234567\nsilence_end: 1"), vec![iv(123_456, 1_000_000)]);
}

#[test]
fn duration_is_read_from_the_report() {
    let out = "Input #0, mov\n  Duration: 00:01:02.50, start: 0.000000, bitrate: 1 kb/s\n";
    assert_eq!(parse_duration(out), Some(62_500_000));
    assert_eq!(parse_duration("Duration: 01:00:00.123456789"), Some(3_600_123_456));
    assert_eq!(parse_duration("Duration: N/A"), None);
    assert_eq!(parse_duration("Duration: 1:00:00.00 Duration: 00:00:03.1"), Some(3_100_000));
}

#[test]
fn seconds_are_written_without_trailing_zeros() {
    assert_eq!(seconds_string(0), "0");
    assert_eq!(seconds_string(2_200_000), "2.2");
    assert_eq!(seconds_string(10_000_000), "10");
    assert_eq!(seconds_string(500_000), "0.5");
    assert_eq!(seconds_string(1_000_001), "1.000001");
    assert_eq!(decimal_string(u64::MAX), "18446744073709551615");
}

#[test]
fn decibels_keep_their_sign() {
    assert_eq!(db_string(-3000), "-30");
    assert_eq!(db_string(-3050), "-30.5");
    assert_eq!(db_string(125), "1.25");
    assert_eq!(db_string(0), "0");
    assert_eq!(db_string(i64::MIN), "-92233720368547758.08");
}

#[test]
fn keep_ranges_become_a_select_expression() {
    let rs = vec![iv(0, 2_200_000), iv(2_800_000, 5_200_000)];
    assert_eq!(keep_expression(&rs), "between(t,0,2.2)+between(t,2.8,5.2)");
    assert_eq!(video_filter(&rs), "select='between(t,0,2.2)+between(t,2.8,5.2)',setpts=N/FRAME_RATE/TB");
    assert_eq!(audio_filter(&rs, false), "aselect='between(t,0,2.2)+between(t,2.8,5.2)',asetpts=N/SR/TB");
    assert_eq!(
        audio_filter(&rs, true),
        "aselect='between(t,0,2.2)+between(t,2.8,5.2)',asetpts=N/SR/TB,afftdn=nf=-25,loudnorm=I=-16:TP=-1.5:LRA=11"
    );
}

#[test]
fn silence_filter_text() {
    assert_eq!(silence_filter(-3000, 500_000), "silencedetect=noise=-30dB:d=0.5");
    assert_eq!(silence_filter(-3050, 250_000), "silencedetect=noise=-30.5dB:d=0.25");
}

#[test]
fn argument_lists() {
    assert_eq!(
        enhance_audio("in.mp4", "out.mp4"),
        vec!["-i", "in.mp4", "-af", "afftdn=nf=-25,loudnorm=I=-16:TP=-1.5:LRA=11", "-c:v", "copy", "-y", "out.mp4"]
    );
    assert_eq!(
        copy_video("in.mp4", "out.mp4"),
        vec!["-i", "in.mp4", "-c:v", "copy", "-c:a", "aac", "-b:a", "192k", "-ar", "44100", "-movflags", "+faststart", "-y", "out.mp4"]
    );
    assert_eq!(
        detect_silences("in.mp4", -3500, 750_000),
        vec!["-i", "in.mp4", "-af", "silencedetect=noise=-35dB:d=0.75", "-f", "null", "-"]
    );
    assert_eq!(
        extract_audio("in.mp4", "in.mp4.pcm", 16000, 1),
        vec!["-i", "in.mp4", "-ar", "16000", "-ac", "1", "-f", "f32le", "-acodec", "pcm_f32le", "-y", "in.mp4.pcm"]
    );
    assert_eq!(duration_probe("x"), vec!["-i", "x", "-t", "0.000001", "-f", "null", "-"]);
    let cut = cut_silences_and_export("in.mp4", &vec![iv(0, 1_000_000)], "o.mp4", false);
    assert_eq!(cut.len(), 28);
    assert_eq!(cut[3], "select='between(t,0,1)',setpts=N/FRAME_RATE/TB");
    assert_eq!(cut[5], "aselect='between(t,0,1)',asetpts=N/SR/TB");
    assert_eq!(cut[7], "h264_videotoolbox");
    assert_eq!(cut[27], "o.mp4");
}

#[test]
fn silencedetect_accepts_unicode_blanks() {
    let log = "silence_start:\u{a0}2\nsilence_end:\u{2003}\t3\n";
    assert_eq!(parse_silencedetect(log), vec![iv(2_000_000, 3_000_000)]);
}

#[test]
fn silencedetect_rejects_numbers_with_other_digits() {
    let log = "silence_start: 2\u{663}\nsilence_end: 3\n";
    assert_eq!(parse_silencedetect(log), vec![]);
    let log = "silence_start: 1\nsilence_end: 4.\u{966}5\nsilence_end: 6\n";
    assert_eq!(parse_silencedetect(log), vec![iv(1_000_000, 6_000_000)]);
}

#[test]
fn duration_line_with_other_digits_is_passed_over() {
    assert_eq!(parse_duration("Duration: 00:00:03.1\u{663}\n"), None);
    assert_eq!(
        parse_duration("Duration: 00:00:0\u{663}.5 Duration: 00:00:04.00\n  Duration: 00:00:07.25, start"),
        Some(7_250_000)
    );
    assert_eq!(parse_duration("Duration: 1:00:00.00 Duration: 00:00:03.1\n"), Some(3_100_000));
}
