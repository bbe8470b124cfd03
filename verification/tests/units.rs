//! The encoder's command line and its access units.

use vtcast::encoder::{encoder_args, spawn_failure_text, AccessUnitParser, EncoderKind, ENCODER_PROGRAM};

#[test]
fn parser_splits_on_aud() {
    // Two complete access units, each starting with AUD (00 00 00 01 09 ...)
    // and containing a slice (NAL type 1, byte 0x41).
    let stream: Vec<u8> = [
        0, 0, 0, 1, 9, 0x10, // AUD #1
        0, 0, 0, 1, 0x41, 0xab, 0xcd, // slice
        0, 0, 0, 1, 9, 0x10, // AUD #2 (boundary)
        0, 0, 0, 1, 0x41, 0xef, // slice
    ]
    .into_iter()
    .collect();
    let mut p = AccessUnitParser::new();
    let aus = p.feed(&stream);
    assert_eq!(aus.len(), 1, "first AU emitted, second still in progress");
    assert_eq!(aus[0], &stream[0..13]);
    let last = p.finish().expect("trailing AU");
    assert_eq!(last, &stream[13..]);
}

#[test]
fn parser_handles_split_feeds() {
    let mut p = AccessUnitParser::new();
    // Feed bytes one at a time across two AUDs
    let stream: Vec<u8> = [
        0, 0, 0, 1, 9, 0x10, 0xaa, //
        0, 0, 0, 1, 9, 0x10, 0xbb, //
        0, 0, 0, 1, 9, 0x10, 0xcc,
    ]
    .into_iter()
    .collect();
    let mut total_aus = Vec::new();
    for b in &stream {
        total_aus.extend(p.feed(&[*b]));
    }
    assert_eq!(total_aus.len(), 2);
    assert_eq!(total_aus[0], &stream[0..7]);
    assert_eq!(total_aus[1], &stream[7..14]);
}

#[test]
fn preamble_is_dropped() {
    let mut p = AccessUnitParser::new();
    assert!(p.feed(&[1, 2, 3, 0, 0, 0, 1, 9]).is_empty());
    assert_eq!(p.finish(), Some(vec![0, 0, 0, 1, 9]));
}

#[test]
fn short_start_codes_delimit_too() {
    let mut p = AccessUnitParser::new();
    let aus = p.feed(&[0, 0, 1, 0x69, 5, 6, 0, 0, 1, 9, 7, 8]);
    assert_eq!(aus, vec![vec![0, 0, 1, 0x69, 5, 6]]);
    assert_eq!(p.finish(), Some(vec![0, 0, 1, 9, 7, 8]));
}

#[test]
fn nothing_is_held_before_a_delimiter() {
    let mut p = AccessUnitParser::new();
    assert!(p.feed(&[0, 0, 0, 1, 0x41, 1, 2, 3]).is_empty());
    assert_eq!(p.finish(), None);
    assert_eq!(p.finish(), None);
}

#[test]
fn a_finished_parser_finishes_once() {
    let mut p = AccessUnitParser::new();
    p.feed(&[0, 0, 0, 1, 9, 1]);
    assert!(p.finish().is_some());
    assert_eq!(p.finish(), None);
}

#[test]
fn feeding_in_pieces_makes_no_difference() {
    let mut state = 12345u64;
    let mut stream = Vec::new();
    for _ in 0..6_000 {
        state = state.wrapping_mul(6364136223846793005).wrapping_add(1442695040888963407);
        // Mostly bytes that start codes and delimiters are made of.
        stream.push([0u8, 0, 0, 1, 9, 0x29, 0x41, 3][(state >> 60) as usize % 8]);
    }
    let mut whole = AccessUnitParser::new();
    let mut expected = whole.feed(&stream);
    expected.extend(whole.finish());
    for size in [1usize, 2, 3, 5, 7, 64] {
        let mut p = AccessUnitParser::new();
        let mut got = Vec::new();
        for chunk in stream.chunks(size) {
            got.extend(p.feed(chunk));
        }
        got.extend(p.finish());
        assert_eq!(got, expected);
    }
    assert!(expected.len() > 10);
    let joined: Vec<u8> = expected.concat();
    assert!(stream.ends_with(&joined));
    for unit in &expected {
        assert!(unit.starts_with(&[0, 0, 0, 1]) || unit.starts_with(&[0, 0, 1]));
    }
}

#[test]
fn command_line_of_libx264() {
    let args = encoder_args(EncoderKind::Libx264, 3840, 1080, 30, 8000);
    let expected = [
        "-hide_banner", "-loglevel", "warning", "-f", "rawvideo", "-pix_fmt", "rgba", "-s",
        "3840x1080", "-framerate", "30", "-i", "pipe:0", "-c:v", "libx264", "-preset", "ultrafast",
        "-tune", "zerolatency", "-profile:v", "baseline", "-pix_fmt", "yuv420p", "-b:v", "8000k",
        "-maxrate", "8000k", "-bufsize", "8000k", "-g", "60", "-bsf:v",
        "h264_metadata=aud=insert,dump_extra=freq=k", "-f", "h264", "pipe:1",
    ];
    assert_eq!(args, expected);
    assert_eq!(ENCODER_PROGRAM, "ffmpeg");
}

#[test]
fn hardware_codecs_have_their_own_tuning() {
    assert_eq!(EncoderKind::Nvenc.codec_name(), "h264_nvenc");
    assert_eq!(
        EncoderKind::Nvenc.tune_args(),
        vec!["-preset", "p1", "-tune", "ull", "-rc", "cbr", "-zerolatency", "1", "-profile:v", "baseline"]
    );
    assert_eq!(EncoderKind::Qsv.codec_name(), "h264_qsv");
    assert_eq!(
        EncoderKind::Qsv.tune_args(),
        vec!["-preset", "veryfast", "-async_depth", "1", "-profile:v", "baseline"]
    );
    assert_eq!(EncoderKind::Amf.codec_name(), "h264_amf");
    assert_eq!(
        EncoderKind::Amf.tune_args(),
        vec!["-quality", "speed", "-usage", "ultralowlatency", "-profile:v", "main"]
    );
}

#[test]
fn spawn_failures() {
    assert!(spawn_failure_text(EncoderKind::Qsv, true).starts_with("ffmpeg not found on PATH."));
    assert_eq!(spawn_failure_text(EncoderKind::Qsv, false), "spawn ffmpeg (codec=h264_qsv)");
}

#[test]
fn a_header_that_ends_the_stream_is_a_delimiter() {
    let mut p = AccessUnitParser::new();
    assert!(p.feed(&[0, 0, 1, 9]).is_empty());
    assert_eq!(p.finish(), Some(vec![0, 0, 1, 9]));

    let mut p = AccessUnitParser::new();
    let aus = p.feed(&[0, 0, 1, 9, 7, 0, 0, 1, 9]);
    assert_eq!(aus, vec![vec![0, 0, 1, 9, 7]]);
    assert_eq!(p.finish(), Some(vec![0, 0, 1, 9]));

    let mut p = AccessUnitParser::new();
    assert!(p.feed(&[0, 0, 0, 1]).is_empty());
    assert!(p.feed(&[9]).is_empty());
    assert_eq!(p.finish(), Some(vec![0, 0, 0, 1, 9]));
}
