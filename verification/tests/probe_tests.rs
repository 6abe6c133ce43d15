use adventure::probe::{parse_ffmpeg_i_stderr, parse_ffprobe_csv, parse_u32, rgba_frame_bytes, split_at_any};

fn chars(s: &str) -> Vec<char> {
    s.chars().collect()
}

fn rate_of(text: &str) -> f64 {
    let (n, d) = text.split_once('/').unwrap();
    n.parse::<f64>().unwrap() / d.parse::<f64>().unwrap()
}

#[test]
fn parse_probe_csv() {
    let (w, h, rate) = parse_ffprobe_csv("64,48,10/1\n").unwrap();
    assert_eq!(w, 64);
    assert_eq!(h, 48);
    assert!((rate_of(&rate) - 10.0).abs() < 1e-6);
    assert_eq!(rgba_frame_bytes(w, h), 64 * 48 * 4);
}

#[test]
fn probe_csv_defaults_rate_and_rejects_zero() {
    assert_eq!(parse_ffprobe_csv(" 1280 , 720 \r\nnext"), Some((1280, 720, "30/1".to_string())));
    assert_eq!(parse_ffprobe_csv("0,720,25/1"), None);
    assert_eq!(parse_ffprobe_csv("1280"), None);
    assert_eq!(parse_ffprobe_csv(""), None);
    assert_eq!(parse_ffprobe_csv("\n1280,720"), None);
    assert_eq!(parse_ffprobe_csv("wide,720,25/1"), None);
}

#[test]
fn ffmpeg_banner_dimensions_and_fps_word() {
    let banner = "Input #0, matroska,webm, from 'red.webm':\n  Stream #0:0: Video: vp9, yuv420p, 64x48, 10 fps, 10 tbr\n";
    assert_eq!(parse_ffmpeg_i_stderr(banner), Some((64, 48, Some("10".to_string()))));
    let no_fps = "  Stream #0:0: Video: vp8, yuv420p(tv), 320x240 [SAR 1:1]\n";
    assert_eq!(parse_ffmpeg_i_stderr(no_fps), Some((320, 240, None)));
    assert_eq!(parse_ffmpeg_i_stderr("Stream #0:1: Audio: opus, 48000 Hz\n"), None);
    assert_eq!(parse_ffmpeg_i_stderr("Video: h264, 0x0, 25 fps\nVideo: h264, 8x6, 25 fps\n"), Some((8, 6, Some("25".to_string()))));
}

#[test]
fn u32_parsing_follows_from_str() {
    assert_eq!(parse_u32(&chars("42")), Some(42));
    assert_eq!(parse_u32(&chars("+7")), Some(7));
    assert_eq!(parse_u32(&chars("4294967295")), Some(u32::MAX));
    assert_eq!(parse_u32(&chars("4294967296")), None);
    assert_eq!(parse_u32(&chars("")), None);
    assert_eq!(parse_u32(&chars("+")), None);
    assert_eq!(parse_u32(&chars("-1")), None);
    assert_eq!(parse_u32(&chars("12a")), None);
    assert_eq!(parse_u32(&chars("007")), Some(7));
}

#[test]
fn frame_bytes_saturate() {
    assert_eq!(rgba_frame_bytes(0, 100), 0);
    assert_eq!(rgba_frame_bytes(1920, 1080), 1920 * 1080 * 4);
    let big = rgba_frame_bytes(u32::MAX, u32::MAX);
    assert_eq!(big as u128, ((u32::MAX as u128) * (u32::MAX as u128) * 4).min(usize::MAX as u128));
}

#[test]
fn split_keeps_empty_pieces() {
    let parts = split_at_any(&chars("a,,b "), &[',', ' ']);
    let parts: Vec<String> = parts.iter().map(|p| p.iter().collect()).collect();
    assert_eq!(parts, vec!["a", "", "b", ""]);
}
