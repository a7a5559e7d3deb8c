use five33clip::ffmpeg::{
    export_args, export_plan, merge_args, parse_seconds_us, passlog_files, probe_args, program_names,
    seconds_string, thumbnail_args, thumbnail_first_step, thumbnail_next, thumbnail_verdict, ThumbnailStep, trim_args, video_metadata, AudioPeaksError, MergeError, ProbeError,
    ShareExportError, StreamInfo, ThumbnailError, TrimError,
};

#[test]
fn error_messages() {
    assert_eq!(ProbeError::Failed("x".to_string()).message(), "ffprobe failed: x");
    assert_eq!(ProbeError::Parse("no width".to_string()).message(), "invalid ffprobe output: no width");
    assert_eq!(ThumbnailError::Failed("x".to_string()).message(), "ffmpeg failed: x");
    assert_eq!(TrimError::Failed("x".to_string()).message(), "ffmpeg trim failed: x");
    assert_eq!(MergeError::Failed("x".to_string()).message(), "ffmpeg merge failed: x");
    assert_eq!(ShareExportError::Failed("x".to_string()).message(), "ffmpeg export failed: x");
    assert!(AudioPeaksError::Failed("x".to_string()).message().ends_with("x"));
}

#[test]
fn program_file_names() {
    assert_eq!(
        program_names("ffmpeg", true),
        ("ffmpeg.exe".to_string(), "ffmpeg-x86_64-pc-windows-msvc.exe".to_string())
    );
    assert_eq!(program_names("ffprobe", false), ("ffprobe".to_string(), "ffprobe".to_string()));
}

#[test]
fn probe_command_line() {
    assert_eq!(
        probe_args("/c/a.mp4"),
        vec!["-v", "quiet", "-print_format", "json", "-show_format", "-show_streams", "/c/a.mp4"]
    );
}

#[test]
fn thumbnail_command_lines() {
    let tail = ["-i", "in.mp4", "-frames:v", "1", "-vf", "format=yuvj420p", "-q:v", "4", "-f", "image2", "out.jpg"];
    let mut seeked = vec!["-hide_banner", "-loglevel", "error", "-y", "-ss", "1"];
    seeked.extend(tail);
    assert_eq!(thumbnail_args("in.mp4", "out.jpg", Some("1")), seeked);
    let mut first = vec!["-hide_banner", "-loglevel", "error", "-y"];
    first.extend(tail);
    assert_eq!(thumbnail_args("in.mp4", "out.jpg", None), first);
}

#[test]
fn seconds_with_three_decimals() {
    assert_eq!(seconds_string(0), "0.000");
    assert_eq!(seconds_string(1_500_000), "1.500");
    assert_eq!(seconds_string(12_345_678), "12.346");
    assert_eq!(seconds_string(61_000_400), "61.000");
}

#[test]
fn trim_command_line() {
    assert_eq!(
        trim_args("in.mkv", "out.mp4", 2_000_000, 7_250_000).unwrap(),
        vec![
            "-hide_banner", "-loglevel", "error", "-y", "-ss", "2.000", "-i", "in.mkv", "-t", "5.250", "-c", "copy",
            "-avoid_negative_ts", "make_zero", "out.mp4"
        ]
    );
    assert!(matches!(trim_args("a", "b", 5, 5), Err(TrimError::Failed(m)) if m == "end must be after start"));
}

#[test]
fn merge_command_line() {
    let args = merge_args("prev.mp4", "next.mp4", 3_500_000, "out.mp4");
    assert_eq!(&args[..10], &["-hide_banner", "-loglevel", "error", "-y", "-i", "prev.mp4", "-ss", "3.500", "-i", "next.mp4"]);
    assert_eq!(args[11], "[0:v:0][0:a:0][1:v:0][1:a:0]concat=n=2:v=1:a=1[v][a]");
    assert_eq!(args.last().unwrap(), "out.mp4");
    assert!(args.contains(&"libx264".to_string()) && args.contains(&"192k".to_string()));
}

#[test]
fn export_bitrate_and_width() {
    let p = |s: u64| {
        let e = export_plan(s * 1_000_000);
        (e.video_kbps, e.scale_width)
    };
    assert_eq!(p(30), (2504, 1280));
    assert_eq!(p(60), (1204, 1024));
    assert_eq!(p(120), (554, 854));
    assert_eq!(p(1000), (150, 854));
    assert_eq!(p(0), (6000, 1280));
    assert_eq!(p(5), (6000, 1280));
}

#[test]
fn export_two_passes() {
    let (a, b) = export_args("in.mp4", "out.mp4", 30_000_000, "/tmp/log", "/dev/null");
    assert_eq!(a[0], "-hide_banner");
    assert!(a.windows(2).any(|w| w[0] == "-b:v" && w[1] == "2504k"));
    assert!(a.windows(2).any(|w| w[0] == "-vf" && w[1] == "scale=1280:-2:flags=lanczos"));
    assert!(a.windows(2).any(|w| w[0] == "-pass" && w[1] == "1"));
    assert_eq!(a.last().unwrap(), "/dev/null");
    assert!(b.windows(2).any(|w| w[0] == "-pass" && w[1] == "2"));
    assert!(b.windows(2).any(|w| w[0] == "-map" && w[1] == "0:a?"));
    assert_eq!(b.last().unwrap(), "out.mp4");
    assert_eq!(
        passlog_files("/tmp/log"),
        ("/tmp/log-0.log".to_string(), "/tmp/log-0.log.mbtree".to_string())
    );
}

#[test]
fn ffprobe_durations() {
    assert_eq!(parse_seconds_us("12.345678"), Some(12_345_678));
    assert_eq!(parse_seconds_us("12.3456789"), Some(12_345_678));
    assert_eq!(parse_seconds_us("7"), Some(7_000_000));
    assert_eq!(parse_seconds_us("0.5"), Some(500_000));
    assert_eq!(parse_seconds_us("N/A"), None);
    assert_eq!(parse_seconds_us(""), None);
}

fn stream(kind: Option<&str>, w: Option<u32>, h: Option<u32>) -> StreamInfo {
    StreamInfo { codec_type: kind.map(|k| k.to_string()), width: w, height: h }
}

#[test]
fn video_metadata_from_probe() {
    let ss = vec![stream(Some("audio"), None, None), stream(Some("video"), Some(1920), Some(1080))];
    let m = video_metadata(Some("30.5"), Some(&ss)).unwrap();
    assert_eq!((m.duration_us, m.width, m.height), (30_500_000, 1920, 1080));
    let m = video_metadata(None, Some(&ss)).unwrap();
    assert_eq!(m.duration_us, 0);
    assert!(matches!(video_metadata(Some("1"), None), Err(ProbeError::Parse(m)) if m == "no video stream"));
    let no_h = vec![stream(Some("video"), Some(10), None)];
    assert!(matches!(video_metadata(Some("1"), Some(&no_h)), Err(ProbeError::Parse(m)) if m == "no height"));
    let no_w = vec![stream(Some("video"), None, Some(10))];
    assert!(matches!(video_metadata(Some("1"), Some(&no_w)), Err(ProbeError::Parse(m)) if m == "no width"));
}

#[test]
fn thumbnail_retries_from_first_frame() {
    assert!(matches!(thumbnail_first_step(), ThumbnailStep::Extract { seek: Some(s), clear_output: false } if s == "1"));
    assert!(matches!(thumbnail_next(true, true), ThumbnailStep::Verify));
    assert!(matches!(thumbnail_next(true, false), ThumbnailStep::Extract { seek: None, clear_output: true }));
    assert!(matches!(thumbnail_next(false, false), ThumbnailStep::Fail));
    assert!(thumbnail_verdict(true).is_ok());
    assert_eq!(thumbnail_verdict(false).err().unwrap().message(), "ffmpeg failed: thumbnail output missing or empty");
}
