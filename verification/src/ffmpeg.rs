//! What the library asks of ffprobe and ffmpeg: the command lines for
//! probing, thumbnails, lossless trims, overlap merges and Discord-sized
//! exports; reading ffprobe's answer; and the errors each step reports.
//!
//! Running the programs, and the temporary files they write, are the
//! caller's part. Times are whole microseconds; they are written with three
//! decimals, rounding half to even.
use vstd::prelude::*;

use crate::numtext::{all_digits, decimal, decimal_string, digits_value, is_digit, json_uint, json_uint_chars};
use crate::sorted::views;
use crate::text::{append_str, owned, push_char, str_eq};

verus! {

// ------------------------------------------------------------ errors

#[derive(Debug)]
pub enum ProbeError {
    Failed(String),
    Parse(String),
}

impl ProbeError {
    pub fn message(&self) -> (r: String)
        ensures
            r@ == match self {
                ProbeError::Failed(m) => "ffprobe failed: "@ + m@,
                ProbeError::Parse(m) => "invalid ffprobe output: "@ + m@,
            },
    {
        match self {
            ProbeError::Failed(m) => {
                let mut r = owned("ffprobe failed: ");
                append_str(&mut r, m.as_str());
                r
            },
            ProbeError::Parse(m) => {
                let mut r = owned("invalid ffprobe output: ");
                append_str(&mut r, m.as_str());
                r
            },
        }
    }
}

#[derive(Debug)]
pub enum ThumbnailError {
    Failed(String),
}

impl ThumbnailError {
    pub fn message(&self) -> (r: String)
        ensures
            r@ == match self {
                ThumbnailError::Failed(m) => "ffmpeg failed: "@ + m@,
            },
    {
        match self {
            ThumbnailError::Failed(m) => {
                let mut r = owned("ffmpeg failed: ");
                append_str(&mut r, m.as_str());
                r
            },
        }
    }
}

#[derive(Debug)]
pub enum TrimError {
    Failed(String),
}

impl TrimError {
    pub fn message(&self) -> (r: String)
        ensures
            r@ == match self {
                TrimError::Failed(m) => "ffmpeg trim failed: "@ + m@,
            },
    {
        match self {
            TrimError::Failed(m) => {
                let mut r = owned("ffmpeg trim failed: ");
                append_str(&mut r, m.as_str());
                r
            },
        }
    }
}

#[derive(Debug)]
pub enum MergeError {
    Failed(String),
}

impl MergeError {
    pub fn message(&self) -> (r: String)
        ensures
            r@ == match self {
                MergeError::Failed(m) => "ffmpeg merge failed: "@ + m@,
            },
    {
        match self {
            MergeError::Failed(m) => {
                let mut r = owned("ffmpeg merge failed: ");
                append_str(&mut r, m.as_str());
                r
            },
        }
    }
}

#[derive(Debug)]
pub enum ShareExportError {
    Failed(String),
}

impl ShareExportError {
    pub fn message(&self) -> (r: String)
        ensures
            r@ == match self {
                ShareExportError::Failed(m) => "ffmpeg export failed: "@ + m@,
            },
    {
        match self {
            ShareExportError::Failed(m) => {
                let mut r = owned("ffmpeg export failed: ");
                append_str(&mut r, m.as_str());
                r
            },
        }
    }
}

#[derive(Debug)]
pub enum AudioPeaksError {
    Failed(String),
}

impl AudioPeaksError {
    pub fn message(&self) -> (r: String)
        ensures
            r@ == match self {
                AudioPeaksError::Failed(m) => "ffmpeg audio analysis failed: "@ + m@,
            },
    {
        match self {
            AudioPeaksError::Failed(m) => {
                let mut r = owned("ffmpeg audio analysis failed: ");
                append_str(&mut r, m.as_str());
                r
            },
        }
    }
}

// ------------------------------------------------------------ arguments

/// An argument list built up one argument at a time.
fn arg(args: &mut Vec<String>, a: &str)
    ensures
        views(final(args)@) == views(old(args)@).push(a@),
{
    let ghost before = args@;
    args.push(owned(a));
    assert(views(args@) =~= views(before).push(a@));
}

/// The program file names looked for: `{program}.exe` and the bundled
/// `{program}-x86_64-pc-windows-msvc.exe` on Windows, the bare name
/// elsewhere.
pub open spec fn program_names_spec(program: Seq<char>, windows: bool) -> (Seq<char>, Seq<char>) {
    if windows {
        (program + ".exe"@, program + "-x86_64-pc-windows-msvc.exe"@)
    } else {
        (program, program)
    }
}

pub fn program_names(program: &str, windows: bool) -> (r: (String, String))
    ensures
        (r.0@, r.1@) == program_names_spec(program@, windows),
{
    if windows {
        let mut exe = owned(program);
        append_str(&mut exe, ".exe");
        let mut sidecar = owned(program);
        append_str(&mut sidecar, "-x86_64-pc-windows-msvc.exe");
        (exe, sidecar)
    } else {
        (owned(program), owned(program))
    }
}

/// `ffprobe -v quiet -print_format json -show_format -show_streams {path}`.
pub fn probe_args(path: &str) -> (r: Vec<String>)
    ensures
        views(r@) == seq![
            "-v"@,
            "quiet"@,
            "-print_format"@,
            "json"@,
            "-show_format"@,
            "-show_streams"@,
            path@,
        ],
{
    let mut a: Vec<String> = Vec::new();
    arg(&mut a, "-v");
    arg(&mut a, "quiet");
    arg(&mut a, "-print_format");
    arg(&mut a, "json");
    arg(&mut a, "-show_format");
    arg(&mut a, "-show_streams");
    arg(&mut a, path);
    assert(views(a@) =~= seq![
        "-v"@,
        "quiet"@,
        "-print_format"@,
        "json"@,
        "-show_format"@,
        "-show_streams"@,
        path@,
    ]);
    a
}

/// One frame as a JPEG: seeking to `seek` seconds first where given, in
/// full-range colour so the encoder accepts it.
pub open spec fn thumbnail_args_spec(input: Seq<char>, output: Seq<char>, seek: Option<Seq<char>>) -> Seq<
    Seq<char>,
> {
    let head = seq!["-hide_banner"@, "-loglevel"@, "error"@, "-y"@];
    let seek_part = match seek {
        Some(s) => seq!["-ss"@, s],
        None => Seq::empty(),
    };
    head + seek_part + seq![
        "-i"@,
        input,
        "-frames:v"@,
        "1"@,
        "-vf"@,
        "format=yuvj420p"@,
        "-q:v"@,
        "4"@,
        "-f"@,
        "image2"@,
        output,
    ]
}

/// The next move in making a thumbnail.
pub enum ThumbnailStep {
    /// Extract one frame, seeking to `seek` seconds first where given; a
    /// partial output is removed first where `clear_output`.
    Extract { seek: Option<String>, clear_output: bool },
    /// Check that the output file holds a frame.
    Verify,
    /// Give up with the first attempt's error.
    Fail,
}

/// The first attempt: the frame at 1 s.
pub fn thumbnail_first_step() -> (r: ThumbnailStep)
    ensures
        r matches ThumbnailStep::Extract { seek: Some(t), clear_output: false } && t@ == "1"@,
{
    ThumbnailStep::Extract { seek: Some(owned("1")), clear_output: false }
}

/// After an attempt: a frame written is checked; a failed seek is retried
/// from the first frame (recordings with a broken length), after removing
/// what it left; a failed first-frame attempt gives up.
pub fn thumbnail_next(seeked: bool, succeeded: bool) -> (r: ThumbnailStep)
    ensures
        succeeded ==> r is Verify,
        !succeeded && seeked ==> r matches ThumbnailStep::Extract { seek: None, clear_output: true },
        !succeeded && !seeked ==> r is Fail,
{
    if succeeded {
        ThumbnailStep::Verify
    } else if seeked {
        ThumbnailStep::Extract { seek: None, clear_output: true }
    } else {
        ThumbnailStep::Fail
    }
}

/// The check at the end: a thumbnail file that is missing or empty fails.
pub fn thumbnail_verdict(output_nonempty: bool) -> (r: Result<(), ThumbnailError>)
    ensures
        output_nonempty <==> r is Ok,
        r matches Err(ThumbnailError::Failed(m)) ==> m@ == "thumbnail output missing or empty"@,
{
    if output_nonempty {
        Ok(())
    } else {
        Err(ThumbnailError::Failed(owned("thumbnail output missing or empty")))
    }
}

pub fn thumbnail_args(input: &str, output: &str, seek: Option<&str>) -> (r: Vec<String>)
    ensures
        views(r@) == thumbnail_args_spec(input@, output@, match seek {
            Some(s) => Some(s@),
            None => None,
        }),
{
    let mut a: Vec<String> = Vec::new();
    arg(&mut a, "-hide_banner");
    arg(&mut a, "-loglevel");
    arg(&mut a, "error");
    arg(&mut a, "-y");
    match seek {
        Some(s) => {
            arg(&mut a, "-ss");
            arg(&mut a, s);
        },
        None => {},
    }
    arg(&mut a, "-i");
    arg(&mut a, input);
    arg(&mut a, "-frames:v");
    arg(&mut a, "1");
    arg(&mut a, "-vf");
    arg(&mut a, "format=yuvj420p");
    arg(&mut a, "-q:v");
    arg(&mut a, "4");
    arg(&mut a, "-f");
    arg(&mut a, "image2");
    arg(&mut a, output);
    assert(views(a@) =~= thumbnail_args_spec(input@, output@, match seek {
        Some(s) => Some(s@),
        None => None,
    }));
    a
}

// ------------------------------------------------------------ seconds

/// Microseconds rounded to milliseconds, half to even.
pub open spec fn round_ms(us: nat) -> nat {
    let q = us / 1000;
    let r = us % 1000;
    if r > 500 || (r == 500 && q % 2 == 1) {
        q + 1
    } else {
        q
    }
}

/// Three decimal digits, with leading zeros.
pub open spec fn three_digits(n: nat) -> Seq<char>
    recommends
        n < 1000,
{
    seq![
        (((n / 100) % 10) + 48) as char,
        (((n / 10) % 10) + 48) as char,
        ((n % 10) + 48) as char,
    ]
}

/// `format!("{:.3}", us as seconds)`.
pub open spec fn seconds_text(us: nat) -> Seq<char> {
    let ms = round_ms(us);
    decimal(ms / 1000) + seq!['.'] + three_digits(ms % 1000)
}

pub fn seconds_string(us: u64) -> (r: String)
    ensures
        r@ == seconds_text(us as nat),
{
    let q = us / 1000;
    let rem = us % 1000;
    let ms: u64 = if rem > 500 || (rem == 500 && q % 2 == 1) {
        q + 1
    } else {
        q
    };
    let mut r = decimal_string(ms / 1000);
    push_char(&mut r, '.');
    let f = ms % 1000;
    push_char(&mut r, crate::text::char_from_ascii_code(((f / 100) % 10 + 48) as u32));
    push_char(&mut r, crate::text::char_from_ascii_code(((f / 10) % 10 + 48) as u32));
    push_char(&mut r, crate::text::char_from_ascii_code((f % 10 + 48) as u32));
    assert(r@ =~= seconds_text(us as nat));
    r
}

/// A lossless cut from `start` to `end` (stream copy, timestamps from zero).
pub open spec fn trim_args_spec(input: Seq<char>, output: Seq<char>, start_us: nat, end_us: nat) -> Seq<
    Seq<char>,
> {
    seq![
        "-hide_banner"@,
        "-loglevel"@,
        "error"@,
        "-y"@,
        "-ss"@,
        seconds_text(start_us),
        "-i"@,
        input,
        "-t"@,
        seconds_text((end_us - start_us) as nat),
        "-c"@,
        "copy"@,
        "-avoid_negative_ts"@,
        "make_zero"@,
        output,
    ]
}

/// `trim_lossless`'s command line; the end must come after the start.
pub fn trim_args(input: &str, output: &str, start_us: u64, end_us: u64) -> (r: Result<
    Vec<String>,
    TrimError,
>)
    ensures
        match r {
            Ok(a) => start_us < end_us && views(a@) == trim_args_spec(
                input@,
                output@,
                start_us as nat,
                end_us as nat,
            ),
            Err(TrimError::Failed(m)) => end_us <= start_us && m@ == "end must be after start"@,
        },
{
    if end_us <= start_us {
        return Err(TrimError::Failed(owned("end must be after start")));
    }
    let start = seconds_string(start_us);
    let dur = seconds_string(end_us - start_us);
    let mut a: Vec<String> = Vec::new();
    arg(&mut a, "-hide_banner");
    arg(&mut a, "-loglevel");
    arg(&mut a, "error");
    arg(&mut a, "-y");
    arg(&mut a, "-ss");
    arg(&mut a, start.as_str());
    arg(&mut a, "-i");
    arg(&mut a, input);
    arg(&mut a, "-t");
    arg(&mut a, dur.as_str());
    arg(&mut a, "-c");
    arg(&mut a, "copy");
    arg(&mut a, "-avoid_negative_ts");
    arg(&mut a, "make_zero");
    arg(&mut a, output);
    assert(views(a@) =~= trim_args_spec(input@, output@, start_us as nat, end_us as nat));
    Ok(a)
}

/// Both clips re-encoded into one: all of `prev`, then `next` from
/// `trim_start`.
pub open spec fn merge_args_spec(prev: Seq<char>, next: Seq<char>, trim_start_us: nat, output: Seq<char>) -> Seq<
    Seq<char>,
> {
    seq![
        "-hide_banner"@,
        "-loglevel"@,
        "error"@,
        "-y"@,
        "-i"@,
        prev,
        "-ss"@,
        seconds_text(trim_start_us),
        "-i"@,
        next,
        "-filter_complex"@,
        "[0:v:0][0:a:0][1:v:0][1:a:0]concat=n=2:v=1:a=1[v][a]"@,
        "-map"@,
        "[v]"@,
        "-map"@,
        "[a]"@,
        "-c:v"@,
        "libx264"@,
        "-preset"@,
        "veryfast"@,
        "-crf"@,
        "18"@,
        "-c:a"@,
        "aac"@,
        "-b:a"@,
        "192k"@,
        "-movflags"@,
        "+faststart"@,
        output,
    ]
}

pub fn merge_args(prev: &str, next: &str, trim_start_us: u64, output: &str) -> (r: Vec<String>)
    ensures
        views(r@) == merge_args_spec(prev@, next@, trim_start_us as nat, output@),
{
    let ts = seconds_string(trim_start_us);
    let mut a: Vec<String> = Vec::new();
    arg(&mut a, "-hide_banner");
    arg(&mut a, "-loglevel");
    arg(&mut a, "error");
    arg(&mut a, "-y");
    arg(&mut a, "-i");
    arg(&mut a, prev);
    arg(&mut a, "-ss");
    arg(&mut a, ts.as_str());
    arg(&mut a, "-i");
    arg(&mut a, next);
    arg(&mut a, "-filter_complex");
    arg(&mut a, "[0:v:0][0:a:0][1:v:0][1:a:0]concat=n=2:v=1:a=1[v][a]");
    arg(&mut a, "-map");
    arg(&mut a, "[v]");
    arg(&mut a, "-map");
    arg(&mut a, "[a]");
    arg(&mut a, "-c:v");
    arg(&mut a, "libx264");
    arg(&mut a, "-preset");
    arg(&mut a, "veryfast");
    arg(&mut a, "-crf");
    arg(&mut a, "18");
    arg(&mut a, "-c:a");
    arg(&mut a, "aac");
    arg(&mut a, "-b:a");
    arg(&mut a, "192k");
    arg(&mut a, "-movflags");
    arg(&mut a, "+faststart");
    arg(&mut a, output);
    assert(views(a@) =~= merge_args_spec(prev@, next@, trim_start_us as nat, output@));
    a
}

// ------------------------------------------------------------ discord export

/// The export fits a 9.3 MiB budget (78 014 054.4 bits) with 96 kb/s audio:
/// the video gets the rest of the budget per second, held between 150 and
/// 6000 kb/s and rounded half away from zero; clips under half a second count
/// as half a second. Lower rates get a narrower frame: under 700 kb/s 854
/// pixels wide, under 1800 kb/s 1024, else 1280.
pub open spec fn export_plan_spec(duration_us: nat) -> (nat, nat) {
    let d: int = if duration_us < 500_000 {
        500_000
    } else {
        duration_us as int
    };
    let n: int = 78_014_054_400 - 96 * d;
    if n < 150 * d {
        (150, 854)
    } else if n > 6000 * d {
        (6000, 1280)
    } else {
        let kbps = ((2 * n + d) / (2 * d)) as nat;
        let width: nat = if n < 700 * d {
            854
        } else if n < 1800 * d {
            1024
        } else {
            1280
        };
        (kbps, width)
    }
}

pub struct ExportPlan {
    pub video_kbps: u64,
    pub scale_width: u64,
}

pub fn export_plan(duration_us: u64) -> (r: ExportPlan)
    ensures
        (r.video_kbps as nat, r.scale_width as nat) == export_plan_spec(duration_us as nat),
{
    let d: i128 = if duration_us < 500_000 {
        500_000
    } else {
        duration_us as i128
    };
    let n: i128 = 78_014_054_400 - 96 * d;
    if n < 150 * d {
        ExportPlan { video_kbps: 150, scale_width: 854 }
    } else if n > 6000 * d {
        ExportPlan { video_kbps: 6000, scale_width: 1280 }
    } else {
        let k: i128 = (2 * n + d) / (2 * d);
        assert(0 <= k <= 6000) by (nonlinear_arith)
            requires
                150 * d <= n <= 6000 * d,
                d > 0,
                k == (2 * n + d) / (2 * d),
        ;
        let width: u64 = if n < 700 * d {
            854
        } else if n < 1800 * d {
            1024
        } else {
            1280
        };
        ExportPlan { video_kbps: k as u64, scale_width: width }
    }
}

/// `{kbps}k`.
pub open spec fn bitrate_text(kbps: nat) -> Seq<char> {
    decimal(kbps) + seq!['k']
}

/// `scale={width}:-2:flags=lanczos`.
pub open spec fn scale_filter_text(width: nat) -> Seq<char> {
    "scale="@ + decimal(width) + ":-2:flags=lanczos"@
}

/// The first pass: video only, to the null sink, writing the pass log.
pub open spec fn export_pass1_spec(input: Seq<char>, plan: (nat, nat), passlog: Seq<char>, null_sink: Seq<char>) -> Seq<
    Seq<char>,
> {
    seq![
        "-hide_banner"@,
        "-loglevel"@,
        "error"@,
        "-y"@,
        "-i"@,
        input,
        "-map"@,
        "0:v:0"@,
        "-an"@,
        "-vf"@,
        scale_filter_text(plan.1),
        "-c:v"@,
        "libx264"@,
        "-preset"@,
        "veryfast"@,
        "-b:v"@,
        bitrate_text(plan.0),
        "-pass"@,
        "1"@,
        "-passlogfile"@,
        passlog,
        "-f"@,
        "mp4"@,
        null_sink,
    ]
}

/// The second pass: video and any audio, to the output file.
pub open spec fn export_pass2_spec(input: Seq<char>, plan: (nat, nat), passlog: Seq<char>, output: Seq<char>) -> Seq<
    Seq<char>,
> {
    seq![
        "-hide_banner"@,
        "-loglevel"@,
        "error"@,
        "-y"@,
        "-i"@,
        input,
        "-map"@,
        "0:v:0"@,
        "-map"@,
        "0:a?"@,
        "-vf"@,
        scale_filter_text(plan.1),
        "-c:v"@,
        "libx264"@,
        "-preset"@,
        "veryfast"@,
        "-b:v"@,
        bitrate_text(plan.0),
        "-pass"@,
        "2"@,
        "-passlogfile"@,
        passlog,
        "-c:a"@,
        "aac"@,
        "-b:a"@,
        "96k"@,
        "-movflags"@,
        "+faststart"@,
        output,
    ]
}

fn bitrate_string(kbps: u64) -> (r: String)
    ensures
        r@ == bitrate_text(kbps as nat),
{
    let mut r = decimal_string(kbps);
    push_char(&mut r, 'k');
    r
}

fn scale_filter_string(width: u64) -> (r: String)
    ensures
        r@ == scale_filter_text(width as nat),
{
    let mut r = owned("scale=");
    let w = decimal_string(width);
    append_str(&mut r, w.as_str());
    append_str(&mut r, ":-2:flags=lanczos");
    r
}

/// The two command lines of `export_for_discord`'s 2-pass encode.
pub fn export_args(
    input: &str,
    output: &str,
    duration_us: u64,
    passlog: &str,
    null_sink: &str,
) -> (r: (Vec<String>, Vec<String>))
    ensures
        views(r.0@) == export_pass1_spec(input@, export_plan_spec(duration_us as nat), passlog@, null_sink@),
        views(r.1@) == export_pass2_spec(input@, export_plan_spec(duration_us as nat), passlog@, output@),
{
    let plan = export_plan(duration_us);
    let rate = bitrate_string(plan.video_kbps);
    let scale = scale_filter_string(plan.scale_width);
    let mut a: Vec<String> = Vec::new();
    arg(&mut a, "-hide_banner");
    arg(&mut a, "-loglevel");
    arg(&mut a, "error");
    arg(&mut a, "-y");
    arg(&mut a, "-i");
    arg(&mut a, input);
    arg(&mut a, "-map");
    arg(&mut a, "0:v:0");
    arg(&mut a, "-an");
    arg(&mut a, "-vf");
    arg(&mut a, scale.as_str());
    arg(&mut a, "-c:v");
    arg(&mut a, "libx264");
    arg(&mut a, "-preset");
    arg(&mut a, "veryfast");
    arg(&mut a, "-b:v");
    arg(&mut a, rate.as_str());
    arg(&mut a, "-pass");
    arg(&mut a, "1");
    arg(&mut a, "-passlogfile");
    arg(&mut a, passlog);
    arg(&mut a, "-f");
    arg(&mut a, "mp4");
    arg(&mut a, null_sink);
    assert(views(a@) =~= export_pass1_spec(
        input@,
        export_plan_spec(duration_us as nat),
        passlog@,
        null_sink@,
    ));
    let mut b: Vec<String> = Vec::new();
    arg(&mut b, "-hide_banner");
    arg(&mut b, "-loglevel");
    arg(&mut b, "error");
    arg(&mut b, "-y");
    arg(&mut b, "-i");
    arg(&mut b, input);
    arg(&mut b, "-map");
    arg(&mut b, "0:v:0");
    arg(&mut b, "-map");
    arg(&mut b, "0:a?");
    arg(&mut b, "-vf");
    arg(&mut b, scale.as_str());
    arg(&mut b, "-c:v");
    arg(&mut b, "libx264");
    arg(&mut b, "-preset");
    arg(&mut b, "veryfast");
    arg(&mut b, "-b:v");
    arg(&mut b, rate.as_str());
    arg(&mut b, "-pass");
    arg(&mut b, "2");
    arg(&mut b, "-passlogfile");
    arg(&mut b, passlog);
    arg(&mut b, "-c:a");
    arg(&mut b, "aac");
    arg(&mut b, "-b:a");
    arg(&mut b, "96k");
    arg(&mut b, "-movflags");
    arg(&mut b, "+faststart");
    arg(&mut b, output);
    assert(views(b@) =~= export_pass2_spec(
        input@,
        export_plan_spec(duration_us as nat),
        passlog@,
        output@,
    ));
    (a, b)
}

/// The files ffmpeg's pass log leaves, to be removed afterwards.
pub fn passlog_files(passlog: &str) -> (r: (String, String))
    ensures
        r.0@ == passlog@ + "-0.log"@,
        r.1@ == passlog@ + "-0.log.mbtree"@,
{
    let mut a = owned(passlog);
    append_str(&mut a, "-0.log");
    let mut b = owned(passlog);
    append_str(&mut b, "-0.log.mbtree");
    (a, b)
}

// ------------------------------------------------------------ probe result

/// Where the first `.` is, or -1.
pub open spec fn first_dot(t: Seq<char>) -> int
    decreases t.len(),
{
    if t.len() == 0 {
        -1
    } else if first_dot(t.drop_last()) >= 0 {
        first_dot(t.drop_last())
    } else if t.last() == '.' {
        t.len() - 1
    } else {
        -1
    }
}

pub proof fn lemma_first_dot(t: Seq<char>)
    ensures
        -1 <= first_dot(t) < t.len(),
        first_dot(t) >= 0 ==> t[first_dot(t)] == '.',
        forall|j: int| 0 <= j < t.len() && (first_dot(t) == -1 || j < first_dot(t)) ==> t[j] != '.',
    decreases t.len(),
{
    if t.len() > 0 {
        lemma_first_dot(t.drop_last());
        assert forall|j: int|
            0 <= j < t.len() && (first_dot(t) == -1 || j < first_dot(t)) implies t[j] != '.' by {
            if j < t.len() - 1 {
                assert(t.drop_last()[j] == t[j]);
            }
        }
    }
}

/// The first six fractional digits as microseconds (missing ones are 0).
pub open spec fn frac_us(f: Seq<char>) -> nat {
    digits_value((f + "000000"@).take(6))
}

/// A duration in seconds as ffprobe prints it (`12.345678`: digits, with a
/// fractional part after a dot), in whole microseconds; digits past the
/// sixth decimal are dropped.
pub open spec fn seconds_us_spec(t: Seq<char>) -> Option<nat> {
    let i = first_dot(t);
    let a = if i >= 0 {
        t.take(i)
    } else {
        t
    };
    let f = if i >= 0 {
        t.skip(i + 1)
    } else {
        Seq::empty()
    };
    if (a.len() > 0 || f.len() > 0) && all_digits(a) && all_digits(f) && digits_value(a)
        * 1_000_000 + frac_us(f) <= u64::MAX {
        Some(digits_value(a) * 1_000_000 + frac_us(f))
    } else {
        None
    }
}

fn digits_in(v: &Vec<char>, from: usize, to: usize) -> (r: bool)
    requires
        from <= to <= v@.len(),
    ensures
        r == all_digits(v@.subrange(from as int, to as int)),
{
    let mut k: usize = from;
    while k < to
        invariant
            from <= k <= to <= v@.len(),
            forall|j: int| from <= j < k ==> is_digit(#[trigger] v@[j]),
        decreases to - k,
    {
        if !('0' <= v[k] && v[k] <= '9') {
            assert(!is_digit(v@.subrange(from as int, to as int)[k - from]));
            return false;
        }
        k += 1;
    }
    assert forall|j: int| 0 <= j < to - from implies is_digit(
        #[trigger] v@.subrange(from as int, to as int)[j],
    ) by {
        assert(v@.subrange(from as int, to as int)[j] == v@[from + j]);
    }
    true
}

pub fn parse_seconds_us(text: &str) -> (r: Option<u64>)
    ensures
        match r {
            Some(v) => seconds_us_spec(text@) == Some(v as nat),
            None => seconds_us_spec(text@) is None,
        },
{
    let t = crate::text::chars_of(text);
    proof {
        lemma_first_dot(t@);
    }
    let mut i: usize = 0;
    while i < t.len() && t[i] != '.'
        invariant
            i <= t@.len(),
            forall|j: int| 0 <= j < i ==> t@[j] != '.',
            -1 <= first_dot(t@) < t@.len(),
            first_dot(t@) >= 0 ==> t@[first_dot(t@)] == '.',
            forall|j: int|
                0 <= j < t@.len() && (first_dot(t@) == -1 || j < first_dot(t@)) ==> t@[j] != '.',
        decreases t.len() - i,
    {
        i += 1;
    }
    let has_dot = i < t.len();
    assert(first_dot(t@) == if has_dot {
        i as int
    } else {
        -1
    });
    let a_end = i;
    let f_start = if has_dot {
        i + 1
    } else {
        t.len()
    };
    assert(t@.take(a_end as int) =~= t@.subrange(0, a_end as int));
    assert(has_dot ==> t@.skip(f_start as int) =~= t@.subrange(f_start as int, t@.len() as int));
    assert(!has_dot ==> t@.take(a_end as int) =~= t@);
    if a_end == 0 && f_start == t.len() {
        return None;
    }
    if !digits_in(&t, 0, a_end) || !digits_in(&t, f_start, t.len()) {
        return None;
    }
    // the fractional digits, padded or cut to six
    let mut frac: u64 = 0;
    let mut k: usize = 0;
    let ghost f = t@.subrange(f_start as int, t@.len() as int);
    let ghost padded = f + "000000"@;
    proof {
        reveal_strlit("000000");
    }
    while k < 6
        invariant
            k <= 6,
            f_start <= t@.len(),
            f == t@.subrange(f_start as int, t@.len() as int),
            padded == f + "000000"@,
            "000000"@ == seq!['0', '0', '0', '0', '0', '0'],
            all_digits(f),
            frac as nat == digits_value(padded.take(k as int)),
            frac < crate::numtext::pow10(k as nat),
        decreases 6 - k,
    {
        proof {
            reveal_with_fuel(crate::numtext::pow10, 7);
            assert(padded.take(k + 1).drop_last() =~= padded.take(k as int));
            assert(padded.take(k + 1).last() == padded[k as int]);
        }
        let d: u64 = if k < t.len() - f_start {
            assert(padded[k as int] == f[k as int]);
            assert(is_digit(f[k as int]));
            assert(f[k as int] == t@[f_start + k]);
            (t[f_start + k] as u32 - 48) as u64
        } else {
            assert(padded[k as int] == "000000"@[k - f.len()]);
            0
        };
        assert(d as nat == (padded[k as int] as u32 - 48) as nat);
        frac = frac * 10 + d;
        k += 1;
    }
    proof {
        reveal_with_fuel(crate::numtext::pow10, 7);
    }
    assert(frac < 1_000_000);
    let whole: u64 = if a_end == 0 {
        0
    } else {
        let mut a: Vec<char> = Vec::new();
        let mut q: usize = 0;
        while q < a_end
            invariant
                q <= a_end <= t@.len(),
                a@ == t@.subrange(0, q as int),
            decreases a_end - q,
        {
            a.push(t[q]);
            assert(t@.subrange(0, q + 1) =~= t@.subrange(0, q as int).push(t@[q as int]));
            q += 1;
        }
        match json_uint_chars(a.as_slice()) {
            Some(w) => w,
            None => {
                return None;
            },
        }
    };
    match whole.checked_mul(1_000_000) {
        Some(m) => m.checked_add(frac),
        None => None,
    }
}

/// What ffprobe says of one stream.
pub struct StreamInfo {
    pub codec_type: Option<String>,
    pub width: Option<u32>,
    pub height: Option<u32>,
}

pub struct VideoMetadata {
    pub duration_us: u64,
    pub width: u32,
    pub height: u32,
}

/// A video stream.
pub open spec fn is_video(s: StreamInfo) -> bool {
    match s.codec_type {
        Some(c) => c@ == "video"@,
        None => false,
    }
}

/// Where the first video stream is, or -1.
pub open spec fn first_video(ss: Seq<StreamInfo>) -> int
    decreases ss.len(),
{
    if ss.len() == 0 {
        -1
    } else if first_video(ss.drop_last()) >= 0 {
        first_video(ss.drop_last())
    } else if is_video(ss.last()) {
        ss.len() - 1
    } else {
        -1
    }
}

pub proof fn lemma_first_video(ss: Seq<StreamInfo>)
    ensures
        -1 <= first_video(ss) < ss.len(),
        first_video(ss) >= 0 ==> is_video(ss[first_video(ss)]),
        forall|j: int|
            0 <= j < ss.len() && (first_video(ss) == -1 || j < first_video(ss)) ==> !is_video(
                #[trigger] ss[j],
            ),
    decreases ss.len(),
{
    if ss.len() > 0 {
        lemma_first_video(ss.drop_last());
        assert forall|j: int|
            0 <= j < ss.len() && (first_video(ss) == -1 || j < first_video(ss)) implies !is_video(
            #[trigger] ss[j],
        ) by {
            if j < ss.len() - 1 {
                assert(ss.drop_last()[j] == ss[j]);
            }
        }
    }
}

/// `probe_video`'s reading of ffprobe's JSON: the length where the format
/// gives one it can read (else 0), and the frame size of the first video
/// stream.
pub open spec fn video_metadata_spec(duration: Option<Seq<char>>, streams: Option<Seq<StreamInfo>>) -> Result<
    (nat, u32, u32),
    Seq<char>,
> {
    let d: nat = match duration {
        Some(t) => match seconds_us_spec(t) {
            Some(v) => v,
            None => 0,
        },
        None => 0,
    };
    match streams {
        None => Err("no video stream"@),
        Some(ss) => {
            let i = first_video(ss);
            if i < 0 {
                Err("no video stream"@)
            } else {
                match (ss[i].width, ss[i].height) {
                    (None, _) => Err("no width"@),
                    (Some(_), None) => Err("no height"@),
                    (Some(w), Some(h)) => Ok((d, w, h)),
                }
            }
        },
    }
}

pub fn video_metadata(duration: Option<&str>, streams: Option<&Vec<StreamInfo>>) -> (r: Result<
    VideoMetadata,
    ProbeError,
>)
    ensures
        match (
            r,
            video_metadata_spec(
                match duration {
                    Some(t) => Some(t@),
                    None => None,
                },
                match streams {
                    Some(ss) => Some(ss@),
                    None => None,
                },
            ),
        ) {
            (Ok(m), Ok((d, w, h))) => m.duration_us == d && m.width == w && m.height == h,
            (Err(ProbeError::Parse(msg)), Err(e)) => msg@ == e,
            _ => false,
        },
{
    let duration_us: u64 = match duration {
        Some(t) => match parse_seconds_us(t) {
            Some(v) => v,
            None => 0,
        },
        None => 0,
    };
    let ss = match streams {
        Some(ss) => ss,
        None => {
            return Err(ProbeError::Parse(owned("no video stream")));
        },
    };
    proof {
        lemma_first_video(ss@);
    }
    let mut i: usize = 0;
    while i < ss.len()
        invariant
            streams == Some(ss),
            duration_us as nat == match duration {
                Some(t) => match seconds_us_spec(t@) {
                    Some(v) => v,
                    None => 0,
                },
                None => 0,
            },
            i <= ss@.len(),
            forall|j: int| 0 <= j < i ==> !is_video(#[trigger] ss@[j]),
            -1 <= first_video(ss@) < ss@.len(),
            first_video(ss@) >= 0 ==> is_video(ss@[first_video(ss@)]),
            forall|j: int|
                0 <= j < ss@.len() && (first_video(ss@) == -1 || j < first_video(ss@)) ==> !is_video(
                    #[trigger] ss@[j],
                ),
        decreases ss.len() - i,
    {
        let is_v = match &ss[i].codec_type {
            Some(c) => str_eq(c.as_str(), "video"),
            None => false,
        };
        if is_v {
            assert(first_video(ss@) == i);
            let width = match ss[i].width {
                Some(w) => w,
                None => {
                    return Err(ProbeError::Parse(owned("no width")));
                },
            };
            let height = match ss[i].height {
                Some(h) => h,
                None => {
                    return Err(ProbeError::Parse(owned("no height")));
                },
            };
            return Ok(VideoMetadata { duration_us, width, height });
        }
        i += 1;
    }
    proof {
        if first_video(ss@) >= 0 {
            assert(!is_video(ss@[first_video(ss@)]));
        }
    }
    Err(ProbeError::Parse(owned("no video stream")))
}


// ------------------------------------------------------------ export laws

/// The length the export plans for: at least half a second.
pub open spec fn planned_length_us(duration_us: nat) -> int {
    if duration_us < 500_000 {
        500_000
    } else {
        duration_us as int
    }
}

/// The video rate the export aims at fills the 9.3 MiB budget
/// (78 014 054.4 kbit·µs per µs of clip) with the 96 kb/s audio: held
/// between 150 and 6000 kb/s, and within those bounds the nearest whole
/// rate, so `(kbps + 96) * length` is within half a kbit·s of the budget.
pub proof fn law_export_rate_fits_budget(duration_us: nat)
    ensures
        ({
            let kbps = export_plan_spec(duration_us).0 as int;
            let d = planned_length_us(duration_us);
            &&& 150 <= kbps <= 6000
            &&& (150 < kbps < 6000 ==> 2 * (kbps + 96) * d <= 2 * 78_014_054_400 + d
                && 2 * 78_014_054_400 - d < 2 * (kbps + 96) * d)
            &&& (kbps == 150 ==> (150 + 96) * d >= 78_014_054_400 - d / 2)
            &&& (kbps == 6000 ==> (6000 + 96) * d <= 78_014_054_400 + d / 2)
        }),
{
    let d = planned_length_us(duration_us);
    let n: int = 78_014_054_400 - 96 * d;
    let kbps = export_plan_spec(duration_us).0 as int;
    assert(2 * (d / 2) >= d - 1 && 2 * (d / 2) <= d);
    if n < 150 * d {
        assert(kbps == 150);
        assert(d > 0);
        assert(246 * d > 78_014_054_400);
        assert(d / 2 >= 0);
        assert((150 + 96) * d >= 78_014_054_400 - d / 2);
    } else if n > 6000 * d {
        assert(kbps == 6000);
        assert(78_014_054_400 == n + 96 * d);
        assert((6000 + 96) * d <= 78_014_054_400 + d / 2);
    } else {
        let k = (2 * n + d) / (2 * d);
        lemma_nearest_rate(n, d, k);
        assert(kbps == k);
        assert(2 * (k + 96) * d == 2 * d * k + 192 * d) by (nonlinear_arith);
        if k == 150 {
            assert(2 * d * k == 300 * d) by (nonlinear_arith)
                requires
                    k == 150,
            ;
            assert(2 * n + d < 302 * d);
            assert(2 * (n - 150 * d) <= d - 1);
            assert(n - 150 * d <= d / 2);
            assert(78_014_054_400 == n + 96 * d);
            assert((150 + 96) * d >= 78_014_054_400 - d / 2);
        }
        if k == 6000 {
            assert(2 * d * k == 12000 * d) by (nonlinear_arith)
                requires
                    k == 6000,
            ;
            assert(12000 * d <= 2 * n + d);
            assert(2 * (6000 * d - n) <= d);
            assert(6000 * d - n <= d / 2);
            assert(78_014_054_400 == n + 96 * d);
            assert(6096 * d <= n + 96 * d + d / 2);
            assert((6000 + 96) * d <= 78_014_054_400 + d / 2);
        }
    }
}

proof fn lemma_nearest_rate(n: int, d: int, k: int)
    requires
        d > 0,
        k == (2 * n + d) / (2 * d),
        150 * d <= n <= 6000 * d,
    ensures
        2 * d * k <= 2 * n + d,
        2 * n + d < 2 * d * k + 2 * d,
        150 <= k <= 6000,
{
    assert(2 * d * k <= 2 * n + d && 2 * n + d < 2 * d * k + 2 * d) by (nonlinear_arith)
        requires
            d > 0,
            k == (2 * n + d) / (2 * d),
    ;
    assert(150 <= k <= 6000) by (nonlinear_arith)
        requires
            d > 0,
            2 * d * k <= 2 * n + d,
            2 * n + d < 2 * d * k + 2 * d,
            150 * d <= n <= 6000 * d,
    ;
}

/// Both passes of the export encode at the planned rate: each holds `-b:v`
/// followed by the planned kb/s and `k`.
pub proof fn law_export_passes_rate(
    input: Seq<char>,
    duration_us: nat,
    passlog: Seq<char>,
    null_sink: Seq<char>,
    output: Seq<char>,
)
    ensures
        ({
            let rate = decimal(export_plan_spec(duration_us).0) + seq!['k'];
            let a = export_pass1_spec(input, export_plan_spec(duration_us), passlog, null_sink);
            let b = export_pass2_spec(input, export_plan_spec(duration_us), passlog, output);
            &&& exists|i: int| 0 <= i < a.len() - 1 && #[trigger] a[i] == "-b:v"@ && a[i + 1] == rate
            &&& exists|i: int| 0 <= i < b.len() - 1 && #[trigger] b[i] == "-b:v"@ && b[i + 1] == rate
        }),
{
    let rate = decimal(export_plan_spec(duration_us).0) + seq!['k'];
    let a = export_pass1_spec(input, export_plan_spec(duration_us), passlog, null_sink);
    let b = export_pass2_spec(input, export_plan_spec(duration_us), passlog, output);
    assert(a[15] == "-b:v"@ && a[16] == rate);
    assert(b[16] == "-b:v"@ && b[17] == rate);
}
} // verus!
