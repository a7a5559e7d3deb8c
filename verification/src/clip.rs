//! The clip record kept in the library (`clips.json`), its stable id and the
//! payload announced when a clip is detected.
//!
//! Durations and audio highlight times are whole microseconds (ffprobe and
//! ffmpeg print them with six decimals); waveform amplitudes are carried as
//! the bit patterns of their `f32` values and never computed on here.
use vstd::prelude::*;
use vstd::utf8::encode_utf8;

use crate::text::push_char;

verus! {

#[derive(Clone, Copy, PartialEq, Eq, Debug, Structural)]
pub enum ClipStatus {
    Processing,
    Ready,
    Failed,
}

pub struct Clip {
    pub id: String,
    pub file_path: String,
    pub file_name: String,
    pub display_name: Option<String>,
    pub game_name: Option<String>,
    /// RFC 3339 time the clip was recorded.
    pub created_at: String,
    /// Length in microseconds, once probed.
    pub duration_us: Option<u64>,
    pub resolution: Option<String>,
    pub thumbnail_path: Option<String>,
    pub is_favorite: bool,
    pub tags: Vec<String>,
    pub status: ClipStatus,
    pub share_url: Option<String>,
    pub share_key: Option<String>,
    pub shared_at: Option<String>,
    /// Times of loudness spikes, in microseconds from the start.
    pub audio_peaks_us: Option<Vec<u64>>,
    /// Waveform amplitudes (0.0 to 1.0) as `f32` bit patterns.
    pub waveform_bits: Option<Vec<u32>>,
}

/// What the frontend is told when a new clip file shows up.
pub struct ClipDetectedPayload {
    pub id: String,
    pub file_path: String,
    pub file_name: String,
    pub created_at: String,
    pub game_name: Option<String>,
}

pub fn clone_opt_string(s: &Option<String>) -> (r: Option<String>)
    ensures
        r == *s,
{
    match s {
        Some(x) => Some(x.clone()),
        None => None,
    }
}

pub fn clone_vec_string(v: &Vec<String>) -> (r: Vec<String>)
    ensures
        r@ == v@,
{
    let mut r: Vec<String> = Vec::new();
    let mut i: usize = 0;
    while i < v.len()
        invariant
            i <= v@.len(),
            r@ == v@.take(i as int),
        decreases v.len() - i,
    {
        r.push(v[i].clone());
        assert(v@.take(i + 1) =~= v@.take(i as int).push(v@[i as int]));
        i += 1;
    }
    assert(v@.take(v@.len() as int) =~= v@);
    r
}

/// The contents of an optional vector.
pub open spec fn opt_seq<T>(o: Option<Vec<T>>) -> Option<Seq<T>> {
    match o {
        Some(v) => Some(v@),
        None => None,
    }
}

pub fn copy_u64s(x: &Vec<u64>) -> (c: Vec<u64>)
    ensures
        c@ == x@,
{
    let mut c: Vec<u64> = Vec::new();
    let mut i: usize = 0;
    while i < x.len()
        invariant
            i <= x@.len(),
            c@ == x@.take(i as int),
        decreases x.len() - i,
    {
        c.push(x[i]);
        assert(x@.take(i + 1) =~= x@.take(i as int).push(x@[i as int]));
        i += 1;
    }
    assert(x@.take(x@.len() as int) =~= x@);
    c
}

pub fn copy_u32s(x: &Vec<u32>) -> (c: Vec<u32>)
    ensures
        c@ == x@,
{
    let mut c: Vec<u32> = Vec::new();
    let mut i: usize = 0;
    while i < x.len()
        invariant
            i <= x@.len(),
            c@ == x@.take(i as int),
        decreases x.len() - i,
    {
        c.push(x[i]);
        assert(x@.take(i + 1) =~= x@.take(i as int).push(x@[i as int]));
        i += 1;
    }
    assert(x@.take(x@.len() as int) =~= x@);
    c
}

pub fn clone_opt_vec_u64(v: &Option<Vec<u64>>) -> (r: Option<Vec<u64>>)
    ensures
        opt_seq(r) == opt_seq(*v),
{
    match v {
        Some(x) => Some(copy_u64s(x)),
        None => None,
    }
}

pub fn clone_opt_vec_u32(v: &Option<Vec<u32>>) -> (r: Option<Vec<u32>>)
    ensures
        opt_seq(r) == opt_seq(*v),
{
    match v {
        Some(x) => Some(copy_u32s(x)),
        None => None,
    }
}

impl Clip {
    /// Two records hold the same values, field by field.
    pub open spec fn same_as(self, other: Clip) -> bool {
        &&& self.id == other.id
        &&& self.file_path == other.file_path
        &&& self.file_name == other.file_name
        &&& self.display_name == other.display_name
        &&& self.game_name == other.game_name
        &&& self.created_at == other.created_at
        &&& self.duration_us == other.duration_us
        &&& self.resolution == other.resolution
        &&& self.thumbnail_path == other.thumbnail_path
        &&& self.is_favorite == other.is_favorite
        &&& self.tags@ == other.tags@
        &&& self.status == other.status
        &&& self.share_url == other.share_url
        &&& self.share_key == other.share_key
        &&& self.shared_at == other.shared_at
        &&& opt_seq(self.audio_peaks_us) == opt_seq(other.audio_peaks_us)
        &&& opt_seq(self.waveform_bits) == opt_seq(other.waveform_bits)
    }

    /// Two records hold the same values in every field but the tags.
    pub open spec fn same_but_tags(self, other: Clip) -> bool {
        &&& self.id == other.id
        &&& self.file_path == other.file_path
        &&& self.file_name == other.file_name
        &&& self.display_name == other.display_name
        &&& self.game_name == other.game_name
        &&& self.created_at == other.created_at
        &&& self.duration_us == other.duration_us
        &&& self.resolution == other.resolution
        &&& self.thumbnail_path == other.thumbnail_path
        &&& self.is_favorite == other.is_favorite
        &&& self.status == other.status
        &&& self.share_url == other.share_url
        &&& self.share_key == other.share_key
        &&& self.shared_at == other.shared_at
        &&& opt_seq(self.audio_peaks_us) == opt_seq(other.audio_peaks_us)
        &&& opt_seq(self.waveform_bits) == opt_seq(other.waveform_bits)
    }

    /// A copy of the record.
    pub fn copy(&self) -> (r: Clip)
        ensures
            r.same_as(*self),
    {
        let r = Clip {
            id: self.id.clone(),
            file_path: self.file_path.clone(),
            file_name: self.file_name.clone(),
            display_name: clone_opt_string(&self.display_name),
            game_name: clone_opt_string(&self.game_name),
            created_at: self.created_at.clone(),
            duration_us: self.duration_us,
            resolution: clone_opt_string(&self.resolution),
            thumbnail_path: clone_opt_string(&self.thumbnail_path),
            is_favorite: self.is_favorite,
            tags: clone_vec_string(&self.tags),
            status: self.status,
            share_url: clone_opt_string(&self.share_url),
            share_key: clone_opt_string(&self.share_key),
            shared_at: clone_opt_string(&self.shared_at),
            audio_peaks_us: clone_opt_vec_u64(&self.audio_peaks_us),
            waveform_bits: clone_opt_vec_u32(&self.waveform_bits),
        };
        assert(r.tags@ =~= self.tags@);
        r
    }
}

/// The payload announcing a detected clip.
pub fn clip_detected_payload(clip: &Clip) -> (p: ClipDetectedPayload)
    ensures
        p.id == clip.id,
        p.file_path == clip.file_path,
        p.file_name == clip.file_name,
        p.created_at == clip.created_at,
        p.game_name == clip.game_name,
{
    ClipDetectedPayload {
        id: clip.id.clone(),
        file_path: clip.file_path.clone(),
        file_name: clip.file_name.clone(),
        created_at: clip.created_at.clone(),
        game_name: clone_opt_string(&clip.game_name),
    }
}

// ------------------------------------------------------------- stable ids

/// The SHA-256 digest of a byte string.
pub uninterp spec fn sha256_digest(data: Seq<u8>) -> Seq<u8>;

/// SHA-256 (`sha2::Sha256::digest`): 32 bytes, a function of the input.
#[verifier::external_body]
pub(crate) fn sha256(data: &[u8]) -> (r: Vec<u8>)
    ensures
        r@ == sha256_digest(data@),
        r@.len() == 32,
{
    <sha2::Sha256 as sha2::Digest>::digest(data).to_vec()
}

pub open spec fn hex_digit(d: nat) -> char {
    if d < 10 {
        ((d + 48) as u32) as char
    } else {
        ((d + 87) as u32) as char
    }
}

/// Lower-case hexadecimal, two digits per byte (`format!("{:x}", digest)`).
pub open spec fn hex_lower(bytes: Seq<u8>) -> Seq<char>
    decreases bytes.len(),
{
    if bytes.len() == 0 {
        Seq::empty()
    } else {
        hex_lower(bytes.drop_last()) + seq![
            hex_digit((bytes.last() / 16) as nat),
            hex_digit((bytes.last() % 16) as nat),
        ]
    }
}

/// `0`-`9` or `a`-`f`.
pub open spec fn is_lower_hex(c: char) -> bool {
    ('0' <= c && c <= '9') || ('a' <= c && c <= 'f')
}

/// Two lower-case hex digits per byte.
pub proof fn lemma_hex_lower_shape(bytes: Seq<u8>)
    ensures
        hex_lower(bytes).len() == 2 * bytes.len(),
        forall|k: int| 0 <= k < hex_lower(bytes).len() ==> is_lower_hex(#[trigger] hex_lower(bytes)[k]),
    decreases bytes.len(),
{
    if bytes.len() > 0 {
        lemma_hex_lower_shape(bytes.drop_last());
        let hi = (bytes.last() / 16) as nat;
        let lo = (bytes.last() % 16) as nat;
        assert(is_lower_hex(hex_digit(hi)) && is_lower_hex(hex_digit(lo)));
        let h = hex_lower(bytes);
        let p = hex_lower(bytes.drop_last());
        assert forall|k: int| 0 <= k < h.len() implies is_lower_hex(#[trigger] h[k]) by {
            if k < p.len() {
                assert(h[k] == p[k]);
            }
        }
    }
}

fn hex_digit_exec(d: u8) -> (c: char)
    requires
        d < 16,
    ensures
        c == hex_digit(d as nat),
{
    if d < 10 {
        crate::text::char_from_ascii_code((d + 48) as u32)
    } else {
        crate::text::char_from_ascii_code((d + 87) as u32)
    }
}

pub fn hex_string(bytes: &[u8]) -> (s: String)
    ensures
        s@ == hex_lower(bytes@),
{
    let mut s = String::new();
    let mut i: usize = 0;
    while i < bytes.len()
        invariant
            i <= bytes@.len(),
            s@ == hex_lower(bytes@.take(i as int)),
        decreases bytes.len() - i,
    {
        let b = bytes[i];
        push_char(&mut s, hex_digit_exec(b / 16));
        push_char(&mut s, hex_digit_exec(b % 16));
        proof {
            assert(bytes@.take(i + 1).drop_last() =~= bytes@.take(i as int));
        }
        i += 1;
    }
    assert(bytes@.take(bytes@.len() as int) =~= bytes@);
    s
}

/// Little-endian bytes of a 64-bit value (`to_le_bytes`).
pub open spec fn le_bytes_u64(v: u64) -> Seq<u8> {
    seq![
        (v % 0x100) as u8,
        ((v / 0x100) % 0x100) as u8,
        ((v / 0x1_0000) % 0x100) as u8,
        ((v / 0x100_0000) % 0x100) as u8,
        ((v / 0x1_0000_0000) % 0x100) as u8,
        ((v / 0x100_0000_0000) % 0x100) as u8,
        ((v / 0x1_0000_0000_0000) % 0x100) as u8,
        ((v / 0x100_0000_0000_0000) % 0x100) as u8,
    ]
}

pub fn le_bytes_u64_exec(v: u64) -> (r: Vec<u8>)
    ensures
        r@ == le_bytes_u64(v),
{
    let r = vec![
        (v % 0x100) as u8,
        ((v / 0x100) % 0x100) as u8,
        ((v / 0x1_0000) % 0x100) as u8,
        ((v / 0x100_0000) % 0x100) as u8,
        ((v / 0x1_0000_0000) % 0x100) as u8,
        ((v / 0x100_0000_0000) % 0x100) as u8,
        ((v / 0x1_0000_0000_0000) % 0x100) as u8,
        ((v / 0x100_0000_0000_0000) % 0x100) as u8,
    ];
    assert(r@ =~= le_bytes_u64(v));
    r
}

/// The id of a clip: the SHA-256 of its path (UTF-8) followed by its
/// creation time in milliseconds (little-endian), in lower-case hex.
pub open spec fn clip_id_spec(path: Seq<char>, created_ms: i64) -> Seq<char> {
    hex_lower(sha256_digest(encode_utf8(path) + le_bytes_u64(created_ms as u64)))
}

/// A stable id for a clip file, the same each time the same file (path and
/// creation time) is seen.
pub fn stable_clip_id(path: &str, created_ms: i64) -> (id: String)
    ensures
        id@ == clip_id_spec(path@, created_ms),
        id@.len() == 64,
        forall|k: int| 0 <= k < 64 ==> is_lower_hex(#[trigger] id@[k]),
{
    let mut data: Vec<u8> = Vec::new();
    let pb = path.as_bytes();
    let mut i: usize = 0;
    while i < pb.len()
        invariant
            i <= pb@.len(),
            data@ == pb@.take(i as int),
        decreases pb.len() - i,
    {
        data.push(pb[i]);
        assert(pb@.take(i + 1) =~= pb@.take(i as int).push(pb@[i as int]));
        i += 1;
    }
    assert(pb@.take(pb@.len() as int) =~= pb@);
    let le = le_bytes_u64_exec(created_ms as u64);
    let mut j: usize = 0;
    while j < le.len()
        invariant
            j <= le@.len(),
            data@ == pb@ + le@.take(j as int),
        decreases le.len() - j,
    {
        data.push(le[j]);
        assert(le@.take(j + 1) =~= le@.take(j as int).push(le@[j as int]));
        j += 1;
    }
    assert(le@.take(le@.len() as int) =~= le@);
    let digest = sha256(data.as_slice());
    proof {
        lemma_hex_lower_shape(digest@);
    }
    hex_string(digest.as_slice())
}

// ------------------------------------------------------------- timestamps

/// A file time: whole seconds since the Unix epoch and the nanoseconds
/// within that second.
#[derive(Clone, Copy, PartialEq, Eq, Debug, Structural)]
pub struct FileTime {
    pub secs: i64,
    pub nanos: u32,
}

/// The RFC 3339 text chrono writes for a UTC time, if chrono can represent
/// the time.
pub uninterp spec fn utc_rfc3339(secs: i64, nanos: u32) -> Option<Seq<char>>;

/// `DateTime::<Utc>::from_timestamp(secs, nanos)` then `to_rfc3339`: the
/// text is a function of the time alone; `None` when chrono refuses the time.
#[verifier::external_body]
pub(crate) fn rfc3339_from_timestamp(secs: i64, nanos: u32) -> (r: Option<String>)
    ensures
        match (r, utc_rfc3339(secs, nanos)) {
            (Some(a), Some(b)) => a@ == b,
            (None, None) => true,
            _ => false,
        },
{
    chrono::DateTime::<chrono::Utc>::from_timestamp(secs, nanos).map(|t| t.to_rfc3339())
}

/// Milliseconds since the epoch (`DateTime::timestamp_millis`).
pub open spec fn time_millis(t: FileTime) -> int {
    t.secs * 1000 + (t.nanos / 1_000_000) as int
}

/// The millisecond time, and the whole seconds scaled to milliseconds on the
/// way to it, fit in an `i64`.
pub open spec fn millis_fit(t: FileTime) -> bool {
    &&& i64::MIN <= t.secs * 1000 <= i64::MAX
    &&& i64::MIN <= time_millis(t) <= i64::MAX
}

/// `c` is the new record `clip_from_path` makes for the file at `path`.
pub open spec fn fresh_from_path(
    c: Clip,
    path: Seq<char>,
    file_name: Option<Seq<char>>,
    created: FileTime,
    status: ClipStatus,
) -> bool {
    &&& utc_rfc3339(created.secs, created.nanos) matches Some(text)
    &&& c.created_at@ == text
    &&& millis_fit(created)
    &&& c.id@ == clip_id_spec(path, time_millis(created) as i64)
    &&& c.file_path@ == path
    &&& c.file_name@ == match file_name {
        Some(n) => n,
        None => "unknown"@,
    }
    &&& c.display_name is None && c.game_name is None
    &&& c.duration_us is None && c.resolution is None && c.thumbnail_path is None
    &&& !c.is_favorite && c.tags@.len() == 0 && c.status == status
    &&& c.share_url is None && c.share_key is None && c.shared_at is None
    &&& c.audio_peaks_us is None && c.waveform_bits is None
}

pub open spec fn opt_str_view(o: Option<String>) -> Option<Seq<char>> {
    match o {
        Some(s) => Some(s@),
        None => None,
    }
}

/// A new record for a clip file found on disk (`clip_from_path`): no game,
/// no metadata yet, no tags. `None` when the file time is outside what
/// chrono represents.
pub fn clip_from_path(path: &str, file_name: Option<String>, created: FileTime, status: ClipStatus) -> (r: Option<Clip>)
    ensures
        match r {
            Some(c) => fresh_from_path(c, path@, opt_str_view(file_name), created, status),
            None => utc_rfc3339(created.secs, created.nanos) is None || !millis_fit(created),
        },
{
    let created_at = match rfc3339_from_timestamp(created.secs, created.nanos) {
        Some(t) => t,
        None => {
            return None;
        },
    };
    let ms = match created.secs.checked_mul(1000) {
        Some(m) => m,
        None => {
            return None;
        },
    };
    let sub = (created.nanos / 1_000_000) as i64;
    let millis = match ms.checked_add(sub) {
        Some(m) => m,
        None => {
            return None;
        },
    };
    let id = stable_clip_id(path, millis);
    let file_name = match file_name {
        Some(n) => n,
        None => String::from_str("unknown"),
    };
    Some(
        Clip {
            id,
            file_path: path.to_owned(),
            file_name,
            display_name: None,
            game_name: None,
            created_at,
            duration_us: None,
            resolution: None,
            thumbnail_path: None,
            is_favorite: false,
            tags: Vec::new(),
            status,
            share_url: None,
            share_key: None,
            shared_at: None,
            audio_peaks_us: None,
            waveform_bits: None,
        },
    )
}

} // verus!
