//! Background jobs on clips (probe, thumbnail, trim, audio analysis), the
//! retry policy, and how each job's result is written into the library.
//!
//! Running ffprobe/ffmpeg and announcing changes to the frontend is the
//! caller's part; what a job's result does to the clip records is here.
use vstd::prelude::*;

use crate::clip::{Clip, ClipStatus, clone_opt_string, copy_u32s, copy_u64s, opt_seq, opt_str_view};
use crate::numtext::{decimal, decimal_string};
use crate::store::{
    ClipStore, edited, key_index, lemma_edit_by, lemma_key_index, lookup, path_index, removed,
    StoreEntry,
};
use crate::text::{append_str, owned, push_char};

verus! {

/// What a job does. Times are whole microseconds.
pub enum JobKind {
    Probe { clip_id: String, path: String },
    Thumbnail { clip_id: String, path: String },
    Trim {
        source_clip_id: String,
        input: String,
        output: String,
        start_us: u64,
        end_us: u64,
        delete_original: bool,
    },
    AudioPeaks { clip_id: String, path: String },
}

pub struct Job {
    pub id: u64,
    pub kind: JobKind,
    pub attempt: u32,
}

impl Job {
    /// A first attempt at `kind`, under a fresh id.
    pub fn new(id: u64, kind: JobKind) -> (j: Job)
        ensures
            j.id == id,
            j.kind == kind,
            j.attempt == 0,
    {
        Job { id, kind, attempt: 0 }
    }
}

/// A failed job is tried this many more times before it is given up.
pub const MAX_RETRIES: u32 = 2;

/// Clips shorter than this (25 s) get no highlight markers: the whole clip
/// already is the highlight.
pub const MIN_DURATION_FOR_PEAKS_US: u64 = 25_000_000;

/// A clip is missing highlight markers and long enough to get them.
pub open spec fn needs_audio_peaks_spec(c: Clip) -> bool {
    &&& c.audio_peaks_us is None
    &&& c.duration_us matches Some(d) && d >= MIN_DURATION_FOR_PEAKS_US
}

pub fn needs_audio_peaks(clip: &Clip) -> (r: bool)
    ensures
        r == needs_audio_peaks_spec(*clip),
{
    clip.audio_peaks_us.is_none() && match clip.duration_us {
        Some(d) => d >= MIN_DURATION_FOR_PEAKS_US,
        None => false,
    }
}

/// What happens to a job that failed.
pub enum AfterFailure {
    /// Sent round again, one attempt further on.
    Retry(Job),
    /// Out of attempts.
    GiveUp(Job),
}

pub fn after_failure(job: Job) -> (r: AfterFailure)
    ensures
        job.attempt < MAX_RETRIES ==> r == AfterFailure::Retry(
            Job { id: job.id, kind: job.kind, attempt: (job.attempt + 1) as u32 },
        ),
        job.attempt >= MAX_RETRIES ==> r == AfterFailure::GiveUp(job),
{
    if job.attempt < MAX_RETRIES {
        AfterFailure::Retry(Job { id: job.id, kind: job.kind, attempt: job.attempt + 1 })
    } else {
        AfterFailure::GiveUp(job)
    }
}

// ------------------------------------------------------------ status

/// `new` is `old` with the given status.
pub open spec fn has_status(old: Clip, new: Clip, s: ClipStatus) -> bool {
    new == Clip { status: s, ..old }
}

/// `new` is `old`, made ready where both its length and thumbnail are known.
pub open spec fn ready_if_complete(old: Clip, new: Clip) -> bool {
    if old.duration_us is Some && old.thumbnail_path is Some {
        has_status(old, new, ClipStatus::Ready)
    } else {
        new == old
    }
}

pub fn mark_failed(c: Clip) -> (r: Clip)
    ensures
        has_status(c, r, ClipStatus::Failed),
{
    Clip { status: ClipStatus::Failed, ..c }
}

pub fn mark_ready(c: Clip) -> (r: Clip)
    ensures
        has_status(c, r, ClipStatus::Ready),
{
    Clip { status: ClipStatus::Ready, ..c }
}

pub fn mark_processing(c: Clip) -> (r: Clip)
    ensures
        has_status(c, r, ClipStatus::Processing),
{
    Clip { status: ClipStatus::Processing, ..c }
}

pub fn mark_ready_if_complete(c: Clip) -> (r: Clip)
    ensures
        ready_if_complete(c, r),
{
    if c.duration_us.is_some() && c.thumbnail_path.is_some() {
        Clip { status: ClipStatus::Ready, ..c }
    } else {
        c
    }
}

/// The record as stored after an edit by `rel`, copied.
pub open spec fn edit_result(
    before: Seq<StoreEntry>,
    key: Seq<char>,
    after: Seq<StoreEntry>,
    r: Option<Clip>,
) -> bool {
    match r {
        Some(c) => {
            let i = key_index(before, key);
            i >= 0 && c.same_as(after[i].clip)
        },
        None => key_index(before, key) == -1,
    }
}

/// `maybe_mark_ready`: the clip becomes ready once its length and
/// thumbnail are both known.
pub fn maybe_mark_ready(store: &mut ClipStore, clip_id: &str) -> (r: Option<Clip>)
    requires
        old(store).wf(),
    ensures
        final(store).wf(),
        edited(
            old(store).entries(),
            clip_id@,
            final(store).entries(),
            |a: Clip, b: Clip| ready_if_complete(a, b),
        ),
        edit_result(old(store).entries(), clip_id@, final(store).entries(), r),
{
    let ghost before = store.entries();
    let r = store.update(clip_id, mark_ready_if_complete);
    proof {
        lemma_edit_by(
            mark_ready_if_complete,
            before,
            clip_id@,
            store.entries(),
            |a: Clip, b: Clip| ready_if_complete(a, b),
        );
    }
    r
}

// ------------------------------------------------------------ failures

/// What the frontend is told about a trim job.
pub struct TrimEventPayload {
    pub source_clip_id: String,
    pub output_path: String,
    pub error: Option<String>,
}

/// What a job that was given up leaves to do.
pub enum FailureEffect {
    /// Delete the partial trim output and announce the failure.
    TrimFailed(TrimEventPayload),
    /// The clip was marked failed; announce the new record.
    ClipFailed(Clip),
    /// Nothing: the clip is gone, or highlight markers are optional.
    Nothing,
}

/// `handle_job_failure`: a failed trim is reported with its error; a failed
/// probe or thumbnail marks the clip failed; a failed audio analysis leaves
/// the clip alone.
pub fn handle_job_failure(store: &mut ClipStore, job: &Job, err: &str) -> (r: FailureEffect)
    requires
        old(store).wf(),
    ensures
        final(store).wf(),
        match job.kind {
            JobKind::Trim { source_clip_id, output, .. } => {
                &&& final(store).entries() == old(store).entries()
                &&& match r {
                    FailureEffect::TrimFailed(p) => {
                        &&& p.source_clip_id == source_clip_id
                        &&& p.output_path == output
                        &&& p.error matches Some(e) && e@ == err@
                    },
                    _ => false,
                }
            },
            JobKind::Probe { clip_id, .. } | JobKind::Thumbnail { clip_id, .. } => {
                &&& edited(
                    old(store).entries(),
                    clip_id@,
                    final(store).entries(),
                    |a: Clip, b: Clip| has_status(a, b, ClipStatus::Failed),
                )
                &&& match r {
                    FailureEffect::ClipFailed(c) => edit_result(
                        old(store).entries(),
                        clip_id@,
                        final(store).entries(),
                        Some(c),
                    ),
                    FailureEffect::Nothing => key_index(old(store).entries(), clip_id@) == -1,
                    _ => false,
                }
            },
            JobKind::AudioPeaks { .. } => {
                &&& final(store).entries() == old(store).entries()
                &&& r is Nothing
            },
        },
{
    match &job.kind {
        JobKind::Trim { source_clip_id, output, .. } => {
            FailureEffect::TrimFailed(
                TrimEventPayload {
                    source_clip_id: source_clip_id.clone(),
                    output_path: output.clone(),
                    error: Some(owned(err)),
                },
            )
        },
        JobKind::Probe { clip_id, .. } | JobKind::Thumbnail { clip_id, .. } => {
            let ghost before = store.entries();
            let r = store.update(clip_id.as_str(), mark_failed);
            proof {
                lemma_edit_by(
                    mark_failed,
                    before,
                    clip_id@,
                    store.entries(),
                    |a: Clip, b: Clip| has_status(a, b, ClipStatus::Failed),
                );
            }
            match r {
                Some(c) => FailureEffect::ClipFailed(c),
                None => FailureEffect::Nothing,
            }
        },
        JobKind::AudioPeaks { .. } => FailureEffect::Nothing,
    }
}

// ------------------------------------------------------------ probe

/// `"{width}x{height}"`.
pub open spec fn resolution_text(width: u32, height: u32) -> Seq<char> {
    decimal(width as nat) + seq!['x'] + decimal(height as nat)
}

pub fn resolution_string(width: u32, height: u32) -> (r: String)
    ensures
        r@ == resolution_text(width, height),
{
    let mut r = decimal_string(width as u64);
    push_char(&mut r, 'x');
    let h = decimal_string(height as u64);
    let ghost before = r@;
    let hv = crate::text::chars_of(h.as_str());
    let mut i: usize = 0;
    while i < hv.len()
        invariant
            i <= hv@.len(),
            r@ == before + hv@.take(i as int),
        decreases hv.len() - i,
    {
        push_char(&mut r, hv[i]);
        assert(hv@.take(i + 1) =~= hv@.take(i as int).push(hv@[i as int]));
        i += 1;
    }
    assert(hv@.take(i as int) =~= hv@);
    r
}

/// `new` is `old` with the probed length and resolution.
pub open spec fn probed(old: Clip, new: Clip, duration_us: u64, resolution: Seq<char>) -> bool {
    &&& new == Clip { duration_us: Some(duration_us), resolution: new.resolution, ..old }
    &&& new.resolution matches Some(r) && r@ == resolution
}

/// Writes a probe's result (frame size and length) into the clip; the clip
/// must still be there.
pub fn apply_probe(store: &mut ClipStore, clip_id: &str, width: u32, height: u32, duration_us: u64) -> (r:
    Result<Clip, String>)
    requires
        old(store).wf(),
    ensures
        final(store).wf(),
        edited(
            old(store).entries(),
            clip_id@,
            final(store).entries(),
            |a: Clip, b: Clip| probed(a, b, duration_us, resolution_text(width, height)),
        ),
        match r {
            Ok(c) => edit_result(old(store).entries(), clip_id@, final(store).entries(), Some(c)),
            Err(e) => key_index(old(store).entries(), clip_id@) == -1 && e@ == "clip not found"@,
        },
{
    let resolution = resolution_string(width, height);
    let ghost res_view = resolution@;
    let f = |c: Clip| -> (out: Clip)
        ensures
            probed(c, out, duration_us, resolution@),
        { Clip { duration_us: Some(duration_us), resolution: Some(resolution.clone()), ..c } };
    let ghost before = store.entries();
    let r = store.update(clip_id, f);
    proof {
        lemma_edit_by(
            f,
            before,
            clip_id@,
            store.entries(),
            |a: Clip, b: Clip| probed(a, b, duration_us, res_view),
        );
    }
    match r {
        Some(c) => Ok(c),
        None => Err(owned("clip not found")),
    }
}

/// After a probe, a long enough clip is queued for audio analysis.
pub fn wants_audio_peaks(duration_us: u64) -> (r: bool)
    ensures
        r == (duration_us >= MIN_DURATION_FOR_PEAKS_US),
{
    duration_us >= MIN_DURATION_FOR_PEAKS_US
}

// ------------------------------------------------------------ thumbnail

/// `new` is `old` with the given thumbnail.
pub open spec fn with_thumbnail(old: Clip, new: Clip, path: Seq<char>) -> bool {
    &&& new == Clip { thumbnail_path: new.thumbnail_path, ..old }
    &&& new.thumbnail_path matches Some(t) && t@ == path
}

/// Records the thumbnail written for the clip; the clip must still be there.
pub fn apply_thumbnail(store: &mut ClipStore, clip_id: &str, thumb_path: &str) -> (r: Result<
    Clip,
    String,
>)
    requires
        old(store).wf(),
    ensures
        final(store).wf(),
        edited(
            old(store).entries(),
            clip_id@,
            final(store).entries(),
            |a: Clip, b: Clip| with_thumbnail(a, b, thumb_path@),
        ),
        match r {
            Ok(c) => edit_result(old(store).entries(), clip_id@, final(store).entries(), Some(c)),
            Err(e) => key_index(old(store).entries(), clip_id@) == -1 && e@ == "clip not found"@,
        },
{
    let thumb = owned(thumb_path);
    let ghost tv = thumb_path@;
    let f = |c: Clip| -> (out: Clip)
        ensures
            with_thumbnail(c, out, thumb@),
        { Clip { thumbnail_path: Some(thumb.clone()), ..c } };
    let ghost before = store.entries();
    let r = store.update(clip_id, f);
    proof {
        lemma_edit_by(f, before, clip_id@, store.entries(), |a: Clip, b: Clip| with_thumbnail(a, b, tv));
    }
    match r {
        Some(c) => Ok(c),
        None => Err(owned("clip not found")),
    }
}

// ------------------------------------------------------------ trim

/// A small overrun of the clip's end (3 s) is taken as "to the end".
pub const OVERRUN_TOLERANCE_US: i64 = 3_000_000;

/// A checked trim range, in microseconds.
pub struct TrimRange {
    pub start_us: u64,
    pub end_us: u64,
}

/// `queue_trim_clip`'s checks: the clip's length must be known; the start
/// may not be negative; an end up to 3 s past the clip's end is pulled back
/// to it; the end may then be at most 50 ms past the clip's end and must be
/// more than 100 ms after the start.
pub open spec fn trim_range_spec(duration_us: Option<u64>, start_us: i64, end_us: i64) -> Result<
    (int, int),
    Seq<char>,
> {
    let d: int = match duration_us {
        Some(d) => d as int,
        None => 0,
    };
    if d <= 0 {
        Err("clip duration unknown — wait for processing to finish"@)
    } else if start_us < 0 {
        Err("invalid trim range"@)
    } else {
        let end: int = if end_us > d && end_us <= d + OVERRUN_TOLERANCE_US {
            d
        } else {
            end_us as int
        };
        if end > d + 50_000 || end <= start_us + 100_000 {
            Err("invalid trim range"@)
        } else {
            Ok((start_us as int, end))
        }
    }
}

/// A trim accepted is a real part of the clip: it starts at or after the
/// beginning, ends at most 50 ms past the clip's end and lasts more than
/// 100 ms; "trim to the end" with an end up to 3 s too late ends exactly at
/// the clip's end.
pub proof fn law_trim_within_clip(duration_us: Option<u64>, start_us: i64, end_us: i64)
    ensures
        trim_range_spec(duration_us, start_us, end_us) matches Ok((a, b)) ==> {
            &&& duration_us is Some
            &&& 0 <= a
            &&& a + 100_000 < b
            &&& b <= duration_us->Some_0 + 50_000
        },
        ({
            let d = duration_us.unwrap_or(0) as int;
            d > 0 && 0 <= start_us && start_us + 100_000 < d && d < end_us && end_us <= d + OVERRUN_TOLERANCE_US
                ==> trim_range_spec(duration_us, start_us, end_us) == Ok::<(int, int), Seq<char>>(
                (start_us as int, d),
            )
        }),
{
}

pub fn trim_range(duration_us: Option<u64>, start_us: i64, end_us: i64) -> (r: Result<
    TrimRange,
    String,
>)
    ensures
        match (r, trim_range_spec(duration_us, start_us, end_us)) {
            (Ok(t), Ok((a, b))) => t.start_us == a && t.end_us == b,
            (Err(e), Err(m)) => e@ == m,
            _ => false,
        },
{
    let d: i128 = match duration_us {
        Some(d) => d as i128,
        None => 0,
    };
    if d <= 0 {
        return Err(owned("clip duration unknown — wait for processing to finish"));
    }
    if start_us < 0 {
        return Err(owned("invalid trim range"));
    }
    let e0 = end_us as i128;
    let end: i128 = if e0 > d && e0 <= d + OVERRUN_TOLERANCE_US as i128 {
        d
    } else {
        e0
    };
    if end > d + 50_000 || end <= start_us as i128 + 100_000 {
        return Err(owned("invalid trim range"));
    }
    Ok(TrimRange { start_us: start_us as u64, end_us: end as u64 })
}

/// The file name of a trimmed copy: `{stem}_trim_{stamp}.mp4`, the stem
/// being "clip" where the source has none.
pub open spec fn trimmed_name_spec(stem: Option<Seq<char>>, stamp: Seq<char>) -> Seq<char> {
    let s = match stem {
        Some(s) => s,
        None => "clip"@,
    };
    s + "_trim_"@ + stamp + ".mp4"@
}

pub fn trimmed_output_name(stem: Option<&str>, stamp: &str) -> (r: String)
    ensures
        r@ == trimmed_name_spec(
            match stem {
                Some(s) => Some(s@),
                None => None,
            },
            stamp@,
        ),
{
    let mut r = match stem {
        Some(s) => owned(s),
        None => owned("clip"),
    };
    append_str(&mut r, "_trim_");
    append_str(&mut r, stamp);
    append_str(&mut r, ".mp4");
    r
}

/// The title of a trimmed copy: "{game} {stamp}" where the source has a
/// game, else the source's own display name.
pub open spec fn trimmed_title_spec(game: Option<Seq<char>>, stamp: Seq<char>, display: Option<
    Seq<char>,
>) -> Option<Seq<char>> {
    match game {
        Some(g) => Some(g + seq![' '] + stamp),
        None => display,
    }
}

pub fn trimmed_title(game: &Option<String>, stamp: &str, display: &Option<String>) -> (r: Option<
    String,
>)
    ensures
        opt_str_view(r) == trimmed_title_spec(opt_str_view(*game), stamp@, opt_str_view(*display)),
{
    match game {
        Some(g) => {
            let mut t = g.clone();
            push_char(&mut t, ' ');
            append_str(&mut t, stamp);
            Some(t)
        },
        None => clone_opt_string(display),
    }
}

/// `new` is `old` taking the source clip's time, game and display title.
pub open spec fn adopted(old: Clip, new: Clip, source: Clip) -> bool {
    new == Clip {
        created_at: source.created_at,
        game_name: source.game_name,
        display_name: source.display_name,
        ..old
    }
}

/// `adopted`, with the source taken by reference.
pub open spec fn adopted_by(old: Clip, new: Clip, source: &Clip) -> bool {
    adopted(old, new, *source)
}

/// What finishing a trim did to the library.
pub struct TrimOutcome {
    /// The trimmed copy's record, as announced.
    pub trimmed: Option<Clip>,
    /// The source clip, where it was to be deleted and was there.
    pub removed_original: Option<Clip>,
}

/// Once the trimmed copy has been taken into the library: it takes the
/// source clip's time, game and display title; then, if asked, the
/// source clip is dropped. Nothing changes if the copy is not in the library.
pub fn finish_trim(
    store: &mut ClipStore,
    output_path: &str,
    source: &Clip,
    delete_original: bool,
) -> (r: TrimOutcome)
    requires
        old(store).wf(),
    ensures
        final(store).wf(),
        path_index(old(store).entries(), output_path@) == -1 ==> final(store).entries() == old(
            store,
        ).entries() && r.trimmed is None && r.removed_original is None,
        path_index(old(store).entries(), output_path@) >= 0 ==> {
            let found = old(store).entries()[path_index(old(store).entries(), output_path@)].clip;
            exists|mid: Seq<StoreEntry>|
                {
                    &&& edited(
                        old(store).entries(),
                        found.id@,
                        mid,
                        |a: Clip, b: Clip| adopted(a, b, *source),
                    )
                    &&& final(store).entries() == if delete_original {
                        removed(mid, source.id@)
                    } else {
                        mid
                    }
                    &&& r.trimmed matches Some(t) && (if key_index(old(store).entries(), found.id@)
                        >= 0 {
                        t.same_as(mid[key_index(old(store).entries(), found.id@)].clip)
                    } else {
                        t.same_as(found)
                    })
                    &&& r.removed_original == if delete_original {
                        lookup(mid, source.id@)
                    } else {
                        None
                    }
                }
        },
{
    let found = match store.by_file_path(output_path) {
        Some(c) => c,
        None => {
            return TrimOutcome { trimmed: None, removed_original: None };
        },
    };
    let f = |c: Clip| -> (out: Clip)
        ensures
            adopted_by(c, out, source),
        {
            Clip {
                created_at: source.created_at.clone(),
                game_name: clone_opt_string(&source.game_name),
                display_name: clone_opt_string(&source.display_name),
                ..c
            }
        };
    let ghost before = store.entries();
    let updated = store.update(found.id.as_str(), f);
    let ghost mid = store.entries();
    proof {
        lemma_edit_by(
            f,
            before,
            found.id@,
            mid,
            |a: Clip, b: Clip| adopted(a, b, *source),
        );
    }
    let trimmed = match updated {
        Some(c) => c,
        None => found,
    };
    let removed_original = if delete_original {
        store.remove(source.id.as_str())
    } else {
        None
    };
    TrimOutcome { trimmed: Some(trimmed), removed_original }
}

// ------------------------------------------------------------ audio

/// `new` is `old` with the highlight times and waveform.
pub open spec fn with_audio(old: Clip, new: Clip, peaks: Seq<u64>, waveform: Seq<u32>) -> bool {
    &&& new == Clip { audio_peaks_us: new.audio_peaks_us, waveform_bits: new.waveform_bits, ..old }
    &&& opt_seq(new.audio_peaks_us) == Some(peaks)
    &&& opt_seq(new.waveform_bits) == Some(waveform)
}

/// Records an audio analysis (highlight times and waveform) for the clip.
pub fn apply_audio_analysis(
    store: &mut ClipStore,
    clip_id: &str,
    peaks_us: Vec<u64>,
    waveform_bits: Vec<u32>,
) -> (r: Option<Clip>)
    requires
        old(store).wf(),
    ensures
        final(store).wf(),
        edited(
            old(store).entries(),
            clip_id@,
            final(store).entries(),
            |a: Clip, b: Clip| with_audio(a, b, peaks_us@, waveform_bits@),
        ),
        edit_result(old(store).entries(), clip_id@, final(store).entries(), r),
{
    let f = |c: Clip| -> (out: Clip)
        ensures
            with_audio(c, out, peaks_us@, waveform_bits@),
        {
            Clip {
                audio_peaks_us: Some(copy_u64s(&peaks_us)),
                waveform_bits: Some(copy_u32s(&waveform_bits)),
                ..c
            }
        };
    let ghost before = store.entries();
    let r = store.update(clip_id, f);
    proof {
        lemma_edit_by(
            f,
            before,
            clip_id@,
            store.entries(),
            |a: Clip, b: Clip| with_audio(a, b, peaks_us@, waveform_bits@),
        );
    }
    r
}

/// Whether a queued job still has work (`run_job`'s first check): a probe,
/// thumbnail or analysis of a clip deleted (or merged away) while the job was
/// queued does nothing; a trim whose source is gone fails.
pub fn job_precheck(store: &ClipStore, kind: &JobKind) -> (r: Result<bool, String>)
    requires
        store.wf(),
    ensures
        match kind {
            JobKind::Trim { source_clip_id, .. } => if key_index(store.entries(), source_clip_id@) >= 0 {
                r == Ok::<bool, String>(true)
            } else {
                r matches Err(e) && e@ == "source clip not found"@
            },
            JobKind::Probe { clip_id, .. } | JobKind::Thumbnail { clip_id, .. } | JobKind::AudioPeaks {
                clip_id,
                ..
            } => r == Ok::<bool, String>(key_index(store.entries(), clip_id@) >= 0),
        },
{
    match kind {
        JobKind::Trim { source_clip_id, .. } => {
            if store.get(source_clip_id.as_str()).is_some() {
                Ok(true)
            } else {
                Err(owned("source clip not found"))
            }
        },
        JobKind::Probe { clip_id, .. } | JobKind::Thumbnail { clip_id, .. } | JobKind::AudioPeaks {
            clip_id,
            ..
        } => Ok(store.get(clip_id.as_str()).is_some()),
    }
}

} // verus!
