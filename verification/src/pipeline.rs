//! Taking a finished clip file into the library (`on_clip_ready`): a file
//! already tracked and ready is skipped, one stuck in processing is resumed,
//! anything else gets a fresh record (named after the game being played when
//! the save was announced); then the probe and thumbnail jobs it still lacks
//! are queued.
//!
//! Reading the file's metadata, the foreground window and the clock, showing
//! the overlay and sending the jobs are the caller's part.
use vstd::prelude::*;

use crate::clip::{
    Clip, ClipDetectedPayload, ClipStatus, clip_detected_payload, clip_from_path, clone_opt_string,
    FileTime, fresh_from_path, opt_str_view, utc_rfc3339, millis_fit,
};
use crate::jobs::{
    edit_result, has_status, JobKind, mark_failed, mark_processing, mark_ready, needs_audio_peaks,
    needs_audio_peaks_spec, trimmed_title, trimmed_title_spec,
};
use crate::store::{key_index, lookup};
use crate::store::{ClipStore, edited, lemma_edit_by, path_index, StoreEntry, upserted};
use crate::text::owned;

verus! {

/// The game a new clip is filed under: the one locked or remembered, else
/// the one in the foreground.
pub open spec fn game_for_clip(remembered: Option<Seq<char>>, detected: Option<Seq<char>>) -> Option<
    Seq<char>,
> {
    if remembered is Some {
        remembered
    } else {
        detected
    }
}

/// `new` is `old` filed under `game`, titled "{game} {stamp}".
pub open spec fn titled_for_game(old: Clip, new: Clip, game: Option<Seq<char>>, stamp: Seq<char>) -> bool {
    &&& new == Clip { game_name: new.game_name, display_name: new.display_name, ..old }
    &&& opt_str_view(new.game_name) == game
    &&& opt_str_view(new.display_name) == match game {
        Some(g) => Some(g + seq![' '] + stamp),
        None => None,
    }
}

/// Which jobs a queued clip still needs.
pub struct JobPlan {
    /// The clip only needs marking ready.
    pub mark_ready: bool,
    pub probe: bool,
    pub thumbnail: bool,
}

/// A resumed clip whose length is known and whose thumbnail file is there
/// only needs marking ready; otherwise a clip of unknown length is probed
/// and one without a thumbnail file gets one.
pub open spec fn job_plan_spec(clip: Clip, resumed: bool, thumbnail_exists: bool) -> (bool, bool, bool) {
    let thumb_ok = clip.thumbnail_path is Some && thumbnail_exists;
    if resumed && clip.duration_us is Some && thumb_ok {
        (true, false, false)
    } else {
        (false, clip.duration_us is None, !thumb_ok)
    }
}

pub fn plan_jobs(clip: &Clip, resumed: bool, thumbnail_exists: bool) -> (r: JobPlan)
    ensures
        (r.mark_ready, r.probe, r.thumbnail) == job_plan_spec(*clip, resumed, thumbnail_exists),
{
    let thumb_ok = clip.thumbnail_path.is_some() && thumbnail_exists;
    if resumed && clip.duration_us.is_some() && thumb_ok {
        JobPlan { mark_ready: true, probe: false, thumbnail: false }
    } else {
        JobPlan { mark_ready: false, probe: clip.duration_us.is_none(), thumbnail: !thumb_ok }
    }
}

/// A clip that was taken in.
pub struct QueuedClip {
    /// The record as filed, announced as updated.
    pub clip: Clip,
    /// The detection announcement, when the file was announced as new.
    pub detected: Option<ClipDetectedPayload>,
    /// Whether to show the "clip saved" overlay.
    pub show_overlay: bool,
    /// The record after it was marked ready, where that was all it needed.
    pub marked_ready: Option<Clip>,
    pub probe: bool,
    pub thumbnail: bool,
}

pub enum IngestOutcome {
    /// The file is already in the library and ready.
    AlreadyTracked,
    Queued(QueuedClip),
}

/// What the foreground and clock said when the file was announced.
pub struct IngestContext {
    /// The game locked or remembered before the save.
    pub remembered_game: Option<String>,
    /// The game in the foreground now.
    pub detected_game: Option<String>,
    /// The local time, "%d %b %H:%M".
    pub stamp: String,
}

/// `c` is a fresh record for the file, filed under `game` and titled after
/// it.
pub open spec fn fresh_titled(
    c: Clip,
    path: Seq<char>,
    file_name: Option<Seq<char>>,
    created: FileTime,
    game: Option<Seq<char>>,
    stamp: Seq<char>,
) -> bool {
    let bare = Clip { game_name: None, display_name: None, ..c };
    &&& fresh_from_path(bare, path, file_name, created, ClipStatus::Processing)
    &&& titled_for_game(bare, c, game, stamp)
}

/// The record for a file that is not yet in the library (or failed).
pub fn new_record(
    path: &str,
    file_name: Option<String>,
    created: FileTime,
    notify: bool,
    ctx: &IngestContext,
) -> (r: Option<Clip>)
    ensures
        match r {
            Some(c) => fresh_titled(
                c,
                path@,
                opt_str_view(file_name),
                created,
                if notify {
                    game_for_clip(opt_str_view(ctx.remembered_game), opt_str_view(ctx.detected_game))
                } else {
                    None
                },
                ctx.stamp@,
            ),
            None => utc_rfc3339(created.secs, created.nanos) is None || !millis_fit(created),
        },
{
    let c = match clip_from_path(path, file_name, created, ClipStatus::Processing) {
        Some(c) => c,
        None => {
            return None;
        },
    };
    if !notify {
        assert(Clip { game_name: None, display_name: None, ..c } == c);
        return Some(c);
    }
    let game = if ctx.remembered_game.is_some() {
        clone_opt_string(&ctx.remembered_game)
    } else {
        clone_opt_string(&ctx.detected_game)
    };
    let display = match &game {
        Some(_) => trimmed_title(&game, ctx.stamp.as_str(), &None),
        None => None,
    };
    let r = Clip { game_name: game, display_name: display, ..c };
    assert(Clip { game_name: None, display_name: None, ..r } == c);
    Some(r)
}

/// The ingest outcome `r` for the file, given the store before and after.
pub open spec fn ingest_spec(
    before: Seq<StoreEntry>,
    after: Seq<StoreEntry>,
    path: Seq<char>,
    file_name: Option<Seq<char>>,
    created: FileTime,
    file_exists: bool,
    thumbnail_exists: bool,
    notify: bool,
    show_overlay: bool,
    remembered: Option<Seq<char>>,
    detected: Option<Seq<char>>,
    stamp: Seq<char>,
    r: Result<IngestOutcome, String>,
) -> bool {
    let i = path_index(before, path);
    let resumed = i >= 0 && before[i].clip.status == ClipStatus::Processing;
    if !file_exists {
        &&& after == before
        &&& r matches Err(e) && e@ == "file does not exist"@
    } else if i >= 0 && before[i].clip.status == ClipStatus::Ready {
        &&& after == before
        &&& r matches Ok(IngestOutcome::AlreadyTracked)
    } else if !resumed && (utc_rfc3339(created.secs, created.nanos) is None || !millis_fit(
        created,
    )) {
        &&& after == before
        &&& r matches Err(e) && e@ == "clip time out of range"@
    } else {
        exists|filed: Clip|
            #[trigger] ingested_as(
                filed,
                before,
                after,
                path,
                file_name,
                created,
                thumbnail_exists,
                notify,
                show_overlay,
                remembered,
                detected,
                stamp,
                r,
            )
    }
}

/// The file was filed as `filed` (resumed, or a fresh record), and `r` and
/// the store after follow from that.
pub open spec fn ingested_as(
    filed: Clip,
    before: Seq<StoreEntry>,
    after: Seq<StoreEntry>,
    path: Seq<char>,
    file_name: Option<Seq<char>>,
    created: FileTime,
    thumbnail_exists: bool,
    notify: bool,
    show_overlay: bool,
    remembered: Option<Seq<char>>,
    detected: Option<Seq<char>>,
    stamp: Seq<char>,
    r: Result<IngestOutcome, String>,
) -> bool {
    let i = path_index(before, path);
    let resumed = i >= 0 && before[i].clip.status == ClipStatus::Processing;
    let game = if notify {
        game_for_clip(remembered, detected)
    } else {
        None
    };
    let mid = if resumed {
        before
    } else {
        upserted(before, filed)
    };
    let plan = job_plan_spec(filed, resumed, thumbnail_exists);
    &&& if resumed {
        filed.same_as(before[i].clip)
    } else {
        fresh_titled(filed, path, file_name, created, game, stamp)
    }
    &&& if plan.0 {
        edited(mid, filed.id@, after, |a: Clip, b: Clip| has_status(a, b, ClipStatus::Ready))
    } else {
        after == mid
    }
    &&& match r {
        Ok(IngestOutcome::Queued(q)) => {
            &&& q.clip.same_as(filed)
            &&& notify == q.detected is Some
            &&& q.show_overlay == (notify && show_overlay)
            &&& (q.detected matches Some(p) ==> {
                &&& p.id == q.clip.id
                &&& p.file_path == q.clip.file_path
                &&& p.file_name == q.clip.file_name
                &&& p.created_at == q.clip.created_at
                &&& p.game_name == q.clip.game_name
            })
            &&& q.probe == plan.1
            &&& q.thumbnail == plan.2
            &&& if plan.0 {
                q.marked_ready is Some && edit_result(mid, filed.id@, after, q.marked_ready)
            } else {
                q.marked_ready is None
            }
        },
        Err(e) => plan.0 && edit_result(mid, filed.id@, after, None) && e@
            == "clip not found"@,
        _ => false,
    }
}

/// `on_clip_ready_with_overlay`. `file_exists` tells whether the file is on
/// disk; `thumbnail_exists` whether the thumbnail file named by the record
/// already filed for this path is on disk.
pub fn on_clip_ready_with_overlay(
    store: &mut ClipStore,
    path: &str,
    file_name: Option<String>,
    created: FileTime,
    file_exists: bool,
    thumbnail_exists: bool,
    notify: bool,
    show_overlay: bool,
    ctx: &IngestContext,
) -> (r: Result<IngestOutcome, String>)
    requires
        old(store).wf(),
    ensures
        final(store).wf(),
        ingest_spec(
            old(store).entries(),
            final(store).entries(),
            path@,
            opt_str_view(file_name),
            created,
            file_exists,
            thumbnail_exists,
            notify,
            show_overlay,
            opt_str_view(ctx.remembered_game),
            opt_str_view(ctx.detected_game),
            ctx.stamp@,
            r,
        ),
{
    if !file_exists {
        return Err(owned("file does not exist"));
    }
    let ghost before = store.entries();
    let existing = store.by_file_path(path);
    let mut resumed = false;
    match &existing {
        Some(e) => {
            if e.status == ClipStatus::Ready {
                return Ok(IngestOutcome::AlreadyTracked);
            }
            if e.status == ClipStatus::Processing {
                resumed = true;
            }
        },
        None => {},
    }
    let ghost mut witness: Clip;
    let filed: Clip = if resumed {
        match existing {
            Some(e) => {
                proof {
                    witness = e;
                }
                e
            },
            None => {
                return Err(owned("clip not found"));
            },
        }
    } else {
        let c = match new_record(path, file_name, created, notify, ctx) {
            Some(c) => c,
            None => {
                return Err(owned("clip time out of range"));
            },
        };
        proof {
            witness = c;
        }
        let kept = store.upsert(c);
        kept
    };
    let ghost mid = store.entries();
    let detected = if notify {
        Some(clip_detected_payload(&filed))
    } else {
        None
    };
    let plan = plan_jobs(&filed, resumed, thumbnail_exists);
    let mut marked_ready: Option<Clip> = None;
    if plan.mark_ready {
        let updated = store.update(filed.id.as_str(), mark_ready);
        proof {
            lemma_edit_by(
                mark_ready,
                mid,
                filed.id@,
                store.entries(),
                |a: Clip, b: Clip| has_status(a, b, ClipStatus::Ready),
            );
        }
        match updated {
            Some(u) => {
                marked_ready = Some(u);
            },
            None => {
                let r = Err(owned("clip not found"));
                proof {
                    assert(ingested_as(
                        witness,
                        before,
                        store.entries(),
                        path@,
                        opt_str_view(file_name),
                        created,
                        thumbnail_exists,
                        notify,
                        show_overlay,
                        opt_str_view(ctx.remembered_game),
                        opt_str_view(ctx.detected_game),
                        ctx.stamp@,
                        r,
                    ));
                }
                return r;
            },
        }
    }
    let r = Ok(
        IngestOutcome::Queued(
            QueuedClip {
                clip: filed,
                detected,
                show_overlay: notify && show_overlay,
                marked_ready,
                probe: plan.probe,
                thumbnail: plan.thumbnail,
            },
        ),
    );
    proof {
        assert(ingested_as(
            witness,
            before,
            store.entries(),
            path@,
            opt_str_view(file_name),
            created,
            thumbnail_exists,
            notify,
            show_overlay,
            opt_str_view(ctx.remembered_game),
            opt_str_view(ctx.detected_game),
            ctx.stamp@,
            r,
        ));
    }
    r
}

// ------------------------------------------------------------ repair

/// What the disk says of a listed clip.
pub struct FileCheck {
    /// The clip's video file is there.
    pub file_exists: bool,
    /// The file its record names as thumbnail is there.
    pub thumbnail_exists: bool,
}

/// What repair does with one listed clip.
#[derive(Clone, Copy, PartialEq, Eq, Debug, Structural)]
pub enum RepairStep {
    Skip,
    /// The file is gone: mark the clip failed.
    MarkFailed,
    /// Length and thumbnail are there: mark the clip ready.
    MarkReady,
    /// Queue the missing jobs, marking a failed clip processing again first.
    Requeue { reset: bool, probe: bool, thumbnail: bool },
}

/// `repair_clips`' decision for one clip: clips stuck processing (and, on a
/// full repair, failed ones) are looked at; a missing file fails the clip
/// (unless it already has); a clip with its length and thumbnail becomes
/// ready (unless it is); anything else gets its missing jobs again.
pub open spec fn repair_step_spec(c: Clip, fc: FileCheck, include_failed: bool) -> RepairStep {
    let processing = c.status == ClipStatus::Processing;
    let retry = include_failed && c.status == ClipStatus::Failed;
    let thumb_ok = c.thumbnail_path is Some && fc.thumbnail_exists;
    if !processing && !retry {
        RepairStep::Skip
    } else if !fc.file_exists {
        if c.status != ClipStatus::Failed {
            RepairStep::MarkFailed
        } else {
            RepairStep::Skip
        }
    } else if c.duration_us is Some && thumb_ok {
        if c.status != ClipStatus::Ready {
            RepairStep::MarkReady
        } else {
            RepairStep::Skip
        }
    } else {
        RepairStep::Requeue { reset: retry, probe: c.duration_us is None, thumbnail: !thumb_ok }
    }
}

pub fn repair_step(c: &Clip, fc: &FileCheck, include_failed: bool) -> (r: RepairStep)
    ensures
        r == repair_step_spec(*c, *fc, include_failed),
{
    let processing = c.status == ClipStatus::Processing;
    let retry = include_failed && c.status == ClipStatus::Failed;
    let thumb_ok = c.thumbnail_path.is_some() && fc.thumbnail_exists;
    if !processing && !retry {
        RepairStep::Skip
    } else if !fc.file_exists {
        if c.status != ClipStatus::Failed {
            RepairStep::MarkFailed
        } else {
            RepairStep::Skip
        }
    } else if c.duration_us.is_some() && thumb_ok {
        if c.status != ClipStatus::Ready {
            RepairStep::MarkReady
        } else {
            RepairStep::Skip
        }
    } else {
        RepairStep::Requeue { reset: retry, probe: c.duration_us.is_none(), thumbnail: !thumb_ok }
    }
}

/// The status a repair step writes, if any.
pub open spec fn step_status(s: RepairStep) -> Option<ClipStatus> {
    match s {
        RepairStep::MarkFailed => Some(ClipStatus::Failed),
        RepairStep::MarkReady => Some(ClipStatus::Ready),
        RepairStep::Requeue { reset: true, .. } => Some(ClipStatus::Processing),
        _ => None,
    }
}

/// A queued job, as (kind, clip id, path): 0 probe, 1 thumbnail, 3 audio.
pub open spec fn job_view(j: JobKind) -> (nat, Seq<char>, Seq<char>) {
    match j {
        JobKind::Probe { clip_id, path } => (0, clip_id@, path@),
        JobKind::Thumbnail { clip_id, path } => (1, clip_id@, path@),
        JobKind::Trim { source_clip_id, input, .. } => (2, source_clip_id@, input@),
        JobKind::AudioPeaks { clip_id, path } => (3, clip_id@, path@),
    }
}

/// The jobs repair queues for the first `n` clips, in order.
pub open spec fn repair_jobs(clips: Seq<Clip>, steps: Seq<RepairStep>, n: int) -> Seq<(nat, Seq<char>, Seq<char>)>
    decreases n,
{
    if n <= 0 {
        Seq::empty()
    } else {
        let c = clips[n - 1];
        let prev = repair_jobs(clips, steps, n - 1);
        match steps[n - 1] {
            RepairStep::Requeue { probe, thumbnail, .. } => {
                let a = if probe {
                    prev.push((0nat, c.id@, c.file_path@))
                } else {
                    prev
                };
                if thumbnail {
                    a.push((1nat, c.id@, c.file_path@))
                } else {
                    a
                }
            },
            _ => prev,
        }
    }
}

/// The records repair announces for the first `n` clips, in order: each
/// status it wrote, where the clip was still there.
pub open spec fn repair_updates(states: Seq<Seq<StoreEntry>>, clips: Seq<Clip>, steps: Seq<RepairStep>, n: int) -> Seq<
    Clip,
>
    decreases n,
{
    if n <= 0 {
        Seq::empty()
    } else {
        let prev = repair_updates(states, clips, steps, n - 1);
        let i = key_index(states[n - 1], clips[n - 1].id@);
        if step_status(steps[n - 1]) is Some && i >= 0 {
            prev.push(states[n][i].clip)
        } else {
            prev
        }
    }
}

/// How many clips the first `n` steps repaired: every requeue, and every
/// status mark that found its clip.
pub open spec fn repair_count(states: Seq<Seq<StoreEntry>>, clips: Seq<Clip>, steps: Seq<RepairStep>, n: int) -> nat
    decreases n,
{
    if n <= 0 {
        0
    } else {
        let prev = repair_count(states, clips, steps, n - 1);
        match steps[n - 1] {
            RepairStep::Requeue { .. } => prev + 1,
            RepairStep::MarkFailed | RepairStep::MarkReady => if key_index(
                states[n - 1],
                clips[n - 1].id@,
            ) >= 0 {
                prev + 1
            } else {
                prev
            },
            RepairStep::Skip => prev,
        }
    }
}

/// What a repair pass did.
pub struct RepairOutcome {
    /// Records whose status changed, to announce.
    pub updated: Vec<Clip>,
    /// Jobs to queue.
    pub jobs: Vec<JobKind>,
    /// Names of the clips requeued.
    pub requeued_names: Vec<String>,
    pub repaired: usize,
}

/// `repair_clips` over the listed clips and what the disk says of each.
pub fn repair_clips(store: &mut ClipStore, clips: &Vec<Clip>, checks: &Vec<FileCheck>, include_failed: bool) -> (r:
    RepairOutcome)
    requires
        old(store).wf(),
        clips@.len() == checks@.len(),
    ensures
        final(store).wf(),
        ({
            let steps = Seq::new(
                clips@.len(),
                |i: int| repair_step_spec(clips@[i], checks@[i], include_failed),
            );
            exists|states: Seq<Seq<StoreEntry>>|
                {
                    &&& states.len() == clips@.len() + 1
                    &&& states[0] == old(store).entries()
                    &&& states.last() == final(store).entries()
                    &&& forall|i: int|
                        0 <= i < clips@.len() ==> match step_status(steps[i]) {
                            Some(st) => edited(
                                #[trigger] states[i],
                                clips@[i].id@,
                                states[i + 1],
                                |a: Clip, b: Clip| has_status(a, b, st),
                            ),
                            None => states[i + 1] == states[i],
                        }
                    &&& r.updated@.len() == repair_updates(states, clips@, steps, clips@.len() as int).len()
                    &&& forall|k: int|
                        0 <= k < r.updated@.len() ==> #[trigger] r.updated@[k].same_as(
                            repair_updates(states, clips@, steps, clips@.len() as int)[k],
                        )
                    &&& r.jobs@.map_values(|j: JobKind| job_view(j)) == repair_jobs(
                        clips@,
                        steps,
                        clips@.len() as int,
                    )
                    &&& r.repaired as nat == repair_count(states, clips@, steps, clips@.len() as int)
                }
        }),
{
    let ghost steps = Seq::new(
        clips@.len(),
        |i: int| repair_step_spec(clips@[i], checks@[i], include_failed),
    );
    let ghost mut states: Seq<Seq<StoreEntry>> = seq![store.entries()];
    let mut updated: Vec<Clip> = Vec::new();
    let mut jobs: Vec<JobKind> = Vec::new();
    let mut names: Vec<String> = Vec::new();
    let mut repaired: usize = 0;
    let mut i: usize = 0;
    while i < clips.len()
        invariant
            clips@.len() == checks@.len(),
            steps == Seq::new(
                clips@.len(),
                |i: int| repair_step_spec(clips@[i], checks@[i], include_failed),
            ),
            i <= clips@.len(),
            store.wf(),
            repaired <= i,
            states.len() == i + 1,
            states[0] == old(store).entries(),
            states.last() == store.entries(),
            forall|q: int|
                0 <= q < i ==> match step_status(steps[q]) {
                    Some(st) => edited(
                        #[trigger] states[q],
                        clips@[q].id@,
                        states[q + 1],
                        |a: Clip, b: Clip| has_status(a, b, st),
                    ),
                    None => states[q + 1] == states[q],
                },
            updated@.len() == repair_updates(states, clips@, steps, i as int).len(),
            forall|k: int|
                0 <= k < updated@.len() ==> #[trigger] updated@[k].same_as(
                    repair_updates(states, clips@, steps, i as int)[k],
                ),
            jobs@.map_values(|j: JobKind| job_view(j)) == repair_jobs(clips@, steps, i as int),
            repaired as nat == repair_count(states, clips@, steps, i as int),
        decreases clips.len() - i,
    {
        let c = &clips[i];
        let step = repair_step(c, &checks[i], include_failed);
        assert(step == steps[i as int]);
        let ghost before = store.entries();
        let ghost old_states = states;
        let ghost old_updated = updated@;
        let ghost old_jobs = jobs@;
        let res: Option<Clip> = match step {
            RepairStep::MarkFailed => {
                let u = store.update(c.id.as_str(), mark_failed);
                proof {
                    crate::store::lemma_edit_by(mark_failed, before, c.id@, store.entries(), |a: Clip, b: Clip| has_status(a, b, ClipStatus::Failed));
                }
                u
            },
            RepairStep::MarkReady => {
                let u = store.update(c.id.as_str(), mark_ready);
                proof {
                    crate::store::lemma_edit_by(mark_ready, before, c.id@, store.entries(), |a: Clip, b: Clip| has_status(a, b, ClipStatus::Ready));
                }
                u
            },
            RepairStep::Requeue { reset: true, .. } => {
                let u = store.update(c.id.as_str(), mark_processing);
                proof {
                    crate::store::lemma_edit_by(mark_processing, before, c.id@, store.entries(), |a: Clip, b: Clip| has_status(a, b, ClipStatus::Processing));
                }
                u
            },
            _ => None,
        };
        proof {
            states = states.push(store.entries());
            assert forall|q: int| 0 <= q < i implies match step_status(steps[q]) {
                Some(st) => edited(
                    #[trigger] states[q],
                    clips@[q].id@,
                    states[q + 1],
                    |a: Clip, b: Clip| has_status(a, b, st),
                ),
                None => states[q + 1] == states[q],
            } by {
                assert(states[q] == old_states[q]);
                assert(states[q + 1] == old_states[q + 1]);
            }
            lemma_repair_prefix(old_states, states, clips@, steps, i as int);
        }
        let found = res.is_some();
        match res {
            Some(u) => {
                updated.push(u);
            },
            None => {},
        }
        match step {
            RepairStep::MarkFailed | RepairStep::MarkReady => {
                if found {
                    repaired += 1;
                }
            },
            RepairStep::Requeue { probe, thumbnail, .. } => {
                if probe {
                    jobs.push(JobKind::Probe { clip_id: c.id.clone(), path: c.file_path.clone() });
                }
                if thumbnail {
                    jobs.push(JobKind::Thumbnail { clip_id: c.id.clone(), path: c.file_path.clone() });
                }
                names.push(c.file_name.clone());
                repaired += 1;
            },
            RepairStep::Skip => {},
        }
        proof {
            assert(jobs@.map_values(|j: JobKind| job_view(j)) =~= repair_jobs(clips@, steps, i + 1));
        }
        i += 1;
    }
    RepairOutcome { updated, jobs, requeued_names: names, repaired }
}

/// The prefix results stay what they were when a state is added.
pub proof fn lemma_repair_prefix(
    s1: Seq<Seq<StoreEntry>>,
    s2: Seq<Seq<StoreEntry>>,
    clips: Seq<Clip>,
    steps: Seq<RepairStep>,
    n: int,
)
    requires
        0 <= n < s1.len(),
        s1.len() <= s2.len(),
        forall|t: int| 0 <= t < s1.len() ==> #[trigger] s2[t] == s1[t],
    ensures
        repair_updates(s2, clips, steps, n) == repair_updates(s1, clips, steps, n),
        repair_count(s2, clips, steps, n) == repair_count(s1, clips, steps, n),
    decreases n,
{
    if n > 0 {
        lemma_repair_prefix(s1, s2, clips, steps, n - 1);
    }
}

/// `repair_clips`' second pass (full repair only): the clips still without
/// highlight markers whose file is there get an audio job.
pub open spec fn backfill_spec(clips: Seq<Clip>, exists: Seq<bool>) -> Seq<(nat, Seq<char>, Seq<char>)>
    decreases clips.len(),
{
    if clips.len() == 0 || exists.len() < clips.len() {
        Seq::empty()
    } else {
        let prev = backfill_spec(clips.drop_last(), exists.take(clips.len() - 1));
        let c = clips.last();
        if needs_audio_peaks_spec(c) && exists[clips.len() - 1] {
            prev.push((3nat, c.id@, c.file_path@))
        } else {
            prev
        }
    }
}

pub fn audio_backfill(clips: &Vec<Clip>, exists: &Vec<bool>) -> (r: Vec<JobKind>)
    requires
        clips@.len() == exists@.len(),
    ensures
        r@.map_values(|j: JobKind| job_view(j)) == backfill_spec(clips@, exists@),
{
    let mut jobs: Vec<JobKind> = Vec::new();
    let mut i: usize = 0;
    while i < clips.len()
        invariant
            clips@.len() == exists@.len(),
            i <= clips@.len(),
            jobs@.map_values(|j: JobKind| job_view(j)) == backfill_spec(
                clips@.take(i as int),
                exists@.take(i as int),
            ),
        decreases clips.len() - i,
    {
        proof {
            assert(clips@.take(i + 1).drop_last() =~= clips@.take(i as int));
            assert(exists@.take(i + 1).take(i as int) =~= exists@.take(i as int));
        }
        let ghost before = jobs@;
        if needs_audio_peaks(&clips[i]) && exists[i] {
            jobs.push(JobKind::AudioPeaks { clip_id: clips[i].id.clone(), path: clips[i].file_path.clone() });
            assert(jobs@.map_values(|j: JobKind| job_view(j)) =~= before.map_values(|j: JobKind| job_view(j)).push(
                (3nat, clips@[i as int].id@, clips@[i as int].file_path@),
            ));
        }
        i += 1;
    }
    assert(clips@.take(i as int) =~= clips@);
    assert(exists@.take(i as int) =~= exists@);
    jobs
}

} // verus!
