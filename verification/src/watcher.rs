//! Watching the OBS clip folder: which file events are new clips, when a
//! file has stopped growing, which paths are already being handled, and in
//! which order clips already on disk are imported.
use vstd::prelude::*;

use crate::clip::FileTime;
use crate::obs::{extension, extension_of, is_obs_clip_file, is_obs_clip_spec, lemma_last_dot};
use crate::text::{append_str, chars_of, eq_ignore_ascii_case, eq_ignore_ascii_case_str, owned, str_eq, string_of};

verus! {

// ------------------------------------------------------------ errors

/// Why the folder watcher could not start.
#[derive(Debug)]
pub enum WatcherError {
    NotConfigured,
    Notify(String),
}

impl WatcherError {
    pub fn message(&self) -> (r: String)
        ensures
            r@ == match self {
                WatcherError::NotConfigured => "watch path not set"@,
                WatcherError::Notify(m) => "watcher error: "@ + m@,
            },
    {
        match self {
            WatcherError::NotConfigured => owned("watch path not set"),
            WatcherError::Notify(m) => {
                let mut r = owned("watcher error: ");
                append_str(&mut r, m.as_str());
                r
            },
        }
    }
}

// ------------------------------------------------------------ events

/// The kinds of file-system event the watcher is told of.
#[derive(Clone, Copy, PartialEq, Eq, Debug, Structural)]
pub enum WatchEventKind {
    Create,
    Modify,
    Remove,
    Any,
    Access,
    Other,
}

/// The word the debug log uses for an event kind.
pub fn event_kind_label(kind: WatchEventKind) -> (r: &'static str)
    ensures
        r@ == match kind {
            WatchEventKind::Create => "create"@,
            WatchEventKind::Modify => "modify"@,
            WatchEventKind::Remove => "remove"@,
            WatchEventKind::Any => "any"@,
            WatchEventKind::Access => "access"@,
            WatchEventKind::Other => "other"@,
        },
{
    match kind {
        WatchEventKind::Create => "create",
        WatchEventKind::Modify => "modify",
        WatchEventKind::Remove => "remove",
        WatchEventKind::Any => "any",
        WatchEventKind::Access => "access",
        WatchEventKind::Other => "other",
    }
}

pub open spec fn is_new_clip_event_spec(kind: WatchEventKind) -> bool {
    kind == WatchEventKind::Create || kind == WatchEventKind::Modify || kind == WatchEventKind::Any
}

/// A file may be a new clip after it was created or written to (or after an
/// event whose kind the platform did not say).
pub fn is_new_clip_event(kind: WatchEventKind) -> (r: bool)
    ensures
        r == is_new_clip_event_spec(kind),
{
    match kind {
        WatchEventKind::Create | WatchEventKind::Modify | WatchEventKind::Any => true,
        _ => false,
    }
}

/// A path whose file OBS could have written as a clip.
pub fn is_clip_candidate(file_name: &str) -> (r: bool)
    ensures
        r == is_obs_clip_spec(file_name@),
{
    is_obs_clip_file(file_name)
}

/// Whether the file's extension is `wanted`, in any ASCII case.
pub open spec fn has_ext_spec(file_name: Seq<char>, wanted: Seq<char>) -> bool {
    match extension_of(file_name) {
        Some(e) => eq_ignore_ascii_case(e, wanted),
        None => false,
    }
}

pub fn has_ext(file_name: &str, wanted: &str) -> (r: bool)
    ensures
        r == has_ext_spec(file_name@, wanted@),
{
    match extension(file_name) {
        Some(e) => eq_ignore_ascii_case_str(e.as_str(), wanted),
        None => false,
    }
}

/// The key under which a clip is handled once: the path without its file's
/// extension (`with_extension("")`), so a `.mkv` and the `.mp4` OBS remuxes
/// it into share a key. `file_name` is the path's last component.
pub open spec fn dedupe_key_spec(path: Seq<char>, file_name: Seq<char>) -> Seq<char> {
    match extension_of(file_name) {
        Some(e) => if file_name.len() <= path.len() {
            path.take(path.len() - e.len() - 1)
        } else {
            path
        },
        None => path,
    }
}

pub fn dedupe_clip_key(path: &str, file_name: &str) -> (r: String)
    ensures
        r@ == dedupe_key_spec(path@, file_name@),
{
    let e = match extension(file_name) {
        Some(e) => e,
        None => {
            return owned(path);
        },
    };
    let pv = chars_of(path);
    let fv = chars_of(file_name);
    let ev = chars_of(e.as_str());
    if fv.len() > pv.len() {
        return owned(path);
    }
    proof {
        lemma_last_dot(file_name@, file_name@.len() as int);
    }
    let keep = pv.len() - ev.len() - 1;
    let mut out: Vec<char> = Vec::new();
    let mut k: usize = 0;
    while k < keep
        invariant
            keep <= pv@.len(),
            k <= keep,
            out@ == pv@.take(k as int),
        decreases keep - k,
    {
        out.push(pv[k]);
        assert(pv@.take(k + 1) =~= pv@.take(k as int).push(pv@[k as int]));
        k += 1;
    }
    string_of(out.as_slice())
}

pub open spec fn is_sep(c: char) -> bool {
    c == '/' || c == '\\'
}

/// Whether `path` lies under `root`: `root` is a leading part of `path`
/// that ends at a separator or at the end of `path`.
pub open spec fn within_root_spec(path: Seq<char>, root: Seq<char>) -> bool {
    &&& root.len() <= path.len()
    &&& path.take(root.len() as int) == root
    &&& (root.len() == 0 || root.len() == path.len() || is_sep(root.last()) || is_sep(
        path[root.len() as int],
    ))
}

pub fn within_root(path: &str, root: &str) -> (r: bool)
    ensures
        r == within_root_spec(path@, root@),
{
    let pv = chars_of(path);
    let rv = chars_of(root);
    if rv.len() > pv.len() {
        return false;
    }
    let mut k: usize = 0;
    while k < rv.len()
        invariant
            pv@ == path@,
            rv@ == root@,
            rv@.len() <= pv@.len(),
            k <= rv@.len(),
            forall|j: int| 0 <= j < k ==> pv@[j] == rv@[j],
        decreases rv.len() - k,
    {
        if pv[k] != rv[k] {
            assert(pv@.take(rv@.len() as int)[k as int] == pv@[k as int]);
            assert(pv@.take(rv@.len() as int) != rv@);
            return false;
        }
        k += 1;
    }
    assert(pv@.take(rv@.len() as int) =~= rv@);
    let n = rv.len();
    n == 0 || n == pv.len() || rv[n - 1] == '/' || rv[n - 1] == '\\' || pv[n] == '/' || pv[n] == '\\'
}

/// One path named by a file event, with its file name.
pub struct EventPath {
    pub path: String,
    pub file_name: String,
}

/// What becomes of one path of a file event.
#[derive(Clone, Copy, PartialEq, Eq, Debug, Structural)]
pub enum PathRoute {
    /// A new clip under the watched folder: handle it.
    Queue,
    /// New, under the folder, but not a clip file: log it.
    NotClip,
    /// A removal: log it, nothing more.
    Deleted,
    /// Outside the watched folder, or an event that says nothing new.
    Ignored,
}

pub open spec fn route_spec(kind: WatchEventKind, root: Seq<char>, path: Seq<char>, file_name: Seq<char>) -> PathRoute {
    if !is_new_clip_event_spec(kind) {
        if kind == WatchEventKind::Remove {
            PathRoute::Deleted
        } else {
            PathRoute::Ignored
        }
    } else if !within_root_spec(path, root) {
        PathRoute::Ignored
    } else if is_obs_clip_spec(file_name) {
        PathRoute::Queue
    } else {
        PathRoute::NotClip
    }
}

/// What the watcher does with each path of one file event.
pub fn route_event(kind: WatchEventKind, paths: &Vec<EventPath>, root: &str) -> (r: Vec<PathRoute>)
    ensures
        r@.len() == paths@.len(),
        forall|i: int|
            0 <= i < paths@.len() ==> r@[i] == route_spec(kind, root@, #[trigger] paths@[i].path@, paths@[i].file_name@),
{
    let mut out: Vec<PathRoute> = Vec::new();
    let mut i: usize = 0;
    while i < paths.len()
        invariant
            i <= paths@.len(),
            out@.len() == i,
            forall|j: int|
                0 <= j < i ==> out@[j] == route_spec(kind, root@, #[trigger] paths@[j].path@, paths@[j].file_name@),
        decreases paths.len() - i,
    {
        let p = &paths[i];
        let route = if !is_new_clip_event(kind) {
            if kind == WatchEventKind::Remove {
                PathRoute::Deleted
            } else {
                PathRoute::Ignored
            }
        } else if !within_root(p.path.as_str(), root) {
            PathRoute::Ignored
        } else if is_clip_candidate(p.file_name.as_str()) {
            PathRoute::Queue
        } else {
            PathRoute::NotClip
        };
        out.push(route);
        i += 1;
    }
    out
}

// ------------------------------------------------------------ stability

/// How many polls in a row must see the same size.
pub const STABLE_SAMPLES: u32 = 8;

/// What one poll of a file's size saw.
#[derive(Clone, Copy, PartialEq, Eq, Debug, Structural)]
pub enum SizeSample {
    Size(u64),
    /// The file is not there (OBS renames while it finishes).
    Missing,
    /// Its metadata could not be read.
    Unreadable,
}

/// The polling state: the size last seen and how many polls since saw it
/// again.
#[derive(Clone, Copy, PartialEq, Eq, Debug, Structural)]
pub struct StabilityState {
    pub last_size: Option<u64>,
    pub stable_count: u32,
}

impl StabilityState {
    pub open spec fn wf(self) -> bool {
        self.stable_count < STABLE_SAMPLES
    }

    pub fn new() -> (r: StabilityState)
        ensures
            r.wf(),
            r.last_size is None,
            r.stable_count == 0,
    {
        StabilityState { last_size: None, stable_count: 0 }
    }
}

/// One poll: the next state, and whether the size has now held steady for
/// `STABLE_SAMPLES` further polls.
pub open spec fn sample_step(st: StabilityState, s: SizeSample) -> (StabilityState, bool) {
    match s {
        SizeSample::Size(n) => if n == 0 {
            (StabilityState { last_size: Some(0), stable_count: 0 }, false)
        } else if st.last_size == Some(n) {
            let c = (st.stable_count + 1) as u32;
            (StabilityState { last_size: Some(n), stable_count: c }, c >= STABLE_SAMPLES)
        } else {
            (StabilityState { last_size: Some(n), stable_count: 0 }, false)
        },
        _ => (StabilityState { last_size: None, stable_count: 0 }, false),
    }
}

pub fn stability_step(st: StabilityState, s: SizeSample) -> (r: (StabilityState, bool))
    requires
        st.wf(),
    ensures
        r == sample_step(st, s),
        !r.1 ==> r.0.wf(),
{
    match s {
        SizeSample::Size(n) => if n == 0 {
            (StabilityState { last_size: Some(0), stable_count: 0 }, false)
        } else if st.last_size == Some(n) {
            let c = st.stable_count + 1;
            (StabilityState { last_size: Some(n), stable_count: c }, c >= STABLE_SAMPLES)
        } else {
            (StabilityState { last_size: Some(n), stable_count: 0 }, false)
        },
        _ => (StabilityState { last_size: None, stable_count: 0 }, false),
    }
}

/// The state after polling `samples` in turn from the start.
pub open spec fn run_samples(samples: Seq<SizeSample>) -> StabilityState
    decreases samples.len(),
{
    if samples.len() == 0 {
        StabilityState { last_size: None, stable_count: 0 }
    } else {
        sample_step(run_samples(samples.drop_last()), samples.last()).0
    }
}

/// Whether the last of `samples` is the poll that reports the file stable.
pub open spec fn settles(samples: Seq<SizeSample>) -> bool {
    samples.len() > 0 && sample_step(run_samples(samples.drop_last()), samples.last()).1
}

/// What the polling state says of the polls behind it: the last
/// `stable_count + 1` polls all saw the size it holds.
proof fn lemma_run_tail(samples: Seq<SizeSample>)
    requires
        forall|j: int| 0 <= j < samples.len() - 1 ==> !settles(#[trigger] samples.take(j + 1)),
    ensures
        run_samples(samples).stable_count < STABLE_SAMPLES || (samples.len() > 0 && settles(samples)),
        run_samples(samples).stable_count < samples.len() || samples.len() == 0,
        samples.len() == 0 ==> run_samples(samples).last_size is None && run_samples(samples).stable_count == 0,
        match run_samples(samples).last_size {
            Some(n) => samples.len() > 0 && forall|j: int|
                samples.len() - 1 - run_samples(samples).stable_count <= j < samples.len() ==> #[trigger] samples[j]
                    == SizeSample::Size(n),
            None => run_samples(samples).stable_count == 0,
        },
    decreases samples.len(),
{
    if samples.len() > 0 {
        let t = samples.drop_last();
        assert forall|j: int| 0 <= j < t.len() - 1 implies !settles(#[trigger] t.take(j + 1)) by {
            assert(t.take(j + 1) =~= samples.take(j + 1));
        }
        lemma_run_tail(t);
        let prev = run_samples(t);
        if t.len() > 0 {
            assert(!settles(samples.take((t.len() - 1) + 1)));
            assert(samples.take((t.len() - 1) + 1) =~= t);
            assert(prev.stable_count < STABLE_SAMPLES);
        }
        let st = run_samples(samples);
        assert(st == sample_step(prev, samples.last()).0);
        match samples.last() {
            SizeSample::Size(n) => {
                if n != 0 && prev.last_size == Some(n) {
                    assert forall|j: int|
                        samples.len() - 1 - st.stable_count <= j < samples.len() implies #[trigger] samples[j]
                            == SizeSample::Size(n) by {
                        if j < samples.len() - 1 {
                            assert(samples[j] == t[j]);
                        }
                    }
                }
            },
            _ => {},
        }
    }
}

/// A file is reported stable only when the same non-zero size was seen by
/// `STABLE_SAMPLES + 1` polls in a row, the last of them the final poll.
pub proof fn law_stable_means_unchanged(samples: Seq<SizeSample>)
    requires
        forall|j: int| 0 <= j < samples.len() - 1 ==> !settles(#[trigger] samples.take(j + 1)),
        settles(samples),
    ensures
        samples.len() > STABLE_SAMPLES,
        samples.last() matches SizeSample::Size(n) && n > 0,
        forall|j: int|
            samples.len() - 1 - STABLE_SAMPLES <= j < samples.len() ==> #[trigger] samples[j] == samples.last(),
{
    let t = samples.drop_last();
    assert forall|j: int| 0 <= j < t.len() - 1 implies !settles(#[trigger] t.take(j + 1)) by {
        assert(t.take(j + 1) =~= samples.take(j + 1));
    }
    lemma_run_tail(t);
    if t.len() > 0 {
        assert(samples.take(t.len() as int) =~= t);
    }
    let st = run_samples(t);
    let n = st.last_size->Some_0;
    assert(samples.last() == SizeSample::Size(n));
    assert forall|j: int| samples.len() - 1 - STABLE_SAMPLES <= j < samples.len() implies #[trigger] samples[j]
        == SizeSample::Size(n) by {
        if j < samples.len() - 1 {
            assert(samples[j] == t[j]);
        }
    }
}

/// Polling the same non-zero size again from a state that holds it counts
/// one more poll; anything else starts the count again.
pub proof fn law_change_resets(st: StabilityState, s: SizeSample)
    requires
        st.wf(),
        !(s matches SizeSample::Size(n) && n > 0 && st.last_size == Some(n)),
    ensures
        sample_step(st, s).0.stable_count == 0,
        !sample_step(st, s).1,
{
}

// ------------------------------------------------------------ in flight

/// The keys of the clips being handled; none twice.
pub struct InFlight {
    keys: Vec<String>,
}

pub open spec fn distinct_keys(s: Seq<Seq<char>>) -> bool {
    forall|i: int, j: int| 0 <= i < j < s.len() ==> s[i] != s[j]
}

impl InFlight {
    pub closed spec fn keys(self) -> Seq<Seq<char>> {
        self.keys@.map_values(|k: String| k@)
    }

    /// The set of keys held.
    pub open spec fn held(self) -> Set<Seq<char>> {
        self.keys().to_set()
    }

    pub open spec fn wf(self) -> bool {
        distinct_keys(self.keys())
    }

    pub fn new() -> (r: InFlight)
        ensures
            r.wf(),
            r.held() == Set::<Seq<char>>::empty(),
    {
        let r = InFlight { keys: Vec::new() };
        assert(r.keys() =~= Seq::<Seq<char>>::empty());
        r
    }

    fn position(&self, key: &str) -> (r: Option<usize>)
        ensures
            match r {
                Some(i) => i < self.keys().len() && self.keys()[i as int] == key@,
                None => !self.keys().contains(key@),
            },
    {
        let mut i: usize = 0;
        while i < self.keys.len()
            invariant
                i <= self.keys@.len(),
                forall|j: int| 0 <= j < i ==> self.keys()[j] != key@,
            decreases self.keys.len() - i,
        {
            if str_eq(self.keys[i].as_str(), key) {
                return Some(i);
            }
            i += 1;
        }
        None
    }

    pub fn contains(&self, key: &str) -> (r: bool)
        ensures
            r == self.held().contains(key@),
    {
        self.position(key).is_some()
    }

    /// Takes `key` for a clip: `false`, changing nothing, where it was held
    /// already.
    pub fn claim(&mut self, key: String) -> (r: bool)
        requires
            old(self).wf(),
        ensures
            final(self).wf(),
            r == !old(self).held().contains(key@),
            final(self).held() == old(self).held().insert(key@),
    {
        match self.position(key.as_str()) {
            Some(_) => {
                assert(self.held() =~= self.held().insert(key@));
                false
            },
            None => {
                let ghost before = self.keys();
                let ghost k0 = key@;
                self.keys.push(key);
                assert(self.keys() =~= before.push(k0));
                assert forall|k: Seq<char>| #[trigger] self.held().contains(k) == before.to_set().insert(k0).contains(k) by {
                    if self.held().contains(k) {
                        let j = choose|j: int| 0 <= j < self.keys().len() && self.keys()[j] == k;
                        if j < before.len() {
                            assert(before[j] == k);
                        }
                    }
                    if before.contains(k) {
                        let j = choose|j: int| 0 <= j < before.len() && before[j] == k;
                        assert(self.keys()[j] == k);
                    }
                    if k == k0 {
                        assert(self.keys()[before.len() as int] == k);
                    }
                }
                assert(self.held() =~= before.to_set().insert(k0));
                true
            },
        }
    }

    /// Lets `key` go.
    pub fn release(&mut self, key: &str)
        requires
            old(self).wf(),
        ensures
            final(self).wf(),
            final(self).held() == old(self).held().remove(key@),
    {
        match self.position(key) {
            Some(i) => {
                let ghost before = self.keys();
                self.keys.remove(i);
                assert(self.keys() =~= before.remove(i as int));
                assert forall|k: Seq<char>| #[trigger] self.held().contains(k) == before.to_set().remove(key@).contains(k) by {
                    if self.held().contains(k) {
                        let j = choose|j: int| 0 <= j < self.keys().len() && self.keys()[j] == k;
                        if j < i {
                            assert(before[j] == k);
                        } else {
                            assert(before[j + 1] == k);
                        }
                    }
                    if before.to_set().remove(key@).contains(k) {
                        let j = choose|j: int| 0 <= j < before.len() && before[j] == k;
                        assert(j != i);
                        if j < i {
                            assert(self.keys()[j] == k);
                        } else {
                            assert(self.keys()[j - 1] == k);
                        }
                    }
                }
                assert(self.held() =~= before.to_set().remove(key@));
            },
            None => {
                assert(self.held() =~= self.held().remove(key@));
            },
        }
    }

    /// Lets every key go.
    pub fn clear(&mut self)
        ensures
            final(self).wf(),
            final(self).held() == Set::<Seq<char>>::empty(),
    {
        self.keys = Vec::new();
        assert(self.keys() =~= Seq::<Seq<char>>::empty());
    }
}

/// A clip is handled once at a time: whatever keys are held, once `key` is
/// claimed a second claim of it returns `false` and changes nothing; once
/// it is released, a claim of it returns `true`.
pub proof fn law_claim_once(held: Set<Seq<char>>, key: Seq<char>)
    ensures
        held.insert(key).contains(key),
        held.insert(key).insert(key) == held.insert(key),
        !held.insert(key).remove(key).contains(key),
{
    assert(held.insert(key).insert(key) =~= held.insert(key));
}

// ------------------------------------------------------------ new clips

/// What to do first with a path a file event named.
pub enum NewClipStart {
    /// The file is gone already.
    Vanished,
    /// The same clip (by its key) is being handled.
    Duplicate,
    /// A `.mkv`: wait for the `.mp4` OBS remuxes it into.
    Remux { key: String },
    /// Wait for this file to stop growing.
    Direct { key: String },
}

/// `process_new_clip`'s first decisions: skip a vanished file, claim the
/// clip's key, and tell a `.mkv` from a file OBS wrote directly.
pub fn begin_new_clip(in_flight: &mut InFlight, path: &str, file_name: &str, exists: bool) -> (r: NewClipStart)
    requires
        old(in_flight).wf(),
    ensures
        final(in_flight).wf(),
        !exists ==> r is Vanished && final(in_flight).held() == old(in_flight).held(),
        exists ==> final(in_flight).held() == old(in_flight).held().insert(dedupe_key_spec(path@, file_name@)),
        exists && old(in_flight).held().contains(dedupe_key_spec(path@, file_name@)) ==> r is Duplicate,
        exists && !old(in_flight).held().contains(dedupe_key_spec(path@, file_name@)) ==> match r {
            NewClipStart::Remux { key } => key@ == dedupe_key_spec(path@, file_name@) && has_ext_spec(
                file_name@,
                "mkv"@,
            ),
            NewClipStart::Direct { key } => key@ == dedupe_key_spec(path@, file_name@) && !has_ext_spec(
                file_name@,
                "mkv"@,
            ),
            _ => false,
        },
{
    if !exists {
        return NewClipStart::Vanished;
    }
    let key = dedupe_clip_key(path, file_name);
    let key2 = owned(key.as_str());
    if !in_flight.claim(key) {
        return NewClipStart::Duplicate;
    }
    if has_ext(file_name, "mkv") {
        NewClipStart::Remux { key: key2 }
    } else {
        NewClipStart::Direct { key: key2 }
    }
}

/// Which file to import once the wait is over.
pub enum FinalPick {
    /// The file waited for, stable and still there.
    Use(String),
    /// It went; the newest clip in the folder, still to be waited for.
    Fallback(String),
    /// Nothing to import.
    GiveUp,
}

pub fn pick_final_path(path: String, stable: bool, still_exists: bool, newest: Option<String>) -> (r: FinalPick)
    ensures
        stable && still_exists ==> r == FinalPick::Use(path),
        !(stable && still_exists) ==> match newest {
            Some(n) => r == FinalPick::Fallback(n),
            None => r is GiveUp,
        },
{
    if stable && still_exists {
        FinalPick::Use(path)
    } else {
        match newest {
            Some(n) => FinalPick::Fallback(n),
            None => FinalPick::GiveUp,
        }
    }
}

// ------------------------------------------------------------ folder scans

/// A directory entry as the search for the newest clip sees it.
pub struct DirClip {
    pub path: String,
    pub file_name: String,
    pub is_file: bool,
    /// Whether the `.mp4` a `.mkv` remuxes into is there.
    pub mp4_exists: bool,
    /// When the file the entry resolves to was last written, where that
    /// could be read.
    pub modified: Option<FileTime>,
}

pub open spec fn time_le(a: FileTime, b: FileTime) -> bool {
    a.secs < b.secs || (a.secs == b.secs && a.nanos <= b.nanos)
}

fn time_le_exec(a: FileTime, b: FileTime) -> (r: bool)
    ensures
        r == time_le(a, b),
{
    a.secs < b.secs || (a.secs == b.secs && a.nanos <= b.nanos)
}

/// The path an entry resolves to (the remuxed `.mp4` where it is there).
pub open spec fn resolved_path(e: DirClip) -> Seq<char> {
    match crate::obs::remux_target_spec(e.path@, e.file_name@) {
        Some(t) => if e.mp4_exists {
            t
        } else {
            e.path@
        },
        None => e.path@,
    }
}

pub open spec fn counts(e: DirClip) -> bool {
    e.is_file && is_obs_clip_spec(e.file_name@)
}

/// The scan over the first `n` entries: the newest clip so far whose time
/// could be read (clips with an unreadable time are passed over), the first
/// of equal times.
pub open spec fn newest_upto(es: Seq<DirClip>, n: int) -> Option<(FileTime, Seq<char>)>
    decreases n,
{
    if n <= 0 {
        None
    } else {
        let best = newest_upto(es, n - 1);
        let e = es[n - 1];
        if !counts(e) {
            best
        } else {
            match e.modified {
                None => best,
                Some(m) => match best {
                    Some(b) => if time_le(m, b.0) {
                        best
                    } else {
                        Some((m, resolved_path(e)))
                    },
                    None => Some((m, resolved_path(e))),
                },
            }
        }
    }
}

pub open spec fn newest_spec(es: Seq<DirClip>) -> Option<Seq<char>> {
    match newest_upto(es, es.len() as int) {
        Some(b) => Some(b.1),
        None => None,
    }
}

/// The clip to fall back on when the watched path vanished: over the
/// folder's entries, the newest clip file
/// among those whose time can be read, `None` only where there is none.
pub fn find_newest_clip(entries: &Vec<DirClip>) -> (r: Option<String>)
    ensures
        match (r, newest_spec(entries@)) {
            (Some(a), Some(b)) => a@ == b,
            (None, None) => true,
            _ => false,
        },
{
    let mut best: Option<(FileTime, String)> = None;
    let mut i: usize = 0;
    while i < entries.len()
        invariant
            i <= entries@.len(),
            match (best, newest_upto(entries@, i as int)) {
                (Some(x), Some(y)) => x.0 == y.0 && x.1@ == y.1,
                (None, None) => true,
                _ => false,
            },
        decreases entries.len() - i,
    {
        let e = &entries[i];
        if e.is_file && is_obs_clip_file(e.file_name.as_str()) {
            match e.modified {
                None => {},
                Some(m) => {
                    let p = crate::obs::resolve_obs_clip_path(e.path.as_str(), e.file_name.as_str(), e.mp4_exists);
                    let replace = match &best {
                        Some(b) => !time_le_exec(m, b.0),
                        None => true,
                    };
                    if replace {
                        best = Some((m, p));
                    }
                },
            }
        }
        i += 1;
    }
    match best {
        Some(b) => Some(b.1),
        None => None,
    }
}

/// The newest clip is `None` exactly when no clip file of the folder has a
/// readable time; otherwise it is the resolved path of such a clip, and no
/// such clip has a later time.
pub proof fn law_newest_is_newest(es: Seq<DirClip>, n: int)
    requires
        0 <= n <= es.len(),
    ensures
        newest_upto(es, n) is None <==> (forall|j: int|
            0 <= j < n && counts(#[trigger] es[j]) ==> es[j].modified is None),
        newest_upto(es, n) matches Some(b) ==> exists|j: int|
            0 <= j < n && counts(#[trigger] es[j]) && es[j].modified == Some(b.0) && resolved_path(es[j])
                == b.1,
        newest_upto(es, n) matches Some(b) ==> forall|j: int|
            0 <= j < n && counts(#[trigger] es[j]) && es[j].modified is Some ==> time_le(
                es[j].modified->Some_0,
                b.0,
            ),
    decreases n,
{
    if n > 0 {
        law_newest_is_newest(es, n - 1);
    }
}

/// A clip file found while scanning the folder.
pub struct ScanFile {
    pub modified: FileTime,
    pub path: String,
}

pub open spec fn scan_view(f: ScanFile) -> (FileTime, Seq<char>) {
    (f.modified, f.path@)
}

/// Inserting after every entry no later than it (a stable insertion).
pub open spec fn ins_by_time(s: Seq<(FileTime, Seq<char>)>, x: (FileTime, Seq<char>)) -> Seq<(FileTime, Seq<char>)>
    decreases s.len(),
{
    if s.len() == 0 {
        seq![x]
    } else if time_le(s.last().0, x.0) {
        s.push(x)
    } else {
        ins_by_time(s.drop_last(), x).push(s.last())
    }
}

/// The stable sort by time, oldest first.
pub open spec fn sort_by_time(s: Seq<(FileTime, Seq<char>)>) -> Seq<(FileTime, Seq<char>)>
    decreases s.len(),
{
    if s.len() == 0 {
        s
    } else {
        ins_by_time(sort_by_time(s.drop_last()), s.last())
    }
}

proof fn lemma_ins_by_time_at(s: Seq<(FileTime, Seq<char>)>, x: (FileTime, Seq<char>), p: int)
    requires
        0 <= p <= s.len(),
        forall|q: int| p <= q < s.len() ==> !time_le(#[trigger] s[q].0, x.0),
        p == 0 || time_le(s[p - 1].0, x.0),
    ensures
        ins_by_time(s, x) == s.insert(p, x),
    decreases s.len(),
{
    if s.len() == 0 {
        assert(s.insert(p, x) =~= seq![x]);
    } else if p == s.len() {
        assert(s.insert(p, x) =~= s.push(x));
    } else {
        let t = s.drop_last();
        assert forall|q: int| p <= q < t.len() implies !time_le(#[trigger] t[q].0, x.0) by {
            assert(t[q] == s[q]);
        }
        if p > 0 {
            assert(t[p - 1] == s[p - 1]);
        }
        lemma_ins_by_time_at(t, x, p);
        assert(t.insert(p, x).push(s.last()) =~= s.insert(p, x));
    }
}

/// `scan_folder`'s order: the files found, oldest first, found order kept
/// among equal times.
pub fn scan_order(files: &Vec<ScanFile>) -> (r: Vec<String>)
    ensures
        r@.map_values(|p: String| p@) == sort_by_time(files@.map_values(|f: ScanFile| scan_view(f))).map_values(
            |x: (FileTime, Seq<char>)| x.1,
        ),
{
    let ghost fv = files@.map_values(|f: ScanFile| scan_view(f));
    let mut out: Vec<ScanFile> = Vec::new();
    let mut j: usize = 0;
    while j < files.len()
        invariant
            j <= files@.len(),
            fv == files@.map_values(|f: ScanFile| scan_view(f)),
            out@.map_values(|f: ScanFile| scan_view(f)) == sort_by_time(fv.take(j as int)),
        decreases files.len() - j,
    {
        let x = ScanFile { modified: files[j].modified, path: files[j].path.clone() };
        assert(scan_view(x) == fv[j as int]);
        let mut p: usize = out.len();
        while p > 0 && !time_le_exec(out[p - 1].modified, x.modified)
            invariant
                p <= out@.len(),
                forall|q: int| p <= q < out@.len() ==> !time_le(#[trigger] out@[q].modified, x.modified),
            decreases p,
        {
            p -= 1;
        }
        proof {
            let sv = out@.map_values(|f: ScanFile| scan_view(f));
            assert forall|q: int| p <= q < sv.len() implies !time_le(#[trigger] sv[q].0, scan_view(x).0) by {
                assert(sv[q] == scan_view(out@[q]));
            }
            if p > 0 {
                assert(sv[p - 1] == scan_view(out@[p - 1]));
            }
            lemma_ins_by_time_at(sv, scan_view(x), p as int);
            let vj = fv.take(j + 1);
            assert(vj.drop_last() =~= fv.take(j as int));
            assert(vj.last() == scan_view(x));
        }
        let ghost before = out@;
        out.insert(p, x);
        assert(out@.map_values(|f: ScanFile| scan_view(f)) =~= before.map_values(|f: ScanFile| scan_view(f)).insert(
            p as int,
            scan_view(x),
        ));
        j += 1;
    }
    assert(fv.take(j as int) =~= fv);
    let mut paths: Vec<String> = Vec::new();
    let mut k: usize = 0;
    while k < out.len()
        invariant
            k <= out@.len(),
            paths@.len() == k,
            forall|q: int| 0 <= q < k ==> #[trigger] paths@[q]@ == out@[q].path@,
        decreases out.len() - k,
    {
        paths.push(out[k].path.clone());
        k += 1;
    }
    assert(paths@.map_values(|p: String| p@) =~= out@.map_values(|f: ScanFile| scan_view(f)).map_values(
        |x: (FileTime, Seq<char>)| x.1,
    ));
    paths
}

} // verus!
