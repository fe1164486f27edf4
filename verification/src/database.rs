//! The decisions behind the library database: the order of the playback queue,
//! what a scan changes, and how tracks are looked up. Storage is the caller's.

use std::collections::HashSet;

use vstd::prelude::*;

use crate::path::{is_below, is_below_of};
use crate::text::{chars_of, decimal, decimal_text, is_white, is_whitespace, join, joined, texts, trim_of, trimmed};

verus! {

broadcast use vstd::std_specs::hash::group_hash_axioms;

pub const SCHEMA_VERSION: i64 = 5;

#[derive(Clone, Copy, Debug, PartialEq, Eq, Structural)]
pub enum PlayOrigin {
    Local,
    Stream,
}

impl PlayOrigin {
    /// The name under which a play is recorded.
    pub fn as_str(self) -> (r: &'static str)
        ensures
            r@ == if self == PlayOrigin::Local { "local"@ } else { "stream"@ },
    {
        match self {
            PlayOrigin::Local => "local",
            PlayOrigin::Stream => "stream",
        }
    }
}

#[derive(Clone, Copy, Debug, PartialEq, Eq, Structural)]
pub enum EnqueueOutcome {
    Inserted,
    Moved,
    AlreadyNext,
    Missing,
}

#[derive(Clone, Debug)]
pub struct CatalogTrack {
    pub ncm_id: u64,
    pub title: String,
    pub artists: String,
    pub album: String,
    pub duration_ms: u64,
    pub cover_url: String,
}

#[derive(Clone, Debug)]
pub struct DownloadedTrack {
    pub ncm_id: u64,
    pub title: String,
    pub artists: String,
    pub album_id: Option<u64>,
    pub album: String,
    pub duration_ms: u64,
    pub album_artist: String,
    pub year: Option<i32>,
    pub track_number: Option<u32>,
    pub disc_number: Option<u32>,
    pub total_tracks: Option<u32>,
    pub cover_url: String,
    pub file_path: String,
    pub file_size: u64,
    pub format: String,
    pub bitrate: u64,
    pub audio_md5: String,
    pub collection_id: Option<u64>,
    pub collection_kind: String,
    pub collection_name: String,
    pub collection_position: u32,
}

#[derive(Clone, Debug)]
pub struct LibraryTrack {
    pub id: u64,
    pub ncm_id: Option<u64>,
    pub source_kind: String,
    pub title: String,
    pub artists: String,
    pub album: String,
    pub file_path: Option<String>,
    pub format: String,
    pub file_size: u64,
    pub downloaded_at: i64,
    pub duration_ms: u64,
    pub favorite: bool,
    pub play_count: u64,
    pub last_played_at: Option<i64>,
    pub cover_url: String,
}

#[derive(Clone, Debug, PartialEq, Eq)]
pub struct TrackDetail {
    pub album_artist: String,
    pub release_year: Option<i32>,
    pub track_number: Option<u32>,
    pub disc_number: Option<u32>,
    pub bitrate: u64,
    pub audio_md5: String,
    pub cover_url: String,
}

#[derive(Clone, Debug)]
pub struct ScannedFile {
    pub path: String,
    pub file_size: u64,
    pub modified_ns: i64,
    pub format: String,
    pub title: String,
    pub artists: String,
    pub album: String,
    pub duration_ms: u64,
    pub album_artist: String,
    pub release_year: Option<i32>,
    pub track_number: Option<u32>,
    pub disc_number: Option<u32>,
    pub bitrate: u64,
}

#[derive(Clone, Copy, Debug, PartialEq, Eq, Structural)]
pub struct ScanChanges {
    pub added: usize,
    pub updated: usize,
    pub unchanged: usize,
    pub missing: usize,
}

#[derive(Clone, Copy, Debug, PartialEq, Eq, Structural)]
pub struct DatabaseStats {
    pub tracks: u64,
    pub missing: u64,
    pub albums: u64,
    pub duration_ms: u64,
    pub favorites: u64,
    pub plays: u64,
}

// The playback queue.

/// The tracks that play one after the other, and which of them plays.
#[derive(Clone, Debug)]
pub struct PlayQueue {
    pub ids: Vec<u64>,
    pub current: Option<usize>,
}

#[verifier::ext_equal]
pub struct QueueView {
    pub ids: Seq<u64>,
    pub current: Option<usize>,
}

impl View for PlayQueue {
    type V = QueueView;

    open spec fn view(&self) -> QueueView {
        QueueView { ids: self.ids@, current: self.current }
    }
}

/// The position of a track in a queue, or the queue's length if it is not there.
pub open spec fn queue_position(ids: Seq<u64>, id: u64) -> int
    decreases ids.len(),
{
    if ids.len() == 0 || ids[0] == id {
        0
    } else {
        1 + queue_position(ids.drop_first(), id)
    }
}

/// The place behind the current track, or the queue's end.
pub open spec fn next_place(ids: Seq<u64>, current: Option<usize>) -> int {
    match current {
        Some(index) => if index < ids.len() {
            index + 1
        } else {
            ids.len() as int
        },
        None => ids.len() as int,
    }
}

/// A position is only kept while it is one of the queue.
pub open spec fn valid_index(ids: Seq<u64>, current: Option<usize>) -> Option<usize> {
    match current {
        Some(index) => if index < ids.len() {
            Some(index)
        } else {
            None
        },
        None => None,
    }
}

impl QueueView {
    pub open spec fn replaced(ids: Seq<u64>, current: Option<usize>) -> QueueView {
        QueueView { ids, current: valid_index(ids, current) }
    }

    /// Whether a track plays now, plays next, or waits in a queue that does not play.
    pub open spec fn is_due(self, position: int) -> bool {
        match self.current {
            Some(index) => position == index || position == index + 1,
            None => true,
        }
    }

    /// The queue without the track at a position.
    pub open spec fn lifted(self, position: int) -> QueueView {
        QueueView {
            ids: self.ids.remove(position),
            current: match self.current {
                Some(index) => if position < index {
                    Some((index - 1) as usize)
                } else {
                    Some(index)
                },
                None => None,
            },
        }
    }

    pub open spec fn enqueued(self, id: u64) -> (QueueView, EnqueueOutcome) {
        let position = queue_position(self.ids, id);
        if position >= self.ids.len() {
            let ids = self.ids.insert(next_place(self.ids, self.current), id);
            (QueueView::replaced(ids, self.current), EnqueueOutcome::Inserted)
        } else if self.is_due(position) {
            (self, EnqueueOutcome::AlreadyNext)
        } else {
            let rest = self.lifted(position);
            let ids = rest.ids.insert(next_place(rest.ids, rest.current), id);
            (QueueView::replaced(ids, rest.current), EnqueueOutcome::Moved)
        }
    }

    pub open spec fn dequeued(self, id: u64) -> QueueView {
        let position = queue_position(self.ids, id);
        if position >= self.ids.len() {
            self
        } else {
            let ids = self.ids.remove(position);
            let current = match self.current {
                Some(index) => if position < index {
                    Some((index - 1) as usize)
                } else if position == index && ids.len() == 0 {
                    None
                } else if position == index && index >= ids.len() {
                    Some((ids.len() - 1) as usize)
                } else {
                    Some(index)
                },
                None => None,
            };
            QueueView::replaced(ids, current)
        }
    }
}

pub proof fn lemma_queue_position(ids: Seq<u64>, id: u64)
    ensures
        0 <= queue_position(ids, id) <= ids.len(),
        queue_position(ids, id) < ids.len() ==> ids[queue_position(ids, id)] == id,
        forall|i: int| 0 <= i < queue_position(ids, id) ==> ids[i] != id,
    decreases ids.len(),
{
    if ids.len() > 0 && ids[0] != id {
        lemma_queue_position(ids.drop_first(), id);
        assert forall|i: int| 0 <= i < queue_position(ids, id) implies ids[i] != id by {
            if i > 0 {
                assert(ids[i] == ids.drop_first()[i - 1]);
            }
        }
    }
}

fn find_position(ids: &Vec<u64>, id: u64) -> (r: Option<usize>)
    ensures
        match r {
            Some(i) => i == queue_position(ids@, id) && i < ids@.len(),
            None => queue_position(ids@, id) == ids@.len(),
        },
{
    let mut i: usize = 0;
    while i < ids.len()
        invariant
            i <= ids@.len(),
            forall|j: int| 0 <= j < i ==> ids@[j] != id,
        decreases ids@.len() - i,
    {
        if ids[i] == id {
            proof {
                lemma_queue_position(ids@, id);
            }
            return Some(i);
        }
        i += 1;
    }
    proof {
        lemma_queue_position(ids@, id);
    }
    None
}

impl PlayQueue {
    /// Puts another queue in place of this one.
    pub fn replace_queue(&mut self, track_ids: Vec<u64>, current_index: Option<usize>)
        ensures
            final(self)@ == QueueView::replaced(track_ids@, current_index),
    {
        let count: usize = track_ids.len();
        self.ids = track_ids;
        self.current = match current_index {
            Some(index) => if index < count {
                Some(index)
            } else {
                None
            },
            None => None,
        };
    }

    /// Lets a track play next. `exists` tells whether the library has it.
    pub fn enqueue_next(&mut self, track_id: u64, exists: bool) -> (r: EnqueueOutcome)
        requires
            old(self)@.ids.len() < usize::MAX,
        ensures
            exists ==> (final(self)@, r) == old(self)@.enqueued(track_id),
            !exists ==> final(self)@ == old(self)@ && r == EnqueueOutcome::Missing,
    {
        if !exists {
            return EnqueueOutcome::Missing;
        }
        let ghost v = self@;
        proof {
            lemma_queue_position(v.ids, track_id);
        }
        let mut ids: Vec<u64> = crate::catalog::copy_ids(&self.ids);
        let mut current: Option<usize> = self.current;
        let mut outcome: EnqueueOutcome = EnqueueOutcome::Inserted;
        if let Some(position) = find_position(&self.ids, track_id) {
            match self.current {
                Some(index) => {
                    if position == index || (position > 0 && position - 1 == index) {
                        return EnqueueOutcome::AlreadyNext;
                    }
                    if position < index {
                        current = Some(index - 1);
                    }
                },
                None => {
                    return EnqueueOutcome::AlreadyNext;
                },
            }
            let removed = ids.remove(position);
            outcome = EnqueueOutcome::Moved;
        }
        let place: usize = match current {
            Some(index) => if index < ids.len() {
                index + 1
            } else {
                ids.len()
            },
            None => ids.len(),
        };
        ids.insert(place, track_id);
        self.replace_queue(ids, current);
        outcome
    }

    /// Takes a track out of the queue. Whether it was there.
    pub fn dequeue(&mut self, track_id: u64) -> (r: bool)
        ensures
            final(self)@ == old(self)@.dequeued(track_id),
            r == old(self)@.ids.contains(track_id),
    {
        proof {
            lemma_queue_position(self@.ids, track_id);
        }
        match find_position(&self.ids, track_id) {
            None => {
                proof {
                    assert(!self@.ids.contains(track_id));
                }
                false
            },
            Some(position) => {
                let mut ids: Vec<u64> = crate::catalog::copy_ids(&self.ids);
                let removed = ids.remove(position);
                let current: Option<usize> = match self.current {
                    Some(index) => if position < index {
                        Some(index - 1)
                    } else if position == index && ids.len() == 0 {
                        None
                    } else if position == index && index >= ids.len() {
                        Some(ids.len() - 1)
                    } else {
                        Some(index)
                    },
                    None => None,
                };
                self.replace_queue(ids, current);
                true
            },
        }
    }

    /// Empties the queue. How many tracks it held.
    pub fn clear_queue(&mut self) -> (r: usize)
        ensures
            r == old(self)@.ids.len(),
            final(self)@.ids.len() == 0,
            final(self)@.current is None,
    {
        let count: usize = self.ids.len();
        self.replace_queue(Vec::new(), None);
        count
    }
}

/// A track that is put into a queue that plays comes right behind the track
/// that plays, and that one goes on playing.
pub proof fn lemma_enqueued_plays_next(v: QueueView, id: u64)
    requires
        v.current is Some,
        v.current->0 < v.ids.len(),
        v.ids.len() < usize::MAX,
        v.ids[v.current->0 as int] != id,
        v.ids.no_duplicates(),
    ensures
        ({
            let w = v.enqueued(id).0;
            &&& w.current is Some
            &&& w.current->0 + 1 < w.ids.len()
            &&& w.ids[w.current->0 as int] == v.ids[v.current->0 as int]
            &&& w.ids[w.current->0 + 1] == id
            &&& w.ids.no_duplicates()
        }),
{
    lemma_queue_position(v.ids, id);
    let position = queue_position(v.ids, id);
    let w = v.enqueued(id).0;
    if position < v.ids.len() && !v.is_due(position) {
        let rest = v.lifted(position);
        let place = next_place(rest.ids, rest.current);
        assert(rest.ids.no_duplicates());
        assert(!rest.ids.contains(id)) by {
            if rest.ids.contains(id) {
                let k = choose|k: int| 0 <= k < rest.ids.len() && rest.ids[k] == id;
                let m = if k < position { k } else { k + 1 };
                assert(v.ids[m] == id && m != position);
            }
        }
        lemma_insert_distinct(rest.ids, place, id);
    } else if position >= v.ids.len() {
        assert(!v.ids.contains(id));
        lemma_insert_distinct(v.ids, next_place(v.ids, v.current), id);
    }
}

proof fn lemma_insert_distinct(ids: Seq<u64>, place: int, id: u64)
    requires
        ids.no_duplicates(),
        !ids.contains(id),
        0 <= place <= ids.len(),
    ensures
        ids.insert(place, id).no_duplicates(),
{
    let r = ids.insert(place, id);
    assert forall|i: int, j: int| 0 <= i < r.len() && 0 <= j < r.len() && i != j implies r[i] != r[j] by {
        let a = if i < place { i } else { i - 1 };
        let b = if j < place { j } else { j - 1 };
        if i == place {
            assert(r[j] == ids[b]);
            assert(ids.contains(ids[b]));
        } else if j == place {
            assert(r[i] == ids[a]);
            assert(ids.contains(ids[a]));
        } else {
            assert(r[i] == ids[a] && r[j] == ids[b]);
        }
    }
}

/// Taking a track out again undoes putting it in.
pub proof fn lemma_dequeue_undoes_enqueue(v: QueueView, id: u64)
    requires
        !v.ids.contains(id),
        v.current is Some ==> v.current->0 < v.ids.len(),
        v.ids.len() < usize::MAX,
    ensures
        v.enqueued(id).0.dequeued(id) == v,
{
    lemma_queue_position(v.ids, id);
    assert(queue_position(v.ids, id) == v.ids.len()) by {
        if queue_position(v.ids, id) < v.ids.len() {
            assert(v.ids.contains(v.ids[queue_position(v.ids, id)]));
        }
    }
    let place = next_place(v.ids, v.current);
    let w = v.enqueued(id).0;
    assert(w.ids == v.ids.insert(place, id));
    lemma_queue_position(w.ids, id);
    let p = queue_position(w.ids, id);
    assert(p == place) by {
        assert(w.ids[place] == id);
        if p < place {
            assert(w.ids[p] == v.ids[p]);
            assert(v.ids.contains(v.ids[p]));
        }
    }
    assert(w.ids.remove(place) =~= v.ids);
}

/// Taking out a track that does not play leaves the one that does.
pub proof fn lemma_dequeue_keeps_current(v: QueueView, id: u64)
    requires
        v.current is Some,
        v.current->0 < v.ids.len(),
        v.ids.len() <= usize::MAX,
        v.ids[v.current->0 as int] != id,
    ensures
        ({
            let w = v.dequeued(id);
            w.current is Some && w.current->0 < w.ids.len() && w.ids[w.current->0 as int] == v.ids[v.current->0 as int]
        }),
{
    lemma_queue_position(v.ids, id);
}

// Scanning.

/// What the database knows of a file.
#[derive(Clone, Copy, Debug, PartialEq, Eq, Structural)]
pub struct KnownLocation {
    pub location_id: u64,
    pub track_id: u64,
    pub file_size: u64,
    pub modified_ns: i64,
    pub present: bool,
}

/// A file that the database takes to be present.
#[derive(Clone, Debug)]
pub struct PresentLocation {
    pub location_id: u64,
    pub track_id: u64,
    pub path: String,
}

/// What has to be written for a file that was found.
#[derive(Clone, Copy, Debug, PartialEq, Eq, Structural)]
pub enum ScanAction {
    /// The file is as it was: note that it was seen.
    Touch { track_id: u64 },
    /// The file changed or came back: write its size and time.
    Refresh { track_id: u64 },
    /// The file is new, but a track with its path is known.
    Adopt { track_id: u64 },
    /// The file and its track are new.
    Insert,
}

/// A scan on its way.
pub struct ScanSession {
    changes: ScanChanges,
    seen: HashSet<u64>,
}

pub struct ScanView {
    pub changes: ScanChanges,
    pub seen: Set<u64>,
}

impl View for ScanSession {
    type V = ScanView;

    closed spec fn view(&self) -> ScanView {
        ScanView { changes: self.changes, seen: self.seen@ }
    }
}

/// Counts one more, up to the largest number.
pub open spec fn counted(n: usize) -> usize {
    if n < usize::MAX {
        (n + 1) as usize
    } else {
        n
    }
}

pub open spec fn scan_action(file: ScannedFile, existing: Option<KnownLocation>, migrated: Option<u64>) -> ScanAction {
    match existing {
        Some(known) => if known.file_size == file.file_size && known.modified_ns == file.modified_ns && known.present {
            ScanAction::Touch { track_id: known.track_id }
        } else {
            ScanAction::Refresh { track_id: known.track_id }
        },
        None => match migrated {
            Some(track_id) => ScanAction::Adopt { track_id },
            None => ScanAction::Insert,
        },
    }
}

pub open spec fn scan_counts(changes: ScanChanges, action: ScanAction) -> ScanChanges {
    match action {
        ScanAction::Touch { .. } => ScanChanges { unchanged: counted(changes.unchanged), ..changes },
        ScanAction::Refresh { .. } => ScanChanges { updated: counted(changes.updated), ..changes },
        ScanAction::Adopt { .. } => ScanChanges { added: counted(changes.added), ..changes },
        ScanAction::Insert => ScanChanges { added: counted(changes.added), ..changes },
    }
}

/// Whether a file that was present has to be marked missing: it lies below a
/// root that was scanned, and the scan did not see it.
pub open spec fn is_gone(seen: Set<u64>, location: PresentLocation, roots: Seq<String>) -> bool {
    !seen.contains(location.location_id) && exists|i: int|
        0 <= i < roots.len() && is_below_of(location.path@, #[trigger] roots[i]@)
}

/// The positions of the files that have to be marked missing.
pub open spec fn gone_of(seen: Set<u64>, known: Seq<PresentLocation>, roots: Seq<String>) -> Seq<usize>
    decreases known.len(),
{
    if known.len() == 0 {
        seq![]
    } else {
        let before = gone_of(seen, known.drop_last(), roots);
        if is_gone(seen, known.last(), roots) {
            before.push((known.len() - 1) as usize)
        } else {
            before
        }
    }
}

impl ScanSession {
    pub fn new() -> (r: ScanSession)
        ensures
            r@.changes == (ScanChanges { added: 0, updated: 0, unchanged: 0, missing: 0 }),
            r@.seen == Set::<u64>::empty(),
    {
        ScanSession {
            changes: ScanChanges { added: 0, updated: 0, unchanged: 0, missing: 0 },
            seen: HashSet::new(),
        }
    }

    /// Takes a file that was found, with what the database knows of its path.
    /// `migrated` is the track with that path, where no location has it.
    pub fn observe(&mut self, file: &ScannedFile, existing: Option<KnownLocation>, migrated: Option<u64>) -> (r:
        ScanAction)
        ensures
            r == scan_action(*file, existing, migrated),
            final(self)@.changes == scan_counts(old(self)@.changes, r),
            final(self)@.seen == match existing {
                Some(known) => old(self)@.seen.insert(known.location_id),
                None => old(self)@.seen,
            },
    {
        match existing {
            Some(known) => {
                self.seen.insert(known.location_id);
                if known.file_size == file.file_size && known.modified_ns == file.modified_ns && known.present {
                    self.changes.unchanged = self.changes.unchanged.saturating_add(1);
                    ScanAction::Touch { track_id: known.track_id }
                } else {
                    self.changes.updated = self.changes.updated.saturating_add(1);
                    ScanAction::Refresh { track_id: known.track_id }
                }
            },
            None => {
                self.changes.added = self.changes.added.saturating_add(1);
                match migrated {
                    Some(track_id) => ScanAction::Adopt { track_id },
                    None => ScanAction::Insert,
                }
            },
        }
    }

    /// Notes the location that a new file was given.
    pub fn located(&mut self, location_id: u64)
        ensures
            final(self)@.changes == old(self)@.changes,
            final(self)@.seen == old(self)@.seen.insert(location_id),
    {
        self.seen.insert(location_id);
    }

    /// The positions, among the files that are taken to be present, of those
    /// that have to be marked missing.
    pub fn sweep(&mut self, known: &Vec<PresentLocation>, roots: &Vec<String>) -> (r: Vec<usize>)
        ensures
            r@ == gone_of(old(self)@.seen, known@, roots@),
            final(self)@.seen == old(self)@.seen,
            final(self)@.changes == (ScanChanges {
                missing: (if old(self)@.changes.missing + r@.len() <= usize::MAX {
                    old(self)@.changes.missing + r@.len()
                } else {
                    usize::MAX as int
                }) as usize,
                ..old(self)@.changes
            }),
    {
        let mut out: Vec<usize> = Vec::new();
        let mut i: usize = 0;
        proof {
            assert(known@.take(0) =~= seq![]);
        }
        while i < known.len()
            invariant
                i <= known@.len(),
                out@ == gone_of(self@.seen, known@.take(i as int), roots@),
            decreases known@.len() - i,
        {
            proof {
                assert(known@.take(i + 1).drop_last() =~= known@.take(i as int));
                assert(known@.take(i + 1).last() == known@[i as int]);
            }
            let mut below: bool = false;
            let mut j: usize = 0;
            while j < roots.len() && !below
                invariant
                    j <= roots@.len(),
                    i < known@.len(),
                    below <==> exists|k: int| 0 <= k < j && is_below_of(known@[i as int].path@, #[trigger] roots@[k]@),
                decreases roots@.len() - j,
            {
                below = is_below(known[i].path.as_str(), roots[j].as_str());
                j += 1;
            }
            if below && !self.seen.contains(&known[i].location_id) {
                out.push(i);
            }
            i += 1;
        }
        proof {
            assert(known@.take(i as int) =~= known@);
        }
        self.changes.missing = self.changes.missing.saturating_add(out.len());
        out
    }

    pub fn changes(&self) -> (r: ScanChanges)
        ensures
            r == self@.changes,
    {
        self.changes
    }
}

pub open spec fn changes_text(changes: ScanChanges) -> Seq<char> {
    "added="@ + decimal(changes.added as nat) + ",updated="@ + decimal(changes.updated as nat) + ",unchanged="@
        + decimal(changes.unchanged as nat) + ",missing="@ + decimal(changes.missing as nat)
}

impl ScanChanges {
    /// The changes as they are recorded in the history of the library.
    pub fn detail(&self) -> (r: String)
        ensures
            r@ == changes_text(*self),
    {
        let mut out: String = "added=".to_owned();
        out.append(decimal_text(self.added as u64).as_str());
        out.append(",updated=");
        out.append(decimal_text(self.updated as u64).as_str());
        out.append(",unchanged=");
        out.append(decimal_text(self.unchanged as u64).as_str());
        out.append(",missing=");
        out.append(decimal_text(self.missing as u64).as_str());
        out
    }
}

/// A file that the scan saw is never marked missing, and neither is one that
/// lies below none of the roots that were scanned.
pub proof fn lemma_sweep_spares(seen: Set<u64>, known: Seq<PresentLocation>, roots: Seq<String>, i: int)
    requires
        0 <= i < gone_of(seen, known, roots).len(),
        known.len() <= usize::MAX,
    ensures
        ({
            let k = gone_of(seen, known, roots)[i];
            k < known.len() && is_gone(seen, known[k as int], roots)
        }),
    decreases known.len(),
{
    let t = known.drop_last();
    let before = gone_of(seen, t, roots);
    if i < before.len() {
        lemma_sweep_spares(seen, t, roots, i);
        assert(t[before[i] as int] == known[before[i] as int]);
    }
}

// What two scans of the same files come to.

/// The ids that a file gets which the database did not know, and the track
/// that has its path already.
pub struct FreshRow {
    pub location_id: u64,
    pub track_id: u64,
    pub migrated: Option<u64>,
}

/// A scan that has gone through its files: the locations by their paths, the
/// changes, and the locations that were seen.
pub struct ScannedState {
    pub rows: Map<Seq<char>, KnownLocation>,
    pub changes: ScanChanges,
    pub seen: Set<u64>,
}

/// The location of a file after what was decided for it is written.
pub open spec fn row_written(file: ScannedFile, existing: Option<KnownLocation>, fresh: FreshRow) -> KnownLocation {
    let track_id = match scan_action(file, existing, fresh.migrated) {
        ScanAction::Touch { track_id } => track_id,
        ScanAction::Refresh { track_id } => track_id,
        ScanAction::Adopt { track_id } => track_id,
        ScanAction::Insert => fresh.track_id,
    };
    match scan_action(file, existing, fresh.migrated) {
        ScanAction::Touch { .. } => existing->0,
        _ => KnownLocation {
            location_id: match existing {
                Some(known) => known.location_id,
                None => fresh.location_id,
            },
            track_id,
            file_size: file.file_size,
            modified_ns: file.modified_ns,
            present: true,
        },
    }
}

/// The rows of a table after a scan has gone through its files.
pub open spec fn scanned(rows: Map<Seq<char>, KnownLocation>, files: Seq<ScannedFile>, fresh: Seq<FreshRow>) -> ScannedState
    decreases files.len(),
{
    if files.len() == 0 {
        ScannedState {
            rows,
            changes: ScanChanges { added: 0, updated: 0, unchanged: 0, missing: 0 },
            seen: Set::empty(),
        }
    } else {
        let before = scanned(rows, files.drop_last(), fresh);
        let file = files.last();
        let ids = fresh[files.len() - 1];
        let existing = if before.rows.contains_key(file.path@) {
            Some(before.rows[file.path@])
        } else {
            None
        };
        let row = row_written(file, existing, ids);
        ScannedState {
            rows: before.rows.insert(file.path@, row),
            changes: scan_counts(before.changes, scan_action(file, existing, ids.migrated)),
            seen: before.seen.insert(row.location_id),
        }
    }
}

/// Whether a list holds the locations that are taken to be present, and no others.
pub open spec fn lists_present(known: Seq<PresentLocation>, rows: Map<Seq<char>, KnownLocation>) -> bool {
    &&& forall|i: int|
        0 <= i < known.len() ==> {
            let path = (#[trigger] known[i]).path@;
            rows.contains_key(path) && rows[path].present && rows[path].location_id == known[i].location_id
        }
    &&& forall|path: Seq<char>| #[trigger]
        rows.contains_key(path) && rows[path].present ==> exists|i: int|
            0 <= i < known.len() && (#[trigger] known[i]).path@ == path
}

/// The rows after the files that are gone were marked missing.
pub open spec fn swept(
    rows: Map<Seq<char>, KnownLocation>,
    known: Seq<PresentLocation>,
    gone: Seq<usize>,
) -> Map<Seq<char>, KnownLocation> {
    Map::new(
        |path: Seq<char>| rows.contains_key(path),
        |path: Seq<char>|
            if exists|i: int| 0 <= i < gone.len() && known[(#[trigger] gone[i]) as int].path@ == path {
                KnownLocation { present: false, ..rows[path] }
            } else {
                rows[path]
            },
    )
}

/// The rows after a whole scan.
pub open spec fn rows_after_scan(
    rows: Map<Seq<char>, KnownLocation>,
    files: Seq<ScannedFile>,
    fresh: Seq<FreshRow>,
    known: Seq<PresentLocation>,
    roots: Seq<String>,
) -> Map<Seq<char>, KnownLocation> {
    let state = scanned(rows, files, fresh);
    swept(state.rows, known, gone_of(state.seen, known, roots))
}

/// Whether no two files have the same path.
pub open spec fn distinct_paths(files: Seq<ScannedFile>) -> bool {
    forall|i: int, j: int| 0 <= i < j < files.len() ==> (#[trigger] files[i]).path@ != (#[trigger] files[j]).path@
}

/// Whether the table holds a file as it is.
pub open spec fn is_recorded(rows: Map<Seq<char>, KnownLocation>, file: ScannedFile) -> bool {
    &&& rows.contains_key(file.path@)
    &&& rows[file.path@].file_size == file.file_size
    &&& rows[file.path@].modified_ns == file.modified_ns
    &&& rows[file.path@].present
}

/// Whether an id is that of one of the files.
pub open spec fn is_id_of(rows: Map<Seq<char>, KnownLocation>, files: Seq<ScannedFile>, id: u64) -> bool {
    exists|i: int| 0 <= i < files.len() && rows[(#[trigger] files[i]).path@].location_id == id
}

proof fn lemma_scanned(rows: Map<Seq<char>, KnownLocation>, files: Seq<ScannedFile>, fresh: Seq<FreshRow>)
    requires
        distinct_paths(files),
        files.len() <= usize::MAX,
    ensures
        forall|i: int| 0 <= i < files.len() ==> is_recorded(scanned(rows, files, fresh).rows, #[trigger] files[i]),
        forall|id: u64| #[trigger]
            scanned(rows, files, fresh).seen.contains(id) <==> is_id_of(scanned(rows, files, fresh).rows, files, id),
        (forall|i: int| 0 <= i < files.len() ==> is_recorded(rows, #[trigger] files[i])) ==> {
            &&& scanned(rows, files, fresh).rows == rows
            &&& scanned(rows, files, fresh).changes == (ScanChanges {
                added: 0,
                updated: 0,
                unchanged: files.len() as usize,
                missing: 0,
            })
        },
    decreases files.len(),
{
    let state = scanned(rows, files, fresh);
    if files.len() > 0 {
        let t = files.drop_last();
        let last = files.last();
        let before = scanned(rows, t, fresh);
        assert forall|i: int, j: int| 0 <= i < j < t.len() implies (#[trigger] t[i]).path@ != (#[trigger] t[j]).path@ by {
            assert(t[i] == files[i] && t[j] == files[j]);
        }
        lemma_scanned(rows, t, fresh);
        assert forall|i: int| 0 <= i < files.len() implies is_recorded(state.rows, #[trigger] files[i]) by {
            if i < t.len() {
                assert(t[i] == files[i]);
                assert(files[i].path@ != files[files.len() - 1].path@);
            }
        }
        assert forall|id: u64| #[trigger] state.seen.contains(id) <==> is_id_of(state.rows, files, id) by {
            assert(before.seen.contains(id) <==> is_id_of(before.rows, t, id));
            if is_id_of(before.rows, t, id) {
                let i = choose|i: int| 0 <= i < t.len() && before.rows[(#[trigger] t[i]).path@].location_id == id;
                assert(files[i] == t[i]);
                assert(files[i].path@ != files[files.len() - 1].path@);
                assert(state.rows[files[i].path@].location_id == id);
            }
            if state.rows[last.path@].location_id == id {
                assert(state.rows[files[files.len() - 1].path@].location_id == id);
            }
            if is_id_of(state.rows, files, id) {
                let i = choose|i: int| 0 <= i < files.len() && state.rows[(#[trigger] files[i]).path@].location_id == id;
                if i < t.len() {
                    assert(files[i] == t[i]);
                    assert(files[i].path@ != files[files.len() - 1].path@);
                    assert(before.rows[t[i].path@].location_id == id);
                }
            }
        }
        if forall|i: int| 0 <= i < files.len() ==> is_recorded(rows, #[trigger] files[i]) {
            assert forall|i: int| 0 <= i < t.len() implies is_recorded(rows, #[trigger] t[i]) by {
                assert(t[i] == files[i]);
            }
            assert(is_recorded(rows, files[files.len() - 1]));
            assert(rows.insert(last.path@, rows[last.path@]) =~= rows);
        }
    }
}

proof fn lemma_gone(seen: Set<u64>, known: Seq<PresentLocation>, roots: Seq<String>, k: int)
    requires
        0 <= k < known.len() <= usize::MAX,
        is_gone(seen, known[k], roots),
    ensures
        gone_of(seen, known, roots).contains(k as usize),
    decreases known.len(),
{
    let t = known.drop_last();
    let before = gone_of(seen, t, roots);
    let gone = gone_of(seen, known, roots);
    if k < known.len() - 1 {
        assert(t[k] == known[k]);
        lemma_gone(seen, t, roots, k);
        let i = choose|i: int| 0 <= i < before.len() && before[i] == k as usize;
        assert(gone[i] == k as usize);
    } else {
        assert(gone[gone.len() - 1] == k as usize);
    }
}

/// A scan that follows another of the same files finds every one of them
/// unchanged and none missing, whatever was known before the first.
pub proof fn lemma_rescan(
    rows: Map<Seq<char>, KnownLocation>,
    files: Seq<ScannedFile>,
    roots: Seq<String>,
    first_fresh: Seq<FreshRow>,
    first_known: Seq<PresentLocation>,
    second_fresh: Seq<FreshRow>,
    second_known: Seq<PresentLocation>,
)
    requires
        distinct_paths(files),
        files.len() <= usize::MAX,
        first_known.len() <= usize::MAX,
        second_known.len() <= usize::MAX,
        lists_present(first_known, scanned(rows, files, first_fresh).rows),
        lists_present(
            second_known,
            scanned(rows_after_scan(rows, files, first_fresh, first_known, roots), files, second_fresh).rows,
        ),
    ensures
        ({
            let after = rows_after_scan(rows, files, first_fresh, first_known, roots);
            let second = scanned(after, files, second_fresh);
            &&& second.changes == (ScanChanges {
                added: 0,
                updated: 0,
                unchanged: files.len() as usize,
                missing: 0,
            })
            &&& gone_of(second.seen, second_known, roots).len() == 0
            &&& rows_after_scan(after, files, second_fresh, second_known, roots) == after
        }),
{
    let first = scanned(rows, files, first_fresh);
    let gone = gone_of(first.seen, first_known, roots);
    let after = rows_after_scan(rows, files, first_fresh, first_known, roots);
    let second = scanned(after, files, second_fresh);
    lemma_scanned(rows, files, first_fresh);
    assert forall|k: int| 0 <= k < gone.len() implies {
        let place = (#[trigger] gone[k]) as int;
        place < first_known.len() && is_gone(first.seen, first_known[place], roots)
    } by {
        lemma_sweep_spares(first.seen, first_known, roots, k);
    }
    assert forall|i: int| 0 <= i < files.len() implies is_recorded(after, #[trigger] files[i]) by {
        let path = files[i].path@;
        assert(is_recorded(first.rows, files[i]));
        assert(is_id_of(first.rows, files, first.rows[path].location_id));
        if exists|k: int| 0 <= k < gone.len() && first_known[(#[trigger] gone[k]) as int].path@ == path {
            let k = choose|k: int| 0 <= k < gone.len() && first_known[(#[trigger] gone[k]) as int].path@ == path;
            let location = first_known[gone[k] as int];
            assert(location.location_id == first.rows[path].location_id);
            assert(first.seen.contains(location.location_id));
        }
    }
    lemma_scanned(after, files, second_fresh);
    assert forall|id: u64| first.seen.contains(id) implies second.seen.contains(id) by {
        let i = choose|i: int| 0 <= i < files.len() && first.rows[(#[trigger] files[i]).path@].location_id == id;
        assert(is_recorded(first.rows, files[i]));
        assert(second.rows[files[i].path@].location_id == id);
        assert(is_id_of(second.rows, files, id));
    }
    let second_gone = gone_of(second.seen, second_known, roots);
    if second_gone.len() > 0 {
        lemma_sweep_spares(second.seen, second_known, roots, 0);
        let location = second_known[second_gone[0] as int];
        let path = location.path@;
        assert(after.contains_key(path) && after[path].present && after[path].location_id == location.location_id);
        assert(first.rows.contains_key(path) && first.rows[path].present);
        let i = choose|i: int| 0 <= i < first_known.len() && (#[trigger] first_known[i]).path@ == path;
        assert(first_known[i].location_id == location.location_id);
        assert(is_gone(first.seen, first_known[i], roots));
        lemma_gone(first.seen, first_known, roots, i);
        let k = choose|k: int| 0 <= k < gone.len() && gone[k] == i as usize;
        assert(first_known[gone[k] as int].path@ == path);
        assert(!after[path].present);
    }
    assert(swept(second.rows, second_known, second_gone) =~= after);
}

// Looking tracks up.

/// The words of a text: the runs between its white space.
pub open spec fn words_of(s: Seq<char>) -> Seq<Seq<char>>
    decreases s.len(),
{
    if s.len() == 0 {
        seq![]
    } else if is_white(s.last()) {
        words_of(s.drop_last())
    } else {
        let n = word_start(s);
        if 0 <= n < s.len() {
            words_of(s.take(n)).push(s.skip(n))
        } else {
            seq![]
        }
    }
}

/// Where the word at the end of a text starts.
pub open spec fn word_start(s: Seq<char>) -> int
    decreases s.len(),
{
    if s.len() == 0 || is_white(s.last()) {
        s.len() as int
    } else {
        word_start(s.drop_last())
    }
}

/// A text with each quotation mark doubled.
pub open spec fn doubled_quotes(s: Seq<char>) -> Seq<char>
    decreases s.len(),
{
    if s.len() == 0 {
        s
    } else if s.last() == '"' {
        doubled_quotes(s.drop_last()) + seq!['"', '"']
    } else {
        doubled_quotes(s.drop_last()).push(s.last())
    }
}

/// A word as a search term: quoted, and matching any word that starts with it.
pub open spec fn search_term(word: Seq<char>) -> Seq<char> {
    "\""@ + doubled_quotes(word) + "\"*"@
}

/// The full-text query for a text: all of its words have to match.
pub open spec fn fts_query_of(query: Seq<char>) -> Seq<char> {
    joined(words_of(query).map_values(|word: Seq<char>| search_term(word)), " AND "@)
}

proof fn lemma_word_start(s: Seq<char>)
    ensures
        0 <= word_start(s) <= s.len(),
        s.len() > 0 && !is_white(s.last()) ==> word_start(s) < s.len(),
        forall|i: int| word_start(s) <= i < s.len() ==> !is_white(s[i]),
        word_start(s) > 0 ==> is_white(s[word_start(s) - 1]),
    decreases s.len(),
{
    if s.len() > 0 && !is_white(s.last()) {
        let t = s.drop_last();
        lemma_word_start(t);
        assert forall|i: int| word_start(s) <= i < s.len() implies !is_white(s[i]) by {
            if i < t.len() {
                assert(t[i] == s[i]);
            }
        }
        if word_start(s) > 0 {
            assert(t[word_start(s) - 1] == s[word_start(s) - 1]);
        }
    }
}

pub proof fn lemma_words_step(s: Seq<char>, start: int, end: int)
    requires
        0 <= start < end <= s.len(),
        forall|i: int| start <= i < end ==> !is_white(s[i]),
        start > 0 ==> is_white(s[start - 1]),
    ensures
        words_of(s.take(end)) == words_of(s.take(start)).push(s.subrange(start, end)),
{
    let t = s.take(end);
    lemma_word_start(t);
    let n = word_start(t);
    assert(!is_white(t.last()));
    if n < start {
        assert(!is_white(t[start - 1]));
    }
    if n > start {
        assert(t[n - 1] == s[n - 1]);
    }
    assert(t.take(n) =~= s.take(start));
    assert(t.skip(n) =~= s.subrange(start, end));
}

fn push_term(out: &mut Vec<String>, word: &[char])
    ensures
        texts(final(out)@) == texts(old(out)@).push(search_term(word@)),
{
    let mut term: String = "\"".to_owned();
    let ghost opening = "\""@;
    let mut i: usize = 0;
    proof {
        assert(opening + doubled_quotes(word@.take(0)) =~= opening);
    }
    while i < word.len()
        invariant
            i <= word@.len(),
            term@ == opening + doubled_quotes(word@.take(i as int)),
        decreases word@.len() - i,
    {
        proof {
            assert(word@.take(i + 1).drop_last() =~= word@.take(i as int));
            assert(word@.take(i + 1).last() == word@[i as int]);
        }
        let ghost held = doubled_quotes(word@.take(i as int));
        if word[i] == '"' {
            term.push('"');
            term.push('"');
            proof {
                assert(term@ =~= opening + (held + seq!['"', '"']));
            }
        } else {
            term.push(word[i]);
            proof {
                assert(term@ =~= opening + held.push(word@[i as int]));
            }
        }
        i += 1;
    }
    proof {
        assert(word@.take(i as int) =~= word@);
    }
    term.append("\"*");
    let ghost held = out@;
    out.push(term);
    proof {
        assert(texts(out@) =~= texts(held).push(search_term(word@)));
    }
}

/// The full-text query for a text; nothing where the text is blank.
pub fn fts_query(query: &str) -> (r: Option<String>)
    ensures
        match r {
            Some(text) => trim_of(query@).len() > 0 && text@ == fts_query_of(query@),
            None => trim_of(query@).len() == 0,
        },
{
    if trimmed(query).as_str().is_empty() {
        return None;
    }
    let chars = chars_of(query);
    let s = chars.as_slice();
    let mut terms: Vec<String> = Vec::new();
    let mut i: usize = 0;
    let ghost f = |word: Seq<char>| search_term(word);
    proof {
        assert(texts(terms@) =~= words_of(s@.take(0)).map_values(f));
    }
    while i < s.len()
        invariant
            i <= s@.len(),
            f == (|word: Seq<char>| search_term(word)),
            texts(terms@) == words_of(s@.take(i as int)).map_values(f),
            i > 0 && i < s@.len() ==> is_white(s@[i - 1]) || is_white(s@[i as int]),
        decreases s@.len() - i,
    {
        if is_whitespace(s[i]) {
            proof {
                assert(s@.take(i + 1).drop_last() =~= s@.take(i as int));
            }
            i += 1;
        } else {
            let start: usize = i;
            while i < s.len() && !is_whitespace(s[i])
                invariant
                    start <= i <= s@.len(),
                    forall|k: int| start <= k < i ==> !is_white(s@[k]),
                decreases s@.len() - i,
            {
                i += 1;
            }
            let word = vstd::slice::slice_subrange(s, start, i);
            let ghost before = words_of(s@.take(start as int));
            proof {
                lemma_words_step(s@, start as int, i as int);
                assert(before.push(word@).map_values(f) =~= before.map_values(f).push(search_term(word@)));
            }
            push_term(&mut terms, word);
        }
    }
    proof {
        assert(s@.take(i as int) =~= s@);
    }
    Some(join(&terms, " AND "))
}

/// The views of the library.
#[derive(Clone, Copy, Debug, PartialEq, Eq, Structural)]
pub enum TrackView {
    All,
    Favorites,
    Unplayed,
    Frequent,
    RecentAdded,
    Incomplete,
    Missing,
    Large,
}

/// The orders in which a view of the library is listed.
#[derive(Clone, Copy, Debug, PartialEq, Eq, Structural)]
pub enum TrackSort {
    Title,
    RecentAdded,
    RecentPlayed,
    MostPlayed,
    Duration,
    Size,
}

/// The condition that a track of a view meets.
pub open spec fn view_filter_of(view: TrackView) -> Seq<char> {
    match view {
        TrackView::All => "status='available'"@,
        TrackView::Favorites => "status='available' AND favorite=1"@,
        TrackView::Unplayed => "status='available' AND play_count=0"@,
        TrackView::Frequent => "status='available' AND play_count>=3"@,
        TrackView::RecentAdded => "status='available'"@,
        TrackView::Incomplete => "status='available' AND (TRIM(album)='' OR TRIM(artists)='')"@,
        TrackView::Missing => "status='missing'"@,
        TrackView::Large => "status='available' AND file_size>=31457280"@,
    }
}

/// The order in which a view is listed; what was added recently has its own.
pub open spec fn view_order_of(view: TrackView, sort: TrackSort) -> Seq<char> {
    if view == TrackView::RecentAdded {
        "COALESCE(downloaded_at, created_at) DESC, id DESC"@
    } else {
        match sort {
            TrackSort::Title => "title COLLATE NOCASE, artists COLLATE NOCASE, id"@,
            TrackSort::RecentAdded => "COALESCE(downloaded_at, created_at) DESC, id DESC"@,
            TrackSort::RecentPlayed => "last_played_at DESC, play_count DESC, id DESC"@,
            TrackSort::MostPlayed => "play_count DESC, id DESC"@,
            TrackSort::Duration => "duration_ms DESC, id"@,
            TrackSort::Size => "file_size DESC, id"@,
        }
    }
}

pub fn view_filter(view: TrackView) -> (r: &'static str)
    ensures
        r@ == view_filter_of(view),
{
    match view {
        TrackView::All => "status='available'",
        TrackView::Favorites => "status='available' AND favorite=1",
        TrackView::Unplayed => "status='available' AND play_count=0",
        TrackView::Frequent => "status='available' AND play_count>=3",
        TrackView::RecentAdded => "status='available'",
        TrackView::Incomplete => "status='available' AND (TRIM(album)='' OR TRIM(artists)='')",
        TrackView::Missing => "status='missing'",
        TrackView::Large => "status='available' AND file_size>=31457280",
    }
}

pub fn view_order(view: TrackView, sort: TrackSort) -> (r: &'static str)
    ensures
        r@ == view_order_of(view, sort),
{
    if view == TrackView::RecentAdded {
        return "COALESCE(downloaded_at, created_at) DESC, id DESC";
    }
    match sort {
        TrackSort::Title => "title COLLATE NOCASE, artists COLLATE NOCASE, id",
        TrackSort::RecentAdded => "COALESCE(downloaded_at, created_at) DESC, id DESC",
        TrackSort::RecentPlayed => "last_played_at DESC, play_count DESC, id DESC",
        TrackSort::MostPlayed => "play_count DESC, id DESC",
        TrackSort::Duration => "duration_ms DESC, id",
        TrackSort::Size => "file_size DESC, id",
    }
}

/// `count` question marks, separated by commas.
pub open spec fn placeholders_of(count: nat) -> Seq<char> {
    joined(Seq::new(count, |i: int| "?"@), ","@)
}

/// The placeholders of a list of `count` values in a query.
pub fn placeholders(count: usize) -> (r: String)
    ensures
        r@ == placeholders_of(count as nat),
{
    let mut marks: Vec<String> = Vec::new();
    let mut i: usize = 0;
    while i < count
        invariant
            i <= count,
            texts(marks@) =~= Seq::new(i as nat, |k: int| "?"@),
        decreases count - i,
    {
        let ghost held = marks@;
        marks.push("?".to_owned());
        proof {
            assert(texts(marks@) =~= texts(held).push("?"@));
        }
        i += 1;
    }
    join(&marks, ",")
}

/// How many ids are looked up with one query.
pub const LOOKUP_CHUNK: usize = 500;

/// Splits the tracks that a lookup found by whether their file is there.
pub struct AvailabilitySplit {
    found: HashSet<u64>,
    missing: Vec<u64>,
}

pub struct AvailabilityView {
    pub found: Set<u64>,
    pub missing: Seq<u64>,
}

impl View for AvailabilitySplit {
    type V = AvailabilityView;

    closed spec fn view(&self) -> AvailabilityView {
        AvailabilityView { found: self.found@, missing: self.missing@ }
    }
}

impl AvailabilitySplit {
    pub fn new() -> (r: AvailabilitySplit)
        ensures
            r@.found == Set::<u64>::empty(),
            r@.missing == Seq::<u64>::empty(),
    {
        AvailabilitySplit { found: HashSet::new(), missing: Vec::new() }
    }

    /// Takes a track of the lookup. `is_file` tells whether its file is there.
    pub fn offer(&mut self, id: u64, is_file: bool)
        ensures
            final(self)@.found == if is_file { old(self)@.found.insert(id) } else { old(self)@.found },
            final(self)@.missing == if is_file { old(self)@.missing } else { old(self)@.missing.push(id) },
    {
        if is_file {
            self.found.insert(id);
        } else {
            self.missing.push(id);
        }
    }

    /// The tracks whose file is there, and those that have to be marked missing.
    pub fn finish(self) -> (r: (HashSet<u64>, Vec<u64>))
        ensures
            r.0@ == self@.found,
            r.1@ == self@.missing,
    {
        (self.found, self.missing)
    }
}

/// The status of a track whose file is there or not.
pub fn file_status(is_file: bool) -> (r: &'static str)
    ensures
        r@ == if is_file { "available"@ } else { "missing"@ },
{
    if is_file {
        "available"
    } else {
        "missing"
    }
}

/// How a database is brought to the present schema.
#[derive(Clone, Copy, Debug, PartialEq, Eq, Structural)]
pub enum Migration {
    /// There are no tracks yet: create the schema.
    Create,
    /// The tracks are keyed as they were in earlier versions: rebuild them.
    Rebuild,
    /// The tables are right, only the version is not.
    Stamp,
    /// Nothing has to be done.
    Keep,
}

/// How a database is brought to the present schema, going by its tables and version.
pub fn migration(has_tracks: bool, has_surrogate: bool, version: i64) -> (r: Migration)
    ensures
        r == if !has_tracks {
            Migration::Create
        } else if !has_surrogate {
            Migration::Rebuild
        } else if version < SCHEMA_VERSION {
            Migration::Stamp
        } else {
            Migration::Keep
        },
{
    if !has_tracks {
        Migration::Create
    } else if !has_surrogate {
        Migration::Rebuild
    } else if version < SCHEMA_VERSION {
        Migration::Stamp
    } else {
        Migration::Keep
    }
}

/// After so many downloads the database is tidied up.
pub const MAINTENANCE_INTERVAL: i64 = 32;

pub fn maintenance_due(downloads_since: i64) -> (r: bool)
    ensures
        r == (downloads_since >= MAINTENANCE_INTERVAL),
{
    downloads_since >= MAINTENANCE_INTERVAL
}

/// The columns that tables of earlier versions may lack.
pub open spec fn later_columns() -> Seq<(Seq<char>, Seq<char>)> {
    seq![
        ("album_id"@, "INTEGER"@),
        ("album_artist"@, "TEXT NOT NULL DEFAULT ''"@),
        ("release_year"@, "INTEGER"@),
        ("track_number"@, "INTEGER"@),
        ("disc_number"@, "INTEGER"@),
        ("total_tracks"@, "INTEGER"@),
        ("cover_url"@, "TEXT NOT NULL DEFAULT ''"@),
    ]
}

/// The statements that add the columns which a table lacks.
pub open spec fn column_statements(columns: Seq<(Seq<char>, Seq<char>)>, existing: Seq<Seq<char>>) -> Seq<Seq<char>>
    decreases columns.len(),
{
    if columns.len() == 0 {
        seq![]
    } else {
        let before = column_statements(columns.drop_last(), existing);
        if existing.contains(columns.last().0) {
            before
        } else {
            before.push("ALTER TABLE tracks ADD COLUMN "@ + columns.last().0 + " "@ + columns.last().1)
        }
    }
}

/// The statements that add the columns which the table of tracks lacks.
pub fn missing_columns(existing: &Vec<String>) -> (r: Vec<String>)
    ensures
        texts(r@) == column_statements(later_columns(), texts(existing@)),
{
    let columns: [(&'static str, &'static str); 7] = [
        ("album_id", "INTEGER"),
        ("album_artist", "TEXT NOT NULL DEFAULT ''"),
        ("release_year", "INTEGER"),
        ("track_number", "INTEGER"),
        ("disc_number", "INTEGER"),
        ("total_tracks", "INTEGER"),
        ("cover_url", "TEXT NOT NULL DEFAULT ''"),
    ];
    let ghost all = later_columns();
    let mut out: Vec<String> = Vec::new();
    let mut i: usize = 0;
    proof {
        assert(texts(out@) =~= column_statements(all.take(0), texts(existing@)));
    }
    while i < 7
        invariant
            i <= 7,
            all.len() == 7,
            forall|k: int| 0 <= k < 7 ==> (#[trigger] columns@[k]).0@ == all[k].0 && columns@[k].1@ == all[k].1,
            texts(out@) == column_statements(all.take(i as int), texts(existing@)),
        decreases 7 - i,
    {
        let (name, definition) = columns[i];
        proof {
            assert(all.take(i + 1).drop_last() =~= all.take(i as int));
            assert(columns@[i as int].0@ == all[i as int].0);
        }
        if !crate::text::contains_text(existing, name) {
            let mut statement: String = "ALTER TABLE tracks ADD COLUMN ".to_owned();
            statement.append(name);
            statement.append(" ");
            statement.append(definition);
            let ghost held = out@;
            out.push(statement);
            proof {
                assert(texts(out@) =~= texts(held).push(statement@));
            }
        }
        i += 1;
    }
    proof {
        assert(all.take(7) =~= all);
    }
    out
}

// Laws of the queue, of scans and of lookups.

/// A track that is not in the queue goes right behind the current one, or to the
/// end of a queue that does not play; the others keep their order.
pub proof fn lemma_enqueued_place(v: QueueView, id: u64)
    requires
        !v.ids.contains(id),
        v.ids.len() < usize::MAX,
        v.current is Some ==> v.current->0 < v.ids.len(),
    ensures
        v.enqueued(id).1 == EnqueueOutcome::Inserted,
        v.enqueued(id).0.current == v.current,
        v.current is Some ==> v.enqueued(id).0.ids == v.ids.take(v.current->0 + 1).push(id) + v.ids.skip(
            v.current->0 + 1,
        ),
        v.current is None ==> v.enqueued(id).0.ids == v.ids.push(id),
{
    lemma_queue_position(v.ids, id);
    assert(queue_position(v.ids, id) == v.ids.len()) by {
        if queue_position(v.ids, id) < v.ids.len() {
            assert(v.ids.contains(v.ids[queue_position(v.ids, id)]));
        }
    }
    match v.current {
        Some(index) => {
            assert(v.ids.insert(index + 1, id) =~= v.ids.take(index + 1).push(id) + v.ids.skip(index + 1));
        },
        None => {
            assert(v.ids.insert(v.ids.len() as int, id) =~= v.ids.push(id));
        },
    }
}

/// Taking a track out of the queue takes out exactly it, and leaves the others
/// in their order; a track that is not there changes nothing.
pub proof fn lemma_dequeued(v: QueueView, id: u64, i: int)
    requires
        0 <= i < v.ids.len(),
        v.ids.no_duplicates(),
        v.ids.len() <= usize::MAX,
    ensures
        v.ids[i] == id ==> v.dequeued(id).ids == v.ids.take(i) + v.ids.skip(i + 1),
        !v.ids.contains(id) ==> v.dequeued(id) == v,
{
    lemma_queue_position(v.ids, id);
    let p = queue_position(v.ids, id);
    if v.ids[i] == id {
        assert(p == i) by {
            if p < v.ids.len() {
                assert(v.ids[p] == id);
            }
        }
        assert(v.ids.remove(i) =~= v.ids.take(i) + v.ids.skip(i + 1));
    }
    if !v.ids.contains(id) && p < v.ids.len() {
        assert(v.ids.contains(v.ids[p]));
    }
}

/// A queue that is put in place is taken as it is, with a current track only if
/// it holds one at that position.
pub proof fn lemma_replaced(ids: Seq<u64>, current: Option<usize>)
    ensures
        QueueView::replaced(ids, current).ids == ids,
        current is Some && current->0 < ids.len() ==> QueueView::replaced(ids, current).current == current,
        current is Some && current->0 >= ids.len() ==> QueueView::replaced(ids, current).current is None,
        current is None ==> QueueView::replaced(ids, current).current is None,
{
}

/// A file counts as unchanged exactly where it is known, present, and has the
/// size and the time that are known; a known file that differs is updated, and
/// any other is added.
pub proof fn lemma_scan_decides(file: ScannedFile, known: KnownLocation, migrated: Option<u64>, changes: ScanChanges)
    requires
        changes.added < usize::MAX,
        changes.updated < usize::MAX,
        changes.unchanged < usize::MAX,
    ensures
        ({
            let same = known.present && known.file_size == file.file_size && known.modified_ns == file.modified_ns;
            let action = scan_action(file, Some(known), migrated);
            let new = scan_action(file, None, migrated);
            &&& same ==> action == (ScanAction::Touch { track_id: known.track_id }) && scan_counts(changes, action)
                == (ScanChanges { unchanged: (changes.unchanged + 1) as usize, ..changes })
            &&& !same ==> action == (ScanAction::Refresh { track_id: known.track_id }) && scan_counts(changes, action)
                == (ScanChanges { updated: (changes.updated + 1) as usize, ..changes })
            &&& migrated is Some ==> new == (ScanAction::Adopt { track_id: migrated->0 })
            &&& migrated is None ==> new == ScanAction::Insert
            &&& scan_counts(changes, new) == (ScanChanges { added: (changes.added + 1) as usize, ..changes })
        }),
{
}

/// A file is marked missing exactly where the scan did not see it and it lies
/// below one of the roots that were scanned.
pub proof fn lemma_sweep_marks(seen: Set<u64>, known: Seq<PresentLocation>, roots: Seq<String>, k: int, root: int)
    requires
        0 <= k < known.len() <= usize::MAX,
    ensures
        gone_of(seen, known, roots).contains(k as usize) <==> is_gone(seen, known[k], roots),
        seen.contains(known[k].location_id) ==> !gone_of(seen, known, roots).contains(k as usize),
        !seen.contains(known[k].location_id) && 0 <= root < roots.len() && is_below_of(known[k].path@, roots[root]@)
            ==> gone_of(seen, known, roots).contains(k as usize),
{
    let gone = gone_of(seen, known, roots);
    if is_gone(seen, known[k], roots) {
        lemma_gone(seen, known, roots, k);
    }
    if gone.contains(k as usize) {
        let i = choose|i: int| 0 <= i < gone.len() && gone[i] == k as usize;
        lemma_sweep_spares(seen, known, roots, i);
    }
    if !seen.contains(known[k].location_id) && 0 <= root < roots.len() && is_below_of(known[k].path@, roots[root]@) {
        assert(is_gone(seen, known[k], roots));
    }
}

/// A text is taken apart at its white space: a word behind white space is the
/// last word, and white space at the end adds none.
pub proof fn lemma_words(s: Seq<char>, white: char, word: Seq<char>)
    requires
        is_white(white),
        word.len() > 0,
        forall|i: int| 0 <= i < word.len() ==> !is_white(#[trigger] word[i]),
    ensures
        words_of(s.push(white)) == words_of(s),
        words_of(s.push(white) + word) == words_of(s).push(word),
        words_of(word) == seq![word],
        words_of(seq![]).len() == 0,
{
    assert(s.push(white).drop_last() =~= s);
    let t = s.push(white);
    let whole = t + word;
    lemma_word_behind(t, word);
    assert(whole.take(t.len() as int) =~= t);
    assert(whole.skip(t.len() as int) =~= word);
    lemma_word_behind(seq![], word);
    assert(Seq::<char>::empty() + word =~= word);
    assert(word.take(0) =~= seq![]);
    assert(word.skip(0) =~= word);
    assert(!is_white(word[word.len() - 1]));
    assert(words_of(word) == words_of(word.take(0)).push(word));
    assert(words_of(word) =~= seq![word]);
}

proof fn lemma_word_behind(t: Seq<char>, word: Seq<char>)
    requires
        forall|i: int| 0 <= i < word.len() ==> !is_white(#[trigger] word[i]),
        t.len() == 0 || is_white(t.last()),
    ensures
        word_start(t + word) == t.len(),
    decreases word.len(),
{
    let whole = t + word;
    if word.len() == 0 {
        assert(whole =~= t);
    } else {
        assert(whole.last() == word[word.len() - 1]);
        assert(whole.drop_last() =~= t + word.drop_last());
        lemma_word_behind(t, word.drop_last());
    }
}

/// All words of a query have to match, each as the start of a word, taken
/// literally; a query of one plain word asks for just that.
pub proof fn lemma_query(word: Seq<char>, query: &str, r: Option<String>)
    requires
        call_ensures(fts_query, (query,), r),
        word.len() > 0,
        !word.contains('"'),
        forall|i: int| 0 <= i < word.len() ==> !is_white(#[trigger] word[i]),
    ensures
        query@ == word ==> r is Some && r->0@ == "\""@ + word + "\"*"@,
        trim_of(query@).len() == 0 <==> r is None,
{
    if query@ == word {
        lemma_words(seq![], ' ', word);
        lemma_plain_quotes(word);
        let terms = words_of(word).map_values(|w: Seq<char>| search_term(w));
        assert(terms =~= seq![search_term(word)]);
        assert(joined(terms, " AND "@) =~= search_term(word)) by {
            reveal_with_fuel(joined, 3);
        }
        assert(!is_white(word[0]) && !is_white(word[word.len() - 1]));
        assert(trim_of(word) == word);
    }
}

proof fn lemma_plain_quotes(s: Seq<char>)
    requires
        !s.contains('"'),
    ensures
        doubled_quotes(s) == s,
    decreases s.len(),
{
    if s.len() > 0 {
        assert(s.contains(s[s.len() - 1]));
        assert(!s.drop_last().contains('"')) by {
            if s.drop_last().contains('"') {
                let i = choose|i: int| 0 <= i < s.drop_last().len() && s.drop_last()[i] == '"';
                assert(s[i] == '"');
            }
        }
        lemma_plain_quotes(s.drop_last());
        assert(s.drop_last().push(s.last()) =~= s);
    }
}

/// A quotation mark in a word is doubled, and nothing else changes.
pub proof fn lemma_quotes(s: Seq<char>, c: char)
    ensures
        doubled_quotes(s.push('"')) == doubled_quotes(s) + seq!['"', '"'],
        c != '"' ==> doubled_quotes(s.push(c)) == doubled_quotes(s).push(c),
        doubled_quotes(seq![]).len() == 0,
{
    assert(s.push('"').drop_last() =~= s);
    assert(s.push(c).drop_last() =~= s);
}

/// Each view lists the tracks that it is named for.
pub proof fn lemma_views(view: TrackView)
    ensures
        view == TrackView::All || view == TrackView::RecentAdded ==> view_filter_of(view) == "status='available'"@,
        view == TrackView::Favorites ==> view_filter_of(view) == "status='available' AND favorite=1"@,
        view == TrackView::Unplayed ==> view_filter_of(view) == "status='available' AND play_count=0"@,
        view == TrackView::Frequent ==> view_filter_of(view) == "status='available' AND play_count>=3"@,
        view == TrackView::Missing ==> view_filter_of(view) == "status='missing'"@,
        view == TrackView::Large ==> view_filter_of(view) == "status='available' AND file_size>=31457280"@,
        view == TrackView::Incomplete ==> view_filter_of(view)
            == "status='available' AND (TRIM(album)='' OR TRIM(artists)='')"@,
{
}

/// What was added last comes first in its own view and where it is asked for;
/// otherwise a view is in the order that is asked for.
pub proof fn lemma_view_orders(view: TrackView, sort: TrackSort)
    ensures
        view == TrackView::RecentAdded || sort == TrackSort::RecentAdded ==> view_order_of(view, sort)
            == "COALESCE(downloaded_at, created_at) DESC, id DESC"@,
        view != TrackView::RecentAdded && sort == TrackSort::Title ==> view_order_of(view, sort)
            == "title COLLATE NOCASE, artists COLLATE NOCASE, id"@,
        view != TrackView::RecentAdded && sort == TrackSort::RecentPlayed ==> view_order_of(view, sort)
            == "last_played_at DESC, play_count DESC, id DESC"@,
        view != TrackView::RecentAdded && sort == TrackSort::MostPlayed ==> view_order_of(view, sort)
            == "play_count DESC, id DESC"@,
        view != TrackView::RecentAdded && sort == TrackSort::Duration ==> view_order_of(view, sort)
            == "duration_ms DESC, id"@,
        view != TrackView::RecentAdded && sort == TrackSort::Size ==> view_order_of(view, sort) == "file_size DESC, id"@,
{
}

/// There are as many placeholders as values, with commas between them.
pub proof fn lemma_placeholders(count: nat)
    ensures
        placeholders_of(1) == "?"@,
        count > 0 ==> placeholders_of(count + 1) == placeholders_of(count) + ","@ + "?"@,
        placeholders_of(0).len() == 0,
{
    let a = Seq::new(count, |i: int| "?"@);
    let b = Seq::new(count + 1, |i: int| "?"@);
    assert(b.drop_last() =~= a);
    let one = Seq::new(1, |i: int| "?"@);
    assert(joined(one, ","@) =~= "?"@) by {
        reveal_with_fuel(joined, 3);
    }
}

/// A database is made where there is none, rebuilt where its tracks have no rows
/// of their own, marked where its version is old, and otherwise kept.
pub proof fn lemma_migrations(has_tracks: bool, has_surrogate: bool, version: i64, r: Migration)
    requires
        call_ensures(migration, (has_tracks, has_surrogate, version), r),
    ensures
        !has_tracks <==> r == Migration::Create,
        has_tracks && !has_surrogate <==> r == Migration::Rebuild,
        has_tracks && has_surrogate && version < 5 <==> r == Migration::Stamp,
        has_tracks && has_surrogate && version >= 5 <==> r == Migration::Keep,
{
}

/// A column is added exactly where the table lacks it.
pub proof fn lemma_columns(columns: Seq<(Seq<char>, Seq<char>)>, existing: Seq<Seq<char>>, name: Seq<char>, kind: Seq<char>)
    ensures
        existing.contains(name) ==> column_statements(columns.push((name, kind)), existing) == column_statements(
            columns,
            existing,
        ),
        !existing.contains(name) ==> column_statements(columns.push((name, kind)), existing) == column_statements(
            columns,
            existing,
        ).push("ALTER TABLE tracks ADD COLUMN "@ + name + " "@ + kind),
        column_statements(seq![], existing).len() == 0,
{
    assert(columns.push((name, kind)).drop_last() =~= columns);
}

/// A track whose file is there is available, and one whose file is not is
/// missing; upkeep is due after every 32 downloads; a play is recorded as local
/// or as a stream.
pub proof fn lemma_records(is_file: bool, r: &'static str, downloads: i64, s: bool, origin: PlayOrigin, t: &'static str)
    requires
        call_ensures(file_status, (is_file,), r),
        call_ensures(maintenance_due, (downloads,), s),
        call_ensures(PlayOrigin::as_str, (origin,), t),
    ensures
        is_file ==> r@ == "available"@,
        !is_file ==> r@ == "missing"@,
        s <==> downloads >= 32,
        origin == PlayOrigin::Local ==> t@ == "local"@,
        origin == PlayOrigin::Stream ==> t@ == "stream"@,
{
}

/// The changes of a scan are recorded under their own names.
pub proof fn lemma_changes_text(changes: ScanChanges)
    ensures
        changes_text(changes) == "added="@ + decimal(changes.added as nat) + ",updated="@ + decimal(
            changes.updated as nat,
        ) + ",unchanged="@ + decimal(changes.unchanged as nat) + ",missing="@ + decimal(changes.missing as nat),
{
}

} // verus!
