//! The book-keeping of a persistent, size-bounded cache for streamed audio:
//! which files hold complete tracks, which are in use, and which go first when
//! the cache is over its limit. The files themselves are the caller's.

use vstd::prelude::*;

use crate::text::{ascii_lower, decimal, decimal_text, is_digit, lemma_decimal_reads_back, same_text, text_option};

verus! {

pub const DEFAULT_PLAYBACK_CACHE_BYTES: u64 = 4 * 1024 * 1024 * 1024;

#[derive(Clone, Copy, Debug, PartialEq, Eq, Structural)]
pub struct CacheStats {
    pub used_bytes: u64,
    pub max_bytes: u64,
    pub entries: usize,
}

#[derive(Clone, Copy, Debug, PartialEq, Eq, Structural)]
pub struct ClearReport {
    pub removed_bytes: u64,
    pub retained_active: usize,
    pub stats: CacheStats,
}

/// A complete track in the cache.
#[derive(Clone, Debug)]
pub struct CacheEntry {
    pub song_id: u64,
    pub file_name: String,
    pub extension: String,
    pub size: u64,
    pub last_accessed: u64,
}

/// A file in use, and how many hold it.
pub struct ActiveFile {
    pub file_name: String,
    pub holders: usize,
}

/// What is kept of a cache between two runs.
pub struct CacheState {
    pub max_bytes: u64,
    pub access_clock: u64,
    pub entries: Vec<CacheEntry>,
}

pub struct PlaybackCache {
    state: CacheState,
    active: Vec<ActiveFile>,
}

#[verifier::ext_equal]
pub struct EntryView {
    pub song_id: u64,
    pub file_name: Seq<char>,
    pub extension: Seq<char>,
    pub size: nat,
    pub last_accessed: nat,
}

#[verifier::ext_equal]
pub struct CacheView {
    pub max_bytes: nat,
    pub access_clock: nat,
    pub entries: Seq<EntryView>,
    pub active: Seq<(Seq<char>, nat)>,
}

impl View for CacheEntry {
    type V = EntryView;

    open spec fn view(&self) -> EntryView {
        EntryView {
            song_id: self.song_id,
            file_name: self.file_name@,
            extension: self.extension@,
            size: self.size as nat,
            last_accessed: self.last_accessed as nat,
        }
    }
}

pub open spec fn entry_views(entries: Seq<CacheEntry>) -> Seq<EntryView> {
    entries.map_values(|entry: CacheEntry| entry@)
}

pub open spec fn active_views(active: Seq<ActiveFile>) -> Seq<(Seq<char>, nat)> {
    active.map_values(|file: ActiveFile| (file.file_name@, file.holders as nat))
}

impl View for PlaybackCache {
    type V = CacheView;

    closed spec fn view(&self) -> CacheView {
        CacheView {
            max_bytes: self.state.max_bytes as nat,
            access_clock: self.state.access_clock as nat,
            entries: entry_views(self.state.entries@),
            active: active_views(self.active@),
        }
    }
}

/// The position of the entry of a song, or the number of entries if it has none.
pub open spec fn entry_index(entries: Seq<EntryView>, song_id: u64) -> int
    decreases entries.len(),
{
    if entries.len() == 0 || entries[0].song_id == song_id {
        0
    } else {
        1 + entry_index(entries.drop_first(), song_id)
    }
}

pub open spec fn has_entry(entries: Seq<EntryView>, song_id: u64) -> bool {
    entry_index(entries, song_id) < entries.len()
}

/// The entries without that of a song.
pub open spec fn without_entry(entries: Seq<EntryView>, song_id: u64) -> Seq<EntryView> {
    if has_entry(entries, song_id) {
        entries.remove(entry_index(entries, song_id))
    } else {
        entries
    }
}

/// How many hold a file.
pub open spec fn holders_of(active: Seq<(Seq<char>, nat)>, name: Seq<char>) -> nat
    decreases active.len(),
{
    if active.len() == 0 {
        0
    } else if active[0].0 == name {
        active[0].1
    } else {
        holders_of(active.drop_first(), name)
    }
}

/// The position of a file among those in use, or their number if it is not.
pub open spec fn active_index(active: Seq<(Seq<char>, nat)>, name: Seq<char>) -> int
    decreases active.len(),
{
    if active.len() == 0 || active[0].0 == name {
        0
    } else {
        1 + active_index(active.drop_first(), name)
    }
}

/// The files in use after one more took hold of `name`.
pub open spec fn acquired(active: Seq<(Seq<char>, nat)>, name: Seq<char>) -> Seq<(Seq<char>, nat)> {
    let i = active_index(active, name);
    if i < active.len() {
        active.update(i, (name, if active[i].1 < usize::MAX { active[i].1 + 1 } else { active[i].1 }))
    } else {
        active.push((name, 1))
    }
}

/// The files in use after one holder let go of `name`.
pub open spec fn released(active: Seq<(Seq<char>, nat)>, name: Seq<char>) -> Seq<(Seq<char>, nat)> {
    let i = active_index(active, name);
    if i < active.len() {
        if active[i].1 <= 1 {
            active.remove(i)
        } else {
            active.update(i, (name, (active[i].1 - 1) as nat))
        }
    } else {
        active
    }
}

pub open spec fn is_active(active: Seq<(Seq<char>, nat)>, name: Seq<char>) -> bool {
    holders_of(active, name) > 0
}

/// The bytes that the entries take together.
pub open spec fn total_size(entries: Seq<EntryView>) -> nat
    decreases entries.len(),
{
    if entries.len() == 0 {
        0
    } else {
        total_size(entries.drop_last()) + entries.last().size
    }
}

/// Whether some entry keeps a file.
pub open spec fn is_retained(entries: Seq<EntryView>, name: Seq<char>) -> bool {
    exists|i: int| 0 <= i < entries.len() && (#[trigger] entries[i]).file_name == name
}

/// Whether the name of a file is one of those that a song's files have.
pub open spec fn is_own_name(song_id: u64, name: Seq<char>) -> bool {
    (decimal(song_id as nat) + "."@).is_prefix_of(name)
}

/// Whether every entry keeps a file of its own song.
pub open spec fn names_are_own(entries: Seq<EntryView>) -> bool {
    forall|i: int| 0 <= i < entries.len() ==> is_own_name((#[trigger] entries[i]).song_id, entries[i].file_name)
}

impl CacheView {
    /// No song has two entries, no file in use is listed twice or without a
    /// holder, and no entry was used later than the clock says.
    pub open spec fn wf(self) -> bool {
        &&& forall|i: int, j: int|
            0 <= i < j < self.entries.len() ==> (#[trigger] self.entries[i]).song_id != (
            #[trigger] self.entries[j]).song_id
        &&& forall|i: int, j: int| 0 <= i < j < self.active.len() ==> (#[trigger] self.active[i]).0 != (#[trigger] self.active[j]).0
        &&& forall|i: int| 0 <= i < self.active.len() ==> (#[trigger] self.active[i]).1 > 0
        &&& forall|i: int| 0 <= i < self.entries.len() ==> (#[trigger] self.entries[i]).last_accessed <= self.access_clock
    }

    /// The clock's next reading; it stops at the largest one.
    pub open spec fn next_stamp(self) -> nat {
        if self.access_clock < u64::MAX {
            self.access_clock + 1
        } else {
            self.access_clock
        }
    }

    /// Whether the entry at `i` may be evicted: its file is not in use, and the
    /// caller has not given it up as one that cannot be removed.
    pub open spec fn evictable(self, kept: Seq<u64>, i: int) -> bool {
        !is_active(self.active, self.entries[i].file_name) && !kept.contains(self.entries[i].song_id)
    }

    /// Among the first `n` entries, the evictable one that was not used for longest.
    pub open spec fn oldest(self, kept: Seq<u64>, n: int) -> Option<int>
        decreases n,
    {
        if n <= 0 {
            None
        } else {
            let i = n - 1;
            match self.oldest(kept, i) {
                Some(best) => if self.evictable(kept, i) && self.entries[i].last_accessed
                    < self.entries[best].last_accessed {
                    Some(i)
                } else {
                    Some(best)
                },
                None => if self.evictable(kept, i) {
                    Some(i)
                } else {
                    None
                },
            }
        }
    }

    /// The entry that has to go next, if the cache is over its limit and one can go.
    pub open spec fn victim(self, kept: Seq<u64>) -> Option<int> {
        if total_size(self.entries) <= self.max_bytes {
            None
        } else {
            self.oldest(kept, self.entries.len() as int)
        }
    }

    /// The cache after the entry at `i` was dropped.
    pub open spec fn dropping(self, i: int) -> CacheView {
        CacheView { entries: self.entries.remove(i), ..self }
    }

    /// The cache after every entry that has to go went.
    pub open spec fn trimmed(self) -> CacheView
        decreases self.entries.len(),
    {
        match self.victim(seq![]) {
            Some(i) => if 0 <= i < self.entries.len() {
                self.dropping(i).trimmed()
            } else {
                self
            },
            None => self,
        }
    }
}

pub open spec fn is_alphanumeric(c: char) -> bool {
    ('0' <= c <= '9') || ('a' <= c <= 'z') || ('A' <= c <= 'Z')
}

/// The ASCII letters and digits of a text, in lower case.
pub open spec fn plain_of(s: Seq<char>) -> Seq<char>
    decreases s.len(),
{
    if s.len() == 0 {
        s
    } else if is_alphanumeric(s.last()) {
        plain_of(s.drop_last()).push(ascii_lower(s.last()))
    } else {
        plain_of(s.drop_last())
    }
}

/// An extension that is safe in a file name: at most twelve lower-case letters
/// and digits, and at least one.
pub open spec fn safe_extension_of(s: Seq<char>) -> Seq<char> {
    let plain = plain_of(s);
    if plain.len() == 0 {
        "audio"@
    } else if plain.len() <= 12 {
        plain
    } else {
        plain.take(12)
    }
}

/// The name of the file in which a song is cached.
pub open spec fn cache_file_name(song_id: u64, extension: Seq<char>) -> Seq<char> {
    decimal(song_id as nat) + "."@ + safe_extension_of(extension) + ".cache"@
}

proof fn lemma_entry_index(entries: Seq<EntryView>, song_id: u64)
    ensures
        0 <= entry_index(entries, song_id) <= entries.len(),
        has_entry(entries, song_id) ==> entries[entry_index(entries, song_id)].song_id == song_id,
        forall|i: int| 0 <= i < entry_index(entries, song_id) ==> (#[trigger] entries[i]).song_id != song_id,
    decreases entries.len(),
{
    if entries.len() > 0 && entries[0].song_id != song_id {
        let t = entries.drop_first();
        lemma_entry_index(t, song_id);
        assert forall|i: int| 0 <= i < entry_index(entries, song_id) implies (#[trigger] entries[i]).song_id
            != song_id by {
            if i > 0 {
                assert(entries[i] == t[i - 1]);
            }
        }
    }
}

proof fn lemma_active_index(active: Seq<(Seq<char>, nat)>, name: Seq<char>)
    ensures
        0 <= active_index(active, name) <= active.len(),
        active_index(active, name) < active.len() ==> active[active_index(active, name)].0 == name && holders_of(
            active,
            name,
        ) == active[active_index(active, name)].1,
        active_index(active, name) == active.len() ==> holders_of(active, name) == 0,
        forall|j: int| 0 <= j < active_index(active, name) ==> (#[trigger] active[j]).0 != name,
    decreases active.len(),
{
    if active.len() > 0 && active[0].0 != name {
        let t = active.drop_first();
        lemma_active_index(t, name);
        assert forall|j: int| 0 <= j < active_index(active, name) implies (#[trigger] active[j]).0 != name by {
            if j > 0 {
                assert(active[j] == t[j - 1]);
            }
        }
    }
}

proof fn lemma_total_remove(entries: Seq<EntryView>, i: int)
    requires
        0 <= i < entries.len(),
    ensures
        total_size(entries.remove(i)) + entries[i].size == total_size(entries),
    decreases entries.len(),
{
    if i == entries.len() - 1 {
        assert(entries.remove(i) =~= entries.drop_last());
    } else {
        let t = entries.drop_last();
        lemma_total_remove(t, i);
        assert(entries.remove(i).drop_last() =~= t.remove(i));
        assert(entries.remove(i).last() == entries.last());
    }
}

fn sanitize_extension(extension: &str) -> (r: String)
    ensures
        r@ == safe_extension_of(extension@),
{
    let chars = crate::text::chars_of(extension);
    let mut out: String = String::new();
    let mut length: usize = 0;
    let mut i: usize = 0;
    while i < chars.len() && length < 12
        invariant
            i <= chars@.len(),
            length <= 12,
            length == out@.len(),
            out@ == plain_of(chars@.take(i as int)),
        decreases chars@.len() - i,
    {
        let c: char = chars[i];
        proof {
            assert(chars@.take(i + 1).drop_last() =~= chars@.take(i as int));
        }
        if ('0' <= c && c <= '9') || ('a' <= c && c <= 'z') || ('A' <= c && c <= 'Z') {
            out.push(if 'A' <= c && c <= 'Z' { (c as u8 + 32u8) as char } else { c });
            length += 1;
        }
        i += 1;
    }
    proof {
        lemma_plain_prefix(chars@, i as int);
        if i == chars@.len() {
            assert(chars@.take(i as int) =~= chars@);
        }
    }
    if length == 0 {
        proof {
            assert(plain_of(chars@).len() == 0);
        }
        "audio".to_owned()
    } else {
        proof {
            if plain_of(chars@).len() <= 12 {
                assert(out@ =~= plain_of(chars@));
            } else {
                assert(out@ =~= plain_of(chars@).take(12));
            }
        }
        out
    }
}

proof fn lemma_plain_prefix(s: Seq<char>, n: int)
    requires
        0 <= n <= s.len(),
    ensures
        plain_of(s.take(n)).is_prefix_of(plain_of(s)),
    decreases s.len(),
{
    if n < s.len() {
        lemma_plain_prefix(s.drop_last(), n);
        assert(s.drop_last().take(n) =~= s.take(n));
    } else {
        assert(s.take(n) =~= s);
    }
}

fn find_entry(entries: &Vec<CacheEntry>, song_id: u64) -> (r: Option<usize>)
    ensures
        match r {
            Some(i) => i == entry_index(entry_views(entries@), song_id) && i < entries@.len(),
            None => !has_entry(entry_views(entries@), song_id),
        },
{
    let ghost all = entry_views(entries@);
    let mut i: usize = 0;
    while i < entries.len()
        invariant
            i <= entries@.len(),
            all == entry_views(entries@),
            forall|j: int| 0 <= j < i ==> (#[trigger] all[j]).song_id != song_id,
        decreases entries@.len() - i,
    {
        if entries[i].song_id == song_id {
            proof {
                lemma_entry_index(all, song_id);
                assert(all[i as int].song_id == song_id);
            }
            return Some(i);
        }
        i += 1;
    }
    proof {
        lemma_entry_index(all, song_id);
    }
    None
}

fn find_active(active: &Vec<ActiveFile>, name: &str) -> (r: Option<usize>)
    ensures
        match r {
            Some(i) => i < active@.len() && i == active_index(active_views(active@), name@) && holders_of(
                active_views(active@),
                name@,
            ) == active@[i as int].holders && active@[i as int].file_name@ == name@,
            None => active_index(active_views(active@), name@) == active@.len() && holders_of(
                active_views(active@),
                name@,
            ) == 0,
        },
{
    let ghost all = active_views(active@);
    let mut i: usize = 0;
    while i < active.len()
        invariant
            i <= active@.len(),
            all == active_views(active@),
            forall|j: int| 0 <= j < i ==> (#[trigger] all[j]).0 != name@,
        decreases active@.len() - i,
    {
        if same_text(active[i].file_name.as_str(), name) {
            proof {
                assert(all[i as int].0 == name@);
                lemma_active_index(all, name@);
            }
            return Some(i);
        }
        proof {
            assert(all[i as int].0 == active@[i as int].file_name@);
        }
        i += 1;
    }
    proof {
        lemma_active_index(all, name@);
    }
    None
}

fn contains_id(list: &Vec<u64>, id: u64) -> (r: bool)
    ensures
        r == list@.contains(id),
{
    let mut i: usize = 0;
    while i < list.len()
        invariant
            i <= list@.len(),
            forall|j: int| 0 <= j < i ==> list@[j] != id,
        decreases list@.len() - i,
    {
        if list[i] == id {
            return true;
        }
        i += 1;
    }
    false
}

/// What a look into the cache finds.
pub enum Lookup {
    /// The song is not in the cache.
    Miss,
    /// Its file was not what the entry says; the entry is gone, and the file goes too.
    Stale { file_name: String },
    /// The song is there, and its file is now in use.
    Hit { file_name: String, extension: String, size: u64 },
}

/// A song's file is in use, so it cannot be downloaded anew.
#[derive(Clone, Copy, Debug, PartialEq, Eq, Structural)]
pub struct CacheBusy;

/// The state of a download into the cache.
#[derive(Clone, Copy, Debug, PartialEq, Eq, Structural)]
pub enum CompletionState {
    Pending,
    Finishing,
    Complete,
    Failed,
}

/// A download into the cache that may be completed once.
pub struct CacheCompletion {
    pub song_id: u64,
    pub file_name: String,
    pub extension: String,
    pub state: CompletionState,
}

#[verifier::ext_equal]
pub struct DownloadView {
    pub song_id: u64,
    pub file_name: Seq<char>,
    pub extension: Seq<char>,
    pub state: CompletionState,
}

impl View for CacheCompletion {
    type V = DownloadView;

    open spec fn view(&self) -> DownloadView {
        DownloadView {
            song_id: self.song_id,
            file_name: self.file_name@,
            extension: self.extension@,
            state: self.state,
        }
    }
}

impl DownloadView {
    /// A download of a song as it starts.
    pub open spec fn started(song_id: u64, extension: Seq<char>) -> DownloadView {
        DownloadView {
            song_id,
            file_name: cache_file_name(song_id, extension),
            extension: safe_extension_of(extension),
            state: CompletionState::Pending,
        }
    }

    /// The entry that a completed download gets.
    pub open spec fn entry_of(self, v: CacheView, size: nat) -> EntryView {
        EntryView {
            song_id: self.song_id,
            file_name: self.file_name,
            extension: self.extension,
            size,
            last_accessed: v.next_stamp(),
        }
    }
}

impl CacheView {
    /// The cache after a look-up, with the length of the song's file as far as
    /// it is there.
    pub open spec fn after_lookup(self, song_id: u64, found: Option<u64>) -> CacheView {
        let i = entry_index(self.entries, song_id);
        let entry = self.entries[i];
        if !has_entry(self.entries, song_id) {
            self
        } else if found != Some(entry.size as u64) {
            CacheView { entries: without_entry(self.entries, song_id), ..self }
        } else {
            CacheView {
                entries: self.entries.update(i, EntryView { last_accessed: self.next_stamp(), ..entry }),
                access_clock: self.next_stamp(),
                active: acquired(self.active, entry.file_name),
                ..self
            }
        }
    }

    /// The cache after a file for a song was reserved: an earlier entry is gone
    /// and the file is in use.
    pub open spec fn reserving(self, song_id: u64, extension: Seq<char>) -> CacheView {
        CacheView {
            entries: without_entry(self.entries, song_id),
            active: self.active.push((cache_file_name(song_id, extension), 1)),
            ..self
        }
    }

    /// The cache and a download after its completion, with the size of the file
    /// as far as it is there. Only a download that is pending is completed.
    pub open spec fn finishing(self, download: DownloadView, written: Option<u64>) -> (CacheView, DownloadView) {
        if download.state != CompletionState::Pending {
            (self, download)
        } else if written is Some && written->0 > 0 {
            (
                CacheView {
                    entries: with_entry(self.entries, download.entry_of(self, written->0 as nat)),
                    access_clock: self.next_stamp(),
                    ..self
                },
                DownloadView { state: CompletionState::Complete, ..download },
            )
        } else {
            (self, DownloadView { state: CompletionState::Failed, ..download })
        }
    }

    /// The cache and the state of a download after a holder let go of its file,
    /// and whether the file has to be removed once the cache is within its
    /// limit: it is not kept by an entry, nor just being completed.
    pub open spec fn releasing(self, name: Seq<char>, state: CompletionState) -> (CacheView, CompletionState, bool) {
        (
            CacheView { active: released(self.active, name), ..self },
            abandoned(state),
            state != CompletionState::Finishing && !is_retained(self.entries, name),
        )
    }
}

/// What came of completing a download.
pub enum FinishOutcome {
    /// The download was abandoned or had been completed before: nothing was done.
    Ignored,
    /// The song is in the cache; `obsolete` is an earlier file of it that must go.
    Registered { obsolete: Option<String> },
    /// The file was missing or empty; whether what is left of it must go.
    Rejected { remove_file: bool },
}

pub struct CacheReservation {
    pub completion: CacheCompletion,
    /// The file of an earlier entry, which must go.
    pub obsolete: Option<String>,
}

/// The entries whose file was found with the size that the entry says.
pub open spec fn found_entries(entries: Seq<EntryView>, sizes: Seq<Option<u64>>) -> Seq<EntryView>
    decreases entries.len(),
{
    if entries.len() == 0 {
        entries
    } else {
        let kept = found_entries(entries.drop_last(), sizes);
        if sizes[entries.len() - 1] == Some(entries.last().size as u64) {
            kept.push(entries.last())
        } else {
            kept
        }
    }
}

/// The latest access of any entry.
pub open spec fn latest_access(entries: Seq<EntryView>) -> nat
    decreases entries.len(),
{
    if entries.len() == 0 {
        0
    } else {
        let before = latest_access(entries.drop_last());
        if entries.last().last_accessed > before {
            entries.last().last_accessed
        } else {
            before
        }
    }
}

pub open spec fn distinct_songs(entries: Seq<EntryView>) -> bool {
    forall|i: int, j: int|
        0 <= i < j < entries.len() ==> (#[trigger] entries[i]).song_id != (#[trigger] entries[j]).song_id
}

proof fn lemma_found_entries(entries: Seq<EntryView>, sizes: Seq<Option<u64>>)
    requires
        distinct_songs(entries),
    ensures
        distinct_songs(found_entries(entries, sizes)),
        forall|i: int|
            0 <= i < found_entries(entries, sizes).len() ==> entries.contains(
                #[trigger] found_entries(entries, sizes)[i],
            ),
        found_entries(entries, sizes).len() <= entries.len(),
    decreases entries.len(),
{
    if entries.len() > 0 {
        let t = entries.drop_last();
        let kept = found_entries(t, sizes);
        let r = found_entries(entries, sizes);
        assert forall|i: int, j: int| 0 <= i < j < t.len() implies (#[trigger] t[i]).song_id != (
        #[trigger] t[j]).song_id by {
            assert(t[i] == entries[i] && t[j] == entries[j]);
        }
        lemma_found_entries(t, sizes);
        assert forall|i: int| 0 <= i < r.len() implies entries.contains(#[trigger] r[i]) by {
            if i < kept.len() {
                assert(t.contains(kept[i]));
                let k = choose|k: int| 0 <= k < t.len() && t[k] == kept[i];
                assert(entries[k] == r[i]);
            } else {
                assert(entries[entries.len() - 1] == r[i]);
            }
        }
        assert forall|i: int, j: int| 0 <= i < j < r.len() implies (#[trigger] r[i]).song_id != (
        #[trigger] r[j]).song_id by {
            if j == kept.len() {
                assert(t.contains(kept[i]));
                let k = choose|k: int| 0 <= k < t.len() && t[k] == kept[i];
                assert(entries[k].song_id != entries[entries.len() - 1].song_id);
            }
        }
    }
}

proof fn lemma_latest_access(entries: Seq<EntryView>)
    ensures
        forall|i: int| 0 <= i < entries.len() ==> (#[trigger] entries[i]).last_accessed <= latest_access(entries),
    decreases entries.len(),
{
    if entries.len() > 0 {
        let t = entries.drop_last();
        lemma_latest_access(t);
        assert forall|i: int| 0 <= i < entries.len() implies (#[trigger] entries[i]).last_accessed <= latest_access(
            entries,
        ) by {
            if i < t.len() {
                assert(t[i] == entries[i]);
            }
        }
    }
}

/// The entries after `entry` was put in, in place of an earlier one of its song.
pub open spec fn with_entry(entries: Seq<EntryView>, entry: EntryView) -> Seq<EntryView> {
    let i = entry_index(entries, entry.song_id);
    if i < entries.len() {
        entries.update(i, entry)
    } else {
        entries.push(entry)
    }
}

/// The file of a song's entry, where it is neither `name` nor in use.
pub open spec fn obsolete_file(v: CacheView, song_id: u64, name: Seq<char>) -> Option<Seq<char>> {
    let i = entry_index(v.entries, song_id);
    if i < v.entries.len() && v.entries[i].file_name != name && !is_active(v.active, v.entries[i].file_name) {
        Some(v.entries[i].file_name)
    } else {
        None
    }
}

/// A download that is let go before it was complete has failed.
pub open spec fn abandoned(state: CompletionState) -> CompletionState {
    if state == CompletionState::Pending {
        CompletionState::Failed
    } else {
        state
    }
}

impl PlaybackCache {
    pub open spec fn wf(self) -> bool {
        self@.wf()
    }

    pub fn new(max_bytes: u64) -> (r: PlaybackCache)
        ensures
            r.wf(),
            r@ == (CacheView { max_bytes: max_bytes as nat, access_clock: 0, entries: seq![], active: seq![] }),
            names_are_own(r@.entries),
    {
        let r = PlaybackCache {
            state: CacheState { max_bytes, access_clock: 0, entries: Vec::new() },
            active: Vec::new(),
        };
        proof {
            assert(r@ =~= (CacheView { max_bytes: max_bytes as nat, access_clock: 0, entries: seq![], active: seq![] }));
        }
        r
    }

    /// A cache as it was saved, without the entries whose file was not found with
    /// the right size: `sizes` holds, for each entry, the size of its file.
    pub fn restore(saved: CacheState, sizes: &Vec<Option<u64>>) -> (r: PlaybackCache)
        requires
            saved.entries@.len() == sizes@.len(),
            distinct_songs(entry_views(saved.entries@)),
        ensures
            r.wf(),
            r@.max_bytes == saved.max_bytes,
            r@.entries == found_entries(entry_views(saved.entries@), sizes@),
            r@.access_clock == if latest_access(r@.entries) > saved.access_clock {
                latest_access(r@.entries)
            } else {
                saved.access_clock as nat
            },
            r@.active == Seq::<(Seq<char>, nat)>::empty(),
            names_are_own(entry_views(saved.entries@)) ==> names_are_own(r@.entries),
    {
        let ghost all = entry_views(saved.entries@);
        let max_bytes: u64 = saved.max_bytes;
        let ghost first_clock = saved.access_clock;
        let mut clock: u64 = saved.access_clock;
        let mut kept: Vec<CacheEntry> = Vec::new();
        let mut index: usize = 0;
        let count: usize = sizes.len();
        let entries = saved.entries;
        proof {
            assert(entry_views(kept@) =~= found_entries(all.take(0), sizes@));
        }
        for entry in it: entries
            invariant
                it.seq() == entries@,
                index == it.index(),
                all == entry_views(entries@),
                entries@.len() == sizes@.len(),
                count == sizes@.len(),
                entry_views(kept@) == found_entries(all.take(index as int), sizes@),
                clock == if latest_access(entry_views(kept@)) > first_clock {
                    latest_access(entry_views(kept@))
                } else {
                    first_clock as nat
                },
        {
            proof {
                assert(all.take(index + 1).drop_last() =~= all.take(index as int));
                assert(all.take(index + 1).last() == entry@);
            }
            let found: bool = match sizes[index] {
                Some(size) => size == entry.size,
                None => false,
            };
            if found {
                let ghost held = kept@;
                if entry.last_accessed > clock {
                    clock = entry.last_accessed;
                }
                kept.push(entry);
                proof {
                    assert(entry_views(kept@) =~= entry_views(held).push(entry@));
                    assert(entry_views(kept@).drop_last() =~= entry_views(held));
                }
            }
            index += 1;
        }
        proof {
            assert(all.take(all.len() as int) =~= all);
            lemma_found_entries(all, sizes@);
            lemma_latest_access(found_entries(all, sizes@));
        }
        let r = PlaybackCache {
            state: CacheState { max_bytes, access_clock: clock, entries: kept },
            active: Vec::new(),
        };
        proof {
            assert(r@.active =~= seq![]);
        }
        r
    }

    /// What has to be saved of the cache.
    pub fn state(&self) -> (r: &CacheState)
        ensures
            r.max_bytes == self@.max_bytes,
            r.access_clock == self@.access_clock,
            entry_views(r.entries@) == self@.entries,
    {
        &self.state
    }

    /// Whether some entry keeps the file `name`.
    pub fn is_known_file(&self, name: &str) -> (r: bool)
        ensures
            r == is_retained(self@.entries, name@),
    {
        let mut i: usize = 0;
        while i < self.state.entries.len()
            invariant
                i <= self.state.entries@.len(),
                forall|j: int| 0 <= j < i ==> (#[trigger] self@.entries[j]).file_name != name@,
            decreases self.state.entries@.len() - i,
        {
            proof {
                assert(self@.entries[i as int].file_name == self.state.entries@[i as int].file_name@);
            }
            if same_text(self.state.entries[i].file_name.as_str(), name) {
                return true;
            }
            i += 1;
        }
        false
    }

    /// Whether the file `name` is in use.
    pub fn is_active_file(&self, name: &str) -> (r: bool)
        requires
            self.wf(),
        ensures
            r == is_active(self@.active, name@),
    {
        match find_active(&self.active, name) {
            Some(i) => {
                proof {
                    assert(self@.active[i as int].1 > 0);
                }
                true
            },
            None => false,
        }
    }

    fn total(&self) -> (r: u128)
        ensures
            r == total_size(self@.entries),
            r <= self@.entries.len() * u64::MAX,
            self@.entries.len() <= usize::MAX,
    {
        let mut total: u128 = 0;
        let mut i: usize = 0;
        let ghost all = self@.entries;
        while i < self.state.entries.len()
            invariant
                i <= self.state.entries@.len(),
                all == entry_views(self.state.entries@),
                total == total_size(all.take(i as int)),
                total <= i * u64::MAX,
            decreases self.state.entries@.len() - i,
        {
            proof {
                assert(all.take(i + 1).drop_last() =~= all.take(i as int));
                assert(all.take(i + 1).last() == self.state.entries@[i as int]@);
                assert(i * u64::MAX + u64::MAX == (i + 1) * u64::MAX) by (nonlinear_arith);
                assert(i * u64::MAX <= usize::MAX * u64::MAX) by (nonlinear_arith)
                    requires
                        i <= usize::MAX,
                ;
            }
            total = total + self.state.entries[i].size as u128;
            i += 1;
        }
        proof {
            assert(all.take(i as int) =~= all);
        }
        total
    }

    /// The cache's size, limit and number of entries.
    pub fn stats(&self) -> (r: CacheStats)
        ensures
            r.used_bytes == if total_size(self@.entries) <= u64::MAX {
                total_size(self@.entries)
            } else {
                u64::MAX as nat
            },
            r.max_bytes == self@.max_bytes,
            r.entries == self@.entries.len(),
    {
        let total: u128 = self.total();
        CacheStats {
            used_bytes: if total <= u64::MAX as u128 { total as u64 } else { u64::MAX },
            max_bytes: self.state.max_bytes,
            entries: self.state.entries.len(),
        }
    }

    /// The entry of a song.
    pub fn entry(&self, song_id: u64) -> (r: Option<&CacheEntry>)
        ensures
            match r {
                Some(entry) => has_entry(self@.entries, song_id) && entry@ == self@.entries[entry_index(
                    self@.entries,
                    song_id,
                )],
                None => !has_entry(self@.entries, song_id),
            },
    {
        match find_entry(&self.state.entries, song_id) {
            Some(i) => Some(&self.state.entries[i]),
            None => None,
        }
    }

    fn next_access_stamp(&mut self) -> (r: u64)
        ensures
            r == old(self)@.next_stamp(),
            final(self)@ == (CacheView { access_clock: old(self)@.next_stamp(), ..old(self)@ }),
            final(self).state.entries == old(self).state.entries,
            final(self).active == old(self).active,
    {
        self.state.access_clock = self.state.access_clock.saturating_add(1);
        self.state.access_clock
    }

    fn acquire(&mut self, name: &str)
        requires
            old(self).wf(),
        ensures
            final(self).wf(),
            final(self)@ == (CacheView { active: acquired(old(self)@.active, name@), ..old(self)@ }),
    {
        let ghost before = self.active@;
        match find_active(&self.active, name) {
            Some(i) => {
                let holders: usize = self.active[i].holders.saturating_add(1);
                let file = &mut self.active[i];
                file.holders = holders;
                proof {
                    assert(active_views(self.active@) =~= acquired(active_views(before), name@));
                    assert(self@.entries == old(self)@.entries);
                    let old_active = old(self)@.active;
                    assert forall|a: int, b: int| 0 <= a < b < self@.active.len() implies (#[trigger] self@.active[a]).0
                        != (#[trigger] self@.active[b]).0 by {
                        assert(old_active[a].0 != old_active[b].0);
                        assert(self@.active[a].0 == old_active[a].0);
                        assert(self@.active[b].0 == old_active[b].0);
                    }
                    assert forall|a: int| 0 <= a < self@.active.len() implies (#[trigger] self@.active[a]).1 > 0 by {
                        assert(old_active[a].1 > 0);
                    }
                }
            },
            None => {
                proof {
                    lemma_active_index(active_views(before), name@);
                }
                self.active.push(ActiveFile { file_name: name.to_owned(), holders: 1 });
                proof {
                    assert(active_views(self.active@) =~= acquired(active_views(before), name@));
                    let old_active = old(self)@.active;
                    assert forall|a: int, b: int| 0 <= a < b < self@.active.len() implies (#[trigger] self@.active[a]).0
                        != (#[trigger] self@.active[b]).0 by {
                        if b < old_active.len() {
                            assert(old_active[a].0 != old_active[b].0);
                        }
                        assert(self@.active[a] == old_active[a]);
                    }
                    assert forall|a: int| 0 <= a < self@.active.len() implies (#[trigger] self@.active[a]).1 > 0 by {
                        if a < old_active.len() {
                            assert(old_active[a].1 > 0);
                        }
                    }
                }
            },
        }
    }

    /// Looks a song up. `found` is the size of its file, as far as it is there
    /// and can be read.
    pub fn lookup(&mut self, song_id: u64, found: Option<u64>) -> (r: Lookup)
        requires
            old(self).wf(),
        ensures
            final(self).wf(),
            names_are_own(old(self)@.entries) ==> names_are_own(final(self)@.entries),
            final(self)@ == old(self)@.after_lookup(song_id, found),
            ({
                let v = old(self)@;
                let i = entry_index(v.entries, song_id);
                let entry = v.entries[i];
                if !has_entry(v.entries, song_id) {
                    r is Miss && final(self)@ == v
                } else if found != Some(entry.size as u64) {
                    r is Stale && r->Stale_file_name@ == entry.file_name && final(self)@ == (CacheView {
                        entries: without_entry(v.entries, song_id),
                        ..v
                    })
                } else {
                    r is Hit && r->Hit_file_name@ == entry.file_name && r->extension@ == entry.extension && r->size
                        == entry.size && final(self)@ == (CacheView {
                        entries: v.entries.update(i, EntryView { last_accessed: v.next_stamp(), ..entry }),
                        access_clock: v.next_stamp(),
                        active: acquired(v.active, entry.file_name),
                        ..v
                    })
                }
            }),
    {
        let ghost v = self@;
        match find_entry(&self.state.entries, song_id) {
            None => Lookup::Miss,
            Some(i) => {
                let ghost before = self.state.entries@;
                let size: u64 = self.state.entries[i].size;
                let valid: bool = match found {
                    Some(n) => n == size,
                    None => false,
                };
                proof {
                    assert(v.entries[i as int] == before[i as int]@);
                }
                let file_name = self.state.entries[i].file_name.clone();
                let extension = self.state.entries[i].extension.clone();
                if !valid {
                    let removed = self.state.entries.remove(i);
                    proof {
                        assert(self@.entries =~= v.entries.remove(i as int));
                        assert(self@.active =~= v.active);
                        lemma_without_wf(v, song_id);
                        assert(self@ =~= (CacheView { entries: without_entry(v.entries, song_id), ..v }));
                        if names_are_own(v.entries) {
                            lemma_own_without(v.entries, song_id);
                        }
                    }
                    return Lookup::Stale { file_name };
                }
                let stamp: u64 = self.next_access_stamp();
                let entry = &mut self.state.entries[i];
                entry.last_accessed = stamp;
                proof {
                    assert(self@.entries =~= v.entries.update(
                        i as int,
                        EntryView { last_accessed: v.next_stamp(), ..v.entries[i as int] },
                    ));
                    let w = self@;
                    assert forall|a: int, b: int| 0 <= a < b < w.entries.len() implies (#[trigger] w.entries[a]).song_id
                        != (#[trigger] w.entries[b]).song_id by {
                        assert(v.entries[a].song_id != v.entries[b].song_id);
                    }
                    assert forall|a: int| 0 <= a < w.entries.len() implies (#[trigger] w.entries[a]).last_accessed
                        <= w.access_clock by {
                        assert(v.entries[a].last_accessed <= v.access_clock);
                    }
                    assert(w.active == v.active);
                }
                self.acquire(file_name.as_str());
                Lookup::Hit { file_name, extension, size }
            },
        }
    }

    /// Starts a download of a song into the cache: an earlier entry is dropped
    /// and the file is in use from now on.
    pub fn reserve(&mut self, song_id: u64, extension: &str) -> (r: Result<CacheReservation, CacheBusy>)
        requires
            old(self).wf(),
        ensures
            final(self).wf(),
            names_are_own(old(self)@.entries) ==> names_are_own(final(self)@.entries),
            r is Ok ==> is_own_name(song_id, r->Ok_0.completion.file_name@),
            ({
                let v = old(self)@;
                let name = cache_file_name(song_id, extension@);
                match r {
                    Err(_) => is_active(v.active, name) && final(self)@ == v,
                    Ok(reservation) => {
                        &&& !is_active(v.active, name)
                        &&& final(self)@ == v.reserving(song_id, extension@)
                        &&& reservation.completion@ == DownloadView::started(song_id, extension@)
                        &&& text_option(reservation.obsolete) == obsolete_file(v, song_id, name)
                    },
                }
            }),
    {
        let ghost v = self@;
        let ghost given = extension;
        let extension = sanitize_extension(extension);
        let mut file_name: String = decimal_text(song_id);
        file_name.append(".");
        file_name.append(extension.as_str());
        file_name.append(".cache");
        if self.is_active_file(file_name.as_str()) {
            return Err(CacheBusy);
        }
        let mut obsolete: Option<String> = None;
        match find_entry(&self.state.entries, song_id) {
            Some(i) => {
                let ghost before = self.state.entries@;
                proof {
                    assert(v.entries[i as int] == before[i as int]@);
                }
                let previous = self.state.entries.remove(i);
                proof {
                    assert(self@.entries =~= v.entries.remove(i as int));
                    lemma_without_wf(v, song_id);
                    assert(self@ =~= (CacheView { entries: without_entry(v.entries, song_id), ..v }));
                }
                if !same_text(previous.file_name.as_str(), file_name.as_str()) && !self.is_active_file(
                    previous.file_name.as_str(),
                ) {
                    obsolete = Some(previous.file_name);
                }
            },
            None => {},
        }
        proof {
            lemma_name_is_own(song_id, given@);
            if names_are_own(v.entries) {
                lemma_own_without(v.entries, song_id);
            }
            lemma_active_index(v.active, file_name@);
            if active_index(v.active, file_name@) < v.active.len() {
                assert(v.active[active_index(v.active, file_name@)].1 > 0);
            }
        }
        self.acquire(file_name.as_str());
        Ok(
            CacheReservation {
                completion: CacheCompletion { song_id, file_name, extension, state: CompletionState::Pending },
                obsolete,
            },
        )
    }

    pub fn set_max_bytes(&mut self, max_bytes: u64)
        requires
            old(self).wf(),
        ensures
            final(self).wf(),
            final(self)@ == (CacheView { max_bytes: max_bytes as nat, ..old(self)@ }),
    {
        self.state.max_bytes = max_bytes;
    }

    /// The song whose file has to go next to bring the cache within its limit,
    /// leaving out those in `kept`, whose files could not be removed.
    pub fn next_eviction(&self, kept: &Vec<u64>) -> (r: Option<u64>)
        requires
            self.wf(),
        ensures
            match (r, self@.victim(kept@)) {
                (Some(song_id), Some(i)) => 0 <= i < self@.entries.len() && self@.entries[i].song_id == song_id,
                (None, None) => true,
                _ => false,
            },
    {
        if self.total() <= self.state.max_bytes as u128 {
            return None;
        }
        let mut best: Option<usize> = None;
        let mut i: usize = 0;
        while i < self.state.entries.len()
            invariant
                self.wf(),
                i <= self.state.entries@.len(),
                match (best, self@.oldest(kept@, i as int)) {
                    (Some(a), Some(b)) => a == b && 0 <= b < i,
                    (None, None) => true,
                    _ => false,
                },
            decreases self.state.entries@.len() - i,
        {
            proof {
                assert(self@.entries[i as int] == self.state.entries@[i as int]@);
            }
            if !self.is_active_file(self.state.entries[i].file_name.as_str()) && !contains_id(
                kept,
                self.state.entries[i].song_id,
            ) {
                match best {
                    Some(b) => {
                        proof {
                            assert(self@.entries[b as int] == self.state.entries@[b as int]@);
                        }
                        if self.state.entries[i].last_accessed < self.state.entries[b].last_accessed {
                            best = Some(i);
                        }
                    },
                    None => {
                        best = Some(i);
                    },
                }
            }
            i += 1;
        }
        match best {
            Some(b) => {
                proof {
                    assert(self@.entries[b as int] == self.state.entries@[b as int]@);
                }
                Some(self.state.entries[b].song_id)
            },
            None => None,
        }
    }

    /// Drops the entry of a song, whose file is gone.
    pub fn forget(&mut self, song_id: u64)
        requires
            old(self).wf(),
        ensures
            final(self).wf(),
            names_are_own(old(self)@.entries) ==> names_are_own(final(self)@.entries),
            final(self)@ == (CacheView { entries: without_entry(old(self)@.entries, song_id), ..old(self)@ }),
    {
        let ghost v = self@;
        proof {
            lemma_without_wf(v, song_id);
            if names_are_own(v.entries) {
                lemma_own_without(v.entries, song_id);
            }
        }
        match find_entry(&self.state.entries, song_id) {
            Some(i) => {
                let removed = self.state.entries.remove(i);
                proof {
                    assert(self@.entries =~= v.entries.remove(i as int));
                    assert(self@ =~= (CacheView { entries: without_entry(v.entries, song_id), ..v }));
                }
            },
            None => {},
        }
    }

    /// A song whose file can go when the cache is cleared: any that is not in use.
    pub fn next_idle(&self) -> (r: Option<u64>)
        requires
            self.wf(),
        ensures
            match r {
                Some(song_id) => has_entry(self@.entries, song_id) && !is_active(
                    self@.active,
                    self@.entries[entry_index(self@.entries, song_id)].file_name,
                ),
                None => forall|i: int|
                    0 <= i < self@.entries.len() ==> is_active(self@.active, (#[trigger] self@.entries[i]).file_name),
            },
    {
        let mut i: usize = 0;
        while i < self.state.entries.len()
            invariant
                self.wf(),
                i <= self.state.entries@.len(),
                forall|j: int| 0 <= j < i ==> is_active(self@.active, (#[trigger] self@.entries[j]).file_name),
            decreases self.state.entries@.len() - i,
        {
            proof {
                assert(self@.entries[i as int] == self.state.entries@[i as int]@);
            }
            if !self.is_active_file(self.state.entries[i].file_name.as_str()) {
                proof {
                    let id = self@.entries[i as int].song_id;
                    lemma_entry_index(self@.entries, id);
                    let k = entry_index(self@.entries, id);
                    if k < i {
                        assert(self@.entries[k].song_id != self@.entries[i as int].song_id);
                    }
                }
                return Some(self.state.entries[i].song_id);
            }
            i += 1;
        }
        None
    }

    /// Starts clearing the cache.
    pub fn begin_clear(&self) -> (r: ClearPass)
        ensures
            r.removed_bytes == 0,
            r.retained_active == self@.active.len(),
    {
        ClearPass { removed_bytes: 0, retained_active: self.active.len() }
    }

    /// Lets go of a file. Whether the file has to be removed once the cache is
    /// within its limit: it is not kept by an entry, nor just being completed.
    pub fn release(&mut self, name: &str, state: &mut CompletionState) -> (r: bool)
        requires
            old(self).wf(),
        ensures
            final(self).wf(),
            (final(self)@, *final(state), r) == old(self)@.releasing(name@, *old(state)),
    {
        let ghost v = self@;
        if *state == CompletionState::Pending {
            *state = CompletionState::Failed;
        }
        match find_active(&self.active, name) {
            Some(i) => {
                let ghost before = self.active@;
                let holders: usize = self.active[i].holders;
                if holders <= 1 {
                    let removed = self.active.remove(i);
                } else {
                    let file = &mut self.active[i];
                    file.holders = holders - 1;
                }
                proof {
                    assert(active_views(before)[i as int].1 == holders);
                    assert(self@.active =~= released(v.active, name@));
                    assert(self@ =~= (CacheView { active: released(v.active, name@), ..v }));
                    lemma_released_wf(v, name@);
                }
            },
            None => {},
        }
        let retained: bool = self.is_known_file(name);
        *state != CompletionState::Finishing && !retained
    }
}

proof fn lemma_without_wf(v: CacheView, song_id: u64)
    requires
        v.wf(),
    ensures
        (CacheView { entries: without_entry(v.entries, song_id), ..v }).wf(),
{
    lemma_entry_index(v.entries, song_id);
    let w = CacheView { entries: without_entry(v.entries, song_id), ..v };
    let k = entry_index(v.entries, song_id);
    if k < v.entries.len() {
        assert forall|i: int, j: int| 0 <= i < j < w.entries.len() implies (#[trigger] w.entries[i]).song_id != (
        #[trigger] w.entries[j]).song_id by {
            let a = if i < k { i } else { i + 1 };
            let b = if j < k { j } else { j + 1 };
            assert(w.entries[i] == v.entries[a] && w.entries[j] == v.entries[b]);
        }
        assert forall|i: int| 0 <= i < w.entries.len() implies (#[trigger] w.entries[i]).last_accessed
            <= w.access_clock by {
            let a = if i < k { i } else { i + 1 };
            assert(w.entries[i] == v.entries[a]);
        }
    }
}

proof fn lemma_released_wf(v: CacheView, name: Seq<char>)
    requires
        v.wf(),
    ensures
        (CacheView { active: released(v.active, name), ..v }).wf(),
{
    lemma_active_index(v.active, name);
    let w = CacheView { active: released(v.active, name), ..v };
    let k = active_index(v.active, name);
    if k < v.active.len() {
        let gone = v.active[k].1 <= 1;
        assert forall|i: int, j: int| 0 <= i < j < w.active.len() implies (#[trigger] w.active[i]).0 != (
        #[trigger] w.active[j]).0 by {
            let a = if gone && i >= k { i + 1 } else { i };
            let b = if gone && j >= k { j + 1 } else { j };
            assert(w.active[i].0 == v.active[a].0 && w.active[j].0 == v.active[b].0);
        }
        assert forall|i: int| 0 <= i < w.active.len() implies (#[trigger] w.active[i]).1 > 0 by {
            let a = if gone && i >= k { i + 1 } else { i };
            assert(v.active[a].1 > 0);
        }
    }
}

/// What has been cleared so far.
pub struct ClearPass {
    pub removed_bytes: u64,
    pub retained_active: usize,
}

impl ClearPass {
    /// Counts a file that was removed.
    pub fn removed(&mut self, bytes: u64)
        ensures
            final(self).removed_bytes == if old(self).removed_bytes + bytes <= u64::MAX {
                old(self).removed_bytes + bytes
            } else {
                u64::MAX as int
            },
            final(self).retained_active == old(self).retained_active,
    {
        self.removed_bytes = self.removed_bytes.saturating_add(bytes);
    }

    pub fn report(&self, cache: &PlaybackCache) -> (r: ClearReport)
        ensures
            r.removed_bytes == self.removed_bytes,
            r.retained_active == self.retained_active,
            r.stats.max_bytes == cache@.max_bytes,
            r.stats.entries == cache@.entries.len(),
            r.stats.used_bytes == if total_size(cache@.entries) <= u64::MAX {
                total_size(cache@.entries)
            } else {
                u64::MAX as nat
            },
    {
        ClearReport {
            removed_bytes: self.removed_bytes,
            retained_active: self.retained_active,
            stats: cache.stats(),
        }
    }
}

impl CacheCompletion {
    /// Completes the download, if it is still pending. `written` is the size of
    /// its file, as far as it is there.
    pub fn finish(&mut self, cache: &mut PlaybackCache, written: Option<u64>) -> (r: FinishOutcome)
        requires
            old(cache).wf(),
        ensures
            final(cache).wf(),
            names_are_own(old(cache)@.entries) && is_own_name(old(self).song_id, old(self).file_name@)
                ==> names_are_own(final(cache)@.entries),
            (final(cache)@, final(self)@) == old(cache)@.finishing(old(self)@, written),
            ({
                let v = old(cache)@;
                let download = old(self)@;
                match r {
                    FinishOutcome::Ignored => download.state != CompletionState::Pending,
                    FinishOutcome::Registered { obsolete } => {
                        &&& download.state == CompletionState::Pending
                        &&& written is Some && written->0 > 0
                        &&& text_option(obsolete) == obsolete_file(v, download.song_id, download.file_name)
                    },
                    FinishOutcome::Rejected { remove_file } => {
                        &&& download.state == CompletionState::Pending
                        &&& written is None || written->0 == 0
                        &&& remove_file == (!is_active(v.active, download.file_name) && !is_retained(
                            v.entries,
                            download.file_name,
                        ))
                    },
                }
            }),
    {
        let ghost v = cache@;
        if self.state != CompletionState::Pending {
            return FinishOutcome::Ignored;
        }
        let size: u64 = match written {
            Some(n) => n,
            None => 0,
        };
        if size == 0 {
            self.state = CompletionState::Failed;
            let remove_file: bool = !cache.is_active_file(self.file_name.as_str()) && !cache.is_known_file(
                self.file_name.as_str(),
            );
            return FinishOutcome::Rejected { remove_file };
        }
        let stamp: u64 = cache.next_access_stamp();
        let entry = CacheEntry {
            song_id: self.song_id,
            file_name: self.file_name.clone(),
            extension: self.extension.clone(),
            size,
            last_accessed: stamp,
        };
        let ghost put = entry@;
        let mut obsolete: Option<String> = None;
        proof {
            lemma_entry_index(v.entries, self.song_id);
            if names_are_own(v.entries) && is_own_name(self.song_id, self.file_name@) {
                lemma_own_with(v.entries, put);
            }
        }
        match find_entry(&cache.state.entries, self.song_id) {
            Some(i) => {
                let previous = cache.state.entries[i].file_name.clone();
                proof {
                    assert(v.entries[i as int] == cache.state.entries@[i as int]@);
                }
                let ghost before = cache.state.entries@;
                cache.state.entries.set(i, entry);
                proof {
                    assert(cache@.entries =~= v.entries.update(i as int, put));
                    assert(cache@.active == v.active);
                    lemma_with_entry_wf(v, put);
                }
                if !same_text(previous.as_str(), self.file_name.as_str()) && !cache.is_active_file(previous.as_str()) {
                    obsolete = Some(previous);
                }
            },
            None => {
                cache.state.entries.push(entry);
                proof {
                    assert(cache@.entries =~= v.entries.push(put));
                    lemma_with_entry_wf(v, put);
                }
            },
        }
        self.state = CompletionState::Complete;
        FinishOutcome::Registered { obsolete }
    }

    /// Marks the download as failed because the cache could not be saved.
    /// Whether what is left of its file must go.
    pub fn fail(&mut self, cache: &PlaybackCache) -> (r: bool)
        requires
            cache.wf(),
        ensures
            final(self)@ == (DownloadView { state: CompletionState::Failed, ..old(self)@ }),
            r == (!is_active(cache@.active, old(self).file_name@) && !is_retained(
                cache@.entries,
                old(self).file_name@,
            )),
    {
        self.state = CompletionState::Failed;
        !cache.is_active_file(self.file_name.as_str()) && !cache.is_known_file(self.file_name.as_str())
    }
}

proof fn lemma_with_entry_wf(v: CacheView, entry: EntryView)
    requires
        v.wf(),
        entry.last_accessed == v.next_stamp(),
    ensures
        (CacheView { entries: with_entry(v.entries, entry), access_clock: v.next_stamp(), ..v }).wf(),
{
    let w = CacheView { entries: with_entry(v.entries, entry), access_clock: v.next_stamp(), ..v };
    lemma_entry_index(v.entries, entry.song_id);
    let k = entry_index(v.entries, entry.song_id);
    assert forall|i: int, j: int| 0 <= i < j < w.entries.len() implies (#[trigger] w.entries[i]).song_id != (
    #[trigger] w.entries[j]).song_id by {
        if j < v.entries.len() {
            assert(v.entries[i].song_id != v.entries[j].song_id);
        } else {
            assert(v.entries[i].song_id != entry.song_id);
        }
    }
    assert forall|i: int| 0 <= i < w.entries.len() implies (#[trigger] w.entries[i]).last_accessed <= w.access_clock by {
        if i < v.entries.len() {
            assert(v.entries[i].last_accessed <= v.access_clock);
        }
    }
}

// Laws.

proof fn lemma_oldest(v: CacheView, kept: Seq<u64>, n: int)
    requires
        0 <= n <= v.entries.len(),
    ensures
        match v.oldest(kept, n) {
            Some(i) => 0 <= i < n && v.evictable(kept, i) && forall|j: int|
                0 <= j < n && v.evictable(kept, j) ==> v.entries[i].last_accessed <= (
                #[trigger] v.entries[j]).last_accessed,
            None => forall|j: int| 0 <= j < n ==> !(#[trigger] v.evictable(kept, j)),
        },
    decreases n,
{
    if n > 0 {
        lemma_oldest(v, kept, n - 1);
    }
}

/// The entry that has to go is one that may go, and none that may go was not
/// used for longer. Where none has to go, the cache is within its limit or
/// holds only files that are in use or could not be removed.
pub proof fn lemma_victim_is_least_recently_used(v: CacheView, kept: Seq<u64>)
    ensures
        match v.victim(kept) {
            Some(i) => 0 <= i < v.entries.len() && v.evictable(kept, i) && total_size(v.entries) > v.max_bytes
                && forall|j: int|
                0 <= j < v.entries.len() && v.evictable(kept, j) ==> v.entries[i].last_accessed <= (
                #[trigger] v.entries[j]).last_accessed,
            None => total_size(v.entries) <= v.max_bytes || forall|j: int|
                0 <= j < v.entries.len() ==> !(#[trigger] v.evictable(kept, j)),
        },
{
    lemma_oldest(v, kept, v.entries.len() as int);
}

/// A cache that was trimmed is within its limit, or every file that it still
/// holds is in use. Nothing in use went, and whatever went had not been used
/// for longer than any idle file that stayed.
pub proof fn lemma_trimmed(v: CacheView)
    requires
        v.wf(),
    ensures
        v.trimmed().wf(),
        v.trimmed().max_bytes == v.max_bytes,
        v.trimmed().active == v.active,
        total_size(v.trimmed().entries) <= total_size(v.entries),
        total_size(v.trimmed().entries) <= v.max_bytes || forall|i: int|
            0 <= i < v.trimmed().entries.len() ==> is_active(v.active, (#[trigger] v.trimmed().entries[i]).file_name),
        forall|i: int|
            0 <= i < v.trimmed().entries.len() ==> v.entries.contains(#[trigger] v.trimmed().entries[i]),
        forall|i: int|
            0 <= i < v.entries.len() && is_active(v.active, (#[trigger] v.entries[i]).file_name)
                ==> v.trimmed().entries.contains(v.entries[i]),
        forall|i: int, j: int|
            0 <= i < v.entries.len() && !v.trimmed().entries.contains(#[trigger] v.entries[i]) && 0 <= j
                < v.trimmed().entries.len() && !is_active(v.active, (#[trigger] v.trimmed().entries[j]).file_name)
                ==> v.entries[i].last_accessed <= v.trimmed().entries[j].last_accessed,
    decreases v.entries.len(),
{
    let kept = Seq::<u64>::empty();
    lemma_victim_is_least_recently_used(v, kept);
    match v.victim(kept) {
        Some(k) => {
            let w = v.dropping(k);
            lemma_entry_index(v.entries, v.entries[k].song_id);
            assert(entry_index(v.entries, v.entries[k].song_id) == k) by {
                let e = entry_index(v.entries, v.entries[k].song_id);
                if e < k {
                    assert(v.entries[e].song_id != v.entries[k].song_id);
                }
            }
            lemma_without_wf(v, v.entries[k].song_id);
            lemma_trimmed(w);
            lemma_total_remove(v.entries, k);
            let t = v.trimmed();
            assert(t == w.trimmed());
            assert forall|i: int| 0 <= i < t.entries.len() implies v.entries.contains(#[trigger] t.entries[i]) by {
                assert(w.entries.contains(t.entries[i]));
                let a = choose|a: int| 0 <= a < w.entries.len() && w.entries[a] == t.entries[i];
                assert(v.entries[if a < k { a } else { a + 1 }] == t.entries[i]);
            }
            assert forall|i: int|
                0 <= i < v.entries.len() && is_active(v.active, (#[trigger] v.entries[i]).file_name) implies t.entries.contains(
                v.entries[i],
            ) by {
                assert(i != k);
                let a = if i < k { i } else { i - 1 };
                assert(w.entries[a] == v.entries[i]);
            }
            assert forall|i: int, j: int|
                0 <= i < v.entries.len() && !t.entries.contains(#[trigger] v.entries[i]) && 0 <= j < t.entries.len()
                    && !is_active(v.active, (#[trigger] t.entries[j]).file_name) implies v.entries[i].last_accessed
                <= t.entries[j].last_accessed by {
                if i == k {
                    assert(v.entries.contains(t.entries[j]));
                    let b = choose|b: int| 0 <= b < v.entries.len() && v.entries[b] == t.entries[j];
                    assert(v.evictable(kept, b));
                } else {
                    let a = if i < k { i } else { i - 1 };
                    assert(w.entries[a] == v.entries[i]);
                }
            }
        },
        None => {
            if total_size(v.entries) > v.max_bytes {
                assert forall|i: int| 0 <= i < v.entries.len() implies is_active(
                    v.active,
                    (#[trigger] v.entries[i]).file_name,
                ) by {
                    assert(!v.evictable(kept, i));
                }
            }
            assert forall|i: int| 0 <= i < v.entries.len() implies v.entries.contains(#[trigger] v.entries[i]) by {}
        },
    }
}

/// A cache that was trimmed needs no trimming.
pub proof fn lemma_trimmed_idempotent(v: CacheView)
    ensures
        v.trimmed().trimmed() == v.trimmed(),
    decreases v.entries.len(),
{
    lemma_victim_is_least_recently_used(v, seq![]);
    match v.victim(seq![]) {
        Some(k) => {
            lemma_trimmed_idempotent(v.dropping(k));
        },
        None => {},
    }
}

/// Letting go of a file undoes taking hold of it: every file has as many
/// holders as before.
pub proof fn lemma_release_undoes_acquire(v: CacheView, name: Seq<char>, other: Seq<char>)
    requires
        v.wf(),
        holders_of(v.active, name) < usize::MAX,
    ensures
        holders_of(released(acquired(v.active, name), name), other) == holders_of(v.active, other),
{
    let a = v.active;
    let b = acquired(a, name);
    lemma_active_index(a, name);
    lemma_active_index(b, name);
    let k = active_index(a, name);
    let m = active_index(b, name);
    assert(m == k) by {
        if m < k {
            assert(a[m].0 != name);
            assert(b[m] == a[m]);
        }
        if k < m {
            assert(b[k].0 != name);
        }
    }
    if k < a.len() {
        assert(a[k].1 > 0);
        assert(released(b, name) =~= a);
    } else {
        assert(released(b, name) =~= a);
    }
}

/// Taking hold of a file gives it one more holder, and no other file any.
pub proof fn lemma_acquire_counts(v: CacheView, name: Seq<char>, other: Seq<char>)
    requires
        v.wf(),
        holders_of(v.active, name) < usize::MAX,
    ensures
        holders_of(acquired(v.active, name), other) == holders_of(v.active, other) + if other == name {
            1nat
        } else {
            0
        },
{
    let a = v.active;
    let b = acquired(a, name);
    lemma_active_index(a, name);
    lemma_active_index(a, other);
    lemma_active_index(b, other);
    let i = active_index(a, other);
    let j = active_index(b, other);
    if other == name {
        if j < i {
            assert(a[j].0 != name);
        }
        if i < j {
            assert(b[i].0 != name);
        }
    } else {
        if j < i {
            assert(a[j].0 != other);
        }
        if i < j && i < a.len() {
            assert(b[i].0 != other);
        }
        if i == a.len() && j < b.len() {
            assert(b[j].0 == other);
        }
    }
}

/// A song that was just used is the last to go: its stamp is later than that of
/// every entry, as long as the clock has not reached its end.
pub proof fn lemma_use_refreshes(v: CacheView, i: int)
    requires
        v.wf(),
        0 <= i < v.entries.len(),
        v.access_clock < u64::MAX,
    ensures
        v.entries[i].last_accessed < v.next_stamp(),
{
    assert(v.entries[i].last_accessed <= v.access_clock);
}

proof fn lemma_name_is_own(song_id: u64, extension: Seq<char>)
    ensures
        is_own_name(song_id, cache_file_name(song_id, extension)),
{
    let start = decimal(song_id as nat) + "."@;
    let name = cache_file_name(song_id, extension);
    assert(name.subrange(0, start.len() as int) =~= start);
}

proof fn lemma_names_tell_songs(a: u64, b: u64, name: Seq<char>)
    requires
        is_own_name(a, name),
        is_own_name(b, name),
    ensures
        a == b,
{
    let p = decimal(a as nat);
    let q = decimal(b as nat);
    reveal_strlit(".");
    lemma_decimal_reads_back(a as nat);
    lemma_decimal_reads_back(b as nat);
    assert forall|i: int| 0 <= i < p.len() implies name[i] == p[i] by {
        assert((p + "."@)[i] == name[i]);
    }
    assert forall|i: int| 0 <= i < q.len() implies name[i] == q[i] by {
        assert((q + "."@)[i] == name[i]);
    }
    assert(name[p.len() as int] == (p + "."@)[p.len() as int]);
    assert(name[q.len() as int] == (q + "."@)[q.len() as int]);
    if p.len() < q.len() {
        assert(is_digit(q[p.len() as int]));
    }
    if q.len() < p.len() {
        assert(is_digit(p[q.len() as int]));
    }
    assert(p =~= q);
}

proof fn lemma_own_without(entries: Seq<EntryView>, song_id: u64)
    requires
        names_are_own(entries),
    ensures
        names_are_own(without_entry(entries, song_id)),
{
    lemma_entry_index(entries, song_id);
    let k = entry_index(entries, song_id);
    let kept = without_entry(entries, song_id);
    assert forall|i: int| 0 <= i < kept.len() implies is_own_name((#[trigger] kept[i]).song_id, kept[i].file_name) by {
        assert(kept[i] == entries[if i < k { i } else { i + 1 }]);
    }
}

proof fn lemma_own_with(entries: Seq<EntryView>, entry: EntryView)
    requires
        names_are_own(entries),
        is_own_name(entry.song_id, entry.file_name),
    ensures
        names_are_own(with_entry(entries, entry)),
{
    lemma_entry_index(entries, entry.song_id);
    let k = entry_index(entries, entry.song_id);
    let all = with_entry(entries, entry);
    assert forall|i: int| 0 <= i < all.len() implies is_own_name((#[trigger] all[i]).song_id, all[i].file_name) by {
        if i < entries.len() && i != k {
            assert(all[i] == entries[i]);
        }
    }
}

/// A cache that is trimmed keeps files of their own songs.
pub proof fn lemma_trimmed_names(v: CacheView)
    requires
        v.wf(),
        names_are_own(v.entries),
    ensures
        names_are_own(v.trimmed().entries),
{
    lemma_trimmed(v);
    let trimmed = v.trimmed().entries;
    assert forall|i: int| 0 <= i < trimmed.len() implies is_own_name(
        (#[trigger] trimmed[i]).song_id,
        trimmed[i].file_name,
    ) by {
        assert(v.entries.contains(trimmed[i]));
        let j = choose|j: int| 0 <= j < v.entries.len() && v.entries[j] == trimmed[i];
        assert(v.entries[j] == trimmed[i]);
    }
}

proof fn lemma_reserved(v: CacheView, song_id: u64, extension: Seq<char>)
    requires
        v.wf(),
        !is_active(v.active, cache_file_name(song_id, extension)),
    ensures
        v.reserving(song_id, extension).wf(),
        !has_entry(v.reserving(song_id, extension).entries, song_id),
        is_active(v.reserving(song_id, extension).active, cache_file_name(song_id, extension)),
        released(v.reserving(song_id, extension).active, cache_file_name(song_id, extension)) == v.active,
{
    let name = cache_file_name(song_id, extension);
    let w = v.reserving(song_id, extension);
    lemma_without_wf(v, song_id);
    lemma_entry_index(v.entries, song_id);
    lemma_entry_index(w.entries, song_id);
    lemma_active_index(v.active, name);
    lemma_active_index(w.active, name);
    if has_entry(w.entries, song_id) {
        let i = entry_index(w.entries, song_id);
        let k = entry_index(v.entries, song_id);
        let j = if i < k { i } else { i + 1 };
        if k < v.entries.len() {
            assert(w.entries[i] == v.entries[j]);
            if j < k {
                assert(v.entries[j].song_id != v.entries[k].song_id);
            } else {
                assert(v.entries[k].song_id != v.entries[j].song_id);
            }
        } else {
            assert(w.entries[i] == v.entries[i]);
        }
    }
    if active_index(v.active, name) < v.active.len() {
        assert(v.active[active_index(v.active, name)].1 > 0);
    }
    let n = v.active.len() as int;
    assert(w.active[n] == (name, 1nat));
    let at = active_index(w.active, name);
    if at < n {
        assert(w.active[at] == v.active[at]);
        assert(v.active[at].0 == name);
    }
    assert(at == n);
    assert(w.active.remove(n) =~= v.active);
    assert forall|i: int, j: int| 0 <= i < j < w.active.len() implies (#[trigger] w.active[i]).0 != (
    #[trigger] w.active[j]).0 by {
        if j == n {
            assert(w.active[i] == v.active[i]);
        } else {
            assert(v.active[i].0 != v.active[j].0);
        }
    }
    assert forall|i: int| 0 <= i < w.active.len() implies (#[trigger] w.active[i]).1 > 0 by {
        if i < n {
            assert(w.active[i] == v.active[i]);
        }
    }
}

/// A download that is given up before it is complete leaves nothing behind: its
/// file is no longer in use, and a completion that comes later changes nothing,
/// so the song is not found. What is left of the file has to go, unless an entry
/// of another song keeps a file of that name, which none does where every entry
/// keeps a file of its own song.
pub proof fn lemma_late_completion_is_ignored(v: CacheView, song_id: u64, extension: Seq<char>, written: Option<u64>)
    requires
        v.wf(),
        !is_active(v.active, cache_file_name(song_id, extension)),
    ensures
        ({
            let download = DownloadView::started(song_id, extension);
            let reserved = v.reserving(song_id, extension);
            let (given_up, state, remove) = reserved.releasing(download.file_name, download.state);
            let (after, finished) = given_up.finishing(DownloadView { state, ..download }, written);
            &&& remove == !is_retained(without_entry(v.entries, song_id), download.file_name)
            &&& names_are_own(v.entries) ==> remove
            &&& given_up.active == v.active
            &&& given_up.entries == without_entry(v.entries, song_id)
            &&& after == given_up
            &&& finished == (DownloadView { state, ..download })
            &&& !has_entry(after.entries, song_id)
        }),
{
    let name = cache_file_name(song_id, extension);
    let reserved = v.reserving(song_id, extension);
    lemma_reserved(v, song_id, extension);
    lemma_name_is_own(song_id, extension);
    if names_are_own(v.entries) && is_retained(reserved.entries, name) {
        lemma_own_without(v.entries, song_id);
        let i = choose|i: int| 0 <= i < reserved.entries.len() && (#[trigger] reserved.entries[i]).file_name == name;
        lemma_names_tell_songs(song_id, reserved.entries[i].song_id, name);
        lemma_entry_index(reserved.entries, song_id);
    }
}

/// A download that is completed while it is held puts the song into the cache,
/// under the length of its file, and the song stays there when entries are
/// evicted. Completing it again changes nothing.
pub proof fn lemma_completion_registers_once(
    v: CacheView,
    song_id: u64,
    extension: Seq<char>,
    size: u64,
    again: Option<u64>,
)
    requires
        v.wf(),
        !is_active(v.active, cache_file_name(song_id, extension)),
        size > 0,
    ensures
        ({
            let download = DownloadView::started(song_id, extension);
            let reserved = v.reserving(song_id, extension);
            let (after, finished) = reserved.finishing(download, Some(size));
            let entry = download.entry_of(reserved, size as nat);
            &&& finished == (DownloadView { state: CompletionState::Complete, ..download })
            &&& after.entries == without_entry(v.entries, song_id).push(entry)
            &&& after.entries[entry_index(after.entries, song_id)] == entry
            &&& has_entry(after.entries, song_id)
            &&& after.trimmed().entries.contains(entry)
            &&& after.trimmed().entries[entry_index(after.trimmed().entries, song_id)] == entry
            &&& has_entry(after.trimmed().entries, song_id)
            &&& after.finishing(finished, again) == (after, finished)
            &&& after.trimmed().finishing(finished, again) == (after.trimmed(), finished)
        }),
{
    let download = DownloadView::started(song_id, extension);
    let reserved = v.reserving(song_id, extension);
    let (after, finished) = reserved.finishing(download, Some(size));
    let entry = download.entry_of(reserved, size as nat);
    lemma_reserved(v, song_id, extension);
    lemma_entry_index(reserved.entries, song_id);
    lemma_entry_index(after.entries, song_id);
    let last = after.entries.len() - 1;
    assert(after.entries[last] == entry);
    let at = entry_index(after.entries, song_id);
    if at < last {
        assert(after.entries[at] == reserved.entries[at]);
    }
    lemma_with_entry_wf(reserved, entry);
    lemma_trimmed(after);
    let trimmed = after.trimmed().entries;
    assert(trimmed.contains(after.entries[last]));
    let i = choose|i: int| 0 <= i < trimmed.len() && trimmed[i] == entry;
    lemma_entry_index(trimmed, song_id);
    let first = entry_index(trimmed, song_id);
    if first < i {
        assert(trimmed[first].song_id != trimmed[i].song_id);
    }
}

/// A download that was let go before it was complete stays failed: it is no
/// longer pending, which is what completing it takes.
pub proof fn lemma_abandoned_is_final(state: CompletionState)
    ensures
        abandoned(state) != CompletionState::Pending,
        abandoned(abandoned(state)) == abandoned(state),
{
}

/// The extension in a cache file's name is made of one to twelve lower-case
/// letters and digits.
pub proof fn lemma_safe_extension(s: Seq<char>)
    ensures
        0 < safe_extension_of(s).len() <= 12,
        forall|i: int|
            0 <= i < safe_extension_of(s).len() ==> ('0' <= #[trigger] safe_extension_of(s)[i] <= '9') || ('a'
                <= safe_extension_of(s)[i] <= 'z'),
{
    reveal_strlit("audio");
    lemma_plain(s);
}

proof fn lemma_plain(s: Seq<char>)
    ensures
        forall|i: int|
            0 <= i < plain_of(s).len() ==> ('0' <= #[trigger] plain_of(s)[i] <= '9') || ('a' <= plain_of(s)[i]
                <= 'z'),
    decreases s.len(),
{
    if s.len() > 0 {
        let t = plain_of(s.drop_last());
        lemma_plain(s.drop_last());
        let c = s.last();
        assert('A' <= c <= 'Z' ==> 'a' <= ascii_lower(c) <= 'z');
        assert forall|i: int| 0 <= i < plain_of(s).len() implies ('0' <= #[trigger] plain_of(s)[i] <= '9') || ('a'
            <= plain_of(s)[i] <= 'z') by {
            if i < t.len() {
                assert(plain_of(s)[i] == t[i]);
            }
        }
    }
}

// What a look-up and a restart leave.

/// A song that is found with the length that its entry has is now the one
/// that was used last, and its file is in use; one whose file is gone or has
/// another length leaves the cache; nothing else changes.
pub proof fn lemma_looked_up(v: CacheView, i: int, found: Option<u64>, other: u64)
    requires
        v.wf(),
        0 <= i < v.entries.len(),
        v.entries[i].size <= u64::MAX,
        other != v.entries[i].song_id,
    ensures
        found == Some(v.entries[i].size as u64) ==> {
            let after = v.after_lookup(v.entries[i].song_id, found);
            &&& after.entries.len() == v.entries.len()
            &&& after.entries[i].song_id == v.entries[i].song_id
            &&& after.entries[i].file_name == v.entries[i].file_name
            &&& after.entries[i].extension == v.entries[i].extension
            &&& after.entries[i].size == v.entries[i].size
            &&& after.entries[i].last_accessed == after.access_clock
            &&& v.access_clock < u64::MAX ==> after.access_clock == v.access_clock + 1
            &&& after.active == acquired(v.active, v.entries[i].file_name)
            &&& after.max_bytes == v.max_bytes
            &&& forall|k: int| 0 <= k < v.entries.len() && k != i ==> after.entries[k] == #[trigger] v.entries[k]
        },
        found != Some(v.entries[i].size as u64) ==> {
            let after = v.after_lookup(v.entries[i].song_id, found);
            &&& after.entries == v.entries.remove(i)
            &&& after.active == v.active
            &&& after.access_clock == v.access_clock
            &&& after.max_bytes == v.max_bytes
        },
        (forall|k: int| 0 <= k < v.entries.len() ==> (#[trigger] v.entries[k]).song_id != other) ==> v.after_lookup(
            other,
            found,
        ) == v,
{
    let song_id = v.entries[i].song_id;
    lemma_entry_index(v.entries, song_id);
    lemma_entry_index(v.entries, other);
    assert(entry_index(v.entries, song_id) == i) by {
        let k = entry_index(v.entries, song_id);
        if k < i {
            assert(v.entries[k].song_id == v.entries[i].song_id);
        }
    }
}

/// After a restart the cache has the entries whose files still have their
/// length, and no others.
pub proof fn lemma_restored(entries: Seq<EntryView>, sizes: Seq<Option<u64>>, entry: EntryView)
    requires
        entries.len() <= sizes.len(),
    ensures
        found_entries(entries, sizes).contains(entry) <==> exists|i: int|
            0 <= i < entries.len() && #[trigger] entries[i] == entry && sizes[i] == Some(entry.size as u64),
    decreases entries.len(),
{
    let kept = found_entries(entries, sizes);
    if entries.len() > 0 {
        let rest = entries.drop_last();
        let before = found_entries(rest, sizes);
        lemma_restored(rest, sizes, entry);
        let n = entries.len() - 1;
        if kept.contains(entry) {
            let k = choose|k: int| 0 <= k < kept.len() && kept[k] == entry;
            if k < before.len() {
                assert(before[k] == entry);
                let i = choose|i: int|
                    0 <= i < rest.len() && #[trigger] rest[i] == entry && sizes[i] == Some(entry.size as u64);
                assert(entries[i] == entry);
            } else {
                assert(entries[n] == entry);
            }
        }
        if exists|i: int|
            0 <= i < entries.len() && #[trigger] entries[i] == entry && sizes[i] == Some(entry.size as u64) {
            let i = choose|i: int|
                0 <= i < entries.len() && #[trigger] entries[i] == entry && sizes[i] == Some(entry.size as u64);
            if i < n {
                assert(rest[i] == entry);
                let k = choose|k: int| 0 <= k < before.len() && before[k] == entry;
                assert(kept[k] == entry);
            } else {
                assert(kept[before.len() as int] == entry);
            }
        }
    }
}

/// A reservation takes the song out of the cache and makes the file of its
/// name the reservation's alone; other songs and files are left as they are.
pub proof fn lemma_reservation(v: CacheView, song_id: u64, extension: Seq<char>, i: int)
    requires
        v.wf(),
        0 <= i < v.entries.len(),
    ensures
        v.reserving(song_id, extension).active == v.active.push((cache_file_name(song_id, extension), 1)),
        v.reserving(song_id, extension).max_bytes == v.max_bytes,
        v.reserving(song_id, extension).access_clock == v.access_clock,
        v.entries[i].song_id == song_id ==> v.reserving(song_id, extension).entries == v.entries.remove(i),
        v.entries[i].song_id != song_id ==> v.reserving(song_id, extension).entries.contains(v.entries[i]),
{
    lemma_entry_index(v.entries, song_id);
    let k = entry_index(v.entries, song_id);
    let left = v.reserving(song_id, extension).entries;
    if v.entries[i].song_id == song_id {
        if k < i {
            assert(v.entries[k].song_id == v.entries[i].song_id);
        }
    } else if k < v.entries.len() {
        if i < k {
            assert(left[i] == v.entries[i]);
        } else {
            assert(left[i - 1] == v.entries[i]);
        }
    } else {
        assert(left[i] == v.entries[i]);
    }
}

/// The bytes in use are those of all entries together, in whatever order.
pub proof fn lemma_bytes_used(entries: Seq<EntryView>, i: int)
    requires
        0 <= i < entries.len(),
    ensures
        total_size(Seq::empty()) == 0,
        total_size(entries) == total_size(entries.remove(i)) + entries[i].size,
{
    lemma_total_remove(entries, i);
}

} // verus!
