//! What is played, what comes after it, and the lyrics that go with it.

use vstd::prelude::*;

use crate::database::PlayOrigin;
use crate::lyrics::{Lyrics, LyricsView};
use crate::ncm_core::client::random_number;
use crate::text::text_option;
use crate::tui::app::{successor, App, AppView, PlaybackView};
use crate::tui::command::{Command, CommandInfo};
use crate::tui::routes::{mode_label, next_mode, Focus, PlayMode};
use crate::tui::rows::{copy_rows, Content, ContentInfo, LyricsInfo, LyricsState, RowInfo, TrackRow};

verus! {

/// The track after the one at `index` when that has ended. `pick` is the choice
/// among the other tracks.
pub open spec fn successor_of(mode: PlayMode, index: nat, count: nat, pick: nat) -> Option<nat> {
    match mode {
        PlayMode::RepeatOne => Some(index),
        PlayMode::Sequential => if index + 1 < count {
            Some(index + 1)
        } else {
            None
        },
        PlayMode::RepeatAll => if count > 0 {
            Some((index + 1) % count)
        } else {
            None
        },
        PlayMode::Shuffle => if count > 1 {
            Some(
                if pick >= index {
                    pick + 1
                } else {
                    pick
                },
            )
        } else if count == 1 {
            Some(0)
        } else {
            None
        },
    }
}

/// The track after the one at `index` of `count` tracks, by the mode.
pub fn queue_successor(mode: PlayMode, index: usize, count: usize, pick: usize) -> (r: Option<usize>)
    requires
        index < count,
        count > 1 ==> pick < count - 1,
    ensures
        match r {
            Some(next) => successor_of(mode, index as nat, count as nat, pick as nat) == Some(next as nat),
            None => successor_of(mode, index as nat, count as nat, pick as nat) is None,
        },
        r is Some ==> r->0 < count,
{
    match mode {
        PlayMode::RepeatOne => Some(index),
        PlayMode::Sequential => if index < count - 1 {
            Some(index + 1)
        } else {
            None
        },
        PlayMode::RepeatAll => if index < count - 1 {
            proof {
                vstd::arithmetic::div_mod::lemma_small_mod((index + 1) as nat, count as nat);
            }
            Some(index + 1)
        } else {
            proof {
                vstd::arithmetic::div_mod::lemma_mod_self_0(count as int);
            }
            Some(0)
        },
        PlayMode::Shuffle => if count > 1 {
            Some(
                if pick >= index {
                    pick + 1
                } else {
                    pick
                },
            )
        } else {
            Some(0)
        },
    }
}

/// Whether chance can let a track follow the one at `index`.
pub open spec fn can_follow(index: nat, count: nat, next: nat) -> bool {
    exists|pick: nat|
        pick < count - 1 && #[trigger] successor_of(PlayMode::Shuffle, index, count, pick) == Some(next)
}

/// What comes after a track is a track of the queue. In order, the queue is
/// played to its end; repeating it goes on from the start; by chance it is never
/// the same track, and every other one can come.
pub proof fn lemma_queue_successor(index: nat, count: nat, pick: nat)
    requires
        index < count,
        count > 1 ==> pick < count - 1,
    ensures
        forall|mode: PlayMode|
            (#[trigger] successor_of(mode, index, count, pick)) is Some ==> successor_of(mode, index, count, pick)->0 < count,
        successor_of(PlayMode::Sequential, index, count, pick) is None <==> index == count - 1,
        successor_of(PlayMode::RepeatAll, (count - 1) as nat, count, pick) == Some(0nat),
        count > 1 ==> successor_of(PlayMode::Shuffle, index, count, pick) != Some(index),
        count > 1 ==> forall|next: nat| next < count && next != index ==> #[trigger] can_follow(index, count, next),
{
    vstd::arithmetic::div_mod::lemma_mod_bound((index + 1) as int, count as int);
    vstd::arithmetic::div_mod::lemma_mod_self_0(count as int);
    if count > 1 {
        assert forall|next: nat| next < count && next != index implies #[trigger] can_follow(index, count, next) by {
            let choice = if next > index { (next - 1) as nat } else { next };
            assert(successor_of(PlayMode::Shuffle, index, count, choice) == Some(next));
        }
    }
}

/// A position that is moved, but not below the first.
pub open spec fn moved(index: nat, delta: int) -> nat {
    if index + delta < 0 {
        0
    } else {
        (index + delta) as nat
    }
}

/// Moves a position; beyond the last machine number it stays there.
pub fn shifted(index: usize, delta: isize) -> (r: usize)
    ensures
        r == if moved(index as nat, delta as int) <= usize::MAX {
            moved(index as nat, delta as int)
        } else {
            usize::MAX as nat
        },
{
    if delta >= 0 {
        index.saturating_add(delta as usize)
    } else if delta == isize::MIN {
        index.saturating_sub((isize::MAX as usize) + 1)
    } else {
        index.saturating_sub((-delta) as usize)
    }
}

/// Where a track that is played comes from: from its file, if it has one.
pub open spec fn origin_of(track: RowInfo) -> PlayOrigin {
    if track.path is Some {
        PlayOrigin::Local
    } else {
        PlayOrigin::Stream
    }
}

impl AppView {
    /// A file is played, if there is an audio output; a stream that was being
    /// opened is given up.
    #[verifier::opaque]
    pub open spec fn file_started(self, track: RowInfo) -> AppView {
        let ready = AppView {
            playback: PlaybackView { stream_generation: successor(self.playback.stream_generation), ..self.playback },
            ..self.sent(CommandInfo::AbortStream)
        };
        if self.playback.has_player {
            ready.sent(CommandInfo::PlayFile(track))
        } else {
            ready.said("音频输出不可用"@)
        }
    }

    /// A stream is opened, if the service has the track; one that was being
    /// opened is given up.
    #[verifier::opaque]
    pub open spec fn stream_started(self, track: RowInfo) -> AppView {
        let generation = successor(self.playback.stream_generation);
        let ready = AppView {
            playback: PlaybackView { stream_generation: generation, ..self.playback },
            ..self.sent(CommandInfo::AbortStream)
        };
        match track.ncm_id {
            Some(song_id) => ready.said("正在连接 "@ + track.title + "…"@).sent(
                CommandInfo::OpenStream { generation, song_id, track },
            ),
            None => ready.said("找不到本地文件："@ + track.title),
        }
    }

    /// A track is to be played: from its file, if one is known.
    #[verifier::opaque]
    pub open spec fn play_started(self, track: RowInfo) -> AppView {
        match track.path {
            Some(_) => self.file_started(track),
            None => self.sent(CommandInfo::LookUpPath(track)),
        }
    }

    /// The library has answered where the file of a track is.
    pub open spec fn path_found(self, track: RowInfo, path: Option<Seq<char>>) -> AppView {
        match path {
            Some(_) => self.file_started(RowInfo { path, ..track }),
            None => self.stream_started(track),
        }
    }

    /// The stream of a track is played, if it is the one that is awaited.
    pub open spec fn stream_ready(self, generation: u64, track: RowInfo, result: Result<(), Seq<char>>) -> AppView {
        if generation != self.playback.stream_generation {
            self
        } else {
            match result {
                Ok(_) => if self.playback.has_player {
                    self.sent(CommandInfo::PlayStream { generation, track })
                } else {
                    self.said("音频输出不可用"@)
                },
                Err(message) => self.said(message),
            }
        }
    }

    /// The lyrics of a track are loaded; those of another are given up.
    pub open spec fn lyrics_requested(self, track: RowInfo) -> AppView {
        AppView {
            playback: PlaybackView { lyrics: LyricsInfo::Loading(track.id), ..self.playback },
            ..self.sent(CommandInfo::AbortLyrics)
        }.sent(CommandInfo::LoadLyrics(track))
    }

    /// The player has begun to play a track, or has failed to.
    pub open spec fn playback_begun(self, track: RowInfo, result: Result<(), Seq<char>>) -> AppView {
        match result {
            Ok(_) => AppView {
                playback: PlaybackView {
                    current: Some(track.id),
                    current_track: Some(track),
                    completion_latched: false,
                    ..self.playback
                },
                ..self
            }.sent(CommandInfo::RecordPlay { track: track.key(), origin: origin_of(track) }).lyrics_requested(track).said(seq![]),
            Err(message) => self.said(message),
        }
    }

    /// The tracks of the pane in focus, and the selected one.
    pub open spec fn focused_tracks(self) -> Option<(Seq<RowInfo>, nat)> {
        match self.focus {
            Focus::Content => match self.pane.content {
                ContentInfo::Tracks(rows) => Some((rows, self.pane.selected)),
                _ => None,
            },
            Focus::Column(index) => if index < self.columns.len() {
                match self.columns[index as int].content {
                    ContentInfo::Tracks(rows) => Some((rows, self.columns[index as int].selected)),
                    _ => None,
                }
            } else {
                None
            },
            _ => None,
        }
    }

    /// Where nothing is queued, the tracks of the pane in focus are.
    #[verifier::opaque]
    pub open spec fn queue_filled(self) -> AppView {
        if self.playback.play_queue.len() > 0 {
            self
        } else {
            match self.focused_tracks() {
                Some((rows, selected)) => AppView {
                    playback: PlaybackView {
                        play_queue: rows,
                        queue_index: if rows.len() == 0 {
                            None
                        } else if selected < rows.len() {
                            Some(selected as usize)
                        } else {
                            Some((rows.len() - 1) as usize)
                        },
                        ..self.playback
                    },
                    ..self
                },
                None => self,
            }
        }
    }

    /// The track at a position of the queue is played.
    #[verifier::opaque]
    pub open spec fn queue_played(self, index: nat) -> AppView {
        AppView {
            playback: PlaybackView { queue_index: Some(index as usize), ..self.playback },
            ..self
        }.play_started(self.playback.play_queue[index as int])
    }

    /// Another track of the queue is played, if there is one.
    #[verifier::opaque]
    pub open spec fn track_skipped(self, delta: int) -> AppView {
        let filled = self.queue_filled();
        match filled.playback.queue_index {
            Some(index) => {
                let next = moved(index as nat, delta);
                if next < filled.playback.play_queue.len() {
                    filled.queue_played(next)
                } else {
                    filled
                }
            },
            None => filled,
        }
    }

    /// A track has come to its end, which counts once.
    #[verifier::opaque]
    pub open spec fn completed(self, pick: nat) -> AppView {
        if self.playback.completion_latched {
            self
        } else {
            let latched = AppView { playback: PlaybackView { completion_latched: true, ..self.playback }, ..self };
            match self.playback.queue_index {
                Some(index) => match successor_of(
                    self.playback.play_mode,
                    index as nat,
                    self.playback.play_queue.len(),
                    pick,
                ) {
                    Some(next) => latched.queue_played(next),
                    None => latched,
                },
                None => latched,
            }
        }
    }

    #[verifier::opaque]
    pub open spec fn mode_cycled(self) -> AppView {
        let mode = next_mode(self.playback.play_mode);
        AppView { playback: PlaybackView { play_mode: mode, ..self.playback }, ..self }.said("播放模式："@ + mode_label(mode))
    }
}

pub open spec fn unit_result(result: Result<(), String>) -> Result<(), Seq<char>> {
    match result {
        Ok(_) => Ok(()),
        Err(message) => Err(message@),
    }
}

impl App {
    fn start_playback(&mut self, track: TrackRow)
        ensures
            old(self)@.wf() ==> final(self)@.wf(),
            final(self)@ == old(self)@.file_started(track@),
    {
        proof {
            reveal(AppView::file_started);
        }
        self.send(Command::AbortStream);
        self.playback.stream_generation = self.playback.stream_generation.wrapping_add(1);
        if self.playback.has_player {
            self.send(Command::PlayFile(track));
        } else {
            self.say("音频输出不可用");
        }
    }

    fn start_stream(&mut self, track: TrackRow)
        ensures
            old(self)@.wf() ==> final(self)@.wf(),
            final(self)@ == old(self)@.stream_started(track@),
    {
        proof {
            reveal(AppView::stream_started);
        }
        self.send(Command::AbortStream);
        self.playback.stream_generation = self.playback.stream_generation.wrapping_add(1);
        let generation: u64 = self.playback.stream_generation;
        match track.ncm_id {
            Some(song_id) => {
                let mut status: String = "正在连接 ".to_owned();
                status.append(track.title.as_str());
                status.append("…");
                self.status = status;
                self.send(Command::OpenStream { generation, song_id, track });
            },
            None => {
                let mut status: String = "找不到本地文件：".to_owned();
                status.append(track.title.as_str());
                self.status = status;
            },
        }
    }

    /// Plays a track: from its file, if one is known.
    pub fn play(&mut self, track: TrackRow)
        ensures
            old(self)@.wf() ==> final(self)@.wf(),
            final(self)@ == old(self)@.play_started(track@),
    {
        proof {
            reveal(AppView::play_started);
        }
        if track.path.is_some() {
            self.start_playback(track);
        } else {
            self.send(Command::LookUpPath(track));
        }
    }

    /// Takes the library's answer where the file of a track is.
    pub fn path_looked_up(&mut self, track: TrackRow, path: Option<String>)
        ensures
            old(self)@.wf() ==> final(self)@.wf(),
            final(self)@ == old(self)@.path_found(track@, text_option(path)),
    {
        if path.is_some() {
            let ghost from = track@;
            let found = TrackRow { path, ..track };
            proof {
                assert(found@ == (RowInfo { path: text_option(path), ..from }));
            }
            self.start_playback(found);
        } else {
            self.start_stream(track);
        }
    }

    /// Plays a stream, if it is the one that is awaited.
    pub(crate) fn start_stream_playback(&mut self, generation: u64, track: TrackRow, result: Result<(), String>)
        ensures
            old(self)@.wf() ==> final(self)@.wf(),
            final(self)@ == old(self)@.stream_ready(generation, track@, unit_result(result)),
    {
        if generation != self.playback.stream_generation {
            return;
        }
        match result {
            Ok(_) => {
                if self.playback.has_player {
                    self.send(Command::PlayStream { generation, track });
                } else {
                    self.say("音频输出不可用");
                }
            },
            Err(message) => {
                self.status = message;
            },
        }
    }

    fn load_lyrics(&mut self, track: TrackRow)
        ensures
            old(self)@.wf() ==> final(self)@.wf(),
            final(self)@ == old(self)@.lyrics_requested(track@),
    {
        self.send(Command::AbortLyrics);
        self.playback.lyrics = LyricsState::Loading(track.id);
        self.send(Command::LoadLyrics(track));
    }

    /// Takes the player's answer to a track that it was given.
    pub fn playback_started(&mut self, track: TrackRow, result: Result<(), String>)
        ensures
            old(self)@.wf() ==> final(self)@.wf(),
            final(self)@ == old(self)@.playback_begun(track@, unit_result(result)),
    {
        match result {
            Ok(_) => {
                let id: u64 = track.id;
                self.playback.current = Some(id);
                self.playback.current_track = Some(track.copy());
                self.playback.completion_latched = false;
                let origin = if track.path.is_some() {
                    PlayOrigin::Local
                } else {
                    PlayOrigin::Stream
                };
                self.send(Command::RecordPlay { track: track.key(), origin });
                self.load_lyrics(track);
                self.status = String::new();
                proof {
                    assert(self.status@ =~= seq![]);
                }
            },
            Err(message) => {
                self.status = message;
            },
        }
    }

    fn fill_queue(&mut self)
        ensures
            old(self)@.wf() ==> final(self)@.wf(),
            final(self)@ == old(self)@.queue_filled(),
    {
        proof {
            reveal(AppView::queue_filled);
        }
        if self.playback.play_queue.len() > 0 {
            return;
        }
        let found: Option<(Vec<TrackRow>, usize)> = match self.focus {
            Focus::Content => match &self.pane.content {
                Content::Tracks(rows) => Some((copy_rows(rows), self.pane.selected)),
                _ => None,
            },
            Focus::Column(index) => if index < self.columns.len() {
                let column = &self.columns[index];
                match &column.content {
                    Content::Tracks(rows) => Some((copy_rows(rows), column.selected)),
                    _ => None,
                }
            } else {
                None
            },
            _ => None,
        };
        proof {
            if let Focus::Column(index) = self.focus {
                if index < self.columns@.len() {
                    assert(self@.columns[index as int] == self.columns@[index as int]@);
                }
            }
        }
        if let Some((rows, selected)) = found {
            let count: usize = rows.len();
            self.playback.queue_index = if count == 0 {
                None
            } else if selected < count {
                Some(selected)
            } else {
                Some(count - 1)
            };
            self.playback.play_queue = rows;
        }
    }

    fn play_queued(&mut self, index: usize)
        requires
            index < old(self)@.playback.play_queue.len(),
        ensures
            old(self)@.wf() ==> final(self)@.wf(),
            final(self)@ == old(self)@.queue_played(index as nat),
    {
        proof {
            reveal(AppView::queue_played);
        }
        let track = self.playback.play_queue[index].copy();
        proof {
            assert(self@.playback.play_queue[index as int] == track@);
        }
        self.playback.queue_index = Some(index);
        self.play(track);
    }

    /// Goes on, or back, in the queue.
    pub fn next_track(&mut self, delta: isize)
        ensures
            old(self)@.wf() ==> final(self)@.wf(),
            final(self)@ == old(self)@.track_skipped(delta as int),
    {
        proof {
            reveal(AppView::track_skipped);
        }
        self.fill_queue();
        match self.playback.queue_index {
            Some(index) => {
                let next: usize = shifted(index, delta);
                if next < self.playback.play_queue.len() {
                    self.play_queued(next);
                }
            },
            None => {},
        }
    }

    /// Goes on in the queue after a track has come to its end; `pick` is the
    /// choice among the other tracks.
    pub fn complete_with(&mut self, pick: usize)
        requires
            old(self)@.wf(),
            old(self)@.playback.play_queue.len() > 1 ==> pick < old(self)@.playback.play_queue.len() - 1,
        ensures
            old(self)@.wf() ==> final(self)@.wf(),
            final(self)@ == old(self)@.completed(pick as nat),
    {
        proof {
            reveal(AppView::completed);
        }
        if self.playback.completion_latched {
            return;
        }
        self.playback.completion_latched = true;
        let index: usize = match self.playback.queue_index {
            Some(index) => index,
            None => {
                return;
            },
        };
        let count: usize = self.playback.play_queue.len();
        if let Some(next) = queue_successor(self.playback.play_mode, index, count, pick) {
            self.play_queued(next);
        }
    }

    /// Goes on in the queue after a track has come to its end.
    pub fn handle_completion(&mut self)
        requires
            old(self)@.wf(),
        ensures
            old(self)@.wf() ==> final(self)@.wf(),
            exists|pick: nat|
                (old(self)@.playback.play_queue.len() > 1 ==> pick < old(self)@.playback.play_queue.len() - 1)
                    && final(self)@ == #[trigger] old(self)@.completed(pick),
    {
        proof {
            reveal(AppView::completed);
        }
        let count: usize = self.playback.play_queue.len();
        let pick: usize = if count > 1 {
            random_number(0, (count - 1) as u64) as usize
        } else {
            0
        };
        self.complete_with(pick);
        proof {
            assert(self@ == old(self)@.completed(pick as nat));
        }
    }

    pub fn cycle_play_mode(&mut self)
        ensures
            old(self)@.wf() ==> final(self)@.wf(),
            final(self)@ == old(self)@.mode_cycled(),
    {
        proof {
            reveal(AppView::mode_cycled);
        }
        self.playback.play_mode = self.playback.play_mode.next();
        let mut status: String = "播放模式：".to_owned();
        status.append(self.playback.play_mode.label());
        self.status = status;
    }
}

/// Whether the lyrics beside a file suffice.
pub open spec fn suffices(local: Option<LyricsView>) -> bool {
    local is Some && local->0.original.len() > 0
}

pub open spec fn lyrics_option(lyrics: Option<Lyrics>) -> Option<LyricsView> {
    match lyrics {
        Some(value) => Some(value@),
        None => None,
    }
}

pub fn local_lyrics_suffice(local: &Option<Lyrics>) -> (r: bool)
    ensures
        r == suffices(lyrics_option(*local)),
{
    match local {
        Some(lyrics) => !lyrics.is_empty(),
        None => false,
    }
}

/// The song whose lyrics the service is asked for: that of a track whose own
/// lyrics do not suffice, if the service has it.
pub fn online_lyrics(local: &Option<Lyrics>, ncm_id: Option<u64>) -> (r: Option<u64>)
    ensures
        r == if suffices(lyrics_option(*local)) {
            None
        } else {
            ncm_id
        },
{
    if local_lyrics_suffice(local) {
        None
    } else {
        ncm_id
    }
}

/// No lyrics.
pub open spec fn no_lyrics() -> LyricsView {
    LyricsView { original: seq![], translated: seq![] }
}

/// The lyrics of a track: those beside its file if they suffice, else those of
/// the service. Of a track without a file it is said why there are none.
pub open spec fn lyrics_chosen(
    local: Option<LyricsView>,
    has_path: bool,
    online: Result<LyricsView, Seq<char>>,
) -> Result<LyricsView, Seq<char>> {
    if suffices(local) {
        Ok(local->0)
    } else {
        match online {
            Ok(lyrics) => if lyrics.original.len() > 0 {
                Ok(lyrics)
            } else {
                match local {
                    Some(found) => Ok(found),
                    None => Ok(no_lyrics()),
                }
            },
            Err(message) => if has_path {
                Ok(no_lyrics())
            } else {
                Err(message)
            },
        }
    }
}

pub open spec fn lyrics_result(result: Result<Lyrics, String>) -> Result<LyricsView, Seq<char>> {
    match result {
        Ok(lyrics) => Ok(lyrics@),
        Err(message) => Err(message@),
    }
}

fn empty_lyrics() -> (r: Lyrics)
    ensures
        r@ == no_lyrics(),
{
    let lyrics = Lyrics { original: Vec::new(), translated: Vec::new() };
    proof {
        assert(lyrics@.original =~= seq![]);
        assert(lyrics@.translated =~= seq![]);
    }
    lyrics
}

pub fn choose_lyrics(local: Option<Lyrics>, has_path: bool, online: Result<Lyrics, String>) -> (r: Result<Lyrics, String>)
    ensures
        lyrics_result(r) == lyrics_chosen(lyrics_option(local), has_path, lyrics_result(online)),
{
    let enough: bool = local_lyrics_suffice(&local);
    match local {
        Some(found) => {
            if enough {
                return Ok(found);
            }
            match online {
                Ok(lyrics) => if lyrics.is_empty() {
                    Ok(found)
                } else {
                    Ok(lyrics)
                },
                Err(message) => if has_path {
                    Ok(empty_lyrics())
                } else {
                    Err(message)
                },
            }
        },
        None => match online {
            Ok(lyrics) => if lyrics.is_empty() {
                Ok(empty_lyrics())
            } else {
                Ok(lyrics)
            },
            Err(message) => if has_path {
                Ok(empty_lyrics())
            } else {
                Err(message)
            },
        },
    }
}

// Laws of the queue.

/// When a track ends: in order, the one right behind it follows, and none
/// behind the last; repeating one, it follows itself; repeating all, the one
/// right behind it follows, and the first behind the last; by chance, every
/// choice leads to another track of the queue, and different choices to
/// different ones, unless there is only one track.
pub proof fn lemma_what_follows(index: nat, count: nat, pick: nat, other: nat)
    requires
        index < count,
    ensures
        index + 1 < count ==> successor_of(PlayMode::Sequential, index, count, pick) == Some(index + 1),
        index + 1 == count ==> successor_of(PlayMode::Sequential, index, count, pick) == None::<nat>,
        successor_of(PlayMode::RepeatOne, index, count, pick) == Some(index),
        index + 1 < count ==> successor_of(PlayMode::RepeatAll, index, count, pick) == Some(index + 1),
        index + 1 == count ==> successor_of(PlayMode::RepeatAll, index, count, pick) == Some(0nat),
        count == 1 ==> successor_of(PlayMode::Shuffle, index, count, pick) == Some(0nat),
        count > 1 && pick < count - 1 ==> {
            let next = successor_of(PlayMode::Shuffle, index, count, pick);
            next is Some && next->0 < count && next->0 != index
        },
        count > 1 && pick < other < count - 1 ==> successor_of(PlayMode::Shuffle, index, count, pick)
            != successor_of(PlayMode::Shuffle, index, count, other),
{
    if index + 1 < count {
        vstd::arithmetic::div_mod::lemma_small_mod(index + 1, count);
    } else {
        vstd::arithmetic::div_mod::lemma_mod_self_0(count as int);
    }
}

/// The track that plays after a number of others when all are repeated.
pub open spec fn after_tracks(index: nat, count: nat, steps: nat) -> nat
    decreases steps,
{
    if steps == 0 {
        index
    } else {
        successor_of(PlayMode::RepeatAll, after_tracks(index, count, (steps - 1) as nat), count, 0)->0
    }
}

/// Repeating all tracks comes to every track of the queue, in order: so many
/// tracks behind another is the one so many places on, from the start again
/// behind the last, and after as many tracks as there are the same one plays.
pub proof fn lemma_all_tracks_repeat(index: nat, count: nat, steps: nat)
    requires
        index < count,
        steps <= count,
    ensures
        index + steps < count ==> after_tracks(index, count, steps) == index + steps,
        index + steps >= count ==> after_tracks(index, count, steps) == index + steps - count,
    decreases steps,
{
    if steps > 0 {
        lemma_all_tracks_repeat(index, count, (steps - 1) as nat);
        lemma_what_follows(after_tracks(index, count, (steps - 1) as nat), count, 0, 0);
    }
}

/// A position moves by exactly as much as is asked for, but not before the first.
pub proof fn lemma_moved(index: nat, delta: int)
    ensures
        index + delta >= 0 ==> moved(index, delta) == index + delta,
        index + delta <= 0 ==> moved(index, delta) == 0,
{
}

/// What is asked for so that a track is played, where there is an audio output:
/// a track with a file is played from it, and of any other the library is asked
/// for the file; if it has none, the song is streamed.
pub proof fn lemma_what_plays(app: AppView, track: RowInfo, path: Option<Seq<char>>)
    requires
        app.playback.has_player,
    ensures
        track.path is Some ==> app.play_started(track).commands == app.commands.push(CommandInfo::AbortStream).push(
            CommandInfo::PlayFile(track),
        ),
        track.path is None ==> app.play_started(track).commands == app.commands.push(CommandInfo::LookUpPath(track)),
        path is Some ==> app.path_found(track, path).commands == app.commands.push(CommandInfo::AbortStream).push(
            CommandInfo::PlayFile(RowInfo { path, ..track }),
        ),
        path is None && track.ncm_id is Some ==> app.path_found(track, path).commands == app.commands.push(
            CommandInfo::AbortStream,
        ).push(
            CommandInfo::OpenStream {
                generation: app.path_found(track, path).playback.stream_generation,
                song_id: track.ncm_id->0,
                track,
            },
        ) && app.path_found(track, path).playback.stream_generation != app.playback.stream_generation,
        path is None && track.ncm_id is None ==> app.path_found(track, path).commands == app.commands.push(
            CommandInfo::AbortStream,
        ),
        app.play_started(track).playback.play_queue == app.playback.play_queue,
        app.play_started(track).playback.queue_index == app.playback.queue_index,
{
    reveal(AppView::play_started);
    reveal(AppView::file_started);
    reveal(AppView::stream_started);
}

/// A stream that is ready is played if it is the latest that was asked for, and
/// any other is passed over.
pub proof fn lemma_latest_stream_plays(app: AppView, generation: u64, track: RowInfo)
    requires
        app.playback.has_player,
    ensures
        generation == app.playback.stream_generation ==> app.stream_ready(generation, track, Ok(())).commands
            == app.commands.push(CommandInfo::PlayStream { generation, track }),
        generation != app.playback.stream_generation ==> app.stream_ready(generation, track, Ok(())) == app,
{
}

/// A track that has begun to play is the current one; its play is recorded, as
/// one of a file or of a stream, its lyrics are asked for, and its end will
/// count again.
pub proof fn lemma_playing_is_recorded(app: AppView, track: RowInfo)
    ensures
        ({
            let after = app.playback_begun(track, Ok(()));
            &&& after.playback.current == Some(track.id)
            &&& after.playback.current_track == Some(track)
            &&& !after.playback.completion_latched
            &&& after.playback.lyrics == LyricsInfo::Loading(track.id)
            &&& after.commands == app.commands.push(
                CommandInfo::RecordPlay {
                    track: track.key(),
                    origin: if track.path is Some {
                        PlayOrigin::Local
                    } else {
                        PlayOrigin::Stream
                    },
                },
            ).push(CommandInfo::AbortLyrics).push(CommandInfo::LoadLyrics(track))
            &&& after.playback.play_queue == app.playback.play_queue
            &&& after.playback.queue_index == app.playback.queue_index
        }),
{
}

/// Skipping goes to the track so many places on or back in the queue, and does
/// nothing where there is none.
pub proof fn lemma_skipping(app: AppView, index: usize, delta: int)
    requires
        app.playback.play_queue.len() > 0,
        app.playback.queue_index == Some(index),
        index < app.playback.play_queue.len() <= usize::MAX,
    ensures
        0 <= index + delta < app.playback.play_queue.len() ==> {
            let after = app.track_skipped(delta);
            let track = app.playback.play_queue[index + delta];
            &&& after.playback.queue_index == Some((index + delta) as usize)
            &&& after.playback.play_queue == app.playback.play_queue
            &&& after.commands == app.play_started(track).commands
        },
        index + delta >= app.playback.play_queue.len() ==> app.track_skipped(delta) == app,
{
    reveal(AppView::track_skipped);
    reveal(AppView::queue_filled);
    reveal(AppView::queue_played);
    reveal(AppView::play_started);
    reveal(AppView::file_started);
}

/// When the track that plays comes to its end, the one that follows it in the
/// play mode is played, once; where none follows nothing is played.
pub proof fn lemma_completion_plays_successor(app: AppView, index: usize, pick: nat)
    requires
        app.playback.queue_index == Some(index),
        index < app.playback.play_queue.len() <= usize::MAX,
        app.playback.play_queue.len() > 1 ==> pick < app.playback.play_queue.len() - 1,
        !app.playback.completion_latched,
    ensures
        ({
            let after = app.completed(pick);
            &&& after.playback.completion_latched
            &&& after.completed(pick) == after
            &&& match successor_of(
                app.playback.play_mode,
                index as nat,
                app.playback.play_queue.len(),
                pick,
            ) {
                Some(next) => after.playback.queue_index == Some(next as usize) && after.commands == app.play_started(
                    app.playback.play_queue[next as int],
                ).commands,
                None => after.playback.queue_index == Some(index) && after.commands == app.commands,
            }
        }),
{
    reveal(AppView::completed);
    reveal(AppView::queue_played);
    reveal(AppView::play_started);
    reveal(AppView::file_started);
    lemma_queue_successor(index as nat, app.playback.play_queue.len(), pick);
}

/// Where nothing is queued, the tracks of the pane in focus become the queue,
/// with the selected one to be played.
pub proof fn lemma_pane_becomes_queue(app: AppView, rows: Seq<RowInfo>)
    requires
        app.playback.play_queue.len() == 0,
        app.focus == Focus::Content,
        app.pane.content == ContentInfo::Tracks(rows),
        app.pane.selected < rows.len() <= usize::MAX,
    ensures
        app.queue_filled().playback.play_queue == rows,
        app.queue_filled().playback.queue_index == Some(app.pane.selected as usize),
{
    reveal(AppView::queue_filled);
}

/// Lyrics of a file that hold lines are taken; else those of the service, if
/// they hold lines; where neither does, there are none, and only for a track
/// without a file is it said why.
pub proof fn lemma_lyrics_chosen(
    local: Option<LyricsView>,
    has_path: bool,
    online: LyricsView,
    message: Seq<char>,
)
    ensures
        local is Some && local->0.original.len() > 0 ==> lyrics_chosen(local, has_path, Ok(online)) == Ok::<
            LyricsView,
            Seq<char>,
        >(local->0) && lyrics_chosen(local, has_path, Err(message)) == Ok::<LyricsView, Seq<char>>(local->0),
        (local is None || local->0.original.len() == 0) && online.original.len() > 0 ==> lyrics_chosen(
            local,
            has_path,
            Ok(online),
        ) == Ok::<LyricsView, Seq<char>>(online),
        (local is None || local->0.original.len() == 0) ==> match lyrics_chosen(local, true, Err(message)) {
            Ok(none) => none.original.len() == 0 && none.translated.len() == 0,
            Err(_) => false,
        },
        (local is None || local->0.original.len() == 0) ==> lyrics_chosen(local, false, Err(message)) == Err::<
            LyricsView,
            Seq<char>,
        >(message),
{
}

/// The play mode is changed to the one that follows it, and said.
pub proof fn lemma_mode_cycled(app: AppView)
    ensures
        app.mode_cycled().playback.play_mode == match app.playback.play_mode {
            PlayMode::Sequential => PlayMode::RepeatOne,
            PlayMode::RepeatOne => PlayMode::RepeatAll,
            PlayMode::RepeatAll => PlayMode::Shuffle,
            PlayMode::Shuffle => PlayMode::Sequential,
        },
        app.mode_cycled().playback.play_queue == app.playback.play_queue,
        app.mode_cycled().commands == app.commands,
{
    reveal(AppView::mode_cycled);
}

} // verus!
