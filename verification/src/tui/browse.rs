//! Moving between the panes and in them, and opening what is selected.

use vstd::prelude::*;

use crate::tui::app::{App, AppView, PlaybackView, PromptView};
use crate::tui::command::{ColumnLoad, Command, CommandInfo};
use crate::tui::input::lemma_ends_are_boundaries;
use crate::tui::layout::{open_room, LyricsRoom};
use crate::tui::playing::{moved, shifted};
use crate::tui::routes::{all_routes, Focus, InputMode, Route};
use crate::tui::rows::{
    album_infos, artist_infos, column_infos, copy_rows, playlist_infos, row_infos, ColumnInfo, Content, ContentInfo,
    RowInfo, TrackRow,
};

verus! {

/// The last pane of the columns: the last column, or the first pane where there
/// is none.
pub open spec fn last_pane(columns: nat) -> Focus {
    if columns > 0 {
        Focus::Column((columns - 1) as usize)
    } else {
        Focus::Content
    }
}

/// The pane behind the columns: the lyrics, or the navigation if they are
/// closed.
pub open spec fn pane_behind(closed: bool) -> Focus {
    if closed {
        Focus::Navigation
    } else {
        Focus::Lyrics
    }
}

/// The pane after another, in the order in which they are reached, with
/// `columns` columns open; closed lyrics are not reached.
pub open spec fn pane_after(focus: Focus, columns: nat, closed: bool) -> Focus {
    match focus {
        Focus::Navigation => Focus::Content,
        Focus::Content => if columns > 0 {
            Focus::Column(0)
        } else {
            pane_behind(closed)
        },
        Focus::Column(index) => if index + 1 < columns {
            Focus::Column((index + 1) as usize)
        } else if index < columns {
            pane_behind(closed)
        } else {
            Focus::Content
        },
        Focus::Lyrics => Focus::Navigation,
    }
}

/// The pane before another.
pub open spec fn pane_before(focus: Focus, columns: nat, closed: bool) -> Focus {
    let last = if closed {
        last_pane(columns)
    } else {
        Focus::Lyrics
    };
    match focus {
        Focus::Navigation => last,
        Focus::Content => Focus::Navigation,
        Focus::Column(index) => if index >= columns {
            last
        } else if index > 0 {
            Focus::Column((index - 1) as usize)
        } else {
            Focus::Content
        },
        Focus::Lyrics => last_pane(columns),
    }
}

/// Whether there is such a pane.
pub open spec fn pane_exists(focus: Focus, columns: nat, closed: bool) -> bool {
    match focus {
        Focus::Column(index) => index < columns,
        Focus::Lyrics => !closed,
        _ => true,
    }
}

/// Going on and going back undo each other, and always lead to a pane that is
/// there.
pub proof fn lemma_focus_order(focus: Focus, columns: nat, closed: bool)
    requires
        columns <= usize::MAX,
        pane_exists(focus, columns, closed),
    ensures
        pane_before(pane_after(focus, columns, closed), columns, closed) == focus,
        pane_after(pane_before(focus, columns, closed), columns, closed) == focus,
        pane_exists(pane_after(focus, columns, closed), columns, closed),
        pane_exists(pane_before(focus, columns, closed), columns, closed),
{
}

/// A position that is moved and stays within `count` rows.
pub open spec fn bounded(index: nat, delta: int, count: nat) -> nat {
    if count == 0 {
        0
    } else if moved(index, delta) < count {
        moved(index, delta)
    } else {
        (count - 1) as nat
    }
}

/// The row after the last but one: the last, if there are rows.
pub open spec fn last_row(count: nat) -> nat {
    if count > 0 {
        (count - 1) as nat
    } else {
        0
    }
}

impl AppView {
    /// A pane that is there: the last column, where a column has been closed.
    pub open spec fn valid(self, focus: Focus) -> Focus {
        match focus {
            Focus::Column(index) => if index < self.columns.len() {
                focus
            } else if self.columns.len() > 0 {
                Focus::Column((self.columns.len() - 1) as usize)
            } else {
                Focus::Content
            },
            _ => focus,
        }
    }

    #[verifier::opaque]
    pub open spec fn focus_moved(self, backwards: bool) -> AppView {
        let focus = if backwards {
            pane_before(self.focus, self.columns.len(), self.hide_lyrics)
        } else {
            pane_after(self.focus, self.columns.len(), self.hide_lyrics)
        };
        AppView { focus, show_lyrics: self.show_lyrics && focus == Focus::Lyrics, ..self }
    }

    /// The room of the lyrics.
    pub open spec fn lyrics_room(self) -> LyricsRoom {
        if self.hide_lyrics {
            LyricsRoom::Closed
        } else {
            open_room(self.show_lyrics)
        }
    }

    /// The lyrics are closed, or opened again. Closed ones do not keep the focus.
    #[verifier::opaque]
    pub open spec fn lyrics_panel_toggled(self) -> AppView {
        let told = self.sent(CommandInfo::SaveLyricsClosed(!self.hide_lyrics));
        if self.hide_lyrics {
            AppView { hide_lyrics: false, ..told }
        } else {
            AppView {
                hide_lyrics: true,
                show_lyrics: false,
                focus: if self.focus == Focus::Lyrics {
                    self.valid(self.previous_focus)
                } else {
                    self.focus
                },
                ..told
            }
        }
    }

    /// The lyrics get the focus and the room, or give both back. Closed ones are
    /// opened.
    #[verifier::opaque]
    pub open spec fn lyrics_toggled(self) -> AppView {
        if self.hide_lyrics {
            AppView {
                previous_focus: self.valid(self.focus),
                focus: Focus::Lyrics,
                show_lyrics: true,
                ..self.lyrics_panel_toggled()
            }
        } else if self.focus == Focus::Lyrics && self.show_lyrics {
            AppView { focus: self.valid(self.previous_focus), show_lyrics: false, ..self }
        } else if self.focus == Focus::Lyrics {
            AppView { show_lyrics: true, ..self }
        } else {
            AppView { previous_focus: self.valid(self.focus), focus: Focus::Lyrics, show_lyrics: true, ..self }
        }
    }

    /// One step back: a column is closed, and the pane to its left gets the
    /// focus.
    #[verifier::opaque]
    pub open spec fn stepped_back(self) -> AppView {
        let back = match self.focus {
            Focus::Lyrics => AppView { show_lyrics: false, focus: self.valid(self.previous_focus), ..self },
            Focus::Column(index) => AppView {
                focus: if index == 0 {
                    Focus::Content
                } else {
                    Focus::Column((index - 1) as usize)
                },
                ..self.columns_cut(index as nat)
            },
            Focus::Content => AppView { focus: Focus::Navigation, ..self },
            Focus::Navigation => self,
        };
        AppView { last_click: None, ..back }
    }

    /// How many rows the pane in focus has.
    pub open spec fn focused_count(self) -> nat {
        match self.focus {
            Focus::Navigation => 14,
            Focus::Content => self.pane.content.count(),
            Focus::Column(index) => if index < self.columns.len() {
                self.columns[index as int].content.count()
            } else {
                0
            },
            Focus::Lyrics => 0,
        }
    }

    /// The selected row of the pane in focus.
    pub open spec fn focused_selection(self) -> nat {
        match self.focus {
            Focus::Navigation => self.nav_selected,
            Focus::Content => self.pane.selected,
            Focus::Column(index) => if index < self.columns.len() {
                self.columns[index as int].selected
            } else {
                0
            },
            Focus::Lyrics => 0,
        }
    }

    /// A row of the pane in focus is selected.
    pub open spec fn row_selected(self, row: nat) -> AppView {
        match self.focus {
            Focus::Navigation => AppView { nav_selected: row, ..self },
            Focus::Content => AppView { pane: crate::tui::app::PaneView { selected: row, ..self.pane }, ..self },
            Focus::Column(index) => self.column_row_selected(index as int, row),
            Focus::Lyrics => self,
        }
    }

    /// A row of a column is selected, if the column is there.
    pub open spec fn column_row_selected(self, index: int, row: nat) -> AppView {
        if 0 <= index < self.columns.len() {
            AppView {
                columns: self.columns.update(index, ColumnInfo { selected: row, ..self.columns[index] }),
                ..self
            }
        } else {
            self
        }
    }

    #[verifier::opaque]
    pub open spec fn selection_moved(self, delta: int) -> AppView {
        self.row_selected(bounded(self.focused_selection(), delta, self.focused_count()))
    }

    #[verifier::opaque]
    pub open spec fn selection_first(self) -> AppView {
        self.row_selected(0)
    }

    #[verifier::opaque]
    pub open spec fn selection_last(self) -> AppView {
        self.row_selected(last_row(self.focused_count()))
    }

    /// The track that is selected in the pane in focus.
    pub open spec fn selected_track(self) -> Option<RowInfo> {
        match self.focus {
            Focus::Content => self.pane.content.track_at(self.pane.selected as int),
            Focus::Column(index) => if index < self.columns.len() {
                self.columns[index as int].content.track_at(self.columns[index as int].selected as int)
            } else {
                None
            },
            _ => None,
        }
    }

    /// What is opened where nothing is selected.
    #[verifier::opaque]
    pub open spec fn entry_activated(self) -> AppView {
        if self.route == Route::Account && self.account.identity is None {
            self.login_started()
        } else if self.route == Route::Downloads {
            AppView {
                prompt: PromptView { mode: InputMode::Download, input: seq![], cursor: 0, ..self.prompt },
                ..self
            }
        } else if self.route == Route::Local {
            self.import_begun()
        } else {
            self
        }
    }

    /// A row of a list is opened: a track is played, and its list becomes the
    /// queue; anything else opens a column.
    pub open spec fn item_activated(self, content: ContentInfo, selected: nat) -> AppView {
        match content {
            ContentInfo::Tracks(rows) => if selected < rows.len() {
                AppView {
                    playback: PlaybackView { play_queue: rows, queue_index: Some(selected as usize), ..self.playback },
                    ..self
                }.play_started(rows[selected as int])
            } else {
                self.entry_activated()
            },
            ContentInfo::Playlists(list) => if selected < list.len() {
                self.playlist_opened(list[selected as int].id, list[selected as int].name)
            } else {
                self.entry_activated()
            },
            ContentInfo::Albums(list) => if selected < list.len() {
                self.column_spawned(ColumnLoad::Album { id: list[selected as int].id, name: list[selected as int].name })
            } else {
                self.entry_activated()
            },
            ContentInfo::Artists(list) => if selected < list.len() {
                self.column_spawned(ColumnLoad::Artist { id: list[selected as int].id, name: list[selected as int].name })
            } else {
                self.entry_activated()
            },
            ContentInfo::Empty => self.entry_activated(),
        }
    }

    /// What is selected is opened.
    #[verifier::opaque]
    pub open spec fn activated(self) -> AppView {
        match self.focus {
            Focus::Navigation => AppView {
                focus: Focus::Content,
                ..self.route_set(all_routes()[self.nav_selected as int])
            },
            Focus::Content => self.item_activated(self.pane.content, self.pane.selected),
            Focus::Column(index) => if index < self.columns.len() {
                self.item_activated(self.columns[index as int].content, self.columns[index as int].selected)
            } else {
                self
            },
            Focus::Lyrics => self,
        }
    }

    #[verifier::opaque]
    pub open spec fn organize_started(self) -> AppView {
        match self.selected_track() {
            Some(track) => self.organize_of(track.key()),
            None => self,
        }
    }

    #[verifier::opaque]
    pub open spec fn favorite_asked(self) -> AppView {
        match self.selected_track() {
            Some(track) => self.sent(CommandInfo::ToggleFavorite(track.key())),
            None => self,
        }
    }

    pub open spec fn favorite_toggled(self, result: Result<Option<bool>, Seq<char>>) -> AppView {
        let told = self.said(
            match result {
                Ok(Some(true)) => "已喜欢"@,
                Ok(Some(false)) => "已取消喜欢"@,
                Ok(None) => "请先下载该歌曲"@,
                Err(message) => message,
            },
        );
        if self.route == Route::Favorites || self.route == Route::Local {
            told.local_load_started()
        } else {
            told
        }
    }

    /// Whether a track is in the queue.
    pub open spec fn queued(self, id: u64) -> bool {
        exists|k: int| 0 <= k < self.playback.play_queue.len() && (#[trigger] self.playback.play_queue[k]).id == id
    }

    /// The selected track is played next; the library is told so too.
    #[verifier::opaque]
    pub open spec fn enqueue_asked(self) -> AppView {
        match self.selected_track() {
            Some(track) => (match self.playback.queue_index {
                Some(index) => if self.queued(track.id) {
                    self
                } else {
                    AppView {
                        playback: PlaybackView {
                            play_queue: self.playback.play_queue.insert(index + 1, track),
                            ..self.playback
                        },
                        ..self
                    }
                },
                None => self,
            }).sent(CommandInfo::Enqueue { track: track.key(), title: track.title }),
            None => self,
        }
    }

    pub open spec fn enqueued(self, title: Seq<char>, result: Result<bool, Seq<char>>) -> AppView {
        self.said(
            match result {
                Ok(true) => "下一首播放："@ + title,
                Ok(false) => "已在队列："@ + title,
                Err(message) => message,
            },
        )
    }

    #[verifier::opaque]
    pub open spec fn dequeue_asked(self) -> AppView {
        if self.route != Route::Queue {
            self
        } else {
            match self.selected_track() {
                Some(track) => self.sent(CommandInfo::Dequeue(track.key())),
                None => self,
            }
        }
    }

    pub open spec fn dequeued(self, result: Result<bool, Seq<char>>) -> AppView {
        self.said(
            match result {
                Ok(true) => "已移出播放队列"@,
                Ok(false) => seq![],
                Err(message) => message,
            },
        ).local_load_started()
    }
}

pub open spec fn bool_result(result: Result<bool, String>) -> Result<bool, Seq<char>> {
    match result {
        Ok(value) => Ok(value),
        Err(message) => Err(message@),
    }
}

impl App {
    pub fn valid_focus(&self, focus: Focus) -> (r: Focus)
        ensures
            r == self@.valid(focus),
    {
        match focus {
            Focus::Column(index) => {
                let count: usize = self.columns.len();
                if index < count {
                    focus
                } else if count > 0 {
                    Focus::Column(count - 1)
                } else {
                    Focus::Content
                }
            },
            _ => focus,
        }
    }

    pub fn focus_next(&mut self, backwards: bool)
        ensures
            old(self)@.wf() ==> final(self)@.wf(),
            final(self)@ == old(self)@.focus_moved(backwards),
    {
        proof {
            reveal(AppView::focus_moved);
        }
        let count: usize = self.columns.len();
        let last: Focus = if count > 0 {
            Focus::Column(count - 1)
        } else {
            Focus::Content
        };
        let focus: Focus = if backwards {
            match self.focus {
                Focus::Navigation => if self.hide_lyrics {
                    last
                } else {
                    Focus::Lyrics
                },
                Focus::Content => Focus::Navigation,
                Focus::Column(index) => if index >= count {
                    if self.hide_lyrics {
                        last
                    } else {
                        Focus::Lyrics
                    }
                } else if index > 0 {
                    Focus::Column(index - 1)
                } else {
                    Focus::Content
                },
                Focus::Lyrics => last,
            }
        } else {
            let behind: Focus = if self.hide_lyrics {
                Focus::Navigation
            } else {
                Focus::Lyrics
            };
            match self.focus {
                Focus::Navigation => Focus::Content,
                Focus::Content => if count > 0 {
                    Focus::Column(0)
                } else {
                    behind
                },
                Focus::Column(index) => if index < count {
                    if index < count - 1 {
                        Focus::Column(index + 1)
                    } else {
                        behind
                    }
                } else {
                    Focus::Content
                },
                Focus::Lyrics => Focus::Navigation,
            }
        };
        self.focus = focus;
        if self.focus != Focus::Lyrics {
            self.show_lyrics = false;
        }
    }

    pub fn toggle_lyrics_focus(&mut self)
        ensures
            old(self)@.wf() ==> final(self)@.wf(),
            final(self)@ == old(self)@.lyrics_toggled(),
    {
        proof {
            reveal(AppView::lyrics_toggled);
            reveal(AppView::lyrics_panel_toggled);
        }
        if self.hide_lyrics {
            let previous: Focus = self.valid_focus(self.focus);
            self.toggle_lyrics_panel();
            self.previous_focus = previous;
            self.focus = Focus::Lyrics;
            self.show_lyrics = true;
        } else if self.focus == Focus::Lyrics && self.show_lyrics {
            self.focus = self.valid_focus(self.previous_focus);
            self.show_lyrics = false;
        } else if self.focus == Focus::Lyrics {
            self.show_lyrics = true;
        } else {
            self.previous_focus = self.valid_focus(self.focus);
            self.focus = Focus::Lyrics;
            self.show_lyrics = true;
        }
    }

    pub fn lyrics_room(&self) -> (r: LyricsRoom)
        ensures
            r == self@.lyrics_room(),
    {
        if self.hide_lyrics {
            LyricsRoom::Closed
        } else if self.show_lyrics {
            LyricsRoom::Expanded
        } else {
            LyricsRoom::Beside
        }
    }

    /// Closes the lyrics, or opens them again.
    pub fn toggle_lyrics_panel(&mut self)
        ensures
            old(self)@.wf() ==> final(self)@.wf(),
            final(self)@ == old(self)@.lyrics_panel_toggled(),
    {
        proof {
            reveal(AppView::lyrics_panel_toggled);
        }
        self.send(Command::SaveLyricsClosed(!self.hide_lyrics));
        if self.hide_lyrics {
            self.hide_lyrics = false;
        } else {
            self.hide_lyrics = true;
            self.show_lyrics = false;
            if self.focus == Focus::Lyrics {
                self.focus = self.valid_focus(self.previous_focus);
            }
        }
    }

    /// Goes one step back.
    pub fn back(&mut self)
        ensures
            old(self)@.wf() ==> final(self)@.wf(),
            final(self)@ == old(self)@.stepped_back(),
    {
        proof {
            reveal(AppView::stepped_back);
        }
        match self.focus {
            Focus::Lyrics => {
                self.show_lyrics = false;
                self.focus = self.valid_focus(self.previous_focus);
            },
            Focus::Column(index) => {
                self.truncate_columns(index);
                self.focus = if index == 0 {
                    Focus::Content
                } else {
                    Focus::Column(index - 1)
                };
            },
            Focus::Content => {
                self.focus = Focus::Navigation;
            },
            Focus::Navigation => {},
        }
        self.last_click = None;
    }

    fn focused_rows(&self) -> (r: (usize, usize))
        ensures
            r.0 == self@.focused_selection(),
            r.1 == self@.focused_count(),
    {
        match self.focus {
            Focus::Navigation => (self.nav_selected, 14),
            Focus::Content => (self.pane.selected, self.pane.content.len()),
            Focus::Column(index) => if index < self.columns.len() {
                proof {
                    assert(self@.columns[index as int] == self.columns@[index as int]@);
                }
                (self.columns[index].selected, self.columns[index].content.len())
            } else {
                (0, 0)
            },
            Focus::Lyrics => (0, 0),
        }
    }

    pub(crate) fn select_in_column(&mut self, index: usize, row: usize)
        ensures
            old(self)@.wf() ==> final(self)@.wf(),
            final(self)@ == old(self)@.column_row_selected(index as int, row as nat),
    {
        if index < self.columns.len() {
            let ghost held = self.columns@;
            let column = &mut self.columns[index];
            column.selected = row;
            proof {
                assert(column_infos(self.columns@) =~= column_infos(held).update(
                    index as int,
                    ColumnInfo { selected: row as nat, ..column_infos(held)[index as int] },
                ));
            }
        }
    }

    fn select_row(&mut self, row: usize)
        requires
            old(self).focus == Focus::Navigation ==> row < 14,
        ensures
            old(self)@.wf() ==> final(self)@.wf(),
            final(self)@ == old(self)@.row_selected(row as nat),
    {
        match self.focus {
            Focus::Navigation => {
                self.nav_selected = row;
            },
            Focus::Content => {
                self.pane.selected = row;
            },
            Focus::Column(index) => {
                self.select_in_column(index, row);
            },
            Focus::Lyrics => {},
        }
    }

    pub fn move_selection(&mut self, delta: isize)
        ensures
            old(self)@.wf() ==> final(self)@.wf(),
            final(self)@ == old(self)@.selection_moved(delta as int),
    {
        proof {
            reveal(AppView::selection_moved);
        }
        let (selected, count) = self.focused_rows();
        let row: usize = if count == 0 {
            0
        } else {
            let next: usize = shifted(selected, delta);
            if next < count {
                next
            } else {
                count - 1
            }
        };
        self.select_row(row);
    }

    pub fn select_first(&mut self)
        ensures
            old(self)@.wf() ==> final(self)@.wf(),
            final(self)@ == old(self)@.selection_first(),
    {
        proof {
            reveal(AppView::selection_first);
        }
        self.select_row(0);
    }

    pub fn select_last(&mut self)
        ensures
            old(self)@.wf() ==> final(self)@.wf(),
            final(self)@ == old(self)@.selection_last(),
    {
        proof {
            reveal(AppView::selection_last);
        }
        let (_selected, count) = self.focused_rows();
        self.select_row(count.saturating_sub(1));
    }

    pub fn selected_track(&self) -> (r: Option<&TrackRow>)
        ensures
            match r {
                Some(row) => self@.selected_track() == Some(row@),
                None => self@.selected_track() is None,
            },
    {
        match self.focus {
            Focus::Content => self.pane.content.track_at(self.pane.selected),
            Focus::Column(index) => if index < self.columns.len() {
                proof {
                    assert(self@.columns[index as int] == self.columns@[index as int]@);
                }
                let column = &self.columns[index];
                column.content.track_at(column.selected)
            } else {
                None
            },
            _ => None,
        }
    }

    fn activate_entry(&mut self)
        ensures
            old(self)@.wf() ==> final(self)@.wf(),
            final(self)@ == old(self)@.entry_activated(),
    {
        proof {
            reveal(AppView::entry_activated);
        }
        if self.route == Route::Account && self.account.identity.is_none() {
            self.start_login();
        } else if self.route == Route::Downloads {
            self.prompt.mode = InputMode::Download;
            self.prompt.input = String::new();
            self.prompt.cursor = 0;
            proof {
                lemma_ends_are_boundaries(seq![]);
                assert(self.prompt.input@ =~= seq![]);
            }
        } else if self.route == Route::Local {
            self.begin_import();
        }
    }

    fn activate_item(&mut self, target: ActivationTarget)
        requires
            target.wf(),
        ensures
            old(self)@.wf() ==> final(self)@.wf(),
            final(self)@ == target.opened(old(self)@),
    {
        match target {
            ActivationTarget::Track { queue, index } => {
                let track = queue[index].copy();
                proof {
                    assert(row_infos(queue@)[index as int] == track@);
                }
                self.playback.play_queue = queue;
                self.playback.queue_index = Some(index);
                self.play(track);
            },
            ActivationTarget::Playlist { id, name } => {
                self.open_playlist(id, name);
            },
            ActivationTarget::Album { id, name } => {
                self.open_album(id, name);
            },
            ActivationTarget::Artist { id, name } => {
                self.open_artist(id, name);
            },
            ActivationTarget::Empty => {
                self.activate_entry();
            },
        }
    }

    /// Opens what is selected.
    pub fn activate(&mut self)
        requires
            old(self)@.wf(),
        ensures
            final(self)@.wf(),
            final(self)@ == old(self)@.activated(),
    {
        proof {
            reveal(AppView::activated);
        }
        match self.focus {
            Focus::Navigation => {
                let route: Route = Route::at(self.nav_selected);
                self.set_route(route);
                self.focus = Focus::Content;
            },
            Focus::Content => {
                let target = target_in(&self.pane.content, self.pane.selected);
                proof {
                    lemma_target(target, self@, self@.pane.content, self@.pane.selected);
                }
                self.activate_item(target);
            },
            Focus::Column(index) => {
                if index < self.columns.len() {
                    let target = target_in(&self.columns[index].content, self.columns[index].selected);
                    proof {
                        assert(self@.columns[index as int] == self.columns@[index as int]@);
                        lemma_target(
                            target,
                            self@,
                            self@.columns[index as int].content,
                            self@.columns[index as int].selected,
                        );
                    }
                    self.activate_item(target);
                }
            },
            Focus::Lyrics => {},
        }
    }

    pub fn start_organize(&mut self)
        ensures
            old(self)@.wf() ==> final(self)@.wf(),
            final(self)@ == old(self)@.organize_started(),
    {
        proof {
            reveal(AppView::organize_started);
        }
        let key = match self.selected_track() {
            Some(track) => track.key(),
            None => {
                return;
            },
        };
        self.start_organize_of(key);
    }

    pub fn favorite(&mut self)
        ensures
            old(self)@.wf() ==> final(self)@.wf(),
            final(self)@ == old(self)@.favorite_asked(),
    {
        proof {
            reveal(AppView::favorite_asked);
        }
        let key = match self.selected_track() {
            Some(track) => track.key(),
            None => {
                return;
            },
        };
        self.send(Command::ToggleFavorite(key));
    }

    /// Takes the library's answer.
    pub fn favorite_answered(&mut self, result: Result<Option<bool>, String>)
        ensures
            old(self)@.wf() ==> final(self)@.wf(),
            final(self)@ == old(self)@.favorite_toggled(
                match result {
                    Ok(value) => Ok(value),
                    Err(message) => Err(message@),
                },
            ),
    {
        match result {
            Ok(Some(true)) => self.say("已喜欢"),
            Ok(Some(false)) => self.say("已取消喜欢"),
            Ok(None) => self.say("请先下载该歌曲"),
            Err(message) => {
                self.status = message;
            },
        }
        if self.route == Route::Favorites || self.route == Route::Local {
            self.load_local();
        }
    }

    fn has_queued(&self, id: u64) -> (r: bool)
        ensures
            r == self@.queued(id),
    {
        let ghost all = self@.playback.play_queue;
        let mut i: usize = 0;
        while i < self.playback.play_queue.len()
            invariant
                i <= self.playback.play_queue@.len(),
                all == row_infos(self.playback.play_queue@),
                all == self@.playback.play_queue,
                forall|k: int| 0 <= k < i ==> (#[trigger] all[k]).id != id,
            decreases self.playback.play_queue@.len() - i,
        {
            proof {
                assert(all[i as int] == self.playback.play_queue@[i as int]@);
            }
            if self.playback.play_queue[i].id == id {
                return true;
            }
            i += 1;
        }
        false
    }

    /// Plays the selected track next.
    pub fn enqueue(&mut self)
        requires
            old(self)@.wf(),
        ensures
            final(self)@.wf(),
            final(self)@ == old(self)@.enqueue_asked(),
    {
        proof {
            reveal(AppView::enqueue_asked);
        }
        let track = match self.selected_track() {
            Some(track) => track.copy(),
            None => {
                return;
            },
        };
        let key = track.key();
        let title: String = track.title.clone();
        if let Some(index) = self.playback.queue_index {
            if !self.has_queued(track.id) {
                self.insert_behind(index, track);
            }
        }
        self.send(Command::Enqueue { track: key, title });
    }

    /// Puts a track into the queue behind the one that is played.
    fn insert_behind(&mut self, index: usize, track: TrackRow)
        requires
            old(self)@.wf(),
            old(self)@.playback.queue_index == Some(index),
        ensures
            final(self)@.wf(),
            final(self)@ == (AppView {
                playback: PlaybackView {
                    play_queue: old(self)@.playback.play_queue.insert(index + 1, track@),
                    ..old(self)@.playback
                },
                ..old(self)@
            }),
    {
        let ghost held = self.playback.play_queue@;
        let ghost row = track@;
        let count: usize = self.playback.play_queue.len();
        proof {
            assert(index < count);
        }
        self.playback.play_queue.insert(index + 1, track);
        proof {
            assert(row_infos(self.playback.play_queue@) =~= row_infos(held).insert(index + 1, row));
        }
    }

    /// Takes the library's answer.
    pub fn enqueue_answered(&mut self, title: String, result: Result<bool, String>)
        ensures
            old(self)@.wf() ==> final(self)@.wf(),
            final(self)@ == old(self)@.enqueued(title@, bool_result(result)),
    {
        let status: String = match result {
            Ok(added) => {
                let mut text: String = if added {
                    "下一首播放：".to_owned()
                } else {
                    "已在队列：".to_owned()
                };
                text.append(title.as_str());
                text
            },
            Err(message) => message,
        };
        self.status = status;
    }

    /// Takes the selected track out of the queue.
    pub fn dequeue(&mut self)
        ensures
            old(self)@.wf() ==> final(self)@.wf(),
            final(self)@ == old(self)@.dequeue_asked(),
    {
        proof {
            reveal(AppView::dequeue_asked);
        }
        if self.route != Route::Queue {
            return;
        }
        let key = match self.selected_track() {
            Some(track) => track.key(),
            None => {
                return;
            },
        };
        self.send(Command::Dequeue(key));
    }

    /// Takes the library's answer.
    pub fn dequeue_answered(&mut self, result: Result<bool, String>)
        ensures
            old(self)@.wf() ==> final(self)@.wf(),
            final(self)@ == old(self)@.dequeued(bool_result(result)),
    {
        let status: String = match result {
            Ok(removed) => if removed {
                "已移出播放队列".to_owned()
            } else {
                let none: String = String::new();
                proof {
                    assert(none@ =~= seq![]);
                }
                none
            },
            Err(message) => message,
        };
        self.status = status;
        self.load_local();
    }
}

/// What opening a row comes to.
enum ActivationTarget {
    Track { queue: Vec<TrackRow>, index: usize },
    Playlist { id: u64, name: String },
    Album { id: u64, name: String },
    Artist { id: u64, name: String },
    Empty,
}

impl ActivationTarget {
    spec fn wf(self) -> bool {
        match self {
            ActivationTarget::Track { queue, index } => index < queue@.len(),
            _ => true,
        }
    }

    spec fn opened(self, app: AppView) -> AppView {
        match self {
            ActivationTarget::Track { queue, index } => AppView {
                playback: PlaybackView {
                    play_queue: row_infos(queue@),
                    queue_index: Some(index),
                    ..app.playback
                },
                ..app
            }.play_started(row_infos(queue@)[index as int]),
            ActivationTarget::Playlist { id, name } => app.playlist_opened(id, name@),
            ActivationTarget::Album { id, name } => app.column_spawned(ColumnLoad::Album { id, name: name@ }),
            ActivationTarget::Artist { id, name } => app.column_spawned(ColumnLoad::Artist { id, name: name@ }),
            ActivationTarget::Empty => app.entry_activated(),
        }
    }

    /// Whether it stands for a row of a list.
    spec fn stands_for(self, content: ContentInfo, selected: nat) -> bool {
        match content {
            ContentInfo::Tracks(rows) if selected < rows.len() => {
                self is Track && row_infos(self->queue@) == rows && self->index == selected
            },
            ContentInfo::Playlists(list) if selected < list.len() => {
                self is Playlist && self->Playlist_id == list[selected as int].id && self->Playlist_name@
                    == list[selected as int].name
            },
            ContentInfo::Albums(list) if selected < list.len() => {
                self is Album && self->Album_id == list[selected as int].id && self->Album_name@
                    == list[selected as int].name
            },
            ContentInfo::Artists(list) if selected < list.len() => {
                self is Artist && self->Artist_id == list[selected as int].id && self->Artist_name@
                    == list[selected as int].name
            },
            _ => self is Empty,
        }
    }
}

fn target_in(content: &Content, selected: usize) -> (r: ActivationTarget)
    ensures
        r.wf(),
        r.stands_for(content@, selected as nat),
{
    match content {
        Content::Tracks(rows) => if selected < rows.len() {
            ActivationTarget::Track { queue: copy_rows(rows), index: selected }
        } else {
            ActivationTarget::Empty
        },
        Content::Playlists(list) => if selected < list.len() {
            proof {
                assert(playlist_infos(list@)[selected as int] == list@[selected as int]@);
            }
            ActivationTarget::Playlist { id: list[selected].id, name: list[selected].name.clone() }
        } else {
            ActivationTarget::Empty
        },
        Content::Albums(list) => if selected < list.len() {
            proof {
                assert(album_infos(list@)[selected as int] == list@[selected as int]@);
            }
            ActivationTarget::Album { id: list[selected].id, name: list[selected].name.clone() }
        } else {
            ActivationTarget::Empty
        },
        Content::Artists(list) => if selected < list.len() {
            proof {
                assert(artist_infos(list@)[selected as int] == list@[selected as int]@);
            }
            ActivationTarget::Artist { id: list[selected].id, name: list[selected].name.clone() }
        } else {
            ActivationTarget::Empty
        },
        Content::Empty => ActivationTarget::Empty,
    }
}

proof fn lemma_target(target: ActivationTarget, app: AppView, content: ContentInfo, selected: nat)
    requires
        target.wf(),
        target.stands_for(content, selected),
    ensures
        target.opened(app) == app.item_activated(content, selected),
{
}

/// Showing the lyrics and hiding them again leaves the panes as they were.
pub proof fn lemma_lyrics_toggle_twice(app: AppView)
    requires
        app.focus != Focus::Lyrics,
        !app.hide_lyrics,
        pane_exists(app.focus, app.columns.len(), false),
    ensures
        app.lyrics_toggled().lyrics_toggled() == (AppView {
            show_lyrics: false,
            previous_focus: app.focus,
            ..app
        }),
{
    reveal(AppView::lyrics_toggled);
}

/// Closing the lyrics and opening them again changes nothing else, where they
/// are not in focus.
pub proof fn lemma_lyrics_panel_toggle_twice(app: AppView)
    requires
        app.focus != Focus::Lyrics,
        !app.show_lyrics,
    ensures
        app.lyrics_panel_toggled().hide_lyrics != app.hide_lyrics,
        app.lyrics_panel_toggled().lyrics_panel_toggled() == (AppView {
            commands: app.lyrics_panel_toggled().lyrics_panel_toggled().commands,
            ..app
        }),
{
    reveal(AppView::lyrics_panel_toggled);
}

/// Going back from a column closes it and those to its right; what is to its
/// left stays as it is.
pub proof fn lemma_back_keeps_left(app: AppView, index: usize)
    requires
        app.focus == Focus::Column(index),
        index < app.columns.len(),
    ensures
        app.stepped_back().columns == app.columns.take(index as int),
        app.stepped_back().pane == app.pane,
        app.stepped_back().route == app.route,
        pane_exists(app.stepped_back().focus, app.stepped_back().columns.len(), app.hide_lyrics),
{
    reveal(AppView::stepped_back);
    reveal(AppView::columns_cut);
}

/// A track that is asked to be played next stands behind the current one, and
/// the rest of the queue keeps its order; one that is queued stays where it is.
pub proof fn lemma_enqueue_plays_next(app: AppView)
    requires
        app.wf(),
        app.selected_track() is Some,
        app.playback.queue_index is Some,
    ensures
        ({
            let track = app.selected_track()->0;
            let index = app.playback.queue_index->0;
            let queue = app.enqueue_asked().playback.play_queue;
            &&& app.queued(track.id) ==> queue == app.playback.play_queue
            &&& !app.queued(track.id) ==> queue[index + 1] == track && queue.remove(index + 1) == app.playback.play_queue
            &&& app.enqueue_asked().playback.queue_index == app.playback.queue_index
        }),
{
    reveal(AppView::enqueue_asked);
    let track = app.selected_track()->0;
    let index = app.playback.queue_index->0;
    assert(app.playback.play_queue.insert(index + 1, track).remove(index + 1) =~= app.playback.play_queue);
}

// Laws of moving and opening.

/// A position moves by exactly as much as is asked for, as far as there are rows
/// in that direction.
pub proof fn lemma_bounded(index: nat, delta: int, count: nat)
    requires
        index < count,
    ensures
        0 <= index + delta < count ==> bounded(index, delta, count) == index + delta,
        index + delta < 0 ==> bounded(index, delta, count) == 0,
        index + delta >= count ==> bounded(index, delta, count) == count - 1,
        bounded(index, delta, count) < count,
{
}

/// The selection moves in the pane in focus, and nowhere else; it goes to the
/// first row or to the last one where that is asked for.
pub proof fn lemma_selection(app: AppView, delta: int)
    requires
        app.focus == Focus::Content,
        app.pane.selected < app.pane.content.count(),
    ensures
        0 <= app.pane.selected + delta < app.pane.content.count() ==> app.selection_moved(delta).pane.selected
            == app.pane.selected + delta,
        app.selection_moved(delta).columns == app.columns,
        app.selection_moved(delta).nav_selected == app.nav_selected,
        app.selection_moved(delta).pane.content == app.pane.content,
        app.selection_moved(delta).commands == app.commands,
        app.selection_first().pane.selected == 0,
        app.selection_last().pane.selected == app.pane.content.count() - 1,
{
    reveal(AppView::selection_moved);
    reveal(AppView::selection_first);
    reveal(AppView::selection_last);
}

/// In the navigation and in a column too, the selection moves where the focus is.
pub proof fn lemma_selection_elsewhere(app: AppView, delta: int, index: usize)
    ensures
        app.focus == Focus::Navigation && 0 <= app.nav_selected + delta < 14 && app.nav_selected < 14
            ==> app.selection_moved(delta).nav_selected == app.nav_selected + delta && app.selection_moved(delta).pane
            == app.pane,
        app.focus == Focus::Column(index) && index < app.columns.len() && 0 <= app.columns[index as int].selected
            + delta < app.columns[index as int].content.count() ==> app.selection_moved(delta).columns
            == app.columns.update(
            index as int,
            ColumnInfo {
                selected: (app.columns[index as int].selected + delta) as nat,
                ..app.columns[index as int]
            },
        ),
{
    reveal(AppView::selection_moved);
}

/// A row that is opened: a track plays, with its list as the queue; a playlist,
/// an album or an artist opens a column that lists it.
pub proof fn lemma_opening(app: AppView)
    requires
        app.focus == Focus::Content,
        app.pane.selected <= usize::MAX,
    ensures
        app.pane.content matches ContentInfo::Tracks(rows) ==> (app.pane.selected < rows.len() ==> {
            let after = app.activated();
            &&& after.playback.play_queue == rows
            &&& after.playback.queue_index == Some(app.pane.selected as usize)
            &&& after.commands == app.play_started(rows[app.pane.selected as int]).commands
        }),
        app.pane.content matches ContentInfo::Albums(list) ==> (app.pane.selected < list.len() ==> {
            let album = list[app.pane.selected as int];
            app.activated() == app.column_spawned(ColumnLoad::Album { id: album.id, name: album.name })
        }),
        app.pane.content matches ContentInfo::Artists(list) ==> (app.pane.selected < list.len() ==> {
            let artist = list[app.pane.selected as int];
            app.activated() == app.column_spawned(ColumnLoad::Artist { id: artist.id, name: artist.name })
        }),
        app.pane.content matches ContentInfo::Playlists(list) ==> (app.pane.selected < list.len()
            && !app.warm.playlist_tracks.contains_key(list[app.pane.selected as int].id) ==> {
            let playlist = list[app.pane.selected as int];
            app.activated() == app.column_spawned(ColumnLoad::Playlist { id: playlist.id, name: playlist.name })
        }),
{
    reveal(AppView::activated);
    reveal(AppView::play_started);
    reveal(AppView::file_started);
    reveal(AppView::playlist_opened);
}

/// An entry of the navigation that is opened becomes the route, and its pane
/// gets the focus.
pub proof fn lemma_navigation_opens(app: AppView)
    requires
        app.focus == Focus::Navigation,
        app.nav_selected < 14,
    ensures
        app.activated().route == all_routes()[app.nav_selected as int],
        app.activated().focus == Focus::Content,
{
    reveal(AppView::activated);
    crate::tui::app::lemma_route_is_set(app, all_routes()[app.nav_selected as int]);
}

/// Where nothing is listed, opening asks for what the entry needs: a login, what
/// to download, or what to import.
pub proof fn lemma_opening_nothing(app: AppView)
    requires
        app.focus == Focus::Content,
        app.pane.content is Empty,
    ensures
        app.route == Route::Downloads ==> app.activated().prompt.mode == InputMode::Download
            && app.activated().prompt.input.len() == 0,
        app.route == Route::Local ==> app.activated().prompt.mode == InputMode::Import,
        app.route == Route::Account && app.account.identity is None && !app.account.login_polling
            ==> app.activated().commands == app.commands.push(CommandInfo::AbortAuth).push(CommandInfo::BeginLogin),
{
    reveal(AppView::activated);
    reveal(AppView::entry_activated);
    reveal(AppView::import_begun);
    reveal(AppView::login_started);
}

/// What the library is told of a track is told of the one that is selected.
pub proof fn lemma_library_is_told(app: AppView, track: RowInfo)
    requires
        app.selected_track() == Some(track),
    ensures
        app.favorite_asked().commands == app.commands.push(CommandInfo::ToggleFavorite(track.key())),
        app.enqueue_asked().commands == app.commands.push(
            CommandInfo::Enqueue { track: track.key(), title: track.title },
        ),
        app.route == Route::Queue ==> app.dequeue_asked().commands == app.commands.push(
            CommandInfo::Dequeue(track.key()),
        ),
        app.route != Route::Queue ==> app.dequeue_asked() == app,
        app.jobs.active_job is None ==> app.organize_started().commands == app.commands.push(
            CommandInfo::StartOrganize { id: app.organize_started().jobs.next_job_id, track: track.key() },
        ),
        app.focus == Focus::Content ==> app.pane.content is Tracks && app.pane.selected < app.pane.content->Tracks_0.len()
            && app.pane.content->Tracks_0[app.pane.selected as int] == track,
{
    reveal(AppView::favorite_asked);
    reveal(AppView::enqueue_asked);
    reveal(AppView::dequeue_asked);
    reveal(AppView::organize_started);
    reveal(AppView::organize_of);
}

/// What the library answers is said.
pub proof fn lemma_library_answers(app: AppView, title: Seq<char>)
    ensures
        app.favorite_toggled(Ok(Some(true))).status == "已喜欢"@,
        app.favorite_toggled(Ok(Some(false))).status == "已取消喜欢"@,
        app.favorite_toggled(Ok(None)).status == "请先下载该歌曲"@,
        app.enqueued(title, Ok(true)).status == "下一首播放："@ + title,
        app.enqueued(title, Ok(false)).status == "已在队列："@ + title,
        app.dequeued(Ok(true)).status == "已移出播放队列"@,
{
}

/// The focus goes from the navigation through the panes, from left to right, to
/// the lyrics, and from there to the navigation again.
pub proof fn lemma_focus_path(columns: nat, index: usize, closed: bool)
    requires
        columns <= usize::MAX,
    ensures
        pane_after(Focus::Navigation, columns, closed) == Focus::Content,
        columns > 0 ==> pane_after(Focus::Content, columns, closed) == Focus::Column(0),
        columns == 0 && !closed ==> pane_after(Focus::Content, columns, closed) == Focus::Lyrics,
        columns == 0 && closed ==> pane_after(Focus::Content, columns, closed) == Focus::Navigation,
        index + 1 < columns ==> pane_after(Focus::Column(index), columns, closed) == Focus::Column(
            (index + 1) as usize,
        ),
        index + 1 == columns && !closed ==> pane_after(Focus::Column(index), columns, closed) == Focus::Lyrics,
        pane_after(Focus::Lyrics, columns, closed) == Focus::Navigation,
{
}

/// Moving the focus goes to the next pane or to the one before it, and changes
/// nothing in the panes.
pub proof fn lemma_focus_moves(app: AppView)
    ensures
        app.focus_moved(false).focus == pane_after(app.focus, app.columns.len(), app.hide_lyrics),
        app.focus_moved(true).focus == pane_before(app.focus, app.columns.len(), app.hide_lyrics),
        app.focus_moved(false).pane == app.pane && app.focus_moved(false).columns == app.columns,
        app.focus_moved(true).pane == app.pane && app.focus_moved(true).columns == app.columns,
{
    reveal(AppView::focus_moved);
}

/// The lyrics are closed or opened, that is kept, and closed ones have no room
/// and not the focus.
pub proof fn lemma_lyrics_closed(app: AppView)
    ensures
        app.lyrics_panel_toggled().hide_lyrics == !app.hide_lyrics,
        app.lyrics_panel_toggled().commands == app.commands.push(CommandInfo::SaveLyricsClosed(!app.hide_lyrics)),
        !app.hide_lyrics ==> app.lyrics_panel_toggled().lyrics_room() == LyricsRoom::Closed,
        !app.hide_lyrics && app.focus != Focus::Lyrics ==> app.lyrics_panel_toggled().focus == app.focus,
        app.focus != Focus::Lyrics ==> app.lyrics_toggled().focus == Focus::Lyrics && app.lyrics_toggled().show_lyrics
            && !app.lyrics_toggled().hide_lyrics,
{
    reveal(AppView::lyrics_panel_toggled);
    reveal(AppView::lyrics_toggled);
}

/// One step back leads from the first pane to the navigation, and from the first
/// column to the first pane.
pub proof fn lemma_steps_back(app: AppView)
    ensures
        app.focus == Focus::Content ==> app.stepped_back().focus == Focus::Navigation && app.stepped_back().pane
            == app.pane,
        app.focus == Focus::Column(0) ==> app.stepped_back().focus == Focus::Content,
        app.focus == Focus::Navigation ==> app.stepped_back().focus == Focus::Navigation,
{
    reveal(AppView::stepped_back);
}

} // verus!
