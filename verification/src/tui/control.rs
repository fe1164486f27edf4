//! What the keys do.

use vstd::prelude::*;

use crate::discovery::SearchKind;
use crate::time::Instant;
use crate::tui::app::{App, AppView, JobsView, OverlayView, PromptView};
use crate::tui::command::{Command, CommandInfo};
use crate::tui::format::{format_cache_size_input, size_input};
use crate::tui::input::{
    action_of, byte_len, byte_length, edit_input, is_boundary, lemma_cursor_stays_inside, lemma_ends_are_boundaries,
    normal_action, plain_key, submits, InputEdit, KeyCode, KeyEvent, Line,
};
use crate::tui::routes::{kind_label_of, search_kind_label, Focus, InputMode, Route, UiAction};

verus! {

/// How far the help can be scrolled.
pub const HELP_MAX_SCROLL: u16 = 8;

/// Whether a key is control and p, which looks for a command.
pub open spec fn opens_palette(key: KeyEvent) -> bool {
    key.code == KeyCode::Char('p') && key.modifiers.control
}

fn is_palette_key(key: KeyEvent) -> (r: bool)
    ensures
        r == opens_palette(key),
{
    key.code == KeyCode::Char('p') && key.modifiers.control
}

/// The scope of a search that a key stands for.
pub open spec fn kind_of_key(code: KeyCode) -> Option<SearchKind> {
    match code {
        KeyCode::F(n) => if n == 1 {
            Some(SearchKind::Song)
        } else if n == 2 {
            Some(SearchKind::Album)
        } else if n == 3 {
            Some(SearchKind::Artist)
        } else if n == 4 {
            Some(SearchKind::Playlist)
        } else {
            None
        },
        _ => None,
    }
}

fn search_kind_key(code: KeyCode) -> (r: Option<SearchKind>)
    ensures
        r == kind_of_key(code),
{
    match code {
        KeyCode::F(n) => match n {
            1 => Some(SearchKind::Song),
            2 => Some(SearchKind::Album),
            3 => Some(SearchKind::Artist),
            4 => Some(SearchKind::Playlist),
            _ => None,
        },
        _ => None,
    }
}

impl OverlayView {
    /// The help, scrolled down by some lines.
    pub open spec fn scrolled_down(self, lines: nat) -> OverlayView {
        OverlayView {
            help_scroll: if self.help_scroll + lines <= HELP_MAX_SCROLL {
                self.help_scroll + lines
            } else {
                HELP_MAX_SCROLL as nat
            },
            ..self
        }
    }

    pub open spec fn scrolled_up(self, lines: nat) -> OverlayView {
        OverlayView {
            help_scroll: if self.help_scroll >= lines {
                (self.help_scroll - lines) as nat
            } else {
                0
            },
            ..self
        }
    }

    pub open spec fn help_toggled(self) -> OverlayView {
        OverlayView { show_details: false, show_help: !self.show_help, help_scroll: 0, ..self }
    }

    /// What a key does while the help is shown.
    pub open spec fn help_keyed(self, code: KeyCode) -> OverlayView {
        match code {
            KeyCode::Char(c) => if c == '?' {
                self.help_toggled()
            } else if c == 'k' {
                self.scrolled_up(1)
            } else if c == 'j' {
                self.scrolled_down(1)
            } else {
                self
            },
            KeyCode::Up => self.scrolled_up(1),
            KeyCode::Down => self.scrolled_down(1),
            KeyCode::PageUp => self.scrolled_up(6),
            KeyCode::PageDown => self.scrolled_down(6),
            KeyCode::Home => OverlayView { help_scroll: 0, ..self },
            KeyCode::End => OverlayView { help_scroll: HELP_MAX_SCROLL as nat, ..self },
            _ => self,
        }
    }
}

impl AppView {
    /// An entry is opened, and its pane gets the focus.
    #[verifier::opaque]
    pub open spec fn route_opened(self, route: Route) -> AppView {
        AppView { focus: Focus::Content, ..self.route_set(route) }
    }

    /// Back: what lies on top is closed first, then what is typed is dropped,
    /// then a download is given up, and only then a pane is left.
    #[verifier::opaque]
    pub open spec fn back_asked(self) -> AppView {
        if self.overlay.show_help {
            AppView { overlay: OverlayView { show_help: false, ..self.overlay }, ..self }
        } else if self.overlay.show_details {
            AppView { overlay: OverlayView { show_details: false, ..self.overlay }, ..self }
        } else if self.prompt.mode != InputMode::Normal {
            let quiet = AppView {
                prompt: self.prompt.cleared(InputMode::Normal),
                jobs: JobsView { cache_clear_armed_until: None, ..self.jobs },
                ..self
            };
            if self.prompt.mode == InputMode::LocalSearch && self.route == Route::Local {
                quiet.local_load_started()
            } else {
                quiet
            }
        } else if self.downloading() {
            self.download_cancelled()
        } else {
            self.stepped_back()
        }
    }

    #[verifier::opaque]
    pub open spec fn search_asked(self) -> AppView {
        if self.route == Route::Local {
            AppView { prompt: self.prompt.cleared(InputMode::LocalSearch), ..self }.said(
                "输入标题、艺术家或专辑，Enter 筛选本地音乐"@,
            )
        } else {
            self.route_opened(Route::Search)
        }
    }

    #[verifier::opaque]
    pub open spec fn download_asked(self) -> AppView {
        let opened = self.route_opened(Route::Downloads);
        AppView { prompt: opened.prompt.cleared(InputMode::Download), ..opened }
    }

    /// The player is told something, if there is one.
    #[verifier::opaque]
    pub open spec fn player_told(self, command: CommandInfo) -> AppView {
        if self.playback.has_player {
            self.sent(command)
        } else {
            self
        }
    }

    #[verifier::opaque]
    pub open spec fn refresh_asked(self) -> AppView {
        if self.route == Route::Local {
            self.scan_started()
        } else {
            self.route_set(self.route)
        }
    }

    /// The limit of the playback cache is edited.
    #[verifier::opaque]
    pub open spec fn cache_size_asked(self) -> AppView {
        let text = size_input(self.setup.cache_stats.max_bytes as nat);
        AppView {
            prompt: PromptView { mode: InputMode::CacheSize, input: text, cursor: byte_len(text), ..self.prompt },
            jobs: JobsView { cache_clear_armed_until: None, ..self.jobs },
            ..self
        }.said("输入缓存上限，例如 512M、4G 或 8GiB，Enter 保存"@)
    }

    /// What an action does.
    #[verifier::opaque]
    pub open spec fn acted(self, action: UiAction, now: Instant) -> AppView {
        match action {
            UiAction::Quit => self,
            UiAction::ToggleHelp => AppView { overlay: self.overlay.help_toggled(), ..self },
            UiAction::Back => self.back_asked(),
            UiAction::FocusNext => self.focus_moved(false),
            UiAction::FocusPrevious => self.focus_moved(true),
            UiAction::SelectPrevious => self.selection_moved(-1),
            UiAction::SelectNext => self.selection_moved(1),
            UiAction::SelectFirst => self.selection_first(),
            UiAction::SelectLast => self.selection_last(),
            UiAction::PagePrevious => self.selection_moved(-10),
            UiAction::PageNext => self.selection_moved(10),
            UiAction::Activate => self.activated(),
            UiAction::Search => self.search_asked(),
            UiAction::Login => self.login_started(),
            UiAction::Download => self.download_asked(),
            UiAction::ToggleLyrics => self.lyrics_toggled(),
            UiAction::ToggleLyricsPanel => self.lyrics_panel_toggled(),
            UiAction::TogglePause => self.player_told(CommandInfo::TogglePause),
            UiAction::PreviousTrack => self.track_skipped(-1),
            UiAction::NextTrack => self.track_skipped(1),
            UiAction::SeekBackward => self.player_told(CommandInfo::SeekBy(-5)),
            UiAction::SeekForward => self.player_told(CommandInfo::SeekBy(5)),
            UiAction::SeekTo(target) => self.player_told(CommandInfo::SeekTo(target@)),
            UiAction::VolumeUp => self.player_told(CommandInfo::VolumeUp),
            UiAction::VolumeDown => self.player_told(CommandInfo::VolumeDown),
            UiAction::CycleMode => self.mode_cycled(),
            UiAction::Enqueue => self.enqueue_asked(),
            UiAction::Dequeue => self.dequeue_asked(),
            UiAction::ToggleFavorite => self.favorite_asked(),
            UiAction::Organize => self.organize_started(),
            UiAction::Details => AppView {
                overlay: OverlayView { show_details: self.selected_track() is Some, ..self.overlay },
                ..self
            },
            UiAction::Refresh => self.refresh_asked(),
            UiAction::Import => self.import_begun(),
            UiAction::EditCacheSize => self.cache_size_asked(),
            UiAction::ClearCache => self.cache_clear_asked(now),
            UiAction::OpenRoute(route) => self.route_opened(route),
        }
    }

    /// The line after a key.
    #[verifier::opaque]
    pub open spec fn typed(self, key: KeyEvent) -> AppView {
        let line = Line { text: self.prompt.input, cursor: self.prompt.cursor }.edited(key);
        AppView { prompt: PromptView { input: line.text, cursor: line.cursor, ..self.prompt }, ..self }
    }

    /// The line is handed in.
    #[verifier::opaque]
    pub open spec fn submitted(self) -> AppView {
        match self.prompt.mode {
            InputMode::Search => self.online_searched(),
            InputMode::LocalSearch => self.local_searched(),
            InputMode::Download => self.download_started(),
            InputMode::CacheSize => self.cache_size_set(),
            InputMode::Import => self.import_started(),
            InputMode::Palette => self,
            InputMode::Normal => self,
        }
    }

    /// The scope of the search is chosen, and a keyword is asked for.
    #[verifier::opaque]
    pub open spec fn kind_chosen(self, kind: SearchKind) -> AppView {
        AppView {
            prompt: PromptView { search_kind: kind, ..self.prompt.cleared(InputMode::Search) },
            ..self
        }.said("搜索范围："@ + kind_label_of(kind))
    }

    /// What a key asks for in a pane.
    pub open spec fn action_in_pane(self, key: KeyEvent) -> Option<UiAction> {
        if key.code == KeyCode::Char('?') {
            Some(UiAction::ToggleHelp)
        } else if self.route == Route::Account && key.code == KeyCode::Char('s') {
            Some(UiAction::EditCacheSize)
        } else if self.route == Route::Account && key.code == KeyCode::Char('X') {
            Some(UiAction::ClearCache)
        } else {
            action_of(self.playback.current is Some, key)
        }
    }

    /// Whether a key is control and c.
    pub open spec fn interrupts(key: KeyEvent) -> bool {
        key.code == KeyCode::Char('c') && key.modifiers.control
    }

    /// What a key does.
    #[verifier::opaque]
    pub open spec fn keyed(self, key: KeyEvent, now: Instant) -> AppView {
        if AppView::interrupts(key) {
            self
        } else if key.code == KeyCode::Esc {
            self.back_asked()
        } else if self.overlay.show_help {
            AppView { overlay: self.overlay.help_keyed(key.code), ..self }
        } else if self.overlay.show_details {
            self
        } else if opens_palette(key) {
            self.palette_opened()
        } else if self.prompt.mode == InputMode::Palette {
            self.palette_keyed(key, now)
        } else if self.prompt.mode != InputMode::Normal {
            if submits(key) {
                self.typed(key).submitted()
            } else {
                self.typed(key)
            }
        } else if self.route == Route::Search && kind_of_key(key.code) is Some {
            self.kind_chosen(kind_of_key(key.code)->0)
        } else {
            match self.action_in_pane(key) {
                Some(action) => self.acted(action, now),
                None => self,
            }
        }
    }

    /// Whether a key ends the program.
    pub open spec fn quits(self, key: KeyEvent) -> bool {
        AppView::interrupts(key) || (key.code != KeyCode::Esc && !self.overlay.show_help && !self.overlay.show_details
            && self.prompt.mode == InputMode::Normal && self.action_in_pane(key) == Some(UiAction::Quit))
    }
}

impl App {
    fn toggle_help(&mut self)
        ensures
            old(self)@.wf() ==> final(self)@.wf(),
            final(self)@ == (AppView { overlay: old(self)@.overlay.help_toggled(), ..old(self)@ }),
    {
        self.overlay.show_details = false;
        self.overlay.show_help = !self.overlay.show_help;
        self.overlay.help_scroll = 0;
    }

    pub(crate) fn open_route(&mut self, route: Route)
        ensures
            old(self)@.wf() ==> final(self)@.wf(),
            final(self)@ == old(self)@.route_opened(route),
    {
        proof {
            reveal(AppView::route_opened);
        }
        self.set_route(route);
        self.focus = Focus::Content;
    }

    fn go_back(&mut self)
        ensures
            old(self)@.wf() ==> final(self)@.wf(),
            final(self)@ == old(self)@.back_asked(),
    {
        proof {
            reveal(AppView::back_asked);
            reveal(AppView::download_cancelled);
        }
        if self.overlay.show_help {
            self.overlay.show_help = false;
            return;
        }
        if self.overlay.show_details {
            self.overlay.show_details = false;
            return;
        }
        if self.prompt.mode != InputMode::Normal {
            let reload: bool = self.prompt.mode == InputMode::LocalSearch && self.route == Route::Local;
            self.clear_prompt(InputMode::Normal);
            self.jobs.cache_clear_armed_until = None;
            if reload {
                self.load_local();
            }
            return;
        }
        if !self.cancel_download() {
            self.back();
        }
    }

    fn ask_search(&mut self)
        ensures
            old(self)@.wf() ==> final(self)@.wf(),
            final(self)@ == old(self)@.search_asked(),
    {
        proof {
            reveal(AppView::search_asked);
        }
        if self.route == Route::Local {
            self.clear_prompt(InputMode::LocalSearch);
            self.say("输入标题、艺术家或专辑，Enter 筛选本地音乐");
        } else {
            self.open_route(Route::Search);
        }
    }

    fn ask_download(&mut self)
        ensures
            old(self)@.wf() ==> final(self)@.wf(),
            final(self)@ == old(self)@.download_asked(),
    {
        proof {
            reveal(AppView::download_asked);
        }
        self.open_route(Route::Downloads);
        self.clear_prompt(InputMode::Download);
    }

    fn tell_player(&mut self, command: Command)
        ensures
            old(self)@.wf() ==> final(self)@.wf(),
            final(self)@ == old(self)@.player_told(command@),
    {
        proof {
            reveal(AppView::player_told);
        }
        if self.playback.has_player {
            self.send(command);
        }
    }

    fn refresh(&mut self)
        ensures
            old(self)@.wf() ==> final(self)@.wf(),
            final(self)@ == old(self)@.refresh_asked(),
    {
        proof {
            reveal(AppView::refresh_asked);
        }
        if self.route == Route::Local {
            self.start_scan();
        } else {
            let route: Route = self.route;
            self.set_route(route);
        }
    }

    fn edit_cache_size(&mut self)
        ensures
            old(self)@.wf() ==> final(self)@.wf(),
            final(self)@ == old(self)@.cache_size_asked(),
    {
        proof {
            reveal(AppView::cache_size_asked);
            lemma_ends_are_boundaries(size_input(self@.setup.cache_stats.max_bytes as nat));
        }
        self.prompt.mode = InputMode::CacheSize;
        self.prompt.input = format_cache_size_input(self.setup.cache_stats.max_bytes);
        self.prompt.cursor = byte_length(self.prompt.input.as_str());
        self.jobs.cache_clear_armed_until = None;
        self.say("输入缓存上限，例如 512M、4G 或 8GiB，Enter 保存");
    }

    /// Does what an action stands for, and says whether the program ends.
    pub fn dispatch_action(&mut self, action: UiAction, now: Instant) -> (r: bool)
        requires
            old(self)@.wf(),
        ensures
            final(self)@.wf(),
            final(self)@ == old(self)@.acted(action, now),
            r == (action == UiAction::Quit),
    {
        proof {
            reveal(AppView::acted);
        }
        match action {
            UiAction::Quit => {
                return true;
            },
            UiAction::ToggleHelp => self.toggle_help(),
            UiAction::Back => self.go_back(),
            UiAction::FocusNext => self.focus_next(false),
            UiAction::FocusPrevious => self.focus_next(true),
            UiAction::SelectPrevious => self.move_selection(-1),
            UiAction::SelectNext => self.move_selection(1),
            UiAction::SelectFirst => self.select_first(),
            UiAction::SelectLast => self.select_last(),
            UiAction::PagePrevious => self.move_selection(-10),
            UiAction::PageNext => self.move_selection(10),
            UiAction::Activate => self.activate(),
            UiAction::Search => self.ask_search(),
            UiAction::Login => self.start_login(),
            UiAction::Download => self.ask_download(),
            UiAction::ToggleLyrics => self.toggle_lyrics_focus(),
            UiAction::ToggleLyricsPanel => self.toggle_lyrics_panel(),
            UiAction::TogglePause => self.tell_player(Command::TogglePause),
            UiAction::PreviousTrack => self.next_track(-1),
            UiAction::NextTrack => self.next_track(1),
            UiAction::SeekBackward => self.tell_player(Command::SeekBy(-5)),
            UiAction::SeekForward => self.tell_player(Command::SeekBy(5)),
            UiAction::SeekTo(target) => self.tell_player(Command::SeekTo(target)),
            UiAction::VolumeUp => self.tell_player(Command::VolumeUp),
            UiAction::VolumeDown => self.tell_player(Command::VolumeDown),
            UiAction::CycleMode => self.cycle_play_mode(),
            UiAction::Enqueue => self.enqueue(),
            UiAction::Dequeue => self.dequeue(),
            UiAction::ToggleFavorite => self.favorite(),
            UiAction::Organize => self.start_organize(),
            UiAction::Details => {
                self.overlay.show_details = self.selected_track().is_some();
            },
            UiAction::Refresh => self.refresh(),
            UiAction::Import => self.begin_import(),
            UiAction::EditCacheSize => self.edit_cache_size(),
            UiAction::ClearCache => self.clear_playback_cache(now),
            UiAction::OpenRoute(route) => self.open_route(route),
        }
        false
    }

    pub(crate) fn scroll_help_up(&mut self, lines: u16)
        ensures
            old(self)@.wf() ==> final(self)@.wf(),
            final(self)@ == (AppView { overlay: old(self)@.overlay.scrolled_up(lines as nat), ..old(self)@ }),
    {
        self.overlay.help_scroll = self.overlay.help_scroll.saturating_sub(lines);
    }

    pub(crate) fn scroll_help_down(&mut self, lines: u16)
        ensures
            old(self)@.wf() ==> final(self)@.wf(),
            final(self)@ == (AppView { overlay: old(self)@.overlay.scrolled_down(lines as nat), ..old(self)@ }),
    {
        let scroll: u16 = self.overlay.help_scroll.saturating_add(lines);
        self.overlay.help_scroll = if scroll <= HELP_MAX_SCROLL {
            scroll
        } else {
            HELP_MAX_SCROLL
        };
    }

    fn help_key(&mut self, code: KeyCode)
        ensures
            old(self)@.wf() ==> final(self)@.wf(),
            final(self)@ == (AppView { overlay: old(self)@.overlay.help_keyed(code), ..old(self)@ }),
    {
        match code {
            KeyCode::Char(c) => {
                if c == '?' {
                    self.toggle_help();
                } else if c == 'k' {
                    self.scroll_help_up(1);
                } else if c == 'j' {
                    self.scroll_help_down(1);
                }
            },
            KeyCode::Up => self.scroll_help_up(1),
            KeyCode::Down => self.scroll_help_down(1),
            KeyCode::PageUp => self.scroll_help_up(6),
            KeyCode::PageDown => self.scroll_help_down(6),
            KeyCode::Home => {
                self.overlay.help_scroll = 0;
            },
            KeyCode::End => {
                self.overlay.help_scroll = HELP_MAX_SCROLL;
            },
            _ => {},
        }
    }

    fn submit(&mut self)
        ensures
            old(self)@.wf() ==> final(self)@.wf(),
            final(self)@ == old(self)@.submitted(),
    {
        proof {
            reveal(AppView::submitted);
        }
        match self.prompt.mode {
            InputMode::Search => self.search_online(),
            InputMode::LocalSearch => self.search_local(),
            InputMode::Download => self.start_download(),
            InputMode::CacheSize => self.set_cache_size(),
            InputMode::Import => self.start_import(),
            InputMode::Palette => {},
            InputMode::Normal => {},
        }
    }

    pub(crate) fn type_key(&mut self, key: KeyEvent) -> (r: bool)
        ensures
            old(self)@.wf() ==> final(self)@.wf(),
            final(self)@ == old(self)@.typed(key),
            r == submits(key),
    {
        proof {
            reveal(AppView::typed);
            let line = Line { text: self@.prompt.input, cursor: self@.prompt.cursor };
            if is_boundary(line.text, line.cursor) {
                lemma_cursor_stays_inside(line, key);
            }
        }
        let mut input: String = self.prompt.input.clone();
        let mut cursor: usize = self.prompt.cursor;
        let edit = edit_input(&mut input, &mut cursor, key);
        self.prompt.input = input;
        self.prompt.cursor = cursor;
        edit == InputEdit::Submit
    }

    fn choose_kind(&mut self, kind: SearchKind)
        ensures
            old(self)@.wf() ==> final(self)@.wf(),
            final(self)@ == old(self)@.kind_chosen(kind),
    {
        proof {
            reveal(AppView::kind_chosen);
        }
        self.clear_prompt(InputMode::Search);
        self.prompt.search_kind = kind;
        let mut status: String = "搜索范围：".to_owned();
        status.append(search_kind_label(kind));
        self.status = status;
    }

    fn pane_action(&self, key: KeyEvent) -> (r: Option<UiAction>)
        ensures
            r == self@.action_in_pane(key),
    {
        if key.code == KeyCode::Char('?') {
            return Some(UiAction::ToggleHelp);
        }
        if self.route == Route::Account {
            if key.code == KeyCode::Char('s') {
                return Some(UiAction::EditCacheSize);
            }
            if key.code == KeyCode::Char('X') {
                return Some(UiAction::ClearCache);
            }
        }
        normal_action(self.focus, self.playback.current.is_some(), key)
    }

    /// Does what a key stands for, and says whether the program ends.
    pub fn handle_key(&mut self, key: KeyEvent, now: Instant) -> (r: bool)
        requires
            old(self)@.wf(),
        ensures
            final(self)@.wf(),
            final(self)@ == old(self)@.keyed(key, now),
            r == old(self)@.quits(key),
    {
        proof {
            reveal(AppView::keyed);
        }
        if key.code == KeyCode::Char('c') && key.modifiers.control {
            return true;
        }
        if key.code == KeyCode::Esc {
            self.go_back();
            return false;
        }
        if self.overlay.show_help {
            self.help_key(key.code);
            return false;
        }
        if self.overlay.show_details {
            return false;
        }
        if is_palette_key(key) {
            self.open_palette();
            return false;
        }
        if self.prompt.mode == InputMode::Palette {
            self.palette_key(key, now);
            return false;
        }
        if self.prompt.mode != InputMode::Normal {
            if self.type_key(key) {
                self.submit();
            }
            return false;
        }
        if self.route == Route::Search {
            if let Some(kind) = search_kind_key(key.code) {
                self.choose_kind(kind);
                return false;
            }
        }
        match self.pane_action(key) {
            Some(action) => self.dispatch_action(action, now),
            None => false,
        }
    }
}

/// While a line is typed, a key that is not handed in only changes the line:
/// a question mark is a character of it before it asks for help.
pub proof fn lemma_typing_comes_first(app: AppView, key: KeyEvent, now: Instant)
    requires
        app.prompt.mode != InputMode::Normal,
        !app.overlay.show_help,
        !app.overlay.show_details,
        key.code != KeyCode::Esc,
        !AppView::interrupts(key),
        !submits(key),
        !opens_palette(key),
        app.prompt.mode != InputMode::Palette,
    ensures
        app.keyed(key, now) == app.typed(key),
        !app.quits(key),
        app.keyed(key, now).commands == app.commands,
{
    reveal(AppView::keyed);
    reveal(AppView::typed);
}

/// While the help is shown, no key reaches the panes.
pub proof fn lemma_help_keeps_panes(app: AppView, key: KeyEvent, now: Instant)
    requires
        app.overlay.show_help,
    ensures
        app.keyed(key, now) == (AppView { overlay: app.keyed(key, now).overlay, ..app }),
        app.overlay.help_scroll <= HELP_MAX_SCROLL ==> app.keyed(key, now).overlay.help_scroll <= HELP_MAX_SCROLL,
{
    reveal(AppView::keyed);
    reveal(AppView::back_asked);
}

// Laws of the keys.

/// Whether keys go to the panes: nothing lies on top, and nothing is typed.
pub open spec fn is_at_rest(app: AppView) -> bool {
    !app.overlay.show_help && !app.overlay.show_details && app.prompt.mode == InputMode::Normal
}

/// What the player is told by keys: to pause or go on, to seek five seconds
/// forth or back while a track is there, and to be louder or quieter.
pub proof fn lemma_player_keys(app: AppView, now: Instant)
    requires
        is_at_rest(app),
        app.playback.has_player,
    ensures
        app.keyed(plain_key(KeyCode::Char(' ')), now) == app.sent(CommandInfo::TogglePause),
        app.playback.current is Some ==> app.keyed(plain_key(KeyCode::Char(']')), now) == app.sent(
            CommandInfo::SeekBy(5),
        ),
        app.playback.current is Some ==> app.keyed(plain_key(KeyCode::Char('[')), now) == app.sent(
            CommandInfo::SeekBy(-5),
        ),
        app.playback.current is None ==> app.keyed(plain_key(KeyCode::Char(']')), now) == app,
        app.keyed(plain_key(KeyCode::Char('+')), now) == app.sent(CommandInfo::VolumeUp),
        app.keyed(plain_key(KeyCode::Char('=')), now) == app.sent(CommandInfo::VolumeUp),
        app.keyed(plain_key(KeyCode::Char('-')), now) == app.sent(CommandInfo::VolumeDown),
{
    reveal(AppView::keyed);
    reveal(AppView::acted);
    reveal(AppView::player_told);
}

/// Keys that skip tracks, change the mode and deal with the selected track.
pub proof fn lemma_track_keys(app: AppView, now: Instant)
    requires
        is_at_rest(app),
    ensures
        app.keyed(plain_key(KeyCode::Char('n')), now) == app.track_skipped(1),
        app.keyed(plain_key(KeyCode::Char('p')), now) == app.track_skipped(-1),
        app.keyed(plain_key(KeyCode::Char('m')), now) == app.mode_cycled(),
        app.keyed(plain_key(KeyCode::Char('a')), now) == app.enqueue_asked(),
        app.keyed(plain_key(KeyCode::Char('d')), now) == app.dequeue_asked(),
        app.keyed(plain_key(KeyCode::Char('f')), now) == app.favorite_asked(),
        app.keyed(plain_key(KeyCode::Char('o')), now) == app.organize_started(),
        app.keyed(plain_key(KeyCode::Char('i')), now).overlay.show_details <==> app.selected_track() is Some,
        app.keyed(plain_key(KeyCode::Enter), now) == app.activated(),
{
    reveal(AppView::keyed);
    reveal(AppView::acted);
}

/// Keys that move the selection and the focus.
pub proof fn lemma_moving_keys(app: AppView, now: Instant)
    requires
        is_at_rest(app),
    ensures
        app.keyed(plain_key(KeyCode::Char('j')), now) == app.selection_moved(1),
        app.keyed(plain_key(KeyCode::Down), now) == app.selection_moved(1),
        app.keyed(plain_key(KeyCode::Char('k')), now) == app.selection_moved(-1),
        app.keyed(plain_key(KeyCode::Up), now) == app.selection_moved(-1),
        app.keyed(plain_key(KeyCode::PageDown), now) == app.selection_moved(10),
        app.keyed(plain_key(KeyCode::PageUp), now) == app.selection_moved(-10),
        app.keyed(plain_key(KeyCode::Char('g')), now) == app.selection_first(),
        app.keyed(plain_key(KeyCode::Home), now) == app.selection_first(),
        app.keyed(plain_key(KeyCode::Char('G')), now) == app.selection_last(),
        app.keyed(plain_key(KeyCode::End), now) == app.selection_last(),
        app.keyed(plain_key(KeyCode::Tab), now) == app.focus_moved(false),
        app.keyed(plain_key(KeyCode::Right), now) == app.focus_moved(false),
        app.keyed(plain_key(KeyCode::BackTab), now) == app.focus_moved(true),
        app.keyed(plain_key(KeyCode::Left), now) == app.focus_moved(true),
        app.keyed(plain_key(KeyCode::Esc), now) == app.back_asked(),
{
    reveal(AppView::keyed);
    reveal(AppView::acted);
}

/// Keys that ask for something: a search, a download, a login, an import, a
/// scan, the lyrics, the help, or the end.
pub proof fn lemma_asking_keys(app: AppView, now: Instant)
    requires
        is_at_rest(app),
    ensures
        app.keyed(plain_key(KeyCode::Char('/')), now) == app.search_asked(),
        app.keyed(plain_key(KeyCode::Char('D')), now) == app.download_asked(),
        app.keyed(plain_key(KeyCode::Char('L')), now) == app.login_started(),
        app.keyed(plain_key(KeyCode::Char('I')), now) == app.import_begun(),
        app.keyed(plain_key(KeyCode::Char('r')), now) == app.refresh_asked(),
        app.keyed(plain_key(KeyCode::Char('l')), now) == app.lyrics_toggled(),
        app.keyed(plain_key(KeyCode::Char('h')), now) == app.lyrics_panel_toggled(),
        app.keyed(plain_key(KeyCode::Char('?')), now).overlay.show_help,
        app.route == Route::Account ==> app.keyed(plain_key(KeyCode::Char('s')), now) == app.cache_size_asked(),
        app.route == Route::Account ==> app.keyed(plain_key(KeyCode::Char('X')), now) == app.cache_clear_asked(now),
        app.quits(plain_key(KeyCode::Char('q'))),
        forall|c: char| app.quits(#[trigger] plain_key(KeyCode::Char(c))) ==> c == 'q',
{
    reveal(AppView::keyed);
    reveal(AppView::acted);
}

/// Control and c ends the program whatever is shown, and only that and the key
/// for it do.
pub proof fn lemma_quitting(app: AppView, key: KeyEvent)
    ensures
        key.code == KeyCode::Char('c') && key.modifiers.control ==> app.quits(key),
        app.quits(key) ==> (key.code == KeyCode::Char('c') && key.modifiers.control) || (key.code == KeyCode::Char('q')
            && is_at_rest(app)),
{
}

/// In the search, four keys choose what is searched for.
pub proof fn lemma_search_scopes(app: AppView, now: Instant)
    requires
        is_at_rest(app),
        app.route == Route::Search,
    ensures
        app.keyed(plain_key(KeyCode::F(1)), now).prompt.search_kind == SearchKind::Song,
        app.keyed(plain_key(KeyCode::F(2)), now).prompt.search_kind == SearchKind::Album,
        app.keyed(plain_key(KeyCode::F(3)), now).prompt.search_kind == SearchKind::Artist,
        app.keyed(plain_key(KeyCode::F(4)), now).prompt.search_kind == SearchKind::Playlist,
        app.keyed(plain_key(KeyCode::F(2)), now).prompt.mode == InputMode::Search,
{
    reveal(AppView::keyed);
    reveal(AppView::kind_chosen);
}

/// A line that is handed in goes to what it was typed for.
pub proof fn lemma_lines_handed_in(app: AppView, now: Instant)
    requires
        !app.overlay.show_help,
        !app.overlay.show_details,
    ensures
        app.prompt.mode == InputMode::Search ==> app.keyed(plain_key(KeyCode::Enter), now) == app.online_searched(),
        app.prompt.mode == InputMode::LocalSearch ==> app.keyed(plain_key(KeyCode::Enter), now)
            == app.local_searched(),
        app.prompt.mode == InputMode::Download ==> app.keyed(plain_key(KeyCode::Enter), now) == app.download_started(),
        app.prompt.mode == InputMode::CacheSize ==> app.keyed(plain_key(KeyCode::Enter), now) == app.cache_size_set(),
        app.prompt.mode == InputMode::Import ==> app.keyed(plain_key(KeyCode::Enter), now) == app.import_started(),
{
    reveal(AppView::keyed);
    reveal(AppView::typed);
    reveal(AppView::submitted);
    let key = plain_key(KeyCode::Enter);
    let line = Line { text: app.prompt.input, cursor: app.prompt.cursor };
    assert(line.edited(key) == line);
    assert(app.typed(key) == app);
}

/// Going back closes one thing at a time: the help, then the details, then what
/// is typed, then a download, and only then a pane is left.
pub proof fn lemma_back_closes_one_thing(app: AppView)
    ensures
        app.overlay.show_help ==> !app.back_asked().overlay.show_help && app.back_asked().overlay.show_details
            == app.overlay.show_details && app.back_asked().prompt == app.prompt && app.back_asked().focus == app.focus,
        !app.overlay.show_help && app.overlay.show_details ==> !app.back_asked().overlay.show_details
            && app.back_asked().prompt == app.prompt && app.back_asked().focus == app.focus,
        !app.overlay.show_help && !app.overlay.show_details && app.prompt.mode != InputMode::Normal
            ==> app.back_asked().prompt.mode == InputMode::Normal && app.back_asked().prompt.input.len() == 0
            && app.back_asked().focus == app.focus && app.back_asked().jobs.active_job == app.jobs.active_job,
        is_at_rest(app) && app.downloading() ==> app.back_asked().jobs.active_job is None
            && app.back_asked().commands == app.commands.push(CommandInfo::AbortJob) && app.back_asked().focus
            == app.focus,
        is_at_rest(app) && !app.downloading() ==> app.back_asked() == app.stepped_back(),
{
    reveal(AppView::back_asked);
    reveal(AppView::download_cancelled);
}

/// The library is searched where it is shown, and the service elsewhere; what
/// is refreshed is the library's directories, or the entry that is shown; the
/// limit of the cache is edited from what it is.
pub proof fn lemma_asked(app: AppView)
    ensures
        app.route == Route::Local ==> app.search_asked().prompt.mode == InputMode::LocalSearch
            && app.search_asked().route == Route::Local,
        app.route != Route::Local ==> app.search_asked().route == Route::Search,
        app.download_asked().route == Route::Downloads,
        app.download_asked().prompt.mode == InputMode::Download,
        app.route == Route::Local ==> app.refresh_asked() == app.scan_started(),
        app.route != Route::Local ==> app.refresh_asked() == app.route_set(app.route),
        app.cache_size_asked().prompt.mode == InputMode::CacheSize,
        app.cache_size_asked().prompt.input == size_input(app.setup.cache_stats.max_bytes as nat),
{
    reveal(AppView::search_asked);
    reveal(AppView::route_opened);
    reveal(AppView::download_asked);
    reveal(AppView::refresh_asked);
    reveal(AppView::cache_size_asked);
    crate::tui::app::lemma_route_is_set(app, Route::Search);
    crate::tui::app::lemma_route_is_set(app, Route::Downloads);
}

/// The help scrolls line by line or six lines at once, within its length.
pub proof fn lemma_help_scrolls(overlay: OverlayView)
    requires
        overlay.help_scroll <= 8,
    ensures
        overlay.help_scroll < 8 ==> overlay.help_keyed(KeyCode::Down).help_scroll == overlay.help_scroll + 1,
        overlay.help_scroll > 0 ==> overlay.help_keyed(KeyCode::Up).help_scroll == overlay.help_scroll - 1,
        overlay.help_scroll <= 2 ==> overlay.help_keyed(KeyCode::PageDown).help_scroll == overlay.help_scroll + 6,
        overlay.help_scroll >= 6 ==> overlay.help_keyed(KeyCode::PageUp).help_scroll == overlay.help_scroll - 6,
        overlay.help_keyed(KeyCode::Home).help_scroll == 0,
        overlay.help_keyed(KeyCode::End).help_scroll == 8,
        overlay.help_keyed(KeyCode::Char('?')).show_help == !overlay.show_help,
        overlay.help_keyed(KeyCode::Down).show_help == overlay.show_help,
{
}

} // verus!
