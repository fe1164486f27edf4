//! The state of the interface: what it shows, what it plays and what it waits
//! for. It does nothing outside itself: what is to be done there is put down as
//! a command.

use std::collections::HashMap;
use vstd::prelude::*;

use crate::auth::{Identity, QrChallenge};
use crate::catalog::{playlists_in_scope, scoped};
use crate::discovery::{OnlineTrack, PlaylistInfo, PlaylistScope, PlaylistSummary, RankInfo, RankedTrack, SearchKind, TrackInfo};
use crate::library::{LibraryStats, Track};
use crate::playback_cache::CacheStats;
use crate::player::{is_idle_state, PlayerState};
use crate::text::{text_option, texts, trim_of, trimmed};
use crate::time::{Instant, MAX_NANOS};
use crate::tui::command::{command_infos, ColumnLoad, ColumnRequest, Command, CommandInfo, LoadInfo, LoadRequest, SEARCH_RESULTS};
use crate::tui::input::{is_boundary, lemma_ends_are_boundaries};
use crate::tui::layout::{HitRegions, HitView};
use crate::tui::routes::{is_local_route, label_of, route_index, Focus, InputMode, JobKind, PlayMode, Route};
use crate::tui::rows::{
    column_infos, copy_playlists, copy_ranked, copy_tracks, online_rows, playlist_infos, rank_infos, ranked_rows, row_infos,
    rows_of_online, rows_of_ranked, rows_of_tracks, local_rows, track_infos, BrowserColumn, ColumnInfo, ColumnPhase, Content,
    ContentInfo, LyricsInfo, LyricsState, PhaseInfo, RowInfo, TrackRow,
};

verus! {

/// The job that runs in the background.
#[derive(Clone, Copy, Debug, PartialEq, Eq, Structural)]
pub struct ActiveJob {
    pub id: u64,
    pub kind: JobKind,
}

/// A click on a row of a pane.
#[derive(Clone, Copy, Debug, PartialEq, Eq, Structural)]
pub struct Click {
    pub pane: usize,
    pub row: usize,
    pub at: Instant,
}

/// The tracks of a playlist that were loaded ahead.
#[derive(Clone, Debug)]
pub struct WarmPlaylist {
    pub name: String,
    pub tracks: Vec<OnlineTrack>,
}

#[verifier::ext_equal]
pub struct WarmInfo {
    pub name: Seq<char>,
    pub tracks: Seq<TrackInfo>,
}

impl View for WarmPlaylist {
    type V = WarmInfo;

    open spec fn view(&self) -> WarmInfo {
        WarmInfo { name: self.name@, tracks: track_infos(self.tracks@) }
    }
}

pub open spec fn warm_infos(cache: Map<u64, WarmPlaylist>) -> Map<u64, WarmInfo> {
    cache.map_values(|playlist: WarmPlaylist| playlist@)
}

pub open spec fn tracks_option(cache: Option<Vec<OnlineTrack>>) -> Option<Seq<TrackInfo>> {
    match cache {
        Some(tracks) => Some(track_infos(tracks@)),
        None => None,
    }
}

pub open spec fn ranked_option(cache: Option<Vec<RankedTrack>>) -> Option<Seq<RankInfo>> {
    match cache {
        Some(tracks) => Some(rank_infos(tracks@)),
        None => None,
    }
}

pub open spec fn playlists_option(cache: Option<Vec<PlaylistSummary>>) -> Option<Seq<PlaylistInfo>> {
    match cache {
        Some(list) => Some(playlist_infos(list@)),
        None => None,
    }
}

pub open spec fn row_option(row: Option<TrackRow>) -> Option<RowInfo> {
    match row {
        Some(track) => Some(track@),
        None => None,
    }
}

/// The first pane: what it lists, and what it waits for.
#[derive(Debug)]
pub struct Pane {
    pub title: String,
    pub content: Content,
    pub selected: usize,
    pub loading: bool,
    pub generation: u64,
}

#[verifier::ext_equal]
pub struct PaneView {
    pub title: Seq<char>,
    pub content: ContentInfo,
    pub selected: nat,
    pub loading: bool,
    pub generation: u64,
}

impl View for Pane {
    type V = PaneView;

    open spec fn view(&self) -> PaneView {
        PaneView {
            title: self.title@,
            content: self.content@,
            selected: self.selected as nat,
            loading: self.loading,
            generation: self.generation,
        }
    }
}

/// The line that is typed, and what it is for.
#[derive(Debug)]
pub struct Prompt {
    pub mode: InputMode,
    pub input: String,
    pub cursor: usize,
    pub search_kind: SearchKind,
}

#[verifier::ext_equal]
pub struct PromptView {
    pub mode: InputMode,
    pub input: Seq<char>,
    pub cursor: nat,
    pub search_kind: SearchKind,
}

impl View for Prompt {
    type V = PromptView;

    open spec fn view(&self) -> PromptView {
        PromptView {
            mode: self.mode,
            input: self.input@,
            cursor: self.cursor as nat,
            search_kind: self.search_kind,
        }
    }
}

/// What lies over the panes.
#[derive(Debug)]
pub struct Overlay {
    pub show_help: bool,
    pub help_scroll: u16,
    pub show_details: bool,
    /// The command that is selected among those that were found.
    pub palette_selected: usize,
}

#[verifier::ext_equal]
pub struct OverlayView {
    pub show_help: bool,
    pub help_scroll: nat,
    pub show_details: bool,
    pub palette_selected: nat,
}

impl View for Overlay {
    type V = OverlayView;

    open spec fn view(&self) -> OverlayView {
        OverlayView {
            show_help: self.show_help,
            help_scroll: self.help_scroll as nat,
            show_details: self.show_details,
            palette_selected: self.palette_selected as nat,
        }
    }
}

/// Who is logged in, and how far a login is.
#[derive(Debug)]
pub struct Account {
    pub identity: Option<Identity>,
    pub challenge: Option<QrChallenge>,
    pub qr: String,
    pub login_status: String,
    pub login_polling: bool,
    pub next_login_poll: Instant,
    /// Whether an answer about the account is awaited.
    pub auth_pending: bool,
}

#[verifier::ext_equal]
pub struct AccountView {
    pub identity: Option<Identity>,
    pub challenge: Option<QrChallenge>,
    pub qr: Seq<char>,
    pub login_status: Seq<char>,
    pub login_polling: bool,
    pub next_login_poll: Instant,
    pub auth_pending: bool,
}

impl View for Account {
    type V = AccountView;

    open spec fn view(&self) -> AccountView {
        AccountView {
            identity: self.identity,
            challenge: self.challenge,
            qr: self.qr@,
            login_status: self.login_status@,
            login_polling: self.login_polling,
            next_login_poll: self.next_login_poll,
            auth_pending: self.auth_pending,
        }
    }
}

/// What is played, and what comes next.
#[derive(Debug)]
pub struct Playback {
    /// Whether there is an audio output.
    pub has_player: bool,
    pub current: Option<u64>,
    pub current_track: Option<TrackRow>,
    pub play_queue: Vec<TrackRow>,
    pub queue_index: Option<usize>,
    pub play_mode: PlayMode,
    pub completion_latched: bool,
    pub lyrics: LyricsState,
    pub stream_generation: u64,
    pub player_state: PlayerState,
}

#[verifier::ext_equal]
pub struct PlaybackView {
    pub has_player: bool,
    pub current: Option<u64>,
    pub current_track: Option<RowInfo>,
    pub play_queue: Seq<RowInfo>,
    pub queue_index: Option<usize>,
    pub play_mode: PlayMode,
    pub completion_latched: bool,
    pub lyrics: LyricsInfo,
    pub stream_generation: u64,
    pub player_state: PlayerState,
}

impl View for Playback {
    type V = PlaybackView;

    open spec fn view(&self) -> PlaybackView {
        PlaybackView {
            has_player: self.has_player,
            current: self.current,
            current_track: row_option(self.current_track),
            play_queue: row_infos(self.play_queue@),
            queue_index: self.queue_index,
            play_mode: self.play_mode,
            completion_latched: self.completion_latched,
            lyrics: self.lyrics@,
            stream_generation: self.stream_generation,
            player_state: self.player_state,
        }
    }
}

/// What was loaded ahead.
#[derive(Debug)]
pub struct WarmCache {
    pub daily: Option<Vec<OnlineTrack>>,
    pub recommended: Option<Vec<PlaylistSummary>>,
    pub playlists: Option<Vec<PlaylistSummary>>,
    pub playlist_tracks: HashMap<u64, WarmPlaylist>,
    pub listening_week: Option<Vec<RankedTrack>>,
    pub listening_all: Option<Vec<RankedTrack>>,
    /// Whether more is being loaded.
    pub warming: bool,
}

#[verifier::ext_equal]
pub struct WarmView {
    pub daily: Option<Seq<TrackInfo>>,
    pub recommended: Option<Seq<PlaylistInfo>>,
    pub playlists: Option<Seq<PlaylistInfo>>,
    pub playlist_tracks: Map<u64, WarmInfo>,
    pub listening_week: Option<Seq<RankInfo>>,
    pub listening_all: Option<Seq<RankInfo>>,
    pub warming: bool,
}

impl View for WarmCache {
    type V = WarmView;

    open spec fn view(&self) -> WarmView {
        WarmView {
            daily: tracks_option(self.daily),
            recommended: playlists_option(self.recommended),
            playlists: playlists_option(self.playlists),
            playlist_tracks: warm_infos(self.playlist_tracks@),
            listening_week: ranked_option(self.listening_week),
            listening_all: ranked_option(self.listening_all),
            warming: self.warming,
        }
    }
}

/// The work in the background.
#[derive(Debug)]
pub struct Jobs {
    pub next_job_id: u64,
    pub active_job: Option<ActiveJob>,
    /// Whether an operation on the playback cache runs.
    pub cache_pending: bool,
    pub cache_clear_armed_until: Option<Instant>,
}

#[verifier::ext_equal]
pub struct JobsView {
    pub next_job_id: u64,
    pub active_job: Option<ActiveJob>,
    pub cache_pending: bool,
    pub cache_clear_armed_until: Option<Instant>,
}

impl View for Jobs {
    type V = JobsView;

    open spec fn view(&self) -> JobsView {
        JobsView {
            next_job_id: self.next_job_id,
            active_job: self.active_job,
            cache_pending: self.cache_pending,
            cache_clear_armed_until: self.cache_clear_armed_until,
        }
    }
}

/// What the interface knows of its surroundings.
#[derive(Debug)]
pub struct Setup {
    pub cache_stats: CacheStats,
    pub local_stats: Option<LibraryStats>,
    pub library_roots: Vec<String>,
    pub home: Option<String>,
    /// Whether work can be done in the background.
    pub background: bool,
}

#[verifier::ext_equal]
pub struct SetupView {
    pub cache_stats: CacheStats,
    pub local_stats: Option<LibraryStats>,
    pub library_roots: Seq<Seq<char>>,
    pub home: Option<Seq<char>>,
    pub background: bool,
}

impl View for Setup {
    type V = SetupView;

    open spec fn view(&self) -> SetupView {
        SetupView {
            cache_stats: self.cache_stats,
            local_stats: self.local_stats,
            library_roots: texts(self.library_roots@),
            home: text_option(self.home),
            background: self.background,
        }
    }
}

#[derive(Debug)]
pub struct App {
    pub route: Route,
    pub nav_selected: usize,
    pub focus: Focus,
    pub previous_focus: Focus,
    pub show_lyrics: bool,
    /// Whether the lyrics are closed.
    pub hide_lyrics: bool,
    pub pane: Pane,
    pub columns: Vec<BrowserColumn>,
    pub prompt: Prompt,
    pub overlay: Overlay,
    pub account: Account,
    pub playback: Playback,
    pub warm: WarmCache,
    pub jobs: Jobs,
    pub setup: Setup,
    pub hits: HitRegions,
    pub last_click: Option<Click>,
    pub tick: usize,
    pub status: String,
    pub commands: Vec<Command>,
}

#[verifier::ext_equal]
pub struct AppView {
    pub route: Route,
    pub nav_selected: nat,
    pub focus: Focus,
    pub previous_focus: Focus,
    pub show_lyrics: bool,
    pub hide_lyrics: bool,
    pub pane: PaneView,
    pub columns: Seq<ColumnInfo>,
    pub prompt: PromptView,
    pub overlay: OverlayView,
    pub account: AccountView,
    pub playback: PlaybackView,
    pub warm: WarmView,
    pub jobs: JobsView,
    pub setup: SetupView,
    pub hits: HitView,
    pub last_click: Option<Click>,
    pub tick: usize,
    pub status: Seq<char>,
    pub commands: Seq<CommandInfo>,
}

impl View for App {
    type V = AppView;

    open spec fn view(&self) -> AppView {
        AppView {
            route: self.route,
            nav_selected: self.nav_selected as nat,
            focus: self.focus,
            previous_focus: self.previous_focus,
            show_lyrics: self.show_lyrics,
            hide_lyrics: self.hide_lyrics,
            pane: self.pane@,
            columns: column_infos(self.columns@),
            prompt: self.prompt@,
            overlay: self.overlay@,
            account: self.account@,
            playback: self.playback@,
            warm: self.warm@,
            jobs: self.jobs@,
            setup: self.setup@,
            hits: self.hits@,
            last_click: self.last_click,
            tick: self.tick,
            status: self.status@,
            commands: command_infos(self.commands@),
        }
    }
}

/// The number after `n`, which starts again from nothing.
pub open spec fn successor(n: u64) -> u64 {
    if n == u64::MAX {
        0
    } else {
        (n + 1) as u64
    }
}

impl PromptView {
    /// An empty line.
    pub open spec fn cleared(self, mode: InputMode) -> PromptView {
        PromptView { mode, input: seq![], cursor: 0, ..self }
    }
}

impl AppView {
    /// What holds of every state: the selected entry of the navigation exists,
    /// so does the track of the queue that is played, the regions of the mouse
    /// lie within the range of positions, no track is longer than a span can be,
    /// and the cursor stands between two characters of the line or at its ends.
    pub open spec fn wf(self) -> bool {
        &&& self.nav_selected < 14
        &&& self.playback.queue_index is Some ==> self.playback.queue_index->0 < self.playback.play_queue.len()
        &&& self.hits.wf()
        &&& self.playback.player_state.duration@ <= MAX_NANOS
        &&& is_boundary(self.prompt.input, self.prompt.cursor)
    }

    pub open spec fn with_mode(self, mode: InputMode) -> AppView {
        AppView { prompt: PromptView { mode, ..self.prompt }, ..self }
    }

    pub open spec fn with_title(self, title: Seq<char>) -> AppView {
        AppView { pane: PaneView { title, ..self.pane }, ..self }
    }

    pub open spec fn sent(self, command: CommandInfo) -> AppView {
        AppView { commands: self.commands.push(command), ..self }
    }

    pub open spec fn said(self, status: Seq<char>) -> AppView {
        AppView { status, ..self }
    }

    /// The first pane waits for what it is loaded with.
    pub open spec fn load_spawned(self, request: LoadInfo) -> AppView {
        let generation = successor(self.pane.generation);
        AppView { pane: PaneView { generation, loading: true, content: ContentInfo::Empty, ..self.pane }, ..self }.sent(
            CommandInfo::Load { generation, request },
        )
    }

    /// The first pane is loaded with what the library holds.
    pub open spec fn local_load_started(self) -> AppView {
        if !is_local_route(self.route) {
            self
        } else if self.setup.background {
            self.load_spawned(LoadInfo::Local(self.route))
        } else {
            self.sent(CommandInfo::QueryLocal(self.route))
        }
    }

    /// The selected row exists, as far as there are rows.
    pub open spec fn selection_clamped(self) -> AppView {
        let last = if self.pane.content.count() > 0 { (self.pane.content.count() - 1) as nat } else { 0 };
        AppView {
            pane: PaneView { selected: if self.pane.selected <= last { self.pane.selected } else { last }, ..self.pane },
            ..self
        }
    }

    pub open spec fn local_queried(
        self,
        result: Result<(Seq<RowInfo>, Option<LibraryStats>), Seq<char>>,
    ) -> AppView {
        (match result {
            Ok((rows, stats)) => AppView {
                pane: PaneView { content: ContentInfo::Tracks(rows), ..self.pane },
                setup: SetupView { local_stats: stats, ..self.setup },
                ..self
            },
            Err(message) => self.said(message),
        }).selection_clamped()
    }

    /// What is typed is searched in the library; without a query, all of it is
    /// shown again.
    #[verifier::opaque]
    pub open spec fn local_searched(self) -> AppView {
        let query = trim_of(self.prompt.input);
        let quiet = self.with_mode(InputMode::Normal);
        if query.len() == 0 {
            quiet.local_load_started()
        } else {
            quiet.load_spawned(LoadInfo::LocalSearch(query))
        }
    }

    /// What is typed is searched at the service.
    #[verifier::opaque]
    pub open spec fn online_searched(self) -> AppView {
        let keyword = trim_of(self.prompt.input);
        if keyword.len() == 0 {
            self.said("请输入搜索关键词"@)
        } else {
            self.with_mode(InputMode::Normal).load_spawned(
                LoadInfo::Search { keyword, kind: self.prompt.search_kind, limit: SEARCH_RESULTS as nat },
            )
        }
    }

    pub open spec fn login_demanded(self) -> AppView {
        if self.account.identity is None {
            AppView { pane: PaneView { content: ContentInfo::Empty, ..self.pane }, ..self }.said("此入口需要登录，按 L 扫码登录"@)
        } else {
            self
        }
    }

    /// The first pane shows what was loaded ahead.
    pub open spec fn content_used(self, content: ContentInfo) -> AppView {
        AppView { pane: PaneView { content, loading: false, selected: 0, ..self.pane }, status: seq![], ..self }
    }

    #[verifier::opaque]
    pub open spec fn daily_opened(self) -> AppView {
        if self.account.identity is None {
            self.login_demanded()
        } else {
            match self.warm.daily {
                Some(tracks) => self.with_title("每日推荐"@).content_used(
                    ContentInfo::Tracks(rows_of_online(tracks)),
                ),
                None => self.load_spawned(LoadInfo::Daily),
            }
        }
    }

    #[verifier::opaque]
    pub open spec fn recommended_opened(self) -> AppView {
        if self.account.identity is None {
            self.login_demanded()
        } else {
            match self.warm.recommended {
                Some(list) => self.content_used(ContentInfo::Playlists(list)),
                None => self.load_spawned(LoadInfo::Recommended),
            }
        }
    }

    #[verifier::opaque]
    pub open spec fn playlists_opened(self, scope: PlaylistScope) -> AppView {
        match self.account.identity {
            None => self.login_demanded(),
            Some(identity) => match self.warm.playlists {
                Some(list) => self.content_used(ContentInfo::Playlists(scoped(list, scope))),
                None => self.load_spawned(LoadInfo::Playlists { user_id: identity.user_id, scope }),
            },
        }
    }

    #[verifier::opaque]
    pub open spec fn albums_opened(self) -> AppView {
        if self.account.identity is None {
            self.login_demanded()
        } else {
            self.load_spawned(LoadInfo::Albums)
        }
    }

    #[verifier::opaque]
    pub open spec fn artists_opened(self) -> AppView {
        if self.account.identity is None {
            self.login_demanded()
        } else {
            self.load_spawned(LoadInfo::Artists)
        }
    }

    #[verifier::opaque]
    pub open spec fn rank_opened(self) -> AppView {
        match self.account.identity {
            None => self.login_demanded(),
            Some(identity) => match self.warm.listening_week {
                Some(tracks) => self.with_title("本周听歌排行"@).content_used(
                    ContentInfo::Tracks(rows_of_ranked(tracks)),
                ),
                None => self.load_spawned(LoadInfo::ListeningRank { user_id: identity.user_id }),
            },
        }
    }

    /// The columns from `keep` on are closed, and what they wait for is given up.
    #[verifier::opaque]
    pub open spec fn columns_cut(self, keep: nat) -> AppView {
        if keep >= self.columns.len() {
            self
        } else {
            let closed = self.columns.skip(keep as int);
            AppView {
                columns: self.columns.take(keep as int),
                commands: self.commands + closed.map_values(|column: ColumnInfo| CommandInfo::AbortColumn(column.id)),
                ..self
            }
        }
    }

    /// How many columns stay when one is opened from the pane in focus.
    pub open spec fn columns_kept(self) -> nat {
        match self.focus {
            Focus::Content => 0,
            Focus::Column(index) => (index + 1) as nat,
            _ => self.columns.len(),
        }
    }

    /// A column is opened to the right of the pane in focus, and gets the focus.
    #[verifier::opaque]
    pub open spec fn column_opened(self, title: Seq<char>, content: ContentInfo, phase: PhaseInfo) -> AppView {
        let cut = self.columns_cut(self.columns_kept());
        let id = successor(cut.jobs.next_job_id);
        AppView {
            jobs: JobsView { next_job_id: id, ..cut.jobs },
            columns: cut.columns.push(ColumnInfo { id, title, content, selected: 0, phase }),
            focus: Focus::Column(cut.columns.len() as usize),
            ..cut
        }
    }

    #[verifier::opaque]
    pub open spec fn column_spawned(self, request: ColumnLoad) -> AppView {
        let opened = self.column_opened(request.name(), ContentInfo::Empty, PhaseInfo::Loading);
        opened.sent(CommandInfo::LoadColumn { id: opened.jobs.next_job_id, column: request })
    }

    /// A playlist is opened: at once if its tracks were loaded ahead.
    #[verifier::opaque]
    pub open spec fn playlist_opened(self, id: u64, name: Seq<char>) -> AppView {
        if self.warm.playlist_tracks.contains_key(id) {
            let warm = self.warm.playlist_tracks[id];
            self.column_opened(
                if warm.name.len() == 0 {
                    name
                } else {
                    warm.name
                },
                ContentInfo::Tracks(rows_of_online(warm.tracks)),
                PhaseInfo::Ready,
            )
        } else {
            self.column_spawned(ColumnLoad::Playlist { id, name })
        }
    }

    /// What an entry of the navigation starts from.
    #[verifier::opaque]
    pub open spec fn route_entered(self, route: Route) -> AppView {
        AppView {
            route,
            nav_selected: route_index(route) as nat,
            pane: PaneView {
                title: label_of(route),
                content: ContentInfo::Empty,
                selected: 0,
                loading: false,
                ..self.pane
            },
            prompt: self.prompt.cleared(InputMode::Normal),
            overlay: OverlayView { show_details: false, ..self.overlay },
            last_click: None,
            ..self.sent(CommandInfo::AbortLoad).columns_cut(0)
        }
    }

    /// An entry of the navigation is opened.
    #[verifier::opaque]
    pub open spec fn route_set(self, route: Route) -> AppView {
        let entered = self.route_entered(route);
        match route {
            Route::Favorites | Route::Local | Route::Recent | Route::Queue => entered.local_load_started(),
            Route::Daily => entered.daily_opened(),
            Route::Recommended => entered.recommended_opened(),
            Route::ListeningRank => entered.rank_opened(),
            Route::Created => entered.playlists_opened(PlaylistScope::Created),
            Route::Subscribed => entered.playlists_opened(PlaylistScope::Subscribed),
            Route::Artists => entered.artists_opened(),
            Route::Albums => entered.albums_opened(),
            Route::Search => entered.with_mode(InputMode::Search).said("输入关键词后按 Enter 搜索网易云"@),
            Route::Downloads => entered.said(
                if entered.jobs.active_job is Some {
                    "下载任务进行中，按 Esc 可取消"@
                } else {
                    "按 D 输入 track/album/playlist ID，可附加曲目范围"@
                },
            ),
            Route::Account => entered.said(seq![]),
        }
    }

    /// What the panes will need is loaded ahead, once somebody is logged in.
    #[verifier::opaque]
    pub open spec fn warm_up_started(self) -> AppView {
        match self.account.identity {
            Some(identity) => if self.warm.warming {
                self
            } else {
                AppView { warm: WarmView { warming: true, ..self.warm }, ..self }.sent(CommandInfo::WarmUp(identity.user_id))
            },
            None => self,
        }
    }
}

impl App {
    pub fn new(
        player: Option<PlayerState>,
        cache_stats: CacheStats,
        library_roots: Vec<String>,
        home: Option<String>,
        hide_lyrics: bool,
        background: bool,
        now: Instant,
    ) -> (r: App)
        requires
            player is Some ==> player->0.duration@ <= MAX_NANOS,
        ensures
            r@.wf(),
            r@ == AppView::start(player, r.playback.player_state, cache_stats, texts(library_roots@), text_option(home), hide_lyrics, background, now),
            player is Some ==> r.playback.player_state == player->0,
            player is None ==> is_idle_state(r.playback.player_state),
    {
        let has_player: bool = player.is_some();
        let status: String = if has_player {
            String::new()
        } else {
            "音频输出不可用".to_owned()
        };
        let player_state: PlayerState = match player {
            Some(state) => state,
            None => PlayerState::default(),
        };
        let mut app = App {
            route: Route::Local,
            nav_selected: Route::Local.index(),
            focus: Focus::Navigation,
            previous_focus: Focus::Content,
            show_lyrics: false,
            hide_lyrics,
            pane: Pane {
                title: Route::Local.label().to_owned(),
                content: Content::Empty,
                selected: 0,
                loading: false,
                generation: 0,
            },
            columns: Vec::new(),
            prompt: Prompt {
                mode: InputMode::Normal,
                input: String::new(),
                cursor: 0,
                search_kind: SearchKind::Song,
            },
            overlay: Overlay { show_help: false, help_scroll: 0, show_details: false, palette_selected: 0 },
            account: Account {
                identity: None,
                challenge: None,
                qr: String::new(),
                login_status: String::new(),
                login_polling: false,
                next_login_poll: now,
                auth_pending: false,
            },
            playback: Playback {
                has_player,
                current: None,
                current_track: None,
                play_queue: Vec::new(),
                queue_index: None,
                play_mode: PlayMode::Sequential,
                completion_latched: false,
                lyrics: LyricsState::Idle,
                stream_generation: 0,
                player_state,
            },
            warm: WarmCache {
                daily: None,
                recommended: None,
                playlists: None,
                playlist_tracks: HashMap::new(),
                listening_week: None,
                listening_all: None,
                warming: false,
            },
            jobs: Jobs { next_job_id: 0, active_job: None, cache_pending: false, cache_clear_armed_until: None },
            setup: Setup { cache_stats, local_stats: None, library_roots, home, background },
            hits: HitRegions::default(),
            last_click: None,
            tick: 0,
            status,
            commands: Vec::new(),
        };
        proof {
            lemma_ends_are_boundaries(seq![]);
            assert(app.prompt.input@ =~= seq![]);
            assert(app.account.qr@ =~= seq![]);
            assert(app.account.login_status@ =~= seq![]);
            assert(has_player ==> app.status@ =~= seq![]);
            assert(app@.columns =~= seq![]);
            assert(app@.playback.play_queue =~= seq![]);
            assert(app@.commands =~= seq![]);
            assert(app@.warm.playlist_tracks =~= Map::empty());
            assert(app@ == AppView::idle(
                has_player,
                app.playback.player_state,
                cache_stats,
                texts(app.setup.library_roots@),
                text_option(app.setup.home),
                hide_lyrics,
                background,
                now,
            ));
        }
        app.load_local();
        app.check_identity();
        app
    }
}

impl AppView {
    /// A state in which nothing has happened.
    pub open spec fn idle(
        has_player: bool,
        player_state: PlayerState,
        cache_stats: CacheStats,
        library_roots: Seq<Seq<char>>,
        home: Option<Seq<char>>,
        hide_lyrics: bool,
        background: bool,
        now: Instant,
    ) -> AppView {
        AppView {
            route: Route::Local,
            nav_selected: route_index(Route::Local) as nat,
            focus: Focus::Navigation,
            previous_focus: Focus::Content,
            show_lyrics: false,
            hide_lyrics,
            pane: PaneView {
                title: label_of(Route::Local),
                content: ContentInfo::Empty,
                selected: 0,
                loading: false,
                generation: 0,
            },
            columns: seq![],
            prompt: PromptView { mode: InputMode::Normal, input: seq![], cursor: 0, search_kind: SearchKind::Song },
            overlay: OverlayView { show_help: false, help_scroll: 0, show_details: false, palette_selected: 0 },
            account: AccountView {
                identity: None,
                challenge: None,
                qr: seq![],
                login_status: seq![],
                login_polling: false,
                next_login_poll: now,
                auth_pending: false,
            },
            playback: PlaybackView {
                has_player,
                current: None,
                current_track: None,
                play_queue: seq![],
                queue_index: None,
                play_mode: PlayMode::Sequential,
                completion_latched: false,
                lyrics: LyricsInfo::Idle,
                stream_generation: 0,
                player_state,
            },
            warm: WarmView {
                daily: None,
                recommended: None,
                playlists: None,
                playlist_tracks: Map::empty(),
                listening_week: None,
                listening_all: None,
                warming: false,
            },
            jobs: JobsView { next_job_id: 0, active_job: None, cache_pending: false, cache_clear_armed_until: None },
            setup: SetupView { cache_stats, local_stats: None, library_roots, home, background },
            hits: crate::tui::layout::no_hits(),
            last_click: None,
            tick: 0,
            status: if has_player {
                seq![]
            } else {
                "音频输出不可用"@
            },
            commands: seq![],
        }
    }

    /// The state at the start: the library is loaded, and it is asked who is
    /// logged in.
    pub open spec fn start(
        player: Option<PlayerState>,
        player_state: PlayerState,
        cache_stats: CacheStats,
        library_roots: Seq<Seq<char>>,
        home: Option<Seq<char>>,
        hide_lyrics: bool,
        background: bool,
        now: Instant,
    ) -> AppView {
        AppView::idle(player is Some, player_state, cache_stats, library_roots, home, hide_lyrics, background, now)
            .local_load_started().identity_checked()
    }

    pub open spec fn identity_checked(self) -> AppView {
        AppView { account: AccountView { auth_pending: true, ..self.account }, ..self }.sent(CommandInfo::CheckIdentity)
    }
}

impl App {
    pub(crate) fn send(&mut self, command: Command)
        ensures
            old(self)@.wf() ==> final(self)@.wf(),
            final(self)@ == old(self)@.sent(command@),
    {
        let ghost held = self.commands@;
        self.commands.push(command);
        proof {
            assert(command_infos(self.commands@) =~= command_infos(held).push(command@));
        }
    }

    /// Takes what is known of the player.
    pub fn refresh_player_state(&mut self, state: PlayerState)
        requires
            state.duration@ <= MAX_NANOS,
        ensures
            old(self)@.wf() ==> final(self)@.wf(),
            final(self)@ == (AppView {
                playback: PlaybackView { player_state: state, ..old(self)@.playback },
                ..old(self)@
            }),
    {
        self.playback.player_state = state;
    }

    /// Takes what is known of the playback cache.
    pub fn refresh_cache_stats(&mut self, stats: CacheStats)
        ensures
            old(self)@.wf() ==> final(self)@.wf(),
            final(self)@ == (AppView { setup: SetupView { cache_stats: stats, ..old(self)@.setup }, ..old(self)@ }),
    {
        self.setup.cache_stats = stats;
    }

    /// Hands over what is to be done.
    pub fn take_commands(&mut self) -> (r: Vec<Command>)
        ensures
            old(self)@.wf() ==> final(self)@.wf(),
            command_infos(r@) == old(self)@.commands,
            final(self)@ == (AppView { commands: seq![], ..old(self)@ }),
    {
        let mut taken: Vec<Command> = Vec::new();
        taken.append(&mut self.commands);
        proof {
            assert(taken@ =~= old(self).commands@);
            assert(command_infos(self.commands@) =~= seq![]);
        }
        taken
    }

    pub(crate) fn say(&mut self, text: &str)
        ensures
            old(self)@.wf() ==> final(self)@.wf(),
            final(self)@ == old(self)@.said(text@),
    {
        self.status = text.to_owned();
    }

    fn check_identity(&mut self)
        ensures
            old(self)@.wf() ==> final(self)@.wf(),
            final(self)@ == old(self)@.identity_checked(),
    {
        self.account.auth_pending = true;
        self.send(Command::CheckIdentity);
    }

    fn spawn_load(&mut self, request: LoadRequest)
        ensures
            old(self)@.wf() ==> final(self)@.wf(),
            final(self)@ == old(self)@.load_spawned(request@),
    {
        self.pane.generation = self.pane.generation.wrapping_add(1);
        let generation: u64 = self.pane.generation;
        self.pane.loading = true;
        self.pane.content = Content::Empty;
        self.send(Command::Load { generation, request });
    }

    /// Loads the first pane with what the library holds.
    pub fn load_local(&mut self)
        ensures
            old(self)@.wf() ==> final(self)@.wf(),
            final(self)@ == old(self)@.local_load_started(),
    {
        let route: Route = self.route;
        if !route.is_local() {
            return;
        }
        if self.setup.background {
            self.spawn_load(LoadRequest::Local(route));
        } else {
            self.send(Command::QueryLocal(route));
        }
    }

    pub fn clamp_selection(&mut self)
        ensures
            old(self)@.wf() ==> final(self)@.wf(),
            final(self)@ == old(self)@.selection_clamped(),
    {
        let last: usize = self.pane.content.len().saturating_sub(1);
        if self.pane.selected > last {
            self.pane.selected = last;
        }
    }

    /// Takes what the library answered at once.
    pub fn local_answered(&mut self, result: Result<(Vec<Track>, Option<LibraryStats>), String>)
        ensures
            old(self)@.wf() ==> final(self)@.wf(),
            final(self)@ == old(self)@.local_queried(
                match result {
                    Ok((tracks, stats)) => Ok((rows_of_tracks(tracks@), stats)),
                    Err(message) => Err(message@),
                },
            ),
    {
        match result {
            Ok((tracks, stats)) => {
                self.pane.content = Content::Tracks(local_rows(tracks));
                self.setup.local_stats = stats;
            },
            Err(message) => {
                self.status = message;
            },
        }
        self.clamp_selection();
    }

    /// Searches the library for what is typed.
    pub fn search_local(&mut self)
        ensures
            old(self)@.wf() ==> final(self)@.wf(),
            final(self)@ == old(self)@.local_searched(),
    {
        proof {
            reveal(AppView::local_searched);
        }
        let query: String = trimmed(self.prompt.input.as_str());
        self.prompt.mode = InputMode::Normal;
        if query.as_str().unicode_len() == 0 {
            self.load_local();
            return;
        }
        self.spawn_load(LoadRequest::LocalSearch(query));
    }

    /// Searches the service for what is typed.
    pub fn search_online(&mut self)
        ensures
            old(self)@.wf() ==> final(self)@.wf(),
            final(self)@ == old(self)@.online_searched(),
    {
        proof {
            reveal(AppView::online_searched);
        }
        let keyword: String = trimmed(self.prompt.input.as_str());
        if keyword.as_str().unicode_len() == 0 {
            self.say("请输入搜索关键词");
            return;
        }
        self.prompt.mode = InputMode::Normal;
        let kind: SearchKind = self.prompt.search_kind;
        self.spawn_load(LoadRequest::Search { keyword, kind, limit: SEARCH_RESULTS });
    }

    /// Whether nobody is logged in, which is said.
    fn requires_login(&mut self) -> (r: bool)
        ensures
            old(self)@.wf() ==> final(self)@.wf(),
            r == (old(self)@.account.identity is None),
            final(self)@ == old(self)@.login_demanded(),
    {
        if self.account.identity.is_none() {
            self.say("此入口需要登录，按 L 扫码登录");
            self.pane.content = Content::Empty;
            true
        } else {
            false
        }
    }

    fn use_cached_content(&mut self, content: Content)
        ensures
            old(self)@.wf() ==> final(self)@.wf(),
            final(self)@ == old(self)@.content_used(content@),
    {
        self.pane.content = content;
        self.pane.loading = false;
        self.pane.selected = 0;
        self.status = String::new();
        proof {
            assert(self.status@ =~= seq![]);
        }
    }

    pub fn load_daily(&mut self)
        ensures
            old(self)@.wf() ==> final(self)@.wf(),
            final(self)@ == old(self)@.daily_opened(),
    {
        proof {
            reveal(AppView::daily_opened);
        }
        if self.requires_login() {
            return;
        }
        match &self.warm.daily {
            Some(tracks) => {
                let rows = online_rows(copy_tracks(tracks));
                self.pane.title = "每日推荐".to_owned();
                self.use_cached_content(Content::Tracks(rows));
            },
            None => {
                self.spawn_load(LoadRequest::Daily);
            },
        }
    }

    pub fn load_recommended(&mut self)
        ensures
            old(self)@.wf() ==> final(self)@.wf(),
            final(self)@ == old(self)@.recommended_opened(),
    {
        proof {
            reveal(AppView::recommended_opened);
        }
        if self.requires_login() {
            return;
        }
        match &self.warm.recommended {
            Some(list) => {
                let list = copy_playlists(list);
                self.use_cached_content(Content::Playlists(list));
            },
            None => {
                self.spawn_load(LoadRequest::Recommended);
            },
        }
    }

    pub fn load_playlists(&mut self, scope: PlaylistScope)
        ensures
            old(self)@.wf() ==> final(self)@.wf(),
            final(self)@ == old(self)@.playlists_opened(scope),
    {
        proof {
            reveal(AppView::playlists_opened);
        }
        let user_id: u64 = match &self.account.identity {
            Some(identity) => identity.user_id,
            None => {
                self.requires_login();
                return;
            },
        };
        match &self.warm.playlists {
            Some(list) => {
                let list = playlists_in_scope(list, scope);
                self.use_cached_content(Content::Playlists(list));
            },
            None => {
                self.spawn_load(LoadRequest::Playlists { user_id, scope });
            },
        }
    }

    pub fn load_albums(&mut self)
        ensures
            old(self)@.wf() ==> final(self)@.wf(),
            final(self)@ == old(self)@.albums_opened(),
    {
        proof {
            reveal(AppView::albums_opened);
        }
        if self.requires_login() {
            return;
        }
        self.spawn_load(LoadRequest::Albums);
    }

    pub fn load_artists(&mut self)
        ensures
            old(self)@.wf() ==> final(self)@.wf(),
            final(self)@ == old(self)@.artists_opened(),
    {
        proof {
            reveal(AppView::artists_opened);
        }
        if self.requires_login() {
            return;
        }
        self.spawn_load(LoadRequest::Artists);
    }

    pub fn load_listening_rank(&mut self)
        ensures
            old(self)@.wf() ==> final(self)@.wf(),
            final(self)@ == old(self)@.rank_opened(),
    {
        proof {
            reveal(AppView::rank_opened);
        }
        let user_id: u64 = match &self.account.identity {
            Some(identity) => identity.user_id,
            None => {
                self.requires_login();
                return;
            },
        };
        match &self.warm.listening_week {
            Some(tracks) => {
                let rows = ranked_rows(copy_ranked(tracks));
                self.pane.title = "本周听歌排行".to_owned();
                self.use_cached_content(Content::Tracks(rows));
            },
            None => {
                self.spawn_load(LoadRequest::ListeningRank { user_id });
            },
        }
    }

    pub(crate) fn truncate_columns(&mut self, keep: usize)
        ensures
            old(self)@.wf() ==> final(self)@.wf(),
            final(self)@ == old(self)@.columns_cut(keep as nat),
    {
        proof {
            reveal(AppView::columns_cut);
        }
        if keep >= self.columns.len() {
            return;
        }
        let ghost before = self@;
        let ghost closed = before.columns.skip(keep as int);
        let ghost aborts = closed.map_values(|column: ColumnInfo| CommandInfo::AbortColumn(column.id));
        let mut i: usize = keep;
        proof {
            assert(before.commands + aborts.take(0) =~= before.commands);
        }
        while i < self.columns.len()
            invariant
                keep <= i <= self.columns@.len(),
                closed == before.columns.skip(keep as int),
                aborts == closed.map_values(|column: ColumnInfo| CommandInfo::AbortColumn(column.id)),
                self@ == (AppView { commands: before.commands + aborts.take(i - keep), ..before }),
            decreases self.columns@.len() - i,
        {
            let id: u64 = self.columns[i].id;
            proof {
                assert(self@.columns == before.columns);
                assert(before.columns[i as int] == self.columns@[i as int]@);
                assert(aborts[i - keep] == CommandInfo::AbortColumn(id));
                assert(aborts.take(i - keep + 1) =~= aborts.take(i - keep).push(aborts[i - keep]));
                assert(before.commands + aborts.take(i - keep + 1) =~= (before.commands + aborts.take(i - keep)).push(
                    aborts[i - keep],
                ));
            }
            self.send(Command::AbortColumn(id));
            i += 1;
        }
        proof {
            assert(aborts.take(i - keep) =~= aborts);
        }
        self.columns.truncate(keep);
        proof {
            assert(column_infos(self.columns@) =~= before.columns.take(keep as int));
        }
    }

    pub(crate) fn allocate_job_id(&mut self) -> (r: u64)
        ensures
            old(self)@.wf() ==> final(self)@.wf(),
            r == successor(old(self)@.jobs.next_job_id),
            final(self)@ == (AppView { jobs: JobsView { next_job_id: r, ..old(self)@.jobs }, ..old(self)@ }),
    {
        self.jobs.next_job_id = self.jobs.next_job_id.wrapping_add(1);
        self.jobs.next_job_id
    }

    fn push_column(&mut self, title: String, content: Content, phase: ColumnPhase) -> (r: u64)
        ensures
            old(self)@.wf() ==> final(self)@.wf(),
            final(self)@ == old(self)@.column_opened(title@, content@, phase@),
            r == final(self)@.jobs.next_job_id,
    {
        proof {
            reveal(AppView::column_opened);
            reveal(AppView::columns_cut);
        }
        let keep: usize = match self.focus {
            Focus::Content => 0,
            Focus::Column(index) => index.saturating_add(1),
            _ => self.columns.len(),
        };
        let ghost before = self@;
        let open: usize = self.columns.len();
        self.truncate_columns(keep);
        let ghost cut = self@;
        proof {
            assert(before.columns.len() == open);
            assert(keep as nat == before.columns_kept() || (keep as nat >= before.columns.len()
                && before.columns_kept() >= before.columns.len()));
            assert(cut == before.columns_cut(before.columns_kept()));
        }
        let id: u64 = self.allocate_job_id();
        let count: usize = self.columns.len();
        let ghost held = self.columns@;
        self.columns.push(BrowserColumn { id, title, content, selected: 0, phase });
        self.focus = Focus::Column(count);
        proof {
            assert(column_infos(self.columns@) =~= column_infos(held).push(self.columns@.last()@));
        }
        id
    }

    fn spawn_column(&mut self, request: ColumnRequest)
        ensures
            old(self)@.wf() ==> final(self)@.wf(),
            final(self)@ == old(self)@.column_spawned(request@),
    {
        proof {
            reveal(AppView::column_spawned);
        }
        let id: u64 = self.push_column(request.name(), Content::Empty, ColumnPhase::Loading);
        self.send(Command::LoadColumn { id, column: request });
    }

    pub fn open_playlist(&mut self, id: u64, name: String)
        ensures
            old(self)@.wf() ==> final(self)@.wf(),
            final(self)@ == old(self)@.playlist_opened(id, name@),
    {
        proof {
            reveal(AppView::playlist_opened);
        }
        match self.warm.playlist_tracks.get(&id) {
            Some(warm) => {
                let title: String = if warm.name.as_str().unicode_len() == 0 {
                    name
                } else {
                    warm.name.clone()
                };
                let rows = online_rows(copy_tracks(&warm.tracks));
                self.push_column(title, Content::Tracks(rows), ColumnPhase::Ready);
            },
            None => {
                self.spawn_column(ColumnRequest::Playlist { id, name });
            },
        }
    }

    pub fn open_album(&mut self, id: u64, name: String)
        ensures
            old(self)@.wf() ==> final(self)@.wf(),
            final(self)@ == old(self)@.column_spawned(ColumnLoad::Album { id, name: name@ }),
    {
        proof {
            reveal(AppView::column_spawned);
        }
        self.spawn_column(ColumnRequest::Album { id, name });
    }

    pub fn open_artist(&mut self, id: u64, name: String)
        ensures
            old(self)@.wf() ==> final(self)@.wf(),
            final(self)@ == old(self)@.column_spawned(ColumnLoad::Artist { id, name: name@ }),
    {
        proof {
            reveal(AppView::column_spawned);
        }
        self.spawn_column(ColumnRequest::Artist { id, name });
    }

    fn enter_route(&mut self, route: Route)
        ensures
            old(self)@.wf() ==> final(self)@.wf(),
            final(self)@ == old(self)@.route_entered(route),
    {
        proof {
            reveal(AppView::route_entered);
            reveal(AppView::columns_cut);
        }
        self.send(Command::AbortLoad);
        self.truncate_columns(0);
        self.route = route;
        self.nav_selected = route.index();
        self.pane.title = route.label().to_owned();
        self.pane.selected = 0;
        self.pane.content = Content::Empty;
        self.pane.loading = false;
        self.overlay.show_details = false;
        self.last_click = None;
        self.prompt.mode = InputMode::Normal;
        self.prompt.input = String::new();
        self.prompt.cursor = 0;
        proof {
            lemma_ends_are_boundaries(seq![]);
            assert(self.prompt.input@ =~= seq![]);
        }
    }

    /// Opens an entry of the navigation.
    pub fn set_route(&mut self, route: Route)
        ensures
            old(self)@.wf() ==> final(self)@.wf(),
            final(self)@ == old(self)@.route_set(route),
    {
        proof {
            reveal(AppView::route_set);
        }
        self.enter_route(route);
        match route {
            Route::Favorites => self.load_local(),
            Route::Local => self.load_local(),
            Route::Recent => self.load_local(),
            Route::Queue => self.load_local(),
            Route::Daily => self.load_daily(),
            Route::Recommended => self.load_recommended(),
            Route::ListeningRank => self.load_listening_rank(),
            Route::Created => self.load_playlists(PlaylistScope::Created),
            Route::Subscribed => self.load_playlists(PlaylistScope::Subscribed),
            Route::Artists => self.load_artists(),
            Route::Albums => self.load_albums(),
            Route::Search => {
                self.prompt.mode = InputMode::Search;
                self.say("输入关键词后按 Enter 搜索网易云");
            },
            Route::Downloads => {
                if self.jobs.active_job.is_some() {
                    self.say("下载任务进行中，按 Esc 可取消");
                } else {
                    self.say("按 D 输入 track/album/playlist ID，可附加曲目范围");
                }
            },
            Route::Account => {
                self.status = String::new();
                proof {
                    assert(self.status@ =~= seq![]);
                }
            },
        }
    }

    pub(crate) fn start_metadata_warmup(&mut self)
        ensures
            old(self)@.wf() ==> final(self)@.wf(),
            final(self)@ == old(self)@.warm_up_started(),
    {
        proof {
            reveal(AppView::warm_up_started);
        }
        let user_id: u64 = match &self.account.identity {
            Some(identity) => identity.user_id,
            None => {
                return;
            },
        };
        if self.warm.warming {
            return;
        }
        self.warm.warming = true;
        self.send(Command::WarmUp(user_id));
    }
}

// Laws of the entries and columns.

/// Each entry of the navigation, once somebody is logged in and nothing was
/// loaded ahead, asks for what it is named for; the library's entries ask the
/// library.
pub proof fn lemma_entries_ask(app: AppView, route: Route, identity: Identity)
    requires
        app.account.identity == Some(identity),
        app.warm.daily is None,
        app.warm.recommended is None,
        app.warm.playlists is None,
        app.warm.listening_week is None,
        app.setup.background,
    ensures
        ({
            let after = app.route_set(route);
            let wanted = match route {
                Route::Favorites | Route::Local | Route::Recent | Route::Queue => Some(LoadInfo::Local(route)),
                Route::Daily => Some(LoadInfo::Daily),
                Route::Recommended => Some(LoadInfo::Recommended),
                Route::ListeningRank => Some(LoadInfo::ListeningRank { user_id: identity.user_id }),
                Route::Created => Some(
                    LoadInfo::Playlists { user_id: identity.user_id, scope: PlaylistScope::Created },
                ),
                Route::Subscribed => Some(
                    LoadInfo::Playlists { user_id: identity.user_id, scope: PlaylistScope::Subscribed },
                ),
                Route::Artists => Some(LoadInfo::Artists),
                Route::Albums => Some(LoadInfo::Albums),
                Route::Search | Route::Downloads | Route::Account => None,
            };
            &&& after.route == route
            &&& after.pane.title == label_of(route)
            &&& after.columns.len() == 0
            &&& wanted is Some ==> after.pane.loading && after.commands.last() == (CommandInfo::Load {
                generation: after.pane.generation,
                request: wanted->0,
            })
            &&& wanted is None ==> !after.pane.loading
            &&& route == Route::Search ==> after.prompt.mode == InputMode::Search
        }),
{
    reveal(AppView::route_set);
    reveal(AppView::route_entered);
    reveal(AppView::columns_cut);
    reveal(AppView::daily_opened);
    reveal(AppView::recommended_opened);
    reveal(AppView::playlists_opened);
    reveal(AppView::albums_opened);
    reveal(AppView::artists_opened);
    reveal(AppView::rank_opened);
}

/// What was loaded ahead is what its entry shows.
pub proof fn lemma_warm_contents(app: AppView, tracks: Seq<TrackInfo>, lists: Seq<PlaylistInfo>, ranked: Seq<RankInfo>)
    requires
        app.account.identity is Some,
        app.warm.daily == Some(tracks),
        app.warm.recommended == Some(lists),
        app.warm.playlists == Some(lists),
        app.warm.listening_week == Some(ranked),
    ensures
        app.daily_opened().pane.content == ContentInfo::Tracks(rows_of_online(tracks)),
        app.recommended_opened().pane.content == ContentInfo::Playlists(lists),
        app.rank_opened().pane.content == ContentInfo::Tracks(rows_of_ranked(ranked)),
        app.playlists_opened(PlaylistScope::Created).pane.content == ContentInfo::Playlists(
            scoped(lists, PlaylistScope::Created),
        ),
        app.playlists_opened(PlaylistScope::Subscribed).pane.content == ContentInfo::Playlists(
            scoped(lists, PlaylistScope::Subscribed),
        ),
{
    reveal(AppView::daily_opened);
    reveal(AppView::recommended_opened);
    reveal(AppView::playlists_opened);
    reveal(AppView::rank_opened);
}

/// What is typed is searched: at the service, for the keyword in the chosen
/// scope and for a hundred results; in the library, for the query; a blank
/// keyword asks for nothing, and a blank query for the whole library.
pub proof fn lemma_searches(app: AppView)
    ensures
        ({
            let typed = trim_of(app.prompt.input);
            let online = app.online_searched();
            let local = app.local_searched();
            &&& typed.len() > 0 ==> online.commands == app.commands.push(
                CommandInfo::Load {
                    generation: online.pane.generation,
                    request: LoadInfo::Search { keyword: typed, kind: app.prompt.search_kind, limit: 100 },
                },
            ) && online.prompt.mode == InputMode::Normal && online.pane.loading
            &&& typed.len() == 0 ==> online.commands == app.commands
            &&& typed.len() > 0 ==> local.commands == app.commands.push(
                CommandInfo::Load { generation: local.pane.generation, request: LoadInfo::LocalSearch(typed) },
            ) && local.prompt.mode == InputMode::Normal
            &&& typed.len() == 0 && app.route == Route::Local && app.setup.background ==> local.commands
                == app.commands.push(
                CommandInfo::Load { generation: local.pane.generation, request: LoadInfo::Local(Route::Local) },
            )
        }),
{
    reveal(AppView::online_searched);
    reveal(AppView::local_searched);
}

/// A column is opened to the right of the pane in focus, in place of those that
/// were there, and gets the focus; what it lists is asked for under its number.
pub proof fn lemma_column_opens(app: AppView, request: ColumnLoad)
    ensures
        ({
            let after = app.column_spawned(request);
            let kept = app.columns_kept();
            let n = if kept <= app.columns.len() { kept } else { app.columns.len() };
            &&& after.columns.len() == n + 1
            &&& after.columns.take(n as int) == app.columns.take(n as int)
            &&& after.columns.last().title == request.name()
            &&& after.columns.last().phase is Loading
            &&& after.columns.last().selected == 0
            &&& after.focus == Focus::Column(n as usize)
            &&& after.commands.last() == (CommandInfo::LoadColumn { id: after.columns.last().id, column: request })
            &&& after.pane == app.pane
        }),
        app.focus == Focus::Content ==> app.columns_kept() == 0,
        forall|index: usize| app.focus == Focus::Column(index) ==> #[trigger] app.columns_kept() == index + 1,
{
    reveal(AppView::column_spawned);
    reveal(AppView::column_opened);
    reveal(AppView::columns_cut);
    let after = app.column_spawned(request);
    let kept = app.columns_kept();
    let n = if kept <= app.columns.len() { kept } else { app.columns.len() };
    assert(after.columns.take(n as int) =~= app.columns.take(n as int));
}

/// What the library answers is listed; the selection stays within the rows.
pub proof fn lemma_library_listed(app: AppView, rows: Seq<RowInfo>, stats: Option<LibraryStats>, message: Seq<char>)
    ensures
        ({
            let after = app.local_queried(Ok((rows, stats)));
            &&& after.pane.content == ContentInfo::Tracks(rows)
            &&& after.setup.local_stats == stats
            &&& app.pane.selected < rows.len() ==> after.pane.selected == app.pane.selected
            &&& rows.len() > 0 && app.pane.selected >= rows.len() ==> after.pane.selected == rows.len() - 1
            &&& rows.len() == 0 ==> after.pane.selected == 0
        }),
        app.local_queried(Err(message)).status == message,
        app.local_queried(Err(message)).pane.content == app.pane.content,
{
}

/// Loading ahead is asked for once, for the user who is logged in.
pub proof fn lemma_warm_up(app: AppView, identity: Identity)
    ensures
        app.account.identity == Some(identity) && !app.warm.warming ==> app.warm_up_started().commands
            == app.commands.push(CommandInfo::WarmUp(identity.user_id)) && app.warm_up_started().warm.warming,
        app.warm.warming || app.account.identity is None ==> app.warm_up_started() == app,
{
    reveal(AppView::warm_up_started);
}

/// Closing columns keeps those to the left, and gives up what each of the others
/// waits for.
pub proof fn lemma_columns_closed(app: AppView, keep: nat)
    ensures
        keep >= app.columns.len() ==> app.columns_cut(keep) == app,
        keep < app.columns.len() ==> app.columns_cut(keep).columns == app.columns.take(keep as int)
            && app.columns_cut(keep).commands.len() == app.commands.len() + app.columns.len() - keep && forall|i: int|
            keep <= i < app.columns.len() ==> app.columns_cut(keep).commands[app.commands.len() + i - keep]
                == CommandInfo::AbortColumn((#[trigger] app.columns[i]).id),
{
    reveal(AppView::columns_cut);
}

/// An entry that is opened becomes the route.
pub proof fn lemma_route_is_set(app: AppView, route: Route)
    ensures
        app.route_set(route).route == route,
        app.route_set(route).nav_selected == route_index(route),
        app.route_set(route).columns.len() == 0,
{
    reveal(AppView::route_set);
    reveal(AppView::route_entered);
    reveal(AppView::columns_cut);
    reveal(AppView::daily_opened);
    reveal(AppView::recommended_opened);
    reveal(AppView::playlists_opened);
    reveal(AppView::albums_opened);
    reveal(AppView::artists_opened);
    reveal(AppView::rank_opened);
}

} // verus!
