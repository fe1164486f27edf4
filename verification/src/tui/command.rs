//! What the interface asks to be done outside it. What comes of it comes back as
//! an event or as the answer of a call.

use vstd::prelude::*;

use crate::auth::QrChallenge;
use crate::database::PlayOrigin;
use crate::discovery::{PlaylistInfo, PlaylistScope, PlaylistSummary, SearchKind};
use crate::download::{deduplicate, deduplicated, AudioQuality, DownloadRequest, DownloadSource, TrackSelection};
use crate::text::texts;
use crate::time::Duration;
use crate::tui::routes::{label_of, Route};
use crate::tui::rows::{playlist_infos, RowInfo, TrackKey, TrackRow};

verus! {

/// The most results of a search at the service.
pub const SEARCH_RESULTS: usize = 100;

/// What a pane is loaded with.
#[derive(Clone, Debug, PartialEq, Eq)]
pub enum LoadRequest {
    Local(Route),
    LocalSearch(String),
    Daily,
    Recommended,
    Playlists { user_id: u64, scope: PlaylistScope },
    Albums,
    Artists,
    ListeningRank { user_id: u64 },
    Search { keyword: String, kind: SearchKind, limit: usize },
}

pub enum LoadInfo {
    Local(Route),
    LocalSearch(Seq<char>),
    Daily,
    Recommended,
    Playlists { user_id: u64, scope: PlaylistScope },
    Albums,
    Artists,
    ListeningRank { user_id: u64 },
    Search { keyword: Seq<char>, kind: SearchKind, limit: nat },
}

impl View for LoadRequest {
    type V = LoadInfo;

    open spec fn view(&self) -> LoadInfo {
        match *self {
            LoadRequest::Local(route) => LoadInfo::Local(route),
            LoadRequest::LocalSearch(query) => LoadInfo::LocalSearch(query@),
            LoadRequest::Daily => LoadInfo::Daily,
            LoadRequest::Recommended => LoadInfo::Recommended,
            LoadRequest::Playlists { user_id, scope } => LoadInfo::Playlists { user_id, scope },
            LoadRequest::Albums => LoadInfo::Albums,
            LoadRequest::Artists => LoadInfo::Artists,
            LoadRequest::ListeningRank { user_id } => LoadInfo::ListeningRank { user_id },
            LoadRequest::Search { keyword, kind, limit } => LoadInfo::Search {
                keyword: keyword@,
                kind,
                limit: limit as nat,
            },
        }
    }
}

impl LoadInfo {
    /// The title of the pane once it is loaded, where the request gives one.
    pub open spec fn title(self) -> Option<Seq<char>> {
        match self {
            LoadInfo::Local(route) => Some(label_of(route)),
            LoadInfo::LocalSearch(query) => Some("本地搜索："@ + query),
            LoadInfo::Daily => Some("每日推荐"@),
            LoadInfo::ListeningRank { user_id } => Some("本周听歌排行"@),
            LoadInfo::Search { keyword, kind, limit } => Some("搜索："@ + keyword),
            _ => None,
        }
    }
}

impl LoadRequest {
    pub fn title(&self) -> (r: Option<String>)
        ensures
            crate::text::text_option(r) == self@.title(),
    {
        match self {
            LoadRequest::Local(route) => Some(route.label().to_owned()),
            LoadRequest::LocalSearch(query) => {
                let mut title: String = "本地搜索：".to_owned();
                title.append(query.as_str());
                Some(title)
            },
            LoadRequest::Daily => Some("每日推荐".to_owned()),
            LoadRequest::ListeningRank { user_id: _ } => Some("本周听歌排行".to_owned()),
            LoadRequest::Search { keyword, kind: _, limit: _ } => {
                let mut title: String = "搜索：".to_owned();
                title.append(keyword.as_str());
                Some(title)
            },
            _ => None,
        }
    }
}

/// What a column is loaded with.
#[derive(Clone, Debug, PartialEq, Eq)]
pub enum ColumnRequest {
    Playlist { id: u64, name: String },
    Album { id: u64, name: String },
    Artist { id: u64, name: String },
}

pub enum ColumnLoad {
    Playlist { id: u64, name: Seq<char> },
    Album { id: u64, name: Seq<char> },
    Artist { id: u64, name: Seq<char> },
}

impl View for ColumnRequest {
    type V = ColumnLoad;

    open spec fn view(&self) -> ColumnLoad {
        match *self {
            ColumnRequest::Playlist { id, name } => ColumnLoad::Playlist { id, name: name@ },
            ColumnRequest::Album { id, name } => ColumnLoad::Album { id, name: name@ },
            ColumnRequest::Artist { id, name } => ColumnLoad::Artist { id, name: name@ },
        }
    }
}

impl ColumnLoad {
    pub open spec fn name(self) -> Seq<char> {
        match self {
            ColumnLoad::Playlist { id, name } => name,
            ColumnLoad::Album { id, name } => name,
            ColumnLoad::Artist { id, name } => name,
        }
    }

    /// The title of the column once it is loaded: a playlist takes the name
    /// that the service gives it, if there is one.
    pub open spec fn title(self, found: Seq<char>) -> Seq<char> {
        match self {
            ColumnLoad::Playlist { id, name } => if found.len() > 0 {
                found
            } else {
                name
            },
            _ => self.name(),
        }
    }
}

impl ColumnRequest {
    pub fn name(&self) -> (r: String)
        ensures
            r@ == self@.name(),
    {
        match self {
            ColumnRequest::Playlist { id: _, name } => name.clone(),
            ColumnRequest::Album { id: _, name } => name.clone(),
            ColumnRequest::Artist { id: _, name } => name.clone(),
        }
    }

    pub fn title(&self, found: &str) -> (r: String)
        ensures
            r@ == self@.title(found@),
    {
        match self {
            ColumnRequest::Playlist { id: _, name: _ } => if found.unicode_len() > 0 {
                found.to_owned()
            } else {
                self.name()
            },
            _ => self.name(),
        }
    }
}

/// Which tracks of a source are downloaded.
pub enum SelectionInfo {
    All,
    Positions { start: nat, end: nat, exhausted: bool },
    TrackIds(Set<u64>),
}

pub struct DownloadInfo {
    pub source: DownloadSource,
    pub selection: SelectionInfo,
    pub quality: AudioQuality,
    pub overwrite: bool,
}

pub open spec fn download_info(request: DownloadRequest) -> DownloadInfo {
    DownloadInfo {
        source: request.source,
        selection: match request.selection {
            TrackSelection::All => SelectionInfo::All,
            TrackSelection::Positions(range) => SelectionInfo::Positions {
                start: range@.start as nat,
                end: range@.end as nat,
                exhausted: range@.exhausted,
            },
            TrackSelection::TrackIds(ids) => SelectionInfo::TrackIds(ids@),
        },
        quality: request.quality,
        overwrite: request.overwrite,
    }
}

/// What a typed command asks for: the usual quality, and nothing is replaced.
pub open spec fn typed_download(source: DownloadSource, range: Option<(nat, nat)>) -> DownloadInfo {
    DownloadInfo {
        source,
        selection: match range {
            Some((start, end)) => SelectionInfo::Positions { start, end, exhausted: false },
            None => SelectionInfo::All,
        },
        quality: AudioQuality::Lossless,
        overwrite: false,
    }
}

#[derive(Debug)]
pub enum Command {
    /// Give up what the first pane waits for.
    AbortLoad,
    /// Load the first pane in the background.
    Load { generation: u64, request: LoadRequest },
    /// Ask the library at once.
    QueryLocal(Route),
    AbortColumn(u64),
    LoadColumn { id: u64, column: ColumnRequest },
    AbortStream,
    /// Ask the library for the file of a track.
    LookUpPath(TrackRow),
    /// Play the file of a track.
    PlayFile(TrackRow),
    /// Open the stream of a song for a track.
    OpenStream { generation: u64, song_id: u64, track: TrackRow },
    PlayStream { generation: u64, track: TrackRow },
    RecordPlay { track: TrackKey, origin: PlayOrigin },
    AbortLyrics,
    LoadLyrics(TrackRow),
    TogglePause,
    /// Seek by seconds.
    SeekBy(i64),
    SeekTo(Duration),
    VolumeUp,
    VolumeDown,
    CheckIdentity,
    AbortAuth,
    BeginLogin,
    PollLogin(QrChallenge),
    /// Load what the panes will need, for a user.
    WarmUp(u64),
    StartDownload { id: u64, download: DownloadRequest },
    StartOrganize { id: u64, track: TrackKey },
    StartScan { id: u64, roots: Vec<String> },
    AbortJob,
    SetCacheLimit(u64),
    ClearCache,
    ToggleFavorite(TrackKey),
    Enqueue { track: TrackKey, title: String },
    Dequeue(TrackKey),
    /// Find out what path a name stands for.
    ResolveImport(String),
    /// Keep in mind whether the lyrics are closed.
    SaveLyricsClosed(bool),
}

pub enum CommandInfo {
    AbortLoad,
    Load { generation: u64, request: LoadInfo },
    QueryLocal(Route),
    AbortColumn(u64),
    LoadColumn { id: u64, column: ColumnLoad },
    AbortStream,
    LookUpPath(RowInfo),
    PlayFile(RowInfo),
    OpenStream { generation: u64, song_id: u64, track: RowInfo },
    PlayStream { generation: u64, track: RowInfo },
    RecordPlay { track: TrackKey, origin: PlayOrigin },
    AbortLyrics,
    LoadLyrics(RowInfo),
    TogglePause,
    SeekBy(int),
    SeekTo(nat),
    VolumeUp,
    VolumeDown,
    CheckIdentity,
    AbortAuth,
    BeginLogin,
    PollLogin(QrChallenge),
    WarmUp(u64),
    StartDownload { id: u64, download: DownloadInfo },
    StartOrganize { id: u64, track: TrackKey },
    StartScan { id: u64, roots: Seq<Seq<char>> },
    AbortJob,
    SetCacheLimit(nat),
    ClearCache,
    ToggleFavorite(TrackKey),
    Enqueue { track: TrackKey, title: Seq<char> },
    Dequeue(TrackKey),
    ResolveImport(Seq<char>),
    SaveLyricsClosed(bool),
}

impl View for Command {
    type V = CommandInfo;

    open spec fn view(&self) -> CommandInfo {
        match *self {
            Command::AbortLoad => CommandInfo::AbortLoad,
            Command::Load { generation, request } => CommandInfo::Load { generation, request: request@ },
            Command::QueryLocal(route) => CommandInfo::QueryLocal(route),
            Command::AbortColumn(id) => CommandInfo::AbortColumn(id),
            Command::LoadColumn { id, column } => CommandInfo::LoadColumn { id, column: column@ },
            Command::AbortStream => CommandInfo::AbortStream,
            Command::LookUpPath(track) => CommandInfo::LookUpPath(track@),
            Command::PlayFile(track) => CommandInfo::PlayFile(track@),
            Command::OpenStream { generation, song_id, track } => CommandInfo::OpenStream {
                generation,
                song_id,
                track: track@,
            },
            Command::PlayStream { generation, track } => CommandInfo::PlayStream { generation, track: track@ },
            Command::RecordPlay { track, origin } => CommandInfo::RecordPlay { track, origin },
            Command::AbortLyrics => CommandInfo::AbortLyrics,
            Command::LoadLyrics(track) => CommandInfo::LoadLyrics(track@),
            Command::TogglePause => CommandInfo::TogglePause,
            Command::SeekBy(seconds) => CommandInfo::SeekBy(seconds as int),
            Command::SeekTo(target) => CommandInfo::SeekTo(target@),
            Command::VolumeUp => CommandInfo::VolumeUp,
            Command::VolumeDown => CommandInfo::VolumeDown,
            Command::CheckIdentity => CommandInfo::CheckIdentity,
            Command::AbortAuth => CommandInfo::AbortAuth,
            Command::BeginLogin => CommandInfo::BeginLogin,
            Command::PollLogin(challenge) => CommandInfo::PollLogin(challenge),
            Command::WarmUp(user_id) => CommandInfo::WarmUp(user_id),
            Command::StartDownload { id, download } => CommandInfo::StartDownload { id, download: download_info(download) },
            Command::StartOrganize { id, track } => CommandInfo::StartOrganize { id, track },
            Command::StartScan { id, roots } => CommandInfo::StartScan { id, roots: texts(roots@) },
            Command::AbortJob => CommandInfo::AbortJob,
            Command::SetCacheLimit(bytes) => CommandInfo::SetCacheLimit(bytes as nat),
            Command::ClearCache => CommandInfo::ClearCache,
            Command::ToggleFavorite(track) => CommandInfo::ToggleFavorite(track),
            Command::Enqueue { track, title } => CommandInfo::Enqueue { track, title: title@ },
            Command::Dequeue(track) => CommandInfo::Dequeue(track),
            Command::ResolveImport(path) => CommandInfo::ResolveImport(path@),
            Command::SaveLyricsClosed(closed) => CommandInfo::SaveLyricsClosed(closed),
        }
    }
}

pub open spec fn command_infos(commands: Seq<Command>) -> Seq<CommandInfo> {
    commands.map_values(|command: Command| command@)
}

// What the library is asked for.

/// The most tracks that a list or a search shows.
pub const LOCAL_LIMIT: usize = 10_000;

/// The most tracks of the history that are shown.
pub const RECENT_LIMIT: usize = 1_000;

#[derive(Clone, Debug, PartialEq, Eq)]
pub enum LocalQuery {
    Search { query: String, limit: usize },
    List { favorites_only: bool, limit: usize },
    Recent { limit: usize },
    Queue,
    /// There is nothing to ask for.
    Nothing,
}

/// What the library is asked for an entry, or for a search, and whether it is
/// asked for its statistics too.
pub fn query_local(route: Route, query: Option<&str>) -> (r: (LocalQuery, bool))
    ensures
        match query {
            Some(text) => r.0 is Search && r.0->query@ == text@ && r.0->Search_limit == LOCAL_LIMIT && !r.1,
            None => r == (match route {
                Route::Favorites => (LocalQuery::List { favorites_only: true, limit: LOCAL_LIMIT }, false),
                Route::Local => (LocalQuery::List { favorites_only: false, limit: LOCAL_LIMIT }, true),
                Route::Recent => (LocalQuery::Recent { limit: RECENT_LIMIT }, false),
                Route::Queue => (LocalQuery::Queue, false),
                _ => (LocalQuery::Nothing, false),
            }),
        },
{
    match query {
        Some(text) => (LocalQuery::Search { query: text.to_owned(), limit: LOCAL_LIMIT }, false),
        None => match route {
            Route::Favorites => (LocalQuery::List { favorites_only: true, limit: LOCAL_LIMIT }, false),
            Route::Local => (LocalQuery::List { favorites_only: false, limit: LOCAL_LIMIT }, true),
            Route::Recent => (LocalQuery::Recent { limit: RECENT_LIMIT }, false),
            Route::Queue => (LocalQuery::Queue, false),
            _ => (LocalQuery::Nothing, false),
        },
    }
}

/// The numbers of playlists.
pub open spec fn playlist_ids(list: Seq<PlaylistInfo>) -> Seq<u64> {
    list.map_values(|item: PlaylistInfo| item.id)
}

/// The playlists whose tracks are loaded ahead: those that are recommended and
/// those of the user, each once.
pub fn playlists_to_warm(recommended: &Vec<PlaylistSummary>, own: &Vec<PlaylistSummary>) -> (r: Vec<u64>)
    ensures
        r@ == deduplicated(playlist_ids(playlist_infos(recommended@)) + playlist_ids(playlist_infos(own@))),
{
    let ghost first = playlist_ids(playlist_infos(recommended@));
    let ghost second = playlist_ids(playlist_infos(own@));
    let mut ids: Vec<u64> = Vec::new();
    let mut i: usize = 0;
    while i < recommended.len()
        invariant
            i <= recommended@.len(),
            first == playlist_ids(playlist_infos(recommended@)),
            ids@ =~= first.take(i as int),
        decreases recommended@.len() - i,
    {
        ids.push(recommended[i].id);
        i += 1;
    }
    let mut k: usize = 0;
    proof {
        assert(first.take(i as int) =~= first);
    }
    while k < own.len()
        invariant
            k <= own@.len(),
            second == playlist_ids(playlist_infos(own@)),
            ids@ =~= first + second.take(k as int),
        decreases own@.len() - k,
    {
        ids.push(own[k].id);
        k += 1;
    }
    proof {
        assert(second.take(k as int) =~= second);
    }
    deduplicate(&ids)
}

/// What is asked of the library: the liked tracks, all of them, those that
/// were played last, or the queue; a search looks for its text whatever is
/// open. Only the whole library comes with its figures.
pub proof fn lemma_library_asked(route: Route, text: &str, r: (LocalQuery, bool), found: (LocalQuery, bool))
    requires
        call_ensures(query_local, (route, None), r),
        call_ensures(query_local, (route, Some(text)), found),
    ensures
        r.1 <==> route == Route::Local,
        !found.1,
        found.0 is Search && found.0->query@ == text@,
        route == Route::Favorites ==> r.0 is List && r.0->favorites_only,
        route == Route::Local ==> r.0 is List && !r.0->favorites_only,
        route == Route::Recent <==> r.0 is Recent,
        route == Route::Queue <==> r.0 is Queue,
        r.0 is Nothing <==> !crate::tui::routes::is_local_route(route),
{
}

/// A playlist that was opened takes the name that the service gives it, where
/// it gives one; albums and artists keep the name they were opened by.
pub proof fn lemma_column_titles(load: ColumnLoad, found: Seq<char>)
    ensures
        load is Playlist && found.len() > 0 ==> load.title(found) == found,
        load is Playlist && found.len() == 0 ==> load.title(found) == load->Playlist_name,
        load is Album ==> load.title(found) == load->Album_name,
        load is Artist ==> load.title(found) == load->Artist_name,
{
}

/// A command that was typed asks for its source and its range, in the usual
/// quality, and replaces nothing.
pub proof fn lemma_typed_download(source: DownloadSource, start: nat, end: nat)
    ensures
        typed_download(source, None).source == source,
        typed_download(source, None).selection is All,
        typed_download(source, None).quality == AudioQuality::Lossless,
        !typed_download(source, None).overwrite,
        typed_download(source, Some((start, end))).source == source,
        typed_download(source, Some((start, end))).selection == (SelectionInfo::Positions {
            start,
            end,
            exhausted: false,
        }),
        typed_download(source, Some((start, end))).quality == AudioQuality::Lossless,
        !typed_download(source, Some((start, end))).overwrite,
{
}

} // verus!
