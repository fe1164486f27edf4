//! What the panes list: tracks, playlists, artists and albums, and the columns
//! that open beside them.

use vstd::prelude::*;

use crate::catalog::{copy_playlist, copy_track};
use crate::discovery::{
    AlbumInfo, AlbumSummary, ArtistInfo, ArtistSummary, OnlineTrack, PlaylistInfo, PlaylistSummary, RankInfo, RankedTrack,
    TrackInfo,
};
use crate::library::{LibraryStats, Track};
use crate::lyrics::{Lyrics, LyricsView};
use crate::text::text_option;

verus! {

/// A track in a list.
#[derive(Clone, Debug, PartialEq, Eq)]
pub struct TrackRow {
    pub id: u64,
    /// The number of the track at the service, if it has one.
    pub ncm_id: Option<u64>,
    pub title: String,
    pub artists: String,
    pub album: String,
    pub duration_ms: u64,
    pub path: Option<String>,
    pub favorite: bool,
    pub play_count: u64,
    pub format: String,
    pub bytes: u64,
}

#[verifier::ext_equal]
pub struct RowInfo {
    pub id: u64,
    pub ncm_id: Option<u64>,
    pub title: Seq<char>,
    pub artists: Seq<char>,
    pub album: Seq<char>,
    pub duration_ms: nat,
    pub path: Option<Seq<char>>,
    pub favorite: bool,
    pub play_count: nat,
    pub format: Seq<char>,
    pub bytes: nat,
}

impl View for TrackRow {
    type V = RowInfo;

    open spec fn view(&self) -> RowInfo {
        RowInfo {
            id: self.id,
            ncm_id: self.ncm_id,
            title: self.title@,
            artists: self.artists@,
            album: self.album@,
            duration_ms: self.duration_ms as nat,
            path: text_option(self.path),
            favorite: self.favorite,
            play_count: self.play_count as nat,
            format: self.format@,
            bytes: self.bytes as nat,
        }
    }
}

pub open spec fn row_infos(rows: Seq<TrackRow>) -> Seq<RowInfo> {
    rows.map_values(|row: TrackRow| row@)
}

/// How the library is told of a track.
#[derive(Clone, Copy, Debug, PartialEq, Eq, Structural)]
pub enum TrackKey {
    /// By its number at the service.
    Song(u64),
    /// By its row, since the service does not have it.
    Row(u64),
}

impl RowInfo {
    pub open spec fn key(self) -> TrackKey {
        match self.ncm_id {
            Some(ncm_id) => TrackKey::Song(ncm_id),
            None => TrackKey::Row(self.id),
        }
    }
}

/// The row of a track of the library.
pub open spec fn row_of_track(track: Track) -> RowInfo {
    RowInfo {
        id: track.id,
        ncm_id: track.ncm_id,
        title: track.title@,
        artists: track.artists@,
        album: track.album@,
        duration_ms: track.duration_ms as nat,
        path: text_option(track.path),
        favorite: track.favorite,
        play_count: track.play_count as nat,
        format: track.format@,
        bytes: track.bytes as nat,
    }
}

/// The row of a track of the service.
pub open spec fn row_of_online(track: TrackInfo) -> RowInfo {
    RowInfo {
        id: track.id,
        ncm_id: Some(track.id),
        title: track.title,
        artists: track.artists,
        album: track.album,
        duration_ms: track.duration_ms,
        path: None,
        favorite: false,
        play_count: 0,
        format: seq![],
        bytes: 0,
    }
}

/// The row of a track of a ranking.
pub open spec fn row_of_ranked(ranked: RankInfo) -> RowInfo {
    RowInfo { play_count: ranked.play_count, ..row_of_online(ranked.track) }
}

pub open spec fn rows_of_tracks(tracks: Seq<Track>) -> Seq<RowInfo> {
    tracks.map_values(|track: Track| row_of_track(track))
}

pub open spec fn rows_of_online(tracks: Seq<TrackInfo>) -> Seq<RowInfo> {
    tracks.map_values(|track: TrackInfo| row_of_online(track))
}

pub open spec fn rows_of_ranked(tracks: Seq<RankInfo>) -> Seq<RowInfo> {
    tracks.map_values(|track: RankInfo| row_of_ranked(track))
}

impl TrackRow {
    pub fn from_track(track: Track) -> (r: TrackRow)
        ensures
            r@ == row_of_track(track),
    {
        TrackRow {
            id: track.id,
            ncm_id: track.ncm_id,
            title: track.title,
            artists: track.artists,
            album: track.album,
            duration_ms: track.duration_ms,
            path: track.path,
            favorite: track.favorite,
            play_count: track.play_count,
            format: track.format,
            bytes: track.bytes,
        }
    }

    pub fn from_online(track: OnlineTrack) -> (r: TrackRow)
        ensures
            r@ == row_of_online(track@),
    {
        let format: String = String::new();
        proof {
            assert(format@ =~= seq![]);
        }
        TrackRow {
            id: track.id,
            ncm_id: Some(track.id),
            title: track.title,
            artists: track.artists,
            album: track.album,
            duration_ms: track.duration_ms,
            path: None,
            favorite: false,
            play_count: 0,
            format,
            bytes: 0,
        }
    }

    pub fn from_ranked(ranked: RankedTrack) -> (r: TrackRow)
        ensures
            r@ == row_of_ranked(ranked@),
    {
        let play_count: u64 = ranked.play_count;
        let row = TrackRow::from_online(ranked.track);
        TrackRow { play_count, ..row }
    }

    /// How the library is told of the track.
    pub fn key(&self) -> (r: TrackKey)
        ensures
            r == self@.key(),
    {
        match self.ncm_id {
            Some(ncm_id) => TrackKey::Song(ncm_id),
            None => TrackKey::Row(self.id),
        }
    }

    pub fn copy(&self) -> (r: TrackRow)
        ensures
            r == *self,
    {
        TrackRow {
            id: self.id,
            ncm_id: self.ncm_id,
            title: self.title.clone(),
            artists: self.artists.clone(),
            album: self.album.clone(),
            duration_ms: self.duration_ms,
            path: copy_text_option(&self.path),
            favorite: self.favorite,
            play_count: self.play_count,
            format: self.format.clone(),
            bytes: self.bytes,
        }
    }
}

pub fn copy_text_option(text: &Option<String>) -> (r: Option<String>)
    ensures
        r == *text,
{
    match text {
        Some(value) => Some(value.clone()),
        None => None,
    }
}

pub fn copy_rows(rows: &Vec<TrackRow>) -> (r: Vec<TrackRow>)
    ensures
        r@ == rows@,
{
    let mut out: Vec<TrackRow> = Vec::new();
    let mut i: usize = 0;
    while i < rows.len()
        invariant
            i <= rows@.len(),
            out@ =~= rows@.take(i as int),
        decreases rows@.len() - i,
    {
        out.push(rows[i].copy());
        i += 1;
    }
    out
}

pub fn copy_tracks(tracks: &Vec<OnlineTrack>) -> (r: Vec<OnlineTrack>)
    ensures
        r@ == tracks@,
{
    let mut out: Vec<OnlineTrack> = Vec::new();
    let mut i: usize = 0;
    while i < tracks.len()
        invariant
            i <= tracks@.len(),
            out@ =~= tracks@.take(i as int),
        decreases tracks@.len() - i,
    {
        out.push(copy_track(&tracks[i]));
        i += 1;
    }
    out
}

pub fn copy_ranked(tracks: &Vec<RankedTrack>) -> (r: Vec<RankedTrack>)
    ensures
        r@ == tracks@,
{
    let mut out: Vec<RankedTrack> = Vec::new();
    let mut i: usize = 0;
    while i < tracks.len()
        invariant
            i <= tracks@.len(),
            out@ =~= tracks@.take(i as int),
        decreases tracks@.len() - i,
    {
        let ranked = &tracks[i];
        out.push(
            RankedTrack { track: copy_track(&ranked.track), play_count: ranked.play_count, score: ranked.score },
        );
        i += 1;
    }
    out
}

pub fn copy_playlists(list: &Vec<PlaylistSummary>) -> (r: Vec<PlaylistSummary>)
    ensures
        r@ == list@,
{
    let mut out: Vec<PlaylistSummary> = Vec::new();
    let mut i: usize = 0;
    while i < list.len()
        invariant
            i <= list@.len(),
            out@ =~= list@.take(i as int),
        decreases list@.len() - i,
    {
        out.push(copy_playlist(&list[i]));
        i += 1;
    }
    out
}

pub open spec fn track_infos(tracks: Seq<OnlineTrack>) -> Seq<TrackInfo> {
    tracks.map_values(|track: OnlineTrack| track@)
}

pub open spec fn rank_infos(tracks: Seq<RankedTrack>) -> Seq<RankInfo> {
    tracks.map_values(|track: RankedTrack| track@)
}

pub open spec fn playlist_infos(list: Seq<PlaylistSummary>) -> Seq<PlaylistInfo> {
    list.map_values(|item: PlaylistSummary| item@)
}

pub open spec fn album_infos(list: Seq<AlbumSummary>) -> Seq<AlbumInfo> {
    list.map_values(|item: AlbumSummary| item@)
}

pub open spec fn artist_infos(list: Seq<ArtistSummary>) -> Seq<ArtistInfo> {
    list.map_values(|item: ArtistSummary| item@)
}

pub fn local_rows(tracks: Vec<Track>) -> (r: Vec<TrackRow>)
    ensures
        row_infos(r@) == rows_of_tracks(tracks@),
{
    let mut out: Vec<TrackRow> = Vec::new();
    for track in it: tracks
        invariant
            it.seq() == tracks@,
            row_infos(out@) =~= rows_of_tracks(tracks@).take(it.index() as int),
    {
        let ghost held = out@;
        let ghost k = it.index() as int;
        out.push(TrackRow::from_track(track));
        proof {
            assert(row_infos(out@) =~= row_infos(held).push(out@.last()@));
            assert(out@.last()@ == rows_of_tracks(tracks@)[k]);
        }
    }
    out
}

pub fn online_rows(tracks: Vec<OnlineTrack>) -> (r: Vec<TrackRow>)
    ensures
        row_infos(r@) == rows_of_online(track_infos(tracks@)),
{
    let mut out: Vec<TrackRow> = Vec::new();
    for track in it: tracks
        invariant
            it.seq() == tracks@,
            row_infos(out@) =~= rows_of_online(track_infos(tracks@)).take(it.index() as int),
    {
        let ghost held = out@;
        let ghost k = it.index() as int;
        out.push(TrackRow::from_online(track));
        proof {
            assert(row_infos(out@) =~= row_infos(held).push(out@.last()@));
            assert(out@.last()@ == rows_of_online(track_infos(tracks@))[k]);
        }
    }
    out
}

pub fn ranked_rows(tracks: Vec<RankedTrack>) -> (r: Vec<TrackRow>)
    ensures
        row_infos(r@) == rows_of_ranked(rank_infos(tracks@)),
{
    let mut out: Vec<TrackRow> = Vec::new();
    for track in it: tracks
        invariant
            it.seq() == tracks@,
            row_infos(out@) =~= rows_of_ranked(rank_infos(tracks@)).take(it.index() as int),
    {
        let ghost held = out@;
        let ghost k = it.index() as int;
        out.push(TrackRow::from_ranked(track));
        proof {
            assert(row_infos(out@) =~= row_infos(held).push(out@.last()@));
            assert(out@.last()@ == rows_of_ranked(rank_infos(tracks@))[k]);
        }
    }
    out
}

// What a pane lists.

#[derive(Clone, Debug, PartialEq, Eq)]
pub enum Content {
    Tracks(Vec<TrackRow>),
    Playlists(Vec<PlaylistSummary>),
    Artists(Vec<ArtistSummary>),
    Albums(Vec<AlbumSummary>),
    Empty,
}

pub enum ContentInfo {
    Tracks(Seq<RowInfo>),
    Playlists(Seq<PlaylistInfo>),
    Artists(Seq<ArtistInfo>),
    Albums(Seq<AlbumInfo>),
    Empty,
}

impl View for Content {
    type V = ContentInfo;

    open spec fn view(&self) -> ContentInfo {
        match *self {
            Content::Tracks(rows) => ContentInfo::Tracks(row_infos(rows@)),
            Content::Playlists(list) => ContentInfo::Playlists(playlist_infos(list@)),
            Content::Artists(list) => ContentInfo::Artists(artist_infos(list@)),
            Content::Albums(list) => ContentInfo::Albums(album_infos(list@)),
            Content::Empty => ContentInfo::Empty,
        }
    }
}

impl ContentInfo {
    pub open spec fn count(self) -> nat {
        match self {
            ContentInfo::Tracks(rows) => rows.len(),
            ContentInfo::Playlists(list) => list.len(),
            ContentInfo::Artists(list) => list.len(),
            ContentInfo::Albums(list) => list.len(),
            ContentInfo::Empty => 0,
        }
    }

    /// The track at a position.
    pub open spec fn track_at(self, index: int) -> Option<RowInfo> {
        match self {
            ContentInfo::Tracks(rows) => if 0 <= index < rows.len() {
                Some(rows[index])
            } else {
                None
            },
            _ => None,
        }
    }
}

impl Content {
    pub fn len(&self) -> (r: usize)
        ensures
            r == self@.count(),
    {
        match self {
            Content::Tracks(rows) => rows.len(),
            Content::Playlists(list) => list.len(),
            Content::Artists(list) => list.len(),
            Content::Albums(list) => list.len(),
            Content::Empty => 0,
        }
    }

    pub fn is_empty(&self) -> (r: bool)
        ensures
            r == (self@.count() == 0),
    {
        self.len() == 0
    }

    pub fn track_at(&self, index: usize) -> (r: Option<&TrackRow>)
        ensures
            match r {
                Some(row) => self@.track_at(index as int) == Some(row@),
                None => self@.track_at(index as int) is None,
            },
    {
        match self {
            Content::Tracks(rows) => if index < rows.len() {
                Some(&rows[index])
            } else {
                None
            },
            _ => None,
        }
    }
}

/// What came back when a pane was loaded.
#[derive(Clone, Debug)]
pub enum Loaded {
    Tracks(String, Vec<OnlineTrack>),
    RankedTracks(String, Vec<RankedTrack>),
    Playlists(Vec<PlaylistSummary>),
    Artists(Vec<ArtistSummary>),
    Albums(Vec<AlbumSummary>),
    LocalTracks(String, Vec<Track>, Option<LibraryStats>),
}

pub enum LoadedInfo {
    Tracks(Seq<char>, Seq<TrackInfo>),
    RankedTracks(Seq<char>, Seq<RankInfo>),
    Playlists(Seq<PlaylistInfo>),
    Artists(Seq<ArtistInfo>),
    Albums(Seq<AlbumInfo>),
    LocalTracks(Seq<char>, Seq<RowInfo>, Option<LibraryStats>),
}

impl View for Loaded {
    type V = LoadedInfo;

    open spec fn view(&self) -> LoadedInfo {
        match *self {
            Loaded::Tracks(title, tracks) => LoadedInfo::Tracks(title@, track_infos(tracks@)),
            Loaded::RankedTracks(title, tracks) => LoadedInfo::RankedTracks(title@, rank_infos(tracks@)),
            Loaded::Playlists(list) => LoadedInfo::Playlists(playlist_infos(list@)),
            Loaded::Artists(list) => LoadedInfo::Artists(artist_infos(list@)),
            Loaded::Albums(list) => LoadedInfo::Albums(album_infos(list@)),
            Loaded::LocalTracks(title, tracks, stats) => LoadedInfo::LocalTracks(title@, rows_of_tracks(tracks@), stats),
        }
    }
}

impl LoadedInfo {
    /// What is listed.
    pub open spec fn content(self) -> ContentInfo {
        match self {
            LoadedInfo::Tracks(_, tracks) => ContentInfo::Tracks(rows_of_online(tracks)),
            LoadedInfo::RankedTracks(_, tracks) => ContentInfo::Tracks(rows_of_ranked(tracks)),
            LoadedInfo::Playlists(list) => ContentInfo::Playlists(list),
            LoadedInfo::Artists(list) => ContentInfo::Artists(list),
            LoadedInfo::Albums(list) => ContentInfo::Albums(list),
            LoadedInfo::LocalTracks(_, rows, _) => ContentInfo::Tracks(rows),
        }
    }

    /// The title that came with it.
    pub open spec fn title(self) -> Option<Seq<char>> {
        match self {
            LoadedInfo::Tracks(title, _) => Some(title),
            LoadedInfo::RankedTracks(title, _) => Some(title),
            LoadedInfo::LocalTracks(title, _, _) => Some(title),
            _ => None,
        }
    }
}

impl Loaded {
    /// The title that came with it, and what is listed.
    pub fn into_parts(self) -> (r: (Option<String>, Content))
        ensures
            text_option(r.0) == self@.title(),
            r.1@ == self@.content(),
    {
        match self {
            Loaded::Tracks(title, tracks) => (Some(title), Content::Tracks(online_rows(tracks))),
            Loaded::RankedTracks(title, tracks) => (Some(title), Content::Tracks(ranked_rows(tracks))),
            Loaded::Playlists(list) => (None, Content::Playlists(list)),
            Loaded::Artists(list) => (None, Content::Artists(list)),
            Loaded::Albums(list) => (None, Content::Albums(list)),
            Loaded::LocalTracks(title, tracks, _) => (Some(title), Content::Tracks(local_rows(tracks))),
        }
    }
}

// The columns beside the first pane.

#[derive(Clone, Debug, PartialEq, Eq)]
pub enum ColumnPhase {
    Loading,
    Ready,
    Error(String),
}

pub enum PhaseInfo {
    Loading,
    Ready,
    Error(Seq<char>),
}

impl View for ColumnPhase {
    type V = PhaseInfo;

    open spec fn view(&self) -> PhaseInfo {
        match *self {
            ColumnPhase::Loading => PhaseInfo::Loading,
            ColumnPhase::Ready => PhaseInfo::Ready,
            ColumnPhase::Error(message) => PhaseInfo::Error(message@),
        }
    }
}

#[derive(Clone, Debug, PartialEq, Eq)]
pub struct BrowserColumn {
    pub id: u64,
    pub title: String,
    pub content: Content,
    pub selected: usize,
    pub phase: ColumnPhase,
}

pub struct ColumnInfo {
    pub id: u64,
    pub title: Seq<char>,
    pub content: ContentInfo,
    pub selected: nat,
    pub phase: PhaseInfo,
}

impl View for BrowserColumn {
    type V = ColumnInfo;

    open spec fn view(&self) -> ColumnInfo {
        ColumnInfo {
            id: self.id,
            title: self.title@,
            content: self.content@,
            selected: self.selected as nat,
            phase: self.phase@,
        }
    }
}

pub open spec fn column_infos(columns: Seq<BrowserColumn>) -> Seq<ColumnInfo> {
    columns.map_values(|column: BrowserColumn| column@)
}

impl ColumnInfo {
    pub open spec fn loading(id: u64, title: Seq<char>) -> ColumnInfo {
        ColumnInfo { id, title, content: ContentInfo::Empty, selected: 0, phase: PhaseInfo::Loading }
    }

    /// The column after it was loaded, or failed to be.
    pub open spec fn loaded(self, result: Result<LoadedInfo, Seq<char>>) -> ColumnInfo {
        match result {
            Ok(loaded) => ColumnInfo {
                id: self.id,
                title: match loaded.title() {
                    Some(title) => title,
                    None => self.title,
                },
                content: loaded.content(),
                selected: 0,
                phase: PhaseInfo::Ready,
            },
            Err(message) => ColumnInfo {
                content: ContentInfo::Empty,
                selected: 0,
                phase: PhaseInfo::Error(message),
                ..self
            },
        }
    }
}

pub open spec fn loaded_result(result: Result<Loaded, String>) -> Result<LoadedInfo, Seq<char>> {
    match result {
        Ok(loaded) => Ok(loaded@),
        Err(message) => Err(message@),
    }
}

impl BrowserColumn {
    pub fn loading(id: u64, title: String) -> (r: BrowserColumn)
        ensures
            r@ == ColumnInfo::loading(id, title@),
    {
        BrowserColumn { id, title, content: Content::Empty, selected: 0, phase: ColumnPhase::Loading }
    }

    pub fn is_loading(&self) -> (r: bool)
        ensures
            r == (self@.phase is Loading),
    {
        match self.phase {
            ColumnPhase::Loading => true,
            _ => false,
        }
    }

    /// Takes in what came back.
    pub fn finish(&mut self, result: Result<Loaded, String>)
        ensures
            final(self)@ == old(self)@.loaded(loaded_result(result)),
    {
        match result {
            Ok(loaded) => {
                let (title, content) = loaded.into_parts();
                self.phase = ColumnPhase::Ready;
                if let Some(text) = title {
                    self.title = text;
                }
                self.content = content;
            },
            Err(message) => {
                self.content = Content::Empty;
                self.phase = ColumnPhase::Error(message);
            },
        }
        self.selected = 0;
    }
}

// The lyrics of the current track.

#[derive(Clone, Debug, PartialEq, Eq)]
pub enum LyricsState {
    Idle,
    Loading(u64),
    Ready(u64, Lyrics),
    Error(u64, String),
}

pub enum LyricsInfo {
    Idle,
    Loading(u64),
    Ready(u64, LyricsView),
    Error(u64, Seq<char>),
}

impl View for LyricsState {
    type V = LyricsInfo;

    open spec fn view(&self) -> LyricsInfo {
        match *self {
            LyricsState::Idle => LyricsInfo::Idle,
            LyricsState::Loading(id) => LyricsInfo::Loading(id),
            LyricsState::Ready(id, lyrics) => LyricsInfo::Ready(id, lyrics@),
            LyricsState::Error(id, message) => LyricsInfo::Error(id, message@),
        }
    }
}

// What is listed.

/// A row of the library shows what the track says of itself.
pub proof fn lemma_track_listed(tracks: Seq<Track>, i: int)
    requires
        0 <= i < tracks.len(),
    ensures
        rows_of_tracks(tracks).len() == tracks.len(),
        rows_of_tracks(tracks)[i].id == tracks[i].id,
        rows_of_tracks(tracks)[i].ncm_id == tracks[i].ncm_id,
        rows_of_tracks(tracks)[i].title == tracks[i].title@,
        rows_of_tracks(tracks)[i].artists == tracks[i].artists@,
        rows_of_tracks(tracks)[i].album == tracks[i].album@,
        rows_of_tracks(tracks)[i].duration_ms == tracks[i].duration_ms,
        tracks[i].path is Some ==> rows_of_tracks(tracks)[i].path == Some(tracks[i].path->0@),
        tracks[i].path is None ==> rows_of_tracks(tracks)[i].path is None,
        rows_of_tracks(tracks)[i].favorite == tracks[i].favorite,
        rows_of_tracks(tracks)[i].play_count == tracks[i].play_count,
        rows_of_tracks(tracks)[i].format == tracks[i].format@,
        rows_of_tracks(tracks)[i].bytes == tracks[i].bytes,
{
}

/// A row of the service shows the track's own fields, bears its number there,
/// and has no file, no format and no plays; in a ranking it has the plays of
/// its rank.
pub proof fn lemma_online_listed(tracks: Seq<TrackInfo>, ranked: Seq<RankInfo>, i: int)
    requires
        0 <= i < tracks.len(),
        ranked.len() == tracks.len(),
        ranked[i].track == tracks[i],
    ensures
        rows_of_online(tracks).len() == tracks.len(),
        rows_of_ranked(ranked).len() == ranked.len(),
        rows_of_online(tracks)[i].id == tracks[i].id,
        rows_of_online(tracks)[i].ncm_id == Some(tracks[i].id),
        rows_of_online(tracks)[i].title == tracks[i].title,
        rows_of_online(tracks)[i].artists == tracks[i].artists,
        rows_of_online(tracks)[i].album == tracks[i].album,
        rows_of_online(tracks)[i].duration_ms == tracks[i].duration_ms,
        rows_of_online(tracks)[i].path is None,
        !rows_of_online(tracks)[i].favorite,
        rows_of_online(tracks)[i].play_count == 0,
        rows_of_online(tracks)[i].format.len() == 0,
        rows_of_online(tracks)[i].bytes == 0,
        rows_of_ranked(ranked)[i].play_count == ranked[i].play_count,
        rows_of_ranked(ranked)[i].title == rows_of_online(tracks)[i].title,
        rows_of_ranked(ranked)[i].artists == rows_of_online(tracks)[i].artists,
        rows_of_ranked(ranked)[i].album == rows_of_online(tracks)[i].album,
        rows_of_ranked(ranked)[i].id == rows_of_online(tracks)[i].id,
        rows_of_ranked(ranked)[i].ncm_id == rows_of_online(tracks)[i].ncm_id,
        rows_of_ranked(ranked)[i].duration_ms == rows_of_online(tracks)[i].duration_ms,
{
}

/// Two rows are the same track where their numbers at the service agree, or
/// where neither has one and their numbers in the library agree.
pub proof fn lemma_same_track(a: RowInfo, b: RowInfo)
    ensures
        a.key() == b.key() <==> a.ncm_id == b.ncm_id && (a.ncm_id is None ==> a.id == b.id),
{
}

/// A column that was loaded lists what came from its start, under the title
/// that came with it or else its own; one that failed lists nothing and says
/// why.
pub proof fn lemma_column_loaded(column: ColumnInfo, loaded: LoadedInfo, message: Seq<char>)
    ensures
        column.loaded(Ok(loaded)).id == column.id,
        column.loaded(Ok(loaded)).selected == 0,
        column.loaded(Ok(loaded)).phase is Ready,
        loaded is Tracks ==> column.loaded(Ok(loaded)).title == loaded->Tracks_0,
        loaded is RankedTracks ==> column.loaded(Ok(loaded)).title == loaded->RankedTracks_0,
        loaded is LocalTracks ==> column.loaded(Ok(loaded)).title == loaded->LocalTracks_0,
        loaded is Playlists || loaded is Artists || loaded is Albums ==> column.loaded(Ok(loaded)).title
            == column.title,
        loaded is Tracks ==> column.loaded(Ok(loaded)).content == ContentInfo::Tracks(
            rows_of_online(loaded->Tracks_1),
        ),
        loaded is RankedTracks ==> column.loaded(Ok(loaded)).content == ContentInfo::Tracks(
            rows_of_ranked(loaded->RankedTracks_1),
        ),
        loaded is LocalTracks ==> column.loaded(Ok(loaded)).content == ContentInfo::Tracks(loaded->LocalTracks_1),
        loaded is Playlists ==> column.loaded(Ok(loaded)).content == ContentInfo::Playlists(loaded->Playlists_0),
        loaded is Artists ==> column.loaded(Ok(loaded)).content == ContentInfo::Artists(loaded->Artists_0),
        loaded is Albums ==> column.loaded(Ok(loaded)).content == ContentInfo::Albums(loaded->Albums_0),
        column.loaded(Err(message)).phase == PhaseInfo::Error(message),
        column.loaded(Err(message)).content is Empty,
        column.loaded(Err(message)).title == column.title,
        column.loaded(Err(message)).id == column.id,
        column.loaded(Err(message)).selected == 0,
{
}

/// Only tracks can be picked as tracks, each at its own place, and there are
/// as many items as are listed.
pub proof fn lemma_content(rows: Seq<RowInfo>, content: ContentInfo, index: int)
    ensures
        ContentInfo::Tracks(rows).count() == rows.len(),
        0 <= index < rows.len() ==> ContentInfo::Tracks(rows).track_at(index) == Some(rows[index]),
        index < 0 || index >= rows.len() ==> ContentInfo::Tracks(rows).track_at(index) is None,
        content !is Tracks ==> content.track_at(index) is None,
        content is Playlists ==> content.count() == content->Playlists_0.len(),
        content is Artists ==> content.count() == content->Artists_0.len(),
        content is Albums ==> content.count() == content->Albums_0.len(),
        content is Empty ==> content.count() == 0,
{
}

} // verus!
