//! Online catalog discovery: what is asked for, page by page, and what is made
//! of the answers.

use std::collections::HashSet;

use vstd::prelude::*;

use crate::json::{
    array_at, either, either_of, ids_at, ids_of, items_at_of, joined_names, names_of, number_at, number_at_of,
    number_or_zero, or_zero, string_at, string_at_of, Json,
};
use crate::lyrics::{sources_of, Lyrics, LyricsView};
use crate::text::{decimal, decimal_text, joined, signed_decimal, signed_decimal_text, trim_of, trimmed};

verus! {

broadcast use vstd::std_specs::hash::group_hash_axioms;

pub const SEARCH_SONG_PAGE_SIZE: usize = 100;

pub const SEARCH_ENTITY_PAGE_SIZE: usize = 50;

pub const COLLECTION_PAGE_SIZE: usize = 50;

pub const ARTIST_ALBUM_PAGE_SIZE: usize = 100;

pub const ARTIST_SONG_PAGE_SIZE: usize = 1_000;

/// After so many pages of one list no more are asked for.
pub const MAX_PAGES: usize = 1_000;

#[derive(Clone, Copy, Debug, PartialEq, Eq, Structural)]
pub enum SearchKind {
    Song,
    Album,
    Artist,
    Playlist,
}

#[derive(Clone, Debug, PartialEq, Eq)]
pub struct DiscoveryResult {
    pub name: String,
    pub track_ids: Vec<u64>,
    /// Result count reported by the service, before an optional local limit is applied.
    pub total_found: u64,
    /// Number of songs, albums, artists or playlists actually matched and expanded.
    pub matched_items: usize,
}

#[derive(Clone, Debug, PartialEq, Eq)]
pub struct PlaylistSummary {
    pub id: u64,
    pub name: String,
    pub track_count: u64,
    pub created_by_user: bool,
}

#[derive(Clone, Copy, Debug, PartialEq, Eq, Structural)]
pub enum PlaylistScope {
    All,
    Created,
    Subscribed,
}

#[derive(Clone, Debug, PartialEq, Eq)]
pub struct AlbumSummary {
    pub id: u64,
    pub name: String,
    pub artists: String,
    pub track_count: u64,
}

#[derive(Clone, Debug, PartialEq, Eq)]
pub struct ArtistSummary {
    pub id: u64,
    pub name: String,
    pub album_count: u64,
    pub music_count: u64,
}

#[derive(Clone, Debug, PartialEq, Eq)]
pub struct RankedTrack {
    pub track: OnlineTrack,
    pub play_count: u64,
    pub score: u64,
}

#[derive(Clone, Debug, PartialEq, Eq)]
pub struct OnlineTrack {
    pub id: u64,
    pub title: String,
    pub artists: String,
    pub album: String,
    pub duration_ms: u64,
}

#[derive(Clone, Debug, PartialEq, Eq)]
pub enum DiscoveryError {
    ApiCode { code: i64, message: String },
    InvalidResponse(&'static str),
    Unavailable(u64),
}

// What the values hold.

#[verifier::ext_equal]
pub struct TrackInfo {
    pub id: u64,
    pub title: Seq<char>,
    pub artists: Seq<char>,
    pub album: Seq<char>,
    pub duration_ms: nat,
}

#[verifier::ext_equal]
pub struct PlaylistInfo {
    pub id: u64,
    pub name: Seq<char>,
    pub track_count: nat,
    pub created_by_user: bool,
}

#[verifier::ext_equal]
pub struct AlbumInfo {
    pub id: u64,
    pub name: Seq<char>,
    pub artists: Seq<char>,
    pub track_count: nat,
}

#[verifier::ext_equal]
pub struct ArtistInfo {
    pub id: u64,
    pub name: Seq<char>,
    pub album_count: nat,
    pub music_count: nat,
}

#[verifier::ext_equal]
pub struct RankInfo {
    pub track: TrackInfo,
    pub play_count: nat,
    pub score: nat,
}

#[verifier::ext_equal]
pub struct ResultInfo {
    pub name: Seq<char>,
    pub track_ids: Seq<u64>,
    pub total_found: nat,
    pub matched_items: nat,
}

pub enum ErrorInfo {
    ApiCode { code: int, message: Seq<char> },
    InvalidResponse(Seq<char>),
    Unavailable(u64),
}

impl View for OnlineTrack {
    type V = TrackInfo;

    open spec fn view(&self) -> TrackInfo {
        TrackInfo {
            id: self.id,
            title: self.title@,
            artists: self.artists@,
            album: self.album@,
            duration_ms: self.duration_ms as nat,
        }
    }
}

impl View for PlaylistSummary {
    type V = PlaylistInfo;

    open spec fn view(&self) -> PlaylistInfo {
        PlaylistInfo {
            id: self.id,
            name: self.name@,
            track_count: self.track_count as nat,
            created_by_user: self.created_by_user,
        }
    }
}

impl View for AlbumSummary {
    type V = AlbumInfo;

    open spec fn view(&self) -> AlbumInfo {
        AlbumInfo {
            id: self.id,
            name: self.name@,
            artists: self.artists@,
            track_count: self.track_count as nat,
        }
    }
}

impl View for ArtistSummary {
    type V = ArtistInfo;

    open spec fn view(&self) -> ArtistInfo {
        ArtistInfo {
            id: self.id,
            name: self.name@,
            album_count: self.album_count as nat,
            music_count: self.music_count as nat,
        }
    }
}

impl View for RankedTrack {
    type V = RankInfo;

    open spec fn view(&self) -> RankInfo {
        RankInfo { track: self.track@, play_count: self.play_count as nat, score: self.score as nat }
    }
}

impl View for DiscoveryResult {
    type V = ResultInfo;

    open spec fn view(&self) -> ResultInfo {
        ResultInfo {
            name: self.name@,
            track_ids: self.track_ids@,
            total_found: self.total_found as nat,
            matched_items: self.matched_items as nat,
        }
    }
}

impl View for DiscoveryError {
    type V = ErrorInfo;

    open spec fn view(&self) -> ErrorInfo {
        match *self {
            DiscoveryError::ApiCode { code, message } => ErrorInfo::ApiCode { code: code as int, message: message@ },
            DiscoveryError::InvalidResponse(name) => ErrorInfo::InvalidResponse(name@),
            DiscoveryError::Unavailable(id) => ErrorInfo::Unavailable(id),
        }
    }
}

pub open spec fn track_views(list: Seq<OnlineTrack>) -> Seq<TrackInfo> {
    list.map_values(|track: OnlineTrack| track@)
}

pub open spec fn playlist_views(list: Seq<PlaylistSummary>) -> Seq<PlaylistInfo> {
    list.map_values(|playlist: PlaylistSummary| playlist@)
}

pub open spec fn album_views(list: Seq<AlbumSummary>) -> Seq<AlbumInfo> {
    list.map_values(|album: AlbumSummary| album@)
}

pub open spec fn artist_views(list: Seq<ArtistSummary>) -> Seq<ArtistInfo> {
    list.map_values(|artist: ArtistSummary| artist@)
}

pub open spec fn rank_views(list: Seq<RankedTrack>) -> Seq<RankInfo> {
    list.map_values(|rank: RankedTrack| rank@)
}

impl DiscoveryError {
    pub open spec fn message_of(self) -> Seq<char> {
        match self@ {
            ErrorInfo::ApiCode { code, message } => "NCM API returned code "@ + signed_decimal(code) + ": "@ + message,
            ErrorInfo::InvalidResponse(name) => "NCM response is missing "@ + name,
            ErrorInfo::Unavailable(id) => "song "@ + decimal(id as nat) + " has no playable source"@,
        }
    }

    /// The error in words.
    pub fn message(&self) -> (r: String)
        ensures
            r@ == self.message_of(),
    {
        match self {
            DiscoveryError::ApiCode { code, message } => {
                let mut out: String = "NCM API returned code ".to_owned();
                out.append(signed_decimal_text(*code).as_str());
                out.append(": ");
                out.append(message.as_str());
                out
            },
            DiscoveryError::InvalidResponse(name) => {
                let mut out: String = "NCM response is missing ".to_owned();
                out.append(name);
                out
            },
            DiscoveryError::Unavailable(id) => {
                let mut out: String = "song ".to_owned();
                out.append(decimal_text(*id).as_str());
                out.append(" has no playable source");
                out
            },
        }
    }
}

// Answers of the service.

/// What is wrong with an answer, going by its code.
pub open spec fn fault_of(response: Json) -> Option<ErrorInfo> {
    let code = match response.get_of("code"@) {
        Some(value) => value.i64_of(),
        None => None,
    };
    match code {
        Some(200) => None,
        Some(code) => {
            let message = match either_of(response, "message"@, "msg"@) {
                Some(value) => match value.text_of() {
                    Some(text) => text,
                    None => "unknown API error"@,
                },
                None => "unknown API error"@,
            };
            Some(ErrorInfo::ApiCode { code: code as int, message })
        },
        None => Some(ErrorInfo::InvalidResponse("code"@)),
    }
}

/// Accepts an answer whose code says that all went well.
pub fn check(response: &Json) -> (r: Result<(), DiscoveryError>)
    ensures
        match r {
            Ok(_) => fault_of(*response) is None,
            Err(error) => fault_of(*response) == Some(error@),
        },
{
    let code: Option<i64> = match response.get("code") {
        Some(value) => value.as_i64(),
        None => None,
    };
    match code {
        Some(200) => Ok(()),
        Some(code) => {
            let message: String = match either(response, "message", "msg") {
                Some(value) => match value.as_str() {
                    Some(text) => text.to_owned(),
                    None => "unknown API error".to_owned(),
                },
                None => "unknown API error".to_owned(),
            };
            Err(DiscoveryError::ApiCode { code, message })
        },
        None => Err(DiscoveryError::InvalidResponse("code")),
    }
}

/// The answer itself, if its code says that all went well.
pub fn checked(response: Json) -> (r: Result<Json, DiscoveryError>)
    ensures
        match r {
            Ok(value) => fault_of(response) is None && value == response,
            Err(error) => fault_of(response) == Some(error@),
        },
{
    match check(&response) {
        Ok(_) => Ok(response),
        Err(error) => Err(error),
    }
}

/// The text of a kind of lyrics, unless it is blank.
pub open spec fn lyric_text_of(response: Json, key: Seq<char>) -> Option<Seq<char>> {
    match response.get_of(key) {
        Some(value) => match value.get_of("lyric"@) {
            Some(lyric) => match lyric.text_of() {
                Some(text) => if trim_of(text).len() > 0 {
                    Some(text)
                } else {
                    None
                },
                None => None,
            },
            None => None,
        },
        None => None,
    }
}

fn lyric_text<'a>(response: &'a Json, key: &str) -> (r: Option<&'a str>)
    ensures
        crate::lyrics::str_option(r) == lyric_text_of(*response, key@),
{
    match response.get(key) {
        Some(value) => match value.get("lyric") {
            Some(lyric) => match lyric.as_str() {
                Some(text) => if !trimmed(text).as_str().is_empty() {
                    Some(text)
                } else {
                    None
                },
                None => None,
            },
            None => None,
        },
        None => None,
    }
}

pub open spec fn lyrics_of(response: Json) -> LyricsView {
    sources_of(
        lyric_text_of(response, "lrc"@),
        lyric_text_of(response, "tlyric"@),
        lyric_text_of(response, "yrc"@),
    )
}

pub fn parse_lyrics(response: &Json) -> (r: Lyrics)
    ensures
        r@ == lyrics_of(*response),
{
    Lyrics::from_sources(lyric_text(response, "lrc"), lyric_text(response, "tlyric"), lyric_text(response, "yrc"))
}

/// The lyrics of an answer of the first service that is asked, if it holds any.
/// Nothing means that the second one has to be asked.
pub fn primary_lyrics(response: Option<&Json>) -> (r: Option<Lyrics>)
    ensures
        match r {
            Some(lyrics) => response is Some && fault_of(*response->0) is None && lyrics@ == lyrics_of(*response->0)
                && lyrics@.original.len() > 0,
            None => response is None || fault_of(*response->0) is Some || lyrics_of(*response->0).original.len() == 0,
        },
{
    match response {
        Some(value) => match check(value) {
            Ok(_) => {
                let lyrics = parse_lyrics(value);
                if lyrics.is_empty() {
                    None
                } else {
                    Some(lyrics)
                }
            },
            Err(_) => None,
        },
        None => None,
    }
}

/// The lyrics of an answer of the second service.
pub fn fallback_lyrics(response: &Json) -> (r: Result<Lyrics, DiscoveryError>)
    ensures
        match r {
            Ok(lyrics) => fault_of(*response) is None && lyrics@ == lyrics_of(*response),
            Err(error) => fault_of(*response) == Some(error@),
        },
{
    match check(response) {
        Ok(_) => Ok(parse_lyrics(response)),
        Err(error) => Err(error),
    }
}

/// The keys under which a search answers: those of the list and of its length.
pub open spec fn search_keys_of(kind: SearchKind) -> (Seq<char>, Seq<char>) {
    match kind {
        SearchKind::Song => ("songs"@, "songCount"@),
        SearchKind::Album => ("albums"@, "albumCount"@),
        SearchKind::Artist => ("artists"@, "artistCount"@),
        SearchKind::Playlist => ("playlists"@, "playlistCount"@),
    }
}

pub(crate) fn search_keys(kind: SearchKind) -> (r: (&'static str, &'static str))
    ensures
        (r.0@, r.1@) == search_keys_of(kind),
{
    match kind {
        SearchKind::Song => ("songs", "songCount"),
        SearchKind::Album => ("albums", "albumCount"),
        SearchKind::Artist => ("artists", "artistCount"),
        SearchKind::Playlist => ("playlists", "playlistCount"),
    }
}

pub open spec fn playlist_of(value: Json, user_id: u64) -> Option<PlaylistInfo> {
    match number_at_of(value, "id"@) {
        Some(id) => Some(
            PlaylistInfo {
                id: id as u64,
                name: string_at_of(value, "name"@),
                track_count: or_zero(number_at_of(value, "trackCount"@)),
                created_by_user: match value.get_of("creator"@) {
                    Some(creator) => number_at_of(creator, "userId"@) == Some(user_id as nat),
                    None => false,
                },
            },
        ),
        None => None,
    }
}

pub fn parse_playlist(value: &Json, user_id: u64) -> (r: Option<PlaylistSummary>)
    ensures
        match r {
            Some(playlist) => playlist_of(*value, user_id) == Some(playlist@),
            None => playlist_of(*value, user_id) is None,
        },
{
    match number_at(value, "id") {
        Some(id) => Some(
            PlaylistSummary {
                id,
                name: string_at(value, "name"),
                track_count: number_or_zero(value, "trackCount"),
                created_by_user: match value.get("creator") {
                    Some(creator) => match number_at(creator, "userId") {
                        Some(owner) => owner == user_id,
                        None => false,
                    },
                    None => false,
                },
            },
        ),
        None => None,
    }
}

pub open spec fn album_of(value: Json) -> Option<AlbumInfo> {
    match number_at_of(value, "id"@) {
        Some(id) => Some(
            AlbumInfo {
                id: id as u64,
                name: string_at_of(value, "name"@),
                artists: joined(names_of(items_at_of(value, "artists"@)), " / "@),
                track_count: or_zero(number_at_of(value, "size"@)),
            },
        ),
        None => None,
    }
}

fn names_at(value: &Json, key: &str) -> (r: String)
    ensures
        r@ == joined(names_of(items_at_of(*value, key@)), " / "@),
{
    match array_at(value, key) {
        Some(items) => joined_names(items),
        None => String::new(),
    }
}

pub fn parse_album(value: &Json) -> (r: Option<AlbumSummary>)
    ensures
        match r {
            Some(album) => album_of(*value) == Some(album@),
            None => album_of(*value) is None,
        },
{
    match number_at(value, "id") {
        Some(id) => Some(
            AlbumSummary {
                id,
                name: string_at(value, "name"),
                artists: names_at(value, "artists"),
                track_count: number_or_zero(value, "size"),
            },
        ),
        None => None,
    }
}

pub open spec fn artist_of(value: Json) -> Option<ArtistInfo> {
    match number_at_of(value, "id"@) {
        Some(id) => Some(
            ArtistInfo {
                id: id as u64,
                name: string_at_of(value, "name"@),
                album_count: or_zero(number_at_of(value, "albumSize"@)),
                music_count: or_zero(number_at_of(value, "musicSize"@)),
            },
        ),
        None => None,
    }
}

pub fn parse_artist(value: &Json) -> (r: Option<ArtistSummary>)
    ensures
        match r {
            Some(artist) => artist_of(*value) == Some(artist@),
            None => artist_of(*value) is None,
        },
{
    match number_at(value, "id") {
        Some(id) => Some(
            ArtistSummary {
                id,
                name: string_at(value, "name"),
                album_count: number_or_zero(value, "albumSize"),
                music_count: number_or_zero(value, "musicSize"),
            },
        ),
        None => None,
    }
}

/// The items of a list, which stands under the first of two keys that is there.
pub open spec fn either_items(value: Json, first: Seq<char>, second: Seq<char>) -> Seq<Json> {
    match either_of(value, first, second) {
        Some(list) => match list.items_of() {
            Some(items) => items,
            None => Seq::empty(),
        },
        None => Seq::empty(),
    }
}

pub open spec fn track_of(value: Json) -> Option<TrackInfo> {
    match number_at_of(value, "id"@) {
        Some(id) => Some(
            TrackInfo {
                id: id as u64,
                title: string_at_of(value, "name"@),
                artists: joined(names_of(either_items(value, "ar"@, "artists"@)), " / "@),
                album: match either_of(value, "al"@, "album"@) {
                    Some(album) => string_at_of(album, "name"@),
                    None => Seq::empty(),
                },
                duration_ms: match number_at_of(value, "dt"@) {
                    Some(n) => n,
                    None => or_zero(number_at_of(value, "duration"@)),
                },
            },
        ),
        None => None,
    }
}

pub fn parse_track(value: &Json) -> (r: Option<OnlineTrack>)
    ensures
        match r {
            Some(track) => track_of(*value) == Some(track@),
            None => track_of(*value) is None,
        },
{
    let artists: String = match either(value, "ar", "artists") {
        Some(list) => match list.as_array() {
            Some(items) => joined_names(items),
            None => String::new(),
        },
        None => String::new(),
    };
    let album: String = match either(value, "al", "album") {
        Some(album) => string_at(album, "name"),
        None => String::new(),
    };
    match number_at(value, "id") {
        Some(id) => Some(
            OnlineTrack {
                id,
                title: string_at(value, "name"),
                artists,
                album,
                duration_ms: match number_at(value, "dt") {
                    Some(n) => n,
                    None => number_or_zero(value, "duration"),
                },
            },
        ),
        None => None,
    }
}

pub open spec fn rank_of(value: Json) -> Option<RankInfo> {
    match value.get_of("song"@) {
        Some(song) => match track_of(song) {
            Some(track) => Some(
                RankInfo {
                    track,
                    play_count: or_zero(number_at_of(value, "playCount"@)),
                    score: or_zero(number_at_of(value, "score"@)),
                },
            ),
            None => None,
        },
        None => None,
    }
}

pub fn parse_rank(value: &Json) -> (r: Option<RankedTrack>)
    ensures
        match r {
            Some(rank) => rank_of(*value) == Some(rank@),
            None => rank_of(*value) is None,
        },
{
    match value.get("song") {
        Some(song) => match parse_track(song) {
            Some(track) => Some(
                RankedTrack {
                    track,
                    play_count: number_or_zero(value, "playCount"),
                    score: number_or_zero(value, "score"),
                },
            ),
            None => None,
        },
        None => None,
    }
}

/// The values that can be read from a list of items, in their order.
pub open spec fn parsed<T>(items: Seq<Json>, parse: spec_fn(Json) -> Option<T>) -> Seq<T>
    decreases items.len(),
{
    if items.len() == 0 {
        seq![]
    } else {
        let before = parsed(items.drop_last(), parse);
        match parse(items.last()) {
            Some(value) => before.push(value),
            None => before,
        }
    }
}

pub open spec fn as_track() -> spec_fn(Json) -> Option<TrackInfo> {
    |value: Json| track_of(value)
}

pub open spec fn as_playlist(user_id: u64) -> spec_fn(Json) -> Option<PlaylistInfo> {
    |value: Json| playlist_of(value, user_id)
}

pub open spec fn as_rank() -> spec_fn(Json) -> Option<RankInfo> {
    |value: Json| rank_of(value)
}

fn parse_tracks(items: &Vec<Json>) -> (r: Vec<OnlineTrack>)
    ensures
        track_views(r@) == parsed(items@, as_track()),
{
    let mut out: Vec<OnlineTrack> = Vec::new();
    let mut i: usize = 0;
    proof {
        assert(track_views(out@) =~= seq![]);
    }
    while i < items.len()
        invariant
            i <= items@.len(),
            track_views(out@) == parsed(items@.take(i as int), as_track()),
        decreases items@.len() - i,
    {
        proof {
            assert(items@.take(i + 1).drop_last() =~= items@.take(i as int));
            assert(items@.take(i + 1).last() == items@[i as int]);
        }
        if let Some(track) = parse_track(&items[i]) {
            let ghost held = out@;
            out.push(track);
            proof {
                assert(track_views(out@) =~= track_views(held).push(track@));
            }
        }
        i += 1;
    }
    proof {
        assert(items@.take(i as int) =~= items@);
    }
    out
}

fn parse_playlists(items: &Vec<Json>, user_id: u64) -> (r: Vec<PlaylistSummary>)
    ensures
        playlist_views(r@) == parsed(items@, as_playlist(user_id)),
{
    let mut out: Vec<PlaylistSummary> = Vec::new();
    let mut i: usize = 0;
    proof {
        assert(playlist_views(out@) =~= seq![]);
    }
    while i < items.len()
        invariant
            i <= items@.len(),
            playlist_views(out@) == parsed(items@.take(i as int), as_playlist(user_id)),
        decreases items@.len() - i,
    {
        proof {
            assert(items@.take(i + 1).drop_last() =~= items@.take(i as int));
            assert(items@.take(i + 1).last() == items@[i as int]);
        }
        if let Some(playlist) = parse_playlist(&items[i], user_id) {
            let ghost held = out@;
            out.push(playlist);
            proof {
                assert(playlist_views(out@) =~= playlist_views(held).push(playlist@));
            }
        }
        i += 1;
    }
    proof {
        assert(items@.take(i as int) =~= items@);
    }
    out
}

/// The list of the daily songs in an answer.
pub open spec fn daily_items(response: Json) -> Option<Seq<Json>> {
    let list = match response.get_of("data"@) {
        Some(data) => match data.get_of("dailySongs"@) {
            Some(songs) => Some(songs),
            None => response.get_of("recommend"@),
        },
        None => response.get_of("recommend"@),
    };
    match list {
        Some(songs) => songs.items_of(),
        None => None,
    }
}

/// The songs of the day.
pub fn daily_songs(response: &Json) -> (r: Result<Vec<OnlineTrack>, DiscoveryError>)
    ensures
        match r {
            Ok(tracks) => fault_of(*response) is None && daily_items(*response) is Some && track_views(tracks@)
                == parsed(daily_items(*response)->0, as_track()),
            Err(error) => match fault_of(*response) {
                Some(fault) => error@ == fault,
                None => daily_items(*response) is None && error@ == ErrorInfo::InvalidResponse("data.dailySongs"@),
            },
        },
{
    match check(response) {
        Ok(_) => {},
        Err(error) => {
            return Err(error);
        },
    }
    let nested: Option<&Json> = match response.get("data") {
        Some(data) => data.get("dailySongs"),
        None => None,
    };
    let list: Option<&Json> = match nested {
        Some(songs) => Some(songs),
        None => response.get("recommend"),
    };
    let items: Option<&Vec<Json>> = match list {
        Some(songs) => songs.as_array(),
        None => None,
    };
    match items {
        Some(songs) => Ok(parse_tracks(songs)),
        None => Err(DiscoveryError::InvalidResponse("data.dailySongs")),
    }
}

/// The playlists that are recommended.
pub fn recommended_playlists(response: &Json) -> (r: Result<Vec<PlaylistSummary>, DiscoveryError>)
    ensures
        ({
            let listed = response.get_of("recommend"@) is Some && response.get_of("recommend"@)->0.items_of() is Some;
            match r {
                Ok(playlists) => fault_of(*response) is None && listed && playlist_views(playlists@) == parsed(
                    items_at_of(*response, "recommend"@),
                    as_playlist(0),
                ),
                Err(error) => match fault_of(*response) {
                    Some(fault) => error@ == fault,
                    None => !listed && error@ == ErrorInfo::InvalidResponse("recommend"@),
                },
            }
        }),
{
    match check(response) {
        Ok(_) => {},
        Err(error) => {
            return Err(error);
        },
    }
    match array_at(response, "recommend") {
        Some(items) => Ok(parse_playlists(items, 0)),
        None => Err(DiscoveryError::InvalidResponse("recommend")),
    }
}

/// A collection with the ids of its tracks.
pub open spec fn collection_of(holder: Json, ids: Seq<u64>) -> ResultInfo {
    ResultInfo { name: string_at_of(holder, "name"@), track_ids: ids, total_found: ids.len(), matched_items: 1 }
}

pub open spec fn playlist_result(response: Json) -> Result<ResultInfo, ErrorInfo> {
    match fault_of(response) {
        Some(fault) => Err(fault),
        None => match response.get_of("playlist"@) {
            Some(playlist) => Ok(collection_of(playlist, ids_of(items_at_of(playlist, "trackIds"@), "id"@))),
            None => Err(ErrorInfo::InvalidResponse("playlist"@)),
        },
    }
}

pub open spec fn album_result(response: Json) -> Result<ResultInfo, ErrorInfo> {
    match fault_of(response) {
        Some(fault) => Err(fault),
        None => match response.get_of("album"@) {
            Some(album) => Ok(collection_of(album, ids_of(items_at_of(response, "songs"@), "id"@))),
            None => Err(ErrorInfo::InvalidResponse("album"@)),
        },
    }
}

/// A playlist with the ids of its tracks.
pub fn playlist(response: &Json) -> (r: Result<DiscoveryResult, DiscoveryError>)
    ensures
        match r {
            Ok(result) => playlist_result(*response) == Ok::<ResultInfo, ErrorInfo>(result@),
            Err(error) => playlist_result(*response) == Err::<ResultInfo, ErrorInfo>(error@),
        },
{
    match check(response) {
        Ok(_) => {},
        Err(error) => {
            return Err(error);
        },
    }
    match response.get("playlist") {
        Some(playlist) => {
            let track_ids = ids_at(playlist, "trackIds");
            let total_found: u64 = track_ids.len() as u64;
            Ok(
                DiscoveryResult {
                    name: string_at(playlist, "name"),
                    track_ids,
                    total_found,
                    matched_items: 1,
                },
            )
        },
        None => Err(DiscoveryError::InvalidResponse("playlist")),
    }
}

/// An album with the ids of its tracks.
pub fn album(response: &Json) -> (r: Result<DiscoveryResult, DiscoveryError>)
    ensures
        match r {
            Ok(result) => album_result(*response) == Ok::<ResultInfo, ErrorInfo>(result@),
            Err(error) => album_result(*response) == Err::<ResultInfo, ErrorInfo>(error@),
        },
{
    match check(response) {
        Ok(_) => {},
        Err(error) => {
            return Err(error);
        },
    }
    match response.get("album") {
        Some(album) => {
            let track_ids = ids_at(response, "songs");
            let total_found: u64 = track_ids.len() as u64;
            Ok(DiscoveryResult { name: string_at(album, "name"), track_ids, total_found, matched_items: 1 })
        },
        None => Err(DiscoveryError::InvalidResponse("album")),
    }
}

/// A ranking of what was listened to, of the last week or of all time.
pub fn listening_rank(response: &Json, all_time: bool) -> (r: Result<Vec<RankedTrack>, DiscoveryError>)
    ensures
        match r {
            Ok(ranks) => fault_of(*response) is None && rank_views(ranks@) == parsed(
                items_at_of(*response, if all_time { "allData"@ } else { "weekData"@ }),
                as_rank(),
            ),
            Err(error) => fault_of(*response) == Some(error@),
        },
{
    match check(response) {
        Ok(_) => {},
        Err(error) => {
            return Err(error);
        },
    }
    let key: &'static str = if all_time {
        "allData"
    } else {
        "weekData"
    };
    let mut out: Vec<RankedTrack> = Vec::new();
    proof {
        assert(rank_views(out@) =~= seq![]);
    }
    if let Some(items) = array_at(response, key) {
        let mut i: usize = 0;
        proof {
            assert(items@.take(0) =~= seq![]);
        }
        while i < items.len()
            invariant
                i <= items@.len(),
                rank_views(out@) == parsed(items@.take(i as int), as_rank()),
            decreases items@.len() - i,
        {
            proof {
                assert(items@.take(i + 1).drop_last() =~= items@.take(i as int));
                assert(items@.take(i + 1).last() == items@[i as int]);
            }
            if let Some(rank) = parse_rank(&items[i]) {
                let ghost held = out@;
                out.push(rank);
                proof {
                    assert(rank_views(out@) =~= rank_views(held).push(rank@));
                }
            }
            i += 1;
        }
        proof {
            assert(items@.take(i as int) =~= items@);
        }
    }
    Ok(out)
}

// Lists of ids without repeats.

/// Those of `ids` that are not among `seen`, each once, in their order.
pub open spec fn fresh(seen: Set<u64>, ids: Seq<u64>) -> Seq<u64>
    decreases ids.len(),
{
    if ids.len() == 0 {
        seq![]
    } else {
        let before = fresh(seen, ids.drop_last());
        if seen.contains(ids.last()) || before.contains(ids.last()) {
            before
        } else {
            before.push(ids.last())
        }
    }
}

/// A list of ids with those of `ids` behind it that it does not hold.
pub open spec fn extended(list: Seq<u64>, ids: Seq<u64>) -> Seq<u64> {
    list + fresh(list.to_set(), ids)
}

pub proof fn lemma_fresh(seen: Set<u64>, ids: Seq<u64>)
    ensures
        fresh(seen, ids).no_duplicates(),
        forall|x: u64| #[trigger] fresh(seen, ids).contains(x) <==> ids.contains(x) && !seen.contains(x),
        fresh(seen, ids).len() <= ids.len(),
    decreases ids.len(),
{
    if ids.len() > 0 {
        let t = ids.drop_last();
        lemma_fresh(seen, t);
        let before = fresh(seen, t);
        let r = fresh(seen, ids);
        assert forall|x: u64| #[trigger] r.contains(x) <==> ids.contains(x) && !seen.contains(x) by {
            if ids.contains(x) {
                let k = choose|k: int| 0 <= k < ids.len() && ids[k] == x;
                if k < t.len() {
                    assert(t[k] == x);
                }
            }
            if t.contains(x) {
                let k = choose|k: int| 0 <= k < t.len() && t[k] == x;
                assert(ids[k] == x);
            }
            assert(ids[ids.len() - 1] == ids.last());
            if before.contains(x) {
                let k = choose|k: int| 0 <= k < before.len() && before[k] == x;
                assert(r[k] == x);
            }
            if r.contains(x) {
                let k = choose|k: int| 0 <= k < r.len() && r[k] == x;
                if k < before.len() {
                    assert(before[k] == x);
                }
            }
            if !(seen.contains(ids.last()) || before.contains(ids.last())) {
                assert(r[before.len() as int] == ids.last());
            }
            assert(before.contains(x) <==> t.contains(x) && !seen.contains(x));
        }
    }
}

/// Appends the ids that were not seen yet, and marks them as seen.
pub fn append_unique(target: &mut Vec<u64>, seen: &mut HashSet<u64>, ids: Vec<u64>)
    ensures
        final(target)@ == old(target)@ + fresh(old(seen)@, ids@),
        final(seen)@ == old(seen)@.union(ids@.to_set()),
{
    let ghost start = target@;
    let ghost before = seen@;
    let mut i: usize = 0;
    proof {
        assert(start + fresh(before, ids@.take(0)) =~= start);
        assert(before.union(ids@.take(0).to_set()) =~= before);
    }
    while i < ids.len()
        invariant
            i <= ids@.len(),
            target@ == start + fresh(before, ids@.take(i as int)),
            seen@ == before.union(ids@.take(i as int).to_set()),
        decreases ids@.len() - i,
    {
        let id: u64 = ids[i];
        let ghost head = ids@.take(i as int);
        let ghost longer = ids@.take(i + 1);
        proof {
            assert(longer.drop_last() =~= head);
            assert(longer.last() == id);
            lemma_fresh(before, head);
            assert(longer =~= head.push(id));
            head.lemma_push_to_set_commute(id);
            assert(before.union(longer.to_set()) =~= before.union(head.to_set()).insert(id));
            assert(head.to_set().contains(id) <==> head.contains(id));
        }
        if seen.insert(id) {
            target.push(id);
            proof {
                assert(start + fresh(before, longer) =~= (start + fresh(before, head)).push(id));
            }
        }
        i += 1;
    }
    proof {
        assert(ids@.take(i as int) =~= ids@);
    }
}

/// Extending a list of ids keeps what was there, in its place, holds every new
/// id, and never brings one in twice.
pub proof fn lemma_extended(list: Seq<u64>, ids: Seq<u64>)
    ensures
        list.is_prefix_of(extended(list, ids)),
        list.no_duplicates() ==> extended(list, ids).no_duplicates(),
        extended(list, ids).to_set() == list.to_set().union(ids.to_set()),
        extended(extended(list, ids), ids) == extended(list, ids),
{
    lemma_fresh(list.to_set(), ids);
    let f = fresh(list.to_set(), ids);
    let r = extended(list, ids);
    assert forall|x: u64| #[trigger] r.to_set().contains(x) <==> list.to_set().union(ids.to_set()).contains(x) by {
        if list.contains(x) {
            let k = choose|k: int| 0 <= k < list.len() && list[k] == x;
            assert(r[k] == x);
        }
        if f.contains(x) {
            let k = choose|k: int| 0 <= k < f.len() && f[k] == x;
            assert(r[k + list.len()] == x);
        }
        if r.contains(x) {
            let k = choose|k: int| 0 <= k < r.len() && r[k] == x;
            if k < list.len() {
                assert(list[k] == x);
            } else {
                assert(f[k - list.len()] == x);
            }
        }
        assert(f.contains(x) <==> ids.contains(x) && !list.to_set().contains(x));
    }
    assert(r.to_set() =~= list.to_set().union(ids.to_set()));
    if list.no_duplicates() {
        assert forall|i: int, j: int| 0 <= i < r.len() && 0 <= j < r.len() && i != j implies r[i] != r[j] by {
            let a = if i < j { i } else { j };
            let b = if i < j { j } else { i };
            if b >= list.len() {
                assert(f.contains(f[b - list.len()]));
                if a < list.len() {
                    assert(list.contains(list[a]));
                }
            }
        }
    }
    lemma_fresh(r.to_set(), ids);
    let again = fresh(r.to_set(), ids);
    assert(again.len() == 0) by {
        if again.len() > 0 {
            assert(again.contains(again[0]));
            assert(ids.to_set().contains(again[0]));
            assert(r.to_set().contains(again[0]));
        }
    }
    assert(extended(r, ids) =~= r);
}

// Laws of answers.

/// Ids that are all new and do not repeat are taken as they are.
pub proof fn lemma_fresh_of_new(seen: Set<u64>, ids: Seq<u64>)
    requires
        ids.no_duplicates(),
        forall|i: int| 0 <= i < ids.len() ==> !seen.contains(#[trigger] ids[i]),
    ensures
        fresh(seen, ids) == ids,
    decreases ids.len(),
{
    if ids.len() > 0 {
        let t = ids.drop_last();
        assert forall|i: int| 0 <= i < t.len() implies !seen.contains(#[trigger] t[i]) by {
            assert(t[i] == ids[i]);
        }
        lemma_fresh_of_new(seen, t);
        assert(!t.contains(ids.last())) by {
            if t.contains(ids.last()) {
                let i = choose|i: int| 0 <= i < t.len() && t[i] == ids.last();
                assert(ids[i] == ids[ids.len() - 1]);
            }
        }
        assert(t.push(ids.last()) =~= ids);
    }
}

/// Ids are taken in the order in which they first come: what comes later is
/// put behind what came before, and only if it is new.
pub proof fn lemma_fresh_keeps_order(seen: Set<u64>, ids: Seq<u64>, id: u64)
    ensures
        fresh(seen, ids.push(id)) == if seen.contains(id) || ids.contains(id) {
            fresh(seen, ids)
        } else {
            fresh(seen, ids).push(id)
        },
        fresh(seen, seq![]) == Seq::<u64>::empty(),
{
    assert(ids.push(id).drop_last() =~= ids);
    lemma_fresh(seen, ids);
}

/// A list is read item by item, in order: what can be read of it stays, and what
/// cannot is left out.
pub proof fn lemma_parsed<T>(items: Seq<Json>, item: Json, parse: spec_fn(Json) -> Option<T>)
    ensures
        parse(item) is Some ==> parsed(items.push(item), parse) == parsed(items, parse).push(parse(item)->0),
        parse(item) is None ==> parsed(items.push(item), parse) == parsed(items, parse),
        parsed(Seq::<Json>::empty(), parse).len() == 0,
{
    assert(items.push(item).drop_last() =~= items);
}

/// An answer is good exactly when its code is 200; any other code is an error
/// with that code and what the service says of it, and an answer without a code
/// is not one.
pub proof fn lemma_faults(response: Json, code: u64, message: String)
    ensures
        response.get_of("code"@) == Some(Json::Unsigned(200)) ==> fault_of(response) is None,
        response.get_of("code"@) == Some(Json::Unsigned(code)) && code <= i64::MAX && code != 200 && response.get_of(
            "message"@,
        ) == Some(Json::Text(message)) ==> fault_of(response) == Some(
            ErrorInfo::ApiCode { code: code as int, message: message@ },
        ),
        response.get_of("code"@) is None ==> fault_of(response) == Some(ErrorInfo::InvalidResponse("code"@)),
{
}

/// A track is read from its own name, the names of its artists, the name of its
/// album and its length.
pub proof fn lemma_track_fields(value: Json, id: u64, album: Json)
    requires
        value.get_of("id"@) == Some(Json::Unsigned(id)),
        value.get_of("al"@) == Some(album),
        value.get_of("ar"@) is Some,
    ensures
        track_of(value) is Some,
        track_of(value)->0.id == id,
        track_of(value)->0.title == string_at_of(value, "name"@),
        track_of(value)->0.artists == joined(names_of(items_at_of(value, "ar"@)), " / "@),
        track_of(value)->0.album == string_at_of(album, "name"@),
        number_at_of(value, "dt"@) is Some ==> Some(track_of(value)->0.duration_ms) == number_at_of(value, "dt"@),
{
}

/// What a user's collections hold is read from its own fields. A playlist is the
/// user's own exactly if its creator is the user.
pub proof fn lemma_collection_fields(value: Json, id: u64, user_id: u64, creator: Json)
    requires
        value.get_of("id"@) == Some(Json::Unsigned(id)),
        value.get_of("creator"@) == Some(creator),
    ensures
        playlist_of(value, user_id) is Some && album_of(value) is Some && artist_of(value) is Some,
        playlist_of(value, user_id)->0.id == id,
        playlist_of(value, user_id)->0.name == string_at_of(value, "name"@),
        playlist_of(value, user_id)->0.track_count == or_zero(number_at_of(value, "trackCount"@)),
        playlist_of(value, user_id)->0.created_by_user <==> number_at_of(creator, "userId"@) == Some(user_id as nat),
        album_of(value)->0.id == id,
        album_of(value)->0.name == string_at_of(value, "name"@),
        album_of(value)->0.artists == joined(names_of(items_at_of(value, "artists"@)), " / "@),
        album_of(value)->0.track_count == or_zero(number_at_of(value, "size"@)),
        artist_of(value)->0.id == id,
        artist_of(value)->0.name == string_at_of(value, "name"@),
        artist_of(value)->0.album_count == or_zero(number_at_of(value, "albumSize"@)),
        artist_of(value)->0.music_count == or_zero(number_at_of(value, "musicSize"@)),
{
}

/// A place in a ranking is that of its song, with its plays and its score.
pub proof fn lemma_rank_fields(value: Json, song: Json)
    requires
        value.get_of("song"@) == Some(song),
        track_of(song) is Some,
    ensures
        rank_of(value) is Some,
        rank_of(value)->0.track == track_of(song)->0,
        rank_of(value)->0.play_count == or_zero(number_at_of(value, "playCount"@)),
        rank_of(value)->0.score == or_zero(number_at_of(value, "score"@)),
{
}

/// A playlist and an album hold the tracks that their answers list, under their
/// own names.
pub proof fn lemma_collections(response: Json, holder: Json)
    requires
        fault_of(response) is None,
    ensures
        response.get_of("playlist"@) == Some(holder) ==> playlist_result(response) is Ok && playlist_result(
            response,
        )->Ok_0.name == string_at_of(holder, "name"@) && playlist_result(response)->Ok_0.track_ids == ids_of(
            items_at_of(holder, "trackIds"@),
            "id"@,
        ),
        response.get_of("album"@) == Some(holder) ==> album_result(response) is Ok && album_result(response)->Ok_0.name
            == string_at_of(holder, "name"@) && album_result(response)->Ok_0.track_ids == ids_of(
            items_at_of(response, "songs"@),
            "id"@,
        ),
{
}

/// Each kind of search finds its results under its own keys.
pub proof fn lemma_search_keys(kind: SearchKind)
    ensures
        kind == SearchKind::Song ==> search_keys_of(kind) == ("songs"@, "songCount"@),
        kind == SearchKind::Album ==> search_keys_of(kind) == ("albums"@, "albumCount"@),
        kind == SearchKind::Artist ==> search_keys_of(kind) == ("artists"@, "artistCount"@),
        kind == SearchKind::Playlist ==> search_keys_of(kind) == ("playlists"@, "playlistCount"@),
{
}

/// An answer holds three texts: the plain lines, the translated lines and the
/// timed words. Each is taken from its own place; a blank one counts as none.
pub proof fn lemma_lyrics_of_answer(response: Json, key: Seq<char>, holder: Json, text: String)
    requires
        response.get_of(key) == Some(holder),
        holder.get_of("lyric"@) == Some(Json::Text(text)),
    ensures
        trim_of(text@).len() > 0 ==> lyric_text_of(response, key) == Some(text@),
        trim_of(text@).len() == 0 ==> lyric_text_of(response, key) is None,
        lyrics_of(response) == sources_of(
            lyric_text_of(response, "lrc"@),
            lyric_text_of(response, "tlyric"@),
            lyric_text_of(response, "yrc"@),
        ),
{
}

} // verus!
