//! Lists of the catalog that take more than one request: each is a machine that
//! says what to ask for next and takes the answers.

use std::collections::{HashMap, HashSet};

use vstd::prelude::*;

use crate::discovery::{
    album, album_of, album_result, append_unique, artist_of, check, extended, fault_of, fresh, album_views,
    artist_views, as_playlist, as_track, track_views, lemma_extended, lemma_fresh, parse_album, parsed, playlist_views,
    parse_artist, parse_playlist, parse_track, playlist, playlist_result, search_keys_of, AlbumInfo, AlbumSummary,
    ArtistInfo, ArtistSummary, DiscoveryError, DiscoveryResult, ErrorInfo, OnlineTrack, PlaylistInfo, PlaylistScope,
    PlaylistSummary, ResultInfo, SearchKind, TrackInfo, ARTIST_ALBUM_PAGE_SIZE, ARTIST_SONG_PAGE_SIZE,
    COLLECTION_PAGE_SIZE, MAX_PAGES, SEARCH_ENTITY_PAGE_SIZE, SEARCH_SONG_PAGE_SIZE,
};
use crate::download::{
    among, behind_chunk, chunk_of, level_of, lower_quality, next_chunk, quality_rank, AudioQuality,
};
use crate::json::{
    array_at, ids_in, ids_of, items_at_of, number_at_of, number_or_zero, or_zero, string_at, string_at_of, Json,
};
use crate::ncm_core::api;
use crate::ncm_core::api::search::{code_of, type_of, SearchType};
use crate::ncm_core::api::track::id_objects;
use crate::ncm_core::request::{request_of, ApiSpec, CryptoMode, FieldView};
use crate::pagination::{distinct_ids, has_id, lemma_merged, merged};
use crate::streaming::{PlaybackSource, SourceInfo};
use crate::text::{decimal, decimal_text, trim_of, trimmed};

verus! {

broadcast use vstd::std_specs::hash::group_hash_axioms;

/// What a machine wants to know.
#[derive(Debug)]
pub enum CatalogRequest {
    ArtistAlbums { artist_id: u64, offset: usize },
    ArtistSongs { artist_id: u64, offset: usize },
    Album(u64),
    Playlist(u64),
    Search { offset: usize },
    UserPlaylists { user_id: u64, offset: usize },
    SubscribedAlbums { offset: usize },
    SubscribedArtists { offset: usize },
    TrackDetails { ids: Vec<u64> },
    Audio { song_id: u64, quality: AudioQuality },
}

/// Whether an answer says that more follows, or, where it does not say, whether
/// its page was full.
pub open spec fn more_of(response: Json, key: Seq<char>, received: nat, page_size: nat) -> bool {
    match response.get_of(key) {
        Some(value) => match value.bool_of() {
            Some(more) => more,
            None => received == page_size,
        },
        None => received == page_size,
    }
}

fn has_more(response: &Json, key: &str, received: usize, page_size: usize) -> (r: bool)
    ensures
        r == more_of(*response, key@, received as nat, page_size as nat),
{
    match response.get(key) {
        Some(value) => match value.as_bool() {
            Some(more) => more,
            None => received == page_size,
        },
        None => received == page_size,
    }
}

// All tracks of an artist.

#[derive(Clone, Copy, Debug, PartialEq, Eq, Structural)]
pub enum ArtistPhase {
    /// The albums are asked for; so many pages of them came.
    Albums(usize),
    /// The album at this position is asked for.
    Expand(usize),
    /// The songs are asked for; so many pages of them came.
    Songs(usize),
    Done,
}

/// Combines released albums and the artist's songs in stable source order.
pub struct ArtistTracks {
    artist_id: u64,
    name: String,
    album_ids: Vec<u64>,
    seen_albums: HashSet<u64>,
    track_ids: Vec<u64>,
    seen_tracks: HashSet<u64>,
    phase: ArtistPhase,
}

#[verifier::ext_equal]
pub struct ArtistTracksView {
    pub artist_id: u64,
    pub name: Seq<char>,
    pub album_ids: Seq<u64>,
    pub track_ids: Seq<u64>,
    pub phase: ArtistPhase,
}

impl View for ArtistTracks {
    type V = ArtistTracksView;

    closed spec fn view(&self) -> ArtistTracksView {
        ArtistTracksView {
            artist_id: self.artist_id,
            name: self.name@,
            album_ids: self.album_ids@,
            track_ids: self.track_ids@,
            phase: self.phase,
        }
    }
}

/// The phase that follows once the albums are known.
pub open spec fn behind_albums(album_ids: Seq<u64>) -> ArtistPhase {
    if album_ids.len() > 0 {
        ArtistPhase::Expand(0)
    } else {
        ArtistPhase::Songs(0)
    }
}

impl ArtistTracksView {
    pub open spec fn wf(self) -> bool {
        &&& self.album_ids.no_duplicates()
        &&& self.track_ids.no_duplicates()
        &&& match self.phase {
            ArtistPhase::Albums(page) => page < MAX_PAGES && self.track_ids.len() == 0,
            ArtistPhase::Expand(i) => i < self.album_ids.len(),
            ArtistPhase::Songs(page) => page < MAX_PAGES,
            ArtistPhase::Done => true,
        }
    }

    pub open spec fn start(artist_id: u64) -> ArtistTracksView {
        ArtistTracksView {
            artist_id,
            name: seq![],
            album_ids: seq![],
            track_ids: seq![],
            phase: ArtistPhase::Albums(0),
        }
    }

    /// What becomes of the list when a page of albums comes.
    pub open spec fn with_albums(self, page: usize, response: Json) -> ArtistTracksView {
        let batch = items_at_of(response, "hotAlbums"@);
        let name = if self.name.len() > 0 {
            self.name
        } else {
            match response.get_of("artist"@) {
                Some(artist) => string_at_of(artist, "name"@),
                None => Seq::empty(),
            }
        };
        let album_ids = extended(self.album_ids, ids_of(batch, "id"@));
        let more = batch.len() > 0 && more_of(response, "more"@, batch.len(), ARTIST_ALBUM_PAGE_SIZE as nat) && page
            + 1 < MAX_PAGES;
        ArtistTracksView {
            name,
            album_ids,
            phase: if more {
                ArtistPhase::Albums((page + 1) as usize)
            } else {
                behind_albums(album_ids)
            },
            ..self
        }
    }

    /// What becomes of the list when the album at `i` comes.
    pub open spec fn with_album(self, i: usize, ids: Seq<u64>) -> ArtistTracksView {
        ArtistTracksView {
            track_ids: extended(self.track_ids, ids),
            phase: if i + 1 < self.album_ids.len() {
                ArtistPhase::Expand((i + 1) as usize)
            } else {
                ArtistPhase::Songs(0)
            },
            ..self
        }
    }

    /// What becomes of the list when a page of songs comes.
    pub open spec fn with_songs(self, page: usize, response: Json) -> ArtistTracksView {
        let batch = items_at_of(response, "songs"@);
        let more = batch.len() >= ARTIST_SONG_PAGE_SIZE && more_of(
            response,
            "more"@,
            batch.len(),
            ARTIST_SONG_PAGE_SIZE as nat,
        ) && page + 1 < MAX_PAGES;
        ArtistTracksView {
            track_ids: extended(self.track_ids, ids_of(batch, "id"@)),
            phase: if more {
                ArtistPhase::Songs((page + 1) as usize)
            } else {
                ArtistPhase::Done
            },
            ..self
        }
    }

    /// The list after an answer.
    pub open spec fn next(self, response: Json) -> Result<ArtistTracksView, ErrorInfo> {
        match self.phase {
            ArtistPhase::Albums(page) => match fault_of(response) {
                Some(fault) => Err(fault),
                None => Ok(self.with_albums(page, response)),
            },
            ArtistPhase::Expand(i) => match album_result(response) {
                Ok(found) => Ok(self.with_album(i, found.track_ids)),
                Err(fault) => Err(fault),
            },
            ArtistPhase::Songs(page) => match fault_of(response) {
                Some(fault) => Err(fault),
                None => Ok(self.with_songs(page, response)),
            },
            ArtistPhase::Done => Ok(self),
        }
    }

    /// What has to be asked for next.
    pub open spec fn asked(self) -> Option<CatalogRequest> {
        match self.phase {
            ArtistPhase::Albums(page) => Some(
                CatalogRequest::ArtistAlbums {
                    artist_id: self.artist_id,
                    offset: (page * ARTIST_ALBUM_PAGE_SIZE) as usize,
                },
            ),
            ArtistPhase::Expand(i) => Some(CatalogRequest::Album(self.album_ids[i as int])),
            ArtistPhase::Songs(page) => Some(
                CatalogRequest::ArtistSongs {
                    artist_id: self.artist_id,
                    offset: (page * ARTIST_SONG_PAGE_SIZE) as usize,
                },
            ),
            ArtistPhase::Done => None,
        }
    }

    pub open spec fn result(self) -> ResultInfo {
        ResultInfo {
            name: if self.name.len() == 0 {
                "Artist "@ + decimal(self.artist_id as nat)
            } else {
                self.name
            },
            track_ids: self.track_ids,
            total_found: self.track_ids.len(),
            matched_items: if self.album_ids.len() < usize::MAX {
                self.album_ids.len() + 1
            } else {
                usize::MAX as nat
            },
        }
    }
}

proof fn lemma_empty_to_set()
    ensures
        Seq::<u64>::empty().to_set() == Set::<u64>::empty(),
{
    assert(Seq::<u64>::empty().to_set() =~= Set::<u64>::empty());
}

impl ArtistTracks {
    pub closed spec fn inv(self) -> bool {
        &&& self@.wf()
        &&& self.seen_albums@ == self.album_ids@.to_set()
        &&& self.seen_tracks@ == self.track_ids@.to_set()
    }

    pub fn new(artist_id: u64) -> (r: ArtistTracks)
        ensures
            r.inv(),
            r@ == ArtistTracksView::start(artist_id),
    {
        proof {
            lemma_empty_to_set();
        }
        let r = ArtistTracks {
            artist_id,
            name: String::new(),
            album_ids: Vec::new(),
            seen_albums: HashSet::new(),
            track_ids: Vec::new(),
            seen_tracks: HashSet::new(),
            phase: ArtistPhase::Albums(0),
        };
        proof {
            assert(r@ =~= ArtistTracksView::start(artist_id));
            assert(r.album_ids@ =~= Seq::empty());
            assert(r.track_ids@ =~= Seq::empty());
        }
        r
    }

    /// What has to be asked for next; nothing once the list is complete.
    pub fn request(&self) -> (r: Option<CatalogRequest>)
        requires
            self.inv(),
        ensures
            r == self@.asked(),
            r == match self@.phase {
                ArtistPhase::Albums(page) => Some(
                    CatalogRequest::ArtistAlbums {
                        artist_id: self@.artist_id,
                        offset: (page * ARTIST_ALBUM_PAGE_SIZE) as usize,
                    },
                ),
                ArtistPhase::Expand(i) => Some(CatalogRequest::Album(self@.album_ids[i as int])),
                ArtistPhase::Songs(page) => Some(
                    CatalogRequest::ArtistSongs {
                        artist_id: self@.artist_id,
                        offset: (page * ARTIST_SONG_PAGE_SIZE) as usize,
                    },
                ),
                ArtistPhase::Done => None,
            },
    {
        match self.phase {
            ArtistPhase::Albums(page) => Some(
                CatalogRequest::ArtistAlbums { artist_id: self.artist_id, offset: page * ARTIST_ALBUM_PAGE_SIZE },
            ),
            ArtistPhase::Expand(i) => Some(CatalogRequest::Album(self.album_ids[i])),
            ArtistPhase::Songs(page) => Some(
                CatalogRequest::ArtistSongs { artist_id: self.artist_id, offset: page * ARTIST_SONG_PAGE_SIZE },
            ),
            ArtistPhase::Done => None,
        }
    }

    fn add_tracks(&mut self, ids: Vec<u64>)
        requires
            old(self).seen_tracks@ == old(self).track_ids@.to_set(),
        ensures
            final(self).seen_tracks@ == final(self).track_ids@.to_set(),
            final(self).seen_albums == old(self).seen_albums,
            final(self)@ == (ArtistTracksView { track_ids: extended(old(self)@.track_ids, ids@), ..old(self)@ }),
    {
        proof {
            lemma_extended(self.track_ids@, ids@);
        }
        append_unique(&mut self.track_ids, &mut self.seen_tracks, ids);
    }

    /// Takes the answer to what was asked for last.
    pub fn accept(&mut self, response: &Json) -> (r: Result<(), DiscoveryError>)
        requires
            old(self).inv(),
        ensures
            final(self).inv(),
            match r {
                Ok(_) => old(self)@.next(*response) == Ok::<ArtistTracksView, ErrorInfo>(final(self)@),
                Err(error) => old(self)@.next(*response) == Err::<ArtistTracksView, ErrorInfo>(error@) && final(self)@
                    == old(self)@,
            },
    {
        let ghost v = self@;
        match self.phase {
            ArtistPhase::Albums(page) => {
                match check(response) {
                    Ok(_) => {},
                    Err(error) => {
                        return Err(error);
                    },
                }
                if self.name.as_str().is_empty() {
                    self.name = match response.get("artist") {
                        Some(artist) => string_at(artist, "name"),
                        None => String::new(),
                    };
                }
                let mut received: usize = 0;
                let ghost batch = items_at_of(*response, "hotAlbums"@);
                let ids: Vec<u64> = match array_at(response, "hotAlbums") {
                    Some(items) => {
                        received = items.len();
                        ids_in(items)
                    },
                    None => Vec::new(),
                };
                proof {
                    assert(ids@ == ids_of(batch, "id"@));
                    lemma_extended(self.album_ids@, ids@);
                }
                append_unique(&mut self.album_ids, &mut self.seen_albums, ids);
                if received > 0 && has_more(response, "more", received, ARTIST_ALBUM_PAGE_SIZE) && page + 1
                    < MAX_PAGES {
                    self.phase = ArtistPhase::Albums(page + 1);
                } else if self.album_ids.len() > 0 {
                    self.phase = ArtistPhase::Expand(0);
                } else {
                    self.phase = ArtistPhase::Songs(0);
                }
                proof {
                    assert(self@ =~= v.with_albums(page, *response));
                }
                Ok(())
            },
            ArtistPhase::Expand(i) => {
                match album(response) {
                    Ok(found) => {
                        proof {
                            lemma_extended(v.track_ids, found.track_ids@);
                        }
                        self.add_tracks(found.track_ids);
                        let count: usize = self.album_ids.len();
                        if i < count - 1 {
                            self.phase = ArtistPhase::Expand(i + 1);
                        } else {
                            self.phase = ArtistPhase::Songs(0);
                        }
                        Ok(())
                    },
                    Err(error) => Err(error),
                }
            },
            ArtistPhase::Songs(page) => {
                match check(response) {
                    Ok(_) => {},
                    Err(error) => {
                        return Err(error);
                    },
                }
                let mut received: usize = 0;
                let ghost batch = items_at_of(*response, "songs"@);
                let ids: Vec<u64> = match array_at(response, "songs") {
                    Some(items) => {
                        received = items.len();
                        ids_in(items)
                    },
                    None => Vec::new(),
                };
                proof {
                    assert(ids@ == ids_of(batch, "id"@));
                    lemma_extended(v.track_ids, ids@);
                }
                self.add_tracks(ids);
                if received >= ARTIST_SONG_PAGE_SIZE && has_more(response, "more", received, ARTIST_SONG_PAGE_SIZE)
                    && page + 1 < MAX_PAGES {
                    self.phase = ArtistPhase::Songs(page + 1);
                } else {
                    self.phase = ArtistPhase::Done;
                }
                proof {
                    assert(self@ =~= v.with_songs(page, *response));
                }
                Ok(())
            },
            ArtistPhase::Done => Ok(()),
        }
    }

    pub fn is_done(&self) -> (r: bool)
        ensures
            r == (self@.phase == ArtistPhase::Done),
    {
        self.phase == ArtistPhase::Done
    }

    /// The artist and the tracks found.
    pub fn result(&self) -> (r: DiscoveryResult)
        ensures
            r@ == self@.result(),
    {
        let name: String = if self.name.as_str().is_empty() {
            let mut out: String = "Artist ".to_owned();
            out.append(decimal_text(self.artist_id).as_str());
            out
        } else {
            self.name.clone()
        };
        let track_ids = copy_ids(&self.track_ids);
        let r = DiscoveryResult {
            name,
            total_found: track_ids.len() as u64,
            matched_items: self.album_ids.len().saturating_add(1),
            track_ids,
        };
        r
    }
}

/// A copy of a list of ids.
pub fn copy_ids(list: &Vec<u64>) -> (r: Vec<u64>)
    ensures
        r@ == list@,
{
    let mut out: Vec<u64> = Vec::new();
    let mut i: usize = 0;
    while i < list.len()
        invariant
            i <= list@.len(),
            out@ == list@.take(i as int),
        decreases list@.len() - i,
    {
        out.push(list[i]);
        proof {
            assert(list@.take(i + 1) =~= list@.take(i as int).push(list@[i as int]));
        }
        i += 1;
    }
    proof {
        assert(list@.take(i as int) =~= list@);
    }
    out
}

/// The phases that are left to a list of an artist's tracks.
pub open spec fn artist_phases_left(v: ArtistTracksView) -> int {
    match v.phase {
        ArtistPhase::Albums(_) => 3,
        ArtistPhase::Expand(_) => 2,
        ArtistPhase::Songs(_) => 1,
        ArtistPhase::Done => 0,
    }
}

/// The most requests that are left in this phase.
pub open spec fn artist_requests_left(v: ArtistTracksView) -> int {
    match v.phase {
        ArtistPhase::Albums(page) => MAX_PAGES - page,
        ArtistPhase::Expand(i) => v.album_ids.len() - i,
        ArtistPhase::Songs(page) => MAX_PAGES - page,
        ArtistPhase::Done => 0,
    }
}

/// Every answer that is accepted brings the list of an artist's tracks nearer
/// to its end, and leaves in place what was found before.
pub proof fn lemma_artist_tracks_progress(v: ArtistTracksView, response: Json)
    requires
        v.wf(),
        v.album_ids.len() <= usize::MAX,
        v.phase != ArtistPhase::Done,
        v.next(response) is Ok,
    ensures
        v.next(response)->Ok_0.wf(),
        v.track_ids.is_prefix_of(v.next(response)->Ok_0.track_ids),
        v.album_ids.is_prefix_of(v.next(response)->Ok_0.album_ids),
        artist_requests_left(v.next(response)->Ok_0) >= 0,
        artist_phases_left(v.next(response)->Ok_0) <= artist_phases_left(v),
        artist_phases_left(v.next(response)->Ok_0) == artist_phases_left(v) ==> artist_requests_left(
            v.next(response)->Ok_0,
        ) < artist_requests_left(v),
{
    let w = v.next(response)->Ok_0;
    match v.phase {
        ArtistPhase::Albums(page) => {
            lemma_extended(v.album_ids, ids_of(items_at_of(response, "hotAlbums"@), "id"@));
            assert(w == v.with_albums(page, response));
        },
        ArtistPhase::Expand(i) => {
            lemma_extended(v.track_ids, album_result(response)->Ok_0.track_ids);
            assert(w == v.with_album(i, album_result(response)->Ok_0.track_ids));
        },
        ArtistPhase::Songs(page) => {
            lemma_extended(v.track_ids, ids_of(items_at_of(response, "songs"@), "id"@));
            assert(w == v.with_songs(page, response));
        },
        ArtistPhase::Done => {},
    }
}

// Searching, and expanding what is found into one list of tracks.

#[derive(Clone, Copy, Debug, PartialEq, Eq, Structural)]
pub enum SearchPhase {
    /// A page of results is asked for; so many came before.
    Page(usize),
    /// The result at this position of the page is asked for.
    Expand { page: usize, next: usize },
    Done,
}

pub struct Search {
    keyword: String,
    kind: SearchKind,
    max_results: usize,
    matched_items: usize,
    total_found: u64,
    track_ids: Vec<u64>,
    seen_tracks: HashSet<u64>,
    entities: Vec<u64>,
    seen_entities: HashSet<u64>,
    page_full: bool,
    artist: Option<ArtistTracks>,
    phase: SearchPhase,
}

#[verifier::ext_equal]
pub struct SearchView {
    pub keyword: Seq<char>,
    pub kind: SearchKind,
    pub max_results: nat,
    pub total_found: nat,
    pub track_ids: Seq<u64>,
    /// The results that were found, in the order in which they are expanded.
    pub entities: Seq<u64>,
    /// Whether the last page was as long as a page can be.
    pub page_full: bool,
    pub artist: Option<ArtistTracksView>,
    pub phase: SearchPhase,
}

pub open spec fn search_page_size(kind: SearchKind) -> usize {
    if kind == SearchKind::Song {
        SEARCH_SONG_PAGE_SIZE
    } else {
        SEARCH_ENTITY_PAGE_SIZE
    }
}

impl View for Search {
    type V = SearchView;

    closed spec fn view(&self) -> SearchView {
        SearchView {
            keyword: self.keyword@,
            kind: self.kind,
            max_results: self.max_results as nat,
            total_found: self.total_found as nat,
            track_ids: self.track_ids@,
            entities: self.entities@,
            page_full: self.page_full,
            artist: match self.artist {
                Some(artist) => Some(artist@),
                None => None,
            },
            phase: self.phase,
        }
    }
}

impl SearchView {
    pub open spec fn wf(self) -> bool {
        &&& self.track_ids.no_duplicates()
        &&& self.entities.no_duplicates()
        &&& self.entities.len() <= self.max_results
        &&& match self.phase {
            SearchPhase::Page(page) => page < MAX_PAGES && self.entities.len() < self.max_results
                && self.artist is None,
            SearchPhase::Expand { page, next } => page < MAX_PAGES && next < self.entities.len() && self.kind
                != SearchKind::Song && (self.kind == SearchKind::Artist <==> self.artist is Some) && (
            self.artist is Some ==> self.artist->0.wf() && self.artist->0.phase != ArtistPhase::Done),
            SearchPhase::Done => self.artist is None,
        }
    }

    pub open spec fn start(keyword: Seq<char>, kind: SearchKind, max_results: nat) -> SearchView {
        SearchView {
            keyword,
            kind,
            max_results,
            total_found: 0,
            track_ids: seq![],
            entities: seq![],
            page_full: false,
            artist: None,
            phase: if keyword.len() == 0 || max_results == 0 {
                SearchPhase::Done
            } else {
                SearchPhase::Page(0)
            },
        }
    }

    /// The phase once everything on a page was expanded: the search goes on
    /// while pages are full, more may be taken and not too many pages came.
    pub open spec fn behind_page(self, page: usize) -> SearchPhase {
        if self.page_full && self.entities.len() < self.max_results && page + 1 < MAX_PAGES {
            SearchPhase::Page((page + 1) as usize)
        } else {
            SearchPhase::Done
        }
    }

    /// The machine that lists an artist's tracks, where the results are artists.
    pub open spec fn expansion(self, next: int) -> Option<ArtistTracksView> {
        if self.kind == SearchKind::Artist {
            Some(ArtistTracksView::start(self.entities[next]))
        } else {
            None
        }
    }

    /// The results that are taken from a page: those that are new, as many as
    /// still may be taken.
    pub open spec fn taken(self, batch: Seq<Json>) -> Seq<u64> {
        let found = fresh(self.entities.to_set(), ids_of(batch, "id"@));
        if found.len() <= self.max_results - self.entities.len() {
            found
        } else {
            found.take(self.max_results - self.entities.len())
        }
    }

    /// The search after a page of results.
    pub open spec fn with_page(self, page: usize, result: Json) -> SearchView {
        let batch = items_at_of(result, search_keys_of(self.kind).0);
        let taken = self.taken(batch);
        let found = SearchView {
            total_found: if page == 0 {
                or_zero(number_at_of(result, search_keys_of(self.kind).1))
            } else {
                self.total_found
            },
            entities: self.entities + taken,
            track_ids: if self.kind == SearchKind::Song {
                extended(self.track_ids, taken)
            } else {
                self.track_ids
            },
            page_full: batch.len() >= search_page_size(self.kind),
            ..self
        };
        if self.kind == SearchKind::Song || taken.len() == 0 {
            SearchView { phase: found.behind_page(page), ..found }
        } else {
            let next = self.entities.len() as usize;
            SearchView {
                phase: SearchPhase::Expand { page, next },
                artist: found.expansion(next as int),
                ..found
            }
        }
    }

    /// The search once the result at `next` was expanded into tracks.
    pub open spec fn with_tracks(self, page: usize, next: usize, ids: Seq<u64>) -> SearchView {
        let found = SearchView { track_ids: extended(self.track_ids, ids), artist: None, ..self };
        if next + 1 < self.entities.len() {
            SearchView {
                phase: SearchPhase::Expand { page, next: (next + 1) as usize },
                artist: found.expansion(next + 1),
                ..found
            }
        } else {
            SearchView { phase: found.behind_page(page), ..found }
        }
    }

    /// The search after an answer.
    pub open spec fn next(self, response: Json) -> Result<SearchView, ErrorInfo> {
        match self.phase {
            SearchPhase::Page(page) => match fault_of(response) {
                Some(fault) => Err(fault),
                None => match response.get_of("result"@) {
                    Some(result) => Ok(self.with_page(page, result)),
                    None => Err(ErrorInfo::InvalidResponse("result"@)),
                },
            },
            SearchPhase::Expand { page, next } => match self.kind {
                SearchKind::Song => Ok(self),
                SearchKind::Album => match album_result(response) {
                    Ok(found) => Ok(self.with_tracks(page, next, found.track_ids)),
                    Err(fault) => Err(fault),
                },
                SearchKind::Playlist => match playlist_result(response) {
                    Ok(found) => Ok(self.with_tracks(page, next, found.track_ids)),
                    Err(fault) => Err(fault),
                },
                SearchKind::Artist => match self.artist {
                    Some(artist) => match artist.next(response) {
                        Ok(after) => if after.phase == ArtistPhase::Done {
                            Ok(self.with_tracks(page, next, after.track_ids))
                        } else {
                            Ok(SearchView { artist: Some(after), ..self })
                        },
                        Err(fault) => Err(fault),
                    },
                    None => Ok(self),
                },
            },
            SearchPhase::Done => Ok(self),
        }
    }

    /// What has to be asked for next.
    pub open spec fn asked(self) -> Option<CatalogRequest> {
        match self.phase {
            SearchPhase::Page(page) => Some(
                CatalogRequest::Search { offset: (page * search_page_size(self.kind)) as usize },
            ),
            SearchPhase::Expand { page, next } => match self.kind {
                SearchKind::Album => Some(CatalogRequest::Album(self.entities[next as int])),
                SearchKind::Playlist => Some(CatalogRequest::Playlist(self.entities[next as int])),
                SearchKind::Artist => match self.artist {
                    Some(artist) => artist.asked(),
                    None => None,
                },
                SearchKind::Song => None,
            },
            SearchPhase::Done => None,
        }
    }

    pub open spec fn result(self) -> ResultInfo {
        ResultInfo {
            name: self.keyword,
            track_ids: self.track_ids,
            total_found: self.total_found,
            matched_items: self.entities.len(),
        }
    }
}

proof fn lemma_taken(v: SearchView, batch: Seq<Json>)
    requires
        v.entities.no_duplicates(),
        v.entities.len() <= v.max_results,
    ensures
        v.taken(batch).no_duplicates(),
        (v.entities + v.taken(batch)).no_duplicates(),
        (v.entities + v.taken(batch)).len() <= v.max_results,
        v.taken(batch).len() <= batch.len(),
{
    let ids = ids_of(batch, "id"@);
    lemma_fresh(v.entities.to_set(), ids);
    lemma_extended(v.entities, ids);
    lemma_ids_len(batch);
    let all = extended(v.entities, ids);
    let r = v.entities + v.taken(batch);
    assert(r =~= all.take(r.len() as int));
}

proof fn lemma_ids_len(batch: Seq<Json>)
    ensures
        ids_of(batch, "id"@).len() <= batch.len(),
    decreases batch.len(),
{
    if batch.len() > 0 {
        lemma_ids_len(batch.drop_last());
    }
}

impl Search {
    pub closed spec fn inv(self) -> bool {
        &&& self@.wf()
        &&& self.seen_tracks@ == self.track_ids@.to_set()
        &&& self.seen_entities@ == self.entities@.to_set()
        &&& self.matched_items == self.entities@.len()
        &&& self.artist is Some ==> self.artist->0.inv()
    }

    /// Starts a search. There is nothing to ask for where the keyword is blank
    /// or no result is wanted.
    pub fn new(keyword: &str, kind: SearchKind, max_results: usize) -> (r: Search)
        ensures
            r.inv(),
            r@ == SearchView::start(trim_of(keyword@), kind, max_results as nat),
    {
        let keyword = trimmed(keyword);
        let idle: bool = keyword.as_str().is_empty() || max_results == 0;
        proof {
            lemma_empty_to_set();
        }
        let r = Search {
            keyword,
            kind,
            max_results,
            matched_items: 0,
            total_found: 0,
            track_ids: Vec::new(),
            seen_tracks: HashSet::new(),
            entities: Vec::new(),
            seen_entities: HashSet::new(),
            page_full: false,
            artist: None,
            phase: if idle { SearchPhase::Done } else { SearchPhase::Page(0) },
        };
        proof {
            assert(r.track_ids@ =~= Seq::empty());
            assert(r.entities@ =~= Seq::empty());
            assert(r@ =~= SearchView::start(keyword@, kind, max_results as nat));
        }
        r
    }

    pub fn keyword(&self) -> (r: &str)
        ensures
            r@ == self@.keyword,
    {
        self.keyword.as_str()
    }

    fn page_size(&self) -> (r: usize)
        ensures
            r == search_page_size(self@.kind),
            0 < r <= 100,
    {
        if self.kind == SearchKind::Song {
            SEARCH_SONG_PAGE_SIZE
        } else {
            SEARCH_ENTITY_PAGE_SIZE
        }
    }

    /// What has to be asked for next; nothing once the search is over.
    pub fn request(&self) -> (r: Option<CatalogRequest>)
        requires
            self.inv(),
        ensures
            r == self@.asked(),
            match self@.phase {
                SearchPhase::Page(page) => r == Some(
                    CatalogRequest::Search { offset: (page * search_page_size(self@.kind)) as usize },
                ),
                SearchPhase::Expand { page, next } => match self@.kind {
                    SearchKind::Album => r == Some(CatalogRequest::Album(self@.entities[next as int])),
                    SearchKind::Playlist => r == Some(CatalogRequest::Playlist(self@.entities[next as int])),
                    SearchKind::Artist => r is Some && match self@.artist->0.phase {
                        ArtistPhase::Albums(i) => r->0 == (CatalogRequest::ArtistAlbums {
                            artist_id: self@.artist->0.artist_id,
                            offset: (i * ARTIST_ALBUM_PAGE_SIZE) as usize,
                        }),
                        ArtistPhase::Expand(i) => r->0 == CatalogRequest::Album(self@.artist->0.album_ids[i as int]),
                        ArtistPhase::Songs(i) => r->0 == (CatalogRequest::ArtistSongs {
                            artist_id: self@.artist->0.artist_id,
                            offset: (i * ARTIST_SONG_PAGE_SIZE) as usize,
                        }),
                        ArtistPhase::Done => false,
                    },
                    SearchKind::Song => r is None,
                },
                SearchPhase::Done => r is None,
            },
    {
        match self.phase {
            SearchPhase::Page(page) => {
                let size: usize = self.page_size();
                proof {
                    assert(page * size <= 1_000 * 100) by (nonlinear_arith)
                        requires
                            page < 1_000,
                            size <= 100,
                    ;
                }
                Some(CatalogRequest::Search { offset: page * size })
            },
            SearchPhase::Expand { page: _, next } => match self.kind {
                SearchKind::Album => Some(CatalogRequest::Album(self.entities[next])),
                SearchKind::Playlist => Some(CatalogRequest::Playlist(self.entities[next])),
                SearchKind::Artist => match &self.artist {
                    Some(artist) => artist.request(),
                    None => None,
                },
                SearchKind::Song => None,
            },
            SearchPhase::Done => None,
        }
    }

    fn add_tracks(&mut self, ids: Vec<u64>)
        requires
            old(self).seen_tracks@ == old(self).track_ids@.to_set(),
            old(self).track_ids@.no_duplicates(),
        ensures
            final(self).seen_tracks@ == final(self).track_ids@.to_set(),
            final(self).track_ids@.no_duplicates(),
            final(self).matched_items == old(self).matched_items,
            final(self).entities == old(self).entities,
            final(self).seen_entities == old(self).seen_entities,
            final(self).artist == old(self).artist,
            final(self)@ == (SearchView { track_ids: extended(old(self)@.track_ids, ids@), ..old(self)@ }),
    {
        proof {
            lemma_extended(self.track_ids@, ids@);
        }
        append_unique(&mut self.track_ids, &mut self.seen_tracks, ids);
        proof {
            assert(self@ =~= (SearchView { track_ids: extended(old(self)@.track_ids, ids@), ..old(self)@ }));
        }
    }

    /// Goes on behind a page.
    fn leave_page(&mut self, page: usize)
        requires
            page < MAX_PAGES,
            old(self).artist is None,
            old(self)@.track_ids.no_duplicates(),
            old(self)@.entities.no_duplicates(),
            old(self)@.entities.len() <= old(self)@.max_results,
            old(self).seen_tracks@ == old(self).track_ids@.to_set(),
            old(self).seen_entities@ == old(self).entities@.to_set(),
            old(self).matched_items == old(self).entities@.len(),
        ensures
            final(self).inv(),
            final(self)@ == (SearchView { phase: old(self)@.behind_page(page), ..old(self)@ }),
    {
        if self.page_full && self.matched_items < self.max_results && page + 1 < MAX_PAGES {
            self.phase = SearchPhase::Page(page + 1);
        } else {
            self.phase = SearchPhase::Done;
        }
        proof {
            assert(self@ =~= (SearchView { phase: old(self)@.behind_page(page), ..old(self)@ }));
        }
    }

    /// Starts to expand the result at `next`.
    fn expand(&mut self, page: usize, next: usize)
        requires
            page < MAX_PAGES,
            next < old(self)@.entities.len(),
            old(self)@.kind != SearchKind::Song,
            old(self).artist is None,
            old(self)@.track_ids.no_duplicates(),
            old(self)@.entities.no_duplicates(),
            old(self)@.entities.len() <= old(self)@.max_results,
            old(self).seen_tracks@ == old(self).track_ids@.to_set(),
            old(self).seen_entities@ == old(self).entities@.to_set(),
            old(self).matched_items == old(self).entities@.len(),
        ensures
            final(self).inv(),
            final(self)@ == (SearchView {
                phase: SearchPhase::Expand { page, next },
                artist: old(self)@.expansion(next as int),
                ..old(self)@
            }),
    {
        self.phase = SearchPhase::Expand { page, next };
        if self.kind == SearchKind::Artist {
            self.artist = Some(ArtistTracks::new(self.entities[next]));
        }
        proof {
            assert(self@ =~= (SearchView {
                phase: SearchPhase::Expand { page, next },
                artist: old(self)@.expansion(next as int),
                ..old(self)@
            }));
        }
    }

    /// Goes on once the result at `next` was expanded.
    fn take_tracks(&mut self, page: usize, next: usize, ids: Vec<u64>)
        requires
            page < MAX_PAGES,
            next < old(self)@.entities.len(),
            old(self)@.kind != SearchKind::Song,
            old(self).artist is None,
            old(self)@.track_ids.no_duplicates(),
            old(self)@.entities.no_duplicates(),
            old(self)@.entities.len() <= old(self)@.max_results,
            old(self).seen_tracks@ == old(self).track_ids@.to_set(),
            old(self).seen_entities@ == old(self).entities@.to_set(),
            old(self).matched_items == old(self).entities@.len(),
        ensures
            final(self).inv(),
            final(self)@ == old(self)@.with_tracks(page, next, ids@),
    {
        let ghost v = self@;
        self.add_tracks(ids);
        let count: usize = self.entities.len();
        if next < count - 1 {
            self.expand(page, next + 1);
        } else {
            self.leave_page(page);
        }
        proof {
            assert(self@ =~= v.with_tracks(page, next, ids@));
        }
    }

    fn take_page(&mut self, page: usize, result: &Json)
        requires
            old(self).inv(),
            old(self)@.phase == SearchPhase::Page(page),
        ensures
            final(self).inv(),
            final(self)@ == old(self)@.with_page(page, *result),
    {
        let ghost v = self@;
        let (array_key, count_key) = crate::discovery::search_keys(self.kind);
        if page == 0 {
            self.total_found = number_or_zero(result, count_key);
        }
        let size: usize = self.page_size();
        let ghost batch = items_at_of(*result, search_keys_of(self.kind).0);
        let mut received: usize = 0;
        let ids: Vec<u64> = match array_at(result, array_key) {
            Some(items) => {
                received = items.len();
                ids_in(items)
            },
            None => Vec::new(),
        };
        self.page_full = received >= size;
        proof {
            assert(ids@ == ids_of(batch, "id"@));
            lemma_taken(v, batch);
            lemma_fresh(v.entities.to_set(), ids@);
        }
        let first: usize = self.entities.len();
        let mut taken: Vec<u64> = Vec::new();
        let room: usize = self.max_results - self.matched_items;
        append_unique(&mut taken, &mut self.seen_entities, ids);
        proof {
            assert(taken@ =~= fresh(v.entities.to_set(), ids_of(batch, "id"@)));
        }
        if taken.len() > room {
            taken.truncate(room);
        }
        proof {
            assert(taken@ =~= v.taken(batch));
        }
        let mut i: usize = 0;
        let ghost held = self.entities@;
        let ghost other = *self;
        proof {
            assert(held + taken@.take(0) =~= held);
        }
        while i < taken.len()
            invariant
                i <= taken@.len(),
                self.entities@ == held + taken@.take(i as int),
                self.keyword == other.keyword,
                self.kind == other.kind,
                self.max_results == other.max_results,
                self.matched_items == other.matched_items,
                self.total_found == other.total_found,
                self.track_ids == other.track_ids,
                self.seen_tracks == other.seen_tracks,
                self.page_full == other.page_full,
                self.artist == other.artist,
                self.phase == other.phase,
            decreases taken@.len() - i,
        {
            self.entities.push(taken[i]);
            proof {
                assert(held + taken@.take(i + 1) =~= (held + taken@.take(i as int)).push(taken@[i as int]));
            }
            i += 1;
        }
        proof {
            assert(taken@.take(i as int) =~= taken@);
        }
        self.matched_items = self.entities.len();
        let mut seen: HashSet<u64> = HashSet::new();
        let mut listed: Vec<u64> = Vec::new();
        let all = copy_ids(&self.entities);
        proof {
            lemma_empty_to_set();
            assert(Set::<u64>::empty().union(all@.to_set()) =~= all@.to_set());
        }
        append_unique(&mut listed, &mut seen, all);
        self.seen_entities = seen;
        let count: usize = taken.len();
        if self.kind == SearchKind::Song {
            self.add_tracks(taken);
            self.leave_page(page);
        } else if count == 0 {
            self.leave_page(page);
        } else {
            self.expand(page, first);
        }
        proof {
            assert(self@ =~= v.with_page(page, *result));
        }
    }

    /// Takes the answer to what was asked for last.
    pub fn accept(&mut self, response: &Json) -> (r: Result<(), DiscoveryError>)
        requires
            old(self).inv(),
        ensures
            final(self).inv(),
            match r {
                Ok(_) => old(self)@.next(*response) == Ok::<SearchView, ErrorInfo>(final(self)@),
                Err(error) => old(self)@.next(*response) == Err::<SearchView, ErrorInfo>(error@) && final(self)@
                    == old(self)@,
            },
    {
        let ghost v = self@;
        match self.phase {
            SearchPhase::Page(page) => {
                match check(response) {
                    Ok(_) => {},
                    Err(error) => {
                        return Err(error);
                    },
                }
                match response.get("result") {
                    Some(result) => {
                        self.take_page(page, result);
                        Ok(())
                    },
                    None => Err(DiscoveryError::InvalidResponse("result")),
                }
            },
            SearchPhase::Expand { page, next } => match self.kind {
                SearchKind::Song => Ok(()),
                SearchKind::Album => match album(response) {
                    Ok(found) => {
                        self.take_tracks(page, next, found.track_ids);
                        Ok(())
                    },
                    Err(error) => Err(error),
                },
                SearchKind::Playlist => match playlist(response) {
                    Ok(found) => {
                        self.take_tracks(page, next, found.track_ids);
                        Ok(())
                    },
                    Err(error) => Err(error),
                },
                SearchKind::Artist => {
                    let mut current: Option<ArtistTracks> = self.artist.take();
                    match current {
                        Some(mut artist) => {
                            match artist.accept(response) {
                                Ok(_) => {
                                    if artist.is_done() {
                                        let found = artist.result();
                                        self.take_tracks(page, next, found.track_ids);
                                        proof {
                                            assert(self@ =~= v.with_tracks(page, next, artist@.track_ids));
                                        }
                                    } else {
                                        self.artist = Some(artist);
                                        proof {
                                            assert(self@ =~= (SearchView { artist: Some(artist@), ..v }));
                                        }
                                    }
                                    Ok(())
                                },
                                Err(error) => {
                                    self.artist = Some(artist);
                                    proof {
                                        assert(self@ =~= v);
                                    }
                                    Err(error)
                                },
                            }
                        },
                        None => Ok(()),
                    }
                },
            },
            SearchPhase::Done => Ok(()),
        }
    }

    /// The keyword and the tracks found.
    pub fn result(&self) -> (r: DiscoveryResult)
        requires
            self.inv(),
        ensures
            r@ == self@.result(),
    {
        DiscoveryResult {
            name: self.keyword.clone(),
            track_ids: copy_ids(&self.track_ids),
            total_found: self.total_found,
            matched_items: self.matched_items,
        }
    }
}

/// A search never holds more results than were wanted, no result and no track
/// twice, and every answer leaves in place what was found before.
pub proof fn lemma_search_progress(v: SearchView, response: Json)
    requires
        v.wf(),
        v.entities.len() < usize::MAX,
        v.next(response) is Ok,
    ensures
        v.track_ids.is_prefix_of(v.next(response)->Ok_0.track_ids),
        v.entities.is_prefix_of(v.next(response)->Ok_0.entities),
        v.next(response)->Ok_0.track_ids.no_duplicates(),
        v.next(response)->Ok_0.entities.no_duplicates(),
        v.next(response)->Ok_0.entities.len() <= v.max_results,
        v.next(response)->Ok_0.max_results == v.max_results,
{
    match v.phase {
        SearchPhase::Page(page) => {
            let result = response.get_of("result"@)->0;
            let batch = items_at_of(result, search_keys_of(v.kind).0);
            lemma_taken(v, batch);
            lemma_extended(v.track_ids, v.taken(batch));
        },
        SearchPhase::Expand { page, next } => {
            match v.kind {
                SearchKind::Album => {
                    lemma_extended(v.track_ids, album_result(response)->Ok_0.track_ids);
                },
                SearchKind::Playlist => {
                    lemma_extended(v.track_ids, playlist_result(response)->Ok_0.track_ids);
                },
                SearchKind::Artist => {
                    lemma_extended(v.track_ids, v.artist->0.next(response)->Ok_0.track_ids);
                },
                SearchKind::Song => {},
            }
        },
        SearchPhase::Done => {},
    }
}

// Lists that come in pages.

/// How far a list has been asked for.
#[derive(Clone, Copy, Debug, PartialEq, Eq, Structural)]
pub struct ListWindow {
    pub page: usize,
    pub done: bool,
}

impl ListWindow {
    pub open spec fn wf(self) -> bool {
        self.page < MAX_PAGES
    }

    /// The window behind a page: the list is over when the page is empty, the
    /// service says so, or too many pages came.
    pub open spec fn behind(self, received: nat, more: bool) -> ListWindow {
        if received > 0 && more && self.page + 1 < MAX_PAGES {
            ListWindow { page: (self.page + 1) as usize, done: false }
        } else {
            ListWindow { page: self.page, done: true }
        }
    }

    fn turn(&mut self, received: usize, more: bool)
        requires
            old(self).wf(),
        ensures
            final(self).wf(),
            *final(self) == old(self).behind(received as nat, more),
    {
        if received > 0 && more && self.page + 1 < MAX_PAGES {
            self.page = self.page + 1;
            self.done = false;
        } else {
            self.done = true;
        }
    }
}

// Playlists of a user.

pub open spec fn playlist_id() -> spec_fn(PlaylistInfo) -> u64 {
    |item: PlaylistInfo| item.id
}

/// The playlists that a user made or subscribed to.
pub struct UserPlaylists {
    user_id: u64,
    items: Vec<PlaylistSummary>,
    seen: HashSet<u64>,
    window: ListWindow,
}

#[verifier::ext_equal]
pub struct UserPlaylistsView {
    pub user_id: u64,
    pub items: Seq<PlaylistInfo>,
    pub window: ListWindow,
}

impl View for UserPlaylists {
    type V = UserPlaylistsView;

    closed spec fn view(&self) -> UserPlaylistsView {
        UserPlaylistsView { user_id: self.user_id, items: playlist_views(self.items@), window: self.window }
    }
}

impl UserPlaylistsView {
    /// What has to be asked for next.
    pub open spec fn asked(self) -> Option<CatalogRequest> {
        if self.window.done {
            None
        } else {
            Some(
                CatalogRequest::UserPlaylists {
                    user_id: self.user_id,
                    offset: (self.window.page * COLLECTION_PAGE_SIZE) as usize,
                },
            )
        }
    }

    pub open spec fn wf(self) -> bool {
        &&& distinct_ids(self.items, playlist_id())
        &&& self.window.wf()
    }

    /// The list after a page of it came.
    pub open spec fn next(self, response: Json) -> Result<UserPlaylistsView, ErrorInfo> {
        match fault_of(response) {
            Some(fault) => Err(fault),
            None => {
                let batch = items_at_of(response, "playlist"@);
                Ok(
                    UserPlaylistsView {
                        items: merged(self.items, parsed(batch, as_playlist(self.user_id)), playlist_id()),
                        window: self.window.behind(
                            batch.len(),
                            more_of(response, "more"@, batch.len(), COLLECTION_PAGE_SIZE as nat),
                        ),
                        ..self
                    },
                )
            },
        }
    }
}

impl UserPlaylists {
    pub closed spec fn inv(self) -> bool {
        &&& self@.wf()
        &&& forall|id: u64| #[trigger] self.seen@.contains(id) <==> has_id(self@.items, playlist_id(), id)
    }

    pub fn new(user_id: u64) -> (r: UserPlaylists)
        ensures
            r.inv(),
            r@ == (UserPlaylistsView { user_id, items: seq![], window: ListWindow { page: 0, done: false } }),
    {
        let r = UserPlaylists {
            user_id, items: Vec::new(),
            seen: HashSet::new(),
            window: ListWindow { page: 0, done: false },
        };
        proof {
            assert(r@.items =~= seq![]);
        }
        r
    }

    /// What has to be asked for next; nothing once the list is complete.
    pub fn request(&self) -> (r: Option<CatalogRequest>)
        requires
            self.inv(),
        ensures
            r == self@.asked(),
            r == if self@.window.done {
                None
            } else {
                Some(
                    CatalogRequest::UserPlaylists {
                        user_id: self@.user_id,
                        offset: (self@.window.page * COLLECTION_PAGE_SIZE) as usize,
                    },
                )
            },
    {
        if self.window.done {
            None
        } else {
            Some(CatalogRequest::UserPlaylists { user_id: self.user_id, offset: self.window.page * COLLECTION_PAGE_SIZE })
        }
    }

    fn add(&mut self, item: PlaylistSummary)
        requires
            old(self).inv(),
        ensures
            final(self).inv(),
            final(self)@ == (UserPlaylistsView {
                items: merged(old(self)@.items, seq![item@], playlist_id()),
                ..old(self)@
            }),
    {
        let ghost before = self@.items;
        let ghost seen_before = self.seen@;
        let ghost put = item@;
        let ghost f = playlist_id();
        proof {
            assert(seq![put].drop_last() =~= seq![]);
            assert(merged(before, seq![], f) == before);
            lemma_merged(before, seq![put], f);
            assert(seen_before.contains(put.id) <==> has_id(before, f, put.id));
        }
        if self.seen.insert(item.id) {
            self.items.push(item);
            proof {
                assert(self@.items =~= before.push(put));
                let after = self@.items;
                assert forall|k: u64| #[trigger] self.seen@.contains(k) <==> has_id(after, f, k) by {
                    assert(seen_before.contains(k) <==> has_id(before, f, k));
                    if has_id(before, f, k) {
                        let j = choose|j: int| 0 <= j < before.len() && f(#[trigger] before[j]) == k;
                        assert(after[j] == before[j]);
                    }
                    if k == put.id {
                        assert(after[before.len() as int] == put);
                    }
                    if has_id(after, f, k) {
                        let j = choose|j: int| 0 <= j < after.len() && f(#[trigger] after[j]) == k;
                        if j < before.len() {
                            assert(before[j] == after[j]);
                        }
                    }
                }
            }
        } else {
            proof {
                assert(self.seen@ =~= seen_before);
                assert(has_id(before, f, put.id));
            }
        }
        proof {
            assert(self@ =~= (UserPlaylistsView { items: merged(before, seq![put], f), ..old(self)@ }));
        }
    }

    /// Takes a page of the list.
    pub fn accept(&mut self, response: &Json) -> (r: Result<(), DiscoveryError>)
        requires
            old(self).inv(),
            !old(self)@.window.done,
        ensures
            final(self).inv(),
            match r {
                Ok(_) => old(self)@.next(*response) == Ok::<UserPlaylistsView, ErrorInfo>(final(self)@),
                Err(error) => old(self)@.next(*response) == Err::<UserPlaylistsView, ErrorInfo>(error@) && final(self)@
                    == old(self)@,
            },
    {
        match check(response) {
            Ok(_) => {},
            Err(error) => {
                return Err(error);
            },
        }
        let ghost v = self@;
        let ghost f = playlist_id();
        let ghost parse = as_playlist(v.user_id);
        let mut received: usize = 0;
        if let Some(items) = array_at(response, "playlist") {
            received = items.len();
            let mut i: usize = 0;
            proof {
                assert(items@.take(0) =~= seq![]);
            }
            while i < items.len()
                invariant
                    i <= items@.len(),
                    self.inv(),
                    f == playlist_id(),
                    parse == as_playlist(v.user_id),
                    self@ == (UserPlaylistsView { items: merged(v.items, parsed(items@.take(i as int), parse), f), ..v }),
                decreases items@.len() - i,
            {
                let ghost head = parsed(items@.take(i as int), parse);
                proof {
                    assert(items@.take(i + 1).drop_last() =~= items@.take(i as int));
                    assert(items@.take(i + 1).last() == items@[i as int]);
                }
                if let Some(item) = parse_playlist(&items[i], self.user_id) {
                    proof {
                        let longer = head.push(item@);
                        assert(longer.drop_last() =~= head);
                        let now = merged(v.items, head, f);
                        assert(seq![item@].drop_last() =~= seq![]);
                        assert(merged(now, seq![], f) == now);
                        assert(merged(now, seq![item@], f) == merged(v.items, longer, f));
                    }
                    self.add(item);
                }
                i += 1;
            }
            proof {
                assert(items@.take(i as int) =~= items@);
            }
        } else {
            proof {
                assert(parsed(Seq::<Json>::empty(), parse) =~= seq![]);
                assert(merged(v.items, seq![], f) == v.items);
            }
        }
        let more: bool = has_more(response, "more", received, COLLECTION_PAGE_SIZE);
        self.window.turn(received, more);
        proof {
            assert(v.next(*response)->Ok_0 =~= self@);
        }
        Ok(())
    }

    /// What was listed.
    pub fn into_items(self) -> (r: Vec<PlaylistSummary>)
        ensures
            playlist_views(r@) == self@.items,
    {
        self.items
    }
}

/// Every page keeps what was listed, in its place, lists nothing twice, and either ends the list or is counted.
pub proof fn lemma_playlist_progress(v: UserPlaylistsView, response: Json)
    requires
        v.wf(),
        !v.window.done,
        v.next(response) is Ok,
    ensures
        v.next(response)->Ok_0.wf(),
        v.items.is_prefix_of(v.next(response)->Ok_0.items),
        v.next(response)->Ok_0.window.done || v.next(response)->Ok_0.window.page == v.window.page + 1,
{
    lemma_merged(v.items, parsed(items_at_of(response, "playlist"@), as_playlist(v.user_id)), playlist_id());
}

// Albums that the user subscribed to.

pub open spec fn album_id() -> spec_fn(AlbumInfo) -> u64 {
    |item: AlbumInfo| item.id
}

pub open spec fn as_album() -> spec_fn(Json) -> Option<AlbumInfo> {
    |value: Json| album_of(value)
}

/// The albums that the user subscribed to.
pub struct SubscribedAlbums {
    items: Vec<AlbumSummary>,
    seen: HashSet<u64>,
    window: ListWindow,
}

#[verifier::ext_equal]
pub struct SubscribedAlbumsView {
    pub items: Seq<AlbumInfo>,
    pub window: ListWindow,
}

impl View for SubscribedAlbums {
    type V = SubscribedAlbumsView;

    closed spec fn view(&self) -> SubscribedAlbumsView {
        SubscribedAlbumsView { items: album_views(self.items@), window: self.window }
    }
}

impl SubscribedAlbumsView {
    /// What has to be asked for next.
    pub open spec fn asked(self) -> Option<CatalogRequest> {
        if self.window.done {
            None
        } else {
            Some(
                CatalogRequest::SubscribedAlbums {
                    offset: (self.window.page * COLLECTION_PAGE_SIZE) as usize,
                },
            )
        }
    }

    pub open spec fn wf(self) -> bool {
        &&& distinct_ids(self.items, album_id())
        &&& self.window.wf()
    }

    /// The list after a page of it came.
    pub open spec fn next(self, response: Json) -> Result<SubscribedAlbumsView, ErrorInfo> {
        match fault_of(response) {
            Some(fault) => Err(fault),
            None => {
                let batch = items_at_of(response, "data"@);
                Ok(
                    SubscribedAlbumsView {
                        items: merged(self.items, parsed(batch, as_album()), album_id()),
                        window: self.window.behind(
                            batch.len(),
                            more_of(response, "hasMore"@, batch.len(), COLLECTION_PAGE_SIZE as nat),
                        ),
                        ..self
                    },
                )
            },
        }
    }
}

impl SubscribedAlbums {
    pub closed spec fn inv(self) -> bool {
        &&& self@.wf()
        &&& forall|id: u64| #[trigger] self.seen@.contains(id) <==> has_id(self@.items, album_id(), id)
    }

    pub fn new() -> (r: SubscribedAlbums)
        ensures
            r.inv(),
            r@ == (SubscribedAlbumsView { items: seq![], window: ListWindow { page: 0, done: false } }),
    {
        let r = SubscribedAlbums {
            items: Vec::new(),
            seen: HashSet::new(),
            window: ListWindow { page: 0, done: false },
        };
        proof {
            assert(r@.items =~= seq![]);
        }
        r
    }

    /// What has to be asked for next; nothing once the list is complete.
    pub fn request(&self) -> (r: Option<CatalogRequest>)
        requires
            self.inv(),
        ensures
            r == self@.asked(),
            r == if self@.window.done {
                None
            } else {
                Some(
                    CatalogRequest::SubscribedAlbums {
                        offset: (self@.window.page * COLLECTION_PAGE_SIZE) as usize,
                    },
                )
            },
    {
        if self.window.done {
            None
        } else {
            Some(CatalogRequest::SubscribedAlbums { offset: self.window.page * COLLECTION_PAGE_SIZE })
        }
    }

    fn add(&mut self, item: AlbumSummary)
        requires
            old(self).inv(),
        ensures
            final(self).inv(),
            final(self)@ == (SubscribedAlbumsView {
                items: merged(old(self)@.items, seq![item@], album_id()),
                ..old(self)@
            }),
    {
        let ghost before = self@.items;
        let ghost seen_before = self.seen@;
        let ghost put = item@;
        let ghost f = album_id();
        proof {
            assert(seq![put].drop_last() =~= seq![]);
            assert(merged(before, seq![], f) == before);
            lemma_merged(before, seq![put], f);
            assert(seen_before.contains(put.id) <==> has_id(before, f, put.id));
        }
        if self.seen.insert(item.id) {
            self.items.push(item);
            proof {
                assert(self@.items =~= before.push(put));
                let after = self@.items;
                assert forall|k: u64| #[trigger] self.seen@.contains(k) <==> has_id(after, f, k) by {
                    assert(seen_before.contains(k) <==> has_id(before, f, k));
                    if has_id(before, f, k) {
                        let j = choose|j: int| 0 <= j < before.len() && f(#[trigger] before[j]) == k;
                        assert(after[j] == before[j]);
                    }
                    if k == put.id {
                        assert(after[before.len() as int] == put);
                    }
                    if has_id(after, f, k) {
                        let j = choose|j: int| 0 <= j < after.len() && f(#[trigger] after[j]) == k;
                        if j < before.len() {
                            assert(before[j] == after[j]);
                        }
                    }
                }
            }
        } else {
            proof {
                assert(self.seen@ =~= seen_before);
                assert(has_id(before, f, put.id));
            }
        }
        proof {
            assert(self@ =~= (SubscribedAlbumsView { items: merged(before, seq![put], f), ..old(self)@ }));
        }
    }

    /// Takes a page of the list.
    pub fn accept(&mut self, response: &Json) -> (r: Result<(), DiscoveryError>)
        requires
            old(self).inv(),
            !old(self)@.window.done,
        ensures
            final(self).inv(),
            match r {
                Ok(_) => old(self)@.next(*response) == Ok::<SubscribedAlbumsView, ErrorInfo>(final(self)@),
                Err(error) => old(self)@.next(*response) == Err::<SubscribedAlbumsView, ErrorInfo>(error@) && final(self)@
                    == old(self)@,
            },
    {
        match check(response) {
            Ok(_) => {},
            Err(error) => {
                return Err(error);
            },
        }
        let ghost v = self@;
        let ghost f = album_id();
        let ghost parse = as_album();
        let mut received: usize = 0;
        if let Some(items) = array_at(response, "data") {
            received = items.len();
            let mut i: usize = 0;
            proof {
                assert(items@.take(0) =~= seq![]);
            }
            while i < items.len()
                invariant
                    i <= items@.len(),
                    self.inv(),
                    f == album_id(),
                    parse == as_album(),
                    self@ == (SubscribedAlbumsView { items: merged(v.items, parsed(items@.take(i as int), parse), f), ..v }),
                decreases items@.len() - i,
            {
                let ghost head = parsed(items@.take(i as int), parse);
                proof {
                    assert(items@.take(i + 1).drop_last() =~= items@.take(i as int));
                    assert(items@.take(i + 1).last() == items@[i as int]);
                }
                if let Some(item) = parse_album(&items[i]) {
                    proof {
                        let longer = head.push(item@);
                        assert(longer.drop_last() =~= head);
                        let now = merged(v.items, head, f);
                        assert(seq![item@].drop_last() =~= seq![]);
                        assert(merged(now, seq![], f) == now);
                        assert(merged(now, seq![item@], f) == merged(v.items, longer, f));
                    }
                    self.add(item);
                }
                i += 1;
            }
            proof {
                assert(items@.take(i as int) =~= items@);
            }
        } else {
            proof {
                assert(parsed(Seq::<Json>::empty(), parse) =~= seq![]);
                assert(merged(v.items, seq![], f) == v.items);
            }
        }
        let more: bool = has_more(response, "hasMore", received, COLLECTION_PAGE_SIZE);
        self.window.turn(received, more);
        proof {
            assert(v.next(*response)->Ok_0 =~= self@);
        }
        Ok(())
    }

    /// What was listed.
    pub fn into_items(self) -> (r: Vec<AlbumSummary>)
        ensures
            album_views(r@) == self@.items,
    {
        self.items
    }
}

/// Every page keeps what was listed, in its place, lists nothing twice, and either ends the list or is counted.
pub proof fn lemma_album_progress(v: SubscribedAlbumsView, response: Json)
    requires
        v.wf(),
        !v.window.done,
        v.next(response) is Ok,
    ensures
        v.next(response)->Ok_0.wf(),
        v.items.is_prefix_of(v.next(response)->Ok_0.items),
        v.next(response)->Ok_0.window.done || v.next(response)->Ok_0.window.page == v.window.page + 1,
{
    lemma_merged(v.items, parsed(items_at_of(response, "data"@), as_album()), album_id());
}

// Artists that the user subscribed to.

pub open spec fn artist_id() -> spec_fn(ArtistInfo) -> u64 {
    |item: ArtistInfo| item.id
}

pub open spec fn as_artist() -> spec_fn(Json) -> Option<ArtistInfo> {
    |value: Json| artist_of(value)
}

/// The artists that the user subscribed to.
pub struct SubscribedArtists {
    items: Vec<ArtistSummary>,
    seen: HashSet<u64>,
    window: ListWindow,
}

#[verifier::ext_equal]
pub struct SubscribedArtistsView {
    pub items: Seq<ArtistInfo>,
    pub window: ListWindow,
}

impl View for SubscribedArtists {
    type V = SubscribedArtistsView;

    closed spec fn view(&self) -> SubscribedArtistsView {
        SubscribedArtistsView { items: artist_views(self.items@), window: self.window }
    }
}

impl SubscribedArtistsView {
    /// What has to be asked for next.
    pub open spec fn asked(self) -> Option<CatalogRequest> {
        if self.window.done {
            None
        } else {
            Some(
                CatalogRequest::SubscribedArtists {
                    offset: (self.window.page * COLLECTION_PAGE_SIZE) as usize,
                },
            )
        }
    }

    pub open spec fn wf(self) -> bool {
        &&& distinct_ids(self.items, artist_id())
        &&& self.window.wf()
    }

    /// The list after a page of it came.
    pub open spec fn next(self, response: Json) -> Result<SubscribedArtistsView, ErrorInfo> {
        match fault_of(response) {
            Some(fault) => Err(fault),
            None => {
                let batch = items_at_of(response, "data"@);
                Ok(
                    SubscribedArtistsView {
                        items: merged(self.items, parsed(batch, as_artist()), artist_id()),
                        window: self.window.behind(
                            batch.len(),
                            more_of(response, "hasMore"@, batch.len(), COLLECTION_PAGE_SIZE as nat),
                        ),
                        ..self
                    },
                )
            },
        }
    }
}

impl SubscribedArtists {
    pub closed spec fn inv(self) -> bool {
        &&& self@.wf()
        &&& forall|id: u64| #[trigger] self.seen@.contains(id) <==> has_id(self@.items, artist_id(), id)
    }

    pub fn new() -> (r: SubscribedArtists)
        ensures
            r.inv(),
            r@ == (SubscribedArtistsView { items: seq![], window: ListWindow { page: 0, done: false } }),
    {
        let r = SubscribedArtists {
            items: Vec::new(),
            seen: HashSet::new(),
            window: ListWindow { page: 0, done: false },
        };
        proof {
            assert(r@.items =~= seq![]);
        }
        r
    }

    /// What has to be asked for next; nothing once the list is complete.
    pub fn request(&self) -> (r: Option<CatalogRequest>)
        requires
            self.inv(),
        ensures
            r == self@.asked(),
            r == if self@.window.done {
                None
            } else {
                Some(
                    CatalogRequest::SubscribedArtists {
                        offset: (self@.window.page * COLLECTION_PAGE_SIZE) as usize,
                    },
                )
            },
    {
        if self.window.done {
            None
        } else {
            Some(CatalogRequest::SubscribedArtists { offset: self.window.page * COLLECTION_PAGE_SIZE })
        }
    }

    fn add(&mut self, item: ArtistSummary)
        requires
            old(self).inv(),
        ensures
            final(self).inv(),
            final(self)@ == (SubscribedArtistsView {
                items: merged(old(self)@.items, seq![item@], artist_id()),
                ..old(self)@
            }),
    {
        let ghost before = self@.items;
        let ghost seen_before = self.seen@;
        let ghost put = item@;
        let ghost f = artist_id();
        proof {
            assert(seq![put].drop_last() =~= seq![]);
            assert(merged(before, seq![], f) == before);
            lemma_merged(before, seq![put], f);
            assert(seen_before.contains(put.id) <==> has_id(before, f, put.id));
        }
        if self.seen.insert(item.id) {
            self.items.push(item);
            proof {
                assert(self@.items =~= before.push(put));
                let after = self@.items;
                assert forall|k: u64| #[trigger] self.seen@.contains(k) <==> has_id(after, f, k) by {
                    assert(seen_before.contains(k) <==> has_id(before, f, k));
                    if has_id(before, f, k) {
                        let j = choose|j: int| 0 <= j < before.len() && f(#[trigger] before[j]) == k;
                        assert(after[j] == before[j]);
                    }
                    if k == put.id {
                        assert(after[before.len() as int] == put);
                    }
                    if has_id(after, f, k) {
                        let j = choose|j: int| 0 <= j < after.len() && f(#[trigger] after[j]) == k;
                        if j < before.len() {
                            assert(before[j] == after[j]);
                        }
                    }
                }
            }
        } else {
            proof {
                assert(self.seen@ =~= seen_before);
                assert(has_id(before, f, put.id));
            }
        }
        proof {
            assert(self@ =~= (SubscribedArtistsView { items: merged(before, seq![put], f), ..old(self)@ }));
        }
    }

    /// Takes a page of the list.
    pub fn accept(&mut self, response: &Json) -> (r: Result<(), DiscoveryError>)
        requires
            old(self).inv(),
            !old(self)@.window.done,
        ensures
            final(self).inv(),
            match r {
                Ok(_) => old(self)@.next(*response) == Ok::<SubscribedArtistsView, ErrorInfo>(final(self)@),
                Err(error) => old(self)@.next(*response) == Err::<SubscribedArtistsView, ErrorInfo>(error@) && final(self)@
                    == old(self)@,
            },
    {
        match check(response) {
            Ok(_) => {},
            Err(error) => {
                return Err(error);
            },
        }
        let ghost v = self@;
        let ghost f = artist_id();
        let ghost parse = as_artist();
        let mut received: usize = 0;
        if let Some(items) = array_at(response, "data") {
            received = items.len();
            let mut i: usize = 0;
            proof {
                assert(items@.take(0) =~= seq![]);
            }
            while i < items.len()
                invariant
                    i <= items@.len(),
                    self.inv(),
                    f == artist_id(),
                    parse == as_artist(),
                    self@ == (SubscribedArtistsView { items: merged(v.items, parsed(items@.take(i as int), parse), f), ..v }),
                decreases items@.len() - i,
            {
                let ghost head = parsed(items@.take(i as int), parse);
                proof {
                    assert(items@.take(i + 1).drop_last() =~= items@.take(i as int));
                    assert(items@.take(i + 1).last() == items@[i as int]);
                }
                if let Some(item) = parse_artist(&items[i]) {
                    proof {
                        let longer = head.push(item@);
                        assert(longer.drop_last() =~= head);
                        let now = merged(v.items, head, f);
                        assert(seq![item@].drop_last() =~= seq![]);
                        assert(merged(now, seq![], f) == now);
                        assert(merged(now, seq![item@], f) == merged(v.items, longer, f));
                    }
                    self.add(item);
                }
                i += 1;
            }
            proof {
                assert(items@.take(i as int) =~= items@);
            }
        } else {
            proof {
                assert(parsed(Seq::<Json>::empty(), parse) =~= seq![]);
                assert(merged(v.items, seq![], f) == v.items);
            }
        }
        let more: bool = has_more(response, "hasMore", received, COLLECTION_PAGE_SIZE);
        self.window.turn(received, more);
        proof {
            assert(v.next(*response)->Ok_0 =~= self@);
        }
        Ok(())
    }

    /// What was listed.
    pub fn into_items(self) -> (r: Vec<ArtistSummary>)
        ensures
            artist_views(r@) == self@.items,
    {
        self.items
    }
}

/// Every page keeps what was listed, in its place, lists nothing twice, and either ends the list or is counted.
pub proof fn lemma_artist_progress(v: SubscribedArtistsView, response: Json)
    requires
        v.wf(),
        !v.window.done,
        v.next(response) is Ok,
    ensures
        v.next(response)->Ok_0.wf(),
        v.items.is_prefix_of(v.next(response)->Ok_0.items),
        v.next(response)->Ok_0.window.done || v.next(response)->Ok_0.window.page == v.window.page + 1,
{
    lemma_merged(v.items, parsed(items_at_of(response, "data"@), as_artist()), artist_id());
}

/// The playlists of a scope, in their order.
pub open spec fn scoped(list: Seq<PlaylistInfo>, scope: PlaylistScope) -> Seq<PlaylistInfo>
    decreases list.len(),
{
    if list.len() == 0 {
        list
    } else {
        let before = scoped(list.drop_last(), scope);
        let wanted = match scope {
            PlaylistScope::All => true,
            PlaylistScope::Created => list.last().created_by_user,
            PlaylistScope::Subscribed => !list.last().created_by_user,
        };
        if wanted {
            before.push(list.last())
        } else {
            before
        }
    }
}

/// The playlists of a scope.
pub fn playlists_in_scope(list: &Vec<PlaylistSummary>, scope: PlaylistScope) -> (r: Vec<PlaylistSummary>)
    ensures
        playlist_views(r@) == scoped(playlist_views(list@), scope),
{
    let ghost all = playlist_views(list@);
    let mut out: Vec<PlaylistSummary> = Vec::new();
    let mut i: usize = 0;
    proof {
        assert(playlist_views(out@) =~= all.take(0));
    }
    while i < list.len()
        invariant
            i <= list@.len(),
            all == playlist_views(list@),
            playlist_views(out@) == scoped(all.take(i as int), scope),
        decreases list@.len() - i,
    {
        proof {
            assert(all.take(i + 1).drop_last() =~= all.take(i as int));
            assert(all.take(i + 1).last() == list@[i as int]@);
        }
        let wanted: bool = match scope {
            PlaylistScope::All => true,
            PlaylistScope::Created => list[i].created_by_user,
            PlaylistScope::Subscribed => !list[i].created_by_user,
        };
        if wanted {
            let ghost held = out@;
            let item = copy_playlist(&list[i]);
            out.push(item);
            proof {
                assert(playlist_views(out@) =~= playlist_views(held).push(item@));
            }
        }
        i += 1;
    }
    proof {
        assert(all.take(i as int) =~= all);
    }
    out
}

pub fn copy_playlist(item: &PlaylistSummary) -> (r: PlaylistSummary)
    ensures
        r@ == item@,
        r == *item,
{
    PlaylistSummary {
        id: item.id,
        name: item.name.clone(),
        track_count: item.track_count,
        created_by_user: item.created_by_user,
    }
}

pub fn copy_track(item: &OnlineTrack) -> (r: OnlineTrack)
    ensures
        r@ == item@,
        r == *item,
{
    OnlineTrack {
        id: item.id,
        title: item.title.clone(),
        artists: item.artists.clone(),
        album: item.album.clone(),
        duration_ms: item.duration_ms,
    }
}

// Details of tracks that are known by their ids.

pub open spec fn track_map(tracks: Map<u64, OnlineTrack>) -> Map<u64, TrackInfo> {
    tracks.map_values(|track: OnlineTrack| track@)
}

/// The tracks by id after more of them came; a later one takes the place of an
/// earlier one with its id.
pub open spec fn with_tracks(tracks: Map<u64, TrackInfo>, more: Seq<TrackInfo>) -> Map<u64, TrackInfo>
    decreases more.len(),
{
    if more.len() == 0 {
        tracks
    } else {
        with_tracks(tracks, more.drop_last()).insert(more.last().id, more.last())
    }
}

/// The tracks of a list of ids, in its order: each that is known, once.
pub open spec fn in_order(ids: Seq<u64>, tracks: Map<u64, TrackInfo>) -> Seq<TrackInfo>
    decreases ids.len(),
{
    if ids.len() == 0 {
        seq![]
    } else if tracks.contains_key(ids[0]) {
        seq![tracks[ids[0]]] + in_order(ids.drop_first(), tracks.remove(ids[0]))
    } else {
        in_order(ids.drop_first(), tracks)
    }
}

fn add_track(tracks: &mut HashMap<u64, OnlineTrack>, track: OnlineTrack)
    ensures
        track_map(final(tracks)@) == track_map(old(tracks)@).insert(track@.id, track@),
{
    let ghost before = tracks@;
    let ghost put = track@;
    tracks.insert(track.id, track);
    proof {
        assert(track_map(tracks@) =~= track_map(before).insert(put.id, put));
    }
}

/// Adds the tracks of a list of items that can be read.
fn add_items(tracks: &mut HashMap<u64, OnlineTrack>, items: &Vec<Json>)
    ensures
        track_map(final(tracks)@) == with_tracks(track_map(old(tracks)@), parsed(items@, as_track())),
{
    let ghost start = track_map(tracks@);
    let mut i: usize = 0;
    proof {
        assert(parsed(items@.take(0), as_track()) =~= seq![]);
    }
    while i < items.len()
        invariant
            i <= items@.len(),
            track_map(tracks@) == with_tracks(start, parsed(items@.take(i as int), as_track())),
        decreases items@.len() - i,
    {
        proof {
            assert(items@.take(i + 1).drop_last() =~= items@.take(i as int));
            assert(items@.take(i + 1).last() == items@[i as int]);
        }
        if let Some(track) = parse_track(&items[i]) {
            proof {
                let head = parsed(items@.take(i as int), as_track());
                assert(head.push(track@).drop_last() =~= head);
            }
            add_track(tracks, track);
        }
        i += 1;
    }
    proof {
        assert(items@.take(i as int) =~= items@);
    }
}

/// Takes the tracks of a list of ids out of those that are known.
fn take_in_order(ids: &Vec<u64>, tracks: HashMap<u64, OnlineTrack>) -> (r: Vec<OnlineTrack>)
    ensures
        track_views(r@) == in_order(ids@, track_map(tracks@)),
{
    let mut tracks = tracks;
    let ghost start = track_map(tracks@);
    let mut out: Vec<OnlineTrack> = Vec::new();
    let mut i: usize = 0;
    proof {
        assert(ids@.skip(0) =~= ids@);
        assert(track_views(out@) + in_order(ids@, start) =~= in_order(ids@, start));
    }
    while i < ids.len()
        invariant
            i <= ids@.len(),
            track_views(out@) + in_order(ids@.skip(i as int), track_map(tracks@)) == in_order(ids@, start),
        decreases ids@.len() - i,
    {
        let ghost before = tracks@;
        let ghost rest = ids@.skip(i as int);
        proof {
            assert(rest.drop_first() =~= ids@.skip(i + 1));
            assert(rest[0] == ids@[i as int]);
            assert(track_map(before).contains_key(ids@[i as int]) <==> before.contains_key(ids@[i as int]));
        }
        match tracks.remove(&ids[i]) {
            Some(track) => {
                let ghost held = out@;
                out.push(track);
                proof {
                    assert(track_map(tracks@) =~= track_map(before).remove(ids@[i as int]));
                    assert(track_views(out@) =~= track_views(held).push(track@));
                    let tail = in_order(ids@.skip(i + 1), track_map(tracks@));
                    assert(track_views(held) + (seq![track@] + tail) =~= track_views(out@) + tail);
                }
            },
            None => {
                proof {
                    assert(tracks@ =~= before);
                }
            },
        }
        i += 1;
    }
    proof {
        assert(track_views(out@) + seq![] =~= track_views(out@));
    }
    out
}

/// Asks for the details of tracks, so many at a time.
pub struct TrackDetails {
    ids: Vec<u64>,
    next: usize,
    tracks: HashMap<u64, OnlineTrack>,
}

#[verifier::ext_equal]
pub struct TrackDetailsView {
    pub ids: Seq<u64>,
    /// Where among the ids the next request starts.
    pub next: int,
    pub tracks: Map<u64, TrackInfo>,
}

impl View for TrackDetails {
    type V = TrackDetailsView;

    closed spec fn view(&self) -> TrackDetailsView {
        TrackDetailsView { ids: self.ids@, next: self.next as int, tracks: track_map(self.tracks@) }
    }
}

impl TrackDetailsView {
    pub open spec fn next_state(self, response: Json) -> Result<TrackDetailsView, ErrorInfo> {
        match fault_of(response) {
            Some(fault) => Err(fault),
            None => Ok(
                TrackDetailsView {
                    next: behind_chunk(self.ids, self.next),
                    tracks: with_tracks(self.tracks, parsed(items_at_of(response, "songs"@), as_track())),
                    ..self
                },
            ),
        }
    }
}

impl TrackDetails {
    pub fn new(ids: &Vec<u64>) -> (r: TrackDetails)
        ensures
            r@ == (TrackDetailsView { ids: ids@, next: 0, tracks: Map::empty() }),
    {
        let r = TrackDetails { ids: copy_ids(ids), next: 0, tracks: HashMap::new() };
        proof {
            assert(r@.tracks =~= Map::empty());
        }
        r
    }

    /// What has to be asked for next; nothing once all tracks were asked for.
    pub fn request(&self) -> (r: Option<CatalogRequest>)
        ensures
            match r {
                Some(CatalogRequest::TrackDetails { ids }) => self@.next < self@.ids.len() && ids@ == chunk_of(
                    self@.ids,
                    self@.next,
                ),
                None => self@.next >= self@.ids.len(),
                _ => false,
            },
    {
        if self.next < self.ids.len() {
            let (ids, _) = next_chunk(&self.ids, self.next);
            Some(CatalogRequest::TrackDetails { ids })
        } else {
            None
        }
    }

    /// Takes the answer to what was asked for last.
    pub fn accept(&mut self, response: &Json) -> (r: Result<(), DiscoveryError>)
        requires
            old(self)@.next < old(self)@.ids.len(),
        ensures
            match r {
                Ok(_) => old(self)@.next_state(*response) == Ok::<TrackDetailsView, ErrorInfo>(final(self)@),
                Err(error) => old(self)@.next_state(*response) == Err::<TrackDetailsView, ErrorInfo>(error@)
                    && final(self)@ == old(self)@,
            },
    {
        match check(response) {
            Ok(_) => {},
            Err(error) => {
                return Err(error);
            },
        }
        let ghost v = self@;
        let (_, after) = next_chunk(&self.ids, self.next);
        match array_at(response, "songs") {
            Some(items) => {
                add_items(&mut self.tracks, items);
            },
            None => {
                proof {
                    assert(parsed(Seq::<Json>::empty(), as_track()) =~= seq![]);
                }
            },
        }
        self.next = after;
        proof {
            assert(self@ =~= v.next_state(*response)->Ok_0);
        }
        Ok(())
    }

    /// The tracks that are known, in the order in which they were asked for.
    pub fn finish(self) -> (r: Vec<OnlineTrack>)
        ensures
            track_views(r@) == in_order(self@.ids, self@.tracks),
    {
        take_in_order(&self.ids, self.tracks)
    }
}

// The tracks of a playlist.

/// Opens a playlist without throwing away the tracks that its description
/// holds: only those that it leaves out have to be asked for.
pub struct PlaylistTracks {
    name: String,
    track_ids: Vec<u64>,
    tracks: HashMap<u64, OnlineTrack>,
}

#[verifier::ext_equal]
pub struct PlaylistTracksView {
    pub name: Seq<char>,
    pub track_ids: Seq<u64>,
    pub tracks: Map<u64, TrackInfo>,
}

impl View for PlaylistTracks {
    type V = PlaylistTracksView;

    closed spec fn view(&self) -> PlaylistTracksView {
        PlaylistTracksView { name: self.name@, track_ids: self.track_ids@, tracks: track_map(self.tracks@) }
    }
}

pub open spec fn playlist_tracks_of(response: Json) -> Result<PlaylistTracksView, ErrorInfo> {
    match fault_of(response) {
        Some(fault) => Err(fault),
        None => match response.get_of("playlist"@) {
            Some(playlist) => Ok(
                PlaylistTracksView {
                    name: string_at_of(playlist, "name"@),
                    track_ids: ids_of(items_at_of(playlist, "trackIds"@), "id"@),
                    tracks: with_tracks(Map::empty(), parsed(items_at_of(playlist, "tracks"@), as_track())),
                },
            ),
            None => Err(ErrorInfo::InvalidResponse("playlist"@)),
        },
    }
}

/// The ids whose tracks are not known.
pub open spec fn unknown_ids(ids: Seq<u64>, tracks: Map<u64, TrackInfo>) -> Seq<u64> {
    among(ids, tracks.dom().complement())
}

impl PlaylistTracks {
    /// Reads the description of a playlist.
    pub fn open(response: &Json) -> (r: Result<PlaylistTracks, DiscoveryError>)
        ensures
            match r {
                Ok(found) => playlist_tracks_of(*response) == Ok::<PlaylistTracksView, ErrorInfo>(found@),
                Err(error) => playlist_tracks_of(*response) == Err::<PlaylistTracksView, ErrorInfo>(error@),
            },
    {
        match check(response) {
            Ok(_) => {},
            Err(error) => {
                return Err(error);
            },
        }
        match response.get("playlist") {
            Some(playlist) => {
                let mut tracks: HashMap<u64, OnlineTrack> = HashMap::new();
                proof {
                    assert(track_map(tracks@) =~= Map::empty());
                    assert(parsed(Seq::<Json>::empty(), as_track()) =~= seq![]);
                }
                if let Some(items) = array_at(playlist, "tracks") {
                    add_items(&mut tracks, items);
                }
                let r = PlaylistTracks {
                    name: string_at(playlist, "name"),
                    track_ids: crate::json::ids_at(playlist, "trackIds"),
                    tracks,
                };
                proof {
                    assert(r@ =~= playlist_tracks_of(*response)->Ok_0);
                }
                Ok(r)
            },
            None => Err(DiscoveryError::InvalidResponse("playlist")),
        }
    }

    /// The tracks that the description leaves out.
    pub fn missing(&self) -> (r: Vec<u64>)
        ensures
            r@ == unknown_ids(self@.track_ids, self@.tracks),
    {
        let ghost wanted = self@.tracks.dom().complement();
        let mut out: Vec<u64> = Vec::new();
        let mut i: usize = 0;
        proof {
            assert(self.track_ids@.take(0) =~= seq![]);
        }
        while i < self.track_ids.len()
            invariant
                i <= self.track_ids@.len(),
                wanted == self@.tracks.dom().complement(),
                out@ == among(self.track_ids@.take(i as int), wanted),
            decreases self.track_ids@.len() - i,
        {
            proof {
                assert(self.track_ids@.take(i + 1).drop_last() =~= self.track_ids@.take(i as int));
                assert(self@.tracks.contains_key(self.track_ids@[i as int]) <==> self.tracks@.contains_key(
                    self.track_ids@[i as int],
                ));
            }
            if !self.tracks.contains_key(&self.track_ids[i]) {
                out.push(self.track_ids[i]);
            }
            i += 1;
        }
        proof {
            assert(self.track_ids@.take(i as int) =~= self.track_ids@);
        }
        out
    }

    /// Adds tracks that were asked for.
    pub fn add(&mut self, more: Vec<OnlineTrack>)
        ensures
            final(self)@ == (PlaylistTracksView {
                tracks: with_tracks(old(self)@.tracks, track_views(more@)),
                ..old(self)@
            }),
    {
        let ghost v = self@;
        let ghost all = track_views(more@);
        proof {
            assert(all.take(0) =~= seq![]);
        }
        for track in it: more
            invariant
                it.seq() == more@,
                all == track_views(more@),
                self@ == (PlaylistTracksView { tracks: with_tracks(v.tracks, all.take(it.index() as int)), ..v }),
        {
            proof {
                let i = it.index() as int;
                assert(all.take(i + 1).drop_last() =~= all.take(i));
                assert(all.take(i + 1).last() == track@);
            }
            add_track(&mut self.tracks, track);
        }
        proof {
            assert(all.take(all.len() as int) =~= all);
        }
    }

    /// The name of the playlist, and its tracks in order.
    pub fn finish(self) -> (r: (String, Vec<OnlineTrack>))
        ensures
            r.0@ == self@.name,
            track_views(r.1@) == in_order(self@.track_ids, self@.tracks),
    {
        let tracks = take_in_order(&self.track_ids, self.tracks);
        (self.name, tracks)
    }
}

/// Tracks that are put in order have the ids of the list, in its order: what
/// comes out is, id by id, a part of the list.
pub proof fn lemma_in_order(ids: Seq<u64>, tracks: Map<u64, TrackInfo>)
    requires
        forall|id: u64| #[trigger] tracks.contains_key(id) ==> tracks[id].id == id,
    ensures
        in_order(ids, tracks).len() <= ids.len(),
        distinct_ids(in_order(ids, tracks), track_id()),
        forall|i: int|
            0 <= i < in_order(ids, tracks).len() ==> tracks.contains_key((#[trigger] in_order(ids, tracks)[i]).id)
                && tracks[in_order(ids, tracks)[i].id] == in_order(ids, tracks)[i] && ids.contains(
                in_order(ids, tracks)[i].id,
            ),
    decreases ids.len(),
{
    if ids.len() > 0 {
        let t = ids.drop_first();
        let r = in_order(ids, tracks);
        if tracks.contains_key(ids[0]) {
            let rest = tracks.remove(ids[0]);
            lemma_in_order(t, rest);
            let tail = in_order(t, rest);
            assert forall|i: int| 0 <= i < r.len() implies tracks.contains_key((#[trigger] r[i]).id)
                && tracks[r[i].id] == r[i] && ids.contains(r[i].id) by {
                if i > 0 {
                    assert(r[i] == tail[i - 1]);
                    assert(rest.contains_key(tail[i - 1].id));
                    let k = choose|k: int| 0 <= k < t.len() && t[k] == tail[i - 1].id;
                    assert(ids[k + 1] == r[i].id);
                }
            }
            assert forall|i: int, j: int| 0 <= i < j < r.len() implies track_id()(#[trigger] r[i]) != track_id()(
                #[trigger] r[j],
            ) by {
                assert(r[j] == tail[j - 1]);
                if i == 0 {
                    assert(rest.contains_key(tail[j - 1].id));
                } else {
                    assert(r[i] == tail[i - 1]);
                }
            }
        } else {
            lemma_in_order(t, tracks);
            assert forall|i: int| 0 <= i < r.len() implies tracks.contains_key((#[trigger] r[i]).id)
                && tracks[r[i].id] == r[i] && ids.contains(r[i].id) by {
                let k = choose|k: int| 0 <= k < t.len() && t[k] == r[i].id;
                assert(ids[k + 1] == r[i].id);
            }
        }
    }
}

pub open spec fn track_id() -> spec_fn(TrackInfo) -> u64 {
    |track: TrackInfo| track.id
}

// Where a song can be played from.

/// The source that an answer names first, if it has an address.
pub open spec fn source_of(response: Json) -> Option<SourceInfo> {
    let items = items_at_of(response, "data"@);
    if items.len() > 0 && string_at_of(items[0], "url"@).len() > 0 {
        Some(
            SourceInfo {
                url: string_at_of(items[0], "url"@),
                format: string_at_of(items[0], "type"@),
                bitrate: or_zero(number_at_of(items[0], "br"@)),
                size: or_zero(number_at_of(items[0], "size"@)),
            },
        )
    } else {
        None
    }
}

fn parse_source(response: &Json) -> (r: Option<PlaybackSource>)
    ensures
        match r {
            Some(source) => source_of(*response) == Some(source@),
            None => source_of(*response) is None,
        },
{
    match array_at(response, "data") {
        Some(items) => {
            if items.len() == 0 {
                return None;
            }
            let value = &items[0];
            let url = string_at(value, "url");
            if url.as_str().is_empty() {
                None
            } else {
                Some(
                    PlaybackSource {
                        url,
                        format: string_at(value, "type"),
                        bitrate: number_or_zero(value, "br"),
                        size: number_or_zero(value, "size"),
                    },
                )
            }
        },
        None => None,
    }
}

/// Asks for a source of a song, in lower and lower qualities.
pub struct SourceLookup {
    pub song_id: u64,
    pub quality: AudioQuality,
}

impl SourceLookup {
    pub fn new(song_id: u64, quality: AudioQuality) -> (r: SourceLookup)
        ensures
            r.song_id == song_id,
            r.quality == quality,
    {
        SourceLookup { song_id, quality }
    }

    /// What has to be asked for next.
    pub fn request(&self) -> (r: CatalogRequest)
        ensures
            r == (CatalogRequest::Audio { song_id: self.song_id, quality: self.quality }),
    {
        CatalogRequest::Audio { song_id: self.song_id, quality: self.quality }
    }

    /// Takes the answer: a source, or nothing where a lower quality has to be
    /// asked for. Where there is none lower, the song cannot be played.
    pub fn accept(&mut self, response: &Json) -> (r: Result<Option<PlaybackSource>, DiscoveryError>)
        ensures
            final(self).song_id == old(self).song_id,
            match r {
                Ok(Some(source)) => fault_of(*response) is None && source_of(*response) == Some(source@)
                    && final(self).quality == old(self).quality,
                Ok(None) => fault_of(*response) is None && source_of(*response) is None && lower_quality(
                    old(self).quality,
                ) == Some(final(self).quality),
                Err(error) => final(self).quality == old(self).quality && match fault_of(*response) {
                    Some(fault) => error@ == fault,
                    None => source_of(*response) is None && lower_quality(old(self).quality) is None && error@
                        == ErrorInfo::Unavailable(old(self).song_id),
                },
            },
    {
        match check(response) {
            Ok(_) => {},
            Err(error) => {
                return Err(error);
            },
        }
        match parse_source(response) {
            Some(source) => Ok(Some(source)),
            None => match self.quality.lower() {
                Some(lower) => {
                    self.quality = lower;
                    Ok(None)
                },
                None => Err(DiscoveryError::Unavailable(self.song_id)),
            },
        }
    }
}

// The requests themselves.

/// The request that asks for what a machine wants to know. `keyword` and `kind`
/// are those of the search, where a search wants to know it.
pub fn api_request(request: &CatalogRequest, keyword: &str, kind: SearchKind) -> (r: ApiSpec)
    ensures
        match *request {
            CatalogRequest::ArtistAlbums { artist_id, offset } => r@ == request_of(
                "/weapi/artist/albums/"@ + decimal(artist_id as nat),
                CryptoMode::Weapi,
            ).adding_number("offset"@, offset as nat).adding_text("total"@, "true"@).adding_number(
                "limit"@,
                ARTIST_ALBUM_PAGE_SIZE as nat,
            ),
            CatalogRequest::ArtistSongs { artist_id, offset } => r@ == request_of(
                "/weapi/v1/artist/songs"@,
                CryptoMode::Weapi,
            ).adding_number("id"@, artist_id as nat).adding_number("offset"@, offset as nat).adding_text(
                "total"@,
                "true"@,
            ).adding_number("limit"@, ARTIST_SONG_PAGE_SIZE as nat).adding_text("order"@, "time"@),
            CatalogRequest::Album(id) => r@ == request_of(
                "/weapi/v1/album/"@ + decimal(id as nat),
                CryptoMode::Weapi,
            ),
            CatalogRequest::Playlist(id) => r@ == request_of(
                "/weapi/v6/playlist/detail"@,
                CryptoMode::Weapi,
            ).adding("id"@, FieldView::Number(id as nat)).adding("n"@, FieldView::Number(1_000)).adding(
                "s"@,
                FieldView::Number(0),
            ),
            CatalogRequest::Search { offset } => r@ == request_of(
                "/eapi/cloudsearch/pc"@,
                CryptoMode::Eapi,
            ).adding_text("s"@, keyword@).adding_number("type"@, code_of(type_of(kind)) as nat).adding_number(
                "limit"@,
                search_page_size(kind) as nat,
            ).adding_number("offset"@, offset as nat),
            CatalogRequest::UserPlaylists { user_id, offset } => r@ == request_of(
                "/weapi/user/playlist"@,
                CryptoMode::Weapi,
            ).adding_number("offset"@, offset as nat).adding_number("limit"@, COLLECTION_PAGE_SIZE as nat).adding_number(
                "uid"@,
                user_id as nat,
            ),
            CatalogRequest::SubscribedAlbums { offset } => r@ == request_of(
                "/weapi/album/sublist"@,
                CryptoMode::Weapi,
            ).adding_number("offset"@, offset as nat).adding_number("limit"@, COLLECTION_PAGE_SIZE as nat),
            CatalogRequest::SubscribedArtists { offset } => r@ == request_of(
                "/weapi/artist/sublist"@,
                CryptoMode::Weapi,
            ).adding_number("offset"@, offset as nat).adding_number("limit"@, COLLECTION_PAGE_SIZE as nat),
            CatalogRequest::TrackDetails { ids } => r@ == request_of(
                "/weapi/v3/song/detail"@,
                CryptoMode::Weapi,
            ).adding_text("c"@, "["@ + crate::text::joined(id_objects(ids@), ","@) + "]"@),
            CatalogRequest::Audio { song_id, quality } => r@ == request_of(
                "/eapi/song/enhance/player/url/v1"@,
                CryptoMode::Eapi,
            ).adding("ids"@, FieldView::Ids(seq![song_id])).adding_text(
                "encodeType"@,
                if quality_rank(quality) <= 2 { "mp3"@ } else { "flac"@ },
            ).adding_text("level"@, level_of(quality)),
        },
{
    match request {
        CatalogRequest::ArtistAlbums { artist_id, offset } => api::artist::albums(
            *artist_id,
            *offset,
            ARTIST_ALBUM_PAGE_SIZE,
        ),
        CatalogRequest::ArtistSongs { artist_id, offset } => api::artist::songs(
            *artist_id,
            *offset,
            ARTIST_SONG_PAGE_SIZE,
        ),
        CatalogRequest::Album(id) => api::album::detail(*id),
        CatalogRequest::Playlist(id) => api::playlist::detail(*id),
        CatalogRequest::Search { offset } => {
            let size: usize = if kind == SearchKind::Song {
                SEARCH_SONG_PAGE_SIZE
            } else {
                SEARCH_ENTITY_PAGE_SIZE
            };
            api::search::cloud(keyword, SearchType::of_kind(kind), size, *offset)
        },
        CatalogRequest::UserPlaylists { user_id, offset } => api::user::playlists(
            *user_id,
            *offset,
            COLLECTION_PAGE_SIZE,
        ),
        CatalogRequest::SubscribedAlbums { offset } => api::user::subscribed_albums(*offset, COLLECTION_PAGE_SIZE),
        CatalogRequest::SubscribedArtists { offset } => api::user::subscribed_artists(*offset, COLLECTION_PAGE_SIZE),
        CatalogRequest::TrackDetails { ids } => api::track::detail(ids),
        CatalogRequest::Audio { song_id, quality } => {
            let mut ids: Vec<u64> = Vec::new();
            ids.push(*song_id);
            proof {
                assert(ids@ =~= seq![*song_id]);
            }
            api::track::audio_v1(&ids, quality.api_level(), quality.encode_type())
        },
    }
}

// Laws of what is asked for.

/// An answer that says whether more follows is believed; one that does not say
/// is followed by more if its page was full.
pub proof fn lemma_more(response: Json, key: Seq<char>, received: nat, page_size: nat, more: bool)
    ensures
        response.get_of(key) == Some(Json::Bool(more)) ==> more_of(response, key, received, page_size) == more,
        response.get_of(key) is None ==> (more_of(response, key, received, page_size) <==> received == page_size),
{
}

/// The number of results on a full page of a search.
pub open spec fn is_full_page(kind: SearchKind, received: nat) -> bool {
    if kind == SearchKind::Song {
        received >= 100
    } else {
        received >= 50
    }
}

/// A search goes on to the following page exactly when the last one was full,
/// fewer results than wanted were found, and the cap on pages is not reached;
/// otherwise it is over. Before that, every new result of a page is expanded,
/// the first of them first, unless the results are songs.
pub proof fn lemma_search_pages(v: SearchView, page: usize, result: Json, batch: Seq<Json>)
    requires
        v.wf(),
        v.phase == SearchPhase::Page(page),
        batch == items_at_of(result, search_keys_of(v.kind).0),
        v.entities.len() < usize::MAX,
    ensures
        ({
            let after = v.with_page(page, result);
            let goes_on = is_full_page(v.kind, batch.len()) && after.entities.len() < v.max_results && page + 1 < 1_000;
            let expands = v.kind != SearchKind::Song && after.entities.len() > v.entities.len();
            &&& after.page_full == is_full_page(v.kind, batch.len())
            &&& expands ==> after.phase == (SearchPhase::Expand { page, next: v.entities.len() as usize })
            &&& !expands && goes_on ==> after.phase == SearchPhase::Page((page + 1) as usize)
            &&& !expands && !goes_on ==> after.phase == SearchPhase::Done
            &&& after.max_results == v.max_results && after.kind == v.kind && after.keyword == v.keyword
        }),
{
    lemma_taken(v, batch);
}

/// Once a result was expanded the next one is, and behind the last one of a page
/// the search goes on to the following page exactly when the page was full,
/// fewer results than wanted were found, and the cap on pages is not reached.
pub proof fn lemma_search_expands(v: SearchView, page: usize, next: usize, ids: Seq<u64>)
    requires
        v.wf(),
        v.phase == (SearchPhase::Expand { page, next }),
        v.entities.len() <= usize::MAX,
    ensures
        ({
            let after = v.with_tracks(page, next, ids);
            let goes_on = v.page_full && v.entities.len() < v.max_results && page + 1 < 1_000;
            &&& next + 1 < v.entities.len() ==> after.phase == (SearchPhase::Expand { page, next: (next + 1) as usize })
            &&& next + 1 == v.entities.len() && goes_on ==> after.phase == SearchPhase::Page((page + 1) as usize)
            &&& next + 1 == v.entities.len() && !goes_on ==> after.phase == SearchPhase::Done
            &&& after.entities == v.entities
            &&& after.track_ids.to_set() == v.track_ids.to_set().union(ids.to_set())
        }),
{
    lemma_extended(v.track_ids, ids);
}

/// A search takes every result that a page holds and that was not found before,
/// as long as fewer than wanted were found, and no other; of songs, each is a
/// track that was found.
pub proof fn lemma_search_takes(v: SearchView, page: usize, result: Json, batch: Seq<Json>, id: u64)
    requires
        v.wf(),
        v.phase == SearchPhase::Page(page),
        batch == items_at_of(result, search_keys_of(v.kind).0),
    ensures
        ({
            let after = v.with_page(page, result);
            &&& v.entities.is_prefix_of(after.entities)
            &&& after.entities.contains(id) ==> v.entities.contains(id) || ids_of(batch, "id"@).contains(id)
            &&& after.entities.len() < v.max_results && ids_of(batch, "id"@).contains(id) ==> after.entities.contains(id)
            &&& v.kind == SearchKind::Song && after.entities.contains(id) && !v.entities.contains(id)
                ==> after.track_ids.contains(id)
            &&& v.kind != SearchKind::Song ==> after.track_ids == v.track_ids
            &&& page > 0 ==> after.total_found == v.total_found
            &&& page == 0 ==> after.total_found == or_zero(number_at_of(result, search_keys_of(v.kind).1))
        }),
{
    let after = v.with_page(page, result);
    let ids = ids_of(batch, "id"@);
    let found = fresh(v.entities.to_set(), ids);
    let taken = v.taken(batch);
    lemma_taken(v, batch);
    lemma_fresh(v.entities.to_set(), ids);
    lemma_extended(v.track_ids, taken);
    assert(after.entities == v.entities + taken);
    assert(after.entities.subrange(0, v.entities.len() as int) =~= v.entities);
    if after.entities.contains(id) {
        let i = choose|i: int| 0 <= i < after.entities.len() && after.entities[i] == id;
        if i >= v.entities.len() {
            assert(taken[i - v.entities.len()] == id);
            assert(found[i - v.entities.len()] == id);
            assert(found.contains(id));
        } else {
            assert(v.entities[i] == id);
        }
    }
    if after.entities.len() < v.max_results && ids.contains(id) {
        assert(taken == found);
        if v.entities.contains(id) {
            let i = choose|i: int| 0 <= i < v.entities.len() && v.entities[i] == id;
            assert(after.entities[i] == id);
        } else {
            assert(!v.entities.to_set().contains(id));
            assert(found.contains(id));
            let i = choose|i: int| 0 <= i < found.len() && found[i] == id;
            assert(after.entities[v.entities.len() + i] == id);
        }
    }
    if v.kind == SearchKind::Song && after.entities.contains(id) && !v.entities.contains(id) {
        let i = choose|i: int| 0 <= i < after.entities.len() && after.entities[i] == id;
        if i < v.entities.len() {
            assert(v.entities[i] == id);
        }
        assert(taken[i - v.entities.len()] == id);
        assert(taken.to_set().contains(id));
        assert(after.track_ids.to_set().contains(id));
    }
}

/// The page that a search asks for starts behind all the pages before it, and
/// what it expands is one of its results, by its own kind of request.
pub proof fn lemma_search_asks(v: SearchView, page: usize, next: usize)
    requires
        v.wf(),
        page < 1_000,
    ensures
        v.phase == SearchPhase::Page(page) && v.kind == SearchKind::Song ==> v.asked() == Some(
            CatalogRequest::Search { offset: (100 * page) as usize },
        ),
        v.phase == SearchPhase::Page(page) && v.kind != SearchKind::Song ==> v.asked() == Some(
            CatalogRequest::Search { offset: (50 * page) as usize },
        ),
        v.phase == (SearchPhase::Expand { page, next }) && v.kind == SearchKind::Album ==> v.asked() == Some(
            CatalogRequest::Album(v.entities[next as int]),
        ),
        v.phase == (SearchPhase::Expand { page, next }) && v.kind == SearchKind::Playlist ==> v.asked() == Some(
            CatalogRequest::Playlist(v.entities[next as int]),
        ),
        v.phase == SearchPhase::Done <==> v.asked() is None,
{
    let size = search_page_size(v.kind);
    assert(page * size == size * page) by (nonlinear_arith);
}

/// A search starts with its first page, unless the keyword is blank or nothing
/// is wanted, and knows nothing before.
pub proof fn lemma_search_starts(keyword: Seq<char>, kind: SearchKind, max_results: nat)
    ensures
        ({
            let v = SearchView::start(keyword, kind, max_results);
            &&& keyword.len() > 0 && max_results > 0 ==> v.asked() == Some(CatalogRequest::Search { offset: 0 })
            &&& keyword.len() == 0 || max_results == 0 ==> v.asked() is None
            &&& v.result().track_ids.len() == 0 && v.result().matched_items == 0 && v.result().name == keyword
            &&& v.kind == kind && v.max_results == max_results
        }),
{
}

/// What a search comes to: the keyword, the tracks that were found, and how many
/// results there are and were looked at.
pub proof fn lemma_search_result(v: SearchView)
    ensures
        v.result().name == v.keyword,
        v.result().track_ids == v.track_ids,
        v.result().total_found == v.total_found,
        v.result().matched_items == v.entities.len(),
{
}

/// The albums of an artist are asked for page by page until the service says
/// that there are no more, then each album by itself, in order, then the songs,
/// page by page while the pages are full.
pub proof fn lemma_artist_order(v: ArtistTracksView, page: usize, response: Json, ids: Seq<u64>)
    requires
        v.wf(),
        page < 1_000,
        v.album_ids.len() <= usize::MAX,
    ensures
        ({
            let batch = items_at_of(response, "hotAlbums"@);
            let after = v.with_albums(page, response);
            let more = batch.len() > 0 && more_of(response, "more"@, batch.len(), 100) && page + 1 < 1_000;
            &&& more ==> after.phase == ArtistPhase::Albums((page + 1) as usize)
            &&& !more && after.album_ids.len() > 0 ==> after.phase == ArtistPhase::Expand(0)
            &&& !more && after.album_ids.len() == 0 ==> after.phase == ArtistPhase::Songs(0)
            &&& after.album_ids.to_set() == v.album_ids.to_set().union(ids_of(batch, "id"@).to_set())
            &&& after.track_ids == v.track_ids
        }),
        page + 1 < v.album_ids.len() ==> v.with_album(page, ids).phase == ArtistPhase::Expand((page + 1) as usize),
        page + 1 >= v.album_ids.len() ==> v.with_album(page, ids).phase == ArtistPhase::Songs(0),
        v.with_album(page, ids).track_ids.to_set() == v.track_ids.to_set().union(ids.to_set()),
        ({
            let batch = items_at_of(response, "songs"@);
            let after = v.with_songs(page, response);
            let more = batch.len() >= 1_000 && more_of(response, "more"@, batch.len(), 1_000) && page + 1 < 1_000;
            &&& more ==> after.phase == ArtistPhase::Songs((page + 1) as usize)
            &&& !more ==> after.phase == ArtistPhase::Done
            &&& after.track_ids.to_set() == v.track_ids.to_set().union(ids_of(batch, "id"@).to_set())
        }),
{
    lemma_extended(v.album_ids, ids_of(items_at_of(response, "hotAlbums"@), "id"@));
    lemma_extended(v.track_ids, ids);
    lemma_extended(v.track_ids, ids_of(items_at_of(response, "songs"@), "id"@));
}

/// What is asked for an artist: pages behind one another of their albums and of
/// their songs, and the albums themselves.
pub proof fn lemma_artist_asks(v: ArtistTracksView, page: usize)
    requires
        v.wf(),
        page < 1_000,
    ensures
        v.phase == ArtistPhase::Albums(page) ==> v.asked() == Some(
            CatalogRequest::ArtistAlbums { artist_id: v.artist_id, offset: (100 * page) as usize },
        ),
        v.phase == ArtistPhase::Expand(page) ==> v.asked() == Some(CatalogRequest::Album(v.album_ids[page as int])),
        v.phase == ArtistPhase::Songs(page) ==> v.asked() == Some(
            CatalogRequest::ArtistSongs { artist_id: v.artist_id, offset: (1_000 * page) as usize },
        ),
        v.phase == ArtistPhase::Done <==> v.asked() is None,
        ArtistTracksView::start(v.artist_id).asked() == Some(
            CatalogRequest::ArtistAlbums { artist_id: v.artist_id, offset: 0 },
        ),
{
}

/// The tracks of an artist go by the artist's name, or by the number where the
/// name is not known.
pub proof fn lemma_artist_result(v: ArtistTracksView)
    ensures
        v.name.len() > 0 ==> v.result().name == v.name,
        v.name.len() == 0 ==> v.result().name == "Artist "@ + decimal(v.artist_id as nat),
        v.result().track_ids == v.track_ids,
        v.result().total_found == v.track_ids.len(),
{
}

/// A list is over when a page is empty, when no more follows, or when the cap on
/// pages is reached, and otherwise goes on to the following page.
pub proof fn lemma_window(window: ListWindow, received: nat, more: bool)
    requires
        window.wf(),
    ensures
        window.behind(received, more).done <==> received == 0 || !more || window.page + 1 >= 1_000,
        !window.behind(received, more).done ==> window.behind(received, more).page == window.page + 1,
{
}

/// Lists of the user's collections are asked for page by page, each behind
/// the one before it, as long as they go on.
pub proof fn lemma_lists_ask(playlists: UserPlaylistsView, albums: SubscribedAlbumsView, artists: SubscribedArtistsView)
    requires
        playlists.wf(),
        albums.wf(),
        artists.wf(),
    ensures
        !playlists.window.done ==> playlists.asked() == Some(
            CatalogRequest::UserPlaylists {
                user_id: playlists.user_id,
                offset: (50 * playlists.window.page) as usize,
            },
        ),
        !albums.window.done ==> albums.asked() == Some(
            CatalogRequest::SubscribedAlbums { offset: (50 * albums.window.page) as usize },
        ),
        !artists.window.done ==> artists.asked() == Some(
            CatalogRequest::SubscribedArtists { offset: (50 * artists.window.page) as usize },
        ),
        playlists.window.done ==> playlists.asked() is None,
        albums.window.done ==> albums.asked() is None,
        artists.window.done ==> artists.asked() is None,
{
}

/// A page of playlists is listed whole: whatever of it can be read is in the
/// list afterwards, once, and nothing that is neither there nor was before.
pub proof fn lemma_playlists_listed(v: UserPlaylistsView, response: Json, i: int)
    requires
        v.wf(),
        fault_of(response) is None,
    ensures
        ({
            let batch = items_at_of(response, "playlist"@);
            let read = parsed(batch, as_playlist(v.user_id));
            let after = v.next(response)->Ok_0;
            &&& v.next(response) is Ok
            &&& 0 <= i < read.len() ==> has_id(after.items, playlist_id(), read[i].id)
            &&& v.items.len() <= i < after.items.len() ==> read.contains(after.items[i])
            &&& after.window == v.window.behind(batch.len(), more_of(response, "more"@, batch.len(), 50))
        }),
{
    let read = parsed(items_at_of(response, "playlist"@), as_playlist(v.user_id));
    lemma_merged(v.items, read, playlist_id());
    if 0 <= i < read.len() {
        assert(has_id(merged(v.items, read, playlist_id()), playlist_id(), playlist_id()(read[i])));
    }
}

/// A page of albums is listed whole.
pub proof fn lemma_albums_listed(v: SubscribedAlbumsView, response: Json, i: int)
    requires
        v.wf(),
        fault_of(response) is None,
    ensures
        ({
            let batch = items_at_of(response, "data"@);
            let read = parsed(batch, as_album());
            let after = v.next(response)->Ok_0;
            &&& v.next(response) is Ok
            &&& 0 <= i < read.len() ==> has_id(after.items, album_id(), read[i].id)
            &&& v.items.len() <= i < after.items.len() ==> read.contains(after.items[i])
            &&& after.window == v.window.behind(batch.len(), more_of(response, "hasMore"@, batch.len(), 50))
        }),
{
    let read = parsed(items_at_of(response, "data"@), as_album());
    lemma_merged(v.items, read, album_id());
    if 0 <= i < read.len() {
        assert(has_id(merged(v.items, read, album_id()), album_id(), album_id()(read[i])));
    }
}

/// A page of artists is listed whole.
pub proof fn lemma_artists_listed(v: SubscribedArtistsView, response: Json, i: int)
    requires
        v.wf(),
        fault_of(response) is None,
    ensures
        ({
            let batch = items_at_of(response, "data"@);
            let read = parsed(batch, as_artist());
            let after = v.next(response)->Ok_0;
            &&& v.next(response) is Ok
            &&& 0 <= i < read.len() ==> has_id(after.items, artist_id(), read[i].id)
            &&& v.items.len() <= i < after.items.len() ==> read.contains(after.items[i])
            &&& after.window == v.window.behind(batch.len(), more_of(response, "hasMore"@, batch.len(), 50))
        }),
{
    let read = parsed(items_at_of(response, "data"@), as_artist());
    lemma_merged(v.items, read, artist_id());
    if 0 <= i < read.len() {
        assert(has_id(merged(v.items, read, artist_id()), artist_id(), artist_id()(read[i])));
    }
}

/// The playlists of a scope are those that the user made, those that the user
/// did not make, or all of them, in the order of the list.
pub proof fn lemma_scoped(list: Seq<PlaylistInfo>)
    ensures
        scoped(list, PlaylistScope::All) == list,
        scoped(list, PlaylistScope::Created) == list.filter(|item: PlaylistInfo| item.created_by_user),
        scoped(list, PlaylistScope::Subscribed) == list.filter(|item: PlaylistInfo| !item.created_by_user),
    decreases list.len(),
{
    reveal(Seq::filter);
    if list.len() > 0 {
        lemma_scoped(list.drop_last());
        assert(list.drop_last().push(list.last()) =~= list);
    }
}

/// Where all ids of a list are known and none occurs twice, the tracks in order
/// are exactly those of the ids, one by one.
pub proof fn lemma_in_order_is_complete(ids: Seq<u64>, tracks: Map<u64, TrackInfo>)
    requires
        ids.no_duplicates(),
        forall|i: int| 0 <= i < ids.len() ==> tracks.contains_key(#[trigger] ids[i]),
    ensures
        in_order(ids, tracks).len() == ids.len(),
        forall|i: int| 0 <= i < ids.len() ==> #[trigger] in_order(ids, tracks)[i] == tracks[ids[i]],
    decreases ids.len(),
{
    if ids.len() > 0 {
        let t = ids.drop_first();
        let rest = tracks.remove(ids[0]);
        assert forall|i: int| 0 <= i < t.len() implies rest.contains_key(#[trigger] t[i]) by {
            assert(t[i] == ids[i + 1]);
        }
        lemma_in_order_is_complete(t, rest);
        assert forall|i: int| 0 <= i < ids.len() implies #[trigger] in_order(ids, tracks)[i] == tracks[ids[i]] by {
            if i > 0 {
                assert(in_order(ids, tracks)[i] == in_order(t, rest)[i - 1]);
                assert(t[i - 1] == ids[i]);
            }
        }
    }
}

/// Tracks that come are known by their ids from then on, and what comes later
/// takes the place of what came earlier; others stay as they were.
pub proof fn lemma_tracks_known(tracks: Map<u64, TrackInfo>, more: Seq<TrackInfo>, track: TrackInfo, id: u64)
    ensures
        with_tracks(tracks, more.push(track)).contains_key(track.id),
        with_tracks(tracks, more.push(track))[track.id] == track,
        id != track.id ==> with_tracks(tracks, more.push(track)).contains_key(id) == with_tracks(
            tracks,
            more,
        ).contains_key(id) && with_tracks(tracks, more.push(track))[id] == with_tracks(tracks, more)[id],
        with_tracks(tracks, seq![]) == tracks,
{
    assert(more.push(track).drop_last() =~= more);
}

/// The tracks of a playlist that have to be asked for are those of its list that
/// its description does not hold.
pub proof fn lemma_unknown_ids(ids: Seq<u64>, tracks: Map<u64, TrackInfo>, id: u64)
    ensures
        unknown_ids(ids, tracks).contains(id) <==> ids.contains(id) && !tracks.contains_key(id),
{
    crate::download::lemma_among_contains(ids, tracks.dom().complement(), id);
}

/// A playlist is opened with its name, the ids that it lists and the tracks that
/// it describes.
pub proof fn lemma_playlist_opened(response: Json, playlist: Json)
    requires
        fault_of(response) is None,
        response.get_of("playlist"@) == Some(playlist),
    ensures
        playlist_tracks_of(response) is Ok,
        playlist_tracks_of(response)->Ok_0.name == string_at_of(playlist, "name"@),
        playlist_tracks_of(response)->Ok_0.track_ids == ids_of(items_at_of(playlist, "trackIds"@), "id"@),
        playlist_tracks_of(response)->Ok_0.tracks == with_tracks(
            Map::empty(),
            parsed(items_at_of(playlist, "tracks"@), as_track()),
        ),
{
}

/// A song is played from the first source of an answer, if it has an address,
/// and with the format, rate and size that go with it.
pub proof fn lemma_source(response: Json)
    ensures
        ({
            let items = items_at_of(response, "data"@);
            &&& items.len() == 0 ==> source_of(response) is None
            &&& items.len() > 0 && string_at_of(items[0], "url"@).len() == 0 ==> source_of(response) is None
            &&& items.len() > 0 && string_at_of(items[0], "url"@).len() > 0 ==> source_of(response) == Some(
                SourceInfo {
                    url: string_at_of(items[0], "url"@),
                    format: string_at_of(items[0], "type"@),
                    bitrate: or_zero(number_at_of(items[0], "br"@)),
                    size: or_zero(number_at_of(items[0], "size"@)),
                },
            )
        }),
{
}

} // verus!
