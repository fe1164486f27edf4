//! The local library as the interface sees it.

use vstd::prelude::*;

use crate::database::{DatabaseStats, LibraryTrack, ScanChanges};

verus! {

#[derive(Clone, Debug)]
pub struct Track {
    /// The number of the track at the service or, where it has none, that of
    /// its row.
    pub id: u64,
    /// The number of the track at the service.
    pub ncm_id: Option<u64>,
    pub title: String,
    pub artists: String,
    pub album: String,
    pub path: Option<String>,
    pub format: String,
    pub bytes: u64,
    pub downloaded_at: i64,
    pub duration_ms: u64,
    pub favorite: bool,
    pub play_count: u64,
    pub last_played_at: Option<i64>,
}

#[derive(Clone, Copy, Debug, PartialEq, Eq, Structural)]
pub struct LibraryStats {
    pub tracks: u64,
    pub missing: u64,
    pub albums: u64,
    pub duration_ms: u64,
    pub favorites: u64,
    pub plays: u64,
}

#[derive(Clone, Copy, Debug, PartialEq, Eq, Structural)]
pub struct ScanReport {
    pub discovered: usize,
    pub added: usize,
    pub updated: usize,
    pub unchanged: usize,
    pub missing: usize,
}

/// What a track of the database is to the interface, which knows it by its
/// number at the service if it has one.
pub open spec fn track_from(track: LibraryTrack) -> Track {
    Track {
        id: match track.ncm_id {
            Some(ncm_id) => ncm_id,
            None => track.id,
        },
        ncm_id: track.ncm_id,
        title: track.title,
        artists: track.artists,
        album: track.album,
        path: track.file_path,
        format: track.format,
        bytes: track.file_size,
        downloaded_at: track.downloaded_at,
        duration_ms: track.duration_ms,
        favorite: track.favorite,
        play_count: track.play_count,
        last_played_at: track.last_played_at,
    }
}

/// The tracks of the database, in their order.
pub fn map_tracks(tracks: Vec<LibraryTrack>) -> (r: Vec<Track>)
    ensures
        r@ == tracks@.map_values(|track: LibraryTrack| track_from(track)),
{
    let ghost f = |track: LibraryTrack| track_from(track);
    let mut out: Vec<Track> = Vec::new();
    proof {
        assert(out@ =~= tracks@.take(0).map_values(f));
    }
    for track in it: tracks
        invariant
            it.seq() == tracks@,
            f == (|track: LibraryTrack| track_from(track)),
            out@ == tracks@.take(it.index() as int).map_values(f),
    {
        let ghost held = out@;
        let ghost from = track;
        out.push(
            Track {
                id: match track.ncm_id {
                    Some(ncm_id) => ncm_id,
                    None => track.id,
                },
                ncm_id: track.ncm_id,
                title: track.title,
                artists: track.artists,
                album: track.album,
                path: track.file_path,
                format: track.format,
                bytes: track.file_size,
                downloaded_at: track.downloaded_at,
                duration_ms: track.duration_ms,
                favorite: track.favorite,
                play_count: track.play_count,
                last_played_at: track.last_played_at,
            },
        );
        proof {
            let i = it.index() as int;
            assert(out@ =~= held.push(track_from(from)));
            assert(tracks@.take(i + 1).map_values(f) =~= tracks@.take(i).map_values(f).push(track_from(from)));
        }
    }
    proof {
        assert(tracks@.take(tracks@.len() as int) =~= tracks@);
    }
    out
}

impl LibraryStats {
    pub fn new(stats: DatabaseStats) -> (r: LibraryStats)
        ensures
            r.tracks == stats.tracks,
            r.missing == stats.missing,
            r.albums == stats.albums,
            r.duration_ms == stats.duration_ms,
            r.favorites == stats.favorites,
            r.plays == stats.plays,
    {
        LibraryStats {
            tracks: stats.tracks,
            missing: stats.missing,
            albums: stats.albums,
            duration_ms: stats.duration_ms,
            favorites: stats.favorites,
            plays: stats.plays,
        }
    }
}

impl ScanReport {
    pub fn new(discovered: usize, changes: ScanChanges) -> (r: ScanReport)
        ensures
            r.discovered == discovered,
            r.added == changes.added,
            r.updated == changes.updated,
            r.unchanged == changes.unchanged,
            r.missing == changes.missing,
    {
        ScanReport {
            discovered,
            added: changes.added,
            updated: changes.updated,
            unchanged: changes.unchanged,
            missing: changes.missing,
        }
    }
}

/// A track is known by its number at the service if it has one, and else by
/// its number in the library; all else it has from the database.
pub proof fn lemma_track_known(track: LibraryTrack)
    ensures
        track.ncm_id is Some ==> track_from(track).id == track.ncm_id->0,
        track.ncm_id is None ==> track_from(track).id == track.id,
        track_from(track).ncm_id == track.ncm_id,
        track_from(track).title == track.title,
        track_from(track).artists == track.artists,
        track_from(track).album == track.album,
        track_from(track).path == track.file_path,
        track_from(track).format == track.format,
        track_from(track).bytes == track.file_size,
        track_from(track).downloaded_at == track.downloaded_at,
        track_from(track).duration_ms == track.duration_ms,
        track_from(track).favorite == track.favorite,
        track_from(track).play_count == track.play_count,
        track_from(track).last_played_at == track.last_played_at,
{
}

} // verus!
