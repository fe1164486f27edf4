use std::collections::HashSet;

use ncm_tui::auth::{
    begin_qr, ensure_code, identity_from_response, poll_qr, wait_step, AuthError, Identity, QrPoll, QrStatus,
};
use ncm_tui::catalog::{
    api_request, ArtistTracks, CatalogRequest, PlaylistTracks, Search, SourceLookup, SubscribedAlbums, SubscribedArtists,
    TrackDetails, UserPlaylists,
};
use ncm_tui::discovery::{
    append_unique, checked, daily_songs, listening_rank, parse_album, parse_lyrics, parse_playlist, parse_track,
    recommended_playlists, DiscoveryError, SearchKind,
};
use ncm_tui::download::AudioQuality;
use ncm_tui::json::Json;
use ncm_tui::time::{Duration, Instant};

fn text(value: &str) -> Json {
    Json::Text(value.to_owned())
}

fn number(value: u64) -> Json {
    Json::Unsigned(value)
}

fn list(values: Vec<Json>) -> Json {
    Json::Array(values)
}

fn object(fields: Vec<(&str, Json)>) -> Json {
    Json::Object(fields.into_iter().map(|(name, value)| (name.to_owned(), value)).collect())
}

#[test]
fn parses_login_identity_from_account_and_profile() {
    let identity = identity_from_response(&object(vec![
        ("code", number(200)),
        ("account", object(vec![("id", number(7))])),
        ("profile", object(vec![("nickname", text("NCM user"))])),
    ]))
    .unwrap();
    assert_eq!(identity.user_id, 7);
    assert_eq!(identity.nickname, "NCM user");
}

#[test]
fn rejects_success_without_an_identity() {
    let error = identity_from_response(&object(vec![("code", number(200))])).unwrap_err();
    assert!(matches!(error, AuthError::InvalidResponse(_)));
}

#[test]
fn login_codes_are_told_apart() {
    let answer = |code: u64| object(vec![("code", number(code)), ("message", text("no"))]);
    assert_eq!(poll_qr(&answer(801)).unwrap(), QrPoll::Status(QrStatus::Waiting));
    assert_eq!(poll_qr(&answer(802)).unwrap(), QrPoll::Status(QrStatus::Scanned));
    assert_eq!(poll_qr(&answer(803)).unwrap(), QrPoll::Confirmed);
    assert_eq!(poll_qr(&answer(800)).unwrap(), QrPoll::Status(QrStatus::Expired));
    assert_eq!(poll_qr(&answer(8821)).unwrap(), QrPoll::Status(QrStatus::RiskControlled));
    assert!(matches!(poll_qr(&answer(500)), Err(AuthError::Rejected { code: 500, .. })));
    assert!(ensure_code(&answer(200), 200).is_ok());
    assert!(matches!(ensure_code(&answer(301), 200), Err(AuthError::Rejected { code: 301, .. })));
    let challenge = begin_qr(&object(vec![("code", number(200)), ("unikey", text("abc"))])).unwrap();
    assert_eq!(challenge.key, "abc");
    assert!(challenge.url.ends_with("abc"));
}

#[test]
fn waiting_for_a_login_ends_with_an_answer_or_in_time() {
    let now = Instant { nanos: 10 };
    let later = Instant { nanos: 20 };
    assert_eq!(wait_step(QrStatus::Waiting, now, later), None);
    assert_eq!(wait_step(QrStatus::Waiting, later, now), Some(QrStatus::Expired));
    let done = QrStatus::Authenticated(Identity { user_id: 1, nickname: "a".to_owned() });
    assert_eq!(wait_step(done.clone(), now, later), Some(done));
}

#[test]
fn summaries_tolerate_numeric_strings_and_classify_ownership() {
    let playlist = parse_playlist(
        &object(vec![
            ("id", text("12")),
            ("name", text("mine")),
            ("trackCount", number(3)),
            ("creator", object(vec![("userId", text("7"))])),
        ]),
        7,
    )
    .unwrap();
    assert_eq!(playlist.id, 12);
    assert!(playlist.created_by_user);

    let album = parse_album(&object(vec![
        ("id", number(9)),
        ("name", text("album")),
        ("size", number(2)),
        ("artists", list(vec![object(vec![("name", text("A"))]), object(vec![("name", text("B"))])])),
    ]))
    .unwrap();
    assert_eq!(album.artists, "A / B");

    let track = parse_track(&object(vec![
        ("id", number(3)),
        ("name", text("song")),
        ("dt", number(1000)),
        ("ar", list(vec![object(vec![("name", text("artist"))])])),
        ("al", object(vec![("name", text("record"))])),
    ]))
    .unwrap();
    assert_eq!(track.artists, "artist");
    assert_eq!(track.album, "record");
}

#[test]
fn stable_deduplication_keeps_discovery_order() {
    let mut target = vec![3];
    let mut seen = HashSet::from([3]);
    append_unique(&mut target, &mut seen, vec![2, 3, 1, 2]);
    assert_eq!(target, vec![3, 2, 1]);
}

#[test]
fn api_errors_are_not_treated_as_empty_results() {
    let error = checked(object(vec![("code", number(401)), ("message", text("login required"))])).unwrap_err();
    assert!(matches!(error, DiscoveryError::ApiCode { code: 401, .. }));
}

#[test]
fn error_messages_name_the_cause() {
    let error = checked(object(vec![("code", number(401)), ("message", text("login required"))])).unwrap_err();
    assert!(error.message().contains("401"));
    assert!(error.message().contains("login required"));
    assert!(DiscoveryError::InvalidResponse("songs").message().contains("songs"));
    assert!(DiscoveryError::Unavailable(42).message().contains("42"));
}

#[test]
fn lyrics_prefer_word_timing_and_keep_translation() {
    let lyrics = parse_lyrics(&object(vec![
        ("lrc", object(vec![("lyric", text("[00:01]fallback"))])),
        ("tlyric", object(vec![("lyric", text("[00:01]翻译"))])),
        ("yrc", object(vec![("lyric", text("[1000,1000](1000,500,0)timed"))])),
    ]));
    assert_eq!(lyrics.original[0].text, "timed");
    assert_eq!(lyrics.translation_at(Duration::from_secs(1)), Some("翻译"));
}

fn song(id: u64) -> Json {
    object(vec![("id", number(id)), ("name", text("song")), ("dt", number(1000))])
}

#[test]
fn recommendations_and_rankings_are_read() {
    let daily = daily_songs(&object(vec![
        ("code", number(200)),
        ("data", object(vec![("dailySongs", list(vec![song(5), song(6)]))])),
    ]))
    .unwrap();
    assert_eq!(daily.iter().map(|track| track.id).collect::<Vec<_>>(), [5, 6]);

    let lists = recommended_playlists(&object(vec![
        ("code", number(200)),
        ("recommend", list(vec![object(vec![("id", number(4)), ("name", text("mix")), ("trackcount", number(9))])])),
    ]))
    .unwrap();
    assert_eq!(lists.len(), 1);
    assert_eq!(lists[0].id, 4);

    let ranked = object(vec![("song", song(8)), ("playCount", number(12)), ("score", number(100))]);
    let response = object(vec![("code", number(200)), ("weekData", list(vec![ranked]))]);
    let week = listening_rank(&response, false).unwrap();
    assert_eq!(week[0].track.id, 8);
    assert_eq!(week[0].play_count, 12);
}

#[test]
fn a_search_goes_on_until_it_has_enough() {
    let mut search = Search::new("  miku ", SearchKind::Song, 3);
    assert_eq!(search.keyword(), "miku");
    let request = search.request().unwrap();
    let spec = api_request(&request, search.keyword(), SearchKind::Song);
    assert_eq!(spec.path, "/eapi/cloudsearch/pc");
    search
        .accept(&object(vec![
            ("code", number(200)),
            (
                "result",
                object(vec![("songCount", number(9)), ("songs", list(vec![song(1), song(2), song(2), song(3), song(4)]))]),
            ),
        ]))
        .unwrap();
    assert!(search.request().is_none());
    assert_eq!(search.result().track_ids, vec![1, 2, 3]);
}

#[test]
fn the_tracks_of_an_artist_come_from_albums_and_songs() {
    let mut artist = ArtistTracks::new(42);
    assert!(artist.request().is_some());
    artist
        .accept(&object(vec![
            ("code", number(200)),
            ("artist", object(vec![("name", text("Miku"))])),
            ("hotAlbums", list(vec![object(vec![("id", number(11))])])),
            ("more", Json::Bool(false)),
        ]))
        .unwrap();
    let mut rounds: usize = 0;
    while let Some(_request) = artist.request() {
        rounds += 1;
        assert!(rounds < 10);
        artist
            .accept(&object(vec![
                ("code", number(200)),
                ("album", object(vec![("name", text("record"))])),
                ("songs", list(vec![song(1), song(2)])),
                ("more", Json::Bool(false)),
            ]))
            .unwrap();
    }
    assert!(artist.is_done());
    assert_eq!(artist.result().name, "Miku");
    assert_eq!(artist.result().track_ids, vec![1, 2]);
}

#[test]
fn pages_end_with_a_short_one() {
    let mut playlists = UserPlaylists::new(7);
    assert!(playlists.request().is_some());
    playlists
        .accept(&object(vec![
            ("code", number(200)),
            ("more", Json::Bool(false)),
            ("playlist", list(vec![object(vec![("id", number(1)), ("name", text("p"))])])),
        ]))
        .unwrap();
    assert!(playlists.request().is_none());
    assert_eq!(playlists.into_items().len(), 1);

    let mut albums = SubscribedAlbums::new();
    assert!(albums.request().is_some());
    albums.accept(&object(vec![("code", number(200)), ("data", list(vec![])), ("hasMore", Json::Bool(false))])).unwrap();
    assert!(albums.request().is_none());
    assert!(albums.into_items().is_empty());

    let mut artists = SubscribedArtists::new();
    assert!(matches!(
        artists.accept(&object(vec![("code", number(301))])),
        Err(DiscoveryError::ApiCode { code: 301, .. })
    ));
}

#[test]
fn track_details_keep_the_order_that_was_asked_for() {
    let mut details = TrackDetails::new(&vec![3, 1, 2]);
    assert!(matches!(details.request(), Some(CatalogRequest::TrackDetails { .. })));
    details.accept(&object(vec![("code", number(200)), ("songs", list(vec![song(1), song(2), song(3)]))])).unwrap();
    assert!(details.request().is_none());
    assert_eq!(details.finish().iter().map(|track| track.id).collect::<Vec<_>>(), [3, 1, 2]);
}

#[test]
fn a_playlist_asks_for_the_tracks_it_lacks() {
    let opened = PlaylistTracks::open(&object(vec![
        ("code", number(200)),
        (
            "playlist",
            object(vec![
                ("name", text("mix")),
                ("trackIds", list(vec![object(vec![("id", number(1))]), object(vec![("id", number(2))])])),
                ("tracks", list(vec![song(1)])),
            ]),
        ),
    ]))
    .unwrap();
    assert_eq!(opened.missing(), vec![2]);
    let (name, tracks) = opened.finish();
    assert_eq!(name, "mix");
    assert_eq!(tracks.iter().map(|track| track.id).collect::<Vec<_>>(), [1]);
}

#[test]
fn a_source_is_looked_for_in_lower_qualities_until_there_is_none() {
    let mut lookup = SourceLookup::new(5, AudioQuality::Lossless);
    let nothing = object(vec![("code", number(200)), ("data", list(vec![]))]);
    let mut tries: usize = 0;
    loop {
        tries += 1;
        match lookup.accept(&nothing) {
            Ok(None) => {}
            Ok(Some(_)) => panic!("nothing can be found"),
            Err(error) => {
                assert!(matches!(error, DiscoveryError::Unavailable(5)));
                break;
            }
        }
    }
    assert_eq!(tries, 4);
}
