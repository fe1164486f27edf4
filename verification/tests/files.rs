use std::collections::HashSet;

use image::ImageEncoder;

use ncm_tui::cover::{
    choose_picture, choose_protocol, fit, from_bytes, image_name, looks_like_image, miss_name, ncm_thumb_url, nonempty_url,
    square_cover, square_crop, CoverCache, GraphicsProtocol, TerminalHints,
};
use ncm_tui::database::{
    file_status, fts_query, maintenance_due, migration, missing_columns, placeholders, AvailabilitySplit, EnqueueOutcome,
    KnownLocation, Migration, PlayQueue, PresentLocation, ScanAction, ScanSession, ScannedFile,
};
use ncm_tui::download::{
    apply_selection, clean_lyrics, cover_download_url, deduplicate, lyrics_warning, next_chunk, parse_disc_number,
    sidecar_text, tag_kind, year_from_unix_millis, AudioFile, AudioQuality, AudioResolver, Discovered, DownloadPlan,
    DownloadRequest, LyricsFetch, TagKind, TrackSelection,
};
use ncm_tui::json::Json;
use ncm_tui::organizer::{
    destination, moving_name, rollback_move, safe_extension, sanitize, MoveEvent, MoveOutcome, MoveResult, MoveStep,
    OrganizableTrack, TrackMove,
};
use ncm_tui::pagination::{merge_unique_by_id, PaginationInfo};
use ncm_tui::palette::{filter_items, PaletteItem};
use ncm_tui::path::{extension, is_below, join, path_precedes, same_path, with_extension};
use ncm_tui::scanner::{audio_format, deduplicate_files, describe, is_hidden, non_empty, parse_stem, AudioMetadata};

fn rgb_png(width: u32, height: u32, pixels: &[u8]) -> Vec<u8> {
    let mut png = Vec::new();
    image::codecs::png::PngEncoder::new(&mut png)
        .write_image(pixels, width, height, image::ExtendedColorType::Rgb8)
        .unwrap();
    png
}

#[test]
fn cover_cache_round_trips_bytes_and_remembers_misses() {
    let mut cache = CoverCache::new();
    let png = rgb_png(2, 2, &[200, 40, 80, 200, 40, 80, 10, 180, 90, 10, 180, 90]);
    cache.put(42, &png);
    assert_eq!(cache.get(42).as_deref(), Some(png.as_slice()));
    assert!(!cache.is_miss(42, false));
    cache.remember_miss(7);
    assert!(cache.is_miss(7, false));
    assert!(cache.get(7).is_none());
    assert_ne!(image_name(42), miss_name(42));
    assert!(looks_like_image(&png));
    assert!(!looks_like_image(b"<html>"));
}

#[test]
fn thumb_url_upgrades_http_and_appends_size() {
    assert_eq!(
        ncm_thumb_url("http://p1.music.126.net/a.jpg"),
        "https://p1.music.126.net/a.jpg?param=400y400"
    );
    assert_eq!(
        ncm_thumb_url("https://p1.music.126.net/a.jpg?foo=1"),
        "https://p1.music.126.net/a.jpg?foo=1&param=400y400"
    );
    assert_eq!(nonempty_url("  "), None);
    assert_eq!(
        nonempty_url("https://p1.music.126.net/a.jpg"),
        Some("https://p1.music.126.net/a.jpg".into())
    );
}

#[test]
fn renders_half_block_grid_for_solid_bytes() {
    let png = rgb_png(2, 2, &[200, 40, 80, 200, 40, 80, 10, 180, 90, 10, 180, 90]);
    let art = from_bytes(&png, 2, 1).unwrap();
    assert_eq!(art.cols, 2);
    assert_eq!(art.rows, 1);
    assert_eq!(art.lines.len(), 1);
    assert_eq!(art.lines[0].len(), 2);
    assert_eq!(art.lines[0][0].top, (200, 40, 80));
    assert_eq!(art.lines[0][0].bottom, (10, 180, 90));
}

#[test]
fn fit_keeps_square_cover_from_overflowing_the_slot() {
    let png = rgb_png(4, 4, &[180; 48]);
    let art = fit(&png, 18, 6).unwrap();
    assert_eq!(art.cols, 12);
    assert_eq!(art.rows, 6);
    assert!(fit(b"not a picture", 18, 6).is_none());
}

#[test]
fn every_line_of_a_picture_is_as_wide_as_the_picture() {
    let png = rgb_png(2, 2, &[200, 40, 80, 200, 40, 80, 10, 180, 90, 10, 180, 90]);
    let art = from_bytes(&png, 5, 3).unwrap();
    assert_eq!(art.lines.len(), 3);
    assert!(art.lines.iter().all(|line| line.len() == 5));
    let tall = from_bytes(&png, 1, 0x8000).unwrap();
    assert_eq!(tall.lines.len(), 0x8000);
    assert_eq!(tall.lines[0x7fff][0].top, (10, 180, 90));
    assert_eq!(tall.lines[0x7fff][0].bottom, (10, 180, 90));
    assert!(from_bytes(&png, 0, 1).is_none());
    assert!(from_bytes(&png, 1, 0).is_none());
}

#[test]
fn a_cover_is_cut_to_the_square_in_its_middle() {
    let wide = rgb_png(4, 2, &[
        1, 1, 1, 2, 2, 2, 3, 3, 3, 4, 4, 4, //
        5, 5, 5, 6, 6, 6, 7, 7, 7, 8, 8, 8,
    ]);
    let (size, pixels) = square_cover(&wide).unwrap();
    assert_eq!(size, 2);
    assert_eq!(pixels, [2, 2, 2, 255, 3, 3, 3, 255, 6, 6, 6, 255, 7, 7, 7, 255]);
    let high = rgb_png(1, 3, &[1, 2, 3, 4, 5, 6, 7, 8, 9]);
    assert_eq!(square_cover(&high), Some((1, vec![4, 5, 6, 255])));
    assert_eq!(square_cover(b"<html>"), None);
}

#[test]
fn pictures_are_cropped_and_chosen() {
    assert_eq!(square_crop(6, 4), Some((1, 0, 4)));
    assert_eq!(square_crop(4, 4), Some((0, 0, 4)));
    assert_eq!(square_crop(4, 0), None);
    assert_eq!(choose_picture(&vec![false, true]), Some(1));
    assert_eq!(choose_picture(&vec![false, false]), Some(0));
    assert_eq!(choose_picture(&vec![]), None);
}

#[test]
fn selection_is_one_based_and_deduplicated() {
    assert_eq!(
        apply_selection(vec![10, 20, 20, 30], &TrackSelection::Positions(2..=4)),
        vec![20, 30]
    );
}

#[test]
fn id_selection_preserves_collection_order() {
    let wanted = HashSet::from([30, 10]);
    assert_eq!(
        apply_selection(vec![10, 20, 30], &TrackSelection::TrackIds(wanted)),
        vec![10, 30]
    );
}

#[test]
fn formats_are_normalized() {
    assert_eq!(safe_extension("FLAC"), "flac");
}

#[test]
fn parses_disc_numbers_and_publish_years() {
    assert_eq!(parse_disc_number(&Json::Text("2/3".to_owned())), Some(2));
    assert_eq!(parse_disc_number(&Json::Text("CD 2".to_owned())), None);
    assert_eq!(year_from_unix_millis(0), Some(1970));
    assert_eq!(year_from_unix_millis(946_684_800_000), Some(2000));
    assert_eq!(year_from_unix_millis(1_704_067_200_000), Some(2024));
}

#[test]
fn years_change_at_midnight() {
    assert_eq!(year_from_unix_millis(946_684_799_999), Some(1999));
    assert_eq!(year_from_unix_millis(-1), Some(1969));
    assert_eq!(year_from_unix_millis(1_709_164_800_000), Some(2024));
}

#[test]
fn quality_fallback_is_batched_and_ordered() {
    assert_eq!(
        AudioQuality::Lossless.fallback_chain(),
        &[
            AudioQuality::Lossless,
            AudioQuality::ExHigh,
            AudioQuality::Higher,
            AudioQuality::Standard
        ]
    );
}

#[test]
fn qualities_are_found_by_their_level() {
    for quality in AudioQuality::Lossless.fallback_chain() {
        assert_eq!(AudioQuality::from_api_level(quality.api_level()), Some(quality));
    }
    assert_eq!(AudioQuality::from_api_level("loud"), None);
    assert_eq!(AudioQuality::Standard.lower(), None);
}

#[test]
fn a_plan_downloads_what_is_not_there() {
    let plan = DownloadPlan::new(&vec![1, 2, 3, 4], &vec![1, 2, 3], &HashSet::from([2]));
    assert_eq!(plan.pending, vec![1, 3]);
    assert_eq!(plan.skipped_existing, vec![2]);
    let request = DownloadRequest::track(9);
    assert_eq!(request.selection, TrackSelection::All);
    assert_eq!(deduplicate(&vec![3, 3, 1, 3]), vec![3, 1]);
    let (chunk, next) = next_chunk(&vec![1, 2, 3], 1);
    assert_eq!((chunk, next), (vec![2, 3], 3));
}

fn audio(id: u64, url: &str) -> Json {
    Json::Object(vec![
        ("id".to_owned(), Json::Unsigned(id)),
        ("url".to_owned(), Json::Text(url.to_owned())),
        ("type".to_owned(), Json::Text("flac".to_owned())),
    ])
}

#[test]
fn tracks_without_a_file_are_asked_for_in_lower_qualities() {
    let mut resolver = AudioResolver::new(&vec![1, 2], AudioQuality::Higher);
    let (ids, quality) = resolver.request().unwrap();
    assert_eq!((ids, quality), (vec![1, 2], AudioQuality::Higher));
    resolver.accept(&Json::Object(vec![("data".to_owned(), Json::Array(vec![audio(1, "https://a")]))]));
    let (ids, quality) = resolver.request().unwrap();
    assert_eq!((ids, quality), (vec![2], AudioQuality::Standard));
    resolver.accept(&Json::Null);
    assert!(resolver.request().is_none());
    let found = resolver.finish();
    assert_eq!(found.len(), 1);
    assert_eq!(found[&1].url, "https://a");
    let parsed = AudioFile::parse(&audio(3, "https://b"), AudioQuality::Standard).unwrap();
    assert_eq!(parsed.quality, AudioQuality::Standard);
    assert!(AudioFile::parse(&Json::Null, AudioQuality::Standard).is_none());
}

#[test]
fn lyrics_and_covers_are_prepared_for_tags() {
    assert_eq!(clean_lyrics("{\"t\":0}\n[00:01]a\n"), "[00:01]a");
    assert_eq!(sidecar_text("a"), "a\n");
    assert_eq!(tag_kind("mp3"), Ok(TagKind::Id3v2));
    assert!(tag_kind("txt").is_err());
    assert_eq!(cover_download_url(""), None);
    assert_eq!(cover_download_url("http://x/a.jpg"), Some("http://x/a.jpg?param=1000y1000".to_owned()));
    assert_eq!(cover_download_url("http://x/a.jpg?b"), Some("http://x/a.jpg?b&param=1000y1000".to_owned()));
    assert_eq!(lyrics_warning(None, "b"), "new lyrics endpoint returned no lyrics; fallback failed: b");
    assert_eq!(lyrics_warning(Some("a"), "b"), "new lyrics endpoint failed: a; fallback failed: b");
    let missing = Discovered::album(7, &Json::Null).unwrap_err();
    assert_eq!(missing.message(), "NCM response is missing album");
}

fn track(path: &str) -> OrganizableTrack {
    OrganizableTrack {
        id: 186016,
        title: "晴天".into(),
        artists: "周杰伦".into(),
        album: "叶惠美".into(),
        album_artist: "周杰伦".into(),
        track_number: Some(4),
        disc_number: Some(1),
        total_tracks: Some(11),
        format: "FLAC".into(),
        path: path.into(),
    }
}

#[test]
fn builds_stable_metadata_path() {
    assert_eq!(destination("music", &track("")), "music/周杰伦/叶惠美/04 晴天 [186016].flac");
    assert_eq!(sanitize("A/B: C?"), "A_B_ C_");
}

#[test]
fn a_move_does_not_overwrite() {
    let taken = TrackMove::start("/m/song.flac", "/m/artist/song.flac").advance(MoveEvent::Target { exists: true });
    assert!(matches!(taken.step, MoveStep::Done(MoveResult::Finished(MoveOutcome::Conflict(_)))));
    for target in ["/m/song.flac", "/m//song.flac", "/m/./song.flac", "//m/song.flac/", "/m/song.flac/."] {
        let same = TrackMove::start("/m/song.flac", target);
        assert!(matches!(same.step, MoveStep::Done(MoveResult::Finished(MoveOutcome::Skipped(_)))));
    }
    assert!(matches!(TrackMove::start("m/song.flac", "/m/song.flac").step, MoveStep::CheckTarget));

    let moved = TrackMove::start("/m/song.flac", "/m/artist/song.flac")
        .advance(MoveEvent::Target { exists: false })
        .advance(MoveEvent::Succeeded)
        .advance(MoveEvent::Lyrics { beside_source: true, beside_target: false })
        .advance(MoveEvent::Succeeded)
        .advance(MoveEvent::Size(5));
    match moved.step {
        MoveStep::Done(MoveResult::Finished(MoveOutcome::Moved { from, to, bytes })) => {
            assert_eq!((from.as_str(), to.as_str(), bytes), ("/m/song.flac", "/m/artist/song.flac", 5));
        }
        other => panic!("unexpected step {other:?}"),
    }

    let back = TrackMove::start("/m/song.flac", "/m/artist/song.flac")
        .advance(MoveEvent::Target { exists: false })
        .advance(MoveEvent::Succeeded)
        .advance(MoveEvent::Lyrics { beside_source: true, beside_target: false })
        .advance(MoveEvent::Failed);
    assert!(matches!(back.step, MoveStep::MoveBack));
    assert_eq!(
        rollback_move("/a/x.flac", "/b/x.flac", true),
        vec![
            ("/b/x.flac".to_owned(), "/a/x.flac".to_owned()),
            ("/b/x.lrc".to_owned(), "/a/x.lrc".to_owned()),
        ]
    );
    assert_ne!(moving_name("/b/x.flac"), "/b/x.flac");
}

fn plain_track(id: u64, disc_number: Option<u32>) -> OrganizableTrack {
    OrganizableTrack {
        id,
        title: "../x".to_owned(),
        artists: "..".to_owned(),
        album: "/etc".to_owned(),
        album_artist: String::new(),
        track_number: Some(3),
        disc_number,
        total_tracks: None,
        format: "FLAC".to_owned(),
        path: String::new(),
    }
}

#[test]
fn a_track_stays_below_the_root() {
    let root = std::path::Path::new("/music");
    let one = destination("/music", &plain_track(7, None));
    assert_eq!(one, "/music/Unknown/_etc/03 .._x [7].flac");
    assert_eq!(std::path::Path::new(&one).strip_prefix(root).unwrap().components().count(), 3);
    let two = destination("/music", &plain_track(7, Some(2)));
    assert_eq!(two, "/music/Unknown/_etc/CD02/03 .._x [7].flac");
    assert_ne!(one, destination("/music", &plain_track(71, None)));
    let elsewhere = OrganizableTrack { path: "/other".to_owned(), ..plain_track(7, None) };
    assert_eq!(one, destination("/music", &elsewhere));
}

#[test]
fn a_sanitized_name_stays_as_it_is() {
    for name in ["a. . ", "con", " x ", "", "...", "a/b", "\u{1}", "Lpt9."] {
        let once = sanitize(name);
        assert!(!once.ends_with('.') && !once.ends_with(' '));
        assert_eq!(sanitize(&once), once);
    }
    assert_eq!(sanitize("Lpt9."), "_Lpt9");
    assert_eq!(sanitize("..."), "Unknown");
}

#[test]
fn a_move_that_is_rolled_back_leaves_the_files_as_they_were() {
    let before = std::collections::BTreeMap::from([("/m/a.mp3", 1), ("/m/a.lrc", 2), ("/m/b.mp3", 3)]);
    let mut files = before.clone();
    let audio = files.remove("/m/a.mp3").unwrap();
    files.insert("/n/a.mp3", audio);
    let lyrics = files.remove("/m/a.lrc").unwrap();
    files.insert("/n/a.lrc", lyrics);
    let back = rollback_move("/m/a.mp3", "/n/a.mp3", true);
    for (from, to) in &back {
        let held = files.remove(from.as_str()).unwrap();
        files.insert(to.as_str(), held);
    }
    assert_eq!(files, before);
    assert_eq!(rollback_move("/m/a.mp3", "/n/a.mp3", false).len(), 1);
    assert_eq!(rollback_move("/m/a.mp3", "/n/a.lrc", true), vec![("/n/a.lrc".to_owned(), "/m/a.mp3".to_owned())]);
    assert_eq!(rollback_move("/m/a.lrc", "/n//b.lrc", true).len(), 1);
}

#[test]
fn lyrics_are_asked_for_at_two_services() {
    let answer = |text: &str| {
        let lyric = Json::Object(vec![("lyric".to_owned(), Json::Text(text.to_owned()))]);
        Json::Object(vec![("lrc".to_owned(), lyric)])
    };
    let found = answer("[00:01.00]hello");
    let lyrics = match LyricsFetch::new().accept(Ok(&found)) {
        LyricsFetch::Done { lyrics: Some(lyrics), warning: None } => lyrics,
        other => panic!("unexpected {other:?}"),
    };
    assert_eq!(lyrics, clean_lyrics("[00:01.00]hello"));

    let nothing = LyricsFetch::new().accept(Ok(&Json::Null));
    assert_eq!(nothing, LyricsFetch::AskOld { first_error: None });
    assert_eq!(nothing.clone().accept(Ok(&found)), LyricsFetch::Done { lyrics: Some(lyrics), warning: None });
    assert_eq!(nothing.accept(Ok(&Json::Null)), LyricsFetch::Done { lyrics: None, warning: None });
    let failed = LyricsFetch::new().accept(Err("a")).accept(Err("b"));
    let warning = Some(lyrics_warning(Some("a"), "b"));
    assert_eq!(failed, LyricsFetch::Done { lyrics: None, warning });
    assert_eq!(failed.clone().accept(Ok(&found)), failed);
}

#[test]
fn paths_are_taken_apart() {
    assert_eq!(extension("/a/b.tar.gz"), Some("gz".to_owned()));
    assert_eq!(extension("/a.b/c"), None);
    assert_eq!(with_extension("/a/b.flac", "lrc"), "/a/b.lrc");
    for path in ["/a/b.flac/", "/a/b.flac//", "/a/b.flac/.", "/a/b.flac/./", "b.flac", "/", ".", "..", "a/..", "", "/.x"] {
        let known = std::path::Path::new(path);
        assert_eq!(extension(path).as_deref(), known.extension().and_then(|value| value.to_str()), "{path}");
        assert_eq!(with_extension(path, "lrc"), known.with_extension("lrc").to_str().unwrap(), "{path}");
        for other in ["/a//b.flac", "./b.flac", "a/../", "/./", "b.flac/", "", "."] {
            assert_eq!(same_path(path, other), known == std::path::Path::new(other), "{path} {other}");
            assert_eq!(is_below(path, other), known.starts_with(other), "{path} {other}");
            assert_eq!(join(path, other), known.join(other).to_str().unwrap(), "{path} {other}");
        }
    }
    assert!(is_below("/a/b/c", "/a/b"));
    assert!(is_below("/a/b", "/a/b"));
    assert!(!is_below("/a/bc", "/a/b"));
}

#[test]
fn last_short_page_is_terminal_even_when_total_is_unknown() {
    let page = PaginationInfo::from_fetch(0, 50, 12, 0);
    assert!(!page.has_more);
    assert_eq!(page.offset, 12);
}

#[test]
fn full_page_with_known_total_keeps_prefetching() {
    let page = PaginationInfo::from_fetch(0, 50, 50, 80);
    assert!(page.has_more);
    assert_eq!(page.offset, 50);
    assert!(page.should_prefetch(42, 50));
    assert!(!page.should_prefetch(10, 50));
}

#[test]
fn merge_keeps_existing_order_and_skips_duplicates() {
    let mut items = vec![3, 1];
    merge_unique_by_id(&mut items, vec![1, 4, 3, 5], |value: &i32| *value as u64);
    assert_eq!(items, vec![3, 1, 4, 5]);
}

fn items() -> Vec<PaletteItem> {
    vec![
        PaletteItem::new("本地音乐", "跳转", "local library"),
        PaletteItem::new("导入本地音乐", "I", "import scan"),
        PaletteItem::new("每日推荐", "跳转", "daily"),
    ]
}

#[test]
fn empty_query_keeps_all_items_in_order() {
    assert_eq!(filter_items(&items(), " "), vec![0, 1, 2]);
}

#[test]
fn subsequence_matches_title_or_keywords() {
    let items = items();
    assert_eq!(filter_items(&items, "导入"), vec![1]);
    assert_eq!(filter_items(&items, "lcl"), vec![0]);
    assert_eq!(filter_items(&items, "daily"), vec![2]);
    assert!(filter_items(&items, "zzzz").is_empty());
}

#[test]
fn upper_case_is_found_as_lower_case() {
    assert_eq!(filter_items(&items(), "DAILY"), vec![2]);
}

#[test]
fn metadata_values_override_filename_fallbacks() {
    assert_eq!(non_empty("22/7".to_owned(), "227".to_owned()), "22/7");
    assert_eq!(non_empty(String::new(), "Fallback".to_owned()), "Fallback");
}

fn tags() -> AudioMetadata {
    AudioMetadata::default()
}

fn scanned(path: &str, size: u64) -> ScannedFile {
    describe(path, "mp3".to_owned(), "Artist - Song", size, Some(7), &tags())
}

#[test]
fn files_are_described_by_their_name_where_they_have_no_tags() {
    let file = scanned("/m/Artist - Song.mp3", 5);
    assert_eq!(file.artists, "Artist");
    assert_eq!(file.title, "Song");
    assert_eq!(file.album, "");
    assert_eq!(file.duration_ms, 0);
    assert_eq!(file.bitrate, 0);
    assert_eq!(parse_stem("Only"), (String::new(), "Only".to_owned()));
    assert_eq!(audio_format(Some("FLAC")), Some("flac".to_owned()));
    assert_eq!(audio_format(Some("txt")), None);
    assert!(is_hidden(".cache"));
    assert!(!is_hidden("cache"));
    let files = deduplicate_files(vec![scanned("/m/a.mp3", 1), scanned("/m/a.mp3", 1), scanned("/m/b.mp3", 1)]);
    assert_eq!(files.len(), 2);
}

#[test]
fn files_are_sorted_and_found_once() {
    let paths = ["/m/b.mp3", "/m/a/z.mp3", "/m/a.mp3", "/m/b.mp3", "/m/a b/x.mp3", "/m//a.mp3", "/m/B.mp3", "/m/é.mp3"];
    let found: Vec<_> = paths.iter().zip(1..).map(|(path, size)| scanned(path, size)).collect();
    let mut sorted = paths.to_vec();
    sorted.sort_by(|left, right| std::path::Path::new(left).cmp(std::path::Path::new(right)));
    sorted.dedup_by(|left, right| std::path::Path::new(left) == std::path::Path::new(right));
    let files = deduplicate_files(found);
    assert_eq!(files.iter().map(|file| file.path.as_str()).collect::<Vec<_>>(), sorted);
    let kept = files.iter().find(|file| file.path == "/m/b.mp3").unwrap();
    assert_eq!(kept.file_size, 1);
    let again = deduplicate_files(vec![scanned("/m/a.mp3", 1), scanned("/m/b.mp3", 1), scanned("/m/a.mp3", 1)]);
    assert_eq!(again.len(), 2);
}

#[test]
fn paths_are_ordered_by_their_components() {
    let paths = ["", ".", "..", "/", "/a", "a", "a/b", "a.b", "./a", "../a", "a/../b", "/a/b", "/a b", "A", "é", "音", "😀", "a/"];
    for left in paths {
        for right in paths {
            let expected = std::path::Path::new(left) < std::path::Path::new(right);
            assert_eq!(path_precedes(left, right), expected, "{left} {right}");
        }
    }
}

#[test]
fn tags_are_trimmed() {
    let mut found = tags();
    found.title = " Title ".to_owned();
    found.artists = " ".to_owned();
    found.album = " Album".to_owned();
    found.album_artist = "Group ".to_owned();
    let file = describe("/m/a.mp3", "mp3".to_owned(), "Artist - Song", 1, None, &found);
    assert_eq!((file.title.as_str(), file.artists.as_str()), ("Title", "Artist"));
    assert_eq!((file.album.as_str(), file.album_artist.as_str()), ("Album", "Group"));
}

#[test]
fn a_second_scan_finds_nothing_new() {
    let files = [scanned("/m/a.mp3", 5), scanned("/m/b.mp3", 6)];
    let roots = vec!["/m".to_owned()];
    let mut rows = std::collections::BTreeMap::from([(
        "/m/gone.mp3".to_owned(),
        KnownLocation { location_id: 1, track_id: 1, file_size: 1, modified_ns: 1, present: true },
    )]);
    let mut reports = Vec::new();
    for _ in 0..2 {
        let mut session = ScanSession::new();
        for file in &files {
            let existing = rows.get(&file.path).copied();
            session.observe(file, existing, None);
            let id = existing.map_or(rows.len() as u64 + 1, |row| row.location_id);
            session.located(id);
            let row = KnownLocation {
                location_id: id,
                track_id: id,
                file_size: file.file_size,
                modified_ns: file.modified_ns,
                present: true,
            };
            rows.insert(file.path.clone(), row);
        }
        let known: Vec<_> = rows
            .iter()
            .filter(|(_, row)| row.present)
            .map(|(path, row)| PresentLocation {
                location_id: row.location_id,
                track_id: row.track_id,
                path: path.clone(),
            })
            .collect();
        for index in session.sweep(&known, &roots) {
            rows.get_mut(&known[index].path).unwrap().present = false;
        }
        let changes = session.changes();
        reports.push((changes.added, changes.updated, changes.unchanged, changes.missing));
    }
    assert_eq!(reports, [(2, 0, 0, 1), (0, 0, 2, 0)]);
}

#[test]
fn a_scan_counts_what_it_finds() {
    let file = scanned("/m/a.mp3", 5);
    let mut first = ScanSession::new();
    assert_eq!(first.observe(&file, None, None), ScanAction::Insert);
    first.located(1);
    assert_eq!(first.changes().added, 1);

    let known = KnownLocation {
        location_id: 1,
        track_id: 4,
        file_size: file.file_size,
        modified_ns: file.modified_ns,
        present: true,
    };
    let mut second = ScanSession::new();
    assert_eq!(second.observe(&file, Some(known), None), ScanAction::Touch { track_id: 4 });
    assert_eq!(second.changes().unchanged, 1);
    let mut changed = ScanSession::new();
    assert_eq!(
        changed.observe(&file, Some(KnownLocation { file_size: 99, ..known }), None),
        ScanAction::Refresh { track_id: 4 }
    );
    assert_eq!(changed.changes().updated, 1);
    let mut adopted = ScanSession::new();
    assert_eq!(adopted.observe(&file, None, Some(8)), ScanAction::Adopt { track_id: 8 });

    let mut third = ScanSession::new();
    let gone = third.sweep(
        &vec![PresentLocation { location_id: 1, track_id: 4, path: "/m/a.mp3".to_owned() }],
        &vec!["/m".to_owned()],
    );
    assert_eq!(gone, vec![0]);
    assert_eq!(third.changes().missing, 1);

    let mut elsewhere = ScanSession::new();
    let kept = elsewhere.sweep(
        &vec![PresentLocation { location_id: 1, track_id: 4, path: "/m/a.mp3".to_owned() }],
        &vec!["/other".to_owned()],
    );
    assert!(kept.is_empty());
}

#[test]
fn a_track_that_is_queued_plays_next_once() {
    let mut queue = PlayQueue { ids: vec![1, 2, 3], current: Some(0) };
    assert_eq!(queue.enqueue_next(9, true), EnqueueOutcome::Inserted);
    assert_eq!(queue.ids, vec![1, 9, 2, 3]);
    assert_eq!(queue.enqueue_next(9, true), EnqueueOutcome::AlreadyNext);
    assert_eq!(queue.enqueue_next(8, false), EnqueueOutcome::Missing);
    assert_eq!(queue.enqueue_next(3, true), EnqueueOutcome::Moved);
    assert_eq!(queue.ids, vec![1, 3, 9, 2]);
    assert_eq!(queue.enqueue_next(2, true), EnqueueOutcome::Moved);
    assert_eq!(queue.ids, vec![1, 2, 3, 9]);
    assert!(queue.dequeue(9));
    assert!(!queue.dequeue(9));
    assert_eq!(queue.ids, vec![1, 2, 3]);
    assert_eq!(queue.clear_queue(), 3);
    queue.replace_queue(vec![5, 6], Some(1));
    assert_eq!(queue.current, Some(1));
}

#[test]
fn queries_are_quoted_and_counted() {
    assert_eq!(fts_query("  "), None);
    assert_eq!(fts_query("a b"), Some("\"a\"* AND \"b\"*".to_owned()));
    assert_eq!(placeholders(3), "?,?,?");
    assert_eq!(file_status(true), "available");
    assert_eq!(file_status(false), "missing");
    assert_eq!(migration(false, false, 0), Migration::Create);
    assert_eq!(migration(true, false, 0), Migration::Rebuild);
    assert_eq!(migration(true, true, 0), Migration::Stamp);
    assert_eq!(migration(true, true, 1_000), Migration::Keep);
    assert!(!maintenance_due(31));
    assert!(maintenance_due(32));
    assert!(!missing_columns(&vec![]).is_empty());
    let mut split = AvailabilitySplit::new();
    split.offer(1, true);
    split.offer(2, false);
    let (there, gone) = split.finish();
    assert!(there.contains(&1));
    assert_eq!(gone, vec![2]);
}

#[test]
fn pictures_fall_back_to_half_blocks() {
    let none = TerminalHints {
        kitty_window: false,
        kitty_pid: false,
        ghostty_resources: false,
        foot_version: false,
        term_program: None,
        term: None,
    };
    assert_eq!(choose_protocol(GraphicsProtocol::HalfBlocks, &none, false, false), GraphicsProtocol::HalfBlocks);
}
