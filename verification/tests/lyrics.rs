use ncm_tui::lyrics::{
    embedded_lyrics, finish_lines, is_translation_sidecar, parse_lrc, sidecar_candidates, LyricLine, LyricWord, Lyrics, SidecarPair,
};
use ncm_tui::time::Duration;
use ncm_tui::tui::lyric_panel::{lyric_rows, lyric_spans, sung_chars, wrap_styled_spans, LyricDisplayRow, LyricTone};
use ncm_tui::tui::playing::{choose_lyrics, local_lyrics_suffice, online_lyrics};
use ncm_tui::tui::wrap::wrap_lyric_text;

#[test]
fn lrc_supports_multiple_tags_offset_and_variable_precision() {
    let lines = finish_lines(parse_lrc("[offset:100]\n[00:01.5][00:03.050]hello\n[00:04]world"));
    assert_eq!(lines.len(), 3);
    assert_eq!(lines[0].start, Duration::from_millis(1_600));
    assert_eq!(lines[1].start, Duration::from_millis(3_150));
    assert_eq!(lines[0].end, Some(lines[1].start));
}

#[test]
fn an_offset_moves_every_line_wherever_it_stands() {
    let body = "[00:01.5]hello\n[ti:x]\n[00:00.05][00:04]world \r\n";
    let plain = parse_lrc(body);
    assert_eq!(plain.len(), 3);
    for offset in [100_i64, -100, 0] {
        for text in [format!("[offset:{offset}]\n{body}"), format!("{body}\n[offset:{offset}]")] {
            let moved = parse_lrc(&text);
            assert_eq!(moved.len(), plain.len());
            for (after, before) in moved.iter().zip(&plain) {
                assert_eq!(after.text, before.text);
                assert_eq!(after.end, None);
                assert!(after.words.is_empty());
                let start = (before.start.nanos as i128 + offset as i128 * 1_000_000).max(0);
                assert_eq!(after.start.nanos as i128, start);
            }
        }
    }
}

#[test]
fn lyrics_in_tags_are_found_under_two_keys() {
    assert_eq!(embedded_lyrics(Some(" a "), Some("b")), Some("a".to_owned()));
    assert_eq!(embedded_lyrics(None, Some("b\n")), Some("b".to_owned()));
    assert_eq!(embedded_lyrics(Some(" "), Some("b")), None);
    assert_eq!(embedded_lyrics(None, None), None);
}

#[test]
fn yrc_preserves_word_timings() {
    let lyrics = Lyrics::from_sources(
        None,
        Some("[00:01.00]你好"),
        Some("[1000,2000](1000,500,0)你(1500,500,0)好"),
    );
    assert_eq!(lyrics.original[0].text, "你好");
    assert_eq!(lyrics.original[0].words.len(), 2);
    assert_eq!(lyrics.translation_at(Duration::from_secs(1)), Some("你好"));
}

#[test]
fn current_line_uses_the_latest_started_line() {
    let lyrics = Lyrics::from_sources(Some("[00:01]a\n[00:02]b"), None, None);
    assert_eq!(lyrics.current_index(Duration::from_millis(500)), None);
    assert_eq!(lyrics.current_index(Duration::from_millis(2_500)), Some(1));
}

#[test]
fn bilingual_sidecar_pairs_same_timestamp_as_translation() {
    let lyrics = Lyrics::from_local_document(
        "[00:01.00]夜に駆ける\n[00:01.00]奔向夜晚\n[00:05.00]skip\n[00:08.00]朝を待つ\n[00:08.00]等待黎明",
        None,
    );
    assert_eq!(lyrics.original.len(), 3);
    assert_eq!(lyrics.original[0].text, "夜に駆ける");
    assert_eq!(lyrics.translation_at(Duration::from_secs(1)), Some("奔向夜晚"));
    assert_eq!(lyrics.translation_at(Duration::from_secs(8)), Some("等待黎明"));
    assert!(lyrics.translation_at(Duration::from_secs(5)).is_none());
}

#[test]
fn sidecars_are_told_apart() {
    let names = sidecar_candidates("track");
    assert!(names.contains(&"track.lrc".to_owned()));
    assert!(!is_translation_sidecar("track.lrc"));
    let translation = names.iter().find(|name| is_translation_sidecar(name)).unwrap().clone();
    let mut pair = SidecarPair::new();
    pair.offer("track.lrc", "[00:01]a".to_owned());
    pair.offer(&translation, "[00:01]b".to_owned());
    let lyrics = Lyrics::from_document(pair.original.as_deref(), pair.translated.as_deref()).unwrap();
    assert_eq!(lyrics.original[0].text, "a");
    assert_eq!(lyrics.translation_at(Duration::from_secs(1)), Some("b"));
}

#[test]
fn lyric_wrap_breaks_cjk_and_latin_at_the_panel_width() {
    assert_eq!(wrap_lyric_text("你好世界", 4), ["你好", "世界"]);
    assert_eq!(wrap_lyric_text("hello world", 8), ["hello", "world"]);
    assert_eq!(wrap_lyric_text("unchanged", 20), ["unchanged"]);
}

#[test]
fn wrapping_keeps_all_words() {
    assert_eq!(wrap_lyric_text("  a bb ccc dddd", 6), ["a bb", "ccc", "dddd"]);
    assert!(wrap_lyric_text("gone", 0).is_empty());
    assert!(wrap_lyric_text("   ", 4).is_empty());
    assert_eq!(wrap_lyric_text("你好", 1), ["你", "好"]);
}

#[test]
fn a_line_is_sung_in_proportion_to_its_time() {
    let second = Duration::from_secs(1);
    let three = Duration::from_secs(3);
    assert_eq!(sung_chars(4, second, second, three), 0);
    assert_eq!(sung_chars(4, Duration::from_secs(2), second, three), 2);
    assert_eq!(sung_chars(3, Duration::from_secs(2), second, three), 1);
    assert_eq!(sung_chars(4, three, second, three), 4);
    assert_eq!(sung_chars(4, three, three, second), 0);
}

fn line(start: u64, text: &str) -> LyricLine {
    LyricLine { start: Duration::from_secs(start), end: None, text: text.to_owned(), words: vec![] }
}

#[test]
fn the_current_line_is_painted_as_it_is_sung() {
    let first = line(1, "abcd");
    let spans = lyric_spans(&first, Duration::from_secs(3), true, 0);
    assert_eq!(spans.len(), 2);
    assert_eq!((spans[0].text.as_str(), spans[0].tone), ("ab", LyricTone::Played));
    assert_eq!((spans[1].text.as_str(), spans[1].tone), ("cd", LyricTone::Upcoming));
    let near = lyric_spans(&first, Duration::from_secs(9), false, 1);
    assert_eq!(near[0].tone, LyricTone::Near);
    let far = lyric_spans(&first, Duration::from_secs(9), false, 2);
    assert_eq!(far[0].tone, LyricTone::Far);

    let timed = LyricLine {
        words: vec![
            LyricWord { start: Duration::from_secs(1), end: Duration::from_secs(2), text: "ab".to_owned() },
            LyricWord { start: Duration::from_secs(2), end: Duration::from_secs(3), text: "cd".to_owned() },
        ],
        ..line(1, "abcd")
    };
    let spans = lyric_spans(&timed, Duration::from_millis(2_500), true, 0);
    assert_eq!(spans.iter().map(|span| span.text.as_str()).collect::<Vec<_>>(), ["ab", "c", "d"]);
    let rows = wrap_styled_spans(&spans, 10);
    assert_eq!(rows.len(), 1);
    assert_eq!(rows[0].iter().map(|span| span.text.as_str()).collect::<Vec<_>>(), ["abc", "d"]);
}

#[test]
fn the_panel_keeps_the_current_line_in_view() {
    let lyrics = Lyrics { original: (0..40).map(|i| line(i, "x")).collect(), translated: vec![line(20, "y")] };
    let rows = lyric_rows(&lyrics, Duration::from_secs(20), 10, 6);
    assert_eq!(rows.len(), 6);
    let at = rows
        .iter()
        .position(|row| match row {
            LyricDisplayRow::Original(pieces) => pieces.iter().any(|piece| piece.tone == LyricTone::Upcoming),
            LyricDisplayRow::Translation(_) => false,
        })
        .unwrap();
    assert_eq!(at, 3);
    assert_eq!(rows[4], LyricDisplayRow::Translation("y".to_owned()));
    assert!(lyric_rows(&lyrics, Duration::from_secs(20), 10, 0).is_empty());
}

fn words(text: &str) -> Lyrics {
    Lyrics::from_sources(Some(text), None, None)
}

#[test]
fn lyrics_beside_a_file_come_first() {
    let local = words("[00:01]local");
    let none = words("");
    assert!(local_lyrics_suffice(&Some(local.clone())));
    assert!(!local_lyrics_suffice(&Some(none.clone())));
    assert_eq!(online_lyrics(&Some(local.clone()), Some(7)), None);
    assert_eq!(online_lyrics(&Some(none.clone()), Some(7)), Some(7));
    assert_eq!(online_lyrics(&None, None), None);
    assert_eq!(choose_lyrics(Some(local.clone()), true, Err("x".to_owned())).unwrap(), local);
    let online = words("[00:01]online");
    assert_eq!(choose_lyrics(Some(none.clone()), true, Ok(online.clone())).unwrap(), online);
    assert!(choose_lyrics(None, true, Err("x".to_owned())).unwrap().is_empty());
    assert_eq!(choose_lyrics(None, false, Err("x".to_owned())), Err("x".to_owned()));
}
