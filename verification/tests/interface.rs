use std::collections::HashMap;

use ncm_tui::auth::{Identity, QrChallenge, QrStatus};
use ncm_tui::database::{LibraryTrack, PlayOrigin};
use ncm_tui::discovery::{OnlineTrack, PlaylistScope, PlaylistSummary, RankedTrack, SearchKind};
use ncm_tui::download::{DownloadSource, TrackSelection};
use ncm_tui::library::{map_tracks, LibraryStats, ScanReport, Track};
use ncm_tui::lyrics::Lyrics;
use ncm_tui::ncm_core::api::user::ListeningRank;
use ncm_tui::playback_cache::{CacheStats, ClearReport};
use ncm_tui::player::PlayerState;
use ncm_tui::time::{Duration, Instant};
use ncm_tui::tui::app::{ActiveJob, App, WarmPlaylist};
use ncm_tui::tui::command::{query_local, ColumnRequest, Command, LoadRequest, LocalQuery};
use ncm_tui::tui::control::HELP_MAX_SCROLL;
use ncm_tui::tui::events::AppEvent;
use ncm_tui::tui::format::{
    expand_user_path, format_bytes, format_cache_size_input, import_target, parse_cache_size, parse_download,
    unescape_shell_path,
};
use ncm_tui::tui::frame::FrameClock;
use ncm_tui::tui::input::{
    edit_input, next_char_boundary, normal_action, previous_char_boundary, InputEdit, KeyCode, KeyEvent, KeyModifiers,
    MouseEvent, MouseEventKind,
};
use ncm_tui::tui::layout::{
    app_layout, calculate_hits, contains, content_offset, grouped_navigation, inner_rect, nav_index_at, player_control_action, player_layout,
    progress_target, qr_layout, HitRegions, Rect, COMPACT_WIDTH, MIN_HEIGHT, MIN_WIDTH, QR_PADDING_X, QR_PADDING_Y,
    QR_STATUS_GAP,
};
use ncm_tui::tui::palette::palette_items;
use ncm_tui::tui::panes::{detail_lines, help_lines, is_wide_list, track_row, PaneBody};
use ncm_tui::tui::playing::queue_successor;
use ncm_tui::tui::routes::{Focus, InputMode, JobKind, PlayMode, Route, UiAction};
use ncm_tui::tui::rows::{BrowserColumn, ColumnPhase, Content, Loaded, LyricsState, TrackKey, TrackRow};
use ncm_tui::tui::screen::player_status;
use ncm_tui::tui::width::{input_footer, text_width, title_with_position, truncate_to_width};

const NONE: KeyModifiers = KeyModifiers { shift: false, control: false, alt: false };
const CONTROL: KeyModifiers = KeyModifiers { shift: false, control: true, alt: false };
const ALT: KeyModifiers = KeyModifiers { shift: false, control: false, alt: true };
const NOW: Instant = Instant { nanos: 1_000_000_000_000 };

fn at(millis: u64) -> Instant {
    NOW.after(Duration::from_millis(millis))
}

fn stats() -> CacheStats {
    CacheStats { used_bytes: 0, max_bytes: 4 * 1024 * 1024 * 1024, entries: 0 }
}

/// An interface with a player, after its start was worked off.
fn test_app() -> App {
    let mut app = App::new(Some(PlayerState::default()), stats(), vec!["/music".to_owned()], None, false, true, NOW);
    let commands = app.take_commands();
    assert_eq!(commands.len(), 2);
    app.handle_event(AppEvent::Loaded(1, Ok(Loaded::LocalTracks("本地音乐".to_owned(), vec![], None))), NOW);
    app.handle_event(AppEvent::Identity(Err("nobody".to_owned())), NOW);
    assert!(!app.pane.loading);
    app
}

fn test_track(id: u64) -> TrackRow {
    TrackRow {
        id,
        ncm_id: Some(id),
        title: format!("Song {id}"),
        artists: "Artist".into(),
        album: "Album".into(),
        duration_ms: 180_000,
        path: None,
        favorite: false,
        play_count: 0,
        format: String::new(),
        bytes: 0,
    }
}

fn online(id: u64) -> OnlineTrack {
    OnlineTrack {
        id,
        title: "Cached Song".into(),
        artists: "Artist".into(),
        album: "Album".into(),
        duration_ms: 180_000,
    }
}

fn column(id: u64, title: &str, content: Content, selected: usize) -> BrowserColumn {
    BrowserColumn { id, title: title.into(), content, selected, phase: ColumnPhase::Ready }
}

fn someone() -> Identity {
    Identity { user_id: 7, nickname: "测试用户".into() }
}

fn key(code: KeyCode) -> KeyEvent {
    KeyEvent::new(code, NONE)
}

fn press(column: u16, row: u16) -> MouseEvent {
    MouseEvent { kind: MouseEventKind::Press, column, row }
}

#[test]
fn parses_granular_download_ranges() {
    let request = parse_download("album 42 3-8").unwrap();
    assert_eq!(request.source, DownloadSource::Album(42));
    assert_eq!(request.selection, TrackSelection::Positions(3..=8));
}

#[test]
fn bad_download_commands_are_told_apart() {
    assert!(parse_download("album").unwrap_err().contains("用法"));
    assert!(parse_download("album x").unwrap_err().contains("ID"));
    assert!(parse_download("song 3").unwrap_err().contains("用法"));
    assert!(parse_download("album 3 4").unwrap_err().contains("范围格式"));
    assert!(parse_download("album 3 4-x").unwrap_err().contains("范围无效"));
    assert!(parse_download("album 3 0-4").unwrap_err().contains("范围无效"));
    assert!(parse_download("album 3 5-4").unwrap_err().contains("范围无效"));
    assert_eq!(parse_download("t 3").unwrap().source, DownloadSource::Track(3));
}

#[test]
fn navigation_hit_map_includes_group_headers() {
    assert_eq!(nav_index_at(0, 20), None);
    assert_eq!(nav_index_at(1, 20), Some(0));
    assert_eq!(nav_index_at(4, 20), None);
    assert_eq!(nav_index_at(5, 20), Some(3));
    assert_eq!(nav_index_at(10, 20), Some(7));
}

#[test]
fn content_scroll_keeps_selection_visible() {
    assert_eq!(content_offset(0, 8), 0);
    assert_eq!(content_offset(7, 8), 0);
    assert_eq!(content_offset(8, 8), 1);
}

#[test]
fn warmed_playlist_catalog_serves_created_and_subscribed_routes() {
    let mut app = test_app();
    app.account.identity = Some(someone());
    app.warm.playlists = Some(vec![
        PlaylistSummary { id: 1, name: "我创建的".into(), track_count: 2, created_by_user: true },
        PlaylistSummary { id: 2, name: "我收藏的".into(), track_count: 3, created_by_user: false },
    ]);

    app.load_playlists(PlaylistScope::Created);
    let Content::Playlists(created) = &app.pane.content else {
        panic!("expected cached playlists");
    };
    assert_eq!(created.iter().map(|item| item.id).collect::<Vec<_>>(), [1]);

    app.load_playlists(PlaylistScope::Subscribed);
    let Content::Playlists(subscribed) = &app.pane.content else {
        panic!("expected cached playlists");
    };
    assert_eq!(subscribed.iter().map(|item| item.id).collect::<Vec<_>>(), [2]);
    assert!(app.commands.is_empty());
}

#[test]
fn warmed_playlist_tracks_open_without_an_async_column_task() {
    let mut app = test_app();
    app.focus = Focus::Content;
    app.warm.playlist_tracks.insert(42, WarmPlaylist { name: "缓存歌单".into(), tracks: vec![online(9)] });

    app.open_playlist(42, "旧标题".into());

    assert!(app.commands.is_empty());
    assert_eq!(app.focus, Focus::Column(0));
    assert_eq!(app.columns[0].title, "缓存歌单");
    assert_eq!(app.columns[0].phase, ColumnPhase::Ready);
    assert_eq!(app.columns[0].content.len(), 1);
}

#[test]
fn warmed_primary_routes_open_without_an_async_load() {
    let mut app = test_app();
    app.account.identity = Some(someone());
    app.warm.daily = Some(vec![online(9)]);
    app.warm.recommended =
        Some(vec![PlaylistSummary { id: 42, name: "缓存歌单".into(), track_count: 1, created_by_user: false }]);
    app.warm.listening_week = Some(vec![RankedTrack { track: online(9), play_count: 12, score: 100 }]);

    app.load_daily();
    assert!(app.commands.is_empty());
    assert_eq!(app.pane.content.len(), 1);

    app.load_recommended();
    assert!(app.commands.is_empty());
    assert_eq!(app.pane.content.len(), 1);

    app.load_listening_rank();
    assert!(app.commands.is_empty());
    assert_eq!(app.pane.content.len(), 1);
}

#[test]
fn cache_only_events_do_not_request_a_redraw() {
    let mut app = test_app();
    let mut changed = false;
    changed |= app.handle_event(AppEvent::DailyWarmed(vec![]), NOW);
    changed |= app.handle_event(AppEvent::RecommendedWarmed(vec![]), NOW);
    changed |= app.handle_event(AppEvent::UserPlaylistsWarmed(vec![]), NOW);
    changed |= app.handle_event(AppEvent::PlaylistWarmed(1, "歌单".into(), vec![]), NOW);
    changed |= app.handle_event(AppEvent::ListeningRankWarmed(ListeningRank::Week, vec![]), NOW);
    changed |= app.handle_event(AppEvent::MetadataWarmFinished, NOW);

    assert!(!changed);
    assert!(app.warm.daily.is_some());
    assert!(app.warm.recommended.is_some());
    assert!(app.warm.playlists.is_some());
    assert!(app.warm.playlist_tracks.contains_key(&1));
    assert!(app.warm.listening_week.is_some());
}

#[test]
fn animation_is_disabled_when_idle_and_enabled_during_activity() {
    let mut app = test_app();
    app.pane.loading = false;
    app.columns.clear();
    app.jobs.active_job = None;
    app.playback.lyrics = LyricsState::Idle;
    app.playback.player_state = PlayerState::default();
    assert!(!app.needs_animation());

    app.pane.loading = true;
    assert!(app.needs_animation());
}

#[test]
fn breadcrumb_follows_the_cascade_and_omits_adjacent_duplicates() {
    let mut app = test_app();
    app.route = Route::Recommended;
    app.pane.title = "为你精选".into();
    app.columns = vec![
        column(1, "电子音乐", Content::Empty, 0),
        column(2, "夜航", Content::Empty, 0),
        column(3, "夜航", Content::Empty, 0),
    ];

    assert_eq!(app.breadcrumb_text(), "推荐歌单 › 为你精选 › 电子音乐 › 夜航");
}

#[test]
fn breadcrumb_truncation_preserves_the_active_tail() {
    let truncated = truncate_to_width("推荐歌单 › 为你精选 › 电子音乐 › 夜航", 12);

    assert!(text_width(&truncated) <= 12);
    assert!(truncated.starts_with('…'));
    assert!(truncated.ends_with("夜航"));
    assert_eq!(truncate_to_width("夜航", 12), "夜航");
}

#[test]
fn list_title_reports_the_clamped_selection_position() {
    assert_eq!(title_with_position("歌单", 4, 10), " 歌单 · 5/10 ");
    assert_eq!(title_with_position("歌单", 99, 10), " 歌单 · 10/10 ");
    assert_eq!(title_with_position("歌单", 0, 0), " 歌单 ");
}

#[test]
fn column_errors_are_local_and_stale_responses_are_ignored() {
    let mut app = test_app();
    app.pane.title = "根内容".into();
    app.status = "根状态".into();
    app.pane.content = Content::Tracks(vec![test_track(1)]);
    app.columns.push(BrowserColumn::loading(41, "在线歌单".into()));

    app.handle_event(AppEvent::ColumnLoaded(41, Err("网络超时".into())), NOW);
    app.handle_event(AppEvent::ColumnLoaded(99, Err("迟到响应".into())), NOW);

    assert_eq!(app.pane.title, "根内容");
    assert_eq!(app.status, "根状态");
    assert_eq!(app.pane.content.len(), 1);
    assert_eq!(app.columns.len(), 1);
    assert_eq!(app.columns[0].phase, ColumnPhase::Error("网络超时".into()));
    assert_eq!(app.columns[0].title, "在线歌单");
}

#[test]
fn small_terminal_has_no_mouse_regions() {
    let hits = calculate_hits(
        Rect::new(0, 0, MIN_WIDTH - 1, MIN_HEIGHT),
        16,
        6,
        1,
        Focus::Content,
        false,
    );
    assert_eq!(hits.nav, Rect::default());
    assert_eq!(hits.content, Rect::default());
}

#[test]
fn compact_layout_gives_content_the_full_width() {
    for width in MIN_WIDTH..COMPACT_WIDTH {
        let area = Rect::new(0, 0, width, 24);
        let layout = app_layout(area, 1, Focus::Content, false).unwrap();
        let hits = calculate_hits(area, 16, 6, 1, Focus::Content, false);
        assert_eq!(layout.navigation, None);
        assert_eq!(hits.nav, Rect::default());
        assert_eq!(hits.content.x, 1);
        assert_eq!(hits.content.width, width - 2);
    }
}

#[test]
fn panel_borders_are_not_interactive() {
    let hits = calculate_hits(Rect::new(0, 0, 96, 30), 16, 6, 1, Focus::Content, false);
    assert!(!contains(hits.nav, 0, hits.nav.y));
    assert!(!contains(hits.content, 24, hits.content.y));
    assert_eq!(hits.nav.x, 1);
    assert_eq!(hits.content.x, 25);
}

#[test]
fn wide_layout_keeps_cascade_order_and_a_separate_lyrics_column() {
    let layout = app_layout(Rect::new(0, 0, 160, 30), 4, Focus::Column(2), false).unwrap();
    let lyrics = layout.lyrics.unwrap();

    assert!(layout.navigation.is_some());
    assert!(layout.browser.len() >= 2);
    assert!(
        layout
            .browser
            .windows(2)
            .all(|panes| panes[0].index < panes[1].index)
    );
    assert!(
        layout
            .browser
            .windows(2)
            .all(|panes| panes[0].area.right() == panes[1].area.x)
    );
    assert!(layout.browser.last().unwrap().area.right() <= lyrics.x);
}

#[test]
fn compact_lyrics_focus_does_not_compete_with_browser_columns() {
    let layout = app_layout(Rect::new(0, 0, 60, 24), 3, Focus::Lyrics, true).unwrap();

    assert!(layout.browser.is_empty());
    assert_eq!(layout.lyrics, Some(Rect::new(0, 2, 60, 16)));
}

#[test]
fn layouts_hold_at_extreme_sizes() {
    for (width, height) in [(60, 24), (61, 24), (96, 30), (97, 31), (200, 80), (1000, 24), (65535, 65535)] {
        for focus in [Focus::Navigation, Focus::Content, Focus::Column(1), Focus::Lyrics] {
            let area = Rect::new(0, 0, width, height);
            let layout = app_layout(area, 3, focus, false).unwrap();
            assert_eq!(layout.header, Rect::new(0, 0, width, 2));
            assert_eq!(layout.footer.height, 1);
            assert_eq!(layout.footer.y, height - 1);
        }
    }
}

fn rects_overlap(left: Rect, right: Rect) -> bool {
    left.x < right.right() && right.x < left.right() && left.y < right.bottom() && right.y < left.bottom()
}

#[test]
fn player_controls_have_disjoint_hit_regions() {
    for area in [
        Rect::new(0, 0, 60, 5),
        Rect::new(0, 0, 96, 5),
        Rect::new(0, 0, 160, 5),
    ] {
        let layout = player_layout(area, 18);
        let regions = [
            layout.progress,
            layout.previous,
            layout.pause,
            layout.next,
            layout.play_mode,
            layout.volume,
        ];
        for (index, left) in regions.iter().enumerate() {
            for right in &regions[index + 1..] {
                assert!(!rects_overlap(*left, *right), "{left:?} overlaps {right:?}");
            }
        }
        assert_eq!(layout.progress.height, 1);
        assert!(layout.progress.width <= inner_rect(area).width / 2);
    }
}

#[test]
fn keyboard_and_player_buttons_share_actions() {
    let layout = player_layout(Rect::new(0, 0, 96, 5), 18);
    let hits = HitRegions {
        previous: layout.previous,
        pause: layout.pause,
        next: layout.next,
        play_mode: layout.play_mode,
        ..HitRegions::default()
    };
    let pairs = [
        (KeyCode::Char('p'), layout.previous, UiAction::PreviousTrack),
        (KeyCode::Char(' '), layout.pause, UiAction::TogglePause),
        (KeyCode::Char('n'), layout.next, UiAction::NextTrack),
        (KeyCode::Char('m'), layout.play_mode, UiAction::CycleMode),
    ];
    for (code, area, expected) in pairs {
        assert_eq!(normal_action(Focus::Content, true, KeyEvent::new(code, NONE)), Some(expected));
        assert_eq!(player_control_action(&hits, area.x, area.y), Some(expected));
    }
}

#[test]
fn player_hit_widths_match_visible_controls() {
    let layout = player_layout(Rect::new(0, 0, 96, 5), 18);
    assert_eq!(layout.previous.width, text_width("p ‹"));
    assert_eq!(layout.pause.width, text_width("Space ▶"));
    assert_eq!(layout.next.width, text_width("› n"));
    assert_eq!(layout.play_mode.width, text_width("m 循环"));
    assert_eq!(layout.play_mode.width, 6);
}

#[test]
fn seek_requires_explicit_bracket_keys_during_playback() {
    assert_eq!(
        normal_action(Focus::Content, true, KeyEvent::new(KeyCode::Left, NONE)),
        Some(UiAction::FocusPrevious)
    );
    assert_eq!(
        normal_action(Focus::Content, true, KeyEvent::new(KeyCode::Right, NONE)),
        Some(UiAction::FocusNext)
    );
    assert_eq!(
        normal_action(Focus::Content, true, KeyEvent::new(KeyCode::Char('['), NONE)),
        Some(UiAction::SeekBackward)
    );
    assert_eq!(
        normal_action(Focus::Content, true, KeyEvent::new(KeyCode::Char(']'), NONE)),
        Some(UiAction::SeekForward)
    );
    assert_eq!(normal_action(Focus::Content, false, KeyEvent::new(KeyCode::Char(']'), NONE)), None);
}

#[test]
fn modified_normal_keys_do_not_trigger_plain_bindings() {
    assert_eq!(normal_action(Focus::Content, true, KeyEvent::new(KeyCode::Char('q'), CONTROL)), None);
    assert_eq!(normal_action(Focus::Content, true, KeyEvent::new(KeyCode::Char('l'), ALT)), None);
}

#[test]
fn input_editor_handles_utf8_cursor_insert_and_delete() {
    let mut input = "初音".to_owned();
    let mut cursor = input.len();
    edit_input(&mut input, &mut cursor, KeyEvent::new(KeyCode::Left, NONE));
    edit_input(&mut input, &mut cursor, KeyEvent::new(KeyCode::Char('?'), NONE));
    assert_eq!(input, "初?音");
    edit_input(&mut input, &mut cursor, KeyEvent::new(KeyCode::Delete, NONE));
    assert_eq!(input, "初?");
    edit_input(&mut input, &mut cursor, KeyEvent::new(KeyCode::Backspace, NONE));
    assert_eq!(input, "初");
    assert_eq!(edit_input(&mut input, &mut cursor, key(KeyCode::Enter)), InputEdit::Submit);
    edit_input(&mut input, &mut cursor, KeyEvent::new(KeyCode::Char('x'), CONTROL));
    assert_eq!(input, "初");
    edit_input(&mut input, &mut cursor, key(KeyCode::Home));
    edit_input(&mut input, &mut cursor, key(KeyCode::Backspace));
    assert_eq!(input, "初");
}

#[test]
fn the_cursor_is_counted_in_bytes() {
    assert_eq!(next_char_boundary("初音", 0), 3);
    assert_eq!(next_char_boundary("初音", 3), 6);
    assert_eq!(next_char_boundary("初音", 6), 6);
    assert_eq!(previous_char_boundary("初音", 6), 3);
    assert_eq!(previous_char_boundary("初音", 3), 0);
    assert_eq!(previous_char_boundary("初音", 0), 0);
    assert_eq!(next_char_boundary("é😀x", 0), 2);
    assert_eq!(next_char_boundary("é😀x", 2), 6);
    let mut input = "初".to_owned();
    let mut cursor = 0;
    edit_input(&mut input, &mut cursor, key(KeyCode::End));
    assert_eq!(cursor, 3);
    edit_input(&mut input, &mut cursor, key(KeyCode::Char('é')));
    assert_eq!((input.as_str(), cursor), ("初é", 5));
    edit_input(&mut input, &mut cursor, key(KeyCode::Backspace));
    assert_eq!((input.as_str(), cursor), ("初", 3));
    assert_eq!(input_footer("> ", "初音", 3, 20), ("> 初音".to_owned(), 4));
}

#[test]
fn question_mark_is_input_before_it_is_help() {
    let mut app = test_app();
    app.prompt.mode = InputMode::Search;
    app.handle_key(key(KeyCode::Char('?')), NOW);
    assert_eq!(app.prompt.input, "?");
    assert!(!app.overlay.show_help);

    app.prompt.mode = InputMode::Normal;
    app.handle_key(key(KeyCode::Char('?')), NOW);
    assert!(app.overlay.show_help);
}

#[test]
fn help_overlay_scrolls_and_mouse_click_closes_it() {
    let mut app = test_app();
    app.overlay.show_help = true;
    app.handle_key(key(KeyCode::PageDown), NOW);
    assert_eq!(app.overlay.help_scroll, 6);
    app.handle_mouse(MouseEvent { kind: MouseEventKind::ScrollDown, column: 2, row: 2 }, NOW);
    assert_eq!(app.overlay.help_scroll, HELP_MAX_SCROLL);
    app.handle_mouse(press(2, 2), NOW);
    assert!(!app.overlay.show_help);
}

#[test]
fn back_closes_only_the_active_column_and_preserves_left_state() {
    let mut app = test_app();
    app.route = Route::Created;
    app.focus = Focus::Column(1);
    app.pane.title = "创建的歌单".into();
    app.pane.selected = 2;
    app.nav_selected = 7;
    app.pane.content = Content::Tracks(vec![test_track(1), test_track(2), test_track(3)]);
    app.columns = vec![
        column(1, "第一层", Content::Tracks(vec![test_track(4), test_track(5)]), 1),
        column(2, "第二层", Content::Tracks(vec![test_track(6)]), 0),
    ];

    app.back();

    assert_eq!(app.route, Route::Created);
    assert_eq!(app.focus, Focus::Column(0));
    assert_eq!(app.pane.title, "创建的歌单");
    assert_eq!(app.pane.selected, 2);
    assert_eq!(app.nav_selected, 7);
    assert_eq!(app.pane.content.len(), 3);
    assert_eq!(app.columns.len(), 1);
    assert_eq!(app.columns[0].selected, 1);

    app.back();
    assert_eq!(app.focus, Focus::Content);
    assert!(app.columns.is_empty());
    app.back();
    assert_eq!(app.focus, Focus::Navigation);
    app.focus = Focus::Column(5);
    app.back();
    assert_eq!(app.focus, Focus::Column(4));
}

#[test]
fn lyrics_focus_expands_without_changing_browser_state() {
    let mut app = test_app();
    app.pane.content = Content::Tracks(vec![test_track(1), test_track(2)]);
    app.pane.selected = 1;
    app.columns = vec![column(1, "歌单", Content::Tracks(vec![test_track(3), test_track(4)]), 1)];
    app.focus = Focus::Column(0);

    app.toggle_lyrics_focus();
    assert_eq!(app.focus, Focus::Lyrics);
    assert!(app.show_lyrics);
    assert_eq!(app.pane.selected, 1);
    assert_eq!(app.columns[0].selected, 1);

    app.toggle_lyrics_focus();
    assert_eq!(app.focus, Focus::Column(0));
    assert!(!app.show_lyrics);
    assert_eq!(app.pane.selected, 1);
    assert_eq!(app.columns[0].selected, 1);
}

#[test]
fn the_footer_is_bounded() {
    let mut app = test_app();
    app.status = "一条很长的状态消息，不应该让底栏换行或污染其他点击区域".repeat(4);
    for width in [60, 80] {
        let footer = app.footer_text(width);
        assert!(text_width(&footer) <= width);
        assert!(footer.contains("? 帮助"));
    }
    assert_eq!(app.footer_text(0), "");
}

#[test]
fn escape_from_a_local_search_restores_the_library() {
    let mut app = test_app();
    app.route = Route::Local;
    app.focus = Focus::Content;
    app.prompt.mode = InputMode::LocalSearch;
    app.prompt.input = "爵士".into();
    app.prompt.cursor = app.prompt.input.len();
    app.pane.loading = false;
    app.pane.content = Content::Empty;
    assert_eq!(app.content_body(), PaneBody::Message("搜索本地音乐：爵士".into()));

    app.dispatch_action(UiAction::Back, NOW);
    assert!(app.prompt.mode == InputMode::Normal);
    assert!(app.prompt.input.is_empty());
    assert!(app.pane.loading);
}

#[test]
fn an_empty_library_invites_to_import() {
    let mut app = test_app();
    app.focus = Focus::Content;
    assert_eq!(app.content_body(), PaneBody::Message("暂无本地音乐 · 按 I 或点击这里导入".into()));
    assert!(app.footer_text(80).contains("I 导入"));
}

#[test]
fn local_footer_calls_refresh_a_scan() {
    let mut app = test_app();
    app.route = Route::Local;
    app.focus = Focus::Content;
    app.status.clear();
    let footer = app.footer_text(100);
    assert!(footer.contains("I 导入"));
    assert!(footer.contains("r 扫描"));
    assert!(!footer.contains("r 刷新"));
}

#[test]
fn import_prompt_opens_from_shortcut_and_rejects_missing_path() {
    let mut app = test_app();
    app.dispatch_action(UiAction::Import, NOW);
    assert_eq!(app.route, Route::Local);
    assert_eq!(app.prompt.mode, InputMode::Import);
    assert!(app.status.contains("导入"));

    app.prompt.input = "/definitely-not-a-real-ncm-import-path".into();
    app.handle_key(key(KeyCode::Enter), NOW);
    let commands = app.take_commands();
    assert!(matches!(&commands[..], [Command::ResolveImport(path)] if path == "/definitely-not-a-real-ncm-import-path"));
    app.import_answered(Err("路径不存在：/definitely-not-a-real-ncm-import-path".into()));
    assert_eq!(app.prompt.mode, InputMode::Import);
    assert!(app.status.contains("路径不存在"));
    assert!(app.jobs.active_job.is_none());
}

#[test]
fn an_import_is_scanned_and_told() {
    let mut app = test_app();
    app.dispatch_action(UiAction::Import, NOW);
    app.import_answered(Ok("/incoming".into()));
    assert_eq!(app.prompt.mode, InputMode::Normal);
    let job = app.jobs.active_job.unwrap();
    assert_eq!(job.kind, JobKind::Import);
    assert_eq!(app.setup.library_roots, ["/music", "/incoming"]);
    assert!(matches!(
        app.take_commands().last(),
        Some(Command::StartScan { roots, .. }) if roots == &vec!["/incoming".to_owned()]
    ));
    let report = ScanReport { discovered: 1, added: 1, updated: 0, unchanged: 0, missing: 0 };
    app.handle_event(AppEvent::ScanFinished(job.id + 1, Ok(report)), NOW);
    assert!(app.jobs.active_job.is_some());
    app.handle_event(AppEvent::ScanFinished(job.id, Ok(report)), NOW);
    assert_eq!(app.status, "导入完成 · 发现 1 · 新增 1 · 更新 0 · 缺失 0");
    let generation = app.pane.generation;
    app.handle_event(AppEvent::Loaded(generation, Ok(Loaded::LocalTracks("本地音乐".into(), vec![], None))), NOW);
    assert!(app.status.starts_with("导入完成"));
}

#[test]
fn parse_import_path_accepts_quoted_and_existing_directories() {
    assert_eq!(import_target("\"/tmp/music\"", None), Some("/tmp/music".to_owned()));
    assert_eq!(import_target("   ", None), None);
    assert_eq!(
        import_target("/definitely-not-a-real-ncm-import-path", None),
        Some("/definitely-not-a-real-ncm-import-path".to_owned())
    );
    assert_eq!(expand_user_path("~/a", Some("/home/u")), "/home/u/a");
    assert_eq!(expand_user_path("~", None), "~");
}

#[test]
fn unescape_shell_path_keeps_spaces_from_escaped_drop_paths() {
    assert_eq!(unescape_shell_path("/tmp/My\\ Music"), "/tmp/My Music");
    assert_eq!(unescape_shell_path("/tmp/plain"), "/tmp/plain");
}

#[test]
fn the_cursor_stands_in_the_line_that_is_typed() {
    let mut app = test_app();
    app.prompt.mode = InputMode::Search;
    app.prompt.input = "初音".into();
    app.prompt.cursor = "初".len();
    let (text, cursor) = app.footer(80);
    assert!(text.contains("初音"));
    assert_eq!(cursor, Some(text_width(" / 搜索  初")));
}

#[test]
fn parses_playback_cache_sizes_as_binary_units() {
    assert_eq!(parse_cache_size("512M"), Ok(512 * 1024 * 1024));
    assert_eq!(parse_cache_size("4G"), Ok(4 * 1024 * 1024 * 1024));
    assert_eq!(parse_cache_size("8GiB"), Ok(8 * 1024 * 1024 * 1024));
    assert_eq!(parse_cache_size("1.5G"), Ok(1536 * 1024 * 1024));
    assert!(parse_cache_size("0").is_err());
    assert!(parse_cache_size("huge").is_err());
}

#[test]
fn account_shows_cache_controls() {
    let mut app = test_app();
    app.route = Route::Account;
    let (detail, hint) = app.cache_lines(NOW);
    assert_eq!(detail, "0 B / 4.0 GiB · 0 首");
    assert!(hint.contains("s 设置上限"));
}

#[test]
fn clearing_cache_requires_a_second_confirmation() {
    let mut app = test_app();
    app.route = Route::Account;
    app.dispatch_action(UiAction::ClearCache, NOW);
    assert!(app.jobs.cache_clear_armed_until.is_some());
    assert!(!app.jobs.cache_pending);

    app.dispatch_action(UiAction::ClearCache, at(5_000));
    assert!(app.jobs.cache_clear_armed_until.is_none());
    assert!(app.jobs.cache_pending);
    assert!(matches!(app.take_commands().last(), Some(Command::ClearCache)));
    let report = ClearReport { removed_bytes: 2048, retained_active: 1, stats: stats() };
    app.handle_event(AppEvent::CacheCleared(Ok(report)), NOW);
    assert_eq!(app.status, "已清除 2.0 KiB，保留 1 个正在播放/下载的缓存文件");
    assert!(!app.jobs.cache_pending);

    app.dispatch_action(UiAction::ClearCache, NOW);
    app.dispatch_action(UiAction::ClearCache, at(5_001));
    assert!(!app.jobs.cache_pending);
}

#[test]
fn progress_seek_maps_the_complete_track() {
    let track = Rect::new(10, 4, 21, 1);
    let duration = Duration::from_secs(10);
    assert_eq!(progress_target(track, 10, duration), Some(Duration::from_secs(0)));
    assert_eq!(progress_target(track, 20, duration), Some(Duration::from_secs(5)));
    assert_eq!(progress_target(track, 30, duration), Some(Duration::from_secs(10)));
    assert_eq!(progress_target(track, 31, duration), None);
}

#[test]
fn qr_layout_preserves_outer_quiet_zone() {
    let layout = qr_layout(Rect::new(10, 5, 60, 32), 37, 19).unwrap();
    assert_eq!(layout.code.x - layout.card.x, QR_PADDING_X);
    assert_eq!(layout.code.y - layout.card.y, QR_PADDING_Y);
    assert_eq!(layout.card.right() - layout.code.right(), QR_PADDING_X);
    assert_eq!(layout.card.bottom() - layout.code.bottom(), QR_PADDING_Y);
    assert_eq!(layout.status.y - layout.card.bottom(), QR_STATUS_GAP);
}

#[test]
fn qr_layout_rejects_clipped_rendering() {
    assert!(qr_layout(Rect::new(0, 0, 40, 20), 41, 19).is_none());
}

#[test]
fn sizes_are_written_as_floats_would_be() {
    for bytes in [0, 1, 1023, 1024, 1280, 1536, 1587, 102_400, 1_048_575, 1_048_576, 5_000_000, 1_073_741_824, 123_456_789_012] {
        let value = bytes as f64;
        let expected = if value >= 1_073_741_824.0 {
            format!("{:.1} GiB", value / 1_073_741_824.0)
        } else if value >= 1_048_576.0 {
            format!("{:.1} MiB", value / 1_048_576.0)
        } else if value >= 1024.0 {
            format!("{:.1} KiB", value / 1024.0)
        } else {
            format!("{bytes} B")
        };
        assert_eq!(format_bytes(bytes), expected);
    }
    assert_eq!(format_cache_size_input(4 * 1024 * 1024 * 1024), "4GiB");
    assert_eq!(format_cache_size_input(1536 * 1024 * 1024), "1536MiB");
    assert_eq!(format_cache_size_input(7), "7");
}

#[test]
fn a_track_is_played_from_its_file_or_as_a_stream() {
    let mut app = test_app();
    app.focus = Focus::Content;
    app.pane.content = Content::Tracks(vec![test_track(1), test_track(2)]);
    app.pane.selected = 1;
    app.activate();
    assert_eq!(app.playback.queue_index, Some(1));
    assert!(matches!(app.take_commands().last(), Some(Command::LookUpPath(track)) if track.id == 2));
    app.path_looked_up(test_track(2), None);
    assert_eq!(app.status, "正在连接 Song 2…");
    let generation = app.playback.stream_generation;
    assert!(matches!(app.take_commands().last(), Some(Command::OpenStream { song_id: 2, .. })));
    app.handle_event(AppEvent::StreamReady(generation - 1, test_track(2), Ok(())), NOW);
    assert!(app.take_commands().is_empty());
    app.handle_event(AppEvent::StreamReady(generation, test_track(2), Ok(())), NOW);
    assert!(matches!(app.take_commands().last(), Some(Command::PlayStream { .. })));
    app.playback_started(test_track(2), Ok(()));
    assert_eq!(app.playback.current, Some(2));
    assert_eq!(app.status, "");
    let commands = app.take_commands();
    assert!(matches!(commands[0], Command::RecordPlay { track: TrackKey::Song(2), origin: PlayOrigin::Stream }));
    assert!(matches!(commands.last(), Some(Command::LoadLyrics(track)) if track.id == 2));
    app.handle_event(AppEvent::LyricsLoaded(1, Err("late".into())), NOW);
    assert_eq!(app.playback.lyrics, LyricsState::Loading(2));
    let lyrics = Lyrics::from_sources(Some("[00:01]a"), None, None);
    app.handle_event(AppEvent::LyricsLoaded(2, Ok(lyrics.clone())), NOW);
    assert_eq!(app.playback.lyrics, LyricsState::Ready(2, lyrics));
    assert_eq!(app.lyrics_message(), None);

    app.path_looked_up(test_track(2), Some("/m/2.mp3".into()));
    assert!(matches!(
        app.take_commands().last(),
        Some(Command::PlayFile(track)) if track.path.as_deref() == Some("/m/2.mp3")
    ));
}

#[test]
fn without_an_audio_output_nothing_is_played() {
    let mut app = App::new(None, stats(), vec![], None, false, true, NOW);
    assert_eq!(app.status, "音频输出不可用");
    app.take_commands();
    app.path_looked_up(test_track(2), Some("/m/2.mp3".into()));
    assert!(matches!(&app.take_commands()[..], [Command::AbortStream]));
    assert_eq!(app.status, "音频输出不可用");
    app.dispatch_action(UiAction::TogglePause, NOW);
    assert!(app.take_commands().is_empty());
}

#[test]
fn the_queue_goes_on_by_its_mode() {
    assert_eq!(queue_successor(PlayMode::Sequential, 1, 3, 0), Some(2));
    assert_eq!(queue_successor(PlayMode::Sequential, 2, 3, 0), None);
    assert_eq!(queue_successor(PlayMode::RepeatOne, 2, 3, 0), Some(2));
    assert_eq!(queue_successor(PlayMode::RepeatAll, 2, 3, 0), Some(0));
    assert_eq!(queue_successor(PlayMode::Shuffle, 1, 3, 0), Some(0));
    assert_eq!(queue_successor(PlayMode::Shuffle, 1, 3, 1), Some(2));
    assert_eq!(queue_successor(PlayMode::Shuffle, 0, 1, 0), Some(0));

    let mut app = test_app();
    app.playback.play_queue = vec![test_track(1), test_track(2), test_track(3)];
    app.playback.queue_index = Some(0);
    app.playback.play_mode = PlayMode::Shuffle;
    app.handle_completion();
    assert!(matches!(app.playback.queue_index, Some(1) | Some(2)));
    let queued = app.playback.queue_index;
    app.handle_completion();
    assert_eq!(app.playback.queue_index, queued);

    app.playback.queue_index = Some(0);
    app.next_track(-1);
    assert_eq!(app.playback.queue_index, Some(0));
    app.next_track(1);
    assert_eq!(app.playback.queue_index, Some(1));
    app.cycle_play_mode();
    assert_eq!(app.status, "播放模式：顺序");
}

#[test]
fn a_selected_track_is_queued_behind_the_current_one() {
    let mut app = test_app();
    app.focus = Focus::Content;
    app.pane.content = Content::Tracks(vec![test_track(9)]);
    app.playback.play_queue = vec![test_track(1), test_track(2)];
    app.playback.queue_index = Some(0);
    app.enqueue();
    assert_eq!(app.playback.play_queue.iter().map(|track| track.id).collect::<Vec<_>>(), [1, 9, 2]);
    app.enqueue();
    assert_eq!(app.playback.play_queue.len(), 3);
    app.enqueue_answered("Song 9".into(), Ok(true));
    assert_eq!(app.status, "下一首播放：Song 9");
    app.enqueue_answered("Song 9".into(), Ok(false));
    assert_eq!(app.status, "已在队列：Song 9");
    app.route = Route::Queue;
    app.take_commands();
    app.dequeue();
    assert!(matches!(&app.take_commands()[..], [Command::Dequeue(TrackKey::Song(9))]));
    app.dequeue_answered(Ok(true));
    assert_eq!(app.status, "已移出播放队列");
    app.favorite();
    assert!(matches!(app.take_commands().last(), Some(Command::Load { .. })));
}

#[test]
fn logging_in_takes_a_code_and_polls() {
    let mut app = test_app();
    app.start_login();
    assert_eq!(app.route, Route::Account);
    assert!(matches!(app.take_commands().last(), Some(Command::BeginLogin)));
    let challenge = QrChallenge { key: "k".into(), url: "https://music.163.com/login?codekey=k".into() };
    app.handle_event(AppEvent::LoginStarted(Ok(challenge.clone())), NOW);
    assert!(app.account.login_polling);
    assert!(app.account.qr.lines().count() > 10);
    assert!(app.account.qr.contains('█'));
    app.poll_login(NOW);
    assert!(matches!(&app.take_commands()[..], [Command::PollLogin(asked)] if asked == &challenge));
    app.poll_login(at(10_000));
    assert!(app.take_commands().is_empty());
    app.handle_event(AppEvent::LoginPolled(Ok(QrStatus::Scanned)), NOW);
    app.poll_login(at(1_999));
    assert!(app.take_commands().is_empty());
    app.poll_login(at(2_000));
    assert_eq!(app.take_commands().len(), 1);
    app.handle_event(AppEvent::LoginPolled(Ok(QrStatus::Authenticated(someone()))), NOW);
    assert_eq!(app.account.login_status, "登录成功：测试用户");
    assert!(!app.account.login_polling);
    assert_eq!(app.account_label(), "测试用户");
    assert!(matches!(&app.take_commands()[..], [Command::WarmUp(7)]));

    app.handle_event(AppEvent::LoginPolled(Ok(QrStatus::Expired)), NOW);
    assert_eq!(app.account.login_status, "二维码已过期，按 L 刷新");
    app.handle_event(AppEvent::LoginPolled(Err("offline".into())), NOW);
    assert_eq!(app.account.login_status, "offline");
}

#[test]
fn a_code_that_cannot_be_drawn_is_left_out() {
    let mut app = test_app();
    let url = "x".repeat(10_000);
    app.handle_event(AppEvent::LoginStarted(Ok(QrChallenge { key: "k".into(), url })), NOW);
    assert_eq!(app.account.qr, "");
}

#[test]
fn entries_demand_a_login() {
    let mut app = test_app();
    for route in [Route::Daily, Route::Recommended, Route::Created, Route::Albums, Route::Artists, Route::ListeningRank] {
        app.set_route(route);
        assert_eq!(app.status, "此入口需要登录，按 L 扫码登录");
        assert!(matches!(&app.take_commands()[..], [Command::AbortLoad]));
    }
    app.account.identity = Some(someone());
    app.set_route(Route::Created);
    let generation = app.pane.generation;
    assert!(matches!(
        app.take_commands().last(),
        Some(Command::Load { generation: asked, request: LoadRequest::Playlists { user_id: 7, scope: PlaylistScope::Created } })
            if *asked == generation
    ));
    assert!(app.pane.loading);
    app.handle_event(AppEvent::Loaded(generation, Err("offline".into())), NOW);
    assert_eq!(app.status, "offline");
    assert!(!app.pane.loading);
}

#[test]
fn searching_needs_a_keyword() {
    let mut app = test_app();
    app.set_route(Route::Search);
    assert_eq!(app.prompt.mode, InputMode::Search);
    app.search_online();
    assert_eq!(app.status, "请输入搜索关键词");
    app.prompt.input = " 初音 ".into();
    app.take_commands();
    app.handle_key(key(KeyCode::Enter), NOW);
    let commands = app.take_commands();
    let Some(Command::Load { request, .. }) = commands.last() else {
        panic!("a search was expected");
    };
    assert_eq!(request, &LoadRequest::Search { keyword: "初音".into(), kind: SearchKind::Song, limit: 100 });
    assert_eq!(request.title(), Some("搜索：初音".into()));
    app.handle_key(key(KeyCode::F(2)), NOW);
    assert_eq!(app.prompt.search_kind, SearchKind::Album);
    assert_eq!(app.prompt.mode, InputMode::Search);
}

#[test]
fn a_column_takes_the_name_of_the_service() {
    let request = ColumnRequest::Playlist { id: 1, name: "mine".into() };
    assert_eq!(request.title("theirs"), "theirs");
    assert_eq!(request.title(""), "mine");
    assert_eq!(ColumnRequest::Album { id: 1, name: "mine".into() }.title("theirs"), "mine");
}

#[test]
fn the_library_is_asked_by_entry() {
    assert_eq!(query_local(Route::Local, None), (LocalQuery::List { favorites_only: false, limit: 10_000 }, true));
    assert_eq!(query_local(Route::Recent, None), (LocalQuery::Recent { limit: 1_000 }, false));
    assert_eq!(
        query_local(Route::Local, Some("x")),
        (LocalQuery::Search { query: "x".into(), limit: 10_000 }, false)
    );
    assert_eq!(query_local(Route::Daily, None), (LocalQuery::Nothing, false));
}

#[test]
fn a_double_click_opens_what_a_click_selects() {
    let mut app = test_app();
    app.pane.content = Content::Tracks(vec![test_track(1), test_track(2), test_track(3)]);
    app.place_on(Rect::new(0, 0, 100, 30));
    let pane = app.hits.content;
    app.handle_mouse(press(pane.x, pane.y + 1), NOW);
    assert_eq!(app.pane.selected, 1);
    assert!(app.take_commands().is_empty());
    app.handle_mouse(press(pane.x, pane.y + 1), at(449));
    assert!(matches!(app.take_commands().last(), Some(Command::LookUpPath(track)) if track.id == 2));
    app.handle_mouse(press(pane.x, pane.y + 2), at(460));
    app.handle_mouse(press(pane.x, pane.y + 2), at(910));
    assert!(app.take_commands().is_empty());
    app.handle_mouse(MouseEvent { kind: MouseEventKind::ScrollUp, column: pane.x, row: pane.y }, NOW);
    assert_eq!(app.pane.selected, 0);
    let nav = app.hits.nav;
    app.handle_mouse(press(nav.x, nav.y + 1), NOW);
    assert_eq!(app.route, Route::Daily);
    let account = app.hits.account;
    app.handle_mouse(press(account.x, account.y), NOW);
    assert_eq!(app.route, Route::Account);
}

#[test]
fn a_click_on_the_progress_seeks() {
    let mut app = test_app();
    app.playback.player_state.duration = Duration::from_secs(100);
    app.place_on(Rect::new(0, 0, 100, 30));
    let bar = app.hits.progress;
    app.handle_mouse(press(bar.x, bar.y), NOW);
    assert!(matches!(&app.take_commands()[..], [Command::SeekTo(target)] if target.nanos == 0));
    app.handle_mouse(press(bar.right() - 1, bar.y), NOW);
    assert!(matches!(&app.take_commands()[..], [Command::SeekTo(target)] if *target == Duration::from_secs(100)));
    let volume = app.hits.volume;
    app.handle_mouse(MouseEvent { kind: MouseEventKind::ScrollUp, column: volume.x, row: volume.y }, NOW);
    assert!(matches!(&app.take_commands()[..], [Command::VolumeUp]));
}

#[test]
fn an_empty_library_can_be_clicked() {
    let mut app = test_app();
    app.place_on(Rect::new(0, 0, 100, 30));
    let region = app.content_action_region();
    assert!(region.width > 0);
    app.handle_mouse(press(region.x, region.y), NOW);
    assert_eq!(app.prompt.mode, InputMode::Import);
}

#[test]
fn panes_are_reached_in_a_circle() {
    let mut app = test_app();
    app.columns = vec![column(1, "a", Content::Empty, 0)];
    app.focus = Focus::Navigation;
    let mut seen = vec![app.focus];
    for _ in 0..4 {
        app.focus_next(false);
        seen.push(app.focus);
    }
    assert_eq!(seen, [Focus::Navigation, Focus::Content, Focus::Column(0), Focus::Lyrics, Focus::Navigation]);
    app.focus_next(true);
    assert_eq!(app.focus, Focus::Lyrics);
    app.focus = Focus::Content;
    app.pane.content = Content::Tracks((0..30).map(test_track).collect());
    app.dispatch_action(UiAction::PageNext, NOW);
    assert_eq!(app.pane.selected, 10);
    app.dispatch_action(UiAction::SelectLast, NOW);
    assert_eq!(app.pane.selected, 29);
    app.dispatch_action(UiAction::SelectNext, NOW);
    assert_eq!(app.pane.selected, 29);
    app.dispatch_action(UiAction::SelectFirst, NOW);
    app.dispatch_action(UiAction::SelectPrevious, NOW);
    assert_eq!(app.pane.selected, 0);
}

#[test]
fn downloads_are_started_and_given_up() {
    let mut app = test_app();
    app.dispatch_action(UiAction::Download, NOW);
    assert_eq!(app.prompt.mode, InputMode::Download);
    app.prompt.input = "track 5".into();
    app.handle_key(key(KeyCode::Enter), NOW);
    let commands = app.take_commands();
    assert!(matches!(
        commands.last(),
        Some(Command::StartDownload { download, .. }) if download.source == DownloadSource::Track(5)
    ));
    app.dispatch_action(UiAction::Refresh, NOW);
    assert_eq!(app.status, "下载任务进行中，按 Esc 可取消");
    app.handle_key(key(KeyCode::Esc), NOW);
    assert_eq!(app.status, "下载已取消");
    assert!(app.jobs.active_job.is_none());
    app.jobs.active_job = Some(ActiveJob { id: 1, kind: JobKind::Scan });
    assert!(!app.cancel_download());
    app.start_scan();
    assert_eq!(app.status, "已有任务正在执行");
}

#[test]
fn the_cache_limit_is_typed() {
    let mut app = test_app();
    app.set_route(Route::Account);
    app.handle_key(key(KeyCode::Char('s')), NOW);
    assert_eq!(app.prompt.input, "4GiB");
    assert_eq!(app.prompt.cursor, 4);
    app.prompt.input = "nothing".into();
    app.handle_key(key(KeyCode::Enter), NOW);
    assert_eq!(app.prompt.mode, InputMode::CacheSize);
    app.prompt.input = "2G".into();
    app.take_commands();
    app.handle_key(key(KeyCode::Enter), NOW);
    assert!(matches!(&app.take_commands()[..], [Command::SetCacheLimit(2_147_483_648)]));
    let told = CacheStats { used_bytes: 1024, max_bytes: 2_147_483_648, entries: 1 };
    app.handle_event(AppEvent::CacheLimitUpdated(Ok(told)), NOW);
    assert_eq!(app.status, "播放缓存上限已设为 2.0 GiB，当前使用 1.0 KiB");
}

#[test]
fn control_and_c_ends_the_program() {
    let mut app = test_app();
    app.overlay.show_help = true;
    assert!(app.handle_key(KeyEvent::new(KeyCode::Char('c'), CONTROL), NOW));
    assert!(!app.handle_key(key(KeyCode::Char('q')), NOW));
    app.overlay.show_help = false;
    assert!(app.handle_key(key(KeyCode::Char('q')), NOW));
}

fn library_track(id: u64, ncm_id: Option<u64>) -> LibraryTrack {
    LibraryTrack {
        id,
        ncm_id,
        source_kind: "local".into(),
        title: "t".into(),
        artists: "a".into(),
        album: "b".into(),
        file_path: None,
        format: "mp3".into(),
        file_size: 1,
        downloaded_at: 0,
        duration_ms: 1,
        favorite: false,
        play_count: 0,
        last_played_at: None,
        cover_url: String::new(),
    }
}

#[test]
fn a_track_of_the_library_goes_by_its_number_at_the_service() {
    let tracks = map_tracks(vec![library_track(3, Some(186_016)), library_track(4, None)]);
    assert_eq!((tracks[0].id, tracks[0].ncm_id), (186_016, Some(186_016)));
    assert_eq!((tracks[1].id, tracks[1].ncm_id), (4, None));
    let rows: Vec<_> = tracks.into_iter().map(TrackRow::from_track).collect();
    assert_eq!(rows[0].key(), TrackKey::Song(186_016));
    assert_eq!(rows[1].key(), TrackKey::Row(4));
    assert_eq!(TrackRow::from_online(online(8)).key(), TrackKey::Song(8));

    let mut app = test_app();
    app.take_commands();
    app.path_looked_up(rows[0].copy(), None);
    assert!(matches!(app.take_commands().last(), Some(Command::OpenStream { song_id: 186_016, .. })));
    app.path_looked_up(rows[1].copy(), None);
    assert!(matches!(&app.take_commands()[..], [Command::AbortStream]));
    assert_eq!(app.status, "找不到本地文件：t");
    app.playback_started(TrackRow { path: Some("/m/t.mp3".into()), ..rows[1].copy() }, Ok(()));
    let commands = app.take_commands();
    assert!(matches!(commands[0], Command::RecordPlay { track: TrackKey::Row(4), origin: PlayOrigin::Local }));
}

#[test]
fn without_a_player_nothing_is_known_of_it() {
    let app = App::new(None, stats(), vec![], None, false, true, NOW);
    let state = &app.playback.player_state;
    assert_eq!((state.title.as_str(), state.artists.as_str(), state.volume), ("", "", 0));
    assert_eq!((state.elapsed.nanos, state.duration.nanos, state.paused, state.finished), (0, 0, false, false));
    assert_eq!((state.audio.codec.as_str(), state.audio.sample_rate, state.audio.channels), ("", 0, 0));
    assert_eq!(state.audio.bits_per_sample, None);
}

#[test]
fn an_emptied_line_is_typed_from_its_start() {
    let mut app = test_app();
    app.set_route(Route::Downloads);
    app.focus = Focus::Content;
    app.prompt.input = "track".into();
    app.prompt.cursor = 5;
    app.activate();
    assert_eq!((app.prompt.mode, app.prompt.input.as_str(), app.prompt.cursor), (InputMode::Download, "", 0));
    for c in "track 5".chars() {
        app.handle_key(key(KeyCode::Char(c)), NOW);
    }
    app.handle_key(key(KeyCode::Enter), NOW);
    assert_eq!((app.prompt.mode, app.prompt.input.as_str(), app.prompt.cursor), (InputMode::Normal, "", 0));
}

#[test]
fn wide_lists_show_albums() {
    assert!(is_wide_list(88));
    assert!(!is_wide_list(87));
}

#[test]
fn without_a_background_the_library_is_asked_at_once() {
    let mut app = App::new(Some(PlayerState::default()), stats(), vec![], None, false, false, NOW);
    assert!(matches!(app.take_commands()[0], Command::QueryLocal(Route::Local)));
    app.pane.selected = 5;
    let track = Track {
        id: 3,
        ncm_id: None,
        title: "t".into(),
        artists: "a".into(),
        album: "b".into(),
        path: Some("/m/t.mp3".into()),
        format: "mp3".into(),
        bytes: 1,
        downloaded_at: 0,
        duration_ms: 61_000,
        favorite: true,
        play_count: 2,
        last_played_at: None,
    };
    let totals = LibraryStats { tracks: 1, missing: 0, albums: 1, duration_ms: 61_000, favorites: 1, plays: 2 };
    app.local_answered(Ok((vec![track], Some(totals))));
    assert_eq!(app.pane.selected, 0);
    assert_eq!(app.content_title(), " 本地音乐 · 1 首 · 1 张专辑 · 0h 01m ");
    let Content::Tracks(rows) = &app.pane.content else {
        panic!("tracks were expected");
    };
    let row = track_row(&rows[0], None, true);
    assert_eq!(row.lead, " ♥  ");
    assert_eq!(row.details, ["  a", "  b", "  1:01"]);
    let details = detail_lines(&rows[0]);
    assert!(details.contains(&("格式    ".to_owned(), "MP3".to_owned())));
    assert!(details.contains(&("路径    ".to_owned(), "/m/t.mp3".to_owned())));
}

#[test]
fn the_help_names_the_keys() {
    let lines = help_lines();
    assert_eq!(lines.iter().filter(|line| line.heading).count(), 5);
    assert_eq!(lines[1].text, "↑↓/jk 选择  ·  g/G 首尾  ·  Enter 打开/播放  ·  Esc 返回");
    let app = test_app();
    let nav = app.navigation_lines(true);
    assert_eq!(nav.len(), 19);
    assert_eq!(nav[0].text, " 发现");
    assert_eq!(nav[6].text, " ▶ 本地音乐");
    assert_eq!(app.navigation_lines(false).len(), 14);
    assert_eq!(app.song_line().title, "尚未播放");
    assert_eq!(player_status(&PlayerState { volume: 7, ..PlayerState::default() }), "音量   7%");
}

#[test]
fn frames_are_drawn_when_something_changed() {
    let mut clock = FrameClock::new(NOW);
    assert!(clock.dirty);
    clock.drawn(false, NOW);
    assert!(!clock.dirty);
    assert!(!clock.animate(true, at(99)));
    assert!(clock.animate(true, at(100)));
    assert!(clock.dirty);
    assert_eq!(clock.timeout(true, at(190)), Duration::from_millis(10));
    assert_eq!(clock.timeout(true, at(100)), Duration::from_millis(50));
    assert_eq!(clock.timeout(false, at(190)), Duration::from_millis(50));
    clock.drawn(false, at(190));
    clock.mark(true);
    assert!(clock.dirty);
}

#[test]
fn warm_names_are_kept_by_their_number() {
    let mut names: HashMap<u64, String> = HashMap::new();
    let mut app = test_app();
    for id in 0..3 {
        app.handle_event(AppEvent::PlaylistWarmed(id, format!("p{id}"), vec![online(id)]), NOW);
        names.insert(id, format!("p{id}"));
    }
    for (id, name) in names {
        assert_eq!(app.warm.playlist_tracks[&id].name, name);
    }
}

#[test]
fn the_lyrics_are_closed_and_opened() {
    let mut app = test_app();
    app.focus = Focus::Content;
    app.handle_key(key(KeyCode::Char('l')), NOW);
    assert_eq!(app.focus, Focus::Lyrics);
    app.handle_key(key(KeyCode::Char('h')), NOW);
    assert!(app.hide_lyrics);
    assert_eq!(app.focus, Focus::Content);
    assert!(matches!(&app.take_commands()[..], [Command::SaveLyricsClosed(true)]));
    app.place_on(Rect::new(0, 0, 160, 30));
    assert_eq!(app.hits.lyrics, Rect::default());
    assert_eq!(app.hits.content.right(), 159);
    app.handle_key(key(KeyCode::Tab), NOW);
    assert_eq!(app.focus, Focus::Navigation);
    app.handle_key(key(KeyCode::Char('h')), NOW);
    assert!(!app.hide_lyrics);
    app.place_on(Rect::new(0, 0, 160, 30));
    assert!(app.hits.lyrics.width > 0);
}

#[test]
fn commands_are_found_by_name() {
    let mut app = test_app();
    app.handle_key(KeyEvent::new(KeyCode::Char('p'), CONTROL), NOW);
    assert_eq!(app.prompt.mode, InputMode::Palette);
    assert_eq!(app.found_commands().len(), palette_items().len());
    for character in "import".chars() {
        app.handle_key(key(KeyCode::Char(character)), NOW);
    }
    let found = app.found_commands();
    assert_eq!(palette_items()[found[0]].title, "导入本地音乐");
    app.handle_key(key(KeyCode::Enter), NOW);
    assert_eq!(app.prompt.mode, InputMode::Import);

    app.handle_key(KeyEvent::new(KeyCode::Char('p'), CONTROL), NOW);
    app.handle_key(key(KeyCode::Down), NOW);
    app.handle_key(key(KeyCode::Down), NOW);
    app.handle_key(key(KeyCode::Up), NOW);
    assert_eq!(app.overlay.palette_selected, 1);
    app.handle_key(key(KeyCode::Enter), NOW);
    assert_eq!(app.route, Route::Recommended);

    app.handle_key(KeyEvent::new(KeyCode::Char('p'), CONTROL), NOW);
    app.prompt.input = "zzzz".into();
    app.handle_key(key(KeyCode::Enter), NOW);
    assert_eq!(app.prompt.mode, InputMode::Palette);
    app.handle_key(key(KeyCode::Esc), NOW);
    assert_eq!(app.prompt.mode, InputMode::Normal);
}

#[test]
fn the_navigation_opens_what_is_written() {
    let app = test_app();
    for height in [18, 19, 25] {
        let grouped = grouped_navigation(height);
        for (row, line) in app.navigation_lines(grouped).iter().enumerate() {
            assert_eq!(nav_index_at(row, height), line.entry);
        }
    }
}

#[test]
fn a_size_for_editing_reads_back() {
    for bytes in [1, 7, 1 << 10, 1 << 20, 3 << 20, 1 << 30, 5 << 30, (1 << 53) - 1, 1 << 53] {
        assert_eq!(parse_cache_size(&format_cache_size_input(bytes)), Ok(bytes));
    }
    assert!(parse_cache_size(&format_cache_size_input(0)).is_err());
}

#[test]
fn bad_cache_sizes_are_told_apart() {
    assert!(parse_cache_size("").unwrap_err().contains("请输入"));
    assert!(parse_cache_size("huge").unwrap_err().contains("格式"));
    assert!(parse_cache_size("0").is_err());
    assert!(parse_cache_size("99999999999999999999G").is_err());
    assert_eq!(parse_cache_size(" 1 KiB "), Ok(1024));
}
