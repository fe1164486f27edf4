//! What comes back from the work outside, and what it does to the state.

use vstd::prelude::*;

use crate::auth::{Identity, QrChallenge, QrStatus};
use crate::discovery::{OnlineTrack, PlaylistInfo, PlaylistSummary, RankInfo, RankedTrack, TrackInfo};
use crate::download::DownloadReport;
use crate::library::ScanReport;
use crate::lyrics::{Lyrics, LyricsView};
use crate::ncm_core::api::user::ListeningRank;
use crate::organizer::MoveOutcome;
use crate::playback_cache::{CacheStats, ClearReport};
use crate::text::{chars_of, decimal, decimal_text, starts_with, text_option};
use crate::time::Instant;
use crate::tui::app::{
    warm_infos, AccountView, App, AppView, JobsView, PaneView, PlaybackView, SetupView, WarmInfo, WarmPlaylist,
    WarmView,
};
use crate::tui::command::{CommandInfo, LoadInfo};
use crate::tui::format::{format_bytes, size_text};
use crate::tui::playing::{lyrics_result, unit_result};
use crate::tui::routes::{JobKind, Route};
use crate::tui::rows::{
    column_infos, copy_playlists, copy_ranked, copy_tracks, loaded_result, playlist_infos, rank_infos, rows_of_online,
    track_infos, ColumnInfo, Content, ContentInfo, Loaded, LoadedInfo, LyricsInfo, LyricsState, TrackRow,
};

verus! {

#[derive(Debug)]
pub enum AppEvent {
    Identity(Result<Identity, String>),
    Loaded(u64, Result<Loaded, String>),
    ColumnLoaded(u64, Result<Loaded, String>),
    StreamReady(u64, TrackRow, Result<(), String>),
    LoginStarted(Result<QrChallenge, String>),
    LoginPolled(Result<QrStatus, String>),
    DownloadFinished(u64, Result<DownloadReport, String>),
    OrganizeFinished(u64, Result<Option<MoveOutcome>, String>),
    ScanFinished(u64, Result<ScanReport, String>),
    LyricsLoaded(u64, Result<Lyrics, String>),
    DailyWarmed(Vec<OnlineTrack>),
    RecommendedWarmed(Vec<PlaylistSummary>),
    UserPlaylistsWarmed(Vec<PlaylistSummary>),
    PlaylistWarmed(u64, String, Vec<OnlineTrack>),
    ListeningRankWarmed(ListeningRank, Vec<RankedTrack>),
    MetadataWarmFinished,
    CacheLimitUpdated(Result<CacheStats, String>),
    CacheCleared(Result<ClearReport, String>),
}

/// Whether an event only fills what is loaded ahead.
pub open spec fn only_warms(event: AppEvent) -> bool {
    event is DailyWarmed || event is RecommendedWarmed || event is UserPlaylistsWarmed || event is PlaylistWarmed
        || event is ListeningRankWarmed || event is MetadataWarmFinished
}

/// The text of a code to be scanned, in blocks that each stand for two modules,
/// one above the other, or nothing if the data is too long for a code.
pub uninterp spec fn qr_code_text(data: Seq<char>) -> Option<Seq<char>>;

/// `qrcode::QrCode::new` on the bytes of a text, and the code rendered with
/// `qrcode::render::unicode::Dense1x2`, with the quiet zone, one module per
/// block. The text depends on the data alone.
#[verifier::external_body]
fn render_qr(data: &str) -> (r: Option<String>)
    ensures
        text_option(r) == qr_code_text(data@),
{
    qrcode::QrCode::new(data.as_bytes()).ok().map(
        |code| code.render::<qrcode::render::unicode::Dense1x2>().quiet_zone(true).module_dimensions(1, 1).build(),
    )
}

/// The first column with a number, or their count if there is none.
pub open spec fn column_with(columns: Seq<ColumnInfo>, id: u64) -> int
    decreases columns.len(),
{
    if columns.len() == 0 {
        0
    } else if columns[0].id == id {
        0
    } else {
        1 + column_with(columns.skip(1), id)
    }
}

proof fn lemma_column_with(columns: Seq<ColumnInfo>, id: u64, k: int)
    requires
        0 <= k <= columns.len(),
        forall|j: int| 0 <= j < k ==> (#[trigger] columns[j]).id != id,
        k < columns.len() ==> columns[k].id == id,
    ensures
        column_with(columns, id) == k,
    decreases k,
{
    if k > 0 {
        let rest = columns.skip(1);
        assert(columns[0].id != id);
        assert forall|j: int| 0 <= j < k - 1 implies (#[trigger] rest[j]).id != id by {
            assert(rest[j] == columns[j + 1]);
        }
        if k < columns.len() {
            assert(rest[k - 1] == columns[k]);
        }
        lemma_column_with(rest, id, k - 1);
    }
}

pub open spec fn download_text(downloaded: nat, existing: nat, unavailable: nat) -> Seq<char> {
    "已下载 "@ + decimal(downloaded) + " · 已存在 "@ + decimal(existing) + " · 不可用 "@ + decimal(unavailable)
}

pub open spec fn scan_text(imported: bool, report: ScanReport) -> Seq<char> {
    (if imported {
        "导入完成"@
    } else {
        "扫描完成"@
    }) + " · 发现 "@ + decimal(report.discovered as nat) + " · 新增 "@ + decimal(report.added as nat) + " · 更新 "@ + decimal(
        report.updated as nat,
    ) + " · 缺失 "@ + decimal(report.missing as nat)
}

pub open spec fn cleared_text(report: ClearReport) -> Seq<char> {
    if report.retained_active > 0 {
        "已清除 "@ + size_text(report.removed_bytes as nat) + "，保留 "@ + decimal(report.retained_active as nat)
            + " 个正在播放/下载的缓存文件"@
    } else {
        "已清除 "@ + size_text(report.removed_bytes as nat) + " 播放缓存"@
    }
}

impl AppView {
    pub open spec fn identity_known(self, result: Result<Identity, Seq<char>>) -> AppView {
        match result {
            Ok(identity) => AppView {
                account: AccountView { auth_pending: false, identity: Some(identity), ..self.account },
                ..self
            }.warm_up_started(),
            Err(_) => AppView { account: AccountView { auth_pending: false, ..self.account }, ..self },
        }
    }

    /// What was loaded stays at hand for the next time.
    pub open spec fn remembered(self, loaded: LoadedInfo) -> WarmView {
        match loaded {
            LoadedInfo::Tracks(_, tracks) => if self.route == Route::Daily {
                WarmView { daily: Some(tracks), ..self.warm }
            } else {
                self.warm
            },
            LoadedInfo::RankedTracks(_, tracks) => if self.route == Route::ListeningRank {
                WarmView { listening_week: Some(tracks), ..self.warm }
            } else {
                self.warm
            },
            LoadedInfo::Playlists(list) => if self.route == Route::Recommended {
                WarmView { recommended: Some(list), ..self.warm }
            } else {
                self.warm
            },
            _ => self.warm,
        }
    }

    /// Whether the status tells the outcome of a scan.
    pub open spec fn tells_scan(self) -> bool {
        "扫描完成"@.is_prefix_of(self.status) || "导入完成"@.is_prefix_of(self.status)
    }

    /// The first pane is loaded, or has failed to be. What it does not wait for
    /// any more is dropped.
    #[verifier::opaque]
    pub open spec fn page_loaded(self, generation: u64, result: Result<LoadedInfo, Seq<char>>) -> AppView {
        if generation != self.pane.generation {
            self
        } else {
            match result {
                Ok(loaded) => AppView {
                    warm: self.remembered(loaded),
                    pane: PaneView {
                        title: match loaded.title() {
                            Some(title) => title,
                            None => self.pane.title,
                        },
                        content: loaded.content(),
                        loading: false,
                        selected: 0,
                        ..self.pane
                    },
                    setup: match loaded {
                        LoadedInfo::LocalTracks(_, _, stats) => SetupView { local_stats: stats, ..self.setup },
                        _ => self.setup,
                    },
                    status: if loaded is LocalTracks && self.tells_scan() {
                        self.status
                    } else {
                        seq![]
                    },
                    ..self
                },
                Err(message) => AppView {
                    pane: PaneView { content: ContentInfo::Empty, loading: false, selected: 0, ..self.pane },
                    status: message,
                    ..self
                },
            }
        }
    }

    /// A column is loaded, or has failed to be. What a closed one waited for is
    /// dropped.
    pub open spec fn column_loaded(self, id: u64, result: Result<LoadedInfo, Seq<char>>) -> AppView {
        let k = column_with(self.columns, id);
        if k < self.columns.len() {
            AppView { columns: self.columns.update(k, self.columns[k].loaded(result)), ..self }
        } else {
            self
        }
    }

    /// A login is offered: its code is shown, and it is asked at once whether it
    /// was scanned.
    pub open spec fn challenge_taken(self, challenge: QrChallenge, qr: Seq<char>, now: Instant) -> AppView {
        AppView {
            account: AccountView {
                auth_pending: false,
                qr,
                challenge: Some(challenge),
                login_status: "使用网易云音乐 App 扫码并确认"@,
                login_polling: true,
                next_login_poll: now,
                ..self.account
            },
            ..self
        }
    }

    pub open spec fn login_offered(self, result: Result<QrChallenge, Seq<char>>, now: Instant) -> AppView {
        match result {
            Ok(challenge) => self.challenge_taken(
                challenge,
                match qr_code_text(challenge.url@) {
                    Some(text) => text,
                    None => seq![],
                },
                now,
            ),
            Err(message) => AppView {
                account: AccountView { auth_pending: false, login_status: message, ..self.account },
                ..self
            },
        }
    }

    /// How a login stands; polling goes on or ends.
    pub open spec fn login_told(self, text: Seq<char>, polling: bool) -> AppView {
        AppView {
            account: AccountView {
                auth_pending: false,
                login_status: text,
                login_polling: self.account.login_polling && polling,
                ..self.account
            },
            ..self
        }
    }

    /// Somebody has logged in: the pane is opened again.
    #[verifier::opaque]
    pub open spec fn logged_in(self, identity: Identity) -> AppView {
        let known = AppView {
            account: AccountView {
                auth_pending: false,
                login_status: "登录成功："@ + identity.nickname@,
                identity: Some(identity),
                ..self.account
            },
            ..self
        }.warm_up_started();
        let done = AppView {
            account: AccountView { login_polling: false, challenge: None, ..known.account },
            ..known
        };
        if self.route != Route::Account {
            done.route_set(self.route)
        } else {
            done
        }
    }

    #[verifier::opaque]
    pub open spec fn login_answered(self, result: Result<QrStatus, Seq<char>>) -> AppView {
        match result {
            Ok(QrStatus::Waiting) => self.login_told("等待扫码…"@, true),
            Ok(QrStatus::Scanned) => self.login_told("已扫码，请在手机上确认"@, true),
            Ok(QrStatus::Authenticated(identity)) => self.logged_in(identity),
            Ok(QrStatus::Expired) => self.login_told("二维码已过期，按 L 刷新"@, false),
            Ok(QrStatus::RiskControlled) => self.login_told("登录触发风控，请稍后重试"@, false),
            Err(message) => self.login_told(message, false),
        }
    }

    /// Whether a job is the one that runs.
    pub open spec fn runs(self, id: u64) -> bool {
        match self.jobs.active_job {
            Some(job) => job.id == id,
            None => false,
        }
    }

    pub open spec fn job_ended(self) -> AppView {
        AppView { jobs: JobsView { active_job: None, ..self.jobs }, ..self }
    }

    pub open spec fn download_finished(self, id: u64, result: Result<(nat, nat, nat), Seq<char>>) -> AppView {
        if !self.runs(id) {
            self
        } else {
            match result {
                Ok((downloaded, existing, unavailable)) => self.job_ended().said(
                    download_text(downloaded, existing, unavailable),
                ).local_load_started(),
                Err(message) => self.job_ended().said(message),
            }
        }
    }

    pub open spec fn organize_finished(self, id: u64, result: Result<Option<MoveOutcome>, Seq<char>>) -> AppView {
        if !self.runs(id) {
            self
        } else {
            self.job_ended().said(
                match result {
                    Ok(Some(MoveOutcome::Moved { from, to, bytes })) => "整理完成"@,
                    Ok(Some(MoveOutcome::Skipped(_))) => "无需整理"@,
                    Ok(Some(MoveOutcome::Conflict(_))) => "目标文件已存在"@,
                    Ok(None) => "缺少 NCM 元数据"@,
                    Err(message) => message,
                },
            ).local_load_started()
        }
    }

    pub open spec fn scan_finished(self, id: u64, result: Result<ScanReport, Seq<char>>) -> AppView {
        if !self.runs(id) {
            self
        } else {
            match result {
                Ok(report) => self.job_ended().said(
                    scan_text(self.jobs.active_job->0.kind == JobKind::Import, report),
                ).local_load_started(),
                Err(message) => self.job_ended().said(message),
            }
        }
    }

    /// The lyrics of a track have come; those of another track are dropped.
    pub open spec fn lyrics_loaded(self, song_id: u64, result: Result<LyricsView, Seq<char>>) -> AppView {
        if self.playback.current != Some(song_id) {
            self
        } else {
            AppView {
                playback: PlaybackView {
                    lyrics: match result {
                        Ok(lyrics) => LyricsInfo::Ready(song_id, lyrics),
                        Err(message) => LyricsInfo::Error(song_id, message),
                    },
                    ..self.playback
                },
                ..self
            }
        }
    }

    pub open spec fn warmed(self, warm: WarmView) -> AppView {
        AppView { warm, ..self }
    }

    pub open spec fn cache_told(self, text: Seq<char>) -> AppView {
        AppView { jobs: JobsView { cache_pending: false, ..self.jobs }, ..self }.said(text)
    }

    /// What an event does.
    pub open spec fn handled(self, event: AppEvent, now: Instant) -> AppView {
        match event {
            AppEvent::Identity(result) => self.identity_known(told(result)),
            AppEvent::Loaded(generation, result) => self.page_loaded(generation, loaded_result(result)),
            AppEvent::ColumnLoaded(id, result) => self.column_loaded(id, loaded_result(result)),
            AppEvent::StreamReady(generation, track, result) => self.stream_ready(generation, track@, unit_result(result)),
            AppEvent::LoginStarted(result) => self.login_offered(told(result), now),
            AppEvent::LoginPolled(result) => self.login_answered(told(result)),
            AppEvent::DownloadFinished(id, result) => self.download_finished(id, report_counts(result)),
            AppEvent::OrganizeFinished(id, result) => self.organize_finished(id, told(result)),
            AppEvent::ScanFinished(id, result) => self.scan_finished(id, told(result)),
            AppEvent::LyricsLoaded(song_id, result) => self.lyrics_loaded(song_id, lyrics_result(result)),
            AppEvent::DailyWarmed(tracks) => self.warmed(WarmView { daily: Some(track_infos(tracks@)), ..self.warm }),
            AppEvent::RecommendedWarmed(list) => self.warmed(
                WarmView { recommended: Some(playlist_infos(list@)), ..self.warm },
            ),
            AppEvent::UserPlaylistsWarmed(list) => self.warmed(
                WarmView { playlists: Some(playlist_infos(list@)), ..self.warm },
            ),
            AppEvent::PlaylistWarmed(id, name, tracks) => self.warmed(
                WarmView {
                    playlist_tracks: self.warm.playlist_tracks.insert(
                        id,
                        WarmInfo { name: name@, tracks: track_infos(tracks@) },
                    ),
                    ..self.warm
                },
            ),
            AppEvent::ListeningRankWarmed(ListeningRank::Week, tracks) => self.warmed(
                WarmView { listening_week: Some(rank_infos(tracks@)), ..self.warm },
            ),
            AppEvent::ListeningRankWarmed(ListeningRank::All, tracks) => self.warmed(
                WarmView { listening_all: Some(rank_infos(tracks@)), ..self.warm },
            ),
            AppEvent::MetadataWarmFinished => self.warmed(WarmView { warming: false, ..self.warm }),
            AppEvent::CacheLimitUpdated(result) => self.cache_told(
                match result {
                    Ok(stats) => "播放缓存上限已设为 "@ + size_text(stats.max_bytes as nat) + "，当前使用 "@ + size_text(
                        stats.used_bytes as nat,
                    ),
                    Err(message) => "设置播放缓存失败："@ + message@,
                },
            ),
            AppEvent::CacheCleared(result) => self.cache_told(
                match result {
                    Ok(report) => cleared_text(report),
                    Err(message) => "清除播放缓存失败："@ + message@,
                },
            ),
        }
    }
}

/// A result with its message as text.
pub open spec fn told<T>(result: Result<T, String>) -> Result<T, Seq<char>> {
    match result {
        Ok(value) => Ok(value),
        Err(message) => Err(message@),
    }
}

pub open spec fn report_counts(result: Result<DownloadReport, String>) -> Result<(nat, nat, nat), Seq<char>> {
    match result {
        Ok(report) => Ok((report.downloaded@.len(), report.skipped_existing@.len(), report.unavailable@.len())),
        Err(message) => Err(message@),
    }
}

impl App {
    fn take_identity(&mut self, result: Result<Identity, String>)
        ensures
            old(self)@.wf() ==> final(self)@.wf(),
            final(self)@ == old(self)@.identity_known(told(result)),
    {
        self.account.auth_pending = false;
        if let Ok(identity) = result {
            self.account.identity = Some(identity);
            self.start_metadata_warmup();
        }
    }

    fn remember(&mut self, loaded: &Loaded)
        ensures
            final(self)@ == (AppView { warm: old(self)@.remembered(loaded@), ..old(self)@ }),
    {
        match loaded {
            Loaded::Tracks(_, tracks) => {
                if self.route == Route::Daily {
                    self.warm.daily = Some(copy_tracks(tracks));
                }
            },
            Loaded::RankedTracks(_, tracks) => {
                if self.route == Route::ListeningRank {
                    self.warm.listening_week = Some(copy_ranked(tracks));
                }
            },
            Loaded::Playlists(list) => {
                if self.route == Route::Recommended {
                    self.warm.recommended = Some(copy_playlists(list));
                }
            },
            _ => {},
        }
    }

    fn status_tells_scan(&self) -> (r: bool)
        ensures
            r == self@.tells_scan(),
    {
        let status = chars_of(self.status.as_str());
        starts_with(status.as_slice(), chars_of("扫描完成").as_slice()) || starts_with(
            status.as_slice(),
            chars_of("导入完成").as_slice(),
        )
    }

    fn finish_load(&mut self, generation: u64, result: Result<Loaded, String>)
        ensures
            old(self)@.wf() ==> final(self)@.wf(),
            final(self)@ == old(self)@.page_loaded(generation, loaded_result(result)),
    {
        proof {
            reveal(AppView::page_loaded);
        }
        if generation != self.pane.generation {
            return;
        }
        self.pane.loading = false;
        self.pane.selected = 0;
        match result {
            Ok(loaded) => {
                self.remember(&loaded);
                let keep: bool = match &loaded {
                    Loaded::LocalTracks(_, _, stats) => {
                        self.setup.local_stats = *stats;
                        self.status_tells_scan()
                    },
                    _ => false,
                };
                if !keep {
                    self.status = String::new();
                    proof {
                        assert(self.status@ =~= seq![]);
                    }
                }
                let (title, content) = loaded.into_parts();
                if let Some(text) = title {
                    self.pane.title = text;
                }
                self.pane.content = content;
            },
            Err(message) => {
                self.pane.content = Content::Empty;
                self.status = message;
            },
        }
    }

    fn finish_column(&mut self, id: u64, result: Result<Loaded, String>)
        ensures
            old(self)@.wf() ==> final(self)@.wf(),
            final(self)@ == old(self)@.column_loaded(id, loaded_result(result)),
    {
        let ghost before = self@;
        let mut k: usize = 0;
        while k < self.columns.len() && self.columns[k].id != id
            invariant
                k <= self.columns@.len(),
                self@ == before,
                forall|j: int| 0 <= j < k ==> (#[trigger] before.columns[j]).id != id,
            ensures
                k <= self.columns@.len(),
                self@ == before,
                forall|j: int| 0 <= j < k ==> (#[trigger] before.columns[j]).id != id,
                k < self.columns@.len() ==> self.columns@[k as int].id == id,
            decreases self.columns@.len() - k,
        {
            proof {
                assert(before.columns[k as int] == self.columns@[k as int]@);
            }
            k += 1;
        }
        proof {
            if k < self.columns@.len() {
                assert(before.columns[k as int] == self.columns@[k as int]@);
            }
            lemma_column_with(before.columns, id, k as int);
        }
        if k < self.columns.len() {
            let ghost held = self.columns@;
            let ghost wanted = before.columns[k as int].loaded(loaded_result(result));
            let column = &mut self.columns[k];
            column.finish(result);
            proof {
                assert(column_infos(self.columns@) =~= column_infos(held).update(k as int, wanted));
            }
        }
    }

    /// Takes a login that is offered, with the text of its code.
    pub fn take_challenge(&mut self, challenge: QrChallenge, qr: String, now: Instant)
        ensures
            old(self)@.wf() ==> final(self)@.wf(),
            final(self)@ == old(self)@.challenge_taken(challenge, qr@, now),
    {
        self.account.auth_pending = false;
        self.account.qr = qr;
        self.account.challenge = Some(challenge);
        self.account.login_status = "使用网易云音乐 App 扫码并确认".to_owned();
        self.account.login_polling = true;
        self.account.next_login_poll = now;
    }

    fn offer_login(&mut self, result: Result<QrChallenge, String>, now: Instant)
        ensures
            old(self)@.wf() ==> final(self)@.wf(),
            final(self)@ == old(self)@.login_offered(told(result), now),
    {
        match result {
            Ok(challenge) => {
                let qr: String = match render_qr(challenge.url.as_str()) {
                    Some(text) => text,
                    None => {
                        let none: String = String::new();
                        proof {
                            assert(none@ =~= seq![]);
                        }
                        none
                    },
                };
                self.take_challenge(challenge, qr, now);
            },
            Err(message) => {
                self.account.auth_pending = false;
                self.account.login_status = message;
            },
        }
    }

    fn tell_login(&mut self, text: String, polling: bool)
        ensures
            old(self)@.wf() ==> final(self)@.wf(),
            final(self)@ == old(self)@.login_told(text@, polling),
    {
        self.account.auth_pending = false;
        self.account.login_status = text;
        if !polling {
            self.account.login_polling = false;
        }
    }

    fn log_in(&mut self, identity: Identity)
        ensures
            old(self)@.wf() ==> final(self)@.wf(),
            final(self)@ == old(self)@.logged_in(identity),
    {
        proof {
            reveal(AppView::logged_in);
        }
        let route: Route = self.route;
        self.account.auth_pending = false;
        let mut status: String = "登录成功：".to_owned();
        status.append(identity.nickname.as_str());
        self.account.login_status = status;
        self.account.identity = Some(identity);
        self.start_metadata_warmup();
        self.account.login_polling = false;
        self.account.challenge = None;
        if route != Route::Account {
            self.set_route(route);
        }
    }

    fn answer_login(&mut self, result: Result<QrStatus, String>)
        ensures
            old(self)@.wf() ==> final(self)@.wf(),
            final(self)@ == old(self)@.login_answered(told(result)),
    {
        proof {
            reveal(AppView::login_answered);
        }
        match result {
            Ok(QrStatus::Waiting) => self.tell_login("等待扫码…".to_owned(), true),
            Ok(QrStatus::Scanned) => self.tell_login("已扫码，请在手机上确认".to_owned(), true),
            Ok(QrStatus::Authenticated(identity)) => self.log_in(identity),
            Ok(QrStatus::Expired) => self.tell_login("二维码已过期，按 L 刷新".to_owned(), false),
            Ok(QrStatus::RiskControlled) => self.tell_login("登录触发风控，请稍后重试".to_owned(), false),
            Err(message) => self.tell_login(message, false),
        }
    }

    fn job_runs(&self, id: u64) -> (r: bool)
        ensures
            r == self@.runs(id),
    {
        match self.jobs.active_job {
            Some(job) => job.id == id,
            None => false,
        }
    }

    fn finish_download(&mut self, id: u64, result: Result<DownloadReport, String>)
        ensures
            old(self)@.wf() ==> final(self)@.wf(),
            final(self)@ == old(self)@.download_finished(id, report_counts(result)),
    {
        if !self.job_runs(id) {
            return;
        }
        self.jobs.active_job = None;
        match result {
            Ok(report) => {
                let mut text: String = "已下载 ".to_owned();
                text.append(decimal_text(report.downloaded.len() as u64).as_str());
                text.append(" · 已存在 ");
                text.append(decimal_text(report.skipped_existing.len() as u64).as_str());
                text.append(" · 不可用 ");
                text.append(decimal_text(report.unavailable.len() as u64).as_str());
                self.status = text;
                self.load_local();
            },
            Err(message) => {
                self.status = message;
            },
        }
    }

    fn finish_organize(&mut self, id: u64, result: Result<Option<MoveOutcome>, String>)
        ensures
            old(self)@.wf() ==> final(self)@.wf(),
            final(self)@ == old(self)@.organize_finished(id, told(result)),
    {
        if !self.job_runs(id) {
            return;
        }
        self.jobs.active_job = None;
        let text: String = match result {
            Ok(Some(MoveOutcome::Moved { from: _, to: _, bytes: _ })) => "整理完成".to_owned(),
            Ok(Some(MoveOutcome::Skipped(_))) => "无需整理".to_owned(),
            Ok(Some(MoveOutcome::Conflict(_))) => "目标文件已存在".to_owned(),
            Ok(None) => "缺少 NCM 元数据".to_owned(),
            Err(message) => message,
        };
        self.status = text;
        self.load_local();
    }

    fn finish_scan(&mut self, id: u64, result: Result<ScanReport, String>)
        ensures
            old(self)@.wf() ==> final(self)@.wf(),
            final(self)@ == old(self)@.scan_finished(id, told(result)),
    {
        let imported: bool = match self.jobs.active_job {
            Some(job) => {
                if job.id != id {
                    return;
                }
                job.kind == JobKind::Import
            },
            None => {
                return;
            },
        };
        self.jobs.active_job = None;
        match result {
            Ok(report) => {
                let mut text: String = if imported {
                    "导入完成".to_owned()
                } else {
                    "扫描完成".to_owned()
                };
                text.append(" · 发现 ");
                text.append(decimal_text(report.discovered as u64).as_str());
                text.append(" · 新增 ");
                text.append(decimal_text(report.added as u64).as_str());
                text.append(" · 更新 ");
                text.append(decimal_text(report.updated as u64).as_str());
                text.append(" · 缺失 ");
                text.append(decimal_text(report.missing as u64).as_str());
                self.status = text;
                self.load_local();
            },
            Err(message) => {
                self.status = message;
            },
        }
    }

    fn finish_lyrics(&mut self, song_id: u64, result: Result<Lyrics, String>)
        ensures
            old(self)@.wf() ==> final(self)@.wf(),
            final(self)@ == old(self)@.lyrics_loaded(song_id, lyrics_result(result)),
    {
        match self.playback.current {
            Some(id) => {
                if id != song_id {
                    return;
                }
            },
            None => {
                return;
            },
        }
        self.playback.lyrics = match result {
            Ok(lyrics) => LyricsState::Ready(song_id, lyrics),
            Err(message) => LyricsState::Error(song_id, message),
        };
    }

    fn warm_playlist(&mut self, id: u64, name: String, tracks: Vec<OnlineTrack>)
        ensures
            old(self)@.wf() ==> final(self)@.wf(),
            final(self)@ == old(self)@.warmed(
                WarmView {
                    playlist_tracks: old(self)@.warm.playlist_tracks.insert(
                        id,
                        WarmInfo { name: name@, tracks: track_infos(tracks@) },
                    ),
                    ..old(self)@.warm
                },
            ),
    {
        let ghost held = self.warm.playlist_tracks@;
        let playlist = WarmPlaylist { name, tracks };
        let ghost info = playlist@;
        self.warm.playlist_tracks.insert(id, playlist);
        proof {
            assert(warm_infos(self.warm.playlist_tracks@) =~= warm_infos(held).insert(id, info));
        }
    }

    fn tell_cache_limit(&mut self, result: Result<CacheStats, String>)
        ensures
            old(self)@.wf() ==> final(self)@.wf(),
            final(self)@ == old(self)@.cache_told(
                match result {
                    Ok(stats) => "播放缓存上限已设为 "@ + size_text(stats.max_bytes as nat) + "，当前使用 "@ + size_text(
                        stats.used_bytes as nat,
                    ),
                    Err(message) => "设置播放缓存失败："@ + message@,
                },
            ),
    {
        self.jobs.cache_pending = false;
        let text: String = match result {
            Ok(stats) => {
                let mut text: String = "播放缓存上限已设为 ".to_owned();
                text.append(format_bytes(stats.max_bytes).as_str());
                text.append("，当前使用 ");
                text.append(format_bytes(stats.used_bytes).as_str());
                text
            },
            Err(message) => {
                let mut text: String = "设置播放缓存失败：".to_owned();
                text.append(message.as_str());
                text
            },
        };
        self.status = text;
    }

    fn tell_cache_cleared(&mut self, result: Result<ClearReport, String>)
        ensures
            old(self)@.wf() ==> final(self)@.wf(),
            final(self)@ == old(self)@.cache_told(
                match result {
                    Ok(report) => cleared_text(report),
                    Err(message) => "清除播放缓存失败："@ + message@,
                },
            ),
    {
        self.jobs.cache_pending = false;
        let text: String = match result {
            Ok(report) => {
                let mut text: String = "已清除 ".to_owned();
                text.append(format_bytes(report.removed_bytes).as_str());
                if report.retained_active > 0 {
                    text.append("，保留 ");
                    text.append(decimal_text(report.retained_active as u64).as_str());
                    text.append(" 个正在播放/下载的缓存文件");
                } else {
                    text.append(" 播放缓存");
                }
                text
            },
            Err(message) => {
                let mut text: String = "清除播放缓存失败：".to_owned();
                text.append(message.as_str());
                text
            },
        };
        self.status = text;
    }

    /// Takes an event, and says whether the screen has to be drawn again.
    pub fn handle_event(&mut self, event: AppEvent, now: Instant) -> (r: bool)
        ensures
            old(self)@.wf() ==> final(self)@.wf(),
            final(self)@ == old(self)@.handled(event, now),
            r == !only_warms(event),
    {
        match event {
            AppEvent::Identity(result) => {
                self.take_identity(result);
                true
            },
            AppEvent::Loaded(generation, result) => {
                self.finish_load(generation, result);
                true
            },
            AppEvent::ColumnLoaded(id, result) => {
                self.finish_column(id, result);
                true
            },
            AppEvent::StreamReady(generation, track, result) => {
                self.start_stream_playback(generation, track, result);
                true
            },
            AppEvent::LoginStarted(result) => {
                self.offer_login(result, now);
                true
            },
            AppEvent::LoginPolled(result) => {
                self.answer_login(result);
                true
            },
            AppEvent::DownloadFinished(id, result) => {
                self.finish_download(id, result);
                true
            },
            AppEvent::OrganizeFinished(id, result) => {
                self.finish_organize(id, result);
                true
            },
            AppEvent::ScanFinished(id, result) => {
                self.finish_scan(id, result);
                true
            },
            AppEvent::LyricsLoaded(song_id, result) => {
                self.finish_lyrics(song_id, result);
                true
            },
            AppEvent::DailyWarmed(tracks) => {
                self.warm.daily = Some(tracks);
                false
            },
            AppEvent::RecommendedWarmed(list) => {
                self.warm.recommended = Some(list);
                false
            },
            AppEvent::UserPlaylistsWarmed(list) => {
                self.warm.playlists = Some(list);
                false
            },
            AppEvent::PlaylistWarmed(id, name, tracks) => {
                self.warm_playlist(id, name, tracks);
                false
            },
            AppEvent::ListeningRankWarmed(ListeningRank::Week, tracks) => {
                self.warm.listening_week = Some(tracks);
                false
            },
            AppEvent::ListeningRankWarmed(ListeningRank::All, tracks) => {
                self.warm.listening_all = Some(tracks);
                false
            },
            AppEvent::MetadataWarmFinished => {
                self.warm.warming = false;
                false
            },
            AppEvent::CacheLimitUpdated(result) => {
                self.tell_cache_limit(result);
                true
            },
            AppEvent::CacheCleared(result) => {
                self.tell_cache_cleared(result);
                true
            },
        }
    }

    /// Whether something on the screen moves by itself.
    pub fn needs_animation(&self) -> (r: bool)
        ensures
            r == self@.animated(),
    {
        if self.pane.loading || self.jobs.active_job.is_some() {
            return true;
        }
        if let LyricsState::Loading(_) = self.playback.lyrics {
            return true;
        }
        let state = &self.playback.player_state;
        if state.title.as_str().unicode_len() > 0 && !state.paused && !state.finished {
            return true;
        }
        let ghost all = self@.columns;
        let mut i: usize = 0;
        while i < self.columns.len()
            invariant
                i <= self.columns@.len(),
                all == self@.columns,
                forall|k: int| 0 <= k < i ==> !((#[trigger] all[k]).phase is Loading),
            decreases self.columns@.len() - i,
        {
            proof {
                assert(all[i as int] == self.columns@[i as int]@);
            }
            if self.columns[i].is_loading() {
                return true;
            }
            i += 1;
        }
        false
    }
}

impl AppView {
    pub open spec fn animated(self) -> bool {
        ||| self.pane.loading
        ||| exists|k: int| 0 <= k < self.columns.len() && (#[trigger] self.columns[k]).phase is Loading
        ||| self.jobs.active_job is Some
        ||| self.playback.lyrics is Loading
        ||| (self.playback.player_state.title@.len() > 0 && !self.playback.player_state.paused
            && !self.playback.player_state.finished)
    }
}

/// An answer that nothing waits for any more changes nothing: one for an earlier
/// page, for a closed column, an earlier stream, a job that was given up, or the
/// lyrics of another track.
pub proof fn lemma_stale_answers_change_nothing(app: AppView, event: AppEvent, now: Instant)
    requires
        match event {
            AppEvent::Loaded(generation, _) => generation != app.pane.generation,
            AppEvent::ColumnLoaded(id, _) => forall|k: int|
                0 <= k < app.columns.len() ==> (#[trigger] app.columns[k]).id != id,
            AppEvent::StreamReady(generation, _, _) => generation != app.playback.stream_generation,
            AppEvent::DownloadFinished(id, _) => !app.runs(id),
            AppEvent::OrganizeFinished(id, _) => !app.runs(id),
            AppEvent::ScanFinished(id, _) => !app.runs(id),
            AppEvent::LyricsLoaded(song_id, _) => app.playback.current != Some(song_id),
            _ => false,
        },
    ensures
        app.handled(event, now) == app,
{
    reveal(AppView::page_loaded);
    if let AppEvent::ColumnLoaded(id, _) = event {
        lemma_column_with(app.columns, id, app.columns.len() as int);
    }
}

/// An event that only fills what is loaded ahead changes nothing that is shown,
/// and asks for nothing.
pub proof fn lemma_warming_is_quiet(app: AppView, event: AppEvent, now: Instant)
    requires
        only_warms(event),
    ensures
        app.handled(event, now) == (AppView { warm: app.handled(event, now).warm, ..app }),
{
}

/// What the answer to a column does stays in that column.
pub proof fn lemma_column_answers_are_local(app: AppView, id: u64, result: Result<LoadedInfo, Seq<char>>, k: int)
    requires
        0 <= k < app.columns.len(),
        app.columns[k].id != id,
    ensures
        app.column_loaded(id, result).columns.len() == app.columns.len(),
        app.column_loaded(id, result).columns[k] == app.columns[k],
        app.column_loaded(id, result).status == app.status,
        app.column_loaded(id, result).pane == app.pane,
{
    lemma_column_found(app.columns, id);
}

proof fn lemma_column_found(columns: Seq<ColumnInfo>, id: u64)
    ensures
        0 <= column_with(columns, id) <= columns.len(),
        column_with(columns, id) < columns.len() ==> columns[column_with(columns, id)].id == id,
    decreases columns.len(),
{
    if columns.len() > 0 && columns[0].id != id {
        lemma_column_found(columns.skip(1), id);
    }
}

/// Of two loads of the first pane only the later one is awaited: its answer is
/// shown, and the answer to the earlier one is dropped.
pub proof fn lemma_latest_load_is_shown(app: AppView, request: LoadInfo, loaded: LoadedInfo, late: Result<LoadedInfo, Seq<char>>)
    ensures
        ({
            let waiting = app.load_spawned(request);
            let shown = waiting.page_loaded(waiting.pane.generation, Ok(loaded));
            &&& waiting.pane.loading
            &&& waiting.commands == app.commands.push(CommandInfo::Load { generation: waiting.pane.generation, request })
            &&& shown.pane.content == loaded.content()
            &&& shown.pane.selected == 0
            &&& !shown.pane.loading
            &&& waiting.page_loaded(app.pane.generation, late) == waiting
        }),
{
    reveal(AppView::page_loaded);
}

/// Entries whose contents were loaded ahead open at once: nothing is asked for,
/// and nothing is awaited.
pub proof fn lemma_warm_entries_open_at_once(app: AppView, route: Route)
    requires
        app.account.identity is Some,
        match route {
            Route::Daily => app.warm.daily is Some,
            Route::Recommended => app.warm.recommended is Some,
            Route::Created => app.warm.playlists is Some,
            Route::Subscribed => app.warm.playlists is Some,
            Route::ListeningRank => app.warm.listening_week is Some,
            _ => false,
        },
    ensures
        app.route_set(route).commands == app.route_entered(route).commands,
        app.route_set(route).pane.generation == app.pane.generation,
        !app.route_set(route).pane.loading,
        !(app.route_set(route).pane.content is Empty),
{
    reveal(AppView::route_set);
    reveal(AppView::route_entered);
    reveal(AppView::columns_cut);
    reveal(AppView::daily_opened);
    reveal(AppView::recommended_opened);
    reveal(AppView::playlists_opened);
    reveal(AppView::rank_opened);
}

/// A playlist whose tracks were loaded ahead opens at once, in a column that
/// lists them.
pub proof fn lemma_warm_playlist_opens_at_once(app: AppView, id: u64, name: Seq<char>)
    requires
        app.warm.playlist_tracks.contains_key(id),
    ensures
        app.playlist_opened(id, name).commands == app.columns_cut(app.columns_kept()).commands,
        app.playlist_opened(id, name).columns.last().phase is Ready,
        app.playlist_opened(id, name).columns.last().content == ContentInfo::Tracks(
            rows_of_online(app.warm.playlist_tracks[id].tracks),
        ),
{
    reveal(AppView::playlist_opened);
    reveal(AppView::column_opened);
}

/// Where somebody has to be logged in and nobody is, an entry lists nothing and
/// asks for nothing.
pub proof fn lemma_entries_demand_login(app: AppView, route: Route)
    requires
        app.account.identity is None,
        route == Route::Daily || route == Route::Recommended || route == Route::ListeningRank || route == Route::Created
            || route == Route::Subscribed || route == Route::Artists || route == Route::Albums,
    ensures
        app.route_set(route).pane.content is Empty,
        app.route_set(route).commands == app.route_entered(route).commands,
{
    reveal(AppView::route_set);
    reveal(AppView::route_entered);
    reveal(AppView::columns_cut);
    reveal(AppView::daily_opened);
    reveal(AppView::recommended_opened);
    reveal(AppView::playlists_opened);
    reveal(AppView::rank_opened);
    reveal(AppView::albums_opened);
    reveal(AppView::artists_opened);
}

// Laws of what is answered.

/// A page that came is shown as it came, under its title, with its first row
/// selected; one that failed leaves the pane empty and says why.
pub proof fn lemma_pages_shown(app: AppView, loaded: LoadedInfo, message: Seq<char>)
    ensures
        ({
            let shown = app.page_loaded(app.pane.generation, Ok(loaded));
            let failed = app.page_loaded(app.pane.generation, Err(message));
            &&& shown.pane.content == loaded.content() && shown.pane.selected == 0 && !shown.pane.loading
            &&& loaded.title() is Some ==> Some(shown.pane.title) == loaded.title()
            &&& loaded.title() is None ==> shown.pane.title == app.pane.title
            &&& failed.pane.content is Empty && failed.status == message && !failed.pane.loading
            &&& failed.pane.title == app.pane.title
        }),
{
    reveal(AppView::page_loaded);
}

/// What the entries of the service showed is at hand the next time.
pub proof fn lemma_pages_remembered(
    app: AppView,
    title: Seq<char>,
    tracks: Seq<TrackInfo>,
    ranked: Seq<RankInfo>,
    lists: Seq<PlaylistInfo>,
)
    ensures
        app.route == Route::Daily ==> app.page_loaded(
            app.pane.generation,
            Ok(LoadedInfo::Tracks(title, tracks)),
        ).warm.daily == Some(tracks),
        app.route == Route::ListeningRank ==> app.page_loaded(
            app.pane.generation,
            Ok(LoadedInfo::RankedTracks(title, ranked)),
        ).warm.listening_week == Some(ranked),
        app.route == Route::Recommended ==> app.page_loaded(
            app.pane.generation,
            Ok(LoadedInfo::Playlists(lists)),
        ).warm.recommended == Some(lists),
        app.route == Route::Search ==> app.page_loaded(app.pane.generation, Ok(LoadedInfo::Playlists(lists))).warm
            == app.warm,
{
    reveal(AppView::page_loaded);
}

/// The answer to a column is shown in that column.
pub proof fn lemma_columns_shown(app: AppView, k: int, result: Result<LoadedInfo, Seq<char>>)
    requires
        0 <= k < app.columns.len(),
        forall|j: int| 0 <= j < k ==> (#[trigger] app.columns[j]).id != app.columns[k].id,
    ensures
        app.column_loaded(app.columns[k].id, result).columns == app.columns.update(k, app.columns[k].loaded(result)),
{
    lemma_column_with(app.columns, app.columns[k].id, k);
}

/// Lyrics that came for the track that plays are shown, or why there are none.
pub proof fn lemma_lyrics_shown(app: AppView, song_id: u64, lyrics: LyricsView, message: Seq<char>)
    requires
        app.playback.current == Some(song_id),
    ensures
        app.lyrics_loaded(song_id, Ok(lyrics)).playback.lyrics == LyricsInfo::Ready(song_id, lyrics),
        app.lyrics_loaded(song_id, Err(message)).playback.lyrics == LyricsInfo::Error(song_id, message),
        app.lyrics_loaded(song_id, Ok(lyrics)).playback.play_queue == app.playback.play_queue,
{
}

/// A login is offered with the code of its address, and asked about at once.
pub proof fn lemma_login_offered(app: AppView, challenge: QrChallenge, message: Seq<char>, now: Instant)
    ensures
        ({
            let after = app.login_offered(Ok(challenge), now);
            &&& after.account.challenge == Some(challenge)
            &&& after.account.login_polling && !after.account.auth_pending
            &&& after.account.next_login_poll == now
            &&& qr_code_text(challenge.url@) is Some ==> Some(after.account.qr) == qr_code_text(challenge.url@)
            &&& after.login_polled(now).commands == app.commands.push(CommandInfo::PollLogin(challenge))
        }),
        app.login_offered(Err(message), now).account.login_status == message,
        app.login_offered(Err(message), now).account.challenge == app.account.challenge,
{
}

/// A login goes on while it waits or was scanned, and is over when it expired,
/// was held back or failed; once it is confirmed, the user is known.
pub proof fn lemma_login_goes_on(app: AppView, identity: Identity, message: Seq<char>)
    requires
        app.account.login_polling,
    ensures
        app.login_answered(Ok(QrStatus::Waiting)).account.login_polling,
        app.login_answered(Ok(QrStatus::Scanned)).account.login_polling,
        !app.login_answered(Ok(QrStatus::Expired)).account.login_polling,
        !app.login_answered(Ok(QrStatus::RiskControlled)).account.login_polling,
        !app.login_answered(Err(message)).account.login_polling,
        app.login_answered(Err(message)).account.login_status == message,
        app.login_answered(Ok(QrStatus::Waiting)).account.identity == app.account.identity,
        app.route == Route::Account ==> ({
            let after = app.login_answered(Ok(QrStatus::Authenticated(identity)));
            &&& after.account.identity == Some(identity)
            &&& !after.account.login_polling && after.account.challenge is None
            &&& !app.warm.warming ==> after.commands == app.commands.push(CommandInfo::WarmUp(identity.user_id))
        }),
        !app.account.auth_pending ==> !app.login_answered(Ok(QrStatus::Waiting)).account.auth_pending,
{
    reveal(AppView::login_answered);
    reveal(AppView::logged_in);
    reveal(AppView::warm_up_started);
}

/// Who is logged in is known from the answer; a failure leaves it as it was.
pub proof fn lemma_identity_known(app: AppView, identity: Identity, message: Seq<char>)
    ensures
        app.identity_known(Ok(identity)).account.identity == Some(identity),
        app.identity_known(Err(message)).account.identity == app.account.identity,
        app.identity_known(Err(message)).commands == app.commands,
{
    reveal(AppView::warm_up_started);
}

/// When the job that runs ends, none runs any more, and what came of it is said.
pub proof fn lemma_jobs_end(
    app: AppView,
    job: crate::tui::app::ActiveJob,
    downloaded: nat,
    existing: nat,
    unavailable: nat,
    message: Seq<char>,
    report: ScanReport,
)
    requires
        app.jobs.active_job == Some(job),
    ensures
        app.download_finished(job.id, Ok((downloaded, existing, unavailable))).jobs.active_job is None,
        app.download_finished(job.id, Ok((downloaded, existing, unavailable))).status == "已下载 "@ + decimal(downloaded)
            + " · 已存在 "@ + decimal(existing) + " · 不可用 "@ + decimal(unavailable),
        app.download_finished(job.id, Err(message)).status == message,
        app.download_finished(job.id, Err(message)).jobs.active_job is None,
        app.organize_finished(job.id, Ok(None)).status == "缺少 NCM 元数据"@,
        app.organize_finished(job.id, Ok(None)).jobs.active_job is None,
        app.scan_finished(job.id, Ok(report)).jobs.active_job is None,
        app.scan_finished(job.id, Ok(report)).status == scan_text(job.kind == JobKind::Import, report),
        app.scan_finished(job.id, Err(message)).status == message,
{
}

/// What came of organizing is said.
pub proof fn lemma_organized(app: AppView, job: crate::tui::app::ActiveJob, outcome: MoveOutcome)
    requires
        app.jobs.active_job == Some(job),
    ensures
        outcome is Moved ==> app.organize_finished(job.id, Ok(Some(outcome))).status == "整理完成"@,
        outcome is Skipped ==> app.organize_finished(job.id, Ok(Some(outcome))).status == "无需整理"@,
        outcome is Conflict ==> app.organize_finished(job.id, Ok(Some(outcome))).status == "目标文件已存在"@,
{
}

/// The counts of a scan are said under their own names, and what is reported of
/// a download are the lengths of its lists.
pub proof fn lemma_counts(imported: bool, report: ScanReport, download: DownloadReport)
    ensures
        scan_text(imported, report) == (if imported {
            "导入完成"@
        } else {
            "扫描完成"@
        }) + " · 发现 "@ + decimal(report.discovered as nat) + " · 新增 "@ + decimal(report.added as nat) + " · 更新 "@
            + decimal(report.updated as nat) + " · 缺失 "@ + decimal(report.missing as nat),
        report_counts(Ok(download)) == Ok::<(nat, nat, nat), Seq<char>>(
            (download.downloaded@.len(), download.skipped_existing@.len(), download.unavailable@.len()),
        ),
{
}

/// Something moves on the screen while something is loaded, runs or plays, and
/// nothing does while a track is paused and nothing else goes on.
pub proof fn lemma_animated(app: AppView)
    ensures
        app.pane.loading ==> app.animated(),
        app.jobs.active_job is Some ==> app.animated(),
        app.playback.lyrics is Loading ==> app.animated(),
        app.playback.player_state.title@.len() > 0 && !app.playback.player_state.paused
            && !app.playback.player_state.finished ==> app.animated(),
        !app.pane.loading && app.columns.len() == 0 && app.jobs.active_job is None && !(app.playback.lyrics is Loading)
            && app.playback.player_state.paused ==> !app.animated(),
{
}

} // verus!
