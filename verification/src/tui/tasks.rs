//! What runs beside the panes: logging in, importing and scanning, downloading,
//! and the upkeep of the playback cache.

use vstd::prelude::*;

use crate::auth::QrChallenge;
use crate::database::words_of;
use crate::download::{DownloadRequest, DownloadSource};
use crate::text::{contains_text, copy_texts, decimal, decimal_text, texts, trim_of, trimmed};
use crate::time::{Duration, Instant};
use crate::tui::app::{successor, AccountView, ActiveJob, App, AppView, JobsView, PromptView, SetupView};
use crate::tui::command::{download_info, typed_download, Command, CommandInfo, DownloadInfo};
use crate::tui::format::{
    bare_path, download_of_words, expanded_path, format_bytes, import_target, parse_cache_size, parse_download, size_of_text,
    size_text,
};
use crate::tui::input::lemma_ends_are_boundaries;
use crate::tui::routes::{Focus, InputMode, JobKind, Route};
use crate::tui::rows::TrackKey;

verus! {

/// A reading of the clock some time after another.
pub open spec fn later(now: Instant, span: nat) -> Instant {
    Instant {
        nanos: if now@ + span <= u128::MAX {
            (now@ + span) as u128
        } else {
            u128::MAX
        },
    }
}

impl AppView {
    /// A login is begun, unless one is on its way.
    #[verifier::opaque]
    pub open spec fn login_started(self) -> AppView {
        if self.account.login_polling {
            self
        } else {
            AppView {
                route: Route::Account,
                nav_selected: 13,
                focus: Focus::Content,
                account: AccountView {
                    challenge: None,
                    qr: seq![],
                    login_status: "正在创建二维码…"@,
                    auth_pending: true,
                    ..self.account
                },
                ..self.sent(CommandInfo::AbortAuth)
            }.sent(CommandInfo::BeginLogin)
        }
    }

    /// Every two seconds it is asked whether the code was scanned.
    pub open spec fn login_polled(self, now: Instant) -> AppView {
        if !self.account.login_polling || self.account.auth_pending || now@ < self.account.next_login_poll@ {
            self
        } else {
            match self.account.challenge {
                Some(challenge) => AppView {
                    account: AccountView {
                        next_login_poll: later(now, 2_000_000_000),
                        auth_pending: true,
                        ..self.account
                    },
                    ..self
                }.sent(CommandInfo::PollLogin(challenge)),
                None => self,
            }
        }
    }

    /// A path is asked for that is to be imported.
    #[verifier::opaque]
    pub open spec fn import_begun(self) -> AppView {
        let local = if self.route != Route::Local {
            AppView { focus: Focus::Content, ..self.route_set(Route::Local) }
        } else {
            self
        };
        AppView { prompt: local.prompt.cleared(InputMode::Import), ..local }.said(
            "输入本地文件或目录路径，Enter 导入到音乐库"@,
        )
    }

    #[verifier::opaque]
    pub open spec fn import_started(self) -> AppView {
        let path = bare_path(self.prompt.input);
        if path.len() == 0 {
            self.said("请输入要导入的文件或目录路径"@)
        } else {
            self.sent(CommandInfo::ResolveImport(expanded_path(path, self.setup.home)))
        }
    }

    /// A path is known that is to be imported: it is kept as one of the
    /// directories of the library, and scanned.
    pub open spec fn import_resolved(self, result: Result<Seq<char>, Seq<char>>) -> AppView {
        match result {
            Err(message) => self.said(message),
            Ok(path) => {
                let roots = self.setup.library_roots;
                AppView {
                    prompt: self.prompt.cleared(InputMode::Normal),
                    setup: SetupView {
                        library_roots: if roots.contains(path) {
                            roots
                        } else {
                            roots.push(path)
                        },
                        ..self.setup
                    },
                    ..self
                }.scan_of(seq![path], JobKind::Import)
            },
        }
    }

    #[verifier::opaque]
    pub open spec fn scan_started(self) -> AppView {
        if self.setup.library_roots.len() == 0 {
            self.said("请按 I 导入本地音乐，或在 config.toml 的 [library] dirs 中配置目录"@)
        } else {
            self.scan_of(self.setup.library_roots, JobKind::Scan)
        }
    }

    /// The next number for a job, and the job.
    pub open spec fn job_taken(self, kind: JobKind) -> AppView {
        let id = successor(self.jobs.next_job_id);
        AppView { jobs: JobsView { next_job_id: id, active_job: Some(ActiveJob { id, kind }), ..self.jobs }, ..self }
    }

    /// Directories are scanned, unless a job runs.
    #[verifier::opaque]
    pub open spec fn scan_of(self, roots: Seq<Seq<char>>, kind: JobKind) -> AppView {
        if self.jobs.active_job is Some {
            self.said("已有任务正在执行"@)
        } else {
            let taken = self.job_taken(kind);
            taken.said(
                if kind == JobKind::Import {
                    if roots.len() > 0 {
                        "正在导入 "@ + roots[0] + " …"@
                    } else {
                        "正在导入本地音乐…"@
                    }
                } else {
                    "正在后台扫描 "@ + decimal(roots.len()) + " 个音乐目录…"@
                },
            ).sent(CommandInfo::StartScan { id: taken.jobs.next_job_id, roots })
        }
    }

    #[verifier::opaque]
    pub open spec fn download_of(self, download: DownloadInfo) -> AppView {
        if self.jobs.active_job is Some {
            self.said("已有任务正在执行"@)
        } else {
            let taken = self.job_taken(JobKind::Download);
            taken.sent(CommandInfo::StartDownload { id: taken.jobs.next_job_id, download })
        }
    }

    /// What was typed is downloaded.
    #[verifier::opaque]
    pub open spec fn download_started(self) -> AppView {
        match download_of_words(words_of(trim_of(self.prompt.input))) {
            Ok((source, range)) => AppView {
                prompt: PromptView { mode: InputMode::Normal, input: seq![], cursor: 0, ..self.prompt },
                ..self
            }.download_of(typed_download(source, range)),
            Err(message) => self.said(message),
        }
    }

    #[verifier::opaque]
    pub open spec fn organize_of(self, track: TrackKey) -> AppView {
        if self.jobs.active_job is Some {
            self.said("已有任务正在执行"@)
        } else {
            let taken = self.job_taken(JobKind::Organize);
            taken.sent(CommandInfo::StartOrganize { id: taken.jobs.next_job_id, track })
        }
    }

    /// Whether a download runs.
    pub open spec fn downloading(self) -> bool {
        match self.jobs.active_job {
            Some(job) => job.kind == JobKind::Download,
            None => false,
        }
    }

    /// The download that runs is given up.
    #[verifier::opaque]
    pub open spec fn download_cancelled(self) -> AppView {
        if self.downloading() {
            AppView { jobs: JobsView { active_job: None, ..self.jobs }, ..self }.sent(CommandInfo::AbortJob).said("下载已取消"@)
        } else {
            self
        }
    }

    /// The playback cache gets the limit that was typed.
    #[verifier::opaque]
    pub open spec fn cache_size_set(self) -> AppView {
        match size_of_text(self.prompt.input) {
            Err(message) => self.said(message),
            Ok(bytes) => if self.jobs.cache_pending {
                self.said("缓存操作正在进行"@)
            } else {
                AppView {
                    prompt: self.prompt.cleared(InputMode::Normal),
                    jobs: JobsView { cache_clear_armed_until: None, cache_pending: true, ..self.jobs },
                    ..self
                }.said("正在将播放缓存上限设置为 "@ + size_text(bytes) + "…"@).sent(CommandInfo::SetCacheLimit(bytes))
            },
        }
    }

    /// Whether the cache is cleared if that is asked for once more.
    pub open spec fn clear_armed(self, now: Instant) -> bool {
        match self.jobs.cache_clear_armed_until {
            Some(deadline) => deadline@ >= now@,
            None => false,
        }
    }

    /// The playback cache is cleared when that is asked for twice within five
    /// seconds.
    #[verifier::opaque]
    pub open spec fn cache_clear_asked(self, now: Instant) -> AppView {
        if self.jobs.cache_pending {
            self.said("缓存操作正在进行"@)
        } else if !self.clear_armed(now) {
            AppView {
                jobs: JobsView { cache_clear_armed_until: Some(later(now, 5_000_000_000)), ..self.jobs },
                ..self
            }.said("再次按 X 确认清除播放缓存（当前播放不会中断）"@)
        } else {
            AppView { jobs: JobsView { cache_clear_armed_until: None, cache_pending: true, ..self.jobs }, ..self }.said(
                "正在清除播放缓存…"@,
            ).sent(CommandInfo::ClearCache)
        }
    }
}

/// Clearing the cache takes two requests: the first is answered with a
/// question, and only the second, within five seconds, clears it.
pub proof fn lemma_clearing_takes_two_requests(app: AppView, first: Instant, second: Instant)
    requires
        !app.jobs.cache_pending,
        !app.clear_armed(first),
        first@ <= second@ <= u128::MAX - 5_000_000_000,
    ensures
        app.cache_clear_asked(first).commands == app.commands,
        !app.cache_clear_asked(first).jobs.cache_pending,
        second@ <= first@ + 5_000_000_000 ==> app.cache_clear_asked(first).cache_clear_asked(second).commands
            == app.commands.push(CommandInfo::ClearCache),
        second@ > first@ + 5_000_000_000 ==> app.cache_clear_asked(first).cache_clear_asked(second).commands == app.commands,
{
    reveal(AppView::cache_clear_asked);
}

pub fn copy_challenge(challenge: &QrChallenge) -> (r: QrChallenge)
    ensures
        r == *challenge,
{
    QrChallenge { key: challenge.key.clone(), url: challenge.url.clone() }
}

pub open spec fn text_result(result: Result<String, String>) -> Result<Seq<char>, Seq<char>> {
    match result {
        Ok(text) => Ok(text@),
        Err(message) => Err(message@),
    }
}

impl App {
    pub fn start_login(&mut self)
        ensures
            old(self)@.wf() ==> final(self)@.wf(),
            final(self)@ == old(self)@.login_started(),
    {
        proof {
            reveal(AppView::login_started);
        }
        if self.account.login_polling {
            return;
        }
        self.send(Command::AbortAuth);
        self.route = Route::Account;
        self.nav_selected = 13;
        self.focus = Focus::Content;
        self.account.challenge = None;
        self.account.qr = String::new();
        self.account.login_status = "正在创建二维码…".to_owned();
        self.account.auth_pending = true;
        proof {
            assert(self.account.qr@ =~= seq![]);
        }
        self.send(Command::BeginLogin);
    }

    /// Asks whether the code was scanned, when it is time to.
    pub fn poll_login(&mut self, now: Instant)
        ensures
            old(self)@.wf() ==> final(self)@.wf(),
            final(self)@ == old(self)@.login_polled(now),
    {
        if !self.account.login_polling || self.account.auth_pending || now.nanos < self.account.next_login_poll.nanos {
            return;
        }
        let challenge = match &self.account.challenge {
            Some(challenge) => copy_challenge(challenge),
            None => {
                return;
            },
        };
        self.account.next_login_poll = now.after(Duration::from_secs(2));
        self.account.auth_pending = true;
        self.send(Command::PollLogin(challenge));
    }

    pub fn begin_import(&mut self)
        ensures
            old(self)@.wf() ==> final(self)@.wf(),
            final(self)@ == old(self)@.import_begun(),
    {
        proof {
            reveal(AppView::import_begun);
        }
        if self.route != Route::Local {
            self.set_route(Route::Local);
            self.focus = Focus::Content;
        }
        self.clear_prompt(InputMode::Import);
        self.say("输入本地文件或目录路径，Enter 导入到音乐库");
    }

    /// An empty line for a purpose.
    pub(crate) fn clear_prompt(&mut self, mode: InputMode)
        ensures
            old(self)@.wf() ==> final(self)@.wf(),
            final(self)@ == (AppView { prompt: old(self)@.prompt.cleared(mode), ..old(self)@ }),
    {
        self.prompt.mode = mode;
        self.prompt.input = String::new();
        self.prompt.cursor = 0;
        proof {
            lemma_ends_are_boundaries(seq![]);
            assert(self.prompt.input@ =~= seq![]);
        }
    }

    pub fn start_import(&mut self)
        ensures
            old(self)@.wf() ==> final(self)@.wf(),
            final(self)@ == old(self)@.import_started(),
    {
        proof {
            reveal(AppView::import_started);
        }
        let home: Option<&str> = match &self.setup.home {
            Some(home) => Some(home.as_str()),
            None => None,
        };
        match import_target(self.prompt.input.as_str(), home) {
            Some(path) => {
                self.send(Command::ResolveImport(path));
            },
            None => {
                self.say("请输入要导入的文件或目录路径");
            },
        }
    }

    /// Takes the answer what path was meant.
    pub fn import_answered(&mut self, result: Result<String, String>)
        ensures
            old(self)@.wf() ==> final(self)@.wf(),
            final(self)@ == old(self)@.import_resolved(text_result(result)),
    {
        let path = match result {
            Ok(path) => path,
            Err(message) => {
                self.status = message;
                return;
            },
        };
        self.clear_prompt(InputMode::Normal);
        let ghost roots = texts(self.setup.library_roots@);
        if !contains_text(&self.setup.library_roots, path.as_str()) {
            let ghost held = self.setup.library_roots@;
            self.setup.library_roots.push(path.clone());
            proof {
                assert(texts(self.setup.library_roots@) =~= texts(held).push(path@));
            }
        }
        let mut list: Vec<String> = Vec::new();
        list.push(path);
        proof {
            assert(texts(list@) =~= seq![path@]);
        }
        self.start_library_scan(list, JobKind::Import);
    }

    pub fn start_scan(&mut self)
        ensures
            old(self)@.wf() ==> final(self)@.wf(),
            final(self)@ == old(self)@.scan_started(),
    {
        proof {
            reveal(AppView::scan_started);
        }
        if self.setup.library_roots.len() == 0 {
            self.say("请按 I 导入本地音乐，或在 config.toml 的 [library] dirs 中配置目录");
            return;
        }
        let roots = copy_texts(&self.setup.library_roots);
        self.start_library_scan(roots, JobKind::Scan);
    }

    fn take_job(&mut self, kind: JobKind) -> (r: u64)
        ensures
            old(self)@.wf() ==> final(self)@.wf(),
            final(self)@ == old(self)@.job_taken(kind),
            r == final(self)@.jobs.next_job_id,
    {
        let id: u64 = self.allocate_job_id();
        self.jobs.active_job = Some(ActiveJob { id, kind });
        id
    }

    fn start_library_scan(&mut self, roots: Vec<String>, kind: JobKind)
        ensures
            old(self)@.wf() ==> final(self)@.wf(),
            final(self)@ == old(self)@.scan_of(texts(roots@), kind),
    {
        proof {
            reveal(AppView::scan_of);
        }
        if self.jobs.active_job.is_some() {
            self.say("已有任务正在执行");
            return;
        }
        let id: u64 = self.take_job(kind);
        let status: String = if kind == JobKind::Import {
            if roots.len() > 0 {
                let mut text: String = "正在导入 ".to_owned();
                text.append(roots[0].as_str());
                text.append(" …");
                proof {
                    assert(texts(roots@)[0] == roots@[0]@);
                }
                text
            } else {
                "正在导入本地音乐…".to_owned()
            }
        } else {
            let mut text: String = "正在后台扫描 ".to_owned();
            text.append(decimal_text(roots.len() as u64).as_str());
            text.append(" 个音乐目录…");
            text
        };
        self.status = status;
        self.send(Command::StartScan { id, roots });
    }

    pub fn start_download_request(&mut self, download: DownloadRequest)
        ensures
            old(self)@.wf() ==> final(self)@.wf(),
            final(self)@ == old(self)@.download_of(download_info(download)),
    {
        proof {
            reveal(AppView::download_of);
        }
        if self.jobs.active_job.is_some() {
            self.say("已有任务正在执行");
            return;
        }
        let id: u64 = self.take_job(JobKind::Download);
        self.send(Command::StartDownload { id, download });
    }

    /// Downloads what was typed.
    pub fn start_download(&mut self)
        ensures
            old(self)@.wf() ==> final(self)@.wf(),
            final(self)@ == old(self)@.download_started(),
    {
        proof {
            reveal(AppView::download_started);
        }
        let command: String = trimmed(self.prompt.input.as_str());
        match parse_download(command.as_str()) {
            Ok(request) => {
                proof {
                    let (source, range) = download_of_words(words_of(command@))->Ok_0;
                    assert(download_info(request) == typed_download(source, range));
                }
                self.prompt.input = String::new();
                self.prompt.cursor = 0;
                self.prompt.mode = InputMode::Normal;
                proof {
                    lemma_ends_are_boundaries(seq![]);
                    assert(self.prompt.input@ =~= seq![]);
                }
                self.start_download_request(request);
            },
            Err(message) => {
                self.say(message);
            },
        }
    }

    pub(crate) fn start_organize_of(&mut self, track: TrackKey)
        ensures
            old(self)@.wf() ==> final(self)@.wf(),
            final(self)@ == old(self)@.organize_of(track),
    {
        proof {
            reveal(AppView::organize_of);
        }
        if self.jobs.active_job.is_some() {
            self.say("已有任务正在执行");
            return;
        }
        let id: u64 = self.take_job(JobKind::Organize);
        self.send(Command::StartOrganize { id, track });
    }

    /// Gives up the download that runs, and says whether there was one.
    pub fn cancel_download(&mut self) -> (r: bool)
        ensures
            old(self)@.wf() ==> final(self)@.wf(),
            r == old(self)@.downloading(),
            final(self)@ == old(self)@.download_cancelled(),
    {
        proof {
            reveal(AppView::download_cancelled);
        }
        match self.jobs.active_job {
            Some(job) => {
                if job.kind != JobKind::Download {
                    return false;
                }
            },
            None => {
                return false;
            },
        }
        self.jobs.active_job = None;
        self.send(Command::AbortJob);
        self.say("下载已取消");
        true
    }

    /// Gives the playback cache the limit that was typed.
    pub fn set_cache_size(&mut self)
        ensures
            old(self)@.wf() ==> final(self)@.wf(),
            final(self)@ == old(self)@.cache_size_set(),
    {
        proof {
            reveal(AppView::cache_size_set);
        }
        let bytes: u64 = match parse_cache_size(self.prompt.input.as_str()) {
            Ok(bytes) => bytes,
            Err(message) => {
                self.say(message);
                return;
            },
        };
        if self.jobs.cache_pending {
            self.say("缓存操作正在进行");
            return;
        }
        self.clear_prompt(InputMode::Normal);
        self.jobs.cache_clear_armed_until = None;
        self.jobs.cache_pending = true;
        let mut status: String = "正在将播放缓存上限设置为 ".to_owned();
        status.append(format_bytes(bytes).as_str());
        status.append("…");
        self.status = status;
        self.send(Command::SetCacheLimit(bytes));
    }

    /// Clears the playback cache when that is asked for twice.
    pub fn clear_playback_cache(&mut self, now: Instant)
        ensures
            old(self)@.wf() ==> final(self)@.wf(),
            final(self)@ == old(self)@.cache_clear_asked(now),
    {
        proof {
            reveal(AppView::cache_clear_asked);
        }
        if self.jobs.cache_pending {
            self.say("缓存操作正在进行");
            return;
        }
        let armed: bool = match self.jobs.cache_clear_armed_until {
            Some(deadline) => deadline.nanos >= now.nanos,
            None => false,
        };
        if !armed {
            self.jobs.cache_clear_armed_until = Some(now.after(Duration::from_secs(5)));
            self.say("再次按 X 确认清除播放缓存（当前播放不会中断）");
            return;
        }
        self.jobs.cache_clear_armed_until = None;
        self.jobs.cache_pending = true;
        self.say("正在清除播放缓存…");
        self.send(Command::ClearCache);
    }
}

// Laws of the jobs.

/// Only one job runs at a time: while one does, no other is started.
pub proof fn lemma_one_job(app: AppView, roots: Seq<Seq<char>>, kind: JobKind, download: DownloadInfo, track: TrackKey)
    requires
        app.jobs.active_job is Some,
    ensures
        app.scan_of(roots, kind).commands == app.commands && app.scan_of(roots, kind).jobs == app.jobs,
        app.download_of(download).commands == app.commands && app.download_of(download).jobs == app.jobs,
        app.organize_of(track).commands == app.commands && app.organize_of(track).jobs == app.jobs,
{
    reveal(AppView::scan_of);
    reveal(AppView::download_of);
    reveal(AppView::organize_of);
}

/// A job that is started runs under a number of its own, with what it is for.
pub proof fn lemma_jobs_start(app: AppView, roots: Seq<Seq<char>>, kind: JobKind, download: DownloadInfo)
    requires
        app.jobs.active_job is None,
    ensures
        ({
            let scan = app.scan_of(roots, kind);
            let fetch = app.download_of(download);
            &&& scan.jobs.active_job is Some && scan.jobs.active_job->0.kind == kind
            &&& scan.commands == app.commands.push(
                CommandInfo::StartScan { id: scan.jobs.active_job->0.id, roots },
            )
            &&& fetch.jobs.active_job is Some && fetch.jobs.active_job->0.kind == JobKind::Download
            &&& fetch.commands == app.commands.push(
                CommandInfo::StartDownload { id: fetch.jobs.active_job->0.id, download },
            )
        }),
{
    reveal(AppView::scan_of);
    reveal(AppView::download_of);
}

/// The directories of the library are scanned, all of them, if there are any.
pub proof fn lemma_scans(app: AppView)
    requires
        app.jobs.active_job is None,
    ensures
        app.setup.library_roots.len() > 0 ==> app.scan_started().commands == app.commands.push(
            CommandInfo::StartScan {
                id: app.scan_started().jobs.active_job->0.id,
                roots: app.setup.library_roots,
            },
        ),
        app.setup.library_roots.len() == 0 ==> app.scan_started().commands == app.commands,
{
    reveal(AppView::scan_started);
    reveal(AppView::scan_of);
}

/// A path that is imported becomes one of the directories of the library, once,
/// and is scanned by itself; a path that is not found is not.
pub proof fn lemma_imports(app: AppView, path: Seq<char>, message: Seq<char>)
    requires
        app.jobs.active_job is None,
    ensures
        ({
            let after = app.import_resolved(Ok(path));
            &&& after.setup.library_roots.contains(path)
            &&& app.setup.library_roots.contains(path) ==> after.setup.library_roots == app.setup.library_roots
            &&& !app.setup.library_roots.contains(path) ==> after.setup.library_roots
                == app.setup.library_roots.push(path)
            &&& after.prompt.mode == InputMode::Normal
            &&& after.commands == app.commands.push(
                CommandInfo::StartScan { id: after.jobs.active_job->0.id, roots: seq![path] },
            )
            &&& after.jobs.active_job->0.kind == JobKind::Import
        }),
        app.import_resolved(Err(message)).status == message,
        app.import_resolved(Err(message)).setup == app.setup,
        bare_path(app.prompt.input).len() > 0 ==> app.import_started().commands == app.commands.push(
            CommandInfo::ResolveImport(expanded_path(bare_path(app.prompt.input), app.setup.home)),
        ),
        bare_path(app.prompt.input).len() == 0 ==> app.import_started().commands == app.commands,
{
    reveal(AppView::scan_of);
    reveal(AppView::import_started);
    let roots = app.setup.library_roots;
    assert(roots.push(path)[roots.len() as int] == path);
}

/// What was typed is downloaded as it was typed, and a mistake is said.
pub proof fn lemma_typed_downloads(app: AppView, source: DownloadSource, range: Option<(nat, nat)>, message: Seq<char>)
    requires
        app.jobs.active_job is None,
    ensures
        download_of_words(words_of(trim_of(app.prompt.input))) == Ok::<
            (DownloadSource, Option<(nat, nat)>),
            Seq<char>,
        >((source, range)) ==> app.download_started().commands == app.commands.push(
            CommandInfo::StartDownload {
                id: app.download_started().jobs.active_job->0.id,
                download: typed_download(source, range),
            },
        ) && app.download_started().prompt.mode == InputMode::Normal,
        download_of_words(words_of(trim_of(app.prompt.input))) == Err::<
            (DownloadSource, Option<(nat, nat)>),
            Seq<char>,
        >(message) ==> app.download_started().status == message && app.download_started().commands == app.commands
            && app.download_started().prompt == app.prompt,
{
    reveal(AppView::download_started);
    reveal(AppView::download_of);
}

/// A download that runs is given up when that is asked for; other jobs are not.
pub proof fn lemma_cancelling(app: AppView)
    ensures
        app.downloading() ==> app.download_cancelled().commands == app.commands.push(CommandInfo::AbortJob)
            && app.download_cancelled().jobs.active_job is None,
        !app.downloading() ==> app.download_cancelled() == app,
        app.downloading() <==> app.jobs.active_job is Some && app.jobs.active_job->0.kind == JobKind::Download,
{
    reveal(AppView::download_cancelled);
}

/// The limit that was typed is the one that the cache gets.
pub proof fn lemma_cache_limit(app: AppView, bytes: nat, message: Seq<char>)
    ensures
        size_of_text(app.prompt.input) == Ok::<nat, Seq<char>>(bytes) && !app.jobs.cache_pending
            ==> app.cache_size_set().commands == app.commands.push(CommandInfo::SetCacheLimit(bytes))
            && app.cache_size_set().prompt.mode == InputMode::Normal && app.cache_size_set().jobs.cache_pending,
        size_of_text(app.prompt.input) == Err::<nat, Seq<char>>(message) ==> app.cache_size_set().commands
            == app.commands && app.cache_size_set().status == message && app.cache_size_set().prompt == app.prompt,
        app.jobs.cache_pending ==> app.cache_size_set().commands == app.commands,
{
    reveal(AppView::cache_size_set);
}

/// While a login is offered it is asked every two seconds whether the code was
/// scanned, one question at a time.
pub proof fn lemma_polling(app: AppView, now: Instant, challenge: QrChallenge)
    requires
        app.account.challenge == Some(challenge),
        now@ + 2_000_000_000 <= u128::MAX,
    ensures
        ({
            let after = app.login_polled(now);
            let due = app.account.login_polling && !app.account.auth_pending && now@ >= app.account.next_login_poll@;
            &&& due ==> after.commands == app.commands.push(CommandInfo::PollLogin(challenge))
                && after.account.next_login_poll@ == now@ + 2_000_000_000 && after.account.auth_pending
            &&& !due ==> after == app
        }),
{
}

/// A login is begun unless one is on its way, and is shown.
pub proof fn lemma_login_begins(app: AppView)
    ensures
        !app.account.login_polling ==> app.login_started().commands == app.commands.push(CommandInfo::AbortAuth).push(
            CommandInfo::BeginLogin,
        ) && app.login_started().route == Route::Account && app.login_started().account.auth_pending
            && app.login_started().account.challenge is None,
        app.account.login_polling ==> app.login_started() == app,
{
    reveal(AppView::login_started);
}

} // verus!
