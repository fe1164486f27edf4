//! What is written in the panes.

use vstd::prelude::*;

use crate::discovery::{AlbumInfo, AlbumSummary, ArtistInfo, ArtistSummary, PlaylistInfo, PlaylistSummary};
use crate::player::{to_uppercase, uppercase};
use crate::text::{decimal, decimal_text, joined, text_option, texts};
use crate::time::{Duration, Instant};
use crate::tui::app::{App, AppView};
use crate::tui::format::{format_bytes, format_library_duration, format_time, size_text, time_text, whole_seconds};
use crate::text::zero_padded;
use crate::tui::layout::{grouped_lines, nav_index_of};
use crate::tui::mouse::LOCAL_IMPORT_HINT;
use crate::tui::routes::{
    all_routes, group_of, kind_label_of, label_of, search_kind_label, Focus, InputMode, JobKind, Route, UiAction,
    ROUTE_COUNT,
};
use crate::tui::rows::{
    BrowserColumn, ColumnInfo, ColumnPhase, Content, LyricsInfo, LyricsState, PhaseInfo, RowInfo, TrackRow,
};
use crate::tui::screen::{format_action_hint, hint_line, hint_of, hints_of, spinner, spinner_of};
use crate::tui::width::{shorten, shortened};

verus! {

// The first pane.

/// Hours and minutes.
pub open spec fn hours_text(duration_ms: u64) -> Seq<char> {
    decimal((duration_ms / 60_000 / 60) as nat) + "h "@ + zero_padded(decimal((duration_ms / 60_000 % 60) as nat), 2) + "m"@
}

pub open spec fn content_title_of(app: AppView) -> Seq<char> {
    if app.pane.loading {
        " "@ + spinner_of(app.tick as nat) + " 正在加载 "@
    } else if app.route == Route::Search {
        " "@ + kind_label_of(app.prompt.search_kind) + " · F1 歌曲 F2 专辑 F3 歌手 F4 歌单 "@
    } else if app.route == Route::Local && app.setup.local_stats is Some {
        let stats = app.setup.local_stats->0;
        " "@ + app.pane.title + " · "@ + decimal(stats.tracks as nat) + " 首 · "@ + decimal(stats.albums as nat)
            + " 张专辑 · "@ + hours_text(stats.duration_ms) + " "@
    } else {
        " "@ + app.pane.title + " "@
    }
}

/// What is said where a pane lists nothing.
pub open spec fn empty_text(app: AppView) -> Seq<char> {
    match app.route {
        Route::Daily | Route::Recommended | Route::Created | Route::Subscribed | Route::Albums => {
            if app.account.identity is None {
                "按 L 扫码登录"@
            } else {
                "暂无内容"@
            }
        },
        Route::Search => "按 / 输入关键词"@,
        Route::Queue => "播放队列为空"@,
        Route::Favorites => "还没有喜欢的音乐"@,
        Route::Local => LOCAL_IMPORT_HINT@,
        Route::Recent => "暂无最近播放"@,
        _ => "暂无内容"@,
    }
}

/// What is said where the library is empty.
pub open spec fn local_empty_text(app: AppView) -> Seq<char> {
    if app.prompt.mode == InputMode::Import {
        if app.prompt.input.len() == 0 {
            "输入本地文件或目录路径，Enter 导入"@
        } else {
            "导入本地音乐："@ + app.prompt.input
        }
    } else {
        LOCAL_IMPORT_HINT@
    }
}

/// What the first pane shows.
#[derive(Clone, Debug, PartialEq, Eq)]
pub enum PaneBody {
    Account,
    Downloads,
    List,
    Message(String),
}

pub enum BodyInfo {
    Account,
    Downloads,
    List,
    Message(Seq<char>),
}

impl View for PaneBody {
    type V = BodyInfo;

    open spec fn view(&self) -> BodyInfo {
        match *self {
            PaneBody::Account => BodyInfo::Account,
            PaneBody::Downloads => BodyInfo::Downloads,
            PaneBody::List => BodyInfo::List,
            PaneBody::Message(text) => BodyInfo::Message(text@),
        }
    }
}

pub open spec fn body_of(app: AppView) -> BodyInfo {
    let invites = app.route == Route::Local && !app.pane.loading && app.prompt.mode != InputMode::LocalSearch;
    if app.route == Route::Account {
        BodyInfo::Account
    } else if app.route == Route::Downloads {
        BodyInfo::Downloads
    } else if invites && (app.pane.content is Empty || (app.pane.content is Tracks && app.pane.content.count() == 0)) {
        BodyInfo::Message(local_empty_text(app))
    } else if !(app.pane.content is Empty) {
        BodyInfo::List
    } else if app.pane.loading {
        BodyInfo::Message(spinner_of(app.tick as nat))
    } else if app.prompt.mode == InputMode::LocalSearch {
        BodyInfo::Message("搜索本地音乐："@ + app.prompt.input)
    } else if app.prompt.mode == InputMode::Search {
        BodyInfo::Message("搜索网易云："@ + app.prompt.input)
    } else {
        BodyInfo::Message(empty_text(app))
    }
}

/// A text behind another.
fn behind(first: &str, second: &str) -> (r: String)
    ensures
        r@ == first@ + second@,
{
    let mut text: String = first.to_owned();
    text.append(second);
    text
}

/// A text between two others.
fn between(first: &str, middle: &str, last: &str) -> (r: String)
    ensures
        r@ == first@ + middle@ + last@,
{
    let mut text: String = first.to_owned();
    text.append(middle);
    text.append(last);
    text
}

impl App {
    /// The title of the first pane.
    pub fn content_title(&self) -> (r: String)
        ensures
            r@ == content_title_of(self@),
    {
        if self.pane.loading {
            return between(" ", spinner(self.tick), " 正在加载 ");
        }
        if self.route == Route::Search {
            return between(" ", search_kind_label(self.prompt.search_kind), " · F1 歌曲 F2 专辑 F3 歌手 F4 歌单 ");
        }
        if self.route == Route::Local {
            if let Some(stats) = self.setup.local_stats {
                let mut text: String = between(" ", self.pane.title.as_str(), " · ");
                text.append(decimal_text(stats.tracks).as_str());
                text.append(" 首 · ");
                text.append(decimal_text(stats.albums).as_str());
                text.append(" 张专辑 · ");
                text.append(format_library_duration(stats.duration_ms).as_str());
                text.append(" ");
                return text;
            }
        }
        between(" ", self.pane.title.as_str(), " ")
    }

    pub fn empty_message(&self) -> (r: String)
        ensures
            r@ == empty_text(self@),
    {
        let text: &str = match self.route {
            Route::Daily | Route::Recommended | Route::Created | Route::Subscribed | Route::Albums => {
                if self.account.identity.is_none() {
                    "按 L 扫码登录"
                } else {
                    "暂无内容"
                }
            },
            Route::Search => "按 / 输入关键词",
            Route::Queue => "播放队列为空",
            Route::Favorites => "还没有喜欢的音乐",
            Route::Local => LOCAL_IMPORT_HINT,
            Route::Recent => "暂无最近播放",
            _ => "暂无内容",
        };
        text.to_owned()
    }

    fn local_empty_message(&self) -> (r: String)
        ensures
            r@ == local_empty_text(self@),
    {
        if self.prompt.mode == InputMode::Import {
            if self.prompt.input.as_str().unicode_len() == 0 {
                "输入本地文件或目录路径，Enter 导入".to_owned()
            } else {
                behind("导入本地音乐：", self.prompt.input.as_str())
            }
        } else {
            LOCAL_IMPORT_HINT.to_owned()
        }
    }

    /// What the first pane shows.
    pub fn content_body(&self) -> (r: PaneBody)
        ensures
            r@ == body_of(self@),
    {
        if self.route == Route::Account {
            return PaneBody::Account;
        }
        if self.route == Route::Downloads {
            return PaneBody::Downloads;
        }
        let invites: bool = self.route == Route::Local && !self.pane.loading && self.prompt.mode != InputMode::LocalSearch;
        match &self.pane.content {
            Content::Tracks(rows) => {
                return if invites && rows.len() == 0 {
                    PaneBody::Message(self.local_empty_message())
                } else {
                    PaneBody::List
                };
            },
            Content::Empty => {},
            _ => {
                return PaneBody::List;
            },
        }
        if invites {
            PaneBody::Message(self.local_empty_message())
        } else if self.pane.loading {
            PaneBody::Message(spinner(self.tick).to_owned())
        } else if self.prompt.mode == InputMode::LocalSearch {
            PaneBody::Message(behind("搜索本地音乐：", self.prompt.input.as_str()))
        } else if self.prompt.mode == InputMode::Search {
            PaneBody::Message(behind("搜索网易云：", self.prompt.input.as_str()))
        } else {
            PaneBody::Message(self.empty_message())
        }
    }
}

// A column.

pub open spec fn column_title_of(column: ColumnInfo, tick: nat) -> Seq<char> {
    if column.phase is Loading {
        " "@ + spinner_of(tick) + " "@ + column.title + " "@
    } else {
        " "@ + column.title + " "@
    }
}

/// What is said in a column that lists nothing.
pub open spec fn column_text(phase: PhaseInfo, tick: nat) -> Seq<char> {
    match phase {
        PhaseInfo::Loading => spinner_of(tick) + " 正在加载"@,
        PhaseInfo::Ready => "暂无内容"@,
        PhaseInfo::Error(message) => "加载失败\n"@ + message + "\n\nEsc 返回上一级"@,
    }
}

pub fn column_title(column: &BrowserColumn, tick: usize) -> (r: String)
    ensures
        r@ == column_title_of(column@, tick as nat),
{
    if column.is_loading() {
        let mut text: String = between(" ", spinner(tick), " ");
        text.append(column.title.as_str());
        text.append(" ");
        text
    } else {
        between(" ", column.title.as_str(), " ")
    }
}

pub fn column_message(column: &BrowserColumn, tick: usize) -> (r: String)
    ensures
        r@ == column_text(column@.phase, tick as nat),
{
    match &column.phase {
        ColumnPhase::Loading => behind(spinner(tick), " 正在加载"),
        ColumnPhase::Ready => "暂无内容".to_owned(),
        ColumnPhase::Error(message) => between("加载失败\n", message.as_str(), "\n\nEsc 返回上一级"),
    }
}

// The rows of lists.

/// A row: what leads it, its name and what is said beside it.
#[derive(Clone, Debug, PartialEq, Eq)]
pub struct ListRow {
    pub lead: String,
    pub name: String,
    pub details: Vec<String>,
}

#[verifier::ext_equal]
pub struct ListRowInfo {
    pub lead: Seq<char>,
    pub name: Seq<char>,
    pub details: Seq<Seq<char>>,
}

impl View for ListRow {
    type V = ListRowInfo;

    open spec fn view(&self) -> ListRowInfo {
        ListRowInfo { lead: self.lead@, name: self.name@, details: texts(self.details@) }
    }
}

pub open spec fn millis_text(duration_ms: nat) -> Seq<char> {
    time_text(whole_seconds(duration_ms * 1_000_000))
}

/// The row of a track: whether it is played or liked, its title, and, as far as
/// the pane is wide, its artists, album and duration.
pub open spec fn track_row_of(row: RowInfo, current: Option<u64>, wide: bool) -> ListRowInfo {
    let lead = if current == Some(row.id) {
        " ▶  "@
    } else if row.favorite {
        " ♥  "@
    } else {
        "    "@
    };
    if wide {
        ListRowInfo {
            lead,
            name: shortened(row.title, 28),
            details: seq![
                "  "@ + shortened(row.artists, 20),
                "  "@ + shortened(row.album, 20),
                "  "@ + millis_text(row.duration_ms),
            ],
        }
    } else {
        ListRowInfo {
            lead,
            name: shortened(row.title, 25),
            details: seq!["  "@ + shortened(row.artists, 18) + "  "@ + millis_text(row.duration_ms)],
        }
    }
}

/// From this width on a track shows its album.
pub const WIDE_LIST: u16 = 88;

/// Whether a list is wide enough for the albums of its tracks.
pub fn is_wide_list(width: u16) -> (r: bool)
    ensures
        r == (width >= WIDE_LIST),
{
    width >= WIDE_LIST
}

pub fn track_row(row: &TrackRow, current: Option<u64>, wide: bool) -> (r: ListRow)
    ensures
        r@ == track_row_of(row@, current, wide),
{
    let playing: bool = match current {
        Some(id) => id == row.id,
        None => false,
    };
    let lead: &str = if playing {
        " ▶  "
    } else if row.favorite {
        " ♥  "
    } else {
        "    "
    };
    let duration: String = format_time(Duration::from_millis(row.duration_ms));
    let mut details: Vec<String> = Vec::new();
    if wide {
        details.push(behind("  ", shorten(row.artists.as_str(), 20).as_str()));
        details.push(behind("  ", shorten(row.album.as_str(), 20).as_str()));
        details.push(behind("  ", duration.as_str()));
        let shown = ListRow { lead: lead.to_owned(), name: shorten(row.title.as_str(), 28), details };
        proof {
            assert(shown@.details =~= track_row_of(row@, current, wide).details);
        }
        shown
    } else {
        let mut text: String = between("  ", shorten(row.artists.as_str(), 18).as_str(), "  ");
        text.append(duration.as_str());
        details.push(text);
        let shown = ListRow { lead: lead.to_owned(), name: shorten(row.title.as_str(), 25), details };
        proof {
            assert(shown@.details =~= track_row_of(row@, current, wide).details);
        }
        shown
    }
}

pub open spec fn playlist_row_of(item: PlaylistInfo) -> ListRowInfo {
    ListRowInfo {
        lead: " ♫  "@,
        name: shortened(item.name, 46),
        details: seq!["  "@ + decimal(item.track_count) + " 首"@],
    }
}

pub fn playlist_row(item: &PlaylistSummary) -> (r: ListRow)
    ensures
        r@ == playlist_row_of(item@),
{
    let mut details: Vec<String> = Vec::new();
    details.push(between("  ", decimal_text(item.track_count).as_str(), " 首"));
    let shown = ListRow { lead: " ♫  ".to_owned(), name: shorten(item.name.as_str(), 46), details };
    proof {
        assert(shown@.details =~= playlist_row_of(item@).details);
    }
    shown
}

pub open spec fn album_row_of(item: AlbumInfo) -> ListRowInfo {
    ListRowInfo {
        lead: " ◉  "@,
        name: shortened(item.name, 34),
        details: seq!["  "@ + shortened(item.artists, 20) + "  ·  "@ + decimal(item.track_count) + " 首"@],
    }
}

pub fn album_row(item: &AlbumSummary) -> (r: ListRow)
    ensures
        r@ == album_row_of(item@),
{
    let mut text: String = between("  ", shorten(item.artists.as_str(), 20).as_str(), "  ·  ");
    text.append(decimal_text(item.track_count).as_str());
    text.append(" 首");
    let mut details: Vec<String> = Vec::new();
    details.push(text);
    let shown = ListRow { lead: " ◉  ".to_owned(), name: shorten(item.name.as_str(), 34), details };
    proof {
        assert(shown@.details =~= album_row_of(item@).details);
    }
    shown
}

pub open spec fn artist_row_of(item: ArtistInfo) -> ListRowInfo {
    ListRowInfo {
        lead: " ◇  "@,
        name: shortened(item.name, 40),
        details: seq!["  "@ + decimal(item.music_count) + " 首 · "@ + decimal(item.album_count) + " 张专辑"@],
    }
}

pub fn artist_row(item: &ArtistSummary) -> (r: ListRow)
    ensures
        r@ == artist_row_of(item@),
{
    let mut text: String = between("  ", decimal_text(item.music_count).as_str(), " 首 · ");
    text.append(decimal_text(item.album_count).as_str());
    text.append(" 张专辑");
    let mut details: Vec<String> = Vec::new();
    details.push(text);
    let shown = ListRow { lead: " ◇  ".to_owned(), name: shorten(item.name.as_str(), 40), details };
    proof {
        assert(shown@.details =~= artist_row_of(item@).details);
    }
    shown
}

// The navigation.

/// A line of the navigation: the name of a group, or an entry.
#[derive(Clone, Debug, PartialEq, Eq)]
pub struct NavLine {
    pub text: String,
    /// The entry, or none for the name of a group.
    pub entry: Option<usize>,
}

pub struct NavInfo {
    pub text: Seq<char>,
    pub entry: Option<usize>,
}

impl View for NavLine {
    type V = NavInfo;

    open spec fn view(&self) -> NavInfo {
        NavInfo { text: self.text@, entry: self.entry }
    }
}

pub open spec fn nav_infos(lines: Seq<NavLine>) -> Seq<NavInfo> {
    lines.map_values(|line: NavLine| line@)
}

/// The text of an entry.
pub open spec fn entry_text(index: int, selected: nat, focused: bool) -> Seq<char> {
    " "@ + (if index == selected && focused {
        "▶"@
    } else if index == selected {
        "○"@
    } else {
        " "@
    }) + " "@ + label_of(all_routes()[index])
}

/// Whether an entry is the first of its group.
pub open spec fn leads_group(index: int) -> bool {
    index == 0 || index == 3 || index == 6 || index == 11 || index == 13
}

/// The lines of an entry: the name of its group, if it leads one, and its own.
pub open spec fn entry_lines(index: int, grouped: bool, selected: nat, focused: bool) -> Seq<NavInfo> {
    let own = NavInfo { text: entry_text(index, selected, focused), entry: Some(index as usize) };
    if grouped && leads_group(index) {
        seq![NavInfo { text: " "@ + group_of(all_routes()[index]), entry: None }, own]
    } else {
        seq![own]
    }
}

/// The lines of the first `n` entries.
pub open spec fn nav_lines_of(n: int, grouped: bool, selected: nat, focused: bool) -> Seq<NavInfo>
    decreases n,
{
    if n <= 0 {
        seq![]
    } else {
        nav_lines_of(n - 1, grouped, selected, focused) + entry_lines(n - 1, grouped, selected, focused)
    }
}

fn push_nav_line(lines: &mut Vec<NavLine>, text: String, entry: Option<usize>)
    ensures
        nav_infos(final(lines)@) == nav_infos(old(lines)@).push(NavInfo { text: text@, entry }),
{
    let ghost held = lines@;
    lines.push(NavLine { text, entry });
    proof {
        assert(nav_infos(lines@) =~= nav_infos(held).push(NavInfo { text: text@, entry }));
    }
}

fn push_entry(lines: &mut Vec<NavLine>, index: usize, grouped: bool, selected: usize, focused: bool)
    requires
        index < 14,
    ensures
        nav_infos(final(lines)@) == nav_infos(old(lines)@) + entry_lines(index as int, grouped, selected as nat, focused),
{
    let route: Route = Route::at(index);
    let marker: &str = if index == selected {
        if focused {
            "▶"
        } else {
            "○"
        }
    } else {
        " "
    };
    let mut text: String = between(" ", marker, " ");
    text.append(route.label());
    let ghost wanted = nav_infos(lines@) + entry_lines(index as int, grouped, selected as nat, focused);
    proof {
        assert(text@ == entry_text(index as int, selected as nat, focused));
    }
    if grouped && Route::starts_group(index) {
        push_nav_line(lines, behind(" ", route.group()), None);
        push_nav_line(lines, text, Some(index));
        proof {
            assert(nav_infos(lines@) =~= wanted);
        }
    } else {
        push_nav_line(lines, text, Some(index));
        proof {
            assert(nav_infos(lines@) =~= wanted);
        }
    }
}

impl App {
    /// The lines of the navigation, with the names of the groups if there is
    /// room for them.
    pub fn navigation_lines(&self, grouped: bool) -> (r: Vec<NavLine>)
        ensures
            nav_infos(r@) == nav_lines_of(14, grouped, self@.nav_selected, self@.focus == Focus::Navigation),
    {
        let focused: bool = self.focus == Focus::Navigation;
        let selected: usize = self.nav_selected;
        let mut lines: Vec<NavLine> = Vec::new();
        let mut index: usize = 0;
        proof {
            assert(nav_infos(lines@) =~= seq![]);
        }
        while index < ROUTE_COUNT
            invariant
                index <= 14,
                nav_infos(lines@) == nav_lines_of(index as int, grouped, selected as nat, focused),
            decreases 14 - index,
        {
            push_entry(&mut lines, index, grouped, selected, focused);
            index += 1;
        }
        lines
    }
}

proof fn lemma_grouped_lines(n: int, selected: nat, focused: bool)
    requires
        0 <= n <= 14,
    ensures
        nav_lines_of(n, true, selected, focused).len() == lines_before(n),
        forall|row: int|
            0 <= row < lines_before(n) ==> (#[trigger] nav_lines_of(n, true, selected, focused)[row]).entry
                == grouped_lines()[row],
    decreases n,
{
    if n > 0 {
        lemma_grouped_lines(n - 1, selected, focused);
        let before = nav_lines_of(n - 1, true, selected, focused);
        let all = nav_lines_of(n, true, selected, focused);
        assert(all == before + entry_lines(n - 1, true, selected, focused));
        assert(grouped_lines()[lines_before(n) - 1] == Some((n - 1) as usize));
        assert(leads_group(n - 1) ==> grouped_lines()[lines_before(n - 1)] is None);
        assert forall|row: int| 0 <= row < lines_before(n) implies (#[trigger] all[row]).entry == grouped_lines()[row] by {
            if row < lines_before(n - 1) {
                assert(all[row] == before[row]);
            }
        }
    }
}

/// How many lines the first `n` entries take with the names of their groups.
pub open spec fn lines_before(n: int) -> int {
    if n <= 0 {
        0
    } else if n <= 3 {
        n + 1
    } else if n <= 6 {
        n + 2
    } else if n <= 11 {
        n + 3
    } else if n <= 13 {
        n + 4
    } else {
        n + 5
    }
}

proof fn lemma_plain_lines(n: int, selected: nat, focused: bool)
    requires
        0 <= n <= 14,
    ensures
        nav_lines_of(n, false, selected, focused).len() == n,
        forall|row: int|
            0 <= row < n ==> (#[trigger] nav_lines_of(n, false, selected, focused)[row]).entry == Some(row as usize),
    decreases n,
{
    if n > 0 {
        lemma_plain_lines(n - 1, selected, focused);
        let before = nav_lines_of(n - 1, false, selected, focused);
        let all = nav_lines_of(n, false, selected, focused);
        assert(all == before + entry_lines(n - 1, false, selected, focused));
        assert forall|row: int| 0 <= row < n implies (#[trigger] all[row]).entry == Some(row as usize) by {
            if row < n - 1 {
                assert(all[row] == before[row]);
            }
        }
    }
}

/// A click on a line of the navigation opens the entry that is written there;
/// on the name of a group it opens nothing.
pub proof fn lemma_navigation_is_what_is_clicked(height: u16, selected: nat, focused: bool, row: int)
    requires
        0 <= row < nav_lines_of(14, height >= 19, selected, focused).len(),
    ensures
        nav_index_of(row, height) == nav_lines_of(14, height >= 19, selected, focused)[row].entry,
{
    lemma_grouped_lines(14, selected, focused);
    lemma_plain_lines(14, selected, focused);
}

// Lyrics.

pub open spec fn lyrics_title_of(track: Option<RowInfo>) -> Seq<char> {
    match track {
        Some(row) => " 歌词 · "@ + row.title + " — "@ + row.artists + " "@,
        None => " 歌词 "@,
    }
}

/// What is said in place of lyrics.
pub open spec fn lyrics_text(app: AppView) -> Option<Seq<char>> {
    let other = Some("正在切换歌曲…"@);
    match app.playback.lyrics {
        LyricsInfo::Idle => Some("播放歌曲后显示歌词"@),
        LyricsInfo::Loading(id) => if app.playback.current == Some(id) {
            Some(spinner_of(app.tick as nat) + " 正在加载歌词"@)
        } else {
            other
        },
        LyricsInfo::Error(id, message) => if app.playback.current == Some(id) {
            Some("歌词加载失败 · "@ + message)
        } else {
            other
        },
        LyricsInfo::Ready(id, lyrics) => if app.playback.current == Some(id) {
            if lyrics.original.len() == 0 {
                Some("纯音乐，请欣赏"@)
            } else {
                None
            }
        } else {
            other
        },
    }
}

impl App {
    pub fn lyrics_title(&self) -> (r: String)
        ensures
            r@ == lyrics_title_of(self@.playback.current_track),
    {
        match &self.playback.current_track {
            Some(track) => {
                let mut text: String = between(" 歌词 · ", track.title.as_str(), " — ");
                text.append(track.artists.as_str());
                text.append(" ");
                text
            },
            None => " 歌词 ".to_owned(),
        }
    }

    fn plays(&self, id: u64) -> (r: bool)
        ensures
            r == (self@.playback.current == Some(id)),
    {
        match self.playback.current {
            Some(current) => current == id,
            None => false,
        }
    }

    /// What is said in place of lyrics, where there are none to show.
    pub fn lyrics_message(&self) -> (r: Option<String>)
        ensures
            text_option(r) == lyrics_text(self@),
    {
        match &self.playback.lyrics {
            LyricsState::Idle => Some("播放歌曲后显示歌词".to_owned()),
            LyricsState::Loading(id) => if self.plays(*id) {
                Some(behind(spinner(self.tick), " 正在加载歌词"))
            } else {
                Some("正在切换歌曲…".to_owned())
            },
            LyricsState::Error(id, message) => if self.plays(*id) {
                Some(behind("歌词加载失败 · ", message.as_str()))
            } else {
                Some("正在切换歌曲…".to_owned())
            },
            LyricsState::Ready(id, lyrics) => if self.plays(*id) {
                if lyrics.is_empty() {
                    Some("纯音乐，请欣赏".to_owned())
                } else {
                    None
                }
            } else {
                Some("正在切换歌曲…".to_owned())
            },
        }
    }
}

// Downloads and the playback cache.

pub open spec fn job_name(kind: JobKind) -> Seq<char> {
    match kind {
        JobKind::Download => "正在下载"@,
        JobKind::Organize => "正在整理"@,
        JobKind::Scan => "正在扫描音乐目录"@,
        JobKind::Import => "正在导入本地音乐"@,
    }
}

/// The headline of the downloads, and what is said below it.
pub open spec fn downloads_text(app: AppView) -> (Seq<char>, Seq<char>) {
    match app.jobs.active_job {
        Some(job) => (spinner_of(app.tick as nat) + " "@ + job_name(job.kind), "Esc 取消下载"@),
        None => if app.prompt.mode == InputMode::Download {
            ("新建下载  "@ + app.prompt.input, "track 347230 · album 32311 3-8 · playlist 3778678 1-20"@)
        } else {
            ("新建下载"@, "按 D 或点击这里"@)
        },
    }
}

pub open spec fn cache_detail(used: nat, limit: nat, entries: nat) -> Seq<char> {
    size_text(used) + " / "@ + size_text(limit) + " · "@ + decimal(entries) + " 首"@
}

pub open spec fn cache_hint(app: AppView, now: Instant) -> Seq<char> {
    if app.jobs.cache_pending {
        spinner_of(app.tick as nat) + " 缓存操作中…"@
    } else if app.clear_armed(now) {
        "再次按 X 确认清除 · 当前播放不会中断"@
    } else {
        "s 设置上限 · X 清除缓存"@
    }
}

impl App {
    pub fn downloads_lines(&self) -> (r: (String, String))
        ensures
            (r.0@, r.1@) == downloads_text(self@),
    {
        if let Some(job) = self.jobs.active_job {
            let name: &str = match job.kind {
                JobKind::Download => "正在下载",
                JobKind::Organize => "正在整理",
                JobKind::Scan => "正在扫描音乐目录",
                JobKind::Import => "正在导入本地音乐",
            };
            return (between(spinner(self.tick), " ", name), "Esc 取消下载".to_owned());
        }
        if self.prompt.mode == InputMode::Download {
            (
                behind("新建下载  ", self.prompt.input.as_str()),
                "track 347230 · album 32311 3-8 · playlist 3778678 1-20".to_owned(),
            )
        } else {
            ("新建下载".to_owned(), "按 D 或点击这里".to_owned())
        }
    }

    /// How full the playback cache is, and what can be done about it.
    pub fn cache_lines(&self, now: Instant) -> (r: (String, String))
        ensures
            r.0@ == cache_detail(
                self@.setup.cache_stats.used_bytes as nat,
                self@.setup.cache_stats.max_bytes as nat,
                self@.setup.cache_stats.entries as nat,
            ),
            r.1@ == cache_hint(self@, now),
    {
        let stats = self.setup.cache_stats;
        let mut detail: String = between(
            format_bytes(stats.used_bytes).as_str(),
            " / ",
            format_bytes(stats.max_bytes).as_str(),
        );
        detail.append(" · ");
        detail.append(decimal_text(stats.entries as u64).as_str());
        detail.append(" 首");
        let armed: bool = match self.jobs.cache_clear_armed_until {
            Some(deadline) => deadline.nanos >= now.nanos,
            None => false,
        };
        let hint: String = if self.jobs.cache_pending {
            behind(spinner(self.tick), " 缓存操作中…")
        } else if armed {
            "再次按 X 确认清除 · 当前播放不会中断".to_owned()
        } else {
            "s 设置上限 · X 清除缓存".to_owned()
        };
        (detail, hint)
    }
}

// The player.

/// What is said of the track that is played.
#[verifier::ext_equal]
pub struct SongInfo {
    pub icon: Seq<char>,
    pub title: Seq<char>,
    pub rest: Seq<char>,
}

#[derive(Clone, Debug, PartialEq, Eq)]
pub struct SongLine {
    pub icon: String,
    pub title: String,
    pub rest: String,
}

impl View for SongLine {
    type V = SongInfo;

    open spec fn view(&self) -> SongInfo {
        SongInfo { icon: self.icon@, title: self.title@, rest: self.rest@ }
    }
}

pub open spec fn song_of(app: AppView) -> SongInfo {
    let state = app.playback.player_state;
    let title = match app.playback.current_track {
        Some(row) => row.title,
        None => seq![],
    };
    let artists = match app.playback.current_track {
        Some(row) => row.artists,
        None => seq![],
    };
    let album = match app.playback.current_track {
        Some(row) => row.album,
        None => seq![],
    };
    SongInfo {
        icon: if state.title@.len() == 0 {
            "■  "@
        } else if state.paused {
            "▶  "@
        } else {
            "Ⅱ  "@
        },
        title: shortened(
            if title.len() == 0 {
                "尚未播放"@
            } else {
                title
            },
            30,
        ),
        rest: " · "@ + shortened(
            if artists.len() == 0 {
                "选择歌曲开始播放"@
            } else {
                artists
            },
            20,
        ) + if album.len() == 0 {
            seq![]
        } else {
            " · "@ + shortened(album, 16)
        },
    }
}

impl App {
    pub fn song_line(&self) -> (r: SongLine)
        ensures
            r@ == song_of(self@),
    {
        let state = &self.playback.player_state;
        let icon: &str = if state.title.as_str().unicode_len() == 0 {
            "■  "
        } else if state.paused {
            "▶  "
        } else {
            "Ⅱ  "
        };
        let mut title: &str = "尚未播放";
        let mut artists: &str = "选择歌曲开始播放";
        let mut album: Option<&str> = None;
        if let Some(track) = &self.playback.current_track {
            if track.title.as_str().unicode_len() > 0 {
                title = track.title.as_str();
            }
            if track.artists.as_str().unicode_len() > 0 {
                artists = track.artists.as_str();
            }
            if track.album.as_str().unicode_len() > 0 {
                album = Some(track.album.as_str());
            }
        }
        let mut rest: String = behind(" · ", shorten(artists, 20).as_str());
        let ghost head = rest@;
        match album {
            Some(name) => {
                rest.append(behind(" · ", shorten(name, 16).as_str()).as_str());
            },
            None => {
                proof {
                    assert(head + seq![] =~= head);
                }
            },
        }
        SongLine { icon: icon.to_owned(), title: shorten(title, 30), rest }
    }
}

// The details of a track.

/// The lines of the details: what is told, and its value.
pub open spec fn details_of(row: RowInfo) -> Seq<(Seq<char>, Seq<char>)> {
    seq![
        ("艺术家  "@, row.artists),
        ("专辑    "@, row.album),
        ("时长    "@, millis_text(row.duration_ms)),
        (
            "状态    "@,
            if row.path is Some {
                "已下载"@
            } else {
                "在线"@
            },
        ),
        ("播放    "@, decimal(row.play_count)),
        (
            "格式    "@,
            if row.format.len() == 0 {
                "—"@
            } else {
                uppercase(row.format)
            },
        ),
        ("大小    "@, size_text(row.bytes)),
        (
            "路径    "@,
            match row.path {
                Some(path) => path,
                None => "—"@,
            },
        ),
        ("NCM ID  "@, decimal(row.id as nat)),
    ]
}

pub open spec fn pair_texts(lines: Seq<(String, String)>) -> Seq<(Seq<char>, Seq<char>)> {
    lines.map_values(|line: (String, String)| (line.0@, line.1@))
}

pub fn detail_lines(row: &TrackRow) -> (r: Vec<(String, String)>)
    ensures
        pair_texts(r@) == details_of(row@),
{
    let mut lines: Vec<(String, String)> = Vec::new();
    lines.push(("艺术家  ".to_owned(), row.artists.clone()));
    lines.push(("专辑    ".to_owned(), row.album.clone()));
    lines.push(("时长    ".to_owned(), format_time(Duration::from_millis(row.duration_ms))));
    let state: &str = if row.path.is_some() {
        "已下载"
    } else {
        "在线"
    };
    lines.push(("状态    ".to_owned(), state.to_owned()));
    lines.push(("播放    ".to_owned(), decimal_text(row.play_count)));
    let format: String = if row.format.as_str().unicode_len() == 0 {
        "—".to_owned()
    } else {
        to_uppercase(row.format.as_str())
    };
    lines.push(("格式    ".to_owned(), format));
    lines.push(("大小    ".to_owned(), format_bytes(row.bytes)));
    let path: String = match &row.path {
        Some(path) => path.clone(),
        None => "—".to_owned(),
    };
    lines.push(("路径    ".to_owned(), path));
    lines.push(("NCM ID  ".to_owned(), decimal_text(row.id)));
    proof {
        assert(pair_texts(lines@) =~= details_of(row@));
    }
    lines
}

// The help.

/// A line of the help.
#[derive(Clone, Debug, PartialEq, Eq)]
pub struct HelpLine {
    pub heading: bool,
    pub text: String,
}

pub open spec fn help_infos(lines: Seq<HelpLine>) -> Seq<(bool, Seq<char>)> {
    lines.map_values(|line: HelpLine| (line.heading, line.text@))
}

pub open spec fn hints_text(actions: Seq<UiAction>) -> Seq<char> {
    joined(hints_of(actions), "  ·  "@)
}

/// How to move about.
pub open spec fn browsing_help() -> Seq<(bool, Seq<char>)> {
    seq![
        (true, "浏览"@),
        (
            false,
            hints_text(seq![UiAction::SelectNext, UiAction::SelectFirst, UiAction::Activate, UiAction::Back]),
        ),
        (false, "←/→ 或 Tab/Shift+Tab 切换相邻栏 · Enter 向右展开/播放"@),
        (false, "Esc 收起当前栏 · 单击选择 · 双击打开 · 滚轮浏览"@),
        (false, ""@),
    ]
}

/// How to play.
pub open spec fn music_help() -> Seq<(bool, Seq<char>)> {
    seq![
        (true, "音乐"@),
        (
            false,
            hints_text(
                seq![
                    UiAction::TogglePause,
                    UiAction::PreviousTrack,
                    UiAction::NextTrack,
                    UiAction::SeekForward,
                    UiAction::VolumeUp,
                ],
            ),
        ),
        (
            false,
            hints_text(
                seq![
                    UiAction::ToggleLyrics,
                    UiAction::CycleMode,
                    UiAction::Enqueue,
                    UiAction::ToggleFavorite,
                    UiAction::Details,
                ],
            ),
        ),
        (false, "l 聚焦并放大歌词，再按恢复 · [/] 快退/快进"@),
        (false, "音量处滚轮调节；进度轨道可点击"@),
        (false, ""@),
    ]
}

/// How to use the service and the library.
pub open spec fn service_help() -> Seq<(bool, Seq<char>)> {
    seq![
        (true, "网易云"@),
        (
            false,
            hint_of(UiAction::Search) + "  ·  F1/F2/F3/F4 搜索歌曲/专辑/歌手/歌单  ·  "@ + hint_of(UiAction::Login),
        ),
        (
            false,
            hints_text(
                seq![
                    UiAction::Download,
                    UiAction::Organize,
                    UiAction::Dequeue,
                    UiAction::Refresh,
                    UiAction::ToggleHelp,
                    UiAction::Quit,
                ],
            ),
        ),
        (false, hints_text(seq![UiAction::EditCacheSize, UiAction::ClearCache])),
        (
            false,
            hint_of(UiAction::Import) + "  导入本地文件或目录  ·  "@ + hint_of(UiAction::Refresh) + "  扫描已配置目录"@,
        ),
        (false, ""@),
    ]
}

/// How to type, and how to read on.
pub open spec fn typing_help() -> Seq<(bool, Seq<char>)> {
    seq![
        (true, "输入框"@),
        (false, "←/→ 移动光标 · Home/End 首尾 · Backspace/Delete 删除"@),
        (false, "Enter 确认 · Esc 取消"@),
        (false, ""@),
        (true, "帮助滚动"@),
        (false, "↑↓/jk 逐行 · PgUp/PgDn 翻页 · Home/End 首尾"@),
        (false, "滚轮滚动 · 单击或 Esc 关闭"@),
    ]
}

fn push_help(lines: &mut Vec<HelpLine>, heading: bool, text: String)
    ensures
        help_infos(final(lines)@) == help_infos(old(lines)@).push((heading, text@)),
{
    let ghost held = lines@;
    lines.push(HelpLine { heading, text });
    proof {
        assert(help_infos(lines@) =~= help_infos(held).push((heading, text@)));
    }
}

fn push_hints(lines: &mut Vec<HelpLine>, actions: Vec<UiAction>)
    ensures
        help_infos(final(lines)@) == help_infos(old(lines)@).push((false, hints_text(actions@))),
{
    push_help(lines, false, hint_line(actions.as_slice()));
}

fn push_browsing_help(lines: &mut Vec<HelpLine>)
    ensures
        help_infos(final(lines)@) == help_infos(old(lines)@) + browsing_help(),
{
    push_help(lines, true, "浏览".to_owned());
    push_hints(lines, vec![UiAction::SelectNext, UiAction::SelectFirst, UiAction::Activate, UiAction::Back]);
    push_help(lines, false, "←/→ 或 Tab/Shift+Tab 切换相邻栏 · Enter 向右展开/播放".to_owned());
    push_help(lines, false, "Esc 收起当前栏 · 单击选择 · 双击打开 · 滚轮浏览".to_owned());
    push_help(lines, false, "".to_owned());
    proof {
        assert(help_infos(lines@) =~= help_infos(old(lines)@) + browsing_help());
    }
}

fn push_music_help(lines: &mut Vec<HelpLine>)
    ensures
        help_infos(final(lines)@) == help_infos(old(lines)@) + music_help(),
{
    push_help(lines, true, "音乐".to_owned());
    push_hints(
        lines,
        vec![
            UiAction::TogglePause,
            UiAction::PreviousTrack,
            UiAction::NextTrack,
            UiAction::SeekForward,
            UiAction::VolumeUp,
        ],
    );
    push_hints(
        lines,
        vec![
            UiAction::ToggleLyrics,
            UiAction::CycleMode,
            UiAction::Enqueue,
            UiAction::ToggleFavorite,
            UiAction::Details,
        ],
    );
    push_help(lines, false, "l 聚焦并放大歌词，再按恢复 · [/] 快退/快进".to_owned());
    push_help(lines, false, "音量处滚轮调节；进度轨道可点击".to_owned());
    push_help(lines, false, "".to_owned());
    proof {
        assert(help_infos(lines@) =~= help_infos(old(lines)@) + music_help());
    }
}

fn push_service_help(lines: &mut Vec<HelpLine>)
    ensures
        help_infos(final(lines)@) == help_infos(old(lines)@) + service_help(),
{
    push_help(lines, true, "网易云".to_owned());
    push_help(
        lines,
        false,
        between(
            format_action_hint(UiAction::Search).as_str(),
            "  ·  F1/F2/F3/F4 搜索歌曲/专辑/歌手/歌单  ·  ",
            format_action_hint(UiAction::Login).as_str(),
        ),
    );
    push_hints(
        lines,
        vec![
            UiAction::Download,
            UiAction::Organize,
            UiAction::Dequeue,
            UiAction::Refresh,
            UiAction::ToggleHelp,
            UiAction::Quit,
        ],
    );
    push_hints(lines, vec![UiAction::EditCacheSize, UiAction::ClearCache]);
    let mut text: String = between(
        format_action_hint(UiAction::Import).as_str(),
        "  导入本地文件或目录  ·  ",
        format_action_hint(UiAction::Refresh).as_str(),
    );
    text.append("  扫描已配置目录");
    push_help(lines, false, text);
    push_help(lines, false, "".to_owned());
    proof {
        assert(help_infos(lines@) =~= help_infos(old(lines)@) + service_help());
    }
}

fn push_typing_help(lines: &mut Vec<HelpLine>)
    ensures
        help_infos(final(lines)@) == help_infos(old(lines)@) + typing_help(),
{
    push_help(lines, true, "输入框".to_owned());
    push_help(lines, false, "←/→ 移动光标 · Home/End 首尾 · Backspace/Delete 删除".to_owned());
    push_help(lines, false, "Enter 确认 · Esc 取消".to_owned());
    push_help(lines, false, "".to_owned());
    push_help(lines, true, "帮助滚动".to_owned());
    push_help(lines, false, "↑↓/jk 逐行 · PgUp/PgDn 翻页 · Home/End 首尾".to_owned());
    push_help(lines, false, "滚轮滚动 · 单击或 Esc 关闭".to_owned());
    proof {
        assert(help_infos(lines@) =~= help_infos(old(lines)@) + typing_help());
    }
}

/// The lines of the help.
pub fn help_lines() -> (r: Vec<HelpLine>)
    ensures
        help_infos(r@) == browsing_help() + music_help() + service_help() + typing_help(),
{
    let mut lines: Vec<HelpLine> = Vec::new();
    proof {
        assert(help_infos(lines@) + browsing_help() =~= browsing_help());
    }
    push_browsing_help(&mut lines);
    push_music_help(&mut lines);
    push_service_help(&mut lines);
    push_typing_help(&mut lines);
    lines
}

// What the panes say.

/// A row shows the start of the title, the artists, the album and the
/// duration of its track; the track that plays is marked before one that is
/// liked.
pub proof fn lemma_track_row(row: RowInfo, current: Option<u64>)
    ensures
        current == Some(row.id) ==> track_row_of(row, current, true).lead == " ▶  "@ && track_row_of(
            row,
            current,
            false,
        ).lead == " ▶  "@,
        current != Some(row.id) && row.favorite ==> track_row_of(row, current, true).lead == " ♥  "@,
        current != Some(row.id) && !row.favorite ==> track_row_of(row, current, true).lead == "    "@,
        row.title.len() <= 25 ==> track_row_of(row, current, true).name == row.title && track_row_of(
            row,
            current,
            false,
        ).name == row.title,
        row.artists.len() <= 20 ==> track_row_of(row, current, true).details[0] == "  "@ + row.artists,
        row.album.len() <= 20 ==> track_row_of(row, current, true).details[1] == "  "@ + row.album,
        track_row_of(row, current, true).details[2] == "  "@ + millis_text(row.duration_ms),
        row.artists.len() <= 18 ==> track_row_of(row, current, false).details[0] == "  "@ + row.artists + "  "@
            + millis_text(row.duration_ms),
{
}

/// The lines of the navigation are those of the entries in their order; the
/// name of a group stands before its first entry.
pub proof fn lemma_navigation_lines(index: int, selected: nat, focused: bool)
    requires
        0 <= index < 14,
    ensures
        entry_lines(index, false, selected, focused).len() == 1,
        entry_lines(index, true, selected, focused).last() == entry_lines(index, false, selected, focused)[0],
        entry_lines(index, false, selected, focused)[0].entry == Some(index as usize),
        entry_lines(index, true, selected, focused).len() == 2 <==> index == 0 || group_of(all_routes()[index])
            != group_of(all_routes()[index - 1]),
{
    reveal_strlit("发现");
    reveal_strlit("我的音乐");
    reveal_strlit("我的收藏");
    reveal_strlit("播放");
    reveal_strlit("账号");
    assert("发现"@[0] == '发' && "播放"@[0] == '播' && "账号"@[0] == '账');
    assert("我的音乐"@[2] == '音' && "我的收藏"@[2] == '收');
    assert("发现"@ != "我的音乐"@ && "我的音乐"@ != "我的收藏"@ && "我的收藏"@ != "播放"@ && "播放"@ != "账号"@);
}

/// Lyrics are shown only for the track that plays and where there are any;
/// everything else is said in words.
pub proof fn lemma_lyrics_said(app: AppView)
    ensures
        lyrics_text(app) is None <==> app.playback.lyrics is Ready && app.playback.current == Some(
            app.playback.lyrics->Ready_0,
        ) && app.playback.lyrics->Ready_1.original.len() > 0,
{
}

/// The account and the downloads have panes of their own; a pane that holds
/// something lists it, unless it is the empty library.
pub proof fn lemma_pane_bodies(app: AppView)
    ensures
        body_of(app) is Account <==> app.route == Route::Account,
        body_of(app) is Downloads <==> app.route == Route::Downloads,
        app.route != Route::Account && app.route != Route::Downloads && app.pane.content.count() > 0 ==> body_of(
            app,
        ) is List,
        app.pane.content is Empty ==> body_of(app) !is List,
{
}

/// The details name each thing and give that thing.
pub proof fn lemma_details(row: RowInfo)
    ensures
        details_of(row).len() == 9,
        details_of(row)[0].1 == row.artists,
        details_of(row)[1].1 == row.album,
        details_of(row)[2].1 == millis_text(row.duration_ms),
        details_of(row)[4].1 == decimal(row.play_count),
        details_of(row)[6].1 == size_text(row.bytes),
        row.path is Some ==> details_of(row)[7].1 == row.path->0 && details_of(row)[3].1 == "已下载"@,
        row.path is None ==> details_of(row)[7].1 == "—"@ && details_of(row)[3].1 == "在线"@,
        details_of(row)[8].1 == decimal(row.id as nat),
{
}

/// A duration in milliseconds is shown in whole seconds.
pub proof fn lemma_millis_shown(seconds: u64, rest: nat)
    requires
        rest < 1000,
    ensures
        millis_text(1000 * seconds as nat + rest) == time_text(seconds as nat),
{
    let nanos = (1000 * seconds as nat + rest) * 1_000_000;
    assert(nanos / 1_000_000_000 == seconds);
}

} // verus!
