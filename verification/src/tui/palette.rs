//! The commands that can be looked for by name.

use vstd::prelude::*;

use crate::palette::{filter_items, fuzzy_matches, matches_of, PaletteItem};
use crate::text::trim_of;
use crate::time::Instant;
use crate::tui::app::{App, AppView, OverlayView};
use crate::tui::input::{submits, KeyCode, KeyEvent};
use crate::tui::routes::{all_routes, hint_key, label_of, InputMode, Route, UiAction};

verus! {

/// The entries of the navigation as commands: a title, a hint and keywords.
pub open spec fn route_entries() -> Seq<(Seq<char>, Seq<char>, Seq<char>)> {
    seq![
        ("每日推荐"@, "跳转"@, "daily"@),
        ("推荐歌单"@, "跳转"@, "recommended playlists"@),
        ("在线搜索"@, "跳转"@, "search online"@),
        ("我喜欢的音乐"@, "跳转"@, "favorites liked"@),
        ("本地音乐"@, "跳转"@, "local library"@),
        ("最近播放"@, "跳转"@, "recent history"@),
        ("听歌排行"@, "跳转"@, "ranking"@),
        ("创建的歌单"@, "跳转"@, "created playlists"@),
        ("收藏的歌单"@, "跳转"@, "subscribed playlists"@),
        ("收藏的歌手"@, "跳转"@, "artists"@),
        ("收藏的专辑"@, "跳转"@, "albums"@),
        ("播放队列"@, "跳转"@, "queue"@),
        ("下载管理"@, "跳转"@, "downloads"@),
        ("账号与登录"@, "跳转"@, "account"@),
    ]
}

/// The other commands; the hint is their key.
pub open spec fn action_entries() -> Seq<(Seq<char>, Seq<char>, Seq<char>)> {
    seq![
        ("导入本地音乐"@, "I"@, "import scan"@),
        ("搜索"@, "/"@, "search find"@),
        ("新建下载"@, "D"@, "download"@),
        ("扫码登录"@, "L"@, "login"@),
        ("刷新"@, "r"@, "refresh reload"@),
        ("播放/暂停"@, "Space"@, "play pause"@),
        ("上一首"@, "p"@, "previous track"@),
        ("下一首"@, "n"@, "next track"@),
        ("播放模式"@, "m"@, "mode shuffle repeat"@),
        ("歌词"@, "l"@, "lyrics"@),
        ("关闭/打开歌词栏"@, "h"@, "hide lyrics panel"@),
        ("缓存大小"@, "s"@, "cache size"@),
        ("清除缓存"@, "X"@, "clear cache"@),
        ("帮助"@, "?"@, "help keys"@),
    ]
}

/// What the other commands do.
pub open spec fn entry_actions() -> Seq<UiAction> {
    seq![
        UiAction::Import,
        UiAction::Search,
        UiAction::Download,
        UiAction::Login,
        UiAction::Refresh,
        UiAction::TogglePause,
        UiAction::PreviousTrack,
        UiAction::NextTrack,
        UiAction::CycleMode,
        UiAction::ToggleLyrics,
        UiAction::ToggleLyricsPanel,
        UiAction::EditCacheSize,
        UiAction::ClearCache,
        UiAction::ToggleHelp,
    ]
}

/// The number of commands.
pub const COMMAND_COUNT: usize = 28;

/// What a command does.
pub open spec fn action_at(index: int) -> UiAction {
    if index < 14 {
        UiAction::OpenRoute(all_routes()[index])
    } else {
        entry_actions()[index - 14]
    }
}

pub fn palette_action(index: usize) -> (r: UiAction)
    requires
        index < COMMAND_COUNT,
    ensures
        r == action_at(index as int),
        r != UiAction::Quit,
{
    if index < 14 {
        return UiAction::OpenRoute(Route::at(index));
    }
    match index {
        14 => UiAction::Import,
        15 => UiAction::Search,
        16 => UiAction::Download,
        17 => UiAction::Login,
        18 => UiAction::Refresh,
        19 => UiAction::TogglePause,
        20 => UiAction::PreviousTrack,
        21 => UiAction::NextTrack,
        22 => UiAction::CycleMode,
        23 => UiAction::ToggleLyrics,
        24 => UiAction::ToggleLyricsPanel,
        25 => UiAction::EditCacheSize,
        26 => UiAction::ClearCache,
        _ => UiAction::ToggleHelp,
    }
}

pub open spec fn entry_views(items: Seq<PaletteItem>) -> Seq<(Seq<char>, Seq<char>, Seq<char>)> {
    items.map_values(|item: PaletteItem| (item.title@, item.hint@, item.keywords@))
}

fn push_item(items: &mut Vec<PaletteItem>, title: &str, hint: &str, keywords: &str)
    ensures
        entry_views(final(items)@) == entry_views(old(items)@).push((title@, hint@, keywords@)),
{
    let ghost held = items@;
    items.push(PaletteItem::new(title, hint, keywords));
    proof {
        assert(entry_views(items@) =~= entry_views(held).push((title@, hint@, keywords@)));
    }
}

fn push_routes(items: &mut Vec<PaletteItem>)
    ensures
        entry_views(final(items)@) == entry_views(old(items)@) + route_entries(),
{
    push_item(items, "每日推荐", "跳转", "daily");
    push_item(items, "推荐歌单", "跳转", "recommended playlists");
    push_item(items, "在线搜索", "跳转", "search online");
    push_item(items, "我喜欢的音乐", "跳转", "favorites liked");
    push_item(items, "本地音乐", "跳转", "local library");
    push_item(items, "最近播放", "跳转", "recent history");
    push_item(items, "听歌排行", "跳转", "ranking");
    push_item(items, "创建的歌单", "跳转", "created playlists");
    push_item(items, "收藏的歌单", "跳转", "subscribed playlists");
    push_item(items, "收藏的歌手", "跳转", "artists");
    push_item(items, "收藏的专辑", "跳转", "albums");
    push_item(items, "播放队列", "跳转", "queue");
    push_item(items, "下载管理", "跳转", "downloads");
    push_item(items, "账号与登录", "跳转", "account");
    proof {
        assert(entry_views(items@) =~= entry_views(old(items)@) + route_entries());
    }
}

fn push_actions(items: &mut Vec<PaletteItem>)
    ensures
        entry_views(final(items)@) == entry_views(old(items)@) + action_entries(),
{
    push_item(items, "导入本地音乐", "I", "import scan");
    push_item(items, "搜索", "/", "search find");
    push_item(items, "新建下载", "D", "download");
    push_item(items, "扫码登录", "L", "login");
    push_item(items, "刷新", "r", "refresh reload");
    push_item(items, "播放/暂停", "Space", "play pause");
    push_item(items, "上一首", "p", "previous track");
    push_item(items, "下一首", "n", "next track");
    push_item(items, "播放模式", "m", "mode shuffle repeat");
    push_item(items, "歌词", "l", "lyrics");
    push_item(items, "关闭/打开歌词栏", "h", "hide lyrics panel");
    push_item(items, "缓存大小", "s", "cache size");
    push_item(items, "清除缓存", "X", "clear cache");
    push_item(items, "帮助", "?", "help keys");
    proof {
        assert(entry_views(items@) =~= entry_views(old(items)@) + action_entries());
    }
}

fn is_submit(key: KeyEvent) -> (r: bool)
    ensures
        r == submits(key),
{
    !key.modifiers.control && !key.modifiers.alt && key.code == KeyCode::Enter
}

/// All commands.
pub fn palette_items() -> (r: Vec<PaletteItem>)
    ensures
        entry_views(r@) == route_entries() + action_entries(),
        r@.len() == COMMAND_COUNT,
{
    let mut items: Vec<PaletteItem> = Vec::new();
    proof {
        assert(entry_views(items@) + route_entries() =~= route_entries());
    }
    push_routes(&mut items);
    push_actions(&mut items);
    proof {
        assert(entry_views(items@).len() == items@.len());
    }
    items
}

/// The positions of the commands that a query finds.
pub open spec fn found_in(entries: Seq<(Seq<char>, Seq<char>, Seq<char>)>, query: Seq<char>) -> Seq<usize>
    decreases entries.len(),
{
    if entries.len() == 0 {
        seq![]
    } else {
        let before = found_in(entries.drop_last(), query);
        let (title, hint, keywords) = entries.last();
        if fuzzy_matches(title + " "@ + hint + " "@ + keywords, query) {
            before.push((entries.len() - 1) as usize)
        } else {
            before
        }
    }
}

proof fn lemma_found(items: Seq<PaletteItem>, query: Seq<char>)
    requires
        items.len() <= usize::MAX,
    ensures
        matches_of(items, query) == found_in(entry_views(items), query),
        forall|k: int| 0 <= k < matches_of(items, query).len() ==> #[trigger] matches_of(items, query)[k] < items.len(),
    decreases items.len(),
{
    if items.len() > 0 {
        lemma_found(items.drop_last(), query);
        assert(entry_views(items).drop_last() =~= entry_views(items.drop_last()));
        assert(entry_views(items).last() == (items.last().title@, items.last().hint@, items.last().keywords@));
    }
}

impl AppView {
    /// The commands that what is typed finds.
    pub open spec fn commands_found(self) -> Seq<usize> {
        found_in(route_entries() + action_entries(), trim_of(self.prompt.input))
    }

    /// A command is looked for.
    #[verifier::opaque]
    pub open spec fn palette_opened(self) -> AppView {
        AppView {
            prompt: self.prompt.cleared(InputMode::Palette),
            overlay: OverlayView { palette_selected: 0, ..self.overlay },
            ..self
        }
    }

    /// Another of the commands that were found is selected.
    #[verifier::opaque]
    pub open spec fn palette_moved(self, down: bool) -> AppView {
        let selected = self.overlay.palette_selected;
        AppView {
            overlay: OverlayView {
                palette_selected: if !down {
                    if selected > 0 {
                        (selected - 1) as nat
                    } else {
                        0
                    }
                } else if selected + 1 < self.commands_found().len() {
                    selected + 1
                } else {
                    selected
                },
                ..self.overlay
            },
            ..self
        }
    }

    /// The selected command is done; without one, nothing is.
    #[verifier::opaque]
    pub open spec fn palette_run(self, now: Instant) -> AppView {
        let found = self.commands_found();
        let selected = self.overlay.palette_selected;
        if selected < found.len() {
            AppView { prompt: self.prompt.cleared(InputMode::Normal), ..self }.acted(
                action_at(found[selected as int] as int),
                now,
            )
        } else {
            self
        }
    }

    /// What a key does while a command is looked for.
    #[verifier::opaque]
    pub open spec fn palette_keyed(self, key: KeyEvent, now: Instant) -> AppView {
        if key.code == KeyCode::Up {
            self.palette_moved(false)
        } else if key.code == KeyCode::Down {
            self.palette_moved(true)
        } else if submits(key) {
            self.palette_run(now)
        } else {
            let typed = self.typed(key);
            AppView { overlay: OverlayView { palette_selected: 0, ..typed.overlay }, ..typed }
        }
    }
}

impl App {
    /// The positions of the commands that what is typed finds.
    pub fn found_commands(&self) -> (r: Vec<usize>)
        ensures
            r@ == self@.commands_found(),
            forall|k: int| 0 <= k < r@.len() ==> #[trigger] r@[k] < COMMAND_COUNT,
    {
        let items = palette_items();
        let found = filter_items(&items, self.prompt.input.as_str());
        proof {
            lemma_found(items@, trim_of(self.prompt.input@));
        }
        found
    }

    /// Looks for a command.
    pub fn open_palette(&mut self)
        ensures
            old(self)@.wf() ==> final(self)@.wf(),
            final(self)@ == old(self)@.palette_opened(),
    {
        proof {
            reveal(AppView::palette_opened);
        }
        self.clear_prompt(InputMode::Palette);
        self.overlay.palette_selected = 0;
    }

    fn move_in_palette(&mut self, down: bool)
        ensures
            old(self)@.wf() ==> final(self)@.wf(),
            final(self)@ == old(self)@.palette_moved(down),
    {
        proof {
            reveal(AppView::palette_moved);
        }
        let selected: usize = self.overlay.palette_selected;
        if !down {
            self.overlay.palette_selected = selected.saturating_sub(1);
        } else {
            let count: usize = self.found_commands().len();
            if count > 0 && selected < count - 1 {
                self.overlay.palette_selected = selected + 1;
            }
        }
    }

    fn run_from_palette(&mut self, now: Instant)
        requires
            old(self)@.wf(),
        ensures
            final(self)@.wf(),
            final(self)@ == old(self)@.palette_run(now),
    {
        proof {
            reveal(AppView::palette_run);
        }
        let found = self.found_commands();
        let selected: usize = self.overlay.palette_selected;
        if selected < found.len() {
            let action: UiAction = palette_action(found[selected]);
            self.clear_prompt(InputMode::Normal);
            self.dispatch_action(action, now);
        }
    }

    pub(crate) fn palette_key(&mut self, key: KeyEvent, now: Instant)
        requires
            old(self)@.wf(),
        ensures
            final(self)@.wf(),
            final(self)@ == old(self)@.palette_keyed(key, now),
    {
        proof {
            reveal(AppView::palette_keyed);
        }
        if key.code == KeyCode::Up {
            self.move_in_palette(false);
        } else if key.code == KeyCode::Down {
            self.move_in_palette(true);
        } else if is_submit(key) {
            self.run_from_palette(now);
        } else {
            self.type_key(key);
            self.overlay.palette_selected = 0;
        }
    }
}

/// Without a query every command is found, in order.
pub proof fn lemma_all_commands_found(app: AppView)
    requires
        trim_of(app.prompt.input).len() == 0,
    ensures
        app.commands_found() == Seq::new(COMMAND_COUNT as nat, |i: int| i as usize),
{
    let entries = route_entries() + action_entries();
    lemma_blank_finds_all(entries, trim_of(app.prompt.input));
}

proof fn lemma_blank_finds_all(entries: Seq<(Seq<char>, Seq<char>, Seq<char>)>, query: Seq<char>)
    requires
        query.len() == 0,
    ensures
        found_in(entries, query) == Seq::new(entries.len(), |i: int| i as usize),
    decreases entries.len(),
{
    if entries.len() > 0 {
        lemma_blank_finds_all(entries.drop_last(), query);
    }
    assert(found_in(entries, query) =~= Seq::new(entries.len(), |i: int| i as usize));
}

/// Each command does what it is named for: one of the navigation opens the
/// entry of its title, and another has the key of its action beside it.
pub proof fn lemma_commands_do_what_they_say(index: int)
    requires
        0 <= index < 14,
    ensures
        action_at(index) == UiAction::OpenRoute(all_routes()[index]),
        route_entries()[index].0 == label_of(all_routes()[index]),
        action_entries()[index].1 == hint_key(action_at(14 + index)),
{
}

/// A query finds the commands that match it, each once and in their order.
pub proof fn lemma_commands_matched(entries: Seq<(Seq<char>, Seq<char>, Seq<char>)>, query: Seq<char>)
    requires
        entries.len() <= usize::MAX,
    ensures
        forall|i: int|
            #![trigger entries[i]]
            0 <= i < entries.len() ==> (found_in(entries, query).contains(i as usize) <==> fuzzy_matches(
                entries[i].0 + " "@ + entries[i].1 + " "@ + entries[i].2,
                query,
            )),
        forall|a: int| 0 <= a < found_in(entries, query).len() ==> #[trigger] found_in(entries, query)[a] < entries.len(),
        forall|a: int, b: int|
            0 <= a < b < found_in(entries, query).len() ==> #[trigger] found_in(entries, query)[a] < #[trigger] found_in(
                entries,
                query,
            )[b],
    decreases entries.len(),
{
    if entries.len() > 0 {
        let rest = entries.drop_last();
        let n = entries.len() - 1;
        lemma_commands_matched(rest, query);
        let before = found_in(rest, query);
        let found = found_in(entries, query);
        assert forall|i: int| #![trigger entries[i]] 0 <= i < entries.len() implies (found.contains(i as usize)
            <==> fuzzy_matches(entries[i].0 + " "@ + entries[i].1 + " "@ + entries[i].2, query)) by {
            if i < n {
                assert(rest[i] == entries[i]);
                if before.contains(i as usize) {
                    let k = choose|k: int| 0 <= k < before.len() && before[k] == i as usize;
                    assert(found[k] == i as usize);
                }
                if found.contains(i as usize) {
                    let k = choose|k: int| 0 <= k < found.len() && found[k] == i as usize;
                    assert(k < before.len());
                    assert(before[k] == i as usize);
                }
            } else {
                if found.contains(i as usize) {
                    let k = choose|k: int| 0 <= k < found.len() && found[k] == i as usize;
                    if k < before.len() {
                        assert(before[k] == i as usize);
                    }
                } else if found.len() > before.len() {
                    assert(found[before.len() as int] == i as usize);
                }
            }
        }
    }
}

/// The selection goes up and down by one, and not past the commands that were
/// found.
pub proof fn lemma_palette_selection(app: AppView)
    ensures
        app.overlay.palette_selected + 1 < app.commands_found().len() ==> app.palette_moved(
            true,
        ).overlay.palette_selected == app.overlay.palette_selected + 1,
        app.overlay.palette_selected + 1 >= app.commands_found().len() ==> app.palette_moved(
            true,
        ).overlay.palette_selected == app.overlay.palette_selected,
        app.overlay.palette_selected > 0 ==> app.palette_moved(false).overlay.palette_selected + 1
            == app.overlay.palette_selected,
        app.overlay.palette_selected == 0 ==> app.palette_moved(false).overlay.palette_selected == 0,
        app.palette_opened().prompt.mode == InputMode::Palette,
        app.palette_opened().prompt.input.len() == 0,
        app.palette_opened().overlay.palette_selected == 0,
{
    reveal(AppView::palette_moved);
    reveal(AppView::palette_opened);
}

} // verus!
