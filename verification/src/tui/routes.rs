//! The entries of the navigation, what is in focus, and what can be done.

use vstd::prelude::*;

use crate::discovery::SearchKind;
use crate::time::Duration;

verus! {

#[derive(Clone, Copy, Debug, PartialEq, Eq, Structural)]
pub enum Route {
    Daily,
    Recommended,
    Search,
    Favorites,
    Local,
    Recent,
    ListeningRank,
    Created,
    Subscribed,
    Artists,
    Albums,
    Queue,
    Downloads,
    Account,
}

/// The entries in the order in which they are listed.
pub open spec fn all_routes() -> Seq<Route> {
    seq![
        Route::Daily,
        Route::Recommended,
        Route::Search,
        Route::Favorites,
        Route::Local,
        Route::Recent,
        Route::ListeningRank,
        Route::Created,
        Route::Subscribed,
        Route::Artists,
        Route::Albums,
        Route::Queue,
        Route::Downloads,
        Route::Account,
    ]
}

/// The number of entries.
pub const ROUTE_COUNT: usize = 14;

pub open spec fn route_index(route: Route) -> usize {
    match route {
        Route::Daily => 0,
        Route::Recommended => 1,
        Route::Search => 2,
        Route::Favorites => 3,
        Route::Local => 4,
        Route::Recent => 5,
        Route::ListeningRank => 6,
        Route::Created => 7,
        Route::Subscribed => 8,
        Route::Artists => 9,
        Route::Albums => 10,
        Route::Queue => 11,
        Route::Downloads => 12,
        Route::Account => 13,
    }
}

pub open spec fn label_of(route: Route) -> Seq<char> {
    match route {
        Route::Daily => "每日推荐"@,
        Route::Recommended => "推荐歌单"@,
        Route::Search => "在线搜索"@,
        Route::Favorites => "我喜欢的音乐"@,
        Route::Local => "本地音乐"@,
        Route::Recent => "最近播放"@,
        Route::ListeningRank => "听歌排行"@,
        Route::Created => "创建的歌单"@,
        Route::Subscribed => "收藏的歌单"@,
        Route::Artists => "收藏的歌手"@,
        Route::Albums => "收藏的专辑"@,
        Route::Queue => "播放队列"@,
        Route::Downloads => "下载管理"@,
        Route::Account => "账号与登录"@,
    }
}

pub open spec fn group_of(route: Route) -> Seq<char> {
    match route {
        Route::Daily | Route::Recommended | Route::Search => "发现"@,
        Route::Favorites | Route::Local | Route::Recent => "我的音乐"@,
        Route::ListeningRank | Route::Created | Route::Subscribed | Route::Artists | Route::Albums => "我的收藏"@,
        Route::Queue | Route::Downloads => "播放"@,
        Route::Account => "账号"@,
    }
}

/// Whether the tracks of an entry come from the local library.
pub open spec fn is_local_route(route: Route) -> bool {
    route == Route::Favorites || route == Route::Local || route == Route::Recent || route == Route::Queue
}

impl Route {
    /// The entry at a position.
    pub fn at(index: usize) -> (r: Route)
        requires
            index < ROUTE_COUNT,
        ensures
            r == all_routes()[index as int],
            route_index(r) == index,
    {
        match index {
            0 => Route::Daily,
            1 => Route::Recommended,
            2 => Route::Search,
            3 => Route::Favorites,
            4 => Route::Local,
            5 => Route::Recent,
            6 => Route::ListeningRank,
            7 => Route::Created,
            8 => Route::Subscribed,
            9 => Route::Artists,
            10 => Route::Albums,
            11 => Route::Queue,
            12 => Route::Downloads,
            _ => Route::Account,
        }
    }

    /// The position of the entry.
    pub fn index(self) -> (r: usize)
        ensures
            r == route_index(self),
            r < ROUTE_COUNT,
            all_routes()[r as int] == self,
    {
        match self {
            Route::Daily => 0,
            Route::Recommended => 1,
            Route::Search => 2,
            Route::Favorites => 3,
            Route::Local => 4,
            Route::Recent => 5,
            Route::ListeningRank => 6,
            Route::Created => 7,
            Route::Subscribed => 8,
            Route::Artists => 9,
            Route::Albums => 10,
            Route::Queue => 11,
            Route::Downloads => 12,
            Route::Account => 13,
        }
    }

    pub fn label(self) -> (r: &'static str)
        ensures
            r@ == label_of(self),
    {
        match self {
            Route::Daily => "每日推荐",
            Route::Recommended => "推荐歌单",
            Route::Search => "在线搜索",
            Route::Favorites => "我喜欢的音乐",
            Route::Local => "本地音乐",
            Route::Recent => "最近播放",
            Route::ListeningRank => "听歌排行",
            Route::Created => "创建的歌单",
            Route::Subscribed => "收藏的歌单",
            Route::Artists => "收藏的歌手",
            Route::Albums => "收藏的专辑",
            Route::Queue => "播放队列",
            Route::Downloads => "下载管理",
            Route::Account => "账号与登录",
        }
    }

    pub fn group(self) -> (r: &'static str)
        ensures
            r@ == group_of(self),
    {
        match self {
            Route::Daily | Route::Recommended | Route::Search => "发现",
            Route::Favorites | Route::Local | Route::Recent => "我的音乐",
            Route::ListeningRank | Route::Created | Route::Subscribed | Route::Artists | Route::Albums => "我的收藏",
            Route::Queue | Route::Downloads => "播放",
            Route::Account => "账号",
        }
    }

    /// Whether an entry is the first of its group.
    pub fn starts_group(index: usize) -> (r: bool)
        requires
            index < ROUTE_COUNT,
        ensures
            r == (index == 0 || index == 3 || index == 6 || index == 11 || index == 13),
    {
        index == 0 || index == 3 || index == 6 || index == 11 || index == 13
    }

    /// Whether the tracks of the entry come from the local library.
    pub fn is_local(self) -> (r: bool)
        ensures
            r == is_local_route(self),
    {
        match self {
            Route::Favorites | Route::Local | Route::Recent | Route::Queue => true,
            _ => false,
        }
    }
}

/// An entry starts a group where its group is not that of the entry before it.
pub proof fn lemma_starts_group(index: int)
    requires
        0 < index < 14,
    ensures
        (group_of(all_routes()[index]) != group_of(all_routes()[index - 1])) == (index == 3 || index == 6 || index == 11
            || index == 13),
{
    reveal_strlit("发现");
    reveal_strlit("我的音乐");
    reveal_strlit("我的收藏");
    reveal_strlit("播放");
    reveal_strlit("账号");
    assert("发现"@[0] == '发' && "播放"@[0] == '播' && "账号"@[0] == '账');
    assert("我的音乐"@[2] == '音' && "我的收藏"@[2] == '收' && "我的音乐"@.len() == 4 && "发现"@.len() == 2);
}

#[derive(Clone, Copy, Debug, PartialEq, Eq, Structural)]
pub enum Focus {
    Navigation,
    Content,
    Column(usize),
    Lyrics,
}

#[derive(Clone, Copy, Debug, PartialEq, Eq, Structural)]
pub enum InputMode {
    Normal,
    Search,
    LocalSearch,
    Download,
    CacheSize,
    Import,
    /// A command is looked for.
    Palette,
}

#[derive(Clone, Copy, Debug, PartialEq, Eq, Structural)]
pub enum UiAction {
    Quit,
    ToggleHelp,
    Back,
    FocusNext,
    FocusPrevious,
    SelectPrevious,
    SelectNext,
    SelectFirst,
    SelectLast,
    PagePrevious,
    PageNext,
    Activate,
    Search,
    Login,
    Download,
    ToggleLyrics,
    ToggleLyricsPanel,
    TogglePause,
    PreviousTrack,
    NextTrack,
    SeekBackward,
    SeekForward,
    SeekTo(Duration),
    VolumeUp,
    VolumeDown,
    CycleMode,
    Enqueue,
    Dequeue,
    ToggleFavorite,
    Organize,
    Details,
    Refresh,
    Import,
    EditCacheSize,
    ClearCache,
    OpenRoute(Route),
}

/// The key of an action and its name.
#[derive(Clone, Copy, Debug)]
pub struct ActionHint {
    pub key: &'static str,
    pub label: &'static str,
}

pub open spec fn hint_key(action: UiAction) -> Seq<char> {
    match action {
        UiAction::Quit => "q"@,
        UiAction::ToggleHelp => "?"@,
        UiAction::Back => "Esc"@,
        UiAction::FocusNext => "Tab"@,
        UiAction::FocusPrevious => "Shift+Tab"@,
        UiAction::SelectPrevious | UiAction::SelectNext => "↑↓/jk"@,
        UiAction::SelectFirst | UiAction::SelectLast => "g/G"@,
        UiAction::Activate => "Enter"@,
        UiAction::Search => "/"@,
        UiAction::Login => "L"@,
        UiAction::Download => "D"@,
        UiAction::ToggleLyrics => "l"@,
        UiAction::ToggleLyricsPanel => "h"@,
        UiAction::TogglePause => "Space"@,
        UiAction::PreviousTrack => "p"@,
        UiAction::NextTrack => "n"@,
        UiAction::SeekBackward | UiAction::SeekForward => "[/]"@,
        UiAction::VolumeUp | UiAction::VolumeDown => "+/-"@,
        UiAction::CycleMode => "m"@,
        UiAction::Enqueue => "a"@,
        UiAction::Dequeue => "d"@,
        UiAction::ToggleFavorite => "f"@,
        UiAction::Organize => "o"@,
        UiAction::Details => "i"@,
        UiAction::Refresh => "r"@,
        UiAction::Import => "I"@,
        UiAction::EditCacheSize => "s"@,
        UiAction::ClearCache => "X"@,
        UiAction::PagePrevious | UiAction::PageNext => "PgUp/PgDn"@,
        UiAction::SeekTo(_) | UiAction::OpenRoute(_) => "鼠标"@,
    }
}

pub open spec fn hint_label(action: UiAction) -> Seq<char> {
    match action {
        UiAction::Quit => "退出"@,
        UiAction::ToggleHelp => "帮助"@,
        UiAction::Back => "返回"@,
        UiAction::FocusNext => "切换焦点"@,
        UiAction::FocusPrevious => "反向切换"@,
        UiAction::SelectPrevious | UiAction::SelectNext => "选择"@,
        UiAction::SelectFirst | UiAction::SelectLast => "首尾"@,
        UiAction::Activate => "打开/播放"@,
        UiAction::Search => "搜索"@,
        UiAction::Login => "登录"@,
        UiAction::Download => "下载"@,
        UiAction::ToggleLyrics => "歌词"@,
        UiAction::ToggleLyricsPanel => "关闭/打开歌词栏"@,
        UiAction::TogglePause => "播放/暂停"@,
        UiAction::PreviousTrack => "上一首"@,
        UiAction::NextTrack => "下一首"@,
        UiAction::SeekBackward | UiAction::SeekForward => "快退/快进"@,
        UiAction::VolumeUp | UiAction::VolumeDown => "音量"@,
        UiAction::CycleMode => "播放模式"@,
        UiAction::Enqueue => "下一首播放"@,
        UiAction::Dequeue => "移出队列"@,
        UiAction::ToggleFavorite => "喜欢"@,
        UiAction::Organize => "整理文件"@,
        UiAction::Details => "详情"@,
        UiAction::Refresh => "刷新"@,
        UiAction::Import => "导入"@,
        UiAction::EditCacheSize => "缓存大小"@,
        UiAction::ClearCache => "清除缓存"@,
        UiAction::PagePrevious | UiAction::PageNext => "翻页"@,
        UiAction::SeekTo(_) | UiAction::OpenRoute(_) => "点击"@,
    }
}

/// The key of an action and its name.
pub fn action_hint(action: UiAction) -> (r: ActionHint)
    ensures
        r.key@ == hint_key(action),
        r.label@ == hint_label(action),
{
    match action {
        UiAction::Quit => ActionHint { key: "q", label: "退出" },
        UiAction::ToggleHelp => ActionHint { key: "?", label: "帮助" },
        UiAction::Back => ActionHint { key: "Esc", label: "返回" },
        UiAction::FocusNext => ActionHint { key: "Tab", label: "切换焦点" },
        UiAction::FocusPrevious => ActionHint { key: "Shift+Tab", label: "反向切换" },
        UiAction::SelectPrevious | UiAction::SelectNext => ActionHint { key: "↑↓/jk", label: "选择" },
        UiAction::SelectFirst | UiAction::SelectLast => ActionHint { key: "g/G", label: "首尾" },
        UiAction::Activate => ActionHint { key: "Enter", label: "打开/播放" },
        UiAction::Search => ActionHint { key: "/", label: "搜索" },
        UiAction::Login => ActionHint { key: "L", label: "登录" },
        UiAction::Download => ActionHint { key: "D", label: "下载" },
        UiAction::ToggleLyrics => ActionHint { key: "l", label: "歌词" },
        UiAction::ToggleLyricsPanel => ActionHint { key: "h", label: "关闭/打开歌词栏" },
        UiAction::TogglePause => ActionHint { key: "Space", label: "播放/暂停" },
        UiAction::PreviousTrack => ActionHint { key: "p", label: "上一首" },
        UiAction::NextTrack => ActionHint { key: "n", label: "下一首" },
        UiAction::SeekBackward | UiAction::SeekForward => ActionHint { key: "[/]", label: "快退/快进" },
        UiAction::VolumeUp | UiAction::VolumeDown => ActionHint { key: "+/-", label: "音量" },
        UiAction::CycleMode => ActionHint { key: "m", label: "播放模式" },
        UiAction::Enqueue => ActionHint { key: "a", label: "下一首播放" },
        UiAction::Dequeue => ActionHint { key: "d", label: "移出队列" },
        UiAction::ToggleFavorite => ActionHint { key: "f", label: "喜欢" },
        UiAction::Organize => ActionHint { key: "o", label: "整理文件" },
        UiAction::Details => ActionHint { key: "i", label: "详情" },
        UiAction::Refresh => ActionHint { key: "r", label: "刷新" },
        UiAction::Import => ActionHint { key: "I", label: "导入" },
        UiAction::EditCacheSize => ActionHint { key: "s", label: "缓存大小" },
        UiAction::ClearCache => ActionHint { key: "X", label: "清除缓存" },
        UiAction::PagePrevious | UiAction::PageNext => ActionHint { key: "PgUp/PgDn", label: "翻页" },
        UiAction::SeekTo(_) | UiAction::OpenRoute(_) => ActionHint { key: "鼠标", label: "点击" },
    }
}

#[derive(Clone, Copy, Debug, PartialEq, Eq, Structural)]
pub enum JobKind {
    Download,
    Organize,
    Scan,
    Import,
}

#[derive(Clone, Copy, Debug, PartialEq, Eq, Structural)]
pub enum PlayMode {
    Sequential,
    RepeatOne,
    RepeatAll,
    Shuffle,
}

pub open spec fn next_mode(mode: PlayMode) -> PlayMode {
    match mode {
        PlayMode::Sequential => PlayMode::RepeatOne,
        PlayMode::RepeatOne => PlayMode::RepeatAll,
        PlayMode::RepeatAll => PlayMode::Shuffle,
        PlayMode::Shuffle => PlayMode::Sequential,
    }
}

pub open spec fn mode_label(mode: PlayMode) -> Seq<char> {
    match mode {
        PlayMode::Sequential => "顺序"@,
        PlayMode::RepeatOne => "单曲"@,
        PlayMode::RepeatAll => "循环"@,
        PlayMode::Shuffle => "随机"@,
    }
}

impl PlayMode {
    pub fn next(self) -> (r: PlayMode)
        ensures
            r == next_mode(self),
    {
        match self {
            PlayMode::Sequential => PlayMode::RepeatOne,
            PlayMode::RepeatOne => PlayMode::RepeatAll,
            PlayMode::RepeatAll => PlayMode::Shuffle,
            PlayMode::Shuffle => PlayMode::Sequential,
        }
    }

    pub fn label(self) -> (r: &'static str)
        ensures
            r@ == mode_label(self),
    {
        match self {
            PlayMode::Sequential => "顺序",
            PlayMode::RepeatOne => "单曲",
            PlayMode::RepeatAll => "循环",
            PlayMode::Shuffle => "随机",
        }
    }
}

/// Going through the modes leads back to the first after all four.
pub proof fn lemma_modes_cycle(mode: PlayMode)
    ensures
        next_mode(next_mode(next_mode(next_mode(mode)))) == mode,
        next_mode(mode) != mode,
{
}

pub open spec fn kind_label_of(kind: SearchKind) -> Seq<char> {
    match kind {
        SearchKind::Song => "歌曲"@,
        SearchKind::Album => "专辑"@,
        SearchKind::Artist => "歌手"@,
        SearchKind::Playlist => "歌单"@,
    }
}

pub fn search_kind_label(kind: SearchKind) -> (r: &'static str)
    ensures
        r@ == kind_label_of(kind),
{
    match kind {
        SearchKind::Song => "歌曲",
        SearchKind::Album => "专辑",
        SearchKind::Artist => "歌手",
        SearchKind::Playlist => "歌单",
    }
}

} // verus!
