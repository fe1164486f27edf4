//! What is written on the screen.

use vstd::prelude::*;

use crate::auth::Identity;
use crate::player::{compact_of, uppercase, PlayerState};
use crate::text::{decimal, decimal_text, join, joined, same_text, texts};
use crate::tui::app::{App, AppView};
use crate::tui::routes::{action_hint, hint_key, hint_label, label_of, Focus, InputMode, Route, UiAction};
use crate::tui::rows::{column_infos, ColumnInfo};
use crate::tui::width::{
    fit_text, fitted, input_footer, input_line, lemma_fitted, text_width, truncate_to_width, truncated, width_of,
    widths_sum,
};

verus! {

// The account and the player.

pub open spec fn account_label_of(identity: Option<Identity>) -> Seq<char> {
    match identity {
        Some(identity) => identity.nickname@,
        None => "L 登录"@,
    }
}

/// A number in at least three places.
pub open spec fn three_places(n: nat) -> Seq<char> {
    if n < 10 {
        "  "@ + decimal(n)
    } else if n < 100 {
        " "@ + decimal(n)
    } else {
        decimal(n)
    }
}

fn in_three_places(n: u8) -> (r: String)
    ensures
        r@ == three_places(n as nat),
{
    let digits: String = decimal_text(n as u64);
    if n < 10 {
        let mut text: String = "  ".to_owned();
        text.append(digits.as_str());
        text
    } else if n < 100 {
        let mut text: String = " ".to_owned();
        text.append(digits.as_str());
        text
    } else {
        digits
    }
}

/// The audio and the volume.
pub open spec fn status_text(state: PlayerState) -> Seq<char> {
    let audio = compact_of(uppercase(state.audio.codec@), state.audio.sample_rate as nat, state.audio.bits_per_sample);
    if audio.len() == 0 {
        "音量 "@ + three_places(state.volume as nat) + "%"@
    } else {
        audio + " · "@ + three_places(state.volume as nat) + "%"@
    }
}

pub fn player_status(state: &PlayerState) -> (r: String)
    ensures
        r@ == status_text(*state),
{
    let audio: String = state.audio.compact();
    let volume: String = in_three_places(state.volume);
    let mut text: String = if audio.as_str().unicode_len() == 0 {
        "音量 ".to_owned()
    } else {
        audio.concat(" · ")
    };
    text.append(volume.as_str());
    text.append("%");
    text
}

impl App {
    pub fn account_label(&self) -> (r: &str)
        ensures
            r@ == account_label_of(self@.account.identity),
    {
        match &self.account.identity {
            Some(identity) => identity.nickname.as_str(),
            None => "L 登录",
        }
    }
}

/// What turns while something is awaited.
pub open spec fn spinner_of(tick: nat) -> Seq<char> {
    seq!["⠋"@, "⠙"@, "⠹"@, "⠸"@, "⠼"@, "⠴"@, "⠦"@, "⠧"@, "⠇"@, "⠏"@][(tick % 10) as int]
}

pub fn spinner(tick: usize) -> (r: &'static str)
    ensures
        r@ == spinner_of(tick as nat),
{
    match tick % 10 {
        0 => "⠋",
        1 => "⠙",
        2 => "⠹",
        3 => "⠸",
        4 => "⠼",
        5 => "⠴",
        6 => "⠦",
        7 => "⠧",
        8 => "⠇",
        _ => "⠏",
    }
}

// What can be done.

/// What can be done in the pane in focus, without the help.
pub open spec fn offered(app: AppView) -> Seq<UiAction> {
    if app.focus == Focus::Lyrics {
        seq![UiAction::ToggleLyrics, UiAction::TogglePause, UiAction::SeekForward]
    } else if app.focus == Focus::Navigation {
        seq![UiAction::SelectNext, UiAction::Activate, UiAction::FocusNext, UiAction::Search]
    } else {
        seq![UiAction::SelectNext, UiAction::Activate] + match app.route {
            Route::Account => if app.account.identity is None {
                seq![UiAction::Login, UiAction::EditCacheSize, UiAction::ClearCache]
            } else {
                seq![UiAction::EditCacheSize, UiAction::ClearCache]
            },
            Route::Downloads => seq![UiAction::Download],
            Route::Queue => seq![UiAction::Dequeue, UiAction::Details],
            Route::Local => {
                seq![UiAction::Import, UiAction::Refresh, UiAction::Search, UiAction::Details, UiAction::Organize]
            },
            _ => if app.selected_track() is Some {
                seq![UiAction::TogglePause, UiAction::ToggleFavorite, UiAction::Details]
            } else {
                seq![]
            },
        }
    }
}

impl App {
    /// What can be done in the pane in focus.
    pub fn context_actions(&self) -> (r: Vec<UiAction>)
        ensures
            r@ == offered(self@).push(UiAction::ToggleHelp),
    {
        let mut actions: Vec<UiAction> = Vec::new();
        if self.focus == Focus::Lyrics {
            actions.push(UiAction::ToggleLyrics);
            actions.push(UiAction::TogglePause);
            actions.push(UiAction::SeekForward);
        } else if self.focus == Focus::Navigation {
            actions.push(UiAction::SelectNext);
            actions.push(UiAction::Activate);
            actions.push(UiAction::FocusNext);
            actions.push(UiAction::Search);
        } else {
            actions.push(UiAction::SelectNext);
            actions.push(UiAction::Activate);
            match self.route {
                Route::Account => {
                    if self.account.identity.is_none() {
                        actions.push(UiAction::Login);
                    }
                    actions.push(UiAction::EditCacheSize);
                    actions.push(UiAction::ClearCache);
                },
                Route::Downloads => {
                    actions.push(UiAction::Download);
                },
                Route::Queue => {
                    actions.push(UiAction::Dequeue);
                    actions.push(UiAction::Details);
                },
                Route::Local => {
                    actions.push(UiAction::Import);
                    actions.push(UiAction::Refresh);
                    actions.push(UiAction::Search);
                    actions.push(UiAction::Details);
                    actions.push(UiAction::Organize);
                },
                _ => {
                    if self.selected_track().is_some() {
                        actions.push(UiAction::TogglePause);
                        actions.push(UiAction::ToggleFavorite);
                        actions.push(UiAction::Details);
                    }
                },
            }
        }
        proof {
            assert(actions@ =~= offered(self@));
        }
        actions.push(UiAction::ToggleHelp);
        actions
    }
}

/// The key and the name of an action.
pub open spec fn hint_of(action: UiAction) -> Seq<char> {
    hint_key(action) + " "@ + hint_label(action)
}

pub fn format_action_hint(action: UiAction) -> (r: String)
    ensures
        r@ == hint_of(action),
{
    let hint = action_hint(action);
    let mut text: String = hint.key.to_owned();
    text.append(" ");
    text.append(hint.label);
    text
}

/// The key and the name of an action for an entry: in the library, refreshing
/// is scanning.
pub open spec fn hint_in(route: Route, action: UiAction) -> Seq<char> {
    if route == Route::Local && action == UiAction::Refresh {
        "r 扫描"@
    } else {
        hint_of(action)
    }
}

pub fn format_context_action_hint(route: Route, action: UiAction) -> (r: String)
    ensures
        r@ == hint_in(route, action),
{
    if route == Route::Local && action == UiAction::Refresh {
        "r 扫描".to_owned()
    } else {
        format_action_hint(action)
    }
}

pub open spec fn hints_of(actions: Seq<UiAction>) -> Seq<Seq<char>> {
    actions.map_values(|action: UiAction| hint_of(action))
}

/// Actions in a line.
pub fn hint_line(actions: &[UiAction]) -> (r: String)
    ensures
        r@ == joined(hints_of(actions@), "  ·  "@),
{
    let mut parts: Vec<String> = Vec::new();
    let mut i: usize = 0;
    while i < actions.len()
        invariant
            i <= actions@.len(),
            texts(parts@) =~= hints_of(actions@).take(i as int),
        decreases actions@.len() - i,
    {
        let ghost held = parts@;
        parts.push(format_action_hint(actions[i]));
        proof {
            assert(texts(parts@) =~= texts(held).push(hint_of(actions@[i as int])));
        }
        i += 1;
    }
    proof {
        assert(texts(parts@) =~= hints_of(actions@));
    }
    join(&parts, "  ·  ")
}

// The last line.

/// The actions of the last line: the help, and at most four others.
pub open spec fn footer_actions(app: AppView) -> Seq<UiAction> {
    let others = offered(app);
    seq![UiAction::ToggleHelp] + others.take(if others.len() <= 4 { others.len() as int } else { 4 })
}

/// A line with one more hint, if there is room for it.
pub open spec fn grown(line: Seq<char>, hint: Seq<char>, width: u16) -> Seq<char> {
    let candidate = if line.len() == 0 {
        " "@ + hint
    } else {
        line + "  "@ + hint
    };
    if width_of(candidate) <= width {
        candidate
    } else {
        line
    }
}

/// The hints for which there is room.
pub open spec fn footer_hints(route: Route, actions: Seq<UiAction>, width: u16) -> Seq<char>
    decreases actions.len(),
{
    if actions.len() == 0 {
        seq![]
    } else {
        grown(footer_hints(route, actions.drop_last(), width), hint_in(route, actions.last()), width)
    }
}

/// The last line: hints, and the status as far as there is room.
pub open spec fn footer_of(app: AppView, width: u16) -> Seq<char> {
    let hints = footer_hints(app.route, footer_actions(app), width);
    let separator = if hints.len() == 0 {
        " "@
    } else {
        "  ·  "@
    };
    let remaining = if width >= width_of(hints) {
        width - width_of(hints)
    } else {
        0
    };
    if width == 0 {
        seq![]
    } else if app.status.len() > 0 && remaining > width_of(separator) {
        fitted(hints + separator + fitted(app.status, (remaining - width_of(separator)) as u16), width)
    } else {
        fitted(hints, width)
    }
}

/// The last line is no wider than the screen: by itself, or going by its
/// characters where it was cut.
pub proof fn lemma_footer_is_bounded(app: AppView, width: u16)
    requires
        width > 0,
    ensures
        width_of(footer_of(app, width)) <= width || widths_sum(footer_of(app, width)) <= width,
{
    let hints = footer_hints(app.route, footer_actions(app), width);
    let separator = if hints.len() == 0 { " "@ } else { "  ·  "@ };
    let remaining = if width >= width_of(hints) { width - width_of(hints) } else { 0 };
    lemma_fitted(hints, width);
    lemma_fitted(hints + separator + fitted(app.status, (remaining - width_of(separator)) as u16), width);
}

fn grow(line: String, hint: &str, width: u16) -> (r: String)
    ensures
        r@ == grown(line@, hint@, width),
{
    let candidate: String = if line.as_str().unicode_len() == 0 {
        let mut text: String = " ".to_owned();
        text.append(hint);
        text
    } else {
        let mut text: String = line.clone();
        text.append("  ");
        text.append(hint);
        text
    };
    if text_width(candidate.as_str()) <= width {
        candidate
    } else {
        line
    }
}

impl App {
    pub fn footer_text(&self, width: u16) -> (r: String)
        ensures
            r@ == footer_of(self@, width),
    {
        if width == 0 {
            let none: String = String::new();
            proof {
                assert(none@ =~= seq![]);
            }
            return none;
        }
        let all = self.context_actions();
        let count: usize = if all.len() - 1 <= 4 {
            all.len() - 1
        } else {
            4
        };
        let ghost actions = footer_actions(self@);
        let mut result: String = String::new();
        proof {
            assert(result@ =~= seq![]);
            assert(actions.take(1).drop_last() =~= seq![]);
            assert(actions.take(1).last() == UiAction::ToggleHelp);
            assert(footer_hints(self.route, actions.take(1).drop_last(), width) =~= seq![]);
        }
        result = grow(result, format_context_action_hint(self.route, UiAction::ToggleHelp).as_str(), width);
        let mut i: usize = 0;
        while i < count
            invariant
                i <= count,
                count <= 4,
                all@ == offered(self@).push(UiAction::ToggleHelp),
                count == if offered(self@).len() <= 4 {
                    offered(self@).len()
                } else {
                    4
                },
                actions == footer_actions(self@),
                actions.len() == count + 1,
                result@ == footer_hints(self.route, actions.take(i + 1), width),
            decreases count - i,
        {
            let hint: String = format_context_action_hint(self.route, all[i]);
            proof {
                assert(actions.take(i + 2).drop_last() =~= actions.take(i + 1));
                assert(actions.take(i + 2).last() == all@[i as int]);
            }
            result = grow(result, hint.as_str(), width);
            i += 1;
        }
        proof {
            assert(actions.take(count + 1) =~= actions);
        }
        if self.status.as_str().unicode_len() > 0 {
            let separator: &str = if result.as_str().unicode_len() == 0 {
                " "
            } else {
                "  ·  "
            };
            let remaining: u16 = width.saturating_sub(text_width(result.as_str()));
            let taken: u16 = text_width(separator);
            if remaining > taken {
                let status: String = fit_text(self.status.as_str(), remaining - taken);
                result.append(separator);
                result.append(status.as_str());
            }
        }
        fit_text(result.as_str(), width)
    }
}

/// The name of what is typed.
pub open spec fn prompt_label(mode: InputMode) -> Option<Seq<char>> {
    match mode {
        InputMode::Normal => None,
        InputMode::Search => Some(" / 搜索  "@),
        InputMode::LocalSearch => Some(" / 本地筛选  "@),
        InputMode::Download => Some(" D 下载  "@),
        InputMode::CacheSize => Some(" s 缓存上限  "@),
        InputMode::Import => Some(" I 导入  "@),
        InputMode::Palette => Some(" Ctrl+P 命令  "@),
    }
}

impl App {
    /// The last line, and where the cursor stands in it while something is typed.
    pub fn footer(&self, width: u16) -> (r: (String, Option<u16>))
        ensures
            match prompt_label(self@.prompt.mode) {
                Some(label) => r.1 is Some && (r.0@, r.1->0 as int) == input_line(
                    label,
                    self@.prompt.input,
                    self@.prompt.cursor,
                    width,
                ),
                None => r.1 is None && r.0@ == footer_of(self@, width),
            },
    {
        let label: &str = match self.prompt.mode {
            InputMode::Normal => {
                return (self.footer_text(width), None);
            },
            InputMode::Search => " / 搜索  ",
            InputMode::LocalSearch => " / 本地筛选  ",
            InputMode::Download => " D 下载  ",
            InputMode::CacheSize => " s 缓存上限  ",
            InputMode::Import => " I 导入  ",
            InputMode::Palette => " Ctrl+P 命令  ",
        };
        let (text, cursor) = input_footer(label, self.prompt.input.as_str(), self.prompt.cursor, width);
        (text, Some(cursor))
    }
}

// The first line.

/// The titles of columns behind other titles; one that repeats its neighbour is
/// left out.
pub open spec fn crumbs_with(start: Seq<Seq<char>>, columns: Seq<ColumnInfo>) -> Seq<Seq<char>>
    decreases columns.len(),
{
    if columns.len() == 0 {
        start
    } else {
        let before = crumbs_with(start, columns.drop_last());
        if before.len() > 0 && before.last() == columns.last().title {
            before
        } else {
            before.push(columns.last().title)
        }
    }
}

/// The entry, the title of the first pane and those of the columns.
pub open spec fn crumbs_of(app: AppView) -> Seq<Seq<char>> {
    let label = label_of(app.route);
    crumbs_with(
        if app.pane.title == label {
            seq![label]
        } else {
            seq![label, app.pane.title]
        },
        app.columns,
    )
}

/// No title of the path repeats its neighbour.
pub proof fn lemma_crumbs_do_not_repeat(app: AppView, k: int)
    requires
        0 <= k < crumbs_of(app).len() - 1,
    ensures
        crumbs_of(app)[k] != crumbs_of(app)[k + 1],
{
    let label = label_of(app.route);
    let start = if app.pane.title == label { seq![label] } else { seq![label, app.pane.title] };
    lemma_crumbs_with(start, app.columns, k);
}

proof fn lemma_crumbs_with(start: Seq<Seq<char>>, columns: Seq<ColumnInfo>, k: int)
    requires
        0 <= k < crumbs_with(start, columns).len() - 1,
        forall|j: int| 0 <= j < start.len() - 1 ==> #[trigger] start[j] != start[j + 1],
    ensures
        crumbs_with(start, columns)[k] != crumbs_with(start, columns)[k + 1],
    decreases columns.len(),
{
    if columns.len() > 0 {
        let before = crumbs_with(start, columns.drop_last());
        if k < before.len() - 1 {
            lemma_crumbs_with(start, columns.drop_last(), k);
        }
    }
}

impl App {
    pub fn breadcrumb_text(&self) -> (r: String)
        ensures
            r@ == joined(crumbs_of(self@), " › "@),
    {
        let label: &str = self.route.label();
        let mut segments: Vec<String> = Vec::new();
        segments.push(label.to_owned());
        if !same_text(self.pane.title.as_str(), label) {
            segments.push(self.pane.title.clone());
        }
        let ghost start = texts(segments@);
        let ghost all = self@.columns;
        proof {
            if self.pane.title@ == label@ {
                assert(start =~= seq![label@]);
            } else {
                assert(start =~= seq![label@, self.pane.title@]);
            }
            assert(all.take(0) =~= seq![]);
        }
        let mut i: usize = 0;
        while i < self.columns.len()
            invariant
                i <= self.columns@.len(),
                all == column_infos(self.columns@),
                segments@.len() > 0,
                texts(segments@) == crumbs_with(start, all.take(i as int)),
            decreases self.columns@.len() - i,
        {
            let ghost held = segments@;
            proof {
                assert(all.take(i + 1).drop_last() =~= all.take(i as int));
                assert(all.take(i + 1).last() == self.columns@[i as int]@);
                assert(texts(held).last() == held.last()@);
            }
            if !same_text(segments[segments.len() - 1].as_str(), self.columns[i].title.as_str()) {
                segments.push(self.columns[i].title.clone());
                proof {
                    assert(texts(segments@) =~= texts(held).push(self.columns@[i as int].title@));
                }
            }
            i += 1;
        }
        proof {
            assert(all.take(i as int) =~= all);
        }
        join(&segments, " › ")
    }

    /// The path in the first line, as far as there is room beside the account.
    pub fn header_text(&self, width: u16) -> (r: String)
        ensures
            r@ == truncated(
                joined(crumbs_of(self@), " › "@),
                room_beside(width, width_of("  ♫  "@), width_of(account_label_of(self@.account.identity))),
            ),
    {
        let available: u16 = width.saturating_sub(text_width("  ♫  ")).saturating_sub(text_width(self.account_label()))
            .saturating_sub(3);
        truncate_to_width(self.breadcrumb_text().as_str(), available)
    }
}

/// What is left of a width beside two texts and a gap.
pub open spec fn room_beside(width: u16, first: u16, second: u16) -> u16 {
    if width >= first + second + 3 {
        (width - first - second - 3) as u16
    } else {
        0
    }
}

// What the screen says.

/// The spinner shows its ten pictures in turn.
pub proof fn lemma_spinner(tick: nat)
    ensures
        spinner_of(tick + 10) == spinner_of(tick),
        spinner_of(tick).len() == 1,
        spinner_of(tick) != spinner_of(tick + 1),
{
    reveal_strlit("⠋");
    reveal_strlit("⠙");
    reveal_strlit("⠹");
    reveal_strlit("⠸");
    reveal_strlit("⠼");
    reveal_strlit("⠴");
    reveal_strlit("⠦");
    reveal_strlit("⠧");
    reveal_strlit("⠇");
    reveal_strlit("⠏");
    assert((tick + 10) % 10 == tick % 10);
    assert((tick + 1) % 10 == if tick % 10 == 9 { 0 } else { tick % 10 + 1 });
    let now = spinner_of(tick);
    let next = spinner_of(tick + 1);
    assert(now[0] != next[0]);
}

/// The volume takes three places as long as it is below a thousand.
pub proof fn lemma_three_places(n: nat)
    requires
        n < 1000,
    ensures
        three_places(n).len() == 3,
        three_places(n).skip(3 - decimal(n).len()) == decimal(n),
{
    reveal_strlit("  ");
    reveal_strlit(" ");
    reveal_with_fuel(decimal, 3);
    if n < 10 {
        assert(decimal(n).len() == 1);
    } else if n < 100 {
        assert(decimal(n).len() == 2);
    } else {
        assert(decimal(n).len() == 3);
    }
    assert(three_places(n).skip(3 - decimal(n).len()) =~= decimal(n));
}

/// The path to what is shown starts with the entry, and no two neighbours in
/// it are alike as far as the columns go.
pub proof fn lemma_crumbs(start: Seq<Seq<char>>, columns: Seq<ColumnInfo>, column: ColumnInfo)
    ensures
        crumbs_with(start, Seq::empty()) == start,
        start.len() > 0 && crumbs_with(start, columns).len() > 0 ==> crumbs_with(start, columns.push(column)).last()
            == column.title,
        crumbs_with(start, columns).len() > 0 && crumbs_with(start, columns).last() == column.title ==> crumbs_with(
            start,
            columns.push(column),
        ) == crumbs_with(start, columns),
        crumbs_with(start, columns).len() > 0 && crumbs_with(start, columns).last() != column.title ==> crumbs_with(
            start,
            columns.push(column),
        ) == crumbs_with(start, columns).push(column.title),
{
    assert(columns.push(column).drop_last() =~= columns);
}

/// The last line offers the help first and at most four things more, and a
/// hint that has no room is left out.
pub proof fn lemma_footer(app: AppView, line: Seq<char>, hint: Seq<char>, width: u16)
    ensures
        footer_actions(app).len() <= 5,
        footer_actions(app)[0] == UiAction::ToggleHelp,
        forall|i: int|
            1 <= i < footer_actions(app).len() ==> #[trigger] footer_actions(app)[i] == offered(app)[i - 1],
        offered(app).len() <= 4 ==> footer_actions(app).len() == offered(app).len() + 1,
        width_of(line) <= width ==> width_of(grown(line, hint, width)) <= width,
        line.len() > 0 && width_of(line + "  "@ + hint) <= width ==> grown(line, hint, width) == line + "  "@ + hint,
        line.len() > 0 && width_of(line + "  "@ + hint) > width ==> grown(line, hint, width) == line,
{
}

} // verus!
