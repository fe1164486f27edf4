//! Where things stand on the screen, and what the mouse does there.

use vstd::prelude::*;

use crate::time::{Duration, Instant};
use crate::tui::app::{App, AppView, Click, OverlayView, PaneView};
use crate::tui::command::{Command, CommandInfo};
use crate::tui::input::{MouseEvent, MouseEventKind};
use crate::tui::layout::{
    are_hits, centered_line, centered_line_of, contains, content_offset, control_at, holds, least, minus, nav_index_at,
    nav_index_of, nowhere, player_control_action, progress_position, progress_target, screen_hits, ColumnHit, HitRegions,
    HitView, Rect,
};
use crate::tui::routes::{all_routes, Focus, InputMode, Route, UiAction};
use crate::tui::screen::{account_label_of, player_status, status_text};
use crate::tui::width::{text_width, width_of};

verus! {

/// What is said where the library is empty.
pub const LOCAL_IMPORT_HINT: &'static str = "暂无本地音乐 · 按 I 或点击这里导入";

/// The longest time between the two clicks of a double click.
pub const DOUBLE_CLICK_NANOS: u128 = 450_000_000;

/// The first pane that holds a cell.
pub open spec fn hit_at(columns: Seq<ColumnHit>, x: u16, y: u16) -> Option<ColumnHit>
    decreases columns.len(),
{
    if columns.len() == 0 {
        None
    } else if holds(columns[0].area, x, y) {
        Some(columns[0])
    } else {
        hit_at(columns.skip(1), x, y)
    }
}

fn find_hit(columns: &Vec<ColumnHit>, x: u16, y: u16) -> (r: Option<ColumnHit>)
    requires
        forall|i: int| 0 <= i < columns@.len() ==> (#[trigger] columns@[i]).area.wf(),
    ensures
        r == hit_at(columns@, x, y),
        r is Some ==> r->0.area.wf(),
{
    let mut i: usize = 0;
    proof {
        assert(columns@.skip(0) =~= columns@);
    }
    while i < columns.len()
        invariant
            i <= columns@.len(),
            forall|k: int| 0 <= k < columns@.len() ==> (#[trigger] columns@[k]).area.wf(),
            hit_at(columns@, x, y) == hit_at(columns@.skip(i as int), x, y),
        decreases columns@.len() - i,
    {
        let hit: ColumnHit = columns[i];
        proof {
            assert(columns@[i as int].area.wf());
            assert(columns@.skip(i as int)[0] == hit);
            assert(columns@.skip(i as int).skip(1) =~= columns@.skip(i + 1));
        }
        if contains(hit.area, x, y) {
            return Some(hit);
        }
        i += 1;
    }
    None
}

/// The pane with a number: the first one, or a column.
pub open spec fn pane_of(index: usize) -> Focus {
    if index == 0 {
        Focus::Content
    } else {
        Focus::Column((index - 1) as usize)
    }
}

fn pane_focus(index: usize) -> (r: Focus)
    ensures
        r == pane_of(index),
{
    if index == 0 {
        Focus::Content
    } else {
        Focus::Column(index - 1)
    }
}

impl AppView {
    /// What is written where a click does something though nothing is listed,
    /// and how many lines below the top of the pane.
    pub open spec fn action_label(self) -> Option<(Seq<char>, int)> {
        if self.route == Route::Account && self.account.identity is None && self.account.qr.len() == 0 {
            Some(
                (
                    if self.account.login_status.len() == 0 {
                        "按 L 或点击这里扫码登录"@
                    } else {
                        self.account.login_status
                    },
                    0,
                ),
            )
        } else if self.route == Route::Downloads && self.jobs.active_job is None && self.prompt.mode != InputMode::Download {
            Some(("按 D 或点击这里"@, 2))
        } else if self.route == Route::Local && self.pane.content.count() == 0 && self.prompt.mode == InputMode::Normal
            && !self.pane.loading && self.jobs.active_job is None {
            Some((LOCAL_IMPORT_HINT@, 0))
        } else {
            None
        }
    }

    /// Where that is written.
    pub open spec fn action_region(self) -> Rect {
        match self.action_label() {
            Some((label, line)) => centered_line_of(
                self.hits.content,
                least(self.hits.content.y + line, u16::MAX as int),
                width_of(label) as int,
            ),
            None => nowhere(),
        }
    }

    /// A click there.
    #[verifier::opaque]
    pub open spec fn region_clicked(self) -> AppView {
        if self.route == Route::Account && self.account.identity is None {
            self.login_started()
        } else if self.route == Route::Downloads && self.jobs.active_job is None {
            self.download_asked()
        } else if self.route == Route::Local && self.prompt.mode == InputMode::Normal && self.jobs.active_job is None
            && self.pane.content.count() == 0 {
            self.import_begun()
        } else {
            self
        }
    }

    /// How many rows a pane has.
    pub open spec fn rows_in(self, index: usize) -> nat {
        if index == 0 {
            self.pane.content.count()
        } else if index - 1 < self.columns.len() {
            self.columns[index - 1].content.count()
        } else {
            0
        }
    }

    /// A row of a pane is selected.
    pub open spec fn picked(self, index: usize, row: nat) -> AppView {
        if index == 0 {
            AppView { pane: PaneView { selected: row, ..self.pane }, ..self }
        } else {
            self.column_row_selected(index - 1, row)
        }
    }

    /// Whether a click is the second on the same row within a short time.
    pub open spec fn is_double(self, pane: usize, row: nat, now: Instant) -> bool {
        match self.last_click {
            Some(click) => click.pane == pane && click.row == row && (now@ < click.at@ || now@ - click.at@
                < DOUBLE_CLICK_NANOS),
            None => false,
        }
    }

    /// A click on a row: it is selected, and opened if the click is a double one.
    #[verifier::opaque]
    pub open spec fn row_clicked(self, hit: ColumnHit, y: u16, now: Instant) -> AppView {
        let row = (hit.offset + minus(y as int, hit.area.y as int)) as nat;
        if row < self.rows_in(hit.index) {
            let picked = AppView {
                last_click: Some(Click { pane: hit.index, row: row as usize, at: now }),
                ..self.picked(hit.index, row)
            };
            if self.is_double(hit.index, row, now) {
                picked.activated()
            } else {
                picked
            }
        } else {
            self
        }
    }

    /// A click in a pane.
    #[verifier::opaque]
    pub open spec fn pane_clicked(self, hit: ColumnHit, x: u16, y: u16, now: Instant) -> AppView {
        let focused = AppView { focus: pane_of(hit.index), ..self };
        if hit.index == 0 && holds(focused.action_region(), x, y) {
            focused.region_clicked()
        } else {
            focused.row_clicked(hit, y, now)
        }
    }

    /// A click on the progress of the track.
    #[verifier::opaque]
    pub open spec fn progress_clicked(self, x: u16) -> AppView {
        let duration = self.playback.player_state.duration@;
        match progress_position(self.hits.progress, x, duration) {
            Some(target) => if duration > 0 {
                self.player_told(CommandInfo::SeekTo(target))
            } else {
                self
            },
            None => self,
        }
    }

    /// A click on the navigation.
    #[verifier::opaque]
    pub open spec fn nav_clicked(self, y: u16) -> AppView {
        let focused = AppView { focus: Focus::Navigation, ..self };
        match nav_index_of(minus(y as int, self.hits.nav.y as int), self.hits.nav.height) {
            Some(index) => AppView { nav_selected: index as nat, ..focused }.route_opened(all_routes()[index as int]),
            None => focused,
        }
    }

    /// The lyrics get the focus.
    pub open spec fn lyrics_focused(self) -> AppView {
        if self.focus != Focus::Lyrics {
            AppView { previous_focus: self.valid(self.focus), focus: Focus::Lyrics, ..self }
        } else {
            self
        }
    }

    /// A click.
    pub open spec fn pressed(self, x: u16, y: u16, now: Instant) -> AppView {
        if holds(self.hits.account, x, y) {
            self.route_opened(Route::Account)
        } else if control_at(self.hits, x, y) is Some {
            self.acted(control_at(self.hits, x, y)->0, now)
        } else if holds(self.hits.progress, x, y) {
            self.progress_clicked(x)
        } else if holds(self.hits.nav, x, y) {
            self.nav_clicked(y)
        } else if holds(self.hits.lyrics, x, y) {
            AppView { show_lyrics: false, ..self.lyrics_focused() }
        } else {
            match hit_at(self.hits.columns, x, y) {
                Some(hit) => self.pane_clicked(hit, x, y, now),
                None => self,
            }
        }
    }

    /// The wheel.
    pub open spec fn scrolled(self, down: bool, x: u16, y: u16) -> AppView {
        let delta = if down { 3int } else { -3int };
        if holds(self.hits.volume, x, y) {
            self.player_told(
                if down {
                    CommandInfo::VolumeDown
                } else {
                    CommandInfo::VolumeUp
                },
            )
        } else if holds(self.hits.lyrics, x, y) {
            self.lyrics_focused()
        } else if holds(self.hits.nav, x, y) {
            AppView { focus: Focus::Navigation, ..self }.selection_moved(delta)
        } else {
            match hit_at(self.hits.columns, x, y) {
                Some(hit) => AppView { focus: pane_of(hit.index), ..self }.selection_moved(delta),
                None => self,
            }
        }
    }

    /// The mouse while the help is shown.
    pub open spec fn help_moused(self, kind: MouseEventKind) -> OverlayView {
        match kind {
            MouseEventKind::ScrollUp => self.overlay.scrolled_up(2),
            MouseEventKind::ScrollDown => self.overlay.scrolled_down(2),
            MouseEventKind::Press => OverlayView { show_help: false, ..self.overlay },
            MouseEventKind::Other => self.overlay,
        }
    }

    /// What the mouse does: what lies on top gets it first.
    pub open spec fn moused(self, mouse: MouseEvent, now: Instant) -> AppView {
        if self.overlay.show_help {
            AppView { overlay: self.help_moused(mouse.kind), ..self }
        } else if self.overlay.show_details {
            if mouse.kind == MouseEventKind::Press {
                AppView { overlay: OverlayView { show_details: false, ..self.overlay }, ..self }
            } else {
                self
            }
        } else {
            match mouse.kind {
                MouseEventKind::ScrollDown => self.scrolled(true, mouse.column, mouse.row),
                MouseEventKind::ScrollUp => self.scrolled(false, mouse.column, mouse.row),
                MouseEventKind::Press => self.pressed(mouse.column, mouse.row, now),
                MouseEventKind::Other => self,
            }
        }
    }
}

impl App {
    /// Where a click does something though nothing is listed.
    pub fn content_action_region(&self) -> (r: Rect)
        requires
            self@.hits.wf(),
        ensures
            r == self@.action_region(),
            r.wf(),
    {
        let area: Rect = self.hits.content;
        if self.route == Route::Account && self.account.identity.is_none() && self.account.qr.as_str().unicode_len() == 0 {
            let width: u16 = if self.account.login_status.as_str().unicode_len() == 0 {
                text_width("按 L 或点击这里扫码登录")
            } else {
                text_width(self.account.login_status.as_str())
            };
            centered_line(area, area.y, width)
        } else if self.route == Route::Downloads && self.jobs.active_job.is_none() && self.prompt.mode != InputMode::Download {
            centered_line(area, area.y.saturating_add(2), text_width("按 D 或点击这里"))
        } else if self.route == Route::Local && self.pane.content.is_empty() && self.prompt.mode == InputMode::Normal
            && !self.pane.loading && self.jobs.active_job.is_none() {
            centered_line(area, area.y, text_width(LOCAL_IMPORT_HINT))
        } else {
            Rect { x: 0, y: 0, width: 0, height: 0 }
        }
    }

    fn click_region(&mut self, now: Instant)
        requires
            old(self)@.wf(),
        ensures
            final(self)@.wf(),
            final(self)@ == old(self)@.region_clicked(),
    {
        proof {
            reveal(AppView::region_clicked);
            reveal(AppView::acted);
        }
        if self.route == Route::Account && self.account.identity.is_none() {
            self.start_login();
        } else if self.route == Route::Downloads && self.jobs.active_job.is_none() {
            self.dispatch_action(UiAction::Download, now);
        } else if self.route == Route::Local && self.prompt.mode == InputMode::Normal && self.jobs.active_job.is_none()
            && self.pane.content.is_empty() {
            self.begin_import();
        }
    }

    fn rows_in_pane(&self, index: usize) -> (r: usize)
        ensures
            r == self@.rows_in(index),
    {
        if index == 0 {
            self.pane.content.len()
        } else if index - 1 < self.columns.len() {
            proof {
                assert(self@.columns[index - 1] == self.columns@[index - 1]@);
            }
            self.columns[index - 1].content.len()
        } else {
            0
        }
    }

    fn click_row(&mut self, hit: ColumnHit, y: u16, now: Instant)
        requires
            old(self)@.wf(),
        ensures
            final(self)@.wf(),
            final(self)@ == old(self)@.row_clicked(hit, y, now),
    {
        proof {
            reveal(AppView::row_clicked);
        }
        let row: usize = hit.offset.saturating_add(y.saturating_sub(hit.area.y) as usize);
        let count: usize = self.rows_in_pane(hit.index);
        if row >= count {
            return;
        }
        let double: bool = match self.last_click {
            Some(click) => click.pane == hit.index && click.row == row && now.saturating_duration_since(click.at).nanos
                < DOUBLE_CLICK_NANOS,
            None => false,
        };
        proof {
            assert(row == hit.offset + minus(y as int, hit.area.y as int));
            assert(double == self@.is_double(hit.index, row as nat, now));
        }
        let ghost before = self@;
        if hit.index == 0 {
            self.pane.selected = row;
        } else {
            self.select_in_column(hit.index - 1, row);
        }
        self.last_click = Some(Click { pane: hit.index, row, at: now });
        proof {
            assert(self@ == (AppView {
                last_click: Some(Click { pane: hit.index, row, at: now }),
                ..before.picked(hit.index, row as nat)
            }));
        }
        if double {
            self.activate();
        }
    }

    fn click_pane(&mut self, hit: ColumnHit, x: u16, y: u16, now: Instant)
        requires
            old(self)@.wf(),
        ensures
            final(self)@.wf(),
            final(self)@ == old(self)@.pane_clicked(hit, x, y, now),
    {
        proof {
            reveal(AppView::pane_clicked);
        }
        self.focus = pane_focus(hit.index);
        if hit.index == 0 && contains(self.content_action_region(), x, y) {
            self.click_region(now);
            return;
        }
        self.click_row(hit, y, now);
    }

    fn click_progress(&mut self, x: u16)
        requires
            old(self)@.wf(),
        ensures
            final(self)@.wf(),
            final(self)@ == old(self)@.progress_clicked(x),
    {
        proof {
            reveal(AppView::progress_clicked);
            reveal(AppView::player_told);
        }
        let duration: Duration = self.playback.player_state.duration;
        if duration.is_zero() {
            return;
        }
        if let Some(target) = progress_target(self.hits.progress, x, duration) {
            if self.playback.has_player {
                self.send(Command::SeekTo(target));
            }
        }
    }

    fn click_navigation(&mut self, y: u16)
        requires
            old(self)@.wf(),
        ensures
            final(self)@.wf(),
            final(self)@ == old(self)@.nav_clicked(y),
    {
        proof {
            reveal(AppView::nav_clicked);
        }
        self.focus = Focus::Navigation;
        let row: usize = y.saturating_sub(self.hits.nav.y) as usize;
        if let Some(index) = nav_index_at(row, self.hits.nav.height) {
            self.nav_selected = index;
            self.open_route(Route::at(index));
        }
    }

    fn focus_lyrics(&mut self)
        ensures
            old(self)@.wf() ==> final(self)@.wf(),
            final(self)@ == old(self)@.lyrics_focused(),
    {
        if self.focus != Focus::Lyrics {
            self.previous_focus = self.valid_focus(self.focus);
            self.focus = Focus::Lyrics;
        }
    }

    fn press(&mut self, x: u16, y: u16, now: Instant)
        requires
            old(self)@.wf(),
        ensures
            final(self)@.wf(),
            final(self)@ == old(self)@.pressed(x, y, now),
    {
        if contains(self.hits.account, x, y) {
            self.open_route(Route::Account);
            return;
        }
        if let Some(action) = player_control_action(&self.hits, x, y) {
            self.dispatch_action(action, now);
            return;
        }
        if contains(self.hits.progress, x, y) {
            self.click_progress(x);
        } else if contains(self.hits.nav, x, y) {
            self.click_navigation(y);
        } else if contains(self.hits.lyrics, x, y) {
            self.focus_lyrics();
            self.show_lyrics = false;
        } else if let Some(hit) = find_hit(&self.hits.columns, x, y) {
            self.click_pane(hit, x, y, now);
        }
    }

    fn scroll(&mut self, down: bool, x: u16, y: u16)
        requires
            old(self)@.wf(),
        ensures
            final(self)@.wf(),
            final(self)@ == old(self)@.scrolled(down, x, y),
    {
        proof {
            reveal(AppView::player_told);
        }
        let delta: isize = if down {
            3
        } else {
            -3
        };
        if contains(self.hits.volume, x, y) {
            if self.playback.has_player {
                if down {
                    self.send(Command::VolumeDown);
                } else {
                    self.send(Command::VolumeUp);
                }
            }
        } else if contains(self.hits.lyrics, x, y) {
            self.focus_lyrics();
        } else if contains(self.hits.nav, x, y) {
            self.focus = Focus::Navigation;
            self.move_selection(delta);
        } else if let Some(hit) = find_hit(&self.hits.columns, x, y) {
            self.focus = pane_focus(hit.index);
            self.move_selection(delta);
        }
    }

    /// Does what the mouse stands for.
    pub fn handle_mouse(&mut self, mouse: MouseEvent, now: Instant)
        requires
            old(self)@.wf(),
        ensures
            final(self)@.wf(),
            final(self)@ == old(self)@.moused(mouse, now),
    {
        if self.overlay.show_help {
            match mouse.kind {
                MouseEventKind::ScrollUp => self.scroll_help_up(2),
                MouseEventKind::ScrollDown => self.scroll_help_down(2),
                MouseEventKind::Press => {
                    self.overlay.show_help = false;
                },
                MouseEventKind::Other => {},
            }
            return;
        }
        if self.overlay.show_details {
            if mouse.kind == MouseEventKind::Press {
                self.overlay.show_details = false;
            }
            return;
        }
        match mouse.kind {
            MouseEventKind::ScrollDown => self.scroll(true, mouse.column, mouse.row),
            MouseEventKind::ScrollUp => self.scroll(false, mouse.column, mouse.row),
            MouseEventKind::Press => self.press(mouse.column, mouse.row, now),
            MouseEventKind::Other => {},
        }
    }
}

// The regions of a screen.

impl AppView {
    /// How many panes there are, as far as they can be counted.
    pub open spec fn pane_count(self) -> nat {
        if self.columns.len() < usize::MAX {
            self.columns.len() + 1
        } else {
            usize::MAX as nat
        }
    }

    /// The selected row of a pane.
    pub open spec fn selection_in(self, index: usize) -> nat {
        if index == 0 {
            self.pane.selected
        } else if index - 1 < self.columns.len() {
            self.columns[index - 1].selected
        } else {
            0
        }
    }

    /// A pane, with the first row of it that is shown.
    pub open spec fn scrolled_hit(self, hit: ColumnHit) -> ColumnHit {
        ColumnHit {
            offset: minus(self.selection_in(hit.index) as int, minus(hit.area.height as int, 1)) as usize,
            ..hit
        }
    }

    /// The regions, with the first row that is shown in each pane.
    pub open spec fn scrolled_hits(self, hits: HitView) -> HitView {
        let columns = hits.columns.map_values(|hit: ColumnHit| self.scrolled_hit(hit));
        HitView { columns, content_offset: first_pane_offset(columns, hits.content_offset), ..hits }
    }
}

/// The first row that is shown in the first pane, if that is on the screen.
pub open spec fn first_pane_offset(columns: Seq<ColumnHit>, otherwise: usize) -> usize
    decreases columns.len(),
{
    if columns.len() == 0 {
        otherwise
    } else if columns.last().index == 0 {
        columns.last().offset
    } else {
        first_pane_offset(columns.drop_last(), otherwise)
    }
}

impl App {
    fn selected_in_pane(&self, index: usize) -> (r: usize)
        ensures
            r == self@.selection_in(index),
    {
        if index == 0 {
            self.pane.selected
        } else if index - 1 < self.columns.len() {
            proof {
                assert(self@.columns[index - 1] == self.columns@[index - 1]@);
            }
            self.columns[index - 1].selected
        } else {
            0
        }
    }

    /// Finds the regions of a screen.
    pub fn place_on(&mut self, area: Rect)
        requires
            area.wf(),
        ensures
            old(self)@.wf() ==> final(self)@.wf(),
            exists|hits: HitView|
                #[trigger] are_hits(
                    hits,
                    area,
                    width_of(status_text(old(self)@.playback.player_state)),
                    width_of(account_label_of(old(self)@.account.identity)),
                    old(self)@.pane_count(),
                    old(self)@.focus,
                    old(self)@.lyrics_room(),
                ) && final(self)@ == (AppView { hits: old(self)@.scrolled_hits(hits), ..old(self)@ }),
    {
        let status_width: u16 = text_width(player_status(&self.playback.player_state).as_str());
        let account_width: u16 = text_width(self.account_label());
        let panes: usize = self.columns.len().saturating_add(1);
        let base = screen_hits(area, status_width, account_width, panes, self.focus, self.lyrics_room());
        let ghost before = self@;
        let ghost wanted = before.scrolled_hits(base@);
        let mut columns: Vec<ColumnHit> = Vec::new();
        let mut offset: usize = base.content_offset;
        let mut i: usize = 0;
        proof {
            assert(wanted.columns.take(0) =~= seq![]);
        }
        while i < base.columns.len()
            invariant
                i <= base.columns@.len(),
                self@ == before,
                wanted == before.scrolled_hits(base@),
                base@.wf(),
                columns@ =~= wanted.columns.take(i as int),
                offset == first_pane_offset(columns@, base.content_offset),
                forall|k: int| 0 <= k < columns@.len() ==> (#[trigger] columns@[k]).area.wf(),
            decreases base.columns@.len() - i,
        {
            let hit: ColumnHit = base.columns[i];
            let shown: ColumnHit = ColumnHit {
                index: hit.index,
                area: hit.area,
                offset: content_offset(self.selected_in_pane(hit.index), hit.area.height),
            };
            proof {
                assert(base@.columns[i as int].area.wf());
                assert(wanted.columns[i as int] == shown);
                assert(columns@.push(shown).drop_last() =~= columns@);
            }
            columns.push(shown);
            if shown.index == 0 {
                offset = shown.offset;
            }
            i += 1;
        }
        proof {
            assert(columns@ =~= wanted.columns);
        }
        self.hits = HitRegions { columns, content_offset: offset, ..base };
        proof {
            assert(self.hits@ == wanted);
            assert(panes as nat == before.pane_count());
            assert(self@ == (AppView { hits: before.scrolled_hits(base@), ..before }));
            assert(before == old(self)@);
            assert(are_hits(
                base@,
                area,
                width_of(status_text(before.playback.player_state)),
                width_of(account_label_of(before.account.identity)),
                before.pane_count(),
                before.focus,
                before.lyrics_room(),
            ));
        }
    }
}

/// A double click opens what a single click selects.
pub proof fn lemma_double_click_opens(app: AppView, hit: ColumnHit, y: u16, first: Instant, second: Instant)
    requires
        hit.offset + minus(y as int, hit.area.y as int) < app.rows_in(hit.index),
        app.rows_in(hit.index) <= usize::MAX,
        hit.index > 0 ==> app.focus == Focus::Column((hit.index - 1) as usize),
        first@ <= second@ < first@ + DOUBLE_CLICK_NANOS,
        app.last_click is None,
    ensures
        ({
            let once = app.row_clicked(hit, y, first);
            let row = (hit.offset + minus(y as int, hit.area.y as int)) as nat;
            &&& once.commands == app.commands
            &&& once.selection_in(hit.index) == row
            &&& once.row_clicked(hit, y, second) == (AppView {
                last_click: Some(Click { pane: hit.index, row: row as usize, at: second }),
                ..once
            }).activated()
        }),
{
    reveal(AppView::row_clicked);
    let once = app.row_clicked(hit, y, first);
    let row = (hit.offset + minus(y as int, hit.area.y as int)) as nat;
    if hit.index > 0 {
        assert(once.columns[hit.index - 1].selected == row);
        assert(once.columns =~= once.picked(hit.index, row).columns);
    }
    assert(once.picked(hit.index, row) == once);
}

// What the mouse does.

/// A click belongs to the first of the panes that hold it.
pub proof fn lemma_hit(columns: Seq<ColumnHit>, x: u16, y: u16, i: int)
    requires
        0 <= i < columns.len(),
        holds(columns[i].area, x, y),
        forall|k: int| 0 <= k < i ==> !holds((#[trigger] columns[k]).area, x, y),
    ensures
        hit_at(columns, x, y) == Some(columns[i]),
    decreases i,
{
    if i > 0 {
        assert(!holds(columns[0].area, x, y));
        let rest = columns.skip(1);
        assert(rest[i - 1] == columns[i]);
        assert forall|k: int| 0 <= k < i - 1 implies !holds((#[trigger] rest[k]).area, x, y) by {
            assert(rest[k] == columns[k + 1]);
        }
        lemma_hit(rest, x, y, i - 1);
    }
}

/// A click on a row selects the row under it, counted from the first that is
/// shown; one below the last row selects nothing.
pub proof fn lemma_row_clicked(app: AppView, hit: ColumnHit, y: u16, now: Instant)
    requires
        hit.area.y <= y,
        hit.offset + (y - hit.area.y) <= usize::MAX,
    ensures
        hit.index == 0 && app.last_click is None && hit.offset + (y - hit.area.y) < app.pane.content.count() ==> {
            let after = app.row_clicked(hit, y, now);
            &&& after.pane.selected == hit.offset + (y - hit.area.y)
            &&& after.last_click is Some
            &&& after.last_click->0.row == hit.offset + (y - hit.area.y)
            &&& after.last_click->0.pane == hit.index
            &&& after.last_click->0.at == now
        },
        hit.index == 0 && hit.offset + (y - hit.area.y) >= app.pane.content.count() ==> app.row_clicked(hit, y, now)
            == app,
{
    reveal(AppView::row_clicked);
}

/// Two clicks are a double one where they are on the same row of the same
/// pane and less than 450 milliseconds apart.
pub proof fn lemma_double_clicks(app: AppView, click: Click, pane: usize, row: nat, now: Instant)
    requires
        app.last_click == Some(click),
        click.at@ <= now@,
    ensures
        app.is_double(pane, row, now) <==> click.pane == pane && click.row == row && now@ - click.at@ < 450_000_000,
        !(AppView { last_click: None, ..app }).is_double(pane, row, now),
{
}

/// A click on the progress seeks to where the cell stands, while there is a
/// player and something to seek in.
pub proof fn lemma_progress_clicked(app: AppView, x: u16)
    requires
        app.playback.has_player,
        app.playback.player_state.duration@ > 0,
        progress_position(app.hits.progress, x, app.playback.player_state.duration@) is Some,
    ensures
        app.progress_clicked(x) == app.sent(
            CommandInfo::SeekTo(progress_position(app.hits.progress, x, app.playback.player_state.duration@)->0),
        ),
        (AppView { hits: HitView { progress: nowhere(), ..app.hits }, ..app }).progress_clicked(x).commands
            == app.commands,
{
    reveal(AppView::progress_clicked);
    reveal(AppView::player_told);
}

/// On the controls of the player each does its own thing.
pub proof fn lemma_controls(hits: HitView, x: u16, y: u16)
    ensures
        holds(hits.previous, x, y) ==> control_at(hits, x, y) == Some(UiAction::PreviousTrack),
        holds(hits.pause, x, y) && !holds(hits.previous, x, y) ==> control_at(hits, x, y) == Some(UiAction::TogglePause),
        holds(hits.next, x, y) && !holds(hits.previous, x, y) && !holds(hits.pause, x, y) ==> control_at(hits, x, y)
            == Some(UiAction::NextTrack),
        holds(hits.play_mode, x, y) && !holds(hits.previous, x, y) && !holds(hits.pause, x, y) && !holds(
            hits.next,
            x,
            y,
        ) ==> control_at(hits, x, y) == Some(UiAction::CycleMode),
        !holds(hits.play_mode, x, y) && !holds(hits.previous, x, y) && !holds(hits.pause, x, y) && !holds(
            hits.next,
            x,
            y,
        ) ==> control_at(hits, x, y) is None,
{
}

/// The wheel on the volume turns it up and down; elsewhere it moves the
/// selection of the pane under it by three rows.
pub proof fn lemma_wheel(app: AppView, x: u16, y: u16)
    ensures
        holds(app.hits.volume, x, y) && app.playback.has_player ==> app.scrolled(true, x, y) == app.sent(
            CommandInfo::VolumeDown,
        ) && app.scrolled(false, x, y) == app.sent(CommandInfo::VolumeUp),
        !holds(app.hits.volume, x, y) && !holds(app.hits.lyrics, x, y) && holds(app.hits.nav, x, y) ==> app.scrolled(
            true,
            x,
            y,
        ) == (AppView { focus: Focus::Navigation, ..app }).selection_moved(3) && app.scrolled(false, x, y) == (AppView {
            focus: Focus::Navigation,
            ..app
        }).selection_moved(-3),
        !holds(app.hits.volume, x, y) && !holds(app.hits.lyrics, x, y) && !holds(app.hits.nav, x, y) && hit_at(
            app.hits.columns,
            x,
            y,
        ) is None ==> app.scrolled(true, x, y) == app && app.scrolled(false, x, y) == app,
{
    reveal(AppView::player_told);
}

/// Numbered panes are the first one and the columns behind it.
pub proof fn lemma_panes_numbered(column: usize)
    requires
        column < usize::MAX,
    ensures
        pane_of(0) == Focus::Content,
        pane_of((column + 1) as usize) == Focus::Column(column),
{
}

} // verus!
