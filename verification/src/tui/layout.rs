//! Where things stand on the screen, and what a click hits.

use vstd::prelude::*;

use crate::time::Duration;
use crate::tui::routes::{Focus, Route, UiAction};
use crate::tui::width::{text_width, width_of};

verus! {

pub const MIN_WIDTH: u16 = 60;

pub const MIN_HEIGHT: u16 = 24;

pub const WIDE_WIDTH: u16 = 96;

pub const COMPACT_WIDTH: u16 = 72;

pub const QR_PADDING_X: u16 = 2;

pub const QR_PADDING_Y: u16 = 1;

pub const QR_STATUS_GAP: u16 = 1;

/// A rectangle of cells.
#[derive(Clone, Copy, Debug, PartialEq, Eq, Structural)]
pub struct Rect {
    pub x: u16,
    pub y: u16,
    pub width: u16,
    pub height: u16,
}

impl Default for Rect {
    fn default() -> (r: Rect)
        ensures
            r == nowhere(),
    {
        Rect { x: 0, y: 0, width: 0, height: 0 }
    }
}

/// A rectangle without cells.
pub open spec fn nowhere() -> Rect {
    Rect { x: 0, y: 0, width: 0, height: 0 }
}

pub open spec fn least(a: int, b: int) -> int {
    if a <= b {
        a
    } else {
        b
    }
}

/// `a` less `b`, and at least nothing.
pub open spec fn minus(a: int, b: int) -> int {
    if a >= b {
        a - b
    } else {
        0
    }
}

/// A rectangle, cut so that it ends within the range of positions.
pub open spec fn rect(x: int, y: int, width: int, height: int) -> Rect {
    Rect {
        x: x as u16,
        y: y as u16,
        width: least(width, u16::MAX - x) as u16,
        height: least(height, u16::MAX - y) as u16,
    }
}

impl Rect {
    /// Whether the rectangle ends within the range of positions.
    pub open spec fn wf(self) -> bool {
        self.x + self.width <= u16::MAX && self.y + self.height <= u16::MAX
    }

    pub fn new(x: u16, y: u16, width: u16, height: u16) -> (r: Rect)
        ensures
            r == rect(x as int, y as int, width as int, height as int),
            r.wf(),
    {
        let max_width: u16 = u16::MAX - x;
        let max_height: u16 = u16::MAX - y;
        Rect {
            x,
            y,
            width: if width > max_width { max_width } else { width },
            height: if height > max_height { max_height } else { height },
        }
    }

    /// The column behind the last one.
    pub fn right(self) -> (r: u16)
        ensures
            r == least(self.x + self.width, u16::MAX as int),
    {
        self.x.saturating_add(self.width)
    }

    /// The row behind the last one.
    pub fn bottom(self) -> (r: u16)
        ensures
            r == least(self.y + self.height, u16::MAX as int),
    {
        self.y.saturating_add(self.height)
    }
}

/// Whether a cell lies in a rectangle.
pub open spec fn holds(area: Rect, x: u16, y: u16) -> bool {
    area.x <= x < area.x + area.width && area.y <= y < area.y + area.height
}

/// Whether a cell lies in a rectangle that ends within the range of positions.
pub fn contains(area: Rect, x: u16, y: u16) -> (r: bool)
    requires
        area.wf(),
    ensures
        r == holds(area, x, y),
{
    x >= area.x && x < area.x.saturating_add(area.width) && y >= area.y && y < area.y.saturating_add(area.height)
}

/// What a border leaves of a rectangle.
pub open spec fn inner_of(area: Rect) -> Rect {
    rect(
        least(area.x + 1, u16::MAX as int),
        least(area.y + 1, u16::MAX as int),
        minus(area.width as int, 2),
        minus(area.height as int, 2),
    )
}

pub fn inner_rect(area: Rect) -> (r: Rect)
    ensures
        r == inner_of(area),
        r.wf(),
{
    Rect::new(
        area.x.saturating_add(1),
        area.y.saturating_add(1),
        area.width.saturating_sub(2),
        area.height.saturating_sub(2),
    )
}

/// The first row that is shown of a list so that the selected one is.
pub fn content_offset(selected: usize, visible_height: u16) -> (r: usize)
    ensures
        r == minus(selected as int, minus(visible_height as int, 1)),
{
    selected.saturating_sub((visible_height as usize).saturating_sub(1))
}

/// With the offset of a list, the selected row is one of those that are shown.
pub proof fn lemma_selection_is_visible(selected: nat, visible: nat)
    requires
        visible > 0,
    ensures
        minus(selected as int, minus(visible as int, 1)) <= selected,
        selected < minus(selected as int, minus(visible as int, 1)) + visible,
{
}

/// A rectangle of a size in the middle of another, with a cell around it.
pub open spec fn centered_of(area: Rect, width: int, height: int) -> Rect {
    let w = least(width, minus(area.width as int, 2));
    let h = least(height, minus(area.height as int, 2));
    rect(area.x + (area.width - w) / 2, area.y + (area.height - h) / 2, w, h)
}

pub fn centered(area: Rect, width: u16, height: u16) -> (r: Rect)
    requires
        area.wf(),
    ensures
        r == centered_of(area, width as int, height as int),
        r.wf(),
{
    let room_x: u16 = area.width.saturating_sub(2);
    let room_y: u16 = area.height.saturating_sub(2);
    let w: u16 = if width <= room_x {
        width
    } else {
        room_x
    };
    let h: u16 = if height <= room_y {
        height
    } else {
        room_y
    };
    Rect::new(area.x + (area.width - w) / 2, area.y + (area.height - h) / 2, w, h)
}

/// Where the help is shown.
pub fn help_popup(area: Rect) -> (r: Rect)
    requires
        area.wf(),
    ensures
        r == centered_of(area, 76, 18),
{
    centered(area, 76, 18)
}

/// A line of a width in the middle of a rectangle.
pub open spec fn centered_line_of(area: Rect, y: int, width: int) -> Rect {
    let w = least(width, area.width as int);
    rect(area.x + (area.width - w) / 2, y, w, if area.height > 0 { 1 } else { 0 })
}

pub fn centered_line(area: Rect, y: u16, width: u16) -> (r: Rect)
    requires
        area.wf(),
    ensures
        r == centered_line_of(area, y as int, width as int),
        r.wf(),
{
    let w: u16 = if width <= area.width {
        width
    } else {
        area.width
    };
    Rect::new(area.x + (area.width - w) / 2, y, w, if area.height > 0 { 1 } else { 0 })
}

// The code that is scanned to log in.

#[derive(Clone, Copy, Debug, PartialEq, Eq, Structural)]
pub struct QrLayout {
    pub card: Rect,
    pub code: Rect,
    pub status: Rect,
}

/// Where a code stands: on a card that leaves a margin around it, with a line
/// for the status below. Nothing where the card would be clipped.
pub open spec fn qr_layout_of(area: Rect, width: int, height: int) -> Option<QrLayout> {
    let card_width = width + 2 * QR_PADDING_X;
    let card_height = height + 2 * QR_PADDING_Y;
    let total = card_height + QR_STATUS_GAP + 1;
    if width == 0 || height == 0 || card_width > area.width || total > area.height {
        None
    } else {
        let x = area.x + (area.width - card_width) / 2;
        let y = area.y + (area.height - total) / 2;
        Some(
            QrLayout {
                card: rect(x, y, card_width, card_height),
                code: rect(x + QR_PADDING_X, y + QR_PADDING_Y, width, height),
                status: rect(area.x as int, y + card_height + QR_STATUS_GAP, area.width as int, 1),
            },
        )
    }
}

pub fn qr_layout(area: Rect, code_width: u16, code_height: u16) -> (r: Option<QrLayout>)
    requires
        area.wf(),
    ensures
        r == qr_layout_of(area, code_width as int, code_height as int),
{
    if code_width == 0 || code_height == 0 {
        return None;
    }
    let card_width: u32 = code_width as u32 + 2 * QR_PADDING_X as u32;
    let card_height: u32 = code_height as u32 + 2 * QR_PADDING_Y as u32;
    let total: u32 = card_height + QR_STATUS_GAP as u32 + 1;
    if card_width > area.width as u32 || total > area.height as u32 {
        return None;
    }
    let x: u16 = area.x + (area.width - card_width as u16) / 2;
    let y: u16 = area.y + (area.height - total as u16) / 2;
    Some(
        QrLayout {
            card: Rect::new(x, y, card_width as u16, card_height as u16),
            code: Rect::new(x + QR_PADDING_X, y + QR_PADDING_Y, code_width, code_height),
            status: Rect::new(area.x, y + card_height as u16 + QR_STATUS_GAP, area.width, 1),
        },
    )
}

/// The margin around a code that is shown is whole on every side, and all of it
/// lies in the area.
pub proof fn lemma_qr_quiet_zone(area: Rect, width: int, height: int)
    requires
        area.wf(),
        qr_layout_of(area, width, height) is Some,
        0 <= width,
        0 <= height,
    ensures
        ({
            let l = qr_layout_of(area, width, height)->0;
            &&& l.code.x - l.card.x == QR_PADDING_X
            &&& l.code.y - l.card.y == QR_PADDING_Y
            &&& (l.card.x + l.card.width) - (l.code.x + l.code.width) == QR_PADDING_X
            &&& (l.card.y + l.card.height) - (l.code.y + l.code.height) == QR_PADDING_Y
            &&& l.status.y - (l.card.y + l.card.height) == QR_STATUS_GAP
            &&& area.x <= l.card.x && l.card.x + l.card.width <= area.x + area.width
            &&& area.y <= l.card.y && l.status.y + l.status.height <= area.y + area.height
        }),
{
}

// The navigation.

/// The lines of the navigation at full height: the headings of its groups and
/// its entries. A heading is `None`.
pub open spec fn grouped_lines() -> Seq<Option<usize>> {
    seq![
        None,
        Some(0usize),
        Some(1usize),
        Some(2usize),
        None,
        Some(3usize),
        Some(4usize),
        Some(5usize),
        None,
        Some(6usize),
        Some(7usize),
        Some(8usize),
        Some(9usize),
        Some(10usize),
        None,
        Some(11usize),
        Some(12usize),
        None,
        Some(13usize),
    ]
}

/// Whether the navigation has room for its headings: fourteen entries and five headings.
pub fn grouped_navigation(height: u16) -> (r: bool)
    ensures
        r == (height >= 19),
{
    height >= 19
}

pub open spec fn nav_index_of(row: int, height: u16) -> Option<usize> {
    if height < 19 {
        if 0 <= row < 14 {
            Some(row as usize)
        } else {
            None
        }
    } else if 0 <= row < 19 {
        grouped_lines()[row]
    } else {
        None
    }
}

/// The entry of the navigation in a row.
pub fn nav_index_at(row: usize, height: u16) -> (r: Option<usize>)
    ensures
        r == nav_index_of(row as int, height),
        r is Some ==> r->0 < 14,
{
    if !grouped_navigation(height) {
        return if row < 14 {
            Some(row)
        } else {
            None
        };
    }
    let mut line: usize = 0;
    let mut index: usize = 0;
    while index < 14
        invariant
            index <= 14,
            height >= 19,
            line <= row,
            line == index + if index <= 0 {
                0int
            } else if index <= 3 {
                1
            } else if index <= 6 {
                2
            } else if index <= 11 {
                3
            } else if index <= 13 {
                4
            } else {
                5
            },
        decreases 14 - index,
    {
        if Route::starts_group(index) {
            if row == line {
                return None;
            }
            line += 1;
        }
        if row == line {
            return Some(index);
        }
        line += 1;
        index += 1;
    }
    None
}

/// Every entry of the navigation stands in exactly one row, whatever its height.
pub proof fn lemma_nav_rows(index: usize, height: u16)
    requires
        index < 14,
    ensures
        exists|row: int| nav_index_of(row, height) == Some(index),
        forall|a: int, b: int|
            #![trigger nav_index_of(a, height), nav_index_of(b, height)]
            nav_index_of(a, height) == Some(index) && nav_index_of(b, height) == Some(index) ==> a == b,
{
    if height < 19 {
        assert(nav_index_of(index as int, height) == Some(index));
    } else {
        let row = if index < 3 {
            index + 1
        } else if index < 6 {
            index + 2
        } else if index < 11 {
            index + 3
        } else if index < 13 {
            index + 4
        } else {
            index + 5
        };
        assert(nav_index_of(row, height) == Some(index));
    }
}

// The panes of the screen.

#[derive(Clone, Copy, Debug, PartialEq, Eq, Structural)]
pub struct BrowserPane {
    pub index: usize,
    pub area: Rect,
}

#[derive(Clone, Debug, PartialEq, Eq)]
pub struct AppLayout {
    pub header: Rect,
    pub navigation: Option<Rect>,
    pub browser: Vec<BrowserPane>,
    pub lyrics: Option<Rect>,
    pub player: Rect,
    pub footer: Rect,
}

/// The rows of the screen, from the top: header, panes, player and footer.
#[derive(Clone, Copy, Debug, PartialEq, Eq, Structural)]
pub struct ScreenRows {
    pub header: Rect,
    pub panes: Rect,
    pub player: Rect,
    pub footer: Rect,
}

pub open spec fn screen_rows_of(area: Rect) -> ScreenRows {
    ScreenRows {
        header: Rect { height: HEADER_HEIGHT, ..area },
        panes: Rect {
            y: (area.y + HEADER_HEIGHT) as u16,
            height: (area.height - HEADER_HEIGHT - PLAYER_HEIGHT - FOOTER_HEIGHT) as u16,
            ..area
        },
        player: Rect {
            y: (area.y + area.height - PLAYER_HEIGHT - FOOTER_HEIGHT) as u16,
            height: PLAYER_HEIGHT,
            ..area
        },
        footer: Rect { y: (area.y + area.height - FOOTER_HEIGHT) as u16, height: FOOTER_HEIGHT, ..area },
    }
}

/// Where a row starts, and how high it is.
pub type RowExtent = (u16, u16);

/// The heights of the rows of the screen: those of the header, the player and
/// the footer, and the least height of the panes.
pub const HEADER_HEIGHT: u16 = 2;

pub const PANES_MIN_HEIGHT: u16 = 12;

pub const PLAYER_HEIGHT: u16 = 5;

pub const FOOTER_HEIGHT: u16 = 1;

/// `ratatui::layout::Layout::vertical` and `Layout::split` with a length, a
/// minimum and two lengths, on an area that is high enough for all of them: the
/// rows follow one another, the fixed ones have their lengths, and the second
/// takes what is left.
#[verifier::external_body]
fn split_heights(area: Rect, first: u16, least_second: u16, third: u16, fourth: u16) -> (r: (
    RowExtent,
    RowExtent,
    RowExtent,
    RowExtent,
))
    requires
        area.wf(),
        first > 0,
        0 < least_second <= 0x7fff,
        third > 0,
        fourth > 0,
        first + least_second + third + fourth <= area.height,
    ensures
        r.0 == (area.y, first),
        r.1 == ((area.y + first) as u16, (area.height - first - third - fourth) as u16),
        r.2 == ((area.y + area.height - third - fourth) as u16, third),
        r.3 == ((area.y + area.height - fourth) as u16, fourth),
{
    let rows = ratatui::layout::Layout::vertical([
        ratatui::layout::Constraint::Length(first),
        ratatui::layout::Constraint::Min(least_second),
        ratatui::layout::Constraint::Length(third),
        ratatui::layout::Constraint::Length(fourth),
    ]).split(ratatui::layout::Rect::new(area.x, area.y, area.width, area.height));
    ((rows[0].y, rows[0].height), (rows[1].y, rows[1].height), (rows[2].y, rows[2].height), (rows[3].y, rows[3].height))
}

fn split_rows(area: Rect) -> (r: ScreenRows)
    requires
        area.wf(),
        area.height >= MIN_HEIGHT,
    ensures
        r == screen_rows_of(area),
{
    let (header, panes, player, footer) = split_heights(
        area,
        HEADER_HEIGHT,
        PANES_MIN_HEIGHT,
        PLAYER_HEIGHT,
        FOOTER_HEIGHT,
    );
    ScreenRows {
        header: Rect { x: area.x, y: header.0, width: area.width, height: header.1 },
        panes: Rect { x: area.x, y: panes.0, width: area.width, height: panes.1 },
        player: Rect { x: area.x, y: player.0, width: area.width, height: player.1 },
        footer: Rect { x: area.x, y: footer.0, width: area.width, height: footer.1 },
    }
}

/// The pane that has to be visible: that of the focus, where it is a column,
/// and the last one while the lyrics are in focus.
pub open spec fn active_pane(column_count: nat, focus: Focus) -> int {
    match focus {
        Focus::Column(index) => least(index + 1, column_count - 1),
        Focus::Lyrics => column_count - 1,
        _ => 0,
    }
}

pub open spec fn nav_width_of(width: u16) -> int {
    if width >= WIDE_WIDTH {
        24
    } else {
        20
    }
}

/// The room that the lyrics get.
#[derive(Clone, Copy, Debug, PartialEq, Eq, Structural)]
pub enum LyricsRoom {
    /// They are closed.
    Closed,
    /// They stand beside the columns.
    Beside,
    /// They take most of the room while they are in focus.
    Expanded,
}

/// The room of lyrics that are not closed.
pub open spec fn open_room(expanded: bool) -> LyricsRoom {
    if expanded {
        LyricsRoom::Expanded
    } else {
        LyricsRoom::Beside
    }
}

/// How wide the lyrics are on a screen that is not compact.
pub open spec fn lyric_width_of(width: u16, focus: Focus, room: LyricsRoom) -> int {
    let workspace = width - nav_width_of(width);
    if room == LyricsRoom::Closed {
        0
    } else if room == LyricsRoom::Expanded && focus == Focus::Lyrics {
        let wanted = least(least(2 * workspace, u16::MAX as int) / 3, workspace - 24);
        if wanted >= 24 {
            wanted
        } else {
            24
        }
    } else if width >= WIDE_WIDTH {
        least(32, workspace - 24)
    } else {
        least(24, workspace - 24)
    }
}

/// How wide all columns are together on a screen that is not compact.
pub open spec fn browser_width_of(width: u16, focus: Focus, room: LyricsRoom) -> int {
    width - nav_width_of(width) - lyric_width_of(width, focus, room)
}

/// How many columns are visible: as many as have room, and no more than there are.
pub open spec fn visible_columns(browser_width: int, column_count: nat) -> int {
    let room = if browser_width / 24 >= 1 { browser_width / 24 } else { 1 };
    least(room, column_count as int)
}

/// The first column that is visible, so that the active one is.
pub open spec fn first_column(active: int, visible: int, column_count: nat) -> int {
    least(minus(active + 1, visible), minus(column_count as int, visible))
}

/// The column in a slot: the columns share the width, and the first ones take
/// a cell more where it does not divide.
pub open spec fn pane_of(browser: Rect, visible: int, first: int, slot: int) -> BrowserPane {
    let base = browser.width as int / visible;
    let rest = browser.width as int % visible;
    BrowserPane {
        index: (first + slot) as usize,
        area: Rect {
            x: (browser.x + slot * base + least(slot, rest)) as u16,
            y: browser.y,
            width: (base + if slot < rest { 1int } else { 0 }) as u16,
            height: browser.height,
        },
    }
}

/// The layout of a screen that is large enough.
#[verifier::opaque]
pub open spec fn is_layout(
    layout: AppLayout,
    area: Rect,
    column_count: nat,
    focus: Focus,
    room: LyricsRoom,
) -> bool {
    let rows = screen_rows_of(area);
    let columns = if column_count >= 1 { column_count } else { 1 };
    let active = active_pane(columns, focus);
    &&& layout.header == rows.header
    &&& layout.player == rows.player
    &&& layout.footer == rows.footer
    &&& if area.width < COMPACT_WIDTH {
        &&& layout.navigation is None
        &&& focus == Focus::Lyrics && room != LyricsRoom::Closed ==> layout.browser@.len() == 0 && layout.lyrics == Some(
            rows.panes,
        )
        &&& focus != Focus::Lyrics || room == LyricsRoom::Closed ==> layout.lyrics is None && layout.browser@ == seq![
            BrowserPane { index: active as usize, area: rows.panes },
        ]
    } else {
        let nav = nav_width_of(area.width);
        let browser_width = browser_width_of(area.width, focus, room);
        let browser = Rect { x: (area.x + nav) as u16, width: browser_width as u16, ..rows.panes };
        let visible = visible_columns(browser_width, columns);
        let first = first_column(active, visible, columns);
        &&& layout.navigation == Some(Rect { width: nav as u16, ..rows.panes })
        &&& layout.lyrics == if room == LyricsRoom::Closed {
            None
        } else {
            Some(
                Rect {
                    x: (area.x + nav + browser_width) as u16,
                    width: lyric_width_of(area.width, focus, room) as u16,
                    ..rows.panes
                },
            )
        }
        &&& layout.browser@ == Seq::new(visible as nat, |slot: int| pane_of(browser, visible, first, slot))
    }
}

/// Where everything stands while the lyrics are not closed; nothing on a screen
/// that is too small.
pub fn app_layout(area: Rect, column_count: usize, focus: Focus, lyrics_expanded: bool) -> (r: Option<AppLayout>)
    requires
        area.wf(),
    ensures
        match r {
            Some(layout) => area.width >= MIN_WIDTH && area.height >= MIN_HEIGHT && is_layout(
                layout,
                area,
                column_count as nat,
                focus,
                open_room(lyrics_expanded),
            ) && layout.player.wf(),
            None => area.width < MIN_WIDTH || area.height < MIN_HEIGHT,
        },
{
    let room: LyricsRoom = if lyrics_expanded {
        LyricsRoom::Expanded
    } else {
        LyricsRoom::Beside
    };
    screen_layout(area, column_count, focus, room)
}

/// Where everything stands; nothing on a screen that is too small.
pub fn screen_layout(area: Rect, column_count: usize, focus: Focus, room: LyricsRoom) -> (r: Option<AppLayout>)
    requires
        area.wf(),
    ensures
        match r {
            Some(layout) => area.width >= MIN_WIDTH && area.height >= MIN_HEIGHT && is_layout(
                layout,
                area,
                column_count as nat,
                focus,
                room,
            ) && layout.player.wf(),
            None => area.width < MIN_WIDTH || area.height < MIN_HEIGHT,
        },
{
    if area.width < MIN_WIDTH || area.height < MIN_HEIGHT {
        return None;
    }
    let rows = split_rows(area);
    let columns: usize = if column_count >= 1 {
        column_count
    } else {
        1
    };
    let active: usize = match focus {
        Focus::Column(index) => if index < columns - 1 {
            index + 1
        } else {
            columns - 1
        },
        Focus::Lyrics => columns - 1,
        _ => 0,
    };
    if area.width < COMPACT_WIDTH {
        let mut browser: Vec<BrowserPane> = Vec::new();
        let mut lyrics: Option<Rect> = None;
        if focus == Focus::Lyrics && room != LyricsRoom::Closed {
            lyrics = Some(rows.panes);
        } else {
            browser.push(BrowserPane { index: active, area: rows.panes });
            proof {
                assert(browser@ =~= seq![BrowserPane { index: active, area: rows.panes }]);
            }
        }
        let layout = AppLayout {
            header: rows.header,
            navigation: None,
            browser,
            lyrics,
            player: rows.player,
            footer: rows.footer,
        };
        proof {
            reveal(is_layout);
        }
        return Some(layout);
    }
    let nav_width: u16 = if area.width >= WIDE_WIDTH {
        24
    } else {
        20
    };
    let lyric_width: u16 = lyric_columns(area.width, focus, room);
    let browser_width: u16 = area.width - nav_width - lyric_width;
    let browser_area = Rect {
        x: area.x + nav_width,
        y: rows.panes.y,
        width: browser_width,
        height: rows.panes.height,
    };
    let browser = browser_panes(browser_area, columns, active);
    let layout = AppLayout {
        header: rows.header,
        navigation: Some(Rect { x: rows.panes.x, y: rows.panes.y, width: nav_width, height: rows.panes.height }),
        browser,
        lyrics: if room == LyricsRoom::Closed {
            None
        } else {
            Some(
                Rect {
                    x: browser_area.x + browser_width,
                    y: rows.panes.y,
                    width: lyric_width,
                    height: rows.panes.height,
                },
            )
        },
        player: rows.player,
        footer: rows.footer,
    };
    proof {
        reveal(is_layout);
    }
    Some(layout)
}

/// How wide the lyrics are on a screen that is not compact.
fn lyric_columns(width: u16, focus: Focus, room: LyricsRoom) -> (r: u16)
    requires
        width >= COMPACT_WIDTH,
    ensures
        r == lyric_width_of(width, focus, room),
        r <= width - nav_width_of(width) - 24,
        room != LyricsRoom::Closed ==> r >= 24,
{
    if room == LyricsRoom::Closed {
        return 0;
    }
    let workspace: u16 = if width >= WIDE_WIDTH {
        width - 24
    } else {
        width - 20
    };
    if room == LyricsRoom::Expanded && focus == Focus::Lyrics {
        let doubled: u16 = if workspace <= 32767 {
            workspace * 2
        } else {
            u16::MAX
        };
        let wanted: u16 = if doubled / 3 <= workspace - 24 {
            doubled / 3
        } else {
            workspace - 24
        };
        if wanted >= 24 {
            wanted
        } else {
            24
        }
    } else if width >= WIDE_WIDTH {
        if workspace - 24 >= 32 {
            32
        } else {
            workspace - 24
        }
    } else if workspace - 24 >= 24 {
        24
    } else {
        workspace - 24
    }
}

/// The columns that are visible, side by side.
fn browser_panes(browser: Rect, columns: usize, active: usize) -> (r: Vec<BrowserPane>)
    requires
        browser.wf(),
        columns >= 1,
        active < columns,
    ensures
        ({
            let visible = visible_columns(browser.width as int, columns as nat);
            let first = first_column(active as int, visible, columns as nat);
            r@ == Seq::new(visible as nat, |slot: int| pane_of(browser, visible, first, slot))
        }),
{
    let room: usize = if browser.width / 24 >= 1 {
        (browser.width / 24) as usize
    } else {
        1
    };
    let visible: usize = if room <= columns {
        room
    } else {
        columns
    };
    let wanted: usize = if active >= visible - 1 {
        active - (visible - 1)
    } else {
        0
    };
    let start: usize = if wanted <= columns - visible {
        wanted
    } else {
        columns - visible
    };
    let base: u16 = browser.width / visible as u16;
    let rest: u16 = browser.width % visible as u16;
    let mut out: Vec<BrowserPane> = Vec::new();
    let mut x: u16 = browser.x;
    let mut slot: usize = 0;
    proof {
        assert(base * visible + rest == browser.width) by (nonlinear_arith)
            requires
                base == browser.width / visible as u16,
                rest == browser.width % visible as u16,
                0 < visible <= 0xffff,
        ;
        assert(0 * base == 0) by (nonlinear_arith);
    }
    while slot < visible
        invariant
            slot <= visible,
            0 < visible <= 0xffff,
            rest < visible,
            start + visible <= columns,
            base == browser.width as int / visible as int,
            rest == browser.width as int % visible as int,
            base * visible + rest == browser.width,
            browser.wf(),
            x == browser.x + slot * base + least(slot as int, rest as int),
            out@.len() == slot,
            forall|k: int| 0 <= k < slot ==> #[trigger] out@[k] == pane_of(browser, visible as int, start as int, k),
        decreases visible - slot,
    {
        proof {
            assert(base * visible >= base) by (nonlinear_arith)
                requires
                    visible >= 1,
                    base >= 0,
            ;
            assert((slot + 1) * base == slot * base + base) by (nonlinear_arith);
            assert((slot + 1) * base <= base * visible) by (nonlinear_arith)
                requires
                    slot + 1 <= visible,
                    base >= 0,
            ;
        }
        let width: u16 = if slot < rest as usize {
            base + 1
        } else {
            base
        };
        out.push(
            BrowserPane { index: start + slot, area: Rect { x, y: browser.y, width, height: browser.height } },
        );
        x = x + width;
        slot += 1;
    }
    proof {
        let first = first_column(active as int, visible as int, columns as nat);
        assert(start == first);
        assert(out@ =~= Seq::new(visible as nat, |k: int| pane_of(browser, visible as int, first, k)));
    }
    out
}

// Laws of the panes.

/// The columns stand side by side without gaps or overlaps, the first where the
/// navigation ends and the last where the lyrics start, or where the screen ends
/// if they are closed, in the order in which they were opened, and the active
/// one is among them.
pub proof fn lemma_panes(layout: AppLayout, area: Rect, column_count: nat, focus: Focus, room: LyricsRoom)
    requires
        area.wf(),
        COMPACT_WIDTH <= area.width,
        MIN_HEIGHT <= area.height,
        column_count <= usize::MAX,
        is_layout(layout, area, column_count, focus, room),
    ensures
        layout.browser@.len() > 0,
        layout.browser@[0].area.x == layout.navigation->0.x + layout.navigation->0.width,
        room != LyricsRoom::Closed ==> layout.browser@.last().area.x + layout.browser@.last().area.width
            == layout.lyrics->0.x && layout.lyrics->0.x + layout.lyrics->0.width == area.x + area.width,
        room == LyricsRoom::Closed ==> layout.lyrics is None && layout.browser@.last().area.x
            + layout.browser@.last().area.width == area.x + area.width,
        forall|i: int|
            0 <= i < layout.browser@.len() - 1 ==> (#[trigger] layout.browser@[i]).area.x + layout.browser@[i].area.width
                == layout.browser@[i + 1].area.x && layout.browser@[i].index + 1 == layout.browser@[i + 1].index,
        exists|i: int|
            0 <= i < layout.browser@.len() && (#[trigger] layout.browser@[i]).index == active_pane(
                if column_count >= 1 { column_count } else { 1 },
                focus,
            ),
{
    reveal(is_layout);
    let columns = if column_count >= 1 { column_count } else { 1 };
    let active = active_pane(columns, focus);
    let rows = screen_rows_of(area);
    let nav = nav_width_of(area.width);
    let width = browser_width_of(area.width, focus, room);
    let browser = Rect { x: (area.x + nav) as u16, width: width as u16, ..rows.panes };
    let visible = visible_columns(width, columns);
    let first = first_column(active, visible, columns);
    let base = browser.width as int / visible;
    let rest = browser.width as int % visible;
    assert(0 < visible <= columns);
    assert(base * visible + rest == width) by (nonlinear_arith)
        requires
            base == width / visible,
            rest == width % visible,
            visible > 0,
    ;
    assert(0 <= rest < visible);
    assert(0 <= base) by (nonlinear_arith)
        requires
            base == width / visible,
            width >= 0,
            visible > 0,
    ;
    assert forall|slot: int| 0 <= slot < visible implies {
        let pane = #[trigger] pane_of(browser, visible, first, slot);
        &&& pane.area.x == browser.x + slot * base + least(slot, rest)
        &&& pane.area.width == base + if slot < rest { 1int } else { 0 }
        &&& pane.index == first + slot
    } by {
        assert(slot * base <= (visible - 1) * base) by (nonlinear_arith)
            requires
                slot <= visible - 1,
                base >= 0,
        ;
        assert((visible - 1) * base == base * visible - base) by (nonlinear_arith);
        assert(slot * base >= 0) by (nonlinear_arith)
            requires
                slot >= 0,
                base >= 0,
        ;
    }
    let panes = layout.browser@;
    assert(panes[0] == pane_of(browser, visible, first, 0));
    assert(panes.last() == pane_of(browser, visible, first, visible - 1));
    assert((visible - 1) * base == base * visible - base) by (nonlinear_arith);
    assert forall|i: int| 0 <= i < panes.len() - 1 implies (#[trigger] panes[i]).area.x + panes[i].area.width
        == panes[i + 1].area.x && panes[i].index + 1 == panes[i + 1].index by {
        assert(panes[i] == pane_of(browser, visible, first, i));
        assert(panes[i + 1] == pane_of(browser, visible, first, i + 1));
        assert((i + 1) * base == i * base + base) by (nonlinear_arith);
    }
    assert(panes[active - first] == pane_of(browser, visible, first, active - first));
}

// The player.

#[derive(Clone, Copy, Debug, PartialEq, Eq, Structural)]
pub struct PlayerLayout {
    pub song_info: Rect,
    pub elapsed: Rect,
    pub progress: Rect,
    pub duration: Rect,
    pub previous: Rect,
    pub pause: Rect,
    pub next: Rect,
    pub play_mode: Rect,
    pub volume: Rect,
}

/// How wide the controls of the player are.
#[derive(Clone, Copy, Debug, PartialEq, Eq, Structural)]
pub struct ControlWidths {
    pub previous: u16,
    pub pause: u16,
    pub next: u16,
    pub mode: u16,
}

/// The cells between two controls.
pub const CONTROL_GAP: u16 = 3;

pub open spec fn capped16(n: int) -> int {
    least(n, u16::MAX as int)
}

pub open spec fn no_player() -> PlayerLayout {
    PlayerLayout {
        song_info: nowhere(),
        elapsed: nowhere(),
        progress: nowhere(),
        duration: nowhere(),
        previous: nowhere(),
        pause: nowhere(),
        next: nowhere(),
        play_mode: nowhere(),
        volume: nowhere(),
    }
}

/// Where the parts of the player stand: what plays and the volume in the first
/// line, the progress in the middle of the second, the controls in the middle
/// of the third.
pub open spec fn player_layout_of(area: Rect, status_width: u16, widths: ControlWidths) -> PlayerLayout {
    let inner = inner_of(area);
    if inner.width < 24 || inner.height < 3 {
        no_player()
    } else {
        let volume = least(status_width as int, inner.width as int / 2);
        let track = least(inner.width as int / 2, inner.width - 12);
        let timeline = inner.x + (inner.width - (track + 12)) / 2;
        let controls = capped16(
            capped16(capped16(capped16(widths.previous + widths.pause) + widths.next) + widths.mode) + 9,
        );
        let previous = inner.x + minus(inner.width as int, controls) / 2;
        let pause = capped16(capped16(previous + widths.previous) + CONTROL_GAP);
        let next = capped16(capped16(pause + widths.pause) + CONTROL_GAP);
        let mode = capped16(capped16(next + widths.next) + CONTROL_GAP);
        PlayerLayout {
            song_info: rect(inner.x as int, inner.y as int, minus(inner.width as int, volume + 1), 1),
            volume: rect(inner.x + inner.width - volume, inner.y as int, volume, 1),
            elapsed: rect(timeline, inner.y + 1, 5, 1),
            progress: rect(timeline + 6, inner.y + 1, track, 1),
            duration: rect(timeline + 6 + track + 1, inner.y + 1, 5, 1),
            previous: rect(previous, inner.y + 2, widths.previous as int, 1),
            pause: rect(pause, inner.y + 2, widths.pause as int, 1),
            next: rect(next, inner.y + 2, widths.next as int, 1),
            play_mode: rect(mode, inner.y + 2, widths.mode as int, 1),
        }
    }
}

/// Where the parts of the player stand, given the widths of its controls.
pub fn player_layout_with(area: Rect, status_width: u16, widths: ControlWidths) -> (r: PlayerLayout)
    requires
        area.wf(),
    ensures
        r == player_layout_of(area, status_width, widths),
{
    let inner = inner_rect(area);
    if inner.width < 24 || inner.height < 3 {
        let none = Rect { x: 0, y: 0, width: 0, height: 0 };
        return PlayerLayout {
            song_info: none,
            elapsed: none,
            progress: none,
            duration: none,
            previous: none,
            pause: none,
            next: none,
            play_mode: none,
            volume: none,
        };
    }
    let half: u16 = inner.width / 2;
    let volume_width: u16 = if status_width <= half {
        status_width
    } else {
        half
    };
    let track_width: u16 = if half <= inner.width - 12 {
        half
    } else {
        inner.width - 12
    };
    let timeline: u16 = inner.x + (inner.width - (track_width + 12)) / 2;
    let controls: u16 = widths.previous.saturating_add(widths.pause).saturating_add(widths.next).saturating_add(
        widths.mode,
    ).saturating_add(9);
    let previous: Rect = Rect::new(
        inner.x + inner.width.saturating_sub(controls) / 2,
        inner.y + 2,
        widths.previous,
        1,
    );
    let pause: Rect = Rect::new(
        previous.x.saturating_add(widths.previous).saturating_add(CONTROL_GAP),
        inner.y + 2,
        widths.pause,
        1,
    );
    let next: Rect = Rect::new(
        pause.x.saturating_add(widths.pause).saturating_add(CONTROL_GAP),
        inner.y + 2,
        widths.next,
        1,
    );
    let play_mode: Rect = Rect::new(
        next.x.saturating_add(widths.next).saturating_add(CONTROL_GAP),
        inner.y + 2,
        widths.mode,
        1,
    );
    PlayerLayout {
        song_info: Rect::new(inner.x, inner.y, inner.width.saturating_sub(volume_width + 1), 1),
        elapsed: Rect::new(timeline, inner.y + 1, 5, 1),
        progress: Rect::new(timeline + 6, inner.y + 1, track_width, 1),
        duration: Rect::new(timeline + 6 + track_width + 1, inner.y + 1, 5, 1),
        previous,
        pause,
        next,
        play_mode,
        volume: Rect::new(inner.x + inner.width - volume_width, inner.y, volume_width, 1),
    }
}

/// The widths of the controls as they are written.
pub open spec fn written_widths() -> ControlWidths {
    ControlWidths {
        previous: width_of("p ‹"@),
        pause: if width_of("Space ▶"@) >= width_of("Space Ⅱ"@) {
            width_of("Space ▶"@)
        } else {
            width_of("Space Ⅱ"@)
        },
        next: width_of("› n"@),
        mode: width_of("m 循环"@),
    }
}

/// The widths of the controls as they are written.
pub fn control_widths() -> (r: ControlWidths)
    ensures
        r == written_widths(),
{
    let play: u16 = text_width("Space ▶");
    let pause: u16 = text_width("Space Ⅱ");
    ControlWidths {
        previous: text_width("p ‹"),
        pause: if play >= pause { play } else { pause },
        next: text_width("› n"),
        mode: text_width("m 循环"),
    }
}

/// Where the parts of the player stand.
pub fn player_layout(area: Rect, status_width: u16) -> (r: PlayerLayout)
    requires
        area.wf(),
    ensures
        r == player_layout_of(area, status_width, written_widths()),
{
    player_layout_with(area, status_width, control_widths())
}

/// No part of the player that can be clicked overlaps another, as long as the
/// controls have room.
pub proof fn lemma_player_parts_disjoint(area: Rect, status_width: u16, widths: ControlWidths)
    requires
        area.wf(),
        widths.previous + widths.pause + widths.next + widths.mode + 9 <= area.width - 2,
        inner_of(area).width >= 24,
        inner_of(area).height >= 3,
    ensures
        ({
            let l = player_layout_of(area, status_width, widths);
            &&& l.volume.y < l.progress.y < l.previous.y
            &&& l.previous.y == l.pause.y && l.pause.y == l.next.y && l.next.y == l.play_mode.y
            &&& l.previous.x + l.previous.width < l.pause.x
            &&& l.pause.x + l.pause.width < l.next.x
            &&& l.next.x + l.next.width < l.play_mode.x
            &&& l.play_mode.x + l.play_mode.width <= area.x + area.width
            &&& l.volume.height == 1 && l.progress.height == 1 && l.previous.height == 1
            &&& 2 * l.progress.width <= inner_of(area).width
        }),
{
}

// What a click hits.

#[derive(Clone, Copy, Debug, PartialEq, Eq, Structural)]
pub struct ColumnHit {
    pub index: usize,
    pub area: Rect,
    pub offset: usize,
}

#[derive(Clone, Debug, PartialEq, Eq)]
pub struct HitRegions {
    pub account: Rect,
    pub nav: Rect,
    pub content: Rect,
    pub columns: Vec<ColumnHit>,
    pub lyrics: Rect,
    pub progress: Rect,
    pub previous: Rect,
    pub pause: Rect,
    pub next: Rect,
    pub play_mode: Rect,
    pub volume: Rect,
    pub content_offset: usize,
}

#[verifier::ext_equal]
pub struct HitView {
    pub account: Rect,
    pub nav: Rect,
    pub content: Rect,
    pub columns: Seq<ColumnHit>,
    pub lyrics: Rect,
    pub progress: Rect,
    pub previous: Rect,
    pub pause: Rect,
    pub next: Rect,
    pub play_mode: Rect,
    pub volume: Rect,
    pub content_offset: usize,
}

impl View for HitRegions {
    type V = HitView;

    open spec fn view(&self) -> HitView {
        HitView {
            account: self.account,
            nav: self.nav,
            content: self.content,
            columns: self.columns@,
            lyrics: self.lyrics,
            progress: self.progress,
            previous: self.previous,
            pause: self.pause,
            next: self.next,
            play_mode: self.play_mode,
            volume: self.volume,
            content_offset: self.content_offset,
        }
    }
}

pub open spec fn no_hits() -> HitView {
    HitView {
        account: nowhere(),
        nav: nowhere(),
        content: nowhere(),
        columns: seq![],
        lyrics: nowhere(),
        progress: nowhere(),
        previous: nowhere(),
        pause: nowhere(),
        next: nowhere(),
        play_mode: nowhere(),
        volume: nowhere(),
        content_offset: 0,
    }
}

impl HitView {
    pub open spec fn wf(self) -> bool {
        &&& self.account.wf() && self.nav.wf() && self.content.wf() && self.lyrics.wf() && self.progress.wf()
        &&& self.previous.wf() && self.pause.wf() && self.next.wf() && self.play_mode.wf() && self.volume.wf()
        &&& forall|i: int| 0 <= i < self.columns.len() ==> (#[trigger] self.columns[i]).area.wf()
    }
}

impl Default for HitRegions {
    fn default() -> (r: HitRegions)
        ensures
            r@ == no_hits(),
            r@.wf(),
    {
        let none = Rect { x: 0, y: 0, width: 0, height: 0 };
        let r = HitRegions {
            account: none,
            nav: none,
            content: none,
            columns: Vec::new(),
            lyrics: none,
            progress: none,
            previous: none,
            pause: none,
            next: none,
            play_mode: none,
            volume: none,
            content_offset: 0,
        };
        proof {
            assert(r@ =~= no_hits());
        }
        r
    }
}

/// The columns of a layout that can be clicked: those without their borders.
pub open spec fn column_hits(panes: Seq<BrowserPane>) -> Seq<ColumnHit> {
    panes.map_values(|pane: BrowserPane| ColumnHit { index: pane.index, area: inner_of(pane.area), offset: 0 })
}

/// The area of the first column that is the content itself.
pub open spec fn content_area(columns: Seq<ColumnHit>) -> Rect
    decreases columns.len(),
{
    if columns.len() == 0 {
        nowhere()
    } else if columns[0].index == 0 {
        columns[0].area
    } else {
        content_area(columns.drop_first())
    }
}

/// What can be hit on a screen with a layout.
pub open spec fn hits_of(layout: AppLayout, area: Rect, player: PlayerLayout, account_width: u16) -> HitView {
    let columns = column_hits(layout.browser@);
    HitView {
        account: rect(
            minus(capped16(area.x + area.width), capped16(account_width + 2)),
            area.y as int,
            account_width as int,
            if area.height > 0 { 1 } else { 0 },
        ),
        nav: match layout.navigation {
            Some(nav) => inner_of(nav),
            None => nowhere(),
        },
        content: content_area(columns),
        columns,
        lyrics: match layout.lyrics {
            Some(lyrics) => inner_of(lyrics),
            None => nowhere(),
        },
        progress: player.progress,
        previous: player.previous,
        pause: player.pause,
        next: player.next,
        play_mode: player.play_mode,
        volume: player.volume,
        content_offset: 0,
    }
}

/// Whether regions are those of a screen: none on one that is too small.
pub open spec fn are_hits(
    hits: HitView,
    area: Rect,
    player_status_width: u16,
    account_width: u16,
    column_count: nat,
    focus: Focus,
    room: LyricsRoom,
) -> bool {
    if area.width < MIN_WIDTH || area.height < MIN_HEIGHT {
        hits == no_hits()
    } else {
        exists|layout: AppLayout|
            #[trigger] is_layout(layout, area, column_count, focus, room) && hits == hits_of(
                layout,
                area,
                player_layout_of(layout.player, player_status_width, written_widths()),
                account_width,
            )
    }
}

/// What a click hits while the lyrics are not closed.
pub fn calculate_hits(
    area: Rect,
    player_status_width: u16,
    account_width: u16,
    column_count: usize,
    focus: Focus,
    lyrics_expanded: bool,
) -> (r: HitRegions)
    requires
        area.wf(),
    ensures
        r@.wf(),
        are_hits(
            r@,
            area,
            player_status_width,
            account_width,
            column_count as nat,
            focus,
            open_room(lyrics_expanded),
        ),
{
    let room: LyricsRoom = if lyrics_expanded {
        LyricsRoom::Expanded
    } else {
        LyricsRoom::Beside
    };
    screen_hits(area, player_status_width, account_width, column_count, focus, room)
}

/// What a click hits.
pub fn screen_hits(
    area: Rect,
    player_status_width: u16,
    account_width: u16,
    column_count: usize,
    focus: Focus,
    room: LyricsRoom,
) -> (r: HitRegions)
    requires
        area.wf(),
    ensures
        r@.wf(),
        are_hits(r@, area, player_status_width, account_width, column_count as nat, focus, room),
{
    let layout = match screen_layout(area, column_count, focus, room) {
        Some(layout) => layout,
        None => {
            return HitRegions::default();
        },
    };
    let player = player_layout(layout.player, player_status_width);
    let mut columns: Vec<ColumnHit> = Vec::new();
    let mut i: usize = 0;
    proof {
        assert(columns@ =~= column_hits(layout.browser@.take(0)));
    }
    while i < layout.browser.len()
        invariant
            i <= layout.browser@.len(),
            columns@ == column_hits(layout.browser@.take(i as int)),
            forall|k: int| 0 <= k < columns@.len() ==> (#[trigger] columns@[k]).area.wf(),
        decreases layout.browser@.len() - i,
    {
        let hit = ColumnHit {
            index: layout.browser[i].index,
            area: inner_rect(layout.browser[i].area),
            offset: 0,
        };
        proof {
            assert(column_hits(layout.browser@.take(i + 1)) =~= column_hits(layout.browser@.take(i as int)).push(hit));
        }
        columns.push(hit);
        i += 1;
    }
    proof {
        assert(layout.browser@.take(i as int) =~= layout.browser@);
    }
    let mut content: Rect = Rect { x: 0, y: 0, width: 0, height: 0 };
    let mut j: usize = 0;
    let mut found: bool = false;
    proof {
        assert(columns@.skip(0) =~= columns@);
    }
    while j < columns.len() && !found
        invariant
            j <= columns@.len(),
            found ==> content == content_area(columns@),
            !found ==> content == nowhere() && content_area(columns@) == content_area(columns@.skip(j as int)),
            content.wf(),
            forall|k: int| 0 <= k < columns@.len() ==> (#[trigger] columns@[k]).area.wf(),
        decreases columns@.len() - j + if found { 0int } else { 1 },
    {
        proof {
            assert(columns@.skip(j as int).drop_first() =~= columns@.skip(j + 1));
            assert(columns@.skip(j as int)[0] == columns@[j as int]);
        }
        if columns[j].index == 0 {
            content = columns[j].area;
            found = true;
        } else {
            j += 1;
        }
    }
    let none = Rect { x: 0, y: 0, width: 0, height: 0 };
    let edge: u16 = area.right();
    let r = HitRegions {
        account: Rect::new(
            edge.saturating_sub(account_width.saturating_add(2)),
            area.y,
            account_width,
            if area.height > 0 { 1 } else { 0 },
        ),
        nav: match layout.navigation {
            Some(nav) => inner_rect(nav),
            None => none,
        },
        content,
        columns,
        lyrics: match layout.lyrics {
            Some(lyrics) => inner_rect(lyrics),
            None => none,
        },
        progress: player.progress,
        previous: player.previous,
        pause: player.pause,
        next: player.next,
        play_mode: player.play_mode,
        volume: player.volume,
        content_offset: 0,
    };
    proof {
        assert(is_layout(layout, area, column_count as nat, focus, room));
        assert(r@ =~= hits_of(
            layout,
            area,
            player_layout_of(layout.player, player_status_width, written_widths()),
            account_width,
        ));
    }
    r
}

pub open spec fn control_at(hits: HitView, x: u16, y: u16) -> Option<UiAction> {
    if holds(hits.previous, x, y) {
        Some(UiAction::PreviousTrack)
    } else if holds(hits.pause, x, y) {
        Some(UiAction::TogglePause)
    } else if holds(hits.next, x, y) {
        Some(UiAction::NextTrack)
    } else if holds(hits.play_mode, x, y) {
        Some(UiAction::CycleMode)
    } else {
        None
    }
}

/// The control of the player at a cell.
pub fn player_control_action(hits: &HitRegions, x: u16, y: u16) -> (r: Option<UiAction>)
    requires
        hits@.wf(),
    ensures
        r == control_at(hits@, x, y),
{
    if contains(hits.previous, x, y) {
        Some(UiAction::PreviousTrack)
    } else if contains(hits.pause, x, y) {
        Some(UiAction::TogglePause)
    } else if contains(hits.next, x, y) {
        Some(UiAction::NextTrack)
    } else if contains(hits.play_mode, x, y) {
        Some(UiAction::CycleMode)
    } else {
        None
    }
}

/// The position in a track that a cell of its progress stands for, to the
/// nearest nanosecond: the first cell is its start, the last one its end.
pub open spec fn progress_position(area: Rect, x: u16, duration: nat) -> Option<nat> {
    if area.width == 0 || x < area.x || x >= area.x + area.width {
        None
    } else if area.width == 1 {
        Some(0)
    } else {
        let steps = (area.width - 1) as nat;
        Some((duration * (x - area.x) as nat + steps / 2) / steps)
    }
}

pub fn progress_target(area: Rect, x: u16, duration: Duration) -> (r: Option<Duration>)
    requires
        area.wf(),
        duration@ <= crate::time::MAX_NANOS,
    ensures
        crate::lyrics::span_option(r) == progress_position(area, x, duration@),
{
    if area.width == 0 || x < area.x || x >= area.right() {
        return None;
    }
    if area.width == 1 {
        return Some(Duration { nanos: 0 });
    }
    let steps: u128 = (area.width - 1) as u128;
    let cell: u128 = (x - area.x) as u128;
    proof {
        assert(duration.nanos * cell <= crate::time::MAX_NANOS * 0xffff) by (nonlinear_arith)
            requires
                duration.nanos <= crate::time::MAX_NANOS,
                cell <= 0xffff,
        ;
    }
    Some(Duration { nanos: (duration.nanos * cell + steps / 2) / steps })
}

/// The progress covers the whole track: its first cell leads to the start, its
/// last one to the end, and no cell leads further than one to its right.
pub proof fn lemma_progress_covers(area: Rect, duration: nat, x: u16, y: u16)
    requires
        area.wf(),
        area.width > 1,
        area.x <= x <= y < area.x + area.width,
    ensures
        progress_position(area, area.x, duration) == Some(0nat),
        progress_position(area, (area.x + area.width - 1) as u16, duration) == Some(duration),
        progress_position(area, x, duration)->0 <= progress_position(area, y, duration)->0,
{
    let steps = (area.width - 1) as nat;
    let a = (x - area.x) as nat;
    let b = (y - area.x) as nat;
    assert((duration * 0 + steps / 2) / steps == 0) by (nonlinear_arith)
        requires
            steps > 0,
    ;
    assert((duration * steps + steps / 2) / steps == duration) by (nonlinear_arith)
        requires
            steps > 0,
    ;
    assert(duration * a <= duration * b) by (nonlinear_arith)
        requires
            a <= b,
    ;
    let p = duration * a + steps / 2;
    let q = duration * b + steps / 2;
    assert(p / steps <= q / steps) by (nonlinear_arith)
        requires
            p <= q,
            steps > 0,
    ;
}

/// A cell of the progress leads to the part of the track that it stands at,
/// to the nearest nanosecond.
pub proof fn lemma_progress_is_even(area: Rect, duration: nat, x: u16)
    requires
        area.width > 1,
    ensures
        area.x <= x < area.x + area.width <==> progress_position(area, x, duration) is Some,
        progress_position(area, x, duration) is Some ==> {
            let position = progress_position(area, x, duration)->0;
            let exact = duration * (x - area.x);
            2 * exact - (area.width - 1) <= 2 * (position * (area.width - 1)) <= 2 * exact + (area.width - 1)
        },
{
    if area.x <= x < area.x + area.width {
        let steps = (area.width - 1) as nat;
        let exact = duration * (x - area.x) as nat;
        let n = exact + steps / 2;
        vstd::arithmetic::div_mod::lemma_fundamental_div_mod(n as int, steps as int);
        let q = n / steps;
        assert(steps * q == q * steps) by (nonlinear_arith);
        assert(exact == duration * (x - area.x));
    }
}

/// A border takes the outermost cells and leaves all others.
pub proof fn lemma_border(area: Rect, x: u16, y: u16)
    requires
        area.wf(),
    ensures
        holds(inner_of(area), x, y) <==> area.x < x < area.x + area.width - 1 && area.y < y < area.y + area.height - 1,
{
}

/// What is centered has the size that was asked for, as far as there is room,
/// lies in the middle and leaves a cell around it.
pub proof fn lemma_centered(area: Rect, width: u16, height: u16)
    requires
        area.wf(),
        area.width >= 2,
        area.height >= 2,
    ensures
        width + 2 <= area.width ==> centered_of(area, width as int, height as int).width == width,
        height + 2 <= area.height ==> centered_of(area, width as int, height as int).height == height,
        ({
            let c = centered_of(area, width as int, height as int);
            let left = c.x - area.x;
            let right = area.x + area.width - (c.x + c.width);
            let above = c.y - area.y;
            let below = area.y + area.height - (c.y + c.height);
            1 <= left <= right <= left + 1 && 1 <= above <= below <= above + 1
        }),
{
}

/// The header, the panes, the player and the footer stand one below the
/// other and fill the screen.
pub proof fn lemma_rows_fill_screen(area: Rect)
    requires
        area.wf(),
        area.height >= MIN_HEIGHT,
    ensures
        ({
            let rows = screen_rows_of(area);
            &&& rows.header.y == area.y && rows.header.height == 2
            &&& rows.panes.y == rows.header.y + rows.header.height && rows.panes.height >= 12
            &&& rows.player.y == rows.panes.y + rows.panes.height && rows.player.height == 5
            &&& rows.footer.y == rows.player.y + rows.player.height && rows.footer.height == 1
            &&& rows.footer.y + rows.footer.height == area.y + area.height
            &&& rows.header.x == area.x && rows.header.width == area.width
            &&& rows.panes.x == area.x && rows.panes.width == area.width
            &&& rows.player.x == area.x && rows.player.width == area.width
            &&& rows.footer.x == area.x && rows.footer.width == area.width
        }),
{
}

/// The pane of the focus is among those that are shown, and as many are
/// shown as have room.
pub proof fn lemma_focus_is_shown(column_count: nat, focus: Focus, browser_width: int)
    requires
        column_count >= 1,
        browser_width >= 24,
    ensures
        ({
            let active = active_pane(column_count, focus);
            let visible = visible_columns(browser_width, column_count);
            let first = first_column(active, visible, column_count);
            &&& 0 <= active < column_count
            &&& 1 <= visible <= column_count && 24 * visible <= browser_width
            &&& visible == column_count || browser_width < 24 * (visible + 1)
            &&& 0 <= first <= active < first + visible <= column_count
        }),
        focus is Column && focus->Column_0 + 1 < column_count ==> active_pane(column_count, focus) == focus->Column_0
            + 1,
        focus is Lyrics ==> active_pane(column_count, focus) == column_count - 1,
        focus is Content || focus is Navigation ==> active_pane(column_count, focus) == 0,
{
}

} // verus!
