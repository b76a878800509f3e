//! Where a click lands inside the file browser and settings windows. The
//! layout mirrors what the window renderer draws; positions are taken as
//! unsigned pixel offsets, as the renderer takes them.
use vstd::prelude::*;

verus! {

/// Width of the file browser's sidebar.
pub const EXPLORER_SIDEBAR_W: usize = 140;
/// Height of the address bar.
pub const EXPLORER_ADDR_H: usize = 28;
/// Height of the title bar, as the window contents see it.
pub const CONTENT_TITLE_H: usize = 33;
/// Height of one row of the listing.
pub const EXPLORER_ROW_H: usize = 22;

/// What a click in the file browser hits.
#[derive(PartialEq, Eq, Structural)]
pub enum ExplorerHit {
    Back,
    Forward,
    Up,
    /// A row of the listing (it may lie past the last entry).
    Row(usize),
    /// A sidebar bookmark (it may lie past the last bookmark).
    Bookmark(usize),
    Nothing,
}

/// What a click in the settings window hits.
#[derive(PartialEq, Eq, Structural)]
pub enum SettingsHit {
    /// A sidebar section (it may lie past the last section).
    Section(usize),
    /// The wallpaper and accent rows of the first section: the wallpaper
    /// preset and the accent colour under the pointer, either of which may
    /// lie past the last choice, or be missed.
    Appearance(Option<usize>, Option<usize>),
    /// The dark mode switch of the second section.
    DarkMode,
    Nothing,
}

/// The address bar's rows, for a window whose contents start at `y0`.
pub open spec fn in_address_bar(y0: int, cy: int) -> bool {
    y0 + 33 <= cy < y0 + 61
}

/// What a click at `(cx, cy)` hits in a file browser window at `(x0, y0)`
/// scrolled by `scroll` rows.
pub open spec fn explorer_hit_at(x0: int, y0: int, cx: int, cy: int, scroll: int) -> ExplorerHit {
    let content_x = x0 + 141;
    if content_x + 2 <= cx < content_x + 26 && in_address_bar(y0, cy) {
        ExplorerHit::Back
    } else if content_x + 26 <= cx < content_x + 50 && in_address_bar(y0, cy) {
        ExplorerHit::Forward
    } else if content_x + 50 <= cx < content_x + 80 && in_address_bar(y0, cy) {
        ExplorerHit::Up
    } else if cx >= content_x && cy >= y0 + 82 {
        ExplorerHit::Row(((cy - (y0 + 82)) / 22 + scroll) as usize)
    } else if x0 <= cx < x0 + 140 {
        ExplorerHit::Bookmark(((cy - (y0 + 33)) / 22) as usize)
    } else {
        ExplorerHit::Nothing
    }
}

/// Finding what a click hits in the file browser stays within `usize`.
pub open spec fn explorer_hit_fits(x0: int, y0: int, cx: int, cy: int, scroll: int) -> bool {
    &&& x0 + 221 <= usize::MAX
    &&& y0 + 82 <= usize::MAX
    &&& (cx >= x0 + 141 && cy >= y0 + 82 ==> (cy - (y0 + 82)) / 22 + scroll <= usize::MAX)
    &&& (x0 <= cx < x0 + 140 && cy < y0 + 82 ==> cy >= y0 + 33)
}

/// What a click at `(cx, cy)` hits in a settings window at `(x0, y0)`
/// showing section `active`.
pub open spec fn settings_hit_at(x0: int, y0: int, cx: int, cy: int, active: usize) -> SettingsHit {
    let px0 = x0 + 176;
    if x0 <= cx < x0 + 160 {
        SettingsHit::Section(((cy - (y0 + 45)) / 36) as usize)
    } else if active == 0 {
        let over = if cx >= px0 { cx - px0 } else { 0 };
        SettingsHit::Appearance(
            if y0 + 99 <= cy < y0 + 135 { Some((over / 56) as usize) } else { None },
            if y0 + 179 <= cy < y0 + 207 { Some((over / 36) as usize) } else { None },
        )
    } else if active == 1 && x0 + 296 <= cx < x0 + 340 && y0 + 77 <= cy < y0 + 99 {
        SettingsHit::DarkMode
    } else {
        SettingsHit::Nothing
    }
}

/// Finding what a click hits in the settings window stays within `usize`.
pub open spec fn settings_hit_fits(x0: int, y0: int, cx: int, cy: int) -> bool {
    &&& x0 + 340 <= usize::MAX
    &&& y0 + 207 <= usize::MAX
    &&& (x0 <= cx < x0 + 160 ==> cy >= y0 + 45)
}

/// What a click at `(cx, cy)` hits in a file browser window at `(x0, y0)`
/// scrolled by `scroll` rows.
pub fn explorer_hit(x0: usize, y0: usize, cx: usize, cy: usize, scroll: usize) -> (r: ExplorerHit)
    requires
        explorer_hit_fits(x0 as int, y0 as int, cx as int, cy as int, scroll as int),
    ensures
        r == explorer_hit_at(x0 as int, y0 as int, cx as int, cy as int, scroll as int),
{
    let content_x = x0 + EXPLORER_SIDEBAR_W + 1;
    let bar_top = y0 + CONTENT_TITLE_H;
    let bar = cy >= bar_top && cy < bar_top + EXPLORER_ADDR_H;
    let list_y0 = y0 + CONTENT_TITLE_H + EXPLORER_ADDR_H + 21;
    if cx >= content_x + 2 && cx < content_x + 26 && bar {
        ExplorerHit::Back
    } else if cx >= content_x + 26 && cx < content_x + 50 && bar {
        ExplorerHit::Forward
    } else if cx >= content_x + 50 && cx < content_x + 80 && bar {
        ExplorerHit::Up
    } else if cx >= content_x && cy >= list_y0 {
        ExplorerHit::Row((cy - list_y0) / EXPLORER_ROW_H + scroll)
    } else if cx >= x0 && cx < x0 + EXPLORER_SIDEBAR_W {
        ExplorerHit::Bookmark((cy - bar_top) / 22)
    } else {
        ExplorerHit::Nothing
    }
}

/// What a click at `(cx, cy)` hits in a settings window at `(x0, y0)`
/// showing section `active`.
pub fn settings_hit(x0: usize, y0: usize, cx: usize, cy: usize, active: usize) -> (r: SettingsHit)
    requires
        settings_hit_fits(x0 as int, y0 as int, cx as int, cy as int),
    ensures
        r == settings_hit_at(x0 as int, y0 as int, cx as int, cy as int, active),
{
    let sidebar_w: usize = 160;
    let title_h: usize = 33;
    if cx >= x0 && cx < x0 + sidebar_w {
        SettingsHit::Section((cy - (y0 + title_h + 12)) / 36)
    } else if active == 0 {
        let px0 = x0 + sidebar_w + 16;
        let py0 = y0 + title_h + 16 + 50;
        let over = if cx >= px0 { cx - px0 } else { 0 };
        let preset = if cy >= py0 && cy < py0 + 36 { Some(over / 56) } else { None };
        let ay0 = y0 + title_h + 16 + 130;
        let accent = if cy >= ay0 && cy < ay0 + 28 { Some(over / 36) } else { None };
        SettingsHit::Appearance(preset, accent)
    } else if active == 1 {
        let tx = x0 + sidebar_w + 16 + 120;
        let ty = y0 + title_h + 16 + 28;
        if cx >= tx && cx < tx + 44 && cy >= ty && cy < ty + 22 {
            SettingsHit::DarkMode
        } else {
            SettingsHit::Nothing
        }
    } else {
        SettingsHit::Nothing
    }
}

} // verus!
