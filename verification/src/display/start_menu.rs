//! The start menu as the display server draws it: a centred panel above the
//! taskbar, with a grid of application tiles and a row of power buttons.
use vstd::prelude::*;
use crate::geometry::{cast_usize_i32, fits_i32, usize_as_i32};
use crate::text::owned;

verus! {

/// One application tile.
#[derive(Clone)]
pub struct StartMenuEntry {
    pub name: String,
    pub executable: String,
    pub icon_color: [u8; 3],
    /// The letter shown inside the icon square.
    pub icon_char: char,
}

/// The start menu's state.
pub struct StartMenu {
    pub visible: bool,
    pub entries: Vec<StartMenuEntry>,
    pub hovered: Option<usize>,
    pub power_hovered: Option<usize>,
    /// What the user typed in the search box.
    pub search_query: String,
}

pub const MENU_W: usize = 520;
pub const MENU_H: usize = 420;
/// Left edge: centred on a 1280 pixel wide screen.
pub const MENU_X: usize = (1280 - MENU_W) / 2;
/// Distance from the menu's top to the bottom of the screen: the menu sits
/// just above the taskbar.
pub const MENU_Y_FROM_BOTTOM: usize = MENU_H + 42;

pub const TILE_COLS: usize = 4;
pub const TILE_W: usize = 96;
pub const TILE_H: usize = 80;
pub const TILE_GAP: usize = 10;
/// Left margin of the tile grid: the grid is centred in the menu.
pub const TILE_PAD_X: usize = (MENU_W - TILE_COLS * TILE_W - (TILE_COLS - 1) * TILE_GAP) / 2;
/// Top margin of the tile grid, below the search bar and its label.
pub const TILE_PAD_Y: usize = 90;

/// Width, height and gap of the power buttons.
pub const POWER_BTN_W: i32 = 88;
pub const POWER_BTN_H: i32 = 28;
pub const POWER_BTN_GAP: i32 = 10;

/// An entry as plain values: name, executable, icon colour, icon letter.
pub open spec fn entry_view(e: StartMenuEntry) -> (Seq<char>, Seq<char>, Seq<u8>, char) {
    (e.name@, e.executable@, e.icon_color@, e.icon_char)
}

/// The pinned applications of a new start menu.
pub open spec fn pinned_entries() -> Seq<(Seq<char>, Seq<char>, Seq<u8>, char)> {
    seq![
        ("File Explorer"@, "explorer"@, seq![245u8, 180u8, 35u8], 'F'),
        ("Terminal"@, "terminal"@, seq![60u8, 200u8, 80u8], '>'),
        ("Browser"@, "browser"@, seq![60u8, 150u8, 255u8], 'B'),
        ("TRiDOCS"@, "tridocs"@, seq![70u8, 130u8, 220u8], 'D'),
        ("TRiSHEETS"@, "trisheets"@, seq![50u8, 180u8, 100u8], 'S'),
        ("TRiSLIDES"@, "trislides"@, seq![220u8, 100u8, 60u8], 'P'),
        ("TRiDRAW"@, "tridraw"@, seq![180u8, 80u8, 220u8], 'A'),
        ("Settings"@, "settings"@, seq![130u8, 135u8, 170u8], '\u{2699}'),
    ]
}

/// Left edge of tile `i`.
pub open spec fn tile_x(i: int) -> int {
    MENU_X + TILE_PAD_X + (i % TILE_COLS as int) * (TILE_W + TILE_GAP)
}

/// Top edge of tile `i` in a menu whose top is `menu_top`.
pub open spec fn tile_y(i: int, menu_top: int) -> int {
    menu_top + TILE_PAD_Y + (i / TILE_COLS as int) * (TILE_H + TILE_GAP)
}

/// Whether `(mx, my)` is on tile `i`.
pub open spec fn tile_hit(i: int, mx: int, my: int, menu_top: int) -> bool {
    &&& tile_x(i) <= mx < tile_x(i) + TILE_W
    &&& tile_y(i, menu_top) <= my < tile_y(i, menu_top) + TILE_H
}

/// Tile `i`'s edges, in a menu whose top is `menu_top`, can be computed in
/// `i32`.
pub open spec fn tile_fits(i: int, menu_top: int) -> bool {
    &&& (i / TILE_COLS as int) * (TILE_H + TILE_GAP) <= i32::MAX
    &&& fits_i32(menu_top + TILE_PAD_Y + (i / TILE_COLS as int) * (TILE_H + TILE_GAP) + TILE_H)
}

/// Tile `i`'s top-left corner, in a menu whose top is `menu_top`, can be
/// computed in `i32`.
pub open spec fn tile_pos_fits(i: int, menu_top: int) -> bool {
    &&& (i / TILE_COLS as int) * (TILE_H + TILE_GAP) <= i32::MAX
    &&& fits_i32(tile_y(i, menu_top))
}

/// Testing tile `i` against `(mx, my)` stays within `i32`: its corner is
/// computed, and its bottom edge too once the pointer is level with or
/// below its top and within its columns.
pub open spec fn tile_test_fits(i: int, mx: int, my: int, menu_top: int) -> bool {
    &&& tile_pos_fits(i, menu_top)
    &&& (tile_x(i) <= mx < tile_x(i) + TILE_W && tile_y(i, menu_top) <= my) ==> fits_i32(
        tile_y(i, menu_top) + TILE_H,
    )
}

/// The scan over the first `n` tiles, which stops at the first one under
/// `(mx, my)`, stays within `i32` for every tile it tests.
pub open spec fn tile_scan_fits(n: int, mx: int, my: int, menu_top: int) -> bool {
    forall|i: int|
        0 <= i < n && (forall|j: int| 0 <= j < i ==> !#[trigger] tile_hit(j, mx, my, menu_top))
            ==> #[trigger] tile_test_fits(i, mx, my, menu_top)
}

/// A menu whose row after its last tile fits passes every scan.
pub proof fn lemma_tile_scan_fits(n: int, mx: int, my: int, menu_top: int)
    requires
        0 <= n,
        fits_i32(menu_top),
        tile_fits(n, menu_top),
    ensures
        tile_scan_fits(n, mx, my, menu_top),
{
    assert forall|i: int|
        0 <= i < n && (forall|j: int| 0 <= j < i ==> !#[trigger] tile_hit(j, mx, my, menu_top))
            implies #[trigger] tile_test_fits(i, mx, my, menu_top) by {
        assert(i / 4 <= n / 4) by (nonlinear_arith)
            requires
                0 <= i <= n,
        ;
        assert(i / 4 * 90 <= n / 4 * 90) by (nonlinear_arith)
            requires
                i / 4 <= n / 4,
        ;
        assert(0 <= i / 4 * 90) by (nonlinear_arith)
            requires
                0 <= i,
        ;
        assert(tile_y(i, menu_top) == menu_top + TILE_PAD_Y + i / 4 * 90);
        assert(tile_y(n, menu_top) == menu_top + TILE_PAD_Y + n / 4 * 90);
    }
}

/// The tile of `n` under `(mx, my)`, if any.
pub open spec fn tile_under(n: int, mx: int, my: int, menu_top: int) -> Option<usize> {
    if exists|i: int| 0 <= i < n && #[trigger] tile_hit(i, mx, my, menu_top) {
        Some((choose|i: int| 0 <= i < n && #[trigger] tile_hit(i, mx, my, menu_top)) as usize)
    } else {
        None
    }
}

/// The top of the menu on a screen `screen_height` high.
pub open spec fn menu_top(screen_height: usize) -> int {
    usize_as_i32((screen_height - MENU_Y_FROM_BOTTOM) as usize)
}

/// The tile under `(mx, my)` in menu `m` on a screen `screen_height` high:
/// none while the menu is hidden.
pub open spec fn hovered_tile(m: StartMenu, mx: int, my: int, screen_height: usize) -> Option<usize> {
    if m.visible {
        tile_under(m.entries@.len() as int, mx, my, menu_top(screen_height))
    } else {
        None
    }
}

/// The power button under `(mx, my)` in menu `m` on a screen
/// `screen_height` high: none while the menu is hidden.
pub open spec fn hovered_power(m: StartMenu, mx: int, my: int, screen_height: usize) -> Option<usize> {
    if m.visible {
        power_under(mx, my, menu_top(screen_height))
    } else {
        None
    }
}

/// Pointer queries on menu `m` on a screen `screen_height` high stay within
/// `i32`.
pub open spec fn hover_fits(m: StartMenu, screen_height: usize) -> bool {
    m.visible ==> {
        &&& screen_height >= MENU_Y_FROM_BOTTOM
        &&& tile_fits(m.entries@.len() as int, menu_top(screen_height))
        &&& fits_i32(menu_top(screen_height) + MENU_H)
    }
}

/// Left edge of power button `i`: the three buttons are centred in the menu.
pub open spec fn power_btn_x(i: int) -> int {
    MENU_X + (MENU_W - (3 * POWER_BTN_W + 2 * POWER_BTN_GAP)) / 2 + i * (POWER_BTN_W
        + POWER_BTN_GAP)
}

/// Top edge of the power buttons.
pub open spec fn power_btn_y(menu_top: int) -> int {
    menu_top + MENU_H - 42
}

/// The power button under `(mx, my)`, if any.
pub open spec fn power_under(mx: int, my: int, menu_top: int) -> Option<usize> {
    if my < power_btn_y(menu_top) || my > power_btn_y(menu_top) + POWER_BTN_H {
        None
    } else if power_btn_x(0) <= mx < power_btn_x(0) + POWER_BTN_W {
        Some(0)
    } else if power_btn_x(1) <= mx < power_btn_x(1) + POWER_BTN_W {
        Some(1)
    } else if power_btn_x(2) <= mx < power_btn_x(2) + POWER_BTN_W {
        Some(2)
    } else {
        None
    }
}

/// Tiles do not overlap: at most one tile is under any point.
pub proof fn lemma_tiles_disjoint(i: int, j: int, mx: int, my: int, menu_top: int)
    requires
        0 <= i,
        0 <= j,
        tile_hit(i, mx, my, menu_top),
        tile_hit(j, mx, my, menu_top),
    ensures
        i == j,
{
    let (ci, ri, cj, rj) = (i % 4, i / 4, j % 4, j / 4);
    assert(i == 4 * ri + ci && 0 <= ci < 4) by (nonlinear_arith)
        requires
            i >= 0,
            ci == i % 4,
            ri == i / 4,
    ;
    assert(j == 4 * rj + cj && 0 <= cj < 4) by (nonlinear_arith)
        requires
            j >= 0,
            cj == j % 4,
            rj == j / 4,
    ;
    if ci != cj {
        assert(false) by (nonlinear_arith)
            requires
                433 + ci * 106 <= mx < 433 + ci * 106 + 96,
                433 + cj * 106 <= mx < 433 + cj * 106 + 96,
                ci != cj,
        ;
    }
    if ri != rj {
        assert(false) by (nonlinear_arith)
            requires
                menu_top + 90 + ri * 90 <= my < menu_top + 90 + ri * 90 + 80,
                menu_top + 90 + rj * 90 <= my < menu_top + 90 + rj * 90 + 80,
                ri != rj,
        ;
    }
}

fn entry(name: &str, executable: &str, icon_color: [u8; 3], icon_char: char) -> (r: StartMenuEntry)
    ensures
        r.name@ == name@,
        r.executable@ == executable@,
        r.icon_color == icon_color,
        r.icon_char == icon_char,
{
    StartMenuEntry { name: owned(name), executable: owned(executable), icon_color, icon_char }
}

impl StartMenu {
    /// A hidden menu with the eight pinned applications and an empty search.
    pub fn new() -> (r: Self)
        ensures
            !r.visible,
            r.hovered is None,
            r.power_hovered is None,
            r.search_query@ == Seq::<char>::empty(),
            r.entries@.map_values(|e: StartMenuEntry| entry_view(e)) == pinned_entries(),
    {
        let mut entries: Vec<StartMenuEntry> = Vec::new();
        entries.push(entry("File Explorer", "explorer", [245, 180, 35], 'F'));
        entries.push(entry("Terminal", "terminal", [60, 200, 80], '>'));
        entries.push(entry("Browser", "browser", [60, 150, 255], 'B'));
        entries.push(entry("TRiDOCS", "tridocs", [70, 130, 220], 'D'));
        entries.push(entry("TRiSHEETS", "trisheets", [50, 180, 100], 'S'));
        entries.push(entry("TRiSLIDES", "trislides", [220, 100, 60], 'P'));
        entries.push(entry("TRiDRAW", "tridraw", [180, 80, 220], 'A'));
        entries.push(entry("Settings", "settings", [130, 135, 170], '\u{2699}'));
        proof {
            let v = entries@.map_values(|e: StartMenuEntry| entry_view(e));
            assert(v.len() == 8);
            assert(v[0] =~= pinned_entries()[0]);
            assert(v[1] =~= pinned_entries()[1]);
            assert(v[2] =~= pinned_entries()[2]);
            assert(v[3] =~= pinned_entries()[3]);
            assert(v[4] =~= pinned_entries()[4]);
            assert(v[5] =~= pinned_entries()[5]);
            assert(v[6] =~= pinned_entries()[6]);
            assert(v[7] =~= pinned_entries()[7]);
            assert(v =~= pinned_entries());
        }
        StartMenu {
            visible: false,
            hovered: None,
            power_hovered: None,
            search_query: String::new(),
            entries,
        }
    }

    /// Shows or hides the menu; hiding it forgets the hover and the search.
    pub fn toggle(&mut self)
        ensures
            final(self).visible == !old(self).visible,
            final(self).entries == old(self).entries,
            final(self).visible ==> final(self).hovered == old(self).hovered
                && final(self).power_hovered == old(self).power_hovered
                && final(self).search_query == old(self).search_query,
            !final(self).visible ==> final(self).hovered is None && final(self).power_hovered is None
                && final(self).search_query@ == Seq::<char>::empty(),
    {
        self.visible = !self.visible;
        if !self.visible {
            self.hovered = None;
            self.power_hovered = None;
            self.search_query = String::new();
        }
    }

    /// The tile under `(mx, my)` when the menu is shown on a screen
    /// `screen_height` high.
    pub fn tile_at(&self, mx: i32, my: i32, screen_height: usize) -> (r: Option<usize>)
        requires
            self.visible ==> screen_height >= MENU_Y_FROM_BOTTOM,
            self.visible ==> tile_scan_fits(
                self.entries@.len() as int,
                mx as int,
                my as int,
                menu_top(screen_height),
            ),
        ensures
            r == if self.visible {
                tile_under(self.entries@.len() as int, mx as int, my as int, menu_top(screen_height))
            } else {
                None
            },
    {
        if !self.visible {
            return None;
        }
        let top = cast_usize_i32(screen_height - MENU_Y_FROM_BOTTOM);
        let ghost n = self.entries@.len() as int;
        let mut i: usize = 0;
        while i < self.entries.len()
            invariant
                i <= n,
                n == self.entries@.len(),
                top as int == menu_top(screen_height),
                self.visible,
                tile_scan_fits(n, mx as int, my as int, top as int),
                forall|j: int| 0 <= j < i ==> !#[trigger] tile_hit(j, mx as int, my as int, top as int),
            decreases n - i,
        {
            assert(tile_test_fits(i as int, mx as int, my as int, top as int));
            let (tx, ty) = Self::tile_pos(i, top);
            if mx >= tx && mx < tx + TILE_W as i32 && my >= ty && my < ty + TILE_H as i32 {
                proof {
                    assert(tile_hit(i as int, mx as int, my as int, top as int));
                    let c = choose|c: int| 0 <= c < n && #[trigger] tile_hit(c, mx as int, my as int, top as int);
                    lemma_tiles_disjoint(i as int, c, mx as int, my as int, top as int);
                }
                return Some(i);
            }
            i = i + 1;
        }
        None
    }

    /// Top-left corner of tile `i` in a menu whose top is `menu_top`.
    pub fn tile_pos(i: usize, menu_top: i32) -> (r: (i32, i32))
        requires
            tile_pos_fits(i as int, menu_top as int),
        ensures
            r.0 == tile_x(i as int),
            r.1 == tile_y(i as int, menu_top as int),
    {
        let col = i % TILE_COLS;
        let row = i / TILE_COLS;
        proof {
            assert(0 <= row * 90 && row <= 0x7fff_ffff) by (nonlinear_arith)
                requires
                    row * 90 <= 0x7fff_ffff,
                    row >= 0,
            ;
            assert(col * 106 <= 318) by (nonlinear_arith)
                requires
                    col < 4,
            ;
        }
        let x = MENU_X as i32 + TILE_PAD_X as i32 + col as i32 * (TILE_W as i32 + TILE_GAP as i32);
        let y = menu_top + TILE_PAD_Y as i32 + row as i32 * (TILE_H as i32 + TILE_GAP as i32);
        (x, y)
    }

    /// The power button under `(mx, my)` when the menu is shown on a screen
    /// `screen_height` high.
    pub fn power_btn_at(&self, mx: i32, my: i32, screen_height: usize) -> (r: Option<usize>)
        requires
            self.visible ==> screen_height >= MENU_Y_FROM_BOTTOM,
            self.visible ==> fits_i32(menu_top(screen_height) + MENU_H),
        ensures
            r == if self.visible {
                power_under(mx as int, my as int, menu_top(screen_height))
            } else {
                None
            },
    {
        if !self.visible {
            return None;
        }
        let top = cast_usize_i32(screen_height - MENU_Y_FROM_BOTTOM);
        let btn_y = top + MENU_H as i32 - 42;
        if my < btn_y || my > btn_y + POWER_BTN_H {
            return None;
        }
        let total = 3 * POWER_BTN_W + 2 * POWER_BTN_GAP;
        let start_x = MENU_X as i32 + (MENU_W as i32 - total) / 2;
        let mut i: usize = 0;
        while i < 3
            invariant
                i <= 3,
                self.visible,
                start_x == power_btn_x(0),
                my >= power_btn_y(menu_top(screen_height)),
                my <= power_btn_y(menu_top(screen_height)) + POWER_BTN_H,
                forall|j: int| 0 <= j < i ==> !(#[trigger] power_btn_x(j) <= mx < power_btn_x(j) + POWER_BTN_W),
            decreases 3 - i,
        {
            let bx = start_x + i as i32 * (POWER_BTN_W + POWER_BTN_GAP);
            assert(bx == power_btn_x(i as int));
            if mx >= bx && mx < bx + POWER_BTN_W {
                proof {
                    if i == 1 {
                        assert(!(power_btn_x(0) <= mx < power_btn_x(0) + POWER_BTN_W));
                    }
                    if i == 2 {
                        assert(!(power_btn_x(0) <= mx < power_btn_x(0) + POWER_BTN_W));
                        assert(!(power_btn_x(1) <= mx < power_btn_x(1) + POWER_BTN_W));
                    }
                }
                return Some(i);
            }
            i = i + 1;
        }
        None
    }
}

} // verus!
