//! The right-click menu on the desktop or on a window's title bar.
use vstd::prelude::*;
use crate::geometry::{cast_usize_i32, fits_i32, usize_as_i32};
use crate::text::owned;

verus! {

/// What a context menu was opened on.
#[derive(Clone, Copy, PartialEq, Eq, Structural)]
pub enum ContextTarget {
    Desktop,
    Window(u32),
}

/// One line of a context menu: an action, or a divider.
#[derive(Clone)]
pub struct ContextMenuItem {
    pub label: String,
    /// The action identifier handled by the display server.
    pub action: String,
    /// A divider line rather than an action.
    pub separator: bool,
}

/// A context menu.
pub struct ContextMenu {
    pub visible: bool,
    pub x: i32,
    pub y: i32,
    pub target: ContextTarget,
    pub items: Vec<ContextMenuItem>,
    pub hovered: Option<usize>,
}

/// Height of an action line.
pub const MENU_ITEM_H: usize = 26;
/// Width of the menu.
pub const MENU_ITEM_W: usize = 200;
/// Padding above and below the lines.
pub const MENU_PAD_Y: usize = 6;

/// Height of a divider line.
pub const SEPARATOR_H: usize = 9;

/// Height of one line.
pub open spec fn item_h(it: ContextMenuItem) -> int {
    if it.separator { SEPARATOR_H as int } else { MENU_ITEM_H as int }
}

/// Total height of the first `k` lines.
pub open spec fn lines_height(items: Seq<ContextMenuItem>, k: int) -> int
    decreases k,
{
    if k <= 0 { 0 } else { lines_height(items, k - 1) + item_h(items[k - 1]) }
}

/// Total height of the menu: its lines and the padding.
pub open spec fn menu_height(items: Seq<ContextMenuItem>) -> int {
    2 * MENU_PAD_Y + lines_height(items, items.len() as int)
}

/// A line as plain values: label, action, divider flag.
pub open spec fn item_view(it: ContextMenuItem) -> (Seq<char>, Seq<char>, bool) {
    (it.label@, it.action@, it.separator)
}

/// The desktop menu's lines.
pub open spec fn desktop_items() -> Seq<(Seq<char>, Seq<char>, bool)> {
    seq![
        ("Open Terminal"@, "open_terminal"@, false),
        ("Open File Explorer"@, "open_explorer"@, false),
        (Seq::empty(), Seq::empty(), true),
        ("New Folder"@, "new_folder"@, false),
        (Seq::empty(), Seq::empty(), true),
        ("Wallpaper Settings"@, "wallpaper"@, false),
        ("About Trimangees OS"@, "about"@, false),
    ]
}

/// A window menu's lines.
pub open spec fn window_items() -> Seq<(Seq<char>, Seq<char>, bool)> {
    seq![
        ("Restore"@, "restore"@, false),
        ("Minimize"@, "minimize"@, false),
        ("Maximize"@, "maximize"@, false),
        (Seq::empty(), Seq::empty(), true),
        ("Close"@, "close"@, false),
    ]
}

/// Where a menu of height `mh` opened at `(mx, my)` on a `sw` x `sh` screen
/// is placed: moved left (up) to stay on screen when it would run past the
/// right (bottom) edge.
pub open spec fn placed(mx: int, my: int, mh: int, sw: usize, sh: usize) -> (int, int) {
    let mw = MENU_ITEM_W as int;
    let sw_i = usize_as_i32(sw);
    let sh_i = usize_as_i32(sh);
    (
        if mx + mw > sw_i { sw_i - mw - 4 } else { mx },
        if my + mh > sh_i { sh_i - mh - 4 } else { my },
    )
}

/// Placing a menu stays within `i32`.
pub open spec fn place_fits(mx: int, my: int, mh: int, sw: usize, sh: usize) -> bool {
    &&& fits_i32(mx + MENU_ITEM_W as int)
    &&& fits_i32(my + mh)
    &&& fits_i32(usize_as_i32(sw) - MENU_ITEM_W as int - 4)
    &&& fits_i32(usize_as_i32(sh) - mh - 4)
}

fn item(label: &str, action: &str, separator: bool) -> (r: ContextMenuItem)
    ensures
        item_view(r) == (label@, action@, separator),
{
    ContextMenuItem { label: owned(label), action: owned(action), separator }
}

/// Index of the action line under height `my`, for a menu whose first line
/// starts at `top`: the first line that is not a divider and spans `my`.
pub open spec fn line_at(items: Seq<ContextMenuItem>, top: int, my: int) -> Option<usize> {
    if exists|i: int| 0 <= i < items.len() && line_hit(items, top, my, i) {
        Some((choose|i: int| 0 <= i < items.len() && line_hit(items, top, my, i)) as usize)
    } else {
        None
    }
}

/// The action line of menu `m` under `(mx, my)`: none while the menu is
/// closed or the pointer is beside it.
pub open spec fn item_under(m: ContextMenu, mx: int, my: int) -> Option<usize> {
    if !m.visible || mx < m.x || mx > m.x + MENU_ITEM_W as int {
        None
    } else {
        line_at(m.items@, m.y + MENU_PAD_Y as int, my)
    }
}

/// Looking for the line under `(mx, my)` stays within `i32` where the
/// search reaches: the menu's right edge once the pointer is right of its
/// left edge; then, over the menu, the top of the lines and the bottom of
/// each line up to the one under the pointer.
pub open spec fn item_scan_fits(m: ContextMenu, mx: int, my: int) -> bool {
    let top = m.y + MENU_PAD_Y as int;
    m.visible ==> {
        &&& mx >= m.x ==> fits_i32(m.x + MENU_ITEM_W as int)
        &&& m.x <= mx <= m.x + MENU_ITEM_W as int ==> {
            &&& fits_i32(top)
            &&& forall|i: int|
                0 <= i < m.items@.len() && (forall|j: int| 0 <= j < i ==> !line_hit(m.items@, top, my, j))
                    ==> fits_i32(top + #[trigger] lines_height(m.items@, i + 1))
        }
    }
}

/// Whether line `i` is an action line spanning height `my`.
pub open spec fn line_hit(items: Seq<ContextMenuItem>, top: int, my: int, i: int) -> bool {
    &&& !items[i].separator
    &&& top + lines_height(items, i) <= my < top + lines_height(items, i) + MENU_ITEM_H
}

/// Lines are stacked: line heights are positive, so the lines' spans are in
/// order and do not overlap.
pub proof fn lemma_lines_height_grows(items: Seq<ContextMenuItem>, i: int, j: int)
    requires
        0 <= i <= j <= items.len(),
    ensures
        lines_height(items, i) + (if i < j { item_h(items[i]) } else { 0 }) <= lines_height(items, j),
    decreases j - i,
{
    if i < j {
        lemma_lines_height_grows(items, i, j - 1);
        if i < j - 1 {
        }
    }
}

impl ContextMenu {
    /// A closed, empty menu on the desktop at the origin.
    pub fn new() -> (r: Self)
        ensures
            !r.visible,
            r.x == 0 && r.y == 0,
            r.target == ContextTarget::Desktop,
            r.items@.len() == 0,
            r.hovered is None,
    {
        ContextMenu {
            visible: false,
            x: 0,
            y: 0,
            target: ContextTarget::Desktop,
            items: Vec::new(),
            hovered: None,
        }
    }

    /// Opens the desktop menu at `(mx, my)`, kept on a `screen_w` x
    /// `screen_h` screen.
    pub fn open_desktop(&mut self, mx: i32, my: i32, screen_w: usize, screen_h: usize)
        requires
            place_fits(mx as int, my as int, 160, screen_w, screen_h),
        ensures
            final(self).items@.map_values(|it: ContextMenuItem| item_view(it)) == desktop_items(),
            menu_height(final(self).items@) == 160,
            final(self).target == ContextTarget::Desktop,
            final(self).visible,
            final(self).hovered is None,
            (final(self).x as int, final(self).y as int) == placed(
                mx as int,
                my as int,
                160,
                screen_w,
                screen_h,
            ),
    {
        let mut items: Vec<ContextMenuItem> = Vec::new();
        items.push(item("Open Terminal", "open_terminal", false));
        items.push(item("Open File Explorer", "open_explorer", false));
        items.push(item("", "", true));
        items.push(item("New Folder", "new_folder", false));
        items.push(item("", "", true));
        items.push(item("Wallpaper Settings", "wallpaper", false));
        items.push(item("About Trimangees OS", "about", false));
        proof {
            reveal_strlit("");
            assert(items@.len() == 7);
            assert(item_view(items@[0]) == desktop_items()[0]);
            assert(item_view(items@[1]) == desktop_items()[1]);
            assert(item_view(items@[2]) == desktop_items()[2]);
            assert(item_view(items@[3]) == desktop_items()[3]);
            assert(item_view(items@[4]) == desktop_items()[4]);
            assert(item_view(items@[5]) == desktop_items()[5]);
            assert(item_view(items@[6]) == desktop_items()[6]);
            assert(items@.map_values(|it: ContextMenuItem| item_view(it)) =~= desktop_items());
            reveal_with_fuel(lines_height, 8);
        }
        self.items = items;
        self.target = ContextTarget::Desktop;
        self.visible = true;
        self.hovered = None;
        self.place(mx, my, screen_w, screen_h);
    }

    /// Opens the menu of window `win_id` at `(mx, my)`, kept on a
    /// `screen_w` x `screen_h` screen.
    pub fn open_window(&mut self, mx: i32, my: i32, win_id: u32, screen_w: usize, screen_h: usize)
        requires
            place_fits(mx as int, my as int, 125, screen_w, screen_h),
        ensures
            final(self).items@.map_values(|it: ContextMenuItem| item_view(it)) == window_items(),
            menu_height(final(self).items@) == 125,
            final(self).target == ContextTarget::Window(win_id),
            final(self).visible,
            final(self).hovered is None,
            (final(self).x as int, final(self).y as int) == placed(
                mx as int,
                my as int,
                125,
                screen_w,
                screen_h,
            ),
    {
        let mut items: Vec<ContextMenuItem> = Vec::new();
        items.push(item("Restore", "restore", false));
        items.push(item("Minimize", "minimize", false));
        items.push(item("Maximize", "maximize", false));
        items.push(item("", "", true));
        items.push(item("Close", "close", false));
        proof {
            reveal_strlit("");
            assert(items@.len() == 5);
            assert(item_view(items@[0]) == window_items()[0]);
            assert(item_view(items@[1]) == window_items()[1]);
            assert(item_view(items@[2]) == window_items()[2]);
            assert(item_view(items@[3]) == window_items()[3]);
            assert(item_view(items@[4]) == window_items()[4]);
            assert(items@.map_values(|it: ContextMenuItem| item_view(it)) =~= window_items());
            reveal_with_fuel(lines_height, 6);
        }
        self.items = items;
        self.target = ContextTarget::Window(win_id);
        self.visible = true;
        self.hovered = None;
        self.place(mx, my, screen_w, screen_h);
    }

    /// Closes the menu.
    pub fn close(&mut self)
        ensures
            !final(self).visible,
            final(self).hovered is None,
            final(self).x == old(self).x,
            final(self).y == old(self).y,
            final(self).target == old(self).target,
            final(self).items == old(self).items,
    {
        self.visible = false;
        self.hovered = None;
    }

    /// Total height of the menu in pixels.
    pub fn height(&self) -> (h: usize)
        requires
            menu_height(self.items@) <= usize::MAX,
        ensures
            h == menu_height(self.items@),
    {
        let mut h: usize = MENU_PAD_Y * 2;
        let mut k: usize = 0;
        while k < self.items.len()
            invariant
                k <= self.items@.len(),
                h == 2 * MENU_PAD_Y + lines_height(self.items@, k as int),
                menu_height(self.items@) <= usize::MAX,
            decreases self.items@.len() - k,
        {
            proof {
                lemma_lines_height_grows(self.items@, k + 1, self.items@.len() as int);
            }
            h = h + if self.items[k].separator { SEPARATOR_H } else { MENU_ITEM_H };
            k = k + 1;
        }
        h
    }

    /// Moves the menu so that it stays on a `sw` x `sh` screen.
    fn place(&mut self, mx: i32, my: i32, sw: usize, sh: usize)
        requires
            menu_height(old(self).items@) <= 1000,
            place_fits(mx as int, my as int, menu_height(old(self).items@), sw, sh),
        ensures
            (final(self).x as int, final(self).y as int) == placed(
                mx as int,
                my as int,
                menu_height(old(self).items@),
                sw,
                sh,
            ),
            final(self).items == old(self).items,
            final(self).visible == old(self).visible,
            final(self).target == old(self).target,
            final(self).hovered == old(self).hovered,
    {
        let mw: i32 = MENU_ITEM_W as i32;
        let mh: i32 = self.height() as i32;
        let swi = cast_usize_i32(sw);
        let shi = cast_usize_i32(sh);
        self.x = if mx + mw > swi { swi - mw - 4 } else { mx };
        self.y = if my + mh > shi { shi - mh - 4 } else { my };
    }

    /// The index of the action line under `(mx, my)`, if the menu is open.
    pub fn item_at(&self, mx: i32, my: i32) -> (r: Option<usize>)
        requires
            item_scan_fits(*self, mx as int, my as int),
        ensures
            r == if !self.visible || mx < self.x || mx > self.x + MENU_ITEM_W as int {
                None
            } else {
                line_at(self.items@, self.y + MENU_PAD_Y as int, my as int)
            },
    {
        if !self.visible {
            return None;
        }
        if mx < self.x || mx > self.x + MENU_ITEM_W as i32 {
            return None;
        }
        let ghost top = self.y + MENU_PAD_Y as int;
        let mut cy: i32 = self.y + MENU_PAD_Y as i32;
        let mut i: usize = 0;
        while i < self.items.len()
            invariant
                i <= self.items@.len(),
                cy == top + lines_height(self.items@, i as int),
                top == self.y + MENU_PAD_Y as int,
                self.visible,
                self.x <= mx <= self.x + MENU_ITEM_W as int,
                item_scan_fits(*self, mx as int, my as int),
                forall|j: int| 0 <= j < i ==> !line_hit(self.items@, top, my as int, j),
            decreases self.items@.len() - i,
        {
            proof {
                assert(fits_i32(top + lines_height(self.items@, i + 1)));
            }
            let sep = self.items[i].separator;
            let h: i32 = if sep { 9 } else { MENU_ITEM_H as i32 };
            if !sep && my >= cy && my < cy + h {
                proof {
                    assert(line_hit(self.items@, top, my as int, i as int));
                    let c = choose|j: int| 0 <= j < self.items@.len() && line_hit(self.items@, top, my as int, j);
                    lemma_line_hit_unique(self.items@, top, my as int, i as int, c);
                }
                return Some(i);
            }
            cy = cy + h;
            i = i + 1;
        }
        None
    }

    /// The y coordinate of the top of line `idx` (or of the end of the
    /// lines, when `idx` is past the last one).
    pub fn item_y(&self, idx: usize) -> (r: i32)
        requires
            fits_i32(self.y + menu_height(self.items@)),
        ensures
            r == self.y + MENU_PAD_Y as int + lines_height(
                self.items@,
                if idx < self.items@.len() { idx as int } else { self.items@.len() as int },
            ),
    {
        proof {
            lemma_lines_height_grows(self.items@, 0, self.items@.len() as int);
        }
        let mut cy: i32 = self.y + MENU_PAD_Y as i32;
        let mut i: usize = 0;
        while i < self.items.len()
            invariant
                i <= self.items@.len(),
                i <= idx,
                cy == self.y + MENU_PAD_Y as int + lines_height(self.items@, i as int),
                fits_i32(self.y + menu_height(self.items@)),
            decreases self.items@.len() - i,
        {
            if i == idx {
                return cy;
            }
            proof {
                lemma_lines_height_grows(self.items@, i + 1, self.items@.len() as int);
                lemma_lines_height_grows(self.items@, 0, i as int);
            }
            cy = cy + if self.items[i].separator { 9 } else { MENU_ITEM_H as i32 };
            i = i + 1;
        }
        cy
    }
}

/// At most one line spans a given height.
pub proof fn lemma_line_hit_unique(items: Seq<ContextMenuItem>, top: int, my: int, i: int, j: int)
    requires
        0 <= i < items.len(),
        0 <= j < items.len(),
        line_hit(items, top, my, i),
        line_hit(items, top, my, j),
    ensures
        i == j,
{
    if i < j {
        lemma_lines_height_grows(items, i, j);
    } else if j < i {
        lemma_lines_height_grows(items, j, i);
    }
}

} // verus!
