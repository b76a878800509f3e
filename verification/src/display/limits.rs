//! Checks a caller runs before handing an event to the display server: each
//! handler's arithmetic stays in range only on the states its `requires`
//! admits, and these functions test exactly that (for a left press, a
//! condition that implies it) on a concrete state.
use vstd::prelude::*;
use crate::display::context_menu::{
    ContextMenu, lines_height, item_h, place_fits, item_scan_fits, line_hit,
};
use crate::display::display_server::{
    App, Key, key_fits, move_fits, terminal_focused, is_terminal, windows_fit, wheel_fits, press_fits, press_window_fits,
    title_bar_window, title_clicked, title_hit, icons_fit, icon_fits, body_fits, body_target, rest_fits,
    explorer_click_fits, ctx_press_fits,
};
use crate::display::notification::{no_hit_before, toast_y};
use crate::display::window_clicks::{explorer_hit_fits, settings_hit_fits};
use crate::desktop_state::DesktopState;
use crate::display::start_menu::{
    StartMenu, hover_fits, menu_top, tile_fits, tile_scan_fits, tile_test_fits, tile_hit,
};
use crate::display::terminal_input::{completion_fits, completion_fits_now, older_fits, term_view, lines_view};
use crate::explorer_state::DirItem;
use crate::geometry::{cast_u32_i32, fits_i32, u32_as_i32, usize_as_i32, max_int};
use crate::window_manager::{
    Window, ResizeEdge, edges_fit, grab_fits, resize_fits, right_of, bottom_of, shrunk, moves_left, moves_right,
    moves_top, moves_bottom, first_with_id, raised, unfocused, update_first, toggled_maximize, last_where,
    on_window, on_title_bar, lemma_last_where, lemma_first_with_id, WindowManager, edge_test_fits,
    scan_fits_from_top, window_edge_at,
};

verus! {

/// The test [`App::rest_fits_now`] makes: at most nine toasts, at most
/// `i32::MAX` windows, a window id left to give, and a start menu that is
/// hidden or whose hover test stays in bounds.
pub open spec fn rest_test(d: DesktopState) -> bool {
    &&& d.notifications.toasts@.len() <= 9
    &&& d.window_manager.windows@.len() <= 2147483647
    &&& d.window_manager.next_id < u32::MAX
    &&& (!d.start_menu.visible || hover_fits(d.start_menu, 720))
}

/// The test [`App::press_fits_at`] makes. With the context menu open: its
/// search for the line pressed stays in bounds, and a window id is left if
/// that line opens a window. Otherwise every
/// window's edges fit in `i32`, and then, when a title bar is under the
/// pointer, every window and the pointer lie within [`COORD_LIMIT`];
/// when none is, the icons, the window bodies and [`rest_test`] pass.
pub open spec fn press_test(d: DesktopState) -> bool {
    let ws = d.window_manager.windows@;
    let cx = d.cursor.x as int;
    let cy = d.cursor.y as int;
    if d.context_menu.visible {
        ctx_press_fits(d)
    } else if !windows_fit(ws) {
        false
    } else if last_where(ws, |w: Window| on_title_bar(w, cx, cy)) != -1 {
        &&& all_bounded(ws)
        &&& -COORD_LIMIT <= cx <= COORD_LIMIT
        &&& -COORD_LIMIT <= cy <= COORD_LIMIT
    } else {
        icons_fit(d) && body_fits(d) && rest_test(d)
    }
}


/// Whether `v` fits in an `i32`.
fn fits(v: i64) -> (r: bool)
    ensures
        r == fits_i32(v as int),
{
    v >= -2147483648i64 && v <= 2147483647i64
}

/// `edges_fit`, computed.
fn edges_fit_now(w: &Window) -> (r: bool)
    ensures
        r == edges_fit(*w),
{
    let right = w.x as i64 + cast_u32_i32(w.width) as i64;
    let bottom = w.y as i64 + cast_u32_i32(w.height) as i64;
    fits(right) && fits(bottom) && fits(w.y as i64 + 32)
}

/// `windows_fit`, computed.
pub fn windows_fit_now(ws: &Vec<Window>) -> (r: bool)
    ensures
        r == windows_fit(ws@),
{
    let mut k: usize = 0;
    while k < ws.len()
        invariant
            k <= ws@.len(),
            forall|j: int| 0 <= j < k ==> edges_fit(#[trigger] ws@[j]),
        decreases ws@.len() - k,
    {
        if !edges_fit_now(&ws[k]) {
            return false;
        }
        k = k + 1;
    }
    true
}

/// `edge_test_fits`, computed.
fn edge_test_fits_now(w: &Window, mx: i32, my: i32) -> (r: bool)
    ensures
        r == edge_test_fits(*w, mx as int, my as int),
{
    let x0 = w.x as i64;
    let y0 = w.y as i64;
    let x1 = x0 + cast_u32_i32(w.width) as i64;
    let y1 = y0 + cast_u32_i32(w.height) as i64;
    let (px, py) = (mx as i64, my as i64);
    let past_left = px >= x0 - 8;
    let across = past_left && px <= x1 + 8;
    let below_top = across && py >= y0 - 8;
    let inside = below_top && py <= y1 + 8;
    fits(x1) && fits(y1) && fits(x0 - 8) && (!past_left || fits(x1 + 8)) && (!across || fits(y0 - 8))
        && (!below_top || fits(y1 + 8)) && (!inside || (fits(x0 + 8) && fits(x1 - 8) && fits(y0 + 8) && fits(
        y1 - 8,
    )))
}

/// Whether the search from the top of `ws` for a window edge under
/// `(mx, my)` stays within `i32`, computed.
fn edge_scan_fits_now(ws: &Vec<Window>, mx: i32, my: i32) -> (r: bool)
    ensures
        r == scan_fits_from_top(
            ws@,
            |w: Window| window_edge_at(w, mx as int, my as int) is Some,
            |w: Window| edge_test_fits(w, mx as int, my as int),
        ),
{
    let ghost p = |w: Window| window_edge_at(w, mx as int, my as int) is Some;
    let ghost f = |w: Window| edge_test_fits(w, mx as int, my as int);
    let mut k = ws.len();
    while k > 0
        invariant
            k <= ws@.len(),
            p == (|w: Window| window_edge_at(w, mx as int, my as int) is Some),
            f == (|w: Window| edge_test_fits(w, mx as int, my as int)),
            forall|j: int| k <= j < ws@.len() ==> !p(#[trigger] ws@[j]) && f(ws@[j]),
        decreases k,
    {
        if !edge_test_fits_now(&ws[k - 1], mx, my) {
            proof {
                assert(forall|j: int| k - 1 < j < ws@.len() ==> !p(#[trigger] ws@[j]));
                assert(!f(ws@[k - 1]));
            }
            return false;
        }
        if WindowManager::resize_edge_at(&ws[k - 1], mx, my).is_some() {
            proof {
                assert(p(ws@[k - 1]));
                assert forall|j: int|
                    0 <= j < ws@.len() && (forall|i: int| j < i < ws@.len() ==> !p(#[trigger] ws@[i]))
                        implies f(#[trigger] ws@[j]) by {
                    if j < k - 1 {
                        assert(!p(ws@[k - 1]));
                    }
                }
            }
            return true;
        }
        k = k - 1;
    }
    true
}

/// Whether the start menu's search for a tile under `(mx, my)` on the
/// 720-pixel-high screen stays within `i32`, computed.
fn tile_scan_fits_now(m: &StartMenu, mx: i32, my: i32) -> (r: bool)
    ensures
        r == (m.visible ==> tile_scan_fits(m.entries@.len() as int, mx as int, my as int, menu_top(720))),
{
    if !m.visible {
        return true;
    }
    assert(menu_top(720) == 258) by {
        assert(usize_as_i32(258) == 258);
    }
    let ghost n = m.entries@.len() as int;
    let mut i: usize = 0;
    while i < m.entries.len()
        invariant
            i <= n,
            n == m.entries@.len(),
            m.visible,
            menu_top(720) == 258,
            forall|j: int| 0 <= j < i ==> !#[trigger] tile_hit(j, mx as int, my as int, 258),
            forall|j: int| 0 <= j < i ==> #[trigger] tile_test_fits(j, mx as int, my as int, 258),
        decreases n - i,
    {
        let row = i / 4;
        if row > 23860925 {
            proof {
                assert(row * 90 > 2147483299) by (nonlinear_arith)
                    requires
                        row > 23860925,
                ;
                assert(!tile_test_fits(i as int, mx as int, my as int, 258));
                assert(forall|j: int| 0 <= j < i ==> !#[trigger] tile_hit(j, mx as int, my as int, 258));
            }
            return false;
        }
        proof {
            assert(row * 90 <= 2147483250) by (nonlinear_arith)
                requires
                    row <= 23860925,
            ;
            assert(0 <= row * 90) by (nonlinear_arith)
                requires
                    row >= 0,
            ;
        }
        let (tx, ty) = StartMenu::tile_pos(i, 258);
        if mx >= tx && mx < tx + 96 && my >= ty {
            if ty > i32::MAX - 80 {
                proof {
                    assert(!tile_test_fits(i as int, mx as int, my as int, 258));
                    assert(forall|j: int| 0 <= j < i ==> !#[trigger] tile_hit(j, mx as int, my as int, 258));
                }
                return false;
            }
            if my < ty + 80 {
                proof {
                    assert(tile_hit(i as int, mx as int, my as int, 258));
                    assert forall|j: int|
                        0 <= j < n && (forall|k: int| 0 <= k < j ==> !#[trigger] tile_hit(k, mx as int, my as int, 258))
                            implies #[trigger] tile_test_fits(j, mx as int, my as int, 258) by {
                        if j > i {
                            assert(!tile_hit(i as int, mx as int, my as int, 258));
                        }
                    }
                }
                return true;
            }
        }
        assert(tile_test_fits(i as int, mx as int, my as int, 258));
        assert(!tile_hit(i as int, mx as int, my as int, 258));
        i = i + 1;
    }
    true
}

/// Whether the context menu's search for a line under `(mx, my)` stays
/// within `i32`, computed.
fn item_scan_fits_now(m: &ContextMenu, mx: i32, my: i32) -> (r: bool)
    ensures
        r == item_scan_fits(*m, mx as int, my as int),
{
    if !m.visible {
        return true;
    }
    let x = m.x as i64;
    let (px, py) = (mx as i64, my as i64);
    if px >= x && !fits(x + 200) {
        return false;
    }
    if !(x <= px && px <= x + 200) {
        return true;
    }
    let top = m.y as i64 + 6;
    if !fits(top) {
        return false;
    }
    let ghost topi = top as int;
    let mut acc: i64 = 0;
    let mut k: usize = 0;
    while k < m.items.len()
        invariant
            k <= m.items@.len(),
            m.visible,
            x <= px <= x + 200,
            x == m.x,
            px == mx,
            py == my,
            top == m.y + 6,
            topi == top,
            fits_i32(m.x + 200),
            fits_i32(top as int),
            acc == lines_height(m.items@, k as int),
            0 <= acc,
            k > 0 ==> fits_i32(top + acc),
            forall|j: int| 0 <= j < k ==> !#[trigger] line_hit(m.items@, topi, my as int, j),
            forall|j: int| 0 <= j < k ==> fits_i32(topi + #[trigger] lines_height(m.items@, j + 1)),
        decreases m.items@.len() - k,
    {
        let h: i64 = if m.items[k].separator {
            9
        } else {
            26
        };
        assert(h == item_h(m.items@[k as int]));
        assert(lines_height(m.items@, k as int + 1) == acc + h);
        if !fits(top + acc + h) {
            proof {
                assert(forall|j: int| 0 <= j < k ==> !line_hit(m.items@, topi, my as int, j));
                assert(!fits_i32(topi + lines_height(m.items@, k as int + 1)));
            }
            return false;
        }
        if !m.items[k].separator && py >= top + acc && py < top + acc + 26 {
            proof {
                assert(line_hit(m.items@, topi, my as int, k as int));
                assert forall|j: int|
                    0 <= j < m.items@.len() && (forall|i: int| 0 <= i < j ==> !line_hit(m.items@, topi, my as int, i))
                        implies fits_i32(topi + #[trigger] lines_height(m.items@, j + 1)) by {
                    if j > k {
                        assert(!line_hit(m.items@, topi, my as int, k as int));
                    }
                }
            }
            return true;
        }
        acc = acc + h;
        k = k + 1;
    }
    true
}

/// `hover_fits` on the 720-pixel-high screen, computed.
fn hover_fits_now(m: &StartMenu) -> (r: bool)
    ensures
        r == hover_fits(*m, 720),
{
    if !m.visible {
        return true;
    }
    assert(menu_top(720) == 258) by {
        assert(usize_as_i32(258) == 258);
    }
    let rows: u128 = (m.entries.len() / 4) as u128;
    let ghost n = m.entries@.len() as int;
    assert(rows as int == n / 4);
    rows * 90 <= 2147483647 && 258 + 90 + rows * 90 + 80 <= 2147483647
}

/// `resize_fits`, computed.
#[verifier::rlimit(30)]
fn resize_fits_now(
    w: &Window,
    edge: ResizeEdge,
    smx: i32,
    smy: i32,
    sw: u32,
    sh: u32,
    swx: i32,
    swy: i32,
    mx: i32,
    my: i32,
) -> (r: bool)
    ensures
        r == resize_fits(*w, edge, smx, smy, sw, sh, swx, swy, mx, my),
{
    let dx = mx as i64 - smx as i64;
    let dy = my as i64 - smy as i64;
    let swi = cast_u32_i32(sw) as i64;
    let shi = cast_u32_i32(sh) as i64;
    let minw = cast_u32_i32(w.min_width) as i64;
    let minh = cast_u32_i32(w.min_height) as i64;
    let sw_shrunk = if swi - dx >= minw {
        swi - dx
    } else {
        minw
    };
    let sh_shrunk = if shi - dy >= minh {
        shi - dy
    } else {
        minh
    };
    assert(sw_shrunk == shrunk(sw, dx as int, w.min_width));
    assert(sh_shrunk == shrunk(sh, dy as int, w.min_height));
    let left = match edge {
        ResizeEdge::Left | ResizeEdge::BottomLeft | ResizeEdge::TopLeft => true,
        _ => false,
    };
    let right = match edge {
        ResizeEdge::Right | ResizeEdge::BottomRight | ResizeEdge::TopRight => true,
        _ => false,
    };
    let top = match edge {
        ResizeEdge::Top | ResizeEdge::TopLeft | ResizeEdge::TopRight => true,
        _ => false,
    };
    let bottom = match edge {
        ResizeEdge::Bottom | ResizeEdge::BottomLeft | ResizeEdge::BottomRight => true,
        _ => false,
    };
    assert(left == moves_left(edge) && right == moves_right(edge) && top == moves_top(edge) && bottom
        == moves_bottom(edge));
    fits(dx) && fits(dy) && (!right || fits(swi + dx)) && (!left || (fits(swi - dx) && fits(swi - sw_shrunk)
        && fits(swx as i64 + (swi - sw_shrunk)))) && (!bottom || fits(shi + dy)) && (!top || (fits(shi - dy)
        && fits(shi - sh_shrunk) && fits(swy as i64 + (shi - sh_shrunk))))
}

impl App {
    /// Whether a right press may be handled now: see [`App::right_press`].
    pub fn right_press_fits(&self) -> (r: bool)
        ensures
            r == (windows_fit(self.desktop.window_manager.windows@) && place_fits(
                self.desktop.cursor.x as int,
                self.desktop.cursor.y as int,
                160,
                1280,
                720,
            ) && place_fits(self.desktop.cursor.x as int, self.desktop.cursor.y as int, 125, 1280, 720)),
    {
        assert(usize_as_i32(1280) == 1280 && usize_as_i32(720) == 720);
        let cx = self.desktop.cursor.x as i64;
        let cy = self.desktop.cursor.y as i64;
        windows_fit_now(&self.desktop.window_manager.windows) && fits(cx + 200) && fits(cy + 160) && fits(cy
            + 125)
    }

    /// Whether the pointer may move to `(mx, my)` now: see
    /// [`App::cursor_moved`].
    pub fn move_fits_at(&self, mx: i32, my: i32) -> (r: bool)
        ensures
            r == move_fits(*self, mx, my),
    {
        let d = &self.desktop;
        let ws = &d.window_manager.windows;
        if d.resizing_window.is_some() && d.resize_edge.is_some() {
            let wid = d.resizing_window.unwrap();
            let edge = d.resize_edge.unwrap();
            match d.window_manager.position_of(wid) {
                Some(i) => resize_fits_now(
                    &ws[i],
                    edge,
                    d.resize_start_mx,
                    d.resize_start_my,
                    d.resize_start_w,
                    d.resize_start_h,
                    d.resize_start_wx,
                    d.resize_start_wy,
                    mx,
                    my,
                ),
                None => true,
            }
        } else if d.dragging_window.is_some() {
            fits(mx as i64 - d.drag_offset_x as i64) && fits(my as i64 - d.drag_offset_y as i64)
        } else {
            let ddx = mx as i64 - self.last_cursor_x as i64;
            let ddy = my as i64 - self.last_cursor_y as i64;
            edge_scan_fits_now(ws, mx, my) && tile_scan_fits_now(&d.start_menu, mx, my) && item_scan_fits_now(
                &d.context_menu,
                mx,
                my,
            ) && fits(ddx) && ddx != -2147483648i64 && (ddx != 0 || (fits(ddy) && ddy != -2147483648i64))
        }
    }

    /// Whether key `key` may be handled now: see [`App::key_pressed`].
    pub fn key_fits_for(&self, key: &Key) -> (r: bool)
        ensures
            r == key_fits(*self, *key),
    {
        let ws = &self.desktop.window_manager.windows;
        let tab_ok = match key {
            Key::Tab => !(self.alt_pressed && !self.shift_pressed && self.desktop.alt_tab_visible)
                || self.desktop.alt_tab_index < usize::MAX,
            _ => true,
        };
        if ws.len() == 0 {
            return tab_ok;
        }
        let w = &ws[ws.len() - 1];
        proof {
            reveal_strlit("terminal");
        }
        let focused = crate::text::str_eq(w.app.as_str(), "terminal") && !w.minimized;
        assert(focused == terminal_focused(ws@));
        let ghost t = term_view(ws@.last());
        assert(t.history.len() == w.history@.len());
        let up_ok = match key {
            Key::ArrowUp => !focused || w.history.len() == 0 || match w.history_index {
                Some(j) => (if j >= 1 {
                    j - 1
                } else {
                    0
                }) < w.history.len(),
                None => true,
            },
            _ => true,
        };
        let down_ok = match key {
            Key::ArrowDown => !focused || match w.history_index {
                Some(i) => i < usize::MAX,
                None => true,
            },
            _ => true,
        };
        up_ok && down_ok && tab_ok
    }

    /// Whether the wheel may turn by `lines_delta` now: see [`App::wheel`].
    pub fn wheel_fits_for(&self, lines_delta: i32) -> (r: bool)
        ensures
            r == (lines_delta != i32::MIN && windows_fit(self.desktop.window_manager.windows@) && forall|k: int|
                0 <= k < self.desktop.window_manager.windows@.len() ==> wheel_fits(
                    #[trigger] self.desktop.window_manager.windows@[k],
                    lines_delta,
                )),
    {
        if lines_delta == i32::MIN {
            return false;
        }
        let ws = &self.desktop.window_manager.windows;
        if !windows_fit_now(ws) {
            return false;
        }
        if lines_delta <= 0 {
            return true;
        }
        let delta = lines_delta as usize;
        let mut k: usize = 0;
        while k < ws.len()
            invariant
                k <= ws@.len(),
                ws@ == self.desktop.window_manager.windows@,
                windows_fit(ws@),
                lines_delta > 0,
                delta == lines_delta,
                forall|j: int| 0 <= j < k ==> wheel_fits(#[trigger] ws@[j], lines_delta),
            decreases ws@.len() - k,
        {
            let w = &ws[k];
            if w.scroll_offset > usize::MAX - delta {
                assert(!wheel_fits(ws@[k as int], lines_delta));
                return false;
            }
            match &w.explorer {
                Some(e) => {
                    if e.scroll_offset > usize::MAX - delta {
                        assert(!wheel_fits(ws@[k as int], lines_delta));
                        return false;
                    }
                },
                None => {},
            }
            k = k + 1;
        }
        true
    }

    /// Whether the completion listing for window `id` may be handed back:
    /// see [`App::completion_ready`].
    pub fn completion_fits_for(&self, id: u32, items: &Vec<DirItem>) -> (r: bool)
        ensures
            ({
                let ws = self.desktop.window_manager.windows@;
                let i = crate::display::display_server::last_with_id(ws, id);
                r == (i != -1 ==> completion_fits(term_view(ws[i]), items@))
            }),
    {
        match crate::display::display_server::last_index_with_id(&self.desktop.window_manager, id) {
            Some(i) => completion_fits_now(&self.desktop.window_manager.windows[i], items),
            None => true,
        }
    }
}


/// Largest coordinate or size of a window for which a press on a title bar
/// is known to stay in range.
pub const COORD_LIMIT: i32 = 16777216;

/// A window whose position, size and saved position and size are within
/// [`COORD_LIMIT`].
pub open spec fn window_bounded(w: Window) -> bool {
    &&& -COORD_LIMIT <= w.x <= COORD_LIMIT
    &&& -COORD_LIMIT <= w.y <= COORD_LIMIT
    &&& -COORD_LIMIT <= w.old_x <= COORD_LIMIT
    &&& -COORD_LIMIT <= w.old_y <= COORD_LIMIT
    &&& w.width <= COORD_LIMIT
    &&& w.height <= COORD_LIMIT
    &&& w.old_width <= COORD_LIMIT
    &&& w.old_height <= COORD_LIMIT
}

/// Every window is within [`COORD_LIMIT`].
pub open spec fn all_bounded(ws: Seq<Window>) -> bool {
    forall|k: int| 0 <= k < ws.len() ==> window_bounded(#[trigger] ws[k])
}

/// Raising a window keeps every window within the limit.
proof fn lemma_raised_bounded(ws: Seq<Window>, id: u32)
    requires
        all_bounded(ws),
    ensures
        all_bounded(raised(ws, id)),
{
    let u = unfocused(ws);
    assert forall|k: int| 0 <= k < u.len() implies window_bounded(#[trigger] u[k]) by {
        assert(u[k] == Window { active: false, ..ws[k] });
    }
    let i = first_with_id(ws, id);
    if i != -1 {
        lemma_first_with_id(ws, id);
        let r = u.remove(i).push(Window { active: true, ..u[i] });
        assert(r == raised(ws, id));
        assert forall|k: int| 0 <= k < r.len() implies window_bounded(#[trigger] r[k]) by {
            if k < r.len() - 1 {
                if k < i {
                    assert(r[k] == u[k]);
                } else {
                    assert(r[k] == u[k + 1]);
                }
            }
        }
    }
}

/// A title-bar click keeps every window within the limit.
proof fn lemma_title_clicked_bounded(d: DesktopState, id: u32, now: u64, bar: bool)
    requires
        all_bounded(d.window_manager.windows@),
    ensures
        all_bounded(title_clicked(d, id, now, bar)),
{
    let ws = d.window_manager.windows@;
    let i = first_with_id(ws, id);
    if i != -1 {
        lemma_first_with_id(ws, id);
        let t = toggled_maximize(ws[i]);
        assert(window_bounded(t));
        let ws1 = ws.update(i, t);
        assert(update_first(ws, id, |w: Window| toggled_maximize(w)) == ws1);
        assert forall|k: int| 0 <= k < ws1.len() implies window_bounded(#[trigger] ws1[k]) by {
            if k != i {
                assert(ws1[k] == ws[k]);
            }
        }
    }
}

/// A press on the title bar of window `id` stays in range when every
/// window and the pointer are within the limit.
#[verifier::rlimit(50)]
proof fn lemma_title_press_fits(d: DesktopState, id: u32, now: u64)
    requires
        all_bounded(d.window_manager.windows@),
        -COORD_LIMIT <= d.cursor.x <= COORD_LIMIT,
        -COORD_LIMIT <= d.cursor.y <= COORD_LIMIT,
        first_with_id(d.window_manager.windows@, id) != -1,
    ensures
        press_window_fits(d, id, now),
{
    let ws = d.window_manager.windows@;
    lemma_first_with_id(ws, id);
    let i = first_with_id(ws, id);
    assert(window_bounded(ws[i]));
    let w = ws[i];
    let (cx, cy) = (d.cursor.x as int, d.cursor.y as int);
    let bar = title_hit(w, cx, cy) is Bar;
    let ws1 = title_clicked(d, id, now, bar);
    lemma_title_clicked_bounded(d, id, now, bar);
    lemma_last_where(ws1, |x: Window| x.id == id);
    let j = last_where(ws1, |x: Window| x.id == id);
    if j != -1 {
        assert(window_bounded(ws1[j]));
        assert(grab_fits(ws1[j]));
    }
    let r = raised(ws1, id);
    lemma_raised_bounded(ws1, id);
    lemma_first_with_id(r, id);
    let k = first_with_id(r, id);
    if k != -1 {
        assert(window_bounded(r[k]));
        assert(fits_i32(cx - r[k].x) && fits_i32(cy - r[k].y));
    }
    assert(fits_i32(right_of(w) - 68));
    assert(edges_fit(w));
}

/// Whether a window is within the limit, computed.
fn window_bounded_now(w: &Window) -> (r: bool)
    ensures
        r == window_bounded(*w),
{
    let b = COORD_LIMIT;
    -b <= w.x && w.x <= b && -b <= w.y && w.y <= b && -b <= w.old_x && w.old_x <= b && -b <= w.old_y && w.old_y
        <= b && w.width <= 16777216 && w.height <= 16777216 && w.old_width <= 16777216 && w.old_height
        <= 16777216
}

/// Whether every window is within the limit, computed.
fn all_bounded_now(ws: &Vec<Window>) -> (r: bool)
    ensures
        r == all_bounded(ws@),
{
    let mut k: usize = 0;
    while k < ws.len()
        invariant
            k <= ws@.len(),
            forall|j: int| 0 <= j < k ==> window_bounded(#[trigger] ws@[j]),
        decreases ws@.len() - k,
    {
        if !window_bounded_now(&ws[k]) {
            return false;
        }
        k = k + 1;
    }
    true
}

/// `explorer_hit_fits`, computed.
fn explorer_hit_fits_now(x0: usize, y0: usize, cx: usize, cy: usize, scroll: usize) -> (r: bool)
    ensures
        r == explorer_hit_fits(x0 as int, y0 as int, cx as int, cy as int, scroll as int),
{
    let max = usize::MAX as u128;
    let (x, y, c, d) = (x0 as u128, y0 as u128, cx as u128, cy as u128);
    if x + 221 > max || y + 82 > max {
        return false;
    }
    let rows_ok = !(c >= x + 141 && d >= y + 82) || (d - (y + 82)) / 22 + scroll as u128 <= max;
    let side_ok = !(x <= c && c < x + 140 && d < y + 82) || d >= y + 33;
    rows_ok && side_ok
}

/// `settings_hit_fits`, computed.
fn settings_hit_fits_now(x0: usize, y0: usize, cx: usize, cy: usize) -> (r: bool)
    ensures
        r == settings_hit_fits(x0 as int, y0 as int, cx as int, cy as int),
{
    let max = usize::MAX as u128;
    let (x, y, c, d) = (x0 as u128, y0 as u128, cx as u128, cy as u128);
    x + 340 <= max && y + 207 <= max && (!(x <= c && c < x + 160) || d >= y + 45)
}

impl App {
    /// `icons_fit`, computed.
    fn icons_fit_now(&self) -> (r: bool)
        ensures
            r == icons_fit(self.desktop),
    {
        let icons = &self.desktop.desktop_icons;
        let cx = self.desktop.cursor.x as i64;
        let cy = self.desktop.cursor.y as i64;
        let mut k: usize = 0;
        while k < icons.len()
            invariant
                k <= icons@.len(),
                icons@ == self.desktop.desktop_icons@,
                cx == self.desktop.cursor.x,
                cy == self.desktop.cursor.y,
                forall|j: int| 0 <= j < k ==> icon_fits(#[trigger] icons@[j], cx as int, cy as int),
            decreases icons@.len() - k,
        {
            let x = icons[k].x as i64;
            let y = icons[k].y as i64;
            let ok = (!(cx >= x) || x + 48 <= 2147483647) && (!(cx >= x && cx <= x + 48 && cy >= y) || y + 48
                <= 2147483647);
            if !ok {
                assert(!icon_fits(icons@[k as int], cx as int, cy as int));
                return false;
            }
            k = k + 1;
        }
        true
    }

    /// `body_fits`, computed.
    fn body_fits_now(&self) -> (r: bool)
        requires
            windows_fit(self.desktop.window_manager.windows@),
        ensures
            r == body_fits(self.desktop),
    {
        let d = &self.desktop;
        let ws = &d.window_manager.windows;
        let cx = d.cursor.x;
        let cy = d.cursor.y;
        proof {
            lemma_last_where(ws@, |w: Window| on_window(w, cx as int, cy as int));
        }
        let id = match d.window_manager.window_body_at(cx, cy) {
            Some(id) => id,
            None => {
                return true;
            },
        };
        let ghost i = body_target(ws@, cx as int, cy as int);
        proof {
            lemma_first_with_id(ws@, id);
        }
        let f = match d.window_manager.position_of(id) {
            Some(f) => f,
            None => {
                assert(ws@[i].id == id);
                return true;
            },
        };
        let w = &ws[f];
        let ghost u = unfocused(ws@);
        proof {
            assert(raised(ws@, id) == u.remove(f as int).push(Window { active: true, ..u[f as int] }));
            assert(u[f as int] == Window { active: false, ..ws@[f as int] });
        }
        let x0 = w.x as usize;
        let y0 = w.y as usize;
        let cxu = cx as usize;
        let cyu = cy as usize;
        proof {
            reveal_strlit("explorer");
            reveal_strlit("settings");
        }
        let e_ok = if crate::text::str_eq(w.app.as_str(), "explorer") {
            match &w.explorer {
                Some(e) => explorer_hit_fits_now(x0, y0, cxu, cyu, e.scroll_offset) && (e.history_idx == 0
                    || e.history_idx - 1 < e.history.len()) && e.history_idx < usize::MAX,
                None => true,
            }
        } else {
            true
        };
        let s_ok = if crate::text::str_eq(w.app.as_str(), "settings") && w.settings.is_some() {
            settings_hit_fits_now(x0, y0, cxu, cyu)
        } else {
            true
        };
        e_ok && s_ok
    }

    /// A condition that implies `rest_fits`: at most nine toasts, and the
    /// rest exactly; see [`rest_test`].
    fn rest_fits_now(&self) -> (r: bool)
        ensures
            r == rest_test(self.desktop),
            r ==> rest_fits(self.desktop),
    {
        let d = &self.desktop;
        let ok = d.notifications.toasts.len() <= 9 && d.window_manager.windows.len() <= 2147483647
            && d.window_manager.next_id < u32::MAX && (!d.start_menu.visible || hover_fits_now(&d.start_menu));
        proof {
            if ok {
                assert forall|i: int|
                    0 <= i < d.notifications.toasts@.len() && #[trigger] no_hit_before(
                        i,
                        d.cursor.x as int,
                        d.cursor.y as int,
                        1280,
                        720,
                    ) implies toast_y(i, 720) >= 0 by {}
            }
        }
        ok
    }

    /// Whether a left press may be handled now. For a press on a context
    /// menu or away from the title bars the test is exact (but for at most
    /// nine toasts); for a press on a title bar it asks every window and
    /// the pointer to be within [`COORD_LIMIT`], which implies what
    /// [`App::left_press`] requires.
    pub fn press_fits_at(&self, now: u64) -> (r: bool)
        ensures
            r == press_test(self.desktop),
            r ==> press_fits(self.desktop, now),
    {
        let d = &self.desktop;
        if d.context_menu.visible {
            let m = &d.context_menu;
            let (cx, cy) = (d.cursor.x, d.cursor.y);
            if !item_scan_fits_now(m, cx, cy) {
                return false;
            }
            return match m.item_at(cx, cy) {
                Some(i) => {
                    let a = m.items[i].action.as_str();
                    let opens = crate::text::str_eq(a, "open_terminal") || crate::text::str_eq(a, "open_explorer")
                        || crate::text::str_eq(a, "new_folder");
                    !opens || d.window_manager.next_id < u32::MAX
                },
                None => true,
            };
        }
        let ws = &d.window_manager.windows;
        if !windows_fit_now(ws) {
            return false;
        }
        let cx = d.cursor.x;
        let cy = d.cursor.y;
        proof {
            lemma_last_where(ws@, |w: Window| on_title_bar(w, cx as int, cy as int));
        }
        match d.window_manager.window_at(cx, cy) {
            Some(id) => {
                let b = COORD_LIMIT;
                if !all_bounded_now(ws) || cx < -b || cx > b || cy < -b || cy > b {
                    return false;
                }
                proof {
                    let i = last_where(ws@, |w: Window| on_title_bar(w, cx as int, cy as int));
                    lemma_first_with_id(ws@, id);
                    assert(ws@[i].id == id);
                    lemma_title_press_fits(*d, id, now);
                }
                true
            },
            None => self.icons_fit_now() && self.body_fits_now() && self.rest_fits_now(),
        }
    }
}

} // verus!
