//! The display server's decisions: how each input event changes the desktop,
//! and which outside work (starting programs, web views, running commands)
//! it asks of the event loop that feeds it.
use vstd::prelude::*;
use crate::application_manager::{LaunchPlan, plan_for, plan_view};
use crate::desktop_state::DesktopState;
use crate::display::context_menu::{ContextMenu, place_fits, placed, desktop_items, window_items, item_view, menu_height, ContextTarget};
use crate::display::notification::live_toasts;
use crate::display::window_clicks::{ExplorerHit, SettingsHit};
use crate::explorer_state::{
    can_go_back, can_go_forward, navigated, place_of, went_back, went_forward, ExplorerState, HostEnv,
    SettingsState,
};
use crate::geometry::fits_i32;
use crate::window_manager::{
    edges_fit, first_with_id, lemma_first_with_id, lemma_last_where, last_where, on_title_bar,
    raised, snapped, update_first, Window, WindowManager, right_of, bottom_of,
};

verus! {

/// Starts the display server; the event loop itself runs outside the
/// library.
pub struct DisplayServer;

/// Width and height of the desktop, in pixels.
pub const SCREEN_W: usize = 1280;
pub const SCREEN_H: usize = 720;

/// The display server's state between events.
pub struct App {
    pub desktop: DesktopState,
    pub alt_pressed: bool,
    pub shift_pressed: bool,
    pub needs_redraw: bool,
    /// Where the pointer was at the last redraw it caused.
    pub last_cursor_x: i32,
    pub last_cursor_y: i32,
    /// Counts idle turns of the event loop, for the terminal cursor blink.
    pub blink_counter: u32,
    pub ctrl_pressed: bool,
}

/// Outside work an event asks of the event loop.
pub enum Action {
    /// Quit.
    Exit,
    /// Carry out a launch plan that needs a program started.
    Launch(LaunchPlan),
    /// Carry out a launch from the start menu (if any program is to be
    /// started), then show a web view over the top window if its app is a
    /// web app.
    MenuLaunch(Option<LaunchPlan>),
    /// Drop the web view of a window.
    RemoveWebview(u32),
    /// Show or hide the web view of a window.
    SetWebviewVisible(u32, bool),
    /// Move a window's web view to the window's new place and size.
    SyncWebviewBounds(u32, i32, i32, u32, u32),
    /// The wallpaper changed: drop the cached wallpaper pixels.
    ClearWallpaperCache,
    /// List the folder the file browser of the window with this id now
    /// shows, then hand the listing back.
    ListFolder(u32),
    /// Open a file with the desktop's default program.
    OpenFile(String),
    /// Suspend (0), reboot (1) or power off (2).
    Power(usize),
    /// Run a command line in the shell for the terminal window with this
    /// id, then hand its output back.
    RunCommand(u32, String),
    /// List the folder for completing the terminal's input (window id,
    /// folder, name prefix), then hand the entries back.
    Complete(u32, String, String),
}

/// A key pressed, as the display server tells keys apart.
pub enum Key {
    Backspace,
    Enter,
    ArrowUp,
    ArrowDown,
    Escape,
    Tab,
    /// The Super (Windows) key.
    Super,
    F4,
    /// A key that types text.
    Character(String),
    Other,
}

/// The keys a focused terminal consumes.
pub open spec fn terminal_key(k: Key) -> bool {
    !(k is Super || k is F4 || k is Other)
}

/// The top window is a shown terminal.
pub open spec fn terminal_focused(ws: Seq<Window>) -> bool {
    ws.len() > 0 && is_terminal(ws.last()) && !ws.last().minimized
}

/// `new` is `old` with the top window's line editor now `t`, the rest of
/// that window kept.
pub open spec fn top_edited(old: Seq<Window>, new: Seq<Window>, t: crate::display::terminal_input::TermView) -> bool {
    &&& new.len() == old.len()
    &&& new.drop_last() == old.drop_last()
    &&& crate::display::terminal_input::term_view(new.last()) == t
    &&& crate::display::terminal_input::editor_only(old.last(), new.last())
}

/// Key `k` types one of the letters of `lower`/`upper` while Ctrl is held.
pub open spec fn ctrl_letter(k: Key, ctrl: bool, lower: Seq<char>, upper: Seq<char>) -> bool {
    ctrl && (k matches Key::Character(s) && (s@ == lower || s@ == upper))
}

/// What handling an event gives back: whether to redraw, and the outside
/// work to do, in order.
pub struct Reply {
    pub redraw: bool,
    pub actions: Vec<Action>,
}

/// A reply with no outside work.
pub open spec fn only_redraw(r: Reply, redraw: bool) -> bool {
    r.redraw == redraw && r.actions@.len() == 0
}

/// A list of one action.
fn one(a: Action) -> (r: Vec<Action>)
    ensures
        r@ == seq![a],
{
    let mut r = Vec::new();
    r.push(a);
    assert(r@ =~= seq![a]);
    r
}

/// The action, if any, as a list.
fn some_or_none(a: Option<Action>) -> (r: Vec<Action>)
    ensures
        r@ == match a {
            Some(x) => seq![x],
            None => Seq::<Action>::empty(),
        },
{
    match a {
        Some(x) => one(x),
        None => {
            let r: Vec<Action> = Vec::new();
            assert(r@ =~= Seq::<Action>::empty());
            r
        },
    }
}

fn reply(redraw: bool) -> (r: Reply)
    ensures
        only_redraw(r, redraw),
{
    Reply { redraw, actions: Vec::new() }
}

/// The windows after a drag ends: the dragged window snaps to the previewed
/// zone, if any, and stops being dragged.
pub open spec fn released_windows(
    ws: Seq<Window>,
    dragging: Option<u32>,
    snap: Option<crate::window_manager::SnapZone>,
) -> Seq<Window> {
    let ws1 = match (dragging, snap) {
        (Some(id), Some(z)) => update_first(ws, id, |w: Window| snapped(w, z)),
        _ => ws,
    };
    match dragging {
        Some(id) => update_first(ws1, id, |w: Window| Window { dragging: false, ..w }),
        None => ws1,
    }
}

/// All windows' edges can be computed in `i32`.
pub open spec fn windows_fit(ws: Seq<Window>) -> bool {
    forall|k: int| 0 <= k < ws.len() ==> edges_fit(#[trigger] ws[k])
}

/// The id of the topmost window whose title bar is under `(mx, my)`.
pub open spec fn title_bar_window(ws: Seq<Window>, mx: int, my: int) -> Option<u32> {
    let i = last_where(ws, |w: Window| on_title_bar(w, mx, my));
    if i == -1 { None } else { Some(ws[i].id) }
}

/// The ids of the windows that are not minimised, bottom first.
pub open spec fn shown_ids(ws: Seq<Window>) -> Seq<u32> {
    ws.filter(|w: Window| !w.minimized).map_values(|w: Window| w.id)
}

/// A terminal window.
pub open spec fn is_terminal(w: Window) -> bool {
    w.app@ == "terminal"@
}

/// The windows after the terminal cursors blink.
pub open spec fn blinked(ws: Seq<Window>) -> Seq<Window> {
    Seq::new(
        ws.len(),
        |k: int|
            if is_terminal(ws[k]) {
                Window { cursor_blink: !ws[k].cursor_blink, ..ws[k] }
            } else {
                ws[k]
            },
    )
}

/// Some focused, shown terminal window.
pub open spec fn has_active_terminal(ws: Seq<Window>) -> bool {
    exists|k: int| 0 <= k < ws.len() && is_terminal(ws[k]) && #[trigger] ws[k].active && !ws[k].minimized
}

/// `a - b`, or zero when `b` is larger.
pub open spec fn sat_sub(a: int, b: int) -> int {
    if a >= b { a - b } else { 0 }
}

/// A scroll position after turning the wheel by `delta` lines (positive
/// scrolls back), kept within `0..=max`.
pub open spec fn scrolled(offset: usize, delta: i32, max: int) -> usize {
    if delta > 0 {
        if offset + delta <= max { (offset + delta) as usize } else { max as usize }
    } else {
        sat_sub(offset as int, -delta) as usize
    }
}

/// A window after the wheel turned over it: a terminal scrolls its output
/// (keeping three lines), a file browser its entries (keeping five).
pub open spec fn wheel_window(w: Window, delta: i32) -> Window {
    if is_terminal(w) {
        Window { scroll_offset: scrolled(w.scroll_offset, delta, sat_sub(w.output_lines@.len() as int, 3)), ..w }
    } else if w.app@ == "explorer"@ {
        match w.explorer {
            Some(e) => Window {
                explorer: Some(
                    crate::explorer_state::ExplorerState {
                        scroll_offset: scrolled(e.scroll_offset, delta, sat_sub(e.entries@.len() as int, 5)),
                        ..e
                    },
                ),
                ..w
            },
            None => w,
        }
    } else {
        w
    }
}

/// Turning the wheel by `delta` over a terminal moves its scroll position
/// by `delta` lines, back for a positive `delta` but never past three lines
/// from the start of its output (`n - 3` for `n` output lines, 0 when there
/// are at most three), forward for a negative one but never below 0; over a
/// file browser the same with five entries kept. Nothing else about the
/// window changes. In particular, scrolling back by `delta` with room for
/// it grows the position by exactly `delta`.
pub proof fn lemma_wheel_moves_by_delta(w: Window, delta: i32)
    ensures
        ({
            let r = wheel_window(w, delta);
            let t_max = if w.output_lines@.len() >= 3 { w.output_lines@.len() - 3 } else { 0 };
            &&& is_terminal(w) ==> {
                &&& delta > 0 ==> r.scroll_offset == (if w.scroll_offset + delta <= t_max {
                    w.scroll_offset + delta
                } else {
                    t_max
                })
                &&& delta <= 0 ==> r.scroll_offset == (if w.scroll_offset + delta >= 0 {
                    w.scroll_offset + delta
                } else {
                    0
                })
                &&& (Window { scroll_offset: w.scroll_offset, ..r }) == w
            }
            &&& !is_terminal(w) && w.app@ == "explorer"@ && w.explorer is Some ==> {
                let e = w.explorer->0;
                let e_max = if e.entries@.len() >= 5 { e.entries@.len() - 5 } else { 0 };
                &&& r.explorer is Some
                &&& delta > 0 ==> r.explorer->0.scroll_offset == (if e.scroll_offset + delta <= e_max {
                    e.scroll_offset + delta
                } else {
                    e_max
                })
                &&& delta <= 0 ==> r.explorer->0.scroll_offset == (if e.scroll_offset + delta >= 0 {
                    e.scroll_offset + delta
                } else {
                    0
                })
                &&& (crate::explorer_state::ExplorerState { scroll_offset: e.scroll_offset, ..r.explorer->0 }) == e
                &&& (Window { explorer: w.explorer, ..r }) == w
            }
            &&& !is_terminal(w) && w.app@ != "explorer"@ ==> r == w
        }),
{
    assert(w.output_lines@.len() == w.output_lines.len());
    if let Some(e) = w.explorer {
        assert(e.entries@.len() == e.entries.len());
    }
}

/// The wheel may be turned over this window without overflow.
pub open spec fn wheel_fits(w: Window, delta: i32) -> bool {
    &&& delta > 0 ==> w.scroll_offset + delta <= usize::MAX
    &&& delta > 0 ==> (w.explorer matches Some(e) ==> e.scroll_offset + delta <= usize::MAX)
}

/// The topmost shown window anywhere under `(mx, my)`.
pub open spec fn wheel_target(ws: Seq<Window>, mx: int, my: int) -> int {
    last_where(ws, |w: Window| !w.minimized && crate::window_manager::on_window(w, mx, my))
}

/// The window being resized after the pointer moved to `(mx, my)`.
pub open spec fn resized_by(d: DesktopState, w: Window, mx: i32, my: i32) -> Window {
    crate::window_manager::resized(
        w,
        d.resize_edge->0,
        d.resize_start_mx,
        d.resize_start_my,
        d.resize_start_w,
        d.resize_start_h,
        d.resize_start_wx,
        d.resize_start_wy,
        mx,
        my,
    )
}

/// Handling a pointer move to `(mx, my)` stays within `i32`.
pub open spec fn move_fits(a: App, mx: i32, my: i32) -> bool {
    let d = a.desktop;
    let ws = d.window_manager.windows@;
    if d.resizing_window is Some && d.resize_edge is Some {
        let i = first_with_id(ws, d.resizing_window->0);
        i != -1 ==> crate::window_manager::resize_fits(
            ws[i],
            d.resize_edge->0,
            d.resize_start_mx,
            d.resize_start_my,
            d.resize_start_w,
            d.resize_start_h,
            d.resize_start_wx,
            d.resize_start_wy,
            mx,
            my,
        )
    } else if d.dragging_window is Some {
        fits_i32(mx - d.drag_offset_x) && fits_i32(my - d.drag_offset_y)
    } else {
        &&& crate::window_manager::scan_fits_from_top(
            ws,
            |w: Window| crate::window_manager::window_edge_at(w, mx as int, my as int) is Some,
            |w: Window| crate::window_manager::edge_test_fits(w, mx as int, my as int),
        )
        &&& d.start_menu.visible ==> crate::display::start_menu::tile_scan_fits(
            d.start_menu.entries@.len() as int,
            mx as int,
            my as int,
            crate::display::start_menu::menu_top(720),
        )
        &&& crate::display::context_menu::item_scan_fits(d.context_menu, mx as int, my as int)
        &&& fits_i32(mx - a.last_cursor_x) && mx - a.last_cursor_x != i32::MIN
        &&& mx == a.last_cursor_x ==> fits_i32(my - a.last_cursor_y) && my - a.last_cursor_y != i32::MIN
    }
}

/// `i32::abs`.
fn abs_i32(v: i32) -> (r: i32)
    requires
        v != i32::MIN,
    ensures
        r == if v < 0 { -v } else { v as int },
{
    if v < 0 { -v } else { v }
}

/// `==` on optional indices.
fn opt_usize_eq(a: Option<usize>, b: Option<usize>) -> (r: bool)
    ensures
        r == (a == b),
{
    match (a, b) {
        (Some(x), Some(y)) => x == y,
        (None, None) => true,
        _ => false,
    }
}

/// Whether a plan of kind `k` (see [`plan_for`]) opens its window when
/// what it starts does not start: the browser, the documents page and the
/// web pages do.
pub open spec fn falls_back(k: int) -> bool {
    k == 1 || k == 2 || k == 3
}

/// The state `b` and reply `r` once the event loop reports whether what plan
/// `p` starts did start: where it did not and the plan falls back, the
/// plan's window is opened as [`WindowManager::create_window`] opens it and
/// the screen redrawn; otherwise nothing changes.
pub open spec fn launch_settled(
    a: DesktopState,
    b: DesktopState,
    p: (int, Seq<char>, (Seq<char>, Seq<char>, u32, u32)),
    started: bool,
    env: &HostEnv,
    r: Reply,
) -> bool {
    if falls_back(p.0) && !started {
        &&& b.window_manager.next_id == a.window_manager.next_id + 1
        &&& b.window_manager.windows@.len() == a.window_manager.windows@.len() + 1
        &&& b.window_manager.windows@.drop_last() == a.window_manager.windows@
        &&& crate::window_manager::new_window_ok(
            b.window_manager.windows@.last(),
            a.window_manager.next_id,
            p.2.0,
            p.2.1,
            p.2.2,
            p.2.3,
            (a.window_manager.windows@.len() % 8) as int * 28,
            env,
        )
        &&& (DesktopState { window_manager: a.window_manager, ..b }) == a
        &&& only_redraw(r, true)
    } else {
        b == a && only_redraw(r, false)
    }
}

/// Launching `exe` took `a` to `b` and asked for `acts`: the shell's own
/// apps open their window at once; anything else is left to the event loop.
pub open spec fn launched(a: WindowManager, b: WindowManager, acts: Seq<Action>, exe: Seq<char>, env: &HostEnv) -> bool {
    let p = plan_for(exe);
    if p.0 == 0 {
        &&& b.next_id == a.next_id + 1
        &&& b.windows@.len() == a.windows@.len() + 1
        &&& b.windows@.drop_last() == a.windows@
        &&& crate::window_manager::new_window_ok(
            b.windows@.last(),
            a.next_id,
            p.2.0,
            p.2.1,
            p.2.2,
            p.2.3,
            (a.windows@.len() % 8) as int * 28,
            env,
        )
        &&& acts.len() == 0
    } else {
        &&& b.windows@ == a.windows@
        &&& b.next_id == a.next_id
        &&& acts.len() == 1
        &&& (acts[0] matches Action::Launch(pl) && plan_view(pl) == p)
    }
}

/// Where a click lands on a window's title bar.
pub enum TitleHit {
    Close,
    Maximize,
    Minimize,
    Bar,
    Other,
}

/// Where `(cx, cy)` lands on the title bar of `w`: its close, maximise and
/// minimise buttons (18 pixels wide, from the right edge), the bar, or
/// elsewhere.
pub open spec fn title_hit(w: Window, cx: int, cy: int) -> TitleHit {
    let x1 = right_of(w);
    let in_row = w.y + 6 <= cy <= w.y + 24;
    if x1 - 24 <= cx <= x1 - 6 && in_row {
        TitleHit::Close
    } else if x1 - 46 <= cx <= x1 - 28 && in_row {
        TitleHit::Maximize
    } else if x1 - 68 <= cx <= x1 - 50 && in_row {
        TitleHit::Minimize
    } else if w.y <= cy <= w.y + 30 && w.x <= cx <= x1 {
        TitleHit::Bar
    } else {
        TitleHit::Other
    }
}

/// Milliseconds from `t` to `now`, zero when `now` is earlier.
pub open spec fn since(t: u64, now: u64) -> int {
    if now >= t { now - t } else { 0 }
}

/// A second click on the title bar of `id` within 400 ms of the first.
pub open spec fn title_double(d: DesktopState, id: u32, now: u64) -> bool {
    d.last_title_click_id == Some(id) && (d.last_title_click matches Some(t) && since(t, now) < 400)
}

/// The stack after a click on the title bar of window `id` (not on its
/// buttons): a double click toggles maximise.
pub open spec fn title_clicked(d: DesktopState, id: u32, now: u64, bar: bool) -> Seq<Window> {
    let ws = d.window_manager.windows@;
    if bar && title_double(d, id, now) {
        update_first(ws, id, |w: Window| crate::window_manager::toggled_maximize(w))
    } else {
        ws
    }
}

/// The last window with `id`.
pub open spec fn last_with_id(ws: Seq<Window>, id: u32) -> int {
    last_where(ws, |w: Window| w.id == id)
}

/// Pressing on the title bar of window `id` stays within `i32`.
pub open spec fn press_window_fits(d: DesktopState, id: u32, now: u64) -> bool {
    let ws = d.window_manager.windows@;
    let i = first_with_id(ws, id);
    let w = ws[i];
    let (cx, cy) = (d.cursor.x as int, d.cursor.y as int);
    let bar = title_hit(w, cx, cy) is Bar;
    let ws1 = title_clicked(d, id, now, bar);
    let j = last_with_id(ws1, id);
    let r = raised(ws1, id);
    let k = first_with_id(r, id);
    &&& i != -1
    &&& fits_i32(right_of(w) - 68)
    &&& edges_fit(w)
    &&& !(title_hit(w, cx, cy) is Close || title_hit(w, cx, cy) is Maximize || title_hit(w, cx, cy) is Minimize)
        ==> {
        &&& j != -1 ==> crate::window_manager::grab_fits(ws1[j])
        &&& k != -1 ==> fits_i32(cx - r[k].x) && fits_i32(cy - r[k].y)
    }
}

/// What a press on the title bar of window `id` does, from `d` to `nd`.
pub open spec fn press_window_reply(d: DesktopState, nd: DesktopState, id: u32, now: u64, r: Reply) -> bool {
    let ws = d.window_manager.windows@;
    let nws = nd.window_manager.windows@;
    let (cx, cy) = (d.cursor.x as int, d.cursor.y as int);
    let hit = title_hit(ws[first_with_id(ws, id)], cx, cy);
    &&& nd.window_manager.next_id == d.window_manager.next_id
    &&& match hit {
        TitleHit::Close => {
            &&& r.redraw && r.actions@ == seq![Action::RemoveWebview(id)]
            &&& nws == crate::window_manager::without_id(ws, id)
            &&& (DesktopState { window_manager: d.window_manager, ..nd }) == d
        },
        TitleHit::Maximize => {
            &&& only_redraw(r, true)
            &&& nws == update_first(ws, id, |w: Window| crate::window_manager::toggled_maximize(w))
            &&& (DesktopState { window_manager: d.window_manager, ..nd }) == d
        },
        TitleHit::Minimize => {
            &&& r.redraw && r.actions@ == seq![Action::SetWebviewVisible(id, false)]
            &&& nws == crate::window_manager::minimized_stack(ws, id)
            &&& (DesktopState { window_manager: d.window_manager, ..nd }) == d
        },
        _ => {
            let bar = hit is Bar;
            let dbl = bar && title_double(d, id, now);
            let d1 = DesktopState {
                last_title_click: if !bar { d.last_title_click } else if dbl { None } else { Some(now) },
                last_title_click_id: if !bar { d.last_title_click_id } else if dbl { None } else { Some(id) },
                ..d
            };
            &&& only_redraw(r, false)
            &&& exists|wm1: WindowManager| {
                &&& wm1.windows@ == title_clicked(d, id, now, bar)
                &&& wm1.next_id == d.window_manager.next_id
                &&& grabbed(DesktopState { window_manager: wm1, ..d1 }, nd, id)
            }
        },
    }
}

/// Where `(cx, cy)` lands on the title bar of `w`.
fn title_hit_of(w: &Window, cx: i32, cy: i32) -> (r: TitleHit)
    requires
        edges_fit(*w),
        fits_i32(right_of(*w) - 68),
    ensures
        r == title_hit(*w, cx as int, cy as int),
{
    let x1 = w.x + crate::geometry::cast_u32_i32(w.width);
    let in_row = cy >= w.y + 6 && cy <= w.y + 24;
    if cx >= x1 - 24 && cx <= x1 - 6 && in_row {
        TitleHit::Close
    } else if cx >= x1 - 46 && cx <= x1 - 28 && in_row {
        TitleHit::Maximize
    } else if cx >= x1 - 68 && cx <= x1 - 50 && in_row {
        TitleHit::Minimize
    } else if cy >= w.y && cy <= w.y + 30 && cx >= w.x && cx <= x1 {
        TitleHit::Bar
    } else {
        TitleHit::Other
    }
}

/// Grabbing window `id` stays within `i32`.
pub open spec fn grab_fits_at(d: DesktopState, id: u32) -> bool {
    let ws = d.window_manager.windows@;
    let (cx, cy) = (d.cursor.x as int, d.cursor.y as int);
    let j = last_with_id(ws, id);
    let rs = raised(ws, id);
    let k = first_with_id(rs, id);
    &&& j != -1 ==> crate::window_manager::grab_fits(ws[j])
    &&& k != -1 ==> fits_i32(cx - rs[k].x) && fits_i32(cy - rs[k].y)
}

/// What grabbing window `id` does, from `d` to `nd`: see
/// [`App::grab_window`].
pub open spec fn grabbed(d: DesktopState, nd: DesktopState, id: u32) -> bool {
    let ws = d.window_manager.windows@;
    let nws = nd.window_manager.windows@;
    let (cx, cy) = (d.cursor.x as int, d.cursor.y as int);
    let j = last_with_id(ws, id);
    let edge = if j == -1 { None } else { crate::window_manager::window_edge_at(ws[j], cx, cy) };
    &&& nd.window_manager.next_id == d.window_manager.next_id
    &&& match edge {
        Some(e) => {
            let k = first_with_id(ws, id);
            let w = ws[k];
            &&& nws == raised(ws, id)
            &&& (DesktopState { window_manager: d.window_manager, ..nd }) == if k == -1 {
                d
            } else {
                DesktopState {
                    resizing_window: Some(id),
                    resize_edge: Some(e),
                    resize_start_mx: cx as i32,
                    resize_start_my: cy as i32,
                    resize_start_wx: w.x,
                    resize_start_wy: w.y,
                    resize_start_w: w.width,
                    resize_start_h: w.height,
                    ..d
                }
            }
        },
        None => {
            let rs = raised(ws, id);
            let k = first_with_id(rs, id);
            let w = rs[k];
            &&& nws == update_first(rs, id, |w: Window| Window { dragging: true, ..w })
            &&& (DesktopState { window_manager: d.window_manager, ..nd }) == if k == -1 {
                DesktopState { dragging_window: Some(id), ..d }
            } else {
                DesktopState {
                    drag_offset_x: (cx - w.x) as i32,
                    drag_offset_y: (cy - w.y) as i32,
                    dragging_window: Some(id),
                    ..d
                }
            }
        },
    }
}

/// The first icon under `(cx, cy)`, or -1.
pub open spec fn icon_under(icons: Seq<crate::desktop_icon::DesktopIcon>, cx: int, cy: int) -> int {
    if exists|j: int| 0 <= j < icons.len() && crate::desktop_icon::icon_contains(#[trigger] icons[j].x as int, icons[j].y as int, cx, cy) {
        choose|j: int| 0 <= j < icons.len() && crate::desktop_icon::icon_contains(#[trigger] icons[j].x as int, icons[j].y as int, cx, cy)
            && forall|m: int| 0 <= m < j ==> !crate::desktop_icon::icon_contains(#[trigger] icons[m].x as int, icons[m].y as int, cx, cy)
    } else {
        -1
    }
}

proof fn lemma_icon_under(icons: Seq<crate::desktop_icon::DesktopIcon>, cx: int, cy: int, k: int)
    requires
        0 <= k < icons.len(),
        crate::desktop_icon::icon_contains(icons[k].x as int, icons[k].y as int, cx, cy),
        forall|m: int| 0 <= m < k ==> !crate::desktop_icon::icon_contains(#[trigger] icons[m].x as int, icons[m].y as int, cx, cy),
    ensures
        icon_under(icons, cx, cy) == k,
{
    let c = choose|j: int| 0 <= j < icons.len() && crate::desktop_icon::icon_contains(#[trigger] icons[j].x as int, icons[j].y as int, cx, cy)
        && forall|m: int| 0 <= m < j ==> !crate::desktop_icon::icon_contains(#[trigger] icons[m].x as int, icons[m].y as int, cx, cy);
    assert(crate::desktop_icon::icon_contains(icons[k].x as int, icons[k].y as int, cx, cy));
    if c < k {
        assert(!crate::desktop_icon::icon_contains(icons[c].x as int, icons[c].y as int, cx, cy));
    }
    if c > k {
        assert(!crate::desktop_icon::icon_contains(icons[k].x as int, icons[k].y as int, cx, cy));
    }
}

proof fn lemma_icon_under_none(icons: Seq<crate::desktop_icon::DesktopIcon>, cx: int, cy: int)
    requires
        forall|m: int| 0 <= m < icons.len() ==> !crate::desktop_icon::icon_contains(#[trigger] icons[m].x as int, icons[m].y as int, cx, cy),
    ensures
        icon_under(icons, cx, cy) == -1,
{
}

/// The icons after a click: only icon `k` (none when -1) is selected, and it
/// remembers the click time.
pub open spec fn clicked_icons(icons: Seq<crate::desktop_icon::DesktopIcon>, k: int, now: u64) -> Seq<crate::desktop_icon::DesktopIcon> {
    Seq::new(
        icons.len(),
        |j: int|
            crate::desktop_icon::DesktopIcon {
                selected: j == k,
                last_click: if j == k { Some(now) } else { icons[j].last_click },
                ..icons[j]
            },
    )
}

/// Testing icon `ic` against the pointer at `(cx, cy)` stays within `i32`.
pub open spec fn icon_fits(ic: crate::desktop_icon::DesktopIcon, cx: int, cy: int) -> bool {
    &&& cx >= ic.x ==> ic.x + crate::desktop_icon::ICON_SIZE <= i32::MAX
    &&& cx >= ic.x && cx <= ic.x + crate::desktop_icon::ICON_SIZE && cy >= ic.y ==> ic.y + crate::desktop_icon::ICON_SIZE <= i32::MAX
}

/// Testing the icons against the pointer stays within `i32`.
pub open spec fn icons_fit(d: DesktopState) -> bool {
    forall|j: int| 0 <= j < d.desktop_icons@.len() ==> icon_fits(#[trigger] d.desktop_icons@[j], d.cursor.x as int, d.cursor.y as int)
}

/// The path of sidebar bookmark `b` of the file browser, given the `HOME`
/// variable: home, its desktop, documents and downloads folders, the root,
/// `/etc` and `/usr/bin`.
pub open spec fn bookmark(home_var: Option<String>, b: int) -> Seq<char> {
    let home = match home_var { Some(h) => h@, None => Seq::<char>::empty() };
    if b == 0 {
        match home_var { Some(h) => h@, None => "/home"@ }
    } else if b == 1 {
        home + "/Desktop"@
    } else if b == 2 {
        home + "/Documents"@
    } else if b == 3 {
        home + "/Downloads"@
    } else if b == 4 {
        "/"@
    } else if b == 5 {
        "/etc"@
    } else {
        "/usr/bin"@
    }
}

/// The file browser `n` (asking for `acts`) after a click hitting `hit` in
/// browser `e` of window `id`: the history buttons move through the
/// history, Up opens the parent folder, a click on a row selects it and a
/// click on the selected row opens it (a folder in the browser, a file with
/// the desktop's program), and a bookmark opens its folder. Every move asks
/// for the new folder to be listed.
pub open spec fn explorer_clicked(
    e: crate::explorer_state::ExplorerState,
    n: crate::explorer_state::ExplorerState,
    acts: Seq<Action>,
    id: u32,
    hit: crate::display::window_clicks::ExplorerHit,
    home_var: Option<String>,
) -> bool {
    let pl = place_of(e);
    let moved_to = |p: crate::explorer_state::Place|
        place_of(n) == p && n.scroll_offset == 0 && n.entries == e.entries && n.selected == e.selected
            && acts == seq![Action::ListFolder(id)];
    let stay = n == e && acts.len() == 0;
    match hit {
        ExplorerHit::Back => if can_go_back(pl) { moved_to(went_back(pl)) } else { stay },
        ExplorerHit::Forward => if can_go_forward(pl) { moved_to(went_forward(pl)) } else { stay },
        ExplorerHit::Up => match crate::text::path_parent(e.current_path@) {
            Some(p) => moved_to(navigated(pl, p)),
            None => stay,
        },
        ExplorerHit::Row(r) => if r < e.entries@.len() {
            if e.selected == Some(r) {
                let path = e.current_path@ + "/"@ + e.entries@[r as int].name@;
                if e.entries@[r as int].is_dir {
                    moved_to(navigated(pl, path))
                } else {
                    n == e && acts.len() == 1 && (acts[0] matches Action::OpenFile(f) && f@ == path)
                }
            } else {
                n == (crate::explorer_state::ExplorerState { selected: Some(r), ..e }) && acts.len() == 0
            }
        } else {
            stay
        },
        ExplorerHit::Bookmark(b) => if b < 7 { moved_to(navigated(pl, bookmark(home_var, b as int))) } else { stay },
        ExplorerHit::Nothing => stay,
    }
}

/// The accent colours the settings offer.
pub open spec fn accent_choice(i: int) -> (u8, u8, u8) {
    if i == 0 {
        (72, 138, 240)
    } else if i == 1 {
        (60, 200, 80)
    } else if i == 2 {
        (220, 100, 60)
    } else if i == 3 {
        (180, 80, 220)
    } else if i == 4 {
        (240, 180, 40)
    } else {
        (220, 60, 100)
    }
}

/// The settings `n` (asking for `acts`) after a click hitting `hit` in
/// settings `s`: a sidebar section opens, a wallpaper preset or accent
/// colour is chosen (a new wallpaper drops the cached one), or dark mode
/// flips.
pub open spec fn settings_clicked(
    s: crate::explorer_state::SettingsState,
    n: crate::explorer_state::SettingsState,
    acts: Seq<Action>,
    hit: crate::display::window_clicks::SettingsHit,
) -> bool {
    match hit {
        SettingsHit::Section(sec) => n == (if sec < 3 { SettingsState { active_section: sec, ..s } } else { s })
            && acts.len() == 0,
        SettingsHit::Appearance(p, a) => {
            let new_preset = p matches Some(v) && v < 4;
            let s1 = if new_preset { SettingsState { wallpaper_preset: p->0 as u8, ..s } } else { s };
            let c = accent_choice(a->0 as int);
            let s2 = if a matches Some(v) && v < 6 {
                SettingsState { accent_r: c.0, accent_g: c.1, accent_b: c.2, ..s1 }
            } else {
                s1
            };
            n == s2 && acts == if new_preset { seq![Action::ClearWallpaperCache] } else { Seq::<Action>::empty() }
        },
        SettingsHit::DarkMode => n == (SettingsState { dark_mode: !s.dark_mode, ..s }) && acts.len() == 0,
        SettingsHit::Nothing => n == s && acts.len() == 0,
    }
}

/// A click on the dark-mode toggle flips dark mode and changes nothing
/// else: dark mode ends up the opposite of what it was, every other
/// setting is kept, and nothing is asked of the event loop.
pub proof fn lemma_dark_mode_click_flips(
    s: crate::explorer_state::SettingsState,
    n: crate::explorer_state::SettingsState,
    acts: Seq<Action>,
)
    requires
        settings_clicked(s, n, acts, SettingsHit::DarkMode),
    ensures
        n.dark_mode != s.dark_mode,
        (SettingsState { dark_mode: s.dark_mode, ..n }) == s,
        acts.len() == 0,
{
}

/// Two clicks on the dark-mode toggle give back the settings as they were.
pub proof fn lemma_dark_mode_twice_restores(
    s: crate::explorer_state::SettingsState,
    n1: crate::explorer_state::SettingsState,
    n2: crate::explorer_state::SettingsState,
    a1: Seq<Action>,
    a2: Seq<Action>,
)
    requires
        settings_clicked(s, n1, a1, SettingsHit::DarkMode),
        settings_clicked(n1, n2, a2, SettingsHit::DarkMode),
    ensures
        n2 == s,
{
}

/// The seven sidebar bookmarks open seven different folders, in the order
/// of their labels, unless `HOME` is itself the root, `/etc` or `/usr/bin`:
/// then the home bookmark and that one open the same folder.
pub proof fn lemma_bookmarks_distinct(home_var: Option<String>, i: int, j: int)
    requires
        0 <= i < j < 7,
        home_var matches Some(h) ==> h@ != "/"@ && h@ != "/etc"@ && h@ != "/usr/bin"@,
    ensures
        bookmark(home_var, i) != bookmark(home_var, j),
{
    reveal_strlit("/home");
    reveal_strlit("/Desktop");
    reveal_strlit("/Documents");
    reveal_strlit("/Downloads");
    reveal_strlit("/");
    reveal_strlit("/etc");
    reveal_strlit("/usr/bin");
    let home = match home_var { Some(h) => h@, None => Seq::<char>::empty() };
    let k = home.len() as int;
    let (a, b) = (bookmark(home_var, i), bookmark(home_var, j));
    if a.len() == b.len() {
        if i == 0 && home_var is None {
            assert(a[1] != b[1]);
        } else if i == 2 && j == 3 {
            assert(a[k + 3] != b[k + 3]);
        } else if i == 1 && j == 6 {
            assert(a[1] != b[1]);
        }
    }
}

/// Bookmarks one to three lie directly inside the home folder (`HOME`, or
/// nothing when it is not set): the desktop, documents and downloads
/// folders, in that order, matching the labels drawn beside them; the
/// first is home itself (`/home` when `HOME` is not set), and the last
/// three are the root, `/etc` and `/usr/bin`.
pub proof fn lemma_bookmarks_name_their_folders(home_var: Option<String>)
    ensures
        ({
            let home = match home_var { Some(h) => h@, None => Seq::<char>::empty() };
            let k = home.len() as int;
            &&& bookmark(home_var, 0) == match home_var { Some(h) => h@, None => "/home"@ }
            &&& forall|b: int| 1 <= b <= 3 ==> (#[trigger] bookmark(home_var, b)).take(k) == home
            &&& bookmark(home_var, 1).skip(k) == "/Desktop"@
            &&& bookmark(home_var, 2).skip(k) == "/Documents"@
            &&& bookmark(home_var, 3).skip(k) == "/Downloads"@
            &&& bookmark(home_var, 4) == "/"@
            &&& bookmark(home_var, 5) == "/etc"@
            &&& bookmark(home_var, 6) == "/usr/bin"@
        }),
{
    let home = match home_var { Some(h) => h@, None => Seq::<char>::empty() };
    let k = home.len() as int;
    assert(bookmark(home_var, 1).take(k) =~= home);
    assert(bookmark(home_var, 2).take(k) =~= home);
    assert(bookmark(home_var, 3).take(k) =~= home);
    assert(bookmark(home_var, 1).skip(k) =~= "/Desktop"@);
    assert(bookmark(home_var, 2).skip(k) =~= "/Documents"@);
    assert(bookmark(home_var, 3).skip(k) =~= "/Downloads"@);
}

/// Clicking in the file browser can move through its history.
pub open spec fn explorer_click_fits(e: ExplorerState) -> bool {
    &&& e.history_idx > 0 ==> e.history_idx - 1 < e.history@.len()
    &&& e.history_idx < usize::MAX
}

/// The path of sidebar bookmark `b`.
fn bookmark_path(home_var: &Option<String>, b: usize) -> (r: String)
    requires
        b < 7,
    ensures
        r@ == bookmark(*home_var, b as int),
{
    let home = match home_var {
        Some(h) => h.clone(),
        None => String::new(),
    };
    if b == 0 {
        match home_var {
            Some(h) => h.clone(),
            None => crate::text::owned("/home"),
        }
    } else if b == 4 {
        crate::text::owned("/")
    } else if b == 5 {
        crate::text::owned("/etc")
    } else if b == 6 {
        crate::text::owned("/usr/bin")
    } else {
        let mut r = home;
        if b == 1 {
            crate::text::append(&mut r, "/Desktop");
        } else if b == 2 {
            crate::text::append(&mut r, "/Documents");
        } else {
            crate::text::append(&mut r, "/Downloads");
        }
        r
    }
}

fn no_actions() -> (r: Vec<Action>)
    ensures
        r@ == Seq::<Action>::empty(),
{
    let r: Vec<Action> = Vec::new();
    assert(r@ =~= Seq::<Action>::empty());
    r
}

/// A click hitting `hit` in the file browser of window `id`: see
/// [`explorer_clicked`].
fn explorer_click(e: &mut ExplorerState, id: u32, hit: ExplorerHit, home_var: &Option<String>) -> (acts: Vec<Action>)
    requires
        explorer_click_fits(*old(e)),
    ensures
        explorer_clicked(*old(e), *final(e), acts@, id, hit, *home_var),
{
    match hit {
        ExplorerHit::Back => {
            if e.go_back() { one(Action::ListFolder(id)) } else { no_actions() }
        },
        ExplorerHit::Forward => {
            if e.go_forward() { one(Action::ListFolder(id)) } else { no_actions() }
        },
        ExplorerHit::Up => {
            if e.go_up() { one(Action::ListFolder(id)) } else { no_actions() }
        },
        ExplorerHit::Row(r) => {
            if r < e.entries.len() {
                let same = match e.selected {
                    Some(s) => s == r,
                    None => false,
                };
                if same {
                    let mut path = e.current_path.clone();
                    crate::text::append(&mut path, "/");
                    crate::text::append(&mut path, e.entries[r].name.as_str());
                    if e.entries[r].is_dir {
                        e.navigate(path);
                        one(Action::ListFolder(id))
                    } else {
                        one(Action::OpenFile(path))
                    }
                } else {
                    e.selected = Some(r);
                    no_actions()
                }
            } else {
                no_actions()
            }
        },
        ExplorerHit::Bookmark(b) => {
            if b < 7 {
                let path = bookmark_path(home_var, b);
                e.navigate(path);
                one(Action::ListFolder(id))
            } else {
                no_actions()
            }
        },
        ExplorerHit::Nothing => no_actions(),
    }
}

/// A click hitting `hit` in the settings: see [`settings_clicked`].
fn settings_click(s: &mut SettingsState, hit: SettingsHit) -> (acts: Vec<Action>)
    ensures
        settings_clicked(*old(s), *final(s), acts@, hit),
{
    match hit {
        SettingsHit::Section(sec) => {
            if sec < 3 {
                s.active_section = sec;
            }
            no_actions()
        },
        SettingsHit::Appearance(p, a) => {
            let mut acts = no_actions();
            match p {
                Some(v) => {
                    if v < 4 {
                        s.wallpaper_preset = v as u8;
                        acts = one(Action::ClearWallpaperCache);
                    }
                },
                None => {},
            }
            match a {
                Some(v) => {
                    if v < 6 {
                        let (r, g, b): (u8, u8, u8) = if v == 0 {
                            (72, 138, 240)
                        } else if v == 1 {
                            (60, 200, 80)
                        } else if v == 2 {
                            (220, 100, 60)
                        } else if v == 3 {
                            (180, 80, 220)
                        } else if v == 4 {
                            (240, 180, 40)
                        } else {
                            (220, 60, 100)
                        };
                        s.accent_r = r;
                        s.accent_g = g;
                        s.accent_b = b;
                    }
                },
                None => {},
            }
            acts
        },
        SettingsHit::DarkMode => {
            s.dark_mode = !s.dark_mode;
            no_actions()
        },
        SettingsHit::Nothing => no_actions(),
    }
}

/// The topmost window anywhere under `(cx, cy)`, or -1.
pub open spec fn body_target(ws: Seq<Window>, cx: int, cy: int) -> int {
    last_where(ws, |w: Window| crate::window_manager::on_window(w, cx, cy))
}

/// Clicking on a window's body stays within bounds.
pub open spec fn body_fits(d: DesktopState) -> bool {
    let ws = d.window_manager.windows@;
    let i = body_target(ws, d.cursor.x as int, d.cursor.y as int);
    let top = raised(ws, ws[i].id).last();
    let (x0, y0) = (top.x as usize as int, top.y as usize as int);
    let (cx, cy) = (d.cursor.x as usize as int, d.cursor.y as usize as int);
    i != -1 ==> {
        &&& (top.app@ == "explorer"@ && top.explorer is Some) ==> {
            &&& crate::display::window_clicks::explorer_hit_fits(x0, y0, cx, cy, top.explorer->0.scroll_offset as int)
            &&& explorer_click_fits(top.explorer->0)
        }
        &&& (top.app@ == "settings"@ && top.settings is Some) ==> crate::display::window_clicks::settings_hit_fits(x0, y0, cx, cy)
    }
}

/// What a press on a window's body does, from `d` to `nd`: see
/// [`App::press_body`].
pub open spec fn body_pressed(d: DesktopState, nd: DesktopState, env: &HostEnv, r: Reply) -> bool {
    let ws = d.window_manager.windows@;
    let i = body_target(ws, d.cursor.x as int, d.cursor.y as int);
    let rs = raised(ws, ws[i].id);
    let top = rs.last();
    let nws = nd.window_manager.windows@;
    let nt = nws.last();
    let (x0, y0) = (top.x as usize as int, top.y as usize as int);
    let (cx, cy) = (d.cursor.x as usize as int, d.cursor.y as usize as int);
    if i == -1 {
        only_redraw(r, false) && nd == d
    } else {
        &&& r.redraw
        &&& nws.len() == rs.len()
        &&& nws.drop_last() == rs.drop_last()
        &&& (Window { explorer: top.explorer, settings: top.settings, ..nt }) == top
        &&& nd.window_manager.next_id == d.window_manager.next_id
        &&& (DesktopState { window_manager: d.window_manager, ..nd }) == d
        &&& if top.app@ == "explorer"@ && top.explorer is Some {
            let e = top.explorer->0;
            &&& nt.settings == top.settings
            &&& nt.explorer is Some
            &&& explorer_clicked(
                e,
                nt.explorer->0,
                r.actions@,
                top.id,
                crate::display::window_clicks::explorer_hit_at(x0, y0, cx, cy, e.scroll_offset as int),
                env.home_var,
            )
        } else if top.app@ == "settings"@ && top.settings is Some {
            let s = top.settings->0;
            &&& nt.explorer == top.explorer
            &&& nt.settings is Some
            &&& settings_clicked(
                s,
                nt.settings->0,
                r.actions@,
                crate::display::window_clicks::settings_hit_at(x0, y0, cx, cy, s.active_section),
            )
        } else {
            nt == top && r.actions@.len() == 0
        }
    }
}

/// `cx` is on the columns of taskbar window button `j`.
pub open spec fn on_taskbar_button(cx: int, j: int) -> bool {
    710 + 116 * j <= cx <= 820 + 116 * j
}

/// `cx` is on the columns of pinned button `j`.
pub open spec fn on_pinned_button(cx: int, j: int) -> bool {
    534 + 36 * j <= cx < 566 + 36 * j
}

/// The taskbar window button under `(cx, cy)` when there are `n` windows:
/// buttons 110 pixels wide and 6 apart from x 710, at most three.
pub open spec fn taskbar_slot(cx: int, cy: int, n: int) -> Option<int> {
    if 680 <= cy <= 712 {
        if 710 <= cx <= 820 && n > 0 {
            Some(0)
        } else if 826 <= cx <= 936 && n > 1 {
            Some(1)
        } else if 942 <= cx <= 1052 && n > 2 {
            Some(2)
        } else {
            None
        }
    } else {
        None
    }
}

/// The pinned app button under the pointer, the pointer's coordinates read
/// as unsigned pixel offsets: six buttons 32 pixels wide and 4 apart from
/// x 534, in the bottom 36 pixel rows.
pub open spec fn pinned_slot(cx: int, cy: int) -> Option<int> {
    if 684 <= cy < 720 {
        if 534 <= cx < 566 {
            Some(0)
        } else if 570 <= cx < 602 {
            Some(1)
        } else if 606 <= cx < 638 {
            Some(2)
        } else if 642 <= cx < 674 {
            Some(3)
        } else if 678 <= cx < 710 {
            Some(4)
        } else if 714 <= cx < 746 {
            Some(5)
        } else {
            None
        }
    } else {
        None
    }
}

/// The app of pinned button `k`.
pub open spec fn pinned_app(k: int) -> Seq<char> {
    if k == 0 {
        "explorer"@
    } else if k == 1 {
        "browser"@
    } else if k == 2 {
        "terminal"@
    } else if k == 3 {
        "tridocs"@
    } else if k == 4 {
        "trisheets"@
    } else {
        "trislides"@
    }
}

/// The ids of the windows showing `app`, bottom first.
pub open spec fn app_window_ids(ws: Seq<Window>, app: Seq<char>) -> Seq<u32> {
    ws.filter(|w: Window| w.app@ == app).map_values(|w: Window| w.id)
}

/// Some window showing `app` has focus and is shown.
pub open spec fn app_has_focus(ws: Seq<Window>, app: Seq<char>) -> bool {
    exists|j: int| 0 <= j < ws.len() && #[trigger] ws[j].app@ == app && ws[j].active && !ws[j].minimized
}

/// The app of pinned button `k`.
fn pinned_app_name(k: usize) -> (r: &'static str)
    requires
        k < 6,
    ensures
        r@ == pinned_app(k as int),
{
    if k == 0 {
        "explorer"
    } else if k == 1 {
        "browser"
    } else if k == 2 {
        "terminal"
    } else if k == 3 {
        "tridocs"
    } else if k == 4 {
        "trisheets"
    } else {
        "trislides"
    }
}

/// The ids of the windows showing `app`, bottom first.
fn window_ids_of_app(wm: &WindowManager, app: &str) -> (r: Vec<u32>)
    ensures
        r@ == app_window_ids(wm.windows@, app@),
{
    let ghost ws = wm.windows@;
    let ghost p = |w: Window| w.app@ == app@;
    let ghost f = |w: Window| w.id;
    let mut r: Vec<u32> = Vec::new();
    let mut k: usize = 0;
    assert(ws.take(0).filter(p) =~= Seq::<Window>::empty());
    while k < wm.windows.len()
        invariant
            k <= ws.len(),
            ws == wm.windows@,
            p == (|w: Window| w.app@ == app@),
            f == (|w: Window| w.id),
            r@ == ws.take(k as int).filter(p).map_values(f),
        decreases ws.len() - k,
    {
        proof {
            let s1 = ws.take(k + 1);
            reveal_with_fuel(Seq::filter, 1);
            assert(s1.drop_last() =~= ws.take(k as int));
            assert(s1.last() == ws[k as int]);
        }
        if crate::text::str_eq(wm.windows[k].app.as_str(), app) {
            r.push(wm.windows[k].id);
            proof {
                let s1 = ws.take(k + 1);
                assert(s1.filter(p) == s1.drop_last().filter(p).push(s1.last()));
                assert(r@ =~= s1.filter(p).map_values(f));
            }
        } else {
            proof {
                let s1 = ws.take(k + 1);
                assert(s1.filter(p) == s1.drop_last().filter(p));
            }
        }
        k = k + 1;
    }
    assert(ws.take(k as int) =~= ws);
    r
}

/// Whether some shown window showing `app` has focus.
fn app_focused(wm: &WindowManager, app: &str) -> (r: bool)
    ensures
        r == app_has_focus(wm.windows@, app@),
{
    let ghost ws = wm.windows@;
    let mut k: usize = 0;
    while k < wm.windows.len()
        invariant
            k <= ws.len(),
            ws == wm.windows@,
            forall|j: int| 0 <= j < k ==> !(#[trigger] ws[j].app@ == app@ && ws[j].active && !ws[j].minimized),
        decreases ws.len() - k,
    {
        let w = &wm.windows[k];
        if crate::text::str_eq(w.app.as_str(), app) && w.active && !w.minimized {
            return true;
        }
        k = k + 1;
    }
    false
}

/// Whether context-menu action `act` opens a window.
pub open spec fn opens_a_window(act: Seq<char>) -> bool {
    act == "open_terminal"@ || act == "open_explorer"@ || act == "new_folder"@
}

/// A left press on the open context menu stays within `i32`, and has a
/// window id to give when the line pressed opens a window.
pub open spec fn ctx_press_fits(d: DesktopState) -> bool {
    let m = d.context_menu;
    let (cx, cy) = (d.cursor.x as int, d.cursor.y as int);
    &&& crate::display::context_menu::item_scan_fits(m, cx, cy)
    &&& match crate::display::context_menu::item_under(m, cx, cy) {
        Some(i) => opens_a_window(m.items@[i as int].action@) ==> d.window_manager.next_id < u32::MAX,
        None => true,
    }
}

/// See [`App::press_context_menu`].
pub open spec fn ctx_pressed(d0: DesktopState, d1: DesktopState, env: &HostEnv, r: Reply) -> bool {
    let d = d0;
    let m = d.context_menu;
    let ws = d.window_manager.windows@;
    let nd = d1;
    let nws = nd.window_manager.windows@;
    let idx = crate::display::context_menu::item_under(m, d.cursor.x as int, d.cursor.y as int);
    &&& nd.context_menu == (ContextMenu { visible: false, hovered: None, ..m })
    &&& (DesktopState { context_menu: m, window_manager: d.window_manager, ..nd }) == d
    &&& match idx {
        Some(i) => {
            let act = m.items@[i as int].action@;
            if act == "open_terminal"@ {
                launched(d.window_manager, nd.window_manager, Seq::empty(), "terminal"@, env)
            } else if act == "open_explorer"@ || act == "new_folder"@ {
                launched(d.window_manager, nd.window_manager, Seq::empty(), "explorer"@, env)
            } else {
                &&& nd.window_manager.next_id == d.window_manager.next_id
                &&& nws == match m.target {
                    ContextTarget::Window(id) => if act == "close"@ {
                        crate::window_manager::without_id(ws, id)
                    } else if act == "maximize"@ || act == "restore"@ {
                        update_first(ws, id, |w: Window| crate::window_manager::toggled_maximize(w))
                    } else {
                        ws
                    },
                    ContextTarget::Desktop => ws,
                }
            }
        },
        None => nd.window_manager == d.window_manager,
    }
}

/// See [`App::press_icons`].
pub open spec fn icons_pressed(d0: DesktopState, d1: DesktopState, now: u64, env: &HostEnv, r: Option<Reply>) -> bool {
    let d = d0;
    let nd = d1;
    let icons = d.desktop_icons@;
    let k = icon_under(icons, d.cursor.x as int, d.cursor.y as int);
    &&& nd.desktop_icons@ == clicked_icons(icons, k, now)
    &&& (r is None <==> k == -1)
    &&& match r {
        Some(rep) => {
            let dbl = icons[k].last_click matches Some(t) && since(t, now) < 500;
            &&& rep.redraw
            &&& if dbl {
                launched(d.window_manager, nd.window_manager, rep.actions@, icons[k].app_name@, env)
            } else {
                nd.window_manager == d.window_manager && rep.actions@.len() == 0
            }
        },
        None => nd.window_manager == d.window_manager,
    }
    &&& (DesktopState { window_manager: d.window_manager, desktop_icons: d.desktop_icons, ..nd }) == d
}

/// See [`App::press_taskbar`].
pub open spec fn taskbar_pressed(d0: DesktopState, d1: DesktopState, r: Option<Reply>) -> bool {
    let d = d0;
    let ws = d.window_manager.windows@;
    let nd = d1;
    let slot = taskbar_slot(d.cursor.x as int, d.cursor.y as int, ws.len() as int);
    &&& nd.window_manager.next_id == d.window_manager.next_id
    &&& (DesktopState { window_manager: d.window_manager, ..nd }) == d
    &&& match slot {
        Some(i) => {
            let w = ws[i];
            &&& r matches Some(rep) && rep.redraw
            &&& if w.minimized {
                &&& nd.window_manager.windows@ == raised(
                    update_first(ws, w.id, |x: Window| Window { minimized: false, ..x }),
                    w.id,
                )
                &&& r->0.actions@ == seq![Action::SetWebviewVisible(w.id, true)]
            } else if w.active {
                nd.window_manager.windows@ == crate::window_manager::minimized_stack(ws, w.id)
                    && r->0.actions@.len() == 0
            } else {
                nd.window_manager.windows@ == raised(ws, w.id) && r->0.actions@.len() == 0
            }
        },
        None => r is None && nd.window_manager == d.window_manager,
    }
}

/// See [`App::press_pinned`].
pub open spec fn pinned_pressed(d0: DesktopState, d1: DesktopState, env: &HostEnv, r: Option<Reply>) -> bool {
    let d = d0;
    let ws = d.window_manager.windows@;
    let nd = d1;
    let slot = pinned_slot(d.cursor.x as usize as int, d.cursor.y as usize as int);
    &&& (DesktopState { window_manager: d.window_manager, ..nd }) == d
    &&& match slot {
        Some(k) => {
            let app = pinned_app(k);
            let open = app_window_ids(ws, app);
            &&& r matches Some(rep) && rep.redraw
            &&& if open.len() == 0 {
                launched(d.window_manager, nd.window_manager, r->0.actions@, app, env)
            } else {
                &&& r->0.actions@.len() == 0
                &&& nd.window_manager.next_id == d.window_manager.next_id
                &&& nd.window_manager.windows@ == if app_has_focus(ws, app) {
                    crate::window_manager::minimized_stack(ws, open.last())
                } else {
                    raised(
                        update_first(ws, open.last(), |x: Window| Window { minimized: false, ..x }),
                        open.last(),
                    )
                }
            }
        },
        None => r is None && nd.window_manager == d.window_manager,
    }
}

/// Whether a press on the shown start menu of `d` opens a window: no power
/// button is under the pointer and a tile is, whose app opens its window
/// at once.
pub open spec fn menu_press_opens(d: DesktopState) -> bool {
    let m = d.start_menu;
    let (cx, cy) = (d.cursor.x as int, d.cursor.y as int);
    &&& crate::display::start_menu::hovered_power(m, cx, cy, 720) is None
    &&& crate::display::start_menu::hovered_tile(m, cx, cy, 720) matches Some(t) && plan_for(
        m.entries@[t as int].executable@,
    ).0 == 0
}

/// Whether a press on the taskbar of `d` opens a window: it is on a pinned
/// button whose app has no window and opens its window at once.
pub open spec fn pinned_press_opens(d: DesktopState) -> bool {
    pinned_slot(d.cursor.x as usize as int, d.cursor.y as usize as int) matches Some(k) && app_window_ids(
        d.window_manager.windows@,
        pinned_app(k),
    ).len() == 0 && plan_for(pinned_app(k)).0 == 0
}

/// Whether a press at time `now` on the desktop icons of `d` opens a
/// window: it is the second click within 500 ms on an icon whose app opens
/// its window at once.
pub open spec fn icon_press_opens(d: DesktopState, now: u64) -> bool {
    let icons = d.desktop_icons@;
    let k = icon_under(icons, d.cursor.x as int, d.cursor.y as int);
    &&& k != -1
    &&& icons[k].last_click matches Some(t) && since(t, now) < 500
    &&& plan_for(icons[k].app_name@).0 == 0
}

/// See [`App::press_start_menu`].
pub open spec fn start_menu_pressed(d0: DesktopState, d1: DesktopState, env: &HostEnv, r: Reply) -> bool {
    let d = d0;
    let m = d.start_menu;
    let nd = d1;
    let (cx, cy) = (d.cursor.x as int, d.cursor.y as int);
    let power = crate::display::start_menu::hovered_power(m, cx, cy, 720);
    let tile = crate::display::start_menu::hovered_tile(m, cx, cy, 720);
    &&& r.redraw
    &&& (DesktopState { window_manager: d.window_manager, start_menu: m, ..nd }) == d
    &&& match power {
        Some(p) => {
            &&& r.actions@ == seq![Action::Power(p)]
            &&& nd.start_menu == (crate::display::start_menu::StartMenu { visible: false, ..m })
            &&& nd.window_manager == d.window_manager
        },
        None => match tile {
            Some(t) => {
                let exe = m.entries@[t as int].executable@;
                &&& nd.start_menu == (crate::display::start_menu::StartMenu { visible: false, hovered: None, ..m })
                &&& r.actions@.len() == 1
                &&& exists|acts: Seq<Action>| {
                    &&& launched(d.window_manager, nd.window_manager, acts, exe, env)
                    &&& (r.actions@[0] matches Action::MenuLaunch(op) && (match op {
                        Some(p) => acts == seq![Action::Launch(p)],
                        None => acts.len() == 0,
                    }))
                }
            },
            None => {
                &&& r.actions@.len() == 0
                &&& nd.start_menu == (crate::display::start_menu::StartMenu { visible: false, ..m })
                &&& nd.window_manager == d.window_manager
            },
        },
    }
}

/// Raising a window keeps the number of windows.
proof fn lemma_raised_len(ws: Seq<Window>, id: u32)
    ensures
        raised(ws, id).len() == ws.len(),
{
    lemma_first_with_id(ws, id);
}

/// What the end of a left press needs stays true while the pointer, the
/// toasts, the start menu, the next window id and the number of windows
/// stay.
proof fn lemma_rest_fits_kept(a: DesktopState, b: DesktopState)
    requires
        rest_fits(a),
        a.cursor == b.cursor,
        a.notifications == b.notifications,
        a.start_menu == b.start_menu,
        a.window_manager.next_id == b.window_manager.next_id,
        b.window_manager.windows@.len() == a.window_manager.windows@.len(),
    ensures
        rest_fits(b),
{
}

/// The apps shown in an embedded web view.
pub open spec fn is_web_app(app: Seq<char>) -> bool {
    app == "browser"@ || app == "tridocs"@ || app == "trisheets"@ || app == "trislides"@ || app == "tridraw"@
}

/// The pointer is on the start button.
pub open spec fn on_start_button(cx: int, cy: int) -> bool {
    15 <= cx <= 45 && 680 <= cy <= 710
}

/// The part of a left press after the window bodies stays within bounds.
pub open spec fn rest_fits(d: DesktopState) -> bool {
    &&& forall|i: int|
        0 <= i < d.notifications.toasts@.len() && #[trigger] crate::display::notification::no_hit_before(
            i,
            d.cursor.x as int,
            d.cursor.y as int,
            1280,
            720,
        ) ==> crate::display::notification::toast_y(i, 720) >= 0
    &&& d.window_manager.windows@.len() <= i32::MAX
    &&& d.window_manager.next_id < u32::MAX
    &&& d.start_menu.visible ==> crate::display::start_menu::hover_fits(d.start_menu, 720)
}

/// What the part of a left press after the window bodies does, from `d` to
/// `nd`, the body click having replied `body`: see [`App::left_press`].
pub open spec fn rest_pressed(d: DesktopState, nd: DesktopState, env: &HostEnv, body: Reply, r: Reply) -> bool {
    let cx = d.cursor.x as int;
    let cy = d.cursor.y as int;
    let toast = crate::display::notification::first_hit(d.notifications.toasts@.len() as int, cx, cy, 1280, 720);
    if on_start_button(cx, cy) {
        &&& r.redraw && r.actions == body.actions
        &&& nd.start_menu.visible == !d.start_menu.visible
        &&& nd.start_menu.entries == d.start_menu.entries
        &&& nd.start_menu.visible ==> nd.start_menu.hovered == d.start_menu.hovered
            && nd.start_menu.power_hovered == d.start_menu.power_hovered
            && nd.start_menu.search_query == d.start_menu.search_query
        &&& !nd.start_menu.visible ==> nd.start_menu.hovered is None && nd.start_menu.power_hovered is None
            && nd.start_menu.search_query@ == Seq::<char>::empty()
        &&& (DesktopState { start_menu: d.start_menu, ..nd }) == d
    } else if toast is Some {
        let k = toast->0;
        &&& r.redraw && r.actions == body.actions
        &&& nd.notifications.toasts@ == d.notifications.toasts@.update(k, crate::display::notification::dismissed(d.notifications.toasts@[k]))
        &&& nd.notifications.next_id == d.notifications.next_id
        &&& (DesktopState { notifications: d.notifications, ..nd }) == d
    } else if taskbar_slot(cx, cy, d.window_manager.windows@.len() as int) is Some {
        exists|t: Reply| #[trigger] taskbar_pressed(d, nd, Some(t)) && r.redraw && r.actions@ == body.actions@ + t.actions@
    } else if pinned_slot(d.cursor.x as usize as int, d.cursor.y as usize as int) is Some {
        exists|t: Reply| #[trigger] pinned_pressed(d, nd, env, Some(t)) && r.redraw && r.actions@ == body.actions@ + t.actions@
    } else if d.start_menu.visible {
        exists|t: Reply| #[trigger] start_menu_pressed(d, nd, env, t) && r.redraw && r.actions@ == body.actions@ + t.actions@
    } else {
        nd == d && r == body
    }
}

/// A left press stays within bounds.
pub open spec fn press_fits(d: DesktopState, now: u64) -> bool {
    let ws = d.window_manager.windows@;
    let (cx, cy) = (d.cursor.x as int, d.cursor.y as int);
    if d.context_menu.visible {
        ctx_press_fits(d)
    } else {
        &&& windows_fit(ws)
        &&& match title_bar_window(ws, cx, cy) {
            Some(id) => press_window_fits(d, id, now),
            None => {
                &&& icons_fit(d)
                &&& body_fits(d)
                &&& rest_fits(d)
            },
        }
    }
}

/// What a left press at time `now` does, from `d` to `nd`: see
/// [`App::left_press`].
pub open spec fn left_pressed(d: DesktopState, nd: DesktopState, now: u64, env: &HostEnv, r: Reply) -> bool {
    let ws = d.window_manager.windows@;
    let (cx, cy) = (d.cursor.x as int, d.cursor.y as int);
    if d.context_menu.visible {
        ctx_pressed(d, nd, env, r)
    } else {
        match title_bar_window(ws, cx, cy) {
            Some(id) => press_window_reply(d, nd, id, now, r),
            None => desktop_pressed(d, nd, now, env, r),
        }
    }
}

/// What a left press that hit no context menu and no title bar does: see
/// [`App::left_press`].
pub open spec fn desktop_pressed(d: DesktopState, nd: DesktopState, now: u64, env: &HostEnv, r: Reply) -> bool {
    ||| exists|d1: DesktopState, d2: DesktopState, rb: Reply| {
        &&& #[trigger] icons_pressed(d, d1, now, env, None)
        &&& #[trigger] body_pressed(d1, d2, env, rb)
        &&& rest_pressed(d2, nd, env, rb, r)
    }
    ||| exists|ri: Reply| #[trigger] icons_pressed(d, nd, now, env, Some(ri)) && r == ri
}

/// Index of the last window with `id`.
pub(crate) fn last_index_with_id(wm: &WindowManager, id: u32) -> (r: Option<usize>)
    ensures
        match r {
            Some(j) => j == last_with_id(wm.windows@, id) && j < wm.windows@.len(),
            None => last_with_id(wm.windows@, id) == -1,
        },
{
    let ghost ws = wm.windows@;
    let ghost p = |w: Window| w.id == id;
    proof {
        lemma_last_where(ws, p);
    }
    let mut k = wm.windows.len();
    while k > 0
        invariant
            k <= ws.len(),
            ws == wm.windows@,
            p == (|w: Window| w.id == id),
            forall|j: int| k <= j < ws.len() ==> !p(#[trigger] ws[j]),
        decreases k,
    {
        if wm.windows[k - 1].id == id {
            assert(p(ws[k - 1]));
            assert(last_where(ws, p) == k - 1);
            return Some(k - 1);
        }
        k = k - 1;
    }
    None
}

/// Closing the top window's id after editing it leaves what closing it
/// before would.
proof fn lemma_without_top(ws: Seq<Window>, mid: Seq<Window>, id: u32)
    requires
        ws.len() > 0,
        mid.len() == ws.len(),
        mid.drop_last() == ws.drop_last(),
        ws.last().id == id,
        mid.last().id == id,
    ensures
        crate::window_manager::without_id(mid, id) == crate::window_manager::without_id(ws, id),
{
    reveal_with_fuel(Seq::filter, 1);
}

/// Handling key `k` stays within bounds: the history can be walked, and
/// the Alt+Tab selection can step.
pub open spec fn key_fits(a: App, k: Key) -> bool {
    let ws = a.desktop.window_manager.windows@;
    let t = crate::display::terminal_input::term_view(ws.last());
    &&& terminal_focused(ws) && k is ArrowUp ==> crate::display::terminal_input::older_fits(t)
    &&& terminal_focused(ws) && k is ArrowDown ==> (t.history_index matches Some(i) ==> i < usize::MAX)
    &&& k is Tab && a.alt_pressed && !a.shift_pressed && a.desktop.alt_tab_visible ==> a.desktop.alt_tab_index < usize::MAX
}

/// What a focused terminal does with editing key `k`, from `a` to `b`.
pub open spec fn terminal_reply(a: App, b: App, k: Key, r: Reply) -> bool {
    let ws = a.desktop.window_manager.windows@;
    let nws = b.desktop.window_manager.windows@;
    let w = ws.last();
    let t = crate::display::terminal_input::term_view(w);
    &&& b.desktop.window_manager.next_id == a.desktop.window_manager.next_id
    &&& (DesktopState { window_manager: a.desktop.window_manager, ..b.desktop }) == a.desktop
    &&& (App { desktop: a.desktop, ..b }) == (App { desktop: a.desktop, ..a })
    &&& match k {
        Key::Backspace => only_redraw(r, true) && top_edited(ws, nws, t.backspaced()),
        Key::Enter => {
            let cmd = crate::display::terminal_input::command_of(t);
            if cmd == "exit"@ || cmd == "quit"@ {
                only_redraw(r, true) && nws == crate::window_manager::without_id(ws, w.id)
            } else {
                &&& r.redraw
                &&& top_edited(ws, nws, crate::display::terminal_input::submitted(t))
                &&& if cmd.len() > 0 && cmd != "clear"@ {
                    r.actions@.len() == 1 && (r.actions@[0] matches Action::RunCommand(id, c) && id == w.id && c@ == cmd)
                } else {
                    r.actions@.len() == 0
                }
            }
        },
        Key::ArrowUp => only_redraw(r, true) && top_edited(ws, nws, crate::display::terminal_input::recalled_older(t)),
        Key::ArrowDown => only_redraw(r, true) && top_edited(ws, nws, crate::display::terminal_input::recalled_newer(t)),
        Key::Escape => only_redraw(r, true) && top_edited(ws, nws, crate::display::terminal_input::TermView { input: Seq::empty(), ..t }),
        Key::Tab => {
            &&& r.redraw
            &&& nws == ws
            &&& r.actions@.len() == 1
            &&& (r.actions@[0] matches Action::Complete(id, d, p) && id == w.id
                && d@ == crate::display::terminal_input::completion_dir(t.input)
                && p@ == crate::display::terminal_input::completion_prefix(t.input))
        },
        Key::Character(s) => if a.ctrl_pressed {
            only_redraw(r, false) && nws == ws
        } else {
            only_redraw(r, true) && top_edited(
                ws,
                nws,
                crate::display::terminal_input::TermView { input: t.input + crate::display::terminal_input::printable(s@), ..t },
            )
        },
        _ => true,
    }
}

/// What desktop shortcut `k` does, from `a` to `b`.
pub open spec fn shortcut_reply(a: App, b: App, k: Key, r: Reply) -> bool {
    let d = a.desktop;
    let nd = b.desktop;
    let ws = d.window_manager.windows@;
    let nws = nd.window_manager.windows@;
    let focused = terminal_focused(ws);
    let t = crate::display::terminal_input::term_view(ws.last());
    &&& r.actions@.len() == 0
    &&& nd.window_manager.next_id == d.window_manager.next_id
    &&& (App { desktop: d, ..b }) == (App { desktop: d, ..a })
    &&& if k is Super {
        &&& r.redraw
        &&& nd.start_menu.visible == !d.start_menu.visible
        &&& nd.start_menu.entries == d.start_menu.entries
        &&& nd.start_menu.visible ==> nd.start_menu.hovered == d.start_menu.hovered
            && nd.start_menu.power_hovered == d.start_menu.power_hovered
            && nd.start_menu.search_query == d.start_menu.search_query
        &&& !nd.start_menu.visible ==> nd.start_menu.hovered is None && nd.start_menu.power_hovered is None
            && nd.start_menu.search_query@ == Seq::<char>::empty()
        &&& (DesktopState { start_menu: d.start_menu, ..nd }) == d
    } else if k is F4 && a.alt_pressed && ws.len() > 0 {
        &&& r.redraw
        &&& nws == crate::window_manager::without_id(ws, ws.last().id)
        &&& (DesktopState { window_manager: d.window_manager, ..nd }) == d
    } else if k is Tab && a.alt_pressed && shown_ids(ws).len() > 0 {
        let len = shown_ids(ws).len() as int;
        let base: int = if d.alt_tab_visible { d.alt_tab_index as int } else { 0 };
        &&& r.redraw
        &&& nd.alt_tab_visible
        &&& nd.alt_tab_index == if a.shift_pressed {
            (if base == 0 { usize::MAX as int } else { base - 1 }) % len
        } else {
            (base + 1) % len
        }
        &&& (DesktopState { alt_tab_visible: d.alt_tab_visible, alt_tab_index: d.alt_tab_index, ..nd }) == d
    } else if ctrl_letter(k, a.ctrl_pressed, "c"@, "C"@) {
        &&& r.redraw == focused
        &&& (DesktopState { window_manager: d.window_manager, ..nd }) == d
        &&& if focused {
            top_edited(ws, nws, crate::display::terminal_input::TermView {
                input: Seq::empty(),
                output: t.output + seq![crate::display::terminal_input::prompt(t.input) + "^C"@, Seq::<char>::empty()],
                scroll: 0,
                ..t
            })
        } else {
            nws == ws
        }
    } else if ctrl_letter(k, a.ctrl_pressed, "d"@, "D"@) {
        &&& r.redraw == focused
        &&& (DesktopState { window_manager: d.window_manager, ..nd }) == d
        &&& if focused && t.input.len() == 0 {
            nws == crate::window_manager::without_id(ws, ws.last().id)
        } else if focused {
            top_edited(ws, nws, crate::display::terminal_input::TermView { input: Seq::empty(), ..t })
        } else {
            nws == ws
        }
    } else if ctrl_letter(k, a.ctrl_pressed, "l"@, "L"@) {
        &&& r.redraw == focused
        &&& (DesktopState { window_manager: d.window_manager, ..nd }) == d
        &&& if focused {
            top_edited(ws, nws, crate::display::terminal_input::TermView {
                output: seq![Seq::<char>::empty()],
                scroll: 0,
                ..t
            })
        } else {
            nws == ws
        }
    } else if k is Escape {
        &&& r.redraw == (d.start_menu.visible || d.context_menu.visible)
        &&& nd.start_menu == (crate::display::start_menu::StartMenu { visible: false, ..d.start_menu })
        &&& nd.context_menu == if d.context_menu.visible {
            ContextMenu { visible: false, hovered: None, ..d.context_menu }
        } else {
            d.context_menu
        }
        &&& (DesktopState { start_menu: d.start_menu, context_menu: d.context_menu, ..nd }) == d
    } else {
        !r.redraw && nd == d
    }
}

/// Whether some focused, shown window is a terminal.
fn any_active_terminal(wm: &WindowManager) -> (r: bool)
    ensures
        r == has_active_terminal(wm.windows@),
{
    let ghost ws = wm.windows@;
    let n = wm.windows.len();
    let mut k: usize = 0;
    while k < n
        invariant
            k <= n == ws.len(),
            ws == wm.windows@,
            forall|j: int| 0 <= j < k ==> !(is_terminal(ws[j]) && #[trigger] ws[j].active && !ws[j].minimized),
        decreases n - k,
    {
        let w = &wm.windows[k];
        if crate::text::str_eq(w.app.as_str(), "terminal") && w.active && !w.minimized {
            assert(is_terminal(ws[k as int]) && ws[k as int].active && !ws[k as int].minimized);
            return true;
        }
        k = k + 1;
    }
    false
}

/// Toggles the cursor of every terminal window.
fn blink_terminals(wm: &mut WindowManager)
    ensures
        final(wm).windows@ == blinked(old(wm).windows@),
        final(wm).next_id == old(wm).next_id,
{
    let ghost ws = wm.windows@;
    let n = wm.windows.len();
    let mut k: usize = 0;
    while k < n
        invariant
            k <= n == ws.len(),
            wm.windows@.len() == n,
            forall|j: int| 0 <= j < k ==> wm.windows@[j] == #[trigger] blinked(ws)[j],
            forall|j: int| k <= j < n ==> wm.windows@[j] == ws[j],
            wm.next_id == old(wm).next_id,
        decreases n - k,
    {
        let ghost before = wm.windows@;
        let mut w = wm.windows.remove(k);
        if crate::text::str_eq(w.app.as_str(), "terminal") {
            w.cursor_blink = !w.cursor_blink;
        }
        wm.windows.insert(k, w);
        proof {
            crate::window_manager::lemma_remove_insert(before, k as int, w);
        }
        k = k + 1;
    }
    assert(wm.windows@ =~= blinked(ws));
}

/// The ids of the windows that are not minimised, bottom first.
fn shown_window_ids(wm: &WindowManager) -> (r: Vec<u32>)
    ensures
        r@ == shown_ids(wm.windows@),
{
    let ghost ws = wm.windows@;
    let ghost p = |w: Window| !w.minimized;
    let ghost f = |w: Window| w.id;
    let mut r: Vec<u32> = Vec::new();
    let mut k: usize = 0;
    assert(ws.take(0).filter(p) =~= Seq::<Window>::empty());
    while k < wm.windows.len()
        invariant
            k <= ws.len(),
            ws == wm.windows@,
            p == (|w: Window| !w.minimized),
            f == (|w: Window| w.id),
            r@ == ws.take(k as int).filter(p).map_values(f),
        decreases ws.len() - k,
    {
        proof {
            let s1 = ws.take(k + 1);
            reveal_with_fuel(Seq::filter, 1);
            assert(s1.drop_last() =~= ws.take(k as int));
            assert(s1.last() == ws[k as int]);
        }
        let ghost before = r@;
        if !wm.windows[k].minimized {
            r.push(wm.windows[k].id);
            proof {
                let s1 = ws.take(k + 1);
                assert(s1.filter(p) == s1.drop_last().filter(p).push(s1.last()));
                assert(r@ =~= s1.filter(p).map_values(f));
            }
        } else {
            proof {
                let s1 = ws.take(k + 1);
                assert(s1.filter(p) == s1.drop_last().filter(p));
            }
        }
        k = k + 1;
    }
    assert(ws.take(k as int) =~= ws);
    r
}

fn sat_sub_usize(a: usize, b: usize) -> (r: usize)
    ensures
        r == sat_sub(a as int, b as int),
{
    if a >= b { a - b } else { 0 }
}

fn scroll(offset: usize, delta: i32, max: usize) -> (r: usize)
    requires
        delta != i32::MIN,
        delta > 0 ==> offset + delta <= usize::MAX,
    ensures
        r == scrolled(offset, delta, max as int),
{
    if delta > 0 {
        let v = offset + delta as usize;
        if v <= max { v } else { max }
    } else {
        let back = (-delta) as usize;
        sat_sub_usize(offset, back)
    }
}

impl App {
    /// The display server's state at start-up: the desktop of
    /// [`DesktopState::new`], no modifier held, a redraw pending.
    pub fn new(env: &HostEnv) -> (r: Self)
        ensures
            !r.alt_pressed && !r.shift_pressed && !r.ctrl_pressed,
            r.needs_redraw,
            r.last_cursor_x == 0 && r.last_cursor_y == 0,
            r.blink_counter == 0,
            r.desktop.window_manager.next_id == 2,
            r.desktop.window_manager.windows@.len() == 1,
            r.desktop.notifications.toasts@.len() == 0,
            r.desktop.notifications.next_id == 1,
            !r.desktop.context_menu.visible,
            r.desktop.context_menu.items@.len() == 0,
            !r.desktop.start_menu.visible,
            r.desktop.dragging_window is None,
            r.desktop.resizing_window is None,
            !r.desktop.alt_tab_visible,
    {
        App {
            desktop: DesktopState::new(env),
            alt_pressed: false,
            shift_pressed: false,
            needs_redraw: true,
            last_cursor_x: 0,
            last_cursor_y: 0,
            blink_counter: 0,
            ctrl_pressed: false,
        }
    }

    /// The window appeared: greet the user with a toast, pushed at `now`.
    pub fn welcome(&mut self, now: u64)
        requires
            old(self).desktop.notifications.next_id < u32::MAX,
        ensures
            final(self).desktop.notifications.next_id == old(self).desktop.notifications.next_id + 1,
            final(self).desktop.notifications.toasts@.last().title@ == "Trimangees OS"@,
            final(self).desktop.notifications.toasts@.last().body@
                == "Welcome! Right-click the desktop for options."@,
            final(self).desktop.notifications.toasts@.last().created == now,
            final(self).desktop.notifications.toasts@.len() == if old(self).desktop.notifications.toasts@.len() >= 4 {
                old(self).desktop.notifications.toasts@.len() as int
            } else {
                old(self).desktop.notifications.toasts@.len() + 1int
            },
    {
        self.desktop.notifications.push(
            "Trimangees OS",
            "Welcome! Right-click the desktop for options.",
            now,
        );
    }

    /// The left button went up: a resize ends, and a drag ends with the
    /// window snapped to the previewed zone, if any.
    pub fn left_release(&mut self) -> (r: Reply)
        ensures
            only_redraw(r, true),
            final(self).desktop.window_manager.windows@ == released_windows(
                old(self).desktop.window_manager.windows@,
                old(self).desktop.dragging_window,
                old(self).desktop.snap_preview,
            ),
            final(self).desktop.window_manager.next_id == old(self).desktop.window_manager.next_id,
            (DesktopState { window_manager: old(self).desktop.window_manager, ..final(self).desktop })
                == (DesktopState {
                resizing_window: None,
                resize_edge: None,
                snap_preview: None,
                dragging_window: None,
                ..old(self).desktop
            }),
            (App { desktop: old(self).desktop, ..*final(self) }) == (App {
                desktop: old(self).desktop,
                ..*old(self)
            }),
    {
        self.desktop.resizing_window = None;
        self.desktop.resize_edge = None;
        if let (Some(wid), Some(zone)) = (self.desktop.dragging_window, self.desktop.snap_preview) {
            self.desktop.window_manager.snap_window(wid, zone);
        }
        self.desktop.snap_preview = None;
        if let Some(id) = self.desktop.dragging_window {
            let wm = &mut self.desktop.window_manager;
            match wm.position_of(id) {
                Some(i) => {
                    let ghost before = wm.windows@;
                    let mut w = wm.windows.remove(i);
                    w.dragging = false;
                    wm.windows.insert(i, w);
                    proof {
                        crate::window_manager::lemma_remove_insert(before, i as int, w);
                    }
                },
                None => {},
            }
        }
        self.desktop.dragging_window = None;
        reply(true)
    }

    /// The right button went down: any open context menu closes, and a new
    /// one opens at the pointer, for the window whose title bar is under it
    /// or else for the desktop.
    pub fn right_press(&mut self) -> (r: Reply)
        requires
            windows_fit(old(self).desktop.window_manager.windows@),
            place_fits(old(self).desktop.cursor.x as int, old(self).desktop.cursor.y as int, 160, 1280, 720),
            place_fits(old(self).desktop.cursor.x as int, old(self).desktop.cursor.y as int, 125, 1280, 720),
        ensures
            only_redraw(r, true),
            ({
                let (mx, my) = (old(self).desktop.cursor.x as int, old(self).desktop.cursor.y as int);
                let m = final(self).desktop.context_menu;
                &&& m.visible
                &&& m.hovered is None
                &&& match title_bar_window(old(self).desktop.window_manager.windows@, mx, my) {
                    Some(id) => {
                        &&& m.target == ContextTarget::Window(id)
                        &&& m.items@.map_values(|it| item_view(it)) == window_items()
                        &&& (m.x as int, m.y as int) == placed(mx, my, 125, 1280, 720)
                    },
                    None => {
                        &&& m.target == ContextTarget::Desktop
                        &&& m.items@.map_values(|it| item_view(it)) == desktop_items()
                        &&& (m.x as int, m.y as int) == placed(mx, my, 160, 1280, 720)
                    },
                }
            }),
            (DesktopState { context_menu: old(self).desktop.context_menu, ..final(self).desktop })
                == old(self).desktop,
            (App { desktop: old(self).desktop, ..*final(self) }) == (App {
                desktop: old(self).desktop,
                ..*old(self)
            }),
    {
        let mx = self.desktop.cursor.x;
        let my = self.desktop.cursor.y;
        self.desktop.context_menu.close();
        match self.desktop.window_manager.window_at(mx, my) {
            Some(id) => {
                self.desktop.context_menu.open_window(mx, my, id, 1280, 720);
            },
            None => {
                self.desktop.context_menu.open_desktop(mx, my, 1280, 720);
            },
        }
        reply(true)
    }

    /// The modifier keys changed. Releasing Alt while the Alt+Tab switcher
    /// shows closes it and raises the selected window among those shown.
    pub fn modifiers_changed(&mut self, alt: bool, shift: bool, ctrl: bool) -> (r: Reply)
        ensures
            final(self).alt_pressed == alt,
            final(self).shift_pressed == shift,
            final(self).ctrl_pressed == ctrl,
            ({
                let commit = old(self).alt_pressed && !alt && old(self).desktop.alt_tab_visible;
                let ws = old(self).desktop.window_manager.windows@;
                let ids = shown_ids(ws);
                let idx = old(self).desktop.alt_tab_index;
                &&& only_redraw(r, commit)
                &&& final(self).desktop.alt_tab_visible == (old(self).desktop.alt_tab_visible && !commit)
                &&& final(self).desktop.window_manager.windows@ == if commit && idx < ids.len() {
                    raised(ws, ids[idx as int])
                } else {
                    ws
                }
            }),
            final(self).desktop.window_manager.next_id == old(self).desktop.window_manager.next_id,
            (DesktopState {
                window_manager: old(self).desktop.window_manager,
                alt_tab_visible: old(self).desktop.alt_tab_visible,
                ..final(self).desktop
            }) == old(self).desktop,
            (App { desktop: old(self).desktop, alt_pressed: alt, shift_pressed: shift, ctrl_pressed: ctrl, ..*final(self) })
                == (App { desktop: old(self).desktop, alt_pressed: alt, shift_pressed: shift, ctrl_pressed: ctrl, ..*old(self) }),
    {
        let alt_was = self.alt_pressed;
        self.alt_pressed = alt;
        self.shift_pressed = shift;
        self.ctrl_pressed = ctrl;
        if alt_was && !self.alt_pressed && self.desktop.alt_tab_visible {
            self.desktop.alt_tab_visible = false;
            let idx = self.desktop.alt_tab_index;
            let ids = shown_window_ids(&self.desktop.window_manager);
            if idx < ids.len() {
                self.desktop.window_manager.bring_to_front(ids[idx]);
            }
            return reply(true);
        }
        reply(false)
    }

    /// The event loop is idle at time `now`: toasts expire, and every 30th
    /// idle turn the terminal cursors blink, if a terminal has focus.
    /// Returns whether to redraw.
    pub fn about_to_wait(&mut self, now: u64) -> (redraw: bool)
        ensures
            ({
                let ws = old(self).desktop.window_manager.windows@;
                let had = old(self).desktop.notifications.toasts@;
                let expired = had.len() > 0 && live_toasts(had, now).len() != had.len();
                let c = final(self).blink_counter;
                let blink = c % 30 == 0 && has_active_terminal(ws);
                &&& c == (if old(self).blink_counter == u32::MAX { 0 } else { old(self).blink_counter + 1 })
                &&& final(self).desktop.notifications.toasts@ == if had.len() > 0 { live_toasts(had, now) } else { had }
                &&& final(self).desktop.window_manager.windows@ == if blink { blinked(ws) } else { ws }
                &&& redraw == (expired || blink)
            }),
            final(self).desktop.notifications.next_id == old(self).desktop.notifications.next_id,
            final(self).desktop.window_manager.next_id == old(self).desktop.window_manager.next_id,
            (DesktopState {
                window_manager: old(self).desktop.window_manager,
                notifications: old(self).desktop.notifications,
                ..final(self).desktop
            }) == old(self).desktop,
            (App { desktop: old(self).desktop, blink_counter: 0, ..*final(self) })
                == (App { desktop: old(self).desktop, blink_counter: 0, ..*old(self) }),
    {
        let mut redraw = false;
        if self.desktop.notifications.has_toasts() {
            let changed = self.desktop.notifications.tick(now);
            if changed {
                redraw = true;
            }
        }
        self.blink_counter = if self.blink_counter == u32::MAX { 0 } else { self.blink_counter + 1 };
        if self.blink_counter % 30 == 0 {
            if any_active_terminal(&self.desktop.window_manager) {
                blink_terminals(&mut self.desktop.window_manager);
                redraw = true;
            }
        }
        redraw
    }

    /// The pointer moved to `(mx, my)`. A resize in progress resizes its
    /// window; a drag in progress moves its window and updates the snap
    /// preview; otherwise the hovered window edge, start menu tile, power
    /// button and context menu line follow the pointer. Always redraws.
    pub fn cursor_moved(&mut self, mx: i32, my: i32) -> (r: Reply)
        requires
            move_fits(*old(self), mx, my),
        ensures
            r.redraw,
            final(self).desktop.cursor.x == mx && final(self).desktop.cursor.y == my,
            final(self).desktop.window_manager.next_id == old(self).desktop.window_manager.next_id,
            ({
                let d = old(self).desktop;
                let ws = d.window_manager.windows@;
                let nd = final(self).desktop;
                if d.resizing_window is Some && d.resize_edge is Some {
                    let wid = d.resizing_window->0;
                    let i = first_with_id(ws, wid);
                    let nw = resized_by(d, ws[i], mx, my);
                    &&& nd.window_manager.windows@ == if i == -1 { ws } else { ws.update(i, nw) }
                    &&& r.actions@ == if i == -1 {
                        Seq::<Action>::empty()
                    } else {
                        seq![Action::SyncWebviewBounds(wid, nw.x, nw.y, nw.width, nw.height)]
                    }
                    &&& (DesktopState { window_manager: d.window_manager, cursor: d.cursor, ..nd }) == d
                    &&& (App { desktop: d, ..*final(self) }) == (App { desktop: d, ..*old(self) })
                } else if d.dragging_window is Some {
                    let wid = d.dragging_window->0;
                    let i = first_with_id(ws, wid);
                    let nw = Window { x: (mx - d.drag_offset_x) as i32, y: (my - d.drag_offset_y) as i32, ..ws[i] };
                    &&& nd.window_manager.windows@ == if i == -1 { ws } else { ws.update(i, nw) }
                    &&& r.actions@ == if i == -1 {
                        Seq::<Action>::empty()
                    } else {
                        seq![Action::SyncWebviewBounds(wid, nw.x, nw.y, nw.width, nw.height)]
                    }
                    &&& nd.snap_preview == crate::window_manager::snap_zone_at(mx as int, my as int)
                    &&& (DesktopState { window_manager: d.window_manager, cursor: d.cursor, snap_preview: d.snap_preview, ..nd }) == d
                    &&& (App { desktop: d, ..*final(self) }) == (App { desktop: d, ..*old(self) })
                } else {
                    let hover = crate::window_manager::last_where(
                        ws,
                        |w: Window| crate::window_manager::window_edge_at(w, mx as int, my as int) is Some,
                    );
                    let tile = crate::display::start_menu::hovered_tile(d.start_menu, mx as int, my as int, 720);
                    let power = crate::display::start_menu::hovered_power(d.start_menu, mx as int, my as int, 720);
                    let item = crate::display::context_menu::item_under(d.context_menu, mx as int, my as int);
                    let moved = mx != old(self).last_cursor_x || my != old(self).last_cursor_y;
                    let changed = hover != -1 || item != d.context_menu.hovered || tile != d.start_menu.hovered
                        || power != d.start_menu.power_hovered;
                    &&& r.actions@.len() == 0
                    &&& nd.hover_edge == if hover == -1 {
                        None
                    } else {
                        crate::window_manager::window_edge_at(ws[hover], mx as int, my as int)
                    }
                    &&& nd.start_menu.hovered == tile
                    &&& nd.start_menu.power_hovered == power
                    &&& nd.context_menu.hovered == item
                    &&& (final(self).last_cursor_x, final(self).last_cursor_y) == if moved || changed {
                        (mx, my)
                    } else {
                        (old(self).last_cursor_x, old(self).last_cursor_y)
                    }
                    &&& nd.window_manager.windows@ == ws
                    &&& (crate::display::start_menu::StartMenu { hovered: d.start_menu.hovered, power_hovered: d.start_menu.power_hovered, ..nd.start_menu }) == d.start_menu
                    &&& (ContextMenu { hovered: d.context_menu.hovered, ..nd.context_menu }) == d.context_menu
                    &&& (DesktopState {
                        window_manager: d.window_manager,
                        cursor: d.cursor,
                        hover_edge: d.hover_edge,
                        start_menu: d.start_menu,
                        context_menu: d.context_menu,
                        ..nd
                    }) == d
                    &&& (App { desktop: d, last_cursor_x: 0, last_cursor_y: 0, ..*final(self) })
                        == (App { desktop: d, last_cursor_x: 0, last_cursor_y: 0, ..*old(self) })
                }
            }),
    {
        self.desktop.cursor.x = mx;
        self.desktop.cursor.y = my;
        if let (Some(wid), Some(edge)) = (self.desktop.resizing_window, self.desktop.resize_edge) {
            let smx = self.desktop.resize_start_mx;
            let smy = self.desktop.resize_start_my;
            let sw = self.desktop.resize_start_w;
            let sh = self.desktop.resize_start_h;
            let swx = self.desktop.resize_start_wx;
            let swy = self.desktop.resize_start_wy;
            let wm = &mut self.desktop.window_manager;
            match wm.position_of(wid) {
                Some(i) => {
                    let ghost before = wm.windows@;
                    let mut w = wm.windows.remove(i);
                    WindowManager::apply_resize(&mut w, edge, smx, smy, sw, sh, swx, swy, mx, my);
                    let action = Action::SyncWebviewBounds(wid, w.x, w.y, w.width, w.height);
                    wm.windows.insert(i, w);
                    proof {
                        crate::window_manager::lemma_remove_insert(before, i as int, w);
                    }
                    return Reply { redraw: true, actions: one(action) };
                },
                None => {
                    return reply(true);
                },
            }
        }
        if let Some(wid) = self.desktop.dragging_window {
            let ox = self.desktop.drag_offset_x;
            let oy = self.desktop.drag_offset_y;
            let wm = &mut self.desktop.window_manager;
            let action = match wm.position_of(wid) {
                Some(i) => {
                    let ghost before = wm.windows@;
                    let mut w = wm.windows.remove(i);
                    w.x = mx - ox;
                    w.y = my - oy;
                    let a = Action::SyncWebviewBounds(wid, w.x, w.y, w.width, w.height);
                    wm.windows.insert(i, w);
                    proof {
                        crate::window_manager::lemma_remove_insert(before, i as int, w);
                    }
                    Some(a)
                },
                None => None,
            };
            self.desktop.snap_preview = crate::window_manager::SnapZone::detect(mx, my);
            return Reply { redraw: true, actions: some_or_none(action) };
        }
        proof {
            lemma_last_where(
                self.desktop.window_manager.windows@,
                |w: Window| crate::window_manager::window_edge_at(w, mx as int, my as int) is Some,
            );
        }
        self.desktop.hover_edge = match self.desktop.window_manager.resize_edge_window_at(mx, my) {
            Some((_, e)) => Some(e),
            None => None,
        };
        let prev_hovered = self.desktop.start_menu.hovered;
        proof {
            assert(crate::display::start_menu::menu_top(720) == 258) by {
                assert(crate::geometry::usize_as_i32(258) == 258);
            }
        }
        self.desktop.start_menu.hovered = self.desktop.start_menu.tile_at(mx, my, 720);
        let prev_power = self.desktop.start_menu.power_hovered;
        self.desktop.start_menu.power_hovered = self.desktop.start_menu.power_btn_at(mx, my, 720);
        let prev_ctx = self.desktop.context_menu.hovered;
        self.desktop.context_menu.hovered = self.desktop.context_menu.item_at(mx, my);
        let cursor_moved = abs_i32(mx - self.last_cursor_x) > 0 || abs_i32(my - self.last_cursor_y) > 0;
        let hover_changed = self.desktop.hover_edge.is_some() || !opt_usize_eq(self.desktop.context_menu.hovered, prev_ctx)
            || !opt_usize_eq(self.desktop.start_menu.hovered, prev_hovered) || !opt_usize_eq(
            self.desktop.start_menu.power_hovered,
            prev_power,
        );
        if cursor_moved || hover_changed {
            self.last_cursor_x = mx;
            self.last_cursor_y = my;
        }
        reply(true)
    }

    /// A key went down. A focused terminal takes editing keys, history,
    /// completion and typing; the other keys are desktop shortcuts.
    pub fn key_pressed(&mut self, key: Key) -> (r: Reply)
        requires
            key_fits(*old(self), key),
        ensures
            terminal_focused(old(self).desktop.window_manager.windows@) && terminal_key(key)
                ==> terminal_reply(*old(self), *final(self), key, r),
            !(terminal_focused(old(self).desktop.window_manager.windows@) && terminal_key(key))
                ==> shortcut_reply(*old(self), *final(self), key, r),
    {
        let n = self.desktop.window_manager.windows.len();
        if n > 0 {
            let top = &self.desktop.window_manager.windows[n - 1];
            let focused = crate::text::str_eq(top.app.as_str(), "terminal") && !top.minimized;
            let consumes = match &key {
                Key::Super => false,
                Key::F4 => false,
                Key::Other => false,
                _ => true,
            };
            if focused && consumes {
                return self.terminal_key(key);
            }
        }
        self.shortcut_key(key)
    }

    /// An editing key for the focused terminal.
    fn terminal_key(&mut self, key: Key) -> (r: Reply)
        requires
            terminal_focused(old(self).desktop.window_manager.windows@),
            terminal_key(key),
            key_fits(*old(self), key),
        ensures
            terminal_reply(*old(self), *final(self), key, r),
    {
        let ghost ws = self.desktop.window_manager.windows@;
        match key {
            Key::Tab => {
                let n = self.desktop.window_manager.windows.len();
                let w = &self.desktop.window_manager.windows[n - 1];
                let (dir, prefix) = crate::display::terminal_input::completion_request(w);
                return Reply { redraw: true, actions: one(Action::Complete(w.id, dir, prefix)) };
            },
            Key::Character(s) => {
                if self.ctrl_pressed {
                    return reply(false);
                }
                let mut w = self.desktop.window_manager.windows.pop().unwrap();
                crate::display::terminal_input::type_text(&mut w, s.as_str());
                self.desktop.window_manager.windows.push(w);
                assert(self.desktop.window_manager.windows@.drop_last() =~= ws.drop_last());
                return reply(true);
            },
            _ => {},
        }
        let mut w = self.desktop.window_manager.windows.pop().unwrap();
        assert(w == ws.last());
        proof {
            reveal_strlit("exit");
            reveal_strlit("quit");
            reveal_strlit("clear");
        }
        let mut action: Option<Action> = None;
        let mut close = false;
        match key {
            Key::Backspace => crate::display::terminal_input::backspace(&mut w),
            Key::Enter => {
                match crate::display::terminal_input::submit(&mut w) {
                    crate::display::terminal_input::Submit::Done => {},
                    crate::display::terminal_input::Submit::Close => {
                        close = true;
                    },
                    crate::display::terminal_input::Submit::Run(cmd) => {
                        action = Some(Action::RunCommand(w.id, cmd));
                    },
                }
            },
            Key::ArrowUp => crate::display::terminal_input::recall_older(&mut w),
            Key::ArrowDown => crate::display::terminal_input::recall_newer(&mut w),
            _ => crate::display::terminal_input::clear_input(&mut w),
        }
        let id = w.id;
        self.desktop.window_manager.windows.push(w);
        assert(self.desktop.window_manager.windows@.drop_last() =~= ws.drop_last());
        if close {
            let ghost mid = self.desktop.window_manager.windows@;
            self.desktop.window_manager.close_window(id);
            proof {
                lemma_without_top(ws, mid, id);
            }
        }
        Reply { redraw: true, actions: some_or_none(action) }
    }

    /// A desktop shortcut: Super toggles the start menu, Alt+F4 closes the
    /// top window, Alt+Tab steps through the shown windows, Ctrl+C, Ctrl+D
    /// and Ctrl+L act on a focused terminal, and Escape closes the menus.
    fn shortcut_key(&mut self, key: Key) -> (r: Reply)
        requires
            key_fits(*old(self), key),
        ensures
            shortcut_reply(*old(self), *final(self), key, r),
    {
        let ghost ws = self.desktop.window_manager.windows@;
        match key {
            Key::Super => {
                self.desktop.start_menu.toggle();
                reply(true)
            },
            Key::F4 => {
                let n = self.desktop.window_manager.windows.len();
                if self.alt_pressed && n > 0 {
                    let id = self.desktop.window_manager.windows[n - 1].id;
                    self.desktop.window_manager.close_window(id);
                    reply(true)
                } else {
                    reply(false)
                }
            },
            Key::Tab => {
                if !self.alt_pressed {
                    return reply(false);
                }
                let len = shown_window_ids(&self.desktop.window_manager).len();
                if len == 0 {
                    return reply(false);
                }
                if !self.desktop.alt_tab_visible {
                    self.desktop.alt_tab_visible = true;
                    self.desktop.alt_tab_index = 0;
                }
                let i = self.desktop.alt_tab_index;
                self.desktop.alt_tab_index = if self.shift_pressed {
                    (if i == 0 { usize::MAX } else { i - 1 }) % len
                } else {
                    (i + 1) % len
                };
                reply(true)
            },
            Key::Character(s) => {
                if !self.ctrl_pressed {
                    return reply(false);
                }
                let c = s.as_str();
                let n = self.desktop.window_manager.windows.len();
                let focused = n > 0 && crate::text::str_eq(
                    self.desktop.window_manager.windows[n - 1].app.as_str(),
                    "terminal",
                ) && !self.desktop.window_manager.windows[n - 1].minimized;
                if crate::text::str_eq(c, "c") || crate::text::str_eq(c, "C") {
                    if focused {
                        let mut w = self.desktop.window_manager.windows.pop().unwrap();
                        crate::display::terminal_input::interrupt(&mut w);
                        self.desktop.window_manager.windows.push(w);
                        assert(self.desktop.window_manager.windows@.drop_last() =~= ws.drop_last());
                        return reply(true);
                    }
                    reply(false)
                } else if crate::text::str_eq(c, "d") || crate::text::str_eq(c, "D") {
                    if focused {
                        let empty = crate::text::is_empty_str(
                            self.desktop.window_manager.windows[n - 1].input_buffer.as_str(),
                        );
                        if empty {
                            let id = self.desktop.window_manager.windows[n - 1].id;
                            self.desktop.window_manager.close_window(id);
                        } else {
                            let mut w = self.desktop.window_manager.windows.pop().unwrap();
                            crate::display::terminal_input::clear_input(&mut w);
                            self.desktop.window_manager.windows.push(w);
                            assert(self.desktop.window_manager.windows@.drop_last() =~= ws.drop_last());
                        }
                        return reply(true);
                    }
                    reply(false)
                } else if crate::text::str_eq(c, "l") || crate::text::str_eq(c, "L") {
                    if focused {
                        let mut w = self.desktop.window_manager.windows.pop().unwrap();
                        crate::display::terminal_input::clear_screen(&mut w);
                        self.desktop.window_manager.windows.push(w);
                        assert(self.desktop.window_manager.windows@.drop_last() =~= ws.drop_last());
                        return reply(true);
                    }
                    reply(false)
                } else {
                    reply(false)
                }
            },
            Key::Escape => {
                let mut changed = false;
                if self.desktop.start_menu.visible {
                    self.desktop.start_menu.visible = false;
                    changed = true;
                }
                if self.desktop.context_menu.visible {
                    self.desktop.context_menu.close();
                    changed = true;
                }
                reply(changed)
            },
            _ => reply(false),
        }
    }

    /// A command asked for by [`Action::RunCommand`] finished: its result
    /// goes to the output of the topmost window with `id`, the focused one
    /// when the command was asked for, if it is still open.
    pub fn command_finished(&mut self, id: u32, result: crate::display::terminal_input::CommandResult) -> (r: Reply)
        ensures
            only_redraw(r, true),
            ({
                let ws = old(self).desktop.window_manager.windows@;
                let i = last_with_id(ws, id);
                let nws = final(self).desktop.window_manager.windows@;
                &&& nws.len() == ws.len()
                &&& forall|j: int| 0 <= j < ws.len() && j != i ==> nws[j] == ws[j]
                &&& i != -1 ==> {
                    &&& crate::display::terminal_input::term_view(nws[i]) == (crate::display::terminal_input::TermView {
                        output: crate::display::terminal_input::term_view(ws[i]).output
                            + crate::display::terminal_input::result_view(result),
                        ..crate::display::terminal_input::term_view(ws[i])
                    })
                    &&& crate::display::terminal_input::editor_only(ws[i], nws[i])
                }
            }),
            final(self).desktop.window_manager.next_id == old(self).desktop.window_manager.next_id,
            (DesktopState { window_manager: old(self).desktop.window_manager, ..final(self).desktop })
                == old(self).desktop,
            (App { desktop: old(self).desktop, ..*final(self) }) == (App {
                desktop: old(self).desktop,
                ..*old(self)
            }),
    {
        let found = last_index_with_id(&self.desktop.window_manager, id);
        let wm = &mut self.desktop.window_manager;
        match found {
            Some(i) => {
                let ghost before = wm.windows@;
                let mut w = wm.windows.remove(i);
                crate::display::terminal_input::command_result(&mut w, &result);
                wm.windows.insert(i, w);
                proof {
                    crate::window_manager::lemma_remove_insert(before, i as int, w);
                }
            },
            None => {},
        }
        reply(true)
    }

    /// The folder listing asked for by [`Action::Complete`] arrived: the
    /// topmost window with `id` completes its input from `items`.
    pub fn completion_ready(&mut self, id: u32, items: &Vec<crate::explorer_state::DirItem>) -> (r: Reply)
        requires
            ({
                let ws = old(self).desktop.window_manager.windows@;
                let i = last_with_id(ws, id);
                i != -1 ==> crate::display::terminal_input::completion_fits(
                    crate::display::terminal_input::term_view(ws[i]),
                    items@,
                )
            }),
        ensures
            only_redraw(r, true),
            ({
                let ws = old(self).desktop.window_manager.windows@;
                let i = last_with_id(ws, id);
                let nws = final(self).desktop.window_manager.windows@;
                &&& nws.len() == ws.len()
                &&& forall|j: int| 0 <= j < ws.len() && j != i ==> nws[j] == ws[j]
                &&& i != -1 ==> {
                    &&& crate::display::terminal_input::term_view(nws[i])
                        == crate::display::terminal_input::after_completion(
                        crate::display::terminal_input::term_view(ws[i]),
                        crate::display::terminal_input::sort_strs(
                            crate::display::terminal_input::candidates(
                                items@,
                                crate::display::terminal_input::completion_prefix(ws[i].input_buffer@),
                            ),
                        ),
                    )
                    &&& crate::display::terminal_input::editor_only(ws[i], nws[i])
                }
            }),
            final(self).desktop.window_manager.next_id == old(self).desktop.window_manager.next_id,
            (DesktopState { window_manager: old(self).desktop.window_manager, ..final(self).desktop })
                == old(self).desktop,
            (App { desktop: old(self).desktop, ..*final(self) }) == (App {
                desktop: old(self).desktop,
                ..*old(self)
            }),
    {
        let found = last_index_with_id(&self.desktop.window_manager, id);
        let wm = &mut self.desktop.window_manager;
        match found {
            Some(i) => {
                let ghost before = wm.windows@;
                let mut w = wm.windows.remove(i);
                crate::display::terminal_input::complete(&mut w, items);
                wm.windows.insert(i, w);
                proof {
                    crate::window_manager::lemma_remove_insert(before, i as int, w);
                }
            },
            None => {},
        }
        reply(true)
    }

    /// What [`Action::Launch`] asked for was tried, and `started` says
    /// whether it started: see [`launch_settled`].
    pub fn launch_outcome(&mut self, plan: LaunchPlan, started: bool, env: &HostEnv) -> (r: Reply)
        requires
            falls_back(plan_view(plan).0) && !started ==> old(self).desktop.window_manager.next_id < u32::MAX,
        ensures
            launch_settled(old(self).desktop, final(self).desktop, plan_view(plan), started, env, r),
            (App { desktop: old(self).desktop, ..*final(self) }) == (App {
                desktop: old(self).desktop,
                ..*old(self)
            }),
    {
        if started {
            return reply(false);
        }
        let spec = match plan {
            LaunchPlan::Electron(spec) => spec,
            LaunchPlan::Docs(spec) => spec,
            LaunchPlan::Url(_, spec) => spec,
            _ => {
                return reply(false);
            },
        };
        self.desktop.window_manager.create_window(spec.title, spec.app, spec.width, spec.height, env);
        reply(true)
    }

    /// Launches `exe`: see [`launched`].
    fn launch(&mut self, exe: &str, env: &HostEnv) -> (acts: Vec<Action>)
        requires
            plan_for(exe@).0 == 0 ==> old(self).desktop.window_manager.next_id < u32::MAX,
        ensures
            launched(old(self).desktop.window_manager, final(self).desktop.window_manager, acts@, exe@, env),
            (DesktopState { window_manager: old(self).desktop.window_manager, ..final(self).desktop })
                == old(self).desktop,
            (App { desktop: old(self).desktop, ..*final(self) }) == (App {
                desktop: old(self).desktop,
                ..*old(self)
            }),
    {
        let plan = self.desktop.application_manager.launch_plan(exe);
        match plan {
            LaunchPlan::Open(spec) => {
                self.desktop.window_manager.create_window(spec.title, spec.app, spec.width, spec.height, env);
                let acts: Vec<Action> = Vec::new();
                assert(acts@.len() == 0);
                acts
            },
            _ => one(Action::Launch(plan)),
        }
    }

    /// The left button went down while the context menu is open: the line
    /// under the pointer, if any, does its action on the menu's target, and
    /// the menu closes.
    pub fn press_context_menu(&mut self, env: &HostEnv) -> (r: Reply)
        requires
            old(self).desktop.context_menu.visible,
            ctx_press_fits(old(self).desktop),
        ensures
            only_redraw(r, true),
            ctx_pressed(old(self).desktop, final(self).desktop, env, r),
            (App { desktop: old(self).desktop, ..*final(self) }) == (App {
                desktop: old(self).desktop,
                ..*old(self)
            }),
    {
        let mx = self.desktop.cursor.x;
        let my = self.desktop.cursor.y;
        proof {
            reveal_strlit("terminal");
            reveal_strlit("explorer");
            reveal_strlit("browser");
            assert("terminal"@ != "explorer"@) by {
                assert("terminal"@[0] != "explorer"@[0]);
            }
            assert("terminal"@ != "browser"@) by {
                assert("terminal"@[0] != "browser"@[0]);
            }
            assert(plan_for("terminal"@).0 == 0);
            assert(plan_for("explorer"@).0 == 0);
        }
        match self.desktop.context_menu.item_at(mx, my) {
            Some(idx) => {
                let action = self.desktop.context_menu.items[idx].action.clone();
                let target = self.desktop.context_menu.target;
                self.desktop.context_menu.close();
                let a = action.as_str();
                if crate::text::str_eq(a, "open_terminal") {
                    let acts = self.launch("terminal", env);
                    assert(acts@ =~= Seq::<Action>::empty());
                } else if crate::text::str_eq(a, "open_explorer") || crate::text::str_eq(a, "new_folder") {
                    let acts = self.launch("explorer", env);
                    assert(acts@ =~= Seq::<Action>::empty());
                } else {
                    match target {
                        ContextTarget::Window(id) => {
                            if crate::text::str_eq(a, "close") {
                                self.desktop.window_manager.close_window(id);
                            } else if crate::text::str_eq(a, "maximize") || crate::text::str_eq(a, "restore") {
                                self.desktop.window_manager.toggle_maximize(id);
                            }
                        },
                        ContextTarget::Desktop => {},
                    }
                }
            },
            None => {
                self.desktop.context_menu.close();
            },
        }
        reply(true)
    }

    /// The left button went down on the title bar of window `id`: its
    /// close, maximise and minimise buttons act at once; a double click on
    /// the bar toggles maximise; then a press on an edge starts a resize,
    /// and any other press raises the window and starts dragging it.
    pub fn press_window(&mut self, id: u32, now: u64) -> (r: Reply)
        requires
            press_window_fits(old(self).desktop, id, now),
        ensures
            press_window_reply(old(self).desktop, final(self).desktop, id, now, r),
            (App { desktop: old(self).desktop, ..*final(self) }) == (App {
                desktop: old(self).desktop,
                ..*old(self)
            }),
    {
        let cx = self.desktop.cursor.x;
        let cy = self.desktop.cursor.y;
        let i = match self.desktop.window_manager.position_of(id) {
            Some(i) => i,
            None => {
                assert(false);
                return reply(false);
            },
        };
        let hit = title_hit_of(&self.desktop.window_manager.windows[i], cx, cy);
        match hit {
            TitleHit::Close => {
                self.desktop.window_manager.close_window(id);
                Reply { redraw: true, actions: one(Action::RemoveWebview(id)) }
            },
            TitleHit::Maximize => {
                self.desktop.window_manager.toggle_maximize(id);
                reply(true)
            },
            TitleHit::Minimize => {
                self.desktop.window_manager.minimize_window(id);
                Reply { redraw: true, actions: one(Action::SetWebviewVisible(id, false)) }
            },
            TitleHit::Bar => {
                self.title_click(id, now, true);
                self.grab_window(id);
                reply(false)
            },
            TitleHit::Other => {
                self.title_click(id, now, false);
                self.grab_window(id);
                reply(false)
            },
        }
    }

    /// A click on the title bar of `id` (when `bar`): a second click within
    /// 400 ms toggles maximise and forgets the click; otherwise the click is
    /// remembered.
    fn title_click(&mut self, id: u32, now: u64, bar: bool)
        ensures
            ({
                let d = old(self).desktop;
                let dbl = bar && title_double(d, id, now);
                &&& final(self).desktop.window_manager.windows@ == title_clicked(d, id, now, bar)
                &&& final(self).desktop.window_manager.next_id == d.window_manager.next_id
                &&& (DesktopState { window_manager: d.window_manager, ..final(self).desktop }) == (DesktopState {
                    last_title_click: if !bar { d.last_title_click } else if dbl { None } else { Some(now) },
                    last_title_click_id: if !bar { d.last_title_click_id } else if dbl { None } else { Some(id) },
                    ..d
                })
            }),
            (App { desktop: old(self).desktop, ..*final(self) }) == (App {
                desktop: old(self).desktop,
                ..*old(self)
            }),
    {
        if bar {
            let same = match self.desktop.last_title_click_id {
                Some(l) => l == id,
                None => false,
            };
            let double = same && match self.desktop.last_title_click {
                Some(t) => (if now >= t { now - t } else { 0 }) < 400,
                None => false,
            };
            if double {
                self.desktop.window_manager.toggle_maximize(id);
                self.desktop.last_title_click = None;
                self.desktop.last_title_click_id = None;
            } else {
                self.desktop.last_title_click = Some(now);
                self.desktop.last_title_click_id = Some(id);
            }
        }
    }

    /// A press on window `id` past its buttons: on an edge of the last window
    /// with `id` it starts resizing; elsewhere it starts dragging. Either way
    /// the window is raised.
    fn grab_window(&mut self, id: u32)
        requires
            grab_fits_at(old(self).desktop, id),
        ensures
            grabbed(old(self).desktop, final(self).desktop, id),
            (App { desktop: old(self).desktop, ..*final(self) }) == (App {
                desktop: old(self).desktop,
                ..*old(self)
            }),
    {
        let cx = self.desktop.cursor.x;
        let cy = self.desktop.cursor.y;
        let edge = match last_index_with_id(&self.desktop.window_manager, id) {
            Some(j) => WindowManager::resize_edge_at(&self.desktop.window_manager.windows[j], cx, cy),
            None => None,
        };
        match edge {
            Some(e) => {
                match self.desktop.window_manager.position_of(id) {
                    Some(k) => {
                        let w = &self.desktop.window_manager.windows[k];
                        self.desktop.resizing_window = Some(id);
                        self.desktop.resize_edge = Some(e);
                        self.desktop.resize_start_mx = cx;
                        self.desktop.resize_start_my = cy;
                        self.desktop.resize_start_wx = w.x;
                        self.desktop.resize_start_wy = w.y;
                        self.desktop.resize_start_w = w.width;
                        self.desktop.resize_start_h = w.height;
                    },
                    None => {},
                }
                self.desktop.window_manager.bring_to_front(id);
            },
            None => {
                self.desktop.window_manager.bring_to_front(id);
                let wm = &mut self.desktop.window_manager;
                match wm.position_of(id) {
                    Some(k) => {
                        let ghost before = wm.windows@;
                        let mut w = wm.windows.remove(k);
                        self.desktop.drag_offset_x = cx - w.x;
                        self.desktop.drag_offset_y = cy - w.y;
                        w.dragging = true;
                        wm.windows.insert(k, w);
                        proof {
                            crate::window_manager::lemma_remove_insert(before, k as int, w);
                        }
                    },
                    None => {},
                }
                self.desktop.dragging_window = Some(id);
            },
        }
    }

    /// The left button went down on the desktop: every icon is deselected,
    /// and the first icon under the pointer, if any, is selected and
    /// remembers the click; a second click within 500 ms launches its app.
    /// Says `None` when no icon was hit.
    pub fn press_icons(&mut self, now: u64, env: &HostEnv) -> (r: Option<Reply>)
        requires
            icons_fit(old(self).desktop),
            icon_press_opens(old(self).desktop, now) ==> old(self).desktop.window_manager.next_id < u32::MAX,
        ensures
            icons_pressed(old(self).desktop, final(self).desktop, now, env, r),
            (App { desktop: old(self).desktop, ..*final(self) }) == (App {
                desktop: old(self).desktop,
                ..*old(self)
            }),
    {
        let cx = self.desktop.cursor.x;
        let cy = self.desktop.cursor.y;
        let ghost icons = self.desktop.desktop_icons@;
        let n = self.desktop.desktop_icons.len();
        let mut j: usize = 0;
        while j < n
            invariant
                j <= n == icons.len(),
                self.desktop.desktop_icons@.len() == n,
                forall|m: int| 0 <= m < j ==> self.desktop.desktop_icons@[m] == #[trigger] clicked_icons(icons, -1, now)[m],
                forall|m: int| j <= m < n ==> self.desktop.desktop_icons@[m] == icons[m],
                (DesktopState { desktop_icons: old(self).desktop.desktop_icons, ..self.desktop }) == old(self).desktop,
                (App { desktop: old(self).desktop, ..*self }) == (App { desktop: old(self).desktop, ..*old(self) }),
            decreases n - j,
        {
            let ghost before = self.desktop.desktop_icons@;
            let mut ic = self.desktop.desktop_icons.remove(j);
            ic.selected = false;
            self.desktop.desktop_icons.insert(j, ic);
            proof {
                crate::window_manager::lemma_remove_insert(before, j as int, ic);
            }
            j = j + 1;
        }
        let ghost cleared = self.desktop.desktop_icons@;
        assert(cleared =~= clicked_icons(icons, -1, now));
        let ghost p = |ic: crate::desktop_icon::DesktopIcon| crate::desktop_icon::icon_contains(ic.x as int, ic.y as int, cx as int, cy as int);
        let mut k: usize = 0;
        while k < n
            invariant
                k <= n == icons.len(),
                self.desktop.desktop_icons@ == cleared,
                cleared == clicked_icons(icons, -1, now),
                icons_fit(old(self).desktop),
                icon_press_opens(old(self).desktop, now) ==> old(self).desktop.window_manager.next_id < u32::MAX,
                icons == old(self).desktop.desktop_icons@,
                cx == old(self).desktop.cursor.x,
                cy == old(self).desktop.cursor.y,
                (DesktopState { desktop_icons: old(self).desktop.desktop_icons, ..self.desktop }) == old(self).desktop,
                (App { desktop: old(self).desktop, ..*self }) == (App { desktop: old(self).desktop, ..*old(self) }),
                forall|m: int| 0 <= m < k ==> !crate::desktop_icon::icon_contains(#[trigger] icons[m].x as int, icons[m].y as int, cx as int, cy as int),
            decreases n - k,
        {
            assert(icon_fits(icons[k as int], cx as int, cy as int));
            if self.desktop.desktop_icons[k].contains(cx, cy) {
                proof {
                    lemma_icon_under(icons, cx as int, cy as int, k as int);
                }
                let ghost before = self.desktop.desktop_icons@;
                let mut ic = self.desktop.desktop_icons.remove(k);
                ic.selected = true;
                let double = match ic.last_click {
                    Some(t) => (if now >= t { now - t } else { 0 }) < 500,
                    None => false,
                };
                ic.last_click = Some(now);
                let app_name = ic.app_name.clone();
                self.desktop.desktop_icons.insert(k, ic);
                proof {
                    crate::window_manager::lemma_remove_insert(before, k as int, ic);
                    assert(self.desktop.desktop_icons@ =~= clicked_icons(icons, k as int, now));
                }
                let actions = if double {
                    self.launch(app_name.as_str(), env)
                } else {
                    let v: Vec<Action> = Vec::new();
                    v
                };
                return Some(Reply { redraw: true, actions });
            }
            k = k + 1;
        }
        proof {
            lemma_icon_under_none(icons, cx as int, cy as int);
        }
        None
    }

    /// The left button went down on a window's body: the topmost window
    /// under the pointer is raised, and a click in a file browser or the
    /// settings acts there. Redraws when a window was hit.
    pub fn press_body(&mut self, env: &HostEnv) -> (r: Reply)
        requires
            windows_fit(old(self).desktop.window_manager.windows@),
            body_fits(old(self).desktop),
        ensures
            body_pressed(old(self).desktop, final(self).desktop, env, r),
            (App { desktop: old(self).desktop, ..*final(self) }) == (App {
                desktop: old(self).desktop,
                ..*old(self)
            }),
    {
        let cx = self.desktop.cursor.x;
        let cy = self.desktop.cursor.y;
        let ghost ws = self.desktop.window_manager.windows@;
        proof {
            lemma_last_where(ws, |w: Window| crate::window_manager::on_window(w, cx as int, cy as int));
        }
        let id = match self.desktop.window_manager.window_body_at(cx, cy) {
            Some(id) => id,
            None => {
                return reply(false);
            },
        };
        proof {
            lemma_first_with_id(ws, id);
        }
        self.desktop.window_manager.bring_to_front(id);
        let ghost rs = self.desktop.window_manager.windows@;
        let mut w = self.desktop.window_manager.windows.pop().unwrap();
        assert(w == rs.last());
        let x0 = w.x as usize;
        let y0 = w.y as usize;
        let cxu = cx as usize;
        let cyu = cy as usize;
        let mut actions = no_actions();
        proof {
            reveal_strlit("explorer");
            reveal_strlit("settings");
            assert("explorer"@ != "settings"@) by {
                assert("explorer"@[0] != "settings"@[0]);
            }
        }
        if crate::text::str_eq(w.app.as_str(), "explorer") {
            match w.explorer.take() {
                Some(mut e) => {
                    let hit = crate::display::window_clicks::explorer_hit(x0, y0, cxu, cyu, e.scroll_offset);
                    actions = explorer_click(&mut e, w.id, hit, &env.home_var);
                    w.explorer = Some(e);
                },
                None => {},
            }
        } else if crate::text::str_eq(w.app.as_str(), "settings") {
            match w.settings.take() {
                Some(mut st) => {
                    let hit = crate::display::window_clicks::settings_hit(x0, y0, cxu, cyu, st.active_section);
                    actions = settings_click(&mut st, hit);
                    w.settings = Some(st);
                },
                None => {},
            }
        }
        self.desktop.window_manager.windows.push(w);
        assert(self.desktop.window_manager.windows@.drop_last() =~= rs.drop_last());
        Reply { redraw: true, actions }
    }

    /// The left button went down on the taskbar's window buttons (one per
    /// window, at most three): a minimised window is restored and its web
    /// view shown, the focused one is minimised, another is raised. Says
    /// `None` when no button was hit.
    pub fn press_taskbar(&mut self) -> (r: Option<Reply>)
        requires
            old(self).desktop.window_manager.windows@.len() <= i32::MAX,
        ensures
            taskbar_pressed(old(self).desktop, final(self).desktop, r),
            (App { desktop: old(self).desktop, ..*final(self) }) == (App {
                desktop: old(self).desktop,
                ..*old(self)
            }),
    {
        let cx = self.desktop.cursor.x;
        let cy = self.desktop.cursor.y;
        if !(cy >= 680 && cy <= 712) {
            return None;
        }
        let n = self.desktop.window_manager.windows.len();
        let mut i: usize = 0;
        while i < n && i < 3
            invariant
                i <= 3,
                n == self.desktop.window_manager.windows@.len(),
                680 <= cy <= 712,
                cx == old(self).desktop.cursor.x,
                cy == old(self).desktop.cursor.y,
                *self == *old(self),
                i <= n || n < 3 || i <= 3,
                forall|j: int| 0 <= j < i ==> !#[trigger] on_taskbar_button(cx as int, j),
            decreases 3 - i,
        {
            let bx: i32 = 710 + (i as i32) * 116;
            assert(bx == 710 + 116 * i);
            if cx >= bx && cx <= bx + 110 {
                assert(on_taskbar_button(cx as int, i as int));
                let w = &self.desktop.window_manager.windows[i];
                let id = w.id;
                if w.minimized {
                    self.desktop.window_manager.restore_window(id);
                    return Some(Reply { redraw: true, actions: one(Action::SetWebviewVisible(id, true)) });
                } else if w.active {
                    self.desktop.window_manager.minimize_window(id);
                } else {
                    self.desktop.window_manager.bring_to_front(id);
                }
                return Some(reply(true));
            }
            i = i + 1;
        }
        proof {
            if i > 0 {
                assert(!on_taskbar_button(cx as int, 0));
            }
            if i > 1 {
                assert(!on_taskbar_button(cx as int, 1));
            }
            if i > 2 {
                assert(!on_taskbar_button(cx as int, 2));
            }
        }
        None
    }

    /// The left button went down on the taskbar's pinned app buttons: an
    /// app with no window is launched; otherwise its last window is
    /// minimised if one of its windows has focus, else restored. Says
    /// `None` when no button was hit.
    pub fn press_pinned(&mut self, env: &HostEnv) -> (r: Option<Reply>)
        requires
            pinned_press_opens(old(self).desktop) ==> old(self).desktop.window_manager.next_id < u32::MAX,
        ensures
            pinned_pressed(old(self).desktop, final(self).desktop, env, r),
            (App { desktop: old(self).desktop, ..*final(self) }) == (App {
                desktop: old(self).desktop,
                ..*old(self)
            }),
    {
        let cx = self.desktop.cursor.x as usize;
        let cy = self.desktop.cursor.y as usize;
        if !(cy >= 684 && cy < 720) {
            return None;
        }
        let mut k: usize = 0;
        while k < 6
            invariant
                k <= 6,
                cx == old(self).desktop.cursor.x as usize,
                684 <= cy < 720,
                cy == old(self).desktop.cursor.y as usize,
                *self == *old(self),
                pinned_press_opens(old(self).desktop) ==> old(self).desktop.window_manager.next_id < u32::MAX,
                forall|j: int| 0 <= j < k ==> !#[trigger] on_pinned_button(cx as int, j),
            decreases 6 - k,
        {
            let bx = 534 + k * 36;
            assert(bx == 534 + 36 * k);
            if cx >= bx && cx < bx + 32 {
                assert(on_pinned_button(cx as int, k as int));
                proof {
                    assert(0 < k ==> !on_pinned_button(cx as int, 0));
                    assert(1 < k ==> !on_pinned_button(cx as int, 1));
                    assert(2 < k ==> !on_pinned_button(cx as int, 2));
                    assert(3 < k ==> !on_pinned_button(cx as int, 3));
                    assert(4 < k ==> !on_pinned_button(cx as int, 4));
                    assert(pinned_slot(cx as int, cy as int) == Some(k as int));
                }
                return Some(self.pin_click(k, env));
            }
            k = k + 1;
        }
        proof {
            assert(!on_pinned_button(cx as int, 0));
            assert(!on_pinned_button(cx as int, 1));
            assert(!on_pinned_button(cx as int, 2));
            assert(!on_pinned_button(cx as int, 3));
            assert(!on_pinned_button(cx as int, 4));
            assert(!on_pinned_button(cx as int, 5));
        }
        None
    }

    /// Pinned button `k` was clicked: see [`App::press_pinned`].
    fn pin_click(&mut self, k: usize, env: &HostEnv) -> (r: Reply)
        requires
            k < 6,
            app_window_ids(old(self).desktop.window_manager.windows@, pinned_app(k as int)).len() == 0
                && plan_for(pinned_app(k as int)).0 == 0 ==> old(self).desktop.window_manager.next_id < u32::MAX,
        ensures
            ({
                let d = old(self).desktop;
                let ws = d.window_manager.windows@;
                let nd = final(self).desktop;
                let app = pinned_app(k as int);
                let open = app_window_ids(ws, app);
                &&& (DesktopState { window_manager: d.window_manager, ..nd }) == d
                &&& r.redraw
                &&& if open.len() == 0 {
                    launched(d.window_manager, nd.window_manager, r.actions@, app, env)
                } else {
                    &&& r.actions@.len() == 0
                    &&& nd.window_manager.next_id == d.window_manager.next_id
                    &&& nd.window_manager.windows@ == if app_has_focus(ws, app) {
                        crate::window_manager::minimized_stack(ws, open.last())
                    } else {
                        raised(
                            update_first(ws, open.last(), |x: Window| Window { minimized: false, ..x }),
                            open.last(),
                        )
                    }
                }
            }),
            (App { desktop: old(self).desktop, ..*final(self) }) == (App {
                desktop: old(self).desktop,
                ..*old(self)
            }),
    {
        let app = pinned_app_name(k);
        let open = window_ids_of_app(&self.desktop.window_manager, app);
        if open.len() == 0 {
            let acts = self.launch(app, env);
            return Reply { redraw: true, actions: acts };
        }
        let last = open[open.len() - 1];
        if app_focused(&self.desktop.window_manager, app) {
            self.desktop.window_manager.minimize_window(last);
        } else {
            self.desktop.window_manager.restore_window(last);
        }
        reply(true)
    }

    /// The left button went down while the start menu shows: a power button
    /// hides the menu and asks for its power action; a tile launches its
    /// app, hides the menu and forgets the hover; a click elsewhere hides
    /// the menu.
    pub fn press_start_menu(&mut self, env: &HostEnv) -> (r: Reply)
        requires
            old(self).desktop.start_menu.visible,
            crate::display::start_menu::tile_scan_fits(
                old(self).desktop.start_menu.entries@.len() as int,
                old(self).desktop.cursor.x as int,
                old(self).desktop.cursor.y as int,
                crate::display::start_menu::menu_top(720),
            ),
            menu_press_opens(old(self).desktop) ==> old(self).desktop.window_manager.next_id < u32::MAX,
        ensures
            start_menu_pressed(old(self).desktop, final(self).desktop, env, r),
            (App { desktop: old(self).desktop, ..*final(self) }) == (App {
                desktop: old(self).desktop,
                ..*old(self)
            }),
    {
        let cx = self.desktop.cursor.x;
        let cy = self.desktop.cursor.y;
        proof {
            assert(crate::display::start_menu::menu_top(720) == 258) by {
                assert(crate::geometry::usize_as_i32(258) == 258);
            }
        }
        match self.desktop.start_menu.power_btn_at(cx, cy, 720) {
            Some(p) => {
                self.desktop.start_menu.visible = false;
                return Reply { redraw: true, actions: one(Action::Power(p)) };
            },
            None => {},
        }
        match self.desktop.start_menu.tile_at(cx, cy, 720) {
            Some(t) => {
                let exe = self.desktop.start_menu.entries[t].executable.clone();
                let mut acts = self.launch(exe.as_str(), env);
                let ghost launch_acts = acts@;
                let plan = match acts.pop() {
                    Some(Action::Launch(p)) => Some(p),
                    _ => None,
                };
                proof {
                    if launch_acts.len() == 1 {
                        assert(launch_acts =~= seq![launch_acts[0]]);
                    } else {
                        assert(launch_acts.len() == 0);
                    }
                    assert(match plan {
                        Some(p) => launch_acts == seq![Action::Launch(p)],
                        None => launch_acts.len() == 0,
                    });
                }
                self.desktop.start_menu.visible = false;
                self.desktop.start_menu.hovered = None;
                let r = Reply { redraw: true, actions: one(Action::MenuLaunch(plan)) };
                proof {
                    assert(exe@ == old(self).desktop.start_menu.entries@[t as int].executable@);
                    assert(launched(old(self).desktop.window_manager, self.desktop.window_manager, launch_acts, exe@, env));
                    assert(r.actions@[0] matches Action::MenuLaunch(op) && (match op {
                        Some(p) => launch_acts == seq![Action::Launch(p)],
                        None => launch_acts.len() == 0,
                    }));
                }
                r
            },
            None => {
                self.desktop.start_menu.visible = false;
                reply(true)
            },
        }
    }

    /// The left button went down at time `now`. In turn: an open context
    /// menu takes the click; a window's title bar takes it; a desktop icon
    /// takes it; then a window body under the pointer is raised and acts on
    /// the click, and the start button, a toast, the taskbar's window
    /// buttons, its pinned apps and the start menu get their say, the first
    /// of them that is hit ending the turn.
    pub fn left_press(&mut self, now: u64, env: &HostEnv) -> (r: Reply)
        requires
            press_fits(old(self).desktop, now),
        ensures
            left_pressed(old(self).desktop, final(self).desktop, now, env, r),
            (App { desktop: old(self).desktop, ..*final(self) }) == (App {
                desktop: old(self).desktop,
                ..*old(self)
            }),
    {
        if self.desktop.context_menu.visible {
            return self.press_context_menu(env);
        }
        let cx = self.desktop.cursor.x;
        let cy = self.desktop.cursor.y;
        match self.desktop.window_manager.window_at(cx, cy) {
            Some(id) => {
                return self.press_window(id, now);
            },
            None => {},
        }
        self.press_desktop(now, env)
    }

    /// A left press that hit no context menu and no title bar: see
    /// [`App::left_press`].
    #[verifier::rlimit(50)]
    fn press_desktop(&mut self, now: u64, env: &HostEnv) -> (r: Reply)
        requires
            windows_fit(old(self).desktop.window_manager.windows@),
            icons_fit(old(self).desktop),
            body_fits(old(self).desktop),
            rest_fits(old(self).desktop),
        ensures
            desktop_pressed(old(self).desktop, final(self).desktop, now, env, r),
            (App { desktop: old(self).desktop, ..*final(self) }) == (App {
                desktop: old(self).desktop,
                ..*old(self)
            }),
    {
        let ghost d0 = self.desktop;
        match self.press_icons(now, env) {
            Some(r) => {
                assert(icons_pressed(d0, self.desktop, now, env, Some(r)));
                return r;
            },
            None => {},
        }
        let ghost d1 = self.desktop;
        assert(icons_pressed(d0, d1, now, env, None));
        let body = self.press_body(env);
        let ghost d2 = self.desktop;
        let ghost rb = body;
        assert(body_pressed(d1, d2, env, rb));
        proof {
            let ws = d1.window_manager.windows@;
            let i = body_target(ws, d1.cursor.x as int, d1.cursor.y as int);
            if i != -1 {
                lemma_raised_len(ws, ws[i].id);
            }
            lemma_rest_fits_kept(d0, d2);
        }
        let rest = self.press_rest(body, env);
        assert(rest_pressed(d2, self.desktop, env, rb, rest));
        rest
    }

    /// The part of a left press after the window bodies: see
    /// [`App::left_press`].
    fn press_rest(&mut self, body: Reply, env: &HostEnv) -> (r: Reply)
        requires
            rest_fits(old(self).desktop),
        ensures
            rest_pressed(old(self).desktop, final(self).desktop, env, body, r),
            (App { desktop: old(self).desktop, ..*final(self) }) == (App {
                desktop: old(self).desktop,
                ..*old(self)
            }),
    {
        let cx = self.desktop.cursor.x;
        let cy = self.desktop.cursor.y;
        let mut actions = body.actions;
        if cx >= 15 && cx <= 45 && cy >= 680 && cy <= 710 {
            self.desktop.start_menu.toggle();
            return Reply { redraw: true, actions };
        }
        proof {
            let ts = self.desktop.notifications.toasts@;
            assert forall|i: int|
                0 <= i < ts.len() && crate::display::notification::no_hit_before(
                    i,
                    cx as int,
                    cy as int,
                    1280,
                    720,
                ) implies crate::display::notification::scan_fits(i, cx as int, cy as int, 1280, 720) by {
                crate::display::notification::lemma_screen_scan_fits(i, cx as int, cy as int);
            }
        }
        if self.desktop.notifications.dismiss_at(cx, cy, 1280, 720) {
            return Reply { redraw: true, actions };
        }
        let ghost d0 = self.desktop;
        let ghost acts0 = actions@;
        match self.press_taskbar() {
            Some(mut t) => {
                let ghost t0 = t;
                actions.append(&mut t.actions);
                proof {
                    assert(taskbar_pressed(d0, self.desktop, Some(t0)));
                }
                return Reply { redraw: true, actions };
            },
            None => {},
        }
        assert(self.desktop == d0);
        match self.press_pinned(env) {
            Some(mut t) => {
                let ghost t0 = t;
                actions.append(&mut t.actions);
                proof {
                    assert(pinned_pressed(d0, self.desktop, env, Some(t0)));
                }
                return Reply { redraw: true, actions };
            },
            None => {},
        }
        assert(self.desktop == d0);
        if self.desktop.start_menu.visible {
            proof {
                crate::display::start_menu::lemma_tile_scan_fits(
                    self.desktop.start_menu.entries@.len() as int,
                    cx as int,
                    cy as int,
                    crate::display::start_menu::menu_top(720),
                );
            }
            let mut t = self.press_start_menu(env);
            let ghost t0 = t;
            actions.append(&mut t.actions);
            proof {
                assert(start_menu_pressed(d0, self.desktop, env, t0));
            }
            return Reply { redraw: true, actions };
        }
        Reply { redraw: body.redraw, actions }
    }

    /// The listing asked for by [`Action::ListFolder`] arrived (`None` when
    /// the folder cannot be read): the file browser of the topmost window
    /// with `id` shows it.
    pub fn folder_listed(&mut self, id: u32, listing: &Option<Vec<crate::explorer_state::DirItem>>) -> (r: Reply)
        ensures
            only_redraw(r, true),
            ({
                let ws = old(self).desktop.window_manager.windows@;
                let i = last_with_id(ws, id);
                let nws = final(self).desktop.window_manager.windows@;
                &&& nws.len() == ws.len()
                &&& forall|j: int| 0 <= j < ws.len() && j != i ==> nws[j] == ws[j]
                &&& i != -1 ==> {
                    &&& (Window { explorer: ws[i].explorer, ..nws[i] }) == ws[i]
                    &&& match ws[i].explorer {
                        Some(e) => nws[i].explorer matches Some(n) && {
                            &&& crate::explorer_state::rows_of(n.entries@) == match *listing {
                                Some(items) => crate::explorer_state::listing_rows(items@),
                                None => Seq::empty(),
                            }
                            &&& n == (ExplorerState { entries: n.entries, selected: None, ..e })
                        },
                        None => nws[i].explorer is None,
                    }
                }
            }),
            final(self).desktop.window_manager.next_id == old(self).desktop.window_manager.next_id,
            (DesktopState { window_manager: old(self).desktop.window_manager, ..final(self).desktop })
                == old(self).desktop,
            (App { desktop: old(self).desktop, ..*final(self) }) == (App {
                desktop: old(self).desktop,
                ..*old(self)
            }),
    {
        let found = last_index_with_id(&self.desktop.window_manager, id);
        let wm = &mut self.desktop.window_manager;
        match found {
            Some(i) => {
                let ghost before = wm.windows@;
                let mut w = wm.windows.remove(i);
                match w.explorer.take() {
                    Some(mut e) => {
                        e.refresh(listing);
                        w.explorer = Some(e);
                    },
                    None => {},
                }
                wm.windows.insert(i, w);
                proof {
                    crate::window_manager::lemma_remove_insert(before, i as int, w);
                }
            },
            None => {},
        }
        reply(true)
    }

    /// The web view to show after a launch from the start menu: the top
    /// window's id, app and geometry, when its app is a web app.
    pub fn web_target(&self) -> (r: Option<(u32, String, i32, i32, u32, u32)>)
        ensures
            ({
                let ws = self.desktop.window_manager.windows@;
                match r {
                    Some((id, app, x, y, w, h)) => {
                        let t = ws.last();
                        &&& ws.len() > 0
                        &&& is_web_app(t.app@)
                        &&& id == t.id && app@ == t.app@ && x == t.x && y == t.y && w == t.width && h == t.height
                    },
                    None => ws.len() == 0 || !is_web_app(ws.last().app@),
                }
            }),
    {
        let n = self.desktop.window_manager.windows.len();
        if n == 0 {
            return None;
        }
        let t = &self.desktop.window_manager.windows[n - 1];
        let a = t.app.as_str();
        if crate::text::str_eq(a, "browser") || crate::text::str_eq(a, "tridocs") || crate::text::str_eq(a, "trisheets")
            || crate::text::str_eq(a, "trislides") || crate::text::str_eq(a, "tridraw") {
            Some((t.id, t.app.clone(), t.x, t.y, t.width, t.height))
        } else {
            None
        }
    }

    /// The wheel turned by `lines_delta` lines (positive scrolls back): the
    /// topmost shown window under the pointer scrolls, if there is one.
    pub fn wheel(&mut self, lines_delta: i32) -> (r: Reply)
        requires
            lines_delta != i32::MIN,
            windows_fit(old(self).desktop.window_manager.windows@),
            forall|k: int| 0 <= k < old(self).desktop.window_manager.windows@.len()
                ==> wheel_fits(#[trigger] old(self).desktop.window_manager.windows@[k], lines_delta),
        ensures
            ({
                let ws = old(self).desktop.window_manager.windows@;
                let i = wheel_target(ws, old(self).desktop.cursor.x as int, old(self).desktop.cursor.y as int);
                &&& only_redraw(r, i != -1)
                &&& final(self).desktop.window_manager.windows@ == if i == -1 {
                    ws
                } else {
                    ws.update(i, wheel_window(ws[i], lines_delta))
                }
            }),
            final(self).desktop.window_manager.next_id == old(self).desktop.window_manager.next_id,
            (DesktopState { window_manager: old(self).desktop.window_manager, ..final(self).desktop })
                == old(self).desktop,
            (App { desktop: old(self).desktop, ..*final(self) }) == (App {
                desktop: old(self).desktop,
                ..*old(self)
            }),
    {
        let cx = self.desktop.cursor.x;
        let cy = self.desktop.cursor.y;
        let ghost ws = self.desktop.window_manager.windows@;
        let ghost p = |w: Window| !w.minimized && crate::window_manager::on_window(w, cx as int, cy as int);
        proof {
            lemma_last_where(ws, p);
        }
        let mut k = self.desktop.window_manager.windows.len();
        while k > 0
            invariant
                k <= ws.len(),
                ws == self.desktop.window_manager.windows@,
                p == (|w: Window| !w.minimized && crate::window_manager::on_window(w, cx as int, cy as int)),
                forall|j: int| k <= j < ws.len() ==> !p(#[trigger] ws[j]),
                windows_fit(ws),
            ensures
                k <= ws.len(),
                k == 0 ==> forall|j: int| 0 <= j < ws.len() ==> !p(#[trigger] ws[j]),
                k > 0 ==> last_where(ws, p) == k - 1,
            decreases k,
        {
            let w = &self.desktop.window_manager.windows[k - 1];
            proof {
                assert(edges_fit(ws[k - 1]));
            }
            if !w.minimized && cx >= w.x && cx <= w.x + crate::geometry::cast_u32_i32(w.width) && cy >= w.y
                && cy <= w.y + crate::geometry::cast_u32_i32(w.height) {
                assert(p(ws[k - 1]));
                assert(last_where(ws, p) == k - 1);
                break;
            }
            k = k - 1;
        }
        if k == 0 {
            return reply(false);
        }
        let i = k - 1;
        let wm = &mut self.desktop.window_manager;
        let mut w = wm.windows.remove(i);
        assert(w == ws[i as int]);
        assert(wheel_fits(w, lines_delta));
        if crate::text::str_eq(w.app.as_str(), "terminal") {
            let max = sat_sub_usize(w.output_lines.len(), 3);
            w.scroll_offset = scroll(w.scroll_offset, lines_delta, max);
        } else if crate::text::str_eq(w.app.as_str(), "explorer") {
            match w.explorer.take() {
                Some(mut e) => {
                    let max = sat_sub_usize(e.entries.len(), 5);
                    e.scroll_offset = scroll(e.scroll_offset, lines_delta, max);
                    w.explorer = Some(e);
                },
                None => {},
            }
        }
        wm.windows.insert(i, w);
        proof {
            crate::window_manager::lemma_remove_insert(ws, i as int, w);
        }
        reply(true)
    }
}

} // verus!
