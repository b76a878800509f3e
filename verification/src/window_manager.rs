//! The window manager: snap zones, resize edges, the stack of windows and the
//! operations that move, resize, focus, minimise and close them.
use vstd::prelude::*;
use crate::geometry::{u32_as_i32, i32_as_u32, fits_i32, cast_u32_i32, cast_i32_u32, max_i32, max_int};
use crate::explorer_state::{
    ExplorerState, SettingsState, HostEnv, Place, place_of, rows_of, listing_rows, hostname_from,
};
use crate::text::{owned, str_eq};

verus! {

// ============================================================
// Snap zones
// ============================================================

/// A region of the screen that a dragged window snaps to.
#[derive(Clone, Copy, PartialEq, Eq, Structural, Debug)]
pub enum SnapZone {
    Left,
    Right,
    TopLeft,
    TopRight,
    BottomLeft,
    BottomRight,
    Maximize,
}

/// Width of the screen in pixels.
pub const SCREEN_W: i32 = 1280;
/// Height of the screen in pixels.
pub const SCREEN_H: i32 = 720;
/// Height of the taskbar at the bottom of the screen.
pub const TASKBAR: i32 = 38;
/// Distance from a screen edge within which a drag snaps.
pub const SNAP_MARGIN: i32 = 24;

/// The zone that a drag released at `(mx, my)` snaps to.
pub open spec fn snap_zone_at(mx: int, my: int) -> Option<SnapZone> {
    if my < SNAP_MARGIN {
        Some(SnapZone::Maximize)
    } else if mx < SNAP_MARGIN {
        if my < SCREEN_H / 2 { Some(SnapZone::TopLeft) } else { Some(SnapZone::BottomLeft) }
    } else if mx > SCREEN_W - SNAP_MARGIN {
        if my < SCREEN_H / 2 { Some(SnapZone::TopRight) } else { Some(SnapZone::BottomRight) }
    } else {
        None
    }
}

/// The rectangle `(x, y, width, height)` that a snap zone covers.
pub open spec fn snap_rect(zone: SnapZone) -> (i32, i32, u32, u32) {
    match zone {
        SnapZone::Left => (0, 0, 640, 682),
        SnapZone::Right => (640, 0, 640, 682),
        SnapZone::TopLeft => (0, 0, 640, 341),
        SnapZone::TopRight => (640, 0, 640, 341),
        SnapZone::BottomLeft => (0, 341, 640, 341),
        SnapZone::BottomRight => (640, 341, 640, 341),
        SnapZone::Maximize => (0, 0, 1280, 682),
    }
}

impl SnapZone {
    /// The snap zone under the pointer at `(mx, my)`, if any: the top strip
    /// maximises; the left and right strips snap to the upper or lower
    /// quarter depending on the pointer's height.
    pub fn detect(mx: i32, my: i32) -> (r: Option<SnapZone>)
        ensures
            r == snap_zone_at(mx as int, my as int),
    {
        let at_left = mx < SNAP_MARGIN;
        let at_right = mx > SCREEN_W - SNAP_MARGIN;
        let at_top = my < SNAP_MARGIN;
        if at_top {
            Some(SnapZone::Maximize)
        } else if at_left {
            if my < SCREEN_H / 2 { Some(SnapZone::TopLeft) } else { Some(SnapZone::BottomLeft) }
        } else if at_right {
            if my < SCREEN_H / 2 { Some(SnapZone::TopRight) } else { Some(SnapZone::BottomRight) }
        } else {
            None
        }
    }

    /// The rectangle `(x, y, width, height)` of the work area (the screen
    /// above the taskbar) that this zone covers.
    pub fn geometry(self) -> (r: (i32, i32, u32, u32))
        ensures
            r == snap_rect(self),
    {
        let hw: u32 = (SCREEN_W / 2) as u32;
        let hh: u32 = ((SCREEN_H - TASKBAR) / 2) as u32;
        let fh: u32 = (SCREEN_H - TASKBAR) as u32;
        match self {
            SnapZone::Left => (0, 0, hw, fh),
            SnapZone::Right => (SCREEN_W / 2, 0, hw, fh),
            SnapZone::TopLeft => (0, 0, hw, hh),
            SnapZone::TopRight => (SCREEN_W / 2, 0, hw, hh),
            SnapZone::BottomLeft => (0, SCREEN_H / 2 - TASKBAR / 2, hw, hh),
            SnapZone::BottomRight => (SCREEN_W / 2, SCREEN_H / 2 - TASKBAR / 2, hw, hh),
            SnapZone::Maximize => (0, 0, SCREEN_W as u32, fh),
        }
    }
}

/// Every snap zone lies inside the work area, the screen above the taskbar.
pub proof fn lemma_snap_zones_inside_work_area(zone: SnapZone)
    ensures
        snap_rect(zone).0 >= 0,
        snap_rect(zone).1 >= 0,
        snap_rect(zone).0 + snap_rect(zone).2 <= SCREEN_W,
        snap_rect(zone).1 + snap_rect(zone).3 <= SCREEN_H - TASKBAR,
{
}

/// The quarter zones tile the half zones: the upper and lower quarter of a
/// side share its column, stack without gap or overlap, and together are
/// exactly as tall as the half; the two halves share the work area's height
/// and are side by side.
pub proof fn lemma_snap_quarters_tile_halves()
    ensures
        snap_rect(SnapZone::TopLeft).0 == snap_rect(SnapZone::Left).0,
        snap_rect(SnapZone::BottomLeft).0 == snap_rect(SnapZone::Left).0,
        snap_rect(SnapZone::TopLeft).1 == snap_rect(SnapZone::Left).1,
        snap_rect(SnapZone::BottomLeft).1 == snap_rect(SnapZone::TopLeft).1 + snap_rect(
            SnapZone::TopLeft,
        ).3,
        snap_rect(SnapZone::TopLeft).3 + snap_rect(SnapZone::BottomLeft).3 == snap_rect(
            SnapZone::Left,
        ).3,
        snap_rect(SnapZone::TopRight).0 == snap_rect(SnapZone::Right).0,
        snap_rect(SnapZone::BottomRight).0 == snap_rect(SnapZone::Right).0,
        snap_rect(SnapZone::BottomRight).1 == snap_rect(SnapZone::TopRight).1 + snap_rect(
            SnapZone::TopRight,
        ).3,
        snap_rect(SnapZone::TopRight).3 + snap_rect(SnapZone::BottomRight).3 == snap_rect(
            SnapZone::Right,
        ).3,
        snap_rect(SnapZone::Left).0 + snap_rect(SnapZone::Left).2 == snap_rect(SnapZone::Right).0,
        snap_rect(SnapZone::Left).2 + snap_rect(SnapZone::Right).2 == snap_rect(
            SnapZone::Maximize,
        ).2,
        snap_rect(SnapZone::Left).3 == snap_rect(SnapZone::Maximize).3,
{
}

// ============================================================
// Resize edges
// ============================================================

/// An edge or corner of a window that a drag resizes.
#[derive(Clone, Copy, PartialEq, Eq, Structural, Debug)]
pub enum ResizeEdge {
    Top,
    Bottom,
    Left,
    Right,
    TopLeft,
    TopRight,
    BottomLeft,
    BottomRight,
}

/// Distance from a window's border within which the pointer grabs it.
pub const RESIZE_MARGIN: i32 = 8;

/// The edge grabbed at `(mx, my)` of the rectangle with corners `(x0, y0)`
/// and `(x1, y1)`: corners win over sides, top over bottom, left over right.
pub open spec fn edge_at(x0: int, y0: int, x1: int, y1: int, mx: int, my: int) -> Option<
    ResizeEdge,
> {
    let m = RESIZE_MARGIN as int;
    if mx < x0 - m || mx > x1 + m || my < y0 - m || my > y1 + m {
        None
    } else {
        let on_l = x0 - m <= mx <= x0 + m;
        let on_r = x1 - m <= mx <= x1 + m;
        let on_t = y0 - m <= my <= y0 + m;
        let on_b = y1 - m <= my <= y1 + m;
        if on_t && on_l {
            Some(ResizeEdge::TopLeft)
        } else if on_t && on_r {
            Some(ResizeEdge::TopRight)
        } else if on_b && on_l {
            Some(ResizeEdge::BottomLeft)
        } else if on_b && on_r {
            Some(ResizeEdge::BottomRight)
        } else if on_t {
            Some(ResizeEdge::Top)
        } else if on_b {
            Some(ResizeEdge::Bottom)
        } else if on_l {
            Some(ResizeEdge::Left)
        } else if on_r {
            Some(ResizeEdge::Right)
        } else {
            None
        }
    }
}

} // verus!

verus! {

// ============================================================
// Windows
// ============================================================

/// One window on the desktop, with the state of the application it shows.
pub struct Window {
    pub id: u32,
    pub title: String,
    pub app: String,
    pub x: i32,
    pub y: i32,
    pub width: u32,
    pub height: u32,
    pub dragging: bool,
    pub active: bool,
    pub maximized: bool,
    pub minimized: bool,
    pub old_x: i32,
    pub old_y: i32,
    pub old_width: u32,
    pub old_height: u32,
    pub min_width: u32,
    pub min_height: u32,
    // Terminal state
    pub input_buffer: String,
    pub output_lines: Vec<String>,
    pub cursor_blink: bool,
    pub scroll_offset: usize,
    pub history: Vec<String>,
    pub history_index: Option<usize>,
    pub pending_output: Vec<String>,
    pub running: bool,
    /// File browser state, present when the window shows the explorer.
    pub explorer: Option<ExplorerState>,
    /// Settings panel state, present when the window shows the settings.
    pub settings: Option<SettingsState>,
}

/// The x coordinate of a window's right edge, as `x + width as i32` computes it.
pub open spec fn right_of(w: Window) -> int {
    w.x + u32_as_i32(w.width)
}

/// The y coordinate of a window's bottom edge, as `y + height as i32` computes it.
pub open spec fn bottom_of(w: Window) -> int {
    w.y + u32_as_i32(w.height)
}

/// A window's edges can be computed in `i32` without overflow.
pub open spec fn edges_fit(w: Window) -> bool {
    &&& fits_i32(right_of(w))
    &&& fits_i32(bottom_of(w))
    &&& fits_i32(w.y + 32)
}

/// Index of the first window in `ws` whose id is `id`, or -1 when there is none.
pub open spec fn first_with_id(ws: Seq<Window>, id: u32) -> int {
    if exists|i: int| 0 <= i < ws.len() && ws[i].id == id {
        choose|i: int|
            0 <= i < ws.len() && ws[i].id == id && forall|j: int| 0 <= j < i ==> ws[j].id != id
    } else {
        -1
    }
}

/// The first match exists whenever some window has the id.
pub proof fn lemma_first_with_id(ws: Seq<Window>, id: u32)
    ensures
        first_with_id(ws, id) == -1 <==> forall|j: int| 0 <= j < ws.len() ==> ws[j].id != id,
        first_with_id(ws, id) != -1 ==> {
            let i = first_with_id(ws, id);
            &&& 0 <= i < ws.len()
            &&& ws[i].id == id
            &&& forall|j: int| 0 <= j < i ==> ws[j].id != id
        },
{
    if exists|i: int| 0 <= i < ws.len() && ws[i].id == id {
        let k = choose|i: int| 0 <= i < ws.len() && ws[i].id == id;
        assert(exists|i: int|
            0 <= i < ws.len() && ws[i].id == id && forall|j: int| 0 <= j < i ==> ws[j].id != id)
            by {
            lemma_least_index_with_id(ws, id, k);
        }
    }
}

proof fn lemma_least_index_with_id(ws: Seq<Window>, id: u32, k: int)
    requires
        0 <= k < ws.len(),
        ws[k].id == id,
    ensures
        exists|i: int|
            0 <= i < ws.len() && ws[i].id == id && forall|j: int| 0 <= j < i ==> ws[j].id != id,
    decreases k,
{
    if forall|j: int| 0 <= j < k ==> ws[j].id != id {
    } else {
        let k2 = choose|j: int| 0 <= j < k && ws[j].id == id;
        lemma_least_index_with_id(ws, id, k2);
    }
}

/// The window after a maximise toggle: a normal window remembers its
/// geometry and fills the work area; a maximised one returns to the
/// geometry it remembered.
pub open spec fn toggled_maximize(w: Window) -> Window {
    if !w.maximized {
        Window {
            old_x: w.x,
            old_y: w.y,
            old_width: w.width,
            old_height: w.height,
            x: 0,
            y: 0,
            width: 1280,
            height: 682,
            maximized: true,
            ..w
        }
    } else {
        Window {
            x: w.old_x,
            y: w.old_y,
            width: w.old_width,
            height: w.old_height,
            maximized: false,
            ..w
        }
    }
}

/// The window after snapping to `zone`: it remembers its geometry unless it
/// is maximised, takes the zone's rectangle, and is maximised when the zone is.
pub open spec fn snapped(w: Window, zone: SnapZone) -> Window {
    let r = snap_rect(zone);
    let kept = if !w.maximized {
        Window { old_x: w.x, old_y: w.y, old_width: w.width, old_height: w.height, ..w }
    } else {
        w
    };
    Window {
        x: r.0,
        y: r.1,
        width: r.2,
        height: r.3,
        maximized: if zone == SnapZone::Maximize { true } else { w.maximized },
        ..kept
    }
}

} // verus!

verus! {

/// Index of the last window in `ws` that satisfies `p`, or -1 when none does.
pub open spec fn last_where(ws: Seq<Window>, p: spec_fn(Window) -> bool) -> int {
    if exists|i: int| 0 <= i < ws.len() && p(ws[i]) {
        choose|i: int|
            0 <= i < ws.len() && p(ws[i]) && forall|j: int| i < j < ws.len() ==> !p(ws[j])
    } else {
        -1
    }
}

/// The last match exists whenever some window satisfies the predicate.
pub proof fn lemma_last_where(ws: Seq<Window>, p: spec_fn(Window) -> bool)
    ensures
        last_where(ws, p) == -1 <==> forall|j: int| 0 <= j < ws.len() ==> !p(ws[j]),
        last_where(ws, p) != -1 ==> {
            let i = last_where(ws, p);
            &&& 0 <= i < ws.len()
            &&& p(ws[i])
            &&& forall|j: int| i < j < ws.len() ==> !p(ws[j])
        },
{
    if exists|i: int| 0 <= i < ws.len() && p(ws[i]) {
        let k = choose|i: int| 0 <= i < ws.len() && p(ws[i]);
        lemma_greatest_index_where(ws, p, k);
    }
}

proof fn lemma_greatest_index_where(ws: Seq<Window>, p: spec_fn(Window) -> bool, k: int)
    requires
        0 <= k < ws.len(),
        p(ws[k]),
    ensures
        exists|i: int|
            0 <= i < ws.len() && p(ws[i]) && forall|j: int| i < j < ws.len() ==> !p(ws[j]),
    decreases ws.len() - k,
{
    if forall|j: int| k < j < ws.len() ==> !p(ws[j]) {
    } else {
        let k2 = choose|j: int| k < j < ws.len() && p(ws[j]);
        lemma_greatest_index_where(ws, p, k2);
    }
}

/// Whether `(mx, my)` is on a window's title bar (its top 32 pixels).
pub open spec fn on_title_bar(w: Window, mx: int, my: int) -> bool {
    mx >= w.x && mx <= right_of(w) && my >= w.y && my <= w.y + 32
}

/// Testing `w` for a title bar under `(mx, my)` stays within `i32` where
/// the test reaches: the right edge once the pointer is right of the left
/// edge, the bar's bottom once it is also left of the right edge and below
/// the top.
pub open spec fn title_test_fits(w: Window, mx: int, my: int) -> bool {
    &&& mx >= w.x ==> fits_i32(right_of(w))
    &&& mx >= w.x && mx <= right_of(w) && my >= w.y ==> fits_i32(w.y + 32)
}

/// Testing `w` for being under `(mx, my)` stays within `i32` where the test
/// reaches.
pub open spec fn body_test_fits(w: Window, mx: int, my: int) -> bool {
    &&& mx >= w.x ==> fits_i32(right_of(w))
    &&& mx >= w.x && mx <= right_of(w) && my >= w.y ==> fits_i32(bottom_of(w))
}

/// The windows that a search from the top of the stack for one where `p`
/// holds tests all meet `fits`: those with no window above them where `p`
/// holds.
pub open spec fn scan_fits_from_top(ws: Seq<Window>, p: spec_fn(Window) -> bool, fits: spec_fn(Window) -> bool) -> bool {
    forall|j: int|
        0 <= j < ws.len() && (forall|k: int| j < k < ws.len() ==> !p(#[trigger] ws[k])) ==> fits(#[trigger] ws[j])
}

/// Whether `(mx, my)` is anywhere on a window.
pub open spec fn on_window(w: Window, mx: int, my: int) -> bool {
    mx >= w.x && mx <= right_of(w) && my >= w.y && my <= bottom_of(w)
}

/// The edge of a window grabbed at `(mx, my)`.
pub open spec fn window_edge_at(w: Window, mx: int, my: int) -> Option<ResizeEdge> {
    edge_at(w.x as int, w.y as int, right_of(w), bottom_of(w), mx, my)
}

/// A window's edges, widened by the grab margin, fit in `i32`.
pub open spec fn grab_fits(w: Window) -> bool {
    &&& fits_i32(right_of(w))
    &&& fits_i32(bottom_of(w))
    &&& fits_i32(w.x - RESIZE_MARGIN)
    &&& fits_i32(w.x + RESIZE_MARGIN)
    &&& fits_i32(w.y - RESIZE_MARGIN)
    &&& fits_i32(w.y + RESIZE_MARGIN)
    &&& fits_i32(right_of(w) - RESIZE_MARGIN)
    &&& fits_i32(right_of(w) + RESIZE_MARGIN)
    &&& fits_i32(bottom_of(w) - RESIZE_MARGIN)
    &&& fits_i32(bottom_of(w) + RESIZE_MARGIN)
}

/// Testing `w` for an edge under `(mx, my)` stays within `i32` where the
/// test reaches: the right and bottom edges and the left bound always, each
/// further bound of the grab area once the pointer is past the ones before
/// it, and the inner bounds once the pointer is inside the grab area.
pub open spec fn edge_test_fits(w: Window, mx: int, my: int) -> bool {
    let (x0, y0, x1, y1, m) = (w.x as int, w.y as int, right_of(w), bottom_of(w), RESIZE_MARGIN as int);
    &&& fits_i32(x1)
    &&& fits_i32(y1)
    &&& fits_i32(x0 - m)
    &&& mx >= x0 - m ==> fits_i32(x1 + m)
    &&& mx >= x0 - m && mx <= x1 + m ==> fits_i32(y0 - m)
    &&& mx >= x0 - m && mx <= x1 + m && my >= y0 - m ==> fits_i32(y1 + m)
    &&& mx >= x0 - m && mx <= x1 + m && my >= y0 - m && my <= y1 + m ==> {
        &&& fits_i32(x0 + m)
        &&& fits_i32(x1 - m)
        &&& fits_i32(y0 + m)
        &&& fits_i32(y1 - m)
    }
}

/// The new size along one axis when the far edge moves by `d`:
/// `(start as i32 + d).max(min as i32)`.
pub open spec fn grown(start: u32, d: int, min: u32) -> int {
    max_int(u32_as_i32(start) + d, u32_as_i32(min))
}

/// The new size along one axis when the near edge moves by `d`:
/// `(start as i32 - d).max(min as i32)`.
pub open spec fn shrunk(start: u32, d: int, min: u32) -> int {
    max_int(u32_as_i32(start) - d, u32_as_i32(min))
}

/// Whether the edge moves the window's left side, right side, top or bottom.
pub open spec fn moves_left(e: ResizeEdge) -> bool {
    e == ResizeEdge::Left || e == ResizeEdge::BottomLeft || e == ResizeEdge::TopLeft
}

pub open spec fn moves_right(e: ResizeEdge) -> bool {
    e == ResizeEdge::Right || e == ResizeEdge::BottomRight || e == ResizeEdge::TopRight
}

pub open spec fn moves_top(e: ResizeEdge) -> bool {
    e == ResizeEdge::Top || e == ResizeEdge::TopLeft || e == ResizeEdge::TopRight
}

pub open spec fn moves_bottom(e: ResizeEdge) -> bool {
    e == ResizeEdge::Bottom || e == ResizeEdge::BottomLeft || e == ResizeEdge::BottomRight
}

/// The arithmetic of a resize drag stays within `i32`.
pub open spec fn resize_fits(
    w: Window,
    edge: ResizeEdge,
    smx: i32,
    smy: i32,
    sw: u32,
    sh: u32,
    swx: i32,
    swy: i32,
    mx: i32,
    my: i32,
) -> bool {
    let dx = mx - smx;
    let dy = my - smy;
    &&& fits_i32(dx)
    &&& fits_i32(dy)
    &&& moves_right(edge) ==> fits_i32(u32_as_i32(sw) + dx)
    &&& moves_left(edge) ==> {
        &&& fits_i32(u32_as_i32(sw) - dx)
        &&& fits_i32(u32_as_i32(sw) - shrunk(sw, dx, w.min_width))
        &&& fits_i32(swx + (u32_as_i32(sw) - shrunk(sw, dx, w.min_width)))
    }
    &&& moves_bottom(edge) ==> fits_i32(u32_as_i32(sh) + dy)
    &&& moves_top(edge) ==> {
        &&& fits_i32(u32_as_i32(sh) - dy)
        &&& fits_i32(u32_as_i32(sh) - shrunk(sh, dy, w.min_height))
        &&& fits_i32(swy + (u32_as_i32(sh) - shrunk(sh, dy, w.min_height)))
    }
}

/// The window after a resize drag of `edge` from pointer `(smx, smy)` to
/// `(mx, my)`, started when the window was at `(swx, swy)` with size
/// `sw` x `sh`: the dragged sides follow the pointer, no side goes below
/// the window's minimum size, and a dragged left or top side keeps the
/// opposite side where it was.
pub open spec fn resized(
    w: Window,
    edge: ResizeEdge,
    smx: i32,
    smy: i32,
    sw: u32,
    sh: u32,
    swx: i32,
    swy: i32,
    mx: i32,
    my: i32,
) -> Window {
    let dx = mx - smx;
    let dy = my - smy;
    let nwl = shrunk(sw, dx, w.min_width);
    let nht = shrunk(sh, dy, w.min_height);
    Window {
        x: if moves_left(edge) { (swx + (u32_as_i32(sw) - nwl)) as i32 } else { w.x },
        y: if moves_top(edge) { (swy + (u32_as_i32(sh) - nht)) as i32 } else { w.y },
        width: if moves_left(edge) {
            i32_as_u32(nwl as i32) as u32
        } else if moves_right(edge) {
            i32_as_u32(grown(sw, dx, w.min_width) as i32) as u32
        } else {
            w.width
        },
        height: if moves_top(edge) {
            i32_as_u32(nht as i32) as u32
        } else if moves_bottom(edge) {
            i32_as_u32(grown(sh, dy, w.min_height) as i32) as u32
        } else {
            w.height
        },
        ..w
    }
}

/// The windows after setting every window's focus flag to whether its id is `top`.
pub open spec fn with_focus(ws: Seq<Window>, top: Option<u32>) -> Seq<Window> {
    Seq::new(ws.len(), |k: int| Window { active: top == Some(ws[k].id), ..ws[k] })
}

/// The windows after clearing every focus flag.
pub open spec fn unfocused(ws: Seq<Window>) -> Seq<Window> {
    Seq::new(ws.len(), |k: int| Window { active: false, ..ws[k] })
}

/// A window is not minimised.
pub open spec fn is_shown(w: Window) -> bool {
    !w.minimized
}

/// The id of the topmost window that is not minimised.
pub open spec fn top_shown_id(ws: Seq<Window>) -> Option<u32> {
    let i = last_where(ws, |w: Window| is_shown(w));
    if i == -1 { None } else { Some(ws[i].id) }
}

/// The stack after raising the first window with `id` to the top: every
/// window loses focus, and that window, moved to the end, gains it.
pub open spec fn raised(ws: Seq<Window>, id: u32) -> Seq<Window> {
    let u = unfocused(ws);
    let i = first_with_id(ws, id);
    if i == -1 {
        u
    } else {
        u.remove(i).push(Window { active: true, ..u[i] })
    }
}

/// The stack after minimising the first window with `id`: it is minimised
/// and loses focus, then focus goes to the topmost window still shown.
pub open spec fn minimized_stack(ws: Seq<Window>, id: u32) -> Seq<Window> {
    let i = first_with_id(ws, id);
    let ws1 = if i == -1 {
        ws
    } else {
        ws.update(i, Window { minimized: true, active: false, ..ws[i] })
    };
    with_focus(ws1, top_shown_id(ws1))
}

/// The stack after updating the first window with `id` by `f`.
pub open spec fn update_first(ws: Seq<Window>, id: u32, f: spec_fn(Window) -> Window) -> Seq<
    Window,
> {
    let i = first_with_id(ws, id);
    if i == -1 { ws } else { ws.update(i, f(ws[i])) }
}

/// The text a new window's terminal starts with.
pub open spec fn terminal_banner() -> Seq<Seq<char>> {
    seq![
        "Trimangees OS Terminal v1.0"@,
        "Type a command and press Enter. Tab to autocomplete."@,
        Seq::<char>::empty(),
    ]
}

/// The views of a vector of strings.
pub open spec fn strings_view(v: Seq<String>) -> Seq<Seq<char>> {
    v.map_values(|s: String| s@)
}

} // verus!

verus! {

/// The stack of windows, bottom first; the last window is the focused one.
pub struct WindowManager {
    pub windows: Vec<Window>,
    /// The id the next created window gets.
    pub next_id: u32,
}

impl WindowManager {
    /// No window yet; the first window gets id 1.
    pub fn new() -> (r: Self)
        ensures
            r.windows@ == Seq::<Window>::empty(),
            r.next_id == 1,
    {
        WindowManager { windows: Vec::new(), next_id: 1 }
    }

    /// Index of the first window with `id`.
    pub fn position_of(&self, id: u32) -> (r: Option<usize>)
        ensures
            r is None ==> first_with_id(self.windows@, id) == -1,
            r is None ==> forall|j: int| 0 <= j < self.windows@.len() ==> self.windows@[j].id != id,
            r matches Some(i) ==> {
                &&& i == first_with_id(self.windows@, id)
                &&& i < self.windows@.len()
                &&& self.windows@[i as int].id == id
            },
    {
        proof {
            lemma_first_with_id(self.windows@, id);
        }
        let mut i: usize = 0;
        while i < self.windows.len()
            invariant
                i <= self.windows@.len(),
                forall|j: int| 0 <= j < i ==> self.windows@[j].id != id,
            decreases self.windows@.len() - i,
        {
            if self.windows[i].id == id {
                return Some(i);
            }
            i = i + 1;
        }
        None
    }

    /// Replaces the window at `i` by `w`.
    fn replace_at(&mut self, i: usize, w: Window)
        requires
            i < old(self).windows@.len(),
        ensures
            final(self).windows@ == old(self).windows@.update(i as int, w),
            final(self).next_id == old(self).next_id,
    {
        let _ = self.windows.remove(i);
        self.windows.insert(i, w);
        assert(self.windows@ =~= old(self).windows@.update(i as int, w));
    }

    /// The edge of `window` grabbed by the pointer at `(mx, my)`, if the
    /// pointer is within the grab margin of one.
    pub fn resize_edge_at(window: &Window, mx: i32, my: i32) -> (r: Option<ResizeEdge>)
        requires
            edge_test_fits(*window, mx as int, my as int),
        ensures
            r == window_edge_at(*window, mx as int, my as int),
    {
        let x0 = window.x;
        let y0 = window.y;
        let x1 = window.x + cast_u32_i32(window.width);
        let y1 = window.y + cast_u32_i32(window.height);
        let m = RESIZE_MARGIN;
        if mx < x0 - m || mx > x1 + m || my < y0 - m || my > y1 + m {
            return None;
        }
        let on_l = mx >= x0 - m && mx <= x0 + m;
        let on_r = mx >= x1 - m && mx <= x1 + m;
        let on_t = my >= y0 - m && my <= y0 + m;
        let on_b = my >= y1 - m && my <= y1 + m;
        if on_t && on_l {
            Some(ResizeEdge::TopLeft)
        } else if on_t && on_r {
            Some(ResizeEdge::TopRight)
        } else if on_b && on_l {
            Some(ResizeEdge::BottomLeft)
        } else if on_b && on_r {
            Some(ResizeEdge::BottomRight)
        } else if on_t {
            Some(ResizeEdge::Top)
        } else if on_b {
            Some(ResizeEdge::Bottom)
        } else if on_l {
            Some(ResizeEdge::Left)
        } else if on_r {
            Some(ResizeEdge::Right)
        } else {
            None
        }
    }

    /// Applies a resize drag of `edge`, started with the pointer at
    /// `(smx, smy)` and the window at `(swx, swy)` sized `sw` x `sh`, to the
    /// pointer now at `(mx, my)`.
    pub fn apply_resize(
        w: &mut Window,
        edge: ResizeEdge,
        smx: i32,
        smy: i32,
        sw: u32,
        sh: u32,
        swx: i32,
        swy: i32,
        mx: i32,
        my: i32,
    )
        requires
            resize_fits(*old(w), edge, smx, smy, sw, sh, swx, swy, mx, my),
        ensures
            *final(w) == resized(*old(w), edge, smx, smy, sw, sh, swx, swy, mx, my),
    {
        let dx = mx - smx;
        let dy = my - smy;
        let mw = cast_u32_i32(w.min_width);
        let mh = cast_u32_i32(w.min_height);
        let swi = cast_u32_i32(sw);
        let shi = cast_u32_i32(sh);
        match edge {
            ResizeEdge::Right => {
                w.width = cast_i32_u32(max_i32(swi + dx, mw));
            },
            ResizeEdge::Bottom => {
                w.height = cast_i32_u32(max_i32(shi + dy, mh));
            },
            ResizeEdge::Left => {
                let nw = max_i32(swi - dx, mw);
                w.x = swx + (swi - nw);
                w.width = cast_i32_u32(nw);
            },
            ResizeEdge::Top => {
                let nh = max_i32(shi - dy, mh);
                w.y = swy + (shi - nh);
                w.height = cast_i32_u32(nh);
            },
            ResizeEdge::BottomRight => {
                w.width = cast_i32_u32(max_i32(swi + dx, mw));
                w.height = cast_i32_u32(max_i32(shi + dy, mh));
            },
            ResizeEdge::BottomLeft => {
                let nw = max_i32(swi - dx, mw);
                w.x = swx + (swi - nw);
                w.width = cast_i32_u32(nw);
                w.height = cast_i32_u32(max_i32(shi + dy, mh));
            },
            ResizeEdge::TopRight => {
                let nh = max_i32(shi - dy, mh);
                w.y = swy + (shi - nh);
                w.width = cast_i32_u32(max_i32(swi + dx, mw));
                w.height = cast_i32_u32(nh);
            },
            ResizeEdge::TopLeft => {
                let nw = max_i32(swi - dx, mw);
                let nh = max_i32(shi - dy, mh);
                w.x = swx + (swi - nw);
                w.y = swy + (shi - nh);
                w.width = cast_i32_u32(nw);
                w.height = cast_i32_u32(nh);
            },
        }
    }

    /// Maximises the first window with `id`, or restores it if it is
    /// maximised.
    pub fn toggle_maximize(&mut self, id: u32)
        ensures
            final(self).windows@ == update_first(
                old(self).windows@,
                id,
                |w: Window| toggled_maximize(w),
            ),
            final(self).next_id == old(self).next_id,
    {
        if let Some(i) = self.position_of(id) {
            let mut w = self.windows.remove(i);
            toggle_window_maximize(&mut w);
            self.windows.insert(i, w);
            proof {
                lemma_remove_insert(old(self).windows@, i as int, w);
            }
        }
    }

    /// Sets every window's focus flag to whether its id is `top`.
    fn focus_only(&mut self, top: Option<u32>)
        ensures
            final(self).windows@ == with_focus(old(self).windows@, top),
            final(self).next_id == old(self).next_id,
    {
        let ghost ws = self.windows@;
        let n = self.windows.len();
        let mut k: usize = 0;
        while k < n
            invariant
                n == ws.len(),
                self.windows@.len() == n,
                k <= n,
                self.next_id == old(self).next_id,
                forall|j: int|
                    0 <= j < k ==> self.windows@[j] == (Window {
                        active: top == Some(ws[j].id),
                        ..ws[j]
                    }),
                forall|j: int| k <= j < n ==> self.windows@[j] == ws[j],
            decreases n - k,
        {
            let mut w = self.windows.remove(k);
            w.active = match top {
                Some(t) => t == w.id,
                None => false,
            };
            self.windows.insert(k, w);
            k = k + 1;
        }
        assert(self.windows@ =~= with_focus(ws, top));
    }

    /// Clears every window's focus flag.
    fn unfocus_all(&mut self)
        ensures
            final(self).windows@ == unfocused(old(self).windows@),
            final(self).next_id == old(self).next_id,
    {
        let ghost ws = self.windows@;
        let n = self.windows.len();
        let mut k: usize = 0;
        while k < n
            invariant
                n == ws.len(),
                self.windows@.len() == n,
                k <= n,
                self.next_id == old(self).next_id,
                forall|j: int| 0 <= j < k ==> self.windows@[j] == (Window { active: false, ..ws[j] }),
                forall|j: int| k <= j < n ==> self.windows@[j] == ws[j],
            decreases n - k,
        {
            let mut w = self.windows.remove(k);
            w.active = false;
            self.windows.insert(k, w);
            k = k + 1;
        }
        assert(self.windows@ =~= unfocused(ws));
    }

    /// The id of the topmost window that is not minimised.
    fn top_shown(&self) -> (r: Option<u32>)
        ensures
            r == top_shown_id(self.windows@),
    {
        proof {
            lemma_last_where(self.windows@, |w: Window| is_shown(w));
        }
        let mut k = self.windows.len();
        while k > 0
            invariant
                k <= self.windows@.len(),
                forall|j: int| k <= j < self.windows@.len() ==> self.windows@[j].minimized,
            decreases k,
        {
            if !self.windows[k - 1].minimized {
                let ghost i = last_where(self.windows@, |w: Window| is_shown(w));
                assert(i == k - 1);
                return Some(self.windows[k - 1].id);
            }
            k = k - 1;
        }
        None
    }

    /// Minimises the first window with `id`, then gives focus to the topmost
    /// window still shown.
    pub fn minimize_window(&mut self, id: u32)
        ensures
            final(self).windows@ == minimized_stack(old(self).windows@, id),
            final(self).next_id == old(self).next_id,
    {
        if let Some(i) = self.position_of(id) {
            let mut w = self.windows.remove(i);
            set_minimized(&mut w);
            self.windows.insert(i, w);
            proof {
                lemma_remove_insert(old(self).windows@, i as int, w);
            }
        }
        let top = self.top_shown();
        self.focus_only(top);
    }

    /// Raises the first window with `id` to the top of the stack and gives it
    /// focus; every other window loses focus.
    pub fn bring_to_front(&mut self, id: u32)
        ensures
            final(self).windows@ == raised(old(self).windows@, id),
            final(self).next_id == old(self).next_id,
    {
        self.unfocus_all();
        proof {
            assert forall|j: int| 0 <= j < self.windows@.len() implies self.windows@[j].id
                == old(self).windows@[j].id by {}
            lemma_first_with_id(self.windows@, id);
            lemma_first_with_id(old(self).windows@, id);
            if first_with_id(self.windows@, id) != first_with_id(old(self).windows@, id) {
                let a = first_with_id(self.windows@, id);
                let b = first_with_id(old(self).windows@, id);
                if a != -1 && b != -1 {
                    if a < b {
                        assert(old(self).windows@[a].id == id);
                    } else {
                        assert(self.windows@[b].id == id);
                    }
                }
            }
        }
        if let Some(idx) = self.position_of(id) {
            let mut w = self.windows.remove(idx);
            w.active = true;
            self.windows.push(w);
        }
    }

    /// Un-minimises the first window with `id` and raises it to the top.
    pub fn restore_window(&mut self, id: u32)
        ensures
            final(self).windows@ == raised(
                update_first(old(self).windows@, id, |w: Window| Window { minimized: false, ..w }),
                id,
            ),
            final(self).next_id == old(self).next_id,
    {
        if let Some(i) = self.position_of(id) {
            let mut w = self.windows.remove(i);
            w.minimized = false;
            self.windows.insert(i, w);
            proof {
                lemma_remove_insert(old(self).windows@, i as int, w);
            }
        }
        self.bring_to_front(id);
    }

    /// Snaps the first window with `id` to `zone`.
    pub fn snap_window(&mut self, id: u32, zone: SnapZone)
        ensures
            final(self).windows@ == update_first(
                old(self).windows@,
                id,
                |w: Window| snapped(w, zone),
            ),
            final(self).next_id == old(self).next_id,
    {
        if let Some(i) = self.position_of(id) {
            let mut w = self.windows.remove(i);
            snap_window_to(&mut w, zone);
            self.windows.insert(i, w);
            proof {
                lemma_remove_insert(old(self).windows@, i as int, w);
            }
        }
    }

    /// The id of the topmost window whose title bar is under `(mx, my)`.
    pub fn window_at(&self, mx: i32, my: i32) -> (r: Option<u32>)
        requires
            scan_fits_from_top(
                self.windows@,
                |w: Window| on_title_bar(w, mx as int, my as int),
                |w: Window| title_test_fits(w, mx as int, my as int),
            ),
        ensures
            ({
                let i = last_where(self.windows@, |w: Window| on_title_bar(w, mx as int, my as int));
                r == if i == -1 { None } else { Some(self.windows@[i].id) }
            }),
    {
        let ghost p = |w: Window| on_title_bar(w, mx as int, my as int);
        proof {
            lemma_last_where(self.windows@, p);
        }
        let mut k = self.windows.len();
        while k > 0
            invariant
                k <= self.windows@.len(),
                p == (|w: Window| on_title_bar(w, mx as int, my as int)),
                forall|j: int| k <= j < self.windows@.len() ==> !p(#[trigger] self.windows@[j]),
                scan_fits_from_top(self.windows@, p, |w: Window| title_test_fits(w, mx as int, my as int)),
            decreases k,
        {
            let w = &self.windows[k - 1];
            proof {
                assert(title_test_fits(self.windows@[k - 1], mx as int, my as int));
            }
            if mx >= w.x && mx <= w.x + cast_u32_i32(w.width) && my >= w.y && my <= w.y + 32 {
                assert(p(self.windows@[k - 1]));
                assert(last_where(self.windows@, p) == k - 1);
                return Some(w.id);
            }
            k = k - 1;
        }
        None
    }

    /// The id of the topmost window anywhere under `(mx, my)`.
    pub fn window_body_at(&self, mx: i32, my: i32) -> (r: Option<u32>)
        requires
            scan_fits_from_top(
                self.windows@,
                |w: Window| on_window(w, mx as int, my as int),
                |w: Window| body_test_fits(w, mx as int, my as int),
            ),
        ensures
            ({
                let i = last_where(self.windows@, |w: Window| on_window(w, mx as int, my as int));
                r == if i == -1 { None } else { Some(self.windows@[i].id) }
            }),
    {
        let ghost p = |w: Window| on_window(w, mx as int, my as int);
        proof {
            lemma_last_where(self.windows@, p);
        }
        let mut k = self.windows.len();
        while k > 0
            invariant
                k <= self.windows@.len(),
                p == (|w: Window| on_window(w, mx as int, my as int)),
                forall|j: int| k <= j < self.windows@.len() ==> !p(#[trigger] self.windows@[j]),
                scan_fits_from_top(self.windows@, p, |w: Window| body_test_fits(w, mx as int, my as int)),
            decreases k,
        {
            let w = &self.windows[k - 1];
            proof {
                assert(body_test_fits(self.windows@[k - 1], mx as int, my as int));
            }
            if mx >= w.x && mx <= w.x + cast_u32_i32(w.width) && my >= w.y && my <= w.y
                + cast_u32_i32(w.height) {
                assert(p(self.windows@[k - 1]));
                assert(last_where(self.windows@, p) == k - 1);
                return Some(w.id);
            }
            k = k - 1;
        }
        None
    }

    /// The topmost window with an edge under `(mx, my)`, and that edge.
    pub fn resize_edge_window_at(&self, mx: i32, my: i32) -> (r: Option<(u32, ResizeEdge)>)
        requires
            scan_fits_from_top(
                self.windows@,
                |w: Window| window_edge_at(w, mx as int, my as int) is Some,
                |w: Window| edge_test_fits(w, mx as int, my as int),
            ),
        ensures
            ({
                let i = last_where(
                    self.windows@,
                    |w: Window| window_edge_at(w, mx as int, my as int) is Some,
                );
                r == if i == -1 {
                    None
                } else {
                    Some(
                        (
                            self.windows@[i].id,
                            window_edge_at(self.windows@[i], mx as int, my as int)->0,
                        ),
                    )
                }
            }),
    {
        let ghost p = |w: Window| window_edge_at(w, mx as int, my as int) is Some;
        proof {
            lemma_last_where(self.windows@, p);
        }
        let mut k = self.windows.len();
        while k > 0
            invariant
                k <= self.windows@.len(),
                p == (|w: Window| window_edge_at(w, mx as int, my as int) is Some),
                forall|j: int| k <= j < self.windows@.len() ==> !p(#[trigger] self.windows@[j]),
                scan_fits_from_top(self.windows@, p, |w: Window| edge_test_fits(w, mx as int, my as int)),
            decreases k,
        {
            let w = &self.windows[k - 1];
            proof {
                assert(edge_test_fits(self.windows@[k - 1], mx as int, my as int));
            }
            if let Some(e) = Self::resize_edge_at(w, mx, my) {
                assert(p(self.windows@[k - 1]));
                assert(last_where(self.windows@, p) == k - 1);
                return Some((w.id, e));
            }
            k = k - 1;
        }
        None
    }

    /// Closes every window with `id`; the others keep their order.
    pub fn close_window(&mut self, id: u32)
        ensures
            final(self).windows@ == without_id(old(self).windows@, id),
            final(self).next_id == old(self).next_id,
    {
        let ghost p = |w: Window| w.id != id;
        let ghost ws = self.windows@;
        let n = self.windows.len();
        let mut rest: Vec<Window> = Vec::new();
        std::mem::swap(&mut rest, &mut self.windows);
        let mut k: usize = 0;
        assert(ws.take(0).filter(p) =~= Seq::<Window>::empty());
        while rest.len() > 0
            invariant
                k <= ws.len(),
                k + rest@.len() == ws.len(),
                ws.len() == n,
                p == (|w: Window| w.id != id),
                rest@ == ws.skip(k as int),
                self.windows@ == ws.take(k as int).filter(p),
                self.next_id == old(self).next_id,
            decreases rest@.len(),
        {
            let w = rest.remove(0);
            let ghost before = self.windows@;
            proof {
                assert(ws.take(k + 1).drop_last() =~= ws.take(k as int));
                assert(ws.take(k + 1).last() == w);
                assert(rest@ =~= ws.skip(k + 1));
                let s1 = ws.take(k + 1);
                assert(s1.len() > 0);
                reveal_with_fuel(Seq::filter, 1);
                assert(s1.filter(p) == (if p(s1.last()) {
                    s1.drop_last().filter(p).push(s1.last())
                } else {
                    s1.drop_last().filter(p)
                }));
                assert(ws.take(k + 1).filter(p) == if p(w) {
                    ws.take(k as int).filter(p).push(w)
                } else {
                    ws.take(k as int).filter(p)
                });
            }
            if w.id != id {
                self.windows.push(w);
            }
            k = k + 1;
        }
        assert(ws.take(k as int) =~= ws);
    }

    /// Opens a window titled `title` showing `app`, `width` x `height`
    /// pixels, cascaded by 28 pixels per window below it (in cycles of 8),
    /// on top of the stack but without focus. The explorer and settings
    /// apps get their state from the host's `env`.
    pub fn create_window(
        &mut self,
        title: String,
        app: String,
        width: u32,
        height: u32,
        env: &HostEnv,
    )
        requires
            old(self).next_id < u32::MAX,
        ensures
            final(self).next_id == old(self).next_id + 1,
            final(self).windows@.len() == old(self).windows@.len() + 1,
            final(self).windows@.drop_last() == old(self).windows@,
            new_window_ok(
                final(self).windows@.last(),
                old(self).next_id,
                title@,
                app@,
                width,
                height,
                (old(self).windows@.len() % 8) as int * 28,
                env,
            ),
    {
        let offset: i32 = ((self.windows.len() % 8) as i32) * 28;
        let is_explorer = str_eq(app.as_str(), "explorer");
        let is_settings = str_eq(app.as_str(), "settings");
        let explorer = if is_explorer { Some(ExplorerState::new(env)) } else { None };
        let settings = if is_settings { Some(SettingsState::new(env)) } else { None };
        let mut output_lines: Vec<String> = Vec::new();
        output_lines.push(owned("Trimangees OS Terminal v1.0"));
        output_lines.push(owned("Type a command and press Enter. Tab to autocomplete."));
        output_lines.push(String::new());
        assert(strings_view(output_lines@) =~= terminal_banner());
        let w = Window {
            id: self.next_id,
            title,
            app,
            x: 120 + offset,
            y: 80 + offset,
            width,
            height,
            dragging: false,
            active: false,
            maximized: false,
            minimized: false,
            old_x: 120 + offset,
            old_y: 80 + offset,
            old_width: width,
            old_height: height,
            min_width: 200,
            min_height: 120,
            input_buffer: String::new(),
            output_lines,
            cursor_blink: true,
            scroll_offset: 0,
            history: Vec::new(),
            history_index: None,
            pending_output: Vec::new(),
            running: false,
            explorer,
            settings,
        };
        self.windows.push(w);
        self.next_id = self.next_id + 1;
        assert(self.windows@.drop_last() =~= old(self).windows@);
    }

    /// The id of the focused window: the one on top of the stack.
    pub fn focused_id(&self) -> (r: Option<u32>)
        ensures
            r == if self.windows@.len() == 0 {
                None
            } else {
                Some(self.windows@.last().id)
            },
    {
        let n = self.windows.len();
        if n == 0 {
            None
        } else {
            Some(self.windows[n - 1].id)
        }
    }
}

} // verus!

verus! {

/// Removing an element and inserting another at the same place updates it.
pub proof fn lemma_remove_insert<A>(s: Seq<A>, i: int, v: A)
    requires
        0 <= i < s.len(),
    ensures
        s.remove(i).insert(i, v) == s.update(i, v),
{
    assert(s.remove(i).insert(i, v) =~= s.update(i, v));
}

fn toggle_window_maximize(w: &mut Window)
    ensures
        *final(w) == toggled_maximize(*old(w)),
{
    if !w.maximized {
        w.old_x = w.x;
        w.old_y = w.y;
        w.old_width = w.width;
        w.old_height = w.height;
        w.x = 0;
        w.y = 0;
        w.width = 1280;
        w.height = 682;
        w.maximized = true;
    } else {
        w.x = w.old_x;
        w.y = w.old_y;
        w.width = w.old_width;
        w.height = w.old_height;
        w.maximized = false;
    }
}

fn snap_window_to(w: &mut Window, zone: SnapZone)
    ensures
        *final(w) == snapped(*old(w), zone),
{
    if !w.maximized {
        w.old_x = w.x;
        w.old_y = w.y;
        w.old_width = w.width;
        w.old_height = w.height;
    }
    let (x, y, width, height) = zone.geometry();
    w.x = x;
    w.y = y;
    w.width = width;
    w.height = height;
    if zone == SnapZone::Maximize {
        w.maximized = true;
    }
}

fn set_minimized(w: &mut Window)
    ensures
        *final(w) == (Window { minimized: true, active: false, ..*old(w) }),
{
    w.minimized = true;
    w.active = false;
}

} // verus!

verus! {

/// A freshly created window: its id, title, app, size and place, no flag
/// set, remembered geometry equal to its geometry, the minimum size 200 x
/// 120, a terminal showing the banner, and explorer or settings state
/// exactly when its app is the explorer or the settings.
pub open spec fn new_window_ok(
    w: Window,
    id: u32,
    title: Seq<char>,
    app: Seq<char>,
    width: u32,
    height: u32,
    offset: int,
    env: &HostEnv,
) -> bool {
    &&& w.id == id
    &&& w.title@ == title
    &&& w.app@ == app
    &&& w.x == 120 + offset
    &&& w.y == 80 + offset
    &&& w.width == width
    &&& w.height == height
    &&& !w.dragging && !w.active && !w.maximized && !w.minimized
    &&& w.old_x == w.x && w.old_y == w.y
    &&& w.old_width == width && w.old_height == height
    &&& w.min_width == 200 && w.min_height == 120
    &&& w.input_buffer@ == Seq::<char>::empty()
    &&& strings_view(w.output_lines@) == terminal_banner()
    &&& w.cursor_blink
    &&& w.scroll_offset == 0
    &&& w.history@.len() == 0
    &&& w.history_index is None
    &&& w.pending_output@.len() == 0
    &&& !w.running
    &&& (w.explorer is Some <==> app == "explorer"@)
    &&& (w.explorer matches Some(e) ==> {
        &&& place_of(e) == (Place { path: env.home@, history: seq![env.home@], idx: 0 })
        &&& rows_of(e.entries@) == match env.home_listing {
            Some(items) => listing_rows(items@),
            None => Seq::empty(),
        }
        &&& e.selected is None
        &&& e.scroll_offset == 0
    })
    &&& (w.settings is Some <==> app == "settings"@)
    &&& (w.settings matches Some(st) ==> {
        &&& st.active_section == 0
        &&& st.wallpaper_preset == 0
        &&& st.accent_r == 72 && st.accent_g == 138 && st.accent_b == 240
        &&& st.dark_mode
        &&& st.hostname@ == hostname_from(env.hostname_file)
        &&& st.os_version@ == "Trimangees OS 1.0"@
    })
}

} // verus!

verus! {

/// The stack without the windows whose id is `id`, in order.
pub open spec fn without_id(ws: Seq<Window>, id: u32) -> Seq<Window> {
    ws.filter(|w: Window| w.id != id)
}

/// Every window has its own id, and every id is below the next one to give.
pub open spec fn ids_ok(ws: Seq<Window>, next_id: u32) -> bool {
    &&& forall|i: int| 0 <= i < ws.len() ==> (#[trigger] ws[i]).id < next_id
    &&& forall|i: int, j: int| 0 <= i < j < ws.len() ==> (#[trigger] ws[i]).id != (#[trigger] ws[j]).id
}

/// Creating a window keeps ids unique: the new window's id, the next id to
/// give, is used by no other window, and the next id moves past it.
pub proof fn lemma_create_keeps_ids_unique(ws: Seq<Window>, next_id: u32, after: Seq<Window>)
    requires
        ids_ok(ws, next_id),
        next_id < u32::MAX,
        after.len() == ws.len() + 1,
        after.drop_last() == ws,
        after.last().id == next_id,
    ensures
        ids_ok(after, (next_id + 1) as u32),
{
    assert forall|i: int| 0 <= i < ws.len() implies after[i] == ws[i] by {
        assert(after[i] == after.drop_last()[i]);
    }
}

/// Keeping some of the windows, in order, keeps ids unique.
proof fn lemma_filter_keeps_ids_ok(ws: Seq<Window>, next_id: u32, p: spec_fn(Window) -> bool)
    requires
        ids_ok(ws, next_id),
    ensures
        ids_ok(ws.filter(p), next_id),
    decreases ws.len(),
{
    reveal(Seq::filter);
    if ws.len() > 0 {
        let dl = ws.drop_last();
        assert forall|i: int, j: int| 0 <= i < j < dl.len() implies (#[trigger] dl[i]).id != (#[trigger] dl[j]).id by {
            assert(dl[i] == ws[i] && dl[j] == ws[j]);
        }
        assert forall|i: int| 0 <= i < dl.len() implies (#[trigger] dl[i]).id < next_id by {
            assert(dl[i] == ws[i]);
        }
        lemma_filter_keeps_ids_ok(dl, next_id, p);
        let sub = dl.filter(p);
        if p(ws.last()) {
            let r = sub.push(ws.last());
            assert forall|k: int| 0 <= k < sub.len() implies (#[trigger] sub[k]).id != ws.last().id by {
                assert(sub.contains(sub[k]));
                dl.lemma_filter_contains_rev(p, sub[k]);
                let m = choose|m: int| 0 <= m < dl.len() && dl[m] == sub[k];
                assert(ws[m] == dl[m]);
                assert(ws[m].id != ws[ws.len() - 1].id);
            }
            assert forall|i: int, j: int| 0 <= i < j < r.len() implies (#[trigger] r[i]).id != (#[trigger] r[j]).id by {
                if j == r.len() - 1 {
                    assert(r[i] == sub[i]);
                } else {
                    assert(r[i] == sub[i] && r[j] == sub[j]);
                }
            }
            assert forall|i: int| 0 <= i < r.len() implies (#[trigger] r[i]).id < next_id by {
                if i < sub.len() {
                    assert(r[i] == sub[i]);
                }
            }
        }
    }
}

/// A stack whose windows carry the ids of another's, place by place, keeps
/// that stack's ids unique.
proof fn lemma_same_ids_keep_ids_ok(ws: Seq<Window>, vs: Seq<Window>, next_id: u32)
    requires
        ids_ok(ws, next_id),
        vs.len() == ws.len(),
        forall|k: int| 0 <= k < ws.len() ==> (#[trigger] vs[k]).id == ws[k].id,
    ensures
        ids_ok(vs, next_id),
{
    assert forall|i: int, j: int| 0 <= i < j < vs.len() implies (#[trigger] vs[i]).id != (#[trigger] vs[j]).id by {
        assert(ws[i].id != ws[j].id);
    }
    assert forall|i: int| 0 <= i < vs.len() implies (#[trigger] vs[i]).id < next_id by {
        assert(ws[i].id < next_id);
    }
}

/// Raising a window keeps ids unique.
proof fn lemma_raised_keeps_ids_ok(ws: Seq<Window>, next_id: u32, id: u32)
    requires
        ids_ok(ws, next_id),
    ensures
        ids_ok(raised(ws, id), next_id),
{
    let u = unfocused(ws);
    lemma_same_ids_keep_ids_ok(ws, u, next_id);
    let i = first_with_id(ws, id);
    if i != -1 {
        lemma_first_with_id(ws, id);
        let rm = u.remove(i);
        let r = rm.push(Window { active: true, ..u[i] });
        assert forall|a: int, b: int| 0 <= a < b < r.len() implies (#[trigger] r[a]).id != (#[trigger] r[b]).id by {
            let ia = if a < i { a } else { a + 1 };
            assert(r[a] == u[ia]);
            if b == r.len() - 1 {
                assert(r[b].id == u[i].id);
            } else {
                let ib = if b < i { b } else { b + 1 };
                assert(r[b] == u[ib]);
            }
        }
        assert forall|a: int| 0 <= a < r.len() implies (#[trigger] r[a]).id < next_id by {
            if a < r.len() - 1 {
                let ia = if a < i { a } else { a + 1 };
                assert(r[a] == u[ia]);
            }
        }
    }
}

/// Updating the first window with `id` by a change that keeps ids keeps
/// ids unique.
proof fn lemma_update_keeps_ids_ok(ws: Seq<Window>, next_id: u32, id: u32, f: spec_fn(Window) -> Window)
    requires
        ids_ok(ws, next_id),
        forall|w: Window| #[trigger] f(w).id == w.id,
    ensures
        ids_ok(update_first(ws, id, f), next_id),
{
    let i = first_with_id(ws, id);
    if i != -1 {
        lemma_first_with_id(ws, id);
        assert(f(ws[i]).id == ws[i].id);
        lemma_same_ids_keep_ids_ok(ws, update_first(ws, id, f), next_id);
    }
}

/// Every window operation keeps ids unique and below the next id to give:
/// closing, raising, minimising, restoring, maximising or restoring the
/// size, and snapping. With [`lemma_create_keeps_ids_unique`], ids stay
/// unique however the stack is worked on.
pub proof fn lemma_operations_keep_ids_ok(ws: Seq<Window>, next_id: u32, id: u32, zone: SnapZone)
    requires
        ids_ok(ws, next_id),
    ensures
        ids_ok(without_id(ws, id), next_id),
        ids_ok(raised(ws, id), next_id),
        ids_ok(minimized_stack(ws, id), next_id),
        ids_ok(raised(update_first(ws, id, |w: Window| Window { minimized: false, ..w }), id), next_id),
        ids_ok(update_first(ws, id, |w: Window| toggled_maximize(w)), next_id),
        ids_ok(update_first(ws, id, |w: Window| snapped(w, zone)), next_id),
{
    lemma_filter_keeps_ids_ok(ws, next_id, |w: Window| w.id != id);
    lemma_raised_keeps_ids_ok(ws, next_id, id);
    let fm = |w: Window| Window { minimized: true, active: false, ..w };
    lemma_update_keeps_ids_ok(ws, next_id, id, fm);
    let ws1 = update_first(ws, id, fm);
    let i = first_with_id(ws, id);
    let ws1b = if i == -1 { ws } else { ws.update(i, Window { minimized: true, active: false, ..ws[i] }) };
    assert(ws1b == ws1);
    lemma_same_ids_keep_ids_ok(ws1, with_focus(ws1, top_shown_id(ws1)), next_id);
    let fr = |w: Window| Window { minimized: false, ..w };
    lemma_update_keeps_ids_ok(ws, next_id, id, fr);
    lemma_raised_keeps_ids_ok(update_first(ws, id, fr), next_id, id);
    let ft = |w: Window| toggled_maximize(w);
    lemma_update_keeps_ids_ok(ws, next_id, id, ft);
    let fs = |w: Window| snapped(w, zone);
    lemma_update_keeps_ids_ok(ws, next_id, id, fs);
}

/// One operation made on a window manager.
pub enum WmStep {
    Create,
    Close(u32),
    Front(u32),
    Minimize(u32),
    Restore(u32),
    ToggleMaximize(u32),
    Snap(u32, SnapZone),
}

/// Whether windows `ws2` and next id `n2` can follow `ws` and `n` by step
/// `s`, as the operation's own contract states it.
pub open spec fn step_leads(ws: Seq<Window>, n: u32, s: WmStep, ws2: Seq<Window>, n2: u32) -> bool {
    match s {
        WmStep::Create => {
            &&& n < u32::MAX
            &&& n2 == n + 1
            &&& ws2.len() == ws.len() + 1
            &&& ws2.drop_last() == ws
            &&& ws2.last().id == n
        },
        WmStep::Close(id) => n2 == n && ws2 == without_id(ws, id),
        WmStep::Front(id) => n2 == n && ws2 == raised(ws, id),
        WmStep::Minimize(id) => n2 == n && ws2 == minimized_stack(ws, id),
        WmStep::Restore(id) => n2 == n && ws2 == raised(
            update_first(ws, id, |w: Window| Window { minimized: false, ..w }),
            id,
        ),
        WmStep::ToggleMaximize(id) => n2 == n && ws2 == update_first(ws, id, |w: Window| toggled_maximize(w)),
        WmStep::Snap(id, zone) => n2 == n && ws2 == update_first(ws, id, |w: Window| snapped(w, zone)),
    }
}

/// The number of window creations among the first `k` steps.
pub open spec fn creations(steps: Seq<WmStep>, k: int) -> int
    decreases k,
{
    if k <= 0 {
        0
    } else {
        creations(steps, k - 1) + if steps[k - 1] is Create { 1int } else { 0int }
    }
}

/// `states` are the windows and next id of a new window manager and after
/// each of `steps` in turn.
pub open spec fn run_from_new(steps: Seq<WmStep>, states: Seq<(Seq<Window>, u32)>) -> bool {
    &&& states.len() == steps.len() + 1
    &&& states[0] == (Seq::<Window>::empty(), 1u32)
    &&& forall|k: int|
        0 <= k < steps.len() ==> step_leads(
            states[k].0,
            states[k].1,
            #[trigger] steps[k],
            states[k + 1].0,
            states[k + 1].1,
        )
}

/// The state after the first `k` steps of a run from a new window manager
/// has unique ids below its next id, and its next id is one more than the
/// windows created so far.
proof fn lemma_run_prefix(steps: Seq<WmStep>, states: Seq<(Seq<Window>, u32)>, k: int)
    requires
        run_from_new(steps, states),
        0 <= k < states.len(),
    ensures
        ids_ok(states[k].0, states[k].1),
        states[k].1 == creations(steps, k) + 1,
    decreases k,
{
    if k > 0 {
        lemma_run_prefix(steps, states, k - 1);
        let (ws, n) = states[k - 1];
        let (ws2, n2) = states[k];
        assert(step_leads(ws, n, steps[k - 1], ws2, n2));
        match steps[k - 1] {
            WmStep::Create => {
                lemma_create_keeps_ids_unique(ws, n, ws2);
            },
            WmStep::Close(id) => {
                lemma_operations_keep_ids_ok(ws, n, id, SnapZone::Left);
            },
            WmStep::Front(id) => {
                lemma_operations_keep_ids_ok(ws, n, id, SnapZone::Left);
            },
            WmStep::Minimize(id) => {
                lemma_operations_keep_ids_ok(ws, n, id, SnapZone::Left);
            },
            WmStep::Restore(id) => {
                lemma_operations_keep_ids_ok(ws, n, id, SnapZone::Left);
            },
            WmStep::ToggleMaximize(id) => {
                lemma_operations_keep_ids_ok(ws, n, id, SnapZone::Left);
            },
            WmStep::Snap(id, zone) => {
                lemma_operations_keep_ids_ok(ws, n, id, zone);
            },
        }
    }
}

/// Ids are never reused: in every state reached from a new window manager
/// by creating, closing, raising, minimising, restoring, maximising and
/// snapping windows, the windows' ids are pairwise distinct and below the
/// next id, and each window created gets as id the number of windows
/// created so far (1, 2, 3, ...), above every id given before.
pub proof fn lemma_ids_never_reused(steps: Seq<WmStep>, states: Seq<(Seq<Window>, u32)>)
    requires
        run_from_new(steps, states),
    ensures
        forall|k: int| 0 <= k < states.len() ==> #[trigger] ids_ok(states[k].0, states[k].1),
        forall|k: int|
            0 <= k < steps.len() && (#[trigger] steps[k]) is Create ==> states[k + 1].0.last().id
                == creations(steps, k + 1),
{
    assert forall|k: int| 0 <= k < states.len() implies #[trigger] ids_ok(states[k].0, states[k].1) by {
        lemma_run_prefix(steps, states, k);
    }
    assert forall|k: int| 0 <= k < steps.len() && (#[trigger] steps[k]) is Create implies states[k
        + 1].0.last().id == creations(steps, k + 1) by {
        lemma_run_prefix(steps, states, k);
        assert(step_leads(states[k].0, states[k].1, steps[k], states[k + 1].0, states[k + 1].1));
    }
}

/// Closing a window removes every window with its id and keeps every other
/// window.
pub proof fn lemma_close_removes_exactly(ws: Seq<Window>, id: u32)
    ensures
        forall|i: int|
            0 <= i < without_id(ws, id).len() ==> (#[trigger] without_id(ws, id)[i]).id != id,
        forall|i: int|
            0 <= i < ws.len() && ws[i].id != id ==> without_id(ws, id).contains(#[trigger] ws[i]),
        without_id(ws, id).len() <= ws.len(),
{
    let p = |w: Window| w.id != id;
    ws.lemma_filter_len(p);
    assert forall|i: int| 0 <= i < ws.filter(p).len() implies (#[trigger] ws.filter(p)[i]).id
        != id by {
        ws.lemma_filter_pred(p, i);
    }
    assert forall|i: int| 0 <= i < ws.len() && ws[i].id != id implies ws.filter(p).contains(
        #[trigger] ws[i],
    ) by {
        ws.lemma_filter_contains_rev(p, ws[i]);
    }
}

/// Raising a window puts it on top with focus and leaves every other window
/// without focus; the stack keeps its size.
pub proof fn lemma_raise_focuses_only_it(ws: Seq<Window>, id: u32)
    requires
        first_with_id(ws, id) != -1,
    ensures
        raised(ws, id).len() == ws.len(),
        raised(ws, id).last().id == id,
        raised(ws, id).last().active,
        forall|k: int| 0 <= k < raised(ws, id).len() - 1 ==> !(#[trigger] raised(ws, id)[k]).active,
{
    lemma_first_with_id(ws, id);
}

/// Every window in the stack has its own id.
pub open spec fn distinct_ids(ws: Seq<Window>) -> bool {
    forall|i: int, j: int| 0 <= i < j < ws.len() ==> (#[trigger] ws[i]).id != (#[trigger] ws[j]).id
}

/// After minimising a window it is minimised, and the only window with
/// focus, if any, is the topmost one still shown.
pub proof fn lemma_minimize_moves_focus(ws: Seq<Window>, id: u32)
    requires
        distinct_ids(ws),
    ensures
        minimized_stack(ws, id).len() == ws.len(),
        first_with_id(ws, id) != -1 ==> minimized_stack(ws, id)[first_with_id(ws, id)].minimized,
        forall|k: int|
            0 <= k < ws.len() && (#[trigger] minimized_stack(ws, id)[k]).active ==> {
                &&& !minimized_stack(ws, id)[k].minimized
                &&& forall|j: int| k < j < ws.len() ==> (#[trigger] minimized_stack(ws, id)[j]).minimized
            },
{
    lemma_first_with_id(ws, id);
    let i = first_with_id(ws, id);
    let ws1 = if i == -1 {
        ws
    } else {
        ws.update(i, Window { minimized: true, active: false, ..ws[i] })
    };
    let p = |w: Window| is_shown(w);
    lemma_last_where(ws1, p);
    let t = last_where(ws1, p);
    let r = minimized_stack(ws, id);
    assert(r == with_focus(ws1, top_shown_id(ws1)));
    assert forall|k: int| 0 <= k < ws.len() && (#[trigger] r[k]).active implies {
        &&& !r[k].minimized
        &&& forall|j: int| k < j < ws.len() ==> (#[trigger] r[j]).minimized
    } by {
        assert(top_shown_id(ws1) == Some(ws1[k].id));
        assert(t != -1);
        assert(ws1[t].id == ws1[k].id);
        if t != k {
            if t < k {
                assert(ws[t].id != ws[k].id);
            } else {
                assert(ws[k].id != ws[t].id);
            }
        }
        assert forall|j: int| k < j < ws.len() implies (#[trigger] r[j]).minimized by {
            assert(!p(ws1[j]));
        }
    }
}

/// Maximising and then restoring a window puts it back where it was, with
/// the size it had.
pub proof fn lemma_maximize_round_trip(w: Window)
    requires
        !w.maximized,
    ensures
        toggled_maximize(toggled_maximize(w)).x == w.x,
        toggled_maximize(toggled_maximize(w)).y == w.y,
        toggled_maximize(toggled_maximize(w)).width == w.width,
        toggled_maximize(toggled_maximize(w)).height == w.height,
        !toggled_maximize(toggled_maximize(w)).maximized,
        toggled_maximize(w).maximized,
{
}

/// A window snapped to the top of the screen is maximised, and restoring it
/// puts it back where it was before the snap.
pub proof fn lemma_snap_maximize_then_restore(w: Window)
    requires
        !w.maximized,
    ensures
        snapped(w, SnapZone::Maximize).maximized,
        toggled_maximize(snapped(w, SnapZone::Maximize)).x == w.x,
        toggled_maximize(snapped(w, SnapZone::Maximize)).y == w.y,
        toggled_maximize(snapped(w, SnapZone::Maximize)).width == w.width,
        toggled_maximize(snapped(w, SnapZone::Maximize)).height == w.height,
        !toggled_maximize(snapped(w, SnapZone::Maximize)).maximized,
{
}

/// A drag released at `(mx, my)` snaps by where the pointer is: within 24
/// pixels of the top it maximises; otherwise within 24 pixels of the left
/// (right) edge it snaps to the left (right) quarter on the pointer's half
/// of the screen, the upper one above 360 and the lower one from 360 down;
/// anywhere else it does not snap. A quarter chosen always lies on the
/// pointer's half: its top is 0 when the pointer is in the upper half and
/// 341 when it is in the lower half, and its left side is on the pointer's
/// side.
pub proof fn lemma_snap_follows_pointer(mx: int, my: int)
    ensures
        my < 24 ==> snap_zone_at(mx, my) == Some(SnapZone::Maximize),
        my >= 24 && mx < 24 && my < 360 ==> snap_zone_at(mx, my) == Some(SnapZone::TopLeft),
        my >= 24 && mx < 24 && my >= 360 ==> snap_zone_at(mx, my) == Some(SnapZone::BottomLeft),
        my >= 24 && mx > 1256 && my < 360 ==> snap_zone_at(mx, my) == Some(SnapZone::TopRight),
        my >= 24 && mx > 1256 && my >= 360 ==> snap_zone_at(mx, my) == Some(SnapZone::BottomRight),
        my >= 24 && 24 <= mx <= 1256 ==> snap_zone_at(mx, my) is None,
        forall|z: SnapZone|
            snap_zone_at(mx, my) == Some(z) && z != SnapZone::Maximize ==> {
                &&& (my < 360 <==> (#[trigger] snap_rect(z)).1 == 0)
                &&& (my >= 360 <==> snap_rect(z).1 == 341)
                &&& snap_rect(z).1 + snap_rect(z).3 <= 682
                &&& (mx < 640 <==> snap_rect(z).0 == 0)
                &&& snap_rect(z).0 + snap_rect(z).2 <= 1280
            },
{
}

/// Resizing moves exactly the dragged sides with the pointer. With
/// `dx = mx - smx` and `dy = my - smy`: dragging a right side (Right,
/// TopRight, BottomRight) makes the width `sw + dx`, or the minimum width
/// if that is less, and keeps `x`; dragging a left side (Left, TopLeft,
/// BottomLeft) makes the width `sw - dx`, or the minimum, and puts `x` so
/// that the right side stays at `swx + sw`; a drag of only the top or
/// bottom keeps `x` and the width. The same holds for the height, `y` and
/// `dy`. Nothing else about the window changes.
pub proof fn lemma_resize_follows_pointer(
    w: Window,
    edge: ResizeEdge,
    smx: i32,
    smy: i32,
    sw: u32,
    sh: u32,
    swx: i32,
    swy: i32,
    mx: i32,
    my: i32,
)
    requires
        resize_fits(w, edge, smx, smy, sw, sh, swx, swy, mx, my),
        sw <= i32::MAX,
        sh <= i32::MAX,
        w.min_width <= i32::MAX,
        w.min_height <= i32::MAX,
    ensures
        ({
            let r = resized(w, edge, smx, smy, sw, sh, swx, swy, mx, my);
            let dx = mx - smx;
            let dy = my - smy;
            &&& (edge == ResizeEdge::Right || edge == ResizeEdge::TopRight || edge == ResizeEdge::BottomRight)
                ==> {
                &&& r.width == (if sw + dx >= w.min_width { sw + dx } else { w.min_width as int })
                &&& r.x == w.x
            }
            &&& (edge == ResizeEdge::Left || edge == ResizeEdge::TopLeft || edge == ResizeEdge::BottomLeft)
                ==> {
                &&& r.width == (if sw - dx >= w.min_width { sw - dx } else { w.min_width as int })
                &&& r.x + r.width == swx + sw
            }
            &&& (edge == ResizeEdge::Top || edge == ResizeEdge::Bottom) ==> r.width == w.width && r.x == w.x
            &&& (edge == ResizeEdge::Bottom || edge == ResizeEdge::BottomLeft || edge == ResizeEdge::BottomRight)
                ==> {
                &&& r.height == (if sh + dy >= w.min_height { sh + dy } else { w.min_height as int })
                &&& r.y == w.y
            }
            &&& (edge == ResizeEdge::Top || edge == ResizeEdge::TopLeft || edge == ResizeEdge::TopRight)
                ==> {
                &&& r.height == (if sh - dy >= w.min_height { sh - dy } else { w.min_height as int })
                &&& r.y + r.height == swy + sh
            }
            &&& (edge == ResizeEdge::Left || edge == ResizeEdge::Right) ==> r.height == w.height && r.y == w.y
            &&& (Window { x: w.x, y: w.y, width: w.width, height: w.height, ..r }) == w
        }),
{
}

/// A resize never sets a side it drags below the minimum: dragging a left
/// or right side gives at least the minimum width, a top or bottom side at
/// least the minimum height (a size the drag does not change is kept as it
/// was, even below the minimum); and dragging the left (top) side keeps the
/// right (bottom) side where it was when the drag started.
pub proof fn lemma_resize_respects_minimum(
    w: Window,
    edge: ResizeEdge,
    smx: i32,
    smy: i32,
    sw: u32,
    sh: u32,
    swx: i32,
    swy: i32,
    mx: i32,
    my: i32,
)
    requires
        resize_fits(w, edge, smx, smy, sw, sh, swx, swy, mx, my),
        w.min_width <= i32::MAX,
        w.min_height <= i32::MAX,
    ensures
        ({
            let r = resized(w, edge, smx, smy, sw, sh, swx, swy, mx, my);
            &&& (moves_left(edge) || moves_right(edge)) ==> r.width >= w.min_width
            &&& (moves_top(edge) || moves_bottom(edge)) ==> r.height >= w.min_height
            &&& (moves_left(edge) && sw <= i32::MAX) ==> r.x + r.width == swx + sw
            &&& (moves_top(edge) && sh <= i32::MAX) ==> r.y + r.height == swy + sh
        }),
{
}

} // verus!

verus! {

/// How a window is listed: title, id in parentheses, and position.
pub open spec fn window_line(w: Window) -> Seq<char> {
    w.title@ + " ("@ + crate::text::decimal_digits(w.id as nat) + ") at ("@ + crate::text::int_text(w.x as int)
        + ","@ + crate::text::int_text(w.y as int) + ")"@
}

impl WindowManager {
    /// The lines listing the windows, bottom first.
    pub fn list_windows(&self) -> (r: Vec<String>)
        ensures
            crate::text::string_views(r@) == self.windows@.map_values(|w: Window| window_line(w)),
    {
        let mut r: Vec<String> = Vec::new();
        let mut k: usize = 0;
        while k < self.windows.len()
            invariant
                k <= self.windows@.len(),
                crate::text::string_views(r@) == self.windows@.take(k as int).map_values(|w: Window| window_line(w)),
            decreases self.windows@.len() - k,
        {
            let w = &self.windows[k];
            let mut line = crate::text::concat(w.title.as_str(), " (");
            crate::text::append(&mut line, crate::text::u64_to_string(w.id as u64).as_str());
            crate::text::append(&mut line, ") at (");
            crate::text::append(&mut line, crate::text::i32_to_string(w.x).as_str());
            crate::text::append(&mut line, ",");
            crate::text::append(&mut line, crate::text::i32_to_string(w.y).as_str());
            crate::text::append(&mut line, ")");
            crate::text::push_line(&mut r, line);
            assert(self.windows@.take(k + 1).map_values(|w: Window| window_line(w)) =~= self.windows@.take(
                k as int,
            ).map_values(|w: Window| window_line(w)).push(window_line(self.windows@[k as int])));
            k = k + 1;
        }
        assert(self.windows@.take(k as int) =~= self.windows@);
        r
    }
}

} // verus!
