//! A window's frame: the part of a window's drawing that needs neither the
//! font nor floating point. Everything is placed relative to the window's
//! rectangle cut to the screen; its corners are rounded with radius 8.
//! The title bar is drawn in row colours that the display server works out
//! as a gradient, before [`WindowRenderer::draw_frame`]; the title and the
//! content are drawn by the display server, the title before
//! [`WindowRenderer::draw_buttons`], the content after.
use vstd::prelude::*;
use crate::display::frame::{at, channel, in_rect, on_screen, repainted, FRAME_LEN, lemma_at_distinct};
use crate::display::icon_renderer::paint_or;
use crate::display::window_renderer::{WindowRenderer, corner_ok, corner_fits};
use crate::geometry::{cast_u32_i32, fits_i32, u32_as_i32};
use crate::text::str_eq;
use crate::window_manager::{Window, right_of, bottom_of};

verus! {

/// The window's rectangle `(x0, y0, x1, y1)` cut to the screen.
pub open spec fn win_box(w: Window) -> (int, int, int, int) {
    let xr = right_of(w);
    let yb = bottom_of(w);
    (
        if w.x < 0 { 0 } else { w.x as int },
        if w.y < 0 { 0 } else { w.y as int },
        if xr < 0 { 0 } else if xr > 1280 { 1280 } else { xr },
        if yb < 0 { 0 } else if yb > 720 { 720 } else { yb },
    )
}

/// Whether anything of the window is drawn: its cut rectangle is more than
/// four pixels wide and high.
pub open spec fn win_drawn(w: Window) -> bool {
    let (x0, y0, x1, y1) = win_box(w);
    x1 > x0 + 4 && y1 > y0 + 4
}

/// Whether `(x, y)` lies in the window's cut rectangle, rounded.
pub open spec fn win_inside(w: Window, x: int, y: int) -> bool {
    let (x0, y0, x1, y1) = win_box(w);
    &&& in_rect(x, y, x0, y0, x1, y1)
    &&& corner_ok(x - x0, y - y0, 8)
    &&& corner_ok(x1 - x - 1, y - y0, 8)
    &&& corner_ok(x - x0, y1 - y - 1, 8)
    &&& corner_ok(x1 - x - 1, y1 - y - 1, 8)
}

/// The colour of the round icon left of the title, by app.
pub open spec fn title_icon_colour(app: Seq<char>) -> (u8, u8, u8) {
    if app == "terminal"@ {
        (60u8, 200u8, 80u8)
    } else if app == "explorer"@ {
        (240u8, 180u8, 40u8)
    } else if app == "browser"@ {
        (60u8, 150u8, 255u8)
    } else if app == "tridocs"@ {
        (70u8, 130u8, 220u8)
    } else if app == "trisheets"@ {
        (50u8, 180u8, 100u8)
    } else if app == "trislides"@ {
        (220u8, 100u8, 60u8)
    } else if app == "tridraw"@ {
        (180u8, 80u8, 220u8)
    } else if app == "settings"@ {
        (130u8, 135u8, 175u8)
    } else {
        (160u8, 160u8, 200u8)
    }
}

/// Channel `c` of pixel `(x, y)`, old value `v`, after the frame is drawn:
/// the body below the title bar, the border (bright along the top when the
/// window has focus), a sheen over the top row, the line under the title
/// bar and the app's round icon, each over the ones before.
pub open spec fn frame_shade(w: Window, x: int, y: int, c: int, v: u8) -> u8 {
    let (x0, y0, x1, y1) = win_box(w);
    if !win_drawn(w) {
        v
    } else {
        let inside = win_inside(w, x, y);
        let edge = x == x0 || x == x1 - 1 || y == y0 || y == y1 - 1;
        let v1 = if inside && y >= y0 + 32 { channel((16u8, 16u8, 24u8), c) } else { v };
        let v2 = if inside && edge {
            if y == y0 {
                channel(if w.active { (92u8, 158u8, 248u8) } else { (62u8, 66u8, 98u8) }, c)
            } else {
                channel((32u8, 35u8, 58u8), c)
            }
        } else {
            v1
        };
        let v3 = if y == y0 && x0 + 8 <= x < x1 - 8 && c < 3 { ((v2 * 205 + 12750) / 255) as u8 } else { v2 };
        let v4 = if y == y0 + 32 && x0 <= x < x1 { channel((22u8, 26u8, 48u8), c) } else { v3 };
        let dx = x - (x0 + 12);
        let dy = y - (y0 + 16);
        if -6 <= dx <= 6 && -6 <= dy <= 6 && dx * dx + dy * dy <= 36 {
            channel(title_icon_colour(w.app@), c)
        } else {
            v4
        }
    }
}

/// `a - b`, or zero.
pub open spec fn sat(a: int, b: int) -> int {
    if a >= b { a - b } else { 0 }
}

/// Channel `c` of pixel `(x, y)`, old value `v`, after the title bar's
/// buttons are drawn: a minimise bar, a maximise square and a red close
/// circle with a white cross, right to left from the right edge.
pub open spec fn buttons_shade(w: Window, x: int, y: int, c: int, v: u8) -> u8 {
    let (x0, y0, x1, y1) = win_box(w);
    let bcy = y0 + 16;
    let close_x = sat(x1, 18);
    let max_x = sat(close_x, 26);
    let min_x = sat(max_x, 26);
    let lc = (185u8, 190u8, 218u8);
    let dx = x - close_x;
    let dy = y - bcy;
    if !win_drawn(w) {
        v
    } else if -4 <= dy <= 4 && (dx - dy == 0 || dx - dy == 1 || dx + dy == 0 || dx + dy == 1) {
        channel((255u8, 255u8, 255u8), c)
    } else if -8 <= dx <= 8 && -8 <= dy <= 8 && dx * dx + dy * dy <= 64 {
        channel((218u8, 58u8, 58u8), c)
    } else if (-7 <= x - max_x <= 7 && (dy == 7 || dy == -7)) || ((x - max_x == 7 || x - max_x == -7) && -7 <= dy
        <= 7) {
        channel(lc, c)
    } else if sat(min_x, 5) <= x < min_x + 6 && (y == bcy || y == bcy + 1) {
        channel(lc, c)
    } else {
        v
    }
}

/// The cut rectangle, computed.
fn box_of(w: &Window) -> (r: (usize, usize, usize, usize))
    requires
        fits_i32(right_of(*w)),
        fits_i32(bottom_of(*w)),
    ensures
        r.0 as int == win_box(*w).0,
        r.1 as int == win_box(*w).1,
        r.2 as int == win_box(*w).2,
        r.3 as int == win_box(*w).3,
{
    let xr = w.x as i64 + cast_u32_i32(w.width) as i64;
    let yb = w.y as i64 + cast_u32_i32(w.height) as i64;
    let x0: usize = if w.x < 0 { 0 } else { w.x as usize };
    let y0: usize = if w.y < 0 { 0 } else { w.y as usize };
    let x1: usize = if xr < 0 { 0 } else if xr > 1280 { 1280 } else { xr as usize };
    let y1: usize = if yb < 0 { 0 } else if yb > 720 { 720 } else { yb as usize };
    (x0, y0, x1, y1)
}

/// The corner tests of radius 8 stay within `usize`.
proof fn lemma_corner_fits8(a: int, b: int)
    requires
        0 <= a,
        0 <= b,
    ensures
        corner_fits(a, b, 8),
{
    if a < 8 && b < 8 {
        assert(0 <= (8 - a) * (8 - a) <= 64 && 0 <= (8 - b) * (8 - b) <= 64) by (nonlinear_arith)
            requires
                0 <= a < 8,
                0 <= b < 8,
        ;
    }
}

/// The icon colour, computed.
fn title_icon_colour_of(app: &str) -> (r: (u8, u8, u8))
    ensures
        r == title_icon_colour(app@),
{
    if str_eq(app, "terminal") {
        (60, 200, 80)
    } else if str_eq(app, "explorer") {
        (240, 180, 40)
    } else if str_eq(app, "browser") {
        (60, 150, 255)
    } else if str_eq(app, "tridocs") {
        (70, 130, 220)
    } else if str_eq(app, "trisheets") {
        (50, 180, 100)
    } else if str_eq(app, "trislides") {
        (220, 100, 60)
    } else if str_eq(app, "tridraw") {
        (180, 80, 220)
    } else if str_eq(app, "settings") {
        (130, 135, 175)
    } else {
        (160, 160, 200)
    }
}

/// Whether `(dx, dy)` lies in the disc of radius `r` (at most 8).
fn in_disc(dx: i64, dy: i64, r: i64) -> (b: bool)
    requires
        0 <= r <= 8,
    ensures
        b == (-r <= dx <= r && -r <= dy <= r && dx * dx + dy * dy <= r * r),
{
    if -r <= dx && dx <= r && -r <= dy && dy <= r {
        assert(0 <= dx * dx <= 64 && 0 <= dy * dy <= 64 && r * r <= 64) by (nonlinear_arith)
            requires
                -r <= dx <= r,
                -r <= dy <= r,
                0 <= r <= 8,
        ;
        dx * dx + dy * dy <= r * r
    } else {
        false
    }
}

/// The four channels of pixel `(xx, yy)` after the frame is drawn over
/// `old`.
#[verifier::rlimit(40)]
fn frame_pixel(
    w: &Window,
    b: (usize, usize, usize, usize),
    icon: (u8, u8, u8),
    top: (u8, u8, u8),
    xx: usize,
    yy: usize,
    old: (u8, u8, u8, u8),
) -> (r: (u8, u8, u8, u8))
    requires
        b.0 as int == win_box(*w).0,
        b.1 as int == win_box(*w).1,
        b.2 as int == win_box(*w).2,
        b.3 as int == win_box(*w).3,
        win_drawn(*w),
        b.2 <= 1280,
        b.3 <= 720,
        b.0 <= xx < 1280,
        b.1 <= yy < 720,
        icon == title_icon_colour(w.app@),
        top == (if w.active { (92u8, 158u8, 248u8) } else { (62u8, 66u8, 98u8) }),
    ensures
        r.0 == frame_shade(*w, xx as int, yy as int, 0, old.0),
        r.1 == frame_shade(*w, xx as int, yy as int, 1, old.1),
        r.2 == frame_shade(*w, xx as int, yy as int, 2, old.2),
        r.3 == frame_shade(*w, xx as int, yy as int, 3, old.3),
{
    let (x0, y0, x1, y1) = b;
    let in_box = xx < x1 && yy < y1;
    let ly = yy - y0;
    let inside = if in_box {
        let lx = xx - x0;
        let rx = x1 - xx - 1;
        let ry = y1 - yy - 1;
        proof {
            lemma_corner_fits8(lx as int, ly as int);
            lemma_corner_fits8(rx as int, ly as int);
            lemma_corner_fits8(lx as int, ry as int);
            lemma_corner_fits8(rx as int, ry as int);
        }
        WindowRenderer::rr(lx, ly, rx, ry, 8)
    } else {
        false
    };
    assert(inside == win_inside(*w, xx as int, yy as int));
    let edge = xx == x0 || xx + 1 == x1 || yy == y0 || yy + 1 == y1;
    let c1 = if inside && ly >= 32 { (16u8, 16u8, 24u8, 255u8) } else { old };
    let c2 = if inside && edge {
        if ly == 0 {
            (top.0, top.1, top.2, 255u8)
        } else {
            (32u8, 35u8, 58u8, 255u8)
        }
    } else {
        c1
    };
    let c3 = if ly == 0 && x0 + 8 <= xx && xx + 8 < x1 {
        (
            ((c2.0 as u16 * 205 + 12750) / 255) as u8,
            ((c2.1 as u16 * 205 + 12750) / 255) as u8,
            ((c2.2 as u16 * 205 + 12750) / 255) as u8,
            c2.3,
        )
    } else {
        c2
    };
    let c4 = if ly == 32 && xx < x1 { (22u8, 26u8, 48u8, 255u8) } else { c3 };
    if in_disc(xx as i64 - (x0 as i64 + 12), yy as i64 - (y0 as i64 + 16), 6) {
        (icon.0, icon.1, icon.2, 255u8)
    } else {
        c4
    }
}

impl WindowRenderer {
    /// Draws a window's title bar in the row colours `shades`, top row
    /// first: see [`title_colour`]. The display server works the colours
    /// out as a gradient.
    pub fn draw_title_bar(frame: &mut [u8], w: &Window, shades: &Vec<(u8, u8, u8)>)
        requires
            old(frame)@.len() >= FRAME_LEN,
            fits_i32(right_of(*w)),
            fits_i32(bottom_of(*w)),
            shades@.len() == 32,
        ensures
            repainted(
                old(frame)@,
                final(frame)@,
                |x: int, y: int, c: int, v: u8| paint_or(title_colour(*w, shades@, x, y), c, v),
            ),
    {
        let (x0, y0, x1, y1) = box_of(w);
        if x1 <= x0 + 4 || y1 <= y0 + 4 {
            return ;
        }
        let xs = x0;
        let xe = x1;
        let ys = y0;
        let ye: usize = if y0 + 32 < y1 { y0 + 32 } else { y1 };
        let ghost start = frame@;
        assert forall|x: int, y: int, c: int|
            on_screen(x, y) && 0 <= c < 4 && !(xs <= x < xe && ys <= y < ye) implies paint_or(
                title_colour(*w, shades@, x, y),
                c,
                #[trigger] start[at(x, y, c)],
            ) == start[at(x, y, c)] by {}
        let mut yy: usize = ys;
        while yy < ye
            invariant
                ys <= yy <= ye,
                ye <= 720,
                xs <= xe <= 1280,
                x0 as int == win_box(*w).0,
                y0 as int == win_box(*w).1,
                x1 as int == win_box(*w).2,
                y1 as int == win_box(*w).3,
                win_drawn(*w),
                x1 <= 1280,
                y1 <= 720,
                xs == x0,
                ys == y0,
                shades@.len() == 32,
                frame@.len() == start.len(),
                start.len() >= FRAME_LEN,
                forall|x: int, y: int, c: int|
                    on_screen(x, y) && 0 <= c < 4 ==> #[trigger] frame@[at(x, y, c)] == if ys <= y < yy {
                        paint_or(title_colour(*w, shades@, x, y), c, start[at(x, y, c)])
                    } else {
                        start[at(x, y, c)]
                    },
                forall|x: int, y: int, c: int|
                    on_screen(x, y) && 0 <= c < 4 && !(xs <= x < xe && ys <= y < ye) ==> paint_or(
                        title_colour(*w, shades@, x, y),
                        c,
                        #[trigger] start[at(x, y, c)],
                    ) == start[at(x, y, c)],
                forall|i: int| FRAME_LEN <= i < start.len() ==> #[trigger] frame@[i] == start[i],
            decreases ye - yy,
        {
            let mut xx: usize = xs;
            while xx < xe
                invariant
                    ys <= yy < ye,
                    ye <= 720,
                    xs <= xx <= xe,
                    xe <= 1280,
                x0 as int == win_box(*w).0,
                y0 as int == win_box(*w).1,
                x1 as int == win_box(*w).2,
                y1 as int == win_box(*w).3,
                win_drawn(*w),
                x1 <= 1280,
                y1 <= 720,
                xs == x0,
                ys == y0,
                shades@.len() == 32,
                    frame@.len() == start.len(),
                    start.len() >= FRAME_LEN,
                    forall|x: int, y: int, c: int|
                        on_screen(x, y) && 0 <= c < 4 ==> #[trigger] frame@[at(x, y, c)] == if ys <= y < yy || (y
                            == yy && xs <= x < xx) {
                            paint_or(title_colour(*w, shades@, x, y), c, start[at(x, y, c)])
                        } else {
                            start[at(x, y, c)]
                        },
                    forall|i: int| FRAME_LEN <= i < start.len() ==> #[trigger] frame@[i] == start[i],
                decreases xe - xx,
            {
                let ghost before = frame@;
                let i = (yy * 1280 + xx) * 4;
                let colour = title_pixel(w, (x0, y0, x1, y1), shades, xx, yy);
                proof {
                    assert(before[at(xx as int, yy as int, 0)] == start[at(xx as int, yy as int, 0)]);
                    assert(before[at(xx as int, yy as int, 1)] == start[at(xx as int, yy as int, 1)]);
                    assert(before[at(xx as int, yy as int, 2)] == start[at(xx as int, yy as int, 2)]);
                    assert(before[at(xx as int, yy as int, 3)] == start[at(xx as int, yy as int, 3)]);
                }
                match colour {
                    Some(rgb) => {
                        frame[i] = rgb.0;
                        frame[i + 1] = rgb.1;
                        frame[i + 2] = rgb.2;
                        frame[i + 3] = 255;
                    },
                    None => {},
                }
                proof {
                    assert forall|x: int, y: int, c: int| on_screen(x, y) && 0 <= c < 4 implies #[trigger] frame@[at(
                        x,
                        y,
                        c,
                    )] == if ys <= y < yy || (y == yy && xs <= x < xx + 1) {
                        paint_or(title_colour(*w, shades@, x, y), c, start[at(x, y, c)])
                    } else {
                        start[at(x, y, c)]
                    } by {
                        lemma_at_distinct(x, y, c, xx as int, yy as int, 0);
                        lemma_at_distinct(x, y, c, xx as int, yy as int, 1);
                        lemma_at_distinct(x, y, c, xx as int, yy as int, 2);
                        lemma_at_distinct(x, y, c, xx as int, yy as int, 3);
                        assert(before[at(x, y, c)] == if ys <= y < yy || (y == yy && xs <= x < xx) {
                            paint_or(title_colour(*w, shades@, x, y), c, start[at(x, y, c)])
                        } else {
                            start[at(x, y, c)]
                        });
                    }
                }
                xx = xx + 1;
            }
            yy = yy + 1;
        }
    }

    /// Draws a window's frame: see [`frame_shade`].
    #[verifier::rlimit(60)]
    pub fn draw_frame(frame: &mut [u8], w: &Window)
        requires
            old(frame)@.len() >= FRAME_LEN,
            fits_i32(right_of(*w)),
            fits_i32(bottom_of(*w)),
        ensures
            repainted(old(frame)@, final(frame)@, |x: int, y: int, c: int, v: u8| frame_shade(*w, x, y, c, v)),
    {
        let ghost start = frame@;
        let (x0, y0, x1, y1) = box_of(w);
        if x1 <= x0 + 4 || y1 <= y0 + 4 {
            return ;
        }
        let icon = title_icon_colour_of(w.app.as_str());
        let top: (u8, u8, u8) = if w.active { (92, 158, 248) } else { (62, 66, 98) };
        let xe: usize = if x1 >= x0 + 19 { x1 } else if x0 + 19 > 1280 { 1280 } else { x0 + 19 };
        let ye: usize = if y1 >= y0 + 33 { y1 } else if y0 + 33 > 720 { 720 } else { y0 + 33 };
        let mut yy: usize = y0;
        while yy < ye
            invariant
                x0 as int == win_box(*w).0,
                y0 as int == win_box(*w).1,
                x1 as int == win_box(*w).2,
                y1 as int == win_box(*w).3,
                win_drawn(*w),
                x1 <= 1280,
                y1 <= 720,
                xe == (if x1 >= x0 + 19 { x1 as int } else if x0 + 19 > 1280 { 1280 } else { x0 + 19 }),
                ye == (if y1 >= y0 + 33 { y1 as int } else if y0 + 33 > 720 { 720 } else { y0 + 33 }),
                y0 <= yy <= ye,
                icon == title_icon_colour(w.app@),
                top == (if w.active { (92u8, 158u8, 248u8) } else { (62u8, 66u8, 98u8) }),
                frame@.len() == start.len(),
                start.len() >= FRAME_LEN,
                forall|x: int, y: int, c: int|
                    on_screen(x, y) && 0 <= c < 4 ==> #[trigger] frame@[at(x, y, c)] == if y0 <= y < yy && x0
                        <= x < xe {
                        frame_shade(*w, x, y, c, start[at(x, y, c)])
                    } else {
                        start[at(x, y, c)]
                    },
                forall|i: int| FRAME_LEN <= i < start.len() ==> #[trigger] frame@[i] == start[i],
            decreases ye - yy,
        {
            let mut xx: usize = x0;
            while xx < xe
                invariant
                    x0 as int == win_box(*w).0,
                    y0 as int == win_box(*w).1,
                    x1 as int == win_box(*w).2,
                    y1 as int == win_box(*w).3,
                    win_drawn(*w),
                    x1 <= 1280,
                    y1 <= 720,
                    xe == (if x1 >= x0 + 19 { x1 as int } else if x0 + 19 > 1280 { 1280 } else { x0 + 19 }),
                    ye == (if y1 >= y0 + 33 { y1 as int } else if y0 + 33 > 720 { 720 } else { y0 + 33 }),
                    y0 <= yy < ye,
                    x0 <= xx <= xe,
                    icon == title_icon_colour(w.app@),
                    top == (if w.active { (92u8, 158u8, 248u8) } else { (62u8, 66u8, 98u8) }),
                    frame@.len() == start.len(),
                    start.len() >= FRAME_LEN,
                    forall|x: int, y: int, c: int|
                        on_screen(x, y) && 0 <= c < 4 ==> #[trigger] frame@[at(x, y, c)] == if x0 <= x < xe
                            && (y0 <= y < yy || (y == yy && x < xx)) {
                            frame_shade(*w, x, y, c, start[at(x, y, c)])
                        } else {
                            start[at(x, y, c)]
                        },
                    forall|i: int| FRAME_LEN <= i < start.len() ==> #[trigger] frame@[i] == start[i],
                decreases xe - xx,
            {
                let ghost before = frame@;
                let i = (yy * 1280 + xx) * 4;
                proof {
                    assert(before[at(xx as int, yy as int, 0)] == start[at(xx as int, yy as int, 0)]);
                    assert(before[at(xx as int, yy as int, 1)] == start[at(xx as int, yy as int, 1)]);
                    assert(before[at(xx as int, yy as int, 2)] == start[at(xx as int, yy as int, 2)]);
                    assert(before[at(xx as int, yy as int, 3)] == start[at(xx as int, yy as int, 3)]);
                }
                let old = (frame[i], frame[i + 1], frame[i + 2], frame[i + 3]);
                let c5 = frame_pixel(w, (x0, y0, x1, y1), icon, top, xx, yy, old);
                frame[i] = c5.0;
                frame[i + 1] = c5.1;
                frame[i + 2] = c5.2;
                frame[i + 3] = c5.3;
                proof {
                    assert(c5.0 == frame_shade(*w, xx as int, yy as int, 0, start[at(xx as int, yy as int, 0)]));
                    assert(c5.1 == frame_shade(*w, xx as int, yy as int, 1, start[at(xx as int, yy as int, 1)]));
                    assert(c5.2 == frame_shade(*w, xx as int, yy as int, 2, start[at(xx as int, yy as int, 2)]));
                    assert(c5.3 == frame_shade(*w, xx as int, yy as int, 3, start[at(xx as int, yy as int, 3)]));
                    assert forall|x: int, y: int, c: int| on_screen(x, y) && 0 <= c < 4 implies #[trigger] frame@[at(
                        x,
                        y,
                        c,
                    )] == if x0 <= x < xe && (y0 <= y < yy || (y == yy && x < xx + 1)) {
                        frame_shade(*w, x, y, c, start[at(x, y, c)])
                    } else {
                        start[at(x, y, c)]
                    } by {
                        lemma_at_distinct(x, y, c, xx as int, yy as int, 0);
                        lemma_at_distinct(x, y, c, xx as int, yy as int, 1);
                        lemma_at_distinct(x, y, c, xx as int, yy as int, 2);
                        lemma_at_distinct(x, y, c, xx as int, yy as int, 3);
                        assert(before[at(x, y, c)] == if x0 <= x < xe && (y0 <= y < yy || (y == yy && x < xx)) {
                            frame_shade(*w, x, y, c, start[at(x, y, c)])
                        } else {
                            start[at(x, y, c)]
                        });
                    }
                }
                xx = xx + 1;
            }
            yy = yy + 1;
        }
        proof {
            assert forall|x: int, y: int, c: int| on_screen(x, y) && 0 <= c < 4 implies #[trigger] frame@[at(
                x,
                y,
                c,
            )] == frame_shade(*w, x, y, c, start[at(x, y, c)]) by {
                if !(x0 <= x < xe && y0 <= y < ye) {
                    assert(!win_inside(*w, x, y));
                    assert(frame_shade(*w, x, y, c, start[at(x, y, c)]) == start[at(x, y, c)]);
                }
            }
        }
    }
}

/// The colour the title bar in row colours `shades` (top row first) gives
/// pixel `(x, y)`, if any: the top 32 rows of the window's rounded, cut
/// rectangle.
pub open spec fn title_colour(w: Window, shades: Seq<(u8, u8, u8)>, x: int, y: int) -> Option<(u8, u8, u8)> {
    let (x0, y0, x1, y1) = win_box(w);
    if win_drawn(w) && win_inside(w, x, y) && y < y0 + 32 {
        Some(shades[y - y0])
    } else {
        None
    }
}

/// `title_colour`, computed.
fn title_pixel(w: &Window, b: (usize, usize, usize, usize), shades: &Vec<(u8, u8, u8)>, xx: usize, yy: usize) -> (r: Option<
    (u8, u8, u8),
>)
    requires
        b.0 as int == win_box(*w).0,
        b.1 as int == win_box(*w).1,
        b.2 as int == win_box(*w).2,
        b.3 as int == win_box(*w).3,
        win_drawn(*w),
        b.2 <= 1280,
        b.3 <= 720,
        b.0 <= xx < 1280,
        b.1 <= yy < 720,
        shades@.len() == 32,
    ensures
        r == title_colour(*w, shades@, xx as int, yy as int),
{
    let (x0, y0, x1, y1) = b;
    if !(xx < x1 && yy < y1 && yy < y0 + 32) {
        return None;
    }
    let lx = xx - x0;
    let ly = yy - y0;
    let rx = x1 - xx - 1;
    let ry = y1 - yy - 1;
    proof {
        lemma_corner_fits8(lx as int, ly as int);
        lemma_corner_fits8(rx as int, ly as int);
        lemma_corner_fits8(lx as int, ry as int);
        lemma_corner_fits8(rx as int, ry as int);
    }
    if WindowRenderer::rr(lx, ly, rx, ry, 8) {
        Some(shades[ly])
    } else {
        None
    }
}

/// The colour the title bar's buttons give pixel `(x, y)`, if any: see
/// [`buttons_shade`].
fn button_pixel(b: (usize, usize, usize, usize), x: usize, y: usize) -> (r: Option<(u8, u8, u8)>)
    requires
        b.2 <= 1280,
        b.3 <= 720,
        b.1 < 720,
        x < 1280,
        y < 720,
    ensures
        ({
            let bcy = b.1 + 16;
            let close_x = sat(b.2 as int, 18);
            let max_x = sat(close_x, 26);
            let min_x = sat(max_x, 26);
            let dx = x - close_x;
            let dy = y - bcy;
            r == if -4 <= dy <= 4 && (dx - dy == 0 || dx - dy == 1 || dx + dy == 0 || dx + dy == 1) {
                Some((255u8, 255u8, 255u8))
            } else if -8 <= dx <= 8 && -8 <= dy <= 8 && dx * dx + dy * dy <= 64 {
                Some((218u8, 58u8, 58u8))
            } else if (-7 <= x - max_x <= 7 && (dy == 7 || dy == -7)) || ((x - max_x == 7 || x - max_x == -7) && -7
                <= dy <= 7) {
                Some((185u8, 190u8, 218u8))
            } else if sat(min_x, 5) <= x < min_x + 6 && (y == bcy || y == bcy + 1) {
                Some((185u8, 190u8, 218u8))
            } else {
                None
            }
        }),
{
    let bcy = b.1 as i64 + 16;
    let close_x = b.2.saturating_sub(18) as i64;
    let max_x = if close_x >= 26 { close_x - 26 } else { 0 };
    let min_x = if max_x >= 26 { max_x - 26 } else { 0 };
    let x = x as i64;
    let y = y as i64;
    let dx = x - close_x;
    let dy = y - bcy;
    let mx = x - max_x;
    let lo = if min_x >= 5 { min_x - 5 } else { 0 };
    if -4 <= dy && dy <= 4 && (dx - dy == 0 || dx - dy == 1 || dx + dy == 0 || dx + dy == 1) {
        Some((255, 255, 255))
    } else if in_disc(dx, dy, 8) {
        Some((218, 58, 58))
    } else if (-7 <= mx && mx <= 7 && (dy == 7 || dy == -7)) || ((mx == 7 || mx == -7) && -7 <= dy && dy <= 7) {
        Some((185, 190, 218))
    } else if lo <= x && x < min_x + 6 && (y == bcy || y == bcy + 1) {
        Some((185, 190, 218))
    } else {
        None
    }
}

impl WindowRenderer {
    /// Where a window is drawn: its rectangle cut to the screen,
    /// `(x0, y0, x1, y1)`, and the top of its content, one pixel below the
    /// 32 pixel title bar and kept on the screen; nothing when the cut
    /// rectangle is 4 pixels wide or high or less.
    pub fn window_area(w: &Window) -> (r: Option<(usize, usize, usize, usize, usize)>)
        requires
            fits_i32(right_of(*w)),
            fits_i32(bottom_of(*w)),
        ensures
            r is None <==> !win_drawn(*w),
            r matches Some(a) ==> {
                &&& (a.0 as int, a.1 as int, a.2 as int, a.3 as int) == win_box(*w)
                &&& a.0 < a.2 <= 1280
                &&& a.1 < a.3 <= 720
                &&& a.4 as int == if a.1 + 33 < 720 { a.1 + 33 } else { 720 }
            },
    {
        let (x0, y0, x1, y1) = box_of(w);
        if x1 <= x0 + 4 || y1 <= y0 + 4 {
            return None;
        }
        let top: usize = if y0 + 33 < 720 { y0 + 33 } else { 720 };
        Some((x0, y0, x1, y1, top))
    }

    /// The left edges of the title bar's close, maximise and minimise
    /// buttons of a window whose cut rectangle ends at `x1`: 18, 44 and 70
    /// pixels left of it, or the screen's left edge.
    pub fn button_xs(x1: usize) -> (r: (usize, usize, usize))
        ensures
            r.0 as int == sat(x1 as int, 18),
            r.1 as int == sat(r.0 as int, 26),
            r.2 as int == sat(r.1 as int, 26),
    {
        let close_x = x1.saturating_sub(18);
        let max_x = close_x.saturating_sub(26);
        (close_x, max_x, max_x.saturating_sub(26))
    }
}

impl WindowRenderer {
    /// Draws the buttons of a window's title bar: see [`buttons_shade`].
    pub fn draw_buttons(frame: &mut [u8], w: &Window)
        requires
            old(frame)@.len() >= FRAME_LEN,
            fits_i32(right_of(*w)),
            fits_i32(bottom_of(*w)),
        ensures
            repainted(old(frame)@, final(frame)@, |x: int, y: int, c: int, v: u8| buttons_shade(*w, x, y, c, v)),
    {
        let ghost start = frame@;
        let (x0, y0, x1, y1) = box_of(w);
        if x1 <= x0 + 4 || y1 <= y0 + 4 {
            return ;
        }
        let ya: usize = y0 + 8;
        let yb: usize = if y0 + 25 > 720 { 720 } else { y0 + 25 };
        let mut yy: usize = ya;
        while yy < yb
            invariant
                x0 as int == win_box(*w).0,
                y0 as int == win_box(*w).1,
                x1 as int == win_box(*w).2,
                y1 as int == win_box(*w).3,
                win_drawn(*w),
                x1 <= 1280,
                y1 <= 720,
                y0 < 720,
                ya == y0 + 8,
                yb == (if y0 + 25 > 720 { 720 } else { y0 + 25 }),
                ya <= yy,
                yy <= yb || yy == ya,
                frame@.len() == start.len(),
                start.len() >= FRAME_LEN,
                forall|x: int, y: int, c: int|
                    on_screen(x, y) && 0 <= c < 4 ==> #[trigger] frame@[at(x, y, c)] == if ya <= y < yy {
                        buttons_shade(*w, x, y, c, start[at(x, y, c)])
                    } else {
                        start[at(x, y, c)]
                    },
                forall|i: int| FRAME_LEN <= i < start.len() ==> #[trigger] frame@[i] == start[i],
            decreases yb - yy,
        {
            let mut xx: usize = 0;
            while xx < 1280
                invariant
                    x0 as int == win_box(*w).0,
                    y0 as int == win_box(*w).1,
                    x1 as int == win_box(*w).2,
                    y1 as int == win_box(*w).3,
                    win_drawn(*w),
                    x1 <= 1280,
                    y1 <= 720,
                    y0 < 720,
                    ya == y0 + 8,
                    yb == (if y0 + 25 > 720 { 720 } else { y0 + 25 }),
                    ya <= yy < yb,
                    xx <= 1280,
                    frame@.len() == start.len(),
                    start.len() >= FRAME_LEN,
                    forall|x: int, y: int, c: int|
                        on_screen(x, y) && 0 <= c < 4 ==> #[trigger] frame@[at(x, y, c)] == if ya <= y < yy || (y
                            == yy && x < xx) {
                            buttons_shade(*w, x, y, c, start[at(x, y, c)])
                        } else {
                            start[at(x, y, c)]
                        },
                    forall|i: int| FRAME_LEN <= i < start.len() ==> #[trigger] frame@[i] == start[i],
                decreases 1280 - xx,
            {
                let ghost before = frame@;
                let i = (yy * 1280 + xx) * 4;
                match button_pixel((x0, y0, x1, y1), xx, yy) {
                    Some(rgb) => {
                        frame[i] = rgb.0;
                        frame[i + 1] = rgb.1;
                        frame[i + 2] = rgb.2;
                        frame[i + 3] = 255;
                    },
                    None => {},
                }
                proof {
                    assert forall|x: int, y: int, c: int| on_screen(x, y) && 0 <= c < 4 implies #[trigger] frame@[at(
                        x,
                        y,
                        c,
                    )] == if ya <= y < yy || (y == yy && x < xx + 1) {
                        buttons_shade(*w, x, y, c, start[at(x, y, c)])
                    } else {
                        start[at(x, y, c)]
                    } by {
                        lemma_at_distinct(x, y, c, xx as int, yy as int, 0);
                        lemma_at_distinct(x, y, c, xx as int, yy as int, 1);
                        lemma_at_distinct(x, y, c, xx as int, yy as int, 2);
                        lemma_at_distinct(x, y, c, xx as int, yy as int, 3);
                        assert(before[at(x, y, c)] == if ya <= y < yy || (y == yy && x < xx) {
                            buttons_shade(*w, x, y, c, start[at(x, y, c)])
                        } else {
                            start[at(x, y, c)]
                        });
                    }
                }
                xx = xx + 1;
            }
            yy = yy + 1;
        }
        proof {
            assert forall|x: int, y: int, c: int| on_screen(x, y) && 0 <= c < 4 implies #[trigger] frame@[at(
                x,
                y,
                c,
            )] == buttons_shade(*w, x, y, c, start[at(x, y, c)]) by {
                if !(ya <= y < yb) {
                    assert(buttons_shade(*w, x, y, c, start[at(x, y, c)]) == start[at(x, y, c)]);
                }
            }
        }
    }
}

} // verus!
