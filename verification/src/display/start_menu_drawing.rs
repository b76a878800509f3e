//! The start menu's drawing that needs neither the font nor floating
//! point: the panel and its border, the avatar, the search box with its
//! magnifier, the tile backgrounds and icon squares, the power buttons
//! under a divider, and the start button's bolt. Where a part is shaded
//! as a gradient, the display server works out its row colours in
//! floating point and hands them in; it draws every label between the
//! parts, in the order the functions here are listed.
use vstd::prelude::*;
use crate::display::desktop_renderer::DesktopRenderer;
use crate::display::frame::{at, channel, in_rect, on_screen, repainted, FRAME_LEN, lemma_at_distinct};
use crate::display::start_menu::{StartMenu, tile_fits};
use crate::display::icon_renderer::paint_or;
use crate::display::settings_drawing::{near, sq_dist};

verus! {

/// Whether a point `a` and `b` pixels from two sides lies in that corner's
/// square but outside its rounding of radius `r`.
pub open spec fn cut(a: int, b: int, r: int) -> bool {
    a < r && b < r && (r - a) * (r - a) + (r - b) * (r - b) > r * r
}

/// Whether offset `(lx, ly)` in a `w` x `h` rectangle lies inside it once
/// its corners are rounded with radius `r`.
pub open spec fn rounded(lx: int, ly: int, w: int, h: int, r: int) -> bool {
    &&& 0 <= lx < w
    &&& 0 <= ly < h
    &&& !cut(lx, ly, r)
    &&& !cut(w - 1 - lx, ly, r)
    &&& !cut(lx, h - 1 - ly, r)
    &&& !cut(w - 1 - lx, h - 1 - ly, r)
}

/// Whether offset `(lx, ly)` lies on the outermost ring of a `w` x `h`
/// rectangle.
pub open spec fn on_edge(lx: int, ly: int, w: int, h: int) -> bool {
    lx == 0 || ly == 0 || lx == w - 1 || ly == h - 1
}

/// `cut`, computed, for radii up to 12.
pub(crate) fn cut_now(a: i64, b: i64, r: i64) -> (x: bool)
    requires
        0 <= a,
        0 <= b,
        0 <= r <= 12,
    ensures
        x == cut(a as int, b as int, r as int),
{
    if a < r && b < r {
        assert(0 <= (r - a) * (r - a) <= 144 && 0 <= (r - b) * (r - b) <= 144 && r * r <= 144)
            by (nonlinear_arith)
            requires
                0 <= a < r,
                0 <= b < r,
                r <= 12,
        ;
        (r - a) * (r - a) + (r - b) * (r - b) > r * r
    } else {
        false
    }
}

/// `rounded`, computed.
pub(crate) fn rounded_now(lx: i64, ly: i64, w: i64, h: i64, r: i64) -> (x: bool)
    requires
        0 <= r <= 12,
        0 <= w <= 1280,
        0 <= h <= 1280,
        -2000 <= lx <= 2000,
        -2000 <= ly <= 2000,
    ensures
        x == rounded(lx as int, ly as int, w as int, h as int, r as int),
{
    if !(0 <= lx && lx < w && 0 <= ly && ly < h) {
        return false;
    }
    !cut_now(lx, ly, r) && !cut_now(w - 1 - lx, ly, r) && !cut_now(lx, h - 1 - ly, r) && !cut_now(
        w - 1 - lx,
        h - 1 - ly,
        r,
    )
}

/// The panel's shade of channel `c` of pixel `(x, y)` whose value was `v`:
/// a 520 x 420 panel with corners of radius 12 at `(380, 258)`, dark glass
/// at 226/255 opacity, with a one-pixel border.
pub open spec fn panel_shade(x: int, y: int, c: int, v: u8) -> u8 {
    let lx = x - 380;
    let ly = y - 258;
    if !rounded(lx, ly, 520, 420, 12) {
        v
    } else if on_edge(lx, ly, 520, 420) {
        channel((52u8, 52u8, 88u8), c)
    } else if c == 3 {
        255
    } else {
        let base: int = if c == 2 { 38 } else { 24 };
        ((base * 226 + v * 29) / 255) as u8
    }
}

/// The search box's shade: a 480 x 32 box with corners of radius 8 at
/// `(400, 312)` with a lighter rim, and a magnifier (a ring and a handle)
/// near its left end.
pub open spec fn search_shade(x: int, y: int, c: int, v: u8) -> u8 {
    let lx = x - 400;
    let ly = y - 312;
    let dx = x - 412;
    let dy = y - 324;
    if (-4 <= dx <= 4 && -4 <= dy <= 4 && 9 <= dx * dx + dy * dy <= 16) || (4 <= dx < 8 && dy == dx) {
        channel((85u8, 88u8, 125u8), c)
    } else if !rounded(lx, ly, 480, 32, 8) {
        v
    } else if on_edge(lx, ly, 480, 32) {
        channel((62u8, 62u8, 105u8), c)
    } else {
        channel((18u8, 18u8, 30u8), c)
    }
}

/// The tile under `(x, y)` with its offset in it, when `(x, y)` lies in the
/// tile grid's cells: four columns 106 pixels apart from `x = 433`, rows
/// 90 pixels apart from `y = 348`, tiles 96 x 80.
pub open spec fn tile_cell(x: int, y: int) -> Option<(int, int, int)> {
    if x < 433 || y < 348 {
        None
    } else {
        let col = (x - 433) / 106;
        let row = (y - 348) / 90;
        let lx = (x - 433) % 106;
        let ly = (y - 348) % 90;
        if col < 4 && lx < 96 && ly < 80 {
            Some((row * 4 + col, lx, ly))
        } else {
            None
        }
    }
}

/// The tiles' shade: a rounded background (radius 8) for each of the `n`
/// entries, lighter for the hovered one.
pub open spec fn tiles_shade(m: StartMenu, x: int, y: int, c: int, v: u8) -> u8 {
    match tile_cell(x, y) {
        Some((i, lx, ly)) => if i < m.entries@.len() && rounded(lx, ly, 96, 80, 8) {
            channel(if m.hovered == Some(i as usize) { (50u8, 52u8, 80u8) } else { (32u8, 34u8, 56u8) }, c)
        } else {
            v
        },
        None => v,
    }
}

/// The colour of power button `bi` (sleep, restart, shut down), lighter
/// when hovered.
pub open spec fn power_colour(bi: int, hovered: bool) -> (u8, u8, u8) {
    if bi == 2 {
        if hovered { (185u8, 45u8, 45u8) } else { (110u8, 25u8, 25u8) }
    } else if bi == 1 {
        if hovered { (45u8, 85u8, 175u8) } else { (28u8, 58u8, 128u8) }
    } else {
        if hovered { (42u8, 45u8, 70u8) } else { (28u8, 30u8, 50u8) }
    }
}

/// A colour lightened for a button's top rim.
pub open spec fn rim(c: (u8, u8, u8)) -> (u8, u8, u8) {
    (
        if c.0 + 35 > 255 { 255 } else { (c.0 + 35) as u8 },
        if c.1 + 35 > 255 { 255 } else { (c.1 + 35) as u8 },
        if c.2 + 45 > 255 { 255 } else { (c.2 + 45) as u8 },
    )
}

/// The shade of the divider over the power buttons and of the three
/// 88 x 28 power buttons (corners of radius 6, a lighter top row), 98
/// pixels apart from `(498, 636)`.
pub open spec fn power_shade(m: StartMenu, x: int, y: int, c: int, v: u8) -> u8 {
    if y == 628 && 396 <= x < 884 {
        channel((48u8, 48u8, 80u8), c)
    } else if 498 <= x && x < 498 + 3 * 98 && 636 <= y < 664 && (x - 498) % 98 < 88 {
        let bi = (x - 498) / 98;
        let col = power_colour(bi, m.power_hovered == Some(bi as usize));
        if y == 636 {
            channel(rim(col), c)
        } else if rounded((x - 498) % 98, y - 636, 88, 28, 6) {
            channel(col, c)
        } else {
            v
        }
    } else {
        v
    }
}

/// The colour the avatar in row colours `shades` (top row first) gives
/// `(x, y)`, if any: a disc of radius 16 at `(402, 278)`.
pub open spec fn avatar_colour(shades: Seq<(u8, u8, u8)>, x: int, y: int) -> Option<(u8, u8, u8)> {
    if near(x, y, 402, 278, 16) && sq_dist(x, y, 402, 278) <= 256 {
        Some(shades[y - 262])
    } else {
        None
    }
}

/// The colour the icon square of tile `i` in row colours `shades` (top row
/// first) gives `(x, y)`, if any: 36 x 36 with corners of radius 6,
/// centred across the tile 8 pixels below its top.
pub open spec fn tile_icon_colour(i: int, shades: Seq<(u8, u8, u8)>, x: int, y: int) -> Option<(u8, u8, u8)> {
    let ix = 433 + (i % 4) * 106 + 30;
    let iy = 348 + (i / 4) * 90 + 8;
    if rounded(x - ix, y - iy, 36, 36, 6) {
        Some(shades[y - iy])
    } else {
        None
    }
}

/// The offsets from the start button's centre that its lightning bolt
/// covers in row `dy` (from -8 to 4): from the first to the second.
pub open spec fn bolt_span(dy: int) -> (int, int) {
    if dy == -8 {
        (2, 5)
    } else if dy == -7 {
        (1, 4)
    } else if dy == -6 {
        (0, 3)
    } else if dy == -5 {
        (-1, 2)
    } else if dy == -4 {
        (-2, 1)
    } else if dy == -3 {
        (-3, 3)
    } else if dy == -2 {
        (-1, 2)
    } else if dy == -1 {
        (-2, 1)
    } else if dy == 0 {
        (-3, 0)
    } else if dy == 1 {
        (-4, -1)
    } else if dy == 2 {
        (-5, -2)
    } else if dy == 3 {
        (-5, -3)
    } else {
        (-5, -4)
    }
}

/// The colour the start button's bolt in row colours `shades` (top row
/// first) gives `(x, y)`, if any: centred at `(20, 701)`.
pub open spec fn bolt_colour(shades: Seq<(u8, u8, u8)>, x: int, y: int) -> Option<(u8, u8, u8)> {
    let dy = y - 701;
    if -8 <= dy <= 4 && bolt_span(dy).0 <= x - 20 <= bolt_span(dy).1 {
        Some(shades[dy + 8])
    } else {
        None
    }
}

/// `avatar_colour`, computed.
fn avatar_pixel(shades: &Vec<(u8, u8, u8)>, x: usize, y: usize) -> (r: Option<(u8, u8, u8)>)
    requires
        shades@.len() == 33,
        386 <= x <= 418,
        262 <= y <= 294,
    ensures
        r == avatar_colour(shades@, x as int, y as int),
{
    let dx = x as i64 - 402;
    let dy = y as i64 - 278;
    assert(0 <= dx * dx <= 256 && 0 <= dy * dy <= 256) by (nonlinear_arith)
        requires
            -16 <= dx <= 16,
            -16 <= dy <= 16,
    ;
    if dx * dx + dy * dy <= 256 {
        Some(shades[y - 262])
    } else {
        None
    }
}

/// `tile_icon_colour`, computed.
fn tile_icon_pixel(i: usize, shades: &Vec<(u8, u8, u8)>, x: usize, y: usize) -> (r: Option<(u8, u8, u8)>)
    requires
        shades@.len() == 36,
        (i / 4) * 90 <= i32::MAX,
        433 + (i % 4) * 106 + 30 <= x < 433 + (i % 4) * 106 + 66,
        348 + (i / 4) * 90 + 8 <= y < 348 + (i / 4) * 90 + 44,
    ensures
        r == tile_icon_colour(i as int, shades@, x as int, y as int),
{
    let ix = 433 + (i % 4) * 106 + 30;
    let iy = 348 + (i / 4) * 90 + 8;
    if rounded_now((x - ix) as i64, (y - iy) as i64, 36, 36, 6) {
        Some(shades[y - iy])
    } else {
        None
    }
}

/// `bolt_colour`, computed.
fn bolt_pixel(shades: &Vec<(u8, u8, u8)>, x: usize, y: usize) -> (r: Option<(u8, u8, u8)>)
    requires
        shades@.len() == 13,
        15 <= x < 26,
        693 <= y < 706,
    ensures
        r == bolt_colour(shades@, x as int, y as int),
{
    let dy = y as i64 - 701;
    let dx = x as i64 - 20;
    let (lo, hi): (i64, i64) = if dy == -8 {
        (2, 5)
    } else if dy == -7 {
        (1, 4)
    } else if dy == -6 {
        (0, 3)
    } else if dy == -5 {
        (-1, 2)
    } else if dy == -4 {
        (-2, 1)
    } else if dy == -3 {
        (-3, 3)
    } else if dy == -2 {
        (-1, 2)
    } else if dy == -1 {
        (-2, 1)
    } else if dy == 0 {
        (-3, 0)
    } else if dy == 1 {
        (-4, -1)
    } else if dy == 2 {
        (-5, -2)
    } else if dy == 3 {
        (-5, -3)
    } else {
        (-5, -4)
    };
    if lo <= dx && dx <= hi {
        Some(shades[y - 693])
    } else {
        None
    }
}

impl DesktopRenderer {
    /// Draws the start menu's panel and border: see [`panel_shade`].
    pub fn draw_start_panel(frame: &mut [u8])
        requires
            old(frame)@.len() >= FRAME_LEN,
        ensures
            repainted(old(frame)@, final(frame)@, |x: int, y: int, c: int, v: u8| panel_shade(x, y, c, v)),
    {
        let ghost start = frame@;
        let mut yy: usize = 258;
        while yy < 678
            invariant
                258 <= yy <= 678,
                frame@.len() == start.len(),
                start.len() >= FRAME_LEN,
                forall|x: int, y: int, c: int|
                    on_screen(x, y) && 0 <= c < 4 ==> #[trigger] frame@[at(x, y, c)] == if 258 <= y < yy {
                        panel_shade(x, y, c, start[at(x, y, c)])
                    } else {
                        start[at(x, y, c)]
                    },
                forall|i: int| FRAME_LEN <= i < start.len() ==> #[trigger] frame@[i] == start[i],
            decreases 678 - yy,
        {
            let mut xx: usize = 380;
            while xx < 900
                invariant
                    258 <= yy < 678,
                    380 <= xx <= 900,
                    frame@.len() == start.len(),
                    start.len() >= FRAME_LEN,
                    forall|x: int, y: int, c: int|
                        on_screen(x, y) && 0 <= c < 4 ==> #[trigger] frame@[at(x, y, c)] == if 258 <= y < yy || (y
                            == yy && 380 <= x < xx) {
                            panel_shade(x, y, c, start[at(x, y, c)])
                        } else {
                            start[at(x, y, c)]
                        },
                    forall|i: int| FRAME_LEN <= i < start.len() ==> #[trigger] frame@[i] == start[i],
                decreases 900 - xx,
            {
                let ghost before = frame@;
                let i = (yy * 1280 + xx) * 4;
                let lx = xx as i64 - 380;
                let ly = yy as i64 - 258;
                proof {
                    assert(before[at(xx as int, yy as int, 0)] == start[at(xx as int, yy as int, 0)]);
                    assert(before[at(xx as int, yy as int, 1)] == start[at(xx as int, yy as int, 1)]);
                    assert(before[at(xx as int, yy as int, 2)] == start[at(xx as int, yy as int, 2)]);
                }
                if rounded_now(lx, ly, 520, 420, 12) {
                    if lx == 0 || ly == 0 || lx == 519 || ly == 419 {
                        frame[i] = 52;
                        frame[i + 1] = 52;
                        frame[i + 2] = 88;
                    } else {
                        let r = frame[i] as u16;
                        let g = frame[i + 1] as u16;
                        let b = frame[i + 2] as u16;
                        frame[i] = ((24u16 * 226 + r * 29) / 255) as u8;
                        frame[i + 1] = ((24u16 * 226 + g * 29) / 255) as u8;
                        frame[i + 2] = ((38u16 * 226 + b * 29) / 255) as u8;
                    }
                    frame[i + 3] = 255;
                }
                proof {
                    assert forall|x: int, y: int, c: int| on_screen(x, y) && 0 <= c < 4 implies #[trigger] frame@[at(
                        x,
                        y,
                        c,
                    )] == if 258 <= y < yy || (y == yy && 380 <= x < xx + 1) {
                        panel_shade(x, y, c, start[at(x, y, c)])
                    } else {
                        start[at(x, y, c)]
                    } by {
                        lemma_at_distinct(x, y, c, xx as int, yy as int, 0);
                        lemma_at_distinct(x, y, c, xx as int, yy as int, 1);
                        lemma_at_distinct(x, y, c, xx as int, yy as int, 2);
                        lemma_at_distinct(x, y, c, xx as int, yy as int, 3);
                        assert(before[at(x, y, c)] == if 258 <= y < yy || (y == yy && 380 <= x < xx) {
                            panel_shade(x, y, c, start[at(x, y, c)])
                        } else {
                            start[at(x, y, c)]
                        });
                    }
                }
                xx = xx + 1;
            }
            yy = yy + 1;
        }
    }

    /// Draws the start menu's search box: see [`search_shade`].
    pub fn draw_start_search(frame: &mut [u8])
        requires
            old(frame)@.len() >= FRAME_LEN,
        ensures
            repainted(old(frame)@, final(frame)@, |x: int, y: int, c: int, v: u8| search_shade(x, y, c, v)),
    {
        let ghost start = frame@;
        let mut yy: usize = 312;
        while yy < 344
            invariant
                312 <= yy <= 344,
                frame@.len() == start.len(),
                start.len() >= FRAME_LEN,
                forall|x: int, y: int, c: int|
                    on_screen(x, y) && 0 <= c < 4 ==> #[trigger] frame@[at(x, y, c)] == if 312 <= y < yy {
                        search_shade(x, y, c, start[at(x, y, c)])
                    } else {
                        start[at(x, y, c)]
                    },
                forall|i: int| FRAME_LEN <= i < start.len() ==> #[trigger] frame@[i] == start[i],
            decreases 344 - yy,
        {
            let mut xx: usize = 400;
            while xx < 880
                invariant
                    312 <= yy < 344,
                    400 <= xx <= 880,
                    frame@.len() == start.len(),
                    start.len() >= FRAME_LEN,
                    forall|x: int, y: int, c: int|
                        on_screen(x, y) && 0 <= c < 4 ==> #[trigger] frame@[at(x, y, c)] == if 312 <= y < yy || (y
                            == yy && 400 <= x < xx) {
                            search_shade(x, y, c, start[at(x, y, c)])
                        } else {
                            start[at(x, y, c)]
                        },
                    forall|i: int| FRAME_LEN <= i < start.len() ==> #[trigger] frame@[i] == start[i],
                decreases 880 - xx,
            {
                let ghost before = frame@;
                let i = (yy * 1280 + xx) * 4;
                let lx = xx as i64 - 400;
                let ly = yy as i64 - 312;
                let dx = xx as i64 - 412;
                let dy = yy as i64 - 324;
                let glass = if -4 <= dx && dx <= 4 && -4 <= dy && dy <= 4 {
                    assert(0 <= dx * dx <= 16 && 0 <= dy * dy <= 16) by (nonlinear_arith)
                        requires
                            -4 <= dx <= 4,
                            -4 <= dy <= 4,
                    ;
                    let d2 = dx * dx + dy * dy;
                    9 <= d2 && d2 <= 16
                } else {
                    false
                };
                let colour: Option<(u8, u8, u8)> = if glass || (4 <= dx && dx < 8 && dy == dx) {
                    Some((85, 88, 125))
                } else if !rounded_now(lx, ly, 480, 32, 8) {
                    None
                } else if lx == 0 || ly == 0 || lx == 479 || ly == 31 {
                    Some((62, 62, 105))
                } else {
                    Some((18, 18, 30))
                };
                match colour {
                    Some(rgb) => {
                        frame[i] = rgb.0;
                        frame[i + 1] = rgb.1;
                        frame[i + 2] = rgb.2;
                        frame[i + 3] = 255;
                    },
                    None => {},
                }
                proof {
                    assert forall|x: int, y: int, c: int| on_screen(x, y) && 0 <= c < 4 implies #[trigger] frame@[at(
                        x,
                        y,
                        c,
                    )] == if 312 <= y < yy || (y == yy && 400 <= x < xx + 1) {
                        search_shade(x, y, c, start[at(x, y, c)])
                    } else {
                        start[at(x, y, c)]
                    } by {
                        lemma_at_distinct(x, y, c, xx as int, yy as int, 0);
                        lemma_at_distinct(x, y, c, xx as int, yy as int, 1);
                        lemma_at_distinct(x, y, c, xx as int, yy as int, 2);
                        lemma_at_distinct(x, y, c, xx as int, yy as int, 3);
                        assert(before[at(x, y, c)] == if 312 <= y < yy || (y == yy && 400 <= x < xx) {
                            search_shade(x, y, c, start[at(x, y, c)])
                        } else {
                            start[at(x, y, c)]
                        });
                    }
                }
                xx = xx + 1;
            }
            yy = yy + 1;
        }
    }

    /// Draws the background of each of the menu's tiles: see [`tiles_shade`].
    pub fn draw_start_tiles(frame: &mut [u8], menu: &StartMenu)
        requires
            old(frame)@.len() >= FRAME_LEN,
        ensures
            repainted(old(frame)@, final(frame)@, |x: int, y: int, c: int, v: u8| tiles_shade(*menu, x, y, c, v)),
    {
        let ghost start = frame@;
        assert forall|x: int, y: int, c: int|
            on_screen(x, y) && 0 <= c < 4 && !(433 <= x < 847 && 348 <= y < 720) implies tiles_shade(
                *menu,
                x,
                y,
                c,
                #[trigger] start[at(x, y, c)],
            ) == start[at(x, y, c)] by {}
        let mut yy: usize = 348;
        while yy < 720
            invariant
                348 <= yy <= 720,
                frame@.len() == start.len(),
                start.len() >= FRAME_LEN,
                forall|x: int, y: int, c: int|
                    on_screen(x, y) && 0 <= c < 4 ==> #[trigger] frame@[at(x, y, c)] == if 348 <= y < yy {
                        tiles_shade(*menu, x, y, c, start[at(x, y, c)])
                    } else {
                        start[at(x, y, c)]
                    },
                forall|x: int, y: int, c: int|
                    on_screen(x, y) && 0 <= c < 4 && !(433 <= x < 847 && 348 <= y < 720) ==> tiles_shade(*menu, x, y, c, #[trigger] start[at(x, y, c)]) == start[at(x, y, c)],
                forall|i: int| FRAME_LEN <= i < start.len() ==> #[trigger] frame@[i] == start[i],
            decreases 720 - yy,
        {
            let mut xx: usize = 433;
            while xx < 847
                invariant
                    348 <= yy < 720,
                    433 <= xx <= 847,
                    frame@.len() == start.len(),
                    start.len() >= FRAME_LEN,
                    forall|x: int, y: int, c: int|
                        on_screen(x, y) && 0 <= c < 4 ==> #[trigger] frame@[at(x, y, c)] == if 348 <= y < yy || (y
                            == yy && 433 <= x < xx) {
                            tiles_shade(*menu, x, y, c, start[at(x, y, c)])
                        } else {
                            start[at(x, y, c)]
                        },
                    forall|i: int| FRAME_LEN <= i < start.len() ==> #[trigger] frame@[i] == start[i],
                decreases 847 - xx,
            {
                let ghost before = frame@;
                let i = (yy * 1280 + xx) * 4;
                let colour = tile_colour(menu, xx, yy);
                proof {
                    assert(before[at(xx as int, yy as int, 0)] == start[at(xx as int, yy as int, 0)]);
                    assert(before[at(xx as int, yy as int, 1)] == start[at(xx as int, yy as int, 1)]);
                    assert(before[at(xx as int, yy as int, 2)] == start[at(xx as int, yy as int, 2)]);
                    assert(before[at(xx as int, yy as int, 3)] == start[at(xx as int, yy as int, 3)]);
                }
                match colour {
                    Some(rgb) => {
                        frame[i] = rgb.0;
                        frame[i + 1] = rgb.1;
                        frame[i + 2] = rgb.2;
                        frame[i + 3] = 255;
                    },
                    None => {},
                }
                proof {
                    assert forall|x: int, y: int, c: int| on_screen(x, y) && 0 <= c < 4 implies #[trigger] frame@[at(
                        x,
                        y,
                        c,
                    )] == if 348 <= y < yy || (y == yy && 433 <= x < xx + 1) {
                        tiles_shade(*menu, x, y, c, start[at(x, y, c)])
                    } else {
                        start[at(x, y, c)]
                    } by {
                        lemma_at_distinct(x, y, c, xx as int, yy as int, 0);
                        lemma_at_distinct(x, y, c, xx as int, yy as int, 1);
                        lemma_at_distinct(x, y, c, xx as int, yy as int, 2);
                        lemma_at_distinct(x, y, c, xx as int, yy as int, 3);
                        assert(before[at(x, y, c)] == if 348 <= y < yy || (y == yy && 433 <= x < xx) {
                            tiles_shade(*menu, x, y, c, start[at(x, y, c)])
                        } else {
                            start[at(x, y, c)]
                        });
                        if x == xx && y == yy {
                            assert(tiles_shade(*menu, x, y, c, start[at(x, y, c)]) == match colour {
                                Some(rgb) => channel(rgb, c),
                                None => start[at(x, y, c)],
                            });
                        }
                    }
                }
                xx = xx + 1;
            }
            yy = yy + 1;
        }
    }

    /// Draws the divider and the three power buttons: see [`power_shade`].
    pub fn draw_start_power(frame: &mut [u8], menu: &StartMenu)
        requires
            old(frame)@.len() >= FRAME_LEN,
        ensures
            repainted(old(frame)@, final(frame)@, |x: int, y: int, c: int, v: u8| power_shade(*menu, x, y, c, v)),
    {
        let ghost start = frame@;
        assert forall|x: int, y: int, c: int|
            on_screen(x, y) && 0 <= c < 4 && !(396 <= x < 884 && 628 <= y < 664) implies power_shade(
                *menu,
                x,
                y,
                c,
                #[trigger] start[at(x, y, c)],
            ) == start[at(x, y, c)] by {}
        let mut yy: usize = 628;
        while yy < 664
            invariant
                628 <= yy <= 664,
                frame@.len() == start.len(),
                start.len() >= FRAME_LEN,
                forall|x: int, y: int, c: int|
                    on_screen(x, y) && 0 <= c < 4 ==> #[trigger] frame@[at(x, y, c)] == if 628 <= y < yy {
                        power_shade(*menu, x, y, c, start[at(x, y, c)])
                    } else {
                        start[at(x, y, c)]
                    },
                forall|x: int, y: int, c: int|
                    on_screen(x, y) && 0 <= c < 4 && !(396 <= x < 884 && 628 <= y < 664) ==> power_shade(*menu, x, y, c, #[trigger] start[at(x, y, c)]) == start[at(x, y, c)],
                forall|i: int| FRAME_LEN <= i < start.len() ==> #[trigger] frame@[i] == start[i],
            decreases 664 - yy,
        {
            let mut xx: usize = 396;
            while xx < 884
                invariant
                    628 <= yy < 664,
                    396 <= xx <= 884,
                    frame@.len() == start.len(),
                    start.len() >= FRAME_LEN,
                    forall|x: int, y: int, c: int|
                        on_screen(x, y) && 0 <= c < 4 ==> #[trigger] frame@[at(x, y, c)] == if 628 <= y < yy || (y
                            == yy && 396 <= x < xx) {
                            power_shade(*menu, x, y, c, start[at(x, y, c)])
                        } else {
                            start[at(x, y, c)]
                        },
                    forall|i: int| FRAME_LEN <= i < start.len() ==> #[trigger] frame@[i] == start[i],
                decreases 884 - xx,
            {
                let ghost before = frame@;
                let i = (yy * 1280 + xx) * 4;
                let colour = power_pixel(menu, xx, yy);
                proof {
                    assert(before[at(xx as int, yy as int, 0)] == start[at(xx as int, yy as int, 0)]);
                    assert(before[at(xx as int, yy as int, 1)] == start[at(xx as int, yy as int, 1)]);
                    assert(before[at(xx as int, yy as int, 2)] == start[at(xx as int, yy as int, 2)]);
                    assert(before[at(xx as int, yy as int, 3)] == start[at(xx as int, yy as int, 3)]);
                }
                match colour {
                    Some(rgb) => {
                        frame[i] = rgb.0;
                        frame[i + 1] = rgb.1;
                        frame[i + 2] = rgb.2;
                        frame[i + 3] = 255;
                    },
                    None => {},
                }
                proof {
                    assert forall|x: int, y: int, c: int| on_screen(x, y) && 0 <= c < 4 implies #[trigger] frame@[at(
                        x,
                        y,
                        c,
                    )] == if 628 <= y < yy || (y == yy && 396 <= x < xx + 1) {
                        power_shade(*menu, x, y, c, start[at(x, y, c)])
                    } else {
                        start[at(x, y, c)]
                    } by {
                        lemma_at_distinct(x, y, c, xx as int, yy as int, 0);
                        lemma_at_distinct(x, y, c, xx as int, yy as int, 1);
                        lemma_at_distinct(x, y, c, xx as int, yy as int, 2);
                        lemma_at_distinct(x, y, c, xx as int, yy as int, 3);
                        assert(before[at(x, y, c)] == if 628 <= y < yy || (y == yy && 396 <= x < xx) {
                            power_shade(*menu, x, y, c, start[at(x, y, c)])
                        } else {
                            start[at(x, y, c)]
                        });
                        if x == xx && y == yy {
                            assert(power_shade(*menu, x, y, c, start[at(x, y, c)]) == match colour {
                                Some(rgb) => channel(rgb, c),
                                None => start[at(x, y, c)],
                            });
                        }
                    }
                }
                xx = xx + 1;
            }
            yy = yy + 1;
        }
    }

    /// Draws the start menu's avatar in the row colours `shades`: see
    /// [`avatar_colour`].
    pub fn draw_start_avatar(frame: &mut [u8], shades: &Vec<(u8, u8, u8)>)
        requires
            old(frame)@.len() >= FRAME_LEN,
            shades@.len() == 33,
        ensures
            repainted(old(frame)@, final(frame)@, |x: int, y: int, c: int, v: u8| paint_or(avatar_colour(shades@, x, y), c, v)),
    {
        let ghost start = frame@;
        assert forall|x: int, y: int, c: int|
            on_screen(x, y) && 0 <= c < 4 && !(386 <= x < 419 && 262 <= y < 295) implies paint_or(
                avatar_colour(shades@, x, y),
                c,
                #[trigger] start[at(x, y, c)],
            ) == start[at(x, y, c)] by {}
        let mut yy: usize = 262;
        while yy < 295
            invariant
                262 <= yy <= 295,
                295 <= 720,
                386 <= 419 <= 1280,
                shades@.len() == 33,
                frame@.len() == start.len(),
                start.len() >= FRAME_LEN,
                forall|x: int, y: int, c: int|
                    on_screen(x, y) && 0 <= c < 4 ==> #[trigger] frame@[at(x, y, c)] == if 262 <= y < yy {
                        paint_or(avatar_colour(shades@, x, y), c, start[at(x, y, c)])
                    } else {
                        start[at(x, y, c)]
                    },
                forall|x: int, y: int, c: int|
                    on_screen(x, y) && 0 <= c < 4 && !(386 <= x < 419 && 262 <= y < 295) ==> paint_or(
                        avatar_colour(shades@, x, y),
                        c,
                        #[trigger] start[at(x, y, c)],
                    ) == start[at(x, y, c)],
                forall|i: int| FRAME_LEN <= i < start.len() ==> #[trigger] frame@[i] == start[i],
            decreases 295 - yy,
        {
            let mut xx: usize = 386;
            while xx < 419
                invariant
                    262 <= yy < 295,
                    295 <= 720,
                    386 <= xx <= 419,
                    419 <= 1280,
                shades@.len() == 33,
                    frame@.len() == start.len(),
                    start.len() >= FRAME_LEN,
                    forall|x: int, y: int, c: int|
                        on_screen(x, y) && 0 <= c < 4 ==> #[trigger] frame@[at(x, y, c)] == if 262 <= y < yy || (y
                            == yy && 386 <= x < xx) {
                            paint_or(avatar_colour(shades@, x, y), c, start[at(x, y, c)])
                        } else {
                            start[at(x, y, c)]
                        },
                    forall|i: int| FRAME_LEN <= i < start.len() ==> #[trigger] frame@[i] == start[i],
                decreases 419 - xx,
            {
                let ghost before = frame@;
                let i = (yy * 1280 + xx) * 4;
                let colour = avatar_pixel(shades, xx, yy);
                proof {
                    assert(before[at(xx as int, yy as int, 0)] == start[at(xx as int, yy as int, 0)]);
                    assert(before[at(xx as int, yy as int, 1)] == start[at(xx as int, yy as int, 1)]);
                    assert(before[at(xx as int, yy as int, 2)] == start[at(xx as int, yy as int, 2)]);
                    assert(before[at(xx as int, yy as int, 3)] == start[at(xx as int, yy as int, 3)]);
                }
                match colour {
                    Some(rgb) => {
                        frame[i] = rgb.0;
                        frame[i + 1] = rgb.1;
                        frame[i + 2] = rgb.2;
                        frame[i + 3] = 255;
                    },
                    None => {},
                }
                proof {
                    assert forall|x: int, y: int, c: int| on_screen(x, y) && 0 <= c < 4 implies #[trigger] frame@[at(
                        x,
                        y,
                        c,
                    )] == if 262 <= y < yy || (y == yy && 386 <= x < xx + 1) {
                        paint_or(avatar_colour(shades@, x, y), c, start[at(x, y, c)])
                    } else {
                        start[at(x, y, c)]
                    } by {
                        lemma_at_distinct(x, y, c, xx as int, yy as int, 0);
                        lemma_at_distinct(x, y, c, xx as int, yy as int, 1);
                        lemma_at_distinct(x, y, c, xx as int, yy as int, 2);
                        lemma_at_distinct(x, y, c, xx as int, yy as int, 3);
                        assert(before[at(x, y, c)] == if 262 <= y < yy || (y == yy && 386 <= x < xx) {
                            paint_or(avatar_colour(shades@, x, y), c, start[at(x, y, c)])
                        } else {
                            start[at(x, y, c)]
                        });
                    }
                }
                xx = xx + 1;
            }
            yy = yy + 1;
        }
    }

    /// Draws the icon square of start menu tile `k` in the row colours
    /// `shades`: see [`tile_icon_colour`].
    pub fn draw_tile_icon(frame: &mut [u8], k: usize, shades: &Vec<(u8, u8, u8)>)
        requires
            old(frame)@.len() >= FRAME_LEN,
            shades@.len() == 36,
            tile_fits(k as int, 258),
        ensures
            repainted(old(frame)@, final(frame)@, |x: int, y: int, c: int, v: u8| paint_or(tile_icon_colour(k as int, shades@, x, y), c, v)),
    {
        let ix: usize = 433 + (k % 4) * 106 + 30;
        let iy: usize = 348 + (k / 4) * 90 + 8;
        let ys: usize = if iy < 720 { iy } else { 720 };
        let ye: usize = if iy + 36 < 720 { iy + 36 } else { 720 };
        let xs = ix;
        let xe = ix + 36;
        let ghost start = frame@;
        assert forall|x: int, y: int, c: int|
            on_screen(x, y) && 0 <= c < 4 && !(xs <= x < xe && ys <= y < ye) implies paint_or(
                tile_icon_colour(k as int, shades@, x, y),
                c,
                #[trigger] start[at(x, y, c)],
            ) == start[at(x, y, c)] by {}
        let mut yy: usize = ys;
        while yy < ye
            invariant
                ys <= yy <= ye,
                ye <= 720,
                xs <= xe <= 1280,
                shades@.len() == 36,
                (k / 4) * 90 <= i32::MAX,
                xs == 433 + (k % 4) * 106 + 30,
                xe == xs + 36,
                ys <= 720,
                iy == 348 + (k / 4) * 90 + 8,
                ys == (if iy < 720 { iy } else { 720 }),
                ye == (if iy + 36 < 720 { iy + 36 } else { 720 }),
                frame@.len() == start.len(),
                start.len() >= FRAME_LEN,
                forall|x: int, y: int, c: int|
                    on_screen(x, y) && 0 <= c < 4 ==> #[trigger] frame@[at(x, y, c)] == if ys <= y < yy {
                        paint_or(tile_icon_colour(k as int, shades@, x, y), c, start[at(x, y, c)])
                    } else {
                        start[at(x, y, c)]
                    },
                forall|x: int, y: int, c: int|
                    on_screen(x, y) && 0 <= c < 4 && !(xs <= x < xe && ys <= y < ye) ==> paint_or(
                        tile_icon_colour(k as int, shades@, x, y),
                        c,
                        #[trigger] start[at(x, y, c)],
                    ) == start[at(x, y, c)],
                forall|i: int| FRAME_LEN <= i < start.len() ==> #[trigger] frame@[i] == start[i],
            decreases ye - yy,
        {
            let mut xx: usize = xs;
            while xx < xe
                invariant
                    ys <= yy < ye,
                    ye <= 720,
                    xs <= xx <= xe,
                    xe <= 1280,
                shades@.len() == 36,
                (k / 4) * 90 <= i32::MAX,
                xs == 433 + (k % 4) * 106 + 30,
                xe == xs + 36,
                ys <= 720,
                iy == 348 + (k / 4) * 90 + 8,
                ys == (if iy < 720 { iy } else { 720 }),
                ye == (if iy + 36 < 720 { iy + 36 } else { 720 }),
                    frame@.len() == start.len(),
                    start.len() >= FRAME_LEN,
                    forall|x: int, y: int, c: int|
                        on_screen(x, y) && 0 <= c < 4 ==> #[trigger] frame@[at(x, y, c)] == if ys <= y < yy || (y
                            == yy && xs <= x < xx) {
                            paint_or(tile_icon_colour(k as int, shades@, x, y), c, start[at(x, y, c)])
                        } else {
                            start[at(x, y, c)]
                        },
                    forall|i: int| FRAME_LEN <= i < start.len() ==> #[trigger] frame@[i] == start[i],
                decreases xe - xx,
            {
                let ghost before = frame@;
                let i = (yy * 1280 + xx) * 4;
                let colour = tile_icon_pixel(k, shades, xx, yy);
                proof {
                    assert(before[at(xx as int, yy as int, 0)] == start[at(xx as int, yy as int, 0)]);
                    assert(before[at(xx as int, yy as int, 1)] == start[at(xx as int, yy as int, 1)]);
                    assert(before[at(xx as int, yy as int, 2)] == start[at(xx as int, yy as int, 2)]);
                    assert(before[at(xx as int, yy as int, 3)] == start[at(xx as int, yy as int, 3)]);
                }
                match colour {
                    Some(rgb) => {
                        frame[i] = rgb.0;
                        frame[i + 1] = rgb.1;
                        frame[i + 2] = rgb.2;
                        frame[i + 3] = 255;
                    },
                    None => {},
                }
                proof {
                    assert forall|x: int, y: int, c: int| on_screen(x, y) && 0 <= c < 4 implies #[trigger] frame@[at(
                        x,
                        y,
                        c,
                    )] == if ys <= y < yy || (y == yy && xs <= x < xx + 1) {
                        paint_or(tile_icon_colour(k as int, shades@, x, y), c, start[at(x, y, c)])
                    } else {
                        start[at(x, y, c)]
                    } by {
                        lemma_at_distinct(x, y, c, xx as int, yy as int, 0);
                        lemma_at_distinct(x, y, c, xx as int, yy as int, 1);
                        lemma_at_distinct(x, y, c, xx as int, yy as int, 2);
                        lemma_at_distinct(x, y, c, xx as int, yy as int, 3);
                        assert(before[at(x, y, c)] == if ys <= y < yy || (y == yy && xs <= x < xx) {
                            paint_or(tile_icon_colour(k as int, shades@, x, y), c, start[at(x, y, c)])
                        } else {
                            start[at(x, y, c)]
                        });
                    }
                }
                xx = xx + 1;
            }
            yy = yy + 1;
        }
    }

    /// Draws the start button's lightning bolt in the row colours `shades`:
    /// see [`bolt_colour`].
    pub fn draw_start_bolt(frame: &mut [u8], shades: &Vec<(u8, u8, u8)>)
        requires
            old(frame)@.len() >= FRAME_LEN,
            shades@.len() == 13,
        ensures
            repainted(old(frame)@, final(frame)@, |x: int, y: int, c: int, v: u8| paint_or(bolt_colour(shades@, x, y), c, v)),
    {
        let ghost start = frame@;
        assert forall|x: int, y: int, c: int|
            on_screen(x, y) && 0 <= c < 4 && !(15 <= x < 26 && 693 <= y < 706) implies paint_or(
                bolt_colour(shades@, x, y),
                c,
                #[trigger] start[at(x, y, c)],
            ) == start[at(x, y, c)] by {}
        let mut yy: usize = 693;
        while yy < 706
            invariant
                693 <= yy <= 706,
                706 <= 720,
                15 <= 26 <= 1280,
                shades@.len() == 13,
                frame@.len() == start.len(),
                start.len() >= FRAME_LEN,
                forall|x: int, y: int, c: int|
                    on_screen(x, y) && 0 <= c < 4 ==> #[trigger] frame@[at(x, y, c)] == if 693 <= y < yy {
                        paint_or(bolt_colour(shades@, x, y), c, start[at(x, y, c)])
                    } else {
                        start[at(x, y, c)]
                    },
                forall|x: int, y: int, c: int|
                    on_screen(x, y) && 0 <= c < 4 && !(15 <= x < 26 && 693 <= y < 706) ==> paint_or(
                        bolt_colour(shades@, x, y),
                        c,
                        #[trigger] start[at(x, y, c)],
                    ) == start[at(x, y, c)],
                forall|i: int| FRAME_LEN <= i < start.len() ==> #[trigger] frame@[i] == start[i],
            decreases 706 - yy,
        {
            let mut xx: usize = 15;
            while xx < 26
                invariant
                    693 <= yy < 706,
                    706 <= 720,
                    15 <= xx <= 26,
                    26 <= 1280,
                shades@.len() == 13,
                    frame@.len() == start.len(),
                    start.len() >= FRAME_LEN,
                    forall|x: int, y: int, c: int|
                        on_screen(x, y) && 0 <= c < 4 ==> #[trigger] frame@[at(x, y, c)] == if 693 <= y < yy || (y
                            == yy && 15 <= x < xx) {
                            paint_or(bolt_colour(shades@, x, y), c, start[at(x, y, c)])
                        } else {
                            start[at(x, y, c)]
                        },
                    forall|i: int| FRAME_LEN <= i < start.len() ==> #[trigger] frame@[i] == start[i],
                decreases 26 - xx,
            {
                let ghost before = frame@;
                let i = (yy * 1280 + xx) * 4;
                let colour = bolt_pixel(shades, xx, yy);
                proof {
                    assert(before[at(xx as int, yy as int, 0)] == start[at(xx as int, yy as int, 0)]);
                    assert(before[at(xx as int, yy as int, 1)] == start[at(xx as int, yy as int, 1)]);
                    assert(before[at(xx as int, yy as int, 2)] == start[at(xx as int, yy as int, 2)]);
                    assert(before[at(xx as int, yy as int, 3)] == start[at(xx as int, yy as int, 3)]);
                }
                match colour {
                    Some(rgb) => {
                        frame[i] = rgb.0;
                        frame[i + 1] = rgb.1;
                        frame[i + 2] = rgb.2;
                        frame[i + 3] = 255;
                    },
                    None => {},
                }
                proof {
                    assert forall|x: int, y: int, c: int| on_screen(x, y) && 0 <= c < 4 implies #[trigger] frame@[at(
                        x,
                        y,
                        c,
                    )] == if 693 <= y < yy || (y == yy && 15 <= x < xx + 1) {
                        paint_or(bolt_colour(shades@, x, y), c, start[at(x, y, c)])
                    } else {
                        start[at(x, y, c)]
                    } by {
                        lemma_at_distinct(x, y, c, xx as int, yy as int, 0);
                        lemma_at_distinct(x, y, c, xx as int, yy as int, 1);
                        lemma_at_distinct(x, y, c, xx as int, yy as int, 2);
                        lemma_at_distinct(x, y, c, xx as int, yy as int, 3);
                        assert(before[at(x, y, c)] == if 693 <= y < yy || (y == yy && 15 <= x < xx) {
                            paint_or(bolt_colour(shades@, x, y), c, start[at(x, y, c)])
                        } else {
                            start[at(x, y, c)]
                        });
                    }
                }
                xx = xx + 1;
            }
            yy = yy + 1;
        }
    }
}

/// The colour tile backgrounds give pixel `(x, y)`, if any.
fn tile_colour(m: &StartMenu, x: usize, y: usize) -> (r: Option<(u8, u8, u8)>)
    requires
        433 <= x < 847,
        348 <= y < 720,
    ensures
        forall|c: int, v: u8|
            #[trigger] tiles_shade(*m, x as int, y as int, c, v) == match r {
                Some(rgb) => channel(rgb, c),
                None => v,
            },
{
    let col = (x - 433) / 106;
    let lx = (x - 433) % 106;
    let row = (y - 348) / 90;
    let ly = (y - 348) % 90;
    if col < 4 && lx < 96 && ly < 80 {
        let i = row * 4 + col;
        if i < m.entries.len() && rounded_now(lx as i64, ly as i64, 96, 80, 8) {
            let hovered = match m.hovered {
                Some(h) => h == i,
                None => false,
            };
            if hovered {
                Some((50, 52, 80))
            } else {
                Some((32, 34, 56))
            }
        } else {
            None
        }
    } else {
        None
    }
}

/// The colour the divider and the power buttons give pixel `(x, y)`, if
/// any.
fn power_pixel(m: &StartMenu, x: usize, y: usize) -> (r: Option<(u8, u8, u8)>)
    requires
        396 <= x < 884,
        628 <= y < 664,
    ensures
        forall|c: int, v: u8|
            #[trigger] power_shade(*m, x as int, y as int, c, v) == match r {
                Some(rgb) => channel(rgb, c),
                None => v,
            },
{
    if y == 628 {
        return Some((48, 48, 80));
    }
    if 498 <= x && x < 792 && 636 <= y && (x - 498) % 98 < 88 {
        let bi = (x - 498) / 98;
        let lx = (x - 498) % 98;
        let hovered = match m.power_hovered {
            Some(h) => h == bi,
            None => false,
        };
        let col: (u8, u8, u8) = if bi == 2 {
            if hovered { (185, 45, 45) } else { (110, 25, 25) }
        } else if bi == 1 {
            if hovered { (45, 85, 175) } else { (28, 58, 128) }
        } else {
            if hovered { (42, 45, 70) } else { (28, 30, 50) }
        };
        if y == 636 {
            let r: u8 = if col.0 > 220 { 255 } else { col.0 + 35 };
            let g: u8 = if col.1 > 220 { 255 } else { col.1 + 35 };
            let b: u8 = if col.2 > 210 { 255 } else { col.2 + 45 };
            Some((r, g, b))
        } else if rounded_now(lx as i64, y as i64 - 636, 88, 28, 6) {
            Some(col)
        } else {
            None
        }
    } else {
        None
    }
}

} // verus!
