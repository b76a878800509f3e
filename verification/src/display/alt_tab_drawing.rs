//! The window switcher's drawing that needs neither the font nor floating
//! point: a rounded glass panel centred on the screen with a line along
//! its top, one dark 148 x 92 thumbnail per window that is not minimised,
//! a blue frame behind the chosen one, and the thumbnails' title bars in
//! row colours the display server works out as a gradient. The display
//! server draws every label.
use vstd::prelude::*;
use crate::display::desktop_renderer::DesktopRenderer;
use crate::display::frame::{at, channel, on_screen, repainted, FRAME_LEN, lemma_at_distinct};
use crate::display::icon_renderer::paint_or;
use crate::display::start_menu_drawing::{rounded, cut_now};
use crate::window_manager::Window;

verus! {

/// How many of `ws` are not minimised.
pub open spec fn visible_count(ws: Seq<Window>) -> nat
    decreases ws.len(),
{
    if ws.len() == 0 {
        0
    } else {
        visible_count(ws.drop_last()) + if ws.last().minimized { 0nat } else { 1nat }
    }
}

/// The switcher's width for `n` windows: 16 pixels of padding each side and
/// thumbnails 158 pixels apart.
pub open spec fn switcher_width(n: int) -> int {
    22 + 158 * n
}

/// The switcher's left edge: centred, or at the screen's edge when wider
/// than the screen.
pub open spec fn switcher_left(n: int) -> int {
    if switcher_width(n) <= 1280 {
        (1280 - switcher_width(n)) / 2
    } else {
        0
    }
}

/// The opaque colour the switcher for `n` windows, `sel` chosen, gives
/// `(x, y)`, if any: a thumbnail, the frame behind the chosen one (the
/// `sel % n`-th), or the line along the panel's top (at `y = 288`; the
/// panel is 144 high, centred).
pub open spec fn switcher_solid(n: int, sel: int, x: int, y: int) -> Option<(u8, u8, u8)> {
    let px = switcher_left(n);
    let k = (x - px - 16) / 158;
    let hx = px + 16 + (sel % n) * 158;
    if n == 0 {
        None
    } else if px + 16 <= x && k < n && (x - px - 16) % 158 < 148 && 304 <= y < 396 {
        Some((14u8, 14u8, 22u8))
    } else if hx - 4 <= x < hx + 152 && 300 <= y < 400 {
        Some((42u8, 108u8, 218u8))
    } else if y == 288 && px <= x < px + switcher_width(n) {
        Some((62u8, 62u8, 100u8))
    } else {
        None
    }
}

/// The switcher's shade of channel `c` of `(x, y)` whose value was `v`:
/// the solid parts over glass of 238/255 opacity with rounded corners of
/// radius 12.
pub open spec fn switcher_shade(n: int, sel: int, x: int, y: int, c: int, v: u8) -> u8 {
    match switcher_solid(n, sel, x, y) {
        Some(rgb) => channel(rgb, c),
        None => if n >= 1 && rounded(x - switcher_left(n), y - 288, switcher_width(n), 144, 12) {
            if c == 3 {
                255
            } else {
                let base: int = if c == 2 { 26 } else { 16 };
                ((base * 238 + v * 17) / 255) as u8
            }
        } else {
            v
        },
    }
}

/// How many of `ws` are not minimised, counted.
fn count_visible(ws: &Vec<Window>) -> (n: usize)
    ensures
        n == visible_count(ws@),
        n <= ws@.len(),
{
    let mut n: usize = 0;
    let mut j: usize = 0;
    while j < ws.len()
        invariant
            j <= ws@.len(),
            n == visible_count(ws@.subrange(0, j as int)),
            n <= j,
        decreases ws@.len() - j,
    {
        proof {
            assert(ws@.subrange(0, j as int + 1).drop_last() =~= ws@.subrange(0, j as int));
        }
        if !ws[j].minimized {
            n = n + 1;
        }
        j = j + 1;
    }
    proof {
        assert(ws@.subrange(0, ws@.len() as int) =~= ws@);
    }
    n
}

/// `switcher_solid`, computed.
fn switcher_pixel(n: usize, sel: usize, px: usize, x: usize, y: usize) -> (r: Option<(u8, u8, u8)>)
    requires
        1 <= n,
        158 * n + 22 <= usize::MAX,
        px == switcher_left(n as int),
        x < 1280,
        y < 720,
    ensures
        r == switcher_solid(n as int, sel as int, x as int, y as int),
{
    if px + 16 <= x && (x - px - 16) / 158 < n && (x - px - 16) % 158 < 148 && 304 <= y && y < 396 {
        return Some((14, 14, 22));
    }
    let hx = px + 16 + (sel % n) * 158;
    assert(hx <= px + 16 + (n - 1) * 158) by (nonlinear_arith)
        requires
            hx == px + 16 + (sel % n) * 158,
            sel % n < n,
    ;
    if hx - 4 <= x && x < hx + 152 && 300 <= y && y < 400 {
        return Some((42, 108, 218));
    }
    if y == 288 && px <= x && x < px + (22 + 158 * n) {
        return Some((62, 62, 100));
    }
    None
}

/// Whether `(x, y)` lies on the switcher's rounded glass.
fn switcher_glass(n: usize, px: usize, x: usize, y: usize) -> (r: bool)
    requires
        1 <= n,
        158 * n + 22 <= usize::MAX,
        px == switcher_left(n as int),
        x < 1280,
        y < 720,
    ensures
        r == rounded(x - px, y - 288, switcher_width(n as int), 144, 12),
{
    let pw = 22 + 158 * n;
    if !(px <= x && x < px + pw && 288 <= y && y < 432) {
        return false;
    }
    let lx = x - px;
    let ly = y - 288;
    let rx = pw - 1 - lx;
    let ry = 143 - ly;
    let c1 = lx < 12 && ly < 12 && cut_now(lx as i64, ly as i64, 12);
    let c2 = rx < 12 && ly < 12 && cut_now(rx as i64, ly as i64, 12);
    let c3 = lx < 12 && ry < 12 && cut_now(lx as i64, ry as i64, 12);
    let c4 = rx < 12 && ry < 12 && cut_now(rx as i64, ry as i64, 12);
    !c1 && !c2 && !c3 && !c4
}

/// The colour the title bars of the switcher's thumbnails in row colours
/// `shades` (top row first) give `(x, y)`, if any: the top 18 rows of each
/// of the `n` thumbnails.
pub open spec fn switcher_title_colour(n: int, shades: Seq<(u8, u8, u8)>, x: int, y: int) -> Option<(u8, u8, u8)> {
    let px = switcher_left(n);
    let k = (x - px - 16) / 158;
    if n >= 1 && px + 16 <= x && k < n && (x - px - 16) % 158 < 148 && 304 <= y < 322 {
        Some(shades[y - 304])
    } else {
        None
    }
}

/// `switcher_title_colour`, computed.
fn switcher_title_pixel(n: usize, px: usize, shades: &Vec<(u8, u8, u8)>, x: usize, y: usize) -> (r: Option<(u8, u8, u8)>)
    requires
        1 <= n,
        158 * n + 22 <= usize::MAX,
        px == switcher_left(n as int),
        shades@.len() == 18,
    ensures
        r == switcher_title_colour(n as int, shades@, x as int, y as int),
{
    if px + 16 <= x && (x - px - 16) / 158 < n && (x - px - 16) % 158 < 148 && 304 <= y && y < 322 {
        Some(shades[y - 304])
    } else {
        None
    }
}

impl DesktopRenderer {
    /// Draws the window switcher's panel, the thumbnails of the windows of
    /// `windows` that are not minimised and the frame behind the chosen
    /// one, the `sel`-th of them counted round: see [`switcher_shade`].
    /// Nothing is drawn when every window is minimised.
    pub fn draw_switcher(frame: &mut [u8], windows: &Vec<Window>, sel: usize)
        requires
            old(frame)@.len() >= FRAME_LEN,
            158 * windows@.len() + 22 <= usize::MAX,
        ensures
            repainted(
                old(frame)@,
                final(frame)@,
                |x: int, y: int, c: int, v: u8| switcher_shade(visible_count(windows@) as int, sel as int, x, y, c, v),
            ),
    {
        let ghost start = frame@;
        let n = count_visible(windows);
        if n == 0 {
            return;
        }
        let pw = 22 + 158 * n;
        let px: usize = if pw <= 1280 { (1280 - pw) / 2 } else { 0 };
        let xe: usize = if px + pw < 1280 { px + pw } else { 1280 };
        assert forall|x: int, y: int, c: int|
            on_screen(x, y) && 0 <= c < 4 && !(px <= x < xe && 288 <= y < 432) implies switcher_shade(
                n as int,
                sel as int,
                x,
                y,
                c,
                #[trigger] start[at(x, y, c)],
            ) == start[at(x, y, c)] by {
            let hx = px + 16 + (sel % n) * 158;
            assert(hx <= px + 16 + (n - 1) * 158) by (nonlinear_arith)
                requires
                    hx == px + 16 + (sel % n) * 158,
                    sel % n < n,
            ;
            if px + 16 <= x {
                let k = (x - px - 16) / 158;
                if k < n {
                    assert(x - px - 16 < 158 * (k + 1)) by (nonlinear_arith)
                        requires
                            k == (x - px - 16) / 158,
                            x - px - 16 >= 0,
                    ;
                    assert(158 * (k + 1) <= 158 * n) by (nonlinear_arith)
                        requires
                            k < n,
                    ;
                }
            }
        }
        let mut yy: usize = 288;
        while yy < 432
            invariant
                288 <= yy <= 432,
                1 <= n,
                n == visible_count(windows@),
                158 * n + 22 <= usize::MAX,
                pw == 22 + 158 * n,
                px == switcher_left(n as int),
                xe == if px + pw < 1280 { px + pw } else { 1280 },
                frame@.len() == start.len(),
                start.len() >= FRAME_LEN,
                forall|x: int, y: int, c: int|
                    on_screen(x, y) && 0 <= c < 4 ==> #[trigger] frame@[at(x, y, c)] == if 288 <= y < yy {
                        switcher_shade(n as int, sel as int, x, y, c, start[at(x, y, c)])
                    } else {
                        start[at(x, y, c)]
                    },
                forall|x: int, y: int, c: int|
                    on_screen(x, y) && 0 <= c < 4 && !(px <= x < xe && 288 <= y < 432) ==> switcher_shade(
                        n as int,
                        sel as int,
                        x,
                        y,
                        c,
                        #[trigger] start[at(x, y, c)],
                    ) == start[at(x, y, c)],
                forall|i: int| FRAME_LEN <= i < start.len() ==> #[trigger] frame@[i] == start[i],
            decreases 432 - yy,
        {
            let mut xx: usize = px;
            while xx < xe
                invariant
                    288 <= yy < 432,
                    1 <= n,
                    158 * n + 22 <= usize::MAX,
                    pw == 22 + 158 * n,
                    px == switcher_left(n as int),
                    xe <= 1280,
                    px <= xx <= xe || xx == px,
                    frame@.len() == start.len(),
                    start.len() >= FRAME_LEN,
                    forall|x: int, y: int, c: int|
                        on_screen(x, y) && 0 <= c < 4 ==> #[trigger] frame@[at(x, y, c)] == if 288 <= y < yy || (y
                            == yy && px <= x < xx) {
                            switcher_shade(n as int, sel as int, x, y, c, start[at(x, y, c)])
                        } else {
                            start[at(x, y, c)]
                        },
                    forall|i: int| FRAME_LEN <= i < start.len() ==> #[trigger] frame@[i] == start[i],
                decreases xe - xx,
            {
                let ghost before = frame@;
                let i = (yy * 1280 + xx) * 4;
                proof {
                    assert(before[at(xx as int, yy as int, 0)] == start[at(xx as int, yy as int, 0)]);
                    assert(before[at(xx as int, yy as int, 1)] == start[at(xx as int, yy as int, 1)]);
                    assert(before[at(xx as int, yy as int, 2)] == start[at(xx as int, yy as int, 2)]);
                    assert(before[at(xx as int, yy as int, 3)] == start[at(xx as int, yy as int, 3)]);
                }
                match switcher_pixel(n, sel, px, xx, yy) {
                    Some(rgb) => {
                        frame[i] = rgb.0;
                        frame[i + 1] = rgb.1;
                        frame[i + 2] = rgb.2;
                        frame[i + 3] = 255;
                    },
                    None => {
                        if switcher_glass(n, px, xx, yy) {
                            let r = frame[i] as u16;
                            let g = frame[i + 1] as u16;
                            let b = frame[i + 2] as u16;
                            frame[i] = ((16u16 * 238 + r * 17) / 255) as u8;
                            frame[i + 1] = ((16u16 * 238 + g * 17) / 255) as u8;
                            frame[i + 2] = ((26u16 * 238 + b * 17) / 255) as u8;
                            frame[i + 3] = 255;
                        }
                    },
                }
                proof {
                    assert forall|x: int, y: int, c: int| on_screen(x, y) && 0 <= c < 4 implies #[trigger] frame@[at(
                        x,
                        y,
                        c,
                    )] == if 288 <= y < yy || (y == yy && px <= x < xx + 1) {
                        switcher_shade(n as int, sel as int, x, y, c, start[at(x, y, c)])
                    } else {
                        start[at(x, y, c)]
                    } by {
                        lemma_at_distinct(x, y, c, xx as int, yy as int, 0);
                        lemma_at_distinct(x, y, c, xx as int, yy as int, 1);
                        lemma_at_distinct(x, y, c, xx as int, yy as int, 2);
                        lemma_at_distinct(x, y, c, xx as int, yy as int, 3);
                        assert(before[at(x, y, c)] == if 288 <= y < yy || (y == yy && px <= x < xx) {
                            switcher_shade(n as int, sel as int, x, y, c, start[at(x, y, c)])
                        } else {
                            start[at(x, y, c)]
                        });
                    }
                }
                xx = xx + 1;
            }
            yy = yy + 1;
        }
    }

    /// Draws the title bars of the switcher's thumbnails in the row colours
    /// `shades`: see [`switcher_title_colour`]. The display server works
    /// the colours out as a gradient.
    pub fn draw_switcher_titles(frame: &mut [u8], windows: &Vec<Window>, shades: &Vec<(u8, u8, u8)>)
        requires
            old(frame)@.len() >= FRAME_LEN,
            158 * windows@.len() + 22 <= usize::MAX,
            shades@.len() == 18,
        ensures
            repainted(
                old(frame)@,
                final(frame)@,
                |x: int, y: int, c: int, v: u8| paint_or(switcher_title_colour(visible_count(windows@) as int, shades@, x, y), c, v),
            ),
    {
        let n = count_visible(windows);
        if n == 0 {
            return;
        }
        let pw = 22 + 158 * n;
        let px: usize = if pw <= 1280 { (1280 - pw) / 2 } else { 0 };
        let xe: usize = if px + pw < 1280 { px + pw } else { 1280 };
        let ghost start = frame@;
        assert forall|x: int, y: int, c: int|
            on_screen(x, y) && 0 <= c < 4 && !(px <= x < xe && 304 <= y < 322) implies paint_or(
                switcher_title_colour(n as int, shades@, x, y),
                c,
                #[trigger] start[at(x, y, c)],
            ) == start[at(x, y, c)] by {}
        let mut yy: usize = 304;
        while yy < 322
            invariant
                304 <= yy <= 322,
                322 <= 720,
                px <= xe <= 1280,
                1 <= n,
                158 * n + 22 <= usize::MAX,
                px == switcher_left(n as int),
                shades@.len() == 18,
                frame@.len() == start.len(),
                start.len() >= FRAME_LEN,
                forall|x: int, y: int, c: int|
                    on_screen(x, y) && 0 <= c < 4 ==> #[trigger] frame@[at(x, y, c)] == if 304 <= y < yy {
                        paint_or(switcher_title_colour(n as int, shades@, x, y), c, start[at(x, y, c)])
                    } else {
                        start[at(x, y, c)]
                    },
                forall|x: int, y: int, c: int|
                    on_screen(x, y) && 0 <= c < 4 && !(px <= x < xe && 304 <= y < 322) ==> paint_or(
                        switcher_title_colour(n as int, shades@, x, y),
                        c,
                        #[trigger] start[at(x, y, c)],
                    ) == start[at(x, y, c)],
                forall|i: int| FRAME_LEN <= i < start.len() ==> #[trigger] frame@[i] == start[i],
            decreases 322 - yy,
        {
            let mut xx: usize = px;
            while xx < xe
                invariant
                    304 <= yy < 322,
                    322 <= 720,
                    px <= xx <= xe,
                    xe <= 1280,
                1 <= n,
                158 * n + 22 <= usize::MAX,
                px == switcher_left(n as int),
                shades@.len() == 18,
                    frame@.len() == start.len(),
                    start.len() >= FRAME_LEN,
                    forall|x: int, y: int, c: int|
                        on_screen(x, y) && 0 <= c < 4 ==> #[trigger] frame@[at(x, y, c)] == if 304 <= y < yy || (y
                            == yy && px <= x < xx) {
                            paint_or(switcher_title_colour(n as int, shades@, x, y), c, start[at(x, y, c)])
                        } else {
                            start[at(x, y, c)]
                        },
                    forall|i: int| FRAME_LEN <= i < start.len() ==> #[trigger] frame@[i] == start[i],
                decreases xe - xx,
            {
                let ghost before = frame@;
                let i = (yy * 1280 + xx) * 4;
                let colour = switcher_title_pixel(n, px, shades, xx, yy);
                proof {
                    assert(before[at(xx as int, yy as int, 0)] == start[at(xx as int, yy as int, 0)]);
                    assert(before[at(xx as int, yy as int, 1)] == start[at(xx as int, yy as int, 1)]);
                    assert(before[at(xx as int, yy as int, 2)] == start[at(xx as int, yy as int, 2)]);
                    assert(before[at(xx as int, yy as int, 3)] == start[at(xx as int, yy as int, 3)]);
                }
                match colour {
                    Some(rgb) => {
                        frame[i] = rgb.0;
                        frame[i + 1] = rgb.1;
                        frame[i + 2] = rgb.2;
                        frame[i + 3] = 255;
                    },
                    None => {},
                }
                proof {
                    assert forall|x: int, y: int, c: int| on_screen(x, y) && 0 <= c < 4 implies #[trigger] frame@[at(
                        x,
                        y,
                        c,
                    )] == if 304 <= y < yy || (y == yy && px <= x < xx + 1) {
                        paint_or(switcher_title_colour(n as int, shades@, x, y), c, start[at(x, y, c)])
                    } else {
                        start[at(x, y, c)]
                    } by {
                        lemma_at_distinct(x, y, c, xx as int, yy as int, 0);
                        lemma_at_distinct(x, y, c, xx as int, yy as int, 1);
                        lemma_at_distinct(x, y, c, xx as int, yy as int, 2);
                        lemma_at_distinct(x, y, c, xx as int, yy as int, 3);
                        assert(before[at(x, y, c)] == if 304 <= y < yy || (y == yy && px <= x < xx) {
                            paint_or(switcher_title_colour(n as int, shades@, x, y), c, start[at(x, y, c)])
                        } else {
                            start[at(x, y, c)]
                        });
                    }
                }
                xx = xx + 1;
            }
            yy = yy + 1;
        }
    }
}

} // verus!
