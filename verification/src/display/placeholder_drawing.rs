//! A window of an application that runs elsewhere: its name, a line on
//! where it opens, and a disc of radius 32 in its colour above the window's
//! centre. The display server draws the two lines of text.
use vstd::prelude::*;
use crate::display::frame::{at, on_screen, repainted, FRAME_LEN, lemma_at_distinct};
use crate::display::icon_renderer::paint_or;
use crate::display::settings_drawing::{near, sq_dist};
use crate::display::window_renderer::WindowRenderer;
use crate::text::{owned, str_eq};

verus! {

/// The title, the line under it and the disc's colour shown for `app`.
pub open spec fn placeholder_look(app: Seq<char>) -> (Seq<char>, Seq<char>, (u8, u8, u8)) {
    if app == "tridocs"@ {
        ("TRiDOCS"@, "Word Processor \u{2014} opens in system browser on Linux"@, (70u8, 130u8, 220u8))
    } else if app == "trisheets"@ {
        ("TRiSHEETS"@, "Spreadsheet \u{2014} opens in system browser on Linux"@, (50u8, 180u8, 100u8))
    } else if app == "trislides"@ {
        ("TRiSLIDES"@, "Presentations \u{2014} opens in system browser on Linux"@, (220u8, 100u8, 60u8))
    } else if app == "tridraw"@ {
        ("TRiDRAW"@, "Drawing Canvas \u{2014} opens in system browser on Linux"@, (180u8, 80u8, 220u8))
    } else if app == "browser"@ {
        ("Browser"@, "Opens trimangees.netlify.app in system browser"@, (60u8, 150u8, 255u8))
    } else {
        (app, "Placeholder window"@, (130u8, 135u8, 175u8))
    }
}

/// The colour the disc in colour `col` gives `(x, y)` in a content area
/// from `(x0, y0)` to `(x1, y1)`, if any: radius 32, centred across the
/// area and 20 pixels above its middle, clipped to the area's right and
/// bottom edges.
pub open spec fn placeholder_colour(col: (u8, u8, u8), x0: int, y0: int, x1: int, y1: int, x: int, y: int) -> Option<(u8, u8, u8)> {
    let mx = (x0 + x1) / 2;
    let my = (y0 + y1) / 2 - 20;
    if x < x1 && y < y1 && near(x, y, mx, my, 32) && sq_dist(x, y, mx, my) <= 1024 {
        Some(col)
    } else {
        None
    }
}

/// `dx * dx + dy * dy` for offsets of at most 32.
fn sq32(dx: i64, dy: i64) -> (r: i64)
    requires
        -32 <= dx <= 32,
        -32 <= dy <= 32,
    ensures
        r == dx * dx + dy * dy,
{
    assert(0 <= dx * dx <= 1024 && 0 <= dy * dy <= 1024) by (nonlinear_arith)
        requires
            -32 <= dx <= 32,
            -32 <= dy <= 32,
    ;
    dx * dx + dy * dy
}

/// `placeholder_colour`, computed.
fn placeholder_pixel(col: (u8, u8, u8), x0: usize, y0: usize, x1: usize, y1: usize, x: usize, y: usize) -> (r: Option<(u8, u8, u8)>)
    requires
        x0 < x1 <= 1280,
        y0 <= 720,
        y1 <= 720,
        x < 1280,
        y < 720,
    ensures
        r == placeholder_colour(col, x0 as int, y0 as int, x1 as int, y1 as int, x as int, y as int),
{
    let mx = ((x0 + x1) / 2) as i64;
    let my = ((y0 + y1) / 2) as i64 - 20;
    let dx = x as i64 - mx;
    let dy = y as i64 - my;
    if x < x1 && y < y1 && -32 <= dx && dx <= 32 && -32 <= dy && dy <= 32 && sq32(dx, dy) <= 1024 {
        Some(col)
    } else {
        None
    }
}

impl WindowRenderer {
    /// What a window of `app` shows in place of content: see
    /// [`placeholder_look`].
    pub fn placeholder_look(app: &str) -> (r: (String, String, (u8, u8, u8)))
        ensures
            r.0@ == placeholder_look(app@).0,
            r.1@ == placeholder_look(app@).1,
            r.2 == placeholder_look(app@).2,
    {
        if str_eq(app, "tridocs") {
            (owned("TRiDOCS"), owned("Word Processor \u{2014} opens in system browser on Linux"), (70, 130, 220))
        } else if str_eq(app, "trisheets") {
            (owned("TRiSHEETS"), owned("Spreadsheet \u{2014} opens in system browser on Linux"), (50, 180, 100))
        } else if str_eq(app, "trislides") {
            (owned("TRiSLIDES"), owned("Presentations \u{2014} opens in system browser on Linux"), (220, 100, 60))
        } else if str_eq(app, "tridraw") {
            (owned("TRiDRAW"), owned("Drawing Canvas \u{2014} opens in system browser on Linux"), (180, 80, 220))
        } else if str_eq(app, "browser") {
            (owned("Browser"), owned("Opens trimangees.netlify.app in system browser"), (60, 150, 255))
        } else {
            (owned(app), owned("Placeholder window"), (130, 135, 175))
        }
    }

    /// Draws the disc in colour `col` of a window whose content area runs
    /// from `(x0, y0)` to `(x1, y1)`: see [`placeholder_colour`].
    pub fn draw_placeholder_disc(frame: &mut [u8], x0: usize, y0: usize, x1: usize, y1: usize, col: (u8, u8, u8))
        requires
            old(frame)@.len() >= FRAME_LEN,
            x0 < x1 <= 1280,
            y0 <= 720,
            y1 <= 720,
        ensures
            repainted(
                old(frame)@,
                final(frame)@,
                |x: int, y: int, c: int, v: u8|
                    paint_or(placeholder_colour(col, x0 as int, y0 as int, x1 as int, y1 as int, x, y), c, v),
            ),
    {
        let mx = (x0 + x1) / 2;
        let my = ((y0 + y1) / 2) as i64 - 20;
        let xs: usize = if mx >= 32 { mx - 32 } else { 0 };
        let xe: usize = if mx + 33 < 1280 { mx + 33 } else { 1280 };
        let ys: usize = if my >= 32 { (my - 32) as usize } else { 0 };
        let ye0: i64 = if my + 33 < 720 { my + 33 } else { 720 };
        let ye: usize = if ye0 > ys as i64 { ye0 as usize } else { ys };
        let ghost start = frame@;
        assert forall|x: int, y: int, c: int|
            on_screen(x, y) && 0 <= c < 4 && !(xs <= x < xe && ys <= y < ye) implies paint_or(
                placeholder_colour(col, x0 as int, y0 as int, x1 as int, y1 as int, x, y),
                c,
                #[trigger] start[at(x, y, c)],
            ) == start[at(x, y, c)] by {}
        let mut yy: usize = ys;
        while yy < ye
            invariant
                ys <= yy <= ye,
                ye <= 720,
                xs <= xe <= 1280,
                x0 < x1 <= 1280,
                y0 <= 720,
                y1 <= 720,
                frame@.len() == start.len(),
                start.len() >= FRAME_LEN,
                forall|x: int, y: int, c: int|
                    on_screen(x, y) && 0 <= c < 4 ==> #[trigger] frame@[at(x, y, c)] == if ys <= y < yy {
                        paint_or(placeholder_colour(col, x0 as int, y0 as int, x1 as int, y1 as int, x, y), c, start[at(x, y, c)])
                    } else {
                        start[at(x, y, c)]
                    },
                forall|x: int, y: int, c: int|
                    on_screen(x, y) && 0 <= c < 4 && !(xs <= x < xe && ys <= y < ye) ==> paint_or(
                        placeholder_colour(col, x0 as int, y0 as int, x1 as int, y1 as int, x, y),
                        c,
                        #[trigger] start[at(x, y, c)],
                    ) == start[at(x, y, c)],
                forall|i: int| FRAME_LEN <= i < start.len() ==> #[trigger] frame@[i] == start[i],
            decreases ye - yy,
        {
            let mut xx: usize = xs;
            while xx < xe
                invariant
                    ys <= yy < ye,
                    ye <= 720,
                    xs <= xx <= xe,
                    xe <= 1280,
                x0 < x1 <= 1280,
                y0 <= 720,
                y1 <= 720,
                    frame@.len() == start.len(),
                    start.len() >= FRAME_LEN,
                    forall|x: int, y: int, c: int|
                        on_screen(x, y) && 0 <= c < 4 ==> #[trigger] frame@[at(x, y, c)] == if ys <= y < yy || (y
                            == yy && xs <= x < xx) {
                            paint_or(placeholder_colour(col, x0 as int, y0 as int, x1 as int, y1 as int, x, y), c, start[at(x, y, c)])
                        } else {
                            start[at(x, y, c)]
                        },
                    forall|i: int| FRAME_LEN <= i < start.len() ==> #[trigger] frame@[i] == start[i],
                decreases xe - xx,
            {
                let ghost before = frame@;
                let i = (yy * 1280 + xx) * 4;
                let colour = placeholder_pixel(col, x0, y0, x1, y1, xx, yy);
                proof {
                    assert(before[at(xx as int, yy as int, 0)] == start[at(xx as int, yy as int, 0)]);
                    assert(before[at(xx as int, yy as int, 1)] == start[at(xx as int, yy as int, 1)]);
                    assert(before[at(xx as int, yy as int, 2)] == start[at(xx as int, yy as int, 2)]);
                    assert(before[at(xx as int, yy as int, 3)] == start[at(xx as int, yy as int, 3)]);
                }
                match colour {
                    Some(rgb) => {
                        frame[i] = rgb.0;
                        frame[i + 1] = rgb.1;
                        frame[i + 2] = rgb.2;
                        frame[i + 3] = 255;
                    },
                    None => {},
                }
                proof {
                    assert forall|x: int, y: int, c: int| on_screen(x, y) && 0 <= c < 4 implies #[trigger] frame@[at(
                        x,
                        y,
                        c,
                    )] == if ys <= y < yy || (y == yy && xs <= x < xx + 1) {
                        paint_or(placeholder_colour(col, x0 as int, y0 as int, x1 as int, y1 as int, x, y), c, start[at(x, y, c)])
                    } else {
                        start[at(x, y, c)]
                    } by {
                        lemma_at_distinct(x, y, c, xx as int, yy as int, 0);
                        lemma_at_distinct(x, y, c, xx as int, yy as int, 1);
                        lemma_at_distinct(x, y, c, xx as int, yy as int, 2);
                        lemma_at_distinct(x, y, c, xx as int, yy as int, 3);
                        assert(before[at(x, y, c)] == if ys <= y < yy || (y == yy && xs <= x < xx) {
                            paint_or(placeholder_colour(col, x0 as int, y0 as int, x1 as int, y1 as int, x, y), c, start[at(x, y, c)])
                        } else {
                            start[at(x, y, c)]
                        });
                    }
                }
                xx = xx + 1;
            }
            yy = yy + 1;
        }
    }
}

} // verus!
