//! The taskbar's pinned app buttons: six 34-pixel buttons centred on the
//! taskbar, each with its app's icon, a lighter background when one of the
//! app's windows has focus, and up to three dots under it for its open
//! windows. The letter inside the office apps' icons needs the font and is
//! drawn by the display server.
use vstd::prelude::*;
use crate::display::desktop_renderer::DesktopRenderer;
use crate::display::frame::{at, channel, in_rect, on_screen, repainted, FRAME_LEN, lemma_at_distinct};
use crate::text::str_eq;
use crate::window_manager::Window;

verus! {

/// Left edge of the first button.
pub const BUTTONS_X: usize = 528;

/// Top edge of the buttons.
pub const BUTTONS_Y: usize = 684;

/// Side of a button.
pub const BUTTON_SIZE: usize = 34;

/// Distance from one button's left edge to the next one's.
pub const BUTTON_STEP: usize = 38;

/// The app of button `pi` and its icon colour: the file explorer, the
/// browser, the terminal and the three office apps.
pub open spec fn pinned_app(pi: int) -> (Seq<char>, (u8, u8, u8)) {
    if pi == 0 {
        ("explorer"@, (240u8, 180u8, 40u8))
    } else if pi == 1 {
        ("browser"@, (60u8, 195u8, 95u8))
    } else if pi == 2 {
        ("terminal"@, (60u8, 200u8, 80u8))
    } else if pi == 3 {
        ("tridocs"@, (70u8, 130u8, 220u8))
    } else if pi == 4 {
        ("trisheets"@, (50u8, 180u8, 100u8))
    } else {
        ("trislides"@, (220u8, 100u8, 60u8))
    }
}

/// How many windows of app `id` are open.
pub open spec fn open_count(ws: Seq<Window>, id: Seq<char>) -> nat
    decreases ws.len(),
{
    if ws.len() == 0 {
        0
    } else {
        open_count(ws.drop_last(), id) + if ws.last().app@ == id {
            1nat
        } else {
            0nat
        }
    }
}

/// Whether a window of app `id` has focus and is shown.
pub open spec fn app_focused(ws: Seq<Window>, id: Seq<char>) -> bool
    decreases ws.len(),
{
    ws.len() > 0 && (app_focused(ws.drop_last(), id) || (ws.last().app@ == id && ws.last().active
        && !ws.last().minimized))
}

/// Whether every window of app `id` is minimised.
pub open spec fn app_all_minimized(ws: Seq<Window>, id: Seq<char>) -> bool
    decreases ws.len(),
{
    ws.len() == 0 || (app_all_minimized(ws.drop_last(), id) && (ws.last().app@ != id
        || ws.last().minimized))
}

/// The colour of the icon of button `pi` at offset `(lx, ly)` from its
/// top-left corner, where the 18 x 18 icon covers it: a folder with a
/// lighter tab, a globe (a ring and a cross of radius 9 around the
/// square's centre, which reaches one pixel past it), a terminal (a dark
/// square with a prompt and a cursor), or a square with rounded corners.
pub open spec fn icon_at(pi: int, lx: int, ly: int) -> Option<(u8, u8, u8)> {
    let col = pinned_app(pi).1;
    if pi == 1 {
        let dx = lx - 9;
        let dy = ly - 9;
        let d2 = dx * dx + dy * dy;
        if -9 <= dx <= 9 && -9 <= dy <= 9 && ((d2 <= 81 && d2 >= 49) || (d2 < 81 && (dx == 0 || dy == 0))) {
            Some(col)
        } else {
            None
        }
    } else if !(0 <= lx < 18 && 0 <= ly < 18) {
        None
    } else if pi == 0 {
        if ly < 5 && lx < 8 {
            Some((255u8, 200u8, 40u8))
        } else if ly >= 4 {
            Some(col)
        } else {
            None
        }
    } else if pi == 2 {
        if (ly == 13 || ly == 14) && 10 <= lx < 16 {
            Some(col)
        } else if 4 <= lx < 9 && (ly - 9 == lx - 4 || ly - 9 == 4 - lx) {
            Some(col)
        } else {
            Some((20u8, 20u8, 20u8))
        }
    } else {
        let rx = 17 - lx;
        let ry = 17 - ly;
        if (lx < 3 && ly < 3 && (3 - lx) * (3 - lx) + (3 - ly) * (3 - ly) > 9) || (rx < 3 && ly < 3 && (3
            - rx) * (3 - rx) + (3 - ly) * (3 - ly) > 9) || (lx < 3 && ry < 3 && (3 - lx) * (3 - lx) + (3
            - ry) * (3 - ry) > 9) || (rx < 3 && ry < 3 && (3 - rx) * (3 - rx) + (3 - ry) * (3 - ry) > 9) {
            None
        } else {
            Some(col)
        }
    }
}

/// Which of the dots under a button covers offset `lx`, for `n` open
/// windows: one wide dot for one window, two or three narrow ones for
/// more.
pub open spec fn dot_index(n: nat, lx: int) -> Option<int> {
    if n == 1 {
        if 11 <= lx < 23 { Some(0) } else { None }
    } else if n == 2 {
        if 10 <= lx < 15 { Some(0) } else if 18 <= lx < 23 { Some(1) } else { None }
    } else if n >= 3 {
        if 8 <= lx < 12 { Some(0) } else if 15 <= lx < 19 { Some(1) } else if 22 <= lx < 26 { Some(2) } else { None }
    } else {
        None
    }
}

/// The colour of the dots under a button at offset `(lx, ly)` from its
/// top-left corner, for `n` open windows: the dots sit in rows 31 and 32,
/// the first one bright when the app has focus, all dim when all its
/// windows are minimised.
pub open spec fn dots_at(n: nat, focused: bool, minimized: bool, lx: int, ly: int) -> Option<(u8, u8, u8)> {
    if !(ly == 31 || ly == 32) {
        None
    } else {
        match dot_index(n, lx) {
            Some(d) => if focused && d == 0 {
                Some((75u8, 145u8, 255u8))
            } else if minimized {
                Some((55u8, 58u8, 85u8))
            } else {
                Some((110u8, 115u8, 150u8))
            },
            None => None,
        }
    }
}

/// Channel `c` of a pixel of a focused app's button, lightened from `v`.
pub open spec fn lightened(c: int, v: u8) -> u8 {
    if c == 3 {
        255
    } else {
        let add: int = if c == 2 {
            32
        } else {
            22
        };
        if v + add > 255 {
            255
        } else {
            (v + add) as u8
        }
    }
}

/// Channel `c` of the pixel `(x, y)` after the buttons are drawn over the
/// old value `v`.
pub open spec fn buttons_shade(ws: Seq<Window>, x: int, y: int, c: int, v: u8) -> u8 {
    let lx0 = x - BUTTONS_X;
    let pi = lx0 / BUTTON_STEP as int;
    let lx = lx0 - pi * BUTTON_STEP;
    let ly = y - BUTTONS_Y;
    if !(0 <= lx0 && lx0 < 6 * BUTTON_STEP - 4 && 0 <= ly < BUTTON_SIZE) || lx >= BUTTON_SIZE {
        v
    } else {
        let id = pinned_app(pi).0;
        let n = open_count(ws, id);
        let focused = app_focused(ws, id);
        let minimized = n > 0 && app_all_minimized(ws, id);
        match dots_at(n, focused, minimized, lx, ly) {
            Some(rgb) => channel(rgb, c),
            None => match icon_at(pi, lx - 8, ly - 8) {
                Some(rgb) => channel(rgb, c),
                None => if focused {
                    lightened(c, v)
                } else {
                    v
                },
            },
        }
    }
}

/// The app of button `pi`.
fn pinned_id(pi: usize) -> (r: &'static str)
    requires
        pi < 6,
    ensures
        r@ == pinned_app(pi as int).0,
{
    if pi == 0 {
        "explorer"
    } else if pi == 1 {
        "browser"
    } else if pi == 2 {
        "terminal"
    } else if pi == 3 {
        "tridocs"
    } else if pi == 4 {
        "trisheets"
    } else {
        "trislides"
    }
}

/// The icon colour of button `pi`.
fn pinned_colour(pi: usize) -> (r: (u8, u8, u8))
    requires
        pi < 6,
    ensures
        r == pinned_app(pi as int).1,
{
    if pi == 0 {
        (240, 180, 40)
    } else if pi == 1 {
        (60, 195, 95)
    } else if pi == 2 {
        (60, 200, 80)
    } else if pi == 3 {
        (70, 130, 220)
    } else if pi == 4 {
        (50, 180, 100)
    } else {
        (220, 100, 60)
    }
}

/// The open-window count, focus and all-minimised state of app `id`.
fn app_state(ws: &Vec<Window>, id: &str) -> (r: (usize, bool, bool))
    ensures
        r.0 == open_count(ws@, id@),
        r.1 == app_focused(ws@, id@),
        r.2 == app_all_minimized(ws@, id@),
{
    let mut n: usize = 0;
    let mut focused = false;
    let mut all_min = true;
    let mut k: usize = 0;
    while k < ws.len()
        invariant
            k <= ws@.len(),
            n <= k,
            n == open_count(ws@.take(k as int), id@),
            focused == app_focused(ws@.take(k as int), id@),
            all_min == app_all_minimized(ws@.take(k as int), id@),
        decreases ws@.len() - k,
    {
        assert(ws@.take(k + 1).drop_last() =~= ws@.take(k as int));
        assert(ws@.take(k + 1).last() == ws@[k as int]);
        let w = &ws[k];
        let same = str_eq(w.app.as_str(), id);
        if same {
            n = n + 1;
        }
        if same && w.active && !w.minimized {
            focused = true;
        }
        if same && !w.minimized {
            all_min = false;
        }
        k = k + 1;
    }
    assert(ws@.take(k as int) =~= ws@);
    (n, focused, all_min)
}

/// The icon colour of button `pi` at offset `(lx, ly)` in the icon.
fn icon_colour(pi: usize, lx: i32, ly: i32) -> (r: Option<(u8, u8, u8)>)
    requires
        pi < 6,
        -40 <= lx <= 40,
        -40 <= ly <= 40,
    ensures
        r == icon_at(pi as int, lx as int, ly as int),
{
    let col = pinned_colour(pi);
    if pi == 1 {
        if 0 <= lx && lx <= 18 && 0 <= ly && ly <= 18 && on_globe(lx - 9, ly - 9) {
            Some(col)
        } else {
            None
        }
    } else if !(0 <= lx && lx < 18 && 0 <= ly && ly < 18) {
        None
    } else if pi == 0 {
        if ly < 5 && lx < 8 {
            Some((255, 200, 40))
        } else if ly >= 4 {
            Some(col)
        } else {
            None
        }
    } else if pi == 2 {
        if (ly == 13 || ly == 14) && 10 <= lx && lx < 16 {
            Some(col)
        } else if 4 <= lx && lx < 9 && (ly - 9 == lx - 4 || ly - 9 == 4 - lx) {
            Some(col)
        } else {
            Some((20, 20, 20))
        }
    } else {
        let rx = 17 - lx;
        let ry = 17 - ly;
        if corner_cut3(lx, ly) || corner_cut3(rx, ly) || corner_cut3(lx, ry) || corner_cut3(rx, ry) {
            None
        } else {
            Some(col)
        }
    }
}

/// The dots' colour at offset `(lx, ly)` in a button.
fn dots_colour(n: usize, focused: bool, minimized: bool, lx: i32, ly: i32) -> (r: Option<(u8, u8, u8)>)
    ensures
        r == dots_at(n as nat, focused, minimized, lx as int, ly as int),
{
    if !(ly == 31 || ly == 32) {
        return None;
    }
    let d: Option<i32> = if n == 1 {
        if 11 <= lx && lx < 23 { Some(0) } else { None }
    } else if n == 2 {
        if 10 <= lx && lx < 15 { Some(0) } else if 18 <= lx && lx < 23 { Some(1) } else { None }
    } else if n >= 3 {
        if 8 <= lx && lx < 12 {
            Some(0)
        } else if 15 <= lx && lx < 19 {
            Some(1)
        } else if 22 <= lx && lx < 26 {
            Some(2)
        } else {
            None
        }
    } else {
        None
    };
    match d {
        Some(d) => if focused && d == 0 {
            Some((75, 145, 255))
        } else if minimized {
            Some((55, 58, 85))
        } else {
            Some((110, 115, 150))
        },
        None => None,
    }
}

/// Whether a point `a`, `b` pixels from the two sides of a corner of a
/// square with 3-pixel rounded corners lies outside the rounding.
fn corner_cut3(a: i32, b: i32) -> (r: bool)
    requires
        0 <= a < 18,
        0 <= b < 18,
    ensures
        r == (a < 3 && b < 3 && (3 - a) * (3 - a) + (3 - b) * (3 - b) > 9),
{
    if a < 3 && b < 3 {
        assert(0 <= (3 - a) * (3 - a) <= 9 && 0 <= (3 - b) * (3 - b) <= 9) by (nonlinear_arith)
            requires
                0 <= a < 3,
                0 <= b < 3,
        ;
        (3 - a) * (3 - a) + (3 - b) * (3 - b) > 9
    } else {
        false
    }
}

/// Whether offset `(dx, dy)` from the globe's centre lies on its ring or
/// its cross.
fn on_globe(dx: i32, dy: i32) -> (r: bool)
    requires
        -9 <= dx <= 9,
        -9 <= dy <= 9,
    ensures
        r == ((dx * dx + dy * dy <= 81 && dx * dx + dy * dy >= 49) || (dx * dx + dy * dy < 81 && (dx == 0
            || dy == 0))),
{
    assert(0 <= dx * dx <= 81 && 0 <= dy * dy <= 81) by (nonlinear_arith)
        requires
            -9 <= dx <= 9,
            -9 <= dy <= 9,
    ;
    let d2 = dx * dx + dy * dy;
    (d2 <= 81 && d2 >= 49) || (d2 < 81 && (dx == 0 || dy == 0))
}

/// The state of the six apps, in button order.
fn button_states(ws: &Vec<Window>) -> (r: Vec<(usize, bool, bool)>)
    ensures
        r@.len() == 6,
        forall|pi: int|
            0 <= pi < 6 ==> {
                let id = pinned_app(pi).0;
                &&& (#[trigger] r@[pi]).0 == open_count(ws@, id)
                &&& r@[pi].1 == app_focused(ws@, id)
                &&& r@[pi].2 == app_all_minimized(ws@, id)
            },
{
    let mut r: Vec<(usize, bool, bool)> = Vec::new();
    let mut pi: usize = 0;
    while pi < 6
        invariant
            pi <= 6,
            r@.len() == pi,
            forall|q: int|
                0 <= q < pi ==> {
                    let id = pinned_app(q).0;
                    &&& (#[trigger] r@[q]).0 == open_count(ws@, id)
                    &&& r@[q].1 == app_focused(ws@, id)
                    &&& r@[q].2 == app_all_minimized(ws@, id)
                },
        decreases 6 - pi,
    {
        let s = app_state(ws, pinned_id(pi));
        r.push(s);
        pi = pi + 1;
    }
    r
}

impl DesktopRenderer {
    /// Draws the pinned app buttons for the windows `windows`.
    pub fn draw_taskbar_buttons(frame: &mut [u8], windows: &Vec<Window>)
        requires
            old(frame)@.len() >= FRAME_LEN,
        ensures
            repainted(
                old(frame)@,
                final(frame)@,
                |x: int, y: int, c: int, v: u8| buttons_shade(windows@, x, y, c, v),
            ),
    {
        let ghost start = frame@;
        let states = button_states(windows);
        let mut yy: usize = BUTTONS_Y;
        while yy < BUTTONS_Y + BUTTON_SIZE
            invariant
                BUTTONS_Y <= yy <= BUTTONS_Y + BUTTON_SIZE,
                frame@.len() == start.len(),
                start.len() >= FRAME_LEN,
                states@.len() == 6,
                forall|pi: int|
                    0 <= pi < 6 ==> {
                        let id = pinned_app(pi).0;
                        &&& (#[trigger] states@[pi]).0 == open_count(windows@, id)
                        &&& states@[pi].1 == app_focused(windows@, id)
                        &&& states@[pi].2 == app_all_minimized(windows@, id)
                    },
                forall|x: int, y: int, c: int|
                    on_screen(x, y) && 0 <= c < 4 ==> #[trigger] frame@[at(x, y, c)] == if y < yy {
                        buttons_shade(windows@, x, y, c, start[at(x, y, c)])
                    } else {
                        start[at(x, y, c)]
                    },
                forall|i: int| FRAME_LEN <= i < start.len() ==> #[trigger] frame@[i] == start[i],
            decreases BUTTONS_Y + BUTTON_SIZE - yy,
        {
            let mut xx: usize = BUTTONS_X;
            while xx < BUTTONS_X + 6 * BUTTON_STEP - 4
                invariant
                    BUTTONS_Y <= yy < BUTTONS_Y + BUTTON_SIZE,
                    BUTTONS_X <= xx <= BUTTONS_X + 6 * BUTTON_STEP - 4,
                    frame@.len() == start.len(),
                    start.len() >= FRAME_LEN,
                    states@.len() == 6,
                    forall|pi: int|
                        0 <= pi < 6 ==> {
                            let id = pinned_app(pi).0;
                            &&& (#[trigger] states@[pi]).0 == open_count(windows@, id)
                            &&& states@[pi].1 == app_focused(windows@, id)
                            &&& states@[pi].2 == app_all_minimized(windows@, id)
                        },
                    forall|x: int, y: int, c: int|
                        on_screen(x, y) && 0 <= c < 4 ==> #[trigger] frame@[at(x, y, c)] == if y < yy || (y
                            == yy && BUTTONS_X <= x < xx) {
                            buttons_shade(windows@, x, y, c, start[at(x, y, c)])
                        } else {
                            start[at(x, y, c)]
                        },
                    forall|i: int| FRAME_LEN <= i < start.len() ==> #[trigger] frame@[i] == start[i],
                decreases BUTTONS_X + 6 * BUTTON_STEP - 4 - xx,
            {
                let i = (yy * 1280 + xx) * 4;
                let ghost before = frame@;
                let pi = (xx - BUTTONS_X) / BUTTON_STEP;
                let lx = (xx - BUTTONS_X - pi * BUTTON_STEP) as i32;
                let ly = (yy - BUTTONS_Y) as i32;
                proof {
                    assert(before[at(xx as int, yy as int, 0)] == start[at(xx as int, yy as int, 0)]);
                    assert(before[at(xx as int, yy as int, 1)] == start[at(xx as int, yy as int, 1)]);
                    assert(before[at(xx as int, yy as int, 2)] == start[at(xx as int, yy as int, 2)]);
                    assert(before[at(xx as int, yy as int, 3)] == start[at(xx as int, yy as int, 3)]);
                }
                if lx < 34 {
                    let (n, focused, all_min) = states[pi];
                    let minimized = n > 0 && all_min;
                    let paint = match dots_colour(n, focused, minimized, lx, ly) {
                        Some(rgb) => Some(rgb),
                        None => icon_colour(pi, lx - 8, ly - 8),
                    };
                    match paint {
                        Some(rgb) => {
                            frame[i] = rgb.0;
                            frame[i + 1] = rgb.1;
                            frame[i + 2] = rgb.2;
                            frame[i + 3] = 255;
                        },
                        None => {
                            if focused {
                                let r = frame[i];
                                let g = frame[i + 1];
                                let b = frame[i + 2];
                                frame[i] = if r > 233 {
                                    255
                                } else {
                                    r + 22
                                };
                                frame[i + 1] = if g > 233 {
                                    255
                                } else {
                                    g + 22
                                };
                                frame[i + 2] = if b > 223 {
                                    255
                                } else {
                                    b + 32
                                };
                                frame[i + 3] = 255;
                            }
                        },
                    }
                }
                proof {
                    assert forall|x: int, y: int, c: int| on_screen(x, y) && 0 <= c < 4 implies #[trigger] frame@[at(
                        x,
                        y,
                        c,
                    )] == if y < yy || (y == yy && BUTTONS_X <= x < xx + 1) {
                        buttons_shade(windows@, x, y, c, start[at(x, y, c)])
                    } else {
                        start[at(x, y, c)]
                    } by {
                        lemma_at_distinct(x, y, c, xx as int, yy as int, 0);
                        lemma_at_distinct(x, y, c, xx as int, yy as int, 1);
                        lemma_at_distinct(x, y, c, xx as int, yy as int, 2);
                        lemma_at_distinct(x, y, c, xx as int, yy as int, 3);
                        assert(before[at(x, y, c)] == if y < yy || (y == yy && BUTTONS_X <= x < xx) {
                            buttons_shade(windows@, x, y, c, start[at(x, y, c)])
                        } else {
                            start[at(x, y, c)]
                        });
                    }
                }
                xx = xx + 1;
            }
            proof {
                assert forall|x: int, y: int, c: int| on_screen(x, y) && 0 <= c < 4 implies #[trigger] frame@[at(
                    x,
                    y,
                    c,
                )] == if y < yy + 1 {
                    buttons_shade(windows@, x, y, c, start[at(x, y, c)])
                } else {
                    start[at(x, y, c)]
                } by {
                    if y == yy && !(BUTTONS_X <= x < BUTTONS_X + 6 * BUTTON_STEP - 4) {
                        assert(buttons_shade(windows@, x, y, c, start[at(x, y, c)]) == start[at(x, y, c)]);
                    }
                }
            }
            yy = yy + 1;
        }
        proof {
            assert forall|x: int, y: int, c: int| on_screen(x, y) && 0 <= c < 4 implies #[trigger] frame@[at(
                x,
                y,
                c,
            )] == buttons_shade(windows@, x, y, c, start[at(x, y, c)]) by {
                if y < BUTTONS_Y || y >= BUTTONS_Y + BUTTON_SIZE {
                    assert(buttons_shade(windows@, x, y, c, start[at(x, y, c)]) == start[at(x, y, c)]);
                }
            }
        }
    }
}

/// Where the letter inside the icon of button `pi` goes and which it is:
/// the office apps' icons show the first letter of the app's name, upper
/// case, 4 pixels right of and 2 below the icon's corner.
pub open spec fn button_letter_spec(pi: int) -> Option<(int, int, char)> {
    if 3 <= pi < 6 {
        Some((BUTTONS_X + pi * BUTTON_STEP + 8 + 4, BUTTONS_Y + 8 + 2, 'T'))
    } else {
        None
    }
}

impl DesktopRenderer {
    /// The letter drawn with the font inside the icon of button `pi`, with
    /// its position.
    pub fn button_letter(pi: usize) -> (r: Option<(usize, usize, char)>)
        ensures
            r matches Some((x, y, ch)) ==> button_letter_spec(pi as int) == Some((x as int, y as int, ch)),
            r is None ==> button_letter_spec(pi as int) is None,
    {
        if 3 <= pi && pi < 6 {
            Some((BUTTONS_X + pi * BUTTON_STEP + 12, BUTTONS_Y + 10, 'T'))
        } else {
            None
        }
    }
}

} // verus!
