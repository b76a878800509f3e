//! The desktop renderer's drawing that needs no font and no floating
//! point: the taskbar panel, the snap preview and the pointer. The
//! wallpaper gradient, the start menu, the clock and every label are drawn
//! by the display server with its font.
use vstd::prelude::*;
use crate::display::frame::{at, channel, in_rect, on_screen, repainted, FRAME_LEN};
use crate::window_manager::{ResizeEdge, SnapZone, snap_rect};
use crate::display::context_menu::{ContextMenu, ContextMenuItem, item_h, lines_height, menu_height};

verus! {

/// Draws the desktop: wallpaper, icons, taskbar, menus, windows, pointer.
pub struct DesktopRenderer;

/// Height of the taskbar panel at the bottom of the screen.
pub const TASKBAR_H: usize = 38;

/// The taskbar's shade of channel `c` of a pixel in row `y` whose value was
/// `v`: a separator line in its top row, and below it the old colour mixed
/// with a near-black blue at 230/255 opacity.
pub open spec fn taskbar_shade(y: int, c: int, v: u8) -> u8 {
    if y == 682 {
        channel((42u8, 42u8, 65u8), c)
    } else if 683 <= y < 720 {
        if c == 3 {
            255
        } else {
            let base: int = if c == 2 {
                14
            } else {
                8
            };
            ((base * 230 + v * 25) / 255) as u8
        }
    } else {
        v
    }
}

/// The colour of the pointer at offset `(dx, dy)` from its hot spot, if it
/// covers that pixel: a white double arrow over a side or top/bottom edge
/// being resized, a white cross over a corner, and otherwise a white arrow
/// with a black rim.
pub open spec fn cursor_paint(edge: Option<ResizeEdge>, dx: int, dy: int) -> Option<(u8, u8, u8)> {
    let white = (255u8, 255u8, 255u8);
    match edge {
        Some(ResizeEdge::Left) | Some(ResizeEdge::Right) => {
            if (dy == 0 && -7 <= dx <= 7) || (-6 <= dx <= -3 && -(dx + 7) <= dy <= dx + 7) || (3 <= dx
                <= 6 && -(7 - dx) <= dy <= 7 - dx) {
                Some(white)
            } else {
                None
            }
        },
        Some(ResizeEdge::Top) | Some(ResizeEdge::Bottom) => {
            if (dx == 0 && -7 <= dy <= 7) || (-6 <= dy <= -3 && -(dy + 7) <= dx <= dy + 7) || (3 <= dy
                <= 6 && -(7 - dy) <= dx <= 7 - dy) {
                Some(white)
            } else {
                None
            }
        },
        Some(_) => {
            if -5 <= dx <= 5 && (dy == dx || dy == -dx) {
                Some(white)
            } else {
                None
            }
        },
        None => {
            if dx >= 0 && dy >= 0 && dx + dy < 13 {
                if dx + dy >= 11 {
                    Some((0u8, 0u8, 0u8))
                } else {
                    Some(white)
                }
            } else {
                None
            }
        },
    }
}

/// The pointer's shape can be walked around `(cx, cy)` within `i32`: the
/// offsets each shape steps through stay in range.
pub open spec fn cursor_fits(edge: Option<ResizeEdge>, cx: int, cy: int) -> bool {
    match edge {
        Some(ResizeEdge::Left) | Some(ResizeEdge::Right) => i32::MIN + 7 <= cx <= i32::MAX - 7 && i32::MIN
            + 4 <= cy <= i32::MAX - 4,
        Some(ResizeEdge::Top) | Some(ResizeEdge::Bottom) => i32::MIN + 4 <= cx <= i32::MAX - 4 && i32::MIN
            + 7 <= cy <= i32::MAX - 7,
        Some(_) => i32::MIN + 5 <= cx <= i32::MAX - 5 && i32::MIN + 5 <= cy <= i32::MAX - 5,
        None => cx <= i32::MAX - 12 && cy <= i32::MAX - 12,
    }
}

/// The part of the screen a snap zone's preview covers: the zone, cut to
/// the screen's width and to the rows above the taskbar.
pub open spec fn snap_box(zone: SnapZone) -> (int, int, int, int) {
    let (x, y, w, h) = snap_rect(zone);
    let x0 = if x < 0 {
        0
    } else {
        x as int
    };
    let y0 = if y < 0 {
        0
    } else {
        y as int
    };
    let x1 = if x + w > 1280 {
        1280
    } else {
        x + w
    };
    let y1 = if y + h > 682 {
        682
    } else {
        y + h
    };
    (x0, y0, x1, y1)
}

/// Whether a point `a` pixels from one side and `b` from the other of the
/// preview lies in that corner's square but outside its rounded corner of
/// radius 8.
pub open spec fn corner_cut(a: int, b: int) -> bool {
    a < 8 && b < 8 && (8 - a) * (8 - a) + (8 - b) * (8 - b) > 64
}

/// The snap preview's shade of channel `c` of pixel `(x, y)` whose value
/// was `v`: a rounded rectangle with a two-pixel bright blue rim, filled
/// with blue at 65/255 opacity over the old colour.
pub open spec fn snap_shade(zone: SnapZone, x: int, y: int, c: int, v: u8) -> u8 {
    let (x0, y0, x1, y1) = snap_box(zone);
    let lx = x - x0;
    let ly = y - y0;
    let rx = x1 - x - 1;
    let ry = y1 - y - 1;
    if !in_rect(x, y, x0, y0, x1, y1) || corner_cut(lx, ly) || corner_cut(rx, ly) || corner_cut(lx, ry)
        || corner_cut(rx, ry) {
        v
    } else if lx < 2 || rx < 2 || ly < 2 || ry < 2 {
        channel((72u8, 150u8, 255u8), c)
    } else if c == 3 {
        255
    } else {
        let tint: int = if c == 0 {
            35
        } else if c == 1 {
            92
        } else {
            210
        };
        ((tint * 65 + v * 190) / 255) as u8
    }
}

/// The shades a rounded-corner test uses stay within `usize`.
proof fn lemma_corner_small(a: int, b: int)
    requires
        0 <= a < 8,
        0 <= b < 8,
    ensures
        0 < (8 - a) * (8 - a) + (8 - b) * (8 - b) <= 128,
{
    assert(0 < (8 - a) * (8 - a) <= 64) by (nonlinear_arith)
        requires
            0 <= a < 8,
    ;
    assert(0 < (8 - b) * (8 - b) <= 64) by (nonlinear_arith)
        requires
            0 <= b < 8,
    ;
}

/// Whether a corner test cuts the point: `a` and `b` are its distances from
/// the two sides that meet there.
fn cut(a: usize, b: usize) -> (r: bool)
    ensures
        r == corner_cut(a as int, b as int),
{
    if a < 8 && b < 8 {
        proof {
            lemma_corner_small(a as int, b as int);
        }
        let dx = 8 - a;
        let dy = 8 - b;
        dx * dx + dy * dy > 64
    } else {
        false
    }
}

impl DesktopRenderer {
    /// Sets the pixel `(x, y)` to the opaque colour `rgb`, if it is on the
    /// screen.
    pub fn dot(frame: &mut [u8], x: i32, y: i32, rgb: (u8, u8, u8))
        requires
            old(frame)@.len() >= FRAME_LEN,
        ensures
            repainted(
                old(frame)@,
                final(frame)@,
                |px: int, py: int, c: int, v: u8|
                    if px == x && py == y {
                        channel(rgb, c)
                    } else {
                        v
                    },
            ),
    {
        if x < 0 || y < 0 || x >= 1280 || y >= 720 {
            return ;
        }
        let ghost before = frame@;
        let i = (y as usize * 1280 + x as usize) * 4;
        frame[i] = rgb.0;
        frame[i + 1] = rgb.1;
        frame[i + 2] = rgb.2;
        frame[i + 3] = 255;
        proof {
            assert forall|px: int, py: int, c: int| on_screen(px, py) && 0 <= c < 4 implies #[trigger] frame@[at(
                px,
                py,
                c,
            )] == if px == x && py == y {
                channel(rgb, c)
            } else {
                before[at(px, py, c)]
            } by {
                crate::display::frame::lemma_at_distinct(px, py, c, x as int, y as int, 0);
                crate::display::frame::lemma_at_distinct(px, py, c, x as int, y as int, 1);
                crate::display::frame::lemma_at_distinct(px, py, c, x as int, y as int, 2);
                crate::display::frame::lemma_at_distinct(px, py, c, x as int, y as int, 3);
            }
        }
    }

    /// Draws the taskbar panel over the bottom 38 rows.
    pub fn draw_taskbar(frame: &mut [u8])
        requires
            old(frame)@.len() >= FRAME_LEN,
        ensures
            repainted(
                old(frame)@,
                final(frame)@,
                |x: int, y: int, c: int, v: u8| taskbar_shade(y, c, v),
            ),
    {
        let ghost start = frame@;
        let mut yy: usize = 682;
        while yy < 720
            invariant
                682 <= yy <= 720,
                frame@.len() == start.len(),
                start.len() >= FRAME_LEN,
                forall|x: int, y: int, c: int|
                    on_screen(x, y) && 0 <= c < 4 ==> #[trigger] frame@[at(x, y, c)] == if y < yy {
                        taskbar_shade(y, c, start[at(x, y, c)])
                    } else {
                        start[at(x, y, c)]
                    },
                forall|i: int| FRAME_LEN <= i < start.len() ==> #[trigger] frame@[i] == start[i],
            decreases 720 - yy,
        {
            let mut xx: usize = 0;
            while xx < 1280
                invariant
                    682 <= yy < 720,
                    xx <= 1280,
                    frame@.len() == start.len(),
                    start.len() >= FRAME_LEN,
                    forall|x: int, y: int, c: int|
                        on_screen(x, y) && 0 <= c < 4 ==> #[trigger] frame@[at(x, y, c)] == if y < yy
                            || (y == yy && x < xx) {
                            taskbar_shade(y, c, start[at(x, y, c)])
                        } else {
                            start[at(x, y, c)]
                        },
                    forall|i: int| FRAME_LEN <= i < start.len() ==> #[trigger] frame@[i] == start[i],
                decreases 1280 - xx,
            {
                let i = (yy * 1280 + xx) * 4;
                let ghost before = frame@;
                proof {
                    assert(before[at(xx as int, yy as int, 0)] == start[at(xx as int, yy as int, 0)]);
                    assert(before[at(xx as int, yy as int, 1)] == start[at(xx as int, yy as int, 1)]);
                    assert(before[at(xx as int, yy as int, 2)] == start[at(xx as int, yy as int, 2)]);
                }
                if yy == 682 {
                    frame[i] = 42;
                    frame[i + 1] = 42;
                    frame[i + 2] = 65;
                    frame[i + 3] = 255;
                } else {
                    let br = frame[i] as u16;
                    let bg = frame[i + 1] as u16;
                    let bb = frame[i + 2] as u16;
                    frame[i] = ((8u16 * 230 + br * 25) / 255) as u8;
                    frame[i + 1] = ((8u16 * 230 + bg * 25) / 255) as u8;
                    frame[i + 2] = ((14u16 * 230 + bb * 25) / 255) as u8;
                    frame[i + 3] = 255;
                }
                proof {
                    assert forall|x: int, y: int, c: int| on_screen(x, y) && 0 <= c < 4 implies #[trigger] frame@[at(
                        x,
                        y,
                        c,
                    )] == if y < yy || (y == yy && x < xx + 1) {
                        taskbar_shade(y, c, start[at(x, y, c)])
                    } else {
                        start[at(x, y, c)]
                    } by {
                        crate::display::frame::lemma_at_distinct(x, y, c, xx as int, yy as int, 0);
                        crate::display::frame::lemma_at_distinct(x, y, c, xx as int, yy as int, 1);
                        crate::display::frame::lemma_at_distinct(x, y, c, xx as int, yy as int, 2);
                        crate::display::frame::lemma_at_distinct(x, y, c, xx as int, yy as int, 3);
                        assert(before[at(x, y, c)] == if y < yy || (y == yy && x < xx) {
                            taskbar_shade(y, c, start[at(x, y, c)])
                        } else {
                            start[at(x, y, c)]
                        });
                    }
                }
                xx = xx + 1;
            }
            yy = yy + 1;
        }
    }

    /// Draws the pointer with its hot spot at `(cx, cy)`; `edge` is the
    /// window edge under it, if any.
    pub fn draw_cursor(frame: &mut [u8], cx: i32, cy: i32, edge: Option<ResizeEdge>)
        requires
            old(frame)@.len() >= FRAME_LEN,
            cursor_fits(edge, cx as int, cy as int),
        ensures
            repainted(
                old(frame)@,
                final(frame)@,
                |x: int, y: int, c: int, v: u8| match cursor_paint(edge, x - cx, y - cy) {
                    Some(rgb) => channel(rgb, c),
                    None => v,
                },
            ),
    {
        let ghost start = frame@;
        let mut dy: i64 = -7;
        while dy <= 12
            invariant
                -7 <= dy <= 13,
                cursor_fits(edge, cx as int, cy as int),
                frame@.len() == start.len(),
                start.len() >= FRAME_LEN,
                forall|x: int, y: int, c: int|
                    on_screen(x, y) && 0 <= c < 4 ==> #[trigger] frame@[at(x, y, c)] == match (if y - cy
                        < dy {
                        cursor_paint(edge, x - cx, y - cy)
                    } else {
                        None
                    }) {
                        Some(rgb) => channel(rgb, c),
                        None => start[at(x, y, c)],
                    },
                forall|i: int| FRAME_LEN <= i < start.len() ==> #[trigger] frame@[i] == start[i],
            decreases 13 - dy,
        {
            let mut dx: i64 = -7;
            while dx <= 12
                invariant
                    -7 <= dy <= 12,
                    -7 <= dx <= 13,
                    cursor_fits(edge, cx as int, cy as int),
                    frame@.len() == start.len(),
                    start.len() >= FRAME_LEN,
                    forall|x: int, y: int, c: int|
                        on_screen(x, y) && 0 <= c < 4 ==> #[trigger] frame@[at(x, y, c)] == match (if y
                            - cy < dy || (y - cy == dy && x - cx < dx) {
                            cursor_paint(edge, x - cx, y - cy)
                        } else {
                            None
                        }) {
                            Some(rgb) => channel(rgb, c),
                            None => start[at(x, y, c)],
                        },
                    forall|i: int| FRAME_LEN <= i < start.len() ==> #[trigger] frame@[i] == start[i],
                decreases 13 - dx,
            {
                let paint = Self::cursor_colour(edge, dx, dy);
                let ghost before = frame@;
                match paint {
                    Some(rgb) => {
                        Self::dot(frame, (cx as i64 + dx) as i32, (cy as i64 + dy) as i32, rgb);
                    },
                    None => {},
                }
                proof {
                    assert forall|x: int, y: int, c: int| on_screen(x, y) && 0 <= c < 4 implies #[trigger] frame@[at(
                        x,
                        y,
                        c,
                    )] == match (if y - cy < dy || (y - cy == dy && x - cx < dx + 1) {
                        cursor_paint(edge, x - cx, y - cy)
                    } else {
                        None
                    }) {
                        Some(rgb) => channel(rgb, c),
                        None => start[at(x, y, c)],
                    } by {
                        assert(before[at(x, y, c)] == match (if y - cy < dy || (y - cy == dy && x - cx
                            < dx) {
                            cursor_paint(edge, x - cx, y - cy)
                        } else {
                            None
                        }) {
                            Some(rgb) => channel(rgb, c),
                            None => start[at(x, y, c)],
                        });
                    }
                }
                dx = dx + 1;
            }
            proof {
                assert forall|x: int, y: int, c: int| on_screen(x, y) && 0 <= c < 4 implies #[trigger] frame@[at(
                    x,
                    y,
                    c,
                )] == match (if y - cy < dy + 1 {
                    cursor_paint(edge, x - cx, y - cy)
                } else {
                    None
                }) {
                    Some(rgb) => channel(rgb, c),
                    None => start[at(x, y, c)],
                } by {
                    if y - cy == dy && x - cx >= 13 {
                        assert(cursor_paint(edge, x - cx, y - cy) is None);
                    }
                }
            }
            dy = dy + 1;
        }
        proof {
            assert forall|x: int, y: int, c: int| on_screen(x, y) && 0 <= c < 4 implies #[trigger] frame@[at(
                x,
                y,
                c,
            )] == match cursor_paint(edge, x - cx, y - cy) {
                Some(rgb) => channel(rgb, c),
                None => start[at(x, y, c)],
            } by {
                if y - cy >= 13 {
                    assert(cursor_paint(edge, x - cx, y - cy) is None);
                }
            }
        }
    }

    /// The pointer's colour at offset `(dx, dy)`, if it covers it.
    fn cursor_colour(edge: Option<ResizeEdge>, dx: i64, dy: i64) -> (r: Option<(u8, u8, u8)>)
        requires
            -7 <= dx <= 12,
            -7 <= dy <= 12,
        ensures
            r == cursor_paint(edge, dx as int, dy as int),
    {
        let white = (255u8, 255u8, 255u8);
        match edge {
            Some(ResizeEdge::Left) | Some(ResizeEdge::Right) => {
                if (dy == 0 && -7 <= dx && dx <= 7) || (-6 <= dx && dx <= -3 && -(dx + 7) <= dy && dy
                    <= dx + 7) || (3 <= dx && dx <= 6 && -(7 - dx) <= dy && dy <= 7 - dx) {
                    Some(white)
                } else {
                    None
                }
            },
            Some(ResizeEdge::Top) | Some(ResizeEdge::Bottom) => {
                if (dx == 0 && -7 <= dy && dy <= 7) || (-6 <= dy && dy <= -3 && -(dy + 7) <= dx && dx
                    <= dy + 7) || (3 <= dy && dy <= 6 && -(7 - dy) <= dx && dx <= 7 - dy) {
                    Some(white)
                } else {
                    None
                }
            },
            Some(_) => {
                if -5 <= dx && dx <= 5 && (dy == dx || dy == -dx) {
                    Some(white)
                } else {
                    None
                }
            },
            None => {
                if dx >= 0 && dy >= 0 && dx + dy < 13 {
                    if dx + dy >= 11 {
                        Some((0u8, 0u8, 0u8))
                    } else {
                        Some(white)
                    }
                } else {
                    None
                }
            },
        }
    }

    /// Draws the preview of the zone a dragged window will snap to.
    pub fn draw_snap_preview(frame: &mut [u8], zone: SnapZone)
        requires
            old(frame)@.len() >= FRAME_LEN,
        ensures
            repainted(
                old(frame)@,
                final(frame)@,
                |x: int, y: int, c: int, v: u8| snap_shade(zone, x, y, c, v),
            ),
    {
        let ghost start = frame@;
        let (x, y, w, h) = zone.geometry();
        let x0: usize = if x < 0 {
            0
        } else {
            x as usize
        };
        let y0: usize = if y < 0 {
            0
        } else {
            y as usize
        };
        let x1: usize = if x as i64 + w as i64 > 1280 {
            1280
        } else {
            (x as i64 + w as i64) as usize
        };
        let y1: usize = if y as i64 + h as i64 > 682 {
            682
        } else {
            (y as i64 + h as i64) as usize
        };
        proof {
            crate::window_manager::lemma_snap_zones_inside_work_area(zone);
            assert(snap_box(zone) == (x0 as int, y0 as int, x1 as int, y1 as int));
        }
        let mut py: usize = y0;
        while py < y1
            invariant
                y0 <= py <= y1 <= 682,
                x0 <= x1 <= 1280,
                snap_box(zone) == (x0 as int, y0 as int, x1 as int, y1 as int),
                frame@.len() == start.len(),
                start.len() >= FRAME_LEN,
                forall|x: int, y: int, c: int|
                    on_screen(x, y) && 0 <= c < 4 ==> #[trigger] frame@[at(x, y, c)] == if y < py {
                        snap_shade(zone, x, y, c, start[at(x, y, c)])
                    } else {
                        start[at(x, y, c)]
                    },
                forall|i: int| FRAME_LEN <= i < start.len() ==> #[trigger] frame@[i] == start[i],
            decreases y1 - py,
        {
            let mut px: usize = x0;
            while px < x1
                invariant
                    y0 <= py < y1 <= 682,
                    x0 <= px <= x1 <= 1280,
                    snap_box(zone) == (x0 as int, y0 as int, x1 as int, y1 as int),
                    frame@.len() == start.len(),
                    start.len() >= FRAME_LEN,
                    forall|x: int, y: int, c: int|
                        on_screen(x, y) && 0 <= c < 4 ==> #[trigger] frame@[at(x, y, c)] == if y < py
                            || (y == py && x < px) {
                            snap_shade(zone, x, y, c, start[at(x, y, c)])
                        } else {
                            start[at(x, y, c)]
                        },
                    forall|i: int| FRAME_LEN <= i < start.len() ==> #[trigger] frame@[i] == start[i],
                decreases x1 - px,
            {
                let ghost before = frame@;
                let lx = px - x0;
                let ly = py - y0;
                let rx = x1 - px - 1;
                let ry = y1 - py - 1;
                let i = (py * 1280 + px) * 4;
                proof {
                    assert(before[at(px as int, py as int, 0)] == start[at(px as int, py as int, 0)]);
                    assert(before[at(px as int, py as int, 1)] == start[at(px as int, py as int, 1)]);
                    assert(before[at(px as int, py as int, 2)] == start[at(px as int, py as int, 2)]);
                    assert(before[at(px as int, py as int, 3)] == start[at(px as int, py as int, 3)]);
                }
                if cut(lx, ly) || cut(rx, ly) || cut(lx, ry) || cut(rx, ry) {
                } else if lx < 2 || rx < 2 || ly < 2 || ry < 2 {
                    frame[i] = 72;
                    frame[i + 1] = 150;
                    frame[i + 2] = 255;
                    frame[i + 3] = 255;
                } else {
                    let br = frame[i] as u16;
                    let bg = frame[i + 1] as u16;
                    let bb = frame[i + 2] as u16;
                    frame[i] = ((35u16 * 65 + br * 190) / 255) as u8;
                    frame[i + 1] = ((92u16 * 65 + bg * 190) / 255) as u8;
                    frame[i + 2] = ((210u16 * 65 + bb * 190) / 255) as u8;
                    frame[i + 3] = 255;
                }
                proof {
                    assert forall|x: int, y: int, c: int| on_screen(x, y) && 0 <= c < 4 implies #[trigger] frame@[at(
                        x,
                        y,
                        c,
                    )] == if y < py || (y == py && x < px + 1) {
                        snap_shade(zone, x, y, c, start[at(x, y, c)])
                    } else {
                        start[at(x, y, c)]
                    } by {
                        crate::display::frame::lemma_at_distinct(x, y, c, px as int, py as int, 0);
                        crate::display::frame::lemma_at_distinct(x, y, c, px as int, py as int, 1);
                        crate::display::frame::lemma_at_distinct(x, y, c, px as int, py as int, 2);
                        crate::display::frame::lemma_at_distinct(x, y, c, px as int, py as int, 3);
                        assert(before[at(x, y, c)] == if y < py || (y == py && x < px) {
                            snap_shade(zone, x, y, c, start[at(x, y, c)])
                        } else {
                            start[at(x, y, c)]
                        });
                    }
                }
                px = px + 1;
            }
            proof {
                assert forall|x: int, y: int, c: int| on_screen(x, y) && 0 <= c < 4 implies #[trigger] frame@[at(
                    x,
                    y,
                    c,
                )] == if y < py + 1 {
                    snap_shade(zone, x, y, c, start[at(x, y, c)])
                } else {
                    start[at(x, y, c)]
                } by {
                    if y == py && (x < x0 || x >= x1) {
                        assert(snap_shade(zone, x, y, c, start[at(x, y, c)]) == start[at(x, y, c)]);
                    }
                }
            }
            py = py + 1;
        }
        proof {
            assert forall|x: int, y: int, c: int| on_screen(x, y) && 0 <= c < 4 implies #[trigger] frame@[at(
                x,
                y,
                c,
            )] == snap_shade(zone, x, y, c, start[at(x, y, c)]) by {
                if y < y0 || y >= y1 {
                    assert(snap_shade(zone, x, y, c, start[at(x, y, c)]) == start[at(x, y, c)]);
                }
            }
        }
    }
}

/// Whether offset `(lx, ly)` in the taskbar's 165 x 26 search pill lies
/// outside its round ends of radius 13.
pub open spec fn pill_cut(lx: int, ly: int) -> bool {
    (lx < 13 && (13 - lx) * (13 - lx) + (13 - ly) * (13 - ly) > 169) || (lx >= 152 && (13 - (164 - lx))
        * (13 - (164 - lx)) + (13 - ly) * (13 - ly) > 169)
}

/// The search pill's shade of channel `c` of pixel `(x, y)` whose value was
/// `v`: a dark rounded pill at `(42, 688)` on the taskbar.
pub open spec fn search_bar_shade(x: int, y: int, c: int, v: u8) -> u8 {
    if in_rect(x, y, 42, 688, 207, 714) && !pill_cut(x - 42, y - 688) {
        channel((28u8, 28u8, 44u8), c)
    } else {
        v
    }
}

/// Whether a pixel of the pill is cut off by its round ends.
fn pill_cut_now(lx: i32, ly: i32) -> (r: bool)
    requires
        0 <= lx < 165,
        0 <= ly < 26,
    ensures
        r == pill_cut(lx as int, ly as int),
{
    assert(0 <= (13 - ly) * (13 - ly) <= 169) by (nonlinear_arith)
        requires
            0 <= ly < 26,
    ;
    let left = if lx < 13 {
        assert(0 <= (13 - lx) * (13 - lx) <= 169) by (nonlinear_arith)
            requires
                0 <= lx < 13,
        ;
        (13 - lx) * (13 - lx) + (13 - ly) * (13 - ly) > 169
    } else {
        false
    };
    let right = if lx >= 152 {
        let rx = 164 - lx;
        assert(0 <= (13 - rx) * (13 - rx) <= 169) by (nonlinear_arith)
            requires
                0 <= rx <= 12,
        ;
        (13 - rx) * (13 - rx) + (13 - ly) * (13 - ly) > 169
    } else {
        false
    };
    left || right
}

impl DesktopRenderer {
    /// Draws the search pill on the taskbar; its label is drawn with the
    /// font.
    pub fn draw_search_bar(frame: &mut [u8])
        requires
            old(frame)@.len() >= FRAME_LEN,
        ensures
            repainted(
                old(frame)@,
                final(frame)@,
                |x: int, y: int, c: int, v: u8| search_bar_shade(x, y, c, v),
            ),
    {
        let ghost start = frame@;
        let mut yy: usize = 688;
        while yy < 714
            invariant
                688 <= yy <= 714,
                frame@.len() == start.len(),
                start.len() >= FRAME_LEN,
                forall|x: int, y: int, c: int|
                    on_screen(x, y) && 0 <= c < 4 ==> #[trigger] frame@[at(x, y, c)] == if y < yy {
                        search_bar_shade(x, y, c, start[at(x, y, c)])
                    } else {
                        start[at(x, y, c)]
                    },
                forall|i: int| FRAME_LEN <= i < start.len() ==> #[trigger] frame@[i] == start[i],
            decreases 714 - yy,
        {
            let mut xx: usize = 42;
            while xx < 207
                invariant
                    688 <= yy < 714,
                    42 <= xx <= 207,
                    frame@.len() == start.len(),
                    start.len() >= FRAME_LEN,
                    forall|x: int, y: int, c: int|
                        on_screen(x, y) && 0 <= c < 4 ==> #[trigger] frame@[at(x, y, c)] == if y < yy || (y
                            == yy && 42 <= x < xx) {
                            search_bar_shade(x, y, c, start[at(x, y, c)])
                        } else {
                            start[at(x, y, c)]
                        },
                    forall|i: int| FRAME_LEN <= i < start.len() ==> #[trigger] frame@[i] == start[i],
                decreases 207 - xx,
            {
                let ghost before = frame@;
                let i = (yy * 1280 + xx) * 4;
                if !pill_cut_now((xx - 42) as i32, (yy - 688) as i32) {
                    frame[i] = 28;
                    frame[i + 1] = 28;
                    frame[i + 2] = 44;
                    frame[i + 3] = 255;
                }
                proof {
                    assert forall|x: int, y: int, c: int| on_screen(x, y) && 0 <= c < 4 implies #[trigger] frame@[at(
                        x,
                        y,
                        c,
                    )] == if y < yy || (y == yy && 42 <= x < xx + 1) {
                        search_bar_shade(x, y, c, start[at(x, y, c)])
                    } else {
                        start[at(x, y, c)]
                    } by {
                        crate::display::frame::lemma_at_distinct(x, y, c, xx as int, yy as int, 0);
                        crate::display::frame::lemma_at_distinct(x, y, c, xx as int, yy as int, 1);
                        crate::display::frame::lemma_at_distinct(x, y, c, xx as int, yy as int, 2);
                        crate::display::frame::lemma_at_distinct(x, y, c, xx as int, yy as int, 3);
                        assert(before[at(x, y, c)] == if y < yy || (y == yy && 42 <= x < xx) {
                            search_bar_shade(x, y, c, start[at(x, y, c)])
                        } else {
                            start[at(x, y, c)]
                        });
                    }
                }
                xx = xx + 1;
            }
            yy = yy + 1;
        }
    }
}

/// The line of `items` whose band holds height `ry` below the top of the
/// first line, looking from line `k` on, whose top is at `acc`: -1 when no
/// line's band holds it.
pub open spec fn band_from(items: Seq<ContextMenuItem>, k: int, acc: int, ry: int) -> int
    decreases items.len() - k,
{
    if k < 0 || k >= items.len() {
        -1
    } else if acc <= ry < acc + item_h(items[k]) {
        k
    } else {
        band_from(items, k + 1, acc + item_h(items[k]), ry)
    }
}

/// Whether a point `a` and `b` pixels from two sides of the menu lies in
/// that corner's square but outside its rounding of radius 7.
pub open spec fn menu_cut(a: int, b: int) -> bool {
    a < 7 && b < 7 && (7 - a) * (7 - a) + (7 - b) * (7 - b) > 49
}

/// What the menu's lines paint at `(x, y)`: the divider of a divider line
/// (4 pixels below its top, inset 8 pixels), or the highlight of the
/// hovered action line (inset 4 pixels).
pub open spec fn menu_line_paint(m: ContextMenu, x: int, y: int) -> Option<(u8, u8, u8)> {
    let x0 = m.x as int;
    let top = m.y + 6;
    let k = band_from(m.items@, 0, 0, y - top);
    if k == -1 {
        None
    } else if m.items@[k].separator {
        if y == top + lines_height(m.items@, k) + 4 && x0 + 8 <= x < x0 + 192 {
            Some((48u8, 48u8, 78u8))
        } else {
            None
        }
    } else if m.hovered == Some(k as usize) && x0 + 4 <= x < x0 + 196 {
        Some((40u8, 40u8, 68u8))
    } else {
        None
    }
}

/// The context menu's shade of channel `c` of pixel `(x, y)` whose value
/// was `v`: a dark panel with corners of radius 7, a border line along its
/// top and bottom rows (the bottom one kept on the screen), and its lines
/// over them. The labels are drawn with the font.
pub open spec fn menu_shade(m: ContextMenu, x: int, y: int, c: int, v: u8) -> u8 {
    let x0 = m.x as int;
    let y0 = m.y as int;
    let mh = menu_height(m.items@);
    let bottom = if y0 + mh - 1 < 719 {
        y0 + mh - 1
    } else {
        719
    };
    match menu_line_paint(m, x, y) {
        Some(rgb) => channel(rgb, c),
        None => if x0 <= x < x0 + 200 && (y == y0 || y == bottom) {
            channel((58u8, 58u8, 95u8), c)
        } else if in_rect(x, y, x0, y0, x0 + 200, y0 + mh) && !menu_cut(x - x0, y - y0) && !menu_cut(
            x0 + 199 - x,
            y - y0,
        ) && !menu_cut(x - x0, y0 + mh - 1 - y) && !menu_cut(x0 + 199 - x, y0 + mh - 1 - y) {
            channel((22u8, 22u8, 36u8), c)
        } else {
            v
        },
    }
}

/// Whether a corner test cuts the point.
fn menu_cut_now(a: i64, b: i64) -> (r: bool)
    requires
        0 <= a,
        0 <= b,
    ensures
        r == menu_cut(a as int, b as int),
{
    if a < 7 && b < 7 {
        assert(0 < (7 - a) * (7 - a) <= 49 && 0 < (7 - b) * (7 - b) <= 49) by (nonlinear_arith)
            requires
                0 <= a < 7,
                0 <= b < 7,
        ;
        (7 - a) * (7 - a) + (7 - b) * (7 - b) > 49
    } else {
        false
    }
}

/// The line whose band holds height `ry` below the first line's top, with
/// that line's top: see [`band_from`].
fn band_at(items: &Vec<ContextMenuItem>, ry: i64) -> (r: (Option<usize>, i64))
    requires
        menu_height(items@) <= 0x7fff_ffff,
    ensures
        r.0 is None ==> band_from(items@, 0, 0, ry as int) == -1,
        r.0 matches Some(k) ==> {
            &&& band_from(items@, 0, 0, ry as int) == k
            &&& k < items@.len()
            &&& r.1 == lines_height(items@, k as int)
            &&& 0 <= r.1 <= lines_height(items@, items@.len() as int)
        },
{
    proof {
        crate::display::context_menu::lemma_lines_height_grows(items@, 0, items@.len() as int);
    }
    let mut k: usize = 0;
    let mut acc: i64 = 0;
    while k < items.len()
        invariant
            k <= items@.len(),
            acc == lines_height(items@, k as int),
            0 <= acc <= lines_height(items@, items@.len() as int),
            lines_height(items@, items@.len() as int) <= 0x7fff_ffff,
            band_from(items@, 0, 0, ry as int) == band_from(items@, k as int, acc as int, ry as int),
        decreases items@.len() - k,
    {
        proof {
            crate::display::context_menu::lemma_lines_height_grows(items@, k + 1, items@.len() as int);
        }
        let h: i64 = if items[k].separator {
            9
        } else {
            26
        };
        assert(h == item_h(items@[k as int]));
        if acc <= ry && ry < acc + h {
            return (Some(k), acc);
        }
        acc = acc + h;
        k = k + 1;
    }
    (None, 0)
}

impl DesktopRenderer {
    /// Draws the context menu's panel, border, dividers and highlight.
    #[verifier::rlimit(40)]
    pub fn draw_context_menu(frame: &mut [u8], menu: &ContextMenu)
        requires
            old(frame)@.len() >= FRAME_LEN,
            0 <= menu.x,
            0 <= menu.y < 720,
            menu.y + menu_height(menu.items@) <= 0x7fff_ffff,
        ensures
            repainted(old(frame)@, final(frame)@, |x: int, y: int, c: int, v: u8| menu_shade(*menu, x, y, c, v)),
    {
        let ghost start = frame@;
        let mh = menu.height();
        let x0: i64 = menu.x as i64;
        let y0: i64 = menu.y as i64;
        let y_end: i64 = if y0 + mh as i64 > 720 {
            720
        } else {
            y0 + mh as i64
        };
        let x_end: i64 = if x0 + 200 > 1280 {
            1280
        } else {
            x0 + 200
        };
        let bottom: i64 = if y0 + mh as i64 - 1 < 719 {
            y0 + mh as i64 - 1
        } else {
            719
        };
        proof {
            crate::display::context_menu::lemma_lines_height_grows(menu.items@, 0, menu.items@.len() as int);
            assert forall|x: int, y: int, c: int| on_screen(x, y) && 0 <= c < 4 && y < y0 implies menu_shade(
                *menu,
                x,
                y,
                c,
                #[trigger] start[at(x, y, c)],
            ) == start[at(x, y, c)] by {
                lemma_band_outside(menu.items@, y - (y0 + 6));
            }
        }
        let mut yy: i64 = y0;
        while yy < y_end
            invariant
                y0 == menu.y,
                x0 == menu.x,
                0 <= x0,
                0 <= y0 < 720,
                y0 <= yy <= y_end <= 720,
                y_end == (if y0 + mh > 720 { 720 } else { y0 + mh }),
                x_end == (if x0 + 200 > 1280 { 1280 } else { x0 + 200 }),
                bottom == (if y0 + mh - 1 < 719 { y0 + mh - 1 } else { 719 }),
                mh == menu_height(menu.items@),
                menu.y + menu_height(menu.items@) <= 0x7fff_ffff,
                frame@.len() == start.len(),
                start.len() >= FRAME_LEN,
                forall|x: int, y: int, c: int|
                    on_screen(x, y) && 0 <= c < 4 ==> #[trigger] frame@[at(x, y, c)] == if y < yy {
                        menu_shade(*menu, x, y, c, start[at(x, y, c)])
                    } else {
                        start[at(x, y, c)]
                    },
                forall|i: int| FRAME_LEN <= i < start.len() ==> #[trigger] frame@[i] == start[i],
            decreases y_end - yy,
        {
            let (band, acc) = band_at(&menu.items, yy - (y0 + 6));
            let ghost k: int = band_from(menu.items@, 0, 0, yy - (y0 + 6));
            let line: Option<(u8, u8, u8)> = match band {
                None => None,
                Some(b) => if menu.items[b].separator {
                    if yy == y0 + 6 + acc + 4 {
                        Some((48, 48, 78))
                    } else {
                        None
                    }
                } else {
                    match menu.hovered {
                        Some(h) => if h == b {
                            Some((40, 40, 68))
                        } else {
                            None
                        },
                        None => None,
                    }
                },
            };
            let inset: i64 = match band {
                Some(b) => if menu.items[b].separator {
                    8
                } else {
                    4
                },
                None => 4,
            };
            let mut xx: i64 = x0;
            while xx < x_end
                invariant
                    y0 == menu.y,
                    x0 == menu.x,
                    0 <= x0,
                    0 <= y0 < 720,
                    y0 <= yy < y_end <= 720,
                    x0 <= xx,
                    xx <= x_end || xx == x0,
                    x_end <= 1280,
                    y_end == (if y0 + mh > 720 { 720 } else { y0 + mh }),
                    x_end == (if x0 + 200 > 1280 { 1280 } else { x0 + 200 }),
                    bottom == (if y0 + mh - 1 < 719 { y0 + mh - 1 } else { 719 }),
                    mh == menu_height(menu.items@),
                    k == band_from(menu.items@, 0, 0, yy - (y0 + 6)),
                    k != -1 ==> 0 <= k < menu.items@.len() && acc == lines_height(menu.items@, k as int),
                    menu.y + menu_height(menu.items@) <= 0x7fff_ffff,
                    inset == (if k != -1 && menu.items@[k as int].separator { 8int } else { 4int }),
                    forall|x: int|
                        x0 + inset <= x < x0 + 200 - inset ==> #[trigger] menu_line_paint(*menu, x, yy as int)
                            == line,
                    forall|x: int|
                        !(x0 + inset <= x < x0 + 200 - inset) ==> #[trigger] menu_line_paint(*menu, x, yy as int)
                            is None,
                    frame@.len() == start.len(),
                    start.len() >= FRAME_LEN,
                    forall|x: int, y: int, c: int|
                        on_screen(x, y) && 0 <= c < 4 ==> #[trigger] frame@[at(x, y, c)] == if y < yy || (y
                            == yy && x0 <= x < xx) {
                            menu_shade(*menu, x, y, c, start[at(x, y, c)])
                        } else {
                            start[at(x, y, c)]
                        },
                    forall|i: int| FRAME_LEN <= i < start.len() ==> #[trigger] frame@[i] == start[i],
                decreases x_end - xx,
            {
                let ghost before = frame@;
                let i = ((yy * 1280 + xx) * 4) as usize;
                let paint: Option<(u8, u8, u8)> = if x0 + inset <= xx && xx < x0 + 200 - inset {
                    line
                } else {
                    None
                };
                let colour: Option<(u8, u8, u8)> = match paint {
                    Some(rgb) => Some(rgb),
                    None => if yy == y0 || yy == bottom {
                        Some((58, 58, 95))
                    } else if !menu_cut_now(xx - x0, yy - y0) && !menu_cut_now(x0 + 199 - xx, yy - y0)
                        && !menu_cut_now(xx - x0, y0 + mh as i64 - 1 - yy) && !menu_cut_now(
                        x0 + 199 - xx,
                        y0 + mh as i64 - 1 - yy,
                    ) {
                        Some((22, 22, 36))
                    } else {
                        None
                    },
                };
                match colour {
                    Some(rgb) => {
                        frame[i] = rgb.0;
                        frame[i + 1] = rgb.1;
                        frame[i + 2] = rgb.2;
                        frame[i + 3] = 255;
                    },
                    None => {},
                }
                proof {
                    assert(menu_line_paint(*menu, xx as int, yy as int) == paint);
                    assert(colour matches Some(rgb) ==> forall|c: int| 0 <= c < 4 ==> #[trigger] channel(rgb, c)
                        == menu_shade(*menu, xx as int, yy as int, c, start[at(xx as int, yy as int, c)]));
                    assert(colour is None ==> forall|c: int| 0 <= c < 4 ==> menu_shade(*menu, xx as int, yy as int, c, #[trigger] start[at(xx as int, yy as int, c)])
                        == start[at(xx as int, yy as int, c)]);
                    assert forall|x: int, y: int, c: int| on_screen(x, y) && 0 <= c < 4 implies #[trigger] frame@[at(
                        x,
                        y,
                        c,
                    )] == if y < yy || (y == yy && x0 <= x < xx + 1) {
                        menu_shade(*menu, x, y, c, start[at(x, y, c)])
                    } else {
                        start[at(x, y, c)]
                    } by {
                        crate::display::frame::lemma_at_distinct(x, y, c, xx as int, yy as int, 0);
                        crate::display::frame::lemma_at_distinct(x, y, c, xx as int, yy as int, 1);
                        crate::display::frame::lemma_at_distinct(x, y, c, xx as int, yy as int, 2);
                        crate::display::frame::lemma_at_distinct(x, y, c, xx as int, yy as int, 3);
                        assert(before[at(x, y, c)] == if y < yy || (y == yy && x0 <= x < xx) {
                            menu_shade(*menu, x, y, c, start[at(x, y, c)])
                        } else {
                            start[at(x, y, c)]
                        });
                    }
                }
                xx = xx + 1;
            }
            proof {
                assert forall|x: int, y: int, c: int| on_screen(x, y) && 0 <= c < 4 implies #[trigger] frame@[at(
                    x,
                    y,
                    c,
                )] == if y < yy + 1 {
                    menu_shade(*menu, x, y, c, start[at(x, y, c)])
                } else {
                    start[at(x, y, c)]
                } by {
                    if y == yy && !(x0 <= x < x_end) {
                        assert(menu_line_paint(*menu, x, y) is None);
                        assert(menu_shade(*menu, x, y, c, start[at(x, y, c)]) == start[at(x, y, c)]);
                    }
                }
            }
            yy = yy + 1;
        }
        proof {
            assert forall|x: int, y: int, c: int| on_screen(x, y) && 0 <= c < 4 implies #[trigger] frame@[at(
                x,
                y,
                c,
            )] == menu_shade(*menu, x, y, c, start[at(x, y, c)]) by {
                if y < y0 || y >= y_end {
                    crate::display::context_menu::lemma_lines_height_grows(menu.items@, 0, menu.items@.len() as int);
                    assert(mh == 12 + lines_height(menu.items@, menu.items@.len() as int));
                    lemma_band_outside(menu.items@, y - (y0 + 6));
                    assert(menu_line_paint(*menu, x, y) is None);
                    assert(menu_shade(*menu, x, y, c, start[at(x, y, c)]) == start[at(x, y, c)]);
                }
            }
        }
    }
}

/// No line's band holds a height above the first line's top or at or
/// below the end of the lines.
proof fn lemma_band_outside(items: Seq<ContextMenuItem>, ry: int)
    ensures
        (ry < 0 || ry >= lines_height(items, items.len() as int)) ==> band_from(items, 0, 0, ry) == -1,
{
    if ry < 0 || ry >= lines_height(items, items.len() as int) {
        lemma_band_outside_from(items, 0, ry);
    }
}

/// From line `k` on, with its top at `lines_height(items, k)`, no band
/// holds a height before that top or at or below the end of the lines.
proof fn lemma_band_outside_from(items: Seq<ContextMenuItem>, k: int, ry: int)
    requires
        0 <= k <= items.len(),
        ry < lines_height(items, k) || ry >= lines_height(items, items.len() as int),
    ensures
        band_from(items, k, lines_height(items, k), ry) == -1,
    decreases items.len() - k,
{
    if k < items.len() {
        crate::display::context_menu::lemma_lines_height_grows(items, k + 1, items.len() as int);
        crate::display::context_menu::lemma_lines_height_grows(items, k, k + 1);
        lemma_band_outside_from(items, k + 1, ry);
    }
}

/// The taskbar clock's reading for `secs` seconds since the epoch, in
/// India Standard Time (5 h 30 min ahead): the hour on a twelve-hour dial
/// (12 for noon and midnight), the minute, and whether it is after noon.
pub open spec fn clock_reading(secs: int) -> (int, int, bool) {
    let mins = (secs + 19800) / 60;
    let h24 = (mins / 60) % 24;
    (if h24 % 12 == 0 { 12 } else { h24 % 12 }, mins % 60, h24 >= 12)
}

impl DesktopRenderer {
    /// The clock's reading: see [`clock_reading`].
    pub fn clock_fields(secs: u64) -> (r: (u64, u64, bool))
        requires
            secs <= u64::MAX - 19800,
        ensures
            r.0 == clock_reading(secs as int).0,
            r.1 == clock_reading(secs as int).1,
            r.2 == clock_reading(secs as int).2,
    {
        let local = secs + 19800;
        let mins = local / 60;
        let h24 = (mins / 60) % 24;
        let h12 = if h24 % 12 == 0 { 12 } else { h24 % 12 };
        (h12, mins % 60, h24 >= 12)
    }
}

} // verus!
