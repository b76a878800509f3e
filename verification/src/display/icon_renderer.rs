//! Drawing the desktop icons: a yellow folder with a lighter tab, on a
//! blue highlight when the icon is selected. The labels under the icons
//! need a font and are drawn by the display server.
use vstd::prelude::*;
use crate::desktop_icon::DesktopIcon;
use crate::display::frame::{at, channel, fill_rect, in_rect, on_screen, repainted, FRAME_LEN};

verus! {

/// Draws the desktop icons into the frame.
pub struct IconRenderer;

/// The colour `icon` gives the pixel `(x, y)`, if it covers it: the tab
/// (20 x 10 at the corner) over the body (48 x 48) over, for a selected
/// icon, a highlight 4 pixels wider on every side.
pub open spec fn icon_paint(icon: DesktopIcon, x: int, y: int) -> Option<(u8, u8, u8)> {
    let ix = icon.x as int;
    let iy = icon.y as int;
    if in_rect(x, y, ix, iy, ix + 20, iy + 10) {
        Some((255u8, 225u8, 80u8))
    } else if in_rect(x, y, ix, iy, ix + 48, iy + 48) {
        Some((245u8, 210u8, 40u8))
    } else if icon.selected && in_rect(x, y, ix - 4, iy - 4, ix + 52, iy + 52) {
        Some((40u8, 120u8, 255u8))
    } else {
        None
    }
}

/// The colour the icons, drawn in order, give the pixel `(x, y)`: that of
/// the last one that covers it.
pub open spec fn icons_paint(icons: Seq<DesktopIcon>, x: int, y: int) -> Option<(u8, u8, u8)>
    decreases icons.len(),
{
    if icons.len() == 0 {
        None
    } else {
        match icon_paint(icons.last(), x, y) {
            Some(rgb) => Some(rgb),
            None => icons_paint(icons.drop_last(), x, y),
        }
    }
}

/// Channel `c` of the colour `p` paints, or the old value `v` where it
/// paints nothing.
pub open spec fn paint_or(p: Option<(u8, u8, u8)>, c: int, v: u8) -> u8 {
    match p {
        Some(rgb) => channel(rgb, c),
        None => v,
    }
}

/// An icon whose squares can be walked with screen offsets: each of its
/// coordinates is at least zero, or so far below zero that the whole icon,
/// highlight included, lies before the screen's edge.
pub open spec fn icon_drawable(icon: DesktopIcon) -> bool {
    let reach: int = if icon.selected {
        52
    } else {
        48
    };
    (icon.x >= 0 || icon.x + reach < 0) && (icon.y >= 0 || icon.y + reach < 0)
}

/// Whether `icon` can be drawn: see [`icon_drawable`].
pub fn icon_drawable_now(icon: &DesktopIcon) -> (r: bool)
    ensures
        r == icon_drawable(*icon),
{
    let reach: i64 = if icon.selected {
        52
    } else {
        48
    };
    let x = icon.x as i64;
    let y = icon.y as i64;
    (x >= 0 || x + reach < 0) && (y >= 0 || y + reach < 0)
}

impl IconRenderer {
    /// Draws the icons in order, each over the ones before it.
    pub fn draw(frame: &mut [u8], icons: &[DesktopIcon])
        requires
            old(frame)@.len() >= FRAME_LEN,
            forall|k: int| 0 <= k < icons@.len() ==> icon_drawable(#[trigger] icons@[k]),
        ensures
            repainted(
                old(frame)@,
                final(frame)@,
                |x: int, y: int, c: int, v: u8| paint_or(icons_paint(icons@, x, y), c, v),
            ),
    {
        let ghost start = frame@;
        let n = icons.len();
        let mut k: usize = 0;
        while k < n
            invariant
                k <= n == icons@.len(),
                frame@.len() == start.len(),
                start.len() >= FRAME_LEN,
                forall|j: int| 0 <= j < icons@.len() ==> icon_drawable(#[trigger] icons@[j]),
                forall|x: int, y: int, c: int|
                    on_screen(x, y) && 0 <= c < 4 ==> #[trigger] frame@[at(x, y, c)] == paint_or(
                        icons_paint(icons@.take(k as int), x, y),
                        c,
                        start[at(x, y, c)],
                    ),
                forall|i: int| FRAME_LEN <= i < start.len() ==> #[trigger] frame@[i] == start[i],
            decreases n - k,
        {
            let ghost before = frame@;
            Self::draw_icon(frame, &icons[k]);
            proof {
                let done = icons@.take(k + 1);
                assert(done.drop_last() =~= icons@.take(k as int));
                assert(done.last() == icons@[k as int]);
                assert forall|x: int, y: int, c: int| on_screen(x, y) && 0 <= c < 4 implies #[trigger] frame@[at(
                    x,
                    y,
                    c,
                )] == paint_or(icons_paint(done, x, y), c, start[at(x, y, c)]) by {
                    assert(before[at(x, y, c)] == paint_or(
                        icons_paint(icons@.take(k as int), x, y),
                        c,
                        start[at(x, y, c)],
                    ));
                }
            }
            k = k + 1;
        }
        assert(icons@.take(n as int) =~= icons@);
    }

    /// Draws one icon: the highlight when it is selected, then the body,
    /// then the tab.
    fn draw_icon(frame: &mut [u8], icon: &DesktopIcon)
        requires
            old(frame)@.len() >= FRAME_LEN,
            icon_drawable(*icon),
        ensures
            repainted(
                old(frame)@,
                final(frame)@,
                |x: int, y: int, c: int, v: u8| paint_or(icon_paint(*icon, x, y), c, v),
            ),
    {
        let ghost start = frame@;
        let x = icon.x as i64;
        let y = icon.y as i64;
        if icon.selected {
            fill_rect(frame, x - 4, y - 4, x + 52, y + 52, (40, 120, 255));
        }
        let ghost lit = frame@;
        fill_rect(frame, x, y, x + 48, y + 48, (245, 210, 40));
        let ghost body = frame@;
        fill_rect(frame, x, y, x + 20, y + 10, (255, 225, 80));
        proof {
            assert forall|px: int, py: int, c: int| on_screen(px, py) && 0 <= c < 4 implies #[trigger] frame@[at(
                px,
                py,
                c,
            )] == paint_or(icon_paint(*icon, px, py), c, start[at(px, py, c)]) by {
                assert(body[at(px, py, c)] == (if in_rect(px, py, x as int, y as int, x + 48, y + 48) {
                    channel((245u8, 210u8, 40u8), c)
                } else {
                    lit[at(px, py, c)]
                }));
                if icon.selected {
                    assert(lit[at(px, py, c)] == (if in_rect(px, py, x - 4, y - 4, x + 52, y + 52) {
                        channel((40u8, 120u8, 255u8), c)
                    } else {
                        start[at(px, py, c)]
                    }));
                }
            }
            assert forall|i: int| FRAME_LEN <= i < start.len() implies #[trigger] frame@[i] == start[i] by {
                assert(body[i] == lit[i]);
            }
        }
    }

    /// Where an icon's label goes, for a label `label_w` pixels wide: 5
    /// pixels below the icon, centred on it, and for a label wider than the
    /// icon no further left than the screen's edge.
    pub fn label_origin(x: i32, y: i32, label_w: usize) -> (r: (usize, usize))
        requires
            x >= 0,
            y >= 0,
        ensures
            r.0 == (if label_w < 48 {
                x + (48 - label_w) / 2
            } else if x >= (label_w - 48) / 2 {
                x - (label_w - 48) / 2
            } else {
                0
            }),
            r.1 == y + 53,
    {
        let xs = x as usize;
        let lx = if label_w < 48 {
            xs + (48 - label_w) / 2
        } else {
            xs.saturating_sub((label_w - 48) / 2)
        };
        (lx, y as usize + 53)
    }
}

} // verus!
