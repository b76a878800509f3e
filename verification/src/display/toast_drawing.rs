//! A toast's panel: rounded glass whose opacity the display server works
//! out from the toast's age, with a blue strip down its left edge. The
//! display server draws the text and the bar that shows the time left.
use vstd::prelude::*;
use crate::display::desktop_renderer::DesktopRenderer;
use crate::display::frame::{at, on_screen, repainted, FRAME_LEN, lemma_at_distinct};
use crate::display::notification::toast_y;
use crate::display::start_menu_drawing::rounded;

verus! {

/// The shade of channel `c` of pixel `(x, y)` whose value was `v` under the
/// panel of the toast at stack index `i` drawn at opacity `a`/255: a
/// 280 x 60 panel with corners of radius 8 at `(984, toast_y(i))` and a
/// 4 pixel strip down its left edge, 4 pixels short of either end.
pub open spec fn toast_shade(i: int, a: int, x: int, y: int, c: int, v: u8) -> u8 {
    let lx = x - 984;
    let ly = y - toast_y(i, 720);
    if 0 <= lx < 4 && 4 <= ly < 56 {
        if c == 0 { 82 } else if c == 1 { 155 } else { 255 }
    } else if !rounded(lx, ly, 280, 60, 8) {
        v
    } else if c == 3 {
        255
    } else {
        let base: int = if c == 0 { 22 } else if c == 1 { 24 } else { 40 };
        ((base * a + v * (255 - a)) / 255) as u8
    }
}

/// `(base * a + v * (255 - a)) / 255`, computed.
fn blend(base: u16, v: u8, a: u16) -> (r: u8)
    requires
        base <= 255,
        a <= 255,
    ensures
        r == (base * a + v * (255 - a)) / 255,
{
    assert(0 <= base * a + v * (255 - a) <= 65025) by (nonlinear_arith)
        requires
            0 <= base <= 255,
            0 <= v <= 255,
            0 <= a <= 255,
    ;
    ((base * a + (v as u16) * (255 - a)) / 255) as u8
}

impl DesktopRenderer {
    /// Draws the panel of the toast at stack index `i` at opacity
    /// `alpha`/255: see [`toast_shade`].
    pub fn draw_toast_panel(frame: &mut [u8], i: usize, alpha: u16)
        requires
            old(frame)@.len() >= FRAME_LEN,
            i < 9,
            alpha <= 255,
        ensures
            repainted(
                old(frame)@,
                final(frame)@,
                |x: int, y: int, c: int, v: u8| toast_shade(i as int, alpha as int, x, y, c, v),
            ),
    {
        let ghost start = frame@;
        let top: usize = 596 - 68 * i;
        let mut yy: usize = top;
        while yy < top + 60
            invariant
                top == toast_y(i as int, 720),
                top <= yy <= top + 60,
                top + 60 <= 720,
                alpha <= 255,
                frame@.len() == start.len(),
                start.len() >= FRAME_LEN,
                forall|x: int, y: int, c: int|
                    on_screen(x, y) && 0 <= c < 4 ==> #[trigger] frame@[at(x, y, c)] == if top <= y < yy {
                        toast_shade(i as int, alpha as int, x, y, c, start[at(x, y, c)])
                    } else {
                        start[at(x, y, c)]
                    },
                forall|i: int| FRAME_LEN <= i < start.len() ==> #[trigger] frame@[i] == start[i],
            decreases top + 60 - yy,
        {
            let mut xx: usize = 984;
            while xx < 1264
                invariant
                    top == toast_y(i as int, 720),
                    top <= yy < top + 60,
                    top + 60 <= 720,
                    984 <= xx <= 1264,
                    alpha <= 255,
                    frame@.len() == start.len(),
                    start.len() >= FRAME_LEN,
                    forall|x: int, y: int, c: int|
                        on_screen(x, y) && 0 <= c < 4 ==> #[trigger] frame@[at(x, y, c)] == if top <= y < yy || (y
                            == yy && 984 <= x < xx) {
                            toast_shade(i as int, alpha as int, x, y, c, start[at(x, y, c)])
                        } else {
                            start[at(x, y, c)]
                        },
                    forall|i: int| FRAME_LEN <= i < start.len() ==> #[trigger] frame@[i] == start[i],
                decreases 1264 - xx,
            {
                let ghost before = frame@;
                let idx = (yy * 1280 + xx) * 4;
                let lx = xx as i64 - 984;
                let ly = yy as i64 - top as i64;
                proof {
                    assert(before[at(xx as int, yy as int, 0)] == start[at(xx as int, yy as int, 0)]);
                    assert(before[at(xx as int, yy as int, 1)] == start[at(xx as int, yy as int, 1)]);
                    assert(before[at(xx as int, yy as int, 2)] == start[at(xx as int, yy as int, 2)]);
                }
                if lx < 4 && 4 <= ly && ly < 56 {
                    frame[idx] = 82;
                    frame[idx + 1] = 155;
                    frame[idx + 2] = 255;
                    frame[idx + 3] = 255;
                } else if rounded_toast(lx, ly) {
                    let r = frame[idx];
                    let g = frame[idx + 1];
                    let b = frame[idx + 2];
                    frame[idx] = blend(22, r, alpha);
                    frame[idx + 1] = blend(24, g, alpha);
                    frame[idx + 2] = blend(40, b, alpha);
                    frame[idx + 3] = 255;
                }
                proof {
                    assert forall|x: int, y: int, c: int| on_screen(x, y) && 0 <= c < 4 implies #[trigger] frame@[at(
                        x,
                        y,
                        c,
                    )] == if top <= y < yy || (y == yy && 984 <= x < xx + 1) {
                        toast_shade(i as int, alpha as int, x, y, c, start[at(x, y, c)])
                    } else {
                        start[at(x, y, c)]
                    } by {
                        lemma_at_distinct(x, y, c, xx as int, yy as int, 0);
                        lemma_at_distinct(x, y, c, xx as int, yy as int, 1);
                        lemma_at_distinct(x, y, c, xx as int, yy as int, 2);
                        lemma_at_distinct(x, y, c, xx as int, yy as int, 3);
                        assert(before[at(x, y, c)] == if top <= y < yy || (y == yy && 984 <= x < xx) {
                            toast_shade(i as int, alpha as int, x, y, c, start[at(x, y, c)])
                        } else {
                            start[at(x, y, c)]
                        });
                    }
                }
                xx = xx + 1;
            }
            yy = yy + 1;
        }
    }
}

/// Whether offset `(lx, ly)` lies on a toast's rounded panel.
fn rounded_toast(lx: i64, ly: i64) -> (r: bool)
    requires
        0 <= lx < 280,
        0 <= ly < 60,
    ensures
        r == rounded(lx as int, ly as int, 280, 60, 8),
{
    crate::display::start_menu_drawing::rounded_now(lx, ly, 280, 60, 8)
}

} // verus!
