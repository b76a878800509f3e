//! The frame buffer the shell draws into: 1280 x 720 pixels, four bytes
//! (red, green, blue, alpha) each, row after row. A drawing routine is
//! stated as the colour it gives each screen pixel, from the colour that
//! pixel had before; bytes past the screen are left alone.
use vstd::prelude::*;

verus! {

/// Width of the screen, in pixels.
pub const SCREEN_W: usize = 1280;

/// Height of the screen, in pixels.
pub const SCREEN_H: usize = 720;

/// Number of bytes of a full frame.
pub const FRAME_LEN: usize = 3686400;

/// Position of channel `c` of the pixel at `(x, y)`.
pub open spec fn at(x: int, y: int, c: int) -> int {
    (y * 1280 + x) * 4 + c
}

/// Whether `(x, y)` is a pixel of the screen.
pub open spec fn on_screen(x: int, y: int) -> bool {
    0 <= x < 1280 && 0 <= y < 720
}

/// Channel `c` of the opaque colour `rgb`.
pub open spec fn channel(rgb: (u8, u8, u8), c: int) -> u8 {
    if c == 0 {
        rgb.0
    } else if c == 1 {
        rgb.1
    } else if c == 2 {
        rgb.2
    } else {
        255
    }
}

/// `new` is `old` with channel `c` of each screen pixel `(x, y)` set to
/// `f(x, y, c, v)`, `v` being its old value; nothing else changes.
pub open spec fn repainted(old: Seq<u8>, new: Seq<u8>, f: spec_fn(int, int, int, u8) -> u8) -> bool {
    &&& new.len() == old.len()
    &&& forall|x: int, y: int, c: int|
        on_screen(x, y) && 0 <= c < 4 ==> #[trigger] new[at(x, y, c)] == f(x, y, c, old[at(x, y, c)])
    &&& forall|i: int| FRAME_LEN <= i < old.len() ==> #[trigger] new[i] == old[i]
}

/// Whether `(x, y)` lies in the rectangle from `(x0, y0)` up to, not
/// including, `(x1, y1)`.
pub open spec fn in_rect(x: int, y: int, x0: int, y0: int, x1: int, y1: int) -> bool {
    x0 <= x < x1 && y0 <= y < y1
}

/// Two channels of screen pixels share a position only when they are the
/// same channel of the same pixel.
pub proof fn lemma_at_distinct(x: int, y: int, c: int, x2: int, y2: int, c2: int)
    requires
        on_screen(x, y),
        on_screen(x2, y2),
        0 <= c < 4,
        0 <= c2 < 4,
    ensures
        (at(x, y, c) == at(x2, y2, c2)) == (x == x2 && y == y2 && c == c2),
        0 <= at(x, y, c) < FRAME_LEN,
{
}

/// Paints the rectangle from `(x0, y0)` up to `(x1, y1)` in the opaque
/// colour `rgb`, as far as it lies on the screen.
pub fn fill_rect(frame: &mut [u8], x0: i64, y0: i64, x1: i64, y1: i64, rgb: (u8, u8, u8))
    requires
        old(frame)@.len() >= FRAME_LEN,
    ensures
        repainted(
            old(frame)@,
            final(frame)@,
            |x: int, y: int, c: int, v: u8|
                if in_rect(x, y, x0 as int, y0 as int, x1 as int, y1 as int) {
                    channel(rgb, c)
                } else {
                    v
                },
        ),
{
    let ghost start = frame@;
    let cx0: usize = if x0 < 0 {
        0
    } else if x0 > 1280 {
        1280
    } else {
        x0 as usize
    };
    let cx1: usize = if x1 < 0 {
        0
    } else if x1 > 1280 {
        1280
    } else {
        x1 as usize
    };
    let cy0: usize = if y0 < 0 {
        0
    } else if y0 > 720 {
        720
    } else {
        y0 as usize
    };
    let cy1: usize = if y1 < 0 {
        0
    } else if y1 > 720 {
        720
    } else {
        y1 as usize
    };
    let mut yy: usize = cy0;
    while yy < cy1
        invariant
            cy0 <= yy,
            yy <= cy1 || yy == cy0,
            cy1 <= 720,
            cx0 <= 1280,
            cx1 <= 1280,
            cx0 as int == (if x0 < 0 { 0 } else if x0 > 1280 { 1280 } else { x0 as int }),
            cx1 as int == (if x1 < 0 { 0 } else if x1 > 1280 { 1280 } else { x1 as int }),
            cy0 as int == (if y0 < 0 { 0 } else if y0 > 720 { 720 } else { y0 as int }),
            cy1 as int == (if y1 < 0 { 0 } else if y1 > 720 { 720 } else { y1 as int }),
            frame@.len() == start.len(),
            start.len() >= FRAME_LEN,
            forall|x: int, y: int, c: int|
                on_screen(x, y) && 0 <= c < 4 ==> #[trigger] frame@[at(x, y, c)] == if in_rect(
                    x,
                    y,
                    cx0 as int,
                    cy0 as int,
                    cx1 as int,
                    yy as int,
                ) {
                    channel(rgb, c)
                } else {
                    start[at(x, y, c)]
                },
            forall|i: int| FRAME_LEN <= i < start.len() ==> #[trigger] frame@[i] == start[i],
        decreases cy1 - yy,
    {
        let mut xx: usize = cx0;
        while xx < cx1
            invariant
                cy0 <= yy < cy1 <= 720,
                cx0 <= xx,
                xx <= cx1 || xx == cx0,
                cx1 <= 1280,
                frame@.len() == start.len(),
                start.len() >= FRAME_LEN,
                forall|x: int, y: int, c: int|
                    on_screen(x, y) && 0 <= c < 4 ==> #[trigger] frame@[at(x, y, c)] == if in_rect(
                        x,
                        y,
                        cx0 as int,
                        cy0 as int,
                        cx1 as int,
                        yy as int,
                    ) || (y == yy && cx0 <= x < xx) {
                        channel(rgb, c)
                    } else {
                        start[at(x, y, c)]
                    },
                forall|i: int| FRAME_LEN <= i < start.len() ==> #[trigger] frame@[i] == start[i],
            decreases cx1 - xx,
        {
            let i = (yy * 1280 + xx) * 4;
            let ghost before = frame@;
            frame[i] = rgb.0;
            frame[i + 1] = rgb.1;
            frame[i + 2] = rgb.2;
            frame[i + 3] = 255;
            proof {
                assert(frame@ == before.update(i as int, rgb.0).update(i + 1, rgb.1).update(
                    i + 2,
                    rgb.2,
                ).update(i + 3, 255u8));
                assert forall|x: int, y: int, c: int| on_screen(x, y) && 0 <= c < 4 implies #[trigger] frame@[at(
                    x,
                    y,
                    c,
                )] == if in_rect(x, y, cx0 as int, cy0 as int, cx1 as int, yy as int) || (y == yy
                    && cx0 <= x < xx + 1) {
                    channel(rgb, c)
                } else {
                    start[at(x, y, c)]
                } by {
                    lemma_at_distinct(x, y, c, xx as int, yy as int, 0);
                    lemma_at_distinct(x, y, c, xx as int, yy as int, 1);
                    lemma_at_distinct(x, y, c, xx as int, yy as int, 2);
                    lemma_at_distinct(x, y, c, xx as int, yy as int, 3);
                    assert(before[at(x, y, c)] == if in_rect(
                        x,
                        y,
                        cx0 as int,
                        cy0 as int,
                        cx1 as int,
                        yy as int,
                    ) || (y == yy && cx0 <= x < xx) {
                        channel(rgb, c)
                    } else {
                        start[at(x, y, c)]
                    });
                }
            }
            xx = xx + 1;
        }
        yy = yy + 1;
    }
    proof {
        assert forall|x: int, y: int, c: int| on_screen(x, y) && 0 <= c < 4 implies #[trigger] frame@[at(
            x,
            y,
            c,
        )] == if in_rect(x, y, x0 as int, y0 as int, x1 as int, y1 as int) {
            channel(rgb, c)
        } else {
            start[at(x, y, c)]
        } by {
            assert(in_rect(x, y, cx0 as int, cy0 as int, cx1 as int, yy as int) == in_rect(
                x,
                y,
                x0 as int,
                y0 as int,
                x1 as int,
                y1 as int,
            ));
        }
    }
}

} // verus!
