//! The file browser's drawing that needs neither the font nor floating
//! point: the bookmark sidebar with the current folder lit, the address
//! bar, the column header, each visible row's background and icon, and
//! the status bar. The display server draws the labels, the file names and
//! the scroll bar.
use vstd::prelude::*;
use crate::display::frame::{at, fill_rect, in_rect, on_screen, repainted, FRAME_LEN, lemma_at_distinct};
use crate::display::icon_renderer::paint_or;
use crate::display::window_renderer::{WindowRenderer, icon_color_of, explorer_rows_spec, explorer_first_row, explorer_rows_fitting};
use crate::explorer_state::{ExplorerState, FileEntry};
use crate::text::str_eq;

verus! {

/// The colour the browser's sidebar, address bar and column header give
/// pixel `(x, y)` of a content area from `(x0, y0)` to `(x1, y1)`, if any.
/// A 140 pixel sidebar with a divider, each bookmark 22 pixels apart from 6
/// below the top, lit when it is the folder shown; the three arrow buttons
/// and the path field in a 28 pixel bar right of the sidebar, a line under
/// it, a 20 pixel column header and a line under that. The two lines are
/// clipped to the screen only.
pub open spec fn explorer_chrome_colour(
    bookmarks: Seq<String>,
    current: Seq<char>,
    x0: int,
    y0: int,
    x1: int,
    y1: int,
    x: int,
    y: int,
) -> Option<(u8, u8, u8)> {
    let cx = x0 + 141;
    let bi = (y - y0 - 6) / 22;
    if cx <= x < x1 && y == y0 + 49 {
        Some((28u8, 30u8, 52u8))
    } else if cx <= x < x1 && y0 + 29 <= y < y0 + 49 && y < y1 {
        Some((18u8, 18u8, 28u8))
    } else if cx <= x < x1 && y == y0 + 28 {
        Some((28u8, 30u8, 52u8))
    } else if cx + 88 <= x < x1 && y0 <= y < y0 + 28 && y < y1 {
        Some((20u8, 20u8, 32u8))
    } else if cx <= x < cx + 84 && x < x1 && y0 <= y < y0 + 28 && y < y1 {
        Some((18u8, 18u8, 28u8))
    } else if x0 + 2 <= x < x0 + 138 && y0 + 6 <= y < y1 && (y - y0 - 6) % 22 < 20 && bi < bookmarks.len()
        && bookmarks[bi]@ == current {
        Some((28u8, 32u8, 55u8))
    } else if x == (if x0 + 140 < 1279 { x0 + 140 } else { 1279 }) && y0 <= y < y1 {
        Some((35u8, 38u8, 62u8))
    } else if x0 <= x < x0 + 140 && x < x1 && y0 <= y < y1 {
        Some((14u8, 14u8, 22u8))
    } else {
        None
    }
}

/// A folder icon's tab: the icon's colour, its red and green lightened.
pub open spec fn tab_colour(c: (u8, u8, u8)) -> (u8, u8, u8) {
    (
        if c.0 + 20 > 255 { 255u8 } else { (c.0 + 20) as u8 },
        if c.1 + 20 > 255 { 255u8 } else { (c.1 + 20) as u8 },
        c.2,
    )
}

/// The colour the file list gives pixel `(x, y)`, if any, when it shows
/// entries `start` up to `end` of `entries`: rows 22 pixels high from 50
/// below the content's top, each only when it fits above `y1`; the
/// selected row in blue, every other row from the first a shade lighter;
/// each with a 16 x 14 icon square in its entry's colour, a tab over it for
/// a folder.
pub open spec fn explorer_row_colour(
    entries: Seq<FileEntry>,
    selected: Option<usize>,
    start: int,
    end: int,
    x0: int,
    y0: int,
    x1: int,
    y1: int,
    x: int,
    y: int,
) -> Option<(u8, u8, u8)> {
    let cx = x0 + 141;
    let list_y0 = y0 + 50;
    let ri = (y - list_y0) / 22;
    let ly = (y - list_y0) % 22;
    let ix = cx + 6;
    let e = entries[start + ri];
    let icon = icon_color_of(e.is_dir, e.ext@);
    if !(list_y0 <= y && ri < end - start && list_y0 + ri * 22 + 22 <= y1) {
        None
    } else if e.is_dir && 1 <= ly < 4 && ix <= x < ix + 8 {
        Some(tab_colour(icon))
    } else if 4 <= ly < 18 && ix <= x < ix + 16 {
        Some(icon)
    } else if !(cx <= x < x1) {
        None
    } else if selected == Some((start + ri) as usize) {
        Some((32u8, 72u8, 168u8))
    } else if ri % 2 == 0 {
        Some((18u8, 18u8, 26u8))
    } else {
        None
    }
}

/// Which bookmarks name the folder shown.
fn bookmarks_lit(bookmarks: &Vec<String>, current: &str) -> (lit: Vec<bool>)
    ensures
        lit@.len() == bookmarks@.len(),
        forall|j: int| 0 <= j < lit@.len() ==> #[trigger] lit@[j] == (bookmarks@[j]@ == current@),
{
    let mut lit: Vec<bool> = Vec::new();
    let mut j: usize = 0;
    while j < bookmarks.len()
        invariant
            j <= bookmarks@.len(),
            lit@.len() == j,
            forall|k: int| 0 <= k < j ==> #[trigger] lit@[k] == (bookmarks@[k]@ == current@),
        decreases bookmarks@.len() - j,
    {
        lit.push(str_eq(bookmarks[j].as_str(), current));
        j = j + 1;
    }
    lit
}

/// `explorer_chrome_colour`, computed, with the lit bookmarks worked out.
fn chrome_pixel(
    lit: &Vec<bool>,
    Ghost(bookmarks): Ghost<Seq<String>>,
    Ghost(current): Ghost<Seq<char>>,
    x0: usize,
    y0: usize,
    x1: usize,
    y1: usize,
    x: usize,
    y: usize,
) -> (r: Option<(u8, u8, u8)>)
    requires
        x0 <= 1280,
        y0 <= 720,
        x < 1280,
        y < 720,
        lit@.len() == bookmarks.len(),
        forall|j: int| 0 <= j < lit@.len() ==> #[trigger] lit@[j] == (bookmarks[j]@ == current),
    ensures
        r == explorer_chrome_colour(bookmarks, current, x0 as int, y0 as int, x1 as int, y1 as int, x as int, y as int),
{
    let cx = x0 + 141;
    if cx <= x && x < x1 && y == y0 + 49 {
        return Some((28, 30, 52));
    }
    if cx <= x && x < x1 && y0 + 29 <= y && y < y0 + 49 && y < y1 {
        return Some((18, 18, 28));
    }
    if cx <= x && x < x1 && y == y0 + 28 {
        return Some((28, 30, 52));
    }
    if cx + 88 <= x && x < x1 && y0 <= y && y < y0 + 28 && y < y1 {
        return Some((20, 20, 32));
    }
    if cx <= x && x < cx + 84 && x < x1 && y0 <= y && y < y0 + 28 && y < y1 {
        return Some((18, 18, 28));
    }
    if x0 + 2 <= x && x < x0 + 138 && y0 + 6 <= y && y < y1 && (y - y0 - 6) % 22 < 20 {
        let bi = (y - y0 - 6) / 22;
        if bi < lit.len() && lit[bi] {
            return Some((28, 32, 55));
        }
    }
    let div: usize = if x0 + 140 < 1279 { x0 + 140 } else { 1279 };
    if x == div && y0 <= y && y < y1 {
        return Some((35, 38, 62));
    }
    if x0 <= x && x < x0 + 140 && x < x1 && y0 <= y && y < y1 {
        return Some((14, 14, 22));
    }
    None
}

/// `explorer_row_colour`, computed.
fn row_pixel(exp: &ExplorerState, start: usize, end: usize, x0: usize, y0: usize, x1: usize, y1: usize, x: usize, y: usize) -> (r: Option<
    (u8, u8, u8),
>)
    requires
        x0 <= 1280,
        y0 <= 720,
        y1 <= 720,
        x < 1280,
        y < 720,
        start <= end <= exp.entries@.len(),
    ensures
        r == explorer_row_colour(
            exp.entries@,
            exp.selected,
            start as int,
            end as int,
            x0 as int,
            y0 as int,
            x1 as int,
            y1 as int,
            x as int,
            y as int,
        ),
{
    let cx = x0 + 141;
    let list_y0 = y0 + 50;
    if y < list_y0 {
        return None;
    }
    let ri = (y - list_y0) / 22;
    let ly = (y - list_y0) % 22;
    if !(ri < end - start && list_y0 + ri * 22 + 22 <= y1) {
        return None;
    }
    let e = &exp.entries[start + ri];
    let ix = cx + 6;
    if e.is_dir && 1 <= ly && ly < 4 && ix <= x && x < ix + 8 {
        let c = WindowRenderer::file_icon_color(e);
        let r: u8 = if c.0 > 235 { 255 } else { c.0 + 20 };
        let g: u8 = if c.1 > 235 { 255 } else { c.1 + 20 };
        return Some((r, g, c.2));
    }
    if 4 <= ly && ly < 18 && ix <= x && x < ix + 16 {
        return Some(WindowRenderer::file_icon_color(e));
    }
    if !(cx <= x && x < x1) {
        return None;
    }
    let chosen = match exp.selected {
        Some(s) => s == start + ri,
        None => false,
    };
    if chosen {
        Some((32, 72, 168))
    } else if ri % 2 == 0 {
        Some((18, 18, 26))
    } else {
        None
    }
}

impl WindowRenderer {
    /// Draws the file browser's sidebar, address bar and column header into
    /// the content area from `(x0, y0)` to `(x1, y1)`, lighting the
    /// bookmarks that name `current`: see [`explorer_chrome_colour`].
    pub fn draw_explorer_chrome(
        frame: &mut [u8],
        x0: usize,
        y0: usize,
        x1: usize,
        y1: usize,
        bookmarks: &Vec<String>,
        current: &str,
    )
        requires
            old(frame)@.len() >= FRAME_LEN,
            x0 <= x1 <= 1280,
            y0 <= 720,
            y1 <= 720,
        ensures
            repainted(
                old(frame)@,
                final(frame)@,
                |x: int, y: int, c: int, v: u8|
                    paint_or(
                        explorer_chrome_colour(bookmarks@, current@, x0 as int, y0 as int, x1 as int, y1 as int, x, y),
                        c,
                        v,
                    ),
            ),
    {
        let lit = bookmarks_lit(bookmarks, current);
        let ghost bm = bookmarks@;
        let ghost cur = current@;
        let xs: usize = 0;
        let xe: usize = 1280;
        let ys: usize = 0;
        let ye: usize = 720;
        let ghost start = frame@;
        assert forall|x: int, y: int, c: int|
            on_screen(x, y) && 0 <= c < 4 && !(xs <= x < xe && ys <= y < ye) implies paint_or(
                explorer_chrome_colour(bm, cur, x0 as int, y0 as int, x1 as int, y1 as int, x, y),
                c,
                #[trigger] start[at(x, y, c)],
            ) == start[at(x, y, c)] by {}
        let mut yy: usize = ys;
        while yy < ye
            invariant
                ys <= yy <= ye,
                ye <= 720,
                xs <= xe <= 1280,
                x0 <= 1280,
                y0 <= 720,
                xs == 0,
                lit@.len() == bm.len(),
                forall|j: int| 0 <= j < lit@.len() ==> #[trigger] lit@[j] == (bm[j]@ == cur),
                frame@.len() == start.len(),
                start.len() >= FRAME_LEN,
                forall|x: int, y: int, c: int|
                    on_screen(x, y) && 0 <= c < 4 ==> #[trigger] frame@[at(x, y, c)] == if ys <= y < yy {
                        paint_or(explorer_chrome_colour(bm, cur, x0 as int, y0 as int, x1 as int, y1 as int, x, y), c, start[at(x, y, c)])
                    } else {
                        start[at(x, y, c)]
                    },
                forall|x: int, y: int, c: int|
                    on_screen(x, y) && 0 <= c < 4 && !(xs <= x < xe && ys <= y < ye) ==> paint_or(
                        explorer_chrome_colour(bm, cur, x0 as int, y0 as int, x1 as int, y1 as int, x, y),
                        c,
                        #[trigger] start[at(x, y, c)],
                    ) == start[at(x, y, c)],
                forall|i: int| FRAME_LEN <= i < start.len() ==> #[trigger] frame@[i] == start[i],
            decreases ye - yy,
        {
            let mut xx: usize = xs;
            while xx < xe
                invariant
                    ys <= yy < ye,
                    ye <= 720,
                    xs <= xx <= xe,
                    xe <= 1280,
                x0 <= 1280,
                y0 <= 720,
                xs == 0,
                lit@.len() == bm.len(),
                forall|j: int| 0 <= j < lit@.len() ==> #[trigger] lit@[j] == (bm[j]@ == cur),
                    frame@.len() == start.len(),
                    start.len() >= FRAME_LEN,
                    forall|x: int, y: int, c: int|
                        on_screen(x, y) && 0 <= c < 4 ==> #[trigger] frame@[at(x, y, c)] == if ys <= y < yy || (y
                            == yy && xs <= x < xx) {
                            paint_or(explorer_chrome_colour(bm, cur, x0 as int, y0 as int, x1 as int, y1 as int, x, y), c, start[at(x, y, c)])
                        } else {
                            start[at(x, y, c)]
                        },
                    forall|i: int| FRAME_LEN <= i < start.len() ==> #[trigger] frame@[i] == start[i],
                decreases xe - xx,
            {
                let ghost before = frame@;
                let i = (yy * 1280 + xx) * 4;
                let colour = chrome_pixel(&lit, Ghost(bm), Ghost(cur), x0, y0, x1, y1, xx, yy);
                proof {
                    assert(before[at(xx as int, yy as int, 0)] == start[at(xx as int, yy as int, 0)]);
                    assert(before[at(xx as int, yy as int, 1)] == start[at(xx as int, yy as int, 1)]);
                    assert(before[at(xx as int, yy as int, 2)] == start[at(xx as int, yy as int, 2)]);
                    assert(before[at(xx as int, yy as int, 3)] == start[at(xx as int, yy as int, 3)]);
                }
                match colour {
                    Some(rgb) => {
                        frame[i] = rgb.0;
                        frame[i + 1] = rgb.1;
                        frame[i + 2] = rgb.2;
                        frame[i + 3] = 255;
                    },
                    None => {},
                }
                proof {
                    assert forall|x: int, y: int, c: int| on_screen(x, y) && 0 <= c < 4 implies #[trigger] frame@[at(
                        x,
                        y,
                        c,
                    )] == if ys <= y < yy || (y == yy && xs <= x < xx + 1) {
                        paint_or(explorer_chrome_colour(bm, cur, x0 as int, y0 as int, x1 as int, y1 as int, x, y), c, start[at(x, y, c)])
                    } else {
                        start[at(x, y, c)]
                    } by {
                        lemma_at_distinct(x, y, c, xx as int, yy as int, 0);
                        lemma_at_distinct(x, y, c, xx as int, yy as int, 1);
                        lemma_at_distinct(x, y, c, xx as int, yy as int, 2);
                        lemma_at_distinct(x, y, c, xx as int, yy as int, 3);
                        assert(before[at(x, y, c)] == if ys <= y < yy || (y == yy && xs <= x < xx) {
                            paint_or(explorer_chrome_colour(bm, cur, x0 as int, y0 as int, x1 as int, y1 as int, x, y), c, start[at(x, y, c)])
                        } else {
                            start[at(x, y, c)]
                        });
                    }
                }
                xx = xx + 1;
            }
            yy = yy + 1;
        }
    }

    /// Draws the background and icon of each row of the file list that
    /// fits in the content area from `(x0, y0)` to `(x1, y1)`: see
    /// [`explorer_row_colour`], over the entries [`explorer_rows_spec`]
    /// picks.
    pub fn draw_explorer_rows(frame: &mut [u8], x0: usize, y0: usize, x1: usize, y1: usize, exp: &ExplorerState)
        requires
            old(frame)@.len() >= FRAME_LEN,
            x0 <= x1 <= 1280,
            y0 <= 720,
            y1 <= 720,
        ensures
            repainted(
                old(frame)@,
                final(frame)@,
                |x: int, y: int, c: int, v: u8|
                    paint_or(
                        explorer_row_colour(
                            exp.entries@,
                            exp.selected,
                            explorer_rows_spec(exp.entries@.len() as int, exp.scroll_offset as int, y0 + 50, y1 as int).0,
                            explorer_rows_spec(exp.entries@.len() as int, exp.scroll_offset as int, y0 + 50, y1 as int).1,
                            x0 as int,
                            y0 as int,
                            x1 as int,
                            y1 as int,
                            x,
                            y,
                        ),
                        c,
                        v,
                    ),
            ),
    {
        let (first, last) = WindowRenderer::explorer_rows(exp.entries.len(), exp.scroll_offset, y0 + 50, y1);
        let xs: usize = 0;
        let xe: usize = 1280;
        let ys: usize = 0;
        let ye: usize = 720;
        let ghost start = frame@;
        assert forall|x: int, y: int, c: int|
            on_screen(x, y) && 0 <= c < 4 && !(xs <= x < xe && ys <= y < ye) implies paint_or(
                explorer_row_colour(exp.entries@, exp.selected, first as int, last as int, x0 as int, y0 as int, x1 as int, y1 as int, x, y),
                c,
                #[trigger] start[at(x, y, c)],
            ) == start[at(x, y, c)] by {}
        let mut yy: usize = ys;
        while yy < ye
            invariant
                ys <= yy <= ye,
                ye <= 720,
                xs <= xe <= 1280,
                x0 <= 1280,
                y0 <= 720,
                y1 <= 720,
                first <= last <= exp.entries@.len(),
                frame@.len() == start.len(),
                start.len() >= FRAME_LEN,
                forall|x: int, y: int, c: int|
                    on_screen(x, y) && 0 <= c < 4 ==> #[trigger] frame@[at(x, y, c)] == if ys <= y < yy {
                        paint_or(explorer_row_colour(exp.entries@, exp.selected, first as int, last as int, x0 as int, y0 as int, x1 as int, y1 as int, x, y), c, start[at(x, y, c)])
                    } else {
                        start[at(x, y, c)]
                    },
                forall|x: int, y: int, c: int|
                    on_screen(x, y) && 0 <= c < 4 && !(xs <= x < xe && ys <= y < ye) ==> paint_or(
                        explorer_row_colour(exp.entries@, exp.selected, first as int, last as int, x0 as int, y0 as int, x1 as int, y1 as int, x, y),
                        c,
                        #[trigger] start[at(x, y, c)],
                    ) == start[at(x, y, c)],
                forall|i: int| FRAME_LEN <= i < start.len() ==> #[trigger] frame@[i] == start[i],
            decreases ye - yy,
        {
            let mut xx: usize = xs;
            while xx < xe
                invariant
                    ys <= yy < ye,
                    ye <= 720,
                    xs <= xx <= xe,
                    xe <= 1280,
                x0 <= 1280,
                y0 <= 720,
                y1 <= 720,
                first <= last <= exp.entries@.len(),
                    frame@.len() == start.len(),
                    start.len() >= FRAME_LEN,
                    forall|x: int, y: int, c: int|
                        on_screen(x, y) && 0 <= c < 4 ==> #[trigger] frame@[at(x, y, c)] == if ys <= y < yy || (y
                            == yy && xs <= x < xx) {
                            paint_or(explorer_row_colour(exp.entries@, exp.selected, first as int, last as int, x0 as int, y0 as int, x1 as int, y1 as int, x, y), c, start[at(x, y, c)])
                        } else {
                            start[at(x, y, c)]
                        },
                    forall|i: int| FRAME_LEN <= i < start.len() ==> #[trigger] frame@[i] == start[i],
                decreases xe - xx,
            {
                let ghost before = frame@;
                let i = (yy * 1280 + xx) * 4;
                let colour = row_pixel(exp, first, last, x0, y0, x1, y1, xx, yy);
                proof {
                    assert(before[at(xx as int, yy as int, 0)] == start[at(xx as int, yy as int, 0)]);
                    assert(before[at(xx as int, yy as int, 1)] == start[at(xx as int, yy as int, 1)]);
                    assert(before[at(xx as int, yy as int, 2)] == start[at(xx as int, yy as int, 2)]);
                    assert(before[at(xx as int, yy as int, 3)] == start[at(xx as int, yy as int, 3)]);
                }
                match colour {
                    Some(rgb) => {
                        frame[i] = rgb.0;
                        frame[i + 1] = rgb.1;
                        frame[i + 2] = rgb.2;
                        frame[i + 3] = 255;
                    },
                    None => {},
                }
                proof {
                    assert forall|x: int, y: int, c: int| on_screen(x, y) && 0 <= c < 4 implies #[trigger] frame@[at(
                        x,
                        y,
                        c,
                    )] == if ys <= y < yy || (y == yy && xs <= x < xx + 1) {
                        paint_or(explorer_row_colour(exp.entries@, exp.selected, first as int, last as int, x0 as int, y0 as int, x1 as int, y1 as int, x, y), c, start[at(x, y, c)])
                    } else {
                        start[at(x, y, c)]
                    } by {
                        lemma_at_distinct(x, y, c, xx as int, yy as int, 0);
                        lemma_at_distinct(x, y, c, xx as int, yy as int, 1);
                        lemma_at_distinct(x, y, c, xx as int, yy as int, 2);
                        lemma_at_distinct(x, y, c, xx as int, yy as int, 3);
                        assert(before[at(x, y, c)] == if ys <= y < yy || (y == yy && xs <= x < xx) {
                            paint_or(explorer_row_colour(exp.entries@, exp.selected, first as int, last as int, x0 as int, y0 as int, x1 as int, y1 as int, x, y), c, start[at(x, y, c)])
                        } else {
                            start[at(x, y, c)]
                        });
                    }
                }
                xx = xx + 1;
            }
            yy = yy + 1;
        }
    }

    /// Draws the file browser's 20 pixel status bar at the bottom of the
    /// content area, right of the sidebar.
    pub fn draw_explorer_status(frame: &mut [u8], x0: usize, x1: usize, y1: usize)
        requires
            old(frame)@.len() >= FRAME_LEN,
            x0 <= x1 <= 1280,
            y1 <= 720,
        ensures
            repainted(
                old(frame)@,
                final(frame)@,
                |x: int, y: int, c: int, v: u8|
                    if in_rect(x, y, x0 + 141, if y1 >= 20 { y1 - 20 } else { 0 }, x1 as int, y1 as int) {
                        (if c == 0 || c == 1 { 14u8 } else if c == 2 { 22u8 } else { 255u8 })
                    } else {
                        v
                    },
            ),
    {
        let top: usize = if y1 >= 20 { y1 - 20 } else { 0 };
        fill_rect(frame, (x0 + 141) as i64, top as i64, x1 as i64, y1 as i64, (14, 14, 22));
    }
}

} // verus!
