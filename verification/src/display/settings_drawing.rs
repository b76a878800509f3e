//! The settings window's drawing that needs neither the font nor floating
//! point: the sidebar with the active section's highlight, the accent
//! colour swatches with a ring round the chosen one, the dark-mode toggle,
//! the wallpaper preset swatches and the frame round the chosen one. The
//! display server draws the labels and works out the swatches' gradient
//! colours in floating point.
use vstd::prelude::*;
use crate::display::frame::{at, on_screen, repainted, FRAME_LEN, lemma_at_distinct};
use crate::display::icon_renderer::paint_or;
use crate::display::start_menu_drawing::on_edge;
use crate::display::window_renderer::WindowRenderer;
use crate::explorer_state::SettingsState;
use crate::geometry::{cast_usize_i32, fits_i32, wrap_i32};
use crate::config::{u64_of, parse_u64_in};
use crate::text::{append, chars_of, decimal_digits, first_index, lemma_first_index, u64_to_string};

verus! {

/// The `k`-th accent colour offered, left to right.
pub open spec fn accent_colour(k: int) -> (u8, u8, u8) {
    if k == 0 {
        (72u8, 138u8, 240u8)
    } else if k == 1 {
        (60u8, 200u8, 80u8)
    } else if k == 2 {
        (220u8, 100u8, 60u8)
    } else if k == 3 {
        (180u8, 80u8, 220u8)
    } else if k == 4 {
        (240u8, 180u8, 40u8)
    } else {
        (220u8, 60u8, 100u8)
    }
}

/// The squared distance from `(x, y)` to `(cx, cy)`.
pub open spec fn sq_dist(x: int, y: int, cx: int, cy: int) -> int {
    (x - cx) * (x - cx) + (y - cy) * (y - cy)
}

/// Whether `(x, y)` lies in the square of half-width `r` round `(cx, cy)`.
pub open spec fn near(x: int, y: int, cx: int, cy: int, r: int) -> bool {
    cx - r <= x <= cx + r && cy - r <= y <= cy + r
}

/// The centre of accent disc `k` across the screen: `176 + 16 + 36 k` right
/// of the content's left edge, as a cast to `i32` gives it.
pub open spec fn accent_centre_x(x0: int, k: int) -> int {
    wrap_i32(x0 + 192 + 36 * k)
}

/// The accent discs' centre down the screen: `16 + 142` below the
/// content's top, as a cast to `i32` gives it.
pub open spec fn accent_centre_y(y0: int) -> int {
    wrap_i32(y0 + 158)
}

/// The dark-mode toggle's knob's centre: at the toggle's right end when
/// the dark mode is on, at its left end when it is off, as casts to `i32`
/// give it.
pub open spec fn knob_centre(s: SettingsState, x0: int, y0: int) -> (int, int) {
    (wrap_i32(x0 + if s.dark_mode { 321int } else { 304int }), wrap_i32(y0 + 54))
}

/// Whether `(x, y)` lies on the round shape at `(cx, cy)` whose squared
/// distances run from `lo` to `hi`, within `h` of the centre each way, and
/// left of `x1` and above `y1`.
pub open spec fn round_hit(x: int, y: int, cx: int, cy: int, h: int, lo: int, hi: int, x1: int, y1: int) -> bool {
    near(x, y, cx, cy, h) && lo <= sq_dist(x, y, cx, cy) <= hi && x < x1 && y < y1
}

/// The colour the first `k` accent discs give `(x, y)`, if any, each drawn
/// after the one before: disc `j` of radius 12 in accent colour `j`, then,
/// when that is the chosen accent colour, a white ring from radius 13 to 14.
pub open spec fn accent_layers(s: SettingsState, x0: int, y0: int, x1: int, y1: int, k: int, x: int, y: int) -> Option<
    (u8, u8, u8),
>
    decreases k,
{
    if k <= 0 {
        None
    } else {
        let cx = accent_centre_x(x0, k - 1);
        let cy = accent_centre_y(y0);
        if accent_colour(k - 1) == (s.accent_r, s.accent_g, s.accent_b) && round_hit(x, y, cx, cy, 14, 169, 196, x1, y1) {
            Some((255u8, 255u8, 255u8))
        } else if round_hit(x, y, cx, cy, 12, 0, 144, x1, y1) {
            Some(accent_colour(k - 1))
        } else {
            accent_layers(s, x0, y0, x1, y1, k - 1, x, y)
        }
    }
}

/// The colour the settings page's font-free parts give pixel `(x, y)` of a
/// content area from `(x0, y0)` to `(x1, y1)`, if any, each part over the
/// ones drawn before it. A 160 pixel sidebar with a divider on its right
/// (kept on the screen); the active section (one of three, 36 pixels apart
/// from 12 below the top) lit, with a bar on its left; on the display
/// section the six accent discs; on the personalisation section a 44 x 22
/// toggle and a knob of radius 8 on it.
pub open spec fn settings_colour(
    s: SettingsState,
    x0: int,
    y0: int,
    x1: int,
    y1: int,
    x: int,
    y: int,
) -> Option<(u8, u8, u8)> {
    let i = s.active_section as int;
    let cx0 = x0 + 176;
    let cy0 = y0 + 16;
    let kc = knob_centre(s, x0, y0);
    let sy = y0 + 12 + i * 36;
    if i == 0 && accent_layers(s, x0, y0, x1, y1, 6, x, y) is Some {
        accent_layers(s, x0, y0, x1, y1, 6, x, y)
    } else if i == 1 && round_hit(x, y, kc.0, kc.1, 8, 0, 64, x1, y1) {
        Some((240u8, 242u8, 255u8))
    } else if i == 1 && cx0 + 120 <= x < cx0 + 164 && cy0 + 28 <= y < cy0 + 50 && y < y1 {
        Some(if s.dark_mode { (32u8, 105u8, 220u8) } else { (60u8, 62u8, 90u8) })
    } else if i < 3 && (x == x0 + 2 || x == x0 + 3) && sy <= y < sy + 28 && y < y1 {
        Some((72u8, 138u8, 240u8))
    } else if i < 3 && x0 + 4 <= x < x0 + 156 && sy <= y < sy + 28 && y < y1 {
        Some((28u8, 32u8, 58u8))
    } else if x == (if x0 + 160 < 1279 { x0 + 160 } else { 1279 }) && y0 <= y < y1 {
        Some((35u8, 38u8, 62u8))
    } else if x0 <= x < x0 + 160 && x < x1 && y0 <= y < y1 {
        Some((14u8, 14u8, 22u8))
    } else {
        None
    }
}

/// Accent disc `k`, and its ring when it is the chosen colour, can be
/// drawn with `i32` pixel offsets.
pub open spec fn accent_fits(s: SettingsState, x0: int, y0: int, k: int) -> bool {
    let r = if accent_colour(k) == (s.accent_r, s.accent_g, s.accent_b) { 14int } else { 12int };
    &&& fits_i32(accent_centre_x(x0, k) - r)
    &&& fits_i32(accent_centre_x(x0, k) + r)
    &&& fits_i32(accent_centre_y(y0) - r)
    &&& fits_i32(accent_centre_y(y0) + r)
}

/// The settings page's drawing stays within bounds for a content area
/// from `(x0, y0)`: the sums it works out fit in `usize`, and on the
/// display section the accent discs' (and the chosen one's ring's) pixel
/// offsets, on the personalisation section the knob's, fit in `i32`.
pub open spec fn settings_fits(s: SettingsState, x0: int, y0: int) -> bool {
    let i = s.active_section as int;
    let ay = accent_centre_y(y0);
    let kc = knob_centre(s, x0, y0);
    &&& x0 + 176 <= usize::MAX
    &&& y0 + 16 <= usize::MAX
    &&& i < 3 ==> y0 + 12 + i * 36 + 28 <= usize::MAX
    &&& i == 0 ==> {
        &&& x0 + 372 <= usize::MAX
        &&& y0 + 158 <= usize::MAX
        &&& forall|k: int| 0 <= k < 6 ==> #[trigger] accent_fits(s, x0, y0, k)
    }
    &&& i == 1 ==> {
        &&& x0 + 340 <= usize::MAX
        &&& y0 + 66 <= usize::MAX
        &&& fits_i32(kc.0 - 8) && fits_i32(kc.0 + 8)
        &&& fits_i32(kc.1 - 8) && fits_i32(kc.1 + 8)
    }
}

/// The colour of the frame round wallpaper preset `preset` (one of four
/// 48 x 36 swatches, 56 pixels apart, 66 below the content's top) at
/// `(x, y)`, if any.
pub open spec fn swatch_frame_colour(x0: int, y0: int, preset: int, x: int, y: int) -> Option<(u8, u8, u8)> {
    let sx = x0 + 176 + preset * 56;
    let sy = y0 + 66;
    if preset < 4 && sx <= x < sx + 48 && sy <= y < sy + 36 && on_edge(x - sx, y - sy, 48, 36) {
        Some((72u8, 138u8, 240u8))
    } else {
        None
    }
}

/// `accent_colour`, computed.
fn accent_colour_now(k: usize) -> (r: (u8, u8, u8))
    requires
        k < 6,
    ensures
        r == accent_colour(k as int),
{
    if k == 0 {
        (72, 138, 240)
    } else if k == 1 {
        (60, 200, 80)
    } else if k == 2 {
        (220, 100, 60)
    } else if k == 3 {
        (180, 80, 220)
    } else if k == 4 {
        (240, 180, 40)
    } else {
        (220, 60, 100)
    }
}

/// `dx * dx + dy * dy` for offsets of at most 14.
fn sq_now(dx: i64, dy: i64) -> (r: i64)
    requires
        -14 <= dx <= 14,
        -14 <= dy <= 14,
    ensures
        r == dx * dx + dy * dy,
{
    assert(0 <= dx * dx <= 196 && 0 <= dy * dy <= 196) by (nonlinear_arith)
        requires
            -14 <= dx <= 14,
            -14 <= dy <= 14,
    ;
    dx * dx + dy * dy
}

/// Whether `(x, y)` lies on a round shape: see [`round_hit`].
fn round_hit_now(x: usize, y: usize, cx: i64, cy: i64, h: i64, lo: i64, hi: i64, x1: usize, y1: usize) -> (r: bool)
    requires
        x < 1280,
        y < 720,
        0 <= h <= 14,
        -0x1_0000_0000 <= cx <= 0x1_0000_0000,
        -0x1_0000_0000 <= cy <= 0x1_0000_0000,
    ensures
        r == round_hit(x as int, y as int, cx as int, cy as int, h as int, lo as int, hi as int, x1 as int, y1 as int),
{
    let dx = x as i64 - cx;
    let dy = y as i64 - cy;
    if -h <= dx && dx <= h && -h <= dy && dy <= h && x < x1 && y < y1 {
        let d2 = sq_now(dx, dy);
        lo <= d2 && d2 <= hi
    } else {
        false
    }
}

/// `wrap_i32` of a `usize`, computed.
fn wrap_now(v: usize) -> (r: i64)
    ensures
        r as int == wrap_i32(v as int),
        -0x8000_0000 <= r < 0x8000_0000,
{
    cast_usize_i32(v) as i64
}

/// `accent_layers`, computed.
fn accent_pixel(s: &SettingsState, x0: usize, y0: usize, x1: usize, y1: usize, x: usize, y: usize) -> (r: Option<
    (u8, u8, u8),
>)
    requires
        x0 + 372 <= usize::MAX,
        y0 + 158 <= usize::MAX,
        x < 1280,
        y < 720,
    ensures
        r == accent_layers(*s, x0 as int, y0 as int, x1 as int, y1 as int, 6, x as int, y as int),
{
    let cy = wrap_now(y0 + 158);
    let mut k: usize = 6;
    while k > 0
        invariant
            k <= 6,
            x0 + 372 <= usize::MAX,
            cy as int == accent_centre_y(y0 as int),
            x < 1280,
            y < 720,
            accent_layers(*s, x0 as int, y0 as int, x1 as int, y1 as int, 6, x as int, y as int) == accent_layers(
                *s,
                x0 as int,
                y0 as int,
                x1 as int,
                y1 as int,
                k as int,
                x as int,
                y as int,
            ),
        decreases k,
    {
        let cx = wrap_now(x0 + 192 + 36 * (k - 1));
        let col = accent_colour_now(k - 1);
        let chosen = col.0 == s.accent_r && col.1 == s.accent_g && col.2 == s.accent_b;
        if chosen && round_hit_now(x, y, cx, cy, 14, 169, 196, x1, y1) {
            return Some((255, 255, 255));
        }
        if round_hit_now(x, y, cx, cy, 12, 0, 144, x1, y1) {
            return Some(col);
        }
        k = k - 1;
    }
    None
}

/// `settings_colour`, computed.
fn settings_pixel(s: &SettingsState, x0: usize, y0: usize, x1: usize, y1: usize, x: usize, y: usize) -> (r: Option<
    (u8, u8, u8),
>)
    requires
        settings_fits(*s, x0 as int, y0 as int),
        x < 1280,
        y < 720,
    ensures
        r == settings_colour(*s, x0 as int, y0 as int, x1 as int, y1 as int, x as int, y as int),
{
    let i = s.active_section;
    if i == 0 {
        let a = accent_pixel(s, x0, y0, x1, y1, x, y);
        if a.is_some() {
            return a;
        }
    }
    let cx0 = x0 + 176;
    let cy0 = y0 + 16;
    if i == 1 {
        let kx = wrap_now(if s.dark_mode { x0 + 321 } else { x0 + 304 });
        let ky = wrap_now(y0 + 54);
        if round_hit_now(x, y, kx, ky, 8, 0, 64, x1, y1) {
            return Some((240, 242, 255));
        }
        if cx0 + 120 <= x && x < cx0 + 164 && cy0 + 28 <= y && y < cy0 + 50 && y < y1 {
            return Some(if s.dark_mode { (32, 105, 220) } else { (60, 62, 90) });
        }
    }
    if i < 3 {
        let sy = y0 + 12 + i * 36;
        if (x == x0 + 2 || x == x0 + 3) && sy <= y && y < sy + 28 && y < y1 {
            return Some((72, 138, 240));
        }
        if x0 + 4 <= x && x < x0 + 156 && sy <= y && y < sy + 28 && y < y1 {
            return Some((28, 32, 58));
        }
    }
    let sep: usize = if x0 + 160 < 1279 { x0 + 160 } else { 1279 };
    if x == sep && y0 <= y && y < y1 {
        return Some((35, 38, 62));
    }
    if x0 <= x && x < x0 + 160 && x < x1 && y0 <= y && y < y1 {
        return Some((14, 14, 22));
    }
    None
}

/// The colour wallpaper preset swatch `k` in column colours `shades` (left
/// column first) gives `(x, y)`, if any: 48 x 36 at 176 + 56 `k` right of
/// the content's left edge and 66 below its top, clipped to the content
/// area's right and bottom edges.
pub open spec fn swatch_colour(
    x0: int,
    y0: int,
    x1: int,
    y1: int,
    k: int,
    shades: Seq<(u8, u8, u8)>,
    x: int,
    y: int,
) -> Option<(u8, u8, u8)> {
    let sx = x0 + 176 + k * 56;
    let sy = y0 + 66;
    if sx <= x < sx + 48 && x < x1 && sy <= y < sy + 36 && y < y1 {
        Some(shades[x - sx])
    } else {
        None
    }
}

/// `swatch_colour`, computed.
fn swatch_pixel(x0: usize, y0: usize, x1: usize, y1: usize, k: usize, shades: &Vec<(u8, u8, u8)>, x: usize, y: usize) -> (r: Option<
    (u8, u8, u8),
>)
    requires
        x0 + 176 + 56 * k + 48 <= usize::MAX,
        y0 + 102 <= usize::MAX,
        k < 4,
        shades@.len() == 48,
    ensures
        r == swatch_colour(x0 as int, y0 as int, x1 as int, y1 as int, k as int, shades@, x as int, y as int),
{
    let sx = x0 + 176 + k * 56;
    let sy = y0 + 66;
    if sx <= x && x < sx + 48 && x < x1 && sy <= y && y < sy + 36 && y < y1 {
        Some(shades[x - sx])
    } else {
        None
    }
}

/// The About section's uptime line for the text of the system's uptime
/// file: the whole seconds before the first `.`, read as a `u64`, as hours,
/// minutes and seconds; none when they are not a number.
pub open spec fn uptime_line(text: Seq<char>) -> Option<Seq<char>> {
    match u64_of(text.take(first_index(text, '.'))) {
        Some(secs) => Some(
            decimal_digits((secs / 3600) as nat) + "h "@ + decimal_digits(((secs % 3600) / 60) as nat) + "m "@
                + decimal_digits((secs % 60) as nat) + "s"@,
        ),
        None => None,
    }
}

impl WindowRenderer {
    /// The About section's uptime line: see [`uptime_line`].
    pub fn uptime_text(text: &str) -> (r: Option<String>)
        ensures
            match r {
                Some(line) => uptime_line(text@) == Some(line@),
                None => uptime_line(text@) is None,
            },
    {
        let cs = chars_of(text);
        let mut k: usize = 0;
        while k < cs.len() && cs[k] != '.'
            invariant
                k <= cs@.len(),
                cs@ == text@,
                forall|m: int| 0 <= m < k ==> cs@[m] != '.',
            decreases cs@.len() - k,
        {
            k = k + 1;
        }
        proof {
            lemma_first_index(text@, '.', k as int);
            assert(cs@.subrange(0, k as int) =~= text@.take(k as int));
        }
        match parse_u64_in(&cs, 0, k) {
            Some(secs) => {
                let mut line = u64_to_string(secs / 3600);
                append(&mut line, "h ");
                let m = u64_to_string((secs % 3600) / 60);
                append(&mut line, m.as_str());
                append(&mut line, "m ");
                let sec = u64_to_string(secs % 60);
                append(&mut line, sec.as_str());
                append(&mut line, "s");
                Some(line)
            },
            None => None,
        }
    }

    /// Whether the settings page can be drawn from `(x0, y0)` without
    /// going out of bounds: see [`settings_fits`].
    pub fn settings_fit_now(s: &SettingsState, x0: usize, y0: usize) -> (r: bool)
        ensures
            r == settings_fits(*s, x0 as int, y0 as int),
    {
        let max = usize::MAX as u128;
        let (x, y) = (x0 as u128, y0 as u128);
        let i = s.active_section;
        if x + 176 > max || y + 16 > max {
            return false;
        }
        if i < 3 && y + 12 + (i as u128) * 36 + 28 > max {
            return false;
        }
        if i == 0 {
            if x + 372 > max || y + 158 > max {
                return false;
            }
            let ay = wrap_now(y0 + 158);
            let mut k: usize = 0;
            while k < 6
                invariant
                    k <= 6,
                    x0 + 372 <= usize::MAX,
                    ay as int == accent_centre_y(y0 as int),
                    -0x8000_0000 <= ay < 0x8000_0000,
                    s.active_section == 0,
                    y0 + 158 <= usize::MAX,
                    y0 + 16 <= usize::MAX,
                    x0 + 176 <= usize::MAX,
                    forall|j: int| 0 <= j < k ==> #[trigger] accent_fits(*s, x0 as int, y0 as int, j),
                decreases 6 - k,
            {
                let col = accent_colour_now(k);
                let r: i64 = if col.0 == s.accent_r && col.1 == s.accent_g && col.2 == s.accent_b { 14 } else { 12 };
                let ax = wrap_now(x0 + 192 + 36 * k);
                if ax - r < -0x8000_0000 || ax + r > 0x7fff_ffff || ay - r < -0x8000_0000 || ay + r > 0x7fff_ffff {
                    proof {
                        let kk = k as int;
                        assert(!fits_i32(accent_centre_x(x0 as int, kk) - r) || !fits_i32(accent_centre_x(x0 as int, kk)
                            + r) || !fits_i32(ay - r) || !fits_i32(ay + r));
                        assert(0 <= kk < 6);
                        assert(r == (if accent_colour(kk) == (s.accent_r, s.accent_g, s.accent_b) {
                            14int
                        } else {
                            12int
                        }));
                        assert(!accent_fits(*s, x0 as int, y0 as int, kk));
                        assert(!settings_fits(*s, x0 as int, y0 as int));
                    }
                    return false;
                }
                k = k + 1;
            }
            assert(settings_fits(*s, x0 as int, y0 as int) == (i == 1 ==> {
                &&& x0 + 340 <= usize::MAX
                &&& y0 + 66 <= usize::MAX
                &&& fits_i32(knob_centre(*s, x0 as int, y0 as int).0 - 8) && fits_i32(knob_centre(*s, x0 as int, y0 as int).0 + 8)
                &&& fits_i32(knob_centre(*s, x0 as int, y0 as int).1 - 8) && fits_i32(knob_centre(*s, x0 as int, y0 as int).1 + 8)
            }));
        }
        if i == 1 {
            if x + 340 > max || y + 66 > max {
                return false;
            }
            let kx = wrap_now(if s.dark_mode { x0 + 321 } else { x0 + 304 });
            let ky = wrap_now(y0 + 54);
            if kx - 8 < -0x8000_0000 || kx + 8 > 0x7fff_ffff || ky - 8 < -0x8000_0000 || ky + 8 > 0x7fff_ffff {
                return false;
            }
        }
        true
    }

    /// Draws the settings page's sidebar, section highlight, accent discs
    /// and dark-mode toggle into the content area from `(x0, y0)` to
    /// `(x1, y1)`: see [`settings_colour`]. Only pixels of the screen are
    /// written.
    pub fn draw_settings_panels(frame: &mut [u8], x0: usize, y0: usize, x1: usize, y1: usize, s: &SettingsState)
        requires
            old(frame)@.len() >= FRAME_LEN,
            settings_fits(*s, x0 as int, y0 as int),
        ensures
            repainted(
                old(frame)@,
                final(frame)@,
                |x: int, y: int, c: int, v: u8|
                    paint_or(settings_colour(*s, x0 as int, y0 as int, x1 as int, y1 as int, x, y), c, v),
            ),
    {
        let ghost start = frame@;
        assert forall|x: int, y: int, c: int|
            on_screen(x, y) && 0 <= c < 4 && !(0 <= x < 1280 && 0 <= y < 720) implies paint_or(
                settings_colour(*s, x0 as int, y0 as int, x1 as int, y1 as int, x, y),
                c,
                #[trigger] start[at(x, y, c)],
            ) == start[at(x, y, c)] by {}
        let mut yy: usize = 0;
        while yy < 720
            invariant
                0 <= yy <= 720,
                720 <= 720,
                0 <= 1280 <= 1280,
                settings_fits(*s, x0 as int, y0 as int),
                frame@.len() == start.len(),
                start.len() >= FRAME_LEN,
                forall|x: int, y: int, c: int|
                    on_screen(x, y) && 0 <= c < 4 ==> #[trigger] frame@[at(x, y, c)] == if 0 <= y < yy {
                        paint_or(settings_colour(*s, x0 as int, y0 as int, x1 as int, y1 as int, x, y), c, start[at(x, y, c)])
                    } else {
                        start[at(x, y, c)]
                    },
                forall|x: int, y: int, c: int|
                    on_screen(x, y) && 0 <= c < 4 && !(0 <= x < 1280 && 0 <= y < 720) ==> paint_or(
                        settings_colour(*s, x0 as int, y0 as int, x1 as int, y1 as int, x, y),
                        c,
                        #[trigger] start[at(x, y, c)],
                    ) == start[at(x, y, c)],
                forall|i: int| FRAME_LEN <= i < start.len() ==> #[trigger] frame@[i] == start[i],
            decreases 720 - yy,
        {
            let mut xx: usize = 0;
            while xx < 1280
                invariant
                    0 <= yy < 720,
                    720 <= 720,
                    0 <= xx <= 1280,
                    1280 <= 1280,
                settings_fits(*s, x0 as int, y0 as int),
                    frame@.len() == start.len(),
                    start.len() >= FRAME_LEN,
                    forall|x: int, y: int, c: int|
                        on_screen(x, y) && 0 <= c < 4 ==> #[trigger] frame@[at(x, y, c)] == if 0 <= y < yy || (y
                            == yy && 0 <= x < xx) {
                            paint_or(settings_colour(*s, x0 as int, y0 as int, x1 as int, y1 as int, x, y), c, start[at(x, y, c)])
                        } else {
                            start[at(x, y, c)]
                        },
                    forall|i: int| FRAME_LEN <= i < start.len() ==> #[trigger] frame@[i] == start[i],
                decreases 1280 - xx,
            {
                let ghost before = frame@;
                let i = (yy * 1280 + xx) * 4;
                let colour = settings_pixel(s, x0, y0, x1, y1, xx, yy);
                proof {
                    assert(before[at(xx as int, yy as int, 0)] == start[at(xx as int, yy as int, 0)]);
                    assert(before[at(xx as int, yy as int, 1)] == start[at(xx as int, yy as int, 1)]);
                    assert(before[at(xx as int, yy as int, 2)] == start[at(xx as int, yy as int, 2)]);
                    assert(before[at(xx as int, yy as int, 3)] == start[at(xx as int, yy as int, 3)]);
                }
                match colour {
                    Some(rgb) => {
                        frame[i] = rgb.0;
                        frame[i + 1] = rgb.1;
                        frame[i + 2] = rgb.2;
                        frame[i + 3] = 255;
                    },
                    None => {},
                }
                proof {
                    assert forall|x: int, y: int, c: int| on_screen(x, y) && 0 <= c < 4 implies #[trigger] frame@[at(
                        x,
                        y,
                        c,
                    )] == if 0 <= y < yy || (y == yy && 0 <= x < xx + 1) {
                        paint_or(settings_colour(*s, x0 as int, y0 as int, x1 as int, y1 as int, x, y), c, start[at(x, y, c)])
                    } else {
                        start[at(x, y, c)]
                    } by {
                        lemma_at_distinct(x, y, c, xx as int, yy as int, 0);
                        lemma_at_distinct(x, y, c, xx as int, yy as int, 1);
                        lemma_at_distinct(x, y, c, xx as int, yy as int, 2);
                        lemma_at_distinct(x, y, c, xx as int, yy as int, 3);
                        assert(before[at(x, y, c)] == if 0 <= y < yy || (y == yy && 0 <= x < xx) {
                            paint_or(settings_colour(*s, x0 as int, y0 as int, x1 as int, y1 as int, x, y), c, start[at(x, y, c)])
                        } else {
                            start[at(x, y, c)]
                        });
                    }
                }
                xx = xx + 1;
            }
            yy = yy + 1;
        }
    }

    /// Draws wallpaper preset swatch `k` of the display section in the
    /// column colours `shades`: see [`swatch_colour`]. The display server
    /// works the colours out as a gradient.
    pub fn draw_swatch(
        frame: &mut [u8],
        x0: usize,
        y0: usize,
        x1: usize,
        y1: usize,
        k: usize,
        shades: &Vec<(u8, u8, u8)>,
    )
        requires
            old(frame)@.len() >= FRAME_LEN,
            x0 + 176 + 56 * k + 48 <= usize::MAX,
            y0 + 102 <= usize::MAX,
            k < 4,
            shades@.len() == 48,
        ensures
            repainted(
                old(frame)@,
                final(frame)@,
                |x: int, y: int, c: int, v: u8|
                    paint_or(swatch_colour(x0 as int, y0 as int, x1 as int, y1 as int, k as int, shades@, x, y), c, v),
            ),
    {
        let sx: usize = x0 + 176 + k * 56;
        let sy: usize = y0 + 66;
        let xs: usize = if sx < 1280 { sx } else { 1280 };
        let xe: usize = if sx + 48 < 1280 { sx + 48 } else { 1280 };
        let ys: usize = if sy < 720 { sy } else { 720 };
        let ye: usize = if sy + 36 < 720 { sy + 36 } else { 720 };
        let ghost start = frame@;
        assert forall|x: int, y: int, c: int|
            on_screen(x, y) && 0 <= c < 4 && !(xs <= x < xe && ys <= y < ye) implies paint_or(
                swatch_colour(x0 as int, y0 as int, x1 as int, y1 as int, k as int, shades@, x, y),
                c,
                #[trigger] start[at(x, y, c)],
            ) == start[at(x, y, c)] by {}
        let mut yy: usize = ys;
        while yy < ye
            invariant
                ys <= yy <= ye,
                ye <= 720,
                xs <= xe <= 1280,
                x0 + 176 + 56 * k + 48 <= usize::MAX,
                y0 + 102 <= usize::MAX,
                k < 4,
                shades@.len() == 48,
                frame@.len() == start.len(),
                start.len() >= FRAME_LEN,
                forall|x: int, y: int, c: int|
                    on_screen(x, y) && 0 <= c < 4 ==> #[trigger] frame@[at(x, y, c)] == if ys <= y < yy {
                        paint_or(swatch_colour(x0 as int, y0 as int, x1 as int, y1 as int, k as int, shades@, x, y), c, start[at(x, y, c)])
                    } else {
                        start[at(x, y, c)]
                    },
                forall|x: int, y: int, c: int|
                    on_screen(x, y) && 0 <= c < 4 && !(xs <= x < xe && ys <= y < ye) ==> paint_or(
                        swatch_colour(x0 as int, y0 as int, x1 as int, y1 as int, k as int, shades@, x, y),
                        c,
                        #[trigger] start[at(x, y, c)],
                    ) == start[at(x, y, c)],
                forall|i: int| FRAME_LEN <= i < start.len() ==> #[trigger] frame@[i] == start[i],
            decreases ye - yy,
        {
            let mut xx: usize = xs;
            while xx < xe
                invariant
                    ys <= yy < ye,
                    ye <= 720,
                    xs <= xx <= xe,
                    xe <= 1280,
                x0 + 176 + 56 * k + 48 <= usize::MAX,
                y0 + 102 <= usize::MAX,
                k < 4,
                shades@.len() == 48,
                    frame@.len() == start.len(),
                    start.len() >= FRAME_LEN,
                    forall|x: int, y: int, c: int|
                        on_screen(x, y) && 0 <= c < 4 ==> #[trigger] frame@[at(x, y, c)] == if ys <= y < yy || (y
                            == yy && xs <= x < xx) {
                            paint_or(swatch_colour(x0 as int, y0 as int, x1 as int, y1 as int, k as int, shades@, x, y), c, start[at(x, y, c)])
                        } else {
                            start[at(x, y, c)]
                        },
                    forall|i: int| FRAME_LEN <= i < start.len() ==> #[trigger] frame@[i] == start[i],
                decreases xe - xx,
            {
                let ghost before = frame@;
                let i = (yy * 1280 + xx) * 4;
                let colour = swatch_pixel(x0, y0, x1, y1, k, shades, xx, yy);
                proof {
                    assert(before[at(xx as int, yy as int, 0)] == start[at(xx as int, yy as int, 0)]);
                    assert(before[at(xx as int, yy as int, 1)] == start[at(xx as int, yy as int, 1)]);
                    assert(before[at(xx as int, yy as int, 2)] == start[at(xx as int, yy as int, 2)]);
                    assert(before[at(xx as int, yy as int, 3)] == start[at(xx as int, yy as int, 3)]);
                }
                match colour {
                    Some(rgb) => {
                        frame[i] = rgb.0;
                        frame[i + 1] = rgb.1;
                        frame[i + 2] = rgb.2;
                        frame[i + 3] = 255;
                    },
                    None => {},
                }
                proof {
                    assert forall|x: int, y: int, c: int| on_screen(x, y) && 0 <= c < 4 implies #[trigger] frame@[at(
                        x,
                        y,
                        c,
                    )] == if ys <= y < yy || (y == yy && xs <= x < xx + 1) {
                        paint_or(swatch_colour(x0 as int, y0 as int, x1 as int, y1 as int, k as int, shades@, x, y), c, start[at(x, y, c)])
                    } else {
                        start[at(x, y, c)]
                    } by {
                        lemma_at_distinct(x, y, c, xx as int, yy as int, 0);
                        lemma_at_distinct(x, y, c, xx as int, yy as int, 1);
                        lemma_at_distinct(x, y, c, xx as int, yy as int, 2);
                        lemma_at_distinct(x, y, c, xx as int, yy as int, 3);
                        assert(before[at(x, y, c)] == if ys <= y < yy || (y == yy && xs <= x < xx) {
                            paint_or(swatch_colour(x0 as int, y0 as int, x1 as int, y1 as int, k as int, shades@, x, y), c, start[at(x, y, c)])
                        } else {
                            start[at(x, y, c)]
                        });
                    }
                }
                xx = xx + 1;
            }
            yy = yy + 1;
        }
    }

    /// Draws the frame round wallpaper preset `preset` of the display
    /// section whose content area starts at `(x0, y0)`: see
    /// [`swatch_frame_colour`]. The frame is clipped to the screen only.
    pub fn draw_swatch_frame(frame: &mut [u8], x0: usize, y0: usize, preset: u8)
        requires
            old(frame)@.len() >= FRAME_LEN,
            preset < 4 ==> x0 + 176 + 56 * preset + 48 <= usize::MAX,
            preset < 4 ==> y0 + 102 <= usize::MAX,
        ensures
            repainted(
                old(frame)@,
                final(frame)@,
                |x: int, y: int, c: int, v: u8| paint_or(swatch_frame_colour(x0 as int, y0 as int, preset as int, x, y), c, v),
            ),
    {
        if preset >= 4 {
            return ;
        }
        let p: usize = preset as usize;
        let sx: usize = x0 + 176 + p * 56;
        let sy: usize = y0 + 66;
        let xs: usize = if preset >= 4 || sx > 1280 { 1280 } else { sx };
        let xe: usize = if preset >= 4 || sx + 48 > 1280 { 1280 } else { sx + 48 };
        let ys: usize = if sy > 720 { 720 } else { sy };
        let ye: usize = if sy + 36 > 720 { 720 } else { sy + 36 };
        let ghost start = frame@;
        assert forall|x: int, y: int, c: int|
            on_screen(x, y) && 0 <= c < 4 && !(xs <= x < xe && ys <= y < ye) implies paint_or(
                swatch_frame_colour(x0 as int, y0 as int, preset as int, x, y),
                c,
                #[trigger] start[at(x, y, c)],
            ) == start[at(x, y, c)] by {}
        let mut yy: usize = ys;
        while yy < ye
            invariant
                ys <= yy <= ye,
                ye <= 720,
                xs <= xe <= 1280,
                preset < 4 ==> x0 + 176 + 56 * preset + 48 <= usize::MAX,
                preset < 4 ==> y0 + 102 <= usize::MAX,
                frame@.len() == start.len(),
                start.len() >= FRAME_LEN,
                forall|x: int, y: int, c: int|
                    on_screen(x, y) && 0 <= c < 4 ==> #[trigger] frame@[at(x, y, c)] == if ys <= y < yy {
                        paint_or(swatch_frame_colour(x0 as int, y0 as int, preset as int, x, y), c, start[at(x, y, c)])
                    } else {
                        start[at(x, y, c)]
                    },
                forall|x: int, y: int, c: int|
                    on_screen(x, y) && 0 <= c < 4 && !(xs <= x < xe && ys <= y < ye) ==> paint_or(
                        swatch_frame_colour(x0 as int, y0 as int, preset as int, x, y),
                        c,
                        #[trigger] start[at(x, y, c)],
                    ) == start[at(x, y, c)],
                forall|i: int| FRAME_LEN <= i < start.len() ==> #[trigger] frame@[i] == start[i],
            decreases ye - yy,
        {
            let mut xx: usize = xs;
            while xx < xe
                invariant
                    ys <= yy < ye,
                    ye <= 720,
                    xs <= xx <= xe,
                    xe <= 1280,
                    preset < 4 ==> x0 + 176 + 56 * preset + 48 <= usize::MAX,
                    preset < 4 ==> y0 + 102 <= usize::MAX,
                    frame@.len() == start.len(),
                    start.len() >= FRAME_LEN,
                    forall|x: int, y: int, c: int|
                        on_screen(x, y) && 0 <= c < 4 ==> #[trigger] frame@[at(x, y, c)] == if ys <= y < yy || (y
                            == yy && xs <= x < xx) {
                            paint_or(swatch_frame_colour(x0 as int, y0 as int, preset as int, x, y), c, start[at(x, y, c)])
                        } else {
                            start[at(x, y, c)]
                        },
                    forall|i: int| FRAME_LEN <= i < start.len() ==> #[trigger] frame@[i] == start[i],
                decreases xe - xx,
            {
                let ghost before = frame@;
                let i = (yy * 1280 + xx) * 4;
                let colour = swatch_frame_pixel(x0, y0, preset, xx, yy);
                proof {
                    assert(before[at(xx as int, yy as int, 0)] == start[at(xx as int, yy as int, 0)]);
                    assert(before[at(xx as int, yy as int, 1)] == start[at(xx as int, yy as int, 1)]);
                    assert(before[at(xx as int, yy as int, 2)] == start[at(xx as int, yy as int, 2)]);
                    assert(before[at(xx as int, yy as int, 3)] == start[at(xx as int, yy as int, 3)]);
                }
                match colour {
                    Some(rgb) => {
                        frame[i] = rgb.0;
                        frame[i + 1] = rgb.1;
                        frame[i + 2] = rgb.2;
                        frame[i + 3] = 255;
                    },
                    None => {},
                }
                proof {
                    assert forall|x: int, y: int, c: int| on_screen(x, y) && 0 <= c < 4 implies #[trigger] frame@[at(
                        x,
                        y,
                        c,
                    )] == if ys <= y < yy || (y == yy && xs <= x < xx + 1) {
                        paint_or(swatch_frame_colour(x0 as int, y0 as int, preset as int, x, y), c, start[at(x, y, c)])
                    } else {
                        start[at(x, y, c)]
                    } by {
                        lemma_at_distinct(x, y, c, xx as int, yy as int, 0);
                        lemma_at_distinct(x, y, c, xx as int, yy as int, 1);
                        lemma_at_distinct(x, y, c, xx as int, yy as int, 2);
                        lemma_at_distinct(x, y, c, xx as int, yy as int, 3);
                        assert(before[at(x, y, c)] == if ys <= y < yy || (y == yy && xs <= x < xx) {
                            paint_or(swatch_frame_colour(x0 as int, y0 as int, preset as int, x, y), c, start[at(x, y, c)])
                        } else {
                            start[at(x, y, c)]
                        });
                    }
                }
                xx = xx + 1;
            }
            yy = yy + 1;
        }
    }
}

/// `swatch_frame_colour`, computed.
fn swatch_frame_pixel(x0: usize, y0: usize, preset: u8, x: usize, y: usize) -> (r: Option<(u8, u8, u8)>)
    requires
        preset < 4 ==> x0 + 176 + 56 * preset + 48 <= usize::MAX,
        preset < 4 ==> y0 + 102 <= usize::MAX,
    ensures
        r == swatch_frame_colour(x0 as int, y0 as int, preset as int, x as int, y as int),
{
    if preset >= 4 {
        return None;
    }
    let sx = x0 + 176 + preset as usize * 56;
    let sy = y0 + 66;
    if sx <= x && x < sx + 48 && sy <= y && y < sy + 36 && (x == sx || y == sy || x == sx + 47 || y == sy + 35) {
        Some((72, 138, 240))
    } else {
        None
    }
}

} // verus!
