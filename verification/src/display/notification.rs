//! Toast notifications, stacked upward from the bottom-right corner.
//!
//! Time is a count of milliseconds on the display server's clock, handed in by
//! the caller: a toast records when it was pushed, and `tick` is told the
//! current time.
use vstd::prelude::*;
use crate::geometry::{cast_usize_i32, usize_as_i32, wrap_i32, lemma_wrap_i32_small};
use crate::text::owned;
use crate::window_manager::lemma_remove_insert;

verus! {

pub const TOAST_W: usize = 280;
pub const TOAST_H: usize = 60;
/// Distance from the right edge of the screen.
pub const TOAST_PAD_X: usize = 16;
/// Distance from the bottom of the screen (above the taskbar).
pub const TOAST_PAD_Y: usize = 64;
/// Gap between stacked toasts.
pub const TOAST_GAP: usize = 8;
/// Seconds before a toast goes away by itself.
pub const TOAST_LIFETIME: u64 = 3;
/// Most toasts shown at once.
pub const MAX_TOASTS: usize = 4;

/// One notification.
pub struct Toast {
    pub id: u32,
    pub title: String,
    pub body: String,
    /// When it was pushed, in milliseconds on the display server's clock.
    pub created: u64,
    pub dismissed: bool,
}

/// The notifications on screen, oldest first.
pub struct NotificationManager {
    pub toasts: Vec<Toast>,
    /// The id the next toast gets.
    pub next_id: u32,
}

/// Milliseconds from `created` to `now`; zero when `now` is earlier.
pub open spec fn elapsed_ms(created: u64, now: u64) -> int {
    if now >= created { now - created } else { 0 }
}

/// A toast stays while it is not dismissed and younger than its lifetime
/// (in whole seconds, as a clock that truncates to seconds reads it).
pub open spec fn toast_live(t: Toast, now: u64) -> bool {
    !t.dismissed && elapsed_ms(t.created, now) / 1000 < TOAST_LIFETIME as int
}

/// The toasts that stay at time `now`, in order.
pub open spec fn live_toasts(ts: Seq<Toast>, now: u64) -> Seq<Toast> {
    ts.filter(|t: Toast| toast_live(t, now))
}

/// Left edge of a toast on a screen `sw` wide.
pub open spec fn toast_x(sw: int) -> int {
    sw - TOAST_W - TOAST_PAD_X
}

/// Top edge of the toast at stack index `i` on a screen `sh` high.
pub open spec fn toast_y(i: int, sh: int) -> int {
    sh - TOAST_PAD_Y - TOAST_H - i * (TOAST_H + TOAST_GAP)
}

/// Whether `(mx, my)` falls on the toast at stack index `i`, its edges
/// taken as `i32`, as the hit test casts them.
pub open spec fn toast_hit(i: int, mx: int, my: int, sw: int, sh: int) -> bool {
    let tx = wrap_i32(toast_x(sw));
    let ty = wrap_i32(toast_y(i, sh));
    &&& tx <= mx <= tx + TOAST_W
    &&& ty <= my <= ty + TOAST_H
}

/// Testing toast `i` against `(mx, my)` stays within bounds: its edges are
/// worked out without going below zero, and each `i32` sum that the test
/// reaches fits.
pub open spec fn scan_fits(i: int, mx: int, my: int, sw: int, sh: int) -> bool {
    let tx = wrap_i32(toast_x(sw));
    let ty = wrap_i32(toast_y(i, sh));
    &&& toast_x(sw) >= 0
    &&& toast_y(i, sh) >= 0
    &&& mx >= tx ==> tx + TOAST_W <= i32::MAX
    &&& mx >= tx && mx <= tx + TOAST_W && my >= ty ==> ty + TOAST_H <= i32::MAX
}

/// On the 1280 x 720 screen, testing a toast whose top is on the screen
/// stays within bounds.
pub proof fn lemma_screen_scan_fits(i: int, mx: int, my: int)
    requires
        toast_y(i, 720) >= 0,
        i >= 0,
    ensures
        scan_fits(i, mx, my, 1280, 720),
{
    lemma_wrap_i32_small(toast_x(1280));
    lemma_wrap_i32_small(toast_y(i, 720));
}

/// No toast before index `i` is under `(mx, my)`.
pub open spec fn no_hit_before(i: int, mx: int, my: int, sw: int, sh: int) -> bool {
    forall|j: int| 0 <= j < i ==> !#[trigger] toast_hit(j, mx, my, sw, sh)
}

/// The first toast of `n` under `(mx, my)`, if any.
pub open spec fn first_hit(n: int, mx: int, my: int, sw: int, sh: int) -> Option<int> {
    if exists|i: int| 0 <= i < n && #[trigger] toast_hit(i, mx, my, sw, sh) {
        Some(
            choose|i: int|
                0 <= i < n && #[trigger] toast_hit(i, mx, my, sw, sh) && no_hit_before(
                    i,
                    mx,
                    my,
                    sw,
                    sh,
                ),
        )
    } else {
        None
    }
}

/// The same toast, dismissed.
pub open spec fn dismissed(t: Toast) -> Toast {
    Toast { dismissed: true, ..t }
}

/// A toast's fields as plain values, but for its time.
pub open spec fn toast_view(t: Toast) -> (u32, Seq<char>, Seq<char>, bool) {
    (t.id, t.title@, t.body@, t.dismissed)
}

/// The first index at which `p` holds, of those below `n`, exists when any does.
proof fn lemma_first_hit(n: int, mx: int, my: int, sw: int, sh: int, i: int)
    requires
        0 <= i < n,
        toast_hit(i, mx, my, sw, sh),
    ensures
        exists|k: int|
            0 <= k < n && #[trigger] toast_hit(k, mx, my, sw, sh) && no_hit_before(
                k,
                mx,
                my,
                sw,
                sh,
            ),
    decreases i,
{
    if no_hit_before(i, mx, my, sw, sh) {
    } else {
        let j = choose|j: int| 0 <= j < i && #[trigger] toast_hit(j, mx, my, sw, sh);
        lemma_first_hit(n, mx, my, sw, sh, j);
    }
}

impl NotificationManager {
    /// No toasts; the first gets id 1.
    pub fn new() -> (r: Self)
        ensures
            r.toasts@.len() == 0,
            r.next_id == 1,
    {
        NotificationManager { toasts: Vec::new(), next_id: 1 }
    }

    /// Pushes a new toast at time `now`. When four are shown already, the
    /// oldest is dropped first.
    pub fn push(&mut self, title: &str, body: &str, now: u64)
        requires
            old(self).next_id < u32::MAX,
        ensures
            final(self).next_id == old(self).next_id + 1,
            final(self).toasts@ == (if old(self).toasts@.len() >= MAX_TOASTS {
                old(self).toasts@.drop_first()
            } else {
                old(self).toasts@
            }).push(final(self).toasts@.last()),
            toast_view(final(self).toasts@.last()) == (old(self).next_id, title@, body@, false),
            final(self).toasts@.last().created == now,
    {
        if self.toasts.len() >= MAX_TOASTS {
            self.toasts.remove(0);
        }
        let t = Toast {
            id: self.next_id,
            title: owned(title),
            body: owned(body),
            created: now,
            dismissed: false,
        };
        self.toasts.push(t);
        self.next_id = self.next_id + 1;
    }

    /// Drops the toasts that are dismissed or have outlived their lifetime at
    /// time `now`. Returns whether any was dropped.
    pub fn tick(&mut self, now: u64) -> (changed: bool)
        ensures
            final(self).toasts@ == live_toasts(old(self).toasts@, now),
            changed == (final(self).toasts@.len() != old(self).toasts@.len()),
            final(self).next_id == old(self).next_id,
    {
        let ghost p = |t: Toast| toast_live(t, now);
        let ghost ws = self.toasts@;
        let before = self.toasts.len();
        let mut rest: Vec<Toast> = Vec::new();
        std::mem::swap(&mut rest, &mut self.toasts);
        let ghost mut k: int = 0;
        assert(ws.take(0).filter(p) =~= Seq::<Toast>::empty());
        while rest.len() > 0
            invariant
                0 <= k <= ws.len(),
                k + rest@.len() == ws.len(),
                ws.len() == before,
                p == (|t: Toast| toast_live(t, now)),
                rest@ == ws.skip(k),
                self.toasts@ == ws.take(k).filter(p),
                self.next_id == old(self).next_id,
            decreases rest@.len(),
        {
            let ghost old_rest = rest@;
            let t = rest.remove(0);
            proof {
                assert(rest@ =~= ws.skip(k + 1));
                let s1 = ws.take(k + 1);
                reveal_with_fuel(Seq::filter, 1);
                assert(s1.drop_last() =~= ws.take(k));
                assert(s1.last() == t);
            }
            let elapsed: u64 = if now >= t.created { now - t.created } else { 0 };
            if !t.dismissed && elapsed / 1000 < TOAST_LIFETIME {
                self.toasts.push(t);
            }
            proof {
                k = k + 1;
            }
        }
        assert(ws.take(k) =~= ws);
        self.toasts.len() != before
    }

    /// Dismisses the first toast under `(mx, my)` on a `screen_w` x
    /// `screen_h` screen. Returns whether one was hit.
    pub fn dismiss_at(&mut self, mx: i32, my: i32, screen_w: usize, screen_h: usize) -> (hit: bool)
        requires
            forall|i: int|
                0 <= i < old(self).toasts@.len() && no_hit_before(
                    i,
                    mx as int,
                    my as int,
                    screen_w as int,
                    screen_h as int,
                ) ==> scan_fits(i, mx as int, my as int, screen_w as int, screen_h as int),
        ensures
            hit == first_hit(old(self).toasts@.len() as int, mx as int, my as int, screen_w as int, screen_h as int) is Some,
            !hit ==> *final(self) == *old(self),
            final(self).next_id == old(self).next_id,
            final(self).toasts@ == match first_hit(
                old(self).toasts@.len() as int,
                mx as int,
                my as int,
                screen_w as int,
                screen_h as int,
            ) {
                Some(k) => old(self).toasts@.update(k, dismissed(old(self).toasts@[k])),
                None => old(self).toasts@,
            },
    {
        let ghost n = self.toasts@.len() as int;
        let ghost (mi, myi, swi, shi) = (mx as int, my as int, screen_w as int, screen_h as int);
        let mut i: usize = 0;
        while i < self.toasts.len()
            invariant
                i <= self.toasts@.len(),
                *self == *old(self),
                self.next_id == old(self).next_id,
                n == self.toasts@.len(),
                mi == mx as int && myi == my as int && swi == screen_w as int && shi == screen_h as int,
                forall|j: int|
                    0 <= j < n && no_hit_before(j, mi, myi, swi, shi) ==> scan_fits(j, mi, myi, swi, shi),
                no_hit_before(i as int, mi, myi, swi, shi),
            decreases self.toasts@.len() - i,
        {
            proof {
                assert(scan_fits(i as int, mi, myi, swi, shi));
                assert(toast_y(i as int, shi) >= 0);
                assert(i * 68 <= screen_h) by (nonlinear_arith)
                    requires
                        screen_h - 124 - i * 68 >= 0,
                ;
            }
            let (tx, ty) = Self::toast_pos(i, screen_w, screen_h);
            proof {
                assert(tx == wrap_i32(toast_x(swi)));
                assert(ty == wrap_i32(toast_y(i as int, shi)));
            }
            if mx >= tx && mx <= tx + TOAST_W as i32 && my >= ty && my <= ty + TOAST_H as i32 {
                proof {
                    assert(toast_hit(i as int, mi, myi, swi, shi));
                    lemma_first_hit(n, mi, myi, swi, shi, i as int);
                    let c = choose|c: int|
                        0 <= c < n && #[trigger] toast_hit(c, mi, myi, swi, shi) && no_hit_before(
                            c,
                            mi,
                            myi,
                            swi,
                            shi,
                        );
                    if c < i {
                        assert(!toast_hit(c, mi, myi, swi, shi));
                    }
                    if c > i {
                        assert(!toast_hit(i as int, mi, myi, swi, shi));
                    }
                }
                let ghost before = self.toasts@;
                let mut t = self.toasts.remove(i);
                t.dismissed = true;
                self.toasts.insert(i, t);
                proof {
                    lemma_remove_insert(before, i as int, t);
                    assert(t == dismissed(before[i as int]));
                }
                return true;
            }
            i = i + 1;
        }
        false
    }

    /// Screen position of the toast at stack index `i`, on a `screen_w` x
    /// `screen_h` screen: bottom-right, stacked upward.
    pub fn toast_pos(i: usize, screen_w: usize, screen_h: usize) -> (r: (i32, i32))
        requires
            screen_w >= TOAST_W + TOAST_PAD_X,
            screen_h >= TOAST_PAD_Y + TOAST_H + i * (TOAST_H + TOAST_GAP),
        ensures
            r.0 as int == usize_as_i32((screen_w - TOAST_W - TOAST_PAD_X) as usize),
            r.1 as int == usize_as_i32((screen_h - TOAST_PAD_Y - TOAST_H - i * (TOAST_H + TOAST_GAP)) as usize),
            r.0 as int == wrap_i32(toast_x(screen_w as int)),
            r.1 as int == wrap_i32(toast_y(i as int, screen_h as int)),
    {
        let x = cast_usize_i32(screen_w - TOAST_W - TOAST_PAD_X);
        let y = cast_usize_i32(screen_h - TOAST_PAD_Y - TOAST_H - i * (TOAST_H + TOAST_GAP));
        (x, y)
    }

    /// Whether any toast is shown.
    pub fn has_toasts(&self) -> (r: bool)
        ensures
            r == (self.toasts@.len() > 0),
    {
        self.toasts.len() > 0
    }
}

} // verus!

verus! {

/// Pushing never lets more than four toasts show: with at most four before,
/// there are at most four after.
pub proof fn lemma_push_keeps_at_most_four(before: Seq<Toast>, after: Seq<Toast>, t: Toast)
    requires
        before.len() <= MAX_TOASTS,
        after == (if before.len() >= MAX_TOASTS { before.drop_first() } else { before }).push(t),
    ensures
        after.len() <= MAX_TOASTS,
        after.last() == t,
{
}

/// Stacked toasts do not overlap: the toast above starts at least a gap
/// above where the one below ends.
pub proof fn lemma_toasts_do_not_overlap(i: int, sh: int)
    requires
        i >= 0,
    ensures
        toast_y(i + 1, sh) + TOAST_H + TOAST_GAP == toast_y(i, sh),
{
}

/// Expiring toasts only drops toasts, keeping the order of the rest, and
/// every toast kept is live.
pub proof fn lemma_tick_keeps_live(ts: Seq<Toast>, now: u64)
    ensures
        live_toasts(ts, now).len() <= ts.len(),
        forall|k: int| 0 <= k < live_toasts(ts, now).len() ==> toast_live(#[trigger] live_toasts(ts, now)[k], now),
{
    let p = |t: Toast| toast_live(t, now);
    ts.lemma_filter_len(p);
    assert forall|k: int| 0 <= k < live_toasts(ts, now).len() implies toast_live(#[trigger] live_toasts(ts, now)[k], now) by {
        broadcast use vstd::seq_lib::group_filter_ensures;
    }
}

} // verus!
