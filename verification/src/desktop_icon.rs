//! A clickable icon on the desktop.
use vstd::prelude::*;
use crate::text::owned;

verus! {

/// Side of an icon's square, in pixels.
pub const ICON_SIZE: i32 = 48;

/// An icon the display server draws and hit-tests.
pub struct DesktopIcon {
    pub x: i32,
    pub y: i32,
    pub selected: bool,
    pub name: String,
    pub app_name: String,
    /// When it was last clicked, in milliseconds on the display server's
    /// clock.
    pub last_click: Option<u64>,
}

/// Whether `(mx, my)` lies on the icon whose top-left corner is `(x, y)`,
/// edges included.
pub open spec fn icon_contains(x: int, y: int, mx: int, my: int) -> bool {
    x <= mx <= x + ICON_SIZE && y <= my <= y + ICON_SIZE
}

impl DesktopIcon {
    /// An unselected, never clicked icon at `(x, y)`.
    pub fn new(name: &str, app_name: &str, x: i32, y: i32) -> (r: Self)
        ensures
            r.name@ == name@,
            r.app_name@ == app_name@,
            r.x == x,
            r.y == y,
            !r.selected,
            r.last_click is None,
    {
        DesktopIcon {
            name: owned(name),
            app_name: owned(app_name),
            x,
            y,
            selected: false,
            last_click: None,
        }
    }

    /// Whether `(mx, my)` lies on the icon.
    pub fn contains(&self, mx: i32, my: i32) -> (r: bool)
        requires
            mx >= self.x ==> self.x + ICON_SIZE <= i32::MAX,
            mx >= self.x && mx <= self.x + ICON_SIZE && my >= self.y ==> self.y + ICON_SIZE <= i32::MAX,
        ensures
            r == icon_contains(self.x as int, self.y as int, mx as int, my as int),
    {
        mx >= self.x && mx <= self.x + ICON_SIZE && my >= self.y && my <= self.y + ICON_SIZE
    }
}

} // verus!
