//! Everything the display server keeps about the desktop between events.
//!
//! The font, the cached wallpaper pixels and the embedded web views belong
//! to the display server's drawing and windowing side, not to this state.
use vstd::prelude::*;
use crate::application_manager::ApplicationManager;
use crate::desktop_icon::DesktopIcon;
use crate::display::context_menu::{ContextMenu, ContextTarget};
use crate::display::cursor::Cursor;
use crate::display::notification::NotificationManager;
use crate::display::start_menu::{pinned_entries, StartMenu, entry_view};
use crate::explorer_state::HostEnv;
use crate::window_manager::{new_window_ok, ResizeEdge, SnapZone, WindowManager};

verus! {

/// The desktop's state.
pub struct DesktopState {
    pub cursor: Cursor,
    pub context_menu: ContextMenu,
    pub notifications: NotificationManager,
    pub start_menu: StartMenu,
    pub window_manager: WindowManager,
    pub application_manager: ApplicationManager,
    pub desktop_icons: Vec<DesktopIcon>,
    /// The window being dragged by its title bar, and where in it the
    /// pointer holds it.
    pub dragging_window: Option<u32>,
    pub drag_offset_x: i32,
    pub drag_offset_y: i32,
    /// The last click on a title bar: when (milliseconds on the display
    /// server's clock) and on which window.
    pub last_title_click: Option<u64>,
    pub last_title_click_id: Option<u32>,
    /// The window being resized, the edge held, and the pointer and window
    /// geometry when the resize started.
    pub resizing_window: Option<u32>,
    pub resize_edge: Option<ResizeEdge>,
    pub resize_start_mx: i32,
    pub resize_start_my: i32,
    pub resize_start_wx: i32,
    pub resize_start_wy: i32,
    pub resize_start_w: u32,
    pub resize_start_h: u32,
    /// The window edge under the pointer, which shapes the pointer.
    pub hover_edge: Option<ResizeEdge>,
    /// Where a dragged window would snap if dropped now.
    pub snap_preview: Option<SnapZone>,
    /// The Alt+Tab switcher and its selection.
    pub alt_tab_visible: bool,
    pub alt_tab_index: usize,
}

impl DesktopState {
    /// The desktop at start-up: a terminal window open, one icon for the
    /// file explorer, every menu closed and nothing dragged.
    pub fn new(env: &HostEnv) -> (r: Self)
        ensures
            r.window_manager.next_id == 2,
            r.window_manager.windows@.len() == 1,
            new_window_ok(r.window_manager.windows@[0], 1, "Terminal"@, "terminal"@, 700, 400, 0, env),
            r.desktop_icons@.len() == 1,
            r.desktop_icons@[0].name@ == "File Explorer"@,
            r.desktop_icons@[0].app_name@ == "explorer"@,
            r.desktop_icons@[0].x == 40 && r.desktop_icons@[0].y == 40,
            !r.desktop_icons@[0].selected && r.desktop_icons@[0].last_click is None,
            r.cursor.x == 100 && r.cursor.y == 100,
            !r.context_menu.visible && r.context_menu.items@.len() == 0,
            r.context_menu.hovered is None && r.context_menu.target == ContextTarget::Desktop,
            r.context_menu.x == 0 && r.context_menu.y == 0,
            r.notifications.toasts@.len() == 0 && r.notifications.next_id == 1,
            !r.start_menu.visible && r.start_menu.hovered is None && r.start_menu.power_hovered is None,
            r.start_menu.search_query@.len() == 0,
            r.start_menu.entries@.map_values(|e| entry_view(e)) == pinned_entries(),
            r.application_manager@.len() == 0,
            r.dragging_window is None && r.drag_offset_x == 0 && r.drag_offset_y == 0,
            r.last_title_click is None && r.last_title_click_id is None,
            r.resizing_window is None && r.resize_edge is None,
            r.resize_start_mx == 0 && r.resize_start_my == 0,
            r.resize_start_wx == 0 && r.resize_start_wy == 0,
            r.resize_start_w == 0 && r.resize_start_h == 0,
            r.hover_edge is None && r.snap_preview is None,
            !r.alt_tab_visible && r.alt_tab_index == 0,
    {
        let mut window_manager = WindowManager::new();
        window_manager.create_window(
            crate::text::owned("Terminal"),
            crate::text::owned("terminal"),
            700,
            400,
            env,
        );
        let mut desktop_icons: Vec<DesktopIcon> = Vec::new();
        desktop_icons.push(DesktopIcon::new("File Explorer", "explorer", 40, 40));
        DesktopState {
            cursor: Cursor::new(),
            context_menu: ContextMenu::new(),
            notifications: NotificationManager::new(),
            start_menu: StartMenu::new(),
            window_manager,
            application_manager: ApplicationManager::new(),
            desktop_icons,
            dragging_window: None,
            drag_offset_x: 0,
            drag_offset_y: 0,
            last_title_click: None,
            last_title_click_id: None,
            resizing_window: None,
            resize_edge: None,
            resize_start_mx: 0,
            resize_start_my: 0,
            resize_start_wx: 0,
            resize_start_wy: 0,
            resize_start_w: 0,
            resize_start_h: 0,
            hover_edge: None,
            snap_preview: None,
            alt_tab_visible: false,
            alt_tab_index: 0,
        }
    }
}

} // verus!
