use trimangees::desktop::{Desktop, DesktopGrid};
use trimangees::desktop_icon::DesktopIcon;
use trimangees::display::context_menu::{ContextMenu, ContextTarget};
use trimangees::display::notification::NotificationManager;
use trimangees::display::start_menu::StartMenu;
use trimangees::display::window_renderer::{ansi_256, ext_type, WindowRenderer};
use trimangees::explorer_state::FileEntry;

#[test]
fn desktop_menu_lines_and_height() {
    let mut m = ContextMenu::new();
    m.open_desktop(100, 100, 1280, 720);
    assert!(m.visible);
    assert!(m.target == ContextTarget::Desktop);
    assert_eq!(m.items.len(), 7);
    assert_eq!(m.items[0].action, "open_terminal");
    assert!(m.items[2].separator);
    assert_eq!(m.height(), 160);
    assert_eq!((m.x, m.y), (100, 100));
    assert_eq!(m.item_at(150, 110), Some(0));
    assert_eq!(m.item_at(150, 140), Some(1));
    assert_eq!(m.item_at(150, 160), None);
    assert_eq!(m.item_at(150, 165), None);
    assert_eq!(m.item_at(150, 170), Some(3));
    assert_eq!(m.item_at(400, 110), None);
    assert_eq!(m.item_y(3), 167);
    m.close();
    assert_eq!(m.item_at(150, 110), None);
}

#[test]
fn menu_stays_on_screen() {
    let mut m = ContextMenu::new();
    m.open_window(1200, 700, 9, 1280, 720);
    assert!(m.target == ContextTarget::Window(9));
    assert_eq!(m.height(), 125);
    assert_eq!((m.x, m.y), (1076, 591));
}

#[test]
fn toasts_stack_expire_and_dismiss() {
    let mut n = NotificationManager::new();
    for k in 0..5u64 {
        n.push("t", "b", k * 100);
    }
    assert_eq!(n.toasts.len(), 4);
    assert_eq!(n.toasts[0].id, 2);
    assert_eq!(n.next_id, 6);
    assert_eq!(NotificationManager::toast_pos(0, 1280, 720), (984, 596));
    assert_eq!(NotificationManager::toast_pos(1, 1280, 720), (984, 528));
    assert!(n.dismiss_at(990, 600, 1280, 720));
    assert!(n.toasts[0].dismissed);
    assert!(!n.dismiss_at(10, 10, 1280, 720));
    assert!(n.tick(1000));
    assert_eq!(n.toasts.len(), 3);
    assert!(!n.tick(2999));
    assert!(n.tick(3300));
    assert_eq!(n.toasts.len(), 1);
    assert!(n.tick(3400));
    assert!(!n.has_toasts());
}

#[test]
fn start_menu_tiles_and_power() {
    let mut s = StartMenu::new();
    assert_eq!(s.entries.len(), 8);
    assert_eq!(s.entries[7].icon_char, '\u{2699}');
    assert_eq!(s.entries[0].icon_color, [245, 180, 35]);
    assert_eq!(s.tile_at(440, 350, 720), None);
    s.toggle();
    assert_eq!(StartMenu::tile_pos(0, 258), (433, 348));
    assert_eq!(StartMenu::tile_pos(5, 258), (539, 438));
    assert_eq!(s.tile_at(440, 350, 720), Some(0));
    assert_eq!(s.tile_at(545, 440, 720), Some(5));
    assert_eq!(s.tile_at(530, 350, 720), None);
    assert_eq!(s.power_btn_at(500, 640, 720), Some(0));
    assert_eq!(s.power_btn_at(600, 640, 720), Some(1));
    assert_eq!(s.power_btn_at(590, 640, 720), None);
    s.toggle();
    assert!(s.hovered.is_none());
}

#[test]
fn renderer_helpers() {
    assert_eq!(ext_type("rs"), "Rust");
    assert_eq!(ext_type("jpeg"), "JPEG");
    assert_eq!(ext_type(""), "");
    assert_eq!(ext_type("xyz"), "File");
    assert_eq!(ansi_256(0), [12, 12, 12]);
    assert_eq!(ansi_256(16), [0, 0, 0]);
    assert_eq!(ansi_256(231), [255, 255, 255]);
    assert_eq!(ansi_256(196), [255, 0, 0]);
    assert_eq!(ansi_256(232), [8, 8, 8]);
    assert_eq!(ansi_256(255), [238, 238, 238]);
    assert!(!WindowRenderer::rr(0, 0, 10, 10, 8));
    assert!(WindowRenderer::rr(8, 8, 8, 8, 8));
    assert!(WindowRenderer::rr(2, 3, 20, 20, 8));
    let dir = FileEntry { name: "src".to_string(), is_dir: true, size: 0, ext: String::new() };
    let js = FileEntry { name: "a.ts".to_string(), is_dir: false, size: 1, ext: "ts".to_string() };
    assert_eq!(WindowRenderer::file_icon_color(&dir), (240, 180, 40));
    assert_eq!(WindowRenderer::file_icon_color(&js), (240, 200, 50));
}

#[test]
fn icons_and_grid() {
    let icon = DesktopIcon::new("File Explorer", "explorer", 40, 40);
    assert!(icon.contains(40, 88));
    assert!(!icon.contains(89, 50));
    let g = DesktopGrid::new();
    assert_eq!(g.get_position(9), (160, 160));
    let mut seen = Vec::new();
    for k in 0..50usize {
        let p = g.get_position(k);
        assert!(!seen.contains(&p));
        seen.push(p);
    }
    let mut d = Desktop::new();
    d.add_icon("Docs", "docs.png", "docs");
    d.add_icon("Web", "web.png", "browser");
    assert_eq!(d.list_icons(), vec!["Desktop Icons:", "Docs at (40, 40)", "Web at (160, 40)"]);
}

#[test]
fn menu_queries_far_right_stop_before_the_edge() {
    let mut m = ContextMenu::new();
    m.open_desktop(100, 100, 1280, 720);
    m.x = i32::MAX - 10;
    // The pointer is left of the menu: its right edge is never computed.
    assert_eq!(m.item_at(150, 110), None);
    m.close();
    assert_eq!(m.item_at(i32::MAX, 110), None);
}

#[test]
fn hidden_start_menu_has_no_tile_on_any_screen() {
    let s = StartMenu::new();
    assert_eq!(s.tile_at(440, 350, 0), None);
    assert_eq!(s.tile_at(i32::MAX, i32::MAX, 100), None);
}
