use trimangees::explorer_state::{DirItem, HostEnv};
use trimangees::window_manager::{ResizeEdge, SnapZone, WindowManager};

fn env() -> HostEnv {
    HostEnv {
        home: "/home/ada".to_string(),
        home_listing: Some(vec![
            DirItem { name: "notes.TXT".to_string(), is_dir: false, size: 12 },
            DirItem { name: ".hidden".to_string(), is_dir: true, size: 0 },
            DirItem { name: "Music".to_string(), is_dir: true, size: 0 },
            DirItem { name: "Desktop".to_string(), is_dir: true, size: 0 },
        ]),
        hostname_file: Some("  box\n".to_string()),
        home_var: Some("/home/ada".to_string()),
    }
}

fn manager_with_two() -> WindowManager {
    let mut wm = WindowManager::new();
    wm.create_window("Terminal".to_string(), "terminal".to_string(), 720, 420, &env());
    wm.create_window("File Explorer".to_string(), "explorer".to_string(), 820, 540, &env());
    wm
}

#[test]
fn windows_cascade_and_get_fresh_ids() {
    let wm = manager_with_two();
    assert_eq!(wm.next_id, 3);
    assert_eq!((wm.windows[0].id, wm.windows[0].x, wm.windows[0].y), (1, 120, 80));
    assert_eq!((wm.windows[1].id, wm.windows[1].x, wm.windows[1].y), (2, 148, 108));
    assert_eq!(wm.list_windows(), vec!["Terminal (1) at (120,80)", "File Explorer (2) at (148,108)"]);
    assert_eq!(wm.windows[0].output_lines[0], "Trimangees OS Terminal v1.0");
}

#[test]
fn explorer_window_lists_home() {
    let wm = manager_with_two();
    let e = wm.windows[1].explorer.as_ref().unwrap();
    assert_eq!(e.current_path, "/home/ada");
    let names: Vec<&str> = e.entries.iter().map(|f| f.name.as_str()).collect();
    assert_eq!(names, vec!["Desktop", "Music", "notes.TXT"]);
    assert_eq!(e.entries[2].ext, "txt");
    assert!(wm.windows[0].explorer.is_none());
}

#[test]
fn closing_removes_only_that_window() {
    let mut wm = manager_with_two();
    wm.close_window(1);
    assert_eq!(wm.windows.len(), 1);
    assert_eq!(wm.windows[0].id, 2);
    wm.close_window(42);
    assert_eq!(wm.windows.len(), 1);
}

#[test]
fn maximize_then_restore() {
    let mut wm = manager_with_two();
    wm.toggle_maximize(1);
    let w = &wm.windows[0];
    assert_eq!((w.x, w.y, w.width, w.height, w.maximized), (0, 0, 1280, 682, true));
    wm.toggle_maximize(1);
    let w = &wm.windows[0];
    assert_eq!((w.x, w.y, w.width, w.height, w.maximized), (120, 80, 720, 420, false));
}

#[test]
fn raise_and_minimize_move_focus() {
    let mut wm = manager_with_two();
    wm.bring_to_front(1);
    assert_eq!(wm.windows[1].id, 1);
    assert!(wm.windows[1].active && !wm.windows[0].active);
    assert_eq!(wm.focused_id(), Some(1));
    wm.minimize_window(1);
    assert!(wm.windows[1].minimized);
    assert!(wm.windows[0].active);
    wm.restore_window(1);
    assert!(!wm.windows[1].minimized && wm.windows[1].active);
}

#[test]
fn snap_zones() {
    assert_eq!(SnapZone::detect(500, 3), Some(SnapZone::Maximize));
    assert_eq!(SnapZone::detect(3, 100), Some(SnapZone::TopLeft));
    assert_eq!(SnapZone::detect(3, 500), Some(SnapZone::BottomLeft));
    assert_eq!(SnapZone::detect(1270, 100), Some(SnapZone::TopRight));
    assert_eq!(SnapZone::detect(600, 300), None);
    assert_eq!(SnapZone::BottomRight.geometry(), (640, 341, 640, 341));
    let mut wm = manager_with_two();
    wm.snap_window(2, SnapZone::Left);
    let w = &wm.windows[1];
    assert_eq!((w.x, w.y, w.width, w.height), (0, 0, 640, 682));
    assert_eq!((w.old_x, w.old_y), (148, 108));
}

#[test]
fn pointer_queries() {
    let wm = manager_with_two();
    assert_eq!(wm.window_at(500, 120), Some(2));
    assert_eq!(wm.window_at(130, 90), Some(1));
    assert_eq!(wm.window_body_at(130, 400), Some(1));
    assert_eq!(wm.window_at(10, 10), None);
    assert!(wm.resize_edge_window_at(968, 300).is_some());
}

fn switcher_px(frame: &[u8], x: usize, y: usize) -> [u8; 4] {
    let i = (y * 1280 + x) * 4;
    [frame[i], frame[i + 1], frame[i + 2], frame[i + 3]]
}

#[test]
fn switcher_shows_visible_windows_and_frames_the_chosen() {
    let mut wm = WindowManager::new();
    wm.create_window("A".to_string(), "terminal".to_string(), 400, 300, &env());
    wm.create_window("B".to_string(), "terminal".to_string(), 400, 300, &env());
    wm.create_window("C".to_string(), "terminal".to_string(), 400, 300, &env());
    let id = wm.windows[1].id;
    wm.minimize_window(id);
    let mut f = vec![0u8; trimangees::display::frame::FRAME_LEN];
    trimangees::display::desktop_renderer::DesktopRenderer::draw_switcher(&mut f, &wm.windows, 3);
    // Two thumbnails in a panel 338 wide from x = 471.
    assert_eq!(switcher_px(&f, 500, 350), [14, 14, 22, 255]);
    assert_eq!(switcher_px(&f, 700, 350), [14, 14, 22, 255]);
    // 3 % 2 = 1: the second is framed.
    assert_eq!(switcher_px(&f, 643, 350), [42, 108, 218, 255]);
    assert_eq!(switcher_px(&f, 700, 302), [42, 108, 218, 255]);
    assert_eq!(switcher_px(&f, 484, 302), [14, 14, 24, 255]);
    // Glass between the thumbnails, the top line, a rounded corner.
    assert_eq!(switcher_px(&f, 640, 350), [14, 14, 24, 255]);
    assert_eq!(switcher_px(&f, 500, 288), [62, 62, 100, 255]);
    assert_eq!(switcher_px(&f, 471, 431), [0, 0, 0, 0]);
    assert_eq!(switcher_px(&f, 470, 350), [0, 0, 0, 0]);
}

#[test]
fn switcher_draws_nothing_when_all_are_minimised() {
    let mut wm = WindowManager::new();
    wm.create_window("A".to_string(), "terminal".to_string(), 400, 300, &env());
    let id = wm.windows[0].id;
    wm.minimize_window(id);
    let mut f = vec![0u8; trimangees::display::frame::FRAME_LEN];
    trimangees::display::desktop_renderer::DesktopRenderer::draw_switcher(&mut f, &wm.windows, 0);
    assert!(f.iter().all(|b| *b == 0));
}

#[test]
fn title_bar_paints_rows_inside_the_rounded_window() {
    let mut wm = WindowManager::new();
    wm.create_window("A".to_string(), "terminal".to_string(), 400, 300, &env());
    let w = &mut wm.windows[0];
    w.x = 100;
    w.y = 100;
    w.width = 400;
    w.height = 300;
    let shades: Vec<(u8, u8, u8)> = (0..32u8).map(|i| (i, 2 * i, 3 * i)).collect();
    let mut f = vec![7u8; trimangees::display::frame::FRAME_LEN];
    trimangees::display::window_renderer::WindowRenderer::draw_title_bar(&mut f, &wm.windows[0], &shades);
    assert_eq!(switcher_px(&f, 300, 100), [0, 0, 0, 255]);
    assert_eq!(switcher_px(&f, 300, 110), [10, 20, 30, 255]);
    assert_eq!(switcher_px(&f, 300, 131), [31, 62, 93, 255]);
    assert_eq!(switcher_px(&f, 300, 132), [7, 7, 7, 7]);
    assert_eq!(switcher_px(&f, 100, 100), [7, 7, 7, 7]);
    assert_eq!(switcher_px(&f, 499, 110), [10, 20, 30, 255]);
    assert_eq!(switcher_px(&f, 500, 110), [7, 7, 7, 7]);
}

#[test]
fn switcher_titles_top_each_thumbnail() {
    let mut wm = WindowManager::new();
    wm.create_window("A".to_string(), "terminal".to_string(), 400, 300, &env());
    wm.create_window("B".to_string(), "terminal".to_string(), 400, 300, &env());
    let shades: Vec<(u8, u8, u8)> = (0..18u8).map(|i| (i, 0, 0)).collect();
    let mut f = vec![0u8; trimangees::display::frame::FRAME_LEN];
    trimangees::display::desktop_renderer::DesktopRenderer::draw_switcher_titles(&mut f, &wm.windows, &shades);
    assert_eq!(switcher_px(&f, 500, 304), [0, 0, 0, 255]);
    assert_eq!(switcher_px(&f, 700, 321), [17, 0, 0, 255]);
    assert_eq!(switcher_px(&f, 500, 322), [0, 0, 0, 0]);
    assert_eq!(switcher_px(&f, 640, 310), [0, 0, 0, 0]);
}

#[test]
fn window_operations_keep_ids_unique() {
    let mut wm = WindowManager::new();
    wm.create_window("A".to_string(), "terminal".to_string(), 400, 300, &env());
    wm.create_window("B".to_string(), "terminal".to_string(), 400, 300, &env());
    wm.create_window("C".to_string(), "terminal".to_string(), 400, 300, &env());
    wm.close_window(2);
    wm.bring_to_front(1);
    wm.minimize_window(3);
    wm.restore_window(3);
    wm.toggle_maximize(1);
    wm.snap_window(3, SnapZone::Left);
    wm.create_window("D".to_string(), "terminal".to_string(), 400, 300, &env());
    let mut ids: Vec<u32> = wm.windows.iter().map(|w| w.id).collect();
    assert_eq!(ids.len(), 3);
    assert!(ids.iter().all(|i| *i < wm.next_id));
    ids.sort();
    ids.dedup();
    assert_eq!(ids, vec![1, 3, 4]);
}

#[test]
fn listing_puts_folders_first_each_sorted() {
    let mut e = trimangees::explorer_state::ExplorerState::new(&env());
    let items = vec![
        DirItem { name: "b.txt".to_string(), is_dir: false, size: 1 },
        DirItem { name: "z".to_string(), is_dir: true, size: 0 },
        DirItem { name: ".h".to_string(), is_dir: false, size: 1 },
        DirItem { name: "C".to_string(), is_dir: false, size: 1 },
        DirItem { name: "a".to_string(), is_dir: true, size: 0 },
    ];
    e.refresh(&Some(items));
    let names: Vec<&str> = e.entries.iter().map(|x| x.name.as_str()).collect();
    assert_eq!(names, vec!["a", "z", "C", "b.txt"]);
}

#[test]
fn edge_scan_stops_at_the_topmost_hit() {
    let mut wm = manager_with_two();
    // The lower window's right edge cannot be computed; the scan never
    // reaches it because the upper window is hit first.
    wm.windows[0].x = i32::MAX - 3;
    assert!(matches!(wm.resize_edge_window_at(968, 300), Some((2, ResizeEdge::Right))));
    assert!(matches!(wm.resize_edge_window_at(148, 108), Some((2, ResizeEdge::TopLeft))));
}
