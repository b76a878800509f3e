use trimangees::display::terminal_input::{prompt_command, terminal_line_colour, visible_lines};
use trimangees::desktop_icon::DesktopIcon;
use trimangees::display::desktop_renderer::DesktopRenderer;
use trimangees::display::frame::{fill_rect, FRAME_LEN};
use trimangees::display::start_menu::StartMenu;
use trimangees::display::icon_renderer::IconRenderer;
use trimangees::display::window_renderer::{parse_ansi, WindowRenderer};
use trimangees::explorer_state::{ExplorerState, FileEntry, SettingsState};
use trimangees::window_manager::{ResizeEdge, SnapZone};

fn px(frame: &[u8], x: usize, y: usize) -> [u8; 4] {
    let i = (y * 1280 + x) * 4;
    [frame[i], frame[i + 1], frame[i + 2], frame[i + 3]]
}

#[test]
fn fill_rect_clips_to_screen() {
    let mut f = vec![0u8; FRAME_LEN + 8];
    fill_rect(&mut f, -5, 715, 3, 800, (1, 2, 3));
    assert_eq!(px(&f, 0, 719), [1, 2, 3, 255]);
    assert_eq!(px(&f, 2, 715), [1, 2, 3, 255]);
    assert_eq!(px(&f, 3, 715), [0, 0, 0, 0]);
    assert_eq!(px(&f, 0, 714), [0, 0, 0, 0]);
    assert_eq!(&f[FRAME_LEN..], &[0u8; 8]);
}

#[test]
fn icons_draw_tab_body_and_highlight() {
    let mut f = vec![0u8; FRAME_LEN];
    let mut a = DesktopIcon::new("Docs", "Docs", 10, 20);
    a.selected = true;
    let b = DesktopIcon::new("Web", "Browser", 200, 20);
    IconRenderer::draw(&mut f, &[a, b]);
    assert_eq!(px(&f, 10, 20), [255, 225, 80, 255]);
    assert_eq!(px(&f, 29, 29), [255, 225, 80, 255]);
    assert_eq!(px(&f, 30, 30), [245, 210, 40, 255]);
    assert_eq!(px(&f, 57, 67), [245, 210, 40, 255]);
    assert_eq!(px(&f, 6, 16), [40, 120, 255, 255]);
    assert_eq!(px(&f, 61, 71), [40, 120, 255, 255]);
    assert_eq!(px(&f, 62, 72), [0, 0, 0, 0]);
    assert_eq!(px(&f, 196, 16), [0, 0, 0, 0]);
    assert_eq!(px(&f, 200, 20), [255, 225, 80, 255]);
}

#[test]
fn later_icon_paints_over_earlier() {
    let mut f = vec![0u8; FRAME_LEN];
    let a = DesktopIcon::new("A", "A", 0, 0);
    let b = DesktopIcon::new("B", "B", 20, 0);
    IconRenderer::draw(&mut f, &[a, b]);
    assert_eq!(px(&f, 25, 5), [255, 225, 80, 255]);
    assert_eq!(px(&f, 25, 30), [245, 210, 40, 255]);
}

#[test]
fn icon_label_is_centred() {
    assert_eq!(IconRenderer::label_origin(100, 50, 20), (114, 103));
    assert_eq!(IconRenderer::label_origin(100, 50, 88), (80, 103));
    assert_eq!(IconRenderer::label_origin(5, 0, 100), (0, 53));
}

#[test]
fn taskbar_separator_and_dimmed_panel() {
    let mut f = vec![255u8; FRAME_LEN];
    for i in (700 * 1280 * 4)..(701 * 1280 * 4) {
        f[i] = 0;
    }
    DesktopRenderer::draw_taskbar(&mut f);
    assert_eq!(px(&f, 5, 682), [42, 42, 65, 255]);
    assert_eq!(px(&f, 5, 683), [32, 32, 37, 255]);
    assert_eq!(px(&f, 5, 700), [7, 7, 12, 255]);
    assert_eq!(px(&f, 5, 681), [255, 255, 255, 255]);
}

#[test]
fn dot_ignores_pixels_off_screen() {
    let mut f = vec![0u8; FRAME_LEN];
    DesktopRenderer::dot(&mut f, -1, 3, (9, 9, 9));
    DesktopRenderer::dot(&mut f, 1280, 3, (9, 9, 9));
    assert!(f.iter().all(|&b| b == 0));
    DesktopRenderer::dot(&mut f, 1279, 719, (9, 8, 7));
    assert_eq!(px(&f, 1279, 719), [9, 8, 7, 255]);
}

#[test]
fn pointer_shapes() {
    let mut f = vec![0u8; FRAME_LEN];
    DesktopRenderer::draw_cursor(&mut f, 100, 100, None);
    assert_eq!(px(&f, 100, 100), [255, 255, 255, 255]);
    assert_eq!(px(&f, 105, 106), [0, 0, 0, 255]);
    assert_eq!(px(&f, 113, 100), [0, 0, 0, 0]);
    assert_eq!(px(&f, 99, 100), [0, 0, 0, 0]);
    let mut g = vec![0u8; FRAME_LEN];
    DesktopRenderer::draw_cursor(&mut g, 100, 100, Some(ResizeEdge::Left));
    assert_eq!(px(&g, 93, 100), [255, 255, 255, 255]);
    assert_eq!(px(&g, 97, 104), [255, 255, 255, 255]);
    assert_eq!(px(&g, 94, 103), [0, 0, 0, 0]);
    assert_eq!(px(&g, 100, 101), [0, 0, 0, 0]);
    let mut h = vec![0u8; FRAME_LEN];
    DesktopRenderer::draw_cursor(&mut h, 100, 100, Some(ResizeEdge::TopRight));
    assert_eq!(px(&h, 105, 95), [255, 255, 255, 255]);
    assert_eq!(px(&h, 106, 94), [0, 0, 0, 0]);
}

#[test]
fn snap_preview_rim_fill_and_corners() {
    let mut f = vec![0u8; FRAME_LEN];
    DesktopRenderer::draw_snap_preview(&mut f, SnapZone::Left);
    assert_eq!(px(&f, 0, 0), [0, 0, 0, 0]);
    assert_eq!(px(&f, 1, 20), [72, 150, 255, 255]);
    assert_eq!(px(&f, 5, 5), [8, 23, 53, 255]);
    assert_eq!(px(&f, 700, 10), [0, 0, 0, 0]);
    assert_eq!(px(&f, 10, 700), [0, 0, 0, 0]);
}

#[test]
fn ansi_colours_split_spans() {
    let spans = parse_ansi("ab\u{1b}[31mcd\u{1b}[0mef", [1, 2, 3]);
    let got: Vec<(String, [u8; 3])> = spans.into_iter().map(|s| (s.text, s.col)).collect();
    assert_eq!(
        got,
        vec![
            ("ab".to_string(), [1, 2, 3]),
            ("cd".to_string(), [220, 70, 70]),
            ("ef".to_string(), [1, 2, 3]),
        ]
    );
}

#[test]
fn ansi_palette_and_bold() {
    let s = parse_ansi("\u{1b}[38;5;196mX\u{1b}[1;32mok", [0, 0, 0]);
    assert_eq!(s.len(), 2);
    assert_eq!((s[0].text.as_str(), s[0].col), ("X", [255, 0, 0]));
    assert_eq!((s[1].text.as_str(), s[1].col), ("ok", [60, 200, 80]));
}

#[test]
fn ansi_empty_line_gives_one_span() {
    let s = parse_ansi("", [5, 6, 7]);
    assert_eq!(s.len(), 1);
    assert_eq!((s[0].text.as_str(), s[0].col), ("", [5, 6, 7]));
    let only_escape = parse_ansi("\u{1b}[34m", [5, 6, 7]);
    assert_eq!(only_escape.len(), 1);
    assert_eq!(only_escape[0].col, [5, 6, 7]);
}

#[test]
fn ansi_unterminated_and_other_letters() {
    let s = parse_ansi("a\u{1b}[2Kb", [9, 9, 9]);
    let texts: Vec<&str> = s.iter().map(|x| x.text.as_str()).collect();
    assert_eq!(texts, vec!["a", "b"]);
    let t = parse_ansi("x\u{1b}[31", [9, 9, 9]);
    assert_eq!(t.len(), 1);
    assert_eq!(t[0].text, "x");
}

#[test]
fn ansi_spans_keep_the_text() {
    let s = parse_ansi("ls: \u{1b}[1;34mdir\u{1b}[0m file\u{1b}[K", [0, 0, 0]);
    let all: String = s.iter().map(|x| x.text.as_str()).collect();
    assert_eq!(all, "ls: dir file");
    assert_eq!(s[1].col, [80, 140, 255]);
}

fn host() -> trimangees::explorer_state::HostEnv {
    trimangees::explorer_state::HostEnv {
        home: "/".to_string(),
        home_listing: None,
        hostname_file: None,
        home_var: None,
    }
}

#[test]
fn taskbar_buttons_icons_and_dots() {
    let mut app = trimangees::display::display_server::App::new(&host());
    let mut f = vec![0u8; FRAME_LEN];
    DesktopRenderer::draw_taskbar_buttons(&mut f, &app.desktop.window_manager.windows);
    assert_eq!(px(&f, 536, 697), [240, 180, 40, 255]);
    assert_eq!(px(&f, 536, 692), [255, 200, 40, 255]);
    assert_eq!(px(&f, 544, 692), [0, 0, 0, 0]);
    assert_eq!(px(&f, 592, 701), [60, 195, 95, 255]);
    assert_eq!(px(&f, 583, 701), [60, 195, 95, 255]);
    assert_eq!(px(&f, 586, 704), [0, 0, 0, 0]);
    assert_eq!(px(&f, 612, 692), [20, 20, 20, 255]);
    assert_eq!(px(&f, 615, 715), [110, 115, 150, 255]);
    assert_eq!(px(&f, 604, 684), [0, 0, 0, 0]);
    app.desktop.window_manager.bring_to_front(1);
    let mut g = vec![0u8; FRAME_LEN];
    DesktopRenderer::draw_taskbar_buttons(&mut g, &app.desktop.window_manager.windows);
    assert_eq!(px(&g, 604, 684), [22, 22, 32, 255]);
    assert_eq!(px(&g, 615, 716), [75, 145, 255, 255]);
    assert_eq!(DesktopRenderer::button_letter(3), Some((654, 694, 'T')));
    assert_eq!(DesktopRenderer::button_letter(0), None);
}

#[test]
fn search_pill_with_round_ends() {
    let mut f = vec![0u8; FRAME_LEN];
    DesktopRenderer::draw_search_bar(&mut f);
    assert_eq!(px(&f, 100, 700), [28, 28, 44, 255]);
    assert_eq!(px(&f, 42, 688), [0, 0, 0, 0]);
    assert_eq!(px(&f, 42, 701), [28, 28, 44, 255]);
    assert_eq!(px(&f, 206, 688), [0, 0, 0, 0]);
    assert_eq!(px(&f, 207, 700), [0, 0, 0, 0]);
}

#[test]
fn terminal_line_colours_and_range() {
    assert_eq!(terminal_line_colour("user@trimangees:~$ ls"), [60, 200, 80]);
    assert_eq!(terminal_line_colour("stderr: oops"), [220, 75, 75]);
    assert_eq!(terminal_line_colour("/usr/bin"), [100, 160, 255]);
    assert_eq!(terminal_line_colour("drwxr-xr-x 2 a a"), [140, 145, 185]);
    assert_eq!(terminal_line_colour("hello"), [188, 192, 228]);
    assert_eq!(visible_lines(100, 0, 172, 0), (90, 100));
    assert_eq!(visible_lines(100, 0, 172, 5), (85, 95));
    assert_eq!(visible_lines(3, 0, 172, 0), (0, 3));
    assert_eq!(visible_lines(3, 0, 5, 10), (0, 0));
}

#[test]
fn context_menu_panel_border_divider_highlight() {
    let mut m = trimangees::display::context_menu::ContextMenu::new();
    m.open_desktop(100, 100, 1280, 720);
    m.hovered = Some(1);
    let mut f = vec![0u8; FRAME_LEN];
    DesktopRenderer::draw_context_menu(&mut f, &m);
    assert_eq!(px(&f, 150, 100), [58, 58, 95, 255]);
    assert_eq!(px(&f, 150, 259), [58, 58, 95, 255]);
    assert_eq!(px(&f, 150, 110), [22, 22, 36, 255]);
    assert_eq!(px(&f, 100, 100), [58, 58, 95, 255]);
    assert_eq!(px(&f, 100, 101), [0, 0, 0, 0]);
    assert_eq!(px(&f, 101, 105), [22, 22, 36, 255]);
    assert_eq!(px(&f, 150, 140), [40, 40, 68, 255]);
    assert_eq!(px(&f, 102, 140), [22, 22, 36, 255]);
    assert_eq!(px(&f, 150, 162), [48, 48, 78, 255]);
    assert_eq!(px(&f, 105, 162), [22, 22, 36, 255]);
    assert_eq!(px(&f, 300, 150), [0, 0, 0, 0]);
}

#[test]
fn window_frame_and_buttons() {
    let app = trimangees::display::display_server::App::new(&host());
    let w = &app.desktop.window_manager.windows[0];
    let mut f = vec![0u8; FRAME_LEN];
    trimangees::display::window_renderer::WindowRenderer::draw_frame(&mut f, w);
    assert_eq!(px(&f, 300, 300), [16, 16, 24, 255]);
    assert_eq!(px(&f, 300, 479), [32, 35, 58, 255]);
    assert_eq!(px(&f, 120, 300), [32, 35, 58, 255]);
    assert_eq!(px(&f, 300, 80), [99, 103, 128, 255]);
    assert_eq!(px(&f, 121, 80), [0, 0, 0, 0]);
    assert_eq!(px(&f, 300, 112), [22, 26, 48, 255]);
    assert_eq!(px(&f, 132, 96), [60, 200, 80, 255]);
    assert_eq!(px(&f, 300, 90), [0, 0, 0, 0]);
    let mut g = vec![0u8; FRAME_LEN];
    trimangees::display::window_renderer::WindowRenderer::draw_buttons(&mut g, w);
    assert_eq!(px(&g, 802, 96), [255, 255, 255, 255]);
    assert_eq!(px(&g, 808, 96), [218, 58, 58, 255]);
    assert_eq!(px(&g, 769, 96), [185, 190, 218, 255]);
    assert_eq!(px(&g, 750, 96), [185, 190, 218, 255]);
    assert_eq!(px(&g, 745, 97), [185, 190, 218, 255]);
    assert_eq!(px(&g, 744, 96), [0, 0, 0, 0]);
}

#[test]
fn explorer_row_range() {

    assert_eq!(trimangees::display::window_renderer::WindowRenderer::explorer_rows(100, 0, 100, 320), (0, 10));
    assert_eq!(trimangees::display::window_renderer::WindowRenderer::explorer_rows(100, 95, 100, 320), (95, 100));
    assert_eq!(trimangees::display::window_renderer::WindowRenderer::explorer_rows(5, 40, 100, 320), (4, 5));
    assert_eq!(trimangees::display::window_renderer::WindowRenderer::explorer_rows(0, 3, 100, 110), (0, 0));
    assert_eq!(trimangees::display::window_renderer::WindowRenderer::explorer_rows(3, 0, 100, 110), (0, 1));
}

#[test]
fn start_panel_blends_glass_and_rounds_corners() {
    let mut f = vec![100u8; FRAME_LEN];
    DesktopRenderer::draw_start_panel(&mut f);
    // Corner pixel lies outside the rounding: unchanged.
    assert_eq!(px(&f, 380, 258), [100, 100, 100, 100]);
    // Border on the top edge, away from the corners.
    assert_eq!(px(&f, 500, 258), [52, 52, 88, 255]);
    // Inside: (24 * 226 + 100 * 29) / 255 = 32, (38 * 226 + 100 * 29) / 255 = 45.
    assert_eq!(px(&f, 500, 400), [32, 32, 45, 255]);
    // Outside the panel.
    assert_eq!(px(&f, 379, 400), [100, 100, 100, 100]);
    assert_eq!(px(&f, 500, 678), [100, 100, 100, 100]);
}

#[test]
fn start_search_box_has_rim_fill_and_magnifier() {
    let mut f = vec![0u8; FRAME_LEN];
    DesktopRenderer::draw_start_search(&mut f);
    assert_eq!(px(&f, 600, 312), [62, 62, 105, 255]);
    assert_eq!(px(&f, 600, 320), [18, 18, 30, 255]);
    // Magnifier ring (dx = 3, dy = 0) and handle (dx = dy = 5).
    assert_eq!(px(&f, 415, 324), [85, 88, 125, 255]);
    assert_eq!(px(&f, 417, 329), [85, 88, 125, 255]);
    // The ring's middle keeps the fill.
    assert_eq!(px(&f, 412, 324), [18, 18, 30, 255]);
    assert_eq!(px(&f, 400, 312), [0, 0, 0, 0]);
}

#[test]
fn start_tiles_draw_one_background_per_entry() {
    let mut f = vec![0u8; FRAME_LEN];
    let mut menu = StartMenu::new();
    let n = menu.entries.len();
    assert!(n >= 2 && n < 16);
    menu.hovered = Some(1);
    DesktopRenderer::draw_start_tiles(&mut f, &menu);
    // Tile 0 at (433, 348), tile 1 at (539, 348), hovered.
    assert_eq!(px(&f, 470, 380), [32, 34, 56, 255]);
    assert_eq!(px(&f, 580, 380), [50, 52, 80, 255]);
    // Rounded corner and the gap between tiles are left alone.
    assert_eq!(px(&f, 433, 348), [0, 0, 0, 0]);
    assert_eq!(px(&f, 533, 380), [0, 0, 0, 0]);
    // No tile past the last entry.
    let last_col = n % 4;
    let last_row = n / 4;
    assert_eq!(px(&f, 433 + last_col * 106 + 40, 348 + last_row * 90 + 40), [0, 0, 0, 0]);
}

#[test]
fn start_power_buttons_and_divider() {
    let mut f = vec![0u8; FRAME_LEN];
    let mut menu = StartMenu::new();
    menu.power_hovered = Some(2);
    DesktopRenderer::draw_start_power(&mut f, &menu);
    assert_eq!(px(&f, 600, 628), [48, 48, 80, 255]);
    // Sleep body and its rim.
    assert_eq!(px(&f, 540, 650), [28, 30, 50, 255]);
    assert_eq!(px(&f, 540, 636), [63, 65, 95, 255]);
    // Restart body.
    assert_eq!(px(&f, 640, 650), [28, 58, 128, 255]);
    // Hovered shut-down body and its rim, capped at 255.
    assert_eq!(px(&f, 740, 650), [185, 45, 45, 255]);
    assert_eq!(px(&f, 740, 636), [220, 80, 90, 255]);
    // Gap between buttons, and the rounded bottom corner.
    assert_eq!(px(&f, 590, 650), [0, 0, 0, 0]);
    assert_eq!(px(&f, 498, 663), [0, 0, 0, 0]);
}

fn settings(section: usize, dark_mode: bool) -> SettingsState {
    SettingsState {
        active_section: section,
        wallpaper_preset: 0,
        accent_r: 72,
        accent_g: 138,
        accent_b: 240,
        dark_mode,
        hostname: String::from("box"),
        os_version: String::from("Trimangees OS 1.0"),
    }
}

#[test]
fn settings_sidebar_highlight_and_accent_discs() {
    let mut f = vec![0u8; FRAME_LEN];
    WindowRenderer::draw_settings_panels(&mut f, 100, 133, 700, 600, &settings(0, true));
    assert_eq!(px(&f, 150, 400), [14, 14, 22, 255]);
    assert_eq!(px(&f, 260, 400), [35, 38, 62, 255]);
    assert_eq!(px(&f, 150, 150), [28, 32, 58, 255]);
    assert_eq!(px(&f, 102, 150), [72, 138, 240, 255]);
    assert_eq!(px(&f, 101, 150), [14, 14, 22, 255]);
    // Accent discs: the first (chosen) and the second.
    assert_eq!(px(&f, 292, 291), [72, 138, 240, 255]);
    assert_eq!(px(&f, 328, 291), [60, 200, 80, 255]);
    // A ring round the chosen one only.
    assert_eq!(px(&f, 305, 291), [255, 255, 255, 255]);
    assert_eq!(px(&f, 341, 291), [0, 0, 0, 0]);
    // Below the content area and right of the page.
    assert_eq!(px(&f, 150, 600), [0, 0, 0, 0]);
    assert_eq!(px(&f, 800, 400), [0, 0, 0, 0]);
}

#[test]
fn settings_dark_mode_toggle_and_knob() {
    let mut f = vec![0u8; FRAME_LEN];
    WindowRenderer::draw_settings_panels(&mut f, 100, 133, 700, 600, &settings(1, true));
    assert_eq!(px(&f, 400, 180), [32, 105, 220, 255]);
    assert_eq!(px(&f, 421, 187), [240, 242, 255, 255]);
    assert_eq!(px(&f, 150, 190), [28, 32, 58, 255]);
    assert_eq!(px(&f, 150, 150), [14, 14, 22, 255]);
    // No accent discs on this section.
    assert_eq!(px(&f, 292, 291), [0, 0, 0, 0]);
    let mut g = vec![0u8; FRAME_LEN];
    WindowRenderer::draw_settings_panels(&mut g, 100, 133, 700, 600, &settings(1, false));
    assert_eq!(px(&g, 430, 180), [60, 62, 90, 255]);
    assert_eq!(px(&g, 404, 187), [240, 242, 255, 255]);
}

#[test]
fn swatch_frame_outlines_the_chosen_preset() {
    let mut f = vec![0u8; FRAME_LEN];
    WindowRenderer::draw_swatch_frame(&mut f, 100, 133, 2);
    assert_eq!(px(&f, 388, 210), [72, 138, 240, 255]);
    assert_eq!(px(&f, 400, 199), [72, 138, 240, 255]);
    assert_eq!(px(&f, 435, 234), [72, 138, 240, 255]);
    assert_eq!(px(&f, 400, 210), [0, 0, 0, 0]);
    let mut g = vec![0u8; FRAME_LEN];
    WindowRenderer::draw_swatch_frame(&mut g, 100, 133, 4);
    assert!(g.iter().all(|b| *b == 0));
}

fn entry(name: &str, is_dir: bool, ext: &str) -> FileEntry {
    FileEntry { name: String::from(name), is_dir, size: 10, ext: String::from(ext) }
}

fn browser(entries: Vec<FileEntry>, selected: Option<usize>) -> ExplorerState {
    ExplorerState {
        current_path: String::from("/etc"),
        entries,
        selected,
        scroll_offset: 0,
        history: vec![String::from("/etc")],
        history_idx: 0,
    }
}

#[test]
fn explorer_chrome_lights_the_current_bookmark() {
    let mut f = vec![0u8; FRAME_LEN];
    let marks = vec![String::from("/home/a"), String::from("/"), String::from("/etc")];
    WindowRenderer::draw_explorer_chrome(&mut f, 100, 133, 800, 600, &marks, "/etc");
    assert_eq!(px(&f, 150, 190), [28, 32, 55, 255]);
    assert_eq!(px(&f, 150, 145), [14, 14, 22, 255]);
    assert_eq!(px(&f, 240, 300), [35, 38, 62, 255]);
    assert_eq!(px(&f, 250, 140), [18, 18, 28, 255]);
    assert_eq!(px(&f, 400, 140), [20, 20, 32, 255]);
    assert_eq!(px(&f, 327, 140), [0, 0, 0, 0]);
    assert_eq!(px(&f, 400, 161), [28, 30, 52, 255]);
    assert_eq!(px(&f, 400, 170), [18, 18, 28, 255]);
    assert_eq!(px(&f, 400, 182), [28, 30, 52, 255]);
    assert_eq!(px(&f, 900, 140), [0, 0, 0, 0]);
}

#[test]
fn explorer_chrome_lines_are_not_clipped_by_the_area() {
    let mut f = vec![0u8; FRAME_LEN];
    let marks: Vec<String> = Vec::new();
    WindowRenderer::draw_explorer_chrome(&mut f, 100, 133, 800, 150, &marks, "/");
    assert_eq!(px(&f, 400, 161), [28, 30, 52, 255]);
    assert_eq!(px(&f, 400, 182), [28, 30, 52, 255]);
    assert_eq!(px(&f, 400, 170), [0, 0, 0, 0]);
    assert_eq!(px(&f, 150, 149), [14, 14, 22, 255]);
    assert_eq!(px(&f, 150, 150), [0, 0, 0, 0]);
}

#[test]
fn explorer_rows_draw_backgrounds_icons_and_tabs() {
    let mut f = vec![0u8; FRAME_LEN];
    let exp = browser(vec![entry("docs", true, ""), entry("main.rs", false, "rs"), entry("notes", false, "")], Some(1));
    WindowRenderer::draw_explorer_rows(&mut f, 100, 133, 800, 600, &exp);
    assert_eq!(px(&f, 250, 190), [240, 180, 40, 255]);
    assert_eq!(px(&f, 250, 185), [255, 200, 40, 255]);
    assert_eq!(px(&f, 260, 185), [18, 18, 26, 255]);
    assert_eq!(px(&f, 400, 210), [32, 72, 168, 255]);
    assert_eq!(px(&f, 250, 212), [220, 100, 60, 255]);
    assert_eq!(px(&f, 250, 207), [32, 72, 168, 255]);
    assert_eq!(px(&f, 400, 230), [18, 18, 26, 255]);
    assert_eq!(px(&f, 400, 255), [0, 0, 0, 0]);
}

#[test]
fn explorer_rows_skip_a_row_that_does_not_fit() {
    let mut f = vec![0u8; FRAME_LEN];
    let exp = browser(vec![entry("docs", true, "")], None);
    WindowRenderer::draw_explorer_rows(&mut f, 100, 133, 800, 200, &exp);
    assert!(f.iter().all(|b| *b == 0));
    WindowRenderer::draw_explorer_rows(&mut f, 100, 133, 800, 220, &exp);
    assert_eq!(px(&f, 250, 190), [240, 180, 40, 255]);
}

#[test]
fn explorer_status_bar_spans_the_bottom() {
    let mut f = vec![0u8; FRAME_LEN];
    WindowRenderer::draw_explorer_status(&mut f, 100, 800, 600);
    assert_eq!(px(&f, 400, 590), [14, 14, 22, 255]);
    assert_eq!(px(&f, 400, 579), [0, 0, 0, 0]);
    assert_eq!(px(&f, 240, 590), [0, 0, 0, 0]);
}

#[test]
fn toast_panel_blends_by_opacity_and_draws_the_strip() {
    let mut f = vec![0u8; FRAME_LEN];
    DesktopRenderer::draw_toast_panel(&mut f, 0, 218);
    assert_eq!(px(&f, 1000, 620), [18, 20, 34, 255]);
    assert_eq!(px(&f, 985, 620), [82, 155, 255, 255]);
    assert_eq!(px(&f, 985, 605), [82, 155, 255, 255]);
    assert_eq!(px(&f, 985, 598), [0, 0, 0, 0]);
    assert_eq!(px(&f, 984, 596), [0, 0, 0, 0]);
    assert_eq!(px(&f, 1000, 656), [0, 0, 0, 0]);
    let mut g = vec![100u8; FRAME_LEN];
    DesktopRenderer::draw_toast_panel(&mut g, 1, 0);
    assert_eq!(px(&g, 1000, 550), [100, 100, 100, 255]);
    assert_eq!(px(&g, 1000, 620), [100, 100, 100, 100]);
}

#[test]
fn clock_reads_india_standard_time() {
    assert_eq!(DesktopRenderer::clock_fields(0), (5, 30, false));
    assert_eq!(DesktopRenderer::clock_fields(23400), (12, 0, true));
    assert_eq!(DesktopRenderer::clock_fields(66600), (12, 0, false));
    assert_eq!(DesktopRenderer::clock_fields(66600 + 3600 * 15 + 59 * 60), (3, 59, true));
}

#[test]
fn placeholder_look_by_application() {
    let (t, s, c) = WindowRenderer::placeholder_look("tridocs");
    assert_eq!(t, "TRiDOCS");
    assert_eq!(s, "Word Processor \u{2014} opens in system browser on Linux");
    assert_eq!(c, (70, 130, 220));
    let (t, s, c) = WindowRenderer::placeholder_look("browser");
    assert_eq!(t, "Browser");
    assert_eq!(s, "Opens trimangees.netlify.app in system browser");
    assert_eq!(c, (60, 150, 255));
    let (t, s, c) = WindowRenderer::placeholder_look("paint");
    assert_eq!(t, "paint");
    assert_eq!(s, "Placeholder window");
    assert_eq!(c, (130, 135, 175));
}

#[test]
fn placeholder_disc_is_centred_above_the_middle() {
    let mut f = vec![0u8; FRAME_LEN];
    // Centre at (300, 280).
    WindowRenderer::draw_placeholder_disc(&mut f, 100, 100, 500, 500, (1, 2, 3));
    assert_eq!(px(&f, 300, 280), [1, 2, 3, 255]);
    assert_eq!(px(&f, 332, 280), [1, 2, 3, 255]);
    assert_eq!(px(&f, 333, 280), [0, 0, 0, 0]);
    assert_eq!(px(&f, 323, 303), [0, 0, 0, 0]);
    assert_eq!(px(&f, 322, 302), [1, 2, 3, 255]);
    // Clipped at the area's right edge.
    let mut g = vec![0u8; FRAME_LEN];
    WindowRenderer::draw_placeholder_disc(&mut g, 100, 100, 150, 500, (1, 2, 3));
    assert_eq!(px(&g, 149, 280), [1, 2, 3, 255]);
    assert_eq!(px(&g, 150, 280), [0, 0, 0, 0]);
}

#[test]
fn prompt_command_splits_an_echoed_prompt() {
    assert_eq!(prompt_command("user@trimangees:~$ ls -la"), Some(String::from("ls -la")));
    assert_eq!(prompt_command("user@trimangees:~$ "), Some(String::new()));
    assert_eq!(prompt_command("user@trimangees:~ ls"), None);
    assert_eq!(prompt_command("hello"), None);
}

fn rows(n: u8) -> Vec<(u8, u8, u8)> {
    (0..n).map(|i| (i, i + 1, i + 2)).collect()
}

#[test]
fn start_avatar_is_a_disc_in_row_colours() {
    let mut f = vec![0u8; FRAME_LEN];
    DesktopRenderer::draw_start_avatar(&mut f, &rows(33));
    assert_eq!(px(&f, 402, 278), [16, 17, 18, 255]);
    assert_eq!(px(&f, 402, 262), [0, 1, 2, 255]);
    assert_eq!(px(&f, 418, 278), [16, 17, 18, 255]);
    assert_eq!(px(&f, 414, 290), [0, 0, 0, 0]);
    assert_eq!(px(&f, 419, 278), [0, 0, 0, 0]);
}

#[test]
fn tile_icon_is_a_rounded_square_in_row_colours() {
    let mut f = vec![0u8; FRAME_LEN];
    // Tile 5: column 1, row 1; its icon at (569, 446).
    DesktopRenderer::draw_tile_icon(&mut f, 5, &rows(36));
    assert_eq!(px(&f, 580, 446), [0, 1, 2, 255]);
    assert_eq!(px(&f, 580, 481), [35, 36, 37, 255]);
    assert_eq!(px(&f, 569, 460), [14, 15, 16, 255]);
    assert_eq!(px(&f, 569, 446), [0, 0, 0, 0]);
    assert_eq!(px(&f, 605, 460), [0, 0, 0, 0]);
    assert_eq!(px(&f, 580, 482), [0, 0, 0, 0]);
}

#[test]
fn start_bolt_covers_its_rows() {
    let mut f = vec![0u8; FRAME_LEN];
    DesktopRenderer::draw_start_bolt(&mut f, &rows(13));
    // Top row: offsets 2 to 5 at y = 693.
    assert_eq!(px(&f, 22, 693), [0, 1, 2, 255]);
    assert_eq!(px(&f, 25, 693), [0, 1, 2, 255]);
    assert_eq!(px(&f, 21, 693), [0, 0, 0, 0]);
    // The wide middle row, and the last row.
    assert_eq!(px(&f, 17, 698), [5, 6, 7, 255]);
    assert_eq!(px(&f, 23, 698), [5, 6, 7, 255]);
    assert_eq!(px(&f, 15, 705), [12, 13, 14, 255]);
    assert_eq!(px(&f, 17, 705), [0, 0, 0, 0]);
    let drawn = (0..FRAME_LEN / 4).filter(|i| f[i * 4 + 3] == 255).count();
    assert_eq!(drawn, 52);
}

#[test]
fn swatch_is_clipped_to_the_content_area() {
    let mut f = vec![0u8; FRAME_LEN];
    let cols: Vec<(u8, u8, u8)> = (0..48u8).map(|i| (i, 0, 0)).collect();
    WindowRenderer::draw_swatch(&mut f, 100, 133, 420, 220, 1, &cols);
    // Swatch 1 at (332, 199).
    assert_eq!(px(&f, 332, 199), [0, 0, 0, 255]);
    assert_eq!(px(&f, 379, 210), [47, 0, 0, 255]);
    assert_eq!(px(&f, 350, 219), [18, 0, 0, 255]);
    assert_eq!(px(&f, 350, 220), [0, 0, 0, 0]);
    assert_eq!(px(&f, 380, 210), [0, 0, 0, 0]);
}

#[test]
fn uptime_text_reads_whole_seconds() {
    assert_eq!(WindowRenderer::uptime_text("3725.12 7000.00\n"), Some(String::from("1h 2m 5s")));
    assert_eq!(WindowRenderer::uptime_text("+59.0"), Some(String::from("0h 0m 59s")));
    assert_eq!(WindowRenderer::uptime_text("42"), Some(String::from("0h 0m 42s")));
    assert_eq!(WindowRenderer::uptime_text(""), None);
    assert_eq!(WindowRenderer::uptime_text("up 5.0"), None);
    assert_eq!(WindowRenderer::uptime_text("18446744073709551616.5"), None);
    assert_eq!(WindowRenderer::uptime_text("18446744073709551615.5"), Some(String::from("5124095576030431h 0m 15s")));
}

#[test]
fn ansi_spans_never_empty() {
    let spans = parse_ansi("", [1, 2, 3]);
    assert_eq!(spans.len(), 1);
    assert_eq!(spans[0].text, "");
    let spans = parse_ansi("\u{1b}[31m\u{1b}[0m", [1, 2, 3]);
    assert_eq!(spans.len(), 1);
    assert_eq!(spans[0].text, "");
    let spans = parse_ansi("a\u{1b}[31m\u{1b}[32mb", [1, 2, 3]);
    assert_eq!(spans.len(), 2);
    assert!(spans.iter().all(|s| !s.text.is_empty()));
}

#[test]
fn settings_with_no_width_still_draws_the_separator_and_highlight() {
    let mut f = vec![0u8; FRAME_LEN];
    WindowRenderer::draw_settings_panels(&mut f, 100, 133, 100, 600, &settings(0, true));
    // No sidebar fill, but the separator and the active line are drawn.
    assert_eq!(px(&f, 150, 400), [0, 0, 0, 0]);
    assert_eq!(px(&f, 260, 400), [35, 38, 62, 255]);
    assert_eq!(px(&f, 150, 150), [28, 32, 58, 255]);
    assert_eq!(px(&f, 102, 150), [72, 138, 240, 255]);
}

#[test]
fn settings_right_of_the_screen_draws_only_the_clamped_separator() {
    let mut f = vec![0u8; FRAME_LEN];
    WindowRenderer::draw_settings_panels(&mut f, 1300, 133, 1400, 600, &settings(0, true));
    assert_eq!(px(&f, 1279, 300), [35, 38, 62, 255]);
    assert_eq!(px(&f, 1279, 132), [0, 0, 0, 0]);
    assert_eq!(px(&f, 1278, 300), [0, 0, 0, 0]);
}

#[test]
fn settings_fit_check() {
    assert!(WindowRenderer::settings_fit_now(&settings(0, true), 100, 133));
    assert!(!WindowRenderer::settings_fit_now(&settings(0, true), usize::MAX - 100, 133));
    assert!(!WindowRenderer::settings_fit_now(&settings(1, true), 100, usize::MAX - 10));
}

#[test]
fn explorer_status_with_no_width_draws_nothing() {
    let mut f = vec![0u8; FRAME_LEN];
    WindowRenderer::draw_explorer_status(&mut f, 100, 100, 600);
    assert!(f.iter().all(|b| *b == 0));
}

#[test]
fn explorer_scrolled_past_the_end_shows_the_last_entry() {
    assert_eq!(WindowRenderer::explorer_rows(5, usize::MAX, 100, 320), (4, 5));
    assert_eq!(WindowRenderer::explorer_rows(0, usize::MAX, 100, 320), (0, 0));
    let mut f = vec![0u8; FRAME_LEN];
    let mut exp = browser(vec![entry("docs", true, ""), entry("main.rs", false, "rs"), entry("notes", false, "")], None);
    exp.scroll_offset = usize::MAX;
    WindowRenderer::draw_explorer_rows(&mut f, 100, 133, 800, 600, &exp);
    assert_ne!(px(&f, 250, 190), [240, 180, 40, 255]);
    assert_ne!(px(&f, 260, 185), [0, 0, 0, 0]);
    assert_eq!(px(&f, 400, 210), [0, 0, 0, 0]);
}

#[test]
fn window_area_and_buttons() {
    let mut app = trimangees::display::display_server::App::new(&host());
    let w = &app.desktop.window_manager.windows[0];
    assert_eq!(WindowRenderer::window_area(w), Some((120, 80, 820, 480, 113)));
    assert_eq!(WindowRenderer::button_xs(820), (802, 776, 750));
    assert_eq!(WindowRenderer::button_xs(20), (2, 0, 0));
    app.desktop.window_manager.windows[0].x = 1280;
    assert_eq!(WindowRenderer::window_area(&app.desktop.window_manager.windows[0]), None);
    app.desktop.window_manager.windows[0].x = -100;
    app.desktop.window_manager.windows[0].y = 700;
    assert_eq!(WindowRenderer::window_area(&app.desktop.window_manager.windows[0]), Some((0, 700, 600, 720, 720)));
}
