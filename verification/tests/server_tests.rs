use trimangees::display::display_server::{Action, App, Key};
use trimangees::display::terminal_input::CommandResult;
use trimangees::explorer_state::{DirItem, HostEnv};

fn env() -> HostEnv {
    HostEnv {
        home: "/home/ada".to_string(),
        home_listing: None,
        hostname_file: None,
        home_var: Some("/home/ada".to_string()),
    }
}

fn type_text(app: &mut App, s: &str) {
    for c in s.chars() {
        let r = app.key_pressed(Key::Character(c.to_string()));
        assert!(r.redraw);
        assert!(r.actions.is_empty());
    }
}

#[test]
fn starts_with_one_terminal() {
    let app = App::new(&env());
    let ws = &app.desktop.window_manager.windows;
    assert_eq!(ws.len(), 1);
    assert_eq!(ws[0].id, 1);
    assert_eq!(ws[0].title, "Terminal");
    assert_eq!((ws[0].x, ws[0].y, ws[0].width, ws[0].height), (120, 80, 700, 400));
    assert_eq!(ws[0].output_lines.len(), 3);
    assert_eq!(app.desktop.desktop_icons[0].name, "File Explorer");
    assert!(app.needs_redraw);
}

#[test]
fn enter_runs_the_typed_command() {
    let mut app = App::new(&env());
    type_text(&mut app, "ls -a");
    assert_eq!(app.desktop.window_manager.windows[0].input_buffer, "ls -a");
    let r = app.key_pressed(Key::Enter);
    assert!(r.redraw);
    assert_eq!(r.actions.len(), 1);
    match &r.actions[0] {
        Action::RunCommand(id, cmd) => {
            assert_eq!(*id, 1);
            assert_eq!(cmd, "ls -a");
        },
        _ => panic!("expected a command run"),
    }
    let w = &app.desktop.window_manager.windows[0];
    assert_eq!(w.input_buffer, "");
    assert_eq!(w.output_lines.last().unwrap(), "user@trimangees:~$ ls -a");
    assert_eq!(w.history, vec!["ls -a".to_string()]);
}

#[test]
fn command_output_is_appended() {
    let mut app = App::new(&env());
    let before = app.desktop.window_manager.windows[0].output_lines.len();
    let r = app.command_finished(
        1,
        CommandResult::Ran {
            stdout: "a\nb\n".to_string(),
            stderr: "oops".to_string(),
            success: false,
            code: Some(2),
        },
    );
    assert!(r.redraw);
    let out = &app.desktop.window_manager.windows[0].output_lines;
    assert_eq!(&out[before..], &["a", "b", "stderr: oops", "exit code: 2", ""]);
    let r2 = app.command_finished(9, CommandResult::Failed("x".to_string()));
    assert!(r2.redraw);
}

#[test]
fn clear_and_exit() {
    let mut app = App::new(&env());
    type_text(&mut app, "clear");
    let r = app.key_pressed(Key::Enter);
    assert!(r.actions.is_empty());
    assert_eq!(app.desktop.window_manager.windows[0].output_lines, vec!["".to_string()]);
    type_text(&mut app, "exit");
    let r = app.key_pressed(Key::Enter);
    assert!(r.redraw);
    assert!(app.desktop.window_manager.windows.is_empty());
}

#[test]
fn history_recall_with_arrows() {
    let mut app = App::new(&env());
    type_text(&mut app, "pwd");
    app.key_pressed(Key::Enter);
    type_text(&mut app, "whoami");
    app.key_pressed(Key::Enter);
    app.key_pressed(Key::ArrowUp);
    assert_eq!(app.desktop.window_manager.windows[0].input_buffer, "whoami");
    app.key_pressed(Key::ArrowUp);
    assert_eq!(app.desktop.window_manager.windows[0].input_buffer, "pwd");
    app.key_pressed(Key::ArrowDown);
    assert_eq!(app.desktop.window_manager.windows[0].input_buffer, "whoami");
    app.key_pressed(Key::ArrowDown);
    assert_eq!(app.desktop.window_manager.windows[0].input_buffer, "");
    type_text(&mut app, "abc");
    app.key_pressed(Key::Backspace);
    assert_eq!(app.desktop.window_manager.windows[0].input_buffer, "ab");
    app.key_pressed(Key::Escape);
    assert_eq!(app.desktop.window_manager.windows[0].input_buffer, "");
}

#[test]
fn tab_asks_for_completion_then_completes() {
    let mut app = App::new(&env());
    type_text(&mut app, "cd /usr/lo");
    let r = app.key_pressed(Key::Tab);
    assert_eq!(r.actions.len(), 1);
    match &r.actions[0] {
        Action::Complete(id, dir, prefix) => {
            assert_eq!(*id, 1);
            assert_eq!(dir, "/usr");
            assert_eq!(prefix, "lo");
        },
        _ => panic!("expected a completion request"),
    }
    let items = vec![
        DirItem { name: "local".to_string(), is_dir: true, size: 0 },
        DirItem { name: "lib".to_string(), is_dir: true, size: 0 },
    ];
    let r = app.completion_ready(1, &items);
    assert!(r.redraw);
    assert_eq!(app.desktop.window_manager.windows[0].input_buffer, "cd local/");
}

#[test]
fn super_key_toggles_start_menu() {
    let mut app = App::new(&env());
    let r = app.key_pressed(Key::Super);
    assert!(r.redraw);
    assert!(app.desktop.start_menu.visible);
    app.key_pressed(Key::Super);
    assert!(!app.desktop.start_menu.visible);
}

#[test]
fn right_click_on_desktop_opens_menu() {
    let mut app = App::new(&env());
    app.cursor_moved(1000, 600);
    let r = app.right_press();
    assert!(r.redraw);
    assert!(app.desktop.context_menu.visible);
    assert_eq!(app.desktop.context_menu.items[0].action, "open_terminal");
}

#[test]
fn idle_turns_blink_the_cursor() {
    let mut app = App::new(&env());
    for t in 0..30u64 {
        assert!(!app.about_to_wait(t));
    }
    app.desktop.window_manager.bring_to_front(1);
    let blink = app.desktop.window_manager.windows[0].cursor_blink;
    for t in 0..29u64 {
        assert!(!app.about_to_wait(t));
    }
    assert!(app.about_to_wait(29));
    assert_eq!(app.desktop.window_manager.windows[0].cursor_blink, !blink);
}

#[test]
fn welcome_toast() {
    let mut app = App::new(&env());
    app.welcome(5);
    assert_eq!(app.desktop.notifications.toasts.len(), 1);
    assert_eq!(app.desktop.notifications.toasts[0].title, "Trimangees OS");
    assert_eq!(app.desktop.notifications.toasts[0].created, 5);
}

#[test]
fn limits_admit_ordinary_events() {
    let app = App::new(&env());
    assert!(app.press_fits_at(0));
    assert!(app.move_fits_at(640, 360));
    assert!(app.right_press_fits());
    assert!(app.key_fits_for(&Key::ArrowUp));
    assert!(app.key_fits_for(&Key::Tab));
    assert!(app.wheel_fits_for(3));
    assert!(!app.wheel_fits_for(i32::MIN));
    let items = vec![DirItem { name: "notes".to_string(), is_dir: false, size: 1 }];
    assert!(app.completion_fits_for(1, &items));
}

#[test]
fn limits_refuse_out_of_range_positions() {
    let mut app = App::new(&env());
    app.desktop.window_manager.windows[0].x = i32::MAX - 10;
    assert!(!app.right_press_fits());
    assert!(!app.press_fits_at(0));
    let mut far = App::new(&env());
    far.last_cursor_x = i32::MIN + 5;
    assert!(!far.move_fits_at(i32::MAX, 0));
}

fn browser_plan() -> trimangees::application_manager::LaunchPlan {
    trimangees::application_manager::ApplicationManager::new().launch_plan("browser")
}

#[test]
fn launch_that_fails_opens_the_fallback_window() {
    let mut app = App::new(&env());
    let before = app.desktop.window_manager.windows.len();
    let next = app.desktop.window_manager.next_id;
    let r = app.launch_outcome(browser_plan(), false, &env());
    assert!(r.redraw);
    assert!(r.actions.is_empty());
    let ws = &app.desktop.window_manager.windows;
    assert_eq!(ws.len(), before + 1);
    let w = ws.last().unwrap();
    assert_eq!((w.title.as_str(), w.app.as_str(), w.width, w.height), ("Trimangees Browser", "browser", 1100, 700));
    assert_eq!(w.id, next);
    assert_eq!(app.desktop.window_manager.next_id, next + 1);
}

#[test]
fn launch_that_starts_changes_nothing() {
    let mut app = App::new(&env());
    let before = app.desktop.window_manager.windows.len();
    let r = app.launch_outcome(browser_plan(), true, &env());
    assert!(!r.redraw);
    assert_eq!(app.desktop.window_manager.windows.len(), before);
    let prog = trimangees::application_manager::ApplicationManager::new().launch_plan("gimp");
    let r = app.launch_outcome(prog, false, &env());
    assert!(!r.redraw);
    assert_eq!(app.desktop.window_manager.windows.len(), before);
}

#[test]
fn office_page_that_fails_opens_its_window() {
    let mut app = App::new(&env());
    let plan = trimangees::application_manager::ApplicationManager::new().launch_plan("trisheets");
    app.launch_outcome(plan, false, &env());
    let w = app.desktop.window_manager.windows.last().unwrap();
    assert_eq!((w.title.as_str(), w.width, w.height), ("TRiSHEETS", 900, 600));
}

#[test]
fn command_output_goes_to_the_topmost_window_with_the_id() {
    let mut app = App::new(&env());
    let e = env();
    app.desktop.window_manager.create_window("Terminal".to_string(), "terminal".to_string(), 700, 400, &e);
    app.desktop.window_manager.windows[1].id = 1;
    let below = app.desktop.window_manager.windows[0].output_lines.len();
    let above = app.desktop.window_manager.windows[1].output_lines.len();
    let r = app.command_finished(1, CommandResult::Failed("x".to_string()));
    assert!(r.redraw);
    assert_eq!(app.desktop.window_manager.windows[0].output_lines.len(), below);
    let out = &app.desktop.window_manager.windows[1].output_lines;
    assert_eq!(&out[above..], &["error: x", ""]);
}

#[test]
fn pointer_moves_test_only_the_windows_the_edge_search_reaches() {
    let mut app = App::new(&env());
    let e = env();
    app.desktop.window_manager.create_window("Terminal".to_string(), "terminal".to_string(), 700, 400, &e);
    // The lower window's right edge cannot be computed.
    app.desktop.window_manager.windows[0].x = i32::MAX - 3;
    // On the upper window's right edge the search stops there.
    assert!(app.move_fits_at(848, 300));
    let r = app.cursor_moved(848, 300);
    assert!(r.redraw);
    assert!(app.desktop.hover_edge.is_some());
    // Elsewhere the search reaches the lower window.
    assert!(!app.move_fits_at(10, 10));
}

#[test]
fn context_menu_press_needs_an_id_only_to_open_a_window() {
    let mut app = App::new(&env());
    app.desktop.context_menu.open_desktop(100, 100, 1280, 720);
    app.desktop.window_manager.next_id = u32::MAX;
    // Over "Open Terminal": a window would open, and no id is left.
    app.desktop.cursor.x = 150;
    app.desktop.cursor.y = 110;
    assert!(!app.press_fits_at(0));
    // Beside the menu nothing opens.
    app.desktop.cursor.x = 400;
    assert!(app.press_fits_at(0));
    let r = app.left_press(0, &env());
    assert!(r.redraw);
    assert!(!app.desktop.context_menu.visible);
    assert_eq!(app.desktop.window_manager.windows.len(), 1);
}

#[test]
fn start_menu_tile_that_starts_a_program_needs_no_window_id() {
    let mut app = App::new(&env());
    app.desktop.start_menu.toggle();
    app.desktop.window_manager.next_id = u32::MAX;
    // The browser's tile: the browser starts outside, no window opens yet.
    app.desktop.cursor.x = 650;
    app.desktop.cursor.y = 360;
    let r = app.press_start_menu(&env());
    assert!(r.redraw);
    assert_eq!(r.actions.len(), 1);
    assert!(matches!(r.actions[0], Action::MenuLaunch(Some(_))));
    assert!(!app.desktop.start_menu.visible);
    assert_eq!(app.desktop.window_manager.windows.len(), 1);
    assert_eq!(app.desktop.window_manager.next_id, u32::MAX);
}

#[test]
fn desktop_presses_that_open_nothing_need_no_window_id() {
    let mut app = App::new(&env());
    app.desktop.window_manager.next_id = u32::MAX;
    // A first click on the File Explorer icon only selects it.
    app.desktop.cursor.x = 50;
    app.desktop.cursor.y = 50;
    let r = app.press_icons(1000, &env());
    assert!(r.is_some());
    assert!(r.unwrap().actions.is_empty());
    assert!(app.desktop.desktop_icons[0].selected);
    assert_eq!(app.desktop.window_manager.windows.len(), 1);
    // The pinned terminal button: the terminal's window is already open.
    app.desktop.cursor.x = 620;
    app.desktop.cursor.y = 700;
    let p = app.press_pinned(&env());
    assert!(p.is_some());
    assert_eq!(app.desktop.window_manager.windows.len(), 1);
    assert_eq!(app.desktop.window_manager.next_id, u32::MAX);
}
