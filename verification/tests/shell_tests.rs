use trimangees::application_manager::{Application, ApplicationManager, LaunchPlan};
use trimangees::boot::BootManager;
use trimangees::desktop::Desktop;
use trimangees::explorer_app::Explorer;
use trimangees::explorer_state::HostEnv;
use trimangees::filesystem::FilesystemService;
use trimangees::shell::{Shell, ShellApi};
use trimangees::start_menu::StartMenu;
use trimangees::taskbar::Taskbar;
use trimangees::terminal::{parse, CommandDispatcher, Terminal};

fn env() -> HostEnv {
    HostEnv {
        home: "/home/ada".to_string(),
        home_listing: None,
        hostname_file: None,
        home_var: Some("/home/ada".to_string()),
    }
}

#[test]
fn parse_splits_command_and_arguments() {
    let p = parse("  open   terminal now ");
    assert_eq!(p.command, "open");
    assert_eq!(p.arguments, vec!["terminal".to_string(), "now".to_string()]);
    let blank = parse("   ");
    assert_eq!(blank.command, "");
    assert!(blank.arguments.is_empty());
}

#[test]
fn terminal_help_open_and_unknown() {
    let mut t = Terminal::new();
    let e = env();
    assert_eq!(t.run_command("help", &e), vec!["Commands:", "open", "help"]);
    assert_eq!(t.run_command("open", &e), vec!["Open what?"]);
    assert_eq!(t.run_command("open terminal", &e), vec!["Launching Terminal..."]);
    assert_eq!(t.run_command("open browser", &e), vec!["Launching Browser..."]);
    assert_eq!(t.run_command("open paint", &e), vec!["Application 'paint' not found."]);
    assert_eq!(t.run_command("dance", &e), vec!["Unknown command."]);
    assert_eq!(t.run_command("", &e), vec!["Unknown command."]);
}

#[test]
fn dispatcher_runs_parsed_commands() {
    let mut d = CommandDispatcher::new();
    let e = env();
    assert_eq!(d.dispatch(parse("open DOCS"), &e), vec!["Launching Docs..."]);
    assert_eq!(d.dispatch(parse("help me"), &e), vec!["Commands:", "open", "help"]);
}

#[test]
fn shell_launch_opens_window_and_taskbar_entry() {
    let mut s = Shell::new();
    let e = env();
    assert_eq!(s.application_manager.list_apps().len(), 5);
    let msg = s.launch_app("terminal", &e);
    assert_eq!(msg, "Launching Terminal...");
    assert_eq!(s.window_manager.windows.len(), 1);
    let w = &s.window_manager.windows[0];
    assert_eq!(w.id, 1);
    assert_eq!(w.title, "Terminal");
    assert_eq!(w.app, "terminal");
    assert_eq!((w.width, w.height), (900, 700));
    assert_eq!(s.window_manager.next_id, 2);
    assert_eq!(s.taskbar.running_apps, vec!["Terminal".to_string()]);
    let miss = s.launch_app("Paint", &e);
    assert_eq!(miss, "Application 'Paint' not found.");
    assert_eq!(s.window_manager.windows.len(), 1);
    let second = s.launch_app("Explorer", &e);
    assert_eq!(second, "Launching Explorer...");
    assert_eq!(s.window_manager.windows[1].id, 2);
    assert_eq!(s.window_manager.windows[1].x - w_x(&s), 28);
}

fn w_x(s: &Shell) -> i32 {
    s.window_manager.windows[0].x
}

#[test]
fn shell_start_menu_toggles() {
    let mut s = Shell::new();
    assert_eq!(s.toggle_start_menu(), "Start Menu opened.");
    assert!(s.start_menu.visible);
    assert_eq!(s.toggle_start_menu(), "Start Menu closed.");
    assert!(!s.start_menu.visible);
    let mut api = ShellApi::new();
    assert_eq!(api.open_start_menu(), "Start Menu opened.");
    assert_eq!(api.launch_app("browser", &env()), "Launching Browser...");
}

#[test]
fn shell_initialize_report() {
    let s = Shell::new();
    assert_eq!(
        s.initialize(),
        vec![
            "Initializing Desktop Environment...",
            "Desktop Loaded.",
            "Window Manager Loaded.",
            "Taskbar Loaded.",
            "Start Menu Loaded.",
        ]
    );
}

#[test]
fn start_menu_messages_and_listing() {
    let mut m = StartMenu::new();
    assert_eq!(m.open(), "Start Menu opened.");
    assert!(m.visible);
    assert_eq!(m.close(), "Start Menu closed.");
    assert!(!m.visible);
    m.add_app("Browser");
    m.add_app("Docs");
    assert_eq!(m.list_apps(), vec!["Applications:", "Browser", "Docs"]);
}

#[test]
fn taskbar_add_remove_list() {
    let mut t = Taskbar::new();
    assert!(t.start_button_visible);
    t.add_running_app("Browser");
    t.add_running_app("Docs");
    t.add_running_app("Browser");
    assert_eq!(t.list_running_apps(), vec!["Running Applications:", "Browser", "Docs", "Browser"]);
    t.remove_running_app("Browser");
    assert_eq!(t.running_apps, vec!["Docs".to_string()]);
    t.remove_running_app("Paint");
    assert_eq!(t.running_apps, vec!["Docs".to_string()]);
}

#[test]
fn remove_undoes_add_on_concrete_values() {
    let mut t = Taskbar::new();
    t.add_running_app("Docs");
    let before = t.running_apps.clone();
    t.add_running_app("Browser");
    t.remove_running_app("Browser");
    assert_eq!(t.running_apps, before);
}

#[test]
fn application_manager_find_and_list() {
    let mut m = ApplicationManager::new();
    m.register_app(Application::new("Browser", "browser", "1.0", "Internet"));
    m.register_app(Application::new("Docs", "docs", "2.1", "Productivity"));
    assert_eq!(m.find_app("bRoWsEr").map(|a| a.executable.clone()), Some("browser".to_string()));
    assert!(m.find_app("Paint").is_none());
    assert_eq!(m.list_apps(), vec!["Installed Applications:", "Browser (1.0)", "Docs (2.1)"]);
}

#[test]
fn launch_plans_by_executable() {
    let m = ApplicationManager::new();
    match m.launch_plan("explorer") {
        LaunchPlan::Open(w) => {
            assert_eq!((w.title.as_str(), w.app.as_str(), w.width, w.height), ("File Explorer", "explorer", 820, 540))
        },
        _ => panic!("explorer opens a window"),
    }
    match m.launch_plan("browser") {
        LaunchPlan::Electron(w) => assert_eq!((w.width, w.height), (1100, 700)),
        _ => panic!("browser starts electron"),
    }
    match m.launch_plan("tridocs") {
        LaunchPlan::Docs(w) => assert_eq!(w.title, "TRiDOCS"),
        _ => panic!("docs plan"),
    }
    match m.launch_plan("tridraw") {
        LaunchPlan::Url(u, w) => {
            assert_eq!(u, "https://trimangees.netlify.app/tridraw");
            assert_eq!((w.width, w.height), (900, 600));
        },
        _ => panic!("web page plan"),
    }
    match m.launch_plan("settings") {
        LaunchPlan::Open(w) => assert_eq!((w.width, w.height), (680, 480)),
        _ => panic!("settings opens a window"),
    }
    match m.launch_plan("gimp") {
        LaunchPlan::Program(p) => assert_eq!(p, "gimp"),
        _ => panic!("other programs start"),
    }
}

#[test]
fn desktop_icons_on_grid() {
    let mut d = Desktop::new();
    d.add_icon("Browser", "b.png", "Browser");
    d.add_icon("Docs", "d.png", "Docs");
    let lines = d.list_icons();
    assert_eq!(lines[0], "Desktop Icons:");
    assert_eq!(lines.len(), 3);
    assert!(lines[1].starts_with("Browser at ("));
    assert_ne!((d.icons[0].x, d.icons[0].y), (d.icons[1].x, d.icons[1].y));
}

#[test]
fn explorer_lists_folders_then_files() {
    let mut e = Explorer::new();
    e.add_folder("Music");
    e.add_file("notes", "txt", 42);
    e.add_file("song", "mp3", 0);
    assert_eq!(
        e.list_contents(),
        vec![
            "Current Folder: /",
            "",
            "Folders:",
            "\u{1f4c1} Music",
            "",
            "Files:",
            "\u{1f4c4} notes.txt (42 bytes)",
            "\u{1f4c4} song.mp3 (0 bytes)",
        ]
    );
}

#[test]
fn filesystem_listing_lines() {
    let fs = FilesystemService::new();
    let ok: Result<Vec<Result<String, String>>, String> =
        Ok(vec![Ok("a.txt".to_string()), Err("denied".to_string())]);
    assert_eq!(fs.list_directory("/tmp", &ok), vec!["Listing: /tmp", "a.txt", "Error: denied"]);
    let bad: Result<Vec<Result<String, String>>, String> = Err("No such file".to_string());
    assert_eq!(
        fs.list_directory("/nope", &bad),
        vec!["Listing: /nope", "Cannot open directory.", "No such file"]
    );
}

#[test]
fn boot_report() {
    assert_eq!(BootManager::creation_report(), vec!["Creating Configuration Manager...", "Creating Shell..."]);
    let mut b = BootManager::new();
    let lines = b.boot(&env());
    assert_eq!(lines[1], "==============================");
    assert_eq!(lines[2], "     Trimangees OS Boot");
    assert!(lines.contains(&"[4/5] Testing Application Launch...".to_string()));
    assert!(lines.contains(&"Launching Browser...".to_string()));
    assert!(lines.contains(&"Browser (1.0)".to_string()));
    assert_eq!(lines[lines.len() - 1], "Trimangees OS successfully started.");
}

#[test]
fn terminal_reports_the_next_window_id() {
    let e = env();
    let mut t = Terminal::new();
    assert_eq!(t.next_window_id(), 1);
    t.run_command("help", &e);
    assert_eq!(t.next_window_id(), 1);
    t.run_command("open terminal extra", &e);
    assert_eq!(t.next_window_id(), 2);
}

#[test]
fn terminal_knows_which_lines_open_a_window() {
    let t = Terminal::new();
    assert!(t.opens_window("open terminal"));
    assert!(t.opens_window("  open   BROWSER extra"));
    assert!(!t.opens_window("open paint"));
    assert!(!t.opens_window("open"));
    assert!(!t.opens_window("help"));
    assert!(!t.opens_window(""));
    let a = ShellApi::new();
    assert!(a.finds_app("Docs"));
    assert!(!a.finds_app("docs2"));
}

#[test]
fn launching_an_unknown_app_takes_no_window_id() {
    let mut s = Shell::new();
    let e = env();
    s.window_manager.next_id = u32::MAX;
    assert_eq!(s.launch_app("paint", &e), "Application 'paint' not found.");
    assert_eq!(s.window_manager.windows.len(), 0);
    assert_eq!(s.window_manager.next_id, u32::MAX);
}
