//! The shell: the window manager, desktop, taskbar, start menu and installed
//! applications together, and the programmatic interface to it.
use vstd::prelude::*;
use crate::application_manager::{Application, ApplicationManager, app_index};
use crate::desktop::Desktop;
use crate::explorer_state::HostEnv;
use crate::start_menu::{StartMenu, menu_message};
use crate::taskbar::{Taskbar, names_of};
use crate::text::owned;
use crate::window_manager::{WindowManager, Window, new_window_ok};
use vstd::string::StringExecFns;

verus! {

/// The shell's parts.
pub struct Shell {
    pub window_manager: WindowManager,
    pub desktop: Desktop,
    pub taskbar: Taskbar,
    pub start_menu: StartMenu,
    pub application_manager: ApplicationManager,
}

/// The applications the shell installs, as (name, executable, version,
/// category).
pub open spec fn builtin_apps() -> Seq<(Seq<char>, Seq<char>, Seq<char>, Seq<char>)> {
    seq![
        ("Browser"@, "browser"@, "1.0"@, "Internet"@),
        ("Explorer"@, "explorer"@, "1.0"@, "System"@),
        ("Terminal"@, "terminal"@, "1.0"@, "System"@),
        ("Docs"@, "docs"@, "1.0"@, "Productivity"@),
    ]
}

/// An application as plain values.
pub open spec fn app_view(a: Application) -> (Seq<char>, Seq<char>, Seq<char>, Seq<char>) {
    (a.name@, a.executable@, a.version@, a.category@)
}

/// The line reported when `name` is launched.
pub open spec fn launching_message(name: Seq<char>) -> Seq<char> {
    "Launching "@ + name + "..."@
}

/// The line reported when no application is called `name`.
pub open spec fn not_found_message(name: Seq<char>) -> Seq<char> {
    "Application '"@ + name + "' not found."@
}

/// Whether launching `name` on shell `s` opens a window: an installed
/// application has that name, ignoring ASCII case.
pub open spec fn opens_window(s: Shell, name: Seq<char>) -> bool {
    app_index(s.application_manager@, name) != -1
}

/// What launching `name` does to the shell: if an application of that name
/// (up to ASCII case) is installed, a 900 x 700 window of it opens and its
/// name joins the taskbar; otherwise nothing changes. `msg` is the line
/// reported.
pub open spec fn launched(before: Shell, after: Shell, name: Seq<char>, env: &HostEnv, msg: Seq<char>) -> bool {
    let i = app_index(before.application_manager@, name);
    &&& after.application_manager@ == before.application_manager@
    &&& after.desktop == before.desktop
    &&& after.start_menu == before.start_menu
    &&& if i == -1 {
        &&& msg == not_found_message(name)
        &&& after.window_manager == before.window_manager
        &&& after.taskbar == before.taskbar
    } else {
        let app = before.application_manager@[i];
        let ws = before.window_manager.windows@;
        let ws2 = after.window_manager.windows@;
        &&& msg == launching_message(app.name@)
        &&& after.window_manager.next_id == before.window_manager.next_id + 1
        &&& ws2.len() == ws.len() + 1
        &&& ws2.drop_last() == ws
        &&& new_window_ok(
            ws2.last(),
            before.window_manager.next_id,
            app.name@,
            app.executable@,
            900,
            700,
            (ws.len() % 8) as int * 28,
            env,
        )
        &&& names_of(after.taskbar.running_apps@) == names_of(before.taskbar.running_apps@).push(
            app.name@,
        )
        &&& after.taskbar.start_button_visible == before.taskbar.start_button_visible
    }
}

impl Shell {
    /// A shell with the browser, explorer, terminal and docs applications
    /// installed, no window, an empty taskbar and a closed start menu.
    pub fn new() -> (r: Self)
        ensures
            r.application_manager@.map_values(|a: Application| app_view(a)) == builtin_apps(),
            r.window_manager.windows@.len() == 0,
            r.window_manager.next_id == 1,
            r.taskbar.running_apps@.len() == 0,
            r.taskbar.start_button_visible,
            !r.start_menu.visible,
            r.start_menu.apps@.len() == 0,
            r.desktop.icons@.len() == 0,
    {
        let mut application_manager = ApplicationManager::new();
        application_manager.register_app(Application::new("Browser", "browser", "1.0", "Internet"));
        application_manager.register_app(Application::new("Explorer", "explorer", "1.0", "System"));
        application_manager.register_app(Application::new("Terminal", "terminal", "1.0", "System"));
        application_manager.register_app(Application::new("Docs", "docs", "1.0", "Productivity"));
        assert(application_manager@.map_values(|a: Application| app_view(a)) =~= builtin_apps());
        Shell {
            window_manager: WindowManager::new(),
            desktop: Desktop::new(),
            taskbar: Taskbar::new(),
            start_menu: StartMenu::new(),
            application_manager,
        }
    }

    /// Launches the installed application called `app_name` (ignoring ASCII
    /// case): opens a 900 x 700 window of it and adds it to the taskbar.
    /// Returns the line to report.
    pub fn launch_app(&mut self, app_name: &str, env: &HostEnv) -> (msg: String)
        requires
            opens_window(*old(self), app_name@) ==> old(self).window_manager.next_id < u32::MAX,
        ensures
            launched(*old(self), *final(self), app_name@, env, msg@),
    {
        match self.application_manager.find_app(app_name) {
            Some(app) => {
                let mut msg = owned("Launching ");
                msg.append(app.name.as_str());
                msg.append("...");
                let title = app.name.clone();
                let exe = app.executable.clone();
                self.window_manager.create_window(title, exe, 900, 700, env);
                self.taskbar.add_running_app(app.name.as_str());
                msg
            },
            None => {
                let mut msg = owned("Application '");
                msg.append(app_name);
                msg.append("' not found.");
                msg
            },
        }
    }

    /// Opens or closes the start menu; returns the line to report.
    pub fn toggle_start_menu(&mut self) -> (msg: String)
        ensures
            final(self).start_menu.visible == !old(self).start_menu.visible,
            final(self).start_menu.apps == old(self).start_menu.apps,
            msg@ == menu_message(final(self).start_menu.visible),
            final(self).window_manager == old(self).window_manager,
            final(self).desktop == old(self).desktop,
            final(self).taskbar == old(self).taskbar,
            final(self).application_manager == old(self).application_manager,
    {
        self.start_menu.toggle()
    }
}

/// The programmatic interface to a shell.
pub struct ShellApi {
    shell: Shell,
}

impl ShellApi {
    /// The shell behind this interface.
    pub closed spec fn shell(&self) -> Shell {
        self.shell
    }

    /// An interface to a new shell.
    pub fn new() -> (r: Self)
        ensures
            r.shell().application_manager@.map_values(|a: Application| app_view(a))
                == builtin_apps(),
            r.shell().window_manager.windows@.len() == 0,
            r.shell().window_manager.next_id == 1,
            r.shell().taskbar.running_apps@.len() == 0,
            !r.shell().start_menu.visible,
    {
        ShellApi { shell: Shell::new() }
    }

    /// The id the shell's next window gets.
    pub fn next_window_id(&self) -> (r: u32)
        ensures
            r == self.shell().window_manager.next_id,
    {
        self.shell.window_manager.next_id
    }

    /// Whether launching `app_name` opens a window: an installed
    /// application has that name, ignoring ASCII case.
    pub fn finds_app(&self, app_name: &str) -> (r: bool)
        ensures
            r == opens_window(self.shell(), app_name@),
    {
        self.shell.application_manager.find_app(app_name).is_some()
    }

    /// Launches an application by name; returns the line to report.
    pub fn launch_app(&mut self, app_name: &str, env: &HostEnv) -> (msg: String)
        requires
            opens_window(old(self).shell(), app_name@) ==> old(self).shell().window_manager.next_id
                < u32::MAX,
        ensures
            launched(old(self).shell(), final(self).shell(), app_name@, env, msg@),
    {
        self.shell.launch_app(app_name, env)
    }

    /// Opens or closes the start menu; returns the line to report.
    pub fn open_start_menu(&mut self) -> (msg: String)
        ensures
            final(self).shell().start_menu.visible == !old(self).shell().start_menu.visible,
            msg@ == menu_message(final(self).shell().start_menu.visible),
            final(self).shell().window_manager == old(self).shell().window_manager,
            final(self).shell().taskbar == old(self).shell().taskbar,
    {
        self.shell.toggle_start_menu()
    }
}

} // verus!

verus! {

/// What the shell reports while it starts.
pub open spec fn initialize_lines() -> Seq<Seq<char>> {
    seq![
        "Initializing Desktop Environment..."@,
        "Desktop Loaded."@,
        "Window Manager Loaded."@,
        "Taskbar Loaded."@,
        "Start Menu Loaded."@,
    ]
}

impl Shell {
    /// The lines the shell reports while it starts.
    pub fn initialize(&self) -> (r: Vec<String>)
        ensures
            crate::text::string_views(r@) == initialize_lines(),
    {
        let mut r: Vec<String> = Vec::new();
        crate::text::push_line(&mut r, owned("Initializing Desktop Environment..."));
        crate::text::push_line(&mut r, owned("Desktop Loaded."));
        crate::text::push_line(&mut r, owned("Window Manager Loaded."));
        crate::text::push_line(&mut r, owned("Taskbar Loaded."));
        crate::text::push_line(&mut r, owned("Start Menu Loaded."));
        assert(crate::text::string_views(r@) =~= initialize_lines());
        r
    }
}

} // verus!
