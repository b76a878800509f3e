//! Start-up: the settings and the shell are created, then the boot sequence
//! reports its steps.
use vstd::prelude::*;
use crate::config::{ConfigManager, default_model, settings_lines};
use crate::explorer_state::HostEnv;
use crate::shell::{Shell, app_view, builtin_apps, initialize_lines, launched};
use crate::text::{owned, push_all, push_line, string_views};

verus! {

/// What the boot manager reports while it creates its parts.
pub open spec fn creation_lines() -> Seq<Seq<char>> {
    seq!["Creating Configuration Manager..."@, "Creating Shell..."@]
}

/// The boot manager: the settings and the shell.
pub struct BootManager {
    config_manager: ConfigManager,
    shell: Shell,
}

/// The boot report, given the settings lines, the registered applications
/// lines and the line the test launch reports.
pub open spec fn boot_lines(
    settings: Seq<Seq<char>>,
    apps: Seq<Seq<char>>,
    launch: Seq<char>,
) -> Seq<Seq<char>> {
    let rule = "=============================="@;
    seq![Seq::<char>::empty(), rule, "     Trimangees OS Boot"@, rule, Seq::<char>::empty(), "[1/5] Loading Configuration..."@]
        + settings + seq![Seq::<char>::empty(), "[2/5] Initializing Desktop..."@] + initialize_lines()
        + seq![Seq::<char>::empty(), "[3/5] Registered Applications:"@] + apps + seq![
        Seq::<char>::empty(),
        "[4/5] Testing Application Launch..."@,
        launch,
        Seq::<char>::empty(),
        "[5/5] Boot Complete!"@,
        Seq::<char>::empty(),
        "Trimangees OS successfully started."@,
    ]
}

impl BootManager {
    /// The settings manager, with the default settings.
    pub closed spec fn settings(&self) -> crate::config::ConfigModel {
        self.config_manager.settings()
    }

    /// The shell.
    pub closed spec fn shell(&self) -> Shell {
        self.shell
    }

    /// Creates the settings and the shell; the lines they report are
    /// [`creation_lines`].
    pub fn new() -> (r: Self)
        ensures
            r.settings() == default_model(),
            r.shell().window_manager.windows@.len() == 0,
            r.shell().window_manager.next_id == 1,
            r.shell().application_manager@.map_values(|a: crate::application_manager::Application| app_view(a))
                == builtin_apps(),
            r.shell().taskbar.running_apps@.len() == 0,
            r.shell().taskbar.start_button_visible,
            !r.shell().start_menu.visible,
            r.shell().start_menu.apps@.len() == 0,
            r.shell().desktop.icons@.len() == 0,
    {
        let config_manager = ConfigManager::new();
        let shell = Shell::new();
        BootManager { config_manager, shell }
    }

    /// The lines the boot manager reports while it creates its parts.
    pub fn creation_report() -> (r: Vec<String>)
        ensures
            string_views(r@) == creation_lines(),
    {
        let mut r: Vec<String> = Vec::new();
        push_line(&mut r, owned("Creating Configuration Manager..."));
        push_line(&mut r, owned("Creating Shell..."));
        assert(string_views(r@) =~= creation_lines());
        r
    }

    /// Boots: reports the settings, starts the shell, lists the registered
    /// applications and launches the browser as a test. Returns the report.
    pub fn boot(&mut self, env: &HostEnv) -> (r: Vec<String>)
        requires
            old(self).shell().window_manager.next_id < u32::MAX,
        ensures
            final(self).settings() == old(self).settings(),
            exists|launch: Seq<char>| {
                &&& launched(old(self).shell(), final(self).shell(), "Browser"@, env, launch)
                &&& string_views(r@) == boot_lines(
                    settings_lines(old(self).settings()),
                    seq!["Installed Applications:"@] + old(self).shell().application_manager@.map_values(
                        |a: crate::application_manager::Application| crate::application_manager::app_line(a),
                    ),
                    launch,
                )
            },
    {
        let mut r: Vec<String> = Vec::new();
        push_line(&mut r, String::new());
        push_line(&mut r, owned("=============================="));
        push_line(&mut r, owned("     Trimangees OS Boot"));
        push_line(&mut r, owned("=============================="));
        push_line(&mut r, String::new());
        push_line(&mut r, owned("[1/5] Loading Configuration..."));
        push_all(&mut r, self.config_manager.print_settings());
        push_line(&mut r, String::new());
        push_line(&mut r, owned("[2/5] Initializing Desktop..."));
        push_all(&mut r, self.shell.initialize());
        push_line(&mut r, String::new());
        push_line(&mut r, owned("[3/5] Registered Applications:"));
        push_all(&mut r, self.shell.application_manager.list_apps());
        push_line(&mut r, String::new());
        push_line(&mut r, owned("[4/5] Testing Application Launch..."));
        assert(self.shell == old(self).shell);
        let msg = self.shell.launch_app("Browser", env);
        let ghost launch = msg@;
        assert(launched(old(self).shell(), self.shell(), "Browser"@, env, launch));
        push_line(&mut r, msg);
        push_line(&mut r, String::new());
        push_line(&mut r, owned("[5/5] Boot Complete!"));
        push_line(&mut r, String::new());
        push_line(&mut r, owned("Trimangees OS successfully started."));
        proof {
            assert(string_views(r@) =~= boot_lines(
                settings_lines(old(self).settings()),
                seq!["Installed Applications:"@] + old(self).shell().application_manager@.map_values(
                    |a: crate::application_manager::Application| crate::application_manager::app_line(a),
                ),
                launch,
            ));
        }
        r
    }
}

} // verus!
