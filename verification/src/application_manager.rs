//! Installed applications: registering them, finding one by name, and
//! deciding how an executable is launched.
use vstd::prelude::*;
use crate::text::{owned, str_eq, str_eq_ignore_ascii_case, eq_ignore_ascii_case};

verus! {

/// An installed application.
pub struct Application {
    pub name: String,
    pub executable: String,
    pub version: String,
    pub category: String,
}

impl Application {
    /// An application with the given name, executable, version and category.
    pub fn new(name: &str, executable: &str, version: &str, category: &str) -> (r: Self)
        ensures
            r.name@ == name@,
            r.executable@ == executable@,
            r.version@ == version@,
            r.category@ == category@,
    {
        Application {
            name: owned(name),
            executable: owned(executable),
            version: owned(version),
            category: owned(category),
        }
    }
}

/// Index of the first application whose name equals `name` up to ASCII
/// case, or -1.
pub open spec fn app_index(apps: Seq<Application>, name: Seq<char>) -> int {
    if exists|i: int| 0 <= i < apps.len() && eq_ignore_ascii_case(apps[i].name@, name) {
        choose|i: int|
            0 <= i < apps.len() && eq_ignore_ascii_case(apps[i].name@, name) && forall|j: int|
                0 <= j < i ==> !eq_ignore_ascii_case(apps[j].name@, name)
    } else {
        -1
    }
}

proof fn lemma_least_app(apps: Seq<Application>, name: Seq<char>, k: int)
    requires
        0 <= k < apps.len(),
        eq_ignore_ascii_case(apps[k].name@, name),
    ensures
        exists|i: int|
            0 <= i < apps.len() && eq_ignore_ascii_case(apps[i].name@, name) && forall|j: int|
                0 <= j < i ==> !eq_ignore_ascii_case(apps[j].name@, name),
    decreases k,
{
    if forall|j: int| 0 <= j < k ==> !eq_ignore_ascii_case(apps[j].name@, name) {
    } else {
        let k2 = choose|j: int| 0 <= j < k && eq_ignore_ascii_case(apps[j].name@, name);
        lemma_least_app(apps, name, k2);
    }
}

/// The first match is the least index whose name matches.
pub proof fn lemma_app_index(apps: Seq<Application>, name: Seq<char>)
    ensures
        app_index(apps, name) == -1 <==> forall|j: int|
            0 <= j < apps.len() ==> !eq_ignore_ascii_case(apps[j].name@, name),
        app_index(apps, name) != -1 ==> {
            let i = app_index(apps, name);
            &&& 0 <= i < apps.len()
            &&& eq_ignore_ascii_case(apps[i].name@, name)
            &&& forall|j: int| 0 <= j < i ==> !eq_ignore_ascii_case(apps[j].name@, name)
        },
{
    if exists|i: int| 0 <= i < apps.len() && eq_ignore_ascii_case(apps[i].name@, name) {
        let k = choose|i: int| 0 <= i < apps.len() && eq_ignore_ascii_case(apps[i].name@, name);
        lemma_least_app(apps, name, k);
    }
}

/// The installed applications, in the order they were registered.
pub struct ApplicationManager {
    applications: Vec<Application>,
}

impl View for ApplicationManager {
    type V = Seq<Application>;

    closed spec fn view(&self) -> Seq<Application> {
        self.applications@
    }
}

impl ApplicationManager {
    /// No application installed.
    pub fn new() -> (r: Self)
        ensures
            r@ == Seq::<Application>::empty(),
    {
        ApplicationManager { applications: Vec::new() }
    }

    /// Installs an application after the others.
    pub fn register_app(&mut self, app: Application)
        ensures
            final(self)@ == old(self)@.push(app),
    {
        self.applications.push(app);
    }

    /// The first installed application whose name equals `name`, ignoring
    /// the case of ASCII letters.
    pub fn find_app(&self, name: &str) -> (r: Option<&Application>)
        ensures
            ({
                let i = app_index(self@, name@);
                r == if i == -1 { None } else { Some(&self@[i]) }
            }),
    {
        proof {
            lemma_app_index(self@, name@);
        }
        let mut i: usize = 0;
        while i < self.applications.len()
            invariant
                i <= self@.len(),
                self@ == self.applications@,
                forall|j: int| 0 <= j < i ==> !eq_ignore_ascii_case(self@[j].name@, name@),
            decreases self@.len() - i,
        {
            if str_eq_ignore_ascii_case(self.applications[i].name.as_str(), name) {
                return Some(&self.applications[i]);
            }
            i = i + 1;
        }
        None
    }
}

/// A window to open: title, app and size.
pub struct WindowSpec {
    pub title: String,
    pub app: String,
    pub width: u32,
    pub height: u32,
}

/// How an executable is launched.
pub enum LaunchPlan {
    /// Open a shell window.
    Open(WindowSpec),
    /// Start the Electron browser; open the window if it cannot be started.
    Electron(WindowSpec),
    /// Open the local documents page, or the web site when it is missing;
    /// open the window if neither can be opened.
    Docs(WindowSpec),
    /// Open a web page in the system browser; open the window if it cannot.
    Url(String, WindowSpec),
    /// Start the executable as a system program.
    Program(String),
}

/// A window spec as plain values.
pub open spec fn spec_of(w: WindowSpec) -> (Seq<char>, Seq<char>, u32, u32) {
    (w.title@, w.app@, w.width, w.height)
}

/// The plan for launching `exe`, as plain values: the kind (0 open, 1
/// Electron, 2 documents, 3 web page, 4 program), the web address or
/// program, and the window to open.
pub open spec fn plan_for(exe: Seq<char>) -> (int, Seq<char>, (Seq<char>, Seq<char>, u32, u32)) {
    if exe == "explorer"@ {
        (0, Seq::empty(), ("File Explorer"@, "explorer"@, 820, 540))
    } else if exe == "browser"@ {
        (1, Seq::empty(), ("Trimangees Browser"@, "browser"@, 1100, 700))
    } else if exe == "terminal"@ {
        (0, Seq::empty(), ("Terminal"@, "terminal"@, 720, 420))
    } else if exe == "tridocs"@ {
        (2, Seq::empty(), ("TRiDOCS"@, "tridocs"@, 900, 600))
    } else if exe == "trisheets"@ {
        (3, "https://trimangees.netlify.app/trisheets"@, ("TRiSHEETS"@, "trisheets"@, 900, 600))
    } else if exe == "trislides"@ {
        (3, "https://trimangees.netlify.app/trislides"@, ("TRiSLIDES"@, "trislides"@, 900, 600))
    } else if exe == "tridraw"@ {
        (3, "https://trimangees.netlify.app/tridraw"@, ("TRiDRAW"@, "tridraw"@, 900, 600))
    } else if exe == "settings"@ {
        (0, Seq::empty(), ("Settings"@, "settings"@, 680, 480))
    } else {
        (4, exe, (Seq::empty(), Seq::empty(), 0, 0))
    }
}

/// The plain values of a plan.
pub open spec fn plan_view(p: LaunchPlan) -> (int, Seq<char>, (Seq<char>, Seq<char>, u32, u32)) {
    match p {
        LaunchPlan::Open(w) => (0, Seq::empty(), spec_of(w)),
        LaunchPlan::Electron(w) => (1, Seq::empty(), spec_of(w)),
        LaunchPlan::Docs(w) => (2, Seq::empty(), spec_of(w)),
        LaunchPlan::Url(u, w) => (3, u@, spec_of(w)),
        LaunchPlan::Program(e) => (4, e@, (Seq::empty(), Seq::empty(), 0, 0)),
    }
}

fn window_spec(title: &str, app: &str, width: u32, height: u32) -> (r: WindowSpec)
    ensures
        spec_of(r) == (title@, app@, width, height),
{
    WindowSpec { title: owned(title), app: owned(app), width, height }
}

impl ApplicationManager {
    /// How to launch `executable`: the shell's own apps open a window of
    /// their size, the browser starts Electron, the office apps open in the
    /// system browser with a window as fallback, and anything else is
    /// started as a program.
    pub fn launch_plan(&self, executable: &str) -> (r: LaunchPlan)
        ensures
            plan_view(r) == plan_for(executable@),
    {
        if str_eq(executable, "explorer") {
            LaunchPlan::Open(window_spec("File Explorer", "explorer", 820, 540))
        } else if str_eq(executable, "browser") {
            LaunchPlan::Electron(window_spec("Trimangees Browser", "browser", 1100, 700))
        } else if str_eq(executable, "terminal") {
            LaunchPlan::Open(window_spec("Terminal", "terminal", 720, 420))
        } else if str_eq(executable, "tridocs") {
            LaunchPlan::Docs(window_spec("TRiDOCS", "tridocs", 900, 600))
        } else if str_eq(executable, "trisheets") {
            LaunchPlan::Url(
                owned("https://trimangees.netlify.app/trisheets"),
                window_spec("TRiSHEETS", "trisheets", 900, 600),
            )
        } else if str_eq(executable, "trislides") {
            LaunchPlan::Url(
                owned("https://trimangees.netlify.app/trislides"),
                window_spec("TRiSLIDES", "trislides", 900, 600),
            )
        } else if str_eq(executable, "tridraw") {
            LaunchPlan::Url(
                owned("https://trimangees.netlify.app/tridraw"),
                window_spec("TRiDRAW", "tridraw", 900, 600),
            )
        } else if str_eq(executable, "settings") {
            LaunchPlan::Open(window_spec("Settings", "settings", 680, 480))
        } else {
            LaunchPlan::Program(owned(executable))
        }
    }
}

} // verus!

verus! {

/// How an installed application is listed: its name and, in parentheses,
/// its version.
pub open spec fn app_line(a: Application) -> Seq<char> {
    a.name@ + " ("@ + a.version@ + ")"@
}

impl ApplicationManager {
    /// The lines listing the installed applications: a header, then one
    /// application per line.
    pub fn list_apps(&self) -> (r: Vec<String>)
        ensures
            crate::text::string_views(r@) == seq!["Installed Applications:"@] + self@.map_values(
                |a: Application| app_line(a),
            ),
    {
        let mut r: Vec<String> = Vec::new();
        crate::text::push_line(&mut r, owned("Installed Applications:"));
        let mut k: usize = 0;
        while k < self.applications.len()
            invariant
                k <= self@.len(),
                self@ == self.applications@,
                crate::text::string_views(r@) == seq!["Installed Applications:"@] + self@.take(k as int).map_values(
                    |a: Application| app_line(a),
                ),
            decreases self@.len() - k,
        {
            let a = &self.applications[k];
            let mut line = crate::text::concat(a.name.as_str(), " (");
            crate::text::append(&mut line, a.version.as_str());
            crate::text::append(&mut line, ")");
            crate::text::push_line(&mut r, line);
            assert(self@.take(k + 1).map_values(|a: Application| app_line(a)) =~= self@.take(k as int).map_values(
                |a: Application| app_line(a),
            ).push(app_line(self@[k as int])));
            k = k + 1;
        }
        assert(self@.take(k as int) =~= self@);
        r
    }
}

} // verus!
