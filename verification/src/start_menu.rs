//! The shell's start menu: whether it is open, and the applications pinned
//! to it.
use vstd::prelude::*;
use crate::text::owned;
use crate::taskbar::names_of;

verus! {

/// The start menu.
pub struct StartMenu {
    pub visible: bool,
    pub apps: Vec<String>,
}

/// What the start menu reports when it opens or closes.
pub open spec fn menu_message(visible: bool) -> Seq<char> {
    if visible { "Start Menu opened."@ } else { "Start Menu closed."@ }
}

impl StartMenu {
    /// A closed start menu with no application.
    pub fn new() -> (r: Self)
        ensures
            !r.visible,
            r.apps@.len() == 0,
    {
        StartMenu { visible: false, apps: Vec::new() }
    }

    /// Opens the menu; returns the line to report.
    pub fn open(&mut self) -> (msg: String)
        ensures
            final(self).visible,
            final(self).apps == old(self).apps,
            msg@ == menu_message(true),
    {
        self.visible = true;
        owned("Start Menu opened.")
    }

    /// Closes the menu; returns the line to report.
    pub fn close(&mut self) -> (msg: String)
        ensures
            !final(self).visible,
            final(self).apps == old(self).apps,
            msg@ == menu_message(false),
    {
        self.visible = false;
        owned("Start Menu closed.")
    }

    /// Opens the menu if it is closed and closes it if it is open; returns
    /// the line to report.
    pub fn toggle(&mut self) -> (msg: String)
        ensures
            final(self).visible == !old(self).visible,
            final(self).apps == old(self).apps,
            msg@ == menu_message(final(self).visible),
    {
        self.visible = !self.visible;
        if self.visible {
            owned("Start Menu opened.")
        } else {
            owned("Start Menu closed.")
        }
    }

    /// Pins an application after the others.
    pub fn add_app(&mut self, app_name: &str)
        ensures
            names_of(final(self).apps@) == names_of(old(self).apps@).push(app_name@),
            final(self).visible == old(self).visible,
    {
        let ghost before = self.apps@;
        self.apps.push(owned(app_name));
        assert(names_of(self.apps@) =~= names_of(before).push(app_name@));
    }
}

} // verus!

verus! {

impl StartMenu {
    /// The lines listing the menu's applications: a header, then one name
    /// per line.
    pub fn list_apps(&self) -> (r: Vec<String>)
        ensures
            crate::text::string_views(r@) == seq!["Applications:"@] + names_of(self.apps@),
    {
        crate::text::header_and_lines("Applications:", &self.apps)
    }
}

} // verus!
