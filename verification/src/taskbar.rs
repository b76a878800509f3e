//! The taskbar's list of running applications.
use vstd::prelude::*;
use crate::text::{owned, str_eq};

verus! {

/// The plain values of a list of strings.
pub open spec fn names_of(v: Seq<String>) -> Seq<Seq<char>> {
    v.map_values(|s: String| s@)
}

/// The taskbar: the names of the running applications, oldest first.
pub struct Taskbar {
    pub running_apps: Vec<String>,
    pub start_button_visible: bool,
}

impl Taskbar {
    /// A taskbar with no running application and a visible start button.
    pub fn new() -> (r: Self)
        ensures
            r.running_apps@.len() == 0,
            r.start_button_visible,
    {
        Taskbar { running_apps: Vec::new(), start_button_visible: true }
    }

    /// Adds an application after the running ones.
    pub fn add_running_app(&mut self, app_name: &str)
        ensures
            names_of(final(self).running_apps@) == names_of(old(self).running_apps@).push(app_name@),
            final(self).start_button_visible == old(self).start_button_visible,
    {
        let ghost before = self.running_apps@;
        self.running_apps.push(owned(app_name));
        assert(names_of(self.running_apps@) =~= names_of(before).push(app_name@));
    }

    /// Removes every running application named `app_name`; the others keep
    /// their order.
    pub fn remove_running_app(&mut self, app_name: &str)
        ensures
            names_of(final(self).running_apps@) == names_of(old(self).running_apps@).filter(
                |s: Seq<char>| s != app_name@,
            ),
            final(self).start_button_visible == old(self).start_button_visible,
    {
        let ghost p = |s: Seq<char>| s != app_name@;
        let ghost ws = names_of(self.running_apps@);
        let n = self.running_apps.len();
        let mut rest: Vec<String> = Vec::new();
        std::mem::swap(&mut rest, &mut self.running_apps);
        let mut k: usize = 0;
        assert(ws.take(0).filter(p) =~= Seq::<Seq<char>>::empty());
        assert(names_of(self.running_apps@) =~= Seq::<Seq<char>>::empty());
        while rest.len() > 0
            invariant
                k <= ws.len(),
                k + rest@.len() == ws.len(),
                ws.len() == n,
                p == (|s: Seq<char>| s != app_name@),
                names_of(rest@) == ws.skip(k as int),
                names_of(self.running_apps@) == ws.take(k as int).filter(p),
                self.start_button_visible == old(self).start_button_visible,
            decreases rest@.len(),
        {
            let ghost old_rest = rest@;
            let w = rest.remove(0);
            let ghost before = self.running_apps@;
            proof {
                assert(rest@ =~= old_rest.skip(1));
                assert(names_of(rest@) =~= names_of(old_rest).skip(1));
                assert(ws.skip(k as int).skip(1) =~= ws.skip(k + 1));
                assert(names_of(old_rest)[0] == old_rest[0]@);
                assert(ws.skip(k as int)[0] == ws[k as int]);
                assert(w@ == ws[k as int]);
                let s1 = ws.take(k + 1);
                assert(s1.len() > 0);
                reveal_with_fuel(Seq::filter, 1);
                assert(s1.drop_last() =~= ws.take(k as int));
                assert(s1.last() == w@);
                assert(s1.filter(p) == (if p(s1.last()) {
                    s1.drop_last().filter(p).push(s1.last())
                } else {
                    s1.drop_last().filter(p)
                }));
            }
            if !str_eq(w.as_str(), app_name) {
                self.running_apps.push(w);
                assert(names_of(self.running_apps@) =~= names_of(before).push(w@));
            }
            k = k + 1;
        }
        assert(ws.take(k as int) =~= ws);
    }
}

} // verus!

verus! {

impl Taskbar {
    /// The lines listing the running applications: a header, then one name
    /// per line.
    pub fn list_running_apps(&self) -> (r: Vec<String>)
        ensures
            crate::text::string_views(r@) == seq!["Running Applications:"@] + names_of(self.running_apps@),
    {
        crate::text::header_and_lines("Running Applications:", &self.running_apps)
    }
}

} // verus!

verus! {

/// Removing an application that was just added, when it was not running
/// before, gives back the list as it was.
pub proof fn lemma_remove_undoes_add(names: Seq<Seq<char>>, app: Seq<char>)
    requires
        !names.contains(app),
    ensures
        names.push(app).filter(|s: Seq<char>| s != app) == names,
    decreases names.len(),
{
    let p = |s: Seq<char>| s != app;
    reveal_with_fuel(Seq::filter, 1);
    assert(names.push(app).drop_last() =~= names);
    lemma_filter_keeps_all(names, app);
}

/// Filtering out a name that does not occur keeps the list.
proof fn lemma_filter_keeps_all(names: Seq<Seq<char>>, app: Seq<char>)
    requires
        !names.contains(app),
    ensures
        names.filter(|s: Seq<char>| s != app) == names,
    decreases names.len(),
{
    reveal_with_fuel(Seq::filter, 1);
    if names.len() > 0 {
        let rest = names.drop_last();
        assert(!rest.contains(app)) by {
            if rest.contains(app) {
                let k = choose|k: int| 0 <= k < rest.len() && rest[k] == app;
                assert(names[k] == app);
            }
        }
        lemma_filter_keeps_all(rest, app);
        assert(names.last() != app) by {
            assert(names[names.len() - 1] == names.last());
        }
        assert(rest.push(names.last()) =~= names);
    }
}

} // verus!
