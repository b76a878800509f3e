//! State of the file browser window (the folder it shows, its listing and
//! its back/forward history) and of the settings window.
use vstd::prelude::*;
use crate::text::{
    chars_le, chars_of, lowercased, owned, parent_of_path, path_parent, str_le,
    string_from_chars, to_lowercase, trim, trimmed,
};

verus! {

broadcast use vstd::string::group_string_axioms;

/// One directory entry as the host reports it.
pub struct DirItem {
    pub name: String,
    pub is_dir: bool,
    pub size: u64,
}

/// What the host tells the shell when a window opens: the home folder and
/// its listing (`None` when it cannot be read), the contents of the host
/// name file (`None` when it cannot be read), and the `HOME` variable
/// (`None` when it is not set).
pub struct HostEnv {
    pub home: String,
    pub home_listing: Option<Vec<DirItem>>,
    pub hostname_file: Option<String>,
    pub home_var: Option<String>,
}

/// One row of the file browser.
pub struct FileEntry {
    pub name: String,
    pub is_dir: bool,
    pub size: u64,
    pub ext: String,
}

/// A row of the file browser as plain values: name, folder flag, size and
/// lower-case extension.
pub type Row = (Seq<char>, bool, u64, Seq<char>);

/// The plain values of a row.
pub open spec fn row_of(e: FileEntry) -> Row {
    (e.name@, e.is_dir, e.size, e.ext@)
}

/// The plain values of a list of rows.
pub open spec fn rows_of(v: Seq<FileEntry>) -> Seq<Row> {
    v.map_values(|e: FileEntry| row_of(e))
}

/// Hidden entries: those whose name starts with a dot.
pub open spec fn is_hidden(name: Seq<char>) -> bool {
    name.len() > 0 && name[0] == '.'
}

/// Index of the last `.` in `name`, or -1.
pub open spec fn last_dot(name: Seq<char>) -> int
    decreases name.len(),
{
    if name.len() == 0 {
        -1
    } else if name.last() == '.' {
        name.len() - 1
    } else {
        last_dot(name.drop_last())
    }
}

/// The extension of a file name that holds no `/`, as
/// `std::path::Path::extension` finds it: the text after the last dot,
/// unless that dot starts the name; empty when there is none.
pub open spec fn extension_of(name: Seq<char>) -> Seq<char> {
    let d = last_dot(name);
    if d > 0 {
        name.skip(d + 1)
    } else {
        Seq::empty()
    }
}

/// The row the browser shows for a directory entry.
pub open spec fn row_for(d: DirItem) -> Row {
    (d.name@, d.is_dir, d.size, lowercased(extension_of(d.name@)))
}

/// The rows for the visible entries of `items` that are folders (when
/// `dirs`) or files (when `!dirs`), in the order the host gave them.
pub open spec fn rows_for(items: Seq<DirItem>, dirs: bool) -> Seq<Row>
    decreases items.len(),
{
    if items.len() == 0 {
        Seq::empty()
    } else {
        let r = rows_for(items.drop_last(), dirs);
        let d = items.last();
        if !is_hidden(d.name@) && d.is_dir == dirs {
            r.push(row_for(d))
        } else {
            r
        }
    }
}

/// Rows are ordered by name.
pub open spec fn row_le(a: Row, b: Row) -> bool {
    chars_le(a.0, b.0)
}

/// `s` with `x` inserted after every row whose name is not greater than
/// `x`'s: one step of a stable sort by name.
pub open spec fn insert_row(s: Seq<Row>, x: Row) -> Seq<Row>
    decreases s.len(),
{
    if s.len() == 0 {
        seq![x]
    } else if row_le(s.last(), x) {
        s.push(x)
    } else {
        insert_row(s.drop_last(), x).push(s.last())
    }
}

/// `s` stably sorted by name, as `sort_by` on the names orders it.
pub open spec fn sort_rows(s: Seq<Row>) -> Seq<Row>
    decreases s.len(),
{
    if s.len() == 0 {
        s
    } else {
        insert_row(sort_rows(s.drop_last()), s.last())
    }
}

/// What the browser lists for a folder's entries: hidden entries left out,
/// folders first, each group sorted by name.
pub open spec fn listing_rows(items: Seq<DirItem>) -> Seq<Row> {
    sort_rows(rows_for(items, true)) + sort_rows(rows_for(items, false))
}

/// Inserting `x` at `j`, where every row from `j` on is greater than `x`
/// and the row before `j` is not, is [`insert_row`].
pub proof fn lemma_insert_row_at(s: Seq<Row>, x: Row, j: int)
    requires
        0 <= j <= s.len(),
        forall|k: int| j <= k < s.len() ==> !row_le(#[trigger] s[k], x),
        j == 0 || row_le(s[j - 1], x),
    ensures
        insert_row(s, x) == s.take(j).push(x) + s.skip(j),
    decreases s.len(),
{
    if s.len() == 0 {
        assert(s.take(j).push(x) + s.skip(j) =~= seq![x]);
    } else if j == s.len() {
        assert(s.take(j).push(x) + s.skip(j) =~= s.push(x));
    } else {
        let t = s.drop_last();
        lemma_insert_row_at(t, x, j);
        assert(t.take(j).push(x) + t.skip(j) + seq![s.last()] =~= s.take(j).push(x) + s.skip(j));
    }
}

/// Rows in order by name.
pub open spec fn rows_sorted(s: Seq<Row>) -> bool {
    forall|i: int, j: int| 0 <= i < j < s.len() ==> row_le(#[trigger] s[i], #[trigger] s[j])
}

/// Inserting a row into sorted rows keeps them sorted and adds just that
/// row.
proof fn lemma_insert_row_sorted(s: Seq<Row>, x: Row)
    requires
        rows_sorted(s),
    ensures
        rows_sorted(insert_row(s, x)),
        insert_row(s, x).to_multiset() == s.to_multiset().insert(x),
    decreases s.len(),
{
    broadcast use vstd::seq_lib::group_to_multiset_ensures;
    if s.len() == 0 {
        assert(seq![x] == Seq::<Row>::empty().push(x));
    } else if row_le(s.last(), x) {
        let r = s.push(x);
        assert forall|i: int, j: int| 0 <= i < j < r.len() implies row_le(#[trigger] r[i], #[trigger] r[j]) by {
            if j == s.len() {
                if i < s.len() - 1 {
                    crate::text::lemma_chars_le_trans(s[i].0, s.last().0, x.0);
                }
            } else {
                assert(r[i] == s[i] && r[j] == s[j]);
            }
        }
    } else {
        let dl = s.drop_last();
        let last = s.last();
        assert(rows_sorted(dl)) by {
            assert forall|i: int, j: int| 0 <= i < j < dl.len() implies row_le(#[trigger] dl[i], #[trigger] dl[j]) by {
                assert(dl[i] == s[i] && dl[j] == s[j]);
            }
        }
        lemma_insert_row_sorted(dl, x);
        let t = insert_row(dl, x);
        crate::text::lemma_chars_le_total(last.0, x.0);
        assert forall|k: int| 0 <= k < t.len() implies row_le(#[trigger] t[k], last) by {
            assert(t.contains(t[k]));
            assert(t.to_multiset().count(t[k]) > 0);
            if t[k] != x {
                assert(dl.to_multiset().count(t[k]) > 0);
                assert(dl.contains(t[k]));
                let m = choose|m: int| 0 <= m < dl.len() && dl[m] == t[k];
                assert(s[m] == dl[m]);
                assert(row_le(s[m], s[s.len() - 1]));
            }
        }
        let r = t.push(last);
        assert forall|i: int, j: int| 0 <= i < j < r.len() implies row_le(#[trigger] r[i], #[trigger] r[j]) by {
            if j == t.len() {
                assert(r[i] == t[i]);
            } else {
                assert(r[i] == t[i] && r[j] == t[j]);
            }
        }
        assert(s == dl.push(last));
        assert(t.push(last).to_multiset() =~= t.to_multiset().insert(last));
        assert(s.to_multiset() =~= dl.to_multiset().insert(last));
        assert(r.to_multiset() =~= s.to_multiset().insert(x));
    }
}

/// Sorting rows gives them in order by name, and keeps each row as often
/// as it was there.
proof fn lemma_sort_rows(s: Seq<Row>)
    ensures
        rows_sorted(sort_rows(s)),
        sort_rows(s).to_multiset() == s.to_multiset(),
    decreases s.len(),
{
    broadcast use vstd::seq_lib::group_to_multiset_ensures;
    if s.len() > 0 {
        lemma_sort_rows(s.drop_last());
        lemma_insert_row_sorted(sort_rows(s.drop_last()), s.last());
        assert(s == s.drop_last().push(s.last()));
    }
}

/// The rows for the folders or the files are all folders, or all files.
proof fn lemma_rows_for_kind(items: Seq<DirItem>, dirs: bool)
    ensures
        forall|k: int| 0 <= k < rows_for(items, dirs).len() ==> (#[trigger] rows_for(items, dirs)[k]).1 == dirs,
    decreases items.len(),
{
    if items.len() > 0 {
        let r = rows_for(items.drop_last(), dirs);
        lemma_rows_for_kind(items.drop_last(), dirs);
        let d = items.last();
        if !is_hidden(d.name@) && d.is_dir == dirs {
            assert forall|k: int| 0 <= k < r.push(row_for(d)).len() implies (#[trigger] r.push(row_for(d))[k]).1
                == dirs by {
                if k < r.len() {
                    assert(r.push(row_for(d))[k] == r[k]);
                }
            }
        }
    }
}

/// The browser's listing of a folder holds each visible entry's row once
/// (the folders' rows, then the files'), folders first, each group in
/// order by name.
pub proof fn lemma_listing_sorted_folders_first(items: Seq<DirItem>)
    ensures
        ({
            let f = rows_for(items, true);
            let g = rows_for(items, false);
            let l = listing_rows(items);
            &&& l.to_multiset() == f.to_multiset().add(g.to_multiset())
            &&& l.len() == f.len() + g.len()
            &&& forall|k: int| 0 <= k < f.len() ==> (#[trigger] l[k]).1
            &&& forall|k: int| f.len() <= k < l.len() ==> !(#[trigger] l[k]).1
            &&& forall|i: int, j: int| 0 <= i < j < f.len() ==> row_le(#[trigger] l[i], #[trigger] l[j])
            &&& forall|i: int, j: int| f.len() <= i < j < l.len() ==> row_le(#[trigger] l[i], #[trigger] l[j])
        }),
{
    broadcast use vstd::seq_lib::group_to_multiset_ensures;
    let f = rows_for(items, true);
    let g = rows_for(items, false);
    let sf = sort_rows(f);
    let sg = sort_rows(g);
    let l = listing_rows(items);
    lemma_sort_rows(f);
    lemma_sort_rows(g);
    lemma_rows_for_kind(items, true);
    lemma_rows_for_kind(items, false);
    vstd::seq_lib::lemma_multiset_commutative(sf, sg);
    assert(sf.len() == f.len()) by {
        assert(sf.to_multiset().len() == f.to_multiset().len());
    }
    assert(sg.len() == g.len()) by {
        assert(sg.to_multiset().len() == g.to_multiset().len());
    }
    assert forall|k: int| 0 <= k < f.len() implies (#[trigger] l[k]).1 by {
        assert(l[k] == sf[k]);
        assert(sf.contains(sf[k]));
        assert(f.to_multiset().count(sf[k]) > 0);
        let m = choose|m: int| 0 <= m < f.len() && f[m] == sf[k];
    }
    assert forall|k: int| f.len() <= k < l.len() implies !(#[trigger] l[k]).1 by {
        assert(l[k] == sg[k - f.len()]);
        assert(sg.contains(sg[k - f.len()]));
        assert(g.to_multiset().count(sg[k - f.len()]) > 0);
        let m = choose|m: int| 0 <= m < g.len() && g[m] == sg[k - f.len()];
    }
    assert forall|i: int, j: int| 0 <= i < j < f.len() implies row_le(#[trigger] l[i], #[trigger] l[j]) by {
        assert(l[i] == sf[i] && l[j] == sf[j]);
    }
    assert forall|i: int, j: int| f.len() <= i < j < l.len() implies row_le(#[trigger] l[i], #[trigger] l[j]) by {
        assert(l[i] == sg[i - f.len()] && l[j] == sg[j - f.len()]);
    }
}

/// The index of the last `.` in a list of characters, or -1.
fn last_dot_index(cs: &Vec<char>) -> (r: Option<usize>)
    ensures
        r is None ==> last_dot(cs@) == -1,
        r matches Some(d) ==> d == last_dot(cs@) && d < cs@.len(),
{
    let mut k = cs.len();
    assert(cs@.take(cs@.len() as int) =~= cs@);
    while k > 0
        invariant
            k <= cs@.len(),
            last_dot(cs@) == last_dot(cs@.take(k as int)),
        decreases k,
    {
        assert(cs@.take(k as int).drop_last() =~= cs@.take(k - 1));
        if cs[k - 1] == '.' {
            return Some(k - 1);
        }
        k = k - 1;
    }
    None
}

/// The lower-case extension of a file name.
fn extension_lower(name: &String) -> (r: String)
    ensures
        r@ == lowercased(extension_of(name@)),
{
    let cs = chars_of(name.as_str());
    let n = cs.len();
    let found = last_dot_index(&cs);
    let ext = match found {
        Some(d) if d > 0 => {
            assert(d < n);
            let e = string_from_chars(&cs, d + 1, n);
            assert(e@ =~= cs@.skip(d + 1));
            e
        },
        _ => String::new(),
    };
    let r = to_lowercase(ext.as_str());
    r
}

} // verus!

verus! {

/// The file browser row for a directory entry.
fn entry_for(d: &DirItem) -> (r: FileEntry)
    ensures
        row_of(r) == row_for(*d),
{
    FileEntry { name: d.name.clone(), is_dir: d.is_dir, size: d.size, ext: extension_lower(&d.name) }
}

/// Sorts rows by name, stably.
fn sort_by_name(v: Vec<FileEntry>) -> (r: Vec<FileEntry>)
    ensures
        rows_of(r@) == sort_rows(rows_of(v@)),
{
    let ghost vs = rows_of(v@);
    let n = v.len();
    let mut src = v;
    let mut out: Vec<FileEntry> = Vec::new();
    let mut k: usize = 0;
    assert(sort_rows(vs.take(0)) =~= rows_of(out@));
    while src.len() > 0
        invariant
            k <= n == vs.len(),
            k + src@.len() == n,
            rows_of(src@) == vs.skip(k as int),
            rows_of(out@) == sort_rows(vs.take(k as int)),
            out@.len() == k,
        decreases src@.len(),
    {
        let ghost old_src = src@;
        let x = src.remove(0);
        proof {
            assert(src@ =~= old_src.skip(1));
            assert(rows_of(src@) =~= rows_of(old_src).skip(1));
            assert(vs.skip(k as int).skip(1) =~= vs.skip(k + 1));
            assert(rows_of(src@) =~= vs.skip(k + 1));
            assert(vs.skip(k as int)[0] == row_of(x));
        }
        let mut j = out.len();
        while j > 0 && !str_le(out[j - 1].name.as_str(), x.name.as_str())
            invariant
                j <= out@.len(),
                forall|m: int| j <= m < out@.len() ==> !row_le(#[trigger] rows_of(out@)[m], row_of(x)),
            decreases j,
        {
            j = j - 1;
        }
        let ghost before = rows_of(out@);
        proof {
            lemma_insert_row_at(before, row_of(x), j as int);
            assert(vs.take(k + 1).drop_last() =~= vs.take(k as int));
            assert(vs.take(k + 1).last() == row_of(x));
        }
        out.insert(j, x);
        proof {
            assert(rows_of(out@) =~= before.take(j as int).push(row_of(x)) + before.skip(j as int));
        }
        k = k + 1;
    }
    proof {
        assert(vs.take(n as int) =~= vs);
    }
    out
}

/// Where the file browser is, what it lists and where it has been.
pub struct ExplorerState {
    pub current_path: String,
    pub entries: Vec<FileEntry>,
    pub selected: Option<usize>,
    pub scroll_offset: usize,
    pub history: Vec<String>,
    pub history_idx: usize,
}

/// The browser's place as plain values: the current folder, the visited
/// folders and the position in them.
pub struct Place {
    pub path: Seq<char>,
    pub history: Seq<Seq<char>>,
    pub idx: int,
}

/// The plain values of a list of strings.
pub open spec fn views(v: Seq<String>) -> Seq<Seq<char>> {
    v.map_values(|s: String| s@)
}

/// The browser's place.
pub open spec fn place_of(e: ExplorerState) -> Place {
    Place { path: e.current_path@, history: views(e.history@), idx: e.history_idx as int }
}

/// The place after opening folder `p`: the history forward of the current
/// position is dropped and `p` becomes the newest entry.
pub open spec fn navigated(pl: Place, p: Seq<char>) -> Place {
    let kept = if pl.idx + 1 <= pl.history.len() { pl.history.take(pl.idx + 1) } else { pl.history };
    Place { path: p, history: kept.push(p), idx: kept.len() as int }
}

/// Whether there is an earlier folder to go back to.
pub open spec fn can_go_back(pl: Place) -> bool {
    pl.idx > 0
}

/// The place after going back one folder.
pub open spec fn went_back(pl: Place) -> Place {
    if can_go_back(pl) {
        Place { path: pl.history[pl.idx - 1], idx: pl.idx - 1, ..pl }
    } else {
        pl
    }
}

/// Whether there is a later folder to go forward to.
pub open spec fn can_go_forward(pl: Place) -> bool {
    pl.idx + 1 < pl.history.len()
}

/// The place after going forward one folder.
pub open spec fn went_forward(pl: Place) -> Place {
    if can_go_forward(pl) {
        Place { path: pl.history[pl.idx + 1], idx: pl.idx + 1, ..pl }
    } else {
        pl
    }
}

impl ExplorerState {
    /// The browser opened on the host's home folder, listing it.
    pub fn new(env: &HostEnv) -> (r: Self)
        ensures
            place_of(r) == (Place { path: env.home@, history: seq![env.home@], idx: 0 }),
            rows_of(r.entries@) == match env.home_listing {
                Some(items) => listing_rows(items@),
                None => Seq::empty(),
            },
            r.selected is None,
            r.scroll_offset == 0,
    {
        let home = env.home.clone();
        let mut history: Vec<String> = Vec::new();
        history.push(env.home.clone());
        let mut s = ExplorerState {
            current_path: home,
            entries: Vec::new(),
            selected: None,
            scroll_offset: 0,
            history,
            history_idx: 0,
        };
        s.refresh(&env.home_listing);
        assert(views(s.history@) =~= seq![env.home@]);
        s
    }

    /// Replaces the listing with the entries of the current folder as the
    /// host reports them (`None` when the folder cannot be read): hidden
    /// entries left out, folders first, each group sorted by name. The
    /// selection is cleared.
    pub fn refresh(&mut self, listing: &Option<Vec<DirItem>>)
        ensures
            rows_of(final(self).entries@) == match *listing {
                Some(items) => listing_rows(items@),
                None => Seq::empty(),
            },
            final(self).selected is None,
            final(self).current_path == old(self).current_path,
            final(self).history == old(self).history,
            final(self).history_idx == old(self).history_idx,
            final(self).scroll_offset == old(self).scroll_offset,
    {
        self.entries = Vec::new();
        self.selected = None;
        match listing {
            Some(items) => {
                let mut dirs: Vec<FileEntry> = Vec::new();
                let mut files: Vec<FileEntry> = Vec::new();
                let mut k: usize = 0;
                assert(items@.take(0) =~= Seq::<DirItem>::empty());
                while k < items.len()
                    invariant
                        k <= items@.len(),
                        rows_of(dirs@) == rows_for(items@.take(k as int), true),
                        rows_of(files@) == rows_for(items@.take(k as int), false),
                    decreases items@.len() - k,
                {
                    let d = &items[k];
                    let ghost dd = rows_of(dirs@);
                    let ghost ff = rows_of(files@);
                    proof {
                        assert(items@.take(k + 1).drop_last() =~= items@.take(k as int));
                        assert(items@.take(k + 1).last() == items@[k as int]);
                    }
                    let cs = chars_of(d.name.as_str());
                    let hidden = cs.len() > 0 && cs[0] == '.';
                    if !hidden {
                        let e = entry_for(d);
                        if d.is_dir {
                            dirs.push(e);
                            assert(rows_of(dirs@) =~= dd.push(row_for(*d)));
                        } else {
                            files.push(e);
                            assert(rows_of(files@) =~= ff.push(row_for(*d)));
                        }
                    }
                    k = k + 1;
                }
                assert(items@.take(items@.len() as int) =~= items@);
                let mut sorted = sort_by_name(dirs);
                let mut rest = sort_by_name(files);
                let ghost a = rows_of(sorted@);
                let ghost b = rows_of(rest@);
                sorted.append(&mut rest);
                assert(rows_of(sorted@) =~= a + b);
                self.entries = sorted;
            },
            None => {
                assert(rows_of(self.entries@) =~= Seq::<Row>::empty());
            },
        }
    }

    /// Opens folder `path`: the history forward of the current position is
    /// dropped, `path` becomes its newest entry and the view scrolls to the
    /// top. The caller then lists the folder and passes it to `refresh`.
    pub fn navigate(&mut self, path: String)
        requires
            old(self).history_idx < usize::MAX,
        ensures
            place_of(*final(self)) == navigated(place_of(*old(self)), path@),
            final(self).scroll_offset == 0,
            final(self).entries == old(self).entries,
            final(self).selected == old(self).selected,
    {
        self.history.truncate(self.history_idx + 1);
        self.history.push(path.clone());
        self.history_idx = self.history.len() - 1;
        self.current_path = path;
        self.scroll_offset = 0;
        proof {
            let o = views(old(self).history@);
            let kept = if old(self).history_idx + 1 <= o.len() {
                o.take(old(self).history_idx + 1)
            } else {
                o
            };
            assert(views(self.history@) =~= kept.push(path@));
        }
    }

    /// Goes back to the previous folder in the history, if there is one;
    /// returns whether it moved, in which case the caller lists the folder
    /// and passes it to `refresh`.
    pub fn go_back(&mut self) -> (moved: bool)
        requires
            old(self).history_idx > 0 ==> old(self).history_idx - 1 < old(self).history@.len(),
        ensures
            moved == can_go_back(place_of(*old(self))),
            place_of(*final(self)) == went_back(place_of(*old(self))),
            moved ==> final(self).scroll_offset == 0,
            !moved ==> *final(self) == *old(self),
            final(self).entries == old(self).entries,
            final(self).selected == old(self).selected,
    {
        if self.history_idx > 0 {
            self.history_idx = self.history_idx - 1;
            self.current_path = self.history[self.history_idx].clone();
            self.scroll_offset = 0;
            true
        } else {
            false
        }
    }

    /// Goes forward to the next folder in the history, if there is one;
    /// returns whether it moved, in which case the caller lists the folder
    /// and passes it to `refresh`.
    pub fn go_forward(&mut self) -> (moved: bool)
        requires
            old(self).history_idx < usize::MAX,
        ensures
            moved == can_go_forward(place_of(*old(self))),
            place_of(*final(self)) == went_forward(place_of(*old(self))),
            moved ==> final(self).scroll_offset == 0,
            !moved ==> *final(self) == *old(self),
            final(self).entries == old(self).entries,
            final(self).selected == old(self).selected,
    {
        if self.history_idx + 1 < self.history.len() {
            self.history_idx = self.history_idx + 1;
            self.current_path = self.history[self.history_idx].clone();
            self.scroll_offset = 0;
            true
        } else {
            false
        }
    }

    /// Opens the parent of the current folder, if it has one; returns
    /// whether it moved, in which case the caller lists the folder and
    /// passes it to `refresh`.
    pub fn go_up(&mut self) -> (moved: bool)
        requires
            old(self).history_idx < usize::MAX,
        ensures
            moved == path_parent(old(self).current_path@) is Some,
            moved ==> place_of(*final(self)) == navigated(
                place_of(*old(self)),
                path_parent(old(self).current_path@)->0,
            ),
            moved ==> final(self).scroll_offset == 0,
            !moved ==> *final(self) == *old(self),
            final(self).entries == old(self).entries,
            final(self).selected == old(self).selected,
    {
        match parent_of_path(self.current_path.as_str()) {
            Some(parent) => {
                self.navigate(parent);
                true
            },
            None => false,
        }
    }
}

/// Going back right after opening a folder returns to the folder that was
/// open before, at the same position in the history.
pub proof fn lemma_back_undoes_navigate(pl: Place, p: Seq<char>)
    requires
        0 <= pl.idx < pl.history.len(),
        pl.history[pl.idx] == pl.path,
    ensures
        went_back(navigated(pl, p)).path == pl.path,
        went_back(navigated(pl, p)).idx == pl.idx,
{
}

/// Going forward right after going back returns to where the browser was.
pub proof fn lemma_forward_undoes_back(pl: Place)
    requires
        0 < pl.idx < pl.history.len(),
        pl.history[pl.idx] == pl.path,
    ensures
        went_forward(went_back(pl)) == pl,
{
}

/// After opening a folder there is nothing to go forward to.
pub proof fn lemma_navigate_clears_forward(pl: Place, p: Seq<char>)
    requires
        0 <= pl.idx,
    ensures
        !can_go_forward(navigated(pl, p)),
        navigated(pl, p).history[navigated(pl, p).idx] == p,
{
}

/// The host name shown in the settings: the host name file's contents
/// without surrounding white space, or a default name.
pub open spec fn hostname_from(file: Option<String>) -> Seq<char> {
    match file {
        Some(t) => trimmed(t@),
        None => trimmed("trimangees-pc"@),
    }
}

impl SettingsState {
    /// The settings window's initial state, with the host name taken from
    /// the host name file.
    pub fn new(env: &HostEnv) -> (r: Self)
        ensures
            r.active_section == 0,
            r.wallpaper_preset == 0,
            r.accent_r == 72,
            r.accent_g == 138,
            r.accent_b == 240,
            r.dark_mode,
            r.hostname@ == hostname_from(env.hostname_file),
            r.os_version@ == "Trimangees OS 1.0"@,
    {
        let hostname = match &env.hostname_file {
            Some(t) => trim(t.as_str()),
            None => trim("trimangees-pc"),
        };
        SettingsState {
            active_section: 0,
            wallpaper_preset: 0,
            accent_r: 72,
            accent_g: 138,
            accent_b: 240,
            dark_mode: true,
            hostname,
            os_version: owned("Trimangees OS 1.0"),
        }
    }
}

/// State of the settings window.
pub struct SettingsState {
    pub active_section: usize,
    pub wallpaper_preset: u8,
    pub accent_r: u8,
    pub accent_g: u8,
    pub accent_b: u8,
    pub dark_mode: bool,
    pub hostname: String,
    pub os_version: String,
}

} // verus!
