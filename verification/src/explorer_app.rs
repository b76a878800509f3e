//! The stand-alone file explorer application: a folder with its files and
//! sub-folders.
use vstd::prelude::*;
use crate::text::owned;

verus! {

/// A file shown by the explorer.
pub struct FileItem {
    pub name: String,
    pub extension: String,
    pub size: u64,
}

impl FileItem {
    /// A file with the given name, extension and size in bytes.
    pub fn new(name: &str, extension: &str, size: u64) -> (r: Self)
        ensures
            r.name@ == name@,
            r.extension@ == extension@,
            r.size == size,
    {
        FileItem { name: owned(name), extension: owned(extension), size }
    }
}

/// A folder shown by the explorer.
pub struct FolderItem {
    pub name: String,
}

impl FolderItem {
    /// A folder with the given name.
    pub fn new(name: &str) -> (r: Self)
        ensures
            r.name@ == name@,
    {
        FolderItem { name: owned(name) }
    }
}

/// The explorer: the folder it shows and what that folder holds.
pub struct Explorer {
    pub current_path: String,
    pub files: Vec<FileItem>,
    pub folders: Vec<FolderItem>,
}

impl Explorer {
    /// An explorer at the root folder, showing nothing yet.
    pub fn new() -> (r: Self)
        ensures
            r.current_path@ == "/"@,
            r.files@.len() == 0,
            r.folders@.len() == 0,
    {
        Explorer { current_path: owned("/"), files: Vec::new(), folders: Vec::new() }
    }

    /// Adds a file after the ones already listed.
    pub fn add_file(&mut self, name: &str, extension: &str, size: u64)
        ensures
            final(self).files@.len() == old(self).files@.len() + 1,
            final(self).files@.take(old(self).files@.len() as int) == old(self).files@,
            final(self).files@.last().name@ == name@,
            final(self).files@.last().extension@ == extension@,
            final(self).files@.last().size == size,
            final(self).folders@ == old(self).folders@,
            final(self).current_path == old(self).current_path,
    {
        let f = FileItem::new(name, extension, size);
        self.files.push(f);
        assert(self.files@.take(old(self).files@.len() as int) =~= old(self).files@);
    }

    /// Adds a folder after the ones already listed.
    pub fn add_folder(&mut self, name: &str)
        ensures
            final(self).folders@.len() == old(self).folders@.len() + 1,
            final(self).folders@.take(old(self).folders@.len() as int) == old(self).folders@,
            final(self).folders@.last().name@ == name@,
            final(self).files@ == old(self).files@,
            final(self).current_path == old(self).current_path,
    {
        let f = FolderItem::new(name);
        self.folders.push(f);
        assert(self.folders@.take(old(self).folders@.len() as int) =~= old(self).folders@);
    }
}

} // verus!

verus! {

/// How a folder is listed.
pub open spec fn folder_line(f: FolderItem) -> Seq<char> {
    "\u{1f4c1} "@ + f.name@
}

/// How a file is listed: name, extension and size in bytes.
pub open spec fn file_line(f: FileItem) -> Seq<char> {
    "\u{1f4c4} "@ + f.name@ + "."@ + f.extension@ + " ("@ + crate::text::decimal_digits(f.size as nat)
        + " bytes)"@
}

/// The lines listing a folder: its path, then its folders, then its files.
pub open spec fn contents_lines(e: Explorer) -> Seq<Seq<char>> {
    seq!["Current Folder: "@ + e.current_path@, Seq::<char>::empty(), "Folders:"@]
        + e.folders@.map_values(|f: FolderItem| folder_line(f)) + seq![Seq::<char>::empty(), "Files:"@]
        + e.files@.map_values(|f: FileItem| file_line(f))
}

impl Explorer {
    /// The lines listing the current folder: see [`contents_lines`].
    pub fn list_contents(&self) -> (r: Vec<String>)
        ensures
            crate::text::string_views(r@) == contents_lines(*self),
    {
        let mut r: Vec<String> = Vec::new();
        crate::text::push_line(&mut r, crate::text::concat("Current Folder: ", self.current_path.as_str()));
        crate::text::push_line(&mut r, String::new());
        crate::text::push_line(&mut r, owned("Folders:"));
        let ghost head = crate::text::string_views(r@);
        let mut k: usize = 0;
        while k < self.folders.len()
            invariant
                k <= self.folders@.len(),
                crate::text::string_views(r@) == head + self.folders@.take(k as int).map_values(
                    |f: FolderItem| folder_line(f),
                ),
            decreases self.folders@.len() - k,
        {
            crate::text::push_line(&mut r, crate::text::concat("\u{1f4c1} ", self.folders[k].name.as_str()));
            assert(self.folders@.take(k + 1).map_values(|f: FolderItem| folder_line(f)) =~= self.folders@.take(
                k as int,
            ).map_values(|f: FolderItem| folder_line(f)).push(folder_line(self.folders@[k as int])));
            k = k + 1;
        }
        assert(self.folders@.take(k as int) =~= self.folders@);
        crate::text::push_line(&mut r, String::new());
        crate::text::push_line(&mut r, owned("Files:"));
        let ghost mid = crate::text::string_views(r@);
        let mut k: usize = 0;
        while k < self.files.len()
            invariant
                k <= self.files@.len(),
                crate::text::string_views(r@) == mid + self.files@.take(k as int).map_values(
                    |f: FileItem| file_line(f),
                ),
            decreases self.files@.len() - k,
        {
            let f = &self.files[k];
            let mut line = crate::text::concat("\u{1f4c4} ", f.name.as_str());
            crate::text::append(&mut line, ".");
            crate::text::append(&mut line, f.extension.as_str());
            crate::text::append(&mut line, " (");
            crate::text::append(&mut line, crate::text::u64_to_string(f.size).as_str());
            crate::text::append(&mut line, " bytes)");
            crate::text::push_line(&mut r, line);
            assert(self.files@.take(k + 1).map_values(|f: FileItem| file_line(f)) =~= self.files@.take(
                k as int,
            ).map_values(|f: FileItem| file_line(f)).push(file_line(self.files@[k as int])));
            k = k + 1;
        }
        assert(self.files@.take(k as int) =~= self.files@);
        assert(crate::text::string_views(r@) =~= contents_lines(*self));
        r
    }
}

} // verus!
