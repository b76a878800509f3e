//! The filesystem service: what it reports when asked to list a folder.
use vstd::prelude::*;
use crate::text::{concat, owned, push_line, string_views};

verus! {

/// The filesystem service.
pub struct FilesystemService;

/// The line reported for one entry of a listing: its name, or the error
/// met reading it.
pub open spec fn entry_line(e: Result<String, String>) -> Seq<char> {
    match e {
        Ok(name) => name@,
        Err(err) => "Error: "@ + err@,
    }
}

/// What listing folder `path` reports, given what reading it gave: the
/// entries (each a name or an error), or the error that kept it from
/// being opened.
pub open spec fn listing_lines(path: Seq<char>, read: Result<Vec<Result<String, String>>, String>) -> Seq<Seq<char>> {
    seq!["Listing: "@ + path] + match read {
        Ok(entries) => entries@.map_values(|e: Result<String, String>| entry_line(e)),
        Err(err) => seq!["Cannot open directory."@, err@],
    }
}

impl FilesystemService {
    /// The service.
    pub fn new() -> (r: Self) {
        FilesystemService
    }

    /// The lines reporting the listing of folder `path`, given what reading
    /// it gave: see [`listing_lines`].
    pub fn list_directory(&self, path: &str, read: &Result<Vec<Result<String, String>>, String>) -> (r: Vec<String>)
        ensures
            string_views(r@) == listing_lines(path@, *read),
    {
        let mut r: Vec<String> = Vec::new();
        push_line(&mut r, concat("Listing: ", path));
        match read {
            Ok(entries) => {
                let mut k: usize = 0;
                while k < entries.len()
                    invariant
                        k <= entries@.len(),
                        string_views(r@) == seq!["Listing: "@ + path@] + entries@.take(k as int).map_values(
                            |e: Result<String, String>| entry_line(e),
                        ),
                    decreases entries@.len() - k,
                {
                    let line = match &entries[k] {
                        Ok(name) => name.clone(),
                        Err(err) => concat("Error: ", err.as_str()),
                    };
                    push_line(&mut r, line);
                    assert(entries@.take(k + 1).map_values(|e: Result<String, String>| entry_line(e)) =~= entries@.take(
                        k as int,
                    ).map_values(|e: Result<String, String>| entry_line(e)).push(entry_line(entries@[k as int])));
                    k = k + 1;
                }
                assert(entries@.take(k as int) =~= entries@);
            },
            Err(err) => {
                push_line(&mut r, owned("Cannot open directory."));
                push_line(&mut r, err.clone());
            },
        }
        assert(string_views(r@) =~= listing_lines(path@, *read));
        r
    }
}

} // verus!
