//! The decision layer between the user interface and the engine: the
//! interface state, the assembly of a run request from the picked
//! paths, its validation, and the result message of a run.

use vstd::prelude::*;
use vstd::string::*;
use crate::errors::{Error, ErrorView, spec_message};
use crate::text::{dec_digits, render_padded, string_views};

verus! {

/// The interface state: the picked folder, the optional alternate
/// filetype list, and the result of the last run.
pub struct PictureNamerGUI {
    /// The folder the user picked, once one was picked.
    pub picked_path: Option<String>,
    /// Whether a folder has been picked yet.
    pub folder_selected: bool,
    /// Whether the alternate filetype list is to be used.
    pub use_alternate: bool,
    /// The file holding the alternate filetype list.
    pub list_of_filetypes_path: Option<String>,
    /// Success flag and message of the last run.
    pub result: (bool, String),
}

impl PictureNamerGUI {
    /// The state the interface starts in: empty paths, no run yet.
    pub fn new() -> (r: Self)
        ensures
            r.picked_path matches Some(p) && p@ == Seq::<char>::empty(),
            r.folder_selected == false,
            r.use_alternate == false,
            r.list_of_filetypes_path matches Some(p) && p@ == Seq::<char>::empty(),
            r.result.0 == false,
            r.result.1@ == "Filenamer has not ran."@,
    {
        proof {
            reveal_strlit("");
        }
        PictureNamerGUI {
            picked_path: Some(String::new()),
            folder_selected: false,
            use_alternate: false,
            list_of_filetypes_path: Some(String::new()),
            result: (false, String::from_str("Filenamer has not ran.")),
        }
    }

    /// Records the folder the user picked.
    pub fn pick_folder(&mut self, path: String)
        ensures
            final(self).picked_path matches Some(p) && p@ == path@,
            final(self).folder_selected == true,
            final(self).use_alternate == old(self).use_alternate,
            final(self).list_of_filetypes_path == old(self).list_of_filetypes_path,
            final(self).result == old(self).result,
    {
        self.picked_path = Some(path);
        self.folder_selected = true;
    }

    /// Records the alternate filetype list the user picked.
    pub fn pick_filetypes_file(&mut self, path: String)
        ensures
            final(self).list_of_filetypes_path matches Some(p) && p@ == path@,
            final(self).picked_path == old(self).picked_path,
            final(self).folder_selected == old(self).folder_selected,
            final(self).use_alternate == old(self).use_alternate,
            final(self).result == old(self).result,
    {
        self.list_of_filetypes_path = Some(path);
    }

    /// Records the result of a run.
    pub fn record_result(&mut self, result: (bool, String))
        ensures
            final(self).result == result,
            final(self).picked_path == old(self).picked_path,
            final(self).folder_selected == old(self).folder_selected,
            final(self).use_alternate == old(self).use_alternate,
            final(self).list_of_filetypes_path == old(self).list_of_filetypes_path,
    {
        self.result = result;
    }
}

/// A run request: the paths handed over by the interface, in order,
/// and whether the alternate filetype list is to be used.
#[derive(Debug)]
pub struct RunRequest {
    /// The picked folder, then the filetype list path, each if present.
    pub paths: Vec<String>,
    /// Whether the alternate filetype list is to be used.
    pub use_alternate: bool,
}

/// The path sequence a request carries: the picked folder, then the
/// filetype list path, each when present.
pub open spec fn request_paths(
    picked_path: Option<Seq<char>>,
    list_of_filetypes_path: Option<Seq<char>>,
) -> Seq<Seq<char>> {
    let first = match picked_path {
        Some(p) => seq![p],
        None => Seq::<Seq<char>>::empty(),
    };
    match list_of_filetypes_path {
        Some(p) => first + seq![p],
        None => first,
    }
}

/// View of an optional path.
pub open spec fn opt_path_view(o: Option<String>) -> Option<Seq<char>> {
    match o {
        Some(s) => Some(s@),
        None => None,
    }
}

/// Assembles the run request the interface hands to a run: the present
/// paths, in order, and the alternate-list flag.
pub fn pass_to_picture_namer(
    picked_path: &Option<String>,
    use_alternate: bool,
    list_of_filetypes_path: &Option<String>,
) -> (r: RunRequest)
    ensures
        string_views(r.paths@) == request_paths(
            opt_path_view(*picked_path),
            opt_path_view(*list_of_filetypes_path),
        ),
        r.use_alternate == use_alternate,
{
    let mut path_vec: Vec<String> = Vec::new();
    if let Some(picked) = picked_path {
        path_vec.push(picked.clone());
    }
    if let Some(list_path) = list_of_filetypes_path {
        path_vec.push(list_path.clone());
    }
    assert(string_views(path_vec@) =~= request_paths(
        opt_path_view(*picked_path),
        opt_path_view(*list_of_filetypes_path),
    ));
    RunRequest { paths: path_vec, use_alternate }
}

/// A validated run configuration: the root folder to walk, and the
/// alternate filetype list to read, if one is to be used.
#[derive(Debug)]
pub struct RunConfig {
    /// The root folder the walk starts from.
    pub root: String,
    /// The alternate filetype list path, when one is to be used.
    pub filetype_source: Option<String>,
}

/// Whether a request's argument count is acceptable: one path, or two
/// when the second names the filetype list; the alternate list demands
/// exactly two.
pub open spec fn request_well_formed(paths: Seq<Seq<char>>, use_alternate: bool) -> bool {
    &&& 1 <= paths.len() <= 2
    &&& (use_alternate ==> paths.len() == 2)
}

/// Validates a run request: the first path is the root folder; with the
/// alternate flag the second is the filetype list.  A wrong number of
/// paths is an argument error.
pub fn interpret_request(req: &RunRequest) -> (r: Result<RunConfig, Error>)
    ensures
        r is Ok <==> request_well_formed(string_views(req.paths@), req.use_alternate),
        r matches Ok(c) ==> {
            &&& c.root@ == req.paths@[0]@
            &&& (req.use_alternate ==> (c.filetype_source matches Some(s) && s@ == req.paths@[1]@))
            &&& (!req.use_alternate ==> c.filetype_source is None)
        },
        r matches Err(e) ==> e@ == ErrorView::Argument,
{
    if req.paths.len() == 0 || req.paths.len() > 2 {
        return Err(Error::Argument);
    }
    if req.use_alternate && req.paths.len() != 2 {
        return Err(Error::Argument);
    }
    let root = req.paths[0].clone();
    let filetype_source = if req.use_alternate {
        Some(req.paths[1].clone())
    } else {
        None
    };
    Ok(RunConfig { root, filetype_source })
}

/// The message of a clean run over `renamed` files.
pub open spec fn success_message(renamed: nat) -> Seq<char> {
    "renamed "@ + dec_digits(renamed) + " files"@
}

/// The message of a walk that found no directory at all.
pub open spec fn no_directories_message() -> Seq<char> {
    "no directories found"@
}

/// The success flag and message of a finished run: a failure carries
/// its error message; a walk that found no directory reports so as a
/// non-error; a clean run reports its rename count.
pub fn outcome_message(dirs_found: usize, renamed: usize, error: &Option<Error>) -> (r: (
    bool,
    String,
))
    ensures
        error matches Some(e) ==> r.0 == false && r.1@ == spec_message(e@),
        error is None && dirs_found == 0 ==> r.0 == true && r.1@ == no_directories_message(),
        error is None && dirs_found > 0 ==> r.0 == true && r.1@ == success_message(renamed as nat),
{
    match error {
        Some(e) => (false, e.message()),
        None => {
            if dirs_found == 0 {
                (true, String::from_str("no directories found"))
            } else {
                let mut s = String::from_str("renamed ");
                s.append(render_padded(renamed, 0).as_str());
                s.append(" files");
                assert(s@ =~= success_message(renamed as nat));
                (true, s)
            }
        },
    }
}

} // verus!
