//! Where the text comes from: the directory to look at, the kinds of file in
//! it, and what was found and read there.
//!
//! Nothing here touches the file system. A caller lists the directory and
//! reads the files; this module decides what each outcome means.

use vstd::prelude::*;
use vstd::string::StringExecFns;
use crate::entry::{entries_of, EntryType, Variable, VariableView};
use crate::pattern::{captures_of, Matchers};

verus! {

/// The two kinds of file that are looked at: those that define and use
/// variables, and those that assign values to them.
#[derive(Debug, Clone, Copy, PartialEq, Eq, Structural)]
pub enum FileType {
    Source,
    Vars,
}

impl FileType {
    /// The extension of the files of this kind, as a sequence of characters.
    pub open spec fn ext_text(self) -> Seq<char> {
        match self {
            FileType::Source => "tf"@,
            FileType::Vars => "tfvars"@,
        }
    }

    /// The extension of the files of this kind, without the dot.
    pub fn ext(self) -> (ext: String)
        ensures
            ext@ == self.ext_text(),
    {
        match self {
            FileType::Source => String::from_str("tf"),
            FileType::Vars => String::from_str("tfvars"),
        }
    }

    /// The file name pattern that selects the files of this kind in a
    /// directory: a star, a dot and the extension.
    pub fn file_name_pattern(self) -> (pattern: String)
        ensures
            pattern@ == "*."@ + self.ext_text(),
    {
        let ext = self.ext();
        String::from_str("*.").concat(ext.as_str())
    }
}

/// A file that was read.
#[derive(Debug, PartialEq, Eq)]
pub struct File {
    pub file_type: FileType,
    pub path: String,
    pub contents: String,
}

/// The mathematical value of a `File`.
pub struct FileView {
    pub file_type: FileType,
    pub path: Seq<char>,
    pub contents: Seq<char>,
}

impl FileView {
    /// The entries of one kind that the contents of the file hold, in the
    /// order in which the pattern of that kind matches.
    pub open spec fn entries(self, entry_type: EntryType) -> Seq<VariableView> {
        entries_of(
            captures_of(entry_type.pattern_text(), self.contents),
            entry_type,
            self.path,
        )
    }
}

impl View for File {
    type V = FileView;

    open spec fn view(&self) -> FileView {
        FileView { file_type: self.file_type, path: self.path@, contents: self.contents@ }
    }
}

impl DeepView for File {
    type V = FileView;

    open spec fn deep_view(&self) -> FileView {
        self.view()
    }
}

/// A path that a listing found, and what reading it gave. The path is absent
/// where it cannot be written as text, the contents where the file could not
/// be read as text.
#[derive(Debug, PartialEq, Eq)]
pub struct Candidate {
    pub path: Option<String>,
    pub contents: Option<String>,
}

impl Candidate {
    /// The path as it is shown: the path itself, or a fixed phrase in place
    /// of one that cannot be written.
    pub open spec fn shown_path(&self) -> Seq<char> {
        match self.path {
            Some(path) => path@,
            None => "unknown path"@,
        }
    }

    /// What the candidate becomes: a file of the given kind if it was read,
    /// else a message that names it.
    pub open spec fn loaded(&self, file_type: FileType) -> Result<FileView, Seq<char>> {
        match self.contents {
            Some(contents) => Ok(
                FileView { file_type, path: self.shown_path(), contents: contents@ },
            ),
            None => Err("Error: could not read file "@ + self.shown_path()),
        }
    }

    /// Turns the candidate into a file of the given kind, or into the message
    /// that reports it as unreadable.
    pub fn load(&self, file_type: FileType) -> (outcome: Result<File, String>)
        ensures
            outcome_view(outcome) == self.loaded(file_type),
    {
        let path = match &self.path {
            Some(path) => path.clone(),
            None => String::from_str("unknown path"),
        };
        match &self.contents {
            Some(contents) => Ok(File { file_type, path, contents: contents.clone() }),
            None => Err(String::from_str("Error: could not read file ").concat(path.as_str())),
        }
    }
}

/// What listing the files of one kind gave.
#[derive(Debug, PartialEq, Eq)]
pub enum Listing {
    /// The expression that selects the files could not be written as text.
    NoExpression,
    /// The expression was refused, with the reason.
    Refused(String),
    /// The paths that were found, in the order of the listing.
    Found(Vec<Candidate>),
}

/// The mathematical value of one loaded candidate.
pub open spec fn outcome_view(outcome: Result<File, String>) -> Result<FileView, Seq<char>> {
    match outcome {
        Ok(file) => Ok(file@),
        Err(message) => Err(message@),
    }
}

/// The mathematical value of a run of loaded candidates.
pub open spec fn outcomes_view(outcomes: Seq<Result<File, String>>) -> Seq<
    Result<FileView, Seq<char>>,
> {
    outcomes.map_values(|outcome: Result<File, String>| outcome_view(outcome))
}

/// The mathematical value of what a listing was turned into.
pub open spec fn listed_view(listed: Result<Vec<Result<File, String>>, String>) -> Result<
    Seq<Result<FileView, Seq<char>>>,
    Seq<char>,
> {
    match listed {
        Ok(outcomes) => Ok(outcomes_view(outcomes@)),
        Err(message) => Err(message@),
    }
}

impl Listing {
    /// What a listing of files of the given kind means: a failure of the
    /// listing as a whole, or one outcome for each path found, in order.
    pub open spec fn files(&self, file_type: FileType) -> Result<
        Seq<Result<FileView, Seq<char>>>,
        Seq<char>,
    > {
        match self {
            Listing::NoExpression => Err("Failed to construct glob expression"@),
            Listing::Refused(reason) => Err(reason@),
            Listing::Found(candidates) => Ok(
                candidates@.map_values(|c: Candidate| c.loaded(file_type)),
            ),
        }
    }
}

/// What the two listings of a directory mean together: the first failure, or
/// the outcomes of the defining files followed by those of the value files.
pub open spec fn files_of(sources: Listing, vars: Listing) -> Result<
    Seq<Result<FileView, Seq<char>>>,
    Seq<char>,
> {
    match sources.files(FileType::Source) {
        Err(message) => Err(message),
        Ok(first) => match vars.files(FileType::Vars) {
            Err(message) => Err(message),
            Ok(second) => Ok(first + second),
        },
    }
}

impl File {
    /// Turns the listing of one kind of file into files and messages. A
    /// listing that failed as a whole gives its reason. Otherwise each path
    /// gives, in order, the file that was read or the message that it could
    /// not be read: one unreadable file never hides the others.
    pub fn get_files(file_type: FileType, listing: &Listing) -> (listed: Result<
        Vec<Result<File, String>>,
        String,
    >)
        ensures
            listed_view(listed) == listing.files(file_type),
    {
        match listing {
            Listing::NoExpression => Err(String::from_str("Failed to construct glob expression")),
            Listing::Refused(reason) => Err(reason.clone()),
            Listing::Found(candidates) => {
                let mut files: Vec<Result<File, String>> = Vec::new();
                let mut i: usize = 0;
                while i < candidates.len()
                    invariant
                        i <= candidates.len(),
                        files.len() == i,
                        forall|k: int|
                            0 <= k < i ==> outcome_view(#[trigger] files[k])
                                == candidates[k].loaded(file_type),
                    decreases candidates.len() - i,
                {
                    files.push(candidates[i].load(file_type));
                    i += 1;
                }
                assert(outcomes_view(files@) =~= candidates@.map_values(
                    |c: Candidate| c.loaded(file_type),
                ));
                Ok(files)
            },
        }
    }

    /// Puts the listings of the two kinds of file together: the defining
    /// files first, then the value files. The first listing that failed as a
    /// whole gives the error.
    pub fn files_in(sources: &Listing, vars: &Listing) -> (listed: Result<
        Vec<Result<File, String>>,
        String,
    >)
        ensures
            listed_view(listed) == files_of(*sources, *vars),
    {
        let mut files = match File::get_files(FileType::Source, sources) {
            Ok(files) => files,
            Err(message) => { return Err(message); },
        };
        let mut more = match File::get_files(FileType::Vars, vars) {
            Ok(files) => files,
            Err(message) => { return Err(message); },
        };
        let ghost first = files@;
        let ghost second = more@;
        files.append(&mut more);
        assert(outcomes_view(files@) =~= outcomes_view(first) + outcomes_view(second));
        Ok(files)
    }

    /// The entries of one kind that the file holds, each tagged with the
    /// file's path, in the order of the matches.
    pub fn get_var_entries(&self, entry_type: EntryType, matchers: &Matchers) -> (entries: Vec<
        Variable,
    >)
        ensures
            entries.deep_view() == self@.entries(entry_type),
            forall|i: int| 0 <= i < entries.len() ==> (#[trigger] entries[i]).wf(),
    {
        let found = matchers.captures_in(entry_type, self.contents.as_str());
        Variable::from_captures(&found, entry_type, self.path.as_str())
    }
}

/// The message for a directory that is not there.
pub open spec fn missing_message(wd: Seq<char>) -> Seq<char> {
    "Path "@ + wd + " does not exists"@
}

/// The message for a path that is there and is no directory.
pub open spec fn not_a_directory_message(wd: Seq<char>) -> Seq<char> {
    wd + " is not a directory"@
}

/// Accepts the path to look at, given what the file system says of it:
/// whether it exists and whether it is a directory. A path that is missing
/// is refused first, then one that is no directory.
pub fn validate_and_get_path<'a>(wd: &'a str, exists: bool, is_dir: bool) -> (checked: Result<
    &'a str,
    String,
>)
    ensures
        !exists ==> checked is Err && checked->Err_0@ == missing_message(wd@),
        exists && !is_dir ==> checked is Err && checked->Err_0@ == not_a_directory_message(wd@),
        exists && is_dir ==> checked == Ok::<&str, String>(wd),
{
    if !exists {
        return Err(String::from_str("Path ").concat(wd).concat(" does not exists"));
    }
    if !is_dir {
        return Err(String::from_str(wd).concat(" is not a directory"));
    }
    Ok(wd)
}

} // verus!
