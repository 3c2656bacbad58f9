use vstd::prelude::*;
use vstd::string::StringExecFns;
use crate::errors::TodoError;

verus! {

/// The file-backed store's configuration: the path of the persisted file.
///
/// The store works load-mutate-save: the whole collection is decoded with
/// `codec::parse_todos` (a missing file counts as the empty collection), the
/// operation is applied with the collection functions of `storage`, and the
/// result is re-encoded with `codec::render_todos` and written back. Only
/// the reading and writing of the file itself stands outside this crate.
pub struct FileStorage {
    file_path: String,
}

impl FileStorage {
    /// The path the store persists to.
    pub closed spec fn path(&self) -> Seq<char> {
        self.file_path@
    }

    /// A store over the given file.
    pub fn new(file_path: String) -> (s: Self)
        ensures
            s.path() == file_path@,
    {
        FileStorage { file_path }
    }

    /// A store over the default file name.
    pub fn default() -> (r: Result<Self, TodoError>)
        ensures
            r matches Ok(s) && s.path() == "todos.json"@,
    {
        Ok(FileStorage { file_path: String::from_str("todos.json") })
    }

    /// The configured path, for the caller that performs the file access.
    pub fn file_path(&self) -> (r: &str)
        ensures
            r@ == self.path(),
    {
        self.file_path.as_str()
    }
}

} // verus!
