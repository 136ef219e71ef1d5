//! The list of test executables that a run works through, and the rules by
//! which files are picked for it.

use crate::record_collection::name_map::{rank_names, Rank};
use vstd::prelude::*;
use vstd::string::StrSliceExecFns;

verus! {

/// Why the executables could not be collected.
#[derive(Clone, Copy, Debug, PartialEq, Eq, Structural)]
pub enum CollectErr {
    FolderReadProblem,
    InternalConversion,
}

/// Whether `path` has a slash at `at` and none after it.
pub open spec fn is_last_slash(path: Seq<char>, at: int) -> bool {
    &&& 0 <= at < path.len()
    &&& path[at] == '/'
    &&& forall|j: int| at < j < path.len() ==> path[j] != '/'
}

/// The name of the file that `path` leads to: what follows its last slash,
/// or a fixed notice where it has no slash.
pub open spec fn spec_file_name(path: Seq<char>) -> Seq<char> {
    if exists|at: int| is_last_slash(path, at) {
        let at = choose|at: int| is_last_slash(path, at);
        path.subrange(at + 1, path.len() as int)
    } else {
        "undefined name"@
    }
}

/// The name of the file that `path` leads to.
pub fn file_name_of(path: &str) -> (r: String)
    ensures
        r@ == spec_file_name(path@),
{
    let len = path.unicode_len();
    let mut at = len;
    while at > 0
        invariant
            at <= len,
            len == path@.len(),
            forall|j: int| at <= j < len ==> path@[j] != '/',
        decreases at,
    {
        if path.get_char(at - 1) == '/' {
            proof {
                let found = (at - 1) as int;
                assert(is_last_slash(path@, found));
                let chosen = choose|k: int| is_last_slash(path@, k);
                assert(chosen == found) by {
                    if chosen < found {
                        assert(path@[found] != '/');
                    } else if found < chosen {
                        assert(path@[chosen] != '/');
                    }
                }
            }
            return path.substring_char(at, len).to_owned();
        }
        at -= 1;
    }
    "undefined name".to_owned()
}

/// The folder that holds the file at `path`, as `std::path::Path::parent`
/// works it out by the path syntax of Unix, the only systems that this
/// library builds on; `None` where the path has no parent.
pub uninterp spec fn spec_parent(path: Seq<char>) -> Option<Seq<char>>;

/// `std::path::Path::parent` drops the last component of a path. What is left
/// depends on the path alone, and is named here without being spelled out.
/// The parent of a path that is text is text again.
#[verifier::external_body]
fn path_parent(path: &str) -> (r: Option<&str>)
    ensures
        r.is_some() == spec_parent(path@).is_some(),
        r matches Some(parent) ==> parent@ == spec_parent(path@)->0,
{
    match std::path::Path::new(path).parent() {
        Some(parent) => parent.to_str(),
        None => None,
    }
}

/// The folder under which a file is grouped: its parent, or the empty name
/// where the path has none.
pub open spec fn spec_folder(path: Seq<char>) -> Seq<char> {
    match spec_parent(path) {
        Some(parent) => parent,
        None => Seq::empty(),
    }
}

/// Whether two names are the same.
fn same_name(a: &str, b: &str) -> (r: bool)
    ensures
        r == (a@ == b@),
{
    match rank_names(a, b) {
        Rank::Same => true,
        _ => false,
    }
}

/// What a file collection holds.
pub struct FilesView {
    /// The executables in the order in which they were found: name and path.
    pub exe_info: Seq<(Seq<char>, Seq<char>)>,
    /// Runs of consecutive executables that share a folder: the folder and
    /// the length of the run.
    pub folder_group: Seq<(Seq<char>, nat)>,
}

impl FilesView {
    /// The collection after one more executable. A file without a folder
    /// joins no group; a file in the folder of the last group extends that
    /// group; any other file opens a group of its own.
    pub open spec fn with_entry(
        self,
        file_name: Seq<char>,
        path: Seq<char>,
        folder: Seq<char>,
    ) -> FilesView {
        let exe_info = self.exe_info.push((file_name, path));
        if folder.len() == 0 {
            FilesView { exe_info, folder_group: self.folder_group }
        } else if self.folder_group.len() > 0 && self.folder_group.last().0 == folder {
            FilesView {
                exe_info,
                folder_group: self.folder_group.update(
                    self.folder_group.len() - 1,
                    (folder, self.folder_group.last().1 + 1),
                ),
            }
        } else {
            FilesView { exe_info, folder_group: self.folder_group.push((folder, 1)) }
        }
    }
}

/// The executables of a run, in the order in which they were found.
#[derive(Debug)]
pub struct FileCollection {
    exe_info: Vec<(String, String)>,
    folder_group: Vec<(String, usize)>,
}

/// The entries of a collection as the model has them.
pub open spec fn view_entries(entries: Seq<(String, String)>) -> Seq<(Seq<char>, Seq<char>)> {
    Seq::new(entries.len(), |i: int| (entries[i].0@, entries[i].1@))
}

/// The groups of a collection as the model has them.
pub open spec fn view_groups(groups: Seq<(String, usize)>) -> Seq<(Seq<char>, nat)> {
    Seq::new(groups.len(), |i: int| (groups[i].0@, groups[i].1 as nat))
}

impl View for FileCollection {
    type V = FilesView;

    /// What the collection holds.
    closed spec fn view(&self) -> FilesView {
        FilesView {
            exe_info: view_entries(self.exe_info@),
            folder_group: view_groups(self.folder_group@),
        }
    }
}

impl FileCollection {
    /// No group is longer than the list of executables.
    pub open spec fn wf(&self) -> bool {
        forall|i: int|
            0 <= i < self@.folder_group.len() ==> (#[trigger] self@.folder_group[i]).1
                <= self@.exe_info.len()
    }

    /// An empty collection.
    pub fn new() -> (r: Self)
        ensures
            r.wf(),
            r@.exe_info.len() == 0,
            r@.folder_group.len() == 0,
    {
        Self { exe_info: Vec::new(), folder_group: Vec::new() }
    }

    /// The number of executables.
    pub fn len(&self) -> (r: usize)
        ensures
            r == self@.exe_info.len(),
    {
        self.exe_info.len()
    }

    /// The executables: the name and the path of each.
    pub fn exe_info(&self) -> (r: &Vec<(String, String)>)
        ensures
            view_entries(r@) == self@.exe_info,
    {
        &self.exe_info
    }

    /// The groups of consecutive executables by folder.
    pub fn folder_group(&self) -> (r: &Vec<(String, usize)>)
        ensures
            view_groups(r@) == self@.folder_group,
    {
        &self.folder_group
    }

    /// The path of the executable at `idx`, or a fixed notice where there is none.
    pub fn str_file_name_from(&self, idx: usize) -> (r: &str)
        ensures
            r@ == if idx < self@.exe_info.len() {
                self@.exe_info[idx as int].1
            } else {
                "(null)"@
            },
    {
        if idx < self.exe_info.len() {
            self.exe_info[idx].1.as_str()
        } else {
            "(null)"
        }
    }

    /// Adds an executable whose name and folder are known.
    pub fn push_entry(&mut self, file_name: String, path: String, parent_folder: &str)
        requires
            old(self).wf(),
        ensures
            final(self).wf(),
            final(self)@ == old(self)@.with_entry(file_name@, path@, parent_folder@),
    {
        let ghost before = *self;
        self.exe_info.push((file_name, path));
        assert(view_entries(self.exe_info@) =~= before@.exe_info.push((file_name@, path@)));
        if parent_folder.is_empty() {
            return;
        }
        let total = self.exe_info.len();
        let count = self.folder_group.len();
        if count > 0 && same_name(self.folder_group[count - 1].0.as_str(), parent_folder) {
            let size = self.folder_group[count - 1].1;
            assert(size < total) by {
                assert(before@.folder_group[count - 1].1 == size);
            }
            self.folder_group[count - 1].1 = size + 1;
            assert(view_groups(self.folder_group@) =~= before@.folder_group.update(
                count - 1,
                (parent_folder@, before@.folder_group.last().1 + 1),
            ));
        } else {
            self.folder_group.push((parent_folder.to_owned(), 1));
            assert(view_groups(self.folder_group@) =~= before@.folder_group.push(
                (parent_folder@, 1),
            ));
        }
    }

    /// The folder under which the file at `path` is grouped.
    pub fn get_parent(path: &str) -> (r: &str)
        ensures
            r@ == spec_folder(path@),
    {
        proof {
            reveal_strlit("");
        }
        match path_parent(path) {
            Some(parent) => parent,
            None => "",
        }
    }

    /// Adds the executable at `path`.
    pub fn insert_path(&mut self, path: &str)
        requires
            old(self).wf(),
        ensures
            final(self).wf(),
            final(self)@ == old(self)@.with_entry(
                spec_file_name(path@),
                path@,
                spec_folder(path@),
            ),
    {
        let file_name = file_name_of(path);
        let parent_folder = FileCollection::get_parent(path);
        self.push_entry(file_name, path.to_owned(), parent_folder);
    }
}

/// Whether a file name marks the file as hidden: it starts with a dot.
pub fn is_hidden(file_name: &str) -> (r: bool)
    ensures
        r == (file_name@.len() > 0 && file_name@[0] == '.'),
{
    !file_name.is_empty() && file_name.get_char(0) == '.'
}

/// Whether a file is taken as a test executable: it is a regular file, its
/// name does not mark it as hidden, and its mode, where it could be read,
/// lets someone execute it.
pub fn is_candidate(regular_file: bool, file_name: &str, mode: Option<u32>) -> (r: bool)
    ensures
        r == (regular_file && !(file_name@.len() > 0 && file_name@[0] == '.') && (mode matches Some(
            bits,
        ) && bits & 0o111 != 0)),
{
    regular_file && !is_hidden(file_name) && match mode {
        Some(bits) => is_executable(bits),
        None => false,
    }
}

/// Whether a file mode lets anyone execute the file: one of the execute bits
/// of owner, group and others is set.
pub fn is_executable(mode: u32) -> (r: bool)
    ensures
        r == (mode & 0o111 != 0),
{
    mode & 0o111 != 0
}

} // verus!
