//! The records that a parsed diff is made of.
use vstd::prelude::*;

verus! {

/// Kind of change that a diff section describes.
#[derive(Debug, Clone, Copy, PartialEq, Eq, Structural)]
pub enum ChangeType {
    Added,
    Deleted,
    Modified,
    Renamed,
}

impl ChangeType {
    /// The lowercase name of the change kind.
    pub open spec fn name(self) -> Seq<char> {
        match self {
            ChangeType::Added => "added"@,
            ChangeType::Deleted => "deleted"@,
            ChangeType::Modified => "modified"@,
            ChangeType::Renamed => "renamed"@,
        }
    }

    pub fn as_str(&self) -> (r: &'static str)
        ensures
            r@ == self.name(),
    {
        match self {
            ChangeType::Added => "added",
            ChangeType::Deleted => "deleted",
            ChangeType::Modified => "modified",
            ChangeType::Renamed => "renamed",
        }
    }
}

/// One file's section of a diff.
#[derive(Debug)]
pub struct FileChange {
    pub old_path: Option<String>,
    pub new_path: Option<String>,
    pub change_type: ChangeType,
    pub content_lines: Vec<String>,
    pub is_large: bool,
}

/// What a `FileChange` holds, as plain sequences.
pub struct FileChangeView {
    pub old_path: Option<Seq<char>>,
    pub new_path: Option<Seq<char>>,
    pub change_type: ChangeType,
    pub content_lines: Seq<Seq<char>>,
    pub is_large: bool,
}

pub open spec fn opt_view(o: Option<String>) -> Option<Seq<char>> {
    match o {
        Some(s) => Some(s@),
        None => None,
    }
}

impl View for FileChange {
    type V = FileChangeView;

    open spec fn view(&self) -> FileChangeView {
        FileChangeView {
            old_path: opt_view(self.old_path),
            new_path: opt_view(self.new_path),
            change_type: self.change_type,
            content_lines: self.content_lines@.map_values(|x: String| x@),
            is_large: self.is_large,
        }
    }
}

/// The view of each record of a sequence of file changes.
pub open spec fn changes_view(v: Seq<FileChange>) -> Seq<FileChangeView> {
    v.map_values(|f: FileChange| f@)
}

} // verus!
