use vstd::prelude::*;

use crate::path::{
    copy_comps, has_no_parent_from, is_absolute, is_comps_prefix, joined_absolute, joined_comps,
    normalize_onto, render_path, split_segments, target, target_parent, views, within,
};
use crate::text::{chars_of, string_of};

verus! {

/// Why an operation failed.
pub enum FsError {
    /// The path resolves outside the workspace root.
    OutsideWorkspace,
    /// The target does not exist.
    NotFound(String),
    /// A directory was needed and something else was found.
    NotADirectory(String),
    /// A file was needed and a directory was found.
    IsADirectory(String),
    /// Any other failure reported by the operating system.
    Io(String),
}

/// The classes of operating-system failure that the error type tells apart.
#[derive(Clone, Copy, Debug, PartialEq, Eq, Structural)]
pub enum IoKind {
    NotFound,
    NotADirectory,
    IsADirectory,
    Other,
}

/// The kind of node found at a path.
#[derive(Clone, Copy, Debug, PartialEq, Eq, Structural)]
pub enum NodeKind {
    Directory,
    File,
}

/// What removing a node takes.
pub enum Removal {
    /// Remove the directory and everything under it.
    Tree(String),
    /// Remove the single file.
    File(String),
}

/// Where a write goes: the directory to create first, if any, and the file.
pub struct WritePlan {
    pub parent: Option<String>,
    pub target: String,
}

impl FsError {
    /// Maps an operating-system failure, with its description, to an error.
    pub fn from_io(kind: IoKind, message: String) -> (r: FsError)
        ensures
            kind == IoKind::NotFound ==> r == FsError::NotFound(message),
            kind == IoKind::NotADirectory ==> r == FsError::NotADirectory(message),
            kind == IoKind::IsADirectory ==> r == FsError::IsADirectory(message),
            kind == IoKind::Other ==> r == FsError::Io(message),
    {
        match kind {
            IoKind::NotFound => FsError::NotFound(message),
            IoKind::NotADirectory => FsError::NotADirectory(message),
            IoKind::IsADirectory => FsError::IsADirectory(message),
            IoKind::Other => FsError::Io(message),
        }
    }

    /// The text shown to the caller.
    pub fn message(&self) -> (r: String)
        ensures
            self is OutsideWorkspace ==> r@ == outside_message(),
            self is NotFound ==> r@ == self->NotFound_0@,
            self is NotADirectory ==> r@ == self->NotADirectory_0@,
            self is IsADirectory ==> r@ == self->IsADirectory_0@,
            self is Io ==> r@ == self->Io_0@,
    {
        match self {
            FsError::OutsideWorkspace => {
                proof {
                    reveal_strlit("Path outside workspace");
                }
                "Path outside workspace".to_owned()
            },
            FsError::NotFound(m) => m.clone(),
            FsError::NotADirectory(m) => m.clone(),
            FsError::IsADirectory(m) => m.clone(),
            FsError::Io(m) => m.clone(),
        }
    }
}

/// The text of the containment failure.
pub open spec fn outside_message() -> Seq<char> {
    seq![
        'P', 'a', 't', 'h', ' ', 'o', 'u', 't', 's', 'i', 'd', 'e', ' ', 'w', 'o', 'r', 'k', 's',
        'p', 'a', 'c', 'e',
    ]
}

/// The outcome of resolving `p` under `root`.
pub open spec fn resolution(root: Seq<char>, p: Seq<char>) -> Option<Seq<char>> {
    if within(root, p) {
        Some(target(root, p))
    } else {
        None
    }
}

/// Whether a result is the resolution of `p` under `root`.
pub open spec fn resolved_as(r: Result<String, FsError>, root: Seq<char>, p: Seq<char>) -> bool {
    match r {
        Ok(t) => resolution(root, p) == Some(t@),
        Err(e) => resolution(root, p) is None && e is OutsideWorkspace,
    }
}

/// The workspace root against which every relative path is resolved.
pub struct Workspace {
    root: String,
}

impl View for Workspace {
    type V = Seq<char>;

    closed spec fn view(&self) -> Seq<char> {
        self.root@
    }
}

/// Resolves `p` under `root`: whether it stays inside, and the normal
/// components and absoluteness of the joined path.
fn join_checked(root: &Vec<char>, p: &Vec<char>) -> (r: (bool, bool, Vec<Vec<char>>))
    ensures
        r.0 == within(root@, p@),
        r.1 == joined_absolute(root@, p@),
        views(r.2@) == joined_comps(root@, p@),
{
    let root_abs = root.len() > 0 && root[0] == '/';
    let p_abs = p.len() > 0 && p[0] == '/';
    assert(root_abs == is_absolute(root@));
    assert(p_abs == is_absolute(p@));
    let empty: Vec<Vec<char>> = Vec::new();
    assert(views(empty@) =~= Seq::<Seq<char>>::empty());
    let root_comps = normalize_onto(root_abs, empty, &split_segments(root));
    let p_segs = split_segments(p);
    let (abs, comps) = if p_abs {
        let empty2: Vec<Vec<char>> = Vec::new();
        assert(views(empty2@) =~= Seq::<Seq<char>>::empty());
        (true, normalize_onto(true, empty2, &p_segs))
    } else {
        (root_abs, normalize_onto(root_abs, copy_comps(&root_comps), &p_segs))
    };
    let inside = abs == root_abs && is_comps_prefix(&root_comps, &comps) && has_no_parent_from(
        &comps,
        root_comps.len(),
    );
    (inside, abs, comps)
}

impl Workspace {
    /// A workspace rooted at `root`, taken as it is.
    pub fn new(root: String) -> (r: Workspace)
        ensures
            r@ == root@,
    {
        Workspace { root }
    }

    /// The current root.
    pub fn root(&self) -> (r: String)
        ensures
            r@ == self@,
    {
        self.root.clone()
    }

    /// Replaces the root with `new_root`, unchecked and wholesale.
    pub fn set_root(&mut self, new_root: String)
        ensures
            final(self)@ == new_root@,
    {
        self.root = new_root;
    }

    /// The path on which an operation on `p` acts, or `OutsideWorkspace`
    /// when `p` joined to the root and normalised leaves the root.
    pub fn resolve(&self, p: &str) -> (r: Result<String, FsError>)
        ensures
            resolved_as(r, self@, p@),
    {
        let (inside, abs, comps) = join_checked(&chars_of(self.root.as_str()), &chars_of(p));
        if inside {
            Ok(string_of(&render_path(abs, &comps)))
        } else {
            Err(FsError::OutsideWorkspace)
        }
    }

    /// Where writing `p` goes: its directory, created first, and the file.
    pub fn plan_write(&self, p: &str) -> (r: Result<WritePlan, FsError>)
        ensures
            match r {
                Ok(w) => within(self@, p@) && w.target@ == target(self@, p@) && match w.parent {
                    Some(d) => target_parent(self@, p@) == Some(d@),
                    None => target_parent(self@, p@) is None,
                },
                Err(e) => !within(self@, p@) && e is OutsideWorkspace,
            },
    {
        let (inside, abs, comps) = join_checked(&chars_of(self.root.as_str()), &chars_of(p));
        if !inside {
            return Err(FsError::OutsideWorkspace);
        }
        let target = string_of(&render_path(abs, &comps));
        let parent = if comps.len() == 0 {
            None
        } else {
            let mut up = copy_comps(&comps);
            let ghost before = up@;
            up.pop();
            assert(views(up@) =~= views(before).drop_last());
            Some(string_of(&render_path(abs, &up)))
        };
        Ok(WritePlan { parent, target })
    }

    /// The two paths of a rename; both must stay inside the root.
    pub fn resolve_pair(&self, from: &str, to: &str) -> (r: Result<(String, String), FsError>)
        ensures
            match r {
                Ok((a, b)) => resolution(self@, from@) == Some(a@) && resolution(self@, to@)
                    == Some(b@),
                Err(e) => (resolution(self@, from@) is None || resolution(self@, to@) is None)
                    && e is OutsideWorkspace,
            },
    {
        let a = self.resolve(from);
        let b = self.resolve(to);
        match (a, b) {
            (Ok(a), Ok(b)) => Ok((a, b)),
            _ => Err(FsError::OutsideWorkspace),
        }
    }
}

/// How to remove the node at `target`, found to be of kind `kind`: a
/// directory goes with everything under it, anything else alone.
pub fn removal_for(target: String, kind: NodeKind) -> (r: Removal)
    ensures
        r == (if kind == NodeKind::Directory {
            Removal::Tree(target)
        } else {
            Removal::File(target)
        }),
{
    match kind {
        NodeKind::Directory => Removal::Tree(target),
        NodeKind::File => Removal::File(target),
    }
}

} // verus!
