//! What a directory traversal reports, as plain values.
//!
//! A traversal is handed over as the sequence of its steps, in the order in
//! which they were made. Each step either found an entry or failed to read
//! one. Steps carry their depth below the starting directory, which has
//! depth 0; this is what separates a failure of the root, which ends the
//! whole operation, from a failure further down, which only loses one entry.

use vstd::prelude::*;

verus! {

/// What kind of thing an entry is, links followed.
#[derive(Clone, Copy, Debug, PartialEq, Eq, Structural)]
pub enum Kind {
    /// A regular file.
    File,
    /// A directory.
    Directory,
    /// Anything else: a dangling link, a device, a socket.
    Other,
}

/// Why a path could not be used.
#[derive(Clone, Copy, Debug, PartialEq, Eq, Structural)]
pub enum ErrorKind {
    /// The path does not exist.
    NotFound,
    /// A directory was asked for and the path is something else.
    NotADirectory,
    /// The path may not be read.
    PermissionDenied,
    /// What was read is not text.
    Decode,
    /// Reading failed for another reason.
    Io,
}

/// An entry that a traversal found.
#[derive(Debug)]
pub struct Entry {
    /// The path of the entry, starting with the root as it was given.
    pub path: String,
    /// How far below the root the entry lies; the root itself has depth 0.
    pub depth: usize,
    /// What the entry is.
    pub kind: Kind,
}

/// One step of a traversal.
#[derive(Debug)]
pub enum Visit {
    /// An entry was read.
    Found(Entry),
    /// An entry at the given depth could not be read.
    Failed { depth: usize, cause: ErrorKind },
}

/// The mathematical content of an [`Entry`].
pub struct EntryView {
    pub path: Seq<char>,
    pub depth: nat,
    pub kind: Kind,
}

/// The mathematical content of a [`Visit`].
pub enum VisitView {
    Found(EntryView),
    Failed { depth: nat, cause: ErrorKind },
}

impl View for Entry {
    type V = EntryView;

    open spec fn view(&self) -> EntryView {
        EntryView { path: self.path@, depth: self.depth as nat, kind: self.kind }
    }
}

impl DeepView for Entry {
    type V = EntryView;

    open spec fn deep_view(&self) -> EntryView {
        self@
    }
}

impl View for Visit {
    type V = VisitView;

    open spec fn view(&self) -> VisitView {
        match *self {
            Visit::Found(entry) => VisitView::Found(entry@),
            Visit::Failed { depth, cause } => VisitView::Failed { depth: depth as nat, cause },
        }
    }
}

impl DeepView for Visit {
    type V = VisitView;

    open spec fn deep_view(&self) -> VisitView {
        self@
    }
}

/// What, if anything, a single step says is wrong with the root: it could
/// not be read, or it was read and is not a directory.
pub open spec fn root_problem(visit: VisitView) -> Option<ErrorKind> {
    match visit {
        VisitView::Failed { depth, cause } => if depth == 0 {
            Some(cause)
        } else {
            None
        },
        VisitView::Found(entry) => if entry.depth == 0 && entry.kind != Kind::Directory {
            Some(ErrorKind::NotADirectory)
        } else {
            None
        },
    }
}

/// The error that ends an operation over this traversal: the first problem
/// with the root, in visiting order. `None` when the root was a readable
/// directory, whatever happened below it.
pub open spec fn root_error(visits: Seq<VisitView>) -> Option<ErrorKind>
    decreases visits.len(),
{
    if visits.len() == 0 {
        None
    } else if root_problem(visits[0]) is Some {
        root_problem(visits[0])
    } else {
        root_error(visits.drop_first())
    }
}

impl Visit {
    /// What this step says is wrong with the root, if anything.
    pub fn root_problem(&self) -> (problem: Option<ErrorKind>)
        ensures
            problem == root_problem(self@),
    {
        match self {
            Visit::Failed { depth, cause } => if *depth == 0 {
                Some(*cause)
            } else {
                None
            },
            Visit::Found(entry) => if entry.depth == 0 && entry.kind != Kind::Directory {
                Some(ErrorKind::NotADirectory)
            } else {
                None
            },
        }
    }
}

/// Decides whether a traversal may be used at all. Fails with the first
/// problem that the traversal reports for its root, and only then: failures
/// below the root never make this fail.
pub fn check_root(visits: &Vec<Visit>) -> (outcome: Result<(), ErrorKind>)
    ensures
        outcome == match root_error(visits.deep_view()) {
            Some(error) => Err::<(), ErrorKind>(error),
            None => Ok(()),
        },
{
    let ghost all = visits.deep_view();
    let mut i: usize = 0;
    proof {
        assert(all.skip(0) =~= all);
    }
    while i < visits.len()
        invariant
            i <= visits.len(),
            all == visits.deep_view(),
            root_error(all) == root_error(all.skip(i as int)),
        decreases visits.len() - i,
    {
        proof {
            assert(all.skip(i as int).drop_first() =~= all.skip(i + 1));
        }
        match visits[i].root_problem() {
            Some(error) => {
                return Err(error);
            },
            None => {},
        }
        i += 1;
    }
    Ok(())
}

/// A traversal has no error exactly when none of its steps reports a
/// problem with the root; when it has one, it is the problem of the first
/// step that reports any.
pub proof fn lemma_root_error_first(visits: Seq<VisitView>)
    ensures
        root_error(visits) is None <==> forall|i: int|
            0 <= i < visits.len() ==> root_problem(#[trigger] visits[i]) is None,
        root_error(visits) matches Some(error) ==> exists|i: int|
            0 <= i < visits.len() && #[trigger] root_problem(visits[i]) == Some(error) && forall|j: int|
                0 <= j < i ==> root_problem(#[trigger] visits[j]) is None,
    decreases visits.len(),
{
    if visits.len() > 0 && root_problem(visits[0]) is None {
        let rest = visits.drop_first();
        lemma_root_error_first(rest);
        if root_error(visits) is None {
            assert forall|i: int| 0 <= i < visits.len() implies root_problem(
                #[trigger] visits[i],
            ) is None by {
                if i > 0 {
                    assert(rest[i - 1] == visits[i]);
                }
            }
        } else {
            let error = root_error(visits)->Some_0;
            let k = choose|i: int|
                0 <= i < rest.len() && #[trigger] root_problem(rest[i]) == Some(error)
                    && forall|j: int| 0 <= j < i ==> root_problem(#[trigger] rest[j]) is None;
            assert(root_problem(visits[k + 1]) == Some(error));
            assert forall|j: int| 0 <= j < k + 1 implies root_problem(#[trigger] visits[j]) is None by {
                if j > 0 {
                    assert(rest[j - 1] == visits[j]);
                }
            }
        }
    }
}

impl ErrorKind {
    /// A short description of the error, fit to show to a person.
    pub fn describe(&self) -> (text: String)
        ensures
            text@ == self.description(),
    {
        match self {
            ErrorKind::NotFound => "no such file or directory".to_owned(),
            ErrorKind::NotADirectory => "not a directory".to_owned(),
            ErrorKind::PermissionDenied => "permission denied".to_owned(),
            ErrorKind::Decode => "not valid text".to_owned(),
            ErrorKind::Io => "input/output error".to_owned(),
        }
    }

    /// The text that [`ErrorKind::describe`] returns.
    pub open spec fn description(&self) -> Seq<char> {
        match *self {
            ErrorKind::NotFound => "no such file or directory"@,
            ErrorKind::NotADirectory => "not a directory"@,
            ErrorKind::PermissionDenied => "permission denied"@,
            ErrorKind::Decode => "not valid text"@,
            ErrorKind::Io => "input/output error"@,
        }
    }
}

} // verus!
