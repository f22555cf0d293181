//! Listing a directory.
//!
//! `ls` names the immediate entries of a directory, files and directories
//! alike, by their base names and in the order in which they were read. It
//! does not descend: entries further down, should the traversal hold any,
//! are left out.

use vstd::prelude::*;
use crate::path::{base_name, basename, file_name};
use crate::walk::{check_root, root_error, ErrorKind, Kind, Visit, VisitView};

verus! {

/// The step found an immediate entry of the root that has a base name.
pub open spec fn is_listed(visit: VisitView) -> bool {
    visit matches VisitView::Found(entry) && entry.depth == 1 && base_name(entry.path) is Some
}

/// The base name of the entry that a step found; meaningful for listed
/// steps.
pub open spec fn name_of(visit: VisitView) -> Seq<char> {
    base_name(visit->Found_0.path)->Some_0
}

/// The names that `ls` reports for a traversal: the base names of its
/// listed steps, in visiting order.
pub open spec fn listed_names(visits: Seq<VisitView>) -> Seq<Seq<char>> {
    visits.filter(|visit: VisitView| is_listed(visit)).map_values(
        |visit: VisitView| name_of(visit),
    )
}

/// The names after one more base name has been taken in: a name that is
/// there is added at the end, a missing one changes nothing.
pub open spec fn with_name(names: Seq<Seq<char>>, name: Option<Seq<char>>) -> Seq<Seq<char>> {
    match name {
        Some(name) => names.push(name),
        None => names,
    }
}

/// Adds a base name to a list of names, if there is one to add.
pub fn push_name(names: &mut Vec<String>, name: Option<String>)
    ensures
        final(names).deep_view() == with_name(old(names).deep_view(), name.deep_view()),
{
    match name {
        Some(name) => {
            names.push(name);
        },
        None => {},
    }
}

/// The names of the immediate entries of a directory, in the order in which
/// they were read.
///
/// Fails exactly when the traversal reports a problem with its root, with
/// that problem. Otherwise every entry directly below the root contributes
/// its base name, whether it is a file, a directory or something else;
/// entries that could not be read, entries further down and entries without
/// a base name are skipped.
pub fn ls(visits: &Vec<Visit>) -> (outcome: Result<Vec<String>, ErrorKind>)
    ensures
        match outcome {
            Ok(names) => {
                &&& root_error(visits.deep_view()) is None
                &&& names.deep_view() == listed_names(visits.deep_view())
            },
            Err(error) => root_error(visits.deep_view()) == Some(error),
        },
{
    match check_root(visits) {
        Err(error) => {
            return Err(error);
        },
        Ok(()) => {},
    }
    let ghost all = visits.deep_view();
    let ghost listed = |visit: VisitView| is_listed(visit);
    let mut names: Vec<String> = Vec::new();
    let mut i: usize = 0;
    proof {
        reveal(Seq::filter);
    }
    while i < visits.len()
        invariant
            i <= visits.len(),
            all == visits.deep_view(),
            listed == |visit: VisitView| is_listed(visit),
            names.deep_view() == listed_names(all.take(i as int)),
        decreases visits.len() - i,
    {
        match &visits[i] {
            Visit::Found(entry) => {
                if entry.depth == 1 {
                    let name = match entry.kind {
                        Kind::File => file_name(entry.path.as_str()),
                        _ => basename(entry.path.as_str()),
                    };
                    push_name(&mut names, name);
                }
            },
            Visit::Failed { .. } => {},
        }
        proof {
            let step = all[i as int];
            assert(all.take(i + 1) =~= all.take(i as int).push(step));
            all.take(i as int).lemma_filter_push(step, listed);
        }
        i += 1;
    }
    proof {
        assert(all.take(i as int) =~= all);
    }
    Ok(names)
}

} // verus!
