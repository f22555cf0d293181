//! Finding files by name.
//!
//! `find` reports the regular files of a traversal whose base name contains
//! a pattern, in the order in which the traversal visited them. Directories
//! are walked through but never reported, and an entry that could not be
//! read is passed over.

use vstd::prelude::*;
use crate::path::{base_name, file_name};
use crate::text::{has_substring, str_contains};
use crate::walk::{check_root, root_error, ErrorKind, Kind, Visit, VisitView};

verus! {

/// A name that is present and contains the pattern.
pub open spec fn name_has(pattern: Seq<char>, name: Option<Seq<char>>) -> bool {
    name matches Some(text) && has_substring(text, pattern)
}

/// The step found a regular file whose base name contains the pattern.
pub open spec fn is_hit(pattern: Seq<char>, visit: VisitView) -> bool {
    visit matches VisitView::Found(entry) && entry.kind == Kind::File && name_has(
        pattern,
        base_name(entry.path),
    )
}

/// The path that a step found; meaningful for steps that found an entry.
pub open spec fn path_of(visit: VisitView) -> Seq<char> {
    visit->Found_0.path
}

/// The paths that `find` reports for a traversal: those of its hits, in
/// visiting order.
pub open spec fn found_paths(pattern: Seq<char>, visits: Seq<VisitView>) -> Seq<Seq<char>> {
    visits.filter(|visit: VisitView| is_hit(pattern, visit)).map_values(
        |visit: VisitView| path_of(visit),
    )
}

/// Some step of the traversal is a hit with this path.
pub open spec fn is_hit_path(pattern: Seq<char>, visits: Seq<VisitView>, path: Seq<char>) -> bool {
    exists|i: int|
        0 <= i < visits.len() && is_hit(pattern, #[trigger] visits[i]) && path_of(visits[i]) == path
}

/// No two steps of the traversal found the same path.
pub open spec fn distinct_paths(visits: Seq<VisitView>) -> bool {
    forall|i: int, j: int|
        0 <= i < j < visits.len() && visits[i] is Found && visits[j] is Found ==> path_of(
            #[trigger] visits[i],
        ) != path_of(#[trigger] visits[j])
}

/// `path` stands at exactly one place in `paths`.
pub open spec fn occurs_once(paths: Seq<Seq<char>>, path: Seq<char>) -> bool {
    exists|k: int|
        0 <= k < paths.len() && #[trigger] paths[k] == path && forall|m: int|
            0 <= m < paths.len() && #[trigger] paths[m] == path ==> m == k
}

/// Whether a base name, as far as there is one, contains the pattern.
pub fn name_contains(pattern: &str, name: &Option<String>) -> (hit: bool)
    ensures
        hit == name_has(pattern@, name.deep_view()),
{
    match name {
        Some(text) => str_contains(text.as_str(), pattern),
        None => false,
    }
}

/// The regular files of a traversal whose base name contains `pattern`, in
/// visiting order.
///
/// Fails exactly when the traversal reports a problem with its root, with
/// that problem. Otherwise every step that found a regular file with a
/// matching base name contributes its path, once, and nothing else does:
/// directories, other entries and unreadable entries are skipped. An empty
/// pattern matches every name.
pub fn find(pattern: &str, visits: &Vec<Visit>) -> (outcome: Result<Vec<String>, ErrorKind>)
    ensures
        match outcome {
            Ok(paths) => {
                &&& root_error(visits.deep_view()) is None
                &&& paths.deep_view() == found_paths(pattern@, visits.deep_view())
                &&& forall|k: int|
                    0 <= k < paths.len() ==> name_has(
                        pattern@,
                        base_name(#[trigger] paths.deep_view()[k]),
                    )
                &&& forall|i: int|
                    0 <= i < visits.len() && is_hit(pattern@, #[trigger] visits.deep_view()[i])
                        ==> paths.deep_view().contains(path_of(visits.deep_view()[i]))
                &&& distinct_paths(visits.deep_view()) ==> paths.deep_view().no_duplicates()
            },
            Err(error) => root_error(visits.deep_view()) == Some(error),
        },
{
    match check_root(visits) {
        Err(error) => {
            return Err(error);
        },
        Ok(()) => {},
    }
    let ghost all = visits.deep_view();
    let ghost hit = |visit: VisitView| is_hit(pattern@, visit);
    let mut paths: Vec<String> = Vec::new();
    let mut i: usize = 0;
    proof {
        reveal(Seq::filter);
    }
    while i < visits.len()
        invariant
            i <= visits.len(),
            all == visits.deep_view(),
            hit == |visit: VisitView| is_hit(pattern@, visit),
            paths.deep_view() == found_paths(pattern@, all.take(i as int)),
        decreases visits.len() - i,
    {
        let ghost before = paths.deep_view();
        let mut reported: bool = false;
        match &visits[i] {
            Visit::Found(entry) => {
                if entry.kind == Kind::File {
                    let name = file_name(entry.path.as_str());
                    if name_contains(pattern, &name) {
                        paths.push(entry.path.clone());
                        reported = true;
                    }
                }
            },
            Visit::Failed { .. } => {},
        }
        proof {
            let step = all[i as int];
            assert(all.take(i + 1) =~= all.take(i as int).push(step));
            all.take(i as int).lemma_filter_push(step, hit);
            if reported {
                assert(paths.deep_view() =~= before.push(path_of(step)));
            }
        }
        i += 1;
    }
    proof {
        assert(all.take(i as int) =~= all);
        lemma_found_only_hits(pattern@, all);
        lemma_found_every_hit(pattern@, all);
        lemma_found_once(pattern@, all);
    }
    Ok(paths)
}

/// Every path that `find` reports has a base name that contains the
/// pattern, and is the path of a regular file that the traversal found.
pub proof fn lemma_found_only_hits(pattern: Seq<char>, visits: Seq<VisitView>)
    ensures
        forall|k: int|
            0 <= k < found_paths(pattern, visits).len() ==> name_has(
                pattern,
                base_name(#[trigger] found_paths(pattern, visits)[k]),
            ),
        forall|k: int|
            0 <= k < found_paths(pattern, visits).len() ==> is_hit_path(
                pattern,
                visits,
                #[trigger] found_paths(pattern, visits)[k],
            ),
{
    let hit = |visit: VisitView| is_hit(pattern, visit);
    let hits = visits.filter(hit);
    let paths = found_paths(pattern, visits);
    assert forall|k: int| 0 <= k < paths.len() implies name_has(
        pattern,
        base_name(#[trigger] paths[k]),
    ) && is_hit_path(pattern, visits, paths[k]) by {
        visits.lemma_filter_pred(hit, k);
        visits.lemma_filter_contains_rev(hit, hits[k]);
    }
}

/// Every regular file of the traversal whose base name contains the pattern
/// is reported.
pub proof fn lemma_found_every_hit(pattern: Seq<char>, visits: Seq<VisitView>)
    ensures
        forall|i: int|
            0 <= i < visits.len() && is_hit(pattern, #[trigger] visits[i]) ==> found_paths(
                pattern,
                visits,
            ).contains(path_of(visits[i])),
{
    let hit = |visit: VisitView| is_hit(pattern, visit);
    let hits = visits.filter(hit);
    let paths = found_paths(pattern, visits);
    assert forall|i: int| 0 <= i < visits.len() && is_hit(pattern, #[trigger] visits[i]) implies paths.contains(
        path_of(visits[i]),
    ) by {
        visits.lemma_filter_contains(hit, i);
        let k = choose|k: int| 0 <= k < hits.len() && hits[k] == visits[i];
        assert(paths[k] == path_of(visits[i]));
    }
}

/// In a traversal that visits no path twice, no path is reported twice.
pub proof fn lemma_found_once(pattern: Seq<char>, visits: Seq<VisitView>)
    ensures
        distinct_paths(visits) ==> found_paths(pattern, visits).no_duplicates(),
    decreases visits.len(),
{
    let hit = |visit: VisitView| is_hit(pattern, visit);
    if distinct_paths(visits) {
        if visits.len() == 0 {
            reveal(Seq::filter);
        } else {
            let front = visits.drop_last();
            let step = visits.last();
            assert(visits =~= front.push(step));
            assert(distinct_paths(front));
            lemma_found_once(pattern, front);
            front.lemma_filter_push(step, hit);
            let earlier = found_paths(pattern, front);
            if is_hit(pattern, step) {
                assert(found_paths(pattern, visits) =~= earlier.push(path_of(step)));
                lemma_found_only_hits(pattern, front);
                assert forall|k: int| 0 <= k < earlier.len() implies earlier[k] != path_of(
                    step,
                ) by {
                    assert(is_hit_path(pattern, front, earlier[k]));
                }
            }
        }
    }
}

/// In a traversal that visits no path twice, every regular file whose base
/// name contains the pattern is reported exactly once.
pub proof fn lemma_found_exactly_once(pattern: Seq<char>, visits: Seq<VisitView>, i: int)
    requires
        distinct_paths(visits),
        0 <= i < visits.len(),
        is_hit(pattern, visits[i]),
    ensures
        occurs_once(found_paths(pattern, visits), path_of(visits[i])),
{
    let paths = found_paths(pattern, visits);
    let path = path_of(visits[i]);
    lemma_found_every_hit(pattern, visits);
    lemma_found_once(pattern, visits);
    let k = choose|k: int| 0 <= k < paths.len() && paths[k] == path;
    assert(0 <= k < paths.len() && paths[k] == path && forall|m: int|
        0 <= m < paths.len() && #[trigger] paths[m] == path ==> m == k);
}

} // verus!
