//! Searching the files of a traversal line by line.
//!
//! `grep` keeps, for every regular file with at least one matching line, the
//! matching lines under the file's base name. A file without a match leaves
//! no trace. Files keep the order in which they were first recorded; when a
//! later file has the base name of an earlier one, it takes the earlier
//! one's place, as a later insertion into a map replaces an earlier one.

use vstd::prelude::*;
use crate::lines::{
    ascending, lemma_matching_ascending, lemma_matching_map, lemma_matching_some, line_map,
    matching_lines, matching_map, search_lines, Line, LineMatch,
};
use crate::path::{base_name, file_name};
use crate::walk::{root_error, ErrorKind, Kind, Visit, VisitView};

verus! {

/// A step of a traversal together with what was read there. `lines` holds
/// the attempts to read the lines of a regular file, in order; for any other
/// step it is not looked at. A file that could not be opened is a file whose
/// first line could not be read.
#[derive(Debug)]
pub struct Scan {
    pub visit: Visit,
    pub lines: Vec<Line>,
}

/// The matching lines of one file.
#[derive(Debug)]
pub struct FileMatches {
    /// The base name of the file.
    pub name: String,
    /// Its matching lines, in ascending order of line number.
    pub lines: Vec<LineMatch>,
}

/// What `grep` found: the files with matches, in the order in which they
/// were first recorded. A result is built from [`GrepResult::new`] by
/// [`GrepResult::record`], and these keep it [`well_formed`]: no base name
/// stands twice, and every file has a line.
#[derive(Debug)]
pub struct GrepResult {
    files: Vec<FileMatches>,
}

/// The mathematical content of a [`Scan`].
pub struct ScanView {
    pub visit: VisitView,
    pub lines: Seq<Option<Seq<char>>>,
}

/// The mathematical content of a [`FileMatches`].
pub struct FileMatchesView {
    pub name: Seq<char>,
    pub lines: Seq<(nat, Seq<char>)>,
}

impl View for Scan {
    type V = ScanView;

    open spec fn view(&self) -> ScanView {
        ScanView { visit: self.visit@, lines: self.lines.deep_view() }
    }
}

impl DeepView for Scan {
    type V = ScanView;

    open spec fn deep_view(&self) -> ScanView {
        self@
    }
}

impl View for FileMatches {
    type V = FileMatchesView;

    open spec fn view(&self) -> FileMatchesView {
        FileMatchesView { name: self.name@, lines: self.lines.deep_view() }
    }
}

impl DeepView for FileMatches {
    type V = FileMatchesView;

    open spec fn deep_view(&self) -> FileMatchesView {
        self@
    }
}

impl View for GrepResult {
    type V = Seq<FileMatchesView>;

    closed spec fn view(&self) -> Seq<FileMatchesView> {
        self.files.deep_view()
    }
}

/// The steps of a sequence of scans.
pub open spec fn visits_of(scans: Seq<ScanView>) -> Seq<VisitView> {
    scans.map_values(|scan: ScanView| scan.visit)
}

/// Where the first file named `name` stands, or the number of files if
/// there is none.
pub open spec fn position(files: Seq<FileMatchesView>, name: Seq<char>) -> int
    decreases files.len(),
{
    if files.len() == 0 || files[0].name == name {
        0
    } else {
        1 + position(files.drop_first(), name)
    }
}

/// The files after the matches `lines` of a file with base name `name` have
/// been recorded. Nothing changes when the file has no base name or no
/// matching line. Otherwise the file takes the place of the first file of
/// that name, or, if there is none, comes last.
pub open spec fn recorded(
    files: Seq<FileMatchesView>,
    name: Option<Seq<char>>,
    lines: Seq<(nat, Seq<char>)>,
) -> Seq<FileMatchesView> {
    if name is Some && lines.len() > 0 {
        let file = FileMatchesView { name: name->Some_0, lines };
        let at = position(files, file.name);
        if at < files.len() {
            files.update(at, file)
        } else {
            files.push(file)
        }
    } else {
        files
    }
}

/// The files after one more scan: a regular file is searched and recorded,
/// any other step changes nothing.
pub open spec fn scanned(
    pattern: Seq<char>,
    files: Seq<FileMatchesView>,
    scan: ScanView,
) -> Seq<FileMatchesView> {
    match scan.visit {
        VisitView::Found(entry) => if entry.kind == Kind::File {
            recorded(files, base_name(entry.path), matching_lines(pattern, scan.lines))
        } else {
            files
        },
        VisitView::Failed { .. } => files,
    }
}

/// The files that `grep` reports for a sequence of scans: each scan in turn
/// applied to what the scans before it gave.
pub open spec fn grep_files(pattern: Seq<char>, scans: Seq<ScanView>) -> Seq<FileMatchesView>
    decreases scans.len(),
{
    if scans.len() == 0 {
        Seq::empty()
    } else {
        scanned(pattern, grep_files(pattern, scans.drop_last()), scans.last())
    }
}

/// The mapping from base name to line mapping that a sequence of files
/// stands for; where a name occurs twice, the later file counts.
pub open spec fn file_map(files: Seq<FileMatchesView>) -> Map<Seq<char>, Map<nat, Seq<char>>>
    decreases files.len(),
{
    if files.len() == 0 {
        Map::empty()
    } else {
        file_map(files.drop_last()).insert(files.last().name, line_map(files.last().lines))
    }
}

/// The scan is of a regular file with base name `name`.
pub open spec fn is_named_file(scan: ScanView, name: Seq<char>) -> bool {
    &&& scan.visit matches VisitView::Found(entry)
    &&& entry.kind == Kind::File
    &&& base_name(entry.path) == Some(name)
}

/// The scan is of a regular file with base name `name` and at least one
/// matching line.
pub open spec fn contributes(pattern: Seq<char>, scan: ScanView, name: Seq<char>) -> bool {
    is_named_file(scan, name) && matching_lines(pattern, scan.lines).len() > 0
}

/// The result of `grep` as a mapping, said directly: a mapping from base
/// name to the line mapping of the last regular file of that name that has
/// a matching line.
pub open spec fn grep_map(pattern: Seq<char>, scans: Seq<ScanView>) -> Map<
    Seq<char>,
    Map<nat, Seq<char>>,
> {
    Map::new(
        |name: Seq<char>|
            exists|i: int| 0 <= i < scans.len() && contributes(pattern, #[trigger] scans[i], name),
        |name: Seq<char>| matching_map(pattern, scans[last_contribution(pattern, scans, name)].lines),
    )
}

/// The position of the last scan that contributes to `name`.
pub open spec fn last_contribution(pattern: Seq<char>, scans: Seq<ScanView>, name: Seq<char>) -> int {
    choose|i: int|
        0 <= i < scans.len() && contributes(pattern, #[trigger] scans[i], name) && forall|j: int|
            i < j < scans.len() ==> !contributes(pattern, #[trigger] scans[j], name)
}

/// No two files have the same name, and every file has a line.
pub open spec fn well_formed(files: Seq<FileMatchesView>) -> bool {
    &&& forall|i: int, j: int|
        0 <= i < j < files.len() ==> (#[trigger] files[i]).name != (#[trigger] files[j]).name
    &&& forall|i: int| 0 <= i < files.len() ==> (#[trigger] files[i]).lines.len() > 0
}

impl GrepResult {
    /// A result without files.
    pub fn new() -> (result: GrepResult)
        ensures
            result@ == Seq::<FileMatchesView>::empty(),
            well_formed(result@),
    {
        GrepResult { files: Vec::new() }
    }

    /// The result as a mapping from base name to line number to line.
    pub open spec fn as_map(&self) -> Map<Seq<char>, Map<nat, Seq<char>>> {
        file_map(self@)
    }

    /// The files with matches, in the order in which they were first
    /// recorded.
    pub fn files(&self) -> (files: &Vec<FileMatches>)
        ensures
            files.deep_view() == self@,
    {
        &self.files
    }

    /// Where the first file named `name` stands, or the number of files if
    /// there is none.
    fn position(&self, name: &String) -> (at: usize)
        ensures
            at == position(self@, name@),
            at <= self.files.len(),
    {
        let ghost all = self.files.deep_view();
        let mut at: usize = 0;
        proof {
            assert(all.skip(0) =~= all);
        }
        while at < self.files.len()
            invariant
                at <= self.files.len(),
                all == self.files.deep_view(),
                position(all, name@) == at + position(all.skip(at as int), name@),
            decreases self.files.len() - at,
        {
            proof {
                assert(all.skip(at as int).drop_first() =~= all.skip(at + 1));
            }
            if self.files[at].name == *name {
                return at;
            }
            at += 1;
        }
        at
    }

    /// Records the matching lines of a file under its base name.
    ///
    /// A file without a base name or without a matching line is not
    /// recorded. A file whose name is already present replaces the file of
    /// that name where it stands; any other file is added at the end.
    pub fn record(&mut self, name: Option<String>, lines: Vec<LineMatch>)
        ensures
            final(self)@ == recorded(old(self)@, name.deep_view(), lines.deep_view()),
            well_formed(old(self)@) ==> well_formed(final(self)@),
    {
        let ghost after = recorded(self@, name.deep_view(), lines.deep_view());
        proof {
            if well_formed(self@) && name is Some && lines.len() > 0 {
                lemma_recorded(self@, name->Some_0@, lines.deep_view());
            }
        }
        match name {
            None => {},
            Some(name) => {
                if lines.len() > 0 {
                    let at: usize = self.position(&name);
                    let file = FileMatches { name, lines };
                    if at < self.files.len() {
                        self.files.set(at, file);
                    } else {
                        self.files.push(file);
                    }
                }
            },
        }
        assert(self@ =~= after);
    }
}

/// The matching lines of the regular files of a traversal, by base name.
///
/// Fails exactly when the scans report a problem with the root of the
/// traversal, with that problem. Otherwise every regular file is searched
/// for `pattern` and, if a line matches, recorded under its base name;
/// directories, other entries and unreadable entries are skipped, and so is
/// a file with no matching line. The result, read as a mapping, holds for
/// each base name the matches of the last file of that name that has any.
pub fn grep(pattern: &str, scans: &Vec<Scan>) -> (outcome: Result<GrepResult, ErrorKind>)
    ensures
        match outcome {
            Ok(result) => {
                &&& root_error(visits_of(scans.deep_view())) is None
                &&& result@ == grep_files(pattern@, scans.deep_view())
                &&& result.as_map() == grep_map(pattern@, scans.deep_view())
                &&& well_formed(result@)
                &&& forall|k: int| 0 <= k < result@.len() ==> ascending((#[trigger] result@[k]).lines)
            },
            Err(error) => root_error(visits_of(scans.deep_view())) == Some(error),
        },
{
    let ghost all = scans.deep_view();
    let ghost steps = visits_of(all);
    let mut i: usize = 0;
    proof {
        assert(steps.skip(0) =~= steps);
    }
    while i < scans.len()
        invariant
            i <= scans.len(),
            all == scans.deep_view(),
            steps == visits_of(all),
            root_error(steps) == root_error(steps.skip(i as int)),
        decreases scans.len() - i,
    {
        proof {
            assert(steps.skip(i as int).drop_first() =~= steps.skip(i + 1));
        }
        match scans[i].visit.root_problem() {
            Some(error) => {
                return Err(error);
            },
            None => {},
        }
        i += 1;
    }
    let mut result = GrepResult::new();
    let mut i: usize = 0;
    while i < scans.len()
        invariant
            i <= scans.len(),
            all == scans.deep_view(),
            result@ == grep_files(pattern@, all.take(i as int)),
        decreases scans.len() - i,
    {
        proof {
            assert(all.take(i + 1).drop_last() =~= all.take(i as int));
        }
        match &scans[i].visit {
            Visit::Found(entry) => {
                if entry.kind == Kind::File {
                    let lines = search_lines(pattern, &scans[i].lines);
                    let name = file_name(entry.path.as_str());
                    result.record(name, lines);
                }
            },
            Visit::Failed { .. } => {},
        }
        i += 1;
    }
    proof {
        assert(all.take(i as int) =~= all);
        lemma_grep_map(pattern@, all);
    }
    Ok(result)
}

/// `position` is the place of the first file of the name.
pub proof fn lemma_position(files: Seq<FileMatchesView>, name: Seq<char>)
    ensures
        0 <= position(files, name) <= files.len(),
        forall|i: int| 0 <= i < position(files, name) ==> (#[trigger] files[i]).name != name,
        position(files, name) < files.len() ==> files[position(files, name)].name == name,
    decreases files.len(),
{
    if files.len() > 0 && files[0].name != name {
        let rest = files.drop_first();
        lemma_position(rest, name);
        assert forall|i: int| 0 <= i < position(files, name) implies (#[trigger] files[i]).name
            != name by {
            if i > 0 {
                assert(rest[i - 1] == files[i]);
            }
        }
        if position(files, name) < files.len() {
            assert(rest[position(rest, name)] == files[position(files, name)]);
        }
    }
}

/// What the mapping of well-formed files holds: exactly their names, each
/// with the lines of its file.
pub proof fn lemma_file_map_members(files: Seq<FileMatchesView>)
    requires
        well_formed(files),
    ensures
        forall|k: int|
            0 <= k < files.len() ==> file_map(files).dom().contains((#[trigger] files[k]).name)
                && file_map(files)[files[k].name] == line_map(files[k].lines),
        forall|name: Seq<char>| #[trigger]
            file_map(files).dom().contains(name) ==> exists|k: int|
                0 <= k < files.len() && (#[trigger] files[k]).name == name,
    decreases files.len(),
{
    if files.len() > 0 {
        let front = files.drop_last();
        assert(well_formed(front)) by {
            assert forall|i: int| 0 <= i < front.len() implies front[i] == files[i] by {}
        }
        lemma_file_map_members(front);
        assert forall|k: int| 0 <= k < files.len() implies file_map(files).dom().contains(
            (#[trigger] files[k]).name,
        ) && file_map(files)[files[k].name] == line_map(files[k].lines) by {
            if k < front.len() {
                assert(front[k] == files[k]);
                assert(files[k].name != files[files.len() - 1].name);
            }
        }
        assert forall|name: Seq<char>| #[trigger]
            file_map(files).dom().contains(name) implies exists|k: int|
            0 <= k < files.len() && (#[trigger] files[k]).name == name by {
            if name == files.last().name {
                assert(files[files.len() - 1].name == name);
            } else {
                assert(file_map(front).dom().contains(name));
                let k = choose|k: int| 0 <= k < front.len() && (#[trigger] front[k]).name == name;
                assert(files[k] == front[k]);
            }
        }
    }
}

/// Recording a file with a base name and a matching line is an insertion
/// into the mapping, and keeps the files well-formed.
pub proof fn lemma_recorded(
    files: Seq<FileMatchesView>,
    name: Seq<char>,
    lines: Seq<(nat, Seq<char>)>,
)
    requires
        well_formed(files),
        lines.len() > 0,
    ensures
        well_formed(recorded(files, Some(name), lines)),
        file_map(recorded(files, Some(name), lines)) == file_map(files).insert(
            name,
            line_map(lines),
        ),
{
    let after = recorded(files, Some(name), lines);
    let at = position(files, name);
    lemma_position(files, name);
    assert(well_formed(after)) by {
        assert forall|i: int, j: int| 0 <= i < j < after.len() implies (#[trigger] after[i]).name
            != (#[trigger] after[j]).name by {
            if at < files.len() {
                assert(after[i].name == files[i].name);
                assert(after[j].name == files[j].name);
            } else if j < files.len() {
                assert(after[i] == files[i] && after[j] == files[j]);
            } else {
                assert(after[i] == files[i]);
            }
        }
        assert forall|i: int| 0 <= i < after.len() implies (#[trigger] after[i]).lines.len()
            > 0 by {
            if i != at {
                assert(after[i] == files[i]);
            }
        }
    }
    lemma_file_map_members(files);
    lemma_file_map_members(after);
    let left = file_map(after);
    let right = file_map(files).insert(name, line_map(lines));
    assert(after[at].name == name && after[at].lines == lines);
    assert forall|key: Seq<char>| left.dom().contains(key) == right.dom().contains(key) by {
        if left.dom().contains(key) {
            let k = choose|k: int| 0 <= k < after.len() && (#[trigger] after[k]).name == key;
            if k != at {
                assert(after[k] == files[k]);
            }
        }
        if right.dom().contains(key) && key != name {
            let k = choose|k: int| 0 <= k < files.len() && (#[trigger] files[k]).name == key;
            assert(after[k] == files[k]);
        }
    }
    assert forall|key: Seq<char>| left.dom().contains(key) implies left[key] == right[key] by {
        let k = choose|k: int| 0 <= k < after.len() && (#[trigger] after[k]).name == key;
        if k != at {
            assert(after[k] == files[k]);
            assert(files[k].name != name);
        }
    }
    assert(left =~= right);
}

/// The files that `grep` reports are well-formed, their lines ascend, and
/// read as a mapping they are [`grep_map`].
pub proof fn lemma_grep_map(pattern: Seq<char>, scans: Seq<ScanView>)
    ensures
        well_formed(grep_files(pattern, scans)),
        forall|k: int|
            0 <= k < grep_files(pattern, scans).len() ==> ascending(
                (#[trigger] grep_files(pattern, scans)[k]).lines,
            ),
        file_map(grep_files(pattern, scans)) == grep_map(pattern, scans),
    decreases scans.len(),
{
    let files = grep_files(pattern, scans);
    if scans.len() == 0 {
        assert(file_map(files) =~= grep_map(pattern, scans));
    } else {
        let front = scans.drop_last();
        let scan = scans.last();
        let earlier = grep_files(pattern, front);
        lemma_grep_map(pattern, front);
        assert forall|i: int| 0 <= i < front.len() implies front[i] == scans[i] by {}
        let lines = matching_lines(pattern, scan.lines);
        let added = scan.visit is Found && scan.visit->Found_0.kind == Kind::File && base_name(
            scan.visit->Found_0.path,
        ) is Some && lines.len() > 0;
        if added {
            let name = base_name(scan.visit->Found_0.path)->Some_0;
            lemma_recorded(earlier, name, lines);
            lemma_position(earlier, name);
            lemma_matching_ascending(pattern, scan.lines);
            lemma_matching_map(pattern, scan.lines);
            assert forall|k: int| 0 <= k < files.len() implies ascending(
                (#[trigger] files[k]).lines,
            ) by {
                if k != position(earlier, name) {
                    assert(files[k] == earlier[k]);
                }
            }
            assert(contributes(pattern, scans[scans.len() - 1], name));
            let left = file_map(files);
            let right = grep_map(pattern, scans);
            assert forall|key: Seq<char>| left.dom().contains(key) == right.dom().contains(
                key,
            ) by {
                if grep_map(pattern, front).dom().contains(key) {
                    let i = choose|i: int|
                        0 <= i < front.len() && contributes(pattern, #[trigger] front[i], key);
                    assert(contributes(pattern, scans[i], key));
                }
                if right.dom().contains(key) && key != name {
                    let i = choose|i: int|
                        0 <= i < scans.len() && contributes(pattern, #[trigger] scans[i], key);
                    assert(contributes(pattern, front[i], key));
                }
            }
            assert forall|key: Seq<char>| left.dom().contains(key) implies left[key]
                == right[key] by {
                lemma_last_contribution(pattern, scans, key);
                let last = last_contribution(pattern, scans, key);
                if key == name {
                    assert(last == scans.len() - 1);
                } else {
                    assert(contributes(pattern, front[last], key));
                    lemma_last_contribution(pattern, front, key);
                    let before = last_contribution(pattern, front, key);
                    assert(contributes(pattern, scans[before], key));
                    assert(before == last) by {
                        if before < last {
                            assert(!contributes(pattern, front[last], key));
                        } else if last < before {
                            assert(!contributes(pattern, scans[before], key));
                        }
                    }
                }
            }
            assert(left =~= right);
        } else {
            assert(files == earlier);
            let left = grep_map(pattern, front);
            let right = grep_map(pattern, scans);
            assert forall|key: Seq<char>| left.dom().contains(key) == right.dom().contains(
                key,
            ) by {
                if left.dom().contains(key) {
                    let i = choose|i: int|
                        0 <= i < front.len() && contributes(pattern, #[trigger] front[i], key);
                    assert(contributes(pattern, scans[i], key));
                }
                if right.dom().contains(key) {
                    let i = choose|i: int|
                        0 <= i < scans.len() && contributes(pattern, #[trigger] scans[i], key);
                    assert(contributes(pattern, front[i], key));
                }
            }
            assert forall|key: Seq<char>| left.dom().contains(key) implies left[key]
                == right[key] by {
                lemma_last_contribution(pattern, scans, key);
                lemma_last_contribution(pattern, front, key);
                let last = last_contribution(pattern, scans, key);
                let before = last_contribution(pattern, front, key);
                assert(contributes(pattern, front[last], key));
                assert(contributes(pattern, scans[before], key));
                assert(before == last) by {
                    if before < last {
                        assert(!contributes(pattern, front[last], key));
                    } else if last < before {
                        assert(!contributes(pattern, scans[before], key));
                    }
                }
            }
            assert(left =~= right);
        }
    }
}

/// Where some scan contributes to a name, there is a last one that does.
pub proof fn lemma_last_contribution(pattern: Seq<char>, scans: Seq<ScanView>, name: Seq<char>)
    requires
        exists|i: int| 0 <= i < scans.len() && contributes(pattern, #[trigger] scans[i], name),
    ensures
        0 <= last_contribution(pattern, scans, name) < scans.len(),
        contributes(pattern, scans[last_contribution(pattern, scans, name)], name),
        forall|j: int|
            last_contribution(pattern, scans, name) < j < scans.len() ==> !contributes(
                pattern,
                #[trigger] scans[j],
                name,
            ),
    decreases scans.len(),
{
    let end = scans.len() - 1;
    if contributes(pattern, scans[end], name) {
        assert(0 <= end < scans.len() && contributes(pattern, scans[end], name) && forall|j: int|
            end < j < scans.len() ==> !contributes(pattern, #[trigger] scans[j], name));
    } else {
        let front = scans.drop_last();
        let i = choose|i: int| 0 <= i < scans.len() && contributes(pattern, #[trigger] scans[i], name);
        assert(contributes(pattern, front[i], name));
        lemma_last_contribution(pattern, front, name);
        let last = last_contribution(pattern, front, name);
        assert(scans[last] == front[last]);
        assert forall|j: int| last < j < scans.len() implies !contributes(
            pattern,
            #[trigger] scans[j],
            name,
        ) by {
            if j < end {
                assert(front[j] == scans[j]);
            }
        }
        assert(0 <= last < scans.len() && contributes(pattern, scans[last], name) && forall|j: int|
            last < j < scans.len() ==> !contributes(pattern, #[trigger] scans[j], name));
    }
}

/// The entry of a file whose base name no other file of the traversal has:
/// it is there exactly when the file has a matching line, and then it maps
/// the numbers of the file's matching lines to those lines.
pub proof fn lemma_grep_entry(pattern: Seq<char>, scans: Seq<ScanView>, i: int, name: Seq<char>)
    requires
        0 <= i < scans.len(),
        is_named_file(scans[i], name),
        forall|j: int| 0 <= j < scans.len() && j != i ==> !is_named_file(#[trigger] scans[j], name),
    ensures
        grep_map(pattern, scans).dom().contains(name) <==> matching_lines(
            pattern,
            scans[i].lines,
        ).len() > 0,
        grep_map(pattern, scans).dom().contains(name) ==> grep_map(pattern, scans)[name]
            == matching_map(pattern, scans[i].lines),
{
    if matching_lines(pattern, scans[i].lines).len() > 0 {
        assert(contributes(pattern, scans[i], name));
    }
    if grep_map(pattern, scans).dom().contains(name) {
        lemma_last_contribution(pattern, scans, name);
    }
}

/// No name is mapped to an empty mapping: a file is recorded only with a
/// matching line.
pub proof fn lemma_grep_entries_nonempty(pattern: Seq<char>, scans: Seq<ScanView>, name: Seq<char>)
    requires
        grep_map(pattern, scans).dom().contains(name),
    ensures
        exists|number: nat| grep_map(pattern, scans)[name].dom().contains(number),
{
    lemma_last_contribution(pattern, scans, name);
    let lines = scans[last_contribution(pattern, scans, name)].lines;
    lemma_matching_some(pattern, lines);
    let number = choose|number: nat| matching_map(pattern, lines).dom().contains(number);
    assert(grep_map(pattern, scans)[name].dom().contains(number));
}

/// A name that no regular file with a matching line has is not a key.
pub proof fn lemma_grep_no_match_no_key(pattern: Seq<char>, scans: Seq<ScanView>, name: Seq<char>)
    requires
        forall|i: int|
            0 <= i < scans.len() && is_named_file(#[trigger] scans[i], name) ==> matching_lines(
                pattern,
                scans[i].lines,
            ).len() == 0,
    ensures
        !grep_map(pattern, scans).dom().contains(name),
{
}

} // verus!
