//! Grouping what is left over by file, and writing it out as text.

use vstd::prelude::*;
use vstd::string::StringExecFns;
use crate::entry::{EntryType, Variable, VariableView};
use crate::resolve::{UnusedReport, UnusedReportView};

verus! {

/// The entries that were found in one file.
#[derive(Debug, PartialEq, Eq)]
pub struct FileGroup {
    pub file: String,
    pub entries: Vec<Variable>,
}

/// The mathematical value of a `FileGroup`.
pub struct FileGroupView {
    pub file: Seq<char>,
    pub entries: Seq<VariableView>,
}

impl View for FileGroup {
    type V = FileGroupView;

    open spec fn view(&self) -> FileGroupView {
        FileGroupView { file: self.file@, entries: self.entries.deep_view() }
    }
}

impl DeepView for FileGroup {
    type V = FileGroupView;

    open spec fn deep_view(&self) -> FileGroupView {
        self.view()
    }
}

/// The files in which the entries were found, each once, in the order in
/// which each is first met.
pub open spec fn places(entries: Seq<VariableView>) -> Seq<Seq<char>>
    decreases entries.len(),
{
    if entries.len() == 0 {
        Seq::empty()
    } else {
        let earlier = places(entries.drop_last());
        if earlier.contains(entries.last().at) {
            earlier
        } else {
            earlier.push(entries.last().at)
        }
    }
}

/// The test that keeps an entry found in the file `at`.
pub open spec fn found_at(at: Seq<char>) -> spec_fn(VariableView) -> bool {
    |e: VariableView| e.at == at
}

/// The entries grouped by file: one group for each file, in the order in
/// which the files are first met, each holding the entries of its file in
/// their order.
pub open spec fn grouped(entries: Seq<VariableView>) -> Seq<FileGroupView> {
    places(entries).map_values(
        |at: Seq<char>| FileGroupView { file: at, entries: entries.filter(found_at(at)) },
    )
}

/// The words that say what kind of entry a line reports.
pub open spec fn prefix_text(entry_type: EntryType) -> Seq<char> {
    match entry_type {
        EntryType::Definition => "Unused definition"@,
        EntryType::Value => "Unused value for"@,
        EntryType::Use => "Shouldn't be there"@,
    }
}

/// The line that reports one entry.
pub open spec fn line_text(e: VariableView) -> Seq<char> {
    " * "@ + prefix_text(e.entry_type) + " "@ + e.name + "\n"@
}

/// The lines that report the entries, one after the other.
pub open spec fn lines_text(entries: Seq<VariableView>) -> Seq<char>
    decreases entries.len(),
{
    if entries.len() == 0 {
        Seq::empty()
    } else {
        lines_text(entries.drop_last()) + line_text(entries.last())
    }
}

/// The block that reports one file: a heading with the file's path, the
/// lines of its entries, and an empty line.
pub open spec fn block_text(group: FileGroupView) -> Seq<char> {
    "In "@ + group.file + ":\n"@ + lines_text(group.entries) + "\n"@
}

/// The blocks of the groups, one after the other.
pub open spec fn blocks_text(groups: Seq<FileGroupView>) -> Seq<char>
    decreases groups.len(),
{
    if groups.len() == 0 {
        Seq::empty()
    } else {
        blocks_text(groups.drop_last()) + block_text(groups.last())
    }
}

/// The text that reports a collection of entries: they are grouped by file
/// and each group is written as a block.
pub open spec fn listing_text(entries: Seq<VariableView>) -> Seq<char> {
    blocks_text(grouped(entries))
}

/// The text of a whole report: the unused definitions, then the values
/// without a definition.
pub open spec fn report_text(report: UnusedReportView) -> Seq<char> {
    listing_text(report.unused_definitions) + listing_text(report.unused_values)
}

/// How many entries the groups hold together.
pub open spec fn entries_total(groups: Seq<FileGroupView>) -> nat
    decreases groups.len(),
{
    if groups.len() == 0 {
        0
    } else {
        entries_total(groups.drop_last()) + groups.last().entries.len()
    }
}

/// A file is among the places exactly when some entry was found in it.
pub proof fn lemma_places_are_the_files(entries: Seq<VariableView>, at: Seq<char>)
    ensures
        places(entries).contains(at) <==> exists|i: int|
            0 <= i < entries.len() && (#[trigger] entries[i]).at == at,
    decreases entries.len(),
{
    if entries.len() > 0 {
        let shorter = entries.drop_last();
        let earlier = places(shorter);
        lemma_places_are_the_files(shorter, at);
        if places(entries).contains(at) {
            if earlier.contains(at) {
                let i = choose|i: int| 0 <= i < shorter.len() && (#[trigger] shorter[i]).at == at;
                assert(entries[i].at == at);
            } else {
                let k = choose|k: int| 0 <= k < places(entries).len() && places(entries)[k] == at;
                assert(k == earlier.len());
                assert(entries[entries.len() - 1].at == at);
            }
        }
        if exists|i: int| 0 <= i < entries.len() && (#[trigger] entries[i]).at == at {
            let i = choose|i: int| 0 <= i < entries.len() && (#[trigger] entries[i]).at == at;
            if i < shorter.len() {
                assert(shorter[i].at == at);
                let k = choose|k: int| 0 <= k < earlier.len() && earlier[k] == at;
                assert(places(entries)[k] == at);
            } else if earlier.contains(at) {
                let k = choose|k: int| 0 <= k < earlier.len() && earlier[k] == at;
                assert(places(entries)[k] == at);
            } else {
                assert(places(entries)[earlier.len() as int] == at);
            }
        }
    }
}

/// No file comes twice among the places.
pub proof fn lemma_places_are_distinct(entries: Seq<VariableView>)
    ensures
        places(entries).no_duplicates(),
    decreases entries.len(),
{
    if entries.len() > 0 {
        lemma_places_are_distinct(entries.drop_last());
    }
}

/// The places come in the order in which the files are first met: of two
/// places, an entry of the earlier one comes before every entry of the later
/// one.
pub proof fn lemma_places_in_first_seen_order(entries: Seq<VariableView>, i: int, j: int)
    requires
        0 <= i < j < places(entries).len(),
    ensures
        exists|a: int|
            0 <= a < entries.len() && (#[trigger] entries[a]).at == places(entries)[i]
                && forall|b: int| 0 <= b <= a ==> (#[trigger] entries[b]).at != places(entries)[j],
    decreases entries.len(),
{
    let shorter = entries.drop_last();
    let earlier = places(shorter);
    let later = places(entries)[j];
    lemma_places_are_distinct(entries);
    if j < earlier.len() {
        lemma_places_in_first_seen_order(shorter, i, j);
        let a = choose|a: int|
            0 <= a < shorter.len() && (#[trigger] shorter[a]).at == earlier[i] && forall|b: int|
                0 <= b <= a ==> (#[trigger] shorter[b]).at != earlier[j];
        assert(entries[a].at == places(entries)[i]);
        assert forall|b: int| 0 <= b <= a implies (#[trigger] entries[b]).at != later by {
            assert(shorter[b].at != earlier[j]);
        }
    } else {
        assert(later == entries.last().at);
        assert(!earlier.contains(later));
        lemma_places_are_the_files(shorter, later);
        assert(earlier.contains(earlier[i]));
        lemma_places_are_the_files(shorter, earlier[i]);
        let a = choose|a: int| 0 <= a < shorter.len() && (#[trigger] shorter[a]).at == earlier[i];
        assert(entries[a].at == places(entries)[i]);
        assert forall|b: int| 0 <= b <= a implies (#[trigger] entries[b]).at != later by {
            assert(shorter[b] == entries[b]);
        }
    }
}

/// Every group is named after a file in which an entry was found, holds at
/// least one entry, and holds entries of its own file only.
pub proof fn lemma_groups_hold_their_own(entries: Seq<VariableView>, k: int)
    requires
        0 <= k < grouped(entries).len(),
    ensures
        grouped(entries)[k].file == places(entries)[k],
        grouped(entries)[k].entries.len() > 0,
        forall|i: int|
            0 <= i < grouped(entries)[k].entries.len() ==> (#[trigger] grouped(
                entries,
            )[k].entries[i]).at == grouped(entries)[k].file,
{
    let at = places(entries)[k];
    let keep = found_at(at);
    let held = entries.filter(keep);
    assert(grouped(entries)[k].entries == held);
    assert(places(entries).contains(at));
    lemma_places_are_the_files(entries, at);
    let i = choose|i: int| 0 <= i < entries.len() && (#[trigger] entries[i]).at == at;
    entries.lemma_filter_contains(keep, i);
    assert forall|i: int| 0 <= i < held.len() implies (#[trigger] held[i]).at == at by {
        entries.lemma_filter_pred(keep, i);
    }
}

/// Every entry is in the group of its file.
pub proof fn lemma_every_entry_is_grouped(entries: Seq<VariableView>, i: int)
    requires
        0 <= i < entries.len(),
    ensures
        exists|k: int|
            0 <= k < grouped(entries).len() && (#[trigger] grouped(entries)[k]).file
                == entries[i].at && grouped(entries)[k].entries.contains(entries[i]),
{
    let at = entries[i].at;
    lemma_places_are_the_files(entries, at);
    let k = choose|k: int| 0 <= k < places(entries).len() && places(entries)[k] == at;
    entries.lemma_filter_contains(found_at(at), i);
    assert(grouped(entries)[k].file == at);
}

/// How many of the entries were found in the given files, file by file.
spec fn found_in(entries: Seq<VariableView>, files: Seq<Seq<char>>) -> nat
    decreases files.len(),
{
    if files.len() == 0 {
        0
    } else {
        found_in(entries, files.drop_last()) + entries.filter(found_at(files.last())).len()
    }
}

proof fn lemma_total_is_found_in(entries: Seq<VariableView>, files: Seq<Seq<char>>)
    ensures
        entries_total(
            files.map_values(
                |at: Seq<char>| FileGroupView { file: at, entries: entries.filter(found_at(at)) },
            ),
        ) == found_in(entries, files),
    decreases files.len(),
{
    let group = |at: Seq<char>| FileGroupView { file: at, entries: entries.filter(found_at(at)) };
    if files.len() > 0 {
        lemma_total_is_found_in(entries, files.drop_last());
        assert(files.map_values(group).drop_last() =~= files.drop_last().map_values(group));
    }
}

proof fn lemma_found_in_one_more(entries: Seq<VariableView>, e: VariableView, files: Seq<Seq<char>>)
    requires
        files.no_duplicates(),
    ensures
        found_in(entries.push(e), files) == found_in(entries, files) + (if files.contains(e.at) {
            1nat
        } else {
            0nat
        }),
    decreases files.len(),
{
    if files.len() > 0 {
        let shorter = files.drop_last();
        let at = files.last();
        lemma_found_in_one_more(entries, e, shorter);
        entries.lemma_filter_push(e, found_at(at));
        if e.at == at {
            assert(files[files.len() - 1] == e.at);
            assert(!shorter.contains(e.at)) by {
                if shorter.contains(e.at) {
                    let k = choose|k: int| 0 <= k < shorter.len() && shorter[k] == e.at;
                    assert(files[k] == files[files.len() - 1]);
                }
            }
        } else {
            assert(files.contains(e.at) == shorter.contains(e.at)) by {
                if files.contains(e.at) {
                    let k = choose|k: int| 0 <= k < files.len() && files[k] == e.at;
                    assert(shorter[k] == e.at);
                }
                if shorter.contains(e.at) {
                    let k = choose|k: int| 0 <= k < shorter.len() && shorter[k] == e.at;
                    assert(files[k] == e.at);
                }
            }
        }
    }
}

/// Grouping loses no entry and makes none up: the groups hold together as
/// many entries as there were.
pub proof fn lemma_grouping_keeps_the_count(entries: Seq<VariableView>)
    ensures
        entries_total(grouped(entries)) == entries.len(),
    decreases entries.len(),
{
    lemma_total_is_found_in(entries, places(entries));
    if entries.len() > 0 {
        let shorter = entries.drop_last();
        let e = entries.last();
        let earlier = places(shorter);
        assert(entries =~= shorter.push(e));
        lemma_grouping_keeps_the_count(shorter);
        lemma_total_is_found_in(shorter, earlier);
        lemma_places_are_distinct(shorter);
        lemma_found_in_one_more(shorter, e, earlier);
        if !earlier.contains(e.at) {
            let keep = found_at(e.at);
            assert(earlier.push(e.at).drop_last() =~= earlier);
            shorter.lemma_filter_push(e, keep);
            assert(shorter.filter(keep).len() == 0) by {
                if shorter.filter(keep).len() > 0 {
                    shorter.lemma_filter_pred(keep, 0);
                    let x = shorter.filter(keep)[0];
                    assert(shorter.filter(keep).contains(x));
                    shorter.lemma_filter_contains_rev(keep, x);
                    let i = choose|i: int| 0 <= i < shorter.len() && shorter[i] == x;
                    assert(shorter[i].at == e.at);
                    lemma_places_are_the_files(shorter, e.at);
                }
            }
        }
    }
}

/// The text of a report is a function of its entries alone: two reports that
/// hold the same entries in the same order are grouped and written alike.
pub proof fn lemma_report_is_repeatable(first: UnusedReport, second: UnusedReport)
    requires
        first@ == second@,
    ensures
        grouped(first@.unused_definitions) == grouped(second@.unused_definitions),
        grouped(first@.unused_values) == grouped(second@.unused_values),
        report_text(first@) == report_text(second@),
{
}

/// Tells whether the path is among the paths.
fn holds_path(paths: &Vec<String>, path: &String) -> (found: bool)
    ensures
        found == paths.deep_view().contains(path@),
{
    let mut i: usize = 0;
    while i < paths.len()
        invariant
            i <= paths.len(),
            forall|k: int| 0 <= k < i ==> (#[trigger] paths[k])@ != path@,
        decreases paths.len() - i,
    {
        if paths[i] == *path {
            assert(paths.deep_view()[i as int] == path@);
            return true;
        }
        i += 1;
    }
    assert forall|k: int| 0 <= k < paths.deep_view().len() implies (#[trigger] paths.deep_view()[k])
        != path@ by {
        assert(paths.deep_view()[k] == paths[k]@);
    }
    false
}

/// The files in which the entries were found, each once, in the order in
/// which each is first met.
pub fn files_of_entries(entries: &Vec<Variable>) -> (files: Vec<String>)
    ensures
        files.deep_view() == places(entries.deep_view()),
{
    let mut files: Vec<String> = Vec::new();
    let mut i: usize = 0;
    assert(entries.deep_view().take(0) =~= Seq::empty());
    assert(files.deep_view() =~= Seq::empty());
    while i < entries.len()
        invariant
            i <= entries.len(),
            files.deep_view() == places(entries.deep_view().take(i as int)),
        decreases entries.len() - i,
    {
        let ghost before = files.deep_view();
        proof {
            let upto = entries.deep_view().take(i + 1);
            assert(upto.drop_last() =~= entries.deep_view().take(i as int));
            assert(upto.last() == entries[i as int]@);
        }
        if !holds_path(&files, &entries[i].at) {
            files.push(entries[i].at.clone());
            assert(files.deep_view() =~= before.push(entries[i as int].at@));
        }
        i += 1;
    }
    assert(entries.deep_view().take(entries.len() as int) =~= entries.deep_view());
    files
}

/// The entries that were found in the file `at`, in their order.
pub fn entries_at(entries: &Vec<Variable>, at: &String) -> (found: Vec<Variable>)
    ensures
        found.deep_view() == entries.deep_view().filter(found_at(at@)),
{
    let mut found: Vec<Variable> = Vec::new();
    let mut i: usize = 0;
    let ghost keep = found_at(at@);
    proof {
        reveal(Seq::filter);
        assert(entries.deep_view().take(0) =~= Seq::empty());
        assert(found.deep_view() =~= Seq::empty());
    }
    while i < entries.len()
        invariant
            i <= entries.len(),
            keep == found_at(at@),
            found.deep_view() == entries.deep_view().take(i as int).filter(keep),
        decreases entries.len() - i,
    {
        let ghost before = found.deep_view();
        proof {
            let sofar = entries.deep_view().take(i as int);
            assert(entries.deep_view().take(i + 1) =~= sofar.push(entries[i as int]@));
            sofar.lemma_filter_push(entries[i as int]@, keep);
        }
        if entries[i].at == *at {
            found.push(entries[i].duplicate());
            assert(found.deep_view() =~= before.push(entries[i as int]@));
        }
        i += 1;
    }
    assert(entries.deep_view().take(entries.len() as int) =~= entries.deep_view());
    found
}

/// Groups the entries by the file in which they were found. The groups come
/// in the order in which their files are first met; within a group the
/// entries keep their order.
pub fn group_by_file(entries: &Vec<Variable>) -> (groups: Vec<FileGroup>)
    ensures
        groups.deep_view() == grouped(entries.deep_view()),
{
    let files = files_of_entries(entries);
    let mut groups: Vec<FileGroup> = Vec::new();
    let mut i: usize = 0;
    while i < files.len()
        invariant
            i <= files.len(),
            files.deep_view() == places(entries.deep_view()),
            groups.len() == i,
            forall|k: int|
                0 <= k < i ==> (#[trigger] groups[k])@ == (FileGroupView {
                    file: files[k]@,
                    entries: entries.deep_view().filter(found_at(files[k]@)),
                }),
        decreases files.len() - i,
    {
        let found = entries_at(entries, &files[i]);
        groups.push(FileGroup { file: files[i].clone(), entries: found });
        i += 1;
    }
    assert(groups.deep_view() =~= grouped(entries.deep_view())) by {
        assert forall|k: int| 0 <= k < groups.len() implies groups.deep_view()[k] == grouped(
            entries.deep_view(),
        )[k] by {
            assert(files.deep_view()[k] == files[k]@);
        }
    }
    groups
}

/// The words that say what kind of entry a line reports.
pub fn prefix(entry_type: EntryType) -> (words: &'static str)
    ensures
        words@ == prefix_text(entry_type),
{
    match entry_type {
        EntryType::Definition => "Unused definition",
        EntryType::Value => "Unused value for",
        EntryType::Use => "Shouldn't be there",
    }
}

/// Writes the block of one group at the end of `out`.
fn write_block(out: &mut String, group: &FileGroup)
    ensures
        final(out)@ == old(out)@ + block_text(group@),
{
    let ghost start = out@;
    out.append("In ");
    out.append(group.file.as_str());
    out.append(":\n");
    let ghost head = out@;
    let mut i: usize = 0;
    assert(group.entries.deep_view().take(0) =~= Seq::empty());
    assert(head + lines_text(Seq::empty()) =~= head);
    while i < group.entries.len()
        invariant
            i <= group.entries.len(),
            head == start + "In "@ + group.file@ + ":\n"@,
            out@ == head + lines_text(group.entries.deep_view().take(i as int)),
        decreases group.entries.len() - i,
    {
        let ghost sofar = lines_text(group.entries.deep_view().take(i as int));
        let entry = &group.entries[i];
        proof {
            let upto = group.entries.deep_view().take(i + 1);
            assert(upto.drop_last() =~= group.entries.deep_view().take(i as int));
            assert(upto.last() == entry@);
        }
        out.append(" * ");
        out.append(prefix(entry.entry_type));
        out.append(" ");
        out.append(entry.name.as_str());
        out.append("\n");
        assert(out@ =~= head + (sofar + line_text(entry@)));
        i += 1;
    }
    assert(group.entries.deep_view().take(group.entries.len() as int)
        =~= group.entries.deep_view());
    out.append("\n");
    assert(out@ =~= start + block_text(group@));
}

/// Writes out a collection of entries that are left over: for each file, in
/// the order in which the files are first met, a heading, one line for each
/// entry of the file, and an empty line.
pub fn report_unsued(unused: &Vec<Variable>) -> (text: String)
    ensures
        text@ == listing_text(unused.deep_view()),
{
    let groups = group_by_file(unused);
    let mut text = String::new();
    let mut i: usize = 0;
    assert(groups.deep_view().take(0) =~= Seq::empty());
    while i < groups.len()
        invariant
            i <= groups.len(),
            text@ == blocks_text(groups.deep_view().take(i as int)),
        decreases groups.len() - i,
    {
        proof {
            let upto = groups.deep_view().take(i + 1);
            assert(upto.drop_last() =~= groups.deep_view().take(i as int));
            assert(upto.last() == groups[i as int]@);
        }
        write_block(&mut text, &groups[i]);
        i += 1;
    }
    assert(groups.deep_view().take(groups.len() as int) =~= groups.deep_view());
    text
}

impl UnusedReport {
    /// The text of the report: the unused definitions by file, then the
    /// values without a definition by file.
    pub fn render(&self) -> (text: String)
        ensures
            text@ == report_text(self@),
    {
        let first = report_unsued(&self.unused_definitions);
        let second = report_unsued(&self.unused_values);
        first.concat(second.as_str())
    }
}

} // verus!
