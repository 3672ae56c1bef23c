//! The whole run over what was loaded: unreadable files are set aside with a
//! notice, the entries of the others are collected and matched.

use vstd::prelude::*;
use crate::entry::EntryType;
use crate::pattern::Matchers;
use crate::resolve::{
    collect, collected, is_named_in, lemma_collected_holds_every_file,
    lemma_matched_name_is_not_left, resolve, resolved, UnusedReport, UnusedReportView,
};
use crate::source::{outcomes_view, File, FileType, FileView};

verus! {

/// The files that were read, in their order.
pub open spec fn readable(outcomes: Seq<Result<FileView, Seq<char>>>) -> Seq<FileView>
    decreases outcomes.len(),
{
    if outcomes.len() == 0 {
        Seq::empty()
    } else {
        let earlier = readable(outcomes.drop_last());
        match outcomes.last() {
            Ok(file) => earlier.push(file),
            Err(_) => earlier,
        }
    }
}

/// The messages of the files that could not be read, in their order.
pub open spec fn notices_of(outcomes: Seq<Result<FileView, Seq<char>>>) -> Seq<Seq<char>>
    decreases outcomes.len(),
{
    if outcomes.len() == 0 {
        Seq::empty()
    } else {
        let earlier = notices_of(outcomes.drop_last());
        match outcomes.last() {
            Ok(_) => earlier,
            Err(message) => earlier.push(message),
        }
    }
}

/// The report on a run of files: the definitions and uses of the defining
/// files and the values of the value files, matched against each other.
pub open spec fn report_on(files: Seq<FileView>) -> UnusedReportView {
    resolved(
        collected(files, FileType::Source, EntryType::Definition),
        collected(files, FileType::Source, EntryType::Use),
        collected(files, FileType::Vars, EntryType::Value),
    )
}

/// The files read from two runs of outcomes, one after the other, are the
/// files read from the first followed by those read from the second; the
/// same holds of the messages.
pub proof fn lemma_outcomes_one_after_the_other(
    first: Seq<Result<FileView, Seq<char>>>,
    second: Seq<Result<FileView, Seq<char>>>,
)
    ensures
        readable(first + second) == readable(first) + readable(second),
        notices_of(first + second) == notices_of(first) + notices_of(second),
    decreases second.len(),
{
    if second.len() == 0 {
        assert(first + second =~= first);
        assert(readable(first) + readable(second) =~= readable(first));
        assert(notices_of(first) + notices_of(second) =~= notices_of(first));
    } else {
        let shorter = second.drop_last();
        lemma_outcomes_one_after_the_other(first, shorter);
        assert((first + second).drop_last() =~= first + shorter);
        assert((first + second).last() == second.last());
        match second.last() {
            Ok(file) => {
                assert(readable(first + second) =~= readable(first) + readable(second));
            },
            Err(message) => {
                assert(notices_of(first + second) =~= notices_of(first) + notices_of(second));
            },
        }
    }
}

/// A file that could not be read is named in a notice and changes nothing
/// else: the files that were read, and the report on them, are what they
/// would be without it.
pub proof fn lemma_unreadable_file_is_set_aside(
    before: Seq<Result<FileView, Seq<char>>>,
    message: Seq<char>,
    after: Seq<Result<FileView, Seq<char>>>,
)
    ensures
        notices_of(before.push(Err(message)) + after).contains(message),
        readable(before.push(Err(message)) + after) == readable(before + after),
        report_on(readable(before.push(Err(message)) + after)) == report_on(
            readable(before + after),
        ),
{
    let with = before.push(Err(message));
    lemma_outcomes_one_after_the_other(with, after);
    lemma_outcomes_one_after_the_other(before, after);
    assert(with.drop_last() =~= before);
    let told = notices_of(with) + notices_of(after);
    assert(told[notices_of(before).len() as int] == message);
}

/// A use of a name in any defining file of the tree, the defining file itself
/// or another, keeps every definition of that name out of the report.
pub proof fn lemma_a_use_anywhere_satisfies(files: Seq<FileView>, j: int, name: Seq<char>)
    requires
        0 <= j < files.len(),
        files[j].file_type == FileType::Source,
        is_named_in(name, files[j].entries(EntryType::Use)),
    ensures
        !is_named_in(name, report_on(files).unused_definitions),
{
    let uses = collected(files, FileType::Source, EntryType::Use);
    let k = choose|k: int|
        0 <= k < files[j].entries(EntryType::Use).len() && (#[trigger] files[j].entries(
            EntryType::Use,
        )[k]).name == name;
    lemma_collected_holds_every_file(files, FileType::Source, EntryType::Use, j, k);
    let at = choose|at: int| 0 <= at < uses.len() && uses[at] == files[j].entries(EntryType::Use)[k];
    assert(uses[at].name == name);
    lemma_matched_name_is_not_left(
        collected(files, FileType::Source, EntryType::Definition),
        uses,
        name,
    );
}

/// A definition of a name in any defining file of the tree keeps every value
/// of that name out of the report.
pub proof fn lemma_a_definition_anywhere_satisfies(files: Seq<FileView>, j: int, name: Seq<char>)
    requires
        0 <= j < files.len(),
        files[j].file_type == FileType::Source,
        is_named_in(name, files[j].entries(EntryType::Definition)),
    ensures
        !is_named_in(name, report_on(files).unused_values),
{
    let definitions = collected(files, FileType::Source, EntryType::Definition);
    let k = choose|k: int|
        0 <= k < files[j].entries(EntryType::Definition).len() && (#[trigger] files[j].entries(
            EntryType::Definition,
        )[k]).name == name;
    lemma_collected_holds_every_file(files, FileType::Source, EntryType::Definition, j, k);
    let at = choose|at: int|
        0 <= at < definitions.len() && definitions[at] == files[j].entries(
            EntryType::Definition,
        )[k];
    assert(definitions[at].name == name);
    lemma_matched_name_is_not_left(
        collected(files, FileType::Vars, EntryType::Value),
        definitions,
        name,
    );
}

/// A tree without files gives a report without entries.
pub proof fn lemma_no_files_no_report()
    ensures
        report_on(Seq::empty()).unused_definitions.len() == 0,
        report_on(Seq::empty()).unused_values.len() == 0,
{
    reveal(Seq::filter);
}

/// What was loaded, split in two: the files that were read and the messages
/// about those that were not.
#[derive(Debug, PartialEq, Eq)]
pub struct Loaded {
    pub files: Vec<File>,
    pub notices: Vec<String>,
}

/// The outcome of a run: the messages about unreadable files, and the report
/// on all the others.
#[derive(Debug, PartialEq, Eq)]
pub struct Analysis {
    pub notices: Vec<String>,
    pub report: UnusedReport,
}

/// Sets the unreadable files aside. The files that were read stay in their
/// order, and so do the messages.
pub fn split_loaded(outcomes: Vec<Result<File, String>>) -> (loaded: Loaded)
    ensures
        loaded.files.deep_view() == readable(outcomes_view(outcomes@)),
        loaded.notices.deep_view() == notices_of(outcomes_view(outcomes@)),
{
    let mut files: Vec<File> = Vec::new();
    let mut notices: Vec<String> = Vec::new();
    let ghost all = outcomes_view(outcomes@);
    assert(all.take(0) =~= Seq::empty());
    assert(files.deep_view() =~= Seq::empty());
    assert(notices.deep_view() =~= Seq::empty());
    for outcome in it: outcomes
        invariant
            all == outcomes_view(it.seq()),
            files.deep_view() == readable(all.take(it.index() as int)),
            notices.deep_view() == notices_of(all.take(it.index() as int)),
    {
        let ghost files_before = files.deep_view();
        let ghost notices_before = notices.deep_view();
        proof {
            let upto = all.take(it.index() + 1);
            assert(upto.drop_last() =~= all.take(it.index() as int));
        }
        match outcome {
            Ok(file) => {
                files.push(file);
                assert(files.deep_view() =~= files_before.push(file@));
            },
            Err(message) => {
                notices.push(message);
                assert(notices.deep_view() =~= notices_before.push(message@));
            },
        }
    }
    assert(all.take(all.len() as int) =~= all);
    Loaded { files, notices }
}

/// Runs the whole analysis on what was loaded. A file that could not be read
/// gives a notice and takes no part in the report; all the others do. Every
/// entry of the report has an identifier for its name.
pub fn analyze(outcomes: Vec<Result<File, String>>, matchers: &Matchers) -> (analysis: Analysis)
    ensures
        analysis.notices.deep_view() == notices_of(outcomes_view(outcomes@)),
        analysis.report@ == report_on(readable(outcomes_view(outcomes@))),
        analysis.report.wf(),
{
    let loaded = split_loaded(outcomes);
    let entries = collect(&loaded.files, matchers);
    let report = resolve(&entries.definitions, &entries.uses, &entries.values);
    assert(report.wf()) by {
        assert forall|k: int| 0 <= k < report.unused_definitions.len() implies (
        #[trigger] report.unused_definitions[k]).wf() by {
            let e = report.unused_definitions[k];
            let j = choose|j: int|
                0 <= j < entries.definitions.len() && entries.definitions[j] == e;
            assert(entries.definitions[j].wf());
        }
        assert forall|k: int| 0 <= k < report.unused_values.len() implies (
        #[trigger] report.unused_values[k]).wf() by {
            let e = report.unused_values[k];
            let j = choose|j: int| 0 <= j < entries.values.len() && entries.values[j] == e;
            assert(entries.values[j].wf());
        }
    }
    Analysis { notices: loaded.notices, report }
}

} // verus!
