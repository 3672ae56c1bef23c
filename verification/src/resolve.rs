//! Collecting the entries of all files and matching them against each other.
//!
//! Matching goes by name alone, over the whole tree: where an entry was found
//! plays no part in it.

use vstd::prelude::*;
use crate::entry::{EntryType, Variable, VariableView};
use crate::pattern::Matchers;
use crate::source::{File, FileType, FileView};

verus! {

/// The entries of one kind in the files of one kind: file after file in the
/// order given, and within a file in the order of the matches. Files of
/// another kind give nothing.
pub open spec fn collected(files: Seq<FileView>, file_type: FileType, entry_type: EntryType) -> Seq<
    VariableView,
>
    decreases files.len(),
{
    if files.len() == 0 {
        Seq::empty()
    } else {
        let earlier = collected(files.drop_last(), file_type, entry_type);
        if files.last().file_type == file_type {
            earlier + files.last().entries(entry_type)
        } else {
            earlier
        }
    }
}

/// Whether some entry of `entries` has the name `name`, letter for letter.
pub open spec fn is_named_in(name: Seq<char>, entries: Seq<VariableView>) -> bool {
    exists|j: int| 0 <= j < entries.len() && (#[trigger] entries[j]).name == name
}

/// The test that keeps an entry whose name no entry of `others` has.
pub open spec fn not_named_in(others: Seq<VariableView>) -> spec_fn(VariableView) -> bool {
    |e: VariableView| !is_named_in(e.name, others)
}

/// The entries of `entries` whose name no entry of `others` has, in their
/// order; an entry that occurs twice is kept twice.
pub open spec fn unmatched(entries: Seq<VariableView>, others: Seq<VariableView>) -> Seq<
    VariableView,
> {
    entries.filter(not_named_in(others))
}

/// The three collections of entries of a tree.
#[derive(Debug, PartialEq, Eq)]
pub struct Entries {
    pub definitions: Vec<Variable>,
    pub uses: Vec<Variable>,
    pub values: Vec<Variable>,
}

/// What is left over: the definitions that nothing uses and the values that
/// nothing defines.
#[derive(Debug, PartialEq, Eq)]
pub struct UnusedReport {
    pub unused_definitions: Vec<Variable>,
    pub unused_values: Vec<Variable>,
}

/// The mathematical value of an `UnusedReport`.
pub struct UnusedReportView {
    pub unused_definitions: Seq<VariableView>,
    pub unused_values: Seq<VariableView>,
}

impl View for UnusedReport {
    type V = UnusedReportView;

    open spec fn view(&self) -> UnusedReportView {
        UnusedReportView {
            unused_definitions: self.unused_definitions.deep_view(),
            unused_values: self.unused_values.deep_view(),
        }
    }
}

/// The report that three collections give: a definition is unused when no
/// use has its name, a value when no definition has its name.
pub open spec fn resolved(
    definitions: Seq<VariableView>,
    uses: Seq<VariableView>,
    values: Seq<VariableView>,
) -> UnusedReportView {
    UnusedReportView {
        unused_definitions: unmatched(definitions, uses),
        unused_values: unmatched(values, definitions),
    }
}

/// Collects the entries of one kind from the files of one kind.
pub fn collect_entries(
    files: &Vec<File>,
    file_type: FileType,
    entry_type: EntryType,
    matchers: &Matchers,
) -> (entries: Vec<Variable>)
    ensures
        entries.deep_view() == collected(files.deep_view(), file_type, entry_type),
        forall|i: int| 0 <= i < entries.len() ==> (#[trigger] entries[i]).wf(),
{
    let mut entries: Vec<Variable> = Vec::new();
    let mut i: usize = 0;
    assert(files.deep_view().take(0) =~= Seq::empty());
    assert(entries.deep_view() =~= Seq::empty());
    while i < files.len()
        invariant
            i <= files.len(),
            entries.deep_view() == collected(
                files.deep_view().take(i as int),
                file_type,
                entry_type,
            ),
            forall|k: int| 0 <= k < entries.len() ==> (#[trigger] entries[k]).wf(),
        decreases files.len() - i,
    {
        proof {
            let upto = files.deep_view().take(i + 1);
            assert(upto.drop_last() =~= files.deep_view().take(i as int));
            assert(upto.last() == files[i as int]@);
        }
        if files[i].file_type == file_type {
            let ghost before = entries.deep_view();
            let mut found = files[i].get_var_entries(entry_type, matchers);
            let ghost added = found.deep_view();
            entries.append(&mut found);
            assert(entries.deep_view() =~= before + added);
        }
        i += 1;
    }
    assert(files.deep_view().take(files.len() as int) =~= files.deep_view());
    entries
}

/// Collects the three kinds of entry: definitions and uses from the defining
/// files, values from the value files.
pub fn collect(files: &Vec<File>, matchers: &Matchers) -> (entries: Entries)
    ensures
        entries.definitions.deep_view() == collected(
            files.deep_view(),
            FileType::Source,
            EntryType::Definition,
        ),
        entries.uses.deep_view() == collected(files.deep_view(), FileType::Source, EntryType::Use),
        entries.values.deep_view() == collected(
            files.deep_view(),
            FileType::Vars,
            EntryType::Value,
        ),
        forall|i: int|
            0 <= i < entries.definitions.len() ==> (#[trigger] entries.definitions[i]).wf(),
        forall|i: int| 0 <= i < entries.uses.len() ==> (#[trigger] entries.uses[i]).wf(),
        forall|i: int| 0 <= i < entries.values.len() ==> (#[trigger] entries.values[i]).wf(),
{
    Entries {
        definitions: collect_entries(files, FileType::Source, EntryType::Definition, matchers),
        uses: collect_entries(files, FileType::Source, EntryType::Use, matchers),
        values: collect_entries(files, FileType::Vars, EntryType::Value, matchers),
    }
}

/// Tells whether some entry has the given name.
pub fn has_name(name: &String, entries: &Vec<Variable>) -> (found: bool)
    ensures
        found == is_named_in(name@, entries.deep_view()),
{
    let mut i: usize = 0;
    while i < entries.len()
        invariant
            i <= entries.len(),
            forall|k: int| 0 <= k < i ==> (#[trigger] entries[k]).name@ != name@,
        decreases entries.len() - i,
    {
        if entries[i].name == *name {
            assert(entries.deep_view()[i as int].name == name@);
            return true;
        }
        i += 1;
    }
    assert forall|j: int| 0 <= j < entries.deep_view().len() implies (
    #[trigger] entries.deep_view()[j]).name != name@ by {
        assert(entries.deep_view()[j] == entries[j]@);
    }
    false
}

/// The entries whose name no entry of `others` has, in their order. Each is
/// a copy of one of the entries.
pub fn unmatched_entries(entries: &Vec<Variable>, others: &Vec<Variable>) -> (left: Vec<Variable>)
    ensures
        left.deep_view() == unmatched(entries.deep_view(), others.deep_view()),
        forall|k: int| 0 <= k < left.len() ==> entries@.contains(#[trigger] left[k]),
{
    let mut left: Vec<Variable> = Vec::new();
    let mut i: usize = 0;
    let ghost keep = not_named_in(others.deep_view());
    proof {
        reveal(Seq::filter);
        assert(entries.deep_view().take(0) =~= Seq::empty());
        assert(left.deep_view() =~= Seq::empty());
    }
    while i < entries.len()
        invariant
            i <= entries.len(),
            keep == not_named_in(others.deep_view()),
            left.deep_view() == entries.deep_view().take(i as int).filter(keep),
            forall|k: int| 0 <= k < left.len() ==> entries@.contains(#[trigger] left[k]),
        decreases entries.len() - i,
    {
        let ghost before = left.deep_view();
        proof {
            let sofar = entries.deep_view().take(i as int);
            assert(entries.deep_view().take(i + 1) =~= sofar.push(entries[i as int]@));
            sofar.lemma_filter_push(entries[i as int]@, keep);
        }
        if !has_name(&entries[i].name, others) {
            left.push(entries[i].duplicate());
            assert(left.deep_view() =~= before.push(entries[i as int]@));
        }
        i += 1;
    }
    assert(entries.deep_view().take(entries.len() as int) =~= entries.deep_view());
    left
}

/// Finds what is left over: the definitions whose name no use has, and the
/// values whose name no definition has. Both keep the order in which the
/// entries were collected, and hold copies of the entries they were given.
pub fn resolve(definitions: &Vec<Variable>, uses: &Vec<Variable>, values: &Vec<Variable>) -> (report:
    UnusedReport)
    ensures
        report@ == resolved(definitions.deep_view(), uses.deep_view(), values.deep_view()),
        forall|k: int|
            0 <= k < report.unused_definitions.len() ==> definitions@.contains(
                #[trigger] report.unused_definitions[k],
            ),
        forall|k: int|
            0 <= k < report.unused_values.len() ==> values@.contains(
                #[trigger] report.unused_values[k],
            ),
{
    UnusedReport {
        unused_definitions: unmatched_entries(definitions, uses),
        unused_values: unmatched_entries(values, definitions),
    }
}

/// Every entry of the given kind in a file of the given kind is among the
/// entries collected from a tree that holds the file.
pub proof fn lemma_collected_holds_every_file(
    files: Seq<FileView>,
    file_type: FileType,
    entry_type: EntryType,
    i: int,
    k: int,
)
    requires
        0 <= i < files.len(),
        files[i].file_type == file_type,
        0 <= k < files[i].entries(entry_type).len(),
    ensures
        collected(files, file_type, entry_type).contains(files[i].entries(entry_type)[k]),
    decreases files.len(),
{
    let all = collected(files, file_type, entry_type);
    let shorter = files.drop_last();
    let earlier = collected(shorter, file_type, entry_type);
    let wanted = files[i].entries(entry_type)[k];
    if i == files.len() - 1 {
        assert(all[earlier.len() + k] == wanted);
    } else {
        lemma_collected_holds_every_file(shorter, file_type, entry_type, i, k);
        let at = choose|at: int| 0 <= at < earlier.len() && earlier[at] == wanted;
        assert(all[at] == wanted);
    }
}

/// An entry is left over exactly when it is one of the entries and no entry
/// of `others` has its name.
pub proof fn lemma_unmatched_is_difference(
    entries: Seq<VariableView>,
    others: Seq<VariableView>,
    e: VariableView,
)
    ensures
        unmatched(entries, others).contains(e) <==> entries.contains(e) && !is_named_in(
            e.name,
            others,
        ),
{
    let keep = not_named_in(others);
    let left = entries.filter(keep);
    if left.contains(e) {
        let k = choose|k: int| 0 <= k < left.len() && left[k] == e;
        entries.lemma_filter_pred(keep, k);
        entries.lemma_filter_contains_rev(keep, e);
    }
    if entries.contains(e) && !is_named_in(e.name, others) {
        let i = choose|i: int| 0 <= i < entries.len() && entries[i] == e;
        entries.lemma_filter_contains(keep, i);
    }
}

/// A name that some entry of `others` has is the name of nothing that is left
/// over, wherever the two were found: in one file or in two.
pub proof fn lemma_matched_name_is_not_left(
    entries: Seq<VariableView>,
    others: Seq<VariableView>,
    name: Seq<char>,
)
    requires
        is_named_in(name, others),
    ensures
        !is_named_in(name, unmatched(entries, others)),
{
    let keep = not_named_in(others);
    let left = entries.filter(keep);
    assert forall|k: int| 0 <= k < left.len() implies (#[trigger] left[k]).name != name by {
        entries.lemma_filter_pred(keep, k);
    }
}

/// What is left over keeps the order of the entries: of two entries that are
/// left over, the one that was collected first comes first.
pub proof fn lemma_unmatched_keeps_order(
    entries: Seq<VariableView>,
    others: Seq<VariableView>,
    a: int,
    b: int,
)
    requires
        0 <= a < b < unmatched(entries, others).len(),
    ensures
        exists|i: int, j: int|
            0 <= i < j < entries.len() && entries[i] == unmatched(entries, others)[a]
                && entries[j] == unmatched(entries, others)[b],
    decreases entries.len(),
{
    reveal(Seq::filter);
    let keep = not_named_in(others);
    let left = entries.filter(keep);
    let shorter = entries.drop_last();
    let earlier = shorter.filter(keep);
    if b < earlier.len() {
        lemma_unmatched_keeps_order(shorter, others, a, b);
        let (i, j) = choose|i: int, j: int|
            0 <= i < j < shorter.len() && shorter[i] == earlier[a] && shorter[j] == earlier[b];
        assert(entries[i] == left[a] && entries[j] == left[b]);
    } else {
        let j = entries.len() - 1;
        assert(left[b] == entries[j]);
        assert(earlier[a] == left[a]);
        assert(earlier.contains(left[a]));
        shorter.lemma_filter_contains_rev(keep, left[a]);
        let i = choose|i: int| 0 <= i < shorter.len() && shorter[i] == left[a];
        assert(entries[i] == left[a] && entries[j] == left[b]);
    }
}

/// Taking what is left over a second time, against the same `others`, takes
/// nothing more away.
pub proof fn lemma_unmatched_twice(entries: Seq<VariableView>, others: Seq<VariableView>)
    ensures
        unmatched(unmatched(entries, others), others) == unmatched(entries, others),
    decreases entries.len(),
{
    reveal(Seq::filter);
    let keep = not_named_in(others);
    if entries.len() > 0 {
        let shorter = entries.drop_last();
        lemma_unmatched_twice(shorter, others);
        if keep(entries.last()) {
            shorter.filter(keep).lemma_filter_push(entries.last(), keep);
        }
    }
}

/// The report is a function of the three collections alone: two reports made
/// from the same collections hold the same entries in the same order.
pub proof fn lemma_resolve_is_repeatable(
    definitions: Seq<VariableView>,
    uses: Seq<VariableView>,
    values: Seq<VariableView>,
    first: UnusedReport,
    second: UnusedReport,
)
    requires
        first@ == resolved(definitions, uses, values),
        second@ == resolved(definitions, uses, values),
    ensures
        first@ == second@,
        first.is_clean() == second.is_clean(),
{
    assert(first.unused_definitions.deep_view().len() == first.unused_definitions@.len());
    assert(second.unused_definitions.deep_view().len() == second.unused_definitions@.len());
    assert(first.unused_values.deep_view().len() == first.unused_values@.len());
    assert(second.unused_values.deep_view().len() == second.unused_values@.len());
}

/// Of two definitions of different names and one use of the first name, the
/// second definition alone is unused.
pub proof fn lemma_unused_of_two_definitions(a: VariableView, b: VariableView, u: VariableView)
    requires
        u.name == a.name,
        b.name != a.name,
    ensures
        unmatched(seq![a, b], seq![u]) == seq![b],
{
    let uses = seq![u];
    let keep = not_named_in(uses);
    assert(uses[0].name == a.name);
    assert(!keep(a));
    assert(keep(b));
    let none = Seq::<VariableView>::empty();
    assert(none.filter(keep) =~= none) by {
        reveal(Seq::filter);
    }
    none.lemma_filter_push(a, keep);
    none.push(a).lemma_filter_push(b, keep);
    assert(seq![a, b] =~= none.push(a).push(b));
    assert(seq![b] =~= none.push(b));
}

/// Of two values of different names and one definition of the first name,
/// the second value alone has no definition.
pub proof fn lemma_orphan_of_two_values(d: VariableView, a: VariableView, c: VariableView)
    requires
        a.name == d.name,
        c.name != d.name,
    ensures
        unmatched(seq![a, c], seq![d]) == seq![c],
{
    lemma_unused_of_two_definitions(a, c, d);
}

impl UnusedReport {
    /// A report is well formed when every entry in it is.
    pub open spec fn wf(&self) -> bool {
        &&& forall|k: int|
            0 <= k < self.unused_definitions.len() ==> (#[trigger] self.unused_definitions[k]).wf()
        &&& forall|k: int|
            0 <= k < self.unused_values.len() ==> (#[trigger] self.unused_values[k]).wf()
    }

    /// Whether nothing is left over.
    pub open spec fn is_clean(&self) -> bool {
        self.unused_definitions@.len() == 0 && self.unused_values@.len() == 0
    }

    /// The exit status that the report stands for: 0 where nothing is left
    /// over, 1 where anything is.
    pub fn exit_code(&self) -> (code: i32)
        ensures
            code == (if self.is_clean() { 0i32 } else { 1i32 }),
    {
        if self.unused_definitions.len() == 0 && self.unused_values.len() == 0 {
            0
        } else {
            1
        }
    }
}

} // verus!
