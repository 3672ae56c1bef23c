//! The entries that are extracted from file contents.

use vstd::prelude::*;
use vstd::string::StrSliceExecFns;
use vstd::string::StringExecFns;

verus! {

/// What an entry is: the definition of a variable, a use of one, or a value
/// assigned to one.
#[derive(Debug, Clone, Copy, PartialEq, Eq, Structural)]
pub enum EntryType {
    Definition,
    Use,
    Value,
}

/// One occurrence of a name in a file. Occurrences are never merged: the same
/// name found twice gives two entries.
#[derive(Debug, PartialEq, Eq)]
pub struct Variable {
    pub entry_type: EntryType,
    pub name: String,
    pub at: String,
}

/// The mathematical value of a `Variable`.
pub struct VariableView {
    pub entry_type: EntryType,
    pub name: Seq<char>,
    pub at: Seq<char>,
}

impl View for Variable {
    type V = VariableView;

    open spec fn view(&self) -> VariableView {
        VariableView { entry_type: self.entry_type, name: self.name@, at: self.at@ }
    }
}

impl DeepView for Variable {
    type V = VariableView;

    open spec fn deep_view(&self) -> VariableView {
        self.view()
    }
}

/// A letter of the ASCII alphabet, a decimal digit or an underscore.
pub open spec fn is_identifier_char(c: char) -> bool {
    ||| 'a' <= c <= 'z'
    ||| 'A' <= c <= 'Z'
    ||| '0' <= c <= '9'
    ||| c == '_'
}

/// A non-empty run of identifier characters.
pub open spec fn is_identifier(s: Seq<char>) -> bool {
    &&& s.len() > 0
    &&& forall|i: int| 0 <= i < s.len() ==> is_identifier_char(#[trigger] s[i])
}

impl Variable {
    /// An entry is well formed when its name is an identifier.
    pub open spec fn wf(&self) -> bool {
        is_identifier(self.name@)
    }

    /// Builds the entries that the matches in one file give: one for each
    /// match that captured a name that is an identifier, in the order of the
    /// matches.
    pub fn from_captures(
        found: &Vec<Vec<Option<String>>>,
        entry_type: EntryType,
        at: &str,
    ) -> (entries: Vec<Variable>)
        ensures
            entries.deep_view() == entries_of(found.deep_view(), entry_type, at@),
            forall|i: int| 0 <= i < entries.len() ==> (#[trigger] entries[i]).wf(),
    {
        let mut entries: Vec<Variable> = Vec::new();
        let mut i: usize = 0;
        assert(found.deep_view().take(0) =~= Seq::empty());
        assert(entries.deep_view() =~= Seq::empty());
        while i < found.len()
            invariant
                i <= found.len(),
                entries.deep_view() == entries_of(found.deep_view().take(i as int), entry_type, at@),
                forall|k: int| 0 <= k < entries.len() ==> (#[trigger] entries[k]).wf(),
            decreases found.len() - i,
        {
            let ghost before = entries.deep_view();
            proof {
                let upto = found.deep_view().take(i + 1);
                assert(upto.drop_last() =~= found.deep_view().take(i as int));
                assert(upto.last() == found[i as int].deep_view());
            }
            let groups = &found[i];
            if groups.len() > 1 {
                assert(groups.deep_view()[1] == groups[1].deep_view());
                match &groups[1] {
                    Some(name) => {
                        if is_identifier_str(name.as_str()) {
                            entries.push(
                                Variable {
                                    entry_type,
                                    name: name.clone(),
                                    at: String::from_str(at),
                                },
                            );
                            assert(entries.deep_view() =~= before.push(
                                VariableView { entry_type, name: name@, at: at@ },
                            ));
                        }
                    },
                    None => {},
                }
            }
            i += 1;
        }
        assert(found.deep_view().take(found.len() as int) =~= found.deep_view());
        entries
    }

    /// A copy of the entry.
    pub fn duplicate(&self) -> (copy: Variable)
        ensures
            copy == *self,
    {
        Variable { entry_type: self.entry_type, name: self.name.clone(), at: self.at.clone() }
    }
}

/// The name that a match captured: the text of its first group after the
/// whole match, where the match has such a group and the group took part.
pub open spec fn captured_name(groups: Seq<Option<Seq<char>>>) -> Option<Seq<char>> {
    if groups.len() > 1 {
        groups[1]
    } else {
        None
    }
}

/// The entries that the matches give: one for each match that captured a
/// name that is an identifier, in the order of the matches, each of the given
/// kind and at the given place.
pub open spec fn entries_of(
    captures: Seq<Seq<Option<Seq<char>>>>,
    entry_type: EntryType,
    at: Seq<char>,
) -> Seq<VariableView>
    decreases captures.len(),
{
    if captures.len() == 0 {
        Seq::empty()
    } else {
        let earlier = entries_of(captures.drop_last(), entry_type, at);
        match captured_name(captures.last()) {
            Some(name) => if is_identifier(name) {
                earlier.push(VariableView { entry_type, name, at })
            } else {
                earlier
            },
            None => earlier,
        }
    }
}

/// Every entry made from matches has an identifier for its name, the kind
/// and the place that were asked for, and a match that captured its name.
pub proof fn lemma_entries_of_members(
    captures: Seq<Seq<Option<Seq<char>>>>,
    entry_type: EntryType,
    at: Seq<char>,
)
    ensures
        entries_of(captures, entry_type, at).len() <= captures.len(),
        forall|i: int|
            0 <= i < entries_of(captures, entry_type, at).len() ==> {
                let e = #[trigger] entries_of(captures, entry_type, at)[i];
                &&& is_identifier(e.name)
                &&& e.entry_type == entry_type
                &&& e.at == at
                &&& exists|j: int|
                    0 <= j < captures.len() && captured_name(#[trigger] captures[j]) == Some(
                        e.name,
                    )
            },
    decreases captures.len(),
{
    if captures.len() > 0 {
        let shorter = captures.drop_last();
        lemma_entries_of_members(shorter, entry_type, at);
        let earlier = entries_of(shorter, entry_type, at);
        assert forall|i: int| 0 <= i < entries_of(captures, entry_type, at).len() implies {
            let e = #[trigger] entries_of(captures, entry_type, at)[i];
            &&& is_identifier(e.name)
            &&& e.entry_type == entry_type
            &&& e.at == at
            &&& exists|j: int|
                0 <= j < captures.len() && captured_name(#[trigger] captures[j]) == Some(e.name)
        } by {
            let e = entries_of(captures, entry_type, at)[i];
            if i < earlier.len() {
                assert(e == earlier[i]);
                let j = choose|j: int|
                    0 <= j < shorter.len() && captured_name(#[trigger] shorter[j]) == Some(e.name);
                assert(captured_name(captures[j]) == Some(e.name));
            } else {
                assert(captured_name(captures[captures.len() - 1]) == Some(e.name));
            }
        }
    }
}

/// Every match that captured an identifier gives an entry of exactly that
/// name.
pub proof fn lemma_entries_of_complete(
    captures: Seq<Seq<Option<Seq<char>>>>,
    entry_type: EntryType,
    at: Seq<char>,
    name: Seq<char>,
)
    requires
        exists|j: int|
            0 <= j < captures.len() && captured_name(#[trigger] captures[j]) == Some(name),
        is_identifier(name),
    ensures
        entries_of(captures, entry_type, at).contains(VariableView { entry_type, name, at }),
    decreases captures.len(),
{
    let wanted = VariableView { entry_type, name, at };
    let all = entries_of(captures, entry_type, at);
    let shorter = captures.drop_last();
    let earlier = entries_of(shorter, entry_type, at);
    if captured_name(captures.last()) == Some(name) {
        assert(all[all.len() - 1] == wanted);
    } else {
        let j = choose|j: int|
            0 <= j < captures.len() && captured_name(#[trigger] captures[j]) == Some(name);
        assert(captured_name(shorter[j]) == Some(name));
        lemma_entries_of_complete(shorter, entry_type, at, name);
        let k = choose|k: int| 0 <= k < earlier.len() && earlier[k] == wanted;
        assert(all[k] == wanted);
    }
}

/// Tells whether `s` is a non-empty run of ASCII letters, digits and
/// underscores.
pub fn is_identifier_str(s: &str) -> (ok: bool)
    ensures
        ok == is_identifier(s@),
{
    if !s.is_ascii() {
        proof {
            let i = choose|i: int| 0 <= i < s@.len() && !('\0' <= #[trigger] s@[i] <= '\u{7f}');
            assert(!is_identifier_char(s@[i]));
        }
        return false;
    }
    let n: usize = s.unicode_len();
    if n == 0 {
        return false;
    }
    let mut i: usize = 0;
    while i < n
        invariant
            s.is_ascii(),
            n == s@.len(),
            i <= n,
            forall|j: int| 0 <= j < i ==> is_identifier_char(#[trigger] s@[j]),
        decreases n - i,
    {
        let b: u8 = s.get_ascii(i);
        let ok = (0x61 <= b && b <= 0x7a) || (0x41 <= b && b <= 0x5a) || (0x30 <= b && b <= 0x39)
            || b == 0x5f;
        proof {
            let c = s@[i as int];
            assert('\0' <= c <= '\u{7f}');
            assert(c as u8 == b);
            assert(ok == is_identifier_char(c));
        }
        if !ok {
            return false;
        }
        i += 1;
    }
    true
}

} // verus!
