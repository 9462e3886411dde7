//! Messages: named texts that are given in several languages.

use vstd::prelude::*;

verus! {

/// One message: its name and its text, language by language.
#[derive(Debug, Clone, PartialEq, Eq)]
pub struct MsgEntry {
    pub name: String,
    pub content: Vec<String>,
}

/// A table of messages.
#[derive(Debug, Clone, PartialEq, Eq)]
pub struct Msg {
    pub entries: Vec<MsgEntry>,
}

/// The index of the first of `entries` with the given name, looking from
/// index `from` on.
pub open spec fn first_named(entries: Seq<MsgEntry>, name: Seq<char>, from: int) -> Option<int>
    decreases entries.len() - from,
{
    if from < 0 || from >= entries.len() {
        None
    } else if entries[from].name@ == name {
        Some(from)
    } else {
        first_named(entries, name, from + 1)
    }
}

/// `first_named` finds an entry with the name that none before it (from
/// `from` on) has, and finds none only where no entry has the name.
pub proof fn lemma_first_named(entries: Seq<MsgEntry>, name: Seq<char>, from: int)
    requires
        0 <= from,
    ensures
        match first_named(entries, name, from) {
            Some(i) => from <= i < entries.len() && entries[i].name@ == name && forall|j: int|
                from <= j < i ==> (#[trigger] entries[j]).name@ != name,
            None => forall|j: int| from <= j < entries.len() ==> (#[trigger] entries[j]).name@ != name,
        },
    decreases entries.len() - from,
{
    if from < entries.len() && entries[from].name@ != name {
        lemma_first_named(entries, name, from + 1);
    }
}

impl Msg {
    /// The first message of the table with the given name.
    pub fn get_entry(&self, name: &String) -> (r: Option<&MsgEntry>)
        ensures
            match r {
                Some(entry) => first_named(self.entries@, name@, 0) matches Some(i) && *entry
                    == self.entries@[i],
                None => first_named(self.entries@, name@, 0) is None,
            },
    {
        let mut i: usize = 0;
        while i < self.entries.len()
            invariant
                i <= self.entries.len(),
                first_named(self.entries@, name@, 0) == first_named(self.entries@, name@, i as int),
            decreases self.entries.len() - i,
        {
            if self.entries[i].name == *name {
                return Some(&self.entries[i]);
            }
            i += 1;
        }
        None
    }
}

} // verus!
