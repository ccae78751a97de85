//! Interning of names: each distinct name gets a small index on first use
//! and keeps it for the life of the table.

use vstd::prelude::*;
use vstd::string::*;
use vstd::utf8::*;

verus! {

/// The index that `name` has in `names`, if it is there.
pub open spec fn position_of(names: Seq<Seq<char>>, name: Seq<char>) -> Option<int> {
    if names.contains(name) {
        Some(names.index_of(name))
    } else {
        None
    }
}

/// The table after `name` has been looked up or added.
pub open spec fn names_with(names: Seq<Seq<char>>, name: Seq<char>) -> Seq<Seq<char>> {
    if names.contains(name) {
        names
    } else {
        names.push(name)
    }
}

/// The index under which `name` is found once it has been interned.
pub open spec fn key_of(names: Seq<Seq<char>>, name: Seq<char>) -> int {
    match position_of(names, name) {
        Some(i) => i,
        None => names.len() as int,
    }
}

/// With no name twice in the table, a name is found at one index only.
pub proof fn lemma_position_unique(names: Seq<Seq<char>>, i: int)
    requires
        names.no_duplicates(),
        0 <= i < names.len(),
    ensures
        names.contains(names[i]),
        position_of(names, names[i]) == Some(i),
        key_of(names, names[i]) == i,
{
}

/// Interning keeps the table free of repetitions, keeps every index that
/// was handed out, and finds the name where it says.
pub proof fn lemma_names_with(names: Seq<Seq<char>>, name: Seq<char>)
    requires
        names.no_duplicates(),
    ensures
        names_with(names, name).no_duplicates(),
        names.len() <= names_with(names, name).len(),
        forall|i: int| 0 <= i < names.len() ==> #[trigger] names_with(names, name)[i] == names[i],
        0 <= key_of(names, name) < names_with(names, name).len(),
        names_with(names, name)[key_of(names, name)] == name,
        names_with(names_with(names, name), name) == names_with(names, name),
        key_of(names_with(names, name), name) == key_of(names, name),
{
    let after = names_with(names, name);
    if !names.contains(name) {
        assert(after[names.len() as int] == name);
        assert(after.contains(name));
        lemma_position_unique(after, names.len() as int);
    } else {
        let i = names.index_of(name);
        lemma_position_unique(names, i);
    }
}

/// True when the two pieces of text are the same.
pub fn str_equal(a: &str, b: &str) -> (same: bool)
    ensures
        same == (a@ == b@),
{
    let x = a.as_bytes();
    let y = b.as_bytes();
    proof {
        encode_utf8_decode_utf8(a@);
        encode_utf8_decode_utf8(b@);
    }
    if x.len() != y.len() {
        return false;
    }
    let mut i: usize = 0;
    while i < x.len()
        invariant
            i <= x@.len(),
            x@.len() == y@.len(),
            x@ == encode_utf8(a@),
            y@ == encode_utf8(b@),
            forall|j: int| 0 <= j < i ==> x@[j] == y@[j],
        decreases x@.len() - i,
    {
        if x[i] != y[i] {
            return false;
        }
        i = i + 1;
    }
    proof {
        assert(x@ =~= y@);
    }
    true
}

/// A table of names, each at a stable index.
pub struct InternTable {
    names: Vec<String>,
}

impl View for InternTable {
    type V = Seq<Seq<char>>;

    closed spec fn view(&self) -> Seq<Seq<char>> {
        self.names.deep_view()
    }
}

impl InternTable {
    /// No name occurs twice.
    pub open spec fn wf(&self) -> bool {
        self@.no_duplicates()
    }

    pub fn new() -> (table: InternTable)
        ensures
            table@ == Seq::<Seq<char>>::empty(),
            table.wf(),
    {
        let table = InternTable { names: Vec::new() };
        proof {
            assert(table@ =~= Seq::<Seq<char>>::empty());
        }
        table
    }

    /// The number of names in the table.
    pub fn len(&self) -> (n: usize)
        ensures
            n == self@.len(),
    {
        self.names.len()
    }

    /// The index of `name`, if it has been interned.
    pub fn get_index(&self, name: &str) -> (found: Option<usize>)
        requires
            self.wf(),
        ensures
            match found {
                Some(i) => position_of(self@, name@) == Some(i as int),
                None => position_of(self@, name@) is None,
            },
    {
        let mut i: usize = 0;
        while i < self.names.len()
            invariant
                i <= self.names@.len(),
                self.wf(),
                forall|j: int| 0 <= j < i ==> self@[j] != name@,
            decreases self.names@.len() - i,
        {
            if str_equal(self.names[i].as_str(), name) {
                proof {
                    lemma_position_unique(self@, i as int);
                }
                return Some(i);
            }
            i = i + 1;
        }
        None
    }

    /// The name at `index`, if the table has that many names.
    pub fn get_name(&self, index: usize) -> (found: Option<&String>)
        ensures
            match found {
                Some(name) => index < self@.len() && name@ == self@[index as int],
                None => index >= self@.len(),
            },
    {
        if index < self.names.len() {
            Some(&self.names[index])
        } else {
            None
        }
    }

    /// The index of `name`, which is added at the end if it is not there yet.
    pub fn intern(&mut self, name: &str) -> (key: usize)
        requires
            old(self).wf(),
        ensures
            final(self).wf(),
            final(self)@ == names_with(old(self)@, name@),
            key == key_of(old(self)@, name@),
    {
        proof {
            lemma_names_with(self@, name@);
        }
        match self.get_index(name) {
            Some(i) => i,
            None => {
                let key = self.names.len();
                self.names.push(name.to_owned());
                proof {
                    assert(self@ =~= old(self)@.push(name@));
                }
                key
            },
        }
    }
}

} // verus!
