//! The alias table: which command text each alias name stands for.

use crate::util::text::str_eq;
use vstd::prelude::*;

verus! {

/// One alias as contracts see it: its name and its command text.
pub type Entry = (Seq<char>, Seq<char>);

/// The mapping that a list of entries stands for. Where a name occurs twice,
/// the later entry counts.
pub open spec fn table_of(entries: Seq<Entry>) -> Map<Seq<char>, Seq<char>>
    decreases entries.len(),
{
    if entries.len() == 0 {
        Map::empty()
    } else {
        table_of(entries.drop_last()).insert(entries.last().0, entries.last().1)
    }
}

/// No name occurs twice.
pub open spec fn distinct_names(entries: Seq<Entry>) -> bool {
    forall|i: int, j: int| 0 <= i < j < entries.len() ==> entries[i].0 != entries[j].0
}

/// No name and no command text is empty.
pub open spec fn nonempty_entries(entries: Seq<Entry>) -> bool {
    forall|i: int| 0 <= i < entries.len() ==> (#[trigger] entries[i]).0.len() > 0 && entries[i].1.len() > 0
}

/// No name and no command text of the mapping is empty.
pub open spec fn well_formed(table: Map<Seq<char>, Seq<char>>) -> bool {
    forall|name: Seq<char>| #[trigger]
        table.contains_key(name) ==> name.len() > 0 && table[name].len() > 0
}

/// `name` is the name of one of the entries.
pub open spec fn has_name(entries: Seq<Entry>, name: Seq<char>) -> bool {
    exists|i: int| 0 <= i < entries.len() && (#[trigger] entries[i]).0 == name
}

/// The mapping of a list without repeated names holds exactly its entries.
pub proof fn lemma_table_of(entries: Seq<Entry>)
    requires
        distinct_names(entries),
    ensures
        table_of(entries).dom().finite(),
        table_of(entries).dom().len() == entries.len(),
        forall|name: Seq<char>| #[trigger]
            table_of(entries).contains_key(name) <==> has_name(entries, name),
        forall|i: int|
            0 <= i < entries.len() ==> table_of(entries).contains_key((#[trigger] entries[i]).0)
                && table_of(entries)[entries[i].0] == entries[i].1,
    decreases entries.len(),
{
    if entries.len() > 0 {
        let front = entries.drop_last();
        let last = entries.last();
        lemma_table_of(front);
        assert forall|name: Seq<char>| #[trigger]
            table_of(entries).contains_key(name) <==> has_name(entries, name) by {
            if has_name(front, name) {
                let i = choose|i: int| 0 <= i < front.len() && (#[trigger] front[i]).0 == name;
                assert(entries[i].0 == name);
            }
            if has_name(entries, name) && name != last.0 {
                let i = choose|i: int| 0 <= i < entries.len() && (#[trigger] entries[i]).0 == name;
                assert(front[i].0 == name);
            }
            if name == last.0 {
                assert(entries[entries.len() - 1].0 == name);
            }
        }
        assert forall|i: int| 0 <= i < entries.len() implies table_of(entries).contains_key(
            (#[trigger] entries[i]).0,
        ) && table_of(entries)[entries[i].0] == entries[i].1 by {
            if i < front.len() {
                assert(front[i] == entries[i]);
            }
        }
        if has_name(front, last.0) {
            let i = choose|i: int| 0 <= i < front.len() && (#[trigger] front[i]).0 == last.0;
            assert(entries[i].0 == entries[entries.len() - 1].0);
        }
        assert(!table_of(front).contains_key(last.0));
        assert(table_of(entries).dom() =~= table_of(front).dom().insert(last.0));
    }
}

/// A mapping made of entries without empty strings is well formed.
pub proof fn lemma_table_of_well_formed(entries: Seq<Entry>)
    requires
        nonempty_entries(entries),
    ensures
        well_formed(table_of(entries)),
    decreases entries.len(),
{
    if entries.len() > 0 {
        let front = entries.drop_last();
        assert forall|i: int| 0 <= i < front.len() implies (#[trigger] front[i]).0.len() > 0
            && front[i].1.len() > 0 by {
            assert(front[i] == entries[i]);
        }
        lemma_table_of_well_formed(front);
        assert(entries[entries.len() - 1].0.len() > 0);
    }
}

/// A new content for the name of entry `i` is, in the mapping, an insertion.
pub proof fn lemma_table_of_update(entries: Seq<Entry>, i: int, content: Seq<char>)
    requires
        distinct_names(entries),
        0 <= i < entries.len(),
    ensures
        distinct_names(entries.update(i, (entries[i].0, content))),
        table_of(entries.update(i, (entries[i].0, content))) == table_of(entries).insert(
            entries[i].0,
            content,
        ),
{
    let after = entries.update(i, (entries[i].0, content));
    lemma_table_of(entries);
    lemma_table_of(after);
    assert forall|name: Seq<char>| has_name(entries, name) <==> has_name(after, name) by {
        if has_name(entries, name) {
            let j = choose|j: int| 0 <= j < entries.len() && (#[trigger] entries[j]).0 == name;
            assert(after[j].0 == name);
        }
        if has_name(after, name) {
            let j = choose|j: int| 0 <= j < after.len() && (#[trigger] after[j]).0 == name;
            assert(entries[j].0 == name);
        }
    }
    let expected = table_of(entries).insert(entries[i].0, content);
    assert forall|name: Seq<char>| table_of(after).contains_key(name) implies #[trigger] table_of(
        after,
    )[name] == expected[name] by {
        let j = choose|j: int| 0 <= j < after.len() && (#[trigger] after[j]).0 == name;
        assert(entries[j].0 == name);
    }
    assert(table_of(after) =~= expected);
}

/// Taking entry `i` out is, in the mapping, the removal of its name.
pub proof fn lemma_table_of_remove(entries: Seq<Entry>, i: int)
    requires
        distinct_names(entries),
        0 <= i < entries.len(),
    ensures
        distinct_names(entries.remove(i)),
        table_of(entries.remove(i)) == table_of(entries).remove(entries[i].0),
{
    let after = entries.remove(i);
    lemma_table_of(entries);
    assert(distinct_names(after)) by {
        assert forall|a: int, b: int| 0 <= a < b < after.len() implies after[a].0 != after[b].0 by {
            let a0 = if a < i { a } else { a + 1 };
            let b0 = if b < i { b } else { b + 1 };
            assert(after[a] == entries[a0]);
            assert(after[b] == entries[b0]);
        }
    }
    lemma_table_of(after);
    let expected = table_of(entries).remove(entries[i].0);
    assert forall|name: Seq<char>| table_of(after).contains_key(name) <==> expected.contains_key(
        name,
    ) by {
        if has_name(after, name) {
            let j = choose|j: int| 0 <= j < after.len() && (#[trigger] after[j]).0 == name;
            let j0 = if j < i { j } else { j + 1 };
            assert(entries[j0].0 == name);
        }
        if has_name(entries, name) && name != entries[i].0 {
            let j = choose|j: int| 0 <= j < entries.len() && (#[trigger] entries[j]).0 == name;
            let j1 = if j < i { j } else { j - 1 };
            assert(after[j1].0 == name);
        }
    }
    assert forall|name: Seq<char>| table_of(after).contains_key(name) implies #[trigger] table_of(
        after,
    )[name] == expected[name] by {
        let j = choose|j: int| 0 <= j < after.len() && (#[trigger] after[j]).0 == name;
        let j0 = if j < i { j } else { j + 1 };
        assert(entries[j0].0 == name);
        assert(after[j] == entries[j0]);
    }
    assert(table_of(after) =~= expected);
}

/// The entries that a list of pairs of strings holds.
pub open spec fn entries_view(pairs: Seq<(String, String)>) -> Seq<Entry> {
    Seq::new(pairs.len(), |i: int| (pairs[i].0@, pairs[i].1@))
}

/// The aliases that are known: each name with the command text that it
/// stands for. No name occurs twice, and neither a name nor a command text is
/// empty.
pub struct AliasTable {
    entries: Vec<(String, String)>,
}

impl View for AliasTable {
    type V = Map<Seq<char>, Seq<char>>;

    /// The mapping from names to command texts.
    open spec fn view(&self) -> Map<Seq<char>, Seq<char>> {
        table_of(self.entries())
    }
}

impl AliasTable {
    /// What holds of every table: no name occurs twice among its entries, and
    /// none of its strings is empty.
    #[verifier::type_invariant]
    pub closed spec fn valid(self) -> bool {
        distinct_names(self.entries()) && nonempty_entries(self.entries())
    }

    /// A valid table is well formed, and as large as its list of entries.
    pub proof fn lemma_valid(self)
        requires
            self.valid(),
        ensures
            distinct_names(self.entries()),
            nonempty_entries(self.entries()),
            well_formed(self@),
            self@.dom().finite(),
            self@.len() == self.entries().len(),
    {
        lemma_table_of(self.entries());
        lemma_table_of_well_formed(self.entries());
    }

    /// The entries in the order in which the table lists them.
    pub closed spec fn entries(&self) -> Seq<Entry> {
        entries_view(self.entries@)
    }

    /// Hands out the list of entries and leaves the table empty.
    fn take_entries(&mut self) -> (entries: Vec<(String, String)>)
        ensures
            entries_view(entries@) == old(self).entries(),
            final(self).entries() == Seq::<Entry>::empty(),
    {
        let mut entries: Vec<(String, String)> = Vec::new();
        assert(entries_view(entries@) =~= Seq::<Entry>::empty());
        core::mem::swap(&mut self.entries, &mut entries);
        entries
    }

    /// A table without aliases.
    pub fn new() -> (table: Self)
        ensures
            table@ == Map::<Seq<char>, Seq<char>>::empty(),
            table.entries() == Seq::<Entry>::empty(),
    {
        let table = AliasTable { entries: Vec::new() };
        assert(table.entries() =~= Seq::<Entry>::empty());
        table
    }

    /// The number of aliases. Of every table it holds that no name occurs
    /// twice among its entries and that none of its strings is empty.
    pub fn len(&self) -> (n: usize)
        ensures
            n == self@.len(),
            n == self.entries().len(),
            distinct_names(self.entries()),
            nonempty_entries(self.entries()),
            well_formed(self@),
    {
        proof {
            use_type_invariant(self);
            lemma_table_of(self.entries());
            lemma_table_of_well_formed(self.entries());
        }
        self.entries.len()
    }

    /// Where the entry for `name` stands, if there is one.
    fn find(&self, name: &str) -> (r: Option<usize>)
        ensures
            match r {
                Some(i) => i < self.entries().len() && self.entries()[i as int].0 == name@,
                None => !has_name(self.entries(), name@),
            },
    {
        let mut i: usize = 0;
        while i < self.entries.len()
            invariant
                i <= self.entries@.len(),
                forall|j: int| 0 <= j < i ==> (#[trigger] self.entries()[j]).0 != name@,
            decreases self.entries@.len() - i,
        {
            if str_eq(self.entries[i].0.as_str(), name) {
                return Some(i);
            }
            i += 1;
        }
        None
    }

    /// Whether `name` is the name of an alias.
    pub fn contains_key(&self, name: &str) -> (r: bool)
        ensures
            r == self@.contains_key(name@),
    {
        proof {
            use_type_invariant(self);
            lemma_table_of(self.entries());
        }
        self.find(name).is_some()
    }

    /// The command text that `name` stands for.
    pub fn get(&self, name: &str) -> (r: Option<&String>)
        ensures
            match r {
                Some(content) => self@.contains_key(name@) && content@ == self@[name@]
                    && content@.len() > 0,
                None => !self@.contains_key(name@),
            },
    {
        proof {
            use_type_invariant(self);
            lemma_table_of(self.entries());
        }
        match self.find(name) {
            Some(i) => Some(&self.entries[i].1),
            None => None,
        }
    }

    /// Lets `name` stand for `content`, whether or not it stood for something
    /// before. An empty name or an empty content is refused, and the table
    /// stays as it is.
    pub fn insert(&mut self, name: String, content: String) -> (accepted: bool)
        ensures
            accepted == (name@.len() > 0 && content@.len() > 0),
            accepted ==> final(self)@ == old(self)@.insert(name@, content@),
            !accepted ==> final(self)@ == old(self)@ && final(self).entries() == old(
                self,
            ).entries(),
            well_formed(final(self)@),
    {
        proof {
            use_type_invariant(&*self);
            lemma_table_of(self.entries());
            lemma_table_of_well_formed(self.entries());
        }
        if name.as_str().is_empty() || content.as_str().is_empty() {
            return false;
        }
        let ghost before = self.entries();
        match self.find(name.as_str()) {
            Some(i) => {
                proof {
                    lemma_table_of_update(before, i as int, content@);
                    let after = before.update(i as int, (before[i as int].0, content@));
                    assert forall|j: int| 0 <= j < after.len() implies (#[trigger] after[j]).0.len()
                        > 0 && after[j].1.len() > 0 by {
                        if j != i {
                            assert(after[j] == before[j]);
                        }
                    }
                    lemma_table_of_well_formed(after);
                }
                let ghost n = name@;
                let ghost c = content@;
                let mut entries = self.take_entries();
                entries.set(i, (name, content));
                assert(entries_view(entries@) =~= before.update(i as int, (n, c)));
                self.entries = entries;
            },
            None => {
                proof {
                    let after = before.push((name@, content@));
                    assert(after.drop_last() =~= before);
                    assert forall|j: int| 0 <= j < after.len() implies (#[trigger] after[j]).0.len()
                        > 0 && after[j].1.len() > 0 by {
                        if j < before.len() {
                            assert(after[j] == before[j]);
                        }
                    }
                    assert(distinct_names(after)) by {
                        assert forall|a: int, b: int| 0 <= a < b < after.len() implies after[a].0
                            != after[b].0 by {
                            assert(after[a] == before[a]);
                            if b < before.len() {
                                assert(after[b] == before[b]);
                            }
                        }
                    }
                    lemma_table_of_well_formed(after);
                }
                let ghost n = name@;
                let ghost c = content@;
                let mut entries = self.take_entries();
                entries.push((name, content));
                assert(entries_view(entries@) =~= before.push((n, c)));
                self.entries = entries;
            },
        }
        true
    }

    /// Takes the alias `name` out of the table and returns its command text.
    pub fn remove(&mut self, name: &str) -> (r: Option<String>)
        ensures
            match r {
                Some(content) => old(self)@.contains_key(name@) && content@ == old(self)@[name@],
                None => !old(self)@.contains_key(name@),
            },
            final(self)@ == old(self)@.remove(name@),
            well_formed(final(self)@),
    {
        proof {
            use_type_invariant(&*self);
            lemma_table_of(self.entries());
            lemma_table_of_well_formed(self.entries());
        }
        let ghost before = self.entries();
        match self.find(name) {
            Some(i) => {
                proof {
                    lemma_table_of_remove(before, i as int);
                    let after = before.remove(i as int);
                    assert forall|j: int| 0 <= j < after.len() implies (#[trigger] after[j]).0.len()
                        > 0 && after[j].1.len() > 0 by {
                        let j0 = if j < i { j } else { j + 1 };
                        assert(after[j] == before[j0]);
                    }
                    lemma_table_of_well_formed(after);
                }
                let mut entries = self.take_entries();
                let removed = entries.remove(i);
                assert(entries_view(entries@) =~= before.remove(i as int));
                self.entries = entries;
                Some(removed.1)
            },
            None => {
                assert(self@ =~= old(self)@.remove(name@));
                None
            },
        }
    }

    /// The name and the command text of the entry at `index`.
    pub fn entry(&self, index: usize) -> (r: Option<(&String, &String)>)
        ensures
            match r {
                Some(pair) => index < self.entries().len() && (pair.0@, pair.1@) == self.entries()[index as int],
                None => index >= self.entries().len(),
            },
    {
        if index < self.entries.len() {
            Some((&self.entries[index].0, &self.entries[index].1))
        } else {
            None
        }
    }
}

} // verus!
