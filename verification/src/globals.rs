use vstd::prelude::*;
use crate::value::{Value, ValueView};

verus! {

/// The table of global variables: each name has at most one value.
pub struct Globals {
    /// Names with their values. Where a name occurs more than once, the
    /// last entry counts.
    entries: Vec<(String, Value)>,
}

/// The content of one entry.
pub open spec fn entry_view(e: (String, Value)) -> (Seq<char>, ValueView) {
    (e.0@, e.1@)
}

/// The table that a sequence of definitions leaves, later ones replacing
/// earlier ones of the same name.
pub open spec fn defined(entries: Seq<(Seq<char>, ValueView)>) -> Map<Seq<char>, ValueView>
    decreases entries.len(),
{
    if entries.len() == 0 {
        Map::empty()
    } else {
        defined(entries.drop_last()).insert(entries.last().0, entries.last().1)
    }
}

/// The value that the last definition of `name` gives it, if there is one.
pub open spec fn lookup(entries: Seq<(Seq<char>, ValueView)>, name: Seq<char>) -> Option<ValueView>
    decreases entries.len(),
{
    if entries.len() == 0 {
        None
    } else if entries.last().0 == name {
        Some(entries.last().1)
    } else {
        lookup(entries.drop_last(), name)
    }
}

/// The table holds for each name what its last definition gave it.
proof fn lemma_lookup(entries: Seq<(Seq<char>, ValueView)>, name: Seq<char>)
    ensures
        defined(entries).contains_key(name) <==> lookup(entries, name) is Some,
        lookup(entries, name) is Some ==> defined(entries)[name] == lookup(entries, name)->0,
    decreases entries.len(),
{
    if entries.len() > 0 {
        lemma_lookup(entries.drop_last(), name);
    }
}

/// Giving the last definition of a name another value is the same as
/// defining the name anew.
proof fn lemma_redefined(entries: Seq<(Seq<char>, ValueView)>, i: int, value: ValueView)
    requires
        0 <= i < entries.len(),
        forall|j: int| i < j < entries.len() ==> (#[trigger] entries[j]).0 != entries[i].0,
    ensures
        defined(entries.update(i, (entries[i].0, value))) == defined(entries).insert(
            entries[i].0,
            value,
        ),
    decreases entries.len(),
{
    let name = entries[i].0;
    let changed = entries.update(i, (name, value));
    if i == entries.len() - 1 {
        assert(changed.drop_last() =~= entries.drop_last());
        assert(defined(changed) =~= defined(entries).insert(name, value));
    } else {
        let front = entries.drop_last();
        assert(front[i] == entries[i]);
        assert forall|j: int| i < j < front.len() implies (#[trigger] front[j]).0
            != front[i].0 by {
            assert(entries[j].0 != entries[i].0);
        }
        lemma_redefined(front, i, value);
        assert(changed.drop_last() =~= front.update(i, (name, value)));
        assert(changed.last() == entries.last());
        assert(entries[entries.len() - 1].0 != name);
        assert(defined(changed) =~= defined(entries).insert(name, value));
    }
}

impl View for Globals {
    type V = Map<Seq<char>, ValueView>;

    closed spec fn view(&self) -> Map<Seq<char>, ValueView> {
        defined(self.entries@.map_values(|e: (String, Value)| entry_view(e)))
    }
}

impl Globals {
    /// An empty table.
    pub fn new() -> (globals: Globals)
        ensures
            globals@ == Map::<Seq<char>, ValueView>::empty(),
    {
        let globals = Globals { entries: Vec::new() };
        assert(globals.entries@.map_values(|e: (String, Value)| entry_view(e)) =~= Seq::empty());
        globals
    }

    /// The place of the entry that counts for `name`.
    fn find(&self, name: &String) -> (found: Option<usize>)
        ensures
            found is Some <==> self@.contains_key(name@),
            found is Some ==> found->0 < self.entries.len() && self.entries[found->0 as int].0@
                == name@ && self.entries[found->0 as int].1@ == self@[name@] && forall|j: int|
                found->0 < j < self.entries.len() ==> (#[trigger] self.entries[j]).0@ != name@,
    {
        let ghost content = self.entries@.map_values(|e: (String, Value)| entry_view(e));
        proof {
            lemma_lookup(content, name@);
            assert(content.take(content.len() as int) =~= content);
        }
        let mut i: usize = self.entries.len();
        while i > 0
            invariant
                i <= self.entries.len(),
                content == self.entries@.map_values(|e: (String, Value)| entry_view(e)),
                lookup(content, name@) == lookup(content.take(i as int), name@),
                self@.contains_key(name@) <==> lookup(content, name@) is Some,
                lookup(content, name@) is Some ==> self@[name@] == lookup(content, name@)->0,
                forall|j: int|
                    i <= j < self.entries.len() ==> (#[trigger] self.entries[j]).0@ != name@,
            decreases i,
        {
            i -= 1;
            proof {
                assert(content.take(i + 1).drop_last() =~= content.take(i as int));
                assert(content.take(i + 1).last() == content[i as int]);
            }
            if self.entries[i].0 == *name {
                return Some(i);
            }
        }
        None
    }

    /// The value of `name`, if it is defined.
    pub fn get(&self, name: &String) -> (value: Option<&Value>)
        ensures
            value is Some <==> self@.contains_key(name@),
            value is Some ==> value->0@ == self@[name@],
    {
        match self.find(name) {
            Some(i) => Some(&self.entries[i].1),
            None => None,
        }
    }

    /// Defines `name` as `value`; an earlier value of the name is replaced.
    pub fn define(&mut self, name: String, value: Value)
        ensures
            final(self)@ == old(self)@.insert(name@, value@),
    {
        let ghost content = self.entries@.map_values(|e: (String, Value)| entry_view(e));
        match self.find(&name) {
            Some(i) => {
                proof {
                    assert(content[i as int].0 == name@);
                    assert forall|j: int| i < j < content.len() implies (#[trigger] content[j]).0
                        != content[i as int].0 by {
                        assert(self.entries[j].0@ != name@);
                    }
                    lemma_redefined(content, i as int, value@);
                }
                self.entries.set(i, (name, value));
                assert(self.entries@.map_values(|e: (String, Value)| entry_view(e)) =~= content.update(
                    i as int,
                    (name@, value@),
                ));
            },
            None => {
                self.entries.push((name, value));
                assert(self.entries@.map_values(|e: (String, Value)| entry_view(e)) =~= content.push(
                    (name@, value@),
                ));
                assert(content.push((name@, value@)).drop_last() =~= content);
            },
        }
    }
}

} // verus!
