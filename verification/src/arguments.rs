//! The argument store: the values that one match of a syntax has read, each
//! under the name of its slot.

use vstd::prelude::*;
use crate::argument::ArgumentValue;
use crate::argument::Stored;
use crate::encoding::same_text;
use crate::grammar::Value;

verus! {

/// The map that a list of named values stands for. A later value replaces an
/// earlier one of the same name.
pub open spec fn named_values(entries: Seq<(String, ArgumentValue)>) -> Map<Seq<char>, Value>
    decreases entries.len(),
{
    if entries.len() == 0 {
        Map::empty()
    } else {
        named_values(entries.drop_last()).insert(entries.last().0@, entries.last().1@)
    }
}

/// A name that the entries from `from` on do not use has in the whole list
/// what it has in the entries before `from`.
proof fn lemma_named_values_tail(entries: Seq<(String, ArgumentValue)>, from: int, key: Seq<char>)
    requires
        0 <= from <= entries.len(),
        forall|j: int| from <= j < entries.len() ==> (#[trigger] entries[j]).0@ != key,
    ensures
        named_values(entries).contains_key(key) == named_values(entries.take(from)).contains_key(
            key,
        ),
        named_values(entries).contains_key(key) ==> named_values(entries)[key] == named_values(
            entries.take(from),
        )[key],
    decreases entries.len() - from,
{
    if from < entries.len() {
        let shorter = entries.drop_last();
        assert(shorter.take(from) =~= entries.take(from));
        assert forall|j: int| from <= j < shorter.len() implies (#[trigger] shorter[j]).0@
            != key by {
            assert(shorter[j] == entries[j]);
        }
        lemma_named_values_tail(shorter, from, key);
    } else {
        assert(entries.take(from) =~= entries);
    }
}

/// The values that one match has read, by the names of their slots.
#[derive(Debug)]
pub struct CommandArgs {
    internal: Vec<(String, ArgumentValue)>,
}

impl View for CommandArgs {
    type V = Map<Seq<char>, Value>;

    closed spec fn view(&self) -> Map<Seq<char>, Value> {
        named_values(self.internal@)
    }
}

impl CommandArgs {
    /// An empty store.
    pub fn new() -> (args: Self)
        ensures
            args@ == Map::<Seq<char>, Value>::empty(),
    {
        Self { internal: Vec::new() }
    }

    /// Puts `value` under `key`, in place of what was there.
    pub fn insert(&mut self, key: &str, value: ArgumentValue)
        ensures
            final(self)@ == old(self)@.insert(key@, value@),
    {
        self.internal.push((key.to_owned(), value));
        proof {
            assert(self.internal@.drop_last() =~= old(self).internal@);
        }
    }

    /// A copy of this store.
    pub fn duplicate(&self) -> (copy: Self)
        ensures
            copy@ == self@,
    {
        let mut copy: Vec<(String, ArgumentValue)> = Vec::new();
        let mut i: usize = 0;
        assert(self.internal@.take(0) =~= Seq::empty());
        while i < self.internal.len()
            invariant
                i <= self.internal@.len(),
                named_values(copy@) == named_values(self.internal@.take(i as int)),
            decreases self.internal.len() - i,
        {
            let ghost before = copy@;
            copy.push((self.internal[i].0.clone(), self.internal[i].1.duplicate()));
            proof {
                assert(copy@.drop_last() =~= before);
                assert(self.internal@.take(i + 1).drop_last() =~= self.internal@.take(i as int));
            }
            i = i + 1;
        }
        assert(self.internal@.take(i as int) =~= self.internal@);
        Self { internal: copy }
    }

    /// The value under `key` with its tag, if there is one.
    pub fn value(&self, key: &str) -> (found: Option<&ArgumentValue>)
        ensures
            found is Some <==> self@.contains_key(key@),
            found matches Some(value) ==> value@ == self@[key@],
    {
        let mut i: usize = self.internal.len();
        while i > 0
            invariant
                i <= self.internal@.len(),
                forall|j: int| i <= j < self.internal@.len() ==> (#[trigger] self.internal@[j]).0@ != key@,
            decreases i,
        {
            i = i - 1;
            if same_text(self.internal[i].0.as_str(), key) {
                proof {
                    lemma_named_values_tail(self.internal@, i + 1, key@);
                    assert(self.internal@.take(i + 1).drop_last() =~= self.internal@.take(i as int));
                }
                return Some(&self.internal[i].1);
            }
        }
        proof {
            lemma_named_values_tail(self.internal@, 0, key@);
        }
        None
    }

    /// The value under `key`, if there is one and it is of type `T`.
    pub fn get<T: Stored>(&self, key: &str) -> (found: Option<&T>)
        ensures
            found is Some <==> self@.contains_key(key@) && self@[key@].kind() == T::kind(),
            found matches Some(value) ==> value.value() == self@[key@],
    {
        match self.value(key) {
            Some(tagged) => T::untagged(tagged),
            None => None,
        }
    }
}

} // verus!
