//! Items grouped under integer keys, the keys kept in the order in which they
//! first came.

use vstd::prelude::*;

verus! {

/// The position of the group of `key`, if there is one.
pub open spec fn group_index<T>(groups: Seq<(u64, Seq<T>)>, key: u64) -> Option<int>
    decreases groups.len(),
{
    if groups.len() == 0 {
        None
    } else {
        match group_index(groups.drop_last(), key) {
            Some(i) => Some(i),
            None => if groups.last().0 == key {
                Some(groups.len() - 1)
            } else {
                None
            },
        }
    }
}

/// The groups after `item` was added under `key`: at the end of the group of
/// `key` where there is one, else as a new last group.
pub open spec fn with_item<T>(groups: Seq<(u64, Seq<T>)>, key: u64, item: T) -> Seq<(u64, Seq<T>)> {
    match group_index(groups, key) {
        Some(i) => groups.update(i, (key, groups[i].1.push(item))),
        None => groups.push((key, seq![item])),
    }
}

/// `group_index` gives the first position that holds the key.
pub proof fn lemma_group_index<T>(groups: Seq<(u64, Seq<T>)>, key: u64)
    ensures
        match group_index(groups, key) {
            Some(i) => 0 <= i < groups.len() && groups[i].0 == key && forall|j: int|
                0 <= j < i ==> groups[j].0 != key,
            None => forall|j: int| 0 <= j < groups.len() ==> groups[j].0 != key,
        },
    decreases groups.len(),
{
    if groups.len() > 0 {
        let front = groups.drop_last();
        lemma_group_index(front, key);
        assert(forall|j: int| 0 <= j < front.len() ==> front[j] == groups[j]);
    }
}

/// Items grouped under integer keys.
#[derive(Debug, PartialEq, Eq)]
pub struct Grouped<T> {
    pub entries: Vec<(u64, Vec<T>)>,
}

impl<T> View for Grouped<T> {
    type V = Seq<(u64, Seq<T>)>;

    open spec fn view(&self) -> Seq<(u64, Seq<T>)> {
        Seq::new(self.entries@.len(), |i: int| (self.entries@[i].0, self.entries@[i].1@))
    }
}

impl<T> Grouped<T> {
    /// No groups.
    pub fn new() -> (g: Self)
        ensures
            g@ == Seq::<(u64, Seq<T>)>::empty(),
    {
        let g = Grouped { entries: Vec::new() };
        assert(g@ =~= Seq::<(u64, Seq<T>)>::empty());
        g
    }

    /// The position of the group of `key`.
    pub fn position(&self, key: u64) -> (r: Option<usize>)
        ensures
            match r {
                Some(i) => group_index(self@, key) == Some(i as int),
                None => group_index(self@, key) is None,
            },
    {
        let mut i: usize = 0;
        while i < self.entries.len()
            invariant
                i <= self.entries.len(),
                forall|j: int| 0 <= j < i ==> self@[j].0 != key,
            decreases self.entries.len() - i,
        {
            if self.entries[i].0 == key {
                proof {
                    lemma_group_index(self@, key);
                    assert(self@[i as int].0 == key);
                }
                return Some(i);
            }
            i += 1;
        }
        proof {
            lemma_group_index(self@, key);
        }
        None
    }

    /// Adds `item` under `key`.
    pub fn add(&mut self, key: u64, item: T)
        ensures
            final(self)@ == with_item(old(self)@, key, item),
    {
        match self.position(key) {
            Some(i) => {
                proof {
                    lemma_group_index(self@, key);
                    assert(self@.len() == self.entries@.len());
                    assert(self@[i as int] == (self.entries@[i as int].0, self.entries@[i as int].1@));
                }
                let (k, mut items) = self.entries.remove(i);
                items.push(item);
                self.entries.insert(i, (k, items));
                assert(self@ =~= with_item(old(self)@, key, item));
            },
            None => {
                let mut items: Vec<T> = Vec::new();
                items.push(item);
                self.entries.push((key, items));
                assert(self@ =~= with_item(old(self)@, key, item));
            },
        }
    }
}

} // verus!
