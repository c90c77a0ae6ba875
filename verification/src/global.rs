//! A table of values keyed by schema identity.

use vstd::prelude::*;

verus! {

/// A map from schema identities to values that remembers the order in which
/// the identities were first inserted. Nothing is ever removed from it.
pub struct GlobalConfig<C> {
    inner: Vec<(u64, C)>,
}

/// Where `id` first occurs in `ids`, if it does.
pub open spec fn first_of(ids: Seq<u64>, id: u64) -> Option<int>
    decreases ids.len(),
{
    if ids.len() == 0 {
        None
    } else {
        match first_of(ids.drop_last(), id) {
            Some(i) => Some(i),
            None => if ids.last() == id {
                Some(ids.len() - 1)
            } else {
                None
            },
        }
    }
}

/// The first occurrence of `id` is an occurrence of `id`, and none comes
/// before it.
pub proof fn lemma_first_of(ids: Seq<u64>, id: u64)
    ensures
        match first_of(ids, id) {
            Some(i) => 0 <= i < ids.len() && ids[i] == id && forall|j: int|
                0 <= j < i ==> ids[j] != id,
            None => forall|j: int| 0 <= j < ids.len() ==> ids[j] != id,
        },
    decreases ids.len(),
{
    if ids.len() > 0 {
        let head = ids.drop_last();
        lemma_first_of(head, id);
        assert forall|j: int| 0 <= j < head.len() implies head[j] == ids[j] by {}
        match first_of(head, id) {
            Some(i) => {
                assert(head[i] == ids[i]);
            },
            None => {},
        }
    }
}

impl<C> GlobalConfig<C> {
    /// The identities, in the order in which the table holds them.
    pub closed spec fn ids(&self) -> Seq<u64> {
        Seq::new(self.inner@.len(), |i: int| self.inner@[i].0)
    }

    /// The values, in the same order.
    pub closed spec fn values(&self) -> Seq<C> {
        Seq::new(self.inner@.len(), |i: int| self.inner@[i].1)
    }

    /// Where the value for `id` is, if the table has one.
    pub open spec fn index_of(&self, id: u64) -> Option<int> {
        first_of(self.ids(), id)
    }

    /// Whether the table has a value for `id`.
    pub open spec fn has(&self, id: u64) -> bool {
        self.index_of(id) is Some
    }

    /// The value for `id`.
    pub open spec fn at(&self, id: u64) -> C {
        self.values()[self.index_of(id)->0]
    }

    /// There are as many identities as values.
    pub proof fn lemma_lengths(&self)
        ensures
            self.ids().len() == self.values().len(),
    {
    }

    /// An empty table.
    pub fn new() -> (table: Self)
        ensures
            table.ids() == Seq::<u64>::empty(),
            table.values() == Seq::<C>::empty(),
    {
        let table = GlobalConfig { inner: Vec::new() };
        proof {
            assert(table.ids() =~= Seq::<u64>::empty());
            assert(table.values() =~= Seq::<C>::empty());
        }
        table
    }

    /// The number of values.
    pub fn len(&self) -> (n: usize)
        ensures
            n == self.ids().len(),
            n == self.values().len(),
    {
        self.inner.len()
    }

    /// The identity at position `i`.
    pub fn id_at(&self, i: usize) -> (id: u64)
        requires
            i < self.ids().len(),
        ensures
            id == self.ids()[i as int],
    {
        self.inner[i].0
    }

    /// The value at position `i`.
    pub fn value_at(&self, i: usize) -> (value: &C)
        requires
            i < self.values().len(),
        ensures
            *value == self.values()[i as int],
    {
        &self.inner[i].1
    }

    /// The value at position `i`, to be changed in place. Nothing else in
    /// the table changes.
    pub fn value_at_mut(&mut self, i: usize) -> (value: &mut C)
        requires
            i < old(self).values().len(),
        ensures
            *value == old(self).values()[i as int],
            final(self).ids() == old(self).ids(),
            final(self).values() == old(self).values().update(i as int, *final(value)),
    {
        let entry = &mut self.inner[i];
        &mut entry.1
    }

    /// Where the value for `id` is, if the table has one.
    pub fn position(&self, id: u64) -> (r: Option<usize>)
        ensures
            match r {
                Some(i) => self.index_of(id) == Some(i as int) && i < self.ids().len(),
                None => self.index_of(id) is None,
            },
    {
        let mut i: usize = 0;
        while i < self.inner.len()
            invariant
                i <= self.inner@.len(),
                forall|j: int| 0 <= j < i ==> self.ids()[j] != id,
            decreases self.inner@.len() - i,
        {
            if self.inner[i].0 == id {
                proof {
                    lemma_first_of(self.ids(), id);
                    assert(self.ids()[i as int] == id);
                }
                return Some(i);
            }
            i += 1;
        }
        proof {
            lemma_first_of(self.ids(), id);
        }
        None
    }

    /// Whether the table has a value for `id`.
    pub fn contains(&self, id: u64) -> (b: bool)
        ensures
            b == self.has(id),
    {
        self.position(id).is_some()
    }

    /// Maps `id` to `cfg`. A value that `id` had is replaced, in its place;
    /// a new identity goes to the end.
    pub fn insert(&mut self, id: u64, cfg: C)
        ensures
            final(self).has(id),
            final(self).at(id) == cfg,
            old(self).has(id) ==> final(self).ids() == old(self).ids()
                && final(self).values() == old(self).values().update(old(self).index_of(id)->0, cfg),
            !old(self).has(id) ==> final(self).ids() == old(self).ids().push(id)
                && final(self).values() == old(self).values().push(cfg),
    {
        let ghost before = self.inner@;
        proof {
            lemma_first_of(self.ids(), id);
        }
        match self.position(id) {
            Some(i) => {
                self.inner.push((id, cfg));
                let _ = self.inner.swap_remove(i);
                proof {
                    assert(self.inner@ =~= before.update(i as int, (id, cfg)));
                    assert(self.ids() =~= old(self).ids());
                    assert(self.values() =~= old(self).values().update(i as int, cfg));
                }
            },
            None => {
                self.inner.push((id, cfg));
                proof {
                    assert(self.ids() =~= old(self).ids().push(id));
                    assert(self.values() =~= old(self).values().push(cfg));
                    assert(self.ids().drop_last() =~= old(self).ids());
                }
            },
        }
    }

    /// The value for `id`.
    pub fn get(&self, id: u64) -> (r: Option<&C>)
        ensures
            r is Some == self.has(id),
            r matches Some(value) ==> *value == self.at(id),
    {
        match self.position(id) {
            Some(i) => Some(&self.inner[i].1),
            None => None,
        }
    }

    /// The value for `id`, to be changed in place. Nothing else in the
    /// table changes.
    pub fn get_mut(&mut self, id: u64) -> (r: Option<&mut C>)
        ensures
            r is Some == old(self).has(id),
            match r {
                Some(value) => *value == old(self).at(id) && final(self).ids() == old(self).ids()
                    && final(self).values() == old(self).values().update(
                    old(self).index_of(id)->0,
                    *final(value),
                ),
                None => *final(self) == *old(self),
            },
    {
        match self.position(id) {
            Some(i) => {
                let entry = &mut self.inner[i];
                Some(&mut entry.1)
            },
            None => None,
        }
    }
}

} // verus!
