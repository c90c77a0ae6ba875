//! The store: one holder per registered schema, looked up by the schema's
//! identity. It decides what a load, a read or an update does to the
//! holders and what is to be written; reading and writing the files is left
//! to the caller.

use vstd::prelude::*;
use crate::config::{load_view, record_view, result_view, AnyConfig, Config, RegisteredConfig};
use crate::error::{Error, ErrorView};
use crate::global::{first_of, lemma_first_of, GlobalConfig};
use crate::migration::RegisteredMigration;
use crate::value::{Node, Value};

verus! {

/// The holders of all registered schemas of one configuration directory.
pub struct ConfigStore<H> {
    conf_dir: String,
    configs: GlobalConfig<H>,
}

/// Where loading every schema ends: the holders as they are left, the
/// records to write for the schemas that were loaded, in their order, and
/// the failure that ended the pass, if one did.
pub struct LoadAllOutcome<H> {
    pub holders: Seq<H>,
    pub written: Seq<Option<Node>>,
    pub failure: Option<ErrorView>,
}

/// What `load_all` returns: for each schema that was loaded, in the order of
/// registration, the record to write to its file, if any; and the failure
/// that ended the pass, if one did.
pub struct LoadedAll {
    pub written: Vec<Option<Value>>,
    pub failure: Option<Error>,
}

/// The record that was read for the schema at position `i`: `None` where
/// the list is too short.
pub open spec fn record_at(existing: Seq<Option<Value>>, i: int) -> Option<Node> {
    if 0 <= i < existing.len() {
        record_view(existing[i])
    } else {
        None
    }
}

/// Where loading the schemas from position `from` on ends, after the
/// earlier ones gave `written`. The schemas are loaded in their order. The
/// first failure ends the pass: the schemas before it stay loaded, the one
/// that failed stays as its load left it, and those after it are not
/// touched.
pub open spec fn loading_all<H: AnyConfig>(
    holders: Seq<H>,
    existing: Seq<Option<Value>>,
    steps: Seq<RegisteredMigration>,
    from: int,
    written: Seq<Option<Node>>,
) -> LoadAllOutcome<H>
    decreases holders.len() - from,
{
    if from < 0 || from >= holders.len() {
        LoadAllOutcome { holders, written, failure: None }
    } else {
        let out = holders[from].load_outcome(record_at(existing, from), steps);
        match out.result {
            Err(e) => LoadAllOutcome {
                holders: holders.update(from, out.holder),
                written,
                failure: Some(e),
            },
            Ok(record) => loading_all(
                holders.update(from, out.holder),
                existing,
                steps,
                from + 1,
                written.push(record),
            ),
        }
    }
}

/// The records of a list, taken by their views.
pub open spec fn written_view(written: Seq<Option<Value>>) -> Seq<Option<Node>> {
    written.map_values(|record: Option<Value>| record_view(record))
}

/// The identities and holders of a store after one entry was registered:
/// an entry whose identity is there already changes nothing, any other goes
/// to the end.
pub open spec fn registered<H>(ids: Seq<u64>, holders: Seq<H>, entry: RegisteredConfig<H>) -> (
    Seq<u64>,
    Seq<H>,
) {
    if first_of(ids, entry.id) is Some {
        (ids, holders)
    } else {
        (ids.push(entry.id), holders.push(entry.config))
    }
}

/// The identities and holders of a store after the entries of `registry`
/// were registered one after the other.
pub open spec fn registering<H>(
    ids: Seq<u64>,
    holders: Seq<H>,
    registry: Seq<RegisteredConfig<H>>,
) -> (Seq<u64>, Seq<H>)
    decreases registry.len(),
{
    if registry.len() == 0 {
        (ids, holders)
    } else {
        let next = registered(ids, holders, registry.first());
        registering(next.0, next.1, registry.drop_first())
    }
}

impl<H: AnyConfig> ConfigStore<H> {
    /// The configuration directory.
    pub closed spec fn dir(&self) -> Seq<char> {
        self.conf_dir@
    }

    /// The identities of the registered schemas, in the order of their
    /// registration.
    pub closed spec fn ids(&self) -> Seq<u64> {
        self.configs.ids()
    }

    /// The holders, in the same order.
    pub closed spec fn holders(&self) -> Seq<H> {
        self.configs.values()
    }

    /// Where the schema `id` stands in the order of registration.
    pub open spec fn index_of(&self, id: u64) -> Option<int> {
        first_of(self.ids(), id)
    }

    /// Whether the schema `id` is registered.
    pub open spec fn has(&self, id: u64) -> bool {
        self.index_of(id) is Some
    }

    /// The holder of the schema `id`.
    pub open spec fn holder(&self, id: u64) -> H {
        self.holders()[self.index_of(id)->0]
    }

    /// Whether `after` is this store with `holder` in the place of the
    /// holder of `id`, and nothing else changed.
    pub open spec fn replaced(&self, after: &Self, id: u64, holder: H) -> bool {
        &&& after.dir() == self.dir()
        &&& after.ids() == self.ids()
        &&& after.holders() == self.holders().update(self.index_of(id)->0, holder)
        &&& after.holder(id) == holder
        &&& forall|other: u64|
            other != id && self.has(other) ==> #[trigger] after.holder(other) == self.holder(other)
    }

    /// Putting another holder in the place of the holder of `id` changes
    /// the holder of `id` and of no other schema.
    proof fn lemma_replaced(&self, after: &Self, id: u64, holder: H)
        requires
            self.has(id),
            after.dir() == self.dir(),
            after.ids() == self.ids(),
            after.holders() == self.holders().update(self.index_of(id)->0, holder),
        ensures
            self.replaced(after, id, holder),
    {
        lemma_first_of(self.ids(), id);
        self.lemma_lengths();
        assert forall|other: u64| other != id && self.has(other) implies #[trigger] after.holder(
            other,
        ) == self.holder(other) by {
            lemma_first_of(self.ids(), other);
        }
    }

    /// There are as many identities as holders.
    pub proof fn lemma_lengths(&self)
        ensures
            self.ids().len() == self.holders().len(),
    {
        self.configs.lemma_lengths();
    }

    /// Whether every schema of this store is a schema of `after`, at the
    /// same place, and is loaded there if it is loaded here: no holder goes
    /// back to empty.
    pub open spec fn keeps_loaded(&self, after: &Self) -> bool {
        &&& self.ids().is_prefix_of(after.ids())
        &&& forall|i: int|
            0 <= i < self.holders().len() && (#[trigger] self.holders()[i]).loaded() ==> i
                < after.holders().len() && after.holders()[i].loaded()
    }

    /// A store for the directory `conf_dir` that holds the schemas of
    /// `registry`, in its order. Of two entries with one identity the first
    /// is kept.
    pub fn init(conf_dir: String, registry: Vec<RegisteredConfig<H>>) -> (r: Result<Self, Error>)
        ensures
            r matches Ok(store) && store.dir() == conf_dir@ && (store.ids(), store.holders())
                == registering(Seq::<u64>::empty(), Seq::<H>::empty(), registry@),
    {
        let mut store = ConfigStore { conf_dir, configs: GlobalConfig::new() };
        let mut rest = registry;
        while rest.len() > 0
            invariant
                store.dir() == conf_dir@,
                registering(store.ids(), store.holders(), rest@) == registering(
                    Seq::<u64>::empty(),
                    Seq::<H>::empty(),
                    registry@,
                ),
            decreases rest.len(),
        {
            let ghost before = rest@;
            let registration = rest.remove(0);
            proof {
                assert(before.first() == registration);
                assert(before.drop_first() =~= rest@);
            }
            let _ = store.register(registration);
        }
        Ok(store)
    }

    /// The configuration directory.
    pub fn conf_dir(&self) -> (dir: &String)
        ensures
            dir@ == self.dir(),
    {
        &self.conf_dir
    }

    /// Registers a schema. Where its identity is registered already the
    /// store stays as it is, and the answer is `false`.
    pub fn register(&mut self, registration: RegisteredConfig<H>) -> (added: bool)
        ensures
            added == !old(self).has(registration.id),
            final(self).dir() == old(self).dir(),
            (final(self).ids(), final(self).holders()) == registered(
                old(self).ids(),
                old(self).holders(),
                registration,
            ),
            old(self).keeps_loaded(final(self)),
    {
        if self.configs.contains(registration.id) {
            false
        } else {
            self.configs.insert(registration.id, registration.config);
            true
        }
    }

    /// The number of registered schemas.
    pub fn len(&self) -> (n: usize)
        ensures
            n == self.ids().len(),
            n == self.holders().len(),
    {
        self.configs.len()
    }

    /// The holder at position `i` of the order of registration.
    pub fn holder_at(&self, i: usize) -> (holder: &H)
        requires
            i < self.holders().len(),
        ensures
            *holder == self.holders()[i as int],
    {
        self.configs.value_at(i)
    }

    /// Whether the schema `T` is registered.
    pub fn is_registered<T: Config>(&self) -> (b: bool)
        ensures
            b == self.has(T::ID),
    {
        self.configs.contains(T::ID)
    }

    /// Whether the schema `T` is registered and its holder holds a value.
    pub fn is_loaded<T: Config>(&self) -> (b: bool)
        ensures
            b == (self.has(T::ID) && self.holder(T::ID).loaded()),
    {
        match self.configs.get(T::ID) {
            Some(holder) => holder.is_loaded(),
            None => false,
        }
    }

    /// The value that the store holds for the schema `T`. A schema that was
    /// never registered gives `UnregisteredConfig` with its file name.
    pub fn get<T: Config>(&self) -> (r: Result<&H::Inner, Error>)
        requires
            self.has(T::ID) ==> self.holder(T::ID).loaded(),
        ensures
            match r {
                Ok(value) => self.has(T::ID) && *value == self.holder(T::ID).held(),
                Err(e) => !self.has(T::ID) && e@ == ErrorView::UnregisteredConfig(T::FILE_NAME@),
            },
    {
        match self.configs.get(T::ID) {
            Some(holder) => Ok(holder.inner()),
            None => Err(Error::UnregisteredConfig(T::FILE_NAME.to_owned())),
        }
    }

    /// Loads the schema `T` from the record that was read from its file, or
    /// from its defaults where `existing` is `None`, and returns the record
    /// to write to the file, if one is to be written. A schema that was
    /// never registered gives `UnregisteredConfig` with its file name, and
    /// the store stays as it is. No other holder is touched.
    pub fn load<T: Config>(
        &mut self,
        existing: Option<Value>,
        steps: &Vec<RegisteredMigration>,
    ) -> (r: Result<Option<Value>, Error>)
        ensures
            !old(self).has(T::ID) ==> *final(self) == *old(self) && load_view(r) == Err::<
                Option<Node>,
                ErrorView,
            >(ErrorView::UnregisteredConfig(T::FILE_NAME@)),
            old(self).has(T::ID) ==> {
                let out = old(self).holder(T::ID).load_outcome(record_view(existing), steps@);
                old(self).replaced(final(self), T::ID, out.holder) && load_view(r) == out.result
            },
            old(self).keeps_loaded(final(self)),
    {
        let r = match self.configs.get_mut(T::ID) {
            Some(holder) => holder.load_from_dir(existing, steps),
            None => Err(Error::UnregisteredConfig(T::FILE_NAME.to_owned())),
        };
        proof {
            lemma_first_of(old(self).ids(), T::ID);
            old(self).lemma_lengths();
            if old(self).has(T::ID) {
                let out = old(self).holder(T::ID).load_outcome(record_view(existing), steps@);
                old(self).lemma_replaced(self, T::ID, out.holder);
            }
        }
        r
    }

    /// Changes the value of the schema `T` in place with `f` and, if `f`
    /// succeeds, returns the record to write to the schema's file.
    ///
    /// A schema that was never registered gives `UnregisteredConfig` with
    /// its file name. Where `f` fails, its error is returned, nothing is to
    /// be written, and the value stays as `f` left it. Where encoding the
    /// changed value fails, that error is returned and the change stays
    /// too. No other holder is touched.
    pub fn update<T: Config, F: FnOnce(&mut H::Inner) -> Result<(), Error>>(&mut self, f: F) -> (r:
        Result<Value, Error>)
        requires
            old(self).has(T::ID) ==> old(self).holder(T::ID).loaded(),
            forall|inner: &mut H::Inner|
                old(self).has(T::ID) && *inner == old(self).holder(T::ID).held() ==> call_requires(
                    f,
                    (inner,),
                ),
        ensures
            !old(self).has(T::ID) ==> *final(self) == *old(self) && result_view(r) == Err::<
                Node,
                ErrorView,
            >(ErrorView::UnregisteredConfig(T::FILE_NAME@)),
            old(self).has(T::ID) ==> exists|inner: &mut H::Inner, verdict: Result<(), Error>|
                {
                    &&& *inner == old(self).holder(T::ID).held()
                    &&& #[trigger] call_ensures(f, (inner,), verdict)
                    &&& old(self).replaced(
                        final(self),
                        T::ID,
                        old(self).holder(T::ID).holding(*final(inner)),
                    )
                    &&& match verdict {
                        Err(e) => r == Err::<Value, Error>(e),
                        Ok(()) => result_view(r) == final(self).holder(T::ID).save_outcome(),
                    }
                },
            old(self).keeps_loaded(final(self)),
    {
        let r = match self.configs.get_mut(T::ID) {
            Some(holder) => {
                let inner = holder.inner_mut();
                match f(inner) {
                    Ok(()) => holder.save(),
                    Err(e) => Err(e),
                }
            },
            None => Err(Error::UnregisteredConfig(T::FILE_NAME.to_owned())),
        };
        proof {
            lemma_first_of(old(self).ids(), T::ID);
            old(self).lemma_lengths();
            if old(self).has(T::ID) {
                old(self).lemma_replaced(self, T::ID, self.holder(T::ID));
            }
        }
        r
    }

    /// The name of the file of the schema at position `i` of the order of
    /// registration.
    pub fn file_name_at(&self, i: usize) -> (name: String)
        requires
            i < self.holders().len(),
        ensures
            name@ == self.holders()[i as int].file(),
    {
        self.configs.value_at(i).file_name()
    }

    /// Loads the schema at position `i` of the order of registration, as
    /// `load` does for a schema that is registered.
    pub fn load_at(
        &mut self,
        i: usize,
        existing: Option<Value>,
        steps: &Vec<RegisteredMigration>,
    ) -> (r: Result<Option<Value>, Error>)
        requires
            i < old(self).holders().len(),
        ensures
            final(self).dir() == old(self).dir(),
            final(self).ids() == old(self).ids(),
            final(self).holders() == old(self).holders().update(
                i as int,
                old(self).holders()[i as int].load_outcome(record_view(existing), steps@).holder,
            ),
            load_view(r) == old(self).holders()[i as int].load_outcome(
                record_view(existing),
                steps@,
            ).result,
            old(self).keeps_loaded(final(self)),
    {
        self.configs.value_at_mut(i).load_from_dir(existing, steps)
    }

    /// Loads every registered schema, in the order of registration, each
    /// from the record at its position in `existing`; a schema for which
    /// the list has no entry is loaded as one without a file. The first
    /// failure ends the pass and nothing is rolled back.
    pub fn load_all(&mut self, existing: &Vec<Option<Value>>, steps: &Vec<RegisteredMigration>) -> (r:
        LoadedAll)
        ensures
            final(self).dir() == old(self).dir(),
            final(self).ids() == old(self).ids(),
            final(self).holders() == loading_all(
                old(self).holders(),
                existing@,
                steps@,
                0,
                Seq::empty(),
            ).holders,
            written_view(r.written@) == loading_all(
                old(self).holders(),
                existing@,
                steps@,
                0,
                Seq::empty(),
            ).written,
            match r.failure {
                Some(e) => loading_all(old(self).holders(), existing@, steps@, 0, Seq::empty()).failure
                    == Some(e@),
                None => loading_all(old(self).holders(), existing@, steps@, 0, Seq::empty()).failure
                    is None,
            },
            old(self).keeps_loaded(final(self)),
    {
        let mut written: Vec<Option<Value>> = Vec::new();
        let n = self.len();
        let mut i: usize = 0;
        proof {
            assert(written_view(written@) =~= Seq::<Option<Node>>::empty());
        }
        while i < n
            invariant
                i <= n,
                n == self.holders().len(),
                self.dir() == old(self).dir(),
                self.ids() == old(self).ids(),
                old(self).keeps_loaded(&*self),
                loading_all(self.holders(), existing@, steps@, i as int, written_view(written@))
                    == loading_all(old(self).holders(), existing@, steps@, 0, Seq::empty()),
            decreases n - i,
        {
            let record = if i < existing.len() {
                match &existing[i] {
                    Some(record) => Some(record.clone()),
                    None => None,
                }
            } else {
                None
            };
            let ghost before = written_view(written@);
            match self.load_at(i, record, steps) {
                Ok(out) => {
                    written.push(out);
                    proof {
                        assert(written_view(written@) =~= before.push(record_view(out)));
                    }
                },
                Err(e) => {
                    return LoadedAll { written, failure: Some(e) };
                },
            }
            i += 1;
        }
        LoadedAll { written, failure: None }
    }
}

} // verus!
