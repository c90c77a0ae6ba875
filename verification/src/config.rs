//! Schemas and the typed holder that the store keeps for each of them.
//!
//! A schema is a type that implements [`Config`]. Its holder, a
//! [`ConfigData`], is empty until the schema's record has been loaded, and
//! holds the decoded value from then on. Loading takes the record that was
//! read from the schema's file, not the file: reading and writing are the
//! caller's part, and a load ends by handing back the record to write.

use vstd::prelude::*;
use crate::error::{Error, ErrorView};
use crate::migration::{
    migrate, migrated, record_version, stamp_version, stamped, version_of, Migration, Outcome,
    RegisteredMigration, NOT_A_MAP, VERSION_KEY,
};
use crate::value::{Node, Value};

verus! {

/// A typed configuration record: its place on disk, the version of its
/// current shape, and how its values turn into generic records and back.
///
/// The three spec functions name what the three codec methods return. An
/// implementation that states nothing of its own is taken to be some
/// function of its arguments, and no more is known of it.
pub trait Config: Sized {
    /// What tells this schema from every other in one store.
    const ID: u64;

    /// The version of the schema's current shape; 1 is the earliest.
    const VERSION: u32;

    /// The name of the schema's file inside the configuration directory.
    const FILE_NAME: &'static str;

    /// The record of the schema's default value, or why it has none.
    open spec fn default_record() -> Result<Node, ErrorView> {
        arbitrary()
    }

    /// The record of a value, or why it has none.
    open spec fn encoded(&self) -> Result<Node, ErrorView> {
        (arbitrary::<spec_fn(&Self) -> Result<Node, ErrorView>>())(self)
    }

    /// The value that a record stands for, or why it stands for none.
    open spec fn decoded(record: Node) -> Result<Self, ErrorView> {
        (arbitrary::<spec_fn(Node) -> Result<Self, ErrorView>>())(record)
    }

    /// Encodes the schema's default value.
    fn defaults() -> (r: Result<Value, Error>)
        ensures
            result_view(r) == Self::default_record(),
    ;

    /// Encodes a value.
    fn encode(&self) -> (r: Result<Value, Error>)
        ensures
            result_view(r) == self.encoded(),
    ;

    /// Decodes a record.
    fn decode(record: Value) -> (r: Result<Self, Error>)
        ensures
            match r {
                Ok(value) => Self::decoded(record@) == Ok::<Self, ErrorView>(value),
                Err(e) => Self::decoded(record@) == Err::<Self, ErrorView>(e@),
            },
    ;
}

/// A result with its record and its error taken by their views.
pub open spec fn result_view(r: Result<Value, Error>) -> Result<Node, ErrorView> {
    match r {
        Ok(v) => Ok(v@),
        Err(e) => Err(e@),
    }
}

/// A result of a load with its record and its error taken by their views.
pub open spec fn load_view(r: Result<Option<Value>, Error>) -> Result<Option<Node>, ErrorView> {
    match r {
        Ok(Some(record)) => Ok(Some(record@)),
        Ok(None) => Ok(None),
        Err(e) => Err(e@),
    }
}

/// A record that may be missing, taken by its view.
pub open spec fn record_view(record: Option<Value>) -> Option<Node> {
    match record {
        Some(r) => Some(r@),
        None => None,
    }
}

/// The record that a load starts from: the one that was read, or, where the
/// schema has no file yet, its default record stamped with its version. A
/// default record that is not a map is refused.
pub open spec fn starting_record<T: Config>(existing: Option<Node>) -> Result<Node, ErrorView> {
    match existing {
        Some(record) => Ok(record),
        None => match T::default_record() {
            Err(e) => Err(e),
            Ok(defaults) => if defaults is Table {
                Ok(stamped(defaults, T::VERSION))
            } else {
                Err(ErrorView::Deserialization(NOT_A_MAP@))
            },
        },
    }
}

/// What bringing a record up to the schema `T` makes of it. A record at the
/// schema's version is only stamped. Any other is migrated with the schema's
/// defaults; where those cannot be had, the record is left as it is.
pub open spec fn normalized<T: Config, M: Migration + ?Sized>(
    record: Node,
    steps: Seq<RegisteredMigration<M>>,
) -> Outcome {
    match record_version(record) {
        Err(e) => Outcome { record, failure: Some(e) },
        Ok(v) => if v == T::VERSION {
            Outcome { record: stamped(record, T::VERSION), failure: None }
        } else {
            match T::default_record() {
                Err(e) => Outcome { record, failure: Some(e) },
                Ok(defaults) => migrated(record, T::VERSION, defaults, steps, T::ID),
            }
        },
    }
}

/// The record to write for an encoded value: the value's record stamped with
/// the version. An encoding that is not a map is refused.
pub open spec fn framed(encoded: Node, version: u32) -> Result<Node, ErrorView> {
    if encoded is Table {
        Ok(stamped(encoded, version))
    } else {
        Err(ErrorView::Deserialization(NOT_A_MAP@))
    }
}

/// The record to write for a value of the schema `T`.
pub open spec fn saved<T: Config>(value: &T) -> Result<Node, ErrorView> {
    match value.encoded() {
        Err(e) => Err(e),
        Ok(encoded) => framed(encoded, T::VERSION),
    }
}

/// Where a load ends: the holder as it is left, and what the load returns,
/// which on success is the record to write to the schema's file, if any.
pub struct LoadOutcome<H> {
    pub holder: H,
    pub result: Result<Option<Node>, ErrorView>,
}

/// Where loading into a holder ends. The record that was read, or the
/// stamped defaults where there was none, is brought up to the schema's
/// version and decoded. Until that has succeeded the holder is not touched.
/// Afterwards it holds the decoded value, and the value is saved if the
/// record's version had to change or there was no file.
pub open spec fn loading<T: Config, M: Migration + ?Sized>(
    holder: ConfigData<T>,
    existing: Option<Node>,
    steps: Seq<RegisteredMigration<M>>,
) -> LoadOutcome<ConfigData<T>> {
    match starting_record::<T>(existing) {
        Err(e) => LoadOutcome { holder, result: Err(e) },
        Ok(start) => {
            let brought = normalized::<T, M>(start, steps);
            if brought.failure is Some {
                LoadOutcome { holder, result: Err(brought.failure->0) }
            } else {
                match T::decoded(brought.record) {
                    Err(e) => LoadOutcome { holder, result: Err(e) },
                    Ok(value) => {
                        let holder = ConfigData::of(value);
                        if existing is None || record_version(start) != Ok::<u32, ErrorView>(
                            T::VERSION,
                        ) {
                            match saved(&value) {
                                Err(e) => LoadOutcome { holder, result: Err(e) },
                                Ok(record) => LoadOutcome { holder, result: Ok(Some(record)) },
                            }
                        } else {
                            LoadOutcome { holder, result: Ok(None) }
                        }
                    },
                }
            }
        },
    }
}

/// Frames an encoded value for writing: stamps it with `version`. An
/// encoding that is not a map fails with `Deserialization`.
pub fn frame_record(encoded: Value, version: u32) -> (r: Result<Value, Error>)
    ensures
        result_view(r) == framed(encoded@, version),
{
    let mut record = encoded;
    match record {
        Value::Table(_) => {
            stamp_version(&mut record, version);
            Ok(record)
        },
        _ => Err(Error::Deserialization(NOT_A_MAP.to_owned())),
    }
}

/// The typed holder of one schema: empty until the first successful load,
/// and then never empty again.
pub struct ConfigData<T>(Option<T>);

impl<T: Config> ConfigData<T> {
    /// Whether a value is held.
    pub closed spec fn has_value(&self) -> bool {
        self.0 is Some
    }

    /// The value that is held.
    pub closed spec fn value(&self) -> T {
        self.0->0
    }

    /// The holder of `value`.
    pub closed spec fn of(value: T) -> Self {
        ConfigData(Some(value))
    }

    /// The holder of a value holds a value, and that one.
    pub proof fn lemma_of(value: T)
        ensures
            Self::of(value).has_value(),
            Self::of(value).value() == value,
    {
    }

    /// An empty holder.
    pub fn new() -> (holder: Self)
        ensures
            !holder.has_value(),
    {
        ConfigData(None)
    }

    /// Fills in the schema's defaults: every entry of the default record
    /// whose key `target` lacks is copied into it, and no entry that
    /// `target` has is touched. Where the default value cannot be encoded,
    /// that failure is returned and `target` stays as it is.
    pub fn merge_defaults(target: &mut Value) -> (r: Result<(), Error>)
        ensures
            match r {
                Ok(()) => T::default_record() is Ok && final(target)@ == crate::migration::merged(
                    old(target)@,
                    T::default_record()->Ok_0,
                ),
                Err(e) => T::default_record() == Err::<Node, ErrorView>(e@) && final(target)@
                    == old(target)@,
            },
    {
        match T::defaults() {
            Ok(defaults) => {
                crate::migration::merge_defaults(target, &defaults);
                Ok(())
            },
            Err(e) => Err(e),
        }
    }

    /// The version that a record declares.
    pub fn extract_version(value: &Value) -> (v: u32)
        requires
            record_version(value@) is Ok,
        ensures
            record_version(value@) == Ok::<u32, ErrorView>(v),
    {
        crate::migration::extract_version(value)
    }

    /// Brings a record up to the schema's version, in place, and says
    /// whether its version had to change.
    ///
    /// A record at the schema's version is only stamped with it. Any other
    /// is migrated with the schema's defaults and the steps registered for
    /// the schema. A record that declares no usable version or one above
    /// the schema's, a default value that cannot be encoded, and a step
    /// that fails each end the work with their failure.
    pub fn migrate<M: Migration + ?Sized>(
        &self,
        value: &mut Value,
        steps: &Vec<RegisteredMigration<M>>,
    ) -> (r: Result<bool, Error>)
        ensures
            final(value)@ == normalized::<T, M>(old(value)@, steps@).record,
            match r {
                Ok(changed) => normalized::<T, M>(old(value)@, steps@).failure is None && changed
                    == (record_version(old(value)@) != Ok::<u32, ErrorView>(T::VERSION)),
                Err(e) => normalized::<T, M>(old(value)@, steps@).failure == Some(e@),
            },
            r is Ok ==> final(value)@ is Table && final(value)@->Table_0.dom().contains(
                VERSION_KEY@,
            ) && final(value)@->Table_0[VERSION_KEY@] == Node::U32(T::VERSION),
    {
        let version = match version_of(value) {
            Ok(v) => v,
            Err(e) => {
                return Err(e);
            },
        };
        if version == T::VERSION {
            stamp_version(value, T::VERSION);
            return Ok(false);
        }
        match T::defaults() {
            Ok(defaults) => migrate(value, T::VERSION, &defaults, steps, T::ID),
            Err(e) => Err(e),
        }
    }

    /// Loads the value from the record that was read from the schema's
    /// file, or from the schema's defaults where `existing` is `None`, and
    /// returns the record to write to the file, if one is to be written.
    ///
    /// The record is brought up to the schema's version and decoded. A
    /// failure up to there leaves the holder as it was. Then the holder
    /// takes the decoded value, and if the record's version had to change
    /// or there was no file, the value is encoded and handed back stamped;
    /// a failure of that encoding is returned with the value held.
    pub fn load_with<M: Migration + ?Sized>(
        &mut self,
        existing: Option<Value>,
        steps: &Vec<RegisteredMigration<M>>,
    ) -> (r: Result<Option<Value>, Error>)
        ensures
            *final(self) == loading(*old(self), record_view(existing), steps@).holder,
            load_view(r) == loading(*old(self), record_view(existing), steps@).result,
            old(self).has_value() ==> final(self).has_value(),
            r is Ok ==> final(self).has_value(),
    {
        let missing = existing.is_none();
        let mut record = match existing {
            Some(record) => record,
            None => match T::defaults() {
                Ok(defaults) => match frame_record(defaults, T::VERSION) {
                    Ok(stamped_defaults) => stamped_defaults,
                    Err(e) => {
                        return Err(e);
                    },
                },
                Err(e) => {
                    return Err(e);
                },
            },
        };
        let changed = match self.migrate(&mut record, steps) {
            Ok(changed) => changed,
            Err(e) => {
                return Err(e);
            },
        };
        let value = match T::decode(record) {
            Ok(value) => value,
            Err(e) => {
                return Err(e);
            },
        };
        self.0 = Some(value);
        if changed || missing {
            match self.save() {
                Ok(record) => Ok(Some(record)),
                Err(e) => Err(e),
            }
        } else {
            Ok(None)
        }
    }
}

/// What the store asks of a holder, whatever the schema's type: to load its
/// value from a record, to hand the value out, and to encode it for saving.
///
/// The spec functions name the holder's state and what its methods return.
/// A holder that states nothing of its own is taken to be some function of
/// its arguments, and no more is known of it.
pub trait AnyConfig: Sized {
    /// The type of the value that is held.
    type Inner;

    /// The name of the schema's file.
    open spec fn file(&self) -> Seq<char> {
        (arbitrary::<spec_fn(&Self) -> Seq<char>>())(self)
    }

    /// Whether a value is held.
    open spec fn loaded(&self) -> bool {
        (arbitrary::<spec_fn(&Self) -> bool>())(self)
    }

    /// The value that is held.
    open spec fn held(&self) -> Self::Inner {
        (arbitrary::<spec_fn(&Self) -> Self::Inner>())(self)
    }

    /// This holder with `inner` in the place of the value that it holds.
    open spec fn holding(&self, inner: Self::Inner) -> Self {
        (arbitrary::<spec_fn(&Self, Self::Inner) -> Self>())(self, inner)
    }

    /// Where loading into this holder ends.
    open spec fn load_outcome(
        &self,
        existing: Option<Node>,
        steps: Seq<RegisteredMigration>,
    ) -> LoadOutcome<Self> {
        (arbitrary::<spec_fn(&Self, Option<Node>, Seq<RegisteredMigration>) -> LoadOutcome<Self>>())(
            self,
            existing,
            steps,
        )
    }

    /// The record to write for the value that is held.
    open spec fn save_outcome(&self) -> Result<Node, ErrorView> {
        (arbitrary::<spec_fn(&Self) -> Result<Node, ErrorView>>())(self)
    }

    /// The name of the schema's file inside the configuration directory.
    fn file_name(&self) -> (name: String)
        ensures
            name@ == self.file(),
    ;

    /// Whether a value is held.
    fn is_loaded(&self) -> (b: bool)
        ensures
            b == self.loaded(),
    ;

    /// The value that is held.
    fn inner(&self) -> (r: &Self::Inner)
        requires
            self.loaded(),
        ensures
            *r == self.held(),
    ;

    /// The value that is held, to be changed in place.
    fn inner_mut(&mut self) -> (r: &mut Self::Inner)
        requires
            old(self).loaded(),
        ensures
            *r == old(self).held(),
            *final(self) == old(self).holding(*final(r)),
            final(self).loaded(),
            final(self).held() == *final(r),
    ;

    /// Loads the value from what the configuration directory holds for the
    /// schema: the record that was read from the schema's file, or, where
    /// the file is not there and `existing` is `None`, the schema's
    /// defaults. Returns the record to write to the file, if one is to be
    /// written. A holder that was loaded stays loaded whatever happens.
    fn load_from_dir(&mut self, existing: Option<Value>, steps: &Vec<RegisteredMigration>) -> (r: Result<
        Option<Value>,
        Error,
    >)
        ensures
            *final(self) == old(self).load_outcome(record_view(existing), steps@).holder,
            load_view(r) == old(self).load_outcome(record_view(existing), steps@).result,
            old(self).loaded() ==> final(self).loaded(),
            r is Ok ==> final(self).loaded(),
    ;

    /// Encodes the value that is held and frames it for writing.
    fn save(&self) -> (r: Result<Value, Error>)
        requires
            self.loaded(),
        ensures
            result_view(r) == self.save_outcome(),
    ;
}

impl<T: Config> AnyConfig for ConfigData<T> {
    type Inner = T;

    open spec fn file(&self) -> Seq<char> {
        T::FILE_NAME@
    }

    open spec fn loaded(&self) -> bool {
        self.has_value()
    }

    open spec fn held(&self) -> T {
        self.value()
    }

    open spec fn holding(&self, inner: T) -> Self {
        Self::of(inner)
    }

    open spec fn load_outcome(
        &self,
        existing: Option<Node>,
        steps: Seq<RegisteredMigration>,
    ) -> LoadOutcome<Self> {
        loading(*self, existing, steps)
    }

    open spec fn save_outcome(&self) -> Result<Node, ErrorView> {
        saved(&self.value())
    }

    fn file_name(&self) -> (name: String) {
        T::FILE_NAME.to_owned()
    }

    fn is_loaded(&self) -> (b: bool) {
        self.0.is_some()
    }

    fn inner(&self) -> (r: &T) {
        self.0.as_ref().unwrap()
    }

    fn inner_mut(&mut self) -> (r: &mut T) {
        self.0.as_mut().unwrap()
    }

    fn load_from_dir(&mut self, existing: Option<Value>, steps: &Vec<RegisteredMigration>) -> (r: Result<
        Option<Value>,
        Error,
    >) {
        self.load_with(existing, steps)
    }

    fn save(&self) -> (r: Result<Value, Error>) {
        match self.0.as_ref().unwrap().encode() {
            Ok(encoded) => frame_record(encoded, T::VERSION),
            Err(e) => Err(e),
        }
    }
}

impl<T: Config> Default for ConfigData<T> {
    /// An empty holder.
    fn default() -> (holder: Self)
        ensures
            !holder.loaded(),
    {
        ConfigData(None)
    }
}

/// What the registry holds of one schema: its identity and its holder.
pub struct RegisteredConfig<H> {
    /// The schema's identity.
    pub id: u64,
    /// The schema's holder.
    pub config: H,
}

impl<T: Config> RegisteredConfig<ConfigData<T>> {
    /// The entry for the schema `T`, with an empty holder.
    pub fn new() -> (r: Self)
        ensures
            r.id == T::ID,
            !r.config.loaded(),
    {
        RegisteredConfig { id: T::ID, config: ConfigData::new() }
    }
}

/// Loading a schema that has no file yet runs no migration step: the
/// schema's default record is stamped with its version and decoded, and the
/// decoded value is encoded and handed back for writing, whatever the
/// registered steps are.
pub proof fn lemma_load_without_file<T: Config, M: Migration + ?Sized>(
    holder: ConfigData<T>,
    steps: Seq<RegisteredMigration<M>>,
)
    requires
        T::default_record() is Ok,
        T::default_record()->Ok_0 is Table,
    ensures
        loading(holder, None, steps) == ({
            let start = stamped(T::default_record()->Ok_0, T::VERSION);
            match T::decoded(start) {
                Err(e) => LoadOutcome { holder, result: Err(e) },
                Ok(value) => match saved(&value) {
                    Err(e) => LoadOutcome { holder: ConfigData::of(value), result: Err(e) },
                    Ok(record) => LoadOutcome {
                        holder: ConfigData::of(value),
                        result: Ok(Some(record)),
                    },
                },
            }
        }),
{
    let start = stamped(T::default_record()->Ok_0, T::VERSION);
    assert(start->Table_0.insert(VERSION_KEY@, Node::U32(T::VERSION)) =~= start->Table_0);
}

/// Where the codec reads back the default value from the record that it
/// wrote for it, loading a schema that has no file yet holds the default
/// value and hands back its record stamped with the schema's version: a
/// file written from it declares the current version and decodes to the
/// defaults.
pub proof fn lemma_missing_file_gives_defaults<T: Config, M: Migration + ?Sized>(
    holder: ConfigData<T>,
    steps: Seq<RegisteredMigration<M>>,
    default_value: T,
)
    requires
        T::default_record() == default_value.encoded(),
        default_value.encoded() is Ok,
        default_value.encoded()->Ok_0 is Table,
        T::decoded(stamped(default_value.encoded()->Ok_0, T::VERSION)) == Ok::<T, ErrorView>(
            default_value,
        ),
    ensures
        loading(holder, None, steps) == (LoadOutcome {
            holder: ConfigData::of(default_value),
            result: Ok(Some(stamped(default_value.encoded()->Ok_0, T::VERSION))),
        }),
        record_version(stamped(default_value.encoded()->Ok_0, T::VERSION)) == Ok::<u32, ErrorView>(
            T::VERSION,
        ),
{
    lemma_load_without_file::<T, M>(holder, steps);
}

/// Where the codec reads back a value from the record that it wrote for it,
/// loading the file that a load or an update wrote for that value holds the
/// same value again and hands nothing back for writing.
pub proof fn lemma_reload_changes_nothing<T: Config, M: Migration + ?Sized>(
    holder: ConfigData<T>,
    steps: Seq<RegisteredMigration<M>>,
    value: T,
)
    requires
        saved(&value) is Ok,
        T::decoded(saved(&value)->Ok_0) == Ok::<T, ErrorView>(value),
    ensures
        loading(holder, Some(saved(&value)->Ok_0), steps) == (LoadOutcome {
            holder: ConfigData::of(value),
            result: Ok(None),
        }),
{
    let written = saved(&value)->Ok_0;
    assert(stamped(written, T::VERSION) == written) by {
        assert(written->Table_0.insert(VERSION_KEY@, Node::U32(T::VERSION)) =~= written->Table_0);
    }
    lemma_current_file_is_not_rewritten::<T, M>(holder, written, steps);
}

/// Whatever a load hands back for writing is a map that holds the schema's
/// current version under the reserved key; and a record whose version is
/// not the schema's is, once it has loaded, always handed back for writing.
pub proof fn lemma_load_writes_current_version<T: Config, M: Migration + ?Sized>(
    holder: ConfigData<T>,
    existing: Option<Node>,
    steps: Seq<RegisteredMigration<M>>,
)
    ensures
        loading(holder, existing, steps).result matches Ok(Some(record)) ==> record is Table
            && record->Table_0.dom().contains(VERSION_KEY@) && record->Table_0[VERSION_KEY@]
            == Node::U32(T::VERSION) && record_version(record) == Ok::<u32, ErrorView>(T::VERSION),
        existing matches Some(read) && record_version(read) != Ok::<u32, ErrorView>(T::VERSION)
            && loading(holder, existing, steps).result is Ok ==> loading(
            holder,
            existing,
            steps,
        ).result->Ok_0 is Some,
{
}

/// Loading a file that is at the schema's version already hands nothing
/// back for writing: the record is decoded as it was read, but for the
/// reserved key, and no default is filled in and no step runs.
pub proof fn lemma_current_file_is_not_rewritten<T: Config, M: Migration + ?Sized>(
    holder: ConfigData<T>,
    record: Node,
    steps: Seq<RegisteredMigration<M>>,
)
    requires
        record_version(record) == Ok::<u32, ErrorView>(T::VERSION),
    ensures
        loading(holder, Some(record), steps) == (match T::decoded(stamped(record, T::VERSION)) {
            Err(e) => LoadOutcome { holder, result: Err(e) },
            Ok(value) => LoadOutcome { holder: ConfigData::of(value), result: Ok(None) },
        }),
{
}

} // verus!
