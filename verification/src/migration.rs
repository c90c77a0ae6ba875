//! The migration engine: it reads the version that a record declares and
//! walks the record up to a target version, one version at a time. At each
//! version it first fills in the schema's defaults, then applies the step
//! registered for that version, if there is one.

use vstd::prelude::*;
use crate::config::Config;
use crate::error::{Error, ErrorView};
use crate::value::{Node, Value};

verus! {

/// The reserved key under which a record's root map holds its version.
pub const VERSION_KEY: &'static str = "_version";

/// The message of the failure on a record whose root is not a map.
pub const NOT_A_MAP: &'static str = "Expected config to serialize to a map";

/// The message of the failure on a version that is no integer in range.
pub const BAD_VERSION: &'static str = "Failed to deserialize _version";

/// The message of the failure on a record that is ahead of its schema.
pub const NEWER_VERSION: &'static str = "Config version is newer than the schema's";

/// The version that a scalar stands for: that of an integer of any width
/// that is at least 0 and fits in 32 bits, and of nothing else.
pub open spec fn as_version(n: Node) -> Option<u32> {
    match n {
        Node::U8(v) => Some(v as u32),
        Node::U16(v) => Some(v as u32),
        Node::U32(v) => Some(v),
        Node::U64(v) => if v <= u32::MAX {
            Some(v as u32)
        } else {
            None
        },
        Node::I8(v) => if 0 <= v {
            Some(v as u32)
        } else {
            None
        },
        Node::I16(v) => if 0 <= v {
            Some(v as u32)
        } else {
            None
        },
        Node::I32(v) => if 0 <= v {
            Some(v as u32)
        } else {
            None
        },
        Node::I64(v) => if 0 <= v <= u32::MAX {
            Some(v as u32)
        } else {
            None
        },
        _ => None,
    }
}

/// The version that a record declares, or why it declares none. A map
/// without the reserved key is at version 1.
pub open spec fn record_version(record: Node) -> Result<u32, ErrorView> {
    match record {
        Node::Table(m) => if m.dom().contains(VERSION_KEY@) {
            match as_version(m[VERSION_KEY@]) {
                Some(v) => Ok(v),
                None => Err(ErrorView::Deserialization(BAD_VERSION@)),
            }
        } else {
            Ok(1u32)
        },
        _ => Err(ErrorView::Deserialization(NOT_A_MAP@)),
    }
}

/// A record with the defaults filled in: every entry of `defaults` whose key
/// the record lacks is added, and no entry of the record changes. Where
/// either is not a map, the record stays as it is.
pub open spec fn merged(record: Node, defaults: Node) -> Node {
    match (record, defaults) {
        (Node::Table(r), Node::Table(d)) => Node::Table(d.union_prefer_right(r)),
        _ => record,
    }
}

/// A record with `version` written under the reserved key. A record that is
/// not a map stays as it is.
pub open spec fn stamped(record: Node, version: u32) -> Node {
    match record {
        Node::Table(m) => Node::Table(m.insert(VERSION_KEY@, Node::U32(version))),
        _ => record,
    }
}

/// What became of a record: the record as it was left and, where the work
/// failed, the failure.
pub struct Outcome {
    pub record: Node,
    pub failure: Option<ErrorView>,
}

/// One migration step: it changes a record of one version into a record of
/// the next.
///
/// The two spec functions name what the two methods return. A step that
/// states nothing of its own is taken to be some function of itself and of
/// the record, and no more is known of it.
pub trait Migration {
    /// The version that this step upgrades from.
    open spec fn source(&self) -> u32 {
        (arbitrary::<spec_fn(&Self) -> u32>())(self)
    }

    /// What the step makes of a record.
    open spec fn outcome(&self, before: Node) -> Outcome {
        (arbitrary::<spec_fn(&Self, Node) -> Outcome>())(self, before)
    }

    /// The version that this step upgrades from.
    fn from(&self) -> (v: u32)
        ensures
            v == self.source(),
    ;

    /// Changes the record in place. A step that fails leaves the record as
    /// far as it got. The root of a record is a map, and stays one.
    fn migrate(&self, value: &mut Value) -> (r: Result<(), Error>)
        ensures
            final(value)@ == self.outcome(old(value)@).record,
            match r {
                Ok(()) => self.outcome(old(value)@).failure is None,
                Err(e) => self.outcome(old(value)@).failure == Some(e@),
            },
            old(value)@ is Table ==> final(value)@ is Table,
    ;
}

/// A step together with the schema and the version that it is for. With
/// `dyn Migration` for `M`, one list holds steps of different types.
pub struct RegisteredMigration<M: ?Sized = dyn Migration> {
    /// The identity of the schema that the step belongs to.
    pub id: u64,
    /// The version that the step upgrades from.
    pub from: u32,
    /// The step.
    pub step: Box<M>,
}

impl<M: Migration> RegisteredMigration<M> {
    /// Registers `step` for the schema `T`, at the version the step names.
    pub fn new<T: Config>(step: M) -> (r: Self)
        ensures
            r.id == T::ID,
            r.from == step.source(),
            *r.step == step,
    {
        let from = step.from();
        RegisteredMigration { id: T::ID, from, step: Box::new(step) }
    }
}

/// Where in `steps` the step for schema `id` at version `from` is: the last
/// one registered for them, if any was.
pub open spec fn step_index<M: Migration + ?Sized>(
    steps: Seq<RegisteredMigration<M>>,
    id: u64,
    from: u32,
) -> Option<int>
    decreases steps.len(),
{
    if steps.len() == 0 {
        None
    } else if steps.last().id == id && steps.last().from == from {
        Some(steps.len() - 1)
    } else {
        step_index(steps.drop_last(), id, from)
    }
}

/// What one version's worth of migration makes of a record at version
/// `from`: the defaults are filled in, then the step registered for `from`
/// runs, if there is one.
pub open spec fn advanced<M: Migration + ?Sized>(
    record: Node,
    from: u32,
    defaults: Node,
    steps: Seq<RegisteredMigration<M>>,
    id: u64,
) -> Outcome {
    match step_index(steps, id, from) {
        Some(i) => steps[i].step.outcome(merged(record, defaults)),
        None => Outcome { record: merged(record, defaults), failure: None },
    }
}

/// What the walk from version `from` up to `target` makes of a record: one
/// version after the other, in increasing order, until the target is reached
/// or a step fails.
pub open spec fn walked<M: Migration + ?Sized>(
    record: Node,
    from: int,
    target: int,
    defaults: Node,
    steps: Seq<RegisteredMigration<M>>,
    id: u64,
) -> Outcome
    decreases target - from,
{
    if from >= target {
        Outcome { record, failure: None }
    } else {
        let next = advanced(record, from as u32, defaults, steps, id);
        if next.failure is Some {
            next
        } else {
            walked(next.record, from + 1, target, defaults, steps, id)
        }
    }
}

/// What migration to `target` makes of a record. A record that declares no
/// usable version, or a version above the target, is refused and left as it
/// is. Any other is walked up to the target and then stamped with it.
pub open spec fn migrated<M: Migration + ?Sized>(
    record: Node,
    target: u32,
    defaults: Node,
    steps: Seq<RegisteredMigration<M>>,
    id: u64,
) -> Outcome {
    match record_version(record) {
        Err(e) => Outcome { record, failure: Some(e) },
        Ok(v) => if v > target {
            Outcome { record, failure: Some(ErrorView::Deserialization(NEWER_VERSION@)) }
        } else {
            let walk = walked(record, v as int, target as int, defaults, steps, id);
            if walk.failure is Some {
                walk
            } else {
                Outcome { record: stamped(walk.record, target), failure: None }
            }
        },
    }
}

/// The version that a scalar stands for.
pub fn to_version(value: &Value) -> (r: Option<u32>)
    ensures
        r == as_version(value@),
{
    match value {
        Value::U8(v) => Some(*v as u32),
        Value::U16(v) => Some(*v as u32),
        Value::U32(v) => Some(*v),
        Value::U64(v) => if *v <= u32::MAX as u64 {
            Some(*v as u32)
        } else {
            None
        },
        Value::I8(v) => if 0 <= *v {
            Some(*v as u32)
        } else {
            None
        },
        Value::I16(v) => if 0 <= *v {
            Some(*v as u32)
        } else {
            None
        },
        Value::I32(v) => if 0 <= *v {
            Some(*v as u32)
        } else {
            None
        },
        Value::I64(v) => if 0 <= *v && *v <= u32::MAX as i64 {
            Some(*v as u32)
        } else {
            None
        },
        _ => None,
    }
}

/// The version that a record declares, or the failure that says why it
/// declares none: its root is not a map, or what it holds under the reserved
/// key is no integer between 0 and the largest 32-bit number.
pub fn version_of(record: &Value) -> (r: Result<u32, Error>)
    ensures
        match r {
            Ok(v) => record_version(record@) == Ok::<u32, ErrorView>(v),
            Err(e) => record_version(record@) == Err::<u32, ErrorView>(e@),
        },
{
    match record {
        Value::Table(table) => match table.get(VERSION_KEY) {
            Some(held) => match to_version(held) {
                Some(v) => Ok(v),
                None => Err(Error::Deserialization(BAD_VERSION.to_owned())),
            },
            None => Ok(1),
        },
        _ => Err(Error::Deserialization(NOT_A_MAP.to_owned())),
    }
}

/// The version that a record declares.
pub fn extract_version(value: &Value) -> (v: u32)
    requires
        record_version(value@) is Ok,
    ensures
        record_version(value@) == Ok::<u32, ErrorView>(v),
{
    match version_of(value) {
        Ok(v) => v,
        Err(_) => 1,
    }
}

/// Fills in the defaults: every entry of `defaults` whose key `target` lacks
/// is copied into it. No entry that `target` has is touched.
pub fn merge_defaults(target: &mut Value, defaults: &Value)
    ensures
        final(target)@ == merged(old(target)@, defaults@),
{
    match (target, defaults) {
        (Value::Table(held), Value::Table(given)) => {
            held.merge_missing(given);
        },
        _ => {},
    }
}

/// Writes `version` under the reserved key of a record's root map.
pub fn stamp_version(record: &mut Value, version: u32)
    ensures
        final(record)@ == stamped(old(record)@, version),
{
    match record {
        Value::Table(table) => {
            table.insert(VERSION_KEY.to_owned(), Value::U32(version));
        },
        _ => {},
    }
}

/// Where in `steps` the step for schema `id` at version `from` is.
pub fn find_step<M: Migration + ?Sized>(
    steps: &Vec<RegisteredMigration<M>>,
    id: u64,
    from: u32,
) -> (r: Option<usize>)
    ensures
        match r {
            Some(i) => step_index(steps@, id, from) == Some(i as int) && i < steps.len(),
            None => step_index(steps@, id, from) is None,
        },
{
    let mut i: usize = steps.len();
    proof {
        assert(steps@.subrange(0, i as int) =~= steps@);
    }
    while i > 0
        invariant
            i <= steps.len(),
            step_index(steps@, id, from) == step_index(steps@.subrange(0, i as int), id, from),
        decreases i,
    {
        let ghost head = steps@.subrange(0, i as int);
        i -= 1;
        proof {
            assert(head.drop_last() =~= steps@.subrange(0, i as int));
            assert(head.last() == steps@[i as int]);
        }
        if steps[i].id == id && steps[i].from == from {
            return Some(i);
        }
    }
    proof {
        assert(steps@.subrange(0, 0).len() == 0);
    }
    None
}

/// Brings a record up to version `target`, in place, and says whether its
/// version had to change.
///
/// Starting at the version that the record declares, each version below the
/// target gets the defaults filled in and then its registered step, if it
/// has one. The first step that fails ends the work with its error, and the
/// record stays as that step left it. After the last version the target is
/// written under the reserved key.
///
/// A record that is not a map, whose version is no integer in range, or
/// whose version is above the target fails with `Deserialization` and is not
/// touched.
pub fn migrate<M: Migration + ?Sized>(
    record: &mut Value,
    target: u32,
    defaults: &Value,
    steps: &Vec<RegisteredMigration<M>>,
    id: u64,
) -> (r: Result<bool, Error>)
    ensures
        final(record)@ == migrated(old(record)@, target, defaults@, steps@, id).record,
        match r {
            Ok(changed) => migrated(old(record)@, target, defaults@, steps@, id).failure is None
                && changed == (record_version(old(record)@) != Ok::<u32, ErrorView>(target)),
            Err(e) => migrated(old(record)@, target, defaults@, steps@, id).failure == Some(e@),
        },
        r is Ok ==> final(record)@ is Table && final(record)@->Table_0.dom().contains(VERSION_KEY@)
            && final(record)@->Table_0[VERSION_KEY@] == Node::U32(target),
{
    let start = match version_of(record) {
        Ok(v) => v,
        Err(e) => {
            return Err(e);
        },
    };
    if start > target {
        return Err(Error::Deserialization(NEWER_VERSION.to_owned()));
    }
    let mut version: u32 = start;
    while version != target
        invariant
            start <= version <= target,
            record_version(old(record)@) == Ok::<u32, ErrorView>(start),
            record@ is Table,
            walked(record@, version as int, target as int, defaults@, steps@, id) == walked(
                old(record)@,
                start as int,
                target as int,
                defaults@,
                steps@,
                id,
            ),
        decreases target - version,
    {
        let ghost before = record@;
        let ghost next = advanced(before, version, defaults@, steps@, id);
        merge_defaults(record, defaults);
        match find_step(steps, id, version) {
            Some(i) => {
                match steps[i].step.migrate(record) {
                    Ok(()) => {},
                    Err(e) => {
                        proof {
                            assert(next.failure == Some(e@) && next.record == record@);
                        }
                        return Err(e);
                    },
                }
            },
            None => {},
        }
        proof {
            assert(next.failure is None && next.record == record@);
        }
        version += 1;
    }
    stamp_version(record, target);
    Ok(start != target)
}

/// Filling in the defaults never overwrites what the record states: every
/// entry of the record is kept as it is, every default whose key the record
/// lacks is added, and nothing else.
pub proof fn lemma_merge_keeps_record(record: Map<Seq<char>, Node>, defaults: Map<Seq<char>, Node>)
    ensures
        merged(Node::Table(record), Node::Table(defaults)) is Table,
        forall|k: Seq<char>|
            record.dom().contains(k) ==> {
                let m = merged(Node::Table(record), Node::Table(defaults))->Table_0;
                m.dom().contains(k) && m[k] == record[k]
            },
        forall|k: Seq<char>|
            defaults.dom().contains(k) && !record.dom().contains(k) ==> {
                let m = merged(Node::Table(record), Node::Table(defaults))->Table_0;
                m.dom().contains(k) && m[k] == defaults[k]
            },
        forall|k: Seq<char>|
            merged(Node::Table(record), Node::Table(defaults))->Table_0.dom().contains(k)
                ==> record.dom().contains(k) || defaults.dom().contains(k),
{
}

/// A record that is at the target version already is not walked at all: no
/// defaults are filled in, no step runs, and only the reserved key is
/// written. Where that key holds the target as a 32-bit number already, the
/// record stays exactly as it is.
pub proof fn lemma_current_record_stays<M: Migration + ?Sized>(
    record: Node,
    target: u32,
    defaults: Node,
    steps: Seq<RegisteredMigration<M>>,
    id: u64,
)
    requires
        record_version(record) == Ok::<u32, ErrorView>(target),
    ensures
        migrated(record, target, defaults, steps, id).failure is None,
        migrated(record, target, defaults, steps, id).record == stamped(record, target),
        record->Table_0.dom().contains(VERSION_KEY@) && record->Table_0[VERSION_KEY@] == Node::U32(
            target,
        ) ==> migrated(record, target, defaults, steps, id).record == record,
{
    if record->Table_0.dom().contains(VERSION_KEY@) && record->Table_0[VERSION_KEY@] == Node::U32(
        target,
    ) {
        assert(record->Table_0.insert(VERSION_KEY@, Node::U32(target)) =~= record->Table_0);
    }
}

/// Migration is idempotent: migrating what a successful migration left
/// changes nothing, and finds the version already at the target.
pub proof fn lemma_migrate_twice<M: Migration + ?Sized>(
    record: Node,
    target: u32,
    defaults: Node,
    steps: Seq<RegisteredMigration<M>>,
    id: u64,
)
    requires
        migrated(record, target, defaults, steps, id).failure is None,
        migrated(record, target, defaults, steps, id).record is Table,
    ensures
        record_version(migrated(record, target, defaults, steps, id).record) == Ok::<u32, ErrorView>(
            target,
        ),
        migrated(migrated(record, target, defaults, steps, id).record, target, defaults, steps, id)
            == migrated(record, target, defaults, steps, id),
{
    let first = migrated(record, target, defaults, steps, id);
    lemma_current_record_stays(first.record, target, defaults, steps, id);
}

/// A walk over one version is that version's work and nothing else.
pub proof fn lemma_walk_one_version<M: Migration + ?Sized>(
    record: Node,
    from: u32,
    defaults: Node,
    steps: Seq<RegisteredMigration<M>>,
    id: u64,
)
    requires
        from < u32::MAX,
    ensures
        walked(record, from as int, from + 1, defaults, steps, id) == advanced(
            record,
            from,
            defaults,
            steps,
            id,
        ),
{
    let next = advanced(record, from, defaults, steps, id);
    if next.failure is None {
        assert(walked(next.record, from + 1, from + 1, defaults, steps, id) == next);
    }
}

/// Versions are walked in increasing order, each once: a walk from `from`
/// to `target` is the walk from `from` to any version `mid` between them,
/// followed, unless that failed, by the walk from `mid` to `target`.
pub proof fn lemma_walk_in_order<M: Migration + ?Sized>(
    record: Node,
    from: int,
    mid: int,
    target: int,
    defaults: Node,
    steps: Seq<RegisteredMigration<M>>,
    id: u64,
)
    requires
        from <= mid <= target,
    ensures
        walked(record, from, target, defaults, steps, id) == ({
            let first = walked(record, from, mid, defaults, steps, id);
            if first.failure is Some {
                first
            } else {
                walked(first.record, mid, target, defaults, steps, id)
            }
        }),
    decreases mid - from,
{
    if from < mid {
        let next = advanced(record, from as u32, defaults, steps, id);
        if next.failure is None {
            lemma_walk_in_order(next.record, from + 1, mid, target, defaults, steps, id);
        }
    }
}

} // verus!
