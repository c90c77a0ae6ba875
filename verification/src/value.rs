//! The generic record value: a tree of maps, sequences and typed scalars that
//! stands for the contents of one configuration file, whatever its schema.

use vstd::prelude::*;

verus! {

/// What a [`Value`] holds, as a mathematical tree. A map is a finite map from
/// keys to nodes, so two tables with the same entries in another order have
/// the same node.
pub enum Node {
    Bool(bool),
    U8(u8),
    U16(u16),
    U32(u32),
    U64(u64),
    I8(i8),
    I16(i16),
    I32(i32),
    I64(i64),
    /// A single-precision number, by its IEEE 754 bit pattern.
    F32(u32),
    /// A double-precision number, by its IEEE 754 bit pattern.
    F64(u64),
    Char(char),
    String(Seq<char>),
    Unit,
    Option(Option<Box<Node>>),
    Newtype(Box<Node>),
    List(Seq<Node>),
    Table(Map<Seq<char>, Node>),
    Bytes(Seq<u8>),
}

/// A record, or a part of one, of unknown shape.
#[derive(Debug)]
pub enum Value {
    Bool(bool),
    U8(u8),
    U16(u16),
    U32(u32),
    U64(u64),
    I8(i8),
    I16(i16),
    I32(i32),
    I64(i64),
    /// A single-precision number, by its IEEE 754 bit pattern.
    F32(u32),
    /// A double-precision number, by its IEEE 754 bit pattern.
    F64(u64),
    Char(char),
    String(String),
    Unit,
    Option(Option<Box<Value>>),
    Newtype(Box<Value>),
    List(Vec<Value>),
    Table(Table),
    Bytes(Vec<u8>),
}

/// A map from string keys to values in which no key occurs twice.
#[derive(Debug)]
pub struct Table {
    entries: Vec<(String, Value)>,
}

/// The node of a value.
pub open spec fn node_of(v: Value) -> Node
    decreases v,
{
    match v {
        Value::Bool(b) => Node::Bool(b),
        Value::U8(n) => Node::U8(n),
        Value::U16(n) => Node::U16(n),
        Value::U32(n) => Node::U32(n),
        Value::U64(n) => Node::U64(n),
        Value::I8(n) => Node::I8(n),
        Value::I16(n) => Node::I16(n),
        Value::I32(n) => Node::I32(n),
        Value::I64(n) => Node::I64(n),
        Value::F32(bits) => Node::F32(bits),
        Value::F64(bits) => Node::F64(bits),
        Value::Char(c) => Node::Char(c),
        Value::String(s) => Node::String(s@),
        Value::Unit => Node::Unit,
        Value::Option(None) => Node::Option(None),
        Value::Option(Some(inner)) => Node::Option(Some(Box::new(node_of(*inner)))),
        Value::Newtype(inner) => Node::Newtype(Box::new(node_of(*inner))),
        Value::List(items) => Node::List(
            Seq::new(
                items@.len(),
                |i: int|
                    if 0 <= i < items@.len() {
                        node_of(items@[i])
                    } else {
                        Node::Unit
                    },
            ),
        ),
        Value::Table(table) => Node::Table(map_of(table)),
        Value::Bytes(bytes) => Node::Bytes(bytes@),
    }
}

/// The map of a table: each key that occurs, with the node of its value.
pub closed spec fn map_of(t: Table) -> Map<Seq<char>, Node>
    decreases t,
{
    entries_map(t.entries@)
}

/// The map that a sequence of entries stands for.
spec fn entries_map(entries: Seq<(String, Value)>) -> Map<Seq<char>, Node>
    decreases entries,
{
    Map::new(
        |k: Seq<char>| holds_key(entries, k),
        |k: Seq<char>|
            {
                let i = index_of(entries, k);
                if 0 <= i < entries.len() {
                    node_of(entries[i].1)
                } else {
                    Node::Unit
                }
            },
    )
}

/// Whether some entry has the key `k`.
spec fn holds_key(entries: Seq<(String, Value)>, k: Seq<char>) -> bool {
    exists|i: int| 0 <= i < entries.len() && (#[trigger] entries[i]).0@ == k
}

/// An entry with the key `k`, if there is one.
spec fn index_of(entries: Seq<(String, Value)>, k: Seq<char>) -> int {
    choose|i: int| 0 <= i < entries.len() && (#[trigger] entries[i]).0@ == k
}

/// No key occurs in two entries.
spec fn distinct(entries: Seq<(String, Value)>) -> bool {
    forall|i: int, j: int|
        0 <= i < j < entries.len() ==> (#[trigger] entries[i]).0@ != (#[trigger] entries[j]).0@
}

/// The keys of a sequence of entries, in its order.
spec fn keys_of(entries: Seq<(String, Value)>) -> Seq<Seq<char>> {
    Seq::new(entries.len(), |i: int| entries[i].0@)
}

/// Among distinct entries, the map takes each entry's key to its value.
proof fn lemma_entry(entries: Seq<(String, Value)>, i: int)
    requires
        distinct(entries),
        0 <= i < entries.len(),
    ensures
        entries_map(entries).dom().contains(entries[i].0@),
        entries_map(entries)[entries[i].0@] == node_of(entries[i].1),
{
    let k = entries[i].0@;
    assert(holds_key(entries, k));
    let j = index_of(entries, k);
    assert(0 <= j < entries.len() && entries[j].0@ == k);
    assert(j == i);
}

/// A key is in the map exactly if an entry has it.
proof fn lemma_domain(entries: Seq<(String, Value)>, k: Seq<char>)
    ensures
        entries_map(entries).dom().contains(k) <==> holds_key(entries, k),
        entries_map(entries).dom().contains(k) <==> keys_of(entries).contains(k),
{
    if holds_key(entries, k) {
        let i = index_of(entries, k);
        assert(keys_of(entries)[i] == k);
    }
    if keys_of(entries).contains(k) {
        let i = choose|i: int| 0 <= i < keys_of(entries).len() && keys_of(entries)[i] == k;
        assert(entries[i].0@ == k);
    }
}

/// Distinct entries stand for a map with as many keys as there are entries.
proof fn lemma_count(entries: Seq<(String, Value)>)
    requires
        distinct(entries),
    ensures
        entries_map(entries).dom().finite(),
        entries_map(entries).dom().len() == entries.len(),
    decreases entries.len(),
{
    if entries.len() == 0 {
        assert forall|k: Seq<char>| !entries_map(entries).dom().contains(k) by {
            lemma_domain(entries, k);
        }
        assert(entries_map(entries).dom() =~= Set::<Seq<char>>::empty());
    } else {
        let head = entries.drop_last();
        let last = entries.last().0@;
        assert forall|i: int, j: int| 0 <= i < j < head.len() implies (#[trigger] head[i]).0@ != (
        #[trigger] head[j]).0@ by {
            assert(entries[i].0@ != entries[j].0@);
        }
        lemma_count(head);
        lemma_domain(head, last);
        if holds_key(head, last) {
            let i = index_of(head, last);
            assert(entries[i].0@ != entries[entries.len() - 1].0@);
        }
        assert forall|k: Seq<char>| entries_map(entries).dom().contains(k) == entries_map(
            head,
        ).dom().insert(last).contains(k) by {
            lemma_domain(entries, k);
            lemma_domain(head, k);
            if holds_key(head, k) {
                let i = index_of(head, k);
                assert(entries[i].0@ == k);
            }
            if holds_key(entries, k) {
                let i = index_of(entries, k);
                if i < head.len() {
                    assert(head[i].0@ == k);
                }
            }
            assert(entries[entries.len() - 1].0@ == last);
        }
        assert(entries_map(entries).dom() =~= entries_map(head).dom().insert(last));
    }
}

impl View for Value {
    type V = Node;

    open spec fn view(&self) -> Node {
        node_of(*self)
    }
}

impl View for Table {
    type V = Map<Seq<char>, Node>;

    open spec fn view(&self) -> Map<Seq<char>, Node> {
        map_of(*self)
    }
}

impl Table {
    #[verifier::type_invariant]
    spec fn keys_distinct(&self) -> bool {
        distinct(self.entries@)
    }

    /// The keys, in the order in which the table holds them.
    pub closed spec fn keys(&self) -> Seq<Seq<char>> {
        keys_of(self.entries@)
    }

    /// An empty table.
    pub fn new() -> (t: Table)
        ensures
            t@ == Map::<Seq<char>, Node>::empty(),
            t.keys() == Seq::<Seq<char>>::empty(),
    {
        let t = Table { entries: Vec::new() };
        proof {
            assert forall|k: Seq<char>| !(#[trigger] t@.dom().contains(k)) by {
                lemma_domain(t.entries@, k);
            }
            assert(t@ =~= Map::<Seq<char>, Node>::empty());
            assert(t.keys() =~= Seq::<Seq<char>>::empty());
        }
        t
    }

    /// The number of entries. The keys, in the table's order, are the
    /// domain of its map, each once.
    pub fn len(&self) -> (n: usize)
        ensures
            n == self@.len(),
            n == self.keys().len(),
            self@.dom().finite(),
            self.keys().no_duplicates(),
            forall|k: Seq<char>| self@.dom().contains(k) <==> self.keys().contains(k),
    {
        proof {
            use_type_invariant(self);
            lemma_count(self.entries@);
            assert forall|k: Seq<char>| self@.dom().contains(k) <==> self.keys().contains(k) by {
                lemma_domain(self.entries@, k);
            }
            assert forall|i: int, j: int|
                0 <= i < self.keys().len() && 0 <= j < self.keys().len() && i != j implies self.keys()[i]
                != self.keys()[j] by {
                if i < j {
                    assert(self.entries@[i].0@ != self.entries@[j].0@);
                } else {
                    assert(self.entries@[j].0@ != self.entries@[i].0@);
                }
            }
        }
        self.entries.len()
    }

    /// The entry at position `i` of the table's own order.
    pub fn entry_at(&self, i: usize) -> (r: (&String, &Value))
        requires
            i < self.keys().len(),
        ensures
            r.0@ == self.keys()[i as int],
            self@.dom().contains(r.0@),
            self@[r.0@] == r.1@,
    {
        proof {
            use_type_invariant(self);
            lemma_entry(self.entries@, i as int);
        }
        (&self.entries[i].0, &self.entries[i].1)
    }

    /// Where the entry with `key` is, if there is one.
    fn position(&self, key: &String) -> (r: Option<usize>)
        ensures
            match r {
                Some(i) => i < self.entries@.len() && self.entries@[i as int].0@ == key@,
                None => !holds_key(self.entries@, key@),
            },
    {
        let mut i: usize = 0;
        while i < self.entries.len()
            invariant
                i <= self.entries@.len(),
                forall|j: int| 0 <= j < i ==> (#[trigger] self.entries@[j]).0@ != key@,
            decreases self.entries@.len() - i,
        {
            if self.entries[i].0 == *key {
                return Some(i);
            }
            i += 1;
        }
        None
    }

    /// Whether the table has an entry for `key`.
    pub fn contains_key(&self, key: &str) -> (b: bool)
        ensures
            b == self@.dom().contains(key@),
    {
        let owned = key.to_owned();
        proof {
            lemma_domain(self.entries@, key@);
        }
        self.position(&owned).is_some()
    }

    /// The value that `key` maps to.
    pub fn get(&self, key: &str) -> (r: Option<&Value>)
        ensures
            r is Some == self@.dom().contains(key@),
            r matches Some(v) ==> v@ == self@[key@],
    {
        let owned = key.to_owned();
        proof {
            use_type_invariant(self);
            lemma_domain(self.entries@, key@);
        }
        match self.position(&owned) {
            Some(i) => {
                proof {
                    lemma_entry(self.entries@, i as int);
                }
                Some(&self.entries[i].1)
            },
            None => None,
        }
    }

    /// Maps `key` to `value`, and returns the value that it had.
    pub fn insert(&mut self, key: String, value: Value) -> (previous: Option<Value>)
        ensures
            final(self)@ == old(self)@.insert(key@, value@),
            previous is Some == old(self)@.dom().contains(key@),
            previous matches Some(v) ==> v@ == old(self)@[key@],
    {
        proof {
            use_type_invariant(&*self);
            lemma_domain(self.entries@, key@);
        }
        let ghost before = self.entries@;
        let found = self.position(&key);
        let mut entries: Vec<(String, Value)> = Vec::new();
        core::mem::swap(&mut self.entries, &mut entries);
        match found {
            Some(i) => {
                proof {
                    lemma_entry(before, i as int);
                }
                entries.push((key, value));
                let replaced = entries.swap_remove(i);
                proof {
                    assert(entries@ =~= before.update(i as int, entries@[i as int]));
                    lemma_replaced(before, entries@, i as int);
                }
                self.entries = entries;
                Some(replaced.1)
            },
            None => {
                entries.push((key, value));
                proof {
                    assert(entries@.drop_last() =~= before);
                    lemma_pushed(before, entries@);
                }
                self.entries = entries;
                None
            },
        }
    }

    /// Takes the entry for `key` out, and returns the value that it had.
    pub fn remove(&mut self, key: &str) -> (previous: Option<Value>)
        ensures
            final(self)@ == old(self)@.remove(key@),
            previous is Some == old(self)@.dom().contains(key@),
            previous matches Some(v) ==> v@ == old(self)@[key@],
    {
        let owned = key.to_owned();
        proof {
            use_type_invariant(&*self);
            lemma_domain(self.entries@, key@);
        }
        let ghost before = self.entries@;
        match self.position(&owned) {
            Some(i) => {
                proof {
                    lemma_entry(before, i as int);
                }
                let mut entries: Vec<(String, Value)> = Vec::new();
                core::mem::swap(&mut self.entries, &mut entries);
                let taken = entries.remove(i);
                proof {
                    lemma_removed(before, entries@, i as int);
                }
                self.entries = entries;
                Some(taken.1)
            },
            None => {
                proof {
                    assert(self@ =~= self@.remove(key@));
                }
                None
            },
        }
    }

    /// Takes over from `other` every entry whose key this table lacks, and
    /// leaves the entries that it has as they are.
    pub fn merge_missing(&mut self, other: &Table)
        ensures
            final(self)@ == other@.union_prefer_right(old(self)@),
    {
        let n = other.len();
        let mut i: usize = 0;
        while i < n
            invariant
                n == other.keys().len(),
                i <= n,
                forall|k: Seq<char>| other@.dom().contains(k) <==> other.keys().contains(k),
                forall|k: Seq<char>|
                    self@.dom().contains(k) <==> old(self)@.dom().contains(k) || exists|j: int|
                        0 <= j < i && other.keys()[j] == k,
                forall|k: Seq<char>|
                    old(self)@.dom().contains(k) ==> #[trigger] self@[k] == old(self)@[k],
                forall|k: Seq<char>|
                    self@.dom().contains(k) && !old(self)@.dom().contains(k) ==> #[trigger] self@[k]
                        == other@[k],
            decreases n - i,
        {
            let (key, value) = other.entry_at(i);
            if !self.contains_key(key.as_str()) {
                self.insert(key.clone(), value.clone());
            }
            i += 1;
        }
        proof {
            let target = other@.union_prefer_right(old(self)@);
            assert forall|k: Seq<char>| self@.dom().contains(k) == target.dom().contains(k) by {
                if other@.dom().contains(k) {
                    assert(other.keys().contains(k));
                    let j = other.keys().index_of(k);
                    assert(0 <= j < i && other.keys()[j] == k);
                }
            }
            assert(self@ =~= target);
        }
    }

    /// Whether two tables hold the same entries, in whatever order.
    pub fn same(&self, other: &Table) -> (r: bool)
        ensures
            r == (self@ == other@),
        decreases self,
    {
        proof {
            use_type_invariant(self);
            use_type_invariant(other);
            lemma_count(self.entries@);
            lemma_count(other.entries@);
        }
        if self.entries.len() != other.entries.len() {
            return false;
        }
        let mut i: usize = 0;
        while i < self.entries.len()
            invariant
                i <= self.entries@.len(),
                distinct(self.entries@),
                distinct(other.entries@),
                forall|j: int|
                    0 <= j < i ==> other@.dom().contains((#[trigger] self.entries@[j]).0@)
                        && other@[self.entries@[j].0@] == node_of(self.entries@[j].1),
            decreases self.entries@.len() - i,
        {
            proof {
                lemma_entry(self.entries@, i as int);
                lemma_domain(other.entries@, self.entries@[i as int].0@);
            }
            match other.position(&self.entries[i].0) {
                Some(j) => {
                    proof {
                        lemma_entry(other.entries@, j as int);
                    }
                    if !self.entries[i].1.same(&other.entries[j].1) {
                        return false;
                    }
                },
                None => {
                    return false;
                },
            }
            i += 1;
        }
        proof {
            assert forall|k: Seq<char>| self@.dom().contains(k) implies other@.dom().contains(k)
                && other@[k] == self@[k] by {
                lemma_domain(self.entries@, k);
                let j = index_of(self.entries@, k);
                lemma_entry(self.entries@, j);
            }
            assert(self@.dom().subset_of(other@.dom()));
            vstd::set_lib::lemma_subset_equality(self@.dom(), other@.dom());
            assert(self@ =~= other@);
        }
        true
    }
}

impl Value {
    /// Whether two values hold the same tree. Tables are the same if they
    /// hold the same entries, in whatever order; numbers are the same if
    /// they have the same width and value, and for the two floating-point
    /// widths the same bits.
    pub fn same(&self, other: &Value) -> (r: bool)
        ensures
            r == (self@ == other@),
        decreases self,
    {
        match (self, other) {
            (Value::Bool(a), Value::Bool(b)) => *a == *b,
            (Value::U8(a), Value::U8(b)) => *a == *b,
            (Value::U16(a), Value::U16(b)) => *a == *b,
            (Value::U32(a), Value::U32(b)) => *a == *b,
            (Value::U64(a), Value::U64(b)) => *a == *b,
            (Value::I8(a), Value::I8(b)) => *a == *b,
            (Value::I16(a), Value::I16(b)) => *a == *b,
            (Value::I32(a), Value::I32(b)) => *a == *b,
            (Value::I64(a), Value::I64(b)) => *a == *b,
            (Value::F32(a), Value::F32(b)) => *a == *b,
            (Value::F64(a), Value::F64(b)) => *a == *b,
            (Value::Char(a), Value::Char(b)) => *a == *b,
            (Value::String(a), Value::String(b)) => *a == *b,
            (Value::Unit, Value::Unit) => true,
            (Value::Option(None), Value::Option(None)) => true,
            (Value::Option(Some(a)), Value::Option(Some(b))) => (**a).same(&**b),
            (Value::Newtype(a), Value::Newtype(b)) => (**a).same(&**b),
            (Value::List(a), Value::List(b)) => {
                if a.len() != b.len() {
                    proof {
                        assert(self@->List_0.len() != other@->List_0.len());
                    }
                    return false;
                }
                let mut i: usize = 0;
                while i < a.len()
                    invariant
                        *self == Value::List(*a),
                        *other == Value::List(*b),
                        a@.len() == b@.len(),
                        i <= a@.len(),
                        forall|j: int| 0 <= j < i ==> node_of(#[trigger] a@[j]) == node_of(b@[j]),
                    decreases a@.len() - i,
                {
                    proof {
                        assert(self->List_0 == *a);
                        assert(decreases_to!(*self => self->List_0@[i as int]));
                    }
                    if !a[i].same(&b[i]) {
                        proof {
                            assert(self@->List_0[i as int] != other@->List_0[i as int]);
                        }
                        return false;
                    }
                    i += 1;
                }
                proof {
                    assert(self@->List_0 =~= other@->List_0);
                }
                true
            },
            (Value::Table(a), Value::Table(b)) => a.same(b),
            (Value::Bytes(a), Value::Bytes(b)) => {
                if a.len() != b.len() {
                    return false;
                }
                let mut i: usize = 0;
                while i < a.len()
                    invariant
                        *self == Value::Bytes(*a),
                        *other == Value::Bytes(*b),
                        a@.len() == b@.len(),
                        i <= a@.len(),
                        forall|j: int| 0 <= j < i ==> a@[j] == b@[j],
                    decreases a@.len() - i,
                {
                    if a[i] != b[i] {
                        return false;
                    }
                    i += 1;
                }
                proof {
                    assert(a@ =~= b@);
                }
                true
            },
            _ => false,
        }
    }
}

impl PartialEq for Table {
    /// Whether two tables hold the same entries, in whatever order.
    fn eq(&self, other: &Table) -> (r: bool) {
        self.same(other)
    }
}

impl vstd::std_specs::cmp::PartialEqSpecImpl for Table {
    open spec fn obeys_eq_spec() -> bool {
        true
    }

    open spec fn eq_spec(&self, other: &Table) -> bool {
        self@ == other@
    }
}

impl PartialEq for Value {
    /// Whether two values hold the same tree.
    fn eq(&self, other: &Value) -> (r: bool) {
        self.same(other)
    }
}

impl vstd::std_specs::cmp::PartialEqSpecImpl for Value {
    open spec fn obeys_eq_spec() -> bool {
        true
    }

    open spec fn eq_spec(&self, other: &Value) -> bool {
        self@ == other@
    }
}

impl Clone for Table {
    /// A copy with the same entries in the same order.
    fn clone(&self) -> (copy: Table)
        ensures
            copy@ == self@,
            copy.keys() == self.keys(),
        decreases self,
    {
        proof {
            use_type_invariant(self);
        }
        let mut entries: Vec<(String, Value)> = Vec::new();
        let mut i: usize = 0;
        while i < self.entries.len()
            invariant
                i <= self.entries@.len(),
                entries@.len() == i,
                forall|j: int|
                    0 <= j < i ==> (#[trigger] entries@[j]).0@ == self.entries@[j].0@ && node_of(
                        entries@[j].1,
                    ) == node_of(self.entries@[j].1),
            decreases self.entries@.len() - i,
        {
            let key = self.entries[i].0.clone();
            let value = self.entries[i].1.clone();
            entries.push((key, value));
            i += 1;
        }
        proof {
            lemma_same(self.entries@, entries@);
        }
        Table { entries }
    }
}

impl Clone for Value {
    /// A copy that holds the same tree.
    fn clone(&self) -> (copy: Value)
        ensures
            copy@ == self@,
        decreases self,
    {
        match self {
            Value::Bool(b) => Value::Bool(*b),
            Value::U8(n) => Value::U8(*n),
            Value::U16(n) => Value::U16(*n),
            Value::U32(n) => Value::U32(*n),
            Value::U64(n) => Value::U64(*n),
            Value::I8(n) => Value::I8(*n),
            Value::I16(n) => Value::I16(*n),
            Value::I32(n) => Value::I32(*n),
            Value::I64(n) => Value::I64(*n),
            Value::F32(bits) => Value::F32(*bits),
            Value::F64(bits) => Value::F64(*bits),
            Value::Char(c) => Value::Char(*c),
            Value::String(s) => Value::String(s.clone()),
            Value::Unit => Value::Unit,
            Value::Option(None) => Value::Option(None),
            Value::Option(Some(inner)) => {
                let copy = (**inner).clone();
                Value::Option(Some(Box::new(copy)))
            },
            Value::Newtype(inner) => {
                let copy = (**inner).clone();
                Value::Newtype(Box::new(copy))
            },
            Value::List(items) => {
                let mut copies: Vec<Value> = Vec::new();
                let mut i: usize = 0;
                while i < items.len()
                    invariant
                        *self == Value::List(*items),
                        i <= items@.len(),
                        copies@.len() == i,
                        forall|j: int| 0 <= j < i ==> node_of(#[trigger] copies@[j]) == node_of(items@[j]),
                    decreases items@.len() - i,
                {
                    proof {
                        assert(self->List_0 == *items);
                        assert(decreases_to!(*self => self->List_0@[i as int]));
                    }
                    let copy = items[i].clone();
                    copies.push(copy);
                    i += 1;
                }
                let list = Value::List(copies);
                proof {
                    assert(list@->List_0 =~= self@->List_0);
                }
                list
            },
            Value::Table(table) => Value::Table(table.clone()),
            Value::Bytes(bytes) => {
                let mut copies: Vec<u8> = Vec::new();
                let mut i: usize = 0;
                while i < bytes.len()
                    invariant
                        i <= bytes@.len(),
                        copies@ == bytes@.subrange(0, i as int),
                    decreases bytes@.len() - i,
                {
                    copies.push(bytes[i]);
                    proof {
                        assert(copies@ =~= bytes@.subrange(0, i + 1));
                    }
                    i += 1;
                }
                proof {
                    assert(copies@ =~= bytes@);
                }
                Value::Bytes(copies)
            },
        }
    }
}

/// Entries that agree key by key and node by node stand for the same map.
proof fn lemma_same(a: Seq<(String, Value)>, b: Seq<(String, Value)>)
    requires
        distinct(a),
        a.len() == b.len(),
        forall|j: int|
            0 <= j < a.len() ==> (#[trigger] b[j]).0@ == a[j].0@ && node_of(b[j].1) == node_of(
                a[j].1,
            ),
    ensures
        distinct(b),
        entries_map(b) == entries_map(a),
        keys_of(b) == keys_of(a),
{
    assert forall|i: int, j: int| 0 <= i < j < b.len() implies (#[trigger] b[i]).0@ != (
    #[trigger] b[j]).0@ by {
        assert(a[i].0@ != a[j].0@);
    }
    assert forall|k: Seq<char>| entries_map(b).dom().contains(k) == entries_map(a).dom().contains(
        k,
    ) by {
        lemma_domain(a, k);
        lemma_domain(b, k);
        if holds_key(a, k) {
            let j = index_of(a, k);
            assert(b[j].0@ == k);
        }
        if holds_key(b, k) {
            let j = index_of(b, k);
            assert(a[j].0@ == k);
        }
    }
    assert forall|k: Seq<char>| entries_map(b).dom().contains(k) implies entries_map(b)[k]
        == entries_map(a)[k] by {
        let j = index_of(b, k);
        lemma_domain(b, k);
        lemma_entry(b, j);
        lemma_entry(a, j);
    }
    assert(entries_map(b) =~= entries_map(a));
    assert(keys_of(b) =~= keys_of(a));
}

/// Replacing the value of one entry, under the same key, is an insertion.
proof fn lemma_replaced(before: Seq<(String, Value)>, after: Seq<(String, Value)>, i: int)
    requires
        distinct(before),
        0 <= i < before.len(),
        after == before.update(i, after[i]),
        after[i].0@ == before[i].0@,
    ensures
        distinct(after),
        entries_map(after) == entries_map(before).insert(after[i].0@, node_of(after[i].1)),
{
    assert forall|a: int, b: int| 0 <= a < b < after.len() implies (#[trigger] after[a]).0@ != (
    #[trigger] after[b]).0@ by {
        assert(before[a].0@ != before[b].0@);
    }
    let target = entries_map(before).insert(after[i].0@, node_of(after[i].1));
    assert forall|k: Seq<char>| entries_map(after).dom().contains(k) == target.dom().contains(
        k,
    ) by {
        lemma_domain(before, k);
        lemma_domain(after, k);
        if holds_key(before, k) {
            let j = index_of(before, k);
            assert(after[j].0@ == k);
        }
        if holds_key(after, k) {
            let j = index_of(after, k);
            assert(before[j].0@ == k);
        }
    }
    assert forall|k: Seq<char>| entries_map(after).dom().contains(k) implies entries_map(after)[k]
        == target[k] by {
        let j = index_of(after, k);
        lemma_domain(after, k);
        lemma_entry(after, j);
        if j != i {
            lemma_entry(before, j);
        }
    }
    assert(entries_map(after) =~= target);
}

/// Adding an entry under a new key is an insertion.
proof fn lemma_pushed(before: Seq<(String, Value)>, after: Seq<(String, Value)>)
    requires
        distinct(before),
        after.len() == before.len() + 1,
        after.drop_last() == before,
        !holds_key(before, after.last().0@),
    ensures
        distinct(after),
        entries_map(after) == entries_map(before).insert(after.last().0@, node_of(after.last().1)),
{
    let n = before.len() as int;
    assert forall|a: int| 0 <= a < n implies #[trigger] after[a] == before[a] by {
        assert(after.drop_last()[a] == after[a]);
    }
    assert forall|a: int, b: int| 0 <= a < b < after.len() implies (#[trigger] after[a]).0@ != (
    #[trigger] after[b]).0@ by {
        if b < n {
            assert(before[a].0@ != before[b].0@);
        } else {
            assert(before[a].0@ == after[a].0@);
        }
    }
    let target = entries_map(before).insert(after.last().0@, node_of(after.last().1));
    assert forall|k: Seq<char>| entries_map(after).dom().contains(k) == target.dom().contains(
        k,
    ) by {
        lemma_domain(before, k);
        lemma_domain(after, k);
        if holds_key(before, k) {
            let j = index_of(before, k);
            assert(after[j].0@ == k);
        }
        if holds_key(after, k) {
            let j = index_of(after, k);
            if j < n {
                assert(before[j].0@ == k);
            }
        }
        assert(after[n].0@ == after.last().0@);
    }
    assert forall|k: Seq<char>| entries_map(after).dom().contains(k) implies entries_map(after)[k]
        == target[k] by {
        let j = index_of(after, k);
        lemma_domain(after, k);
        lemma_entry(after, j);
        if j < n {
            lemma_entry(before, j);
        }
    }
    assert(entries_map(after) =~= target);
}

/// Taking one entry out removes its key.
proof fn lemma_removed(before: Seq<(String, Value)>, after: Seq<(String, Value)>, i: int)
    requires
        distinct(before),
        0 <= i < before.len(),
        after == before.remove(i),
    ensures
        distinct(after),
        entries_map(after) == entries_map(before).remove(before[i].0@),
{
    assert forall|a: int, b: int| 0 <= a < b < after.len() implies (#[trigger] after[a]).0@ != (
    #[trigger] after[b]).0@ by {
        let a0 = if a < i { a } else { a + 1 };
        let b0 = if b < i { b } else { b + 1 };
        assert(before[a0].0@ != before[b0].0@);
    }
    let target = entries_map(before).remove(before[i].0@);
    assert forall|k: Seq<char>| entries_map(after).dom().contains(k) == target.dom().contains(
        k,
    ) by {
        lemma_domain(before, k);
        lemma_domain(after, k);
        if holds_key(before, k) && k != before[i].0@ {
            let j = index_of(before, k);
            let j1 = if j < i { j } else { j - 1 };
            assert(after[j1].0@ == k);
        }
        if holds_key(after, k) {
            let j = index_of(after, k);
            let j0 = if j < i { j } else { j + 1 };
            assert(before[j0].0@ == k);
            if j0 < i {
                assert(before[j0].0@ != before[i].0@);
            } else {
                assert(before[i].0@ != before[j0].0@);
            }
        }
    }
    assert forall|k: Seq<char>| entries_map(after).dom().contains(k) implies entries_map(after)[k]
        == target[k] by {
        let j = index_of(after, k);
        lemma_domain(after, k);
        lemma_entry(after, j);
        let j0 = if j < i { j } else { j + 1 };
        lemma_entry(before, j0);
    }
    assert(entries_map(after) =~= target);
}

} // verus!
