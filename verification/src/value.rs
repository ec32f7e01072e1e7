//! The closed union of recordable values, its mathematical view, the
//! typed-to-text encoding policy, and the flat column-name-to-value map
//! that one snapshot carries.

use vstd::prelude::*;
use crate::text::{bool_str, bool_text, i64_text, int_text};

verus! {

/// A recordable value.
///
/// A decimal is carried as its decimal text, a timeout as whole seconds plus
/// subsecond nanoseconds.
pub enum Value {
    /// A decimal number, held as its decimal textual form.
    Decimal(String),
    /// A signed integer.
    Integer(i64),
    /// A boolean.
    Bit(bool),
    /// Free text.
    Text(String),
    /// A remaining duration; only "equals zero" is ever recorded.
    Timeout { secs: u64, nanos: u32 },
    /// An opaque byte payload; never persisted.
    Bin(Vec<u8>),
}

/// The mathematical view of a `Value`.
pub enum SpecValue {
    Decimal(Seq<char>),
    Integer(int),
    Bit(bool),
    Text(Seq<char>),
    Timeout { secs: nat, nanos: nat },
    Bin(Seq<u8>),
}

impl View for Value {
    type V = SpecValue;

    open spec fn view(&self) -> SpecValue {
        match self {
            Value::Decimal(s) => SpecValue::Decimal(s@),
            Value::Integer(i) => SpecValue::Integer(*i as int),
            Value::Bit(b) => SpecValue::Bit(*b),
            Value::Text(t) => SpecValue::Text(t@),
            Value::Timeout { secs, nanos } => SpecValue::Timeout {
                secs: *secs as nat,
                nanos: *nanos as nat,
            },
            Value::Bin(b) => SpecValue::Bin(b@),
        }
    }
}

/// The text a value is persisted as: a decimal or integer in decimal text, a
/// boolean as `true`/`false`, text verbatim, a timeout as `true` exactly when
/// it is zero, and a binary payload always as the empty field.
pub open spec fn encoded(v: SpecValue) -> Seq<char> {
    match v {
        SpecValue::Decimal(s) => s,
        SpecValue::Integer(i) => int_text(i),
        SpecValue::Bit(b) => bool_text(b),
        SpecValue::Text(t) => t,
        SpecValue::Timeout { secs, nanos } => bool_text(secs == 0 && nanos == 0),
        SpecValue::Bin(_) => Seq::empty(),
    }
}

impl Value {
    /// Renders this value under the encoding policy.
    pub fn encode(&self) -> (r: String)
        ensures
            r@ == encoded(self@),
    {
        match self {
            Value::Decimal(s) => s.clone(),
            Value::Integer(i) => i64_text(*i),
            Value::Bit(b) => bool_str(*b).to_owned(),
            Value::Text(t) => t.clone(),
            Value::Timeout { secs, nanos } => bool_str(*secs == 0 && *nanos == 0).to_owned(),
            Value::Bin(_) => {
                let r = String::new();
                proof {
                    assert(r@ =~= Seq::<char>::empty());
                }
                r
            },
        }
    }

    /// An exact copy of this value.
    pub fn duplicate(&self) -> (r: Value)
        ensures
            r@ == self@,
    {
        match self {
            Value::Decimal(s) => Value::Decimal(s.clone()),
            Value::Integer(i) => Value::Integer(*i),
            Value::Bit(b) => Value::Bit(*b),
            Value::Text(t) => Value::Text(t.clone()),
            Value::Timeout { secs, nanos } => Value::Timeout { secs: *secs, nanos: *nanos },
            Value::Bin(b) => Value::Bin(b.clone()),
        }
    }
}

/// The view of a sequence of entries as a map, later entries overriding
/// earlier ones.
pub open spec fn entries_map(s: Seq<(String, Value)>) -> Map<Seq<char>, SpecValue>
    decreases s.len(),
{
    if s.len() == 0 {
        Map::empty()
    } else {
        entries_map(s.drop_last()).insert(s.last().0@, s.last().1@)
    }
}

/// A flat mapping from namespaced column names to values, as one snapshot
/// carries it.
pub struct ValueMap {
    entries: Vec<(String, Value)>,
}

impl View for ValueMap {
    type V = Map<Seq<char>, SpecValue>;

    closed spec fn view(&self) -> Map<Seq<char>, SpecValue> {
        entries_map(self.entries@)
    }
}

impl ValueMap {
    /// An empty mapping.
    pub fn new() -> (r: ValueMap)
        ensures
            r@ == Map::<Seq<char>, SpecValue>::empty(),
    {
        ValueMap { entries: Vec::new() }
    }

    /// Binds `key` to `value`, overriding any earlier binding.
    pub fn insert(&mut self, key: String, value: Value)
        ensures
            final(self)@ == old(self)@.insert(key@, value@),
    {
        let ghost pre = self.entries@;
        self.entries.push((key, value));
        proof {
            assert(self.entries@.drop_last() =~= pre);
        }
    }

    /// Looks `key` up, returning the bound value when one exists.
    pub fn get(&self, key: &String) -> (r: Option<&Value>)
        ensures
            match r {
                Some(v) => self@.contains_key(key@) && v@ == self@[key@],
                None => !self@.contains_key(key@),
            },
    {
        let mut i: usize = self.entries.len();
        proof {
            assert(self.entries@.take(i as int) =~= self.entries@);
        }
        while i > 0
            invariant
                i <= self.entries@.len(),
                forall|j: int| i <= j < self.entries@.len() ==> self.entries@[j].0@ != key@,
                entries_map(self.entries@.take(i as int)).contains_key(key@) ==> (
                self@.contains_key(key@) && self@[key@] == entries_map(
                    self.entries@.take(i as int),
                )[key@]),
                !entries_map(self.entries@.take(i as int)).contains_key(key@) ==> !self@.contains_key(
                    key@,
                ),
            decreases i,
        {
            let entry = &self.entries[i - 1];
            proof {
                assert(self.entries@.take(i as int).drop_last() =~= self.entries@.take(i - 1));
                assert(self.entries@.take(i as int).last() == self.entries@[i - 1]);
            }
            if entry.0.eq(key) {
                return Some(&entry.1);
            }
            i = i - 1;
        }
        proof {
            assert(self.entries@.take(0) =~= Seq::<(String, Value)>::empty());
        }
        None
    }
}

} // verus!
