//! Rows: an identifier and a mapping from field names to values.

use vstd::prelude::*;
use crate::value::{DynamicValue, TypedValue};

verus! {

/// One row of the table. The fields map names to values; where a name occurs
/// twice, the first occurrence is the one that counts.
#[derive(Debug)]
pub struct Record {
    pub row_id: i64,
    pub fields: Vec<(String, DynamicValue)>,
}

/// The value of the first field at or after position `i` that is named `key`.
pub open spec fn lookup_from(
    fields: Seq<(String, DynamicValue)>,
    key: Seq<char>,
    i: int,
) -> Option<DynamicValue>
    decreases fields.len() - i,
{
    if i < 0 || i >= fields.len() {
        None
    } else if fields[i].0@ == key {
        Some(fields[i].1)
    } else {
        lookup_from(fields, key, i + 1)
    }
}

/// The value of the field named `key`, if the row has one.
pub open spec fn lookup(r: Record, key: Seq<char>) -> Option<DynamicValue> {
    lookup_from(r.fields@, key, 0)
}

/// The coerced value of the field named `key`; `Absent` for a missing field.
pub open spec fn field_typed(r: Record, key: Seq<char>) -> TypedValue {
    match lookup(r, key) {
        Some(v) => v.typed,
        None => TypedValue::Absent,
    }
}

impl Record {
    /// The position of the field named `key`, if the row has one.
    pub fn find_field(&self, key: &String) -> (r: Option<usize>)
        ensures
            match r {
                Some(i) => i < self.fields@.len() && lookup(*self, key@) == Some(self.fields@[i as int].1),
                None => lookup(*self, key@) is None,
            },
    {
        let mut i: usize = 0;
        while i < self.fields.len()
            invariant
                i <= self.fields@.len(),
                lookup(*self, key@) == lookup_from(self.fields@, key@, i as int),
            decreases self.fields@.len() - i,
        {
            if self.fields[i].0 == *key {
                return Some(i);
            }
            i = i + 1;
        }
        None
    }

    /// A reference to the value of the field named `key`, if the row has one.
    pub fn get(&self, key: &String) -> (r: Option<&DynamicValue>)
        ensures
            match r {
                Some(v) => lookup(*self, key@) == Some(*v),
                None => lookup(*self, key@) is None,
            },
    {
        match self.find_field(key) {
            Some(i) => Some(&self.fields[i].1),
            None => None,
        }
    }
}

} // verus!
