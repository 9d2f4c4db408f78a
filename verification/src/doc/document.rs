use crate::sql::value::{Key, Thing, Val, Value};
use vstd::prelude::*;

verus! {

/// The working copy of one record while a statement runs: its identity, its
/// content as it was loaded, and its content as the statement has changed it.
#[derive(Clone, Debug, PartialEq, Eq)]
pub struct Document {
    /// The identity of the record; `None` for a value that is no record.
    pub id: Option<Thing>,
    /// The content as the statement has changed it so far.
    pub current: Value,
    /// The content as it was loaded. No operation changes it.
    pub initial: Value,
}

/// The content of an optional record identity.
pub open spec fn key_of(id: Option<Thing>) -> Option<Key> {
    match id {
        Some(t) => Some(t@),
        None => None,
    }
}

/// The content of an optional reference to a record identity.
pub open spec fn key_at(id: Option<&Thing>) -> Option<Key> {
    match id {
        Some(t) => Some(t@),
        None => None,
    }
}

impl Document {
    /// The identity of the record.
    pub open spec fn key(&self) -> Option<Key> {
        key_of(self.id)
    }

    /// The content as it was loaded.
    pub open spec fn loaded(&self) -> Val {
        self.initial@
    }

    /// The content as it stands.
    pub open spec fn content(&self) -> Val {
        self.current@
    }

    /// The document of the record `id` with the content `value`.
    pub fn new(id: Option<Thing>, value: &Value) -> (r: Document)
        ensures
            r.key() == key_of(id),
            r.content() == value@,
            r.loaded() == value@,
    {
        Document { id, current: value.duplicate(), initial: value.duplicate() }
    }
}

} // verus!
