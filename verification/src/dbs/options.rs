use crate::err::Error;
use vstd::prelude::*;

verus! {

/// A level of authority, from none at all to authority over the whole store.
#[derive(Clone, Copy, Debug, PartialEq, Eq, Structural)]
pub enum Level {
    No,
    Db,
    Ns,
    Kv,
}

impl Level {
    /// The place of the level in the order of levels: more authority is higher.
    pub open spec fn rank(self) -> int {
        match self {
            Level::No => 0,
            Level::Db => 1,
            Level::Ns => 2,
            Level::Kv => 3,
        }
    }

    /// The place of the level in the order of levels.
    pub fn index(self) -> (r: u8)
        ensures
            r == self.rank(),
    {
        match self {
            Level::No => 0,
            Level::Db => 1,
            Level::Ns => 2,
            Level::Kv => 3,
        }
    }
}

/// How a statement is to be evaluated: on whose authority, and whether futures
/// are computed.
#[derive(Clone, Copy, Debug, PartialEq, Eq, Structural)]
pub struct Options {
    /// The authority of the caller.
    pub auth: Level,
    /// Whether futures are computed when they are met.
    pub futures: bool,
}

impl Options {
    /// Options for a caller with the authority `auth`; futures are left alone.
    pub fn new(auth: Level) -> (r: Options)
        ensures
            r == (Options { auth: auth, futures: false }),
    {
        Options { auth, futures: false }
    }

    /// Whether the caller's authority reaches `required`.
    pub open spec fn allows(self, required: Level) -> bool {
        self.auth.rank() >= required.rank()
    }

    /// Succeeds where the caller's authority reaches `required`.
    pub fn check(&self, required: Level) -> (r: Result<(), Error>)
        ensures
            r == if self.allows(required) {
                Ok::<(), Error>(())
            } else {
                Err::<(), Error>(Error::Permission)
            },
    {
        if self.auth.index() >= required.index() {
            Ok(())
        } else {
            Err(Error::Permission)
        }
    }

    /// The same options with the computing of futures switched on or off.
    pub fn futures(&self, enabled: bool) -> (r: Options)
        ensures
            r == (Options { auth: self.auth, futures: enabled }),
    {
        Options { auth: self.auth, futures: enabled }
    }
}

} // verus!
