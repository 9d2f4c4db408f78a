use crate::err::Error;
use crate::sql::value::{Val, Value};
use vstd::prelude::*;

verus! {

/// The signal by which a running statement is stopped, and the parameters it
/// can refer to.
///
/// Time is a count of ticks that the caller keeps: `now` is the current tick,
/// `deadline` the tick from which on the statement is out of time.
pub struct Runtime {
    pub cancelled: bool,
    pub now: u64,
    pub deadline: Option<u64>,
    /// The parameters, as the fields of an object.
    pub vars: Value,
}

impl Runtime {
    /// Why work has to stop, if it has to.
    pub open spec fn done(&self) -> Option<Error> {
        if self.cancelled {
            Some(Error::Cancelled)
        } else if self.deadline is Some && self.now >= self.deadline->0 {
            Some(Error::Timeout)
        } else {
            None
        }
    }

    /// The content of the parameters.
    pub open spec fn params(&self) -> Val {
        self.vars@
    }

    /// A runtime at tick zero with no deadline and no parameters.
    pub fn new() -> (r: Runtime)
        ensures
            r.done() is None,
            !r.cancelled,
            r.now == 0,
            r.deadline is None,
            r.params() == Val::Void,
    {
        Runtime { cancelled: false, now: 0, deadline: None, vars: Value::Void }
    }

    /// Trips the cancellation signal.
    pub fn cancel(&mut self)
        ensures
            final(self).cancelled,
            final(self).done() == Some(Error::Cancelled),
            final(self).now == old(self).now,
            final(self).deadline == old(self).deadline,
            final(self).params() == old(self).params(),
    {
        self.cancelled = true;
    }

    /// Moves the clock to `now`.
    pub fn tick(&mut self, now: u64)
        ensures
            final(self).now == now,
            final(self).cancelled == old(self).cancelled,
            final(self).deadline == old(self).deadline,
            final(self).params() == old(self).params(),
    {
        self.now = now;
    }

    /// Gives the parameter `name` the content of `v`.
    pub fn define(&mut self, name: &Vec<u8>, v: Value)
        ensures
            final(self).params() == old(self).params().with_field(name@, v@),
            final(self).cancelled == old(self).cancelled,
            final(self).now == old(self).now,
            final(self).deadline == old(self).deadline,
    {
        let next = self.vars.with_field(name, v);
        self.vars = next;
    }

    /// A runtime with the same signal and parameters whose deadline is at most
    /// `ticks` from now. An earlier deadline stays.
    pub fn with_timeout(&self, ticks: u64) -> (r: Runtime)
        ensures
            r.cancelled == self.cancelled,
            r.now == self.now,
            r.params() == self.params(),
            r.deadline == Some(Self::earlier(self.deadline, Self::after(self.now, ticks))),
    {
        let limit = self.now.saturating_add(ticks);
        let deadline = match self.deadline {
            Some(d) => if d < limit { d } else { limit },
            None => limit,
        };
        Runtime {
            cancelled: self.cancelled,
            now: self.now,
            deadline: Some(deadline),
            vars: self.vars.duplicate(),
        }
    }

    /// The tick `ticks` after `now`, or the last tick there is.
    pub open spec fn after(now: u64, ticks: u64) -> u64 {
        if now + ticks > u64::MAX {
            u64::MAX
        } else {
            (now + ticks) as u64
        }
    }

    /// The earlier of a deadline that may be missing and one that is there.
    pub open spec fn earlier(deadline: Option<u64>, limit: u64) -> u64 {
        match deadline {
            Some(d) => if d < limit { d } else { limit },
            None => limit,
        }
    }

    /// Fails with the reason to stop, where there is one.
    pub fn check(&self) -> (r: Result<(), Error>)
        ensures
            r == match self.done() {
                Some(e) => Err::<(), Error>(e),
                None => Ok::<(), Error>(()),
            },
    {
        if self.cancelled {
            Err(Error::Cancelled)
        } else {
            match self.deadline {
                Some(d) => if self.now >= d {
                    Err(Error::Timeout)
                } else {
                    Ok(())
                },
                None => Ok(()),
            }
        }
    }
}

} // verus!
