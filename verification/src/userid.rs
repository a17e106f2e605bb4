//! A compact numeric user identifier and a counter that hands out a
//! sequence of fresh ones.

use vstd::prelude::*;

verus! {

/// A user ID correlating several connections back to the same conceptual
/// user. Represented as a positive integer; 0 stands for "not set" and is
/// never a valid ID.
#[derive(Debug, Copy, Clone, PartialEq, Eq, Structural, PartialOrd, Ord, Hash)]
pub struct UserId(usize);

/// The error returned when a value that is not a valid user ID is offered.
#[derive(Debug, Clone, Copy, PartialEq, Eq, Structural)]
pub struct InvalidUserId;

impl UserId {
    /// The integer behind this ID.
    pub closed spec fn value(self) -> usize {
        self.0
    }

    /// Reads the integer behind this ID.
    pub fn get(&self) -> (r: usize)
        ensures
            r == self.value(),
    {
        self.0
    }

    /// Attempts to construct a user ID from a usize. Any usize >= 1 is valid.
    pub fn try_from(val: usize) -> (r: Result<UserId, InvalidUserId>)
        ensures
            val == 0 <==> r is Err,
            r matches Ok(u) ==> u.value() == val,
    {
        match val {
            0 => Err(InvalidUserId),
            _ => Ok(UserId(val)),
        }
    }
}

/// A container holding an optional user ID, from which a run of successive
/// user IDs can be generated: `first()` followed by repeated `next()` calls.
#[derive(Debug)]
pub struct AtomicUserId {
    v: usize,
}

impl AtomicUserId {
    /// The counter value; 0 means no ID has been assigned yet.
    pub closed spec fn value(self) -> usize {
        self.v
    }

    /// A counter holding no user ID.
    pub fn empty() -> (r: Self)
        ensures
            r.value() == 0,
    {
        Self { v: 0 }
    }

    /// A counter primed so that IDs are handed out starting from 1.
    pub fn first() -> (r: Self)
        ensures
            r.value() == 1,
    {
        Self { v: 1 }
    }

    /// Advances the counter, returning the ID it held before, or `None` if
    /// it held none. The counter wraps around at the largest usize.
    pub fn next(&mut self) -> (r: Option<UserId>)
        ensures
            old(self).value() == 0 ==> r is None,
            old(self).value() != 0 ==> (r matches Some(u) && u.value() == old(self).value()),
            old(self).value() == usize::MAX ==> final(self).value() == 0,
            old(self).value() != usize::MAX ==> final(self).value() == old(self).value() + 1,
    {
        let prior = self.v;
        self.v = if self.v == usize::MAX {
            0
        } else {
            self.v + 1
        };
        match prior {
            0 => None,
            n => Some(UserId(n)),
        }
    }

    /// Reads the ID currently held, or `None` if none has been assigned.
    pub fn load(&self) -> (r: Option<UserId>)
        ensures
            self.value() == 0 ==> r is None,
            self.value() != 0 ==> (r matches Some(u) && u.value() == self.value()),
    {
        match self.v {
            0 => None,
            n => Some(UserId(n)),
        }
    }

    /// Overwrites the counter with the given ID.
    pub fn store(&mut self, val: UserId)
        ensures
            final(self).value() == val.value(),
    {
        self.v = val.0;
    }
}

} // verus!
