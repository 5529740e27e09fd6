//! A driver that records its status in memory and accepts every script:
//! the stand-in target used when no real backend is wired up.

use vstd::prelude::*;
use super::Driver;

verus! {

/// A driver whose whole target is an in-memory status counter. Executing a
/// motion does nothing; the counter alone moves.
pub struct DefaultDriver {
    target: String,
    status: isize,
}

impl DefaultDriver {
    /// A fresh driver for the named target, with nothing applied yet.
    pub fn new(target: String) -> (d: Self)
        ensures
            d.status_view() == 0,
    {
        DefaultDriver { target, status: 0 }
    }
}

impl Driver for DefaultDriver {
    type E = NoError;

    closed spec fn status_view(&self) -> isize {
        self.status
    }

    fn get_status(&self) -> (r: Result<isize, NoError>) {
        Ok(self.status)
    }

    fn set_status(&mut self, status: isize) -> (r: Result<(), NoError>) {
        self.status = status;
        Ok(())
    }

    fn execute_motion(&self, motion: &String) -> Result<(), NoError> {
        Ok(())
    }
}

/// The error type of a driver that cannot fail.
#[derive(Debug)]
pub struct NoError;

} // verus!
