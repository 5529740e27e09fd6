//! The cursor based driver interface: the driver itself records how many
//! motions are applied as a single integer status, and the traversal walks
//! that cursor up or down one motion at a time.

pub mod default;

use vstd::prelude::*;
use crate::catalog::Motion;
use crate::operation::Operation;

verus! {

/// Forces an integer into a range, as the algebraic `min` and `max` both
/// applied would.
pub open spec fn clamp_spec(n: int, lo: int, hi: int) -> int {
    if n < lo {
        lo
    } else if n > hi {
        hi
    } else {
        n
    }
}

/// The status a driver ends on after a redo: undoing one motion and then
/// applying one. A cursor inside the catalog comes back where it was; a
/// cursor at zero moves to one when there is a motion to apply; a cursor
/// outside the catalog never moves at all.
pub open spec fn redo_status(status: int, len: int) -> int {
    if status == 0 && len > 0 {
        1
    } else {
        status
    }
}

/// Forces an integer to be inside a range. Similar to using both the
/// algebraic `min` and `max` functions with the specified values.
fn clamp(n: isize, min: isize, max: isize) -> (r: isize)
    requires
        min <= max,
    ensures
        r as int == clamp_spec(n as int, min as int, max as int),
{
    if n < min {
        return min;
    }
    if n > max {
        return max;
    }
    n
}

/// Clamps the sum of two statuses into a range without overflowing.
fn clamp_sum(a: isize, b: isize, min: isize, max: isize) -> (r: isize)
    requires
        min <= max,
    ensures
        r as int == clamp_spec(a as int + b as int, min as int, max as int),
{
    let wide: i128 = a as i128 + b as i128;
    if wide < min as i128 {
        return min;
    }
    if wide > max as i128 {
        return max;
    }
    wide as isize
}

/// A driver is anything which may be accelerated through a single applied
/// motion counter, for example a database. The driver stores the counter;
/// the provided methods walk it across a catalog of motions, executing one
/// script per step.
///
/// A driver may fail any call. The provided traversal methods state exactly
/// where the counter stands when they return `Ok`; after an `Err` the
/// counter is either untouched or inside the range the walk covered.
pub trait Driver {
    /// The error type for the driver.
    type E;

    /// The applied motion count the driver currently records, as the
    /// contracts below see it.
    spec fn status_view(&self) -> isize;

    /// Setup the state within the driver target. Often tables or other
    /// structures will need to be set up. Called every time the accelerate
    /// tool is used.
    fn init_state(&self) -> Result<(), Self::E> {
        Ok(())
    }

    /// Gets the integer for the last motion applied.
    fn get_status(&self) -> (r: Result<isize, Self::E>)
        ensures
            r matches Ok(s) ==> s == self.status_view(),
    ;

    /// Sets the integer for the last motion applied. On failure the
    /// recorded status is unchanged.
    fn set_status(&mut self, status: isize) -> (r: Result<(), Self::E>)
        ensures
            r is Ok ==> final(self).status_view() == status,
            r is Err ==> final(self).status_view() == old(self).status_view(),
    ;

    /// Executes a single motion script.
    fn execute_motion(&self, motion: &String) -> Result<(), Self::E>;

    /// Executes the motions between two statuses, moving from `some_start`
    /// to `some_finish` (both clamped into the catalog) one step at a time:
    /// add scripts walking up, sub scripts walking down. The status is
    /// written once the walk completes, or rewritten to the failing step so
    /// that the motions executed before a failure stay counted.
    fn execute(&mut self, motions: &Vec<Motion>, some_start: isize, some_finish: isize) -> (r:
        Result<(), Self::E>)
        requires
            motions@.len() <= isize::MAX as int,
        ensures
            ({
                let len = motions@.len() as int;
                let start = clamp_spec(some_start as int, 0, len);
                let finish = clamp_spec(some_finish as int, 0, len);
                &&& start == finish ==> r is Ok && final(self).status_view()
                    == old(self).status_view()
                &&& (start != finish && r is Ok) ==> final(self).status_view() as int == finish
                &&& r is Err ==> (final(self).status_view() == old(self).status_view() || (if start
                    <= finish {
                    start
                } else {
                    finish
                }) <= final(self).status_view() as int <= (if start <= finish {
                    finish
                } else {
                    start
                }))
            }),
    {
        let len = motions.len() as isize;
        let start = clamp(some_start, 0, len);
        let finish = clamp(some_finish, 0, len);
        if start != finish {
            let operation = Operation::get(finish, start);
            let mut i = start;
            while i != finish
                invariant
                    len as int == motions@.len() as int,
                    start as int == clamp_spec(some_start as int, 0, len as int),
                    finish as int == clamp_spec(some_finish as int, 0, len as int),
                    0 <= start as int <= len as int,
                    0 <= finish as int <= len as int,
                    start != finish,
                    operation == (if finish < start {
                        Operation::Sub
                    } else {
                        Operation::Add
                    }),
                    operation is Add ==> start <= i <= finish,
                    operation is Sub ==> finish <= i <= start,
                    self.status_view() == old(self).status_view(),
                decreases (if i <= finish {
                    finish - i
                } else {
                    i - finish
                }),
            {
                if operation == Operation::Sub {
                    i = i + Operation::sub();
                }
                // Walking up applies the motion at the cursor; walking down
                // has just stepped the cursor back onto the motion to undo.
                let script = if operation == Operation::Add {
                    &motions[i as usize].add
                } else {
                    &motions[i as usize].sub
                };
                match self.execute_motion(script) {
                    Ok(_) => (),
                    // Handle an execution error by first trying to record
                    // how far we came.
                    Err(err) => {
                        let set = self.set_status(i);
                        if let Err(set_err) = set {
                            return Err(set_err);
                        }
                        return Err(err);
                    },
                }
                if operation == Operation::Add {
                    i = i + Operation::add();
                }
            }
            self.set_status(i)
        } else {
            Ok(())
        }
    }

    /// Starts at the current driver status and executes up to `n` motions
    /// in either the add or the sub direction, stopping at the catalog's
    /// edge rather than failing.
    fn shift(&mut self, motions: &Vec<Motion>, n: isize) -> (r: Result<(), Self::E>)
        requires
            motions@.len() <= isize::MAX as int,
        ensures
            ({
                let len = motions@.len() as int;
                let here = old(self).status_view() as int;
                let target = clamp_spec(here + n as int, 0, len);
                &&& (r is Ok && clamp_spec(here, 0, len) == target) ==> final(self).status_view()
                    == old(self).status_view()
                &&& (r is Ok && clamp_spec(here, 0, len) != target) ==> final(self).status_view() as int == target
            }),
    {
        let start = match self.get_status() {
            Ok(s) => s,
            Err(e) => {
                return Err(e);
            },
        };
        let len = motions.len() as isize;
        let finish = clamp_sum(start, n, 0, len);
        self.execute(motions, start, finish)
    }

    /// Executes as many motions as necessary to move the driver from its
    /// current status to the given one.
    fn goto(&mut self, motions: &Vec<Motion>, finish: isize) -> (r: Result<(), Self::E>)
        requires
            motions@.len() <= isize::MAX as int,
        ensures
            ({
                let len = motions@.len() as int;
                let here = old(self).status_view() as int;
                let target = clamp_spec(finish as int, 0, len);
                &&& (r is Ok && clamp_spec(here, 0, len) == target) ==> final(self).status_view()
                    == old(self).status_view()
                &&& (r is Ok && clamp_spec(here, 0, len) != target) ==> final(self).status_view() as int == target
            }),
    {
        let status = match self.get_status() {
            Ok(s) => s,
            Err(e) => {
                return Err(e);
            },
        };
        self.execute(motions, status, finish)
    }

    /// Subs the last applied motion, then adds it back.
    fn redo(&mut self, motions: &Vec<Motion>) -> (r: Result<(), Self::E>)
        requires
            motions@.len() <= isize::MAX as int,
        ensures
            r is Ok ==> final(self).status_view() as int == redo_status(
                old(self).status_view() as int,
                motions@.len() as int,
            ),
    {
        let first = self.shift(motions, -1);
        if let Err(e) = first {
            return Err(e);
        }
        self.shift(motions, 1)
    }

    /// Applies all remaining add motions to the driver.
    fn up(&mut self, motions: &Vec<Motion>) -> (r: Result<(), Self::E>)
        requires
            motions@.len() <= isize::MAX as int,
        ensures
            ({
                let len = motions@.len() as int;
                let here = old(self).status_view() as int;
                &&& (r is Ok && clamp_spec(here, 0, len) == len) ==> final(self).status_view()
                    == old(self).status_view()
                &&& (r is Ok && clamp_spec(here, 0, len) != len) ==> final(self).status_view() as int == len
            }),
    {
        let last = motions.len() as isize;
        self.goto(motions, last)
    }

    /// Subs all applied motions back out of the driver.
    fn down(&mut self, motions: &Vec<Motion>) -> (r: Result<(), Self::E>)
        requires
            motions@.len() <= isize::MAX as int,
        ensures
            ({
                let len = motions@.len() as int;
                let here = old(self).status_view() as int;
                &&& (r is Ok && clamp_spec(here, 0, len) == 0) ==> final(self).status_view()
                    == old(self).status_view()
                &&& (r is Ok && clamp_spec(here, 0, len) != 0) ==> final(self).status_view() as int
                    == 0
            }),
    {
        self.goto(motions, 0)
    }

    /// Subs every applied motion and then adds the same count back,
    /// restoring the status the driver started from.
    fn reset(&mut self, motions: &Vec<Motion>) -> (r: Result<(), Self::E>)
        requires
            motions@.len() <= isize::MAX as int,
        ensures
            ({
                let len = motions@.len() as int;
                let here = old(self).status_view() as int;
                &&& (r is Ok && clamp_spec(here, 0, len) == 0) ==> final(self).status_view()
                    == old(self).status_view()
                &&& (r is Ok && clamp_spec(here, 0, len) != 0) ==> final(self).status_view() as int == clamp_spec(here, 0, len)
            }),
    {
        let status = match self.get_status() {
            Ok(s) => s,
            Err(e) => {
                return Err(e);
            },
        };
        let down = self.execute(motions, status, 0);
        if let Err(e) = down {
            return Err(e);
        }
        self.execute(motions, 0, status)
    }
}

} // verus!
