//! The stateful core: reconciliation of the driver's applied records against
//! the known catalog, and the bounded bidirectional traversal that moves the
//! boundary between applied and pending motions.
//!
//! The boundary is kept as two stacks. `applied` holds the applied motions in
//! ascending catalog order; `unapplied` holds the pending ones in descending
//! order, so that the last element of each vector is one of the two motions
//! immediately adjacent to the boundary and every step is a single pop and
//! push across it.

use vstd::prelude::*;
use crate::catalog::Motion;
use crate::driver::Driver;
use crate::drivers;
use crate::drivers::clamp_spec;
use crate::drivers::redo_status;
use crate::error::CustomError;
use crate::text::str_eq;

verus! {

/// The boundary state: `applied ++ reverse(unapplied)` is the catalog the
/// state was built from, in order, with no gaps or repeats.
#[derive(Debug, PartialEq, Eq)]
pub struct State {
    /// Applied motions, ascending catalog order.
    pub applied: Vec<Motion>,
    /// Pending motions, descending catalog order: the last element is the
    /// earliest pending motion.
    pub unapplied: Vec<Motion>,
}

/// Why reconciliation of the driver's records against the catalog failed.
/// Both cases signal drift that cannot be repaired automatically.
#[derive(Debug)]
pub enum ReconciliationError {
    /// The driver reports more applied records than there are known motions.
    Oversized { records: usize, motions: usize },
    /// The record at `index` names a different motion than the catalog
    /// expects there: the ledger is not a prefix of the catalog.
    Mismatch { index: usize, expected: String, actual: String },
}

/// An error from the accelerator: either reconciliation failed at
/// construction, or a single driver call failed mid-traversal. A failing
/// execute or record step aborts the whole call without undoing the steps
/// before it; `name` is the motion on which the call stopped.
#[derive(Debug)]
pub enum AccelerateError {
    /// The driver could not report its applied records.
    Records(CustomError),
    /// The records do not reconcile with the catalog.
    Reconciliation(ReconciliationError),
    /// The driver failed while executing the named motion's script.
    Execution { name: String, cause: CustomError },
    /// The named motion's script ran, but recording the new status failed;
    /// the in-memory boundary leaves the motion unmoved while the target has
    /// executed its script. This is the one step where the two can disagree.
    Record { name: String, cause: CustomError },
}

/// The catalog a boundary state stands for: the applied motions followed by
/// the pending ones in ascending order.
pub open spec fn catalog_of(applied: Seq<Motion>, unapplied: Seq<Motion>) -> Seq<Motion> {
    applied + unapplied.reverse()
}

/// True when `names` is an exact, order preserving prefix of the motions'
/// names.
pub open spec fn is_name_prefix(names: Seq<Seq<char>>, motions: Seq<Motion>) -> bool {
    &&& names.len() <= motions.len()
    &&& forall|i: int| 0 <= i < names.len() ==> names[i] == #[trigger] motions[i].name@
}

/// The views of a vector of strings.
pub open spec fn name_views(names: Seq<String>) -> Seq<Seq<char>> {
    names.map_values(|n: String| n@)
}

/// The applied stack after `k` motions moved forward across the boundary.
pub open spec fn applied_after_add(applied: Seq<Motion>, unapplied: Seq<Motion>, k: int) -> Seq<
    Motion,
> {
    applied + unapplied.skip(unapplied.len() - k).reverse()
}

/// The pending stack after `k` motions moved forward across the boundary.
pub open spec fn unapplied_after_add(unapplied: Seq<Motion>, k: int) -> Seq<Motion> {
    unapplied.take(unapplied.len() - k)
}

/// The applied stack after `k` motions moved backward across the boundary.
pub open spec fn applied_after_sub(applied: Seq<Motion>, k: int) -> Seq<Motion> {
    applied.take(applied.len() - k)
}

/// The pending stack after `k` motions moved backward across the boundary.
pub open spec fn unapplied_after_sub(applied: Seq<Motion>, unapplied: Seq<Motion>, k: int) -> Seq<
    Motion,
> {
    unapplied + applied.skip(applied.len() - k).reverse()
}

/// Moving `k` motions forward never changes the catalog the boundary state
/// stands for: only the boundary moves, the motions themselves stay.
pub proof fn lemma_add_preserves_catalog(applied: Seq<Motion>, unapplied: Seq<Motion>, k: int)
    requires
        0 <= k <= unapplied.len(),
    ensures
        catalog_of(applied_after_add(applied, unapplied, k), unapplied_after_add(unapplied, k))
            == catalog_of(applied, unapplied),
{
    assert(catalog_of(
        applied_after_add(applied, unapplied, k),
        unapplied_after_add(unapplied, k),
    ) =~= catalog_of(applied, unapplied));
}

/// Moving `k` motions backward never changes the catalog the boundary state
/// stands for.
pub proof fn lemma_sub_preserves_catalog(applied: Seq<Motion>, unapplied: Seq<Motion>, k: int)
    requires
        0 <= k <= applied.len(),
    ensures
        catalog_of(
            applied_after_sub(applied, k),
            unapplied_after_sub(applied, unapplied, k),
        ) == catalog_of(applied, unapplied),
{
    assert(catalog_of(applied_after_sub(applied, k), unapplied_after_sub(applied, unapplied, k))
        =~= catalog_of(applied, unapplied));
}

/// Undoing the most recently applied motion and then reapplying one motion
/// returns the boundary to its exact prior composition: the contract a redo
/// relies on.
pub proof fn lemma_sub_then_add_restores(applied: Seq<Motion>, unapplied: Seq<Motion>)
    requires
        applied.len() > 0,
    ensures
        applied_after_add(
            applied_after_sub(applied, 1),
            unapplied_after_sub(applied, unapplied, 1),
            1,
        ) == applied,
        unapplied_after_add(unapplied_after_sub(applied, unapplied, 1), 1) == unapplied,
{
    assert(applied_after_add(
        applied_after_sub(applied, 1),
        unapplied_after_sub(applied, unapplied, 1),
        1,
    ) =~= applied);
    assert(unapplied_after_add(unapplied_after_sub(applied, unapplied, 1), 1) =~= unapplied);
}

/// Derives the boundary state from the motion names a driver reports as
/// applied and the known catalog of motions. The names must be an exact,
/// order preserving prefix of the catalog: anything else signals drift the
/// accelerator cannot repair on its own, and is reported with the first
/// offending index. Pure: no driver is touched.
pub fn diff_motions(motion_names: Vec<String>, motions: Vec<Motion>) -> (r: Result<
    State,
    ReconciliationError,
>)
    ensures
        r is Ok <==> is_name_prefix(name_views(motion_names@), motions@),
        r matches Ok(state) ==> {
            &&& state.applied@ == motions@.take(motion_names@.len() as int)
            &&& state.unapplied@ == motions@.skip(motion_names@.len() as int).reverse()
            &&& state.applied@.len() + state.unapplied@.len() == motions@.len()
            &&& catalog_of(state.applied@, state.unapplied@) == motions@
        },
        r matches Err(ReconciliationError::Oversized { records, motions: known }) ==> {
            &&& records == motion_names@.len()
            &&& known == motions@.len()
            &&& motion_names@.len() > motions@.len()
        },
        r matches Err(ReconciliationError::Mismatch { index, expected, actual }) ==> {
            &&& motion_names@.len() <= motions@.len()
            &&& index < motion_names@.len()
            &&& expected@ == motions@[index as int].name@
            &&& actual@ == motion_names@[index as int]@
            &&& expected@ != actual@
            &&& forall|j: int|
                0 <= j < index ==> name_views(motion_names@)[j] == #[trigger] motions@[j].name@
        },
{
    // Make sure we never have more applied records than we have known
    // motions.
    if motion_names.len() > motions.len() {
        return Err(ReconciliationError::Oversized {
            records: motion_names.len(),
            motions: motions.len(),
        });
    }
    // Check that the applied names are exactly the leading motions, in order.
    let mut index: usize = 0;
    while index < motion_names.len()
        invariant
            index <= motion_names@.len() <= motions@.len(),
            forall|j: int|
                0 <= j < index ==> name_views(motion_names@)[j] == #[trigger] motions@[j].name@,
        decreases motion_names@.len() - index,
    {
        if !str_eq(motion_names[index].as_str(), motions[index].name.as_str()) {
            return Err(ReconciliationError::Mismatch {
                index,
                expected: motions[index].name.clone(),
                actual: motion_names[index].clone(),
            });
        }
        index += 1;
    }
    // Split the catalog at the boundary: the leading motions are applied, the
    // rest become the pending stack, reversed so that the earliest pending
    // motion sits on top.
    let boundary = motion_names.len();
    let mut remaining = motions;
    let ghost full = remaining@;
    let mut unapplied: Vec<Motion> = Vec::new();
    while remaining.len() > boundary
        invariant
            boundary <= remaining@.len() <= full.len(),
            remaining@ == full.take(remaining@.len() as int),
            unapplied@ == full.skip(remaining@.len() as int).reverse(),
        decreases remaining@.len(),
    {
        let ghost len_before = remaining@.len() as int;
        let motion = remaining.pop().unwrap();
        unapplied.push(motion);
        proof {
            assert(remaining@ =~= full.take(len_before - 1));
            assert(unapplied@ =~= full.skip(len_before - 1).reverse());
        }
    }
    let state = State { applied: remaining, unapplied };
    proof {
        assert(state.applied@ =~= motions@.take(motion_names@.len() as int));
        assert(catalog_of(state.applied@, state.unapplied@) =~= motions@);
    }
    Ok(state)
}

/// The accelerator owns a driver handle and the boundary state built from it
/// at construction. All movement is a bounded count of single steps across
/// the boundary, each step executing one script through the driver and then
/// recording the motion's new status, in that order.
pub struct Accelerator<D: Driver> {
    pub driver: D,
    pub state: State,
}

impl<D: Driver> Accelerator<D> {
    /// Asks the driver for its applied records and reconciles them against
    /// the given catalog of motions. Fails when the driver cannot report, or
    /// when the records are not an exact prefix of the catalog.
    pub fn new(driver: D, motions: Vec<Motion>) -> (r: Result<Self, AccelerateError>)
        ensures
            r matches Ok(accelerator) ==> {
                &&& accelerator.driver == driver
                &&& catalog_of(accelerator.state.applied@, accelerator.state.unapplied@)
                    == motions@
                &&& exists|k: int|
                    0 <= k <= motions@.len() && accelerator.state.applied@ == motions@.take(k)
                        && accelerator.state.unapplied@ == motions@.skip(k).reverse()
            },
            r matches Err(e) ==> (e is Records || e is Reconciliation),
    {
        let records = match driver.get_records() {
            Ok(records) => records,
            Err(e) => {
                return Err(AccelerateError::Records(e));
            },
        };
        match diff_motions(records, motions) {
            Ok(state) => Ok(Accelerator { driver, state }),
            Err(e) => Err(AccelerateError::Reconciliation(e)),
        }
    }

    /// Moves up to `iterations` pending motions forward across the boundary,
    /// earliest first. Each step executes the motion's add script and then
    /// records it as applied; on either call's failure the whole call stops
    /// at once, keeping the steps already made and leaving the failing motion
    /// pending. Running out of pending motions before `iterations` is not an
    /// error. Returns the count of motions actually applied, and the failure
    /// that stopped the call early, if any.
    pub fn add(&mut self, iterations: usize) -> (r: (usize, Option<AccelerateError>))
        ensures
            ({
                let k = r.0 as int;
                let a = old(self).state.applied@;
                let u = old(self).state.unapplied@;
                &&& k <= iterations as int
                &&& k <= u.len()
                &&& final(self).state.applied@ == applied_after_add(a, u, k)
                &&& final(self).state.unapplied@ == unapplied_after_add(u, k)
                &&& catalog_of(final(self).state.applied@, final(self).state.unapplied@)
                    == catalog_of(a, u)
                &&& r.1 is None ==> k == if iterations as int <= u.len() {
                    iterations as int
                } else {
                    u.len() as int
                }
                &&& match r.1 {
                    None => true,
                    Some(AccelerateError::Execution { name, cause }) => {
                        &&& k < iterations as int
                        &&& k < u.len()
                        &&& name@ == u[u.len() - 1 - k].name@
                    },
                    Some(AccelerateError::Record { name, cause }) => {
                        &&& k < iterations as int
                        &&& k < u.len()
                        &&& name@ == u[u.len() - 1 - k].name@
                    },
                    Some(_) => false,
                }
            }),
    {
        let ghost a = self.state.applied@;
        let ghost u = self.state.unapplied@;
        let mut moved: usize = 0;
        while moved < iterations && self.state.unapplied.len() > 0
            invariant
                a == old(self).state.applied@,
                u == old(self).state.unapplied@,
                moved <= iterations,
                moved <= u.len(),
                self.state.applied@ == applied_after_add(a, u, moved as int),
                self.state.unapplied@ == unapplied_after_add(u, moved as int),
            decreases iterations - moved,
        {
            let next = self.state.unapplied.len() - 1;
            proof {
                assert(self.state.unapplied@[next as int] == u[u.len() - 1 - moved]);
            }
            // Execute the contents of our motion, then record that we did:
            // never the reverse, so that a failure between the two leaves an
            // executed but unrecorded motion rather than the opposite.
            let script = self.state.unapplied[next].add.clone();
            if let Err(cause) = self.driver.execute(script) {
                let name = self.state.unapplied[next].name.clone();
                proof {
                    lemma_add_preserves_catalog(a, u, moved as int);
                }
                return (moved, Some(AccelerateError::Execution { name, cause }));
            }
            let name = self.state.unapplied[next].name.clone();
            if let Err(cause) = self.driver.add_record(name.as_str()) {
                proof {
                    lemma_add_preserves_catalog(a, u, moved as int);
                }
                return (moved, Some(AccelerateError::Record { name, cause }));
            }
            // Update our state to reflect that we have applied this motion.
            let motion = self.state.unapplied.pop().unwrap();
            self.state.applied.push(motion);
            moved += 1;
            proof {
                assert(self.state.applied@ =~= applied_after_add(a, u, moved as int));
                assert(self.state.unapplied@ =~= unapplied_after_add(u, moved as int));
            }
        }
        proof {
            lemma_add_preserves_catalog(a, u, moved as int);
        }
        (moved, None)
    }

    /// Moves up to `iterations` applied motions backward across the
    /// boundary, most recently applied first. Each step executes the
    /// motion's sub script and then removes its record; the failure and
    /// early stop behaviour mirrors `add` exactly.
    pub fn sub(&mut self, iterations: usize) -> (r: (usize, Option<AccelerateError>))
        ensures
            ({
                let k = r.0 as int;
                let a = old(self).state.applied@;
                let u = old(self).state.unapplied@;
                &&& k <= iterations as int
                &&& k <= a.len()
                &&& final(self).state.applied@ == applied_after_sub(a, k)
                &&& final(self).state.unapplied@ == unapplied_after_sub(a, u, k)
                &&& catalog_of(final(self).state.applied@, final(self).state.unapplied@)
                    == catalog_of(a, u)
                &&& r.1 is None ==> k == if iterations as int <= a.len() {
                    iterations as int
                } else {
                    a.len() as int
                }
                &&& match r.1 {
                    None => true,
                    Some(AccelerateError::Execution { name, cause }) => {
                        &&& k < iterations as int
                        &&& k < a.len()
                        &&& name@ == a[a.len() - 1 - k].name@
                    },
                    Some(AccelerateError::Record { name, cause }) => {
                        &&& k < iterations as int
                        &&& k < a.len()
                        &&& name@ == a[a.len() - 1 - k].name@
                    },
                    Some(_) => false,
                }
            }),
    {
        let ghost a = self.state.applied@;
        let ghost u = self.state.unapplied@;
        let mut moved: usize = 0;
        while moved < iterations && self.state.applied.len() > 0
            invariant
                a == old(self).state.applied@,
                u == old(self).state.unapplied@,
                moved <= iterations,
                moved <= a.len(),
                self.state.applied@ == applied_after_sub(a, moved as int),
                self.state.unapplied@ == unapplied_after_sub(a, u, moved as int),
            decreases iterations - moved,
        {
            let next = self.state.applied.len() - 1;
            proof {
                assert(self.state.applied@[next as int] == a[a.len() - 1 - moved]);
            }
            // Execute first, record second, exactly as in `add`.
            let script = self.state.applied[next].sub.clone();
            if let Err(cause) = self.driver.execute(script) {
                let name = self.state.applied[next].name.clone();
                proof {
                    lemma_sub_preserves_catalog(a, u, moved as int);
                }
                return (moved, Some(AccelerateError::Execution { name, cause }));
            }
            let name = self.state.applied[next].name.clone();
            if let Err(cause) = self.driver.sub_record(name.as_str()) {
                proof {
                    lemma_sub_preserves_catalog(a, u, moved as int);
                }
                return (moved, Some(AccelerateError::Record { name, cause }));
            }
            // Update our state to reflect that we have undone this motion.
            let motion = self.state.applied.pop().unwrap();
            self.state.unapplied.push(motion);
            moved += 1;
            proof {
                assert(self.state.applied@ =~= applied_after_sub(a, moved as int));
                assert(self.state.unapplied@ =~= unapplied_after_sub(a, u, moved as int));
            }
        }
        proof {
            lemma_sub_preserves_catalog(a, u, moved as int);
        }
        (moved, None)
    }

    /// The current count of applied motions: the depth of the boundary.
    pub fn applied_count(&self) -> (n: usize)
        ensures
            n == self.state.applied@.len(),
    {
        self.state.applied.len()
    }
}

/// Starts at the driver's current status and executes up to `n` motions in
/// either direction, stopping at the catalog's edge rather than failing.
pub fn shift<D: drivers::Driver>(driver: &mut D, motions: &Vec<Motion>, n: isize) -> (r: Result<
    (),
    D::E,
>)
    requires
        motions@.len() <= isize::MAX as int,
    ensures
        ({
            let len = motions@.len() as int;
            let here = old(driver).status_view() as int;
            let target = clamp_spec(here + n as int, 0, len);
            &&& (r is Ok && clamp_spec(here, 0, len) == target) ==> final(driver).status_view()
                == old(driver).status_view()
            &&& (r is Ok && clamp_spec(here, 0, len) != target) ==> final(driver).status_view() as int == target
        }),
{
    driver.shift(motions, n)
}

/// Executes as many motions as necessary to move the driver from its
/// current status to the given one.
pub fn goto<D: drivers::Driver>(driver: &mut D, motions: &Vec<Motion>, finish: isize) -> (r: Result<
    (),
    D::E,
>)
    requires
        motions@.len() <= isize::MAX as int,
    ensures
        ({
            let len = motions@.len() as int;
            let here = old(driver).status_view() as int;
            let target = clamp_spec(finish as int, 0, len);
            &&& (r is Ok && clamp_spec(here, 0, len) == target) ==> final(driver).status_view()
                == old(driver).status_view()
            &&& (r is Ok && clamp_spec(here, 0, len) != target) ==> final(driver).status_view() as int == target
        }),
{
    driver.goto(motions, finish)
}

/// Subs the last applied motion, then adds it back.
pub fn redo<D: drivers::Driver>(driver: &mut D, motions: &Vec<Motion>) -> (r: Result<(), D::E>)
    requires
        motions@.len() <= isize::MAX as int,
    ensures
        r is Ok ==> final(driver).status_view() as int == redo_status(
            old(driver).status_view() as int,
            motions@.len() as int,
        ),
{
    driver.redo(motions)
}

/// Applies all remaining add motions to the driver.
pub fn up<D: drivers::Driver>(driver: &mut D, motions: &Vec<Motion>) -> (r: Result<(), D::E>)
    requires
        motions@.len() <= isize::MAX as int,
    ensures
        ({
            let len = motions@.len() as int;
            let here = old(driver).status_view() as int;
            &&& (r is Ok && clamp_spec(here, 0, len) == len) ==> final(driver).status_view()
                == old(driver).status_view()
            &&& (r is Ok && clamp_spec(here, 0, len) != len) ==> final(driver).status_view() as int == len
        }),
{
    driver.up(motions)
}

/// Subs all applied motions back out of the driver.
pub fn down<D: drivers::Driver>(driver: &mut D, motions: &Vec<Motion>) -> (r: Result<(), D::E>)
    requires
        motions@.len() <= isize::MAX as int,
    ensures
        ({
            let len = motions@.len() as int;
            let here = old(driver).status_view() as int;
            &&& (r is Ok && clamp_spec(here, 0, len) == 0) ==> final(driver).status_view()
                == old(driver).status_view()
            &&& (r is Ok && clamp_spec(here, 0, len) != 0) ==> final(driver).status_view() as int
                == 0
        }),
{
    driver.down(motions)
}

/// Subs every applied motion and then adds the same count back, restoring
/// the status the driver started from.
pub fn reset<D: drivers::Driver>(driver: &mut D, motions: &Vec<Motion>) -> (r: Result<(), D::E>)
    requires
        motions@.len() <= isize::MAX as int,
    ensures
        ({
            let len = motions@.len() as int;
            let here = old(driver).status_view() as int;
            &&& (r is Ok && clamp_spec(here, 0, len) == 0) ==> final(driver).status_view()
                == old(driver).status_view()
            &&& (r is Ok && clamp_spec(here, 0, len) != 0) ==> final(driver).status_view() as int == clamp_spec(here, 0, len)
        }),
{
    driver.reset(motions)
}

} // verus!
