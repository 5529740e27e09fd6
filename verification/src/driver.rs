//! The record keeping interface the accelerator drives. Anything which can
//! durably remember which motions are applied, execute a script, and report
//! the applied records in catalog order may stand behind it.

use vstd::prelude::*;
use crate::error::CustomError;
use crate::text::str_eq;

verus! {

/// A driver is anything which may be accelerated, for example a relational
/// database. It executes scripts and keeps the durable ledger of applied
/// motion names.
///
/// Implementations outside this crate (a real database client) are free to
/// fail any of these calls; the accelerator states what holds of its own
/// state whatever a driver call returns.
pub trait Driver {
    /// The names the driver currently records as applied, reported in the
    /// same ascending order as the catalog. Sorting is the driver's
    /// responsibility, not the accelerator's.
    fn get_records(&self) -> Result<Vec<String>, CustomError>;

    /// Durably records that the named motion is applied.
    fn add_record(&mut self, record: &str) -> Result<(), CustomError>;

    /// Durably removes the record for the named motion. Must fail rather than
    /// silently do nothing when the name was never recorded.
    fn sub_record(&mut self, record: &str) -> Result<(), CustomError>;

    /// Executes a script. Does not discriminate based on the add or sub
    /// operation.
    fn execute(&mut self, transaction: String) -> Result<(), CustomError>;
}

/// An in-memory driver that remembers every record and every executed script,
/// in order. It never fails an execution and fails `sub_record` exactly when
/// the record is absent.
#[derive(Debug)]
pub struct TestDriver {
    pub records: Vec<String>,
    pub executions: Vec<String>,
}

impl Driver for TestDriver {
    fn get_records(&self) -> Result<Vec<String>, CustomError> {
        let mut out: Vec<String> = Vec::new();
        let mut i: usize = 0;
        while i < self.records.len()
            invariant
                i <= self.records@.len(),
                out@.len() == i,
                forall|j: int| 0 <= j < i ==> out@[j]@ == self.records@[j]@,
            decreases self.records@.len() - i,
        {
            out.push(self.records[i].clone());
            i += 1;
        }
        Ok(out)
    }

    fn add_record(&mut self, record: &str) -> Result<(), CustomError> {
        self.records.push(record.to_owned());
        Ok(())
    }

    fn sub_record(&mut self, record: &str) -> Result<(), CustomError> {
        let mut i: usize = 0;
        while i < self.records.len()
            invariant
                i <= self.records@.len(),
            decreases self.records@.len() - i,
        {
            if str_eq(self.records[i].as_str(), record) {
                self.records.remove(i);
                return Ok(());
            }
            i += 1;
        }
        Err(CustomError::new("the record was never applied, so it cannot be removed"))
    }

    fn execute(&mut self, transaction: String) -> Result<(), CustomError> {
        self.executions.push(transaction);
        Ok(())
    }
}

} // verus!
