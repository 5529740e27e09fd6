use accelerate::accelerator::{AccelerateError, Accelerator, State};
use accelerate::catalog::Motion;
use accelerate::driver::Driver;
use accelerate::error::CustomError;

fn motion(name: &str, add: &str, sub: &str) -> Motion {
    Motion {
        name: name.to_string(),
        version: vec![],
        extension: String::new(),
        add: add.to_string(),
        sub: sub.to_string(),
    }
}

fn catalog() -> Vec<Motion> {
    vec![
        motion("123456-foo", "foo+\n", "foo-\n"),
        motion("234567-bar", "bar+\n", "bar-\n"),
        motion("345678-baz", "baz+\n", "baz-\n"),
    ]
}

/// A driver whose executions start failing after a set number of scripts.
struct FlakyDriver {
    records: Vec<String>,
    executions: Vec<String>,
    successes_left: usize,
}

impl Driver for FlakyDriver {
    fn get_records(&self) -> Result<Vec<String>, CustomError> {
        Ok(self.records.clone())
    }

    fn add_record(&mut self, record: &str) -> Result<(), CustomError> {
        self.records.push(record.to_string());
        Ok(())
    }

    fn sub_record(&mut self, record: &str) -> Result<(), CustomError> {
        match self.records.iter().position(|r| r == record) {
            Some(index) => {
                self.records.remove(index);
                Ok(())
            }
            None => Err(CustomError::new("the record was never applied")),
        }
    }

    fn execute(&mut self, transaction: String) -> Result<(), CustomError> {
        if self.successes_left == 0 {
            return Err(CustomError::new("the script failed"));
        }
        self.successes_left -= 1;
        self.executions.push(transaction);
        Ok(())
    }
}

/// A driver that executes scripts but cannot write its ledger.
struct ReadOnlyDriver {
    records: Vec<String>,
    executions: Vec<String>,
}

impl Driver for ReadOnlyDriver {
    fn get_records(&self) -> Result<Vec<String>, CustomError> {
        Ok(self.records.clone())
    }

    fn add_record(&mut self, _record: &str) -> Result<(), CustomError> {
        Err(CustomError::new("the ledger is read only"))
    }

    fn sub_record(&mut self, _record: &str) -> Result<(), CustomError> {
        Err(CustomError::new("the ledger is read only"))
    }

    fn execute(&mut self, transaction: String) -> Result<(), CustomError> {
        self.executions.push(transaction);
        Ok(())
    }
}

/// A driver that cannot even report its records.
struct DeafDriver;

impl Driver for DeafDriver {
    fn get_records(&self) -> Result<Vec<String>, CustomError> {
        Err(CustomError::new("the ledger cannot be read"))
    }

    fn add_record(&mut self, _record: &str) -> Result<(), CustomError> {
        Ok(())
    }

    fn sub_record(&mut self, _record: &str) -> Result<(), CustomError> {
        Ok(())
    }

    fn execute(&mut self, _transaction: String) -> Result<(), CustomError> {
        Ok(())
    }
}

#[test]
fn test_failing_script_stops_the_call() {
    let driver = FlakyDriver { records: vec![], executions: vec![], successes_left: 1 };
    let mut accelerator = Accelerator::new(driver, catalog()).unwrap();
    let (count, error) = accelerator.add(3);
    // The second script fails: exactly one motion moved, the second stayed
    // pending, and the error names it.
    assert_eq!(count, 1);
    match error {
        Some(AccelerateError::Execution { name, .. }) => {
            assert_eq!(name, "234567-bar".to_string());
        }
        other => panic!("expected an execution failure, found {:?}", other),
    }
    assert_eq!(accelerator.driver.executions, vec!["foo+\n".to_string()]);
    assert_eq!(accelerator.driver.records, vec!["123456-foo".to_string()]);
    assert_eq!(accelerator.applied_count(), 1);
    assert_eq!(accelerator.state.unapplied.len(), 2);
    assert_eq!(accelerator.state.unapplied[1].name, "234567-bar".to_string());
}

#[test]
fn test_failing_record_keeps_motion_pending() {
    let driver = ReadOnlyDriver { records: vec![], executions: vec![] };
    let mut accelerator = Accelerator::new(driver, catalog()).unwrap();
    let (count, error) = accelerator.add(2);
    assert_eq!(count, 0);
    match error {
        Some(AccelerateError::Record { name, .. }) => {
            assert_eq!(name, "123456-foo".to_string());
        }
        other => panic!("expected a record failure, found {:?}", other),
    }
    // The script ran, the ledger did not move, and the boundary kept the
    // motion pending: the one step where the two may disagree.
    assert_eq!(accelerator.driver.executions, vec!["foo+\n".to_string()]);
    assert_eq!(accelerator.applied_count(), 0);
    assert_eq!(accelerator.state.unapplied.len(), 3);
}

#[test]
fn test_failing_recede_script() {
    let driver = FlakyDriver {
        records: vec![
            "123456-foo".to_string(),
            "234567-bar".to_string(),
            "345678-baz".to_string(),
        ],
        executions: vec![],
        successes_left: 1,
    };
    let mut accelerator = Accelerator::new(driver, catalog()).unwrap();
    let (count, error) = accelerator.sub(3);
    assert_eq!(count, 1);
    match error {
        Some(AccelerateError::Execution { name, .. }) => {
            assert_eq!(name, "234567-bar".to_string());
        }
        other => panic!("expected an execution failure, found {:?}", other),
    }
    assert_eq!(accelerator.driver.executions, vec!["baz-\n".to_string()]);
    assert_eq!(accelerator.applied_count(), 2);
}

#[test]
fn test_unreadable_ledger_fails_construction() {
    let result = Accelerator::new(DeafDriver, catalog());
    assert!(matches!(result, Err(AccelerateError::Records(_))));
}

#[test]
fn test_sub_record_refuses_unknown_name() {
    let mut driver = FlakyDriver { records: vec![], executions: vec![], successes_left: 10 };
    assert!(driver.sub_record("123456-foo").is_err());
}

#[test]
fn test_state_composition_survives_failures() {
    let driver = FlakyDriver { records: vec![], executions: vec![], successes_left: 2 };
    let mut accelerator = Accelerator::new(driver, catalog()).unwrap();
    let (_, error) = accelerator.add(3);
    assert!(error.is_some());
    // The catalog the boundary stands for never changes: applied followed
    // by reversed pending is the original catalog.
    let mut rebuilt = accelerator.state.applied.clone();
    let mut pending = accelerator.state.unapplied.clone();
    pending.reverse();
    rebuilt.extend(pending);
    assert_eq!(rebuilt, catalog());
}

#[test]
fn test_custom_error_message() {
    let error = CustomError::new("something broke");
    assert_eq!(error.message(), "something broke");
    let State { applied, unapplied } = State { applied: vec![], unapplied: vec![] };
    assert!(applied.is_empty() && unapplied.is_empty());
}
