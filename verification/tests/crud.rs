use core::time::Duration;
use grapple_db::crud::{CrudParams, CrudStatement};
use scylla::statement::Consistency;

#[derive(Debug, Clone, PartialEq, Eq, Default)]
struct RecordedStatement {
    consistency: Option<Consistency>,
    timeout_calls: Vec<Option<Duration>>,
    timestamp: Option<Option<i64>>,
}

impl CrudStatement for RecordedStatement {
    fn with_consistency(mut self, consistency: Consistency) -> Self {
        self.consistency = Some(consistency);
        self
    }

    fn with_timeout(mut self, timeout: Option<Duration>) -> Self {
        self.timeout_calls.push(timeout);
        self
    }

    fn with_timestamp(mut self, timestamp: Option<i64>) -> Self {
        self.timestamp = Some(timestamp);
        self
    }
}

#[test]
fn default_params() {
    let params = CrudParams::default();
    assert_eq!(params.consistency, Consistency::LocalQuorum);
    assert!(params.timeout.is_none());
    assert!(params.timestamp.is_none());
}

#[test]
fn apply_query_sets_all_three() {
    let params = CrudParams {
        consistency: Consistency::Quorum,
        timeout: Some(Duration::from_secs(5)),
        timestamp: Some(1625078400),
    };
    let statement = params.apply_query(RecordedStatement::default());
    assert_eq!(statement.consistency, Some(Consistency::Quorum));
    assert_eq!(statement.timeout_calls, vec![Some(Duration::from_secs(5))]);
    assert_eq!(statement.timestamp, Some(Some(1625078400)));
}

#[test]
fn apply_query_passes_absent_options_through() {
    let params = CrudParams {
        consistency: Consistency::One,
        timeout: None,
        timestamp: None,
    };
    let statement = params.apply_query(RecordedStatement::default());
    assert_eq!(statement.consistency, Some(Consistency::One));
    assert_eq!(statement.timeout_calls, vec![None]);
    assert_eq!(statement.timestamp, Some(None));
}

#[test]
fn apply_batch_sets_consistency_and_timestamp_only() {
    let params = CrudParams {
        consistency: Consistency::All,
        timeout: Some(Duration::from_secs(9)),
        timestamp: Some(42),
    };
    let statement = params.apply_batch(RecordedStatement::default());
    assert_eq!(statement.consistency, Some(Consistency::All));
    assert!(statement.timeout_calls.is_empty());
    assert_eq!(statement.timestamp, Some(Some(42)));
}

#[test]
fn params_clone_keeps_fields() {
    let params = CrudParams {
        consistency: Consistency::Two,
        timeout: Some(Duration::from_millis(250)),
        timestamp: Some(-7),
    };
    let copy = params.clone();
    assert_eq!(copy.consistency, Consistency::Two);
    assert_eq!(copy.timeout, Some(Duration::from_millis(250)));
    assert_eq!(copy.timestamp, Some(-7));
}
