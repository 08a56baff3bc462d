//! What is counted: the labels of the operation metrics and the snapshots of
//! the disk counters.

use vstd::prelude::*;

verus! {

/// The operation that a request asks for.
#[derive(Debug, Clone, Copy, PartialEq, Eq, Structural)]
pub enum Operation {
    Get,
    Put,
    Delete,
    Unknown,
}

impl Operation {
    /// The label under which the operation is counted, as a sequence of
    /// characters.
    pub open spec fn name(self) -> Seq<char> {
        match self {
            Operation::Get => "get"@,
            Operation::Put => "put"@,
            Operation::Delete => "delete"@,
            Operation::Unknown => "unknown"@,
        }
    }

    /// The label under which the operation is counted.
    pub fn label(&self) -> (s: &'static str)
        ensures
            s@ == self.name(),
    {
        match self {
            Operation::Get => "get",
            Operation::Put => "put",
            Operation::Delete => "delete",
            Operation::Unknown => "unknown",
        }
    }
}

/// How a request ended.
#[derive(Debug, Clone, Copy, PartialEq, Eq, Structural)]
pub enum Outcome {
    Success,
    NotFound,
    Failure,
    Redirect,
}

impl Outcome {
    /// The label under which the outcome is counted, as a sequence of
    /// characters.
    pub open spec fn name(self) -> Seq<char> {
        match self {
            Outcome::Success => "ok"@,
            Outcome::NotFound => "not_found"@,
            Outcome::Failure => "error"@,
            Outcome::Redirect => "redirect"@,
        }
    }

    /// The label under which the outcome is counted.
    pub fn label(&self) -> (s: &'static str)
        ensures
            s@ == self.name(),
    {
        match self {
            Outcome::Success => "ok",
            Outcome::NotFound => "not_found",
            Outcome::Failure => "error",
            Outcome::Redirect => "redirect",
        }
    }
}

/// The direction of disk traffic.
#[derive(Debug, Clone, Copy, PartialEq, Eq, Structural)]
pub enum IoOperation {
    Read,
    Write,
    Flush,
}

impl IoOperation {
    /// The label under which the traffic is counted, as a sequence of
    /// characters.
    pub open spec fn name(self) -> Seq<char> {
        match self {
            IoOperation::Read => "read"@,
            IoOperation::Write => "write"@,
            IoOperation::Flush => "flush"@,
        }
    }

    /// The label under which the traffic is counted.
    pub fn label(&self) -> (s: &'static str)
        ensures
            s@ == self.name(),
    {
        match self {
            IoOperation::Read => "read",
            IoOperation::Write => "write",
            IoOperation::Flush => "flush",
        }
    }
}

/// The labels of the request metrics.
pub struct OperationMetrics;

impl OperationMetrics {
    /// The two labels of one request: its operation and its outcome, each
    /// under its key.
    pub fn operation_labels(operation: Operation, status: Outcome) -> (r: [(&'static str, &'static str); 2])
        ensures
            r[0].0@ == "operation"@,
            r[0].1@ == operation.name(),
            r[1].0@ == "status"@,
            r[1].1@ == status.name(),
    {
        [("operation", operation.label()), ("status", status.label())]
    }
}

/// The labels of the disk metrics.
pub struct StorageIOMetrics;

impl StorageIOMetrics {
    /// The label of one direction of disk traffic, under its key.
    pub fn operation_labels(operation: IoOperation) -> (r: [(&'static str, &'static str); 1])
        ensures
            r[0].0@ == "operation"@,
            r[0].1@ == operation.name(),
    {
        [("operation", operation.label())]
    }
}

/// The disk counters of the cache engine at one moment. The counters only
/// grow while the engine lives.
#[derive(Debug, Clone, Copy, PartialEq, Eq, Structural, Default)]
pub struct MetricsSnapshot {
    pub disk_read_bytes: u64,
    pub disk_write_bytes: u64,
    pub disk_read_ios: u64,
    pub disk_write_ios: u64,
}

impl MetricsSnapshot {
    /// No counter of `self` is below that of `other`.
    pub open spec fn covers(&self, other: &MetricsSnapshot) -> bool {
        &&& self.disk_read_bytes >= other.disk_read_bytes
        &&& self.disk_write_bytes >= other.disk_write_bytes
        &&& self.disk_read_ios >= other.disk_read_ios
        &&& self.disk_write_ios >= other.disk_write_ios
    }

    /// By how much each counter grew since `other` was taken.
    pub fn difference(&self, other: &MetricsSnapshot) -> (d: MetricsSnapshot)
        requires
            self.covers(other),
        ensures
            d.disk_read_bytes == self.disk_read_bytes - other.disk_read_bytes,
            d.disk_write_bytes == self.disk_write_bytes - other.disk_write_bytes,
            d.disk_read_ios == self.disk_read_ios - other.disk_read_ios,
            d.disk_write_ios == self.disk_write_ios - other.disk_write_ios,
    {
        MetricsSnapshot {
            disk_read_bytes: self.disk_read_bytes - other.disk_read_bytes,
            disk_write_bytes: self.disk_write_bytes - other.disk_write_bytes,
            disk_read_ios: self.disk_read_ios - other.disk_read_ios,
            disk_write_ios: self.disk_write_ios - other.disk_write_ios,
        }
    }
}

/// What one run of the reporter records.
#[derive(Debug, Clone, Copy, PartialEq, Eq, Structural)]
pub struct StorageReport {
    /// The gauge of the bytes in use.
    pub used: u64,
    /// The gauge of the capacity.
    pub capacity: u64,
    /// What is added to the byte and the count counters, by direction.
    pub read_bytes: u64,
    pub write_bytes: u64,
    pub read_ios: u64,
    pub write_ios: u64,
}

/// What the reporter records for an engine of `capacity` bytes whose counters
/// stand at `current` and stood at `previous` at the last run, or `None`
/// where a counter fell in between. The engine reserves its whole capacity on
/// disk, so the bytes in use are the capacity.
pub fn storage_report(capacity: u64, current: &MetricsSnapshot, previous: &MetricsSnapshot) -> (r:
    Option<StorageReport>)
    ensures
        r is Some <==> current.covers(previous),
        r matches Some(rep) ==> {
            &&& rep.used == capacity
            &&& rep.capacity == capacity
            &&& rep.read_bytes == current.disk_read_bytes - previous.disk_read_bytes
            &&& rep.write_bytes == current.disk_write_bytes - previous.disk_write_bytes
            &&& rep.read_ios == current.disk_read_ios - previous.disk_read_ios
            &&& rep.write_ios == current.disk_write_ios - previous.disk_write_ios
        },
{
    if current.disk_read_bytes >= previous.disk_read_bytes && current.disk_write_bytes
        >= previous.disk_write_bytes && current.disk_read_ios >= previous.disk_read_ios
        && current.disk_write_ios >= previous.disk_write_ios {
        let d = current.difference(previous);
        Some(
            StorageReport {
                used: capacity,
                capacity,
                read_bytes: d.disk_read_bytes,
                write_bytes: d.disk_write_bytes,
                read_ios: d.disk_read_ios,
                write_ios: d.disk_write_ios,
            },
        )
    } else {
        None
    }
}

} // verus!
