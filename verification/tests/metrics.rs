use percas::metrics::{
    storage_report, IoOperation, MetricsSnapshot, Operation, OperationMetrics, Outcome,
    StorageIOMetrics,
};

#[test]
fn labels() {
    assert_eq!(Operation::Get.label(), "get");
    assert_eq!(Operation::Put.label(), "put");
    assert_eq!(Operation::Delete.label(), "delete");
    assert_eq!(Operation::Unknown.label(), "unknown");
    assert_eq!(Outcome::Success.label(), "ok");
    assert_eq!(Outcome::NotFound.label(), "not_found");
    assert_eq!(Outcome::Failure.label(), "error");
    assert_eq!(Outcome::Redirect.label(), "redirect");
    assert_eq!(IoOperation::Read.label(), "read");
    assert_eq!(IoOperation::Write.label(), "write");
    assert_eq!(IoOperation::Flush.label(), "flush");
    assert_eq!(
        OperationMetrics::operation_labels(Operation::Put, Outcome::Redirect),
        [("operation", "put"), ("status", "redirect")]
    );
    assert_eq!(
        StorageIOMetrics::operation_labels(IoOperation::Write),
        [("operation", "write")]
    );
}

#[test]
fn difference_is_fieldwise() {
    let now = MetricsSnapshot {
        disk_read_bytes: 100,
        disk_write_bytes: 50,
        disk_read_ios: 7,
        disk_write_ios: 3,
    };
    let before = MetricsSnapshot {
        disk_read_bytes: 40,
        disk_write_bytes: 50,
        disk_read_ios: 2,
        disk_write_ios: 0,
    };
    assert_eq!(
        now.difference(&before),
        MetricsSnapshot {
            disk_read_bytes: 60,
            disk_write_bytes: 0,
            disk_read_ios: 5,
            disk_write_ios: 3,
        }
    );
    assert_eq!(now.difference(&MetricsSnapshot::default()), now);
}

#[test]
fn report_takes_the_capacity_for_the_bytes_in_use() {
    let now = MetricsSnapshot {
        disk_read_bytes: 100,
        disk_write_bytes: 50,
        disk_read_ios: 7,
        disk_write_ios: 3,
    };
    let before = MetricsSnapshot {
        disk_read_bytes: 40,
        disk_write_bytes: 20,
        disk_read_ios: 2,
        disk_write_ios: 1,
    };
    let r = storage_report(1 << 30, &now, &before).unwrap();
    assert_eq!(r.used, 1 << 30);
    assert_eq!(r.capacity, 1 << 30);
    assert_eq!((r.read_bytes, r.write_bytes, r.read_ios, r.write_ios), (60, 30, 5, 2));
    assert!(storage_report(1, &before, &now).is_none());
}
