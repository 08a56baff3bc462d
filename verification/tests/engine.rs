use percas::engine::{
    available_memory, default_disk_throttle, effective_memory_capacity, get_outcome, plan_engine,
    shard_count, DiskThrottle, EngineError, IopsCounter,
};

#[test]
fn memory_budget_is_halved() {
    assert_eq!(effective_memory_capacity(512 * 1024), 256 * 1024);
    assert_eq!(effective_memory_capacity(7), 3);
    assert_eq!(effective_memory_capacity(0), 0);
    assert_eq!(effective_memory_capacity(u64::MAX), u64::MAX / 2);
}

#[test]
fn at_least_thirty_two_shards() {
    assert_eq!(shard_count(1), 32);
    assert_eq!(shard_count(32), 32);
    assert_eq!(shard_count(33), 33);
    assert_eq!(shard_count(128), 128);
}

#[test]
fn default_throttle_splits_a_quarter_to_writes() {
    let t = default_disk_throttle(1);
    assert_eq!(t.write_throughput, Some(46_875_000));
    assert_eq!(t.read_throughput, Some(140_625_000));
    assert_eq!(t.write_iops, Some(2_500));
    assert_eq!(t.read_iops, Some(7_500));
    assert_eq!(t.iops_counter, IopsCounter::PerIo);
    let t = default_disk_throttle(3);
    assert_eq!(t.write_throughput, Some(140_625_000));
    assert_eq!(t.read_throughput, Some(421_875_000));
    assert_eq!(t.write_iops, Some(7_500));
    assert_eq!(t.read_iops, Some(22_500));
}

#[test]
fn plan_of_an_engine() {
    let plan = plan_engine(512 * 1024, 1024 * 1024, None, 8);
    assert_eq!(plan.memory_capacity, 256 * 1024);
    assert_eq!(plan.disk_capacity, 1024 * 1024);
    assert_eq!(plan.shards, 32);
    assert_eq!(plan.recover_concurrency, 8);
    assert_eq!(plan.block_size, 64 * 1024 * 1024);
    assert_eq!(plan.flushers, 4);
    assert_eq!(plan.throttle, default_disk_throttle(8));
    let configured = DiskThrottle {
        write_iops: Some(10),
        read_iops: None,
        write_throughput: None,
        read_throughput: Some(1000),
        iops_counter: IopsCounter::PerIoSize { size: 4096 },
    };
    let plan = plan_engine(0, 5, Some(configured), 64);
    assert_eq!(plan.throttle, configured);
    assert_eq!(plan.shards, 64);
    assert_eq!(plan.memory_capacity, 0);
}

#[test]
fn a_failed_read_is_a_miss() {
    assert_eq!(get_outcome(Ok(Some(b"bar".to_vec()))), Some(vec![98, 97, 114]));
    assert_eq!(get_outcome(Ok(None)), None);
    assert_eq!(get_outcome(Err(EngineError("disk".to_string()))), None);
    assert_eq!(EngineError("disk".to_string()).to_string(), "disk");
}

#[test]
fn memory_to_plan_with() {
    let reserve = 128 * 1024 * 1024;
    assert_eq!(available_memory(1024 * 1024 * 1024), 896 * 1024 * 1024);
    assert_eq!(available_memory(2 * reserve), reserve);
    assert_eq!(available_memory(2 * reserve - 1), reserve);
    assert_eq!(available_memory(reserve), reserve);
    assert_eq!(available_memory(0), reserve);
}
