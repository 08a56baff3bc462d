//! How the cache engine is set up.
//!
//! The engine is a hybrid cache: a memory tier in front of a disk tier that
//! takes what the memory tier evicts. This module decides the numbers that
//! the engine is built with; the engine itself runs outside.

use vstd::prelude::*;

verus! {

/// The size of a block of the disk tier: 64 MiB.
pub const DEFAULT_BLOCK_SIZE: u64 = 67_108_864;

/// The number of background workers that write blocks out.
pub const DEFAULT_FLUSHERS: usize = 4;

/// The least number of shards of the memory tier.
pub const MIN_SHARDS: usize = 32;

/// Bytes per second and core of the default throttle (about 1.5 Gbps).
pub const DEFAULT_THROUGHPUT_PER_CORE: usize = 187_500_000;

/// I/O operations per second and core of the default throttle.
pub const IOPS_PER_CORE: usize = 10_000;

/// Why the engine could not be built.
#[derive(Debug)]
pub struct EngineError(pub String);

impl EngineError {
    /// The message of the error.
    pub fn to_string(&self) -> (s: String)
        ensures
            s@ == self.0@,
    {
        self.0.clone()
    }
}

/// How the device counts I/O operations against its quota.
#[derive(Debug, Clone, Copy, PartialEq, Eq, Structural)]
pub enum IopsCounter {
    /// One operation for each read or write.
    PerIo,
    /// One operation for each `size` bytes of a read or write.
    PerIoSize { size: usize },
}

/// The throttle of the disk device. A limit that is absent does not bind.
#[derive(Debug, Clone, Copy, PartialEq, Eq, Structural)]
pub struct DiskThrottle {
    /// The most write operations per second.
    pub write_iops: Option<usize>,
    /// The most read operations per second.
    pub read_iops: Option<usize>,
    /// The most bytes written per second.
    pub write_throughput: Option<usize>,
    /// The most bytes read per second.
    pub read_throughput: Option<usize>,
    /// How operations are counted.
    pub iops_counter: IopsCounter,
}

impl DiskThrottle {
    /// Every limit that is present is positive.
    pub open spec fn wf(&self) -> bool {
        &&& self.write_iops matches Some(n) ==> n > 0
        &&& self.read_iops matches Some(n) ==> n > 0
        &&& self.write_throughput matches Some(n) ==> n > 0
        &&& self.read_throughput matches Some(n) ==> n > 0
        &&& self.iops_counter matches IopsCounter::PerIoSize { size } ==> size > 0
    }
}

/// Bytes of memory that are left to the system: 128 MiB.
pub const RESERVED_MEMORY: usize = 134_217_728;

/// The memory that a node may plan with on a machine, or in a control group,
/// of `total` bytes: all but the reserve, and never less than the reserve.
pub fn available_memory(total: usize) -> (r: usize)
    ensures
        r == if total >= 2 * RESERVED_MEMORY {
            total - RESERVED_MEMORY
        } else {
            RESERVED_MEMORY as int
        },
{
    if total >= RESERVED_MEMORY && total - RESERVED_MEMORY >= RESERVED_MEMORY {
        total - RESERVED_MEMORY
    } else {
        RESERVED_MEMORY
    }
}

/// The memory that the memory tier may use of a budget of `memory_capacity`
/// bytes: half of it, the rest being left to the page cache and to request
/// buffers.
pub fn effective_memory_capacity(memory_capacity: u64) -> (r: u64)
    ensures
        r == memory_capacity / 2,
{
    memory_capacity / 2
}

/// The number of shards of the memory tier on a machine with `parallelism`
/// cores.
pub fn shard_count(parallelism: usize) -> (r: usize)
    ensures
        r == if parallelism >= MIN_SHARDS {
            parallelism
        } else {
            MIN_SHARDS
        },
{
    if parallelism >= MIN_SHARDS {
        parallelism
    } else {
        MIN_SHARDS
    }
}

/// The throttle of a machine with `cores` cores where none is configured:
/// each core adds its share of throughput and of operations, a quarter of
/// each goes to writes and the rest to reads.
pub fn default_disk_throttle(cores: usize) -> (t: DiskThrottle)
    requires
        cores >= 1,
        cores * DEFAULT_THROUGHPUT_PER_CORE <= usize::MAX,
    ensures
        t.wf(),
        t.write_throughput == Some(((cores * DEFAULT_THROUGHPUT_PER_CORE) / 4) as usize),
        t.read_throughput == Some(
            (cores * DEFAULT_THROUGHPUT_PER_CORE - (cores * DEFAULT_THROUGHPUT_PER_CORE) / 4) as usize,
        ),
        t.write_iops == Some(((cores * IOPS_PER_CORE) / 4) as usize),
        t.read_iops == Some((cores * IOPS_PER_CORE - (cores * IOPS_PER_CORE) / 4) as usize),
        t.iops_counter == IopsCounter::PerIo,
{
    assert(cores * IOPS_PER_CORE <= cores * DEFAULT_THROUGHPUT_PER_CORE) by (nonlinear_arith)
        requires
            cores >= 1,
    ;
    assert(cores * DEFAULT_THROUGHPUT_PER_CORE >= DEFAULT_THROUGHPUT_PER_CORE) by (nonlinear_arith)
        requires
            cores >= 1,
    ;
    assert(cores * IOPS_PER_CORE >= IOPS_PER_CORE) by (nonlinear_arith)
        requires
            cores >= 1,
    ;
    let throughput: usize = DEFAULT_THROUGHPUT_PER_CORE * cores;
    let write_throughput_quota: usize = throughput / 4;
    let read_throughput_quota: usize = throughput - write_throughput_quota;
    let iops: usize = IOPS_PER_CORE * cores;
    let write_iops_quota: usize = iops / 4;
    let read_iops_quota: usize = iops - write_iops_quota;
    assert(throughput == cores * DEFAULT_THROUGHPUT_PER_CORE) by (nonlinear_arith)
        requires
            throughput == DEFAULT_THROUGHPUT_PER_CORE * cores,
    ;
    assert(iops == cores * IOPS_PER_CORE) by (nonlinear_arith)
        requires
            iops == IOPS_PER_CORE * cores,
    ;
    DiskThrottle {
        write_iops: Some(write_iops_quota),
        read_iops: Some(read_iops_quota),
        write_throughput: Some(write_throughput_quota),
        read_throughput: Some(read_throughput_quota),
        iops_counter: IopsCounter::PerIo,
    }
}

/// The numbers that the engine is built with.
#[derive(Debug, Clone, Copy, PartialEq, Eq, Structural)]
pub struct EnginePlan {
    /// Bytes of the memory tier.
    pub memory_capacity: u64,
    /// Bytes reserved on disk; the capacity that the engine reports.
    pub disk_capacity: u64,
    /// The throttle of the disk device.
    pub throttle: DiskThrottle,
    /// Shards of the memory tier.
    pub shards: usize,
    /// Blocks that are read in parallel when the disk tier recovers.
    pub recover_concurrency: usize,
    /// Bytes per block of the disk tier.
    pub block_size: u64,
    /// Background workers that write blocks out.
    pub flushers: usize,
}

/// Plans an engine with a budget of `memory_capacity` bytes of memory and
/// `disk_capacity` bytes of disk on a machine with `cores` cores. A throttle
/// that is configured is taken as it is; without one the default throttle of
/// the machine applies.
pub fn plan_engine(
    memory_capacity: u64,
    disk_capacity: u64,
    disk_throttle: Option<DiskThrottle>,
    cores: usize,
) -> (plan: EnginePlan)
    requires
        cores >= 1,
        cores * DEFAULT_THROUGHPUT_PER_CORE <= usize::MAX,
    ensures
        plan.memory_capacity == memory_capacity / 2,
        plan.disk_capacity == disk_capacity,
        plan.shards == if cores >= MIN_SHARDS {
            cores
        } else {
            MIN_SHARDS
        },
        plan.recover_concurrency == cores,
        plan.block_size == DEFAULT_BLOCK_SIZE,
        plan.flushers == DEFAULT_FLUSHERS,
        match disk_throttle {
            Some(t) => plan.throttle == t,
            None => {
                &&& plan.throttle.wf()
                &&& plan.throttle.write_throughput == Some(
                    ((cores * DEFAULT_THROUGHPUT_PER_CORE) / 4) as usize,
                )
                &&& plan.throttle.read_throughput == Some(
                    (cores * DEFAULT_THROUGHPUT_PER_CORE - (cores * DEFAULT_THROUGHPUT_PER_CORE)
                        / 4) as usize,
                )
                &&& plan.throttle.write_iops == Some(((cores * IOPS_PER_CORE) / 4) as usize)
                &&& plan.throttle.read_iops == Some(
                    (cores * IOPS_PER_CORE - (cores * IOPS_PER_CORE) / 4) as usize,
                )
                &&& plan.throttle.iops_counter == IopsCounter::PerIo
            },
        },
{
    let throttle: DiskThrottle = match disk_throttle {
        Some(t) => t,
        None => default_disk_throttle(cores),
    };
    EnginePlan {
        memory_capacity: effective_memory_capacity(memory_capacity),
        disk_capacity,
        throttle,
        shards: shard_count(cores),
        recover_concurrency: cores,
        block_size: DEFAULT_BLOCK_SIZE,
        flushers: DEFAULT_FLUSHERS,
    }
}

/// What a `get` returns for what the cache read: the value, or nothing where
/// there is none or the disk failed.
pub fn get_outcome(read: Result<Option<Vec<u8>>, EngineError>) -> (r: Option<Vec<u8>>)
    ensures
        r == match read {
            Ok(found) => found,
            Err(_) => None,
        },
{
    match read {
        Ok(found) => found,
        Err(_) => None,
    }
}

} // verus!
