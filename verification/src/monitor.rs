//! Telemetry records for one GPU.

use vstd::prelude::*;

verus! {

/// Memory of one GPU, in bytes.
#[derive(Clone, Copy, Debug, PartialEq, Eq, Structural)]
pub struct MemoryInfo {
    pub total: u64,
    pub used: u64,
    pub free: u64,
}

/// One telemetry sample of one GPU.
#[derive(Clone, Copy, Debug, PartialEq, Eq, Structural)]
pub struct GpuStats {
    /// Temperature in degrees Celsius.
    pub temperature: u32,
    /// Core utilization in percent.
    pub core_usage: u32,
    pub memory_usage: MemoryInfo,
    /// Power draw in milliwatts.
    pub power_usage: u32,
}

} // verus!
