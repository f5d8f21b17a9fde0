//! Values carried between the agent and the client.
use vstd::prelude::*;

verus! {

/// One mounted disk as the agent reports it.
#[derive(Clone, Debug)]
pub struct DiskInfo {
    pub name: String,
    pub total: u64,
    pub available: u64,
}

/// Cumulative byte counters of one network interface.
#[derive(Clone, Debug)]
pub struct NetworkInfo {
    pub name: String,
    pub received: u64,
    pub transmitted: u64,
}

/// Aggregate byte counters over all interfaces.
#[derive(Clone, Copy, Debug, PartialEq, Eq, Structural)]
pub struct NetTotals {
    pub rx_bytes: u64,
    pub tx_bytes: u64,
}

/// One process row. The CPU share travels as the bit pattern of an
/// IEEE-754 single-precision percentage, exactly as the wire carries it.
#[derive(Clone, Debug)]
pub struct ProcessInfo {
    pub pid: u32,
    pub name: String,
    pub cpu_usage_bits: u32,
    pub mem_bytes: u64,
}

/// Mathematical value of a [`ProcessInfo`].
pub struct ProcessRow {
    pub pid: u32,
    pub name: Seq<char>,
    pub cpu_usage_bits: u32,
    pub mem_bytes: u64,
}

impl View for ProcessInfo {
    type V = ProcessRow;

    open spec fn view(&self) -> ProcessRow {
        ProcessRow {
            pid: self.pid,
            name: self.name@,
            cpu_usage_bits: self.cpu_usage_bits,
            mem_bytes: self.mem_bytes,
        }
    }
}

/// Every process row of one poll, with the number of processes the host had
/// (which may exceed the number of rows).
#[derive(Clone, Debug)]
pub struct ProcessesPayload {
    pub process_count: u64,
    pub top_processes: Vec<ProcessInfo>,
}

/// Mathematical value of a [`ProcessesPayload`].
pub struct ProcessesView {
    pub process_count: u64,
    pub rows: Seq<ProcessRow>,
}

impl View for ProcessesPayload {
    type V = ProcessesView;

    open spec fn view(&self) -> ProcessesView {
        ProcessesView {
            process_count: self.process_count,
            rows: self.top_processes@.map_values(|p: ProcessInfo| p@),
        }
    }
}

/// One GPU reading.
#[derive(Clone, Debug)]
pub struct GpuMetrics {
    pub name: String,
    pub utilization_gpu_pct: u32,
    pub mem_used_bytes: u64,
    pub mem_total_bytes: u64,
}

} // verus!
