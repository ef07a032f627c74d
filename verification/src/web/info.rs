//! What the controller tells the console of its workers, its peers and its jobs.

use vstd::prelude::*;

use crate::model::JobStatus;

verus! {

/// A worker as the controller describes it.
pub struct WorkerInfo {
    pub id: String,
    pub hostname: String,
    pub ip_address: String,
    pub os_name: String,
    pub online: bool,
    pub total_cores: usize,
    pub available_cores: usize,
    /// In bytes.
    pub total_memory: u64,
    /// In bytes.
    pub used_memory: u64,
    /// In megabytes.
    pub allocated_memory: u64,
    pub net_rx_rate: u64,
    pub net_tx_rate: u64,
    pub disk_read_rate: u64,
    pub disk_write_rate: u64,
    pub disk_total: u64,
    pub disk_free: u64,
    pub swap_total: u64,
    pub swap_free: u64,
    pub process_count: u32,
    pub uptime: u64,
    pub controller_id: Option<String>,
    /// How many devices of each kind the worker has.
    pub gres: Vec<(String, u64)>,
    /// The share of its processors in use, in percent and without a fraction, as text.
    pub cpu_percent: String,
}

/// A controller of the cluster.
pub struct ControllerInfo {
    pub hostname: String,
    pub role: String,
    pub online: bool,
}

/// The container that a job runs in.
pub struct ContainerRef {
    pub id: String,
    pub name: String,
}

/// What a job sent through MPI.
pub struct MpiStats {
    pub send_calls: u64,
    pub send_bytes: u64,
    /// The longest time spent on it, in seconds with six digits behind the point.
    pub send_time_secs: String,
}

/// A job as the controller describes it.
pub struct JobInfo {
    pub id: u64,
    pub status: JobStatus,
    pub user_id: String,
    pub job_name: Option<String>,
    pub job_comment: Option<String>,
    pub binary: String,
    pub args: Vec<String>,
    pub req_nodes: usize,
    pub req_cores: u32,
    pub req_memory: u64,
    pub walltime: u64,
    pub priority: u32,
    pub working_directory: String,
    pub queued_time: u64,
    pub start_time: Option<u64>,
    pub end_time: Option<u64>,
    pub array_id: Option<u64>,
    pub array_task_id: Option<u32>,
    pub assigned_workers: Vec<String>,
    pub container: Option<ContainerRef>,
    pub dependencies: Option<Vec<u64>>,
    pub reason: Option<String>,
    pub is_idle: bool,
    pub idle_duration: u64,
    pub current_memory_usage: u64,
    pub cgroup_active: bool,
    pub vnc_enabled: bool,
    pub interactive_port: Option<u16>,
    pub stdout_file_id: Option<String>,
    pub stderr_file_id: Option<String>,
    pub workdir_file_id: Option<String>,
    pub mpi_stats: Option<MpiStats>,
    /// What the console passes on unread, by field name, as JSON.
    pub carried: Vec<(String, String)>,
    /// What the console neither shows nor passes on but that is part of the description, by field
    /// name, as JSON: the whole of the container, the times of the MPI statistics to their last
    /// digit.
    pub compared: Vec<(String, String)>,
}

} // verus!
