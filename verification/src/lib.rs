//! System telemetry logic: processes, applications, GPUs and NPUs.

pub mod app;
pub mod app_usage;
pub mod apps;
pub mod association;
pub mod cgroup;
pub mod context;
pub mod desktop;
pub mod exporter;
pub mod fd_scan;
pub mod fdinfo;
pub mod gpu_usage;
pub mod link;
pub mod list;
pub mod npu;
pub mod npu_page;
pub mod npu_usage;
pub mod number;
pub mod nvidia;
pub mod path;
pub mod pattern;
pub mod pci_slot;
pub mod proc_files;
pub mod process;
pub mod process_data;
pub mod pss;
pub mod settings;
pub mod sidebar;
pub mod sorted_map;
pub mod telemetry;
pub mod text;
pub mod units;
pub mod util;
