//! Decision logic of a cron-driven, convention-based process supervisor.
//!
//! Every module holds pure logic: what the guard asks its host to do, and what
//! it concludes from the answers. The host side performs the requests. The modules
//! that end in `_laws` prove what holds of every run.

pub mod answer_laws;
pub mod check;
pub mod check_laws;
pub mod clock;
pub mod config;
pub mod contents_laws;
pub mod copy_laws;
pub mod course_laws;
pub mod discovery;
pub mod discovery_laws;
pub mod freeze_laws;
pub mod generation_laws;
pub mod host;
pub mod kernel_scan;
pub mod lock_laws;
pub mod logs;
pub mod logs_course_laws;
pub mod logs_laws;
pub mod path_laws;
pub mod paths;
pub mod process;
pub mod process_laws;
pub mod procfs;
pub mod procfs_laws;
pub mod report;
pub mod report_laws;
pub mod rotate;
pub mod rotate_laws;
pub mod signal;
pub mod size;
pub mod start;
pub mod start_laws;
pub mod stop;
pub mod stop_laws;
pub mod supervisor;
pub mod supervise;
pub mod suspend;
pub mod text;
pub mod trace;
pub mod wait_laws;
pub mod writer;
