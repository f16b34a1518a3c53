//! Capability policy engine: decides which file, network, environment,
//! process and native-addon accesses each package of an application may make.

pub mod attribution;
pub mod audit;
pub mod evaluator;
pub mod fs;
pub mod generate;
pub mod ip;
pub mod ipc;
pub mod net;
pub mod paths;
pub mod policy;
pub mod ports;
pub mod proc_env;
pub mod seccomp;
pub mod text;
pub mod watch;
