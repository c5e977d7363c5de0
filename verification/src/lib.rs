//! Library behind a supervisor's process-exit listener: the wire-protocol
//! codec for event notifications, the trackers that follow critical and
//! watched processes, the crash-policy and heartbeat-interval lookups, and
//! the per-notification and per-tick decision logic.  All I/O (the polled
//! input stream, acknowledgement writes, signals, the store transport) is
//! left to the surrounding program, which hands plain values in and out.

pub mod childutils;
pub mod numbers;
pub mod policy;
pub mod records;
pub mod supervisor_proc_exit_listener;
pub mod textparse;
