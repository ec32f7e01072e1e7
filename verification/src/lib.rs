//! A recorder for time-stamped snapshots of a control system's state.
//!
//! Snapshots are flattened to a map from namespaced column names to typed
//! values, buffered in memory, and rendered on demand as delimited text rows
//! with a stable column order, a lazily written header, and a typed-to-text
//! encoding policy.

pub mod text;
pub mod value;
pub mod topology;
pub mod state;
pub mod recorder;
