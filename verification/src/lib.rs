//! Backup orchestration: archives built from directory trees and captured command
//! output, the naming of archives and storage keys, and the run of one backup target
//! as a state machine.

pub mod models;
pub mod naming;
pub mod packaging;
pub mod pipeline;
pub mod plan;
pub mod text;
