//! An ops board for every coding-agent session running on a machine: the logic, verified.

pub mod board;
pub mod cmux;
pub mod codex;
pub mod collect;
pub mod decode;
pub mod discovery;
pub mod doctor;
pub mod error;
pub mod fold;
pub mod git;
pub mod json;
pub mod lastgood;
pub mod number;
pub mod order;
pub mod panes;
pub mod procsrc;
pub mod rollout;
pub mod runner;
pub mod snapshot;
pub mod telemetry;
pub mod text;
pub mod textset;
