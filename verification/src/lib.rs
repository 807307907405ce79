//! Orchestration core for distributing a text-to-speech job: balanced
//! word splitting, task-descriptor construction with index-preserving
//! subtask naming, a polling state machine over remote task status, and
//! ordered reassembly of the per-subtask audio segments.

pub mod audio;
pub mod json;
pub mod poll;
pub mod split;
pub mod task;
