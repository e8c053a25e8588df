//! Sound output.

pub mod pc_speaker;
