//! Measuring speech models: the clips, the measurement, and the report.

pub mod clips;
pub mod matrix;
pub mod report;
pub mod run;
pub mod weights;
pub mod wer;
