//! Marker detection and rapport inference over speaker-labelled transcripts.
//!
//! A transcript runs through four detection stages in a fixed order, then a
//! rapport engine turns the markers into a windowed time series; a job
//! registry tracks one run per session. Times are integer milliseconds,
//! confidences integer permille (0..=1000), and rapport values integer
//! millionths (-1_000_000..=1_000_000).

pub mod segment;
pub mod marker;
pub mod config;
pub mod error;
pub mod stage_a;
pub mod stage_b;
pub mod stage_c;
pub mod stage_d;
pub mod rapport;
pub mod pipeline;
pub mod registry;
pub mod records;

pub use segment::{SpeakerSegment, validate_segments, session_span, malformed_segments};
pub use marker::{Stage, MarkerId, MarkerEvent};
pub use config::{AnalysisConfig, CategoryWeights};
pub use error::AnalysisError;
pub use stage_a::detect_orientation;
pub use stage_b::{detect_evaluative, contains_folded};
pub use stage_c::detect_clusters;
pub use stage_d::detect_meta_pattern;
pub use rapport::{Trend, RapportIndicator, calculate_rapport};
pub use pipeline::{Phase, ProgressUpdate, PipelineRun, run_stage, run_pipeline};
pub use registry::{JobStatus, AnalysisJob, AnalysisProgress, AnalysisResult, JobRegistry};
pub use records::{AudioDevice, ReportTemplate, ExportOptions, PythonCommand, PythonResult};
