use vstd::prelude::*;

verus! {

/// An audio input device offered for recording.
#[derive(Clone, Debug)]
pub struct AudioDevice {
    pub id: String,
    pub name: String,
    pub is_default: bool,
}

/// A report layout that an export can use.
#[derive(Clone, Debug)]
pub struct ReportTemplate {
    pub id: String,
    pub name: String,
    /// "therapy", "legal" or "business".
    pub template_type: String,
    pub description: String,
}

/// What an export holds and in which format.
#[derive(Clone, Debug)]
pub struct ExportOptions {
    /// "pdf", "docx", "txt", "csv" or "json".
    pub format: String,
    pub include_markers: bool,
    pub include_rapport: bool,
    pub include_transcript: bool,
    pub confidentiality_level: String,
}

/// A helper script to run, with its arguments.
#[derive(Clone, Debug)]
pub struct PythonCommand {
    pub script_path: String,
    pub args: Vec<String>,
    pub working_dir: Option<String>,
}

/// What a helper script printed and how it exited.
#[derive(Clone, Debug)]
pub struct PythonResult {
    pub success: bool,
    pub stdout: String,
    pub stderr: String,
    pub exit_code: Option<i32>,
}

} // verus!
