//! What the command line asks for.

use crate::scanner::ScanConfig;
use vstd::prelude::*;

verus! {

/// The arguments of the command line.
#[derive(Debug)]
pub struct CliArgs {
    /// Directory path to analyze (defaults to the current directory).
    pub path: Option<String>,
    /// Output CSV file path.
    pub output_csv: Option<String>,
    /// Input CSV file path to load a previous analysis.
    pub input_csv: Option<String>,
    /// Show only temporary directories.
    pub temp_only: bool,
    /// Launch interactive mode for selection and deletion.
    pub interactive: bool,
}

impl CliArgs {
    /// The scan that the arguments ask for: from the path given, or from
    /// the current directory where none is, and of temporary directories
    /// only if so asked.
    pub fn scan_config(&self, current_dir: &String) -> (r: ScanConfig)
        ensures
            r.temp_only == self.temp_only,
            r.root_path@ == match self.path {
                Some(path) => path@,
                None => current_dir@,
            },
    {
        let root_path = match &self.path {
            Some(path) => path.clone(),
            None => current_dir.clone(),
        };
        ScanConfig { root_path, temp_only: self.temp_only }
    }
}

} // verus!
