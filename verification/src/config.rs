//! What a run is asked to do.
use vstd::prelude::*;

verus! {

/// What is shown before the shell and the number of threads of a run.
pub const USING: &'static str = "Using";

/// What is shown before a directory that is being scanned.
pub const SCANNING: &'static str = "Scanning";

/// What is shown before the number of paths that were looked at.
pub const SCANNED: &'static str = "Scanned";

/// What is shown before a file that is being built.
pub const PROCESSING: &'static str = "Processing";

/// What is shown before a file that was built.
pub const PROCESSED: &'static str = "Processed";

/// What is shown before a file that is being cleaned.
pub const CLEANING: &'static str = "Cleaning";

/// What is shown before a file that was cleaned.
pub const CLEANED: &'static str = "Cleaned";

/// What is shown before a file that is being verified.
pub const VERIFYING: &'static str = "Verifying";

/// What is shown before a file that was verified.
pub const VERIFIED: &'static str = "Verified";

/// What is shown at the end of a run that succeeded.
pub const DONE: &'static str = "Done";

/// What is shown at the end of a run that failed.
pub const FAILED: &'static str = "Failed";

/// The verbosity config options
#[derive(Debug, PartialEq, Eq, Clone, Copy, Structural)]
pub enum Verbosity {
    Quiet,
    Normal,
    Verbose,
}

/// The mode config options
#[derive(Debug, PartialEq, Eq, Clone, Copy, Structural)]
pub enum Mode {
    /// Build output files
    ///
    /// This is the default mode if no subcommand is specified from the command line.
    /// For every `.txtpp` file found from the inputs, it will build the output file and any temporary file
    /// the `.txtpp` may produce. Dependencies in `include` directives will be built automatically as well, even if
    /// not specified in the inputs.
    Build,
    /// Build output files in memory first
    ///
    /// As [`Mode::Build`], but an output file is only written once all of
    /// it is known, and only if it differs from what the file holds.
    InMemoryBuild,
    /// Delete output files
    ///
    /// Remove the output file and any temporary file the `.txtpp` input files may produce.
    /// Dependency is not automatically cleaned if they are not specified in the inputs.
    Clean,
    /// Verify output files are up to date
    ///
    /// In this mode, the output files will be compared against output from a fresh run.
    /// The run will fail if any output is different from the fresh output. Note that the temporary files
    /// are not compared, and the temporary files may be rebuilt in the process in order to generate the fresh output.
    Verify,
}

impl Mode {
    /// The word for a file that is being worked on in this mode.
    pub fn processing_verb(&self) -> (s: &'static str)
        ensures
            s@ == match self {
                Mode::Build | Mode::InMemoryBuild => PROCESSING@,
                Mode::Clean => CLEANING@,
                Mode::Verify => VERIFYING@,
            },
    {
        match self {
            Mode::Build | Mode::InMemoryBuild => PROCESSING,
            Mode::Clean => CLEANING,
            Mode::Verify => VERIFYING,
        }
    }

    /// The word for a file that was worked on in this mode.
    pub fn processed_verb(&self) -> (s: &'static str)
        ensures
            s@ == match self {
                Mode::Build | Mode::InMemoryBuild => PROCESSED@,
                Mode::Clean => CLEANED@,
                Mode::Verify => VERIFIED@,
            },
    {
        match self {
            Mode::Build | Mode::InMemoryBuild => PROCESSED,
            Mode::Clean => CLEANED,
            Mode::Verify => VERIFIED,
        }
    }
}

/// Config for running txtpp
#[derive(Debug, Clone)]
pub struct Config {
    /// Base directory for resolving paths in input. This is usually the current directory.
    pub base_dir: String,
    /// The shell command to use. (e.g. `bash -c`). Empty string for platform-specific default shell
    pub shell_cmd: String,
    /// The input file/directories
    pub inputs: Vec<String>,
    /// Whether to recursively process directories
    pub recursive: bool,
    /// The number of threads to use
    pub num_threads: usize,
    /// The mode. See [`Mode`]
    pub mode: Mode,
    /// The verbosity. See [`Verbosity`]
    pub verbosity: Verbosity,
    /// If the output files should have trailing newline
    pub trailing_newline: bool,
}

impl Default for Config {
    /// Get the default config.
    ///
    /// This means:
    /// - Running from the current directory
    /// - Using the platform-specific default shell
    /// - Processing the current directory
    /// - Not recursively processing directories
    /// - Using 4 threads
    /// - Building output files
    /// - Regular verbosity
    /// - Output files have trailing newline
    fn default() -> (c: Self)
        ensures
            c.base_dir@ == "."@,
            c.shell_cmd@ == ""@,
            c.inputs@.len() == 1,
            c.inputs@[0]@ == "."@,
            !c.recursive,
            c.num_threads == 4,
            c.mode == Mode::Build,
            c.verbosity == Verbosity::Normal,
            c.trailing_newline,
    {
        let mut inputs: Vec<String> = Vec::new();
        inputs.push(String::from_str("."));
        Self {
            base_dir: String::from_str("."),
            shell_cmd: String::from_str(""),
            inputs,
            recursive: false,
            num_threads: 4,
            mode: Mode::Build,
            verbosity: Verbosity::Normal,
            trailing_newline: true,
        }
    }
}

} // verus!
