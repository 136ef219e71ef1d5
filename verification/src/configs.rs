//! The configuration of a run.

use vstd::prelude::*;
use vstd::string::StringExecFns;

verus! {

/// The first configuration file: where the run finds everything else.
#[derive(Clone, Debug)]
pub struct TargetConfig {
    pub setting: TargetPath,
}

/// The folder of the second configuration file, and the folder that is
/// searched for test executables.
#[derive(Clone, Debug)]
pub struct TargetPath {
    pub config_path: String,
    pub bin_target: String,
}

impl Default for TargetPath {
    /// Two empty paths.
    fn default() -> (r: Self)
        ensures
            r.config_path@ == Seq::<char>::empty(),
            r.bin_target@ == Seq::<char>::empty(),
    {
        Self { config_path: String::new(), bin_target: String::new() }
    }
}

impl TargetPath {
    /// The path of the second configuration file: `config.toml` in the
    /// folder `config_path`.
    pub fn config_file(&self) -> (r: String)
        ensures
            r@ == self.config_path@ + "/config.toml"@,
    {
        self.config_path.clone().concat("/config.toml")
    }
}

/// The configuration of a run.
#[derive(Clone, Debug)]
pub struct Config {
    /// Taken from the first configuration file, not from the second.
    pub target_config: TargetPath,
    pub path: ConfigPath,
    pub process: ConfigWorker,
}

/// Where the run writes.
#[derive(Clone, Debug)]
pub struct ConfigPath {
    /// Where the report of the tests goes.
    pub report_out: String,
    /// Where errors of the runner itself go.
    pub error_out: String,
}

/// The sizes of the two pools.
#[derive(Clone, Copy, Debug)]
pub struct ConfigWorker {
    /// The number of children that run at a time, and of their pipes.
    pub max_child_spawn: usize,
    /// The number of workers that apply events to the record store.
    pub worker_count: usize,
}

impl Config {
    /// The configuration that the second file gives, with the setting of the
    /// first file put in.
    pub fn with_target(self, setting: TargetPath) -> (r: Config)
        ensures
            r.target_config == setting,
            r.path == self.path,
            r.process == self.process,
    {
        Config { target_config: setting, path: self.path, process: self.process }
    }
}

} // verus!
