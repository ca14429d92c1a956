//! Configuration records: which metrics to collect and how to label them.
//!
//! Deserialization from a configuration file is unverified glue and happens
//! outside this crate; the records here hold the already-loaded values.

use vstd::prelude::*;
use vstd::string::StringExecFns;

verus! {

/// Default for the boolean feature toggles: enabled.
pub fn default_true() -> (r: bool)
    ensures
        r == true,
{
    true
}

/// Default for optional string settings: the sentinel "none".
pub fn default_none() -> (r: String)
    ensures
        r@ == "none"@,
{
    String::from_str("none")
}

/// A systemd service to query: unit name and optional display override.
pub struct SysService {
    pub name: String,
    pub display: String,
}

/// A container to look for in the runtime's listing.
pub struct SysDocker {
    pub name: String,
    pub display: String,
}

/// A mounted filesystem to report, with optional sub-volume names.
pub struct SysDisk {
    pub path: String,
    pub display: String,
    pub subvol: Vec<String>,
}

/// A virtual machine to query.
pub struct SysVm {
    pub name: String,
    pub display: String,
}

/// A GPU query backend and the labels for its two report lines.
pub struct SysGpu {
    pub command: String,
    pub memdisplay: String,
    pub tempdisplay: String,
}

/// The complete collection configuration.
pub struct Config {
    pub memory: bool,
    pub uptime: bool,
    pub cpuload: bool,
    pub lastlogin: bool,
    pub cputemp: String,
    pub disk: Vec<SysDisk>,
    pub systemctl: Vec<SysService>,
    pub docker: Vec<SysDocker>,
    pub vm: Vec<SysVm>,
    pub gpu: Vec<SysGpu>,
}

/// Owns a loaded configuration and hands out read access to it.
pub struct LoadConfig {
    pub config: Config,
}

impl LoadConfig {
    /// Wraps an already-loaded configuration.
    pub fn new(config: Config) -> (r: LoadConfig)
        ensures
            r.config == config,
    {
        LoadConfig { config }
    }

    /// Read access to the held configuration.
    pub fn get_config(&self) -> (r: &Config)
        ensures
            *r == self.config,
    {
        &self.config
    }
}

} // verus!
