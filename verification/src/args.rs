//! What the command line asks for.

use vstd::prelude::*;

verus! {

/// How to scrub a cluster.
#[derive(Debug)]
pub struct ScrubArgs {
    /// The path of the cluster's TOML, as it is shown to the user. One TOML
    /// describes exactly one cluster.
    pub config: String,
    /// Show what would be deleted without performing deletion.
    pub dry_run: bool,
}

/// A command of the tool, with what each of the other commands takes as its
/// arguments.
#[derive(Debug)]
pub enum Cmd<ClusterArgs, DiskArgs, BenchArgs, VersionArgs> {
    /// Cluster lifecycle and inspection.
    Cluster(ClusterArgs),
    /// Disk inspection commands.
    Disk(DiskArgs),
    /// Fabric microbench.
    Bench(BenchArgs),
    /// Delete all objects through the public S3 endpoint.
    Scrub(ScrubArgs),
    /// The version of the tool.
    Version(VersionArgs),
}

} // verus!
