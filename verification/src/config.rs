//! The tool's settings, with the defaults written on first run.

use vstd::prelude::*;
use crate::text::owned;

verus! {

/// Where disks, snippets and cached images go on this node.
pub struct Config {
    /// Storage pool VM disks land on (e.g. "local-lvm").
    pub storage: String,
    /// Storage pool that holds cloud-init snippets (must support snippets, e.g. "local").
    pub snippet_storage: String,
    /// Filesystem path where snippets are written for the snippet_storage.
    pub snippet_dir: String,
    /// Network bridge for VM NICs.
    pub bridge: String,
    /// Local cache directory for downloaded cloud images.
    pub cache_dir: String,
}

impl Default for Config {
    /// The settings of a stock Proxmox node.
    fn default() -> (r: Self)
        ensures
            r.storage@ == "local-lvm"@,
            r.snippet_storage@ == "local"@,
            r.snippet_dir@ == "/var/lib/vz/snippets"@,
            r.bridge@ == "vmbr0"@,
            r.cache_dir@ == "/var/lib/proxmox-imgctl/cache"@,
    {
        Config {
            storage: owned("local-lvm"),
            snippet_storage: owned("local"),
            snippet_dir: owned("/var/lib/vz/snippets"),
            bridge: owned("vmbr0"),
            cache_dir: owned("/var/lib/proxmox-imgctl/cache"),
        }
    }
}

} // verus!
