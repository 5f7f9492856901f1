//! What the volume plugin says of itself.
use vstd::prelude::*;

verus! {

/// RKS-side CSI Identity implementation.
///
/// Reports controller-side capabilities.
pub struct RksCsiIdentity;

#[derive(Debug)]
pub struct PluginInfo {
    pub name: String,
    pub vendor_version: String,
}

#[derive(Debug, Clone, Copy, PartialEq, Eq, Structural)]
pub enum PluginCapability {
    ControllerService,
    NodeService,
}

impl RksCsiIdentity {
    /// The name and the version of the plugin.
    pub fn get_plugin_info(&self) -> (r: PluginInfo)
        ensures
            r.name@ == "rk8s.slayerfs.csi"@,
            r.vendor_version@ == "0.1.0"@,
    {
        PluginInfo { name: "rk8s.slayerfs.csi".to_owned(), vendor_version: "0.1.0".to_owned() }
    }

    /// The plugin is always ready.
    pub fn probe(&self) -> (r: bool)
        ensures
            r,
    {
        true
    }

    /// What the plugin can do.
    pub fn get_plugin_capabilities(&self) -> (r: Vec<PluginCapability>)
        ensures
            r@ == seq![PluginCapability::ControllerService],
    {
        let mut v: Vec<PluginCapability> = Vec::new();
        v.push(PluginCapability::ControllerService);
        v
    }
}

} // verus!
