//! Virtual agents backed by a device profile.
use super::handle::PackedHandle;
use super::profile::DeviceProfile;
use crate::text::{byte_prefix, char_boundary, truncate_bytes};
use vstd::prelude::*;

verus! {

/// Agent device class.
#[derive(Debug, Clone, Copy, PartialEq, Eq, Structural)]
pub enum AgentKind {
    Cpu,
    Gpu,
}

impl AgentKind {
    pub fn as_str(self) -> (s: &'static str)
        ensures
            s@ == match self {
                AgentKind::Cpu => "cpu"@,
                AgentKind::Gpu => "gpu"@,
            },
    {
        match self {
            AgentKind::Cpu => "cpu",
            AgentKind::Gpu => "gpu",
        }
    }
}

/// Attributes an agent query may answer.
#[derive(Debug, Clone, Copy, PartialEq, Eq, Structural)]
pub enum AgentInfoAttr {
    Name,
    VendorName,
    Feature,
    Device,
    VersionMajor,
    VersionMinor,
}

impl AgentInfoAttr {
    pub fn as_str(self) -> (s: &'static str)
        ensures
            s@ == match self {
                AgentInfoAttr::Name => "name"@,
                AgentInfoAttr::VendorName => "vendor_name"@,
                AgentInfoAttr::Feature => "feature"@,
                AgentInfoAttr::Device => "device"@,
                AgentInfoAttr::VersionMajor => "version_major"@,
                AgentInfoAttr::VersionMinor => "version_minor"@,
            },
    {
        match self {
            AgentInfoAttr::Name => "name",
            AgentInfoAttr::VendorName => "vendor_name",
            AgentInfoAttr::Feature => "feature",
            AgentInfoAttr::Device => "device",
            AgentInfoAttr::VersionMajor => "version_major",
            AgentInfoAttr::VersionMinor => "version_minor",
        }
    }
}

/// One virtual agent.
#[derive(Debug, Clone)]
pub struct VirtualAgent {
    pub handle: PackedHandle,
    pub kind: AgentKind,
    pub name: String,
    pub vendor_name: String,
    /// Agent feature bits; zero means no kernel-dispatch claim.
    pub feature_mask: u32,
    pub profile_id: String,
    pub profile_revision: String,
}

impl VirtualAgent {
    /// The default GPU agent of a profile: names cut to 63 bytes, no features.
    pub fn gpu_from_profile(handle: PackedHandle, profile: &DeviceProfile) -> (r: Self)
        requires
            char_boundary(profile.identity.product_name@, 63),
            char_boundary(profile.identity.vendor@, 63),
        ensures
            r.handle == handle,
            r.kind == AgentKind::Gpu,
            r.name@ == byte_prefix(profile.identity.product_name@, 63),
            r.vendor_name@ == byte_prefix(profile.identity.vendor@, 63),
            r.feature_mask == 0,
            r.profile_id@ == profile.profile_id@,
            r.profile_revision@ == profile.profile_revision@,
    {
        VirtualAgent {
            handle,
            kind: AgentKind::Gpu,
            name: truncate_bytes(profile.identity.product_name.clone(), 63),
            vendor_name: truncate_bytes(profile.identity.vendor.clone(), 63),
            feature_mask: 0,
            profile_id: profile.profile_id.clone(),
            profile_revision: profile.profile_revision.clone(),
        }
    }
}

} // verus!
