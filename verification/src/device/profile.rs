//! Device profiles with per-field provenance.
//!
//! A profile is a versioned compatibility contract. Unknown is a valid value:
//! no numeric device fact is invented because an API asks for it.
use super::error::{Error, ErrorCategory};
use super::fidelity::FidelityLevel;
use crate::text::{cat, cat_string, dec_u64, owned, trim, trimmed};
use vstd::prelude::*;

verus! {

/// How a profile field was established.
#[derive(Debug, Clone, Copy, PartialEq, Eq, Structural)]
pub enum CapabilityProvenance {
    /// Confirmed against a primary source or a reproducible measurement.
    Verified,
    /// Observed in a pinned toolchain or runtime.
    Observed,
    /// Derived from related evidence.
    Inferred,
    /// Explicitly unknown.
    Unknown,
    /// Temporary stand-in; never used for conformance.
    Provisional,
}

/// Provenance that may back a conformance claim.
pub open spec fn conformance_ok(p: CapabilityProvenance) -> bool {
    p == CapabilityProvenance::Verified || p == CapabilityProvenance::Observed
}

pub open spec fn provenance_id(p: CapabilityProvenance) -> Seq<char> {
    match p {
        CapabilityProvenance::Verified => "verified"@,
        CapabilityProvenance::Observed => "observed"@,
        CapabilityProvenance::Inferred => "inferred"@,
        CapabilityProvenance::Unknown => "unknown"@,
        CapabilityProvenance::Provisional => "provisional"@,
    }
}

impl CapabilityProvenance {
    pub fn as_str(self) -> (s: &'static str)
        ensures
            s@ == provenance_id(self),
    {
        match self {
            CapabilityProvenance::Verified => "verified",
            CapabilityProvenance::Observed => "observed",
            CapabilityProvenance::Inferred => "inferred",
            CapabilityProvenance::Unknown => "unknown",
            CapabilityProvenance::Provisional => "provisional",
        }
    }

    /// Whether this provenance may take part in conformance claims.
    pub fn allows_conformance(self) -> (r: bool)
        ensures
            r == conformance_ok(self),
    {
        match self {
            CapabilityProvenance::Verified | CapabilityProvenance::Observed => true,
            _ => false,
        }
    }
}

/// Support-matrix verification state.
#[derive(Debug, Clone, Copy, PartialEq, Eq, Structural)]
pub enum SupportState {
    ImplementedUnverified,
    VerifiedUnit,
    VerifiedIntegration,
    HardwareDifferential,
    Experimental,
    Unsupported,
}

impl SupportState {
    pub fn as_str(self) -> (s: &'static str)
        ensures
            s@ == match self {
                SupportState::ImplementedUnverified => "implemented-unverified"@,
                SupportState::VerifiedUnit => "verified-unit"@,
                SupportState::VerifiedIntegration => "verified-integration"@,
                SupportState::HardwareDifferential => "hardware-differential"@,
                SupportState::Experimental => "experimental"@,
                SupportState::Unsupported => "unsupported"@,
            },
    {
        match self {
            SupportState::ImplementedUnverified => "implemented-unverified",
            SupportState::VerifiedUnit => "verified-unit",
            SupportState::VerifiedIntegration => "verified-integration",
            SupportState::HardwareDifferential => "hardware-differential",
            SupportState::Experimental => "experimental",
            SupportState::Unsupported => "unsupported",
        }
    }
}

/// A typed profile field: value, provenance and optional notes.
#[derive(Debug, Clone, PartialEq, Eq)]
pub struct ProfileField<T> {
    pub value: Option<T>,
    pub provenance: CapabilityProvenance,
    pub source_ref: Option<String>,
    pub notes: Option<String>,
}

impl<T> ProfileField<T> {
    /// An unknown field: no value.
    pub fn unknown() -> (r: Self)
        ensures
            r.value is None,
            r.provenance == CapabilityProvenance::Unknown,
            r.source_ref is None,
            r.notes matches Some(n) && n@ == "not established; do not invent"@,
    {
        ProfileField {
            value: None,
            provenance: CapabilityProvenance::Unknown,
            source_ref: None,
            notes: Some(owned("not established; do not invent")),
        }
    }

    /// A verified value with its source.
    pub fn verified(value: T, source_ref: &str) -> (r: Self)
        ensures
            r.value == Some(value),
            r.provenance == CapabilityProvenance::Verified,
            r.source_ref matches Some(s) && s@ == source_ref@,
            r.notes is None,
    {
        ProfileField {
            value: Some(value),
            provenance: CapabilityProvenance::Verified,
            source_ref: Some(owned(source_ref)),
            notes: None,
        }
    }

    /// A provisional value with the reason it is a stand-in.
    pub fn provisional(value: T, reason: &str) -> (r: Self)
        ensures
            r.value == Some(value),
            r.provenance == CapabilityProvenance::Provisional,
            r.source_ref is None,
            r.notes matches Some(n) && n@ == reason@,
    {
        ProfileField {
            value: Some(value),
            provenance: CapabilityProvenance::Provisional,
            source_ref: None,
            notes: Some(owned(reason)),
        }
    }
}

impl Default for ProfileField<u32> {
    fn default() -> (r: Self)
        ensures
            r.value is None,
            r.provenance == CapabilityProvenance::Unknown,
    {
        ProfileField::unknown()
    }
}

/// Identity advertised through a runtime adapter.
#[derive(Debug, Clone, PartialEq, Eq)]
pub struct ProfileIdentity {
    pub vendor: String,
    pub product_name: String,
    pub architecture_family: String,
    pub llvm_target: ProfileField<String>,
}

/// Resource limits used to reject impossible launches; unknown is valid.
#[derive(Debug, Clone, PartialEq, Eq)]
pub struct ResourceLimits {
    pub max_workgroup_size_x: ProfileField<u32>,
    pub max_workgroup_size_y: ProfileField<u32>,
    pub max_workgroup_size_z: ProfileField<u32>,
    pub wavefront_size: ProfileField<u32>,
}

impl Default for ResourceLimits {
    fn default() -> (r: Self)
        ensures
            r.max_workgroup_size_x.provenance == CapabilityProvenance::Unknown,
            r.max_workgroup_size_y.provenance == CapabilityProvenance::Unknown,
            r.max_workgroup_size_z.provenance == CapabilityProvenance::Unknown,
            r.wavefront_size.provenance == CapabilityProvenance::Unknown,
            r.max_workgroup_size_x.value is None,
            r.max_workgroup_size_y.value is None,
            r.max_workgroup_size_z.value is None,
            r.wavefront_size.value is None,
    {
        ResourceLimits {
            max_workgroup_size_x: ProfileField::unknown(),
            max_workgroup_size_y: ProfileField::unknown(),
            max_workgroup_size_z: ProfileField::unknown(),
            wavefront_size: ProfileField::unknown(),
        }
    }
}

/// Analytical performance parameters (never used for correctness).
#[derive(Debug, Clone, PartialEq, Eq)]
pub struct AnalyticalPerformanceParams {
    pub notes: Vec<String>,
}

impl Default for AnalyticalPerformanceParams {
    fn default() -> (r: Self)
        ensures
            r.notes@.len() == 0,
    {
        AnalyticalPerformanceParams { notes: Vec::new() }
    }
}

/// Versioned device profile document.
#[derive(Debug, Clone, PartialEq, Eq)]
pub struct DeviceProfile {
    pub schema_version: u32,
    pub profile_id: String,
    pub profile_revision: String,
    pub identity: ProfileIdentity,
    /// Maximum fidelity the runtime may claim with this profile.
    pub max_fidelity: FidelityLevel,
    /// Whether any conformance claim is permitted for this revision.
    pub conformance_allowed: bool,
    pub resource_limits: ResourceLimits,
    pub analytical_performance: AnalyticalPerformanceParams,
    pub quirks: Vec<String>,
}

/// Nothing but white space.
pub open spec fn blank(s: Seq<char>) -> bool {
    trimmed(s).len() == 0
}

/// The schema invariants a profile must satisfy.
pub open spec fn profile_valid(p: DeviceProfile) -> bool {
    &&& p.schema_version == 1
    &&& !blank(p.profile_id@)
    &&& !blank(p.identity.vendor@)
    &&& !blank(p.identity.product_name@)
    &&& !blank(p.identity.architecture_family@)
    &&& p.conformance_allowed ==> {
        &&& p.max_fidelity != FidelityLevel::HardwareConformant
        &&& conformance_ok(p.resource_limits.max_workgroup_size_x.provenance)
        &&& conformance_ok(p.resource_limits.max_workgroup_size_y.provenance)
        &&& conformance_ok(p.resource_limits.max_workgroup_size_z.provenance)
        &&& conformance_ok(p.resource_limits.wavefront_size.provenance)
        &&& conformance_ok(p.identity.llvm_target.provenance)
    }
    &&& p.identity.llvm_target.value matches Some(t) ==> !blank(t@)
}

fn is_blank(s: &str) -> (r: bool)
    ensures
        r == blank(s@),
{
    trim(s).unicode_len() == 0
}

fn limit_error(name: &str, p: CapabilityProvenance) -> (e: Error)
    ensures
        e.category == ErrorCategory::Profile,
{
    let m = cat(cat(owned("conformance_allowed requires verified/observed provenance for "), name), "; found ");
    Error::new(ErrorCategory::Profile, cat(m, p.as_str()).as_str())
}

impl DeviceProfile {
    /// The profile schema version this build understands.
    pub const CURRENT_SCHEMA_VERSION: u32 = 1;

    /// Validate the schema invariants.
    pub fn validate(&self) -> (r: Result<(), Error>)
        ensures
            r is Ok <==> profile_valid(*self),
            r matches Err(e) ==> e.category == ErrorCategory::Profile,
    {
        if self.schema_version != 1 {
            let m = cat(owned("unsupported profile schema_version "), dec_u64(self.schema_version as u64).as_str());
            return Err(
                Error::new(ErrorCategory::Profile, cat(m, "; expected 1").as_str()).with_remediation(
                    "migrate the profile or use a SoftGPU build that supports it",
                ),
            );
        }
        if is_blank(self.profile_id.as_str()) {
            return Err(Error::new(ErrorCategory::Profile, "profile_id must be non-empty"));
        }
        if is_blank(self.identity.vendor.as_str()) || is_blank(self.identity.product_name.as_str()) || is_blank(
            self.identity.architecture_family.as_str(),
        ) {
            return Err(
                Error::new(
                    ErrorCategory::Profile,
                    "identity.vendor/product_name/architecture_family must be non-empty",
                ),
            );
        }
        if self.conformance_allowed {
            if self.max_fidelity == FidelityLevel::HardwareConformant {
                return Err(
                    Error::new(
                        ErrorCategory::Profile,
                        "conformance_allowed cannot be true for hardware-conformant max_fidelity without hardware evidence",
                    ).with_remediation("set conformance_allowed=false or lower max_fidelity"),
                );
            }
            let lim = &self.resource_limits;
            if !lim.max_workgroup_size_x.provenance.allows_conformance() {
                return Err(limit_error("max_workgroup_size_x", lim.max_workgroup_size_x.provenance));
            }
            if !lim.max_workgroup_size_y.provenance.allows_conformance() {
                return Err(limit_error("max_workgroup_size_y", lim.max_workgroup_size_y.provenance));
            }
            if !lim.max_workgroup_size_z.provenance.allows_conformance() {
                return Err(limit_error("max_workgroup_size_z", lim.max_workgroup_size_z.provenance));
            }
            if !lim.wavefront_size.provenance.allows_conformance() {
                return Err(limit_error("wavefront_size", lim.wavefront_size.provenance));
            }
            if !self.identity.llvm_target.provenance.allows_conformance() {
                let m = cat(
                    owned("conformance_allowed requires verified/observed llvm_target; found "),
                    self.identity.llvm_target.provenance.as_str(),
                );
                return Err(Error::new(ErrorCategory::Profile, m.as_str()));
            }
        }
        if let Some(target) = &self.identity.llvm_target.value {
            if is_blank(target.as_str()) {
                return Err(
                    Error::new(
                        ErrorCategory::Profile,
                        "identity.llvm_target.value must not be an empty string when present",
                    ),
                );
            }
        }
        Ok(())
    }
}

} // verus!
