//! Fallback [`Platform`] for an OS with no module yet.
//!
//! Every query refuses rather than inventing a reading.

use crate::platform::{
    AddrInfo, LinkInfo, Platform, PlatformError, ResolverInfo, RouteInfo, VpnInfo,
};
use vstd::prelude::*;

verus! {

/// An OS that wtfi cannot look at.
pub struct Unsupported;

impl Platform for Unsupported {
    fn route(&self) -> (r: Result<RouteInfo, PlatformError>)
        ensures
            r matches Err(PlatformError::Unsupported),
    {
        Err(PlatformError::Unsupported)
    }

    fn link(&self, _interface: &str) -> (r: Result<LinkInfo, PlatformError>)
        ensures
            r matches Err(PlatformError::Unsupported),
    {
        Err(PlatformError::Unsupported)
    }

    fn addrs(&self, _interface: &str) -> (r: Result<AddrInfo, PlatformError>)
        ensures
            r matches Err(PlatformError::Unsupported),
    {
        Err(PlatformError::Unsupported)
    }

    fn primary_interface(&self) -> (r: Result<String, PlatformError>)
        ensures
            r matches Err(PlatformError::Unsupported),
    {
        Err(PlatformError::Unsupported)
    }

    fn resolvers(&self) -> (r: Result<ResolverInfo, PlatformError>)
        ensures
            r matches Err(PlatformError::Unsupported),
    {
        Err(PlatformError::Unsupported)
    }

    fn vpn(&self) -> (r: Result<VpnInfo, PlatformError>)
        ensures
            r matches Err(PlatformError::Unsupported),
    {
        Err(PlatformError::Unsupported)
    }
}

} // verus!
