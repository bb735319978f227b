//! API version negotiation: the path parameter names a version, and only
//! known versions are admitted.

use vstd::prelude::*;

use crate::strings::str_eq;

verus! {

/// The API versions this service serves.
#[derive(Debug, Clone, Copy, PartialEq, Eq, Structural)]
pub enum APIVersion {
    V1,
}

impl APIVersion {
    /// The path form of this version.
    pub fn as_str(&self) -> (r: &'static str)
        ensures
            r@ == "v1"@,
    {
        "v1"
    }
}

/// Why a version string was rejected.
#[derive(Debug, Clone, PartialEq, Eq)]
pub enum ApiVersionError {
    /// The named version is not served; carries the offending value.
    InvalidVersion(String),
    /// The version path parameter is missing.
    ParameterMissing,
    /// The version could not be extracted from the request.
    VersionExtractError,
}

/// Parses a version path parameter: exactly `"v1"` is admitted.
pub fn parse_version(version: &str) -> (r: Result<APIVersion, ApiVersionError>)
    ensures
        r is Ok <==> version@ == "v1"@,
        r matches Ok(v) ==> v == APIVersion::V1,
        r matches Err(e) ==> e matches ApiVersionError::InvalidVersion(s) && s@ == version@,
{
    if str_eq(version, "v1") {
        Ok(APIVersion::V1)
    } else {
        Err(ApiVersionError::InvalidVersion(version.to_owned()))
    }
}

} // verus!
