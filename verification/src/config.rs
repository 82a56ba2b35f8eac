//! The configuration the program runs under: the final validated shape the
//! core sees. Reading, writing and migrating the on-disk file is the
//! surrounding program's work; the pure migration and validation rules live
//! here.

use vstd::prelude::*;

use crate::error::JpreError;
use crate::java_version::key::VersionKey;

verus! {

/// The distribution used when none is configured.
/// The bytes spell `temurin`.
pub const DEFAULT_DISTRIBUTION: [u8; 7] = [0x74, 0x65, 0x6d, 0x75, 0x72, 0x69, 0x6e];

/// The validated configuration.
#[derive(Debug, Clone, PartialEq, Eq)]
pub struct JpreConfig {
    /// The default JDK to use in a new context.
    pub default_jdk: Option<VersionKey>,
    /// The legacy single-distribution option, folded into `distributions`
    /// by migration.
    pub distribution: Option<Vec<u8>>,
    /// The distributions to try, in priority order, when downloading a JDK.
    pub distributions: Vec<Vec<u8>>,
    /// Architecture to force instead of the detected one.
    pub forced_architecture: Option<Vec<u8>>,
    /// Operating system to force instead of the detected one.
    pub forced_os: Option<Vec<u8>>,
    /// The libc flavor used for Linux queries.
    pub forced_libc: Vec<u8>,
}

/// The distribution list used when the configuration names none.
pub fn default_distribution() -> (r: Vec<Vec<u8>>)
    ensures
        r.deep_view() =~= seq![DEFAULT_DISTRIBUTION@],
{
    let mut out: Vec<Vec<u8>> = Vec::new();
    out.push(vstd::slice::slice_to_vec(DEFAULT_DISTRIBUTION.as_slice()));
    proof {
        assert(out.deep_view() =~~= seq![DEFAULT_DISTRIBUTION@]);
    }
    out
}

impl JpreConfig {
    /// Fold the legacy single-distribution option into the list: when it is
    /// set, it replaces the list entirely.
    pub fn migrate_legacy(self) -> (r: JpreConfig)
        ensures
            r.default_jdk == self.default_jdk,
            r.forced_architecture == self.forced_architecture,
            r.forced_os == self.forced_os,
            r.forced_libc == self.forced_libc,
            r.distribution is None,
            match self.distribution {
                Option::Some(d) => r.distributions@ =~= seq![d],
                Option::None => r.distributions == self.distributions,
            },
    {
        match self.distribution {
            Option::Some(d) => {
                let mut distributions: Vec<Vec<u8>> = Vec::new();
                distributions.push(d);
                JpreConfig { distribution: None, distributions, ..self }
            },
            Option::None => self,
        }
    }

    /// Check the validated shape: at least one distribution must be set.
    pub fn validate(self) -> (r: Result<JpreConfig, JpreError>)
        ensures
            match r {
                Ok(c) => self.distributions@.len() > 0 && c == self,
                Err(e) => self.distributions@.len() == 0 && e == JpreError::UserError,
            },
    {
        if self.distributions.len() == 0 {
            Err(JpreError::UserError)
        } else {
            Ok(self)
        }
    }
}

/// A forced setting when one is given, else the detected value.
pub fn effective_setting(forced: &Option<Vec<u8>>, detected: &[u8]) -> (r: Vec<u8>)
    ensures
        r@ == match forced {
            Option::Some(f) => f@,
            Option::None => detected@,
        },
{
    match forced {
        Option::Some(f) => vstd::slice::slice_to_vec(f.as_slice()),
        Option::None => vstd::slice::slice_to_vec(detected),
    }
}

} // verus!
