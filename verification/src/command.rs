//! The subcommands and the decisions they make. Argument parsing, terminal
//! output and every filesystem or network action live outside the library;
//! the rules — which versions a listing shows, whether an update is due,
//! which key a target names — live here.

use vstd::prelude::*;

use core::cmp::Ordering;

use crate::config::JpreConfig;
use crate::error::JpreError;
use crate::java_version::key::{spec_parse_key, VersionKey};
use crate::java_version::{spec_compare, JavaVersion, PreRelease};
use crate::text::bytes_eq;

verus! {

/// The update target naming every installed key.
/// The bytes spell `all`.
pub const WORD_ALL: [u8; 3] = [0x61, 0x6c, 0x6c];
/// The target naming the configured default key.
/// The bytes spell `default`.
pub const WORD_DEFAULT: [u8; 7] = [0x64, 0x65, 0x66, 0x61, 0x75, 0x6c, 0x74];

/// What every command runs against.
pub struct Context {
    pub config: JpreConfig,
}

/// Emit the full current Java version.
#[derive(Debug, Clone, PartialEq, Eq)]
pub struct Current {}

/// Debug commands: show the context identifier.
#[derive(Debug, Clone, PartialEq, Eq)]
pub struct Debug {}

/// Emit the current context identifier.
#[derive(Debug, Clone, PartialEq, Eq)]
pub struct GetContextId {}

/// Emit the Java home path, binding the default JDK first when one is set.
#[derive(Debug, Clone, PartialEq, Eq)]
pub struct JavaHome {}

/// List all available distributions.
#[derive(Debug, Clone, PartialEq, Eq)]
pub struct ListDistributions {
    /// Show synonyms.
    pub synonyms: bool,
}

/// List all installed Java versions.
#[derive(Debug, Clone, PartialEq, Eq)]
pub struct ListInstalled {}

/// List all available version keys.
#[derive(Debug, Clone, PartialEq, Eq)]
pub struct ListVersions {
    /// The distribution to list versions for; the configured one when
    /// absent.
    pub distribution: Option<Vec<u8>>,
    /// Show pre-release versions.
    pub pre_release: bool,
    /// Show general-availability versions.
    pub ga: bool,
}

/// The keys a listing shows under the pre-release and general-availability
/// switches.
pub open spec fn spec_shown_keys(pre_release: bool, ga: bool, keys: Seq<VersionKey>) -> Seq<
    VersionKey,
>
    decreases keys.len(),
{
    if keys.len() == 0 {
        Seq::<VersionKey>::empty()
    } else {
        (if (pre_release || keys[0].pre_release@ is Ga) && (ga || !(keys[0].pre_release@
            is Ga)) {
            seq![keys[0]]
        } else {
            Seq::<VersionKey>::empty()
        }) + spec_shown_keys(pre_release, ga, keys.drop_first())
    }
}

impl ListVersions {
    /// The keys this listing shows: pre-releases only under the
    /// pre-release switch, general-availability keys only under its own.
    pub fn filter_versions(&self, keys: Vec<VersionKey>) -> (r: Vec<VersionKey>)
        ensures
            r@ =~= spec_shown_keys(self.pre_release, self.ga, keys@),
    {
        let ghost orig = keys@;
        let mut rest = keys;
        let mut out: Vec<VersionKey> = Vec::new();
        let ghost mut done: int = 0;
        proof {
            assert(orig.skip(0) =~= orig);
        }
        loop
            invariant
                orig == keys@,
                0 <= done <= orig.len(),
                rest@ =~= orig.skip(done),
                spec_shown_keys(self.pre_release, self.ga, orig) =~= out@ + spec_shown_keys(
                    self.pre_release,
                    self.ga,
                    orig.skip(done),
                ),
            decreases orig.len() - done,
        {
            if rest.len() == 0 {
                proof {
                    assert(orig.skip(done) =~= Seq::<VersionKey>::empty());
                    assert(out@ + Seq::<VersionKey>::empty() =~= out@);
                }
                return out;
            }
            proof {
                assert(orig.skip(done)[0] == orig[done]);
                assert(orig.skip(done).drop_first() =~= orig.skip(done + 1));
            }
            let k = rest.remove(0);
            let ghost pre_out = out@;
            let is_ga = matches!(k.pre_release, PreRelease::Ga);
            if (self.pre_release || is_ga) && (self.ga || !is_ga) {
                out.push(k);
                proof {
                    assert(pre_out + (seq![orig[done]] + spec_shown_keys(
                        self.pre_release,
                        self.ga,
                        orig.skip(done + 1),
                    )) =~= out@ + spec_shown_keys(self.pre_release, self.ga, orig.skip(done + 1)));
                }
            } else {
                proof {
                    assert(pre_out + (Seq::<VersionKey>::empty() + spec_shown_keys(
                        self.pre_release,
                        self.ga,
                        orig.skip(done + 1),
                    )) =~= out@ + spec_shown_keys(self.pre_release, self.ga, orig.skip(done + 1)));
                }
            }
            proof {
                done = done + 1;
            }
        }
    }
}

/// Remove an installed JDK.
#[derive(Debug, Clone, PartialEq, Eq)]
pub struct RemoveJdk {
    /// The JDK to remove.
    pub jdk: VersionKey,
}

/// Set the default JDK to use.
#[derive(Debug, Clone, PartialEq, Eq)]
pub struct SetDefault {
    /// The JDK to use.
    pub jdk: VersionKey,
}

impl SetDefault {
    /// Whether the default is already this key, so nothing need change.
    pub fn is_noop(&self, current_default: &Option<VersionKey>) -> (r: bool)
        ensures
            r == match current_default {
                Option::Some(d) => d@ == self.jdk@,
                Option::None => false,
            },
    {
        match current_default {
            Option::Some(d) => {
                let same = d.major == self.jdk.major && crate::java_version::pre_eq(
                    &d.pre_release,
                    &self.jdk.pre_release,
                );
                proof {
                    if same {
                        assert(d@ =~= self.jdk@);
                    }
                }
                same
            },
            Option::None => false,
        }
    }
}

/// Set the one distribution to use.
#[derive(Debug, Clone, PartialEq, Eq)]
pub struct SetDistribution {
    /// The distribution to use; must be a valid distribution name.
    pub distribution: Vec<u8>,
}

/// Set the distributions to use, in priority order.
#[derive(Debug, Clone, PartialEq, Eq)]
pub struct SetDistributions {
    /// The distributions to use; each must be a valid distribution name.
    pub distributions: Vec<Vec<u8>>,
}

/// A target naming which installed keys an update covers.
#[derive(Debug, Clone, PartialEq, Eq)]
pub enum UpdateTarget {
    /// Every installed key.
    All,
    /// The configured default key.
    Default,
    /// One key.
    VersionKey(VersionKey),
}

impl UpdateTarget {
    /// Read an update target: the two target words, or a version key.
    pub fn parse(s: &[u8]) -> (r: Result<UpdateTarget, JpreError>)
        ensures
            match r {
                Ok(UpdateTarget::All) => s@ == WORD_ALL@,
                Ok(UpdateTarget::Default) => s@ == WORD_DEFAULT@,
                Ok(UpdateTarget::VersionKey(k)) => s@ != WORD_ALL@ && s@ != WORD_DEFAULT@
                    && spec_parse_key(s@) == Some(k@),
                Err(_) => s@ != WORD_ALL@ && s@ != WORD_DEFAULT@ && spec_parse_key(s@) is None,
            },
    {
        if bytes_eq(s, WORD_ALL.as_slice()) {
            Ok(UpdateTarget::All)
        } else if bytes_eq(s, WORD_DEFAULT.as_slice()) {
            Ok(UpdateTarget::Default)
        } else {
            match VersionKey::parse(s) {
                Ok(k) => Ok(UpdateTarget::VersionKey(k)),
                Err(_) => Err(JpreError::UserError),
            }
        }
    }

    /// Whether this target covers `jdk`, given the configured default.
    pub fn applies_to(&self, jdk: &VersionKey, default_jdk: &Option<VersionKey>) -> (r: bool)
        ensures
            r == match self {
                UpdateTarget::All => true,
                UpdateTarget::Default => match default_jdk {
                    Option::Some(d) => d@ == jdk@,
                    Option::None => false,
                },
                UpdateTarget::VersionKey(k) => k@ == jdk@,
            },
    {
        match self {
            UpdateTarget::All => true,
            UpdateTarget::Default => match default_jdk {
                Option::Some(d) => {
                    let same = d.major == jdk.major && crate::java_version::pre_eq(
                        &d.pre_release,
                        &jdk.pre_release,
                    );
                    proof {
                        if same {
                            assert(d@ =~= jdk@);
                        }
                    }
                    same
                },
                Option::None => false,
            },
            UpdateTarget::VersionKey(k) => {
                let same = k.major == jdk.major && crate::java_version::pre_eq(
                    &k.pre_release,
                    &jdk.pre_release,
                );
                proof {
                    if same {
                        assert(k@ =~= jdk@);
                    }
                }
                same
            },
        }
    }
}

/// Update installed Java versions.
#[derive(Debug, Clone, PartialEq, Eq)]
pub struct UpdateInstalled {
    /// Check only, do not download new updates.
    pub check: bool,
    /// The keys to update.
    pub target: UpdateTarget,
    /// Update even when the installed version is already the latest.
    pub force: bool,
}

impl UpdateInstalled {
    /// Whether a key must be reinstalled: the latest resolvable version
    /// orders strictly above the installed one, or the update is forced.
    pub fn should_update(&self, installed: &JavaVersion, latest: &JavaVersion) -> (r: bool)
        ensures
            r == (spec_compare(latest@, installed@) == Ordering::Greater || self.force),
    {
        let cmp = latest.compare(installed);
        matches!(cmp, Ordering::Greater) || self.force
    }
}

/// A target naming which key to bind.
#[derive(Debug, Clone, PartialEq, Eq)]
pub enum UseTarget {
    /// The configured default key.
    Default,
    /// One key.
    VersionKey(VersionKey),
}

impl UseTarget {
    /// Read a use target: the default word, or a version key.
    pub fn parse(s: &[u8]) -> (r: Result<UseTarget, JpreError>)
        ensures
            match r {
                Ok(UseTarget::Default) => s@ == WORD_DEFAULT@,
                Ok(UseTarget::VersionKey(k)) => s@ != WORD_DEFAULT@ && spec_parse_key(s@)
                    == Some(k@),
                Err(_) => s@ != WORD_DEFAULT@ && spec_parse_key(s@) is None,
            },
    {
        if bytes_eq(s, WORD_DEFAULT.as_slice()) {
            Ok(UseTarget::Default)
        } else {
            match VersionKey::parse(s) {
                Ok(k) => Ok(UseTarget::VersionKey(k)),
                Err(_) => Err(JpreError::UserError),
            }
        }
    }

    /// The key this target names: the configured default must exist when
    /// it is asked for.
    pub fn resolve(&self, default_jdk: &Option<VersionKey>) -> (r: Result<VersionKey, JpreError>)
        ensures
            match r {
                Ok(k) => match self {
                    UseTarget::Default => match default_jdk {
                        Option::Some(d) => k@ == d@,
                        Option::None => false,
                    },
                    UseTarget::VersionKey(t) => k@ == t@,
                },
                Err(e) => self is Default && default_jdk is None && e == JpreError::UserError,
            },
    {
        match self {
            UseTarget::Default => match default_jdk {
                Option::Some(d) => Ok(d.duplicate()),
                Option::None => Err(JpreError::UserError),
            },
            UseTarget::VersionKey(k) => Ok(k.duplicate()),
        }
    }
}

/// Use a JDK in the current context.
#[derive(Debug, Clone, PartialEq, Eq)]
pub struct UseJdk {
    /// The JDK to use.
    pub jdk: UseTarget,
}

} // verus!
