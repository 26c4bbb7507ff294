//! The run configuration: source roots, destination, ignore lists and the
//! overwrite flag.
//!
//! Paths are byte strings here, as in the snapshots. Extension tokens are
//! kept without a leading dot; a configuration that carries one is rejected
//! when it is built, so that the tokens always match what
//! [`crate::snapshot::spec_extension`] produces.

use vstd::prelude::*;

use crate::disk;
use crate::disk::DiskInfo;
use crate::snapshot::Snapshot;

verus! {

/// The validated configuration of one run.
pub struct Config {
    /// The source roots to mirror, in order.
    pub origin: Vec<Vec<u8>>,
    /// The directory the roots are mirrored into.
    pub destination: Vec<u8>,
    /// Extension tokens, without a leading dot: a file whose extension is
    /// listed here is never copied.
    pub ignore_extensions: Vec<Vec<u8>>,
    /// Directory base names: a directory so named is never entered.
    pub ignore_folders: Vec<Vec<u8>>,
    /// Whether a source file may replace a changed destination file.
    pub overwrite: bool,
}

/// The mathematical value of a [`Config`].
pub struct SpecConfig {
    pub origin: Seq<Seq<u8>>,
    pub destination: Seq<u8>,
    pub ignore_extensions: Seq<Seq<u8>>,
    pub ignore_folders: Seq<Seq<u8>>,
    pub overwrite: bool,
}

impl View for Config {
    type V = SpecConfig;

    open spec fn view(&self) -> SpecConfig {
        SpecConfig {
            origin: self.origin.deep_view(),
            destination: self.destination@,
            ignore_extensions: self.ignore_extensions.deep_view(),
            ignore_folders: self.ignore_folders.deep_view(),
            overwrite: self.overwrite,
        }
    }
}

/// Why a configuration was rejected.
#[derive(Clone, Copy, Debug, PartialEq, Eq, Structural)]
pub enum ConfigError {
    /// An extension token starts with a dot. Tokens are matched against
    /// extensions produced without the dot, so such a token would silently
    /// never match; it is rejected instead.
    ExtensionStartsWithDot,
}

/// Whether one extension token is acceptable: it does not start with a dot.
pub open spec fn ext_token_ok(t: Seq<u8>) -> bool {
    t.len() == 0 || t[0] != 46
}

/// Whether every extension token in a list is acceptable.
pub open spec fn ext_tokens_ok(toks: Seq<Seq<u8>>) -> bool {
    forall|i: int| 0 <= i < toks.len() ==> ext_token_ok(#[trigger] toks[i])
}

impl Config {
    /// Builds a configuration from its parts. The one check made here is the
    /// shape of the extension tokens; whether the origins exist on disk is
    /// the caller's to establish.
    pub fn new(
        origin: Vec<Vec<u8>>,
        destination: Vec<u8>,
        ignore_extensions: Vec<Vec<u8>>,
        ignore_folders: Vec<Vec<u8>>,
        overwrite: bool,
    ) -> (r: Result<Config, ConfigError>)
        ensures
            match r {
                Ok(c) => {
                    &&& ext_tokens_ok(ignore_extensions.deep_view())
                    &&& c@ == (SpecConfig {
                        origin: origin.deep_view(),
                        destination: destination@,
                        ignore_extensions: ignore_extensions.deep_view(),
                        ignore_folders: ignore_folders.deep_view(),
                        overwrite,
                    })
                },
                Err(e) => {
                    &&& !ext_tokens_ok(ignore_extensions.deep_view())
                    &&& e == ConfigError::ExtensionStartsWithDot
                },
            },
    {
        let mut i: usize = 0;
        while i < ignore_extensions.len()
            invariant
                0 <= i <= ignore_extensions.len(),
                forall|k: int|
                    0 <= k < i ==> ext_token_ok(#[trigger] ignore_extensions.deep_view()[k]),
            decreases ignore_extensions.len() - i,
        {
            proof {
                assert(ignore_extensions.deep_view()[i as int] =~= ignore_extensions@[i as int]@);
            }
            if ignore_extensions[i].len() > 0 && ignore_extensions[i][0] == 46 {
                return Err(ConfigError::ExtensionStartsWithDot);
            }
            i = i + 1;
        }
        proof {
            assert(ignore_extensions.deep_view().len() == ignore_extensions@.len());
        }
        Ok(Config { origin, destination, ignore_extensions, ignore_folders, overwrite })
    }
}

/// Whether the volume holding the destination has room for all the origin
/// trees together. `None` means the volume could not be resolved, which is
/// fatal for the run. The origins are given as snapshots, the volumes as a
/// list of mounts; summing the origin sizes cannot overflow here, since a
/// total beyond the counter's range exceeds any volume's free space anyway.
pub fn disk_has_enough_space(
    destination: &Vec<u8>,
    origin: &Vec<Snapshot>,
    disks: &Vec<DiskInfo>,
) -> (r: Option<bool>)
    ensures
        r == disk::spec_has_enough_space(destination@, origin.deep_view(), disks.deep_view()),
{
    disk::check_capacity(destination, origin, disks)
}

} // verus!
