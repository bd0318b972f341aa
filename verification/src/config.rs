//! The decision of where the runtime configuration comes from.  Reading
//! files, walking directories and creating the configuration itself are
//! done by the surrounding binary; this module decides which of those to
//! do.

use crate::bytes::copy_bytes;
use vstd::prelude::*;

verus! {

/// Where the runtime configuration comes from.
pub enum ConfigSource {
    /// Read the configuration from this file.
    ReadFile(Vec<u8>),
    /// Create a fresh configuration file under this home directory.
    CreateNew(Vec<u8>),
    /// No usable home directory: run with a temporary endpoint in memory.
    Temporary,
}

/// Decides where the configuration comes from.  An explicitly given path is
/// read.  Otherwise, with a (non-empty) home directory, the first
/// configuration file found there is read, and a fresh one is created when
/// there is none.  Without a home directory a temporary configuration is
/// used.
pub fn choose_config_source(
    custom_config_path: Option<Vec<u8>>,
    home_dir: Option<Vec<u8>>,
    dx_files: &Vec<Vec<u8>>,
) -> (r: ConfigSource)
    ensures
        custom_config_path matches Some(p) ==> (r matches ConfigSource::ReadFile(f) && f@ == p@),
        custom_config_path is None && (home_dir is None || (home_dir matches Some(h) && h@.len()
            == 0)) ==> r is Temporary,
        custom_config_path is None && (home_dir matches Some(h) && h@.len() > 0) && dx_files@.len()
            == 0 ==> (r matches ConfigSource::CreateNew(d) && home_dir matches Some(h) && d@
            == h@),
        custom_config_path is None && (home_dir matches Some(h) && h@.len() > 0) && dx_files@.len()
            > 0 ==> (r matches ConfigSource::ReadFile(f) && f@ == dx_files@[0]@),
{
    match custom_config_path {
        Some(path) => ConfigSource::ReadFile(path),
        None => match home_dir {
            Some(home) => {
                if home.len() == 0 {
                    ConfigSource::Temporary
                } else if dx_files.len() == 0 {
                    ConfigSource::CreateNew(home)
                } else {
                    ConfigSource::ReadFile(copy_bytes(dx_files[0].as_slice()))
                }
            },
            None => ConfigSource::Temporary,
        },
    }
}

/// Whether the file name ends in `.dx`; such files under the home
/// directory's configuration folder hold runtime configurations.
pub fn has_dx_extension(path: &[u8]) -> (r: bool)
    ensures
        r == ends_with_dx(path@),
{
    if path.len() < 3 {
        proof {
            assert(!ends_with_dx(path@));
        }
        return false;
    }
    let n = path.len();
    let r = path[n - 3] == 46 && path[n - 2] == 100 && path[n - 1] == 120;
    proof {
        let sub = path@.subrange(path@.len() - 3, path@.len() as int);
        assert(sub[0] == path@[path@.len() - 3]);
        assert(sub[1] == path@[path@.len() - 2]);
        assert(sub[2] == path@[path@.len() - 1]);
        if r {
            assert(sub =~= dx_suffix());
        } else {
            assert(dx_suffix()[0] == 46u8 && dx_suffix()[1] == 100u8 && dx_suffix()[2] == 120u8);
        }
    }
    r
}

/// The bytes of `.dx`.
pub open spec fn dx_suffix() -> Seq<u8> {
    seq![46u8, 100u8, 120u8]
}

/// Whether `s` ends with the bytes of `.dx`.
pub open spec fn ends_with_dx(s: Seq<u8>) -> bool {
    s.len() >= 3 && s.subrange(s.len() - 3, s.len() as int) == dx_suffix()
}

} // verus!
