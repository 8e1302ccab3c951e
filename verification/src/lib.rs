//! The core of a toolchain manager for the SourcePawn compiler: the order
//! of versions, selectors, the search for an installed toolchain, what the
//! archive server offers, and which entries of an archive are installed.
//!
//! The library reads no file and opens no connection. It is handed what was
//! read, as plain values, and decides.

use vstd::prelude::*;

pub mod config;
pub mod default_config;
pub mod doc_map;
pub mod failure;
pub mod paths;
pub mod selector;
pub mod smdrop;
pub mod smdrop_util;
pub mod sp_from_sm;
pub mod text;
pub mod toolchain;
pub mod version;

use crate::text::{owned, str_eq};

verus! {

/// The platform identifier of Windows, as the standard library names it.
pub const WINDOWS: &'static str = "windows";

/// Whether the platform identifier `os` names Windows.
pub open spec fn is_windows(os: Seq<char>) -> bool {
    os == WINDOWS@
}

/// The file name of the compiler without an extension: it tells the width
/// of the pointers that the compiler was built for.
pub open spec fn spcomp_stem() -> Seq<char> {
    if usize::BITS == 64 {
        "spcomp64"@
    } else {
        "spcomp"@
    }
}

/// The file name of the compiler executable on the platform `os`.
pub open spec fn spcomp_exe_text(os: Seq<char>) -> Seq<char> {
    if is_windows(os) {
        spcomp_stem() + ".exe"@
    } else {
        spcomp_stem()
    }
}

/// The file name of the compiler executable on the platform `os`.
pub fn spcomp_exe(os: &str) -> (r: String)
    ensures
        r@ == spcomp_exe_text(os@),
{
    let stem = if usize::BITS == 64 {
        owned("spcomp64")
    } else {
        owned("spcomp")
    };
    if str_eq(os, WINDOWS) {
        stem.concat(".exe")
    } else {
        stem
    }
}

/// Whether `file_name` is the compiler executable of the platform `os`.
pub fn is_compiler(file_name: &str, os: &str) -> (r: bool)
    ensures
        r == (file_name@ == spcomp_exe_text(os@)),
{
    let exe = spcomp_exe(os);
    str_eq(file_name, exe.as_str())
}

} // verus!
