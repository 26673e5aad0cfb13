//! Names of the environment variables the library works with.

use vstd::prelude::*;

verus! {

/// The search path variable as written in a Unix shell start-up file.
pub const PATH_KEY: &'static str = "PATH";

/// The search path variable as named in the Windows user environment.
pub const WINDOWS_PATH_KEY: &'static str = "Path";

/// The variable that points at the selected Java installation.
pub const JAVA_HOME_KEY: &'static str = "JAVA_HOME";

} // verus!
