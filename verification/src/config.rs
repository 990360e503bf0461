//! Plain configuration values shared with the surrounding application.

use vstd::prelude::*;
use vstd::string::StringExecFns;

verus! {

/// Where the status bar is anchored on screen.
#[derive(Clone, Copy, PartialEq, Eq, Structural, Debug)]
pub enum StatusPos {
    Top,
    Bottom,
}

/// The directory holding the application's assets and configuration,
/// relative to the directory the application runs from.
pub fn data_dir(run_dir: &str) -> (r: String)
    ensures
        r@ == run_dir@ + "/data"@,
{
    let s: String = run_dir.to_owned();
    s.concat("/data")
}

} // verus!
