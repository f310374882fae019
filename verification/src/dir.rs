//! The fixed layout of the game's installation tree, as paths joined with
//! the Windows separator the game install uses.  Probing the disk for the
//! installation itself is the caller's concern.

use vstd::prelude::*;
use vstd::string::StringExecFns;

verus! {

pub const MISSION_DIR: &'static str = "Sea Power_Data\\StreamingAssets\\user\\missions";

pub const ORIGINAL_DIR: &'static str = "Sea Power_Data\\StreamingAssets\\original";

pub const AIRCRAFT_DIR: &'static str = "aircraft";

pub const VESSEL_DIR: &'static str = "vessels";

/// A path extended by one component.
pub open spec fn join_path(base: Seq<char>, child: Seq<char>) -> Seq<char> {
    base + "\\"@ + child
}

/// Join one path component onto a base path.
fn join(base: &str, child: &str) -> (r: String)
    ensures
        r@ == join_path(base@, child@),
{
    let mut s = base.to_owned();
    s.append("\\");
    s.append(child);
    proof {
        assert(s@ =~= join_path(base@, child@));
    }
    s
}

/// Where the game keeps user missions, under the given install root.
pub fn mission_dir(root_dir: &str) -> (r: String)
    ensures
        r@ == join_path(root_dir@, MISSION_DIR@),
{
    join(root_dir, MISSION_DIR)
}

/// Where the game keeps its own unit definitions, under the given install
/// root.
pub fn original_dir(root_dir: &str) -> (r: String)
    ensures
        r@ == join_path(root_dir@, ORIGINAL_DIR@),
{
    join(root_dir, ORIGINAL_DIR)
}

/// The aircraft definitions directory of an install root.
pub fn aircraft_dir(root_dir: &str) -> (r: String)
    ensures
        r@ == join_path(join_path(root_dir@, ORIGINAL_DIR@), AIRCRAFT_DIR@),
{
    let base = original_dir(root_dir);
    join(base.as_str(), AIRCRAFT_DIR)
}

/// The vessel definitions directory of an install root.
pub fn vessel_dir(root_dir: &str) -> (r: String)
    ensures
        r@ == join_path(join_path(root_dir@, ORIGINAL_DIR@), VESSEL_DIR@),
{
    let base = original_dir(root_dir);
    join(base.as_str(), VESSEL_DIR)
}

} // verus!
