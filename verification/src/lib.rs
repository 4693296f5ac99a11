pub mod kinematics;
pub mod laws;
pub mod lobby;
pub mod presence;
pub mod vectors;
pub mod world;

use vstd::prelude::*;

verus! {

/// A minimal numbered record kept by the auxiliary module's smoke
/// reducer; the store assigns the number on insertion.
#[derive(Clone, Copy, PartialEq, Eq, Structural, Debug)]
pub struct HelloWorld {
    pub something: u8,
}

} // verus!
