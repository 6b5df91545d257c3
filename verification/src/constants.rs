use vstd::prelude::*;

verus! {

/// The most items one participant may have staked at a time.
pub const MAX_NFT_PER_USER: usize = 200;

} // verus!
