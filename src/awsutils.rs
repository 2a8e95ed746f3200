//! Options shared by every command.
use vstd::prelude::*;

verus! {

/// The region to query; when absent, the environment's configuration decides.
pub struct GlobalOpt {
    pub region: Option<String>,
}

} // verus!
