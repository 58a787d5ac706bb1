//! Input data supplied by the user

use vstd::prelude::*;

verus! {

/// Input data
///
/// Wraps one outbound payload on its way from the input source to the
/// connections that will send it.
#[derive(Clone)]
pub struct UserInput(pub Vec<u8>);

} // verus!
