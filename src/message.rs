use vstd::prelude::*;

use crate::time::UtcTime;

verus! {

/// A notification message as it was received.
#[derive(Debug)]
pub struct TextMessage {
    pub id: u32,
    pub text: String,
    pub time: UtcTime,
}

} // verus!
