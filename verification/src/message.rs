//! A channel/payload pair.

use vstd::prelude::*;

verus! {

/// One message as a named pair: the channel it belongs to and its
/// payload text.
#[derive(Clone)]
pub struct Message {
    pub channel: String,
    pub data: String,
}

} // verus!
