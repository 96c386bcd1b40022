//! Wire-level message envelope and the correlation metadata shared by every
//! message body.

use vstd::prelude::*;

verus! {

/// Metadata common to all message bodies: the `type` discriminator string and
/// the optional `msg_id` / `in_reply_to` correlation fields.
#[derive(Debug)]
pub struct BodyBase {
    pub typ: String,
    pub msg_id: Option<u64>,
    pub in_reply_to: Option<u64>,
}

/// A routed message envelope: sender id, recipient id, and a typed body.
#[derive(Debug)]
pub struct Message<B> {
    pub src: String,
    pub dest: String,
    pub body: B,
}

} // verus!
