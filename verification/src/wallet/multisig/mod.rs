//! Threshold signing: a policy naming the signers and the quorum, and a
//! session collecting signatures over one payload.

pub mod policy;
pub mod session;
