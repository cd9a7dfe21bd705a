//! What can go wrong with a message.

use crate::encoding::DecodeError;
use vstd::prelude::*;

verus! {

/// Why a message could not be written or read.
#[derive(Clone, Copy, Debug, PartialEq, Eq)]
pub enum Error {
    /// The message breaks a rule of the protocol, named by the text.
    Protocol(&'static str),
    /// The bytes of the message do not spell a value.
    Decode(DecodeError),
}

impl Error {
    /// Whether this is the protocol error with this text.
    pub open spec fn is_protocol(self, text: Seq<char>) -> bool {
        self matches Error::Protocol(message) && message@ == text
    }
}

} // verus!
