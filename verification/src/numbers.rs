//! Message-type tags of the transport protocol.

use vstd::prelude::*;

verus! {

/// The tag byte that opens a key-exchange-init message.
pub const SSH_MSG_KEXINIT: u8 = 20;

} // verus!
