//! TCP header control bits. Only SYN, ACK and FIN are ever set on emitted
//! segments; the other bits are ignored on receive.

use vstd::prelude::*;

verus! {

pub const FIN: u8 = 1;
pub const SYN: u8 = 2;
pub const RST: u8 = 4;
pub const PSH: u8 = 8;
pub const ACK: u8 = 16;
pub const URG: u8 = 32;

} // verus!
