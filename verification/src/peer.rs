//! The wire format between replicas: one serialized message per line.
use vstd::prelude::*;

verus! {

/// The newline that ends every message on a peer link.
pub const MESSAGE_END: u8 = 10u8;

/// A serialized message as it goes out on a peer link: its bytes followed
/// by a newline.
pub fn frame_line(payload: Vec<u8>) -> (frame: Vec<u8>)
    ensures
        frame@ == payload@.push(MESSAGE_END),
{
    let mut frame = payload;
    frame.push(MESSAGE_END);
    frame
}

} // verus!
