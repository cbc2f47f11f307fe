//! What the on-disk store answers: the disk itself is reached by the
//! application; the library turns what a read brought back into the reply.
use vstd::prelude::*;
use vstd::utf8::{valid_utf8, decode_utf8};

verus! {

/// `String::from_utf8` from std, with its error dropped: the text that
/// `bytes` encode, if they are valid UTF-8, else `None`. The contract takes
/// vstd's `valid_utf8` and `decode_utf8` as the meaning of "valid UTF-8" and
/// "the text encoded", which is what std's documentation promises.
#[verifier::external_body]
fn string_from_utf8(bytes: Vec<u8>) -> (text: Option<String>)
    ensures
        match text {
            Some(s) => valid_utf8(bytes@) && s@ == decode_utf8(bytes@),
            None => !valid_utf8(bytes@),
        },
{
    String::from_utf8(bytes).ok()
}

/// The reply to a read of the on-disk store, given what the read brought
/// back: the stored text when a value was found and is valid UTF-8; the
/// empty string when the key is absent, the value is not UTF-8, or the read
/// failed.
pub fn reply_for_read(outcome: Result<Option<Vec<u8>>, ()>) -> (reply: String)
    ensures
        match outcome {
            Ok(Some(bytes)) => if valid_utf8(bytes@) {
                reply@ == decode_utf8(bytes@)
            } else {
                reply@ == Seq::<char>::empty()
            },
            _ => reply@ == Seq::<char>::empty(),
        },
{
    match outcome {
        Ok(Some(bytes)) => match string_from_utf8(bytes) {
            Some(text) => text,
            None => String::new(),
        },
        Ok(None) => String::new(),
        Err(_) => String::new(),
    }
}

} // verus!
