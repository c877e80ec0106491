//! The text carried by a packet read from a connection.
use vstd::prelude::*;
use vstd::utf8::{decode_utf8, valid_utf8};

verus! {

/// What `String::from_utf8_lossy` gives back for a byte sequence.
pub uninterp spec fn utf8_lossy(bytes: Seq<u8>) -> Seq<char>;

/// Calls `String::from_utf8_lossy`. Its result is named; the contract
/// states the one fact its documentation gives plainly: bytes that are
/// valid UTF-8 are decoded as they are. How invalid sequences are replaced
/// is left unsaid.
#[verifier::external_body]
fn from_utf8_lossy(bytes: &[u8]) -> (res: String)
    ensures
        res@ == utf8_lossy(bytes@),
        valid_utf8(bytes@) ==> res@ == decode_utf8(bytes@),
{
    String::from_utf8_lossy(bytes).into_owned()
}

/// The text in the first `length` bytes of `buf`, the bytes that a read
/// filled, with invalid UTF-8 replaced.
pub fn received_text(buf: &[u8], length: usize) -> (res: String)
    requires
        length <= buf@.len(),
    ensures
        res@ == utf8_lossy(buf@.take(length as int)),
        valid_utf8(buf@.take(length as int)) ==> res@ == decode_utf8(buf@.take(length as int)),
{
    let filled = vstd::slice::slice_subrange(buf, 0, length);
    proof {
        assert(filled@ =~= buf@.take(length as int));
    }
    from_utf8_lossy(filled)
}

} // verus!
