//! A received PUSH payload.

use std::borrow::Cow;
use vstd::prelude::*;
use vstd::utf8::*;

verus! {

/// The text that `String::from_utf8_lossy` makes of `bytes`.
pub uninterp spec fn utf8_lossy(bytes: Seq<u8>) -> Seq<char>;

/// `String::from_utf8_lossy`: valid UTF-8 is decoded as it is; of anything else
/// the invalid parts come out as U+FFFD. Which stretches are replaced by one
/// such character is left to the function and carried by the name.
#[verifier::external_body]
fn string_from_utf8_lossy(bytes: &[u8]) -> (text: Cow<'_, str>)
    ensures
        text@ == utf8_lossy(bytes@),
        valid_utf8(bytes@) ==> text@ == decode_utf8(bytes@),
        !valid_utf8(bytes@) ==> text@.contains('\u{FFFD}'),
{
    String::from_utf8_lossy(bytes)
}

/// An application message delivered by the protocol.
#[derive(Debug, Clone)]
pub struct Message {
    payload: Vec<u8>,
}

impl View for Message {
    type V = Seq<u8>;

    /// The payload bytes.
    closed spec fn view(&self) -> Seq<u8> {
        self.payload@
    }
}

impl Message {
    /// The message with the given payload.
    pub fn new(payload: Vec<u8>) -> (message: Self)
        ensures
            message@ == payload@,
    {
        Message { payload }
    }

    /// The opaque application payload bytes.
    pub fn payload(&self) -> (payload: &[u8])
        ensures
            payload@ == self@,
    {
        self.payload.as_slice()
    }

    /// UTF-8 lossy string representation of the payload: the text itself where
    /// the payload is valid UTF-8, else one that shows U+FFFD.
    pub fn to_utf8_lossy(&self) -> (text: Cow<'_, str>)
        ensures
            text@ == utf8_lossy(self@),
            valid_utf8(self@) ==> text@ == decode_utf8(self@),
            !valid_utf8(self@) ==> text@.contains('\u{FFFD}'),
            forall|sent: Seq<char>| self@ == #[trigger] encode_utf8(sent) ==> text@ == sent,
    {
        broadcast use {encode_utf8_valid_utf8, encode_utf8_decode_utf8};

        string_from_utf8_lossy(self.payload.as_slice())
    }
}

} // verus!
