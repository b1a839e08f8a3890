//! A small HTTP/1.1 message engine: typed requests and responses, their exact
//! wire encoding, a decoder over received bytes, and the decisions of the
//! connection loop.

pub mod bytes;
pub mod connection;
pub mod decode;
pub mod encode;
pub mod laws;
pub mod message;
pub mod server;
pub mod status;

use vstd::prelude::*;

use crate::decode::{decode, decoded_view, spec_decode};
use crate::encode::{wire, wire_request, wire_response};
use crate::message::{Message, MessageParseError, Request, Response};

verus! {

/// A value with an exact wire form.
pub trait Serialize {
    /// The bytes that stand for this value on the wire.
    spec fn wire_bytes(&self) -> Seq<u8>;

    /// Writes this value in its wire form.
    fn serialize(&self) -> (r: Vec<u8>)
        ensures
            r@ == self.wire_bytes(),
    ;
}

/// A value that can be read back from the start of received bytes.
pub trait Deserialize: Sized {
    /// What reading from `input` yields.
    spec fn read_result(input: Seq<u8>, r: Result<(Self, usize), MessageParseError>) -> bool;

    /// Reads one value from the start of `input`; on success also says how
    /// many bytes it took.
    fn deserialize(input: &[u8]) -> (r: Result<(Self, usize), MessageParseError>)
        ensures
            Self::read_result(input@, r),
    ;
}

impl Serialize for Request {
    open spec fn wire_bytes(&self) -> Seq<u8> {
        wire_request(self@)
    }

    fn serialize(&self) -> (r: Vec<u8>) {
        self.encode()
    }
}

impl Serialize for Response {
    open spec fn wire_bytes(&self) -> Seq<u8> {
        wire_response(self@)
    }

    fn serialize(&self) -> (r: Vec<u8>) {
        self.encode()
    }
}

impl Serialize for Message {
    open spec fn wire_bytes(&self) -> Seq<u8> {
        wire(self@)
    }

    fn serialize(&self) -> (r: Vec<u8>) {
        self.encode()
    }
}

impl Deserialize for Message {
    open spec fn read_result(input: Seq<u8>, r: Result<(Message, usize), MessageParseError>) -> bool {
        decoded_view(r) == spec_decode(input)
    }

    fn deserialize(input: &[u8]) -> (r: Result<(Message, usize), MessageParseError>) {
        decode(input)
    }
}

} // verus!
