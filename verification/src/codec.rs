//! The contracts between an address and the protocols it is made of.

use crate::code::{Checked, Code};
use crate::error::Error;
use crate::small::SmallBuf;
use crate::varint;
use vstd::prelude::*;
use vstd::string::StringSliceAdditionalSpecFns;

verus! {

/// The byte that separates the parts of an address in text.
pub const SEPARATOR: u8 = 47;

/// A type that can be extended with byte slices.
pub trait Buffer {
    /// The bytes that the buffer holds.
    spec fn bytes(&self) -> Seq<u8>;

    /// The bytes that the buffer holds, as a slice.
    fn as_bytes(&self) -> (r: &[u8])
        ensures
            r@ == self.bytes(),
    ;

    /// Appends `buf`.
    fn extend_with(&mut self, buf: &[u8])
        ensures
            final(self).bytes() == old(self).bytes() + buf@,
    ;
}

impl Buffer for Vec<u8> {
    open spec fn bytes(&self) -> Seq<u8> {
        self@
    }

    fn as_bytes(&self) -> (r: &[u8]) {
        self.as_slice()
    }

    fn extend_with(&mut self, buf: &[u8]) {
        self.extend_from_slice(buf)
    }
}

impl Buffer for SmallBuf {
    open spec fn bytes(&self) -> Seq<u8> {
        self@
    }

    fn as_bytes(&self) -> (r: &[u8]) {
        self.as_slice()
    }

    fn extend_with(&mut self, buf: &[u8]) {
        self.extend_from_slice(buf)
    }
}

/// Component of an address.
///
/// A protocol has a textual and a binary representation:
///
/// ```text
/// Protocol <- Text / Binary
/// Text     <- '/' Prefix '/' Char+
/// Prefix   <- Char+
/// Binary   <- Code Byte+
/// Code     <- UnsignedVarint
/// ```
///
/// Protocol values which contain `/` are ambiguous in text. Such path
/// protocols must be the last component of an address.
pub trait Protocol<'a>: Sized {
    /// The registered code of the protocol.
    spec fn code_spec() -> Code;

    /// The registered prefix of the protocol, as bytes of text.
    spec fn prefix_spec() -> Seq<u8>;

    /// The binary value of this protocol, without its code.
    spec fn value_spec(&self) -> Seq<u8>;

    /// The binary value of the protocol that `read_str` makes of a piece of
    /// text, or why it makes none.
    spec fn read_str_spec(input: Seq<u8>) -> Result<Seq<u8>, Error>;

    /// Whether `read_bytes` accepts a binary value, or why it does not.
    spec fn read_bytes_spec(input: Seq<u8>) -> Result<(), Error>;

    /// The text of this protocol, prefix included.
    spec fn text_spec(&self) -> Result<Seq<u8>, Error>;

    /// Registered protocol code.
    fn code() -> (c: Code)
        ensures
            c == Self::code_spec(),
    ;

    /// Registered protocol prefix.
    fn prefix() -> (p: &'static str)
        ensures
            p.spec_bytes() == Self::prefix_spec(),
    ;

    /// Parse the text value of this protocol.
    fn read_str(input: Checked<&'a [u8]>) -> (r: Result<Self, Error>)
        ensures
            match Self::read_str_spec(input.0@) {
                Ok(v) => r matches Ok(p) && p.value_spec() == v,
                Err(e) => r matches Err(x) && x == e,
            },
    ;

    /// Write the protocol as text, including the prefix.
    fn write_str(&self, f: &mut Vec<u8>) -> (r: Result<(), Error>)
        ensures
            match self.text_spec() {
                Ok(t) => r is Ok && final(f)@ == old(f)@ + t,
                Err(e) => r == Err::<(), Error>(e),
            },
    ;

    /// Decode the binary value of this protocol.
    fn read_bytes(input: Checked<&'a [u8]>) -> (r: Result<Self, Error>)
        ensures
            match Self::read_bytes_spec(input.0@) {
                Ok(_) => r matches Ok(p) && p.value_spec() == input.0@,
                Err(e) => r matches Err(x) && x == e,
            },
    ;

    /// Write the protocol as a binary value, including the code.
    fn write_bytes<B: Buffer>(&self, buf: &mut B)
        ensures
            final(buf).bytes() == old(buf).bytes() + varint::encode(Self::code_spec().0 as nat)
                + self.value_spec(),
    ;
}

/// Type that understands how to read and write protocols.
///
/// Of each method a spec function names the result. The law says that a
/// binary value is delimited by its own bytes alone, which is what lets an
/// address be taken apart and put together at the seams of its components.
pub trait Codec {
    /// The length of the text value at the head of `input`.
    spec fn split_str_spec(&self, prefix: Seq<u8>, input: Seq<u8>) -> Result<nat, Error>;

    /// The length of the binary value at the head of `input`.
    spec fn split_bytes_spec(&self, code: Code, input: Seq<u8>) -> Result<nat, Error>;

    /// Whether `value` is a valid binary value of the protocol `code`.
    spec fn is_valid_bytes_spec(&self, code: Code, value: Seq<u8>) -> bool;

    /// The binary form, code included, of a text value.
    spec fn transcode_str_spec(&self, prefix: Seq<u8>, value: Seq<u8>) -> Result<Seq<u8>, Error>;

    /// The text, prefix included, of a binary value.
    spec fn transcode_bytes_spec(&self, code: Code, value: Seq<u8>) -> Result<Seq<u8>, Error>;

    /// Split input text into the value and the remainder.
    fn split_str<'a>(&self, prefix: &[u8], input: &'a [u8]) -> (r: Result<
        (Checked<&'a [u8]>, &'a [u8]),
        Error,
    >)
        ensures
            match self.split_str_spec(prefix@, input@) {
                Ok(n) => n <= input@.len() && r is Ok && r.unwrap().0.0@ == input@.take(n as int)
                    && r.unwrap().1@ == input@.skip(n as int),
                Err(e) => r is Err && r.unwrap_err() == e,
            },
    ;

    /// Split input bytes into the value and the remainder.
    fn split_bytes<'a>(&self, code: Code, input: &'a [u8]) -> (r: Result<
        (Checked<&'a [u8]>, &'a [u8]),
        Error,
    >)
        ensures
            match self.split_bytes_spec(code, input@) {
                Ok(n) => n <= input@.len() && r is Ok && r.unwrap().0.0@ == input@.take(n as int)
                    && r.unwrap().1@ == input@.skip(n as int),
                Err(e) => r is Err && r.unwrap_err() == e,
            },
    ;

    /// Are the given input bytes valid w.r.t. the code?
    fn is_valid_bytes(&self, code: Code, value: Checked<&[u8]>) -> (r: bool)
        ensures
            r == self.is_valid_bytes_spec(code, value.0@),
    ;

    /// Decode the text value and encode it into the buffer.
    fn transcode_str<B: Buffer>(&self, prefix: &[u8], value: Checked<&[u8]>, buf: &mut B) -> (r:
        Result<(), Error>)
        ensures
            match self.transcode_str_spec(prefix@, value.0@) {
                Ok(out) => r is Ok && final(buf).bytes() == old(buf).bytes() + out,
                Err(e) => r == Err::<(), Error>(e),
            },
    ;

    /// Decode the bytes value and encode it into the text.
    fn transcode_bytes(&self, code: Code, value: Checked<&[u8]>, f: &mut Vec<u8>) -> (r: Result<
        (),
        Error,
    >)
        ensures
            match self.transcode_bytes_spec(code, value.0@) {
                Ok(out) => r is Ok && final(f)@ == old(f)@ + out,
                Err(e) => r == Err::<(), Error>(e),
            },
    ;

    /// Where a binary value ends depends on its own bytes alone.
    proof fn lemma_split_bytes_local(&self, code: Code, a: Seq<u8>, b: Seq<u8>)
        requires
            self.split_bytes_spec(code, a) is Ok,
            self.split_bytes_spec(code, a).unwrap() <= a.len(),
            self.split_bytes_spec(code, a).unwrap() <= b.len(),
            b.take(self.split_bytes_spec(code, a).unwrap() as int) == a.take(
                self.split_bytes_spec(code, a).unwrap() as int,
            ),
        ensures
            self.split_bytes_spec(code, b) == self.split_bytes_spec(code, a),
    ;
}

} // verus!
