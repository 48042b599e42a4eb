//! A single component of an address: its code and the bytes of its value.

use crate::code::{Checked, Code};
use crate::codec::Protocol;
use crate::small::{stored_inline, SmallBuf};
use vstd::prelude::*;

verus! {

/// The bytes of a value: borrowed from the address they belong to, or held
/// independently of it.
#[derive(Debug)]
pub enum Bytes<'a> {
    Slice(Checked<&'a [u8]>),
    Owned(Checked<SmallBuf>),
}

/// Protocol value bytes.
#[derive(Debug)]
pub struct ProtoValue<'a> {
    code: Code,
    data: Bytes<'a>,
}

impl<'a> View for ProtoValue<'a> {
    type V = (Code, Seq<u8>);

    closed spec fn view(&self) -> (Code, Seq<u8>) {
        (
            self.code,
            match self.data {
                Bytes::Slice(s) => s.0@,
                Bytes::Owned(v) => v.0@,
            },
        )
    }
}

impl<'a> ProtoValue<'a> {
    /// Whether the value holds its bytes itself.
    pub closed spec fn is_owned(&self) -> bool {
        self.data is Owned
    }

    /// Whether the value holds its bytes itself and stores them inline.
    pub closed spec fn is_inline(&self) -> bool {
        match self.data {
            Bytes::Slice(_) => false,
            Bytes::Owned(v) => stored_inline(v.0),
        }
    }

    /// A value that borrows its bytes.
    pub fn borrowed(code: Code, data: Checked<&'a [u8]>) -> (v: Self)
        ensures
            v@ == (code, data.0@),
            !v.is_owned(),
    {
        ProtoValue { code, data: Bytes::Slice(data) }
    }

    /// A value that holds its bytes itself.
    pub fn owned(code: Code, data: Checked<SmallBuf>) -> (v: Self)
        ensures
            v@ == (code, data.0@),
            v.is_owned(),
            v.is_inline() == stored_inline(data.0),
    {
        ProtoValue { code, data: Bytes::Owned(data) }
    }

    /// Get the protocol code of this value.
    pub fn code(&self) -> (c: Code)
        ensures
            c == self@.0,
    {
        self.code
    }

    /// Get the checked data.
    pub fn data(&self) -> (d: Checked<&[u8]>)
        ensures
            d.0@ == self@.1,
    {
        match &self.data {
            Bytes::Slice(s) => *s,
            Bytes::Owned(v) => Checked(v.0.as_slice()),
        }
    }

    /// The bytes of the value.
    pub fn as_ref(&self) -> (d: &[u8])
        ensures
            d@ == self@.1,
    {
        self.data().0
    }

    /// Convert to a typed protocol value: `None` where the code is another
    /// protocol's or the protocol does not accept the bytes.
    pub fn cast<P: Protocol<'a>>(&'a self) -> (r: Option<P>)
        ensures
            r is Some <==> self@.0 == P::code_spec() && P::read_bytes_spec(self@.1) is Ok,
            r matches Some(p) ==> p.value_spec() == self@.1,
    {
        if self.code != P::code() {
            return None;
        }
        match P::read_bytes(self.data()) {
            Ok(p) => Some(p),
            Err(_) => None,
        }
    }

    /// Clone an owned value of this type.
    pub fn to_owned<'b>(&self) -> (r: ProtoValue<'b>)
        ensures
            r@ == self@,
            r.is_owned(),
            r.is_inline() == self.is_inline(),
    {
        match &self.data {
            Bytes::Slice(s) => ProtoValue {
                code: self.code,
                data: Bytes::Owned(Checked(SmallBuf::heap_from_slice(s.0))),
            },
            Bytes::Owned(v) => ProtoValue {
                code: self.code,
                data: Bytes::Owned(Checked(v.0.duplicate())),
            },
        }
    }
}

} // verus!
