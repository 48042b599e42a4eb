//! The address itself: a buffer of binary components and the operations
//! that read, grow and shrink it at the seams of its components.

use crate::code::{Checked, Code};
use crate::codec::{Codec, Protocol};
use crate::error::Error;
use crate::iter::{
    head, last_start, lemma_scan_append, lemma_scan_last, lemma_scan_step, scan, BytesIter,
};
use crate::registry::Registry;
use crate::small::{slices_equal, split_off, stored_inline, SmallBuf, INLINE_CAPACITY};
use crate::text::{parse_text, render, string_from_utf8, text_head, StrIter};
use crate::value::ProtoValue;
use crate::varint;
use vstd::prelude::*;
use vstd::string::StringSliceAdditionalSpecFns;

verus! {

/// `c` is exactly one component.
pub open spec fn single<C: Codec>(reg: Registry<C>, c: Seq<u8>) -> bool {
    &&& c.len() > 0
    &&& head(reg, c) is Ok
    &&& head(reg, c).unwrap().2 == c.len()
}

/// Walks over bytes that are known to be a valid sequence of components.
#[derive(Debug)]
pub struct ValidBytesIter<'a, C: Codec>(BytesIter<'a, C>);

impl<'a, C: Codec> ValidBytesIter<'a, C> {
    /// What is still to be read is a valid sequence of components.
    pub closed spec fn wf(&self) -> bool {
        scan(self.0.registry(), self.0.remaining()) is Ok
    }

    /// The registry that the components are read by.
    pub closed spec fn registry(&self) -> Registry<C> {
        self.0.registry()
    }

    /// The whole input.
    pub closed spec fn input(&self) -> Seq<u8> {
        self.0.input()
    }

    /// How many bytes of the input were consumed.
    pub closed spec fn consumed(&self) -> nat {
        self.0.consumed()
    }

    /// The bytes that are still to be read.
    pub open spec fn remaining(&self) -> Seq<u8> {
        self.input().skip(self.consumed() as int)
    }

    /// An iterator over the components of `input`, which must be valid.
    pub fn new(input: &'a [u8], reg: &'a Registry<C>) -> (it: Self)
        requires
            scan(*reg, input@) is Ok,
        ensures
            it.wf(),
            it.input() == input@,
            it.consumed() == 0,
            it.registry() == *reg,
    {
        let inner = BytesIter::with_registry(input, reg);
        assert(inner.remaining() =~= input@);
        ValidBytesIter(inner)
    }

    /// The next component: where it starts in the input, its code and its
    /// value, or `None` at the end of the input.
    pub fn next(&mut self) -> (r: Option<(usize, Code, Checked<&'a [u8]>)>)
        requires
            old(self).wf(),
        ensures
            final(self).wf(),
            final(self).input() == old(self).input(),
            final(self).registry() == old(self).registry(),
            final(self).consumed() <= final(self).input().len(),
            old(self).consumed() <= old(self).input().len(),
            old(self).remaining().len() == 0 ==> r is None,
            old(self).remaining().len() == 0 ==> final(self).consumed() == old(self).consumed(),
            old(self).remaining().len() > 0 ==> {
                &&& head(old(self).registry(), old(self).remaining()) is Ok
                &&& r is Some
                &&& r.unwrap().0 == old(self).consumed()
                &&& r.unwrap().1 == head(old(self).registry(), old(self).remaining()).unwrap().0
                &&& r.unwrap().2.0@ == old(self).remaining().subrange(
                    head(old(self).registry(), old(self).remaining()).unwrap().1 as int,
                    head(old(self).registry(), old(self).remaining()).unwrap().2 as int,
                )
                &&& final(self).consumed() == old(self).consumed() + head(
                    old(self).registry(),
                    old(self).remaining(),
                ).unwrap().2
            },
    {
        let ghost before = self.0.remaining();
        let item = self.0.next();
        proof {
            if before.len() > 0 {
                let end = head(self.0.registry(), before).unwrap().2;
                assert(self.0.remaining() =~= before.skip(end as int));
            }
        }
        match item {
            None => None,
            Some(Ok(x)) => Some(x),
            Some(Err(_)) => vstd::pervasive::unreached(),
        }
    }

    /// The last component: where it starts in the input, its code and its
    /// value, or `None` where the input is empty.
    pub fn last(self) -> (r: Option<(usize, Code, Checked<&'a [u8]>)>)
        requires
            self.wf(),
            self.consumed() == 0,
        ensures
            self.input().len() == 0 ==> r is None,
            self.input().len() > 0 ==> {
                let o = last_start(self.registry(), self.input());
                let h = head(self.registry(), self.input().skip(o as int));
                &&& h is Ok
                &&& r is Some
                &&& r.unwrap().0 == o
                &&& r.unwrap().1 == h.unwrap().0
                &&& r.unwrap().2.0@ == self.input().skip(o as int).subrange(
                    h.unwrap().1 as int,
                    h.unwrap().2 as int,
                )
            },
    {
        let ghost s = self.input();
        let ghost reg = self.registry();
        let mut it = self;
        let mut found: Option<(usize, Code, Checked<&'a [u8]>)> = None;
        assert(it.remaining() =~= s);
        loop
            invariant
                it.wf(),
                s == self.input(),
                reg == self.registry(),
                it.input() == s,
                it.registry() == reg,
                it.consumed() <= s.len(),
                it.consumed() == 0 ==> found is None,
                it.remaining().len() > 0 ==> last_start(reg, s) == it.consumed() + last_start(
                    reg,
                    it.remaining(),
                ),
                it.remaining().len() == 0 && s.len() > 0 ==> {
                    let o = last_start(reg, s);
                    let h = head(reg, s.skip(o as int));
                    &&& h is Ok
                    &&& found is Some
                    &&& found.unwrap().0 == o
                    &&& found.unwrap().1 == h.unwrap().0
                    &&& found.unwrap().2.0@ == s.skip(o as int).subrange(
                        h.unwrap().1 as int,
                        h.unwrap().2 as int,
                    )
                },
            decreases s.len() - it.consumed(),
        {
            let ghost before = it.remaining();
            let ghost at = it.consumed();
            match it.next() {
                None => {
                    return found;
                },
                Some(x) => {
                    proof {
                        let end = head(reg, before).unwrap().2;
                        assert(it.remaining() =~= before.skip(end as int));
                        assert(before == s.skip(at as int));
                    }
                    found = Some(x);
                },
            }
        }
    }
}

/// A sequence of protocols.
///
/// The address holds the binary form of its components in one buffer and
/// reads them by the registry it was made with. Its value is the bytes from
/// its logical start on: what was dropped from the front is no part of it.
#[derive(Debug)]
pub struct MultiAddr<'r, C: Codec> {
    dat: SmallBuf,
    off: usize,
    reg: &'r Registry<C>,
}

impl<'r, C: Codec> View for MultiAddr<'r, C> {
    type V = Seq<u8>;

    closed spec fn view(&self) -> Seq<u8> {
        self.dat@.skip(self.off as int)
    }
}

impl<'r, C: Codec> MultiAddr<'r, C> {
    /// The logical start of the address lies within its buffer.
    pub closed spec fn in_bounds(&self) -> bool {
        self.off <= self.dat@.len()
    }

    /// The registry that the address reads its components by.
    pub closed spec fn registry(&self) -> Registry<C> {
        *self.reg
    }

    /// How many bytes at the front of the buffer are no longer part of the
    /// address.
    pub closed spec fn offset(&self) -> nat {
        self.off as nat
    }

    /// Whether the buffer of the address is stored inline.
    pub closed spec fn is_inline(&self) -> bool {
        stored_inline(self.dat)
    }

    /// The number of bytes in the buffer, those before the logical start
    /// included.
    pub closed spec fn stored_len(&self) -> nat {
        self.dat@.len()
    }

    /// The bytes of the address are a sequence of whole, valid components.
    pub open spec fn wf(&self) -> bool {
        self.in_bounds() && scan(self.registry(), self@) is Ok
    }

    /// The components of the address, each with its code and its value.
    pub open spec fn components(&self) -> Seq<(Code, Seq<u8>)> {
        scan(self.registry(), self@).unwrap()
    }

    /// Create an empty address with an explicit protocol codec registry.
    pub fn new(r: &'r Registry<C>) -> (a: Self)
        ensures
            a@ == Seq::<u8>::empty(),
            a.wf(),
            a.registry() == *r,
            a.offset() == 0,
            a.is_inline(),
    {
        let a = MultiAddr { dat: SmallBuf::new(), off: 0, reg: r };
        assert(a@ =~= Seq::<u8>::empty());
        a
    }

    /// Try to decode the given bytes as a multi-address. The address holds
    /// the bytes as they are; the first component that cannot be read gives
    /// the failure.
    pub fn try_from_bytes(input: &[u8], r: &'r Registry<C>) -> (res: Result<Self, Error>)
        ensures
            match scan(*r, input@) {
                Ok(_) => res is Ok && res.unwrap()@ == input@ && res.unwrap().wf()
                    && res.unwrap().registry() == *r && res.unwrap().offset() == 0
                    && res.unwrap().is_inline() == (input@.len() <= INLINE_CAPACITY),
                Err(e) => res matches Err(x) && x == e,
            },
    {
        let mut it = BytesIter::with_registry(input, r);
        assert(it.remaining() =~= input@);
        loop
            invariant
                it.input() == input@,
                it.registry() == *r,
                it.consumed() <= input@.len(),
                match scan(*r, it.remaining()) {
                    Ok(_) => scan(*r, input@) is Ok,
                    Err(e) => scan(*r, input@) == Err::<Seq<(Code, Seq<u8>)>, Error>(e),
                },
            decreases input@.len() - it.consumed(),
        {
            let ghost before = it.remaining();
            match it.next() {
                None => {
                    let a = MultiAddr { dat: SmallBuf::from_slice(input), off: 0, reg: r };
                    assert(a@ =~= input@);
                    return Ok(a);
                },
                Some(Err(e)) => {
                    return Err(e);
                },
                Some(Ok(_)) => {
                    proof {
                        let end = head(*r, before).unwrap().2;
                        assert(it.remaining() =~= before.skip(end as int));
                    }
                },
            }
        }
    }

    /// Try to parse the given text as a multi-address. Each component is
    /// turned into its binary form by the codec of its prefix; the bytes
    /// that come of it must be a valid address. The first failure on the way
    /// is returned.
    pub fn try_from_str(input: &str, r: &'r Registry<C>) -> (res: Result<Self, Error>)
        ensures
            match parse_text(*r, input.spec_bytes()) {
                Err(e) => res matches Err(x) && x == e,
                Ok(b) => match scan(*r, b) {
                    Ok(_) => res is Ok && res.unwrap()@ == b && res.unwrap().wf()
                        && res.unwrap().registry() == *r && res.unwrap().offset() == 0
                        && res.unwrap().is_inline() == (b.len() <= INLINE_CAPACITY),
                    Err(e) => res matches Err(x) && x == e,
                },
            },
    {
        let ghost t = input.spec_bytes();
        let mut it = StrIter::with_registry(input, r);
        let mut b: Vec<u8> = Vec::new();
        assert(it.remaining() =~= t);
        proof {
            if parse_text(*r, t) is Ok {
                assert(b@ + parse_text(*r, t).unwrap() =~= parse_text(*r, t).unwrap());
            }
        }
        loop
            invariant
                t == input.spec_bytes(),
                it.input() == t,
                it.registry() == *r,
                it.consumed() <= t.len(),
                parse_text(*r, t) == match parse_text(*r, it.remaining()) {
                    Ok(rest) => Ok::<Seq<u8>, Error>(b@ + rest),
                    Err(e) => Err(e),
                },
            decreases t.len() - it.consumed(),
        {
            let ghost before = it.remaining();
            let ghost sofar = b@;
            match it.next() {
                None => {
                    assert(b@ + Seq::<u8>::empty() =~= b@);
                    return Self::try_from_bytes(b.as_slice(), r);
                },
                Some(Err(e)) => {
                    return Err(e);
                },
                Some(Ok((prefix, value))) => {
                    let codec = match r.get_by_prefix(prefix) {
                        Some(x) => x,
                        None => {
                            return Err(Error::UnregisteredPrefix);
                        },
                    };
                    match codec.transcode_str(prefix, value, &mut b) {
                        Err(e) => {
                            return Err(e);
                        },
                        Ok(_) => {},
                    }
                    proof {
                        let end = text_head(*r, before).unwrap().2;
                        assert(it.remaining() =~= before.skip(end as int));
                        if parse_text(*r, it.remaining()) is Ok {
                            let rest = parse_text(*r, it.remaining()).unwrap();
                            let out = codec.transcode_str_spec(prefix@, value.0@).unwrap();
                            assert(sofar + (out + rest) =~= b@ + rest);
                        }
                    }
                },
            }
        }
    }

    /// The text of the address: the text that the codec of each component
    /// makes of its value, in order. The first failure of a codec is
    /// returned.
    pub fn to_text(&self) -> (res: Result<Vec<u8>, Error>)
        requires
            self.wf(),
        ensures
            match render(self.registry(), self.components()) {
                Ok(t) => res is Ok && res.unwrap()@ == t,
                Err(e) => res == Err::<Vec<u8>, Error>(e),
            },
    {
        let ghost reg = *self.reg;
        let mut it = self.iter();
        let mut out: Vec<u8> = Vec::new();
        proof {
            if render(reg, it.parts()) is Ok {
                let all = render(reg, it.parts()).unwrap();
                assert(out@ + all =~= all);
            }
        }
        loop
            invariant
                it.wf(),
                it.registry() == reg,
                reg == *self.reg,
                render(reg, self.components()) == match render(reg, it.parts()) {
                    Ok(rest) => Ok::<Seq<u8>, Error>(out@ + rest),
                    Err(e) => Err(e),
                },
            decreases it.remaining().len(),
        {
            let ghost left = it.remaining();
            let ghost sofar = out@;
            match it.next() {
                None => {
                    assert(out@ + Seq::<u8>::empty() =~= out@);
                    return Ok(out);
                },
                Some(proto) => {
                    proof {
                        lemma_scan_step(reg, left);
                    }
                    let code = proto.code();
                    let codec = match self.reg.get_by_code(code) {
                        Some(x) => x,
                        None => {
                            return Err(Error::UnregisteredCode(code));
                        },
                    };
                    match codec.transcode_bytes(code, proto.data(), &mut out) {
                        Err(e) => {
                            return Err(e);
                        },
                        Ok(_) => {},
                    }
                    proof {
                        if render(reg, it.parts()) is Ok {
                            let rest = render(reg, it.parts()).unwrap();
                            let t = codec.transcode_bytes_spec(code, proto@.1).unwrap();
                            assert(sofar + (t + rest) =~= out@ + rest);
                        }
                    }
                },
            }
        }
    }

    /// The text of the address as a string. Text that is not well-formed
    /// UTF-8 is a formatting failure.
    pub fn to_string(&self) -> (res: Result<String, Error>)
        requires
            self.wf(),
        ensures
            match render(self.registry(), self.components()) {
                Ok(t) => if vstd::utf8::valid_utf8(t) {
                    res is Ok && vstd::utf8::encode_utf8(res.unwrap()@) == t
                } else {
                    res == Err::<String, Error>(Error::Format)
                },
                Err(e) => res == Err::<String, Error>(e),
            },
    {
        match self.to_text() {
            Err(e) => Err(e),
            Ok(t) => match string_from_utf8(t) {
                Some(s) => Ok(s),
                None => Err(Error::Format),
            },
        }
    }

    /// The bytes of the address.
    pub fn as_ref(&self) -> (s: &[u8])
        requires
            self.wf(),
        ensures
            s@ == self@,
    {
        let all = self.dat.as_slice();
        vstd::slice::slice_subrange(all, self.off, all.len())
    }

    /// Does this multi-address contain any protocol components?
    pub fn is_empty(&self) -> (r: bool)
        requires
            self.wf(),
        ensures
            r == (self@.len() == 0),
    {
        self.as_ref().len() == 0
    }

    /// Address length in bytes.
    pub fn len(&self) -> (n: usize)
        requires
            self.wf(),
        ensures
            n == self@.len(),
    {
        self.as_ref().len()
    }

    /// Add a protocol to the end of this address. The code of the protocol
    /// must be registered, and what the protocol writes must be one whole
    /// component that the codec of its code accepts: else the address stays
    /// as it is.
    pub fn push_back<'a, P: Protocol<'a>>(&mut self, p: P) -> (r: Result<(), Error>)
        requires
            old(self).wf(),
        ensures
            final(self).wf(),
            final(self).registry() == old(self).registry(),
            final(self).offset() == old(self).offset(),
            match r {
                Ok(_) => {
                    &&& old(self).registry().by_code(P::code_spec()) is Some
                    &&& single(
                        old(self).registry(),
                        varint::encode(P::code_spec().0 as nat) + p.value_spec(),
                    )
                    &&& final(self)@ == old(self)@ + (varint::encode(P::code_spec().0 as nat)
                        + p.value_spec())
                    &&& final(self).components() == old(self).components().push(
                        (P::code_spec(), p.value_spec()),
                    )
                    &&& final(self).is_inline() == (old(self).is_inline() && old(self).stored_len()
                        + varint::encode(P::code_spec().0 as nat).len() + p.value_spec().len()
                        <= INLINE_CAPACITY)
                },
                Err(e) => {
                    &&& final(self)@ == old(self)@
                    &&& final(self).is_inline() == old(self).is_inline()
                    &&& if old(self).registry().by_code(P::code_spec()) is None {
                        e == Error::UnregisteredCode(P::code_spec())
                    } else {
                        e == Error::InvalidProto(P::code_spec()) && !single(
                            old(self).registry(),
                            varint::encode(P::code_spec().0 as nat) + p.value_spec(),
                        )
                    }
                },
            },
    {
        let code = P::code();
        if self.reg.get_by_code(code).is_none() {
            return Err(Error::UnregisteredCode(code));
        }
        let mut tmp: Vec<u8> = Vec::new();
        p.write_bytes(&mut tmp);
        let ghost c = tmp@;
        let ghost reg = *self.reg;
        proof {
            assert(c =~= varint::encode(code.0 as nat) + p.value_spec());
            varint::lemma_decode_encode(code.0, p.value_spec());
        }
        let mut it = BytesIter::with_registry(tmp.as_slice(), self.reg);
        assert(it.remaining() =~= c);
        let whole = match it.next() {
            Some(Ok(_)) => it.offset() == tmp.len(),
            _ => false,
        };
        if !whole {
            return Err(Error::InvalidProto(code));
        }
        proof {
            let (hc, start, end) = head(reg, c).unwrap();
            assert(hc == code);
            assert(c.skip(end as int).len() == 0);
            assert(scan(reg, c.skip(end as int)) == Ok::<Seq<(Code, Seq<u8>)>, Error>(
                Seq::empty(),
            ));
            assert(c.subrange(start as int, end as int) =~= p.value_spec());
            assert(scan(reg, c) == Ok::<Seq<(Code, Seq<u8>)>, Error>(
                seq![(code, p.value_spec())] + Seq::<(Code, Seq<u8>)>::empty(),
            ));
            lemma_scan_append(reg, self@, c);
            assert(self.components() + (seq![(code, p.value_spec())] + Seq::<
                (Code, Seq<u8>),
            >::empty()) =~= self.components().push((code, p.value_spec())));
        }
        let ghost before = self.dat@;
        self.dat.extend_from_slice(tmp.as_slice());
        proof {
            assert((before + c).skip(self.off as int) =~= before.skip(self.off as int) + c);
        }
        Ok(())
    }

    /// Remove and return the last protocol component. The value that is
    /// returned holds its bytes itself.
    ///
    /// O(n) in the number of protocols.
    pub fn pop_back<'b>(&mut self) -> (r: Option<ProtoValue<'b>>)
        requires
            old(self).wf(),
        ensures
            final(self).wf(),
            final(self).registry() == old(self).registry(),
            final(self).offset() == old(self).offset(),
            final(self).is_inline() == old(self).is_inline(),
            old(self)@.len() == 0 ==> r is None && final(self)@ == old(self)@,
            old(self)@.len() > 0 ==> {
                &&& r is Some
                &&& r.unwrap()@ == old(self).components().last()
                &&& r.unwrap().is_owned()
                &&& r.unwrap().is_inline() == (old(self).is_inline()
                    || old(self).components().last().1.len() <= INLINE_CAPACITY)
                &&& final(self).components() == old(self).components().drop_last()
                &&& final(self)@ == old(self)@.take(
                    last_start(old(self).registry(), old(self)@) as int,
                )
            },
    {
        let ghost s = self@;
        let ghost reg = *self.reg;
        let iter = ValidBytesIter::new(self.as_ref(), self.reg);
        let (o, c, plen) = match iter.last() {
            Some((o, c, p)) => (o, c, p.0.len()),
            None => {
                return None;
            },
        };
        proof {
            lemma_scan_last(reg, s);
        }
        let total = self.dat.len();
        assert(self.off + o + plen <= total);
        let val = split_off(&mut self.dat, total - plen);
        self.dat.truncate(self.off + o);
        proof {
            let h = head(reg, s.skip(o as int)).unwrap();
            assert(val@ =~= s.skip(o as int).subrange(h.1 as int, h.2 as int));
            assert(self@ =~= s.take(o as int));
        }
        Some(ProtoValue::owned(c, Checked(val)))
    }

    /// Remove and return the first protocol component. The value that is
    /// returned borrows its bytes from the address.
    pub fn pop_front(&mut self) -> (r: Option<ProtoValue<'_>>)
        requires
            old(self).wf(),
        ensures
            final(self).wf(),
            final(self).registry() == old(self).registry(),
            final(self).is_inline() == old(self).is_inline(),
            old(self)@.len() == 0 ==> r is None && final(self)@ == old(self)@,
            old(self)@.len() == 0 ==> final(self).offset() == old(self).offset(),
            old(self)@.len() > 0 ==> {
                &&& r is Some
                &&& r.unwrap()@ == old(self).components().first()
                &&& !r.unwrap().is_owned()
                &&& final(self).components() == old(self).components().drop_first()
                &&& head(old(self).registry(), old(self)@) is Ok
                &&& final(self)@ == old(self)@.skip(
                    head(old(self).registry(), old(self)@).unwrap().2 as int,
                )
                &&& final(self).offset() == old(self).offset() + head(
                    old(self).registry(),
                    old(self)@,
                ).unwrap().2
            },
    {
        let ghost s = self@;
        let ghost reg = *self.reg;
        let mut iter = ValidBytesIter::new(self.as_ref(), self.reg);
        assert(iter.remaining() =~= s);
        let (c, plen, used) = match iter.next() {
            Some((_, c, p)) => (c, p.0.len(), iter.0.offset()),
            None => {
                return None;
            },
        };
        let total = self.dat.len();
        assert(self.off + used <= total);
        self.off += used;
        let val = vstd::slice::slice_subrange(self.dat.as_slice(), self.off - plen, self.off);
        proof {
            let h = head(reg, s).unwrap();
            assert(self@ =~= s.skip(h.2 as int));
            assert(val@ =~= s.subrange(h.1 as int, h.2 as int));
            let first = seq![(h.0, s.subrange(h.1 as int, h.2 as int))];
            assert((first + scan(reg, s.skip(h.2 as int)).unwrap()).drop_first() =~= scan(
                reg,
                s.skip(h.2 as int),
            ).unwrap());
        }
        Some(ProtoValue::borrowed(c, Checked(val)))
    }

    /// Remove the first protocol component.
    pub fn drop_first(&mut self)
        requires
            old(self).wf(),
        ensures
            final(self).wf(),
            final(self).registry() == old(self).registry(),
            final(self).is_inline() == old(self).is_inline(),
            old(self)@.len() == 0 ==> final(self)@ == old(self)@,
            old(self)@.len() == 0 ==> final(self).offset() == old(self).offset(),
            old(self)@.len() > 0 ==> {
                &&& final(self).components() == old(self).components().drop_first()
                &&& head(old(self).registry(), old(self)@) is Ok
                &&& final(self)@ == old(self)@.skip(
                    head(old(self).registry(), old(self)@).unwrap().2 as int,
                )
                &&& final(self).offset() == old(self).offset() + head(
                    old(self).registry(),
                    old(self)@,
                ).unwrap().2
            },
    {
        let ghost s = self@;
        let ghost reg = *self.reg;
        let mut iter = ValidBytesIter::new(self.as_ref(), self.reg);
        assert(iter.remaining() =~= s);
        if iter.next().is_some() {
            let used = iter.0.offset();
            let total = self.dat.len();
            assert(self.off + used <= total);
            self.off += used;
            proof {
                let h = head(reg, s).unwrap();
                assert(self@ =~= s.skip(h.2 as int));
                let first = seq![(h.0, s.subrange(h.1 as int, h.2 as int))];
                assert((first + scan(reg, s.skip(h.2 as int)).unwrap()).drop_first() =~= scan(
                    reg,
                    s.skip(h.2 as int),
                ).unwrap());
            }
        }
    }

    /// Remove the last protocol component.
    ///
    /// O(n) in the number of protocols.
    pub fn drop_last(&mut self)
        requires
            old(self).wf(),
        ensures
            final(self).wf(),
            final(self).registry() == old(self).registry(),
            final(self).offset() == old(self).offset(),
            final(self).is_inline() == old(self).is_inline(),
            old(self)@.len() == 0 ==> final(self)@ == old(self)@,
            old(self)@.len() > 0 ==> {
                &&& final(self).components() == old(self).components().drop_last()
                &&& final(self)@ == old(self)@.take(
                    last_start(old(self).registry(), old(self)@) as int,
                )
            },
    {
        let ghost s = self@;
        let ghost reg = *self.reg;
        let iter = ValidBytesIter::new(self.as_ref(), self.reg);
        if let Some((o, _, _)) = iter.last() {
            proof {
                lemma_scan_last(reg, s);
            }
            let total = self.dat.len();
            assert(self.off + o < total);
            self.dat.truncate(self.off + o);
            assert(self@ =~= s.take(o as int));
        }
    }

    /// Return a reference to the first protocol component.
    pub fn first(&self) -> (r: Option<ProtoValue<'_>>)
        requires
            self.wf(),
        ensures
            self@.len() == 0 ==> r is None,
            self@.len() > 0 ==> r is Some && r.unwrap()@ == self.components().first()
                && !r.unwrap().is_owned(),
    {
        let mut it = self.iter();
        it.next()
    }

    /// Return a reference to the last protocol component.
    ///
    /// O(n) in the number of protocols.
    pub fn last(&self) -> (r: Option<ProtoValue<'_>>)
        requires
            self.wf(),
        ensures
            self@.len() == 0 ==> r is None,
            self@.len() > 0 ==> r is Some && r.unwrap()@ == self.components().last()
                && !r.unwrap().is_owned(),
    {
        self.iter().last()
    }

    /// Get an iterator over the protocol components.
    pub fn iter(&self) -> (it: ProtoIter<'_, C>)
        requires
            self.wf(),
        ensures
            it.wf(),
            it.registry() == self.registry(),
            it.remaining() == self@,
            it.at_start(),
    {
        let inner = ValidBytesIter::new(self.as_ref(), self.reg);
        assert(inner.remaining() =~= self@);
        ProtoIter(inner)
    }

    /// Drop any excess capacity.
    pub fn shrink_to_fit(&mut self)
        ensures
            final(self)@ == old(self)@,
            final(self).registry() == old(self).registry(),
            final(self).offset() == old(self).offset(),
            final(self).in_bounds() == old(self).in_bounds(),
            final(self).stored_len() == old(self).stored_len(),
            final(self).is_inline() == (old(self).is_inline() || old(self).stored_len()
                <= INLINE_CAPACITY),
    {
        self.dat.shrink_to_fit()
    }

    /// A copy of the address, with the same bytes and registry. Bytes that
    /// were dropped from the front are not carried over: the copy starts at
    /// offset 0, in a buffer of the same storage kind.
    pub fn clone(&self) -> (r: Self)
        requires
            self.wf(),
        ensures
            r@ == self@,
            r.wf(),
            r.registry() == self.registry(),
            r.offset() == 0,
            r.is_inline() == self.is_inline(),
    {
        if self.off > 0 {
            let live = self.as_ref();
            let dat = if self.dat.is_inline() {
                SmallBuf::from_slice(live)
            } else {
                SmallBuf::heap_from_slice(live)
            };
            let r = MultiAddr { dat, off: 0, reg: self.reg };
            assert(r@ =~= self@);
            r
        } else {
            let r = MultiAddr { dat: self.dat.duplicate(), off: self.off, reg: self.reg };
            assert(r@ =~= self@);
            r
        }
    }

    /// Whether two addresses hold the same bytes from their logical starts
    /// on. What was dropped from the front, and how the buffers are stored,
    /// does not count.
    pub fn eq(&self, other: &Self) -> (r: bool)
        requires
            self.wf(),
            other.wf(),
        ensures
            r == (self@ == other@),
    {
        slices_equal(self.as_ref(), other.as_ref())
    }
}

/// Iterator over the binary protocol values of an address.
#[derive(Debug)]
pub struct ProtoIter<'a, C: Codec>(ValidBytesIter<'a, C>);

impl<'a, C: Codec> ProtoIter<'a, C> {
    /// What is still to be read is a valid sequence of components.
    pub closed spec fn wf(&self) -> bool {
        self.0.wf()
    }

    /// The registry that the components are read by.
    pub closed spec fn registry(&self) -> Registry<C> {
        self.0.registry()
    }

    /// The bytes that are still to be read.
    pub closed spec fn remaining(&self) -> Seq<u8> {
        self.0.remaining()
    }

    /// Nothing was read yet.
    pub closed spec fn at_start(&self) -> bool {
        self.0.consumed() == 0
    }

    /// The components that are still to come.
    pub open spec fn parts(&self) -> Seq<(Code, Seq<u8>)> {
        scan(self.registry(), self.remaining()).unwrap()
    }

    /// The next component, borrowed from the address, or `None` at the end.
    pub fn next(&mut self) -> (r: Option<ProtoValue<'a>>)
        requires
            old(self).wf(),
        ensures
            final(self).wf(),
            final(self).registry() == old(self).registry(),
            old(self).remaining().len() == 0 ==> r is None,
            old(self).remaining().len() == 0 ==> final(self).remaining() == old(self).remaining(),
            old(self).remaining().len() > 0 ==> {
                &&& r is Some
                &&& r.unwrap()@ == old(self).parts().first()
                &&& !r.unwrap().is_owned()
                &&& final(self).parts() == old(self).parts().drop_first()
                &&& final(self).remaining().len() < old(self).remaining().len()
            },
    {
        let ghost s = self.0.remaining();
        let ghost reg = self.0.registry();
        match self.0.next() {
            Some((_, c, p)) => {
                proof {
                    let h = head(reg, s).unwrap();
                    assert(self.0.remaining() =~= s.skip(h.2 as int));
                    let first = seq![(h.0, s.subrange(h.1 as int, h.2 as int))];
                    assert((first + scan(reg, s.skip(h.2 as int)).unwrap()).drop_first() =~= scan(
                        reg,
                        s.skip(h.2 as int),
                    ).unwrap());
                }
                Some(ProtoValue::borrowed(c, p))
            },
            None => None,
        }
    }

    /// The last component of an iterator that has not been read from yet,
    /// borrowed from the address, or `None` where there is none.
    pub fn last(self) -> (r: Option<ProtoValue<'a>>)
        requires
            self.wf(),
            self.at_start(),
        ensures
            self.remaining().len() == 0 ==> r is None,
            self.remaining().len() > 0 ==> r is Some && r.unwrap()@ == self.parts().last()
                && !r.unwrap().is_owned(),
    {
        let ghost s = self.0.input();
        assert(self.0.remaining() =~= s);
        proof {
            if s.len() > 0 {
                lemma_scan_last(self.0.registry(), s);
            }
        }
        match self.0.last() {
            Some((_, c, p)) => Some(ProtoValue::borrowed(c, p)),
            None => None,
        }
    }
}

} // verus!
