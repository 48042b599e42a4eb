//! Taking the binary form of an address apart, one component at a time.

use crate::code::{Checked, Code};
use crate::codec::Codec;
use crate::error::Error;
use crate::registry::Registry;
use crate::varint;
use vstd::prelude::*;

verus! {

/// The first component of `s`: its code, where its value starts and where it
/// ends. The code must be registered, and its codec must delimit a value
/// that lies within `s` and that it finds valid.
pub open spec fn head<C: Codec>(reg: Registry<C>, s: Seq<u8>) -> Result<(Code, nat, nat), Error> {
    match varint::decode(s) {
        None => Err(Error::InvalidVarint),
        Some((c, h)) => match reg.by_code(Code(c)) {
            None => Err(Error::UnregisteredCode(Code(c))),
            Some(codec) => match codec.split_bytes_spec(Code(c), s.skip(h as int)) {
                Err(e) => Err(e),
                Ok(n) => if 1 <= h && h + n <= s.len() && codec.is_valid_bytes_spec(
                    Code(c),
                    s.subrange(h as int, (h + n) as int),
                ) {
                    Ok((Code(c), h, h + n))
                } else {
                    Err(Error::InvalidProto(Code(c)))
                },
            },
        },
    }
}

/// The components of `s`, each with its code and its value, or the first
/// failure met on the way from front to back.
pub open spec fn scan<C: Codec>(reg: Registry<C>, s: Seq<u8>) -> Result<Seq<(Code, Seq<u8>)>, Error>
    decreases s.len(),
{
    if s.len() == 0 {
        Ok(Seq::empty())
    } else {
        match head(reg, s) {
            Err(e) => Err(e),
            Ok((code, start, end)) => match scan(reg, s.skip(end as int)) {
                Err(e) => Err(e),
                Ok(parts) => Ok(seq![(code, s.subrange(start as int, end as int))] + parts),
            },
        }
    }
}

/// Where the last component of `s` starts.
pub open spec fn last_start<C: Codec>(reg: Registry<C>, s: Seq<u8>) -> nat
    decreases s.len(),
{
    if s.len() == 0 {
        0
    } else {
        match head(reg, s) {
            Err(_) => 0,
            Ok((_, _, end)) => if end >= s.len() {
                0
            } else {
                end + last_start(reg, s.skip(end as int))
            },
        }
    }
}

/// A valid sequence that is not empty starts with a component, and what
/// follows that component is valid and shorter.
pub proof fn lemma_scan_step<C: Codec>(reg: Registry<C>, s: Seq<u8>)
    requires
        scan(reg, s) is Ok,
    ensures
        s.len() == 0 ==> scan(reg, s).unwrap().len() == 0,
        s.len() > 0 ==> {
            &&& head(reg, s) is Ok
            &&& 1 <= head(reg, s).unwrap().2 <= s.len()
            &&& scan(reg, s.skip(head(reg, s).unwrap().2 as int)) is Ok
            &&& scan(reg, s).unwrap().len() > 0
            &&& scan(reg, s).unwrap().first() == (
                head(reg, s).unwrap().0,
                s.subrange(head(reg, s).unwrap().1 as int, head(reg, s).unwrap().2 as int),
            )
            &&& scan(reg, s).unwrap().drop_first() == scan(
                reg,
                s.skip(head(reg, s).unwrap().2 as int),
            ).unwrap()
        },
{
    if s.len() > 0 {
        let h = head(reg, s).unwrap();
        let first = seq![(h.0, s.subrange(h.1 as int, h.2 as int))];
        let rest = scan(reg, s.skip(h.2 as int)).unwrap();
        assert((first + rest).drop_first() =~= rest);
    }
}

/// The first component is told by its own bytes alone.
pub proof fn lemma_head_local<C: Codec>(reg: Registry<C>, a: Seq<u8>, b: Seq<u8>)
    requires
        head(reg, a) is Ok,
        head(reg, a).unwrap().2 <= b.len(),
        b.take(head(reg, a).unwrap().2 as int) == a.take(head(reg, a).unwrap().2 as int),
    ensures
        head(reg, b) == head(reg, a),
        b.subrange(head(reg, a).unwrap().1 as int, head(reg, a).unwrap().2 as int) == a.subrange(
            head(reg, a).unwrap().1 as int,
            head(reg, a).unwrap().2 as int,
        ),
{
    let (c, h) = varint::decode(a).unwrap();
    let codec = reg.by_code(Code(c)).unwrap();
    let n = codec.split_bytes_spec(Code(c), a.skip(h as int)).unwrap();
    let end = (h + n) as int;
    assert(b.take(h as int) =~= b.take(end).take(h as int));
    assert(a.take(h as int) =~= a.take(end).take(h as int));
    varint::lemma_decode_local(a, b);
    assert(b.skip(h as int).take(n as int) =~= b.take(end).skip(h as int));
    assert(a.skip(h as int).take(n as int) =~= a.take(end).skip(h as int));
    codec.lemma_split_bytes_local(Code(c), a.skip(h as int), b.skip(h as int));
    assert(b.subrange(h as int, end) =~= b.take(end).skip(h as int));
    assert(a.subrange(h as int, end) =~= a.take(end).skip(h as int));
}

/// The components of two valid sequences, one after the other, are the
/// components of the two sequences joined.
pub proof fn lemma_scan_append<C: Codec>(reg: Registry<C>, a: Seq<u8>, b: Seq<u8>)
    requires
        scan(reg, a) is Ok,
    ensures
        scan(reg, a + b) == match scan(reg, b) {
            Ok(parts) => Ok::<Seq<(Code, Seq<u8>)>, Error>(scan(reg, a).unwrap() + parts),
            Err(e) => Err(e),
        },
    decreases a.len(),
{
    if a.len() == 0 {
        assert(a + b =~= b);
        if scan(reg, b) is Ok {
            assert(scan(reg, a).unwrap() + scan(reg, b).unwrap() =~= scan(reg, b).unwrap());
        }
    } else {
        let (code, start, end) = head(reg, a).unwrap();
        assert((a + b).take(end as int) =~= a.take(end as int));
        lemma_head_local(reg, a, a + b);
        assert((a + b).skip(end as int) =~= a.skip(end as int) + b);
        lemma_scan_append(reg, a.skip(end as int), b);
        if scan(reg, b) is Ok {
            let first = seq![(code, a.subrange(start as int, end as int))];
            let rest = scan(reg, a.skip(end as int)).unwrap();
            let more = scan(reg, b).unwrap();
            assert(first + (rest + more) =~= (first + rest) + more);
        }
    }
}

/// A valid sequence that is not empty ends in a component of its own: what
/// lies before it is valid and holds the components before the last.
pub proof fn lemma_scan_last<C: Codec>(reg: Registry<C>, s: Seq<u8>)
    requires
        scan(reg, s) is Ok,
        s.len() > 0,
    ensures
        last_start(reg, s) < s.len(),
        scan(reg, s).unwrap().len() > 0,
        scan(reg, s.take(last_start(reg, s) as int)) == Ok::<Seq<(Code, Seq<u8>)>, Error>(
            scan(reg, s).unwrap().drop_last(),
        ),
        head(reg, s.skip(last_start(reg, s) as int)) is Ok,
        head(reg, s.skip(last_start(reg, s) as int)).unwrap().2 == s.len() - last_start(reg, s),
        scan(reg, s).unwrap().last() == (
            head(reg, s.skip(last_start(reg, s) as int)).unwrap().0,
            s.skip(last_start(reg, s) as int).subrange(
                head(reg, s.skip(last_start(reg, s) as int)).unwrap().1 as int,
                head(reg, s.skip(last_start(reg, s) as int)).unwrap().2 as int,
            ),
        ),
    decreases s.len(),
{
    let (code, start, end) = head(reg, s).unwrap();
    let first = seq![(code, s.subrange(start as int, end as int))];
    let tail = s.skip(end as int);
    if end >= s.len() {
        assert(tail.len() == 0);
        assert(s.take(0).len() == 0);
        assert(s.skip(0) =~= s);
        assert((first + Seq::<(Code, Seq<u8>)>::empty()).drop_last() =~= Seq::<
            (Code, Seq<u8>),
        >::empty());
    } else {
        lemma_scan_last(reg, tail);
        let o = last_start(reg, tail);
        let cut = s.take((end + o) as int);
        assert(cut.take(end as int) =~= s.take(end as int));
        lemma_head_local(reg, s, cut);
        assert(cut.skip(end as int) =~= tail.take(o as int));
        assert(tail.skip(o as int) =~= s.skip((end + o) as int));
        let rest = scan(reg, tail).unwrap();
        assert(first + rest.drop_last() =~= (first + rest).drop_last());
        if o == 0 {
            assert(cut.skip(end as int).len() == 0);
        }
    }
}

/// After a valid sequence, a single component starts where that sequence
/// ends.
pub proof fn lemma_last_start_append<C: Codec>(reg: Registry<C>, a: Seq<u8>, c: Seq<u8>)
    requires
        scan(reg, a) is Ok,
        head(reg, c) is Ok,
        head(reg, c).unwrap().2 == c.len(),
    ensures
        last_start(reg, a + c) == a.len(),
    decreases a.len(),
{
    if a.len() == 0 {
        assert(a + c =~= c);
    } else {
        let (code, start, end) = head(reg, a).unwrap();
        assert((a + c).take(end as int) =~= a.take(end as int));
        lemma_head_local(reg, a, a + c);
        assert((a + c).skip(end as int) =~= a.skip(end as int) + c);
        lemma_last_start_append(reg, a.skip(end as int), c);
    }
}

/// Walks over the components of a byte slice, front to back, in one pass.
#[derive(Debug)]
pub struct BytesIter<'a, C: Codec> {
    input: &'a [u8],
    pos: usize,
    reg: &'a Registry<C>,
}

impl<'a, C: Codec> BytesIter<'a, C> {
    #[verifier::type_invariant]
    spec fn inv(self) -> bool {
        self.pos <= self.input@.len()
    }

    /// The registry that the components are read by.
    pub closed spec fn registry(&self) -> Registry<C> {
        *self.reg
    }

    /// The whole input.
    pub closed spec fn input(&self) -> Seq<u8> {
        self.input@
    }

    /// How many bytes of the input were consumed.
    pub closed spec fn consumed(&self) -> nat {
        self.pos as nat
    }

    /// The bytes that are still to be read.
    pub open spec fn remaining(&self) -> Seq<u8> {
        self.input().skip(self.consumed() as int)
    }

    /// An iterator over the components of `input`.
    pub fn with_registry(input: &'a [u8], reg: &'a Registry<C>) -> (it: Self)
        ensures
            it.input() == input@,
            it.consumed() == 0,
            it.registry() == *reg,
    {
        BytesIter { input, pos: 0, reg }
    }

    /// The number of bytes consumed so far.
    pub fn offset(&self) -> (n: usize)
        ensures
            n == self.consumed(),
            n <= self.input().len(),
    {
        proof {
            use_type_invariant(self);
        }
        self.pos
    }

    /// The next component: where it starts in the input, its code and its
    /// value. The end of the input gives `None`. A failure is handed out
    /// once, and the iterator is then at its end.
    pub fn next(&mut self) -> (r: Option<Result<(usize, Code, Checked<&'a [u8]>), Error>>)
        ensures
            final(self).input() == old(self).input(),
            final(self).registry() == old(self).registry(),
            final(self).consumed() <= final(self).input().len(),
            old(self).consumed() <= old(self).input().len(),
            old(self).remaining().len() == 0 ==> r is None,
            old(self).remaining().len() == 0 ==> final(self).consumed() == old(self).consumed(),
            old(self).remaining().len() > 0 ==> match head(
                old(self).registry(),
                old(self).remaining(),
            ) {
                Ok((code, start, end)) => {
                    &&& r is Some
                    &&& r.unwrap() is Ok
                    &&& r.unwrap().unwrap().0 == old(self).consumed()
                    &&& r.unwrap().unwrap().1 == code
                    &&& r.unwrap().unwrap().2.0@ == old(self).remaining().subrange(
                        start as int,
                        end as int,
                    )
                    &&& final(self).consumed() == old(self).consumed() + end
                },
                Err(e) => {
                    &&& r is Some
                    &&& r.unwrap() is Err
                    &&& r.unwrap().unwrap_err() == e
                    &&& final(self).consumed() == final(self).input().len()
                },
            },
    {
        proof {
            use_type_invariant(&*self);
        }
        let total = self.input.len();
        if self.pos >= total {
            return None;
        }
        let begin = self.pos;
        let rest = vstd::slice::slice_subrange(self.input, begin, total);
        assert(rest@ =~= old(self).remaining());
        let (c, h) = match varint::read(rest) {
            Some(x) => x,
            None => {
                self.pos = total;
                return Some(Err(Error::InvalidVarint));
            },
        };
        let code = Code(c);
        let codec = match self.reg.get_by_code(code) {
            Some(x) => x,
            None => {
                self.pos = total;
                return Some(Err(Error::UnregisteredCode(code)));
            },
        };
        let after = vstd::slice::slice_subrange(rest, h, rest.len());
        assert(after@ =~= rest@.skip(h as int));
        match codec.split_bytes(code, after) {
            Err(e) => {
                self.pos = total;
                Some(Err(e))
            },
            Ok((value, _)) => {
                let n = value.get().len();
                assert(value.0@ =~= rest@.subrange(h as int, (h + n) as int));
                if codec.is_valid_bytes(code, value) {
                    self.pos = begin + h + n;
                    Some(Ok((begin, code, value)))
                } else {
                    self.pos = total;
                    Some(Err(Error::InvalidProto(code)))
                }
            },
        }
    }
}

} // verus!
