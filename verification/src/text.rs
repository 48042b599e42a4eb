//! Taking the text of an address apart, one component at a time.
//!
//! ```text
//! Address <- ('/' Prefix '/' Value)*
//! ```
//!
//! A prefix runs up to the next `/` or the end of the text. Where the value
//! ends is for the codec of the prefix to say: the value of a path protocol
//! may hold `/` and then runs to the end of the text.

use crate::code::{Checked, Code};
use crate::codec::{Codec, SEPARATOR};
use crate::error::Error;
use crate::registry::Registry;
use vstd::prelude::*;
use vstd::string::StringSliceAdditionalSpecFns;

verus! {

/// The number of bytes before the first separator of `t`, or the length of
/// `t` where it has none.
pub open spec fn prefix_len(t: Seq<u8>) -> nat
    decreases t.len(),
{
    if t.len() == 0 || t[0] == SEPARATOR {
        0
    } else {
        1 + prefix_len(t.skip(1))
    }
}

/// A run of bytes without a separator ends where the text after it starts,
/// if that text is empty or starts with a separator.
pub proof fn lemma_prefix_len_stop(a: Seq<u8>, b: Seq<u8>)
    requires
        prefix_len(a) == a.len(),
        b.len() == 0 || b[0] == SEPARATOR,
    ensures
        prefix_len(a + b) == a.len(),
    decreases a.len(),
{
    if a.len() == 0 {
        assert(a + b =~= b);
    } else {
        assert((a + b).skip(1) =~= a.skip(1) + b);
        lemma_prefix_len_stop(a.skip(1), b);
    }
}

/// The first component of the text `t`: its prefix, where its value starts
/// and where it ends.
pub open spec fn text_head<C: Codec>(reg: Registry<C>, t: Seq<u8>) -> Result<
    (Seq<u8>, nat, nat),
    Error,
> {
    if t.len() == 0 || t[0] != SEPARATOR {
        Err(Error::InvalidText)
    } else {
        let k = prefix_len(t.skip(1));
        let prefix = t.subrange(1, (1 + k) as int);
        let start: nat = if 1 + k < t.len() {
            2 + k
        } else {
            1 + k
        };
        match reg.by_prefix(prefix) {
            None => Err(Error::UnregisteredPrefix),
            Some(codec) => match codec.split_str_spec(prefix, t.skip(start as int)) {
                Err(e) => Err(e),
                Ok(n) => if start + n <= t.len() {
                    Ok((prefix, start, start + n))
                } else {
                    Err(Error::InvalidText)
                },
            },
        }
    }
}

/// The binary form of the text `t`: what the codec of each component makes
/// of its value, in order, or the first failure met on the way.
pub open spec fn parse_text<C: Codec>(reg: Registry<C>, t: Seq<u8>) -> Result<Seq<u8>, Error>
    decreases t.len(),
{
    if t.len() == 0 {
        Ok(Seq::empty())
    } else {
        match text_head(reg, t) {
            Err(e) => Err(e),
            Ok((prefix, start, end)) => match reg.by_prefix(prefix).unwrap().transcode_str_spec(
                prefix,
                t.subrange(start as int, end as int),
            ) {
                Err(e) => Err(e),
                Ok(b) => match parse_text(reg, t.skip(end as int)) {
                    Err(e) => Err(e),
                    Ok(rest) => Ok(b + rest),
                },
            },
        }
    }
}

/// The text of a sequence of components: what the codec of each makes of
/// its value, in order, or the first failure met on the way.
pub open spec fn render<C: Codec>(reg: Registry<C>, parts: Seq<(Code, Seq<u8>)>) -> Result<
    Seq<u8>,
    Error,
>
    decreases parts.len(),
{
    if parts.len() == 0 {
        Ok(Seq::empty())
    } else {
        match reg.by_code(parts[0].0) {
            None => Err(Error::UnregisteredCode(parts[0].0)),
            Some(codec) => match codec.transcode_bytes_spec(parts[0].0, parts[0].1) {
                Err(e) => Err(e),
                Ok(t) => match render(reg, parts.drop_first()) {
                    Err(e) => Err(e),
                    Ok(rest) => Ok(t + rest),
                },
            },
        }
    }
}

/// `String::from_utf8`: the string whose UTF-8 encoding is `v`, or `None`
/// where `v` is not well-formed UTF-8.
#[verifier::external_body]
pub(crate) fn string_from_utf8(v: Vec<u8>) -> (r: Option<String>)
    ensures
        r is Some <==> vstd::utf8::valid_utf8(v@),
        r matches Some(s) ==> vstd::utf8::encode_utf8(s@) == v@,
{
    match String::from_utf8(v) {
        Ok(s) => Some(s),
        Err(_) => None,
    }
}

/// The number of bytes of `s` from `from` up to the next separator.
pub(crate) fn find_separator(s: &[u8], from: usize) -> (k: usize)
    requires
        from <= s@.len(),
    ensures
        k == prefix_len(s@.skip(from as int)),
        from + k <= s@.len(),
{
    let total = s.len();
    let mut k: usize = 0;
    while from + k < total && s[from + k] != SEPARATOR
        invariant
            total == s@.len(),
            from + k <= s@.len(),
            prefix_len(s@.skip(from as int)) == k + prefix_len(s@.skip(from + k)),
        decreases s@.len() - k,
    {
        proof {
            assert(s@.skip(from + k).skip(1) =~= s@.skip(from + k + 1));
        }
        k += 1;
    }
    k
}

/// Walks over the components of a text, front to back, in one pass.
#[derive(Debug)]
pub struct StrIter<'a, C: Codec> {
    input: &'a [u8],
    pos: usize,
    reg: &'a Registry<C>,
}

impl<'a, C: Codec> StrIter<'a, C> {
    #[verifier::type_invariant]
    spec fn inv(self) -> bool {
        self.pos <= self.input@.len()
    }

    /// The registry that the components are read by.
    pub closed spec fn registry(&self) -> Registry<C> {
        *self.reg
    }

    /// The whole input.
    pub closed spec fn input(&self) -> Seq<u8> {
        self.input@
    }

    /// How many bytes of the input were consumed.
    pub closed spec fn consumed(&self) -> nat {
        self.pos as nat
    }

    /// The text that is still to be read.
    pub open spec fn remaining(&self) -> Seq<u8> {
        self.input().skip(self.consumed() as int)
    }

    /// An iterator over the components of the text `input`.
    pub fn with_registry(input: &'a str, reg: &'a Registry<C>) -> (it: Self)
        ensures
            it.input() == input.spec_bytes(),
            it.consumed() == 0,
            it.registry() == *reg,
    {
        StrIter { input: input.as_bytes(), pos: 0, reg }
    }

    /// The next component: its prefix and its value. The end of the text
    /// gives `None`. A failure is handed out once, and the iterator is then
    /// at its end.
    pub fn next(&mut self) -> (r: Option<Result<(&'a [u8], Checked<&'a [u8]>), Error>>)
        ensures
            final(self).input() == old(self).input(),
            final(self).registry() == old(self).registry(),
            final(self).consumed() <= final(self).input().len(),
            old(self).consumed() <= old(self).input().len(),
            old(self).remaining().len() == 0 ==> r is None,
            old(self).remaining().len() == 0 ==> final(self).consumed() == old(self).consumed(),
            old(self).remaining().len() > 0 ==> match text_head(
                old(self).registry(),
                old(self).remaining(),
            ) {
                Ok((prefix, start, end)) => {
                    &&& r is Some
                    &&& r.unwrap() is Ok
                    &&& r.unwrap().unwrap().0@ == prefix
                    &&& r.unwrap().unwrap().1.0@ == old(self).remaining().subrange(
                        start as int,
                        end as int,
                    )
                    &&& final(self).consumed() == old(self).consumed() + end
                    &&& end >= 1
                },
                Err(e) => {
                    &&& r is Some
                    &&& r.unwrap() is Err
                    &&& r.unwrap().unwrap_err() == e
                    &&& final(self).consumed() == final(self).input().len()
                },
            },
    {
        proof {
            use_type_invariant(&*self);
        }
        let total = self.input.len();
        if self.pos >= total {
            return None;
        }
        let begin = self.pos;
        let rest = vstd::slice::slice_subrange(self.input, begin, total);
        assert(rest@ =~= old(self).remaining());
        if rest[0] != SEPARATOR {
            self.pos = total;
            return Some(Err(Error::InvalidText));
        }
        let k = find_separator(rest, 1);
        let prefix = vstd::slice::slice_subrange(rest, 1, 1 + k);
        let start = if 1 + k < rest.len() {
            2 + k
        } else {
            1 + k
        };
        let codec = match self.reg.get_by_prefix(prefix) {
            Some(x) => x,
            None => {
                self.pos = total;
                return Some(Err(Error::UnregisteredPrefix));
            },
        };
        let after = vstd::slice::slice_subrange(rest, start, rest.len());
        assert(after@ =~= rest@.skip(start as int));
        match codec.split_str(prefix, after) {
            Err(e) => {
                self.pos = total;
                Some(Err(e))
            },
            Ok((value, _)) => {
                let n = value.get().len();
                assert(value.0@ =~= rest@.subrange(start as int, (start + n) as int));
                self.pos = begin + start + n;
                Some(Ok((prefix, value)))
            },
        }
    }
}

} // verus!
