//! Protocols whose value is a name: a run of bytes that is text and binary
//! value at once. In binary the name follows its length.

use crate::code::{Checked, Code};
use crate::codec::{Buffer, Codec, Protocol, SEPARATOR};
use crate::error::Error;
use crate::laws::reads_back;
use crate::multiaddr::single;
use crate::registry::Registry;
use crate::text::{lemma_prefix_len_stop, prefix_len, text_head};
use crate::varint;
use vstd::prelude::*;
use vstd::string::StringSliceAdditionalSpecFns;

verus! {

/// The length of the name at the head of `input` together with the bytes of
/// its length, where the name lies within `input`.
pub open spec fn framed_len(input: Seq<u8>) -> Option<nat> {
    match varint::decode(input) {
        Some((l, h)) => if h + l <= input.len() {
            Some((h + l) as nat)
        } else {
            None
        },
        None => None,
    }
}

/// The binary value of the name `name`.
pub open spec fn framed(name: Seq<u8>) -> Seq<u8> {
    varint::encode(name.len()) + name
}

/// The text of a name under a prefix.
pub open spec fn labelled(prefix: Seq<u8>, name: Seq<u8>) -> Seq<u8> {
    seq![SEPARATOR] + prefix + seq![SEPARATOR] + name
}

/// A binary value that is exactly one framed name frames the name that
/// follows its length.
pub proof fn lemma_framed_whole(value: Seq<u8>)
    requires
        framed_len(value) == Some(value.len()),
    ensures
        framed(value.skip(varint::decode(value).unwrap().1 as int)) == value,
{
    varint::lemma_decode_canonical(value);
    let h = varint::decode(value).unwrap().1 as int;
    assert(value.take(h) + value.skip(h) =~= value);
}

/// Reads the length in front of a name: the number of bytes that the length
/// and the name take together.
fn read_frame(input: &[u8]) -> (r: Option<(usize, usize)>)
    ensures
        match framed_len(input@) {
            Some(n) => r == Some((varint::decode(input@).unwrap().1 as usize, n as usize)) && n
                <= input@.len() && varint::decode(input@).unwrap().1 <= n,
            None => r is None,
        },
{
    match varint::read(input) {
        Some((l, h)) => {
            if l as usize <= input.len() - h {
                Some((h, h + l as usize))
            } else {
                None
            }
        },
        None => None,
    }
}

fn write_frame<B: Buffer>(code: Code, name: &[u8], buf: &mut B)
    ensures
        final(buf).bytes() == old(buf).bytes() + varint::encode(code.0 as nat) + framed(name@),
{
    let mut tmp: Vec<u8> = Vec::new();
    varint::write(code.0 as u64, &mut tmp);
    varint::write(name.len() as u64, &mut tmp);
    tmp.extend_from_slice(name);
    let ghost before = buf.bytes();
    buf.extend_with(tmp.as_slice());
    assert(before + tmp@ =~= before + varint::encode(code.0 as nat) + framed(name@));
}

fn write_label(prefix: &[u8], name: &[u8], f: &mut Vec<u8>)
    ensures
        final(f)@ == old(f)@ + labelled(prefix@, name@),
{
    let ghost before = f@;
    f.push(SEPARATOR);
    f.extend_from_slice(prefix);
    f.push(SEPARATOR);
    f.extend_from_slice(name);
    assert(f@ =~= before + labelled(prefix@, name@));
}

/// The codec of one protocol whose value is a name. The name of a path
/// protocol may hold the separator and runs to the end of the text; any other
/// name ends before the next separator.
#[derive(Debug)]
pub struct NameCodec {
    pub code: Code,
    pub prefix: Vec<u8>,
    pub path: bool,
}

impl NameCodec {
    /// The codec of the protocol with this code and prefix.
    pub fn new(code: Code, prefix: &str, path: bool) -> (c: Self)
        ensures
            c.code == code,
            c.prefix@ == prefix.spec_bytes(),
            c.path == path,
    {
        NameCodec { code, prefix: vstd::slice::slice_to_vec(prefix.as_bytes()), path }
    }
}

impl Codec for NameCodec {
    open spec fn split_str_spec(&self, prefix: Seq<u8>, input: Seq<u8>) -> Result<nat, Error> {
        if self.path {
            Ok(input.len())
        } else {
            Ok(crate::text::prefix_len(input))
        }
    }

    open spec fn split_bytes_spec(&self, code: Code, input: Seq<u8>) -> Result<nat, Error> {
        match framed_len(input) {
            Some(n) => Ok(n),
            None => Err(Error::InvalidProto(code)),
        }
    }

    open spec fn is_valid_bytes_spec(&self, code: Code, value: Seq<u8>) -> bool {
        framed_len(value) == Some(value.len())
    }

    open spec fn transcode_str_spec(&self, prefix: Seq<u8>, value: Seq<u8>) -> Result<
        Seq<u8>,
        Error,
    > {
        Ok(varint::encode(self.code.0 as nat) + framed(value))
    }

    open spec fn transcode_bytes_spec(&self, code: Code, value: Seq<u8>) -> Result<
        Seq<u8>,
        Error,
    > {
        if framed_len(value) == Some(value.len()) {
            Ok(labelled(self.prefix@, value.skip(varint::decode(value).unwrap().1 as int)))
        } else {
            Err(Error::InvalidProto(code))
        }
    }

    fn split_str<'a>(&self, prefix: &[u8], input: &'a [u8]) -> (r: Result<
        (Checked<&'a [u8]>, &'a [u8]),
        Error,
    >) {
        let n = if self.path {
            input.len()
        } else {
            crate::text::find_separator(input, 0)
        };
        proof {
            assert(input@.skip(0) =~= input@);
        }
        let value = vstd::slice::slice_subrange(input, 0, n);
        let rest = vstd::slice::slice_subrange(input, n, input.len());
        Ok((Checked(value), rest))
    }

    fn split_bytes<'a>(&self, code: Code, input: &'a [u8]) -> (r: Result<
        (Checked<&'a [u8]>, &'a [u8]),
        Error,
    >) {
        match read_frame(input) {
            Some((_, n)) => {
                let value = vstd::slice::slice_subrange(input, 0, n);
                let rest = vstd::slice::slice_subrange(input, n, input.len());
                Ok((Checked(value), rest))
            },
            None => Err(Error::InvalidProto(code)),
        }
    }

    fn is_valid_bytes(&self, code: Code, value: Checked<&[u8]>) -> (r: bool) {
        match read_frame(value.0) {
            Some((_, n)) => n == value.0.len(),
            None => false,
        }
    }

    fn transcode_str<B: Buffer>(&self, prefix: &[u8], value: Checked<&[u8]>, buf: &mut B) -> (r:
        Result<(), Error>) {
        let ghost before = buf.bytes();
        write_frame(self.code, value.0, buf);
        assert(before + varint::encode(self.code.0 as nat) + framed(value.0@) =~= before + (
            varint::encode(self.code.0 as nat) + framed(value.0@)));
        Ok(())
    }

    fn transcode_bytes(&self, code: Code, value: Checked<&[u8]>, f: &mut Vec<u8>) -> (r: Result<
        (),
        Error,
    >) {
        match read_frame(value.0) {
            Some((h, n)) => {
                if n == value.0.len() {
                    let name = vstd::slice::slice_subrange(value.0, h, n);
                    assert(name@ =~= value.0@.skip(h as int));
                    write_label(self.prefix.as_slice(), name, f);
                    Ok(())
                } else {
                    Err(Error::InvalidProto(code))
                }
            },
            None => Err(Error::InvalidProto(code)),
        }
    }

    proof fn lemma_split_bytes_local(&self, code: Code, a: Seq<u8>, b: Seq<u8>) {
        let n = framed_len(a).unwrap() as int;
        varint::lemma_decode_canonical(a);
        let h = varint::decode(a).unwrap().1 as int;
        assert(b.take(h) =~= b.take(n).take(h));
        assert(a.take(h) =~= a.take(n).take(h));
        varint::lemma_decode_local(a, b);
    }
}

/// A name of a length that 32 bits hold, written under a registered code, is
/// one whole component.
pub proof fn lemma_name_is_single(reg: Registry<NameCodec>, code: Code, name: Seq<u8>)
    requires
        reg.by_code(code) is Some,
        name.len() <= u32::MAX,
    ensures
        single(reg, varint::encode(code.0 as nat) + framed(name)),
{
    let c = varint::encode(code.0 as nat) + framed(name);
    varint::lemma_decode_encode(code.0, framed(name));
    varint::lemma_decode_encode(name.len() as u32, name);
    let h = varint::encode(code.0 as nat).len() as int;
    assert(c.skip(h) =~= framed(name));
    assert(c.subrange(h, c.len() as int) =~= framed(name));
}

/// The text of a valid value is read back as the value, where the registry
/// holds the codec of its code under the prefix that the codec writes, the
/// protocol is no path protocol, neither prefix nor name holds a separator,
/// and the text that follows is empty or starts with a separator.
pub proof fn lemma_name_reads_back(
    reg: Registry<NameCodec>,
    code: Code,
    value: Seq<u8>,
    following: Seq<u8>,
)
    requires
        reg.by_code(code) is Some,
        reg.by_prefix(reg.by_code(code).unwrap().prefix@) is Some,
        reg.by_prefix(reg.by_code(code).unwrap().prefix@).unwrap().code == code,
        !reg.by_prefix(reg.by_code(code).unwrap().prefix@).unwrap().path,
        prefix_len(reg.by_code(code).unwrap().prefix@) == reg.by_code(code).unwrap().prefix@.len(),
        framed_len(value) == Some(value.len()),
        prefix_len(value.skip(varint::decode(value).unwrap().1 as int)) == value.len()
            - varint::decode(value).unwrap().1,
        following.len() == 0 || following[0] == SEPARATOR,
    ensures
        reads_back(reg, code, value, following),
{
    let codec = reg.by_code(code).unwrap();
    let prefix = codec.prefix@;
    varint::lemma_decode_canonical(value);
    let name = value.skip(varint::decode(value).unwrap().1 as int);
    let t = labelled(prefix, name);
    let u = t + following;
    let after = seq![SEPARATOR] + name + following;
    assert(u.skip(1) =~= prefix + after);
    lemma_prefix_len_stop(prefix, after);
    let k = prefix.len() as int;
    assert(u.subrange(1, 1 + k) =~= prefix);
    assert(u.skip(2 + k) =~= name + following);
    lemma_prefix_len_stop(name, following);
    assert(u.subrange(2 + k, t.len() as int) =~= name);
    lemma_framed_whole(value);
    assert(text_head(reg, u) == Ok::<(Seq<u8>, nat, nat), Error>(
        (prefix, (2 + k) as nat, t.len()),
    ));
}

/// The code of the `service` protocol.
pub const SERVICE: u32 = 62526;

/// The code of the `worker` protocol.
pub const WORKER: u32 = 62525;

/// The name of a service.
#[derive(Debug)]
pub struct Service {
    pub name: Vec<u8>,
}

/// The name of a worker.
#[derive(Debug)]
pub struct Worker {
    pub name: Vec<u8>,
}

impl Service {
    /// The service with the name `name`.
    pub fn new(name: &str) -> (s: Self)
        ensures
            s.name@ == name.spec_bytes(),
    {
        Service { name: vstd::slice::slice_to_vec(name.as_bytes()) }
    }
}

impl Worker {
    /// The worker with the name `name`.
    pub fn new(name: &str) -> (s: Self)
        ensures
            s.name@ == name.spec_bytes(),
    {
        Worker { name: vstd::slice::slice_to_vec(name.as_bytes()) }
    }
}

impl<'a> Protocol<'a> for Service {
    open spec fn code_spec() -> Code {
        Code(SERVICE)
    }

    open spec fn prefix_spec() -> Seq<u8> {
        "service".spec_bytes()
    }

    open spec fn value_spec(&self) -> Seq<u8> {
        framed(self.name@)
    }

    open spec fn read_str_spec(input: Seq<u8>) -> Result<Seq<u8>, Error> {
        Ok(framed(input))
    }

    open spec fn read_bytes_spec(input: Seq<u8>) -> Result<(), Error> {
        if framed_len(input) == Some(input.len()) {
            Ok(())
        } else {
            Err(Error::InvalidProto(Code(SERVICE)))
        }
    }

    open spec fn text_spec(&self) -> Result<Seq<u8>, Error> {
        Ok(labelled("service".spec_bytes(), self.name@))
    }

    fn code() -> (c: Code) {
        Code(SERVICE)
    }

    fn prefix() -> (p: &'static str) {
        "service"
    }

    fn read_str(input: Checked<&'a [u8]>) -> (r: Result<Self, Error>) {
        Ok(Service { name: vstd::slice::slice_to_vec(input.0) })
    }

    fn write_str(&self, f: &mut Vec<u8>) -> (r: Result<(), Error>) {
        write_label("service".as_bytes(), self.name.as_slice(), f);
        Ok(())
    }

    fn read_bytes(input: Checked<&'a [u8]>) -> (r: Result<Self, Error>) {
        match read_frame(input.0) {
            Some((h, n)) => {
                if n == input.0.len() {
                    proof {
                        lemma_framed_whole(input.0@);
                    }
                    let name = vstd::slice::slice_subrange(input.0, h, n);
                    assert(name@ =~= input.0@.skip(h as int));
                    Ok(Service { name: vstd::slice::slice_to_vec(name) })
                } else {
                    Err(Error::InvalidProto(Code(SERVICE)))
                }
            },
            None => Err(Error::InvalidProto(Code(SERVICE))),
        }
    }

    fn write_bytes<B: Buffer>(&self, buf: &mut B) {
        write_frame(Code(SERVICE), self.name.as_slice(), buf)
    }
}

impl<'a> Protocol<'a> for Worker {
    open spec fn code_spec() -> Code {
        Code(WORKER)
    }

    open spec fn prefix_spec() -> Seq<u8> {
        "worker".spec_bytes()
    }

    open spec fn value_spec(&self) -> Seq<u8> {
        framed(self.name@)
    }

    open spec fn read_str_spec(input: Seq<u8>) -> Result<Seq<u8>, Error> {
        Ok(framed(input))
    }

    open spec fn read_bytes_spec(input: Seq<u8>) -> Result<(), Error> {
        if framed_len(input) == Some(input.len()) {
            Ok(())
        } else {
            Err(Error::InvalidProto(Code(WORKER)))
        }
    }

    open spec fn text_spec(&self) -> Result<Seq<u8>, Error> {
        Ok(labelled("worker".spec_bytes(), self.name@))
    }

    fn code() -> (c: Code) {
        Code(WORKER)
    }

    fn prefix() -> (p: &'static str) {
        "worker"
    }

    fn read_str(input: Checked<&'a [u8]>) -> (r: Result<Self, Error>) {
        Ok(Worker { name: vstd::slice::slice_to_vec(input.0) })
    }

    fn write_str(&self, f: &mut Vec<u8>) -> (r: Result<(), Error>) {
        write_label("worker".as_bytes(), self.name.as_slice(), f);
        Ok(())
    }

    fn read_bytes(input: Checked<&'a [u8]>) -> (r: Result<Self, Error>) {
        match read_frame(input.0) {
            Some((h, n)) => {
                if n == input.0.len() {
                    proof {
                        lemma_framed_whole(input.0@);
                    }
                    let name = vstd::slice::slice_subrange(input.0, h, n);
                    assert(name@ =~= input.0@.skip(h as int));
                    Ok(Worker { name: vstd::slice::slice_to_vec(name) })
                } else {
                    Err(Error::InvalidProto(Code(WORKER)))
                }
            },
            None => Err(Error::InvalidProto(Code(WORKER))),
        }
    }

    fn write_bytes<B: Buffer>(&self, buf: &mut B) {
        write_frame(Code(WORKER), self.name.as_slice(), buf)
    }
}

} // verus!
