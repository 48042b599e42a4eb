//! What holds of addresses across their operations.

use crate::code::Code;
use crate::codec::Codec;
use crate::error::Error;
use crate::iter::{
    head, last_start, lemma_last_start_append, lemma_scan_append, lemma_scan_step, scan,
};
use crate::multiaddr::{single, MultiAddr};
use crate::registry::Registry;
use crate::text::{parse_text, render, text_head};
use crate::varint;
use vstd::prelude::*;

verus! {

/// Appending one component and then removing the last component gives the
/// component back and leaves the bytes that were there before.
pub proof fn lemma_push_then_pop<C: Codec>(reg: Registry<C>, a: Seq<u8>, c: Seq<u8>)
    requires
        scan(reg, a) is Ok,
        single(reg, c),
    ensures
        scan(reg, a + c) is Ok,
        scan(reg, a + c).unwrap().last() == scan(reg, c).unwrap().first(),
        scan(reg, a + c).unwrap().drop_last() == scan(reg, a).unwrap(),
        (a + c).take(last_start(reg, a + c) as int) == a,
{
    lemma_single_scan(reg, c);
    lemma_scan_append(reg, a, c);
    lemma_last_start_append(reg, a, c);
    assert((a + c).take(a.len() as int) =~= a);
    let one = scan(reg, c).unwrap();
    assert((scan(reg, a).unwrap() + one).drop_last() =~= scan(reg, a).unwrap());
}

/// One whole component scans as a sequence of one.
pub proof fn lemma_single_scan<C: Codec>(reg: Registry<C>, c: Seq<u8>)
    requires
        single(reg, c),
    ensures
        scan(reg, c) is Ok,
        scan(reg, c).unwrap().len() == 1,
        scan(reg, c).unwrap().first() == (
            head(reg, c).unwrap().0,
            c.subrange(head(reg, c).unwrap().1 as int, c.len() as int),
        ),
        last_start(reg, c) == 0,
{
    let end = head(reg, c).unwrap().2;
    assert(c.skip(end as int).len() == 0);
    assert(scan(reg, c.skip(end as int)) == Ok::<Seq<(Code, Seq<u8>)>, Error>(Seq::empty()));
}

/// In an address of exactly one component, the first component and the last
/// are the same, and removing it from either end leaves no bytes.
pub proof fn lemma_front_back_single<C: Codec>(reg: Registry<C>, s: Seq<u8>)
    requires
        scan(reg, s) is Ok,
        scan(reg, s).unwrap().len() == 1,
    ensures
        scan(reg, s).unwrap().first() == scan(reg, s).unwrap().last(),
        head(reg, s) is Ok,
        s.skip(head(reg, s).unwrap().2 as int) == Seq::<u8>::empty(),
        s.take(last_start(reg, s) as int) == Seq::<u8>::empty(),
{
    assert(s.len() > 0);
    let end = head(reg, s).unwrap().2;
    let rest = s.skip(end as int);
    if rest.len() > 0 {
        assert(scan(reg, rest).unwrap().len() >= 1);
    }
    assert(rest =~= Seq::<u8>::empty());
    assert(s.take(0) =~= Seq::<u8>::empty());
}

/// The bytes of a valid address are read back as the address: scanning them
/// succeeds, gives the components of the address, and the components written
/// one after the other are the bytes again.
pub proof fn lemma_bytes_round_trip<'r, C: Codec>(a: MultiAddr<'r, C>)
    requires
        a.wf(),
    ensures
        scan(a.registry(), a@) == Ok::<Seq<(Code, Seq<u8>)>, Error>(a.components()),
        binary(a.components()) == a@,
{
    lemma_scan_binary(a.registry(), a@);
}

/// The components of a sequence of bytes, written one after the other, are
/// those bytes.
pub proof fn lemma_scan_binary<C: Codec>(reg: Registry<C>, s: Seq<u8>)
    requires
        scan(reg, s) is Ok,
    ensures
        binary(scan(reg, s).unwrap()) == s,
    decreases s.len(),
{
    lemma_scan_step(reg, s);
    if s.len() > 0 {
        let (code, start, end) = head(reg, s).unwrap();
        varint::lemma_decode_canonical(s);
        lemma_scan_binary(reg, s.skip(end as int));
        assert(s.take(start as int) + s.subrange(start as int, end as int) + s.skip(end as int)
            =~= s);
    } else {
        assert(s =~= Seq::<u8>::empty());
    }
}

/// The binary form of a sequence of components: each code, then its value.
pub open spec fn binary(parts: Seq<(Code, Seq<u8>)>) -> Seq<u8>
    decreases parts.len(),
{
    if parts.len() == 0 {
        Seq::empty()
    } else {
        varint::encode(parts[0].0.0 as nat) + parts[0].1 + binary(parts.drop_first())
    }
}

/// The text of the component `(code, value)`, followed by the text
/// `following`, is read back as that component: its text ends where
/// `following` starts, and the codec of its prefix turns the text of the
/// value back into the code and the value.
pub open spec fn reads_back<C: Codec>(
    reg: Registry<C>,
    code: Code,
    value: Seq<u8>,
    following: Seq<u8>,
) -> bool {
    match reg.by_code(code) {
        None => false,
        Some(codec) => match codec.transcode_bytes_spec(code, value) {
            Err(_) => false,
            Ok(t) => {
                let found = text_head(reg, t + following);
                &&& t.len() > 0
                &&& found is Ok
                &&& found.unwrap().2 == t.len()
                &&& reg.by_prefix(found.unwrap().0).unwrap().transcode_str_spec(
                    found.unwrap().0,
                    (t + following).subrange(found.unwrap().1 as int, t.len() as int),
                ) == Ok::<Seq<u8>, Error>(varint::encode(code.0 as nat) + value)
            },
        },
    }
}

/// Every component is read back from its text where it stands. This fails
/// where the text of a value runs on into the text that follows it, as the
/// value of a path protocol does before another component.
pub open spec fn faithful<C: Codec>(reg: Registry<C>, parts: Seq<(Code, Seq<u8>)>) -> bool
    decreases parts.len(),
{
    if parts.len() == 0 {
        true
    } else {
        &&& render(reg, parts.drop_first()) is Ok
        &&& reads_back(reg, parts[0].0, parts[0].1, render(reg, parts.drop_first()).unwrap())
        &&& faithful(reg, parts.drop_first())
    }
}

/// Components that are read back from their text where they stand have a
/// text, and that text parses into their binary form.
pub proof fn lemma_render_then_parse<C: Codec>(reg: Registry<C>, parts: Seq<(Code, Seq<u8>)>)
    requires
        faithful(reg, parts),
    ensures
        render(reg, parts) is Ok,
        parse_text(reg, render(reg, parts).unwrap()) == Ok::<Seq<u8>, Error>(binary(parts)),
    decreases parts.len(),
{
    if parts.len() > 0 {
        let rest_parts = parts.drop_first();
        lemma_render_then_parse(reg, rest_parts);
        let rest = render(reg, rest_parts).unwrap();
        let codec = reg.by_code(parts[0].0).unwrap();
        let t = codec.transcode_bytes_spec(parts[0].0, parts[0].1).unwrap();
        assert((t + rest).skip(t.len() as int) =~= rest);
        assert(varint::encode(parts[0].0.0 as nat) + parts[0].1 + binary(rest_parts) =~= (
            varint::encode(parts[0].0.0 as nat) + parts[0].1) + binary(rest_parts));
    }
}

/// The text of a valid address whose components are read back from their
/// text where they stand parses into the bytes of the address.
pub proof fn lemma_text_round_trip<'r, C: Codec>(a: MultiAddr<'r, C>)
    requires
        a.wf(),
        faithful(a.registry(), a.components()),
    ensures
        render(a.registry(), a.components()) is Ok,
        parse_text(a.registry(), render(a.registry(), a.components()).unwrap()) == Ok::<
            Seq<u8>,
            Error,
        >(a@),
        scan(a.registry(), a@) is Ok,
{
    lemma_render_then_parse(a.registry(), a.components());
    lemma_scan_binary(a.registry(), a@);
}

} // verus!
