//! The catalog of known protocols, by code and by prefix.

use crate::code::Code;
use crate::codec::Codec;
use crate::error::Error;
use crate::small::slices_equal;
use vstd::prelude::*;
use vstd::string::StringSliceAdditionalSpecFns;

verus! {

/// One registered protocol.
#[derive(Debug)]
pub struct Entry<C> {
    pub code: Code,
    pub prefix: Vec<u8>,
    pub codec: C,
}

/// Entry `i` is the first of `es` with the code `code`.
pub open spec fn first_with_code<C>(es: Seq<Entry<C>>, code: Code, i: int) -> bool {
    &&& 0 <= i < es.len()
    &&& es[i].code == code
    &&& forall|j: int| 0 <= j < i ==> (#[trigger] es[j]).code != code
}

/// Entry `i` is the first of `es` with the prefix `prefix`.
pub open spec fn first_with_prefix<C>(es: Seq<Entry<C>>, prefix: Seq<u8>, i: int) -> bool {
    &&& 0 <= i < es.len()
    &&& es[i].prefix@ == prefix
    &&& forall|j: int| 0 <= j < i ==> (#[trigger] es[j]).prefix@ != prefix
}

/// The codec that `es` holds for `code`.
pub open spec fn codec_by_code<C>(es: Seq<Entry<C>>, code: Code) -> Option<C> {
    if exists|i: int| first_with_code(es, code, i) {
        Some(es[choose|i: int| first_with_code(es, code, i)].codec)
    } else {
        None
    }
}

/// The codec that `es` holds for `prefix`.
pub open spec fn codec_by_prefix<C>(es: Seq<Entry<C>>, prefix: Seq<u8>) -> Option<C> {
    if exists|i: int| first_with_prefix(es, prefix, i) {
        Some(es[choose|i: int| first_with_prefix(es, prefix, i)].codec)
    } else {
        None
    }
}

/// No code and no prefix occurs twice.
pub open spec fn distinct<C>(es: Seq<Entry<C>>) -> bool {
    forall|i: int, j: int|
        0 <= i < j < es.len() ==> {
            &&& (#[trigger] es[i]).code != (#[trigger] es[j]).code
            &&& es[i].prefix@ != es[j].prefix@
        }
}

/// The first entry with a code is one entry.
pub proof fn lemma_first_with_code_unique<C>(es: Seq<Entry<C>>, code: Code, i: int, j: int)
    requires
        first_with_code(es, code, i),
        first_with_code(es, code, j),
    ensures
        i == j,
{
    if i < j {
        assert(es[i].code != code);
    } else if j < i {
        assert(es[j].code != code);
    }
}

/// The first entry with a prefix is one entry.
pub proof fn lemma_first_with_prefix_unique<C>(es: Seq<Entry<C>>, prefix: Seq<u8>, i: int, j: int)
    requires
        first_with_prefix(es, prefix, i),
        first_with_prefix(es, prefix, j),
    ensures
        i == j,
{
    if i < j {
        assert(es[i].prefix@ != prefix);
    } else if j < i {
        assert(es[j].prefix@ != prefix);
    }
}

/// What a lookup by code finds after one more entry was added: the new
/// entry under a code that was free, and what it found before under every
/// other code.
pub proof fn lemma_code_lookup_after_push<C>(es: Seq<Entry<C>>, e: Entry<C>, code: Code)
    ensures
        codec_by_code(es.push(e), code) == if codec_by_code(es, code) is Some {
            codec_by_code(es, code)
        } else if e.code == code {
            Some(e.codec)
        } else {
            None
        },
{
    let more = es.push(e);
    if exists|i: int| first_with_code(es, code, i) {
        let i = choose|i: int| first_with_code(es, code, i);
        assert(forall|j: int| 0 <= j < i ==> (#[trigger] more[j]) == es[j]);
        assert(more[i] == es[i]);
        assert(first_with_code(more, code, i));
        let k = choose|k: int| first_with_code(more, code, k);
        lemma_first_with_code_unique(more, code, i, k);
    } else {
        assert forall|j: int| 0 <= j < es.len() implies (#[trigger] es[j]).code != code by {
            if es[j].code == code {
                lemma_some_first_code(es, code, j);
            }
        }
        assert(forall|j: int| 0 <= j < es.len() ==> (#[trigger] more[j]) == es[j]);
        if e.code == code {
            let n = es.len() as int;
            assert(more[n] == e);
            assert(first_with_code(more, code, n));
            let k = choose|k: int| first_with_code(more, code, k);
            lemma_first_with_code_unique(more, code, n, k);
        } else {
            assert forall|k: int| !first_with_code(more, code, k) by {
                if 0 <= k < more.len() {
                    if k < es.len() {
                        assert(more[k] == es[k]);
                    } else {
                        assert(more[k] == e);
                    }
                }
            }
        }
    }
}

/// Where some entry has the code, a first entry has it.
proof fn lemma_some_first_code<C>(es: Seq<Entry<C>>, code: Code, j: int)
    requires
        0 <= j < es.len(),
        es[j].code == code,
    ensures
        exists|i: int| first_with_code(es, code, i),
    decreases j,
{
    if exists|k: int| 0 <= k < j && (#[trigger] es[k]).code == code {
        let k = choose|k: int| 0 <= k < j && (#[trigger] es[k]).code == code;
        lemma_some_first_code(es, code, k);
    } else {
        assert(first_with_code(es, code, j));
    }
}

/// Where some entry has the prefix, a first entry has it.
proof fn lemma_some_first_prefix<C>(es: Seq<Entry<C>>, prefix: Seq<u8>, j: int)
    requires
        0 <= j < es.len(),
        es[j].prefix@ == prefix,
    ensures
        exists|i: int| first_with_prefix(es, prefix, i),
    decreases j,
{
    if exists|k: int| 0 <= k < j && (#[trigger] es[k]).prefix@ == prefix {
        let k = choose|k: int| 0 <= k < j && (#[trigger] es[k]).prefix@ == prefix;
        lemma_some_first_prefix(es, prefix, k);
    } else {
        assert(first_with_prefix(es, prefix, j));
    }
}

/// What a lookup by prefix finds after one more entry was added: the new
/// entry under a prefix that was free, and what it found before under every
/// other prefix.
pub proof fn lemma_prefix_lookup_after_push<C>(es: Seq<Entry<C>>, e: Entry<C>, prefix: Seq<u8>)
    ensures
        codec_by_prefix(es.push(e), prefix) == if codec_by_prefix(es, prefix) is Some {
            codec_by_prefix(es, prefix)
        } else if e.prefix@ == prefix {
            Some(e.codec)
        } else {
            None
        },
{
    let more = es.push(e);
    if exists|i: int| first_with_prefix(es, prefix, i) {
        let i = choose|i: int| first_with_prefix(es, prefix, i);
        assert(forall|j: int| 0 <= j < i ==> (#[trigger] more[j]) == es[j]);
        assert(more[i] == es[i]);
        assert(first_with_prefix(more, prefix, i));
        let k = choose|k: int| first_with_prefix(more, prefix, k);
        lemma_first_with_prefix_unique(more, prefix, i, k);
    } else {
        assert forall|j: int| 0 <= j < es.len() implies (#[trigger] es[j]).prefix@ != prefix by {
            if es[j].prefix@ == prefix {
                lemma_some_first_prefix(es, prefix, j);
            }
        }
        assert(forall|j: int| 0 <= j < es.len() ==> (#[trigger] more[j]) == es[j]);
        if e.prefix@ == prefix {
            let n = es.len() as int;
            assert(more[n] == e);
            assert(first_with_prefix(more, prefix, n));
            let k = choose|k: int| first_with_prefix(more, prefix, k);
            lemma_first_with_prefix_unique(more, prefix, n, k);
        } else {
            assert forall|k: int| !first_with_prefix(more, prefix, k) by {
                if 0 <= k < more.len() {
                    if k < es.len() {
                        assert(more[k] == es[k]);
                    } else {
                        assert(more[k] == e);
                    }
                }
            }
        }
    }
}

fn position_of_code<C>(es: &Vec<Entry<C>>, code: Code) -> (r: Option<usize>)
    ensures
        match r {
            Some(i) => first_with_code(es@, code, i as int),
            None => forall|j: int| 0 <= j < es@.len() ==> (#[trigger] es@[j]).code != code,
        },
{
    let mut i: usize = 0;
    while i < es.len()
        invariant
            i <= es@.len(),
            forall|j: int| 0 <= j < i ==> (#[trigger] es@[j]).code != code,
        decreases es@.len() - i,
    {
        if es[i].code == code {
            return Some(i);
        }
        i += 1;
    }
    None
}

fn position_of_prefix<C>(es: &Vec<Entry<C>>, prefix: &[u8]) -> (r: Option<usize>)
    ensures
        match r {
            Some(i) => first_with_prefix(es@, prefix@, i as int),
            None => forall|j: int| 0 <= j < es@.len() ==> (#[trigger] es@[j]).prefix@ != prefix@,
        },
{
    let mut i: usize = 0;
    while i < es.len()
        invariant
            i <= es@.len(),
            forall|j: int| 0 <= j < i ==> (#[trigger] es@[j]).prefix@ != prefix@,
        decreases es@.len() - i,
    {
        if slices_equal(es[i].prefix.as_slice(), prefix) {
            return Some(i);
        }
        i += 1;
    }
    None
}

/// An immutable catalog of codecs, each under a code and a prefix of its own.
#[derive(Debug)]
pub struct Registry<C> {
    entries: Vec<Entry<C>>,
}

impl<C: Codec> Registry<C> {
    /// The registered protocols, in the order of their registration.
    pub closed spec fn entries(&self) -> Seq<Entry<C>> {
        self.entries@
    }

    /// The codec registered for `code`.
    pub open spec fn by_code(&self, code: Code) -> Option<C> {
        codec_by_code(self.entries(), code)
    }

    /// The codec registered for `prefix`.
    pub open spec fn by_prefix(&self, prefix: Seq<u8>) -> Option<C> {
        codec_by_prefix(self.entries(), prefix)
    }

    /// The codec registered for `code`, if there is one.
    pub fn get_by_code(&self, code: Code) -> (r: Option<&C>)
        ensures
            match r {
                Some(c) => self.by_code(code) == Some(*c),
                None => self.by_code(code) is None,
            },
    {
        match position_of_code(&self.entries, code) {
            Some(i) => Some(&self.entries[i].codec),
            None => None,
        }
    }

    /// The codec registered for `prefix`, if there is one.
    pub fn get_by_prefix(&self, prefix: &[u8]) -> (r: Option<&C>)
        ensures
            match r {
                Some(c) => self.by_prefix(prefix@) == Some(*c),
                None => self.by_prefix(prefix@) is None,
            },
    {
        match position_of_prefix(&self.entries, prefix) {
            Some(i) => Some(&self.entries[i].codec),
            None => None,
        }
    }

    /// The number of registered protocols.
    pub fn len(&self) -> (n: usize)
        ensures
            n == self.entries().len(),
    {
        self.entries.len()
    }
}

/// Collects the protocols of a registry and refuses a code or a prefix that
/// is already taken.
pub struct RegistryBuilder<C> {
    entries: Vec<Entry<C>>,
}

impl<C: Codec> RegistryBuilder<C> {
    /// The protocols registered so far.
    pub closed spec fn entries(&self) -> Seq<Entry<C>> {
        self.entries@
    }

    /// No code and no prefix was registered twice.
    pub closed spec fn wf(&self) -> bool {
        distinct(self.entries@)
    }

    /// A builder without protocols.
    pub fn new() -> (b: Self)
        ensures
            b.wf(),
            b.entries().len() == 0,
    {
        RegistryBuilder { entries: Vec::new() }
    }

    /// Registers `codec` under `code` and `prefix`. A code that is taken is
    /// refused first, then a prefix that is taken; the builder is then left
    /// as it was.
    pub fn register(&mut self, code: Code, prefix: &str, codec: C) -> (r: Result<(), Error>)
        requires
            old(self).wf(),
        ensures
            final(self).wf(),
            match r {
                Ok(_) => {
                    &&& codec_by_code(old(self).entries(), code) is None
                    &&& codec_by_prefix(old(self).entries(), prefix.spec_bytes()) is None
                    &&& final(self).entries().len() == old(self).entries().len() + 1
                    &&& final(self).entries().drop_last() == old(self).entries()
                    &&& final(self).entries().last().code == code
                    &&& final(self).entries().last().prefix@ == prefix.spec_bytes()
                    &&& final(self).entries().last().codec == codec
                    &&& codec_by_code(final(self).entries(), code) == Some(codec)
                    &&& codec_by_prefix(final(self).entries(), prefix.spec_bytes()) == Some(codec)
                    &&& forall|c: Code|
                        c != code ==> #[trigger] codec_by_code(final(self).entries(), c)
                            == codec_by_code(old(self).entries(), c)
                    &&& forall|p: Seq<u8>|
                        p != prefix.spec_bytes() ==> #[trigger] codec_by_prefix(
                            final(self).entries(),
                            p,
                        ) == codec_by_prefix(old(self).entries(), p)
                },
                Err(e) => {
                    &&& final(self).entries() == old(self).entries()
                    &&& if codec_by_code(old(self).entries(), code) is Some {
                        e == Error::DuplicateCode(code)
                    } else {
                        e == Error::DuplicatePrefix && codec_by_prefix(
                            old(self).entries(),
                            prefix.spec_bytes(),
                        ) is Some
                    }
                },
            },
    {
        let text = prefix.as_bytes();
        if position_of_code(&self.entries, code).is_some() {
            return Err(Error::DuplicateCode(code));
        }
        if position_of_prefix(&self.entries, text).is_some() {
            return Err(Error::DuplicatePrefix);
        }
        let ghost before = self.entries@;
        self.entries.push(Entry { code, prefix: vstd::slice::slice_to_vec(text), codec });
        proof {
            assert(self.entries@.drop_last() =~= before);
            let e = self.entries@.last();
            assert(self.entries@ =~= before.push(e));
            lemma_code_lookup_after_push(before, e, code);
            lemma_prefix_lookup_after_push(before, e, text@);
            assert forall|c: Code| c != code implies #[trigger] codec_by_code(self.entries@, c)
                == codec_by_code(before, c) by {
                lemma_code_lookup_after_push(before, e, c);
            }
            assert forall|p: Seq<u8>| p != text@ implies #[trigger] codec_by_prefix(
                self.entries@,
                p,
            ) == codec_by_prefix(before, p) by {
                lemma_prefix_lookup_after_push(before, e, p);
            }
        }
        Ok(())
    }

    /// The registry of the protocols registered so far.
    pub fn build(self) -> (r: Registry<C>)
        requires
            self.wf(),
        ensures
            r.entries() == self.entries(),
            distinct(r.entries()),
    {
        Registry { entries: self.entries }
    }
}

} // verus!
