//! The small-buffer storage of an address: up to `INLINE_CAPACITY` bytes are
//! held inline, longer contents live on the heap.

use tinyvec::TinyVec;
use vstd::prelude::*;

verus! {

/// The number of bytes that a buffer holds without a heap allocation.
pub const INLINE_CAPACITY: usize = 28;

/// A byte buffer that is stored inline while it is short: a
/// `tinyvec::TinyVec` over an array of `INLINE_CAPACITY` bytes. The verifier
/// does not look inside; what the buffer holds is told by `contents` and
/// `stored_inline`, through the functions below that call into `tinyvec`.
#[verifier::external_body]
#[derive(Debug)]
pub struct SmallBuf {
    inner: TinyVec<[u8; 28]>,
}

/// The bytes that a buffer holds, front to back: what `TinyVec::as_slice`
/// shows.
pub uninterp spec fn contents(b: SmallBuf) -> Seq<u8>;

/// Whether a buffer currently stores its bytes inline: what
/// `TinyVec::is_inline` answers.
pub uninterp spec fn stored_inline(b: SmallBuf) -> bool;

impl View for SmallBuf {
    type V = Seq<u8>;

    open spec fn view(&self) -> Seq<u8> {
        contents(*self)
    }
}

/// `TinyVec::new`: an empty buffer, stored inline.
#[verifier::external_body]
fn buf_new() -> (b: SmallBuf)
    ensures
        contents(b) == Seq::<u8>::empty(),
        stored_inline(b),
{
    SmallBuf { inner: TinyVec::new() }
}

/// `TinyVec::from` on a slice: a buffer with the bytes of the slice, stored
/// inline exactly when they fit.
#[verifier::external_body]
fn buf_from(s: &[u8]) -> (b: SmallBuf)
    ensures
        contents(b) == s@,
        stored_inline(b) == (s@.len() <= INLINE_CAPACITY),
{
    SmallBuf { inner: TinyVec::from(s) }
}

/// The variant `TinyVec::Heap`, filled by `Vec::from`: a buffer with the bytes
/// of the slice, stored on the heap whatever their number.
#[verifier::external_body]
fn buf_heap_from(s: &[u8]) -> (b: SmallBuf)
    ensures
        contents(b) == s@,
        !stored_inline(b),
{
    SmallBuf { inner: TinyVec::Heap(Vec::from(s)) }
}

/// `TinyVec::len`: the number of bytes held.
#[verifier::external_body]
fn buf_len(b: &SmallBuf) -> (n: usize)
    ensures
        n == contents(*b).len(),
{
    b.inner.len()
}

/// `TinyVec::as_slice`: the bytes held, as a slice.
#[verifier::external_body]
fn buf_as_slice(b: &SmallBuf) -> (s: &[u8])
    ensures
        s@ == contents(*b),
{
    b.inner.as_slice()
}

/// `TinyVec::is_inline`: whether the bytes are stored inline. An inline
/// buffer holds no more than the inline capacity.
#[verifier::external_body]
fn buf_is_inline(b: &SmallBuf) -> (r: bool)
    ensures
        r == stored_inline(*b),
        r ==> contents(*b).len() <= INLINE_CAPACITY,
{
    b.inner.is_inline()
}

/// `TinyVec::extend_from_slice`: the slice is appended. An inline buffer stays
/// inline exactly when the new length fits; a heap buffer stays on the heap.
#[verifier::external_body]
fn buf_extend(b: &mut SmallBuf, s: &[u8])
    ensures
        contents(*final(b)) == contents(*old(b)) + s@,
        stored_inline(*final(b)) == (stored_inline(*old(b)) && contents(*old(b)).len() + s@.len()
            <= INLINE_CAPACITY),
{
    b.inner.extend_from_slice(s)
}

/// `TinyVec::truncate`: the first `n` bytes stay, or all of them where there
/// are fewer. The storage kind does not change.
#[verifier::external_body]
fn buf_truncate(b: &mut SmallBuf, n: usize)
    ensures
        contents(*final(b)) == if n < contents(*old(b)).len() {
            contents(*old(b)).take(n as int)
        } else {
            contents(*old(b))
        },
        stored_inline(*final(b)) == stored_inline(*old(b)),
{
    b.inner.truncate(n)
}

/// `TinyVec::split_off`: the bytes from `at` on leave the buffer and are
/// returned in a buffer of the same storage kind. It panics past the end.
#[verifier::external_body]
fn buf_split_off(b: &mut SmallBuf, at: usize) -> (r: SmallBuf)
    requires
        at <= contents(*old(b)).len(),
    ensures
        contents(*final(b)) == contents(*old(b)).take(at as int),
        contents(r) == contents(*old(b)).skip(at as int),
        stored_inline(*final(b)) == stored_inline(*old(b)),
        stored_inline(r) == stored_inline(*old(b)),
{
    SmallBuf { inner: b.inner.split_off(at) }
}

/// `TinyVec::shrink_to_fit`: the bytes stay; a heap buffer whose bytes fit
/// moves inline.
#[verifier::external_body]
fn buf_shrink(b: &mut SmallBuf)
    ensures
        contents(*final(b)) == contents(*old(b)),
        stored_inline(*final(b)) == (stored_inline(*old(b)) || contents(*old(b)).len()
            <= INLINE_CAPACITY),
{
    b.inner.shrink_to_fit()
}

/// `TinyVec::clone`: a buffer with the same bytes and the same storage kind.
#[verifier::external_body]
fn buf_clone(b: &SmallBuf) -> (r: SmallBuf)
    ensures
        contents(r) == contents(*b),
        stored_inline(r) == stored_inline(*b),
{
    SmallBuf { inner: b.inner.clone() }
}

impl SmallBuf {
    /// An empty buffer.
    pub fn new() -> (b: SmallBuf)
        ensures
            b@ == Seq::<u8>::empty(),
            stored_inline(b),
    {
        buf_new()
    }

    /// A buffer with the bytes of `s`, inline exactly when they fit.
    pub fn from_slice(s: &[u8]) -> (b: SmallBuf)
        ensures
            b@ == s@,
            stored_inline(b) == (s@.len() <= INLINE_CAPACITY),
    {
        buf_from(s)
    }

    /// A heap-allocated buffer with the bytes of `s`.
    pub fn heap_from_slice(s: &[u8]) -> (b: SmallBuf)
        ensures
            b@ == s@,
            !stored_inline(b),
    {
        buf_heap_from(s)
    }

    /// The number of bytes held.
    pub fn len(&self) -> (n: usize)
        ensures
            n == self@.len(),
    {
        buf_len(self)
    }

    /// The bytes held.
    pub fn as_slice(&self) -> (s: &[u8])
        ensures
            s@ == self@,
    {
        buf_as_slice(self)
    }

    /// Whether the bytes are stored inline.
    pub fn is_inline(&self) -> (r: bool)
        ensures
            r == stored_inline(*self),
            r ==> self@.len() <= INLINE_CAPACITY,
    {
        buf_is_inline(self)
    }

    /// Whether the bytes are stored on the heap.
    pub fn is_heap(&self) -> (r: bool)
        ensures
            r == !stored_inline(*self),
    {
        !buf_is_inline(self)
    }

    /// Appends `s`.
    pub fn extend_from_slice(&mut self, s: &[u8])
        ensures
            final(self)@ == old(self)@ + s@,
            stored_inline(*final(self)) == (stored_inline(*old(self)) && old(self)@.len() + s@.len()
                <= INLINE_CAPACITY),
    {
        buf_extend(self, s)
    }

    /// Keeps the first `n` bytes; does nothing where there are no more.
    pub fn truncate(&mut self, n: usize)
        ensures
            final(self)@ == if n < old(self)@.len() {
                old(self)@.take(n as int)
            } else {
                old(self)@
            },
            stored_inline(*final(self)) == stored_inline(*old(self)),
    {
        buf_truncate(self, n)
    }

    /// Splits the buffer at `at`, keeping the storage kind on both sides.
    pub fn split_off(&mut self, at: usize) -> (r: SmallBuf)
        requires
            at <= old(self)@.len(),
        ensures
            final(self)@ == old(self)@.take(at as int),
            r@ == old(self)@.skip(at as int),
            stored_inline(*final(self)) == stored_inline(*old(self)),
            stored_inline(r) == stored_inline(*old(self)),
    {
        buf_split_off(self, at)
    }

    /// Drops excess capacity; a heap buffer that fits moves inline.
    pub fn shrink_to_fit(&mut self)
        ensures
            final(self)@ == old(self)@,
            stored_inline(*final(self)) == (stored_inline(*old(self)) || old(self)@.len()
                <= INLINE_CAPACITY),
    {
        buf_shrink(self)
    }

    /// A copy with the same bytes and storage kind.
    pub fn duplicate(&self) -> (r: SmallBuf)
        ensures
            r@ == self@,
            stored_inline(r) == stored_inline(*self),
    {
        buf_clone(self)
    }

    /// Whether two buffers hold the same bytes, whatever their storage kind.
    pub fn same_bytes(&self, other: &SmallBuf) -> (r: bool)
        ensures
            r == (self@ == other@),
    {
        slices_equal(buf_as_slice(self), buf_as_slice(other))
    }
}

/// Whether two slices hold the same bytes.
pub fn slices_equal(a: &[u8], b: &[u8]) -> (r: bool)
    ensures
        r == (a@ == b@),
{
    if a.len() != b.len() {
        return false;
    }
    let mut i: usize = 0;
    while i < a.len()
        invariant
            a@.len() == b@.len(),
            i <= a@.len(),
            forall|k: int| 0 <= k < i ==> a@[k] == b@[k],
        decreases a@.len() - i,
    {
        if a[i] != b[i] {
            return false;
        }
        i += 1;
    }
    assert(a@ =~= b@);
    true
}

/// Splits `v` at `at` like `SmallBuf::split_off`, but stores the part that is
/// split off inline whenever it fits.
pub fn split_off(v: &mut SmallBuf, at: usize) -> (r: SmallBuf)
    requires
        at <= old(v)@.len(),
    ensures
        final(v)@ == old(v)@.take(at as int),
        r@ == old(v)@.skip(at as int),
        stored_inline(*final(v)) == stored_inline(*old(v)),
        stored_inline(r) == (stored_inline(*old(v)) || old(v)@.len() - at <= INLINE_CAPACITY),
{
    if buf_is_inline(v) {
        buf_split_off(v, at)
    } else if buf_len(v) - at <= INLINE_CAPACITY {
        let tail = buf_from(vstd::slice::slice_subrange(buf_as_slice(v), at, buf_len(v)));
        buf_truncate(v, at);
        assert(tail@ =~= old(v)@.skip(at as int));
        tail
    } else {
        buf_split_off(v, at)
    }
}

} // verus!
