//! Unsigned variable-length integers: seven bits per byte, least significant
//! group first, the high bit set on every byte but the last.

use vstd::prelude::*;

verus! {

/// The most bytes that the encoding of a 32-bit number takes.
pub const MAX_LEN: usize = 5;

/// The number of values that `depth` bytes can encode.
pub open spec fn limit(depth: nat) -> nat
    decreases depth,
{
    if depth == 0 {
        1
    } else {
        128 * limit((depth - 1) as nat)
    }
}

/// The encoding of `n`.
pub open spec fn encode(n: nat) -> Seq<u8>
    decreases n,
{
    if n < 128 {
        seq![n as u8]
    } else {
        seq![(128 + n % 128) as u8] + encode(n / 128)
    }
}

/// The number at the head of `s` and the count of bytes it takes, where it
/// takes at most `depth` bytes and its last byte is not a needless zero.
pub open spec fn decode_within(s: Seq<u8>, depth: nat) -> Option<(nat, nat)>
    decreases depth,
{
    if depth == 0 || s.len() == 0 {
        None
    } else if s[0] < 128 {
        Some((s[0] as nat, 1))
    } else {
        match decode_within(s.skip(1), (depth - 1) as nat) {
            Some((v, l)) => if v == 0 {
                None
            } else {
                Some(((s[0] - 128) as nat + 128 * v, l + 1))
            },
            None => None,
        }
    }
}

/// The 32-bit number at the head of `s` and the count of bytes it takes.
pub open spec fn decode(s: Seq<u8>) -> Option<(u32, nat)> {
    match decode_within(s, 5) {
        Some((v, l)) => if v <= u32::MAX {
            Some((v as u32, l))
        } else {
            None
        },
        None => None,
    }
}

proof fn lemma_limits()
    ensures
        limit(0) == 1,
        limit(1) == 128,
        limit(2) == 16384,
        limit(3) == 2097152,
        limit(4) == 268435456,
        limit(5) == 34359738368,
{
    reveal_with_fuel(limit, 6);
}

/// What `decode_within` accepts is below the limit of its depth and lies
/// within the input.
pub proof fn lemma_decode_within_bounds(s: Seq<u8>, depth: nat)
    ensures
        match decode_within(s, depth) {
            Some((v, l)) => v < limit(depth) && 1 <= l <= depth && l <= s.len(),
            None => true,
        },
    decreases depth,
{
    if depth == 0 || s.len() == 0 {
    } else if s[0] < 128 {
        lemma_decode_within_bounds(s.skip(1), (depth - 1) as nat);
        assert(limit(depth) >= 128) by {
            lemma_limit_positive((depth - 1) as nat);
        }
    } else {
        lemma_decode_within_bounds(s.skip(1), (depth - 1) as nat);
    }
}

proof fn lemma_limit_positive(depth: nat)
    ensures
        limit(depth) >= 1,
    decreases depth,
{
    if depth > 0 {
        lemma_limit_positive((depth - 1) as nat);
    }
}

/// A number is read back from its encoding, whatever follows it.
pub proof fn lemma_decode_within_encode(n: nat, rest: Seq<u8>, depth: nat)
    requires
        depth >= 1,
        n < limit(depth),
    ensures
        decode_within(encode(n) + rest, depth) == Some((n, encode(n).len())),
    decreases n,
{
    let s = encode(n) + rest;
    if n < 128 {
        assert(s[0] == n as u8);
    } else {
        assert(s[0] == (128 + n % 128) as u8);
        assert(s.skip(1) =~= encode(n / 128) + rest);
        assert(depth >= 2) by {
            reveal_with_fuel(limit, 2);
        }
        lemma_decode_within_encode(n / 128, rest, (depth - 1) as nat);
    }
}

/// A 32-bit number is read back from its encoding, whatever follows it.
pub proof fn lemma_decode_encode(n: u32, rest: Seq<u8>)
    ensures
        decode(encode(n as nat) + rest) == Some((n, encode(n as nat).len())),
        1 <= encode(n as nat).len() <= 5,
{
    lemma_limits();
    lemma_decode_within_encode(n as nat, rest, 5);
    lemma_decode_within_bounds(encode(n as nat) + rest, 5);
}

/// What is read depends on the bytes that are read alone.
pub proof fn lemma_decode_within_local(a: Seq<u8>, b: Seq<u8>, depth: nat)
    requires
        decode_within(a, depth) is Some,
        decode_within(a, depth).unwrap().1 <= b.len(),
        b.take(decode_within(a, depth).unwrap().1 as int) == a.take(
            decode_within(a, depth).unwrap().1 as int,
        ),
    ensures
        decode_within(b, depth) == decode_within(a, depth),
    decreases depth,
{
    lemma_decode_within_bounds(a, depth);
    let l = decode_within(a, depth).unwrap().1 as int;
    assert(b[0] == b.take(l)[0]);
    assert(a[0] == a.take(l)[0]);
    if a[0] >= 128 {
        lemma_decode_within_bounds(a.skip(1), (depth - 1) as nat);
        assert(b.skip(1).take(l - 1) =~= b.take(l).skip(1));
        assert(a.skip(1).take(l - 1) =~= a.take(l).skip(1));
        lemma_decode_within_local(a.skip(1), b.skip(1), (depth - 1) as nat);
    }
}

/// What `decode` reads depends on the bytes that are read alone.
pub proof fn lemma_decode_local(a: Seq<u8>, b: Seq<u8>)
    requires
        decode(a) is Some,
        decode(a).unwrap().1 <= b.len(),
        b.take(decode(a).unwrap().1 as int) == a.take(decode(a).unwrap().1 as int),
    ensures
        decode(b) == decode(a),
        1 <= decode(a).unwrap().1 <= 5,
        decode(a).unwrap().1 <= a.len(),
{
    lemma_decode_within_bounds(a, 5);
    lemma_decode_within_local(a, b, 5);
}

fn read_from(s: &[u8], i: usize, depth: usize) -> (r: Option<(u64, usize)>)
    requires
        i <= s@.len(),
        depth <= 5,
    ensures
        match decode_within(s@.skip(i as int), depth as nat) {
            Some((v, l)) => r == Some((v as u64, l as usize)) && v < limit(depth as nat) && 1 <= l
                <= depth && i + l <= s@.len(),
            None => r is None,
        },
    decreases depth,
{
    proof {
        lemma_limits();
        lemma_decode_within_bounds(s@.skip(i as int), depth as nat);
    }
    if depth == 0 || i >= s.len() {
        return None;
    }
    let b: u8 = s[i];
    if b < 128 {
        return Some((b as u64, 1));
    }
    proof {
        assert(s@.skip(i as int).skip(1) =~= s@.skip(i + 1));
    }
    match read_from(s, i + 1, depth - 1) {
        Some((v, l)) => {
            if v == 0 {
                None
            } else {
                Some(((b - 128) as u64 + 128 * v, l + 1))
            }
        },
        None => None,
    }
}

/// Reads the 32-bit number at the head of `s`: the number and the count of
/// bytes it takes, or `None` where the bytes end early, run on past five, hold
/// more than 32 bits or end in a needless zero.
pub fn read(s: &[u8]) -> (r: Option<(u32, usize)>)
    ensures
        match decode(s@) {
            Some((v, l)) => r == Some((v, l as usize)) && 1 <= l <= 5 && l <= s@.len(),
            None => r is None,
        },
{
    proof {
        lemma_limits();
        assert(s@.skip(0) =~= s@);
    }
    match read_from(s, 0, MAX_LEN) {
        Some((v, l)) => {
            if v <= 0xffff_ffff {
                Some((v as u32, l))
            } else {
                None
            }
        },
        None => None,
    }
}

/// What is read is the encoding of the number that is read: no number has
/// two encodings.
pub proof fn lemma_decode_within_canonical(s: Seq<u8>, depth: nat)
    requires
        decode_within(s, depth) is Some,
    ensures
        s.take(decode_within(s, depth).unwrap().1 as int) == encode(
            decode_within(s, depth).unwrap().0,
        ),
    decreases depth,
{
    lemma_decode_within_bounds(s, depth);
    let (v, l) = decode_within(s, depth).unwrap();
    if s[0] < 128 {
        assert(s.take(1) =~= seq![s[0]]);
    } else {
        let (v1, l1) = decode_within(s.skip(1), (depth - 1) as nat).unwrap();
        lemma_decode_within_bounds(s.skip(1), (depth - 1) as nat);
        lemma_decode_within_canonical(s.skip(1), (depth - 1) as nat);
        assert(s.take(l as int) =~= seq![s[0]] + s.skip(1).take(l1 as int));
        assert(v % 128 == s[0] - 128 && v / 128 == v1) by {
            assert(v == (s[0] - 128) + 128 * v1);
        }
    }
}

/// What `decode` reads is the encoding of the number that it reads.
pub proof fn lemma_decode_canonical(s: Seq<u8>)
    requires
        decode(s) is Some,
    ensures
        s.take(decode(s).unwrap().1 as int) == encode(decode(s).unwrap().0 as nat),
        1 <= decode(s).unwrap().1 <= 5,
        decode(s).unwrap().1 <= s.len(),
{
    lemma_decode_within_bounds(s, 5);
    lemma_decode_within_canonical(s, 5);
}

/// Appends the encoding of `n` to `out`.
pub fn write(n: u64, out: &mut Vec<u8>)
    ensures
        final(out)@ == old(out)@ + encode(n as nat),
{
    let mut m: u64 = n;
    while m >= 128
        invariant
            out@ + encode(m as nat) == old(out)@ + encode(n as nat),
        decreases m,
    {
        let ghost before = out@;
        out.push((128 + m % 128) as u8);
        proof {
            assert(before + encode(m as nat) =~= out@ + encode((m / 128) as nat));
        }
        m = m / 128;
    }
    let ghost before = out@;
    out.push(m as u8);
    proof {
        assert(before + encode(m as nat) =~= out@);
    }
}

} // verus!
