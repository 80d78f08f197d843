//! Big-endian byte strings for the fixed-width numeric fields of the wire
//! encoding, in both directions: a number laid out over a given width, and
//! the number a byte string denotes.

use vstd::prelude::*;

verus! {

/// `256^w`.
pub open spec fn pow256(w: nat) -> nat
    decreases w,
{
    if w == 0 {
        1
    } else {
        256 * pow256((w - 1) as nat)
    }
}

/// The `w` big-endian bytes of `n` (the low `8 * w` bits of `n`).
pub open spec fn be_bytes(n: nat, w: nat) -> Seq<u8>
    decreases w,
{
    if w == 0 {
        Seq::empty()
    } else {
        be_bytes(n / 256, (w - 1) as nat) + seq![(n % 256) as u8]
    }
}

/// The number a big-endian byte string denotes.
pub open spec fn be_of(s: Seq<u8>) -> nat
    decreases s,
{
    if s.len() == 0 {
        0
    } else {
        (be_of(s.subrange(0, s.len() - 1)) * 256 + s[s.len() - 1]) as nat
    }
}

pub broadcast proof fn lemma_be_bytes_len(n: nat, w: nat)
    ensures
        (#[trigger] be_bytes(n, w)).len() == w,
    decreases w,
{
    if w > 0 {
        lemma_be_bytes_len(n / 256, (w - 1) as nat);
    }
}

pub broadcast proof fn lemma_be_of_bound(s: Seq<u8>)
    ensures
        #[trigger] be_of(s) < pow256(s.len()),
    decreases s,
{
    if s.len() > 0 {
        lemma_be_of_bound(s.subrange(0, s.len() - 1));
    }
}

/// Laying out a number and reading it back returns the number, as long as it
/// fits the width.
pub broadcast proof fn lemma_be_of_be_bytes(n: nat, w: nat)
    requires
        n < pow256(w),
    ensures
        be_of(#[trigger] be_bytes(n, w)) == n,
    decreases w,
{
    if w > 0 {
        assert(n / 256 < pow256((w - 1) as nat)) by {
            assert(pow256(w) == 256 * pow256((w - 1) as nat));
        };
        lemma_be_of_be_bytes(n / 256, (w - 1) as nat);
        lemma_be_bytes_len(n / 256, (w - 1) as nat);
        let s = be_bytes(n, w);
        assert(s.subrange(0, s.len() - 1) =~= be_bytes(n / 256, (w - 1) as nat));
    }
}

/// Reading a byte string and laying the number out again over the same width
/// returns the byte string.
pub broadcast proof fn lemma_be_bytes_be_of(s: Seq<u8>)
    ensures
        #[trigger] be_bytes(be_of(s), s.len()) == s,
    decreases s,
{
    if s.len() > 0 {
        let front = s.subrange(0, s.len() - 1);
        lemma_be_bytes_be_of(front);
        let n = be_of(s);
        assert(n == be_of(front) * 256 + s[s.len() - 1]);
        assert(n / 256 == be_of(front) && n % 256 == s[s.len() - 1]) by (nonlinear_arith)
            requires
                n == be_of(front) * 256 + s[s.len() - 1],
                0 <= s[s.len() - 1] < 256,
        ;
        assert(be_bytes(n, s.len()) =~= s);
    }
}

/// Appends the `w` big-endian bytes of `n`.
pub fn push_be(out: &mut Vec<u8>, n: u64, w: usize)
    requires
        w <= 8,
    ensures
        final(out)@ == old(out)@ + be_bytes(n as nat, w as nat),
    decreases w,
{
    if w == 0 {
        assert(out@ =~= old(out)@ + be_bytes(n as nat, 0));
    } else {
        push_be(out, n / 256, w - 1);
        out.push((n % 256) as u8);
        assert(out@ =~= old(out)@ + be_bytes(n as nat, w as nat));
    }
}

/// Reads the number the `w` bytes at `pos` denote.
pub fn read_be(bytes: &Vec<u8>, pos: usize, w: usize) -> (n: u64)
    requires
        w <= 8,
        pos + w <= bytes@.len(),
    ensures
        n as nat == be_of(bytes@.subrange(pos as int, pos + w)),
{
    let n_len = bytes.len();
    let mut acc: u64 = 0;
    let mut i: usize = 0;
    proof {
        assert(bytes@.subrange(pos as int, pos as int) =~= Seq::empty());
    }
    while i < w
        invariant
            i <= w,
            w <= 8,
            pos + w <= bytes@.len(),
            n_len == bytes@.len(),
            acc as nat == be_of(bytes@.subrange(pos as int, pos + i)),
            acc < pow256(i as nat),
        decreases w - i,
    {
        proof {
            lemma_be_of_bound(bytes@.subrange(pos as int, pos + i));
            assert(pow256(8) == 0x1_0000_0000_0000_0000) by {
                reveal_with_fuel(pow256, 9);
            };
            assert(pow256(i as nat) * 256 <= pow256(8)) by {
                lemma_pow256_mono((i + 1) as nat, 8);
            };
            assert(acc * 256 + 255 < 0x1_0000_0000_0000_0000) by (nonlinear_arith)
                requires
                    acc < pow256(i as nat),
                    pow256(i as nat) * 256 <= 0x1_0000_0000_0000_0000,
                    0 <= acc,
            ;
        }
        let b = bytes[pos + i];
        let ghost acc0 = acc as nat;
        acc = acc * 256 + (b as u64);
        i = i + 1;
        proof {
            let s = bytes@.subrange(pos as int, pos + i);
            assert(s.subrange(0, s.len() - 1) =~= bytes@.subrange(pos as int, pos + i - 1));
            assert(pow256(i as nat) == 256 * pow256((i - 1) as nat));
            assert(acc * 1 < 256 * pow256((i - 1) as nat)) by (nonlinear_arith)
                requires
                    acc0 < pow256((i - 1) as nat),
                    acc == acc0 * 256 + b,
                    0 <= b < 256,
            ;
        }
    }
    proof {
        assert(bytes@.subrange(pos as int, pos + w) == bytes@.subrange(pos as int, pos + i));
    }
    acc
}

pub proof fn lemma_pow256_mono(a: nat, b: nat)
    requires
        a <= b,
    ensures
        pow256(a) <= pow256(b),
    decreases b,
{
    if a < b {
        lemma_pow256_mono(a, (b - 1) as nat);
        assert(pow256(b) == 256 * pow256((b - 1) as nat));
    }
}

} // verus!
