//! Little-endian encodings used when the kernel writes structured values
//! through a translated user pointer: the destination is raw user memory,
//! so every value crosses the boundary as plain bytes.

use vstd::prelude::*;

verus! {

/// The `n` little-endian bytes of `v` (bytes beyond the width are zero,
/// bits beyond the `n`-th byte are dropped).
pub open spec fn le_of(v: nat, n: nat) -> Seq<u8>
    decreases n,
{
    if n == 0 {
        Seq::empty()
    } else {
        seq![(v % 256) as u8] + le_of(v / 256, (n - 1) as nat)
    }
}

pub proof fn lemma_le_of_len(v: nat, n: nat)
    ensures
        le_of(v, n).len() == n,
    decreases n,
{
    if n > 0 {
        lemma_le_of_len(v / 256, (n - 1) as nat);
    }
}

/// Append the `n` little-endian bytes of `v` to `out`.
pub fn push_le(out: &mut Vec<u8>, v: usize, n: usize)
    ensures
        final(out)@ == old(out)@ + le_of(v as nat, n as nat),
{
    let mut x: usize = v;
    let mut i: usize = 0;
    while i < n
        invariant
            i <= n,
            out@ + le_of(x as nat, (n - i) as nat) == old(out)@ + le_of(v as nat, n as nat),
        decreases n - i,
    {
        let ghost x0 = x as nat;
        let ghost out0 = out@;
        let b: u8 = (x % 256) as u8;
        out.push(b);
        x = x / 256;
        i = i + 1;
        proof {
            assert(le_of(x0, (n - i + 1) as nat)
                == seq![(x0 % 256) as u8] + le_of(x0 / 256, (n - i) as nat));
            assert(out@ + le_of(x as nat, (n - i) as nat)
                =~= out0 + le_of(x0, (n - i + 1) as nat));
        }
    }
    proof {
        assert(out@ + le_of(x as nat, 0) =~= out@);
    }
}

/// The four-byte little-endian encodings of the counters, in order.
pub open spec fn counters_bytes(s: Seq<u32>) -> Seq<u8>
    decreases s.len(),
{
    if s.len() == 0 {
        Seq::empty()
    } else {
        le_of(s[0] as nat, 4) + counters_bytes(s.subrange(1, s.len() as int))
    }
}

pub proof fn lemma_counters_bytes_len(s: Seq<u32>)
    ensures
        counters_bytes(s).len() == 4 * s.len(),
    decreases s.len(),
{
    if s.len() > 0 {
        lemma_le_of_len(s[0] as nat, 4);
        lemma_counters_bytes_len(s.subrange(1, s.len() as int));
    }
}

/// Append the encoding of every counter of `s` to `out`.
pub fn push_counters(out: &mut Vec<u8>, s: &Vec<u32>)
    ensures
        final(out)@ == old(out)@ + counters_bytes(s@),
{
    let mut i: usize = 0;
    proof {
        assert(s@.subrange(0, s@.len() as int) =~= s@);
    }
    while i < s.len()
        invariant
            i <= s@.len(),
            out@ + counters_bytes(s@.subrange(i as int, s@.len() as int))
                == old(out)@ + counters_bytes(s@),
        decreases s@.len() - i,
    {
        let ghost out0 = out@;
        push_le(out, s[i] as usize, 4);
        proof {
            let tail = s@.subrange(i as int, s@.len() as int);
            assert(tail[0] == s@[i as int]);
            assert(tail.subrange(1, tail.len() as int)
                =~= s@.subrange(i as int + 1, s@.len() as int));
            assert(out@ + counters_bytes(s@.subrange(i as int + 1, s@.len() as int))
                =~= out0 + counters_bytes(tail));
        }
        i = i + 1;
    }
    proof {
        assert(s@.subrange(s@.len() as int, s@.len() as int) =~= Seq::<u32>::empty());
        assert(out@ + counters_bytes(s@.subrange(s@.len() as int, s@.len() as int)) =~= out@);
    }
}

} // verus!
