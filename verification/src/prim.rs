//! Primitive codec: fixed-width little-endian integers and raw byte copies.

use vstd::prelude::*;

verus! {

/// Number of distinct values representable in `w` bytes: 256 to the `w`.
pub open spec fn pow256(w: nat) -> nat
    decreases w,
{
    if w == 0 {
        1
    } else {
        256 * pow256((w - 1) as nat)
    }
}

/// Little-endian image of `v`, exactly `w` bytes long.
pub open spec fn le_bytes(v: nat, w: nat) -> Seq<u8>
    decreases w,
{
    if w == 0 {
        Seq::empty()
    } else {
        seq![(v % 256) as u8] + le_bytes(v / 256, (w - 1) as nat)
    }
}

/// Value of a little-endian byte sequence.
pub open spec fn le_val(s: Seq<u8>) -> nat
    decreases s.len(),
{
    if s.len() == 0 {
        0
    } else {
        (s[0] + 256 * le_val(s.subrange(1, s.len() as int))) as nat
    }
}

pub proof fn lemma_pow256_pos(w: nat)
    ensures
        pow256(w) >= 1,
    decreases w,
{
    if w > 0 {
        lemma_pow256_pos((w - 1) as nat);
    }
}

pub proof fn lemma_pow256_mono(a: nat, b: nat)
    requires
        a <= b,
    ensures
        pow256(a) <= pow256(b),
    decreases b,
{
    if a < b {
        lemma_pow256_mono(a, (b - 1) as nat);
        lemma_pow256_pos((b - 1) as nat);
    }
}

pub proof fn lemma_le_bytes_len(v: nat, w: nat)
    ensures
        le_bytes(v, w).len() == w,
    decreases w,
{
    if w > 0 {
        lemma_le_bytes_len(v / 256, (w - 1) as nat);
    }
}

/// Dividing by 256 shrinks a value below its 256-multiple bound.
pub proof fn lemma_div256_bound(v: nat, p: nat)
    requires
        v < 256 * p,
    ensures
        v / 256 < p,
{
    vstd::arithmetic::div_mod::lemma_fundamental_div_mod(v as int, 256);
}

/// Reading back the little-endian image of `v` yields `v` again.
pub proof fn lemma_le_val_of_le_bytes(v: nat, w: nat)
    requires
        v < pow256(w),
    ensures
        le_val(le_bytes(v, w)) == v,
    decreases w,
{
    if w > 0 {
        let s = le_bytes(v, w);
        lemma_le_bytes_len(v / 256, (w - 1) as nat);
        assert(s.subrange(1, s.len() as int) =~= le_bytes(v / 256, (w - 1) as nat));
        lemma_div256_bound(v, pow256((w - 1) as nat));
        lemma_le_val_of_le_bytes(v / 256, (w - 1) as nat);
        vstd::arithmetic::div_mod::lemma_fundamental_div_mod(v as int, 256);
    }
}

/// Reads `w` little-endian bytes at `pos`.
pub fn read_le(inp: &Vec<u8>, pos: usize, w: usize) -> (r: u64)
    requires
        w <= 8,
        pos + w <= inp@.len(),
    ensures
        r == le_val(inp@.subrange(pos as int, (pos + w) as int)),
        r < pow256(w as nat),
    decreases w,
{
    if w == 0 {
        proof {
            assert(inp@.subrange(pos as int, pos as int) =~= Seq::<u8>::empty());
        }
        0
    } else {
        let total = inp.len();
        let lo = inp[pos];
        let hi = read_le(inp, pos + 1, w - 1);
        proof {
            let s = inp@.subrange(pos as int, (pos + w) as int);
            assert(s.subrange(1, s.len() as int) =~= inp@.subrange(
                (pos + 1) as int,
                (pos + w) as int,
            ));
            lemma_pow256_mono(w as nat, 8);
            assert(pow256(8) == 0x1_0000_0000_0000_0000) by {
                reveal_with_fuel(pow256, 9);
            }
        }
        lo as u64 + 256 * hi
    }
}

/// Appends the `w`-byte little-endian image of `v`.
pub fn write_le(out: &mut Vec<u8>, v: u64, w: usize)
    requires
        v < pow256(w as nat),
    ensures
        final(out)@ == old(out)@ + le_bytes(v as nat, w as nat),
    decreases w,
{
    if w == 0 {
        proof {
            assert(old(out)@ + le_bytes(v as nat, 0) =~= old(out)@);
        }
    } else {
        let ghost pre = out@;
        out.push((v % 256) as u8);
        proof {
            lemma_div256_bound(v as nat, pow256((w - 1) as nat));
        }
        write_le(out, v / 256, w - 1);
        proof {
            assert(pre.push((v % 256) as u8) + le_bytes((v / 256) as nat, (w - 1) as nat)
                =~= pre + le_bytes(v as nat, w as nat));
            assert(old(out)@ == pre);
        }
    }
}

/// Appends all of `data`.
pub fn push_bytes(out: &mut Vec<u8>, data: &Vec<u8>)
    ensures
        final(out)@ == old(out)@ + data@,
{
    let ghost pre = out@;
    let mut i: usize = 0;
    while i < data.len()
        invariant
            i <= data@.len(),
            out@ == pre + data@.subrange(0, i as int),
        decreases data@.len() - i,
    {
        out.push(data[i]);
        proof {
            assert(pre + data@.subrange(0, (i + 1) as int) =~= (pre + data@.subrange(
                0,
                i as int,
            )).push(data@[i as int]));
        }
        i = i + 1;
    }
    proof {
        assert(data@.subrange(0, data@.len() as int) =~= data@);
    }
}

/// Copies `n` bytes starting at `start` into a fresh vector.
pub fn copy_range(inp: &Vec<u8>, start: usize, n: usize) -> (r: Vec<u8>)
    requires
        start + n <= inp@.len(),
    ensures
        r@ == inp@.subrange(start as int, (start + n) as int),
{
    let total = inp.len();
    let mut r: Vec<u8> = Vec::new();
    let mut i: usize = 0;
    while i < n
        invariant
            i <= n,
            start + n <= total,
            total == inp@.len(),
            r@ == inp@.subrange(start as int, (start + i) as int),
        decreases n - i,
    {
        r.push(inp[start + i]);
        proof {
            assert(inp@.subrange(start as int, (start + i + 1) as int) =~= inp@.subrange(
                start as int,
                (start + i) as int,
            ).push(inp@[(start + i) as int]));
        }
        i = i + 1;
    }
    r
}

} // verus!
