//! Little-endian bytes and byte sums.

use vstd::prelude::*;

verus! {

/// Byte `0` (the least significant) of `n`.
pub open spec fn byte0(n: int) -> u8 {
    (n % 256) as u8
}

/// Byte `1` of `n`.
pub open spec fn byte1(n: int) -> u8 {
    (n / 256 % 256) as u8
}

/// Byte `2` of `n`.
pub open spec fn byte2(n: int) -> u8 {
    (n / 65536 % 256) as u8
}

/// Byte `3` of `n`.
pub open spec fn byte3(n: int) -> u8 {
    (n / 16777216 % 256) as u8
}

/// The two little-endian bytes of `n`.
pub fn le16(n: u16) -> (r: (u8, u8))
    ensures
        r.0 == byte0(n as int),
        r.1 == byte1(n as int),
{
    ((n % 256) as u8, (n / 256) as u8)
}

/// The four little-endian bytes of `n`.
pub fn le32(n: u32) -> (r: (u8, u8, u8, u8))
    ensures
        r.0 == byte0(n as int),
        r.1 == byte1(n as int),
        r.2 == byte2(n as int),
        r.3 == byte3(n as int),
{
    ((n % 256) as u8, (n / 256 % 256) as u8, (n / 65536 % 256) as u8, (n / 16777216) as u8)
}

/// The sum of all bytes.
pub open spec fn byte_sum(s: Seq<u8>) -> nat
    decreases s.len(),
{
    if s.len() == 0 {
        0
    } else {
        byte_sum(s.drop_last()) + s.last() as nat
    }
}

/// `n / d`, rounded up.
pub open spec fn ceil_div(n: int, d: int) -> int {
    (n + d - 1) / d
}

/// All parts one after another.
pub open spec fn concat(parts: Seq<Seq<u8>>) -> Seq<u8>
    decreases parts.len(),
{
    if parts.len() == 0 {
        Seq::empty()
    } else {
        concat(parts.drop_last()) + parts.last()
    }
}

/// Adding one part at the end.
pub proof fn lemma_concat_push(parts: Seq<Seq<u8>>, last: Seq<u8>)
    ensures
        concat(parts.push(last)) == concat(parts) + last,
{
    assert(parts.push(last).drop_last() =~= parts);
}

/// Joining two lists of parts joins what they hold.
pub proof fn lemma_concat_add(a: Seq<Seq<u8>>, b: Seq<Seq<u8>>)
    ensures
        concat(a + b) == concat(a) + concat(b),
    decreases b.len(),
{
    if b.len() == 0 {
        assert(a + b =~= a);
        assert(concat(a) + concat(b) =~= concat(a));
    } else {
        lemma_concat_add(a, b.drop_last());
        assert((a + b).drop_last() =~= a + b.drop_last());
        assert(concat(a) + concat(b) =~= concat(a) + concat(b.drop_last()) + b.last());
    }
}

/// Consecutive pieces of a whole, put one after another, give back the stretch
/// that they were cut from.
pub proof fn lemma_join_pieces(whole: Seq<u8>, parts: Seq<Seq<u8>>, cuts: Seq<int>)
    requires
        cuts.len() == parts.len() + 1,
        forall|i: int|
            0 <= i < parts.len() ==> 0 <= #[trigger] cuts[i] <= cuts[i + 1] <= whole.len()
                && parts[i] == whole.subrange(cuts[i], cuts[i + 1]),
        0 <= cuts[0] <= whole.len(),
    ensures
        cuts[0] <= cuts.last() <= whole.len(),
        concat(parts) == whole.subrange(cuts[0], cuts.last()),
    decreases parts.len(),
{
    if parts.len() == 0 {
        assert(whole.subrange(cuts[0], cuts.last()) =~= Seq::<u8>::empty());
    } else {
        let n = parts.len() - 1;
        let front = parts.drop_last();
        let fcuts = cuts.drop_last();
        assert forall|i: int| 0 <= i < front.len() implies 0 <= #[trigger] fcuts[i] <= fcuts[i + 1]
            <= whole.len() && front[i] == whole.subrange(fcuts[i], fcuts[i + 1]) by {
            assert(fcuts[i] == cuts[i]);
        }
        lemma_join_pieces(whole, front, fcuts);
        assert(fcuts.last() == cuts[n]);
        assert(parts.last() == whole.subrange(cuts[n], cuts[n + 1]));
        assert(whole.subrange(cuts[0], cuts[n]) + whole.subrange(cuts[n], cuts[n + 1])
            =~= whole.subrange(cuts[0], cuts[n + 1]));
    }
}

/// Appends `part` to `out`.
pub fn append(out: &mut Vec<u8>, part: &[u8])
    ensures
        final(out)@ == old(out)@ + part@,
{
    let ghost before = out@;
    let mut i: usize = 0;
    assert(before + part@.take(0) =~= before);
    while i < part.len()
        invariant
            i <= part@.len(),
            out@ == before + part@.take(i as int),
        decreases part@.len() - i,
    {
        out.push(part[i]);
        i += 1;
        assert(part@.take(i as int) =~= part@.take(i - 1).push(part@[i - 1]));
        assert(out@ =~= before + part@.take(i as int));
    }
    assert(part@.take(i as int) =~= part@);
}

/// Byte `i` of the little-endian notation of `n`.
pub open spec fn le_byte(n: nat, i: int) -> u8
    decreases i,
{
    if i <= 0 {
        (n % 256) as u8
    } else {
        le_byte(n / 256, i - 1)
    }
}

/// What bit `k` counts for.
pub open spec fn bit_weight(k: int) -> int
    decreases k,
{
    if k <= 0 {
        1
    } else {
        2 * bit_weight(k - 1)
    }
}

/// The number whose bits `0..n` are given, lowest first.
pub open spec fn packed_bits(bits: spec_fn(int) -> bool, n: int) -> int
    decreases n,
{
    if n <= 0 {
        0
    } else {
        packed_bits(bits, n - 1) + if bits(n - 1) {
            bit_weight(n - 1)
        } else {
            0
        }
    }
}

/// Bit `k` of a byte.
pub open spec fn bit_of(b: u8, k: int) -> bool {
    b as int / bit_weight(k) % 2 == 1
}

/// The weights of the eight bits of a byte.
pub proof fn lemma_bit_weights()
    ensures
        bit_weight(0) == 1,
        bit_weight(1) == 2,
        bit_weight(2) == 4,
        bit_weight(3) == 8,
        bit_weight(4) == 16,
        bit_weight(5) == 32,
        bit_weight(6) == 64,
        bit_weight(7) == 128,
{
    reveal_with_fuel(bit_weight, 9);
}

/// `n` bits stay below the next weight.
pub proof fn lemma_packed_bound(bits: spec_fn(int) -> bool, n: int)
    requires
        0 <= n,
    ensures
        0 <= packed_bits(bits, n) < bit_weight(n),
    decreases n,
{
    if n > 0 {
        lemma_packed_bound(bits, n - 1);
    }
}

/// Eight packed bits are read back one by one.
pub proof fn lemma_packed_bit(bits: spec_fn(int) -> bool, k: int)
    requires
        0 <= k < 8,
    ensures
        0 <= packed_bits(bits, 8) < 256,
        bit_of(packed_bits(bits, 8) as u8, k) == bits(k),
{
    lemma_bit_weights();
    reveal_with_fuel(packed_bits, 9);
    let v: Seq<int> = Seq::new(
        8,
        |i: int|
            if bits(i) {
                1
            } else {
                0
            },
    );
    let p = packed_bits(bits, 8);
    assert(p == v[0] + 2 * v[1] + 4 * v[2] + 8 * v[3] + 16 * v[4] + 32 * v[5] + 64 * v[6] + 128
        * v[7]);
    if k == 0 {
        assert(p / 1 % 2 == v[0]);
    } else if k == 1 {
        assert(p / 2 % 2 == v[1]);
    } else if k == 2 {
        assert(p / 4 % 2 == v[2]);
    } else if k == 3 {
        assert(p / 8 % 2 == v[3]);
    } else if k == 4 {
        assert(p / 16 % 2 == v[4]);
    } else if k == 5 {
        assert(p / 32 % 2 == v[5]);
    } else if k == 6 {
        assert(p / 64 % 2 == v[6]);
    } else {
        assert(p / 128 % 2 == v[7]);
    }
}

/// The low byte of `n`.
pub fn low_byte(n: u32) -> (r: u8)
    ensures
        r == n % 256,
{
    (n % 256) as u8
}

/// The low sixteen bits of `n`.
pub fn low_word(n: usize) -> (r: u16)
    ensures
        r == n % 65536,
{
    (n % 65536) as u16
}

} // verus!
