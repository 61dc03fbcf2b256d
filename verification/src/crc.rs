//! The 16-bit checksum appended to multi-frame transfers.
//!
//! Polynomial 0x1021, initial value 0xFFFF, no reflection, no final xor,
//! computed over the full unsegmented payload and appended big-endian.

use vstd::prelude::*;

verus! {

/// One shift of the checksum register.
pub open spec fn crc_shift(c: u16) -> u16 {
    if c & 0x8000 != 0 {
        (c << 1) ^ 0x1021
    } else {
        c << 1
    }
}

/// `k` shifts of the checksum register.
pub open spec fn crc_shifts(c: u16, k: nat) -> u16
    decreases k,
{
    if k == 0 {
        c
    } else {
        crc_shift(crc_shifts(c, (k - 1) as nat))
    }
}

/// Folds one payload byte into the checksum register.
pub open spec fn crc_push_byte(c: u16, b: u8) -> u16 {
    crc_shifts(c ^ ((b as u16) << 8), 8)
}

/// Folds a byte sequence into the checksum register, first byte first.
pub open spec fn crc_fold(c: u16, s: Seq<u8>) -> u16
    decreases s.len(),
{
    if s.len() == 0 {
        c
    } else {
        crc_fold(crc_push_byte(c, s[0]), s.drop_first())
    }
}

/// The checksum of a byte sequence.
pub open spec fn crc16(s: Seq<u8>) -> u16 {
    crc_fold(0xFFFF, s)
}

/// The two checksum bytes as they are appended to a payload: high byte first.
pub open spec fn crc16_bytes(s: Seq<u8>) -> Seq<u8> {
    seq![(crc16(s) >> 8) as u8, (crc16(s) & 0xFF) as u8]
}

/// Folding one more byte at the end folds it into the result.
pub proof fn lemma_crc_fold_push(c: u16, s: Seq<u8>, b: u8)
    ensures
        crc_fold(c, s.push(b)) == crc_push_byte(crc_fold(c, s), b),
    decreases s.len(),
{
    if s.len() == 0 {
        assert(s.push(b)[0] == b);
        assert(s.push(b).drop_first() =~= Seq::<u8>::empty());
        assert(crc_fold(crc_push_byte(c, b), Seq::<u8>::empty()) == crc_push_byte(c, b));
        assert(crc_fold(c, s.push(b)) == crc_push_byte(c, b));
    } else {
        assert(s.push(b)[0] == s[0]);
        assert(s.push(b).drop_first() =~= s.drop_first().push(b));
        lemma_crc_fold_push(crc_push_byte(c, s[0]), s.drop_first(), b);
    }
}

/// One register shift distributes over xor.
proof fn lemma_crc_shift_linear(a: u16, b: u16)
    ensures
        crc_shift(a ^ b) == crc_shift(a) ^ crc_shift(b),
{
    assert((if (a ^ b) & 0x8000 != 0 {
        ((a ^ b) << 1) ^ 0x1021
    } else {
        (a ^ b) << 1
    }) == ((if a & 0x8000 != 0 {
        (a << 1) ^ 0x1021
    } else {
        a << 1
    }) ^ (if b & 0x8000 != 0 {
        (b << 1) ^ 0x1021
    } else {
        b << 1
    }))) by (bit_vector);
}

/// One register shift never maps a nonzero register to zero: the
/// polynomial's low bit would have to cancel an even number.
proof fn lemma_crc_shift_nonzero(c: u16)
    requires
        c != 0,
    ensures
        crc_shift(c) != 0,
{
    assert((if c & 0x8000 != 0 {
        (c << 1) ^ 0x1021
    } else {
        c << 1
    }) != 0) by (bit_vector)
        requires
            c != 0,
    ;
}

/// `k` shifts distribute over xor and preserve zero and nonzero.
proof fn lemma_crc_shifts_facts(a: u16, b: u16, k: nat)
    ensures
        crc_shifts(a ^ b, k) == crc_shifts(a, k) ^ crc_shifts(b, k),
        a != 0 ==> crc_shifts(a, k) != 0,
        crc_shifts(0, k) == 0,
    decreases k,
{
    if k > 0 {
        lemma_crc_shifts_facts(a, b, (k - 1) as nat);
        lemma_crc_shift_linear(crc_shifts(a, (k - 1) as nat), crc_shifts(b, (k - 1) as nat));
        if a != 0 {
            lemma_crc_shift_nonzero(crc_shifts(a, (k - 1) as nat));
        }
        assert(crc_shift(0u16) == 0) by (bit_vector);
    }
}

/// Folding one byte distributes over xor of register and byte.
proof fn lemma_crc_push_byte_linear(c1: u16, b1: u8, c2: u16, b2: u8)
    ensures
        crc_push_byte(c1 ^ c2, b1 ^ b2) == crc_push_byte(c1, b1) ^ crc_push_byte(c2, b2),
{
    assert((c1 ^ c2) ^ (((b1 ^ b2) as u16) << 8) == (c1 ^ ((b1 as u16) << 8)) ^ (c2 ^ ((
    b2 as u16) << 8))) by (bit_vector);
    lemma_crc_shifts_facts(c1 ^ ((b1 as u16) << 8), c2 ^ ((b2 as u16) << 8), 8);
}

/// The bytewise xor of two equally long sequences.
pub open spec fn seq_xor(a: Seq<u8>, b: Seq<u8>) -> Seq<u8>
    recommends
        a.len() == b.len(),
{
    Seq::new(a.len(), |i: int| a[i] ^ b[i])
}

/// The fold distributes over bytewise xor.
proof fn lemma_crc_fold_linear(c1: u16, c2: u16, a: Seq<u8>, b: Seq<u8>)
    requires
        a.len() == b.len(),
    ensures
        crc_fold(c1 ^ c2, seq_xor(a, b)) == crc_fold(c1, a) ^ crc_fold(c2, b),
    decreases a.len(),
{
    if a.len() == 0 {
        assert(seq_xor(a, b).len() == 0);
    } else {
        assert(seq_xor(a, b)[0] == a[0] ^ b[0]);
        assert(seq_xor(a, b).drop_first() =~= seq_xor(a.drop_first(), b.drop_first()));
        lemma_crc_push_byte_linear(c1, a[0], c2, b[0]);
        lemma_crc_fold_linear(
            crc_push_byte(c1, a[0]),
            crc_push_byte(c2, b[0]),
            a.drop_first(),
            b.drop_first(),
        );
    }
}

/// A run of zero bytes keeps a zero register zero and a nonzero one
/// nonzero.
proof fn lemma_crc_fold_zeros(c: u16, z: Seq<u8>)
    requires
        forall|i: int| 0 <= i < z.len() ==> z[i] == 0,
    ensures
        c == 0 ==> crc_fold(c, z) == 0,
        c != 0 ==> crc_fold(c, z) != 0,
    decreases z.len(),
{
    if z.len() > 0 {
        assert(c ^ ((0u8 as u16) << 8) == c) by (bit_vector);
        lemma_crc_shifts_facts(c, 0, 8);
        lemma_crc_fold_zeros(crc_push_byte(c, 0), z.drop_first());
    }
}

/// The sequence that is zero everywhere but position `i`, where it is `e`.
pub open spec fn single_error(len: nat, i: int, e: u8) -> Seq<u8> {
    Seq::new(len, |j: int| if j == i { e } else { 0 })
}

/// A lone nonzero byte anywhere leaves a nonzero register: its syndrome
/// survives every later shift.
proof fn lemma_crc_fold_single_error(len: nat, i: int, e: u8)
    requires
        0 <= i < len,
        e != 0,
    ensures
        crc_fold(0, single_error(len, i, e)) != 0,
    decreases i,
{
    let d = single_error(len, i, e);
    if i == 0 {
        assert(d[0] == e);
        assert(0u16 ^ ((e as u16) << 8) != 0) by (bit_vector)
            requires
                e != 0,
        ;
        lemma_crc_shifts_facts(0u16 ^ ((e as u16) << 8), 0, 8);
        assert(crc_push_byte(0, e) != 0);
        assert(forall|j: int| 0 <= j < d.drop_first().len() ==> d.drop_first()[j] == 0);
        lemma_crc_fold_zeros(crc_push_byte(0, e), d.drop_first());
    } else {
        assert(d[0] == 0);
        assert(0u16 ^ ((0u8 as u16) << 8) == 0) by (bit_vector);
        lemma_crc_shifts_facts(0, 0, 8);
        assert(crc_push_byte(0, 0) == 0);
        assert(d.drop_first() =~= single_error((len - 1) as nat, i - 1, e));
        lemma_crc_fold_single_error((len - 1) as nat, i - 1, e);
    }
}

/// Law (error detection): changing any single byte of a sequence changes
/// its checksum — a one-byte corruption never passes verification.
pub proof fn lemma_corrupt_byte_changes_crc(s: Seq<u8>, i: int, b: u8)
    requires
        0 <= i < s.len(),
        b != s[i],
    ensures
        crc16(s.update(i, b)) != crc16(s),
{
    let x = s[i];
    let e = x ^ b;
    assert(e != 0 && x ^ e == b) by (bit_vector)
        requires
            e == x ^ b && b != x,
    ;
    let d = single_error(s.len(), i, e);
    assert(seq_xor(s, d) =~= s.update(i, b)) by {
        assert forall|j: int| 0 <= j < s.len() implies seq_xor(s, d)[j] == s.update(i, b)[j] by {
            if j == i {
            } else {
                let y = s[j];
                assert(y ^ 0 == y) by (bit_vector);
            }
        }
    }
    lemma_crc_fold_linear(0xFFFF, 0, s, d);
    assert(0xFFFFu16 ^ 0 == 0xFFFFu16) by (bit_vector);
    lemma_crc_fold_single_error(s.len(), i, e);
    let dd = crc_fold(0, d);
    let cs = crc_fold(0xFFFF, s);
    assert(dd != 0 ==> (cs ^ dd) != cs) by (bit_vector);
}

/// Computes the checksum of the first `len` bytes of a buffer.
pub fn crc16_compute(data: &[u8], len: usize) -> (r: u16)
    requires
        len <= data@.len(),
    ensures
        r == crc16(data@.take(len as int)),
{
    let mut c: u16 = 0xFFFF;
    let mut i: usize = 0;
    proof {
        assert(data@.take(0) =~= Seq::<u8>::empty());
    }
    while i < len
        invariant
            i <= len <= data@.len(),
            c == crc16(data@.take(i as int)),
        decreases len - i,
    {
        let b = data[i];
        let mut x: u16 = c ^ ((b as u16) << 8u16);
        let mut k: usize = 0;
        while k < 8
            invariant
                k <= 8,
                x == crc_shifts(c ^ ((b as u16) << 8u16), k as nat),
            decreases 8 - k,
        {
            if x & 0x8000 != 0 {
                x = (x << 1u16) ^ 0x1021;
            } else {
                x = x << 1u16;
            }
            k = k + 1;
        }
        proof {
            assert(data@.take(i as int).push(b) =~= data@.take(i as int + 1));
            lemma_crc_fold_push(0xFFFF, data@.take(i as int), b);
        }
        c = x;
        i = i + 1;
    }
    c
}

} // verus!
