//! Packing genetic payloads into machine words.
//!
//! A payload must be packable into the bytes handed to the execution
//! collaborator, and readable back as the sequence of code addresses it
//! encodes, one per `word_size` bytes, in the given byte order.

use vstd::prelude::*;

verus! {

/// Byte order of a machine word.
#[derive(Copy, Clone, PartialEq, Eq, Structural, Debug)]
pub enum Endian {
    Big,
    Little,
}

/// 256 to the `n`.
pub open spec fn pow256(n: nat) -> int
    decreases n,
{
    if n == 0 {
        1
    } else {
        256 * pow256((n - 1) as nat)
    }
}

/// The word a big-endian byte string encodes: the last byte is least
/// significant.
pub open spec fn be_word(s: Seq<u8>) -> int
    decreases s.len(),
{
    if s.len() == 0 {
        0
    } else {
        be_word(s.drop_last()) * 256 + s.last()
    }
}

/// The word a little-endian byte string encodes: the first byte is least
/// significant.
pub open spec fn le_word(s: Seq<u8>) -> int
    decreases s.len(),
{
    if s.len() == 0 {
        0
    } else {
        s.first() + 256 * le_word(s.drop_first())
    }
}

/// The word one `word_size` chunk of `s` encodes.
pub open spec fn word_of(s: Seq<u8>, word_size: int, endian: Endian, i: int) -> int {
    let chunk = s.subrange(i * word_size, i * word_size + word_size);
    match endian {
        Endian::Big => be_word(chunk),
        Endian::Little => le_word(chunk),
    }
}

/// A word of a byte string is bounded by 256 to the string's length.
proof fn lemma_be_word_bound(s: Seq<u8>)
    ensures
        0 <= be_word(s) < pow256(s.len()),
    decreases s.len(),
{
    if s.len() > 0 {
        lemma_be_word_bound(s.drop_last());
    }
}

/// A word of a byte string is bounded by 256 to the string's length.
proof fn lemma_le_word_bound(s: Seq<u8>)
    ensures
        0 <= le_word(s) < pow256(s.len()),
    decreases s.len(),
{
    if s.len() > 0 {
        lemma_le_word_bound(s.drop_first());
    }
}

/// Anything that can hand the execution collaborator its raw bytes and
/// read itself back as code addresses.
pub trait Pack {
    fn pack(&self, word_size: usize, endian: Endian) -> Vec<u8>;

    fn as_code_addrs(&self, word_size: usize, endian: Endian) -> Vec<u64>;
}

impl Pack for Vec<u8> {
    fn pack(&self, _word_size: usize, _endian: Endian) -> Vec<u8> {
        pack_bytes(self)
    }

    fn as_code_addrs(&self, word_size: usize, endian: Endian) -> Vec<u64> {
        if word_size == 0 || word_size > 8 {
            Vec::new()
        } else {
            code_addrs_of_bytes(self, word_size, endian)
        }
    }
}

/// A byte payload packs to itself.
pub fn pack_bytes(payload: &Vec<u8>) -> (r: Vec<u8>)
    ensures
        r@ == payload@,
{
    let r = payload.clone();
    proof {
        assert(r@ =~= payload@);
    }
    r
}

/// Decodes one address per `word_size` bytes of the payload, in the
/// given byte order, dropping any trailing partial word.
pub fn code_addrs_of_bytes(payload: &Vec<u8>, word_size: usize, endian: Endian) -> (r: Vec<u64>)
    requires
        1 <= word_size <= 8,
    ensures
        r@.len() == payload@.len() as int / (word_size as int),
        forall|i: int|
            0 <= i < r@.len() ==> r@[i] == word_of(
                payload@,
                word_size as int,
                endian,
                i,
            ),
{
    let n = payload.len();
    let count = n / word_size;
    let mut r: Vec<u64> = Vec::new();
    let mut i: usize = 0;
    proof {
        reveal_with_fuel(pow256, 9);
        assert(pow256(8) == 0x1_0000_0000_0000_0000);
        lemma_pow256_mono(word_size as nat, 8);
    }
    while i < count
        invariant
            i <= count,
            1 <= word_size <= 8,
            payload@.len() <= usize::MAX,
            count == payload@.len() as int / (word_size as int),
            r@.len() == i,
            pow256(word_size as nat) <= 0x1_0000_0000_0000_0000,
            forall|k: int|
                0 <= k < i ==> r@[k] == word_of(payload@, word_size as int, endian, k),
        decreases count - i,
    {
        proof {
            let len = payload@.len() as int;
            let ws = word_size as int;
            let cnt = count as int;
            vstd::arithmetic::div_mod::lemma_fundamental_div_mod(len, ws);
            vstd::arithmetic::mul::lemma_mul_inequality(i as int + 1, cnt, ws);
            assert((i as int + 1) * ws == i as int * ws + ws) by (nonlinear_arith);
            assert(cnt * ws == ws * cnt) by (nonlinear_arith);
            assert(len % ws >= 0);
            assert(i as int * ws + ws <= len);
        }
        let base = i * word_size;
        let ghost chunk = payload@.subrange(
            (i * word_size) as int,
            (i * word_size) as int + word_size as int,
        );
        let mut acc: u64 = 0;
        match endian {
            Endian::Big => {
                let mut j: usize = 0;
                proof {
                    assert(chunk.take(0) =~= Seq::<u8>::empty());
                }
                while j < word_size
                    invariant
                        j <= word_size,
                        word_size <= 8,
                        payload@.len() <= usize::MAX,
                        base + word_size <= payload@.len(),
                        base == i * word_size,
                        chunk == payload@.subrange(
                            base as int,
                            base as int + word_size as int,
                        ),
                        acc == be_word(chunk.take(j as int)),
                        acc < pow256(j as nat),
                        pow256(word_size as nat) <= 0x1_0000_0000_0000_0000,
                    decreases word_size - j,
                {
                    proof {
                        assert(chunk.take(j as int + 1).drop_last() =~= chunk.take(j as int));
                        lemma_pow256_mono(j as nat + 1, word_size as nat);
                    }
                    acc = acc * 256 + (payload[base + j] as u64);
                    j += 1;
                }
                proof {
                    assert(chunk.take(word_size as int) =~= chunk);
                }
            },
            Endian::Little => {
                let mut j: usize = word_size;
                proof {
                    assert(chunk.skip(word_size as int) =~= Seq::<u8>::empty());
                }
                while j > 0
                    invariant
                        j <= word_size,
                        word_size <= 8,
                        payload@.len() <= usize::MAX,
                        base + word_size <= payload@.len(),
                        base == i * word_size,
                        chunk == payload@.subrange(
                            base as int,
                            base as int + word_size as int,
                        ),
                        acc == le_word(chunk.skip(j as int)),
                        acc < pow256((word_size - j) as nat),
                        pow256(word_size as nat) <= 0x1_0000_0000_0000_0000,
                    decreases j,
                {
                    proof {
                        assert(chunk.skip(j as int - 1).drop_first() =~= chunk.skip(j as int));
                        assert(chunk.skip(j as int - 1).first() == chunk[j as int - 1]);
                        lemma_pow256_mono((word_size - j + 1) as nat, word_size as nat);
                    }
                    j -= 1;
                    acc = acc * 256 + (payload[base + j] as u64);
                }
                proof {
                    assert(chunk.skip(0) =~= chunk);
                }
            },
        }
        r.push(acc);
        i += 1;
    }
    r
}

/// `pow256` grows with its exponent.
proof fn lemma_pow256_mono(a: nat, b: nat)
    requires
        a <= b,
    ensures
        pow256(a) <= pow256(b),
    decreases b,
{
    if a < b && b > 0 {
        lemma_pow256_mono(a, (b - 1) as nat);
        lemma_pow256_pos((b - 1) as nat);
    }
}

/// `pow256` stays positive.
proof fn lemma_pow256_pos(n: nat)
    ensures
        pow256(n) >= 1,
    decreases n,
{
    if n > 0 {
        lemma_pow256_pos((n - 1) as nat);
    }
}

} // verus!
