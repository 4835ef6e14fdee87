//! What the leaf generator is seeded with: the BLAKE2b state that carries the
//! Equihash personalisation, and the message prefix shared by all the leaves
//! of one nonce.

use vstd::prelude::*;

verus! {

/// Length of the input block `I`, in bytes.
pub const INPUT_LEN: usize = 81;

/// Length of a nonce, in bytes.
pub const NONCE_LEN: usize = 32;

/// Length of `I || nonce`, in bytes.
pub const PREFIX_LEN: usize = 113;

/// The initialisation vector of BLAKE2b.
pub open spec fn blake2b_iv() -> Seq<u64> {
    seq![
        0x6a09e667f3bcc908u64,
        0xbb67ae8584caa73bu64,
        0x3c6ef372fe94f82bu64,
        0xa54ff53a5f1d36f1u64,
        0x510e527fade682d1u64,
        0x9b05688c2b3e6c1fu64,
        0x1f83d9abfb41bd6bu64,
        0x5be0cd19137e2179u64,
    ]
}

/// How many bytes one BLAKE2b call has to yield: as many whole `n`-bit hashes
/// as fit in 512 bits.
#[verifier::opaque]
pub open spec fn digest_len(n: int) -> int {
    (512int / n) * n / 8
}

/// Byte `i` of the 32-bit value `v` in little-endian order.
#[verifier::opaque]
pub open spec fn le_byte(v: int, i: int) -> int {
    if i == 0 {
        v % 0x100
    } else if i == 1 {
        v / 0x100 % 0x100
    } else if i == 2 {
        v / 0x1_0000 % 0x100
    } else {
        v / 0x100_0000 % 0x100
    }
}

/// Byte `i` of the 64-byte parameter block of BLAKE2b for the parameters `(n, k)`: digest
/// length, no key, fan-out 1, depth 1, no salt, and `"ZcashPoW" || n || k` as
/// the personalisation.
pub open spec fn parameter_byte(n: int, k: int, i: int) -> int {
    if i == 0 {
        digest_len(n)
    } else if i == 2 || i == 3 {
        1
    } else if 48 <= i < 56 {
        personal_tag()[i - 48] as int
    } else if 56 <= i < 60 {
        le_byte(n, i - 56)
    } else if 60 <= i < 64 {
        le_byte(k, i - 60)
    } else {
        0
    }
}

/// `"ZcashPoW"` in ASCII.
pub open spec fn personal_tag() -> Seq<u8> {
    seq![0x5au8, 0x63, 0x61, 0x73, 0x68, 0x50, 0x6f, 0x57]
}

/// Word `i` of the parameter block: its eight bytes in little-endian order.
#[verifier::opaque]
pub open spec fn parameter_word(n: int, k: int, i: int) -> int {
    parameter_byte(n, k, 8 * i) + 0x100 * parameter_byte(n, k, 8 * i + 1) + 0x1_0000
        * parameter_byte(n, k, 8 * i + 2) + 0x100_0000 * parameter_byte(n, k, 8 * i + 3)
        + 0x1_0000_0000 * parameter_byte(n, k, 8 * i + 4) + 0x100_0000_0000 * parameter_byte(
        n,
        k,
        8 * i + 5,
    ) + 0x1_0000_0000_0000 * parameter_byte(n, k, 8 * i + 6) + 0x100_0000_0000_0000
        * parameter_byte(n, k, 8 * i + 7)
}

/// The chaining value BLAKE2b starts from: the initialisation vector with the
/// parameter block folded in.
pub open spec fn initial_state(n: int, k: int) -> Seq<u64> {
    Seq::new(8, |i: int| blake2b_iv()[i] ^ (parameter_word(n, k, i) as u64))
}

proof fn lemma_digest_len(n: u32)
    requires
        n > 0,
    ensures
        0 <= (512u32 / n) * n <= 512,
        digest_len(n as int) == (512u32 / n) * n / 8,
        0 <= digest_len(n as int) <= 64,
{
    reveal(digest_len);
    assert(0 <= (512u32 / n) * n <= 512) by (nonlinear_arith)
        requires
            n > 0,
    ;
}

proof fn lemma_le_bytes(v: u32)
    ensures
        le_byte(v as int, 0) + 0x100 * le_byte(v as int, 1) + 0x1_0000 * le_byte(v as int, 2)
            + 0x100_0000 * le_byte(v as int, 3) == v,
{
    reveal(le_byte);
}

/// The values of the words of the parameter block.
proof fn lemma_parameter_words(n: u32, k: u32)
    requires
        n > 0,
    ensures
        parameter_word(n as int, k as int, 0) == digest_len(n as int) + 0x101_0000,
        forall|i: int| 1 <= i < 6 ==> #[trigger] parameter_word(n as int, k as int, i) == 0,
        parameter_word(n as int, k as int, 6) == 0x576f_5068_7361_635a,
        parameter_word(n as int, k as int, 7) == n + 0x1_0000_0000 * k,
{
    reveal(parameter_word);
    assert(parameter_word(n as int, k as int, 7) == n + 0x1_0000_0000 * k) by {
        lemma_le_bytes(n);
        lemma_le_bytes(k);
    }
    assert forall|i: int| 1 <= i < 6 implies #[trigger] parameter_word(
        n as int,
        k as int,
        i,
    ) == 0 by {
        assert(forall|j: int| 8 <= j < 48 ==> #[trigger] parameter_byte(n as int, k as int, j) == 0);
    }
}

/// The eight BLAKE2b state words that the leaf generator starts from, for the
/// parameters `(n, k)`.
pub fn blake2b_init_h(n: u32, k: u32) -> (h: [u64; 8])
    requires
        n > 0,
    ensures
        h@ == initial_state(n as int, k as int),
{
    let mut h: [u64; 8] = [
        0x6a09e667f3bcc908,
        0xbb67ae8584caa73b,
        0x3c6ef372fe94f82b,
        0xa54ff53a5f1d36f1,
        0x510e527fade682d1,
        0x9b05688c2b3e6c1f,
        0x1f83d9abfb41bd6b,
        0x5be0cd19137e2179,
    ];
    let ghost iv = h@;
    proof {
        lemma_parameter_words(n, k);
        lemma_digest_len(n);
    }
    let indices_per: u64 = (512 / n) as u64;
    let digest: u64 = indices_per * (n as u64) / 8;
    // Digest length, then fan-out and depth, both 1.
    let word0: u64 = digest | (1u64 << 16) | (1u64 << 24);
    h[0] = h[0] ^ word0;
    // "ZcashPoW".
    let word6: u64 = 0x576f_5068_7361_635a;
    h[6] = h[6] ^ word6;
    // n || k.
    let word7: u64 = (n as u64) | ((k as u64) << 32);
    h[7] = h[7] ^ word7;
    proof {
        assert(word0 == digest + 0x101_0000) by (bit_vector)
            requires
                digest <= 64,
                word0 == digest | (1u64 << 16) | (1u64 << 24),
        ;
        let wide_n = n as u64;
        let wide_k = k as u64;
        assert(word7 == wide_n + 0x1_0000_0000 * wide_k) by (bit_vector)
            requires
                wide_n <= 0xffff_ffff,
                wide_k <= 0xffff_ffff,
                word7 == wide_n | (wide_k << 32),
        ;
        assert(forall|x: u64| #[trigger] (x ^ 0u64) == x) by (bit_vector);
        assert(iv == blake2b_iv());
        assert(h@ =~= initial_state(n as int, k as int));
    }
    h
}

/// The prefix `I || nonce` that every leaf hash of a nonce starts from.
pub fn build_prefix(input: &[u8; 81], nonce: &[u8; 32]) -> (prefix: [u8; 113])
    ensures
        prefix@ == input@ + nonce@,
{
    let mut prefix: [u8; 113] = [0u8; 113];
    let mut i: usize = 0;
    while i < INPUT_LEN
        invariant
            i <= INPUT_LEN,
            forall|j: int| 0 <= j < i ==> prefix@[j] == input@[j],
        decreases INPUT_LEN - i,
    {
        prefix[i] = input[i];
        i += 1;
    }
    let mut j: usize = 0;
    while j < NONCE_LEN
        invariant
            j <= NONCE_LEN,
            forall|m: int| 0 <= m < INPUT_LEN ==> prefix@[m] == input@[m],
            forall|m: int| 0 <= m < j ==> prefix@[INPUT_LEN + m] == nonce@[m],
        decreases NONCE_LEN - j,
    {
        prefix[INPUT_LEN + j] = nonce[j];
        j += 1;
    }
    assert(prefix@ =~= input@ + nonce@) by {
        assert forall|m: int| 0 <= m < PREFIX_LEN implies prefix@[m] == (input@ + nonce@)[m] by {
            if m >= INPUT_LEN {
                assert(prefix@[INPUT_LEN + (m - INPUT_LEN)] == nonce@[m - INPUT_LEN]);
            }
        }
    }
    prefix
}

/// Different parameters never share a starting state.
pub proof fn initial_state_tells_parameters_apart(n1: u32, k1: u32, n2: u32, k2: u32)
    requires
        n1 > 0,
        n2 > 0,
        initial_state(n1 as int, k1 as int) == initial_state(n2 as int, k2 as int),
    ensures
        n1 == n2,
        k1 == k2,
{
    lemma_parameter_words(n1, k1);
    lemma_parameter_words(n2, k2);
    let a = (n1 + 0x1_0000_0000 * k1) as u64;
    let b = (n2 + 0x1_0000_0000 * k2) as u64;
    let iv = 0x5be0cd19137e2179u64;
    assert(initial_state(n1 as int, k1 as int)[7] == iv ^ a);
    assert(initial_state(n2 as int, k2 as int)[7] == iv ^ b);
    assert(a == b) by (bit_vector)
        requires
            iv ^ a == iv ^ b,
    ;
}

/// Only the digest length and the personalisation reach the state: words 1 to
/// 5 are those of the initialisation vector.
pub proof fn initial_state_keeps_middle_words(n: u32, k: u32)
    requires
        n > 0,
    ensures
        forall|i: int|
            1 <= i < 6 ==> #[trigger] initial_state(n as int, k as int)[i] == blake2b_iv()[i],
{
    lemma_parameter_words(n, k);
    assert(forall|x: u64| #[trigger] (x ^ 0u64) == x) by (bit_vector);
    assert forall|i: int| 1 <= i < 6 implies #[trigger] initial_state(n as int, k as int)[i]
        == blake2b_iv()[i] by {
        assert(parameter_word(n as int, k as int, i) == 0);
    }
}

/// The prefix of a nonce determines the input block and the nonce.
pub proof fn prefix_determines_parts(
    input1: Seq<u8>,
    nonce1: Seq<u8>,
    input2: Seq<u8>,
    nonce2: Seq<u8>,
)
    requires
        input1.len() == input2.len(),
        input1 + nonce1 == input2 + nonce2,
    ensures
        input1 == input2,
        nonce1 == nonce2,
{
    let cut = input1.len() as int;
    assert(input1 =~= (input1 + nonce1).take(cut));
    assert(input2 =~= (input2 + nonce2).take(cut));
    assert(nonce1 =~= (input1 + nonce1).skip(cut));
    assert(nonce2 =~= (input2 + nonce2).skip(cut));
}

/// The starting state, word by word, for all parameters. Taking the
/// initialisation vector off again leaves: in word 0 the bytes that `hashes`
/// whole hashes of `n` bits take, behind fan-out and depth; nothing in words 1
/// to 5; the tag in word 6; and `n`, then `k`, in word 7.
pub proof fn initial_state_word_by_word(n: u32, k: u32, hashes: int)
    requires
        n > 0,
        hashes * n <= 512 < (hashes + 1) * n,
    ensures
        ({
            let h = initial_state(n as int, k as int);
            &&& h.len() == 8
            &&& h[0] ^ 0x6a09e667f3bcc908u64 == 0x101_0000 + hashes * n / 8
            &&& h[1] == 0xbb67ae8584caa73bu64
            &&& h[2] == 0x3c6ef372fe94f82bu64
            &&& h[3] == 0xa54ff53a5f1d36f1u64
            &&& h[4] == 0x510e527fade682d1u64
            &&& h[5] == 0x9b05688c2b3e6c1fu64
            &&& h[6] == 0x48ec89c38820de31u64
            &&& h[7] ^ 0x5be0cd19137e2179u64 == n + 0x1_0000_0000 * k
        }),
{
    lemma_parameter_words(n, k);
    lemma_digest_len(n);
    initial_state_keeps_middle_words(n, k);
    let h = initial_state(n as int, k as int);
    let x = parameter_word(n as int, k as int, 0) as u64;
    let y = parameter_word(n as int, k as int, 7) as u64;
    assert(forall|iv: u64, w: u64| #[trigger] ((iv ^ w) ^ iv) == w) by (bit_vector);
    assert(h[0] == 0x6a09e667f3bcc908u64 ^ x);
    assert(h[7] == 0x5be0cd19137e2179u64 ^ y);
    assert((0x6a09e667f3bcc908u64 ^ x) ^ 0x6a09e667f3bcc908u64 == x);
    assert((0x5be0cd19137e2179u64 ^ y) ^ 0x5be0cd19137e2179u64 == y);
    assert(0x1f83d9abfb41bd6bu64 ^ 0x576f_5068_7361_635au64 == 0x48ec89c38820de31u64)
        by (bit_vector);
    assert(h[6] == 0x1f83d9abfb41bd6bu64 ^ 0x576f_5068_7361_635au64);
    assert(hashes == 512int / (n as int)) by (nonlinear_arith)
        requires
            n > 0,
            hashes * n <= 512 < (hashes + 1) * n,
    ;
    assert(digest_len(n as int) == hashes * n / 8) by {
        reveal(digest_len);
    }
}

} // verus!
