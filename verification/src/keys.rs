//! Account keys: 32 bytes each, written in base 58.

use vstd::prelude::*;

verus! {

/// Digit `d` of base 58: the digits from `1`, the capitals without `I` and
/// `O`, and the small letters without `l`.
pub open spec fn base58_digit(d: int) -> char {
    if d < 9 {
        ('1' as int + d) as char
    } else if d < 17 {
        ('A' as int + (d - 9)) as char
    } else if d < 22 {
        ('J' as int + (d - 17)) as char
    } else if d < 33 {
        ('P' as int + (d - 22)) as char
    } else if d < 44 {
        ('a' as int + (d - 33)) as char
    } else {
        ('m' as int + (d - 44)) as char
    }
}

/// The character is a digit of base 58.
pub open spec fn is_base58_digit(c: char) -> bool {
    exists|d: int| 0 <= d < 58 && c == #[trigger] base58_digit(d)
}

/// Every character is a digit of base 58.
pub open spec fn is_base58(s: Seq<char>) -> bool {
    forall|i: int| 0 <= i < s.len() ==> is_base58_digit(#[trigger] s[i])
}

/// The number that the bytes spell, the first byte being the highest.
pub open spec fn big_endian(bytes: Seq<u8>) -> int
    decreases bytes.len(),
{
    if bytes.len() == 0 {
        0
    } else {
        256 * big_endian(bytes.drop_last()) + bytes.last()
    }
}

/// A number in base 58, and nothing for zero.
pub open spec fn base58_digits(v: int) -> Seq<char>
    decreases v,
{
    if v <= 0 {
        Seq::empty()
    } else {
        base58_digits(v / 58).push(base58_digit(v % 58))
    }
}

/// How many zero bytes come first.
pub open spec fn leading_zeros(bytes: Seq<u8>) -> nat
    decreases bytes.len(),
{
    if bytes.len() == 0 || bytes[0] != 0 {
        0
    } else {
        1 + leading_zeros(bytes.skip(1))
    }
}

/// Bytes in base 58: a `1` for each leading zero byte, then the number that
/// they spell.
pub open spec fn base58(bytes: Seq<u8>) -> Seq<char> {
    Seq::new(leading_zeros(bytes), |i: int| '1') + base58_digits(big_endian(bytes))
}

/// Why a text is not a key.
#[derive(Clone, Copy, Debug, PartialEq, Eq, Structural)]
pub enum KeyTextError {
    WrongSize,
    Invalid,
}

/// No key is written as `text`.
pub open spec fn is_no_key(text: Seq<char>) -> bool {
    forall|key: Seq<u8>| key.len() == 32 ==> #[trigger] base58(key) != text
}

/// The text cannot be decoded: it is short enough for a key, but has a
/// character that is no digit of base 58.
pub open spec fn is_undecodable(text: Seq<char>) -> bool {
    vstd::utf8::encode_utf8(text).len() <= 44 && !is_base58(text)
}

/// Calls the `FromStr` of `solana_sdk::pubkey::Pubkey`. It gives the key whose
/// base-58 text is `s`. Of the texts that are no key it calls those invalid
/// that take at most 44 bytes and have a character outside the alphabet, and
/// of the wrong size the others.
#[verifier::external_body]
pub(crate) fn parse_key(s: &str) -> (r: Result<[u8; 32], KeyTextError>)
    ensures
        match r {
            Ok(key) => base58(key@) == s@,
            Err(KeyTextError::Invalid) => is_undecodable(s@),
            Err(KeyTextError::WrongSize) => is_no_key(s@) && !is_undecodable(s@),
        },
{
    match s.parse::<solana_sdk::pubkey::Pubkey>() {
        Ok(key) => Ok(key.to_bytes()),
        Err(solana_sdk::pubkey::ParsePubkeyError::WrongSize) => Err(KeyTextError::WrongSize),
        Err(solana_sdk::pubkey::ParsePubkeyError::Invalid) => Err(KeyTextError::Invalid),
    }
}

/// Calls the `Display` of `solana_sdk::pubkey::Pubkey`, which writes a key in
/// base 58.
#[verifier::external_body]
pub(crate) fn key_text(key: &[u8; 32]) -> (s: String)
    ensures
        s@ == base58(key@),
{
    solana_sdk::pubkey::Pubkey::from(*key).to_string()
}

/// The program to talk to: the one named on the command line, or else
/// `default`.
pub fn resolve_program_id(named: Option<&str>, default: &[u8; 32]) -> (r: Result<
    [u8; 32],
    KeyTextError,
>)
    ensures
        match named {
            None => r matches Ok(key) && key@ == default@,
            Some(text) => match r {
                Ok(key) => base58(key@) == text@,
                Err(KeyTextError::Invalid) => is_undecodable(text@) && is_no_key(text@),
                Err(KeyTextError::WrongSize) => is_no_key(text@) && !is_undecodable(text@),
            },
        },
{
    match named {
        Some(text) => {
            let r = parse_key(text);
            assert(r matches Err(KeyTextError::Invalid) ==> is_no_key(text@)) by {
                assert forall|key: Seq<u8>| !is_base58(text@) && key.len() == 32 implies
                    #[trigger] base58(key) != text@ by {
                    lemma_base58_in_alphabet(key);
                }
            }
            r
        },
        None => Ok(*default),
    }
}

proof fn lemma_base58_digits(v: int)
    ensures
        is_base58(base58_digits(v)),
    decreases v,
{
    if v > 0 {
        let all = base58_digits(v);
        let before = base58_digits(v / 58);
        lemma_base58_digits(v / 58);
        assert forall|i: int| 0 <= i < all.len() implies is_base58_digit(
            #[trigger] all[i],
        ) by {
            if i < before.len() {
                assert(all[i] == before[i]);
            } else {
                assert(all[i] == base58_digit(v % 58));
            }
        }
    }
}

proof fn lemma_base58_in_alphabet(bytes: Seq<u8>)
    ensures
        is_base58(base58(bytes)),
{
    let all = base58(bytes);
    let ones = Seq::new(leading_zeros(bytes), |i: int| '1');
    let rest = base58_digits(big_endian(bytes));
    lemma_base58_digits(big_endian(bytes));
    assert forall|i: int| 0 <= i < all.len() implies is_base58_digit(#[trigger] all[i]) by {
        if i < ones.len() {
            assert(all[i] == base58_digit(0));
        } else {
            assert(all[i] == rest[i - ones.len()]);
        }
    }
}

proof fn lemma_digit_injective(a: int, b: int)
    requires
        0 <= a < 58,
        0 <= b < 58,
        base58_digit(a) == base58_digit(b),
    ensures
        a == b,
{
}

proof fn lemma_digits_injective(a: int, b: int)
    requires
        base58_digits(a) == base58_digits(b),
        a >= 0,
        b >= 0,
    ensures
        a == b,
    decreases a + b,
{
    if a > 0 && b > 0 {
        let da = base58_digits(a);
        let db = base58_digits(b);
        assert(da.drop_last() =~= base58_digits(a / 58));
        assert(db.drop_last() =~= base58_digits(b / 58));
        assert(da.last() == base58_digit(a % 58));
        assert(db.last() == base58_digit(b % 58));
        lemma_digit_injective(a % 58, b % 58);
        lemma_digits_injective(a / 58, b / 58);
    } else if a > 0 {
        assert(base58_digits(a).len() > 0);
    } else if b > 0 {
        assert(base58_digits(b).len() > 0);
    }
}

/// A number in base 58 does not begin with the digit for zero.
proof fn lemma_first_digit(v: int)
    requires
        v > 0,
    ensures
        base58_digits(v).len() > 0,
        base58_digits(v)[0] != '1',
    decreases v,
{
    if v >= 58 {
        lemma_first_digit(v / 58);
        assert(base58_digits(v)[0] == base58_digits(v / 58)[0]);
    } else {
        assert(base58_digits(v / 58) =~= Seq::empty());
        assert(base58_digits(v)[0] == base58_digit(v % 58));
        assert(base58_digit(0) == '1');
        if base58_digit(v % 58) == '1' {
            lemma_digit_injective(v % 58, 0);
        }
    }
}

proof fn lemma_big_endian_bound(bytes: Seq<u8>)
    ensures
        big_endian(bytes) >= 0,
    decreases bytes.len(),
{
    if bytes.len() > 0 {
        lemma_big_endian_bound(bytes.drop_last());
    }
}

proof fn lemma_big_endian_injective(a: Seq<u8>, b: Seq<u8>)
    requires
        a.len() == b.len(),
        big_endian(a) == big_endian(b),
    ensures
        a == b,
    decreases a.len(),
{
    if a.len() > 0 {
        lemma_big_endian_bound(a.drop_last());
        lemma_big_endian_bound(b.drop_last());
        lemma_big_endian_injective(a.drop_last(), b.drop_last());
        assert(a =~= a.drop_last().push(a.last()));
        assert(b =~= b.drop_last().push(b.last()));
    } else {
        assert(a =~= b);
    }
}

/// Keys of one length are told apart by their texts.
pub proof fn base58_tells_keys_apart(a: Seq<u8>, b: Seq<u8>)
    requires
        a.len() == b.len(),
        base58(a) == base58(b),
    ensures
        a == b,
{
    let za = leading_zeros(a) as int;
    let zb = leading_zeros(b) as int;
    let va = big_endian(a);
    let vb = big_endian(b);
    lemma_big_endian_bound(a);
    lemma_big_endian_bound(b);
    lemma_zeros_and_value(a);
    lemma_zeros_and_value(b);
    if za < zb {
        assert(base58(b)[za] == '1');
        lemma_first_digit(va);
        assert(base58(a)[za] == base58_digits(va)[0]);
    } else if zb < za {
        assert(base58(a)[zb] == '1');
        lemma_first_digit(vb);
        assert(base58(b)[zb] == base58_digits(vb)[0]);
    }
    assert(base58_digits(va) =~= base58(a).skip(za));
    assert(base58_digits(vb) =~= base58(b).skip(zb));
    lemma_digits_injective(va, vb);
    lemma_big_endian_injective(a, b);
}

/// Bytes that are not all zero spell a number above zero.
proof fn lemma_zeros_and_value(bytes: Seq<u8>)
    ensures
        leading_zeros(bytes) <= bytes.len(),
        leading_zeros(bytes) < bytes.len() ==> big_endian(bytes) > 0,
    decreases bytes.len(),
{
    if bytes.len() > 0 && bytes[0] == 0 {
        lemma_zeros_and_value(bytes.skip(1));
        lemma_skip_zero(bytes);
    } else if bytes.len() > 0 {
        lemma_nonzero_start(bytes);
    }
}

proof fn lemma_skip_zero(bytes: Seq<u8>)
    requires
        bytes.len() > 0,
        bytes[0] == 0,
    ensures
        big_endian(bytes.skip(1)) == big_endian(bytes),
    decreases bytes.len(),
{
    if bytes.len() > 1 {
        lemma_skip_zero(bytes.drop_last());
        assert(bytes.drop_last().skip(1) =~= bytes.skip(1).drop_last());
    } else {
        reveal_with_fuel(big_endian, 2);
    }
}

proof fn lemma_nonzero_start(bytes: Seq<u8>)
    requires
        bytes.len() > 0,
        bytes[0] != 0,
    ensures
        big_endian(bytes) > 0,
    decreases bytes.len(),
{
    if bytes.len() > 1 {
        lemma_nonzero_start(bytes.drop_last());
    } else {
        reveal_with_fuel(big_endian, 2);
    }
}

/// The address that `Pubkey::try_find_program_address` derives from `seeds`
/// for the program `program_id`: the first, from the highest bump seed down,
/// that is off the curve.
pub uninterp spec fn program_address(seeds: Seq<Seq<u8>>, program_id: Seq<u8>) -> Option<Seq<u8>>;

/// Calls `solana_sdk::pubkey::Pubkey::try_find_program_address`, and drops the
/// bump seed. The address depends on the seeds and the program alone, and is
/// what [`program_address`] names; how it is hashed is not stated.
#[verifier::external_body]
pub(crate) fn find_address(seeds: &Vec<Vec<u8>>, program_id: &[u8; 32]) -> (r: Option<[u8; 32]>)
    ensures
        (match r {
            Some(address) => Some(address@),
            None => None,
        }) == program_address(seeds@.map_values(|seed: Vec<u8>| seed@), program_id@),
{
    let seeds: Vec<&[u8]> = seeds.iter().map(|seed| seed.as_slice()).collect();
    let program_id = solana_sdk::pubkey::Pubkey::from(*program_id);
    solana_sdk::pubkey::Pubkey::try_find_program_address(&seeds, &program_id)
        .map(|found| found.0.to_bytes())
}

/// The account that `program_id` owns under a seed, if it has one.
pub fn derive_program_account(seed: &[u8], program_id: &[u8; 32]) -> (r: Option<[u8; 32]>)
    ensures
        (match r {
            Some(address) => Some(address@),
            None => None,
        }) == program_address(seq![seed@], program_id@),
{
    let mut seeds: Vec<Vec<u8>> = Vec::new();
    seeds.push(vstd::slice::slice_to_vec(seed));
    assert(seeds@.map_values(|seed: Vec<u8>| seed@) =~= seq![seed@]);
    find_address(&seeds, program_id)
}

/// `ATokenGPvbdGVxr1b2hvZbsiqW5xWH25efTNsLJA8knL`, the associated token
/// program.
pub open spec fn associated_token_program() -> Seq<u8> {
    seq![
        0x8cu8, 0x97, 0x25, 0x8f, 0x4e, 0x24, 0x89, 0xf1, 0xbb, 0x3d, 0x10, 0x29, 0x14, 0x8e, 0x0d, 0x83,
        0x0b, 0x5a, 0x13, 0x99, 0xda, 0xff, 0x10, 0x84, 0x04, 0x8e, 0x7b, 0xd8, 0xdb, 0xe9, 0xf8, 0x59,
    ]
}

/// `11111111111111111111111111111111`, the system program.
pub open spec fn system_program() -> Seq<u8> {
    Seq::new(32, |i: int| 0u8)
}

/// `SysvarS1otHashes111111111111111111111111111`, the slot hashes.
pub open spec fn slot_hashes() -> Seq<u8> {
    seq![
        0x06u8, 0xa7, 0xd5, 0x17, 0x19, 0x2f, 0x0a, 0xaf, 0xc6, 0xf2, 0x65, 0xe3, 0xfb, 0x77, 0xcc, 0x7a,
        0xda, 0x82, 0xc5, 0x29, 0xd0, 0xbe, 0x3b, 0x13, 0x6e, 0x2d, 0x00, 0x55, 0x20, 0x00, 0x00, 0x00,
    ]
}

/// Reads `anchor_spl::associated_token::ID`.
#[verifier::external_body]
pub(crate) fn associated_token_program_id() -> (key: [u8; 32])
    ensures
        key@ == associated_token_program(),
{
    anchor_spl::associated_token::ID.to_bytes()
}

/// Reads `solana_sdk::system_program::ID`.
#[verifier::external_body]
pub(crate) fn system_program_id() -> (key: [u8; 32])
    ensures
        key@ == system_program(),
{
    solana_sdk::system_program::ID.to_bytes()
}

/// Reads `solana_sdk::sysvar::slot_hashes::ID`.
#[verifier::external_body]
pub(crate) fn slot_hashes_id() -> (key: [u8; 32])
    ensures
        key@ == slot_hashes(),
{
    solana_sdk::sysvar::slot_hashes::ID.to_bytes()
}

/// The associated token account of an owner: the account that the associated
/// token program owns under the owner, the token program and the mint.
pub open spec fn token_account(owner: Seq<u8>, mint: Seq<u8>, token_program: Seq<u8>) -> Option<
    Seq<u8>,
> {
    program_address(seq![owner, token_program, mint], associated_token_program())
}

/// Calls `anchor_spl::associated_token::get_associated_token_address_with_program_id`,
/// which looks for the program address with the seeds of [`token_account`] and
/// panics where there is none.
#[verifier::external_body]
pub(crate) fn associated_token_address(
    owner: &[u8; 32],
    mint: &[u8; 32],
    token_program: &[u8; 32],
) -> (address: [u8; 32])
    requires
        token_account(owner@, mint@, token_program@) is Some,
    ensures
        token_account(owner@, mint@, token_program@) == Some(address@),
{
    anchor_spl::associated_token::get_associated_token_address_with_program_id(
        &solana_sdk::pubkey::Pubkey::from(*owner),
        &solana_sdk::pubkey::Pubkey::from(*mint),
        &solana_sdk::pubkey::Pubkey::from(*token_program),
    ).to_bytes()
}

/// The token account that the rewards of `owner` go to, where it can be
/// derived.
pub fn derive_ata(owner: &[u8; 32], mint: &[u8; 32], token_program_id: &[u8; 32]) -> (address: [u8;
    32])
    requires
        token_account(owner@, mint@, token_program_id@) is Some,
    ensures
        token_account(owner@, mint@, token_program_id@) == Some(address@),
{
    associated_token_address(owner, mint, token_program_id)
}

/// The token account that the rewards of `owner` go to, or nothing where it
/// cannot be derived.
pub fn try_derive_ata(owner: &[u8; 32], mint: &[u8; 32], token_program_id: &[u8; 32]) -> (r: Option<
    [u8; 32],
>)
    ensures
        (match r {
            Some(address) => Some(address@),
            None => None,
        }) == token_account(owner@, mint@, token_program_id@),
{
    let mut seeds: Vec<Vec<u8>> = Vec::new();
    seeds.push(vstd::slice::slice_to_vec(owner.as_slice()));
    seeds.push(vstd::slice::slice_to_vec(token_program_id.as_slice()));
    seeds.push(vstd::slice::slice_to_vec(mint.as_slice()));
    assert(seeds@.map_values(|seed: Vec<u8>| seed@) =~= seq![owner@, token_program_id@, mint@]);
    match find_address(&seeds, &associated_token_program_id()) {
        Some(_) => Some(derive_ata(owner, mint, token_program_id)),
        None => None,
    }
}

/// A key in base 58 is ASCII and has more than four characters.
pub proof fn base58_of_a_key_is_ascii(key: Seq<u8>)
    requires
        key.len() == 32,
    ensures
        vstd::utf8::is_ascii_chars(base58(key)),
        base58(key).len() > 4,
{
    lemma_base58_in_alphabet(key);
    assert forall|i: int| 0 <= i < base58(key).len() implies '\0' <= #[trigger] base58(key)[i]
        <= '\u{7f}' by {
        assert(is_base58_digit(base58(key)[i]));
    }
    lemma_zeros_and_value(key);
    if leading_zeros(key) <= 4 {
        lemma_long_key(key, 32);
        lemma_many_digits(big_endian(key));
    }
}

proof fn lemma_long_key(key: Seq<u8>, count: int)
    requires
        key.len() == 32,
        leading_zeros(key) <= 4,
        5 <= count <= 32,
    ensures
        count <= 9 ==> big_endian(key.take(count)) >= (if count == 5 {
            1int
        } else if count == 6 {
            0x100
        } else if count == 7 {
            0x1_0000
        } else if count == 8 {
            0x100_0000
        } else {
            0x1_0000_0000
        }),
        count >= 9 ==> big_endian(key.take(count)) >= 0x1_0000_0000,
        big_endian(key.take(32)) == big_endian(key),
    decreases count,
{
    let part = key.take(count);
    assert(key.take(32) =~= key);
    if count == 5 {
        lemma_zeros_of_prefix(key, 5);
        lemma_zeros_and_value(part);
    } else {
        lemma_long_key(key, count - 1);
        assert(part.drop_last() =~= key.take(count - 1));
    }
}

proof fn lemma_zeros_of_prefix(bytes: Seq<u8>, count: int)
    requires
        leading_zeros(bytes) < count <= bytes.len(),
    ensures
        leading_zeros(bytes.take(count)) == leading_zeros(bytes),
    decreases count,
{
    if bytes[0] == 0 {
        lemma_zeros_of_prefix(bytes.skip(1), count - 1);
        assert(bytes.take(count).skip(1) =~= bytes.skip(1).take(count - 1));
    }
}

proof fn lemma_many_digits(v: int)
    requires
        v >= 0x1_0000_0000,
    ensures
        base58_digits(v).len() > 4,
{
    reveal_with_fuel(base58_digits, 6);
}

} // verus!
