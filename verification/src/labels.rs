//! Short texts for the console: labels, reasons, and shortened signatures and
//! keys.

use vstd::prelude::*;

use crate::keys::key_text;
use crate::text::contains;

verus! {

/// One of two texts occurs in `s`.
pub open spec fn has_either(s: Seq<char>, a: Seq<char>, b: Seq<char>) -> bool {
    crate::text::occurs_in(a, s) || crate::text::occurs_in(b, s)
}

/// The network that an RPC endpoint belongs to, by what its URL mentions
/// first in the order mainnet, devnet, testnet, local host.
pub open spec fn network_label(url: Seq<char>) -> Seq<char> {
    if crate::text::occurs_in("mainnet"@, url) {
        "solana mainnet"@
    } else if crate::text::occurs_in("devnet"@, url) {
        "solana devnet"@
    } else if crate::text::occurs_in("testnet"@, url) {
        "solana testnet"@
    } else if has_either(url, "127.0.0.1"@, "localhost"@) {
        "solana localnet"@
    } else {
        "solana custom"@
    }
}

/// The network that the RPC endpoint `url` belongs to.
pub fn network_label_from_url(url: &str) -> (label: &'static str)
    ensures
        label@ == network_label(url@),
{
    if contains(url, "mainnet") {
        "solana mainnet"
    } else if contains(url, "devnet") {
        "solana devnet"
    } else if contains(url, "testnet") {
        "solana testnet"
    } else if contains(url, "127.0.0.1") || contains(url, "localhost") {
        "solana localnet"
    } else {
        "solana custom"
    }
}

/// Why the chain refused a solution, by the error code or name in the error.
pub open spec fn submit_reason(error: Seq<char>) -> Seq<char> {
    if has_either(error, "custom program error: 0x1773"@, "AboveTarget"@) {
        "above target"@
    } else if has_either(error, "custom program error: 0x1772"@, "InvalidEquihash"@) {
        "stale challenge"@
    } else if has_either(error, "blockhash not found"@, "BlockhashNotFound"@) {
        "blockhash expired"@
    } else {
        "submit error"@
    }
}

/// Why a solution was refused, from the text of the error.
pub fn classify_submit_err(s: &str) -> (reason: &'static str)
    ensures
        reason@ == submit_reason(s@),
{
    if contains(s, "custom program error: 0x1773") || contains(s, "AboveTarget") {
        "above target"
    } else if contains(s, "custom program error: 0x1772") || contains(s, "InvalidEquihash") {
        "stale challenge"
    } else if contains(s, "blockhash not found") || contains(s, "BlockhashNotFound") {
        "blockhash expired"
    } else {
        "submit error"
    }
}

/// Why an empty round could not be advanced: the round was no longer stalled,
/// or anything else.
pub open spec fn advance_reason(error: Seq<char>) -> Seq<char> {
    if crate::text::occurs_in("RoundStillActive"@, error) {
        "another miner beat us to it"@
    } else {
        "couldn't advance"@
    }
}

/// Why an empty round could not be advanced, from the text of the error.
pub fn classify_advance_err(s: &str) -> (reason: &'static str)
    ensures
        reason@ == advance_reason(s@),
{
    if contains(s, "RoundStillActive") {
        "another miner beat us to it"
    } else {
        "couldn't advance"
    }
}

/// A text can be cut `keep` bytes from either end.
pub open spec fn is_cuttable(s: Seq<char>, keep: int) -> bool {
    let bytes = vstd::utf8::encode_utf8(s);
    &&& 0 <= keep <= bytes.len()
    &&& vstd::utf8::is_char_boundary(bytes, keep)
    &&& vstd::utf8::is_char_boundary(bytes, bytes.len() - keep)
}

/// The first and the last `keep` bytes of a text, with an ellipsis between.
pub open spec fn elided(s: Seq<char>, keep: int) -> Seq<char> {
    let bytes = vstd::utf8::encode_utf8(s);
    vstd::utf8::decode_utf8(bytes.take(keep)) + "…"@ + vstd::utf8::decode_utf8(
        bytes.skip(bytes.len() - keep),
    )
}

fn elide(s: &str, keep: usize) -> (short: String)
    requires
        is_cuttable(s@, keep as int),
    ensures
        short@ == elided(s@, keep as int),
{
    let bytes = s.as_bytes();
    let len: usize = bytes.len();
    let head = s.split_at(keep).0;
    let tail = s.split_at(len - keep).1;
    let mut short = head.to_owned();
    short.append("…");
    short.append(tail);
    proof {
        let all = vstd::utf8::encode_utf8(s@);
        vstd::utf8::encode_utf8_decode_utf8(head@);
        vstd::utf8::encode_utf8_decode_utf8(tail@);
        assert(all.take(keep as int) =~= all.subrange(0, keep as int));
        assert(all.skip(len - keep) =~= all.subrange(len - keep, len as int));
    }
    short
}

/// An ASCII text is cut between characters, and its bytes are its characters.
pub proof fn elided_ascii(s: Seq<char>, keep: int)
    requires
        vstd::utf8::is_ascii_chars(s),
        0 <= keep <= s.len(),
    ensures
        vstd::utf8::encode_utf8(s).len() == s.len(),
        is_cuttable(s, keep),
        elided(s, keep) == s.take(keep) + "…"@ + s.skip(s.len() - keep),
{
    let bytes = vstd::utf8::encode_utf8(s);
    vstd::utf8::is_ascii_chars_encode_utf8(s);
    vstd::utf8::encode_utf8_valid_utf8(s);
    lemma_ascii_part(s, 0, keep);
    lemma_ascii_part(s, s.len() - keep, s.len() as int);
    lemma_ascii_boundary(s, keep);
    lemma_ascii_boundary(s, s.len() - keep);
    assert(bytes.take(keep) =~= bytes.subrange(0, keep));
    assert(bytes.skip(s.len() - keep) =~= bytes.subrange(s.len() - keep, s.len() as int));
    assert(s.take(keep) =~= s.subrange(0, keep));
    assert(s.skip(s.len() - keep) =~= s.subrange(s.len() - keep, s.len() as int));
}

proof fn lemma_ascii_part(s: Seq<char>, from: int, to: int)
    requires
        vstd::utf8::is_ascii_chars(s),
        0 <= from <= to <= s.len(),
    ensures
        vstd::utf8::decode_utf8(vstd::utf8::encode_utf8(s).subrange(from, to)) == s.subrange(
            from,
            to,
        ),
{
    let part = s.subrange(from, to);
    vstd::utf8::is_ascii_chars_encode_utf8(s);
    assert(vstd::utf8::is_ascii_chars(part));
    vstd::utf8::is_ascii_chars_encode_utf8(part);
    assert(vstd::utf8::encode_utf8(part) =~= vstd::utf8::encode_utf8(s).subrange(from, to));
    vstd::utf8::encode_utf8_decode_utf8(part);
}

proof fn lemma_ascii_boundary(s: Seq<char>, at: int)
    requires
        vstd::utf8::is_ascii_chars(s),
        0 <= at <= s.len(),
    ensures
        vstd::utf8::is_char_boundary(vstd::utf8::encode_utf8(s), at),
{
    let bytes = vstd::utf8::encode_utf8(s);
    vstd::utf8::is_ascii_chars_encode_utf8(s);
    vstd::utf8::encode_utf8_valid_utf8(s);
    vstd::utf8::is_char_boundary_start_end_of_seq(bytes);
    if at < s.len() {
        vstd::utf8::is_char_boundary_iff_not_is_continuation_byte(bytes, at);
    }
}

/// A signature for the console: shortened to six bytes from either end if it
/// has more than twelve.
pub open spec fn sig_label(sig: Seq<char>) -> Seq<char> {
    if vstd::utf8::encode_utf8(sig).len() <= 12 {
        sig
    } else {
        elided(sig, 6)
    }
}

/// The signature is short, or can be cut six bytes from either end.
pub open spec fn is_printable_sig(sig: Seq<char>) -> bool {
    vstd::utf8::encode_utf8(sig).len() > 12 ==> is_cuttable(sig, 6)
}

/// The signature `s` for the console.
pub fn short_sig(s: &str) -> (short: String)
    requires
        is_printable_sig(s@),
    ensures
        short@ == sig_label(s@),
{
    let len: usize = s.as_bytes().len();
    if len <= 12 {
        return s.to_owned();
    }
    elide(s, 6)
}

/// An ASCII signature, such as one in base 58, can be printed, and takes at
/// most 13 characters: all of it, or its first and last six.
pub proof fn ascii_sig_is_short(sig: Seq<char>)
    requires
        vstd::utf8::is_ascii_chars(sig),
    ensures
        is_printable_sig(sig),
        sig.len() <= 12 ==> sig_label(sig) == sig,
        sig.len() > 12 ==> sig_label(sig) == sig.take(6) + "…"@ + sig.skip(sig.len() - 6),
        sig_label(sig).len() <= 13,
{
    reveal_strlit("…");
    vstd::utf8::is_ascii_chars_encode_utf8(sig);
    if sig.len() > 12 {
        elided_ascii(sig, 6);
    }
}

proof fn lemma_encode_concat(a: Seq<char>, b: Seq<char>)
    ensures
        vstd::utf8::encode_utf8(a + b) == vstd::utf8::encode_utf8(a) + vstd::utf8::encode_utf8(b),
    decreases a.len(),
{
    if a.len() == 0 {
        assert(a + b =~= b);
    } else {
        assert((a + b).drop_first() =~= a.drop_first() + b);
        lemma_encode_concat(a.drop_first(), b);
    }
    assert(vstd::utf8::encode_utf8(a + b) =~= vstd::utf8::encode_utf8(a)
        + vstd::utf8::encode_utf8(b));
}

/// Shortening a signature twice is shortening it once.
pub proof fn shortening_twice_is_shortening_once(sig: Seq<char>)
    requires
        is_printable_sig(sig),
    ensures
        sig_label(sig_label(sig)) == sig_label(sig),
{
    let bytes = vstd::utf8::encode_utf8(sig);
    if bytes.len() > 12 {
        let first = bytes.take(6);
        let last = bytes.skip(bytes.len() - 6);
        let head = vstd::utf8::decode_utf8(first);
        let tail = vstd::utf8::decode_utf8(last);
        vstd::utf8::encode_utf8_valid_utf8(sig);
        vstd::utf8::valid_utf8_split(bytes, 6);
        vstd::utf8::valid_utf8_split(bytes, bytes.len() - 6);
        assert(first =~= bytes.subrange(0, 6));
        assert(last =~= bytes.subrange(bytes.len() - 6, bytes.len() as int));
        vstd::utf8::decode_utf8_encode_utf8(first);
        vstd::utf8::decode_utf8_encode_utf8(last);
        lemma_encode_concat(head, "…"@);
        lemma_encode_concat(head + "…"@, tail);
        reveal_strlit("…");
        vstd::utf8::encode_utf8_first_scalar("…"@);
        let again = vstd::utf8::encode_utf8(sig_label(sig));
        assert(again.take(6) =~= first);
        assert(again.skip(again.len() - 6) =~= last);
    }
}

/// A key for the console: the first and the last four characters of its text.
pub open spec fn key_label(key: Seq<u8>) -> Seq<char> {
    let text = crate::keys::base58(key);
    text.take(4) + "…"@ + text.skip(text.len() - 4)
}

/// The key `pk` for the console.
pub fn short_pk(pk: &[u8; 32]) -> (short: String)
    ensures
        short@ == key_label(pk@),
{
    let text = key_text(pk);
    proof {
        crate::keys::base58_of_a_key_is_ascii(pk@);
        elided_ascii(text@, 4);
    }
    elide(text.as_str(), 4)
}

/// The network is told by what the URL mentions, and mainnet goes before
/// devnet, devnet before testnet, testnet before the local host.
pub proof fn network_is_told_by_the_url(url: Seq<char>)
    ensures
        network_label(url) == "solana mainnet"@ <==> crate::text::occurs_in("mainnet"@, url),
        network_label(url) == "solana devnet"@ <==> crate::text::occurs_in("devnet"@, url)
            && !crate::text::occurs_in("mainnet"@, url),
        network_label(url) == "solana testnet"@ <==> crate::text::occurs_in("testnet"@, url)
            && !crate::text::occurs_in("mainnet"@, url) && !crate::text::occurs_in("devnet"@, url),
        network_label(url) == "solana localnet"@ <==> (crate::text::occurs_in("127.0.0.1"@, url)
            || crate::text::occurs_in("localhost"@, url)) && !crate::text::occurs_in(
            "mainnet"@,
            url,
        ) && !crate::text::occurs_in("devnet"@, url) && !crate::text::occurs_in("testnet"@, url),
        network_label(url) == "solana custom"@ <==> !crate::text::occurs_in("127.0.0.1"@, url)
            && !crate::text::occurs_in("localhost"@, url) && !crate::text::occurs_in(
            "mainnet"@,
            url,
        ) && !crate::text::occurs_in("devnet"@, url) && !crate::text::occurs_in("testnet"@, url),
{
    reveal_strlit("solana mainnet");
    reveal_strlit("solana devnet");
    reveal_strlit("solana testnet");
    reveal_strlit("solana localnet");
    reveal_strlit("solana custom");
    assert("solana mainnet"@[7] == 'm');
    assert("solana devnet"@[7] == 'd');
    assert("solana testnet"@[7] == 't');
    assert("solana localnet"@[7] == 'l');
    assert("solana custom"@[7] == 'c');
}

/// A refusal is told by what the error mentions, by code or by name: above the
/// target first, then a stale challenge, then an expired blockhash.
pub proof fn refusal_is_told_by_the_error(error: Seq<char>)
    ensures
        ({
            let above = crate::text::occurs_in("custom program error: 0x1773"@, error)
                || crate::text::occurs_in("AboveTarget"@, error);
            let stale = crate::text::occurs_in("custom program error: 0x1772"@, error)
                || crate::text::occurs_in("InvalidEquihash"@, error);
            let expired = crate::text::occurs_in("blockhash not found"@, error)
                || crate::text::occurs_in("BlockhashNotFound"@, error);
            &&& submit_reason(error) == "above target"@ <==> above
            &&& submit_reason(error) == "stale challenge"@ <==> stale && !above
            &&& submit_reason(error) == "blockhash expired"@ <==> expired && !above && !stale
            &&& submit_reason(error) == "submit error"@ <==> !above && !stale && !expired
        }),
{
    reveal_strlit("above target");
    reveal_strlit("stale challenge");
    reveal_strlit("blockhash expired");
    reveal_strlit("submit error");
    assert("above target"@[1] == 'b');
    assert("stale challenge"@[1] == 't');
    assert("blockhash expired"@[1] == 'l');
    assert("submit error"@[1] == 'u');
}

/// Another miner was first exactly where the error mentions that the round is
/// still active.
pub proof fn failed_advance_is_told_by_the_error(error: Seq<char>)
    ensures
        advance_reason(error) == "another miner beat us to it"@ <==> crate::text::occurs_in(
            "RoundStillActive"@,
            error,
        ),
        advance_reason(error) == "couldn't advance"@ <==> !crate::text::occurs_in(
            "RoundStillActive"@,
            error,
        ),
{
    reveal_strlit("another miner beat us to it");
    reveal_strlit("couldn't advance");
    assert("another miner beat us to it"@[0] == 'a');
    assert("couldn't advance"@[0] == 'c');
}

/// A shortened key is nine characters: the first four of its text, an ellipsis,
/// and the last four.
pub proof fn key_label_keeps_both_ends(key: Seq<u8>, i: int)
    requires
        key.len() == 32,
        0 <= i < 4,
    ensures
        key_label(key).len() == 9,
        key_label(key)[i] == crate::keys::base58(key)[i],
        key_label(key)[4] == '…',
        key_label(key)[8 - i] == crate::keys::base58(key)[crate::keys::base58(key).len() - 1 - i],
{
    reveal_strlit("…");
    crate::keys::base58_of_a_key_is_ascii(key);
}

/// A shortened signature keeps its first six bytes, an ellipsis and its last
/// six, whatever the characters.
pub proof fn long_sig_keeps_both_ends(sig: Seq<char>)
    requires
        is_printable_sig(sig),
        vstd::utf8::encode_utf8(sig).len() > 12,
    ensures
        ({
            let all = vstd::utf8::encode_utf8(sig);
            let short = vstd::utf8::encode_utf8(sig_label(sig));
            &&& short.len() == 12 + vstd::utf8::encode_utf8("…"@).len()
            &&& short.take(6) == all.take(6)
            &&& short.skip(short.len() - 6) == all.skip(all.len() - 6)
            &&& short.subrange(6, short.len() - 6) == vstd::utf8::encode_utf8("…"@)
        }),
{
    let bytes = vstd::utf8::encode_utf8(sig);
    let first = bytes.take(6);
    let last = bytes.skip(bytes.len() - 6);
    let head = vstd::utf8::decode_utf8(first);
    let tail = vstd::utf8::decode_utf8(last);
    vstd::utf8::encode_utf8_valid_utf8(sig);
    vstd::utf8::valid_utf8_split(bytes, 6);
    vstd::utf8::valid_utf8_split(bytes, bytes.len() - 6);
    assert(first =~= bytes.subrange(0, 6));
    assert(last =~= bytes.subrange(bytes.len() - 6, bytes.len() as int));
    vstd::utf8::decode_utf8_encode_utf8(first);
    vstd::utf8::decode_utf8_encode_utf8(last);
    lemma_encode_concat(head, "…"@);
    lemma_encode_concat(head + "…"@, tail);
    let short = vstd::utf8::encode_utf8(sig_label(sig));
    assert(short.take(6) =~= first);
    assert(short.skip(short.len() - 6) =~= last);
    assert(short.subrange(6, short.len() - 6) =~= vstd::utf8::encode_utf8("…"@));
}

} // verus!
