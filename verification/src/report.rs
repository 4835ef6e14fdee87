//! What the miner prints, line by line. Rates and latencies come in as text:
//! the caller measures them.

use vstd::prelude::*;

use crate::amounts::{fmt_uptime, format_reward};
use crate::gpu::UnsupportedParams;
use crate::labels::{classify_advance_err, classify_submit_err, short_pk, short_sig};
use crate::oracle::{Finding, OracleFailure, ORACLE_BUDGET};
use crate::text::push_decimal;

verus! {

pub const C_RESET: &'static str = "\x1b[0m";

pub const C_DIM: &'static str = "\x1b[2m";

pub const C_BOLD: &'static str = "\x1b[1m";

pub const C_ROSE_B: &'static str = "\x1b[1;35m";

pub const C_GOLD: &'static str = "\x1b[33m";

pub const C_GOLD_B: &'static str = "\x1b[1;33m";

pub const C_SAGE: &'static str = "\x1b[32m";

pub const C_SAGE_B: &'static str = "\x1b[1;32m";

pub const C_TEAL: &'static str = "\x1b[36m";

pub const C_GRAY: &'static str = "\x1b[90m";

pub const LOGO: &'static str = r#"
   ███████╗ ██████╗ ██╗   ██╗██╗██╗   ██╗███╗   ███╗
   ██╔════╝██╔═══██╗██║   ██║██║██║   ██║████╗ ████║
   █████╗  ██║   ██║██║   ██║██║██║   ██║██╔████╔██║
   ██╔══╝  ██║▄▄ ██║██║   ██║██║██║   ██║██║╚██╔╝██║
   ███████╗╚██████╔╝╚██████╔╝██║╚██████╔╝██║ ╚═╝ ██║
   ╚══════╝ ╚══▀▀═╝  ╚═════╝ ╚═╝ ╚═════╝ ╚═╝     ╚═╝"#;

pub const RULE: &'static str = "   ────────────────────────────────────────────────────";

/// A text in a colour.
pub open spec fn painted(colour: Seq<char>, text: Seq<char>) -> Seq<char> {
    colour + text + C_RESET@
}

fn paint(out: &mut String, colour: &str, text: &str)
    ensures
        final(out)@ == old(out)@ + painted(colour@, text@),
{
    out.append(colour);
    out.append(text);
    out.append(C_RESET);
    assert(out@ =~= old(out)@ + painted(colour@, text@));
}

/// `text` in a colour.
pub fn in_colour(colour: &str, text: &str) -> (line: String)
    ensures
        line@ == painted(colour@, text@),
{
    let mut line = String::new();
    paint(&mut line, colour, text);
    assert(line@ =~= painted(colour@, text@));
    line
}

/// A hexadecimal digit.
pub open spec fn hex_digit(d: int) -> char {
    if d < 10 {
        ('0' as int + d) as char
    } else {
        ('a' as int + (d - 10)) as char
    }
}

/// Bytes in hexadecimal, two digits each, the higher first.
pub open spec fn hexadecimal(bytes: Seq<u8>) -> Seq<char> {
    Seq::new(
        2 * bytes.len(),
        |i: int|
            if i % 2 == 0 {
                hex_digit(bytes[i / 2] as int / 16)
            } else {
                hex_digit(bytes[i / 2] as int % 16)
            },
    )
}

/// Calls `hex::encode`, which writes every byte as two digits, with small
/// letters.
#[verifier::external_body]
pub(crate) fn hex_text(bytes: &[u8]) -> (s: String)
    ensures
        s@ == hexadecimal(bytes@),
{
    hex::encode(bytes)
}

/// A text and a number.
pub open spec fn numbered(prefix: Seq<char>, v: int) -> Seq<char> {
    prefix + crate::text::decimal(v)
}

fn with_number(prefix: &str, v: u64) -> (s: String)
    ensures
        s@ == numbered(prefix@, v as int),
{
    let mut s = prefix.to_owned();
    push_decimal(&mut s, v);
    s
}

pub open spec fn round_text(height: u64, reward: u64, target: Seq<u8>) -> Seq<char> {
    "   "@ + painted(C_BOLD@, numbered("round #"@, height as int)) + "   "@ + painted(
        C_DIM@,
        "reward "@ + crate::amounts::reward_text(reward as int) + " EQM"@,
    ) + "   "@ + painted(C_DIM@, "target 0x"@ + hexadecimal(target.take(4)) + "…"@)
}

/// The line that opens a round.
pub fn round_line(height: u64, reward: u64, target: &[u8; 32]) -> (line: String)
    ensures
        line@ == round_text(height, reward, target@),
{
    let mut reward_part = "reward ".to_owned();
    reward_part.append(format_reward(reward).as_str());
    reward_part.append(" EQM");
    let mut head: Vec<u8> = Vec::new();
    head.push(target[0]);
    head.push(target[1]);
    head.push(target[2]);
    head.push(target[3]);
    assert(head@ =~= target@.take(4));
    let mut target_part = "target 0x".to_owned();
    target_part.append(hex_text(head.as_slice()).as_str());
    target_part.append("…");
    let mut line = "   ".to_owned();
    paint(&mut line, C_BOLD, with_number("round #", height).as_str());
    line.append("   ");
    paint(&mut line, C_DIM, reward_part.as_str());
    line.append("   ");
    paint(&mut line, C_DIM, target_part.as_str());
    line
}

/// The line that rules off a section.
pub fn rule_line() -> (line: String)
    ensures
        line@ == painted(C_GRAY@, RULE@),
{
    in_colour(C_GRAY, RULE)
}

pub open spec fn stalled_text(secs: u64) -> Seq<char> {
    "   "@ + painted(
        C_GRAY@,
        numbered("round stalled "@, secs as int) + "s — calling advance_empty_round"@,
    )
}

/// The line that says that a stalled round is to be advanced.
pub fn stalled_line(secs: u64) -> (line: String)
    ensures
        line@ == stalled_text(secs),
{
    let mut part = with_number("round stalled ", secs);
    part.append("s — calling advance_empty_round");
    let mut line = "   ".to_owned();
    paint(&mut line, C_GRAY, part.as_str());
    line
}

pub open spec fn advanced_text(sig: Seq<char>) -> Seq<char> {
    "     "@ + painted(C_SAGE@, "↳ advanced empty round"@) + "   "@ + painted(
        C_GRAY@,
        "sig "@ + crate::labels::sig_label(sig),
    )
}

/// The line that says that a round was advanced.
pub fn advanced_line(sig: &str) -> (line: String)
    requires
        crate::labels::is_printable_sig(sig@),
    ensures
        line@ == advanced_text(sig@),
{
    let mut part = "sig ".to_owned();
    part.append(short_sig(sig).as_str());
    let mut line = "     ".to_owned();
    paint(&mut line, C_SAGE, "↳ advanced empty round");
    line.append("   ");
    paint(&mut line, C_GRAY, part.as_str());
    line
}

pub open spec fn not_advanced_text(error: Seq<char>) -> Seq<char> {
    "     "@ + painted(C_GRAY@, "↳ "@ + crate::labels::advance_reason(error))
}

/// The line that says why a round was not advanced.
pub fn not_advanced_line(error: &str) -> (line: String)
    ensures
        line@ == not_advanced_text(error@),
{
    let mut part = "↳ ".to_owned();
    part.append(classify_advance_err(error));
    let mut line = "     ".to_owned();
    paint(&mut line, C_GRAY, part.as_str());
    line
}

pub open spec fn millis_text(ms: u64) -> Seq<char> {
    crate::text::decimal(ms as int) + "ms"@
}

fn millis(ms: u64) -> (s: String)
    ensures
        s@ == millis_text(ms),
{
    let mut s = String::new();
    push_decimal(&mut s, ms);
    assert(s@ =~= crate::text::decimal(ms as int));
    s.append("ms");
    s
}

pub open spec fn failed_try_text(
    try_in_round: u32,
    what: Seq<char>,
    ms: u64,
    hashrate: Seq<char>,
) -> Seq<char> {
    "     "@ + painted(C_GRAY@, numbered("· try #"@, try_in_round as int)) + "   "@ + painted(
        C_DIM@,
        what,
    ) + "        "@ + painted(C_DIM@, millis_text(ms)) + "   "@ + painted(C_GOLD@, hashrate)
}

fn failed_try(try_in_round: u32, what: &str, ms: u64, hashrate: &str) -> (line: String)
    ensures
        line@ == failed_try_text(try_in_round, what@, ms, hashrate@),
{
    let mut line = "     ".to_owned();
    paint(&mut line, C_GRAY, with_number("· try #", try_in_round as u64).as_str());
    line.append("   ");
    paint(&mut line, C_DIM, what);
    line.append("        ");
    paint(&mut line, C_DIM, millis(ms).as_str());
    line.append("   ");
    paint(&mut line, C_GOLD, hashrate);
    line
}

/// The line that says that a search found nothing.
pub fn exhausted_line(try_in_round: u32, ms: u64, hashrate: &str) -> (line: String)
    ensures
        line@ == failed_try_text(try_in_round, "exhausted"@, ms, hashrate@),
{
    failed_try(try_in_round, "exhausted", ms, hashrate)
}

/// The line that says why a solution was refused.
pub fn refused_line(try_in_round: u32, error: &str, ms: u64, hashrate: &str) -> (line: String)
    ensures
        line@ == failed_try_text(
            try_in_round,
            crate::labels::submit_reason(error@),
            ms,
            hashrate@,
        ),
{
    failed_try(try_in_round, classify_submit_err(error), ms, hashrate)
}

pub open spec fn mined_text(
    reward: u64,
    try_in_round: u32,
    ms: u64,
    hashrate: Seq<char>,
) -> Seq<char> {
    "     "@ + painted(C_SAGE_B@, "✓ MINED!"@) + "   "@ + painted(
        C_BOLD@,
        "+"@ + crate::amounts::reward_text(reward as int) + " EQM"@,
    ) + "     "@ + painted(C_DIM@, numbered("try #"@, try_in_round as int)) + "   "@ + painted(
        C_DIM@,
        millis_text(ms),
    ) + "   "@ + painted(C_GOLD_B@, hashrate)
}

/// The line that says that a block was mined.
pub fn mined_line(reward: u64, try_in_round: u32, ms: u64, hashrate: &str) -> (line: String)
    ensures
        line@ == mined_text(reward, try_in_round, ms, hashrate@),
{
    let mut part = "+".to_owned();
    part.append(format_reward(reward).as_str());
    part.append(" EQM");
    let mut line = "     ".to_owned();
    paint(&mut line, C_SAGE_B, "✓ MINED!");
    line.append("   ");
    paint(&mut line, C_BOLD, part.as_str());
    line.append("     ");
    paint(&mut line, C_DIM, with_number("try #", try_in_round as u64).as_str());
    line.append("   ");
    paint(&mut line, C_DIM, millis(ms).as_str());
    line.append("   ");
    paint(&mut line, C_GOLD_B, hashrate);
    line
}

pub open spec fn signature_text(sig: Seq<char>) -> Seq<char> {
    "       "@ + painted(C_GRAY@, "sig "@ + crate::labels::sig_label(sig))
}

/// The line with the signature of a block.
pub fn signature_line(sig: &str) -> (line: String)
    requires
        crate::labels::is_printable_sig(sig@),
    ensures
        line@ == signature_text(sig@),
{
    let mut part = "sig ".to_owned();
    part.append(short_sig(sig).as_str());
    let mut line = "       ".to_owned();
    paint(&mut line, C_GRAY, part.as_str());
    line
}

pub open spec fn totals_text(reward: u64, blocks: u64, uptime: u64) -> Seq<char> {
    "   "@ + painted(C_DIM@, "total mined"@) + "  "@ + painted(
        C_BOLD@,
        crate::amounts::reward_text(reward as int) + " EQM"@,
    ) + "   "@ + painted(C_GRAY@, "·"@) + "   "@ + painted(C_DIM@, "blocks"@) + "  "@ + painted(
        C_BOLD@,
        crate::text::decimal(blocks as int),
    ) + "   "@ + painted(C_GRAY@, "·"@) + "   "@ + painted(C_DIM@, "uptime"@) + "  "@ + painted(
        C_BOLD@,
        crate::amounts::uptime_text(uptime as int),
    )
}

/// The line with the totals of the session, which runs for `uptime` seconds.
pub fn totals_line(reward: u64, blocks: u64, uptime: u64) -> (line: String)
    ensures
        line@ == totals_text(reward, blocks, uptime),
{
    let mut amount = format_reward(reward);
    amount.append(" EQM");
    let mut line = "   ".to_owned();
    paint(&mut line, C_DIM, "total mined");
    line.append("  ");
    paint(&mut line, C_BOLD, amount.as_str());
    line.append("   ");
    paint(&mut line, C_GRAY, "·");
    line.append("   ");
    paint(&mut line, C_DIM, "blocks");
    line.append("  ");
    paint(&mut line, C_BOLD, crate::text::decimal_text(blocks).as_str());
    line.append("   ");
    paint(&mut line, C_GRAY, "·");
    line.append("   ");
    paint(&mut line, C_DIM, "uptime");
    line.append("  ");
    paint(&mut line, C_BOLD, fmt_uptime(uptime).as_str());
    line
}

pub open spec fn complete_text(max_blocks: u64, latency: Seq<char>, hashrate: Seq<char>) -> Seq<
    char,
> {
    "   "@ + painted(C_ROSE_B@, "session complete"@) + "  ·  "@ + crate::text::decimal(
        max_blocks as int,
    ) + " blocks  ·  avg latency "@ + latency + "s  ·  "@ + hashrate
}

/// The line that closes a session, with the average seconds of a block.
pub fn complete_line(max_blocks: u64, latency: &str, hashrate: &str) -> (line: String)
    ensures
        line@ == complete_text(max_blocks, latency@, hashrate@),
{
    let mut line = "   ".to_owned();
    paint(&mut line, C_ROSE_B, "session complete");
    line.append("  ·  ");
    push_decimal(&mut line, max_blocks);
    line.append(" blocks  ·  avg latency ");
    line.append(latency);
    line.append("s  ·  ");
    line.append(hashrate);
    line
}

pub open spec fn field_text(name: Seq<char>, gap: Seq<char>, value: Seq<char>) -> Seq<char> {
    "   "@ + painted(C_DIM@, name) + gap + painted(C_TEAL@, value)
}

fn field(name: &str, gap: &str, value: &str) -> (line: String)
    ensures
        line@ == field_text(name@, gap@, value@),
{
    let mut line = "   ".to_owned();
    paint(&mut line, C_DIM, name);
    line.append(gap);
    paint(&mut line, C_TEAL, value);
    line
}

/// The lines under the logo when the miner starts.
pub open spec fn boot_texts(
    miner: Seq<u8>,
    program: Seq<u8>,
    network: Seq<char>,
    gpu: Seq<char>,
) -> Seq<Seq<char>> {
    seq![
        "   "@ + painted(C_DIM@, "gpu-mineable on solana"@) + "                            "@
            + painted(C_GOLD_B@, "$EQM ⛏"@),
        ""@,
        painted(C_GRAY@, RULE@),
        field_text("miner"@, "     "@, crate::labels::key_label(miner)),
        field_text("program"@, "   "@, crate::labels::key_label(program)),
        field_text("network"@, "   "@, network),
        field_text("gpu"@, "       "@, gpu),
        painted(C_GRAY@, RULE@),
    ]
}

/// The lines under the logo when the miner starts.
pub fn boot_lines(miner: &[u8; 32], program: &[u8; 32], network: &str, gpu: &str) -> (lines: Vec<
    String,
>)
    ensures
        lines@.map_values(|line: String| line@) == boot_texts(miner@, program@, network@, gpu@),
{
    let mut banner = "   ".to_owned();
    paint(&mut banner, C_DIM, "gpu-mineable on solana");
    banner.append("                            ");
    paint(&mut banner, C_GOLD_B, "$EQM ⛏");
    let mut lines: Vec<String> = Vec::new();
    lines.push(banner);
    lines.push("".to_owned());
    lines.push(rule_line());
    lines.push(field("miner", "     ", short_pk(miner).as_str()));
    lines.push(field("program", "   ", short_pk(program).as_str()));
    lines.push(field("network", "   ", network));
    lines.push(field("gpu", "       ", gpu));
    lines.push(rule_line());
    assert(lines@.map_values(|line: String| line@) =~= boot_texts(
        miner@,
        program@,
        network@,
        gpu@,
    ));
    lines
}

/// A text with spaces behind it, up to three characters.
pub open spec fn padded(s: Seq<char>) -> Seq<char> {
    if s.len() == 1 {
        s + "  "@
    } else if s.len() == 2 {
        s + " "@
    } else {
        s
    }
}

pub open spec fn nonce_text(number: usize) -> Seq<char> {
    "   nonce #"@ + padded(crate::text::decimal(number as int)) + "  "@
}

fn nonce_part(number: usize) -> (s: String)
    ensures
        s@ == nonce_text(number),
{
    let mut s = with_number("   nonce #", number as u64);
    if number < 10 {
        s.append("  ");
    } else if number < 100 {
        s.append(" ");
    }
    s.append("  ");
    proof {
        reveal_with_fuel(crate::text::decimal, 3);
        if number >= 100 {
            lemma_long_decimal(number as int);
        }
        assert(s@ =~= nonce_text(number));
    }
    s
}

proof fn lemma_long_decimal(v: int)
    requires
        v >= 100,
    ensures
        crate::text::decimal(v).len() > 2,
    decreases v,
{
    reveal_with_fuel(crate::text::decimal, 3);
    if v >= 1000 {
        lemma_long_decimal(v / 10);
    }
}

/// What is printed of a finding of the self-test, if anything.
pub open spec fn finding_text(number: usize, f: Finding) -> Option<Seq<char>> {
    match f {
        Finding::Neither => None,
        Finding::CpuOnly => Some(
            nonce_text(number) + "cpu found, gpu didn't (acceptable if rare)"@,
        ),
        Finding::GpuOnly { gpu_valid, .. } => if gpu_valid {
            Some(
                nonce_text(number)
                    + "gpu found valid solution; cpu didn't (kernel may be finding more)"@,
            )
        } else {
            None
        },
        Finding::Both { cpu_valid, candidates, gpu_valid, .. } => Some(
            nonce_text(number) + "cpu "@ + (if cpu_valid {
                "✓"@
            } else {
                "✗"@
            }) + " gpu_candidates="@ + crate::text::decimal(candidates as int) + "  gpu_valid="@
                + (if gpu_valid {
                "true"@
            } else {
                "false"@
            }),
        ),
    }
}

/// The line on a finding of the self-test, if there is one; `number` is that
/// of the nonce.
pub fn finding_line(number: usize, f: Finding) -> (line: Option<String>)
    ensures
        (match line {
            Some(text) => Some(text@),
            None => None,
        }) == finding_text(number, f),
{
    match f {
        Finding::Neither => None,
        Finding::CpuOnly => {
            let mut line = nonce_part(number);
            line.append("cpu found, gpu didn't (acceptable if rare)");
            Some(line)
        },
        Finding::GpuOnly { gpu_valid, .. } => {
            if !gpu_valid {
                return None;
            }
            let mut line = nonce_part(number);
            line.append("gpu found valid solution; cpu didn't (kernel may be finding more)");
            Some(line)
        },
        Finding::Both { cpu_valid, candidates, gpu_valid, .. } => {
            let mut line = nonce_part(number);
            line.append("cpu ");
            if cpu_valid {
                line.append("✓");
            } else {
                line.append("✗");
            }
            line.append(" gpu_candidates=");
            push_decimal(&mut line, candidates as u64);
            line.append("  gpu_valid=");
            if gpu_valid {
                line.append("true");
            } else {
                line.append("false");
            }
            Some(line)
        },
    }
}

/// The line that says that a device passed the self-test.
pub fn oracle_passed_line() -> (line: String)
    ensures
        line@ == "   "@ + painted(C_SAGE_B@, "oracle check passed"@)
            + " — kernel produces valid Equihash solutions"@,
{
    let mut line = "   ".to_owned();
    paint(&mut line, C_SAGE_B, "oracle check passed");
    line.append(" — kernel produces valid Equihash solutions");
    line
}

pub open spec fn oracle_failure_text(failure: OracleFailure) -> Seq<char> {
    match failure {
        OracleFailure::InvalidCandidate =>
            "GPU produced a candidate that failed is_valid_solution; kernel is buggy"@,
        OracleFailure::NoneValid { candidates } => numbered("GPU found "@, candidates as int)
            + " candidate(s) but none are valid Equihash solutions"@,
        OracleFailure::Exhausted => numbered(
            "no solutions found across "@,
            ORACLE_BUDGET as int,
        ) + " nonces — increase the budget or check kernel"@,
    }
}

/// Why a device failed the self-test.
pub fn oracle_failure_message(failure: OracleFailure) -> (message: String)
    ensures
        message@ == oracle_failure_text(failure),
{
    match failure {
        OracleFailure::InvalidCandidate => {
            "GPU produced a candidate that failed is_valid_solution; kernel is buggy".to_owned()
        },
        OracleFailure::NoneValid { candidates } => {
            let mut message = with_number("GPU found ", candidates as u64);
            message.append(" candidate(s) but none are valid Equihash solutions");
            message
        },
        OracleFailure::Exhausted => {
            let mut message = with_number("no solutions found across ", ORACLE_BUDGET as u64);
            message.append(" nonces — increase the budget or check kernel");
            message
        },
    }
}

pub open spec fn overflow_text(raw: u32, limit: u32) -> Seq<char> {
    numbered("table overflow: "@, raw as int) + " rows, room for "@ + crate::text::decimal(
        limit as int,
    ) + "; the rest are dropped"@
}

/// The log line that says that a counter ran past the room of the tables.
pub fn overflow_line(raw: u32, limit: u32) -> (line: String)
    ensures
        line@ == overflow_text(raw, limit),
{
    let mut line = with_number("table overflow: ", raw as u64);
    line.append(" rows, room for ");
    push_decimal(&mut line, limit as u64);
    line.append("; the rest are dropped");
    line
}

/// Why the solver does not take the parameters.
pub fn unsupported_params_message(e: UnsupportedParams) -> (message: String)
    ensures
        message@ == numbered("GPU solver currently locked to (96, 5); got ("@, e.n as int) + ", "@
            + crate::text::decimal(e.k as int) + ")"@,
{
    let mut message = with_number("GPU solver currently locked to (96, 5); got (", e.n as u64);
    message.append(", ");
    push_decimal(&mut message, e.k as u64);
    message.append(")");
    message
}

/// A part of a coloured text stands in a line that the text stands in, with the
/// end of the colour behind it.
proof fn lemma_painted_end(
    before: Seq<char>,
    colour: Seq<char>,
    start: Seq<char>,
    end: Seq<char>,
    behind: Seq<char>,
)
    ensures
        crate::text::occurs_in(
            end + C_RESET@,
            before + painted(colour, start + end) + behind,
        ),
{
    let all = before + painted(colour, start + end) + behind;
    assert(all =~= (before + colour + start) + (end + C_RESET@) + behind);
    crate::text::occurs_between(before + colour + start, end + C_RESET@, behind);
}

proof fn lemma_painted(
    before: Seq<char>,
    colour: Seq<char>,
    text: Seq<char>,
    behind: Seq<char>,
)
    ensures
        crate::text::occurs_in(text + C_RESET@, before + painted(colour, text) + behind),
{
    lemma_painted_end(before, colour, Seq::empty(), text, behind);
    assert(Seq::<char>::empty() + text =~= text);
}

/// The opening line of a round shows its figures, each after its name: the
/// height, the reward, and the first four bytes of the target.
pub proof fn round_line_shows_its_figures(height: u64, reward: u64, target: Seq<u8>)
    requires
        target.len() == 32,
    ensures
        crate::text::occurs_in(
            "round #"@ + crate::text::decimal(height as int) + C_RESET@,
            round_text(height, reward, target),
        ),
        crate::text::occurs_in(
            "reward "@ + crate::amounts::reward_text(reward as int) + " EQM"@ + C_RESET@,
            round_text(height, reward, target),
        ),
        crate::text::occurs_in(
            "target 0x"@ + hexadecimal(seq![target[0], target[1], target[2], target[3]]) + "…"@
                + C_RESET@,
            round_text(height, reward, target),
        ),
{
    let a = "round #"@ + crate::text::decimal(height as int);
    let b = "reward "@ + crate::amounts::reward_text(reward as int) + " EQM"@;
    assert(target.take(4) =~= seq![target[0], target[1], target[2], target[3]]);
    let c = "target 0x"@ + hexadecimal(target.take(4)) + "…"@;
    let line = round_text(height, reward, target);
    let after_a = "   "@ + painted(C_DIM@, b) + "   "@ + painted(C_DIM@, c);
    let before_b = "   "@ + painted(C_BOLD@, a) + "   "@;
    let after_b = "   "@ + painted(C_DIM@, c);
    let before_c = before_b + painted(C_DIM@, b) + "   "@;
    lemma_painted("   "@, C_BOLD@, a, after_a);
    lemma_painted(before_b, C_DIM@, b, after_b);
    lemma_painted(before_c, C_DIM@, c, Seq::empty());
    assert(line =~= "   "@ + painted(C_BOLD@, a) + after_a);
    assert(line =~= before_b + painted(C_DIM@, b) + after_b);
    assert(line =~= before_c + painted(C_DIM@, c) + Seq::empty());
}

/// The line on a stalled round shows for how many seconds it stalled.
pub proof fn stalled_line_shows_the_seconds(secs: u64)
    ensures
        crate::text::occurs_in(
            "stalled "@ + crate::text::decimal(secs as int) + "s "@,
            stalled_text(secs),
        ),
{
    reveal_strlit("round stalled ");
    reveal_strlit("round ");
    reveal_strlit("stalled ");
    reveal_strlit("s — calling advance_empty_round");
    reveal_strlit("s ");
    reveal_strlit("— calling advance_empty_round");
    assert("round stalled "@ =~= "round "@ + "stalled "@);
    assert("s — calling advance_empty_round"@ =~= "s "@ + "— calling advance_empty_round"@);
    let part = "stalled "@ + crate::text::decimal(secs as int) + "s "@;
    let before = "   "@ + C_GRAY@ + "round "@;
    let behind = "— calling advance_empty_round"@ + C_RESET@;
    assert(stalled_text(secs) =~= before + part + behind);
    crate::text::occurs_between(before, part, behind);
}

/// The line on a try that failed shows its number, what became of it, the
/// milliseconds it took, and the rate.
pub proof fn failed_try_shows_its_figures(
    try_in_round: u32,
    what: Seq<char>,
    ms: u64,
    hashrate: Seq<char>,
)
    ensures
        crate::text::occurs_in(
            "try #"@ + crate::text::decimal(try_in_round as int) + C_RESET@,
            failed_try_text(try_in_round, what, ms, hashrate),
        ),
        crate::text::occurs_in(
            C_DIM@ + what + C_RESET@,
            failed_try_text(try_in_round, what, ms, hashrate),
        ),
        crate::text::occurs_in(
            C_DIM@ + crate::text::decimal(ms as int) + "ms"@ + C_RESET@,
            failed_try_text(try_in_round, what, ms, hashrate),
        ),
        crate::text::occurs_in(
            C_GOLD@ + hashrate + C_RESET@,
            failed_try_text(try_in_round, what, ms, hashrate),
        ),
{
    reveal_strlit("· try #");
    reveal_strlit("· ");
    reveal_strlit("try #");
    assert("· try #"@ =~= "· "@ + "try #"@);
    let number = "try #"@ + crate::text::decimal(try_in_round as int);
    let label = numbered("· try #"@, try_in_round as int);
    assert(label =~= "· "@ + number);
    let line = failed_try_text(try_in_round, what, ms, hashrate);
    let before_what = "     "@ + painted(C_GRAY@, label) + "   "@;
    let after_what = "        "@ + painted(C_DIM@, millis_text(ms)) + "   "@ + painted(
        C_GOLD@,
        hashrate,
    );
    let before_ms = before_what + painted(C_DIM@, what) + "        "@;
    let after_ms = "   "@ + painted(C_GOLD@, hashrate);
    let before_rate = before_ms + painted(C_DIM@, millis_text(ms)) + "   "@;
    let after_label = "   "@ + painted(C_DIM@, what) + after_what;
    lemma_painted_end("     "@, C_GRAY@, "· "@, number, after_label);
    assert(line =~= "     "@ + painted(C_GRAY@, "· "@ + number) + after_label);
    crate::text::occurs_between(before_what, painted(C_DIM@, what), after_what);
    assert(line =~= before_what + painted(C_DIM@, what) + after_what);
    crate::text::occurs_between(before_ms, painted(C_DIM@, millis_text(ms)), after_ms);
    assert(line =~= before_ms + painted(C_DIM@, millis_text(ms)) + after_ms);
    assert(painted(C_DIM@, millis_text(ms)) =~= C_DIM@ + crate::text::decimal(ms as int) + "ms"@
        + C_RESET@);
    crate::text::occurs_between(before_rate, painted(C_GOLD@, hashrate), Seq::empty());
    assert(line =~= before_rate + painted(C_GOLD@, hashrate) + Seq::empty());
}

/// The line on a block shows the reward, the number of the try, the
/// milliseconds it took, and the rate.
pub proof fn mined_line_shows_its_figures(
    reward: u64,
    try_in_round: u32,
    ms: u64,
    hashrate: Seq<char>,
)
    ensures
        crate::text::occurs_in(
            "+"@ + crate::amounts::reward_text(reward as int) + " EQM"@ + C_RESET@,
            mined_text(reward, try_in_round, ms, hashrate),
        ),
        crate::text::occurs_in(
            "try #"@ + crate::text::decimal(try_in_round as int) + C_RESET@,
            mined_text(reward, try_in_round, ms, hashrate),
        ),
        crate::text::occurs_in(
            C_DIM@ + crate::text::decimal(ms as int) + "ms"@ + C_RESET@,
            mined_text(reward, try_in_round, ms, hashrate),
        ),
        crate::text::occurs_in(
            C_GOLD_B@ + hashrate + C_RESET@,
            mined_text(reward, try_in_round, ms, hashrate),
        ),
{
    let amount = "+"@ + crate::amounts::reward_text(reward as int) + " EQM"@;
    let number = "try #"@ + crate::text::decimal(try_in_round as int);
    let line = mined_text(reward, try_in_round, ms, hashrate);
    let before_amount = "     "@ + painted(C_SAGE_B@, "✓ MINED!"@) + "   "@;
    let before_number = before_amount + painted(C_BOLD@, amount) + "     "@;
    let before_ms = before_number + painted(C_DIM@, number) + "   "@;
    let before_rate = before_ms + painted(C_DIM@, millis_text(ms)) + "   "@;
    let after_ms = "   "@ + painted(C_GOLD_B@, hashrate);
    let after_number = "   "@ + painted(C_DIM@, millis_text(ms)) + after_ms;
    let after_amount = "     "@ + painted(C_DIM@, number) + after_number;
    lemma_painted(before_amount, C_BOLD@, amount, after_amount);
    assert(line =~= before_amount + painted(C_BOLD@, amount) + after_amount);
    lemma_painted(before_number, C_DIM@, number, after_number);
    assert(line =~= before_number + painted(C_DIM@, number) + after_number);
    crate::text::occurs_between(before_ms, painted(C_DIM@, millis_text(ms)), after_ms);
    assert(line =~= before_ms + painted(C_DIM@, millis_text(ms)) + after_ms);
    assert(painted(C_DIM@, millis_text(ms)) =~= C_DIM@ + crate::text::decimal(ms as int) + "ms"@
        + C_RESET@);
    crate::text::occurs_between(before_rate, painted(C_GOLD_B@, hashrate), Seq::empty());
    assert(line =~= before_rate + painted(C_GOLD_B@, hashrate) + Seq::empty());
}

/// The line with the totals shows them, each right after its name: what was
/// mined, the blocks, and the uptime.
pub proof fn totals_line_shows_its_figures(reward: u64, blocks: u64, uptime: u64)
    ensures
        crate::text::occurs_in(
            "total mined"@ + C_RESET@ + "  "@ + C_BOLD@ + crate::amounts::reward_text(reward as int)
                + " EQM"@ + C_RESET@,
            totals_text(reward, blocks, uptime),
        ),
        crate::text::occurs_in(
            "blocks"@ + C_RESET@ + "  "@ + C_BOLD@ + crate::text::decimal(blocks as int) + C_RESET@,
            totals_text(reward, blocks, uptime),
        ),
        crate::text::occurs_in(
            "uptime"@ + C_RESET@ + "  "@ + C_BOLD@ + crate::amounts::uptime_text(uptime as int)
                + C_RESET@,
            totals_text(reward, blocks, uptime),
        ),
{
    let dot = painted(C_GRAY@, "·"@);
    let amount = crate::amounts::reward_text(reward as int) + " EQM"@;
    let count = crate::text::decimal(blocks as int);
    let up = crate::amounts::uptime_text(uptime as int);
    let mined = "total mined"@ + C_RESET@ + "  "@ + C_BOLD@ + crate::amounts::reward_text(
        reward as int,
    ) + " EQM"@ + C_RESET@;
    let counted = "blocks"@ + C_RESET@ + "  "@ + C_BOLD@ + count + C_RESET@;
    let s1 = "   "@ + painted(C_DIM@, "total mined"@) + "  "@ + painted(C_BOLD@, amount);
    let s2 = s1 + "   "@ + dot + "   "@;
    let s3 = s2 + painted(C_DIM@, "blocks"@) + "  "@ + painted(C_BOLD@, count);
    let s4 = s3 + "   "@ + dot + "   "@;
    assert(totals_text(reward, blocks, uptime) == s4 + painted(C_DIM@, "uptime"@) + "  "@ + painted(
        C_BOLD@,
        up,
    ));
    lemma_named_figure("   "@, "total mined"@, amount);
    assert("total mined"@ + C_RESET@ + "  "@ + C_BOLD@ + amount + C_RESET@ =~= mined);
    lemma_three_longer(mined, s1, "   "@, dot, "   "@);
    lemma_three_longer(mined, s2, painted(C_DIM@, "blocks"@), "  "@, painted(C_BOLD@, count));
    lemma_named_figure(s2, "blocks"@, count);
    lemma_three_longer(mined, s3, "   "@, dot, "   "@);
    lemma_three_longer(counted, s3, "   "@, dot, "   "@);
    lemma_three_longer(mined, s4, painted(C_DIM@, "uptime"@), "  "@, painted(C_BOLD@, up));
    lemma_three_longer(counted, s4, painted(C_DIM@, "uptime"@), "  "@, painted(C_BOLD@, up));
    lemma_named_figure(s4, "uptime"@, up);
}

proof fn lemma_three_longer(
    pat: Seq<char>,
    s: Seq<char>,
    a: Seq<char>,
    b: Seq<char>,
    c: Seq<char>,
)
    requires
        crate::text::occurs_in(pat, s),
    ensures
        crate::text::occurs_in(pat, s + a + b + c),
{
    crate::text::occurs_in_longer(pat, s, a);
    crate::text::occurs_in_longer(pat, s + a, b);
    crate::text::occurs_in_longer(pat, s + a + b, c);
}

/// A figure stands right after its name.
proof fn lemma_named_figure(before: Seq<char>, name: Seq<char>, figure: Seq<char>)
    ensures
        crate::text::occurs_in(
            name + C_RESET@ + "  "@ + C_BOLD@ + figure + C_RESET@,
            before + painted(C_DIM@, name) + "  "@ + painted(C_BOLD@, figure),
        ),
{
    let part = name + C_RESET@ + "  "@ + C_BOLD@ + figure + C_RESET@;
    assert(before + painted(C_DIM@, name) + "  "@ + painted(C_BOLD@, figure) =~= (before + C_DIM@)
        + part + Seq::empty());
    crate::text::occurs_between(before + C_DIM@, part, Seq::empty());
}

/// The closing line shows the blocks, the latency and the rate.
pub proof fn complete_line_shows_its_figures(
    max_blocks: u64,
    latency: Seq<char>,
    hashrate: Seq<char>,
)
    ensures
        crate::text::occurs_in(
            "  ·  "@ + crate::text::decimal(max_blocks as int) + " blocks  ·  avg latency "@
                + latency + "s  ·  "@ + hashrate,
            complete_text(max_blocks, latency, hashrate),
        ),
{
    let part = "  ·  "@ + crate::text::decimal(max_blocks as int) + " blocks  ·  avg latency "@
        + latency + "s  ·  "@ + hashrate;
    let before = "   "@ + painted(C_ROSE_B@, "session complete"@);
    assert(complete_text(max_blocks, latency, hashrate) =~= before + part + Seq::empty());
    crate::text::occurs_between(before, part, Seq::empty());
}

/// The lines that name a transaction show its shortened signature.
pub proof fn signature_lines_show_the_signature(sig: Seq<char>)
    ensures
        crate::text::occurs_in(
            "sig "@ + crate::labels::sig_label(sig) + C_RESET@,
            signature_text(sig),
        ),
        crate::text::occurs_in(
            "sig "@ + crate::labels::sig_label(sig) + C_RESET@,
            advanced_text(sig),
        ),
{
    let part = "sig "@ + crate::labels::sig_label(sig);
    let before = "     "@ + painted(C_SAGE@, "↳ advanced empty round"@) + "   "@;
    lemma_painted("       "@, C_GRAY@, part, Seq::empty());
    lemma_painted(before, C_GRAY@, part, Seq::empty());
    assert(signature_text(sig) =~= "       "@ + painted(C_GRAY@, part) + Seq::empty());
    assert(advanced_text(sig) =~= before + painted(C_GRAY@, part) + Seq::empty());
}

/// The line on a finding of the self-test shows the number of the nonce, and
/// with solutions of both the candidates of the device and the verdicts on
/// them. It is left out only where there is nothing to tell, or the test fails
/// with a message of its own.
pub proof fn finding_line_shows_its_figures(number: usize, f: Finding)
    ensures
        finding_text(number, f) is None <==> (f is Neither || (f matches Finding::GpuOnly {
            gpu_valid,
            ..
        } && !gpu_valid)),
        finding_text(number, f) matches Some(line) ==> crate::text::occurs_in(
            "nonce #"@ + crate::text::decimal(number as int) + " "@,
            line,
        ),
        finding_text(number, f) matches Some(line) ==> (f matches Finding::Both {
            cpu_valid,
            candidates,
            gpu_valid,
            ..
        } ==> crate::text::occurs_in(
            "cpu "@ + (if cpu_valid {
                "✓"@
            } else {
                "✗"@
            }) + " gpu_candidates="@ + crate::text::decimal(candidates as int) + "  gpu_valid="@ + (
            if gpu_valid {
                "true"@
            } else {
                "false"@
            }),
            line,
        )),
{
    if let Some(line) = finding_text(number, f) {
        let head = nonce_text(number);
        let rest = line.skip(head.len() as int);
        assert(line =~= head + rest);
        lemma_nonce_text(number);
        let (before, behind) = choose|before: Seq<char>, behind: Seq<char>|
            head == #[trigger] (before + ("nonce #"@ + crate::text::decimal(number as int) + " "@)
                + behind);
        let part = "nonce #"@ + crate::text::decimal(number as int) + " "@;
        assert(line =~= before + part + (behind + rest));
        crate::text::occurs_between(before, part, behind + rest);
        if let Finding::Both { cpu_valid, candidates, gpu_valid, .. } = f {
            let verdicts = "cpu "@ + (if cpu_valid {
                "✓"@
            } else {
                "✗"@
            }) + " gpu_candidates="@ + crate::text::decimal(candidates as int) + "  gpu_valid="@ + (
            if gpu_valid {
                "true"@
            } else {
                "false"@
            });
            assert(line =~= head + verdicts + Seq::empty());
            crate::text::occurs_between(head, verdicts, Seq::empty());
        }
    }
}

proof fn lemma_nonce_text(number: usize)
    ensures
        exists|before: Seq<char>, behind: Seq<char>|
            nonce_text(number) == #[trigger] (before + ("nonce #"@ + crate::text::decimal(
                number as int,
            ) + " "@) + behind),
{
    reveal_strlit("   nonce #");
    reveal_strlit("   ");
    reveal_strlit("nonce #");
    reveal_strlit("  ");
    reveal_strlit(" ");
    assert("   nonce #"@ =~= "   "@ + "nonce #"@);
    let shown = crate::text::decimal(number as int);
    let part = "nonce #"@ + shown + " "@;
    let all = nonce_text(number);
    let behind = all.skip(3 + part.len() as int);
    assert(all =~= "   "@ + part + behind);
}

/// What stands for a number that is padded begins with the number, goes on with
/// spaces, and is three characters long, or as long as the number.
pub proof fn padding_is_spaces(s: Seq<char>)
    requires
        s.len() > 0,
    ensures
        padded(s).len() >= 3,
        padded(s).len() > 3 ==> padded(s).len() == s.len(),
        padded(s).take(s.len() as int) == s,
        forall|i: int| s.len() <= i < padded(s).len() ==> #[trigger] padded(s)[i] == ' ',
{
    reveal_strlit("  ");
    reveal_strlit(" ");
    assert(padded(s).take(s.len() as int) =~= s);
}

/// The messages that carry a number show it in full.
pub proof fn messages_show_their_numbers(candidates: usize, raw: u32, limit: u32)
    ensures
        crate::text::occurs_in(
            "found "@ + crate::text::decimal(candidates as int) + " candidate(s)"@,
            oracle_failure_text(OracleFailure::NoneValid { candidates }),
        ),
        crate::text::occurs_in(
            crate::text::decimal(raw as int) + " rows, room for "@ + crate::text::decimal(
                limit as int,
            ) + ";"@,
            overflow_text(raw, limit),
        ),
{
    reveal_strlit("GPU found ");
    reveal_strlit("GPU ");
    reveal_strlit("found ");
    reveal_strlit(" candidate(s) but none are valid Equihash solutions");
    reveal_strlit(" candidate(s)");
    reveal_strlit(" but none are valid Equihash solutions");
    reveal_strlit("; the rest are dropped");
    reveal_strlit(";");
    reveal_strlit(" the rest are dropped");
    assert("GPU found "@ =~= "GPU "@ + "found "@);
    assert(" candidate(s) but none are valid Equihash solutions"@ =~= " candidate(s)"@
        + " but none are valid Equihash solutions"@);
    assert("; the rest are dropped"@ =~= ";"@ + " the rest are dropped"@);
    let found = "found "@ + crate::text::decimal(candidates as int) + " candidate(s)"@;
    let behind = " but none are valid Equihash solutions"@;
    assert(oracle_failure_text(OracleFailure::NoneValid { candidates }) =~= "GPU "@ + found
        + behind);
    crate::text::occurs_between("GPU "@, found, behind);
    let rows = crate::text::decimal(raw as int) + " rows, room for "@ + crate::text::decimal(
        limit as int,
    ) + ";"@;
    assert(overflow_text(raw, limit) =~= "table overflow: "@ + rows + " the rest are dropped"@);
    crate::text::occurs_between("table overflow: "@, rows, " the rest are dropped"@);
}

/// The line on a round that was not advanced shows the reason.
pub proof fn not_advanced_line_shows_the_reason(error: Seq<char>)
    ensures
        crate::text::occurs_in(
            "↳ "@ + crate::labels::advance_reason(error) + C_RESET@,
            not_advanced_text(error),
        ),
{
    let part = "↳ "@ + crate::labels::advance_reason(error);
    lemma_painted("     "@, C_GRAY@, part, Seq::empty());
    assert(not_advanced_text(error) =~= "     "@ + painted(C_GRAY@, part) + Seq::empty());
}

/// The lines under the logo show who mines, for which program, on which
/// network and with which device, each after its name.
pub proof fn boot_lines_show_their_fields(
    miner: Seq<u8>,
    program: Seq<u8>,
    network: Seq<char>,
    gpu: Seq<char>,
)
    ensures
        ({
            let lines = boot_texts(miner, program, network, gpu);
            &&& lines.len() == 8
            &&& lines[3] == "   "@ + C_DIM@ + "miner"@ + C_RESET@ + "     "@ + C_TEAL@
                + crate::labels::key_label(miner) + C_RESET@
            &&& lines[4] == "   "@ + C_DIM@ + "program"@ + C_RESET@ + "   "@ + C_TEAL@
                + crate::labels::key_label(program) + C_RESET@
            &&& lines[5] == "   "@ + C_DIM@ + "network"@ + C_RESET@ + "   "@ + C_TEAL@ + network
                + C_RESET@
            &&& lines[6] == "   "@ + C_DIM@ + "gpu"@ + C_RESET@ + "       "@ + C_TEAL@ + gpu
                + C_RESET@
        }),
{
    lemma_field("miner"@, "     "@, crate::labels::key_label(miner));
    lemma_field("program"@, "   "@, crate::labels::key_label(program));
    lemma_field("network"@, "   "@, network);
    lemma_field("gpu"@, "       "@, gpu);
}

proof fn lemma_field(name: Seq<char>, gap: Seq<char>, value: Seq<char>)
    ensures
        field_text(name, gap, value) == "   "@ + C_DIM@ + name + C_RESET@ + gap + C_TEAL@ + value
            + C_RESET@,
{
    assert(field_text(name, gap, value) =~= "   "@ + C_DIM@ + name + C_RESET@ + gap + C_TEAL@
        + value + C_RESET@);
}

} // verus!
