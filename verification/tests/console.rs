//! What is printed.

use equium_cuda_miner::amounts::{fmt_uptime, format_reward};
use equium_cuda_miner::gpu::UnsupportedParams;
use equium_cuda_miner::labels::{
    classify_advance_err, classify_submit_err, network_label_from_url, short_sig,
};
use equium_cuda_miner::oracle::{Finding, OracleFailure};
use equium_cuda_miner::report::{
    advanced_line, boot_lines, complete_line, exhausted_line, finding_line, in_colour, mined_line,
    not_advanced_line, oracle_failure_message, oracle_passed_line, overflow_line, refused_line,
    round_line, rule_line, signature_line, stalled_line, totals_line, unsupported_params_message,
    C_GRAY, LOGO, RULE,
};
use equium_cuda_miner::text::{contains, decimal_text, push_digits};

#[test]
fn texts_are_searched() {
    assert!(contains("", ""));
    assert!(contains("abc", ""));
    assert!(!contains("", "a"));
    assert!(contains("aab", "ab"));
    assert!(contains("ab", "ab"));
    assert!(!contains("ab", "abc"));
    assert!(contains("grün", "ün"));
}

#[test]
fn numbers_are_written() {
    assert_eq!(decimal_text(0), "0");
    assert_eq!(decimal_text(1090), "1090");
    assert_eq!(decimal_text(u64::MAX), "18446744073709551615");
    let mut s = String::from("x");
    push_digits(&mut s, 1234, 2);
    push_digits(&mut s, 5, 3);
    assert_eq!(s, "x34005");
}

#[test]
fn networks_are_told_from_the_url() {
    assert_eq!(
        network_label_from_url("https://api.mainnet-beta.solana.com"),
        "solana mainnet"
    );
    assert_eq!(network_label_from_url("https://api.devnet.solana.com"), "solana devnet");
    assert_eq!(network_label_from_url("https://api.testnet.solana.com"), "solana testnet");
    assert_eq!(network_label_from_url("http://127.0.0.1:8899"), "solana localnet");
    assert_eq!(network_label_from_url("http://localhost:8899"), "solana localnet");
    assert_eq!(network_label_from_url("https://example.org"), "solana custom");
    // The first in the order of the networks counts.
    assert_eq!(network_label_from_url("http://localhost/devnet/mainnet"), "solana mainnet");
}

#[test]
fn refusals_are_classified() {
    assert_eq!(classify_submit_err("custom program error: 0x1773"), "above target");
    assert_eq!(classify_submit_err("Error: AboveTarget."), "above target");
    assert_eq!(classify_submit_err("custom program error: 0x1772"), "stale challenge");
    assert_eq!(classify_submit_err("InvalidEquihash"), "stale challenge");
    assert_eq!(classify_submit_err("blockhash not found"), "blockhash expired");
    assert_eq!(classify_submit_err("BlockhashNotFound"), "blockhash expired");
    assert_eq!(classify_submit_err("timeout"), "submit error");
    assert_eq!(classify_submit_err("InvalidEquihash AboveTarget"), "above target");
}

#[test]
fn failed_advances_are_classified() {
    assert_eq!(classify_advance_err("x RoundStillActive y"), "another miner beat us to it");
    assert_eq!(classify_advance_err("timeout"), "couldn't advance");
}

#[test]
fn signatures_are_shortened() {
    assert_eq!(short_sig(""), "");
    assert_eq!(short_sig("123456789012"), "123456789012");
    assert_eq!(short_sig("1234567890123"), "123456…890123");
    // Bytes count, not characters.
    assert_eq!(short_sig("ééééééé"), "ééé…ééé");
    assert_eq!(short_sig("éééééé"), "éééééé");
}

#[test]
fn shortening_twice_changes_nothing() {
    let once = short_sig("12345678901234567890");
    assert_eq!(once, "123456…567890");
    assert_eq!(short_sig(&once), once);
}

#[test]
fn amounts_are_written_exactly() {
    assert_eq!(format_reward(0), "0");
    assert_eq!(format_reward(1), "0.000001");
    assert_eq!(format_reward(10), "0.00001");
    assert_eq!(format_reward(100_000), "0.1");
    assert_eq!(format_reward(1_000_000), "1");
    assert_eq!(format_reward(25_000_000), "25");
    assert_eq!(format_reward(100_000_000), "100");
    assert_eq!(format_reward(12_500_000), "12.5");
    assert_eq!(format_reward(1_234_567), "1.234567");
    assert_eq!(format_reward(u64::MAX), "18446744073709.551615");
}

#[test]
fn durations_are_written_exactly() {
    assert_eq!(fmt_uptime(0), "0:00");
    assert_eq!(fmt_uptime(61), "1:01");
    assert_eq!(fmt_uptime(3599), "59:59");
    assert_eq!(fmt_uptime(3600), "1:00:00");
    assert_eq!(fmt_uptime(36_610), "10:10:10");
}

#[test]
fn a_round_is_announced() {
    let mut target = [0u8; 32];
    target[0] = 0x00;
    target[1] = 0x0f;
    target[2] = 0xa9;
    target[3] = 0xff;
    target[4] = 0x77;
    assert_eq!(
        round_line(42, 12_500_000, &target),
        "   \x1b[1mround #42\x1b[0m   \x1b[2mreward 12.5 EQM\x1b[0m   \x1b[2mtarget 0x000fa9ff…\x1b[0m"
    );
    assert_eq!(rule_line(), format!("\x1b[90m{}\x1b[0m", RULE));
}

#[test]
fn a_stalled_round_is_announced() {
    assert_eq!(
        stalled_line(76),
        "   \x1b[90mround stalled 76s — calling advance_empty_round\x1b[0m"
    );
    assert_eq!(
        advanced_line("1234567890123"),
        "     \x1b[32m↳ advanced empty round\x1b[0m   \x1b[90msig 123456…890123\x1b[0m"
    );
    assert_eq!(
        not_advanced_line("RoundStillActive"),
        "     \x1b[90m↳ another miner beat us to it\x1b[0m"
    );
    assert_eq!(not_advanced_line(""), "     \x1b[90m↳ couldn't advance\x1b[0m");
}

#[test]
fn a_failed_try_is_announced() {
    assert_eq!(
        exhausted_line(3, 120, "5.0 H/s"),
        "     \x1b[90m· try #3\x1b[0m   \x1b[2mexhausted\x1b[0m        \x1b[2m120ms\x1b[0m   \x1b[33m5.0 H/s\x1b[0m"
    );
    assert_eq!(
        refused_line(3, "AboveTarget", 120, "5.0 H/s"),
        "     \x1b[90m· try #3\x1b[0m   \x1b[2mabove target\x1b[0m        \x1b[2m120ms\x1b[0m   \x1b[33m5.0 H/s\x1b[0m"
    );
}

#[test]
fn a_block_is_announced() {
    assert_eq!(
        mined_line(25_000_000, 2, 80, "1.2 kH/s"),
        "     \x1b[1;32m✓ MINED!\x1b[0m   \x1b[1m+25 EQM\x1b[0m     \x1b[2mtry #2\x1b[0m   \x1b[2m80ms\x1b[0m   \x1b[1;33m1.2 kH/s\x1b[0m"
    );
    assert_eq!(signature_line("abc"), "       \x1b[90msig abc\x1b[0m");
    assert_eq!(
        totals_line(50_500_000, 2, 61),
        "   \x1b[2mtotal mined\x1b[0m  \x1b[1m50.5 EQM\x1b[0m   \x1b[90m·\x1b[0m   \x1b[2mblocks\x1b[0m  \x1b[1m2\x1b[0m   \x1b[90m·\x1b[0m   \x1b[2muptime\x1b[0m  \x1b[1m1:01\x1b[0m"
    );
    assert_eq!(
        complete_line(2, "30.5", "1.2 kH/s"),
        "   \x1b[1;35msession complete\x1b[0m  ·  2 blocks  ·  avg latency 30.5s  ·  1.2 kH/s"
    );
}

#[test]
fn the_miner_introduces_itself() {
    let lines = boot_lines(&[7u8; 32], &[0u8; 32], "solana devnet", "GPU 0");
    assert_eq!(lines.len(), 8);
    assert_eq!(
        lines[0],
        "   \x1b[2mgpu-mineable on solana\x1b[0m                            \x1b[1;33m$EQM ⛏\x1b[0m"
    );
    assert_eq!(lines[1], "");
    assert_eq!(lines[2], rule_line());
    assert_eq!(lines[3], "   \x1b[2mminer\x1b[0m     \x1b[36mUS51…ELFx\x1b[0m");
    assert_eq!(lines[4], "   \x1b[2mprogram\x1b[0m   \x1b[36m1111…1111\x1b[0m");
    assert_eq!(lines[5], "   \x1b[2mnetwork\x1b[0m   \x1b[36msolana devnet\x1b[0m");
    assert_eq!(lines[6], "   \x1b[2mgpu\x1b[0m       \x1b[36mGPU 0\x1b[0m");
    assert_eq!(lines[7], rule_line());
    assert_eq!(in_colour(C_GRAY, "x"), "\x1b[90mx\x1b[0m");
    assert!(contains(LOGO, "███"));
}

#[test]
fn findings_are_announced() {
    assert_eq!(finding_line(1, Finding::Neither), None);
    assert_eq!(
        finding_line(1, Finding::GpuOnly { candidates: 1, gpu_valid: false }),
        None
    );
    assert_eq!(
        finding_line(7, Finding::CpuOnly),
        Some(String::from("   nonce #7    cpu found, gpu didn't (acceptable if rare)"))
    );
    assert_eq!(
        finding_line(42, Finding::GpuOnly { candidates: 1, gpu_valid: true }),
        Some(String::from(
            "   nonce #42   gpu found valid solution; cpu didn't (kernel may be finding more)"
        ))
    );
    assert_eq!(
        finding_line(
            256,
            Finding::Both { cpu_valid: true, candidates: 2, gpu_valid: false, agree: true }
        ),
        Some(String::from("   nonce #256  cpu ✓ gpu_candidates=2  gpu_valid=false"))
    );
    assert_eq!(
        finding_line(
            1000,
            Finding::Both { cpu_valid: false, candidates: 1, gpu_valid: true, agree: false }
        ),
        Some(String::from("   nonce #1000  cpu ✗ gpu_candidates=1  gpu_valid=true"))
    );
}

#[test]
fn the_self_test_reports_its_end() {
    assert_eq!(
        oracle_passed_line(),
        "   \x1b[1;32moracle check passed\x1b[0m — kernel produces valid Equihash solutions"
    );
    assert_eq!(
        oracle_failure_message(OracleFailure::InvalidCandidate),
        "GPU produced a candidate that failed is_valid_solution; kernel is buggy"
    );
    assert_eq!(
        oracle_failure_message(OracleFailure::NoneValid { candidates: 3 }),
        "GPU found 3 candidate(s) but none are valid Equihash solutions"
    );
    assert_eq!(
        oracle_failure_message(OracleFailure::Exhausted),
        "no solutions found across 256 nonces — increase the budget or check kernel"
    );
}

#[test]
fn an_overflow_is_logged() {
    assert_eq!(
        overflow_line(300_000, 262_144),
        "table overflow: 300000 rows, room for 262144; the rest are dropped"
    );
}

#[test]
fn other_parameters_are_named() {
    assert_eq!(
        unsupported_params_message(UnsupportedParams { n: 200, k: 9 }),
        "GPU solver currently locked to (96, 5); got (200, 9)"
    );
}
