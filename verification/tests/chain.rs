//! Keys, program accounts and transactions.

use equium_cuda_miner::keys::{
    derive_ata, derive_program_account, resolve_program_id, try_derive_ata, KeyTextError,
};
use equium_cuda_miner::labels::short_pk;
use equium_cuda_miner::submission::{
    advance_accounts, mine_accounts, plan_advance, plan_mine, AccountRef,
};

/// `TokenkegQfeZyiNwAJbNbGKPFXCWuBvf9Ss623VQ5DA`.
const TOKEN_PROGRAM: [u8; 32] = [
    6, 221, 246, 225, 215, 101, 161, 147, 217, 203, 225, 70, 206, 235, 121, 172, 28, 180, 133, 237,
    95, 91, 55, 145, 58, 140, 245, 133, 126, 255, 0, 169,
];

#[test]
fn the_default_program_is_used() {
    assert_eq!(resolve_program_id(None, &[3u8; 32]), Ok([3u8; 32]));
}

#[test]
fn a_program_can_be_named() {
    assert_eq!(
        resolve_program_id(Some("TokenkegQfeZyiNwAJbNbGKPFXCWuBvf9Ss623VQ5DA"), &[3u8; 32]),
        Ok(TOKEN_PROGRAM)
    );
    assert_eq!(
        resolve_program_id(Some("11111111111111111111111111111111"), &[3u8; 32]),
        Ok([0u8; 32])
    );
}

#[test]
fn a_text_of_the_wrong_size_is_no_program() {
    assert_eq!(resolve_program_id(Some(""), &[3u8; 32]), Err(KeyTextError::WrongSize));
    assert_eq!(resolve_program_id(Some("abc"), &[3u8; 32]), Err(KeyTextError::WrongSize));
    assert_eq!(
        resolve_program_id(Some("1111111111111111111111111111111"), &[3u8; 32]),
        Err(KeyTextError::WrongSize)
    );
    // Too long to be looked at.
    assert_eq!(
        resolve_program_id(
            Some("000000000000000000000000000000000000000000000"),
            &[3u8; 32]
        ),
        Err(KeyTextError::WrongSize)
    );
}

#[test]
fn a_text_outside_the_alphabet_is_no_program() {
    assert_eq!(resolve_program_id(Some("0OIl"), &[3u8; 32]), Err(KeyTextError::Invalid));
    assert_eq!(resolve_program_id(Some("é"), &[3u8; 32]), Err(KeyTextError::Invalid));
}

#[test]
fn keys_are_shortened() {
    assert_eq!(short_pk(&[7u8; 32]), "US51…ELFx");
    assert_eq!(short_pk(&[0u8; 32]), "1111…1111");
    assert_eq!(short_pk(&TOKEN_PROGRAM), "Toke…Q5DA");
}

#[test]
fn keys_are_told_apart_by_their_texts() {
    let mut other = [7u8; 32];
    other[31] = 8;
    assert_ne!(short_pk(&[7u8; 32]), short_pk(&other));
}

#[test]
fn program_accounts_are_derived() {
    assert_eq!(
        derive_program_account(b"config", &[9u8; 32]),
        Some([
            117, 120, 52, 18, 72, 167, 75, 152, 204, 51, 100, 236, 220, 218, 55, 83, 180, 93, 48,
            60, 108, 1, 90, 201, 103, 148, 243, 19, 43, 22, 183, 236
        ])
    );
    assert_ne!(
        derive_program_account(b"config", &[9u8; 32]),
        derive_program_account(b"vault", &[9u8; 32])
    );
}

#[test]
fn a_seed_can_be_too_long() {
    assert_eq!(derive_program_account(&[1u8; 33], &[9u8; 32]), None);
}

#[test]
fn token_accounts_are_derived() {
    let expected = [
        176, 99, 127, 233, 131, 55, 212, 154, 113, 76, 127, 21, 154, 224, 163, 171, 181, 82, 90,
        105, 151, 7, 247, 203, 116, 68, 185, 82, 224, 246, 133, 60,
    ];
    assert_eq!(try_derive_ata(&[1u8; 32], &[2u8; 32], &TOKEN_PROGRAM), Some(expected));
    assert_eq!(derive_ata(&[1u8; 32], &[2u8; 32], &TOKEN_PROGRAM), expected);
    assert_ne!(try_derive_ata(&[2u8; 32], &[1u8; 32], &TOKEN_PROGRAM), Some(expected));
}

const SLOT_HASHES: [u8; 32] = [
    6, 167, 213, 23, 25, 47, 10, 175, 198, 242, 101, 227, 251, 119, 204, 122, 218, 130, 197, 41,
    208, 190, 59, 19, 110, 45, 0, 85, 32, 0, 0, 0,
];

#[test]
fn a_mine_instruction_gets_its_accounts() {
    let accounts = mine_accounts(
        &[1u8; 32],
        &[2u8; 32],
        &[3u8; 32],
        &[4u8; 32],
        &[5u8; 32],
        &TOKEN_PROGRAM,
    );
    assert_eq!(accounts.miner, [1u8; 32]);
    assert_eq!(accounts.config, [2u8; 32]);
    assert_eq!(accounts.mint, [3u8; 32]);
    assert_eq!(accounts.mineable_vault, [4u8; 32]);
    assert_eq!(accounts.miner_ata, [5u8; 32]);
    assert_eq!(accounts.token_program, TOKEN_PROGRAM);
    assert_eq!(short_pk(&accounts.associated_token_program), "ATok…8knL");
    assert_eq!(accounts.system_program, [0u8; 32]);
    assert_eq!(accounts.slot_hashes, SLOT_HASHES);
}

#[test]
fn an_advance_instruction_gets_its_accounts() {
    let accounts = advance_accounts(&[1u8; 32], &[2u8; 32]);
    assert_eq!(accounts.caller, [1u8; 32]);
    assert_eq!(accounts.config, [2u8; 32]);
    assert_eq!(accounts.slot_hashes, SLOT_HASHES);
}

#[test]
fn the_unit_limit_comes_before_the_solution() {
    let account = AccountRef { pubkey: [8u8; 32], is_signer: true, is_writable: false };
    let plan = plan_mine(&[1u8; 32], &[6u8; 32], vec![account], vec![9, 9], 1_400_000);
    assert_eq!(plan.payer, [1u8; 32]);
    assert_eq!(plan.instructions.len(), 2);
    let limit = &plan.instructions[0];
    assert_eq!(short_pk(&limit.program_id), "Comp…1111");
    assert_eq!(limit.program_id[28], 0x40);
    assert!(limit.accounts.is_empty());
    assert_eq!(limit.data, vec![2, 0xc0, 0x5c, 0x15, 0x00]);
    let mine = &plan.instructions[1];
    assert_eq!(mine.program_id, [6u8; 32]);
    assert_eq!(mine.accounts, vec![account]);
    assert_eq!(mine.data, vec![9, 9]);
}

#[test]
fn unit_limits_read_back() {
    for units in [0u32, 1, 255, 256, 0x0102_0304, u32::MAX] {
        let plan = plan_mine(&[1u8; 32], &[6u8; 32], Vec::new(), Vec::new(), units);
        let data = &plan.instructions[0].data;
        assert_eq!(u32::from_le_bytes([data[1], data[2], data[3], data[4]]), units);
    }
}

#[test]
fn an_advance_has_one_instruction() {
    let account = AccountRef { pubkey: [8u8; 32], is_signer: false, is_writable: true };
    let plan = plan_advance(&[1u8; 32], &[6u8; 32], vec![account], vec![4]);
    assert_eq!(plan.payer, [1u8; 32]);
    assert_eq!(plan.instructions.len(), 1);
    assert_eq!(plan.instructions[0].program_id, [6u8; 32]);
    assert_eq!(plan.instructions[0].accounts, vec![account]);
    assert_eq!(plan.instructions[0].data, vec![4]);
}
