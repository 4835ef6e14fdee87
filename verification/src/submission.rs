//! The transactions that a miner sends, as far as they can be told before they
//! are signed.

use vstd::prelude::*;

use crate::keys::{associated_token_program_id, slot_hashes_id, system_program_id};

verus! {

/// An account that an instruction works on.
#[derive(Clone, Copy, Debug, PartialEq, Eq)]
pub struct AccountRef {
    pub pubkey: [u8; 32],
    pub is_signer: bool,
    pub is_writable: bool,
}

/// An instruction of a transaction.
#[derive(Debug, PartialEq, Eq)]
pub struct InstructionPlan {
    pub program_id: [u8; 32],
    pub accounts: Vec<AccountRef>,
    pub data: Vec<u8>,
}

/// A transaction to sign: its instructions, and who pays for it and signs it.
#[derive(Debug, PartialEq, Eq)]
pub struct TransactionPlan {
    pub instructions: Vec<InstructionPlan>,
    pub payer: [u8; 32],
}

/// The accounts that the program's `mine` instruction is given.
#[derive(Clone, Copy, Debug, PartialEq, Eq)]
pub struct MineAccounts {
    pub miner: [u8; 32],
    pub config: [u8; 32],
    pub mint: [u8; 32],
    pub mineable_vault: [u8; 32],
    pub miner_ata: [u8; 32],
    pub token_program: [u8; 32],
    pub associated_token_program: [u8; 32],
    pub system_program: [u8; 32],
    pub slot_hashes: [u8; 32],
}

/// The accounts that the program's `advance_empty_round` instruction is given.
#[derive(Clone, Copy, Debug, PartialEq, Eq)]
pub struct AdvanceAccounts {
    pub caller: [u8; 32],
    pub config: [u8; 32],
    pub slot_hashes: [u8; 32],
}

/// The accounts of a `mine` instruction: those of the round and of the miner,
/// and three that are the same on every chain.
pub fn mine_accounts(
    miner: &[u8; 32],
    config: &[u8; 32],
    mint: &[u8; 32],
    mineable_vault: &[u8; 32],
    miner_ata: &[u8; 32],
    token_program: &[u8; 32],
) -> (accounts: MineAccounts)
    ensures
        accounts.miner@ == miner@,
        accounts.config@ == config@,
        accounts.mint@ == mint@,
        accounts.mineable_vault@ == mineable_vault@,
        accounts.miner_ata@ == miner_ata@,
        accounts.token_program@ == token_program@,
        accounts.associated_token_program@ == crate::keys::associated_token_program(),
        accounts.system_program@ == crate::keys::system_program(),
        accounts.slot_hashes@ == crate::keys::slot_hashes(),
{
    MineAccounts {
        miner: *miner,
        config: *config,
        mint: *mint,
        mineable_vault: *mineable_vault,
        miner_ata: *miner_ata,
        token_program: *token_program,
        associated_token_program: associated_token_program_id(),
        system_program: system_program_id(),
        slot_hashes: slot_hashes_id(),
    }
}

/// The accounts of an `advance_empty_round` instruction.
pub fn advance_accounts(caller: &[u8; 32], config: &[u8; 32]) -> (accounts: AdvanceAccounts)
    ensures
        accounts.caller@ == caller@,
        accounts.config@ == config@,
        accounts.slot_hashes@ == crate::keys::slot_hashes(),
{
    AdvanceAccounts { caller: *caller, config: *config, slot_hashes: slot_hashes_id() }
}

/// `ComputeBudget111111111111111111111111111111`, the compute budget program.
pub open spec fn compute_budget_program() -> Seq<u8> {
    seq![
        0x03u8, 0x06, 0x46, 0x6f, 0xe5, 0x21, 0x17, 0x32, 0xff, 0xec, 0xad, 0xba, 0x72, 0xc3, 0x9b, 0xe7,
        0xbc, 0x8c, 0xe5, 0xbb, 0xc5, 0xf7, 0x12, 0x6b, 0x2c, 0x43, 0x9b, 0x3a, 0x40, 0x00, 0x00, 0x00,
    ]
}

/// The instruction data that limits a transaction to `units` compute units:
/// the number of the instruction, and the units in little-endian order.
pub open spec fn unit_limit_data(units: u32) -> Seq<u8> {
    seq![
        2u8,
        crate::seed::le_byte(units as int, 0) as u8,
        crate::seed::le_byte(units as int, 1) as u8,
        crate::seed::le_byte(units as int, 2) as u8,
        crate::seed::le_byte(units as int, 3) as u8,
    ]
}

/// The instruction that limits a transaction to `units` compute units.
pub open spec fn is_unit_limit(ix: InstructionPlan, units: u32) -> bool {
    &&& ix.program_id@ == compute_budget_program()
    &&& ix.accounts@.len() == 0
    &&& ix.data@ == unit_limit_data(units)
}

/// Calls `solana_sdk::compute_budget::ComputeBudgetInstruction::set_compute_unit_limit`.
/// The instruction is one of the compute budget program, names no account, and
/// has the variant's number and the limit as its data.
#[verifier::external_body]
pub(crate) fn unit_limit_instruction(units: u32) -> (ix: InstructionPlan)
    ensures
        is_unit_limit(ix, units),
{
    let ix = solana_sdk::compute_budget::ComputeBudgetInstruction::set_compute_unit_limit(units);
    let accounts = ix.accounts.iter().map(|m| AccountRef {
        pubkey: m.pubkey.to_bytes(),
        is_signer: m.is_signer,
        is_writable: m.is_writable,
    }).collect();
    InstructionPlan { program_id: ix.program_id.to_bytes(), accounts, data: ix.data }
}

/// The transaction that submits a solution: the compute-unit limit first, then
/// the `mine` instruction with these accounts and data. The miner pays.
pub fn plan_mine(
    miner: &[u8; 32],
    program_id: &[u8; 32],
    accounts: Vec<AccountRef>,
    data: Vec<u8>,
    cu_limit: u32,
) -> (plan: TransactionPlan)
    ensures
        plan.payer@ == miner@,
        plan.instructions@.len() == 2,
        is_unit_limit(plan.instructions@[0], cu_limit),
        plan.instructions@[1].program_id@ == program_id@,
        plan.instructions@[1].accounts@ == accounts@,
        plan.instructions@[1].data@ == data@,
{
    let mut instructions: Vec<InstructionPlan> = Vec::new();
    instructions.push(unit_limit_instruction(cu_limit));
    instructions.push(InstructionPlan { program_id: *program_id, accounts, data });
    TransactionPlan { instructions, payer: *miner }
}

/// The transaction that advances an empty round: the one instruction with
/// these accounts and data. The caller pays.
pub fn plan_advance(
    caller: &[u8; 32],
    program_id: &[u8; 32],
    accounts: Vec<AccountRef>,
    data: Vec<u8>,
) -> (plan: TransactionPlan)
    ensures
        plan.payer@ == caller@,
        plan.instructions@.len() == 1,
        plan.instructions@[0].program_id@ == program_id@,
        plan.instructions@[0].accounts@ == accounts@,
        plan.instructions@[0].data@ == data@,
{
    let mut instructions: Vec<InstructionPlan> = Vec::new();
    instructions.push(InstructionPlan { program_id: *program_id, accounts, data });
    TransactionPlan { instructions, payer: *caller }
}

/// A compute-unit limit reads back from its instruction data, so that limits
/// are told apart by it.
pub proof fn unit_limit_reads_back(units: u32)
    ensures
        unit_limit_data(units).len() == 5,
        unit_limit_data(units)[0] == 2,
        unit_limit_data(units)[1] + 0x100 * unit_limit_data(units)[2] + 0x1_0000 * unit_limit_data(
            units,
        )[3] + 0x100_0000 * unit_limit_data(units)[4] == units,
{
    reveal(crate::seed::le_byte);
}

} // verus!
