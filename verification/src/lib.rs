//! The decisions of a CUDA miner for the Equium token, which is mined with
//! Equihash (96, 5) on Solana.
//!
//! The library decides and computes; a program around it talks to the device
//! and to the chain.
//!
//! - [`seed`], [`gpu`] and [`wire`]: one nonce on the device, from the state
//!   that the leaves are hashed from to the bytes of a solution.
//! - [`draws`], [`validity`], [`search`] and [`oracle`]: random nonces, which
//!   solutions to trust, the search of one round, and the self-test of a device.
//! - [`keys`] and [`submission`]: accounts, and the transactions to send.
//! - [`session`]: what to do next, and what was mined so far.
//! - [`text`], [`labels`], [`amounts`] and [`report`]: what is printed.

pub mod amounts;
pub mod draws;
pub mod gpu;
pub mod keys;
pub mod labels;
pub mod oracle;
pub mod report;
pub mod search;
pub mod seed;
pub mod session;
pub mod submission;
pub mod text;
pub mod validity;
pub mod wire;
