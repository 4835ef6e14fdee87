//! The host side of the GPU solver for Equihash (96, 5).
//!
//! One nonce is solved by a fixed programme of device commands: seed the
//! leaves, run five Wagner rounds that ping-pong between two tables, filter
//! the last table, and read the solutions back. Which command comes next
//! depends on the row counts read from the device. [`SolveScript`] makes those
//! decisions; the caller carries the commands out and hands the counts back.

use vstd::prelude::*;

use crate::seed::{blake2b_init_h, build_prefix};

verus! {

/// Bytes reserved for the hash of a row.
pub const MAX_HASH_BYTES: usize = 12;

/// Indices of a full solution, and so the indices reserved for a row.
pub const MAX_INDICES: usize = 32;

/// Buckets that the rows of a round are sorted into.
pub const NUM_BUCKETS: usize = 65536;

/// Slots of a bucket.
pub const MAX_BUCKET: usize = 16;

/// Leaves generated for a nonce: `2^(cbits + 1)`, with `cbits` 16 for (96, 5).
pub const N_INIT: u32 = 131072;

/// Rows a table has room for: twice the leaves, since a round may yield more
/// rows than it was given. Overflow truncates and is logged; only candidate
/// solutions are lost by it.
pub const MAX_ROWS: u32 = N_INIT * 2;

/// Solutions read back for a nonce at most.
pub const MAX_SOLUTIONS: u32 = 64;

/// Wagner rounds of (96, 5).
pub const ROUNDS: usize = 5;

/// Lengths, in elements, of the device buffers that depend on the tunables.
#[derive(Clone, Copy, Debug, PartialEq, Eq)]
pub struct BufferLens {
    /// Hash bytes of one table.
    pub hashes: usize,
    /// Indices of one table.
    pub indices: usize,
    /// Occupancy counters of the buckets.
    pub bucket_counts: usize,
    /// Slots of all the buckets.
    pub bucket_slots: usize,
    /// Indices of the solutions.
    pub solutions: usize,
}

/// The buffers to allocate on a device.
pub fn buffer_lens() -> (lens: BufferLens)
    ensures
        lens.hashes == MAX_ROWS * MAX_HASH_BYTES,
        lens.indices == MAX_ROWS * MAX_INDICES,
        lens.bucket_counts == NUM_BUCKETS,
        lens.bucket_slots == NUM_BUCKETS * MAX_BUCKET,
        lens.solutions == MAX_SOLUTIONS * MAX_INDICES,
{
    BufferLens {
        hashes: (MAX_ROWS as usize) * MAX_HASH_BYTES,
        indices: (MAX_ROWS as usize) * MAX_INDICES,
        bucket_counts: NUM_BUCKETS,
        bucket_slots: NUM_BUCKETS * MAX_BUCKET,
        solutions: (MAX_SOLUTIONS as usize) * MAX_INDICES,
    }
}

/// Shape of a kernel launch.
#[derive(Clone, Copy, Debug, PartialEq, Eq)]
pub struct LaunchShape {
    pub grid_dim: (u32, u32, u32),
    pub block_dim: (u32, u32, u32),
    pub shared_mem_bytes: u32,
}

/// The one-dimensional shape with the fewest blocks of `block` threads, but at
/// least one, that has `total_threads` threads.
pub open spec fn shape_1d(total_threads: u32, block: u32) -> LaunchShape {
    let needed = (total_threads + block - 1) / (block as int);
    LaunchShape {
        grid_dim: (if needed < 1 { 1u32 } else { needed as u32 }, 1, 1),
        block_dim: (block, 1, 1),
        shared_mem_bytes: 0,
    }
}

/// The launch shape for `total_threads` threads in blocks of `block`.
pub fn launch_cfg_1d(total_threads: u32, block: u32) -> (shape: LaunchShape)
    requires
        block > 0,
        total_threads + block <= u32::MAX,
    ensures
        shape == shape_1d(total_threads, block),
{
    let grid: u32 = (total_threads + block - 1) / block;
    LaunchShape {
        grid_dim: (if grid < 1 { 1u32 } else { grid }, 1, 1),
        block_dim: (block, 1, 1),
        shared_mem_bytes: 0,
    }
}

/// A launch has a thread for every item, and its last block is needed.
pub proof fn launch_covers_threads(total_threads: u32, block: u32)
    requires
        block > 0,
        total_threads + block <= u32::MAX,
    ensures
        shape_1d(total_threads, block).grid_dim.0 * block >= total_threads,
        shape_1d(total_threads, block).grid_dim.0 >= 1,
        total_threads > 0 ==> (shape_1d(total_threads, block).grid_dim.0 - 1) * block
            < total_threads,
        total_threads == 0 ==> shape_1d(total_threads, block).grid_dim.0 == 1,
        shape_1d(total_threads, block).grid_dim.1 == 1,
        shape_1d(total_threads, block).grid_dim.2 == 1,
        shape_1d(total_threads, block).block_dim == (block, 1u32, 1u32),
        shape_1d(total_threads, block).shared_mem_bytes == 0,
{
    let t = total_threads as int;
    let b = block as int;
    let needed = (t + b - 1) / b;
    assert(needed * b <= t + b - 1 < needed * b + b) by (nonlinear_arith)
        requires
            b > 0,
            needed == (t + b - 1) / b,
    ;
    assert(0 <= needed <= t + b - 1) by (nonlinear_arith)
        requires
            b > 0,
            t >= 0,
            needed == (t + b - 1) / b,
    ;
    assert((needed - 1) * b == needed * b - b) by (nonlinear_arith);
    if needed < 1 {
        assert(needed * b == 0) by (nonlinear_arith)
            requires
                needed == 0,
        ;
    }
}

/// One of the two tables that the rounds ping-pong between.
#[derive(Clone, Copy, Debug, PartialEq, Eq, Structural)]
pub enum Slot {
    A,
    B,
}

/// What the host asks of the device.
#[derive(Clone, Copy, Debug, PartialEq, Eq)]
pub enum Command {
    /// Store the BLAKE2b starting state.
    UploadInitState([u64; 8]),
    /// Store the message prefix of the nonce.
    UploadPrefix([u8; 113]),
    /// Set the solution counter to zero.
    ZeroSolutionCount,
    /// Run `blake2b_leaves`, which fills table A.
    GenerateLeaves { shape: LaunchShape, leaves: u32 },
    /// Read the row counter of a table.
    ReadRowCount(Slot),
    /// Set the row counter of a table to zero.
    ZeroRowCount(Slot),
    /// Run `clear_buckets`.
    ClearBuckets { shape: LaunchShape },
    /// Run `fill_buckets` on the rows of a table.
    FillBuckets { shape: LaunchShape, from: Slot, rows: u32, hash_bytes: u32 },
    /// Run `collide`, from one table into the other.
    Collide {
        shape: LaunchShape,
        from: Slot,
        into: Slot,
        hash_bytes: u32,
        indices_per: u32,
        max_rows: u32,
    },
    /// Run `filter_zero`, which collects the solutions of a table.
    FilterZero { shape: LaunchShape, from: Slot, rows: u32, max_solutions: u32 },
    /// Read the solution counter.
    ReadSolutionCount,
    /// Read the solutions, of which the first `count` count. This ends the
    /// programme.
    ReadSolutions { count: u32 },
    /// There is no solution to read. This ends the programme.
    NoSolutions,
}

/// The solver is compiled for other parameters.
#[derive(Clone, Copy, Debug, PartialEq, Eq)]
pub struct UnsupportedParams {
    pub n: u32,
    pub k: u32,
}

/// The kernels are written for (96, 5) and no other parameters.
pub open spec fn takes_params(n: u32, k: u32) -> bool {
    n == 96 && k == 5
}

/// A row counter as the host takes it: rows past the room of the tables were
/// dropped.
pub open spec fn clamped(raw: u32, limit: u32) -> u32 {
    if raw < limit {
        raw
    } else {
        limit
    }
}

/// The table that round `r` reads.
pub open spec fn read_slot(r: int) -> Slot {
    if r % 2 == 0 {
        Slot::A
    } else {
        Slot::B
    }
}

/// The table that round `r` writes.
pub open spec fn write_slot(r: int) -> Slot {
    if r % 2 == 0 {
        Slot::B
    } else {
        Slot::A
    }
}

/// Hash bytes left in the rows that round `r` reads: a round consumes two.
pub open spec fn hash_bytes_at(r: int) -> int {
    MAX_HASH_BYTES - 2 * r
}

/// Indices in the rows that round `r` reads: a round doubles them.
pub open spec fn indices_at(r: int) -> int {
    vstd::arithmetic::power2::pow2(r as nat) as int
}

pub open spec fn fill_command(r: int, rows: u32) -> Command {
    Command::FillBuckets {
        shape: shape_1d(rows, 256),
        from: read_slot(r),
        rows,
        hash_bytes: hash_bytes_at(r) as u32,
    }
}

/// One block of 32 threads for each bucket.
pub open spec fn collide_command(r: int) -> Command {
    Command::Collide {
        shape: LaunchShape {
            grid_dim: (NUM_BUCKETS as u32, 1, 1),
            block_dim: (32, 1, 1),
            shared_mem_bytes: 0,
        },
        from: read_slot(r),
        into: write_slot(r),
        hash_bytes: hash_bytes_at(r) as u32,
        indices_per: indices_at(r) as u32,
        max_rows: MAX_ROWS,
    }
}

/// What round `r` does once the row counter of its table was read: an empty
/// table makes an empty table, any other is sorted into buckets and collided.
pub open spec fn round_commands(r: int, raw: u32) -> Seq<Command> {
    let rows = clamped(raw, MAX_ROWS);
    if rows == 0 {
        seq![Command::ZeroRowCount(write_slot(r))]
    } else {
        seq![
            Command::ClearBuckets { shape: shape_1d(NUM_BUCKETS as u32, 256) },
            fill_command(r, rows),
            Command::ZeroRowCount(write_slot(r)),
            collide_command(r),
        ]
    }
}

/// What follows once the solution counter was read.
pub open spec fn readback_commands(raw: u32) -> Seq<Command> {
    let count = clamped(raw, MAX_SOLUTIONS);
    if count == 0 {
        seq![Command::NoSolutions]
    } else {
        seq![Command::ReadSolutions { count }]
    }
}

/// What follows once the row counter of the last table was read: the rows, if
/// any, are filtered for solutions.
pub open spec fn filter_commands(raw: u32) -> Seq<Command> {
    let rows = clamped(raw, MAX_ROWS);
    if rows == 0 {
        seq![Command::ReadSolutionCount]
    } else {
        seq![
            Command::FilterZero {
                shape: shape_1d(rows, 128),
                from: Slot::B,
                rows,
                max_solutions: MAX_SOLUTIONS,
            },
            Command::ReadSolutionCount,
        ]
    }
}

/// The programme from round `r` on, if `replies` are the counters that the
/// device will answer with.
pub open spec fn rounds_from(r: int, replies: Seq<u32>) -> Seq<Command>
    decreases ROUNDS - r,
{
    if r >= ROUNDS {
        seq![Command::ZeroSolutionCount, Command::ReadRowCount(Slot::B)] + filter_commands(
            replies[0],
        ) + readback_commands(replies[1])
    } else {
        seq![Command::ReadRowCount(read_slot(r))] + round_commands(r, replies[0]) + rounds_from(
            r + 1,
            replies.skip(1),
        )
    }
}

/// The whole programme for a nonce: `replies` holds the row counters read by
/// the five rounds, that of the last table, and the solution counter.
pub open spec fn programme(
    init_state: [u64; 8],
    prefix: [u8; 113],
    replies: Seq<u32>,
) -> Seq<Command> {
    seq![
        Command::UploadInitState(init_state),
        Command::UploadPrefix(prefix),
        Command::ZeroSolutionCount,
        leaves_command(),
    ] + rounds_from(0, replies)
}

/// One thread for five leaves: that many hashes come out of a BLAKE2b call.
pub open spec fn leaves_command() -> Command {
    Command::GenerateLeaves {
        shape: shape_1d(((N_INIT + 4) / 5) as u32, 128),
        leaves: N_INIT,
    }
}

/// Where in the programme a script stands.
#[derive(Clone, Copy, Debug, PartialEq, Eq)]
enum Stage {
    UploadState,
    UploadPrefix,
    ZeroSolutions,
    Leaves,
    RoundRead { round: usize },
    RoundCount { round: usize },
    RoundFill { round: usize, rows: u32 },
    RoundZero { round: usize },
    RoundCollide { round: usize },
    FinalZero,
    FinalRead,
    FinalCount,
    SolutionRead,
    SolutionCount,
    Done,
}

/// The programme for one nonce, as far as it was not carried out yet.
#[derive(Clone, Copy, Debug, PartialEq, Eq)]
pub struct SolveScript {
    init_state: [u64; 8],
    prefix: [u8; 113],
    stage: Stage,
}

impl SolveScript {
    /// The round in progress is one of the five.
    pub closed spec fn wf(self) -> bool {
        match self.stage {
            Stage::RoundRead { round } => round < ROUNDS,
            Stage::RoundCount { round } => round < ROUNDS,
            Stage::RoundFill { round, rows } => round < ROUNDS && 0 < rows <= MAX_ROWS,
            Stage::RoundZero { round } => round < ROUNDS,
            Stage::RoundCollide { round } => round < ROUNDS,
            _ => true,
        }
    }

    /// The last command was one that reads a counter, so that the next step
    /// looks at the reply.
    pub closed spec fn awaits_counter(self) -> bool {
        match self.stage {
            Stage::RoundCount { .. } => true,
            Stage::FinalCount => true,
            Stage::SolutionCount => true,
            _ => false,
        }
    }

    /// The commands still to come, if `replies` are the counters that the
    /// device will answer with.
    pub closed spec fn remaining(self, replies: Seq<u32>) -> Seq<Command> {
        match self.stage {
            Stage::UploadState => programme(self.init_state, self.prefix, replies),
            Stage::UploadPrefix => programme(self.init_state, self.prefix, replies).skip(1),
            Stage::ZeroSolutions => programme(self.init_state, self.prefix, replies).skip(2),
            Stage::Leaves => programme(self.init_state, self.prefix, replies).skip(3),
            Stage::RoundRead { round } => rounds_from(round as int, replies),
            Stage::RoundCount { round } => round_commands(round as int, replies[0])
                + rounds_from(round + 1, replies.skip(1)),
            Stage::RoundFill { round, rows } => seq![
                fill_command(round as int, rows),
                Command::ZeroRowCount(write_slot(round as int)),
                collide_command(round as int),
            ] + rounds_from(round + 1, replies),
            Stage::RoundZero { round } => seq![
                Command::ZeroRowCount(write_slot(round as int)),
                collide_command(round as int),
            ] + rounds_from(round + 1, replies),
            Stage::RoundCollide { round } => seq![collide_command(round as int)] + rounds_from(
                round + 1,
                replies,
            ),
            Stage::FinalZero => rounds_from(ROUNDS as int, replies),
            Stage::FinalRead => rounds_from(ROUNDS as int, replies).skip(1),
            Stage::FinalCount => filter_commands(replies[0]) + readback_commands(replies[1]),
            Stage::SolutionRead => seq![Command::ReadSolutionCount] + readback_commands(
                replies[0],
            ),
            Stage::SolutionCount => readback_commands(replies[0]),
            Stage::Done => Seq::empty(),
        }
    }

    /// How many counters the programme still looks at.
    pub closed spec fn counters_left(self) -> int {
        match self.stage {
            Stage::RoundRead { round } => ROUNDS - round + 2,
            Stage::RoundCount { round } => ROUNDS - round + 2,
            Stage::RoundFill { round, .. } => ROUNDS - round + 1,
            Stage::RoundZero { round } => ROUNDS - round + 1,
            Stage::RoundCollide { round } => ROUNDS - round + 1,
            Stage::FinalZero => 2,
            Stage::FinalRead => 2,
            Stage::FinalCount => 2,
            Stage::SolutionRead => 1,
            Stage::SolutionCount => 1,
            Stage::Done => 0,
            _ => ROUNDS + 2,
        }
    }

    /// The replies still to come: `reply` first where it is looked at, then
    /// `later`.
    pub open spec fn with_reply(self, reply: u32, later: Seq<u32>) -> Seq<u32> {
        if self.awaits_counter() {
            seq![reply] + later
        } else {
            later
        }
    }

    /// The BLAKE2b state that the leaves are hashed from.
    pub closed spec fn init_state(self) -> [u64; 8] {
        self.init_state
    }

    /// The message prefix of the nonce.
    pub closed spec fn prefix(self) -> [u8; 113] {
        self.prefix
    }

    /// No command is left.
    pub closed spec fn finished(self) -> bool {
        self.stage is Done
    }

    /// The programme for `nonce` under the input block `input`, if the kernels
    /// take the parameters.
    pub fn new(n: u32, k: u32, input: &[u8; 81], nonce: &[u8; 32]) -> (r: Result<
        SolveScript,
        UnsupportedParams,
    >)
        ensures
            r is Ok <==> takes_params(n, k),
            r is Ok <==> n == 96 && k == 5,
            r matches Err(e) ==> e == (UnsupportedParams { n, k }),
            r matches Ok(script) ==> {
                &&& script.wf()
                &&& !script.finished()
                &&& !script.awaits_counter()
                &&& script.counters_left() == ROUNDS + 2
                &&& script.init_state()@ == crate::seed::initial_state(n as int, k as int)
                &&& script.prefix()@ == input@ + nonce@
                &&& forall|replies: Seq<u32>| #[trigger]
                    script.remaining(replies) == programme(
                        script.init_state(),
                        script.prefix(),
                        replies,
                    )
            },
    {
        if n != 96 || k != 5 {
            return Err(UnsupportedParams { n, k });
        }
        let init_state = blake2b_init_h(n, k);
        let prefix = build_prefix(input, nonce);
        Ok(SolveScript { init_state, prefix, stage: Stage::UploadState })
    }

    /// The next command. `reply` is the counter that the last command read, if
    /// it was one that reads a counter; otherwise it is not looked at.
    pub fn next(&mut self, reply: u32) -> (command: Command)
        requires
            old(self).wf(),
            !old(self).finished(),
        ensures
            final(self).wf(),
            final(self).init_state() == old(self).init_state(),
            final(self).prefix() == old(self).prefix(),
            final(self).awaits_counter() <==> command is ReadRowCount || command is ReadSolutionCount,
            final(self).finished() <==> command is ReadSolutions || command is NoSolutions,
            old(self).counters_left() == final(self).counters_left() + (if old(self).awaits_counter() {
                1int
            } else {
                0
            }),
            forall|later: Seq<u32>|
                later.len() >= final(self).counters_left() ==> old(self).remaining(
                    old(self).with_reply(reply, later),
                ) == seq![command] + #[trigger] final(self).remaining(later),
            is_step(*old(self), reply, command, *final(self)),
    {
        let command = match self.stage {
            Stage::UploadState => {
                self.stage = Stage::UploadPrefix;
                Command::UploadInitState(self.init_state)
            },
            Stage::UploadPrefix => {
                self.stage = Stage::ZeroSolutions;
                Command::UploadPrefix(self.prefix)
            },
            Stage::ZeroSolutions => {
                self.stage = Stage::Leaves;
                Command::ZeroSolutionCount
            },
            Stage::Leaves => {
                self.stage = Stage::RoundRead { round: 0 };
                let threads: u32 = (N_INIT + 4) / 5;
                Command::GenerateLeaves { shape: launch_cfg_1d(threads, 128), leaves: N_INIT }
            },
            Stage::RoundRead { round } => {
                self.stage = Stage::RoundCount { round };
                Command::ReadRowCount(source(round))
            },
            Stage::RoundCount { round } => {
                let rows = clamp_count(reply, MAX_ROWS);
                if rows == 0 {
                    self.stage = after_round(round);
                    Command::ZeroRowCount(destination(round))
                } else {
                    self.stage = Stage::RoundFill { round, rows };
                    Command::ClearBuckets { shape: launch_cfg_1d(NUM_BUCKETS as u32, 256) }
                }
            },
            Stage::RoundFill { round, rows } => {
                self.stage = Stage::RoundZero { round };
                Command::FillBuckets {
                    shape: launch_cfg_1d(rows, 256),
                    from: source(round),
                    rows,
                    hash_bytes: hash_bytes_in(round),
                }
            },
            Stage::RoundZero { round } => {
                self.stage = Stage::RoundCollide { round };
                Command::ZeroRowCount(destination(round))
            },
            Stage::RoundCollide { round } => {
                self.stage = after_round(round);
                Command::Collide {
                    shape: LaunchShape {
                        grid_dim: (NUM_BUCKETS as u32, 1, 1),
                        block_dim: (32, 1, 1),
                        shared_mem_bytes: 0,
                    },
                    from: source(round),
                    into: destination(round),
                    hash_bytes: hash_bytes_in(round),
                    indices_per: indices_in(round),
                    max_rows: MAX_ROWS,
                }
            },
            Stage::FinalZero => {
                self.stage = Stage::FinalRead;
                Command::ZeroSolutionCount
            },
            Stage::FinalRead => {
                self.stage = Stage::FinalCount;
                Command::ReadRowCount(Slot::B)
            },
            Stage::FinalCount => {
                let rows = clamp_count(reply, MAX_ROWS);
                if rows > 0 {
                    self.stage = Stage::SolutionRead;
                    Command::FilterZero {
                        shape: launch_cfg_1d(rows, 128),
                        from: Slot::B,
                        rows,
                        max_solutions: MAX_SOLUTIONS,
                    }
                } else {
                    self.stage = Stage::SolutionCount;
                    Command::ReadSolutionCount
                }
            },
            Stage::SolutionRead => {
                self.stage = Stage::SolutionCount;
                Command::ReadSolutionCount
            },
            Stage::SolutionCount => {
                self.stage = Stage::Done;
                let count = clamp_count(reply, MAX_SOLUTIONS);
                if count == 0 {
                    Command::NoSolutions
                } else {
                    Command::ReadSolutions { count }
                }
            },
            Stage::Done => Command::NoSolutions,
        };
        assert forall|later: Seq<u32>| later.len() >= self.counters_left() implies old(
            self,
        ).remaining(old(self).with_reply(reply, later)) == seq![command]
            + #[trigger] self.remaining(later) by {
            let seen = old(self).with_reply(reply, later);
            assert((seq![reply] + later).skip(1) =~= later);
            assert(old(self).remaining(seen) =~= seq![command] + self.remaining(later));
        }
        command
    }
}

/// What a counter counts, up to `limit`.
pub fn clamp_count(raw: u32, limit: u32) -> (count: u32)
    ensures
        count == clamped(raw, limit),
{
    if raw < limit {
        raw
    } else {
        limit
    }
}

/// Whether a counter ran past `limit`, so that clamping it loses something.
pub fn overflowed(raw: u32, limit: u32) -> (lost: bool)
    ensures
        lost == (raw > limit),
        lost == (clamped(raw, limit) < raw),
{
    raw > limit
}

fn source(round: usize) -> (slot: Slot)
    ensures
        slot == read_slot(round as int),
{
    if round % 2 == 0 {
        Slot::A
    } else {
        Slot::B
    }
}

fn destination(round: usize) -> (slot: Slot)
    ensures
        slot == write_slot(round as int),
{
    if round % 2 == 0 {
        Slot::B
    } else {
        Slot::A
    }
}

fn hash_bytes_in(round: usize) -> (bytes: u32)
    requires
        round < ROUNDS,
    ensures
        bytes == hash_bytes_at(round as int),
{
    let schedule: [u32; 6] = [12, 10, 8, 6, 4, 2];
    schedule[round]
}

fn indices_in(round: usize) -> (indices: u32)
    requires
        round < ROUNDS,
    ensures
        indices == indices_at(round as int),
{
    proof {
        vstd::arithmetic::power2::lemma2_to64();
    }
    let schedule: [u32; 6] = [1, 2, 4, 8, 16, 32];
    schedule[round]
}

/// Where a script stands after round `round`.
fn after_round(round: usize) -> (stage: Stage)
    requires
        round < ROUNDS,
    ensures
        round + 1 < ROUNDS ==> stage == (Stage::RoundRead { round: (round + 1) as usize }),
        round + 1 == ROUNDS ==> stage == Stage::FinalZero,
{
    if round + 1 < ROUNDS {
        Stage::RoundRead { round: round + 1 }
    } else {
        Stage::FinalZero
    }
}

/// The solutions in `words`, the solution buffer as it was read back: `count`
/// groups of [`MAX_INDICES`] words.
pub fn unpack_solutions(count: u32, words: &Vec<u32>) -> (solutions: Vec<[u32; 32]>)
    requires
        count * MAX_INDICES <= words@.len(),
    ensures
        solutions@.len() == count,
        forall|i: int|
            0 <= i < count ==> (#[trigger] solutions@[i])@ == words@.subrange(
                i * MAX_INDICES,
                (i + 1) * MAX_INDICES,
            ),
{
    let total: usize = words.len();
    let mut solutions: Vec<[u32; 32]> = Vec::new();
    let mut i: usize = 0;
    while i < count as usize
        invariant
            i <= count,
            total == words@.len(),
            count * MAX_INDICES <= words@.len(),
            solutions@.len() == i,
            forall|m: int|
                0 <= m < i ==> (#[trigger] solutions@[m])@ == words@.subrange(
                    m * MAX_INDICES,
                    (m + 1) * MAX_INDICES,
                ),
        decreases count - i,
    {
        let mut group: [u32; 32] = [0u32; 32];
        let mut j: usize = 0;
        while j < MAX_INDICES
            invariant
                j <= MAX_INDICES,
                i < count,
                total == words@.len(),
                count * MAX_INDICES <= words@.len(),
                forall|m: int| 0 <= m < j ==> group@[m] == words@[i * MAX_INDICES + m],
            decreases MAX_INDICES - j,
        {
            group[j] = words[i * MAX_INDICES + j];
            j += 1;
        }
        assert(group@ =~= words@.subrange(i * MAX_INDICES, (i + 1) * MAX_INDICES));
        solutions.push(group);
        i += 1;
    }
    solutions
}

/// The command stays within the buffers, and its launch has a thread for every
/// item that it works on.
pub open spec fn stays_in_bounds(command: Command) -> bool {
    match command {
        Command::GenerateLeaves { shape, leaves } => {
            &&& leaves <= MAX_ROWS
            &&& 5 * (shape.grid_dim.0 * shape.block_dim.0) >= leaves
        },
        Command::ClearBuckets { shape } => shape.grid_dim.0 * shape.block_dim.0 >= NUM_BUCKETS,
        Command::FillBuckets { shape, rows, hash_bytes, .. } => {
            &&& 0 < rows <= MAX_ROWS
            &&& 2 <= hash_bytes <= MAX_HASH_BYTES
            &&& shape.grid_dim.0 * shape.block_dim.0 >= rows
        },
        Command::Collide { shape, from, into, hash_bytes, indices_per, max_rows } => {
            &&& from != into
            &&& 2 <= hash_bytes <= MAX_HASH_BYTES
            &&& 1 <= indices_per
            &&& 2 * indices_per <= MAX_INDICES
            &&& max_rows == MAX_ROWS
            &&& shape.grid_dim.0 == NUM_BUCKETS
        },
        Command::FilterZero { shape, rows, max_solutions, .. } => {
            &&& 0 < rows <= MAX_ROWS
            &&& max_solutions == MAX_SOLUTIONS
            &&& shape.grid_dim.0 * shape.block_dim.0 >= rows
        },
        Command::ReadSolutions { count } => 0 < count <= MAX_SOLUTIONS,
        _ => true,
    }
}

/// The command is one that ends the programme.
pub open spec fn is_last(command: Command) -> bool {
    command is ReadSolutions || command is NoSolutions
}

proof fn lemma_rounds_from(r: int, replies: Seq<u32>)
    requires
        0 <= r <= ROUNDS,
    ensures
        3 < rounds_from(r, replies).len() <= 5 * (ROUNDS - r) + 5,
        forall|i: int|
            0 <= i < rounds_from(r, replies).len() ==> stays_in_bounds(
                #[trigger] rounds_from(r, replies)[i],
            ),
        forall|i: int|
            0 <= i < rounds_from(r, replies).len() ==> (is_last(
                #[trigger] rounds_from(r, replies)[i],
            ) <==> i == rounds_from(r, replies).len() - 1),
    decreases ROUNDS - r,
{
    let rows = clamped(replies[0], MAX_ROWS);
    let all = rounds_from(r, replies);
    if r == ROUNDS {
        launch_covers_threads(rows, 128);
    } else {
        let rest = rounds_from(r + 1, replies.skip(1));
        lemma_rounds_from(r + 1, replies.skip(1));
        launch_covers_threads(rows, 256);
        launch_covers_threads(NUM_BUCKETS as u32, 256);
        vstd::arithmetic::power2::lemma2_to64();
        let first = seq![Command::ReadRowCount(read_slot(r))] + round_commands(r, replies[0]);
        assert(all =~= first + rest);
        assert forall|i: int| 0 <= i < all.len() implies stays_in_bounds(#[trigger] all[i]) && (
        is_last(all[i]) <==> i == all.len() - 1) by {
            if i >= first.len() {
                assert(all[i] == rest[i - first.len()]);
            }
        }
    }
}

/// Whatever the device counts, a programme is at most 34 commands long, keeps
/// within the buffers, and ends with the one command that ends it.
pub proof fn programme_is_sound(init_state: [u64; 8], prefix: [u8; 113], replies: Seq<u32>)
    ensures
        0 < programme(init_state, prefix, replies).len() <= 34,
        forall|i: int|
            0 <= i < programme(init_state, prefix, replies).len() ==> stays_in_bounds(
                #[trigger] programme(init_state, prefix, replies)[i],
            ),
        forall|i: int|
            0 <= i < programme(init_state, prefix, replies).len() ==> (is_last(
                #[trigger] programme(init_state, prefix, replies)[i],
            ) <==> i == programme(init_state, prefix, replies).len() - 1),
{
    let all = programme(init_state, prefix, replies);
    let rest = rounds_from(0, replies);
    lemma_rounds_from(0, replies);
    launch_covers_threads(((N_INIT + 4) / 5) as u32, 128);
    assert forall|i: int| 0 <= i < all.len() implies stays_in_bounds(#[trigger] all[i]) && (
    is_last(all[i]) <==> i == all.len() - 1) by {
        if i >= 4 {
            assert(all[i] == rest[i - 4]);
        }
    }
}

/// The rounds hand the table on: the first reads table A, which the leaves
/// went to; each later one reads what the one before wrote; and the last
/// writes table B, which is the one that is filtered.
pub proof fn rounds_hand_on_the_table(r: int)
    requires
        0 <= r < ROUNDS,
    ensures
        read_slot(0) == Slot::A,
        read_slot(r) != write_slot(r),
        read_slot(r + 1) == write_slot(r),
        write_slot(ROUNDS - 1) == Slot::B,
{
}

/// A round consumes two hash bytes and doubles the indices, so that the rows
/// left after the last round have two hash bytes and the indices of a full
/// solution.
pub proof fn rounds_follow_the_schedule(r: int)
    requires
        0 <= r < ROUNDS,
    ensures
        hash_bytes_at(0) == MAX_HASH_BYTES,
        indices_at(0) == 1,
        hash_bytes_at(r + 1) == hash_bytes_at(r) - 2,
        indices_at(r + 1) == 2 * indices_at(r),
        hash_bytes_at(ROUNDS as int) == 2,
        indices_at(ROUNDS as int) == MAX_INDICES,
{
    vstd::arithmetic::power2::lemma2_to64();
}

/// A round that reads an empty table launches nothing and leaves an empty
/// table for the next.
pub proof fn empty_table_stays_empty(r: int)
    requires
        0 <= r < ROUNDS,
    ensures
        round_commands(r, 0) == seq![Command::ZeroRowCount(read_slot(r + 1))],
{
}

/// A clamped counter is the smaller of the counter and the limit.
pub proof fn clamping_takes_the_smaller(raw: u32, limit: u32)
    ensures
        clamped(raw, limit) <= raw,
        clamped(raw, limit) <= limit,
        clamped(raw, limit) == raw || clamped(raw, limit) == limit,
{
}

/// Where round `r` begins in a programme: four commands come before the first
/// round, and a round takes two commands if it reads a counter of zero, and
/// five otherwise.
pub open spec fn round_start(replies: Seq<u32>, r: int) -> int
    decreases r,
{
    if r <= 0 {
        4
    } else {
        round_start(replies, r - 1) + (if replies[r - 1] == 0 {
            2int
        } else {
            5
        })
    }
}

proof fn lemma_round_start(init_state: [u64; 8], prefix: [u8; 113], replies: Seq<u32>, r: int)
    requires
        0 <= r <= ROUNDS,
        replies.len() == ROUNDS + 2,
    ensures
        4 <= round_start(replies, r) <= programme(init_state, prefix, replies).len(),
        programme(init_state, prefix, replies).skip(round_start(replies, r)) == rounds_from(
            r,
            replies.skip(r),
        ),
    decreases r,
{
    let all = programme(init_state, prefix, replies);
    if r == 0 {
        assert(replies.skip(0) =~= replies);
        assert(all.skip(4) =~= rounds_from(0, replies));
    } else {
        lemma_round_start(init_state, prefix, replies, r - 1);
        let from = round_start(replies, r - 1);
        let left = replies.skip(r - 1);
        assert(left.skip(1) =~= replies.skip(r));
        assert(left[0] == replies[r - 1]);
        let first = seq![Command::ReadRowCount(read_slot(r - 1))] + round_commands(r - 1, left[0]);
        let rest = rounds_from(r, replies.skip(r));
        assert(rounds_from(r - 1, left) =~= first + rest);
        assert(first.len() == if replies[r - 1] == 0 {
            2int
        } else {
            5
        });
        assert(all.skip(round_start(replies, r)) =~= all.skip(from).skip(first.len() as int));
        assert(all.skip(from).skip(first.len() as int) =~= rest);
    }
}

/// A programme begins with the two uploads, a solution counter of zero, and the
/// leaves: 131072 of them, five to a thread.
pub proof fn programme_begins_with_the_leaves(
    init_state: [u64; 8],
    prefix: [u8; 113],
    replies: Seq<u32>,
)
    ensures
        programme(init_state, prefix, replies).len() >= 4,
        programme(init_state, prefix, replies)[0] == Command::UploadInitState(init_state),
        programme(init_state, prefix, replies)[1] == Command::UploadPrefix(prefix),
        programme(init_state, prefix, replies)[2] == Command::ZeroSolutionCount,
        programme(init_state, prefix, replies)[3] matches Command::GenerateLeaves { shape, leaves }
            && leaves == 131072 && shape.block_dim == (128u32, 1u32, 1u32) && shape.grid_dim == (
            205u32,
            1u32,
            1u32,
        ),
{
}

/// Round `r` of a programme, command by command, for every counter that it can
/// read. Even rounds read table A and write table B, odd ones the other way.
/// The counter of the table is read first. If it is zero, the counter of the
/// other table is set to zero and the next round begins. If it is not, the
/// buckets are cleared, all the rows, or the 262144 that there is room for, are
/// sorted into them by hashes of `12 - 2 * r` bytes, the counter of the other
/// table is set to zero, every bucket is collided into that table, and the next
/// round begins.
pub proof fn round_command_by_command(
    init_state: [u64; 8],
    prefix: [u8; 113],
    replies: Seq<u32>,
    r: int,
)
    requires
        0 <= r < 5,
        replies.len() == 7,
    ensures
        ({
            let all = programme(init_state, prefix, replies);
            let at = round_start(replies, r);
            let source = if r % 2 == 0 {
                Slot::A
            } else {
                Slot::B
            };
            let sink = if r % 2 == 0 {
                Slot::B
            } else {
                Slot::A
            };
            &&& 4 <= at
            &&& round_start(replies, 0) == 4
            &&& round_start(replies, r + 1) <= all.len()
            &&& all[at] == Command::ReadRowCount(source)
            &&& replies[r] == 0 ==> {
                &&& round_start(replies, r + 1) == at + 2
                &&& all[at + 1] == Command::ZeroRowCount(sink)
            }
            &&& replies[r] > 0 ==> {
                &&& round_start(replies, r + 1) == at + 5
                &&& all[at + 1] matches Command::ClearBuckets { shape } && shape.grid_dim == (
                    256u32,
                    1u32,
                    1u32,
                ) && shape.block_dim == (256u32, 1u32, 1u32)
                &&& all[at + 3] == Command::ZeroRowCount(sink)
            }
            &&& replies[r] > 0 ==> {
                &&& all[at + 2] matches Command::FillBuckets { shape, from, rows, hash_bytes }
                &&& from == source
                &&& replies[r] <= 262144 ==> rows == replies[r]
                &&& replies[r] > 262144 ==> rows == 262144
                &&& hash_bytes == 12 - 2 * r
                &&& shape.block_dim == (256u32, 1u32, 1u32)
                &&& (shape.grid_dim.0 - 1) * 256 < rows <= shape.grid_dim.0 * 256
                &&& shape.grid_dim.1 == 1 && shape.grid_dim.2 == 1
            }
            &&& replies[r] > 0 ==> {
                &&& all[at + 4] matches Command::Collide {
                    shape,
                    from,
                    into,
                    hash_bytes,
                    indices_per,
                    max_rows,
                }
                &&& from == source && into == sink
                &&& hash_bytes == 12 - 2 * r
                &&& indices_per == vstd::arithmetic::power2::pow2(r as nat)
                &&& max_rows == 262144
                &&& shape.grid_dim == (65536u32, 1u32, 1u32)
                &&& shape.block_dim == (32u32, 1u32, 1u32)
            }
        }),
{
    let all = programme(init_state, prefix, replies);
    let at = round_start(replies, r);
    let left = replies.skip(r);
    let rows = clamped(replies[r], MAX_ROWS);
    lemma_round_start(init_state, prefix, replies, r);
    lemma_round_start(init_state, prefix, replies, r + 1);
    assert(left[0] == replies[r]);
    let rest = rounds_from(r + 1, left.skip(1));
    let tail = rounds_from(r, left);
    assert(tail =~= seq![Command::ReadRowCount(read_slot(r))] + round_commands(r, left[0]) + rest);
    assert(all[at] == tail[0]);
    assert(all[at + 1] == tail[1]);
    vstd::arithmetic::power2::lemma2_to64();
    if replies[r] > 0 {
        assert(all[at + 2] == tail[2]);
        assert(all[at + 3] == tail[3]);
        assert(all[at + 4] == tail[4]);
        launch_covers_threads(rows, 256);
    }
}

/// A programme ends, for every history of counters, as it must: the solution
/// counter is set to zero and the counter of table B read; the rows of table B,
/// if there are any, are filtered for at most 64 solutions; the solution
/// counter is read; and then the solutions are read back, as many as were
/// counted but at most 64, or none exactly where none was counted.
pub proof fn programme_reads_back_what_was_counted(
    init_state: [u64; 8],
    prefix: [u8; 113],
    replies: Seq<u32>,
)
    requires
        replies.len() == 7,
    ensures
        ({
            let all = programme(init_state, prefix, replies);
            let at = round_start(replies, 5);
            &&& all[at] == Command::ZeroSolutionCount
            &&& all[at + 1] == Command::ReadRowCount(Slot::B)
            &&& replies[5] == 0 ==> all.len() == at + 4
            &&& replies[5] > 0 ==> all.len() == at + 5
            &&& all[all.len() - 2] == Command::ReadSolutionCount
            &&& replies[6] == 0 <==> all.last() == Command::NoSolutions
            &&& 0 < replies[6] <= 64 ==> all.last() == (Command::ReadSolutions {
                count: replies[6],
            })
            &&& replies[6] > 64 ==> all.last() == (Command::ReadSolutions { count: 64 })
            &&& replies[5] > 0 ==> {
                &&& all[at + 2] matches Command::FilterZero { shape, from, rows, max_solutions }
                &&& from == Slot::B
                &&& replies[5] <= 262144 ==> rows == replies[5]
                &&& replies[5] > 262144 ==> rows == 262144
                &&& max_solutions == 64
                &&& shape.block_dim == (128u32, 1u32, 1u32)
                &&& (shape.grid_dim.0 - 1) * 128 < rows <= shape.grid_dim.0 * 128
                &&& shape.grid_dim.1 == 1 && shape.grid_dim.2 == 1
            }
        }),
{
    let all = programme(init_state, prefix, replies);
    let at = round_start(replies, 5);
    let left = replies.skip(5);
    lemma_round_start(init_state, prefix, replies, 5);
    let tail = rounds_from(5, left);
    assert(left[0] == replies[5]);
    assert(left[1] == replies[6]);
    assert(tail =~= seq![Command::ZeroSolutionCount, Command::ReadRowCount(Slot::B)]
        + filter_commands(left[0]) + readback_commands(left[1]));
    assert(all.len() == at + tail.len());
    assert(all.skip(at)[0] == all[at]);
    assert(all.skip(at)[1] == all[at + 1]);
    assert(all.last() == tail.last());
    assert(all[all.len() - 2] == tail[tail.len() - 2]);
    if replies[5] > 0 {
        assert(all[at + 2] == tail[2]);
        launch_covers_threads(clamped(replies[5], MAX_ROWS), 128);
    }
}

/// The command reads a counter.
pub open spec fn reads_counter(command: Command) -> bool {
    command is ReadRowCount || command is ReadSolutionCount
}

/// Of the replies that a script was given, those that answer a command which
/// reads a counter; `reads` tells it of the command before the first.
pub open spec fn counters(reads: bool, commands: Seq<Command>, replies: Seq<u32>) -> Seq<u32>
    decreases commands.len(),
{
    if commands.len() == 0 {
        Seq::empty()
    } else {
        let later = counters(
            reads_counter(commands[0]),
            commands.skip(1),
            replies.skip(1),
        );
        if reads {
            seq![replies[0]] + later
        } else {
            later
        }
    }
}

/// A script, given a reply, gave a command and became another script, by the
/// contract of [`SolveScript::next`].
pub open spec fn is_step(
    before: SolveScript,
    reply: u32,
    command: Command,
    after: SolveScript,
) -> bool {
    &&& after.awaits_counter() <==> reads_counter(command)
    &&& before.counters_left() == after.counters_left() + (if before.awaits_counter() {
        1int
    } else {
        0
    })
    &&& forall|later: Seq<u32>|
        later.len() >= after.counters_left() ==> before.remaining(
            if before.awaits_counter() {
                seq![reply] + later
            } else {
                later
            },
        ) == seq![command] + #[trigger] after.remaining(later)
}

/// The commands came out of the scripts, one after the other: script `i`, given
/// reply `i`, gave command `i` and became script `i + 1`.
pub open spec fn is_run(
    scripts: Seq<SolveScript>,
    replies: Seq<u32>,
    commands: Seq<Command>,
) -> bool {
    &&& scripts.len() == commands.len() + 1
    &&& replies.len() == commands.len()
    &&& forall|i: int|
        #![trigger commands[i]]
        0 <= i < commands.len() ==> is_step(scripts[i], replies[i], commands[i], scripts[i + 1])
}

/// A script that is run to its end carries out the programme: the commands it
/// gives are those that were left of the programme, for the counters that it
/// was answered with.
pub proof fn run_carries_out_the_programme(
    scripts: Seq<SolveScript>,
    replies: Seq<u32>,
    commands: Seq<Command>,
)
    requires
        is_run(scripts, replies, commands),
        scripts.last().finished(),
    ensures
        counters(scripts[0].awaits_counter(), commands, replies).len()
            == scripts[0].counters_left(),
        commands == scripts[0].remaining(
            counters(scripts[0].awaits_counter(), commands, replies),
        ),
    decreases commands.len(),
{
    if commands.len() > 0 {
        let s1 = scripts.skip(1);
        let r1 = replies.skip(1);
        let c1 = commands.skip(1);
        assert forall|i: int| #![trigger c1[i]] 0 <= i < c1.len() implies is_step(
            s1[i],
            r1[i],
            c1[i],
            s1[i + 1],
        ) by {
            assert(c1[i] == commands[i + 1]);
        }
        run_carries_out_the_programme(s1, r1, c1);
        let first = commands[0];
        let later = counters(reads_counter(first), c1, r1);
        assert(is_step(scripts[0], replies[0], first, scripts[1]));
        assert(s1[0] == scripts[1]);
        assert(c1 == scripts[1].remaining(later));
        assert(commands =~= seq![first] + c1);
    } else {
        assert(commands =~= Seq::empty());
    }
}

proof fn lemma_last_counter(reads: bool, commands: Seq<Command>, replies: Seq<u32>)
    requires
        commands.len() == replies.len() > 0,
        commands.len() == 1 ==> reads,
        commands.len() > 1 ==> reads_counter(commands[commands.len() - 2]),
    ensures
        counters(reads, commands, replies).len() > 0,
        counters(reads, commands, replies).last() == replies.last(),
    decreases commands.len(),
{
    let c1 = commands.skip(1);
    let r1 = replies.skip(1);
    if commands.len() > 1 {
        if c1.len() > 1 {
            assert(c1[c1.len() - 2] == commands[commands.len() - 2]);
        }
        lemma_last_counter(reads_counter(commands[0]), c1, r1);
        assert(r1.last() == replies.last());
    } else {
        assert(counters(reads_counter(commands[0]), c1, r1) =~= Seq::empty());
    }
}

/// A nonce is solved by the programme, and no solution is thrown away: a new
/// script that is run to its end gives the commands of the programme for the
/// seven counters that it was answered with; and if the last answer, the
/// solution counter, is not zero, it ends by reading back that many solutions,
/// or the 64 that there is room for.
pub proof fn new_script_solves_its_nonce(
    scripts: Seq<SolveScript>,
    replies: Seq<u32>,
    commands: Seq<Command>,
)
    requires
        is_run(scripts, replies, commands),
        scripts.last().finished(),
        !scripts[0].awaits_counter(),
        scripts[0].counters_left() == 7,
        forall|answers: Seq<u32>| #[trigger]
            scripts[0].remaining(answers) == programme(
                scripts[0].init_state(),
                scripts[0].prefix(),
                answers,
            ),
    ensures
        counters(false, commands, replies).len() == 7,
        commands == programme(
            scripts[0].init_state(),
            scripts[0].prefix(),
            counters(false, commands, replies),
        ),
        replies.last() == 0 <==> commands.last() == Command::NoSolutions,
        0 < replies.last() <= 64 ==> commands.last() == (Command::ReadSolutions {
            count: replies.last(),
        }),
        replies.last() > 64 ==> commands.last() == (Command::ReadSolutions { count: 64 }),
{
    let answers = counters(false, commands, replies);
    run_carries_out_the_programme(scripts, replies, commands);
    programme_reads_back_what_was_counted(scripts[0].init_state(), scripts[0].prefix(), answers);
    lemma_round_start(scripts[0].init_state(), scripts[0].prefix(), answers, 5);
    lemma_last_counter(false, commands, replies);
    assert(answers[6] == answers.last());
}

} // verus!
