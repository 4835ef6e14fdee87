//! One nonce on the device: seeding, commands, and the wire format.

use equium_cuda_miner::gpu::{
    buffer_lens, clamp_count, launch_cfg_1d, overflowed, unpack_solutions, Command, LaunchShape,
    Slot, SolveScript, UnsupportedParams, MAX_ROWS, MAX_SOLUTIONS,
};
use equium_cuda_miner::seed::{blake2b_init_h, build_prefix};
use equium_cuda_miner::wire::compress_indices;

#[test]
fn init_h_sanity() {
    let h = blake2b_init_h(96, 5);
    assert_ne!(h, [0u64; 8]);
    assert_ne!(h[0], 0x6a09e667f3bcc908);
    assert_eq!(h[1], 0xbb67ae8584caa73b);
    assert_eq!(h[2], 0x3c6ef372fe94f82b);
    assert_eq!(h[3], 0xa54ff53a5f1d36f1);
    assert_eq!(h[4], 0x510e527fade682d1);
    assert_eq!(h[5], 0x9b05688c2b3e6c1f);
    assert_ne!(h[6], 0x1f83d9abfb41bd6b);
    assert_ne!(h[7], 0x5be0cd19137e2179);
}

#[test]
fn init_h_exact_words() {
    assert_eq!(
        blake2b_init_h(96, 5),
        [
            0x6a09e667f2bdc934,
            0xbb67ae8584caa73b,
            0x3c6ef372fe94f82b,
            0xa54ff53a5f1d36f1,
            0x510e527fade682d1,
            0x9b05688c2b3e6c1f,
            0x48ec89c38820de31,
            0x5be0cd1c137e2119,
        ]
    );
    assert_eq!(blake2b_init_h(200, 9)[0], 0x6a09e667f2bdc93a);
    assert_eq!(blake2b_init_h(200, 9)[7], 0x5be0cd10137e21b1);
}

#[test]
fn init_h_tells_parameters_apart() {
    assert_ne!(blake2b_init_h(96, 5), blake2b_init_h(96, 6));
    assert_ne!(blake2b_init_h(96, 5), blake2b_init_h(5, 96));
    // No whole hash fits, so that the digest is empty.
    assert_eq!(blake2b_init_h(513, 1)[0], 0x6a09e667f3bcc908 ^ 0x0101_0000);
}

#[test]
fn prefix_is_input_then_nonce() {
    let mut input = [0u8; 81];
    for i in 0..81 {
        input[i] = i as u8;
    }
    let mut nonce = [0u8; 32];
    for i in 0..32 {
        nonce[i] = 200 + i as u8;
    }
    let prefix = build_prefix(&input, &nonce);
    assert_eq!(&prefix[..81], &input[..]);
    assert_eq!(&prefix[81..], &nonce[..]);
}

#[test]
fn prefixes_of_different_nonces_differ() {
    let input = [5u8; 81];
    let mut other = [0u8; 32];
    other[31] = 1;
    assert_ne!(build_prefix(&input, &[0u8; 32]), build_prefix(&input, &other));
}

fn shape(grid: u32, block: u32) -> LaunchShape {
    LaunchShape { grid_dim: (grid, 1, 1), block_dim: (block, 1, 1), shared_mem_bytes: 0 }
}

#[test]
fn launch_shapes_cover_the_threads() {
    assert_eq!(launch_cfg_1d(0, 128), shape(1, 128));
    assert_eq!(launch_cfg_1d(1, 128), shape(1, 128));
    assert_eq!(launch_cfg_1d(128, 128), shape(1, 128));
    assert_eq!(launch_cfg_1d(129, 128), shape(2, 128));
    assert_eq!(launch_cfg_1d(65536, 256), shape(256, 256));
}

#[test]
fn buffers_have_room_for_the_tables() {
    let lens = buffer_lens();
    assert_eq!(lens.hashes, 262144 * 12);
    assert_eq!(lens.indices, 262144 * 32);
    assert_eq!(lens.bucket_counts, 65536);
    assert_eq!(lens.bucket_slots, 65536 * 16);
    assert_eq!(lens.solutions, 64 * 32);
}

#[test]
fn counters_are_clamped() {
    assert_eq!(clamp_count(3, MAX_ROWS), 3);
    assert_eq!(clamp_count(MAX_ROWS, MAX_ROWS), MAX_ROWS);
    assert_eq!(clamp_count(u32::MAX, MAX_ROWS), MAX_ROWS);
}

#[test]
fn overflow_is_told() {
    assert!(!overflowed(0, MAX_ROWS));
    assert!(!overflowed(262144, MAX_ROWS));
    assert!(overflowed(262145, MAX_ROWS));
    assert_eq!(clamp_count(262145, MAX_ROWS), 262144);
}

fn run(replies: &[u32]) -> Vec<Command> {
    let mut script = match SolveScript::new(96, 5, &[7u8; 81], &[9u8; 32]) {
        Ok(script) => script,
        Err(_) => panic!("the parameters are refused"),
    };
    let mut commands: Vec<Command> = Vec::new();
    let mut used = 0;
    let mut reply = 0u32;
    loop {
        let command = script.next(reply);
        commands.push(command);
        match command {
            Command::ReadRowCount(_) | Command::ReadSolutionCount => {
                reply = replies[used];
                used += 1;
            }
            Command::ReadSolutions { .. } | Command::NoSolutions => {
                assert_eq!(used, replies.len());
                return commands;
            }
            _ => {}
        }
    }
}

#[test]
fn script_of_a_busy_device() {
    let commands = run(&[131072, 130000, 129000, u32::MAX, 127000, 300, 2]);
    assert_eq!(commands.len(), 34);
    assert_eq!(commands[0], Command::UploadInitState(blake2b_init_h(96, 5)));
    assert_eq!(commands[1], Command::UploadPrefix(build_prefix(&[7u8; 81], &[9u8; 32])));
    assert_eq!(commands[2], Command::ZeroSolutionCount);
    assert_eq!(commands[3], Command::GenerateLeaves { shape: shape(205, 128), leaves: 131072 });
    // The first round, from table A into table B.
    assert_eq!(commands[4], Command::ReadRowCount(Slot::A));
    assert_eq!(commands[5], Command::ClearBuckets { shape: shape(256, 256) });
    assert_eq!(
        commands[6],
        Command::FillBuckets {
            shape: shape(512, 256),
            from: Slot::A,
            rows: 131072,
            hash_bytes: 12
        }
    );
    assert_eq!(commands[7], Command::ZeroRowCount(Slot::B));
    assert_eq!(
        commands[8],
        Command::Collide {
            shape: shape(65536, 32),
            from: Slot::A,
            into: Slot::B,
            hash_bytes: 12,
            indices_per: 1,
            max_rows: 262144
        }
    );
    // The second reads what the first wrote.
    assert_eq!(commands[9], Command::ReadRowCount(Slot::B));
    // The fourth, whose counter is past the room of a table.
    assert_eq!(
        commands[21],
        Command::FillBuckets {
            shape: shape(1024, 256),
            from: Slot::B,
            rows: 262144,
            hash_bytes: 6
        }
    );
    // The fifth leaves the solutions in table B.
    assert_eq!(
        commands[28],
        Command::Collide {
            shape: shape(65536, 32),
            from: Slot::A,
            into: Slot::B,
            hash_bytes: 4,
            indices_per: 16,
            max_rows: 262144
        }
    );
    assert_eq!(commands[29], Command::ZeroSolutionCount);
    assert_eq!(commands[30], Command::ReadRowCount(Slot::B));
    assert_eq!(
        commands[31],
        Command::FilterZero { shape: shape(3, 128), from: Slot::B, rows: 300, max_solutions: 64 }
    );
    assert_eq!(commands[32], Command::ReadSolutionCount);
    assert_eq!(commands[33], Command::ReadSolutions { count: 2 });
}

#[test]
fn script_of_an_empty_device() {
    let commands = run(&[0, 0, 0, 0, 0, 0, 0]);
    assert_eq!(commands.len(), 18);
    // An empty table launches nothing and stays empty.
    assert_eq!(commands[4], Command::ReadRowCount(Slot::A));
    assert_eq!(commands[5], Command::ZeroRowCount(Slot::B));
    assert_eq!(commands[6], Command::ReadRowCount(Slot::B));
    assert_eq!(commands[7], Command::ZeroRowCount(Slot::A));
    assert_eq!(commands[15], Command::ReadRowCount(Slot::B));
    assert_eq!(commands[16], Command::ReadSolutionCount);
    assert_eq!(commands[17], Command::NoSolutions);
}

#[test]
fn rounds_ping_pong_between_the_tables() {
    let commands = run(&[5, 5, 5, 5, 5, 5, 5]);
    let mut schedule: Vec<(Slot, Slot, u32, u32)> = Vec::new();
    for command in commands {
        if let Command::Collide { from, into, hash_bytes, indices_per, .. } = command {
            schedule.push((from, into, hash_bytes, indices_per));
        }
    }
    assert_eq!(
        schedule,
        vec![
            (Slot::A, Slot::B, 12, 1),
            (Slot::B, Slot::A, 10, 2),
            (Slot::A, Slot::B, 8, 4),
            (Slot::B, Slot::A, 6, 8),
            (Slot::A, Slot::B, 4, 16),
        ]
    );
}

#[test]
fn solutions_past_the_room_are_dropped() {
    let commands = run(&[1, 1, 1, 1, 1, 1, 1000]);
    assert_eq!(commands[commands.len() - 1], Command::ReadSolutions { count: MAX_SOLUTIONS });
}

#[test]
fn solver_refuses_other_parameters() {
    assert_eq!(
        SolveScript::new(96, 3, &[0u8; 81], &[0u8; 32]),
        Err(UnsupportedParams { n: 96, k: 3 })
    );
    assert_eq!(
        SolveScript::new(48, 5, &[0u8; 81], &[0u8; 32]),
        Err(UnsupportedParams { n: 48, k: 5 })
    );
}

#[test]
fn solutions_are_cut_from_the_buffer() {
    let mut words: Vec<u32> = Vec::new();
    for i in 0..2048u32 {
        words.push(i);
    }
    let solutions = unpack_solutions(2, &words);
    assert_eq!(solutions.len(), 2);
    assert_eq!(solutions[0][0], 0);
    assert_eq!(solutions[0][31], 31);
    assert_eq!(solutions[1][0], 32);
    assert_eq!(solutions[1][31], 63);
    assert!(unpack_solutions(0, &words).is_empty());
}

const SOLUTION: [u32; 32] = [
    2358, 32202, 12715, 22230, 11797, 28182, 95274, 126530, 36124, 54071, 65997, 75662, 44339,
    114365, 45293, 112949, 8079, 129535, 34827, 75704, 16853, 111164, 17453, 62290, 13331, 124378,
    62407, 66866, 79273, 91272, 102238, 128007,
];

#[test]
fn a_solution_on_the_wire() {
    let bytes = compress_indices(96, 5, &SOLUTION);
    let expected: Vec<u8> = vec![
        0x04, 0x9b, 0x1f, 0x72, 0x86, 0x35, 0x65, 0x6d, 0x61, 0x70, 0xa9, 0xb8, 0x5a, 0xe8, 0x55,
        0xee, 0x42, 0x46, 0x8e, 0x34, 0xcd, 0xe0, 0x39, 0xb2, 0x78, 0xe5, 0x69, 0x9e, 0xfa, 0xf5,
        0x61, 0xdb, 0xb9, 0x35, 0x0f, 0xc7, 0xfe, 0x7f, 0xd1, 0x01, 0x72, 0x7b, 0x82, 0x0e, 0xae,
        0xc8, 0xf0, 0x88, 0x5a, 0xf3, 0x52, 0x1a, 0x09, 0xf9, 0x76, 0x9e, 0x78, 0xf0, 0x53, 0x29,
        0xad, 0x4d, 0x92, 0x23, 0x1e, 0xbd, 0xf4, 0x07,
    ];
    assert_eq!(bytes, expected);
}

fn read_back(bytes: &[u8], width: usize, i: usize) -> u32 {
    let mut v = 0u32;
    for p in i * width..(i + 1) * width {
        v = 2 * v + ((bytes[p / 8] >> (7 - p % 8)) & 1) as u32;
    }
    v
}

#[test]
fn the_wire_reads_back() {
    let bytes = compress_indices(96, 5, &SOLUTION);
    for i in 0..32 {
        assert_eq!(read_back(&bytes, 17, i), SOLUTION[i]);
    }
}

#[test]
fn bits_above_the_width_are_dropped() {
    let bytes = compress_indices(96, 5, &[u32::MAX; 32]);
    assert_eq!(bytes, vec![0xffu8; 68]);
    // 9 bits an index: 288 bits, no bit to fill up.
    let bytes = compress_indices(48, 5, &[0x200u32; 32]);
    assert_eq!(bytes, vec![0u8; 36]);
    // One bit an index.
    let bytes = compress_indices(3, 5, &[1u32; 32]);
    assert_eq!(bytes, vec![0xffu8; 4]);
}

#[test]
fn different_solutions_differ_on_the_wire() {
    let mut other = SOLUTION;
    other[31] = 128006;
    assert_ne!(compress_indices(96, 5, &SOLUTION), compress_indices(96, 5, &other));
}
