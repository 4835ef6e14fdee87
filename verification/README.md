# equium-cuda-miner

A CUDA miner for the Equium token, which is mined with Equihash (96, 5) on
Solana. What the miner decides and computes is a library whose behaviour is
stated in contracts and proved by Verus; a small program around it talks to the
device and to the chain.

- `src/` is the library.
  - `seed`, `gpu`, `wire`: one nonce on the device. `gpu::SolveScript` tells the
    device what to do next; `wire::compress_indices` packs a solution.
  - `validity`, `search`, `oracle`: which solutions to trust, the search of one
    round, and the self-test of a device.
  - `keys`, `submission`: accounts, and the transactions to send.
  - `session`: what to do next, and what was mined so far.
  - `text`, `labels`, `amounts`, `report`: what is printed.
- `tests/` runs the library on concrete values.
- `app/` is the program: command line, CUDA calls, RPC calls.

The program compiles the CUDA source of the kernels at startup; `--kernel` gives
its path.

## What is not proved

Calls into other crates stand behind functions marked
`#[verifier::external_body]`, each with a comment that says what is believed of
it: the verdict of `equihash` on a solution, the nonces drawn by `rand`, keys
and program addresses of `solana-sdk` and `anchor-spl`, the compute-budget
instruction of `solana-sdk`, and the digits of `hex`.
The kernels themselves and everything in `app/` are outside the proofs.
