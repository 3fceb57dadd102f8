# hash_miner

A miner for the HASH token. A nonce solves a wallet's challenge when
`keccak256(abi.encode(challenge, nonce))`, read as a number, lies below the
contract's difficulty.

`src/` is the miner's logic, verified with Verus:

| module | what it settles |
|--------|-----------------|
| `bytes`, `uint` | numbers as bytes, and 256-bit numbers |
| `pow` | the puzzle, nonces that have been checked to solve it, and the words in which it is handed to a kernel |
| `worker` | how nonces are shared out among CPU threads, and the scan of one thread |
| `gpu` | which GPUs mine, which nonces each gets, and what their reports are worth |
| `keys` | which private keys are used, and the wallet that a key opens |
| `settings` | threads, endpoint, and which wallet gets which GPU |
| `session`, `watchdog` | what a wallet's miner does next, and when a search is called off |
| `chain`, `text` | epochs and rewards; digits, white space and prefixes |

`app/` is the program around it: environment, network, OpenCL and threads. It
reads the OpenCL source of the kernel `mine_keccak` from `keccak_kernel.cl` in
the working directory. It mines on GPUs where the variable `GPU` is set to 1.
Built with `RUSTFLAGS="--cfg cpu_only"` it needs no OpenCL and mines on the CPU
alone.

What is not proved is what the outside crates return: the Keccak digest and the
address of a key (`alloy`), the number of CPUs (`num_cpus`), and random numbers
(`rand`). Each stands behind one small function whose contract says what is
relied on.
