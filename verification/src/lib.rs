//! The logic of a proof-of-work miner for the HASH token: the puzzle, the
//! search for solutions on CPU threads and on GPUs, the wallets' keys, and the
//! life of a wallet's miner from one round to the next.
//!
//! Everything here is a function of plain values. Networks, devices, threads
//! and the environment are driven from outside, by the actions that the
//! functions here return.
pub mod bytes;
pub mod chain;
pub mod gpu;
pub mod keys;
pub mod pow;
pub mod session;
pub mod settings;
pub mod text;
pub mod uint;
pub mod watchdog;
pub mod worker;
