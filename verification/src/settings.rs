//! What is settled before any wallet starts: threads, GPUs, and who gets which.
use vstd::prelude::*;

use crate::text;

verus! {

/// The endpoint that is used where none is configured.
pub const DEFAULT_RPC_URL: &'static str = "https://eth.llamarpc.com";

/// Calls `num_cpus::get`. Claimed of it: the number is at least 1, as its
/// documentation says. Which number it is depends on the machine.
#[verifier::external_body]
fn cpu_count() -> (n: usize)
    ensures
        n >= 1,
{
    num_cpus::get()
}

/// The number in a variable, if it is set and holds one that fits in a `usize`.
pub open spec fn usize_setting(var: Option<String>) -> Option<nat> {
    match var {
        Some(s) => text::parsed(s@, usize::MAX as nat),
        None => None,
    }
}

/// The number in a variable, if it is set and holds one.
pub fn read_usize(var: &Option<String>) -> (r: Option<usize>)
    ensures
        match r {
            Some(n) => usize_setting(*var) == Some(n as nat),
            None => usize_setting(*var) is None,
        },
{
    match var {
        Some(s) => text::parse_usize(s.as_str()),
        None => None,
    }
}

/// The number in a variable, if it is set and holds one.
pub fn read_u64(var: &Option<String>) -> (r: Option<u64>)
    ensures
        match r {
            Some(n) => *var matches Some(s) && text::parsed(s@, u64::MAX as nat) == Some(n as nat),
            None => *var matches Some(s) ==> text::parsed(s@, u64::MAX as nat) is None,
        },
{
    match var {
        Some(s) => text::parse_u64(s.as_str()),
        None => None,
    }
}

/// The number of CPU threads: what was asked for, or all CPUs but one, and at
/// least one.
pub fn threads_for(asked: Option<usize>, cpus: usize) -> (n: usize)
    ensures
        n == match asked {
            Some(a) => a as int,
            None => if cpus >= 2 {
                cpus - 1
            } else {
                1
            },
        },
{
    match asked {
        Some(a) => a,
        None => if cpus >= 2 {
            cpus - 1
        } else {
            1
        },
    }
}

/// The number of CPU threads, given the variable `MINER_THREADS`.
pub fn thread_count(var: &Option<String>) -> (n: usize)
    ensures
        match usize_setting(*var) {
            Some(asked) => n == asked,
            None => n >= 1,
        },
{
    threads_for(read_usize(var), cpu_count())
}

/// The endpoint, given the variable `RPC_URL`.
pub fn rpc_url(var: Option<String>) -> (url: String)
    ensures
        url@ == match var {
            Some(s) => s@,
            None => DEFAULT_RPC_URL@,
        },
{
    match var {
        Some(s) => s,
        None => DEFAULT_RPC_URL.to_owned(),
    }
}

/// Whether mining may start: only a contract that says that its genesis is not
/// complete keeps it from starting. `None` stands for no answer.
pub fn may_start(genesis_complete: Option<bool>) -> (r: bool)
    ensures
        r == (genesis_complete != Some(false)),
{
    match genesis_complete {
        Some(complete) => complete,
        None => true,
    }
}

/// The GPU of wallet number `i`, counted from 0. `None` stands for no GPU in
/// particular.
pub open spec fn assigned_gpu(num_wallets: nat, total_gpus: nat, i: nat) -> Option<usize> {
    if total_gpus == 0 || num_wallets == 1 {
        None
    } else {
        Some((i % total_gpus) as usize)
    }
}

/// Assigns GPUs to wallets. A single wallet gets all of them; otherwise each
/// wallet gets one, in turn.
pub fn assign_gpus(num_wallets: usize, total_gpus: usize) -> (r: Vec<Option<usize>>)
    ensures
        r@.len() == num_wallets,
        forall|i: int|
            0 <= i < num_wallets ==> #[trigger] r@[i] == assigned_gpu(
                num_wallets as nat,
                total_gpus as nat,
                i as nat,
            ),
        num_wallets == 1 ==> r@[0] is None,
{
    let mut r: Vec<Option<usize>> = Vec::new();
    let mut i: usize = 0;
    while i < num_wallets
        invariant
            i <= num_wallets,
            r@.len() == i,
            forall|j: int|
                0 <= j < i ==> #[trigger] r@[j] == assigned_gpu(
                    num_wallets as nat,
                    total_gpus as nat,
                    j as nat,
                ),
        decreases num_wallets - i,
    {
        if total_gpus == 0 || num_wallets == 1 {
            r.push(None);
        } else {
            r.push(Some(i % total_gpus));
        }
        i += 1;
    }
    r
}

/// A wallet is only ever assigned a GPU that is there. With several wallets,
/// those that share a GPU are the ones whose numbers agree modulo the number of
/// GPUs; so none share one where there are enough GPUs.
pub proof fn law_gpu_sharing(num_wallets: nat, total_gpus: nat, i: nat, j: nat)
    requires
        i < num_wallets,
        j < num_wallets,
        num_wallets <= usize::MAX,
        0 < total_gpus <= usize::MAX,
        num_wallets != 1,
    ensures
        assigned_gpu(num_wallets, total_gpus, i) matches Some(g) && g < total_gpus,
        assigned_gpu(num_wallets, total_gpus, i) == assigned_gpu(num_wallets, total_gpus, j)
            <==> i % total_gpus == j % total_gpus,
        num_wallets <= total_gpus && i != j ==> assigned_gpu(num_wallets, total_gpus, i)
            != assigned_gpu(num_wallets, total_gpus, j),
        num_wallets <= total_gpus ==> assigned_gpu(num_wallets, total_gpus, i) == Some(i as usize),
{
    assert(i % total_gpus < total_gpus);
    assert(j % total_gpus < total_gpus);
    if num_wallets <= total_gpus {
        vstd::arithmetic::div_mod::lemma_small_mod(i, total_gpus);
        vstd::arithmetic::div_mod::lemma_small_mod(j, total_gpus);
    }
}

/// With at least as many wallets as GPUs, and more than one wallet, no GPU is
/// left idle.
pub proof fn law_no_gpu_is_idle(num_wallets: nat, total_gpus: nat, gpu: nat)
    requires
        gpu < total_gpus <= num_wallets <= usize::MAX,
        num_wallets != 1,
    ensures
        exists|i: nat|
            i < num_wallets && #[trigger] assigned_gpu(num_wallets, total_gpus, i) == Some(
                gpu as usize,
            ),
{
    vstd::arithmetic::div_mod::lemma_small_mod(gpu, total_gpus);
    assert(assigned_gpu(num_wallets, total_gpus, gpu) == Some(gpu as usize));
}

/// Whether a wallet should try to mine on GPUs. They are off unless the
/// variable `GPU` is set to 1, whether or not the wallet has been assigned one.
pub fn wants_gpu(gpu_var: &Option<String>) -> (r: bool)
    ensures
        r == (*gpu_var matches Some(s) && s@ == seq!['1']),
{
    match gpu_var {
        Some(s) => {
            let is_one: bool = s.as_str().unicode_len() == 1 && s.as_str().get_char(0) == '1';
            proof {
                if is_one {
                    assert(s@ =~= seq!['1']);
                }
            }
            is_one
        },
        None => false,
    }
}

/// The devices that a wallet mines on: the one that it has been assigned, or
/// all.
pub fn gpu_selection(gpu_index: Option<usize>) -> (r: Option<Vec<usize>>)
    ensures
        match gpu_index {
            Some(i) => r matches Some(v) && v@ == seq![i],
            None => r is None,
        },
{
    match gpu_index {
        Some(i) => {
            let mut v: Vec<usize> = Vec::new();
            v.push(i);
            assert(v@ =~= seq![i]);
            Some(v)
        },
        None => None,
    }
}

/// What a wallet mines on.
#[derive(Clone, Copy, Debug, PartialEq, Eq, Structural)]
pub enum Backend {
    Gpu,
    Cpu,
}

/// A wallet mines on GPUs if it wants to, they could be set up, and they passed
/// their self-test. In all other cases it falls back to the CPU.
pub fn choose_backend(wanted: bool, set_up: bool, self_test_passed: bool) -> (r: Backend)
    ensures
        r == if wanted && set_up && self_test_passed {
            Backend::Gpu
        } else {
            Backend::Cpu
        },
{
    if wanted && set_up && self_test_passed {
        Backend::Gpu
    } else {
        Backend::Cpu
    }
}

/// What all wallets have done together.
#[derive(Clone, Copy, Debug, PartialEq, Eq, Structural)]
pub struct Totals {
    pub attempts: u64,
    pub mints: u64,
}

impl Totals {
    pub fn new() -> (r: Totals)
        ensures
            r == (Totals { attempts: 0, mints: 0 }),
    {
        Totals { attempts: 0, mints: 0 }
    }

    /// Adds what a wallet has done. `None` stands for a wallet that ended in an
    /// error: it adds nothing.
    pub fn record(&mut self, outcome: Option<(u64, u64)>)
        requires
            outcome matches Some((attempts, mints)) ==> {
                &&& old(self).attempts + attempts <= u64::MAX
                &&& old(self).mints + mints <= u64::MAX
            },
        ensures
            match outcome {
                Some((attempts, mints)) => {
                    &&& final(self).attempts == old(self).attempts + attempts
                    &&& final(self).mints == old(self).mints + mints
                },
                None => *final(self) == *old(self),
            },
    {
        if let Some((attempts, mints)) = outcome {
            self.attempts = self.attempts + attempts;
            self.mints = self.mints + mints;
        }
    }
}

/// A wallet on its own gets all GPUs, however many there are, and so does every
/// wallet where there is none.
pub proof fn law_single_wallet_gets_all(num_wallets: nat, total_gpus: nat, i: nat)
    ensures
        assigned_gpu(1, total_gpus, 0) is None,
        assigned_gpu(num_wallets, 0, i) is None,
{
}

/// Several wallets take the GPUs in turn: the first takes the first, the next
/// the next, and after the last GPU they start over.
pub proof fn law_gpus_are_taken_in_turn(num_wallets: nat, total_gpus: nat, i: nat)
    requires
        num_wallets != 1,
        0 < total_gpus <= usize::MAX,
    ensures
        i < total_gpus ==> assigned_gpu(num_wallets, total_gpus, i) == Some(i as usize),
        assigned_gpu(num_wallets, total_gpus, i + total_gpus) == assigned_gpu(
            num_wallets,
            total_gpus,
            i,
        ),
{
    if i < total_gpus {
        vstd::arithmetic::div_mod::lemma_small_mod(i, total_gpus);
    }
    vstd::arithmetic::div_mod::lemma_mod_add_multiples_vanish(i as int, total_gpus as int);
}

/// A variable holds the number `v` exactly where it is set to one or more
/// decimal digits that are worth `v`, with or without one plus sign in front,
/// and `v` fits in a `usize`.
pub proof fn law_usize_setting(var: Option<String>, v: nat)
    ensures
        usize_setting(var) == Some(v) <==> {
            &&& v <= usize::MAX
            &&& var matches Some(s) && exists|digits: Seq<char>|
                {
                    &&& digits.len() > 0
                    &&& forall|i: int| 0 <= i < digits.len() ==> '0' <= #[trigger] digits[i] <= '9'
                    &&& s@ == digits || s@ == seq!['+'] + digits
                    &&& #[trigger] text::decimal_value(digits) == v
                }
        },
{
    if let Some(s) = var {
        text::law_parsed(s@, usize::MAX as nat, v);
    }
}

} // verus!
