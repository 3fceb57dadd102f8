//! The CPU search: how the nonces are shared out among threads, and what one
//! thread does between two looks at the stop flag.
use vstd::arithmetic::power2::*;
use vstd::prelude::*;

use crate::pow;
use crate::pow::Solved;
use crate::uint;
use crate::uint::U256;

verus! {

/// A solved puzzle, and the epoch that it belongs to.
#[derive(Clone, Copy, Debug, PartialEq, Eq)]
pub struct Solution {
    pub solved: Solved,
    pub epoch: u64,
}

/// How many nonces a thread tries before it adds them to the shared counter
/// and looks at the stop flag.
pub const FLUSH_INTERVAL: u64 = 0x4000;

/// What one thread searches, and the nonce that it tries next.
#[derive(Clone, Copy, Debug)]
pub struct Worker {
    challenge: [u8; 32],
    difficulty: U256,
    epoch: u64,
    nonce: U256,
    stride: U256,
}

/// The contents of a `Worker`.
pub struct WorkerView {
    pub challenge: Seq<u8>,
    pub difficulty: nat,
    pub epoch: u64,
    pub nonce: nat,
    pub stride: nat,
}

impl View for Worker {
    type V = WorkerView;

    closed spec fn view(&self) -> WorkerView {
        WorkerView {
            challenge: self.challenge@,
            difficulty: self.difficulty@,
            epoch: self.epoch,
            nonce: self.nonce@,
            stride: self.stride@,
        }
    }
}

impl WorkerView {
    /// The nonce that comes `k` tries after the next one, counted modulo 2 to
    /// the 256.
    pub open spec fn nth(self, k: nat) -> nat {
        (self.nonce + k * self.stride) % uint::u256_modulus()
    }

    /// Whether the nonce that comes `k` tries after the next one is a solution.
    pub open spec fn hit(self, k: nat) -> bool {
        pow::solves(self.challenge, self.nth(k), self.difficulty)
    }

    /// The worker once `k` nonces are behind it.
    pub open spec fn skip(self, k: nat) -> WorkerView {
        WorkerView { nonce: self.nth(k), ..self }
    }

    /// Whether `solution` is the nonce that comes `k` tries after the next one,
    /// as a solution of what this worker searches.
    pub open spec fn finds(self, k: nat, solution: Solution) -> bool {
        &&& self.hit(k)
        &&& solution.solved@ == (pow::SolvedView {
            challenge: self.challenge,
            nonce: self.nth(k),
            difficulty: self.difficulty,
        })
        &&& solution.epoch == self.epoch
    }
}

/// How a scan goes that takes a worker from `start` to `end`: the first nonce
/// of `FLUSH_INTERVAL` that solves the challenge is reported, with the number of
/// those before it.
pub open spec fn scan_goes(start: WorkerView, end: WorkerView, r: ScanResult) -> bool {
    match r {
        ScanResult::Found { solution, attempts } => {
            &&& attempts < FLUSH_INTERVAL
            &&& end == start.skip(attempts as nat)
            &&& start.finds(attempts as nat, solution)
            &&& forall|j: nat| j < attempts ==> !start.hit(j)
        },
        ScanResult::Exhausted { attempts } => {
            &&& attempts == FLUSH_INTERVAL
            &&& end == start.skip(FLUSH_INTERVAL as nat)
            &&& forall|j: nat| j < FLUSH_INTERVAL ==> !start.hit(j)
        },
    }
}

/// What a thread has to report when it comes up for air.
#[derive(Clone, Copy, Debug, PartialEq, Eq)]
pub enum ScanResult {
    /// A solution, and the number of nonces that failed since the last report.
    Found { solution: Solution, attempts: u64 },
    /// No solution among this many nonces.
    Exhausted { attempts: u64 },
}

/// The worker that thread `tid` of `num_threads` starts with.
pub open spec fn first_worker(
    challenge: Seq<u8>,
    difficulty: nat,
    epoch: u64,
    start_nonce: nat,
    tid: nat,
    num_threads: nat,
) -> WorkerView {
    WorkerView {
        challenge,
        difficulty,
        epoch,
        nonce: (start_nonce + tid) % uint::u256_modulus(),
        stride: num_threads,
    }
}

/// One worker for each thread: thread `tid` begins at `start_nonce + tid` and
/// goes on in steps of the number of threads.
pub fn plan_workers(
    challenge: &[u8; 32],
    difficulty: &U256,
    epoch: u64,
    start_nonce: &U256,
    num_threads: usize,
) -> (workers: Vec<Worker>)
    ensures
        workers@.len() == num_threads,
        forall|tid: int|
            0 <= tid < num_threads ==> (#[trigger] workers@[tid])@ == first_worker(
                challenge@,
                difficulty@,
                epoch,
                start_nonce@,
                tid as nat,
                num_threads as nat,
            ),
{
    let stride: U256 = U256::from_u64(num_threads as u64);
    let mut workers: Vec<Worker> = Vec::new();
    let mut tid: usize = 0;
    while tid < num_threads
        invariant
            tid <= num_threads,
            stride@ == num_threads,
            workers@.len() == tid,
            forall|t: int|
                0 <= t < tid ==> (#[trigger] workers@[t])@ == first_worker(
                    challenge@,
                    difficulty@,
                    epoch,
                    start_nonce@,
                    t as nat,
                    num_threads as nat,
                ),
        decreases num_threads - tid,
    {
        let nonce: U256 = start_nonce.wrapping_add(&U256::from_u64(tid as u64));
        workers.push(
            Worker { challenge: *challenge, difficulty: *difficulty, epoch, nonce, stride },
        );
        tid += 1;
    }
    workers
}

impl Worker {
    /// Takes in what the check of the next nonce gave. A solved puzzle is handed
    /// out with the epoch; if there is none, the worker moves on by one stride.
    pub fn attempt(&mut self, checked: Option<Solved>) -> (found: Option<Solution>)
        ensures
            match checked {
                Some(solved) => {
                    &&& final(self)@ == old(self)@
                    &&& found == Some(Solution { solved, epoch: old(self)@.epoch })
                },
                None => {
                    &&& final(self)@ == old(self)@.skip(1)
                    &&& found is None
                },
            },
    {
        match checked {
            Some(solved) => Some(Solution { solved, epoch: self.epoch }),
            None => {
                self.nonce = self.nonce.wrapping_add(&self.stride);
                None
            },
        }
    }

    /// Tries nonces until one solves the challenge, at most `FLUSH_INTERVAL` of
    /// them. The first that does is reported, with the number that did not.
    pub fn scan(&mut self) -> (r: ScanResult)
        ensures
            scan_goes(old(self)@, final(self)@, r),
    {
        let ghost start = self@;
        let mut attempts: u64 = 0;
        proof {
            U256::law_value(self.nonce, self.nonce);
            assert(start.skip(0) == start);
        }
        while attempts < FLUSH_INTERVAL
            invariant
                attempts <= FLUSH_INTERVAL,
                start == old(self)@,
                self@ == start.skip(attempts as nat),
                forall|j: nat| j < attempts ==> !start.hit(j),
            decreases FLUSH_INTERVAL - attempts,
        {
            let checked: Option<Solved> = Solved::check(
                &self.challenge,
                &self.nonce,
                &self.difficulty,
            );
            assert(checked is Some == start.hit(attempts as nat));
            proof {
                law_skips_add_up(start, attempts as nat, 1);
            }
            match self.attempt(checked) {
                Some(solution) => {
                    return ScanResult::Found { solution, attempts };
                },
                None => {
                    attempts += 1;
                },
            }
        }
        ScanResult::Exhausted { attempts }
    }
}

/// What a thread does once a scan is over.
#[derive(Clone, Copy, Debug, PartialEq, Eq)]
pub enum ThreadStep {
    /// Hand the solution over, call the other threads off, count these attempts
    /// and leave.
    Deliver { solution: Solution, attempts: u64 },
    /// Count these attempts and leave.
    Leave { attempts: u64 },
    /// Count these attempts and scan on.
    GoOn { attempts: u64 },
}

/// A thread leaves once it has a solution, or once `stop`, the stop flag as it
/// reads after a scan that came to nothing, is set. A solution is handed over
/// whatever the flag says.
pub fn after_scan(r: ScanResult, stop: bool) -> (next: ThreadStep)
    ensures
        next == match r {
            ScanResult::Found { solution, attempts } => ThreadStep::Deliver { solution, attempts },
            ScanResult::Exhausted { attempts } => if stop {
                ThreadStep::Leave { attempts }
            } else {
                ThreadStep::GoOn { attempts }
            },
        },
{
    match r {
        ScanResult::Found { solution, attempts } => ThreadStep::Deliver { solution, attempts },
        ScanResult::Exhausted { attempts } => {
            if stop {
                ThreadStep::Leave { attempts }
            } else {
                ThreadStep::GoOn { attempts }
            }
        },
    }
}

/// Going past `j` nonces and then past `k` more is going past `j + k`.
pub proof fn law_skips_add_up(w: WorkerView, j: nat, k: nat)
    ensures
        w.skip(j).skip(k) == w.skip(j + k),
        w.skip(j).nth(k) == w.nth(j + k),
        w.skip(j).hit(k) == w.hit(j + k),
{
    let m = uint::u256_modulus() as int;
    vstd::arithmetic::div_mod::lemma_add_mod_noop(
        (w.nonce + j * w.stride) as int,
        (k * w.stride) as int,
        m,
    );
    vstd::arithmetic::div_mod::lemma_add_mod_noop(
        w.nth(j) as int,
        (k * w.stride) as int,
        m,
    );
    assert((j + k) * w.stride == j * w.stride + k * w.stride) by (nonlinear_arith);
    assert(w.nth(j) % (m as nat) == w.nth(j));
}

/// The worker as its scan number `c` finds it, if the scans before came to
/// nothing.
pub open spec fn before_scan(w: WorkerView, c: nat) -> WorkerView {
    w.skip(c * FLUSH_INTERVAL as nat)
}

/// When `c` scans came to nothing and the next one reports a solution after
/// `k` attempts, the reported attempts add up to the number of nonces that the
/// worker tried in vain, and the solution is the first in its path.
pub proof fn law_first_solution_is_reported(w: WorkerView, c: nat, k: nat)
    requires
        forall|i: nat, j: nat|
            i < c && j < FLUSH_INTERVAL ==> !(#[trigger] before_scan(w, i).hit(j)),
        k < FLUSH_INTERVAL,
        forall|j: nat| j < k ==> !before_scan(w, c).hit(j),
        before_scan(w, c).hit(k),
    ensures
        w.hit(c * FLUSH_INTERVAL as nat + k),
        before_scan(w, c).nth(k) == w.nth(c * FLUSH_INTERVAL as nat + k),
        forall|n: nat| n < c * FLUSH_INTERVAL as nat + k ==> !w.hit(n),
{
    let f = FLUSH_INTERVAL as nat;
    law_skips_add_up(w, c * f, k);
    assert forall|n: nat| n < c * f + k implies !w.hit(n) by {
        let (i, j) = (n / f, n % f);
        assert(i <= c);
        law_skips_add_up(w, i * f, j);
        assert(w.hit(n) == before_scan(w, i).hit(j));
    }
}

/// Every nonce has its turn: the one at distance `n` from the start is tried by
/// thread `n` modulo the number of threads, after `n` divided by that number.
pub proof fn law_every_nonce_is_tried(
    challenge: Seq<u8>,
    difficulty: nat,
    epoch: u64,
    start_nonce: nat,
    num_threads: nat,
    n: nat,
)
    requires
        num_threads > 0,
    ensures
        n % num_threads < num_threads,
        first_worker(
            challenge,
            difficulty,
            epoch,
            start_nonce,
            n % num_threads,
            num_threads,
        ).nth(n / num_threads) == (start_nonce + n) % uint::u256_modulus(),
{
    let m = uint::u256_modulus() as int;
    let (t, k) = (n % num_threads, n / num_threads);
    vstd::arithmetic::div_mod::lemma_fundamental_div_mod(n as int, num_threads as int);
    assert(k * num_threads == num_threads * k) by (nonlinear_arith);
    vstd::arithmetic::div_mod::lemma_add_mod_noop(
        (start_nonce + t) as int,
        (k * num_threads) as int,
        m,
    );
    let first = (start_nonce + t) % (m as nat);
    vstd::arithmetic::div_mod::lemma_add_mod_noop(first as int, (k * num_threads) as int, m);
    assert(first % (m as nat) == first);
}

/// No nonce is tried twice: two turns, of one thread or of two, try different
/// nonces as long as neither is 2 to the 256 or more away from the start.
pub proof fn law_no_nonce_is_tried_twice(
    challenge: Seq<u8>,
    difficulty: nat,
    epoch: u64,
    start_nonce: nat,
    num_threads: nat,
    t1: nat,
    k1: nat,
    t2: nat,
    k2: nat,
)
    requires
        t1 < num_threads,
        t2 < num_threads,
        t1 + k1 * num_threads < uint::u256_modulus(),
        t2 + k2 * num_threads < uint::u256_modulus(),
        first_worker(challenge, difficulty, epoch, start_nonce, t1, num_threads).nth(k1)
            == first_worker(challenge, difficulty, epoch, start_nonce, t2, num_threads).nth(k2),
    ensures
        t1 == t2,
        k1 == k2,
{
    let m = uint::u256_modulus() as int;
    let d = num_threads as int;
    let n1 = t1 + k1 * num_threads;
    let n2 = t2 + k2 * num_threads;
    vstd::arithmetic::div_mod::lemma_fundamental_div_mod_converse(
        n1 as int,
        d,
        k1 as int,
        t1 as int,
    );
    vstd::arithmetic::div_mod::lemma_fundamental_div_mod_converse(
        n2 as int,
        d,
        k2 as int,
        t2 as int,
    );
    law_every_nonce_is_tried(challenge, difficulty, epoch, start_nonce, num_threads, n1);
    law_every_nonce_is_tried(challenge, difficulty, epoch, start_nonce, num_threads, n2);
    assert((start_nonce + n1) % (m as nat) == (start_nonce + n2) % (m as nat));
    if n1 < n2 {
        lemma_same_residue(start_nonce + n1, start_nonce + n2, m as nat);
    } else if n2 < n1 {
        lemma_same_residue(start_nonce + n2, start_nonce + n1, m as nat);
    }
}

/// Two numbers less than `m` apart with one remainder modulo `m` are equal.
pub(crate) proof fn lemma_same_residue(a: nat, b: nat, m: nat)
    requires
        m > 0,
        a <= b < a + m,
        a % m == b % m,
    ensures
        a == b,
{
    vstd::arithmetic::div_mod::lemma_fundamental_div_mod(a as int, m as int);
    vstd::arithmetic::div_mod::lemma_fundamental_div_mod(b as int, m as int);
    let (qa, qb) = (a as int / m as int, b as int / m as int);
    assert(b - a == m * (qb - qa)) by (nonlinear_arith)
        requires
            a == m * qa + a % m,
            b == m * qb + b % m,
            a % m == b % m,
    ;
    assert(qb - qa == 0) by (nonlinear_arith)
        requires
            0 <= m * (qb - qa) < m,
            m > 0,
    ;
}

/// The first solution to arrive stays; a later one changes nothing.
pub fn keep_first<T>(slot: &mut Option<T>, found: T)
    ensures
        *final(slot) == if *old(slot) is Some {
            *old(slot)
        } else {
            Some(found)
        },
{
    if slot.is_none() {
        *slot = Some(found);
    }
}

/// What an empty slot holds once `arrivals` have come in one after the other.
pub open spec fn slot_after<T>(arrivals: Seq<T>) -> Option<T>
    decreases arrivals.len(),
{
    if arrivals.len() == 0 {
        None
    } else if slot_after(arrivals.drop_last()) is Some {
        slot_after(arrivals.drop_last())
    } else {
        Some(arrivals.last())
    }
}

/// However many threads come in with a solution, and in whatever order, the
/// first one's is kept; nothing is kept only if none comes in.
pub proof fn law_first_arrival_is_kept<T>(arrivals: Seq<T>)
    ensures
        slot_after(arrivals) == if arrivals.len() == 0 {
            None
        } else {
            Some(arrivals[0])
        },
    decreases arrivals.len(),
{
    if arrivals.len() > 0 {
        law_first_arrival_is_kept(arrivals.drop_last());
    }
}

/// What a scan reports is what there is. Its nonces are the worker's nonce and
/// what comes after it in steps of the stride, modulo 2 to the 256, and of the
/// first 16384 it reports the first that solves the challenge. It comes back
/// with none only where not one of them does. The worker then stands at the
/// nonce that it found, or at the first that it has not tried.
pub proof fn law_scan_misses_nothing(start: WorkerView, end: WorkerView, r: ScanResult)
    requires
        scan_goes(start, end, r),
    ensures
        ({
            let (c, d, n, s, m) = (
                start.challenge,
                start.difficulty,
                start.nonce,
                start.stride,
                pow2(256),
            );
            match r {
                ScanResult::Found { solution, attempts } => {
                    &&& attempts < 16384
                    &&& solution.solved@.nonce == (n + attempts as nat * s) % m
                    &&& solution.solved@.challenge == c
                    &&& solution.solved@.difficulty == d
                    &&& solution.epoch == start.epoch
                    &&& pow::solves(c, (n + attempts as nat * s) % m, d)
                    &&& forall|j: nat|
                        j < attempts ==> !pow::solves(c, #[trigger] ((n + j * s) % m), d)
                    &&& end.nonce == solution.solved@.nonce
                },
                ScanResult::Exhausted { attempts } => {
                    &&& attempts == 16384
                    &&& forall|j: nat|
                        j < 16384 ==> !pow::solves(c, #[trigger] ((n + j * s) % m), d)
                    &&& end.nonce == (n + 16384 * s) % m
                },
            }
        }),
        end.challenge == start.challenge,
        end.difficulty == start.difficulty,
        end.epoch == start.epoch,
        end.stride == start.stride,
{
    uint::law_widths();
    assert forall|j: nat| start.hit(j) == pow::solves(
        start.challenge,
        #[trigger] ((start.nonce + j * start.stride) % pow2(256)),
        start.difficulty,
    ) by {}
}

/// A scan has only one way to go: what it reports, and where the worker then
/// stands, follow from the worker.
pub proof fn law_scan_is_determined(
    start: WorkerView,
    end1: WorkerView,
    r1: ScanResult,
    end2: WorkerView,
    r2: ScanResult,
)
    requires
        scan_goes(start, end1, r1),
        scan_goes(start, end2, r2),
    ensures
        end1 == end2,
        r1 is Found <==> r2 is Found,
        r1 matches ScanResult::Found { solution: s1, attempts: a1 } ==> (
        r2 matches ScanResult::Found { solution: s2, attempts: a2 } && s1.solved@ == s2.solved@
            && s1.epoch == s2.epoch && a1 == a2),
{
    match (r1, r2) {
        (
            ScanResult::Found { solution: s1, attempts: a1 },
            ScanResult::Found { solution: s2, attempts: a2 },
        ) => {
            assert(start.hit(a1 as nat) && start.hit(a2 as nat));
        },
        (ScanResult::Found { attempts, .. }, ScanResult::Exhausted { .. }) => {
            assert(start.hit(attempts as nat));
        },
        (ScanResult::Exhausted { .. }, ScanResult::Found { attempts, .. }) => {
            assert(start.hit(attempts as nat));
        },
        _ => {},
    }
}

/// Going past `k` nonces adds the stride `k` times to the nonce, modulo 2 to the
/// 256, and changes nothing else.
pub proof fn law_skip(w: WorkerView, k: nat)
    ensures
        w.skip(k).nonce == (w.nonce + k * w.stride) % pow2(256),
        w.skip(k).challenge == w.challenge,
        w.skip(k).difficulty == w.difficulty,
        w.skip(k).epoch == w.epoch,
        w.skip(k).stride == w.stride,
{
    uint::law_widths();
}

/// Each thread searches the puzzle that was asked for, and its nonce number `k`
/// lies `tid + k * num_threads` above the start.
pub proof fn law_first_worker(
    challenge: Seq<u8>,
    difficulty: nat,
    epoch: u64,
    start_nonce: nat,
    tid: nat,
    num_threads: nat,
    k: nat,
)
    ensures
        ({
            let w = first_worker(challenge, difficulty, epoch, start_nonce, tid, num_threads);
            &&& w.challenge == challenge
            &&& w.difficulty == difficulty
            &&& w.epoch == epoch
            &&& (w.nonce + k * w.stride) % pow2(256) == (start_nonce + tid + k * num_threads)
                % pow2(256)
        }),
{
    uint::law_widths();
    vstd::arithmetic::div_mod::lemma_add_mod_noop(
        (start_nonce + tid) as int,
        (k * num_threads) as int,
        pow2(256) as int,
    );
    let w = first_worker(challenge, difficulty, epoch, start_nonce, tid, num_threads);
    vstd::arithmetic::div_mod::lemma_add_mod_noop(
        w.nonce as int,
        (k * num_threads) as int,
        pow2(256) as int,
    );
    assert(w.nonce % pow2(256) == w.nonce);
}

/// One scan after another leaves no gap: where one that found nothing ends, the
/// next one starts, 16384 strides further on.
pub proof fn law_scans_adjoin(w: WorkerView, c: nat, r: ScanResult, end: WorkerView)
    requires
        scan_goes(before_scan(w, c), end, r),
        r is Exhausted,
    ensures
        end == before_scan(w, c + 1),
        before_scan(w, c).nonce == (w.nonce + c * 16384 * w.stride) % pow2(256),
{
    uint::law_widths();
    law_skips_add_up(w, c * FLUSH_INTERVAL as nat, FLUSH_INTERVAL as nat);
}

/// A try is a hit exactly where its nonce, the stride added `k` times modulo 2
/// to the 256, solves the challenge.
pub proof fn law_hit(w: WorkerView, k: nat)
    ensures
        w.hit(k) <==> pow::solves(
            w.challenge,
            (w.nonce + k * w.stride) % pow2(256),
            w.difficulty,
        ),
{
    uint::law_widths();
}

} // verus!
