//! The life of one wallet's miner, as a state machine: each answer of the
//! network and each outcome of a search is an event, and what to do next is an
//! action.
use vstd::arithmetic::power2::*;
use vstd::prelude::*;

use crate::chain;
use crate::gpu;
use crate::pow;
use crate::pow::Solved;
use crate::uint::U256;
use crate::worker;
use crate::worker::{ScanResult, Solution, Worker, WorkerView};
use rand::Rng;

verus! {

/// One puzzle, and the nonce that the search for it starts from.
#[derive(Clone, Copy, Debug, PartialEq, Eq)]
pub struct Round {
    pub epoch: u64,
    pub challenge: [u8; 32],
    pub difficulty: U256,
    pub start_nonce: u64,
}

impl Round {
    /// One worker for each CPU thread, all for this round.
    pub fn cpu_workers(&self, num_threads: usize) -> (workers: Vec<Worker>)
        ensures
            workers@.len() == num_threads,
            forall|tid: int|
                0 <= tid < num_threads ==> (#[trigger] workers@[tid])@ == worker::first_worker(
                    self.challenge@,
                    self.difficulty@,
                    self.epoch,
                    self.start_nonce as nat,
                    tid as nat,
                    num_threads as nat,
                ),
    {
        worker::plan_workers(
            &self.challenge,
            &self.difficulty,
            self.epoch,
            &U256::from_u64(self.start_nonce),
            num_threads,
        )
    }

    /// Whether `solution` is one of this round: what it solves is the puzzle of
    /// this round.
    pub open spec fn is_answered_by(self, solution: Solution) -> bool {
        &&& solution.solved@.challenge == self.challenge@
        &&& solution.solved@.difficulty == self.difficulty@
        &&& solution.epoch == self.epoch
    }

    /// Whether `solution` is one of this round.
    pub fn accepts(&self, solution: &Solution) -> (r: bool)
        ensures
            r == self.is_answered_by(*solution),
    {
        solution.epoch == self.epoch && solution.solved.is_for(&self.challenge, &self.difficulty)
    }
}

/// What a session is waiting for.
#[derive(Clone, Copy, Debug, PartialEq, Eq)]
pub enum Phase {
    /// Whether to shut down.
    Start,
    /// The number of the latest block.
    Block,
    /// The wallet's challenge.
    Challenge { epoch: u64 },
    /// The difficulty.
    Difficulty { epoch: u64, challenge: [u8; 32] },
    /// The outcome of the search in this round.
    Search { round: Round },
    /// Whether the solution has been sent.
    Sending,
    /// The receipt of the solution.
    Receipt,
    /// Nothing more.
    Over,
}

/// What a session is told. `None` stands for a request that failed.
#[derive(Clone, Copy, Debug, PartialEq, Eq)]
pub enum Event {
    /// Whether a shutdown has been asked for.
    Shutdown(bool),
    /// The number of the latest block.
    Block(Option<u64>),
    /// The wallet's challenge.
    Challenge(Option<[u8; 32]>),
    /// The difficulty, and a random nonce to start from.
    Difficulty { reply: Option<U256>, start_nonce: u64 },
    /// What the search of this round found, and how many nonces it tried.
    Searched { found: Option<Solution>, attempts: u64 },
    /// Whether the transaction could be sent.
    Sent(bool),
    /// The status in the receipt.
    Receipt(Option<bool>),
}

/// What a session asks for.
#[derive(Clone, Copy, Debug, PartialEq, Eq)]
pub enum Action {
    /// Ask for the number of the latest block.
    FetchBlock,
    /// Ask the contract for the wallet's challenge.
    FetchChallenge,
    /// Ask the contract for the difficulty.
    FetchDifficulty,
    /// Search for a solution.
    Search(Round),
    /// Send the nonce of this solved puzzle to the contract.
    Submit(Solved),
    /// Wait for the receipt.
    AwaitReceipt,
    /// Wait for `RETRY_SECONDS`, then look whether to shut down.
    Pause,
    /// Look whether to shut down.
    Again,
    /// Stop, with these totals.
    Finish { attempts: u64, mints: u64 },
}

/// How long to wait after a failed request.
pub const RETRY_SECONDS: u64 = 5;

/// One wallet's miner: what it has done, and what it is waiting for.
#[derive(Clone, Copy, Debug, PartialEq, Eq)]
pub struct Session {
    pub attempts: u64,
    pub mints: u64,
    pub phase: Phase,
}

impl Session {
    /// Whether `event` is what the session is waiting for.
    pub open spec fn awaits(self, event: Event) -> bool {
        match event {
            Event::Shutdown(_) => self.phase is Start,
            Event::Block(_) => self.phase is Block,
            Event::Challenge(_) => self.phase is Challenge,
            Event::Difficulty { .. } => self.phase is Difficulty,
            Event::Searched { found, .. } => self.phase matches Phase::Search { round } && (
            found matches Some(solution) ==> round.is_answered_by(solution)),
            Event::Sent(_) => self.phase is Sending,
            Event::Receipt(_) => self.phase is Receipt,
        }
    }

    /// Whether the totals after `event` can be counted in 64 bits.
    pub open spec fn has_room(self, event: Event) -> bool {
        &&& self.attempts + searched_in(event) <= u64::MAX
        &&& self.mints + minted_in(event) <= u64::MAX
    }

    /// What the session waits for after `event`.
    pub open spec fn phase_after(self, event: Event) -> Phase {
        match (self.phase, event) {
            (_, Event::Shutdown(true)) => Phase::Over,
            (_, Event::Shutdown(false)) => Phase::Block,
            (_, Event::Block(Some(block))) => Phase::Challenge {
                epoch: block / chain::EPOCH_BLOCKS,
            },
            (Phase::Challenge { epoch }, Event::Challenge(Some(challenge))) => Phase::Difficulty {
                epoch,
                challenge,
            },
            (
                Phase::Difficulty { epoch, challenge },
                Event::Difficulty { reply: Some(difficulty), start_nonce },
            ) => Phase::Search { round: Round { epoch, challenge, difficulty, start_nonce } },
            (_, Event::Searched { found: Some(_), .. }) => Phase::Sending,
            (_, Event::Sent(true)) => Phase::Receipt,
            _ => Phase::Start,
        }
    }

    /// What the session asks for after `event`.
    pub open spec fn action_after(self, event: Event) -> Action {
        match (self.phase, event) {
            (_, Event::Shutdown(true)) => Action::Finish {
                attempts: self.attempts,
                mints: self.mints,
            },
            (_, Event::Shutdown(false)) => Action::FetchBlock,
            (_, Event::Block(Some(_))) => Action::FetchChallenge,
            (_, Event::Challenge(Some(_))) => Action::FetchDifficulty,
            (
                Phase::Difficulty { epoch, challenge },
                Event::Difficulty { reply: Some(difficulty), start_nonce },
            ) => Action::Search(Round { epoch, challenge, difficulty, start_nonce }),
            (_, Event::Searched { found: Some(solution), .. }) => Action::Submit(solution.solved),
            (_, Event::Sent(true)) => Action::AwaitReceipt,
            (_, Event::Block(None)) => Action::Pause,
            (_, Event::Challenge(None)) => Action::Pause,
            (_, Event::Difficulty { reply: None, .. }) => Action::Pause,
            _ => Action::Again,
        }
    }

    /// The session after `event`.
    pub open spec fn after(self, event: Event) -> Session {
        Session {
            attempts: (self.attempts + searched_in(event)) as u64,
            mints: (self.mints + minted_in(event)) as u64,
            phase: self.phase_after(event),
        }
    }

    pub fn new() -> (r: Session)
        ensures
            r == (Session { attempts: 0, mints: 0, phase: Phase::Start }),
    {
        Session { attempts: 0, mints: 0, phase: Phase::Start }
    }

    /// Takes in an event and says what to do next.
    pub fn step(&mut self, event: Event) -> (action: Action)
        requires
            old(self).awaits(event),
            old(self).has_room(event),
        ensures
            *final(self) == old(self).after(event),
            action == old(self).action_after(event),
            event matches Event::Searched { attempts, .. } ==> final(self).attempts == old(
                self,
            ).attempts + attempts,
            action matches Action::Submit(solved) ==> (old(self).phase matches Phase::Search {
                round,
            } && pow::solves(round.challenge@, solved@.nonce, round.difficulty@)),
    {
        match event {
            Event::Shutdown(asked) => {
                if asked {
                    self.phase = Phase::Over;
                    Action::Finish { attempts: self.attempts, mints: self.mints }
                } else {
                    self.phase = Phase::Block;
                    Action::FetchBlock
                }
            },
            Event::Block(reply) => match reply {
                Some(block) => {
                    self.phase = Phase::Challenge { epoch: chain::epoch_of(block) };
                    Action::FetchChallenge
                },
                None => self.fail(),
            },
            Event::Challenge(reply) => match (self.phase, reply) {
                (Phase::Challenge { epoch }, Some(challenge)) => {
                    self.phase = Phase::Difficulty { epoch, challenge };
                    Action::FetchDifficulty
                },
                _ => self.fail(),
            },
            Event::Difficulty { reply, start_nonce } => match (self.phase, reply) {
                (Phase::Difficulty { epoch, challenge }, Some(difficulty)) => {
                    let round = Round { epoch, challenge, difficulty, start_nonce };
                    self.phase = Phase::Search { round };
                    Action::Search(round)
                },
                _ => self.fail(),
            },
            Event::Searched { found, attempts } => {
                self.attempts = self.attempts + attempts;
                match found {
                    Some(solution) => {
                        let solved: Solved = solution.solved;
                        proof {
                            use_type_invariant(&solved);
                        }
                        self.phase = Phase::Sending;
                        Action::Submit(solved)
                    },
                    None => {
                        self.phase = Phase::Start;
                        Action::Again
                    },
                }
            },
            Event::Sent(sent) => {
                if sent {
                    self.phase = Phase::Receipt;
                    Action::AwaitReceipt
                } else {
                    self.phase = Phase::Start;
                    Action::Again
                }
            },
            Event::Receipt(status) => {
                if let Some(true) = status {
                    self.mints = self.mints + 1;
                }
                self.phase = Phase::Start;
                Action::Again
            },
        }
    }

    /// Gives the round up after a failed request.
    fn fail(&mut self) -> (action: Action)
        ensures
            *final(self) == (Session { phase: Phase::Start, ..*old(self) }),
            action == Action::Pause,
    {
        self.phase = Phase::Start;
        Action::Pause
    }

    /// Takes in the difficulty, and draws the nonce that the search starts from.
    pub fn step_difficulty(&mut self, reply: Option<U256>) -> (action: Action)
        requires
            old(self).phase is Difficulty,
        ensures
            match (old(self).phase, reply) {
                (Phase::Difficulty { epoch, challenge }, Some(difficulty)) => {
                    &&& action matches Action::Search(round) && round.epoch == epoch
                        && round.challenge == challenge && round.difficulty == difficulty
                        && *final(self) == (Session { phase: Phase::Search { round }, ..*old(self) })
                },
                _ => {
                    &&& *final(self) == (Session { phase: Phase::Start, ..*old(self) })
                    &&& action == Action::Pause
                },
            },
    {
        let start_nonce: u64 = random_nonce();
        self.step(Event::Difficulty { reply, start_nonce })
    }
}

/// Calls `gen` on `rand::thread_rng()`. Nothing is claimed of the number: it is
/// drawn by chance.
#[verifier::external_body]
fn random_nonce() -> (nonce: u64) {
    rand::thread_rng().gen()
}

/// The solution that the outcome of a search on GPUs amounts to. A search that
/// failed found nothing.
pub open spec fn solution_of(found: Result<Option<Solved>, String>, epoch: u64) -> Option<
    Solution,
> {
    match found {
        Ok(Some(solved)) => Some(Solution { solved, epoch }),
        _ => None,
    }
}

/// The solution that the outcome of a search on GPUs amounts to.
pub fn gpu_solution(found: &Result<Option<Solved>, String>, epoch: u64) -> (r: Option<Solution>)
    ensures
        r == solution_of(*found, epoch),
{
    match found {
        Ok(Some(solved)) => Some(Solution { solved: *solved, epoch }),
        _ => None,
    }
}

/// How many nonces an event reports as tried.
pub open spec fn searched_in(event: Event) -> nat {
    match event {
        Event::Searched { attempts, .. } => attempts as nat,
        _ => 0,
    }
}

/// How many mints an event confirms.
pub open spec fn minted_in(event: Event) -> nat {
    match event {
        Event::Receipt(Some(true)) => 1,
        _ => 0,
    }
}

/// How many nonces a run of events reports as tried.
pub open spec fn searched_in_all(events: Seq<Event>) -> nat
    decreases events.len(),
{
    if events.len() == 0 {
        0
    } else {
        searched_in_all(events.drop_last()) + searched_in(events.last())
    }
}

/// How many mints a run of events confirms.
pub open spec fn minted_in_all(events: Seq<Event>) -> nat
    decreases events.len(),
{
    if events.len() == 0 {
        0
    } else {
        minted_in_all(events.drop_last()) + minted_in(events.last())
    }
}

/// A new session after a run of events.
pub open spec fn run(events: Seq<Event>) -> Session
    decreases events.len(),
{
    if events.len() == 0 {
        Session { attempts: 0, mints: 0, phase: Phase::Start }
    } else {
        run(events.drop_last()).after(events.last())
    }
}

/// Whether each event of a run is one that the session was waiting for.
pub open spec fn is_run(events: Seq<Event>) -> bool
    decreases events.len(),
{
    events.len() == 0 || {
        &&& is_run(events.drop_last())
        &&& run(events.drop_last()).awaits(events.last())
        &&& run(events.drop_last()).has_room(events.last())
    }
}

/// A session reports exactly the nonces that its searches tried and exactly
/// the mints that were confirmed to it.
pub proof fn law_totals(events: Seq<Event>)
    requires
        is_run(events),
    ensures
        run(events).attempts == searched_in_all(events),
        run(events).mints == minted_in_all(events),
    decreases events.len(),
{
    if events.len() > 0 {
        law_totals(events.drop_last());
    }
}

/// How many of the events in a run hand over a solution.
pub open spec fn found_in_all(events: Seq<Event>) -> nat
    decreases events.len(),
{
    if events.len() == 0 {
        0
    } else {
        found_in_all(events.drop_last()) + match events.last() {
            Event::Searched { found: Some(_), .. } => 1nat,
            _ => 0nat,
        }
    }
}

/// There are never more mints than solutions; while one is under way, fewer.
pub proof fn law_no_mint_without_solution(events: Seq<Event>)
    requires
        is_run(events),
    ensures
        minted_in_all(events) + (if run(events).phase is Sending || run(events).phase is Receipt {
            1nat
        } else {
            0nat
        }) <= found_in_all(events),
    decreases events.len(),
{
    if events.len() > 0 {
        law_no_mint_without_solution(events.drop_last());
    }
}

/// What is submitted is what the search has just handed over, and nothing else
/// is ever submitted.
pub proof fn law_submitted_nonce_was_found(session: Session, event: Event, solved: Solved)
    requires
        session.awaits(event),
    ensures
        session.action_after(event) == Action::Submit(solved) <==> (event matches Event::Searched {
            found: Some(solution),
            ..
        } && solution.solved == solved),
{
}

/// A failed request costs the round and nothing more.
pub proof fn law_failed_request(session: Session, event: Event)
    requires
        session.awaits(event),
        event == Event::Block(None) || event == Event::Challenge(None) || (
        event matches Event::Difficulty { reply: None, .. }),
    ensures
        session.after(event) == (Session { phase: Phase::Start, ..session }),
        session.action_after(event) == Action::Pause,
{
}

/// A session ends on a shutdown and at no other time, with the totals that it
/// had.
pub proof fn law_ends_on_shutdown(session: Session, event: Event)
    requires
        session.awaits(event),
    ensures
        session.after(event).phase is Over <==> event == Event::Shutdown(true),
        session.action_after(event) is Finish <==> event == Event::Shutdown(true),
        event == Event::Shutdown(true) ==> session.action_after(event) == (Action::Finish {
            attempts: session.attempts,
            mints: session.mints,
        }),
{
}

/// The puzzle that is searched is made of the answers of this round: the epoch
/// of the block, the challenge, and the difficulty.
pub proof fn law_round_is_made_of_answers(
    session: Session,
    block: u64,
    challenge: [u8; 32],
    difficulty: U256,
    start_nonce: u64,
)
    requires
        session.phase is Block,
    ensures
        ({
            let s1 = session.after(Event::Block(Some(block)));
            let s2 = s1.after(Event::Challenge(Some(challenge)));
            s1.awaits(Event::Challenge(Some(challenge))) && s2.awaits(
                Event::Difficulty { reply: Some(difficulty), start_nonce },
            ) && s2.action_after(Event::Difficulty { reply: Some(difficulty), start_nonce })
                == Action::Search(
                Round { epoch: block / chain::EPOCH_BLOCKS, challenge, difficulty, start_nonce },
            )
        }),
{
}

/// A search that ends without a solution, for whatever reason, submits nothing:
/// the round is over.
pub proof fn law_no_solution_no_submission(session: Session, attempts: u64)
    requires
        session.phase is Search,
    ensures
        session.action_after(Event::Searched { found: None, attempts }) == Action::Again,
        session.after(Event::Searched { found: None, attempts }).phase is Start,
{
}

/// The worker that thread `tid` of `num_threads` has before its scan number `c`
/// for `round`.
pub open spec fn thread_at(round: Round, tid: nat, num_threads: nat, c: nat) -> WorkerView {
    worker::before_scan(
        worker::first_worker(
            round.challenge@,
            round.difficulty@,
            round.epoch,
            round.start_nonce as nat,
            tid,
            num_threads,
        ),
        c,
    )
}

/// The search that GPU number `i` of `miner` has before its batch number `c` for
/// `round`.
pub open spec fn gpu_at(round: Round, miner: gpu::MinerView, i: nat, c: nat) -> gpu::SearchView {
    gpu::first_search(
        miner,
        round.challenge@,
        round.difficulty@,
        round.start_nonce,
        i,
    ).skip(c)
}

/// Whether `solution` is what thread `tid` of `num_threads` finds for `round`
/// in its scan number `c`, after `k` attempts.
pub open spec fn found_by_thread(
    round: Round,
    solution: Solution,
    tid: nat,
    num_threads: nat,
    c: nat,
    k: nat,
) -> bool {
    tid < num_threads && thread_at(round, tid, num_threads, c).finds(k, solution)
}

/// Whether `solved` is what GPU number `i` of `miner` finds for `round` in its
/// batch number `c`, where the kernel leaves `report`.
pub open spec fn found_by_gpu(
    round: Round,
    solved: Solved,
    miner: gpu::MinerView,
    i: nat,
    c: nat,
    report: gpu::KernelReport,
) -> bool {
    let search = gpu_at(round, miner, i, c);
    i < miner.devices.len() && gpu::batch_ends(
        search,
        search,
        report,
        gpu::BatchOutcome::Found(solved),
    )
}

/// Whether a thread finds `solution` for `round`.
pub open spec fn found_on_cpu(round: Round, solution: Solution) -> bool {
    exists|tid: nat, num_threads: nat, c: nat, k: nat|
        found_by_thread(round, solution, tid, num_threads, c, k)
}

/// Whether a GPU finds `solved` for `round`.
pub open spec fn found_on_gpu(round: Round, solved: Solved) -> bool {
    exists|miner: gpu::MinerView, i: nat, c: nat, report: gpu::KernelReport|
        found_by_gpu(round, solved, miner, i, c, report)
}

/// Whether a thread or a GPU finds `solution` for `round`.
pub open spec fn found_in(round: Round, solution: Solution) -> bool {
    ||| found_on_cpu(round, solution)
    ||| found_on_gpu(round, solution.solved) && solution.epoch == round.epoch
}

/// What a scan of one of a round's workers reports, it has found for that
/// round.
pub proof fn law_scan_finds_for_its_round(
    round: Round,
    tid: nat,
    num_threads: nat,
    c: nat,
    end: WorkerView,
    solution: Solution,
    attempts: u64,
)
    requires
        tid < num_threads,
        worker::scan_goes(
            thread_at(round, tid, num_threads, c),
            end,
            ScanResult::Found { solution, attempts },
        ),
    ensures
        found_in(round, solution),
{
    assert(found_by_thread(round, solution, tid, num_threads, c, attempts as nat));
}

/// What the threads of a round have found together, one of them has found for
/// that round.
pub proof fn law_threads_find_for_their_round(round: Round, arrivals: Seq<Solution>)
    requires
        forall|j: int| 0 <= j < arrivals.len() ==> found_in(round, #[trigger] arrivals[j]),
    ensures
        worker::slot_after(arrivals) matches Some(solution) ==> found_in(round, solution),
{
    worker::law_first_arrival_is_kept(arrivals);
}

/// What a batch of one of a round's GPUs yields, it has found for that round.
pub proof fn law_batch_finds_for_its_round(
    round: Round,
    miner: gpu::MinerView,
    i: nat,
    c: nat,
    end: gpu::SearchView,
    report: gpu::KernelReport,
    solved: Solved,
)
    requires
        i < miner.devices.len(),
        gpu::batch_ends(
            gpu_at(round, miner, i, c),
            end,
            report,
            gpu::BatchOutcome::Found(solved),
        ),
    ensures
        found_on_gpu(round, solved),
        found_in(round, Solution { solved, epoch: round.epoch }),
{
    assert(found_by_gpu(round, solved, miner, i, c, report));
}

/// The solution that the GPUs of a round come to together, one of them has
/// found for that round.
pub proof fn law_gpus_find_for_their_round(
    round: Round,
    miner: gpu::MinerView,
    arrivals: Seq<Result<Option<Solved>, String>>,
)
    requires
        arrivals.len() == miner.devices.len(),
        forall|j: int|
            0 <= j < arrivals.len() ==> (#[trigger] arrivals[j] matches Ok(Some(solved))
                ==> found_on_gpu(round, solved)),
    ensures
        solution_of(miner.concluded(arrivals), round.epoch) matches Some(solution) ==> found_in(
            round,
            solution,
        ),
{
    if let Ok(Some(solved)) = miner.concluded(arrivals) {
        gpu::law_concluded_nonce_arrived(miner, arrivals, solved);
        let j = choose|j: int|
            0 <= j < arrivals.len() && arrivals[j] == Ok::<Option<Solved>, String>(Some(solved));
        assert(arrivals[j] == Ok::<Option<Solved>, String>(Some(solved)));
    }
}

/// A solution that was found for a round solves the puzzle of that round. The
/// session that searches this round waits for it, and submits it.
pub proof fn law_found_solution_is_submitted(
    session: Session,
    round: Round,
    solution: Solution,
    attempts: u64,
)
    requires
        session.phase == (Phase::Search { round }),
        found_in(round, solution),
    ensures
        pow::solves(round.challenge@, solution.solved@.nonce, round.difficulty@),
        solution.solved.holds(),
        session.awaits(Event::Searched { found: Some(solution), attempts }),
        session.action_after(Event::Searched { found: Some(solution), attempts })
            == Action::Submit(solution.solved),
{
}

/// The session as event number `i` of a run finds it.
pub open spec fn before(events: Seq<Event>, i: int) -> Session {
    run(events.take(i))
}

/// What event number `i` of a run makes the session ask for.
pub open spec fn action_at(events: Seq<Event>, i: int) -> Action {
    before(events, i).action_after(events[i])
}

/// The round that is searched when event number `i` of a run comes in.
pub open spec fn round_at(events: Seq<Event>, i: int) -> Round {
    before(events, i).phase->round
}

/// Whether every solution in a run is a valid value of its type.
pub open spec fn solutions_hold(events: Seq<Event>) -> bool {
    forall|i: int|
        0 <= i < events.len() ==> (#[trigger] events[i] matches Event::Searched {
            found: Some(solution),
            ..
        } ==> solution.solved.holds())
}

/// Whether `round` is made of the four events before event number `i`: no
/// shutdown was asked for, and the block, the challenge and the difficulty were
/// read.
pub open spec fn read_just_before(events: Seq<Event>, i: int, round: Round) -> bool {
    &&& 4 <= i
    &&& events[i - 4] == Event::Shutdown(false)
    &&& events[i - 3] matches Event::Block(Some(block)) && round.epoch == block
        / chain::EPOCH_BLOCKS
    &&& events[i - 2] == Event::Challenge(Some(round.challenge))
    &&& events[i - 1] == (Event::Difficulty {
        reply: Some(round.difficulty),
        start_nonce: round.start_nonce,
    })
}

/// The beginning of a run is a run, and each event is taken in by the session
/// that the events before it have led to.
proof fn lemma_beginning(events: Seq<Event>, i: int)
    requires
        is_run(events),
        0 <= i <= events.len(),
    ensures
        is_run(events.take(i)),
        i < events.len() ==> before(events, i).awaits(events[i]),
        i < events.len() ==> before(events, i + 1) == before(events, i).after(events[i]),
    decreases events.len(),
{
    if i == events.len() {
        assert(events.take(i) =~= events);
    } else {
        let front = events.drop_last();
        assert(events.take(i + 1).drop_last() =~= events.take(i));
        assert(events.take(i) =~= front.take(i));
        lemma_beginning(front, i);
        if i == front.len() {
            assert(front.take(i) =~= front);
        }
    }
}

/// A search is only ever asked for, and its outcome only ever awaited, once the
/// block, the challenge and the difficulty have been read in this order, and
/// the puzzle is made of these.
pub proof fn law_search_follows_answers(events: Seq<Event>, i: int)
    requires
        is_run(events),
        0 <= i <= events.len(),
        before(events, i).phase is Search,
    ensures
        read_just_before(events, i, round_at(events, i)),
        action_at(events, i - 1) == Action::Search(round_at(events, i)),
{
    if i >= 1 {
        lemma_beginning(events, i - 1);
        if i >= 2 {
            lemma_beginning(events, i - 2);
            if i >= 3 {
                lemma_beginning(events, i - 3);
                if i >= 4 {
                    lemma_beginning(events, i - 4);
                }
            }
        }
    }
}

/// Every nonce that is submitted solves the challenge, against the difficulty,
/// that were read in the same round.
pub proof fn law_submission_solves_its_round(events: Seq<Event>, i: int, solved: Solved)
    requires
        is_run(events),
        solutions_hold(events),
        0 <= i < events.len(),
        action_at(events, i) == Action::Submit(solved),
    ensures
        read_just_before(events, i, round_at(events, i)),
        pow::solves(
            round_at(events, i).challenge@,
            solved@.nonce,
            round_at(events, i).difficulty@,
        ),
{
    lemma_beginning(events, i);
    law_search_follows_answers(events, i);
    assert(events[i] is Searched);
}

/// A round has one search and at most one submission: whatever a search ended
/// with, what is submitted later was searched for in a round that began later.
pub proof fn law_one_submission_per_round(events: Seq<Event>, i: int, j: int)
    requires
        is_run(events),
        0 <= i < j < events.len(),
        events[i] is Searched,
        action_at(events, j) is Submit,
    ensures
        i < j - 4,
        read_just_before(events, j, round_at(events, j)),
{
    lemma_beginning(events, j);
    law_search_follows_answers(events, j);
}

/// A search adds all the nonces that it tried to the attempts, a confirmed
/// receipt adds one mint, and nothing else is counted.
pub proof fn law_step_counts(session: Session, event: Event)
    requires
        session.has_room(event),
    ensures
        session.after(event).attempts == session.attempts + (match event {
            Event::Searched { attempts, .. } => attempts as int,
            _ => 0,
        }),
        session.after(event).mints == session.mints + (if event == Event::Receipt(Some(true)) {
            1int
        } else {
            0
        }),
{
}

/// There is room for an event exactly where the totals that it leads to are
/// below 2 to the 64.
pub proof fn law_has_room(session: Session, event: Event)
    ensures
        session.has_room(event) <==> match event {
            Event::Searched { attempts, .. } => session.attempts + attempts < pow2(64),
            Event::Receipt(Some(true)) => session.mints + 1 < pow2(64),
            _ => true,
        },
{
    lemma2_to64();
}

/// In each phase one kind of event is awaited, whatever it holds; a solution has
/// to be one of the puzzle that is searched.
pub proof fn law_awaits(session: Session, event: Event)
    ensures
        match session.phase {
            Phase::Start => session.awaits(event) <==> event is Shutdown,
            Phase::Block => session.awaits(event) <==> event is Block,
            Phase::Challenge { .. } => session.awaits(event) <==> event is Challenge,
            Phase::Difficulty { .. } => session.awaits(event) <==> event is Difficulty,
            Phase::Search { round } => session.awaits(event) <==> match event {
                Event::Searched { found: Some(s), .. } => s.epoch == round.epoch
                    && s.solved@.challenge == round.challenge@ && s.solved@.difficulty
                    == round.difficulty@,
                Event::Searched { found: None, .. } => true,
                _ => false,
            },
            Phase::Sending => session.awaits(event) <==> event is Sent,
            Phase::Receipt => session.awaits(event) <==> event is Receipt,
            Phase::Over => !session.awaits(event),
        },
{
}

/// A round in which everything goes well, step by step: the block, the challenge
/// and the difficulty are asked for, the puzzle that they make up is searched,
/// what is found is submitted, and its receipt is awaited. In the end there is
/// one mint more, and the session looks again whether to shut down.
pub proof fn law_life_of_a_round(
    session: Session,
    block: u64,
    challenge: [u8; 32],
    difficulty: U256,
    start_nonce: u64,
    solution: Solution,
    attempts: u64,
)
    requires
        session.phase is Start,
    ensures
        ({
            let (e1, e2, e3) = (
                Event::Shutdown(false),
                Event::Block(Some(block)),
                Event::Challenge(Some(challenge)),
            );
            let e4 = Event::Difficulty { reply: Some(difficulty), start_nonce };
            let e5 = Event::Searched { found: Some(solution), attempts };
            let (e6, e7) = (Event::Sent(true), Event::Receipt(Some(true)));
            let round = Round { epoch: block / 100, challenge, difficulty, start_nonce };
            let s1 = session.after(e1);
            let s2 = s1.after(e2);
            let s3 = s2.after(e3);
            let s4 = s3.after(e4);
            let s5 = s4.after(e5);
            let s6 = s5.after(e6);
            &&& session.action_after(e1) == Action::FetchBlock
            &&& s1 == (Session { phase: Phase::Block, ..session })
            &&& s1.action_after(e2) == Action::FetchChallenge
            &&& s2 == (Session { phase: Phase::Challenge { epoch: block / 100 }, ..session })
            &&& s2.action_after(e3) == Action::FetchDifficulty
            &&& s3 == (Session {
                phase: Phase::Difficulty { epoch: block / 100, challenge },
                ..session
            })
            &&& s3.action_after(e4) == Action::Search(round)
            &&& s4 == (Session { phase: Phase::Search { round }, ..session })
            &&& s4.action_after(e5) == Action::Submit(solution.solved)
            &&& s5.phase is Sending
            &&& s5.action_after(e6) == Action::AwaitReceipt
            &&& s6 == (Session { phase: Phase::Receipt, ..s5 })
            &&& s6.action_after(e7) == Action::Again
            &&& s6.after(e7).phase is Start
            &&& session.attempts + attempts <= u64::MAX ==> s6.after(e7).attempts
                == session.attempts + attempts
            &&& session.mints < u64::MAX ==> s6.after(e7).mints == session.mints + 1
        }),
{
}

/// A transaction that could not be sent, that was reverted, or whose receipt did
/// not come, is no mint: the session looks again whether to shut down.
pub proof fn law_lost_submission(session: Session, event: Event)
    requires
        event == Event::Sent(false) || event == Event::Receipt(Some(false)) || event
            == Event::Receipt(None),
        session.awaits(event),
    ensures
        session.after(event) == (Session { phase: Phase::Start, ..session }),
        session.action_after(event) == Action::Again,
{
}

/// A run begins with nothing counted, and goes on by one event exactly where the
/// session that it has led to awaits that event and has room for it.
pub proof fn law_run_goes_on(events: Seq<Event>, event: Event)
    ensures
        is_run(Seq::empty()),
        run(Seq::empty()) == (Session { attempts: 0, mints: 0, phase: Phase::Start }),
        is_run(events.push(event)) <==> is_run(events) && run(events).awaits(event) && run(
            events,
        ).has_room(event),
        run(events.push(event)) == run(events).after(event),
{
    assert(events.push(event).drop_last() =~= events);
}

/// One more event adds what it reports to what a run reports: its attempts, its
/// mint, its solution.
pub proof fn law_counts_go_on(events: Seq<Event>, event: Event)
    ensures
        searched_in_all(Seq::empty()) == 0,
        minted_in_all(Seq::empty()) == 0,
        found_in_all(Seq::empty()) == 0,
        searched_in_all(events.push(event)) == searched_in_all(events) + (match event {
            Event::Searched { attempts, .. } => attempts as int,
            _ => 0,
        }),
        minted_in_all(events.push(event)) == minted_in_all(events) + (if event == Event::Receipt(
            Some(true),
        ) {
            1int
        } else {
            0
        }),
        found_in_all(events.push(event)) == found_in_all(events) + (
        if event matches Event::Searched { found: Some(_), .. } {
            1int
        } else {
            0
        }),
{
    assert(events.push(event).drop_last() =~= events);
}

/// A search on GPUs comes to a solution exactly where it found one: that one,
/// with the epoch of its round.
pub proof fn law_solution_of(found: Result<Option<Solved>, String>, epoch: u64, solution: Solution)
    ensures
        solution_of(found, epoch) == Some(solution) <==> found == Ok::<Option<Solved>, String>(
            Some(solution.solved),
        ) && solution.epoch == epoch,
{
}

/// A solution is one of a round exactly where challenge, difficulty and epoch
/// are those of the round.
pub proof fn law_is_answered_by(round: Round, solution: Solution)
    ensures
        round.is_answered_by(solution) <==> solution.epoch == round.epoch
            && solution.solved@.challenge == round.challenge@ && solution.solved@.difficulty
            == round.difficulty@,
{
}

} // verus!
