//! The GPU search: which devices take part, which nonces each of them gets,
//! and what is made of the reports of the kernels that run on them.
//!
//! The devices themselves are driven from outside. They are known here by
//! their place in the list of all devices and by their names.
use vstd::arithmetic::power;
use vstd::arithmetic::power2::*;
use vstd::prelude::*;

use crate::bytes;
use crate::pow;
use crate::pow::Solved;
use crate::uint;
use crate::uint::U256;
use crate::worker::keep_first;

verus! {

/// Nonces per dispatch where nothing else is asked for.
pub const DEFAULT_BATCH: usize = 4_194_304;

/// How many batches of nonces lie between the starts of two neighbouring GPUs.
pub const BATCHES_PER_GPU: u64 = 1_000_000;

/// The nonce that the self-test dispatches.
pub const SELF_TEST_NONCE: u64 = 12345;

/// What a kernel is launched with.
#[derive(Clone, Copy, Debug)]
pub struct KernelArgs {
    pub challenge_words: [u64; 4],
    pub difficulty_words: [u64; 4],
    pub nonce_base: u64,
    pub global_work_size: usize,
}

impl KernelArgs {
    /// Whether these are the arguments for a search of `size` nonces from
    /// `nonce_base` on.
    pub open spec fn ask_for(
        self,
        challenge: Seq<u8>,
        difficulty: nat,
        nonce_base: u64,
        size: usize,
    ) -> bool {
        &&& pow::are_challenge_words(self.challenge_words@, challenge)
        &&& pow::be_words_value(self.difficulty_words@) == difficulty
        &&& self.nonce_base == nonce_base
        &&& self.global_work_size == size
    }
}

/// What a kernel leaves in its two result buffers.
#[derive(Clone, Copy, Debug, PartialEq, Eq, Structural)]
pub struct KernelReport {
    pub flag: i32,
    pub nonce: u64,
}

/// Why a device failed its self-test.
#[derive(Debug, PartialEq, Eq)]
pub enum SelfTestError {
    /// The device could not be driven.
    Device(String),
    /// No hit was reported against the largest difficulty.
    NoHit,
    /// A hit was reported for a nonce that was not asked for.
    WrongNonce { reported: u64, expected: u64 },
    /// The digest is not below the largest difficulty.
    DigestNotBelow,
}

/// Why a set of GPUs cannot be used.
#[derive(Debug, PartialEq, Eq)]
pub enum GpuError {
    /// The devices could not be listed.
    Listing(String),
    /// There is no device.
    NoDevices,
    /// A device was asked for that is not in the list.
    BadIndex { index: usize, available: usize },
}

/// How far a self-test of all GPUs has come.
#[derive(Debug, PartialEq, Eq)]
pub enum SelfTestProgress {
    /// The device in this place is to be tested next.
    Run(usize),
    /// Every device has passed.
    Passed,
    /// A device has failed.
    Failed { gpu: usize, name: String, cause: SelfTestError },
}

struct GpuDevice {
    index: usize,
    device_name: String,
    batch_size: usize,
}

/// The GPUs that mine, in the order in which they were chosen.
pub struct GpuMiner {
    devices: Vec<GpuDevice>,
    batch_size: usize,
}

/// A device of a `GpuMiner`: its place in the list of all devices, and its name.
pub struct DeviceView {
    pub index: usize,
    pub name: Seq<char>,
}

/// The contents of a `GpuMiner`.
pub struct MinerView {
    pub devices: Seq<DeviceView>,
    pub batch_size: usize,
}

impl View for GpuMiner {
    type V = MinerView;

    closed spec fn view(&self) -> MinerView {
        MinerView {
            devices: self.devices@.map_values(
                |d: GpuDevice| DeviceView { index: d.index, name: d.device_name@ },
            ),
            batch_size: self.batch_size,
        }
    }
}

/// What a device is called: its name, or a stand-in where it cannot be read.
pub open spec fn label(name: Option<String>) -> Seq<char> {
    match name {
        Some(s) => s@,
        None => "<unknown>"@,
    }
}

/// The devices in the places `chosen` of the list `names`.
pub open spec fn chosen_devices(names: Seq<Option<String>>, chosen: Seq<usize>) -> Seq<
    DeviceView,
> {
    chosen.map_values(|i: usize| DeviceView { index: i, name: label(names[i as int]) })
}

/// All places of a list of length `n`, in order.
pub open spec fn all_places(n: nat) -> Seq<usize> {
    Seq::new(n, |i: int| i as usize)
}

/// Whether `index` is the first of `indices` that is no place of a list of
/// length `n`.
pub open spec fn first_bad_index(indices: Seq<usize>, n: nat, index: usize) -> bool {
    exists|k: int|
        #![trigger indices[k]]
        0 <= k < indices.len() && indices[k] == index && index >= n && forall|j: int|
            0 <= j < k ==> (#[trigger] indices[j]) < n
}

/// `names` with a comma and a space between neighbours.
pub open spec fn join_names(names: Seq<Seq<char>>) -> Seq<char>
    decreases names.len(),
{
    if names.len() == 0 {
        Seq::empty()
    } else if names.len() == 1 {
        names[0]
    } else {
        join_names(names.drop_last()) + ", "@ + names.last()
    }
}

impl MinerView {
    /// Whether the nonces that the GPUs start from can be counted in 64 bits
    /// from the first GPU's on.
    pub open spec fn ranges_fit(self) -> bool {
        (self.devices.len() - 1) * (self.batch_size * BATCHES_PER_GPU) <= u64::MAX
    }

    /// The nonce that GPU number `gpu` starts from.
    pub open spec fn start_of(self, start_nonce: u64, gpu: nat) -> nat {
        (start_nonce + gpu * (self.batch_size * BATCHES_PER_GPU) as nat) as nat % uint::word_base()
    }

    /// Whether a GPU that comes back with `outcome` calls the others off by
    /// setting the stop flag. A GPU on its own never does.
    pub open spec fn calls_off<T>(self, outcome: Result<Option<T>, String>) -> bool {
        self.devices.len() != 1 && (outcome matches Ok(Some(_)))
    }

    /// What the GPUs have found together, by what each of them came back with.
    pub open spec fn concluded<T>(self, arrivals: Seq<Result<Option<T>, String>>) -> Result<
        Option<T>,
        String,
    > {
        if self.devices.len() == 1 {
            arrivals[0]
        } else {
            Ok(first_found(arrivals))
        }
    }
}

impl GpuMiner {
    #[verifier::type_invariant]
    spec fn one_batch_size(self) -> bool {
        forall|i: int|
            0 <= i < self.devices@.len() ==> (#[trigger] self.devices@[i]).batch_size
                == self.batch_size
    }

    /// Sets up the GPUs that mine. `listed` is the list of all devices, each with
    /// its name where that can be read, or what went wrong.
    /// - `gpu_indices = None`: all GPUs.
    /// - `gpu_indices = Some(vec![0, 1])`: GPU 0 and GPU 1.
    pub fn new(
        batch_size: Option<usize>,
        gpu_indices: Option<Vec<usize>>,
        listed: Result<Vec<Option<String>>, String>,
    ) -> (r: Result<GpuMiner, GpuError>)
        ensures
            match listed {
                Err(message) => r == Err::<GpuMiner, GpuError>(GpuError::Listing(message)),
                Ok(names) => if names@.len() == 0 {
                    r == Err::<GpuMiner, GpuError>(GpuError::NoDevices)
                } else {
                    match gpu_indices {
                        None => r matches Ok(miner) && miner@.devices == chosen_devices(
                            names@,
                            all_places(names@.len()),
                        ),
                        Some(indices) => match r {
                            Ok(miner) => {
                                &&& forall|k: int|
                                    0 <= k < indices@.len() ==> (#[trigger] indices@[k])
                                        < names@.len()
                                &&& miner@.devices == chosen_devices(names@, indices@)
                            },
                            Err(GpuError::BadIndex { index, available }) => {
                                &&& available == names@.len()
                                &&& first_bad_index(indices@, names@.len(), index)
                            },
                            Err(_) => false,
                        },
                    }
                },
            },
            r matches Ok(miner) ==> miner@.batch_size == match batch_size {
                Some(b) => b,
                None => DEFAULT_BATCH,
            },
    {
        let batch_size: usize = match batch_size {
            Some(b) => b,
            None => DEFAULT_BATCH,
        };
        let names: Vec<Option<String>> = match listed {
            Ok(names) => names,
            Err(message) => {
                return Err(GpuError::Listing(message));
            },
        };
        if names.len() == 0 {
            return Err(GpuError::NoDevices);
        }
        let chosen: Vec<usize> = match gpu_indices {
            Some(indices) => {
                if let Some(index) = find_bad_index(&indices, names.len()) {
                    return Err(GpuError::BadIndex { index, available: names.len() });
                }
                indices
            },
            None => places(names.len()),
        };
        let mut devices: Vec<GpuDevice> = Vec::new();
        let mut k: usize = 0;
        while k < chosen.len()
            invariant
                k <= chosen@.len(),
                devices@.len() == k,
                forall|j: int| 0 <= j < chosen@.len() ==> (#[trigger] chosen@[j]) < names@.len(),
                forall|j: int|
                    0 <= j < k ==> {
                        &&& (#[trigger] devices@[j]).index == chosen@[j]
                        &&& devices@[j].device_name@ == label(names@[chosen@[j] as int])
                        &&& devices@[j].batch_size == batch_size
                    },
            decreases chosen@.len() - k,
        {
            let index: usize = chosen[k];
            let device_name: String = match &names[index] {
                Some(name) => name.clone(),
                None => "<unknown>".to_owned(),
            };
            devices.push(GpuDevice { index, device_name, batch_size });
            k += 1;
        }
        let miner = GpuMiner { devices, batch_size };
        assert(miner@.devices =~= chosen_devices(names@, chosen@));
        Ok(miner)
    }

    pub fn device_names(&self) -> (names: Vec<&str>)
        ensures
            names@.len() == self@.devices.len(),
            forall|i: int|
                0 <= i < names@.len() ==> (#[trigger] names@[i])@ == self@.devices[i].name,
    {
        let mut names: Vec<&str> = Vec::new();
        let mut i: usize = 0;
        while i < self.devices.len()
            invariant
                i <= self.devices@.len(),
                names@.len() == i,
                forall|j: int|
                    0 <= j < i ==> (#[trigger] names@[j])@ == self.devices@[j].device_name@,
            decreases self.devices@.len() - i,
        {
            names.push(self.devices[i].device_name.as_str());
            i += 1;
        }
        names
    }

    /// The place of each device in the list of all devices.
    pub fn device_indices(&self) -> (indices: Vec<usize>)
        ensures
            indices@ == self@.devices.map_values(|d: DeviceView| d.index),
    {
        let mut indices: Vec<usize> = Vec::new();
        let mut i: usize = 0;
        while i < self.devices.len()
            invariant
                i <= self.devices@.len(),
                indices@.len() == i,
                forall|j: int| 0 <= j < i ==> #[trigger] indices@[j] == self.devices@[j].index,
            decreases self.devices@.len() - i,
        {
            indices.push(self.devices[i].index);
            i += 1;
        }
        assert(indices@ =~= self@.devices.map_values(|d: DeviceView| d.index));
        indices
    }

    pub fn device_count(&self) -> (n: usize)
        ensures
            n == self@.devices.len(),
    {
        self.devices.len()
    }

    /// All device names on one line.
    pub fn device_name(&self) -> (line: String)
        ensures
            line@ == join_names(self@.devices.map_values(|d: DeviceView| d.name)),
    {
        let ghost names = self@.devices.map_values(|d: DeviceView| d.name);
        let mut line: String = String::new();
        let mut i: usize = 0;
        assert(names.take(0) =~= Seq::<Seq<char>>::empty());
        while i < self.devices.len()
            invariant
                i <= self.devices@.len(),
                names == self@.devices.map_values(|d: DeviceView| d.name),
                line@ == join_names(names.take(i as int)),
            decreases self.devices@.len() - i,
        {
            if i > 0 {
                line.append(", ");
            }
            line.append(self.devices[i].device_name.as_str());
            proof {
                assert(names[i as int] == self.devices@[i as int].device_name@);
                assert(names.take(i + 1).drop_last() =~= names.take(i as int));
                if i == 0 {
                    assert(line@ =~= names.take(1)[0]);
                }
            }
            i += 1;
        }
        assert(names.take(names.len() as int) =~= names);
        line
    }

    pub fn batch_size(&self) -> (n: usize)
        ensures
            n == self@.batch_size,
    {
        self.batch_size
    }
}

/// The first of `indices` that is no place of a list of length `n`.
fn find_bad_index(indices: &Vec<usize>, n: usize) -> (r: Option<usize>)
    ensures
        match r {
            Some(index) => first_bad_index(indices@, n as nat, index),
            None => forall|k: int| 0 <= k < indices@.len() ==> (#[trigger] indices@[k]) < n,
        },
{
    let mut k: usize = 0;
    while k < indices.len()
        invariant
            k <= indices@.len(),
            forall|j: int| 0 <= j < k ==> (#[trigger] indices@[j]) < n,
        decreases indices@.len() - k,
    {
        if indices[k] >= n {
            return Some(indices[k]);
        }
        k += 1;
    }
    None
}

/// All places of a list of length `n`, in order.
fn places(n: usize) -> (r: Vec<usize>)
    ensures
        r@ == all_places(n as nat),
{
    let mut r: Vec<usize> = Vec::new();
    let mut i: usize = 0;
    while i < n
        invariant
            i <= n,
            r@ == all_places(i as nat),
        decreases n - i,
    {
        r.push(i);
        i += 1;
        assert(r@ =~= all_places(i as nat));
    }
    r
}

/// What one GPU searches, and the nonce that its next batch starts from.
#[derive(Clone, Copy, Debug)]
pub struct DeviceSearch {
    challenge: [u8; 32],
    difficulty: U256,
    batch_size: usize,
    nonce_base: u64,
}

/// The contents of a `DeviceSearch`.
pub struct SearchView {
    pub challenge: Seq<u8>,
    pub difficulty: nat,
    pub batch_size: usize,
    pub nonce_base: u64,
}

impl View for DeviceSearch {
    type V = SearchView;

    closed spec fn view(&self) -> SearchView {
        SearchView {
            challenge: self.challenge@,
            difficulty: self.difficulty@,
            batch_size: self.batch_size,
            nonce_base: self.nonce_base,
        }
    }
}

impl SearchView {
    /// The nonce from which the batch `k` batches ahead starts, counted modulo
    /// 2 to the 64.
    pub open spec fn base_after(self, k: nat) -> nat {
        (self.nonce_base + k * self.batch_size) as nat % uint::word_base()
    }

    /// The search once `k` batches are behind it.
    pub open spec fn skip(self, k: nat) -> SearchView {
        SearchView { nonce_base: self.base_after(k) as u64, ..self }
    }

    /// What becomes of a batch with this report: a reported nonce counts only
    /// if it does solve the challenge.
    pub open spec fn outcome(self, report: KernelReport) -> BatchOutcome<u64> {
        if report.flag == 0 {
            BatchOutcome::Nothing
        } else if pow::solves(self.challenge, report.nonce as nat, self.difficulty) {
            BatchOutcome::Found(report.nonce)
        } else {
            BatchOutcome::Mismatch(report.nonce)
        }
    }
}

/// How a batch ends that takes a search from `start` to `end`, where the kernel
/// leaves `report`: with what becomes of such a batch, and with a solved puzzle
/// in place of a nonce that counts. The search moves on unless it has one.
pub open spec fn batch_ends(
    start: SearchView,
    end: SearchView,
    report: KernelReport,
    r: BatchOutcome<Solved>,
) -> bool {
    match start.outcome(report) {
        BatchOutcome::Found(nonce) => {
            &&& r matches BatchOutcome::Found(solved) && solved@ == (pow::SolvedView {
                challenge: start.challenge,
                nonce: nonce as nat,
                difficulty: start.difficulty,
            })
            &&& end == start
        },
        BatchOutcome::Mismatch(nonce) => {
            &&& r == BatchOutcome::<Solved>::Mismatch(nonce)
            &&& end == start.skip(1)
        },
        BatchOutcome::Nothing => {
            &&& r == BatchOutcome::<Solved>::Nothing
            &&& end == start.skip(1)
        },
    }
}

/// The search that GPU number `gpu` of a miner starts with.
pub open spec fn first_search(
    miner: MinerView,
    challenge: Seq<u8>,
    difficulty: nat,
    start_nonce: u64,
    gpu: nat,
) -> SearchView {
    SearchView {
        challenge,
        difficulty,
        batch_size: miner.batch_size,
        nonce_base: miner.start_of(start_nonce, gpu) as u64,
    }
}

/// What became of a batch.
#[derive(Debug, PartialEq, Eq)]
pub enum BatchOutcome<T> {
    /// The kernel reported a nonce that does solve the challenge: this one, or
    /// the one in this solved puzzle.
    Found(T),
    /// The kernel reported this nonce, and it does not solve the challenge: the
    /// search goes on with the next batch.
    Mismatch(u64),
    /// Nothing was reported: the search goes on with the next batch.
    Nothing,
}

impl DeviceSearch {
    /// The next batch to dispatch, unless the search is to stop.
    pub fn next_batch(&self, stop: bool) -> (args: Option<KernelArgs>)
        ensures
            match args {
                None => stop,
                Some(a) => !stop && a.ask_for(
                    self@.challenge,
                    self@.difficulty,
                    self@.nonce_base,
                    self@.batch_size,
                ),
            },
    {
        if stop {
            return None;
        }
        Some(
            KernelArgs {
                challenge_words: pow::split_challenge_le(&self.challenge),
                difficulty_words: pow::split_difficulty_be(&self.difficulty),
                nonce_base: self.nonce_base,
                global_work_size: self.batch_size,
            },
        )
    }

    /// How many nonces a finished batch adds to the shared counter.
    pub fn batch_attempts(&self) -> (n: u64)
        ensures
            n == self@.batch_size,
    {
        self.batch_size as u64
    }

    /// Takes in a finished batch: the nonce that was reported, if any, with the
    /// digest that it has under the challenge.
    pub fn settle(&mut self, hit: Option<(u64, [u8; 32])>) -> (r: BatchOutcome<u64>)
        ensures
            match hit {
                None => r == BatchOutcome::<u64>::Nothing,
                Some((nonce, digest)) => r == if bytes::be_value(digest@) < old(self)@.difficulty {
                    BatchOutcome::Found(nonce)
                } else {
                    BatchOutcome::Mismatch(nonce)
                },
            },
            final(self)@ == if r is Found {
                old(self)@
            } else {
                old(self)@.skip(1)
            },
    {
        let mut outcome: BatchOutcome<u64> = BatchOutcome::Nothing;
        if let Some((nonce, digest)) = hit {
            if pow::digest_below(&digest, &self.difficulty) {
                return BatchOutcome::Found(nonce);
            }
            outcome = BatchOutcome::Mismatch(nonce);
        }
        self.nonce_base = self.nonce_base.wrapping_add(self.batch_size as u64);
        outcome
    }

    /// Takes in what the kernel left behind. A reported nonce is hashed again
    /// before it is believed.
    pub fn finish_batch(&mut self, report: KernelReport) -> (r: BatchOutcome<Solved>)
        ensures
            batch_ends(old(self)@, final(self)@, report, r),
    {
        let nonce: U256 = U256::from_u64(report.nonce);
        let hit: Option<(u64, [u8; 32])> = if report.flag != 0 {
            Some((report.nonce, pow::cpu_hash(&self.challenge, &nonce)))
        } else {
            None
        };
        match self.settle(hit) {
            BatchOutcome::Found(_) => BatchOutcome::Found(
                Solved::new(&self.challenge, &nonce, &self.difficulty),
            ),
            BatchOutcome::Mismatch(reported) => BatchOutcome::Mismatch(reported),
            BatchOutcome::Nothing => BatchOutcome::Nothing,
        }
    }
}

impl GpuMiner {
    /// Whether the nonces that the GPUs start from can be counted in 64 bits
    /// from the first GPU's on.
    pub fn ranges_fit(&self) -> (r: bool)
        ensures
            r == self@.ranges_fit(),
    {
        let n: usize = self.devices.len();
        if n < 2 {
            proof {
                let x = self.batch_size * BATCHES_PER_GPU;
                assert((n - 1) * x <= 0) by (nonlinear_arith)
                    requires
                        n < 2,
                        x >= 0,
                ;
            }
            return true;
        }
        let spacing: u128 = self.batch_size as u128 * BATCHES_PER_GPU as u128;
        if spacing > u64::MAX as u128 {
            proof {
                assert((n - 1) * spacing >= spacing) by (nonlinear_arith)
                    requires
                        n >= 2,
                        spacing >= 0,
                ;
            }
            return false;
        }
        assert((n - 1) * spacing <= u64::MAX * u64::MAX) by (nonlinear_arith)
            requires
                2 <= n <= u64::MAX,
                0 <= spacing <= u64::MAX,
        ;
        (n as u128 - 1) * spacing <= u64::MAX as u128
    }

    /// A search for each GPU, all for one puzzle. Every GPU has nonces of its
    /// own: GPU number `i` starts `i` million batches after the first.
    pub fn mine(&self, challenge: &[u8; 32], difficulty: &U256, start_nonce: u64) -> (searches: Vec<
        DeviceSearch,
    >)
        requires
            self@.ranges_fit(),
        ensures
            searches@.len() == self@.devices.len(),
            forall|i: int|
                0 <= i < searches@.len() ==> (#[trigger] searches@[i])@ == first_search(
                    self@,
                    challenge@,
                    difficulty@,
                    start_nonce,
                    i as nat,
                ),
    {
        proof {
            use_type_invariant(self);
        }
        let mut searches: Vec<DeviceSearch> = Vec::new();
        let mut i: usize = 0;
        while i < self.devices.len()
            invariant
                i <= self.devices@.len(),
                self.one_batch_size(),
                self@.ranges_fit(),
                searches@.len() == i,
                forall|j: int|
                    0 <= j < i ==> (#[trigger] searches@[j])@ == first_search(
                        self@,
                        challenge@,
                        difficulty@,
                        start_nonce,
                        j as nat,
                    ),
            decreases self.devices@.len() - i,
        {
            let mut offset: u64 = 0;
            let ghost spacing = self.batch_size * BATCHES_PER_GPU;
            if i > 0 {
                proof {
                    let last = self.devices@.len() - 1;
                    assert(spacing <= i * spacing <= last * spacing) by (nonlinear_arith)
                        requires
                            1 <= i <= last,
                            spacing >= 0,
                    ;
                }
                let nonce_spacing: u64 = self.batch_size as u64 * BATCHES_PER_GPU;
                offset = i as u64 * nonce_spacing;
            }
            assert(offset == i * spacing) by (nonlinear_arith)
                requires
                    i > 0 ==> offset == i * spacing,
                    i == 0 ==> offset == 0,
            ;
            let nonce_base: u64 = start_nonce.wrapping_add(offset);
            assert(i as nat * (self@.batch_size * BATCHES_PER_GPU) as nat == offset);
            assert(nonce_base == (start_nonce + offset) % 0x1_0000_0000_0000_0000);
            assert(nonce_base == self@.start_of(start_nonce, i as nat));
            searches.push(
                DeviceSearch {
                    challenge: *challenge,
                    difficulty: *difficulty,
                    batch_size: self.devices[i].batch_size,
                    nonce_base,
                },
            );
            i += 1;
        }
        searches
    }

    /// Whether a GPU that comes back with `outcome` calls the others off by
    /// setting the stop flag.
    pub fn calls_off<T>(&self, outcome: &Result<Option<T>, String>) -> (r: bool)
        ensures
            r == self@.calls_off(*outcome),
    {
        if self.devices.len() == 1 {
            return false;
        }
        match outcome {
            Ok(Some(_)) => true,
            _ => false,
        }
    }

    /// What the GPUs have found together. `arrivals` holds what each of them
    /// came back with, in the order in which they came back. A failing device
    /// is passed over unless it is the only one.
    pub fn conclude<T: Copy>(&self, arrivals: Vec<Result<Option<T>, String>>) -> (r: Result<
        Option<T>,
        String,
    >)
        requires
            arrivals@.len() == self@.devices.len(),
        ensures
            r == self@.concluded(arrivals@),
    {
        let mut arrivals = arrivals;
        if arrivals.len() == 1 {
            return arrivals.pop().unwrap();
        }
        let mut found: Option<T> = None;
        let mut i: usize = 0;
        assert(arrivals@.take(0) =~= Seq::<Result<Option<T>, String>>::empty());
        while i < arrivals.len()
            invariant
                i <= arrivals@.len(),
                found == first_found(arrivals@.take(i as int)),
            decreases arrivals@.len() - i,
        {
            assert(arrivals@.take(i + 1).drop_last() =~= arrivals@.take(i as int));
            if let Ok(Some(nonce)) = &arrivals[i] {
                keep_first(&mut found, *nonce);
            }
            i += 1;
        }
        assert(arrivals@.take(i as int) =~= arrivals@);
        Ok(found)
    }
}

/// The first nonce among `arrivals`.
pub open spec fn first_found<T>(arrivals: Seq<Result<Option<T>, String>>) -> Option<T>
    decreases arrivals.len(),
{
    if arrivals.len() == 0 {
        None
    } else {
        match first_found(arrivals.drop_last()) {
            Some(nonce) => Some(nonce),
            None => match arrivals.last() {
                Ok(last) => last,
                Err(_) => None,
            },
        }
    }
}

/// The challenge of the self-test: the letters from a to z and the digits from
/// 0 to 5, in ASCII.
pub open spec fn self_test_challenge_bytes() -> Seq<u8> {
    Seq::new(
        32,
        |i: int|
            if i < 26 {
                ('a' as u8 + i) as u8
            } else {
                ('0' as u8 + (i - 26)) as u8
            },
    )
}

/// The challenge of the self-test.
pub fn self_test_challenge() -> (r: [u8; 32])
    ensures
        r@ == self_test_challenge_bytes(),
{
    let mut r: [u8; 32] = [0u8; 32];
    let mut i: usize = 0;
    while i < 32
        invariant
            i <= 32,
            r@.len() == 32,
            forall|j: int| 0 <= j < i ==> #[trigger] r@[j] == self_test_challenge_bytes()[j],
        decreases 32 - i,
    {
        r[i] = if i < 26 {
            97 + i as u8
        } else {
            48 + (i - 26) as u8
        };
        i += 1;
    }
    assert(r@ =~= self_test_challenge_bytes());
    r
}

/// The one-nonce batch that the self-test dispatches, at the largest
/// difficulty.
pub fn self_test_args() -> (args: KernelArgs)
    ensures
        args.ask_for(
            self_test_challenge_bytes(),
            (uint::u256_modulus() - 1) as nat,
            SELF_TEST_NONCE,
            1,
        ),
{
    KernelArgs {
        challenge_words: pow::split_challenge_le(&self_test_challenge()),
        difficulty_words: pow::split_difficulty_be(&U256::max()),
        nonce_base: SELF_TEST_NONCE,
        global_work_size: 1,
    }
}

/// What is wrong with the outcome of a self-test, where `digest` is the digest
/// of the nonce that was asked for.
pub open spec fn self_test_fault(
    report: Result<KernelReport, String>,
    digest: Seq<u8>,
) -> Option<SelfTestError> {
    match report {
        Err(message) => Some(SelfTestError::Device(message)),
        Ok(k) => if k.flag == 0 {
            Some(SelfTestError::NoHit)
        } else if k.nonce != SELF_TEST_NONCE {
            Some(SelfTestError::WrongNonce { reported: k.nonce, expected: SELF_TEST_NONCE })
        } else if bytes::be_value(digest) >= uint::u256_modulus() - 1 {
            Some(SelfTestError::DigestNotBelow)
        } else {
            None
        },
    }
}

/// The digest that the self-test's nonce has under the self-test's challenge.
pub open spec fn self_test_digest() -> Seq<u8> {
    pow::nonce_digest(self_test_challenge_bytes(), SELF_TEST_NONCE as nat)
}

/// Judges the outcome of a self-test by the digest of the nonce that was asked
/// for.
pub fn judge_self_test(report: &Result<KernelReport, String>, digest: &[u8; 32]) -> (fault: Option<
    SelfTestError,
>)
    ensures
        fault == self_test_fault(*report, digest@),
{
    match report {
        Err(message) => Some(SelfTestError::Device(message.clone())),
        Ok(k) => {
            if k.flag == 0 {
                Some(SelfTestError::NoHit)
            } else if k.nonce != SELF_TEST_NONCE {
                Some(SelfTestError::WrongNonce { reported: k.nonce, expected: SELF_TEST_NONCE })
            } else if !pow::digest_below(digest, &U256::max()) {
                Some(SelfTestError::DigestNotBelow)
            } else {
                None
            }
        },
    }
}

/// Judges the outcome of a device's self-test.
pub fn self_test_device(report: &Result<KernelReport, String>) -> (fault: Option<SelfTestError>)
    ensures
        fault == self_test_fault(*report, self_test_digest()),
{
    let nonce: U256 = U256::from_u64(SELF_TEST_NONCE);
    let digest: [u8; 32] = pow::cpu_hash(&self_test_challenge(), &nonce);
    judge_self_test(report, &digest)
}

impl GpuMiner {
    /// Self-tests the GPUs one after the other. `reports` holds the outcomes so
    /// far, one for each device from the first on. The first device that fails
    /// ends the test.
    pub fn self_test(&self, reports: &Vec<Result<KernelReport, String>>) -> (r: SelfTestProgress)
        ensures
            match r {
                SelfTestProgress::Failed { gpu, name, cause } => {
                    &&& gpu < reports@.len()
                    &&& gpu < self@.devices.len()
                    &&& name@ == self@.devices[gpu as int].name
                    &&& self_test_fault(reports@[gpu as int], self_test_digest()) == Some(cause)
                    &&& passed_up_to(reports@, gpu as int)
                },
                SelfTestProgress::Run(next) => {
                    &&& next == reports@.len()
                    &&& next < self@.devices.len()
                    &&& passed_up_to(reports@, next as int)
                },
                SelfTestProgress::Passed => {
                    &&& reports@.len() >= self@.devices.len()
                    &&& passed_up_to(reports@, self@.devices.len() as int)
                },
            },
    {
        let mut i: usize = 0;
        while i < self.devices.len()
            invariant
                i <= self.devices@.len(),
                i <= reports@.len(),
                passed_up_to(reports@, i as int),
            decreases self.devices@.len() - i,
        {
            if i == reports.len() {
                return SelfTestProgress::Run(i);
            }
            if let Some(cause) = self_test_device(&reports[i]) {
                let name: String = self.devices[i].device_name.clone();
                return SelfTestProgress::Failed { gpu: i, name, cause };
            }
            i += 1;
        }
        SelfTestProgress::Passed
    }
}

/// Whether the first `n` reports have no fault.
pub open spec fn passed_up_to(reports: Seq<Result<KernelReport, String>>, n: int) -> bool {
    forall|j: int|
        0 <= j < n ==> self_test_fault(#[trigger] reports[j], self_test_digest()) is None
}

/// Going past `j` batches and then past `k` more is going past `j + k`.
pub proof fn law_batches_add_up(s: SearchView, j: nat, k: nat)
    ensures
        s.skip(j).skip(k) == s.skip(j + k),
{
    let m = uint::word_base() as int;
    let b = s.batch_size as nat;
    assert((j + k) * b == j * b + k * b) by (nonlinear_arith);
    vstd::arithmetic::div_mod::lemma_add_mod_noop((s.nonce_base + j * b) as int, (k * b) as int, m);
    vstd::arithmetic::div_mod::lemma_add_mod_noop(s.base_after(j) as int, (k * b) as int, m);
    assert(s.base_after(j) % (m as nat) == s.base_after(j));
}

/// Each GPU has nonces of its own: as long as all their ranges together fit in
/// 64 bits, no nonce in the first million batches of one GPU is among the
/// first million batches of another.
pub proof fn law_gpu_ranges_are_disjoint(
    miner: MinerView,
    start_nonce: u64,
    g1: nat,
    offset1: nat,
    g2: nat,
    offset2: nat,
)
    requires
        miner.devices.len() * (miner.batch_size * BATCHES_PER_GPU) <= uint::word_base(),
        g1 < miner.devices.len(),
        g2 < miner.devices.len(),
        offset1 < miner.batch_size * BATCHES_PER_GPU,
        offset2 < miner.batch_size * BATCHES_PER_GPU,
        (miner.start_of(start_nonce, g1) + offset1) % uint::word_base() == (miner.start_of(
            start_nonce,
            g2,
        ) + offset2) % uint::word_base(),
    ensures
        g1 == g2,
        offset1 == offset2,
{
    let m = uint::word_base();
    let s = (miner.batch_size * BATCHES_PER_GPU) as nat;
    let n1 = g1 * s + offset1;
    let n2 = g2 * s + offset2;
    let n = miner.devices.len();
    assert(n1 < n * s) by (nonlinear_arith)
        requires
            n1 == g1 * s + offset1,
            g1 + 1 <= n,
            offset1 < s,
    ;
    assert(n2 < n * s) by (nonlinear_arith)
        requires
            n2 == g2 * s + offset2,
            g2 + 1 <= n,
            offset2 < s,
    ;
    lemma_start_plus(start_nonce as nat, g1 * s, offset1);
    lemma_start_plus(start_nonce as nat, g2 * s, offset2);
    if n1 <= n2 {
        crate::worker::lemma_same_residue(start_nonce as nat + n1, start_nonce as nat + n2, m);
    } else {
        crate::worker::lemma_same_residue(start_nonce as nat + n2, start_nonce as nat + n1, m);
    }
    vstd::arithmetic::div_mod::lemma_fundamental_div_mod_converse(
        n1 as int,
        s as int,
        g1 as int,
        offset1 as int,
    );
    vstd::arithmetic::div_mod::lemma_fundamental_div_mod_converse(
        n2 as int,
        s as int,
        g2 as int,
        offset2 as int,
    );
}

proof fn lemma_start_plus(start: nat, a: nat, b: nat)
    ensures
        ((start + a) % uint::word_base() + b) % uint::word_base() == (start + (a + b))
            % uint::word_base(),
{
    vstd::arithmetic::div_mod::lemma_add_mod_noop(
        (start + a) as int,
        b as int,
        uint::word_base() as int,
    );
    vstd::arithmetic::div_mod::lemma_add_mod_noop(
        ((start + a) % uint::word_base()) as int,
        b as int,
        uint::word_base() as int,
    );
}

/// A GPU on its own mines as that device does: it starts from the nonce that
/// was asked for, what it comes back with is the outcome, an error too, and it
/// leaves the stop flag alone even when it finds a nonce.
pub proof fn law_single_gpu<T>(
    miner: MinerView,
    start_nonce: u64,
    outcome: Result<Option<T>, String>,
)
    requires
        miner.devices.len() == 1,
    ensures
        miner.ranges_fit(),
        miner.start_of(start_nonce, 0) == start_nonce,
        miner.concluded(seq![outcome]) == outcome,
        !miner.calls_off(outcome),
{
    let spacing = (miner.batch_size * BATCHES_PER_GPU) as nat;
    assert(0 * spacing == 0) by (nonlinear_arith);
}

/// With any other number of GPUs the ones that come back empty-handed or with
/// an error call nobody off and do not fail the search, and the first that
/// comes back with a nonce both calls the others off and decides the outcome.
pub proof fn law_several_gpus<T>(
    miner: MinerView,
    before: Seq<Result<Option<T>, String>>,
    nonce: T,
    later: Seq<Result<Option<T>, String>>,
)
    requires
        miner.devices.len() != 1,
        forall|j: int| 0 <= j < before.len() ==> !(#[trigger] before[j] matches Ok(Some(_))),
    ensures
        forall|j: int| 0 <= j < before.len() ==> !miner.calls_off(#[trigger] before[j]),
        miner.concluded(before) == Ok::<Option<T>, String>(None),
        miner.calls_off(Ok(Some(nonce))),
        miner.concluded(before.push(Ok(Some(nonce))) + later) == Ok::<Option<T>, String>(
            Some(nonce),
        ),
{
    law_first_found(before);
    let all = before.push(Ok(Some(nonce))) + later;
    law_first_found(all);
    assert(all[before.len() as int] == Ok::<Option<T>, String>(Some(nonce)));
    assert forall|j: int| 0 <= j < before.len() implies !(#[trigger] all[j] matches Ok(Some(_))) by {
        assert(all[j] == before[j]);
    }
}

/// What the GPUs have found together is the first nonce to arrive, and nothing
/// only if nothing arrived.
pub proof fn law_first_found<T>(arrivals: Seq<Result<Option<T>, String>>)
    ensures
        match first_found(arrivals) {
            Some(nonce) => exists|k: int|
                0 <= k < arrivals.len() && #[trigger] arrivals[k] == Ok::<Option<T>, String>(
                    Some(nonce),
                ) && forall|j: int|
                    0 <= j < k ==> !(#[trigger] arrivals[j] matches Ok(Some(_))),
            None => forall|j: int|
                0 <= j < arrivals.len() ==> !(#[trigger] arrivals[j] matches Ok(Some(_))),
        },
    decreases arrivals.len(),
{
    if arrivals.len() > 0 {
        let front = arrivals.drop_last();
        law_first_found(front);
        match first_found(front) {
            Some(nonce) => {
                let k = choose|k: int|
                    0 <= k < front.len() && #[trigger] front[k] == Ok::<Option<T>, String>(
                        Some(nonce),
                    ) && forall|j: int|
                        0 <= j < k ==> !(#[trigger] front[j] matches Ok(Some(_)));
                assert(arrivals[k] == front[k]);
                assert forall|j: int| 0 <= j < k implies !(#[trigger] arrivals[j] matches Ok(
                    Some(_),
                )) by {
                    assert(arrivals[j] == front[j]);
                }
            },
            None => {
                assert forall|j: int| 0 <= j < front.len() implies !(
                #[trigger] arrivals[j] matches Ok(Some(_))) by {
                    assert(arrivals[j] == front[j]);
                }
                assert(arrivals[arrivals.len() - 1] == arrivals.last());
            },
        }
    }
}

/// A nonce that the GPUs have found together is one that a GPU came back with.
pub proof fn law_concluded_nonce_arrived<T>(
    miner: MinerView,
    arrivals: Seq<Result<Option<T>, String>>,
    nonce: T,
)
    requires
        arrivals.len() == miner.devices.len(),
        miner.concluded(arrivals) == Ok::<Option<T>, String>(Some(nonce)),
    ensures
        arrivals.contains(Ok(Some(nonce))),
{
    law_first_found(arrivals);
    if miner.devices.len() == 1 {
        assert(arrivals[0] == Ok::<Option<T>, String>(Some(nonce)));
    }
}

/// A search starts where it is, and each batch starts one batch size after the
/// one before, modulo 2 to the 64. The puzzle and the batch size stay.
pub proof fn law_batches_adjoin(s: SearchView, k: nat)
    ensures
        s.skip(0) == s,
        s.skip(k + 1).nonce_base == (s.skip(k).nonce_base + s.batch_size) % pow2(64) as int,
        s.skip(k).challenge == s.challenge,
        s.skip(k).difficulty == s.difficulty,
        s.skip(k).batch_size == s.batch_size,
{
    uint::law_widths();
    let b = s.batch_size as nat;
    assert(0 * b == 0 && (k + 1) * b == k * b + b) by (nonlinear_arith);
    vstd::arithmetic::div_mod::lemma_add_mod_noop(
        (s.nonce_base + k * b) as int,
        b as int,
        pow2(64) as int,
    );
    vstd::arithmetic::div_mod::lemma_add_mod_noop(
        s.base_after(k) as int,
        b as int,
        pow2(64) as int,
    );
    assert(s.base_after(k) % pow2(64) == s.base_after(k));
}

/// The nonce in place `offset` of batch number `k` lies `k` batch sizes and
/// `offset` above the start.
pub proof fn law_nonce_in_batch(s: SearchView, k: nat, offset: nat)
    ensures
        (s.skip(k).nonce_base + offset) % pow2(64) as int == (s.nonce_base + k * s.batch_size
            + offset) % pow2(64) as int,
{
    uint::law_widths();
    lemma_start_plus(s.nonce_base as nat, k * s.batch_size as nat, offset);
}

/// The first `k` batches leave no nonce out: one that lies `n` above the start,
/// less than `k` batch sizes, is in the batch whose number is `n` divided by the
/// batch size.
pub proof fn law_batches_cover(s: SearchView, k: nat, n: nat)
    requires
        n < k * s.batch_size,
    ensures
        s.batch_size > 0,
        n / (s.batch_size as nat) < k,
        n % (s.batch_size as nat) < s.batch_size,
        (s.skip(n / (s.batch_size as nat)).nonce_base + n % (s.batch_size as nat)) % pow2(64) as int
            == (s.nonce_base + n) % pow2(64) as int,
{
    let b = s.batch_size as nat;
    assert(b > 0) by (nonlinear_arith)
        requires
            n < k * b,
    ;
    let (j, offset) = (n / b, n % b);
    vstd::arithmetic::div_mod::lemma_fundamental_div_mod(n as int, b as int);
    assert(j * b == b * j) by (nonlinear_arith);
    assert(j < k) by (nonlinear_arith)
        requires
            j * b + offset == n,
            n < k * b,
            offset >= 0,
    ;
    law_nonce_in_batch(s, j, offset);
}

/// The first `k` batches hold no nonce twice, as long as there are at most 2 to
/// the 64 nonces in them.
pub proof fn law_batches_do_not_overlap(
    s: SearchView,
    k: nat,
    k1: nat,
    offset1: nat,
    k2: nat,
    offset2: nat,
)
    requires
        k * s.batch_size <= pow2(64),
        k1 < k,
        k2 < k,
        offset1 < s.batch_size,
        offset2 < s.batch_size,
        (s.skip(k1).nonce_base + offset1) % pow2(64) as int == (s.skip(k2).nonce_base + offset2)
            % pow2(64) as int,
    ensures
        k1 == k2,
        offset1 == offset2,
{
    uint::law_widths();
    let m = uint::word_base();
    let b = s.batch_size as nat;
    let n1 = k1 * b + offset1;
    let n2 = k2 * b + offset2;
    assert(n1 < k * b) by (nonlinear_arith)
        requires
            n1 == k1 * b + offset1,
            k1 + 1 <= k,
            offset1 < b,
    ;
    assert(n2 < k * b) by (nonlinear_arith)
        requires
            n2 == k2 * b + offset2,
            k2 + 1 <= k,
            offset2 < b,
    ;
    law_nonce_in_batch(s, k1, offset1);
    law_nonce_in_batch(s, k2, offset2);
    let start = s.nonce_base as nat;
    if n1 <= n2 {
        crate::worker::lemma_same_residue(start + n1, start + n2, m);
    } else {
        crate::worker::lemma_same_residue(start + n2, start + n1, m);
    }
    vstd::arithmetic::div_mod::lemma_fundamental_div_mod_converse(
        n1 as int,
        b as int,
        k1 as int,
        offset1 as int,
    );
    vstd::arithmetic::div_mod::lemma_fundamental_div_mod_converse(
        n2 as int,
        b as int,
        k2 as int,
        offset2 as int,
    );
}

/// A batch without a report is over, and so is one whose report does not solve
/// the challenge: the next one starts one batch size further on. A report that
/// does solve it is what was found, and ends the search where it is.
pub proof fn law_batch_ends(
    start: SearchView,
    end: SearchView,
    report: KernelReport,
    r: BatchOutcome<Solved>,
)
    requires
        batch_ends(start, end, report, r),
    ensures
        ({
            let good = report.flag != 0 && pow::solves(
                start.challenge,
                report.nonce as nat,
                start.difficulty,
            );
            &&& good <==> r is Found
            &&& r matches BatchOutcome::Found(solved) ==> solved@.nonce == report.nonce
                && solved@.challenge == start.challenge && solved@.difficulty == start.difficulty
            &&& r is Nothing <==> report.flag == 0
            &&& r matches BatchOutcome::Mismatch(nonce) ==> nonce == report.nonce
            &&& end.nonce_base == if good {
                start.nonce_base as int
            } else {
                (start.nonce_base + start.batch_size) % pow2(64) as int
            }
        }),
        end.challenge == start.challenge,
        end.difficulty == start.difficulty,
        end.batch_size == start.batch_size,
{
    law_batches_adjoin(start, 0);
}

/// The first GPU starts where it is asked to, and each of the others a million
/// batches after the one before, modulo 2 to the 64.
pub proof fn law_gpu_starts(miner: MinerView, start_nonce: u64, gpu: nat)
    ensures
        miner.start_of(start_nonce, 0) == start_nonce,
        miner.start_of(start_nonce, gpu + 1) == (miner.start_of(start_nonce, gpu)
            + miner.batch_size * 1_000_000) % pow2(64) as int,
{
    uint::law_widths();
    let b = (miner.batch_size * 1_000_000) as nat;
    assert(0 * b == 0 && (gpu + 1) * b == gpu * b + b) by (nonlinear_arith);
    lemma_start_plus(start_nonce as nat, gpu * b, b);
}

/// The ranges fit exactly where, for every GPU, the way from the first GPU's
/// start to its own can be counted in 64 bits.
pub proof fn law_ranges_fit(miner: MinerView)
    ensures
        miner.ranges_fit() <==> forall|gpu: nat|
            gpu < miner.devices.len() ==> #[trigger] (gpu * (miner.batch_size * 1_000_000))
                <= u64::MAX,
{
    let spacing = (miner.batch_size * 1_000_000) as int;
    let n = miner.devices.len();
    if miner.ranges_fit() {
        assert forall|gpu: nat| gpu < n implies #[trigger] (gpu * (miner.batch_size * 1_000_000))
            <= u64::MAX by {
            assert(gpu * spacing <= (n - 1) * spacing) by (nonlinear_arith)
                requires
                    gpu <= n - 1,
                    spacing >= 0,
            ;
        }
    } else if n == 0 {
        assert((n - 1) * spacing <= 0) by (nonlinear_arith)
            requires
                n == 0,
                spacing >= 0,
        ;
    } else {
        let last = (n - 1) as nat;
        assert(last * (miner.batch_size * 1_000_000) > u64::MAX);
    }
}

/// Every GPU searches the puzzle that was asked for, in batches of the miner's
/// size, from its own start on.
pub proof fn law_first_search(
    miner: MinerView,
    challenge: Seq<u8>,
    difficulty: nat,
    start_nonce: u64,
    gpu: nat,
)
    ensures
        ({
            let s = first_search(miner, challenge, difficulty, start_nonce, gpu);
            &&& s.challenge == challenge
            &&& s.difficulty == difficulty
            &&& s.batch_size == miner.batch_size
            &&& s.nonce_base == (start_nonce + gpu * (miner.batch_size * 1_000_000)) % pow2(
                64,
            ) as int
        }),
{
    uint::law_widths();
}

/// The arguments of a kernel say everything: the challenge byte by byte, the
/// difficulty, the first nonce, and how many there are.
pub proof fn law_kernel_args(
    args: KernelArgs,
    challenge: Seq<u8>,
    difficulty: nat,
    nonce_base: u64,
    size: usize,
    i: nat,
    j: nat,
)
    requires
        args.ask_for(challenge, difficulty, nonce_base, size),
        challenge.len() == 32,
        i < 4,
        j < 8,
    ensures
        challenge[(8 * i + j) as int] == (args.challenge_words@[i as int] as int / power::pow(
            256,
            j,
        )) % 256,
        difficulty == args.difficulty_words@[0] * pow2(192) + args.difficulty_words@[1] * pow2(128)
            + args.difficulty_words@[2] * pow2(64) + args.difficulty_words@[3],
        args.nonce_base == nonce_base,
        args.global_work_size == size,
{
    pow::law_challenge_words(args.challenge_words@, challenge, i, j);
    pow::law_be_words_value(args.difficulty_words@);
}

/// As many devices are set up as are chosen. Each is the one in the chosen place
/// and goes by its own name, or by a stand-in where that cannot be read.
pub proof fn law_chosen_devices(names: Seq<Option<String>>, chosen: Seq<usize>, k: int)
    requires
        0 <= k < chosen.len(),
        chosen[k] < names.len(),
    ensures
        chosen_devices(names, chosen).len() == chosen.len(),
        chosen_devices(names, chosen)[k].index == chosen[k],
        names[chosen[k] as int] matches Some(name) ==> chosen_devices(names, chosen)[k].name
            == name@,
        names[chosen[k] as int] is None ==> chosen_devices(names, chosen)[k].name == "<unknown>"@,
{
}

/// Where none are chosen, every device takes part, each one once and in the
/// order of the list.
pub proof fn law_all_places(n: nat, i: int)
    requires
        0 <= i < n <= usize::MAX,
    ensures
        all_places(n).len() == n,
        all_places(n)[i] == i,
{
}

/// The index that is complained of is the first that is no place of the list:
/// those before it are, and it does not matter what comes after.
pub proof fn law_first_bad_index(good: Seq<usize>, bad: usize, rest: Seq<usize>, n: nat, index: usize)
    requires
        forall|j: int| 0 <= j < good.len() ==> (#[trigger] good[j]) < n,
        bad >= n,
    ensures
        first_bad_index(good.push(bad) + rest, n, index) <==> index == bad,
        !first_bad_index(good, n, index),
{
    let all = good.push(bad) + rest;
    let at = good.len() as int;
    assert(all[at] == bad);
    assert forall|j: int| 0 <= j < at implies (#[trigger] all[j]) < n by {
        assert(all[j] == good[j]);
    }
    assert(first_bad_index(all, n, bad));
    if first_bad_index(all, n, index) {
        let k = choose|k: int|
            #![trigger all[k]]
            0 <= k < all.len() && all[k] == index && index >= n && forall|j: int|
                0 <= j < k ==> (#[trigger] all[j]) < n;
        if k > at {
            assert(all[at] < n);
        } else if k < at {
            assert(all[k] < n);
        }
    }
}

/// A name on its own stands as it is, no names give an empty line, and between
/// what two lists of names give stands one comma and one space.
pub proof fn law_join_names(a: Seq<Seq<char>>, b: Seq<Seq<char>>, name: Seq<char>)
    requires
        a.len() > 0,
        b.len() > 0,
    ensures
        join_names(Seq::empty()) == Seq::<char>::empty(),
        join_names(seq![name]) == name,
        join_names(a + b) == join_names(a) + seq![',', ' '] + join_names(b),
    decreases b.len(),
{
    reveal_strlit(", ");
    assert(", "@ =~= seq![',', ' ']);
    assert((a + b).last() == b.last());
    if b.len() == 1 {
        assert((a + b).drop_last() =~= a);
    } else {
        law_join_names(a, b.drop_last(), name);
        assert((a + b).drop_last() =~= a + b.drop_last());
        assert(join_names(a + b) =~= join_names(a) + seq![',', ' '] + join_names(b));
    }
}

/// The challenge of the self-test spells the letters from a to z and then the
/// digits from 0 to 5.
pub proof fn law_self_test_challenge(i: int)
    requires
        0 <= i < 32,
    ensures
        self_test_challenge_bytes().len() == 32,
        self_test_challenge_bytes()[i] as int == "abcdefghijklmnopqrstuvwxyz012345"@[i] as int,
{
    reveal_strlit("abcdefghijklmnopqrstuvwxyz012345");
    let text = "abcdefghijklmnopqrstuvwxyz012345"@;
    if i < 8 {
        assert(i == 0 || i == 1 || i == 2 || i == 3 || i == 4 || i == 5 || i == 6 || i == 7);
    } else if i < 16 {
        assert(i == 8 || i == 9 || i == 10 || i == 11 || i == 12 || i == 13 || i == 14 || i == 15);
    } else if i < 24 {
        assert(i == 16 || i == 17 || i == 18 || i == 19 || i == 20 || i == 21 || i == 22 || i
            == 23);
    } else {
        assert(i == 24 || i == 25 || i == 26 || i == 27 || i == 28 || i == 29 || i == 30 || i
            == 31);
    }
    assert(text[i] as int == if i < 26 {
        'a' as int + i
    } else {
        '0' as int + i - 26
    });
}

/// A device passes its self-test exactly where it could be driven, reported a
/// hit, reported the one nonce that it was asked for, and the digest is below
/// the largest difficulty. The first of these that fails is the fault.
pub proof fn law_self_test_fault(report: Result<KernelReport, String>, digest: Seq<u8>)
    ensures
        self_test_fault(report, digest) is None <==> (report matches Ok(k) && k.flag != 0
            && k.nonce == 12345 && bytes::be_value(digest) + 1 < pow2(256)),
        report matches Err(message) ==> self_test_fault(report, digest) == Some(
            SelfTestError::Device(message),
        ),
        report matches Ok(k) ==> {
            &&& k.flag == 0 <==> self_test_fault(report, digest) == Some(SelfTestError::NoHit)
            &&& k.flag != 0 && k.nonce != 12345 ==> self_test_fault(report, digest) == Some(
                SelfTestError::WrongNonce { reported: k.nonce, expected: 12345 },
            )
            &&& k.flag != 0 && k.nonce == 12345 && bytes::be_value(digest) + 1 >= pow2(256)
                ==> self_test_fault(report, digest) == Some(SelfTestError::DigestNotBelow)
        },
{
    uint::law_widths();
}

/// The digest that the self-test compares is that of 64 bytes: the self-test's
/// challenge, and then 12345.
pub proof fn law_self_test_digest(buf: Seq<u8>)
    requires
        buf.len() == 64,
        buf.subrange(0, 32) == self_test_challenge_bytes(),
        bytes::be_value(buf.subrange(32, 64)) == 12345,
    ensures
        self_test_digest() == pow::keccak256_digest(buf),
{
    pow::law_digest_of_encoding(self_test_challenge_bytes(), 12345, buf, 0);
}

/// The first `n` reports have passed exactly where none of them has a fault.
pub proof fn law_passed_up_to(reports: Seq<Result<KernelReport, String>>, n: nat)
    ensures
        passed_up_to(reports, 0),
        passed_up_to(reports, n as int + 1) <==> passed_up_to(reports, n as int)
            && self_test_fault(reports[n as int], self_test_digest()) is None,
{
}

/// Where nothing else is asked for, a batch holds 2 to the 22 nonces: so many
/// batches hold that many times as many.
pub proof fn law_default_batch(batches: nat)
    ensures
        batches * DEFAULT_BATCH == batches * pow2(22),
{
    lemma2_to64();
}

} // verus!
