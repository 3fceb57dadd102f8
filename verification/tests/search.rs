use alloy::primitives::{keccak256, U256 as AlloyU256};
use hash_miner::gpu::{
    judge_self_test, self_test_args, self_test_challenge, self_test_device, BatchOutcome, GpuError,
    GpuMiner, KernelReport, SelfTestError, SelfTestProgress, DEFAULT_BATCH,
};
use hash_miner::pow::Solved;
use hash_miner::uint::U256;
use hash_miner::worker::{
    after_scan, keep_first, plan_workers, ScanResult, Solution, ThreadStep, Worker,
    FLUSH_INTERVAL,
};

const CHALLENGE: [u8; 32] = *b"abcdefghijklmnopqrstuvwxyz012345";

fn hash_value(nonce: u64) -> AlloyU256 {
    let mut buf = [0u8; 64];
    buf[..32].copy_from_slice(&CHALLENGE);
    buf[32..].copy_from_slice(&AlloyU256::from(nonce).to_be_bytes::<32>());
    AlloyU256::from_be_bytes::<32>(keccak256(buf).0)
}

fn difficulty(d: AlloyU256) -> U256 {
    U256::from_be_bytes(&d.to_be_bytes::<32>())
}

fn names(n: &[&str]) -> Result<Vec<Option<String>>, String> {
    Ok(n.iter().map(|s| Some(s.to_string())).collect())
}

fn solution(nonce: u64, d: U256, epoch: u64) -> Solution {
    let solved = Solved::check(&CHALLENGE, &U256::from_u64(nonce), &d).unwrap();
    Solution { solved, epoch }
}

/// What a worker finds at once, where every nonce is a solution.
fn at_once(w: &mut Worker) -> Solution {
    match w.scan() {
        ScanResult::Found { solution, attempts: 0 } => solution,
        _ => panic!("not at once"),
    }
}

#[test]
fn workers_start_side_by_side() {
    let workers =
        plan_workers(&CHALLENGE, &U256::max(), 3, &U256::from_u64(1000), 4);
    assert_eq!(workers.len(), 4);
    for (tid, w) in workers.into_iter().enumerate() {
        let mut w = w;
        for k in 0..5u64 {
            let here = solution(1000 + tid as u64 + 4 * k, U256::max(), 3);
            assert_eq!(at_once(&mut w), here);
            assert_eq!(w.attempt(None), None);
        }
    }
}

#[test]
fn no_threads_means_no_workers() {
    assert_eq!(plan_workers(&CHALLENGE, &U256::max(), 3, &U256::from_u64(1), 0).len(), 0);
}

#[test]
fn a_worker_wraps_around_at_the_top() {
    let mut workers = plan_workers(&CHALLENGE, &U256::max(), 0, &U256::max(), 2);
    assert_eq!(at_once(&mut workers[1]), solution(0, U256::max(), 0));
    workers[0].attempt(None);
    assert_eq!(at_once(&mut workers[0]), solution(1, U256::max(), 0));
}

#[test]
fn scan_stops_at_the_first_solution() {
    let limit = AlloyU256::from(1u64) << 250;
    for tid in 0..3u64 {
        let mut workers =
            plan_workers(&CHALLENGE, &difficulty(limit), 7, &U256::from_u64(5000), 3);
        let mut tries = 0u64;
        while !(hash_value(5000 + tid + 3 * tries) < limit) {
            tries += 1;
        }
        assert!(tries < FLUSH_INTERVAL);
        let expected = ScanResult::Found {
            solution: solution(5000 + tid + 3 * tries, difficulty(limit), 7),
            attempts: tries,
        };
        assert_eq!(workers[tid as usize].scan(), expected);
    }
}

#[test]
fn scan_comes_up_after_its_interval() {
    let low = AlloyU256::from(1u64) << 225;
    for nonce in 10..10 + 2 * FLUSH_INTERVAL {
        assert!(hash_value(nonce) >= low);
    }
    let mut workers = plan_workers(&CHALLENGE, &difficulty(low), 7, &U256::from_u64(10), 1);
    let nothing = ScanResult::Exhausted { attempts: 16384 };
    assert_eq!(workers[0].scan(), nothing);
    assert_eq!(workers[0].scan(), nothing);

    let limit = hash_value(10 + FLUSH_INTERVAL) + AlloyU256::from(1u64);
    let first = 10 + FLUSH_INTERVAL - (0..FLUSH_INTERVAL)
        .take_while(|k| hash_value(9 + FLUSH_INTERVAL - k) >= limit)
        .count() as u64;
    let mut workers = plan_workers(&CHALLENGE, &difficulty(limit), 7, &U256::from_u64(first), 1);
    let attempts = 10 + FLUSH_INTERVAL - first;
    let found = solution(10 + FLUSH_INTERVAL, difficulty(limit), 7);
    assert_eq!(workers[0].scan(), ScanResult::Found { solution: found, attempts });
}

#[test]
fn only_a_checked_nonce_counts_as_solved() {
    let limit = hash_value(41);
    let nonce = U256::from_u64(41);
    assert_eq!(Solved::check(&CHALLENGE, &nonce, &difficulty(limit)), None);
    let above = difficulty(limit + AlloyU256::from(1u64));
    let solved = Solved::check(&CHALLENGE, &nonce, &above).unwrap();
    assert_eq!(solved.nonce(), nonce);
    assert!(solved.is_for(&CHALLENGE, &above));
    assert!(!solved.is_for(&CHALLENGE, &difficulty(limit)));
    assert!(!solved.is_for(&CHALLENGE, &U256::max()));
    let mut other = CHALLENGE;
    other[31] += 1;
    assert!(!solved.is_for(&other, &above));
}

#[test]
fn a_worker_hands_out_what_was_checked() {
    let mut workers = plan_workers(&CHALLENGE, &U256::max(), 4, &U256::from_u64(8), 1);
    let here = solution(8, U256::max(), 4);
    assert_eq!(workers[0].attempt(Some(here.solved)), Some(here));
    assert_eq!(at_once(&mut workers[0]), here);
    assert_eq!(workers[0].attempt(None), None);
    assert_eq!(at_once(&mut workers[0]), solution(9, U256::max(), 4));
}

#[test]
fn a_thread_leaves_with_a_solution_or_when_called_off() {
    let solution = solution(5, U256::max(), 1);
    let found = ScanResult::Found { solution, attempts: 7 };
    let nothing = ScanResult::Exhausted { attempts: FLUSH_INTERVAL };
    let deliver = ThreadStep::Deliver { solution, attempts: 7 };
    assert_eq!(after_scan(found, false), deliver);
    assert_eq!(after_scan(found, true), deliver);
    assert_eq!(after_scan(nothing, true), ThreadStep::Leave { attempts: FLUSH_INTERVAL });
    assert_eq!(after_scan(nothing, false), ThreadStep::GoOn { attempts: FLUSH_INTERVAL });
}

#[test]
fn the_first_solution_to_arrive_stays() {
    let mut slot: Option<u64> = None;
    keep_first(&mut slot, 4);
    keep_first(&mut slot, 5);
    assert_eq!(slot, Some(4));
}

#[test]
fn all_devices_are_used_by_default() {
    let miner = GpuMiner::new(None, None, names(&["A", "B", "C"])).unwrap();
    assert_eq!(miner.device_names(), vec!["A", "B", "C"]);
    assert_eq!(miner.device_indices(), vec![0, 1, 2]);
    assert_eq!(miner.device_count(), 3);
    assert_eq!(miner.device_name(), "A, B, C");
    assert_eq!(miner.batch_size(), DEFAULT_BATCH);
    assert_eq!(DEFAULT_BATCH, 1 << 22);
}

#[test]
fn chosen_devices_are_used_in_the_order_given() {
    let miner = GpuMiner::new(Some(64), Some(vec![2, 0, 2]), names(&["A", "B", "C"])).unwrap();
    assert_eq!(miner.device_names(), vec!["C", "A", "C"]);
    assert_eq!(miner.device_indices(), vec![2, 0, 2]);
    assert_eq!(miner.batch_size(), 64);
}

#[test]
fn a_name_that_cannot_be_read_is_unknown() {
    let miner = GpuMiner::new(None, Some(vec![1]), Ok(vec![None, None])).unwrap();
    assert_eq!(miner.device_name(), "<unknown>");
}

#[test]
fn no_device_may_be_chosen() {
    let miner = GpuMiner::new(None, Some(vec![]), names(&["A"])).unwrap();
    assert_eq!(miner.device_count(), 0);
    assert_eq!(miner.device_name(), "");
    assert!(miner.ranges_fit());
    assert_eq!(miner.mine(&CHALLENGE, &U256::max(), 1).len(), 0);
    assert_eq!(miner.conclude::<u64>(vec![]), Ok(None));
    assert_eq!(miner.self_test(&vec![]), SelfTestProgress::Passed);
}

#[test]
fn set_up_fails_without_a_list() {
    let r = GpuMiner::new(None, None, Err("no platform".to_string()));
    assert_eq!(r.err(), Some(GpuError::Listing("no platform".to_string())));
}

#[test]
fn set_up_fails_without_devices() {
    assert_eq!(GpuMiner::new(None, Some(vec![3]), Ok(vec![])).err(), Some(GpuError::NoDevices));
}

#[test]
fn set_up_fails_at_the_first_bad_index() {
    let r = GpuMiner::new(None, Some(vec![1, 4, 9]), names(&["A", "B"]));
    assert_eq!(r.err(), Some(GpuError::BadIndex { index: 4, available: 2 }));
}

#[test]
fn gpus_start_a_million_batches_apart() {
    let miner = GpuMiner::new(Some(10), None, names(&["A", "B", "C"])).unwrap();
    assert!(miner.ranges_fit());
    let start = u64::MAX - 4;
    let searches = miner.mine(&CHALLENGE, &U256::max(), start);
    let bases: Vec<u64> =
        searches.iter().map(|s| s.next_batch(false).unwrap().nonce_base).collect();
    assert_eq!(bases, vec![start, 9_999_995, 19_999_995]);
}

#[test]
fn ranges_that_do_not_fit_are_noticed() {
    let most = (u64::MAX / 1_000_000) as usize;
    let fits = |batch: usize, n: usize| {
        let listed = Ok((0..n).map(|_| None).collect());
        GpuMiner::new(Some(batch), None, listed).unwrap().ranges_fit()
    };
    assert!(fits(most, 2));
    assert!(!fits(most + 1, 2));
    assert!(!fits(most, 3));
    assert!(fits(most / 2, 3));
    assert!(fits(usize::MAX, 1));
    assert!(!fits(usize::MAX, 2));
}

#[test]
fn a_batch_asks_for_the_puzzle_in_words() {
    let miner = GpuMiner::new(Some(32), None, names(&["A"])).unwrap();
    let searches = miner.mine(&CHALLENGE, &U256::from_u64(77), 500);
    let args = searches[0].next_batch(false).unwrap();
    assert_eq!(args.challenge_words[0], u64::from_le_bytes(*b"abcdefgh"));
    assert_eq!(args.challenge_words[3], u64::from_le_bytes(*b"yz012345"));
    assert_eq!(args.difficulty_words, [0, 0, 0, 77]);
    assert_eq!(args.nonce_base, 500);
    assert_eq!(args.global_work_size, 32);
    assert_eq!(searches[0].batch_attempts(), 32);
    assert!(searches[0].next_batch(true).is_none());
}

#[test]
fn batches_follow_one_another() {
    let miner = GpuMiner::new(Some(32), None, names(&["A"])).unwrap();
    let mut search = miner.mine(&CHALLENGE, &U256::from_u64(0), u64::MAX - 31)[0];
    let quiet = KernelReport { flag: 0, nonce: 9 };
    assert_eq!(search.finish_batch(quiet), BatchOutcome::Nothing);
    assert_eq!(search.next_batch(false).unwrap().nonce_base, 0);
    assert_eq!(search.finish_batch(quiet), BatchOutcome::Nothing);
    assert_eq!(search.next_batch(false).unwrap().nonce_base, 32);
}

#[test]
fn a_reported_nonce_is_hashed_again() {
    let limit = hash_value(41);
    let miner = GpuMiner::new(Some(32), None, names(&["A"])).unwrap();
    let report = KernelReport { flag: 1, nonce: 41 };

    let mut search = miner.mine(&CHALLENGE, &difficulty(limit), 0)[0];
    assert_eq!(search.finish_batch(report), BatchOutcome::Mismatch(41));
    assert_eq!(search.next_batch(false).unwrap().nonce_base, 32);

    let above = limit + AlloyU256::from(1u64);
    let mut search = miner.mine(&CHALLENGE, &difficulty(above), 0)[0];
    let solved = solution(41, difficulty(above), 0).solved;
    assert_eq!(search.finish_batch(report), BatchOutcome::Found(solved));
    assert_eq!(search.next_batch(false).unwrap().nonce_base, 0);
}

#[test]
fn a_batch_is_settled_by_the_digest() {
    let miner = GpuMiner::new(Some(8), None, names(&["A"])).unwrap();
    let mut low = [0u8; 32];
    low[31] = 4;
    let mut search = miner.mine(&CHALLENGE, &U256::from_u64(5), 0)[0];
    assert_eq!(search.settle(Some((3, low))), BatchOutcome::Found(3));
    low[31] = 5;
    assert_eq!(search.settle(Some((3, low))), BatchOutcome::Mismatch(3));
    assert_eq!(search.settle(None), BatchOutcome::Nothing);
    assert_eq!(search.next_batch(false).unwrap().nonce_base, 16);
}

#[test]
fn a_single_gpu_passes_its_outcome_on() {
    let miner = GpuMiner::new(None, None, names(&["A"])).unwrap();
    assert_eq!(miner.conclude(vec![Ok(Some(8))]), Ok(Some(8)));
    assert_eq!(miner.conclude::<u64>(vec![Ok(None)]), Ok(None));
    assert_eq!(miner.conclude::<u64>(vec![Err("lost".to_string())]), Err("lost".to_string()));
}

#[test]
fn several_gpus_keep_the_first_nonce() {
    let miner = GpuMiner::new(None, None, names(&["A", "B", "C"])).unwrap();
    let lost = || Err::<Option<u64>, String>("lost".to_string());
    assert_eq!(miner.conclude(vec![lost(), Ok(Some(2)), Ok(Some(1))]), Ok(Some(2)));
    assert_eq!(miner.conclude(vec![Ok(None), Ok(None), Ok(Some(1))]), Ok(Some(1)));
    assert_eq!(miner.conclude::<u64>(vec![Ok(None), lost(), lost()]), Ok(None));
}

#[test]
fn a_nonce_calls_the_other_gpus_off() {
    let lost: Result<Option<u64>, String> = Err("lost".to_string());
    let three = GpuMiner::new(None, None, names(&["A", "B", "C"])).ok().unwrap();
    assert!(three.calls_off(&Ok(Some(8))));
    assert!(!three.calls_off::<u64>(&Ok(None)));
    assert!(!three.calls_off(&lost));
    let one = GpuMiner::new(None, None, names(&["A"])).ok().unwrap();
    assert!(!one.calls_off(&Ok(Some(8))));
    assert!(!one.calls_off::<u64>(&Ok(None)));
    assert!(!one.calls_off(&lost));
}

#[test]
fn a_single_gpu_starts_where_it_is_asked_to() {
    let listed = names(&["A", "B", "C"]);
    let miner = GpuMiner::new(Some(usize::MAX), Some(vec![2]), listed).ok().unwrap();
    assert!(miner.ranges_fit());
    let searches = miner.mine(&CHALLENGE, &U256::max(), u64::MAX);
    assert_eq!(searches.len(), 1);
    assert_eq!(searches[0].next_batch(false).unwrap().nonce_base, u64::MAX);
}

#[test]
fn the_self_test_asks_for_one_nonce() {
    assert_eq!(self_test_challenge(), CHALLENGE);
    let args = self_test_args();
    assert_eq!(args.challenge_words[1], u64::from_le_bytes(*b"ijklmnop"));
    assert_eq!(args.difficulty_words, [u64::MAX; 4]);
    assert_eq!(args.nonce_base, 12345);
    assert_eq!(args.global_work_size, 1);
}

#[test]
fn the_self_test_has_four_faults() {
    let good = Ok(KernelReport { flag: 1, nonce: 12345 });
    assert_eq!(self_test_device(&good), None);
    assert_eq!(
        self_test_device(&Err("gone".to_string())),
        Some(SelfTestError::Device("gone".to_string()))
    );
    assert_eq!(
        self_test_device(&Ok(KernelReport { flag: 0, nonce: 12345 })),
        Some(SelfTestError::NoHit)
    );
    assert_eq!(
        self_test_device(&Ok(KernelReport { flag: 1, nonce: 12346 })),
        Some(SelfTestError::WrongNonce { reported: 12346, expected: 12345 })
    );
    assert_eq!(judge_self_test(&good, &[0xff; 32]), Some(SelfTestError::DigestNotBelow));
    let mut below = [0xffu8; 32];
    below[31] = 0xfe;
    assert_eq!(judge_self_test(&good, &below), None);
}

#[test]
fn the_self_test_ends_at_the_first_failure() {
    let miner = GpuMiner::new(None, None, names(&["A", "B"])).unwrap();
    let good = || Ok(KernelReport { flag: 1, nonce: 12345 });
    let bad = || Ok(KernelReport { flag: 0, nonce: 0 });
    assert_eq!(miner.self_test(&vec![]), SelfTestProgress::Run(0));
    assert_eq!(miner.self_test(&vec![good()]), SelfTestProgress::Run(1));
    assert_eq!(miner.self_test(&vec![good(), good()]), SelfTestProgress::Passed);
    assert_eq!(
        miner.self_test(&vec![good(), bad()]),
        SelfTestProgress::Failed { gpu: 1, name: "B".to_string(), cause: SelfTestError::NoHit }
    );
    assert_eq!(
        miner.self_test(&vec![bad()]),
        SelfTestProgress::Failed { gpu: 0, name: "A".to_string(), cause: SelfTestError::NoHit }
    );
}

#[test]
fn reported_attempts_add_up_over_scans() {
    let limit = AlloyU256::from(1u64) << 241;
    let mut start = 1u64;
    let tries = loop {
        let mut tries = 0u64;
        while !(hash_value(start + tries) < limit) {
            tries += 1;
        }
        if tries >= FLUSH_INTERVAL {
            break tries;
        }
        start += tries + 1;
    };
    let mut workers =
        plan_workers(&CHALLENGE, &difficulty(limit), 1, &U256::from_u64(start), 1);
    let mut reported = 0u64;
    let nonce = loop {
        match workers[0].scan() {
            ScanResult::Exhausted { attempts } => reported += attempts,
            ScanResult::Found { solution, attempts } => {
                reported += attempts;
                break solution.solved.nonce();
            }
        }
    };
    assert_eq!(reported, tries);
    assert_eq!(nonce, U256::from_u64(start + tries));
}

#[test]
fn threads_try_every_nonce_once() {
    let mut seen = Vec::new();
    for w in plan_workers(&CHALLENGE, &U256::max(), 0, &U256::from_u64(100), 3) {
        let mut w = w;
        for _ in 0..10 {
            seen.push(at_once(&mut w).solved.nonce().low_u64());
            w.attempt(None);
        }
    }
    seen.sort();
    assert_eq!(seen, (100..130).collect::<Vec<u64>>());
}

#[test]
fn ranges_of_neighbouring_gpus_adjoin() {
    let miner = GpuMiner::new(Some(1), None, names(&["A", "B"])).unwrap();
    let searches = miner.mine(&CHALLENGE, &U256::from_u64(0), 7);
    let mut first = searches[0];
    for _ in 0..999_999 {
        first.settle(None);
    }
    assert_eq!(first.next_batch(false).unwrap().nonce_base, 1_000_006);
    assert_eq!(searches[1].next_batch(false).unwrap().nonce_base, 1_000_007);
}
