use hash_miner::gpu::{BatchOutcome, GpuMiner, KernelReport};
use hash_miner::keys::{
    collect_private_keys, key_variable, normalize_key, open_wallet, settle_wallet, WalletError,
    MAX_NUMBERED_KEYS,
};
use hash_miner::pow::{check_proof, Solved};
use hash_miner::session::{
    gpu_solution, Action, Event, Phase, Round, Session, RETRY_SECONDS,
};
use hash_miner::settings::{
    assign_gpus, choose_backend, gpu_selection, may_start, read_u64, read_usize, rpc_url,
    thread_count, threads_for, wants_gpu, Backend, Totals,
};
use hash_miner::text::{
    append_decimal, blank, hex_short, parse_u64, parse_unsigned, parse_usize, strip_hex_prefixes,
    trim, white_space,
};
use hash_miner::uint::U256;
use hash_miner::watchdog::{Poll, Tick, Watchdog};
use hash_miner::worker::{ScanResult, Solution};

const KEY: &str = "0000000000000000000000000000000000000000000000000000000000000001";
const ADDRESS: [u8; 20] = [
    0x7e, 0x5f, 0x45, 0x52, 0x09, 0x1a, 0x69, 0x12, 0x5d, 0x5d, 0xfc, 0xb7, 0xb8, 0xc2, 0x65, 0x90,
    0x29, 0x39, 0x5b, 0xdf,
];

fn set(v: &str) -> Option<String> {
    Some(v.to_string())
}

#[test]
fn hex_shows_eight_bytes_at_most() {
    assert_eq!(hex_short(&[]), "");
    assert_eq!(hex_short(&[0x0f, 0xa0]), "0fa0");
    assert_eq!(
        hex_short(&[0x50, 0x1b, 0xca, 0xf7, 0x00, 0x11, 0x22, 0xff, 0xee]),
        "501bcaf7001122ff"
    );
    assert_eq!(hex_short(&[1, 2, 3, 4, 5, 6, 7, 8]), "0102030405060708");
}

#[test]
fn numbers_are_read_as_the_standard_library_reads_them() {
    let cases = [
        "", "0", "7", "42", "+42", "+", "-", "-1", "-0", "++1", " 1", "1 ", "1_000", "0x10", "007",
        "18446744073709551615", "18446744073709551616", "99999999999999999999999", "1a", "\u{661}",
        "184467440737095516150x",
    ];
    for c in cases {
        assert_eq!(parse_u64(c), c.parse::<u64>().ok(), "{}", c);
        assert_eq!(parse_usize(c), c.parse::<usize>().ok(), "{}", c);
    }
    assert_eq!(parse_unsigned("255", 255), Some(255));
    assert_eq!(parse_unsigned("256", 255), None);
}

#[test]
fn numbers_are_written_and_read_back() {
    for n in [0u32, 9, 10, 32, 99, 100, 1_000_000, u32::MAX] {
        let mut s = String::new();
        append_decimal(&mut s, n);
        assert_eq!(s, n.to_string());
        assert_eq!(parse_u64(&s), Some(n as u64));
    }
}

#[test]
fn white_space_is_what_unicode_says() {
    for u in 0..=0x10ffff {
        if let Some(c) = char::from_u32(u) {
            assert_eq!(white_space(c), c.is_whitespace());
        }
    }
}

#[test]
fn white_space_is_taken_off_both_ends() {
    for s in ["", " ", "a", " a", "a ", "\t a b \n", "\u{3000}x\u{a0}", "  \u{2003} "] {
        assert_eq!(trim(s), s.trim());
        assert_eq!(blank(s), s.trim().is_empty());
    }
}

#[test]
fn hex_prefixes_are_taken_off() {
    for s in ["", "0", "0x", "0x1", "0x0x1", "00x1", "0X1", "x0x", "0x0", "\u{e9}0x"] {
        assert_eq!(strip_hex_prefixes(s), s.trim_start_matches("0x"));
    }
}

#[test]
fn key_variables_are_numbered() {
    assert_eq!(key_variable(1), "PRIVATE_KEY_1");
    assert_eq!(key_variable(32), "PRIVATE_KEY_32");
    assert_eq!(MAX_NUMBERED_KEYS, 32);
}

#[test]
fn numbered_keys_come_before_the_single_one() {
    let keys = collect_private_keys(&vec![set("a"), set(" b ")], &set("c"));
    assert_eq!(keys, Some(vec!["a".to_string(), " b ".to_string()]));
}

#[test]
fn a_gap_ends_the_numbered_keys() {
    let keys = collect_private_keys(&vec![set("a"), None, set("b")], &None);
    assert_eq!(keys, Some(vec!["a".to_string()]));
    let keys = collect_private_keys(&vec![set("a"), set(" \t"), set("b")], &None);
    assert_eq!(keys, Some(vec!["a".to_string()]));
}

#[test]
fn the_single_key_still_works() {
    assert_eq!(collect_private_keys(&vec![], &set("c")), Some(vec!["c".to_string()]));
    assert_eq!(
        collect_private_keys(&vec![set(""), set("b")], &set("c")),
        Some(vec!["c".to_string()])
    );
}

#[test]
fn without_a_key_one_has_to_be_asked_for() {
    assert_eq!(collect_private_keys(&vec![None; 32], &None), None);
    assert_eq!(collect_private_keys(&vec![], &set("  ")), None);
}

#[test]
fn at_most_thirty_two_numbered_keys_are_taken() {
    let vars: Vec<Option<String>> = (0..40).map(|i| Some(i.to_string())).collect();
    let keys = collect_private_keys(&vars, &None).unwrap();
    assert_eq!(keys.len(), 32);
    assert_eq!(keys[31], "31");
}

#[test]
fn a_key_opens_its_wallet() {
    for raw in [KEY.to_string(), format!("0x{}", KEY), format!(" \n0x0x{}\t", KEY)] {
        let w = open_wallet(&raw).unwrap();
        assert_eq!(w.key, KEY);
        assert_eq!(w.address, ADDRESS);
    }
}

#[test]
fn a_key_of_another_length_opens_nothing() {
    for raw in ["", "0x", &KEY[1..], &format!("{}0", KEY), "\u{e9}"] {
        assert!(matches!(open_wallet(raw), Err(WalletError::Length)));
        assert_eq!(normalize_key(raw), None);
    }
    let wide = "\u{e9}".repeat(32);
    assert_eq!(normalize_key(&wide), Some(wide.as_str()));
}

#[test]
fn a_text_that_is_no_key_opens_nothing() {
    let zeros = "0".repeat(64);
    let letters = "z".repeat(64);
    assert!(matches!(open_wallet(&zeros), Err(WalletError::Signer(_))));
    assert!(matches!(open_wallet(&letters), Err(WalletError::Signer(_))));
}

#[test]
fn the_signer_decides_on_a_key_of_the_right_length() {
    let w = settle_wallet("k", Ok(ADDRESS)).unwrap();
    assert_eq!(w.key, "k");
    assert_eq!(w.address, ADDRESS);
}

#[test]
fn settings_fall_back() {
    assert_eq!(read_usize(&set("12")), Some(12));
    assert_eq!(read_usize(&set("many")), None);
    assert_eq!(read_usize(&None), None);
    assert_eq!(read_u64(&set("200000")), Some(200_000));
    assert_eq!(read_u64(&set("-1")), None);
    assert_eq!(read_u64(&None), None);
    assert_eq!(rpc_url(None), "https://eth.llamarpc.com");
    assert_eq!(rpc_url(set("http://localhost")), "http://localhost");
}

#[test]
fn one_cpu_is_left_free() {
    assert_eq!(threads_for(None, 8), 7);
    assert_eq!(threads_for(None, 2), 1);
    assert_eq!(threads_for(None, 1), 1);
    assert_eq!(threads_for(None, 0), 1);
    assert_eq!(threads_for(Some(0), 8), 0);
    assert_eq!(threads_for(Some(20), 8), 20);
    assert_eq!(thread_count(&set("5")), 5);
    assert_eq!(thread_count(&None), threads_for(None, num_cpus::get()));
    assert_eq!(thread_count(&set("x")), threads_for(None, num_cpus::get()));
}

#[test]
fn only_an_incomplete_genesis_keeps_the_miner_from_starting() {
    assert!(may_start(Some(true)));
    assert!(may_start(None));
    assert!(!may_start(Some(false)));
}

#[test]
fn gpus_are_assigned_as_in_the_table() {
    assert_eq!(assign_gpus(1, 2), vec![None]);
    assert_eq!(assign_gpus(2, 2), vec![Some(0), Some(1)]);
    assert_eq!(assign_gpus(2, 4), vec![Some(0), Some(1)]);
    assert_eq!(assign_gpus(3, 2), vec![Some(0), Some(1), Some(0)]);
    assert_eq!(assign_gpus(3, 0), vec![None, None, None]);
    assert_eq!(assign_gpus(0, 2), vec![]);
    assert_eq!(assign_gpus(2, 1), vec![Some(0), Some(0)]);
}

#[test]
fn gpus_are_used_only_when_asked_for() {
    assert!(wants_gpu(&set("1")));
    assert!(!wants_gpu(&set("0")));
    assert!(!wants_gpu(&set("11")));
    assert!(!wants_gpu(&set("")));
    assert!(!wants_gpu(&None));
    assert_eq!(gpu_selection(Some(3)), Some(vec![3]));
    assert_eq!(gpu_selection(None), None);
}

#[test]
fn gpus_that_fail_give_way_to_the_cpu() {
    assert_eq!(choose_backend(true, true, true), Backend::Gpu);
    assert_eq!(choose_backend(false, true, true), Backend::Cpu);
    assert_eq!(choose_backend(true, false, true), Backend::Cpu);
    assert_eq!(choose_backend(true, true, false), Backend::Cpu);
}

#[test]
fn totals_add_up() {
    let mut t = Totals::new();
    t.record(Some((10, 1)));
    t.record(None);
    t.record(Some((5, 2)));
    assert_eq!(t, Totals { attempts: 15, mints: 3 });
}

fn searching(session: &mut Session) -> Round {
    assert_eq!(session.step(Event::Shutdown(false)), Action::FetchBlock);
    assert_eq!(session.step(Event::Block(Some(25_069_901))), Action::FetchChallenge);
    assert_eq!(session.step(Event::Challenge(Some([5; 32]))), Action::FetchDifficulty);
    let reply = Some(U256::max());
    let action = session.step(Event::Difficulty { reply, start_nonce: 77 });
    let round = Round {
        epoch: 250_699,
        challenge: [5; 32],
        difficulty: U256::max(),
        start_nonce: 77,
    };
    assert_eq!(action, Action::Search(round));
    assert_eq!(session.phase, Phase::Search { round });
    round
}

/// A solution of a round at the largest difficulty, where any nonce is one.
fn solution_of(round: &Round, nonce: u64) -> Solution {
    let solved = Solved::check(&round.challenge, &U256::from_u64(nonce), &round.difficulty);
    Solution { solved: solved.unwrap(), epoch: round.epoch }
}

#[test]
fn a_confirmed_solution_is_a_mint() {
    let mut s = Session::new();
    let solution = solution_of(&searching(&mut s), 99);
    assert_eq!(
        s.step(Event::Searched { found: Some(solution), attempts: 40 }),
        Action::Submit(solution.solved)
    );
    assert_eq!(solution.solved.nonce(), U256::from_u64(99));
    assert_eq!(s.step(Event::Sent(true)), Action::AwaitReceipt);
    assert_eq!(s.step(Event::Receipt(Some(true))), Action::Again);
    assert_eq!(s, Session { attempts: 40, mints: 1, phase: Phase::Start });
    assert_eq!(
        s.step(Event::Shutdown(true)),
        Action::Finish { attempts: 40, mints: 1 }
    );
    assert_eq!(s.phase, Phase::Over);
}

#[test]
fn a_solution_may_come_to_nothing() {
    let mut s = Session::new();
    let solution = solution_of(&searching(&mut s), 99);
    let found = Event::Searched { found: Some(solution), attempts: 1 };
    s.step(found);
    assert_eq!(s.step(Event::Sent(false)), Action::Again);
    for status in [None, Some(false)] {
        searching(&mut s);
        s.step(found);
        s.step(Event::Sent(true));
        assert_eq!(s.step(Event::Receipt(status)), Action::Again);
    }
    assert_eq!(s, Session { attempts: 3, mints: 0, phase: Phase::Start });
}

#[test]
fn a_search_without_a_solution_starts_over() {
    let mut s = Session::new();
    searching(&mut s);
    assert_eq!(s.step(Event::Searched { found: None, attempts: 9 }), Action::Again);
    assert_eq!(s, Session { attempts: 9, mints: 0, phase: Phase::Start });
}

#[test]
fn a_failed_request_is_made_again_later() {
    let mut s = Session::new();
    s.step(Event::Shutdown(false));
    assert_eq!(s.step(Event::Block(None)), Action::Pause);
    s.step(Event::Shutdown(false));
    s.step(Event::Block(Some(1)));
    assert_eq!(s.step(Event::Challenge(None)), Action::Pause);
    s.step(Event::Shutdown(false));
    s.step(Event::Block(Some(1)));
    s.step(Event::Challenge(Some([0; 32])));
    assert_eq!(s.step(Event::Difficulty { reply: None, start_nonce: 0 }), Action::Pause);
    assert_eq!(s, Session::new());
    assert_eq!(RETRY_SECONDS, 5);
}

#[test]
fn the_start_nonce_is_drawn() {
    let mut drawn = Vec::new();
    for _ in 0..4 {
        let mut s = Session { attempts: 0, mints: 0, phase: Phase::Start };
        s.step(Event::Shutdown(false));
        s.step(Event::Block(Some(300)));
        s.step(Event::Challenge(Some([1; 32])));
        match s.step_difficulty(Some(U256::from_u64(6))) {
            Action::Search(round) => {
                assert_eq!(round.epoch, 3);
                assert_eq!(round.challenge, [1; 32]);
                assert_eq!(round.difficulty, U256::from_u64(6));
                assert_eq!(s.phase, Phase::Search { round });
                drawn.push(round.start_nonce);
            }
            _ => panic!("no search"),
        }
    }
    drawn.dedup();
    assert!(drawn.len() > 1);

    let mut s = Session { attempts: 0, mints: 0, phase: Phase::Start };
    s.step(Event::Shutdown(false));
    s.step(Event::Block(Some(300)));
    s.step(Event::Challenge(Some([1; 32])));
    assert_eq!(s.step_difficulty(None), Action::Pause);
}

#[test]
fn a_round_is_shared_out_among_threads() {
    let mut s = Session::new();
    let round = searching(&mut s);
    let mut workers = round.cpu_workers(2);
    assert_eq!(workers.len(), 2);
    for tid in 0..2u64 {
        let solution = solution_of(&round, 77 + tid);
        assert_eq!(
            workers[tid as usize].scan(),
            ScanResult::Found { solution, attempts: 0 }
        );
        assert!(round.accepts(&solution));
    }
}

fn starting(session: &mut Session, block: u64, challenge: [u8; 32], d: U256) -> Round {
    session.step(Event::Shutdown(false));
    session.step(Event::Block(Some(block)));
    session.step(Event::Challenge(Some(challenge)));
    match session.step_difficulty(Some(d)) {
        Action::Search(round) => round,
        _ => panic!("no search"),
    }
}

#[test]
fn a_submitted_nonce_solves_the_puzzle_of_its_round() {
    let mut s = Session::new();
    let mut easy = [0u8; 32];
    easy[0] = 0x10;
    let d = U256::from_be_bytes(&easy);
    for (block, challenge) in [(100, [3; 32]), (200, [4; 32])] {
        let round = starting(&mut s, block, challenge, d);
        let mut workers = round.cpu_workers(3);
        let (solution, attempts) = match workers[1].scan() {
            ScanResult::Found { solution, attempts } => (solution, attempts),
            ScanResult::Exhausted { .. } => panic!("no solution"),
        };
        let found = Some(solution);
        let action = s.step(Event::Searched { found, attempts });
        assert_eq!(action, Action::Submit(solution.solved));
        assert!(check_proof(&challenge, &solution.solved.nonce(), &d));
        assert_eq!(solution.epoch, block / 100);
        s.step(Event::Sent(false));
    }
}

#[test]
fn a_nonce_from_a_gpu_solves_the_puzzle_of_its_round() {
    let mut s = Session::new();
    let round = starting(&mut s, 300, [5; 32], U256::max());
    let listed = Ok(vec![Some("A".to_string())]);
    let miner = GpuMiner::new(Some(8), None, listed).ok().unwrap();
    let mut searches = miner.mine(&round.challenge, &round.difficulty, round.start_nonce);
    let report = KernelReport { flag: 1, nonce: 77 };
    let solved = match searches[0].finish_batch(report) {
        BatchOutcome::Found(solved) => solved,
        _ => panic!("nothing found"),
    };
    assert_eq!(solved.nonce(), U256::from_u64(77));
    let found = gpu_solution(&miner.conclude(vec![Ok(Some(solved))]), round.epoch);
    assert!(round.accepts(&found.unwrap()));
    let action = s.step(Event::Searched { found, attempts: 8 });
    assert_eq!(action, Action::Submit(solved));
    assert!(check_proof(&[5; 32], &U256::from_u64(77), &U256::max()));
}

#[test]
fn a_round_accepts_solutions_of_its_own_puzzle() {
    let round = Round { epoch: 3, challenge: [1; 32], difficulty: U256::max(), start_nonce: 0 };
    let solution = solution_of(&round, 5);
    assert!(round.accepts(&solution));
    assert!(!Round { epoch: 4, ..round }.accepts(&solution));
    assert!(!Round { challenge: [2; 32], ..round }.accepts(&solution));
    let easier = U256::from_be_bytes(&[0xfe; 32]);
    assert!(!Round { difficulty: easier, ..round }.accepts(&solution));
    assert!(Round { start_nonce: 9, ..round }.accepts(&solution));
}

#[test]
fn a_round_submits_at_most_once() {
    let mut s = Session::new();
    let mut rounds = 0;
    let mut submissions = 0;
    for block in 0..6u64 {
        let round = starting(&mut s, block, [6; 32], U256::max());
        rounds += 1;
        let found = if block % 2 == 0 {
            Some(solution_of(&round, block))
        } else {
            None
        };
        if let Action::Submit(solved) = s.step(Event::Searched { found, attempts: 1 }) {
            assert_eq!(solved.nonce(), U256::from_u64(block));
            submissions += 1;
            assert_eq!(s.step(Event::Sent(true)), Action::AwaitReceipt);
            assert_eq!(s.step(Event::Receipt(Some(true))), Action::Again);
        }
        assert_eq!(s.phase, Phase::Start);
    }
    assert_eq!((rounds, submissions, s.mints), (6, 3, 3));
}

#[test]
fn a_gpu_nonce_becomes_a_solution() {
    let round = Round { epoch: 4, challenge: [1; 32], difficulty: U256::max(), start_nonce: 0 };
    let solution = solution_of(&round, 8_013_143_828_958_257_601);
    assert_eq!(gpu_solution(&Ok(Some(solution.solved)), 4), Some(solution));
    assert_eq!(gpu_solution(&Ok(None), 4), None);
    assert_eq!(gpu_solution(&Err("lost".to_string()), 4), None);
}

#[test]
fn the_watch_looks_at_the_flags_first() {
    let mut w = Watchdog::new(3);
    assert_eq!(w.tick(true, true, 9000, 90_000, 5), Tick::Leave);
    assert_eq!(w.tick(false, true, 9000, 90_000, 5), Tick::CallOff);
    assert_eq!(w, Watchdog { target_epoch: 3, last_attempts: 0 });
}

#[test]
fn the_watch_keeps_its_intervals() {
    let mut w = Watchdog::new(3);
    assert_eq!(
        w.tick(false, false, 1999, 14_999, 5),
        Tick::Watch { stats: None, poll: false }
    );
    assert_eq!(
        w.tick(false, false, 2000, 14_999, 50),
        Tick::Watch { stats: Some(50), poll: false }
    );
    assert_eq!(
        w.tick(false, false, 0, 15_000, 60),
        Tick::Watch { stats: None, poll: true }
    );
    assert_eq!(
        w.tick(false, false, 2500, 0, 80),
        Tick::Watch { stats: Some(30), poll: false }
    );
    assert_eq!(
        w.tick(false, false, 2500, 0, 10),
        Tick::Watch { stats: Some(0), poll: false }
    );
}

#[test]
fn statistics_add_up_to_the_counter() {
    let mut w = Watchdog::new(0);
    let mut sum = 0;
    for reading in [3u64, 3, 10, 200, 16384] {
        if let Tick::Watch { stats: Some(new), .. } = w.tick(false, false, 2000, 0, reading) {
            sum += new;
        }
    }
    assert_eq!(sum, 16384);
}

#[test]
fn a_new_epoch_ends_the_search() {
    let w = Watchdog::new(250_699);
    assert_eq!(w.on_poll(None), Poll::Failed);
    assert_eq!(w.on_poll(Some(25_069_999)), Poll::SameEpoch);
    assert_eq!(w.on_poll(Some(25_070_000)), Poll::NewEpoch(250_700));
    assert_eq!(w.on_poll(Some(25_069_899)), Poll::NewEpoch(250_698));
}

#[test]
fn every_gpu_has_a_wallet_where_there_are_enough() {
    for wallets in 2..8 {
        for gpus in 1..=wallets {
            let assigned = assign_gpus(wallets, gpus);
            for g in 0..gpus {
                assert!(assigned.contains(&Some(g)));
            }
            assert!(assigned.iter().all(|a| a.unwrap() < gpus));
        }
    }
}

#[test]
fn totals_of_a_session_are_those_of_its_events() {
    let mut s = Session::new();
    let mut tried = 0;
    for n in 1..=5u64 {
        let solution = solution_of(&searching(&mut s), n);
        let found = if n % 2 == 0 { Some(solution) } else { None };
        tried += 100 * n;
        s.step(Event::Searched { found, attempts: 100 * n });
        if found.is_some() {
            s.step(Event::Sent(true));
            s.step(Event::Receipt(Some(true)));
        }
    }
    assert_eq!((s.attempts, s.mints), (tried, 2));
}
