//! The search of a round, the self-test of a device, and a session.

use equium_cuda_miner::oracle::{
    examine_solutions, rule, Finding, OracleAction, OracleCheck, OracleFailure,
};
use equium_cuda_miner::search::{
    RaceWinner, RoundOutcome, RoundSearch, SearchAction, SearchEvent,
};
use equium_cuda_miner::session::{AfterSearch, AfterSubmit, RoundPlan, Session};
use equium_cuda_miner::wire::compress_indices;

/// Solves the nonce of zeros under the input block of [`input`].
const SOLUTION: [u32; 32] = [
    2358, 32202, 12715, 22230, 11797, 28182, 95274, 126530, 36124, 54071, 65997, 75662, 44339,
    114365, 45293, 112949, 8079, 129535, 34827, 75704, 16853, 111164, 17453, 62290, 13331, 124378,
    62407, 66866, 79273, 91272, 102238, 128007,
];

fn input() -> [u8; 81] {
    let mut input = [0u8; 81];
    for i in 0..81 {
        input[i] = ((7 * i + 3) % 256) as u8;
    }
    input
}

fn drawn(search: &mut RoundSearch, nonce: [u8; 32]) {
    assert_eq!(search.advance(SearchEvent::Nonce(nonce)), SearchAction::Solve(nonce));
}

#[test]
fn a_valid_candidate_under_the_target_wins() {
    let mut search = RoundSearch::new(96, 5, &input(), 10);
    assert_eq!(search.advance(SearchEvent::Start), SearchAction::Draw);
    drawn(&mut search, [0u8; 32]);
    // The first candidate is refused, the second is verified.
    let wire = compress_indices(96, 5, &SOLUTION);
    let action = search.step(SearchEvent::Candidates(vec![[1u32; 32], SOLUTION]));
    assert_eq!(action, SearchAction::Judge(wire.clone()));
    let action = search.step(SearchEvent::Judged(true));
    assert_eq!(
        action,
        SearchAction::Stop(RoundOutcome {
            winner: Some(RaceWinner { nonce: [0u8; 32], soln_indices: wire }),
            nonces_tried: 1
        })
    );
}

#[test]
fn a_solution_of_another_nonce_is_passed_over() {
    let mut search = RoundSearch::new(96, 5, &input(), 1);
    assert_eq!(search.advance(SearchEvent::Start), SearchAction::Draw);
    drawn(&mut search, [1u8; 32]);
    let action = search.step(SearchEvent::Candidates(vec![SOLUTION]));
    assert_eq!(
        action,
        SearchAction::Stop(RoundOutcome { winner: None, nonces_tried: 1 })
    );
}

#[test]
fn a_candidate_above_the_target_is_passed_over() {
    let mut search = RoundSearch::new(96, 5, &input(), 2);
    assert_eq!(search.advance(SearchEvent::Start), SearchAction::Draw);
    drawn(&mut search, [0u8; 32]);
    let action = search.step(SearchEvent::Candidates(vec![SOLUTION]));
    assert!(matches!(action, SearchAction::Judge(_)));
    assert!(matches!(search.step(SearchEvent::Judged(false)), SearchAction::Solve(_)));
    let action = search.step(SearchEvent::Candidates(Vec::new()));
    assert_eq!(
        action,
        SearchAction::Stop(RoundOutcome { winner: None, nonces_tried: 2 })
    );
}

#[test]
fn a_round_without_a_budget_tries_nothing() {
    let mut search = RoundSearch::new(96, 5, &input(), 0);
    assert_eq!(
        search.step(SearchEvent::Start),
        SearchAction::Stop(RoundOutcome { winner: None, nonces_tried: 0 })
    );
}

#[test]
fn the_budget_is_used_up() {
    let mut search = RoundSearch::new(96, 5, &input(), 3);
    let mut nonces: Vec<[u8; 32]> = Vec::new();
    let mut action = search.step(SearchEvent::Start);
    loop {
        match action {
            SearchAction::Solve(nonce) => nonces.push(nonce),
            SearchAction::Stop(outcome) => {
                assert_eq!(outcome, RoundOutcome { winner: None, nonces_tried: 3 });
                break;
            }
            _ => unreachable!(),
        }
        action = search.step(SearchEvent::Candidates(vec![[0u32; 32]]));
    }
    assert_eq!(nonces.len(), 3);
    // Drawn at random, and so not the array that they are drawn into.
    assert_ne!(nonces[0], [0u8; 32]);
    assert_ne!(nonces[0], nonces[1]);
    assert_ne!(nonces[1], nonces[2]);
}

#[test]
fn the_first_winner_is_returned() {
    let mut search = RoundSearch::new(96, 5, &input(), 10);
    assert_eq!(search.advance(SearchEvent::Start), SearchAction::Draw);
    drawn(&mut search, [4u8; 32]);
    let first = [2u32; 32];
    let second = [3u32; 32];
    let wire = compress_indices(96, 5, &first);
    assert_eq!(
        search.advance(SearchEvent::Candidates(vec![first, second])),
        SearchAction::Verify(wire.clone())
    );
    assert_eq!(
        search.advance(SearchEvent::Verified(true)),
        SearchAction::Judge(wire.clone())
    );
    assert_eq!(
        search.advance(SearchEvent::Judged(true)),
        SearchAction::Stop(RoundOutcome {
            winner: Some(RaceWinner { nonce: [4u8; 32], soln_indices: wire }),
            nonces_tried: 1
        })
    );
}

#[test]
fn candidates_are_looked_at_in_order() {
    let mut search = RoundSearch::new(96, 5, &input(), 10);
    assert_eq!(search.advance(SearchEvent::Start), SearchAction::Draw);
    drawn(&mut search, [4u8; 32]);
    let first = [2u32; 32];
    let second = [3u32; 32];
    assert_eq!(
        search.advance(SearchEvent::Candidates(vec![first, second])),
        SearchAction::Verify(compress_indices(96, 5, &first))
    );
    assert_eq!(
        search.advance(SearchEvent::Verified(false)),
        SearchAction::Verify(compress_indices(96, 5, &second))
    );
    assert_eq!(search.advance(SearchEvent::Verified(false)), SearchAction::Draw);
}

fn both(cpu_valid: bool, candidates: usize, gpu_valid: bool, agree: bool) -> Finding {
    Finding::Both { cpu_valid, candidates, gpu_valid, agree }
}

#[test]
fn the_device_is_held_to_its_first_candidate() {
    let nonce = [0u8; 32];
    assert_eq!(
        examine_solutions(&input(), &nonce, &None, &vec![SOLUTION, [0u32; 32]]),
        Finding::GpuOnly { candidates: 2, gpu_valid: true }
    );
    assert_eq!(
        examine_solutions(&input(), &nonce, &None, &vec![[0u32; 32], SOLUTION]),
        Finding::GpuOnly { candidates: 2, gpu_valid: false }
    );
    assert_eq!(examine_solutions(&input(), &nonce, &None, &Vec::new()), Finding::Neither);
}

#[test]
fn host_and_device_are_compared() {
    let wire = compress_indices(96, 5, &SOLUTION);
    let nonce = [0u8; 32];
    assert_eq!(
        examine_solutions(&input(), &nonce, &Some(wire.clone()), &vec![SOLUTION]),
        both(true, 1, true, true)
    );
    // Any of the candidates may be the one that they agree on.
    assert_eq!(
        examine_solutions(&input(), &nonce, &Some(wire.clone()), &vec![[0u32; 32], SOLUTION]),
        both(true, 2, false, true)
    );
    assert_eq!(
        examine_solutions(&input(), &nonce, &Some(wire.clone()), &vec![[0u32; 32]]),
        both(true, 1, false, false)
    );
    // One that differs in the last byte, or is cut short, is another solution.
    let mut other = wire.clone();
    other[67] ^= 1;
    assert_eq!(
        examine_solutions(&input(), &nonce, &Some(other), &vec![SOLUTION]),
        both(false, 1, true, false)
    );
    assert_eq!(
        examine_solutions(&input(), &nonce, &Some(wire[..67].to_vec()), &vec![SOLUTION]),
        both(false, 1, true, false)
    );
    // They may agree on a solution that is invalid.
    assert_eq!(
        examine_solutions(&input(), &nonce, &Some(vec![0u8; 68]), &vec![[0u32; 32]]),
        both(false, 1, false, true)
    );
    // Whatever the length of a solution.
    assert_eq!(
        examine_solutions(&input(), &nonce, &Some(vec![1u8; 3]), &vec![[0u32; 32]]),
        both(false, 1, false, false)
    );
    assert_eq!(
        examine_solutions(&input(), &nonce, &Some(wire), &Vec::new()),
        Finding::CpuOnly
    );
}

#[test]
fn findings_are_ruled_on() {
    assert_eq!(rule(Finding::Neither), None);
    assert_eq!(rule(Finding::CpuOnly), None);
    assert_eq!(
        rule(Finding::GpuOnly { candidates: 4, gpu_valid: false }),
        Some(Err(OracleFailure::NoneValid { candidates: 4 }))
    );
    let refuted = Some(Err(OracleFailure::InvalidCandidate));
    assert_eq!(rule(both(true, 1, false, true)), refuted);
    assert_eq!(rule(both(true, 1, false, false)), refuted);
    assert_eq!(rule(both(false, 1, false, true)), refuted);
    assert_eq!(rule(both(false, 1, false, false)), refuted);
}

#[test]
fn only_agreement_on_a_valid_solution_passes() {
    assert_eq!(rule(both(true, 1, true, true)), Some(Ok(())));
    assert_eq!(rule(both(true, 1, true, false)), None);
    assert_eq!(rule(both(false, 1, true, true)), None);
    assert_eq!(rule(both(false, 1, true, false)), None);
    // A valid solution that the host did not find.
    assert_eq!(rule(Finding::GpuOnly { candidates: 1, gpu_valid: true }), None);
}

#[test]
fn the_self_test_gives_up_after_its_budget() {
    let (mut check, mut action) = OracleCheck::start(&input());
    let mut tried = 0;
    while let OracleAction::Solve(_) = action {
        tried += 1;
        assert_eq!(check.nonce_number(), tried);
        let found = check.examine(&None, &Vec::new());
        action = check.proceed(found);
    }
    assert_eq!(tried, 256);
    assert_eq!(action, OracleAction::Stop(Err(OracleFailure::Exhausted)));
}

#[test]
fn the_self_test_ends_on_a_ruling() {
    let (mut check, action) = OracleCheck::start(&input());
    assert!(matches!(action, OracleAction::Solve(_)));
    assert!(matches!(check.proceed(Finding::CpuOnly), OracleAction::Solve(_)));
    assert_eq!(check.nonce_number(), 2);
    // A solution of another nonce.
    let found = check.examine(&None, &vec![SOLUTION]);
    assert_eq!(
        check.proceed(found),
        OracleAction::Stop(Err(OracleFailure::NoneValid { candidates: 1 }))
    );
    let unconfirmed = Finding::GpuOnly { candidates: 1, gpu_valid: true };
    assert!(matches!(check.proceed(unconfirmed), OracleAction::Solve(_)));
    assert_eq!(check.nonce_number(), 3);
    assert_eq!(check.proceed(both(true, 1, true, true)), OracleAction::Stop(Ok(())));
    assert_eq!(check.nonce_number(), 3);
}

const SEC: u64 = 1_000_000_000;

#[test]
fn a_new_height_starts_a_round() {
    let mut session = Session::new(0, 0);
    assert!(session.observe_height(7, 5));
    assert!(!session.observe_height(7, 6));
    assert_eq!(session.note_search(10, false), AfterSearch::Refetch);
    assert_eq!(session.note_search(10, true), AfterSearch::Submit);
    assert_eq!(session.try_in_round(), 2);
    assert_eq!(session.total_nonces(), 20);
    assert!(session.observe_height(8, 7));
    assert_eq!(session.try_in_round(), 0);
    assert_eq!(session.total_nonces(), 20);
}

#[test]
fn the_first_height_may_be_the_unseen_one() {
    let mut session = Session::new(0, 0);
    assert!(!session.observe_height(u64::MAX, 5));
}

#[test]
fn a_round_is_advanced_after_75_seconds() {
    let mut session = Session::new(0, 0);
    session.observe_height(7, 10 * SEC);
    assert_eq!(session.plan_round(85 * SEC - 1), RoundPlan::Search);
    assert_eq!(session.plan_round(85 * SEC), RoundPlan::Advance { stalled_secs: 75 });
    assert_eq!(session.plan_round(87 * SEC - 1), RoundPlan::Advance { stalled_secs: 76 });
    // A clock that goes backwards.
    assert_eq!(session.plan_round(0), RoundPlan::Search);
}

#[test]
fn advances_are_30_seconds_apart() {
    let mut session = Session::new(0, 0);
    session.observe_height(7, 0);
    session.note_advance(80 * SEC);
    assert_eq!(session.plan_round(110 * SEC - 1), RoundPlan::Search);
    assert_eq!(session.plan_round(110 * SEC), RoundPlan::Advance { stalled_secs: 110 });
    // A known height does not shorten the wait, a new one starts another.
    session.observe_height(7, 100 * SEC);
    assert_eq!(session.plan_round(110 * SEC - 1), RoundPlan::Search);
    session.observe_height(8, 100 * SEC);
    assert_eq!(session.plan_round(110 * SEC), RoundPlan::Search);
    assert_eq!(session.plan_round(175 * SEC), RoundPlan::Advance { stalled_secs: 75 });
}

#[test]
fn a_session_ends_at_its_limit() {
    let mut session = Session::new(2, 0);
    assert_eq!(session.note_accepted(5), AfterSubmit::Refetch);
    assert_eq!(session.after_refusal(), AfterSubmit::Pause { millis: 200 });
    assert_eq!(session.note_accepted(6), AfterSubmit::Finish);
    assert_eq!(session.blocks_mined(), 2);
    assert_eq!(session.total_reward_base(), 11);
}

#[test]
fn a_session_without_limit_goes_on() {
    let mut session = Session::new(0, 0);
    for _ in 0..100 {
        assert_eq!(session.note_accepted(1), AfterSubmit::Refetch);
    }
    assert_eq!(session.blocks_mined(), 100);
}

#[test]
fn totals_stop_at_the_largest_number() {
    let mut session = Session::new(0, 0);
    session.note_accepted(u64::MAX);
    session.note_accepted(3);
    assert_eq!(session.total_reward_base(), u64::MAX);
    session.note_search(u64::MAX - 1, false);
    session.note_search(7, false);
    assert_eq!(session.total_nonces(), u64::MAX);
}
