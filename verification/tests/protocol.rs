use crossword::contract::{Crossword, ACCESS_KEY_ALLOWANCE, PRIZE_AMOUNT};
use crossword::errors::Error;
use crossword::puzzle::{Answer, AnswerDirection, CoordinatePair, NewPuzzleArgs, PuzzleStatus};
use crossword::settlement::{CallOutcome, PendingAction, SettlementAction};

fn make_args(answer_pk: &str) -> NewPuzzleArgs {
    NewPuzzleArgs {
        answer_pk: answer_pk.to_string(),
        dimensions: CoordinatePair { x: 19, y: 13 },
        answers: vec![Answer {
            num: 1,
            start: CoordinatePair { x: 19, y: 31 },
            direction: AnswerDirection::Across,
            length: 8,
            clue: "not far but".to_string(),
        }],
    }
}

fn owner() -> String {
    "puzzle-owner.example".to_string()
}

fn creator_account() -> String {
    "provisioner.example".to_string()
}

fn funded_contract() -> Crossword {
    Crossword::new(owner(), creator_account(), 3 * PRIZE_AMOUNT)
}

/// A contract with one puzzle under `K1`, already solved by `S1`.
fn solved_contract() -> Crossword {
    let mut c = funded_contract();
    assert!(c.new_puzzle(&owner(), make_args("K1")).is_ok());
    assert!(c.submit_solution(&"K1".to_string(), "S1".to_string()).is_ok());
    c
}

fn claim_to_a1(c: &mut Crossword) -> PendingAction {
    c.claim_reward(
        &"S1".to_string(),
        "K1".to_string(),
        "A1".to_string(),
        "paid out".to_string(),
    )
    .expect("claim by the solver should be accepted")
}

#[test]
fn create_only_for_owner() {
    let mut c = funded_contract();
    let r = c.new_puzzle(&"someone-else".to_string(), make_args("K1"));
    assert_eq!(r, Err(Error::Unauthorized));
    assert!(c.puzzle_status(&"K1".to_string()).is_none());
}

#[test]
fn create_duplicate_credential_fails_and_keeps_record() {
    let mut c = funded_contract();
    assert!(c.new_puzzle(&owner(), make_args("K1")).is_ok());
    let mut second = make_args("K1");
    second.dimensions = CoordinatePair { x: 1, y: 1 };
    second.answers.clear();
    assert_eq!(c.new_puzzle(&owner(), second), Err(Error::DuplicateCredential));
    let listing = c.get_unsolved_puzzles();
    assert_eq!(listing.puzzles.len(), 1);
    let kept = &listing.puzzles[0];
    assert_eq!(kept.solution_public_key, "K1");
    assert_eq!(kept.dimensions, CoordinatePair { x: 19, y: 13 });
    assert_eq!(kept.answer.len(), 1);
    assert_eq!(kept.answer[0].clue, "not far but");
    assert_eq!(kept.reward, PRIZE_AMOUNT);
    assert_eq!(kept.creator, owner());
}

#[test]
fn listing_shows_unsolved_puzzles_verbatim() {
    let mut c = funded_contract();
    assert!(c.new_puzzle(&owner(), make_args("K1")).is_ok());
    assert!(c.new_puzzle(&owner(), make_args("K2")).is_ok());
    let listing = c.get_unsolved_puzzles();
    assert_eq!(listing.creator_account, creator_account());
    assert_eq!(listing.puzzles.len(), 2);
    assert_eq!(listing.puzzles[0].solution_public_key, "K1");
    assert_eq!(listing.puzzles[1].solution_public_key, "K2");
    assert!(matches!(listing.puzzles[0].status, PuzzleStatus::Unsolved));
    assert_eq!(listing.puzzles[0].answer[0].length, 8);
    assert!(matches!(
        listing.puzzles[0].answer[0].direction,
        AnswerDirection::Across
    ));
    assert_eq!(listing.puzzles[0].answer[0].start, CoordinatePair { x: 19, y: 31 });
}

#[test]
fn solving_removes_only_that_puzzle_from_listing() {
    let mut c = funded_contract();
    assert!(c.new_puzzle(&owner(), make_args("K1")).is_ok());
    assert!(c.new_puzzle(&owner(), make_args("K2")).is_ok());
    assert!(c.submit_solution(&"K1".to_string(), "S1".to_string()).is_ok());
    let listing = c.get_unsolved_puzzles();
    assert_eq!(listing.puzzles.len(), 1);
    assert_eq!(listing.puzzles[0].solution_public_key, "K2");
}

#[test]
fn solve_unknown_credential_fails() {
    let mut c = funded_contract();
    assert!(c.new_puzzle(&owner(), make_args("K1")).is_ok());
    let r = c.submit_solution(&"K2".to_string(), "S1".to_string());
    assert_eq!(r, Err(Error::PuzzleNotFound));
}

#[test]
fn solve_records_solver_and_leaves_listing() {
    let mut c = funded_contract();
    assert!(c.new_puzzle(&owner(), make_args("K1")).is_ok());
    assert!(c.submit_solution(&"K1".to_string(), "S1".to_string()).is_ok());
    match c.puzzle_status(&"K1".to_string()) {
        Some(PuzzleStatus::Solved { solver_pk }) => assert_eq!(solver_pk, "S1"),
        other => panic!("expected a solved puzzle, got {:?}", other),
    }
    assert_eq!(c.get_unsolved_puzzles().puzzles.len(), 0);
}

#[test]
fn solve_twice_fails_without_state_change() {
    let mut c = solved_contract();
    let r = c.submit_solution(&"K1".to_string(), "S2".to_string());
    assert_eq!(r, Err(Error::AlreadySolved));
    match c.puzzle_status(&"K1".to_string()) {
        Some(PuzzleStatus::Solved { solver_pk }) => assert_eq!(solver_pk, "S1"),
        other => panic!("expected the first solver to be kept, got {:?}", other),
    }
}

#[test]
fn claim_by_non_solver_fails() {
    let mut c = solved_contract();
    let r = c.claim_reward(
        &"S2".to_string(),
        "K1".to_string(),
        "A2".to_string(),
        "stolen".to_string(),
    );
    assert_eq!(r.unwrap_err(), Error::Unauthorized);
    assert_eq!(c.available_balance(), 3 * PRIZE_AMOUNT);
    assert_eq!(c.pending_settlements(), 0);
}

#[test]
fn claim_unsolved_puzzle_fails() {
    let mut c = funded_contract();
    assert!(c.new_puzzle(&owner(), make_args("K1")).is_ok());
    let r = c.claim_reward(
        &"S1".to_string(),
        "K1".to_string(),
        "A1".to_string(),
        "early".to_string(),
    );
    assert_eq!(r.unwrap_err(), Error::Unauthorized);
}

#[test]
fn claim_unknown_credential_fails() {
    let mut c = solved_contract();
    let r = c.claim_reward(
        &"S1".to_string(),
        "K9".to_string(),
        "A1".to_string(),
        "lost".to_string(),
    );
    assert_eq!(r.unwrap_err(), Error::PuzzleNotFound);
}

#[test]
fn claim_without_funds_fails_before_any_external_call() {
    let mut c = Crossword::new(owner(), creator_account(), PRIZE_AMOUNT / 2);
    assert!(c.new_puzzle(&owner(), make_args("K1")).is_ok());
    assert!(c.submit_solution(&"K1".to_string(), "S1".to_string()).is_ok());
    let r = c.claim_reward(
        &"S1".to_string(),
        "K1".to_string(),
        "A1".to_string(),
        "broke".to_string(),
    );
    assert_eq!(r.unwrap_err(), Error::InsufficientFunds);
    assert_eq!(c.pending_settlements(), 0);
    assert_eq!(c.available_balance(), PRIZE_AMOUNT / 2);
}

#[test]
fn successful_direct_claim_finalizes_and_debits_escrow() {
    let mut c = solved_contract();
    let pa = claim_to_a1(&mut c);
    match &pa.action {
        SettlementAction::Transfer { receiver, amount } => {
            assert_eq!(receiver, "A1");
            assert_eq!(*amount, PRIZE_AMOUNT);
        },
        other => panic!("expected a transfer action, got {:?}", other),
    }
    assert_eq!(c.available_balance(), 2 * PRIZE_AMOUNT);
    let r = c.callback_after_transfer(pa.handle, vec![CallOutcome::Successful(Vec::new())]);
    assert_eq!(r, Ok(()));
    match c.puzzle_status(&"K1".to_string()) {
        Some(PuzzleStatus::Claimed { memo }) => assert_eq!(memo, "paid out"),
        other => panic!("expected a claimed puzzle, got {:?}", other),
    }
    assert_eq!(c.available_balance(), 2 * PRIZE_AMOUNT);
    assert_eq!(c.pending_settlements(), 0);
}

#[test]
fn failed_transfer_leaves_puzzle_claimable_and_escrow_whole() {
    let mut c = solved_contract();
    let pa = claim_to_a1(&mut c);
    assert_eq!(c.available_balance(), 2 * PRIZE_AMOUNT);
    let r = c.callback_after_transfer(pa.handle, vec![CallOutcome::Failed]);
    assert_eq!(r, Err(Error::ExternalCallFailed));
    match c.puzzle_status(&"K1".to_string()) {
        Some(PuzzleStatus::Solved { solver_pk }) => assert_eq!(solver_pk, "S1"),
        other => panic!("expected the puzzle to stay solved, got {:?}", other),
    }
    assert_eq!(c.available_balance(), 3 * PRIZE_AMOUNT);
    // The solver may try again, with either variant.
    let second = claim_to_a1(&mut c);
    let r = c.callback_after_transfer(second.handle, vec![CallOutcome::Successful(Vec::new())]);
    assert_eq!(r, Ok(()));
    assert_eq!(c.available_balance(), 2 * PRIZE_AMOUNT);
}

#[test]
fn claim_after_claimed_fails_and_never_repays() {
    let mut c = solved_contract();
    let pa = claim_to_a1(&mut c);
    assert_eq!(
        c.callback_after_transfer(pa.handle, vec![CallOutcome::Successful(Vec::new())]),
        Ok(())
    );
    let balance_after = c.available_balance();
    let r = c.claim_reward(
        &"S1".to_string(),
        "K1".to_string(),
        "A1".to_string(),
        "again".to_string(),
    );
    assert_eq!(r.unwrap_err(), Error::AlreadyClaimed);
    assert_eq!(c.available_balance(), balance_after);
    // Replaying the continuation is a protocol violation, not a payout.
    let replay = c.callback_after_transfer(pa.handle, vec![CallOutcome::Successful(Vec::new())]);
    assert_eq!(replay, Err(Error::ProtocolViolation));
    assert_eq!(c.available_balance(), balance_after);
}

#[test]
fn solve_after_claimed_fails() {
    let mut c = solved_contract();
    let pa = claim_to_a1(&mut c);
    assert_eq!(
        c.callback_after_transfer(pa.handle, vec![CallOutcome::Successful(Vec::new())]),
        Ok(())
    );
    let r = c.submit_solution(&"K1".to_string(), "S2".to_string());
    assert_eq!(r, Err(Error::AlreadyClaimed));
}

#[test]
fn continuation_demands_exactly_one_outcome() {
    let mut c = solved_contract();
    let pa = claim_to_a1(&mut c);
    assert_eq!(
        c.callback_after_transfer(pa.handle, Vec::new()),
        Err(Error::ProtocolViolation)
    );
    assert_eq!(
        c.callback_after_transfer(
            pa.handle,
            vec![CallOutcome::Failed, CallOutcome::Failed],
        ),
        Err(Error::ProtocolViolation)
    );
    // The settlement is still in flight and can then conclude normally.
    assert_eq!(c.pending_settlements(), 1);
    assert_eq!(
        c.callback_after_transfer(pa.handle, vec![CallOutcome::Failed]),
        Err(Error::ExternalCallFailed)
    );
    assert_eq!(c.available_balance(), 3 * PRIZE_AMOUNT);
}

#[test]
fn continuation_for_wrong_settlement_kind_is_rejected() {
    let mut c = solved_contract();
    let pa = claim_to_a1(&mut c);
    let r = c.callback_after_create_account(pa.handle, vec![CallOutcome::Successful(b"true".to_vec())]);
    assert_eq!(r, Err(Error::ProtocolViolation));
    assert_eq!(c.pending_settlements(), 1);
}

#[test]
fn claim_with_new_account_describes_provisioning_call() {
    let mut c = solved_contract();
    let pa = c
        .claim_reward_new_account(
            &"S1".to_string(),
            "K1".to_string(),
            "fresh.example".to_string(),
            "NEWPK".to_string(),
            "minted".to_string(),
        )
        .expect("claim by the solver should be accepted");
    match &pa.action {
        SettlementAction::CreateAccount { funder, new_account, new_credential, amount } => {
            assert_eq!(funder, &creator_account());
            assert_eq!(new_account, "fresh.example");
            assert_eq!(new_credential, "NEWPK");
            assert_eq!(*amount, PRIZE_AMOUNT);
        },
        other => panic!("expected a provisioning action, got {:?}", other),
    }
    assert_eq!(c.available_balance(), 2 * PRIZE_AMOUNT);
}

#[test]
fn provisioning_success_finalizes_puzzle() {
    let mut c = solved_contract();
    let pa = c
        .claim_reward_new_account(
            &"S1".to_string(),
            "K1".to_string(),
            "fresh.example".to_string(),
            "NEWPK".to_string(),
            "minted".to_string(),
        )
        .unwrap();
    // The payload is JSON, so surrounding whitespace is insignificant.
    let r = c.callback_after_create_account(
        pa.handle,
        vec![CallOutcome::Successful(b" true\n".to_vec())],
    );
    assert_eq!(r, Ok(()));
    match c.puzzle_status(&"K1".to_string()) {
        Some(PuzzleStatus::Claimed { memo }) => assert_eq!(memo, "minted"),
        other => panic!("expected a claimed puzzle, got {:?}", other),
    }
    assert_eq!(c.available_balance(), 2 * PRIZE_AMOUNT);
}

#[test]
fn provisioning_nested_false_counts_as_failure() {
    let mut c = solved_contract();
    let pa = c
        .claim_reward_new_account(
            &"S1".to_string(),
            "K1".to_string(),
            "fresh.example".to_string(),
            "NEWPK".to_string(),
            "minted".to_string(),
        )
        .unwrap();
    let r = c.callback_after_create_account(
        pa.handle,
        vec![CallOutcome::Successful(b"false".to_vec())],
    );
    assert_eq!(r, Err(Error::ExternalCallFailed));
    match c.puzzle_status(&"K1".to_string()) {
        Some(PuzzleStatus::Solved { solver_pk }) => assert_eq!(solver_pk, "S1"),
        other => panic!("expected the puzzle to stay solved, got {:?}", other),
    }
    assert_eq!(c.available_balance(), 3 * PRIZE_AMOUNT);
}

#[test]
fn provisioning_failure_refunds_escrow() {
    let mut c = solved_contract();
    let pa = c
        .claim_reward_new_account(
            &"S1".to_string(),
            "K1".to_string(),
            "fresh.example".to_string(),
            "NEWPK".to_string(),
            "minted".to_string(),
        )
        .unwrap();
    let r = c.callback_after_create_account(pa.handle, vec![CallOutcome::Failed]);
    assert_eq!(r, Err(Error::ExternalCallFailed));
    assert_eq!(c.available_balance(), 3 * PRIZE_AMOUNT);
    assert_eq!(c.pending_settlements(), 0);
}

#[test]
fn provisioning_payload_must_be_a_boolean() {
    let mut c = solved_contract();
    let pa = c
        .claim_reward_new_account(
            &"S1".to_string(),
            "K1".to_string(),
            "fresh.example".to_string(),
            "NEWPK".to_string(),
            "minted".to_string(),
        )
        .unwrap();
    let r = c.callback_after_create_account(
        pa.handle,
        vec![CallOutcome::Successful(b"yes".to_vec())],
    );
    assert_eq!(r, Err(Error::ProtocolViolation));
    // Fatal: nothing was mutated, the settlement record is still in flight.
    assert_eq!(c.pending_settlements(), 1);
    match c.puzzle_status(&"K1".to_string()) {
        Some(PuzzleStatus::Solved { solver_pk }) => assert_eq!(solver_pk, "S1"),
        other => panic!("expected the puzzle to stay solved, got {:?}", other),
    }
}

#[test]
fn two_inflight_claims_pay_at_most_once_per_settlement() {
    let mut c = solved_contract();
    let first = claim_to_a1(&mut c);
    let second = claim_to_a1(&mut c);
    assert_eq!(c.available_balance(), PRIZE_AMOUNT);
    assert_eq!(
        c.callback_after_transfer(first.handle, vec![CallOutcome::Successful(Vec::new())]),
        Ok(())
    );
    // The puzzle is already claimed when the second outcome arrives: the
    // settlement cannot finalize it a second time.
    assert_eq!(
        c.callback_after_transfer(second.handle, vec![CallOutcome::Failed]),
        Err(Error::ExternalCallFailed)
    );
    assert_eq!(c.available_balance(), 2 * PRIZE_AMOUNT);
    match c.puzzle_status(&"K1".to_string()) {
        Some(PuzzleStatus::Claimed { memo }) => assert_eq!(memo, "paid out"),
        other => panic!("expected a claimed puzzle, got {:?}", other),
    }
}

#[test]
fn second_successful_settlement_cannot_refinalize() {
    let mut c = solved_contract();
    let first = claim_to_a1(&mut c);
    let second = claim_to_a1(&mut c);
    assert_eq!(
        c.callback_after_transfer(first.handle, vec![CallOutcome::Successful(Vec::new())]),
        Ok(())
    );
    let r = c.callback_after_transfer(second.handle, vec![CallOutcome::Successful(Vec::new())]);
    assert_eq!(r, Err(Error::AlreadyClaimed));
    assert_eq!(c.available_balance(), PRIZE_AMOUNT);
    assert_eq!(c.pending_settlements(), 1);
}

#[test]
fn capability_allowance_is_the_configured_budget() {
    // The allowance travels with each issued capability; the protocol never
    // spends from it, so it is simply the configured constant.
    assert_eq!(ACCESS_KEY_ALLOWANCE, 250_000_000_000_000_000_000_000);
    assert!(PRIZE_AMOUNT > ACCESS_KEY_ALLOWANCE);
}
