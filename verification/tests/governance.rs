use quorum::deployment::{close_voting, deploy, deploy_with_threshold, open_with_holders, propose, queue_proposal};
use quorum::env::Env;
use quorum::governance::{
    GovernanceContract, GovernanceError, GovernanceEvent, ProposalCreated, ProposalFinalized, ProposalStatus, VoteCast,
};
use quorum::token::{Mint, QuorumToken, TokenEvent, Transfer};

const QUORUM_BPS: u32 = 500; // 5%
const VOTING_PERIOD: u32 = 100;
const TIMELOCK_PERIOD: u32 = 50;
const PROPOSAL_THRESHOLD: i128 = 0;

#[test]
fn quorum_required_is_derived_from_token_total_supply() {
    let mut env = Env::default();
    let (_, _, governance_id) = deploy(&mut env, 1_000_000, QUORUM_BPS);
    let proposer = env.generate_address();

    let proposal = propose(&mut env, governance_id, proposer);

    // 5% of 1_000_000
    assert_eq!(proposal.quorum_required, 50_000);
}

#[test]
fn quorum_required_tracks_supply_changes_between_proposals() {
    let mut env = Env::default();
    let (admin, _token_id, governance_id) = deploy(&mut env, 1_000_000, QUORUM_BPS);
    let proposer = env.generate_address();

    let first = propose(&mut env, governance_id, proposer);
    assert_eq!(first.quorum_required, 50_000);

    // Minting raises circulating supply, so later proposals need a higher bar.
    QuorumToken::mint(&mut env, admin, 1_000_000).unwrap();

    let second = propose(&mut env, governance_id, proposer);
    assert_eq!(second.quorum_required, 100_000);
    // The bar of the proposal already open does not move.
    assert_eq!(GovernanceContract::get_proposal(&env, first.id).unwrap().quorum_required, 50_000);
}

#[test]
fn quorum_bps_of_zero_yields_no_threshold() {
    let mut env = Env::default();
    let (_, _, governance_id) = deploy(&mut env, 1_000_000, 0);
    let proposer = env.generate_address();

    assert_eq!(propose(&mut env, governance_id, proposer).quorum_required, 0);
}

const THRESHOLD: i128 = 10_000;

#[test]
fn proposer_below_threshold_is_rejected() {
    let mut env = Env::default();
    deploy_with_threshold(&mut env, 1_000_000, QUORUM_BPS, THRESHOLD);
    let broke = env.generate_address();

    assert_eq!(
        GovernanceContract::create_proposal(
            &mut env,
            broke,
            "Fund my thing".to_string(),
            "I hold no QUORUM.".to_string(),
        ),
        Err(GovernanceError::BelowProposalThreshold)
    );
    assert_eq!(GovernanceContract::get_proposal_count(&env), 0);
}

#[test]
fn proposer_holding_just_under_threshold_is_rejected() {
    let mut env = Env::default();
    let (admin, _, _) = deploy_with_threshold(&mut env, 1_000_000, QUORUM_BPS, THRESHOLD);
    let almost = env.generate_address();
    QuorumToken::transfer(&mut env, admin, almost, THRESHOLD - 1).unwrap();

    assert_eq!(
        GovernanceContract::create_proposal(
            &mut env,
            almost,
            "One short".to_string(),
            "Holding threshold - 1.".to_string(),
        ),
        Err(GovernanceError::BelowProposalThreshold)
    );
}

#[test]
fn proposer_at_threshold_succeeds() {
    let mut env = Env::default();
    let (admin, _, _) = deploy_with_threshold(&mut env, 1_000_000, QUORUM_BPS, THRESHOLD);
    let holder = env.generate_address();

    // Exactly the threshold — the check is inclusive.
    QuorumToken::transfer(&mut env, admin, holder, THRESHOLD).unwrap();

    let id = GovernanceContract::create_proposal(
        &mut env,
        holder,
        "Exactly enough".to_string(),
        "Holding exactly the threshold.".to_string(),
    )
    .unwrap();
    assert_eq!(GovernanceContract::get_proposal(&env, id).unwrap().proposer, holder);
}

#[test]
fn zero_threshold_lets_any_address_propose() {
    let mut env = Env::default();
    deploy_with_threshold(&mut env, 1_000_000, QUORUM_BPS, 0);
    let anyone = env.generate_address();

    let id = GovernanceContract::create_proposal(
        &mut env,
        anyone,
        "Open season".to_string(),
        "No threshold configured.".to_string(),
    )
    .unwrap();
    assert_eq!(id, 1);
}

const VOTE_FOR: u32 = 1;

#[test]
fn voting_power_is_read_at_the_snapshot_not_the_live_balance() {
    let mut env = Env::default();
    env.set_sequence_number(10);
    let (admin, _, _) = deploy(&mut env, 1_000_000, QUORUM_BPS);

    env.set_sequence_number(20);
    let proposal_id = GovernanceContract::create_proposal(
        &mut env,
        admin,
        "Raise the quorum threshold".to_string(),
        "Move quorum_bps from 500 to 750.".to_string(),
    )
    .unwrap();

    // Admin gives most of the supply away *after* the snapshot.
    env.set_sequence_number(30);
    let latecomer = env.generate_address();
    QuorumToken::transfer(&mut env, admin, latecomer, 400_000).unwrap();

    GovernanceContract::vote(&mut env, admin, proposal_id, VOTE_FOR).unwrap();

    // Weight is the snapshot balance (1_000_000), not the live one (600_000).
    assert_eq!(GovernanceContract::get_proposal(&env, proposal_id).unwrap().for_votes, 1_000_000);
}

#[test]
fn tokens_acquired_after_the_snapshot_carry_no_weight() {
    let mut env = Env::default();
    env.set_sequence_number(10);
    let (admin, _, _) = deploy(&mut env, 1_000_000, QUORUM_BPS);

    env.set_sequence_number(20);
    let proposal_id = GovernanceContract::create_proposal(
        &mut env,
        admin,
        "Raise the quorum threshold".to_string(),
        "Move quorum_bps from 500 to 750.".to_string(),
    )
    .unwrap();

    // Buying in after the proposal opened must not buy influence.
    env.set_sequence_number(30);
    let latecomer = env.generate_address();
    QuorumToken::transfer(&mut env, admin, latecomer, 400_000).unwrap();

    assert_eq!(
        GovernanceContract::vote(&mut env, latecomer, proposal_id, VOTE_FOR),
        Err(GovernanceError::NoVotingPower)
    );
    assert_eq!(GovernanceContract::get_proposal(&env, proposal_id).unwrap().for_votes, 0);
    assert!(!GovernanceContract::has_voted(&env, proposal_id, latecomer));
}

#[test]
fn address_that_never_held_tokens_cannot_vote() {
    let mut env = Env::default();
    env.set_sequence_number(10);
    let (admin, _, _) = deploy(&mut env, 1_000_000, QUORUM_BPS);

    env.set_sequence_number(20);
    let proposal_id = GovernanceContract::create_proposal(
        &mut env,
        admin,
        "Raise the quorum threshold".to_string(),
        "Move quorum_bps from 500 to 750.".to_string(),
    )
    .unwrap();

    let stranger = env.generate_address();
    assert_eq!(
        GovernanceContract::vote(&mut env, stranger, proposal_id, VOTE_FOR),
        Err(GovernanceError::NoVotingPower)
    );
}

const VOTE_AGAINST: u32 = 0;
const VOTE_ABSTAIN: u32 = 2;

/// Ledger the token is deployed and holders are funded at.
const GENESIS: u32 = 10;
/// Ledger proposals are opened at, so `snapshot_ledger` is GENESIS < L < voting.
const OPENED: u32 = 20;

// ─── Initialization ──────────────────────────────────────────────────────────

#[test]
fn initialize_stores_the_supplied_config() {
    let mut env = Env::default();
    let (admin, token_id, _) = deploy_with_threshold(&mut env, 1_000_000, QUORUM_BPS, THRESHOLD);

    let config = GovernanceContract::get_config(&env).unwrap();
    assert_eq!(config.admin, admin);
    assert_eq!(config.token, token_id);
    assert_eq!(config.quorum_bps, QUORUM_BPS);
    assert_eq!(config.voting_period, VOTING_PERIOD);
    assert_eq!(config.timelock_period, TIMELOCK_PERIOD);
    assert_eq!(config.proposal_threshold, THRESHOLD);
    assert_eq!(GovernanceContract::get_proposal_count(&env), 0);
}

#[test]
fn test_initialize_cannot_run_twice() {
    let mut env = Env::default();
    let (admin, token_id, _) = deploy(&mut env, 1_000_000, QUORUM_BPS);

    assert_eq!(
        GovernanceContract::initialize(
            &mut env,
            admin,
            token_id,
            QUORUM_BPS,
            VOTING_PERIOD,
            TIMELOCK_PERIOD,
            PROPOSAL_THRESHOLD,
        ),
        Err(GovernanceError::AlreadyInitialized)
    );
}

// ─── Proposal creation ───────────────────────────────────────────────────────

#[test]
fn create_proposal_sets_the_expected_ledger_window() {
    let mut env = Env::default();
    env.set_sequence_number(GENESIS);
    let (admin, _, governance_id) = deploy(&mut env, 1_000_000, QUORUM_BPS);

    env.set_sequence_number(OPENED);
    let proposal = propose(&mut env, governance_id, admin);

    assert_eq!(proposal.id, 1);
    assert_eq!(proposal.proposer, admin);
    assert_eq!(proposal.snapshot_ledger, OPENED);
    assert_eq!(proposal.start_ledger, OPENED + 1);
    assert_eq!(proposal.end_ledger, OPENED + 1 + VOTING_PERIOD);
    assert_eq!(proposal.queue_ledger, 0);
    assert_eq!(proposal.status, ProposalStatus::Active);
    assert_eq!(
        (proposal.for_votes, proposal.against_votes, proposal.abstain_votes),
        (0, 0, 0)
    );
    assert_eq!(GovernanceContract::get_proposal_count(&env), 1);
}

#[test]
fn proposal_ids_increment_from_one() {
    let mut env = Env::default();
    env.set_sequence_number(GENESIS);
    let (admin, _, governance_id) = deploy(&mut env, 1_000_000, QUORUM_BPS);

    env.set_sequence_number(OPENED);
    for expected in 1..=3u64 {
        assert_eq!(propose(&mut env, governance_id, admin).id, expected);
    }
    assert_eq!(GovernanceContract::get_proposal_count(&env), 3);
}

#[test]
fn get_proposal_rejects_an_unknown_id() {
    let mut env = Env::default();
    deploy(&mut env, 1_000_000, QUORUM_BPS);

    assert_eq!(
        GovernanceContract::get_proposal(&env, 999),
        Err(GovernanceError::ProposalNotFound)
    );
}

// ─── Voting ──────────────────────────────────────────────────────────────────

#[test]
fn votes_accumulate_into_the_matching_tally() {
    let mut env = Env::default();
    let (against_voter, abstain_voter) = (env.generate_address(), env.generate_address());
    let (admin, _, proposal_id) = open_with_holders(
        &mut env,
        1_000_000,
        QUORUM_BPS,
        &[(against_voter, 200_000), (abstain_voter, 300_000)],
    );

    GovernanceContract::vote(&mut env, admin, proposal_id, VOTE_FOR).unwrap(); // 500_000 left after grants
    GovernanceContract::vote(&mut env, against_voter, proposal_id, VOTE_AGAINST).unwrap();
    GovernanceContract::vote(&mut env, abstain_voter, proposal_id, VOTE_ABSTAIN).unwrap();

    let proposal = GovernanceContract::get_proposal(&env, proposal_id).unwrap();
    assert_eq!(proposal.for_votes, 500_000);
    assert_eq!(proposal.against_votes, 200_000);
    assert_eq!(proposal.abstain_votes, 300_000);
}

#[test]
fn a_voter_cannot_vote_twice() {
    let mut env = Env::default();
    let (admin, _, proposal_id) = open_with_holders(&mut env, 1_000_000, QUORUM_BPS, &[]);

    GovernanceContract::vote(&mut env, admin, proposal_id, VOTE_FOR).unwrap();
    assert_eq!(
        GovernanceContract::vote(&mut env, admin, proposal_id, VOTE_AGAINST),
        Err(GovernanceError::AlreadyVoted)
    );

    // The rejected second vote left the tallies untouched.
    let proposal = GovernanceContract::get_proposal(&env, proposal_id).unwrap();
    assert_eq!(proposal.for_votes, 1_000_000);
    assert_eq!(proposal.against_votes, 0);
}

#[test]
fn votes_after_the_deadline_are_rejected() {
    let mut env = Env::default();
    let (admin, _, proposal_id) = open_with_holders(&mut env, 1_000_000, QUORUM_BPS, &[]);
    let end_ledger = GovernanceContract::get_proposal(&env, proposal_id).unwrap().end_ledger;

    // The final ledger of the window still accepts votes.
    env.set_sequence_number(end_ledger);
    GovernanceContract::vote(&mut env, admin, proposal_id, VOTE_FOR).unwrap();

    env.set_sequence_number(end_ledger + 1);
    let latecomer = env.generate_address();
    assert_eq!(
        GovernanceContract::vote(&mut env, latecomer, proposal_id, VOTE_FOR),
        Err(GovernanceError::VotingPeriodEnded)
    );
}

#[test]
fn an_out_of_range_vote_choice_is_rejected() {
    let mut env = Env::default();
    let (admin, _, proposal_id) = open_with_holders(&mut env, 1_000_000, QUORUM_BPS, &[]);

    assert_eq!(
        GovernanceContract::vote(&mut env, admin, proposal_id, 3),
        Err(GovernanceError::InvalidVoteChoice)
    );
    assert!(!GovernanceContract::has_voted(&env, proposal_id, admin));
}

#[test]
fn voting_on_an_unknown_proposal_is_rejected() {
    let mut env = Env::default();
    let (admin, _, _) = open_with_holders(&mut env, 1_000_000, QUORUM_BPS, &[]);

    assert_eq!(
        GovernanceContract::vote(&mut env, admin, 999, VOTE_FOR),
        Err(GovernanceError::ProposalNotFound)
    );
}

#[test]
fn get_vote_returns_the_recorded_choice() {
    let mut env = Env::default();
    env.set_sequence_number(10);
    let (admin, _, _) = deploy(&mut env, 900_000, QUORUM_BPS);

    // Three holders, funded before the snapshot so each carries weight.
    let against = env.generate_address();
    let abstain = env.generate_address();
    QuorumToken::transfer(&mut env, admin, against, 300_000).unwrap();
    QuorumToken::transfer(&mut env, admin, abstain, 300_000).unwrap();

    env.set_sequence_number(20);
    let proposal_id = GovernanceContract::create_proposal(
        &mut env,
        admin,
        "Three-way split".to_string(),
        "One voter per choice.".to_string(),
    )
    .unwrap();

    GovernanceContract::vote(&mut env, admin, proposal_id, VOTE_FOR).unwrap();
    GovernanceContract::vote(&mut env, against, proposal_id, VOTE_AGAINST).unwrap();
    GovernanceContract::vote(&mut env, abstain, proposal_id, VOTE_ABSTAIN).unwrap();

    assert_eq!(GovernanceContract::get_vote(&env, proposal_id, admin), Some(VOTE_FOR));
    assert_eq!(GovernanceContract::get_vote(&env, proposal_id, against), Some(VOTE_AGAINST));
    assert_eq!(GovernanceContract::get_vote(&env, proposal_id, abstain), Some(VOTE_ABSTAIN));
}

#[test]
fn get_vote_is_none_for_an_address_that_has_not_voted() {
    let mut env = Env::default();
    env.set_sequence_number(10);
    let (admin, _, _) = deploy(&mut env, 1_000_000, QUORUM_BPS);

    env.set_sequence_number(20);
    let proposal_id = GovernanceContract::create_proposal(
        &mut env,
        admin,
        "Nobody has voted yet".to_string(),
        "Fresh proposal.".to_string(),
    )
    .unwrap();

    // Never voted, and a non-holder who could not vote even if they tried.
    let outsider = env.generate_address();
    assert_eq!(GovernanceContract::get_vote(&env, proposal_id, admin), None);
    assert_eq!(GovernanceContract::get_vote(&env, proposal_id, outsider), None);

    // A rejected vote must not leave a record behind.
    let latecomer = env.generate_address();
    assert!(GovernanceContract::vote(&mut env, latecomer, proposal_id, VOTE_FOR).is_err());
    assert_eq!(GovernanceContract::get_vote(&env, proposal_id, latecomer), None);
}

#[test]
fn get_vote_is_none_for_an_unknown_proposal() {
    let mut env = Env::default();
    let (admin, _, _) = deploy(&mut env, 1_000_000, QUORUM_BPS);

    assert_eq!(GovernanceContract::get_vote(&env, 999, admin), None);
}

// ─── Finalize ────────────────────────────────────────────────────────────────

#[test]
fn finalize_queues_a_proposal_that_clears_quorum_and_majority() {
    let mut env = Env::default();
    let (admin, governance_id, proposal_id) = open_with_holders(&mut env, 1_000_000, QUORUM_BPS, &[]);

    GovernanceContract::vote(&mut env, admin, proposal_id, VOTE_FOR).unwrap();
    close_voting(&mut env, governance_id, proposal_id);
    let closed_at = env.sequence();

    assert_eq!(GovernanceContract::finalize(&mut env, proposal_id), Ok(ProposalStatus::Queued));

    let proposal = GovernanceContract::get_proposal(&env, proposal_id).unwrap();
    assert_eq!(proposal.status, ProposalStatus::Queued);
    assert_eq!(proposal.queue_ledger, closed_at + TIMELOCK_PERIOD);
}

#[test]
fn finalize_fails_a_proposal_that_misses_quorum() {
    let mut env = Env::default();
    let small_holder = env.generate_address();
    // 50% quorum against a 1_000_000 supply needs 500_000; this voter has 1_000.
    let (_, governance_id, proposal_id) =
        open_with_holders(&mut env, 1_000_000, 5_000, &[(small_holder, 1_000)]);

    GovernanceContract::vote(&mut env, small_holder, proposal_id, VOTE_FOR).unwrap();
    close_voting(&mut env, governance_id, proposal_id);

    assert_eq!(GovernanceContract::finalize(&mut env, proposal_id), Ok(ProposalStatus::Failed));
    assert_eq!(GovernanceContract::get_proposal(&env, proposal_id).unwrap().queue_ledger, 0);
}

#[test]
fn finalize_fails_a_proposal_that_clears_quorum_but_loses_the_vote() {
    let mut env = Env::default();
    let opposition = env.generate_address();
    let (admin, governance_id, proposal_id) =
        open_with_holders(&mut env, 1_000_000, QUORUM_BPS, &[(opposition, 600_000)]);

    GovernanceContract::vote(&mut env, admin, proposal_id, VOTE_FOR).unwrap(); // 400_000
    GovernanceContract::vote(&mut env, opposition, proposal_id, VOTE_AGAINST).unwrap(); // 600_000
    close_voting(&mut env, governance_id, proposal_id);

    // Turnout clears quorum, but Against wins.
    assert_eq!(GovernanceContract::finalize(&mut env, proposal_id), Ok(ProposalStatus::Failed));
}

#[test]
fn a_tie_fails_because_majority_requires_strictly_more_for_votes() {
    let mut env = Env::default();
    let opposition = env.generate_address();
    let (admin, governance_id, proposal_id) =
        open_with_holders(&mut env, 1_000_000, QUORUM_BPS, &[(opposition, 500_000)]);

    GovernanceContract::vote(&mut env, admin, proposal_id, VOTE_FOR).unwrap(); // 500_000
    GovernanceContract::vote(&mut env, opposition, proposal_id, VOTE_AGAINST).unwrap(); // 500_000
    close_voting(&mut env, governance_id, proposal_id);

    assert_eq!(GovernanceContract::finalize(&mut env, proposal_id), Ok(ProposalStatus::Failed));
}

#[test]
fn finalize_before_the_deadline_is_rejected() {
    let mut env = Env::default();
    let (admin, _, proposal_id) = open_with_holders(&mut env, 1_000_000, QUORUM_BPS, &[]);
    GovernanceContract::vote(&mut env, admin, proposal_id, VOTE_FOR).unwrap();

    // On end_ledger itself voting is still open, so finalize is premature.
    let end_ledger = GovernanceContract::get_proposal(&env, proposal_id).unwrap().end_ledger;
    env.set_sequence_number(end_ledger);
    assert_eq!(
        GovernanceContract::finalize(&mut env, proposal_id),
        Err(GovernanceError::VotingNotActive)
    );
}

// ─── Execute ─────────────────────────────────────────────────────────────────

#[test]
fn execute_succeeds_once_the_timelock_has_elapsed() {
    let mut env = Env::default();
    let (admin, governance_id, proposal_id) = open_with_holders(&mut env, 1_000_000, QUORUM_BPS, &[]);
    queue_proposal(&mut env, governance_id, admin, proposal_id);

    let queue_ledger = GovernanceContract::get_proposal(&env, proposal_id).unwrap().queue_ledger;
    env.set_sequence_number(queue_ledger);
    GovernanceContract::execute(&mut env, proposal_id).unwrap();

    assert_eq!(
        GovernanceContract::get_proposal(&env, proposal_id).unwrap().status,
        ProposalStatus::Executed
    );
}

#[test]
fn execute_during_the_timelock_is_rejected() {
    let mut env = Env::default();
    let (admin, governance_id, proposal_id) = open_with_holders(&mut env, 1_000_000, QUORUM_BPS, &[]);
    queue_proposal(&mut env, governance_id, admin, proposal_id);

    let queue_ledger = GovernanceContract::get_proposal(&env, proposal_id).unwrap().queue_ledger;
    env.set_sequence_number(queue_ledger - 1);

    assert_eq!(
        GovernanceContract::execute(&mut env, proposal_id),
        Err(GovernanceError::TimelockNotExpired)
    );
    assert_eq!(
        GovernanceContract::get_proposal(&env, proposal_id).unwrap().status,
        ProposalStatus::Queued
    );
}

#[test]
fn execute_is_rejected_while_a_proposal_is_still_active() {
    let mut env = Env::default();
    let (admin, _, proposal_id) = open_with_holders(&mut env, 1_000_000, QUORUM_BPS, &[]);
    GovernanceContract::vote(&mut env, admin, proposal_id, VOTE_FOR).unwrap();

    assert_eq!(
        GovernanceContract::execute(&mut env, proposal_id),
        Err(GovernanceError::ProposalNotPassed)
    );
}

#[test]
fn a_failed_proposal_cannot_be_executed() {
    let mut env = Env::default();
    let small_holder = env.generate_address();
    let (_, governance_id, proposal_id) =
        open_with_holders(&mut env, 1_000_000, 5_000, &[(small_holder, 1_000)]);

    GovernanceContract::vote(&mut env, small_holder, proposal_id, VOTE_FOR).unwrap();
    close_voting(&mut env, governance_id, proposal_id);
    assert_eq!(GovernanceContract::finalize(&mut env, proposal_id), Ok(ProposalStatus::Failed));

    let later = env.sequence() + TIMELOCK_PERIOD + 1;
    env.set_sequence_number(later);
    assert_eq!(
        GovernanceContract::execute(&mut env, proposal_id),
        Err(GovernanceError::ProposalNotPassed)
    );
}

// ─── Cancel ──────────────────────────────────────────────────────────────────

#[test]
fn a_proposer_can_cancel_their_own_proposal() {
    let mut env = Env::default();
    let (admin, _, proposal_id) = open_with_holders(&mut env, 1_000_000, QUORUM_BPS, &[]);

    // admin is the proposer here (open_with_holders proposes as admin).
    GovernanceContract::cancel(&mut env, admin, proposal_id).unwrap();
    assert_eq!(
        GovernanceContract::get_proposal(&env, proposal_id).unwrap().status,
        ProposalStatus::Cancelled
    );
}

#[test]
fn the_admin_can_cancel_a_proposal_they_did_not_open() {
    let mut env = Env::default();
    env.set_sequence_number(GENESIS);
    let (admin, _, governance_id) = deploy(&mut env, 1_000_000, QUORUM_BPS);

    env.set_sequence_number(OPENED);
    let outsider = env.generate_address();
    let proposal_id = propose(&mut env, governance_id, outsider).id;

    GovernanceContract::cancel(&mut env, admin, proposal_id).unwrap();
    assert_eq!(
        GovernanceContract::get_proposal(&env, proposal_id).unwrap().status,
        ProposalStatus::Cancelled
    );
}

#[test]
fn a_third_party_cannot_cancel() {
    let mut env = Env::default();
    let (_, _, proposal_id) = open_with_holders(&mut env, 1_000_000, QUORUM_BPS, &[]);

    let stranger = env.generate_address();
    assert_eq!(
        GovernanceContract::cancel(&mut env, stranger, proposal_id),
        Err(GovernanceError::Unauthorized)
    );
    assert_eq!(
        GovernanceContract::get_proposal(&env, proposal_id).unwrap().status,
        ProposalStatus::Active
    );
}

#[test]
fn a_cancelled_proposal_stops_accepting_votes() {
    let mut env = Env::default();
    let (admin, _, proposal_id) = open_with_holders(&mut env, 1_000_000, QUORUM_BPS, &[]);

    GovernanceContract::cancel(&mut env, admin, proposal_id).unwrap();
    assert_eq!(
        GovernanceContract::vote(&mut env, admin, proposal_id, VOTE_FOR),
        Err(GovernanceError::VotingNotActive)
    );
}

#[test]
fn add_weight_saturates_into_an_error_at_the_i128_boundary() {
    assert_eq!(GovernanceContract::add_weight(i128::MAX - 1, 1), Ok(i128::MAX));
    assert_eq!(GovernanceContract::add_weight(i128::MAX, 1), Err(GovernanceError::Overflow));
    assert_eq!(GovernanceContract::add_weight(1, i128::MAX), Err(GovernanceError::Overflow));
    assert_eq!(GovernanceContract::add_weight(0, 0), Ok(0));
}

#[test]
fn tallying_the_entire_supply_at_the_boundary_does_not_trap() {
    let mut env = Env::default();
    env.set_sequence_number(10);
    // quorum_bps must be 0 here: any non-zero bps against a maxed supply
    // overflows the quorum calculation before a vote is ever cast.
    let (admin, _, _) = deploy(&mut env, i128::MAX, 0);

    env.set_sequence_number(20);
    let proposal_id = GovernanceContract::create_proposal(
        &mut env,
        admin,
        "Whole supply votes".to_string(),
        "Single holder controlling i128::MAX.".to_string(),
    )
    .unwrap();
    GovernanceContract::vote(&mut env, admin, proposal_id, VOTE_FOR).unwrap();

    assert_eq!(GovernanceContract::get_proposal(&env, proposal_id).unwrap().for_votes, i128::MAX);
}

#[test]
fn quorum_for_supply_truncates_fractional_thresholds() {
    // 5% of 199 is 9.95 — truncated down so the threshold never exceeds supply.
    assert_eq!(GovernanceContract::quorum_for_supply(199, QUORUM_BPS), Ok(9));
    assert_eq!(GovernanceContract::quorum_for_supply(0, QUORUM_BPS), Ok(0));
}

#[test]
fn quorum_for_supply_rejects_overflow_instead_of_panicking() {
    assert_eq!(
        GovernanceContract::quorum_for_supply(i128::MAX, 10_000),
        Err(GovernanceError::Overflow)
    );
}

// ─── Further cases ───────────────────────────────────────────────────────────

#[test]
fn quorum_for_a_negative_supply_rounds_toward_zero() {
    assert_eq!(GovernanceContract::quorum_for_supply(-199, QUORUM_BPS), Ok(-9));
    assert_eq!(GovernanceContract::quorum_for_supply(10_000, 10_000), Ok(10_000));
}

#[test]
fn governance_calls_before_initialization_are_refused() {
    let mut env = Env::default();
    env.mock_all_auths();
    let someone = env.generate_address();
    assert_eq!(GovernanceContract::get_config(&env), Err(GovernanceError::NotInitialized));
    assert_eq!(
        GovernanceContract::create_proposal(&mut env, someone, "t".to_string(), "d".to_string()),
        Err(GovernanceError::NotInitialized)
    );
    assert_eq!(GovernanceContract::finalize(&mut env, 1), Err(GovernanceError::ProposalNotFound));
    assert_eq!(GovernanceContract::execute(&mut env, 1), Err(GovernanceError::ProposalNotFound));
}

#[test]
fn governance_calls_need_authorization() {
    let mut env = Env::default();
    let (admin, token_id, governance_id) = deploy(&mut env, 1_000_000, QUORUM_BPS);
    let proposal_id = propose(&mut env, governance_id, admin).id;
    env.set_auths(vec![]);

    // Without the caller's authorization the invocation is refused and
    // leaves no trace, as the host's abort would.
    assert_eq!(
        GovernanceContract::create_proposal(&mut env, admin, "t".to_string(), "d".to_string()),
        Err(GovernanceError::Unauthorized)
    );
    assert_eq!(
        GovernanceContract::vote(&mut env, admin, proposal_id, VOTE_FOR),
        Err(GovernanceError::Unauthorized)
    );
    assert_eq!(
        GovernanceContract::cancel(&mut env, admin, proposal_id),
        Err(GovernanceError::Unauthorized)
    );
    assert_eq!(GovernanceContract::get_proposal_count(&env), 1);
    assert!(!GovernanceContract::has_voted(&env, proposal_id, admin));
    assert_eq!(
        GovernanceContract::get_proposal(&env, proposal_id).unwrap().status,
        ProposalStatus::Active
    );
    let mut fresh = Env::default();
    assert_eq!(
        GovernanceContract::initialize(&mut fresh, admin, token_id, 1, 1, 1, 0),
        Err(GovernanceError::Unauthorized)
    );
    assert_eq!(GovernanceContract::get_config(&fresh), Err(GovernanceError::NotInitialized));
}

#[test]
fn only_an_executed_or_cancelled_proposal_cannot_be_cancelled() {
    let mut env = Env::default();
    let (admin, governance_id, proposal_id) = open_with_holders(&mut env, 1_000_000, QUORUM_BPS, &[]);
    queue_proposal(&mut env, governance_id, admin, proposal_id);
    assert_eq!(
        GovernanceContract::finalize(&mut env, proposal_id),
        Err(GovernanceError::VotingNotActive)
    );
    let queue_ledger = GovernanceContract::get_proposal(&env, proposal_id).unwrap().queue_ledger;
    env.set_sequence_number(queue_ledger);
    GovernanceContract::execute(&mut env, proposal_id).unwrap();
    assert_eq!(
        GovernanceContract::execute(&mut env, proposal_id),
        Err(GovernanceError::ProposalNotPassed)
    );
    assert_eq!(
        GovernanceContract::cancel(&mut env, admin, proposal_id),
        Err(GovernanceError::VotingNotActive)
    );
    assert_eq!(
        GovernanceContract::get_proposal(&env, proposal_id).unwrap().status,
        ProposalStatus::Executed
    );

    let second = propose(&mut env, governance_id, admin).id;
    GovernanceContract::cancel(&mut env, admin, second).unwrap();
    assert_eq!(
        GovernanceContract::cancel(&mut env, admin, second),
        Err(GovernanceError::VotingNotActive)
    );
}

#[test]
fn the_admin_can_cancel_a_queued_proposal_before_execution() {
    let mut env = Env::default();
    let (admin, governance_id, proposal_id) = open_with_holders(&mut env, 1_000_000, QUORUM_BPS, &[]);
    queue_proposal(&mut env, governance_id, admin, proposal_id);

    GovernanceContract::cancel(&mut env, admin, proposal_id).unwrap();
    assert_eq!(
        GovernanceContract::get_proposal(&env, proposal_id).unwrap().status,
        ProposalStatus::Cancelled
    );
    let queue_ledger = GovernanceContract::get_proposal(&env, proposal_id).unwrap().queue_ledger;
    env.set_sequence_number(queue_ledger);
    assert_eq!(
        GovernanceContract::execute(&mut env, proposal_id),
        Err(GovernanceError::ProposalNotPassed)
    );
}

#[test]
fn a_failed_or_unfinalized_proposal_can_still_be_cancelled() {
    let mut env = Env::default();
    let small_holder = env.generate_address();
    let (admin, governance_id, proposal_id) =
        open_with_holders(&mut env, 1_000_000, 5_000, &[(small_holder, 1_000)]);
    GovernanceContract::vote(&mut env, small_holder, proposal_id, VOTE_FOR).unwrap();
    close_voting(&mut env, governance_id, proposal_id);

    // Voting has ended but nobody has finalized: the proposal is still Active.
    let second = propose(&mut env, governance_id, admin).id;
    env.set_sequence_number(GovernanceContract::get_proposal(&env, second).unwrap().end_ledger + 1);
    GovernanceContract::cancel(&mut env, admin, second).unwrap();

    assert_eq!(GovernanceContract::finalize(&mut env, proposal_id), Ok(ProposalStatus::Failed));
    GovernanceContract::cancel(&mut env, small_holder, proposal_id).unwrap_err();
    GovernanceContract::cancel(&mut env, admin, proposal_id).unwrap();
    assert_eq!(
        GovernanceContract::get_proposal(&env, proposal_id).unwrap().status,
        ProposalStatus::Cancelled
    );
}

#[test]
fn the_whole_supply_split_across_voters_still_tallies() {
    let mut env = Env::default();
    env.set_sequence_number(10);
    let (admin, _, _) = deploy(&mut env, i128::MAX, 0);
    let other = env.generate_address();
    QuorumToken::transfer(&mut env, admin, other, 1).unwrap();

    env.set_sequence_number(20);
    let proposal_id = GovernanceContract::create_proposal(
        &mut env,
        admin,
        "Split supply".to_string(),
        "Turnout is exactly i128::MAX.".to_string(),
    )
    .unwrap();
    GovernanceContract::vote(&mut env, admin, proposal_id, VOTE_FOR).unwrap();
    GovernanceContract::vote(&mut env, other, proposal_id, VOTE_AGAINST).unwrap();
    let end_ledger = GovernanceContract::get_proposal(&env, proposal_id).unwrap().end_ledger;
    env.set_sequence_number(end_ledger + 1);
    assert_eq!(GovernanceContract::finalize(&mut env, proposal_id), Ok(ProposalStatus::Queued));
}

#[test]
fn a_voting_window_past_the_last_ledger_is_refused() {
    let mut env = Env::default();
    let (admin, _, _) = deploy(&mut env, 1_000, 0);
    env.set_sequence_number(u32::MAX - 50);
    assert_eq!(
        GovernanceContract::create_proposal(&mut env, admin, "t".to_string(), "d".to_string()),
        Err(GovernanceError::Overflow)
    );
}

#[test]
fn close_voting_moves_the_ledger_back_when_it_is_past_the_window() {
    let mut env = Env::default();
    let (_, governance_id, proposal_id) = open_with_holders(&mut env, 1_000_000, QUORUM_BPS, &[]);
    let end_ledger = GovernanceContract::get_proposal(&env, proposal_id).unwrap().end_ledger;

    env.set_sequence_number(5_000);
    close_voting(&mut env, governance_id, proposal_id);
    assert_eq!(env.sequence(), end_ledger + 1);
    assert_eq!(env.sequence(), 122);
}

#[test]
fn open_with_holders_publishes_the_genesis_mint_and_one_transfer_per_grant() {
    let mut env = Env::default();
    let first = env.generate_address();
    let second = env.generate_address();
    let token_address = env.token_address;
    let (admin, governance_id, proposal_id) =
        open_with_holders(&mut env, 1_000_000, QUORUM_BPS, &[(first, 1_000), (second, 2_500)]);

    assert_eq!(governance_id, env.governance_address);
    assert_eq!(env.token_address, token_address);
    assert_eq!(env.next_address, admin + 1);
    assert_eq!(proposal_id, 1);
    assert_eq!(
        env.events,
        vec![
            TokenEvent::Mint(Mint { to: admin, amount: 1_000_000, total_supply: 1_000_000 }),
            TokenEvent::Transfer(Transfer { from: admin, to: first, amount: 1_000 }),
            TokenEvent::Transfer(Transfer { from: admin, to: second, amount: 2_500 }),
        ]
    );
    assert_eq!(QuorumToken::balance(&env, admin), 996_500);
    assert_eq!(QuorumToken::get_past_balance(&env, second, 20), 2_500);
    assert_eq!(QuorumToken::allowance(&env, admin, first), 0);
}

#[test]
fn queueing_after_open_with_holders_keeps_the_governor_address() {
    let mut env = Env::default();
    let (admin, governance_id, proposal_id) = open_with_holders(&mut env, 1_000_000, QUORUM_BPS, &[]);
    queue_proposal(&mut env, governance_id, admin, proposal_id);

    let proposal = GovernanceContract::get_proposal(&env, proposal_id).unwrap();
    assert_eq!(proposal.status, ProposalStatus::Queued);
    assert_eq!(proposal.for_votes, 1_000_000);
    assert_eq!(env.sequence(), 122);
    assert_eq!(proposal.queue_ledger, 172);
}

#[test]
fn a_quorum_is_frozen_through_later_mints_and_burns() {
    let mut env = Env::default();
    let (admin, _, governance_id) = deploy(&mut env, 199, QUORUM_BPS);
    let proposal = propose(&mut env, governance_id, admin);
    // 5% of 199 is 9.95, truncated to 9.
    assert_eq!(proposal.quorum_required, 9);

    QuorumToken::mint(&mut env, admin, 10_000).unwrap();
    QuorumToken::burn(&mut env, admin, 150).unwrap();
    assert_eq!(GovernanceContract::get_proposal(&env, proposal.id).unwrap().quorum_required, 9);
}

#[test]
fn the_governor_publishes_creation_votes_and_finalization() {
    let mut env = Env::default();
    let holder = env.generate_address();
    let (admin, governance_id, proposal_id) =
        open_with_holders(&mut env, 1_000_000, QUORUM_BPS, &[(holder, 250_000)]);
    assert_eq!(
        env.governance_events,
        vec![GovernanceEvent::ProposalCreated(ProposalCreated {
            id: proposal_id,
            proposer: admin,
            snapshot_ledger: OPENED,
            end_ledger: OPENED + 1 + VOTING_PERIOD,
            quorum_required: 50_000,
        })]
    );

    GovernanceContract::vote(&mut env, holder, proposal_id, VOTE_AGAINST).unwrap();
    GovernanceContract::vote(&mut env, admin, proposal_id, VOTE_FOR).unwrap();
    // A refused vote publishes nothing.
    assert_eq!(
        GovernanceContract::vote(&mut env, admin, proposal_id, VOTE_FOR),
        Err(GovernanceError::AlreadyVoted)
    );
    close_voting(&mut env, governance_id, proposal_id);
    assert_eq!(GovernanceContract::finalize(&mut env, proposal_id), Ok(ProposalStatus::Queued));

    assert_eq!(
        env.governance_events[1..],
        [
            GovernanceEvent::VoteCast(VoteCast { id: proposal_id, voter: holder, support: VOTE_AGAINST, weight: 250_000 }),
            GovernanceEvent::VoteCast(VoteCast { id: proposal_id, voter: admin, support: VOTE_FOR, weight: 750_000 }),
            GovernanceEvent::ProposalFinalized(ProposalFinalized { id: proposal_id, status: ProposalStatus::Queued }),
        ]
    );
    // Token events are kept apart from the governor's.
    assert_eq!(env.events.len(), 2);
}
