//! Standing up a token and a governor wired to it, and driving a proposal
//! through its lifecycle.
use vstd::prelude::*;

use crate::env::{Address, Env, EnvModel};
use crate::governance::{
    Config, GovernanceContract, GovernanceEvent, GovernanceModel, Proposal, ProposalCreated, ProposalFinalized,
    ProposalStatus, VOTE_FOR, VoteCast, passes, quorum_of, tallies_fit,
};
use crate::token::{
    Mint, QuorumToken, TokenEvent, Transfer, lemma_move_conserves_supply, lemma_past_balance_is_live,
};

verus! {

/// Voting window of a deployed governor, in ledgers.
pub const VOTING_PERIOD: u32 = 100;

/// Timelock of a deployed governor, in ledgers.
pub const TIMELOCK_PERIOD: u32 = 50;

/// Proposal threshold of [`deploy`].
pub const PROPOSAL_THRESHOLD: i128 = 0;

/// Decimal places of a deployed token.
pub const DECIMALS: u32 = 7;

/// Initializes the QUORUM token, minting `initial_supply` to a new admin,
/// and a governor wired to it with [`PROPOSAL_THRESHOLD`]. Returns the admin,
/// the token's address and the governor's address. Every invocation is
/// authorized from here on.
pub fn deploy(env: &mut Env, initial_supply: i128, quorum_bps: u32) -> (ids: (Address, Address, Address))
    requires
        old(env).wf(),
        !old(env)@.token.is_initialized(),
        old(env)@.governance.config is None,
        old(env)@.next_address < u64::MAX,
    ensures
        final(env).wf(),
        final(env)@.chronological(),
        final(env)@.token_wired(),
        initial_supply >= 0 ==> final(env)@.token.balances_nonneg(),
        deployed(old(env)@, final(env)@, ids, initial_supply, quorum_bps, PROPOSAL_THRESHOLD),
{
    deploy_with_threshold(env, initial_supply, quorum_bps, PROPOSAL_THRESHOLD)
}

/// What a deployment leaves behind: all invocations authorized, the token
/// started with the admin holding the initial supply and its mint event, the
/// governor configured, and nothing else changed.
pub open spec fn deployed(
    before: EnvModel,
    after: EnvModel,
    ids: (Address, Address, Address),
    initial_supply: i128,
    quorum_bps: u32,
    proposal_threshold: i128,
) -> bool {
    let (admin, token_id, governance_id) = ids;
    &&& admin == before.next_address
    &&& token_id == before.token_address
    &&& governance_id == before.governance_address
    &&& after.next_address == admin + 1
    &&& after.all_authorized
    &&& after.authorized == before.authorized
    &&& after.sequence == before.sequence
    &&& after.token_address == before.token_address
    &&& after.governance_address == before.governance_address
    &&& after.token.admin == Some(admin)
    &&& after.token.name == "Quorum"@
    &&& after.token.symbol == "QUORUM"@
    &&& after.token.decimals == DECIMALS
    &&& after.token.total_supply == initial_supply
    &&& after.token.allowances == before.token.allowances
    &&& after.token.balances == before.token.balances.insert(admin, initial_supply)
    &&& after.token.histories == before.token.with_balance(admin, initial_supply, before.sequence).histories
    &&& after.governance_events == before.governance_events
    &&& after.events == before.events.push(
        TokenEvent::Mint(Mint { to: admin, amount: initial_supply, total_supply: initial_supply }),
    )
    &&& after.governance == (GovernanceModel {
        config: Some(
            Config {
                admin,
                token: token_id,
                quorum_bps,
                voting_period: VOTING_PERIOD,
                timelock_period: TIMELOCK_PERIOD,
                proposal_threshold,
            },
        ),
        ..before.governance
    })
}

/// As [`deploy`], with an explicit proposal threshold.
pub fn deploy_with_threshold(
    env: &mut Env,
    initial_supply: i128,
    quorum_bps: u32,
    proposal_threshold: i128,
) -> (ids: (Address, Address, Address))
    requires
        old(env).wf(),
        !old(env)@.token.is_initialized(),
        old(env)@.governance.config is None,
        old(env)@.next_address < u64::MAX,
    ensures
        final(env).wf(),
        final(env)@.chronological(),
        final(env)@.token_wired(),
        initial_supply >= 0 ==> final(env)@.token.balances_nonneg(),
        deployed(old(env)@, final(env)@, ids, initial_supply, quorum_bps, proposal_threshold),
{
    env.mock_all_auths();
    let admin = env.generate_address();
    let token_id = env.register_token();
    let _ = QuorumToken::initialize(env, admin, "Quorum".to_owned(), "QUORUM".to_owned(), DECIMALS, initial_supply);
    let governance_id = env.register_governance();
    let _ = GovernanceContract::initialize(
        env,
        admin,
        token_id,
        quorum_bps,
        VOTING_PERIOD,
        TIMELOCK_PERIOD,
        proposal_threshold,
    );
    (admin, token_id, governance_id)
}

/// `proposer` may open a proposal now: the governor is configured, the
/// proposer authorized and holding the threshold, and the quorum and voting
/// window fit their types.
pub open spec fn can_propose(env: EnvModel, proposer: Address) -> bool {
    let g = env.governance;
    let cfg = g.config.unwrap();
    &&& g.config is Some
    &&& env.token_wired()
    &&& env.authorizes(proposer)
    &&& env.token.balance(proposer) >= cfg.proposal_threshold
    &&& quorum_of(env.token.total_supply, cfg.quorum_bps) is Some
    &&& env.sequence + 1 + cfg.voting_period <= u32::MAX
    &&& g.proposals.len() < u64::MAX
}

/// Opens a proposal by `proposer` on the governor at `governance_id` and
/// returns it as stored.
pub fn propose(env: &mut Env, governance_id: Address, proposer: Address) -> (p: Proposal)
    requires
        old(env).wf(),
        governance_id == old(env)@.governance_address,
        can_propose(old(env)@, proposer),
    ensures
        final(env).wf(),
        final(env)@ == old(env)@.with_governance_event(
            GovernanceModel { proposals: old(env)@.governance.proposals.push(p), ..old(env)@.governance },
            GovernanceEvent::ProposalCreated(
                ProposalCreated {
                    id: p.id,
                    proposer,
                    snapshot_ledger: p.snapshot_ledger,
                    end_ledger: p.end_ledger,
                    quorum_required: p.quorum_required,
                },
            ),
        ),
        p.id == old(env)@.governance.proposals.len() + 1,
        p.proposer == proposer,
        p.title@ == "Raise the quorum threshold"@,
        p.description@ == "Move quorum_bps from 500 to 750."@,
        p.snapshot_ledger == old(env)@.sequence,
        p.start_ledger == old(env)@.sequence + 1,
        p.end_ledger == old(env)@.sequence + 1 + old(env)@.governance.config.unwrap().voting_period,
        p.queue_ledger == 0,
        p.status == ProposalStatus::Active,
        p.for_votes == 0 && p.against_votes == 0 && p.abstain_votes == 0,
        p.quorum_required == quorum_of(
            old(env)@.token.total_supply,
            old(env)@.governance.config.unwrap().quorum_bps,
        ).unwrap(),
{
    let id = GovernanceContract::create_proposal(
        env,
        proposer,
        "Raise the quorum threshold".to_owned(),
        "Move quorum_bps from 500 to 750.".to_owned(),
    ).unwrap();
    GovernanceContract::get_proposal(env, id).unwrap()
}

/// Moves the ledger to the first one after proposal `proposal_id`'s voting
/// window, so that it can be finalized.
pub fn close_voting(env: &mut Env, governance_id: Address, proposal_id: u64)
    requires
        old(env).wf(),
        governance_id == old(env)@.governance_address,
        old(env)@.governance.proposal(proposal_id) is Some,
        old(env)@.governance.proposal(proposal_id).unwrap().end_ledger < u32::MAX,
    ensures
        final(env).wf(),
        final(env)@ == (EnvModel {
            sequence: (old(env)@.governance.proposal(proposal_id).unwrap().end_ledger + 1) as u32,
            ..old(env)@
        }),
        old(env)@.chronological() && old(env)@.sequence <= old(env)@.governance.proposal(proposal_id).unwrap().end_ledger
            + 1 ==> final(env)@.chronological(),
{
    let end_ledger = GovernanceContract::get_proposal(env, proposal_id).unwrap().end_ledger;
    env.set_sequence_number(end_ledger + 1);
}

/// Proposal `proposal_id` once `admin` has voted for it: the for tally
/// raised by `admin`'s weight as read at the snapshot.
pub open spec fn voted_for(env: EnvModel, admin: Address, proposal_id: u64) -> Proposal {
    let p = env.governance.proposal(proposal_id).unwrap();
    Proposal {
        for_votes: (p.for_votes + env.token.read_balance(admin, p.snapshot_ledger)) as i128,
        ..p
    }
}

/// `admin` can vote for proposal `proposal_id` now, and that vote carries it
/// into the queue once voting closes.
pub open spec fn can_queue(env: EnvModel, admin: Address, proposal_id: u64) -> bool {
    let g = env.governance;
    let p = g.proposal(proposal_id).unwrap();
    let weight = env.token.read_balance(admin, p.snapshot_ledger);
    &&& env.token_wired()
    &&& env.authorizes(admin)
    &&& g.proposal(proposal_id) is Some
    &&& p.status == ProposalStatus::Active
    &&& env.sequence <= p.end_ledger
    &&& p.end_ledger < u32::MAX
    &&& g.vote_of(proposal_id, admin) is None
    &&& weight > 0
    &&& i128::MIN <= p.for_votes + weight <= i128::MAX
    &&& tallies_fit(voted_for(env, admin, proposal_id))
    &&& passes(voted_for(env, admin, proposal_id))
    &&& p.end_ledger + 1 + g.config.unwrap().timelock_period <= u32::MAX
}

/// Votes proposal `proposal_id` through as `admin` and finalizes it into
/// the queue.
pub fn queue_proposal(env: &mut Env, governance_id: Address, admin: Address, proposal_id: u64)
    requires
        old(env).wf(),
        governance_id == old(env)@.governance_address,
        can_queue(old(env)@, admin, proposal_id),
    ensures
        final(env).wf(),
        ({
            let g = old(env)@.governance;
            let p = g.proposal(proposal_id).unwrap();
            let closed = (p.end_ledger + 1) as u32;
            let weight = old(env)@.token.read_balance(admin, p.snapshot_ledger);
            let voted = g.voted(proposal_id, admin, VOTE_FOR, weight);
            final(env)@ == (EnvModel {
                sequence: closed,
                governance_events: old(env)@.governance_events.push(
                    GovernanceEvent::VoteCast(VoteCast { id: proposal_id, voter: admin, support: VOTE_FOR, weight }),
                ).push(
                    GovernanceEvent::ProposalFinalized(
                        ProposalFinalized { id: proposal_id, status: ProposalStatus::Queued },
                    ),
                ),
                governance: voted.with_proposal(
                    proposal_id,
                    Proposal {
                        status: ProposalStatus::Queued,
                        queue_ledger: (closed + g.config.unwrap().timelock_period) as u32,
                        ..voted_for(old(env)@, admin, proposal_id)
                    },
                ),
                ..old(env)@
            })
        }),
        old(env)@.chronological() ==> final(env)@.chronological(),
{
    GovernanceContract::vote(env, admin, proposal_id, VOTE_FOR).unwrap();
    close_voting(env, governance_id, proposal_id);
    let status = GovernanceContract::finalize(env, proposal_id).unwrap();
    proof {
        assert(status == ProposalStatus::Queued);
    }
}

/// Ledger at which [`open_with_holders`] deploys and funds holders.
pub const GENESIS: u32 = 10;

/// Ledger at which [`open_with_holders`] opens its proposal.
pub const OPENED: u32 = 20;

/// Total granted to `who` by the grants in `holders`.
pub open spec fn granted(holders: Seq<(Address, i128)>, who: Address) -> int
    decreases holders.len(),
{
    if holders.len() == 0 {
        0
    } else {
        granted(holders.drop_last(), who) + (if holders.last().0 == who {
            holders.last().1 as int
        } else {
            0
        })
    }
}

/// Total of all grants in `holders`.
pub open spec fn total_granted(holders: Seq<(Address, i128)>) -> int
    decreases holders.len(),
{
    if holders.len() == 0 {
        0
    } else {
        total_granted(holders.drop_last()) + holders.last().1
    }
}

/// With positive grants, what one holder gets is between 0 and the total,
/// and the total grows along the list.
proof fn lemma_granted_bounds(holders: Seq<(Address, i128)>, who: Address, k: int)
    requires
        forall|i: int| 0 <= i < holders.len() ==> #[trigger] holders[i].1 > 0,
        0 <= k <= holders.len(),
    ensures
        0 <= granted(holders, who) <= total_granted(holders),
        total_granted(holders.take(k)) <= total_granted(holders),
    decreases holders.len(),
{
    if holders.len() > 0 {
        let shorter = holders.drop_last();
        assert forall|i: int| 0 <= i < shorter.len() implies #[trigger] shorter[i].1 > 0 by {
            assert(shorter[i] == holders[i]);
        }
        assert(holders[holders.len() - 1].1 > 0);
        if k == holders.len() {
            assert(holders.take(k) =~= holders);
            lemma_granted_bounds(shorter, who, 0);
        } else {
            assert(holders.take(k) =~= shorter.take(k));
            lemma_granted_bounds(shorter, who, k);
        }
    } else {
        assert(holders.take(k) =~= holders);
    }
}

/// The transfer events of the grants in `holders`, made by `admin`, in order.
pub open spec fn grant_events(admin: Address, holders: Seq<(Address, i128)>) -> Seq<TokenEvent> {
    holders.map_values(|h: (Address, i128)| TokenEvent::Transfer(Transfer { from: admin, to: h.0, amount: h.1 }))
}

/// Deploys at [`GENESIS`] with `supply` and `quorum_bps`, funds each holder
/// from the admin there, before the snapshot, and opens a proposal as the
/// admin at [`OPENED`]. Returns the admin, the governor's address and the
/// proposal id.
pub fn open_with_holders(
    env: &mut Env,
    supply: i128,
    quorum_bps: u32,
    holders: &[(Address, i128)],
) -> (ids: (Address, Address, u64))
    requires
        old(env).wf(),
        !old(env)@.token.is_initialized(),
        old(env)@.governance.config is None,
        old(env)@.next_address < u64::MAX,
        forall|i: int| 0 <= i < holders@.len() ==> #[trigger] holders@[i].1 > 0,
        forall|i: int| 0 <= i < holders@.len() ==> #[trigger] holders@[i].0 < old(env)@.next_address,
        total_granted(holders@) <= supply,
        quorum_of(supply, quorum_bps) is Some,
    ensures
        final(env).wf(),
        final(env)@.chronological(),
        final(env)@.token_wired(),
        ids.0 == old(env)@.next_address,
        ids.1 == old(env)@.governance_address,
        ids.2 == 1,
        final(env)@.sequence == OPENED,
        final(env)@.next_address == ids.0 + 1,
        final(env)@.all_authorized,
        final(env)@.authorized == old(env)@.authorized,
        final(env)@.token_address == old(env)@.token_address,
        final(env)@.governance_address == old(env)@.governance_address,
        final(env)@.token.admin == Some(ids.0),
        final(env)@.token.name == "Quorum"@,
        final(env)@.token.symbol == "QUORUM"@,
        final(env)@.token.decimals == DECIMALS,
        final(env)@.token.allowances == old(env)@.token.allowances,
        final(env)@.token.total_supply == supply,
        final(env)@.token.balance(ids.0) == supply - total_granted(holders@),
        forall|a: Address| a != ids.0 ==> #[trigger] final(env)@.token.balance(a) == granted(holders@, a),
        final(env)@.token.balances_nonneg(),
        forall|a: Address| #[trigger] final(env)@.token.past_balance(a, OPENED) == final(env)@.token.balance(a),
        final(env)@.events == old(env)@.events.push(
            TokenEvent::Mint(Mint { to: ids.0, amount: supply, total_supply: supply }),
        ) + grant_events(ids.0, holders@),
        final(env)@.governance.config == Some(
            Config {
                admin: ids.0,
                token: old(env)@.token_address,
                quorum_bps,
                voting_period: VOTING_PERIOD,
                timelock_period: TIMELOCK_PERIOD,
                proposal_threshold: PROPOSAL_THRESHOLD,
            },
        ),
        final(env)@.governance.proposals.len() == 1,
        ({
            let p = final(env)@.governance.proposals[0];
            &&& p.id == 1
            &&& p.proposer == ids.0
            &&& p.title@ == "Raise the quorum threshold"@
            &&& p.description@ == "Move quorum_bps from 500 to 750."@
            &&& p.snapshot_ledger == OPENED
            &&& p.start_ledger == OPENED + 1
            &&& p.end_ledger == OPENED + 1 + VOTING_PERIOD
            &&& p.queue_ledger == 0
            &&& p.status == ProposalStatus::Active
            &&& p.for_votes == 0 && p.against_votes == 0 && p.abstain_votes == 0
            &&& p.quorum_required == quorum_of(supply, quorum_bps).unwrap()
        }),
        final(env)@.governance.votes == old(env)@.governance.votes,
        final(env)@.governance_events == old(env)@.governance_events.push(
            GovernanceEvent::ProposalCreated(
                ProposalCreated {
                    id: 1,
                    proposer: ids.0,
                    snapshot_ledger: OPENED,
                    end_ledger: (OPENED + 1 + VOTING_PERIOD) as u32,
                    quorum_required: quorum_of(supply, quorum_bps).unwrap(),
                },
            ),
        ),
{
    env.set_sequence_number(GENESIS);
    proof {
        assert(old(env)@.token.histories == Map::<Address, Seq<crate::checkpoints::Checkpoint>>::empty());
        old(env)@.token.lemma_no_history_chronological(GENESIS);
        lemma_granted_bounds(holders@, 0, 0);
    }
    let (admin, _token_id, governance_id) = deploy(env, supply, quorum_bps);
    let ghost genesis_events = old(env)@.events.push(
        TokenEvent::Mint(Mint { to: admin, amount: supply, total_supply: supply }),
    );
    proof {
        assert(old(env)@.token.balances == Map::<Address, i128>::empty());
        assert(grant_events(admin, holders@.take(0)) =~= Seq::<TokenEvent>::empty());
        assert(genesis_events + grant_events(admin, holders@.take(0)) =~= genesis_events);
    }
    let mut i: usize = 0;
    while i < holders.len()
        invariant
            0 <= i <= holders@.len(),
            env.wf(),
            env@.chronological(),
            env@.token_wired(),
            env@.token.balances_nonneg(),
            env@.sequence == GENESIS,
            env@.all_authorized,
            env@.next_address == admin + 1,
            env@.authorized == old(env)@.authorized,
            env@.token_address == old(env)@.token_address,
            env@.governance_events == old(env)@.governance_events,
            env@.token.admin == Some(admin),
            env@.token.name == "Quorum"@,
            env@.token.symbol == "QUORUM"@,
            env@.token.decimals == DECIMALS,
            env@.token.allowances == old(env)@.token.allowances,
            env@.token.total_supply == supply,
            env@.token.balance(admin) == supply - total_granted(holders@.take(i as int)),
            forall|a: Address| a != admin ==> #[trigger] env@.token.balance(a) == granted(holders@.take(i as int), a),
            env@.events == genesis_events + grant_events(admin, holders@.take(i as int)),
            genesis_events == old(env)@.events.push(
                TokenEvent::Mint(Mint { to: admin, amount: supply, total_supply: supply }),
            ),
            admin == old(env)@.next_address,
            governance_id == old(env)@.governance_address,
            env@.governance_address == old(env)@.governance_address,
            env@.governance == (GovernanceModel {
                config: Some(
                    Config {
                        admin,
                        token: old(env)@.token_address,
                        quorum_bps,
                        voting_period: VOTING_PERIOD,
                        timelock_period: TIMELOCK_PERIOD,
                        proposal_threshold: PROPOSAL_THRESHOLD,
                    },
                ),
                ..old(env)@.governance
            }),
            forall|j: int| 0 <= j < holders@.len() ==> #[trigger] holders@[j].1 > 0,
            forall|j: int| 0 <= j < holders@.len() ==> #[trigger] holders@[j].0 < admin,
            total_granted(holders@) <= supply,
        decreases holders.len() - i,
    {
        let (holder, amount) = holders[i];
        let ghost before = env@;
        let ghost done = holders@.take(i as int);
        let ghost next = holders@.take(i + 1);
        proof {
            assert(next.drop_last() =~= done);
            assert(next.last() == holders@[i as int]);
            lemma_granted_bounds(holders@, holder, i + 1);
            lemma_granted_bounds(next, holder, 0);
            assert(holder != admin);
        }
        QuorumToken::transfer(env, admin, holder, amount).unwrap();
        proof {
            lemma_move_conserves_supply(before.token, admin, holder, amount, GENESIS);
            assert forall|a: Address| a != admin implies #[trigger] env@.token.balance(a) == granted(next, a) by {
                if a != holder {
                    assert(env@.token.balance(a) == before.token.balance(a));
                }
            }
            let grant = TokenEvent::Transfer(Transfer { from: admin, to: holder, amount });
            assert(grant_events(admin, next) =~= grant_events(admin, done).push(grant));
            assert(env@.events =~= genesis_events + grant_events(admin, next));
        }
        i += 1;
    }
    proof {
        assert(holders@.take(holders@.len() as int) =~= holders@);
    }
    env.set_sequence_number(OPENED);
    let p = propose(env, governance_id, admin);
    proof {
        assert forall|a: Address| #[trigger] env@.token.past_balance(a, OPENED) == env@.token.balance(a) by {
            lemma_past_balance_is_live(env@.token, OPENED, a, OPENED);
        }
    }
    (admin, governance_id, p.id)
}

} // verus!
