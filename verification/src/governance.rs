//! The governor: proposals, snapshot-weighted voting, quorum, timelock.
use std::collections::HashMap;
use vstd::prelude::*;

use crate::checkpoints::searched_balance;
use crate::env::{Address, Env, EnvModel, make_pair_key, pair_key};
use crate::token::QuorumToken;

verus! {

broadcast use vstd::std_specs::hash::group_hash_axioms;

/// Why a governance call was refused.
#[derive(Clone, Copy, Debug, PartialEq, Eq, PartialOrd, Ord, Structural)]
pub enum GovernanceError {
    AlreadyInitialized,
    NotInitialized,
    Unauthorized,
    BelowProposalThreshold,
    ProposalNotFound,
    VotingNotActive,
    VotingPeriodEnded,
    InvalidVoteChoice,
    AlreadyVoted,
    NoVotingPower,
    ProposalNotPassed,
    TimelockNotExpired,
    Overflow,
}

/// Parameters fixed at initialization.
#[derive(Clone, Copy, Debug, PartialEq, Eq, Structural)]
pub struct Config {
    pub admin: Address,
    pub token: Address,
    pub quorum_bps: u32,
    pub voting_period: u32,
    pub timelock_period: u32,
    pub proposal_threshold: i128,
}

/// Where a proposal stands in its lifecycle.
#[derive(Clone, Copy, Debug, PartialEq, Eq, Structural)]
pub enum ProposalStatus {
    Pending,
    Active,
    Failed,
    Queued,
    Executed,
    Cancelled,
}

/// A proposal and its tallies.
#[derive(Debug, PartialEq, Eq)]
pub struct Proposal {
    pub id: u64,
    pub proposer: Address,
    pub title: String,
    pub description: String,
    pub snapshot_ledger: u32,
    pub start_ledger: u32,
    pub end_ledger: u32,
    pub queue_ledger: u32,
    pub status: ProposalStatus,
    pub for_votes: i128,
    pub against_votes: i128,
    pub abstain_votes: i128,
    pub quorum_required: i128,
}

/// Published when a proposal is opened.
#[derive(Clone, Copy, Debug, PartialEq, Eq, Structural)]
pub struct ProposalCreated {
    pub id: u64,
    pub proposer: Address,
    pub snapshot_ledger: u32,
    pub end_ledger: u32,
    pub quorum_required: i128,
}

/// Published when a vote is counted, with the weight it carried.
#[derive(Clone, Copy, Debug, PartialEq, Eq, Structural)]
pub struct VoteCast {
    pub id: u64,
    pub voter: Address,
    pub support: u32,
    pub weight: i128,
}

/// Published when voting on a proposal is closed, with its outcome.
#[derive(Clone, Copy, Debug, PartialEq, Eq, Structural)]
pub struct ProposalFinalized {
    pub id: u64,
    pub status: ProposalStatus,
}

/// An event published by the governance contract.
#[derive(Clone, Copy, Debug, PartialEq, Eq, Structural)]
pub enum GovernanceEvent {
    ProposalCreated(ProposalCreated),
    VoteCast(VoteCast),
    ProposalFinalized(ProposalFinalized),
}

/// Storage of the governance contract.
pub struct GovernanceStorage {
    pub config: Option<Config>,
    /// Proposal `id` is at index `id - 1`.
    pub proposals: Vec<Proposal>,
    /// The choice of each voter, keyed by `pair_key(proposal id, voter)`.
    pub votes: HashMap<u128, u32>,
}

/// Mathematical view of [`GovernanceStorage`].
#[verifier::ext_equal]
pub struct GovernanceModel {
    pub config: Option<Config>,
    pub proposals: Seq<Proposal>,
    pub votes: Map<u128, u32>,
}

impl View for GovernanceStorage {
    type V = GovernanceModel;

    open spec fn view(&self) -> GovernanceModel {
        GovernanceModel { config: self.config, proposals: self.proposals@, votes: self.votes@ }
    }
}

impl GovernanceModel {
    /// Nothing stored yet.
    pub open spec fn empty() -> GovernanceModel {
        GovernanceModel { config: None, proposals: Seq::empty(), votes: Map::empty() }
    }

    /// Proposal ids count up from 1 and proposals exist only once configured.
    pub open spec fn wf(self) -> bool {
        &&& forall|i: int| 0 <= i < self.proposals.len() ==> #[trigger] self.proposals[i].id == i + 1
        &&& self.proposals.len() > 0 ==> self.config is Some
        &&& self.proposals.len() <= u64::MAX
    }

    /// Proposal `id`, if it exists.
    pub open spec fn proposal(self, id: u64) -> Option<Proposal> {
        if 1 <= id <= self.proposals.len() {
            Some(self.proposals[id - 1])
        } else {
            None
        }
    }

    /// The choice `voter` cast on proposal `id`, if any.
    pub open spec fn vote_of(self, id: u64, voter: Address) -> Option<u32> {
        if self.votes.contains_key(pair_key(id, voter)) {
            Some(self.votes[pair_key(id, voter)])
        } else {
            None
        }
    }

    /// Proposal `id` replaced by `p`.
    pub open spec fn with_proposal(self, id: u64, p: Proposal) -> GovernanceModel {
        GovernanceModel { proposals: self.proposals.update(id - 1, p), ..self }
    }

    /// `voter`'s choice recorded on proposal `id` and its weight added to
    /// the matching tally.
    pub open spec fn voted(self, id: u64, voter: Address, support: u32, weight: i128) -> GovernanceModel {
        let p = self.proposal(id).unwrap();
        GovernanceModel {
            proposals: self.proposals.update(
                id - 1,
                with_tally(p, support, (tally(p, support) + weight) as i128),
            ),
            votes: self.votes.insert(pair_key(id, voter), support),
            ..self
        }
    }
}

/// Choice value of a vote against.
pub const VOTE_AGAINST: u32 = 0;

/// Choice value of a vote for.
pub const VOTE_FOR: u32 = 1;

/// Choice value of an abstention.
pub const VOTE_ABSTAIN: u32 = 2;

/// The tally a vote of `support` counts towards.
pub open spec fn tally(p: Proposal, support: u32) -> i128 {
    if support == VOTE_AGAINST {
        p.against_votes
    } else if support == VOTE_FOR {
        p.for_votes
    } else {
        p.abstain_votes
    }
}

/// `p` with the tally of `support` set to `value`.
pub open spec fn with_tally(p: Proposal, support: u32, value: i128) -> Proposal {
    if support == VOTE_AGAINST {
        Proposal { against_votes: value, ..p }
    } else if support == VOTE_FOR {
        Proposal { for_votes: value, ..p }
    } else {
        Proposal { abstain_votes: value, ..p }
    }
}

/// `x` fits in an `i128`.
pub open spec fn fits_i128(x: int) -> bool {
    i128::MIN <= x <= i128::MAX
}

/// Division rounding toward zero, as integer division does.
pub open spec fn div_toward_zero(x: int, d: int) -> int {
    if x >= 0 {
        x / d
    } else {
        -((-x) / d)
    }
}

/// The turnout a proposal needs: `supply * quorum_bps / 10000`, rounded
/// toward zero; `None` when the product does not fit in an `i128`.
pub open spec fn quorum_of(supply: i128, quorum_bps: u32) -> Option<i128> {
    if fits_i128(supply * quorum_bps) {
        Some(div_toward_zero(supply * quorum_bps, 10000) as i128)
    } else {
        None
    }
}

/// The tallies of `p` can be summed: For + Against, then + Abstain.
pub open spec fn tallies_fit(p: Proposal) -> bool {
    fits_i128(p.for_votes + p.against_votes) && fits_i128(p.for_votes + p.against_votes + p.abstain_votes)
}

/// Turnout reached the quorum and For strictly beats Against.
pub open spec fn passes(p: Proposal) -> bool {
    p.for_votes + p.against_votes + p.abstain_votes >= p.quorum_required && p.for_votes > p.against_votes
}

impl Proposal {
    /// A field-by-field copy.
    pub fn duplicate(&self) -> (p: Proposal)
        ensures
            p == *self,
    {
        Proposal {
            id: self.id,
            proposer: self.proposer,
            title: self.title.clone(),
            description: self.description.clone(),
            snapshot_ledger: self.snapshot_ledger,
            start_ledger: self.start_ledger,
            end_ledger: self.end_ledger,
            queue_ledger: self.queue_ledger,
            status: self.status,
            for_votes: self.for_votes,
            against_votes: self.against_votes,
            abstain_votes: self.abstain_votes,
            quorum_required: self.quorum_required,
        }
    }
}

impl GovernanceStorage {
    /// Empty storage.
    pub fn new() -> (s: GovernanceStorage)
        ensures
            s@ == GovernanceModel::empty(),
    {
        let s = GovernanceStorage { config: None, proposals: Vec::new(), votes: HashMap::new() };
        proof {
            assert(s@ =~= GovernanceModel::empty());
        }
        s
    }
}


/// What `create_proposal` by `proposer` returns in `env`.
pub open spec fn create_result(env: EnvModel, proposer: Address) -> Result<u64, GovernanceError> {
    let g = env.governance;
    let cfg = g.config.unwrap();
    if g.config is None {
        Err(GovernanceError::NotInitialized)
    } else if !env.authorizes(proposer) {
        Err(GovernanceError::Unauthorized)
    } else if env.token.balance(proposer) < cfg.proposal_threshold {
        Err(GovernanceError::BelowProposalThreshold)
    } else if quorum_of(env.token.total_supply, cfg.quorum_bps) is None {
        Err(GovernanceError::Overflow)
    } else if env.sequence + 1 + cfg.voting_period > u32::MAX {
        Err(GovernanceError::Overflow)
    } else if g.proposals.len() >= u64::MAX {
        Err(GovernanceError::Overflow)
    } else {
        Ok((g.proposals.len() + 1) as u64)
    }
}

/// What a vote of `support` by `voter` on proposal `id` returns in `env`.
pub open spec fn vote_result(env: EnvModel, voter: Address, id: u64, support: u32) -> Result<(), GovernanceError> {
    let g = env.governance;
    let p = g.proposal(id).unwrap();
    let power = env.token.read_balance(voter, p.snapshot_ledger);
    if !env.authorizes(voter) {
        Err(GovernanceError::Unauthorized)
    } else if g.proposal(id) is None {
        Err(GovernanceError::ProposalNotFound)
    } else if p.status != ProposalStatus::Active {
        Err(GovernanceError::VotingNotActive)
    } else if env.sequence > p.end_ledger {
        Err(GovernanceError::VotingPeriodEnded)
    } else if support > VOTE_ABSTAIN {
        Err(GovernanceError::InvalidVoteChoice)
    } else if g.vote_of(id, voter) is Some {
        Err(GovernanceError::AlreadyVoted)
    } else if power <= 0 {
        Err(GovernanceError::NoVotingPower)
    } else if !fits_i128(tally(p, support) + power) {
        Err(GovernanceError::Overflow)
    } else {
        Ok(())
    }
}

/// What finalizing proposal `id` returns in `env`.
pub open spec fn finalize_result(env: EnvModel, id: u64) -> Result<ProposalStatus, GovernanceError> {
    let g = env.governance;
    let p = g.proposal(id).unwrap();
    if g.proposal(id) is None {
        Err(GovernanceError::ProposalNotFound)
    } else if p.status != ProposalStatus::Active {
        Err(GovernanceError::VotingNotActive)
    } else if env.sequence <= p.end_ledger {
        Err(GovernanceError::VotingNotActive)
    } else if !tallies_fit(p) {
        Err(GovernanceError::Overflow)
    } else if passes(p) && env.sequence + g.config.unwrap().timelock_period > u32::MAX {
        Err(GovernanceError::Overflow)
    } else if passes(p) {
        Ok(ProposalStatus::Queued)
    } else {
        Ok(ProposalStatus::Failed)
    }
}

/// What executing proposal `id` returns in `env`.
pub open spec fn execute_result(env: EnvModel, id: u64) -> Result<(), GovernanceError> {
    let g = env.governance;
    let p = g.proposal(id).unwrap();
    if g.proposal(id) is None {
        Err(GovernanceError::ProposalNotFound)
    } else if p.status != ProposalStatus::Queued {
        Err(GovernanceError::ProposalNotPassed)
    } else if env.sequence < p.queue_ledger {
        Err(GovernanceError::TimelockNotExpired)
    } else {
        Ok(())
    }
}

/// What cancelling proposal `id` by `caller` returns in `env`: the proposer
/// or the admin may cancel any proposal not yet executed, before or after
/// voting.
pub open spec fn cancel_result(env: EnvModel, caller: Address, id: u64) -> Result<(), GovernanceError> {
    let g = env.governance;
    let p = g.proposal(id).unwrap();
    if !env.authorizes(caller) {
        Err(GovernanceError::Unauthorized)
    } else if g.proposal(id) is None {
        Err(GovernanceError::ProposalNotFound)
    } else if caller != p.proposer && caller != g.config.unwrap().admin {
        Err(GovernanceError::Unauthorized)
    } else if p.status == ProposalStatus::Executed || p.status == ProposalStatus::Cancelled {
        Err(GovernanceError::VotingNotActive)
    } else {
        Ok(())
    }
}

/// A vote gets as far as reading the voter's weight from the token: the
/// voter authorized it, the proposal exists and is open, the choice is valid
/// and the voter has not voted.
pub open spec fn vote_reads_token(env: EnvModel, voter: Address, id: u64, support: u32) -> bool {
    let p = env.governance.proposal(id).unwrap();
    &&& env.authorizes(voter)
    &&& env.governance.proposal(id) is Some
    &&& p.status == ProposalStatus::Active
    &&& env.sequence <= p.end_ledger
    &&& support <= VOTE_ABSTAIN
    &&& env.governance.vote_of(id, voter) is None
}

impl EnvModel {
    /// The configured token is the token contract hosted in this
    /// environment, the one the governor reads balances and supply from.
    pub open spec fn token_wired(self) -> bool {
        self.governance.config is Some ==> self.governance.config.unwrap().token == self.token_address
    }

    /// The environment with its governance storage replaced.
    pub open spec fn with_governance(self, governance: GovernanceModel) -> EnvModel {
        EnvModel { governance, ..self }
    }

    /// The environment with its governance storage replaced and `event`
    /// published by the governor.
    pub open spec fn with_governance_event(self, governance: GovernanceModel, event: GovernanceEvent) -> EnvModel {
        EnvModel { governance, governance_events: self.governance_events.push(event), ..self }
    }
}

/// The governance contract. Each function works on the governance storage in
/// `env`. Balances and supply are read from the token contract hosted in the
/// same environment, whose address the configuration records.
pub struct GovernanceContract;

impl GovernanceContract {
    /// Stores the configuration, authorized by `admin`.
    pub fn initialize(
        env: &mut Env,
        admin: Address,
        token: Address,
        quorum_bps: u32,
        voting_period: u32,
        timelock_period: u32,
        proposal_threshold: i128,
    ) -> (r: Result<(), GovernanceError>)
        requires
            old(env).wf(),
        ensures
            final(env).wf(),
            r == (if old(env)@.governance.config is Some {
                Err(GovernanceError::AlreadyInitialized)
            } else if !old(env)@.authorizes(admin) {
                Err(GovernanceError::Unauthorized)
            } else {
                Ok(())
            }),
            r is Err ==> final(env)@ == old(env)@,
            r is Ok ==> final(env)@ == old(env)@.with_governance(
                GovernanceModel {
                    config: Some(
                        Config { admin, token, quorum_bps, voting_period, timelock_period, proposal_threshold },
                    ),
                    ..old(env)@.governance
                },
            ),
    {
        if env.governance.config.is_some() {
            return Err(GovernanceError::AlreadyInitialized);
        }
        if !env.has_auth(admin) {
            return Err(GovernanceError::Unauthorized);
        }
        env.governance.config = Some(
            Config { admin, token, quorum_bps, voting_period, timelock_period, proposal_threshold },
        );
        proof {
            assert(env@ =~= old(env)@.with_governance(
                GovernanceModel {
                    config: Some(
                        Config { admin, token, quorum_bps, voting_period, timelock_period, proposal_threshold },
                    ),
                    ..old(env)@.governance
                },
            ));
        }
        Ok(())
    }

    /// Opens a proposal by `proposer`, who must hold at least the proposal
    /// threshold live. The snapshot is the current ledger, voting runs from
    /// the next ledger for `voting_period` ledgers, and the quorum is fixed
    /// from the token's supply now.
    pub fn create_proposal(
        env: &mut Env,
        proposer: Address,
        title: String,
        description: String,
    ) -> (r: Result<u64, GovernanceError>)
        requires
            old(env).wf(),
            old(env)@.token_wired(),
        ensures
            final(env).wf(),
            r == create_result(old(env)@, proposer),
            r is Err ==> final(env)@ == old(env)@,
            r matches Ok(id) ==> ({
                let g = old(env)@.governance;
                let seq = old(env)@.sequence;
                let cfg = g.config.unwrap();
                let quorum_required = quorum_of(old(env)@.token.total_supply, cfg.quorum_bps).unwrap();
                final(env)@ == old(env)@.with_governance_event(
                    GovernanceModel {
                        proposals: g.proposals.push(
                            Proposal {
                                id,
                                proposer,
                                title,
                                description,
                                snapshot_ledger: seq,
                                start_ledger: (seq + 1) as u32,
                                end_ledger: (seq + 1 + cfg.voting_period) as u32,
                                queue_ledger: 0,
                                status: ProposalStatus::Active,
                                for_votes: 0,
                                against_votes: 0,
                                abstain_votes: 0,
                                quorum_required,
                            },
                        ),
                        ..g
                    },
                    GovernanceEvent::ProposalCreated(
                        ProposalCreated {
                            id,
                            proposer,
                            snapshot_ledger: seq,
                            end_ledger: (seq + 1 + cfg.voting_period) as u32,
                            quorum_required,
                        },
                    ),
                )
            }),
    {
        let config = match env.governance.config {
            Some(c) => c,
            None => {
                return Err(GovernanceError::NotInitialized);
            },
        };
        if !env.has_auth(proposer) {
            return Err(GovernanceError::Unauthorized);
        }
        let live = QuorumToken::balance(env, proposer);
        if live < config.proposal_threshold {
            return Err(GovernanceError::BelowProposalThreshold);
        }
        let supply = QuorumToken::total_supply(env);
        let quorum_required = match Self::quorum_for_supply(supply, config.quorum_bps) {
            Ok(q) => q,
            Err(e) => {
                return Err(e);
            },
        };
        let snapshot_ledger = env.sequence;
        let start_ledger = match snapshot_ledger.checked_add(1) {
            Some(l) => l,
            None => {
                return Err(GovernanceError::Overflow);
            },
        };
        let end_ledger = match start_ledger.checked_add(config.voting_period) {
            Some(l) => l,
            None => {
                return Err(GovernanceError::Overflow);
            },
        };
        let count = env.governance.proposals.len() as u64;
        let id = match count.checked_add(1) {
            Some(id) => id,
            None => {
                return Err(GovernanceError::Overflow);
            },
        };
        let ghost g = old(env)@.governance;
        let proposal = Proposal {
            id,
            proposer,
            title,
            description,
            snapshot_ledger,
            start_ledger,
            end_ledger,
            queue_ledger: 0,
            status: ProposalStatus::Active,
            for_votes: 0,
            against_votes: 0,
            abstain_votes: 0,
            quorum_required,
        };
        env.governance.proposals.push(proposal);
        let created = GovernanceEvent::ProposalCreated(
            ProposalCreated { id, proposer, snapshot_ledger, end_ledger, quorum_required },
        );
        env.governance_events.push(created);
        proof {
            let ng = env@.governance;
            assert forall|i: int| 0 <= i < ng.proposals.len() implies #[trigger] ng.proposals[i].id == i + 1 by {
                if i < g.proposals.len() {
                    assert(ng.proposals[i] == g.proposals[i]);
                }
            }
            assert(env@ =~= old(env)@.with_governance_event(
                GovernanceModel { proposals: g.proposals.push(proposal), ..g },
                created,
            ));
        }
        Ok(id)
    }

    /// Casts `voter`'s vote on proposal `proposal_id`: 0 against, 1 for, 2
    /// abstain. The weight is the voter's balance at the proposal's snapshot
    /// ledger; a voter with none is refused, and each voter votes once.
    pub fn vote(env: &mut Env, voter: Address, proposal_id: u64, support: u32) -> (r: Result<(), GovernanceError>)
        requires
            old(env).wf(),
            vote_reads_token(old(env)@, voter, proposal_id, support) ==> old(env)@.token_wired(),
        ensures
            final(env).wf(),
            r == vote_result(old(env)@, voter, proposal_id, support),
            r is Err ==> final(env)@ == old(env)@,
            r is Ok ==> ({
                let weight = old(env)@.token.read_balance(
                    voter,
                    old(env)@.governance.proposal(proposal_id).unwrap().snapshot_ledger,
                );
                final(env)@ == old(env)@.with_governance_event(
                    old(env)@.governance.voted(proposal_id, voter, support, weight),
                    GovernanceEvent::VoteCast(VoteCast { id: proposal_id, voter, support, weight }),
                )
            }),
    {
        if !env.has_auth(voter) {
            return Err(GovernanceError::Unauthorized);
        }
        let mut p = match Self::load(env, proposal_id) {
            Some(p) => p,
            None => {
                return Err(GovernanceError::ProposalNotFound);
            },
        };
        if p.status != ProposalStatus::Active {
            return Err(GovernanceError::VotingNotActive);
        }
        if env.sequence > p.end_ledger {
            return Err(GovernanceError::VotingPeriodEnded);
        }
        if support > VOTE_ABSTAIN {
            return Err(GovernanceError::InvalidVoteChoice);
        }
        let key = make_pair_key(proposal_id, voter);
        if env.governance.votes.contains_key(&key) {
            return Err(GovernanceError::AlreadyVoted);
        }
        let power = QuorumToken::get_past_balance(env, voter, p.snapshot_ledger);
        if power <= 0 {
            return Err(GovernanceError::NoVotingPower);
        }
        let ghost before = p;
        if support == VOTE_AGAINST {
            p.against_votes = match Self::add_weight(p.against_votes, power) {
                Ok(w) => w,
                Err(e) => {
                    return Err(e);
                },
            };
        } else if support == VOTE_FOR {
            p.for_votes = match Self::add_weight(p.for_votes, power) {
                Ok(w) => w,
                Err(e) => {
                    return Err(e);
                },
            };
        } else {
            p.abstain_votes = match Self::add_weight(p.abstain_votes, power) {
                Ok(w) => w,
                Err(e) => {
                    return Err(e);
                },
            };
        }
        proof {
            assert(p == with_tally(before, support, (tally(before, support) + power) as i128));
        }
        Self::store(env, proposal_id, p);
        env.governance.votes.insert(key, support);
        let cast = GovernanceEvent::VoteCast(VoteCast { id: proposal_id, voter, support, weight: power });
        env.governance_events.push(cast);
        proof {
            assert(env@ =~= old(env)@.with_governance_event(
                old(env)@.governance.voted(proposal_id, voter, support, power),
                cast,
            ));
        }
        Ok(())
    }

    /// Closes voting on proposal `proposal_id` once its last voting ledger
    /// has passed: Queued behind the timelock when turnout reached the quorum
    /// and For strictly beat Against, Failed otherwise.
    pub fn finalize(env: &mut Env, proposal_id: u64) -> (r: Result<ProposalStatus, GovernanceError>)
        requires
            old(env).wf(),
        ensures
            final(env).wf(),
            r == finalize_result(old(env)@, proposal_id),
            r is Err ==> final(env)@ == old(env)@,
            r matches Ok(status) ==> ({
                let g = old(env)@.governance;
                let p = g.proposal(proposal_id).unwrap();
                let seq = old(env)@.sequence;
                final(env)@ == old(env)@.with_governance_event(
                    g.with_proposal(
                        proposal_id,
                        if status == ProposalStatus::Queued {
                            Proposal {
                                status,
                                queue_ledger: (seq + g.config.unwrap().timelock_period) as u32,
                                ..p
                            }
                        } else {
                            Proposal { status, ..p }
                        },
                    ),
                    GovernanceEvent::ProposalFinalized(ProposalFinalized { id: proposal_id, status }),
                )
            }),
    {
        let mut p = match Self::load(env, proposal_id) {
            Some(p) => p,
            None => {
                return Err(GovernanceError::ProposalNotFound);
            },
        };
        if p.status != ProposalStatus::Active {
            return Err(GovernanceError::VotingNotActive);
        }
        if env.sequence <= p.end_ledger {
            return Err(GovernanceError::VotingNotActive);
        }
        let decided = match Self::add_weight(p.for_votes, p.against_votes) {
            Ok(w) => w,
            Err(e) => {
                return Err(e);
            },
        };
        let total = match Self::add_weight(decided, p.abstain_votes) {
            Ok(w) => w,
            Err(e) => {
                return Err(e);
            },
        };
        let passed = total >= p.quorum_required && p.for_votes > p.against_votes;
        if passed {
            let config = env.governance.config.unwrap();
            p.queue_ledger = match env.sequence.checked_add(config.timelock_period) {
                Some(l) => l,
                None => {
                    return Err(GovernanceError::Overflow);
                },
            };
            p.status = ProposalStatus::Queued;
        } else {
            p.status = ProposalStatus::Failed;
        }
        let status = p.status;
        let ghost stored = p;
        Self::store(env, proposal_id, p);
        let finalized = GovernanceEvent::ProposalFinalized(ProposalFinalized { id: proposal_id, status });
        env.governance_events.push(finalized);
        proof {
            assert(env@ =~= old(env)@.with_governance_event(
                old(env)@.governance.with_proposal(proposal_id, stored),
                finalized,
            ));
        }
        Ok(status)
    }

    /// Marks a queued proposal executed once its timelock has elapsed.
    pub fn execute(env: &mut Env, proposal_id: u64) -> (r: Result<(), GovernanceError>)
        requires
            old(env).wf(),
        ensures
            final(env).wf(),
            r == execute_result(old(env)@, proposal_id),
            r is Err ==> final(env)@ == old(env)@,
            r is Ok ==> final(env)@ == old(env)@.with_governance(
                old(env)@.governance.with_proposal(
                    proposal_id,
                    Proposal {
                        status: ProposalStatus::Executed,
                        ..old(env)@.governance.proposal(proposal_id).unwrap()
                    },
                ),
            ),
    {
        let mut p = match Self::load(env, proposal_id) {
            Some(p) => p,
            None => {
                return Err(GovernanceError::ProposalNotFound);
            },
        };
        if p.status != ProposalStatus::Queued {
            return Err(GovernanceError::ProposalNotPassed);
        }
        if env.sequence < p.queue_ledger {
            return Err(GovernanceError::TimelockNotExpired);
        }
        p.status = ProposalStatus::Executed;
        Self::store(env, proposal_id, p);
        Ok(())
    }

    /// Cancels a proposal not yet executed, before or after voting, by its
    /// proposer or the admin.
    pub fn cancel(env: &mut Env, caller: Address, proposal_id: u64) -> (r: Result<(), GovernanceError>)
        requires
            old(env).wf(),
        ensures
            final(env).wf(),
            r == cancel_result(old(env)@, caller, proposal_id),
            r is Err ==> final(env)@ == old(env)@,
            r is Ok ==> final(env)@ == old(env)@.with_governance(
                old(env)@.governance.with_proposal(
                    proposal_id,
                    Proposal {
                        status: ProposalStatus::Cancelled,
                        ..old(env)@.governance.proposal(proposal_id).unwrap()
                    },
                ),
            ),
    {
        if !env.has_auth(caller) {
            return Err(GovernanceError::Unauthorized);
        }
        let mut p = match Self::load(env, proposal_id) {
            Some(p) => p,
            None => {
                return Err(GovernanceError::ProposalNotFound);
            },
        };
        let config = env.governance.config.unwrap();
        if caller != p.proposer && caller != config.admin {
            return Err(GovernanceError::Unauthorized);
        }
        if p.status == ProposalStatus::Executed || p.status == ProposalStatus::Cancelled {
            return Err(GovernanceError::VotingNotActive);
        }
        p.status = ProposalStatus::Cancelled;
        Self::store(env, proposal_id, p);
        Ok(())
    }

    /// Proposal `proposal_id`.
    pub fn get_proposal(env: &Env, proposal_id: u64) -> (r: Result<Proposal, GovernanceError>)
        ensures
            r == (match env@.governance.proposal(proposal_id) {
                Some(p) => Ok(p),
                None => Err(GovernanceError::ProposalNotFound),
            }),
    {
        match Self::load(env, proposal_id) {
            Some(p) => Ok(p),
            None => Err(GovernanceError::ProposalNotFound),
        }
    }

    /// Number of proposals created so far, which is also the latest id.
    pub fn get_proposal_count(env: &Env) -> (count: u64)
        requires
            env.wf(),
        ensures
            count == env@.governance.proposals.len(),
    {
        env.governance.proposals.len() as u64
    }

    /// Whether `voter` has voted on proposal `proposal_id`.
    pub fn has_voted(env: &Env, proposal_id: u64, voter: Address) -> (voted: bool)
        ensures
            voted == env@.governance.vote_of(proposal_id, voter) is Some,
    {
        let key = make_pair_key(proposal_id, voter);
        env.governance.votes.contains_key(&key)
    }

    /// The choice `voter` cast on proposal `proposal_id`, or `None`.
    pub fn get_vote(env: &Env, proposal_id: u64, voter: Address) -> (choice: Option<u32>)
        ensures
            choice == env@.governance.vote_of(proposal_id, voter),
    {
        let key = make_pair_key(proposal_id, voter);
        match env.governance.votes.get(&key) {
            Some(c) => Some(*c),
            None => None,
        }
    }

    /// The stored configuration.
    pub fn get_config(env: &Env) -> (r: Result<Config, GovernanceError>)
        ensures
            r == (match env@.governance.config {
                Some(c) => Ok(c),
                None => Err(GovernanceError::NotInitialized),
            }),
    {
        match env.governance.config {
            Some(c) => Ok(c),
            None => Err(GovernanceError::NotInitialized),
        }
    }

    /// `a + b`, or `Overflow` where the sum does not fit in an `i128`.
    pub fn add_weight(a: i128, b: i128) -> (r: Result<i128, GovernanceError>)
        ensures
            r == (if fits_i128(a + b) {
                Ok((a + b) as i128)
            } else {
                Err(GovernanceError::Overflow)
            }),
    {
        match a.checked_add(b) {
            Some(sum) => Ok(sum),
            None => Err(GovernanceError::Overflow),
        }
    }

    /// `supply * quorum_bps / 10000`, rounded toward zero, or `Overflow`
    /// where the product does not fit in an `i128`.
    pub fn quorum_for_supply(supply: i128, quorum_bps: u32) -> (r: Result<i128, GovernanceError>)
        ensures
            r == (match quorum_of(supply, quorum_bps) {
                Some(q) => Ok(q),
                None => Err(GovernanceError::Overflow),
            }),
    {
        let bps = quorum_bps as i128;
        match supply.checked_mul(bps) {
            Some(product) => match product.checked_div(10_000) {
                Some(q) => Ok(q),
                None => Err(GovernanceError::Overflow),
            },
            None => Err(GovernanceError::Overflow),
        }
    }

    /// A copy of proposal `proposal_id`, if it exists.
    fn load(env: &Env, proposal_id: u64) -> (p: Option<Proposal>)
        ensures
            p == env@.governance.proposal(proposal_id),
    {
        let len = env.governance.proposals.len();
        if proposal_id >= 1 && proposal_id as usize <= len && proposal_id <= len as u64 {
            Some(env.governance.proposals[(proposal_id - 1) as usize].duplicate())
        } else {
            None
        }
    }

    /// Writes back proposal `proposal_id`, which keeps its id.
    fn store(env: &mut Env, proposal_id: u64, p: Proposal)
        requires
            old(env).wf(),
            old(env)@.governance.proposal(proposal_id) is Some,
            p.id == proposal_id,
        ensures
            final(env).wf(),
            final(env)@ == old(env)@.with_governance(old(env)@.governance.with_proposal(proposal_id, p)),
    {
        let ghost g = old(env)@.governance;
        assert(1 <= proposal_id <= env.governance.proposals.len());
        let index = (proposal_id - 1) as usize;
        assert(index == proposal_id - 1);
        env.governance.proposals.set(index, p);
        proof {
            let ng = env@.governance;
            assert forall|i: int| 0 <= i < ng.proposals.len() implies #[trigger] ng.proposals[i].id == i + 1 by {
                if i != proposal_id - 1 {
                    assert(ng.proposals[i] == g.proposals[i]);
                }
            }
            assert(env@ =~= old(env)@.with_governance(g.with_proposal(proposal_id, p)));
        }
    }
}

/// The quorum is never rounded above what the supply supports: for a
/// non-negative supply and at most 10000 basis points it lies between 0 and
/// the supply.
pub proof fn lemma_quorum_within_supply(supply: i128, quorum_bps: u32)
    requires
        supply >= 0,
        quorum_bps <= 10000,
        quorum_of(supply, quorum_bps) is Some,
    ensures
        0 <= quorum_of(supply, quorum_bps).unwrap() <= supply,
{
    let x = supply * quorum_bps;
    assert(0 <= x <= supply * 10000) by (nonlinear_arith)
        requires
            supply >= 0,
            0 <= quorum_bps <= 10000,
            x == supply * quorum_bps,
    ;
    vstd::arithmetic::div_mod::lemma_div_is_ordered(x, supply * 10000, 10000);
    vstd::arithmetic::div_mod::lemma_div_by_multiple(supply as int, 10000);
    vstd::arithmetic::div_mod::lemma_div_pos_is_pos(x, 10000);
}

/// A proposal's quorum is derived from the token's supply when it is
/// created: with the governor configured, the product of supply and basis
/// points fitting an `i128` and the proposer holding the threshold, creation
/// fails only where the proposer did not authorize it or the voting window
/// or the proposal count would overflow,
/// and the quorum it records is `supply * quorum_bps / 10000` rounded toward
/// zero, between 0 and the supply for a non-negative supply and at most
/// 10000 basis points.
pub proof fn lemma_created_quorum(env: EnvModel, proposer: Address)
    requires
        env.governance.config is Some,
        fits_i128(env.token.total_supply * env.governance.config.unwrap().quorum_bps),
        env.token.balance(proposer) >= env.governance.config.unwrap().proposal_threshold,
    ensures
        ({
            let cfg = env.governance.config.unwrap();
            let supply = env.token.total_supply;
            &&& quorum_of(supply, cfg.quorum_bps) == Some(div_toward_zero(supply * cfg.quorum_bps, 10000) as i128)
            &&& create_result(env, proposer) is Ok <==> {
                &&& env.authorizes(proposer)
                &&& env.sequence + 1 + cfg.voting_period <= u32::MAX
                &&& env.governance.proposals.len() < u64::MAX
            }
            &&& supply >= 0 && cfg.quorum_bps <= 10000 ==> 0 <= quorum_of(supply, cfg.quorum_bps).unwrap() <= supply
        }),
{
    let cfg = env.governance.config.unwrap();
    let supply = env.token.total_supply;
    if supply >= 0 && cfg.quorum_bps <= 10000 {
        lemma_quorum_within_supply(supply, cfg.quorum_bps);
    }
}

/// A vote changes only the matching tally of its own proposal: the
/// proposal's snapshot, window, quorum and status stay as they were at
/// creation, every other proposal is untouched, and only this voter's
/// choice on this proposal is recorded.
pub proof fn lemma_vote_keeps_terms(
    g: GovernanceModel,
    id: u64,
    voter: Address,
    support: u32,
    weight: i128,
    other: u64,
    other_voter: Address,
)
    requires
        g.proposal(id) is Some,
        support <= VOTE_ABSTAIN,
    ensures
        ({
            let before = g.proposal(other).unwrap();
            let after = g.voted(id, voter, support, weight).proposal(other).unwrap();
            &&& g.voted(id, voter, support, weight).proposal(other) is Some <==> g.proposal(other) is Some
            &&& g.proposal(other) is Some ==> {
                &&& after.id == before.id
                &&& after.proposer == before.proposer
                &&& after.snapshot_ledger == before.snapshot_ledger
                &&& after.start_ledger == before.start_ledger
                &&& after.end_ledger == before.end_ledger
                &&& after.queue_ledger == before.queue_ledger
                &&& after.quorum_required == before.quorum_required
                &&& after.status == before.status
                &&& other != id ==> after == before
            }
        }),
        g.voted(id, voter, support, weight).vote_of(id, voter) == Some(support),
        other != id || other_voter != voter ==> g.voted(id, voter, support, weight).vote_of(other, other_voter)
            == g.vote_of(other, other_voter),
{
    if pair_key(id, voter) == pair_key(other, other_voter) {
        crate::env::lemma_pair_key_injective(id, voter, other, other_voter);
    }
}

/// A proposal that failed, was executed or was cancelled is closed for
/// good: no vote on it, finalization or execution of it succeeds; an
/// executed or cancelled one cannot be cancelled either.
pub proof fn lemma_closed_proposal_stays_closed(env: EnvModel, id: u64, who: Address, support: u32)
    requires
        env.governance.proposal(id) is Some,
        env.governance.proposal(id).unwrap().status == ProposalStatus::Failed
            || env.governance.proposal(id).unwrap().status == ProposalStatus::Executed
            || env.governance.proposal(id).unwrap().status == ProposalStatus::Cancelled,
    ensures
        vote_result(env, who, id, support) is Err,
        finalize_result(env, id) is Err,
        execute_result(env, id) is Err,
        env.governance.proposal(id).unwrap().status != ProposalStatus::Failed ==> cancel_result(env, who, id) is Err,
{
}

/// Only a queued proposal whose timelock has elapsed can be executed, and a
/// proposal is queued only by a finalization after its voting window that
/// found the quorum reached and For strictly ahead of Against.
pub proof fn lemma_execution_needs_a_passed_vote(env: EnvModel, id: u64)
    ensures
        execute_result(env, id) is Ok ==> {
            &&& env.governance.proposal(id).unwrap().status == ProposalStatus::Queued
            &&& env.sequence >= env.governance.proposal(id).unwrap().queue_ledger
        },
        finalize_result(env, id) == Ok::<ProposalStatus, GovernanceError>(ProposalStatus::Queued) ==> {
            &&& env.sequence > env.governance.proposal(id).unwrap().end_ledger
            &&& passes(env.governance.proposal(id).unwrap())
        },
{
}


/// Finalizing decides by the tallies alone. A proposal comes out Queued
/// only once its window has passed and For, Against and Abstain together
/// reach the quorum while For strictly beats Against; it comes out Failed
/// only when that test fails. Once the window has passed on an Active
/// proposal whose sums and timelock fit their types, finalizing succeeds.
pub proof fn lemma_finalize_decides_by_turnout(env: EnvModel, id: u64)
    ensures
        ({
            let p = env.governance.proposal(id).unwrap();
            let reached = p.for_votes + p.against_votes + p.abstain_votes >= p.quorum_required
                && p.for_votes > p.against_votes;
            &&& finalize_result(env, id) == Ok::<ProposalStatus, GovernanceError>(ProposalStatus::Queued) ==> {
                &&& env.governance.proposal(id) is Some
                &&& p.status == ProposalStatus::Active
                &&& env.sequence > p.end_ledger
                &&& reached
            }
            &&& finalize_result(env, id) == Ok::<ProposalStatus, GovernanceError>(ProposalStatus::Failed) ==> {
                &&& env.governance.proposal(id) is Some
                &&& p.status == ProposalStatus::Active
                &&& env.sequence > p.end_ledger
                &&& !reached
            }
            &&& finalize_result(env, id) is Ok ==> finalize_result(env, id) == Ok::<ProposalStatus, GovernanceError>(
                ProposalStatus::Queued,
            ) || finalize_result(env, id) == Ok::<ProposalStatus, GovernanceError>(ProposalStatus::Failed)
            &&& {
                &&& env.governance.proposal(id) is Some
                &&& p.status == ProposalStatus::Active
                &&& env.sequence > p.end_ledger
                &&& i128::MIN <= p.for_votes + p.against_votes <= i128::MAX
                &&& i128::MIN <= p.for_votes + p.against_votes + p.abstain_votes <= i128::MAX
                &&& env.sequence + env.governance.config.unwrap().timelock_period <= u32::MAX
            } ==> finalize_result(env, id) == (if reached {
                Ok::<ProposalStatus, GovernanceError>(ProposalStatus::Queued)
            } else {
                Ok::<ProposalStatus, GovernanceError>(ProposalStatus::Failed)
            })
        }),
{
}

/// A vote of weight `weight` raises the tally of its choice by exactly that
/// weight and leaves the other two tallies as they were.
pub proof fn lemma_vote_adds_its_weight(g: GovernanceModel, id: u64, voter: Address, support: u32, weight: i128)
    requires
        g.proposal(id) is Some,
    ensures
        ({
            let p = g.proposal(id).unwrap();
            let q = g.voted(id, voter, support, weight).proposal(id).unwrap();
            &&& g.voted(id, voter, support, weight).proposal(id) is Some
            &&& support == 0 && i128::MIN <= p.against_votes + weight <= i128::MAX ==> {
                &&& q.against_votes == p.against_votes + weight
                &&& q.for_votes == p.for_votes
                &&& q.abstain_votes == p.abstain_votes
            }
            &&& support == 1 && i128::MIN <= p.for_votes + weight <= i128::MAX ==> {
                &&& q.for_votes == p.for_votes + weight
                &&& q.against_votes == p.against_votes
                &&& q.abstain_votes == p.abstain_votes
            }
            &&& support == 2 && i128::MIN <= p.abstain_votes + weight <= i128::MAX ==> {
                &&& q.abstain_votes == p.abstain_votes + weight
                &&& q.for_votes == p.for_votes
                &&& q.against_votes == p.against_votes
            }
        }),
{
}

/// Votes accumulate: two votes For by different voters raise the For tally
/// by the sum of their weights.
pub proof fn lemma_votes_accumulate(
    g: GovernanceModel,
    id: u64,
    first: Address,
    second: Address,
    first_weight: i128,
    second_weight: i128,
)
    requires
        g.proposal(id) is Some,
        i128::MIN <= g.proposal(id).unwrap().for_votes + first_weight <= i128::MAX,
        i128::MIN <= g.proposal(id).unwrap().for_votes + first_weight + second_weight <= i128::MAX,
    ensures
        g.voted(id, first, 1, first_weight).voted(id, second, 1, second_weight).proposal(id).unwrap().for_votes
            == g.proposal(id).unwrap().for_votes + first_weight + second_weight,
        g.voted(id, first, 1, first_weight).voted(id, second, 1, second_weight).proposal(id).unwrap().against_votes
            == g.proposal(id).unwrap().against_votes,
{
    lemma_vote_adds_its_weight(g, id, first, 1, first_weight);
    lemma_vote_adds_its_weight(g.voted(id, first, 1, first_weight), id, second, 1, second_weight);
}

/// Who may cancel: a cancellation succeeds exactly when the caller
/// authorized it, the proposal exists, the caller is its proposer or the
/// governor's admin, and it is neither executed nor already cancelled.
pub proof fn lemma_cancel_rights(env: EnvModel, caller: Address, id: u64)
    ensures
        ({
            let p = env.governance.proposal(id).unwrap();
            cancel_result(env, caller, id) is Ok <==> {
                &&& env.authorizes(caller)
                &&& env.governance.proposal(id) is Some
                &&& (caller == p.proposer || caller == env.governance.config.unwrap().admin)
                &&& p.status != ProposalStatus::Executed
                &&& p.status != ProposalStatus::Cancelled
            }
        }),
{
}

/// A proposal is executed exactly when it exists, is Queued and the ledger
/// has reached its queue ledger: at that ledger or any later one.
pub proof fn lemma_execute_once_the_timelock_elapsed(env: EnvModel, id: u64)
    ensures
        execute_result(env, id) is Ok <==> {
            &&& env.governance.proposal(id) is Some
            &&& env.governance.proposal(id).unwrap().status == ProposalStatus::Queued
            &&& env.sequence >= env.governance.proposal(id).unwrap().queue_ledger
        },
{
}

/// The threshold gates every proposer alike: on a configured governor an
/// authorized proposer whose live balance is below the threshold is refused
/// with `BelowProposalThreshold`, and a created proposal always had a
/// proposer holding at least the threshold. A created proposal takes the
/// next id.
pub proof fn lemma_threshold_gates_creation(env: EnvModel, proposer: Address)
    ensures
        ({
            let cfg = env.governance.config.unwrap();
            &&& env.governance.config is Some && env.authorizes(proposer) && env.token.balance(proposer)
                < cfg.proposal_threshold ==> create_result(env, proposer) == Err::<u64, GovernanceError>(
                GovernanceError::BelowProposalThreshold,
            )
            &&& create_result(env, proposer) is Ok ==> {
                &&& env.governance.config is Some
                &&& env.authorizes(proposer)
                &&& env.token.balance(proposer) >= cfg.proposal_threshold
                &&& create_result(env, proposer) == Ok::<u64, GovernanceError>(
                    (env.governance.proposals.len() + 1) as u64,
                )
            }
        }),
{
}

/// Replacing proposal `id` changes that proposal only: it reads back as
/// the replacement, every other proposal, the votes and the configuration
/// stay as they were.
pub proof fn lemma_with_proposal_replaces_one(g: GovernanceModel, id: u64, p: Proposal, other: u64)
    requires
        g.proposal(id) is Some,
    ensures
        g.with_proposal(id, p).proposal(id) == Some(p),
        other != id ==> g.with_proposal(id, p).proposal(other) == g.proposal(other),
        g.with_proposal(id, p).votes == g.votes,
        g.with_proposal(id, p).config == g.config,
{
}


/// A vote counts exactly when the voter authorized it, the proposal exists
/// and is Active, its last voting ledger has not passed, the choice is
/// Against, For or Abstain, the voter has not voted on it, the voter held a
/// positive balance at the proposal's snapshot ledger and the raised tally
/// fits an `i128`. In particular each voter votes once, and weight is read
/// at the snapshot, not from the live balance.
pub proof fn lemma_when_a_vote_counts(env: EnvModel, voter: Address, id: u64, support: u32)
    ensures
        ({
            let p = env.governance.proposal(id).unwrap();
            let weight = searched_balance(env.token.history(voter), p.snapshot_ledger);
            let raised = if support == 0 {
                p.against_votes + weight
            } else if support == 1 {
                p.for_votes + weight
            } else {
                p.abstain_votes + weight
            };
            vote_result(env, voter, id, support) is Ok <==> {
                &&& env.authorizes(voter)
                &&& env.governance.proposal(id) is Some
                &&& p.status == ProposalStatus::Active
                &&& env.sequence <= p.end_ledger
                &&& support <= 2
                &&& !env.governance.votes.contains_key(pair_key(id, voter))
                &&& weight > 0
                &&& i128::MIN <= raised <= i128::MAX
            }
        }),
        env.authorizes(voter) && env.governance.proposal(id) is Some && env.governance.proposal(id).unwrap().status
            == ProposalStatus::Active && env.sequence <= env.governance.proposal(id).unwrap().end_ledger && support <= 2
            && env.governance.votes.contains_key(pair_key(id, voter)) ==> vote_result(env, voter, id, support)
            == Err::<(), GovernanceError>(GovernanceError::AlreadyVoted),
{
}

/// The quorum is `supply * quorum_bps / 10000` rounded toward zero: it
/// exists exactly when the product fits an `i128`, and then `quorum * 10000`
/// is within one step of 10000 of the product, on the side of zero.
pub proof fn lemma_quorum_rounds_toward_zero(supply: i128, quorum_bps: u32)
    ensures
        quorum_of(supply, quorum_bps) is Some <==> i128::MIN <= supply * quorum_bps <= i128::MAX,
        ({
            let x = supply * quorum_bps;
            let q = quorum_of(supply, quorum_bps).unwrap() as int;
            &&& quorum_of(supply, quorum_bps) is Some && x >= 0 ==> q * 10000 <= x < q * 10000 + 10000
            &&& quorum_of(supply, quorum_bps) is Some && x < 0 ==> q * 10000 - 10000 < x <= q * 10000
        }),
{
    let x = supply * quorum_bps;
    if i128::MIN <= x <= i128::MAX {
        if x >= 0 {
            vstd::arithmetic::div_mod::lemma_fundamental_div_mod(x, 10000);
            vstd::arithmetic::div_mod::lemma_mod_bound(x, 10000);
            vstd::arithmetic::div_mod::lemma_div_pos_is_pos(x, 10000);
            vstd::arithmetic::div_mod::lemma_div_is_ordered_by_denominator(x, 1, 10000);
        } else {
            vstd::arithmetic::div_mod::lemma_fundamental_div_mod(-x, 10000);
            vstd::arithmetic::div_mod::lemma_mod_bound(-x, 10000);
            vstd::arithmetic::div_mod::lemma_div_pos_is_pos(-x, 10000);
            vstd::arithmetic::div_mod::lemma_div_is_ordered_by_denominator(-x, 1, 10000);
        }
    }
}

} // verus!
