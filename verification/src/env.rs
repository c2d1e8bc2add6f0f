//! The ledger environment the contracts run in: the ledger sequence, the
//! authorizations that accompany an invocation, the address book, the two
//! contracts' storage and their event logs.
use vstd::prelude::*;

use crate::governance::{GovernanceEvent, GovernanceModel, GovernanceStorage};
use crate::token::{TokenEvent, TokenModel, TokenStorage, supply_is_sum};

verus! {

/// An account or contract on the ledger, identified by number.
pub type Address = u64;

/// Key of a pair of numbers in one storage map: `first` in the high half,
/// `second` in the low half.
pub open spec fn pair_key(first: u64, second: u64) -> u128 {
    (first as int * 0x1_0000_0000_0000_0000 + second as int) as u128
}

/// Computes [`pair_key`].
pub fn make_pair_key(first: u64, second: u64) -> (key: u128)
    ensures
        key == pair_key(first, second),
{
    proof {
        assert(first as int * 0x1_0000_0000_0000_0000 + second as int <= u128::MAX) by (nonlinear_arith)
            requires
                first <= u64::MAX,
                second <= u64::MAX,
        ;
    }
    (first as u128) * 0x1_0000_0000_0000_0000u128 + (second as u128)
}

/// Distinct pairs have distinct keys.
pub proof fn lemma_pair_key_injective(a: u64, b: u64, c: u64, d: u64)
    requires
        pair_key(a, b) == pair_key(c, d),
    ensures
        a == c,
        b == d,
{
    let x = a as int * 0x1_0000_0000_0000_0000 + b as int;
    let y = c as int * 0x1_0000_0000_0000_0000 + d as int;
    assert(x <= u128::MAX && y <= u128::MAX) by (nonlinear_arith)
        requires
            a <= u64::MAX,
            b <= u64::MAX,
            c <= u64::MAX,
            d <= u64::MAX,
            x == a as int * 0x1_0000_0000_0000_0000 + b as int,
            y == c as int * 0x1_0000_0000_0000_0000 + d as int,
    ;
    assert(x == y);
    assert(a == c && b == d) by (nonlinear_arith)
        requires
            0 <= a <= u64::MAX,
            0 <= b <= u64::MAX,
            0 <= c <= u64::MAX,
            0 <= d <= u64::MAX,
            a as int * 0x1_0000_0000_0000_0000 + b as int == c as int * 0x1_0000_0000_0000_0000 + d as int,
    ;
}

/// The ledger environment.
pub struct Env {
    /// Sequence number of the current ledger.
    pub sequence: u32,
    /// The number [`Env::generate_address`] hands out next.
    pub next_address: u64,
    /// Every `require_auth` succeeds.
    pub all_authorized: bool,
    /// Addresses that authorized the invocation, when not all do.
    pub authorized: Vec<Address>,
    /// Address of the token contract.
    pub token_address: Address,
    /// Address of the governance contract.
    pub governance_address: Address,
    /// Storage of the token contract.
    pub token: TokenStorage,
    /// Storage of the governance contract.
    pub governance: GovernanceStorage,
    /// Events published by the token contract, oldest first.
    pub events: Vec<TokenEvent>,
    /// Events published by the governance contract, oldest first.
    pub governance_events: Vec<GovernanceEvent>,
}

/// Mathematical view of an [`Env`].
#[verifier::ext_equal]
pub struct EnvModel {
    pub sequence: u32,
    pub next_address: u64,
    pub all_authorized: bool,
    pub authorized: Seq<Address>,
    pub token_address: Address,
    pub governance_address: Address,
    pub token: TokenModel,
    pub governance: GovernanceModel,
    pub events: Seq<TokenEvent>,
    pub governance_events: Seq<GovernanceEvent>,
}

impl View for Env {
    type V = EnvModel;

    open spec fn view(&self) -> EnvModel {
        EnvModel {
            sequence: self.sequence,
            next_address: self.next_address,
            all_authorized: self.all_authorized,
            authorized: self.authorized@,
            token_address: self.token_address,
            governance_address: self.governance_address,
            token: self.token@,
            governance: self.governance@,
            events: self.events@,
            governance_events: self.governance_events@,
        }
    }
}

impl EnvModel {
    /// `address` has authorized the current invocation.
    pub open spec fn authorizes(self, address: Address) -> bool {
        self.all_authorized || self.authorized.contains(address)
    }

    /// Both contracts' storage is well formed: every balance change was
    /// checkpointed, the supply is the sum of the balances, and proposal ids
    /// count up from 1.
    pub open spec fn wf(self) -> bool {
        &&& self.token.consistent()
        &&& supply_is_sum(self.token)
        &&& self.governance.wf()
    }

    /// No checkpoint was written after the current ledger and every history
    /// is ordered: the ledger has only moved forward.
    pub open spec fn chronological(self) -> bool {
        self.token.chronological(self.sequence)
    }
}

impl Env {
    /// The environment is well formed.
    pub open spec fn wf(&self) -> bool {
        self@.wf()
    }

    /// A fresh environment at ledger 0 with both contracts registered and
    /// uninitialized, and no authorizations.
    pub fn new() -> (env: Env)
        ensures
            env.wf(),
            env@.chronological(),
            env@.sequence == 0,
            env@.next_address == 3,
            !env@.all_authorized,
            env@.authorized.len() == 0,
            env@.token_address == 1,
            env@.governance_address == 2,
            env@.token == TokenModel::empty(),
            env@.governance == GovernanceModel::empty(),
            env@.events.len() == 0,
            env@.governance_events.len() == 0,
    {
        let env = Env {
            sequence: 0,
            next_address: 3,
            all_authorized: false,
            authorized: Vec::new(),
            token_address: 1,
            governance_address: 2,
            token: TokenStorage::new(),
            governance: GovernanceStorage::new(),
            events: Vec::new(),
            governance_events: Vec::new(),
        };
        proof {
            TokenModel::lemma_empty_wf(env.sequence);
            assert(env@.token.balances.dom() =~= Set::empty());
        }
        env
    }

    /// Sequence number of the current ledger.
    pub fn sequence(&self) -> (sequence: u32)
        ensures
            sequence == self@.sequence,
    {
        self.sequence
    }

    /// Moves to ledger `sequence`. Moving forward keeps the environment
    /// chronological.
    pub fn set_sequence_number(&mut self, sequence: u32)
        ensures
            final(self)@ == (EnvModel { sequence, ..old(self)@ }),
            old(self)@.chronological() && old(self)@.sequence <= sequence ==> final(self)@.chronological(),
    {
        proof {
            if old(self)@.chronological() && old(self)@.sequence <= sequence {
                old(self)@.token.lemma_chronological_later(old(self)@.sequence, sequence);
            }
        }
        self.sequence = sequence;
        proof {
            assert(self@ =~= (EnvModel { sequence, ..old(self)@ }));
        }
    }

    /// A new address, distinct from every one handed out before.
    pub fn generate_address(&mut self) -> (address: Address)
        requires
            old(self)@.next_address < u64::MAX,
        ensures
            address == old(self)@.next_address,
            final(self)@ == (EnvModel { next_address: (address + 1) as u64, ..old(self)@ }),
    {
        let address = self.next_address;
        self.next_address = address + 1;
        proof {
            assert(self@ =~= (EnvModel { next_address: (address + 1) as u64, ..old(self)@ }));
        }
        address
    }

    /// Address of the token contract.
    pub fn register_token(&self) -> (address: Address)
        ensures
            address == self@.token_address,
    {
        self.token_address
    }

    /// Address of the governance contract.
    pub fn register_governance(&self) -> (address: Address)
        ensures
            address == self@.governance_address,
    {
        self.governance_address
    }

    /// Every later `require_auth` succeeds.
    pub fn mock_all_auths(&mut self)
        ensures
            final(self)@ == (EnvModel { all_authorized: true, ..old(self)@ }),
    {
        self.all_authorized = true;
        proof {
            assert(self@ =~= (EnvModel { all_authorized: true, ..old(self)@ }));
        }
    }

    /// Only the given addresses have authorized later invocations.
    pub fn set_auths(&mut self, addresses: Vec<Address>)
        ensures
            final(self)@ == (EnvModel { all_authorized: false, authorized: addresses@, ..old(self)@ }),
    {
        self.all_authorized = false;
        self.authorized = addresses;
        proof {
            assert(self@ =~= (EnvModel { all_authorized: false, authorized: addresses@, ..old(self)@ }));
        }
    }

    /// Whether `address` has authorized the current invocation.
    pub fn has_auth(&self, address: Address) -> (ok: bool)
        ensures
            ok == self@.authorizes(address),
    {
        if self.all_authorized {
            return true;
        }
        let mut i: usize = 0;
        while i < self.authorized.len()
            invariant
                0 <= i <= self.authorized.len(),
                !self.all_authorized,
                forall|j: int| 0 <= j < i ==> self.authorized@[j] != address,
            decreases self.authorized.len() - i,
        {
            if self.authorized[i] == address {
                assert(self.authorized@[i as int] == address);
                return true;
            }
            i += 1;
        }
        false
    }
}

impl Default for Env {
    fn default() -> (env: Env)
        ensures
            env.wf(),
            env@.chronological(),
            env@.sequence == 0,
            env@.next_address == 3,
            !env@.all_authorized,
            env@.authorized.len() == 0,
            env@.token == TokenModel::empty(),
            env@.governance == GovernanceModel::empty(),
            env@.events.len() == 0,
            env@.governance_events.len() == 0,
    {
        Env::new()
    }
}

} // verus!
