//! The QUORUM governance token: balances with per-ledger checkpoints,
//! allowances that lapse, admin-gated minting.
use std::collections::HashMap;
use vstd::prelude::*;

use crate::checkpoints::{
    Checkpoint, balance_as_of, balance_at, is_ordered, latest_balance, lemma_read_after_last_entry,
    lemma_record_collapses, lemma_record_keeps_order, lemma_record_then_read, lemma_written_by_later, record,
    searched_balance, with_entry, written_by,
};
use crate::env::{Address, Env, EnvModel, make_pair_key, pair_key};

verus! {

broadcast use vstd::std_specs::hash::group_hash_axioms;

/// Why a token call was refused.
#[derive(Clone, Copy, Debug, PartialEq, Eq, PartialOrd, Ord, Structural)]
pub enum TokenError {
    AlreadyInitialized,
    Unauthorized,
    InsufficientBalance,
    InsufficientAllowance,
    InvalidAmount,
    Overflow,
    InvalidExpiration,
}

/// A stored allowance and the ledger it lapses after.
#[derive(Clone, Copy, Debug, PartialEq, Eq, Structural)]
pub struct AllowanceValue {
    pub amount: i128,
    pub expiration_ledger: u32,
}

/// Emitted when tokens move between accounts.
#[derive(Clone, Copy, Debug, PartialEq, Eq, Structural)]
pub struct Transfer {
    pub from: Address,
    pub to: Address,
    pub amount: i128,
}

/// Emitted when tokens are created; `total_supply` is the value after the
/// mint.
#[derive(Clone, Copy, Debug, PartialEq, Eq, Structural)]
pub struct Mint {
    pub to: Address,
    pub amount: i128,
    pub total_supply: i128,
}

/// Emitted when tokens are destroyed; `total_supply` is the value after the
/// burn.
#[derive(Clone, Copy, Debug, PartialEq, Eq, Structural)]
pub struct Burn {
    pub from: Address,
    pub amount: i128,
    pub total_supply: i128,
}

/// Emitted when an allowance is set.
#[derive(Clone, Copy, Debug, PartialEq, Eq, Structural)]
pub struct Approve {
    pub owner: Address,
    pub spender: Address,
    pub amount: i128,
    pub expiration_ledger: u32,
}

/// Emitted when the admin role changes hands.
#[derive(Clone, Copy, Debug, PartialEq, Eq, Structural)]
pub struct AdminTransferred {
    pub previous_admin: Address,
    pub new_admin: Address,
}

/// An event published by the token contract.
#[derive(Clone, Copy, Debug, PartialEq, Eq, Structural)]
pub enum TokenEvent {
    Transfer(Transfer),
    Mint(Mint),
    Burn(Burn),
    Approve(Approve),
    AdminTransferred(AdminTransferred),
}

/// Storage of the token contract.
pub struct TokenStorage {
    pub admin: Option<Address>,
    pub name: String,
    pub symbol: String,
    pub decimals: u32,
    pub total_supply: i128,
    pub balances: HashMap<Address, i128>,
    /// Keyed by `pair_key(owner, spender)`.
    pub allowances: HashMap<u128, AllowanceValue>,
    pub checkpoints: HashMap<Address, Vec<Checkpoint>>,
}

/// Mathematical view of [`TokenStorage`].
#[verifier::ext_equal]
pub struct TokenModel {
    pub admin: Option<Address>,
    pub name: Seq<char>,
    pub symbol: Seq<char>,
    pub decimals: u32,
    pub total_supply: i128,
    pub balances: Map<Address, i128>,
    pub allowances: Map<u128, AllowanceValue>,
    pub histories: Map<Address, Seq<Checkpoint>>,
}

impl View for TokenStorage {
    type V = TokenModel;

    open spec fn view(&self) -> TokenModel {
        TokenModel {
            admin: self.admin,
            name: self.name@,
            symbol: self.symbol@,
            decimals: self.decimals,
            total_supply: self.total_supply,
            balances: self.balances@,
            allowances: self.allowances@,
            histories: self.checkpoints@.map_values(|h: Vec<Checkpoint>| h@),
        }
    }
}

/// Sum of all balances in `balances`.
pub open spec fn sum_balances(balances: Map<Address, i128>) -> int
    decreases balances.dom().len(),
{
    if balances.dom().finite() && balances.dom().len() > 0 {
        let k = balances.dom().choose();
        balances[k] + sum_balances(balances.remove(k))
    } else {
        0
    }
}

/// Taking any one account out of the sum.
pub proof fn lemma_sum_balances_remove(balances: Map<Address, i128>, k: Address)
    requires
        balances.dom().finite(),
        balances.contains_key(k),
    ensures
        sum_balances(balances) == balances[k] + sum_balances(balances.remove(k)),
    decreases balances.dom().len(),
{
    let c = balances.dom().choose();
    if c != k {
        lemma_sum_balances_remove(balances.remove(c), k);
        lemma_sum_balances_remove(balances.remove(k), c);
        assert(balances.remove(c).remove(k) =~= balances.remove(k).remove(c));
    }
}

/// Writing one account's balance shifts the sum by the difference.
pub proof fn lemma_sum_balances_insert(balances: Map<Address, i128>, k: Address, v: i128)
    requires
        balances.dom().finite(),
    ensures
        balances.insert(k, v).dom().finite(),
        sum_balances(balances.insert(k, v)) == sum_balances(balances) - (if balances.contains_key(k) {
            balances[k] as int
        } else {
            0
        }) + v,
{
    let m = balances.insert(k, v);
    lemma_sum_balances_remove(m, k);
    if balances.contains_key(k) {
        lemma_sum_balances_remove(balances, k);
        assert(m.remove(k) =~= balances.remove(k));
    } else {
        assert(m.remove(k) =~= balances);
    }
}

/// The recorded supply is the sum of all balances, and nothing is held
/// before initialization.
pub open spec fn supply_is_sum(t: TokenModel) -> bool {
    &&& t.balances.dom().finite()
    &&& t.total_supply == sum_balances(t.balances)
    &&& !t.is_initialized() ==> t.balances == Map::<Address, i128>::empty()
    &&& !t.is_initialized() ==> t.histories == Map::<Address, Seq<Checkpoint>>::empty()
}

/// A map of non-negative values sums to at least 0.
pub proof fn lemma_sum_balances_nonneg(balances: Map<Address, i128>)
    requires
        balances.dom().finite(),
        forall|a: Address| balances.contains_key(a) ==> #[trigger] balances[a] >= 0,
    ensures
        sum_balances(balances) >= 0,
    decreases balances.dom().len(),
{
    if balances.dom().len() > 0 {
        let k = balances.dom().choose();
        lemma_sum_balances_nonneg(balances.remove(k));
    }
}

/// The allowance that reads as nothing: no amount, lapsed since ledger 0.
pub open spec fn no_allowance() -> AllowanceValue {
    AllowanceValue { amount: 0, expiration_ledger: 0 }
}

impl TokenModel {
    /// Nothing stored yet.
    pub open spec fn empty() -> TokenModel {
        TokenModel {
            admin: None,
            name: Seq::empty(),
            symbol: Seq::empty(),
            decimals: 0,
            total_supply: 0,
            balances: Map::empty(),
            allowances: Map::empty(),
            histories: Map::empty(),
        }
    }

    /// `initialize` has run.
    pub open spec fn is_initialized(self) -> bool {
        self.admin is Some
    }

    /// Live balance of `owner`; 0 for an address that never held tokens.
    pub open spec fn balance(self, owner: Address) -> i128 {
        if self.balances.contains_key(owner) {
            self.balances[owner]
        } else {
            0
        }
    }

    /// Checkpoints of `owner`, oldest first.
    pub open spec fn history(self, owner: Address) -> Seq<Checkpoint> {
        if self.histories.contains_key(owner) {
            self.histories[owner]
        } else {
            Seq::empty()
        }
    }

    /// Balance of `owner` as of the end of `ledger`.
    pub open spec fn past_balance(self, owner: Address, ledger: u32) -> i128 {
        balance_as_of(self.history(owner), ledger)
    }

    /// The allowance stored for `(owner, spender)`, if any.
    pub open spec fn stored_allowance(self, owner: Address, spender: Address) -> Option<AllowanceValue> {
        if self.allowances.contains_key(pair_key(owner, spender)) {
            Some(self.allowances[pair_key(owner, spender)])
        } else {
            None
        }
    }

    /// The stored allowance while it is live at `ledger`, otherwise nothing.
    pub open spec fn live_allowance(self, owner: Address, spender: Address, ledger: u32) -> AllowanceValue {
        match self.stored_allowance(owner, spender) {
            Some(a) => if a.expiration_ledger >= ledger {
                a
            } else {
                no_allowance()
            },
            None => no_allowance(),
        }
    }

    /// Every balance change was checkpointed: the latest entry of each
    /// account's history is its live balance.
    pub open spec fn consistent(self) -> bool {
        forall|a: Address| #![trigger self.history(a)] latest_balance(self.history(a)) == self.balance(a)
    }

    /// Every history is ordered and no entry was written after `ledger`: the
    /// ledger has not gone back since the entries were written.
    pub open spec fn chronological(self, ledger: u32) -> bool {
        forall|a: Address|
            #![trigger self.history(a)]
            is_ordered(self.history(a)) && written_by(self.history(a), ledger)
    }

    /// Consistent and chronological at `ledger`.
    pub open spec fn wf(self, ledger: u32) -> bool {
        self.consistent() && self.chronological(ledger)
    }

    /// Every account holds a non-negative balance.
    pub open spec fn balances_nonneg(self) -> bool {
        forall|a: Address| #[trigger] self.balance(a) >= 0
    }

    /// What the binary search reads as `owner`'s balance for `ledger`; on a
    /// chronological history, [`TokenModel::past_balance`].
    pub open spec fn read_balance(self, owner: Address, ledger: u32) -> i128 {
        searched_balance(self.history(owner), ledger)
    }

    /// `owner` holds `balance`, checkpointed at `ledger`.
    pub open spec fn with_balance(self, owner: Address, balance: i128, ledger: u32) -> TokenModel {
        TokenModel {
            balances: self.balances.insert(owner, balance),
            histories: self.histories.insert(owner, with_entry(self.history(owner), ledger, balance)),
            ..self
        }
    }

    /// `amount` debited from `from`, then credited to `to` as read after the
    /// debit.
    pub open spec fn moved(self, from: Address, to: Address, amount: i128, ledger: u32) -> TokenModel {
        let debited = self.with_balance(from, (self.balance(from) - amount) as i128, ledger);
        debited.with_balance(to, (debited.balance(to) + amount) as i128, ledger)
    }

    /// The crediting of `to` in a move does not overflow.
    pub open spec fn move_fits(self, from: Address, to: Address, amount: i128) -> bool {
        from == to || self.balance(to) + amount <= i128::MAX
    }

    /// The token set up with `admin`, metadata and the genesis allocation.
    pub open spec fn started(
        self,
        admin: Address,
        name: Seq<char>,
        symbol: Seq<char>,
        decimals: u32,
        initial_supply: i128,
        ledger: u32,
    ) -> TokenModel {
        TokenModel {
            admin: Some(admin),
            name,
            symbol,
            decimals,
            total_supply: initial_supply,
            ..self
        }.with_balance(admin, initial_supply, ledger)
    }

    /// `amount` created and credited to `to`.
    pub open spec fn minted(self, to: Address, amount: i128, ledger: u32) -> TokenModel {
        TokenModel { total_supply: (self.total_supply + amount) as i128, ..self }.with_balance(
            to,
            (self.balance(to) + amount) as i128,
            ledger,
        )
    }

    /// `amount` debited from `from` and destroyed.
    pub open spec fn burned(self, from: Address, amount: i128, ledger: u32) -> TokenModel {
        TokenModel {
            total_supply: (self.total_supply - amount) as i128,
            ..self.with_balance(from, (self.balance(from) - amount) as i128, ledger)
        }
    }

    /// The allowance of `(owner, spender)` set to `value`.
    pub open spec fn with_allowance(self, owner: Address, spender: Address, value: AllowanceValue) -> TokenModel {
        TokenModel { allowances: self.allowances.insert(pair_key(owner, spender), value), ..self }
    }

    /// A spend of `amount` by `spender` from `from` to `to`: the move, then
    /// the allowance read before it, debited and keeping its expiry.
    pub open spec fn spent(
        self,
        spender: Address,
        from: Address,
        to: Address,
        amount: i128,
        ledger: u32,
    ) -> TokenModel {
        let approval = self.live_allowance(from, spender, ledger);
        self.moved(from, to, amount, ledger).with_allowance(
            from,
            spender,
            AllowanceValue {
                amount: (approval.amount - amount) as i128,
                expiration_ledger: approval.expiration_ledger,
            },
        )
    }

    pub proof fn lemma_empty_wf(ledger: u32)
        ensures
            TokenModel::empty().wf(ledger),
    {
        let m = TokenModel::empty();
        assert forall|a: Address| #![trigger m.history(a)] latest_balance(m.history(a)) == m.balance(a) by {
            assert(m.history(a).len() == 0);
        }
        assert forall|a: Address| #![trigger m.history(a)]
            is_ordered(m.history(a)) && written_by(m.history(a), ledger) by {
            assert(m.history(a).len() == 0);
        }
    }

    /// No history at all is chronological at any ledger.
    pub proof fn lemma_no_history_chronological(self, ledger: u32)
        requires
            self.histories == Map::<Address, Seq<Checkpoint>>::empty(),
        ensures
            self.chronological(ledger),
    {
        assert forall|a: Address| #![trigger self.history(a)]
            is_ordered(self.history(a)) && written_by(self.history(a), ledger) by {
            assert(self.history(a).len() == 0);
        }
    }

    /// A chronological state stays so as the ledger moves forward.
    pub proof fn lemma_chronological_later(self, ledger: u32, later: u32)
        requires
            self.chronological(ledger),
            ledger <= later,
        ensures
            self.chronological(later),
    {
        assert forall|a: Address| #![trigger self.history(a)]
            is_ordered(self.history(a)) && written_by(self.history(a), later) by {
            lemma_written_by_later(self.history(a), ledger, later);
        }
    }

    /// Consistency and chronology depend on the balances and histories alone.
    pub proof fn lemma_wf_same_accounts(self, other: TokenModel, ledger: u32)
        requires
            self.balances == other.balances,
            self.histories == other.histories,
        ensures
            self.consistent() ==> other.consistent(),
            self.chronological(ledger) ==> other.chronological(ledger),
            self.balances_nonneg() ==> other.balances_nonneg(),
    {
        assert forall|a: Address| #![trigger other.history(a)]
            self.history(a) == other.history(a) && self.balance(a) == other.balance(a) by {}
        if self.consistent() {
            assert forall|a: Address| #![trigger other.history(a)]
                latest_balance(other.history(a)) == other.balance(a) by {
                assert(latest_balance(self.history(a)) == self.balance(a));
            }
        }
        if self.chronological(ledger) {
            assert forall|a: Address| #![trigger other.history(a)]
                is_ordered(other.history(a)) && written_by(other.history(a), ledger) by {
                assert(is_ordered(self.history(a)) && written_by(self.history(a), ledger));
            }
        }
        if self.balances_nonneg() {
            assert forall|a: Address| #[trigger] other.balance(a) >= 0 by {
                assert(self.balance(a) >= 0);
            }
        }
    }

    /// Setting one balance shifts the sum of balances by the difference.
    pub proof fn lemma_with_balance_sum(self, owner: Address, balance: i128, ledger: u32)
        requires
            self.balances.dom().finite(),
        ensures
            self.with_balance(owner, balance, ledger).balances.dom().finite(),
            sum_balances(self.with_balance(owner, balance, ledger).balances) == sum_balances(self.balances)
                - self.balance(owner) + balance,
    {
        lemma_sum_balances_insert(self.balances, owner, balance);
    }

    /// Setting a balance records it as the latest entry of the owner's
    /// history and changes no other account. Consistency is kept; so is
    /// chronology when the ledger has not gone back, and then past reads
    /// behave as [`lemma_record_then_read`] says.
    pub proof fn lemma_with_balance(self, owner: Address, balance: i128, ledger: u32)
        ensures
            self.with_balance(owner, balance, ledger).balance(owner) == balance,
            self.with_balance(owner, balance, ledger).history(owner) == with_entry(self.history(owner), ledger, balance),
            forall|a: Address| a != owner ==> #[trigger] self.with_balance(owner, balance, ledger).history(a) == self.history(a),
            forall|a: Address| a != owner ==> #[trigger] self.with_balance(owner, balance, ledger).balance(a) == self.balance(a),
            self.consistent() ==> self.with_balance(owner, balance, ledger).consistent(),
            self.chronological(ledger) ==> self.with_balance(owner, balance, ledger).chronological(ledger),
            self.chronological(ledger) ==> forall|a: Address, q: u32|
                #[trigger] self.with_balance(owner, balance, ledger).past_balance(a, q)
                    == (if a == owner && q >= ledger { balance } else { self.past_balance(a, q) }),
            self.balances_nonneg() && balance >= 0 ==> self.with_balance(owner, balance, ledger).balances_nonneg(),
    {
        let n = self.with_balance(owner, balance, ledger);
        lemma_record_collapses(self.history(owner), ledger, balance);
        if self.consistent() {
            assert forall|a: Address| #![trigger n.history(a)] latest_balance(n.history(a)) == n.balance(a) by {
                if a != owner {
                    assert(latest_balance(self.history(a)) == self.balance(a));
                }
            }
        }
        if self.chronological(ledger) {
            assert(is_ordered(self.history(owner)) && written_by(self.history(owner), ledger));
            lemma_record_keeps_order(self.history(owner), ledger, balance);
            assert forall|a: Address| #![trigger n.history(a)]
                is_ordered(n.history(a)) && written_by(n.history(a), ledger) by {
                if a != owner {
                    assert(is_ordered(self.history(a)) && written_by(self.history(a), ledger));
                }
            }
            assert forall|a: Address, q: u32|
                #[trigger] n.past_balance(a, q) == (if a == owner && q >= ledger { balance } else { self.past_balance(a, q) }) by {
                if a == owner {
                    lemma_record_then_read(self.history(owner), ledger, balance, q);
                }
            }
        }
        if self.balances_nonneg() && balance >= 0 {
            assert forall|a: Address| #[trigger] n.balance(a) >= 0 by {
                if a != owner {
                    assert(self.balance(a) >= 0);
                }
            }
        }
    }
}

impl TokenStorage {
    /// Empty storage.
    pub fn new() -> (s: TokenStorage)
        ensures
            s@ == TokenModel::empty(),
    {
        let s = TokenStorage {
            admin: None,
            name: String::new(),
            symbol: String::new(),
            decimals: 0,
            total_supply: 0,
            balances: HashMap::new(),
            allowances: HashMap::new(),
            checkpoints: HashMap::new(),
        };
        proof {
            assert(s@.histories =~= Map::empty());
            assert(s@ =~= TokenModel::empty());
        }
        s
    }
}


impl EnvModel {
    /// The environment after the token is set up with `admin`, metadata and
    /// the genesis allocation at the current ledger, with its mint event.
    pub open spec fn token_started(
        self,
        admin: Address,
        name: Seq<char>,
        symbol: Seq<char>,
        decimals: u32,
        initial_supply: i128,
    ) -> EnvModel {
        EnvModel {
            token: self.token.started(admin, name, symbol, decimals, initial_supply, self.sequence),
            events: self.events.push(
                TokenEvent::Mint(Mint { to: admin, amount: initial_supply, total_supply: initial_supply }),
            ),
            ..self
        }
    }

    /// The environment after `owner` approves `spender` for `amount` until
    /// `expiration_ledger`, with its approve event.
    pub open spec fn approved(self, owner: Address, spender: Address, amount: i128, expiration_ledger: u32) -> EnvModel {
        EnvModel {
            token: self.token.with_allowance(owner, spender, AllowanceValue { amount, expiration_ledger }),
            events: self.events.push(TokenEvent::Approve(Approve { owner, spender, amount, expiration_ledger })),
            ..self
        }
    }

    /// The environment after the admin role passes to `new_admin`, with its
    /// handover event.
    pub open spec fn admin_handed_to(self, new_admin: Address) -> EnvModel {
        EnvModel {
            token: TokenModel { admin: Some(new_admin), ..self.token },
            events: self.events.push(
                TokenEvent::AdminTransferred(
                    AdminTransferred { previous_admin: self.token.admin.unwrap(), new_admin },
                ),
            ),
            ..self
        }
    }

    /// The environment after a move of `amount` from `from` to `to` at the
    /// current ledger, with its transfer event.
    pub open spec fn transferred(self, from: Address, to: Address, amount: i128) -> EnvModel {
        EnvModel {
            token: self.token.moved(from, to, amount, self.sequence),
            events: self.events.push(TokenEvent::Transfer(Transfer { from, to, amount })),
            ..self
        }
    }

    /// The environment after `amount` is created for `to` at the current
    /// ledger, with its mint event.
    pub open spec fn minted_to(self, to: Address, amount: i128) -> EnvModel {
        EnvModel {
            token: self.token.minted(to, amount, self.sequence),
            events: self.events.push(
                TokenEvent::Mint(Mint { to, amount, total_supply: (self.token.total_supply + amount) as i128 }),
            ),
            ..self
        }
    }

    /// The environment after `amount` of `from`'s balance is destroyed at the
    /// current ledger, with its burn event.
    pub open spec fn burned_from(self, from: Address, amount: i128) -> EnvModel {
        EnvModel {
            token: self.token.burned(from, amount, self.sequence),
            events: self.events.push(
                TokenEvent::Burn(Burn { from, amount, total_supply: (self.token.total_supply - amount) as i128 }),
            ),
            ..self
        }
    }

    /// The environment after `spender` moves `amount` from `from` to `to`:
    /// exactly the transfer from `from` to `to`, and the allowance read at the
    /// current ledger debited with its expiry kept.
    pub open spec fn spent_by(self, spender: Address, from: Address, to: Address, amount: i128) -> EnvModel {
        let approval = self.token.live_allowance(from, spender, self.sequence);
        let moved = self.transferred(from, to, amount);
        EnvModel {
            token: moved.token.with_allowance(
                from,
                spender,
                AllowanceValue {
                    amount: (approval.amount - amount) as i128,
                    expiration_ledger: approval.expiration_ledger,
                },
            ),
            ..moved
        }
    }
}

/// The token contract. Each function works on the token's storage in `env`.
///
/// A call that needs an address's authorization is refused with
/// `Unauthorized` without it, before it does anything: on the ledger this is
/// the host aborting the invocation, which leaves no trace.
pub struct QuorumToken;

impl QuorumToken {
    /// Sets the admin and metadata and credits `initial_supply` to the admin
    /// as a genesis mint, checkpointed at the current ledger.
    pub fn initialize(
        env: &mut Env,
        admin: Address,
        name: String,
        symbol: String,
        decimals: u32,
        initial_supply: i128,
    ) -> (r: Result<(), TokenError>)
        requires
            old(env).wf(),
        ensures
            final(env).wf(),
            r == (if old(env)@.token.is_initialized() {
                Err(TokenError::AlreadyInitialized)
            } else if !old(env)@.authorizes(admin) {
                Err(TokenError::Unauthorized)
            } else {
                Ok(())
            }),
            r is Err ==> final(env)@ == old(env)@,
            r is Ok ==> final(env)@ == old(env)@.token_started(admin, name@, symbol@, decimals, initial_supply),
            r is Ok ==> final(env)@.chronological(),
            r is Ok ==> final(env)@.token.history(admin) == seq![
                Checkpoint { ledger: old(env)@.sequence, balance: initial_supply },
            ],
            r is Ok && initial_supply >= 0 ==> final(env)@.token.balances_nonneg(),
            old(env)@.chronological() ==> final(env)@.chronological(),
            old(env)@.token.balances_nonneg() && r is Err ==> final(env)@.token.balances_nonneg(),
    {
        if env.token.admin.is_some() {
            return Err(TokenError::AlreadyInitialized);
        }
        if !env.has_auth(admin) {
            return Err(TokenError::Unauthorized);
        }
        let ghost name_view = name@;
        let ghost symbol_view = symbol@;
        env.token.admin = Some(admin);
        env.token.name = name;
        env.token.symbol = symbol;
        env.token.decimals = decimals;
        env.token.total_supply = initial_supply;
        let ghost set_up = TokenModel {
            admin: Some(admin),
            name: name_view,
            symbol: symbol_view,
            decimals,
            total_supply: initial_supply,
            ..old(env)@.token
        };
        proof {
            assert(env@.token =~= set_up);
        }
        Self::set_balance(env, admin, initial_supply);
        env.events.push(
            TokenEvent::Mint(Mint { to: admin, amount: initial_supply, total_supply: initial_supply }),
        );
        proof {
            let seq = old(env)@.sequence;
            old(env)@.token.lemma_wf_same_accounts(set_up, seq);
            set_up.lemma_with_balance(admin, initial_supply, seq);
            assert(set_up.balances.dom() =~= Set::empty());
            set_up.lemma_with_balance_sum(admin, initial_supply, seq);
            set_up.lemma_no_history_chronological(seq);
            assert(set_up.history(admin) =~= Seq::empty());
            assert(set_up.with_balance(admin, initial_supply, seq).history(admin) =~= seq![
                Checkpoint { ledger: seq, balance: initial_supply },
            ]);
            if initial_supply >= 0 {
                assert forall|a: Address| #[trigger] set_up.balance(a) >= 0 by {}
            }
            assert(env@ =~= (EnvModel {
                token: old(env)@.token.started(admin, name_view, symbol_view, decimals, initial_supply, seq),
                events: old(env)@.events.push(
                    TokenEvent::Mint(Mint { to: admin, amount: initial_supply, total_supply: initial_supply }),
                ),
                ..old(env)@
            }));
        }
        Ok(())
    }

    /// Balance of `owner` as of the end of `ledger`, read by binary search
    /// over its checkpoints: the most recent checkpoint at or before
    /// `ledger`, or 0 if the address held nothing that far back.
    pub fn get_past_balance(env: &Env, owner: Address, ledger: u32) -> (balance: i128)
        ensures
            balance == env@.token.read_balance(owner, ledger),
            env@.chronological() ==> balance == env@.token.past_balance(owner, ledger),
    {
        let checkpoints = Self::checkpoints(env, owner);
        proof {
            if env@.chronological() {
                assert(is_ordered(env@.token.history(owner)));
            }
        }
        balance_at(&checkpoints, ledger)
    }

    /// Live balance of `owner`; 0 for an address that never held tokens.
    pub fn balance(env: &Env, owner: Address) -> (balance: i128)
        ensures
            balance == env@.token.balance(owner),
    {
        match env.token.balances.get(&owner) {
            Some(b) => *b,
            None => 0,
        }
    }

    /// Tokens in existence; 0 before initialization.
    pub fn total_supply(env: &Env) -> (supply: i128)
        ensures
            supply == env@.token.total_supply,
    {
        env.token.total_supply
    }

    /// Moves `amount` from `from` to `to`, authorized by `from`.
    pub fn transfer(env: &mut Env, from: Address, to: Address, amount: i128) -> (r: Result<(), TokenError>)
        requires
            old(env).wf(),
            amount > 0 && old(env)@.token.balance(from) >= amount ==> old(env)@.token.move_fits(from, to, amount),
        ensures
            final(env).wf(),
            r == (if !old(env)@.authorizes(from) {
                Err(TokenError::Unauthorized)
            } else if amount <= 0 {
                Err(TokenError::InvalidAmount)
            } else if old(env)@.token.balance(from) < amount {
                Err(TokenError::InsufficientBalance)
            } else {
                Ok(())
            }),
            r is Err ==> final(env)@ == old(env)@,
            r is Ok ==> final(env)@ == old(env)@.transferred(from, to, amount),
            old(env)@.chronological() ==> final(env)@.chronological(),
            old(env)@.token.balances_nonneg() ==> final(env)@.token.balances_nonneg(),
    {
        if !env.has_auth(from) {
            return Err(TokenError::Unauthorized);
        }
        if amount <= 0 {
            return Err(TokenError::InvalidAmount);
        }
        Self::move_balance(env, from, to, amount)
    }

    /// Moves `amount` from `from` to `to` on behalf of `spender`, drawing on
    /// the allowance `from` granted it. The allowance is debited only when
    /// the move succeeds, and keeps its expiry.
    pub fn transfer_from(
        env: &mut Env,
        spender: Address,
        from: Address,
        to: Address,
        amount: i128,
    ) -> (r: Result<(), TokenError>)
        requires
            old(env).wf(),
            amount > 0 && old(env)@.token.live_allowance(from, spender, old(env)@.sequence).amount >= amount
                && old(env)@.token.balance(from) >= amount ==> old(env)@.token.move_fits(from, to, amount),
        ensures
            final(env).wf(),
            r == (if !old(env)@.authorizes(spender) {
                Err(TokenError::Unauthorized)
            } else if amount <= 0 {
                Err(TokenError::InvalidAmount)
            } else if old(env)@.token.live_allowance(from, spender, old(env)@.sequence).amount < amount {
                Err(TokenError::InsufficientAllowance)
            } else if old(env)@.token.balance(from) < amount {
                Err(TokenError::InsufficientBalance)
            } else {
                Ok(())
            }),
            r is Err ==> final(env)@ == old(env)@,
            r is Ok ==> final(env)@ == old(env)@.spent_by(spender, from, to, amount),
            old(env)@.chronological() ==> final(env)@.chronological(),
            old(env)@.token.balances_nonneg() ==> final(env)@.token.balances_nonneg(),
    {
        if !env.has_auth(spender) {
            return Err(TokenError::Unauthorized);
        }
        if amount <= 0 {
            return Err(TokenError::InvalidAmount);
        }
        let approval = Self::live_allowance(env, from, spender);
        if approval.amount < amount {
            return Err(TokenError::InsufficientAllowance);
        }
        match Self::move_balance(env, from, to, amount) {
            Ok(()) => {},
            Err(e) => {
                return Err(e);
            },
        }
        let ghost moved = env@;
        let key = make_pair_key(from, spender);
        env.token.allowances.insert(
            key,
            AllowanceValue {
                amount: approval.amount - amount,
                expiration_ledger: approval.expiration_ledger,
            },
        );
        proof {
            assert(env@.token.histories == moved.token.histories);
            moved.token.lemma_wf_same_accounts(env@.token, env@.sequence);
            assert(env@ =~= old(env)@.spent_by(spender, from, to, amount));
        }
        Ok(())
    }

    /// Creates `amount` for `to`, authorized by the admin.
    pub fn mint(env: &mut Env, to: Address, amount: i128) -> (r: Result<(), TokenError>)
        requires
            old(env).wf(),
            old(env)@.token.is_initialized(),
            amount > 0 ==> {
                &&& old(env)@.token.total_supply + amount <= i128::MAX
                &&& old(env)@.token.balance(to) + amount <= i128::MAX
            },
        ensures
            final(env).wf(),
            r == (if !old(env)@.authorizes(old(env)@.token.admin.unwrap()) {
                Err(TokenError::Unauthorized)
            } else if amount <= 0 {
                Err(TokenError::InvalidAmount)
            } else {
                Ok(())
            }),
            r is Err ==> final(env)@ == old(env)@,
            r is Ok ==> final(env)@ == old(env)@.minted_to(to, amount),
            old(env)@.chronological() ==> final(env)@.chronological(),
            old(env)@.token.balances_nonneg() ==> final(env)@.token.balances_nonneg(),
    {
        let admin = env.token.admin.unwrap();
        if !env.has_auth(admin) {
            return Err(TokenError::Unauthorized);
        }
        if amount <= 0 {
            return Err(TokenError::InvalidAmount);
        }
        let supply = Self::total_supply(env);
        let total_supply = supply + amount;
        env.token.total_supply = total_supply;
        let ghost raised = TokenModel { total_supply, ..old(env)@.token };
        proof {
            assert(env@.token =~= raised);
        }
        let bal = Self::balance(env, to);
        Self::set_balance(env, to, bal + amount);
        env.events.push(TokenEvent::Mint(Mint { to, amount, total_supply }));
        proof {
            let seq = old(env)@.sequence;
            old(env)@.token.lemma_wf_same_accounts(raised, seq);
            raised.lemma_with_balance(to, (bal + amount) as i128, seq);
            raised.lemma_with_balance_sum(to, (bal + amount) as i128, seq);
            if old(env)@.token.balances_nonneg() {
                assert(raised.balance(to) >= 0);
            }
            assert(env@ =~= (EnvModel {
                token: old(env)@.token.minted(to, amount, seq),
                events: old(env)@.events.push(TokenEvent::Mint(Mint { to, amount, total_supply })),
                ..old(env)@
            }));
        }
        Ok(())
    }

    /// Destroys `amount` of `from`'s balance, authorized by `from`.
    pub fn burn(env: &mut Env, from: Address, amount: i128) -> (r: Result<(), TokenError>)
        requires
            old(env).wf(),
            amount > 0 && old(env)@.token.balance(from) >= amount
                ==> old(env)@.token.total_supply - amount >= i128::MIN,
        ensures
            final(env).wf(),
            r == (if !old(env)@.authorizes(from) {
                Err(TokenError::Unauthorized)
            } else if amount <= 0 {
                Err(TokenError::InvalidAmount)
            } else if old(env)@.token.balance(from) < amount {
                Err(TokenError::InsufficientBalance)
            } else {
                Ok(())
            }),
            r is Err ==> final(env)@ == old(env)@,
            r is Ok ==> final(env)@ == old(env)@.burned_from(from, amount),
            old(env)@.chronological() ==> final(env)@.chronological(),
            old(env)@.token.balances_nonneg() ==> final(env)@.token.balances_nonneg(),
    {
        if !env.has_auth(from) {
            return Err(TokenError::Unauthorized);
        }
        if amount <= 0 {
            return Err(TokenError::InvalidAmount);
        }
        let bal = Self::balance(env, from);
        if bal < amount {
            return Err(TokenError::InsufficientBalance);
        }
        Self::set_balance(env, from, bal - amount);
        let supply = Self::total_supply(env);
        let total_supply = supply - amount;
        env.token.total_supply = total_supply;
        env.events.push(TokenEvent::Burn(Burn { from, amount, total_supply }));
        proof {
            let seq = old(env)@.sequence;
            let lowered = old(env)@.token.with_balance(from, (bal - amount) as i128, seq);
            old(env)@.token.lemma_with_balance(from, (bal - amount) as i128, seq);
            old(env)@.token.lemma_with_balance_sum(from, (bal - amount) as i128, seq);
            lowered.lemma_wf_same_accounts(env@.token, seq);
            assert(env@ =~= (EnvModel {
                token: old(env)@.token.burned(from, amount, seq),
                events: old(env)@.events.push(TokenEvent::Burn(Burn { from, amount, total_supply })),
                ..old(env)@
            }));
        }
        Ok(())
    }

    /// Grants `spender` the right to move up to `amount` of `owner`'s balance
    /// until `expiration_ledger` has passed. A live approval must not expire
    /// in the past; a zero `amount` revokes and accepts any expiration.
    pub fn approve(
        env: &mut Env,
        owner: Address,
        spender: Address,
        amount: i128,
        expiration_ledger: u32,
    ) -> (r: Result<(), TokenError>)
        requires
            old(env).wf(),
        ensures
            final(env).wf(),
            r == (if !old(env)@.authorizes(owner) {
                Err(TokenError::Unauthorized)
            } else if amount < 0 {
                Err(TokenError::InvalidAmount)
            } else if amount > 0 && expiration_ledger < old(env)@.sequence {
                Err(TokenError::InvalidExpiration)
            } else {
                Ok(())
            }),
            r is Err ==> final(env)@ == old(env)@,
            r is Ok ==> final(env)@ == old(env)@.approved(owner, spender, amount, expiration_ledger),
            old(env)@.chronological() ==> final(env)@.chronological(),
            old(env)@.token.balances_nonneg() ==> final(env)@.token.balances_nonneg(),
    {
        if !env.has_auth(owner) {
            return Err(TokenError::Unauthorized);
        }
        if amount < 0 {
            return Err(TokenError::InvalidAmount);
        }
        if amount > 0 && expiration_ledger < env.sequence {
            return Err(TokenError::InvalidExpiration);
        }
        let key = make_pair_key(owner, spender);
        env.token.allowances.insert(key, AllowanceValue { amount, expiration_ledger });
        env.events.push(TokenEvent::Approve(Approve { owner, spender, amount, expiration_ledger }));
        proof {
            assert(env@.token.histories == old(env)@.token.histories);
            old(env)@.token.lemma_wf_same_accounts(env@.token, env@.sequence);
            assert(env@ =~= (EnvModel {
                token: old(env)@.token.with_allowance(owner, spender, AllowanceValue { amount, expiration_ledger }),
                events: old(env)@.events.push(
                    TokenEvent::Approve(Approve { owner, spender, amount, expiration_ledger }),
                ),
                ..old(env)@
            }));
        }
        Ok(())
    }

    /// Amount `spender` may still draw from `owner`, or 0 once the approval
    /// has lapsed.
    pub fn allowance(env: &Env, owner: Address, spender: Address) -> (amount: i128)
        ensures
            amount == env@.token.live_allowance(owner, spender, env@.sequence).amount,
    {
        Self::live_allowance(env, owner, spender).amount
    }

    /// Hands the admin role to `new_admin`, authorized by the current admin.
    pub fn transfer_admin(env: &mut Env, new_admin: Address) -> (r: Result<(), TokenError>)
        requires
            old(env).wf(),
            old(env)@.token.is_initialized(),
        ensures
            final(env).wf(),
            r == (if old(env)@.authorizes(old(env)@.token.admin.unwrap()) {
                Ok(())
            } else {
                Err(TokenError::Unauthorized)
            }),
            r is Err ==> final(env)@ == old(env)@,
            r is Ok ==> final(env)@ == old(env)@.admin_handed_to(new_admin),
            old(env)@.chronological() ==> final(env)@.chronological(),
            old(env)@.token.balances_nonneg() ==> final(env)@.token.balances_nonneg(),
    {
        let admin = env.token.admin.unwrap();
        if !env.has_auth(admin) {
            return Err(TokenError::Unauthorized);
        }
        env.token.admin = Some(new_admin);
        env.events.push(TokenEvent::AdminTransferred(AdminTransferred { previous_admin: admin, new_admin }));
        proof {
            assert(env@.token.histories == old(env)@.token.histories);
            old(env)@.token.lemma_wf_same_accounts(env@.token, env@.sequence);
            assert(env@ =~= (EnvModel {
                token: TokenModel { admin: Some(new_admin), ..old(env)@.token },
                events: old(env)@.events.push(
                    TokenEvent::AdminTransferred(AdminTransferred { previous_admin: admin, new_admin }),
                ),
                ..old(env)@
            }));
        }
        Ok(())
    }

    /// Name of the token.
    pub fn name(env: &Env) -> (name: String)
        requires
            env@.token.is_initialized(),
        ensures
            name@ == env@.token.name,
    {
        env.token.name.clone()
    }

    /// Ticker symbol of the token.
    pub fn symbol(env: &Env) -> (symbol: String)
        requires
            env@.token.is_initialized(),
        ensures
            symbol@ == env@.token.symbol,
    {
        env.token.symbol.clone()
    }

    /// Decimal places of the token.
    pub fn decimals(env: &Env) -> (decimals: u32)
        requires
            env@.token.is_initialized(),
        ensures
            decimals == env@.token.decimals,
    {
        env.token.decimals
    }

    /// The stored allowance if it is still live, otherwise a zero allowance.
    fn live_allowance(env: &Env, owner: Address, spender: Address) -> (a: AllowanceValue)
        ensures
            a == env@.token.live_allowance(owner, spender, env@.sequence),
    {
        let key = make_pair_key(owner, spender);
        match env.token.allowances.get(&key) {
            Some(allowance) => {
                if allowance.expiration_ledger >= env.sequence {
                    *allowance
                } else {
                    AllowanceValue { amount: 0, expiration_ledger: 0 }
                }
            },
            None => AllowanceValue { amount: 0, expiration_ledger: 0 },
        }
    }

    /// Debits `from`, credits `to` (read after the debit, so a self-transfer
    /// nets to zero), and emits the transfer event.
    fn move_balance(env: &mut Env, from: Address, to: Address, amount: i128) -> (r: Result<(), TokenError>)
        requires
            old(env).wf(),
            amount > 0,
            old(env)@.token.balance(from) >= amount ==> old(env)@.token.move_fits(from, to, amount),
        ensures
            final(env).wf(),
            r == (if old(env)@.token.balance(from) < amount {
                Err(TokenError::InsufficientBalance)
            } else {
                Ok(())
            }),
            r is Err ==> final(env)@ == old(env)@,
            r is Ok ==> final(env)@ == old(env)@.transferred(from, to, amount),
            old(env)@.chronological() ==> final(env)@.chronological(),
            old(env)@.token.balances_nonneg() ==> final(env)@.token.balances_nonneg(),
    {
        let from_bal = Self::balance(env, from);
        if from_bal < amount {
            return Err(TokenError::InsufficientBalance);
        }
        Self::set_balance(env, from, from_bal - amount);
        let to_bal = Self::balance(env, to);
        let ghost debited = env@.token;
        Self::set_balance(env, to, to_bal + amount);
        env.events.push(TokenEvent::Transfer(Transfer { from, to, amount }));
        proof {
            let seq = old(env)@.sequence;
            old(env)@.token.lemma_with_balance(from, (from_bal - amount) as i128, seq);
            old(env)@.token.lemma_with_balance_sum(from, (from_bal - amount) as i128, seq);
            debited.lemma_with_balance(to, (to_bal + amount) as i128, seq);
            debited.lemma_with_balance_sum(to, (to_bal + amount) as i128, seq);
            if old(env)@.token.balances_nonneg() {
                assert(debited.balance(to) >= 0);
            }
            assert(env@ =~= old(env)@.transferred(from, to, amount));
        }
        Ok(())
    }

    /// A copy of the checkpoints of `owner`, oldest first.
    fn checkpoints(env: &Env, owner: Address) -> (history: Vec<Checkpoint>)
        ensures
            history@ == env@.token.history(owner),
    {
        match env.token.checkpoints.get(&owner) {
            Some(stored) => {
                let mut copy: Vec<Checkpoint> = Vec::new();
                let mut i: usize = 0;
                while i < stored.len()
                    invariant
                        0 <= i <= stored.len(),
                        copy@ == stored@.take(i as int),
                    decreases stored.len() - i,
                {
                    copy.push(stored[i]);
                    i += 1;
                    proof {
                        assert(copy@ =~= stored@.take(i as int));
                    }
                }
                proof {
                    assert(stored@.take(stored@.len() as int) =~= stored@);
                }
                copy
            },
            None => Vec::new(),
        }
    }

    /// Writes `balance` for `owner` and records a checkpoint at the current
    /// ledger. Every balance change goes through here.
    fn set_balance(env: &mut Env, owner: Address, balance: i128)
        ensures
            final(env)@ == (EnvModel {
                token: old(env)@.token.with_balance(owner, balance, old(env)@.sequence),
                ..old(env)@
            }),
    {
        env.token.balances.insert(owner, balance);
        let ledger = env.sequence;
        let mut history = Self::checkpoints(env, owner);
        record(&mut history, ledger, balance);
        let ghost new_history = history@;
        env.token.checkpoints.insert(owner, history);
        proof {
            assert(env@.token.histories =~= old(env)@.token.histories.insert(owner, new_history));
            assert(env@ =~= (EnvModel {
                token: old(env)@.token.with_balance(owner, balance, old(env)@.sequence),
                ..old(env)@
            }));
        }
    }
}

/// A move conserves the supply: the total and the sum of all balances stay
/// the same, `from` and `to` together hold what they held, and no other
/// account changes. A self-transfer leaves the balance as it was.
pub proof fn lemma_move_conserves_supply(m: TokenModel, from: Address, to: Address, amount: i128, ledger: u32)
    requires
        supply_is_sum(m),
        amount > 0,
        m.balance(from) >= amount,
        m.move_fits(from, to, amount),
    ensures
        m.moved(from, to, amount, ledger).total_supply == m.total_supply,
        sum_balances(m.moved(from, to, amount, ledger).balances) == sum_balances(m.balances),
        from != to ==> m.moved(from, to, amount, ledger).balance(from) == m.balance(from) - amount,
        from != to ==> m.moved(from, to, amount, ledger).balance(to) == m.balance(to) + amount,
        m.moved(from, from, amount, ledger).balance(from) == m.balance(from),
        forall|a: Address| a != from && a != to ==> #[trigger] m.moved(from, to, amount, ledger).balance(a) == m.balance(a),
{
    let debited = m.with_balance(from, (m.balance(from) - amount) as i128, ledger);
    m.lemma_with_balance(from, (m.balance(from) - amount) as i128, ledger);
    m.lemma_with_balance_sum(from, (m.balance(from) - amount) as i128, ledger);
    debited.lemma_with_balance(to, (debited.balance(to) + amount) as i128, ledger);
    debited.lemma_with_balance_sum(to, (debited.balance(to) + amount) as i128, ledger);
    let self_debited = m.with_balance(from, (m.balance(from) - amount) as i128, ledger);
    self_debited.lemma_with_balance(from, (self_debited.balance(from) + amount) as i128, ledger);
}

/// Snapshots are immutable: a move at `ledger` leaves every account's
/// balance as of any earlier ledger untouched, and from `ledger` on both
/// sides read their new balances.
pub proof fn lemma_move_keeps_history(
    m: TokenModel,
    from: Address,
    to: Address,
    amount: i128,
    ledger: u32,
    owner: Address,
    query: u32,
)
    requires
        m.wf(ledger),
    ensures
        query < ledger ==> m.moved(from, to, amount, ledger).past_balance(owner, query) == m.past_balance(owner, query),
        query >= ledger ==> m.moved(from, to, amount, ledger).past_balance(owner, query)
            == m.moved(from, to, amount, ledger).balance(owner),
{
    let debited = m.with_balance(from, (m.balance(from) - amount) as i128, ledger);
    m.lemma_with_balance(from, (m.balance(from) - amount) as i128, ledger);
    debited.lemma_with_balance(to, (debited.balance(to) + amount) as i128, ledger);
    let after = debited.with_balance(to, (debited.balance(to) + amount) as i128, ledger);
    if query >= ledger {
        lemma_past_balance_is_live(after, ledger, owner, query);
    }
}

/// Every balance change is checkpointed: at or after the current ledger the
/// balance as of that ledger is the live balance.
pub proof fn lemma_past_balance_is_live(m: TokenModel, ledger: u32, owner: Address, query: u32)
    requires
        m.wf(ledger),
        ledger <= query,
    ensures
        m.past_balance(owner, query) == m.balance(owner),
{
    assert(latest_balance(m.history(owner)) == m.balance(owner));
    assert(written_by(m.history(owner), ledger));
    lemma_read_after_last_entry(m.history(owner), ledger, query);
}

/// An allowance reads as its amount up to and including its expiration
/// ledger, and as 0 from the ledger after.
pub proof fn lemma_allowance_lapses(
    m: TokenModel,
    owner: Address,
    spender: Address,
    amount: i128,
    expiration_ledger: u32,
    ledger: u32,
)
    ensures
        m.with_allowance(owner, spender, AllowanceValue { amount, expiration_ledger }).live_allowance(
            owner,
            spender,
            ledger,
        ).amount == (if ledger <= expiration_ledger {
            amount
        } else {
            0
        }),
{
}

/// Allowances are per (owner, spender) pair: setting one leaves every other
/// pair as it was.
pub proof fn lemma_allowance_per_pair(
    m: TokenModel,
    owner: Address,
    spender: Address,
    value: AllowanceValue,
    other_owner: Address,
    other_spender: Address,
)
    requires
        owner != other_owner || spender != other_spender,
    ensures
        m.with_allowance(owner, spender, value).stored_allowance(other_owner, other_spender)
            == m.stored_allowance(other_owner, other_spender),
{
    if pair_key(owner, spender) == pair_key(other_owner, other_spender) {
        crate::env::lemma_pair_key_injective(owner, spender, other_owner, other_spender);
    }
}

/// Spending part of an allowance debits it and keeps its expiry: a partial
/// spend does not extend the life of the remainder.
pub proof fn lemma_spend_keeps_expiry(
    m: TokenModel,
    spender: Address,
    from: Address,
    to: Address,
    amount: i128,
    ledger: u32,
)
    ensures
        m.spent(spender, from, to, amount, ledger).stored_allowance(from, spender) == Some(
            AllowanceValue {
                amount: (m.live_allowance(from, spender, ledger).amount - amount) as i128,
                expiration_ledger: m.live_allowance(from, spender, ledger).expiration_ledger,
            },
        ),
        m.spent(spender, from, to, amount, ledger).balances == m.moved(from, to, amount, ledger).balances,
        m.spent(spender, from, to, amount, ledger).histories == m.moved(from, to, amount, ledger).histories,
{
}

/// In every well-formed environment, which every token and governance
/// operation preserves, the recorded supply is the sum of all balances; once
/// the ledger has only moved forward, each account's balance as of the
/// current ledger is its live balance.
pub proof fn lemma_supply_and_snapshots_agree(env: EnvModel, owner: Address)
    requires
        env.wf(),
        env.chronological(),
    ensures
        env.token.total_supply == sum_balances(env.token.balances),
        env.token.past_balance(owner, env.sequence) == env.token.balance(owner),
{
    lemma_past_balance_is_live(env.token, env.sequence, owner, env.sequence);
}

/// An allowance spend is indistinguishable from a direct transfer to
/// anything watching balances: it writes the same balances and checkpoints
/// and publishes the same transfer event, and its only other effect is the
/// debit of the allowance, which keeps its expiry.
pub proof fn lemma_spend_is_transfer(env: EnvModel, spender: Address, from: Address, to: Address, amount: i128)
    ensures
        ({
            let spent = env.spent_by(spender, from, to, amount);
            let moved = env.transferred(from, to, amount);
            let approval = env.token.live_allowance(from, spender, env.sequence);
            &&& spent.token.balances == moved.token.balances
            &&& spent.token.histories == moved.token.histories
            &&& spent.events == moved.events
            &&& spent == (EnvModel {
                token: TokenModel {
                    allowances: moved.token.allowances.insert(
                        pair_key(from, spender),
                        AllowanceValue {
                            amount: (approval.amount - amount) as i128,
                            expiration_ledger: approval.expiration_ledger,
                        },
                    ),
                    ..moved.token
                },
                ..moved
            })
            &&& spent.token == env.token.spent(spender, from, to, amount, env.sequence)
        }),
{
}

/// With no negative balance, every balance lies between 0 and the supply.
pub proof fn lemma_balances_within_supply(m: TokenModel, owner: Address)
    requires
        supply_is_sum(m),
        m.balances_nonneg(),
    ensures
        0 <= m.balance(owner) <= m.total_supply,
{
    assert forall|a: Address| m.balances.contains_key(a) implies #[trigger] m.balances[a] >= 0 by {
        assert(m.balance(a) >= 0);
    }
    if m.balances.contains_key(owner) {
        let rest = m.balances.remove(owner);
        lemma_sum_balances_remove(m.balances, owner);
        assert forall|a: Address| rest.contains_key(a) implies #[trigger] rest[a] >= 0 by {
            assert(m.balances[a] >= 0);
        }
        lemma_sum_balances_nonneg(rest);
    } else {
        lemma_sum_balances_nonneg(m.balances);
    }
}

/// Token operations leave the governor's storage alone: in particular a
/// proposal's quorum, fixed from the supply when it was created, stays as it
/// was through later transfers, spends, mints and burns.
pub proof fn lemma_token_ops_keep_governance(
    env: EnvModel,
    spender: Address,
    from: Address,
    to: Address,
    amount: i128,
)
    ensures
        env.transferred(from, to, amount).governance == env.governance,
        env.spent_by(spender, from, to, amount).governance == env.governance,
        env.minted_to(to, amount).governance == env.governance,
        env.burned_from(from, amount).governance == env.governance,
{
}


/// A call of one of the token's state-changing operations after
/// initialization, with its arguments.
pub enum TokenCall {
    Transfer { from: Address, to: Address, amount: i128 },
    TransferFrom { spender: Address, from: Address, to: Address, amount: i128 },
    Mint { to: Address, amount: i128 },
    Burn { from: Address, amount: i128 },
    Approve { owner: Address, spender: Address, amount: i128, expiration_ledger: u32 },
    TransferAdmin { new_admin: Address },
}

/// `call` returns `Ok` in `env`: it is authorized, its checks pass and its
/// arithmetic does not overflow.
pub open spec fn call_succeeds(env: EnvModel, call: TokenCall) -> bool {
    let t = env.token;
    match call {
        TokenCall::Transfer { from, to, amount } => {
            &&& env.authorizes(from)
            &&& amount > 0
            &&& t.balance(from) >= amount
            &&& t.move_fits(from, to, amount)
        },
        TokenCall::TransferFrom { spender, from, to, amount } => {
            &&& env.authorizes(spender)
            &&& amount > 0
            &&& t.live_allowance(from, spender, env.sequence).amount >= amount
            &&& t.balance(from) >= amount
            &&& t.move_fits(from, to, amount)
        },
        TokenCall::Mint { to, amount } => {
            &&& t.is_initialized()
            &&& env.authorizes(t.admin.unwrap())
            &&& amount > 0
            &&& t.total_supply + amount <= i128::MAX
            &&& t.balance(to) + amount <= i128::MAX
        },
        TokenCall::Burn { from, amount } => {
            &&& env.authorizes(from)
            &&& amount > 0
            &&& t.balance(from) >= amount
            &&& t.total_supply - amount >= i128::MIN
        },
        TokenCall::Approve { owner, spender, amount, expiration_ledger } => {
            &&& env.authorizes(owner)
            &&& amount >= 0
            &&& (amount > 0 ==> expiration_ledger >= env.sequence)
        },
        TokenCall::TransferAdmin { new_admin } => {
            &&& t.is_initialized()
            &&& env.authorizes(t.admin.unwrap())
        },
    }
}

/// The environment after `call` succeeds in `env`, as the operation's own
/// contract states it.
pub open spec fn after_call(env: EnvModel, call: TokenCall) -> EnvModel {
    match call {
        TokenCall::Transfer { from, to, amount } => env.transferred(from, to, amount),
        TokenCall::TransferFrom { spender, from, to, amount } => env.spent_by(spender, from, to, amount),
        TokenCall::Mint { to, amount } => env.minted_to(to, amount),
        TokenCall::Burn { from, amount } => env.burned_from(from, amount),
        TokenCall::Approve { owner, spender, amount, expiration_ledger } => env.approved(
            owner,
            spender,
            amount,
            expiration_ledger,
        ),
        TokenCall::TransferAdmin { new_admin } => env.admin_handed_to(new_admin),
    }
}

/// The environment after the calls in `calls`, made in order.
pub open spec fn after_calls(env: EnvModel, calls: Seq<TokenCall>) -> EnvModel
    decreases calls.len(),
{
    if calls.len() == 0 {
        env
    } else {
        after_call(after_calls(env, calls.drop_last()), calls.last())
    }
}

/// Every call in `calls` succeeds in the environment the calls before it
/// left.
pub open spec fn calls_succeed(env: EnvModel, calls: Seq<TokenCall>) -> bool {
    forall|i: int| 0 <= i < calls.len() ==> call_succeeds(#[trigger] after_calls(env, calls.take(i)), calls[i])
}

/// The recorded supply is the sum of the balances, none of which is
/// negative, on an initialized token.
pub open spec fn sound_supply(t: TokenModel) -> bool {
    &&& t.is_initialized()
    &&& supply_is_sum(t)
    &&& t.balances_nonneg()
}

/// One successful call keeps the supply sound.
proof fn lemma_call_keeps_supply(env: EnvModel, call: TokenCall)
    requires
        sound_supply(env.token),
        call_succeeds(env, call),
    ensures
        sound_supply(after_call(env, call).token),
{
    let t = env.token;
    let seq = env.sequence;
    match call {
        TokenCall::Transfer { from, to, amount } => {
            lemma_moved_keeps_supply(t, from, to, amount, seq);
            assert(after_call(env, call).token == t.moved(from, to, amount, seq));
        },
        TokenCall::TransferFrom { spender, from, to, amount } => {
            let moved = t.moved(from, to, amount, seq);
            lemma_moved_keeps_supply(t, from, to, amount, seq);
            moved.lemma_wf_same_accounts(after_call(env, call).token, seq);
        },
        TokenCall::Mint { to, amount } => {
            let raised = TokenModel { total_supply: (t.total_supply + amount) as i128, ..t };
            t.lemma_wf_same_accounts(raised, seq);
            raised.lemma_with_balance(to, (t.balance(to) + amount) as i128, seq);
            raised.lemma_with_balance_sum(to, (t.balance(to) + amount) as i128, seq);
            assert(t.balance(to) >= 0);
        },
        TokenCall::Burn { from, amount } => {
            let lowered = t.with_balance(from, (t.balance(from) - amount) as i128, seq);
            t.lemma_with_balance(from, (t.balance(from) - amount) as i128, seq);
            t.lemma_with_balance_sum(from, (t.balance(from) - amount) as i128, seq);
            lowered.lemma_wf_same_accounts(after_call(env, call).token, seq);
        },
        TokenCall::Approve { owner, spender, amount, expiration_ledger } => {
            t.lemma_wf_same_accounts(after_call(env, call).token, seq);
        },
        TokenCall::TransferAdmin { new_admin } => {
            t.lemma_wf_same_accounts(after_call(env, call).token, seq);
        },
    }
}

/// A move of a covered amount keeps the supply sound.
proof fn lemma_moved_keeps_supply(t: TokenModel, from: Address, to: Address, amount: i128, ledger: u32)
    requires
        sound_supply(t),
        amount > 0,
        t.balance(from) >= amount,
        t.move_fits(from, to, amount),
    ensures
        sound_supply(t.moved(from, to, amount, ledger)),
{
    let debited = t.with_balance(from, (t.balance(from) - amount) as i128, ledger);
    t.lemma_with_balance(from, (t.balance(from) - amount) as i128, ledger);
    t.lemma_with_balance_sum(from, (t.balance(from) - amount) as i128, ledger);
    debited.lemma_with_balance(to, (debited.balance(to) + amount) as i128, ledger);
    debited.lemma_with_balance_sum(to, (debited.balance(to) + amount) as i128, ledger);
    assert(debited.balance(to) >= 0);
}

/// From a token initialized with a non-negative supply, every sequence of
/// successful transfers, spends, mints, burns, approvals and admin handovers
/// leaves the recorded supply equal to the sum of all balances, and no
/// balance negative.
pub proof fn lemma_supply_stays_the_sum(
    env: EnvModel,
    admin: Address,
    name: Seq<char>,
    symbol: Seq<char>,
    decimals: u32,
    initial_supply: i128,
    calls: Seq<TokenCall>,
)
    requires
        supply_is_sum(env.token),
        !env.token.is_initialized(),
        initial_supply >= 0,
        calls_succeed(env.token_started(admin, name, symbol, decimals, initial_supply), calls),
    ensures
        ({
            let end = after_calls(env.token_started(admin, name, symbol, decimals, initial_supply), calls).token;
            &&& end.total_supply == sum_balances(end.balances)
            &&& forall|a: Address| #[trigger] end.balance(a) >= 0
        }),
    decreases calls.len(),
{
    let start = env.token_started(admin, name, symbol, decimals, initial_supply);
    lemma_started_supply(env.token, admin, name, symbol, decimals, initial_supply, env.sequence);
    lemma_calls_keep_supply(start, calls);
}

/// Initializing with a non-negative supply makes the supply sound.
proof fn lemma_started_supply(
    t: TokenModel,
    admin: Address,
    name: Seq<char>,
    symbol: Seq<char>,
    decimals: u32,
    initial_supply: i128,
    ledger: u32,
)
    requires
        supply_is_sum(t),
        !t.is_initialized(),
        initial_supply >= 0,
    ensures
        sound_supply(t.started(admin, name, symbol, decimals, initial_supply, ledger)),
{
    let set_up = TokenModel { admin: Some(admin), name, symbol, decimals, total_supply: initial_supply, ..t };
    assert(set_up.balances.dom() =~= Set::empty());
    set_up.lemma_with_balance(admin, initial_supply, ledger);
    set_up.lemma_with_balance_sum(admin, initial_supply, ledger);
    assert forall|a: Address| #[trigger] set_up.balance(a) >= 0 by {}
}

/// Successful calls from a sound supply keep it sound.
proof fn lemma_calls_keep_supply(start: EnvModel, calls: Seq<TokenCall>)
    requires
        sound_supply(start.token),
        calls_succeed(start, calls),
    ensures
        sound_supply(after_calls(start, calls).token),
    decreases calls.len(),
{
    if calls.len() > 0 {
        let earlier = calls.drop_last();
        assert forall|i: int| 0 <= i < earlier.len() implies call_succeeds(
            #[trigger] after_calls(start, earlier.take(i)),
            earlier[i],
        ) by {
            assert(earlier.take(i) =~= calls.take(i));
            assert(call_succeeds(after_calls(start, calls.take(i)), calls[i]));
        }
        lemma_calls_keep_supply(start, earlier);
        let k = calls.len() - 1;
        assert(calls.take(k) =~= earlier);
        assert(call_succeeds(after_calls(start, calls.take(k)), calls[k]));
        lemma_call_keeps_supply(after_calls(start, earlier), calls.last());
    }
}


/// What each successful token operation does to balances, supply, admin and
/// allowances, and the event it publishes: a transfer debits `from` and
/// credits `to` by `amount` (a self-transfer changes nothing), a mint adds
/// `amount` to `to` and to the supply, a burn takes it from `from` and from
/// the supply, an approval reads as its amount until its expiration ledger
/// and as 0 after it, and a handover names the new admin. No other balance
/// changes.
pub proof fn lemma_token_operation_effects(
    env: EnvModel,
    from: Address,
    to: Address,
    amount: i128,
    expiration_ledger: u32,
    other: Address,
    ledger: u32,
)
    requires
        env.token.balances.dom().finite(),
    ensures
        ({
            let t = env.token;
            let moved = env.transferred(from, to, amount).token;
            from != to && amount > 0 && t.balance(from) >= amount && t.balance(to) + amount <= i128::MAX ==> {
                &&& moved.balance(from) == t.balance(from) - amount
                &&& moved.balance(to) == t.balance(to) + amount
            }
        }),
        amount > 0 && env.token.balance(from) >= amount ==> env.transferred(from, from, amount).token.balance(from)
            == env.token.balance(from),
        other != from && other != to ==> env.transferred(from, to, amount).token.balance(other) == env.token.balance(
            other,
        ),
        env.transferred(from, to, amount).token.total_supply == env.token.total_supply,
        env.transferred(from, to, amount).events.last() == TokenEvent::Transfer(Transfer { from, to, amount }),
        ({
            let t = env.token;
            let minted = env.minted_to(to, amount).token;
            amount > 0 && t.balance(to) + amount <= i128::MAX && t.total_supply + amount <= i128::MAX ==> {
                &&& minted.balance(to) == t.balance(to) + amount
                &&& minted.total_supply == t.total_supply + amount
            }
        }),
        other != to ==> env.minted_to(to, amount).token.balance(other) == env.token.balance(other),
        ({
            let t = env.token;
            let burned = env.burned_from(from, amount).token;
            amount > 0 && t.balance(from) >= amount && i128::MIN <= t.total_supply - amount ==> {
                &&& burned.balance(from) == t.balance(from) - amount
                &&& burned.total_supply == t.total_supply - amount
            }
        }),
        other != from ==> env.burned_from(from, amount).token.balance(other) == env.token.balance(other),
        env.approved(from, to, amount, expiration_ledger).token.live_allowance(from, to, ledger).amount == (if ledger
            <= expiration_ledger {
            amount
        } else {
            0
        }),
        env.approved(from, to, amount, expiration_ledger).token.balances == env.token.balances,
        env.admin_handed_to(to).token.admin == Some(to),
        env.admin_handed_to(to).token.balances == env.token.balances,
        env.admin_handed_to(to).token.total_supply == env.token.total_supply,
        amount > 0 && env.token.total_supply + amount <= i128::MAX ==> env.minted_to(to, amount).events.last()
            == TokenEvent::Mint(Mint { to, amount, total_supply: (env.token.total_supply + amount) as i128 }),
        amount > 0 && env.token.total_supply - amount >= i128::MIN ==> env.burned_from(from, amount).events.last()
            == TokenEvent::Burn(Burn { from, amount, total_supply: (env.token.total_supply - amount) as i128 }),
{
    let t = env.token;
    let seq = env.sequence;
    let debited = t.with_balance(from, (t.balance(from) - amount) as i128, seq);
    t.lemma_with_balance(from, (t.balance(from) - amount) as i128, seq);
    debited.lemma_with_balance(to, (debited.balance(to) + amount) as i128, seq);
    debited.lemma_with_balance(from, (debited.balance(from) + amount) as i128, seq);
    let raised = TokenModel { total_supply: (t.total_supply + amount) as i128, ..t };
    raised.lemma_with_balance(to, (t.balance(to) + amount) as i128, seq);
    t.lemma_with_balance(to, (t.balance(to) + amount) as i128, seq);
}

/// Initialization sets the admin and metadata, credits the whole initial
/// supply to the admin and publishes it as a mint; no other account holds
/// anything it did not hold before.
pub proof fn lemma_initialize_effects(
    env: EnvModel,
    admin: Address,
    name: Seq<char>,
    symbol: Seq<char>,
    decimals: u32,
    initial_supply: i128,
    other: Address,
)
    ensures
        ({
            let started = env.token_started(admin, name, symbol, decimals, initial_supply);
            &&& started.token.admin == Some(admin)
            &&& started.token.name == name
            &&& started.token.symbol == symbol
            &&& started.token.decimals == decimals
            &&& started.token.total_supply == initial_supply
            &&& started.token.balance(admin) == initial_supply
            &&& other != admin ==> started.token.balance(other) == env.token.balance(other)
            &&& started.events.last() == TokenEvent::Mint(
                Mint { to: admin, amount: initial_supply, total_supply: initial_supply },
            )
        }),
{
    let set_up = TokenModel {
        admin: Some(admin),
        name,
        symbol,
        decimals,
        total_supply: initial_supply,
        ..env.token
    };
    set_up.lemma_with_balance(admin, initial_supply, env.sequence);
}

} // verus!
