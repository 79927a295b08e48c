use crate::contract::{contains_account, has_key, keys_unique, token_shares, Contract, WhitelistedToken};
use crate::error::LockupError;
use crate::lockup::Lockup;
use crate::schedule::{Balance, Checkpoint, Schedule, TimestampSec};
use crate::util::{
    grant_computable, lockup_grant, parse_u64, parsed_token_id, try_calculate_for_lockup,
    try_identify_contract_id_and_sub_token_id, try_identify_sub_token_id,
};
use vstd::prelude::*;

verus! {

/// How long an LP-incentive lockup takes to release its grant: half a year.
pub const LP_LOCKUP_DURATION: u32 = 86400 * 180;

/// What an exchange reports of one of its pools.
#[derive(Debug)]
pub struct RefPoolInfo {
    /// The tokens of the pool.
    pub token_account_ids: Vec<String>,
    /// How much of each token the pool holds.
    pub amounts: Vec<Balance>,
    /// The fee charged for a swap, in hundredths of a percent.
    pub total_fee: u16,
    /// The shares the pool has issued.
    pub shares_total_supply: Balance,
}

/// The receiving side of a multi-token transfer.
pub trait MFTTokenReceiver: Sized {
    /// What accepting a transfer of `token_id` through the ledger `predecessor_id` answers:
    /// the pool to query before the deposit is settled, or why the transfer is refused.
    spec fn mft_deposit_outcome(&self, predecessor_id: Seq<char>, token_id: Seq<char>) -> Result<
        u64,
        LockupError,
    >;

    /// Accepts `amount` of token `token_id` sent by `sender_id` through the ledger
    /// `predecessor_id`, and names the pool to query before the deposit is settled. The
    /// receiver is left as it was.
    fn mft_on_transfer(
        &mut self,
        predecessor_id: &String,
        token_id: &String,
        sender_id: &String,
        amount: Balance,
        msg: &String,
    ) -> (r: Result<u64, LockupError>)
        ensures
            r == old(self).mft_deposit_outcome(predecessor_id@, token_id@),
            *final(self) == *old(self),
    ;
}

/// What the engine answers to an LP-share transfer of `token_id` through the exchange
/// `predecessor_id`: refused while paused, for a token id not of the form `:<pool_id>`, and for
/// a pair that is not whitelisted; otherwise the pool to query.
pub open spec fn mft_deposit_check(c: Contract, predecessor_id: Seq<char>, token_id: Seq<char>) -> Result<
    u64,
    LockupError,
> {
    if !c.enabled {
        Err(LockupError::Paused)
    } else {
        match parse_sub_token(token_id) {
            None => Err(LockupError::InvalidTokenId),
            Some(pool_id) => if token_shares(c.whitelisted_tokens@, predecessor_id, pool_id) is None {
                Err(LockupError::NotWhitelisted)
            } else {
                Ok(pool_id)
            },
        }
    }
}

/// The position of the first account of `list` that is `a`, if any.
pub open spec fn first_account_index(list: Seq<String>, a: Seq<char>) -> Option<int> {
    if contains_account(list, a) {
        Some(
            choose|i: int|
                0 <= i < list.len() && (#[trigger] list[i])@ == a && forall|k: int|
                    0 <= k < i ==> (#[trigger] list[k])@ != a,
        )
    } else {
        None
    }
}

/// Why a forward transfer of `amount` shares of `token_id` on behalf of `caller` is refused, or
/// the exchange and pool it draws on.
pub open spec fn proxy_transfer_outcome(
    whitelist: Seq<String>,
    tokens: Seq<WhitelistedToken>,
    caller: Seq<char>,
    token_id: Seq<char>,
    amount: Balance,
) -> Result<(Seq<char>, u64), LockupError> {
    if !contains_account(whitelist, caller) {
        Err(LockupError::Unauthorized)
    } else {
        match parsed_token_id(token_id) {
            None => Err(LockupError::InvalidTokenId),
            Some((exchange, pool_id)) => match token_shares(tokens, exchange, pool_id) {
                None => Err(LockupError::NotWhitelisted),
                Some(shares) => if shares < amount {
                    Err(LockupError::NotEnoughShares)
                } else {
                    Ok((exchange, pool_id))
                },
            },
        }
    }
}

/// With keys unique, the shares of a pair are those of the entry that holds it.
pub proof fn lemma_token_shares_at(ts: Seq<WhitelistedToken>, i: int, exchange: Seq<char>, pool_id: u64)
    requires
        keys_unique(ts),
        0 <= i < ts.len(),
        has_key(ts[i], exchange, pool_id),
    ensures
        token_shares(ts, exchange, pool_id) == Some(ts[i].shares),
{
    let c = choose|c: int| 0 <= c < ts.len() && has_key(#[trigger] ts[c], exchange, pool_id);
    if c < i {
        assert(!has_key(ts[i], ts[c].exchange_id@, ts[c].pool_id));
    } else if c > i {
        assert(!has_key(ts[c], ts[i].exchange_id@, ts[i].pool_id));
    }
}

proof fn lemma_update_shares(ts: Seq<WhitelistedToken>, i: int, t: WhitelistedToken)
    requires
        keys_unique(ts),
        0 <= i < ts.len(),
        t.exchange_id@ == ts[i].exchange_id@,
        t.pool_id == ts[i].pool_id,
    ensures
        keys_unique(ts.update(i, t)),
        forall|ex: Seq<char>, p: u64|
            #[trigger] token_shares(ts.update(i, t), ex, p) == if has_key(ts[i], ex, p) {
                Some(t.shares)
            } else {
                token_shares(ts, ex, p)
            },
{
    let u = ts.update(i, t);
    assert forall|a: int, b: int| #![trigger u[a], u[b]]
        0 <= a < b < u.len() implies !has_key(u[b], u[a].exchange_id@, u[a].pool_id) by {
        assert(!has_key(ts[b], ts[a].exchange_id@, ts[a].pool_id));
    }
    assert forall|ex: Seq<char>, p: u64|
        #[trigger] token_shares(u, ex, p) == if has_key(ts[i], ex, p) {
            Some(t.shares)
        } else {
            token_shares(ts, ex, p)
        } by {
        if has_key(ts[i], ex, p) {
            lemma_token_shares_at(u, i, ex, p);
        } else if exists|j: int| 0 <= j < ts.len() && has_key(#[trigger] ts[j], ex, p) {
            let j = choose|j: int| 0 <= j < ts.len() && has_key(#[trigger] ts[j], ex, p);
            lemma_token_shares_at(ts, j, ex, p);
            lemma_token_shares_at(u, j, ex, p);
        } else {
            assert forall|j: int| 0 <= j < u.len() implies !has_key(#[trigger] u[j], ex, p) by {
                if j != i {
                    assert(u[j] == ts[j]);
                }
            }
        }
    }
}

impl Contract {
    /// The entry of `exchange` and `pool_id`, if that pair is whitelisted.
    pub fn find_token(&self, exchange: &String, pool_id: u64) -> (r: Option<usize>)
        ensures
            match r {
                Some(i) => {
                    &&& i < self.whitelisted_tokens@.len()
                    &&& has_key(self.whitelisted_tokens@[i as int], exchange@, pool_id)
                    &&& token_shares(self.whitelisted_tokens@, exchange@, pool_id) is Some
                    &&& self.wf() ==> token_shares(self.whitelisted_tokens@, exchange@, pool_id) == Some(
                        self.whitelisted_tokens@[i as int].shares,
                    )
                },
                None => token_shares(self.whitelisted_tokens@, exchange@, pool_id) is None,
            },
    {
        let mut i: usize = 0;
        while i < self.whitelisted_tokens.len()
            invariant
                i <= self.whitelisted_tokens@.len(),
                forall|k: int|
                    0 <= k < i ==> !has_key(
                        #[trigger] self.whitelisted_tokens@[k],
                        exchange@,
                        pool_id,
                    ),
            decreases self.whitelisted_tokens@.len() - i,
        {
            let t = &self.whitelisted_tokens[i];
            if t.pool_id == pool_id && t.exchange_id == *exchange {
                proof {
                    if self.wf() {
                        lemma_token_shares_at(self.whitelisted_tokens@, i as int, exchange@, pool_id);
                    }
                }
                return Some(i);
            }
            i = i + 1;
        }
        None
    }

    /// Sets the shares held for the pair at entry `i`.
    fn set_shares(&mut self, i: usize, shares: Balance)
        requires
            old(self).wf(),
            i < old(self).whitelisted_tokens@.len(),
        ensures
            final(self).wf(),
            final(self).whitelisted_tokens@.len() == old(self).whitelisted_tokens@.len(),
            forall|ex: Seq<char>, p: u64|
                #[trigger] token_shares(final(self).whitelisted_tokens@, ex, p) == if has_key(
                    old(self).whitelisted_tokens@[i as int],
                    ex,
                    p,
                ) {
                    Some(shares)
                } else {
                    token_shares(old(self).whitelisted_tokens@, ex, p)
                },
            final(self).token_account_id == old(self).token_account_id,
            final(self).lockups == old(self).lockups,
            final(self).deposit_whitelist == old(self).deposit_whitelist,
            final(self).incent_total_amount == old(self).incent_total_amount,
            final(self).incent_locked_amount == old(self).incent_locked_amount,
            final(self).enabled == old(self).enabled,
    {
        let ghost before = self.whitelisted_tokens@;
        self.whitelisted_tokens[i].shares = shares;
        proof {
            let t = self.whitelisted_tokens@[i as int];
            assert(self.whitelisted_tokens@ =~= before.update(i as int, t));
            lemma_update_shares(before, i as int, t);
        }
    }

    /// Adds `amount` to the shares held for `exchange` and `pool_id`.
    pub fn internal_add_shares(&mut self, exchange: &String, pool_id: u64, amount: Balance) -> (r:
        Result<(), LockupError>)
        requires
            old(self).wf(),
        ensures
            final(self).wf(),
            ({
                let before = token_shares(old(self).whitelisted_tokens@, exchange@, pool_id);
                match before {
                    None => r == Err::<(), LockupError>(LockupError::NotWhitelisted),
                    Some(s) => if s + amount > u128::MAX {
                        r == Err::<(), LockupError>(LockupError::BalanceOverflow)
                    } else {
                        r is Ok
                    },
                }
            }),
            r is Err ==> final(self).whitelisted_tokens == old(self).whitelisted_tokens,
            r is Ok ==> forall|ex: Seq<char>, p: u64|
                #[trigger] token_shares(final(self).whitelisted_tokens@, ex, p) == if ex
                    == exchange@ && p == pool_id {
                    Some(
                        (token_shares(old(self).whitelisted_tokens@, ex, p)->0 + amount) as Balance,
                    )
                } else {
                    token_shares(old(self).whitelisted_tokens@, ex, p)
                },
            final(self).token_account_id == old(self).token_account_id,
            final(self).lockups == old(self).lockups,
            final(self).deposit_whitelist == old(self).deposit_whitelist,
            final(self).incent_total_amount == old(self).incent_total_amount,
            final(self).incent_locked_amount == old(self).incent_locked_amount,
            final(self).enabled == old(self).enabled,
    {
        match self.find_token(exchange, pool_id) {
            None => Err(LockupError::NotWhitelisted),
            Some(i) => {
                let shares = self.whitelisted_tokens[i].shares;
                match shares.checked_add(amount) {
                    None => Err(LockupError::BalanceOverflow),
                    Some(total) => {
                        self.set_shares(i, total);
                        Ok(())
                    },
                }
            },
        }
    }

    /// Starts a forward transfer of `amount` LP shares named by `token_id`
    /// (`<exchange>@<pool_id>`) on behalf of `caller`: the shares held for that pair go down by
    /// `amount`, and the exchange and pool to call are returned.
    pub fn proxy_mft_transfer(&mut self, caller: &String, token_id: &String, amount: Balance) -> (r:
        Result<(String, u64), LockupError>)
        requires
            old(self).wf(),
        ensures
            final(self).wf(),
            ({
                let outcome = proxy_transfer_outcome(
                    old(self).deposit_whitelist@,
                    old(self).whitelisted_tokens@,
                    caller@,
                    token_id@,
                    amount,
                );
                match r {
                    Ok((exchange, pool_id)) => outcome == Ok::<(Seq<char>, u64), LockupError>(
                        (exchange@, pool_id),
                    ),
                    Err(e) => outcome == Err::<(Seq<char>, u64), LockupError>(e),
                }
            }),
            r is Err ==> final(self).whitelisted_tokens == old(self).whitelisted_tokens,
            r is Ok ==> forall|ex: Seq<char>, p: u64|
                #[trigger] token_shares(final(self).whitelisted_tokens@, ex, p) == if ex
                    == r->Ok_0.0@ && p == r->Ok_0.1 {
                    Some((token_shares(old(self).whitelisted_tokens@, ex, p)->0 - amount) as Balance)
                } else {
                    token_shares(old(self).whitelisted_tokens@, ex, p)
                },
            final(self).token_account_id == old(self).token_account_id,
            final(self).lockups == old(self).lockups,
            final(self).deposit_whitelist == old(self).deposit_whitelist,
            final(self).incent_total_amount == old(self).incent_total_amount,
            final(self).incent_locked_amount == old(self).incent_locked_amount,
            final(self).enabled == old(self).enabled,
    {
        if !self.is_deposit_whitelisted(caller) {
            return Err(LockupError::Unauthorized);
        }
        let (contract_id, pool_id) = match try_identify_contract_id_and_sub_token_id(token_id) {
            Ok(parsed) => parsed,
            Err(_) => return Err(LockupError::InvalidTokenId),
        };
        let i = match self.find_token(&contract_id, pool_id) {
            Some(i) => i,
            None => return Err(LockupError::NotWhitelisted),
        };
        let shares = self.whitelisted_tokens[i].shares;
        if shares < amount {
            return Err(LockupError::NotEnoughShares);
        }
        self.set_shares(i, shares - amount);
        Ok((contract_id, pool_id))
    }

    /// Starts a forward transfer with a message to the receiver; the shares held change as for
    /// `proxy_mft_transfer`.
    pub fn proxy_mft_transfer_call(&mut self, caller: &String, token_id: &String, amount: Balance) -> (r:
        Result<(String, u64), LockupError>)
        requires
            old(self).wf(),
        ensures
            final(self).wf(),
            ({
                let outcome = proxy_transfer_outcome(
                    old(self).deposit_whitelist@,
                    old(self).whitelisted_tokens@,
                    caller@,
                    token_id@,
                    amount,
                );
                match r {
                    Ok((exchange, pool_id)) => outcome == Ok::<(Seq<char>, u64), LockupError>(
                        (exchange@, pool_id),
                    ),
                    Err(e) => outcome == Err::<(Seq<char>, u64), LockupError>(e),
                }
            }),
            r is Err ==> final(self).whitelisted_tokens == old(self).whitelisted_tokens,
            r is Ok ==> forall|ex: Seq<char>, p: u64|
                #[trigger] token_shares(final(self).whitelisted_tokens@, ex, p) == if ex
                    == r->Ok_0.0@ && p == r->Ok_0.1 {
                    Some((token_shares(old(self).whitelisted_tokens@, ex, p)->0 - amount) as Balance)
                } else {
                    token_shares(old(self).whitelisted_tokens@, ex, p)
                },
            final(self).token_account_id == old(self).token_account_id,
            final(self).lockups == old(self).lockups,
            final(self).deposit_whitelist == old(self).deposit_whitelist,
            final(self).incent_total_amount == old(self).incent_total_amount,
            final(self).incent_locked_amount == old(self).incent_locked_amount,
            final(self).enabled == old(self).enabled,
    {
        self.proxy_mft_transfer(caller, token_id, amount)
    }

    /// Completes a forward transfer: a failed one gives the `amount` shares back to the pair.
    pub fn mft_transfer_callback(
        &mut self,
        amount: Balance,
        contract_id: &String,
        pool_id: u64,
        transfer_succeeded: bool,
    ) -> (r: Result<(), LockupError>)
        requires
            old(self).wf(),
        ensures
            final(self).wf(),
            transfer_succeeded ==> r is Ok && final(self).whitelisted_tokens
                == old(self).whitelisted_tokens,
            !transfer_succeeded ==> ({
                let before = token_shares(old(self).whitelisted_tokens@, contract_id@, pool_id);
                &&& before is None ==> r == Err::<(), LockupError>(LockupError::NotWhitelisted)
                &&& before is Some ==> (r is Ok <==> before->0 + amount <= u128::MAX)
                &&& r is Ok ==> token_shares(final(self).whitelisted_tokens@, contract_id@, pool_id)
                    == Some((before->0 + amount) as Balance)
            }),
            r is Err ==> final(self).whitelisted_tokens == old(self).whitelisted_tokens,
            r is Ok ==> forall|ex: Seq<char>, p: u64|
                !(ex == contract_id@ && p == pool_id) ==> #[trigger] token_shares(
                    final(self).whitelisted_tokens@,
                    ex,
                    p,
                ) == token_shares(old(self).whitelisted_tokens@, ex, p),
            final(self).token_account_id == old(self).token_account_id,
            final(self).lockups == old(self).lockups,
            final(self).deposit_whitelist == old(self).deposit_whitelist,
            final(self).incent_total_amount == old(self).incent_total_amount,
            final(self).incent_locked_amount == old(self).incent_locked_amount,
            final(self).enabled == old(self).enabled,
    {
        if transfer_succeeded {
            return Ok(());
        }
        self.internal_add_shares(contract_id, pool_id, amount)
    }

    /// Completes a forward transfer with a message: the receiver reports how much it did not use
    /// (all of `amount` when the call failed, `None`), and that part, at most `amount`, goes
    /// back to the pair and is returned.
    pub fn mft_transfer_call_callback(
        &mut self,
        amount: Balance,
        contract_id: &String,
        pool_id: u64,
        reported_unused: Option<Balance>,
    ) -> (r: Result<Balance, LockupError>)
        requires
            old(self).wf(),
        ensures
            final(self).wf(),
            ({
                let unused = match reported_unused {
                    Some(u) => if u < amount {
                        u
                    } else {
                        amount
                    },
                    None => amount,
                };
                let before = token_shares(old(self).whitelisted_tokens@, contract_id@, pool_id);
                &&& unused == 0 ==> r == Ok::<Balance, LockupError>(0) && final(self).whitelisted_tokens == old(self).whitelisted_tokens
                &&& unused > 0 && before is None ==> r == Err::<Balance, LockupError>(
                    LockupError::NotWhitelisted,
                )
                &&& unused > 0 && before is Some ==> (r is Ok <==> before->0 + unused <= u128::MAX)
                &&& r is Ok ==> r->Ok_0 == unused
                &&& unused > 0 && r is Ok ==> token_shares(
                    final(self).whitelisted_tokens@,
                    contract_id@,
                    pool_id,
                ) == Some((before->0 + unused) as Balance)
            }),
            r is Err ==> final(self).whitelisted_tokens == old(self).whitelisted_tokens,
            r is Ok ==> forall|ex: Seq<char>, p: u64|
                !(ex == contract_id@ && p == pool_id) ==> #[trigger] token_shares(
                    final(self).whitelisted_tokens@,
                    ex,
                    p,
                ) == token_shares(old(self).whitelisted_tokens@, ex, p),
            final(self).token_account_id == old(self).token_account_id,
            final(self).lockups == old(self).lockups,
            final(self).deposit_whitelist == old(self).deposit_whitelist,
            final(self).incent_total_amount == old(self).incent_total_amount,
            final(self).incent_locked_amount == old(self).incent_locked_amount,
            final(self).enabled == old(self).enabled,
    {
        let unused = match reported_unused {
            Some(u) => if u < amount {
                u
            } else {
                amount
            },
            None => amount,
        };
        if unused == 0 {
            return Ok(0);
        }
        match self.internal_add_shares(contract_id, pool_id, unused) {
            Ok(()) => Ok(unused),
            Err(e) => Err(e),
        }
    }

    /// Checks an LP-share deposit of pool `:<pool_id>` arriving from the exchange
    /// `predecessor_id`, and returns the pool to query.
    pub fn check_mft_deposit(&self, predecessor_id: &String, token_id: &String) -> (r: Result<
        u64,
        LockupError,
    >)
        ensures
            r == mft_deposit_check(*self, predecessor_id@, token_id@),
    {
        if !self.enabled {
            return Err(LockupError::Paused);
        }
        let pool_id = match try_identify_sub_token_id(token_id) {
            Ok(p) => p,
            Err(_) => return Err(LockupError::InvalidTokenId),
        };
        match self.find_token(predecessor_id, pool_id) {
            Some(_) => Ok(pool_id),
            None => Err(LockupError::NotWhitelisted),
        }
    }

    fn account_position(list: &Vec<String>, account: &String) -> (r: Option<usize>)
        ensures
            match r {
                Some(i) => first_account_index(list@, account@) == Some(i as int) && i
                    < list@.len(),
                None => first_account_index(list@, account@) is None,
            },
    {
        let mut i: usize = 0;
        while i < list.len()
            invariant
                i <= list@.len(),
                forall|k: int| 0 <= k < i ==> (#[trigger] list@[k])@ != account@,
            decreases list@.len() - i,
        {
            if list[i] == *account {
                proof {
                    let c = choose|c: int|
                        0 <= c < list@.len() && (#[trigger] list@[c])@ == account@ && forall|k: int|
                            0 <= k < c ==> (#[trigger] list@[k])@ != account@;
                    if c < i {
                    } else if c > i {
                        assert(list@[i as int]@ == account@);
                    }
                }
                return Some(i);
            }
            i = i + 1;
        }
        None
    }

    /// Settles an LP-share deposit once the exchange has described the pool: the depositor gets
    /// a lockup of the incentive grant released linearly over half a year from `now`, the grant
    /// is committed from the incentive pool, and the shares are credited to the pair. Refused,
    /// with nothing changed, when the pool lacks the escrowed token, the grant cannot be
    /// computed, the pool would be over-committed or the pair is not whitelisted.
    pub fn on_mft_callback(
        &mut self,
        sender_id: String,
        user_shares: Balance,
        exchange_contract_id: &String,
        pool_id: u64,
        pool_info: &RefPoolInfo,
        now: TimestampSec,
    ) -> (r: Result<Balance, LockupError>)
        requires
            old(self).wf(),
        ensures
            final(self).wf(),
            r is Err ==> final(self).lockups@ == old(self).lockups@ && final(self).whitelisted_tokens
                == old(self).whitelisted_tokens && final(self).incent_locked_amount == old(self).incent_locked_amount,
            ({
                let idx = first_account_index(pool_info.token_account_ids@, old(self).token_account_id@);
                if idx is None || idx->0 >= pool_info.amounts@.len() {
                    r == Err::<Balance, LockupError>(LockupError::TokenNotInPool)
                } else {
                    let amount = pool_info.amounts@[idx->0];
                    let supply = pool_info.shares_total_supply;
                    let grant = lockup_grant(user_shares as int, amount as int, supply as int);
                    let shares = token_shares(
                        old(self).whitelisted_tokens@,
                        exchange_contract_id@,
                        pool_id,
                    );
                    if !grant_computable(user_shares as int, amount as int, supply as int) || now
                        + LP_LOCKUP_DURATION > u32::MAX {
                        r == Err::<Balance, LockupError>(LockupError::BalanceOverflow)
                    } else if old(self).incent_locked_amount + grant > old(self).incent_total_amount {
                        r == Err::<Balance, LockupError>(LockupError::Overcommit)
                    } else if shares is None {
                        r == Err::<Balance, LockupError>(LockupError::NotWhitelisted)
                    } else if shares->0 + user_shares > u128::MAX {
                        r == Err::<Balance, LockupError>(LockupError::BalanceOverflow)
                    } else {
                        let l = final(self).lockups@.last();
                        &&& r == Ok::<Balance, LockupError>(0)
                        &&& final(self).lockups@.drop_last() == old(self).lockups@
                        &&& final(self).lockups@.len() == old(self).lockups@.len() + 1
                        &&& l.account_id == sender_id
                        &&& l.schedule@ == seq![
                            Checkpoint { timestamp: now, balance: 0 },
                            Checkpoint {
                                timestamp: (now + LP_LOCKUP_DURATION) as u32,
                                balance: grant as Balance,
                            },
                        ]
                        &&& l.claimed_balance == 0
                        &&& l.termination_config is None
                        &&& final(self).incent_locked_amount == old(self).incent_locked_amount
                            + grant
                        &&& forall|ex: Seq<char>, p: u64|
                            #[trigger] token_shares(final(self).whitelisted_tokens@, ex, p) == if ex
                                == exchange_contract_id@ && p == pool_id {
                                Some((shares->0 + user_shares) as Balance)
                            } else {
                                token_shares(old(self).whitelisted_tokens@, ex, p)
                            }
                    }
                }
            }),
            final(self).token_account_id == old(self).token_account_id,
            final(self).deposit_whitelist == old(self).deposit_whitelist,
            final(self).incent_total_amount == old(self).incent_total_amount,
            final(self).enabled == old(self).enabled,
    {
        let idx = match Self::account_position(&pool_info.token_account_ids, &self.token_account_id) {
            Some(i) => i,
            None => return Err(LockupError::TokenNotInPool),
        };
        if idx >= pool_info.amounts.len() {
            return Err(LockupError::TokenNotInPool);
        }
        let amount = pool_info.amounts[idx];
        let grant = match try_calculate_for_lockup(
            user_shares,
            amount,
            pool_info.shares_total_supply,
        ) {
            Some(g) => g,
            None => return Err(LockupError::BalanceOverflow),
        };
        let end = match now.checked_add(LP_LOCKUP_DURATION) {
            Some(e) => e,
            None => return Err(LockupError::BalanceOverflow),
        };
        let locked = match self.incent_locked_amount.checked_add(grant) {
            Some(l) => l,
            None => return Err(LockupError::Overcommit),
        };
        if locked > self.incent_total_amount {
            return Err(LockupError::Overcommit);
        }
        let i = match self.find_token(exchange_contract_id, pool_id) {
            Some(i) => i,
            None => return Err(LockupError::NotWhitelisted),
        };
        let shares = match self.whitelisted_tokens[i].shares.checked_add(user_shares) {
            Some(s) => s,
            None => return Err(LockupError::BalanceOverflow),
        };
        let v = vec![
            Checkpoint { timestamp: now, balance: 0 },
            Checkpoint { timestamp: end, balance: grant },
        ];
        assert(v@ =~= seq![v@[0], v@[1]]);
        let lockup = Lockup {
            account_id: sender_id,
            schedule: Schedule(v),
            claimed_balance: 0,
            termination_config: None,
        };
        self.internal_add_lockup(lockup);
        assert(self.lockups@.drop_last() =~= old(self).lockups@);
        self.incent_locked_amount = locked;
        self.set_shares(i, shares);
        Ok(0)
    }
}

/// The pool id that a token id of the form `:<pool_id>` names, if it has that form.
pub open spec fn parse_sub_token(s: Seq<char>) -> Option<u64> {
    if s.len() > 0 && s[0] == ':' {
        parse_u64(s.drop_first())
    } else {
        None
    }
}

impl MFTTokenReceiver for Contract {
    open spec fn mft_deposit_outcome(&self, predecessor_id: Seq<char>, token_id: Seq<char>) -> Result<
        u64,
        LockupError,
    > {
        mft_deposit_check(*self, predecessor_id, token_id)
    }

    fn mft_on_transfer(
        &mut self,
        predecessor_id: &String,
        token_id: &String,
        sender_id: &String,
        amount: Balance,
        msg: &String,
    ) -> Result<u64, LockupError> {
        self.check_mft_deposit(predecessor_id, token_id)
    }
}

} // verus!
