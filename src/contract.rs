use crate::error::LockupError;
use crate::lockup::{new_lockup_check, termination_refund, unclaimed_at, Lockup};
use crate::schedule::{is_termination_split, total_of, unlocked_at, Balance, Schedule, TimestampSec};
use vstd::prelude::*;

verus! {

/// The permanent identifier of a lockup: its position in the table.
pub type LockupIndex = u64;

/// LP shares of one pool of one exchange, held by the engine.
#[derive(Debug)]
pub struct WhitelistedToken {
    pub exchange_id: String,
    pub pool_id: u64,
    pub shares: Balance,
}

/// The engine's state.
#[derive(Debug)]
pub struct Contract {
    /// The one token this instance escrows.
    pub token_account_id: String,
    /// Every lockup ever created; a lockup's index never changes.
    pub lockups: Vec<Lockup>,
    /// Accounts allowed to deposit lockups and to administer the engine, in order of addition.
    pub deposit_whitelist: Vec<String>,
    /// The (exchange, pool) pairs whose LP shares are accepted, with the shares held.
    pub whitelisted_tokens: Vec<WhitelistedToken>,
    /// Tokens deposited to fund LP incentives.
    pub incent_total_amount: Balance,
    /// Tokens committed to LP-incentive lockups.
    pub incent_locked_amount: Balance,
    /// Whether LP deposits are accepted.
    pub enabled: bool,
}

/// What a token transfer to the engine asks for.
#[derive(Debug)]
pub enum DepositMessage {
    /// Fund the incentive pool.
    ForIncent,
    /// Open this lockup.
    NewLockup(Lockup),
}

/// The optimistic part of a claim: the amount to transfer and, for each lockup index, what was
/// added to its claimed balance (indices past the end added nothing).
#[derive(Debug)]
pub struct ClaimPlan {
    pub amount: Balance,
    pub deltas: Vec<Balance>,
}

/// Whether `a` is among `list`.
pub open spec fn contains_account(list: Seq<String>, a: Seq<char>) -> bool {
    exists|i: int| 0 <= i < list.len() && (#[trigger] list[i])@ == a
}

/// No account appears twice in `list`.
pub open spec fn accounts_unique(list: Seq<String>) -> bool {
    forall|i: int, j: int|
        #![trigger list[i], list[j]]
        0 <= i < j < list.len() ==> list[i]@ != list[j]@
}

/// `list` with each account kept at its first appearance only.
pub open spec fn first_occurrences(list: Seq<String>) -> Seq<String>
    decreases list.len(),
{
    if list.len() == 0 {
        list
    } else {
        let rest = first_occurrences(list.drop_last());
        if contains_account(rest, list.last()@) {
            rest
        } else {
            rest.push(list.last())
        }
    }
}

/// Appending an account that is not yet in a list without repeats keeps it without repeats.
pub proof fn lemma_push_new_account(list: Seq<String>, a: String)
    requires
        accounts_unique(list),
        !contains_account(list, a@),
    ensures
        accounts_unique(list.push(a)),
{
    let u = list.push(a);
    assert forall|i: int, j: int| #![trigger u[i], u[j]] 0 <= i < j < u.len() implies u[i]@ != u[j]@ by {
        assert(u[i] == list[i]);
        if j < list.len() {
            assert(u[j] == list[j]);
        }
    }
}

proof fn lemma_first_occurrences_unique(list: Seq<String>)
    ensures
        accounts_unique(first_occurrences(list)),
    decreases list.len(),
{
    if list.len() > 0 {
        lemma_first_occurrences_unique(list.drop_last());
        let rest = first_occurrences(list.drop_last());
        if !contains_account(rest, list.last()@) {
            lemma_push_new_account(rest, list.last());
        }
    }
}

/// Whether the entry is the one of `exchange` and `pool_id`.
pub open spec fn has_key(t: WhitelistedToken, exchange: Seq<char>, pool_id: u64) -> bool {
    t.exchange_id@ == exchange && t.pool_id == pool_id
}

/// No two entries share a key.
pub open spec fn keys_unique(ts: Seq<WhitelistedToken>) -> bool {
    forall|i: int, j: int|
        #![trigger ts[i], ts[j]]
        0 <= i < j < ts.len() ==> !has_key(ts[j], ts[i].exchange_id@, ts[i].pool_id)
}

/// The shares held for `exchange` and `pool_id`, or `None` if the pair is not whitelisted.
pub open spec fn token_shares(ts: Seq<WhitelistedToken>, exchange: Seq<char>, pool_id: u64) -> Option<
    Balance,
> {
    if exists|i: int| 0 <= i < ts.len() && has_key(#[trigger] ts[i], exchange, pool_id) {
        Some(ts[choose|i: int| 0 <= i < ts.len() && has_key(#[trigger] ts[i], exchange, pool_id)].shares)
    } else {
        None
    }
}

/// What a claim at `now` by `account` takes from lockup `l`: its unclaimed balance if `account`
/// is its beneficiary, else nothing.
pub open spec fn claim_delta(l: Lockup, account: Seq<char>, now: int) -> int {
    if l.account_id@ == account {
        unclaimed_at(l, now)
    } else {
        0
    }
}

/// The sum of a sequence of balances.
pub open spec fn sum_of(s: Seq<Balance>) -> int
    decreases s.len(),
{
    if s.len() == 0 {
        0
    } else {
        sum_of(s.drop_last()) + s.last()
    }
}

/// `l` with claimed balance `c`.
pub open spec fn with_claimed(l: Lockup, c: Balance) -> Lockup {
    Lockup { claimed_balance: c, ..l }
}

/// What a claim takes from each lockup.
pub open spec fn claim_deltas(ls: Seq<Lockup>, account: Seq<char>, now: int) -> Seq<Balance> {
    Seq::new(ls.len(), |i: int| claim_delta(ls[i], account, now) as Balance)
}

/// The lockups after a claim has added `deltas` to their claimed balances.
pub open spec fn apply_claim(ls: Seq<Lockup>, deltas: Seq<Balance>) -> Seq<Lockup> {
    Seq::new(
        ls.len(),
        |i: int|
            if i < deltas.len() {
                with_claimed(ls[i], (ls[i].claimed_balance + deltas[i]) as Balance)
            } else {
                ls[i]
            },
    )
}

/// The lockups after a failed transfer gave `deltas` back: each lockup's claimed balance goes
/// down by its delta, where it has that much.
pub open spec fn rollback_claim(ls: Seq<Lockup>, deltas: Seq<Balance>) -> Seq<Lockup> {
    Seq::new(
        ls.len(),
        |i: int|
            if i < deltas.len() && ls[i].claimed_balance >= deltas[i] {
                with_claimed(ls[i], (ls[i].claimed_balance - deltas[i]) as Balance)
            } else {
                ls[i]
            },
    )
}

/// Why terminating lockup `index` for `caller` at `now` is refused, or the refund it owes.
pub open spec fn termination_outcome(
    ls: Seq<Lockup>,
    caller: Seq<char>,
    index: int,
    revealed: Option<Schedule>,
    now: int,
) -> Result<int, LockupError> {
    if index >= ls.len() {
        Err(LockupError::LockupNotFound)
    } else {
        match ls[index].termination_config {
            None => Err(LockupError::NoTerminationConfig),
            Some(tc) => if tc.terminator_id@ != caller {
                Err(LockupError::Unauthorized)
            } else {
                termination_refund(ls[index], revealed, now)
            },
        }
    }
}

proof fn lemma_sum_of_prefix(s: Seq<Balance>, i: int)
    requires
        0 <= i <= s.len(),
    ensures
        0 <= sum_of(s.take(i)) <= sum_of(s),
    decreases s.len() - i,
{
    if i < s.len() {
        lemma_sum_of_prefix(s, i + 1);
        assert(s.take(i + 1).drop_last() =~= s.take(i));
        assert(s.take(i + 1).last() == s[i]);
        lemma_sum_nonneg(s.take(i));
    } else {
        assert(s.take(i) =~= s);
        lemma_sum_nonneg(s);
    }
}

proof fn lemma_sum_nonneg(s: Seq<Balance>)
    ensures
        0 <= sum_of(s),
    decreases s.len(),
{
    if s.len() > 0 {
        lemma_sum_nonneg(s.drop_last());
    }
}

/// A failed transfer gives back exactly what the claim took: rolling back the claim's deltas
/// restores every lockup as it was before the claim.
pub proof fn lemma_rollback_restores(ls: Seq<Lockup>, account: Seq<char>, now: int)
    requires
        forall|i: int| 0 <= i < ls.len() ==> (#[trigger] ls[i]).wf(),
    ensures
        rollback_claim(apply_claim(ls, claim_deltas(ls, account, now)), claim_deltas(ls, account, now))
            == ls,
{
    let d = claim_deltas(ls, account, now);
    let after = apply_claim(ls, d);
    let back = rollback_claim(after, d);
    assert forall|i: int| 0 <= i < ls.len() implies back[i] == ls[i] by {
        let l = ls[i];
        crate::schedule::lemma_unlocked_at_most_total(l.schedule@, now);
        assert(l.claimed_balance + d[i] <= total_of(l.schedule@));
    }
    assert(back =~= ls);
}

/// In every state the engine keeps (each of its operations preserves `wf`), no lockup has
/// claimed more than its schedule's total, and no more incentive tokens are committed than were
/// deposited.
pub proof fn lemma_engine_balances(c: Contract, i: int)
    requires
        c.wf(),
        0 <= i < c.lockups@.len(),
    ensures
        c.lockups@[i].claimed_balance <= total_of(c.lockups@[i].schedule@),
        c.incent_locked_amount <= c.incent_total_amount,
{
    assert(c.lockups@[i].wf());
}

impl Contract {
    /// The engine's invariant: every lockup is well formed, the incentive pool is not
    /// over-committed, and each (exchange, pool) pair is listed once.
    pub open spec fn wf(&self) -> bool {
        &&& forall|i: int| 0 <= i < self.lockups@.len() ==> (#[trigger] self.lockups@[i]).wf()
        &&& self.incent_locked_amount <= self.incent_total_amount
        &&& keys_unique(self.whitelisted_tokens@)
        &&& accounts_unique(self.deposit_whitelist@)
    }

    /// A new engine for `token_account_id`, administered by the accounts of `deposit_whitelist`.
    pub fn new(token_account_id: String, deposit_whitelist: Vec<String>) -> (r: Contract)
        ensures
            r.wf(),
            r.token_account_id == token_account_id,
            r.lockups@.len() == 0,
            r.deposit_whitelist@ == first_occurrences(deposit_whitelist@),
            r.whitelisted_tokens@.len() == 0,
            r.incent_total_amount == 0,
            r.incent_locked_amount == 0,
            r.enabled,
    {
        let mut accounts: Vec<String> = Vec::new();
        let mut i: usize = 0;
        while i < deposit_whitelist.len()
            invariant
                i <= deposit_whitelist@.len(),
                accounts@ == first_occurrences(deposit_whitelist@.take(i as int)),
            decreases deposit_whitelist@.len() - i,
        {
            let account = &deposit_whitelist[i];
            proof {
                let t = deposit_whitelist@.take(i as int + 1);
                assert(t.drop_last() =~= deposit_whitelist@.take(i as int));
                assert(t.last() == deposit_whitelist@[i as int]);
            }
            if !Self::list_contains(&accounts, account) {
                accounts.push(account.clone());
            }
            i = i + 1;
        }
        assert(deposit_whitelist@.take(i as int) =~= deposit_whitelist@);
        proof {
            lemma_first_occurrences_unique(deposit_whitelist@);
        }
        Contract {
            token_account_id,
            lockups: Vec::new(),
            deposit_whitelist: accounts,
            whitelisted_tokens: Vec::new(),
            incent_total_amount: 0,
            incent_locked_amount: 0,
            enabled: true,
        }
    }

    fn list_contains(list: &Vec<String>, account: &String) -> (r: bool)
        ensures
            r == contains_account(list@, account@),
    {
        let mut i: usize = 0;
        while i < list.len()
            invariant
                i <= list@.len(),
                forall|k: int| 0 <= k < i ==> (#[trigger] list@[k])@ != account@,
            decreases list@.len() - i,
        {
            if list[i] == *account {
                return true;
            }
            i = i + 1;
        }
        false
    }

    /// Whether `account` may deposit lockups and administer the engine.
    pub fn is_deposit_whitelisted(&self, account: &String) -> (r: bool)
        ensures
            r == contains_account(self.deposit_whitelist@, account@),
    {
        Self::list_contains(&self.deposit_whitelist, account)
    }

    /// Appends a lockup and returns its index.
    pub fn internal_add_lockup(&mut self, lockup: Lockup) -> (r: LockupIndex)
        requires
            old(self).wf(),
            lockup.wf(),
        ensures
            final(self).wf(),
            r == old(self).lockups@.len(),
            final(self).lockups@ == old(self).lockups@.push(lockup),
            final(self).token_account_id == old(self).token_account_id,
            final(self).deposit_whitelist == old(self).deposit_whitelist,
            final(self).whitelisted_tokens == old(self).whitelisted_tokens,
            final(self).incent_total_amount == old(self).incent_total_amount,
            final(self).incent_locked_amount == old(self).incent_locked_amount,
            final(self).enabled == old(self).enabled,
    {
        let index = self.lockups.len() as LockupIndex;
        self.lockups.push(lockup);
        proof {
            let ls = self.lockups@;
            assert forall|i: int| 0 <= i < ls.len() implies (#[trigger] ls[i]).wf() by {
                if i < ls.len() - 1 {
                    assert(ls[i] == old(self).lockups@[i]);
                }
            }
        }
        index
    }

    /// Starts a claim by `account` at `now`: every lockup of `account` has its unclaimed
    /// balance added to its claimed balance, and the sum is the amount to transfer. Where that
    /// sum would not fit in a balance nothing is claimed.
    pub fn claim(&mut self, account: &String, now: TimestampSec) -> (r: ClaimPlan)
        requires
            old(self).wf(),
        ensures
            final(self).wf(),
            sum_of(r.deltas@) == r.amount,
            ({
                let d = claim_deltas(old(self).lockups@, account@, now as int);
                if sum_of(d) <= u128::MAX {
                    &&& r.deltas@ == d
                    &&& final(self).lockups@ == apply_claim(old(self).lockups@, d)
                } else {
                    &&& r.deltas@.len() == 0
                    &&& final(self).lockups@ == old(self).lockups@
                }
            }),
            final(self).token_account_id == old(self).token_account_id,
            final(self).deposit_whitelist == old(self).deposit_whitelist,
            final(self).whitelisted_tokens == old(self).whitelisted_tokens,
            final(self).incent_total_amount == old(self).incent_total_amount,
            final(self).incent_locked_amount == old(self).incent_locked_amount,
            final(self).enabled == old(self).enabled,
    {
        let n = self.lockups.len();
        let ghost d = claim_deltas(self.lockups@, account@, now as int);
        let mut deltas: Vec<Balance> = Vec::new();
        let mut total: Balance = 0;
        let mut i: usize = 0;
        while i < n
            invariant
                self.wf(),
                n == self.lockups@.len(),
                i <= n,
                d == claim_deltas(self.lockups@, account@, now as int),
                deltas@ == d.take(i as int),
                total == sum_of(d.take(i as int)),
            decreases n - i,
        {
            let l = &self.lockups[i];
            let delta = if l.account_id == *account {
                l.unclaimed_balance(now)
            } else {
                0
            };
            proof {
                assert(d.take(i as int + 1).drop_last() =~= d.take(i as int));
                assert(d[i as int] == delta);
            }
            match total.checked_add(delta) {
                Some(t) => {
                    total = t;
                },
                None => {
                    proof {
                        lemma_sum_of_prefix(d, i as int + 1);
                    }
                    return ClaimPlan { amount: 0, deltas: Vec::new() };
                },
            }
            deltas.push(delta);
            i = i + 1;
            assert(deltas@ =~= d.take(i as int));
        }
        assert(d.take(n as int) =~= d);
        let mut j: usize = 0;
        while j < n
            invariant
                n == self.lockups@.len(),
                n == d.len(),
                j <= n,
                deltas@ == d,
                d == claim_deltas(old(self).lockups@, account@, now as int),
                forall|k: int| 0 <= k < n ==> (#[trigger] old(self).lockups@[k]).wf(),
                forall|k: int|
                    0 <= k < n ==> #[trigger] self.lockups@[k] == if k < j {
                        apply_claim(old(self).lockups@, d)[k]
                    } else {
                        old(self).lockups@[k]
                    },
                self.token_account_id == old(self).token_account_id,
                self.deposit_whitelist == old(self).deposit_whitelist,
                self.whitelisted_tokens == old(self).whitelisted_tokens,
                self.incent_total_amount == old(self).incent_total_amount,
                self.incent_locked_amount == old(self).incent_locked_amount,
                self.enabled == old(self).enabled,
            decreases n - j,
        {
            let delta = deltas[j];
            proof {
                let l = old(self).lockups@[j as int];
                crate::schedule::lemma_unlocked_at_most_total(l.schedule@, now as int);
            }
            let claimed = self.lockups[j].claimed_balance;
            self.lockups[j].claimed_balance = claimed + delta;
            j = j + 1;
        }
        proof {
            assert(self.lockups@ =~= apply_claim(old(self).lockups@, d));
            assert forall|k: int| 0 <= k < n implies (#[trigger] self.lockups@[k]).wf() by {
                let l = old(self).lockups@[k];
                crate::schedule::lemma_unlocked_at_most_total(l.schedule@, now as int);
            }
        }
        ClaimPlan { amount: total, deltas }
    }

    /// Completes a claim once the transfer is done: a successful transfer keeps the claim and
    /// returns its amount; a failed one gives each lockup back its delta and returns 0.
    pub fn after_claim(&mut self, plan: &ClaimPlan, transfer_succeeded: bool) -> (r: Balance)
        requires
            old(self).wf(),
        ensures
            final(self).wf(),
            transfer_succeeded ==> r == plan.amount && final(self).lockups@ == old(self).lockups@,
            !transfer_succeeded ==> r == 0 && final(self).lockups@ == rollback_claim(
                old(self).lockups@,
                plan.deltas@,
            ),
            final(self).token_account_id == old(self).token_account_id,
            final(self).deposit_whitelist == old(self).deposit_whitelist,
            final(self).whitelisted_tokens == old(self).whitelisted_tokens,
            final(self).incent_total_amount == old(self).incent_total_amount,
            final(self).incent_locked_amount == old(self).incent_locked_amount,
            final(self).enabled == old(self).enabled,
    {
        if transfer_succeeded {
            return plan.amount;
        }
        let n = self.lockups.len();
        let ghost target = rollback_claim(old(self).lockups@, plan.deltas@);
        let mut j: usize = 0;
        while j < n
            invariant
                n == self.lockups@.len(),
                n == old(self).lockups@.len(),
                j <= n,
                target == rollback_claim(old(self).lockups@, plan.deltas@),
                forall|k: int| 0 <= k < n ==> (#[trigger] old(self).lockups@[k]).wf(),
                forall|k: int|
                    0 <= k < n ==> #[trigger] self.lockups@[k] == if k < j {
                        target[k]
                    } else {
                        old(self).lockups@[k]
                    },
                self.token_account_id == old(self).token_account_id,
                self.deposit_whitelist == old(self).deposit_whitelist,
                self.whitelisted_tokens == old(self).whitelisted_tokens,
                self.incent_total_amount == old(self).incent_total_amount,
                self.incent_locked_amount == old(self).incent_locked_amount,
                self.enabled == old(self).enabled,
            decreases n - j,
        {
            if j < plan.deltas.len() {
                let delta = plan.deltas[j];
                let claimed = self.lockups[j].claimed_balance;
                if claimed >= delta {
                    self.lockups[j].claimed_balance = claimed - delta;
                }
            }
            assert(self.lockups@[j as int] == target[j as int]);
            j = j + 1;
        }
        proof {
            assert(self.lockups@ =~= target);
        }
        0
    }

    /// Terminates lockup `lockup_index` on behalf of `caller` at `now` and returns the refund
    /// owed to the terminator. The lockup changes as `Lockup::terminate` says; on refusal
    /// nothing changes.
    pub fn terminate(
        &mut self,
        caller: &String,
        lockup_index: LockupIndex,
        revealed: Option<Schedule>,
        now: TimestampSec,
    ) -> (r: Result<Balance, LockupError>)
        requires
            old(self).wf(),
        ensures
            final(self).wf(),
            match r {
                Ok(refund) => {
                    let i = lockup_index as int;
                    let before = old(self).lockups@[i];
                    let after = final(self).lockups@[i];
                    &&& termination_outcome(
                        old(self).lockups@,
                        caller@,
                        i,
                        revealed,
                        now as int,
                    ) == Ok::<int, LockupError>(refund as int)
                    &&& final(self).lockups@.len() == old(self).lockups@.len()
                    &&& forall|k: int|
                        0 <= k < old(self).lockups@.len() && k != i ==> #[trigger] final(self).lockups@[k] == old(self).lockups@[k]
                    &&& after.account_id == before.account_id
                    &&& after.claimed_balance == before.claimed_balance
                    &&& after.termination_config is None
                    &&& refund == 0 ==> after.schedule@ == before.schedule@
                    &&& refund > 0 ==> is_termination_split(
                        before.schedule@,
                        after.schedule@,
                        now as int,
                        unlocked_at(before.schedule@, now as int),
                        total_of(before.schedule@) - refund,
                    )
                },
                Err(e) => {
                    &&& termination_outcome(
                        old(self).lockups@,
                        caller@,
                        lockup_index as int,
                        revealed,
                        now as int,
                    ) == Err::<int, LockupError>(e)
                    &&& final(self).lockups@ == old(self).lockups@
                },
            },
            final(self).token_account_id == old(self).token_account_id,
            final(self).deposit_whitelist == old(self).deposit_whitelist,
            final(self).whitelisted_tokens == old(self).whitelisted_tokens,
            final(self).incent_total_amount == old(self).incent_total_amount,
            final(self).incent_locked_amount == old(self).incent_locked_amount,
            final(self).enabled == old(self).enabled,
    {
        if lockup_index >= self.lockups.len() as u64 {
            return Err(LockupError::LockupNotFound);
        }
        let i = lockup_index as usize;
        match &self.lockups[i].termination_config {
            None => {
                return Err(LockupError::NoTerminationConfig);
            },
            Some(tc) => {
                if tc.terminator_id != *caller {
                    return Err(LockupError::Unauthorized);
                }
            },
        }
        let result = self.lockups[i].terminate(revealed, now);
        proof {
            let ls = self.lockups@;
            assert forall|k: int| 0 <= k < ls.len() implies (#[trigger] ls[k]).wf() by {
                if k != i {
                    assert(ls[k] == old(self).lockups@[k]);
                }
            }
            if result is Err {
                assert(self.lockups@ =~= old(self).lockups@);
            }
        }
        result
    }

    /// Completes a termination once the refund transfer is done. A failed transfer (the
    /// terminator cannot hold the token yet) opens a lockup for the terminator that has released
    /// the whole refund by `now`, and returns 0; a successful one returns the refund.
    pub fn after_lockup_termination(
        &mut self,
        terminator_id: String,
        refund: Balance,
        transfer_succeeded: bool,
        now: TimestampSec,
    ) -> (r: Balance)
        requires
            old(self).wf(),
        ensures
            final(self).wf(),
            transfer_succeeded ==> r == refund && final(self).lockups@ == old(self).lockups@,
            !transfer_succeeded ==> {
                let l = final(self).lockups@.last();
                &&& r == 0
                &&& final(self).lockups@.len() == old(self).lockups@.len() + 1
                &&& final(self).lockups@.drop_last() == old(self).lockups@
                &&& l.account_id == terminator_id
                &&& l.claimed_balance == 0
                &&& l.termination_config is None
                &&& total_of(l.schedule@) == refund
                &&& now > 0 ==> unlocked_at(l.schedule@, now as int) == refund
            },
            final(self).token_account_id == old(self).token_account_id,
            final(self).deposit_whitelist == old(self).deposit_whitelist,
            final(self).whitelisted_tokens == old(self).whitelisted_tokens,
            final(self).incent_total_amount == old(self).incent_total_amount,
            final(self).incent_locked_amount == old(self).incent_locked_amount,
            final(self).enabled == old(self).enabled,
    {
        if transfer_succeeded {
            return refund;
        }
        let lockup = Lockup {
            account_id: terminator_id,
            schedule: Schedule::new_unlocked_since(refund, now),
            claimed_balance: 0,
            termination_config: None,
        };
        self.internal_add_lockup(lockup);
        assert(self.lockups@.drop_last() =~= old(self).lockups@);
        0
    }

    /// Accepts `amount` tokens sent by `sender_id` through the ledger `predecessor_id`: they fund
    /// the incentive pool or open the lockup that `msg` carries. Returns the unused amount,
    /// which is 0.
    pub fn ft_on_transfer(
        &mut self,
        predecessor_id: &String,
        sender_id: &String,
        amount: Balance,
        msg: DepositMessage,
    ) -> (r: Result<Balance, LockupError>)
        requires
            old(self).wf(),
        ensures
            final(self).wf(),
            predecessor_id@ != old(self).token_account_id@ ==> r == Err::<Balance, LockupError>(
                LockupError::InvalidToken,
            ),
            predecessor_id@ == old(self).token_account_id@ && !contains_account(
                old(self).deposit_whitelist@,
                sender_id@,
            ) ==> r == Err::<Balance, LockupError>(LockupError::Unauthorized),
            r is Ok ==> r->Ok_0 == 0 && predecessor_id@ == old(self).token_account_id@
                && contains_account(old(self).deposit_whitelist@, sender_id@),
            r is Err ==> final(self).lockups@ == old(self).lockups@ && final(self).incent_total_amount
                == old(self).incent_total_amount,
            predecessor_id@ == old(self).token_account_id@ && contains_account(
                old(self).deposit_whitelist@,
                sender_id@,
            ) ==> match msg {
                DepositMessage::ForIncent => {
                    &&& r is Ok <==> old(self).incent_total_amount + amount <= u128::MAX
                    &&& r is Err ==> r == Err::<Balance, LockupError>(LockupError::BalanceOverflow)
                    &&& r is Ok ==> final(self).incent_total_amount == old(self).incent_total_amount + amount
                    &&& final(self).lockups@ == old(self).lockups@
                },
                DepositMessage::NewLockup(l) => {
                    &&& r is Ok <==> (l.claimed_balance == 0 && l.wf() && total_of(l.schedule@)
                        == amount)
                    &&& r is Err ==> r == Err::<Balance, LockupError>(
                        new_lockup_check(l, amount as int)->Err_0,
                    )
                    &&& r is Ok ==> final(self).lockups@ == old(self).lockups@.push(l)
                    &&& final(self).incent_total_amount == old(self).incent_total_amount
                },
            },
            final(self).token_account_id == old(self).token_account_id,
            final(self).deposit_whitelist == old(self).deposit_whitelist,
            final(self).whitelisted_tokens == old(self).whitelisted_tokens,
            final(self).incent_locked_amount == old(self).incent_locked_amount,
            final(self).enabled == old(self).enabled,
    {
        if *predecessor_id != self.token_account_id {
            return Err(LockupError::InvalidToken);
        }
        if !self.is_deposit_whitelisted(sender_id) {
            return Err(LockupError::Unauthorized);
        }
        match msg {
            DepositMessage::ForIncent => {
                match self.incent_total_amount.checked_add(amount) {
                    Some(t) => {
                        self.incent_total_amount = t;
                        Ok(0)
                    },
                    None => Err(LockupError::BalanceOverflow),
                }
            },
            DepositMessage::NewLockup(lockup) => {
                match lockup.validate_new(amount) {
                    Err(e) => Err(e),
                    Ok(()) => {
                        self.internal_add_lockup(lockup);
                        Ok(0)
                    },
                }
            },
        }
    }
}

} // verus!
