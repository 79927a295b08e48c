use crate::contract::{token_shares, Contract, LockupIndex};
use crate::error::LockupError;
use crate::hash::schedule_hash;
use crate::lockup::{unclaimed_at, Lockup, LockupView};
use crate::schedule::{is_compatible, total_of, validation_of, Balance, Schedule, TimestampSec};
use vstd::prelude::*;

verus! {

/// `v` shows lockup `l` with index `index` at `now`.
pub open spec fn shows(v: LockupView, l: Lockup, index: int, now: int) -> bool {
    &&& v.index == index
    &&& v.account_id@ == l.account_id@
    &&& v.total_balance == total_of(l.schedule@)
    &&& v.claimed_balance == l.claimed_balance
    &&& v.unclaimed_balance == unclaimed_at(l, now)
    &&& v.timestamp == now
}

/// A lockup that still belongs to `account`: its beneficiary, and not yet claimed in full.
pub open spec fn is_active_for(l: Lockup, account: Seq<char>) -> bool {
    l.account_id@ == account && l.claimed_balance < total_of(l.schedule@)
}

/// What `validate_schedule` answers: the schedule's own validation, then the vesting
/// schedule's against the same total, then rule V.
pub open spec fn schedule_check(
    schedule: Seq<crate::schedule::Checkpoint>,
    total: int,
    vesting: Option<Seq<crate::schedule::Checkpoint>>,
) -> Result<(), LockupError> {
    if validation_of(schedule, total) is Err {
        validation_of(schedule, total)
    } else {
        match vesting {
            None => Ok(()),
            Some(v) => if validation_of(v, total) is Err {
                validation_of(v, total)
            } else if !is_compatible(schedule, v) {
                Err(LockupError::IncompatibleVesting)
            } else {
                Ok(())
            },
        }
    }
}

impl Contract {
    /// The lockup with index `index` as seen at `now`, if there is one.
    pub fn get_lockup(&self, index: LockupIndex, now: TimestampSec) -> (r: Option<LockupView>)
        requires
            self.wf(),
        ensures
            r is Some <==> index < self.lockups@.len(),
            r is Some ==> shows(r->0, self.lockups@[index as int], index as int, now as int),
    {
        if index >= self.lockups.len() as u64 {
            return None;
        }
        Some(self.lockups[index as usize].view_at(index, now))
    }

    /// The lockups that still belong to `account`, in order of index, as seen at `now`.
    pub fn get_account_lockups(&self, account: &String, now: TimestampSec) -> (r: Vec<
        (LockupIndex, LockupView),
    >)
        requires
            self.wf(),
        ensures
            forall|k: int|
                0 <= k < r@.len() ==> {
                    let (i, v) = #[trigger] r@[k];
                    &&& i < self.lockups@.len()
                    &&& is_active_for(self.lockups@[i as int], account@)
                    &&& shows(v, self.lockups@[i as int], i as int, now as int)
                },
            forall|a: int, b: int| 0 <= a < b < r@.len() ==> (#[trigger] r@[a]).0 < (#[trigger] r@[b]).0,
            forall|i: int|
                0 <= i < self.lockups@.len() && is_active_for(#[trigger] self.lockups@[i], account@)
                    ==> exists|k: int| 0 <= k < r@.len() && r@[k].0 == i,
    {
        let mut out: Vec<(LockupIndex, LockupView)> = Vec::new();
        let mut i: usize = 0;
        while i < self.lockups.len()
            invariant
                self.wf(),
                i <= self.lockups@.len(),
                forall|k: int|
                    0 <= k < out@.len() ==> {
                        let (j, v) = #[trigger] out@[k];
                        &&& j < i
                        &&& is_active_for(self.lockups@[j as int], account@)
                        &&& shows(v, self.lockups@[j as int], j as int, now as int)
                    },
                forall|a: int, b: int|
                    0 <= a < b < out@.len() ==> (#[trigger] out@[a]).0 < (#[trigger] out@[b]).0,
                forall|j: int|
                    0 <= j < i && is_active_for(#[trigger] self.lockups@[j], account@) ==> exists|
                        k: int,
                    | 0 <= k < out@.len() && out@[k].0 == j,
            decreases self.lockups@.len() - i,
        {
            let l = &self.lockups[i];
            let ghost prev = out@;
            if l.account_id == *account && l.claimed_balance < l.total_balance() {
                out.push((i as LockupIndex, l.view_at(i as LockupIndex, now)));
            }
            proof {
                assert forall|j: int|
                    0 <= j < i + 1 && is_active_for(#[trigger] self.lockups@[j], account@) implies exists|
                        k: int,
                    | 0 <= k < out@.len() && out@[k].0 == j by {
                    if j == i {
                        assert(out@[out@.len() - 1].0 == j);
                    } else {
                        let k = choose|k: int| 0 <= k < prev.len() && prev[k].0 == j;
                        assert(out@[k] == prev[k]);
                    }
                }
            }
            i = i + 1;
        }
        out
    }

    /// The LP shares held for `exchange` and `pool_id`, if that pair is whitelisted.
    pub fn get_shares(&self, exchange: &String, pool_id: u64) -> (r: Option<Balance>)
        requires
            self.wf(),
        ensures
            r == token_shares(self.whitelisted_tokens@, exchange@, pool_id),
    {
        match self.find_token(exchange, pool_id) {
            Some(i) => Some(self.whitelisted_tokens[i].shares),
            None => None,
        }
    }

    /// How many lockups were ever created.
    pub fn get_num_lockups(&self) -> (r: u64)
        ensures
            r == self.lockups@.len(),
    {
        self.lockups.len() as u64
    }

    /// The accounts of the deposit whitelist, in order of addition.
    pub fn get_deposit_whitelist(&self) -> (r: Vec<String>)
        ensures
            r@ == self.deposit_whitelist@,
    {
        let mut out: Vec<String> = Vec::new();
        let mut i: usize = 0;
        while i < self.deposit_whitelist.len()
            invariant
                i <= self.deposit_whitelist@.len(),
                out@ == self.deposit_whitelist@.take(i as int),
            decreases self.deposit_whitelist@.len() - i,
        {
            out.push(self.deposit_whitelist[i].clone());
            i = i + 1;
            assert(out@ =~= self.deposit_whitelist@.take(i as int));
        }
        assert(self.deposit_whitelist@.take(i as int) =~= self.deposit_whitelist@);
        out
    }

    /// The commitment to `schedule` that a hashed vesting schedule stores.
    pub fn hash_schedule(&self, schedule: &Schedule) -> (r: Vec<u8>)
        ensures
            r@ == schedule_hash(schedule@),
    {
        schedule.hash()
    }

    /// Checks a lockup schedule against its total and, when given, a vesting schedule against
    /// the same total and rule V.
    pub fn validate_schedule(
        &self,
        schedule: &Schedule,
        total_balance: Balance,
        termination_schedule: Option<&Schedule>,
    ) -> (r: Result<(), LockupError>)
        ensures
            r == schedule_check(
                schedule@,
                total_balance as int,
                match termination_schedule {
                    Some(v) => Some(v@),
                    None => None,
                },
            ),
    {
        let checked = schedule.validate(total_balance);
        if checked.is_err() {
            return checked;
        }
        match termination_schedule {
            None => Ok(()),
            Some(v) => {
                let vesting_checked = v.validate(total_balance);
                if vesting_checked.is_err() {
                    return vesting_checked;
                }
                if !schedule.is_compatible_with(v) {
                    Err(LockupError::IncompatibleVesting)
                } else {
                    Ok(())
                }
            },
        }
    }
}

} // verus!
