use crate::error::LockupError;
use crate::hash::schedule_hash;
use crate::schedule::{
    is_compatible, is_termination_split, is_valid, lemma_unlocked_at_most_total, total_of,
    unlocked_at, validation_of, Balance, Checkpoint, Schedule, TimestampSec,
};
use vstd::prelude::*;

verus! {

/// How the vesting curve of a terminable lockup is given: as a commitment to be revealed at
/// termination, or in the open.
#[derive(Debug)]
pub enum HashOrSchedule {
    Hash(Vec<u8>),
    Schedule(Schedule),
}

/// Who may terminate a lockup early, and against which vesting curve.
#[derive(Debug)]
pub struct TerminationConfig {
    pub terminator_id: String,
    /// `None` means that the lockup schedule itself is the vesting schedule.
    pub vesting_schedule: Option<HashOrSchedule>,
}

/// One beneficiary's grant.
#[derive(Debug)]
pub struct Lockup {
    pub account_id: String,
    pub schedule: Schedule,
    pub claimed_balance: Balance,
    pub termination_config: Option<TerminationConfig>,
}

/// What a client sees of a lockup at a given time.
#[derive(Debug)]
pub struct LockupView {
    pub index: u64,
    pub account_id: String,
    pub total_balance: Balance,
    pub claimed_balance: Balance,
    pub unclaimed_balance: Balance,
    pub timestamp: TimestampSec,
}

/// A vesting schedule stored in the open is valid, has the lockup's total and obeys rule V.
pub open spec fn open_vesting_ok(schedule: Seq<Checkpoint>, config: Option<TerminationConfig>) -> bool {
    match config {
        Some(tc) => match tc.vesting_schedule {
            Some(HashOrSchedule::Schedule(v)) => {
                &&& is_valid(v@)
                &&& total_of(v@) == total_of(schedule)
                &&& is_compatible(schedule, v@)
            },
            _ => true,
        },
        None => true,
    }
}

/// The outcome of checking a lockup about to be created for `total` tokens: nothing claimed
/// yet, a valid schedule with that total, and an open vesting schedule valid for the same total
/// that obeys rule V.
pub open spec fn new_lockup_check(l: Lockup, total: int) -> Result<(), LockupError> {
    if l.claimed_balance != 0 {
        Err(LockupError::InvalidClaimedBalance)
    } else if validation_of(l.schedule@, total) is Err {
        validation_of(l.schedule@, total)
    } else {
        match l.termination_config {
            Some(tc) => match tc.vesting_schedule {
                Some(HashOrSchedule::Schedule(v)) => if validation_of(v@, total) is Err {
                    validation_of(v@, total)
                } else if !is_compatible(l.schedule@, v@) {
                    Err(LockupError::IncompatibleVesting)
                } else {
                    Ok(())
                },
                _ => Ok(()),
            },
            None => Ok(()),
        }
    }
}

/// The balance released by `now` and not yet claimed (zero if more was claimed).
pub open spec fn unclaimed_at(l: Lockup, now: int) -> int {
    let unlocked = unlocked_at(l.schedule@, now);
    if unlocked >= l.claimed_balance {
        unlocked - l.claimed_balance
    } else {
        0
    }
}

/// The vesting curve a termination of `l` goes by, or why there is none.
pub open spec fn effective_vesting(l: Lockup, revealed: Option<Schedule>) -> Result<
    Seq<Checkpoint>,
    LockupError,
> {
    match l.termination_config {
        None => Err(LockupError::NoTerminationConfig),
        Some(tc) => match tc.vesting_schedule {
            None => Ok(l.schedule@),
            Some(HashOrSchedule::Hash(h)) => match revealed {
                None => Err(LockupError::InvalidRevealedSchedule),
                Some(v) => if schedule_hash(v@) != h@ {
                    Err(LockupError::InvalidRevealedSchedule)
                } else if validation_of(v@, total_of(l.schedule@)) is Err {
                    Err(validation_of(v@, total_of(l.schedule@))->Err_0)
                } else if !is_compatible(l.schedule@, v@) {
                    Err(LockupError::IncompatibleVesting)
                } else {
                    Ok(v@)
                },
            },
            Some(HashOrSchedule::Schedule(v)) => match revealed {
                Some(r) if r@ != v@ => Err(LockupError::InvalidRevealedSchedule),
                _ => if !is_compatible(l.schedule@, v@) {
                    Err(LockupError::IncompatibleVesting)
                } else {
                    Ok(v@)
                },
            },
        },
    }
}

/// What terminating `l` at `now` refunds to the terminator, or why it is refused: the part of
/// the total that has not vested. The vesting curve must cover what was released and claimed.
pub open spec fn termination_refund(l: Lockup, revealed: Option<Schedule>, now: int) -> Result<
    int,
    LockupError,
> {
    match effective_vesting(l, revealed) {
        Err(e) => Err(e),
        Ok(v) => {
            let vested = unlocked_at(v, now);
            if vested < unlocked_at(l.schedule@, now) || vested < l.claimed_balance {
                Err(LockupError::IncompatibleVesting)
            } else {
                Ok(total_of(l.schedule@) - vested)
            }
        },
    }
}

fn bytes_equal(a: &Vec<u8>, b: &Vec<u8>) -> (r: bool)
    ensures
        r == (a@ == b@),
{
    if a.len() != b.len() {
        return false;
    }
    let mut i: usize = 0;
    while i < a.len()
        invariant
            i <= a@.len(),
            a@.len() == b@.len(),
            forall|k: int| 0 <= k < i ==> a@[k] == b@[k],
        decreases a@.len() - i,
    {
        if a[i] != b[i] {
            return false;
        }
        i = i + 1;
    }
    assert(a@ =~= b@);
    true
}

impl Lockup {
    /// The record's invariant: a valid schedule, no more claimed than its total, and an open
    /// vesting schedule that obeys rule V.
    pub open spec fn wf(&self) -> bool {
        &&& is_valid(self.schedule@)
        &&& self.claimed_balance <= total_of(self.schedule@)
        &&& open_vesting_ok(self.schedule@, self.termination_config)
    }

    /// The schedule's total.
    pub fn total_balance(&self) -> (r: Balance)
        requires
            self.wf(),
        ensures
            r == total_of(self.schedule@),
    {
        self.schedule.total_balance()
    }

    /// The balance released by `now` and not yet claimed.
    pub fn unclaimed_balance(&self, now: TimestampSec) -> (r: Balance)
        requires
            self.wf(),
        ensures
            r == unclaimed_at(*self, now as int),
    {
        let unlocked = self.schedule.unlocked_balance(now);
        if unlocked >= self.claimed_balance {
            unlocked - self.claimed_balance
        } else {
            0
        }
    }

    /// What a client sees of the lockup at `now`.
    pub fn view_at(&self, index: u64, now: TimestampSec) -> (r: LockupView)
        requires
            self.wf(),
        ensures
            r.index == index,
            r.account_id@ == self.account_id@,
            r.total_balance == total_of(self.schedule@),
            r.claimed_balance == self.claimed_balance,
            r.unclaimed_balance == unclaimed_at(*self, now as int),
            r.timestamp == now,
    {
        LockupView {
            index,
            account_id: self.account_id.clone(),
            total_balance: self.total_balance(),
            claimed_balance: self.claimed_balance,
            unclaimed_balance: self.unclaimed_balance(now),
            timestamp: now,
        }
    }

    /// Checks a lockup that is about to be created for `total_balance` tokens: nothing claimed
    /// yet, a valid schedule with that total, and an open vesting schedule that is valid for the
    /// same total and obeys rule V.
    pub fn validate_new(&self, total_balance: Balance) -> (r: Result<(), LockupError>)
        ensures
            r == new_lockup_check(*self, total_balance as int),
            r is Ok <==> (self.claimed_balance == 0 && self.wf() && total_of(self.schedule@)
                == total_balance),
    {
        if self.claimed_balance != 0 {
            return Err(LockupError::InvalidClaimedBalance);
        }
        let checked = self.schedule.validate(total_balance);
        if checked.is_err() {
            return checked;
        }
        match &self.termination_config {
            Some(tc) => match &tc.vesting_schedule {
                Some(HashOrSchedule::Schedule(v)) => {
                    let vesting_checked = v.validate(total_balance);
                    if vesting_checked.is_err() {
                        return vesting_checked;
                    }
                    if !self.schedule.is_compatible_with(v) {
                        return Err(LockupError::IncompatibleVesting);
                    }
                },
                _ => {},
            },
            None => {},
        }
        Ok(())
    }

    /// The vesting curve a termination goes by, checked against the revealed schedule.
    fn resolve_vesting(&self, revealed: &Option<Schedule>) -> (r: Result<Schedule, LockupError>)
        requires
            self.wf(),
        ensures
            match r {
                Ok(v) => effective_vesting(*self, *revealed) == Ok::<Seq<Checkpoint>, LockupError>(
                    v@,
                ),
                Err(e) => effective_vesting(*self, *revealed) == Err::<Seq<Checkpoint>, LockupError>(e),
            },
    {
        match &self.termination_config {
            None => Err(LockupError::NoTerminationConfig),
            Some(tc) => match &tc.vesting_schedule {
                None => Ok(self.schedule.duplicate()),
                Some(HashOrSchedule::Hash(h)) => match revealed {
                    None => Err(LockupError::InvalidRevealedSchedule),
                    Some(v) => {
                        let digest = v.hash();
                        if !bytes_equal(&digest, h) {
                            return Err(LockupError::InvalidRevealedSchedule);
                        }
                        let checked = v.validate(self.schedule.total_balance());
                        match checked {
                            Err(e) => Err(e),
                            Ok(()) => {
                                if !self.schedule.is_compatible_with(v) {
                                    Err(LockupError::IncompatibleVesting)
                                } else {
                                    Ok(v.duplicate())
                                }
                            },
                        }
                    },
                },
                Some(HashOrSchedule::Schedule(v)) => {
                    match revealed {
                        Some(r) => {
                            if !r.same_as(v) {
                                return Err(LockupError::InvalidRevealedSchedule);
                            }
                        },
                        None => {},
                    }
                    if !self.schedule.is_compatible_with(v) {
                        Err(LockupError::IncompatibleVesting)
                    } else {
                        Ok(v.duplicate())
                    }
                },
            },
        }
    }

    /// Terminates the lockup at `now`: the lockup keeps what has vested by then, its schedule
    /// cut down to that total, loses its termination config, and the unvested rest is returned
    /// as the refund owed to the terminator. Refused, with the lockup unchanged, as
    /// `termination_refund` says.
    pub fn terminate(&mut self, revealed: Option<Schedule>, now: TimestampSec) -> (r: Result<
        Balance,
        LockupError,
    >)
        requires
            old(self).wf(),
        ensures
            final(self).wf(),
            match r {
                Ok(refund) => {
                    &&& termination_refund(*old(self), revealed, now as int) == Ok::<
                        int,
                        LockupError,
                    >(refund as int)
                    &&& final(self).account_id == old(self).account_id
                    &&& final(self).claimed_balance == old(self).claimed_balance
                    &&& final(self).termination_config is None
                    &&& refund == 0 ==> final(self).schedule@ == old(self).schedule@
                    &&& refund > 0 ==> is_termination_split(
                        old(self).schedule@,
                        final(self).schedule@,
                        now as int,
                        unlocked_at(old(self).schedule@, now as int),
                        total_of(old(self).schedule@) - refund,
                    )
                },
                Err(e) => {
                    &&& termination_refund(*old(self), revealed, now as int) == Err::<
                        int,
                        LockupError,
                    >(e)
                    &&& *final(self) == *old(self)
                },
            },
    {
        let vesting = match self.resolve_vesting(&revealed) {
            Ok(v) => v,
            Err(e) => return Err(e),
        };
        proof {
            let v = vesting@;
            assert(is_valid(v) && total_of(v) == total_of(self.schedule@));
        }
        let vested = vesting.unlocked_balance(now);
        let unlocked = self.schedule.unlocked_balance(now);
        if vested < unlocked || vested < self.claimed_balance {
            return Err(LockupError::IncompatibleVesting);
        }
        proof {
            lemma_unlocked_at_most_total(vesting@, now as int);
        }
        let total = self.schedule.total_balance();
        let refund = total - vested;
        if refund > 0 {
            self.schedule = self.schedule.terminate_at(now, unlocked, vested);
        }
        self.termination_config = None;
        Ok(refund)
    }
}

} // verus!
