use crate::arith::{mul_div, u256_bound};
use crate::error::LockupError;
use vstd::arithmetic::div_mod::{lemma_div_is_ordered, lemma_div_multiples_vanish};
use vstd::arithmetic::mul::{lemma_mul_inequality, lemma_mul_is_commutative};
use vstd::prelude::*;

verus! {

/// Seconds since the epoch.
pub type TimestampSec = u32;

/// An amount of the escrowed token.
pub type Balance = u128;

/// "By this time, cumulatively this much has unlocked."
#[derive(Clone, Copy, Debug, PartialEq, Eq, Structural)]
pub struct Checkpoint {
    pub timestamp: TimestampSec,
    pub balance: Balance,
}

/// A piecewise-linear release curve given by its vertices.
#[derive(Clone, Debug)]
pub struct Schedule(pub Vec<Checkpoint>);

impl View for Schedule {
    type V = Seq<Checkpoint>;

    open spec fn view(&self) -> Seq<Checkpoint> {
        self.0@
    }
}

/// Timestamps strictly increase and balances never decrease along the sequence.
pub open spec fn is_ordered(s: Seq<Checkpoint>) -> bool {
    forall|i: int, j: int|
        #![trigger s[i], s[j]]
        0 <= i < j < s.len() ==> s[i].timestamp < s[j].timestamp && s[i].balance <= s[j].balance
}

/// The shape every schedule must have: at least two checkpoints, ordered, starting at zero.
pub open spec fn is_valid(s: Seq<Checkpoint>) -> bool {
    &&& s.len() >= 2
    &&& s[0].balance == 0
    &&& is_ordered(s)
}

/// What the schedule releases in the end: the balance of its last checkpoint.
pub open spec fn total_of(s: Seq<Checkpoint>) -> int {
    if s.len() == 0 {
        0
    } else {
        s.last().balance as int
    }
}

/// The straight line from `a` to `b`, evaluated at `t` and rounded down.
pub open spec fn interpolate(a: Checkpoint, b: Checkpoint, t: int) -> int {
    a.balance + (b.balance - a.balance) * (t - a.timestamp) / (b.timestamp - a.timestamp)
}

/// The balance released by time `t`: nothing before the first checkpoint, the total from the
/// last one on, and the rounded-down line between the two checkpoints around `t` in between.
pub open spec fn unlocked_at(s: Seq<Checkpoint>, t: int) -> int
    decreases s.len(),
{
    if s.len() == 0 {
        0
    } else if t >= s.last().timestamp {
        s.last().balance as int
    } else if s.len() == 1 {
        0
    } else if t >= s[s.len() - 2].timestamp {
        interpolate(s[s.len() - 2], s.last(), t)
    } else {
        unlocked_at(s.drop_last(), t)
    }
}

proof fn lemma_ordered_drop_last(s: Seq<Checkpoint>)
    requires
        is_ordered(s),
        s.len() >= 1,
    ensures
        is_ordered(s.drop_last()),
{
    let d = s.drop_last();
    assert forall|i: int, j: int| #![trigger d[i], d[j]]
        0 <= i < j < d.len() implies d[i].timestamp < d[j].timestamp && d[i].balance
        <= d[j].balance by {
        assert(d[i] == s[i] && d[j] == s[j]);
    }
}

/// On a segment the rounded line stays between the balances of its two ends and grows with time.
proof fn lemma_interpolate_bounds(a: Checkpoint, b: Checkpoint, t1: int, t2: int)
    requires
        a.timestamp < b.timestamp,
        a.balance <= b.balance,
        a.timestamp <= t1 <= t2 <= b.timestamp,
    ensures
        a.balance <= interpolate(a, b, t1) <= interpolate(a, b, t2) <= b.balance,
{
    let db = b.balance - a.balance;
    let dt = b.timestamp - a.timestamp;
    let p1 = t1 - a.timestamp;
    let p2 = t2 - a.timestamp;
    lemma_mul_inequality(p1, p2, db);
    lemma_mul_inequality(p2, dt, db);
    lemma_mul_is_commutative(p1, db);
    lemma_mul_is_commutative(p2, db);
    lemma_mul_is_commutative(dt, db);
    assert(0 <= db * p1) by (nonlinear_arith)
        requires
            db >= 0,
            p1 >= 0,
    ;
    lemma_div_is_ordered(0, db * p1, dt);
    lemma_div_is_ordered(db * p1, db * p2, dt);
    lemma_div_is_ordered(db * p2, db * dt, dt);
    lemma_div_multiples_vanish(db, dt);
}

/// Between two adjacent checkpoints the release is the line between them.
pub proof fn lemma_unlocked_on_segment(s: Seq<Checkpoint>, i: int, t: int)
    requires
        is_ordered(s),
        0 <= i < s.len() - 1,
        s[i].timestamp <= t < s[i + 1].timestamp,
    ensures
        unlocked_at(s, t) == interpolate(s[i], s[i + 1], t),
    decreases s.len(),
{
    if i + 1 < s.len() - 1 {
        assert(s[i + 1].timestamp <= s[s.len() - 2].timestamp);
        lemma_ordered_drop_last(s);
        let d = s.drop_last();
        assert(d[i] == s[i] && d[i + 1] == s[i + 1]);
        lemma_unlocked_on_segment(d, i, t);
    }
}

/// Before the first checkpoint nothing is released.
pub proof fn lemma_unlocked_before_start(s: Seq<Checkpoint>, t: int)
    requires
        is_ordered(s),
        s.len() >= 1,
        t < s[0].timestamp,
    ensures
        unlocked_at(s, t) == 0,
    decreases s.len(),
{
    if s.len() >= 2 {
        assert(s[0].timestamp < s[s.len() - 2].timestamp || s.len() == 2);
        lemma_ordered_drop_last(s);
        lemma_unlocked_before_start(s.drop_last(), t);
    }
}

/// The release never exceeds the last balance.
pub proof fn lemma_unlocked_at_most_total(s: Seq<Checkpoint>, t: int)
    requires
        is_ordered(s),
        s.len() >= 1,
    ensures
        0 <= unlocked_at(s, t) <= s.last().balance,
    decreases s.len(),
{
    if t < s.last().timestamp && s.len() >= 2 {
        let a = s[s.len() - 2];
        if t >= a.timestamp {
            lemma_interpolate_bounds(a, s.last(), t, t);
        } else {
            lemma_ordered_drop_last(s);
            lemma_unlocked_at_most_total(s.drop_last(), t);
        }
    }
}

/// The release grows with time.
pub proof fn lemma_unlocked_monotonic(s: Seq<Checkpoint>, t1: int, t2: int)
    requires
        is_ordered(s),
        t1 <= t2,
    ensures
        unlocked_at(s, t1) <= unlocked_at(s, t2),
    decreases s.len(),
{
    if s.len() == 0 {
    } else if t2 >= s.last().timestamp {
        lemma_unlocked_at_most_total(s, t1);
    } else if s.len() == 1 {
    } else {
        let a = s[s.len() - 2];
        lemma_ordered_drop_last(s);
        if t1 >= a.timestamp {
            lemma_interpolate_bounds(a, s.last(), t1, t2);
        } else if t2 >= a.timestamp {
            lemma_interpolate_bounds(a, s.last(), t2, t2);
            lemma_unlocked_at_most_total(s.drop_last(), t1);
        } else {
            lemma_unlocked_monotonic(s.drop_last(), t1, t2);
        }
    }
}

/// Nothing is released up to the first checkpoint, and the total from the last one on.
pub proof fn lemma_unlocked_at_ends(s: Seq<Checkpoint>, t: int)
    requires
        is_valid(s),
    ensures
        t <= s[0].timestamp ==> unlocked_at(s, t) == 0,
        t >= s.last().timestamp ==> unlocked_at(s, t) == total_of(s),
{
    if t < s[0].timestamp {
        lemma_unlocked_before_start(s, t);
    } else if t == s[0].timestamp {
        lemma_unlocked_on_segment(s, 0, t);
    }
}

/// A vesting schedule that obeys rule V and has the lockup's total has released at least as
/// much as the lockup schedule at every time before either starts to release and at every time
/// after either has finished. (Inside both release windows the two rounded-down curves may
/// cross by a unit between checkpoints; termination checks the time it happens at.)
pub proof fn lemma_vesting_covers_lockup_outside_release(
    lockup: Seq<Checkpoint>,
    vesting: Seq<Checkpoint>,
    t: int,
)
    requires
        is_valid(lockup),
        is_valid(vesting),
        total_of(vesting) == total_of(lockup),
        is_compatible(lockup, vesting),
        t < lockup[0].timestamp || t < vesting[0].timestamp || t >= lockup.last().timestamp || t
            >= vesting.last().timestamp,
    ensures
        unlocked_at(vesting, t) >= unlocked_at(lockup, t),
{
    lemma_unlocked_at_most_total(vesting, t);
    lemma_unlocked_at_most_total(lockup, t);
    let ln = lockup.len() - 1;
    let v0 = vesting[0].timestamp as int;
    if t < lockup[0].timestamp {
        lemma_unlocked_before_start(lockup, t);
    } else if t >= lockup.last().timestamp {
        assert(unlocked_at(vesting, lockup[ln].timestamp as int) >= unlocked_at(
            lockup,
            lockup[ln].timestamp as int,
        ));
        lemma_unlocked_monotonic(vesting, lockup[ln].timestamp as int, t);
    } else if t >= vesting.last().timestamp {
    } else {
        lemma_unlocked_before_start(vesting, t);
        lemma_unlocked_monotonic(lockup, t, v0);
        assert(unlocked_at(vesting, v0) >= unlocked_at(lockup, v0));
        lemma_unlocked_at_ends(vesting, v0);
    }
}

impl Schedule {
    /// The balance of the last checkpoint.
    pub fn total_balance(&self) -> (r: Balance)
        requires
            self@.len() >= 1,
        ensures
            r == total_of(self@),
    {
        self.0[self.0.len() - 1].balance
    }

    /// The balance released by `current_timestamp`.
    pub fn unlocked_balance(&self, current_timestamp: TimestampSec) -> (r: Balance)
        requires
            is_valid(self@),
        ensures
            r == unlocked_at(self@, current_timestamp as int),
    {
        let n = self.0.len();
        let last = self.0[n - 1];
        if current_timestamp >= last.timestamp {
            return last.balance;
        }
        if current_timestamp < self.0[0].timestamp {
            proof {
                lemma_unlocked_before_start(self@, current_timestamp as int);
            }
            return 0;
        }
        let mut i: usize = n - 2;
        while current_timestamp < self.0[i].timestamp
            invariant
                is_valid(self@),
                n == self@.len(),
                i <= n - 2,
                self@[0].timestamp <= current_timestamp < self@[i as int + 1].timestamp,
            decreases i,
        {
            i = i - 1;
        }
        let a = self.0[i];
        let b = self.0[i + 1];
        proof {
            lemma_unlocked_on_segment(self@, i as int, current_timestamp as int);
            lemma_interpolate_bounds(a, b, current_timestamp as int, current_timestamp as int);
            let db = (b.balance - a.balance) as int;
            let p = (current_timestamp - a.timestamp) as int;
            assert(db * p * 1 < u256_bound() && db * p * 1 / ((b.timestamp - a.timestamp) as int)
                / 1 == db * p / ((b.timestamp - a.timestamp) as int)) by (nonlinear_arith)
                requires
                    0 <= db <= u128::MAX,
                    0 <= p <= u32::MAX,
                    b.timestamp - a.timestamp > 0,
                    u256_bound() == 0x1_0000_0000_0000_0000_0000_0000_0000_0000_0000_0000_0000_0000_0000_0000_0000_0000int,
            ;
        }
        let released = match mul_div(
            b.balance - a.balance,
            (current_timestamp - a.timestamp) as u128,
            1,
            (b.timestamp - a.timestamp) as u128,
            1,
        ) {
            Some(x) => x,
            None => 0,
        };
        a.balance + released
    }
}

/// Rule V: at every checkpoint time of either schedule, `vesting` has released at least as
/// much as `lockup`.
pub open spec fn is_compatible(lockup: Seq<Checkpoint>, vesting: Seq<Checkpoint>) -> bool {
    &&& forall|i: int|
        0 <= i < lockup.len() ==> unlocked_at(vesting, #[trigger] lockup[i].timestamp as int)
            >= unlocked_at(lockup, lockup[i].timestamp as int)
    &&& forall|i: int|
        0 <= i < vesting.len() ==> unlocked_at(vesting, #[trigger] vesting[i].timestamp as int)
            >= unlocked_at(lockup, vesting[i].timestamp as int)
}

/// The outcome of validating a schedule against a declared total.
pub open spec fn validation_of(s: Seq<Checkpoint>, total: int) -> Result<(), LockupError> {
    if !is_valid(s) {
        Err(LockupError::InvalidSchedule)
    } else if total_of(s) != total {
        Err(LockupError::InvalidTotal)
    } else {
        Ok(())
    }
}

/// The checkpoint at which the line from `a` to `b` reaches `target`, at the earliest whole
/// second: `b`'s timestamp less the rounded-down time the line takes from `target` to `b`'s
/// balance.
pub open spec fn crossing_point(a: Checkpoint, b: Checkpoint, target: int) -> Checkpoint {
    Checkpoint {
        timestamp: (b.timestamp - (b.timestamp - a.timestamp) * (b.balance - target) / (b.balance
            - a.balance)) as u32,
        balance: target as u128,
    }
}

/// `new` is `old` terminated at `now` with `vested` kept, given as the checkpoints of `old`
/// before `now` (the first `p`), a checkpoint at `now` with the balance `unlocked` released by
/// then, and, while that is short of `vested`, the checkpoints of `old` after `now` that stay
/// below `vested` (`q .. c`) and one at which the curve reaches `vested` on the way to `old[c]`.
pub open spec fn split_at_indices(
    old: Seq<Checkpoint>,
    new: Seq<Checkpoint>,
    now: int,
    unlocked: int,
    vested: int,
    p: int,
    q: int,
    c: int,
) -> bool {
    let here = Checkpoint { timestamp: now as u32, balance: unlocked as u128 };
    &&& 0 <= p <= q <= old.len()
    &&& forall|k: int| 0 <= k < p ==> (#[trigger] old[k]).timestamp < now
    &&& p < old.len() ==> old[p].timestamp >= now
    &&& q == if p < old.len() && old[p].timestamp == now {
        p + 1
    } else {
        p
    }
    &&& unlocked < vested ==> {
        &&& q <= c < old.len()
        &&& forall|k: int| q <= k < c ==> (#[trigger] old[k]).balance < vested
        &&& old[c].balance >= vested
        &&& new == old.take(p) + seq![here] + old.subrange(q, c) + seq![
            crossing_point(if c > q { old[c - 1] } else { here }, old[c], vested),
        ]
    }
    &&& unlocked >= vested ==> new == old.take(p) + seq![here]
}

/// `new` is what terminating a lockup with schedule `old` at `now` leaves: a valid schedule
/// that releases `vested` in the end and has released `unlocked` at `now` (see
/// `split_at_indices`); nothing at all where `vested` is zero.
pub open spec fn is_termination_split(
    old: Seq<Checkpoint>,
    new: Seq<Checkpoint>,
    now: int,
    unlocked: int,
    vested: int,
) -> bool {
    &&& is_valid(new)
    &&& total_of(new) == vested
    &&& vested == 0 ==> new == seq![
        Checkpoint { timestamp: old[0].timestamp, balance: 0 },
        Checkpoint { timestamp: old[1].timestamp, balance: 0 },
    ]
    &&& vested > 0 ==> unlocked_at(new, now) == unlocked
    &&& vested > 0 ==> exists|p: int, q: int, c: int|
        #[trigger] split_at_indices(old, new, now, unlocked, vested, p, q, c)
}

/// At a checkpoint's own time the schedule has released exactly its balance.
pub proof fn lemma_unlocked_at_checkpoint(s: Seq<Checkpoint>, k: int)
    requires
        is_valid(s),
        0 <= k < s.len(),
    ensures
        unlocked_at(s, s[k].timestamp as int) == s[k].balance,
{
    if k < s.len() - 1 {
        lemma_unlocked_on_segment(s, k, s[k].timestamp as int);
    }
}

proof fn lemma_push_ordered(s: Seq<Checkpoint>, x: Checkpoint)
    requires
        is_ordered(s),
        s.len() > 0 ==> s.last().timestamp < x.timestamp && s.last().balance <= x.balance,
    ensures
        is_ordered(s.push(x)),
{
    let u = s.push(x);
    assert forall|i: int, j: int| #![trigger u[i], u[j]]
        0 <= i < j < u.len() implies u[i].timestamp < u[j].timestamp && u[i].balance
        <= u[j].balance by {
        if j < s.len() {
            assert(u[i] == s[i] && u[j] == s[j]);
        } else {
            assert(u[i] == s[i]);
            if i < s.len() - 1 {
                assert(s[i].timestamp < s[s.len() - 1].timestamp);
            }
        }
    }
}

/// The checkpoint at which the line from `a` to `b` reaches `target` (see `crossing_point`).
fn crossing(a: Checkpoint, b: Checkpoint, target: Balance) -> (r: Checkpoint)
    requires
        a.timestamp < b.timestamp,
        a.balance < target <= b.balance,
    ensures
        r == crossing_point(a, b, target as int),
        a.timestamp < r.timestamp <= b.timestamp,
{
    let dt = (b.timestamp - a.timestamp) as u128;
    let db = b.balance - a.balance;
    let spare = b.balance - target;
    proof {
        let x = dt as int * spare as int;
        assert(x * 1 < u256_bound() && x * 1 == x && x / (db as int) / 1 == x / (db as int))
            by (nonlinear_arith)
            requires
                x == dt as int * spare as int,
                0 <= dt <= u32::MAX,
                0 <= spare <= u128::MAX,
                db > 0,
                u256_bound() == 0x1_0000_0000_0000_0000_0000_0000_0000_0000_0000_0000_0000_0000_0000_0000_0000_0000int,
        ;
        lemma_mul_inequality(spare as int, db as int, dt as int);
        lemma_mul_is_commutative(spare as int, dt as int);
        lemma_mul_is_commutative(db as int, dt as int);
        lemma_div_multiples_vanish(dt as int, db as int);
        assert(dt * spare < dt * db) by (nonlinear_arith)
            requires
                dt > 0,
                spare < db,
        ;
        assert(0 <= dt * spare) by (nonlinear_arith)
            requires
                dt > 0,
                spare >= 0,
        ;
        lemma_div_is_ordered(0, dt * spare, db as int);
        vstd::arithmetic::div_mod::lemma_div_by_multiple_is_strongly_ordered(
            dt * spare,
            dt * db,
            dt as int,
            db as int,
        );
    }
    let back = match mul_div(dt, spare, 1, db, 1) {
        Some(x) => x,
        None => 0,
    };
    Checkpoint { timestamp: b.timestamp - back as u32, balance: target }
}

impl Schedule {
    /// A copy of the schedule.
    pub fn duplicate(&self) -> (r: Schedule)
        ensures
            r@ == self@,
    {
        let mut v: Vec<Checkpoint> = Vec::new();
        let mut i: usize = 0;
        while i < self.0.len()
            invariant
                i <= self@.len(),
                v@ == self@.take(i as int),
            decreases self@.len() - i,
        {
            v.push(self.0[i]);
            i = i + 1;
            assert(v@ =~= self@.take(i as int));
        }
        assert(v@ =~= self@);
        Schedule(v)
    }

    /// Whether two schedules have the same checkpoints.
    pub fn same_as(&self, other: &Schedule) -> (r: bool)
        ensures
            r == (self@ == other@),
    {
        if self.0.len() != other.0.len() {
            return false;
        }
        let mut i: usize = 0;
        while i < self.0.len()
            invariant
                i <= self@.len(),
                self@.len() == other@.len(),
                forall|k: int| 0 <= k < i ==> self@[k] == other@[k],
            decreases self@.len() - i,
        {
            if self.0[i] != other.0[i] {
                return false;
            }
            i = i + 1;
        }
        assert(self@ =~= other@);
        true
    }

    /// Whether the checkpoints form a valid schedule.
    pub fn is_well_formed(&self) -> (r: bool)
        ensures
            r == is_valid(self@),
    {
        let n = self.0.len();
        if n < 2 || self.0[0].balance != 0 {
            return false;
        }
        let mut i: usize = 1;
        while i < n
            invariant
                n == self@.len(),
                1 <= i <= n,
                is_ordered(self@.take(i as int)),
            decreases n - i,
        {
            let prev = self.0[i - 1];
            let cur = self.0[i];
            if prev.timestamp >= cur.timestamp || prev.balance > cur.balance {
                assert(!is_ordered(self@)) by {
                    assert(self@[i - 1] == prev && self@[i as int] == cur);
                }
                return false;
            }
            proof {
                let t = self@.take(i as int + 1);
                assert forall|a: int, b: int| #![trigger t[a], t[b]]
                    0 <= a < b < t.len() implies t[a].timestamp < t[b].timestamp && t[a].balance
                    <= t[b].balance by {
                    assert(self@.take(i as int)[a] == t[a]);
                    if b < i {
                        assert(self@.take(i as int)[b] == t[b]);
                    } else if a < i - 1 {
                        assert(self@.take(i as int)[i - 1] == prev);
                    }
                }
            }
            i = i + 1;
        }
        assert(self@.take(n as int) =~= self@);
        true
    }

    /// Checks the schedule's shape and that it releases `total_balance` in the end.
    pub fn validate(&self, total_balance: Balance) -> (r: Result<(), LockupError>)
        ensures
            r == validation_of(self@, total_balance as int),
    {
        if !self.is_well_formed() {
            return Err(LockupError::InvalidSchedule);
        }
        if self.total_balance() != total_balance {
            return Err(LockupError::InvalidTotal);
        }
        Ok(())
    }

    /// Rule V: whether `vesting` has released at least as much as this schedule at every
    /// checkpoint time of either.
    pub fn is_compatible_with(&self, vesting: &Schedule) -> (r: bool)
        requires
            is_valid(self@),
            is_valid(vesting@),
        ensures
            r == is_compatible(self@, vesting@),
    {
        let mut i: usize = 0;
        while i < self.0.len()
            invariant
                is_valid(self@),
                is_valid(vesting@),
                i <= self@.len(),
                forall|k: int|
                    0 <= k < i ==> unlocked_at(vesting@, #[trigger] self@[k].timestamp as int)
                        >= unlocked_at(self@, self@[k].timestamp as int),
            decreases self@.len() - i,
        {
            let ts = self.0[i].timestamp;
            if vesting.unlocked_balance(ts) < self.unlocked_balance(ts) {
                return false;
            }
            i = i + 1;
        }
        let mut j: usize = 0;
        while j < vesting.0.len()
            invariant
                is_valid(self@),
                is_valid(vesting@),
                j <= vesting@.len(),
                forall|k: int|
                    0 <= k < self@.len() ==> unlocked_at(vesting@, #[trigger] self@[k].timestamp as int)
                        >= unlocked_at(self@, self@[k].timestamp as int),
                forall|k: int|
                    0 <= k < j ==> unlocked_at(vesting@, #[trigger] vesting@[k].timestamp as int)
                        >= unlocked_at(self@, vesting@[k].timestamp as int),
            decreases vesting@.len() - j,
        {
            let ts = vesting.0[j].timestamp;
            if vesting.unlocked_balance(ts) < self.unlocked_balance(ts) {
                return false;
            }
            j = j + 1;
        }
        true
    }

    /// A schedule that has released `total_balance` in full from `timestamp` on (from second 1
    /// on when `timestamp` is 0).
    pub fn new_unlocked_since(total_balance: Balance, timestamp: TimestampSec) -> (r: Schedule)
        ensures
            is_valid(r@),
            total_of(r@) == total_balance,
            timestamp > 0 ==> r@ == seq![
                Checkpoint { timestamp: (timestamp - 1) as u32, balance: 0 },
                Checkpoint { timestamp, balance: total_balance },
            ],
            timestamp == 0 ==> r@ == seq![
                Checkpoint { timestamp: 0, balance: 0 },
                Checkpoint { timestamp: 1, balance: total_balance },
            ],
    {
        let end = if timestamp == 0 {
            1
        } else {
            timestamp
        };
        let v = vec![
            Checkpoint { timestamp: end - 1, balance: 0 },
            Checkpoint { timestamp: end, balance: total_balance },
        ];
        assert(v@ =~= seq![v@[0], v@[1]]);
        Schedule(v)
    }

    /// The schedule left by terminating at `now` with `vested` kept, `unlocked` having been
    /// released by then: the checkpoints before `now`, a checkpoint at `now` with `unlocked`,
    /// then the checkpoints after `now` below `vested`, and a last one at the earliest whole
    /// second at which the curve reaches `vested`. Where `vested` is zero, a schedule that
    /// releases nothing.
    pub fn terminate_at(&self, now: TimestampSec, unlocked: Balance, vested: Balance) -> (r: Schedule)
        requires
            is_valid(self@),
            vested < total_of(self@),
            unlocked == unlocked_at(self@, now as int),
            unlocked <= vested,
        ensures
            is_termination_split(self@, r@, now as int, unlocked as int, vested as int),
    {
        if vested == 0 {
            let v = vec![
                Checkpoint { timestamp: self.0[0].timestamp, balance: 0 },
                Checkpoint { timestamp: self.0[1].timestamp, balance: 0 },
            ];
            assert(v@ =~= seq![v@[0], v@[1]]);
            return Schedule(v);
        }
        let n = self.0.len();
        proof {
            lemma_unlocked_at_most_total(self@, now as int);
        }
        let mut out: Vec<Checkpoint> = Vec::new();
        let mut i: usize = 0;
        while i < n && self.0[i].timestamp < now
            invariant
                is_valid(self@),
                n == self@.len(),
                i <= n,
                out@ == self@.take(i as int),
                forall|k: int| 0 <= k < i ==> (#[trigger] self@[k]).timestamp < now,
            decreases n - i,
        {
            out.push(self.0[i]);
            i = i + 1;
            assert(out@ =~= self@.take(i as int));
        }
        let p = i;
        let here = Checkpoint { timestamp: now, balance: unlocked };
        proof {
            assert(is_ordered(out@)) by {
                assert forall|a: int, b: int| #![trigger out@[a], out@[b]]
                    0 <= a < b < out@.len() implies out@[a].timestamp < out@[b].timestamp
                    && out@[a].balance <= out@[b].balance by {
                    assert(out@[a] == self@[a] && out@[b] == self@[b]);
                }
            }
            if p > 0 {
                let k = p - 1;
                assert(out@.last() == self@[k as int]);
                lemma_unlocked_at_checkpoint(self@, k as int);
                lemma_unlocked_monotonic(self@, self@[k as int].timestamp as int, now as int);
            }
            lemma_push_ordered(out@, here);
        }
        out.push(here);
        proof {
            assert(out@[0].balance == 0) by {
                if p > 0 {
                    assert(out@[0] == self@[0]);
                } else {
                    if now < self@[0].timestamp {
                        lemma_unlocked_before_start(self@, now as int);
                    } else {
                        lemma_unlocked_at_checkpoint(self@, 0);
                    }
                }
            }
        }
        if p < n && self.0[p].timestamp == now {
            i = p + 1;
        }
        let q = i;
        if unlocked >= vested {
            proof {
                assert(out@ =~= self@.take(p as int) + seq![here]);
                assert(split_at_indices(
                    self@,
                    out@,
                    now as int,
                    unlocked as int,
                    vested as int,
                    p as int,
                    q as int,
                    0,
                ));
            }
            return Schedule(out);
        }
        proof {
            if q >= n {
                assert(self@[n - 1].timestamp <= now);
            }
            assert(out@ =~= self@.take(p as int) + seq![here] + self@.subrange(q as int, q as int));
        }
        let mut prev = here;
        while self.0[i].balance < vested
            invariant
                is_valid(self@),
                n == self@.len(),
                0 < vested < self@[n - 1].balance,
                unlocked < vested,
                unlocked == unlocked_at(self@, now as int),
                p <= q <= i < n,
                forall|k: int| 0 <= k < p ==> (#[trigger] self@[k]).timestamp < now,
                p < n ==> self@[p as int].timestamp >= now,
                q == if p < n && self@[p as int].timestamp == now {
                    p + 1
                } else {
                    p as int
                },
                forall|k: int| q <= k < i ==> (#[trigger] self@[k]).balance < vested,
                prev == if i > q {
                    self@[i - 1]
                } else {
                    here
                },
                prev.balance < vested,
                prev.timestamp >= now,
                here == (Checkpoint { timestamp: now, balance: unlocked }),
                is_ordered(out@),
                out@.len() > 0,
                out@.last() == prev,
                out@ == self@.take(p as int) + seq![here] + self@.subrange(q as int, i as int),
                out@[0].balance == 0,
            decreases n - i,
        {
            let c = self.0[i];
            proof {
                assert(c.timestamp > now) by {
                    if i == p {
                        assert(self@[p as int].timestamp != now);
                    }
                }
                assert(c.timestamp > prev.timestamp) by {
                    if i > q {
                        assert(self@[i - 1].timestamp < self@[i as int].timestamp);
                    }
                }
                lemma_unlocked_at_checkpoint(self@, i as int);
                lemma_unlocked_monotonic(self@, now as int, c.timestamp as int);
                lemma_push_ordered(out@, c);
            }
            let ghost before = out@;
            out.push(c);
            prev = c;
            i = i + 1;
            proof {
                assert(out@ =~= self@.take(p as int) + seq![here] + self@.subrange(q as int, i as int));
                assert(out@[0] == before[0]);
            }
        }
        let b = self.0[i];
        proof {
            assert(b.timestamp > prev.timestamp) by {
                if i > q {
                    assert(self@[i - 1].timestamp < self@[i as int].timestamp);
                } else if i == p {
                    assert(self@[p as int].timestamp != now);
                }
            }
        }
        let end = crossing(prev, b, vested);
        proof {
            lemma_push_ordered(out@, end);
        }
        let ghost before = out@;
        out.push(end);
        proof {
            let c = i as int;
            assert(out@ =~= self@.take(p as int) + seq![here] + self@.subrange(q as int, c) + seq![
                crossing_point(if c > q { self@[c - 1] } else { here }, self@[c], vested as int),
            ]);
            assert(out@[0] == before[0]);
            assert(split_at_indices(
                self@,
                out@,
                now as int,
                unlocked as int,
                vested as int,
                p as int,
                q as int,
                c,
            ));
            let pi = p as int;
            assert(out@[pi] == here);
            assert(out@[pi + 1].timestamp > now);
            lemma_unlocked_on_segment(out@, pi, now as int);
        }
        Schedule(out)
    }
}

} // verus!
