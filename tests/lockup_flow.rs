use ft_lockup::contract::{Contract, DepositMessage, LockupIndex};
use ft_lockup::error::LockupError;
use ft_lockup::lockup::{HashOrSchedule, Lockup, LockupView, TerminationConfig};
use ft_lockup::schedule::{Checkpoint, Schedule, TimestampSec};
use std::collections::{HashMap, HashSet};

const TOKEN_ID: &str = "token.near";
const TOKEN_DECIMALS: u8 = 18;
const ONE_DAY_SEC: TimestampSec = 24 * 60 * 60;
const ONE_YEAR_SEC: TimestampSec = 365 * ONE_DAY_SEC;
const GENESIS_TIMESTAMP_SEC: TimestampSec = 1_600_000_000;

fn d(value: u128, decimals: u8) -> u128 {
    value * 10u128.pow(decimals as u32)
}

/// The engine together with a token ledger that refuses transfers to unregistered accounts.
struct Env {
    contract: Contract,
    owner: String,
    now: TimestampSec,
    registered: HashSet<String>,
    balances: HashMap<String, u128>,
}

struct Users {
    alice: String,
    eve: String,
    dude: String,
}

impl Users {
    fn init(_e: &Env) -> Users {
        Users { alice: "alice".to_string(), eve: "eve".to_string(), dude: "dude".to_string() }
    }
}

impl Env {
    fn init() -> Env {
        let owner = "owner".to_string();
        Env {
            contract: Contract::new(TOKEN_ID.to_string(), vec![owner.clone()]),
            owner,
            now: 0,
            registered: HashSet::new(),
            balances: HashMap::new(),
        }
    }

    fn set_time_sec(&mut self, t: TimestampSec) {
        self.now = t;
    }

    fn transfer(&mut self, receiver: &str, amount: u128) -> bool {
        if !self.registered.contains(receiver) {
            return false;
        }
        *self.balances.entry(receiver.to_string()).or_insert(0) += amount;
        true
    }

    fn add_lockup(&mut self, amount: u128, lockup: Lockup) -> Result<u128, LockupError> {
        let owner = self.owner.clone();
        let unused = self.contract.ft_on_transfer(
            &TOKEN_ID.to_string(),
            &owner,
            amount,
            DepositMessage::NewLockup(lockup),
        )?;
        Ok(amount - unused)
    }

    fn get_account_lockups(&self, account: &str) -> Vec<(LockupIndex, LockupView)> {
        self.contract.get_account_lockups(&account.to_string(), self.now)
    }

    fn get_lockup(&self, index: LockupIndex) -> LockupView {
        self.contract.get_lockup(index, self.now).unwrap()
    }

    fn claim(&mut self, account: &str) -> u128 {
        let plan = self.contract.claim(&account.to_string(), self.now);
        if plan.amount == 0 {
            return 0;
        }
        let ok = self.transfer(account, plan.amount);
        self.contract.after_claim(&plan, ok)
    }

    fn terminate_with(
        &mut self,
        account: &str,
        index: LockupIndex,
        revealed: Option<Schedule>,
    ) -> Result<u128, LockupError> {
        let refund = self.contract.terminate(&account.to_string(), index, revealed, self.now)?;
        if refund == 0 {
            return Ok(0);
        }
        let ok = self.transfer(account, refund);
        Ok(self.contract.after_lockup_termination(account.to_string(), refund, ok, self.now))
    }

    fn terminate(&mut self, account: &str, index: LockupIndex) -> Result<u128, LockupError> {
        self.terminate_with(account, index, None)
    }

    fn terminate_with_schedule(
        &mut self,
        account: &str,
        index: LockupIndex,
        schedule: Schedule,
    ) -> Result<u128, LockupError> {
        self.terminate_with(account, index, Some(schedule))
    }

    fn hash_schedule(&self, schedule: &Schedule) -> Vec<u8> {
        self.contract.hash_schedule(schedule)
    }

    fn ft_storage_deposit(&mut self, account: &str) {
        self.registered.insert(account.to_string());
    }

    fn storage_force_unregister(&mut self, account: &str) {
        self.registered.remove(account);
        self.balances.remove(account);
    }

    fn ft_balance_of(&self, account: &str) -> u128 {
        *self.balances.get(account).unwrap_or(&0)
    }
}

fn cp(timestamp: TimestampSec, balance: u128) -> Checkpoint {
    Checkpoint { timestamp, balance }
}

fn lockup_of(account: &str, schedule: Schedule, termination_config: Option<TerminationConfig>) -> Lockup {
    Lockup { account_id: account.to_string(), schedule, claimed_balance: 0, termination_config }
}

#[test]
fn test_init_env() {
    let e = Env::init();
    let _users = Users::init(&e);
}

#[test]
fn test_lockup_claim_logic() {
    let mut e = Env::init();
    let users = Users::init(&e);
    let amount = d(10000, TOKEN_DECIMALS);
    e.set_time_sec(GENESIS_TIMESTAMP_SEC);
    let lockups = e.get_account_lockups(&users.alice);
    assert!(lockups.is_empty());
    let lockup = lockup_of(
        &users.alice,
        Schedule(vec![
            cp(GENESIS_TIMESTAMP_SEC + ONE_YEAR_SEC - 1, 0),
            cp(GENESIS_TIMESTAMP_SEC + ONE_YEAR_SEC, amount),
        ]),
        None,
    );
    let balance = e.add_lockup(amount, lockup).unwrap();
    assert_eq!(balance, amount);
    let lockups = e.get_account_lockups(&users.alice);
    assert_eq!(lockups.len(), 1);
    assert_eq!(lockups[0].1.total_balance, amount);
    assert_eq!(lockups[0].1.claimed_balance, 0);
    assert_eq!(lockups[0].1.unclaimed_balance, 0);

    // Claim attempt before unlock.
    let res = e.claim(&users.alice);
    assert_eq!(res, 0);
    let lockups = e.get_account_lockups(&users.alice);
    assert_eq!(lockups[0].1.claimed_balance, 0);

    // Set time to the first checkpoint.
    e.set_time_sec(GENESIS_TIMESTAMP_SEC + ONE_YEAR_SEC - 1);
    let lockups = e.get_account_lockups(&users.alice);
    assert_eq!(lockups[0].1.claimed_balance, 0);
    assert_eq!(lockups[0].1.unclaimed_balance, 0);

    // Set time to the second checkpoint.
    e.set_time_sec(GENESIS_TIMESTAMP_SEC + ONE_YEAR_SEC);
    let lockups = e.get_account_lockups(&users.alice);
    assert_eq!(lockups[0].1.claimed_balance, 0);
    assert_eq!(lockups[0].1.unclaimed_balance, amount);

    // Attempt to claim. No storage deposit for Alice.
    let res = e.claim(&users.alice);
    assert_eq!(res, 0);
    let lockups = e.get_account_lockups(&users.alice);
    assert_eq!(lockups[0].1.claimed_balance, 0);
    assert_eq!(lockups[0].1.unclaimed_balance, amount);

    e.ft_storage_deposit(&users.alice);

    let balance = e.ft_balance_of(&users.alice);
    assert_eq!(balance, 0);

    // Claim tokens.
    let res = e.claim(&users.alice);
    assert_eq!(res, amount);
    // User's lockups should be empty, since fully claimed.
    let lockups = e.get_account_lockups(&users.alice);
    assert!(lockups.is_empty());

    // Manually checking the lockup by index
    let lockup = e.get_lockup(0);
    assert_eq!(lockup.claimed_balance, amount);
    assert_eq!(lockup.unclaimed_balance, 0);

    let balance = e.ft_balance_of(&users.alice);
    assert_eq!(balance, amount);
}

#[test]
fn test_lockup_linear() {
    let mut e = Env::init();
    let users = Users::init(&e);
    let amount = d(60000, TOKEN_DECIMALS);
    e.set_time_sec(GENESIS_TIMESTAMP_SEC);
    let lockups = e.get_account_lockups(&users.alice);
    assert!(lockups.is_empty());
    let lockup = lockup_of(
        &users.alice,
        Schedule(vec![
            cp(GENESIS_TIMESTAMP_SEC, 0),
            cp(GENESIS_TIMESTAMP_SEC + ONE_YEAR_SEC, amount),
        ]),
        None,
    );
    let balance = e.add_lockup(amount, lockup).unwrap();
    assert_eq!(balance, amount);
    let lockups = e.get_account_lockups(&users.alice);
    assert_eq!(lockups.len(), 1);
    assert_eq!(lockups[0].1.total_balance, amount);
    assert_eq!(lockups[0].1.claimed_balance, 0);
    assert_eq!(lockups[0].1.unclaimed_balance, 0);

    // 1/3 unlock
    e.set_time_sec(GENESIS_TIMESTAMP_SEC + ONE_YEAR_SEC / 3);
    let lockups = e.get_account_lockups(&users.alice);
    assert_eq!(lockups[0].1.total_balance, amount);
    assert_eq!(lockups[0].1.claimed_balance, 0);
    assert_eq!(lockups[0].1.unclaimed_balance, amount / 3);

    // Claim tokens
    e.ft_storage_deposit(&users.alice);
    let res = e.claim(&users.alice);
    assert_eq!(res, amount / 3);
    let balance = e.ft_balance_of(&users.alice);
    assert_eq!(balance, amount / 3);

    // Check lockup after claim
    let lockups = e.get_account_lockups(&users.alice);
    assert_eq!(lockups[0].1.total_balance, amount);
    assert_eq!(lockups[0].1.claimed_balance, amount / 3);
    assert_eq!(lockups[0].1.unclaimed_balance, 0);

    // 1/2 unlock
    e.set_time_sec(GENESIS_TIMESTAMP_SEC + ONE_YEAR_SEC / 2);
    let lockups = e.get_account_lockups(&users.alice);
    assert_eq!(lockups[0].1.total_balance, amount);
    assert_eq!(lockups[0].1.claimed_balance, amount / 3);
    assert_eq!(lockups[0].1.unclaimed_balance, amount / 6);

    // Remove storage from token to verify claim refund.
    // Note, this burns `amount / 3` tokens.
    e.storage_force_unregister(&users.alice);
    let balance = e.ft_balance_of(&users.alice);
    assert_eq!(balance, 0);

    // Trying to claim, should fail and refund the amount back to the lockup
    let res = e.claim(&users.alice);
    assert_eq!(res, 0);
    let lockups = e.get_account_lockups(&users.alice);
    assert_eq!(lockups[0].1.total_balance, amount);
    assert_eq!(lockups[0].1.claimed_balance, amount / 3);
    assert_eq!(lockups[0].1.unclaimed_balance, amount / 6);

    // Claim again but with storage deposit
    e.ft_storage_deposit(&users.alice);
    let res = e.claim(&users.alice);
    assert_eq!(res, amount / 6);
    let balance = e.ft_balance_of(&users.alice);
    assert_eq!(balance, amount / 6);
    let lockups = e.get_account_lockups(&users.alice);
    assert_eq!(lockups[0].1.total_balance, amount);
    assert_eq!(lockups[0].1.claimed_balance, amount / 2);
    assert_eq!(lockups[0].1.unclaimed_balance, 0);

    // 2/3 unlock
    e.set_time_sec(GENESIS_TIMESTAMP_SEC + ONE_YEAR_SEC * 2 / 3);
    let lockups = e.get_account_lockups(&users.alice);
    assert_eq!(lockups[0].1.claimed_balance, amount / 2);
    assert_eq!(lockups[0].1.unclaimed_balance, amount / 6);

    // Claim tokens
    let res = e.claim(&users.alice);
    assert_eq!(res, amount / 6);
    let balance = e.ft_balance_of(&users.alice);
    assert_eq!(balance, amount / 3);
    let lockups = e.get_account_lockups(&users.alice);
    assert_eq!(lockups[0].1.claimed_balance, amount * 2 / 3);
    assert_eq!(lockups[0].1.unclaimed_balance, 0);

    // Claim again with no unclaimed_balance
    let res = e.claim(&users.alice);
    assert_eq!(res, 0);
    let balance = e.ft_balance_of(&users.alice);
    assert_eq!(balance, amount / 3);
    let lockups = e.get_account_lockups(&users.alice);
    assert_eq!(lockups[0].1.claimed_balance, amount * 2 / 3);
    assert_eq!(lockups[0].1.unclaimed_balance, 0);

    // full unlock
    e.set_time_sec(GENESIS_TIMESTAMP_SEC + ONE_YEAR_SEC);
    let lockups = e.get_account_lockups(&users.alice);
    assert_eq!(lockups[0].1.claimed_balance, amount * 2 / 3);
    assert_eq!(lockups[0].1.unclaimed_balance, amount / 3);

    // Final claim
    let res = e.claim(&users.alice);
    assert_eq!(res, amount / 3);
    let balance = e.ft_balance_of(&users.alice);
    assert_eq!(balance, amount * 2 / 3);

    // User's lockups should be empty, since fully claimed.
    let lockups = e.get_account_lockups(&users.alice);
    assert!(lockups.is_empty());

    // Manually checking the lockup by index
    let lockup = e.get_lockup(0);
    assert_eq!(lockup.claimed_balance, amount);
    assert_eq!(lockup.unclaimed_balance, 0);
}

#[test]
fn test_lockup_cliff_amazon() {
    let mut e = Env::init();
    let users = Users::init(&e);
    let amount = d(60000, TOKEN_DECIMALS);
    e.set_time_sec(GENESIS_TIMESTAMP_SEC);
    let lockups = e.get_account_lockups(&users.alice);
    assert!(lockups.is_empty());
    let lockup = lockup_of(
        &users.alice,
        Schedule(vec![
            cp(GENESIS_TIMESTAMP_SEC + ONE_YEAR_SEC - 1, 0),
            cp(GENESIS_TIMESTAMP_SEC + ONE_YEAR_SEC, amount / 10),
            cp(GENESIS_TIMESTAMP_SEC + ONE_YEAR_SEC * 2, 3 * amount / 10),
            cp(GENESIS_TIMESTAMP_SEC + ONE_YEAR_SEC * 3, 6 * amount / 10),
            cp(GENESIS_TIMESTAMP_SEC + ONE_YEAR_SEC * 4, amount),
        ]),
        None,
    );
    let balance = e.add_lockup(amount, lockup).unwrap();
    assert_eq!(balance, amount);
    let lockups = e.get_account_lockups(&users.alice);
    assert_eq!(lockups.len(), 1);
    assert_eq!(lockups[0].1.total_balance, amount);
    assert_eq!(lockups[0].1.claimed_balance, 0);
    assert_eq!(lockups[0].1.unclaimed_balance, 0);

    // 1/12 time. pre-cliff unlock
    e.set_time_sec(GENESIS_TIMESTAMP_SEC + ONE_YEAR_SEC / 3);
    let lockups = e.get_account_lockups(&users.alice);
    assert_eq!(lockups[0].1.total_balance, amount);
    assert_eq!(lockups[0].1.claimed_balance, 0);
    assert_eq!(lockups[0].1.unclaimed_balance, 0);

    // 1/4 time. cliff unlock
    e.set_time_sec(GENESIS_TIMESTAMP_SEC + ONE_YEAR_SEC);
    let lockups = e.get_account_lockups(&users.alice);
    assert_eq!(lockups[0].1.total_balance, amount);
    assert_eq!(lockups[0].1.claimed_balance, 0);
    assert_eq!(lockups[0].1.unclaimed_balance, amount / 10);

    // 3/8 time. cliff unlock + 1/2 of 2nd year.
    e.set_time_sec(GENESIS_TIMESTAMP_SEC + ONE_YEAR_SEC + ONE_YEAR_SEC / 2);
    let lockups = e.get_account_lockups(&users.alice);
    assert_eq!(lockups[0].1.unclaimed_balance, 2 * amount / 10);

    // 1/2 time.
    e.set_time_sec(GENESIS_TIMESTAMP_SEC + ONE_YEAR_SEC * 2);
    let lockups = e.get_account_lockups(&users.alice);
    assert_eq!(lockups[0].1.unclaimed_balance, 3 * amount / 10);

    // 1/2 + 1/12 time.
    e.set_time_sec(GENESIS_TIMESTAMP_SEC + ONE_YEAR_SEC * 2 + ONE_YEAR_SEC / 3);
    let lockups = e.get_account_lockups(&users.alice);
    assert_eq!(lockups[0].1.unclaimed_balance, 4 * amount / 10);

    // 1/2 + 2/12 time.
    e.set_time_sec(GENESIS_TIMESTAMP_SEC + ONE_YEAR_SEC * 2 + ONE_YEAR_SEC * 2 / 3);
    let lockups = e.get_account_lockups(&users.alice);
    assert_eq!(lockups[0].1.unclaimed_balance, 5 * amount / 10);

    // 3/4 time.
    e.set_time_sec(GENESIS_TIMESTAMP_SEC + ONE_YEAR_SEC * 3);
    let lockups = e.get_account_lockups(&users.alice);
    assert_eq!(lockups[0].1.unclaimed_balance, 6 * amount / 10);

    // 7/8 time.
    e.set_time_sec(GENESIS_TIMESTAMP_SEC + ONE_YEAR_SEC * 3 + ONE_YEAR_SEC / 2);
    let lockups = e.get_account_lockups(&users.alice);
    assert_eq!(lockups[0].1.unclaimed_balance, 8 * amount / 10);

    // full unlock.
    e.set_time_sec(GENESIS_TIMESTAMP_SEC + ONE_YEAR_SEC * 4);
    let lockups = e.get_account_lockups(&users.alice);
    assert_eq!(lockups[0].1.unclaimed_balance, amount);

    // after unlock.
    e.set_time_sec(GENESIS_TIMESTAMP_SEC + ONE_YEAR_SEC * 5);
    let lockups = e.get_account_lockups(&users.alice);
    assert_eq!(lockups[0].1.unclaimed_balance, amount);

    // attempt to claim without storage.
    let res = e.claim(&users.alice);
    assert_eq!(res, 0);
    let balance = e.ft_balance_of(&users.alice);
    assert_eq!(balance, 0);
    let lockups = e.get_account_lockups(&users.alice);
    assert_eq!(lockups[0].1.unclaimed_balance, amount);

    // Claim tokens
    e.ft_storage_deposit(&users.alice);
    let res = e.claim(&users.alice);
    assert_eq!(res, amount);
    let balance = e.ft_balance_of(&users.alice);
    assert_eq!(balance, amount);

    // Check lockup after claim
    let lockups = e.get_account_lockups(&users.alice);
    assert!(lockups.is_empty());
    let lockup = e.get_lockup(0);
    assert_eq!(lockup.claimed_balance, amount);
    assert_eq!(lockup.unclaimed_balance, 0);
}

fn linear_year(amount: u128) -> Schedule {
    Schedule(vec![cp(GENESIS_TIMESTAMP_SEC, 0), cp(GENESIS_TIMESTAMP_SEC + ONE_YEAR_SEC, amount)])
}

fn terminable_by(terminator: &str, vesting_schedule: Option<HashOrSchedule>) -> Option<TerminationConfig> {
    Some(TerminationConfig { terminator_id: terminator.to_string(), vesting_schedule })
}

#[test]
fn test_lockup_terminate_no_vesting_schedule() {
    let mut e = Env::init();
    let users = Users::init(&e);
    let amount = d(60000, TOKEN_DECIMALS);
    e.set_time_sec(GENESIS_TIMESTAMP_SEC);
    let lockups = e.get_account_lockups(&users.alice);
    assert!(lockups.is_empty());
    let lockup = lockup_of(&users.alice, linear_year(amount), terminable_by(&users.eve, None));

    let balance = e.add_lockup(amount, lockup).unwrap();
    assert_eq!(balance, amount);
    let lockups = e.get_account_lockups(&users.alice);
    assert_eq!(lockups.len(), 1);
    assert_eq!(lockups[0].1.total_balance, amount);
    assert_eq!(lockups[0].1.claimed_balance, 0);
    assert_eq!(lockups[0].1.unclaimed_balance, 0);

    // 1/3 unlock
    e.set_time_sec(GENESIS_TIMESTAMP_SEC + ONE_YEAR_SEC / 3);
    let lockups = e.get_account_lockups(&users.alice);
    assert_eq!(lockups[0].1.total_balance, amount);
    assert_eq!(lockups[0].1.claimed_balance, 0);
    assert_eq!(lockups[0].1.unclaimed_balance, amount / 3);

    // Claim tokens
    e.ft_storage_deposit(&users.alice);
    let res = e.claim(&users.alice);
    assert_eq!(res, amount / 3);
    let balance = e.ft_balance_of(&users.alice);
    assert_eq!(balance, amount / 3);

    // Check lockup after claim
    let lockups = e.get_account_lockups(&users.alice);
    assert_eq!(lockups[0].1.total_balance, amount);
    assert_eq!(lockups[0].1.claimed_balance, amount / 3);
    assert_eq!(lockups[0].1.unclaimed_balance, 0);

    // 1/2 unlock
    e.set_time_sec(GENESIS_TIMESTAMP_SEC + ONE_YEAR_SEC / 2);
    let lockups = e.get_account_lockups(&users.alice);
    assert_eq!(lockups[0].1.total_balance, amount);
    assert_eq!(lockups[0].1.claimed_balance, amount / 3);
    assert_eq!(lockups[0].1.unclaimed_balance, amount / 6);

    let lockup_index = lockups[0].0;

    // TERMINATE
    e.ft_storage_deposit(&users.eve);
    let res = e.terminate(&users.eve, lockup_index).unwrap();
    assert_eq!(res, amount / 2);

    let terminator_balance = e.ft_balance_of(&users.eve);
    assert_eq!(terminator_balance, amount / 2);

    // full unlock 2 / 3 period after termination before initial timestamp
    e.set_time_sec(GENESIS_TIMESTAMP_SEC + ONE_YEAR_SEC * 2 / 3);
    let lockups = e.get_account_lockups(&users.alice);
    assert_eq!(lockups[0].1.claimed_balance, amount / 3);
    assert_eq!(lockups[0].1.unclaimed_balance, amount / 6);

    // Final claim
    let res = e.claim(&users.alice);
    assert_eq!(res, amount / 6);
    let balance = e.ft_balance_of(&users.alice);
    assert_eq!(balance, amount / 2);

    // User's lockups should be empty, since fully claimed.
    let lockups = e.get_account_lockups(&users.alice);
    assert!(lockups.is_empty());

    // Manually checking the lockup by index
    let lockup = e.get_lockup(0);
    assert_eq!(lockup.claimed_balance, amount / 2);
    assert_eq!(lockup.unclaimed_balance, 0);
}

#[test]
fn test_lockup_terminate_no_termination_config() {
    let mut e = Env::init();
    let users = Users::init(&e);
    let amount = d(60000, TOKEN_DECIMALS);
    e.set_time_sec(GENESIS_TIMESTAMP_SEC);
    let lockups = e.get_account_lockups(&users.alice);
    assert!(lockups.is_empty());
    let lockup = lockup_of(&users.alice, linear_year(amount), None);

    let balance = e.add_lockup(amount, lockup).unwrap();
    assert_eq!(balance, amount);
    let lockups = e.get_account_lockups(&users.alice);
    assert_eq!(lockups.len(), 1);
    let lockup_index = lockups[0].0;
    assert_eq!(lockups[0].1.total_balance, amount);
    assert_eq!(lockups[0].1.claimed_balance, 0);
    assert_eq!(lockups[0].1.unclaimed_balance, 0);

    // TERMINATE
    e.ft_storage_deposit(&users.eve);
    let res = e.terminate(&users.eve, lockup_index);
    assert!(!res.is_ok());
    assert!(res.unwrap_err().message().contains("No termination config"));
}

#[test]
fn test_lockup_terminate_wrong_terminator() {
    let mut e = Env::init();
    let users = Users::init(&e);
    let amount = d(60000, TOKEN_DECIMALS);
    e.set_time_sec(GENESIS_TIMESTAMP_SEC);
    let lockups = e.get_account_lockups(&users.alice);
    assert!(lockups.is_empty());
    let lockup = lockup_of(&users.alice, linear_year(amount), terminable_by(&users.eve, None));

    let balance = e.add_lockup(amount, lockup).unwrap();
    assert_eq!(balance, amount);
    let lockups = e.get_account_lockups(&users.alice);
    assert_eq!(lockups.len(), 1);
    let lockup_index = lockups[0].0;
    assert_eq!(lockups[0].1.total_balance, amount);
    assert_eq!(lockups[0].1.claimed_balance, 0);
    assert_eq!(lockups[0].1.unclaimed_balance, 0);

    // TERMINATE
    e.ft_storage_deposit(&users.dude);
    let res = e.terminate(&users.dude, lockup_index);
    assert!(!res.is_ok());
    assert!(res.unwrap_err().message().contains("Unauthorized"));
}

#[test]
fn test_lockup_terminate_no_storage() {
    let mut e = Env::init();
    let users = Users::init(&e);
    let amount = d(60000, TOKEN_DECIMALS);
    e.set_time_sec(GENESIS_TIMESTAMP_SEC);
    let lockups = e.get_account_lockups(&users.alice);
    assert!(lockups.is_empty());
    let lockup = lockup_of(&users.alice, linear_year(amount), terminable_by(&users.eve, None));

    let balance = e.add_lockup(amount, lockup).unwrap();
    assert_eq!(balance, amount);
    let lockups = e.get_account_lockups(&users.alice);
    let lockup_index = lockups[0].0;

    // 1/3 unlock, terminate
    e.set_time_sec(GENESIS_TIMESTAMP_SEC + ONE_YEAR_SEC / 3);
    // TERMINATE, without deposit must create unlocked lockup for terminator
    let res = e.terminate(&users.eve, lockup_index).unwrap();
    assert_eq!(res, 0);

    e.ft_storage_deposit(&users.eve);
    let terminator_balance = e.ft_balance_of(&users.eve);
    assert_eq!(terminator_balance, 0);

    {
        let lockups = e.get_account_lockups(&users.eve);
        assert_eq!(lockups.len(), 1);
        assert_eq!(lockups[0].1.claimed_balance, 0);
        assert_eq!(lockups[0].1.unclaimed_balance, amount * 2 / 3);
        let terminator_lockup_index = lockups[0].0;

        // Claim from lockup refund
        let res = e.claim(&users.eve);
        assert_eq!(res, amount * 2 / 3);
        let balance = e.ft_balance_of(&users.eve);
        assert_eq!(balance, amount * 2 / 3);

        // Terminator's lockups should be empty, since fully claimed.
        let lockups = e.get_account_lockups(&users.eve);
        assert!(lockups.is_empty());

        // Manually checking the terminator's lockup by index
        let lockup = e.get_lockup(terminator_lockup_index);
        assert_eq!(lockup.claimed_balance, amount * 2 / 3);
        assert_eq!(lockup.unclaimed_balance, 0);
    }

    {
        let lockups = e.get_account_lockups(&users.alice);
        assert_eq!(lockups.len(), 1);
        assert_eq!(lockups[0].1.claimed_balance, 0);
        assert_eq!(lockups[0].1.unclaimed_balance, amount / 3);

        // Claim by user
        e.ft_storage_deposit(&users.alice);
        let balance = e.ft_balance_of(&users.alice);
        assert_eq!(balance, 0);

        let res = e.claim(&users.alice);
        assert_eq!(res, amount / 3);
        let balance = e.ft_balance_of(&users.alice);
        assert_eq!(balance, amount / 3);

        // User's lockups should be empty, since fully claimed.
        let lockups = e.get_account_lockups(&users.alice);
        assert!(lockups.is_empty());

        // Manually checking the terminator's lockup by index
        let lockup = e.get_lockup(lockup_index);
        assert_eq!(lockup.claimed_balance, amount / 3);
        assert_eq!(lockup.unclaimed_balance, 0);
    }
}

fn lockup_vesting_schedule(amount: u128) -> (Schedule, Schedule) {
    let lockup_schedule = Schedule(vec![
        cp(GENESIS_TIMESTAMP_SEC + ONE_YEAR_SEC * 2, 0),
        cp(GENESIS_TIMESTAMP_SEC + ONE_YEAR_SEC * 4, amount * 3 / 4),
        cp(GENESIS_TIMESTAMP_SEC + ONE_YEAR_SEC * 4 + 1, amount),
    ]);
    let vesting_schedule = Schedule(vec![
        cp(GENESIS_TIMESTAMP_SEC + ONE_YEAR_SEC - 1, 0),
        cp(GENESIS_TIMESTAMP_SEC + ONE_YEAR_SEC, amount / 4),
        cp(GENESIS_TIMESTAMP_SEC + ONE_YEAR_SEC * 4, amount),
    ]);
    (lockup_schedule, vesting_schedule)
}

#[test]
fn test_lockup_terminate_custom_vesting_hash() {
    let mut e = Env::init();
    let users = Users::init(&e);
    let amount = d(60000, TOKEN_DECIMALS);
    e.set_time_sec(GENESIS_TIMESTAMP_SEC);
    let lockups = e.get_account_lockups(&users.alice);
    assert!(lockups.is_empty());

    let (lockup_schedule, vesting_schedule) = lockup_vesting_schedule(amount);
    let vesting_hash = e.hash_schedule(&vesting_schedule);
    let lockup = lockup_of(
        &users.alice,
        lockup_schedule,
        terminable_by(&users.eve, Some(HashOrSchedule::Hash(vesting_hash))),
    );

    let balance = e.add_lockup(amount, lockup).unwrap();
    assert_eq!(balance, amount);
    let lockups = e.get_account_lockups(&users.alice);
    assert_eq!(lockups.len(), 1);
    let lockup_index = lockups[0].0;

    // 1Y, 1 / 4 vested, 0 unlocked
    e.set_time_sec(GENESIS_TIMESTAMP_SEC + ONE_YEAR_SEC);
    let lockups = e.get_account_lockups(&users.alice);
    assert_eq!(lockups[0].1.total_balance, amount);
    assert_eq!(lockups[0].1.claimed_balance, 0);
    assert_eq!(lockups[0].1.unclaimed_balance, 0);

    // TERMINATE
    e.ft_storage_deposit(&users.eve);
    let res = e.terminate_with_schedule(&users.eve, lockup_index, vesting_schedule).unwrap();
    assert_eq!(res, amount * 3 / 4);
    let terminator_balance = e.ft_balance_of(&users.eve);
    assert_eq!(terminator_balance, amount * 3 / 4);

    // Checking lockup
    let lockups = e.get_account_lockups(&users.alice);
    assert_eq!(lockups[0].1.total_balance, amount / 4);
    assert_eq!(lockups[0].1.claimed_balance, 0);
    assert_eq!(lockups[0].1.unclaimed_balance, 0);

    // Rewind to 2Y + Y * 2 / 3, 1/4 of the initial schedule unlocked, full vested unlock
    e.set_time_sec(GENESIS_TIMESTAMP_SEC + ONE_YEAR_SEC * 2 + ONE_YEAR_SEC * 2 / 3);
    let lockups = e.get_account_lockups(&users.alice);
    assert_eq!(lockups[0].1.total_balance, amount / 4);
    assert_eq!(lockups[0].1.claimed_balance, 0);
    assert_eq!(lockups[0].1.unclaimed_balance, amount / 4);

    // claiming
    e.ft_storage_deposit(&users.alice);
    let res = e.claim(&users.alice);
    assert_eq!(res, amount / 4);

    // Checking lockups
    let lockups = e.get_account_lockups(&users.alice);
    assert!(lockups.is_empty());

    // User lockups are empty
    let lockup = e.get_lockup(lockup_index);
    assert_eq!(lockup.total_balance, amount / 4);
    assert_eq!(lockup.claimed_balance, amount / 4);
    assert_eq!(lockup.unclaimed_balance, 0);
}

#[test]
fn test_lockup_terminate_custom_vesting_invalid_hash() {
    let mut e = Env::init();
    let users = Users::init(&e);
    let amount = d(60000, TOKEN_DECIMALS);
    e.set_time_sec(GENESIS_TIMESTAMP_SEC);
    let lockups = e.get_account_lockups(&users.alice);
    assert!(lockups.is_empty());

    let (lockup_schedule, vesting_schedule) = lockup_vesting_schedule(amount);
    let vesting_hash = e.hash_schedule(&vesting_schedule);
    let lockup = lockup_of(
        &users.alice,
        lockup_schedule,
        terminable_by(&users.eve, Some(HashOrSchedule::Hash(vesting_hash))),
    );

    let balance = e.add_lockup(amount, lockup).unwrap();
    assert_eq!(balance, amount);
    let lockups = e.get_account_lockups(&users.alice);
    assert_eq!(lockups.len(), 1);
    let lockup_index = lockups[0].0;

    // 1Y, 1 / 4 vested, 0 unlocked
    e.set_time_sec(GENESIS_TIMESTAMP_SEC + ONE_YEAR_SEC);
    let lockups = e.get_account_lockups(&users.alice);
    assert_eq!(lockups[0].1.total_balance, amount);
    assert_eq!(lockups[0].1.claimed_balance, 0);
    assert_eq!(lockups[0].1.unclaimed_balance, 0);

    // TERMINATE
    let fake_schedule = Schedule(vec![
        cp(GENESIS_TIMESTAMP_SEC + ONE_YEAR_SEC * 2, 0),
        cp(GENESIS_TIMESTAMP_SEC + ONE_YEAR_SEC * 4, amount),
    ]);
    e.ft_storage_deposit(&users.eve);
    let res = e.terminate_with_schedule(&users.eve, lockup_index, fake_schedule);
    assert!(!res.is_ok());
    assert!(res.unwrap_err().message().contains("The revealed schedule hash doesn't match"));
}

#[test]
fn test_lockup_terminate_custom_vesting_incompatible_vesting_schedule_by_hash() {
    let mut e = Env::init();
    let users = Users::init(&e);
    let amount = d(60000, TOKEN_DECIMALS);
    e.set_time_sec(GENESIS_TIMESTAMP_SEC);
    let lockups = e.get_account_lockups(&users.alice);
    assert!(lockups.is_empty());

    let (lockup_schedule, _vesting_schedule) = lockup_vesting_schedule(amount);
    let incompatible_vesting_schedule = Schedule(vec![
        cp(GENESIS_TIMESTAMP_SEC + ONE_YEAR_SEC * 4, 0),
        cp(GENESIS_TIMESTAMP_SEC + ONE_YEAR_SEC * 4 + 1, amount),
    ]);
    let incompatible_vesting_hash = e.hash_schedule(&incompatible_vesting_schedule);
    let lockup = lockup_of(
        &users.alice,
        lockup_schedule,
        terminable_by(&users.eve, Some(HashOrSchedule::Hash(incompatible_vesting_hash))),
    );

    let balance = e.add_lockup(amount, lockup).unwrap();
    assert_eq!(balance, amount);
    let lockups = e.get_account_lockups(&users.alice);
    assert_eq!(lockups.len(), 1);
    let lockup_index = lockups[0].0;

    // 1Y, 1 / 4 vested, 0 unlocked
    e.set_time_sec(GENESIS_TIMESTAMP_SEC + ONE_YEAR_SEC);
    let lockups = e.get_account_lockups(&users.alice);
    assert_eq!(lockups[0].1.total_balance, amount);
    assert_eq!(lockups[0].1.claimed_balance, 0);
    assert_eq!(lockups[0].1.unclaimed_balance, 0);

    // TERMINATE
    e.ft_storage_deposit(&users.eve);
    let res = e.terminate_with_schedule(&users.eve, lockup_index, incompatible_vesting_schedule);
    assert!(!res.is_ok());
    assert!(res.unwrap_err().message().contains("The lockup schedule is ahead of"));
}

#[test]
fn test_validate_schedule() {
    let mut e = Env::init();
    let users = Users::init(&e);
    let amount = d(60000, TOKEN_DECIMALS);
    e.set_time_sec(GENESIS_TIMESTAMP_SEC);
    let lockups = e.get_account_lockups(&users.alice);
    assert!(lockups.is_empty());

    let (lockup_schedule, vesting_schedule) = lockup_vesting_schedule(amount);

    let res = e.contract.validate_schedule(&lockup_schedule, amount, Some(&vesting_schedule));
    assert!(res.is_ok());

    let incompatible_vesting_schedule = Schedule(vec![
        cp(GENESIS_TIMESTAMP_SEC + ONE_YEAR_SEC * 4, 0),
        cp(GENESIS_TIMESTAMP_SEC + ONE_YEAR_SEC * 4 + 1, amount),
    ]);
    let res = e.contract.validate_schedule(
        &lockup_schedule,
        amount,
        Some(&incompatible_vesting_schedule),
    );
    assert!(!res.is_ok());
    assert!(res.unwrap_err().message().contains("The lockup schedule is ahead of"));
}

fn open_vesting_lockup(e: &mut Env, users: &Users, amount: u128) -> LockupIndex {
    let (lockup_schedule, vesting_schedule) = lockup_vesting_schedule(amount);
    let lockup = lockup_of(
        &users.alice,
        lockup_schedule,
        terminable_by(&users.eve, Some(HashOrSchedule::Schedule(vesting_schedule))),
    );
    let balance = e.add_lockup(amount, lockup).unwrap();
    assert_eq!(balance, amount);
    let lockups = e.get_account_lockups(&users.alice);
    assert_eq!(lockups.len(), 1);
    lockups[0].0
}

#[test]
fn test_lockup_terminate_custom_vesting_terminate_before_cliff() {
    let mut e = Env::init();
    let users = Users::init(&e);
    let amount = d(60000, TOKEN_DECIMALS);
    e.set_time_sec(GENESIS_TIMESTAMP_SEC);
    let lockups = e.get_account_lockups(&users.alice);
    assert!(lockups.is_empty());

    let lockup_index = open_vesting_lockup(&mut e, &users, amount);

    // 1Y - 1 before cliff termination
    e.set_time_sec(GENESIS_TIMESTAMP_SEC + ONE_YEAR_SEC - 1);
    let lockups = e.get_account_lockups(&users.alice);
    assert_eq!(lockups[0].1.total_balance, amount);
    assert_eq!(lockups[0].1.claimed_balance, 0);
    assert_eq!(lockups[0].1.unclaimed_balance, 0);

    // TERMINATE
    e.ft_storage_deposit(&users.eve);
    let res = e.terminate(&users.eve, lockup_index).unwrap();
    assert_eq!(res, amount);

    let terminator_balance = e.ft_balance_of(&users.eve);
    assert_eq!(terminator_balance, amount);

    // after ALL the schedules have finished
    let lockups = e.get_account_lockups(&users.alice);
    assert!(lockups.is_empty());

    let lockup = e.get_lockup(lockup_index);
    assert_eq!(lockup.total_balance, 0);
    assert_eq!(lockup.claimed_balance, 0);
    assert_eq!(lockup.unclaimed_balance, 0);

    // Trying to claim
    e.ft_storage_deposit(&users.alice);
    let res = e.claim(&users.alice);
    assert_eq!(res, 0);

    let balance = e.ft_balance_of(&users.alice);
    assert_eq!(balance, 0);
}

#[test]
fn test_lockup_terminate_custom_vesting_before_release() {
    let mut e = Env::init();
    let users = Users::init(&e);
    let amount = d(60000, TOKEN_DECIMALS);
    e.set_time_sec(GENESIS_TIMESTAMP_SEC);
    let lockups = e.get_account_lockups(&users.alice);
    assert!(lockups.is_empty());

    let lockup_index = open_vesting_lockup(&mut e, &users, amount);

    // 1Y, 1 / 4 vested, 0 unlocked
    e.set_time_sec(GENESIS_TIMESTAMP_SEC + ONE_YEAR_SEC);
    let lockups = e.get_account_lockups(&users.alice);
    assert_eq!(lockups[0].1.total_balance, amount);
    assert_eq!(lockups[0].1.claimed_balance, 0);
    assert_eq!(lockups[0].1.unclaimed_balance, 0);

    // TERMINATE
    e.ft_storage_deposit(&users.eve);
    let res = e.terminate(&users.eve, lockup_index).unwrap();
    assert_eq!(res, amount * 3 / 4);
    let terminator_balance = e.ft_balance_of(&users.eve);
    assert_eq!(terminator_balance, amount * 3 / 4);

    // Checking lockup
    let lockups = e.get_account_lockups(&users.alice);
    assert_eq!(lockups[0].1.total_balance, amount / 4);
    assert_eq!(lockups[0].1.claimed_balance, 0);
    assert_eq!(lockups[0].1.unclaimed_balance, 0);

    // Trying to claim
    e.ft_storage_deposit(&users.alice);
    let res = e.claim(&users.alice);
    assert_eq!(res, 0);

    // Rewind to 2Y + Y/3, 1/8 of the initial schedule should be unlocked
    e.set_time_sec(GENESIS_TIMESTAMP_SEC + ONE_YEAR_SEC * 2 + ONE_YEAR_SEC / 3);
    let lockups = e.get_account_lockups(&users.alice);
    assert_eq!(lockups[0].1.total_balance, amount / 4);
    assert_eq!(lockups[0].1.claimed_balance, 0);
    assert_eq!(lockups[0].1.unclaimed_balance, amount / 8);

    // claiming
    let res = e.claim(&users.alice);
    assert_eq!(res, amount / 8);

    // Rewind to 2Y + Y * 2 / 3, 1/4 of the initial schedule unlocked, full vested unlock
    e.set_time_sec(GENESIS_TIMESTAMP_SEC + ONE_YEAR_SEC * 2 + ONE_YEAR_SEC * 2 / 3);
    let lockups = e.get_account_lockups(&users.alice);
    assert_eq!(lockups[0].1.total_balance, amount / 4);
    assert_eq!(lockups[0].1.claimed_balance, amount / 8);
    assert_eq!(lockups[0].1.unclaimed_balance, amount / 8);

    // claiming
    let res = e.claim(&users.alice);
    assert_eq!(res, amount / 8);

    // Checking lockups
    let lockups = e.get_account_lockups(&users.alice);
    assert!(lockups.is_empty());

    // User lockups are empty
    let lockup = e.get_lockup(lockup_index);
    assert_eq!(lockup.total_balance, amount / 4);
    assert_eq!(lockup.claimed_balance, amount / 4);
    assert_eq!(lockup.unclaimed_balance, 0);
}

#[test]
fn test_lockup_terminate_custom_vesting_during_release() {
    let mut e = Env::init();
    let users = Users::init(&e);
    let amount = d(60000, TOKEN_DECIMALS);
    e.set_time_sec(GENESIS_TIMESTAMP_SEC);
    let lockups = e.get_account_lockups(&users.alice);
    assert!(lockups.is_empty());

    let lockup_index = open_vesting_lockup(&mut e, &users, amount);

    // 2Y + Y / 3, 1/8 unlocked
    e.set_time_sec(GENESIS_TIMESTAMP_SEC + ONE_YEAR_SEC * 2 + ONE_YEAR_SEC / 3);
    let lockups = e.get_account_lockups(&users.alice);
    assert_eq!(lockups[0].1.total_balance, amount);
    assert_eq!(lockups[0].1.claimed_balance, 0);
    assert_eq!(lockups[0].1.unclaimed_balance, amount / 8);

    // Trying to claim
    e.ft_storage_deposit(&users.alice);
    let res = e.claim(&users.alice);
    assert_eq!(res, amount / 8);

    // TERMINATE, 2Y + Y / 2, 5/8 unlocked
    e.set_time_sec(GENESIS_TIMESTAMP_SEC + ONE_YEAR_SEC * 2 + ONE_YEAR_SEC / 2);
    e.ft_storage_deposit(&users.eve);
    let res = e.terminate(&users.eve, lockup_index).unwrap();
    assert_eq!(res, amount * 3 / 8);
    let terminator_balance = e.ft_balance_of(&users.eve);
    assert_eq!(terminator_balance, amount * 3 / 8);

    // Checking lockup
    let lockups = e.get_account_lockups(&users.alice);
    assert_eq!(lockups[0].1.total_balance, amount * 5 / 8);
    assert_eq!(lockups[0].1.claimed_balance, amount / 8);
    assert_eq!(lockups[0].1.unclaimed_balance, amount / 16);

    // Rewind to 2Y + Y*2/3, 1/4 of the initial schedule should be unlocked
    e.set_time_sec(GENESIS_TIMESTAMP_SEC + ONE_YEAR_SEC * 2 + ONE_YEAR_SEC * 2 / 3);
    let lockups = e.get_account_lockups(&users.alice);
    assert_eq!(lockups[0].1.total_balance, amount * 5 / 8);
    assert_eq!(lockups[0].1.claimed_balance, amount / 8);
    assert_eq!(lockups[0].1.unclaimed_balance, amount / 8);

    // claiming
    let res = e.claim(&users.alice);
    assert_eq!(res, amount / 8);

    // Rewind to 3Y + Y * 2 / 3, 5/8 of the initial schedule unlocked, full vested unlock
    e.set_time_sec(GENESIS_TIMESTAMP_SEC + ONE_YEAR_SEC * 3 + ONE_YEAR_SEC * 2 / 3);
    let lockups = e.get_account_lockups(&users.alice);
    assert_eq!(lockups[0].1.total_balance, amount * 5 / 8);
    assert_eq!(lockups[0].1.claimed_balance, amount * 2 / 8);
    assert_eq!(lockups[0].1.unclaimed_balance, amount * 3 / 8);

    // claiming
    let res = e.claim(&users.alice);
    assert_eq!(res, amount * 3 / 8);

    // Checking lockups
    let lockups = e.get_account_lockups(&users.alice);
    assert!(lockups.is_empty());

    // User lockups are empty
    let lockup = e.get_lockup(lockup_index);
    assert_eq!(lockup.total_balance, amount * 5 / 8);
    assert_eq!(lockup.claimed_balance, amount * 5 / 8);
    assert_eq!(lockup.unclaimed_balance, 0);
}

#[test]
fn test_lockup_terminate_custom_vesting_during_lockup_cliff() {
    let mut e = Env::init();
    let users = Users::init(&e);
    let amount = d(60000, TOKEN_DECIMALS);
    e.set_time_sec(GENESIS_TIMESTAMP_SEC);
    let lockups = e.get_account_lockups(&users.alice);
    assert!(lockups.is_empty());

    let lockup_index = open_vesting_lockup(&mut e, &users, amount);

    // 2Y + Y * 2 / 3, 1/8 unlocked
    e.set_time_sec(GENESIS_TIMESTAMP_SEC + ONE_YEAR_SEC * 2 + ONE_YEAR_SEC * 2 / 3);
    let lockups = e.get_account_lockups(&users.alice);
    assert_eq!(lockups[0].1.total_balance, amount);
    assert_eq!(lockups[0].1.claimed_balance, 0);
    assert_eq!(lockups[0].1.unclaimed_balance, amount / 4);

    // Trying to claim
    e.ft_storage_deposit(&users.alice);
    let res = e.claim(&users.alice);
    assert_eq!(res, amount / 4);

    // TERMINATE, 3Y + Y / 3, 5/6 unlocked
    e.set_time_sec(GENESIS_TIMESTAMP_SEC + ONE_YEAR_SEC * 3 + ONE_YEAR_SEC / 3);
    e.ft_storage_deposit(&users.eve);
    let res = e.terminate(&users.eve, lockup_index).unwrap();
    assert_eq!(res, amount / 6);
    let terminator_balance = e.ft_balance_of(&users.eve);
    assert_eq!(terminator_balance, amount / 6);

    // Checking lockup
    let lockups = e.get_account_lockups(&users.alice);
    assert_eq!(lockups[0].1.total_balance, amount * 5 / 6);
    assert_eq!(lockups[0].1.claimed_balance, amount / 4);
    assert_eq!(lockups[0].1.unclaimed_balance, amount / 4);

    // claiming
    let res = e.claim(&users.alice);
    assert_eq!(res, amount / 4);

    // Rewind to 4Y
    e.set_time_sec(GENESIS_TIMESTAMP_SEC + ONE_YEAR_SEC * 4);
    let lockups = e.get_account_lockups(&users.alice);
    assert_eq!(lockups[0].1.total_balance, amount * 5 / 6);
    assert_eq!(lockups[0].1.claimed_balance, amount * 1 / 2);
    assert_eq!(lockups[0].1.unclaimed_balance, amount * 1 / 4);

    // Rewind to 4Y + 1, full unlock including part of cliff
    e.set_time_sec(GENESIS_TIMESTAMP_SEC + ONE_YEAR_SEC * 4 + 1);
    let lockups = e.get_account_lockups(&users.alice);
    assert_eq!(lockups[0].1.total_balance, amount * 5 / 6);
    assert_eq!(lockups[0].1.claimed_balance, amount * 1 / 2);
    assert_eq!(lockups[0].1.unclaimed_balance, amount * 1 / 3);

    // claiming
    let res = e.claim(&users.alice);
    assert_eq!(res, amount * 1 / 3);

    // Checking lockups
    let lockups = e.get_account_lockups(&users.alice);
    assert!(lockups.is_empty());

    // User lockups are empty
    let lockup = e.get_lockup(lockup_index);
    assert_eq!(lockup.total_balance, amount * 5 / 6);
    assert_eq!(lockup.claimed_balance, amount * 5 / 6);
    assert_eq!(lockup.unclaimed_balance, 0);
}

#[test]
fn test_deposit_whitelist_get() {
    let mut e = Env::init();
    let users = Users::init(&e);

    // deposit whitelist has owner by default
    let deposit_whitelist = e.contract.get_deposit_whitelist();
    assert_eq!(deposit_whitelist, vec![e.owner.clone()]);

    // add to whitelist
    let owner = e.owner.clone();
    let result = e.contract.add_to_deposit_whitelist(&owner, users.eve.clone());
    assert!(result.is_ok());

    let deposit_whitelist = e.contract.get_deposit_whitelist();
    assert_eq!(deposit_whitelist, vec![e.owner.clone(), users.eve.clone()]);

    // remove from whiltelist
    let result = e.contract.remove_from_deposit_whitelist(&users.eve, &owner);
    assert!(result.is_ok());

    let deposit_whitelist = e.contract.get_deposit_whitelist();
    assert_eq!(deposit_whitelist, vec![users.eve.clone()]);
}
