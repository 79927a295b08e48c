use crate::contract::{accounts_unique, contains_account, has_key, lemma_push_new_account, keys_unique, token_shares, Contract, WhitelistedToken};
use crate::error::LockupError;
use crate::mft::lemma_token_shares_at;
use vstd::prelude::*;

verus! {

/// Whether the pair (`exchange`, `pool_id`) is among `values`.
pub open spec fn pair_listed(values: Seq<(String, u64)>, exchange: Seq<char>, pool_id: u64) -> bool {
    exists|i: int| 0 <= i < values.len() && (#[trigger] values[i]).0@ == exchange && values[i].1 == pool_id
}

/// `list` without the entries that are `a`, in the same order.
pub open spec fn without_account(list: Seq<String>, a: Seq<char>) -> Seq<String>
    decreases list.len(),
{
    if list.len() == 0 {
        list
    } else {
        let rest = without_account(list.drop_last(), a);
        if list.last()@ == a {
            rest
        } else {
            rest.push(list.last())
        }
    }
}

/// Removing an account keeps a list without repeats, and leaves only accounts of the list.
proof fn lemma_without_account_unique(list: Seq<String>, a: Seq<char>)
    requires
        accounts_unique(list),
    ensures
        accounts_unique(without_account(list, a)),
        forall|x: Seq<char>|
            contains_account(#[trigger] without_account(list, a), x) ==> contains_account(list, x),
    decreases list.len(),
{
    if list.len() > 0 {
        let d = list.drop_last();
        assert forall|i: int, j: int| #![trigger d[i], d[j]] 0 <= i < j < d.len() implies d[i]@
            != d[j]@ by {
            assert(d[i] == list[i] && d[j] == list[j]);
        }
        lemma_without_account_unique(d, a);
        let rest = without_account(d, a);
        assert forall|x: Seq<char>| contains_account(d, x) implies contains_account(list, x) by {
            let k = choose|k: int| 0 <= k < d.len() && (#[trigger] d[k])@ == x;
            assert(list[k] == d[k]);
        }
        if list.last()@ != a {
            if contains_account(rest, list.last()@) {
                assert(contains_account(d, list.last()@));
                let k = choose|k: int| 0 <= k < d.len() && (#[trigger] d[k])@ == list.last()@;
                assert(list[k] == d[k]);
                assert(list[k]@ != list[list.len() - 1]@);
            }
            lemma_push_new_account(rest, list.last());
            let w = rest.push(list.last());
            assert forall|x: Seq<char>| contains_account(w, x) implies contains_account(list, x) by {
                let k = choose|k: int| 0 <= k < w.len() && (#[trigger] w[k])@ == x;
                if k < rest.len() {
                    assert(w[k] == rest[k]);
                } else {
                    assert(list[list.len() - 1]@ == x);
                }
            }
        }
    }
}

proof fn lemma_push_new_key(ts: Seq<WhitelistedToken>, t: WhitelistedToken)
    requires
        keys_unique(ts),
        token_shares(ts, t.exchange_id@, t.pool_id) is None,
    ensures
        keys_unique(ts.push(t)),
        forall|ex: Seq<char>, p: u64|
            #[trigger] token_shares(ts.push(t), ex, p) == if has_key(t, ex, p) {
                Some(t.shares)
            } else {
                token_shares(ts, ex, p)
            },
{
    let u = ts.push(t);
    assert forall|a: int, b: int| #![trigger u[a], u[b]]
        0 <= a < b < u.len() implies !has_key(u[b], u[a].exchange_id@, u[a].pool_id) by {
        if b < ts.len() {
            assert(u[a] == ts[a] && u[b] == ts[b]);
        } else {
            assert(u[a] == ts[a]);
            if has_key(t, ts[a].exchange_id@, ts[a].pool_id) {
                assert(has_key(ts[a], t.exchange_id@, t.pool_id));
            }
        }
    }
    assert forall|ex: Seq<char>, p: u64|
        #[trigger] token_shares(u, ex, p) == if has_key(t, ex, p) {
            Some(t.shares)
        } else {
            token_shares(ts, ex, p)
        } by {
        if has_key(t, ex, p) {
            lemma_token_shares_at(u, ts.len() as int, ex, p);
        } else if exists|j: int| 0 <= j < ts.len() && has_key(#[trigger] ts[j], ex, p) {
            let j = choose|j: int| 0 <= j < ts.len() && has_key(#[trigger] ts[j], ex, p);
            lemma_token_shares_at(ts, j, ex, p);
            assert(u[j] == ts[j]);
            lemma_token_shares_at(u, j, ex, p);
        } else {
            assert forall|j: int| 0 <= j < u.len() implies !has_key(#[trigger] u[j], ex, p) by {
                if j < ts.len() {
                    assert(u[j] == ts[j]);
                }
            }
        }
    }
}

fn pair_in(values: &Vec<(String, u64)>, exchange: &String, pool_id: u64) -> (r: bool)
    ensures
        r == pair_listed(values@, exchange@, pool_id),
{
    let mut i: usize = 0;
    while i < values.len()
        invariant
            i <= values@.len(),
            forall|k: int|
                0 <= k < i ==> !((#[trigger] values@[k]).0@ == exchange@ && values@[k].1 == pool_id),
        decreases values@.len() - i,
    {
        if values[i].1 == pool_id && values[i].0 == *exchange {
            return true;
        }
        i = i + 1;
    }
    false
}

impl Contract {
    /// Pauses or resumes LP deposits; `caller` must be on the deposit whitelist.
    pub fn set_state(&mut self, caller: &String, enabled: bool) -> (r: Result<(), LockupError>)
        requires
            old(self).wf(),
        ensures
            final(self).wf(),
            r is Ok <==> contains_account(old(self).deposit_whitelist@, caller@),
            r is Err ==> r == Err::<(), LockupError>(LockupError::Unauthorized) && final(self).enabled
                == old(self).enabled,
            r is Ok ==> final(self).enabled == enabled,
            final(self).token_account_id == old(self).token_account_id,
            final(self).lockups == old(self).lockups,
            final(self).deposit_whitelist == old(self).deposit_whitelist,
            final(self).whitelisted_tokens == old(self).whitelisted_tokens,
            final(self).incent_total_amount == old(self).incent_total_amount,
            final(self).incent_locked_amount == old(self).incent_locked_amount,
    {
        if !self.is_deposit_whitelisted(caller) {
            return Err(LockupError::Unauthorized);
        }
        self.enabled = enabled;
        Ok(())
    }

    /// Whitelists the (exchange, pool) pairs of `values`, each new one with no shares; pairs
    /// already whitelisted keep theirs. `caller` must be on the deposit whitelist.
    pub fn add_to_whitelist(&mut self, caller: &String, values: Vec<(String, u64)>) -> (r: Result<
        (),
        LockupError,
    >)
        requires
            old(self).wf(),
        ensures
            final(self).wf(),
            r is Ok <==> contains_account(old(self).deposit_whitelist@, caller@),
            r is Err ==> r == Err::<(), LockupError>(LockupError::Unauthorized)
                && final(self).whitelisted_tokens == old(self).whitelisted_tokens,
            r is Ok ==> forall|ex: Seq<char>, p: u64|
                #[trigger] token_shares(final(self).whitelisted_tokens@, ex, p) == if token_shares(
                    old(self).whitelisted_tokens@,
                    ex,
                    p,
                ) is Some {
                    token_shares(old(self).whitelisted_tokens@, ex, p)
                } else if pair_listed(values@, ex, p) {
                    Some(0u128)
                } else {
                    None
                },
            final(self).token_account_id == old(self).token_account_id,
            final(self).lockups == old(self).lockups,
            final(self).deposit_whitelist == old(self).deposit_whitelist,
            final(self).incent_total_amount == old(self).incent_total_amount,
            final(self).incent_locked_amount == old(self).incent_locked_amount,
            final(self).enabled == old(self).enabled,
    {
        if !self.is_deposit_whitelisted(caller) {
            return Err(LockupError::Unauthorized);
        }
        let mut k: usize = 0;
        while k < values.len()
            invariant
                self.wf(),
                k <= values@.len(),
                forall|ex: Seq<char>, p: u64|
                    #[trigger] token_shares(self.whitelisted_tokens@, ex, p) == if token_shares(
                        old(self).whitelisted_tokens@,
                        ex,
                        p,
                    ) is Some {
                        token_shares(old(self).whitelisted_tokens@, ex, p)
                    } else if pair_listed(values@.take(k as int), ex, p) {
                        Some(0u128)
                    } else {
                        None
                    },
                self.token_account_id == old(self).token_account_id,
                self.lockups == old(self).lockups,
                self.deposit_whitelist == old(self).deposit_whitelist,
                self.incent_total_amount == old(self).incent_total_amount,
                self.incent_locked_amount == old(self).incent_locked_amount,
                self.enabled == old(self).enabled,
            decreases values@.len() - k,
        {
            let exchange = &values[k].0;
            let pool_id = values[k].1;
            let ghost before = self.whitelisted_tokens@;
            if self.find_token(exchange, pool_id).is_none() {
                let t = WhitelistedToken { exchange_id: exchange.clone(), pool_id, shares: 0 };
                proof {
                    lemma_push_new_key(before, t);
                }
                self.whitelisted_tokens.push(t);
            }
            proof {
                let vk = values@.take(k as int);
                let vk1 = values@.take(k as int + 1);
                assert forall|ex: Seq<char>, p: u64|
                    pair_listed(vk1, ex, p) == (pair_listed(vk, ex, p) || (ex == exchange@ && p
                        == pool_id)) by {
                    if pair_listed(vk, ex, p) {
                        let i = choose|i: int|
                            0 <= i < vk.len() && (#[trigger] vk[i]).0@ == ex && vk[i].1 == p;
                        assert(vk1[i] == vk[i]);
                    }
                    if pair_listed(vk1, ex, p) {
                        let i = choose|i: int|
                            0 <= i < vk1.len() && (#[trigger] vk1[i]).0@ == ex && vk1[i].1 == p;
                        if i < k {
                            assert(vk1[i] == vk[i]);
                        }
                    }
                    if ex == exchange@ && p == pool_id {
                        assert(vk1[k as int] == values@[k as int]);
                    }
                }
            }
            k = k + 1;
        }
        assert(values@.take(values@.len() as int) =~= values@);
        Ok(())
    }

    /// Removes the (exchange, pool) pairs of `values` from the whitelist. Refused, with nothing
    /// removed, while any of them still holds shares. `caller` must be on the deposit
    /// whitelist.
    pub fn remove_from_whitelist(&mut self, caller: &String, values: Vec<(String, u64)>) -> (r:
        Result<(), LockupError>)
        requires
            old(self).wf(),
        ensures
            final(self).wf(),
            !contains_account(old(self).deposit_whitelist@, caller@) ==> r == Err::<(), LockupError>(
                LockupError::Unauthorized,
            ),
            contains_account(old(self).deposit_whitelist@, caller@) ==> (r is Ok <==> forall|
                ex: Seq<char>,
                p: u64,
            |
                pair_listed(values@, ex, p) && #[trigger] token_shares(
                    old(self).whitelisted_tokens@,
                    ex,
                    p,
                ) is Some ==> token_shares(old(self).whitelisted_tokens@, ex, p)->0 == 0),
            r is Err ==> final(self).whitelisted_tokens == old(self).whitelisted_tokens,
            r is Err && contains_account(old(self).deposit_whitelist@, caller@) ==> r == Err::<
                (),
                LockupError,
            >(LockupError::WhitelistNotEmpty),
            r is Ok ==> forall|ex: Seq<char>, p: u64|
                #[trigger] token_shares(final(self).whitelisted_tokens@, ex, p) == if pair_listed(
                    values@,
                    ex,
                    p,
                ) {
                    None
                } else {
                    token_shares(old(self).whitelisted_tokens@, ex, p)
                },
            final(self).token_account_id == old(self).token_account_id,
            final(self).lockups == old(self).lockups,
            final(self).deposit_whitelist == old(self).deposit_whitelist,
            final(self).incent_total_amount == old(self).incent_total_amount,
            final(self).incent_locked_amount == old(self).incent_locked_amount,
            final(self).enabled == old(self).enabled,
    {
        if !self.is_deposit_whitelisted(caller) {
            return Err(LockupError::Unauthorized);
        }
        let ghost ts = self.whitelisted_tokens@;
        let mut k: usize = 0;
        while k < values.len()
            invariant
                self.wf(),
                ts == self.whitelisted_tokens@,
                k <= values@.len(),
                contains_account(old(self).deposit_whitelist@, caller@),
                self.token_account_id == old(self).token_account_id,
                self.lockups == old(self).lockups,
                self.deposit_whitelist == old(self).deposit_whitelist,
                self.whitelisted_tokens == old(self).whitelisted_tokens,
                self.incent_total_amount == old(self).incent_total_amount,
                self.incent_locked_amount == old(self).incent_locked_amount,
                self.enabled == old(self).enabled,
                forall|i: int, j: int|
                    0 <= i < k && 0 <= j < ts.len() && has_key(
                        #[trigger] ts[j],
                        (#[trigger] values@[i]).0@,
                        values@[i].1,
                    ) ==> ts[j].shares == 0,
            decreases values@.len() - k,
        {
            match self.find_token(&values[k].0, values[k].1) {
                Some(i) => {
                    if self.whitelisted_tokens[i].shares != 0 {
                        proof {
                            assert(pair_listed(values@, values@[k as int].0@, values@[k as int].1));
                        }
                        return Err(LockupError::WhitelistNotEmpty);
                    }
                },
                None => {},
            }
            proof {
                assert forall|j: int|
                    0 <= j < ts.len() && has_key(
                        #[trigger] ts[j],
                        values@[k as int].0@,
                        values@[k as int].1,
                    ) implies ts[j].shares == 0 by {
                    lemma_token_shares_at(ts, j, values@[k as int].0@, values@[k as int].1);
                }
            }
            k = k + 1;
        }
        proof {
            assert forall|ex: Seq<char>, p: u64|
                pair_listed(values@, ex, p) && #[trigger] token_shares(ts, ex, p) is Some implies token_shares(
                    ts,
                    ex,
                    p,
                )->0 == 0 by {
                let i = choose|i: int|
                    0 <= i < values@.len() && (#[trigger] values@[i]).0@ == ex && values@[i].1 == p;
                let j = choose|j: int| 0 <= j < ts.len() && has_key(#[trigger] ts[j], ex, p);
                lemma_token_shares_at(ts, j, ex, p);
            }
        }
        let mut kept: Vec<WhitelistedToken> = Vec::new();
        let ghost mut src: Seq<int> = Seq::empty();
        let mut j: usize = 0;
        while j < self.whitelisted_tokens.len()
            invariant
                self.wf(),
                ts == self.whitelisted_tokens@,
                j <= ts.len(),
                src.len() == kept@.len(),
                forall|a: int| 0 <= a < src.len() ==> 0 <= #[trigger] src[a] < j,
                forall|a: int, b: int| 0 <= a < b < src.len() ==> #[trigger] src[a] < #[trigger] src[b],
                forall|a: int| 0 <= a < src.len() ==> kept@[a] == ts[#[trigger] src[a]],
                forall|a: int|
                    0 <= a < src.len() ==> !pair_listed(
                        values@,
                        ts[#[trigger] src[a]].exchange_id@,
                        ts[src[a]].pool_id,
                    ),
                forall|i: int|
                    0 <= i < j && !pair_listed(values@, (#[trigger] ts[i]).exchange_id@, ts[i].pool_id)
                        ==> exists|a: int| 0 <= a < src.len() && src[a] == i,
            decreases ts.len() - j,
        {
            let t = &self.whitelisted_tokens[j];
            let ghost prev = src;
            if !pair_in(&values, &t.exchange_id, t.pool_id) {
                kept.push(
                    WhitelistedToken {
                        exchange_id: t.exchange_id.clone(),
                        pool_id: t.pool_id,
                        shares: t.shares,
                    },
                );
                proof {
                    src = src.push(j as int);
                }
            }
            proof {
                assert forall|i: int|
                    0 <= i < j + 1 && !pair_listed(
                        values@,
                        (#[trigger] ts[i]).exchange_id@,
                        ts[i].pool_id,
                    ) implies exists|a: int| 0 <= a < src.len() && src[a] == i by {
                    if i == j {
                        assert(src[src.len() - 1] == i);
                    } else {
                        let a = choose|a: int| 0 <= a < prev.len() && prev[a] == i;
                        assert(src[a] == prev[a]);
                    }
                }
            }
            j = j + 1;
        }
        proof {
            let u = kept@;
            assert forall|a: int, b: int| #![trigger u[a], u[b]]
                0 <= a < b < u.len() implies !has_key(u[b], u[a].exchange_id@, u[a].pool_id) by {
                assert(src[a] < src[b]);
                assert(!has_key(ts[src[b]], ts[src[a]].exchange_id@, ts[src[a]].pool_id));
            }
            assert forall|ex: Seq<char>, p: u64|
                #[trigger] token_shares(u, ex, p) == if pair_listed(values@, ex, p) {
                    None
                } else {
                    token_shares(ts, ex, p)
                } by {
                if exists|a: int| 0 <= a < u.len() && has_key(#[trigger] u[a], ex, p) {
                    let a = choose|a: int| 0 <= a < u.len() && has_key(#[trigger] u[a], ex, p);
                    lemma_token_shares_at(u, a, ex, p);
                    lemma_token_shares_at(ts, src[a], ex, p);
                } else if !pair_listed(values@, ex, p) && exists|i: int|
                    0 <= i < ts.len() && has_key(#[trigger] ts[i], ex, p) {
                    let i = choose|i: int| 0 <= i < ts.len() && has_key(#[trigger] ts[i], ex, p);
                    let a = choose|a: int| 0 <= a < src.len() && src[a] == i;
                    assert(has_key(u[a], ex, p));
                }
            }
        }
        self.whitelisted_tokens = kept;
        Ok(())
    }

    /// Adds `account` to the deposit whitelist, where it is not on it yet. `caller` must be on
    /// the deposit whitelist.
    pub fn add_to_deposit_whitelist(&mut self, caller: &String, account: String) -> (r: Result<
        (),
        LockupError,
    >)
        requires
            old(self).wf(),
        ensures
            final(self).wf(),
            r is Ok <==> contains_account(old(self).deposit_whitelist@, caller@),
            r is Err ==> r == Err::<(), LockupError>(LockupError::Unauthorized)
                && final(self).deposit_whitelist == old(self).deposit_whitelist,
            r is Ok ==> final(self).deposit_whitelist@ == if contains_account(
                old(self).deposit_whitelist@,
                account@,
            ) {
                old(self).deposit_whitelist@
            } else {
                old(self).deposit_whitelist@.push(account)
            },
            final(self).token_account_id == old(self).token_account_id,
            final(self).lockups == old(self).lockups,
            final(self).whitelisted_tokens == old(self).whitelisted_tokens,
            final(self).incent_total_amount == old(self).incent_total_amount,
            final(self).incent_locked_amount == old(self).incent_locked_amount,
            final(self).enabled == old(self).enabled,
    {
        if !self.is_deposit_whitelisted(caller) {
            return Err(LockupError::Unauthorized);
        }
        if !self.is_deposit_whitelisted(&account) {
            proof {
                lemma_push_new_account(self.deposit_whitelist@, account);
            }
            self.deposit_whitelist.push(account);
        }
        Ok(())
    }

    /// Removes `account` from the deposit whitelist. Refused where that would leave the list
    /// empty. `caller` must be on the deposit whitelist.
    pub fn remove_from_deposit_whitelist(&mut self, caller: &String, account: &String) -> (r: Result<
        (),
        LockupError,
    >)
        requires
            old(self).wf(),
        ensures
            final(self).wf(),
            !contains_account(old(self).deposit_whitelist@, caller@) ==> r == Err::<(), LockupError>(
                LockupError::Unauthorized,
            ),
            contains_account(old(self).deposit_whitelist@, caller@) && without_account(
                old(self).deposit_whitelist@,
                account@,
            ).len() == 0 ==> r == Err::<(), LockupError>(LockupError::LastWhitelistEntry),
            r is Ok <==> contains_account(old(self).deposit_whitelist@, caller@) && without_account(
                old(self).deposit_whitelist@,
                account@,
            ).len() > 0,
            r is Err ==> final(self).deposit_whitelist == old(self).deposit_whitelist,
            r is Ok ==> final(self).deposit_whitelist@ == without_account(
                old(self).deposit_whitelist@,
                account@,
            ),
            final(self).token_account_id == old(self).token_account_id,
            final(self).lockups == old(self).lockups,
            final(self).whitelisted_tokens == old(self).whitelisted_tokens,
            final(self).incent_total_amount == old(self).incent_total_amount,
            final(self).incent_locked_amount == old(self).incent_locked_amount,
            final(self).enabled == old(self).enabled,
    {
        if !self.is_deposit_whitelisted(caller) {
            return Err(LockupError::Unauthorized);
        }
        let mut kept: Vec<String> = Vec::new();
        let mut i: usize = 0;
        while i < self.deposit_whitelist.len()
            invariant
                i <= self.deposit_whitelist@.len(),
                kept@ == without_account(self.deposit_whitelist@.take(i as int), account@),
            decreases self.deposit_whitelist@.len() - i,
        {
            let entry = &self.deposit_whitelist[i];
            if *entry != *account {
                kept.push(entry.clone());
            }
            proof {
                let t = self.deposit_whitelist@.take(i as int + 1);
                assert(t.drop_last() =~= self.deposit_whitelist@.take(i as int));
            }
            i = i + 1;
        }
        assert(self.deposit_whitelist@.take(i as int) =~= self.deposit_whitelist@);
        if kept.len() == 0 {
            return Err(LockupError::LastWhitelistEntry);
        }
        proof {
            lemma_without_account_unique(self.deposit_whitelist@, account@);
        }
        self.deposit_whitelist = kept;
        Ok(())
    }
}

} // verus!
