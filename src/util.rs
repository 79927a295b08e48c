use crate::arith::{mul_div, u256_bound};
use crate::schedule::{Balance, TimestampSec};
use vstd::prelude::*;
use vstd::string::StrSliceExecFns;

verus! {

/// Nanoseconds since the epoch, as the host's block time gives them.
pub type Timestamp = u64;

/// A unit of execution cost.
pub type Gas = u64;

/// Nanoseconds in a second.
pub const NANOS_PER_SEC: u64 = 1_000_000_000;

/// Whole seconds in `timestamp` nanoseconds.
pub fn nano_to_sec(timestamp: Timestamp) -> (r: TimestampSec)
    requires
        timestamp as int / NANOS_PER_SEC as int <= u32::MAX,
    ensures
        r == timestamp as int / NANOS_PER_SEC as int,
{
    (timestamp / NANOS_PER_SEC) as TimestampSec
}

/// Whether every character is a decimal digit.
pub open spec fn all_digits(s: Seq<char>) -> bool {
    forall|i: int| 0 <= i < s.len() ==> '0' <= #[trigger] s[i] <= '9'
}

/// The number the decimal digits `s` spell.
pub open spec fn digits_value(s: Seq<char>) -> int
    decreases s.len(),
{
    if s.len() == 0 {
        0
    } else {
        digits_value(s.drop_last()) * 10 + (s.last() as int - '0' as int)
    }
}

/// A `u64` written in decimal, as `str::parse::<u64>` reads it: an optional `+`, then at least
/// one digit, and a value that fits.
pub open spec fn parse_u64(s: Seq<char>) -> Option<u64> {
    let d = if s.len() > 0 && s[0] == '+' {
        s.drop_first()
    } else {
        s
    };
    if d.len() > 0 && all_digits(d) && digits_value(d) <= u64::MAX {
        Some(digits_value(d) as u64)
    } else {
        None
    }
}

/// The position of the first `c` in `s`, if any.
pub open spec fn first_index_of(s: Seq<char>, c: char) -> Option<int> {
    if exists|i: int| 0 <= i < s.len() && s[i] == c {
        Some(choose|i: int| 0 <= i < s.len() && s[i] == c && forall|k: int| 0 <= k < i ==> s[k] != c)
    } else {
        None
    }
}

/// The pool of a token id of the form `<contract_id>@<pool_id>`: the text after the first `@`
/// up to the next `@` or the end.
pub open spec fn pool_part(s: Seq<char>, at: int) -> Seq<char> {
    let rest = s.subrange(at + 1, s.len() as int);
    match first_index_of(rest, '@') {
        Some(k) => rest.take(k),
        None => rest,
    }
}

/// The contract id and the pool id that a token id of the form `<contract_id>@<pool_id>` names,
/// if it has that form.
pub open spec fn parsed_token_id(s: Seq<char>) -> Option<(Seq<char>, u64)> {
    match first_index_of(s, '@') {
        Some(at) => match parse_u64(pool_part(s, at)) {
            Some(pool_id) => Some((s.take(at), pool_id)),
            None => None,
        },
        None => None,
    }
}

proof fn lemma_digits_value_grows(s: Seq<char>, i: int)
    requires
        all_digits(s),
        0 <= i <= s.len(),
    ensures
        digits_value(s.take(i)) <= digits_value(s),
        0 <= digits_value(s.take(i)),
    decreases s.len() - i,
{
    if i < s.len() {
        lemma_digits_value_grows(s, i + 1);
        assert(s.take(i + 1).drop_last() =~= s.take(i));
        assert(s.take(i + 1).last() == s[i]);
        assert(all_digits(s.take(i + 1)));
    } else {
        assert(s.take(i) =~= s);
        lemma_digits_value_nonneg(s);
    }
}

proof fn lemma_digits_value_nonneg(s: Seq<char>)
    requires
        all_digits(s),
    ensures
        0 <= digits_value(s),
    decreases s.len(),
{
    if s.len() > 0 {
        assert(all_digits(s.drop_last()));
        lemma_digits_value_nonneg(s.drop_last());
    }
}

/// Reads a decimal `u64` from the characters `from..to` of `s`.
fn parse_u64_range(s: &str, from: usize, to: usize) -> (r: Option<u64>)
    requires
        from <= to <= s@.len(),
    ensures
        r == parse_u64(s@.subrange(from as int, to as int)),
{
    let ghost whole = s@.subrange(from as int, to as int);
    let mut start = from;
    if from < to && s.get_char(from) == '+' {
        start = from + 1;
    }
    let ghost d = s@.subrange(start as int, to as int);
    proof {
        if from < to && s@[from as int] == '+' {
            assert(whole[0] == '+');
            assert(whole.drop_first() =~= d);
        } else {
            if whole.len() > 0 {
                assert(whole[0] == s@[from as int]);
            }
            assert(whole =~= d);
        }
        assert(parse_u64(whole) == (if d.len() > 0 && all_digits(d) && digits_value(d) <= u64::MAX {
            Some(digits_value(d) as u64)
        } else {
            None::<u64>
        }));
    }
    if start == to {
        return None;
    }
    let mut value: u64 = 0;
    let mut i = start;
    while i < to
        invariant
            from <= start <= i <= to <= s@.len(),
            d == s@.subrange(start as int, to as int),
            start < to,
            parse_u64(s@.subrange(from as int, to as int)) == (if all_digits(d) && digits_value(d)
                <= u64::MAX {
                Some(digits_value(d) as u64)
            } else {
                None::<u64>
            }),
            all_digits(d.take(i - start)),
            value == digits_value(d.take(i - start)),
        decreases to - i,
    {
        let c = s.get_char(i);
        let ghost k = i - start;
        proof {
            assert(d[k] == c);
            assert(d.take(k + 1).drop_last() =~= d.take(k));
            assert(d.take(k + 1).last() == c);
        }
        if c < '0' || c > '9' {
            assert(!all_digits(d));
            return None;
        }
        let digit = (c as u32 - '0' as u32) as u64;
        if value > (u64::MAX - digit) / 10 {
            proof {
                assert(all_digits(d.take(k + 1)));
                assert(value * 10 + digit > u64::MAX) by (nonlinear_arith)
                    requires
                        value > (u64::MAX - digit) / 10,
                        digit <= 9,
                ;
                if all_digits(d) {
                    lemma_digits_value_grows(d, k + 1);
                }
            }
            return None;
        }
        value = value * 10 + digit;
        i = i + 1;
        proof {
            assert(all_digits(d.take(k + 1)));
        }
    }
    assert(d.take(to - start) =~= d);
    Some(value)
}

/// Reads a pool id from a token id of the form `:<pool_id>`.
pub fn try_identify_sub_token_id(token_id: &String) -> (r: Result<u64, &'static str>)
    ensures
        r is Ok <==> (token_id@.len() > 0 && token_id@[0] == ':' && parse_u64(token_id@.drop_first())
            is Some),
        r is Ok ==> r->Ok_0 == parse_u64(token_id@.drop_first())->0,
        r is Err ==> r->Err_0@ == "Illegal pool id"@,
{
    let s = token_id.as_str();
    let n = s.unicode_len();
    if n > 0 && s.get_char(0) == ':' {
        assert(s@.subrange(1, n as int) =~= token_id@.drop_first());
        match parse_u64_range(s, 1, n) {
            Some(pool_id) => Ok(pool_id),
            None => Err("Illegal pool id"),
        }
    } else {
        Err("Illegal pool id")
    }
}

/// Reads the contract id and the pool id from a token id of the form
/// `<contract_id>@<pool_id>`: the contract id is the text before the first `@`.
pub fn try_identify_contract_id_and_sub_token_id(token_id: &String) -> (r: Result<
    (String, u64),
    &'static str,
>)
    ensures
        r is Ok <==> (first_index_of(token_id@, '@') is Some && parse_u64(
            pool_part(token_id@, first_index_of(token_id@, '@')->0),
        ) is Some),
        r is Ok ==> {
            let at = first_index_of(token_id@, '@')->0;
            &&& r->Ok_0.0@ == token_id@.take(at)
            &&& r->Ok_0.1 == parse_u64(pool_part(token_id@, at))->0
        },
        r is Ok <==> parsed_token_id(token_id@) is Some,
        first_index_of(token_id@, '@') is None ==> r is Err && r->Err_0@ == "Missing pool id"@,
        first_index_of(token_id@, '@') is Some && r is Err ==> r->Err_0@ == "Illegal pool id"@,
        r is Ok ==> parsed_token_id(token_id@) == Some((r->Ok_0.0@, r->Ok_0.1)),
{
    let s = token_id.as_str();
    let n = s.unicode_len();
    let mut at: usize = 0;
    while at < n && s.get_char(at) != '@'
        invariant
            at <= n == s@.len(),
            s@ == token_id@,
            forall|k: int| 0 <= k < at ==> s@[k] != '@',
        decreases n - at,
    {
        at = at + 1;
    }
    if at == n {
        return Err("Missing pool id");
    }
    proof {
        let chosen = first_index_of(token_id@, '@')->0;
        assert(token_id@[at as int] == '@');
        assert(chosen == at as int) by {
            if chosen < at {
                assert(s@[chosen] != '@');
            } else if chosen > at {
            }
        }
    }
    let mut end: usize = at + 1;
    while end < n && s.get_char(end) != '@'
        invariant
            at < end <= n == s@.len(),
            s@ == token_id@,
            forall|k: int| at < k < end ==> s@[k] != '@',
        decreases n - end,
    {
        end = end + 1;
    }
    proof {
        let rest = token_id@.subrange(at + 1, n as int);
        if end < n {
            assert(rest[end - at - 1] == '@');
            let chosen = first_index_of(rest, '@')->0;
            assert(chosen == end - at - 1) by {
                if chosen < end - at - 1 {
                    assert(rest[chosen] == s@[at + 1 + chosen]);
                } else if chosen > end - at - 1 {
                }
            }
            assert(rest.take(end - at - 1) =~= s@.subrange(at + 1, end as int));
        } else {
            assert forall|k: int| 0 <= k < rest.len() implies rest[k] != '@' by {
                assert(rest[k] == s@[at + 1 + k]);
            }
            assert(rest =~= s@.subrange(at + 1, end as int));
        }
    }
    let pool_id = match parse_u64_range(s, at + 1, end) {
        Some(p) => p,
        None => return Err("Illegal pool id"),
    };
    let contract_id = s.substring_char(0, at).to_owned();
    assert(contract_id@ =~= token_id@.take(at as int));
    Ok((contract_id, pool_id))
}

/// The incentive grant for `user_shares` of a pool that holds `amount` of the escrowed token
/// and has issued `shares_total_supply` shares: `user_shares * amount * 2.4 / shares_total_supply`,
/// rounded down.
pub open spec fn lockup_grant(user_shares: int, amount: int, shares_total_supply: int) -> int {
    user_shares * amount * (2 * 12) / shares_total_supply / 10
}

/// Whether the grant can be computed: a non-empty pool, a product that fits in 256 bits and a
/// result that fits in 128.
pub open spec fn grant_computable(user_shares: int, amount: int, shares_total_supply: int) -> bool {
    &&& shares_total_supply > 0
    &&& user_shares * amount * (2 * 12) < u256_bound()
    &&& lockup_grant(user_shares, amount, shares_total_supply) <= u128::MAX
}

/// The incentive grant, or `None` where it cannot be computed.
pub fn try_calculate_for_lockup(user_shares: u128, amount: u128, shares_total_supply: u128) -> (r:
    Option<Balance>)
    ensures
        r is Some <==> grant_computable(user_shares as int, amount as int, shares_total_supply as int),
        r is Some ==> r->0 == lockup_grant(user_shares as int, amount as int, shares_total_supply as int),
{
    if shares_total_supply == 0 {
        return None;
    }
    mul_div(user_shares, amount, 2 * 12, shares_total_supply, 10)
}

/// The incentive grant for `user_shares` of a pool (see `lockup_grant`).
pub fn calculate_for_lockup(user_shares: u128, amount: u128, shares_total_supply: u128) -> (r: Balance)
    requires
        grant_computable(user_shares as int, amount as int, shares_total_supply as int),
    ensures
        r == lockup_grant(user_shares as int, amount as int, shares_total_supply as int),
{
    match try_calculate_for_lockup(user_shares, amount, shares_total_supply) {
        Some(g) => g,
        None => 0,
    }
}

/// The gas left for a callback once `used_gas`, `gas_reserve` and `gas_for_cross_call` are taken
/// from `prepaid_gas`; an error unless that leaves at least `minimum_gas_for_callback`.
pub fn try_calculate_gas(
    prepaid_gas: Gas,
    used_gas: Gas,
    gas_for_cross_call: Gas,
    minimum_gas_for_callback: Gas,
    gas_reserve: Gas,
) -> (r: Result<Gas, &'static str>)
    ensures
        r is Ok <==> used_gas + gas_reserve + gas_for_cross_call <= prepaid_gas && prepaid_gas
            - (used_gas + gas_reserve + gas_for_cross_call) >= minimum_gas_for_callback,
        r is Ok ==> r->Ok_0 == prepaid_gas - (used_gas + gas_reserve + gas_for_cross_call),
        r is Err ==> r->Err_0@ == "Not enough gas"@,
{
    let needed = match used_gas.checked_add(gas_reserve) {
        Some(x) => match x.checked_add(gas_for_cross_call) {
            Some(y) => y,
            None => return Err("Not enough gas"),
        },
        None => return Err("Not enough gas"),
    };
    match prepaid_gas.checked_sub(needed) {
        Some(gas_left) => if gas_left >= minimum_gas_for_callback {
            Ok(gas_left)
        } else {
            Err("Not enough gas")
        },
        None => Err("Not enough gas"),
    }
}

} // verus!
