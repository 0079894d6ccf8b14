//! Helpers over the coins attached to a call.

use crate::msg::Coin;
use crate::msg::ContractError;
use vstd::prelude::*;

verus! {

/// The first attached coin of the given denomination, if any.
pub open spec fn find_sent(coins: Seq<Coin>, denom: Seq<char>) -> Option<Coin>
    decreases coins.len(),
{
    if coins.len() == 0 {
        None
    } else if coins[0].denom@ == denom {
        Some(coins[0])
    } else {
        find_sent(coins.drop_first(), denom)
    }
}

/// Amount of the reserve currency attached to a call; zero when none came.
pub open spec fn sent_amount(coins: Seq<Coin>, denom: Seq<char>) -> u128 {
    match find_sent(coins, denom) {
        Some(c) => c.amount,
        None => 0,
    }
}

/// The first attached coin whose denomination matches, as executable lookup.
pub fn find_sent_coin<'a>(coins: &'a Vec<Coin>, denom: &String) -> (r: Option<&'a Coin>)
    ensures
        match r {
            Some(c) => find_sent(coins@, denom@) == Some(*c),
            None => find_sent(coins@, denom@) is None,
        },
{
    let n = coins.len();
    let mut i: usize = 0;
    proof {
        assert(coins@.skip(0) =~= coins@);
    }
    while i < n
        invariant
            n == coins@.len(),
            0 <= i <= n,
            find_sent(coins@.skip(i as int), denom@) == find_sent(coins@, denom@),
            forall|k: int| 0 <= k < i ==> (#[trigger] coins@[k].denom@) != denom@,
        decreases n - i,
    {
        proof {
            assert(coins@.skip(i as int).drop_first() =~= coins@.skip(i + 1));
            assert(coins@.skip(i as int)[0] == coins@[i as int]);
        }
        if coins[i].denom == *denom {
            return Some(&coins[i]);
        }
        i = i + 1;
    }
    proof {
        assert(coins@.skip(n as int) =~= Seq::<Coin>::empty());
    }
    None
}

/// Fail unless the attached coins hold at least `required_amount` of
/// `required_denom` in their first entry of that denomination.
pub fn assert_sent_sufficient_coin(
    sent: &Vec<Coin>,
    required_amount: u128,
    required_denom: &String,
) -> (r: Result<(), ContractError>)
    ensures
        r is Ok <==> sent_amount(sent@, required_denom@) >= required_amount,
        r is Err ==> r == Result::<(), ContractError>::Err(ContractError::InsufficientFundsSent),
{
    match find_sent_coin(sent, required_denom) {
        Some(c) => {
            if c.amount >= required_amount {
                Ok(())
            } else {
                Err(ContractError::InsufficientFundsSent)
            }
        },
        None => {
            if required_amount == 0 {
                Ok(())
            } else {
                Err(ContractError::InsufficientFundsSent)
            }
        },
    }
}

} // verus!
