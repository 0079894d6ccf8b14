//! The library-wide guarantees, stated and proved as lemmas over the
//! transition predicates and spec functions that the operations' contracts
//! use.

use crate::contract::bid_spec;
use crate::contract::close_checks_pass;
use crate::contract::close_settlement_covered;
use crate::contract::end_listing_spec;
use crate::msg::ContractError;
use crate::msg::Env;
use crate::msg::HandleResponse;
use crate::msg::MessageInfo;
use crate::state::balance_of;
use crate::state::bank_has;
use crate::state::has_lock;
use crate::state::is_bidder;
use crate::state::lemma_remove_lock_membership;
use crate::state::lemma_locks_covered_account;
use crate::state::lemma_locks_covered_from_accounts;
use crate::state::lemma_locks_max_push;
use crate::state::lemma_remove_lock_max;
use crate::state::listing_wf;
use crate::state::locks_covered;
use crate::state::locks_max;
use crate::state::locks_of;
use crate::state::market_wf;
use crate::state::Listing;
use crate::state::Market;
use vstd::prelude::*;

verus! {

/// Accepted bids on a well-formed listing strictly increase in price, so the
/// highest bid is non-decreasing over the accepted sequence, and the last
/// accepted price is the current highest bid.
pub proof fn lemma_accepted_bids_strictly_increase(l: Listing)
    requires
        listing_wf(l),
    ensures
        forall|i: int, j: int|
            0 <= i < j < l.bidders_info@.len() ==> l.bidders_info@[i].price < l.bidders_info@[
                j
            ].price,
        l.bidders_info@.len() > 0 ==> l.bidders_info@.last().price == l.highest_bid,
{
}

/// No account has two accepted bids on the same well-formed listing.
pub proof fn lemma_no_duplicate_accepted_bids(l: Listing)
    requires
        listing_wf(l),
    ensures
        forall|i: int, j: int|
            0 <= i < j < l.bidders@.len() ==> l.bidders@[i]@ != l.bidders@[j]@,
{
}

/// The highest bid never goes down: an accepted bid strictly raises it, and
/// a refused bid changes nothing.
pub proof fn lemma_highest_bid_non_decreasing(
    pre: Market,
    info: MessageInfo,
    listing_id: u64,
    price: u128,
    r: Result<HandleResponse, ContractError>,
    post: Market,
)
    requires
        bid_spec(pre, info, listing_id, price, r, post),
        1 <= listing_id <= pre.listings@.len(),
    ensures
        r is Ok ==> post.listings@[listing_id - 1].highest_bid > pre.listings@[listing_id
            - 1].highest_bid,
        r is Err ==> post.listings@[listing_id - 1].highest_bid == pre.listings@[listing_id
            - 1].highest_bid,
{
}

/// A lock is only accepted together with a balance that covers it: when
/// every account's largest lock fits its balance, an accepted or refused bid
/// keeps it that way.
pub proof fn lemma_bid_preserves_lock_cover(
    pre: Market,
    info: MessageInfo,
    listing_id: u64,
    price: u128,
    r: Result<HandleResponse, ContractError>,
    post: Market,
)
    requires
        market_wf(pre),
        market_wf(post),
        locks_covered(pre),
        bid_spec(pre, info, listing_id, price, r, post),
    ensures
        locks_covered(post),
{
    match r {
        Ok(_) => {
            let sender = info.sender@;
            assert forall|k: Seq<u8>| bank_has(post.bank@, k) implies locks_max(
                #[trigger] locks_of(post, k),
            ) <= balance_of(post, k) by {
                lemma_locks_covered_account(pre, k);
                if k == sender {
                    lemma_locks_max_push(locks_of(pre, sender), (listing_id, price));
                }
            }
            lemma_locks_covered_from_accounts(post);
        },
        Err(_) => {},
    }
}

/// Settlement keeps every account's largest lock within its balance, as long
/// as the winner's remaining locks fit what is left after the payment.
pub proof fn lemma_settlement_preserves_lock_cover(
    pre: Market,
    env: Env,
    info: MessageInfo,
    listing_id: u64,
    r: Result<HandleResponse, ContractError>,
    post: Market,
)
    requires
        market_wf(pre),
        market_wf(post),
        locks_covered(pre),
        close_checks_pass(pre, env, info.sender@, listing_id) ==> close_settlement_covered(
            pre,
            listing_id,
        ),
        end_listing_spec(pre, env, info, listing_id, r, post),
    ensures
        locks_covered(post),
{
    match r {
        Ok(_) => {
            let l0 = pre.listings@[listing_id - 1];
            let wk = l0.highest_bidder@;
            let ck = l0.creator@;
            let price = l0.highest_bid;
            let passed = l0.highest_bid >= l0.minimum_bid;
            assert(listing_wf(l0));
            assert forall|k: Seq<u8>| bank_has(post.bank@, k) implies locks_max(
                #[trigger] locks_of(post, k),
            ) <= balance_of(post, k) by {
                lemma_locks_covered_account(pre, k);
                if is_bidder(l0, k) {
                    lemma_remove_lock_max(locks_of(pre, k), listing_id);
                }
                if passed && k == wk {
                    if l0.bidders@.len() == 0 {
                        assert(l0.highest_bid == 0);
                    } else {
                        assert(l0.bidders@[l0.bidders@.len() - 1]@ == l0.bidders_info@[
                            l0.bidders@.len() - 1
                        ].bidder@);
                        assert(l0.bidders@[l0.bidders@.len() - 1]@ == wk);
                        assert(is_bidder(l0, wk));
                        if wk != ck {
                            assert(balance_of(post, wk) == balance_of(pre, wk) - price);
                            assert(locks_max(remove_lock_of(pre, wk, listing_id)) + price
                                <= balance_of(pre, wk));
                        }
                    }
                }
            }
            lemma_locks_covered_from_accounts(post);
        },
        Err(_) => {},
    }
}

/// The locks an account keeps after one listing's hold is released.
pub open spec fn remove_lock_of(m: Market, key: Seq<u8>, listing_id: u64) -> Seq<(u64, u128)> {
    crate::state::remove_lock(locks_of(m, key), listing_id)
}

/// Settlement releases every hold on the settled listing: afterwards no
/// account that bid on it still has funds locked behind it, so what the
/// withdrawal bound held back for this listing is free again.
pub proof fn lemma_settlement_releases_holds(
    pre: Market,
    env: Env,
    info: MessageInfo,
    listing_id: u64,
    r: Result<HandleResponse, ContractError>,
    post: Market,
)
    requires
        end_listing_spec(pre, env, info, listing_id, r, post),
        r is Ok,
    ensures
        forall|k: Seq<u8>|
            is_bidder(pre.listings@[listing_id - 1], k) ==> !has_lock(
                #[trigger] locks_of(post, k),
                listing_id,
            ),
{
    let l0 = pre.listings@[listing_id - 1];
    assert forall|k: Seq<u8>| is_bidder(l0, k) implies !has_lock(
        #[trigger] locks_of(post, k),
        listing_id,
    ) by {
        lemma_remove_lock_membership(locks_of(pre, k), listing_id);
    }
}

/// A listing settles exactly once: after one successful settlement its
/// status is terminal, and any further settlement call fails and leaves the
/// store exactly as it was.
pub proof fn lemma_settlement_single_shot(
    pre: Market,
    env1: Env,
    info1: MessageInfo,
    r1: Result<HandleResponse, ContractError>,
    mid: Market,
    env2: Env,
    info2: MessageInfo,
    r2: Result<HandleResponse, ContractError>,
    post: Market,
    listing_id: u64,
)
    requires
        end_listing_spec(pre, env1, info1, listing_id, r1, mid),
        r1 is Ok,
        end_listing_spec(mid, env2, info2, listing_id, r2, post),
    ensures
        mid.listings@[listing_id - 1].status is Passed || mid.listings@[listing_id
            - 1].status is Rejected,
        r2 is Err,
        post == mid,
{
    if r2 is Ok {
        assert(close_checks_pass(mid, env2, info2.sender@, listing_id));
        assert(false);
    }
}

/// Settlement is conservative: a winning settlement between distinct
/// accounts moves exactly the highest bid from the winner's staked balance
/// to the creator's; their total, and every other account's balance, is
/// unchanged.
pub proof fn lemma_settlement_conservation(
    pre: Market,
    env: Env,
    info: MessageInfo,
    listing_id: u64,
    r: Result<HandleResponse, ContractError>,
    post: Market,
)
    requires
        end_listing_spec(pre, env, info, listing_id, r, post),
        r is Ok,
        pre.listings@[listing_id - 1].highest_bid >= pre.listings@[listing_id - 1].minimum_bid,
        pre.listings@[listing_id - 1].creator@ != pre.listings@[listing_id - 1].highest_bidder@,
    ensures
        balance_of(post, pre.listings@[listing_id - 1].creator@) + balance_of(
            post,
            pre.listings@[listing_id - 1].highest_bidder@,
        ) == balance_of(pre, pre.listings@[listing_id - 1].creator@) + balance_of(
            pre,
            pre.listings@[listing_id - 1].highest_bidder@,
        ),
        balance_of(post, pre.listings@[listing_id - 1].highest_bidder@) == balance_of(
            pre,
            pre.listings@[listing_id - 1].highest_bidder@,
        ) - pre.listings@[listing_id - 1].highest_bid,
        balance_of(post, pre.listings@[listing_id - 1].creator@) == balance_of(
            pre,
            pre.listings@[listing_id - 1].creator@,
        ) + pre.listings@[listing_id - 1].highest_bid,
        forall|k: Seq<u8>|
            k != pre.listings@[listing_id - 1].creator@ && k != pre.listings@[listing_id
                - 1].highest_bidder@ ==> #[trigger] balance_of(post, k) == balance_of(pre, k),
{
}

} // verus!