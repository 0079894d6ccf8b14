//! The auction engine and marketplace facade: listing lifecycle, the staking
//! ledger operations, command dispatch and the query surface.

use crate::coin_helpers::assert_sent_sufficient_coin;
use crate::coin_helpers::find_sent_coin;
use crate::coin_helpers::sent_amount;
use crate::msg::CreateListingResponse;
use crate::msg::ContractError;
use crate::msg::Env;
use crate::msg::HandleMsg;
use crate::msg::HandleResponse;
use crate::msg::InitMsg;
use crate::msg::Instruction;
use crate::msg::ListingResponse;
use crate::msg::MessageInfo;
use crate::msg::QueryAnswer;
use crate::msg::QueryMsg;
use crate::msg::TokenStakeResponse;
use crate::state::Addr;
use crate::state::BidStatus;
use crate::state::Listing;
use crate::state::Market;
use crate::state::State;
use crate::state::TokenManager;
use crate::state::accounts_unchanged_except;
use crate::state::balance_of;
use crate::state::bank_keys_distinct;
use crate::state::bid_records;
use crate::state::bidder_keys;
use crate::state::is_bidder;
use crate::state::lemma_locks_max_push;
use crate::state::lemma_remove_lock_max;
use crate::state::lemma_remove_lock_push;
use crate::state::listing_wf;
use crate::state::remove_lock;
use crate::state::Bidder;
use crate::state::bank_has;
use crate::state::bank;
use crate::state::bank_read;
use crate::state::config_read;
use crate::state::has_account;
use crate::state::lemma_accounts_unchanged_from_bank;
use crate::state::lemma_locks_covered_account;
use crate::state::lemma_locks_covered_from_accounts;
use crate::state::lemma_locks_max_le_sum;
use crate::state::lemma_locks_sum_nonneg;
use crate::state::lemma_locks_sum_push;
use crate::state::listing;
use crate::state::listing_read;
use crate::state::locks_covered;
use crate::state::locks_max;
use crate::state::locks_of;
use crate::state::locks_sum;
use crate::state::market_wf;
use crate::state::participated_of;
use vstd::prelude::*;
use vstd::string::StrSliceExecFns;

verus! {

/// Length of the default bidding window, in block heights.
pub const DEFAULT_END_HEIGHT_BLOCKS: u64 = 100_800;

/// Least attached amount accepted by a stake.
pub const MIN_STAKE_AMOUNT: u128 = 1;

/// Least accepted listing-description length.
pub const MIN_DESC_LENGTH: usize = 3;

/// Greatest accepted listing-description length.
pub const MAX_DESC_LENGTH: usize = 64;

/// Deploy the marketplace: an empty store configured with the reserve
/// currency and owned by the deployer.
pub fn init(sender: Addr, msg: InitMsg) -> (store: Market)
    ensures
        store.config.denom@ == msg.denom@,
        store.config.owner@ == sender@,
        store.config.listing_count == 0,
        store.config.staked_tokens == 0,
        store.listings@.len() == 0,
        store.bank@.len() == 0,
        market_wf(store),
{
    Market {
        config: State {
            denom: msg.denom,
            owner: sender,
            listing_count: 0,
            staked_tokens: 0,
        },
        listings: Vec::new(),
        bank: Vec::new(),
    }
}

/// Byte-for-byte copy of an account key.
fn clone_addr(a: &Addr) -> (r: Addr)
    ensures
        r@ == a@,
{
    let mut r: Addr = Vec::new();
    let n = a.len();
    let mut i: usize = 0;
    while i < n
        invariant
            n == a@.len(),
            0 <= i <= n,
            r@ =~= a@.take(i as int),
        decreases n - i,
    {
        r.push(a[i]);
        i = i + 1;
    }
    proof {
        assert(r@ =~= a@);
    }
    r
}

/// Copy of a lock list.
fn clone_locks(v: &Vec<(u64, u128)>) -> (r: Vec<(u64, u128)>)
    ensures
        r@ == v@,
{
    let mut r: Vec<(u64, u128)> = Vec::new();
    let n = v.len();
    let mut i: usize = 0;
    while i < n
        invariant
            n == v@.len(),
            0 <= i <= n,
            r@ =~= v@.take(i as int),
        decreases n - i,
    {
        r.push(v[i]);
        i = i + 1;
    }
    proof {
        assert(r@ =~= v@);
    }
    r
}

/// Copy of a listing-id list.
fn clone_ids(v: &Vec<u64>) -> (r: Vec<u64>)
    ensures
        r@ == v@,
{
    let mut r: Vec<u64> = Vec::new();
    let n = v.len();
    let mut i: usize = 0;
    while i < n
        invariant
            n == v@.len(),
            0 <= i <= n,
            r@ =~= v@.take(i as int),
        decreases n - i,
    {
        r.push(v[i]);
        i = i + 1;
    }
    proof {
        assert(r@ =~= v@);
    }
    r
}

/// A response that carries no instructions and no payload.
fn empty_response() -> (r: HandleResponse)
    ensures
        r.messages@.len() == 0,
        r.data is None,
{
    HandleResponse { messages: Vec::new(), data: None }
}

/// Build the currency-transfer instruction for the external collaborator.
fn send_tokens(from_address: &Addr, to_address: &Addr, amount: u128, denom: &String) -> (r:
    HandleResponse)
    ensures
        r.data is None,
        r.messages@.len() == 1,
        (r.messages@[0] matches Instruction::SendTokens {
            from_address: f,
            to_address: t,
            amount: a,
            denom: d,
        } && f@ == from_address@ && t@ == to_address@ && a == amount && d@ == denom@),
{
    let mut messages: Vec<Instruction> = Vec::new();
    messages.push(
        Instruction::SendTokens {
            from_address: clone_addr(from_address),
            to_address: clone_addr(to_address),
            amount,
            denom: denom.clone(),
        },
    );
    HandleResponse { messages, data: None }
}

/// Build the asset-transfer instruction for the external collaborator.
fn send_nft(from_address: &Addr, to_address: &Addr, token_id: &String, denom: &String) -> (r:
    Instruction)
    ensures
        (r matches Instruction::TransferNft { sender, recipient, id, denom: d } && sender@
            == from_address@ && recipient@ == to_address@ && id@ == token_id@ && d@ == denom@),
{
    Instruction::TransferNft {
        sender: clone_addr(from_address),
        recipient: clone_addr(to_address),
        id: token_id.clone(),
        denom: denom.clone(),
    }
}

// ---------------------------------------------------------------------------
// Staking
// ---------------------------------------------------------------------------

/// What a stake does: with at least the minimum attached in the reserve
/// currency, the attached amount joins the sender's staked balance and the
/// global counter; anything less is refused whole.
pub open spec fn stake_spec(
    pre: Market,
    info: MessageInfo,
    r: Result<HandleResponse, ContractError>,
    post: Market,
) -> bool {
    let amt = sent_amount(info.sent_funds@, pre.config.denom@);
    let sender = info.sender@;
    match r {
        Ok(resp) => {
            &&& amt >= MIN_STAKE_AMOUNT
            &&& has_account(post, sender)
            &&& balance_of(post, sender) == balance_of(pre, sender) + amt
            &&& locks_of(post, sender) == locks_of(pre, sender)
            &&& participated_of(post, sender) == participated_of(pre, sender)
            &&& accounts_unchanged_except(pre, post, sender)
            &&& post.config.denom@ == pre.config.denom@
            &&& post.config.owner@ == pre.config.owner@
            &&& post.config.listing_count == pre.config.listing_count
            &&& post.config.staked_tokens == pre.config.staked_tokens + amt
            &&& post.listings == pre.listings
            &&& resp.messages@.len() == 0
            &&& resp.data is None
        },
        Err(e) => {
            &&& e == ContractError::InsufficientFundsSent
            &&& amt < MIN_STAKE_AMOUNT
            &&& post == pre
        },
    }
}

/// Stake the attached reserve currency on the sender's account.
pub fn stake_voting_tokens(store: &mut Market, info: &MessageInfo) -> (r: Result<
    HandleResponse,
    ContractError,
>)
    requires
        market_wf(*old(store)),
        balance_of(*old(store), info.sender@) + sent_amount(
            info.sent_funds@,
            old(store).config.denom@,
        ) <= u128::MAX,
        old(store).config.staked_tokens + sent_amount(
            info.sent_funds@,
            old(store).config.denom@,
        ) <= u128::MAX,
    ensures
        market_wf(*final(store)),
        stake_spec(*old(store), *info, r, *final(store)),
        locks_covered(*old(store)) ==> locks_covered(*final(store)),
{
    let ghost pre = *store;
    match assert_sent_sufficient_coin(&info.sent_funds, MIN_STAKE_AMOUNT, &store.config.denom) {
        Err(e) => {
            return Err(e);
        },
        Ok(_) => {},
    }
    let amt: u128 = match find_sent_coin(&info.sent_funds, &store.config.denom) {
        Some(c) => c.amount,
        None => 0,
    };
    let new_tm: TokenManager = match bank_read(store, &info.sender) {
        Some(tm) => TokenManager {
            token_balance: tm.token_balance + amt,
            locked_tokens: clone_locks(&tm.locked_tokens),
            participated_bids: clone_ids(&tm.participated_bids),
        },
        None => TokenManager {
            token_balance: amt,
            locked_tokens: Vec::new(),
            participated_bids: Vec::new(),
        },
    };
    bank(store, &info.sender, new_tm);
    let new_staked = store.config.staked_tokens + amt;
    store.config.staked_tokens = new_staked;
    proof {
        lemma_accounts_unchanged_from_bank(pre, *store, info.sender@);
        assert(locks_of(*store, info.sender@) =~= locks_of(pre, info.sender@));
        assert(participated_of(*store, info.sender@) =~= participated_of(pre, info.sender@));
        if locks_covered(pre) {
            assert forall|k: Seq<u8>| bank_has(store.bank@, k) implies locks_max(
                #[trigger] locks_of(*store, k),
            ) <= balance_of(*store, k) by {
                lemma_locks_covered_account(pre, k);
                if k == info.sender@ {
                    assert(locks_max(Seq::<(u64, u128)>::empty()) == 0);
                }
            }
            lemma_locks_covered_from_accounts(*store);
        }
    }
    Ok(empty_response())
}

// ---------------------------------------------------------------------------
// Withdrawal
// ---------------------------------------------------------------------------

/// What a withdrawal does: the requested amount (by default the whole
/// balance) leaves the sender's staked balance and the global counter, and a
/// currency transfer back to the sender is instructed — unless the account is
/// unknown or the amount digs into the total still locked behind active bids.
pub open spec fn withdraw_spec(
    pre: Market,
    env: Env,
    info: MessageInfo,
    amount: Option<u128>,
    r: Result<HandleResponse, ContractError>,
    post: Market,
) -> bool {
    let sender = info.sender@;
    let wa = match amount {
        Some(a) => a,
        None => balance_of(pre, sender),
    };
    match r {
        Ok(resp) => {
            &&& has_account(pre, sender)
            &&& locks_sum(locks_of(pre, sender)) + wa <= balance_of(pre, sender)
            &&& has_account(post, sender)
            &&& balance_of(post, sender) == balance_of(pre, sender) - wa
            &&& locks_of(post, sender) == locks_of(pre, sender)
            &&& participated_of(post, sender) == participated_of(pre, sender)
            &&& accounts_unchanged_except(pre, post, sender)
            &&& post.config.denom@ == pre.config.denom@
            &&& post.config.owner@ == pre.config.owner@
            &&& post.config.listing_count == pre.config.listing_count
            &&& post.config.staked_tokens == pre.config.staked_tokens - wa
            &&& post.listings == pre.listings
            &&& resp.data is None
            &&& resp.messages@.len() == 1
            &&& (resp.messages@[0] matches Instruction::SendTokens {
                from_address,
                to_address,
                amount: a,
                denom,
            } && from_address@ == env.contract_address@ && to_address@ == sender && a == wa
                && denom@ == pre.config.denom@)
        },
        Err(e) => {
            &&& post == pre
            &&& if !has_account(pre, sender) {
                e == ContractError::NothingStaked
            } else {
                e == ContractError::OverWithdraw && locks_sum(locks_of(pre, sender)) + wa
                    > balance_of(pre, sender)
            }
        },
    }
}

/// Total amount locked behind the record's active bids; the flag reports a
/// total beyond the greatest representable amount.
fn locked_amount(tm: &TokenManager) -> (r: (u128, bool))
    ensures
        !r.1 ==> r.0 == locks_sum(tm.locked_tokens@),
        r.1 ==> locks_sum(tm.locked_tokens@) > u128::MAX,
{
    let n = tm.locked_tokens.len();
    let mut acc: u128 = 0;
    let mut over: bool = false;
    let mut i: usize = 0;
    proof {
        assert(tm.locked_tokens@.take(0) =~= Seq::<(u64, u128)>::empty());
        assert(locks_sum(Seq::<(u64, u128)>::empty()) == 0);
    }
    while i < n
        invariant
            n == tm.locked_tokens@.len(),
            0 <= i <= n,
            !over ==> acc == locks_sum(tm.locked_tokens@.take(i as int)),
            over ==> locks_sum(tm.locked_tokens@.take(i as int)) > u128::MAX,
        decreases n - i,
    {
        let v = tm.locked_tokens[i].1;
        proof {
            assert(tm.locked_tokens@.take(i + 1) =~= tm.locked_tokens@.take(i as int).push(
                tm.locked_tokens@[i as int],
            ));
            lemma_locks_sum_push(tm.locked_tokens@.take(i as int), tm.locked_tokens@[i as int]);
        }
        if !over {
            if acc <= u128::MAX - v {
                acc = acc + v;
            } else {
                over = true;
            }
        }
        i = i + 1;
    }
    proof {
        assert(tm.locked_tokens@.take(n as int) =~= tm.locked_tokens@);
    }
    (acc, over)
}

/// Withdraw staked reserve currency not locked behind active bids. By
/// default the entire balance is requested.
pub fn withdraw_tokens(
    store: &mut Market,
    env: &Env,
    info: &MessageInfo,
    amount: Option<u128>,
) -> (r: Result<HandleResponse, ContractError>)
    requires
        market_wf(*old(store)),
        balance_of(*old(store), info.sender@) <= old(store).config.staked_tokens,
    ensures
        market_wf(*final(store)),
        withdraw_spec(*old(store), *env, *info, amount, r, *final(store)),
        locks_covered(*old(store)) ==> locks_covered(*final(store)),
{
    let ghost pre = *store;
    let tm_opt = bank_read(store, &info.sender);
    match tm_opt {
        None => Err(ContractError::NothingStaked),
        Some(tm) => {
            let (locked, over) = locked_amount(tm);
            let wa: u128 = match amount {
                Some(a) => a,
                None => tm.token_balance,
            };
            proof {
                lemma_locks_sum_nonneg(tm.locked_tokens@);
            }
            if over || wa > tm.token_balance || locked > tm.token_balance - wa {
                return Err(ContractError::OverWithdraw);
            }
            let new_tm = TokenManager {
                token_balance: tm.token_balance - wa,
                locked_tokens: clone_locks(&tm.locked_tokens),
                participated_bids: clone_ids(&tm.participated_bids),
            };
            bank(store, &info.sender, new_tm);
            let new_staked = store.config.staked_tokens - wa;
            store.config.staked_tokens = new_staked;
            let resp = send_tokens(&env.contract_address, &info.sender, wa, &store.config.denom);
            proof {
                lemma_accounts_unchanged_from_bank(pre, *store, info.sender@);
                assert(locks_of(*store, info.sender@) =~= locks_of(pre, info.sender@));
                assert(participated_of(*store, info.sender@) =~= participated_of(
                    pre,
                    info.sender@,
                ));
                if locks_covered(pre) {
                    assert forall|k: Seq<u8>| bank_has(store.bank@, k) implies locks_max(
                        #[trigger] locks_of(*store, k),
                    ) <= balance_of(*store, k) by {
                        lemma_locks_covered_account(pre, k);
                        if k == info.sender@ {
                            lemma_locks_max_le_sum(locks_of(pre, info.sender@));
                        }
                    }
                    lemma_locks_covered_from_accounts(*store);
                }
            }
            Ok(resp)
        },
    }
}

/// Copy of an account's ledger record.
fn clone_tm(tm: &TokenManager) -> (r: TokenManager)
    ensures
        r.token_balance == tm.token_balance,
        r.locked_tokens@ == tm.locked_tokens@,
        r.participated_bids@ == tm.participated_bids@,
{
    TokenManager {
        token_balance: tm.token_balance,
        locked_tokens: clone_locks(&tm.locked_tokens),
        participated_bids: clone_ids(&tm.participated_bids),
    }
}

/// Copy of a bidder list, byte-for-byte per key.
fn clone_bidders(v: &Vec<Addr>) -> (r: Vec<Addr>)
    ensures
        r@.len() == v@.len(),
        forall|i: int| 0 <= i < v@.len() ==> (#[trigger] r@[i])@ == v@[i]@,
{
    let mut r: Vec<Addr> = Vec::new();
    let n = v.len();
    let mut i: usize = 0;
    while i < n
        invariant
            n == v@.len(),
            0 <= i <= n,
            r@.len() == i,
            forall|k: int| 0 <= k < i ==> (#[trigger] r@[k])@ == v@[k]@,
        decreases n - i,
    {
        r.push(clone_addr(&v[i]));
        i = i + 1;
    }
    r
}

/// Copy of a bid-record list.
fn clone_bidders_info(v: &Vec<Bidder>) -> (r: Vec<Bidder>)
    ensures
        r@.len() == v@.len(),
        forall|i: int| 0 <= i < v@.len() ==> (#[trigger] r@[i]).bidder@ == v@[i].bidder@,
        forall|i: int| 0 <= i < v@.len() ==> (#[trigger] r@[i]).price == v@[i].price,
{
    let mut r: Vec<Bidder> = Vec::new();
    let n = v.len();
    let mut i: usize = 0;
    while i < n
        invariant
            n == v@.len(),
            0 <= i <= n,
            r@.len() == i,
            forall|k: int| 0 <= k < i ==> (#[trigger] r@[k]).bidder@ == v@[k].bidder@,
            forall|k: int| 0 <= k < i ==> (#[trigger] r@[k]).price == v@[k].price,
        decreases n - i,
    {
        let b = &v[i];
        r.push(Bidder { bidder: clone_addr(&b.bidder), price: b.price });
        i = i + 1;
    }
    r
}

/// Whether the account already has an accepted bid on the listing.
fn has_bidden(bidder: &Addr, a_listing: &Listing) -> (r: bool)
    ensures
        r == is_bidder(*a_listing, bidder@),
{
    let n = a_listing.bidders.len();
    let mut i: usize = 0;
    while i < n
        invariant
            n == a_listing.bidders@.len(),
            0 <= i <= n,
            forall|k: int| 0 <= k < i ==> (#[trigger] a_listing.bidders@[k])@ != bidder@,
        decreases n - i,
    {
        if a_listing.bidders[i] == *bidder {
            proof {
                assert(a_listing.bidders@[i as int]@ =~= bidder@);
            }
            return true;
        }
        proof {
            assert(!(a_listing.bidders@[i as int]@ =~= bidder@));
        }
        i = i + 1;
    }
    false
}

// ---------------------------------------------------------------------------
// Validation of listing parameters
// ---------------------------------------------------------------------------

/// Refuse a description outside the accepted length bounds.
fn validate_description(description: &String) -> (r: Result<(), ContractError>)
    ensures
        r is Ok <==> MIN_DESC_LENGTH <= description@.len() <= MAX_DESC_LENGTH,
        description@.len() < MIN_DESC_LENGTH ==> r == Result::<(), ContractError>::Err(
            ContractError::DescriptionTooShort,
        ),
        description@.len() > MAX_DESC_LENGTH ==> r == Result::<(), ContractError>::Err(
            ContractError::DescriptionTooLong,
        ),
{
    let len = description.as_str().unicode_len();
    if len < MIN_DESC_LENGTH {
        Err(ContractError::DescriptionTooShort)
    } else if len > MAX_DESC_LENGTH {
        Err(ContractError::DescriptionTooLong)
    } else {
        Ok(())
    }
}

/// Refuse an end height that does not lie strictly in the future.
fn validate_end_height(end_height: Option<u64>, env: &Env) -> (r: Result<(), ContractError>)
    ensures
        r is Ok <==> (end_height matches Some(h) ==> h > env.block_height),
        r is Err ==> r == Result::<(), ContractError>::Err(ContractError::EndHeightInPast),
{
    match end_height {
        Some(h) => {
            if env.block_height >= h {
                Err(ContractError::EndHeightInPast)
            } else {
                Ok(())
            }
        },
        None => Ok(()),
    }
}

// ---------------------------------------------------------------------------
// Listing creation
// ---------------------------------------------------------------------------

/// What listing creation does: with a future (or defaulted) end height, an
/// in-bounds description and exactly the escrowed asset attached, a fresh
/// listing opens under the next id; anything else is refused whole.
pub open spec fn create_listing_spec(
    pre: Market,
    env: Env,
    info: MessageInfo,
    minimum_bid: u128,
    start_height: Option<u64>,
    end_height: Option<u64>,
    description: String,
    r: Result<HandleResponse, ContractError>,
    post: Market,
) -> bool {
    match r {
        Ok(resp) => {
            let l = post.listings@[pre.listings@.len() as int];
            &&& (end_height matches Some(h) ==> h > env.block_height)
            &&& MIN_DESC_LENGTH <= description@.len() <= MAX_DESC_LENGTH
            &&& info.sent_nfts@.len() > 0
            &&& post.listings@.len() == pre.listings@.len() + 1
            &&& forall|i: int|
                0 <= i < pre.listings@.len() ==> post.listings@[i] == pre.listings@[i]
            &&& l.token_id@ == info.sent_nfts@[0].id@
            &&& l.denom@ == info.sent_nfts@[0].denom@
            &&& l.creator@ == info.sender@
            &&& l.status is InProgress
            &&& l.highest_bid == 0
            &&& l.highest_bidder@ == info.sender@
            &&& l.minimum_bid == minimum_bid
            &&& l.bidders@.len() == 0
            &&& l.bidders_info@.len() == 0
            &&& l.start_height == start_height
            &&& l.end_height == (match end_height {
                Some(h) => h,
                None => (env.block_height + DEFAULT_END_HEIGHT_BLOCKS) as u64,
            })
            &&& l.description@ == description@
            &&& post.config.denom@ == pre.config.denom@
            &&& post.config.owner@ == pre.config.owner@
            &&& post.config.listing_count == pre.config.listing_count + 1
            &&& post.config.staked_tokens == pre.config.staked_tokens
            &&& post.bank == pre.bank
            &&& resp.messages@.len() == 0
            &&& resp.data == Some(CreateListingResponse { listing_id: (pre.config.listing_count + 1) as u64 })
        },
        Err(e) => {
            &&& post == pre
            &&& if (end_height matches Some(h) && h <= env.block_height) {
                e == ContractError::EndHeightInPast
            } else if description@.len() < MIN_DESC_LENGTH {
                e == ContractError::DescriptionTooShort
            } else if description@.len() > MAX_DESC_LENGTH {
                e == ContractError::DescriptionTooLong
            } else {
                e == ContractError::NoAssetAttached && info.sent_nfts@.len() == 0
            }
        },
    }
}

/// Open a new listing for the escrowed asset that arrived with the call.
pub fn create_listing(
    store: &mut Market,
    env: &Env,
    info: &MessageInfo,
    minimum_bid: u128,
    start_height: Option<u64>,
    end_height: Option<u64>,
    description: String,
) -> (r: Result<HandleResponse, ContractError>)
    requires
        market_wf(*old(store)),
        old(store).config.listing_count < u64::MAX,
        env.block_height + DEFAULT_END_HEIGHT_BLOCKS <= u64::MAX,
    ensures
        market_wf(*final(store)),
        create_listing_spec(
            *old(store),
            *env,
            *info,
            minimum_bid,
            start_height,
            end_height,
            description,
            r,
            *final(store),
        ),
        locks_covered(*old(store)) ==> locks_covered(*final(store)),
{
    let ghost pre = *store;
    match validate_end_height(end_height, env) {
        Err(e) => {
            return Err(e);
        },
        Ok(_) => {},
    }
    match validate_description(&description) {
        Err(e) => {
            return Err(e);
        },
        Ok(_) => {},
    }
    if info.sent_nfts.len() == 0 {
        return Err(ContractError::NoAssetAttached);
    }
    let listing_id = store.config.listing_count + 1;
    store.config.listing_count = listing_id;
    let nft = &info.sent_nfts[0];
    let new_listing = Listing {
        token_id: nft.id.clone(),
        denom: nft.denom.clone(),
        creator: clone_addr(&info.sender),
        status: BidStatus::InProgress,
        highest_bid: 0,
        highest_bidder: clone_addr(&info.sender),
        minimum_bid,
        bidders: Vec::new(),
        bidders_info: Vec::new(),
        start_height,
        end_height: match end_height {
            Some(h) => h,
            None => env.block_height + DEFAULT_END_HEIGHT_BLOCKS,
        },
        description,
    };
    listing(store, listing_id, new_listing);
    proof {
        let l = store.listings@[pre.listings@.len() as int];
        assert(l.bidders_info@.len() == 0);
        assert(listing_wf(l));
    }
    Ok(HandleResponse { messages: Vec::new(), data: Some(CreateListingResponse { listing_id }) })
}

// ---------------------------------------------------------------------------
// Bidding
// ---------------------------------------------------------------------------

/// How an accepted bid rewrites one listing: the sender joins the bidder
/// lists and takes over as highest bidder at the new, strictly higher price;
/// everything else stays.
pub open spec fn listing_bid_applied(l0: Listing, l1: Listing, sender: Seq<u8>, price: u128) -> bool {
    &&& l1.token_id@ == l0.token_id@
    &&& l1.denom@ == l0.denom@
    &&& l1.creator@ == l0.creator@
    &&& l1.status == l0.status
    &&& l1.highest_bid == price
    &&& l1.highest_bidder@ == sender
    &&& l1.minimum_bid == l0.minimum_bid
    &&& bidder_keys(l1) == bidder_keys(l0).push(sender)
    &&& bid_records(l1) == bid_records(l0).push((sender, price))
    &&& l1.start_height == l0.start_height
    &&& l1.end_height == l0.end_height
    &&& l1.description@ == l0.description@
}

/// What a bid does. The checks run in order — unknown listing, settled
/// listing, price not strictly above the highest bid, repeated bidder,
/// insufficient stake — and the first failure is returned with the store
/// untouched. On success the attached currency tops up the sender's balance,
/// the price is locked, and the listing records the new highest bid.
pub open spec fn bid_spec(
    pre: Market,
    info: MessageInfo,
    listing_id: u64,
    price: u128,
    r: Result<HandleResponse, ContractError>,
    post: Market,
) -> bool {
    let sender = info.sender@;
    let attached = sent_amount(info.sent_funds@, pre.config.denom@);
    match r {
        Ok(resp) => {
            let l0 = pre.listings@[listing_id - 1];
            &&& 1 <= listing_id <= pre.listings@.len()
            &&& l0.status is InProgress
            &&& price > l0.highest_bid
            &&& !is_bidder(l0, sender)
            &&& balance_of(pre, sender) + attached >= price
            &&& has_account(post, sender)
            &&& balance_of(post, sender) == balance_of(pre, sender) + attached
            &&& locks_of(post, sender) == locks_of(pre, sender).push((listing_id, price))
            &&& participated_of(post, sender) == participated_of(pre, sender).push(listing_id)
            &&& accounts_unchanged_except(pre, post, sender)
            &&& post.listings@.len() == pre.listings@.len()
            &&& forall|i: int|
                0 <= i < pre.listings@.len() && i != listing_id - 1 ==> post.listings@[i]
                    == pre.listings@[i]
            &&& listing_bid_applied(l0, post.listings@[listing_id - 1], sender, price)
            &&& post.config == pre.config
            &&& resp.messages@.len() == 0
            &&& resp.data is None
        },
        Err(e) => {
            &&& post == pre
            &&& if !(1 <= listing_id <= pre.listings@.len()) {
                e == ContractError::NotFound
            } else if !(pre.listings@[listing_id - 1].status is InProgress) {
                e == ContractError::NotInProgress
            } else if price <= pre.listings@[listing_id - 1].highest_bid {
                e == ContractError::BidTooLow
            } else if is_bidder(pre.listings@[listing_id - 1], info.sender@) {
                e == ContractError::DuplicateBid
            } else {
                e == ContractError::InsufficientStake && balance_of(pre, sender) + attached
                    < price
            }
        },
    }
}

/// Stake the attached currency and bid `price` on a listing.
pub fn bid(
    store: &mut Market,
    env: &Env,
    info: &MessageInfo,
    listing_id: u64,
    price: u128,
) -> (r: Result<HandleResponse, ContractError>)
    requires
        market_wf(*old(store)),
        balance_of(*old(store), info.sender@) + sent_amount(
            info.sent_funds@,
            old(store).config.denom@,
        ) <= u128::MAX,
    ensures
        market_wf(*final(store)),
        bid_spec(*old(store), *info, listing_id, price, r, *final(store)),
        locks_covered(*old(store)) ==> locks_covered(*final(store)),
{
    let ghost pre = *store;
    let l = match listing_read(store, listing_id) {
        None => {
            return Err(ContractError::NotFound);
        },
        Some(l) => l,
    };
    if l.status != BidStatus::InProgress {
        return Err(ContractError::NotInProgress);
    }
    if price <= l.highest_bid {
        return Err(ContractError::BidTooLow);
    }
    if has_bidden(&info.sender, l) {
        return Err(ContractError::DuplicateBid);
    }
    let attached: u128 = match find_sent_coin(&info.sent_funds, &store.config.denom) {
        Some(c) => c.amount,
        None => 0,
    };
    let mut new_tm: TokenManager = match bank_read(store, &info.sender) {
        Some(tm) => clone_tm(tm),
        None => TokenManager {
            token_balance: 0,
            locked_tokens: Vec::new(),
            participated_bids: Vec::new(),
        },
    };
    if new_tm.token_balance + attached < price {
        return Err(ContractError::InsufficientStake);
    }
    new_tm.token_balance = new_tm.token_balance + attached;
    new_tm.participated_bids.push(listing_id);
    new_tm.locked_tokens.push((listing_id, price));
    let mut new_bidders = clone_bidders(&l.bidders);
    new_bidders.push(clone_addr(&info.sender));
    let mut new_info = clone_bidders_info(&l.bidders_info);
    new_info.push(Bidder { bidder: clone_addr(&info.sender), price });
    let new_listing = Listing {
        token_id: l.token_id.clone(),
        denom: l.denom.clone(),
        creator: clone_addr(&l.creator),
        status: BidStatus::InProgress,
        highest_bid: price,
        highest_bidder: clone_addr(&info.sender),
        minimum_bid: l.minimum_bid,
        bidders: new_bidders,
        bidders_info: new_info,
        start_height: l.start_height,
        end_height: l.end_height,
        description: l.description.clone(),
    };
    bank(store, &info.sender, new_tm);
    listing(store, listing_id, new_listing);
    proof {
        let sender = info.sender@;
        let l0 = pre.listings@[listing_id - 1];
        let l1 = store.listings@[listing_id - 1];
        lemma_accounts_unchanged_from_bank(pre, *store, sender);
        assert(locks_of(*store, sender) =~= locks_of(pre, sender).push((listing_id, price)));
        assert(participated_of(*store, sender) =~= participated_of(pre, sender).push(listing_id));
        assert(bidder_keys(l1) =~= bidder_keys(l0).push(sender));
        assert(bid_records(l1) =~= bid_records(l0).push((sender, price)));
        assert forall|i: int, j: int|
            0 <= i < j < l1.bidders_info@.len() implies l1.bidders_info@[i].price
            < l1.bidders_info@[j].price by {
            if j < l1.bidders_info@.len() - 1 {
                assert(l0.bidders_info@[i].price < l0.bidders_info@[j].price);
            } else {
                assert(l1.bidders_info@[j].price == price);
                if i < l0.bidders_info@.len() - 1 {
                    assert(l0.bidders_info@[i].price < l0.bidders_info@[
                        l0.bidders_info@.len() - 1
                    ].price);
                    assert(l0.bidders_info@.last().price == l0.highest_bid);
                } else if l0.bidders_info@.len() > 0 {
                    assert(l0.bidders_info@.last().price == l0.highest_bid);
                }
            }
        }
        assert forall|i: int, j: int|
            0 <= i < j < l1.bidders@.len() implies l1.bidders@[i]@ != l1.bidders@[j]@ by {
            if j < l1.bidders@.len() - 1 {
                assert(l0.bidders@[i]@ != l0.bidders@[j]@);
            } else {
                assert(l1.bidders@[j]@ == sender);
                assert(!is_bidder(l0, sender));
                assert(l1.bidders@[i]@ == l0.bidders@[i]@);
            }
        }
        assert(listing_wf(l1));
        assert forall|i: int|
            0 <= i < store.listings@.len() implies listing_wf(#[trigger] store.listings@[i]) by {
            if i != listing_id - 1 {
                assert(store.listings@[i] == pre.listings@[i]);
            }
        }
        if locks_covered(pre) {
            assert forall|k: Seq<u8>| bank_has(store.bank@, k) implies locks_max(
                #[trigger] locks_of(*store, k),
            ) <= balance_of(*store, k) by {
                lemma_locks_covered_account(pre, k);
                if k == sender {
                    lemma_locks_max_push(locks_of(pre, sender), (listing_id, price));
                    assert(locks_max(Seq::<(u64, u128)>::empty()) == 0);
                }
            }
            lemma_locks_covered_from_accounts(*store);
        }
    }
    Ok(empty_response())
}

// ---------------------------------------------------------------------------
// Settlement
// ---------------------------------------------------------------------------

/// The lock list with every entry for `listing_id` dropped, order kept.
fn retain_locks(v: &Vec<(u64, u128)>, listing_id: u64) -> (r: Vec<(u64, u128)>)
    ensures
        r@ == remove_lock(v@, listing_id),
{
    let mut r: Vec<(u64, u128)> = Vec::new();
    let n = v.len();
    let mut i: usize = 0;
    proof {
        assert(v@.take(0) =~= Seq::<(u64, u128)>::empty());
        assert(remove_lock(Seq::<(u64, u128)>::empty(), listing_id) =~= Seq::<
            (u64, u128),
        >::empty());
    }
    while i < n
        invariant
            n == v@.len(),
            0 <= i <= n,
            r@ == remove_lock(v@.take(i as int), listing_id),
        decreases n - i,
    {
        proof {
            assert(v@.take(i + 1) =~= v@.take(i as int).push(v@[i as int]));
            lemma_remove_lock_push(v@.take(i as int), listing_id, v@[i as int]);
        }
        let p = v[i];
        if p.0 != listing_id {
            r.push(p);
        }
        i = i + 1;
    }
    proof {
        assert(v@.take(n as int) =~= v@);
    }
    r
}

/// Release the hold one bidder has on one listing: the `(listing_id, _)`
/// entry leaves the account's locks. Absent records and absent locks are
/// left as they are.
fn unlock_tokens(store: &mut Market, bidder: &Addr, listing_id: u64)
    requires
        bank_keys_distinct(old(store).bank@),
    ensures
        final(store).config == old(store).config,
        final(store).listings == old(store).listings,
        bank_keys_distinct(final(store).bank@),
        forall|k: Seq<u8>|
            #[trigger] has_account(*final(store), k) == has_account(*old(store), k),
        locks_of(*final(store), bidder@) == remove_lock(
            locks_of(*old(store), bidder@),
            listing_id,
        ),
        balance_of(*final(store), bidder@) == balance_of(*old(store), bidder@),
        participated_of(*final(store), bidder@) == participated_of(*old(store), bidder@),
        accounts_unchanged_except(*old(store), *final(store), bidder@),
{
    let ghost pre = *store;
    let tm_opt = bank_read(store, bidder);
    match tm_opt {
        None => {
            proof {
                assert(remove_lock(Seq::<(u64, u128)>::empty(), listing_id) =~= Seq::<
                    (u64, u128),
                >::empty());
            }
        },
        Some(tm) => {
            let new_tm = TokenManager {
                token_balance: tm.token_balance,
                locked_tokens: retain_locks(&tm.locked_tokens, listing_id),
                participated_bids: clone_ids(&tm.participated_bids),
            };
            bank(store, bidder, new_tm);
            proof {
                lemma_accounts_unchanged_from_bank(pre, *store, bidder@);
            }
        },
    }
}

/// The checks settlement makes before anything moves: the caller created
/// the listing, it is still in progress, and its window has opened and
/// expired.
pub open spec fn close_checks_pass(pre: Market, env: Env, sender: Seq<u8>, listing_id: u64) -> bool {
    &&& 1 <= listing_id <= pre.listings@.len()
    &&& pre.listings@[listing_id - 1].creator@ == sender
    &&& pre.listings@[listing_id - 1].status is InProgress
    &&& (pre.listings@[listing_id - 1].start_height matches Some(h) ==> h <= env.block_height)
    &&& pre.listings@[listing_id - 1].end_height <= env.block_height
}

/// The machine-limit side conditions of a winning settlement: the winner's
/// staked balance carries the payment, and the creator's can receive it.
pub open spec fn settlement_safe(pre: Market, listing_id: u64) -> bool {
    let l = pre.listings@[listing_id - 1];
    l.highest_bid >= l.minimum_bid ==> {
        &&& balance_of(pre, l.highest_bidder@) >= l.highest_bid
        &&& (l.creator@ != l.highest_bidder@ ==> balance_of(pre, l.creator@) + l.highest_bid
            <= u128::MAX)
    }
}

/// After paying for a winning settlement, the winner's balance still covers
/// the locks it keeps on other listings.
pub open spec fn close_settlement_covered(pre: Market, listing_id: u64) -> bool {
    let l = pre.listings@[listing_id - 1];
    let w = l.highest_bidder@;
    l.highest_bid >= l.minimum_bid ==> locks_max(remove_lock(locks_of(pre, w), listing_id))
        + l.highest_bid <= balance_of(pre, w)
}

/// What settlement does. With the checks passed, the listing moves once and
/// for all to `Passed` (highest bid reached the minimum: the asset goes to
/// the winner and the payment moves winner to creator inside the staking
/// ledger) or to `Rejected` (the asset goes back to the creator, who is
/// reinstated as highest bidder; no payment moves). Either way every
/// bidder's hold on this listing is released, and the asset-transfer
/// instruction — plus, for `Passed`, the currency-transfer instruction — is
/// returned. Any failed check leaves the store untouched.
pub open spec fn end_listing_spec(
    pre: Market,
    env: Env,
    info: MessageInfo,
    listing_id: u64,
    r: Result<HandleResponse, ContractError>,
    post: Market,
) -> bool {
    let sender = info.sender@;
    match r {
        Ok(resp) => {
            let l0 = pre.listings@[listing_id - 1];
            let l1 = post.listings@[listing_id - 1];
            let passed = l0.highest_bid >= l0.minimum_bid;
            let winner = l0.highest_bidder@;
            let creator = l0.creator@;
            let price = l0.highest_bid;
            &&& close_checks_pass(pre, env, sender, listing_id)
            &&& post.listings@.len() == pre.listings@.len()
            &&& forall|i: int|
                0 <= i < pre.listings@.len() && i != listing_id - 1 ==> post.listings@[i]
                    == pre.listings@[i]
            &&& l1.token_id@ == l0.token_id@
            &&& l1.denom@ == l0.denom@
            &&& l1.creator@ == creator
            &&& l1.status == (if passed {
                BidStatus::Passed
            } else {
                BidStatus::Rejected
            })
            &&& l1.highest_bid == price
            &&& l1.highest_bidder@ == (if passed {
                winner
            } else {
                creator
            })
            &&& l1.minimum_bid == l0.minimum_bid
            &&& bidder_keys(l1) == bidder_keys(l0)
            &&& bid_records(l1) == bid_records(l0)
            &&& l1.start_height == l0.start_height
            &&& l1.end_height == l0.end_height
            &&& l1.description@ == l0.description@
            &&& (passed && winner != creator ==> balance_of(post, winner) == balance_of(
                pre,
                winner,
            ) - price && balance_of(post, creator) == balance_of(pre, creator) + price
                && balance_of(post, creator) + balance_of(post, winner) == balance_of(
                pre,
                creator,
            ) + balance_of(pre, winner))
            &&& (passed && winner == creator ==> balance_of(post, winner) == balance_of(
                pre,
                winner,
            ))
            &&& (passed ==> forall|k: Seq<u8>|
                k != winner && k != creator ==> #[trigger] balance_of(post, k) == balance_of(
                    pre,
                    k,
                ))
            &&& (!passed ==> forall|k: Seq<u8>|
                #[trigger] balance_of(post, k) == balance_of(pre, k))
            &&& forall|k: Seq<u8>|
                is_bidder(l0, k) ==> #[trigger] locks_of(post, k) == remove_lock(
                    locks_of(pre, k),
                    listing_id,
                )
            &&& forall|k: Seq<u8>|
                !is_bidder(l0, k) ==> #[trigger] locks_of(post, k) == locks_of(pre, k)
            &&& forall|k: Seq<u8>|
                #[trigger] participated_of(post, k) == participated_of(pre, k)
            &&& forall|k: Seq<u8>|
                k != winner && k != creator ==> #[trigger] has_account(post, k) == has_account(
                    pre,
                    k,
                )
            &&& post.config == pre.config
            &&& resp.data is None
            &&& resp.messages@.len() == (if passed {
                2int
            } else {
                1int
            })
            &&& (resp.messages@[0] matches Instruction::TransferNft {
                sender: s,
                recipient,
                id,
                denom,
            } && s@ == env.contract_address@ && recipient@ == (if passed {
                winner
            } else {
                creator
            }) && id@ == l0.token_id@ && denom@ == l0.denom@)
            &&& (passed ==> (resp.messages@[1] matches Instruction::SendTokens {
                from_address,
                to_address,
                amount,
                denom,
            } && from_address@ == winner && to_address@ == creator && amount == price && denom@
                == pre.config.denom@))
        },
        Err(e) => {
            &&& post == pre
            &&& if !(1 <= listing_id <= pre.listings@.len()) {
                e == ContractError::NotFound
            } else if pre.listings@[listing_id - 1].creator@ != sender {
                e == ContractError::NotCreator
            } else if !(pre.listings@[listing_id - 1].status is InProgress) {
                e == ContractError::NotInProgress
            } else if (pre.listings@[listing_id - 1].start_height matches Some(h) && h
                > env.block_height) {
                e == ContractError::NotStarted
            } else {
                e == ContractError::NotExpired && pre.listings@[listing_id - 1].end_height
                    > env.block_height
            }
        },
    }
}

/// Whether `k` is among the first `i` bidder keys.
pub open spec fn key_in_first(s: Seq<Addr>, i: int, k: Seq<u8>) -> bool {
    exists|j: int| 0 <= j < i && s[j]@ == k
}

/// Settle a listing. Only its creator may do so, and only once its bidding
/// window has opened and expired; the outcome is terminal.
#[verifier::rlimit(30)]
pub fn end_listing(store: &mut Market, env: &Env, info: &MessageInfo, listing_id: u64) -> (r:
    Result<HandleResponse, ContractError>)
    requires
        market_wf(*old(store)),
        close_checks_pass(*old(store), *env, info.sender@, listing_id) ==> settlement_safe(
            *old(store),
            listing_id,
        ),
    ensures
        market_wf(*final(store)),
        end_listing_spec(*old(store), *env, *info, listing_id, r, *final(store)),
        (locks_covered(*old(store)) && (close_checks_pass(*old(store), *env, info.sender@, listing_id)
            ==> close_settlement_covered(*old(store), listing_id))) ==> locks_covered(
            *final(store),
        ),
{
    let ghost pre = *store;
    let l = match listing_read(store, listing_id) {
        None => {
            return Err(ContractError::NotFound);
        },
        Some(l) => l,
    };
    if !(l.creator == info.sender) {
        return Err(ContractError::NotCreator);
    }
    proof {
        assert(l.creator@ =~= info.sender@);
    }
    if l.status != BidStatus::InProgress {
        return Err(ContractError::NotInProgress);
    }
    match l.start_height {
        Some(h) => {
            if h > env.block_height {
                return Err(ContractError::NotStarted);
            }
        },
        None => {},
    }
    if l.end_height > env.block_height {
        return Err(ContractError::NotExpired);
    }
    let ghost l0 = pre.listings@[listing_id - 1];
    let ghost wk = l0.highest_bidder@;
    let ghost ck = l0.creator@;
    proof {
        assert(l0.creator@ =~= info.sender@);
        assert(close_checks_pass(pre, *env, info.sender@, listing_id));
    }
    let passed = l.minimum_bid <= l.highest_bid;
    let creator = clone_addr(&l.creator);
    let winner = clone_addr(&l.highest_bidder);
    let token_id = l.token_id.clone();
    let asset_denom = l.denom.clone();
    let price = l.highest_bid;
    let bidders = clone_bidders(&l.bidders);
    let new_listing = Listing {
        token_id: l.token_id.clone(),
        denom: l.denom.clone(),
        creator: clone_addr(&l.creator),
        status: if passed {
            BidStatus::Passed
        } else {
            BidStatus::Rejected
        },
        highest_bid: l.highest_bid,
        highest_bidder: if passed {
            clone_addr(&l.highest_bidder)
        } else {
            clone_addr(&l.creator)
        },
        minimum_bid: l.minimum_bid,
        bidders: clone_bidders(&l.bidders),
        bidders_info: clone_bidders_info(&l.bidders_info),
        start_height: l.start_height,
        end_height: l.end_height,
        description: l.description.clone(),
    };
    listing(store, listing_id, new_listing);
    proof {
        let l1 = store.listings@[listing_id - 1];
        assert(bidder_keys(l1) =~= bidder_keys(l0));
        assert(bid_records(l1) =~= bid_records(l0));
        assert(listing_wf(l1));
        assert forall|i: int|
            0 <= i < store.listings@.len() implies listing_wf(#[trigger] store.listings@[i]) by {
            if i != listing_id - 1 {
                assert(store.listings@[i] == pre.listings@[i]);
            }
        }
    }
    if passed {
        let mut winner_tm = match bank_read(store, &winner) {
            Some(tm) => clone_tm(tm),
            None => TokenManager {
                token_balance: 0,
                locked_tokens: Vec::new(),
                participated_bids: Vec::new(),
            },
        };
        proof {
            assert(winner_tm.token_balance == balance_of(pre, wk));
            assert(balance_of(pre, wk) >= price);
        }
        let ghost mid0 = *store;
        let ghost winner_locks = winner_tm.locked_tokens@;
        winner_tm.token_balance = winner_tm.token_balance - price;
        bank(store, &winner, winner_tm);
        proof {
            lemma_accounts_unchanged_from_bank(mid0, *store, wk);
            assert(locks_of(*store, wk) =~= winner_locks);
            assert(locks_of(*store, wk) =~= locks_of(pre, wk));
            assert(participated_of(*store, wk) =~= participated_of(pre, wk));
        }
        let ghost mid1 = *store;
        let mut creator_tm = match bank_read(store, &creator) {
            Some(tm) => clone_tm(tm),
            None => TokenManager {
                token_balance: 0,
                locked_tokens: Vec::new(),
                participated_bids: Vec::new(),
            },
        };
        proof {
            assert(creator_tm.token_balance == balance_of(mid1, ck));
            if ck == wk {
                assert(balance_of(mid1, ck) == balance_of(pre, wk) - price);
            } else {
                assert(balance_of(mid1, ck) == balance_of(pre, ck));
                assert(balance_of(pre, ck) + price <= u128::MAX);
            }
        }
        let ghost creator_locks = creator_tm.locked_tokens@;
        creator_tm.token_balance = creator_tm.token_balance + price;
        bank(store, &creator, creator_tm);
        proof {
            lemma_accounts_unchanged_from_bank(mid1, *store, ck);
            assert(locks_of(*store, ck) =~= creator_locks);
            assert(locks_of(*store, ck) =~= locks_of(mid1, ck));
            assert(participated_of(*store, ck) =~= participated_of(mid1, ck));
        }
    }
    let ghost mid = *store;
    proof {
        assert forall|k: Seq<u8>| #[trigger] locks_of(mid, k) == locks_of(pre, k) by {
            if passed {
                if k != wk && k != ck {
                    assert(locks_of(mid, k) == locks_of(pre, k));
                }
            }
        }
        assert forall|k: Seq<u8>| #[trigger] participated_of(mid, k) == participated_of(
            pre,
            k,
        ) by {
            if passed {
                if k != wk && k != ck {
                }
            }
        }
        if passed {
            if wk != ck {
                assert(balance_of(mid, wk) == balance_of(pre, wk) - price);
                assert(balance_of(mid, ck) == balance_of(pre, ck) + price);
            } else {
                assert(balance_of(mid, wk) == balance_of(pre, wk));
            }
            assert forall|k: Seq<u8>| k != wk && k != ck implies #[trigger] balance_of(mid, k)
                == balance_of(pre, k) by {}
            assert forall|k: Seq<u8>| k != wk && k != ck implies #[trigger] has_account(mid, k)
                == has_account(pre, k) by {}
        }
    }
    let n = bidders.len();
    let mut i: usize = 0;
    while i < n
        invariant
            n == bidders@.len(),
            0 <= i <= n,
            bank_keys_distinct(store.bank@),
            store.config == mid.config,
            store.listings == mid.listings,
            forall|a: int, b: int|
                0 <= a < b < n ==> (#[trigger] bidders@[a])@ != (#[trigger] bidders@[b])@,
            forall|j: int| 0 <= j < n ==> (#[trigger] bidders@[j])@ == l0.bidders@[j]@,
            n == l0.bidders@.len(),
            forall|k: Seq<u8>| #[trigger] has_account(*store, k) == has_account(mid, k),
            forall|j: int|
                0 <= j < i ==> #[trigger] locks_of(*store, bidders@[j]@) == remove_lock(
                    locks_of(mid, bidders@[j]@),
                    listing_id,
                ),
            forall|k: Seq<u8>|
                !key_in_first(bidders@, i as int, k) ==> #[trigger] locks_of(*store, k)
                    == locks_of(mid, k),
            forall|k: Seq<u8>| #[trigger] balance_of(*store, k) == balance_of(mid, k),
            forall|k: Seq<u8>| #[trigger] participated_of(*store, k) == participated_of(mid, k),
        decreases n - i,
    {
        let ghost before = *store;
        unlock_tokens(store, &bidders[i], listing_id);
        proof {
            let bk = bidders@[i as int]@;
            assert(!key_in_first(bidders@, i as int, bk));
            assert(locks_of(before, bk) == locks_of(mid, bk));
            assert forall|j: int|
                0 <= j < i + 1 implies #[trigger] locks_of(*store, bidders@[j]@) == remove_lock(
                locks_of(mid, bidders@[j]@),
                listing_id,
            ) by {
                if j < i {
                    assert(bidders@[j]@ != bk);
                    assert(locks_of(*store, bidders@[j]@) == locks_of(before, bidders@[j]@));
                }
            }
            assert forall|k: Seq<u8>|
                !key_in_first(bidders@, i + 1, k) implies #[trigger] locks_of(*store, k)
                == locks_of(mid, k) by {
                assert(!key_in_first(bidders@, i as int, k));
                assert(k != bk);
            }
        }
        i = i + 1;
    }
    let recipient = if passed {
        &winner
    } else {
        &creator
    };
    let mut messages: Vec<Instruction> = Vec::new();
    messages.push(send_nft(&env.contract_address, recipient, &token_id, &asset_denom));
    if passed {
        messages.push(
            Instruction::SendTokens {
                from_address: winner,
                to_address: creator,
                amount: price,
                denom: store.config.denom.clone(),
            },
        );
    }
    proof {
        assert forall|k: Seq<u8>| is_bidder(l0, k) implies #[trigger] locks_of(*store, k)
            == remove_lock(locks_of(pre, k), listing_id) by {
            let j = choose|j: int| 0 <= j < l0.bidders@.len() && l0.bidders@[j]@ == k;
            assert(bidders@[j]@ == k);
            assert(locks_of(*store, bidders@[j]@) == remove_lock(
                locks_of(mid, bidders@[j]@),
                listing_id,
            ));
        }
        assert forall|k: Seq<u8>| !is_bidder(l0, k) implies #[trigger] locks_of(*store, k)
            == locks_of(pre, k) by {
            assert(!key_in_first(bidders@, n as int, k));
        }
        if locks_covered(pre) && close_settlement_covered(pre, listing_id) {
            assert forall|k: Seq<u8>| bank_has(store.bank@, k) implies locks_max(
                #[trigger] locks_of(*store, k),
            ) <= balance_of(*store, k) by {
                lemma_locks_covered_account(pre, k);
                if is_bidder(l0, k) {
                    lemma_remove_lock_max(locks_of(pre, k), listing_id);
                }
                if passed && k == wk {
                    if l0.bidders@.len() == 0 {
                        assert(l0.highest_bid == 0);
                    } else {
                        assert(l0.bidders@[l0.bidders@.len() - 1]@ == wk);
                        assert(is_bidder(l0, wk));
                        if wk == ck {
                        } else {
                            assert(balance_of(*store, wk) == balance_of(pre, wk) - price);
                            assert(locks_max(remove_lock(locks_of(pre, wk), listing_id)) + price
                                <= balance_of(pre, wk));
                        }
                    }
                }
            }
            lemma_locks_covered_from_accounts(*store);
        }
    }
    Ok(HandleResponse { messages, data: None })
}

// ---------------------------------------------------------------------------
// Command dispatch
// ---------------------------------------------------------------------------

/// Route one command to its operation. Each command's effect is exactly the
/// routed operation's: the per-command transition predicates below say so.
pub fn handle(store: &mut Market, env: &Env, info: &MessageInfo, msg: HandleMsg) -> (r: Result<
    HandleResponse,
    ContractError,
>)
    requires
        market_wf(*old(store)),
        (msg matches HandleMsg::Bid { listing_id, price } ==> balance_of(
            *old(store),
            info.sender@,
        ) + sent_amount(info.sent_funds@, old(store).config.denom@) <= u128::MAX),
        (msg matches HandleMsg::WithdrawTokens { amount } ==> balance_of(
            *old(store),
            info.sender@,
        ) <= old(store).config.staked_tokens),
        (msg matches HandleMsg::List { minimum_bid, start_height, end_height, description } ==> old(
            store,
        ).config.listing_count < u64::MAX && env.block_height + DEFAULT_END_HEIGHT_BLOCKS
            <= u64::MAX),
        (msg matches HandleMsg::CloseBid { listing_id } ==> (close_checks_pass(
            *old(store),
            *env,
            info.sender@,
            listing_id,
        ) ==> settlement_safe(*old(store), listing_id))),
    ensures
        market_wf(*final(store)),
        (msg matches HandleMsg::Bid { listing_id, price } ==> bid_spec(
            *old(store),
            *info,
            listing_id,
            price,
            r,
            *final(store),
        )),
        (msg matches HandleMsg::WithdrawTokens { amount } ==> withdraw_spec(
            *old(store),
            *env,
            *info,
            amount,
            r,
            *final(store),
        )),
        (msg matches HandleMsg::List {
            minimum_bid,
            start_height,
            end_height,
            description,
        } ==> create_listing_spec(
            *old(store),
            *env,
            *info,
            minimum_bid,
            start_height,
            end_height,
            description,
            r,
            *final(store),
        )),
        (msg matches HandleMsg::CloseBid { listing_id } ==> end_listing_spec(
            *old(store),
            *env,
            *info,
            listing_id,
            r,
            *final(store),
        )),
        (locks_covered(*old(store)) && (msg matches HandleMsg::CloseBid { listing_id } ==> (
        close_checks_pass(*old(store), *env, info.sender@, listing_id)
            ==> close_settlement_covered(*old(store), listing_id)))) ==> locks_covered(
            *final(store),
        ),
{
    match msg {
        HandleMsg::WithdrawTokens { amount } => withdraw_tokens(store, env, info, amount),
        HandleMsg::Bid { listing_id, price } => bid(store, env, info, listing_id, price),
        HandleMsg::CloseBid { listing_id } => end_listing(store, env, info, listing_id),
        HandleMsg::List { minimum_bid, start_height, end_height, description } => create_listing(
            store,
            env,
            info,
            minimum_bid,
            start_height,
            end_height,
            description,
        ),
    }
}

// ---------------------------------------------------------------------------
// Query surface
// ---------------------------------------------------------------------------

/// An account's staked balance; unknown accounts hold nothing.
fn token_balance(store: &Market, address: &Addr) -> (r: TokenStakeResponse)
    requires
        bank_keys_distinct(store.bank@),
    ensures
        r.token_balance == balance_of(*store, address@),
{
    match bank_read(store, address) {
        Some(tm) => TokenStakeResponse { token_balance: tm.token_balance },
        None => TokenStakeResponse { token_balance: 0 },
    }
}

/// The public view of one listing.
fn query_listing(store: &Market, listing_id: u64) -> (r: Result<ListingResponse, ContractError>)
    ensures
        match r {
            Ok(resp) => {
                let l = store.listings@[listing_id - 1];
                &&& 1 <= listing_id <= store.listings@.len()
                &&& resp.token_id@ == l.token_id@
                &&& resp.denom@ == l.denom@
                &&& resp.creator@ == l.creator@
                &&& resp.status == l.status
                &&& resp.highest_bid == l.highest_bid
                &&& resp.highest_bidder@ == l.highest_bidder@
                &&& resp.end_height == Some(l.end_height)
                &&& resp.start_height == l.start_height
                &&& resp.description@ == l.description@
            },
            Err(e) => {
                &&& e == ContractError::NotFound
                &&& !(1 <= listing_id <= store.listings@.len())
            },
        },
{
    let l = match listing_read(store, listing_id) {
        None => {
            return Err(ContractError::NotFound);
        },
        Some(l) => l,
    };
    Ok(
        ListingResponse {
            token_id: l.token_id.clone(),
            denom: l.denom.clone(),
            creator: clone_addr(&l.creator),
            status: l.status,
            highest_bid: l.highest_bid,
            highest_bidder: clone_addr(&l.highest_bidder),
            end_height: Some(l.end_height),
            start_height: l.start_height,
            description: l.description.clone(),
        },
    )
}

/// Answer one read-only query against the store.
pub fn query(store: &Market, msg: QueryMsg) -> (r: Result<QueryAnswer, ContractError>)
    requires
        bank_keys_distinct(store.bank@),
    ensures
        (msg matches QueryMsg::Config {  } ==> (r matches Ok(QueryAnswer::Config { config })
            && config.denom@ == store.config.denom@ && config.owner@ == store.config.owner@
            && config.listing_count == store.config.listing_count && config.staked_tokens
            == store.config.staked_tokens)),
        (msg matches QueryMsg::TokenStake { address } ==> (r matches Ok(
            QueryAnswer::TokenStake { stake },
        ) && stake.token_balance == balance_of(*store, address@))),
        (msg matches QueryMsg::Listing { listing_id } ==> if 1 <= listing_id
            <= store.listings@.len() {
            r matches Ok(QueryAnswer::Listing { listing }) && listing.status == store.listings@[
                listing_id - 1
            ].status && listing.highest_bid == store.listings@[listing_id - 1].highest_bid
                && listing.highest_bidder@ == store.listings@[listing_id - 1].highest_bidder@
                && listing.creator@ == store.listings@[listing_id - 1].creator@ && listing.token_id@
                == store.listings@[listing_id - 1].token_id@ && listing.denom@ == store.listings@[
                listing_id - 1
            ].denom@ && listing.end_height == Some(store.listings@[listing_id - 1].end_height)
                && listing.start_height == store.listings@[listing_id - 1].start_height
                && listing.description@ == store.listings@[listing_id - 1].description@
        } else {
            r == Result::<QueryAnswer, ContractError>::Err(ContractError::NotFound)
        }),
{
    match msg {
        QueryMsg::Config {  } => {
            let cfg = config_read(store);
            Ok(
                QueryAnswer::Config {
                    config: State {
                        denom: cfg.denom.clone(),
                        owner: clone_addr(&cfg.owner),
                        listing_count: cfg.listing_count,
                        staked_tokens: cfg.staked_tokens,
                    },
                },
            )
        },
        QueryMsg::TokenStake { address } => Ok(
            QueryAnswer::TokenStake { stake: token_balance(store, &address) },
        ),
        QueryMsg::Listing { listing_id } => {
            match query_listing(store, listing_id) {
                Ok(listing) => Ok(QueryAnswer::Listing { listing }),
                Err(e) => Err(e),
            }
        },
    }
}

/// Build the instruction that hands an escrowed asset back to the caller.
pub fn get_nft(env: &Env, info: &MessageInfo, denom: String, id: String) -> (r: HandleResponse)
    ensures
        r.data is None,
        r.messages@.len() == 1,
        (r.messages@[0] matches Instruction::TransferNft { sender, recipient, id: i, denom: d }
            && sender@ == env.contract_address@ && recipient@ == info.sender@ && i@ == id@ && d@
            == denom@),
{
    let mut messages: Vec<Instruction> = Vec::new();
    messages.push(
        Instruction::TransferNft {
            sender: clone_addr(&env.contract_address),
            recipient: clone_addr(&info.sender),
            id,
            denom,
        },
    );
    HandleResponse { messages, data: None }
}

} // verus!
