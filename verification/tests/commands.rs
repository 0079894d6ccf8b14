//! Each typed failure, and dispatch through the facade.

use auction_market::contract::{bid, create_listing, end_listing, handle, stake_voting_tokens, withdraw_tokens};
use auction_market::contract::init;
use auction_market::msg::{Coin, ContractError, Env, HandleMsg, InitMsg, MessageInfo, Nft};
use auction_market::state::{listing_read, BidStatus, Market};

fn addr(name: &str) -> Vec<u8> {
    name.as_bytes().to_vec()
}

fn env_at(height: u64) -> Env {
    Env { block_height: height, contract_address: addr("contract") }
}

fn plain_info(sender: &str) -> MessageInfo {
    MessageInfo { sender: addr(sender), sent_funds: Vec::new(), sent_nfts: Vec::new() }
}

fn info_with_funds(sender: &str, amount: u128) -> MessageInfo {
    MessageInfo {
        sender: addr(sender),
        sent_funds: vec![Coin { denom: "token".to_string(), amount }],
        sent_nfts: Vec::new(),
    }
}

fn info_with_nft(sender: &str, id: &str) -> MessageInfo {
    MessageInfo {
        sender: addr(sender),
        sent_funds: Vec::new(),
        sent_nfts: vec![Nft { denom: "nft".to_string(), id: id.to_string() }],
    }
}

fn fresh_market() -> Market {
    init(addr("owner"), InitMsg { denom: "token".to_string() })
}

fn open_listing(store: &mut Market, minimum_bid: u128) {
    create_listing(
        store,
        &env_at(5),
        &info_with_nft("carol", "asset-1"),
        minimum_bid,
        None,
        Some(10),
        "a painting".to_string(),
    )
    .unwrap();
}

#[test]
fn staking_without_the_minimum_attached_is_refused() {
    let mut store = fresh_market();
    let r = stake_voting_tokens(&mut store, &plain_info("dave"));
    assert_eq!(r.unwrap_err(), ContractError::InsufficientFundsSent);
    let r = stake_voting_tokens(&mut store, &info_with_funds("dave", 0));
    assert_eq!(r.unwrap_err(), ContractError::InsufficientFundsSent);
    // One unit is the minimum and is accepted.
    stake_voting_tokens(&mut store, &info_with_funds("dave", 1)).unwrap();
    assert_eq!(store.config.staked_tokens, 1);
}

#[test]
fn the_largest_representable_amount_can_be_staked_and_withdrawn() {
    let mut store = fresh_market();
    stake_voting_tokens(&mut store, &info_with_funds("whale", u128::MAX)).unwrap();
    assert_eq!(store.config.staked_tokens, u128::MAX);
    withdraw_tokens(&mut store, &env_at(5), &plain_info("whale"), None).unwrap();
    assert_eq!(store.config.staked_tokens, 0);
}

#[test]
fn withdrawing_from_an_unknown_account_is_refused() {
    let mut store = fresh_market();
    let r = withdraw_tokens(&mut store, &env_at(5), &plain_info("nobody"), Some(1));
    assert_eq!(r.unwrap_err(), ContractError::NothingStaked);
}

#[test]
fn withdrawing_more_than_the_balance_is_refused() {
    let mut store = fresh_market();
    stake_voting_tokens(&mut store, &info_with_funds("dave", 40)).unwrap();
    let r = withdraw_tokens(&mut store, &env_at(5), &plain_info("dave"), Some(41));
    assert_eq!(r.unwrap_err(), ContractError::OverWithdraw);
    withdraw_tokens(&mut store, &env_at(5), &plain_info("dave"), Some(40)).unwrap();
    assert_eq!(store.config.staked_tokens, 0);
}

#[test]
fn listing_descriptions_are_length_checked() {
    let mut store = fresh_market();
    let r = create_listing(
        &mut store,
        &env_at(5),
        &info_with_nft("carol", "asset-1"),
        100,
        None,
        Some(10),
        "ab".to_string(),
    );
    assert_eq!(r.unwrap_err(), ContractError::DescriptionTooShort);
    let long = "x".repeat(65);
    let r = create_listing(
        &mut store,
        &env_at(5),
        &info_with_nft("carol", "asset-1"),
        100,
        None,
        Some(10),
        long,
    );
    assert_eq!(r.unwrap_err(), ContractError::DescriptionTooLong);
}

#[test]
fn a_listing_cannot_end_in_the_past() {
    let mut store = fresh_market();
    let r = create_listing(
        &mut store,
        &env_at(5),
        &info_with_nft("carol", "asset-1"),
        100,
        None,
        Some(5),
        "a painting".to_string(),
    );
    assert_eq!(r.unwrap_err(), ContractError::EndHeightInPast);
}

#[test]
fn listing_creation_needs_the_escrowed_asset() {
    let mut store = fresh_market();
    let r = create_listing(
        &mut store,
        &env_at(5),
        &plain_info("carol"),
        100,
        None,
        Some(10),
        "a painting".to_string(),
    );
    assert_eq!(r.unwrap_err(), ContractError::NoAssetAttached);
}

#[test]
fn the_default_bidding_window_is_one_hundred_thousand_eight_hundred_blocks() {
    let mut store = fresh_market();
    create_listing(
        &mut store,
        &env_at(7),
        &info_with_nft("carol", "asset-1"),
        100,
        None,
        None,
        "a painting".to_string(),
    )
    .unwrap();
    let l = listing_read(&store, 1).unwrap();
    assert_eq!(l.end_height, 7 + 100_800);
}

#[test]
fn bids_on_unknown_listings_are_refused() {
    let mut store = fresh_market();
    open_listing(&mut store, 100);
    let r = bid(&mut store, &env_at(6), &info_with_funds("xavier", 50), 0, 50);
    assert_eq!(r.unwrap_err(), ContractError::NotFound);
    let r = bid(&mut store, &env_at(6), &info_with_funds("xavier", 50), 2, 50);
    assert_eq!(r.unwrap_err(), ContractError::NotFound);
}

#[test]
fn bids_must_strictly_exceed_the_highest_bid() {
    let mut store = fresh_market();
    open_listing(&mut store, 100);
    bid(&mut store, &env_at(6), &info_with_funds("xavier", 150), 1, 150).unwrap();
    // A tie is rejected too.
    let r = bid(&mut store, &env_at(6), &info_with_funds("yann", 150), 1, 150);
    assert_eq!(r.unwrap_err(), ContractError::BidTooLow);
}

#[test]
fn bids_beyond_the_available_stake_are_refused() {
    let mut store = fresh_market();
    open_listing(&mut store, 100);
    let r = bid(&mut store, &env_at(6), &info_with_funds("xavier", 149), 1, 150);
    assert_eq!(r.unwrap_err(), ContractError::InsufficientStake);
    // A previously staked balance counts towards the bid.
    stake_voting_tokens(&mut store, &info_with_funds("xavier", 1)).unwrap();
    bid(&mut store, &env_at(6), &info_with_funds("xavier", 149), 1, 150).unwrap();
}

#[test]
fn bids_after_settlement_are_refused() {
    let mut store = fresh_market();
    open_listing(&mut store, 100);
    end_listing(&mut store, &env_at(10), &plain_info("carol"), 1).unwrap();
    let r = bid(&mut store, &env_at(11), &info_with_funds("xavier", 150), 1, 150);
    assert_eq!(r.unwrap_err(), ContractError::NotInProgress);
}

#[test]
fn only_the_creator_settles_and_only_once() {
    let mut store = fresh_market();
    open_listing(&mut store, 100);
    let r = end_listing(&mut store, &env_at(10), &plain_info("mallory"), 1);
    assert_eq!(r.unwrap_err(), ContractError::NotCreator);
    end_listing(&mut store, &env_at(10), &plain_info("carol"), 1).unwrap();
    let r = end_listing(&mut store, &env_at(11), &plain_info("carol"), 1);
    assert_eq!(r.unwrap_err(), ContractError::NotInProgress);
}

#[test]
fn settlement_waits_for_the_bidding_window() {
    let mut store = fresh_market();
    create_listing(
        &mut store,
        &env_at(5),
        &info_with_nft("carol", "asset-1"),
        100,
        Some(8),
        Some(6),
        "a painting".to_string(),
    )
    .unwrap();
    let r = end_listing(&mut store, &env_at(7), &plain_info("carol"), 1);
    assert_eq!(r.unwrap_err(), ContractError::NotStarted);
    let mut store = fresh_market();
    create_listing(
        &mut store,
        &env_at(5),
        &info_with_nft("carol", "asset-1"),
        100,
        None,
        Some(10),
        "a painting".to_string(),
    )
    .unwrap();
    let r = end_listing(&mut store, &env_at(9), &plain_info("carol"), 1);
    assert_eq!(r.unwrap_err(), ContractError::NotExpired);
}

#[test]
fn unknown_settlement_targets_are_refused() {
    let mut store = fresh_market();
    let r = end_listing(&mut store, &env_at(10), &plain_info("carol"), 1);
    assert_eq!(r.unwrap_err(), ContractError::NotFound);
}

#[test]
fn the_facade_routes_each_command() {
    let mut store = fresh_market();
    let r = handle(
        &mut store,
        &env_at(5),
        &info_with_nft("carol", "asset-1"),
        HandleMsg::List {
            minimum_bid: 100,
            start_height: None,
            end_height: Some(10),
            description: "a painting".to_string(),
        },
    )
    .unwrap();
    assert_eq!(r.data.unwrap().listing_id, 1);
    handle(
        &mut store,
        &env_at(6),
        &info_with_funds("xavier", 150),
        HandleMsg::Bid { listing_id: 1, price: 150 },
    )
    .unwrap();
    handle(
        &mut store,
        &env_at(10),
        &plain_info("carol"),
        HandleMsg::CloseBid { listing_id: 1 },
    )
    .unwrap();
    assert_eq!(listing_read(&store, 1).unwrap().status, BidStatus::Passed);
    let r = handle(
        &mut store,
        &env_at(11),
        &plain_info("nobody"),
        HandleMsg::WithdrawTokens { amount: None },
    );
    assert_eq!(r.unwrap_err(), ContractError::NothingStaked);
}
