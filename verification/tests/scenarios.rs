//! End-to-end auction scenarios driven through the marketplace facade.

use auction_market::contract::{bid, create_listing, end_listing, stake_voting_tokens, withdraw_tokens};
use auction_market::contract::init;
use auction_market::msg::{Coin, ContractError, Env, InitMsg, Instruction, MessageInfo, Nft};
use auction_market::state::{listing_read, BidStatus, Market};

fn addr(name: &str) -> Vec<u8> {
    name.as_bytes().to_vec()
}

fn env_at(height: u64) -> Env {
    Env { block_height: height, contract_address: addr("contract") }
}

fn plain_info(sender: &str) -> MessageInfo {
    MessageInfo { sender: addr(sender), sent_funds: Vec::new(), sent_nfts: Vec::new() }
}

fn info_with_funds(sender: &str, amount: u128) -> MessageInfo {
    MessageInfo {
        sender: addr(sender),
        sent_funds: vec![Coin { denom: "token".to_string(), amount }],
        sent_nfts: Vec::new(),
    }
}

fn info_with_nft(sender: &str, id: &str) -> MessageInfo {
    MessageInfo {
        sender: addr(sender),
        sent_funds: Vec::new(),
        sent_nfts: vec![Nft { denom: "nft".to_string(), id: id.to_string() }],
    }
}

fn fresh_market() -> Market {
    init(addr("owner"), InitMsg { denom: "token".to_string() })
}

fn balance(store: &Market, name: &str) -> u128 {
    store
        .bank
        .iter()
        .find(|(k, _)| k == &addr(name))
        .map(|(_, tm)| tm.token_balance)
        .unwrap_or(0)
}

fn locks(store: &Market, name: &str) -> Vec<(u64, u128)> {
    store
        .bank
        .iter()
        .find(|(k, _)| k == &addr(name))
        .map(|(_, tm)| tm.locked_tokens.clone())
        .unwrap_or_default()
}

#[test]
fn no_bids_listing_is_rejected_and_creator_keeps_asset() {
    let mut store = fresh_market();
    let r = create_listing(
        &mut store,
        &env_at(5),
        &info_with_nft("carol", "asset-1"),
        100,
        None,
        Some(10),
        "a painting".to_string(),
    );
    assert!(r.is_ok());
    let r = end_listing(&mut store, &env_at(10), &plain_info("carol"), 1);
    let resp = r.unwrap();
    let l = listing_read(&store, 1).unwrap();
    assert_eq!(l.status, BidStatus::Rejected);
    assert_eq!(l.highest_bidder, addr("carol"));
    assert_eq!(resp.messages.len(), 1);
    match &resp.messages[0] {
        Instruction::TransferNft { recipient, id, .. } => {
            assert_eq!(recipient, &addr("carol"));
            assert_eq!(id.as_str(), "asset-1");
        },
        _ => panic!("expected an asset transfer"),
    }
}

#[test]
fn first_bid_below_minimum_is_accepted_and_repeat_bid_is_refused() {
    let mut store = fresh_market();
    create_listing(
        &mut store,
        &env_at(5),
        &info_with_nft("carol", "asset-1"),
        100,
        None,
        Some(10),
        "a painting".to_string(),
    )
    .unwrap();
    // The first bid only has to exceed the zero highest bid, not the minimum.
    let r = bid(&mut store, &env_at(6), &info_with_funds("xavier", 50), 1, 50);
    assert!(r.is_ok());
    let r = bid(&mut store, &env_at(6), &info_with_funds("xavier", 80), 1, 80);
    assert_eq!(r.unwrap_err(), ContractError::DuplicateBid);
}

#[test]
fn winning_settlement_pays_creator_and_releases_losing_lock() {
    let mut store = fresh_market();
    create_listing(
        &mut store,
        &env_at(5),
        &info_with_nft("carol", "asset-1"),
        100,
        None,
        Some(10),
        "a painting".to_string(),
    )
    .unwrap();
    bid(&mut store, &env_at(6), &info_with_funds("xavier", 150), 1, 150).unwrap();
    bid(&mut store, &env_at(7), &info_with_funds("yann", 200), 1, 200).unwrap();
    let resp = end_listing(&mut store, &env_at(10), &plain_info("carol"), 1).unwrap();
    let l = listing_read(&store, 1).unwrap();
    assert_eq!(l.status, BidStatus::Passed);
    assert_eq!(l.highest_bidder, addr("yann"));
    assert_eq!(balance(&store, "yann"), 0);
    assert_eq!(balance(&store, "carol"), 200);
    assert_eq!(balance(&store, "xavier"), 150);
    assert!(locks(&store, "xavier").is_empty());
    assert!(locks(&store, "yann").is_empty());
    assert_eq!(resp.messages.len(), 2);
    match &resp.messages[0] {
        Instruction::TransferNft { recipient, id, .. } => {
            assert_eq!(recipient, &addr("yann"));
            assert_eq!(id.as_str(), "asset-1");
        },
        _ => panic!("expected an asset transfer first"),
    }
    match &resp.messages[1] {
        Instruction::SendTokens { from_address, to_address, amount, denom } => {
            assert_eq!(from_address, &addr("yann"));
            assert_eq!(to_address, &addr("carol"));
            assert_eq!(*amount, 200);
            assert_eq!(denom.as_str(), "token");
        },
        _ => panic!("expected a currency transfer second"),
    }
}

#[test]
fn locked_stake_cannot_be_withdrawn_until_settlement_releases_it() {
    let mut store = fresh_market();
    stake_voting_tokens(&mut store, &info_with_funds("dave", 100)).unwrap();
    create_listing(
        &mut store,
        &env_at(5),
        &info_with_nft("carol", "asset-1"),
        200,
        None,
        Some(10),
        "a painting".to_string(),
    )
    .unwrap();
    bid(&mut store, &env_at(6), &plain_info("dave"), 1, 100).unwrap();
    assert_eq!(locks(&store, "dave"), vec![(1, 100)]);
    let r = withdraw_tokens(&mut store, &env_at(7), &plain_info("dave"), None);
    assert_eq!(r.unwrap_err(), ContractError::OverWithdraw);
    // The highest bid stays below the minimum, so settlement rejects the
    // listing and only releases the hold.
    end_listing(&mut store, &env_at(10), &plain_info("carol"), 1).unwrap();
    assert_eq!(balance(&store, "dave"), 100);
    assert!(locks(&store, "dave").is_empty());
    let resp = withdraw_tokens(&mut store, &env_at(11), &plain_info("dave"), None).unwrap();
    assert_eq!(balance(&store, "dave"), 0);
    match &resp.messages[0] {
        Instruction::SendTokens { to_address, amount, .. } => {
            assert_eq!(to_address, &addr("dave"));
            assert_eq!(*amount, 100);
        },
        _ => panic!("expected a currency transfer"),
    }
}
