//! The read-only query surface, the store accessors, and the invariants on
//! concrete stores.

use auction_market::contract::{bid, create_listing, get_nft, init, query, stake_voting_tokens};
use auction_market::msg::{
    Coin, ContractError, Env, InitMsg, Instruction, ListingCountResponse, MessageInfo, Nft,
    QueryAnswer, QueryMsg,
};
use auction_market::state::{
    bank, bank_read, config, config_read, listing_read, BidStatus, Market, State, TokenManager,
};

fn addr(name: &str) -> Vec<u8> {
    name.as_bytes().to_vec()
}

fn env_at(height: u64) -> Env {
    Env { block_height: height, contract_address: addr("contract") }
}

fn info_with_funds(sender: &str, amount: u128) -> MessageInfo {
    MessageInfo {
        sender: addr(sender),
        sent_funds: vec![Coin { denom: "token".to_string(), amount }],
        sent_nfts: Vec::new(),
    }
}

fn info_with_nft(sender: &str, id: &str) -> MessageInfo {
    MessageInfo {
        sender: addr(sender),
        sent_funds: Vec::new(),
        sent_nfts: vec![Nft { denom: "nft".to_string(), id: id.to_string() }],
    }
}

fn fresh_market() -> Market {
    init(addr("owner"), InitMsg { denom: "token".to_string() })
}

#[test]
fn deployment_fixes_the_configuration() {
    let store = fresh_market();
    let cfg = config_read(&store);
    assert_eq!(cfg.denom.as_str(), "token");
    assert_eq!(cfg.owner, addr("owner"));
    assert_eq!(cfg.listing_count, 0);
    assert_eq!(cfg.staked_tokens, 0);
    let count = ListingCountResponse { listing_count: cfg.listing_count };
    assert_eq!(count.listing_count, 0);
}

#[test]
fn the_config_query_mirrors_the_store() {
    let mut store = fresh_market();
    stake_voting_tokens(&mut store, &info_with_funds("dave", 25)).unwrap();
    match query(&store, QueryMsg::Config {}).unwrap() {
        QueryAnswer::Config { config } => {
            assert_eq!(config.denom.as_str(), "token");
            assert_eq!(config.staked_tokens, 25);
        },
        _ => panic!("expected the configuration"),
    }
}

#[test]
fn the_stake_query_reports_zero_for_unknown_accounts() {
    let mut store = fresh_market();
    stake_voting_tokens(&mut store, &info_with_funds("dave", 25)).unwrap();
    match query(&store, QueryMsg::TokenStake { address: addr("dave") }).unwrap() {
        QueryAnswer::TokenStake { stake } => assert_eq!(stake.token_balance, 25),
        _ => panic!("expected a stake"),
    }
    match query(&store, QueryMsg::TokenStake { address: addr("nobody") }).unwrap() {
        QueryAnswer::TokenStake { stake } => assert_eq!(stake.token_balance, 0),
        _ => panic!("expected a stake"),
    }
}

#[test]
fn the_listing_query_shows_the_public_view_or_fails() {
    let mut store = fresh_market();
    create_listing(
        &mut store,
        &env_at(5),
        &info_with_nft("carol", "asset-1"),
        100,
        Some(6),
        Some(10),
        "a painting".to_string(),
    )
    .unwrap();
    match query(&store, QueryMsg::Listing { listing_id: 1 }).unwrap() {
        QueryAnswer::Listing { listing } => {
            assert_eq!(listing.token_id.as_str(), "asset-1");
            assert_eq!(listing.denom.as_str(), "nft");
            assert_eq!(listing.creator, addr("carol"));
            assert_eq!(listing.status, BidStatus::InProgress);
            assert_eq!(listing.highest_bid, 0);
            assert_eq!(listing.highest_bidder, addr("carol"));
            assert_eq!(listing.start_height, Some(6));
            assert_eq!(listing.end_height, Some(10));
            assert_eq!(listing.description.as_str(), "a painting");
        },
        _ => panic!("expected a listing"),
    }
    let r = query(&store, QueryMsg::Listing { listing_id: 2 });
    assert_eq!(r.unwrap_err(), ContractError::NotFound);
}

#[test]
fn retrieving_an_asset_instructs_the_transfer() {
    let env = env_at(5);
    let info = MessageInfo { sender: addr("dave"), sent_funds: Vec::new(), sent_nfts: Vec::new() };
    let r = get_nft(&env, &info, "nft".to_string(), "asset-9".to_string());
    assert_eq!(r.messages.len(), 1);
    match &r.messages[0] {
        Instruction::TransferNft { sender, recipient, id, denom } => {
            assert_eq!(sender, &addr("contract"));
            assert_eq!(recipient, &addr("dave"));
            assert_eq!(id.as_str(), "asset-9");
            assert_eq!(denom.as_str(), "nft");
        },
        _ => panic!("expected an asset transfer"),
    }
}

#[test]
fn the_store_accessors_load_and_save() {
    let mut store = fresh_market();
    config(
        &mut store,
        State {
            denom: "token".to_string(),
            owner: addr("owner"),
            listing_count: 0,
            staked_tokens: 7,
        },
    );
    assert_eq!(config_read(&store).staked_tokens, 7);
    bank(
        &mut store,
        &addr("dave"),
        TokenManager { token_balance: 5, locked_tokens: Vec::new(), participated_bids: Vec::new() },
    );
    assert_eq!(bank_read(&store, &addr("dave")).unwrap().token_balance, 5);
    // Saving again overwrites the same account's record.
    bank(
        &mut store,
        &addr("dave"),
        TokenManager { token_balance: 9, locked_tokens: Vec::new(), participated_bids: Vec::new() },
    );
    assert_eq!(store.bank.len(), 1);
    assert_eq!(bank_read(&store, &addr("dave")).unwrap().token_balance, 9);
    assert!(bank_read(&store, &addr("nobody")).is_none());
}

#[test]
fn accepted_bids_keep_the_ledger_and_listing_invariants() {
    let mut store = fresh_market();
    create_listing(
        &mut store,
        &env_at(5),
        &info_with_nft("carol", "asset-1"),
        100,
        None,
        Some(10),
        "a painting".to_string(),
    )
    .unwrap();
    bid(&mut store, &env_at(6), &info_with_funds("xavier", 150), 1, 150).unwrap();
    bid(&mut store, &env_at(7), &info_with_funds("yann", 200), 1, 200).unwrap();
    // Every account's largest single lock stays within its balance.
    for (_, tm) in &store.bank {
        let largest = tm.locked_tokens.iter().map(|(_, v)| *v).max().unwrap_or(0);
        assert!(largest <= tm.token_balance);
    }
    // Accepted prices strictly increase and the last one is the highest bid;
    // no account appears twice.
    let l = listing_read(&store, 1).unwrap();
    for w in l.bidders_info.windows(2) {
        assert!(w[0].price < w[1].price);
    }
    assert_eq!(l.bidders_info.last().unwrap().price, l.highest_bid);
    assert_eq!(l.bidders.len(), 2);
    assert!(l.bidders[0] != l.bidders[1]);
}
