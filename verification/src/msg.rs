//! Command and query surface of the marketplace: incoming messages, outgoing
//! responses, the transfer instructions handed to external collaborators, and
//! the error taxonomy.

use crate::state::Addr;
use crate::state::BidStatus;
use crate::state::State;
use vstd::prelude::*;

verus! {

/// A fungible amount of one denomination, as attached to an incoming call.
#[derive(Debug)]
pub struct Coin {
    pub denom: String,
    pub amount: u128,
}

/// A non-fungible asset, identified by its class and id.
#[derive(Debug)]
pub struct Nft {
    pub denom: String,
    pub id: String,
}

/// What the caller's execution context supplies with a call: the sender's
/// canonical key and whatever currency or assets arrived escrowed with it.
#[derive(Debug)]
pub struct MessageInfo {
    pub sender: Addr,
    pub sent_funds: Vec<Coin>,
    pub sent_nfts: Vec<Nft>,
}

/// Block context of a call: the current height and this contract's own key.
#[derive(Debug)]
pub struct Env {
    pub block_height: u64,
    pub contract_address: Addr,
}

/// Deployment message: fixes the reserve-currency denom.
#[derive(Debug)]
pub struct InitMsg {
    pub denom: String,
}

/// The closed set of state-mutating commands.
#[derive(Debug)]
pub enum HandleMsg {
    Bid { listing_id: u64, price: u128 },
    WithdrawTokens { amount: Option<u128> },
    List {
        minimum_bid: u128,
        start_height: Option<u64>,
        end_height: Option<u64>,
        description: String,
    },
    CloseBid { listing_id: u64 },
}

/// The read-only queries.
#[derive(Debug)]
pub enum QueryMsg {
    Config {},
    TokenStake { address: Addr },
    Listing { listing_id: u64 },
}

/// Public view of one listing.
#[derive(Debug)]
pub struct ListingResponse {
    pub token_id: String,
    pub denom: String,
    pub creator: Addr,
    pub status: BidStatus,
    pub highest_bid: u128,
    pub highest_bidder: Addr,
    pub end_height: Option<u64>,
    pub start_height: Option<u64>,
    pub description: String,
}

/// Success payload of `create_listing`: the freshly allocated id.
#[derive(Debug)]
pub struct CreateListingResponse {
    pub listing_id: u64,
}

/// Number of listings ever created.
#[derive(Debug)]
pub struct ListingCountResponse {
    pub listing_count: u64,
}

/// An account's staked balance.
#[derive(Debug)]
pub struct TokenStakeResponse {
    pub token_balance: u128,
}

/// Answer of the query surface.
#[derive(Debug)]
pub enum QueryAnswer {
    Config { config: State },
    TokenStake { stake: TokenStakeResponse },
    Listing { listing: ListingResponse },
}

/// An instruction to an external transfer collaborator, issued only after the
/// local state transition is committed.
#[derive(Debug)]
pub enum Instruction {
    /// Move `amount` of the fungible `denom` between accounts.
    SendTokens { from_address: Addr, to_address: Addr, amount: u128, denom: String },
    /// Move the non-fungible asset `id` of class `denom` between accounts.
    TransferNft { sender: Addr, recipient: Addr, id: String, denom: String },
}

/// Success payload of a command: the instructions to issue, and for listing
/// creation the new id.
#[derive(Debug)]
pub struct HandleResponse {
    pub messages: Vec<Instruction>,
    pub data: Option<CreateListingResponse>,
}

/// The typed failures. Every error leaves the store untouched.
#[derive(Clone, Copy, PartialEq, Eq, Structural, Debug)]
pub enum ContractError {
    /// The attached currency is below the fixed staking minimum.
    InsufficientFundsSent,
    /// The account has no ledger record to withdraw from.
    NothingStaked,
    /// The requested withdrawal exceeds the unlocked balance.
    OverWithdraw,
    /// Listing description shorter than the allowed minimum.
    DescriptionTooShort,
    /// Listing description longer than the allowed maximum.
    DescriptionTooLong,
    /// The requested end height is not in the future.
    EndHeightInPast,
    /// Listing creation arrived without an escrowed asset.
    NoAssetAttached,
    /// No listing under the given id.
    NotFound,
    /// The listing is already settled.
    NotInProgress,
    /// The bid does not strictly exceed the current highest bid.
    BidTooLow,
    /// The account already has an accepted bid on this listing.
    DuplicateBid,
    /// Available stake does not cover the bid price.
    InsufficientStake,
    /// Only the listing's creator may settle it.
    NotCreator,
    /// The bidding window has not opened yet.
    NotStarted,
    /// The bidding window has not closed yet.
    NotExpired,
}

} // verus!
