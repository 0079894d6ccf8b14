//! Data model of the marketplace: the global configuration, the per-account
//! staking ledger, the listing records, and the explicit store that holds them.

use vstd::pervasive::VecAdditionalExecFns;
use vstd::prelude::*;

verus! {

/// Canonical account key: an opaque, comparable byte string.
pub type Addr = Vec<u8>;

/// Singleton global configuration: reserve-currency denom, deployer, the
/// monotonically increasing listing counter and the aggregate staked amount.
#[derive(Debug)]
pub struct State {
    pub denom: String,
    pub owner: Addr,
    pub listing_count: u64,
    pub staked_tokens: u128,
}

/// Per-account ledger record: total staked balance, the active per-listing
/// locks, and the set of listings the account ever bid in.
#[derive(Debug)]
pub struct TokenManager {
    pub token_balance: u128,
    pub locked_tokens: Vec<(u64, u128)>,
    pub participated_bids: Vec<u64>,
}

/// One accepted bid: who placed it and at what price.
#[derive(Debug)]
pub struct Bidder {
    pub bidder: Addr,
    pub price: u128,
}

/// Lifecycle status of a listing. `InProgress` is the only non-terminal
/// status that the operations ever produce; settlement moves a listing to
/// `Passed` or `Rejected` exactly once.
#[derive(Clone, Copy, PartialEq, Eq, Structural, Debug)]
pub enum BidStatus {
    InProgress,
    Tally,
    Passed,
    Rejected,
}

/// One auction instance for one escrowed asset.
#[derive(Debug)]
pub struct Listing {
    pub token_id: String,
    pub denom: String,
    pub creator: Addr,
    pub status: BidStatus,
    pub highest_bid: u128,
    pub highest_bidder: Addr,
    pub minimum_bid: u128,
    pub bidders: Vec<Addr>,
    pub bidders_info: Vec<Bidder>,
    pub start_height: Option<u64>,
    pub end_height: u64,
    pub description: String,
}

/// The whole persisted store: configuration singleton, listings keyed densely
/// by `listing_id` (listing `i + 1` sits at index `i`), and the ledger as an
/// association list from account key to record, one entry per account.
#[derive(Debug)]
pub struct Market {
    pub config: State,
    pub listings: Vec<Listing>,
    pub bank: Vec<(Addr, TokenManager)>,
}

// ---------------------------------------------------------------------------
// Ledger spec-level interface
// ---------------------------------------------------------------------------

/// Whether the ledger holds a record for `key`.
pub open spec fn bank_has(bank: Seq<(Addr, TokenManager)>, key: Seq<u8>) -> bool {
    exists|i: int| 0 <= i < bank.len() && bank[i].0@ == key
}

/// Index of the record for `key`; meaningful only under `bank_keys_distinct`
/// and `bank_has`.
pub open spec fn bank_index_of(bank: Seq<(Addr, TokenManager)>, key: Seq<u8>) -> int {
    choose|i: int| 0 <= i < bank.len() && bank[i].0@ == key
}

/// The record stored for `key`.
pub open spec fn stored_tm(bank: Seq<(Addr, TokenManager)>, key: Seq<u8>) -> TokenManager {
    bank[bank_index_of(bank, key)].1
}

/// At most one ledger entry per account key.
pub open spec fn bank_keys_distinct(bank: Seq<(Addr, TokenManager)>) -> bool {
    forall|i: int, j: int| 0 <= i < j < bank.len() ==> bank[i].0@ != bank[j].0@
}

pub open spec fn has_account(m: Market, key: Seq<u8>) -> bool {
    bank_has(m.bank@, key)
}

/// Staked balance of `key`; accounts without a record hold nothing.
pub open spec fn balance_of(m: Market, key: Seq<u8>) -> u128 {
    if bank_has(m.bank@, key) {
        stored_tm(m.bank@, key).token_balance
    } else {
        0
    }
}

/// Active `(listing_id, amount)` locks of `key`.
pub open spec fn locks_of(m: Market, key: Seq<u8>) -> Seq<(u64, u128)> {
    if bank_has(m.bank@, key) {
        stored_tm(m.bank@, key).locked_tokens@
    } else {
        Seq::empty()
    }
}

/// Listings `key` ever bid in.
pub open spec fn participated_of(m: Market, key: Seq<u8>) -> Seq<u64> {
    if bank_has(m.bank@, key) {
        stored_tm(m.bank@, key).participated_bids@
    } else {
        Seq::empty()
    }
}

// ---------------------------------------------------------------------------
// Lock sequences
// ---------------------------------------------------------------------------

/// Largest single locked amount; zero when nothing is locked.
pub open spec fn locks_max(locks: Seq<(u64, u128)>) -> u128
    decreases locks.len(),
{
    if locks.len() == 0 {
        0
    } else {
        let rest = locks_max(locks.drop_first());
        if locks[0].1 >= rest {
            locks[0].1
        } else {
            rest
        }
    }
}

/// Total locked amount across all active listings.
pub open spec fn locks_sum(locks: Seq<(u64, u128)>) -> int
    decreases locks.len(),
{
    if locks.len() == 0 {
        0
    } else {
        locks[0].1 + locks_sum(locks.drop_first())
    }
}

/// Whether a lock for `listing_id` is present.
pub open spec fn has_lock(locks: Seq<(u64, u128)>, listing_id: u64) -> bool {
    exists|i: int| 0 <= i < locks.len() && locks[i].0 == listing_id
}

/// The locks with every entry for `listing_id` removed, order kept.
pub open spec fn remove_lock(locks: Seq<(u64, u128)>, listing_id: u64) -> Seq<(u64, u128)>
    decreases locks.len(),
{
    if locks.len() == 0 {
        Seq::empty()
    } else if locks[0].0 == listing_id {
        remove_lock(locks.drop_first(), listing_id)
    } else {
        seq![locks[0]] + remove_lock(locks.drop_first(), listing_id)
    }
}

// ---------------------------------------------------------------------------
// Listing spec-level interface
// ---------------------------------------------------------------------------

/// The bidder keys of a listing, in insertion order.
pub open spec fn bidder_keys(l: Listing) -> Seq<Seq<u8>> {
    l.bidders@.map_values(|a: Addr| a@)
}

/// The accepted bid records of a listing, in order: (bidder key, price).
pub open spec fn bid_records(l: Listing) -> Seq<(Seq<u8>, u128)> {
    l.bidders_info@.map_values(|b: Bidder| (b.bidder@, b.price))
}

/// Whether `key` has an accepted bid on `l`.
pub open spec fn is_bidder(l: Listing, key: Seq<u8>) -> bool {
    exists|i: int| 0 <= i < l.bidders@.len() && l.bidders@[i]@ == key
}

/// Well-formedness of one listing record:
/// - the bidder list and the bid-record list run in parallel;
/// - no account appears twice among the bidders;
/// - accepted prices strictly increase, and the last one is the highest bid;
/// - with no bids the highest bid is zero and the creator stands as highest
///   bidder; a rejected listing's highest bidder is reset to the creator.
pub open spec fn listing_wf(l: Listing) -> bool {
    &&& l.bidders@.len() == l.bidders_info@.len()
    &&& forall|i: int|
        0 <= i < l.bidders@.len() ==> l.bidders@[i]@ == #[trigger] l.bidders_info@[i].bidder@
    &&& forall|i: int, j: int|
        0 <= i < j < l.bidders@.len() ==> l.bidders@[i]@ != l.bidders@[j]@
    &&& forall|i: int, j: int|
        0 <= i < j < l.bidders_info@.len() ==> l.bidders_info@[i].price < l.bidders_info@[
            j
        ].price
    &&& l.bidders_info@.len() > 0 ==> l.bidders_info@.last().price == l.highest_bid
    &&& l.bidders_info@.len() == 0 ==> l.highest_bid == 0 && l.highest_bidder@ == l.creator@
    &&& (!(l.status is Rejected) && l.bidders_info@.len() > 0) ==> l.bidders_info@.last().bidder@
        == l.highest_bidder@
    &&& l.status is Rejected ==> l.highest_bidder@ == l.creator@
}

/// Well-formedness of the store: the counter counts the listings, ledger keys
/// are unique, and every listing is well formed.
pub open spec fn market_wf(m: Market) -> bool {
    &&& m.config.listing_count == m.listings@.len()
    &&& bank_keys_distinct(m.bank@)
    &&& forall|i: int| 0 <= i < m.listings@.len() ==> listing_wf(#[trigger] m.listings@[i])
}

/// Every account's largest single lock is covered by its staked balance.
pub open spec fn locks_covered(m: Market) -> bool {
    forall|i: int|
        0 <= i < m.bank@.len() ==> locks_max(#[trigger] m.bank@[i].1.locked_tokens@)
            <= m.bank@[i].1.token_balance
}

/// Every account but `key` keeps its record, balance, locks and history.
pub open spec fn accounts_unchanged_except(pre: Market, post: Market, key: Seq<u8>) -> bool {
    &&& forall|k: Seq<u8>| k != key ==> #[trigger] has_account(post, k) == has_account(pre, k)
    &&& forall|k: Seq<u8>| k != key ==> #[trigger] balance_of(post, k) == balance_of(pre, k)
    &&& forall|k: Seq<u8>| k != key ==> #[trigger] locks_of(post, k) == locks_of(pre, k)
    &&& forall|k: Seq<u8>|
        k != key ==> #[trigger] participated_of(post, k) == participated_of(pre, k)
}

/// The ledger-entry form of "every other account is untouched" gives the
/// account-level form.
pub proof fn lemma_accounts_unchanged_from_bank(pre: Market, post: Market, key: Seq<u8>)
    requires
        forall|k: Seq<u8>|
            k != key ==> #[trigger] bank_has(post.bank@, k) == bank_has(pre.bank@, k),
        forall|k: Seq<u8>|
            k != key && bank_has(pre.bank@, k) ==> #[trigger] stored_tm(post.bank@, k)
                == stored_tm(pre.bank@, k),
    ensures
        accounts_unchanged_except(pre, post, key),
{
    assert forall|k: Seq<u8>| k != key implies #[trigger] balance_of(post, k) == balance_of(
        pre,
        k,
    ) by {
        assert(bank_has(post.bank@, k) == bank_has(pre.bank@, k));
    }
    assert forall|k: Seq<u8>| k != key implies #[trigger] locks_of(post, k) == locks_of(
        pre,
        k,
    ) by {
        assert(bank_has(post.bank@, k) == bank_has(pre.bank@, k));
    }
    assert forall|k: Seq<u8>| k != key implies #[trigger] participated_of(post, k)
        == participated_of(pre, k) by {
        assert(bank_has(post.bank@, k) == bank_has(pre.bank@, k));
    }
}

// ---------------------------------------------------------------------------
// Facts about lock sequences
// ---------------------------------------------------------------------------

/// The total locked amount is never negative.
pub proof fn lemma_locks_sum_nonneg(locks: Seq<(u64, u128)>)
    ensures
        locks_sum(locks) >= 0,
    decreases locks.len(),
{
    if locks.len() > 0 {
        lemma_locks_sum_nonneg(locks.drop_first());
    }
}

/// The largest single lock is at most the total locked amount.
pub proof fn lemma_locks_max_le_sum(locks: Seq<(u64, u128)>)
    ensures
        locks_max(locks) <= locks_sum(locks),
    decreases locks.len(),
{
    if locks.len() > 0 {
        lemma_locks_max_le_sum(locks.drop_first());
        lemma_locks_sum_nonneg(locks.drop_first());
    }
}

/// Appending a lock adds its amount to the total.
pub proof fn lemma_locks_sum_push(locks: Seq<(u64, u128)>, p: (u64, u128))
    ensures
        locks_sum(locks.push(p)) == locks_sum(locks) + p.1,
    decreases locks.len(),
{
    if locks.len() == 0 {
        assert(locks.push(p) =~= seq![p]);
        assert(locks.push(p).drop_first() =~= Seq::<(u64, u128)>::empty());
        assert(locks_sum(Seq::<(u64, u128)>::empty()) == 0);
        assert(locks.push(p)[0] == p);
    } else {
        assert(locks.push(p).drop_first() =~= locks.drop_first().push(p));
        assert(locks.push(p)[0] == locks[0]);
        lemma_locks_sum_push(locks.drop_first(), p);
    }
}

/// Appending a lock raises the largest single lock to at least its amount.
pub proof fn lemma_locks_max_push(locks: Seq<(u64, u128)>, p: (u64, u128))
    ensures
        locks_max(locks.push(p)) == if p.1 >= locks_max(locks) {
            p.1
        } else {
            locks_max(locks)
        },
    decreases locks.len(),
{
    if locks.len() == 0 {
        assert(locks.push(p) =~= seq![p]);
        assert(locks.push(p).drop_first() =~= Seq::<(u64, u128)>::empty());
        assert(locks_max(Seq::<(u64, u128)>::empty()) == 0);
        assert(locks.push(p)[0] == p);
    } else {
        assert(locks.push(p).drop_first() =~= locks.drop_first().push(p));
        assert(locks.push(p)[0] == locks[0]);
        lemma_locks_max_push(locks.drop_first(), p);
    }
}

/// Releasing a listing's lock never raises the largest single lock.
pub proof fn lemma_remove_lock_max(locks: Seq<(u64, u128)>, listing_id: u64)
    ensures
        locks_max(remove_lock(locks, listing_id)) <= locks_max(locks),
    decreases locks.len(),
{
    if locks.len() > 0 {
        lemma_remove_lock_max(locks.drop_first(), listing_id);
        if locks[0].0 != listing_id {
            let rest = remove_lock(locks.drop_first(), listing_id);
            assert(seq![locks[0]] + rest == remove_lock(locks, listing_id));
            lemma_locks_max_cons(locks[0], rest);
        }
    }
}

/// Unfolding of `locks_max` over a front element.
pub proof fn lemma_locks_max_cons(p: (u64, u128), rest: Seq<(u64, u128)>)
    ensures
        locks_max(seq![p] + rest) == if p.1 >= locks_max(rest) {
            p.1
        } else {
            locks_max(rest)
        },
{
    assert((seq![p] + rest)[0] == p);
    assert((seq![p] + rest).drop_first() =~= rest);
}

/// Appending a lock for another listing keeps the filtered sequence's tail.
pub proof fn lemma_remove_lock_push(locks: Seq<(u64, u128)>, listing_id: u64, p: (u64, u128))
    ensures
        remove_lock(locks.push(p), listing_id) == if p.0 == listing_id {
            remove_lock(locks, listing_id)
        } else {
            remove_lock(locks, listing_id).push(p)
        },
    decreases locks.len(),
{
    if locks.len() == 0 {
        assert(locks.push(p) =~= seq![p]);
        assert(locks.push(p).drop_first() =~= Seq::<(u64, u128)>::empty());
        assert(remove_lock(Seq::<(u64, u128)>::empty(), listing_id) =~= Seq::<
            (u64, u128),
        >::empty());
        assert(locks.push(p)[0] == p);
        if p.0 != listing_id {
            assert(remove_lock(locks.push(p), listing_id) =~= remove_lock(
                locks,
                listing_id,
            ).push(p));
        }
    } else {
        assert(locks.push(p)[0] == locks[0]);
        assert(locks.push(p).drop_first() =~= locks.drop_first().push(p));
        lemma_remove_lock_push(locks.drop_first(), listing_id, p);
        if locks[0].0 != listing_id {
            if p.0 == listing_id {
            } else {
                assert(seq![locks[0]] + remove_lock(locks.drop_first(), listing_id).push(p)
                    =~= (seq![locks[0]] + remove_lock(locks.drop_first(), listing_id)).push(p));
            }
        }
    }
}

/// A released listing no longer appears among the locks, and every other
/// lock survives the release unchanged.
pub proof fn lemma_remove_lock_membership(locks: Seq<(u64, u128)>, listing_id: u64)
    ensures
        !has_lock(remove_lock(locks, listing_id), listing_id),
        forall|i: int|
            0 <= i < locks.len() && (#[trigger] locks[i]).0 != listing_id ==> remove_lock(
                locks,
                listing_id,
            ).contains(locks[i]),
    decreases locks.len(),
{
    let r = remove_lock(locks, listing_id);
    if locks.len() == 0 {
    } else {
        lemma_remove_lock_membership(locks.drop_first(), listing_id);
        let rest = remove_lock(locks.drop_first(), listing_id);
        if locks[0].0 == listing_id {
            assert forall|i: int|
                0 <= i < locks.len() && (#[trigger] locks[i]).0 != listing_id implies r.contains(
                locks[i],
            ) by {
                assert(locks[i] == locks.drop_first()[i - 1]);
            }
        } else {
            assert forall|i: int| 0 <= i < r.len() implies r[i].0 != listing_id by {
                if i > 0 {
                    assert(r[i] == rest[i - 1]);
                    assert(rest.contains(rest[i - 1]));
                    if rest[i - 1].0 == listing_id {
                        assert(has_lock(rest, listing_id));
                    }
                }
            }
            assert(!has_lock(r, listing_id));
            assert forall|i: int|
                0 <= i < locks.len() && (#[trigger] locks[i]).0 != listing_id implies r.contains(
                locks[i],
            ) by {
                if i == 0 {
                    assert(r[0] == locks[0]);
                } else {
                    assert(locks[i] == locks.drop_first()[i - 1]);
                    let w = choose|w: int| 0 <= w < rest.len() && rest[w] == locks[i];
                    assert(r[w + 1] == rest[w]);
                }
            }
        }
    }
}

// ---------------------------------------------------------------------------
// Facts about coverage of locks by balances
// ---------------------------------------------------------------------------

/// One account's view of the coverage invariant.
pub proof fn lemma_locks_covered_account(m: Market, key: Seq<u8>)
    requires
        locks_covered(m),
        bank_keys_distinct(m.bank@),
    ensures
        locks_max(locks_of(m, key)) <= balance_of(m, key),
{
    if bank_has(m.bank@, key) {
        let i = bank_index_of(m.bank@, key);
        assert(0 <= i < m.bank@.len() && m.bank@[i].0@ == key);
    }
}

/// Coverage of every stored account gives the positional invariant.
pub proof fn lemma_locks_covered_from_accounts(m: Market)
    requires
        bank_keys_distinct(m.bank@),
        forall|k: Seq<u8>|
            bank_has(m.bank@, k) ==> locks_max(#[trigger] locks_of(m, k)) <= balance_of(m, k),
    ensures
        locks_covered(m),
{
    assert forall|i: int| 0 <= i < m.bank@.len() implies locks_max(
        #[trigger] m.bank@[i].1.locked_tokens@,
    ) <= m.bank@[i].1.token_balance by {
        let k = m.bank@[i].0@;
        assert(bank_has(m.bank@, k));
        lemma_bank_index_unique(m.bank@, k, i);
        assert(locks_of(m, k) == m.bank@[i].1.locked_tokens@);
    }
}

// ---------------------------------------------------------------------------
// Store access (the persistence collaborator, made explicit)
// ---------------------------------------------------------------------------

/// Read the configuration singleton.
pub fn config_read(store: &Market) -> (s: &State)
    ensures
        s == &store.config,
{
    &store.config
}

/// Save the configuration singleton.
pub fn config(store: &mut Market, state: State)
    ensures
        final(store).config == state,
        final(store).listings == old(store).listings,
        final(store).bank == old(store).bank,
{
    store.config = state;
}

/// Load a listing by id; ids run from 1 to the number of stored listings.
pub fn listing_read(store: &Market, listing_id: u64) -> (r: Option<&Listing>)
    ensures
        match r {
            Some(l) => 1 <= listing_id <= store.listings@.len() && *l == store.listings@[
                listing_id - 1
            ],
            None => !(1 <= listing_id <= store.listings@.len()),
        },
{
    if listing_id >= 1 && listing_id <= store.listings.len() as u64 {
        Some(&store.listings[(listing_id - 1) as usize])
    } else {
        None
    }
}

/// Save a listing under `listing_id`: overwrite an existing id, or append the
/// next fresh one.
pub fn listing(store: &mut Market, listing_id: u64, l: Listing)
    requires
        1 <= listing_id <= old(store).listings@.len() + 1,
        listing_id == old(store).listings@.len() + 1 ==> old(store).listings@.len() < u64::MAX,
    ensures
        final(store).config == old(store).config,
        final(store).bank == old(store).bank,
        listing_id <= old(store).listings@.len() ==> final(store).listings@ == old(
            store,
        ).listings@.update(listing_id - 1, l),
        listing_id == old(store).listings@.len() + 1 ==> final(store).listings@ == old(
            store,
        ).listings@.push(l),
{
    if listing_id <= store.listings.len() as u64 {
        let i = (listing_id - 1) as usize;
        store.listings.set(i, l);
    } else {
        store.listings.push(l);
    }
}

/// Position of the ledger entry for `key`, if one exists.
fn bank_index(bank: &Vec<(Addr, TokenManager)>, key: &Addr) -> (r: Option<usize>)
    requires
        bank_keys_distinct(bank@),
    ensures
        match r {
            Some(i) => i < bank@.len() && bank@[i as int].0@ == key@ && bank_has(bank@, key@)
                && bank_index_of(bank@, key@) == i,
            None => !bank_has(bank@, key@),
        },
{
    let n = bank.len();
    let mut i: usize = 0;
    while i < n
        invariant
            n == bank@.len(),
            0 <= i <= n,
            bank_keys_distinct(bank@),
            forall|k: int| 0 <= k < i ==> (#[trigger] bank@[k].0@) != key@,
        decreases n - i,
    {
        if bank[i].0 == *key {
            proof {
                assert(bank@[i as int].0@ =~= key@);
                lemma_bank_index_unique(bank@, key@, i as int);
            }
            return Some(i);
        }
        proof {
            assert(!(bank@[i as int].0@ =~= key@));
        }
        i = i + 1;
    }
    None
}

/// Load an account's ledger record, if one exists.
pub fn bank_read<'a>(store: &'a Market, key: &Addr) -> (r: Option<&'a TokenManager>)
    requires
        bank_keys_distinct(store.bank@),
    ensures
        match r {
            Some(tm) => bank_has(store.bank@, key@) && *tm == stored_tm(store.bank@, key@),
            None => !bank_has(store.bank@, key@),
        },
{
    match bank_index(&store.bank, key) {
        Some(i) => Some(&store.bank[i].1),
        None => None,
    }
}

/// With unique keys, the stored index of a present key is the matching one.
proof fn lemma_bank_index_unique(bank: Seq<(Addr, TokenManager)>, key: Seq<u8>, i: int)
    requires
        bank_keys_distinct(bank),
        0 <= i < bank.len(),
        bank[i].0@ == key,
    ensures
        bank_has(bank, key),
        bank_index_of(bank, key) == i,
{
    assert(bank_has(bank, key));
    let j = bank_index_of(bank, key);
    assert(0 <= j < bank.len() && bank[j].0@ == key);
    if i < j {
        assert(bank[i].0@ != bank[j].0@);
    } else if j < i {
        assert(bank[j].0@ != bank[i].0@);
    }
}

/// Save an account's ledger record: overwrite the existing entry for `key`,
/// or append a fresh one.
pub fn bank(store: &mut Market, key: &Addr, tm: TokenManager)
    requires
        bank_keys_distinct(old(store).bank@),
    ensures
        final(store).config == old(store).config,
        final(store).listings == old(store).listings,
        bank_keys_distinct(final(store).bank@),
        bank_has(final(store).bank@, key@),
        stored_tm(final(store).bank@, key@) == tm,
        forall|k: Seq<u8>|
            k != key@ ==> #[trigger] bank_has(final(store).bank@, k) == bank_has(
                old(store).bank@,
                k,
            ),
        forall|k: Seq<u8>|
            k != key@ && bank_has(old(store).bank@, k) ==> #[trigger] stored_tm(
                final(store).bank@,
                k,
            ) == stored_tm(old(store).bank@, k),
{
    let ghost pre = store.bank@;
    match bank_index(&store.bank, key) {
        Some(i) => {
            let entry = &mut store.bank[i];
            entry.1 = tm;
            proof {
                assert(store.bank@ =~= pre.update(i as int, (pre[i as int].0, tm)));
                lemma_bank_update_effect(pre, store.bank@, key@, i as int, tm);
            }
        },
        None => {
            let mut fresh: Addr = Vec::new();
            let klen = key.len();
            let mut j: usize = 0;
            while j < klen
                invariant
                    klen == key@.len(),
                    0 <= j <= klen,
                    fresh@ =~= key@.take(j as int),
                decreases klen - j,
            {
                fresh.push(key[j]);
                j = j + 1;
            }
            proof {
                assert(fresh@ =~= key@);
            }
            store.bank.push((fresh, tm));
            proof {
                lemma_bank_push_effect(pre, store.bank@, key@, tm);
            }
        },
    }
}

/// Overwriting the entry at the key's own index changes that account alone.
proof fn lemma_bank_update_effect(
    pre: Seq<(Addr, TokenManager)>,
    post: Seq<(Addr, TokenManager)>,
    key: Seq<u8>,
    i: int,
    tm: TokenManager,
)
    requires
        bank_keys_distinct(pre),
        0 <= i < pre.len(),
        pre[i].0@ == key,
        post == pre.update(i, (pre[i].0, tm)),
    ensures
        bank_keys_distinct(post),
        bank_has(post, key),
        stored_tm(post, key) == tm,
        forall|k: Seq<u8>| k != key ==> #[trigger] bank_has(post, k) == bank_has(pre, k),
        forall|k: Seq<u8>|
            k != key && bank_has(pre, k) ==> #[trigger] stored_tm(post, k) == stored_tm(pre, k),
{
    assert(forall|m: int| 0 <= m < post.len() ==> post[m].0@ == pre[m].0@);
    assert(bank_keys_distinct(post));
    lemma_bank_index_unique(post, key, i);
    assert forall|k: Seq<u8>| k != key implies #[trigger] bank_has(post, k) == bank_has(
        pre,
        k,
    ) by {
        if bank_has(pre, k) {
            let m = bank_index_of(pre, k);
            assert(post[m].0@ == k);
        }
        if bank_has(post, k) {
            let m = choose|m: int| 0 <= m < post.len() && post[m].0@ == k;
            assert(pre[m].0@ == k);
        }
    }
    assert forall|k: Seq<u8>| k != key && bank_has(pre, k) implies #[trigger] stored_tm(post, k)
        == stored_tm(pre, k) by {
        let m = bank_index_of(pre, k);
        lemma_bank_index_unique(pre, k, m);
        assert(post[m].0@ == k);
        lemma_bank_index_unique(post, k, m);
        assert(m != i);
    }
}

/// Appending a record for an absent key changes that account alone.
proof fn lemma_bank_push_effect(
    pre: Seq<(Addr, TokenManager)>,
    post: Seq<(Addr, TokenManager)>,
    key: Seq<u8>,
    tm: TokenManager,
)
    requires
        bank_keys_distinct(pre),
        !bank_has(pre, key),
        post.len() == pre.len() + 1,
        post[pre.len() as int].0@ == key,
        post[pre.len() as int].1 == tm,
        forall|m: int| 0 <= m < pre.len() ==> post[m] == pre[m],
    ensures
        bank_keys_distinct(post),
        bank_has(post, key),
        stored_tm(post, key) == tm,
        forall|k: Seq<u8>| k != key ==> #[trigger] bank_has(post, k) == bank_has(pre, k),
        forall|k: Seq<u8>|
            k != key && bank_has(pre, k) ==> #[trigger] stored_tm(post, k) == stored_tm(pre, k),
{
    let n = pre.len() as int;
    assert forall|i: int, j: int| 0 <= i < j < post.len() implies post[i].0@ != post[j].0@ by {
        if j < n {
        } else {
            assert(j == n);
            assert(post[i].0@ == pre[i].0@);
            if post[i].0@ == key {
                assert(bank_has(pre, key));
            }
        }
    }
    lemma_bank_index_unique(post, key, n);
    assert forall|k: Seq<u8>| k != key implies #[trigger] bank_has(post, k) == bank_has(
        pre,
        k,
    ) by {
        if bank_has(pre, k) {
            let m = bank_index_of(pre, k);
            lemma_bank_index_unique(pre, k, m);
            assert(post[m].0@ == k);
        }
        if bank_has(post, k) {
            let m = choose|m: int| 0 <= m < post.len() && post[m].0@ == k;
            assert(m != n);
            assert(pre[m].0@ == k);
        }
    }
    assert forall|k: Seq<u8>| k != key && bank_has(pre, k) implies #[trigger] stored_tm(post, k)
        == stored_tm(pre, k) by {
        let m = bank_index_of(pre, k);
        lemma_bank_index_unique(pre, k, m);
        assert(post[m].0@ == k);
        lemma_bank_index_unique(post, k, m);
    }
}

} // verus!
