//! The records the bot keeps in its database, and the conversions between its query rows and
//! them.

use vstd::prelude::*;
use crate::currency::Currency;

verus! {

/// A registered user and their cash.
#[derive(Debug, Clone, PartialEq, Eq)]
pub struct DbUser {
    pub id: i32,
    pub discord_id: String,
    pub name: String,
    pub cash_balance: Currency,
}

impl DbUser {
    /// A second copy of this user.
    pub(crate) fn duplicate(&self) -> (r: DbUser)
        ensures
            r == *self,
    {
        DbUser {
            id: self.id,
            discord_id: self.discord_id.clone(),
            name: self.name.clone(),
            cash_balance: self.cash_balance,
        }
    }
}

/// What is needed to register a user.
#[derive(Debug, Clone, PartialEq, Eq)]
pub struct CreateDbUser {
    pub name: String,
    pub discord_id: String,
    pub initial_balance: Currency,
}

/// Whether a market still trades.
#[derive(Debug, Clone, Copy, PartialEq, Eq, Hash, Structural)]
pub enum MarketState {
    Open,
    Closed,
}

/// A prediction market and where its message lives.
#[derive(Debug, Clone, PartialEq, Eq)]
pub struct Market {
    pub id: i64,
    pub description: String,
    pub state: MarketState,
    pub owner_id: i64,
    pub message_id: Option<String>,
    pub channel_id: Option<String>,
    pub thread_id: Option<String>,
    pub details_msg_id: Option<String>,
}

/// Whether an outcome is still open, or won or lost at resolution.
#[derive(Debug, Clone, Copy, PartialEq, Eq, Hash, Structural)]
pub enum InstrumentState {
    Open,
    Winner,
    Loser,
}

/// One outcome of a market.
#[derive(Debug, Clone, PartialEq, Eq)]
pub struct Instrument {
    pub id: i64,
    pub name: String,
    pub state: InstrumentState,
    pub market_id: i64,
}

/// An instrument with the number of shares held in it.
pub type InstrumentWithShares = (Instrument, i64);

/// A market with its instruments, their share counts, and its owner.
#[derive(Debug, Clone, PartialEq, Eq)]
pub struct FullMarket {
    pub row: Market,
    pub instruments: Vec<InstrumentWithShares>,
    pub owner: DbUser,
}

/// An instrument that a market does not have.
#[derive(Debug, Clone, Copy, PartialEq, Eq)]
pub struct InstrumentNotFound {
    pub instrument_id: i64,
    pub market_id: i64,
}

/// The first instrument in `instruments` with the given id.
pub open spec fn find_instrument(instruments: Seq<InstrumentWithShares>, id: i64) -> Option<
    InstrumentWithShares,
>
    decreases instruments.len(),
{
    if instruments.len() == 0 {
        None
    } else if instruments[0].0.id == id {
        Some(instruments[0])
    } else {
        find_instrument(instruments.drop_first(), id)
    }
}

impl FullMarket {
    /// The market's first instrument with the given id.
    pub fn get_instrument(&self, id: i64) -> (r: Result<&InstrumentWithShares, InstrumentNotFound>)
        ensures
            match r {
                Ok(found) => find_instrument(self.instruments@, id) == Some(*found),
                Err(e) => find_instrument(self.instruments@, id) is None && e == (
                InstrumentNotFound { instrument_id: id, market_id: self.row.id }),
            },
    {
        // Markets have very few instruments: a linear search is enough.
        let mut i: usize = 0;
        assert(self.instruments@.subrange(0, self.instruments@.len() as int) =~= self.instruments@);
        while i < self.instruments.len()
            invariant
                i <= self.instruments@.len(),
                find_instrument(self.instruments@, id) == find_instrument(
                    self.instruments@.subrange(i as int, self.instruments@.len() as int),
                    id,
                ),
            decreases self.instruments@.len() - i,
        {
            let ghost rest = self.instruments@.subrange(i as int, self.instruments@.len() as int);
            assert(rest.drop_first() =~= self.instruments@.subrange(
                i as int + 1,
                self.instruments@.len() as int,
            ));
            if self.instruments[i].0.id == id {
                return Ok(&self.instruments[i]);
            }
            i = i + 1;
        }
        Err(InstrumentNotFound { instrument_id: id, market_id: self.row.id })
    }
}

/// The side of an order.
#[derive(Debug, Clone, Copy, PartialEq, Eq, Hash, Structural)]
pub enum OrderDirection {
    Buy,
    Sell,
}

/// A stored order.
#[derive(Debug, Clone, PartialEq, Eq)]
pub struct Order {
    pub id: i64,
    pub direction: OrderDirection,
    pub quantity: i64,
    pub shares_price: Currency,
    pub fees: Currency,
    /// Same as `shares_price + fees` for buys but based on the position's cost basis for
    /// sells, so that the profit of a sell can be computed.
    pub cost_basis: Currency,
    pub instrument_id: i64,
    pub owner_id: i64,
    pub created_at: i64,
}

/// An order to store.
#[derive(Debug, Clone, PartialEq, Eq)]
pub struct CreateOrder {
    pub direction: OrderDirection,
    pub quantity: i64,
    pub shares_price: Currency,
    pub fees: Currency,
    pub cost_basis: Currency,
    pub instrument_id: i64,
    pub owner_id: i64,
}

/// A user's holding in one instrument.
#[derive(Debug, Clone, PartialEq, Eq)]
pub struct Position {
    pub id: i64,
    pub quantity: i64,
    pub cost_basis: Currency,
    pub instrument_id: i64,
    pub owner_id: i64,
}

/// A holding to store, replacing any holding of the same owner in the same instrument.
#[derive(Debug, Clone, PartialEq, Eq)]
pub struct CreatePosition {
    pub quantity: i64,
    pub cost_basis: Currency,
    pub instrument_id: i64,
    pub owner_id: i64,
}

impl CreatePosition {
    /// Whether the position holds no shares and is to be removed rather than stored.
    pub fn is_closed(&self) -> (r: bool)
        ensures
            r == (self.quantity == 0),
    {
        self.quantity == 0
    }
}

/// A position with its owner.
#[derive(Debug, Clone, PartialEq, Eq)]
pub struct PositionWithUser {
    pub position: Position,
    pub user: DbUser,
}

/// A position with the market of its instrument.
#[derive(Debug, Clone, PartialEq, Eq)]
pub struct PositionWithMarketId {
    pub position: Position,
    pub market_id: i64,
}

/// A tip paid for a message.
#[derive(Debug, Clone, PartialEq, Eq)]
pub struct Tip {
    pub id: i64,
    pub created_at: i64,
    pub channel_id: String,
    pub message_id: String,
    pub amount: Currency,
    pub user_id: i64,
    pub transfer_id: i64,
}

/// Why money moved.
#[derive(Debug, Clone, Copy, PartialEq, Eq, Hash, Structural)]
pub enum TransferSource {
    Unknown,
    Deposit,
    UserInitiated,
    Order,
    TradeFee,
    Gambling,
    MessageTip,
}

/// A stored transfer.
#[derive(Debug, Clone, PartialEq, Eq)]
pub struct Transfer {
    pub id: i64,
    pub amount: Currency,
    pub sender: i64,
    pub receiver: i64,
    pub memo: String,
    pub created_at: i64,
    pub source: TransferSource,
}

/// A transfer to store: `amount` leaves `sender` and reaches `receiver`.
#[derive(Debug, Clone, PartialEq, Eq)]
pub struct CreateTransfer {
    pub amount: Currency,
    pub sender: i32,
    pub receiver: i32,
    pub memo: String,
    pub source: TransferSource,
}

/// The net amount a user received from transfers of one source.
#[derive(Debug, Clone, PartialEq, Eq)]
pub struct UserTransfersBySource {
    pub user: DbUser,
    pub source: TransferSource,
    pub net: Currency,
}

/// Whether a transfer added to (credit) or took from (debit) a user's cash.
#[derive(Debug, Clone, Copy, PartialEq, Eq, Hash, Structural)]
pub enum TransferDirection {
    Debit,
    Credit,
}

/// The total a user received (credit, positive) or sent (debit, negative) through transfers
/// of one source.
#[derive(Debug, Clone, PartialEq, Eq)]
pub struct UserTransfersBySourceAndDirection {
    pub user: DbUser,
    pub source: TransferSource,
    pub direction: TransferDirection,
    pub amount: Currency,
}

/// Where a blackjack game stands.
#[derive(Debug, Clone, Copy, PartialEq, Eq, Hash, Structural)]
pub enum BlackjackState {
    Betting,
    Stand,
    PlayerBust,
    Closed,
}

/// A stored blackjack game; the hands are written as card text separated by spaces.
#[derive(Debug, Clone, PartialEq, Eq)]
pub struct DbBlackjack {
    pub id: i64,
    pub dealer: String,
    pub player: String,
    pub state: BlackjackState,
    pub channel_id: String,
    pub message_id: String,
    pub owner_id: i64,
    pub staked: Currency,
}

/// The changing part of a stored blackjack game.
#[derive(Debug, Clone, PartialEq, Eq)]
pub struct UpdateBlackjack {
    pub dealer: String,
    pub player: String,
    pub staked: Currency,
    pub state: BlackjackState,
}

/// A blackjack game to store.
#[derive(Debug, Clone, PartialEq, Eq)]
pub struct CreateBlackjack {
    pub dealer: String,
    pub player: String,
    pub owner_id: i64,
    pub state: BlackjackState,
    pub staked: Currency,
    pub channel_id: String,
    pub message_id: String,
}

/// An article of a catfishing game.
#[derive(Debug, Clone, PartialEq, Eq)]
pub struct CatfishingArticle {
    pub id: i32,
    pub names: Vec<String>,
    pub categories: Vec<String>,
}

/// A catfishing game and its articles.
#[derive(Debug, Clone, PartialEq, Eq)]
pub struct CatfishingGame {
    pub id: i32,
    pub published: bool,
    pub articles: Vec<CatfishingArticle>,
}

/// Store of blackjack games (its queries are the application's).
#[derive(Debug, Clone, Copy)]
pub struct DbBlackjackStore {}

/// Store of catfishing games (its queries are the application's).
#[derive(Debug, Clone, Copy)]
pub struct DbCatfishingStore {}

/// Store of instruments (its queries are the application's).
#[derive(Debug, Clone, Copy)]
pub struct DbInstrumentStore {}

/// Store of markets (its queries are the application's).
#[derive(Debug, Clone, Copy)]
pub struct DbMarketStore {}

/// Store of orders (its queries are the application's).
#[derive(Debug, Clone, Copy)]
pub struct DbOrderStore {}

/// Store of positions (its queries are the application's).
#[derive(Debug, Clone, Copy)]
pub struct DbPositionStore {}

/// Store of tips (its queries are the application's).
#[derive(Debug, Clone, Copy)]
pub struct DbTipStore {}

/// Store of transfers (its queries are the application's).
#[derive(Debug, Clone, Copy)]
pub struct DbTransferStore {}

/// Store of users (its queries are the application's).
#[derive(Debug, Clone, Copy)]
pub struct DbUserStore {}

/// A query row of an instrument with its share count.
#[derive(Debug, Clone, PartialEq, Eq)]
pub struct PgInstrumentWithSharesRow {
    pub id: i64,
    pub name: String,
    pub state: InstrumentState,
    pub market_id: i64,
    pub shares: i64,
}

impl PgInstrumentWithSharesRow {
    /// The instrument and its share count.
    pub fn into_pair(self) -> (r: InstrumentWithShares)
        ensures
            r.0 == (Instrument {
                id: self.id,
                name: self.name,
                state: self.state,
                market_id: self.market_id,
            }),
            r.1 == self.shares,
    {
        (
            Instrument { id: self.id, name: self.name, state: self.state, market_id: self.market_id },
            self.shares,
        )
    }
}

/// A query row of a position joined with its owner.
#[derive(Debug, Clone, PartialEq, Eq)]
pub struct PgPositionWithUserRow {
    pub id: i64,
    pub quantity: i64,
    pub cost_basis: Currency,
    pub instrument_id: i64,
    pub owner_id: i64,
    pub users_id: i32,
    pub users_name: String,
    pub users_discord_id: String,
    pub users_cash_balance: Currency,
}

impl PgPositionWithUserRow {
    /// The position and its owner.
    pub fn into_position(self) -> (r: PositionWithUser)
        ensures
            r.position == (Position {
                id: self.id,
                quantity: self.quantity,
                cost_basis: self.cost_basis,
                instrument_id: self.instrument_id,
                owner_id: self.owner_id,
            }),
            r.user == (DbUser {
                id: self.users_id,
                discord_id: self.users_discord_id,
                name: self.users_name,
                cash_balance: self.users_cash_balance,
            }),
    {
        PositionWithUser {
            position: Position {
                id: self.id,
                quantity: self.quantity,
                cost_basis: self.cost_basis,
                instrument_id: self.instrument_id,
                owner_id: self.owner_id,
            },
            user: DbUser {
                id: self.users_id,
                discord_id: self.users_discord_id,
                name: self.users_name,
                cash_balance: self.users_cash_balance,
            },
        }
    }
}

/// A query row of a position joined with the market of its instrument.
#[derive(Debug, Clone, PartialEq, Eq)]
pub struct PgPositionWithMarketIdRow {
    pub id: i64,
    pub quantity: i64,
    pub cost_basis: Currency,
    pub instrument_id: i64,
    pub owner_id: i64,
    pub market_id: i64,
}

impl PgPositionWithMarketIdRow {
    /// The position and its market.
    pub fn into_position(self) -> (r: PositionWithMarketId)
        ensures
            r.position == (Position {
                id: self.id,
                quantity: self.quantity,
                cost_basis: self.cost_basis,
                instrument_id: self.instrument_id,
                owner_id: self.owner_id,
            }),
            r.market_id == self.market_id,
    {
        PositionWithMarketId {
            position: Position {
                id: self.id,
                quantity: self.quantity,
                cost_basis: self.cost_basis,
                instrument_id: self.instrument_id,
                owner_id: self.owner_id,
            },
            market_id: self.market_id,
        }
    }
}

} // verus!
