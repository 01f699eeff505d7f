//! Buying, selling and resolving shares: the orders, transfers and positions a trade makes.
//!
//! The market maker's share prices come from a logarithmic scoring rule computed in floating
//! point, which stays with the application; the functions here take the price it gives.

use vstd::prelude::*;
use crate::currency::{Currency, round_half_even, abs, fits_i64, lemma_round_half_even_magnitude};
use crate::store::{
    CreateOrder, CreatePosition, CreateTransfer, DbUser, FullMarket, Instrument,
    InstrumentNotFound, Market, OrderDirection, Position, PositionWithUser, TransferSource,
    find_instrument,
};
use crate::text::{signed_decimal, i64_to_decimal, append_str, string_from};
use crate::ui::{instrument_text, instrument_display_text};

verus! {

/// A transfer of `amount` from `sender` to `receiver`.
fn create_transfer(
    sender: &DbUser,
    receiver: &DbUser,
    amount: Currency,
    memo: &str,
    source: TransferSource,
) -> (r: CreateTransfer)
    ensures
        transfer_is(r, amount, sender.id, receiver.id, memo@, source),
{
    CreateTransfer {
        amount,
        sender: sender.id,
        receiver: receiver.id,
        memo: string_from(memo),
        source,
    }
}

/// A transfer from a user to the system user.
fn create_system_debit(
    user: &DbUser,
    system_user: &DbUser,
    amount: Currency,
    memo: &str,
    source: TransferSource,
) -> (r: CreateTransfer)
    ensures
        transfer_is(r, amount, user.id, system_user.id, memo@, source),
{
    create_transfer(user, system_user, amount, memo, source)
}

/// A transfer from the system user to a user.
pub fn create_system_credit(
    user: &DbUser,
    system_user: &DbUser,
    amount: Currency,
    memo: &str,
    source: TransferSource,
) -> (r: CreateTransfer)
    ensures
        transfer_is(r, amount, system_user.id, user.id, memo@, source),
{
    create_transfer(system_user, user, amount, memo, source)
}

/// Whether a transfer has exactly these fields.
pub open spec fn transfer_is(
    t: CreateTransfer,
    amount: Currency,
    sender: i32,
    receiver: i32,
    memo: Seq<char>,
    source: TransferSource,
) -> bool {
    &&& t.amount == amount
    &&& t.sender == sender
    &&& t.receiver == receiver
    &&& t.memo@ == memo
    &&& t.source == source
}

/// The trading fee on a share price: a flat two percent, rounded to the nearest thousandth,
/// ties to even.
pub open spec fn fee_of(shares_price: Currency) -> Currency {
    Currency(round_half_even(shares_price.0 * 2, 100) as i64)
}

/// The fee on a share price.
pub fn calc_fees(shares_price: Currency) -> (r: Currency)
    ensures
        r == fee_of(shares_price),
        abs(r.0 as int) <= abs(shares_price.0 as int),
{
    proof {
        lemma_round_half_even_magnitude(shares_price.0 * 2, 100);
    }
    // Flat two percent.
    shares_price.mul_fraction(2, 100)
}

/// The prices of an order.
#[derive(Debug, Clone, Copy, PartialEq, Eq, Structural)]
pub struct OrderPrices {
    pub shares_price: Currency,
    pub fees: Currency,
    pub direction: OrderDirection,
}

/// What an order costs (a buy: price plus fees) or yields (a sell: price less fees).
pub open spec fn order_total(p: OrderPrices) -> int {
    match p.direction {
        OrderDirection::Buy => p.shares_price.0 + p.fees.0,
        OrderDirection::Sell => p.shares_price.0 - p.fees.0,
    }
}

impl OrderPrices {
    /// What the order costs or yields in all.
    pub fn total(&self) -> (r: Currency)
        requires
            fits_i64(order_total(*self)),
        ensures
            r.0 == order_total(*self),
    {
        match self.direction {
            OrderDirection::Buy => self.shares_price.add(self.fees),
            OrderDirection::Sell => self.shares_price.sub(self.fees),
        }
    }
}

/// What a transfer of a trade pays for.
#[derive(Debug, Clone, Copy, PartialEq, Eq, Structural)]
pub enum TransferType {
    Buy,
    Sell,
    Resolve,
}

/// The first word of a trade transfer's memo.
pub open spec fn transfer_prefix(ty: TransferType) -> Seq<char> {
    match ty {
        TransferType::Buy => "BUY"@,
        TransferType::Sell => "SELL"@,
        TransferType::Resolve => "RESOLVE"@,
    }
}

/// The memo of a trade transfer, such as `BUY FEES 5 shares yes (market #0001)`.
pub open spec fn memo_text(
    ty: TransferType,
    is_fees: bool,
    qty: i64,
    name: Seq<char>,
    market_id: i64,
) -> Seq<char> {
    transfer_prefix(ty) + (if is_fees {
        " FEES"@
    } else {
        Seq::<char>::empty()
    }) + " "@ + signed_decimal(qty as int) + " shares "@ + instrument_text(name, market_id)
}

/// The memo of a trade transfer.
pub fn format_transfer_memo(
    ty: TransferType,
    is_fees: bool,
    qty: i64,
    instrument: &Instrument,
    market: &Market,
) -> (r: String)
    ensures
        r@ == memo_text(ty, is_fees, qty, instrument.name@, market.id),
{
    let mut r = match ty {
        TransferType::Buy => string_from("BUY"),
        TransferType::Sell => string_from("SELL"),
        TransferType::Resolve => string_from("RESOLVE"),
    };
    if is_fees {
        append_str(&mut r, " FEES");
    }
    append_str(&mut r, " ");
    let q = i64_to_decimal(qty);
    append_str(&mut r, q.as_str());
    append_str(&mut r, " shares ");
    let display_text = instrument_display_text(instrument, market);
    append_str(&mut r, display_text.as_str());
    assert(r@ =~= memo_text(ty, is_fees, qty, instrument.name@, market.id));
    r
}

/// What a buy or a sell makes: the order, the transfers, the new position and the prices.
#[derive(Debug, Clone, PartialEq, Eq)]
pub struct TradeResult {
    pub order: CreateOrder,
    pub transfers: Vec<CreateTransfer>,
    pub position: CreatePosition,
    pub prices: OrderPrices,
    pub quantity: i64,
}

/// Why a trade was refused.
#[derive(Debug, Clone, Copy, PartialEq, Eq, Structural)]
pub enum TradeError {
    /// The buyer cannot pay this total, even with the overdraft allowed.
    InsufficientFunds(Currency),
    /// The seller holds fewer shares than the order sells.
    InsufficientShares,
}

/// How far below zero a buyer's cash may go: one YP.
pub const OVERDRAFT_LIMIT: i64 = 1000;

/// The total a buy at this share price costs.
pub open spec fn buy_total(shares_price: Currency) -> int {
    shares_price.0 + fee_of(shares_price).0
}

/// Whether `r` is what a buy of `quantity` shares at `shares_price` makes.
pub open spec fn buy_result(
    r: TradeResult,
    quantity: i64,
    instrument: Instrument,
    market: FullMarket,
    existing_position: Option<Position>,
    user: DbUser,
    system_user: DbUser,
    shares_price: Currency,
) -> bool {
    let fees = fee_of(shares_price);
    let total = buy_total(shares_price);
    let held = match existing_position {
        Some(p) => p.quantity as int,
        None => 0,
    };
    let basis = match existing_position {
        Some(p) => p.cost_basis.0 as int,
        None => 0,
    };
    &&& r.order == CreateOrder {
        direction: OrderDirection::Buy,
        quantity,
        cost_basis: Currency(total as i64),
        shares_price,
        fees,
        instrument_id: instrument.id,
        owner_id: user.id as i64,
    }
    &&& r.transfers@.len() == 2
    &&& transfer_is(
        r.transfers@[0],
        shares_price,
        user.id,
        system_user.id,
        memo_text(TransferType::Buy, false, quantity, instrument.name@, market.row.id),
        TransferSource::Order,
    )
    &&& transfer_is(
        r.transfers@[1],
        fees,
        user.id,
        market.owner.id,
        memo_text(TransferType::Buy, true, quantity, instrument.name@, market.row.id),
        TransferSource::TradeFee,
    )
    &&& r.position == CreatePosition {
        quantity: (held + quantity) as i64,
        cost_basis: Currency((basis + total) as i64),
        instrument_id: instrument.id,
        owner_id: user.id as i64,
    }
    &&& r.prices == OrderPrices { shares_price, fees, direction: OrderDirection::Buy }
    &&& r.quantity == quantity
}

/// Buys `quantity` shares of `instrument` at `shares_price` for `user`: the price goes to the
/// system user and the fee to the market's owner. Refused when it would leave the buyer more
/// than one YP below zero.
pub fn buy(
    quantity: i64,
    instrument: &Instrument,
    market: &FullMarket,
    existing_position: Option<&Position>,
    user: &DbUser,
    system_user: &DbUser,
    shares_price: Currency,
) -> (r: Result<TradeResult, TradeError>)
    requires
        fits_i64(buy_total(shares_price)),
        fits_i64(user.cash_balance.0 - buy_total(shares_price)),
        existing_position matches Some(p) ==> fits_i64(p.quantity + quantity) && fits_i64(
            p.cost_basis.0 + buy_total(shares_price),
        ),
    ensures
        user.cash_balance.0 - buy_total(shares_price) < -OVERDRAFT_LIMIT ==> r == Err::<
            TradeResult,
            TradeError,
        >(TradeError::InsufficientFunds(Currency(buy_total(shares_price) as i64))),
        user.cash_balance.0 - buy_total(shares_price) >= -OVERDRAFT_LIMIT ==> (r matches Ok(t)
            && buy_result(
            t,
            quantity,
            *instrument,
            *market,
            match existing_position {
                Some(p) => Some(*p),
                None => None,
            },
            *user,
            *system_user,
            shares_price,
        )),
{
    let fees = calc_fees(shares_price);
    let prices = OrderPrices { shares_price, fees, direction: OrderDirection::Buy };
    let total = prices.total();
    // To be generous, and to avoid fractional YPs lying around, a buyer may go one YP into
    // overdraft.
    let overdraft = user.cash_balance.sub(total);
    if overdraft.0 < -OVERDRAFT_LIMIT {
        return Err(TradeError::InsufficientFunds(total));
    }
    let order = CreateOrder {
        direction: OrderDirection::Buy,
        quantity,
        cost_basis: total,
        shares_price: prices.shares_price,
        fees: prices.fees,
        instrument_id: instrument.id,
        owner_id: user.id as i64,
    };
    let shares_memo = format_transfer_memo(TransferType::Buy, false, quantity, instrument, &market.row);
    let shares_transfer = create_system_debit(
        user,
        system_user,
        prices.shares_price,
        shares_memo.as_str(),
        TransferSource::Order,
    );
    let fees_memo = format_transfer_memo(TransferType::Buy, true, quantity, instrument, &market.row);
    let fees_transfer = create_transfer(
        user,
        &market.owner,
        prices.fees,
        fees_memo.as_str(),
        TransferSource::TradeFee,
    );
    let (held_shares, existing_cost_basis) = match existing_position {
        Some(p) => (p.quantity, p.cost_basis),
        None => (0i64, Currency(0)),
    };
    let position = CreatePosition {
        quantity: held_shares + quantity,
        cost_basis: existing_cost_basis.add(total),
        instrument_id: instrument.id,
        owner_id: user.id as i64,
    };
    let mut transfers: Vec<CreateTransfer> = Vec::new();
    transfers.push(shares_transfer);
    transfers.push(fees_transfer);
    Ok(TradeResult { order, transfers, position, prices, quantity })
}

/// The cost basis left in a position of `held` shares after selling `sold` of them: the
/// basis scaled by the share of the position kept, rounded to even. An empty position keeps
/// none.
pub open spec fn remaining_cost_basis(cost_basis: int, held: int, sold: int) -> int {
    if held > 0 {
        round_half_even(cost_basis * (held - sold), held)
    } else if held < 0 {
        round_half_even(cost_basis * (sold - held), -held)
    } else {
        0
    }
}

/// Whether the amounts a sale of `sold` shares from `p` computes fit in 64 bits.
pub open spec fn sale_fits(p: Position, sold: i64) -> bool {
    &&& fits_i64(p.quantity - sold)
    &&& fits_i64(sold - p.quantity)
    &&& fits_i64(remaining_cost_basis(p.cost_basis.0 as int, p.quantity as int, sold as int))
    &&& fits_i64(
        p.cost_basis.0 - remaining_cost_basis(p.cost_basis.0 as int, p.quantity as int, sold as int),
    )
    &&& p.quantity != i64::MIN
}

/// Whether `r` is what a sale of `quantity` shares from position `p` at `shares_price`
/// makes.
pub open spec fn sell_result(
    r: TradeResult,
    quantity: i64,
    instrument: Instrument,
    market: FullMarket,
    p: Position,
    user: DbUser,
    system_user: DbUser,
    shares_price: Currency,
) -> bool {
    let fees = fee_of(shares_price);
    let kept = remaining_cost_basis(p.cost_basis.0 as int, p.quantity as int, quantity as int);
    &&& r.order == CreateOrder {
        direction: OrderDirection::Sell,
        quantity,
        cost_basis: Currency((p.cost_basis.0 - kept) as i64),
        shares_price,
        fees,
        instrument_id: instrument.id,
        owner_id: user.id as i64,
    }
    &&& r.transfers@.len() == 2
    &&& transfer_is(
        r.transfers@[0],
        shares_price,
        system_user.id,
        user.id,
        memo_text(TransferType::Sell, false, quantity, instrument.name@, market.row.id),
        TransferSource::Order,
    )
    &&& transfer_is(
        r.transfers@[1],
        fees,
        user.id,
        market.owner.id,
        memo_text(TransferType::Sell, true, quantity, instrument.name@, market.row.id),
        TransferSource::TradeFee,
    )
    &&& r.position == CreatePosition {
        quantity: (p.quantity - quantity) as i64,
        cost_basis: Currency(kept as i64),
        instrument_id: instrument.id,
        owner_id: user.id as i64,
    }
    &&& r.prices == OrderPrices { shares_price, fees, direction: OrderDirection::Sell }
    &&& r.quantity == quantity
}

/// Sells `quantity` shares of `instrument` from `user`'s position at `shares_price`: the
/// system user pays the price and the user pays the fee to the market's owner. The order
/// carries the part of the position's cost basis that was sold. Refused when the user holds
/// fewer shares.
pub fn sell(
    quantity: i64,
    instrument: &Instrument,
    market: &FullMarket,
    existing_position: Option<&Position>,
    user: &DbUser,
    system_user: &DbUser,
    shares_price: Currency,
) -> (r: Result<TradeResult, TradeError>)
    requires
        match existing_position {
            Some(p) => quantity <= p.quantity ==> sale_fits(*p, quantity),
            None => true,
        },
    ensures
        match existing_position {
            None => r == Err::<TradeResult, TradeError>(TradeError::InsufficientShares),
            Some(p) => if p.quantity < quantity {
                r == Err::<TradeResult, TradeError>(TradeError::InsufficientShares)
            } else {
                r matches Ok(t) && sell_result(
                    t,
                    quantity,
                    *instrument,
                    *market,
                    *p,
                    *user,
                    *system_user,
                    shares_price,
                )
            },
        },
{
    let fees = calc_fees(shares_price);
    let prices = OrderPrices { shares_price, fees, direction: OrderDirection::Sell };
    let position = match existing_position {
        Some(position) => position,
        None => {
            return Err(TradeError::InsufficientShares);
        },
    };
    // Make sure there are enough shares to sell.
    if position.quantity < quantity {
        return Err(TradeError::InsufficientShares);
    }
    let new_cost_basis = if position.quantity > 0 {
        position.cost_basis.mul_fraction(position.quantity - quantity, position.quantity)
    } else if position.quantity < 0 {
        position.cost_basis.mul_fraction(quantity - position.quantity, -position.quantity)
    } else {
        Currency(0)
    };
    let order_cost_basis = position.cost_basis.sub(new_cost_basis);
    let order = CreateOrder {
        direction: OrderDirection::Sell,
        quantity,
        cost_basis: order_cost_basis,
        shares_price: prices.shares_price,
        fees: prices.fees,
        instrument_id: instrument.id,
        owner_id: user.id as i64,
    };
    let shares_memo = format_transfer_memo(TransferType::Sell, false, quantity, instrument, &market.row);
    let shares_transfer = create_system_credit(
        user,
        system_user,
        prices.shares_price,
        shares_memo.as_str(),
        TransferSource::Order,
    );
    let fees_memo = format_transfer_memo(TransferType::Sell, true, quantity, instrument, &market.row);
    let fees_transfer = create_transfer(
        user,
        &market.owner,
        prices.fees,
        fees_memo.as_str(),
        TransferSource::TradeFee,
    );
    let new_position = CreatePosition {
        quantity: position.quantity - quantity,
        cost_basis: new_cost_basis,
        instrument_id: instrument.id,
        owner_id: user.id as i64,
    };
    let mut transfers: Vec<CreateTransfer> = Vec::new();
    transfers.push(shares_transfer);
    transfers.push(fees_transfer);
    Ok(TradeResult { order, position: new_position, transfers, prices, quantity })
}

/// What resolving one position makes.
#[derive(Debug, Clone, PartialEq, Eq)]
pub struct ResolveResult {
    pub order: CreateOrder,
    pub transfers: Vec<CreateTransfer>,
    pub position: CreatePosition,
    pub shares_price: Currency,
    pub fees: Currency,
    pub cost_basis: Currency,
}

/// What closing out a position earned: the price less fees and cost basis.
pub open spec fn resolve_profit(r: ResolveResult) -> int {
    r.shares_price.0 - r.fees.0 - r.cost_basis.0
}

impl ResolveResult {
    /// What closing out the position earned.
    pub fn profit(&self) -> (r: Currency)
        requires
            fits_i64(self.shares_price.0 - self.fees.0),
            fits_i64(resolve_profit(*self)),
        ensures
            r.0 == resolve_profit(*self),
    {
        self.shares_price.sub(self.fees).sub(self.cost_basis)
    }
}

/// The price per share a resolved instrument pays: one YP for the winner, nothing for the
/// others.
pub open spec fn resolve_price(instrument_id: i64, winner_id: i64) -> int {
    if instrument_id == winner_id {
        1000
    } else {
        0
    }
}

/// Whether `r` is what resolving position `pw` of `market` with `winner` makes.
pub open spec fn resolve_entry(
    r: ResolveResult,
    market: FullMarket,
    winner_id: i64,
    pw: PositionWithUser,
    system_user: DbUser,
) -> bool {
    let p = pw.position;
    let instrument = find_instrument(market.instruments@, p.instrument_id)->Some_0.0;
    let shares_price = Currency((resolve_price(p.instrument_id, winner_id) * p.quantity) as i64);
    let fees = fee_of(shares_price);
    &&& r.order == CreateOrder {
        direction: OrderDirection::Sell,
        quantity: p.quantity,
        shares_price,
        fees,
        cost_basis: p.cost_basis,
        instrument_id: instrument.id,
        owner_id: pw.user.id as i64,
    }
    &&& r.shares_price == shares_price
    &&& r.fees == fees
    &&& r.cost_basis == p.cost_basis
    &&& r.position == CreatePosition {
        quantity: 0,
        cost_basis: Currency(0),
        instrument_id: p.instrument_id,
        owner_id: pw.user.id as i64,
    }
    &&& if p.instrument_id == winner_id {
        &&& r.transfers@.len() == 2
        &&& transfer_is(
            r.transfers@[0],
            shares_price,
            system_user.id,
            pw.user.id,
            memo_text(TransferType::Resolve, false, p.quantity, instrument.name@, market.row.id),
            TransferSource::Order,
        )
        &&& transfer_is(
            r.transfers@[1],
            fees,
            pw.user.id,
            market.owner.id,
            memo_text(TransferType::Resolve, true, p.quantity, instrument.name@, market.row.id),
            TransferSource::TradeFee,
        )
    } else {
        r.transfers@.len() == 0
    }
}

/// Resolves `market` with `winner`: every position is closed out, sold at one YP a share for
/// the winning instrument (the holder paying the fee to the market's owner) and at nothing
/// for the others. Fails on the first position whose instrument the market does not have.
pub fn resolve(
    market: &FullMarket,
    winner: &Instrument,
    positions: &Vec<PositionWithUser>,
    system_user: &DbUser,
) -> (r: Result<Vec<ResolveResult>, InstrumentNotFound>)
    requires
        forall|i: int|
            0 <= i < positions@.len() && (#[trigger] positions@[i]).position.instrument_id
                == winner.id ==> fits_i64(positions@[i].position.quantity * 1000),
    ensures
        match r {
            Ok(results) => {
                &&& results@.len() == positions@.len()
                &&& forall|i: int|
                    0 <= i < positions@.len() ==> find_instrument(
                        market.instruments@,
                        (#[trigger] positions@[i]).position.instrument_id,
                    ) is Some
                &&& forall|i: int|
                    0 <= i < positions@.len() ==> resolve_entry(
                        #[trigger] results@[i],
                        *market,
                        winner.id,
                        positions@[i],
                        *system_user,
                    )
            },
            Err(e) => exists|i: int|
                0 <= i < positions@.len() && find_instrument(
                    market.instruments@,
                    (#[trigger] positions@[i]).position.instrument_id,
                ) is None && e == (InstrumentNotFound {
                    instrument_id: positions@[i].position.instrument_id,
                    market_id: market.row.id,
                }),
        },
{
    let mut results: Vec<ResolveResult> = Vec::new();
    let mut k: usize = 0;
    while k < positions.len()
        invariant
            k <= positions@.len(),
            results@.len() == k,
            forall|i: int|
                0 <= i < positions@.len() && (#[trigger] positions@[i]).position.instrument_id
                    == winner.id ==> fits_i64(positions@[i].position.quantity * 1000),
            forall|i: int|
                0 <= i < k ==> find_instrument(
                    market.instruments@,
                    (#[trigger] positions@[i]).position.instrument_id,
                ) is Some,
            forall|i: int|
                0 <= i < k ==> resolve_entry(
                    #[trigger] results@[i],
                    *market,
                    winner.id,
                    positions@[i],
                    *system_user,
                ),
        decreases positions@.len() - k,
    {
        let p = &positions[k];
        let position = &p.position;
        let user = &p.user;
        let found = match market.get_instrument(position.instrument_id) {
            Ok(found) => found,
            Err(e) => {
                return Err(e);
            },
        };
        let instrument = &found.0;
        // The whole position is closed out.
        let quantity = position.quantity;
        let cost_basis = position.cost_basis;
        let is_winning_position = position.instrument_id == winner.id;
        let resolve_price = if is_winning_position {
            Currency(1000)
        } else {
            Currency(0)
        };
        let shares_price = resolve_price.mul_int(position.quantity);
        let fees = calc_fees(shares_price);
        let order = CreateOrder {
            direction: OrderDirection::Sell,
            quantity,
            shares_price,
            fees,
            cost_basis,
            instrument_id: instrument.id,
            owner_id: user.id as i64,
        };
        let mut transfers: Vec<CreateTransfer> = Vec::new();
        if is_winning_position {
            let shares_memo = format_transfer_memo(
                TransferType::Resolve,
                false,
                quantity,
                instrument,
                &market.row,
            );
            let shares_transfer = create_system_credit(
                user,
                system_user,
                shares_price,
                shares_memo.as_str(),
                TransferSource::Order,
            );
            let fees_memo = format_transfer_memo(
                TransferType::Resolve,
                true,
                quantity,
                instrument,
                &market.row,
            );
            let fees_transfer = create_transfer(
                user,
                &market.owner,
                fees,
                fees_memo.as_str(),
                TransferSource::TradeFee,
            );
            transfers.push(shares_transfer);
            transfers.push(fees_transfer);
        }
        // The position is closed out.
        let closed = CreatePosition {
            quantity: 0,
            cost_basis: Currency(0),
            instrument_id: position.instrument_id,
            owner_id: user.id as i64,
        };
        results.push(
            ResolveResult { order, transfers, position: closed, shares_price, fees, cost_basis },
        );
        k = k + 1;
    }
    Ok(results)
}

/// A buy's two transfers, both paid by the buyer, add up to the order's total: the share
/// price to the system user and the fee to the market's owner.
pub proof fn lemma_buy_pays_total(
    r: TradeResult,
    quantity: i64,
    instrument: Instrument,
    market: FullMarket,
    existing_position: Option<Position>,
    user: DbUser,
    system_user: DbUser,
    shares_price: Currency,
)
    requires
        buy_result(r, quantity, instrument, market, existing_position, user, system_user, shares_price),
    ensures
        r.transfers@[0].sender == user.id,
        r.transfers@[1].sender == user.id,
        r.transfers@[0].amount.0 + r.transfers@[1].amount.0 == order_total(r.prices),
        order_total(r.prices) == buy_total(shares_price),
{
}

/// What a sale moves, taken together, is the order's total: the seller receives the share
/// price from the system user and pays the fee to the market's owner.
pub proof fn lemma_sell_receives_total(
    r: TradeResult,
    quantity: i64,
    instrument: Instrument,
    market: FullMarket,
    p: Position,
    user: DbUser,
    system_user: DbUser,
    shares_price: Currency,
)
    requires
        sell_result(r, quantity, instrument, market, p, user, system_user, shares_price),
    ensures
        r.transfers@[0].receiver == user.id,
        r.transfers@[1].sender == user.id,
        r.transfers@[0].amount.0 - r.transfers@[1].amount.0 == order_total(r.prices),
{
}

/// A sale splits the position's cost basis: the part sold goes with the order, the rest stays
/// with the position, and nothing is lost or made up.
pub proof fn lemma_sale_splits_cost_basis(
    r: TradeResult,
    quantity: i64,
    instrument: Instrument,
    market: FullMarket,
    p: Position,
    user: DbUser,
    system_user: DbUser,
    shares_price: Currency,
)
    requires
        sell_result(r, quantity, instrument, market, p, user, system_user, shares_price),
        sale_fits(p, quantity),
    ensures
        r.order.cost_basis.0 + r.position.cost_basis.0 == p.cost_basis.0,
        r.position.quantity + quantity == p.quantity,
{
}

/// Selling every share of a position closes it: no shares and no cost basis are left, and the
/// order carries the whole cost basis.
pub proof fn lemma_sell_all_closes(
    r: TradeResult,
    instrument: Instrument,
    market: FullMarket,
    p: Position,
    user: DbUser,
    system_user: DbUser,
    shares_price: Currency,
)
    requires
        sell_result(r, p.quantity, instrument, market, p, user, system_user, shares_price),
        sale_fits(p, p.quantity),
    ensures
        r.position.quantity == 0,
        r.position.cost_basis.0 == 0,
        r.order.cost_basis == p.cost_basis,
{
    assert(p.cost_basis.0 * (p.quantity - p.quantity) == 0);
    assert(p.cost_basis.0 * (p.quantity - p.quantity) == 0);
}

/// The fee on a price that is not negative is itself not negative and not above the price,
/// and it is two percent of the price to within half a thousandth.
pub proof fn lemma_fee_bounds(shares_price: Currency)
    requires
        shares_price.0 >= 0,
    ensures
        0 <= fee_of(shares_price).0 <= shares_price.0,
        -25 <= fee_of(shares_price).0 * 50 - shares_price.0 <= 25,
{
    let p = shares_price.0 * 2;
    lemma_round_half_even_magnitude(p, 100);
    let q = p / 100;
    let rem = p % 100;
    assert(p == q * 100 + rem);
    assert(0 <= rem < 100);
}

/// What resolving a position earns its holder: one YP a share less the fee for the winning
/// instrument, nothing for the others, and in both cases less the position's cost basis.
pub proof fn lemma_resolve_profit(
    r: ResolveResult,
    market: FullMarket,
    winner_id: i64,
    pw: PositionWithUser,
    system_user: DbUser,
)
    requires
        resolve_entry(r, market, winner_id, pw, system_user),
        fits_i64(resolve_price(pw.position.instrument_id, winner_id) * pw.position.quantity),
    ensures
        pw.position.instrument_id == winner_id ==> resolve_profit(r) == 1000 * pw.position.quantity
            - fee_of(Currency((1000 * pw.position.quantity) as i64)).0 - pw.position.cost_basis.0,
        pw.position.instrument_id != winner_id ==> resolve_profit(r) == -pw.position.cost_basis.0,
        r.position.quantity == 0,
{
    if pw.position.instrument_id != winner_id {
        assert(fee_of(Currency(0)).0 == 0);
    }
}

/// Whether every amount a buy of `quantity` shares at `shares_price` works out fits in 64 bits:
/// its total, the buyer's cash after it, and the position it makes.
pub fn buy_fits(
    user: &DbUser,
    existing_position: Option<&Position>,
    quantity: i64,
    shares_price: Currency,
) -> (r: bool)
    ensures
        r == (fits_i64(buy_total(shares_price)) && fits_i64(user.cash_balance.0 - buy_total(shares_price))
            && (existing_position matches Some(p) ==> fits_i64(p.quantity + quantity) && fits_i64(
            p.cost_basis.0 + buy_total(shares_price),
        ))),
{
    let fees = calc_fees(shares_price);
    let total: i128 = shares_price.0 as i128 + fees.0 as i128;
    if total < i64::MIN as i128 || total > i64::MAX as i128 {
        return false;
    }
    let after: i128 = user.cash_balance.0 as i128 - total;
    if after < i64::MIN as i128 || after > i64::MAX as i128 {
        return false;
    }
    match existing_position {
        Some(p) => {
            let held: i128 = p.quantity as i128 + quantity as i128;
            let basis: i128 = p.cost_basis.0 as i128 + total;
            i64::MIN as i128 <= held && held <= i64::MAX as i128 && i64::MIN as i128 <= basis && basis
                <= i64::MAX as i128
        },
        None => true,
    }
}

/// Whether every amount a sale of `quantity` shares from the position works out fits in 64
/// bits (nothing needs to when the sale is refused).
pub fn sale_computable(existing_position: Option<&Position>, quantity: i64) -> (r: bool)
    ensures
        r == match existing_position {
            Some(p) => quantity <= p.quantity ==> sale_fits(*p, quantity),
            None => true,
        },
{
    let p = match existing_position {
        Some(p) => p,
        None => {
            return true;
        },
    };
    if p.quantity < quantity {
        return true;
    }
    if p.quantity == i64::MIN {
        return false;
    }
    let left: i128 = p.quantity as i128 - quantity as i128;
    if left < i64::MIN as i128 || left > i64::MAX as i128 {
        return false;
    }
    let sold: i128 = quantity as i128 - p.quantity as i128;
    if sold < i64::MIN as i128 || sold > i64::MAX as i128 {
        return false;
    }
    let kept = if p.quantity > 0 {
        p.cost_basis.checked_mul_fraction(p.quantity - quantity, p.quantity)
    } else if p.quantity < 0 {
        p.cost_basis.checked_mul_fraction(quantity - p.quantity, -p.quantity)
    } else {
        Some(Currency(0))
    };
    match kept {
        Some(k) => {
            let order_basis: i128 = p.cost_basis.0 as i128 - k.0 as i128;
            i64::MIN as i128 <= order_basis && order_basis <= i64::MAX as i128
        },
        None => false,
    }
}

/// Whether resolving with this winner keeps every payout within 64 bits.
pub fn resolve_computable(positions: &Vec<PositionWithUser>, winner_id: i64) -> (r: bool)
    ensures
        r == forall|i: int|
            0 <= i < positions@.len() && (#[trigger] positions@[i]).position.instrument_id
                == winner_id ==> fits_i64(positions@[i].position.quantity * 1000),
{
    let mut i: usize = 0;
    while i < positions.len()
        invariant
            i <= positions@.len(),
            forall|k: int|
                0 <= k < i && (#[trigger] positions@[k]).position.instrument_id == winner_id
                    ==> fits_i64(positions@[k].position.quantity * 1000),
        decreases positions@.len() - i,
    {
        let p = &positions[i].position;
        if p.instrument_id == winner_id {
            let paid: i128 = p.quantity as i128 * 1000;
            if paid < i64::MIN as i128 || paid > i64::MAX as i128 {
                assert(positions@[i as int].position.instrument_id == winner_id);
                return false;
            }
        }
        i = i + 1;
    }
    true
}

} // verus!
