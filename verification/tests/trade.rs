use catshi::currency::Currency;
use catshi::store::{
    CreateOrder, CreatePosition, CreateTransfer, DbUser, FullMarket, Instrument,
    InstrumentState, InstrumentWithShares, Market, MarketState, OrderDirection, Position,
    PositionWithUser, TransferSource,
};
use catshi::trade::{
    buy, calc_fees, format_transfer_memo, resolve, sell, OrderPrices, TradeError, TransferType,
};

const MARKET_B: f32 = 70.0f32;

// The market maker's floating-point pricing, as the application computes it.
fn cost(share_counts: impl IntoIterator<Item = i64>, b: f32) -> f32 {
    let summed: f32 = share_counts.into_iter().map(|s| (s as f32 / b).exp()).sum();
    b * summed.ln()
}

fn from_instrument_price(price: f32) -> Currency {
    Currency::from((price * 1000f32).round_ties_even().trunc() as i64)
}

fn calc_cost_delta(quantity: i64, instrument_id: i64, shares: &[InstrumentWithShares], b: f32) -> Currency {
    let pre_cost = cost(shares.iter().map(|(_, qty)| *qty), b);
    let post_cost = cost(
        shares.iter().map(|(instrument, count)| {
            if instrument.id == instrument_id {
                count + quantity
            } else {
                *count
            }
        }),
        b,
    );
    from_instrument_price(post_cost - pre_cost)
}

fn calc_buy_prices(quantity: i64, instrument_id: i64, shares: &[InstrumentWithShares], b: f32) -> OrderPrices {
    let shares_price = calc_cost_delta(quantity, instrument_id, shares, b);
    OrderPrices {
        shares_price,
        fees: calc_fees(shares_price),
        direction: OrderDirection::Buy,
    }
}

fn calc_sell_prices(quantity: i64, instrument_id: i64, shares: &[InstrumentWithShares], b: f32) -> OrderPrices {
    let shares_price = calc_cost_delta(-quantity, instrument_id, shares, b).neg();
    OrderPrices {
        shares_price,
        fees: calc_fees(shares_price),
        direction: OrderDirection::Sell,
    }
}

fn times_f32(c: Currency, r: f32) -> Currency {
    Currency::from((c.0 as f32 * r).round_ties_even() as i64)
}

fn test_trade_data() -> (FullMarket, DbUser, DbUser) {
    let market_owner = DbUser {
        id: 0,
        discord_id: "000".to_string(),
        name: "market_owner".to_string(),
        cash_balance: Currency::from(0),
    };

    let market = FullMarket {
        row: Market {
            id: 0,
            description: "test".to_string(),
            state: MarketState::Open,
            owner_id: market_owner.id as i64,
            message_id: Some("0".to_string()),
            channel_id: Some("0".to_string()),
            thread_id: None,
            details_msg_id: None,
        },
        instruments: vec![
            (
                Instrument {
                    id: 0,
                    name: "yes".to_string(),
                    state: InstrumentState::Open,
                    market_id: 0,
                },
                0,
            ),
            (
                Instrument {
                    id: 1,
                    name: "no".to_string(),
                    state: InstrumentState::Open,
                    market_id: 0,
                },
                0,
            ),
        ],
        owner: market_owner,
    };

    let system_user = DbUser {
        id: 1,
        discord_id: "0".to_string(),
        name: "system_user".to_string(),
        cash_balance: Currency::from(0),
    };

    let user = DbUser {
        id: 2,
        discord_id: "222".to_string(),
        name: "user".to_string(),
        cash_balance: Currency::new_yp(20),
    };

    (market, system_user, user)
}

#[test]
fn test_buy_no_position() {
    let (market, system_user, user) = test_trade_data();
    let instrument = &market.instruments[0].0;

    let qty = 5;
    let prices = calc_buy_prices(qty, instrument.id, &market.instruments, MARKET_B);

    let result = buy(qty, instrument, &market, None, &user, &system_user, prices.shares_price)
        .expect("buy should succeed");

    assert_eq!(result.prices, prices);

    let expected_order = CreateOrder {
        direction: OrderDirection::Buy,
        quantity: qty,
        shares_price: prices.shares_price,
        fees: prices.fees,
        cost_basis: prices.shares_price.add(prices.fees),
        instrument_id: instrument.id,
        owner_id: user.id as i64,
    };
    assert_eq!(result.order, expected_order);

    let expected_position = CreatePosition {
        quantity: qty,
        cost_basis: prices.shares_price.add(prices.fees),
        instrument_id: instrument.id,
        owner_id: user.id as i64,
    };
    assert_eq!(result.position, expected_position);

    assert_eq!(result.quantity, qty);
}

#[test]
fn test_buy_existing_position() {
    let (market, system_user, user) = test_trade_data();
    let instrument = &market.instruments[0].0;

    let existing_position = Position {
        id: 0,
        quantity: 10,
        cost_basis: Currency::new_yp(2),
        instrument_id: instrument.id,
        owner_id: user.id as i64,
    };

    let qty = 5;
    let prices = calc_buy_prices(qty, instrument.id, &market.instruments, MARKET_B);

    let result = buy(
        qty,
        instrument,
        &market,
        Some(&existing_position),
        &user,
        &system_user,
        prices.shares_price,
    )
    .expect("buy should succeed");

    assert_eq!(result.prices, prices);

    let expected_order = CreateOrder {
        direction: OrderDirection::Buy,
        quantity: qty,
        shares_price: prices.shares_price,
        fees: prices.fees,
        cost_basis: prices.shares_price.add(prices.fees),
        instrument_id: instrument.id,
        owner_id: user.id as i64,
    };
    assert_eq!(result.order, expected_order);

    let expected_position = CreatePosition {
        quantity: qty + existing_position.quantity,
        cost_basis: existing_position.cost_basis.add(prices.shares_price).add(prices.fees),
        instrument_id: instrument.id,
        owner_id: user.id as i64,
    };
    assert_eq!(result.position, expected_position);

    assert_eq!(result.quantity, qty);
}

#[test]
fn test_buy_transfers() {
    let (market, system_user, user) = test_trade_data();
    let instrument = &market.instruments[0].0;

    let qty = 5;
    let prices = calc_buy_prices(qty, instrument.id, &market.instruments, MARKET_B);

    let result = buy(qty, instrument, &market, None, &user, &system_user, prices.shares_price)
        .expect("buy should succeed");

    let shares_transfer = CreateTransfer {
        amount: prices.shares_price,
        sender: user.id,
        receiver: system_user.id,
        memo: format_transfer_memo(TransferType::Buy, false, qty, instrument, &market.row),
        source: TransferSource::Order,
    };
    assert!(result.transfers.contains(&shares_transfer));

    let fees_transfer = CreateTransfer {
        amount: prices.fees,
        sender: user.id,
        receiver: market.owner.id,
        memo: format_transfer_memo(TransferType::Buy, true, qty, instrument, &market.row),
        source: TransferSource::TradeFee,
    };
    assert!(result.transfers.contains(&fees_transfer));
}

#[test]
fn test_buy_insufficient_funds() {
    let (market, system_user, mut user) = test_trade_data();
    let instrument = &market.instruments[0].0;

    let qty = 5;
    let prices = calc_buy_prices(qty, instrument.id, &market.instruments, MARKET_B);

    user.cash_balance = Currency::from(0);

    let result = buy(qty, instrument, &market, None, &user, &system_user, prices.shares_price);

    assert_eq!(
        result,
        Err(TradeError::InsufficientFunds(
            prices.shares_price.add(prices.fees)
        ))
    );
}

#[test]
fn test_buy_insufficient_funds_overdraft() {
    let (market, system_user, mut user) = test_trade_data();
    let instrument = &market.instruments[0].0;

    let qty = 5;
    let prices = calc_buy_prices(qty, instrument.id, &market.instruments, MARKET_B);

    // 0.5yp short of the price: allowed, since up to 1.0yp of overdraft is.
    user.cash_balance = prices.total().sub(Currency::from(500));

    let result = buy(qty, instrument, &market, None, &user, &system_user, prices.shares_price);

    result.expect("buy with overdraft should succeed");
}

#[test]
fn test_sell_existing_position() {
    let (market, system_user, user) = test_trade_data();
    let instrument = &market.instruments[0].0;

    let existing_position = Position {
        id: 0,
        quantity: 10,
        cost_basis: Currency::new_yp(2),
        instrument_id: instrument.id,
        owner_id: user.id as i64,
    };

    let qty = 5;
    let prices = calc_sell_prices(qty, instrument.id, &market.instruments, MARKET_B);

    let result = sell(
        qty,
        instrument,
        &market,
        Some(&existing_position),
        &user,
        &system_user,
        prices.shares_price,
    )
    .expect("sell should succeed");

    assert_eq!(result.prices, prices);

    // Selling 5 shares of 10: half the cost basis goes to the order, half stays.
    let expected_order = CreateOrder {
        direction: OrderDirection::Sell,
        quantity: qty,
        shares_price: prices.shares_price,
        fees: prices.fees,
        cost_basis: Currency::new_yp(1),
        instrument_id: instrument.id,
        owner_id: user.id as i64,
    };
    assert_eq!(result.order, expected_order);

    let expected_position = CreatePosition {
        quantity: 5,
        cost_basis: Currency::new_yp(1),
        instrument_id: instrument.id,
        owner_id: user.id as i64,
    };
    assert_eq!(result.position, expected_position);

    assert_eq!(result.quantity, qty);
}

#[test]
fn test_sellout_position() {
    let (market, system_user, user) = test_trade_data();
    let instrument = &market.instruments[0].0;

    let existing_position = Position {
        id: 0,
        quantity: 10,
        cost_basis: Currency::new_yp(2),
        instrument_id: instrument.id,
        owner_id: user.id as i64,
    };

    let qty = 10;
    let prices = calc_sell_prices(qty, instrument.id, &market.instruments, MARKET_B);

    let result = sell(
        qty,
        instrument,
        &market,
        Some(&existing_position),
        &user,
        &system_user,
        prices.shares_price,
    )
    .expect("sell should succeed");

    assert_eq!(result.prices, prices);

    let expected_order = CreateOrder {
        direction: OrderDirection::Sell,
        quantity: qty,
        shares_price: prices.shares_price,
        fees: prices.fees,
        cost_basis: Currency::new_yp(2),
        instrument_id: instrument.id,
        owner_id: user.id as i64,
    };
    assert_eq!(result.order, expected_order);

    let expected_position = CreatePosition {
        quantity: 0,
        cost_basis: Currency::new_yp(0),
        instrument_id: instrument.id,
        owner_id: user.id as i64,
    };
    assert_eq!(result.position, expected_position);

    assert_eq!(result.quantity, qty);
}

#[test]
fn test_sell_transfers() {
    let (market, system_user, user) = test_trade_data();
    let instrument = &market.instruments[0].0;

    let existing_position = Position {
        id: 0,
        quantity: 10,
        cost_basis: Currency::new_yp(2),
        instrument_id: instrument.id,
        owner_id: user.id as i64,
    };

    let qty = 5;
    let prices = calc_sell_prices(qty, instrument.id, &market.instruments, MARKET_B);

    let result = sell(
        qty,
        instrument,
        &market,
        Some(&existing_position),
        &user,
        &system_user,
        prices.shares_price,
    )
    .expect("buy should succeed");

    let shares_transfer = CreateTransfer {
        amount: prices.shares_price,
        sender: system_user.id,
        receiver: user.id,
        memo: format_transfer_memo(TransferType::Sell, false, qty, instrument, &market.row),
        source: TransferSource::Order,
    };
    assert!(result.transfers.contains(&shares_transfer));

    let fees_transfer = CreateTransfer {
        amount: prices.fees,
        sender: user.id,
        receiver: market.owner.id,
        memo: format_transfer_memo(TransferType::Sell, true, qty, instrument, &market.row),
        source: TransferSource::TradeFee,
    };
    assert!(result.transfers.contains(&fees_transfer));
}

#[test]
fn test_insufficient_shares_existing_position() {
    let (market, system_user, user) = test_trade_data();
    let instrument = &market.instruments[0].0;

    let existing_position = Position {
        id: 0,
        quantity: 10,
        cost_basis: Currency::new_yp(2),
        instrument_id: instrument.id,
        owner_id: user.id as i64,
    };

    let qty = 15;
    let prices = calc_sell_prices(qty, instrument.id, &market.instruments, MARKET_B);

    let result = sell(
        qty,
        instrument,
        &market,
        Some(&existing_position),
        &user,
        &system_user,
        prices.shares_price,
    );

    assert_eq!(result, Err(TradeError::InsufficientShares));
}

#[test]
fn test_insufficient_shares_no_position() {
    let (market, system_user, user) = test_trade_data();
    let instrument = &market.instruments[0].0;

    let qty = 15;
    let prices = calc_sell_prices(qty, instrument.id, &market.instruments, MARKET_B);

    let result = sell(qty, instrument, &market, None, &user, &system_user, prices.shares_price);

    assert_eq!(result, Err(TradeError::InsufficientShares));
}

#[test]
fn test_resolve_no_positions() {
    let (market, system_user, _user) = test_trade_data();
    let instrument = &market.instruments[0].0;

    let result = resolve(&market, instrument, &Vec::new(), &system_user)
        .expect("resolve should succeed");

    assert!(result.len() == 0);
}

#[test]
fn test_resolve_winning_position() {
    let (market, system_user, user) = test_trade_data();
    let instrument = &market.instruments[0].0;

    let positions = vec![PositionWithUser {
        position: Position {
            id: 0,
            quantity: 10,
            cost_basis: Currency::new_yp(2),
            instrument_id: instrument.id,
            owner_id: user.id as i64,
        },
        user: user.clone(),
    }];

    let result =
        resolve(&market, instrument, &positions, &system_user).expect("resolve should succeed");

    assert!(result.len() == 1);
    let result = &result[0];

    let expected_order = CreateOrder {
        direction: OrderDirection::Sell,
        quantity: 10,
        shares_price: Currency::new_yp(10),
        fees: times_f32(Currency::new_yp(10), 0.02),
        cost_basis: Currency::new_yp(2),
        instrument_id: instrument.id,
        owner_id: user.id as i64,
    };
    assert_eq!(result.order, expected_order);

    let shares_transfer = CreateTransfer {
        amount: Currency::new_yp(10),
        sender: system_user.id,
        receiver: user.id,
        memo: format_transfer_memo(TransferType::Resolve, false, 10, instrument, &market.row),
        source: TransferSource::Order,
    };
    assert!(result.transfers.contains(&shares_transfer));

    let fees_transfer = CreateTransfer {
        amount: times_f32(Currency::new_yp(10), 0.02),
        sender: user.id,
        receiver: market.owner.id,
        memo: format_transfer_memo(TransferType::Resolve, true, 10, instrument, &market.row),
        source: TransferSource::TradeFee,
    };
    assert!(result.transfers.contains(&fees_transfer));
}

#[test]
fn test_resolve_losing_position() {
    let (market, system_user, user) = test_trade_data();
    let winner = &market.instruments[0].0;
    let loser = &market.instruments[1].0;

    let positions = vec![PositionWithUser {
        position: Position {
            id: 0,
            quantity: 10,
            cost_basis: Currency::new_yp(2),
            instrument_id: loser.id,
            owner_id: user.id as i64,
        },
        user: user.clone(),
    }];

    let result =
        resolve(&market, winner, &positions, &system_user).expect("resolve should succeed");

    assert!(result.len() == 1);
    let result = &result[0];

    let expected_order = CreateOrder {
        direction: OrderDirection::Sell,
        quantity: 10,
        shares_price: Currency::new_yp(0),
        fees: Currency::new_yp(0),
        cost_basis: Currency::new_yp(2),
        instrument_id: loser.id,
        owner_id: user.id as i64,
    };
    assert_eq!(result.order, expected_order);
    assert_eq!(result.transfers.len(), 0);
}

#[test]
fn test_resolve_multi_positions() {
    let (market, system_user, user) = test_trade_data();
    let winner = &market.instruments[0].0;
    let loser = &market.instruments[1].0;

    let other_user = DbUser {
        id: 3,
        discord_id: "333".to_string(),
        name: "other_user".to_string(),
        cash_balance: Currency::new_yp(2),
    };

    let positions = vec![
        PositionWithUser {
            position: Position {
                id: 0,
                quantity: 10,
                cost_basis: Currency::new_yp(2),
                instrument_id: winner.id,
                owner_id: user.id as i64,
            },
            user: user.clone(),
        },
        PositionWithUser {
            position: Position {
                id: 0,
                quantity: 10,
                cost_basis: Currency::new_yp(2),
                instrument_id: loser.id,
                owner_id: user.id as i64,
            },
            user: user.clone(),
        },
        PositionWithUser {
            position: Position {
                id: 0,
                quantity: 10,
                cost_basis: Currency::new_yp(2),
                instrument_id: winner.id,
                owner_id: other_user.id as i64,
            },
            user: other_user.clone(),
        },
    ];

    let results =
        resolve(&market, winner, &positions, &system_user).expect("resolve should succeed");

    assert!(results.len() == 3);

    // First position
    let result = &results[0];
    let expected_order = CreateOrder {
        direction: OrderDirection::Sell,
        quantity: 10,
        shares_price: Currency::new_yp(10),
        fees: times_f32(Currency::new_yp(10), 0.02),
        cost_basis: Currency::new_yp(2),
        instrument_id: winner.id,
        owner_id: user.id as i64,
    };
    assert_eq!(result.order, expected_order);

    let shares_transfer = CreateTransfer {
        amount: Currency::new_yp(10),
        sender: system_user.id,
        receiver: user.id,
        memo: format_transfer_memo(TransferType::Resolve, false, 10, winner, &market.row),
        source: TransferSource::Order,
    };
    assert!(result.transfers.contains(&shares_transfer));

    let fees_transfer = CreateTransfer {
        amount: times_f32(Currency::new_yp(10), 0.02),
        sender: user.id,
        receiver: market.owner.id,
        memo: format_transfer_memo(TransferType::Resolve, true, 10, winner, &market.row),
        source: TransferSource::TradeFee,
    };
    assert!(result.transfers.contains(&fees_transfer));

    // Second position
    let result = &results[1];
    let expected_order = CreateOrder {
        direction: OrderDirection::Sell,
        quantity: 10,
        shares_price: Currency::new_yp(0),
        fees: Currency::new_yp(0),
        cost_basis: Currency::new_yp(2),
        instrument_id: loser.id,
        owner_id: user.id as i64,
    };
    assert_eq!(result.order, expected_order);
    assert_eq!(result.transfers.len(), 0);

    // Third position
    let result = &results[2];
    let expected_order = CreateOrder {
        direction: OrderDirection::Sell,
        quantity: 10,
        shares_price: Currency::new_yp(10),
        fees: times_f32(Currency::new_yp(10), 0.02),
        cost_basis: Currency::new_yp(2),
        instrument_id: winner.id,
        owner_id: other_user.id as i64,
    };
    assert_eq!(result.order, expected_order);

    let shares_transfer = CreateTransfer {
        amount: Currency::new_yp(10),
        sender: system_user.id,
        receiver: other_user.id,
        memo: format_transfer_memo(TransferType::Resolve, false, 10, winner, &market.row),
        source: TransferSource::Order,
    };
    assert!(result.transfers.contains(&shares_transfer));

    let fees_transfer = CreateTransfer {
        amount: times_f32(Currency::new_yp(10), 0.02),
        sender: other_user.id,
        receiver: market.owner.id,
        memo: format_transfer_memo(TransferType::Resolve, true, 10, winner, &market.row),
        source: TransferSource::TradeFee,
    };
    assert!(result.transfers.contains(&fees_transfer));
}

// Further cases.

#[test]
fn test_transfer_memo_text() {
    let (market, _system_user, _user) = test_trade_data();
    let instrument = &market.instruments[0].0;
    assert_eq!(
        format_transfer_memo(TransferType::Buy, true, 5, instrument, &market.row),
        "BUY FEES 5 shares yes (market #0000)"
    );
    assert_eq!(
        format_transfer_memo(TransferType::Sell, false, -3, instrument, &market.row),
        "SELL -3 shares yes (market #0000)"
    );
}

#[test]
fn test_fee_is_two_percent() {
    assert_eq!(calc_fees(Currency::from(1000)), Currency::from(20));
    assert_eq!(calc_fees(Currency::from(75)), Currency::from(2));
    let prices = OrderPrices {
        shares_price: Currency::from(1000),
        fees: Currency::from(20),
        direction: OrderDirection::Sell,
    };
    assert_eq!(prices.total(), Currency::from(980));
}

#[test]
fn test_partial_sell_rounds_cost_basis() {
    let (market, system_user, user) = test_trade_data();
    let instrument = &market.instruments[0].0;
    let existing_position = Position {
        id: 0,
        quantity: 3,
        cost_basis: Currency::from(1000),
        instrument_id: instrument.id,
        owner_id: user.id as i64,
    };
    let result = sell(1, instrument, &market, Some(&existing_position), &user, &system_user, Currency::from(300))
        .expect("sell should succeed");
    // Two thirds of 1.000yp stay with the position.
    assert_eq!(result.position.cost_basis, Currency::from(667));
    assert_eq!(result.order.cost_basis, Currency::from(333));
}

#[test]
fn test_resolve_unknown_instrument_fails() {
    let (market, system_user, user) = test_trade_data();
    let winner = &market.instruments[0].0;
    let positions = vec![PositionWithUser {
        position: Position {
            id: 0,
            quantity: 1,
            cost_basis: Currency::from(1),
            instrument_id: 9,
            owner_id: user.id as i64,
        },
        user: user.clone(),
    }];
    let err = resolve(&market, winner, &positions, &system_user).expect_err("unknown instrument");
    assert_eq!(err.instrument_id, 9);
    assert_eq!(err.market_id, 0);
}
