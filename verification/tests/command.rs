use catshi::blackjack::ActResult;
use catshi::command::{
    can_tip, check_bet, check_market_owner, opening_transfers, owns_table, plan_user_transfer,
    resolve_profit_rows, resolved_message, resolved_states, settle_action, tip_transfer,
    trade_error_message, trade_success_message, transfer_confirmation, unaffordable_raise_message,
    BetRefusal, NotMarketOwner, TransferRefusal,
};
use catshi::currency::Currency;
use catshi::interaction::TradeAction;
use catshi::store::{
    BlackjackState, CreateOrder, CreatePosition, DbBlackjack, DbUser, FullMarket, Instrument,
    InstrumentState, Market, MarketState, OrderDirection, Position, PositionWithUser,
    TransferSource,
};
use catshi::trade::{OrderPrices, ResolveResult, TradeError, TradeResult};

fn user(id: i32, name: &str, cash: i64) -> DbUser {
    DbUser { id, discord_id: format!("d{id}"), name: name.to_string(), cash_balance: Currency::from(cash) }
}

#[test]
fn user_transfers() {
    let al = user(1, "al", 5_000);
    let bo = user(2, "bo", 0);
    let t = plan_user_transfer(&al, Some(&bo), Currency::from(2_000), None).ok().unwrap();
    assert_eq!(t.amount, Currency::from(2_000));
    assert_eq!((t.sender, t.receiver), (1, 2));
    assert_eq!(t.memo, "User initiated transfer");
    assert_eq!(t.source, TransferSource::UserInitiated);
    let t = plan_user_transfer(&al, Some(&bo), Currency::from(5_000), Some("rent")).ok().unwrap();
    assert_eq!(t.memo, "rent");

    assert_eq!(
        plan_user_transfer(&al, Some(&bo), Currency::from(-1), None).err(),
        Some(TransferRefusal::NegativeAmount)
    );
    assert_eq!(
        plan_user_transfer(&al, None, Currency::from(1), None).err(),
        Some(TransferRefusal::UnknownRecipient)
    );
    assert_eq!(
        plan_user_transfer(&al, Some(&bo), Currency::from(5_001), None).err(),
        Some(TransferRefusal::InsufficientFunds)
    );
    assert_eq!(
        TransferRefusal::InsufficientFunds.message(Currency::from(5_001), Currency::from(5_000)),
        "You do not have enough yp to transfer 5.001yp. Your balance is 5.000yp."
    );
    assert_eq!(transfer_confirmation(Currency::from(2_000), &bo), "Transferred 2.000yp to bo");
}

#[test]
fn tips() {
    assert!(can_tip(&user(1, "al", 1_000)));
    assert!(!can_tip(&user(1, "al", 999)));
    let t = tip_transfer(&user(1, "al", 1_000), &user(2, "bo", 0));
    assert_eq!(t.amount, Currency::from(1_000));
    assert_eq!((t.sender, t.receiver), (1, 2));
    assert_eq!(t.memo, "Tip for message");
    assert_eq!(t.source, TransferSource::MessageTip);
}

#[test]
fn bets() {
    let al = user(1, "al", 3_000);
    assert_eq!(check_bet(&al, Currency::from(3_000)), Ok(()));
    assert_eq!(check_bet(&al, Currency::from(-5)), Err(BetRefusal::Negative));
    assert_eq!(check_bet(&al, Currency::from(3_001)), Err(BetRefusal::InsufficientFunds));
    assert_eq!(
        BetRefusal::InsufficientFunds.message(Currency::from(3_000), Currency::from(3_001)),
        "You do not have enough yp (3.000yp) to cover your bet (3.001yp). Please kindly leave the casino."
    );
    let system = user(9, "house", 0);
    let opening = opening_transfers(&al, &system, Currency::from(1_000), Some(Currency::from(2_500)));
    assert_eq!(opening.len(), 2);
    assert_eq!(opening[0].memo, "Blackjack: initial bet");
    assert_eq!((opening[0].sender, opening[0].receiver), (1, 9));
    assert_eq!(opening[1].amount, Currency::from(2_500));
    assert_eq!((opening[1].sender, opening[1].receiver), (9, 1));
    assert_eq!(opening_transfers(&al, &system, Currency::from(1_000), None).len(), 1);
}

#[test]
fn table_actions() {
    let al = user(1, "al", 1_000);
    let system = user(9, "house", 0);
    let db = DbBlackjack {
        id: 1,
        dealer: "K 5".to_string(),
        player: "9 7".to_string(),
        state: BlackjackState::Betting,
        channel_id: "1".to_string(),
        message_id: "2".to_string(),
        owner_id: 1,
        staked: Currency::from(1_000),
    };
    assert!(owns_table(&db, &al));
    assert!(!owns_table(&db, &system));
    let double = ActResult {
        next_state: BlackjackState::Betting,
        bet_increase: Some(Currency::from(1_500)),
        payout: None,
    };
    assert_eq!(settle_action(&double, &al, &system).err(), Some(Currency::from(1_500)));
    let win = ActResult { next_state: BlackjackState::Closed, bet_increase: None, payout: Some(Currency::from(2_000)) };
    let t = settle_action(&win, &al, &system).ok().unwrap().unwrap();
    assert_eq!((t.sender, t.receiver, t.amount), (9, 1, Currency::from(2_000)));
    assert_eq!(
        unaffordable_raise_message(Currency::from(1_000), Currency::from(1_500)),
        "You have 1.000yp and cannot afford to bet an additional 1.500yp"
    );
}

fn trade_result(direction: OrderDirection, quantity: i64, price: i64, fees: i64) -> TradeResult {
    TradeResult {
        order: CreateOrder {
            direction,
            quantity,
            shares_price: Currency::from(price),
            fees: Currency::from(fees),
            cost_basis: Currency::from(0),
            instrument_id: 1,
            owner_id: 1,
        },
        transfers: vec![],
        position: CreatePosition { quantity, cost_basis: Currency::from(0), instrument_id: 1, owner_id: 1 },
        prices: OrderPrices { shares_price: Currency::from(price), fees: Currency::from(fees), direction },
        quantity,
    }
}

#[test]
fn trade_messages() {
    let bought = trade_result(OrderDirection::Buy, 3, 1_500, 30);
    assert_eq!(
        trade_success_message(TradeAction::Buy, &bought, "Red (market #0001)"),
        "Bought 3 shares of Red (market #0001). Total: 1.530yp (1.500yp + 0.030yp fees)"
    );
    let sold = trade_result(OrderDirection::Sell, 2, 1_000, 20);
    assert_eq!(
        trade_success_message(TradeAction::Sell, &sold, "Red (market #0001)"),
        "Sold 2 shares of Red (market #0001). Total: 0.980yp (1.000yp - 0.020yp fees)"
    );
    assert_eq!(
        trade_error_message(TradeError::InsufficientFunds(Currency::from(7_000)), Currency::from(5_000), 0),
        "Insufficient funds: your order cost 7.000yp and you only have 5.000yp in cash."
    );
    assert_eq!(
        trade_error_message(TradeError::InsufficientShares, Currency::from(5_000), 4),
        "Insufficient shares: you only have 4 shares to sell."
    );
}

fn market_with_owner(owner: DbUser) -> FullMarket {
    FullMarket {
        row: Market {
            id: 6,
            description: "q".to_string(),
            state: MarketState::Open,
            owner_id: owner.id as i64,
            message_id: None,
            channel_id: None,
            thread_id: None,
            details_msg_id: None,
        },
        instruments: vec![
            (Instrument { id: 1, name: "Red".to_string(), state: InstrumentState::Open, market_id: 6 }, 0),
            (Instrument { id: 2, name: "Blue".to_string(), state: InstrumentState::Open, market_id: 6 }, 0),
        ],
        owner,
    }
}

#[test]
fn resolving() {
    let market = market_with_owner(user(1, "al", 0));
    assert_eq!(check_market_owner(&market, &user(1, "al", 0)), Ok(()));
    let refused = check_market_owner(&market, &user(2, "bo", 0));
    assert_eq!(refused, Err(NotMarketOwner { user_id: 2, market_id: 6 }));
    assert_eq!(refused.err().unwrap().message(), "user 2 was not the owner of market 6");
    assert_eq!(
        resolved_states(&market.instruments, 2),
        vec![InstrumentState::Loser, InstrumentState::Winner]
    );
    assert_eq!(resolved_message(6, "T"), "Market #0006 resolved.\nT");
}

fn resolve_result(owner: i64, price: i64, fees: i64, basis: i64) -> ResolveResult {
    ResolveResult {
        order: CreateOrder {
            direction: OrderDirection::Sell,
            quantity: 1,
            shares_price: Currency::from(price),
            fees: Currency::from(fees),
            cost_basis: Currency::from(basis),
            instrument_id: 1,
            owner_id: owner,
        },
        transfers: vec![],
        position: CreatePosition { quantity: 0, cost_basis: Currency::from(0), instrument_id: 1, owner_id: owner },
        shares_price: Currency::from(price),
        fees: Currency::from(fees),
        cost_basis: Currency::from(basis),
    }
}

fn holding(u: DbUser, instrument_id: i64) -> PositionWithUser {
    PositionWithUser {
        position: Position { id: 0, quantity: 1, cost_basis: Currency::from(0), instrument_id, owner_id: u.id as i64 },
        user: u,
    }
}

#[test]
fn resolve_profit_table() {
    let positions = vec![
        holding(user(1, "al", 0), 1),
        holding(user(2, "bo", 0), 1),
        holding(user(1, "al", 0), 2),
    ];
    let results = vec![
        resolve_result(1, 1_000, 20, 400),
        resolve_result(2, 1_000, 20, 100),
        resolve_result(1, 0, 0, 300),
    ];
    let rows = resolve_profit_rows(&positions, &results);
    let rows: Vec<Vec<String>> = rows.iter().map(|r| r.to_vec()).collect();
    assert_eq!(
        rows,
        vec![
            vec!["Name".to_string(), "Profit".to_string()],
            vec!["bo".to_string(), "0.880yp".to_string()],
            vec!["al".to_string(), "0.280yp".to_string()],
        ]
    );
}

#[test]
fn new_users_are_funded() {
    let t = catshi::command::initial_funding(&user(3, "cy", 0), &user(9, "house", 0));
    assert_eq!(t.amount, Currency::from(20_000));
    assert_eq!((t.sender, t.receiver), (9, 3));
    assert_eq!(t.memo, "Initial account funding. Have fun.");
    assert_eq!(t.source, TransferSource::Deposit);
    let closed = CreatePosition { quantity: 0, cost_basis: Currency::from(0), instrument_id: 1, owner_id: 3 };
    assert!(closed.is_closed());
    let open = CreatePosition { quantity: 2, cost_basis: Currency::from(0), instrument_id: 1, owner_id: 3 };
    assert!(!open.is_closed());
}
