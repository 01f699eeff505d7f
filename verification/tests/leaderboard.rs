use catshi::currency::Currency;
use catshi::leaderboard::{get_pv_field, leaderboard_rows, leaderboard_users, LeaderboardField};
use catshi::portfolio::PortfolioValue;
use catshi::store::{DbUser, TransferDirection, TransferSource, UserTransfersBySourceAndDirection};

fn user(id: i32, name: &str, cash: i64) -> DbUser {
    DbUser { id, discord_id: format!("d{id}"), name: name.to_string(), cash_balance: Currency::from(cash) }
}

fn portfolio(u: DbUser, positions: i64, trades: i64, tips_in: i64) -> PortfolioValue {
    PortfolioValue {
        user: u,
        net_deposits: Currency::from(20_000),
        trades_profit: Currency::from(trades),
        fees_profit: Currency::from(10),
        gambling_winnings: Currency::from(-300),
        tips_received: Currency::from(tips_in),
        tips_sent: Currency::from(-1_000),
        transfers_received: Currency::from(0),
        transfers_sent: Currency::from(0),
        positions_value: Currency::from(positions),
    }
}

#[test]
fn field_names() {
    let names: Vec<String> = LeaderboardField::all().iter().map(|f| f.to_string()).collect();
    assert_eq!(
        names,
        vec!["net_worth", "cash_balance", "trade_profits", "tips_received", "tips_sent", "gambling"]
    );
    for f in LeaderboardField::all() {
        assert_eq!(LeaderboardField::from_str(&f.to_string()), Ok(f));
    }
    assert_eq!(LeaderboardField::from_str("NetWorth"), Err(()));
}

#[test]
fn portfolio_fields() {
    let p = portfolio(user(1, "al", 5_000), 2_500, 700, 3_000);
    assert_eq!(get_pv_field(&p, LeaderboardField::NetWorth), Currency::from(7_500));
    assert_eq!(get_pv_field(&p, LeaderboardField::CashBalance), Currency::from(5_000));
    assert_eq!(get_pv_field(&p, LeaderboardField::TradeProfits), Currency::from(3_210));
    assert_eq!(get_pv_field(&p, LeaderboardField::TipsReceived), Currency::from(3_000));
    assert_eq!(get_pv_field(&p, LeaderboardField::TipsSent), Currency::from(-1_000));
    assert_eq!(get_pv_field(&p, LeaderboardField::Gambling), Currency::from(-300));
}

#[test]
fn leaderboard_sorted_by_field() {
    let values = vec![
        portfolio(user(1, "al", 5_000), 0, 0, 0),
        portfolio(user(2, "bo", 9_000), 0, 0, 0),
        portfolio(user(3, "cy", 5_000), 1_000, 0, 0),
    ];
    let rows = leaderboard_rows(&values, LeaderboardField::CashBalance);
    let rows: Vec<Vec<String>> = rows.iter().map(|r| r.to_vec()).collect();
    assert_eq!(
        rows,
        vec![
            vec!["User".to_string(), "cash_balance".to_string()],
            vec!["bo".to_string(), "9.000yp".to_string()],
            vec!["al".to_string(), "5.000yp".to_string()],
            vec!["cy".to_string(), "5.000yp".to_string()],
        ]
    );
    let worth = leaderboard_rows(&values, LeaderboardField::NetWorth);
    assert_eq!(worth[1][0], "bo");
    assert_eq!(worth[2][0], "cy");
    assert_eq!(worth[2][1], "6.000yp");
}

#[test]
fn leaderboard_users_once_each() {
    let row = |u: DbUser, source: TransferSource, direction: TransferDirection, amount: i64| {
        UserTransfersBySourceAndDirection { user: u, source, direction, amount: Currency::from(amount) }
    };
    let rows = vec![
        row(user(2, "bo", 0), TransferSource::Deposit, TransferDirection::Credit, 20_000),
        row(user(1, "al", 0), TransferSource::Deposit, TransferDirection::Credit, 20_000),
        row(user(2, "bo", 0), TransferSource::Order, TransferDirection::Debit, -500),
    ];
    let users = leaderboard_users(&rows);
    let ids: Vec<i32> = users.iter().map(|u| u.id).collect();
    assert_eq!(ids, vec![2, 1]);
}

#[test]
fn portfolio_breakdown_rows() {
    let p = portfolio(user(1, "al", 5_000), 2_500, 700, 3_000);
    let rows: Vec<Vec<String>> = p.breakdown_rows().iter().map(|r| r.to_vec()).collect();
    let expected: Vec<Vec<String>> = [
        ["Trades", "0.700yp"],
        ["Fees", "0.010yp"],
        ["Tips (in)", "3.000yp"],
        ["Tips (out)", "-1.000yp"],
        ["Ctransfers (in)", "0.000yp"],
        ["Ctransfers (out)", "0.000yp"],
        ["Gambling", "-0.300yp"],
        ["Deposits", "20.000yp"],
        ["", ""],
        ["Cash", "5.000yp"],
        ["Positions", "2.500yp"],
        ["", ""],
        ["Net worth", "7.500yp"],
    ]
    .iter()
    .map(|r| r.iter().map(|s| s.to_string()).collect())
    .collect();
    assert_eq!(rows, expected);
}
