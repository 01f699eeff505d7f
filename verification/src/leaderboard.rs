//! Ranking users by one figure of their portfolio.

use vstd::prelude::*;
use crate::currency::{Currency, currency_text, fits_i64};
use crate::portfolio::PortfolioValue;
use crate::store::{DbUser, UserTransfersBySourceAndDirection};
use crate::table::{is_descending_ranking, rank_descending};
use crate::text::{string_from, str_eq};

verus! {

/// The figure users are ranked by.
#[derive(Debug, PartialEq, Eq, Clone, Copy, Structural)]
pub enum LeaderboardField {
    NetWorth,
    CashBalance,
    TradeProfits,
    TipsReceived,
    TipsSent,
    Gambling,
}

/// A field's name, in snake case.
pub open spec fn field_name(f: LeaderboardField) -> Seq<char> {
    match f {
        LeaderboardField::NetWorth => "net_worth"@,
        LeaderboardField::CashBalance => "cash_balance"@,
        LeaderboardField::TradeProfits => "trade_profits"@,
        LeaderboardField::TipsReceived => "tips_received"@,
        LeaderboardField::TipsSent => "tips_sent"@,
        LeaderboardField::Gambling => "gambling"@,
    }
}

/// The field a name denotes, if any.
pub open spec fn field_parse(s: Seq<char>) -> Option<LeaderboardField> {
    if s == "net_worth"@ {
        Some(LeaderboardField::NetWorth)
    } else if s == "cash_balance"@ {
        Some(LeaderboardField::CashBalance)
    } else if s == "trade_profits"@ {
        Some(LeaderboardField::TradeProfits)
    } else if s == "tips_received"@ {
        Some(LeaderboardField::TipsReceived)
    } else if s == "tips_sent"@ {
        Some(LeaderboardField::TipsSent)
    } else if s == "gambling"@ {
        Some(LeaderboardField::Gambling)
    } else {
        None
    }
}

impl LeaderboardField {
    /// The field's name, such as `net_worth`.
    pub fn to_string(&self) -> (r: String)
        ensures
            r@ == field_name(*self),
    {
        match self {
            LeaderboardField::NetWorth => string_from("net_worth"),
            LeaderboardField::CashBalance => string_from("cash_balance"),
            LeaderboardField::TradeProfits => string_from("trade_profits"),
            LeaderboardField::TipsReceived => string_from("tips_received"),
            LeaderboardField::TipsSent => string_from("tips_sent"),
            LeaderboardField::Gambling => string_from("gambling"),
        }
    }

    /// Reads a field from its name; any other text is refused.
    pub fn from_str(s: &str) -> (r: Result<LeaderboardField, ()>)
        ensures
            r == match field_parse(s@) {
                Some(f) => Ok::<LeaderboardField, ()>(f),
                None => Err(()),
            },
    {
        if str_eq(s, "net_worth") {
            Ok(LeaderboardField::NetWorth)
        } else if str_eq(s, "cash_balance") {
            Ok(LeaderboardField::CashBalance)
        } else if str_eq(s, "trade_profits") {
            Ok(LeaderboardField::TradeProfits)
        } else if str_eq(s, "tips_received") {
            Ok(LeaderboardField::TipsReceived)
        } else if str_eq(s, "tips_sent") {
            Ok(LeaderboardField::TipsSent)
        } else if str_eq(s, "gambling") {
            Ok(LeaderboardField::Gambling)
        } else {
            Err(())
        }
    }

    /// Every field, in declaration order.
    pub fn all() -> (r: Vec<LeaderboardField>)
        ensures
            r@ == seq![
                LeaderboardField::NetWorth,
                LeaderboardField::CashBalance,
                LeaderboardField::TradeProfits,
                LeaderboardField::TipsReceived,
                LeaderboardField::TipsSent,
                LeaderboardField::Gambling,
            ],
    {
        let mut r = Vec::new();
        r.push(LeaderboardField::NetWorth);
        r.push(LeaderboardField::CashBalance);
        r.push(LeaderboardField::TradeProfits);
        r.push(LeaderboardField::TipsReceived);
        r.push(LeaderboardField::TipsSent);
        r.push(LeaderboardField::Gambling);
        r
    }
}

/// The value of a field of a portfolio.
pub open spec fn pv_field(p: PortfolioValue, f: LeaderboardField) -> int {
    match f {
        LeaderboardField::NetWorth => p.user.cash_balance.0 + p.positions_value.0,
        LeaderboardField::CashBalance => p.user.cash_balance.0 as int,
        LeaderboardField::TradeProfits => p.trades_profit.0 + p.fees_profit.0 + p.positions_value.0,
        LeaderboardField::TipsReceived => p.tips_received.0 as int,
        LeaderboardField::TipsSent => p.tips_sent.0 as int,
        LeaderboardField::Gambling => p.gambling_winnings.0 as int,
    }
}

/// Whether computing a field of a portfolio stays within 64 bits.
pub open spec fn field_fits(p: PortfolioValue, f: LeaderboardField) -> bool {
    match f {
        LeaderboardField::NetWorth => fits_i64(p.user.cash_balance.0 + p.positions_value.0),
        LeaderboardField::TradeProfits => fits_i64(p.trades_profit.0 + p.fees_profit.0) && fits_i64(
            p.trades_profit.0 + p.fees_profit.0 + p.positions_value.0,
        ),
        _ => true,
    }
}

/// The chosen figure of a portfolio.
pub fn get_pv_field(p: &PortfolioValue, field: LeaderboardField) -> (r: Currency)
    requires
        field_fits(*p, field),
    ensures
        r.0 == pv_field(*p, field),
{
    match field {
        LeaderboardField::NetWorth => p.net_worth(),
        LeaderboardField::CashBalance => p.user.cash_balance,
        LeaderboardField::TradeProfits => p.net_profit(),
        LeaderboardField::TipsReceived => p.tips_received,
        LeaderboardField::TipsSent => p.tips_sent,
        LeaderboardField::Gambling => p.gambling_winnings,
    }
}

/// The values of a field over a list of portfolios.
pub open spec fn field_values(values: Seq<PortfolioValue>, field: LeaderboardField) -> Seq<i64> {
    values.map_values(|p: PortfolioValue| pv_field(p, field) as i64)
}

/// Whether a field can be computed and written out for every portfolio.
pub open spec fn leaderboard_fits(values: Seq<PortfolioValue>, field: LeaderboardField) -> bool {
    forall|i: int|
        0 <= i < values.len() ==> field_fits(#[trigger] values[i], field) && pv_field(
            values[i],
            field,
        ) != i64::MIN
}

/// The leaderboard table: a header of `User` and the field's name, then one row per
/// portfolio with the user's name and the field's value, highest value first and equal values
/// in the order given.
pub fn leaderboard_rows(values: &Vec<PortfolioValue>, field: LeaderboardField) -> (r: Vec<
    [String; 2],
>)
    requires
        leaderboard_fits(values@, field),
    ensures
        r@.len() == values@.len() + 1,
        r@[0]@[0]@ == "User"@,
        r@[0]@[1]@ == field_name(field),
        exists|order: Seq<usize>|
            {
                &&& is_descending_ranking(field_values(values@, field), order)
                &&& forall|i: int|
                    0 <= i < values@.len() ==> {
                        &&& (#[trigger] r@[i + 1])@[0]@ == values@[order[i] as int].user.name@
                        &&& r@[i + 1]@[1]@ == currency_text(
                            pv_field(values@[order[i] as int], field),
                        )
                    }
            },
{
    let mut keys: Vec<i64> = Vec::new();
    let mut i: usize = 0;
    while i < values.len()
        invariant
            i <= values@.len(),
            keys@.len() == i,
            leaderboard_fits(values@, field),
            forall|k: int| 0 <= k < i ==> keys@[k] == pv_field(#[trigger] values@[k], field),
        decreases values@.len() - i,
    {
        assert(field_fits(values@[i as int], field));
        let v = get_pv_field(&values[i], field);
        keys.push(v.0);
        i = i + 1;
    }
    assert(keys@ =~= field_values(values@, field));
    let order = rank_descending(&keys);
    let mut rows: Vec<[String; 2]> = Vec::new();
    rows.push([string_from("User"), field.to_string()]);
    let mut j: usize = 0;
    while j < order.len()
        invariant
            j <= order@.len(),
            order@.len() == values@.len(),
            keys@ == field_values(values@, field),
            is_descending_ranking(keys@, order@),
            leaderboard_fits(values@, field),
            rows@.len() == j + 1,
            rows@[0]@[0]@ == "User"@,
            rows@[0]@[1]@ == field_name(field),
            forall|i: int|
                0 <= i < j ==> {
                    &&& (#[trigger] rows@[i + 1])@[0]@ == values@[order@[i] as int].user.name@
                    &&& rows@[i + 1]@[1]@ == currency_text(
                        pv_field(values@[order@[i] as int], field),
                    )
                },
        decreases order@.len() - j,
    {
        let k = order[j];
        assert(order@[j as int] < keys@.len());
        let p = &values[k];
        assert(field_fits(values@[k as int], field));
        let v = get_pv_field(p, field);
        let row = [p.user.name.clone(), v.to_string()];
        rows.push(row);
        j = j + 1;
    }
    rows
}

/// Whether `users` holds one entry per distinct user id of `rows`, in order of first
/// appearance.
pub open spec fn users_of(rows: Seq<UserTransfersBySourceAndDirection>, users: Seq<DbUser>) -> bool
    decreases rows.len(),
{
    if rows.len() == 0 {
        users.len() == 0
    } else {
        let prev = rows.drop_last();
        let u = rows.last().user;
        if exists|j: int| 0 <= j < prev.len() && prev[j].user.id == u.id {
            users_of(prev, users)
        } else {
            users.len() > 0 && users.last() == u && users_of(prev, users.drop_last())
        }
    }
}

/// Whether some row before index `i` belongs to the user with id `id`.
pub open spec fn seen_before(rows: Seq<UserTransfersBySourceAndDirection>, i: int, id: i32) -> bool {
    exists|j: int| 0 <= j < i && #[trigger] rows[j].user.id == id
}

/// The distinct users of the transfer rows, each the first time its id occurs.
pub fn leaderboard_users(rows: &Vec<UserTransfersBySourceAndDirection>) -> (r: Vec<DbUser>)
    ensures
        users_of(rows@, r@),
{
    let mut users: Vec<DbUser> = Vec::new();
    let mut i: usize = 0;
    assert(rows@.take(0).len() == 0);
    while i < rows.len()
        invariant
            i <= rows@.len(),
            users_of(rows@.take(i as int), users@),
            forall|id: i32|
                #![trigger seen_before(rows@, i as int, id)]
                seen_before(rows@, i as int, id) <==> exists|k: int|
                    0 <= k < users@.len() && #[trigger] users@[k].id == id,
        decreases rows@.len() - i,
    {
        let ghost prefix = rows@.take(i as int + 1);
        assert(prefix.drop_last() =~= rows@.take(i as int));
        assert(prefix.last() == rows@[i as int]);
        let id = rows[i].user.id;
        let mut found = false;
        let mut k: usize = 0;
        while k < users.len()
            invariant
                k <= users@.len(),
                found <==> exists|m: int| 0 <= m < k && #[trigger] users@[m].id == id,
            decreases users@.len() - k,
        {
            if users[k].id == id {
                found = true;
            }
            k = k + 1;
        }
        proof {
            let prev = prefix.drop_last();
            if found {
                let m = choose|m: int| 0 <= m < users@.len() && #[trigger] users@[m].id == id;
                assert(seen_before(rows@, i as int, id));
                let j = choose|j: int| 0 <= j < i && #[trigger] rows@[j].user.id == id;
                assert(prev[j].user.id == id);
            } else {
                if exists|j: int| 0 <= j < prev.len() && prev[j].user.id == id {
                    let j = choose|j: int| 0 <= j < prev.len() && prev[j].user.id == id;
                    assert(rows@[j].user.id == id);
                    assert(seen_before(rows@, i as int, id));
                }
            }
        }
        if !found {
            let ghost before = users@;
            users.push(rows[i].user.duplicate());
            proof {
                assert(users@.drop_last() =~= before);
                assert forall|id2: i32|
                    #![trigger seen_before(rows@, i as int + 1, id2)]
                    seen_before(rows@, i as int + 1, id2) <==> exists|k2: int|
                        0 <= k2 < users@.len() && #[trigger] users@[k2].id == id2 by {
                    if seen_before(rows@, i as int + 1, id2) {
                        let j = choose|j: int| 0 <= j < i + 1 && #[trigger] rows@[j].user.id == id2;
                        if j < i {
                            assert(seen_before(rows@, i as int, id2));
                            let k3 = choose|k3: int| 0 <= k3 < before.len() && #[trigger] before[k3].id == id2;
                            assert(users@[k3].id == id2);
                        } else {
                            assert(users@[before.len() as int].id == id2);
                        }
                    }
                    if exists|k2: int| 0 <= k2 < users@.len() && #[trigger] users@[k2].id == id2 {
                        let k2 = choose|k2: int| 0 <= k2 < users@.len() && #[trigger] users@[k2].id == id2;
                        if k2 < before.len() {
                            assert(before[k2].id == id2);
                            assert(seen_before(rows@, i as int, id2));
                            let j = choose|j: int| 0 <= j < i && #[trigger] rows@[j].user.id == id2;
                            assert(rows@[j].user.id == id2);
                        } else {
                            assert(rows@[i as int].user.id == id2);
                        }
                    }
                }
            }
        } else {
            proof {
                assert forall|id2: i32|
                    #![trigger seen_before(rows@, i as int + 1, id2)]
                    seen_before(rows@, i as int + 1, id2) <==> exists|k2: int|
                        0 <= k2 < users@.len() && #[trigger] users@[k2].id == id2 by {
                    if seen_before(rows@, i as int + 1, id2) {
                        let j = choose|j: int| 0 <= j < i + 1 && #[trigger] rows@[j].user.id == id2;
                        if j < i {
                            assert(seen_before(rows@, i as int, id2));
                        } else {
                            assert(seen_before(rows@, i as int, id));
                        }
                    }
                    if exists|k2: int| 0 <= k2 < users@.len() && #[trigger] users@[k2].id == id2 {
                        assert(seen_before(rows@, i as int, id2));
                        let j = choose|j: int| 0 <= j < i && #[trigger] rows@[j].user.id == id2;
                        assert(rows@[j].user.id == id2);
                    }
                }
            }
        }
        i = i + 1;
    }
    assert(rows@.take(rows@.len() as int) =~= rows@);
    users
}

/// Each field's name reads back as that field.
pub proof fn lemma_field_name_roundtrip(f: LeaderboardField)
    ensures
        field_parse(field_name(f)) == Some(f),
{
    reveal_strlit("net_worth");
    reveal_strlit("cash_balance");
    reveal_strlit("trade_profits");
    reveal_strlit("tips_received");
    reveal_strlit("tips_sent");
    reveal_strlit("gambling");
    assert("net_worth"@.len() == 9 && "cash_balance"@.len() == 12 && "trade_profits"@.len() == 13);
    assert("tips_received"@.len() == 13 && "tips_sent"@.len() == 9 && "gambling"@.len() == 8);
    assert("net_worth"@[0] != "tips_sent"@[0]);
    assert("trade_profits"@[1] != "tips_received"@[1]);
    assert("net_worth"@ != "tips_sent"@);
    assert("trade_profits"@ != "tips_received"@);
}

/// Whether the chosen figure of every portfolio can be worked out and written within 64 bits.
pub fn leaderboard_computable(values: &Vec<PortfolioValue>, field: LeaderboardField) -> (r: bool)
    ensures
        r == leaderboard_fits(values@, field),
{
    let mut i: usize = 0;
    while i < values.len()
        invariant
            i <= values@.len(),
            forall|k: int|
                0 <= k < i ==> field_fits(#[trigger] values@[k], field) && pv_field(values@[k], field)
                    != i64::MIN,
        decreases values@.len() - i,
    {
        let p = &values[i];
        let ok = match field {
            LeaderboardField::NetWorth => {
                let v: i128 = p.user.cash_balance.0 as i128 + p.positions_value.0 as i128;
                (i64::MIN as i128) < v && v <= i64::MAX as i128
            },
            LeaderboardField::CashBalance => p.user.cash_balance.0 != i64::MIN,
            LeaderboardField::TradeProfits => {
                let a: i128 = p.trades_profit.0 as i128 + p.fees_profit.0 as i128;
                let v: i128 = a + p.positions_value.0 as i128;
                i64::MIN as i128 <= a && a <= i64::MAX as i128 && (i64::MIN as i128) < v && v
                    <= i64::MAX as i128
            },
            LeaderboardField::TipsReceived => p.tips_received.0 != i64::MIN,
            LeaderboardField::TipsSent => p.tips_sent.0 != i64::MIN,
            LeaderboardField::Gambling => p.gambling_winnings.0 != i64::MIN,
        };
        if !ok {
            assert(!(field_fits(values@[i as int], field) && pv_field(values@[i as int], field)
                != i64::MIN));
            return false;
        }
        i = i + 1;
    }
    true
}

} // verus!
