//! What the bot's commands decide: who may do what, which transfers a command makes, and what
//! it answers.

use vstd::prelude::*;
use crate::blackjack::ActResult;
use crate::currency::{Currency, currency_text};
use crate::interaction::TradeAction;
use crate::store::{
    CreateTransfer, DbBlackjack, DbUser, FullMarket, InstrumentState, InstrumentWithShares,
    PositionWithUser, TransferSource,
};
use crate::trade::create_system_credit;
use crate::table::{is_first_occurrences, first_occurrences, is_descending_ranking, rank_descending};
use crate::ui::{market_id_text, format_market_id};
use crate::text::{append_str, string_from, i64_to_decimal, signed_decimal};
use crate::trade::{TradeError, TradeResult, ResolveResult, order_total, resolve_profit};
use crate::currency::fits_i64;

verus! {

/// What a new user starts with: twenty YP.
pub const INITIAL_BALANCE_YP: i64 = 20;

/// The transfer that funds a newly registered user from the system user.
pub fn initial_funding(user: &DbUser, system_user: &DbUser) -> (r: CreateTransfer)
    ensures
        r.amount.0 == INITIAL_BALANCE_YP * 1000,
        r.sender == system_user.id,
        r.receiver == user.id,
        r.memo@ == "Initial account funding. Have fun."@,
        r.source == TransferSource::Deposit,
{
    create_system_credit(
        user,
        system_user,
        Currency::new_yp(INITIAL_BALANCE_YP),
        "Initial account funding. Have fun.",
        TransferSource::Deposit,
    )
}

/// Why a transfer between users was refused.
#[derive(Debug, Clone, Copy, PartialEq, Eq, Structural)]
pub enum TransferRefusal {
    /// The amount was below zero.
    NegativeAmount,
    /// The recipient has no account.
    UnknownRecipient,
    /// The sender's cash does not cover the amount.
    InsufficientFunds,
}

/// The memo of a transfer when the sender gives none.
pub const DEFAULT_TRANSFER_MEMO: &'static str = "User initiated transfer";

/// Checks a transfer of `amount` from `sender` to `recipient` (`None` when the recipient has
/// no account) and makes it: first the amount must not be negative, then the recipient must
/// exist, then the sender's cash must cover the amount.
pub fn plan_user_transfer(
    sender: &DbUser,
    recipient: Option<&DbUser>,
    amount: Currency,
    memo: Option<&str>,
) -> (r: Result<CreateTransfer, TransferRefusal>)
    ensures
        match r {
            Ok(t) => amount.0 >= 0 && recipient is Some && sender.cash_balance.0 >= amount.0
                && t.amount == amount && t.sender == sender.id && t.receiver == recipient->Some_0.id
                && t.memo@ == (match memo {
                    Some(m) => m@,
                    None => DEFAULT_TRANSFER_MEMO@,
                }) && t.source == TransferSource::UserInitiated,
            Err(TransferRefusal::NegativeAmount) => amount.0 < 0,
            Err(TransferRefusal::UnknownRecipient) => amount.0 >= 0 && recipient is None,
            Err(TransferRefusal::InsufficientFunds) => amount.0 >= 0 && recipient is Some
                && sender.cash_balance.0 < amount.0,
        },
{
    if amount.0 < 0 {
        return Err(TransferRefusal::NegativeAmount);
    }
    let memo_text = match memo {
        Some(m) => string_from(m),
        None => string_from(DEFAULT_TRANSFER_MEMO),
    };
    let recipient = match recipient {
        Some(u) => u,
        None => {
            return Err(TransferRefusal::UnknownRecipient);
        },
    };
    if sender.cash_balance.0 < amount.0 {
        return Err(TransferRefusal::InsufficientFunds);
    }
    Ok(
        CreateTransfer {
            amount,
            sender: sender.id,
            receiver: recipient.id,
            memo: memo_text,
            source: TransferSource::UserInitiated,
        },
    )
}

impl TransferRefusal {
    /// What the sender is told.
    pub fn message(&self, amount: Currency, balance: Currency) -> (r: String)
        requires
            amount.0 != i64::MIN,
            balance.0 != i64::MIN,
        ensures
            r@ == match *self {
                TransferRefusal::NegativeAmount => "Transfer amount must be greater than 0"@,
                TransferRefusal::UnknownRecipient => "Recipient was not registered. Make a trade to register."@,
                TransferRefusal::InsufficientFunds => "You do not have enough yp to transfer "@
                    + currency_text(amount.0 as int) + ". Your balance is "@ + currency_text(
                    balance.0 as int,
                ) + "."@,
            },
    {
        match self {
            TransferRefusal::NegativeAmount => string_from("Transfer amount must be greater than 0"),
            TransferRefusal::UnknownRecipient => string_from(
                "Recipient was not registered. Make a trade to register.",
            ),
            TransferRefusal::InsufficientFunds => {
                let mut r = string_from("You do not have enough yp to transfer ");
                append_str(&mut r, amount.to_string().as_str());
                append_str(&mut r, ". Your balance is ");
                append_str(&mut r, balance.to_string().as_str());
                append_str(&mut r, ".");
                r
            },
        }
    }
}

/// What the sender is told once a transfer is made.
pub fn transfer_confirmation(amount: Currency, recipient: &DbUser) -> (r: String)
    requires
        amount.0 != i64::MIN,
    ensures
        r@ == "Transferred "@ + currency_text(amount.0 as int) + " to "@ + recipient.name@,
{
    let mut r = string_from("Transferred ");
    append_str(&mut r, amount.to_string().as_str());
    append_str(&mut r, " to ");
    append_str(&mut r, recipient.name.as_str());
    r
}

/// The amount of a tip: one YP.
pub const TIP_AMOUNT: i64 = 1000;

/// Whether a user's cash covers a tip.
pub fn can_tip(user: &DbUser) -> (r: bool)
    ensures
        r == (user.cash_balance.0 >= TIP_AMOUNT),
{
    user.cash_balance.0 >= TIP_AMOUNT
}

/// The transfer of a tip from `sender` to the author of the tipped message.
pub fn tip_transfer(sender: &DbUser, receiver: &DbUser) -> (r: CreateTransfer)
    ensures
        r.amount == Currency(TIP_AMOUNT),
        r.sender == sender.id,
        r.receiver == receiver.id,
        r.memo@ == "Tip for message"@,
        r.source == TransferSource::MessageTip,
{
    CreateTransfer {
        amount: Currency(TIP_AMOUNT),
        sender: sender.id,
        receiver: receiver.id,
        memo: string_from("Tip for message"),
        source: TransferSource::MessageTip,
    }
}

/// Why a bet was refused.
#[derive(Debug, Clone, Copy, PartialEq, Eq, Structural)]
pub enum BetRefusal {
    /// The bet was below zero.
    Negative,
    /// The player's cash does not cover the bet.
    InsufficientFunds,
}

/// Checks a bet: it must not be negative, and the player's cash must cover it.
pub fn check_bet(user: &DbUser, bet: Currency) -> (r: Result<(), BetRefusal>)
    ensures
        r == if bet.0 < 0 {
            Err(BetRefusal::Negative)
        } else if user.cash_balance.0 < bet.0 {
            Err(BetRefusal::InsufficientFunds)
        } else {
            Ok::<(), BetRefusal>(())
        },
{
    if bet.0 < 0 {
        Err(BetRefusal::Negative)
    } else if user.cash_balance.0 < bet.0 {
        Err(BetRefusal::InsufficientFunds)
    } else {
        Ok(())
    }
}

impl BetRefusal {
    /// What the player is told.
    pub fn message(&self, balance: Currency, bet: Currency) -> (r: String)
        requires
            balance.0 != i64::MIN,
            bet.0 != i64::MIN,
        ensures
            r@ == match *self {
                BetRefusal::Negative => "Bet must be greater than 0"@,
                BetRefusal::InsufficientFunds => "You do not have enough yp ("@ + currency_text(
                    balance.0 as int,
                ) + ") to cover your bet ("@ + currency_text(bet.0 as int)
                    + "). Please kindly leave the casino."@,
            },
    {
        match self {
            BetRefusal::Negative => string_from("Bet must be greater than 0"),
            BetRefusal::InsufficientFunds => {
                let mut r = string_from("You do not have enough yp (");
                append_str(&mut r, balance.to_string().as_str());
                append_str(&mut r, ") to cover your bet (");
                append_str(&mut r, bet.to_string().as_str());
                append_str(&mut r, "). Please kindly leave the casino.");
                r
            },
        }
    }
}

/// The transfers that open a game: the bet from the player to the system user, taken at
/// once so that a game going badly cannot simply be left unfinished, and then any payout of a
/// natural from the system user to the player.
pub fn opening_transfers(
    user: &DbUser,
    system_user: &DbUser,
    bet: Currency,
    payout: Option<Currency>,
) -> (r: Vec<CreateTransfer>)
    ensures
        r@.len() == if payout is Some {
            2int
        } else {
            1int
        },
        r@[0].amount == bet,
        r@[0].sender == user.id,
        r@[0].receiver == system_user.id,
        r@[0].memo@ == "Blackjack: initial bet"@,
        r@[0].source == TransferSource::Gambling,
        payout is Some ==> {
            &&& r@[1].amount == payout->Some_0
            &&& r@[1].sender == system_user.id
            &&& r@[1].receiver == user.id
            &&& r@[1].memo@ == "Blackjack: winnings"@
            &&& r@[1].source == TransferSource::Gambling
        },
{
    let mut r: Vec<CreateTransfer> = Vec::new();
    r.push(
        CreateTransfer {
            amount: bet,
            sender: user.id,
            receiver: system_user.id,
            memo: string_from("Blackjack: initial bet"),
            source: TransferSource::Gambling,
        },
    );
    match payout {
        Some(amount) => {
            r.push(
                CreateTransfer {
                    amount,
                    sender: system_user.id,
                    receiver: user.id,
                    memo: string_from("Blackjack: winnings"),
                    source: TransferSource::Gambling,
                },
            );
        },
        None => {},
    }
    r
}

/// Whether `user` owns the stored game.
pub fn owns_table(db: &DbBlackjack, user: &DbUser) -> (r: bool)
    ensures
        r == (db.owner_id == user.id as i64),
{
    db.owner_id == user.id as i64
}

/// Settles an action of a game: refused with the amount when it raises the bet beyond the
/// player's cash, else the transfer it makes, if any.
pub fn settle_action(result: &ActResult, user: &DbUser, system_user: &DbUser) -> (r: Result<
    Option<CreateTransfer>,
    Currency,
>)
    requires
        result.bet_increase is None || result.payout is None,
    ensures
        match r {
            Err(amount) => result.bet_increase == Some(amount) && user.cash_balance.0
                < amount.0,
            Ok(t) => !(result.bet_increase matches Some(a) && user.cash_balance.0 < a.0)
                && match crate::blackjack::act_transfer(*result, system_user.id, user.id) {
                    None => t is None,
                    Some((amount, sender, receiver, memo)) => t matches Some(tr) && tr.amount
                        == amount && tr.sender == sender && tr.receiver == receiver && tr.memo@
                        == memo && tr.source == TransferSource::Gambling,
                },
        },
{
    match result.bet_increase {
        Some(amount) => {
            if user.cash_balance.0 < amount.0 {
                return Err(amount);
            }
        },
        None => {},
    }
    Ok(result.transfer(system_user, user))
}

/// What a player is told when a raise of the bet is beyond their cash.
pub fn unaffordable_raise_message(balance: Currency, amount: Currency) -> (r: String)
    requires
        balance.0 != i64::MIN,
        amount.0 != i64::MIN,
    ensures
        r@ == "You have "@ + currency_text(balance.0 as int)
            + " and cannot afford to bet an additional "@ + currency_text(amount.0 as int),
{
    let mut r = string_from("You have ");
    append_str(&mut r, balance.to_string().as_str());
    append_str(&mut r, " and cannot afford to bet an additional ");
    append_str(&mut r, amount.to_string().as_str());
    r
}

/// What a trader is told after a trade: `Bought 3 shares of … Total: … (… + … fees)`.
pub open spec fn trade_success_text(
    action: TradeAction,
    quantity: i64,
    instrument: Seq<char>,
    total: int,
    shares_price: int,
    fees: int,
) -> Seq<char> {
    (match action {
        TradeAction::Buy => "Bought"@,
        TradeAction::Sell => "Sold"@,
    }) + " "@ + signed_decimal(quantity as int) + " shares of "@ + instrument + ". Total: "@
        + currency_text(total) + " ("@ + currency_text(shares_price) + (match action {
        TradeAction::Buy => " + "@,
        TradeAction::Sell => " - "@,
    }) + currency_text(fees) + " fees)"@
}

/// What a trader is told after a trade.
pub fn trade_success_message(action: TradeAction, result: &TradeResult, instrument: &str) -> (r:
    String)
    requires
        fits_i64(order_total(result.prices)),
        order_total(result.prices) != i64::MIN,
        result.prices.shares_price.0 != i64::MIN,
        result.prices.fees.0 != i64::MIN,
    ensures
        r@ == trade_success_text(
            action,
            result.quantity,
            instrument@,
            order_total(result.prices),
            result.prices.shares_price.0 as int,
            result.prices.fees.0 as int,
        ),
{
    let mut r = match action {
        TradeAction::Buy => string_from("Bought"),
        TradeAction::Sell => string_from("Sold"),
    };
    append_str(&mut r, " ");
    append_str(&mut r, i64_to_decimal(result.quantity).as_str());
    append_str(&mut r, " shares of ");
    append_str(&mut r, instrument);
    append_str(&mut r, ". Total: ");
    append_str(&mut r, result.prices.total().to_string().as_str());
    append_str(&mut r, " (");
    append_str(&mut r, result.prices.shares_price.to_string().as_str());
    match action {
        TradeAction::Buy => append_str(&mut r, " + "),
        TradeAction::Sell => append_str(&mut r, " - "),
    }
    append_str(&mut r, result.prices.fees.to_string().as_str());
    append_str(&mut r, " fees)");
    r
}

/// What a trader is told when a trade is refused.
pub fn trade_error_message(error: TradeError, cash_balance: Currency, held_shares: i64) -> (r:
    String)
    requires
        cash_balance.0 != i64::MIN,
        error matches TradeError::InsufficientFunds(total) ==> total.0 != i64::MIN,
    ensures
        r@ == match error {
            TradeError::InsufficientFunds(total) => "Insufficient funds: your order cost "@
                + currency_text(total.0 as int) + " and you only have "@ + currency_text(
                cash_balance.0 as int,
            ) + " in cash."@,
            TradeError::InsufficientShares => "Insufficient shares: you only have "@
                + signed_decimal(held_shares as int) + " shares to sell."@,
        },
{
    match error {
        TradeError::InsufficientFunds(total) => {
            let mut r = string_from("Insufficient funds: your order cost ");
            append_str(&mut r, total.to_string().as_str());
            append_str(&mut r, " and you only have ");
            append_str(&mut r, cash_balance.to_string().as_str());
            append_str(&mut r, " in cash.");
            r
        },
        TradeError::InsufficientShares => {
            let mut r = string_from("Insufficient shares: you only have ");
            append_str(&mut r, i64_to_decimal(held_shares).as_str());
            append_str(&mut r, " shares to sell.");
            r
        },
    }
}

/// Who tried to resolve a market they do not own.
#[derive(Debug, Clone, Copy, PartialEq, Eq, Structural)]
pub struct NotMarketOwner {
    pub user_id: i32,
    pub market_id: i64,
}

impl NotMarketOwner {
    /// The error as a sentence.
    pub fn message(&self) -> (r: String)
        ensures
            r@ == "user "@ + signed_decimal(self.user_id as int) + " was not the owner of market "@
                + signed_decimal(self.market_id as int),
    {
        let mut r = string_from("user ");
        append_str(&mut r, i64_to_decimal(self.user_id as i64).as_str());
        append_str(&mut r, " was not the owner of market ");
        append_str(&mut r, i64_to_decimal(self.market_id).as_str());
        r
    }
}

/// Only a market's owner may resolve it.
pub fn check_market_owner(market: &FullMarket, user: &DbUser) -> (r: Result<(), NotMarketOwner>)
    ensures
        r == if market.owner.id == user.id {
            Ok::<(), NotMarketOwner>(())
        } else {
            Err(NotMarketOwner { user_id: user.id, market_id: market.row.id })
        },
{
    if market.owner.id != user.id {
        Err(NotMarketOwner { user_id: user.id, market_id: market.row.id })
    } else {
        Ok(())
    }
}

/// The states of a resolved market's instruments: the winner wins, all others lose.
pub fn resolved_states(instruments: &Vec<InstrumentWithShares>, winner_id: i64) -> (r: Vec<
    InstrumentState,
>)
    ensures
        r@.len() == instruments@.len(),
        forall|i: int|
            0 <= i < instruments@.len() ==> #[trigger] r@[i] == if instruments@[i].0.id
                == winner_id {
                InstrumentState::Winner
            } else {
                InstrumentState::Loser
            },
{
    let mut r: Vec<InstrumentState> = Vec::new();
    let mut i: usize = 0;
    while i < instruments.len()
        invariant
            i <= instruments@.len(),
            r@.len() == i,
            forall|k: int|
                0 <= k < i ==> #[trigger] r@[k] == if instruments@[k].0.id == winner_id {
                    InstrumentState::Winner
                } else {
                    InstrumentState::Loser
                },
        decreases instruments@.len() - i,
    {
        if instruments[i].0.id == winner_id {
            r.push(InstrumentState::Winner);
        } else {
            r.push(InstrumentState::Loser);
        }
        i = i + 1;
    }
    r
}

/// The profit the results bring the owner with id `owner`.
pub open spec fn profit_total(results: Seq<ResolveResult>, owner: int) -> int
    decreases results.len(),
{
    if results.len() == 0 {
        0
    } else {
        profit_total(results.drop_last(), owner) + if results.last().order.owner_id == owner {
            resolve_profit(results.last())
        } else {
            0
        }
    }
}

/// The user ids of the positions.
pub open spec fn position_user_ids(ps: Seq<PositionWithUser>) -> Seq<i64> {
    ps.map_values(|p: PositionWithUser| p.user.id as i64)
}

/// Whether every running total of the profits of the owner with id `owner` fits in 64 bits.
pub open spec fn prefixes_fit(results: Seq<ResolveResult>, owner: int) -> bool {
    forall|k: int| 0 <= k <= results.len() ==> fits_i64(#[trigger] profit_total(results.take(k), owner))
}

/// Whether every profit and every running total of a holder's profits fits in 64 bits, and
/// each holder's total can be written out.
pub open spec fn resolve_profits_fit(ps: Seq<PositionWithUser>, results: Seq<ResolveResult>) -> bool {
    &&& forall|i: int|
        0 <= i < results.len() ==> fits_i64((#[trigger] results[i]).shares_price.0 - results[i].fees.0)
            && fits_i64(resolve_profit(results[i]))
    &&& forall|j: int| 0 <= j < ps.len() ==> prefixes_fit(results, (#[trigger] ps[j]).user.id as int)
    &&& forall|j: int|
        0 <= j < ps.len() ==> profit_total(results, (#[trigger] ps[j]).user.id as int) != i64::MIN
}

/// The profit totals of the holders at the indices `firsts`.
pub open spec fn holder_totals(ps: Seq<PositionWithUser>, results: Seq<ResolveResult>, firsts: Seq<usize>) -> Seq<i64> {
    Seq::new(
        firsts.len(),
        |k: int| profit_total(results, ps[firsts[k] as int].user.id as int) as i64,
    )
}

/// The total profit the results bring the user with id `owner`.
fn total_profit(results: &Vec<ResolveResult>, owner: i32, Ghost(ps): Ghost<Seq<PositionWithUser>>, Ghost(j): Ghost<int>) -> (r: Currency)
    requires
        resolve_profits_fit(ps, results@),
        0 <= j < ps.len(),
        ps[j].user.id == owner,
    ensures
        r.0 == profit_total(results@, owner as int),
{
    let mut sum = Currency(0);
    let mut i: usize = 0;
    assert(results@.take(0) =~= Seq::<ResolveResult>::empty());
    while i < results.len()
        invariant
            i <= results@.len(),
            resolve_profits_fit(ps, results@),
            0 <= j < ps.len(),
            ps[j].user.id == owner,
            sum.0 == profit_total(results@.take(i as int), owner as int),
        decreases results@.len() - i,
    {
        let ghost next = results@.take(i as int + 1);
        assert(next.drop_last() =~= results@.take(i as int));
        assert(next.last() == results@[i as int]);
        let r = &results[i];
        if r.order.owner_id == owner as i64 {
            assert(fits_i64(results@[i as int].shares_price.0 - results@[i as int].fees.0));
            let p = r.profit();
            assert(prefixes_fit(results@, ps[j].user.id as int));
            assert(fits_i64(profit_total(results@.take(i as int + 1), ps[j].user.id as int)));
            sum = sum.add(p);
        }
        i = i + 1;
    }
    assert(results@.take(results@.len() as int) =~= results@);
    sum
}

/// The table shown when a market is resolved: `Name` and `Profit`, then one row per holder
/// (each user once, in order of their first position) with their total profit, highest first
/// and equal profits in that order.
pub fn resolve_profit_rows(positions: &Vec<PositionWithUser>, results: &Vec<ResolveResult>) -> (r:
    Vec<[String; 2]>)
    requires
        resolve_profits_fit(positions@, results@),
    ensures
        exists|firsts: Seq<usize>, order: Seq<usize>|
            {
                &&& is_first_occurrences(position_user_ids(positions@), firsts)
                &&& is_descending_ranking(holder_totals(positions@, results@, firsts), order)
                &&& r@.len() == order.len() + 1
                &&& r@[0]@[0]@ == "Name"@
                &&& r@[0]@[1]@ == "Profit"@
                &&& forall|i: int|
                    0 <= i < order.len() ==> {
                        let p = positions@[firsts[order[i] as int] as int];
                        &&& (#[trigger] r@[i + 1])@[0]@ == p.user.name@
                        &&& r@[i + 1]@[1]@ == currency_text(profit_total(results@, p.user.id as int))
                    }
            },
{
    let mut ids: Vec<i64> = Vec::new();
    let mut j: usize = 0;
    while j < positions.len()
        invariant
            j <= positions@.len(),
            ids@ == position_user_ids(positions@).take(j as int),
        decreases positions@.len() - j,
    {
        ids.push(positions[j].user.id as i64);
        assert(ids@ =~= position_user_ids(positions@).take(j as int + 1));
        j = j + 1;
    }
    assert(ids@ =~= position_user_ids(positions@));
    let firsts = first_occurrences(&ids);
    let mut totals: Vec<i64> = Vec::new();
    let mut k: usize = 0;
    while k < firsts.len()
        invariant
            k <= firsts@.len(),
            ids@ == position_user_ids(positions@),
            is_first_occurrences(ids@, firsts@),
            resolve_profits_fit(positions@, results@),
            totals@ == holder_totals(positions@, results@, firsts@).take(k as int),
        decreases firsts@.len() - k,
    {
        let f = firsts[k];
        assert(firsts@[k as int] < ids@.len());
        let t = total_profit(results, positions[f].user.id, Ghost(positions@), Ghost(f as int));
        totals.push(t.0);
        assert(totals@ =~= holder_totals(positions@, results@, firsts@).take(k as int + 1));
        k = k + 1;
    }
    assert(totals@ =~= holder_totals(positions@, results@, firsts@));
    let order = rank_descending(&totals);
    let mut rows: Vec<[String; 2]> = Vec::new();
    rows.push([string_from("Name"), string_from("Profit")]);
    let mut i: usize = 0;
    while i < order.len()
        invariant
            i <= order@.len(),
            ids@ == position_user_ids(positions@),
            is_first_occurrences(ids@, firsts@),
            resolve_profits_fit(positions@, results@),
            totals@ == holder_totals(positions@, results@, firsts@),
            is_descending_ranking(totals@, order@),
            rows@.len() == i + 1,
            rows@[0]@[0]@ == "Name"@,
            rows@[0]@[1]@ == "Profit"@,
            forall|m: int|
                0 <= m < i ==> {
                    let p = positions@[firsts@[order@[m] as int] as int];
                    &&& (#[trigger] rows@[m + 1])@[0]@ == p.user.name@
                    &&& rows@[m + 1]@[1]@ == currency_text(profit_total(results@, p.user.id as int))
                },
        decreases order@.len() - i,
    {
        let o = order[i];
        assert(order@[i as int] < totals@.len());
        let f = firsts[o];
        assert(firsts@[o as int] < ids@.len());
        let p = &positions[f];
        let total = Currency(totals[o]);
        proof {
            let n = results@.len() as int;
            assert(results@.take(n) =~= results@);
            assert(prefixes_fit(results@, positions@[f as int].user.id as int));
            assert(fits_i64(profit_total(results@.take(n), positions@[f as int].user.id as int)));
            assert(totals@[o as int] == holder_totals(positions@, results@, firsts@)[o as int]);
        }
        assert(total.0 == profit_total(results@, p.user.id as int));
        let row = [p.user.name.clone(), total.to_string()];
        rows.push(row);
        i = i + 1;
    }
    rows
}

/// The message of a resolved market: `Market #0042 resolved.`, a newline, and the table.
pub fn resolved_message(market_id: i64, table: &str) -> (r: String)
    ensures
        r@ == "Market "@ + market_id_text(market_id) + " resolved.\n"@ + table@,
{
    let mut r = string_from("Market ");
    append_str(&mut r, format_market_id(market_id).as_str());
    append_str(&mut r, " resolved.\n");
    append_str(&mut r, table);
    r
}

/// Whether the profit table of a resolution can be worked out within 64 bits.
pub fn resolve_profits_computable(positions: &Vec<PositionWithUser>, results: &Vec<ResolveResult>) -> (r:
    bool)
    ensures
        r == resolve_profits_fit(positions@, results@),
{
    let mut i: usize = 0;
    while i < results.len()
        invariant
            i <= results@.len(),
            forall|m: int|
                0 <= m < i ==> fits_i64((#[trigger] results@[m]).shares_price.0 - results@[m].fees.0)
                    && fits_i64(resolve_profit(results@[m])),
        decreases results@.len() - i,
    {
        let r = &results[i];
        let net: i128 = r.shares_price.0 as i128 - r.fees.0 as i128;
        let profit: i128 = net - r.cost_basis.0 as i128;
        if net < i64::MIN as i128 || net > i64::MAX as i128 || profit < i64::MIN as i128 || profit
            > i64::MAX as i128 {
            assert(!(fits_i64(results@[i as int].shares_price.0 - results@[i as int].fees.0)
                && fits_i64(resolve_profit(results@[i as int]))));
            return false;
        }
        i = i + 1;
    }
    let mut j: usize = 0;
    while j < positions.len()
        invariant
            j <= positions@.len(),
            forall|m: int|
                0 <= m < j ==> prefixes_fit(results@, (#[trigger] positions@[m]).user.id as int)
                    && profit_total(results@, positions@[m].user.id as int) != i64::MIN,
        decreases positions@.len() - j,
    {
        let owner = positions[j].user.id;
        let ghost o = owner as int;
        let mut sum: i128 = 0;
        let mut k: usize = 0;
        assert(results@.take(0) =~= Seq::<ResolveResult>::empty());
        while k < results.len()
            invariant
                k <= results@.len(),
                j < positions@.len(),
                o == positions@[j as int].user.id as int,
                owner as int == o,
                sum == profit_total(results@.take(k as int), o),
                forall|m: int| 0 <= m <= k ==> fits_i64(#[trigger] profit_total(results@.take(m), o)),
            decreases results@.len() - k,
        {
            let ghost next = results@.take(k as int + 1);
            assert(next.drop_last() =~= results@.take(k as int));
            assert(next.last() == results@[k as int]);
            let r = &results[k];
            if r.order.owner_id == owner as i64 {
                sum = sum + (r.shares_price.0 as i128 - r.fees.0 as i128 - r.cost_basis.0 as i128);
            }
            if sum < i64::MIN as i128 || sum > i64::MAX as i128 {
                assert(!fits_i64(profit_total(results@.take(k as int + 1), o)));
                assert(!prefixes_fit(results@, positions@[j as int].user.id as int));
                return false;
            }
            k = k + 1;
        }
        assert(results@.take(results@.len() as int) =~= results@);
        if sum == i64::MIN as i128 {
            return false;
        }
        j = j + 1;
    }
    true
}

} // verus!
