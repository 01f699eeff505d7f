//! A user's portfolio: where their money came from and what their positions are worth.

use vstd::prelude::*;
use crate::currency::{Currency, currency_text, fits_i64};
use crate::store::{
    DbUser, InstrumentWithShares, PositionWithMarketId, TransferDirection, TransferSource,
    UserTransfersBySourceAndDirection,
};
use crate::text::string_from;
use crate::table::{row_view, table_view};

verus! {

/// The total of `user_id`'s transfers of this source in this direction: the amount of the
/// last row for that key, or zero when there is none.
pub open spec fn transfer_amount(
    rows: Seq<UserTransfersBySourceAndDirection>,
    user_id: i32,
    source: TransferSource,
    direction: TransferDirection,
) -> int
    decreases rows.len(),
{
    if rows.len() == 0 {
        0
    } else if rows.last().user.id == user_id && rows.last().source == source
        && rows.last().direction == direction {
        rows.last().amount.0 as int
    } else {
        transfer_amount(rows.drop_last(), user_id, source, direction)
    }
}

/// Whether a transfer row belongs to the user, as a predicate.
pub open spec fn row_of(user_id: i32) -> spec_fn(UserTransfersBySourceAndDirection) -> bool {
    |row: UserTransfersBySourceAndDirection| row.user.id == user_id
}

/// A row of another user never changes a user's transfer totals.
pub proof fn lemma_transfer_amount_other_row(
    rows: Seq<UserTransfersBySourceAndDirection>,
    row: UserTransfersBySourceAndDirection,
    user_id: i32,
    source: TransferSource,
    direction: TransferDirection,
)
    requires
        row.user.id != user_id,
    ensures
        transfer_amount(rows.push(row), user_id, source, direction) == transfer_amount(
            rows,
            user_id,
            source,
            direction,
        ),
{
    assert(rows.push(row).drop_last() =~= rows);
}

/// A user's transfer totals depend only on that user's own rows.
pub proof fn lemma_transfer_amount_own_rows(
    rows: Seq<UserTransfersBySourceAndDirection>,
    user_id: i32,
    source: TransferSource,
    direction: TransferDirection,
)
    ensures
        transfer_amount(rows, user_id, source, direction) == transfer_amount(
            rows.filter(row_of(user_id)),
            user_id,
            source,
            direction,
        ),
    decreases rows.len(),
{
    reveal(Seq::filter);
    if rows.len() > 0 {
        lemma_transfer_amount_own_rows(rows.drop_last(), user_id, source, direction);
        let mine = rows.drop_last().filter(row_of(user_id));
        if rows.last().user.id == user_id {
            assert(rows.filter(row_of(user_id)) == mine.push(rows.last()));
            assert(mine.push(rows.last()).drop_last() =~= mine);
        } else {
            assert(rows.filter(row_of(user_id)) == mine);
        }
    }
}

/// A user's portfolio is built from that user's own transfer rows alone: the other users'
/// rows that the commands pass along change nothing in it.
pub proof fn lemma_portfolio_own_rows(
    user: DbUser,
    rows: Seq<UserTransfersBySourceAndDirection>,
    positions_value: Currency,
)
    ensures
        portfolio_of(user, rows, positions_value) == portfolio_of(
            user,
            rows.filter(row_of(user.id)),
            positions_value,
        ),
{
    assert forall|source: TransferSource, direction: TransferDirection|
        #[trigger] transfer_amount(rows, user.id, source, direction) == transfer_amount(
            rows.filter(row_of(user.id)),
            user.id,
            source,
            direction,
        ) by {
        lemma_transfer_amount_own_rows(rows, user.id, source, direction);
    }
}

/// Whether every sum of a debit and a credit of the same user and source fits in 64 bits.
pub open spec fn transfer_sums_fit(rows: Seq<UserTransfersBySourceAndDirection>, user_id: i32) -> bool {
    forall|source: TransferSource|
        #![trigger transfer_amount(rows, user_id, source, TransferDirection::Credit)]
        fits_i64(
            transfer_amount(rows, user_id, source, TransferDirection::Credit) + transfer_amount(
                rows,
                user_id,
                source,
                TransferDirection::Debit,
            ),
        )
}

/// The amount of the last row for this user, source and direction, or zero.
fn find_transfer_amount(
    rows: &Vec<UserTransfersBySourceAndDirection>,
    user_id: i32,
    source: TransferSource,
    direction: TransferDirection,
) -> (r: Currency)
    ensures
        r.0 == transfer_amount(rows@, user_id, source, direction),
{
    let mut i = rows.len();
    assert(rows@.take(i as int) =~= rows@);
    while i > 0
        invariant
            i <= rows@.len(),
            transfer_amount(rows@, user_id, source, direction) == transfer_amount(
                rows@.take(i as int),
                user_id,
                source,
                direction,
            ),
        decreases i,
    {
        let ghost prefix = rows@.take(i as int);
        assert(prefix.drop_last() =~= rows@.take(i as int - 1));
        let row = &rows[i - 1];
        if row.user.id == user_id && row.source == source && row.direction == direction {
            return row.amount;
        }
        i = i - 1;
    }
    Currency(0)
}

/// A user's debits, credits, and their sum, for transfers of one source.
pub fn get_transfer_value(
    net_transfers: &Vec<UserTransfersBySourceAndDirection>,
    source: TransferSource,
    user: &DbUser,
) -> (r: (Currency, Currency, Currency))
    requires
        fits_i64(
            transfer_amount(net_transfers@, user.id, source, TransferDirection::Credit)
                + transfer_amount(net_transfers@, user.id, source, TransferDirection::Debit),
        ),
    ensures
        r.0.0 == transfer_amount(net_transfers@, user.id, source, TransferDirection::Debit),
        r.1.0 == transfer_amount(net_transfers@, user.id, source, TransferDirection::Credit),
        r.2.0 == r.1.0 + r.0.0,
{
    let credit = find_transfer_amount(net_transfers, user.id, source, TransferDirection::Credit);
    let debit = find_transfer_amount(net_transfers, user.id, source, TransferDirection::Debit);
    (debit, credit, credit.add(debit))
}

/// A user's portfolio broken down by where the money came from.
#[derive(Debug, Clone, PartialEq, Eq)]
pub struct PortfolioValue {
    pub user: DbUser,
    pub net_deposits: Currency,
    pub trades_profit: Currency,
    pub fees_profit: Currency,
    pub gambling_winnings: Currency,
    pub tips_received: Currency,
    pub tips_sent: Currency,
    pub transfers_received: Currency,
    pub transfers_sent: Currency,
    pub positions_value: Currency,
}

/// The net of a user's transfers of one source.
pub open spec fn net_of(rows: Seq<UserTransfersBySourceAndDirection>, user_id: i32, source: TransferSource) -> int {
    transfer_amount(rows, user_id, source, TransferDirection::Credit) + transfer_amount(
        rows,
        user_id,
        source,
        TransferDirection::Debit,
    )
}

/// The portfolio `PortfolioValue::new` builds for `user` from the transfer totals `rows` and
/// the value of their positions.
pub open spec fn portfolio_of(
    user: DbUser,
    rows: Seq<UserTransfersBySourceAndDirection>,
    positions_value: Currency,
) -> PortfolioValue {
    PortfolioValue {
        user,
        net_deposits: Currency(net_of(rows, user.id, TransferSource::Deposit) as i64),
        trades_profit: Currency(net_of(rows, user.id, TransferSource::Order) as i64),
        fees_profit: Currency(net_of(rows, user.id, TransferSource::TradeFee) as i64),
        gambling_winnings: Currency(net_of(rows, user.id, TransferSource::Gambling) as i64),
        tips_received: Currency(
            transfer_amount(rows, user.id, TransferSource::MessageTip, TransferDirection::Credit)
                as i64,
        ),
        tips_sent: Currency(
            transfer_amount(rows, user.id, TransferSource::MessageTip, TransferDirection::Debit)
                as i64,
        ),
        transfers_received: Currency(
            transfer_amount(rows, user.id, TransferSource::UserInitiated, TransferDirection::Credit)
                as i64,
        ),
        transfers_sent: Currency(
            transfer_amount(rows, user.id, TransferSource::UserInitiated, TransferDirection::Debit)
                as i64,
        ),
        positions_value,
    }
}

/// A portfolio's row of the table: name, cash, money put in, positions and trading profit.
pub open spec fn table_row(p: PortfolioValue) -> Seq<Seq<char>> {
    seq![
        p.user.name@,
        currency_text(p.user.cash_balance.0 as int),
        currency_text(p.net_deposits.0 + p.transfers_received.0 + p.transfers_sent.0),
        currency_text(p.positions_value.0 as int),
        currency_text(p.trades_profit.0 + p.fees_profit.0 + p.positions_value.0),
    ]
}

impl PortfolioValue {
    /// The portfolio of `user`, from the per-user transfer totals and the value of their
    /// positions (what selling them all now would yield).
    pub fn new(
        user: DbUser,
        net_transfers: &Vec<UserTransfersBySourceAndDirection>,
        positions_value: Currency,
    ) -> (r: PortfolioValue)
        requires
            transfer_sums_fit(net_transfers@, user.id),
        ensures
            r.user == user,
            r.net_deposits.0 == net_of(net_transfers@, user.id, TransferSource::Deposit),
            r.trades_profit.0 == net_of(net_transfers@, user.id, TransferSource::Order),
            r.fees_profit.0 == net_of(net_transfers@, user.id, TransferSource::TradeFee),
            r.transfers_sent.0 == transfer_amount(
                net_transfers@,
                user.id,
                TransferSource::UserInitiated,
                TransferDirection::Debit,
            ),
            r.transfers_received.0 == transfer_amount(
                net_transfers@,
                user.id,
                TransferSource::UserInitiated,
                TransferDirection::Credit,
            ),
            r.gambling_winnings.0 == net_of(net_transfers@, user.id, TransferSource::Gambling),
            r.tips_sent.0 == transfer_amount(
                net_transfers@,
                user.id,
                TransferSource::MessageTip,
                TransferDirection::Debit,
            ),
            r.tips_received.0 == transfer_amount(
                net_transfers@,
                user.id,
                TransferSource::MessageTip,
                TransferDirection::Credit,
            ),
            r.positions_value == positions_value,
            r == portfolio_of(user, net_transfers@, positions_value),
    {
        let ghost rows = net_transfers@;
        proof {
            assert(fits_i64(net_of(rows, user.id, TransferSource::Deposit)));
            assert(fits_i64(net_of(rows, user.id, TransferSource::Order)));
            assert(fits_i64(net_of(rows, user.id, TransferSource::TradeFee)));
            assert(fits_i64(net_of(rows, user.id, TransferSource::UserInitiated)));
            assert(fits_i64(net_of(rows, user.id, TransferSource::Gambling)));
            assert(fits_i64(net_of(rows, user.id, TransferSource::MessageTip)));
        }
        let (_, _, net_deposits) = get_transfer_value(net_transfers, TransferSource::Deposit, &user);
        let (_, _, trades_profit) = get_transfer_value(net_transfers, TransferSource::Order, &user);
        let (_, _, fees_profit) = get_transfer_value(net_transfers, TransferSource::TradeFee, &user);
        let (transfers_sent, transfers_received, _) = get_transfer_value(
            net_transfers,
            TransferSource::UserInitiated,
            &user,
        );
        let (_, _, gambling_winnings) = get_transfer_value(
            net_transfers,
            TransferSource::Gambling,
            &user,
        );
        let (tips_sent, tips_received, _) = get_transfer_value(
            net_transfers,
            TransferSource::MessageTip,
            &user,
        );
        PortfolioValue {
            user,
            net_deposits,
            trades_profit,
            fees_profit,
            positions_value,
            gambling_winnings,
            tips_received,
            tips_sent,
            transfers_received,
            transfers_sent,
        }
    }

    /// Profit from trading: trade proceeds, fees earned, and what the open positions are
    /// worth.
    pub fn net_profit(&self) -> (r: Currency)
        requires
            fits_i64(self.trades_profit.0 + self.fees_profit.0),
            fits_i64(self.trades_profit.0 + self.fees_profit.0 + self.positions_value.0),
        ensures
            r.0 == self.trades_profit.0 + self.fees_profit.0 + self.positions_value.0,
    {
        self.trades_profit.add(self.fees_profit).add(self.positions_value)
    }

    /// Cash plus what the open positions are worth.
    pub fn net_worth(&self) -> (r: Currency)
        requires
            fits_i64(self.user.cash_balance.0 + self.positions_value.0),
        ensures
            r.0 == self.user.cash_balance.0 + self.positions_value.0,
    {
        self.user.cash_balance.add(self.positions_value)
    }

    /// Money put in: deposits and the net of transfers with other users.
    pub fn deposits(&self) -> (r: Currency)
        requires
            fits_i64(self.net_deposits.0 + self.transfers_received.0),
            fits_i64(self.net_deposits.0 + self.transfers_received.0 + self.transfers_sent.0),
        ensures
            r.0 == self.net_deposits.0 + self.transfers_received.0 + self.transfers_sent.0,
    {
        self.net_deposits.add(self.transfers_received).add(self.transfers_sent)
    }

    /// The header of the portfolio table.
    pub fn table_header() -> (r: [String; 5])
        ensures
            r@[0]@ == "User"@,
            r@[1]@ == "Balance"@,
            r@[2]@ == "Deposits"@,
            r@[3]@ == "Positions"@,
            r@[4]@ == "Profit"@,
    {
        [
            string_from("User"),
            string_from("Balance"),
            string_from("Deposits"),
            string_from("Positions"),
            string_from("Profit"),
        ]
    }

    /// The user's row of the portfolio table: name, cash, deposits, positions and profit.
    pub fn to_table_row(&self) -> (r: [String; 5])
        requires
            self.user.cash_balance.0 != i64::MIN,
            self.positions_value.0 != i64::MIN,
            fits_i64(self.net_deposits.0 + self.transfers_received.0),
            fits_i64(self.net_deposits.0 + self.transfers_received.0 + self.transfers_sent.0),
            self.net_deposits.0 + self.transfers_received.0 + self.transfers_sent.0 != i64::MIN,
            fits_i64(self.trades_profit.0 + self.fees_profit.0),
            fits_i64(self.trades_profit.0 + self.fees_profit.0 + self.positions_value.0),
            self.trades_profit.0 + self.fees_profit.0 + self.positions_value.0 != i64::MIN,
        ensures
            r@[0]@ == self.user.name@,
            r@[1]@ == currency_text(self.user.cash_balance.0 as int),
            r@[2]@ == currency_text(
                self.net_deposits.0 + self.transfers_received.0 + self.transfers_sent.0,
            ),
            r@[3]@ == currency_text(self.positions_value.0 as int),
            r@[4]@ == currency_text(
                self.trades_profit.0 + self.fees_profit.0 + self.positions_value.0,
            ),
            r@.map_values(|t: String| t@) == table_row(*self),
    {
        let r = [
            self.user.name.clone(),
            self.user.cash_balance.to_string(),
            self.deposits().to_string(),
            self.positions_value.to_string(),
            self.net_profit().to_string(),
        ];
        assert(r@.map_values(|t: String| t@) =~= table_row(*self));
        r
    }
}

/// The breakdown of a portfolio, row by row: each source of money, then cash, positions and
/// net worth, with blank rows between the groups.
pub open spec fn breakdown_table(p: PortfolioValue) -> Seq<Seq<Seq<char>>> {
    seq![
        seq!["Trades"@, currency_text(p.trades_profit.0 as int)],
        seq!["Fees"@, currency_text(p.fees_profit.0 as int)],
        seq!["Tips (in)"@, currency_text(p.tips_received.0 as int)],
        seq!["Tips (out)"@, currency_text(p.tips_sent.0 as int)],
        seq!["Ctransfers (in)"@, currency_text(p.transfers_received.0 as int)],
        seq!["Ctransfers (out)"@, currency_text(p.transfers_sent.0 as int)],
        seq!["Gambling"@, currency_text(p.gambling_winnings.0 as int)],
        seq!["Deposits"@, currency_text(p.net_deposits.0 as int)],
        seq![Seq::<char>::empty(), Seq::<char>::empty()],
        seq!["Cash"@, currency_text(p.user.cash_balance.0 as int)],
        seq!["Positions"@, currency_text(p.positions_value.0 as int)],
        seq![Seq::<char>::empty(), Seq::<char>::empty()],
        seq!["Net worth"@, currency_text(p.user.cash_balance.0 + p.positions_value.0)],
    ]
}

/// Whether every figure of the breakdown can be written out.
pub open spec fn breakdown_fits(p: PortfolioValue) -> bool {
    &&& p.trades_profit.0 != i64::MIN
    &&& p.fees_profit.0 != i64::MIN
    &&& p.tips_received.0 != i64::MIN
    &&& p.tips_sent.0 != i64::MIN
    &&& p.transfers_received.0 != i64::MIN
    &&& p.transfers_sent.0 != i64::MIN
    &&& p.gambling_winnings.0 != i64::MIN
    &&& p.net_deposits.0 != i64::MIN
    &&& p.user.cash_balance.0 != i64::MIN
    &&& p.positions_value.0 != i64::MIN
    &&& fits_i64(p.user.cash_balance.0 + p.positions_value.0)
    &&& p.user.cash_balance.0 + p.positions_value.0 != i64::MIN
}

fn labelled(label: &str, value: Currency) -> (r: [String; 2])
    requires
        value.0 != i64::MIN,
    ensures
        row_view(r) == seq![label@, currency_text(value.0 as int)],
{
    let r = [string_from(label), value.to_string()];
    assert(row_view(r) =~= seq![label@, currency_text(value.0 as int)]);
    r
}

impl PortfolioValue {
    /// Whether every figure of the breakdown can be written out.
    pub fn breakdown_computable(&self) -> (r: bool)
        ensures
            r == breakdown_fits(*self),
    {
        let worth: i128 = self.user.cash_balance.0 as i128 + self.positions_value.0 as i128;
        self.trades_profit.0 != i64::MIN && self.fees_profit.0 != i64::MIN
            && self.tips_received.0 != i64::MIN && self.tips_sent.0 != i64::MIN
            && self.transfers_received.0 != i64::MIN && self.transfers_sent.0 != i64::MIN
            && self.gambling_winnings.0 != i64::MIN && self.net_deposits.0 != i64::MIN
            && self.user.cash_balance.0 != i64::MIN && self.positions_value.0 != i64::MIN
            && (i64::MIN as i128) < worth && worth <= i64::MAX as i128
    }

    /// The rows of the portfolio breakdown shown to a user.
    #[verifier::spinoff_prover]
    pub fn breakdown_rows(&self) -> (r: Vec<[String; 2]>)
        requires
            breakdown_fits(*self),
        ensures
            table_view(r@) == breakdown_table(*self),
    {
        let blank = [String::new(), String::new()];
        assert(row_view(blank) =~= seq![Seq::<char>::empty(), Seq::<char>::empty()]);
        let blank2 = [String::new(), String::new()];
        assert(row_view(blank2) =~= seq![Seq::<char>::empty(), Seq::<char>::empty()]);
        let rows = vec![
            labelled("Trades", self.trades_profit),
            labelled("Fees", self.fees_profit),
            labelled("Tips (in)", self.tips_received),
            labelled("Tips (out)", self.tips_sent),
            labelled("Ctransfers (in)", self.transfers_received),
            labelled("Ctransfers (out)", self.transfers_sent),
            labelled("Gambling", self.gambling_winnings),
            labelled("Deposits", self.net_deposits),
            blank,
            labelled("Cash", self.user.cash_balance),
            labelled("Positions", self.positions_value),
            blank2,
            labelled("Net worth", self.net_worth()),
        ];
        assert(table_view(rows@) =~= breakdown_table(*self));
        rows
    }
}

/// A user's row of the portfolio table, for the portfolio built from the transfer totals and
/// the positions' value: their name, their cash, deposits with the net of transfers with other
/// users, the positions' value, and trades and fees with the positions' value.
pub proof fn lemma_portfolio_row(
    user: DbUser,
    rows: Seq<UserTransfersBySourceAndDirection>,
    positions_value: Currency,
)
    requires
        transfer_sums_fit(rows, user.id),
    ensures
        table_row(portfolio_of(user, rows, positions_value)) == seq![
            user.name@,
            currency_text(user.cash_balance.0 as int),
            currency_text(
                net_of(rows, user.id, TransferSource::Deposit) + transfer_amount(
                    rows,
                    user.id,
                    TransferSource::UserInitiated,
                    TransferDirection::Credit,
                ) + transfer_amount(
                    rows,
                    user.id,
                    TransferSource::UserInitiated,
                    TransferDirection::Debit,
                ),
            ),
            currency_text(positions_value.0 as int),
            currency_text(
                net_of(rows, user.id, TransferSource::Order) + net_of(
                    rows,
                    user.id,
                    TransferSource::TradeFee,
                ) + positions_value.0,
            ),
        ],
{
    let c = TransferDirection::Credit;
    let d = TransferDirection::Debit;
    lemma_transfer_amount_fits(rows, user.id, TransferSource::UserInitiated, c);
    lemma_transfer_amount_fits(rows, user.id, TransferSource::UserInitiated, d);
    assert(fits_i64(transfer_amount(rows, user.id, TransferSource::Deposit, c) + transfer_amount(
        rows,
        user.id,
        TransferSource::Deposit,
        d,
    )));
    assert(fits_i64(transfer_amount(rows, user.id, TransferSource::Order, c) + transfer_amount(
        rows,
        user.id,
        TransferSource::Order,
        d,
    )));
    assert(fits_i64(transfer_amount(rows, user.id, TransferSource::TradeFee, c) + transfer_amount(
        rows,
        user.id,
        TransferSource::TradeFee,
        d,
    )));
}

/// With the positions valued by `positions_total` from their sale totals, a user's row shows
/// the sum of those totals as the positions' value, and adds it to trades and fees as profit.
pub proof fn lemma_portfolio_row_from_sales(
    user: DbUser,
    rows: Seq<UserTransfersBySourceAndDirection>,
    sale_totals: Seq<Currency>,
)
    requires
        transfer_sums_fit(rows, user.id),
        sums_fit(sale_totals),
    ensures
        ({
            let total = sum_upto(sale_totals, sale_totals.len() as int);
            let row = table_row(portfolio_of(user, rows, Currency(total as i64)));
            &&& row[3] == currency_text(total)
            &&& row[4] == currency_text(
                net_of(rows, user.id, TransferSource::Order) + net_of(
                    rows,
                    user.id,
                    TransferSource::TradeFee,
                ) + total,
            )
        }),
{
    let total = sum_upto(sale_totals, sale_totals.len() as int);
    assert(fits_i64(sum_upto(sale_totals, sale_totals.len() as int)));
    lemma_portfolio_row(user, rows, Currency(total as i64));
}

proof fn lemma_transfer_amount_fits(
    rows: Seq<UserTransfersBySourceAndDirection>,
    user_id: i32,
    source: TransferSource,
    direction: TransferDirection,
)
    ensures
        fits_i64(transfer_amount(rows, user_id, source, direction)),
    decreases rows.len(),
{
    if rows.len() > 0 {
        lemma_transfer_amount_fits(rows.drop_last(), user_id, source, direction);
    }
}

/// Why a portfolio could not be valued: one of its positions lies in a market that has no open
/// instrument to price it with.
#[derive(Debug, Clone, Copy, PartialEq, Eq, Hash, Structural)]
pub struct MissingShares {
    pub market_id: i64,
}

impl MissingShares {
    /// The message that explains the refusal.
    pub fn message(&self) -> (r: String)
        ensures
            r@ == "could not find shares for market "@ + crate::text::signed_decimal(
                self.market_id as int,
            ) + " when calculating portfolio value"@,
    {
        let mut m = string_from("could not find shares for market ");
        crate::text::append_str(&mut m, crate::text::i64_to_decimal(self.market_id).as_str());
        crate::text::append_str(&mut m, " when calculating portfolio value");
        m
    }
}

/// Whether some open instrument belongs to the market.
pub open spec fn market_has_shares(instruments: Seq<InstrumentWithShares>, market_id: i64) -> bool {
    exists|j: int| 0 <= j < instruments.len() && (#[trigger] instruments[j]).0.market_id == market_id
}

/// The sum of the first `n` amounts.
pub open spec fn sum_upto(values: Seq<Currency>, n: int) -> int
    decreases n,
{
    if n <= 0 || n > values.len() {
        0
    } else {
        sum_upto(values, n - 1) + values[n - 1].0
    }
}

/// Whether every running sum of the amounts fits in 64 bits.
pub open spec fn sums_fit(values: Seq<Currency>) -> bool {
    forall|n: int| 0 <= n <= values.len() ==> fits_i64(#[trigger] sum_upto(values, n))
}

/// The first position, from `k` on, whose market has no open instrument.
pub open spec fn first_missing(
    positions: Seq<PositionWithMarketId>,
    instruments: Seq<InstrumentWithShares>,
    k: int,
) -> Option<int>
    decreases positions.len() - k,
{
    if k < 0 || k >= positions.len() {
        None
    } else if !market_has_shares(instruments, positions[k].market_id) {
        Some(k)
    } else {
        first_missing(positions, instruments, k + 1)
    }
}

/// Whether every running sum of `values` fits in 64 bits.
pub fn sale_totals_fit(values: &Vec<Currency>) -> (r: bool)
    ensures
        r == sums_fit(values@),
{
    let mut acc: i128 = 0;
    let mut i: usize = 0;
    while i < values.len()
        invariant
            i <= values@.len(),
            acc == sum_upto(values@, i as int),
            forall|n: int| 0 <= n <= i ==> fits_i64(#[trigger] sum_upto(values@, n)),
        decreases values@.len() - i,
    {
        acc = acc + values[i].0 as i128;
        i = i + 1;
        if acc < i64::MIN as i128 || acc > i64::MAX as i128 {
            assert(!fits_i64(sum_upto(values@, i as int)));
            return false;
        }
    }
    true
}

/// Whether an open instrument of the market exists.
fn has_shares(instruments: &Vec<InstrumentWithShares>, market_id: i64) -> (r: bool)
    ensures
        r == market_has_shares(instruments@, market_id),
{
    let mut j: usize = 0;
    while j < instruments.len()
        invariant
            j <= instruments@.len(),
            forall|m: int| 0 <= m < j ==> (#[trigger] instruments@[m]).0.market_id != market_id,
        decreases instruments@.len() - j,
    {
        if instruments[j].0.market_id == market_id {
            assert(instruments@[j as int].0.market_id == market_id);
            return true;
        }
        j = j + 1;
    }
    false
}

/// What a user's positions are worth together, given what selling each would yield now
/// (`sale_totals[k]` for `positions[k]`): their sum, or the first position whose market has no
/// open instrument to price it with.
pub fn positions_total(
    positions: &Vec<PositionWithMarketId>,
    instruments: &Vec<InstrumentWithShares>,
    sale_totals: &Vec<Currency>,
) -> (r: Result<Currency, MissingShares>)
    requires
        sale_totals@.len() == positions@.len(),
        sums_fit(sale_totals@),
    ensures
        match first_missing(positions@, instruments@, 0) {
            Some(k) => r == Err::<Currency, MissingShares>(
                MissingShares { market_id: positions@[k].market_id },
            ),
            None => r matches Ok(v) && v.0 == sum_upto(sale_totals@, positions@.len() as int),
        },
{
    let mut acc: i64 = 0;
    let mut k: usize = 0;
    while k < positions.len()
        invariant
            k <= positions@.len(),
            sale_totals@.len() == positions@.len(),
            sums_fit(sale_totals@),
            acc == sum_upto(sale_totals@, k as int),
            first_missing(positions@, instruments@, 0) == first_missing(
                positions@,
                instruments@,
                k as int,
            ),
        decreases positions@.len() - k,
    {
        let market_id = positions[k].market_id;
        if !has_shares(instruments, market_id) {
            return Err(MissingShares { market_id });
        }
        assert(fits_i64(sum_upto(sale_totals@, k as int + 1)));
        acc = acc + sale_totals[k].0;
        k = k + 1;
    }
    Ok(Currency(acc))
}

/// Whether every sum of a user's debits and credits of one source fits in 64 bits.
pub fn transfer_sums_computable(rows: &Vec<UserTransfersBySourceAndDirection>, user_id: i32) -> (r:
    bool)
    ensures
        r == transfer_sums_fit(rows@, user_id),
{
    let sources = [
        TransferSource::Unknown,
        TransferSource::Deposit,
        TransferSource::UserInitiated,
        TransferSource::Order,
        TransferSource::TradeFee,
        TransferSource::Gambling,
        TransferSource::MessageTip,
    ];
    let mut i: usize = 0;
    while i < 7
        invariant
            i <= 7,
            sources@ == seq![
                TransferSource::Unknown,
                TransferSource::Deposit,
                TransferSource::UserInitiated,
                TransferSource::Order,
                TransferSource::TradeFee,
                TransferSource::Gambling,
                TransferSource::MessageTip,
            ],
            forall|k: int|
                0 <= k < i ==> fits_i64(
                    transfer_amount(rows@, user_id, #[trigger] sources@[k], TransferDirection::Credit)
                        + transfer_amount(rows@, user_id, sources@[k], TransferDirection::Debit),
                ),
        decreases 7 - i,
    {
        let source = sources[i];
        let credit = find_transfer_amount(rows, user_id, source, TransferDirection::Credit);
        let debit = find_transfer_amount(rows, user_id, source, TransferDirection::Debit);
        let sum: i128 = credit.0 as i128 + debit.0 as i128;
        if sum < i64::MIN as i128 || sum > i64::MAX as i128 {
            assert(!fits_i64(
                transfer_amount(rows@, user_id, source, TransferDirection::Credit) + transfer_amount(
                    rows@,
                    user_id,
                    source,
                    TransferDirection::Debit,
                ),
            ));
            return false;
        }
        i = i + 1;
    }
    assert forall|source: TransferSource| #![trigger transfer_amount(rows@, user_id, source, TransferDirection::Credit)]
        fits_i64(
            transfer_amount(rows@, user_id, source, TransferDirection::Credit) + transfer_amount(
                rows@,
                user_id,
                source,
                TransferDirection::Debit,
            ),
        ) by {
        let k: int = match source {
            TransferSource::Unknown => 0,
            TransferSource::Deposit => 1,
            TransferSource::UserInitiated => 2,
            TransferSource::Order => 3,
            TransferSource::TradeFee => 4,
            TransferSource::Gambling => 5,
            TransferSource::MessageTip => 6,
        };
        assert(sources@[k] == source);
    }
    true
}

} // verus!
