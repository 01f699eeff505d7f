use catshi::blackjack::{Blackjack, BlackjackAction, Deck, RngDeck};
use catshi::cards::Card;
use catshi::currency::Currency;
use catshi::portfolio::{positions_total, sale_totals_fit, MissingShares, PortfolioValue};
use catshi::store::{
    BlackjackState, DbUser, Instrument, InstrumentState, InstrumentWithShares, Position,
    PositionWithMarketId, TransferDirection, TransferSource, UserTransfersBySourceAndDirection,
};

fn user(id: i32, name: &str, cash: i64) -> DbUser {
    DbUser { id, discord_id: format!("d{id}"), name: name.to_string(), cash_balance: Currency::from(cash) }
}

fn position(market_id: i64, instrument_id: i64, quantity: i64) -> PositionWithMarketId {
    PositionWithMarketId {
        position: Position { id: 1, quantity, cost_basis: Currency::from(100), instrument_id, owner_id: 1 },
        market_id,
    }
}

fn instrument(id: i64, market_id: i64) -> InstrumentWithShares {
    (Instrument { id, name: format!("i{id}"), state: InstrumentState::Open, market_id }, 10)
}

#[test]
fn positions_total_sums_sale_totals() {
    let positions = vec![position(1, 10, 3), position(2, 20, 4)];
    let instruments = vec![instrument(10, 1), instrument(20, 2)];
    let totals = vec![Currency::from(1_500), Currency::from(2_250)];
    assert!(sale_totals_fit(&totals));
    assert_eq!(positions_total(&positions, &instruments, &totals), Ok(Currency::from(3_750)));
}

#[test]
fn positions_total_refuses_first_market_without_shares() {
    let positions = vec![position(1, 10, 3), position(7, 70, 4), position(8, 80, 1)];
    let instruments = vec![instrument(10, 1)];
    let totals = vec![Currency::from(1_500), Currency::from(0), Currency::from(0)];
    let r = positions_total(&positions, &instruments, &totals);
    assert_eq!(r, Err(MissingShares { market_id: 7 }));
    assert_eq!(
        r.unwrap_err().message(),
        "could not find shares for market 7 when calculating portfolio value"
    );
}

#[test]
fn positions_total_of_nothing_is_zero() {
    assert_eq!(positions_total(&vec![], &vec![], &vec![]), Ok(Currency::from(0)));
}

#[test]
fn sale_totals_that_overflow_are_caught() {
    assert!(!sale_totals_fit(&vec![Currency::from(i64::MAX), Currency::from(1)]));
    assert!(sale_totals_fit(&vec![Currency::from(i64::MAX), Currency::from(-1)]));
}

#[test]
fn portfolio_row_from_transfer_totals() {
    let u = user(1, "alice", 5_000);
    let row = |source, direction, amount| UserTransfersBySourceAndDirection {
        user: u.clone(),
        source,
        direction,
        amount: Currency::from(amount),
    };
    let rows = vec![
        row(TransferSource::Deposit, TransferDirection::Credit, 20_000),
        row(TransferSource::UserInitiated, TransferDirection::Credit, 1_000),
        row(TransferSource::UserInitiated, TransferDirection::Debit, -500),
        row(TransferSource::Order, TransferDirection::Credit, 3_000),
        row(TransferSource::Order, TransferDirection::Debit, -4_000),
        row(TransferSource::TradeFee, TransferDirection::Credit, 200),
    ];
    let pv = PortfolioValue::new(u, &rows, Currency::from(2_000));
    let r = pv.to_table_row();
    assert_eq!(r[0], "alice");
    assert_eq!(r[1], "5.000yp");
    assert_eq!(r[2], "20.500yp");
    assert_eq!(r[3], "2.000yp");
    assert_eq!(r[4], "1.200yp");
}

struct RiggedDeck {
    seq: Vec<Card>,
    idx: usize,
}

impl Deck for RiggedDeck {
    fn draw(&mut self) -> Card {
        let card = self.seq[self.idx];
        self.idx = (self.idx + 1) % self.seq.len();
        card
    }
}

#[test]
fn a_fifth_copy_is_sent_back_and_the_next_draw_dealt() {
    // Five kings are showing: the deck's king is refused and its next card dealt.
    let mut game = Blackjack {
        dealer: vec![Card::King, Card::King],
        player: vec![Card::King, Card::King, Card::King],
        staked: Currency::from(2),
        state: BlackjackState::Betting,
        deck: RiggedDeck { seq: vec![Card::King, Card::Numeric(3)], idx: 0 },
    };
    game.act(BlackjackAction::Hit).expect("hit is allowed");
    assert_eq!(game.player.last(), Some(&Card::Numeric(3)));
    assert_eq!(game.deck.idx, 0);
}

#[test]
fn a_deck_that_never_gives_an_allowed_card_gets_the_first_rank_under_its_limit() {
    let mut game = Blackjack {
        dealer: vec![Card::Ace, Card::Ace, Card::Ace],
        player: vec![Card::Ace, Card::Ace],
        staked: Currency::from(2),
        state: BlackjackState::Betting,
        deck: RiggedDeck { seq: vec![Card::Ace], idx: 0 },
    };
    game.act(BlackjackAction::Hit).expect("hit is allowed");
    assert_eq!(game.player.last(), Some(&Card::King));
}

#[test]
fn can_act_asks_only_what_the_action_needs() {
    let game = Blackjack {
        dealer: vec![Card::King, Card::Queen],
        player: vec![Card::Numeric(2), Card::Numeric(2)],
        staked: Currency::from(i64::MAX),
        state: BlackjackState::Betting,
        deck: RiggedDeck { seq: vec![Card::King], idx: 0 },
    };
    assert!(game.can_act(BlackjackAction::Stand));
    assert!(game.can_act(BlackjackAction::Hit));
    assert!(!game.can_act(BlackjackAction::DoubleDown));
    assert!(!game.can_act(BlackjackAction::Reveal));
}

#[test]
fn a_seeded_deck_is_made() {
    assert!(RngDeck::new().is_some());
}
