use catshi::blackjack::{Blackjack, BlackjackAction, Deck};
use catshi::cards::Card;
use catshi::currency::Currency;
use catshi::store::{
    BlackjackState, DbUser, Instrument, InstrumentState, InstrumentWithShares, Market, MarketState,
    Position, PositionWithUser,
};
use catshi::table::{rank_descending, tabulate};
use catshi::ui::{
    format_market_id, instrument_display_text, render_blackjack_message, render_details_message,
    render_market_message,
};

struct FixedDeck;

impl Deck for FixedDeck {
    fn draw(&mut self) -> Card {
        Card::Numeric(2)
    }
}

fn user(id: i32, name: &str) -> DbUser {
    DbUser {
        id,
        discord_id: format!("{id}"),
        name: name.to_string(),
        cash_balance: Currency::from(5_000),
    }
}

fn instrument(id: i64, name: &str, state: InstrumentState) -> Instrument {
    Instrument { id, name: name.to_string(), state, market_id: 3 }
}

fn holding(user_id: i32, name: &str, instrument_id: i64, quantity: i64, paid: i64) -> PositionWithUser {
    PositionWithUser {
        position: Position {
            id: 0,
            quantity,
            cost_basis: Currency::from(paid),
            instrument_id,
            owner_id: user_id as i64,
        },
        user: user(user_id, name),
    }
}

fn market(id: i64, state: MarketState) -> Market {
    Market {
        id,
        description: "Who wins?".to_string(),
        state,
        owner_id: 1,
        message_id: None,
        channel_id: None,
        thread_id: None,
        details_msg_id: None,
    }
}

#[test]
fn market_ids_are_zero_padded() {
    assert_eq!(format_market_id(42), "#0042");
    assert_eq!(format_market_id(12345), "#12345");
    assert_eq!(format_market_id(-7), "#-007");
    let inst = instrument(1, "Red", InstrumentState::Open);
    assert_eq!(instrument_display_text(&inst, &market(5, MarketState::Open)), "Red (market #0005)");
}

#[test]
fn tabulate_pads_columns() {
    let rows = vec![
        ["User".to_string(), "Quantity".to_string()],
        ["alice".to_string(), "3".to_string()],
    ];
    let table = tabulate(rows);
    assert_eq!(table, "```| User  | Quantity |\n| alice | 3        |\n```");
}

#[test]
fn tabulate_empty() {
    let rows: Vec<[String; 2]> = vec![];
    assert_eq!(tabulate(rows), "``````");
}

#[test]
fn ranking_is_stable_descending() {
    assert_eq!(rank_descending(&vec![3, 9, 3, 10, 9]), vec![3, 1, 4, 0, 2]);
    assert_eq!(rank_descending(&vec![]), Vec::<usize>::new());
}

#[test]
fn details_group_and_sort() {
    let instruments: Vec<InstrumentWithShares> = vec![
        (instrument(2, "Blue", InstrumentState::Open), 0),
        (instrument(1, "Red", InstrumentState::Open), 0),
    ];
    let positions = vec![
        holding(1, "al", 2, 3, 1_500),
        holding(2, "bo", 1, 1, 500),
        holding(3, "cy", 2, 0, 0),
        holding(4, "di", 2, 5, 2_000),
    ];
    let text = render_details_message(&instruments, &positions);
    let red = "```| User | Quantity | Paid    |\n| bo   | 1        | 0.500yp |\n```";
    let blue = "```| User | Quantity | Paid    |\n| di   | 5        | 2.000yp |\n| al   | 3        | 1.500yp |\n```";
    assert_eq!(text, format!("Red\n{red}\nBlue\n{blue}"));
}

#[test]
fn details_without_positions() {
    let instruments: Vec<InstrumentWithShares> = vec![(instrument(1, "Red", InstrumentState::Open), 0)];
    let positions = vec![holding(1, "al", 1, 0, 0)];
    assert_eq!(render_details_message(&instruments, &positions), "No open positions for this market.");
}

#[test]
fn blackjack_message_while_betting() {
    let game = Blackjack {
        dealer: vec![Card::King, Card::Numeric(5)],
        player: vec![Card::Numeric(9), Card::Numeric(7)],
        staked: Currency::from(2_000),
        state: BlackjackState::Betting,
        deck: FixedDeck,
    };
    let owner = user(1, "al");
    let msg = render_blackjack_message(&game, &owner);
    assert_eq!(msg.info, "al (2.000yp bet)");
    assert_eq!(msg.status, "Betting in progress.");
    assert_eq!(msg.dealer, "Dealer: K ? (10)");
    assert_eq!(msg.player, "Player: 9 7 (16)");
    assert_eq!(
        msg.buttons,
        vec![BlackjackAction::Hit, BlackjackAction::Stand, BlackjackAction::DoubleDown]
    );
}

#[test]
fn blackjack_message_when_closed() {
    let owner = user(1, "al");
    let won = Blackjack {
        dealer: vec![Card::King, Card::Numeric(8)],
        player: vec![Card::Numeric(9), Card::Queen],
        staked: Currency::from(2_000),
        state: BlackjackState::Closed,
        deck: FixedDeck,
    };
    let msg = render_blackjack_message(&won, &owner);
    assert_eq!(msg.status, "al wins 4.000yp.");
    assert_eq!(msg.dealer, "Dealer: K 8 (18)");
    assert!(msg.buttons.is_empty());

    let natural = Blackjack {
        dealer: vec![Card::King, Card::Numeric(8)],
        player: vec![Card::Ace, Card::Queen],
        staked: Currency::from(1_001),
        state: BlackjackState::Closed,
        deck: FixedDeck,
    };
    let msg = render_blackjack_message(&natural, &owner);
    assert_eq!(msg.status, "You got a natural 21. You win 2.502yp");

    let stood = Blackjack {
        dealer: vec![Card::King, Card::Numeric(8)],
        player: vec![Card::Ace, Card::Queen],
        staked: Currency::from(1_000),
        state: BlackjackState::Stand,
        deck: FixedDeck,
    };
    let msg = render_blackjack_message(&stood, &owner);
    assert_eq!(msg.status, "Player stood. Click to reveal dealer's cards.");
    assert_eq!(msg.buttons, vec![BlackjackAction::Reveal]);
}

#[test]
fn market_message_lines() {
    let owner = user(1, "al");
    let instruments: Vec<InstrumentWithShares> = vec![
        (instrument(10, "Red", InstrumentState::Open), 4),
        (instrument(11, "Blue", InstrumentState::Winner), 2),
        (instrument(12, "Green", InstrumentState::Loser), 0),
    ];
    let prices = vec![Currency::from(450), Currency::from(0), Currency::from(0)];
    let msg = render_market_message(&market(42, MarketState::Open), &owner, &instruments, &prices);
    assert_eq!(msg.title, "## OPEN MARKET #0042");
    assert_eq!(msg.owner_name, "al");
    assert_eq!(msg.description, "Who wins?");
    assert_eq!(msg.instruments[0].text, "Red (0.450yp)");
    assert_eq!(
        msg.instruments[0].trade_buttons,
        Some(("trade_button|buy|10".to_string(), "trade_button|sell|10".to_string()))
    );
    assert_eq!(msg.instruments[1].text, "Blue \u{2705}");
    assert_eq!(msg.instruments[1].trade_buttons, None);
    assert_eq!(msg.instruments[2].text, "Green \u{274c}");
    assert_eq!(msg.resolve_button, Some("resolve_button|42".to_string()));

    let closed = render_market_message(&market(42, MarketState::Closed), &owner, &instruments, &prices);
    assert_eq!(closed.title, "## CLOSED MARKET #0042");
    assert_eq!(closed.resolve_button, None);
}

#[test]
fn details_ignore_positions_without_shares() {
    let instruments: Vec<InstrumentWithShares> = vec![
        (instrument(2, "Blue", InstrumentState::Open), 0),
        (instrument(1, "Red", InstrumentState::Open), 0),
    ];
    let with_closed = vec![
        holding(1, "al", 2, 3, 1_500),
        holding(3, "cy", 2, 0, 0),
        holding(5, "ed", 1, 0, 700),
        holding(4, "di", 2, 5, 2_000),
    ];
    let open_only = vec![holding(1, "al", 2, 3, 1_500), holding(4, "di", 2, 5, 2_000)];
    assert_eq!(
        render_details_message(&instruments, &with_closed),
        render_details_message(&instruments, &open_only)
    );
}
