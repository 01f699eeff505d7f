use catshi::blackjack::{ActResult, Blackjack, BlackjackAction, BlackjackError, Deck, GameWinner};
use catshi::cards::{Card, CardParseError, deserialize_cards, serialize_cards, value_cards};
use catshi::currency::Currency;
use catshi::store::{BlackjackState, CreateBlackjack, CreateTransfer, DbBlackjack, DbUser, TransferSource, UpdateBlackjack};

struct RiggedDeck {
    seq: Vec<Card>,
    idx: usize,
}

impl RiggedDeck {
    pub fn new(seq: Vec<Card>) -> Self {
        RiggedDeck { seq, idx: 0 }
    }
}

impl Deck for RiggedDeck {
    fn draw(&mut self) -> Card {
        let card = self.seq[self.idx];
        let next_idx = (self.idx + 1) % self.seq.len();

        self.idx = next_idx;

        card
    }
}

fn user(id: i32, discord_id: &str, name: &str) -> DbUser {
    DbUser {
        id,
        discord_id: discord_id.to_string(),
        name: name.to_string(),
        cash_balance: Currency::from(0),
    }
}

#[test]
fn test_new_game_normal() {
    let rigged = RiggedDeck::new(vec![Card::Numeric(2)]);
    let (game, payout) = Blackjack::new(Currency::from(2), rigged);

    assert_eq!(game.dealer, vec![Card::Numeric(2), Card::Numeric(2)]);
    assert_eq!(game.player, vec![Card::Numeric(2), Card::Numeric(2)]);

    assert_eq!(game.state, BlackjackState::Betting);

    assert_eq!(game.staked, Currency::from(2));
    assert_eq!(payout, None)
}

#[test]
fn test_new_game_natural_push() {
    let rigged = RiggedDeck::new(vec![Card::Numeric(10), Card::Ace]);
    let (game, payout) = Blackjack::new(Currency::from(100), rigged);

    assert_eq!(game.dealer, vec![Card::Numeric(10), Card::Ace]);
    assert_eq!(game.player, vec![Card::Numeric(10), Card::Ace]);

    assert_eq!(game.state, BlackjackState::Closed);

    // Dealer and player get a natural. That's a push.
    assert_eq!(game.staked, Currency::from(100));
    assert_eq!(payout, Some(Currency::from(100)))
}

#[test]
fn test_new_game_natural_dealer() {
    let rigged = RiggedDeck::new(vec![
        Card::Numeric(10),
        Card::Ace,
        Card::Numeric(2),
        Card::Numeric(2),
    ]);
    let (game, payout) = Blackjack::new(Currency::from(100), rigged);

    assert_eq!(game.dealer, vec![Card::Numeric(10), Card::Ace]);
    assert_eq!(game.player, vec![Card::Numeric(2), Card::Numeric(2)]);

    assert_eq!(game.state, BlackjackState::Closed);

    // Dealer gets a natural. We lose immediately.
    assert_eq!(game.staked, Currency::from(100));
    assert_eq!(payout, None)
}

#[test]
fn test_new_game_natural_player() {
    let rigged = RiggedDeck::new(vec![
        Card::Numeric(2),
        Card::Numeric(2),
        Card::Numeric(10),
        Card::Ace,
    ]);
    let (game, payout) = Blackjack::new(Currency::from(100), rigged);

    assert_eq!(game.dealer, vec![Card::Numeric(2), Card::Numeric(2)]);
    assert_eq!(game.player, vec![Card::Numeric(10), Card::Ace]);

    assert_eq!(game.state, BlackjackState::Closed);

    // Player gets a natural. This pays 3:2.
    assert_eq!(game.staked, Currency::from(100));
    assert_eq!(payout, Some(Currency::from(250)))
}

#[test]
fn test_hit() {
    let rigged = RiggedDeck::new(vec![Card::King]);
    let mut game = Blackjack {
        dealer: vec![Card::King, Card::Queen],
        player: vec![Card::Numeric(2), Card::Numeric(2)],
        staked: Currency::from(2),
        state: BlackjackState::Betting,
        deck: rigged,
    };

    let result = game.act(BlackjackAction::Hit).expect("should succeed");
    assert_eq!(result.bet_increase, None);
    assert_eq!(result.next_state, BlackjackState::Betting);
    assert_eq!(result.payout, None);

    assert_eq!(
        game.player,
        vec![Card::Numeric(2), Card::Numeric(2), Card::King]
    );
    assert_eq!(game.state, BlackjackState::Betting);
}

#[test]
fn test_hit_bust() {
    let rigged = RiggedDeck::new(vec![Card::King]);
    let mut game = Blackjack {
        dealer: vec![Card::King, Card::Queen],
        player: vec![Card::Numeric(10), Card::Numeric(10)],
        staked: Currency::from(2),
        state: BlackjackState::Betting,
        deck: rigged,
    };

    let result = game.act(BlackjackAction::Hit).expect("should succeed");
    assert_eq!(result.bet_increase, None);
    assert_eq!(result.next_state, BlackjackState::PlayerBust);
    assert_eq!(result.payout, None);

    assert_eq!(
        game.player,
        vec![Card::Numeric(10), Card::Numeric(10), Card::King]
    );
    assert_eq!(game.state, BlackjackState::PlayerBust);
}

#[test]
fn test_stand() {
    let rigged = RiggedDeck::new(vec![Card::King]);
    let mut game = Blackjack {
        dealer: vec![Card::King, Card::Queen],
        player: vec![Card::Numeric(10), Card::Numeric(10)],
        staked: Currency::from(2),
        state: BlackjackState::Betting,
        deck: rigged,
    };

    let result = game.act(BlackjackAction::Stand).expect("should succeed");
    assert_eq!(result.bet_increase, None);
    assert_eq!(result.next_state, BlackjackState::Stand);
    assert_eq!(result.payout, None);

    assert_eq!(game.player, vec![Card::Numeric(10), Card::Numeric(10)]);
    assert_eq!(game.state, BlackjackState::Stand);
}

#[test]
fn test_double_down() {
    let rigged = RiggedDeck::new(vec![Card::King]);
    let mut game = Blackjack {
        dealer: vec![Card::King, Card::Queen],
        player: vec![Card::Numeric(2), Card::Numeric(2)],
        staked: Currency::from(2),
        state: BlackjackState::Betting,
        deck: rigged,
    };

    let result = game
        .act(BlackjackAction::DoubleDown)
        .expect("should succeed");
    assert_eq!(result.bet_increase, Some(Currency::from(2)));
    assert_eq!(result.next_state, BlackjackState::Stand);
    assert_eq!(result.payout, None);

    assert_eq!(
        game.player,
        vec![Card::Numeric(2), Card::Numeric(2), Card::King]
    );
    assert_eq!(game.state, BlackjackState::Stand);
}

#[test]
fn test_double_down_bust() {
    let rigged = RiggedDeck::new(vec![Card::King]);
    let mut game = Blackjack {
        dealer: vec![Card::King, Card::Queen],
        player: vec![Card::Numeric(10), Card::Numeric(10)],
        staked: Currency::from(2),
        state: BlackjackState::Betting,
        deck: rigged,
    };

    let result = game
        .act(BlackjackAction::DoubleDown)
        .expect("should succeed");
    assert_eq!(result.bet_increase, Some(Currency::from(2)));
    assert_eq!(result.next_state, BlackjackState::PlayerBust);
    assert_eq!(result.payout, None);

    assert_eq!(
        game.player,
        vec![Card::Numeric(10), Card::Numeric(10), Card::King]
    );
    assert_eq!(game.state, BlackjackState::PlayerBust);
}

#[test]
fn test_resolve_dealer_bust() {
    let rigged = RiggedDeck::new(vec![Card::King]);
    let mut game = Blackjack {
        dealer: vec![Card::Numeric(10), Card::Numeric(6)],
        player: vec![Card::Numeric(10), Card::Numeric(10)],
        staked: Currency::from(2),
        state: BlackjackState::Stand,
        deck: rigged,
    };

    let result = game.act(BlackjackAction::Reveal).expect("should succeed");

    // Dealer draws a King next and loses. We get the payout.
    assert!(game.winner() == GameWinner::Player);
    assert_eq!(result.bet_increase, None);
    assert_eq!(result.next_state, BlackjackState::Closed);
    assert_eq!(result.payout, Some(game.staked.mul_int(2)));

    assert_eq!(
        game.dealer,
        vec![Card::Numeric(10), Card::Numeric(6), Card::King]
    );
    assert_eq!(game.state, BlackjackState::Closed);
}

#[test]
fn test_resolve_player_bust() {
    let rigged = RiggedDeck::new(vec![Card::King]);
    let mut game = Blackjack {
        dealer: vec![Card::Numeric(10), Card::Numeric(6)],
        player: vec![Card::Numeric(10), Card::Numeric(10), Card::Numeric(10)],
        staked: Currency::from(2),
        state: BlackjackState::PlayerBust,
        deck: rigged,
    };

    let result = game.act(BlackjackAction::Reveal).expect("should succeed");

    // Player busts. No payouts. Dealer doesn't draw.
    assert!(game.winner() == GameWinner::Dealer);
    assert_eq!(result.bet_increase, None);
    assert_eq!(result.next_state, BlackjackState::Closed);
    assert_eq!(result.payout, None);

    assert_eq!(game.dealer, vec![Card::Numeric(10), Card::Numeric(6)]);
    assert_eq!(game.state, BlackjackState::Closed);
}

#[test]
fn test_resolve_neither_bust_player_wins() {
    let rigged = RiggedDeck::new(vec![Card::Numeric(5)]);
    let mut game = Blackjack {
        dealer: vec![Card::Numeric(10), Card::Numeric(2)],
        player: vec![Card::Numeric(10), Card::Numeric(10), Card::Ace],
        staked: Currency::from(2),
        state: BlackjackState::Stand,
        deck: rigged,
    };

    let result = game.act(BlackjackAction::Reveal).expect("should succeed");

    // Dealer draws a 5 next for a total of 17. Dealer stands while we have 21.
    assert!(game.winner() == GameWinner::Player);
    assert_eq!(result.bet_increase, None);
    assert_eq!(result.next_state, BlackjackState::Closed);
    assert_eq!(result.payout, Some(game.staked.mul_int(2)));

    assert_eq!(
        game.dealer,
        vec![Card::Numeric(10), Card::Numeric(2), Card::Numeric(5)],
    );
    assert_eq!(game.state, BlackjackState::Closed);
}

#[test]
fn test_resolve_neither_bust_dealer_wins() {
    let rigged = RiggedDeck::new(vec![Card::Numeric(5)]);
    let mut game = Blackjack {
        dealer: vec![Card::Numeric(10), Card::Numeric(2)],
        player: vec![Card::Numeric(2), Card::Numeric(2)],
        staked: Currency::from(2),
        state: BlackjackState::Stand,
        deck: rigged,
    };

    let result = game.act(BlackjackAction::Reveal).expect("should succeed");

    // We were dumb and stood on only 2. Dealer draws a 5 for 17 and wins.
    assert!(game.winner() == GameWinner::Dealer);
    assert_eq!(result.bet_increase, None);
    assert_eq!(result.next_state, BlackjackState::Closed);
    assert_eq!(result.payout, None);

    assert_eq!(
        game.dealer,
        vec![Card::Numeric(10), Card::Numeric(2), Card::Numeric(5)],
    );
    assert_eq!(game.state, BlackjackState::Closed);
}

#[test]
fn test_resolve_push() {
    let rigged = RiggedDeck::new(vec![Card::Numeric(5)]);
    let mut game = Blackjack {
        dealer: vec![Card::Numeric(10), Card::Numeric(6)],
        player: vec![Card::Numeric(10), Card::Numeric(10), Card::Ace],
        staked: Currency::from(2),
        state: BlackjackState::Stand,
        deck: rigged,
    };

    let result = game.act(BlackjackAction::Reveal).expect("should succeed");

    // We both get 21. This is a push and the player gets their money back.
    assert!(game.winner() == GameWinner::Push);
    assert_eq!(result.bet_increase, None);
    assert_eq!(result.next_state, BlackjackState::Closed);
    assert_eq!(result.payout, Some(game.staked));

    assert_eq!(
        game.dealer,
        vec![Card::Numeric(10), Card::Numeric(6), Card::Numeric(5)],
    );
    assert_eq!(game.state, BlackjackState::Closed);
}

#[test]
fn test_resolve_push_less_than_21() {
    let rigged = RiggedDeck::new(vec![Card::Numeric(5)]);
    let mut game = Blackjack {
        dealer: vec![Card::Numeric(10), Card::Numeric(8)],
        player: vec![Card::Numeric(10), Card::Numeric(8)],
        staked: Currency::from(2),
        state: BlackjackState::Stand,
        deck: rigged,
    };

    let result = game.act(BlackjackAction::Reveal).expect("should succeed");

    // We both stood at 18. This is a push as well.
    assert!(game.winner() == GameWinner::Push);
    assert_eq!(result.bet_increase, None);
    assert_eq!(result.next_state, BlackjackState::Closed);
    assert_eq!(result.payout, Some(game.staked));

    assert_eq!(game.dealer, vec![Card::Numeric(10), Card::Numeric(8)],);
    assert_eq!(game.state, BlackjackState::Closed);
}

#[test]
fn test_no_double_down_after_draw() {
    let rigged = RiggedDeck::new(vec![Card::King]);
    let mut game = Blackjack {
        dealer: vec![Card::King, Card::Queen],
        player: vec![Card::Numeric(2), Card::Numeric(2), Card::Numeric(2)],
        staked: Currency::from(2),
        state: BlackjackState::Betting,
        deck: rigged,
    };

    let _ = game
        .act(BlackjackAction::DoubleDown)
        .expect_err("cannot double down after hitting");
    assert!(!game.is_action_valid(BlackjackAction::DoubleDown))
}

#[test]
fn test_no_act_on_closed() {
    let rigged = RiggedDeck::new(vec![Card::King]);
    let mut game = Blackjack {
        dealer: vec![Card::King, Card::Queen],
        player: vec![Card::Numeric(2), Card::Numeric(2), Card::Numeric(2)],
        staked: Currency::from(2),
        state: BlackjackState::Closed,
        deck: rigged,
    };

    assert!(!game.is_action_valid(BlackjackAction::DoubleDown));
    let _ = game
        .act(BlackjackAction::DoubleDown)
        .expect_err("cannot double down on closed game");

    assert!(!game.is_action_valid(BlackjackAction::Hit));
    let _ = game
        .act(BlackjackAction::Hit)
        .expect_err("cannot double down on closed game");

    assert!(!game.is_action_valid(BlackjackAction::Stand));
    let _ = game
        .act(BlackjackAction::Stand)
        .expect_err("cannot double down on closed game");

    assert!(!game.is_action_valid(BlackjackAction::Reveal));
    let _ = game
        .act(BlackjackAction::Reveal)
        .expect_err("cannot double down on closed game");
}

#[test]
fn test_no_bet_on_stand() {
    let rigged = RiggedDeck::new(vec![Card::King]);
    let mut game = Blackjack {
        dealer: vec![Card::King, Card::Queen],
        player: vec![Card::Numeric(2), Card::Numeric(2), Card::Numeric(2)],
        staked: Currency::from(2),
        state: BlackjackState::Stand,
        deck: rigged,
    };

    assert!(!game.is_action_valid(BlackjackAction::DoubleDown));
    let _ = game
        .act(BlackjackAction::DoubleDown)
        .expect_err("cannot double down on stood game");
    assert!(!game.is_action_valid(BlackjackAction::Hit));
    let _ = game
        .act(BlackjackAction::Hit)
        .expect_err("cannot double down on stood game");
    assert!(!game.is_action_valid(BlackjackAction::Stand));

    let _ = game
        .act(BlackjackAction::Stand)
        .expect_err("cannot double down on stood game");

    assert!(game.is_action_valid(BlackjackAction::Reveal));
    let _ = game
        .act(BlackjackAction::Reveal)
        .expect("should reveal on stood game");
}

#[test]
fn test_no_bet_on_bust() {
    let rigged = RiggedDeck::new(vec![Card::King]);
    let mut game = Blackjack {
        dealer: vec![Card::King, Card::Queen],
        player: vec![Card::Numeric(2), Card::Numeric(2), Card::Numeric(2)],
        staked: Currency::from(2),
        state: BlackjackState::PlayerBust,
        deck: rigged,
    };

    assert!(!game.is_action_valid(BlackjackAction::DoubleDown));
    let _ = game
        .act(BlackjackAction::DoubleDown)
        .expect_err("cannot double down on busted game");

    assert!(!game.is_action_valid(BlackjackAction::Hit));
    let _ = game
        .act(BlackjackAction::Hit)
        .expect_err("cannot double down on busted game");

    assert!(!game.is_action_valid(BlackjackAction::Stand));
    let _ = game
        .act(BlackjackAction::Stand)
        .expect_err("cannot double down on busted game");

    assert!(game.is_action_valid(BlackjackAction::Reveal));
    let _ = game
        .act(BlackjackAction::Reveal)
        .expect("should reveal on busted game");
}

#[test]
fn test_value_simple() {
    assert_eq!(value_cards(&vec![Card::King, Card::Numeric(2)]), 12);
}

#[test]
fn test_value_ace_high() {
    assert_eq!(value_cards(&vec![Card::King, Card::Ace]), 21);
}

#[test]
fn test_value_ace_low() {
    assert_eq!(value_cards(&vec![Card::King, Card::King, Card::Ace]), 21);
}

#[test]
fn test_value_partial_aces() {
    assert_eq!(
        value_cards(&vec![Card::Numeric(9), Card::Ace, Card::Ace]),
        21
    );
}

#[test]
fn test_value_many_aces() {
    assert_eq!(
        value_cards(&vec![
            Card::Ace,
            Card::Ace,
            Card::Ace,
            Card::Ace,
            Card::Ace,
            Card::Numeric(3)
        ]),
        18,
    );
}

#[test]
fn test_value_ace_bust() {
    assert_eq!(
        value_cards(&vec![
            Card::King,
            Card::King,
            Card::King,
            Card::Ace,
            Card::Ace
        ]),
        32
    );
}

#[test]
fn test_transfer_payout() {
    let result = ActResult {
        next_state: BlackjackState::Closed,
        bet_increase: None,
        payout: Some(Currency::from(3)),
    };

    let system_user = user(1, "0", "sys");
    let player = user(2, "111", "user");

    assert_eq!(
        result.transfer(&system_user, &player),
        Some(CreateTransfer {
            amount: Currency::from(3),
            sender: 1,
            receiver: 2,
            memo: "Blackjack: winnings".to_string(),
            source: TransferSource::Gambling,
        })
    )
}

#[test]
fn test_transfer_bet_increase() {
    let result = ActResult {
        next_state: BlackjackState::Closed,
        bet_increase: Some(Currency::from(3)),
        payout: None,
    };

    let system_user = user(1, "0", "sys");
    let player = user(2, "111", "user");

    assert_eq!(
        result.transfer(&system_user, &player),
        Some(CreateTransfer {
            amount: Currency::from(3),
            sender: 2,
            receiver: 1,
            memo: "Blackjack: Double down".to_string(),
            source: TransferSource::Gambling,
        })
    )
}

#[test]
fn test_to_create() {
    let rigged = RiggedDeck::new(vec![Card::King]);
    let game = Blackjack {
        dealer: vec![Card::King, Card::Queen],
        player: vec![Card::Numeric(2), Card::Numeric(2), Card::Numeric(2)],
        staked: Currency::from(2),
        state: BlackjackState::PlayerBust,
        deck: rigged,
    };

    let player = user(2, "111", "user");

    let channel_id = 7u64;
    let message_id = 7u64;

    assert_eq!(
        game.to_db_create(&player, channel_id, message_id),
        CreateBlackjack {
            dealer: "K Q".to_string(),
            player: "2 2 2".to_string(),
            owner_id: player.id as i64,
            state: BlackjackState::PlayerBust,
            staked: Currency::from(2),
            channel_id: "7".to_string(),
            message_id: "7".to_string(),
        },
    )
}

#[test]
fn test_to_update() {
    let rigged = RiggedDeck::new(vec![Card::King]);
    let game = Blackjack {
        dealer: vec![Card::King, Card::Queen],
        player: vec![Card::Numeric(2), Card::Numeric(2), Card::Numeric(2)],
        staked: Currency::from(2),
        state: BlackjackState::PlayerBust,
        deck: rigged,
    };

    assert_eq!(
        game.to_db_update(),
        UpdateBlackjack {
            dealer: "K Q".to_string(),
            player: "2 2 2".to_string(),
            staked: Currency::from(2),
            state: BlackjackState::PlayerBust,
        },
    )
}

// Further cases.

#[test]
fn test_invalid_action_error_and_unchanged() {
    let rigged = RiggedDeck::new(vec![Card::King]);
    let mut game = Blackjack {
        dealer: vec![Card::King, Card::Queen],
        player: vec![Card::Numeric(2), Card::Numeric(3)],
        staked: Currency::from(2),
        state: BlackjackState::Closed,
        deck: rigged,
    };
    assert_eq!(
        game.act(BlackjackAction::Hit),
        Err(BlackjackError::InvalidAction(BlackjackAction::Hit))
    );
    assert_eq!(game.player, vec![Card::Numeric(2), Card::Numeric(3)]);
    assert_eq!(game.state, BlackjackState::Closed);
}

#[test]
fn test_double_down_doubles_stake() {
    let rigged = RiggedDeck::new(vec![Card::Numeric(3)]);
    let mut game = Blackjack {
        dealer: vec![Card::King, Card::Numeric(7)],
        player: vec![Card::Numeric(5), Card::Numeric(6)],
        staked: Currency::from(500),
        state: BlackjackState::Betting,
        deck: rigged,
    };
    let result = game.act(BlackjackAction::DoubleDown).expect("valid");
    assert_eq!(result.bet_increase, Some(Currency::from(500)));
    assert_eq!(game.staked, Currency::from(1000));
    let reveal = game.act(BlackjackAction::Reveal).expect("valid");
    // 14 against the dealer's 17: the dealer stands and wins.
    assert_eq!(game.dealer, vec![Card::King, Card::Numeric(7)]);
    assert_eq!(reveal.payout, None);
}

#[test]
fn test_natural_pays_five_halves_on_reveal() {
    let rigged = RiggedDeck::new(vec![Card::Numeric(2)]);
    let mut game = Blackjack {
        dealer: vec![Card::King, Card::Numeric(7)],
        player: vec![Card::Ace, Card::King],
        staked: Currency::from(3),
        state: BlackjackState::Stand,
        deck: rigged,
    };
    let result = game.act(BlackjackAction::Reveal).expect("valid");
    assert_eq!(game.winner(), GameWinner::PlayerNatural);
    // 3 * 2.5 = 7.5, rounded to the even 8.
    assert_eq!(result.payout, Some(Currency::from(8)));
}

#[test]
fn test_opening_natural_odd_stake_rounds_to_even() {
    let rigged = RiggedDeck::new(vec![
        Card::Numeric(2),
        Card::Numeric(2),
        Card::Ace,
        Card::Queen,
    ]);
    let (_, payout) = Blackjack::new(Currency::from(1), rigged);
    // 1 + 1.5 rounded to the even 2.
    assert_eq!(payout, Some(Currency::from(3)));
}

#[test]
fn test_sixth_of_a_kind_is_redrawn() {
    // Five kings are on the table; the deck offers a sixth king first, then a two.
    let rigged = RiggedDeck::new(vec![Card::King, Card::Numeric(2)]);
    let mut game = Blackjack {
        dealer: vec![Card::King, Card::King],
        player: vec![Card::King, Card::Numeric(2)],
        staked: Currency::from(2),
        state: BlackjackState::Betting,
        deck: rigged,
    };
    game.dealer.push(Card::King);
    game.dealer.push(Card::King);
    game.act(BlackjackAction::Hit).expect("valid");
    assert_eq!(game.player, vec![Card::King, Card::Numeric(2), Card::Numeric(2)]);
}

#[test]
fn test_any_card_under_the_limit_is_dealt() {
    // The table takes whatever card the deck gives, as long as five of it are not showing.
    let rigged = RiggedDeck::new(vec![Card::Numeric(1), Card::Numeric(4)]);
    let mut game = Blackjack {
        dealer: vec![Card::King, Card::Numeric(5)],
        player: vec![Card::Numeric(2), Card::Numeric(3)],
        staked: Currency::from(2),
        state: BlackjackState::Betting,
        deck: rigged,
    };
    game.act(BlackjackAction::Hit).expect("valid");
    assert_eq!(game.player, vec![Card::Numeric(2), Card::Numeric(3), Card::Numeric(1)]);
    assert_eq!(game.state, BlackjackState::Betting);
}

#[test]
fn test_huge_card_busts_without_overflow() {
    let rigged = RiggedDeck::new(vec![Card::Numeric(250)]);
    let mut game = Blackjack {
        dealer: vec![Card::King, Card::Numeric(5)],
        player: vec![Card::Numeric(10), Card::Numeric(10)],
        staked: Currency::from(2),
        state: BlackjackState::Betting,
        deck: rigged,
    };
    let result = game.act(BlackjackAction::Hit).expect("valid");
    assert_eq!(result.next_state, BlackjackState::PlayerBust);
    let result = game.act(BlackjackAction::Reveal).expect("valid");
    assert_eq!(result.next_state, BlackjackState::Closed);
    assert_eq!(result.payout, None);
}

#[test]
fn test_display_hides_hole_card() {
    let rigged = RiggedDeck::new(vec![Card::King]);
    let mut game = Blackjack {
        dealer: vec![Card::Jack, Card::Numeric(7)],
        player: vec![Card::Numeric(2), Card::Ace],
        staked: Currency::from(2),
        state: BlackjackState::Betting,
        deck: rigged,
    };
    assert_eq!(game.dealer_display(), "J ?");
    assert_eq!(game.dealer_value(), 10);
    assert_eq!(game.player_display(), "2 A");
    assert_eq!(game.player_value(), 13);
    game.state = BlackjackState::Closed;
    assert_eq!(game.dealer_display(), "J 7");
    assert_eq!(game.dealer_value(), 17);
}

#[test]
fn test_cards_roundtrip_through_text() {
    let hand = vec![Card::Ace, Card::Numeric(10), Card::Queen, Card::Numeric(2)];
    let text = serialize_cards(&hand);
    assert_eq!(text, "A 10 Q 2");
    assert_eq!(deserialize_cards(&text), Ok(hand));
}

#[test]
fn test_card_parse_errors() {
    assert_eq!(Card::from_str("X"), Err(CardParseError::NotFaceOrNumber));
    assert_eq!(Card::from_str("11"), Err(CardParseError::OutOfRange));
    assert_eq!(Card::from_str("1"), Err(CardParseError::OutOfRange));
    assert_eq!(Card::from_str("-0"), Err(CardParseError::NotFaceOrNumber));
    assert_eq!(Card::from_str("+7"), Ok(Card::Numeric(7)));
    assert_eq!(deserialize_cards(""), Err(CardParseError::NotFaceOrNumber));
    assert_eq!(deserialize_cards("K  Q"), Err(CardParseError::NotFaceOrNumber));
    assert_eq!(deserialize_cards("K 12 X"), Err(CardParseError::OutOfRange));
    assert_eq!(CardParseError::OutOfRange.message(), "card was not in 2-10");
}

#[test]
fn test_from_db_reads_hands() {
    let db = DbBlackjack {
        id: 1,
        dealer: "K 7".to_string(),
        player: "2 A".to_string(),
        state: BlackjackState::Stand,
        channel_id: "5".to_string(),
        message_id: "6".to_string(),
        owner_id: 2,
        staked: Currency::from(40),
    };
    let game = Blackjack::from_db(&db, RiggedDeck::new(vec![Card::King])).expect("valid");
    assert_eq!(game.dealer, vec![Card::King, Card::Numeric(7)]);
    assert_eq!(game.player, vec![Card::Numeric(2), Card::Ace]);
    assert_eq!(game.staked, Currency::from(40));
    assert_eq!(game.state, BlackjackState::Stand);
}

#[test]
fn rng_deck_deals_standard_cards() {
    let mut deck = catshi::blackjack::RngDeck::new().expect("the system gives entropy");
    let mut seen_different = false;
    let first = deck.draw();
    for _ in 0..200 {
        let c = deck.draw();
        assert!(c.is_standard());
        if c != first {
            seen_different = true;
        }
    }
    assert!(first.is_standard());
    assert!(seen_different);
}
