//! A game of blackjack between one player and the dealer, and what it pays.

use vstd::prelude::*;
use rand::rngs::StdRng;
use rand::seq::IndexedRandom;
use rand::SeedableRng;
use rand::rngs::SysRng;
use crate::cards::{
    Card, CardParseError, card_value, is_standard, capped_value, capped_hand_value, hand_total, ace_count, hand_value,
    hard_value, reduce_aces, count_card, hand_text, hand_parse, value_cards, serialize_cards,
    deserialize_cards, card_text, lemma_aces_le_hard, lemma_value_ge_hard, hand_total_at_most,
};
use crate::currency::{Currency, round_half_even, abs};
use crate::store::{
    BlackjackState, CreateBlackjack, CreateTransfer, DbBlackjack, DbUser, TransferSource,
    UpdateBlackjack,
};
use crate::text::{u64_to_decimal, decimal, push_char, string_from};

verus! {

/// The choices a player has at the table.
#[derive(Debug, Clone, Copy, PartialEq, Eq, Hash, Structural)]
pub enum BlackjackAction {
    Hit,
    Stand,
    DoubleDown,
    Reveal,
}

/// Who won a game, and whether on a two-card 21.
#[derive(Debug, Clone, Copy, PartialEq, Eq, Hash, Structural)]
pub enum GameWinner {
    Dealer,
    DealerNatural,
    Player,
    PlayerNatural,
    Push,
    PushNatural,
}

/// Why an action was refused.
#[derive(Debug, Clone, Copy, PartialEq, Eq, Hash, Structural)]
pub enum BlackjackError {
    /// The action is not allowed in the game's current state.
    InvalidAction(BlackjackAction),
}

/// What an action did: the new state, any raise of the bet, and any payout to the player.
#[derive(Debug, Clone, PartialEq, Eq)]
pub struct ActResult {
    pub next_state: BlackjackState,
    pub bet_increase: Option<Currency>,
    pub payout: Option<Currency>,
}

/// The transfer that settles an action's result, if it moved money.
pub open spec fn act_transfer(r: ActResult, system_user_id: i32, player_id: i32) -> Option<
    (Currency, i32, i32, Seq<char>),
> {
    match r.bet_increase {
        Some(increase) => Some((increase, player_id, system_user_id, "Blackjack: Double down"@)),
        None => match r.payout {
            Some(payout) => Some((payout, system_user_id, player_id, "Blackjack: winnings"@)),
            None => None,
        },
    }
}

impl ActResult {
    /// The transfer that settles this result: the raised bet from the player to the system
    /// user, or the payout from the system user to the player.
    pub fn transfer(&self, system_user: &DbUser, player: &DbUser) -> (r: Option<CreateTransfer>)
        requires
            self.bet_increase is None || self.payout is None,
        ensures
            match act_transfer(*self, system_user.id, player.id) {
                None => r is None,
                Some((amount, sender, receiver, memo)) => r matches Some(t) && t.amount == amount
                    && t.sender == sender && t.receiver == receiver && t.memo@ == memo
                    && t.source == TransferSource::Gambling,
            },
    {
        // A double down never closes the game, so the two never come together.
        match self.bet_increase {
            Some(increase) => Some(
                CreateTransfer {
                    amount: increase,
                    sender: player.id,
                    receiver: system_user.id,
                    memo: string_from("Blackjack: Double down"),
                    source: TransferSource::Gambling,
                },
            ),
            None => match self.payout {
                Some(payout) => Some(
                    CreateTransfer {
                        amount: payout,
                        sender: system_user.id,
                        receiver: player.id,
                        memo: string_from("Blackjack: winnings"),
                        source: TransferSource::Gambling,
                    },
                ),
                None => None,
            },
        }
    }
}

/// A source of cards.
pub trait Deck {
    /// Whether this deck keeps the record below: a deck whose `draw` Verus checks says so; the
    /// default is that it does not, as for decks written outside Verus.
    open spec fn obeys_deck_spec() -> bool {
        false
    }

    /// Every card this deck has dealt so far, in order, for a deck that keeps the record.
    open spec fn dealt(&self) -> Seq<Card> {
        Seq::empty()
    }

    /// The next card.
    fn draw(&mut self) -> (c: Card)
        ensures
            Self::obeys_deck_spec() ==> final(self).dealt() == old(self).dealt().push(c),
    ;
}

#[verifier::external_type_specification]
#[verifier::external_body]
pub struct ExStdRng(StdRng);

/// A deck that deals each of the thirteen ranks with equal chance.
pub struct RngDeck {
    rng: StdRng,
    dealt: Ghost<Seq<Card>>,
    picked_from: Ghost<Seq<Seq<Card>>>,
}

/// A generator seeded from the operating system's entropy source (`StdRng::try_from_rng` on
/// `SysRng`): `None` when the system gives none. Nothing is claimed of the seed.
#[verifier::external_body]
fn seeded_rng() -> Option<StdRng> {
    StdRng::try_from_rng(&mut SysRng).ok()
}

/// One element of `cards` picked at random (`IndexedRandom::choose`): `None` exactly when
/// `cards` is empty, else one of its elements. Which one is left to chance.
#[verifier::external_body]
fn choose_card(rng: &mut StdRng, cards: &[Card]) -> (r: Option<Card>)
    ensures
        cards@.len() == 0 <==> r is None,
        r matches Some(c) ==> cards@.contains(c),
{
    cards.choose(rng).copied()
}

/// The ranks in the order the deck lists them: ace, king, queen, jack, then 10 down to 2.
pub open spec fn rank_card(i: int) -> Card {
    if i == 0 {
        Card::Ace
    } else if i == 1 {
        Card::King
    } else if i == 2 {
        Card::Queen
    } else if i == 3 {
        Card::Jack
    } else {
        Card::Numeric((14 - i) as u8)
    }
}

/// The position of a standard card among the ranks.
pub open spec fn rank_index(c: Card) -> int {
    match c {
        Card::Ace => 0,
        Card::King => 1,
        Card::Queen => 2,
        Card::Jack => 3,
        Card::Numeric(n) => 14 - n,
    }
}

proof fn lemma_rank_standard(i: int)
    requires
        0 <= i < 13,
    ensures
        is_standard(rank_card(i)),
{
}

proof fn lemma_rank_index(c: Card)
    requires
        is_standard(c),
    ensures
        0 <= rank_index(c) < 13,
        rank_card(rank_index(c)) == c,
{
}

/// The rank at position `i`.
fn rank_at(i: u8) -> (c: Card)
    requires
        i < 13,
    ensures
        c == rank_card(i as int),
        is_standard(c),
{
    if i == 0 {
        Card::Ace
    } else if i == 1 {
        Card::King
    } else if i == 2 {
        Card::Queen
    } else if i == 3 {
        Card::Jack
    } else {
        Card::Numeric(14 - i)
    }
}

/// The thirteen ranks, in the deck's order.
pub open spec fn deck_ranks() -> Seq<Card> {
    Seq::new(13, |i: int| rank_card(i))
}

/// The ranks a deck picks from hold every rank of a deck exactly once and nothing else, so a
/// pick with equal chance for each entry gives each rank a chance of one in thirteen.
pub proof fn lemma_deck_ranks_each_once(c: Card)
    ensures
        deck_ranks().len() == 13,
        is_standard(c) ==> exists|i: int| 0 <= i < 13 && deck_ranks()[i] == c,
        forall|i: int, j: int|
            0 <= i < 13 && 0 <= j < 13 && deck_ranks()[i] == c && deck_ranks()[j] == c ==> i == j,
        forall|i: int| 0 <= i < 13 ==> is_standard(#[trigger] deck_ranks()[i]),
{
    if is_standard(c) {
        lemma_rank_index(c);
        assert(deck_ranks()[rank_index(c)] == c);
    }
}

/// The thirteen ranks, in the deck's order.
pub fn all_cards() -> (r: Vec<Card>)
    ensures
        r@ == deck_ranks(),
        r@.len() == 13,
        forall|i: int| 0 <= i < 13 ==> r@[i] == rank_card(i),
{
    let mut r: Vec<Card> = Vec::new();
    let mut i: u8 = 0;
    while i < 13
        invariant
            i <= 13,
            r@.len() == i,
            forall|k: int| 0 <= k < i ==> r@[k] == rank_card(k),
        decreases 13 - i,
    {
        r.push(rank_at(i));
        i = i + 1;
    }
    r
}

impl RngDeck {
    /// The lists of cards the deck's draws so far picked from, in order.
    pub closed spec fn picked_from(&self) -> Seq<Seq<Card>> {
        self.picked_from@
    }

    /// A deck with a freshly seeded generator that has dealt nothing yet; `None` when the
    /// operating system gives no entropy to seed it with.
    pub fn new() -> (r: Option<RngDeck>)
        ensures
            r matches Some(d) ==> d.dealt() == Seq::<Card>::empty() && d.picked_from()
                == Seq::<Seq<Card>>::empty(),
    {
        match seeded_rng() {
            Some(rng) => Some(RngDeck { rng, dealt: Ghost(Seq::empty()), picked_from: Ghost(Seq::empty()) }),
            None => None,
        }
    }
}

impl Deck for RngDeck {
    open spec fn obeys_deck_spec() -> bool {
        true
    }

    closed spec fn dealt(&self) -> Seq<Card> {
        self.dealt@
    }

    /// One of the thirteen ranks, picked at random from the list of all thirteen.
    fn draw(&mut self) -> (c: Card)
        ensures
            is_standard(c),
            deck_ranks().contains(c),
            final(self).picked_from() == old(self).picked_from().push(deck_ranks()),
    {
        let cards = all_cards();
        let picked = choose_card(&mut self.rng, cards.as_slice());
        proof {
            self.picked_from@ = self.picked_from@.push(cards@);
        }
        let c = match picked {
            Some(c) => {
                proof {
                    let i = choose|i: int| 0 <= i < cards@.len() && cards@[i] == c;
                    assert(cards@[i] == rank_card(i));
                    lemma_rank_standard(i);
                }
                c
            },
            None => Card::Ace,
        };
        proof {
            self.dealt@ = self.dealt@.push(c);
        }
        c
    }
}

/// How often the deck is asked for a card the table takes. A deck that offers only cards of
/// which five are showing would be asked forever; after this many refusals the table deals
/// the first rank still under its limit instead (the ace when there is none).
pub const MAX_DRAW_ATTEMPTS: u32 = 64;

/// A game in progress: both hands, the stake, the state, and the deck that deals.
#[derive(Debug, Clone)]
pub struct Blackjack<D: Deck> {
    pub dealer: Vec<Card>,
    pub player: Vec<Card>,
    pub staked: Currency,
    pub state: BlackjackState,
    pub deck: D,
}

/// The winner of a game with these hands.
pub open spec fn winner_of(player: Seq<Card>, dealer: Seq<Card>) -> GameWinner {
    let player_value = hand_value(player);
    let dealer_value = hand_value(dealer);
    let dealer_natural = dealer_value == 21 && dealer.len() == 2;
    let player_natural = player_value == 21 && player.len() == 2;
    if dealer_natural && player_natural {
        GameWinner::PushNatural
    } else if dealer_natural {
        GameWinner::DealerNatural
    } else if player_natural {
        GameWinner::PlayerNatural
    } else if player_value > 21 {
        GameWinner::Dealer
    } else if dealer_value > 21 {
        GameWinner::Player
    } else if 21 - dealer_value < 21 - player_value {
        GameWinner::Dealer
    } else if 21 - player_value < 21 - dealer_value {
        GameWinner::Player
    } else {
        GameWinner::Push
    }
}

/// Whether a winner is decided by a two-card 21.
pub open spec fn is_natural(w: GameWinner) -> bool {
    w == GameWinner::DealerNatural || w == GameWinner::PlayerNatural || w
        == GameWinner::PushNatural
}

/// The amount `x` times the fraction, rounded to even.
pub open spec fn scaled(x: int, num: int, den: int) -> Currency {
    Currency(round_half_even(x * num, den) as i64)
}

/// What a new game pays at once: a natural pays 3:2 on top of the stake, a pushed natural
/// returns the stake.
pub open spec fn opening_payout(w: GameWinner, staked: Currency) -> Option<Currency> {
    match w {
        GameWinner::DealerNatural => None,
        GameWinner::PlayerNatural => Some(
            Currency((staked.0 + round_half_even(staked.0 * 3, 2)) as i64),
        ),
        GameWinner::PushNatural => Some(staked),
        _ => None,
    }
}

/// What a closed game pays the player.
pub open spec fn closed_payout(w: GameWinner, staked: Currency) -> Option<Currency> {
    match w {
        GameWinner::Dealer => None,
        GameWinner::Player => Some(Currency((staked.0 * 2) as i64)),
        GameWinner::Push => Some(staked),
        GameWinner::DealerNatural => None,
        GameWinner::PlayerNatural => Some(scaled(staked.0 as int, 5, 2)),
        GameWinner::PushNatural => Some(staked),
    }
}

/// Which actions a game in the given state allows.
pub open spec fn action_valid(state: BlackjackState, player_len: nat, action: BlackjackAction) -> bool {
    match state {
        BlackjackState::Betting => (action == BlackjackAction::DoubleDown && player_len == 2)
            || action == BlackjackAction::Stand || action == BlackjackAction::Hit,
        BlackjackState::Stand => action == BlackjackAction::Reveal,
        BlackjackState::PlayerBust => action == BlackjackAction::Reveal,
        BlackjackState::Closed => false,
    }
}

/// Whether every amount a game with this stake can compute fits in 64 bits.
pub open spec fn stake_fits(staked: Currency) -> bool {
    abs(staked.0 as int) * 5 <= 2 * (i64::MAX as int)
}

/// Whether a card may be dealt to a table that already shows `shown`: fewer than five of it
/// are showing, unless every rank has five or more showing.
pub open spec fn dealt_ok(shown: Seq<Card>, c: Card) -> bool {
    count_card(shown, c) <= 4 || forall|r: Card| #[trigger]
        is_standard(r) ==> count_card(shown, r) > 4
}

/// Whether the table takes a drawn card: any card of which at most four are showing.
pub open spec fn accepts(shown: Seq<Card>, c: Card) -> bool {
    count_card(shown, c) <= 4
}

/// The first rank, from position `k` of the deck's order on, of which at most four are
/// showing; the ace when there is none.
pub open spec fn fallback_from(shown: Seq<Card>, k: int) -> Card
    decreases 13 - k,
{
    if k >= 13 {
        Card::Ace
    } else if count_card(shown, rank_card(k)) <= 4 {
        rank_card(k)
    } else {
        fallback_from(shown, k + 1)
    }
}

/// The card dealt to a table showing `shown` when the deck draws `draws`, looking from draw
/// `i` on, and how many draws that took: the first draw the table takes among the first
/// `MAX_DRAW_ATTEMPTS`; once that many are sent back, the first rank under its limit.
pub open spec fn deal_from(shown: Seq<Card>, draws: Seq<Card>, i: int) -> (Card, int)
    decreases MAX_DRAW_ATTEMPTS - i,
{
    if i >= MAX_DRAW_ATTEMPTS {
        (fallback_from(shown, 0), MAX_DRAW_ATTEMPTS as int)
    } else if 0 <= i < draws.len() && accepts(shown, draws[i]) {
        (draws[i], i + 1)
    } else {
        deal_from(shown, draws, i + 1)
    }
}

/// Whether dealing one card to a table showing `shown` drew exactly `draws` from the deck and
/// dealt `c`.
pub open spec fn deals(shown: Seq<Card>, draws: Seq<Card>, c: Card) -> bool {
    deal_from(shown, draws, 0) == (c, draws.len() as int)
}

/// Whether the deck's record `after` goes on from `before`.
pub open spec fn continues(before: Seq<Card>, after: Seq<Card>) -> bool {
    before.len() <= after.len() && after.take(before.len() as int) == before
}

/// What the deck drew between its records `before` and `after`.
pub open spec fn draws_since(before: Seq<Card>, after: Seq<Card>) -> Seq<Card> {
    after.skip(before.len() as int)
}

/// The dealer's hand once the dealer has drawn to 17, with the player's hand on the table,
/// when the deck drew exactly `draws` on the way; `None` when those draws do not fit that play.
pub open spec fn dealer_run(dealer: Seq<Card>, player: Seq<Card>, draws: Seq<Card>) -> Option<
    Seq<Card>,
>
    decreases draws.len(),
{
    if hand_value(dealer) >= 17 {
        if draws.len() == 0 {
            Some(dealer)
        } else {
            None
        }
    } else {
        let dealt = deal_from(dealer + player, draws, 0);
        if 1 <= dealt.1 <= draws.len() {
            dealer_run(dealer.push(dealt.0), player, draws.skip(dealt.1))
        } else {
            None
        }
    }
}

/// The two hands of a new game when the deck drew exactly `draws`: two cards to the dealer,
/// then two to the player, each dealt by the rule above; `None` when the draws do not fit.
pub open spec fn opening_deal(draws: Seq<Card>) -> Option<(Seq<Card>, Seq<Card>)> {
    let d1 = deal_from(Seq::empty(), draws, 0);
    let r1 = draws.skip(d1.1);
    let d2 = deal_from(seq![d1.0], r1, 0);
    let r2 = r1.skip(d2.1);
    let p1 = deal_from(seq![d1.0, d2.0], r2, 0);
    let r3 = r2.skip(p1.1);
    let p2 = deal_from(seq![d1.0, d2.0, p1.0], r3, 0);
    if d1.1 <= draws.len() && d2.1 <= r1.len() && p1.1 <= r2.len() && p2.1 == r3.len() {
        Some((seq![d1.0, d2.0], seq![p1.0, p2.0]))
    } else {
        None
    }
}

/// What a valid action reports agrees with the game it leaves: the reported state is the
/// game's, the stake grows by exactly the reported raise, a payout comes only with a closed
/// game, and no action both raises the bet and pays out.
pub proof fn lemma_act_settles<D: Deck>(
    before: Blackjack<D>,
    after: Blackjack<D>,
    action: BlackjackAction,
    res: ActResult,
)
    requires
        act_fits(before, action),
        act_outcome(before, after, action, res),
    ensures
        res.next_state == after.state,
        after.staked.0 == before.staked.0 + match res.bet_increase {
            Some(x) => x.0 as int,
            None => 0,
        },
        res.payout is Some ==> res.next_state == BlackjackState::Closed,
        !(res.bet_increase is Some && res.payout is Some),
{
}

proof fn lemma_fallback_skip(shown: Seq<Card>, i: int)
    requires
        0 <= i <= 13,
        forall|k: int| 0 <= k < i ==> count_card(shown, #[trigger] rank_card(k)) > 4,
    ensures
        fallback_from(shown, 0) == fallback_from(shown, i),
    decreases i,
{
    if i > 0 {
        lemma_fallback_skip(shown, i - 1);
        assert(count_card(shown, rank_card(i - 1)) > 4);
    }
}

proof fn lemma_deal_skip(shown: Seq<Card>, draws: Seq<Card>, i: int)
    requires
        0 <= i <= MAX_DRAW_ATTEMPTS,
        i <= draws.len(),
        forall|j: int| 0 <= j < i ==> !accepts(shown, #[trigger] draws[j]),
    ensures
        deal_from(shown, draws, 0) == deal_from(shown, draws, i),
    decreases i,
{
    if i > 0 {
        lemma_deal_skip(shown, draws, i - 1);
        assert(!accepts(shown, draws[i - 1]));
    }
}

proof fn lemma_deal_past_end(shown: Seq<Card>, draws: Seq<Card>, i: int)
    requires
        i >= draws.len(),
    ensures
        deal_from(shown, draws, i) == (fallback_from(shown, 0), MAX_DRAW_ATTEMPTS as int),
    decreases MAX_DRAW_ATTEMPTS - i,
{
    if i < MAX_DRAW_ATTEMPTS {
        lemma_deal_past_end(shown, draws, i + 1);
    }
}

proof fn lemma_deal_extend(shown: Seq<Card>, draws: Seq<Card>, rest: Seq<Card>, i: int)
    requires
        0 <= i <= draws.len(),
        deal_from(shown, draws, i).1 == draws.len(),
    ensures
        deal_from(shown, draws + rest, i) == deal_from(shown, draws, i),
    decreases MAX_DRAW_ATTEMPTS - i,
{
    if i < MAX_DRAW_ATTEMPTS {
        if i < draws.len() {
            assert((draws + rest)[i] == draws[i]);
            if !accepts(shown, draws[i]) {
                lemma_deal_extend(shown, draws, rest, i + 1);
            }
        } else {
            lemma_deal_past_end(shown, draws, i + 1);
        }
    }
}

proof fn lemma_deal_takes_one(shown: Seq<Card>, draws: Seq<Card>, i: int)
    requires
        0 <= i < MAX_DRAW_ATTEMPTS,
    ensures
        deal_from(shown, draws, i).1 > i,
    decreases MAX_DRAW_ATTEMPTS - i,
{
    if i + 1 < MAX_DRAW_ATTEMPTS {
        lemma_deal_takes_one(shown, draws, i + 1);
    } else {
        assert(deal_from(shown, draws, i + 1).1 == MAX_DRAW_ATTEMPTS);
    }
}

/// Dealing from draws that begin with the ones a deal took deals the same card, and leaves
/// the rest.
proof fn lemma_deal_prefix(shown: Seq<Card>, draws: Seq<Card>, c: Card, rest: Seq<Card>)
    requires
        deals(shown, draws, c),
    ensures
        deal_from(shown, draws + rest, 0) == (c, draws.len() as int),
        (draws + rest).skip(draws.len() as int) == rest,
        draws.len() >= 1,
{
    lemma_deal_extend(shown, draws, rest, 0);
    lemma_deal_takes_one(shown, draws, 0);
    assert((draws + rest).skip(draws.len() as int) =~= rest);
}

/// One deal to a dealer under 17 is the first step of the dealer's play.
proof fn lemma_run_step(
    dealer: Seq<Card>,
    player: Seq<Card>,
    draws: Seq<Card>,
    c: Card,
    rest: Seq<Card>,
)
    requires
        hand_value(dealer) < 17,
        deals(dealer + player, draws, c),
    ensures
        dealer_run(dealer, player, draws + rest) == dealer_run(dealer.push(c), player, rest),
{
    lemma_deal_prefix(dealer + player, draws, c, rest);
}

/// Whether the dealer's hand `after` is `before` completed by drawing while under 17, each
/// card dealt under the rule above with the player's hand on the table.
pub open spec fn dealer_completed(before: Seq<Card>, after: Seq<Card>, player: Seq<Card>) -> bool {
    &&& after.len() >= before.len()
    &&& after.take(before.len() as int) == before
    &&& hand_value(after) >= 17
    &&& forall|k: int|
        before.len() <= k < after.len() ==> hand_value(#[trigger] after.take(k)) < 17
    &&& forall|k: int|
        before.len() <= k < after.len() ==> dealt_ok(after.take(k) + player, #[trigger] after[k])
}

/// Whether `after` is `before` with one card added, dealt under the rule above.
pub open spec fn one_card_dealt(before: Seq<Card>, after: Seq<Card>, shown: Seq<Card>) -> bool {
    &&& after.len() == before.len() + 1
    &&& after.take(before.len() as int) == before
    &&& dealt_ok(shown, after.last())
}

/// What playing `action` needs of a game: room for the cards it deals (a dealer under 17
/// draws at most 22 cards: at most 16 that add to the hand's value with aces as 1, and at most
/// five worth nothing), and a stake whose doubling and payouts fit in 64 bits.
pub open spec fn act_fits<D: Deck>(g: Blackjack<D>, action: BlackjackAction) -> bool {
    match action {
        BlackjackAction::Hit => g.dealer@.len() + g.player@.len() + 1 < usize::MAX,
        BlackjackAction::DoubleDown => g.dealer@.len() + g.player@.len() + 1 < usize::MAX
            && i64::MIN <= g.staked.0 * 2 <= i64::MAX,
        BlackjackAction::Stand => true,
        BlackjackAction::Reveal => stake_fits(g.staked) && (g.state != BlackjackState::PlayerBust
            ==> g.dealer@.len() + g.player@.len() + 23 < usize::MAX),
    }
}

/// What a valid action does to a game: `before` is the game before it, `after` the game after
/// it, and `res` the result it reports.
pub open spec fn act_outcome<D: Deck>(
    before: Blackjack<D>,
    after: Blackjack<D>,
    action: BlackjackAction,
    res: ActResult,
) -> bool {
    &&& res.next_state == after.state
    &&& res.bet_increase == if action == BlackjackAction::DoubleDown {
        Some(before.staked)
    } else {
        None
    }
    &&& after.staked == if action == BlackjackAction::DoubleDown {
        Currency((before.staked.0 * 2) as i64)
    } else {
        before.staked
    }
    &&& res.payout == if res.next_state == BlackjackState::Closed {
        closed_payout(winner_of(after.player@, after.dealer@), before.staked)
    } else {
        None
    }
    &&& D::obeys_deck_spec() ==> continues(before.deck.dealt(), after.deck.dealt())
    &&& match action {
        BlackjackAction::Hit => {
            &&& one_card_dealt(before.player@, after.player@, before.dealer@ + before.player@)
            &&& D::obeys_deck_spec() ==> deals(
                before.dealer@ + before.player@,
                draws_since(before.deck.dealt(), after.deck.dealt()),
                after.player@.last(),
            )
            &&& after.dealer == before.dealer
            &&& after.state == if hand_value(after.player@) > 21 {
                BlackjackState::PlayerBust
            } else {
                BlackjackState::Betting
            }
        },
        BlackjackAction::DoubleDown => {
            &&& one_card_dealt(before.player@, after.player@, before.dealer@ + before.player@)
            &&& D::obeys_deck_spec() ==> deals(
                before.dealer@ + before.player@,
                draws_since(before.deck.dealt(), after.deck.dealt()),
                after.player@.last(),
            )
            &&& after.dealer == before.dealer
            &&& after.state == if hand_value(after.player@) > 21 {
                BlackjackState::PlayerBust
            } else {
                BlackjackState::Stand
            }
        },
        BlackjackAction::Stand => {
            &&& after.player == before.player
            &&& after.dealer == before.dealer
            &&& after.deck == before.deck
            &&& after.state == BlackjackState::Stand
        },
        BlackjackAction::Reveal => {
            &&& after.player == before.player
            &&& if before.state == BlackjackState::PlayerBust {
                &&& after.dealer == before.dealer
                &&& after.deck == before.deck
            } else {
                &&& dealer_completed(before.dealer@, after.dealer@, before.player@)
                &&& D::obeys_deck_spec() ==> dealer_run(
                    before.dealer@,
                    before.player@,
                    draws_since(before.deck.dealt(), after.deck.dealt()),
                ) == Some(after.dealer@)
            }
            &&& after.state == BlackjackState::Closed
        },
    }
}

impl<D: Deck> Blackjack<D> {
    /// How many of a card the table shows.
    fn count_shown(&self, c: Card) -> (r: u64)
        requires
            self.dealer@.len() + self.player@.len() < u64::MAX,
        ensures
            r == count_card(self.dealer@ + self.player@, c),
    {
        let mut n: u64 = 0;
        let mut i: usize = 0;
        while i < self.dealer.len()
            invariant
                i <= self.dealer@.len(),
                n == count_card(self.dealer@.take(i as int), c),
                n <= i,
            decreases self.dealer@.len() - i,
        {
            assert(self.dealer@.take(i as int + 1).drop_last() =~= self.dealer@.take(i as int));
            if self.dealer[i] == c {
                n = n + 1;
            }
            i = i + 1;
        }
        assert(self.dealer@.take(i as int) =~= self.dealer@);
        let mut j: usize = 0;
        while j < self.player.len()
            invariant
                j <= self.player@.len(),
                self.dealer@.len() + self.player@.len() < u64::MAX,
                n == count_card(self.dealer@ + self.player@.take(j as int), c),
                n <= self.dealer@.len() + j,
            decreases self.player@.len() - j,
        {
            assert((self.dealer@ + self.player@.take(j as int + 1)).drop_last() =~= self.dealer@
                + self.player@.take(j as int));
            if self.player[j] == c {
                n = n + 1;
            }
            j = j + 1;
        }
        assert(self.dealer@ + self.player@.take(j as int) =~= self.dealer@ + self.player@);
        n
    }

    /// Draws a card for the table. A card of which five are already showing is sent back and
    /// the deck asked again; after `MAX_DRAW_ATTEMPTS` refusals the first rank with fewer than
    /// five showing is dealt (the ace when there is none), where a deck that never offers an
    /// allowed card would otherwise be asked forever.
    fn draw_card(&mut self) -> (c: Card)
        requires
            old(self).dealer@.len() + old(self).player@.len() < u64::MAX,
        ensures
            D::obeys_deck_spec() ==> continues(old(self).deck.dealt(), final(self).deck.dealt())
                && deals(
                old(self).dealer@ + old(self).player@,
                draws_since(old(self).deck.dealt(), final(self).deck.dealt()),
                c,
            ),
            dealt_ok(old(self).dealer@ + old(self).player@, c),
            count_card(old(self).dealer@ + old(self).player@, c) <= 4 || is_standard(c),
            final(self).dealer == old(self).dealer,
            final(self).player == old(self).player,
            final(self).staked == old(self).staked,
            final(self).state == old(self).state,
    {
        // We don't want to draw more than four of each card, that would look dumb.
        let ghost shown = old(self).dealer@ + old(self).player@;
        let ghost start = old(self).deck.dealt();
        let ghost mut drawn_so_far: Seq<Card> = Seq::empty();
        let mut attempts: u32 = 0;
        proof {
            assert(start + drawn_so_far =~= start);
        }
        while attempts < MAX_DRAW_ATTEMPTS
            invariant
                self.dealer == old(self).dealer,
                self.player == old(self).player,
                self.staked == old(self).staked,
                self.state == old(self).state,
                old(self).dealer@.len() + old(self).player@.len() < u64::MAX,
                shown == self.dealer@ + self.player@,
                start == old(self).deck.dealt(),
                D::obeys_deck_spec() ==> self.deck.dealt() == start + drawn_so_far,
                drawn_so_far.len() == attempts,
                attempts <= MAX_DRAW_ATTEMPTS,
                forall|j: int| 0 <= j < attempts ==> !accepts(shown, #[trigger] drawn_so_far[j]),
            decreases MAX_DRAW_ATTEMPTS - attempts,
        {
            let drawn = self.deck.draw();
            proof {
                drawn_so_far = drawn_so_far.push(drawn);
                if D::obeys_deck_spec() {
                    assert(self.deck.dealt() =~= start + drawn_so_far);
                }
            }
            if self.count_shown(drawn) <= 4 {
                proof {
                    if D::obeys_deck_spec() {
                        assert(draws_since(start, self.deck.dealt()) =~= drawn_so_far);
                        assert(self.deck.dealt().take(start.len() as int) =~= start);
                        lemma_deal_skip(shown, drawn_so_far, attempts as int);
                        assert(drawn_so_far[attempts as int] == drawn);
                    }
                }
                return drawn;
            }
            attempts = attempts + 1;
        }
        proof {
            if D::obeys_deck_spec() {
                assert(draws_since(start, self.deck.dealt()) =~= drawn_so_far);
                assert(self.deck.dealt().take(start.len() as int) =~= start);
                lemma_deal_skip(shown, drawn_so_far, MAX_DRAW_ATTEMPTS as int);
                assert(deal_from(shown, drawn_so_far, MAX_DRAW_ATTEMPTS as int) == (
                    fallback_from(shown, 0),
                    MAX_DRAW_ATTEMPTS as int,
                ));
            }
        }
        let mut i: u8 = 0;
        while i < 13
            invariant
                i <= 13,
                self.dealer == old(self).dealer,
                self.player == old(self).player,
                self.staked == old(self).staked,
                self.state == old(self).state,
                old(self).dealer@.len() + old(self).player@.len() < u64::MAX,
                shown == self.dealer@ + self.player@,
                D::obeys_deck_spec() ==> continues(old(self).deck.dealt(), self.deck.dealt()),
                D::obeys_deck_spec() ==> deal_from(
                    shown,
                    draws_since(old(self).deck.dealt(), self.deck.dealt()),
                    0,
                ) == (fallback_from(shown, 0), MAX_DRAW_ATTEMPTS as int),
                D::obeys_deck_spec() ==> draws_since(old(self).deck.dealt(), self.deck.dealt()).len()
                    == MAX_DRAW_ATTEMPTS,
                forall|k: int|
                    0 <= k < i ==> count_card(self.dealer@ + self.player@, #[trigger] rank_card(k))
                        > 4,
            decreases 13 - i,
        {
            let c = rank_at(i);
            if self.count_shown(c) <= 4 {
                proof {
                    lemma_fallback_skip(shown, i as int);
                }
                return c;
            }
            i = i + 1;
        }
        proof {
            lemma_fallback_skip(shown, 13);
            assert forall|r: Card| #[trigger] is_standard(r) implies count_card(
                old(self).dealer@ + old(self).player@,
                r,
            ) > 4 by {
                lemma_rank_index(r);
                assert(count_card(self.dealer@ + self.player@, rank_card(rank_index(r))) > 4);
            }
        }
        Card::Ace
    }

    fn draw_dealer(&mut self)
        requires
            old(self).dealer@.len() + old(self).player@.len() < u64::MAX - 1,
        ensures
            one_card_dealt(old(self).dealer@, final(self).dealer@, old(self).dealer@ + old(self).player@),
            count_card(old(self).dealer@ + old(self).player@, final(self).dealer@.last()) <= 4
                || is_standard(final(self).dealer@.last()),
            D::obeys_deck_spec() ==> continues(old(self).deck.dealt(), final(self).deck.dealt())
                && deals(
                old(self).dealer@ + old(self).player@,
                draws_since(old(self).deck.dealt(), final(self).deck.dealt()),
                final(self).dealer@.last(),
            ),
            final(self).dealer@ == old(self).dealer@.push(final(self).dealer@.last()),
            final(self).player == old(self).player,
            final(self).staked == old(self).staked,
            final(self).state == old(self).state,
    {
        let drawn = self.draw_card();
        self.dealer.push(drawn);
        assert(self.dealer@.take(old(self).dealer@.len() as int) =~= old(self).dealer@);
    }

    fn draw_player(&mut self)
        requires
            old(self).dealer@.len() + old(self).player@.len() < u64::MAX - 1,
        ensures
            one_card_dealt(old(self).player@, final(self).player@, old(self).dealer@ + old(self).player@),
            D::obeys_deck_spec() ==> continues(old(self).deck.dealt(), final(self).deck.dealt())
                && deals(
                old(self).dealer@ + old(self).player@,
                draws_since(old(self).deck.dealt(), final(self).deck.dealt()),
                final(self).player@.last(),
            ),
            final(self).player@ == old(self).player@.push(final(self).player@.last()),
            final(self).dealer == old(self).dealer,
            final(self).staked == old(self).staked,
            final(self).state == old(self).state,
    {
        let drawn = self.draw_card();
        self.player.push(drawn);
        assert(self.player@.take(old(self).player@.len() as int) =~= old(self).player@);
    }

    /// Opens a game with this stake: two cards each to the dealer and the player, dealt from
    /// `deck` in that order. A natural on either side closes the game at once; the second
    /// value is what it pays then.
    pub fn new(staked: Currency, deck: D) -> (r: (Self, Option<Currency>))
        requires
            stake_fits(staked),
        ensures
            r.0.dealer@.len() == 2,
            r.0.player@.len() == 2,
            r.0.staked == staked,
            r.0.state == if is_natural(winner_of(r.0.player@, r.0.dealer@)) {
                BlackjackState::Closed
            } else {
                BlackjackState::Betting
            },
            r.1 == opening_payout(winner_of(r.0.player@, r.0.dealer@), staked),
            D::obeys_deck_spec() ==> continues(deck.dealt(), r.0.deck.dealt()) && opening_deal(
                draws_since(deck.dealt(), r.0.deck.dealt()),
            ) == Some((r.0.dealer@, r.0.player@)),
    {
        let mut game = Blackjack {
            dealer: Vec::new(),
            player: Vec::new(),
            staked,
            deck,
            state: BlackjackState::Betting,
        };
        let ghost s0 = game.deck.dealt();
        game.draw_dealer();
        let ghost s1 = game.deck.dealt();
        let ghost c1 = game.dealer@.last();
        game.draw_dealer();
        let ghost s2 = game.deck.dealt();
        let ghost c2 = game.dealer@.last();
        game.draw_player();
        let ghost s3 = game.deck.dealt();
        let ghost p1 = game.player@.last();
        game.draw_player();
        let ghost s4 = game.deck.dealt();
        let ghost p2 = game.player@.last();
        proof {
            assert(game.dealer@ =~= seq![c1, c2]);
            assert(game.player@ =~= seq![p1, p2]);
        }
        proof {
            if D::obeys_deck_spec() {
            assert(Seq::<Card>::empty() + Seq::<Card>::empty() =~= Seq::<Card>::empty());
            assert(seq![c1] + Seq::<Card>::empty() =~= seq![c1]);
            assert(seq![c1, c2] + Seq::<Card>::empty() =~= seq![c1, c2]);
            assert(seq![c1, c2] + seq![p1] =~= seq![c1, c2, p1]);
            assert(game.dealer@ =~= seq![c1, c2]);
            assert(game.player@ =~= seq![p1, p2]);
            lemma_opening(
                draws_since(s0, s1),
                draws_since(s1, s2),
                draws_since(s2, s3),
                draws_since(s3, s4),
                c1,
                c2,
                p1,
                p2,
            );
            lemma_continues_chain(s0, s1, s2);
            lemma_continues_chain(s0, s2, s3);
            lemma_continues_chain(s0, s3, s4);
            }
        }
        let winner = game.outcome();
        if winner == GameWinner::DealerNatural || winner == GameWinner::PlayerNatural || winner
            == GameWinner::PushNatural {
            game.state = BlackjackState::Closed;
        }
        let payout = match winner {
            // You lose.
            GameWinner::DealerNatural => None,
            // A natural pays 3:2.
            GameWinner::PlayerNatural => {
                let bonus = staked.mul_fraction(3, 2);
                Some(staked.add(bonus))
            },
            GameWinner::PushNatural => Some(staked),
            _ => None,
        };
        (game, payout)
    }

    /// Whether the game allows the action now.
    pub fn is_action_valid(&self, action: BlackjackAction) -> (r: bool)
        ensures
            r == action_valid(self.state, self.player@.len(), action),
    {
        match self.state {
            BlackjackState::Betting => {
                // Only double down with two cards, before any hit.
                if action == BlackjackAction::DoubleDown && self.player.len() == 2 {
                    true
                } else {
                    action == BlackjackAction::Stand || action == BlackjackAction::Hit
                }
            },
            // Once stood or busted, only the dealer's cards can be revealed.
            BlackjackState::Stand | BlackjackState::PlayerBust => action
                == BlackjackAction::Reveal,
            BlackjackState::Closed => false,
        }
    }

    /// Plays an action. A hit or a double down deals the player a card (a double down also
    /// doubles the stake and ends the betting); a reveal lets the dealer draw to 17 unless the
    /// player busted, then closes the game and pays the player what they won. Each card dealt
    /// is the first of the deck's draws that the table takes, as `draw_card` says. An action
    /// the game does not allow is refused and changes nothing, the deck included.
    pub fn act(&mut self, action: BlackjackAction) -> (r: Result<ActResult, BlackjackError>)
        requires
            action_valid(old(self).state, old(self).player@.len(), action) ==> act_fits(
                *old(self),
                action,
            ),
        ensures
            !action_valid(old(self).state, old(self).player@.len(), action) ==> r == Err::<
                ActResult,
                BlackjackError,
            >(BlackjackError::InvalidAction(action)) && *final(self) == *old(self),
            action_valid(old(self).state, old(self).player@.len(), action) ==> (r matches Ok(res)
                && act_outcome(*old(self), *final(self), action, res)),
    {
        if !self.is_action_valid(action) {
            // The command checks this first; check again here.
            return Err(BlackjackError::InvalidAction(action));
        }
        proof {
            let d = old(self).deck.dealt();
            assert(d.take(d.len() as int) =~= d);
        }
        let next_state = match action {
            BlackjackAction::Hit => {
                self.draw_player();
                if capped_hand_value(&self.player) > 21 {
                    BlackjackState::PlayerBust
                } else {
                    BlackjackState::Betting
                }
            },
            BlackjackAction::Stand => BlackjackState::Stand,
            BlackjackAction::DoubleDown => {
                self.draw_player();
                if capped_hand_value(&self.player) > 21 {
                    BlackjackState::PlayerBust
                } else {
                    BlackjackState::Stand
                }
            },
            BlackjackAction::Reveal => {
                // A busted player already lost: the dealer draws nothing and only the face
                // down card is shown.
                if self.state != BlackjackState::PlayerBust {
                    self.dealer_draw_to_17();
                }
                BlackjackState::Closed
            },
        };
        self.state = next_state;
        let bet_increase = if action == BlackjackAction::DoubleDown {
            Some(self.staked)
        } else {
            None
        };
        let payout = if next_state == BlackjackState::Closed {
            let w = self.outcome();
            match w {
                GameWinner::Dealer => None,
                GameWinner::Player => Some(self.staked.mul_int(2)),
                GameWinner::Push => Some(self.staked),
                // These are settled when the game opens, but pay the same here.
                GameWinner::DealerNatural => None,
                GameWinner::PlayerNatural => Some(self.staked.mul_fraction(5, 2)),
                GameWinner::PushNatural => Some(self.staked),
            }
        } else {
            None
        };
        if let Some(increase) = bet_increase {
            self.staked = self.staked.add(increase);
        }
        Ok(ActResult { next_state, bet_increase, payout })
    }

    /// The dealer draws while their hand is worth less than 17.
    fn dealer_draw_to_17(&mut self)
        requires
            old(self).dealer@.len() + old(self).player@.len() + 23 < usize::MAX,
        ensures
            dealer_completed(old(self).dealer@, final(self).dealer@, old(self).player@),
            D::obeys_deck_spec() ==> continues(old(self).deck.dealt(), final(self).deck.dealt())
                && dealer_run(
                old(self).dealer@,
                old(self).player@,
                draws_since(old(self).deck.dealt(), final(self).deck.dealt()),
            ) == Some(final(self).dealer@),
            final(self).player == old(self).player,
            final(self).staked == old(self).staked,
            final(self).state == old(self).state,
            final(self).dealer@.len() <= old(self).dealer@.len() + 22,
    {
        let ghost before = old(self).dealer@;
        let ghost start = old(self).deck.dealt();
        let ghost zero = Card::Numeric(0);
        proof {
            assert(before.take(before.len() as int) =~= before);
            lemma_aces_le_hard(before);
            if D::obeys_deck_spec() {
                assert(start.take(start.len() as int) =~= start);
                assert forall|rest: Seq<Card>| #[trigger]
                    dealer_run(self.dealer@, self.player@, rest) == dealer_run(
                        before,
                        self.player@,
                        draws_since(start, self.deck.dealt()) + rest,
                    ) by {
                    assert(draws_since(start, self.deck.dealt()) + rest =~= rest);
                }
            }
        }
        while capped_hand_value(&self.dealer) < 17
            invariant
                self.player == old(self).player,
                self.staked == old(self).staked,
                self.state == old(self).state,
                self.dealer@.len() >= before.len(),
                self.dealer@.take(before.len() as int) == before,
                forall|k: int|
                    before.len() <= k < self.dealer@.len() ==> hand_value(
                        #[trigger] self.dealer@.take(k),
                    ) < 17,
                forall|k: int|
                    before.len() <= k < self.dealer@.len() ==> dealt_ok(
                        self.dealer@.take(k) + self.player@,
                        #[trigger] self.dealer@[k],
                    ),
                self.dealer@.len() - before.len() <= (hard_value(self.dealer@) - hard_value(
                    before,
                )) + (count_card(self.dealer@, zero) - count_card(before, zero)),
                count_card(self.dealer@, zero) == count_card(before, zero) || count_card(
                    self.dealer@,
                    zero,
                ) <= 5,
                count_card(self.dealer@, zero) >= count_card(before, zero),
                hard_value(self.dealer@) >= hard_value(before),
                hard_value(before) >= 0,
                zero == Card::Numeric(0),
                before.len() + self.player@.len() + 23 < usize::MAX,
                self.dealer@.len() <= before.len() + 22,
                start == old(self).deck.dealt(),
                D::obeys_deck_spec() ==> continues(start, self.deck.dealt()),
                D::obeys_deck_spec() ==> forall|rest: Seq<Card>| #[trigger]
                    dealer_run(self.dealer@, self.player@, rest) == dealer_run(
                        before,
                        self.player@,
                        draws_since(start, self.deck.dealt()) + rest,
                    ),
            decreases
                (if hard_value(self.dealer@) < 17 {
                    17 - hard_value(self.dealer@)
                } else {
                    0
                }),
                (if count_card(self.dealer@, zero) <= 5 {
                    5 - count_card(self.dealer@, zero)
                } else {
                    0
                }),
        {
            let ghost prev = self.dealer@;
            let ghost dp = self.deck.dealt();
            proof {
                lemma_value_matches(prev);
                lemma_value_ge_hard(hand_total(prev) as int, ace_count(prev));
                assert(hard_value(prev) < 17);
                // A hand under 17 has at most 16 cards that add to its hard value beyond the
                // first, and at most five worth nothing.
                assert(prev.len() <= before.len() + 21);
            }
            self.draw_dealer();
            proof {
                let now = self.dealer@;
                let c = now.last();
                assert(now.drop_last() =~= prev);
                assert(now.take(prev.len() as int) =~= prev);
                assert(now.take(before.len() as int) =~= prev.take(before.len() as int));
                assert(hand_total(now) == hand_total(prev) + card_value(c));
                assert(count_card(now, zero) == count_card(prev, zero) + if c == zero {
                    1int
                } else {
                    0int
                });
                if c == zero {
                    lemma_count_concat(prev, self.player@, zero);
                    assert(!is_standard(zero));
                    assert(count_card(prev + self.player@, zero) <= 4);
                } else {
                    assert(hard_value(now) >= hard_value(prev) + 1);
                }
                assert forall|k: int| before.len() <= k < now.len() implies hand_value(
                    #[trigger] now.take(k),
                ) < 17 by {
                    if k < prev.len() {
                        assert(now.take(k) =~= prev.take(k));
                    } else {
                        assert(now.take(k) =~= prev);
                        lemma_value_matches(prev);
                    }
                }
                if D::obeys_deck_spec() {
                    lemma_run_invariant_step(
                        before,
                        self.player@,
                        start,
                        dp,
                        self.deck.dealt(),
                        prev,
                        now,
                    );
                }
                assert forall|k: int| before.len() <= k < now.len() implies dealt_ok(
                    now.take(k) + self.player@,
                    #[trigger] now[k],
                ) by {
                    if k < prev.len() {
                        assert(now.take(k) =~= prev.take(k));
                        assert(now[k] == prev[k]);
                    } else {
                        assert(now.take(k) =~= prev);
                    }
                }
            }
        }
        proof {
            if D::obeys_deck_spec() {
                let cur = draws_since(start, self.deck.dealt());
                assert(dealer_run(self.dealer@, self.player@, Seq::<Card>::empty()) == dealer_run(
                    before,
                    self.player@,
                    cur + Seq::<Card>::empty(),
                ));
                assert(cur + Seq::<Card>::empty() =~= cur);
            }
        }
    }

    /// Who won with the hands as they are, for hands of any size.
    fn outcome(&self) -> (r: GameWinner)
        ensures
            r == winner_of(self.player@, self.dealer@),
    {
        let player_value = capped_hand_value(&self.player);
        let dealer_value = capped_hand_value(&self.dealer);
        let dealer_natural = dealer_value == 21 && self.dealer.len() == 2;
        let player_natural = player_value == 21 && self.player.len() == 2;
        if dealer_natural && player_natural {
            GameWinner::PushNatural
        } else if dealer_natural {
            GameWinner::DealerNatural
        } else if player_natural {
            GameWinner::PlayerNatural
        } else if player_value > 21 {
            GameWinner::Dealer
        } else if dealer_value > 21 {
            GameWinner::Player
        } else if 21 - dealer_value < 21 - player_value {
            GameWinner::Dealer
        } else if 21 - player_value < 21 - dealer_value {
            GameWinner::Player
        } else {
            GameWinner::Push
        }
    }

    /// Who won with the hands as they are.
    pub fn winner(&self) -> (r: GameWinner)
        requires
            hand_total(self.player@) <= 255,
            hand_total(self.dealer@) <= 255,
        ensures
            r == winner_of(self.player@, self.dealer@),
    {
        let player_value = value_cards(&self.player);
        let dealer_value = value_cards(&self.dealer);
        let dealer_natural = dealer_value == 21 && self.dealer.len() == 2;
        let player_natural = player_value == 21 && self.player.len() == 2;
        if dealer_natural && player_natural {
            GameWinner::PushNatural
        } else if dealer_natural {
            GameWinner::DealerNatural
        } else if player_natural {
            GameWinner::PlayerNatural
        } else if player_value > 21 {
            GameWinner::Dealer
        } else if dealer_value > 21 {
            GameWinner::Player
        } else {
            let dealer_diff = 21 - dealer_value;
            let player_diff = 21 - player_value;
            if dealer_diff < player_diff {
                GameWinner::Dealer
            } else if player_diff < dealer_diff {
                GameWinner::Player
            } else {
                GameWinner::Push
            }
        }
    }

    /// A game read back from its stored record, dealt from `deck` from now on.
    pub fn from_db(db: &DbBlackjack, deck: D) -> (r: Result<Self, CardParseError>)
        ensures
            match r {
                Ok(game) => hand_parse(db.dealer@) == Ok::<Seq<Card>, CardParseError>(game.dealer@)
                    && hand_parse(db.player@) == Ok::<Seq<Card>, CardParseError>(game.player@)
                    && game.staked == db.staked && game.state == db.state && game.deck == deck,
                Err(e) => hand_parse(db.dealer@) == Err::<Seq<Card>, CardParseError>(e) || (
                hand_parse(db.dealer@) is Ok && hand_parse(db.player@) == Err::<
                    Seq<Card>,
                    CardParseError,
                >(e)),
            },
    {
        let dealer = match deserialize_cards(db.dealer.as_str()) {
            Ok(d) => d,
            Err(e) => {
                return Err(e);
            },
        };
        let player = match deserialize_cards(db.player.as_str()) {
            Ok(p) => p,
            Err(e) => {
                return Err(e);
            },
        };
        Ok(Blackjack { dealer, player, staked: db.staked, state: db.state, deck })
    }

    /// The record that stores a new game, owned by `owner`, shown in the given message.
    pub fn to_db_create(&self, owner: &DbUser, channel_id: u64, message_id: u64) -> (r:
        CreateBlackjack)
        ensures
            r.dealer@ == hand_text(self.dealer@),
            r.player@ == hand_text(self.player@),
            r.owner_id == owner.id as i64,
            r.state == self.state,
            r.staked == self.staked,
            r.channel_id@ == decimal(channel_id as nat),
            r.message_id@ == decimal(message_id as nat),
    {
        CreateBlackjack {
            dealer: self.dealer_serialized(),
            player: self.player_serialized(),
            owner_id: owner.id as i64,
            state: self.state,
            staked: self.staked,
            channel_id: u64_to_decimal(channel_id),
            message_id: u64_to_decimal(message_id),
        }
    }

    /// The record that updates a stored game.
    pub fn to_db_update(&self) -> (r: UpdateBlackjack)
        ensures
            r.dealer@ == hand_text(self.dealer@),
            r.player@ == hand_text(self.player@),
            r.staked == self.staked,
            r.state == self.state,
    {
        UpdateBlackjack {
            dealer: self.dealer_serialized(),
            player: self.player_serialized(),
            staked: self.staked,
            state: self.state,
        }
    }

    /// The dealer's hand as text.
    pub fn dealer_serialized(&self) -> (r: String)
        ensures
            r@ == hand_text(self.dealer@),
    {
        serialize_cards(&self.dealer)
    }

    /// The player's hand as text.
    pub fn player_serialized(&self) -> (r: String)
        ensures
            r@ == hand_text(self.player@),
    {
        serialize_cards(&self.player)
    }

    /// The value the dealer shows: the whole hand once the game is closed, else only the face
    /// up card.
    pub fn dealer_value(&self) -> (r: u8)
        requires
            self.state == BlackjackState::Closed ==> hand_total(self.dealer@) <= 255,
            self.state != BlackjackState::Closed ==> self.dealer@.len() > 0,
        ensures
            r == if self.state == BlackjackState::Closed {
                hand_value(self.dealer@)
            } else {
                card_value(self.dealer@[0]) as int
            },
    {
        // The face down card's value stays hidden until the game is over.
        if self.state == BlackjackState::Closed {
            value_cards(&self.dealer)
        } else {
            self.dealer[0].value()
        }
    }

    /// The value of the player's hand.
    pub fn player_value(&self) -> (r: u8)
        requires
            hand_total(self.player@) <= 255,
        ensures
            r == hand_value(self.player@),
    {
        value_cards(&self.player)
    }

    /// The dealer's cards as shown: all of them once the game is closed, else the face up
    /// card and a `?`.
    pub fn dealer_display(&self) -> (r: String)
        requires
            self.state != BlackjackState::Closed ==> self.dealer@.len() > 0,
        ensures
            r@ == if self.state == BlackjackState::Closed {
                hand_text(self.dealer@)
            } else {
                card_text(self.dealer@[0]) + seq![' ', '?']
            },
    {
        if self.state == BlackjackState::Closed {
            serialize_cards(&self.dealer)
        } else {
            let mut r = self.dealer[0].to_string();
            push_char(&mut r, ' ');
            push_char(&mut r, '?');
            assert(r@ =~= card_text(self.dealer@[0]) + seq![' ', '?']);
            r
        }
    }

    /// The player's cards, all of which are always shown.
    pub fn player_display(&self) -> (r: String)
        ensures
            r@ == hand_text(self.player@),
    {
        serialize_cards(&self.player)
    }
}

/// What the dealer's loop keeps about the deck: after one more card, the play from the first
/// hand over all draws so far still ends where the play from the current hand ends.
proof fn lemma_run_invariant_step(
    before: Seq<Card>,
    player: Seq<Card>,
    start: Seq<Card>,
    dp: Seq<Card>,
    dn: Seq<Card>,
    prev: Seq<Card>,
    now: Seq<Card>,
)
    requires
        continues(start, dp),
        continues(dp, dn),
        hand_value(prev) < 17,
        deals(prev + player, draws_since(dp, dn), now.last()),
        now == prev.push(now.last()),
        forall|rest: Seq<Card>| #[trigger]
            dealer_run(prev, player, rest) == dealer_run(
                before,
                player,
                draws_since(start, dp) + rest,
            ),
    ensures
        continues(start, dn),
        forall|rest: Seq<Card>| #[trigger]
            dealer_run(now, player, rest) == dealer_run(
                before,
                player,
                draws_since(start, dn) + rest,
            ),
{
    let g = draws_since(dp, dn);
    let cur = draws_since(start, dp);
    assert(dn =~= dp + g);
    assert(dp =~= start + cur);
    assert(dn.take(start.len() as int) =~= start);
    assert(draws_since(start, dn) =~= cur + g);
    assert forall|rest: Seq<Card>| #[trigger]
        dealer_run(now, player, rest) == dealer_run(
            before,
            player,
            draws_since(start, dn) + rest,
        ) by {
        lemma_run_step(prev, player, g, now.last(), rest);
        assert(draws_since(start, dn) + rest =~= cur + (g + rest));
        assert(dealer_run(prev, player, g + rest) == dealer_run(before, player, cur + (g + rest)));
    }
}

/// Two stretches of a deck's record make one.
proof fn lemma_continues_chain(a: Seq<Card>, b: Seq<Card>, c: Seq<Card>)
    requires
        continues(a, b),
        continues(b, c),
    ensures
        continues(a, c),
        draws_since(a, c) == draws_since(a, b) + draws_since(b, c),
{
    assert(c =~= b + draws_since(b, c));
    assert(b =~= a + draws_since(a, b));
    assert(c.take(a.len() as int) =~= a);
    assert(draws_since(a, c) =~= draws_since(a, b) + draws_since(b, c));
}

/// Four deals in a row, two to the dealer and then two to the player, are the opening deal
/// of the draws they took together.
proof fn lemma_opening(
    g1: Seq<Card>,
    g2: Seq<Card>,
    g3: Seq<Card>,
    g4: Seq<Card>,
    c1: Card,
    c2: Card,
    p1: Card,
    p2: Card,
)
    requires
        deals(Seq::empty(), g1, c1),
        deals(seq![c1], g2, c2),
        deals(seq![c1, c2], g3, p1),
        deals(seq![c1, c2, p1], g4, p2),
    ensures
        opening_deal(g1 + g2 + g3 + g4) == Some((seq![c1, c2], seq![p1, p2])),
{
    let all = g1 + g2 + g3 + g4;
    assert(all =~= g1 + (g2 + (g3 + g4)));
    lemma_deal_prefix(Seq::empty(), g1, c1, g2 + (g3 + g4));
    lemma_deal_prefix(seq![c1], g2, c2, g3 + g4);
    lemma_deal_prefix(seq![c1, c2], g3, p1, g4);
}

/// How often a card occurs in two hands together.
proof fn lemma_count_concat(a: Seq<Card>, b: Seq<Card>, x: Card)
    ensures
        count_card(a + b, x) == count_card(a, x) + count_card(b, x),
    decreases b.len(),
{
    if b.len() == 0 {
        assert(a + b =~= a);
    } else {
        lemma_count_concat(a, b.drop_last(), x);
        assert((a + b).drop_last() =~= a + b.drop_last());
        assert((a + b).last() == b.last());
    }
}

proof fn lemma_value_matches(s: Seq<Card>)
    ensures
        hand_value(s) == reduce_aces(hand_total(s) as int, ace_count(s)),
{
}

/// Whether a stake is small enough for every amount a game computes from it.
pub fn stake_allowed(staked: Currency) -> (r: bool)
    ensures
        r == stake_fits(staked),
{
    let a: i128 = if staked.0 < 0 {
        -(staked.0 as i128)
    } else {
        staked.0 as i128
    };
    a * 5 <= 2 * (i64::MAX as i128)
}

impl<D: Deck> Blackjack<D> {
    /// Whether the game's hands and stake are within what `act` works with for `action`.
    pub fn can_act(&self, action: BlackjackAction) -> (r: bool)
        ensures
            r == act_fits(*self, action),
    {
        let room_for_one = self.dealer.len() < usize::MAX - 1 && self.player.len() < usize::MAX
            - 1 - self.dealer.len();
        match action {
            BlackjackAction::Hit => room_for_one,
            BlackjackAction::DoubleDown => room_for_one && -4611686018427387904i64
                <= self.staked.0 && self.staked.0 <= 4611686018427387903i64,
            BlackjackAction::Stand => true,
            BlackjackAction::Reveal => {
                let room_for_dealer = self.state == BlackjackState::PlayerBust || (
                self.dealer.len() < usize::MAX - 23 && self.player.len() < usize::MAX - 23
                    - self.dealer.len());
                stake_allowed(self.staked) && room_for_dealer
            },
        }
    }

    /// Whether the game's hands and stake are within what rendering its message works with.
    pub fn can_render(&self) -> (r: bool)
        ensures
            r == (hand_total(self.player@) <= 255 && hand_total(self.dealer@) <= 255
                && self.dealer@.len() > 0 && self.staked.0 != i64::MIN && (self.state
                == BlackjackState::Closed ==> stake_fits(self.staked))),
    {
        hand_total_at_most(&self.player, 255) && hand_total_at_most(&self.dealer, 255)
            && self.dealer.len() > 0 && self.staked.0 != i64::MIN && (self.state
            != BlackjackState::Closed || stake_allowed(
            self.staked,
        ))
    }
}

} // verus!
