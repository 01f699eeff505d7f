//! Playing cards: their values in blackjack, their text, and hands written as text.

use vstd::prelude::*;
use crate::text::{split_on, lemma_split_no_sep, lemma_split_len, lemma_split_append, decimal, digits_value, parse_u8_spec, parse_u8, u64_to_decimal, push_char, append_str, is_digit, all_digits};

verus! {

/// A card; suits do not matter in this game.
#[derive(Debug, Clone, Copy, PartialEq, Eq, Hash, Structural)]
pub enum Card {
    Ace,
    King,
    Queen,
    Jack,
    Numeric(u8),
}

/// Why a card could not be read from text.
#[derive(Debug, Clone, Copy, PartialEq, Eq, Hash, Structural)]
pub enum CardParseError {
    /// The text was neither a face letter nor a number.
    NotFaceOrNumber,
    /// The text was a number outside 2 to 10.
    OutOfRange,
}

impl CardParseError {
    /// The message that explains the error.
    pub fn message(&self) -> (r: &'static str)
        ensures
            r@ == card_parse_error_text(*self),
    {
        match self {
            CardParseError::NotFaceOrNumber => "card was not a face or number",
            CardParseError::OutOfRange => "card was not in 2-10",
        }
    }
}

/// The message of a card parse error.
pub open spec fn card_parse_error_text(e: CardParseError) -> Seq<char> {
    match e {
        CardParseError::NotFaceOrNumber => "card was not a face or number"@,
        CardParseError::OutOfRange => "card was not in 2-10"@,
    }
}

/// A card's value in blackjack, counting an ace as 11.
pub open spec fn card_value(c: Card) -> nat {
    match c {
        Card::Ace => 11,
        Card::King => 10,
        Card::Queen => 10,
        Card::Jack => 10,
        Card::Numeric(n) => n as nat,
    }
}

/// Whether a card is one of the thirteen ranks of a deck: an ace, a face, or 2 to 10.
pub open spec fn is_standard(c: Card) -> bool {
    match c {
        Card::Numeric(n) => 2 <= n <= 10,
        _ => true,
    }
}

/// Whether every card of a hand is standard.
pub open spec fn all_standard(s: Seq<Card>) -> bool {
    forall|i: int| 0 <= i < s.len() ==> is_standard(#[trigger] s[i])
}

/// How a card is written: `A`, `K`, `Q`, `J`, or its number.
pub open spec fn card_text(c: Card) -> Seq<char> {
    match c {
        Card::Ace => seq!['A'],
        Card::King => seq!['K'],
        Card::Queen => seq!['Q'],
        Card::Jack => seq!['J'],
        Card::Numeric(n) => decimal(n as nat),
    }
}

/// How a card is read from text (`Card::from_str`).
pub open spec fn card_parse(s: Seq<char>) -> Result<Card, CardParseError> {
    if s == seq!['A'] {
        Ok(Card::Ace)
    } else if s == seq!['K'] {
        Ok(Card::King)
    } else if s == seq!['Q'] {
        Ok(Card::Queen)
    } else if s == seq!['J'] {
        Ok(Card::Jack)
    } else {
        match parse_u8_spec(s) {
            None => Err(CardParseError::NotFaceOrNumber),
            Some(n) => if n < 2 || n > 10 {
                Err(CardParseError::OutOfRange)
            } else {
                Ok(Card::Numeric(n))
            },
        }
    }
}

/// The sum of the values of a hand, every ace counted as 11.
pub open spec fn hand_total(s: Seq<Card>) -> nat
    decreases s.len(),
{
    if s.len() == 0 {
        0
    } else {
        hand_total(s.drop_last()) + card_value(s.last())
    }
}

/// The number of aces in a hand.
pub open spec fn ace_count(s: Seq<Card>) -> nat
    decreases s.len(),
{
    if s.len() == 0 {
        0
    } else {
        ace_count(s.drop_last()) + if s.last() == Card::Ace {
            1nat
        } else {
            0nat
        }
    }
}

/// Counts aces as 1 instead of 11, one at a time, while the sum is over 21.
pub open spec fn reduce_aces(sum: int, aces: nat) -> int
    decreases aces,
{
    if sum > 21 && aces > 0 {
        reduce_aces(sum - 10, (aces - 1) as nat)
    } else {
        sum
    }
}

/// A hand's value in blackjack: each ace counts 11, or 1 where that keeps the hand from going
/// over 21.
pub open spec fn hand_value(s: Seq<Card>) -> int {
    reduce_aces(hand_total(s) as int, ace_count(s))
}

/// A hand's value with every ace counted as 1.
pub open spec fn hard_value(s: Seq<Card>) -> int {
    hand_total(s) - 10 * ace_count(s)
}

/// The number of times a card occurs in a sequence of cards.
pub open spec fn count_card(s: Seq<Card>, c: Card) -> nat
    decreases s.len(),
{
    if s.len() == 0 {
        0
    } else {
        count_card(s.drop_last(), c) + if s.last() == c {
            1nat
        } else {
            0nat
        }
    }
}

/// A hand written as the text of its cards separated by single spaces.
pub open spec fn hand_text(s: Seq<Card>) -> Seq<char>
    decreases s.len(),
{
    if s.len() == 0 {
        Seq::empty()
    } else if s.len() == 1 {
        card_text(s[0])
    } else {
        hand_text(s.drop_last()) + seq![' '] + card_text(s.last())
    }
}

/// Reads each piece as a card; the first piece that is not a card gives the error.
pub open spec fn parse_cards(parts: Seq<Seq<char>>) -> Result<Seq<Card>, CardParseError>
    decreases parts.len(),
{
    if parts.len() == 0 {
        Ok(Seq::empty())
    } else {
        match parse_cards(parts.drop_last()) {
            Err(e) => Err(e),
            Ok(cards) => match card_parse(parts.last()) {
                Ok(c) => Ok(cards.push(c)),
                Err(e) => Err(e),
            },
        }
    }
}

/// How a hand is read back from its text.
pub open spec fn hand_parse(s: Seq<char>) -> Result<Seq<Card>, CardParseError> {
    parse_cards(split_on(s, ' '))
}

impl Card {
    /// The card's value in blackjack, an ace counting 11.
    pub fn value(&self) -> (r: u8)
        ensures
            r == card_value(*self),
    {
        match self {
            // An ace can also count as 1 where that stops a hand from going over; that is
            // decided when a whole hand is valued.
            Card::Ace => 11,
            Card::King => 10,
            Card::Queen => 10,
            Card::Jack => 10,
            Card::Numeric(n) => *n,
        }
    }

    /// Whether the card is one of the thirteen ranks of a deck.
    pub fn is_standard(&self) -> (r: bool)
        ensures
            r == is_standard(*self),
    {
        match self {
            Card::Numeric(n) => 2 <= *n && *n <= 10,
            _ => true,
        }
    }

    /// The card's text: `A`, `K`, `Q`, `J`, or its number.
    pub fn to_string(&self) -> (r: String)
        ensures
            r@ == card_text(*self),
    {
        let mut r = String::new();
        match self {
            Card::Ace => push_char(&mut r, 'A'),
            Card::King => push_char(&mut r, 'K'),
            Card::Queen => push_char(&mut r, 'Q'),
            Card::Jack => push_char(&mut r, 'J'),
            Card::Numeric(n) => {
                let digits = u64_to_decimal(*n as u64);
                append_str(&mut r, digits.as_str());
            },
        }
        assert(r@ =~= card_text(*self));
        r
    }

    /// Reads a card from its text.
    pub fn from_str(s: &str) -> (r: Result<Card, CardParseError>)
        ensures
            r == card_parse(s@),
    {
        let n = s.unicode_len();
        if n == 1 {
            let c = s.get_char(0);
            assert(s@ =~= seq![c]);
            if c == 'A' {
                return Ok(Card::Ace);
            } else if c == 'K' {
                return Ok(Card::King);
            } else if c == 'Q' {
                return Ok(Card::Queen);
            } else if c == 'J' {
                return Ok(Card::Jack);
            }
        }
        assert(n != 1 ==> s@ != seq!['A'] && s@ != seq!['K'] && s@ != seq!['Q'] && s@ != seq![
            'J',
        ]);
        match parse_u8(s) {
            None => Err(CardParseError::NotFaceOrNumber),
            Some(v) => {
                if v < 2 || v > 10 {
                    Err(CardParseError::OutOfRange)
                } else {
                    Ok(Card::Numeric(v))
                }
            },
        }
    }
}

/// A card's text is never empty and holds no space.
pub proof fn lemma_card_text_shape(c: Card)
    ensures
        card_text(c).len() >= 1,
        forall|i: int| 0 <= i < card_text(c).len() ==> #[trigger] card_text(c)[i] != ' ',
{
    match c {
        Card::Numeric(n) => {
            lemma_decimal_all_digits(n as nat);
        },
        _ => {},
    }
}

proof fn lemma_decimal_all_digits(n: nat)
    ensures
        all_digits(decimal(n)),
        decimal(n).len() >= 1,
    decreases n,
{
    if n >= 10 {
        lemma_decimal_all_digits(n / 10);
        let d = decimal(n / 10);
        assert(decimal(n) == d.push(crate::text::digit_char((n % 10) as int)));
        assert forall|i: int| 0 <= i < decimal(n).len() implies is_digit(#[trigger] decimal(n)[i]) by {
            if i < d.len() {
                assert(decimal(n)[i] == d[i]);
            }
        }
    }
}

/// Reading a standard card's text gives the card back.
pub proof fn lemma_card_roundtrip(c: Card)
    requires
        is_standard(c),
    ensures
        card_parse(card_text(c)) == Ok::<Card, CardParseError>(c),
{
    match c {
        Card::Numeric(n) => {
            let t = decimal(n as nat);
            if n < 10 {
                assert(t == seq![crate::text::digit_char(n as int)]);
                assert(t.len() == 1);
                assert(t.drop_last() =~= Seq::<char>::empty());
                assert(crate::text::digit_char(n as int) as int == 48 + n);
                assert(digits_value(t) == digits_value(t.drop_last()) * 10
                    + crate::text::digit_value(t.last()));
                assert(digits_value(t) == n);
                assert(t[0] != '+');
                assert(all_digits(t));
            } else {
                assert(n == 10);
                assert(decimal(1) == seq!['1']);
                assert(t == seq!['1'].push('0'));
                assert(t.drop_last() =~= seq!['1']);
                assert(seq!['1'].drop_last() =~= Seq::<char>::empty());
                assert(digits_value(seq!['1']) == digits_value(seq!['1'].drop_last()) * 10
                    + crate::text::digit_value('1'));
                assert(digits_value(seq!['1']) == 1);
                assert(digits_value(t) == digits_value(t.drop_last()) * 10
                    + crate::text::digit_value('0'));
                assert(digits_value(t) == 10);
                assert(all_digits(t));
            }
            assert(t != seq!['A'] && t != seq!['K'] && t != seq!['Q'] && t != seq!['J']) by {
                assert(is_digit(t[0]));
            }
        },
        _ => {},
    }
}

/// The pieces of a hand's text are the texts of its cards.
proof fn lemma_split_hand_text(s: Seq<Card>)
    requires
        s.len() >= 1,
    ensures
        split_on(hand_text(s), ' ') == s.map_values(|c: Card| card_text(c)),
    decreases s.len(),
{
    lemma_card_text_shape(s.last());
    if s.len() == 1 {
        lemma_split_no_sep(card_text(s[0]), ' ');
        assert(s.map_values(|c: Card| card_text(c)) =~= seq![card_text(s[0])]);
    } else {
        lemma_split_hand_text(s.drop_last());
        lemma_split_append(hand_text(s.drop_last()), card_text(s.last()), ' ');
        assert(s.map_values(|c: Card| card_text(c)) =~= s.drop_last().map_values(
            |c: Card| card_text(c),
        ).push(card_text(s.last())));
    }
}

/// Reading the texts of standard cards gives the cards back.
proof fn lemma_parse_card_texts(s: Seq<Card>)
    requires
        all_standard(s),
    ensures
        parse_cards(s.map_values(|c: Card| card_text(c))) == Ok::<Seq<Card>, CardParseError>(s),
    decreases s.len(),
{
    if s.len() > 0 {
        let m = s.map_values(|c: Card| card_text(c));
        assert(m.drop_last() =~= s.drop_last().map_values(|c: Card| card_text(c)));
        lemma_parse_card_texts(s.drop_last());
        lemma_card_roundtrip(s.last());
        assert(m.last() == card_text(s.last()));
        assert(s.drop_last().push(s.last()) =~= s);
    } else {
        assert(s =~= Seq::<Card>::empty());
        assert(s.map_values(|c: Card| card_text(c)) =~= Seq::<Seq<char>>::empty());
    }
}

/// Reading back the text of a non-empty hand of standard cards gives the hand.
pub proof fn lemma_hand_text_roundtrip(s: Seq<Card>)
    requires
        s.len() >= 1,
        all_standard(s),
    ensures
        hand_parse(hand_text(s)) == Ok::<Seq<Card>, CardParseError>(s),
{
    lemma_split_hand_text(s);
    lemma_parse_card_texts(s);
}

proof fn lemma_total_prefix(s: Seq<Card>, k: int)
    requires
        0 <= k < s.len(),
    ensures
        hand_total(s.take(k + 1)) == hand_total(s.take(k)) + card_value(s[k]),
        ace_count(s.take(k + 1)) == ace_count(s.take(k)) + if s[k] == Card::Ace {
            1nat
        } else {
            0nat
        },
{
    assert(s.take(k + 1).drop_last() =~= s.take(k));
}

proof fn lemma_total_prefix_le(s: Seq<Card>, k: int)
    requires
        0 <= k <= s.len(),
    ensures
        hand_total(s.take(k)) <= hand_total(s),
        ace_count(s.take(k)) <= ace_count(s),
    decreases s.len() - k,
{
    if k < s.len() {
        lemma_total_prefix_le(s, k + 1);
        lemma_total_prefix(s, k);
    } else {
        assert(s.take(k) =~= s);
    }
}

/// Every ace adds at least one to a hand's total, so the aces never outnumber the total.
pub proof fn lemma_aces_le_hard(s: Seq<Card>)
    ensures
        ace_count(s) <= hard_value(s),
        ace_count(s) <= hand_total(s),
    decreases s.len(),
{
    if s.len() > 0 {
        lemma_aces_le_hard(s.drop_last());
    }
}

/// Counting aces as 1 where needed never takes more than ten per ace off the total.
pub proof fn lemma_value_ge_hard(sum: int, aces: nat)
    ensures
        reduce_aces(sum, aces) >= sum - 10 * aces,
        reduce_aces(sum, aces) <= sum,
    decreases aces,
{
    if sum > 21 && aces > 0 {
        lemma_value_ge_hard(sum - 10, (aces - 1) as nat);
    }
}

/// The value of a hand in blackjack (`value_cards`).
pub fn value_cards(cards: &Vec<Card>) -> (r: u8)
    requires
        hand_total(cards@) <= 255,
    ensures
        r == hand_value(cards@),
{
    // Almost a simple sum, but aces count 1 where that stops the hand from busting: take the
    // simple sum first, then subtract 10 per ace until under the limit.
    let mut sum: u8 = 0;
    let mut num_aces: u8 = 0;
    let mut i: usize = 0;
    while i < cards.len()
        invariant
            i <= cards@.len(),
            hand_total(cards@) <= 255,
            sum == hand_total(cards@.take(i as int)),
            num_aces == ace_count(cards@.take(i as int)),
        decreases cards@.len() - i,
    {
        proof {
            lemma_total_prefix(cards@, i as int);
            lemma_total_prefix_le(cards@, i as int + 1);
            lemma_aces_le_hard(cards@.take(i as int + 1));
        }
        sum = sum + cards[i].value();
        if cards[i] == Card::Ace {
            num_aces = num_aces + 1;
        }
        i = i + 1;
    }
    assert(cards@.take(cards@.len() as int) =~= cards@);
    if sum > 21 {
        while sum > 21 && num_aces != 0
            invariant
                reduce_aces(sum as int, num_aces as nat) == hand_value(cards@),
            decreases num_aces,
        {
            sum = sum - 10;
            num_aces = num_aces - 1;
        }
    }
    sum
}

/// A hand's value as far as winning and busting go: the value itself up to 21, and 22 for any
/// hand over 21.
pub open spec fn capped_value(s: Seq<Card>) -> int {
    if hand_value(s) > 21 {
        22
    } else {
        hand_value(s)
    }
}

/// Counting aces as 1 where needed leaves a hand over 21 exactly when it is over 21 with every
/// ace counted as 1.
pub proof fn lemma_reduce_bust(sum: int, aces: nat)
    ensures
        (reduce_aces(sum, aces) > 21) == (sum - 10 * aces > 21),
    decreases aces,
{
    if sum > 21 && aces > 0 {
        lemma_reduce_bust(sum - 10, (aces - 1) as nat);
    }
}

/// A hand's value with every ace as 1 only grows as cards are added.
proof fn lemma_hard_prefix_le(s: Seq<Card>, k: int)
    requires
        0 <= k <= s.len(),
    ensures
        hard_value(s.take(k)) <= hard_value(s),
    decreases s.len(),
{
    if k == s.len() {
        assert(s.take(k) =~= s);
    } else {
        lemma_hard_prefix_le(s.drop_last(), k);
        assert(s.drop_last().take(k) =~= s.take(k));
    }
}

/// The value of a hand of any size, or 22 once it is over 21. Unlike `value_cards` it needs no
/// bound on the hand's total.
pub fn capped_hand_value(cards: &Vec<Card>) -> (r: u8)
    ensures
        r == capped_value(cards@),
{
    let mut hard: u64 = 0;
    let mut aces: u64 = 0;
    let mut i: usize = 0;
    assert(cards@.take(0) =~= Seq::<Card>::empty());
    while i < cards.len()
        invariant
            i <= cards@.len(),
            hard == hard_value(cards@.take(i as int)),
            aces == ace_count(cards@.take(i as int)),
            hard <= 21,
            aces <= hard,
        decreases cards@.len() - i,
    {
        proof {
            lemma_total_prefix(cards@, i as int);
        }
        let c = cards[i];
        let v: u64 = if c == Card::Ace {
            1
        } else {
            c.value() as u64
        };
        if hard + v > 21 {
            proof {
                lemma_hard_prefix_le(cards@, i as int + 1);
                lemma_reduce_bust(hand_total(cards@) as int, ace_count(cards@));
            }
            return 22;
        }
        hard = hard + v;
        if c == Card::Ace {
            aces = aces + 1;
        }
        i = i + 1;
    }
    assert(cards@.take(cards@.len() as int) =~= cards@);
    proof {
        lemma_reduce_bust(hand_total(cards@) as int, ace_count(cards@));
    }
    let mut sum: u64 = hard + 10 * aces;
    let mut n: u64 = aces;
    while sum > 21 && n != 0
        invariant
            reduce_aces(sum as int, n as nat) == hand_value(cards@),
            sum <= 21 + 10 * n,
            sum - 10 * n <= 21,
        decreases n,
    {
        sum = sum - 10;
        n = n - 1;
    }
    proof {
        lemma_reduce_bust(sum as int, n as nat);
    }
    sum as u8
}

/// A hand's text: its cards' texts separated by single spaces (`serialize_cards`).
pub fn serialize_cards(cards: &Vec<Card>) -> (r: String)
    ensures
        r@ == hand_text(cards@),
{
    let mut r = String::new();
    let mut i: usize = 0;
    while i < cards.len()
        invariant
            i <= cards@.len(),
            r@ == hand_text(cards@.take(i as int)),
        decreases cards@.len() - i,
    {
        let t = cards[i].to_string();
        if i > 0 {
            push_char(&mut r, ' ');
        }
        append_str(&mut r, t.as_str());
        proof {
            let p = cards@.take(i as int + 1);
            assert(p.drop_last() =~= cards@.take(i as int));
            if i == 0 {
                assert(hand_text(p) == card_text(p[0]));
            }
        }
        i = i + 1;
    }
    assert(cards@.take(cards@.len() as int) =~= cards@);
    r
}

/// Reads a hand back from its text (`deserialize_cards`); the first piece that is not a card
/// gives the error.
pub fn deserialize_cards(cards: &str) -> (r: Result<Vec<Card>, CardParseError>)
    ensures
        match r {
            Ok(v) => hand_parse(cards@) == Ok::<Seq<Card>, CardParseError>(v@),
            Err(e) => hand_parse(cards@) == Err::<Seq<Card>, CardParseError>(e),
        },
{
    let n = cards.unicode_len();
    let mut parsed: Vec<Card> = Vec::new();
    let mut current = String::new();
    let mut i: usize = 0;
    // The pieces read so far are the split of the prefix, its last piece still in `current`.
    while i < n
        invariant
            n == cards@.len(),
            i <= n,
            ({
                let parts = split_on(cards@.take(i as int), ' ');
                &&& parts.last() == current@
                &&& parse_cards(parts.drop_last()) == Ok::<Seq<Card>, CardParseError>(parsed@)
            }),
        decreases n - i,
    {
        let c = cards.get_char(i);
        let ghost prev = cards@.take(i as int);
        proof {
            lemma_split_len(prev, ' ');
        }
        assert(cards@.take(i as int + 1) =~= prev.push(c));
        assert(cards@.take(i as int + 1).drop_last() =~= prev);
        if c == ' ' {
            let card = Card::from_str(current.as_str());
            proof {
                let parts = split_on(prev, ' ');
                let next = parts.push(Seq::<char>::empty());
                assert(next.drop_last() =~= parts);
                assert(parts =~= parts.drop_last().push(parts.last()));
            }
            match card {
                Ok(card) => {
                    parsed.push(card);
                },
                Err(e) => {
                    proof {
                        lemma_parse_cards_error_prefix(split_on(prev, ' '), cards@, i as int, e);
                    }
                    return Err(e);
                },
            }
            current = String::new();
        } else {
            push_char(&mut current, c);
            proof {
                let parts = split_on(prev, ' ');
                let next = parts.update(parts.len() - 1, parts.last().push(c));
                assert(next.drop_last() =~= parts.drop_last());
            }
        }
        i = i + 1;
    }
    assert(cards@.take(n as int) =~= cards@);
    proof {
        lemma_split_len(cards@, ' ');
    }
    let last = Card::from_str(current.as_str());
    proof {
        let parts = split_on(cards@, ' ');
        assert(parts =~= parts.drop_last().push(parts.last()));
    }
    match last {
        Ok(card) => {
            parsed.push(card);
            Ok(parsed)
        },
        Err(e) => Err(e),
    }
}

/// Once a piece fails to read, every longer text with the same pieces so far fails with the
/// same error.
proof fn lemma_parse_cards_error_prefix(parts: Seq<Seq<char>>, s: Seq<char>, i: int, e: CardParseError)
    requires
        0 <= i < s.len(),
        s[i] == ' ',
        parts == split_on(s.take(i), ' '),
        parse_cards(parts) == Err::<Seq<Card>, CardParseError>(e),
    ensures
        parse_cards(split_on(s, ' ')) == Err::<Seq<Card>, CardParseError>(e),
    decreases s.len() - i,
{
    lemma_split_prefix(s, i + 1);
    let whole = split_on(s, ' ');
    let pre = split_on(s.take(i + 1), ' ');
    assert(s.take(i + 1).drop_last() =~= s.take(i));
    assert(pre == parts.push(Seq::<char>::empty()));
    // The pieces of the whole text begin with the finished pieces of the prefix.
    lemma_parse_cards_prefix_error(whole, parts, e);
}

/// The pieces of a longer text begin with all pieces but the last of a prefix's split.
proof fn lemma_split_prefix(s: Seq<char>, k: int)
    requires
        0 <= k <= s.len(),
    ensures
        split_on(s, ' ').len() >= split_on(s.take(k), ' ').len(),
        forall|j: int|
            0 <= j < split_on(s.take(k), ' ').len() - 1 ==> #[trigger] split_on(s, ' ')[j]
                == split_on(s.take(k), ' ')[j],
    decreases s.len() - k,
{
    if k < s.len() {
        lemma_split_prefix(s, k + 1);
        let a = split_on(s.take(k), ' ');
        let b = split_on(s.take(k + 1), ' ');
        assert(s.take(k + 1).drop_last() =~= s.take(k));
        assert(s.take(k + 1).last() == s[k]);
        assert(b.len() >= a.len());
        assert forall|j: int| 0 <= j < a.len() - 1 implies b[j] == a[j] by {}
    } else {
        assert(s.take(k) =~= s);
    }
}

/// Reading pieces fails with the error of the first failing piece, whatever follows.
proof fn lemma_parse_cards_prefix_error(whole: Seq<Seq<char>>, parts: Seq<Seq<char>>, e: CardParseError)
    requires
        whole.len() > parts.len(),
        forall|j: int| 0 <= j < parts.len() ==> #[trigger] whole[j] == parts[j],
        parse_cards(parts) == Err::<Seq<Card>, CardParseError>(e),
    ensures
        parse_cards(whole) == Err::<Seq<Card>, CardParseError>(e),
    decreases whole.len(),
{
    if whole.len() == parts.len() + 1 {
        assert(whole.drop_last() =~= parts);
    } else {
        lemma_parse_cards_prefix_error(whole.drop_last(), parts, e);
    }
}

/// Whether the simple sum of a hand's card values (aces counting 11) is at most `limit`.
pub fn hand_total_at_most(cards: &Vec<Card>, limit: u64) -> (r: bool)
    ensures
        r == (hand_total(cards@) <= limit),
{
    let mut sum: u64 = 0;
    let mut i: usize = 0;
    assert(cards@.take(0) =~= Seq::<Card>::empty());
    while i < cards.len()
        invariant
            i <= cards@.len(),
            sum == hand_total(cards@.take(i as int)),
            sum <= limit,
        decreases cards@.len() - i,
    {
        let ghost next = cards@.take(i as int + 1);
        assert(next.drop_last() =~= cards@.take(i as int));
        assert(next.last() == cards@[i as int]);
        let v = cards[i].value() as u64;
        if v > limit - sum {
            proof {
                lemma_total_prefix_le(cards@, i as int + 1);
            }
            return false;
        }
        sum = sum + v;
        i = i + 1;
    }
    assert(cards@.take(cards@.len() as int) =~= cards@);
    true
}

} // verus!
