//! How the stored enumerations are written in the database: each variant as its name in
//! lower case.

use vstd::prelude::*;
use crate::store::{
    BlackjackState, InstrumentState, MarketState, OrderDirection, TransferDirection,
    TransferSource,
};
use crate::text::str_eq;

verus! {
/// How a `MarketState` is stored.
pub open spec fn market_state_text(x: MarketState) -> Seq<char> {
    match x {
        MarketState::Open => "open"@,
        MarketState::Closed => "closed"@,
    }
}

/// The `MarketState` stored as `s`, if any.
pub open spec fn market_state_parse(s: Seq<char>) -> Option<MarketState> {
    if s == "open"@ {
        Some(MarketState::Open)
    } else if s == "closed"@ {
        Some(MarketState::Closed)
    } else {
        None
    }
}

impl MarketState {
    /// The text this value is stored as.
    pub fn db_text(&self) -> (r: &'static str)
        ensures
            r@ == market_state_text(*self),
    {
        match self {
            MarketState::Open => "open",
            MarketState::Closed => "closed",
        }
    }

    /// The value stored as `s`; `None` for any other text.
    pub fn from_db_text(s: &str) -> (r: Option<MarketState>)
        ensures
            r == market_state_parse(s@),
    {
        if str_eq(s, "open") {
            Some(MarketState::Open)
        } else if str_eq(s, "closed") {
            Some(MarketState::Closed)
        } else {
            None
        }
    }
}

/// Every `MarketState` reads back from the text it is stored as.
pub proof fn lemma_market_state_text_roundtrip(x: MarketState)
    ensures
        market_state_parse(market_state_text(x)) == Some(x),
{
    reveal_strlit("open");
    reveal_strlit("closed");
    assert("open"@.len() != "closed"@.len());
}

/// How a `InstrumentState` is stored.
pub open spec fn instrument_state_text(x: InstrumentState) -> Seq<char> {
    match x {
        InstrumentState::Open => "open"@,
        InstrumentState::Winner => "winner"@,
        InstrumentState::Loser => "loser"@,
    }
}

/// The `InstrumentState` stored as `s`, if any.
pub open spec fn instrument_state_parse(s: Seq<char>) -> Option<InstrumentState> {
    if s == "open"@ {
        Some(InstrumentState::Open)
    } else if s == "winner"@ {
        Some(InstrumentState::Winner)
    } else if s == "loser"@ {
        Some(InstrumentState::Loser)
    } else {
        None
    }
}

impl InstrumentState {
    /// The text this value is stored as.
    pub fn db_text(&self) -> (r: &'static str)
        ensures
            r@ == instrument_state_text(*self),
    {
        match self {
            InstrumentState::Open => "open",
            InstrumentState::Winner => "winner",
            InstrumentState::Loser => "loser",
        }
    }

    /// The value stored as `s`; `None` for any other text.
    pub fn from_db_text(s: &str) -> (r: Option<InstrumentState>)
        ensures
            r == instrument_state_parse(s@),
    {
        if str_eq(s, "open") {
            Some(InstrumentState::Open)
        } else if str_eq(s, "winner") {
            Some(InstrumentState::Winner)
        } else if str_eq(s, "loser") {
            Some(InstrumentState::Loser)
        } else {
            None
        }
    }
}

/// Every `InstrumentState` reads back from the text it is stored as.
pub proof fn lemma_instrument_state_text_roundtrip(x: InstrumentState)
    ensures
        instrument_state_parse(instrument_state_text(x)) == Some(x),
{
    reveal_strlit("open");
    reveal_strlit("winner");
    reveal_strlit("loser");
    assert("open"@.len() != "winner"@.len());
    assert("open"@.len() != "loser"@.len());
    assert("winner"@.len() != "loser"@.len());
}

/// How a `OrderDirection` is stored.
pub open spec fn order_direction_text(x: OrderDirection) -> Seq<char> {
    match x {
        OrderDirection::Buy => "buy"@,
        OrderDirection::Sell => "sell"@,
    }
}

/// The `OrderDirection` stored as `s`, if any.
pub open spec fn order_direction_parse(s: Seq<char>) -> Option<OrderDirection> {
    if s == "buy"@ {
        Some(OrderDirection::Buy)
    } else if s == "sell"@ {
        Some(OrderDirection::Sell)
    } else {
        None
    }
}

impl OrderDirection {
    /// The text this value is stored as.
    pub fn db_text(&self) -> (r: &'static str)
        ensures
            r@ == order_direction_text(*self),
    {
        match self {
            OrderDirection::Buy => "buy",
            OrderDirection::Sell => "sell",
        }
    }

    /// The value stored as `s`; `None` for any other text.
    pub fn from_db_text(s: &str) -> (r: Option<OrderDirection>)
        ensures
            r == order_direction_parse(s@),
    {
        if str_eq(s, "buy") {
            Some(OrderDirection::Buy)
        } else if str_eq(s, "sell") {
            Some(OrderDirection::Sell)
        } else {
            None
        }
    }
}

/// Every `OrderDirection` reads back from the text it is stored as.
pub proof fn lemma_order_direction_text_roundtrip(x: OrderDirection)
    ensures
        order_direction_parse(order_direction_text(x)) == Some(x),
{
    reveal_strlit("buy");
    reveal_strlit("sell");
    assert("buy"@.len() != "sell"@.len());
}

/// How a `TransferSource` is stored.
pub open spec fn transfer_source_text(x: TransferSource) -> Seq<char> {
    match x {
        TransferSource::Unknown => "unknown"@,
        TransferSource::Deposit => "deposit"@,
        TransferSource::UserInitiated => "userinitiated"@,
        TransferSource::Order => "order"@,
        TransferSource::TradeFee => "tradefee"@,
        TransferSource::Gambling => "gambling"@,
        TransferSource::MessageTip => "messagetip"@,
    }
}

/// The `TransferSource` stored as `s`, if any.
pub open spec fn transfer_source_parse(s: Seq<char>) -> Option<TransferSource> {
    if s == "unknown"@ {
        Some(TransferSource::Unknown)
    } else if s == "deposit"@ {
        Some(TransferSource::Deposit)
    } else if s == "userinitiated"@ {
        Some(TransferSource::UserInitiated)
    } else if s == "order"@ {
        Some(TransferSource::Order)
    } else if s == "tradefee"@ {
        Some(TransferSource::TradeFee)
    } else if s == "gambling"@ {
        Some(TransferSource::Gambling)
    } else if s == "messagetip"@ {
        Some(TransferSource::MessageTip)
    } else {
        None
    }
}

impl TransferSource {
    /// The text this value is stored as.
    pub fn db_text(&self) -> (r: &'static str)
        ensures
            r@ == transfer_source_text(*self),
    {
        match self {
            TransferSource::Unknown => "unknown",
            TransferSource::Deposit => "deposit",
            TransferSource::UserInitiated => "userinitiated",
            TransferSource::Order => "order",
            TransferSource::TradeFee => "tradefee",
            TransferSource::Gambling => "gambling",
            TransferSource::MessageTip => "messagetip",
        }
    }

    /// The value stored as `s`; `None` for any other text.
    pub fn from_db_text(s: &str) -> (r: Option<TransferSource>)
        ensures
            r == transfer_source_parse(s@),
    {
        if str_eq(s, "unknown") {
            Some(TransferSource::Unknown)
        } else if str_eq(s, "deposit") {
            Some(TransferSource::Deposit)
        } else if str_eq(s, "userinitiated") {
            Some(TransferSource::UserInitiated)
        } else if str_eq(s, "order") {
            Some(TransferSource::Order)
        } else if str_eq(s, "tradefee") {
            Some(TransferSource::TradeFee)
        } else if str_eq(s, "gambling") {
            Some(TransferSource::Gambling)
        } else if str_eq(s, "messagetip") {
            Some(TransferSource::MessageTip)
        } else {
            None
        }
    }
}

/// Every `TransferSource` reads back from the text it is stored as.
pub proof fn lemma_transfer_source_text_roundtrip(x: TransferSource)
    ensures
        transfer_source_parse(transfer_source_text(x)) == Some(x),
{
    reveal_strlit("unknown");
    reveal_strlit("deposit");
    reveal_strlit("userinitiated");
    reveal_strlit("order");
    reveal_strlit("tradefee");
    reveal_strlit("gambling");
    reveal_strlit("messagetip");
    assert("unknown"@[0] != "deposit"@[0]);
    assert("unknown"@.len() != "userinitiated"@.len());
    assert("unknown"@.len() != "order"@.len());
    assert("unknown"@.len() != "tradefee"@.len());
    assert("unknown"@.len() != "gambling"@.len());
    assert("unknown"@.len() != "messagetip"@.len());
    assert("deposit"@.len() != "userinitiated"@.len());
    assert("deposit"@.len() != "order"@.len());
    assert("deposit"@.len() != "tradefee"@.len());
    assert("deposit"@.len() != "gambling"@.len());
    assert("deposit"@.len() != "messagetip"@.len());
    assert("userinitiated"@.len() != "order"@.len());
    assert("userinitiated"@.len() != "tradefee"@.len());
    assert("userinitiated"@.len() != "gambling"@.len());
    assert("userinitiated"@.len() != "messagetip"@.len());
    assert("order"@.len() != "tradefee"@.len());
    assert("order"@.len() != "gambling"@.len());
    assert("order"@.len() != "messagetip"@.len());
    assert("tradefee"@[0] != "gambling"@[0]);
    assert("tradefee"@.len() != "messagetip"@.len());
    assert("gambling"@.len() != "messagetip"@.len());
}

/// How a `TransferDirection` is stored.
pub open spec fn transfer_direction_text(x: TransferDirection) -> Seq<char> {
    match x {
        TransferDirection::Debit => "debit"@,
        TransferDirection::Credit => "credit"@,
    }
}

/// The `TransferDirection` stored as `s`, if any.
pub open spec fn transfer_direction_parse(s: Seq<char>) -> Option<TransferDirection> {
    if s == "debit"@ {
        Some(TransferDirection::Debit)
    } else if s == "credit"@ {
        Some(TransferDirection::Credit)
    } else {
        None
    }
}

impl TransferDirection {
    /// The text this value is stored as.
    pub fn db_text(&self) -> (r: &'static str)
        ensures
            r@ == transfer_direction_text(*self),
    {
        match self {
            TransferDirection::Debit => "debit",
            TransferDirection::Credit => "credit",
        }
    }

    /// The value stored as `s`; `None` for any other text.
    pub fn from_db_text(s: &str) -> (r: Option<TransferDirection>)
        ensures
            r == transfer_direction_parse(s@),
    {
        if str_eq(s, "debit") {
            Some(TransferDirection::Debit)
        } else if str_eq(s, "credit") {
            Some(TransferDirection::Credit)
        } else {
            None
        }
    }
}

/// Every `TransferDirection` reads back from the text it is stored as.
pub proof fn lemma_transfer_direction_text_roundtrip(x: TransferDirection)
    ensures
        transfer_direction_parse(transfer_direction_text(x)) == Some(x),
{
    reveal_strlit("debit");
    reveal_strlit("credit");
    assert("debit"@.len() != "credit"@.len());
}

/// How a `BlackjackState` is stored.
pub open spec fn blackjack_state_text(x: BlackjackState) -> Seq<char> {
    match x {
        BlackjackState::Betting => "betting"@,
        BlackjackState::Stand => "stand"@,
        BlackjackState::PlayerBust => "playerbust"@,
        BlackjackState::Closed => "closed"@,
    }
}

/// The `BlackjackState` stored as `s`, if any.
pub open spec fn blackjack_state_parse(s: Seq<char>) -> Option<BlackjackState> {
    if s == "betting"@ {
        Some(BlackjackState::Betting)
    } else if s == "stand"@ {
        Some(BlackjackState::Stand)
    } else if s == "playerbust"@ {
        Some(BlackjackState::PlayerBust)
    } else if s == "closed"@ {
        Some(BlackjackState::Closed)
    } else {
        None
    }
}

impl BlackjackState {
    /// The text this value is stored as.
    pub fn db_text(&self) -> (r: &'static str)
        ensures
            r@ == blackjack_state_text(*self),
    {
        match self {
            BlackjackState::Betting => "betting",
            BlackjackState::Stand => "stand",
            BlackjackState::PlayerBust => "playerbust",
            BlackjackState::Closed => "closed",
        }
    }

    /// The value stored as `s`; `None` for any other text.
    pub fn from_db_text(s: &str) -> (r: Option<BlackjackState>)
        ensures
            r == blackjack_state_parse(s@),
    {
        if str_eq(s, "betting") {
            Some(BlackjackState::Betting)
        } else if str_eq(s, "stand") {
            Some(BlackjackState::Stand)
        } else if str_eq(s, "playerbust") {
            Some(BlackjackState::PlayerBust)
        } else if str_eq(s, "closed") {
            Some(BlackjackState::Closed)
        } else {
            None
        }
    }
}

/// Every `BlackjackState` reads back from the text it is stored as.
pub proof fn lemma_blackjack_state_text_roundtrip(x: BlackjackState)
    ensures
        blackjack_state_parse(blackjack_state_text(x)) == Some(x),
{
    reveal_strlit("betting");
    reveal_strlit("stand");
    reveal_strlit("playerbust");
    reveal_strlit("closed");
    assert("betting"@.len() != "stand"@.len());
    assert("betting"@.len() != "playerbust"@.len());
    assert("betting"@.len() != "closed"@.len());
    assert("stand"@.len() != "playerbust"@.len());
    assert("stand"@.len() != "closed"@.len());
    assert("playerbust"@.len() != "closed"@.len());
}

} // verus!
