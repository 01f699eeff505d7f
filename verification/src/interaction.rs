//! Identifiers of buttons and forms, how they are read back, and the choices made through them.

use vstd::prelude::*;
use crate::blackjack::BlackjackAction;
use crate::currency::Currency;
use crate::store::{Instrument, Market, Position};
use crate::trade::{OrderPrices, order_total};
use crate::currency::fits_i64;
use crate::text::{
    signed_decimal, split_on, parse_i64_spec, split_text, views, parse_i64, i64_to_decimal,
    string_from, append_str, push_char, lemma_split_no_sep, lemma_split_append,
    lemma_signed_decimal_chars, lemma_parse_signed_decimal, str_eq,
};

verus! {

/// Buying or selling shares.
#[derive(Debug, PartialEq, Eq, Clone, Copy, Structural)]
pub enum TradeAction {
    Buy,
    Sell,
}

/// The word for a trade action in identifiers.
pub open spec fn action_text(a: TradeAction) -> Seq<char> {
    match a {
        TradeAction::Buy => "buy"@,
        TradeAction::Sell => "sell"@,
    }
}

/// The trade action a word names, if any.
pub open spec fn action_parse(s: Seq<char>) -> Option<TradeAction> {
    if s == "buy"@ {
        Some(TradeAction::Buy)
    } else if s == "sell"@ {
        Some(TradeAction::Sell)
    } else {
        None
    }
}

impl TradeAction {
    /// The action's word: `buy` or `sell`.
    pub fn to_string(&self) -> (r: String)
        ensures
            r@ == action_text(*self),
    {
        match self {
            TradeAction::Buy => string_from("buy"),
            TradeAction::Sell => string_from("sell"),
        }
    }

    /// Reads an action from its word; any other text is refused.
    pub fn from_str(s: &str) -> (r: Result<TradeAction, ()>)
        ensures
            r == match action_parse(s@) {
                Some(a) => Ok::<TradeAction, ()>(a),
                None => Err(()),
            },
    {
        if str_eq(s, "buy") {
            Ok(TradeAction::Buy)
        } else if str_eq(s, "sell") {
            Ok(TradeAction::Sell)
        } else {
            Err(())
        }
    }
}

/// An identifier made of a tag and a number: `tag|id`.
pub open spec fn tagged_id(tag: Seq<char>, id: i64) -> Seq<char> {
    tag + seq!['|'] + signed_decimal(id as int)
}

/// An identifier made of a tag, a trade action and a number: `tag|action|id`.
pub open spec fn tagged_action_id(tag: Seq<char>, action: TradeAction, id: i64) -> Seq<char> {
    tag + seq!['|'] + action_text(action) + seq!['|'] + signed_decimal(id as int)
}

/// The number in `s` when `s` is `tag|id` with a 64-bit `id`.
pub open spec fn parse_tagged_id(tag: Seq<char>, s: Seq<char>) -> Option<i64> {
    let parts = split_on(s, '|');
    if parts.len() == 2 && parts[0] == tag {
        parse_i64_spec(parts[1])
    } else {
        None
    }
}

/// The action and number in `s` when `s` is `tag|action|id`.
pub open spec fn parse_tagged_action_id(tag: Seq<char>, s: Seq<char>) -> Option<(TradeAction, i64)> {
    let parts = split_on(s, '|');
    if parts.len() == 3 && parts[0] == tag {
        match (action_parse(parts[1]), parse_i64_spec(parts[2])) {
            (Some(a), Some(id)) => Some((a, id)),
            _ => None,
        }
    } else {
        None
    }
}

fn make_tagged_id(tag: &str, id: i64) -> (r: String)
    ensures
        r@ == tagged_id(tag@, id),
{
    let mut r = string_from(tag);
    push_char(&mut r, '|');
    let n = i64_to_decimal(id);
    append_str(&mut r, n.as_str());
    r
}

fn make_tagged_action_id(tag: &str, action: TradeAction, id: i64) -> (r: String)
    ensures
        r@ == tagged_action_id(tag@, action, id),
{
    let mut r = string_from(tag);
    push_char(&mut r, '|');
    let a = action.to_string();
    append_str(&mut r, a.as_str());
    push_char(&mut r, '|');
    let n = i64_to_decimal(id);
    append_str(&mut r, n.as_str());
    r
}

fn read_tagged_id(tag: &str, s: &str) -> (r: Option<i64>)
    ensures
        r == parse_tagged_id(tag@, s@),
{
    let parts = split_text(s, '|');
    proof {
        assert(views(parts@).len() == parts@.len());
    }
    if parts.len() != 2 {
        return None;
    }
    assert(views(parts@)[0] == parts@[0]@);
    assert(views(parts@)[1] == parts@[1]@);
    if !str_eq(parts[0].as_str(), tag) {
        return None;
    }
    parse_i64(parts[1].as_str())
}

fn read_tagged_action_id(tag: &str, s: &str) -> (r: Option<(TradeAction, i64)>)
    ensures
        r == parse_tagged_action_id(tag@, s@),
{
    let parts = split_text(s, '|');
    proof {
        assert(views(parts@).len() == parts@.len());
    }
    if parts.len() != 3 {
        return None;
    }
    assert(views(parts@)[0] == parts@[0]@);
    assert(views(parts@)[1] == parts@[1]@);
    assert(views(parts@)[2] == parts@[2]@);
    if !str_eq(parts[0].as_str(), tag) {
        return None;
    }
    let action = match TradeAction::from_str(parts[1].as_str()) {
        Ok(a) => a,
        Err(_) => {
            return None;
        },
    };
    match parse_i64(parts[2].as_str()) {
        Some(id) => Some((action, id)),
        None => None,
    }
}

/// The identifier of an instrument's buy or sell button: `trade_button|action|id`.
pub fn get_trade_button_id(instrument: &Instrument, action: TradeAction) -> (r: String)
    ensures
        r@ == tagged_action_id("trade_button"@, action, instrument.id),
{
    make_tagged_action_id("trade_button", action, instrument.id)
}

/// Reads the action and instrument id back from a trade button's identifier.
pub fn parse_trade_button_id(id: &str) -> (r: Option<(TradeAction, i64)>)
    ensures
        r == parse_tagged_action_id("trade_button"@, id@),
{
    read_tagged_action_id("trade_button", id)
}

/// The identifier of the form for a trade: `trade_modal|action|instrument_id`.
pub fn generate_trade_modal_id(action: TradeAction, instrument_id: i64) -> (r: String)
    ensures
        r@ == tagged_action_id("trade_modal"@, action, instrument_id),
{
    make_tagged_action_id("trade_modal", action, instrument_id)
}

/// Reads the action and instrument id back from a trade form's identifier.
pub fn parse_trade_modal_id(id: &str) -> (r: Option<(TradeAction, i64)>)
    ensures
        r == parse_tagged_action_id("trade_modal"@, id@),
{
    read_tagged_action_id("trade_modal", id)
}

/// The identifier of a market's resolve button: `resolve_button|market_id`.
pub fn get_market_resolve_id(market: &Market) -> (r: String)
    ensures
        r@ == tagged_id("resolve_button"@, market.id),
{
    make_tagged_id("resolve_button", market.id)
}

/// Reads the market id back from a resolve button's identifier.
pub fn parse_market_resolve_button_id(id: &str) -> (r: Option<i64>)
    ensures
        r == parse_tagged_id("resolve_button"@, id@),
{
    read_tagged_id("resolve_button", id)
}

/// The identifier of the form that resolves a market: `resolve_market|market_id`.
pub fn generate_market_resolve_modal_id(market: &Market) -> (r: String)
    ensures
        r@ == tagged_id("resolve_market"@, market.id),
{
    make_tagged_id("resolve_market", market.id)
}

/// Reads the market id back from a resolve form's identifier.
pub fn parse_market_resolve_modal_id(id: &str) -> (r: Option<i64>)
    ensures
        r == parse_tagged_id("resolve_market"@, id@),
{
    read_tagged_id("resolve_market", id)
}

/// Identifier of the hit button of a blackjack table.
pub const ACTION_HIT: &'static str = "blackjack|hit";

/// Identifier of the stand button of a blackjack table.
pub const ACTION_STAND: &'static str = "blackjack|stand";

/// Identifier of the double-down button of a blackjack table.
pub const ACTION_DOUBLE: &'static str = "blackjack|double";

/// Identifier of the button that reveals the dealer's cards.
pub const ACTION_REVEAL: &'static str = "blackjack|reveal";

/// The blackjack action a button identifier names, if any.
pub open spec fn blackjack_action_parse(s: Seq<char>) -> Option<BlackjackAction> {
    if s == ACTION_HIT@ {
        Some(BlackjackAction::Hit)
    } else if s == ACTION_STAND@ {
        Some(BlackjackAction::Stand)
    } else if s == ACTION_DOUBLE@ {
        Some(BlackjackAction::DoubleDown)
    } else if s == ACTION_REVEAL@ {
        Some(BlackjackAction::Reveal)
    } else {
        None
    }
}

/// The blackjack action of a button identifier; other identifiers give `None`.
pub fn parse_blackjack_action(id: &str) -> (r: Option<BlackjackAction>)
    ensures
        r == blackjack_action_parse(id@),
{
    if str_eq(id, ACTION_HIT) {
        Some(BlackjackAction::Hit)
    } else if str_eq(id, ACTION_STAND) {
        Some(BlackjackAction::Stand)
    } else if str_eq(id, ACTION_DOUBLE) {
        Some(BlackjackAction::DoubleDown)
    } else if str_eq(id, ACTION_REVEAL) {
        Some(BlackjackAction::Reveal)
    } else {
        None
    }
}

/// Identifier of the form that creates a market.
pub const MODAL_ID: &'static str = "market-create-modal";

/// Identifier of the question field of the market form.
pub const MODAL_DESC_ID: &'static str = "market-create-desc";

/// Identifier of the market form's option field number `num`.
pub open spec fn option_field_id(num: int) -> Seq<char> {
    "market-create-opt-"@ + signed_decimal(num)
}

/// The identifier of the market form's option field number `num`.
fn get_modal_opt_id(num: i64) -> (r: String)
    ensures
        r@ == option_field_id(num as int),
{
    make_prefixed_number("market-create-opt-", num)
}

fn make_prefixed_number(prefix: &str, num: i64) -> (r: String)
    ensures
        r@ == prefix@ + signed_decimal(num as int),
{
    let mut r = string_from(prefix);
    let n = i64_to_decimal(num);
    append_str(&mut r, n.as_str());
    r
}

/// One row of a submitted form, as far as the form's logic reads it.
pub enum ModalRow {
    /// A row that holds no input, such as a text display.
    Display,
    /// A text input: its identifier and the text entered.
    TextInput(String, String),
    /// An input of another kind.
    OtherInput,
}

/// The question and the non-empty options entered in the market form.
pub struct CreateModalValues {
    pub description: String,
    pub options: Vec<String>,
}

/// Why the market form's answers could not be read.
#[derive(Debug, Clone, Copy, PartialEq, Eq, Structural)]
pub enum CreateModalError {
    /// The form did not have five rows.
    RowCount(usize),
    /// A row held an input other than text.
    UnsupportedComponent,
    /// The first field was not the question.
    InvalidDescriptionId,
    /// A later field was not the expected option.
    InvalidOptionId,
}

impl CreateModalError {
    /// The error as a sentence.
    pub fn message(&self) -> (r: String)
        ensures
            r@ == match *self {
                CreateModalError::RowCount(n) => "invalid number of action rows: had "@
                    + signed_decimal(n as int) + " expected 5"@,
                CreateModalError::UnsupportedComponent => "unsupported modal label component"@,
                CreateModalError::InvalidDescriptionId => "description text field ID was invalid"@,
                CreateModalError::InvalidOptionId => "option text field ID was invalid"@,
            },
    {
        match self {
            CreateModalError::RowCount(n) => {
                let mut r = string_from("invalid number of action rows: had ");
                let count = crate::text::u64_to_decimal(*n as u64);
                append_str(&mut r, count.as_str());
                append_str(&mut r, " expected 5");
                r
            },
            CreateModalError::UnsupportedComponent => string_from("unsupported modal label component"),
            CreateModalError::InvalidDescriptionId => string_from(
                "description text field ID was invalid",
            ),
            CreateModalError::InvalidOptionId => string_from("option text field ID was invalid"),
        }
    }
}

/// The text inputs of the rows, in order: identifier and text.
pub open spec fn text_inputs(rows: Seq<ModalRow>) -> Seq<(Seq<char>, Seq<char>)>
    decreases rows.len(),
{
    if rows.len() == 0 {
        Seq::empty()
    } else {
        let prev = text_inputs(rows.drop_last());
        match rows.last() {
            ModalRow::TextInput(id, value) => prev.push((id@, value@)),
            _ => prev,
        }
    }
}

/// Whether some row holds an input other than text.
pub open spec fn has_other_input(rows: Seq<ModalRow>) -> bool {
    exists|k: int| 0 <= k < rows.len() && rows[k] is OtherInput
}

/// Whether the fields after the first, up to the `i`-th, are the options numbered from one.
pub open spec fn options_match(vals: Seq<(Seq<char>, Seq<char>)>, i: int) -> bool {
    forall|j: int| 0 <= j < i ==> #[trigger] vals[j + 1].0 == option_field_id(j + 1)
}

/// Whether reading the form's answers would index past its fields: five rows of text inputs
/// and no other input, but fewer than five fields, all of whose identifiers check out.
pub open spec fn create_modal_panics(rows: Seq<ModalRow>) -> bool {
    let vals = text_inputs(rows);
    rows.len() == 5 && !has_other_input(rows) && (vals.len() == 0 || (vals[0].0 == MODAL_DESC_ID@
        && vals.len() < 5 && options_match(vals, vals.len() - 1)))
}

/// The non-empty texts of fields one to `k`.
pub open spec fn kept_options(vals: Seq<(Seq<char>, Seq<char>)>, k: int) -> Seq<Seq<char>>
    decreases k,
{
    if k <= 0 {
        Seq::empty()
    } else if vals[k].1.len() > 0 {
        kept_options(vals, k - 1).push(vals[k].1)
    } else {
        kept_options(vals, k - 1)
    }
}

/// Whether a text is non-empty, as a predicate.
pub open spec fn non_empty_text() -> spec_fn(Seq<char>) -> bool {
    |v: Seq<char>| v.len() > 0
}

proof fn lemma_kept_options_filter(vals: Seq<(Seq<char>, Seq<char>)>, k: int)
    requires
        0 <= k < vals.len(),
    ensures
        kept_options(vals, k) == Seq::new(k as nat, |j: int| vals[j + 1].1).filter(
            non_empty_text(),
        ),
    decreases k,
{
    reveal(Seq::filter);
    let all = Seq::new(k as nat, |j: int| vals[j + 1].1);
    if k == 0 {
        assert(all =~= Seq::<Seq<char>>::empty());
    } else {
        lemma_kept_options_filter(vals, k - 1);
        assert(all.drop_last() =~= Seq::new((k - 1) as nat, |j: int| vals[j + 1].1));
        assert(all.last() == vals[k].1);
    }
}

/// A form has no more text fields than rows.
proof fn lemma_text_inputs_len(rows: Seq<ModalRow>)
    ensures
        text_inputs(rows).len() <= rows.len(),
    decreases rows.len(),
{
    if rows.len() > 0 {
        lemma_text_inputs_len(rows.drop_last());
    }
}

/// The options a market form gives are exactly its non-empty option fields, one to four, in
/// their order: none is dropped, added or moved. (A form that `extract_create_modal_values`
/// accepts has all five fields.)
pub proof fn lemma_form_options_are_nonempty_fields(rows: Seq<ModalRow>)
    ensures
        !create_modal_panics(rows) ==> (create_modal_result(rows) matches Ok((d, opts)) ==> {
            let vals = text_inputs(rows);
            &&& vals.len() == 5
            &&& d == vals[0].1
            &&& opts == Seq::new(4, |j: int| vals[j + 1].1).filter(non_empty_text())
        }),
{
    if !create_modal_panics(rows) && create_modal_result(rows) is Ok {
        let vals = text_inputs(rows);
        lemma_text_inputs_len(rows);
        if vals.len() < 5 {
            assert(options_match(vals, vals.len() - 1));
        }
        lemma_kept_options_filter(vals, 4);
    }
}

/// What reading the market form gives: the question and the non-empty options, or why the
/// form was refused.
pub open spec fn create_modal_result(rows: Seq<ModalRow>) -> Result<
    (Seq<char>, Seq<Seq<char>>),
    CreateModalError,
> {
    let vals = text_inputs(rows);
    if rows.len() != 5 {
        Err(CreateModalError::RowCount(rows.len() as usize))
    } else if has_other_input(rows) {
        Err(CreateModalError::UnsupportedComponent)
    } else if vals[0].0 != MODAL_DESC_ID@ {
        Err(CreateModalError::InvalidDescriptionId)
    } else if !options_match(vals, 4) {
        Err(CreateModalError::InvalidOptionId)
    } else {
        Ok((vals[0].1, kept_options(vals, 4)))
    }
}

/// Reads the question and options from the rows of a submitted market form.
pub fn extract_create_modal_values(rows: &Vec<ModalRow>) -> (r: Result<
    CreateModalValues,
    CreateModalError,
>)
    requires
        !create_modal_panics(rows@),
    ensures
        match (r, create_modal_result(rows@)) {
            (Ok(v), Ok((d, opts))) => v.description@ == d && views(v.options@) == opts,
            (Err(e), Err(f)) => e == f,
            _ => false,
        },
{
    if rows.len() != 5 {
        return Err(CreateModalError::RowCount(rows.len()));
    }
    let mut values: Vec<(String, String)> = Vec::new();
    let mut k: usize = 0;
    assert(rows@.take(0) =~= Seq::<ModalRow>::empty());
    while k < rows.len()
        invariant
            k <= rows@.len(),
            values@.map_values(|p: (String, String)| (p.0@, p.1@)) == text_inputs(rows@.take(k as int)),
            forall|m: int| 0 <= m < k ==> !(rows@[m] is OtherInput),
            rows@.len() == 5,
        decreases rows@.len() - k,
    {
        let ghost next = rows@.take(k as int + 1);
        assert(next.drop_last() =~= rows@.take(k as int));
        assert(next.last() == rows@[k as int]);
        let ghost before = values@;
        match &rows[k] {
            ModalRow::TextInput(id, value) => {
                values.push((id.clone(), value.clone()));
                assert(values@.map_values(|p: (String, String)| (p.0@, p.1@)) =~= before.map_values(
                    |p: (String, String)| (p.0@, p.1@),
                ).push((id@, value@)));
            },
            ModalRow::OtherInput => {
                assert(rows@[k as int] is OtherInput);
                return Err(CreateModalError::UnsupportedComponent);
            },
            ModalRow::Display => {},
        }
        k = k + 1;
    }
    assert(rows@.take(5) =~= rows@);
    let ghost vals = text_inputs(rows@);
    assert(!has_other_input(rows@));
    assert(values@.len() == vals.len());
    assert(values@.len() >= 1);
    assert(vals[0] == (values@[0].0@, values@[0].1@));
    if !str_eq(values[0].0.as_str(), MODAL_DESC_ID) {
        return Err(CreateModalError::InvalidDescriptionId);
    }
    let mut options: Vec<String> = Vec::new();
    let mut i: usize = 0;
    while i < 4
        invariant
            i <= 4,
            vals == text_inputs(rows@),
            values@.map_values(|p: (String, String)| (p.0@, p.1@)) == vals,
            values@.len() == vals.len(),
            vals[0].0 == MODAL_DESC_ID@,
            !create_modal_panics(rows@),
            rows@.len() == 5,
            !has_other_input(rows@),
            options_match(vals, i as int),
            views(options@) == kept_options(vals, i as int),
        decreases 4 - i,
    {
        assert(values@.len() > i + 1);
        assert(vals[i + 1] == (values@[i + 1].0@, values@[i + 1].1@));
        let num: i64 = i as i64 + 1;
        let expected = get_modal_opt_id(num);
        if !str_eq(values[i + 1].0.as_str(), expected.as_str()) {
            assert(vals[i as int + 1].0 != option_field_id(i as int + 1));
            assert(!options_match(vals, 4));
            return Err(CreateModalError::InvalidOptionId);
        }
        let value = &values[i + 1].1;
        if value.as_str().unicode_len() > 0 {
            let ghost before = options@;
            options.push(value.clone());
            assert(views(options@) =~= views(before).push(value@));
        }
        i = i + 1;
    }
    let description = values[0].1.clone();
    Ok(CreateModalValues { description, options })
}

/// Whether reading these rows of the market form would index past its fields.
pub fn create_modal_would_panic(rows: &Vec<ModalRow>) -> (r: bool)
    ensures
        r == create_modal_panics(rows@),
{
    if rows.len() != 5 {
        return false;
    }
    let mut ids: Vec<String> = Vec::new();
    let mut k: usize = 0;
    assert(rows@.take(0) =~= Seq::<ModalRow>::empty());
    while k < rows.len()
        invariant
            k <= rows@.len(),
            rows@.len() == 5,
            views(ids@) == text_inputs(rows@.take(k as int)).map_values(
                |p: (Seq<char>, Seq<char>)| p.0,
            ),
            forall|m: int| 0 <= m < k ==> !(rows@[m] is OtherInput),
        decreases rows@.len() - k,
    {
        let ghost next = rows@.take(k as int + 1);
        assert(next.drop_last() =~= rows@.take(k as int));
        assert(next.last() == rows@[k as int]);
        let ghost before = ids@;
        match &rows[k] {
            ModalRow::TextInput(id, _) => {
                ids.push(id.clone());
                assert(views(ids@) =~= views(before).push(id@));
                assert(text_inputs(next).map_values(|p: (Seq<char>, Seq<char>)| p.0) =~= text_inputs(
                    rows@.take(k as int),
                ).map_values(|p: (Seq<char>, Seq<char>)| p.0).push(id@));
            },
            ModalRow::OtherInput => {
                assert(rows@[k as int] is OtherInput);
                return false;
            },
            ModalRow::Display => {},
        }
        k = k + 1;
    }
    assert(rows@.take(5) =~= rows@);
    let ghost vals = text_inputs(rows@);
    assert(!has_other_input(rows@));
    assert(ids@.len() == vals.len());
    if ids.len() == 0 {
        return true;
    }
    assert(views(ids@)[0] == ids@[0]@);
    assert(vals.map_values(|p: (Seq<char>, Seq<char>)| p.0)[0] == vals[0].0);
    assert(vals[0].0 == ids@[0]@);
    if !str_eq(ids[0].as_str(), MODAL_DESC_ID) || ids.len() >= 5 {
        return false;
    }
    // Fewer than five fields: indexing fails unless an option id is wrong first.
    let mut i: usize = 0;
    while i + 1 < ids.len()
        invariant
            1 <= ids@.len() < 5,
            i + 1 <= ids@.len(),
            ids@.len() == vals.len(),
            vals == text_inputs(rows@),
            rows@.len() == 5,
            !has_other_input(rows@),
            vals[0].0 == MODAL_DESC_ID@,
            views(ids@) == vals.map_values(|p: (Seq<char>, Seq<char>)| p.0),
            options_match(vals, i as int),
        decreases ids@.len() - i,
    {
        assert(views(ids@)[i + 1] == ids@[i + 1]@);
        assert(vals.map_values(|p: (Seq<char>, Seq<char>)| p.0)[i + 1] == vals[i + 1].0);
        assert(vals[i + 1].0 == ids@[i + 1]@);
        let expected = get_modal_opt_id(i as i64 + 1);
        if !str_eq(ids[i + 1].as_str(), expected.as_str()) {
            assert(vals[i as int + 1].0 != option_field_id(i as int + 1));
            assert(!options_match(vals, vals.len() - 1));
            return false;
        }
        i = i + 1;
    }
    true
}

/// The value of the field `id` among the fields of a submitted form; when the identifier
/// occurs more than once the last one counts.
pub open spec fn field_lookup(fields: Seq<(String, String)>, id: Seq<char>) -> Option<Seq<char>>
    decreases fields.len(),
{
    if fields.len() == 0 {
        None
    } else if fields.last().0@ == id {
        Some(fields.last().1@)
    } else {
        field_lookup(fields.drop_last(), id)
    }
}

/// The value of the field `id`, the last one when it occurs more than once.
fn modal_value(fields: &Vec<(String, String)>, id: &str) -> (r: Option<String>)
    ensures
        match r {
            Some(v) => field_lookup(fields@, id@) == Some(v@),
            None => field_lookup(fields@, id@) is None,
        },
{
    let mut i = fields.len();
    assert(fields@.take(i as int) =~= fields@);
    while i > 0
        invariant
            i <= fields@.len(),
            field_lookup(fields@, id@) == field_lookup(fields@.take(i as int), id@),
        decreases i,
    {
        let ghost prefix = fields@.take(i as int);
        assert(prefix.drop_last() =~= fields@.take(i as int - 1));
        if str_eq(fields[i - 1].0.as_str(), id) {
            return Some(fields[i - 1].1.clone());
        }
        i = i - 1;
    }
    None
}

/// Identifier of the trade form's menu of ready-made quantities.
pub const TRADE_MODAL_QUANTITY_PREFILL: &'static str = "trade_modal_quantity_prefill";

/// Identifier of the trade form's free-text quantity.
pub const TRADE_MODAL_QUANTITY_FREEFORM_ID: &'static str = "trade_modal_quantity_freeform";

/// The quantity a trade form asks for: the menu's choice if one was made, else the typed text,
/// read as an integer.
pub open spec fn trade_quantity(fields: Seq<(String, String)>) -> Option<i64> {
    let chosen = match field_lookup(fields, TRADE_MODAL_QUANTITY_PREFILL@) {
        Some(v) => Some(v),
        None => field_lookup(fields, TRADE_MODAL_QUANTITY_FREEFORM_ID@),
    };
    match chosen {
        Some(v) => parse_i64_spec(v),
        None => None,
    }
}

/// The quantity entered in a submitted trade form; `None` when none was given or it is not an
/// integer.
pub fn extract_quantity_from_trade_modal(fields: &Vec<(String, String)>) -> (r: Option<i64>)
    ensures
        r == trade_quantity(fields@),
{
    let chosen = match modal_value(fields, TRADE_MODAL_QUANTITY_PREFILL) {
        Some(v) => Some(v),
        None => modal_value(fields, TRADE_MODAL_QUANTITY_FREEFORM_ID),
    };
    match chosen {
        Some(v) => parse_i64(v.as_str()),
        None => None,
    }
}

/// Identifier of the resolve form's menu of instruments.
pub const RESOLVE_INSTRUMENT_ID: &'static str = "resolve_market_instrument";

/// Why the winner chosen in a resolve form could not be read.
#[derive(Debug, Clone, Copy, PartialEq, Eq, Structural)]
pub enum ResolveChoiceError {
    /// The form had no instrument field.
    FieldMissing,
    /// The field did not hold an integer.
    NotANumber,
}

/// The instrument chosen as the winner in a submitted resolve form.
pub fn resolve_choice(fields: &Vec<(String, String)>) -> (r: Result<i64, ResolveChoiceError>)
    ensures
        r == match field_lookup(fields@, RESOLVE_INSTRUMENT_ID@) {
            None => Err(ResolveChoiceError::FieldMissing),
            Some(v) => match parse_i64_spec(v) {
                Some(id) => Ok(id),
                None => Err(ResolveChoiceError::NotANumber),
            },
        },
{
    match modal_value(fields, RESOLVE_INSTRUMENT_ID) {
        None => Err(ResolveChoiceError::FieldMissing),
        Some(v) => match parse_i64(v.as_str()) {
            Some(id) => Ok(id),
            None => Err(ResolveChoiceError::NotANumber),
        },
    }
}

/// The members of `s` below `max`, in order.
pub open spec fn below(s: Seq<i64>, max: i64) -> Seq<i64>
    decreases s.len(),
{
    if s.len() == 0 {
        Seq::empty()
    } else if s.last() < max {
        below(s.drop_last(), max).push(s.last())
    } else {
        below(s.drop_last(), max)
    }
}

/// The ready-made quantities offered in a trade form: those of 1, 2, 5, 10 and 20 below the
/// most the user can trade, then that most.
pub open spec fn prefill_seq(max_shares: i64) -> Seq<i64> {
    below(seq![1i64, 2i64, 5i64, 10i64, 20i64], max_shares).push(max_shares)
}

/// The quantities offered in a trade form's menu.
pub fn prefilled_quantities(max_shares: i64) -> (r: Vec<i64>)
    ensures
        r@ == prefill_seq(max_shares),
{
    let candidates: [i64; 5] = [1, 2, 5, 10, 20];
    let mut r: Vec<i64> = Vec::new();
    let ghost expected = seq![1i64, 2i64, 5i64, 10i64, 20i64];
    assert(candidates@ =~= expected);
    assert(expected.take(0) =~= Seq::<i64>::empty());
    let mut i: usize = 0;
    while i < 5
        invariant
            i <= 5,
            candidates@ == expected,
            r@ == below(expected.take(i as int), max_shares),
        decreases 5 - i,
    {
        let q = candidates[i];
        assert(expected.take(i as int + 1).drop_last() =~= expected.take(i as int));
        assert(expected.take(i as int + 1).last() == q);
        if q < max_shares {
            r.push(q);
        }
        i = i + 1;
    }
    assert(expected.take(5) =~= expected);
    r.push(max_shares);
    r
}

/// A menu entry of the trade form: a quantity and what trading it costs or yields, given the
/// prices worked out for that quantity.
pub fn get_prefilled_quantity(quantity: i64, prices: &OrderPrices) -> (r: (i64, Currency))
    requires
        fits_i64(order_total(*prices)),
    ensures
        r.0 == quantity,
        r.1.0 == order_total(*prices),
{
    (quantity, prices.total())
}

/// The most shares a user can buy once fees are counted: the count the prices were worked out
/// for, one less when those shares with fees cost more than the balance.
pub fn calc_max_buy_shares(max_shares: i64, prices: &OrderPrices, balance: Currency) -> (r: i64)
    requires
        fits_i64(order_total(*prices)),
    ensures
        r == if order_total(*prices) > balance.0 && max_shares > 0 {
            max_shares - 1
        } else {
            max_shares as int
        },
{
    if prices.total().0 > balance.0 && max_shares > 0 {
        max_shares - 1
    } else {
        max_shares
    }
}

/// The most shares a user can sell: all those of their position, none without one.
pub fn calc_max_sell_shares(position: Option<&Position>) -> (r: i64)
    ensures
        r == match position {
            Some(p) => p.quantity,
            None => 0,
        },
{
    match position {
        Some(p) => p.quantity,
        None => 0,
    }
}

/// What a pressed button asks for.
#[derive(Debug, Clone, Copy, PartialEq, Eq, Structural)]
pub enum ComponentRoute {
    /// Open the form to buy or sell shares of an instrument.
    Trade(TradeAction, i64),
    /// Open the form to resolve a market.
    Resolve(i64),
    /// Play an action at a blackjack table.
    Blackjack(BlackjackAction),
    /// No known button.
    Unrecognized,
}

/// Where a button identifier leads: trade buttons first, then resolve buttons, then
/// blackjack buttons.
pub open spec fn component_route(id: Seq<char>) -> ComponentRoute {
    match parse_tagged_action_id("trade_button"@, id) {
        Some((action, instrument_id)) => ComponentRoute::Trade(action, instrument_id),
        None => match parse_tagged_id("resolve_button"@, id) {
            Some(market_id) => ComponentRoute::Resolve(market_id),
            None => match blackjack_action_parse(id) {
                Some(action) => ComponentRoute::Blackjack(action),
                None => ComponentRoute::Unrecognized,
            },
        },
    }
}

/// Decides what a pressed button asks for from its identifier.
pub fn route_component(custom_id: &str) -> (r: ComponentRoute)
    ensures
        r == component_route(custom_id@),
{
    match parse_trade_button_id(custom_id) {
        Some((action, instrument_id)) => ComponentRoute::Trade(action, instrument_id),
        None => match parse_market_resolve_button_id(custom_id) {
            Some(market_id) => ComponentRoute::Resolve(market_id),
            None => match parse_blackjack_action(custom_id) {
                Some(action) => ComponentRoute::Blackjack(action),
                None => ComponentRoute::Unrecognized,
            },
        },
    }
}

/// What a submitted form asks for.
#[derive(Debug, Clone, Copy, PartialEq, Eq, Structural)]
pub enum ModalRoute {
    /// Buy or sell shares of an instrument.
    Trade(TradeAction, i64),
    /// Resolve a market.
    Resolve(i64),
    /// Create a market.
    CreateMarket,
    /// No known form.
    Unrecognized,
}

/// Where a form identifier leads: trade forms first, then resolve forms, then the market form.
pub open spec fn modal_route(id: Seq<char>) -> ModalRoute {
    match parse_tagged_action_id("trade_modal"@, id) {
        Some((action, instrument_id)) => ModalRoute::Trade(action, instrument_id),
        None => match parse_tagged_id("resolve_market"@, id) {
            Some(market_id) => ModalRoute::Resolve(market_id),
            None => if id == MODAL_ID@ {
                ModalRoute::CreateMarket
            } else {
                ModalRoute::Unrecognized
            },
        },
    }
}

/// Decides what a submitted form asks for from its identifier.
pub fn route_modal(custom_id: &str) -> (r: ModalRoute)
    ensures
        r == modal_route(custom_id@),
{
    match parse_trade_modal_id(custom_id) {
        Some((action, instrument_id)) => ModalRoute::Trade(action, instrument_id),
        None => match parse_market_resolve_modal_id(custom_id) {
            Some(market_id) => ModalRoute::Resolve(market_id),
            None => if str_eq(custom_id, MODAL_ID) {
                ModalRoute::CreateMarket
            } else {
                ModalRoute::Unrecognized
            },
        },
    }
}

/// Whether `s` holds no `|`, the separator of identifiers.
pub open spec fn no_bar(s: Seq<char>) -> bool {
    forall|k: int| 0 <= k < s.len() ==> s[k] != '|'
}

proof fn lemma_decimal_no_bar(id: i64)
    ensures
        no_bar(signed_decimal(id as int)),
{
    lemma_signed_decimal_chars(id as int);
    let d = signed_decimal(id as int);
    assert forall|k: int| 0 <= k < d.len() implies d[k] != '|' by {
        assert(crate::text::is_digit(d[k]) || d[k] == '-');
    }
}

/// Each action's word reads back as that action, and holds no `|`.
pub proof fn lemma_action_text_roundtrip(a: TradeAction)
    ensures
        action_parse(action_text(a)) == Some(a),
        no_bar(action_text(a)),
{
    reveal_strlit("buy");
    reveal_strlit("sell");
    assert("buy"@.len() != "sell"@.len());
}

/// The pieces of a `tag|id` identifier.
proof fn lemma_tagged_id_parts(tag: Seq<char>, id: i64)
    requires
        no_bar(tag),
    ensures
        split_on(tagged_id(tag, id), '|') == seq![tag, signed_decimal(id as int)],
{
    lemma_decimal_no_bar(id);
    lemma_split_no_sep(tag, '|');
    lemma_split_append(tag, signed_decimal(id as int), '|');
    assert(seq![tag].push(signed_decimal(id as int)) =~= seq![tag, signed_decimal(id as int)]);
}

/// The pieces of a `tag|action|id` identifier.
proof fn lemma_tagged_action_id_parts(tag: Seq<char>, action: TradeAction, id: i64)
    requires
        no_bar(tag),
    ensures
        split_on(tagged_action_id(tag, action, id), '|') == seq![
            tag,
            action_text(action),
            signed_decimal(id as int),
        ],
{
    lemma_decimal_no_bar(id);
    lemma_action_text_roundtrip(action);
    lemma_split_no_sep(tag, '|');
    lemma_split_append(tag, action_text(action), '|');
    let x = tag + seq!['|'] + action_text(action);
    lemma_split_append(x, signed_decimal(id as int), '|');
    assert(seq![tag].push(action_text(action)).push(signed_decimal(id as int)) =~= seq![
        tag,
        action_text(action),
        signed_decimal(id as int),
    ]);
}

/// A `tag|id` identifier reads back, under its own tag, as its number; under any other
/// tag it is refused.
pub proof fn lemma_tagged_id_roundtrip(tag: Seq<char>, other: Seq<char>, id: i64)
    requires
        no_bar(tag),
    ensures
        parse_tagged_id(tag, tagged_id(tag, id)) == Some(id),
        other != tag ==> parse_tagged_id(other, tagged_id(tag, id)) is None,
{
    lemma_tagged_id_parts(tag, id);
    lemma_parse_signed_decimal(id);
}

/// A `tag|action|id` identifier reads back, under its own tag, as its action and number;
/// under any other tag it is refused.
pub proof fn lemma_tagged_action_id_roundtrip(
    tag: Seq<char>,
    other: Seq<char>,
    action: TradeAction,
    id: i64,
)
    requires
        no_bar(tag),
    ensures
        parse_tagged_action_id(tag, tagged_action_id(tag, action, id)) == Some((action, id)),
        other != tag ==> parse_tagged_action_id(other, tagged_action_id(tag, action, id)) is None,
{
    lemma_tagged_action_id_parts(tag, action, id);
    lemma_action_text_roundtrip(action);
    lemma_parse_signed_decimal(id);
}

/// A trade button's identifier reads back as its action and instrument, and is never taken
/// for a trade form's.
pub proof fn lemma_trade_button_id_roundtrip(action: TradeAction, instrument_id: i64)
    ensures
        parse_tagged_action_id("trade_button"@, tagged_action_id("trade_button"@, action, instrument_id))
            == Some((action, instrument_id)),
        parse_tagged_action_id("trade_modal"@, tagged_action_id("trade_button"@, action, instrument_id))
            is None,
{
    reveal_strlit("trade_button");
    reveal_strlit("trade_modal");
    assert("trade_button"@[6] != "trade_modal"@[6]);
    lemma_tagged_action_id_roundtrip("trade_button"@, "trade_modal"@, action, instrument_id);
}

/// A trade form's identifier reads back as its action and instrument, and is never taken for
/// a trade button's.
pub proof fn lemma_trade_modal_id_roundtrip(action: TradeAction, instrument_id: i64)
    ensures
        parse_tagged_action_id("trade_modal"@, tagged_action_id("trade_modal"@, action, instrument_id))
            == Some((action, instrument_id)),
        parse_tagged_action_id("trade_button"@, tagged_action_id("trade_modal"@, action, instrument_id))
            is None,
{
    reveal_strlit("trade_button");
    reveal_strlit("trade_modal");
    assert("trade_button"@[6] != "trade_modal"@[6]);
    lemma_tagged_action_id_roundtrip("trade_modal"@, "trade_button"@, action, instrument_id);
}

/// A resolve button's identifier reads back as its market, and is never taken for a resolve
/// form's.
pub proof fn lemma_resolve_button_id_roundtrip(market_id: i64)
    ensures
        parse_tagged_id("resolve_button"@, tagged_id("resolve_button"@, market_id)) == Some(
            market_id,
        ),
        parse_tagged_id("resolve_market"@, tagged_id("resolve_button"@, market_id)) is None,
{
    reveal_strlit("resolve_button");
    reveal_strlit("resolve_market");
    assert("resolve_button"@[8] != "resolve_market"@[8]);
    lemma_tagged_id_roundtrip("resolve_button"@, "resolve_market"@, market_id);
}

/// A resolve form's identifier reads back as its market, and is never taken for a resolve
/// button's.
pub proof fn lemma_resolve_modal_id_roundtrip(market_id: i64)
    ensures
        parse_tagged_id("resolve_market"@, tagged_id("resolve_market"@, market_id)) == Some(
            market_id,
        ),
        parse_tagged_id("resolve_button"@, tagged_id("resolve_market"@, market_id)) is None,
{
    reveal_strlit("resolve_button");
    reveal_strlit("resolve_market");
    assert("resolve_button"@[8] != "resolve_market"@[8]);
    lemma_tagged_id_roundtrip("resolve_market"@, "resolve_button"@, market_id);
}

/// The identifiers of a blackjack table's buttons are read back as their actions.
proof fn lemma_blackjack_id(label: Seq<char>, action: BlackjackAction, id: Seq<char>)
    requires
        no_bar(label),
        id == "blackjack"@ + seq!['|'] + label,
        blackjack_action_parse(id) == Some(action),
    ensures
        component_route(id) == ComponentRoute::Blackjack(action),
{
    reveal_strlit("blackjack");
    reveal_strlit("resolve_button");
    assert(no_bar("blackjack"@));
    lemma_split_no_sep("blackjack"@, '|');
    lemma_split_append("blackjack"@, label, '|');
    assert(seq!["blackjack"@].push(label) =~= seq!["blackjack"@, label]);
    assert("blackjack"@ != "resolve_button"@) by {
        assert("blackjack"@.len() != "resolve_button"@.len());
    }
}

/// Every button the bot makes leads back to what it was made for: a trade button to its
/// action and instrument, a resolve button to its market, a blackjack button to its action.
pub proof fn lemma_component_routes(action: TradeAction, instrument_id: i64, market_id: i64)
    ensures
        component_route(tagged_action_id("trade_button"@, action, instrument_id))
            == ComponentRoute::Trade(action, instrument_id),
        component_route(tagged_id("resolve_button"@, market_id)) == ComponentRoute::Resolve(
            market_id,
        ),
        component_route(ACTION_HIT@) == ComponentRoute::Blackjack(BlackjackAction::Hit),
        component_route(ACTION_STAND@) == ComponentRoute::Blackjack(BlackjackAction::Stand),
        component_route(ACTION_DOUBLE@) == ComponentRoute::Blackjack(BlackjackAction::DoubleDown),
        component_route(ACTION_REVEAL@) == ComponentRoute::Blackjack(BlackjackAction::Reveal),
{
    lemma_trade_button_id_roundtrip(action, instrument_id);
    reveal_strlit("trade_button");
    reveal_strlit("resolve_button");
    assert(no_bar("resolve_button"@));
    lemma_tagged_id_parts("resolve_button"@, market_id);
    lemma_resolve_button_id_roundtrip(market_id);
    reveal_strlit("blackjack|hit");
    reveal_strlit("blackjack|stand");
    reveal_strlit("blackjack|double");
    reveal_strlit("blackjack|reveal");
    reveal_strlit("blackjack");
    reveal_strlit("hit");
    reveal_strlit("stand");
    reveal_strlit("double");
    reveal_strlit("reveal");
    assert(ACTION_HIT@ =~= "blackjack"@ + seq!['|'] + "hit"@);
    assert(ACTION_STAND@ =~= "blackjack"@ + seq!['|'] + "stand"@);
    assert(ACTION_DOUBLE@ =~= "blackjack"@ + seq!['|'] + "double"@);
    assert(ACTION_REVEAL@ =~= "blackjack"@ + seq!['|'] + "reveal"@);
    assert(ACTION_HIT@ != ACTION_STAND@ && ACTION_HIT@ != ACTION_DOUBLE@ && ACTION_HIT@ != ACTION_REVEAL@);
    assert(ACTION_STAND@ != ACTION_DOUBLE@ && ACTION_STAND@ != ACTION_REVEAL@) by {
        assert(ACTION_STAND@[10] != ACTION_DOUBLE@[10]);
        assert(ACTION_STAND@[10] != ACTION_REVEAL@[10]);
    }
    assert(ACTION_DOUBLE@ != ACTION_REVEAL@);
    lemma_blackjack_id("hit"@, BlackjackAction::Hit, ACTION_HIT@);
    lemma_blackjack_id("stand"@, BlackjackAction::Stand, ACTION_STAND@);
    lemma_blackjack_id("double"@, BlackjackAction::DoubleDown, ACTION_DOUBLE@);
    lemma_blackjack_id("reveal"@, BlackjackAction::Reveal, ACTION_REVEAL@);
}

/// Every form the bot makes leads back to what it was made for: a trade form to its action
/// and instrument, a resolve form to its market, the market form to creating a market.
pub proof fn lemma_modal_routes(action: TradeAction, instrument_id: i64, market_id: i64)
    ensures
        modal_route(tagged_action_id("trade_modal"@, action, instrument_id)) == ModalRoute::Trade(
            action,
            instrument_id,
        ),
        modal_route(tagged_id("resolve_market"@, market_id)) == ModalRoute::Resolve(market_id),
        modal_route(MODAL_ID@) == ModalRoute::CreateMarket,
{
    lemma_trade_modal_id_roundtrip(action, instrument_id);
    reveal_strlit("trade_modal");
    reveal_strlit("resolve_market");
    assert(no_bar("resolve_market"@));
    lemma_tagged_id_parts("resolve_market"@, market_id);
    lemma_resolve_modal_id_roundtrip(market_id);
    reveal_strlit("market-create-modal");
    assert(no_bar(MODAL_ID@));
    lemma_split_no_sep(MODAL_ID@, '|');
}

/// The quantities offered in a trade form end with the most the user can trade, and every
/// other one is below it.
pub proof fn lemma_prefill_bounded(max_shares: i64)
    ensures
        prefill_seq(max_shares).last() == max_shares,
        forall|i: int|
            0 <= i < prefill_seq(max_shares).len() - 1 ==> #[trigger] prefill_seq(max_shares)[i]
                < max_shares,
{
    lemma_below_bounded(seq![1i64, 2i64, 5i64, 10i64, 20i64], max_shares);
}

proof fn lemma_below_bounded(s: Seq<i64>, max: i64)
    ensures
        forall|i: int| 0 <= i < below(s, max).len() ==> #[trigger] below(s, max)[i] < max,
    decreases s.len(),
{
    if s.len() > 0 {
        lemma_below_bounded(s.drop_last(), max);
        let prev = below(s.drop_last(), max);
        assert forall|i: int| 0 <= i < below(s, max).len() implies #[trigger] below(s, max)[i] < max by {
            if s.last() < max {
                assert(below(s, max) == prev.push(s.last()));
                if i < prev.len() {
                    assert(below(s, max)[i] == prev[i]);
                }
            } else {
                assert(below(s, max) == prev);
            }
        }
    }
}

} // verus!
