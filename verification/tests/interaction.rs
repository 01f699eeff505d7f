use catshi::blackjack::BlackjackAction;
use catshi::currency::Currency;
use catshi::interaction::{
    calc_max_buy_shares, calc_max_sell_shares, extract_create_modal_values,
    extract_quantity_from_trade_modal, generate_market_resolve_modal_id, generate_trade_modal_id,
    get_market_resolve_id, get_trade_button_id, parse_blackjack_action,
    parse_market_resolve_button_id, parse_market_resolve_modal_id, parse_trade_button_id,
    parse_trade_modal_id, prefilled_quantities, resolve_choice, route_component, route_modal,
    ComponentRoute, CreateModalError, ModalRoute, ModalRow, ResolveChoiceError, TradeAction,
    ACTION_DOUBLE, ACTION_HIT, ACTION_REVEAL, ACTION_STAND, MODAL_ID,
};
use catshi::store::{Instrument, InstrumentState, Market, MarketState, OrderDirection, Position};
use catshi::trade::OrderPrices;

fn instrument(id: i64) -> Instrument {
    Instrument { id, name: "Yes".to_string(), state: InstrumentState::Open, market_id: 7 }
}

fn market(id: i64) -> Market {
    Market {
        id,
        description: "Will it rain?".to_string(),
        state: MarketState::Open,
        owner_id: 1,
        message_id: None,
        channel_id: None,
        thread_id: None,
        details_msg_id: None,
    }
}

fn field(id: &str, value: &str) -> (String, String) {
    (id.to_string(), value.to_string())
}

#[test]
fn trade_action_words() {
    assert_eq!(TradeAction::Buy.to_string(), "buy");
    assert_eq!(TradeAction::Sell.to_string(), "sell");
    assert_eq!(TradeAction::from_str("buy"), Ok(TradeAction::Buy));
    assert_eq!(TradeAction::from_str("sell"), Ok(TradeAction::Sell));
    assert_eq!(TradeAction::from_str("Buy"), Err(()));
    assert_eq!(TradeAction::from_str(""), Err(()));
}

#[test]
fn trade_button_id_format_and_roundtrip() {
    let id = get_trade_button_id(&instrument(42), TradeAction::Buy);
    assert_eq!(id, "trade_button|buy|42");
    assert_eq!(parse_trade_button_id(&id), Some((TradeAction::Buy, 42)));
    let sell = get_trade_button_id(&instrument(-3), TradeAction::Sell);
    assert_eq!(sell, "trade_button|sell|-3");
    assert_eq!(parse_trade_button_id(&sell), Some((TradeAction::Sell, -3)));
}

#[test]
fn trade_button_id_refusals() {
    assert_eq!(parse_trade_button_id("trade_button|buy"), None);
    assert_eq!(parse_trade_button_id("trade_button|buy|1|2"), None);
    assert_eq!(parse_trade_button_id("trade_modal|buy|1"), None);
    assert_eq!(parse_trade_button_id("trade_button|hold|1"), None);
    assert_eq!(parse_trade_button_id("trade_button|buy|x"), None);
    assert_eq!(parse_trade_button_id("trade_button|buy|99999999999999999999"), None);
    assert_eq!(parse_trade_button_id("trade_button|buy|+5"), Some((TradeAction::Buy, 5)));
}

#[test]
fn trade_modal_id_format_and_roundtrip() {
    let id = generate_trade_modal_id(TradeAction::Sell, 9);
    assert_eq!(id, "trade_modal|sell|9");
    assert_eq!(parse_trade_modal_id(&id), Some((TradeAction::Sell, 9)));
    assert_eq!(parse_trade_modal_id("trade_button|sell|9"), None);
    let extreme = generate_trade_modal_id(TradeAction::Buy, i64::MIN);
    assert_eq!(parse_trade_modal_id(&extreme), Some((TradeAction::Buy, i64::MIN)));
}

#[test]
fn resolve_ids_format_and_roundtrip() {
    let button = get_market_resolve_id(&market(12));
    assert_eq!(button, "resolve_button|12");
    assert_eq!(parse_market_resolve_button_id(&button), Some(12));
    assert_eq!(parse_market_resolve_modal_id(&button), None);
    let modal = generate_market_resolve_modal_id(&market(12));
    assert_eq!(modal, "resolve_market|12");
    assert_eq!(parse_market_resolve_modal_id(&modal), Some(12));
    assert_eq!(parse_market_resolve_button_id(&modal), None);
    assert_eq!(parse_market_resolve_modal_id("resolve_market|"), None);
    assert_eq!(parse_market_resolve_modal_id("resolve_market|1|2"), None);
}

#[test]
fn blackjack_button_ids() {
    assert_eq!(parse_blackjack_action(ACTION_HIT), Some(BlackjackAction::Hit));
    assert_eq!(parse_blackjack_action(ACTION_STAND), Some(BlackjackAction::Stand));
    assert_eq!(parse_blackjack_action(ACTION_DOUBLE), Some(BlackjackAction::DoubleDown));
    assert_eq!(parse_blackjack_action(ACTION_REVEAL), Some(BlackjackAction::Reveal));
    assert_eq!(parse_blackjack_action("blackjack|fold"), None);
    assert_eq!(ACTION_HIT, "blackjack|hit");
}

#[test]
fn routes_lead_back() {
    let trade = get_trade_button_id(&instrument(5), TradeAction::Sell);
    assert_eq!(route_component(&trade), ComponentRoute::Trade(TradeAction::Sell, 5));
    let resolve = get_market_resolve_id(&market(8));
    assert_eq!(route_component(&resolve), ComponentRoute::Resolve(8));
    assert_eq!(route_component(ACTION_REVEAL), ComponentRoute::Blackjack(BlackjackAction::Reveal));
    assert_eq!(route_component("something else"), ComponentRoute::Unrecognized);

    let modal = generate_trade_modal_id(TradeAction::Buy, 3);
    assert_eq!(route_modal(&modal), ModalRoute::Trade(TradeAction::Buy, 3));
    let resolve_modal = generate_market_resolve_modal_id(&market(4));
    assert_eq!(route_modal(&resolve_modal), ModalRoute::Resolve(4));
    assert_eq!(route_modal(MODAL_ID), ModalRoute::CreateMarket);
    assert_eq!(route_modal(&trade), ModalRoute::Unrecognized);
}

fn create_rows(ids: [&str; 5], values: [&str; 5]) -> Vec<ModalRow> {
    ids.iter()
        .zip(values.iter())
        .map(|(id, value)| ModalRow::TextInput(id.to_string(), value.to_string()))
        .collect()
}

const FORM_IDS: [&str; 5] = [
    "market-create-desc",
    "market-create-opt-1",
    "market-create-opt-2",
    "market-create-opt-3",
    "market-create-opt-4",
];

#[test]
fn create_modal_values_read() {
    let rows = create_rows(FORM_IDS, ["Who wins?", "Red", "Blue", "", "Green"]);
    let values = extract_create_modal_values(&rows).ok().unwrap();
    assert_eq!(values.description, "Who wins?");
    assert_eq!(values.options, vec!["Red".to_string(), "Blue".to_string(), "Green".to_string()]);
}

#[test]
fn create_modal_values_errors() {
    let mut short = create_rows(FORM_IDS, ["q", "a", "b", "", ""]);
    short.pop();
    assert_eq!(extract_create_modal_values(&short).err(), Some(CreateModalError::RowCount(4)));
    assert_eq!(
        CreateModalError::RowCount(4).message(),
        "invalid number of action rows: had 4 expected 5"
    );

    let mut other = create_rows(FORM_IDS, ["q", "a", "b", "", ""]);
    other[2] = ModalRow::OtherInput;
    assert_eq!(
        extract_create_modal_values(&other).err(),
        Some(CreateModalError::UnsupportedComponent)
    );

    let bad_desc = create_rows(
        ["market-create-opt-1", FORM_IDS[1], FORM_IDS[2], FORM_IDS[3], FORM_IDS[4]],
        ["q", "a", "b", "", ""],
    );
    assert_eq!(
        extract_create_modal_values(&bad_desc).err(),
        Some(CreateModalError::InvalidDescriptionId)
    );

    let bad_opt = create_rows(
        [FORM_IDS[0], FORM_IDS[1], "market-create-opt-7", FORM_IDS[3], FORM_IDS[4]],
        ["q", "a", "b", "", ""],
    );
    assert_eq!(
        extract_create_modal_values(&bad_opt).err(),
        Some(CreateModalError::InvalidOptionId)
    );
    assert_eq!(CreateModalError::InvalidOptionId.message(), "option text field ID was invalid");
}

#[test]
fn trade_quantity_from_fields() {
    let both = vec![
        field("trade_modal_quantity_prefill", "5"),
        field("trade_modal_quantity_freeform", "7"),
    ];
    assert_eq!(extract_quantity_from_trade_modal(&both), Some(5));
    let custom = vec![field("trade_modal_quantity_freeform", "12")];
    assert_eq!(extract_quantity_from_trade_modal(&custom), Some(12));
    let bad = vec![field("trade_modal_quantity_freeform", "twelve")];
    assert_eq!(extract_quantity_from_trade_modal(&bad), None);
    assert_eq!(extract_quantity_from_trade_modal(&vec![]), None);
    let repeated = vec![
        field("trade_modal_quantity_prefill", "1"),
        field("trade_modal_quantity_prefill", "2"),
    ];
    assert_eq!(extract_quantity_from_trade_modal(&repeated), Some(2));
}

#[test]
fn resolve_choice_from_fields() {
    assert_eq!(resolve_choice(&vec![field("resolve_market_instrument", "31")]), Ok(31));
    assert_eq!(resolve_choice(&vec![]), Err(ResolveChoiceError::FieldMissing));
    assert_eq!(
        resolve_choice(&vec![field("resolve_market_instrument", "a")]),
        Err(ResolveChoiceError::NotANumber)
    );
}

#[test]
fn prefilled_quantities_below_max() {
    assert_eq!(prefilled_quantities(7), vec![1, 2, 5, 7]);
    assert_eq!(prefilled_quantities(100), vec![1, 2, 5, 10, 20, 100]);
    assert_eq!(prefilled_quantities(1), vec![1]);
    assert_eq!(prefilled_quantities(0), vec![0]);
}

#[test]
fn max_buy_and_sell_shares() {
    let prices = OrderPrices {
        shares_price: Currency::from(9_900),
        fees: Currency::from(198),
        direction: OrderDirection::Buy,
    };
    assert_eq!(calc_max_buy_shares(10, &prices, Currency::from(10_000)), 9);
    assert_eq!(calc_max_buy_shares(10, &prices, Currency::from(10_098)), 10);
    assert_eq!(calc_max_buy_shares(0, &prices, Currency::from(0)), 0);
    let position = Position {
        id: 1,
        quantity: 6,
        cost_basis: Currency::from(3_000),
        instrument_id: 2,
        owner_id: 3,
    };
    assert_eq!(calc_max_sell_shares(Some(&position)), 6);
    assert_eq!(calc_max_sell_shares(None), 0);
}

#[test]
fn prefilled_entry_totals() {
    let prices = OrderPrices {
        shares_price: Currency::from(1_000),
        fees: Currency::from(20),
        direction: OrderDirection::Sell,
    };
    assert_eq!(catshi::interaction::get_prefilled_quantity(4, &prices), (4, Currency::from(980)));
}

#[test]
fn create_modal_panic_detection() {
    let mut rows = create_rows(FORM_IDS, ["q", "a", "b", "", ""]);
    assert!(!catshi::interaction::create_modal_would_panic(&rows));
    rows[4] = ModalRow::Display;
    assert!(catshi::interaction::create_modal_would_panic(&rows));
    rows[2] = ModalRow::TextInput("wrong".to_string(), "b".to_string());
    assert!(!catshi::interaction::create_modal_would_panic(&rows));
}
