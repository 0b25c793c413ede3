use liquidation_monitor::config::{ConfigError, WebAppConfig};
use liquidation_monitor::data_processor::{
    deserialize_stream, entry_with_rate, first_exchange_rates, locate_entry, read_entries, read_entry,
    split_commas_exec,
};
use liquidation_monitor::decimal::parse_rate;
use liquidation_monitor::matching::{find_rate, find_symbol};
use liquidation_monitor::rate_table::RateTable;
use liquidation_monitor::stream_control::{
    management_step, plan_message, reader_step, should_forward, IncomingMessage, LoopControl,
    MessageAction, ProcessOutcome, ReaderEvent,
};
use liquidation_monitor::types::{
    ExchangeRate, Feed, FeedData, FeedDataTx, FeedDataTxLog, FeedDataTxLogEvent,
    FeedDataTxLogEventAttribute, OutputData, RawConfig, StreamError,
};

fn attribute(key: &str, value: &str) -> FeedDataTxLogEventAttribute {
    FeedDataTxLogEventAttribute { key: key.to_string(), value: value.to_string() }
}

fn event(event_type: &str, attributes: Vec<FeedDataTxLogEventAttribute>) -> FeedDataTxLogEvent {
    FeedDataTxLogEvent { event_type: event_type.to_string(), attributes }
}

fn tx(events: Vec<FeedDataTxLogEvent>) -> FeedDataTx {
    FeedDataTx { logs: vec![FeedDataTxLog { events }] }
}

fn feed(txs: Vec<FeedDataTx>) -> Feed {
    Feed {
        chain_id: "columbus-4".to_string(),
        block_type: "new_block".to_string(),
        data: FeedData { txs },
    }
}

fn vote(list: &str) -> FeedDataTx {
    tx(vec![event("aggregate_vote", vec![attribute("voter", "v"), attribute("exchange_rates", list)])])
}

fn rate(mantissa: i128, scale: u32) -> ExchangeRate {
    ExchangeRate { mantissa, scale }
}

fn strings(v: &[&str]) -> Vec<String> {
    v.iter().map(|s| s.to_string()).collect()
}

#[test]
fn split_keeps_empty_pieces() {
    assert_eq!(split_commas_exec("a,,b"), strings(&["a", "", "b"]));
    assert_eq!(split_commas_exec(""), strings(&[""]));
    assert_eq!(split_commas_exec("a,"), strings(&["a", ""]));
    assert_eq!(split_commas_exec("1uaud,2ucad"), strings(&["1uaud", "2ucad"]));
}

#[test]
fn symbol_is_first_lower_case_run() {
    assert_eq!(find_symbol("52.6uaud"), Some("uaud".to_string()));
    assert_eq!(find_symbol("x1y"), Some("x".to_string()));
    assert_eq!(find_symbol("12AB"), None);
    assert_eq!(find_symbol(""), None);
}

#[test]
fn rate_is_first_number() {
    assert_eq!(find_rate("52.634uaud"), Some("52.634".to_string()));
    assert_eq!(find_rate("abc-.5x"), Some(".5".to_string()));
    assert_eq!(find_rate("+12.x"), Some("+12.".to_string()));
    assert_eq!(find_rate("a-7b"), Some("-7".to_string()));
    assert_eq!(find_rate("1.2.3"), Some("1.2".to_string()));
    assert_eq!(find_rate("uusd"), None);
    assert_eq!(find_rate("+.x"), None);
}

#[test]
fn rate_digit_class_is_unicode() {
    // `\d` holds the decimal digits of every script.
    assert_eq!(find_rate("\u{663}5uusd"), Some("\u{663}5".to_string()));
}

#[test]
fn decimal_text_is_read_by_rust_decimal() {
    let parts = |t: &str| parse_rate(t).map(|r| (r.mantissa, r.scale));
    assert_eq!(parts("52.634"), Some((52634, 3)));
    assert_eq!(parts("1.50"), Some((150, 2)));
    assert_eq!(parts("-7"), Some((-7, 0)));
    assert_eq!(parts("+12."), Some((12, 0)));
    assert_eq!(parse_rate("\u{663}5"), None);
}

#[test]
fn entry_errors() {
    assert_eq!(read_entry("123"), Err(StreamError::SymbolNotFound));
    assert_eq!(read_entry("abc"), Err(StreamError::RateNotFound));
    assert_eq!(read_entry("\u{663}uusd"), Err(StreamError::InvalidRate));
    assert_eq!(read_entry("38.24uusd"), Ok(("uusd".to_string(), rate(3824, 2))));
    assert_eq!(
        locate_entry("38.24uusd"),
        Ok(("uusd".to_string(), "38.24".to_string()))
    );
}

#[test]
fn later_entry_of_an_asset_wins() {
    let table = read_entries(&strings(&["1uaud", "2ucad", "3uaud"])).unwrap();
    assert_eq!(table.len(), 2);
    assert_eq!(table.get("uaud"), Some(rate(3, 0)));
    assert_eq!(table.get("ucad"), Some(rate(2, 0)));
}

#[test]
fn first_unreadable_entry_decides_the_error() {
    assert_eq!(read_entries(&strings(&["5", "abc"])).unwrap_err(), StreamError::SymbolNotFound);
    assert_eq!(read_entries(&strings(&["1uaud", "x", "5"])).unwrap_err(), StreamError::RateNotFound);
}

#[test]
fn block_without_vote_has_no_rates() {
    let block = feed(vec![tx(vec![event("message", vec![attribute("exchange_rates", "1uaud")])])]);
    let out = deserialize_stream(&block).unwrap();
    assert!(out.luna_exch_rates.is_empty());
    assert!(!should_forward(&out));
    let empty = feed(vec![]);
    assert!(deserialize_stream(&empty).unwrap().luna_exch_rates.is_empty());
}

#[test]
fn prevote_events_are_not_read() {
    let block = feed(vec![
        tx(vec![event("aggregate_prevote", vec![attribute("exchange_rates", "9uaud")])]),
        vote("1uaud"),
    ]);
    let out = deserialize_stream(&block).unwrap();
    assert_eq!(out.luna_exch_rates.get("uaud"), Some(rate(1, 0)));
}

#[test]
fn only_first_list_is_read() {
    let first = feed(vec![vote("1uaud,2ucad")]);
    let extended = feed(vec![vote("1uaud,2ucad"), vote("7uaud,8ueur"), vote("garbage")]);
    assert_eq!(first_exchange_rates(&extended), Some("1uaud,2ucad".to_string()));
    let a = deserialize_stream(&first).unwrap().luna_exch_rates.entries();
    let b = deserialize_stream(&extended).unwrap().luna_exch_rates.entries();
    assert_eq!(a, b);
    assert_eq!(b.len(), 2);
}

#[test]
fn block_with_bad_list_is_an_error() {
    let block = feed(vec![vote("1uaud,,2ucad")]);
    assert_eq!(deserialize_stream(&block).unwrap_err(), StreamError::SymbolNotFound);
    let block = feed(vec![vote("1uaud,ucad")]);
    assert_eq!(deserialize_stream(&block).unwrap_err(), StreamError::RateNotFound);
}

#[test]
fn forwarding_needs_rates() {
    let out: OutputData = deserialize_stream(&feed(vec![vote("38.2uusd")])).unwrap();
    assert!(should_forward(&out));
}

#[test]
fn rate_table_replaces_and_lists() {
    let mut table = RateTable::new();
    assert!(table.is_empty());
    table.insert("uusd".to_string(), rate(1, 0));
    table.insert("ueur".to_string(), rate(2, 1));
    table.insert("uusd".to_string(), rate(3, 2));
    assert_eq!(table.len(), 2);
    assert_eq!(table.get("uusd"), Some(rate(3, 2)));
    assert_eq!(table.get("ueur"), Some(rate(2, 1)));
    assert_eq!(table.get("ukrw"), None);
    assert_eq!(
        table.entries(),
        vec![("uusd".to_string(), rate(3, 2)), ("ueur".to_string(), rate(2, 1))]
    );
}

#[test]
fn processing_loop_stops_only_when_closed() {
    assert_eq!(management_step(ProcessOutcome::Processed), LoopControl::Continue);
    assert_eq!(management_step(ProcessOutcome::Lagged(4)), LoopControl::Continue);
    assert_eq!(management_step(ProcessOutcome::Failed), LoopControl::Continue);
    assert_eq!(management_step(ProcessOutcome::Closed), LoopControl::Stop);
}

#[test]
fn messages_are_planned_by_kind() {
    assert!(matches!(plan_message(IncomingMessage::Text("t".to_string())), MessageAction::Decode(t) if t == "t"));
    assert!(matches!(plan_message(IncomingMessage::Ping(vec![1, 2])), MessageAction::SendPong(p) if p == vec![1, 2]));
    assert!(matches!(plan_message(IncomingMessage::Pong(vec![])), MessageAction::WarnPong));
    assert!(matches!(plan_message(IncomingMessage::Binary(vec![0])), MessageAction::WarnBinary));
    assert!(matches!(plan_message(IncomingMessage::Close), MessageAction::WarnClose));
}

#[test]
fn config_refuses_a_bad_url() {
    let raw = RawConfig {
        web_socket_url: "not a url".to_string(),
        web_socket_feed: "{}".to_string(),
        server_address: "127.0.0.1".to_string(),
        server_port: 8080,
    };
    assert!(matches!(WebAppConfig::new(raw), Err(ConfigError::InvalidUrl(_))));
}

#[test]
fn config_normalizes_the_url() {
    let raw = RawConfig {
        web_socket_url: "WSS://Observer.Terra.dev".to_string(),
        web_socket_feed: "{}".to_string(),
        server_address: "0.0.0.0".to_string(),
        server_port: 1,
    };
    let config = WebAppConfig::new(raw).unwrap();
    assert_eq!(config.web_socket_url, "wss://observer.terra.dev/");
    assert_eq!(config.server_port, 1);
}

#[test]
fn split_then_join_gives_the_text_back() {
    for text in ["", ",", "a,,b", "52.6uaud,48.3ucad", "x,"] {
        let pieces = split_commas_exec(text);
        assert!(pieces.iter().all(|p| !p.contains(',')));
        assert_eq!(pieces.join(","), text);
    }
}

#[test]
fn entry_with_rate_needs_a_decimal() {
    assert_eq!(entry_with_rate("uusd".to_string(), Some(rate(5, 1))), Ok(("uusd".to_string(), rate(5, 1))));
    assert_eq!(entry_with_rate("uusd".to_string(), None), Err(StreamError::InvalidRate));
}

#[test]
fn with_url_keeps_the_rest() {
    let raw = RawConfig {
        web_socket_url: "wss://a".to_string(),
        web_socket_feed: "sub".to_string(),
        server_address: "h".to_string(),
        server_port: 9,
    };
    let config = WebAppConfig::with_url(raw, "wss://a/".to_string());
    assert_eq!(config.web_socket_url, "wss://a/");
    assert_eq!(config.web_socket_feed, "sub");
    assert_eq!(config.server_address, "h");
    assert_eq!(config.server_port, 9);
}

#[test]
fn reader_stops_only_when_no_one_listens() {
    assert_eq!(reader_step(ReaderEvent::Forwarded), LoopControl::Continue);
    assert_eq!(reader_step(ReaderEvent::ReadFailed), LoopControl::Continue);
    assert_eq!(reader_step(ReaderEvent::ForwardFailed), LoopControl::Stop);
}

#[test]
fn rates_compare_as_numbers() {
    assert_eq!(rate(15, 1), rate(150, 2));
    assert_eq!(rate(-2, 0), rate(-2000, 3));
    assert_eq!(rate(0, 0), rate(0, 5));
    assert_ne!(rate(15, 1), rate(15, 2));
    assert_ne!(rate(1, 0), rate(-1, 0));
    assert_eq!(rate(15, 1).reduce().mantissa, 15);
    assert_eq!(rate(1500, 3).reduce().scale, 1);
}

#[test]
fn blocks_with_the_same_numbers_are_equal() {
    let a = deserialize_stream(&feed(vec![vote("1.5uusd,2ueur")])).unwrap();
    let b = deserialize_stream(&feed(vec![vote("2.00ueur,1.50uusd")])).unwrap();
    let c = deserialize_stream(&feed(vec![vote("1.51uusd,2ueur")])).unwrap();
    assert_eq!(a, b);
    assert_ne!(a, c);
}
