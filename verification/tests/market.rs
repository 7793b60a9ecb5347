use quote_server::broadcast::select_quotes;
use quote_server::market::StockMarket;
use quote_server::quote::StockQuote;

fn quote(ticker: &str, price: &str, volume: u32, timestamp: u64) -> StockQuote {
    StockQuote::new(ticker, price.to_string(), volume, timestamp)
}

fn lines(m: &StockMarket) -> Vec<String> {
    m.stocks().iter().map(|q| q.to_string()).collect()
}

#[test]
fn market_keeps_one_quote_per_ticker() {
    let m = StockMarket::new(vec![
        quote("A", "1", 10, 1),
        quote("B", "2", 20, 1),
        quote("A", "3", 30, 2),
    ]);
    assert_eq!(lines(&m), vec!["A|3|30|2", "B|2|20|1"]);
    // every quote given counts toward the total, the replaced one too
    assert_eq!(m.total_volume(), 60);
    assert_eq!(m.get(&"A".to_string()).unwrap().to_string(), "A|3|30|2");
    assert!(m.get(&"C".to_string()).is_none());
}

#[test]
fn market_with_distinct_tickers_totals_its_quotes() {
    let m = StockMarket::new(vec![quote("X", "1.5", 1, 1), quote("Y", "2.5", 2, 2)]);
    let sum: u32 = m.stocks().iter().map(|q| q.volume).sum();
    assert_eq!(m.total_volume(), sum);
    assert_eq!(lines(&m), vec!["X|1.5|1|1", "Y|2.5|2|2"]);
}

#[test]
fn market_update_replaces_quotes_and_total() {
    let mut m = StockMarket::new(vec![quote("A", "1", 10, 1), quote("B", "2", 20, 1)]);
    m.update(vec![quote("A", "1.1", 11, 5), quote("B", "1.9", 19, 5)]);
    assert_eq!(lines(&m), vec!["A|1.1|11|5", "B|1.9|19|5"]);
    assert_eq!(m.total_volume(), 30);
}

#[test]
fn empty_market() {
    let m = StockMarket::new(vec![]);
    assert_eq!(m.total_volume(), 0);
    assert!(m.stocks().is_empty());
}

#[test]
fn stream_selects_listed_tickers_in_order() {
    let m = StockMarket::new(vec![quote("A", "1", 10, 1), quote("B", "2", 20, 1)]);
    let picked = select_quotes(&m, &vec!["B".to_string(), "Z".to_string(), "A".to_string()]);
    let got: Vec<String> = picked.iter().map(|q| q.to_string()).collect();
    assert_eq!(got, vec!["B|2|20|1", "A|1|10|1"]);
}
