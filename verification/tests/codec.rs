use quote_server::decimal::{decimal_string, float_literal, parse_u32, parse_u64};
use quote_server::quote::StockQuote;
use quote_server::text::{chars_of, split_chars, split_words, string_from_chars, trim_chars};

fn chars(s: &str) -> Vec<char> {
    s.chars().collect()
}

fn quote(ticker: &str, price: &str, volume: u32, timestamp: u64) -> StockQuote {
    StockQuote::new(ticker, price.to_string(), volume, timestamp)
}

#[test]
fn decimal_writes_like_to_string() {
    assert_eq!(decimal_string(0), "0");
    assert_eq!(decimal_string(7), "7");
    assert_eq!(decimal_string(42), "42");
    assert_eq!(decimal_string(1000), "1000");
    assert_eq!(decimal_string(u64::MAX), u64::MAX.to_string());
}

#[test]
fn parse_u32_follows_str_parse() {
    for s in [
        "0", "7", "+7", "007", "", "+", "-1", "-0", "4294967295", "4294967296", "12a", " 1", "1 ",
        "99999999999999999999",
    ] {
        assert_eq!(parse_u32(&chars(s)), s.parse::<u32>().ok(), "input {:?}", s);
    }
}

#[test]
fn parse_u64_follows_str_parse() {
    for s in [
        "0",
        "18446744073709551615",
        "18446744073709551616",
        "+18446744073709551615",
        "1_000",
        "1725029869",
    ] {
        assert_eq!(parse_u64(&chars(s)), s.parse::<u64>().ok(), "input {:?}", s);
    }
}

#[test]
fn float_literal_follows_f64_parse() {
    for s in [
        "1.5", ".5", "5.", "1e5", "1E-5", "1e+5", "-2.25", "+3", "inf", "-Infinity", "NaN", "nan",
        "INF", "infinity", "", ".", "1e", "e5", "1.2.3", "+-1", "1.e3", ".e3", "abc", " 1", "1 ",
        "0x10", "1,5", "57.89", "infin", "-", "1e5.0", "5.e-3",
    ] {
        assert_eq!(float_literal(&chars(s)), s.parse::<f64>().is_ok(), "input {:?}", s);
    }
}

#[test]
fn trim_and_split_follow_str() {
    for s in ["", "  ", " a b  c ", "\tGET AAPL\n", "\u{3000}x\u{a0}y\u{2003}", "a,,b,", ","] {
        let v = chars(s);
        assert_eq!(string_from_chars(&trim_chars(&v)), s.trim());
        let ws: Vec<String> = split_words(&v).iter().map(string_from_chars).collect();
        let expected: Vec<&str> = s.split_whitespace().collect();
        assert_eq!(ws, expected);
        let ps: Vec<String> = split_chars(&v, ',').iter().map(string_from_chars).collect();
        let expected: Vec<&str> = s.split(',').collect();
        assert_eq!(ps, expected);
        assert_eq!(chars_of(s), v);
    }
}

#[test]
fn quote_displays_as_record() {
    let q = quote("AAPL", "57.89", 12345, 1725029869);
    assert_eq!(q.to_string(), "AAPL|57.89|12345|1725029869");
    assert_eq!(q.formatted_time(), "1725029869s");
}

#[test]
fn quote_reads_back_its_record() {
    let q = quote("AMZN", "123.5", 100, 7);
    let back = StockQuote::from_string(&q.to_string()).unwrap();
    assert_eq!(back.ticker, "AMZN");
    assert_eq!(back.price, "123.5");
    assert_eq!(back.volume, 100);
    assert_eq!(back.timestamp, 7);
}

#[test]
fn quote_reads_back_its_bytes() {
    let q = quote("ÄPFEL", "-1e3", u32::MAX, u64::MAX);
    let bytes = q.to_bytes();
    assert_eq!(bytes, q.to_string().into_bytes());
    let back = StockQuote::from_bytes(&bytes).unwrap();
    assert_eq!(back.to_string(), q.to_string());
}

#[test]
fn quote_record_needs_four_valid_fields() {
    assert!(StockQuote::from_string("A|1.0|2").is_none());
    assert!(StockQuote::from_string("A|1.0|2|3|4").is_none());
    assert!(StockQuote::from_string("A|one|2|3").is_none());
    assert!(StockQuote::from_string("A|1.0|-2|3").is_none());
    assert!(StockQuote::from_string("A|1.0|4294967296|3").is_none());
    assert!(StockQuote::from_string("A|1.0|2|x").is_none());
    assert!(StockQuote::from_string("").is_none());
    let q = StockQuote::from_string("|inf|+0|00").unwrap();
    assert_eq!(q.ticker, "");
    assert_eq!(q.price, "inf");
    assert_eq!(q.volume, 0);
    assert_eq!(q.timestamp, 0);
}

#[test]
fn quote_bytes_must_be_utf8() {
    assert!(StockQuote::from_bytes(&[0xff, b'|', b'1', b'|', b'2', b'|', b'3']).is_none());
    assert!(StockQuote::from_bytes(b"A|1|2|3").is_some());
}

#[test]
fn fake_random_draws() {
    assert_eq!(StockQuote::fake_random_volume(0), 100);
    assert_eq!(StockQuote::fake_random_volume(24_999), 25_099);
    assert_eq!(StockQuote::fake_random_volume(25_000), 100);
    assert_eq!(StockQuote::fake_random_volume(999_999_999), 100 + 999_999_999 % 25_000);
    assert!(StockQuote::fake_random_bool(4));
    assert!(!StockQuote::fake_random_bool(5));
    let q = StockQuote::fake_random_for_ticker("IBM", "60.5".to_string(), 99, 25_123);
    assert_eq!(q.to_string(), "IBM|60.5|223|99");
}

#[test]
fn decimal_reads_back() {
    for n in [0u64, 9, 10, 99, 4_294_967_295, 4_294_967_296, u64::MAX] {
        let written: Vec<char> = decimal_string(n).chars().collect();
        assert_eq!(parse_u64(&written), Some(n));
        assert_eq!(parse_u32(&written), u32::try_from(n).ok());
    }
}

#[test]
fn ticker_with_separator_does_not_read_back() {
    let q = quote("A|B", "1.5", 1, 2);
    assert!(StockQuote::from_string(&q.to_string()).is_none());
    assert!(StockQuote::from_bytes(&q.to_bytes()).is_none());
}

#[test]
fn price_is_kept_as_written() {
    let q = StockQuote::from_string("T|1.50|1|1").unwrap();
    assert_eq!(q.price, "1.50");
    assert_eq!(q.to_string(), "T|1.50|1|1");
}
