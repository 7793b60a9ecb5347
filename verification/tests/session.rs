use quote_server::client::{command_bytes, command_for_input, is_exit, take_reply, ClientError};
use quote_server::market::StockMarket;
use quote_server::protocol::{ping_delay_ms, stream_reply, Action, Session, HELP};
use quote_server::quote::StockQuote;

fn market() -> StockMarket {
    StockMarket::new(vec![
        StockQuote::new("AAPL", "57.89".to_string(), 100, 5),
        StockQuote::new("AMZN", "120".to_string(), 200, 6),
    ])
}

fn reply(a: Action) -> String {
    match a {
        Action::Reply(s) => s,
        _ => panic!("expected a reply"),
    }
}

#[test]
fn blank_line_is_skipped() {
    let m = market();
    let mut s = Session::new();
    assert!(matches!(s.handle_line(&m, "\n"), Action::Skip));
    assert!(matches!(s.handle_line(&m, "  \t \r\n"), Action::Skip));
}

#[test]
fn get_answers_the_quote() {
    let m = market();
    let mut s = Session::new();
    assert_eq!(reply(s.handle_line(&m, "GET AAPL\n")), "1\nAAPL|57.89|100|5\n");
    assert_eq!(reply(s.handle_line(&m, "  GET   AMZN  extra\r\n")), "1\nAMZN|120|200|6\n");
    assert_eq!(reply(s.handle_line(&m, "GET MSFT\n")), "1\nERROR: ticker not found\n");
    assert_eq!(reply(s.handle_line(&m, "GET\n")), "1\nERROR: usage GET <ticker>\n");
    assert_eq!(reply(s.handle_line(&m, "get AAPL\n")), "1\nERROR: Unknown command\n");
}

#[test]
fn get_many_answers_each_ticker() {
    let m = market();
    let mut s = Session::new();
    assert_eq!(
        reply(s.handle_line(&m, "GET_MANY AAPL,,MSFT,AMZN,\n")),
        "3\nAAPL|57.89|100|5\nERROR: ticker MSFT not found\nAMZN|120|200|6\n"
    );
    assert_eq!(reply(s.handle_line(&m, "GET_MANY ,\n")), "0\n");
    assert_eq!(
        reply(s.handle_line(&m, "GET_MANY\n")),
        "1\nERROR: usage GET_MANY <ticker-1>,<ticker-2>,...,<ticker-n>\n"
    );
    // a single listed ticker is answered as GET answers it
    assert_eq!(
        reply(s.handle_line(&m, "GET_MANY AAPL\n")),
        reply(s.handle_line(&m, "GET AAPL\n"))
    );
}

#[test]
fn total_volume_and_list() {
    let m = market();
    let mut s = Session::new();
    assert_eq!(reply(s.handle_line(&m, "GET_TOTAL_VOLUME\n")), "1\n300\n");
    assert_eq!(
        reply(s.handle_line(&m, "LIST\n")),
        "2\nAAPL|57.89|100|5\nAMZN|120|200|6\n"
    );
    assert_eq!(reply(s.handle_line(&m, "LIST all\n")), "1\nERROR: usage LIST\n");
}

#[test]
fn list_of_empty_market_counts_zero() {
    let m = StockMarket::new(vec![]);
    let mut s = Session::new();
    assert_eq!(reply(s.handle_line(&m, "LIST\n")), "0\n");
    assert_eq!(reply(s.handle_line(&m, "OPEN_UDP_CONNECTIONS\n")), "1\n0\n");
    assert_eq!(reply(s.handle_line(&m, "ALL_UDP_CONNECTIONS\n")), "1\n0\n");
}

#[test]
fn replies_start_with_their_line_count() {
    let m = market();
    let mut s = Session::new();
    for line in [
        "GET AAPL", "GET X", "GET", "GET_MANY AAPL,X,AMZN", "GET_MANY", "GET_TOTAL_VOLUME", "LIST",
        "LIST x", "STREAM a X", "STREAM a", "OPEN_UDP_CONNECTIONS", "ALL_UDP_CONNECTIONS", "HELP",
        "WHAT",
    ] {
        let r = reply(s.handle_line(&m, line));
        let (head, body) = r.split_once('\n').unwrap();
        let n: usize = head.parse().unwrap();
        assert_eq!(body.matches('\n').count(), n, "line {:?}", line);
        assert!(body.is_empty() || body.ends_with('\n'), "line {:?}", line);
    }
}

#[test]
fn stream_subscribes_known_tickers_once() {
    let m = market();
    let mut s = Session::new();
    match s.handle_line(&m, "STREAM 127.0.0.1:7879 AAPL,AMZN,AAPL\n") {
        Action::Subscribe { address, tickers } => {
            assert_eq!(address, "127.0.0.1:7879");
            assert_eq!(tickers, vec!["AAPL".to_string(), "AMZN".to_string()]);
        }
        _ => panic!("expected a subscription"),
    }
    assert_eq!(s.all_connections(), 1);
    assert_eq!(s.open_connections(), 1);
    assert_eq!(reply(s.handle_line(&m, "OPEN_UDP_CONNECTIONS\n")), "1\n1\n");
    assert_eq!(reply(s.handle_line(&m, "ALL_UDP_CONNECTIONS\n")), "1\n1\n");
}

#[test]
fn stream_refuses_unknown_ticker() {
    let m = market();
    let mut s = Session::new();
    assert_eq!(
        reply(s.handle_line(&m, "STREAM 127.0.0.1:7879 AAPL,MSFT,XYZ\n")),
        "1\nERROR: Unable to subscribe to broadcast. One of the tickers: MSFT is invalid\n"
    );
    assert_eq!(
        reply(s.handle_line(&m, "STREAM 127.0.0.1:7879\n")),
        "1\nERROR: usage STREAM udp://127.0.0.1:<port_number> <ticker-1>,<ticker-2>,...,<ticker-n>\n"
    );
    assert_eq!(
        reply(s.handle_line(&m, "STREAM 127.0.0.1:7879 AAPL,\n")),
        "1\nERROR: Unable to subscribe to broadcast. One of the tickers:  is invalid\n"
    );
    assert_eq!(s.all_connections(), 0);
}

#[test]
fn stopped_streams_are_not_open() {
    let m = market();
    let mut s = Session::new();
    for _ in 0..3 {
        assert!(matches!(
            s.handle_line(&m, "STREAM 127.0.0.1:1 AMZN\n"),
            Action::Subscribe { .. }
        ));
    }
    s.note_stopped(1);
    s.note_stopped(1);
    s.note_stopped(7);
    assert_eq!(reply(s.handle_line(&m, "OPEN_UDP_CONNECTIONS\n")), "1\n2\n");
    assert_eq!(reply(s.handle_line(&m, "ALL_UDP_CONNECTIONS\n")), "1\n3\n");
    s.close();
    assert_eq!(s.open_connections(), 0);
    assert_eq!(s.all_connections(), 3);
}

#[test]
fn other_commands() {
    let m = market();
    let mut s = Session::new();
    assert!(matches!(s.handle_line(&m, "EXIT\n"), Action::Close));
    match s.handle_line(&m, "PING_TCP\n") {
        Action::Ping { reply } => assert_eq!(reply, "PONG\n"),
        _ => panic!("expected a ping"),
    }
    let help = reply(s.handle_line(&m, "HELP\n"));
    assert_eq!(help, HELP);
    assert!(help.starts_with("13\nAvailable commands are:\n"));
    assert_eq!(help.lines().count(), 14);
    assert!(help.ends_with('\n'));
    assert_eq!(reply(s.handle_line(&m, "NOPE\n")), "1\nERROR: Unknown command\n");
}

#[test]
fn ping_delay_and_stream_reply() {
    assert_eq!(ping_delay_ms(0), 200);
    assert_eq!(ping_delay_ms(12_345), 434);
    assert_eq!(ping_delay_ms(9_999), 1_199);
    assert_eq!(ping_delay_ms(u64::MAX), 200 + (u64::MAX % 10_000) / 10);
    assert_eq!(stream_reply(40_123), "2\nSubscribed to stream on port:\n40123\n");
}

#[test]
fn client_frames_commands() {
    assert_eq!(command_for_input("  GET AAPL \n"), Some("GET AAPL".to_string()));
    assert_eq!(command_for_input(" \n"), None);
    assert_eq!(command_bytes("LIST"), b"LIST\n".to_vec());
    assert!(is_exit("exit"));
    assert!(is_exit("EXIT"));
    assert!(is_exit("ExIt"));
    assert!(!is_exit("EXIT "));
    assert!(!is_exit("QUIT"));
    assert_eq!(take_reply(0, String::new()), Err(ClientError::ServerClosed));
    assert_eq!(take_reply(3, "ok\n".to_string()), Ok("ok\n".to_string()));
}
