//! The server's line protocol: what each request line of a client session is
//! answered with, and the session's record of the UDP streams it opened.
use vstd::prelude::*;
use crate::decimal::{append_decimal, decimal, digit_char, lemma_decimal};
use crate::market::{lookup, quotes_view, MarketView, StockMarket};
use crate::quote::{quote_line, QuoteView};
use crate::text::{
    append_chars, append_string, chars_equal, chars_of, copy_range, lemma_deep_view_at,
    free_of, lemma_split_on_free, lemma_split_on_keeps_free, lemma_trim_keeps_free,
    lemma_words_spaceless, push_char, spaceless, split_chars, split_on, split_words,
    string_from_chars, trim, trim_chars, words,
};

verus! {

/// The greeting written when a client connects.
pub const WELCOME: &'static str = "Welcome to the ypfinancialmarket. Your resource for being up to date with the latest financial information\n";

/// The answer to a `STREAM` request without an address and a ticker list.
pub const STREAM_USAGE: &'static str = "1\nERROR: usage STREAM udp://127.0.0.1:<port_number> <ticker-1>,<ticker-2>,...,<ticker-n>\n";

/// The answer to a `GET` request without a ticker.
pub const GET_USAGE: &'static str = "1\nERROR: usage GET <ticker>\n";

/// The answer to a `GET` request for a ticker the market does not list.
pub const TICKER_NOT_FOUND: &'static str = "1\nERROR: ticker not found\n";

/// The answer to a `GET_MANY` request without a ticker list.
pub const GET_MANY_USAGE: &'static str = "1\nERROR: usage GET_MANY <ticker-1>,<ticker-2>,...,<ticker-n>\n";

/// The answer to a `LIST` request with arguments.
pub const LIST_USAGE: &'static str = "1\nERROR: usage LIST\n";

/// The answer to a `PING_TCP` request, written after a pause.
pub const PONG: &'static str = "PONG\n";

/// The answer to a `HELP` request.
pub const HELP: &'static str = "13\nAvailable commands are:\n                                1. STREAM 127.0.0.1:<port_number> <ticker-1>,<ticker-2>,...,<ticker-n> - Create a \n                                    broadcast to the provided address where you will recieve live financial data \n                                    updates every second, excluding the first one.\n                                2. GET <ticker> - Get latest financial information for the given ticker.\n                                3. GET_MANY <ticker-1>,<ticker-2>,...,<ticker-n> - Get the latest financial information for the given tickers.\n                                4. GET_TOTAL_VOLUME - sekf explanatory namimg.\n                                5. LIST - Dump all of the latest financial information.\n                                6. PING_TCP - TODO:\n                                7. OPEN_UDP_CONNECTIONS - Get the number of open UDP connections in this session.\n                                8. ALL_UDP_CONNECTIONS - Get the number of the total UDP connections in this session.\n                                9. EXIT\n                                \n";

/// The answer to a request whose command is not known.
pub const UNKNOWN_COMMAND: &'static str = "1\nERROR: Unknown command\n";

/// What the session does with a request line.
pub enum Action {
    /// A blank line: nothing is written.
    Skip,
    /// Write the reply.
    Reply(String),
    /// Start streaming the tickers' quotes over UDP to the address, then write
    /// [`stream_reply`] for the port the stream is sent from.
    Subscribe { address: String, tickers: Vec<String> },
    /// Pause for [`ping_delay_ms`] of a hash of the clock, then write the reply.
    Ping { reply: String },
    /// End the session: stop every stream it opened and close the connection.
    Close,
}

/// The mathematical value of an [`Action`].
pub enum ActionView {
    Skip,
    Reply(Seq<char>),
    Subscribe { address: Seq<char>, tickers: Seq<Seq<char>> },
    Ping { reply: Seq<char> },
    Close,
}

impl View for Action {
    type V = ActionView;

    open spec fn view(&self) -> ActionView {
        match self {
            Action::Skip => ActionView::Skip,
            Action::Reply(r) => ActionView::Reply(r@),
            Action::Subscribe { address, tickers } => ActionView::Subscribe {
                address: address@,
                tickers: tickers.deep_view(),
            },
            Action::Ping { reply } => ActionView::Ping { reply: reply@ },
            Action::Close => ActionView::Close,
        }
    }
}

/// The quotes' record lines, each ended by a newline.
pub open spec fn listing(m: Seq<QuoteView>) -> Seq<char>
    decreases m.len(),
{
    if m.len() == 0 {
        seq![]
    } else {
        listing(m.drop_last()) + quote_line(m.last()).push('\n')
    }
}

/// The answer to `GET` for a ticker.
pub open spec fn get_reply(m: Seq<QuoteView>, t: Seq<char>) -> Seq<char> {
    match lookup(m, t) {
        Some(q) => seq!['1', '\n'] + quote_line(q).push('\n'),
        None => TICKER_NOT_FOUND@,
    }
}

/// The trimmed pieces that are not empty.
pub open spec fn nonempty_trimmed(pieces: Seq<Seq<char>>) -> Seq<Seq<char>>
    decreases pieces.len(),
{
    if pieces.len() == 0 {
        seq![]
    } else {
        let prev = nonempty_trimmed(pieces.drop_last());
        let t = trim(pieces.last());
        if t.len() > 0 {
            prev.push(t)
        } else {
            prev
        }
    }
}

/// The tickers a `GET_MANY` list names: its comma-separated items, trimmed, empty ones left out.
pub open spec fn requested_tickers(list: Seq<char>) -> Seq<Seq<char>> {
    nonempty_trimmed(split_on(list, ','))
}

/// One line of a `GET_MANY` answer.
pub open spec fn get_many_entry(m: Seq<QuoteView>, t: Seq<char>) -> Seq<char> {
    match lookup(m, t) {
        Some(q) => quote_line(q).push('\n'),
        None => "ERROR: ticker "@ + t + " not found\n"@,
    }
}

/// The lines of a `GET_MANY` answer, one per ticker.
pub open spec fn get_many_entries(m: Seq<QuoteView>, ts: Seq<Seq<char>>) -> Seq<char>
    decreases ts.len(),
{
    if ts.len() == 0 {
        seq![]
    } else {
        get_many_entries(m, ts.drop_last()) + get_many_entry(m, ts.last())
    }
}

/// The answer to `GET_MANY`: the number of tickers requested, then a line for each.
pub open spec fn get_many_reply(m: Seq<QuoteView>, list: Seq<char>) -> Seq<char> {
    let ts = requested_tickers(list);
    decimal(ts.len()).push('\n') + get_many_entries(m, ts)
}

/// The tickers of a `STREAM` list, each once in order of first mention, or the
/// first (trimmed) item that the market does not list.
pub open spec fn subscription(m: Seq<QuoteView>, pieces: Seq<Seq<char>>) -> Result<
    Seq<Seq<char>>,
    Seq<char>,
>
    decreases pieces.len(),
{
    if pieces.len() == 0 {
        Ok(seq![])
    } else {
        match subscription(m, pieces.drop_last()) {
            Err(t) => Err(t),
            Ok(ts) => {
                let t = trim(pieces.last());
                if lookup(m, t) is Some {
                    Ok(
                        if ts.contains(t) {
                            ts
                        } else {
                            ts.push(t)
                        },
                    )
                } else {
                    Err(t)
                }
            },
        }
    }
}

/// The answer to a `STREAM` request naming a ticker that the market does not list.
pub open spec fn stream_error(t: Seq<char>) -> Seq<char> {
    "1\nERROR: Unable to subscribe to broadcast. One of the tickers: "@ + t + " is invalid\n"@
}

/// The answer once a stream has been started from a port.
pub open spec fn stream_reply_text(port: u16) -> Seq<char> {
    "2\nSubscribed to stream on port:\n"@ + decimal(port as nat).push('\n')
}

/// How many of the session's streams are still open.
pub open spec fn count_open(stopped: Seq<bool>) -> nat
    decreases stopped.len(),
{
    if stopped.len() == 0 {
        0
    } else {
        count_open(stopped.drop_last()) + if stopped.last() {
            0nat
        } else {
            1nat
        }
    }
}

/// What a request line is answered with, given the market and the session's
/// streams (`true` for each one that has stopped). The line is trimmed and split
/// at whitespace; the first word is the command and the next ones its arguments.
pub open spec fn line_action(m: MarketView, stopped: Seq<bool>, line: Seq<char>) -> ActionView {
    let input = trim(line);
    let ws = words(input);
    let cmd = if ws.len() > 0 {
        ws[0]
    } else {
        seq![]
    };
    if input.len() == 0 {
        ActionView::Skip
    } else if cmd == "STREAM"@ {
        if ws.len() >= 3 {
            match subscription(m.stocks, split_on(ws[2], ',')) {
                Ok(ts) => ActionView::Subscribe { address: ws[1], tickers: ts },
                Err(t) => ActionView::Reply(stream_error(t)),
            }
        } else {
            ActionView::Reply(STREAM_USAGE@)
        }
    } else if cmd == "GET"@ {
        if ws.len() >= 2 {
            ActionView::Reply(get_reply(m.stocks, trim(ws[1])))
        } else {
            ActionView::Reply(GET_USAGE@)
        }
    } else if cmd == "GET_MANY"@ {
        if ws.len() >= 2 {
            ActionView::Reply(get_many_reply(m.stocks, ws[1]))
        } else {
            ActionView::Reply(GET_MANY_USAGE@)
        }
    } else if cmd == "GET_TOTAL_VOLUME"@ {
        ActionView::Reply(seq!['1', '\n'] + decimal(m.total_volume as nat).push('\n'))
    } else if cmd == "LIST"@ {
        if ws.len() >= 2 {
            ActionView::Reply(LIST_USAGE@)
        } else {
            ActionView::Reply(decimal(m.stocks.len()).push('\n') + listing(m.stocks))
        }
    } else if cmd == "PING_TCP"@ {
        ActionView::Ping { reply: PONG@ }
    } else if cmd == "OPEN_UDP_CONNECTIONS"@ {
        ActionView::Reply(seq!['1', '\n'] + decimal(count_open(stopped)).push('\n'))
    } else if cmd == "ALL_UDP_CONNECTIONS"@ {
        ActionView::Reply(seq!['1', '\n'] + decimal(stopped.len()).push('\n'))
    } else if cmd == "EXIT"@ {
        ActionView::Close
    } else if cmd == "HELP"@ {
        ActionView::Reply(HELP@)
    } else {
        ActionView::Reply(UNKNOWN_COMMAND@)
    }
}

/// The pause before answering `PING_TCP`, in milliseconds, for a hash of the clock:
/// between 200 and 1199.
pub fn ping_delay_ms(hash: u64) -> (r: u64)
    ensures
        r == 200 + (hash % 10000) / 10,
        200 <= r < 1200,
{
    200 + (hash % 10000) / 10
}

/// The answer once a stream has been started from `port`.
pub fn stream_reply(port: u16) -> (r: String)
    ensures
        r@ == stream_reply_text(port),
{
    let mut r = String::new();
    r.append("2\nSubscribed to stream on port:\n");
    append_decimal(&mut r, port as u64);
    r.append("\n");
    proof {
        reveal_strlit("\n");
    }
    assert(r@ =~= stream_reply_text(port));
    r
}

/// Once a `STREAM` list has an unknown item, the answer names that item whatever follows.
pub proof fn lemma_subscription_err_sticky(m: Seq<QuoteView>, pieces: Seq<Seq<char>>, k: int)
    requires
        0 <= k <= pieces.len(),
        subscription(m, pieces.take(k)) is Err,
    ensures
        subscription(m, pieces) == subscription(m, pieces.take(k)),
    decreases pieces.len(),
{
    if k < pieces.len() {
        assert(pieces.drop_last().take(k) =~= pieces.take(k));
        lemma_subscription_err_sticky(m, pieces.drop_last(), k);
    } else {
        assert(pieces.take(k) =~= pieces);
    }
}

/// The answer to `GET` for a ticker.
fn get_answer(market: &StockMarket, t: &Vec<char>) -> (r: String)
    ensures
        r@ == get_reply(market@.stocks, t@),
{
    let key = string_from_chars(t);
    let mut r = String::new();
    match market.get(&key) {
        Some(q) => {
            push_char(&mut r, '1');
            push_char(&mut r, '\n');
            append_string(&mut r, &q.to_string());
            push_char(&mut r, '\n');
            assert(r@ =~= get_reply(market@.stocks, t@));
        },
        None => {
            r.append(TICKER_NOT_FOUND);
        },
    }
    r
}

/// The tickers a `GET_MANY` list names.
fn requested(list: &Vec<char>) -> (r: Vec<Vec<char>>)
    ensures
        r.deep_view() == requested_tickers(list@),
{
    let pieces = split_chars(list, ',');
    let ghost ps = pieces.deep_view();
    let mut r: Vec<Vec<char>> = Vec::new();
    let mut i: usize = 0;
    assert(ps.take(0) =~= seq![]);
    assert(r.deep_view() =~= seq![]);
    while i < pieces.len()
        invariant
            i <= pieces.len(),
            ps == pieces.deep_view(),
            ps.len() == pieces@.len(),
            r.deep_view() == nonempty_trimmed(ps.take(i as int)),
        decreases pieces.len() - i,
    {
        proof {
            lemma_deep_view_at(pieces, i as int);
        }
        let t = trim_chars(&pieces[i]);
        assert(ps.take(i + 1).drop_last() =~= ps.take(i as int));
        assert(ps.take(i + 1).last() == pieces@[i as int]@);
        if t.len() > 0 {
            let ghost before = r.deep_view();
            let ghost tv = t@;
            assert(t.deep_view() =~= t@);
            r.push(t);
            assert(r.deep_view() =~= before.push(tv));
        }
        i += 1;
    }
    assert(ps.take(pieces.len() as int) =~= ps);
    r
}

/// The answer to `GET_MANY` for a ticker list.
fn get_many_answer(market: &StockMarket, list: &Vec<char>) -> (r: String)
    ensures
        r@ == get_many_reply(market@.stocks, list@),
{
    let ts = requested(list);
    let ghost tv = ts.deep_view();
    let ghost m = market@.stocks;
    let mut r = String::new();
    append_decimal(&mut r, ts.len() as u64);
    push_char(&mut r, '\n');
    let ghost head = r@;
    let mut i: usize = 0;
    assert(tv.take(0) =~= seq![]);
    assert(r@ =~= head + get_many_entries(m, tv.take(0)));
    while i < ts.len()
        invariant
            i <= ts.len(),
            tv == ts.deep_view(),
            tv.len() == ts@.len(),
            m == market@.stocks,
            r@ == head + get_many_entries(m, tv.take(i as int)),
        decreases ts.len() - i,
    {
        proof {
            lemma_deep_view_at(ts, i as int);
        }
        assert(tv.take(i + 1).drop_last() =~= tv.take(i as int));
        assert(tv.take(i + 1).last() == ts@[i as int]@);
        let key = string_from_chars(&ts[i]);
        match market.get(&key) {
            Some(q) => {
                append_string(&mut r, &q.to_string());
                push_char(&mut r, '\n');
            },
            None => {
                r.append("ERROR: ticker ");
                append_chars(&mut r, &ts[i]);
                r.append(" not found\n");
            },
        }
        assert(r@ =~= head + get_many_entries(m, tv.take(i + 1)));
        i += 1;
    }
    assert(tv.take(ts.len() as int) =~= tv);
    assert(r@ =~= get_many_reply(m, list@));
    r
}

/// The answer to `LIST`: the number of quotes, then every quote's record line.
fn list_answer(market: &StockMarket) -> (r: String)
    ensures
        r@ == decimal(market@.stocks.len()).push('\n') + listing(market@.stocks),
{
    let stocks = market.stocks();
    let ghost m = quotes_view(stocks@);
    let mut r = String::new();
    append_decimal(&mut r, stocks.len() as u64);
    push_char(&mut r, '\n');
    let ghost head = r@;
    let mut i: usize = 0;
    assert(m.take(0) =~= seq![]);
    assert(r@ =~= head + listing(m.take(0)));
    while i < stocks.len()
        invariant
            i <= stocks.len(),
            m == quotes_view(stocks@),
            r@ == head + listing(m.take(i as int)),
        decreases stocks.len() - i,
    {
        assert(m.take(i + 1).drop_last() =~= m.take(i as int));
        assert(m.take(i + 1).last() == stocks@[i as int]@);
        append_string(&mut r, &stocks[i].to_string());
        push_char(&mut r, '\n');
        assert(r@ =~= head + listing(m.take(i + 1)));
        i += 1;
    }
    assert(m.take(stocks.len() as int) =~= m);
    r
}

/// Whether the list holds the ticker.
fn holds(ts: &Vec<String>, t: &String) -> (r: bool)
    ensures
        r == ts.deep_view().contains(t@),
{
    let mut j: usize = 0;
    while j < ts.len()
        invariant
            j <= ts.len(),
            forall|k: int| 0 <= k < j ==> ts@[k]@ != t@,
        decreases ts.len() - j,
    {
        if ts[j] == *t {
            assert(ts.deep_view()[j as int] == t@);
            return true;
        }
        j += 1;
    }
    assert(!ts.deep_view().contains(t@)) by {
        if ts.deep_view().contains(t@) {
            let k = choose|k: int| 0 <= k < ts.deep_view().len() && ts.deep_view()[k] == t@;
            assert(ts@[k]@ != t@);
        }
    }
    false
}

/// The tickers to stream for a `STREAM` list, or its first unknown item.
fn subscribe_tickers(market: &StockMarket, list: &Vec<char>) -> (r: Result<Vec<String>, Vec<char>>)
    ensures
        match r {
            Ok(ts) => subscription(market@.stocks, split_on(list@, ',')) == Ok::<
                Seq<Seq<char>>,
                Seq<char>,
            >(ts.deep_view()),
            Err(t) => subscription(market@.stocks, split_on(list@, ',')) == Err::<
                Seq<Seq<char>>,
                Seq<char>,
            >(t@),
        },
{
    let pieces = split_chars(list, ',');
    let ghost ps = pieces.deep_view();
    let ghost m = market@.stocks;
    let mut acc: Vec<String> = Vec::new();
    let mut i: usize = 0;
    assert(ps.take(0) =~= seq![]);
    assert(acc.deep_view() =~= seq![]);
    while i < pieces.len()
        invariant
            i <= pieces.len(),
            ps == pieces.deep_view(),
            ps == split_on(list@, ','),
            ps.len() == pieces@.len(),
            m == market@.stocks,
            subscription(m, ps.take(i as int)) == Ok::<Seq<Seq<char>>, Seq<char>>(
                acc.deep_view(),
            ),
        decreases pieces.len() - i,
    {
        proof {
            lemma_deep_view_at(pieces, i as int);
        }
        assert(ps.take(i + 1).drop_last() =~= ps.take(i as int));
        assert(ps.take(i + 1).last() == pieces@[i as int]@);
        let t = trim_chars(&pieces[i]);
        let key = string_from_chars(&t);
        match market.get(&key) {
            Some(_) => {
                if !holds(&acc, &key) {
                    let ghost before = acc.deep_view();
                    acc.push(key);
                    assert(acc.deep_view() =~= before.push(t@));
                }
            },
            None => {
                proof {
                    lemma_subscription_err_sticky(m, ps, i + 1);
                }
                return Err(t);
            },
        }
        i += 1;
    }
    assert(ps.take(pieces.len() as int) =~= ps);
    Ok(acc)
}

/// The answer to a request naming an unknown `STREAM` item.
fn stream_error_answer(t: &Vec<char>) -> (r: String)
    ensures
        r@ == stream_error(t@),
{
    let mut r = String::new();
    r.append("1\nERROR: Unable to subscribe to broadcast. One of the tickers: ");
    append_chars(&mut r, t);
    r.append(" is invalid\n");
    r
}

/// A reply holding the text.
fn reply_of(text: &str) -> (r: Action)
    ensures
        r@ == ActionView::Reply(text@),
{
    let mut s = String::new();
    s.append(text);
    assert(s@ =~= text@);
    Action::Reply(s)
}

/// `1`, a newline, then the number on a line of its own.
fn count_reply(n: u64) -> (r: Action)
    ensures
        r@ == ActionView::Reply(seq!['1', '\n'] + decimal(n as nat).push('\n')),
{
    let mut s = String::new();
    push_char(&mut s, '1');
    push_char(&mut s, '\n');
    append_decimal(&mut s, n);
    push_char(&mut s, '\n');
    assert(s@ =~= seq!['1', '\n'] + decimal(n as nat).push('\n'));
    Action::Reply(s)
}

/// A client session's record of the UDP streams it has opened: for each, in
/// the order opened, whether it has stopped.
pub struct Session {
    stopped: Vec<bool>,
}

impl View for Session {
    type V = Seq<bool>;

    closed spec fn view(&self) -> Seq<bool> {
        self.stopped@
    }
}

impl Session {
    /// A session that has opened no stream.
    pub fn new() -> (r: Session)
        ensures
            r@ == Seq::<bool>::empty(),
    {
        Session { stopped: Vec::new() }
    }

    /// The number of streams the session has opened.
    pub fn all_connections(&self) -> (r: usize)
        ensures
            r == self@.len(),
    {
        self.stopped.len()
    }

    /// The number of the session's streams that have not stopped.
    pub fn open_connections(&self) -> (r: usize)
        ensures
            r == count_open(self@),
    {
        let mut n: usize = 0;
        let mut i: usize = 0;
        assert(self@.take(0) =~= seq![]);
        while i < self.stopped.len()
            invariant
                i <= self.stopped.len(),
                n == count_open(self.stopped@.take(i as int)),
                n <= i,
            decreases self.stopped.len() - i,
        {
            assert(self.stopped@.take(i + 1).drop_last() =~= self.stopped@.take(i as int));
            if !self.stopped[i] {
                n += 1;
            }
            i += 1;
        }
        assert(self.stopped@.take(self.stopped.len() as int) =~= self.stopped@);
        n
    }

    /// Records that the stream opened `index`-th (from 0) has stopped; an index
    /// past the streams opened changes nothing.
    pub fn note_stopped(&mut self, index: usize)
        ensures
            final(self)@ == (if index < old(self)@.len() {
                old(self)@.update(index as int, true)
            } else {
                old(self)@
            }),
    {
        if index < self.stopped.len() {
            self.stopped.set(index, true);
        }
    }

    /// Ends the session: every stream it opened is stopped.
    pub fn close(&mut self)
        ensures
            final(self)@ == Seq::new(old(self)@.len(), |i: int| true),
    {
        let mut i: usize = 0;
        while i < self.stopped.len()
            invariant
                i <= self.stopped.len(),
                self.stopped@.len() == old(self)@.len(),
                forall|k: int| 0 <= k < i ==> self.stopped@[k],
            decreases self.stopped.len() - i,
        {
            self.stopped.set(i, true);
            i += 1;
        }
        assert(self.stopped@ =~= Seq::new(old(self)@.len(), |i: int| true));
    }

    /// Answers one request line (see [`line_action`]); a `STREAM` request that
    /// is accepted records a new open stream.
    pub fn handle_line(&mut self, market: &StockMarket, line: &str) -> (r: Action)
        ensures
            r@ == line_action(market@, old(self)@, line@),
            final(self)@ == (if r is Subscribe {
                old(self)@.push(false)
            } else {
                old(self)@
            }),
    {
        let chars = chars_of(line);
        let input = trim_chars(&chars);
        if input.len() == 0 {
            return Action::Skip;
        }
        let ws = split_words(&input);
        let ghost wv = ws.deep_view();
        proof {
            if ws.len() > 0 {
                lemma_deep_view_at(ws, 0);
            }
            if ws.len() > 1 {
                lemma_deep_view_at(ws, 1);
            }
            if ws.len() > 2 {
                lemma_deep_view_at(ws, 2);
            }
        }
        let cmd: Vec<char> = if ws.len() > 0 {
            copy_range(&ws[0], 0, ws[0].len())
        } else {
            Vec::new()
        };
        assert(ws.len() > 0 ==> ws[0]@.subrange(0, ws[0]@.len() as int) =~= ws[0]@);
        assert(cmd@ == (if wv.len() > 0 {
            wv[0]
        } else {
            seq![]
        }));
        if chars_equal(&cmd, "STREAM") {
            if ws.len() >= 3 {
                match subscribe_tickers(market, &ws[2]) {
                    Ok(tickers) => {
                        let address = string_from_chars(&ws[1]);
                        self.stopped.push(false);
                        Action::Subscribe { address, tickers }
                    },
                    Err(t) => Action::Reply(stream_error_answer(&t)),
                }
            } else {
                reply_of(STREAM_USAGE)
            }
        } else if chars_equal(&cmd, "GET") {
            if ws.len() >= 2 {
                let t = trim_chars(&ws[1]);
                Action::Reply(get_answer(market, &t))
            } else {
                reply_of(GET_USAGE)
            }
        } else if chars_equal(&cmd, "GET_MANY") {
            if ws.len() >= 2 {
                Action::Reply(get_many_answer(market, &ws[1]))
            } else {
                reply_of(GET_MANY_USAGE)
            }
        } else if chars_equal(&cmd, "GET_TOTAL_VOLUME") {
            let mut s = String::new();
            push_char(&mut s, '1');
            push_char(&mut s, '\n');
            append_decimal(&mut s, market.total_volume() as u64);
            push_char(&mut s, '\n');
            assert(s@ =~= seq!['1', '\n'] + decimal(market@.total_volume as nat).push('\n'));
            Action::Reply(s)
        } else if chars_equal(&cmd, "LIST") {
            if ws.len() >= 2 {
                reply_of(LIST_USAGE)
            } else {
                Action::Reply(list_answer(market))
            }
        } else if chars_equal(&cmd, "PING_TCP") {
            let mut s = String::new();
            s.append(PONG);
            assert(s@ =~= PONG@);
            Action::Ping { reply: s }
        } else if chars_equal(&cmd, "OPEN_UDP_CONNECTIONS") {
            let n = self.open_connections();
            count_reply(n as u64)
        } else if chars_equal(&cmd, "ALL_UDP_CONNECTIONS") {
            count_reply(self.stopped.len() as u64)
        } else if chars_equal(&cmd, "EXIT") {
            Action::Close
        } else if chars_equal(&cmd, "HELP") {
            reply_of(HELP)
        } else {
            reply_of(UNKNOWN_COMMAND)
        }
    }
}

/// However the session's streams stand, no more are open than were opened.
pub proof fn law_open_within_all(stopped: Seq<bool>)
    ensures
        count_open(stopped) <= stopped.len(),
    decreases stopped.len(),
{
    if stopped.len() > 0 {
        law_open_within_all(stopped.drop_last());
    }
}

/// Opening a stream adds one to both the open and the total count.
pub proof fn law_subscribe_opens_one(stopped: Seq<bool>)
    ensures
        count_open(stopped.push(false)) == count_open(stopped) + 1,
        stopped.push(false).len() == stopped.len() + 1,
{
    assert(stopped.push(false).drop_last() =~= stopped);
}

/// A stream that stops takes at most one from the open count and none from the total.
pub proof fn law_stop_closes_at_most_one(stopped: Seq<bool>, i: int)
    requires
        0 <= i < stopped.len(),
    ensures
        count_open(stopped) - 1 <= count_open(stopped.update(i, true)) <= count_open(stopped),
        stopped.update(i, true).len() == stopped.len(),
    decreases stopped.len(),
{
    let s2 = stopped.update(i, true);
    if i < stopped.len() - 1 {
        assert(s2.drop_last() =~= stopped.drop_last().update(i, true));
        law_stop_closes_at_most_one(stopped.drop_last(), i);
    } else {
        assert(s2.drop_last() =~= stopped.drop_last());
    }
}

/// Once the session is closed, none of its streams is open.
pub proof fn law_closed_session_has_none_open(n: nat)
    ensures
        count_open(Seq::new(n, |i: int| true)) == 0,
    decreases n,
{
    if n > 0 {
        let s = Seq::new(n, |i: int| true);
        assert(s.drop_last() =~= Seq::new((n - 1) as nat, |i: int| true));
        law_closed_session_has_none_open((n - 1) as nat);
    }
}

/// A `STREAM` list is accepted exactly when the market lists every one of its
/// trimmed items; the accepted tickers are then all listed.
pub proof fn law_stream_accepts_known(m: Seq<QuoteView>, pieces: Seq<Seq<char>>)
    ensures
        subscription(m, pieces) is Ok <==> forall|i: int|
            0 <= i < pieces.len() ==> lookup(m, trim(#[trigger] pieces[i])) is Some,
        subscription(m, pieces) matches Ok(ts) ==> forall|j: int|
            0 <= j < ts.len() ==> lookup(m, #[trigger] ts[j]) is Some,
    decreases pieces.len(),
{
    if pieces.len() > 0 {
        let prev = pieces.drop_last();
        law_stream_accepts_known(m, prev);
        assert forall|i: int| 0 <= i < prev.len() implies prev[i] == pieces[i] by {}
        if subscription(m, prev) is Ok && lookup(m, trim(pieces.last())) is Some {
            assert forall|i: int| 0 <= i < pieces.len() implies lookup(
                m,
                trim(#[trigger] pieces[i]),
            ) is Some by {
                if i < prev.len() {
                    assert(prev[i] == pieces[i]);
                }
            }
        }
        if subscription(m, prev) is Err {
            let i = choose|i: int|
                0 <= i < prev.len() && !(lookup(m, trim(#[trigger] prev[i])) is Some);
            assert(pieces[i] == prev[i]);
        }
    }
}

/// `GET_MANY` for one listed ticker answers exactly as `GET` does.
pub proof fn law_get_many_single_agrees_with_get(m: Seq<QuoteView>, t: Seq<char>)
    requires
        t.len() > 0,
        free_of(t, ','),
        trim(t) == t,
        lookup(m, t) is Some,
    ensures
        get_many_reply(m, t) == get_reply(m, t),
{
    lemma_split_on_free(t, ',');
    let pieces = split_on(t, ',');
    assert(pieces.drop_last() =~= seq![]);
    assert(pieces.last() == t);
    assert(nonempty_trimmed(pieces.drop_last()) =~= seq![]);
    assert(nonempty_trimmed(pieces) =~= seq![t]);
    let ts = requested_tickers(t);
    assert(ts =~= seq![t]);
    assert(ts.drop_last() =~= seq![]);
    assert(get_many_entries(m, ts.drop_last()) =~= seq![]);
    assert(get_many_entries(m, ts) =~= get_many_entry(m, t));
    assert(decimal(1) =~= seq![digit_char(1)]);
    assert(digit_char(1) == '1');
    assert(get_many_reply(m, t) =~= get_reply(m, t));
}

/// The number of line ends in the text.
pub open spec fn newlines(s: Seq<char>) -> nat
    decreases s.len(),
{
    if s.len() == 0 {
        0
    } else {
        newlines(s.drop_last()) + if s.last() == '\n' {
            1nat
        } else {
            0nat
        }
    }
}

/// The text is whole lines: empty, or ending with a line end.
pub open spec fn whole_lines(s: Seq<char>) -> bool {
    s.len() == 0 || s.last() == '\n'
}

/// The reply is a line giving `n`, then the body, `n` whole lines.
pub open spec fn counted_as(r: Seq<char>, n: nat, body: Seq<char>) -> bool {
    &&& r == decimal(n).push('\n') + body
    &&& newlines(body) == n
    &&& whole_lines(body)
}

/// The reply starts with a line giving the number of lines that follow.
pub open spec fn is_counted(r: Seq<char>) -> bool {
    exists|n: nat, body: Seq<char>| #[trigger] counted_as(r, n, body)
}

/// No quote's ticker or price holds a line end.
pub open spec fn single_line_quotes(m: Seq<QuoteView>) -> bool {
    forall|i: int|
        0 <= i < m.len() ==> free_of(#[trigger] m[i].ticker, '\n') && free_of(m[i].price, '\n')
}

pub proof fn lemma_newlines_concat(a: Seq<char>, b: Seq<char>)
    ensures
        newlines(a + b) == newlines(a) + newlines(b),
    decreases b.len(),
{
    if b.len() == 0 {
        assert(a + b =~= a);
    } else {
        assert((a + b).drop_last() =~= a + b.drop_last());
        lemma_newlines_concat(a, b.drop_last());
    }
}

pub proof fn lemma_newlines_free(s: Seq<char>)
    requires
        free_of(s, '\n'),
    ensures
        newlines(s) == 0,
    decreases s.len(),
{
    if s.len() > 0 {
        assert(free_of(s.drop_last(), '\n')) by {
            assert forall|i: int| 0 <= i < s.len() - 1 implies s.drop_last()[i] != '\n' by {
                assert(s.drop_last()[i] == s[i]);
            }
        }
        lemma_newlines_free(s.drop_last());
    }
}

/// A single line: a text without line ends, then a line end.
pub proof fn lemma_one_line(s: Seq<char>)
    requires
        free_of(s, '\n'),
    ensures
        newlines(s.push('\n')) == 1,
        whole_lines(s.push('\n')),
{
    lemma_newlines_free(s);
    assert(s.push('\n').drop_last() =~= s);
}

pub proof fn lemma_decimal_single_line(n: nat)
    ensures
        free_of(decimal(n), '\n'),
{
    lemma_decimal(n);
    assert forall|i: int| 0 <= i < decimal(n).len() implies decimal(n)[i] != '\n' by {
        assert(crate::decimal::is_digit(decimal(n)[i]));
    }
}

pub proof fn lemma_quote_line_single(q: QuoteView)
    requires
        free_of(q.ticker, '\n'),
        free_of(q.price, '\n'),
    ensures
        free_of(quote_line(q), '\n'),
{
    lemma_decimal_single_line(q.volume as nat);
    lemma_decimal_single_line(q.timestamp as nat);
}

/// The listing has one whole line per quote.
pub proof fn lemma_listing_lines(m: Seq<QuoteView>)
    requires
        single_line_quotes(m),
    ensures
        newlines(listing(m)) == m.len(),
        whole_lines(listing(m)),
    decreases m.len(),
{
    if m.len() > 0 {
        let prev = m.drop_last();
        assert(single_line_quotes(prev)) by {
            assert forall|i: int| 0 <= i < prev.len() implies free_of(#[trigger] prev[i].ticker, '\n')
                && free_of(prev[i].price, '\n') by {
                assert(prev[i] == m[i]);
            }
        }
        lemma_listing_lines(prev);
        assert(free_of(m[m.len() - 1].ticker, '\n'));
        lemma_quote_line_single(m.last());
        lemma_one_line(quote_line(m.last()));
        lemma_newlines_concat(listing(prev), quote_line(m.last()).push('\n'));
    }
}

/// The quote found for a ticker is one of the market's quotes.
pub proof fn lemma_lookup_single_line(m: Seq<QuoteView>, t: Seq<char>)
    requires
        single_line_quotes(m),
        lookup(m, t) is Some,
    ensures
        free_of(lookup(m, t)->0.ticker, '\n'),
        free_of(lookup(m, t)->0.price, '\n'),
{
    let i = crate::market::position(m, t);
    assert(free_of(m[i].ticker, '\n'));
}

/// The entry for a ticker that is not listed is one whole line.
pub proof fn lemma_missing_entry(t: Seq<char>)
    requires
        free_of(t, '\n'),
    ensures
        newlines("ERROR: ticker "@ + t + " not found\n"@) == 1,
        whole_lines("ERROR: ticker "@ + t + " not found\n"@),
{
    reveal_strlit("ERROR: ticker ");
    reveal_strlit(" not found\n");
    let a = "ERROR: ticker "@;
    let b = " not found\n"@;
    assert(a.len() == 14);
    assert(b.len() == 11);
    reveal_with_fuel(newlines, 16);
    assert(newlines(a) == 0);
    assert(newlines(b) == 1);
    lemma_newlines_free(t);
    lemma_newlines_concat(a, t);
    lemma_newlines_concat(a + t, b);
    assert((a + t + b).last() == b.last());
}

/// The `GET_MANY` lines: one whole line per ticker.
pub proof fn lemma_entries_lines(m: Seq<QuoteView>, ts: Seq<Seq<char>>)
    requires
        single_line_quotes(m),
        forall|k: int| 0 <= k < ts.len() ==> free_of(#[trigger] ts[k], '\n'),
    ensures
        newlines(get_many_entries(m, ts)) == ts.len(),
        whole_lines(get_many_entries(m, ts)),
    decreases ts.len(),
{
    if ts.len() > 0 {
        let prev = ts.drop_last();
        assert forall|k: int| 0 <= k < prev.len() implies free_of(#[trigger] prev[k], '\n') by {
            assert(prev[k] == ts[k]);
        }
        lemma_entries_lines(m, prev);
        let t = ts.last();
        assert(free_of(ts[ts.len() - 1], '\n'));
        match lookup(m, t) {
            Some(q) => {
                lemma_lookup_single_line(m, t);
                lemma_quote_line_single(q);
                lemma_one_line(quote_line(q));
            },
            None => {
                lemma_missing_entry(t);
            },
        }
        lemma_newlines_concat(get_many_entries(m, prev), get_many_entry(m, t));
    }
}

/// Trimmed pieces kept from pieces without line ends have none.
pub proof fn lemma_nonempty_trimmed_free(pieces: Seq<Seq<char>>)
    requires
        forall|k: int| 0 <= k < pieces.len() ==> free_of(#[trigger] pieces[k], '\n'),
    ensures
        forall|k: int|
            0 <= k < nonempty_trimmed(pieces).len() ==> free_of(
                #[trigger] nonempty_trimmed(pieces)[k],
                '\n',
            ),
    decreases pieces.len(),
{
    if pieces.len() > 0 {
        let prev = pieces.drop_last();
        assert forall|k: int| 0 <= k < prev.len() implies free_of(#[trigger] prev[k], '\n') by {
            assert(prev[k] == pieces[k]);
        }
        lemma_nonempty_trimmed_free(prev);
        assert(free_of(pieces[pieces.len() - 1], '\n'));
        lemma_trim_keeps_free(pieces.last(), '\n');
        let r = nonempty_trimmed(pieces);
        assert forall|k: int| 0 <= k < r.len() implies free_of(#[trigger] r[k], '\n') by {
            if k < nonempty_trimmed(prev).len() {
                assert(r[k] == nonempty_trimmed(prev)[k]);
            }
        }
    }
}

/// A reply of one line of text after the count `1`.
proof fn lemma_counted_one(r: Seq<char>, line: Seq<char>)
    requires
        r == seq!['1', '\n'] + line.push('\n'),
        free_of(line, '\n'),
    ensures
        is_counted(r),
{
    lemma_one_line(line);
    assert(decimal(1) =~= seq![digit_char(1)]);
    assert(digit_char(1) == '1');
    assert(decimal(1).push('\n') =~= seq!['1', '\n']);
    assert(r =~= decimal(1).push('\n') + line.push('\n'));
    assert(counted_as(r, 1, line.push('\n')));
}

/// This fixed answer starts with the count of the lines that follow.
#[verifier::rlimit(40)]
proof fn lemma_counted_ticker_not_found()
    ensures
        is_counted(TICKER_NOT_FOUND@),
{
    reveal_strlit("1\nERROR: ticker not found\n");
    let s = "1\nERROR: ticker not found\n"@;
    assert(TICKER_NOT_FOUND@ == s);
    let body = s.skip(2);
    reveal_with_fuel(newlines, 30);
    assert(newlines(body) == 1);
    assert(decimal(1) =~= seq![digit_char(1)]);
    assert(digit_char(1) == '1');
    assert(s =~= decimal(1).push('\n') + body);
    assert(counted_as(s, 1, body));
}

/// This fixed answer starts with the count of the lines that follow.
#[verifier::rlimit(40)]
proof fn lemma_counted_get_usage()
    ensures
        is_counted(GET_USAGE@),
{
    reveal_strlit("1\nERROR: usage GET <ticker>\n");
    let s = "1\nERROR: usage GET <ticker>\n"@;
    assert(GET_USAGE@ == s);
    let body = s.skip(2);
    reveal_with_fuel(newlines, 30);
    assert(newlines(body) == 1);
    assert(decimal(1) =~= seq![digit_char(1)]);
    assert(digit_char(1) == '1');
    assert(s =~= decimal(1).push('\n') + body);
    assert(counted_as(s, 1, body));
}

/// This fixed answer starts with the count of the lines that follow.
#[verifier::rlimit(40)]
proof fn lemma_counted_list_usage()
    ensures
        is_counted(LIST_USAGE@),
{
    reveal_strlit("1\nERROR: usage LIST\n");
    let s = "1\nERROR: usage LIST\n"@;
    assert(LIST_USAGE@ == s);
    let body = s.skip(2);
    reveal_with_fuel(newlines, 30);
    assert(newlines(body) == 1);
    assert(decimal(1) =~= seq![digit_char(1)]);
    assert(digit_char(1) == '1');
    assert(s =~= decimal(1).push('\n') + body);
    assert(counted_as(s, 1, body));
}

/// This fixed answer starts with the count of the lines that follow.
#[verifier::rlimit(40)]
proof fn lemma_counted_unknown_command()
    ensures
        is_counted(UNKNOWN_COMMAND@),
{
    reveal_strlit("1\nERROR: Unknown command\n");
    let s = "1\nERROR: Unknown command\n"@;
    assert(UNKNOWN_COMMAND@ == s);
    let body = s.skip(2);
    reveal_with_fuel(newlines, 30);
    assert(newlines(body) == 1);
    assert(decimal(1) =~= seq![digit_char(1)]);
    assert(digit_char(1) == '1');
    assert(s =~= decimal(1).push('\n') + body);
    assert(counted_as(s, 1, body));
}

/// This fixed answer starts with the count of the lines that follow.
#[verifier::rlimit(40)]
proof fn lemma_counted_stream_usage()
    ensures
        is_counted(STREAM_USAGE@),
{
    reveal_strlit("1\nERROR: usage STREAM udp://127.0.0.1:<port_number> <ticker-1>,<ticker-2>,...,<ticker-n>\n");
    let s = "1\nERROR: usage STREAM udp://127.0.0.1:<port_number> <ticker-1>,<ticker-2>,...,<ticker-n>\n"@;
    assert(STREAM_USAGE@ == s);
    assert(s.len() == 89);
    let body = s.skip(2);
    reveal_with_fuel(newlines, 27);
    assert(body.subrange(0, 0) =~= Seq::<char>::empty());
    assert(newlines(body.subrange(0, 25)) == 0);
    assert(body.subrange(0, 25) =~= body.subrange(0, 0) + body.subrange(0, 25));
    lemma_newlines_concat(body.subrange(0, 0), body.subrange(0, 25));
    assert(newlines(body.subrange(25, 50)) == 0);
    assert(body.subrange(0, 50) =~= body.subrange(0, 25) + body.subrange(25, 50));
    lemma_newlines_concat(body.subrange(0, 25), body.subrange(25, 50));
    assert(newlines(body.subrange(50, 75)) == 0);
    assert(body.subrange(0, 75) =~= body.subrange(0, 50) + body.subrange(50, 75));
    lemma_newlines_concat(body.subrange(0, 50), body.subrange(50, 75));
    assert(newlines(body.subrange(75, 87)) == 1);
    assert(body.subrange(0, 87) =~= body.subrange(0, 75) + body.subrange(75, 87));
    lemma_newlines_concat(body.subrange(0, 75), body.subrange(75, 87));
    assert(body.subrange(0, 87) =~= body);
    assert(newlines(body) == 1);
    assert(decimal(1) =~= seq![digit_char(1)]);
    assert(digit_char(1) == '1');
    assert(s =~= decimal(1).push('\n') + body);
    assert(counted_as(s, 1, body));
}

/// This fixed answer starts with the count of the lines that follow.
#[verifier::rlimit(40)]
proof fn lemma_counted_get_many_usage()
    ensures
        is_counted(GET_MANY_USAGE@),
{
    reveal_strlit("1\nERROR: usage GET_MANY <ticker-1>,<ticker-2>,...,<ticker-n>\n");
    let s = "1\nERROR: usage GET_MANY <ticker-1>,<ticker-2>,...,<ticker-n>\n"@;
    assert(GET_MANY_USAGE@ == s);
    assert(s.len() == 61);
    let body = s.skip(2);
    reveal_with_fuel(newlines, 27);
    assert(body.subrange(0, 0) =~= Seq::<char>::empty());
    assert(newlines(body.subrange(0, 25)) == 0);
    assert(body.subrange(0, 25) =~= body.subrange(0, 0) + body.subrange(0, 25));
    lemma_newlines_concat(body.subrange(0, 0), body.subrange(0, 25));
    assert(newlines(body.subrange(25, 50)) == 0);
    assert(body.subrange(0, 50) =~= body.subrange(0, 25) + body.subrange(25, 50));
    lemma_newlines_concat(body.subrange(0, 25), body.subrange(25, 50));
    assert(newlines(body.subrange(50, 59)) == 1);
    assert(body.subrange(0, 59) =~= body.subrange(0, 50) + body.subrange(50, 59));
    lemma_newlines_concat(body.subrange(0, 50), body.subrange(50, 59));
    assert(body.subrange(0, 59) =~= body);
    assert(newlines(body) == 1);
    assert(decimal(1) =~= seq![digit_char(1)]);
    assert(digit_char(1) == '1');
    assert(s =~= decimal(1).push('\n') + body);
    assert(counted_as(s, 1, body));
}

/// The line ends in the fixed parts of the answer naming an unknown `STREAM` item.
#[verifier::rlimit(40)]
proof fn lemma_stream_error_parts()
    ensures
        "1\nERROR: Unable to subscribe to broadcast. One of the tickers: "@.len() >= 2,
        "1\nERROR: Unable to subscribe to broadcast. One of the tickers: "@[0] == '1',
        "1\nERROR: Unable to subscribe to broadcast. One of the tickers: "@[1] == '\n',
        newlines("1\nERROR: Unable to subscribe to broadcast. One of the tickers: "@.skip(2)) == 0,
        newlines(" is invalid\n"@) == 1,
        " is invalid\n"@.len() > 0,
        " is invalid\n"@.last() == '\n',
{
    reveal_strlit("1\nERROR: Unable to subscribe to broadcast. One of the tickers: ");
    reveal_strlit(" is invalid\n");
    let a = "1\nERROR: Unable to subscribe to broadcast. One of the tickers: "@;
    let b = " is invalid\n"@;
    assert(a.len() == 63);
    assert(b.len() == 12);
    let head = a.skip(2);
    reveal_with_fuel(newlines, 27);
    assert(head.subrange(0, 0) =~= Seq::<char>::empty());
    assert(newlines(head.subrange(0, 25)) == 0);
    assert(head.subrange(0, 25) =~= head.subrange(0, 0) + head.subrange(0, 25));
    lemma_newlines_concat(head.subrange(0, 0), head.subrange(0, 25));
    assert(newlines(head.subrange(25, 50)) == 0);
    assert(head.subrange(0, 50) =~= head.subrange(0, 25) + head.subrange(25, 50));
    lemma_newlines_concat(head.subrange(0, 25), head.subrange(25, 50));
    assert(newlines(head.subrange(50, 61)) == 0);
    assert(head.subrange(0, 61) =~= head.subrange(0, 50) + head.subrange(50, 61));
    lemma_newlines_concat(head.subrange(0, 50), head.subrange(50, 61));
    assert(head.subrange(0, 61) =~= head);
    assert(newlines(head) == 0);
    reveal_with_fuel(newlines, 14);
    assert(newlines(b) == 1);
}

/// The answer naming an unknown `STREAM` item is one line after the count `1`.
#[verifier::rlimit(40)]
pub proof fn lemma_counted_stream_error(t: Seq<char>)
    requires
        free_of(t, '\n'),
    ensures
        is_counted(stream_error(t)),
{
    lemma_stream_error_parts();
    let a = "1\nERROR: Unable to subscribe to broadcast. One of the tickers: "@;
    let b = " is invalid\n"@;
    let head = a.skip(2);
    lemma_newlines_free(t);
    lemma_newlines_concat(head, t);
    lemma_newlines_concat(head + t, b);
    let r = stream_error(t);
    let rest = head + t + b;
    assert(rest.last() == b.last());
    assert(decimal(1) =~= seq![digit_char(1)]);
    assert(digit_char(1) == '1');
    assert(r =~= decimal(1).push('\n') + rest);
    assert(counted_as(r, 1, rest));
}

/// The line ends in one stretch of the `HELP` text.
#[verifier::rlimit(40)]
proof fn lemma_help_part_0()
    ensures
        HELP@.len() == 1111,
        newlines(HELP@.subrange(0, 250)) == 3,
{
    reveal_strlit("13\nAvailable commands are:\n                                1. STREAM 127.0.0.1:<port_number> <ticker-1>,<ticker-2>,...,<ticker-n> - Create a \n                                    broadcast to the provided address where you will recieve live financial data \n                                    updates every second, excluding the first one.\n                                2. GET <ticker> - Get latest financial information for the given ticker.\n                                3. GET_MANY <ticker-1>,<ticker-2>,...,<ticker-n> - Get the latest financial information for the given tickers.\n                                4. GET_TOTAL_VOLUME - sekf explanatory namimg.\n                                5. LIST - Dump all of the latest financial information.\n                                6. PING_TCP - TODO:\n                                7. OPEN_UDP_CONNECTIONS - Get the number of open UDP connections in this session.\n                                8. ALL_UDP_CONNECTIONS - Get the number of the total UDP connections in this session.\n                                9. EXIT\n                                \n");
    let s = "13\nAvailable commands are:\n                                1. STREAM 127.0.0.1:<port_number> <ticker-1>,<ticker-2>,...,<ticker-n> - Create a \n                                    broadcast to the provided address where you will recieve live financial data \n                                    updates every second, excluding the first one.\n                                2. GET <ticker> - Get latest financial information for the given ticker.\n                                3. GET_MANY <ticker-1>,<ticker-2>,...,<ticker-n> - Get the latest financial information for the given tickers.\n                                4. GET_TOTAL_VOLUME - sekf explanatory namimg.\n                                5. LIST - Dump all of the latest financial information.\n                                6. PING_TCP - TODO:\n                                7. OPEN_UDP_CONNECTIONS - Get the number of open UDP connections in this session.\n                                8. ALL_UDP_CONNECTIONS - Get the number of the total UDP connections in this session.\n                                9. EXIT\n                                \n"@;
    assert(s.len() == 1111);
    let part = s.subrange(0, 250);
    reveal_with_fuel(newlines, 27);
    assert(part.subrange(0, 0) =~= Seq::<char>::empty());
    assert(newlines(part.subrange(0, 25)) == 1);
    assert(part.subrange(0, 25) =~= part.subrange(0, 0) + part.subrange(0, 25));
    lemma_newlines_concat(part.subrange(0, 0), part.subrange(0, 25));
    assert(newlines(part.subrange(25, 50)) == 1);
    assert(part.subrange(0, 50) =~= part.subrange(0, 25) + part.subrange(25, 50));
    lemma_newlines_concat(part.subrange(0, 25), part.subrange(25, 50));
    assert(newlines(part.subrange(50, 75)) == 0);
    assert(part.subrange(0, 75) =~= part.subrange(0, 50) + part.subrange(50, 75));
    lemma_newlines_concat(part.subrange(0, 50), part.subrange(50, 75));
    assert(newlines(part.subrange(75, 100)) == 0);
    assert(part.subrange(0, 100) =~= part.subrange(0, 75) + part.subrange(75, 100));
    lemma_newlines_concat(part.subrange(0, 75), part.subrange(75, 100));
    assert(newlines(part.subrange(100, 125)) == 0);
    assert(part.subrange(0, 125) =~= part.subrange(0, 100) + part.subrange(100, 125));
    lemma_newlines_concat(part.subrange(0, 100), part.subrange(100, 125));
    assert(newlines(part.subrange(125, 150)) == 1);
    assert(part.subrange(0, 150) =~= part.subrange(0, 125) + part.subrange(125, 150));
    lemma_newlines_concat(part.subrange(0, 125), part.subrange(125, 150));
    assert(newlines(part.subrange(150, 175)) == 0);
    assert(part.subrange(0, 175) =~= part.subrange(0, 150) + part.subrange(150, 175));
    lemma_newlines_concat(part.subrange(0, 150), part.subrange(150, 175));
    assert(newlines(part.subrange(175, 200)) == 0);
    assert(part.subrange(0, 200) =~= part.subrange(0, 175) + part.subrange(175, 200));
    lemma_newlines_concat(part.subrange(0, 175), part.subrange(175, 200));
    assert(newlines(part.subrange(200, 225)) == 0);
    assert(part.subrange(0, 225) =~= part.subrange(0, 200) + part.subrange(200, 225));
    lemma_newlines_concat(part.subrange(0, 200), part.subrange(200, 225));
    assert(newlines(part.subrange(225, 250)) == 0);
    assert(part.subrange(0, 250) =~= part.subrange(0, 225) + part.subrange(225, 250));
    lemma_newlines_concat(part.subrange(0, 225), part.subrange(225, 250));
    assert(part.subrange(0, 250) =~= part);
    assert(HELP@ == s);
}

/// The line ends in one stretch of the `HELP` text.
#[verifier::rlimit(40)]
proof fn lemma_help_part_1()
    ensures
        HELP@.len() == 1111,
        newlines(HELP@.subrange(250, 500)) == 3,
{
    reveal_strlit("13\nAvailable commands are:\n                                1. STREAM 127.0.0.1:<port_number> <ticker-1>,<ticker-2>,...,<ticker-n> - Create a \n                                    broadcast to the provided address where you will recieve live financial data \n                                    updates every second, excluding the first one.\n                                2. GET <ticker> - Get latest financial information for the given ticker.\n                                3. GET_MANY <ticker-1>,<ticker-2>,...,<ticker-n> - Get the latest financial information for the given tickers.\n                                4. GET_TOTAL_VOLUME - sekf explanatory namimg.\n                                5. LIST - Dump all of the latest financial information.\n                                6. PING_TCP - TODO:\n                                7. OPEN_UDP_CONNECTIONS - Get the number of open UDP connections in this session.\n                                8. ALL_UDP_CONNECTIONS - Get the number of the total UDP connections in this session.\n                                9. EXIT\n                                \n");
    let s = "13\nAvailable commands are:\n                                1. STREAM 127.0.0.1:<port_number> <ticker-1>,<ticker-2>,...,<ticker-n> - Create a \n                                    broadcast to the provided address where you will recieve live financial data \n                                    updates every second, excluding the first one.\n                                2. GET <ticker> - Get latest financial information for the given ticker.\n                                3. GET_MANY <ticker-1>,<ticker-2>,...,<ticker-n> - Get the latest financial information for the given tickers.\n                                4. GET_TOTAL_VOLUME - sekf explanatory namimg.\n                                5. LIST - Dump all of the latest financial information.\n                                6. PING_TCP - TODO:\n                                7. OPEN_UDP_CONNECTIONS - Get the number of open UDP connections in this session.\n                                8. ALL_UDP_CONNECTIONS - Get the number of the total UDP connections in this session.\n                                9. EXIT\n                                \n"@;
    assert(s.len() == 1111);
    let part = s.subrange(250, 500);
    reveal_with_fuel(newlines, 27);
    assert(part.subrange(0, 0) =~= Seq::<char>::empty());
    assert(newlines(part.subrange(0, 25)) == 1);
    assert(part.subrange(0, 25) =~= part.subrange(0, 0) + part.subrange(0, 25));
    lemma_newlines_concat(part.subrange(0, 0), part.subrange(0, 25));
    assert(newlines(part.subrange(25, 50)) == 0);
    assert(part.subrange(0, 50) =~= part.subrange(0, 25) + part.subrange(25, 50));
    lemma_newlines_concat(part.subrange(0, 25), part.subrange(25, 50));
    assert(newlines(part.subrange(50, 75)) == 0);
    assert(part.subrange(0, 75) =~= part.subrange(0, 50) + part.subrange(50, 75));
    lemma_newlines_concat(part.subrange(0, 50), part.subrange(50, 75));
    assert(newlines(part.subrange(75, 100)) == 1);
    assert(part.subrange(0, 100) =~= part.subrange(0, 75) + part.subrange(75, 100));
    lemma_newlines_concat(part.subrange(0, 75), part.subrange(75, 100));
    assert(newlines(part.subrange(100, 125)) == 0);
    assert(part.subrange(0, 125) =~= part.subrange(0, 100) + part.subrange(100, 125));
    lemma_newlines_concat(part.subrange(0, 100), part.subrange(100, 125));
    assert(newlines(part.subrange(125, 150)) == 0);
    assert(part.subrange(0, 150) =~= part.subrange(0, 125) + part.subrange(125, 150));
    lemma_newlines_concat(part.subrange(0, 125), part.subrange(125, 150));
    assert(newlines(part.subrange(150, 175)) == 0);
    assert(part.subrange(0, 175) =~= part.subrange(0, 150) + part.subrange(150, 175));
    lemma_newlines_concat(part.subrange(0, 150), part.subrange(150, 175));
    assert(newlines(part.subrange(175, 200)) == 1);
    assert(part.subrange(0, 200) =~= part.subrange(0, 175) + part.subrange(175, 200));
    lemma_newlines_concat(part.subrange(0, 175), part.subrange(175, 200));
    assert(newlines(part.subrange(200, 225)) == 0);
    assert(part.subrange(0, 225) =~= part.subrange(0, 200) + part.subrange(200, 225));
    lemma_newlines_concat(part.subrange(0, 200), part.subrange(200, 225));
    assert(newlines(part.subrange(225, 250)) == 0);
    assert(part.subrange(0, 250) =~= part.subrange(0, 225) + part.subrange(225, 250));
    lemma_newlines_concat(part.subrange(0, 225), part.subrange(225, 250));
    assert(part.subrange(0, 250) =~= part);
    assert(HELP@ == s);
}

/// The line ends in one stretch of the `HELP` text.
#[verifier::rlimit(40)]
proof fn lemma_help_part_2()
    ensures
        HELP@.len() == 1111,
        newlines(HELP@.subrange(500, 750)) == 2,
{
    reveal_strlit("13\nAvailable commands are:\n                                1. STREAM 127.0.0.1:<port_number> <ticker-1>,<ticker-2>,...,<ticker-n> - Create a \n                                    broadcast to the provided address where you will recieve live financial data \n                                    updates every second, excluding the first one.\n                                2. GET <ticker> - Get latest financial information for the given ticker.\n                                3. GET_MANY <ticker-1>,<ticker-2>,...,<ticker-n> - Get the latest financial information for the given tickers.\n                                4. GET_TOTAL_VOLUME - sekf explanatory namimg.\n                                5. LIST - Dump all of the latest financial information.\n                                6. PING_TCP - TODO:\n                                7. OPEN_UDP_CONNECTIONS - Get the number of open UDP connections in this session.\n                                8. ALL_UDP_CONNECTIONS - Get the number of the total UDP connections in this session.\n                                9. EXIT\n                                \n");
    let s = "13\nAvailable commands are:\n                                1. STREAM 127.0.0.1:<port_number> <ticker-1>,<ticker-2>,...,<ticker-n> - Create a \n                                    broadcast to the provided address where you will recieve live financial data \n                                    updates every second, excluding the first one.\n                                2. GET <ticker> - Get latest financial information for the given ticker.\n                                3. GET_MANY <ticker-1>,<ticker-2>,...,<ticker-n> - Get the latest financial information for the given tickers.\n                                4. GET_TOTAL_VOLUME - sekf explanatory namimg.\n                                5. LIST - Dump all of the latest financial information.\n                                6. PING_TCP - TODO:\n                                7. OPEN_UDP_CONNECTIONS - Get the number of open UDP connections in this session.\n                                8. ALL_UDP_CONNECTIONS - Get the number of the total UDP connections in this session.\n                                9. EXIT\n                                \n"@;
    assert(s.len() == 1111);
    let part = s.subrange(500, 750);
    reveal_with_fuel(newlines, 27);
    assert(part.subrange(0, 0) =~= Seq::<char>::empty());
    assert(newlines(part.subrange(0, 25)) == 0);
    assert(part.subrange(0, 25) =~= part.subrange(0, 0) + part.subrange(0, 25));
    lemma_newlines_concat(part.subrange(0, 0), part.subrange(0, 25));
    assert(newlines(part.subrange(25, 50)) == 0);
    assert(part.subrange(0, 50) =~= part.subrange(0, 25) + part.subrange(25, 50));
    lemma_newlines_concat(part.subrange(0, 25), part.subrange(25, 50));
    assert(newlines(part.subrange(50, 75)) == 0);
    assert(part.subrange(0, 75) =~= part.subrange(0, 50) + part.subrange(50, 75));
    lemma_newlines_concat(part.subrange(0, 50), part.subrange(50, 75));
    assert(newlines(part.subrange(75, 100)) == 1);
    assert(part.subrange(0, 100) =~= part.subrange(0, 75) + part.subrange(75, 100));
    lemma_newlines_concat(part.subrange(0, 75), part.subrange(75, 100));
    assert(newlines(part.subrange(100, 125)) == 0);
    assert(part.subrange(0, 125) =~= part.subrange(0, 100) + part.subrange(100, 125));
    lemma_newlines_concat(part.subrange(0, 100), part.subrange(100, 125));
    assert(newlines(part.subrange(125, 150)) == 0);
    assert(part.subrange(0, 150) =~= part.subrange(0, 125) + part.subrange(125, 150));
    lemma_newlines_concat(part.subrange(0, 125), part.subrange(125, 150));
    assert(newlines(part.subrange(150, 175)) == 1);
    assert(part.subrange(0, 175) =~= part.subrange(0, 150) + part.subrange(150, 175));
    lemma_newlines_concat(part.subrange(0, 150), part.subrange(150, 175));
    assert(newlines(part.subrange(175, 200)) == 0);
    assert(part.subrange(0, 200) =~= part.subrange(0, 175) + part.subrange(175, 200));
    lemma_newlines_concat(part.subrange(0, 175), part.subrange(175, 200));
    assert(newlines(part.subrange(200, 225)) == 0);
    assert(part.subrange(0, 225) =~= part.subrange(0, 200) + part.subrange(200, 225));
    lemma_newlines_concat(part.subrange(0, 200), part.subrange(200, 225));
    assert(newlines(part.subrange(225, 250)) == 0);
    assert(part.subrange(0, 250) =~= part.subrange(0, 225) + part.subrange(225, 250));
    lemma_newlines_concat(part.subrange(0, 225), part.subrange(225, 250));
    assert(part.subrange(0, 250) =~= part);
    assert(HELP@ == s);
}

/// The line ends in one stretch of the `HELP` text.
#[verifier::rlimit(40)]
proof fn lemma_help_part_3()
    ensures
        HELP@.len() == 1111,
        newlines(HELP@.subrange(750, 1000)) == 3,
{
    reveal_strlit("13\nAvailable commands are:\n                                1. STREAM 127.0.0.1:<port_number> <ticker-1>,<ticker-2>,...,<ticker-n> - Create a \n                                    broadcast to the provided address where you will recieve live financial data \n                                    updates every second, excluding the first one.\n                                2. GET <ticker> - Get latest financial information for the given ticker.\n                                3. GET_MANY <ticker-1>,<ticker-2>,...,<ticker-n> - Get the latest financial information for the given tickers.\n                                4. GET_TOTAL_VOLUME - sekf explanatory namimg.\n                                5. LIST - Dump all of the latest financial information.\n                                6. PING_TCP - TODO:\n                                7. OPEN_UDP_CONNECTIONS - Get the number of open UDP connections in this session.\n                                8. ALL_UDP_CONNECTIONS - Get the number of the total UDP connections in this session.\n                                9. EXIT\n                                \n");
    let s = "13\nAvailable commands are:\n                                1. STREAM 127.0.0.1:<port_number> <ticker-1>,<ticker-2>,...,<ticker-n> - Create a \n                                    broadcast to the provided address where you will recieve live financial data \n                                    updates every second, excluding the first one.\n                                2. GET <ticker> - Get latest financial information for the given ticker.\n                                3. GET_MANY <ticker-1>,<ticker-2>,...,<ticker-n> - Get the latest financial information for the given tickers.\n                                4. GET_TOTAL_VOLUME - sekf explanatory namimg.\n                                5. LIST - Dump all of the latest financial information.\n                                6. PING_TCP - TODO:\n                                7. OPEN_UDP_CONNECTIONS - Get the number of open UDP connections in this session.\n                                8. ALL_UDP_CONNECTIONS - Get the number of the total UDP connections in this session.\n                                9. EXIT\n                                \n"@;
    assert(s.len() == 1111);
    let part = s.subrange(750, 1000);
    reveal_with_fuel(newlines, 27);
    assert(part.subrange(0, 0) =~= Seq::<char>::empty());
    assert(newlines(part.subrange(0, 25)) == 1);
    assert(part.subrange(0, 25) =~= part.subrange(0, 0) + part.subrange(0, 25));
    lemma_newlines_concat(part.subrange(0, 0), part.subrange(0, 25));
    assert(newlines(part.subrange(25, 50)) == 0);
    assert(part.subrange(0, 50) =~= part.subrange(0, 25) + part.subrange(25, 50));
    lemma_newlines_concat(part.subrange(0, 25), part.subrange(25, 50));
    assert(newlines(part.subrange(50, 75)) == 1);
    assert(part.subrange(0, 75) =~= part.subrange(0, 50) + part.subrange(50, 75));
    lemma_newlines_concat(part.subrange(0, 50), part.subrange(50, 75));
    assert(newlines(part.subrange(75, 100)) == 0);
    assert(part.subrange(0, 100) =~= part.subrange(0, 75) + part.subrange(75, 100));
    lemma_newlines_concat(part.subrange(0, 75), part.subrange(75, 100));
    assert(newlines(part.subrange(100, 125)) == 0);
    assert(part.subrange(0, 125) =~= part.subrange(0, 100) + part.subrange(100, 125));
    lemma_newlines_concat(part.subrange(0, 100), part.subrange(100, 125));
    assert(newlines(part.subrange(125, 150)) == 0);
    assert(part.subrange(0, 150) =~= part.subrange(0, 125) + part.subrange(125, 150));
    lemma_newlines_concat(part.subrange(0, 125), part.subrange(125, 150));
    assert(newlines(part.subrange(150, 175)) == 1);
    assert(part.subrange(0, 175) =~= part.subrange(0, 150) + part.subrange(150, 175));
    lemma_newlines_concat(part.subrange(0, 150), part.subrange(150, 175));
    assert(newlines(part.subrange(175, 200)) == 0);
    assert(part.subrange(0, 200) =~= part.subrange(0, 175) + part.subrange(175, 200));
    lemma_newlines_concat(part.subrange(0, 175), part.subrange(175, 200));
    assert(newlines(part.subrange(200, 225)) == 0);
    assert(part.subrange(0, 225) =~= part.subrange(0, 200) + part.subrange(200, 225));
    lemma_newlines_concat(part.subrange(0, 200), part.subrange(200, 225));
    assert(newlines(part.subrange(225, 250)) == 0);
    assert(part.subrange(0, 250) =~= part.subrange(0, 225) + part.subrange(225, 250));
    lemma_newlines_concat(part.subrange(0, 225), part.subrange(225, 250));
    assert(part.subrange(0, 250) =~= part);
    assert(HELP@ == s);
}

/// The line ends in one stretch of the `HELP` text.
#[verifier::rlimit(40)]
proof fn lemma_help_part_4()
    ensures
        HELP@.len() == 1111,
        newlines(HELP@.subrange(1000, 1111)) == 3,
{
    reveal_strlit("13\nAvailable commands are:\n                                1. STREAM 127.0.0.1:<port_number> <ticker-1>,<ticker-2>,...,<ticker-n> - Create a \n                                    broadcast to the provided address where you will recieve live financial data \n                                    updates every second, excluding the first one.\n                                2. GET <ticker> - Get latest financial information for the given ticker.\n                                3. GET_MANY <ticker-1>,<ticker-2>,...,<ticker-n> - Get the latest financial information for the given tickers.\n                                4. GET_TOTAL_VOLUME - sekf explanatory namimg.\n                                5. LIST - Dump all of the latest financial information.\n                                6. PING_TCP - TODO:\n                                7. OPEN_UDP_CONNECTIONS - Get the number of open UDP connections in this session.\n                                8. ALL_UDP_CONNECTIONS - Get the number of the total UDP connections in this session.\n                                9. EXIT\n                                \n");
    let s = "13\nAvailable commands are:\n                                1. STREAM 127.0.0.1:<port_number> <ticker-1>,<ticker-2>,...,<ticker-n> - Create a \n                                    broadcast to the provided address where you will recieve live financial data \n                                    updates every second, excluding the first one.\n                                2. GET <ticker> - Get latest financial information for the given ticker.\n                                3. GET_MANY <ticker-1>,<ticker-2>,...,<ticker-n> - Get the latest financial information for the given tickers.\n                                4. GET_TOTAL_VOLUME - sekf explanatory namimg.\n                                5. LIST - Dump all of the latest financial information.\n                                6. PING_TCP - TODO:\n                                7. OPEN_UDP_CONNECTIONS - Get the number of open UDP connections in this session.\n                                8. ALL_UDP_CONNECTIONS - Get the number of the total UDP connections in this session.\n                                9. EXIT\n                                \n"@;
    assert(s.len() == 1111);
    let part = s.subrange(1000, 1111);
    reveal_with_fuel(newlines, 27);
    assert(part.subrange(0, 0) =~= Seq::<char>::empty());
    assert(newlines(part.subrange(0, 25)) == 0);
    assert(part.subrange(0, 25) =~= part.subrange(0, 0) + part.subrange(0, 25));
    lemma_newlines_concat(part.subrange(0, 0), part.subrange(0, 25));
    assert(newlines(part.subrange(25, 50)) == 1);
    assert(part.subrange(0, 50) =~= part.subrange(0, 25) + part.subrange(25, 50));
    lemma_newlines_concat(part.subrange(0, 25), part.subrange(25, 50));
    assert(newlines(part.subrange(50, 75)) == 0);
    assert(part.subrange(0, 75) =~= part.subrange(0, 50) + part.subrange(50, 75));
    lemma_newlines_concat(part.subrange(0, 50), part.subrange(50, 75));
    assert(newlines(part.subrange(75, 100)) == 1);
    assert(part.subrange(0, 100) =~= part.subrange(0, 75) + part.subrange(75, 100));
    lemma_newlines_concat(part.subrange(0, 75), part.subrange(75, 100));
    assert(newlines(part.subrange(100, 111)) == 1);
    assert(part.subrange(0, 111) =~= part.subrange(0, 100) + part.subrange(100, 111));
    lemma_newlines_concat(part.subrange(0, 100), part.subrange(100, 111));
    assert(part.subrange(0, 111) =~= part);
    assert(HELP@ == s);
}

/// The first three and the last character of the `HELP` text.
proof fn lemma_help_char(i: int)
    requires
        i == 0 || i == 1 || i == 2 || i == 1110,
    ensures
        HELP@.len() == 1111,
        i == 0 ==> HELP@[i] == '1',
        i == 1 ==> HELP@[i] == '3',
        i == 2 ==> HELP@[i] == '\n',
        i == 1110 ==> HELP@[i] == '\n',
{
    reveal_strlit("13\nAvailable commands are:\n                                1. STREAM 127.0.0.1:<port_number> <ticker-1>,<ticker-2>,...,<ticker-n> - Create a \n                                    broadcast to the provided address where you will recieve live financial data \n                                    updates every second, excluding the first one.\n                                2. GET <ticker> - Get latest financial information for the given ticker.\n                                3. GET_MANY <ticker-1>,<ticker-2>,...,<ticker-n> - Get the latest financial information for the given tickers.\n                                4. GET_TOTAL_VOLUME - sekf explanatory namimg.\n                                5. LIST - Dump all of the latest financial information.\n                                6. PING_TCP - TODO:\n                                7. OPEN_UDP_CONNECTIONS - Get the number of open UDP connections in this session.\n                                8. ALL_UDP_CONNECTIONS - Get the number of the total UDP connections in this session.\n                                9. EXIT\n                                \n");
    assert(HELP@ == "13\nAvailable commands are:\n                                1. STREAM 127.0.0.1:<port_number> <ticker-1>,<ticker-2>,...,<ticker-n> - Create a \n                                    broadcast to the provided address where you will recieve live financial data \n                                    updates every second, excluding the first one.\n                                2. GET <ticker> - Get latest financial information for the given ticker.\n                                3. GET_MANY <ticker-1>,<ticker-2>,...,<ticker-n> - Get the latest financial information for the given tickers.\n                                4. GET_TOTAL_VOLUME - sekf explanatory namimg.\n                                5. LIST - Dump all of the latest financial information.\n                                6. PING_TCP - TODO:\n                                7. OPEN_UDP_CONNECTIONS - Get the number of open UDP connections in this session.\n                                8. ALL_UDP_CONNECTIONS - Get the number of the total UDP connections in this session.\n                                9. EXIT\n                                \n"@);
}

/// The `HELP` text: a line giving 13, then 13 whole lines.
#[verifier::rlimit(40)]
proof fn lemma_counted_help()
    ensures
        is_counted(HELP@),
{
    lemma_help_part_0();
    lemma_help_part_1();
    lemma_help_part_2();
    lemma_help_part_3();
    lemma_help_part_4();
    let s = HELP@;
    assert(s.subrange(0, 0) =~= Seq::<char>::empty());
    assert(s.subrange(0, 250) =~= s.subrange(0, 0) + s.subrange(0, 250));
    lemma_newlines_concat(s.subrange(0, 0), s.subrange(0, 250));
    assert(s.subrange(0, 500) =~= s.subrange(0, 250) + s.subrange(250, 500));
    lemma_newlines_concat(s.subrange(0, 250), s.subrange(250, 500));
    assert(s.subrange(0, 750) =~= s.subrange(0, 500) + s.subrange(500, 750));
    lemma_newlines_concat(s.subrange(0, 500), s.subrange(500, 750));
    assert(s.subrange(0, 1000) =~= s.subrange(0, 750) + s.subrange(750, 1000));
    lemma_newlines_concat(s.subrange(0, 750), s.subrange(750, 1000));
    assert(s.subrange(0, 1111) =~= s.subrange(0, 1000) + s.subrange(1000, 1111));
    lemma_newlines_concat(s.subrange(0, 1000), s.subrange(1000, 1111));
    assert(s.subrange(0, 1111) =~= s);
    assert(newlines(s) == 14);
    let head = s.subrange(0, 3);
    let body = s.subrange(3, 1111);
    assert(s[0] == '1') by {
        lemma_help_char(0);
    }
    assert(s[1] == '3') by {
        lemma_help_char(1);
    }
    assert(s[2] == '\n') by {
        lemma_help_char(2);
    }
    assert(s[1110] == '\n') by {
        lemma_help_char(1110);
    }
    assert(head =~= seq!['1', '3', '\n']);
    reveal_with_fuel(newlines, 5);
    assert(newlines(head) == 1);
    assert(s =~= head + body);
    lemma_newlines_concat(head, body);
    assert(newlines(body) == 13);
    assert(decimal(13) =~= decimal(1).push(digit_char(3)));
    assert(decimal(1) =~= seq![digit_char(1)]);
    assert(digit_char(1) == '1');
    assert(digit_char(3) == '3');
    assert(head =~= decimal(13).push('\n'));
    assert(counted_as(s, 13, body));
}

/// The item an unknown-ticker answer names comes from the list's pieces.
pub proof fn lemma_subscription_err_free(m: Seq<QuoteView>, pieces: Seq<Seq<char>>)
    requires
        forall|k: int| 0 <= k < pieces.len() ==> free_of(#[trigger] pieces[k], '\n'),
    ensures
        subscription(m, pieces) matches Err(t) ==> free_of(t, '\n'),
    decreases pieces.len(),
{
    if pieces.len() > 0 {
        let prev = pieces.drop_last();
        assert forall|k: int| 0 <= k < prev.len() implies free_of(#[trigger] prev[k], '\n') by {
            assert(prev[k] == pieces[k]);
        }
        lemma_subscription_err_free(m, prev);
        assert(free_of(pieces[pieces.len() - 1], '\n'));
        lemma_trim_keeps_free(pieces.last(), '\n');
    }
}

/// The line ends in the fixed part of the answer once a stream is started.
#[verifier::rlimit(40)]
proof fn lemma_stream_reply_parts()
    ensures
        "2\nSubscribed to stream on port:\n"@.len() == 32,
        "2\nSubscribed to stream on port:\n"@[0] == '2',
        "2\nSubscribed to stream on port:\n"@[1] == '\n',
        newlines("2\nSubscribed to stream on port:\n"@.skip(2)) == 1,
{
    reveal_strlit("2\nSubscribed to stream on port:\n");
    let a = "2\nSubscribed to stream on port:\n"@;
    assert(a.len() == 32);
    let head = a.skip(2);
    reveal_with_fuel(newlines, 27);
    assert(head.subrange(0, 0) =~= Seq::<char>::empty());
    assert(newlines(head.subrange(0, 25)) == 0);
    assert(head.subrange(0, 25) =~= head.subrange(0, 0) + head.subrange(0, 25));
    lemma_newlines_concat(head.subrange(0, 0), head.subrange(0, 25));
    assert(newlines(head.subrange(25, 30)) == 1);
    assert(head.subrange(0, 30) =~= head.subrange(0, 25) + head.subrange(25, 30));
    lemma_newlines_concat(head.subrange(0, 25), head.subrange(25, 30));
    assert(head.subrange(0, 30) =~= head);
}

/// The answer once a stream is started is counted too: `2`, then two whole lines.
pub proof fn law_stream_reply_counted(port: u16)
    ensures
        is_counted(stream_reply_text(port)),
{
    lemma_stream_reply_parts();
    let a = "2\nSubscribed to stream on port:\n"@;
    let head = a.skip(2);
    let d = decimal(port as nat);
    lemma_decimal_single_line(port as nat);
    lemma_one_line(d);
    lemma_newlines_concat(head, d.push('\n'));
    let body = head + d.push('\n');
    assert(body.last() == '\n');
    assert(decimal(2) =~= seq![digit_char(2)]);
    assert(digit_char(2) == '2');
    assert(stream_reply_text(port) =~= decimal(2).push('\n') + body);
    assert(counted_as(stream_reply_text(port), 2, body));
}

/// Every reply the user reads starts with a line giving the number of lines
/// that follow, each of them whole. (`PING_TCP` is answered, after a pause,
/// with `PONG`, which the user does not read, and has no such line.)
pub proof fn law_replies_are_counted(m: MarketView, stopped: Seq<bool>, line: Seq<char>)
    requires
        single_line_quotes(m.stocks),
    ensures
        line_action(m, stopped, line) matches ActionView::Reply(r) ==> is_counted(r),
{
    lemma_counted_stream_usage();
    lemma_counted_get_usage();
    lemma_counted_ticker_not_found();
    lemma_counted_get_many_usage();
    lemma_counted_list_usage();
    lemma_counted_help();
    lemma_counted_unknown_command();
    let input = trim(line);
    let ws = words(input);
    lemma_words_spaceless(input);
    let cmd = if ws.len() > 0 {
        ws[0]
    } else {
        seq![]
    };
    if input.len() == 0 {
    } else if cmd == "STREAM"@ {
        if ws.len() >= 3 {
            match subscription(m.stocks, split_on(ws[2], ',')) {
                Ok(ts) => {},
                Err(t) => {
                    let list = ws[2];
                    assert(spaceless(ws[2]));
                    assert(free_of(list, '\n')) by {
                        assert forall|i: int| 0 <= i < list.len() implies list[i] != '\n' by {
                            assert(!crate::text::is_space(list[i]));
                        }
                    }
                    lemma_split_on_keeps_free(list, ',', '\n');
                    lemma_subscription_err_free(m.stocks, split_on(list, ','));
                    lemma_counted_stream_error(t);
                },
            }
        }
    } else if cmd == "GET"@ {
        if ws.len() >= 2 {
            let t = trim(ws[1]);
            match lookup(m.stocks, t) {
                Some(q) => {
                    lemma_lookup_single_line(m.stocks, t);
                    lemma_quote_line_single(q);
                    lemma_counted_one(get_reply(m.stocks, t), quote_line(q));
                },
                None => {},
            }
        }
    } else if cmd == "GET_MANY"@ {
        if ws.len() >= 2 {
            let list = ws[1];
            assert(spaceless(ws[1]));
            assert(free_of(list, '\n')) by {
                assert forall|i: int| 0 <= i < list.len() implies list[i] != '\n' by {
                    assert(!crate::text::is_space(list[i]));
                }
            }
            lemma_split_on_keeps_free(list, ',', '\n');
            lemma_nonempty_trimmed_free(split_on(list, ','));
            let ts = requested_tickers(list);
            lemma_entries_lines(m.stocks, ts);
            assert(counted_as(get_many_reply(m.stocks, list), ts.len(), get_many_entries(m.stocks, ts)));
        }
    } else if cmd == "GET_TOTAL_VOLUME"@ {
        lemma_decimal_single_line(m.total_volume as nat);
        lemma_counted_one(
            seq!['1', '\n'] + decimal(m.total_volume as nat).push('\n'),
            decimal(m.total_volume as nat),
        );
    } else if cmd == "LIST"@ {
        if ws.len() < 2 {
            lemma_listing_lines(m.stocks);
            assert(counted_as(
                decimal(m.stocks.len()).push('\n') + listing(m.stocks),
                m.stocks.len(),
                listing(m.stocks),
            ));
        }
    } else if cmd == "PING_TCP"@ {
    } else if cmd == "OPEN_UDP_CONNECTIONS"@ {
        lemma_decimal_single_line(count_open(stopped));
        lemma_counted_one(
            seq!['1', '\n'] + decimal(count_open(stopped)).push('\n'),
            decimal(count_open(stopped)),
        );
    } else if cmd == "ALL_UDP_CONNECTIONS"@ {
        lemma_decimal_single_line(stopped.len());
        lemma_counted_one(
            seq!['1', '\n'] + decimal(stopped.len()).push('\n'),
            decimal(stopped.len()),
        );
    }
}

/// The `LIST` body is the record line of each quote, once and in order: a quote
/// added at the end adds its line at the end, and no quotes give no lines.
pub proof fn law_listing_push(m: Seq<QuoteView>, q: QuoteView)
    ensures
        listing(m.push(q)) == listing(m) + quote_line(q).push('\n'),
        listing(Seq::<QuoteView>::empty()) == Seq::<char>::empty(),
{
    assert(m.push(q).drop_last() =~= m);
}

/// The `LIST` body of two lists of quotes is the one's lines, then the other's.
pub proof fn law_listing_concat(a: Seq<QuoteView>, b: Seq<QuoteView>)
    ensures
        listing(a + b) == listing(a) + listing(b),
    decreases b.len(),
{
    if b.len() == 0 {
        assert(a + b =~= a);
        assert(listing(a) + listing(b) =~= listing(a));
    } else {
        assert((a + b).drop_last() =~= a + b.drop_last());
        law_listing_concat(a, b.drop_last());
        assert(listing(a + b) =~= listing(a) + listing(b));
    }
}

/// Keeping the non-empty trimmed pieces of two lists keeps those of each.
pub proof fn lemma_nonempty_trimmed_concat(x: Seq<Seq<char>>, y: Seq<Seq<char>>)
    ensures
        nonempty_trimmed(x + y) == nonempty_trimmed(x) + nonempty_trimmed(y),
    decreases y.len(),
{
    if y.len() == 0 {
        assert(x + y =~= x);
        assert(nonempty_trimmed(x) + nonempty_trimmed(y) =~= nonempty_trimmed(x));
    } else {
        assert((x + y).drop_last() =~= x + y.drop_last());
        lemma_nonempty_trimmed_concat(x, y.drop_last());
        assert(nonempty_trimmed(x + y) =~= nonempty_trimmed(x) + nonempty_trimmed(y));
    }
}

/// `GET_MANY` answers every comma-separated item: the tickers of a list are
/// those before a comma, then those after it.
pub proof fn law_requested_split(a: Seq<char>, b: Seq<char>)
    ensures
        requested_tickers(a + seq![','] + b) == requested_tickers(a) + requested_tickers(b),
{
    crate::text::lemma_split_on_join(a, ',', b);
    lemma_nonempty_trimmed_concat(split_on(a, ','), split_on(b, ','));
}

/// A single item names its trimmed text, or nothing when that is empty.
pub proof fn law_requested_single(t: Seq<char>)
    requires
        free_of(t, ','),
    ensures
        requested_tickers(t) == (if trim(t).len() > 0 {
            seq![trim(t)]
        } else {
            Seq::<Seq<char>>::empty()
        }),
{
    lemma_split_on_free(t, ',');
    assert(seq![t].drop_last() =~= Seq::<Seq<char>>::empty());
    assert(seq![t].last() == t);
    assert(nonempty_trimmed(Seq::<Seq<char>>::empty()) =~= Seq::<Seq<char>>::empty());
    if trim(t).len() > 0 {
        assert(Seq::<Seq<char>>::empty().push(trim(t)) =~= seq![trim(t)]);
    }
}

/// An accepted `STREAM` list subscribes every one of its trimmed items, each
/// once, and nothing else.
pub proof fn law_subscription_complete(m: Seq<QuoteView>, pieces: Seq<Seq<char>>)
    ensures
        subscription(m, pieces) matches Ok(ts) ==> {
            &&& forall|i: int| 0 <= i < pieces.len() ==> ts.contains(trim(#[trigger] pieces[i]))
            &&& forall|j: int, k: int| 0 <= j < k < ts.len() ==> ts[j] != ts[k]
            &&& forall|j: int|
                0 <= j < ts.len() ==> exists|i: int|
                    0 <= i < pieces.len() && #[trigger] ts[j] == trim(pieces[i])
        },
    decreases pieces.len(),
{
    if pieces.len() > 0 {
        let prev = pieces.drop_last();
        law_subscription_complete(m, prev);
        match subscription(m, prev) {
            Err(_) => {},
            Ok(ps) => {
                let t = trim(pieces.last());
                if lookup(m, t) is Some {
                    let ts = if ps.contains(t) {
                        ps
                    } else {
                        ps.push(t)
                    };
                    assert forall|i: int| 0 <= i < pieces.len() implies ts.contains(
                        trim(#[trigger] pieces[i]),
                    ) by {
                        if i < prev.len() {
                            assert(prev[i] == pieces[i]);
                            assert(ps.contains(trim(prev[i])));
                            let w = choose|w: int| 0 <= w < ps.len() && ps[w] == trim(prev[i]);
                            assert(ts[w] == ps[w]);
                        } else if !ps.contains(t) {
                            assert(ts[ps.len() as int] == t);
                        }
                    }
                    assert forall|j: int, k: int| 0 <= j < k < ts.len() implies ts[j] != ts[k] by {
                        if !ps.contains(t) && k == ps.len() {
                            assert(ts[j] == ps[j]);
                        }
                    }
                    assert forall|j: int| 0 <= j < ts.len() implies exists|i: int|
                        0 <= i < pieces.len() && #[trigger] ts[j] == trim(pieces[i]) by {
                        if j < ps.len() {
                            let i = choose|i: int|
                                0 <= i < prev.len() && #[trigger] ps[j] == trim(prev[i]);
                            assert(prev[i] == pieces[i]);
                            assert(ts[j] == trim(pieces[i]));
                        } else {
                            assert(ts[j] == trim(pieces[pieces.len() - 1]));
                        }
                    }
                }
            },
        }
    }
}

} // verus!
