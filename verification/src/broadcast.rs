//! The decisions of a UDP quote stream: which quotes go out, when they go out,
//! and when a client that stopped pinging is dropped.
use vstd::prelude::*;
use vstd::utf8::{decode_utf8, valid_utf8};
use crate::market::{lookup, StockMarket};
use crate::quote::{QuoteView, StockQuote};
use crate::text::{chars_of, chars_equal, trim, trim_chars};
use crate::market::quotes_view;

verus! {

/// The pause between two rounds of the stream loop, in milliseconds.
pub const POLL_INTERVAL_MS: u64 = 250;

/// How long a stream waits for a ping before it stops, in nanoseconds (5 s).
pub const PING_GRACE_NS: u64 = 5_000_000_000;

/// The datagram a client sends to keep its stream alive (surrounding whitespace allowed).
pub const PING_MESSAGE: &'static str = "PING_UDP";

/// The text `String::from_utf8_lossy` makes of the bytes.
pub uninterp spec fn utf8_lossy(bytes: Seq<u8>) -> Seq<char>;

/// `String::from_utf8_lossy`, made an owned string. Its documentation gives that
/// valid UTF-8 is decoded unchanged; for invalid input only the name is stated
/// (each invalid sequence becomes U+FFFD).
#[verifier::external_body]
fn lossy_text(bytes: &[u8]) -> (r: String)
    ensures
        r@ == utf8_lossy(bytes@),
        valid_utf8(bytes@) ==> r@ == decode_utf8(bytes@),
{
    String::from_utf8_lossy(bytes).into_owned()
}

/// Whether a datagram is a ping: its text, trimmed, is `PING_UDP`.
pub open spec fn is_ping_datagram(bytes: Seq<u8>) -> bool {
    trim(utf8_lossy(bytes)) == PING_MESSAGE@
}

/// Whether a datagram is a ping.
pub fn is_ping(bytes: &[u8]) -> (r: bool)
    ensures
        r == is_ping_datagram(bytes@),
{
    let text = lossy_text(bytes);
    let chars = chars_of(text.as_str());
    let trimmed = trim_chars(&chars);
    chars_equal(&trimmed, PING_MESSAGE)
}

/// The quotes for the tickers, in the tickers' order; tickers the market does not list are passed over.
pub open spec fn selection(m: Seq<QuoteView>, tickers: Seq<Seq<char>>) -> Seq<QuoteView>
    decreases tickers.len(),
{
    if tickers.len() == 0 {
        seq![]
    } else {
        let prev = selection(m, tickers.drop_last());
        match lookup(m, tickers.last()) {
            Some(q) => prev.push(q),
            None => prev,
        }
    }
}

/// The quotes a stream sends for its tickers.
pub fn select_quotes(market: &StockMarket, tickers: &Vec<String>) -> (r: Vec<StockQuote>)
    ensures
        quotes_view(r@) == selection(market@.stocks, tickers.deep_view()),
{
    let ghost tv = tickers.deep_view();
    let ghost m = market@.stocks;
    let mut r: Vec<StockQuote> = Vec::new();
    let mut i: usize = 0;
    assert(tv.take(0) =~= seq![]);
    assert(quotes_view(r@) =~= seq![]);
    while i < tickers.len()
        invariant
            i <= tickers.len(),
            tv == tickers.deep_view(),
            m == market@.stocks,
            quotes_view(r@) == selection(m, tv.take(i as int)),
        decreases tickers.len() - i,
    {
        assert(tv.take(i + 1).drop_last() =~= tv.take(i as int));
        assert(tv.take(i + 1).last() == tickers@[i as int]@);
        let ghost before = quotes_view(r@);
        match market.get(&tickers[i]) {
            Some(q) => {
                r.push(q.copy());
                assert(quotes_view(r@) =~= before.push(q@));
            },
            None => {},
        }
        i += 1;
    }
    assert(tv.take(tickers.len() as int) =~= tv);
    r
}

/// What one round of the stream loop received on its socket.
pub enum Received {
    /// A datagram with these bytes.
    Datagram(Vec<u8>),
    /// Nothing was waiting.
    Nothing,
    /// Receiving failed.
    Failed,
}

/// What the stream loop does after a round.
#[derive(PartialEq, Eq, Structural, Clone, Copy, Debug)]
pub enum Tick {
    /// Leave the loop: the stream was asked to stop.
    Finish,
    /// Mark the stream stopped, then leave the loop: receiving failed, or no
    /// ping came in time.
    Expire,
    /// Send the quotes, record the time of sending, then pause.
    Send,
    /// Pause.
    Wait,
}

/// The stream's clock readings, in nanoseconds from a fixed origin, and its send interval.
pub struct BroadcastView {
    pub last_read: u64,
    pub last_send: u64,
    pub interval_ms: u64,
}

/// The schedule of a UDP stream.
pub struct Broadcast {
    last_read: u64,
    last_send: u64,
    interval_ms: u64,
}

impl View for Broadcast {
    type V = BroadcastView;

    closed spec fn view(&self) -> BroadcastView {
        BroadcastView {
            last_read: self.last_read,
            last_send: self.last_send,
            interval_ms: self.interval_ms,
        }
    }
}

/// The time from `since` to `now`, zero if `now` is earlier (`Instant::elapsed`).
pub open spec fn elapsed(now: u64, since: u64) -> nat {
    if now >= since {
        (now - since) as nat
    } else {
        0
    }
}

/// When the last ping was read after a round that received `received` at `now`.
pub open spec fn read_after(b: BroadcastView, received: Seq<u8>, got: bool, now: u64) -> u64 {
    if got && is_ping_datagram(received) {
        now
    } else {
        b.last_read
    }
}

/// The decision of a round at `now`: leave when asked to stop; otherwise stop
/// the stream when receiving failed or once no ping has come for
/// [`PING_GRACE_NS`]; otherwise send once more than the interval has passed
/// since the last sending, else wait.
pub open spec fn tick_result(
    b: BroadcastView,
    stop: bool,
    failed: bool,
    received: Seq<u8>,
    got: bool,
    now: u64,
) -> Tick {
    if stop {
        Tick::Finish
    } else if failed {
        Tick::Expire
    } else if elapsed(now, read_after(b, received, got, now)) >= PING_GRACE_NS {
        Tick::Expire
    } else if elapsed(now, b.last_send) > b.interval_ms * 1_000_000 {
        Tick::Send
    } else {
        Tick::Wait
    }
}

impl Broadcast {
    /// A stream started at `now`, sending every `interval_ms` milliseconds; the
    /// first sending comes one interval after the start.
    pub fn new(now: u64, interval_ms: u64) -> (r: Broadcast)
        ensures
            r@ == (BroadcastView { last_read: now, last_send: now, interval_ms }),
    {
        Broadcast { last_read: now, last_send: now, interval_ms }
    }

    /// One round of the stream loop at `now`: whether a stop was requested, and
    /// what was received. A ping read in the round counts as read at `now`.
    pub fn tick(&mut self, stop: bool, received: &Received, now: u64) -> (r: Tick)
        ensures
            r == tick_result(
                old(self)@,
                stop,
                received is Failed,
                match received {
                    Received::Datagram(b) => b@,
                    _ => Seq::empty(),
                },
                received is Datagram,
                now,
            ),
            final(self)@ == (if stop || received is Failed {
                old(self)@
            } else {
                BroadcastView {
                    last_read: read_after(
                        old(self)@,
                        match received {
                            Received::Datagram(b) => b@,
                            _ => Seq::empty(),
                        },
                        received is Datagram,
                        now,
                    ),
                    ..old(self)@
                }
            }),
    {
        if stop {
            return Tick::Finish;
        }
        match received {
            Received::Datagram(bytes) => {
                if is_ping(bytes.as_slice()) {
                    self.last_read = now;
                }
            },
            Received::Nothing => {},
            Received::Failed => {
                return Tick::Expire;
            },
        }
        let since_read: u64 = if now >= self.last_read {
            now - self.last_read
        } else {
            0
        };
        if since_read >= PING_GRACE_NS {
            return Tick::Expire;
        }
        let since_send: u128 = if now >= self.last_send {
            (now - self.last_send) as u128
        } else {
            0
        };
        if since_send > (self.interval_ms as u128) * 1_000_000 {
            Tick::Send
        } else {
            Tick::Wait
        }
    }

    /// Records that the quotes were sent at `now`.
    pub fn record_send(&mut self, now: u64)
        ensures
            final(self)@ == (BroadcastView { last_send: now, ..old(self)@ }),
    {
        self.last_send = now;
    }
}

/// A round whose receiving failed stops the stream, unless it was already asked to stop.
pub proof fn law_failed_receive_stops(b: BroadcastView, bytes: Seq<u8>, got: bool, now: u64)
    ensures
        tick_result(b, false, true, bytes, got, now) == Tick::Expire,
        tick_result(b, true, true, bytes, got, now) == Tick::Finish,
{
}

/// A round that reads a ping never expires the stream.
pub proof fn law_ping_keeps_alive(b: BroadcastView, bytes: Seq<u8>, now: u64)
    requires
        is_ping_datagram(bytes),
    ensures
        tick_result(b, false, false, bytes, true, now) != Tick::Expire,
{
}

/// A round without a ping, five seconds or more after the last one, expires the stream.
pub proof fn law_silence_expires(b: BroadcastView, bytes: Seq<u8>, got: bool, now: u64)
    requires
        !(got && is_ping_datagram(bytes)),
        elapsed(now, b.last_read) >= PING_GRACE_NS,
    ensures
        tick_result(b, false, false, bytes, got, now) == Tick::Expire,
{
}

/// Quotes go out only once more than the interval has passed since the last sending.
pub proof fn law_sends_are_spaced(
    b: BroadcastView,
    stop: bool,
    failed: bool,
    bytes: Seq<u8>,
    got: bool,
    now: u64,
)
    requires
        tick_result(b, stop, failed, bytes, got, now) == Tick::Send,
    ensures
        now - b.last_send > b.interval_ms * 1_000_000,
{
}

/// Every quote a stream sends is the market's quote for one of its tickers.
pub proof fn law_selection_is_listed(m: Seq<QuoteView>, tickers: Seq<Seq<char>>)
    ensures
        selection(m, tickers).len() <= tickers.len(),
        forall|k: int|
            0 <= k < selection(m, tickers).len() ==> exists|j: int|
                0 <= j < tickers.len() && lookup(m, tickers[j]) == Some(
                    #[trigger] selection(m, tickers)[k],
                ),
    decreases tickers.len(),
{
    if tickers.len() > 0 {
        let prev = tickers.drop_last();
        law_selection_is_listed(m, prev);
        let s = selection(m, tickers);
        assert forall|k: int| 0 <= k < s.len() implies exists|j: int|
            0 <= j < tickers.len() && lookup(m, tickers[j]) == Some(#[trigger] s[k]) by {
            if k < selection(m, prev).len() {
                assert(s[k] == selection(m, prev)[k]);
                let j = choose|j: int|
                    0 <= j < prev.len() && lookup(m, prev[j]) == Some(selection(m, prev)[k]);
                assert(tickers[j] == prev[j]);
            } else {
                assert(lookup(m, tickers[tickers.len() - 1]) == Some(s[k]));
            }
        }
    }
}

/// Sending is live: a round that is not asked to stop, whose receiving did not
/// fail and that does not expire, sends once more than the interval has passed
/// since the last sending, and waits otherwise.
pub proof fn law_sends_are_live(b: BroadcastView, bytes: Seq<u8>, got: bool, now: u64)
    requires
        elapsed(now, read_after(b, bytes, got, now)) < PING_GRACE_NS,
    ensures
        elapsed(now, b.last_send) > b.interval_ms * 1_000_000 ==> tick_result(
            b,
            false,
            false,
            bytes,
            got,
            now,
        ) == Tick::Send,
        elapsed(now, b.last_send) <= b.interval_ms * 1_000_000 ==> tick_result(
            b,
            false,
            false,
            bytes,
            got,
            now,
        ) == Tick::Wait,
{
}

/// A stream goes on sending every interval without any ping until the grace
/// period runs out: from its start at `t0`, a round at any later time within
/// the grace period and more than one interval after the last sending sends.
pub proof fn law_sends_without_pings(t0: u64, interval_ms: u64, last_send: u64, now: u64)
    requires
        t0 <= last_send <= now,
        now - t0 < PING_GRACE_NS,
        now - last_send > interval_ms * 1_000_000,
    ensures
        tick_result(
            BroadcastView { last_read: t0, last_send, interval_ms },
            false,
            false,
            Seq::empty(),
            false,
            now,
        ) == Tick::Send,
{
}

} // verus!
