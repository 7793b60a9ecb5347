//! A stock quote and its text record `TICKER|PRICE|VOLUME|TIMESTAMP`.
//!
//! The price is a floating-point number; it is carried here as the text it is
//! written as (for a quote made from a number, the number's `Display` form).
use vstd::prelude::*;
use vstd::utf8::{decode_utf8, encode_utf8, valid_utf8};
use crate::decimal::{
    append_decimal, decimal, float_literal, is_float_literal, law_decimal_round_trip, lemma_decimal,
    lemma_float_literal_chars, parse_u32, parse_u64, parse_unsigned,
};
use crate::text::{
    append_string, chars_of, free_of, lemma_deep_view_at, lemma_split_on_free, lemma_split_on_holding,
    lemma_split_on_join, push_char, split_chars, split_on, string_from_chars,
};

verus! {

broadcast use {vstd::utf8::encode_utf8_valid_utf8, vstd::utf8::encode_utf8_decode_utf8};

/// A quote for one ticker.
pub struct StockQuote {
    pub ticker: String,
    /// The price, as written in decimal (`f64` display form).
    pub price: String,
    pub volume: u32,
    /// Seconds since the Unix epoch.
    pub timestamp: u64,
}

/// The mathematical value of a quote.
pub struct QuoteView {
    pub ticker: Seq<char>,
    pub price: Seq<char>,
    pub volume: u32,
    pub timestamp: u64,
}

impl View for StockQuote {
    type V = QuoteView;

    open spec fn view(&self) -> QuoteView {
        QuoteView {
            ticker: self.ticker@,
            price: self.price@,
            volume: self.volume,
            timestamp: self.timestamp,
        }
    }
}

/// How a quote is written: `TICKER|PRICE|VOLUME|TIMESTAMP`.
pub open spec fn quote_line(q: QuoteView) -> Seq<char> {
    q.ticker + seq!['|'] + q.price + seq!['|'] + decimal(q.volume as nat) + seq!['|'] + decimal(
        q.timestamp as nat,
    )
}

/// How a quote is read from text: exactly four `|`-separated fields, the second
/// a floating-point number, the third a `u32` and the fourth a `u64`. The price
/// is kept as written: `1.50` stays `1.50` and `1e2` stays `1e2`, where reading
/// it as an `f64` and displaying that would give `1.5` and `100`.
pub open spec fn parse_quote(s: Seq<char>) -> Option<QuoteView> {
    let parts = split_on(s, '|');
    if parts.len() == 4 && is_float_literal(parts[1]) && parse_unsigned(
        parts[2],
        u32::MAX as nat,
    ) is Some && parse_unsigned(parts[3], u64::MAX as nat) is Some {
        Some(
            QuoteView {
                ticker: parts[0],
                price: parts[1],
                volume: parse_unsigned(parts[2], u32::MAX as nat)->0 as u32,
                timestamp: parse_unsigned(parts[3], u64::MAX as nat)->0 as u64,
            },
        )
    } else {
        None
    }
}

/// How a quote is read from bytes: UTF-8 text read as by [`parse_quote`].
pub open spec fn decode_quote(bytes: Seq<u8>) -> Option<QuoteView> {
    if valid_utf8(bytes) {
        parse_quote(decode_utf8(bytes))
    } else {
        None
    }
}

/// The pseudo-random volume drawn from the sub-second nanoseconds of the clock.
pub open spec fn volume_from_nanos(nanos: u32) -> u32 {
    (100 + nanos % 25000) as u32
}

/// `std::str::from_utf8`: the text that the bytes encode, or `None` where they
/// are not valid UTF-8 (the documented error case).
#[verifier::external_body]
fn utf8_text(bytes: &[u8]) -> (r: Option<&str>)
    ensures
        r is Some <==> valid_utf8(bytes@),
        r matches Some(s) ==> s@ == decode_utf8(bytes@),
{
    std::str::from_utf8(bytes).ok()
}

impl StockQuote {
    /// A quote made at `timestamp` (the Unix time in seconds, read by the caller);
    /// the price is written as a floating-point number.
    pub fn new(ticker: &str, price: String, volume: u32, timestamp: u64) -> (r: StockQuote)
        requires
            is_float_literal(price@),
        ensures
            r@ == (QuoteView { ticker: ticker@, price: price@, volume, timestamp }),
    {
        let mut t = String::new();
        t.append(ticker);
        assert(t@ =~= ticker@);
        StockQuote { ticker: t, price, volume, timestamp }
    }

    /// A quote equal to this one.
    pub fn copy(&self) -> (r: StockQuote)
        ensures
            r@ == self@,
    {
        StockQuote {
            ticker: self.ticker.clone(),
            price: self.price.clone(),
            volume: self.volume,
            timestamp: self.timestamp,
        }
    }

    /// The record text of the quote, `TICKER|PRICE|VOLUME|TIMESTAMP` (its display form).
    pub fn to_string(&self) -> (r: String)
        ensures
            r@ == quote_line(self@),
    {
        let mut r = String::new();
        append_string(&mut r, &self.ticker);
        push_char(&mut r, '|');
        append_string(&mut r, &self.price);
        push_char(&mut r, '|');
        append_decimal(&mut r, self.volume as u64);
        push_char(&mut r, '|');
        append_decimal(&mut r, self.timestamp);
        assert(r@ =~= quote_line(self@));
        r
    }

    /// The timestamp followed by `s`.
    pub fn formatted_time(&self) -> (r: String)
        ensures
            r@ == decimal(self.timestamp as nat).push('s'),
    {
        let mut r = String::new();
        append_decimal(&mut r, self.timestamp);
        push_char(&mut r, 's');
        assert(r@ =~= decimal(self.timestamp as nat).push('s'));
        r
    }

    /// A quote for a ticker with a pseudo-random volume drawn from the clock's
    /// sub-second nanoseconds; the price is drawn by the caller.
    pub fn fake_random_for_ticker(ticker: &str, price: String, timestamp: u64, nanos: u32) -> (r:
        StockQuote)
        requires
            is_float_literal(price@),
        ensures
            r@ == (QuoteView {
                ticker: ticker@,
                price: price@,
                volume: volume_from_nanos(nanos),
                timestamp,
            }),
    {
        let volume = Self::fake_random_volume(nanos);
        Self::new(ticker, price, volume, timestamp)
    }

    /// The pseudo-random volume for the clock's sub-second nanoseconds: `100 + nanos % 25000`.
    pub fn fake_random_volume(nanos: u32) -> (r: u32)
        ensures
            r == volume_from_nanos(nanos),
            100 <= r < 25100,
    {
        100 + nanos % 25_000
    }

    /// The pseudo-random coin for the clock's sub-second nanoseconds: whether they are even.
    pub fn fake_random_bool(nanos: u32) -> (r: bool)
        ensures
            r == (nanos % 2 == 0),
    {
        nanos % 2 == 0
    }

    /// Reads a quote from its record text (see [`parse_quote`]). The price is
    /// kept as written, not in the form an `f64` displays (`1.50` stays `1.50`).
    pub fn from_string(s: &str) -> (r: Option<StockQuote>)
        ensures
            match r {
                Some(q) => parse_quote(s@) == Some(q@),
                None => parse_quote(s@) is None,
            },
    {
        let chars = chars_of(s);
        let parts = split_chars(&chars, '|');
        if parts.len() != 4 {
            return None;
        }
        proof {
            lemma_deep_view_at(parts, 0);
            lemma_deep_view_at(parts, 1);
            lemma_deep_view_at(parts, 2);
            lemma_deep_view_at(parts, 3);
        }
        if !float_literal(&parts[1]) {
            return None;
        }
        let volume = match parse_u32(&parts[2]) {
            Some(v) => v,
            None => {
                return None;
            },
        };
        let timestamp = match parse_u64(&parts[3]) {
            Some(t) => t,
            None => {
                return None;
            },
        };
        let q = StockQuote {
            ticker: string_from_chars(&parts[0]),
            price: string_from_chars(&parts[1]),
            volume,
            timestamp,
        };
        Some(q)
    }

    /// The UTF-8 bytes of the record text.
    pub fn to_bytes(&self) -> (r: Vec<u8>)
        ensures
            r@ == encode_utf8(quote_line(self@)),
    {
        let line = self.to_string();
        vstd::slice::slice_to_vec(line.as_str().as_bytes())
    }

    /// Reads a quote from UTF-8 bytes (see [`decode_quote`]); the price is kept
    /// as written, as by [`StockQuote::from_string`].
    pub fn from_bytes(bytes: &[u8]) -> (r: Option<StockQuote>)
        ensures
            match r {
                Some(q) => decode_quote(bytes@) == Some(q@),
                None => decode_quote(bytes@) is None,
            },
    {
        match utf8_text(bytes) {
            Some(s) => Self::from_string(s),
            None => None,
        }
    }
}

/// A quote whose price is written as a floating-point number reads back from
/// its record text as itself when its ticker holds no `|`, and as nothing when
/// it does.
pub proof fn law_quote_line_round_trip(q: QuoteView)
    requires
        is_float_literal(q.price),
    ensures
        parse_quote(quote_line(q)) == (if free_of(q.ticker, '|') {
            Some(q)
        } else {
            None
        }),
{
    let dv = decimal(q.volume as nat);
    let dt = decimal(q.timestamp as nat);
    lemma_float_literal_chars(q.price);
    lemma_decimal(q.volume as nat);
    lemma_decimal(q.timestamp as nat);
    law_decimal_round_trip(q.volume as nat, u32::MAX as nat);
    law_decimal_round_trip(q.timestamp as nat, u64::MAX as nat);
    lemma_split_on_free(q.price, '|');
    lemma_split_on_free(dv, '|');
    lemma_split_on_free(dt, '|');
    let a = q.ticker + seq!['|'] + q.price;
    let b = a + seq!['|'] + dv;
    lemma_split_on_join(q.ticker, '|', q.price);
    lemma_split_on_join(a, '|', dv);
    lemma_split_on_join(b, '|', dt);
    assert(quote_line(q) =~= b + seq!['|'] + dt);
    let parts = split_on(quote_line(q), '|');
    assert(parts =~= split_on(q.ticker, '|') + seq![q.price, dv, dt]);
    if free_of(q.ticker, '|') {
        lemma_split_on_free(q.ticker, '|');
        assert(parts =~= seq![q.ticker, q.price, dv, dt]);
    } else {
        lemma_split_on_holding(q.ticker, '|');
    }
}

/// The same from the record's UTF-8 bytes.
pub proof fn law_quote_bytes_round_trip(q: QuoteView)
    requires
        is_float_literal(q.price),
    ensures
        decode_quote(encode_utf8(quote_line(q))) == (if free_of(q.ticker, '|') {
            Some(q)
        } else {
            None
        }),
{
    law_quote_line_round_trip(q);
}

} // verus!
